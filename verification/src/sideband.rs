//! Side-band multiplexing: every frame is a pkt-line whose first payload
//! byte names a channel, and a flush ends the stream.

use crate::buffer::buf_bytes;
use crate::errors::GitError;
use crate::patch::prepend;
use crate::pktline::{
    decode_pkt, flush_pkt, lemma_flush_round_trip, lemma_pkt_line_round_trip, line_fits, pkt_line,
    read_pkt_at, write_pkt_line, Packet, PktLine,
};
use crate::protocol::{channel_tag, SideBind};
use bytes::BytesMut;
use vstd::prelude::*;

verus! {

/// The most bytes that one frame carries behind its channel tag.
pub const MAX_CHUNK: usize = 65530;

/// The frame that carries `data` on `channel`.
pub open spec fn sideband_frame(channel: SideBind, data: Seq<u8>) -> Seq<u8> {
    pkt_line(seq![channel_tag(channel)] + data)
}

/// The frames for `frames`, each a channel and what it carries, in order.
pub open spec fn mux(frames: Seq<(SideBind, Seq<u8>)>) -> Seq<u8>
    decreases frames.len(),
{
    if frames.len() == 0 {
        Seq::empty()
    } else {
        sideband_frame(frames[0].0, frames[0].1) + mux(frames.skip(1))
    }
}

/// What the frames of `channel` among `frames` carry, in order.
pub open spec fn channel_data(frames: Seq<(SideBind, Seq<u8>)>, channel: SideBind) -> Seq<u8>
    decreases frames.len(),
{
    if frames.len() == 0 {
        Seq::empty()
    } else if frames[0].0 == channel {
        frames[0].1 + channel_data(frames.skip(1), channel)
    } else {
        channel_data(frames.skip(1), channel)
    }
}

/// What the frames of the channel with tag `tag` carry in `stream`, in the
/// order in which they arrive, up to the flush that ends the stream. There
/// is no such thing where a packet is malformed, where a frame has no tag
/// or a tag that names no channel, or where the flush is missing.
pub open spec fn demux(stream: Seq<u8>, tag: u8) -> Option<Seq<u8>>
    decreases stream.len(),
{
    match decode_pkt(stream) {
        None => None,
        Some((Packet::Flush, _)) => Some(Seq::empty()),
        Some((Packet::Data(payload), used)) => if payload.len() == 0 || payload[0] < 1
            || payload[0] > 3 {
            None
        } else if payload[0] == tag {
            prepend(payload.skip(1), demux(stream.skip(used as int), tag))
        } else {
            demux(stream.skip(used as int), tag)
        },
    }
}

/// Writes the frame that carries `data` on `channel` behind what `buf`
/// holds. Fails with `LimitExceeded`, and leaves `buf` as it is, where
/// `data` is longer than a frame can carry or the buffer is full.
pub fn write_sideband(buf: &mut BytesMut, channel: SideBind, data: &[u8]) -> (r: Result<
    (),
    GitError,
>)
    ensures
        match r {
            Ok(()) => line_fits(buf_bytes(*old(buf)).len(), data@.len() + 1) && buf_bytes(
                *final(buf),
            ) == buf_bytes(*old(buf)) + sideband_frame(channel, data@),
            Err(e) => e == GitError::LimitExceeded && !line_fits(
                buf_bytes(*old(buf)).len(),
                data@.len() + 1,
            ) && buf_bytes(*final(buf)) == buf_bytes(*old(buf)),
        },
{
    if data.len() > MAX_CHUNK {
        return Err(GitError::LimitExceeded);
    }
    let mut payload: Vec<u8> = Vec::new();
    payload.push(channel.value());
    crate::delta::append_range(&mut payload, data, 0, data.len());
    proof {
        assert(data@.subrange(0, data@.len() as int) =~= data@);
    }
    write_pkt_line(buf, payload.as_slice())
}

/// Reads what the frames of `channel` carry in `stream`, up to the flush
/// that ends it. Fails with `FormatError` where the stream is malformed.
pub fn read_sideband(stream: &[u8], channel: SideBind) -> (r: Result<Vec<u8>, GitError>)
    ensures
        match r {
            Ok(data) => demux(stream@, channel_tag(channel)) == Some(data@),
            Err(e) => e == GitError::FormatError && demux(stream@, channel_tag(channel)) is None,
        },
{
    let tag: u8 = channel.value();
    let n: usize = stream.len();
    let mut out: Vec<u8> = Vec::new();
    let mut pos: usize = 0;
    let ghost whole = demux(stream@, tag);
    proof {
        assert(stream@.skip(0) =~= stream@);
        if let Some(r) = whole {
            assert(Seq::<u8>::empty() + r =~= r);
        }
    }
    loop
        invariant
            pos <= n,
            n == stream@.len(),
            tag == channel_tag(channel),
            whole == demux(stream@, tag),
            whole == prepend(out@, demux(stream@.skip(pos as int), tag)),
        decreases n - pos,
    {
        let ghost rest = stream@.skip(pos as int);
        let ghost before = out@;
        match read_pkt_at(stream, pos) {
            Err(_) => {
                return Err(GitError::FormatError);
            },
            Ok((PktLine::Flush, _)) => {
                proof {
                    assert(out@ + Seq::<u8>::empty() =~= out@);
                }
                return Ok(out);
            },
            Ok((PktLine::Data(payload), next)) => {
                if payload.len() == 0 || payload[0] < 1 || payload[0] > 3 {
                    return Err(GitError::FormatError);
                }
                proof {
                    assert(rest.skip(next - pos) =~= stream@.skip(next as int));
                }
                if payload[0] == tag {
                    crate::delta::append_range(&mut out, payload.as_slice(), 1, payload.len());
                    proof {
                        assert(payload@.subrange(1, payload@.len() as int) =~= payload@.skip(1));
                        let tail = demux(stream@.skip(next as int), tag);
                        if let Some(t) = tail {
                            assert(before + (payload@.skip(1) + t) =~= out@ + t);
                        }
                    }
                }
                pos = next;
            },
        }
    }
}

/// Side-band reassembly: for any frames followed by a flush, what the
/// frames of one channel carry, put together in the order in which they
/// arrive, is what was sent on that channel. In particular the frames of
/// channel 1 give the bytes of the pack back.
pub proof fn lemma_sideband_reassembly(frames: Seq<(SideBind, Seq<u8>)>, channel: SideBind)
    requires
        forall|i: int| 0 <= i < frames.len() ==> (#[trigger] frames[i]).1.len() <= MAX_CHUNK,
    ensures
        demux(mux(frames) + flush_pkt(), channel_tag(channel)) == Some(
            channel_data(frames, channel),
        ),
    decreases frames.len(),
{
    let stream = mux(frames) + flush_pkt();
    if frames.len() == 0 {
        assert(stream =~= flush_pkt() + Seq::<u8>::empty());
        lemma_flush_round_trip(Seq::empty());
    } else {
        let (first, data) = frames[0];
        let payload = seq![channel_tag(first)] + data;
        let tail = mux(frames.skip(1)) + flush_pkt();
        assert(stream =~= pkt_line(payload) + tail);
        lemma_pkt_line_round_trip(payload, tail);
        assert(stream.skip(pkt_line(payload).len() as int) =~= tail);
        assert(payload.skip(1) =~= data);
        assert forall|i: int| 0 <= i < frames.skip(1).len() implies (#[trigger] frames.skip(
            1,
        )[i]).1.len() <= MAX_CHUNK by {
            assert(frames.skip(1)[i] == frames[i + 1]);
        }
        lemma_sideband_reassembly(frames.skip(1), channel);
    }
}

} // verus!
