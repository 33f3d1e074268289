//! The upload-pack service, which serves a fetch: the client names the
//! objects it wants, says `done`, and receives a pack on side-band
//! channel 1. The service always answers with a full pack and never
//! acknowledges a common base.

use crate::buffer::buf_bytes;
use crate::errors::GitError;
use crate::hash::{hex_decode, is_hex};
use crate::pktline::{
    decode_pkt, flush_pkt, lemma_flush_round_trip, lemma_pkt_line_round_trip, pkt_line,
    read_pkt_at, write_flush, write_pkt_line, Packet, PktLine, MAX_PAYLOAD,
};
use crate::protocol::SideBind;
use crate::sideband::{sideband_frame, write_sideband, MAX_CHUNK};
use crate::text::starts_with;
use bytes::BytesMut;
use vstd::prelude::*;

verus! {

/// Where a fetch stands.
#[derive(Clone, Copy, Debug, PartialEq, Eq, Structural)]
pub enum UploadPackState {
    /// The refs have not been advertised yet.
    AdvertiseRefs,
    /// The client names the objects it wants.
    AwaitWantLines,
    /// A flush has ended the first section; the client may still name
    /// objects it wants and say what it has, until it says `done`.
    AwaitDone,
    /// The pack goes out, chunk by chunk.
    StreamPack,
    /// The pack is out and the stream is ended.
    Closed,
    /// The client broke the protocol; the connection ends.
    Failed,
}

/// The word `want`.
pub open spec fn want_word() -> Seq<u8> {
    seq![0x77u8, 0x61u8, 0x6eu8, 0x74u8]
}

/// The word `done`.
pub open spec fn done_word() -> Seq<u8> {
    seq![0x64u8, 0x6fu8, 0x6eu8, 0x65u8]
}

/// The line `NAK`, which says that no common base was found.
pub open spec fn nak_line() -> Seq<u8> {
    pkt_line(seq![0x4eu8, 0x41u8, 0x4bu8, 0x0au8])
}

/// The object id that a want line names: the forty hexadecimal digits
/// behind `want` and a space. There is none where the line does not begin
/// so, is cut short, or the digits are not hexadecimal.
pub open spec fn want_id(payload: Seq<u8>) -> Option<Seq<u8>> {
    if payload.len() >= 45 && want_word().is_prefix_of(payload) && payload[4] == 0x20 && is_hex(
        payload.subrange(5, 45),
    ) {
        Some(hex_decode(payload.subrange(5, 45)))
    } else {
        None
    }
}

/// What one packet of the client does to a fetch that waits for one: a
/// line that begins with `done` starts the pack; a line that names an
/// object with `want` adds its id, before a flush and after it; a flush
/// ends the first section; any other line is passed over and is no
/// failure. No packet is expected before the refs are advertised or once
/// the pack goes out.
pub open spec fn negotiate_step(
    state: UploadPackState,
    wants: Seq<Seq<u8>>,
    packet: Packet,
) -> (UploadPackState, Seq<Seq<u8>>) {
    if !negotiating(state) {
        (UploadPackState::Failed, wants)
    } else {
        match packet {
            Packet::Flush => (UploadPackState::AwaitDone, wants),
            Packet::Data(payload) => if done_word().is_prefix_of(payload) {
                (UploadPackState::StreamPack, wants)
            } else {
                match want_id(payload) {
                    Some(id) => (state, wants.push(id)),
                    None => (state, wants),
                }
            },
        }
    }
}

/// Whether a fetch in `state` waits for a packet of the client.
pub open spec fn negotiating(state: UploadPackState) -> bool {
    state == UploadPackState::AwaitWantLines || state == UploadPackState::AwaitDone
}

/// Where the packets of `input` leave a fetch: they are read one after
/// another for as long as the fetch waits for one. Input that ends before
/// `done`, and input that holds a malformed packet, break the protocol.
pub open spec fn negotiate_all(
    state: UploadPackState,
    wants: Seq<Seq<u8>>,
    input: Seq<u8>,
) -> (UploadPackState, Seq<Seq<u8>>)
    decreases input.len(),
{
    if !negotiating(state) {
        (state, wants)
    } else {
        match decode_pkt(input) {
            None => (UploadPackState::Failed, wants),
            Some((packet, used)) => {
                let next = negotiate_step(state, wants, packet);
                negotiate_all(next.0, next.1, input.skip(used as int))
            },
        }
    }
}

/// The bytes that carry one packet.
pub open spec fn packet_bytes(packet: Packet) -> Seq<u8> {
    match packet {
        Packet::Flush => flush_pkt(),
        Packet::Data(payload) => pkt_line(payload),
    }
}

/// The bytes that carry `packets`, one after another.
pub open spec fn packets_bytes(packets: Seq<Packet>) -> Seq<u8>
    decreases packets.len(),
{
    if packets.len() == 0 {
        Seq::empty()
    } else {
        packet_bytes(packets[0]) + packets_bytes(packets.skip(1))
    }
}

/// The ids that the want lines among `packets` name, in order.
pub open spec fn wants_of(packets: Seq<Packet>) -> Seq<Seq<u8>>
    decreases packets.len(),
{
    if packets.len() == 0 {
        Seq::empty()
    } else {
        let first = match packets[0] {
            Packet::Flush => Seq::empty(),
            Packet::Data(payload) => match want_id(payload) {
                Some(id) => seq![id],
                None => Seq::empty(),
            },
        };
        first + wants_of(packets.skip(1))
    }
}

/// Whether `packets` can be written and none of them is a line that
/// begins with `done`.
pub open spec fn before_done(packets: Seq<Packet>) -> bool {
    forall|i: int|
        0 <= i < packets.len() ==> ((#[trigger] packets[i]) matches Packet::Data(payload)
            ==> payload.len() <= MAX_PAYLOAD && !done_word().is_prefix_of(payload))
}

/// A request that is packets, none of them `done`, and a line that begins
/// with `done` leads to the pack with the ids of all its want lines, in
/// order: those before a flush and those after it. Flushes and other
/// lines add nothing and are no failure, and what follows the `done` line
/// is not read.
pub proof fn lemma_wants_before_done(
    state: UploadPackState,
    wants: Seq<Seq<u8>>,
    packets: Seq<Packet>,
    done: Seq<u8>,
    tail: Seq<u8>,
)
    requires
        negotiating(state),
        before_done(packets),
        done_word().is_prefix_of(done),
        done.len() <= MAX_PAYLOAD,
    ensures
        negotiate_all(state, wants, packets_bytes(packets) + pkt_line(done) + tail) == (
            UploadPackState::StreamPack,
            wants + wants_of(packets),
        ),
    decreases packets.len(),
{
    let input = packets_bytes(packets) + pkt_line(done) + tail;
    if packets.len() == 0 {
        assert(input =~= pkt_line(done) + tail);
        lemma_pkt_line_round_trip(done, tail);
        assert(input.skip(pkt_line(done).len() as int) =~= tail);
        assert(wants + wants_of(packets) =~= wants);
        assert(decode_pkt(input) == Some((Packet::Data(done), pkt_line(done).len())));
        assert(negotiate_step(state, wants, Packet::Data(done)) == (
            UploadPackState::StreamPack,
            wants,
        ));
        assert(negotiate_all(UploadPackState::StreamPack, wants, tail) == (
            UploadPackState::StreamPack,
            wants,
        ));
    } else {
        let rest = packets.skip(1);
        let after = packets_bytes(rest) + pkt_line(done) + tail;
        assert(input =~= packet_bytes(packets[0]) + after);
        assert forall|i: int| 0 <= i < rest.len() implies ((#[trigger] rest[i]) matches Packet::Data(
            payload,
        ) ==> payload.len() <= MAX_PAYLOAD && !done_word().is_prefix_of(payload)) by {
            assert(rest[i] == packets[i + 1]);
        }
        match packets[0] {
            Packet::Flush => {
                lemma_flush_round_trip(after);
                assert(input.skip(4) =~= after);
                assert(decode_pkt(input) == Some((Packet::Flush, 4nat)));
                lemma_wants_before_done(UploadPackState::AwaitDone, wants, rest, done, tail);
                assert(wants_of(packets) =~= wants_of(rest));
                assert(negotiate_all(state, wants, input) == negotiate_all(
                    UploadPackState::AwaitDone,
                    wants,
                    after,
                ));
            },
            Packet::Data(payload) => {
                lemma_pkt_line_round_trip(payload, after);
                assert(input.skip(pkt_line(payload).len() as int) =~= after);
                let next = negotiate_step(state, wants, packets[0]);
                assert(decode_pkt(input) == Some((packets[0], pkt_line(payload).len())));
                assert(next.0 == state);
                lemma_wants_before_done(next.0, next.1, rest, done, tail);
                assert(next.1 + wants_of(rest) =~= wants + wants_of(packets));
                assert(negotiate_all(state, wants, input) == negotiate_all(next.0, next.1, after));
            },
        }
    }
}

/// What goes out for one chunk of the pack: a frame of channel 1, or the
/// flush that ends the stream where the chunk is empty.
pub open spec fn stream_bytes(chunk: Seq<u8>) -> Seq<u8> {
    if chunk.len() == 0 {
        flush_pkt()
    } else {
        sideband_frame(SideBind::PackfileData, chunk)
    }
}

/// One fetch: where it stands and the objects that the client wants.
pub struct UploadPack {
    pub state: UploadPackState,
    pub wants: Vec<crate::hash::Hash>,
}

impl UploadPack {
    /// The ids of the wanted objects, in the order in which they came.
    pub open spec fn wanted(&self) -> Seq<Seq<u8>> {
        Seq::new(self.wants@.len(), |i: int| self.wants@[i]@)
    }

    /// A fetch whose refs have not been advertised yet.
    pub fn new() -> (session: UploadPack)
        ensures
            session.state == UploadPackState::AdvertiseRefs,
            session.wanted() == Seq::<Seq<u8>>::empty(),
    {
        let session = UploadPack { state: UploadPackState::AdvertiseRefs, wants: Vec::new() };
        assert(session.wanted() =~= Seq::<Seq<u8>>::empty());
        session
    }

    /// Notes that the refs were advertised: the fetch now waits for the
    /// wants. In any other state the protocol is broken.
    pub fn advertised(&mut self)
        ensures
            final(self).wants == old(self).wants,
            final(self).state == if old(self).state == UploadPackState::AdvertiseRefs {
                UploadPackState::AwaitWantLines
            } else {
                UploadPackState::Failed
            },
    {
        if self.state == UploadPackState::AdvertiseRefs {
            self.state = UploadPackState::AwaitWantLines;
        } else {
            self.state = UploadPackState::Failed;
        }
    }

    /// Takes in one packet of the client.
    pub fn receive(&mut self, packet: &PktLine)
        ensures
            (final(self).state, final(self).wanted()) == negotiate_step(
                old(self).state,
                old(self).wanted(),
                packet@,
            ),
    {
        let want: [u8; 4] = [0x77, 0x61, 0x6e, 0x74];
        let done: [u8; 4] = [0x64, 0x6f, 0x6e, 0x65];
        proof {
            assert(want@ =~= want_word());
            assert(done@ =~= done_word());
        }
        let ghost before = self.wanted();
        if self.state != UploadPackState::AwaitWantLines && self.state
            != UploadPackState::AwaitDone {
            self.state = UploadPackState::Failed;
        } else {
            match packet {
                PktLine::Flush => {
                    self.state = UploadPackState::AwaitDone;
                },
                PktLine::Data(payload) => {
                    if starts_with(payload.as_slice(), done.as_slice()) {
                        self.state = UploadPackState::StreamPack;
                    } else if payload.len() >= 45 && starts_with(
                        payload.as_slice(),
                        want.as_slice(),
                    ) && payload[4] == 0x20 {
                        let mut digits: Vec<u8> = Vec::new();
                        crate::delta::append_range(&mut digits, payload.as_slice(), 5, 45);
                        match crate::hash::Hash::from_bytes(digits.as_slice()) {
                            Ok(id) => {
                                self.wants.push(id);
                                assert(self.wanted() =~= before.push(id@));
                            },
                            Err(_) => {},
                        }
                    }
                },
            }
        }
        assert(self.wanted() =~= negotiate_step(old(self).state, before, packet@).1);
    }

    /// Takes in the packets of `body`, one after another, for as long as
    /// the fetch waits for one. Succeeds where they lead to the pack, and
    /// fails with `FormatError` where they do not.
    pub fn negotiate(&mut self, body: &[u8]) -> (r: Result<(), GitError>)
        ensures
            (final(self).state, final(self).wanted()) == negotiate_all(
                old(self).state,
                old(self).wanted(),
                body@,
            ),
            match r {
                Ok(()) => final(self).state == UploadPackState::StreamPack,
                Err(e) => e == GitError::FormatError && final(self).state
                    != UploadPackState::StreamPack,
            },
    {
        let n: usize = body.len();
        let mut pos: usize = 0;
        let ghost goal = negotiate_all(self.state, self.wanted(), body@);
        proof {
            assert(body@.skip(0) =~= body@);
        }
        while self.state == UploadPackState::AwaitWantLines || self.state
            == UploadPackState::AwaitDone
            invariant
                pos <= n,
                n == body@.len(),
                goal == negotiate_all(old(self).state, old(self).wanted(), body@),
                goal == negotiate_all(self.state, self.wanted(), body@.skip(pos as int)),
            decreases n - pos,
        {
            match read_pkt_at(body, pos) {
                Err(_) => {
                    self.state = UploadPackState::Failed;
                    return Err(GitError::FormatError);
                },
                Ok((packet, next)) => {
                    proof {
                        assert(body@.skip(pos as int).skip(next - pos) =~= body@.skip(next as int));
                    }
                    self.receive(&packet);
                    pos = next;
                },
            }
        }
        if self.state == UploadPackState::StreamPack {
            Ok(())
        } else {
            Err(GitError::FormatError)
        }
    }

    /// Opens the answer to the wants: the line `NAK`. In any state but
    /// `StreamPack` the protocol is broken.
    pub fn acknowledge(&mut self) -> (r: Result<BytesMut, GitError>)
        ensures
            final(self).wants == old(self).wants,
            match r {
                Ok(out) => old(self).state == UploadPackState::StreamPack && final(self).state
                    == UploadPackState::StreamPack && buf_bytes(out) == nak_line(),
                Err(e) => e == GitError::FormatError && old(self).state
                    != UploadPackState::StreamPack && final(self).state
                    == UploadPackState::Failed,
            },
    {
        if self.state != UploadPackState::StreamPack {
            self.state = UploadPackState::Failed;
            return Err(GitError::FormatError);
        }
        let nak: [u8; 4] = [0x4e, 0x41, 0x4b, 0x0a];
        let mut out = BytesMut::new();
        match write_pkt_line(&mut out, nak.as_slice()) {
            Ok(()) => {
                proof {
                    assert(nak@ =~= seq![0x4eu8, 0x41u8, 0x4bu8, 0x0au8]);
                    assert(buf_bytes(out) =~= nak_line());
                }
                Ok(out)
            },
            Err(_) => {
                self.state = UploadPackState::Failed;
                Err(GitError::FormatError)
            },
        }
    }

    /// Frames the next chunk of the pack for side-band channel 1. An
    /// empty chunk says that the pack is exhausted: the stream is ended
    /// with a flush and the fetch is closed. Fails with `LimitExceeded`
    /// where the chunk is longer than one frame carries, and with
    /// `FormatError` in any state but `StreamPack`; either way the fetch
    /// has failed.
    pub fn stream(&mut self, chunk: &[u8]) -> (r: Result<BytesMut, GitError>)
        ensures
            final(self).wants == old(self).wants,
            match r {
                Ok(out) => {
                    &&& old(self).state == UploadPackState::StreamPack
                    &&& chunk@.len() <= MAX_CHUNK
                    &&& buf_bytes(out) == stream_bytes(chunk@)
                    &&& final(self).state == if chunk@.len() == 0 {
                        UploadPackState::Closed
                    } else {
                        UploadPackState::StreamPack
                    }
                },
                Err(e) => {
                    &&& final(self).state == UploadPackState::Failed
                    &&& e == if old(self).state != UploadPackState::StreamPack {
                        GitError::FormatError
                    } else {
                        GitError::LimitExceeded
                    }
                    &&& old(self).state == UploadPackState::StreamPack ==> chunk@.len()
                        > MAX_CHUNK
                },
            },
    {
        if self.state != UploadPackState::StreamPack {
            self.state = UploadPackState::Failed;
            return Err(GitError::FormatError);
        }
        let mut out = BytesMut::new();
        if chunk.len() == 0 {
            match write_flush(&mut out) {
                Ok(()) => {
                    self.state = UploadPackState::Closed;
                    proof {
                        assert(buf_bytes(out) =~= flush_pkt());
                    }
                    Ok(out)
                },
                Err(e) => {
                    self.state = UploadPackState::Failed;
                    Err(e)
                },
            }
        } else {
            match write_sideband(&mut out, SideBind::PackfileData, chunk) {
                Ok(()) => {
                    proof {
                        assert(buf_bytes(out) =~= sideband_frame(SideBind::PackfileData, chunk@));
                    }
                    Ok(out)
                },
                Err(e) => {
                    self.state = UploadPackState::Failed;
                    Err(e)
                },
            }
        }
    }
}

} // verus!
