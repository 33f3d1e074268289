//! Pkt-line framing: a line is its length in four hexadecimal digits, the
//! four digits counted in, and its payload. The length `0000` is the flush
//! packet, which ends a section and carries nothing.

use crate::buffer::buf_bytes;
use crate::errors::GitError;
use crate::hex::{digit_of, hex_digit, hex_value, lemma_hex_digit_value, value_of};
use bytes::BytesMut;
use vstd::prelude::*;
use vstd::utf8::encode_utf8;

verus! {

/// The longest payload of one line: the length must fit four digits.
pub const MAX_PAYLOAD: usize = 65531;

/// The most bytes that a buffer holds.
pub const MAX_BUFFER: usize = isize::MAX as usize;

/// `n`, a number below 65536, in four lower-case hexadecimal digits.
pub open spec fn hex4(n: int) -> Seq<u8> {
    seq![
        hex_digit(n / 0x1000 % 16),
        hex_digit(n / 0x100 % 16),
        hex_digit(n / 0x10 % 16),
        hex_digit(n % 16),
    ]
}

/// The number that the first four bytes of `s` spell in hexadecimal.
pub open spec fn parse_hex4(s: Seq<u8>) -> Option<int> {
    if s.len() < 4 || hex_value(s[0]) is None || hex_value(s[1]) is None || hex_value(s[2])
        is None || hex_value(s[3]) is None {
        None
    } else {
        Some(
            hex_value(s[0]).unwrap() * 0x1000 + hex_value(s[1]).unwrap() * 0x100 + hex_value(
                s[2],
            ).unwrap() * 0x10 + hex_value(s[3]).unwrap(),
        )
    }
}

/// The line that carries `payload`.
pub open spec fn pkt_line(payload: Seq<u8>) -> Seq<u8> {
    hex4(payload.len() as int + 4) + payload
}

/// The flush packet: the four bytes `0000`.
pub open spec fn flush_pkt() -> Seq<u8> {
    seq![0x30u8, 0x30u8, 0x30u8, 0x30u8]
}

/// What one packet carries.
pub enum Packet {
    /// The end of a section.
    Flush,
    /// A line with its payload.
    Data(Seq<u8>),
}

/// The packet at the front of `input` and the number of bytes it takes.
/// There is none where fewer than four bytes are left, where the four are
/// not hexadecimal digits, where the length they spell is one, two or
/// three, or where the payload is cut short.
pub open spec fn decode_pkt(input: Seq<u8>) -> Option<(Packet, nat)> {
    match parse_hex4(input) {
        None => None,
        Some(total) => if total == 0 {
            Some((Packet::Flush, 4))
        } else if total < 4 || total > input.len() {
            None
        } else {
            Some((Packet::Data(input.subrange(4, total)), total as nat))
        },
    }
}

/// A packet as the reader hands it out.
#[derive(Debug, Clone, PartialEq, Eq)]
pub enum PktLine {
    /// The end of a section.
    Flush,
    /// A line with its payload.
    Data(Vec<u8>),
}

impl View for PktLine {
    type V = Packet;

    open spec fn view(&self) -> Packet {
        match self {
            PktLine::Flush => Packet::Flush,
            PktLine::Data(payload) => Packet::Data(payload@),
        }
    }
}

/// Writes `n` in four lower-case hexadecimal digits.
pub(crate) fn write_hex4(n: usize) -> (digits: [u8; 4])
    requires
        n <= 0xffff,
    ensures
        digits@ == hex4(n as int),
{
    let digits = [
        digit_of(n / 0x1000 % 16),
        digit_of(n / 0x100 % 16),
        digit_of(n / 0x10 % 16),
        digit_of(n % 16),
    ];
    assert(digits@ =~= hex4(n as int));
    digits
}

/// Reads the four hexadecimal digits at `at` of `input`.
pub(crate) fn read_hex4(input: &[u8], at: usize) -> (r: Option<usize>)
    requires
        at <= input@.len(),
    ensures
        match r {
            Some(n) => parse_hex4(input@.skip(at as int)) == Some(n as int) && n <= 0xffff && at
                + 4 <= input@.len(),
            None => parse_hex4(input@.skip(at as int)) is None,
        },
{
    if input.len() - at < 4 {
        return None;
    }
    let ghost s = input@.skip(at as int);
    assert(s[0] == input@[at + 0] && s[1] == input@[at + 1] && s[2] == input@[at + 2] && s[3]
        == input@[at + 3]);
    let d0 = match value_of(input[at]) {
        Some(v) => v,
        None => {
            return None;
        },
    };
    let d1 = match value_of(input[at + 1]) {
        Some(v) => v,
        None => {
            return None;
        },
    };
    let d2 = match value_of(input[at + 2]) {
        Some(v) => v,
        None => {
            return None;
        },
    };
    let d3 = match value_of(input[at + 3]) {
        Some(v) => v,
        None => {
            return None;
        },
    };
    Some(d0 * 0x1000 + d1 * 0x100 + d2 * 0x10 + d3)
}

/// Reading four written digits gives the number back.
pub proof fn lemma_hex4_round_trip(n: int, tail: Seq<u8>)
    requires
        0 <= n <= 0xffff,
    ensures
        parse_hex4(hex4(n) + tail) == Some(n),
{
    let s = hex4(n) + tail;
    let d0 = n / 0x1000 % 16;
    let d1 = n / 0x100 % 16;
    let d2 = n / 0x10 % 16;
    let d3 = n % 16;
    assert(s[0] == hex_digit(d0) && s[1] == hex_digit(d1) && s[2] == hex_digit(d2) && s[3]
        == hex_digit(d3));
    lemma_hex_digit_value(d0);
    lemma_hex_digit_value(d1);
    lemma_hex_digit_value(d2);
    lemma_hex_digit_value(d3);
    assert(d0 * 0x1000 + d1 * 0x100 + d2 * 0x10 + d3 == n);
}

/// Whether a line with a payload of `payload_len` bytes can be written
/// behind `held` bytes: the payload is one that a line carries, and the
/// buffer can hold the line as well.
pub open spec fn line_fits(held: nat, payload_len: nat) -> bool {
    payload_len <= MAX_PAYLOAD && held + payload_len + 4 <= MAX_BUFFER
}

/// Writes the line that carries `payload` behind what `buf` holds: four
/// lower-case hexadecimal digits for the length of the payload and four,
/// and the payload. Reading the bytes that were written gives the payload
/// back and takes all of them. Fails with `LimitExceeded`, and leaves
/// `buf` as it is, where the payload is longer than a line can carry or
/// the buffer cannot hold the line.
pub fn write_pkt_line(buf: &mut BytesMut, payload: &[u8]) -> (r: Result<(), GitError>)
    ensures
        match r {
            Ok(()) => {
                &&& line_fits(buf_bytes(*old(buf)).len(), payload@.len())
                &&& buf_bytes(*final(buf)) == buf_bytes(*old(buf)) + hex4(payload@.len() as int + 4)
                    + payload@
                &&& buf_bytes(*final(buf)) == buf_bytes(*old(buf)) + pkt_line(payload@)
                &&& decode_pkt(buf_bytes(*final(buf)).skip(buf_bytes(*old(buf)).len() as int))
                    == Some((Packet::Data(payload@), (payload@.len() + 4) as nat))
            },
            Err(e) => e == GitError::LimitExceeded && !line_fits(
                buf_bytes(*old(buf)).len(),
                payload@.len(),
            ) && buf_bytes(*final(buf)) == buf_bytes(*old(buf)),
        },
{
    if payload.len() > MAX_PAYLOAD || buf.len() > MAX_BUFFER - 4 - payload.len() {
        return Err(GitError::LimitExceeded);
    }
    let digits = write_hex4(payload.len() + 4);
    buf.extend_from_slice(digits.as_slice());
    buf.extend_from_slice(payload);
    proof {
        let before = buf_bytes(*old(buf));
        assert(buf_bytes(*buf) =~= before + pkt_line(payload@));
        assert(buf_bytes(*buf) =~= before + hex4(payload@.len() as int + 4) + payload@);
        lemma_pkt_line_round_trip(payload@, Seq::empty());
        assert(buf_bytes(*buf).skip(before.len() as int) =~= pkt_line(payload@) + Seq::<
            u8,
        >::empty());
    }
    Ok(())
}

/// Writes the line that carries the bytes of `buf_str` behind what `buf`
/// holds, as `write_pkt_line` does, and fails as it does.
pub fn put_str_to_buf(buf: &mut BytesMut, buf_str: String) -> (r: Result<(), GitError>)
    ensures
        match r {
            Ok(()) => {
                &&& line_fits(buf_bytes(*old(buf)).len(), encode_utf8(buf_str@).len())
                &&& buf_bytes(*final(buf)) == buf_bytes(*old(buf)) + hex4(
                    encode_utf8(buf_str@).len() as int + 4,
                ) + encode_utf8(buf_str@)
                &&& buf_bytes(*final(buf)) == buf_bytes(*old(buf)) + pkt_line(
                    encode_utf8(buf_str@),
                )
                &&& decode_pkt(buf_bytes(*final(buf)).skip(buf_bytes(*old(buf)).len() as int))
                    == Some(
                    (
                        Packet::Data(encode_utf8(buf_str@)),
                        (encode_utf8(buf_str@).len() + 4) as nat,
                    ),
                )
            },
            Err(e) => e == GitError::LimitExceeded && !line_fits(
                buf_bytes(*old(buf)).len(),
                encode_utf8(buf_str@).len(),
            ) && buf_bytes(*final(buf)) == buf_bytes(*old(buf)),
        },
{
    write_pkt_line(buf, buf_str.as_str().as_bytes())
}

/// The lines that carry the texts `lines`, one pkt-line for each, in
/// order.
pub open spec fn lines_encoding(lines: Seq<Seq<char>>) -> Seq<u8>
    decreases lines.len(),
{
    if lines.len() == 0 {
        Seq::empty()
    } else {
        lines_encoding(lines.drop_last()) + pkt_line(encode_utf8(lines.last()))
    }
}

/// Whether the texts `lines` can be written behind `held` bytes: none is
/// longer than a pkt-line carries, and the buffer can hold them all.
pub open spec fn lines_fit(held: nat, lines: Seq<Seq<char>>) -> bool {
    &&& forall|i: int| 0 <= i < lines.len() ==> encode_utf8(#[trigger] lines[i]).len() <= MAX_PAYLOAD
    &&& held + lines_encoding(lines).len() <= MAX_BUFFER
}

/// The number of lines, among the first `upto` of `lines`, that are written
/// behind `held` bytes before one does not fit.
pub open spec fn fit_count(held: nat, lines: Seq<Seq<char>>, upto: nat) -> nat
    decreases upto,
{
    if upto == 0 || upto > lines.len() {
        0
    } else {
        let before = fit_count(held, lines, (upto - 1) as nat);
        if before == upto - 1 && line_fits(
            held + lines_encoding(lines.take(upto - 1)).len(),
            encode_utf8(lines[upto - 1]).len(),
        ) {
            upto
        } else {
            before
        }
    }
}

/// Once a line does not fit, no later line is written.
pub proof fn lemma_fit_count_stays(held: nat, lines: Seq<Seq<char>>, upto: nat, n: nat)
    requires
        upto <= n <= lines.len(),
        fit_count(held, lines, upto) < upto,
    ensures
        fit_count(held, lines, n) == fit_count(held, lines, upto),
    decreases n,
{
    if n > upto {
        lemma_fit_count_stays(held, lines, upto, (n - 1) as nat);
    }
}

/// The texts of `lines`.
pub open spec fn texts(lines: Seq<String>) -> Seq<Seq<char>> {
    Seq::new(lines.len(), |i: int| lines[i]@)
}

/// Some of the lines take no more bytes than all of them.
pub proof fn lemma_lines_grow(lines: Seq<Seq<char>>, k: int)
    requires
        0 <= k <= lines.len(),
    ensures
        lines_encoding(lines.take(k)).len() <= lines_encoding(lines).len(),
    decreases lines.len(),
{
    if k == lines.len() {
        assert(lines.take(k) =~= lines);
    } else {
        lemma_lines_grow(lines.drop_last(), k);
        assert(lines.drop_last().take(k) =~= lines.take(k));
    }
}

/// Writes one pkt-line for each text of `lines` behind what `buf` holds,
/// up to the first that does not fit. Fails with `LimitExceeded` where a
/// line does not fit; `buf` then holds, behind what it held, the lines
/// before that one.
pub fn put_lines(buf: &mut BytesMut, lines: &Vec<String>) -> (r: Result<(), GitError>)
    ensures
        buf_bytes(*final(buf)) == buf_bytes(*old(buf)) + lines_encoding(
            texts(lines@).take(
                fit_count(buf_bytes(*old(buf)).len(), texts(lines@), lines@.len()) as int,
            ),
        ),
        match r {
            Ok(()) => fit_count(buf_bytes(*old(buf)).len(), texts(lines@), lines@.len())
                == lines@.len() && buf_bytes(*final(buf)) == buf_bytes(*old(buf))
                + lines_encoding(texts(lines@)),
            Err(e) => e == GitError::LimitExceeded && fit_count(
                buf_bytes(*old(buf)).len(),
                texts(lines@),
                lines@.len(),
            ) < lines@.len() && !lines_fit(buf_bytes(*old(buf)).len(), texts(lines@)),
        },
{
    let ghost all = texts(lines@);
    let ghost start = buf_bytes(*buf);
    let n: usize = lines.len();
    let mut i: usize = 0;
    proof {
        assert(start + lines_encoding(all.take(0)) =~= start);
    }
    while i < n
        invariant
            i <= n,
            n == lines@.len(),
            all == texts(lines@),
            start == buf_bytes(*old(buf)),
            buf_bytes(*buf) == start + lines_encoding(all.take(i as int)),
            fit_count(start.len(), all, i as nat) == i,
        decreases n - i,
    {
        proof {
            assert(all.take(i + 1).drop_last() =~= all.take(i as int));
            assert(all.take(i + 1).last() == lines@[i as int]@);
            lemma_lines_grow(all, i + 1);
        }
        let ghost before = buf_bytes(*buf);
        let line = lines[i].clone();
        match put_str_to_buf(buf, line) {
            Ok(()) => {
                proof {
                    assert(before + pkt_line(encode_utf8(all[i as int])) =~= start
                        + lines_encoding(all.take(i + 1)));
                }
            },
            Err(e) => {
                proof {
                    assert(fit_count(start.len(), all, (i + 1) as nat) == i);
                    lemma_fit_count_stays(start.len(), all, (i + 1) as nat, n as nat);
                }
                return Err(e);
            },
        }
        i += 1;
    }
    proof {
        assert(all.take(i as int) =~= all);
    }
    Ok(())
}

/// Writes a flush packet behind what `buf` holds. Fails with
/// `LimitExceeded`, and leaves `buf` as it is, where the buffer cannot
/// hold four bytes more.
pub fn write_flush(buf: &mut BytesMut) -> (r: Result<(), GitError>)
    ensures
        match r {
            Ok(()) => buf_bytes(*old(buf)).len() + 4 <= MAX_BUFFER && buf_bytes(*final(buf))
                == buf_bytes(*old(buf)) + flush_pkt(),
            Err(e) => e == GitError::LimitExceeded && buf_bytes(*old(buf)).len() + 4
                > MAX_BUFFER && buf_bytes(*final(buf)) == buf_bytes(*old(buf)),
        },
{
    if buf.len() > MAX_BUFFER - 4 {
        return Err(GitError::LimitExceeded);
    }
    let zeros: [u8; 4] = [0x30, 0x30, 0x30, 0x30];
    assert(zeros@ =~= flush_pkt());
    buf.extend_from_slice(zeros.as_slice());
    Ok(())
}

/// Reads the packet at the front of `input`: the packet and the number of
/// bytes it takes. Fails with `FormatError` where there is no packet.
pub fn read_pkt_line(input: &[u8]) -> (r: Result<(PktLine, usize), GitError>)
    ensures
        match r {
            Ok((line, used)) => 0 < used <= input@.len() && decode_pkt(input@) == Some(
                (line@, used as nat),
            ),
            Err(e) => e == GitError::FormatError && decode_pkt(input@) is None,
        },
{
    proof {
        assert(input@.skip(0) =~= input@);
    }
    read_pkt_at(input, 0)
}

/// Reads the packet that starts at `at` of `input`: the packet and where
/// the next one starts.
pub(crate) fn read_pkt_at(input: &[u8], at: usize) -> (r: Result<(PktLine, usize), GitError>)
    requires
        at <= input@.len(),
    ensures
        match r {
            Ok((line, next)) => at < next <= input@.len() && decode_pkt(input@.skip(at as int))
                == Some((line@, (next - at) as nat)),
            Err(e) => e == GitError::FormatError && decode_pkt(input@.skip(at as int)) is None,
        },
{
    let len: usize = input.len();
    let total = match read_hex4(input, at) {
        Some(n) => n,
        None => {
            return Err(GitError::FormatError);
        },
    };
    if total == 0 {
        return Ok((PktLine::Flush, at + 4));
    }
    if total < 4 || total > len - at {
        return Err(GitError::FormatError);
    }
    let mut payload: Vec<u8> = Vec::new();
    crate::delta::append_range(&mut payload, input, at + 4, at + total);
    proof {
        assert(payload@ =~= input@.skip(at as int).subrange(4, total as int));
    }
    Ok((PktLine::Data(payload), at + total))
}

/// Pkt-line round trip: reading the line written for a payload of at most
/// 65531 bytes gives the payload back and takes the whole line, whatever
/// follows it.
pub proof fn lemma_pkt_line_round_trip(payload: Seq<u8>, tail: Seq<u8>)
    requires
        payload.len() <= MAX_PAYLOAD,
    ensures
        decode_pkt(pkt_line(payload) + tail) == Some(
            (Packet::Data(payload), pkt_line(payload).len()),
        ),
        pkt_line(payload).len() == payload.len() + 4,
{
    let total = payload.len() as int + 4;
    let input = pkt_line(payload) + tail;
    assert(input =~= hex4(total) + (payload + tail));
    lemma_hex4_round_trip(total, payload + tail);
    assert(input.subrange(4, total) =~= payload);
}

/// A flush is the four bytes `0000`, and reading it gives a flush and takes
/// the four bytes, whatever follows them.
pub proof fn lemma_flush_round_trip(tail: Seq<u8>)
    ensures
        flush_pkt() == hex4(0),
        decode_pkt(flush_pkt() + tail) == Some((Packet::Flush, 4nat)),
{
    assert(flush_pkt() =~= hex4(0));
    lemma_hex4_round_trip(0, tail);
}

} // verus!
