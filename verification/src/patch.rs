//! Replaying a delta against its base buffer.
//!
//! A copy whose length bytes are all zero stands for 65536 bytes, as
//! compatible readers have it; the writer of this library never emits one.

use crate::delta::append_range;
use crate::errors::GitError;
use vstd::prelude::*;

verus! {

/// The most bytes that a size of the delta header may take.
pub const SIZE_BYTES: usize = 10;

/// The length that a copy with no length byte stands for.
pub const DEFAULT_COPY: usize = 0x1_0000;

/// The size written at the front of `code` and the number of bytes it
/// takes, if one ends within `budget` bytes.
pub open spec fn read_size(code: Seq<u8>, budget: nat) -> Option<(nat, nat)>
    decreases budget,
{
    if budget == 0 || code.len() == 0 {
        None
    } else if code[0] < 128 {
        Some((code[0] as nat, 1))
    } else {
        match read_size(code.skip(1), (budget - 1) as nat) {
            Some((v, used)) => Some(((code[0] - 128 + 128 * v) as nat, used + 1)),
            None => None,
        }
    }
}

/// The size at the front of `code`, where it takes at most ten bytes and
/// fits in 64 bits.
pub open spec fn header_size(code: Seq<u8>) -> Option<(nat, nat)> {
    match read_size(code, SIZE_BYTES as nat) {
        Some((v, used)) => if v <= u64::MAX {
            Some((v, used))
        } else {
            None
        },
        None => None,
    }
}

/// Whether bit `k` of the bitmap is set in the opcode `cmd`, for `k` below
/// seven.
pub open spec fn has_bit(cmd: u8, k: int) -> bool {
    if k == 0 {
        cmd % 2 == 1
    } else if k == 1 {
        cmd / 2 % 2 == 1
    } else if k == 2 {
        cmd / 4 % 2 == 1
    } else if k == 3 {
        cmd / 8 % 2 == 1
    } else if k == 4 {
        cmd / 16 % 2 == 1
    } else if k == 5 {
        cmd / 32 % 2 == 1
    } else {
        cmd / 64 % 2 == 1
    }
}

/// The operand byte at `at`, or zero where the bitmap says it is absent.
pub open spec fn operand(code: Seq<u8>, at: int, wanted: bool) -> int {
    if wanted {
        code[at] as int
    } else {
        0
    }
}

/// Where the next operand stands.
pub open spec fn step(at: int, wanted: bool) -> int {
    if wanted {
        at + 1
    } else {
        at
    }
}

/// The number that the operands for the bitmap bits `k` up to `hi` spell,
/// least significant byte first, the first of them standing at `at`; and
/// where the operand after them stands. The opcode is the first byte of
/// `code`.
pub open spec fn operands(code: Seq<u8>, at: int, k: int, hi: int) -> (int, int)
    decreases hi - k,
{
    if k >= hi {
        (0, at)
    } else {
        let wanted = has_bit(code[0], k);
        let rest = operands(code, step(at, wanted), k + 1, hi);
        (operand(code, at, wanted) + 256 * rest.0, rest.1)
    }
}

/// The copy instruction at the front of `code`: the base offset, the
/// length, and the number of bytes that the instruction takes. Four
/// bitmap bits stand for the offset bytes, three for the length bytes.
pub open spec fn copy_instruction(code: Seq<u8>) -> Option<(nat, nat, nat)> {
    let (offset, mid) = operands(code, 1, 0, 4);
    let (size, end) = operands(code, mid, 4, 7);
    if end > code.len() {
        None
    } else {
        Some(
            (
                offset as nat,
                if size == 0 {
                    DEFAULT_COPY as nat
                } else {
                    size as nat
                },
                end as nat,
            ),
        )
    }
}

/// The numbers that up to four operand bytes spell stay below this.
pub open spec fn operand_bound(count: int) -> int {
    if count <= 0 {
        1
    } else if count == 1 {
        0x100
    } else if count == 2 {
        0x1_0000
    } else if count == 3 {
        0x100_0000
    } else {
        0x1_0000_0000
    }
}

/// Operands take between no byte and one byte for each bitmap bit, and
/// spell a number within the bound for their count.
pub proof fn lemma_operands_range(code: Seq<u8>, at: int, k: int, hi: int)
    requires
        0 <= k <= hi <= 7,
        hi - k <= 4,
    ensures
        at <= operands(code, at, k, hi).1 <= at + (hi - k),
        0 <= operands(code, at, k, hi).0 < operand_bound(hi - k),
    decreases hi - k,
{
    if k < hi {
        lemma_operands_range(code, step(at, has_bit(code[0], k)), k + 1, hi);
    }
}

/// `head` in front of what `rest` rebuilt, if it rebuilt anything.
pub open spec fn prepend(head: Seq<u8>, rest: Option<Seq<u8>>) -> Option<Seq<u8>> {
    match rest {
        Some(r) => Some(head + r),
        None => None,
    }
}

/// The bytes that the instructions `code` rebuild from `base`, if they are
/// well formed, stay within `base` and rebuild exactly `room` bytes.
pub open spec fn replay(base: Seq<u8>, code: Seq<u8>, room: nat) -> Option<Seq<u8>>
    decreases code.len(),
    via replay_decreases
{
    if code.len() == 0 {
        if room == 0 {
            Some(Seq::empty())
        } else {
            None
        }
    } else if code[0] == 0 {
        None
    } else if code[0] < 128 {
        let n = code[0] as nat;
        if 1 + n > code.len() || n > room {
            None
        } else {
            prepend(
                code.subrange(1, 1 + n as int),
                replay(base, code.skip(1 + n as int), (room - n) as nat),
            )
        }
    } else {
        match copy_instruction(code) {
            None => None,
            Some((offset, size, used)) => if offset + size > base.len() || size > room {
                None
            } else {
                prepend(
                    base.subrange(offset as int, offset as int + size as int),
                    replay(base, code.skip(used as int), (room - size) as nat),
                )
            },
        }
    }
}

#[via_fn]
proof fn replay_decreases(base: Seq<u8>, code: Seq<u8>, room: nat) {
    lemma_operands_range(code, 1, 0, 4);
    lemma_operands_range(code, operands(code, 1, 0, 4).1, 4, 7);
}

/// The buffer that `delta` rebuilds from `base`: the delta names the size
/// of `base` and the size of what it rebuilds, and both must hold.
pub open spec fn apply_delta_spec(base: Seq<u8>, delta: Seq<u8>) -> Option<Seq<u8>> {
    match header_size(delta) {
        None => None,
        Some((base_size, n1)) => match header_size(delta.skip(n1 as int)) {
            None => None,
            Some((target_size, n2)) => if base_size != base.len() {
                None
            } else {
                replay(base, delta.skip(n1 as int + n2 as int), target_size)
            },
        },
    }
}

/// Reads the size that starts at `at` of `code`: the size and where the
/// next item starts.
fn take_size(code: &[u8], at: usize, budget: usize) -> (r: Option<(u64, usize)>)
    requires
        at <= code@.len(),
    ensures
        match r {
            Some((v, next)) => at < next <= code@.len() && read_size(
                code@.skip(at as int),
                budget as nat,
            ) == Some((v as nat, (next - at) as nat)),
            None => match read_size(code@.skip(at as int), budget as nat) {
                Some((v, _)) => v > u64::MAX,
                None => true,
            },
        },
    decreases budget,
{
    if budget == 0 || at >= code.len() {
        return None;
    }
    let b: u8 = code[at];
    proof {
        assert(code@.skip(at as int)[0] == b);
        assert(code@.skip(at as int).skip(1) =~= code@.skip(at + 1));
    }
    if b < 128 {
        return Some((b as u64, at + 1));
    }
    match take_size(code, at + 1, budget - 1) {
        None => None,
        Some((v, next)) => {
            let low: u64 = (b - 128) as u64;
            if v > (u64::MAX - low) / 128 {
                None
            } else {
                Some((low + 128 * v, next))
            }
        },
    }
}

/// Whether bit `k` of the bitmap is set in `cmd`.
fn test_bit(cmd: u8, k: usize) -> (b: bool)
    requires
        k < 7,
    ensures
        b == has_bit(cmd, k as int),
{
    if k == 0 {
        cmd % 2 == 1
    } else if k == 1 {
        cmd / 2 % 2 == 1
    } else if k == 2 {
        cmd / 4 % 2 == 1
    } else if k == 3 {
        cmd / 8 % 2 == 1
    } else if k == 4 {
        cmd / 16 % 2 == 1
    } else if k == 5 {
        cmd / 32 % 2 == 1
    } else {
        cmd / 64 % 2 == 1
    }
}

/// Reads the operands for the bitmap bits `k` up to `hi` of the
/// instruction that starts at `at`, the first of them standing `rel` bytes
/// after `at`: the number they spell and where the next operand stands.
fn take_operands(code: &[u8], at: usize, rel: usize, k: usize, hi: usize) -> (r: Option<
    (u64, usize),
>)
    requires
        at < code@.len(),
        k <= hi <= 7,
        hi - k <= 4,
        1 <= rel <= 1 + k,
    ensures
        match r {
            Some((v, next)) => operands(code@.skip(at as int), rel as int, k as int, hi as int)
                == (v as int, next as int) && at + next <= code@.len() && v < operand_bound(
                hi - k,
            ) && rel <= next <= rel + (hi - k),
            None => at + operands(code@.skip(at as int), rel as int, k as int, hi as int).1
                > code@.len(),
        },
    decreases hi - k,
{
    let n: usize = code.len();
    let ghost rest = code@.skip(at as int);
    if k >= hi {
        if rel > n - at {
            return None;
        }
        return Some((0, rel));
    }
    let cmd: u8 = code[at];
    assert(rest[0] == cmd);
    let wanted: bool = test_bit(cmd, k);
    proof {
        lemma_operands_range(rest, step(rel as int, wanted), k + 1, hi as int);
    }
    if wanted {
        if rel >= n - at {
            return None;
        }
        let b: u8 = code[at + rel];
        assert(rest[rel as int] == b);
        match take_operands(code, at, rel + 1, k + 1, hi) {
            None => None,
            Some((v, next)) => Some((b as u64 + 256 * v, next)),
        }
    } else {
        match take_operands(code, at, rel, k + 1, hi) {
            None => None,
            Some((v, next)) => Some((256 * v, next)),
        }
    }
}

/// Reads the copy instruction that starts at `at` of `code`: the base
/// offset, the length, and where the next instruction starts.
fn take_copy(code: &[u8], at: usize) -> (r: Option<(u64, u64, usize)>)
    requires
        at < code@.len(),
    ensures
        match r {
            Some((offset, size, next)) => at < next <= code@.len() && offset <= 0xffff_ffff && 1
                <= size <= 0xff_ffff && copy_instruction(code@.skip(at as int)) == Some(
                (offset as nat, size as nat, (next - at) as nat),
            ),
            None => copy_instruction(code@.skip(at as int)) is None,
        },
{
    let n: usize = code.len();
    let ghost rest = code@.skip(at as int);
    let (offset, mid) = match take_operands(code, at, 1, 0, 4) {
        Some(found) => found,
        None => {
            proof {
                lemma_operands_range(rest, operands(rest, 1, 0, 4).1, 4, 7);
            }
            return None;
        },
    };
    let (size, end) = match take_operands(code, at, mid, 4, 7) {
        Some(found) => found,
        None => {
            return None;
        },
    };
    if size == 0 {
        Some((offset, DEFAULT_COPY as u64, at + end))
    } else {
        Some((offset, size, at + end))
    }
}

/// Putting a head in front twice is putting both in front at once.
pub proof fn lemma_prepend_twice(a: Seq<u8>, b: Seq<u8>, rest: Option<Seq<u8>>)
    ensures
        prepend(a, prepend(b, rest)) == prepend(a + b, rest),
{
    if let Some(r) = rest {
        assert(a + (b + r) =~= (a + b) + r);
    }
}

/// Rebuilds a buffer from `base` and `delta`. Fails where the delta is not
/// well formed, names another base size, reaches outside `base`, or does
/// not rebuild exactly the size it names.
pub fn apply_delta(base: &[u8], delta: &[u8]) -> (r: Result<Vec<u8>, GitError>)
    ensures
        match r {
            Ok(out) => apply_delta_spec(base@, delta@) == Some(out@),
            Err(e) => e == GitError::FormatError && apply_delta_spec(base@, delta@) is None,
        },
{
    let n: usize = delta.len();
    let base_len: usize = base.len();
    proof {
        assert(delta@.skip(0) =~= delta@);
    }
    let ghost spec_result = apply_delta_spec(base@, delta@);
    let (base_size, mid) = match take_size(delta, 0, SIZE_BYTES) {
        Some(found) => found,
        None => {
            return Err(GitError::FormatError);
        },
    };
    let (target_size, start) = match take_size(delta, mid, SIZE_BYTES) {
        Some(found) => found,
        None => {
            return Err(GitError::FormatError);
        },
    };
    if base_size != base_len as u64 {
        return Err(GitError::FormatError);
    }
    let ghost whole = replay(base@, delta@.skip(start as int), target_size as nat);
    proof {
        assert(delta@.skip(mid as int).skip(start - mid) =~= delta@.skip(start as int));
        assert(header_size(delta@) == Some((base_size as nat, mid as nat)));
        assert(header_size(delta@.skip(mid as int)) == Some(
            (target_size as nat, (start - mid) as nat),
        ));
        assert(spec_result == whole);
    }
    let mut out: Vec<u8> = Vec::new();
    let mut room: u64 = target_size;
    let mut pos: usize = start;
    proof {
        if let Some(rest) = whole {
            assert(Seq::<u8>::empty() + rest =~= rest);
        }
    }
    while pos < n
        invariant
            pos <= n,
            n == delta@.len(),
            base_len == base@.len(),
            apply_delta_spec(base@, delta@) == whole,
            whole == prepend(out@, replay(base@, delta@.skip(pos as int), room as nat)),
        decreases n - pos,
    {
        let cmd: u8 = delta[pos];
        let ghost code = delta@.skip(pos as int);
        let ghost before = out@;
        proof {
            assert(code[0] == cmd);
        }
        if cmd == 0 {
            assert(replay(base@, code, room as nat) is None);
            return Err(GitError::FormatError);
        } else if cmd < 128 {
            let len: usize = cmd as usize;
            if len > n - pos - 1 || len as u64 > room {
                assert(replay(base@, code, room as nat) is None);
                return Err(GitError::FormatError);
            }
            append_range(&mut out, delta, pos + 1, pos + 1 + len);
            proof {
                assert(code.subrange(1, 1 + len) =~= delta@.subrange(pos + 1, pos + 1 + len));
                assert(code.skip(1 + len) =~= delta@.skip(pos + 1 + len));
                lemma_prepend_twice(
                    before,
                    code.subrange(1, 1 + len),
                    replay(base@, code.skip(1 + len), (room - len) as nat),
                );
            }
            room = room - len as u64;
            pos = pos + 1 + len;
        } else {
            match take_copy(delta, pos) {
                None => {
                    assert(replay(base@, code, room as nat) is None);
                    return Err(GitError::FormatError);
                },
                Some((offset, size, next)) => {
                    if offset + size > base_len as u64 || size > room {
                        assert(replay(base@, code, room as nat) is None);
                        return Err(GitError::FormatError);
                    }
                    let from: usize = offset as usize;
                    let to: usize = (offset + size) as usize;
                    append_range(&mut out, base, from, to);
                    proof {
                        assert(code.skip(next - pos) =~= delta@.skip(next as int));
                        lemma_prepend_twice(
                            before,
                            base@.subrange(offset as int, offset + size),
                            replay(base@, code.skip(next - pos), (room - size) as nat),
                        );
                    }
                    room = room - size;
                    pos = next;
                },
            }
        }
    }
    proof {
        assert(delta@.skip(pos as int).len() == 0);
    }
    if room != 0 {
        return Err(GitError::FormatError);
    }
    proof {
        assert(out@ + Seq::<u8>::empty() =~= out@);
    }
    Ok(out)
}

} // verus!
