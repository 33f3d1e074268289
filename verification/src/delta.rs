//! The binary delta format: two sizes, followed by copy and insert
//! instructions that rebuild a target buffer from a base buffer.

use vstd::prelude::*;

verus! {

/// The longest literal run that one insert instruction carries.
pub const MAX_INSERT: usize = 127;

/// The longest run that one copy instruction names: three length bytes.
pub const MAX_COPY: usize = 0xff_ffff;

/// The largest base offset that a copy instruction names: four offset bytes.
pub const MAX_OFFSET: usize = 0xffff_ffff;

/// What an operation of an edit script does.
#[derive(Clone, Copy, Debug, PartialEq, Eq, Structural)]
pub enum Optype {
    /// Bytes taken from the target buffer and carried in the delta.
    DATA,
    /// Bytes taken from the base buffer.
    COPY,
}

/// One operation of an edit script: `len` bytes starting at `begin`, in the
/// base buffer for a copy and in the target buffer for an insert.
#[derive(Clone, Copy, Debug, PartialEq, Eq, Structural)]
pub struct DeltaOp {
    pub ins: Optype,
    pub begin: usize,
    pub len: usize,
}

/// A size as the delta header writes it: groups of seven bits, the least
/// significant group first, the high bit of a byte set while more follow.
pub open spec fn size_encoding(n: nat) -> Seq<u8>
    decreases n,
{
    if n < 128 {
        seq![n as u8]
    } else {
        seq![(128 + n % 128) as u8] + size_encoding(n / 128)
    }
}

/// The byte `b` if it is not zero, nothing otherwise.
pub open spec fn present(b: int) -> Seq<u8> {
    if b != 0 {
        seq![b as u8]
    } else {
        Seq::empty()
    }
}

/// The bitmap bit of weight `weight` if `b` is not zero.
pub open spec fn flag(b: int, weight: int) -> int {
    if b != 0 {
        weight
    } else {
        0
    }
}

/// Byte `k` of `n`, counted from the least significant, for `k` below four.
pub open spec fn le_byte(n: int, k: int) -> int {
    if k == 0 {
        n % 256
    } else if k == 1 {
        n / 0x100 % 256
    } else if k == 2 {
        n / 0x1_0000 % 256
    } else {
        n / 0x100_0000 % 256
    }
}

/// The opcode of a copy: the high bit, and one bitmap bit for each offset
/// and length byte that is not zero.
pub open spec fn copy_opcode(offset: int, len: int) -> int {
    128 + flag(le_byte(offset, 0), 1) + flag(le_byte(offset, 1), 2) + flag(le_byte(offset, 2), 4)
        + flag(le_byte(offset, 3), 8) + flag(le_byte(len, 0), 16) + flag(le_byte(len, 1), 32)
        + flag(le_byte(len, 2), 64)
}

/// A copy instruction: the opcode, the offset bytes that are not zero and
/// the length bytes that are not zero, each least significant first.
pub open spec fn copy_encoding(offset: int, len: int) -> Seq<u8> {
    seq![copy_opcode(offset, len) as u8] + present(le_byte(offset, 0)) + present(
        le_byte(offset, 1),
    ) + present(le_byte(offset, 2)) + present(le_byte(offset, 3)) + present(le_byte(len, 0))
        + present(le_byte(len, 1)) + present(le_byte(len, 2))
}

/// An insert instruction: the length in a byte with the high bit clear,
/// and the literal bytes.
pub open spec fn insert_encoding(data: Seq<u8>) -> Seq<u8> {
    seq![data.len() as u8] + data
}

/// The instruction that `op` is written as; an insert takes its bytes from
/// `target`.
pub open spec fn op_encoding(op: DeltaOp, target: Seq<u8>) -> Seq<u8> {
    match op.ins {
        Optype::DATA => insert_encoding(target.subrange(op.begin as int, op.begin + op.len)),
        Optype::COPY => copy_encoding(op.begin as int, op.len as int),
    }
}

/// The instructions of a whole script, in order.
pub open spec fn ops_encoding(ops: Seq<DeltaOp>, target: Seq<u8>) -> Seq<u8>
    decreases ops.len(),
{
    if ops.len() == 0 {
        Seq::empty()
    } else {
        ops_encoding(ops.drop_last(), target) + op_encoding(ops.last(), target)
    }
}

/// A delta: the size of the base, the size of the target, the instructions.
pub open spec fn delta_encoding(base_len: nat, ops: Seq<DeltaOp>, target: Seq<u8>) -> Seq<u8> {
    size_encoding(base_len) + size_encoding(target.len()) + ops_encoding(ops, target)
}

/// Whether one instruction can express `op` for a target of `target_len`
/// bytes.
pub open spec fn op_encodable(op: DeltaOp, target_len: nat) -> bool {
    match op.ins {
        Optype::DATA => 1 <= op.len <= MAX_INSERT && op.begin + op.len <= target_len,
        Optype::COPY => 1 <= op.len <= MAX_COPY && op.begin <= MAX_OFFSET,
    }
}

/// Writes `n` as a size of the delta header.
pub fn write_size_encoding(n: usize) -> (out: Vec<u8>)
    ensures
        out@ == size_encoding(n as nat),
{
    let mut out: Vec<u8> = Vec::new();
    let mut rest: usize = n;
    while rest >= 128
        invariant
            size_encoding(n as nat) == out@ + size_encoding(rest as nat),
        decreases rest,
    {
        out.push((128 + rest % 128) as u8);
        rest = rest / 128;
    }
    out.push(rest as u8);
    out
}

/// Appends `src[from..to]` to `out`.
pub(crate) fn append_range(out: &mut Vec<u8>, src: &[u8], from: usize, to: usize)
    requires
        from <= to <= src@.len(),
    ensures
        final(out)@ == old(out)@ + src@.subrange(from as int, to as int),
{
    let mut i: usize = from;
    while i < to
        invariant
            from <= i <= to <= src@.len(),
            out@ == old(out)@ + src@.subrange(from as int, i as int),
        decreases to - i,
    {
        out.push(src[i]);
        i += 1;
    }
}

/// Appends `b` to `out` unless it is zero.
fn put_present(out: &mut Vec<u8>, b: u8)
    ensures
        final(out)@ == old(out)@ + present(b as int),
{
    if b != 0 {
        out.push(b);
    }
}

/// Writes the copy instruction for `len` bytes at `offset` of the base.
pub(crate) fn encode_copy(offset: usize, len: usize) -> (out: Vec<u8>)
    requires
        offset <= MAX_OFFSET,
        1 <= len <= MAX_COPY,
    ensures
        out@ == copy_encoding(offset as int, len as int),
{
    let o0: u8 = (offset % 256) as u8;
    let o1: u8 = (offset / 0x100 % 256) as u8;
    let o2: u8 = (offset / 0x1_0000 % 256) as u8;
    let o3: u8 = (offset / 0x100_0000 % 256) as u8;
    let s0: u8 = (len % 256) as u8;
    let s1: u8 = (len / 0x100 % 256) as u8;
    let s2: u8 = (len / 0x1_0000 % 256) as u8;
    let mut instruct: u8 = 0x80;
    if o0 != 0 {
        instruct += 1;
    }
    if o1 != 0 {
        instruct += 2;
    }
    if o2 != 0 {
        instruct += 4;
    }
    if o3 != 0 {
        instruct += 8;
    }
    if s0 != 0 {
        instruct += 16;
    }
    if s1 != 0 {
        instruct += 32;
    }
    if s2 != 0 {
        instruct += 64;
    }
    let mut out: Vec<u8> = Vec::new();
    out.push(instruct);
    put_present(&mut out, o0);
    put_present(&mut out, o1);
    put_present(&mut out, o2);
    put_present(&mut out, o3);
    put_present(&mut out, s0);
    put_present(&mut out, s1);
    put_present(&mut out, s2);
    out
}

/// Writes the insert instruction that carries `target[begin..begin + len]`.
pub(crate) fn encode_insert(target: &[u8], begin: usize, len: usize) -> (out: Vec<u8>)
    requires
        1 <= len <= MAX_INSERT,
        begin + len <= target@.len(),
    ensures
        out@ == insert_encoding(target@.subrange(begin as int, begin + len)),
{
    let total: usize = target.len();
    let end: usize = begin + len;
    let mut out: Vec<u8> = Vec::new();
    out.push(len as u8);
    append_range(&mut out, target, begin, end);
    out
}

} // verus!
