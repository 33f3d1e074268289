//! Replaying a delta that this library wrote rebuilds the target it was
//! written for.

use crate::delta::{
    copy_encoding, copy_opcode, delta_encoding, le_byte, op_encoding, ops_encoding, present,
    size_encoding, DeltaOp, Optype, MAX_COPY, MAX_OFFSET,
};
use crate::diff::{delta_script, lemma_delta_script_complete, DiffEvent};
use crate::patch::{
    apply_delta_spec, copy_instruction, has_bit, header_size, lemma_prepend_twice, operands,
    prepend, read_size, replay,
};
use crate::script::{op_ok, produced, script_complete, script_ok};
use vstd::prelude::*;

verus! {

/// The sizes that an encoding of at most `budget` bytes can hold stay
/// below this.
pub open spec fn reach(budget: nat) -> nat
    decreases budget,
{
    if budget == 0 {
        1
    } else {
        128 * reach((budget - 1) as nat)
    }
}

/// Reading a written size gives the size back, whatever follows it.
proof fn lemma_read_size_encoding(n: nat, tail: Seq<u8>, budget: nat)
    requires
        budget >= 1,
        n < reach(budget),
    ensures
        read_size(size_encoding(n) + tail, budget) == Some((n, size_encoding(n).len())),
    decreases budget,
{
    let code = size_encoding(n) + tail;
    assert(reach(1) == 128) by {
        reveal_with_fuel(reach, 2);
    }
    if n < 128 {
        assert(code[0] == n);
    } else {
        let rest = size_encoding(n / 128);
        assert(code[0] == 128 + n % 128);
        assert(code.skip(1) =~= rest + tail);
        lemma_read_size_encoding(n / 128, tail, (budget - 1) as nat);
    }
}

/// Reading a written size of at most 64 bits gives the size back.
pub proof fn lemma_header_size_encoding(n: nat, tail: Seq<u8>)
    requires
        n <= u64::MAX,
    ensures
        header_size(size_encoding(n) + tail) == Some((n, size_encoding(n).len())),
{
    assert(reach(10) > u64::MAX) by {
        reveal_with_fuel(reach, 11);
    }
    lemma_read_size_encoding(n, tail, 10);
}

/// The bitmap of a written copy has a bit for exactly the bytes that are
/// not zero.
proof fn lemma_copy_opcode_bits(offset: int, len: int)
    requires
        0 <= offset <= MAX_OFFSET,
        0 <= len <= MAX_COPY,
    ensures
        128 <= copy_opcode(offset, len) < 256,
        has_bit(copy_opcode(offset, len) as u8, 0) == (le_byte(offset, 0) != 0),
        has_bit(copy_opcode(offset, len) as u8, 1) == (le_byte(offset, 1) != 0),
        has_bit(copy_opcode(offset, len) as u8, 2) == (le_byte(offset, 2) != 0),
        has_bit(copy_opcode(offset, len) as u8, 3) == (le_byte(offset, 3) != 0),
        has_bit(copy_opcode(offset, len) as u8, 4) == (le_byte(len, 0) != 0),
        has_bit(copy_opcode(offset, len) as u8, 5) == (le_byte(len, 1) != 0),
        has_bit(copy_opcode(offset, len) as u8, 6) == (le_byte(len, 2) != 0),
{
}

/// Reading a written copy gives the offset and the length back, whatever
/// follows it.
pub proof fn lemma_copy_round_trip(offset: int, len: int, tail: Seq<u8>)
    requires
        0 <= offset <= MAX_OFFSET,
        1 <= len <= MAX_COPY,
    ensures
        copy_instruction(copy_encoding(offset, len) + tail) == Some(
            (offset as nat, len as nat, copy_encoding(offset, len).len()),
        ),
        copy_encoding(offset, len)[0] >= 128,
{
    let cmd = copy_opcode(offset, len) as u8;
    let b0 = le_byte(offset, 0);
    let b1 = le_byte(offset, 1);
    let b2 = le_byte(offset, 2);
    let b3 = le_byte(offset, 3);
    let b4 = le_byte(len, 0);
    let b5 = le_byte(len, 1);
    let b6 = le_byte(len, 2);
    let f0 = seq![cmd];
    let f1 = f0 + present(b0);
    let f2 = f1 + present(b1);
    let f3 = f2 + present(b2);
    let f4 = f3 + present(b3);
    let f5 = f4 + present(b4);
    let f6 = f5 + present(b5);
    let f7 = f6 + present(b6);
    let code = f7 + tail;
    lemma_copy_opcode_bits(offset, len);
    assert(copy_encoding(offset, len) == f7);
    assert(code[0] == cmd);
    assert(b0 != 0 ==> code[f0.len() as int] == b0);
    assert(b1 != 0 ==> code[f1.len() as int] == b1);
    assert(b2 != 0 ==> code[f2.len() as int] == b2);
    assert(b3 != 0 ==> code[f3.len() as int] == b3);
    assert(b4 != 0 ==> code[f4.len() as int] == b4);
    assert(b5 != 0 ==> code[f5.len() as int] == b5);
    assert(b6 != 0 ==> code[f6.len() as int] == b6);
    let e0 = f0.len() as int;
    let e1 = f1.len() as int;
    let e2 = f2.len() as int;
    let e3 = f3.len() as int;
    let e4 = f4.len() as int;
    let e5 = f5.len() as int;
    let e6 = f6.len() as int;
    let e7 = f7.len() as int;
    assert(operands(code, e4, 4, 4) == (0int, e4));
    assert(operands(code, e3, 3, 4) == (b3, e4));
    assert(operands(code, e2, 2, 4) == (b2 + 256 * b3, e4));
    assert(operands(code, e1, 1, 4) == (b1 + 256 * (b2 + 256 * b3), e4));
    assert(operands(code, e0, 0, 4) == (b0 + 256 * (b1 + 256 * (b2 + 256 * b3)), e4));
    assert(operands(code, e7, 7, 7) == (0int, e7));
    assert(operands(code, e6, 6, 7) == (b6, e7));
    assert(operands(code, e5, 5, 7) == (b5 + 256 * b6, e7));
    assert(operands(code, e4, 4, 7) == (b4 + 256 * (b5 + 256 * b6), e7));
    assert(b0 + 256 * (b1 + 256 * (b2 + 256 * b3)) == offset);
    assert(b4 + 256 * (b5 + 256 * b6) == len);
}

/// Replaying one written operation rebuilds the target bytes that the
/// operation stands for, and goes on with what follows it.
proof fn lemma_replay_op(
    op: DeltaOp,
    at: nat,
    base: Seq<u8>,
    target: Seq<u8>,
    tail: Seq<u8>,
    room: nat,
)
    requires
        op_ok(op, at, base, target),
    ensures
        replay(base, op_encoding(op, target) + tail, op.len as nat + room) == prepend(
            target.subrange(at as int, at + op.len),
            replay(base, tail, room),
        ),
{
    let code = op_encoding(op, target) + tail;
    let n = op.len as int;
    match op.ins {
        Optype::DATA => {
            let data = target.subrange(op.begin as int, op.begin + op.len);
            assert(code[0] == n);
            assert(code.subrange(1, 1 + n) =~= data);
            assert(code.skip(1 + n) =~= tail);
        },
        Optype::COPY => {
            lemma_copy_round_trip(op.begin as int, n, tail);
            let used = copy_encoding(op.begin as int, n).len() as int;
            assert(code[0] >= 128);
            assert(code.skip(used) =~= tail);
        },
    }
}

/// Replaying a written script rebuilds the part of the target that the
/// script stands for, and goes on with what follows it.
proof fn lemma_replay_script(
    ops: Seq<DeltaOp>,
    base: Seq<u8>,
    target: Seq<u8>,
    tail: Seq<u8>,
    room: nat,
)
    requires
        script_ok(ops, base, target),
    ensures
        produced(ops) <= target.len(),
        replay(base, ops_encoding(ops, target) + tail, produced(ops) + room) == prepend(
            target.take(produced(ops) as int),
            replay(base, tail, room),
        ),
    decreases ops.len(),
{
    if ops.len() == 0 {
        assert(ops_encoding(ops, target) + tail =~= tail);
        assert(target.take(0) =~= Seq::<u8>::empty());
        if let Some(r) = replay(base, tail, room) {
            assert(Seq::<u8>::empty() + r =~= r);
        }
    } else {
        let init = ops.drop_last();
        let op = ops.last();
        let at = produced(init);
        let piece = op_encoding(op, target);
        lemma_replay_script(init, base, target, piece + tail, op.len as nat + room);
        lemma_replay_op(op, at, base, target, tail, room);
        assert(ops_encoding(ops, target) + tail =~= ops_encoding(init, target) + (piece + tail));
        lemma_prepend_twice(
            target.take(at as int),
            target.subrange(at as int, at + op.len),
            replay(base, tail, room),
        );
        assert(target.take(at as int) + target.subrange(at as int, at + op.len) =~= target.take(
            at + op.len,
        ));
    }
}

/// Replaying the delta written from a script that rebuilds the whole of
/// `target` from `base` gives `target`.
pub proof fn lemma_delta_round_trip(ops: Seq<DeltaOp>, base: Seq<u8>, target: Seq<u8>)
    requires
        script_complete(ops, base, target),
        base.len() <= u64::MAX,
        target.len() <= u64::MAX,
    ensures
        apply_delta_spec(base, delta_encoding(base.len(), ops, target)) == Some(target),
{
    let s1 = size_encoding(base.len());
    let s2 = size_encoding(target.len());
    let body = ops_encoding(ops, target);
    let delta = delta_encoding(base.len(), ops, target);
    assert(delta =~= s1 + (s2 + body));
    lemma_header_size_encoding(base.len(), s2 + body);
    assert(delta.skip(s1.len() as int) =~= s2 + body);
    lemma_header_size_encoding(target.len(), body);
    assert(delta.skip(s1.len() as int + s2.len() as int) =~= body);
    lemma_replay_script(ops, base, target, Seq::empty(), 0);
    assert(body + Seq::<u8>::empty() =~= body);
    assert(target.take(target.len() as int) + Seq::<u8>::empty() =~= target);
}

/// Round trip: whatever events a diff reports of two buffers, replaying
/// against the base the delta that is written from their edit script
/// rebuilds the target, byte for byte.
pub proof fn lemma_round_trip(events: Seq<DiffEvent>, base: Seq<u8>, target: Seq<u8>)
    requires
        base.len() <= usize::MAX,
        target.len() <= usize::MAX,
    ensures
        apply_delta_spec(
            base,
            delta_encoding(base.len(), delta_script(events, base, target), target),
        ) == Some(target),
{
    lemma_delta_script_complete(events, base, target);
    lemma_delta_round_trip(delta_script(events, base, target), base, target);
}

} // verus!
