//! Edit scripts: the ordered copy and insert operations that rebuild a
//! target buffer from a base buffer, and how the events of a diff are folded
//! into a script that the delta format can carry.

use crate::delta::{DeltaOp, Optype, MAX_COPY, MAX_INSERT, MAX_OFFSET};
use vstd::prelude::*;

verus! {

/// The number of target bytes that `ops` produce.
pub open spec fn produced(ops: Seq<DeltaOp>) -> nat
    decreases ops.len(),
{
    if ops.len() == 0 {
        0
    } else {
        produced(ops.drop_last()) + ops.last().len as nat
    }
}

/// The number of target bytes that the copies of `ops` produce.
pub open spec fn copied(ops: Seq<DeltaOp>) -> nat
    decreases ops.len(),
{
    if ops.len() == 0 {
        0
    } else {
        copied(ops.drop_last()) + if ops.last().ins == Optype::COPY {
            ops.last().len as nat
        } else {
            0
        }
    }
}

/// Whether `op`, placed where `at` target bytes are already produced, fits
/// the format and produces `target[at..at + op.len]`: a copy names bytes of
/// `base` equal to them, an insert names exactly them.
pub open spec fn op_ok(op: DeltaOp, at: nat, base: Seq<u8>, target: Seq<u8>) -> bool {
    &&& at + op.len <= target.len()
    &&& match op.ins {
        Optype::COPY => {
            &&& 1 <= op.len <= MAX_COPY
            &&& op.begin <= MAX_OFFSET
            &&& op.begin + op.len <= base.len()
            &&& base.subrange(op.begin as int, op.begin + op.len) == target.subrange(
                at as int,
                at + op.len,
            )
        },
        Optype::DATA => {
            &&& 1 <= op.len <= MAX_INSERT
            &&& op.begin == at
        },
    }
}

/// Whether `ops` rebuild a prefix of `target` from `base` without gap or
/// overlap, each operation within what one instruction can express.
pub open spec fn script_ok(ops: Seq<DeltaOp>, base: Seq<u8>, target: Seq<u8>) -> bool
    decreases ops.len(),
{
    ops.len() == 0 || (script_ok(ops.drop_last(), base, target) && op_ok(
        ops.last(),
        produced(ops.drop_last()),
        base,
        target,
    ))
}

/// Whether `ops` rebuild the whole of `target` from `base`.
pub open spec fn script_complete(ops: Seq<DeltaOp>, base: Seq<u8>, target: Seq<u8>) -> bool {
    script_ok(ops, base, target) && produced(ops) == target.len()
}

/// The longest run that one operation of kind `ins` carries.
pub open spec fn run_limit(ins: Optype) -> int {
    match ins {
        Optype::COPY => MAX_COPY as int,
        Optype::DATA => MAX_INSERT as int,
    }
}

/// How many more bytes the last operation of `ops` can take in, if a run of
/// kind `ins` that starts at `begin` continues it.
pub open spec fn merge_room(ops: Seq<DeltaOp>, ins: Optype, begin: int) -> int {
    if ops.len() > 0 && ops.last().ins == ins && ops.last().begin + ops.last().len == begin
        && ops.last().len < run_limit(ins) {
        run_limit(ins) - ops.last().len
    } else {
        0
    }
}

/// The number of bytes of a run of `len` bytes that go into the last
/// operation before it.
pub open spec fn merge_head(ops: Seq<DeltaOp>, ins: Optype, begin: int, len: int) -> int {
    let room = merge_room(ops, ins, begin);
    if len < room {
        len
    } else {
        room
    }
}

/// A run of `len` bytes from `begin`, cut into operations of at most `max`
/// bytes, all but the last of them full.
pub open spec fn chunks(ins: Optype, begin: int, len: int, max: int) -> Seq<DeltaOp> {
    Seq::new(
        ((len + max - 1) / max) as nat,
        |i: int|
            DeltaOp {
                ins,
                begin: (begin + i * max) as usize,
                len: (if len - i * max < max {
                    len - i * max
                } else {
                    max
                }) as usize,
            },
    )
}

/// `ops` followed by a run of `len` bytes of kind `ins` from `begin`: the
/// run first extends the last operation where it continues it, which keeps
/// the script short, and what is left over is cut into full operations.
pub open spec fn append_run(ops: Seq<DeltaOp>, ins: Optype, begin: int, len: int) -> Seq<
    DeltaOp,
> {
    let head = merge_head(ops, ins, begin, len);
    if len <= 0 {
        ops
    } else if head > 0 {
        ops.drop_last().push(
            DeltaOp { ins, begin: ops.last().begin, len: (ops.last().len + head) as usize },
        ) + chunks(ins, begin + head, len - head, run_limit(ins))
    } else {
        ops + chunks(ins, begin, len, run_limit(ins))
    }
}

/// A run is cut into no operation exactly when it is empty.
proof fn lemma_chunk_count(len: int, max: int)
    requires
        0 <= len,
        0 < max,
    ensures
        len == 0 <==> (len + max - 1) / max == 0,
        (len + max - 1) / max >= 0,
{
    assert(len == 0 <==> (len + max - 1) / max == 0) by (nonlinear_arith)
        requires
            0 <= len,
            0 < max,
    ;
    assert((len + max - 1) / max >= 0) by (nonlinear_arith)
        requires
            0 <= len,
            0 < max,
    ;
}

/// Appends a run of `len` bytes of kind `ins` from `begin` to `ops`.
pub(crate) fn push_run(ops: &mut Vec<DeltaOp>, ins: Optype, begin: usize, len: usize)
    requires
        begin + len <= usize::MAX,
    ensures
        final(ops)@ == append_run(old(ops)@, ins, begin as int, len as int),
{
    let limit: usize = match ins {
        Optype::COPY => MAX_COPY,
        Optype::DATA => MAX_INSERT,
    };
    let mut at: usize = begin;
    let mut left: usize = len;
    let n: usize = ops.len();
    if left > 0 && n > 0 {
        let last: DeltaOp = ops[n - 1];
        if last.ins == ins && last.len < limit && last.begin <= begin && begin - last.begin
            == last.len {
            let room: usize = limit - last.len;
            let head: usize = if left < room {
                left
            } else {
                room
            };
            ops.set(n - 1, DeltaOp { ins, begin: last.begin, len: last.len + head });
            at = at + head;
            left = left - head;
            assert(ops@ == old(ops)@.drop_last().push(
                DeltaOp { ins, begin: last.begin, len: (last.len + head) as usize },
            ));
        }
    }
    let ghost merged: Seq<DeltaOp> = ops@;
    let ghost start: int = at as int;
    let ghost total: int = left as int;
    let ghost all: Seq<DeltaOp> = chunks(ins, start, total, limit as int);
    let ghost mut k: int = 0;
    proof {
        lemma_chunk_count(total, limit as int);
    }
    while left > 0
        invariant
            limit == run_limit(ins),
            limit > 0,
            start + total <= usize::MAX,
            all == chunks(ins, start, total, limit as int),
            at == start + total - left,
            0 <= left <= total,
            0 <= k <= all.len(),
            left > 0 ==> left == total - k * limit,
            left == 0 ==> k == all.len(),
            ops@ == merged + all.take(k),
        decreases left,
    {
        let take: usize = if left < limit {
            left
        } else {
            limit
        };
        proof {
            assert((total + limit - 1) / (limit as int) > k) by (nonlinear_arith)
                requires
                    total - k * limit > 0,
                    limit > 0,
                    k >= 0,
            ;
            if left <= limit {
                assert((total + limit - 1) / (limit as int) == k + 1) by (nonlinear_arith)
                    requires
                        0 < total - k * limit <= limit,
                        limit > 0,
                        k >= 0,
                ;
            }
            assert(k * limit + limit == (k + 1) * limit) by (nonlinear_arith);
            assert(all.take(k + 1) == all.take(k).push(all[k]));
        }
        ops.push(DeltaOp { ins, begin: at, len: take });
        at = at + take;
        left = left - take;
        proof {
            k = k + 1;
        }
    }
    proof {
        assert(all.take(k) == all);
        if len > 0 && merge_head(old(ops)@, ins, begin as int, len as int) <= 0 {
            assert(merged == old(ops)@);
        }
    }
}

/// Whether a run of `len` bytes of kind `ins` from `begin` may follow `ops`:
/// it stays within `target`, and a copy names bytes of `base`, within reach
/// of four offset bytes, that equal the target bytes it produces.
pub open spec fn run_ok(
    ops: Seq<DeltaOp>,
    ins: Optype,
    begin: int,
    len: int,
    base: Seq<u8>,
    target: Seq<u8>,
) -> bool {
    &&& 0 <= begin
    &&& 0 <= len
    &&& produced(ops) + len <= target.len()
    &&& match ins {
        Optype::COPY => {
            &&& begin + len <= base.len()
            &&& begin + len <= MAX_OFFSET + 1
            &&& base.subrange(begin, begin + len) == target.subrange(
                produced(ops) as int,
                produced(ops) + len,
            )
        },
        Optype::DATA => begin == produced(ops),
    }
}

/// The bytes that the copies of a script add, for a run of kind `ins`.
pub open spec fn copied_by(ins: Optype, len: int) -> int {
    if ins == Optype::COPY {
        len
    } else {
        0
    }
}

/// Cutting a run into full operations keeps a script valid, and adds the
/// length of the run to what it produces.
proof fn lemma_chunks_ok(
    ops: Seq<DeltaOp>,
    ins: Optype,
    begin: int,
    len: int,
    base: Seq<u8>,
    target: Seq<u8>,
)
    requires
        script_ok(ops, base, target),
        run_ok(ops, ins, begin, len, base, target),
        begin + len <= usize::MAX,
    ensures
        script_ok(ops + chunks(ins, begin, len, run_limit(ins)), base, target),
        produced(ops + chunks(ins, begin, len, run_limit(ins))) == produced(ops) + len,
        copied(ops + chunks(ins, begin, len, run_limit(ins))) == copied(ops) + copied_by(ins, len),
    decreases len,
{
    let max = run_limit(ins);
    let all = chunks(ins, begin, len, max);
    let at = produced(ops) as int;
    if len == 0 {
        lemma_chunk_count(len, max);
        assert(ops + all =~= ops);
    } else {
        let k = (len + max - 1) / max;
        assert(k >= 1 && (k - 1) * max < len <= k * max) by (nonlinear_arith)
            requires
                k == (len + max - 1) / max,
                len > 0,
                max > 0,
        ;
        let short = (k - 1) * max;
        assert((short + max - 1) / max == k - 1) by (nonlinear_arith)
            requires
                short == (k - 1) * max,
                max > 0,
                k >= 1,
        ;
        let fewer = chunks(ins, begin, short, max);
        assert(all.drop_last() =~= fewer) by {
            assert forall|i: int| 0 <= i < k - 1 implies all[i] == fewer[i] by {
                assert(short - i * max >= max && len - i * max >= max) by (nonlinear_arith)
                    requires
                        short == (k - 1) * max,
                        0 <= i < k - 1,
                        max > 0,
                        short < len,
                ;
            }
        }
        if ins == Optype::COPY {
            assert(base.subrange(begin, begin + short) =~= base.subrange(
                begin,
                begin + len,
            ).subrange(0, short));
            assert(target.subrange(at, at + short) =~= target.subrange(at, at + len).subrange(
                0,
                short,
            ));
        }
        lemma_chunks_ok(ops, ins, begin, short, base, target);
        let op = all.last();
        assert(op.begin == begin + short && op.len == len - short) by {
            assert(begin + (k - 1) * max == begin + short);
        }
        assert((ops + all).drop_last() =~= ops + fewer);
        assert((ops + all).last() == op);
        if ins == Optype::COPY {
            assert(base.subrange(begin + short, begin + len) =~= base.subrange(
                begin,
                begin + len,
            ).subrange(short, len));
            assert(target.subrange(at + short, at + len) =~= target.subrange(
                at,
                at + len,
            ).subrange(short, len));
        }
        assert(op_ok(op, produced(ops + fewer), base, target));
    }
}

/// Appending a run that fits keeps a script valid, and adds the length of
/// the run to what it produces.
pub proof fn lemma_append_run_ok(
    ops: Seq<DeltaOp>,
    ins: Optype,
    begin: int,
    len: int,
    base: Seq<u8>,
    target: Seq<u8>,
)
    requires
        script_ok(ops, base, target),
        run_ok(ops, ins, begin, len, base, target),
        begin + len <= usize::MAX,
    ensures
        script_ok(append_run(ops, ins, begin, len), base, target),
        produced(append_run(ops, ins, begin, len)) == produced(ops) + len,
        copied(append_run(ops, ins, begin, len)) == copied(ops) + copied_by(ins, len),
{
    let head = merge_head(ops, ins, begin, len);
    let at = produced(ops) as int;
    if len <= 0 {
    } else if head > 0 {
        let last = ops.last();
        let init = ops.drop_last();
        let longer = DeltaOp { ins, begin: last.begin, len: (last.len + head) as usize };
        let merged = init.push(longer);
        let from = produced(init) as int;
        assert(merged.drop_last() =~= init);
        if ins == Optype::COPY {
            let lb = last.begin as int;
            let ll = last.len as int;
            assert(base.subrange(begin, begin + head) =~= base.subrange(
                begin,
                begin + len,
            ).subrange(0, head));
            assert(target.subrange(at, at + head) =~= target.subrange(at, at + len).subrange(
                0,
                head,
            ));
            assert(base.subrange(lb, lb + ll + head) =~= base.subrange(lb, lb + ll)
                + base.subrange(begin, begin + head));
            assert(target.subrange(from, from + ll + head) =~= target.subrange(from, from + ll)
                + target.subrange(at, at + head));
            assert(base.subrange(begin + head, begin + len) =~= base.subrange(
                begin,
                begin + len,
            ).subrange(head, len));
            assert(target.subrange(at + head, at + len) =~= target.subrange(
                at,
                at + len,
            ).subrange(head, len));
        }
        assert(op_ok(longer, from as nat, base, target));
        assert(script_ok(merged, base, target));
        assert(produced(merged) == at + head);
        assert(copied(merged) == copied(ops) + copied_by(ins, head));
        lemma_chunks_ok(merged, ins, begin + head, len - head, base, target);
    } else {
        lemma_chunks_ok(ops, ins, begin, len, base, target);
    }
}

/// The copies of a script produce no more than the script does.
pub proof fn lemma_copied_bound(ops: Seq<DeltaOp>)
    ensures
        copied(ops) <= produced(ops),
    decreases ops.len(),
{
    if ops.len() > 0 {
        lemma_copied_bound(ops.drop_last());
    }
}

/// Whether `a[i..i + len]` and `b[j..j + len]` hold the same bytes.
pub(crate) fn ranges_equal(a: &[u8], i: usize, b: &[u8], j: usize, len: usize) -> (same: bool)
    requires
        i + len <= a@.len(),
        j + len <= b@.len(),
    ensures
        same == (a@.subrange(i as int, i + len) == b@.subrange(j as int, j + len)),
{
    let na: usize = a.len();
    let nb: usize = b.len();
    let mut k: usize = 0;
    while k < len
        invariant
            k <= len,
            i + len <= a@.len(),
            j + len <= b@.len(),
            a@.len() == na,
            b@.len() == nb,
            a@.subrange(i as int, i + k) == b@.subrange(j as int, j + k),
        decreases len - k,
    {
        if a[i + k] != b[j + k] {
            proof {
                assert(a@.subrange(i as int, i + len)[k as int] != b@.subrange(
                    j as int,
                    j + len,
                )[k as int]);
            }
            return false;
        }
        proof {
            assert(a@.subrange(i as int, i + k + 1) =~= a@.subrange(i as int, i + k).push(
                a@[i + k],
            ));
            assert(b@.subrange(j as int, j + k + 1) =~= b@.subrange(j as int, j + k).push(
                b@[j + k],
            ));
        }
        k += 1;
    }
    true
}

} // verus!
