//! The similarity diff engine: a longest-common-subsequence diff of two
//! byte buffers, folded into an edit script, and the delta written from it.

use crate::delta::{
    delta_encoding, encode_copy, encode_insert, op_encodable, op_encoding,
    ops_encoding, write_size_encoding, DeltaOp, Optype, MAX_OFFSET,
};
use crate::errors::GitError;
use crate::object::Object;
use crate::patch::apply_delta_spec;
use crate::round_trip::lemma_delta_round_trip;
use crate::script::{
    append_run, copied, lemma_append_run_ok, lemma_copied_bound, produced, push_run,
    ranges_equal, script_complete, script_ok,
};
use vstd::prelude::*;

verus! {

/// What a diff reports of a stretch of the two buffers.
#[derive(Clone, Copy, Debug, PartialEq, Eq, Structural)]
pub enum DiffEvent {
    /// `len` bytes at `base_at` of the base equal those at `target_at` of
    /// the target.
    Equal { base_at: usize, target_at: usize, len: usize },
    /// `len` bytes at `base_at` of the base have no part in the target.
    Delete { base_at: usize, len: usize, target_at: usize },
    /// `len` bytes at `target_at` of the target have no part in the base.
    Insert { base_at: usize, target_at: usize, len: usize },
}

/// The number of target bytes that an event accounts for.
pub open spec fn event_len(ev: DiffEvent) -> nat {
    match ev {
        DiffEvent::Equal { len, .. } => len as nat,
        DiffEvent::Delete { .. } => 0,
        DiffEvent::Insert { len, .. } => len as nat,
    }
}

/// The number of target bytes that `events` account for.
pub open spec fn cursor_after(events: Seq<DiffEvent>) -> nat
    decreases events.len(),
{
    if events.len() == 0 {
        0
    } else {
        cursor_after(events.drop_last()) + event_len(events.last())
    }
}

/// Whether `ev` is true of the two buffers and continues the target where
/// `at` bytes of it are accounted for. An equal stretch must lie within
/// reach of the offsets that a delta can carry.
pub open spec fn event_ok(ev: DiffEvent, at: nat, base: Seq<u8>, target: Seq<u8>) -> bool {
    match ev {
        DiffEvent::Equal { base_at, target_at, len } => {
            &&& target_at == at
            &&& at + len <= target.len()
            &&& base_at + len <= base.len()
            &&& base_at + len <= MAX_OFFSET
            &&& base.subrange(base_at as int, base_at + len) == target.subrange(
                at as int,
                at + len,
            )
        },
        DiffEvent::Delete { .. } => true,
        DiffEvent::Insert { target_at, len, .. } => {
            &&& target_at == at
            &&& at + len <= target.len()
        },
    }
}

/// Whether every event of `events` is true of the two buffers, each
/// continuing the target where the one before it stopped.
pub open spec fn events_ok(events: Seq<DiffEvent>, base: Seq<u8>, target: Seq<u8>) -> bool
    decreases events.len(),
{
    events.len() == 0 || (events_ok(events.drop_last(), base, target) && event_ok(
        events.last(),
        cursor_after(events.drop_last()),
        base,
        target,
    ))
}

/// The script that `events` fold into: an equal stretch becomes a copy run,
/// an inserted one an insert run, a deleted one nothing.
pub open spec fn script_of(events: Seq<DiffEvent>) -> Seq<DeltaOp>
    decreases events.len(),
{
    if events.len() == 0 {
        Seq::empty()
    } else {
        let before = script_of(events.drop_last());
        match events.last() {
            DiffEvent::Equal { base_at, len, .. } => append_run(
                before,
                Optype::COPY,
                base_at as int,
                len as int,
            ),
            DiffEvent::Delete { .. } => before,
            DiffEvent::Insert { target_at, len, .. } => append_run(
                before,
                Optype::DATA,
                target_at as int,
                len as int,
            ),
        }
    }
}

/// The script that carries the whole target as literal bytes.
pub open spec fn literal_script(target: Seq<u8>) -> Seq<DeltaOp> {
    append_run(Seq::empty(), Optype::DATA, 0, target.len() as int)
}

/// Whether `events` describe the two buffers from the first byte of the
/// target to its last.
pub open spec fn events_cover(events: Seq<DiffEvent>, base: Seq<u8>, target: Seq<u8>) -> bool {
    events_ok(events, base, target) && cursor_after(events) == target.len()
}

/// The edit script for `base` and `target` that the events of a diff give:
/// the script they fold into where they describe the two buffers, the
/// literal script where they do not.
pub open spec fn delta_script(events: Seq<DiffEvent>, base: Seq<u8>, target: Seq<u8>) -> Seq<
    DeltaOp,
> {
    if events_cover(events, base, target) {
        script_of(events)
    } else {
        literal_script(target)
    }
}

/// Events that hold of two buffers hold of them up to any point.
proof fn lemma_events_ok_prefix(events: Seq<DiffEvent>, base: Seq<u8>, target: Seq<u8>, n: int)
    requires
        events_ok(events, base, target),
        0 <= n <= events.len(),
    ensures
        events_ok(events.take(n), base, target),
    decreases events.len(),
{
    if n == events.len() {
        assert(events.take(n) =~= events);
    } else {
        lemma_events_ok_prefix(events.drop_last(), base, target, n);
        assert(events.drop_last().take(n) =~= events.take(n));
    }
}

/// The script of events that hold of two buffers rebuilds as much of the
/// target as they account for.
pub proof fn lemma_script_of_ok(events: Seq<DiffEvent>, base: Seq<u8>, target: Seq<u8>)
    requires
        events_ok(events, base, target),
        base.len() <= usize::MAX,
        target.len() <= usize::MAX,
    ensures
        script_ok(script_of(events), base, target),
        produced(script_of(events)) == cursor_after(events),
        copied(script_of(events)) <= cursor_after(events),
    decreases events.len(),
{
    if events.len() > 0 {
        let before = events.drop_last();
        lemma_script_of_ok(before, base, target);
        match events.last() {
            DiffEvent::Equal { base_at, len, .. } => {
                lemma_append_run_ok(
                    script_of(before),
                    Optype::COPY,
                    base_at as int,
                    len as int,
                    base,
                    target,
                );
            },
            DiffEvent::Delete { .. } => {},
            DiffEvent::Insert { target_at, len, .. } => {
                lemma_append_run_ok(
                    script_of(before),
                    Optype::DATA,
                    target_at as int,
                    len as int,
                    base,
                    target,
                );
            },
        }
    }
}

/// The edit script of any events rebuilds the whole target.
pub proof fn lemma_delta_script_complete(
    events: Seq<DiffEvent>,
    base: Seq<u8>,
    target: Seq<u8>,
)
    requires
        base.len() <= usize::MAX,
        target.len() <= usize::MAX,
    ensures
        script_complete(delta_script(events, base, target), base, target),
{
    if events_cover(events, base, target) {
        lemma_script_of_ok(events, base, target);
    } else {
        lemma_append_run_ok(Seq::empty(), Optype::DATA, 0, target.len() as int, base, target);
    }
}

/// Whether `ev` holds of `base` and `target` where `at` bytes of the target
/// are accounted for.
pub(crate) fn check_event(ev: &DiffEvent, at: usize, base: &[u8], target: &[u8]) -> (ok: bool)
    requires
        at <= target@.len(),
    ensures
        ok == event_ok(*ev, at as nat, base@, target@),
{
    let base_len: usize = base.len();
    let left: usize = target.len() - at;
    match *ev {
        DiffEvent::Equal { base_at, target_at, len } => {
            if target_at == at && len <= left && len <= base_len && base_at <= base_len - len
                && len <= MAX_OFFSET && base_at <= MAX_OFFSET - len {
                ranges_equal(base, base_at, target, at, len)
            } else {
                false
            }
        },
        DiffEvent::Delete { .. } => true,
        DiffEvent::Insert { target_at, len, .. } => target_at == at && len <= left,
    }
}

/// Folds the events of a diff of `base` and `target` into an edit script,
/// and counts the bytes that its copies carry.
pub fn build_script(events: &Vec<DiffEvent>, base: &[u8], target: &[u8]) -> (r: (
    Vec<DeltaOp>,
    usize,
))
    ensures
        r.0@ == delta_script(events@, base@, target@),
        r.1 == copied(r.0@),
        script_complete(r.0@, base@, target@),
{
    let total: usize = target.len();
    let base_len: usize = base.len();
    let mut ops: Vec<DeltaOp> = Vec::new();
    let mut at: usize = 0;
    let mut ssam: usize = 0;
    let mut good: bool = true;
    let mut i: usize = 0;
    while i < events.len() && good
        invariant
            i <= events@.len(),
            total == target@.len(),
            base_len == base@.len(),
            good ==> events_ok(events@.take(i as int), base@, target@),
            good ==> ops@ == script_of(events@.take(i as int)),
            good ==> at == cursor_after(events@.take(i as int)),
            good ==> ssam == copied(ops@),
            good ==> at <= total,
            !good ==> !events_ok(events@, base@, target@),
        decreases events@.len() - i + if good { 1int } else { 0int },
    {
        let ev: DiffEvent = events[i];
        let ghost before = events@.take(i as int);
        let ghost upto = events@.take(i + 1);
        proof {
            assert(upto.drop_last() =~= before);
            assert(upto.last() == ev);
            lemma_script_of_ok(before, base@, target@);
        }
        if check_event(&ev, at, base, target) {
            match ev {
                DiffEvent::Equal { base_at, len, .. } => {
                    proof {
                        lemma_append_run_ok(
                            ops@,
                            Optype::COPY,
                            base_at as int,
                            len as int,
                            base@,
                            target@,
                        );
                    }
                    push_run(&mut ops, Optype::COPY, base_at, len);
                    ssam = ssam + len;
                    at = at + len;
                },
                DiffEvent::Delete { .. } => {},
                DiffEvent::Insert { target_at, len, .. } => {
                    proof {
                        lemma_append_run_ok(
                            ops@,
                            Optype::DATA,
                            target_at as int,
                            len as int,
                            base@,
                            target@,
                        );
                    }
                    push_run(&mut ops, Optype::DATA, target_at, len);
                    at = at + len;
                },
            }
            i = i + 1;
        } else {
            proof {
                if events_ok(events@, base@, target@) {
                    lemma_events_ok_prefix(events@, base@, target@, i + 1);
                }
            }
            good = false;
        }
    }
    proof {
        lemma_delta_script_complete(events@, base@, target@);
        if good {
            assert(events@.take(i as int) =~= events@);
            lemma_script_of_ok(events@, base@, target@);
        }
    }
    if good && at == total {
        (ops, ssam)
    } else {
        let mut literal: Vec<DeltaOp> = Vec::new();
        proof {
            lemma_append_run_ok(Seq::empty(), Optype::DATA, 0, total as int, base@, target@);
        }
        push_run(&mut literal, Optype::DATA, 0, total);
        (literal, 0)
    }
}

/// `first` and `second` as one event, where `second` goes on where `first`
/// stops: two equal stretches that are neighbours in both buffers, or two
/// insertions at one place of the base that are neighbours in the target.
pub open spec fn joined(first: DiffEvent, second: DiffEvent) -> Option<DiffEvent> {
    match (first, second) {
        (
            DiffEvent::Equal { base_at: ea, target_at: ta, len: na },
            DiffEvent::Equal { base_at: eb, target_at: tb, len: nb },
        ) => if ea + na == eb && ta + na == tb && na + nb <= usize::MAX {
            Some(DiffEvent::Equal { base_at: ea, target_at: ta, len: (na + nb) as usize })
        } else {
            None
        },
        (
            DiffEvent::Insert { base_at: ea, target_at: ta, len: na },
            DiffEvent::Insert { base_at: eb, target_at: tb, len: nb },
        ) => if ea == eb && ta + na == tb && na + nb <= usize::MAX {
            Some(DiffEvent::Insert { base_at: ea, target_at: ta, len: (na + nb) as usize })
        } else {
            None
        },
        _ => None,
    }
}

/// `events` without the deletions and the empty events, and with
/// neighbours of one kind joined: the runs of the diff.
pub open spec fn coalesce(events: Seq<DiffEvent>) -> Seq<DiffEvent>
    decreases events.len(),
{
    if events.len() == 0 {
        Seq::empty()
    } else {
        let runs = coalesce(events.drop_last());
        let ev = events.last();
        if ev is Delete || event_len(ev) == 0 {
            runs
        } else if runs.len() > 0 && joined(runs.last(), ev) is Some {
            runs.drop_last().push(joined(runs.last(), ev).unwrap())
        } else {
            runs.push(ev)
        }
    }
}

/// Joins `first` and `second` where the second goes on where the first
/// stops.
fn join_events(first: DiffEvent, second: DiffEvent) -> (r: Option<DiffEvent>)
    ensures
        r == joined(first, second),
{
    match (first, second) {
        (
            DiffEvent::Equal { base_at: ea, target_at: ta, len: na },
            DiffEvent::Equal { base_at: eb, target_at: tb, len: nb },
        ) => {
            if ea <= eb && eb - ea == na && ta <= tb && tb - ta == na && nb <= usize::MAX - na {
                Some(DiffEvent::Equal { base_at: ea, target_at: ta, len: na + nb })
            } else {
                None
            }
        },
        (
            DiffEvent::Insert { base_at: ea, target_at: ta, len: na },
            DiffEvent::Insert { base_at: eb, target_at: tb, len: nb },
        ) => {
            if ea == eb && ta <= tb && tb - ta == na && nb <= usize::MAX - na {
                Some(DiffEvent::Insert { base_at: ea, target_at: ta, len: na + nb })
            } else {
                None
            }
        },
        _ => None,
    }
}

/// The runs of `events`.
pub fn coalesce_events(events: &Vec<DiffEvent>) -> (runs: Vec<DiffEvent>)
    ensures
        runs@ == coalesce(events@),
{
    let mut runs: Vec<DiffEvent> = Vec::new();
    let mut i: usize = 0;
    while i < events.len()
        invariant
            i <= events@.len(),
            runs@ == coalesce(events@.take(i as int)),
        decreases events@.len() - i,
    {
        let ev: DiffEvent = events[i];
        proof {
            assert(events@.take(i + 1).drop_last() =~= events@.take(i as int));
        }
        let empty: bool = match ev {
            DiffEvent::Equal { len, .. } => len == 0,
            DiffEvent::Delete { .. } => true,
            DiffEvent::Insert { len, .. } => len == 0,
        };
        if !empty {
            let n: usize = runs.len();
            let merged: Option<DiffEvent> = if n > 0 {
                join_events(runs[n - 1], ev)
            } else {
                None
            };
            match merged {
                Some(longer) => {
                    runs.set(n - 1, longer);
                    assert(runs@ =~= coalesce(events@.take(i as int)).drop_last().push(longer));
                },
                None => {
                    runs.push(ev);
                },
            }
        }
        i = i + 1;
    }
    proof {
        assert(events@.take(i as int) =~= events@);
    }
    runs
}

/// The number of bytes, at most `limit`, that `base` from `e` on and
/// `target` from `t` on have in common.
pub open spec fn common_run(base: Seq<u8>, e: int, target: Seq<u8>, t: int, limit: int) -> int
    decreases limit,
{
    if limit <= 0 || e < 0 || t < 0 || e >= base.len() || t >= target.len() || base[e]
        != target[t] {
        0
    } else {
        1 + common_run(base, e + 1, target, t + 1, limit - 1)
    }
}

/// Three events in a row of which the second inserts between two equal
/// stretches, with nothing deleted: the insertion can move to the right
/// for as long as the bytes it moves over are those it leaves behind. The
/// equal stretch before it grows by as much, so that an open copy run is
/// extended where a new one would start. Gives the three events after
/// the move, or nothing where the three are not of this shape or the
/// insertion cannot move.
pub open spec fn slide(
    first: DiffEvent,
    second: DiffEvent,
    third: DiffEvent,
    base: Seq<u8>,
    target: Seq<u8>,
) -> Option<(DiffEvent, DiffEvent, DiffEvent)> {
    match (first, second, third) {
        (
            DiffEvent::Equal { base_at: ea, target_at: ta, len: na },
            DiffEvent::Insert { base_at: ei, target_at: ti, len: li },
            DiffEvent::Equal { base_at: eb, target_at: tb, len: nb },
        ) => {
            let s = common_run(base, eb as int, target, ti as int, nb as int);
            if na > 0 && li > 0 && nb > 0 && ea + na == ei && ei == eb && ta + na == ti && ti
                + li == tb && eb + nb <= base.len() && tb + nb <= target.len() && s > 0 {
                Some(
                    (
                        DiffEvent::Equal { base_at: ea, target_at: ta, len: (na + s) as usize },
                        DiffEvent::Insert {
                            base_at: (ei + s) as usize,
                            target_at: (ti + s) as usize,
                            len: li,
                        },
                        DiffEvent::Equal {
                            base_at: (eb + s) as usize,
                            target_at: (tb + s) as usize,
                            len: (nb - s) as usize,
                        },
                    ),
                )
            } else {
                None
            }
        },
        _ => None,
    }
}

/// `events` with every insertion moved to the right as far as `slide`
/// allows, from the first event to the last.
pub open spec fn settle(events: Seq<DiffEvent>, base: Seq<u8>, target: Seq<u8>) -> Seq<
    DiffEvent,
>
    decreases events.len(),
{
    if events.len() < 3 {
        events
    } else {
        match slide(events[0], events[1], events[2], base, target) {
            Some((a, b, c)) => seq![a, b] + settle(seq![c] + events.skip(3), base, target),
            None => seq![events[0]] + settle(events.skip(1), base, target),
        }
    }
}

/// Counts the bytes, at most `limit`, that `base` from `e` on and `target`
/// from `t` on have in common.
fn common_prefix(base: &[u8], e: usize, target: &[u8], t: usize, limit: usize) -> (s: usize)
    requires
        e + limit <= base@.len(),
        t + limit <= target@.len(),
    ensures
        s == common_run(base@, e as int, target@, t as int, limit as int),
        s <= limit,
{
    let base_len: usize = base.len();
    let target_len: usize = target.len();
    let mut j: usize = 0;
    while j < limit && base[e + j] == target[t + j]
        invariant
            j <= limit,
            e + limit <= base@.len(),
            t + limit <= target@.len(),
            base_len == base@.len(),
            target_len == target@.len(),
            common_run(base@, e as int, target@, t as int, limit as int) == j + common_run(
                base@,
                e + j,
                target@,
                t + j,
                limit - j,
            ),
        decreases limit - j,
    {
        j += 1;
    }
    j
}

/// Moves the insertion `second` to the right between `first` and `third`
/// where `slide` allows it.
fn slide_events(
    first: DiffEvent,
    second: DiffEvent,
    third: DiffEvent,
    base: &[u8],
    target: &[u8],
) -> (r: Option<(DiffEvent, DiffEvent, DiffEvent)>)
    ensures
        r == slide(first, second, third, base@, target@),
{
    let base_len: usize = base.len();
    let target_len: usize = target.len();
    match (first, second, third) {
        (
            DiffEvent::Equal { base_at: ea, target_at: ta, len: na },
            DiffEvent::Insert { base_at: ei, target_at: ti, len: li },
            DiffEvent::Equal { base_at: eb, target_at: tb, len: nb },
        ) => {
            if na > 0 && li > 0 && nb > 0 && ei == eb && ea <= ei && ei - ea == na && ta <= ti
                && ti - ta == na && ti <= tb && tb - ti == li && nb <= base_len && eb <= base_len
                - nb && nb <= target_len && tb <= target_len - nb {
                let s = common_prefix(base, eb, target, ti, nb);
                if s > 0 {
                    Some(
                        (
                            DiffEvent::Equal { base_at: ea, target_at: ta, len: na + s },
                            DiffEvent::Insert { base_at: ei + s, target_at: ti + s, len: li },
                            DiffEvent::Equal {
                                base_at: eb + s,
                                target_at: tb + s,
                                len: nb - s,
                            },
                        ),
                    )
                } else {
                    None
                }
            } else {
                None
            }
        },
        _ => None,
    }
}

/// Moves every insertion of `events` to the right as far as it goes.
pub fn settle_events(events: &Vec<DiffEvent>, base: &[u8], target: &[u8]) -> (out: Vec<
    DiffEvent,
>)
    ensures
        out@ == settle(events@, base@, target@),
{
    let n: usize = events.len();
    let mut out: Vec<DiffEvent> = Vec::new();
    if n == 0 {
        assert(out@ =~= events@);
        return out;
    }
    let mut first: DiffEvent = events[0];
    let mut i: usize = 1;
    proof {
        assert(seq![first] + events@.skip(1) =~= events@);
    }
    while n - i > 1
        invariant
            1 <= i <= n,
            n == events@.len(),
            settle(events@, base@, target@) == out@ + settle(
                seq![first] + events@.skip(i as int),
                base@,
                target@,
            ),
        decreases n - i,
    {
        let second: DiffEvent = events[i];
        let third: DiffEvent = events[i + 1];
        let ghost cur = seq![first] + events@.skip(i as int);
        let ghost done = out@;
        proof {
            assert(cur[0] == first && cur[1] == second && cur[2] == third);
        }
        match slide_events(first, second, third, base, target) {
            Some((a, b, c)) => {
                out.push(a);
                out.push(b);
                first = c;
                i = i + 2;
                proof {
                    assert(cur.skip(3) =~= events@.skip(i as int));
                    let rest = settle(seq![c] + events@.skip(i as int), base@, target@);
                    assert(done + (seq![a, b] + rest) =~= out@ + rest);
                }
            },
            None => {
                out.push(first);
                first = second;
                i = i + 1;
                proof {
                    assert(cur.skip(1) =~= seq![second] + events@.skip(i as int));
                    let rest = settle(seq![second] + events@.skip(i as int), base@, target@);
                    assert(done + (seq![cur[0]] + rest) =~= out@ + rest);
                }
            },
        }
    }
    let ghost done = out@;
    let ghost last = seq![first] + events@.skip(i as int);
    out.push(first);
    let ghost start = i;
    while i < n
        invariant
            start <= i <= n,
            n == events@.len(),
            out@ == done + seq![first] + events@.subrange(start as int, i as int),
        decreases n - i,
    {
        out.push(events[i]);
        i = i + 1;
    }
    proof {
        assert(events@.subrange(start as int, n as int) =~= events@.skip(start as int));
        assert(out@ =~= done + last);
    }
    out
}

/// The events that a diff reports, in the order in which it reports them.
pub struct EventLog {
    pub events: Vec<DiffEvent>,
}

impl diffs::Diff for EventLog {
    type Error = ();

    fn equal(&mut self, base_at: usize, target_at: usize, len: usize) -> (r: Result<(), ()>)
        ensures
            r is Ok,
            final(self).events@ == old(self).events@.push(
                DiffEvent::Equal { base_at, target_at, len },
            ),
    {
        self.events.push(DiffEvent::Equal { base_at, target_at, len });
        Ok(())
    }

    fn delete(&mut self, base_at: usize, len: usize, target_at: usize) -> (r: Result<(), ()>)
        ensures
            r is Ok,
            final(self).events@ == old(self).events@.push(
                DiffEvent::Delete { base_at, len, target_at },
            ),
    {
        self.events.push(DiffEvent::Delete { base_at, len, target_at });
        Ok(())
    }

    fn insert(&mut self, base_at: usize, target_at: usize, len: usize) -> (r: Result<(), ()>)
        ensures
            r is Ok,
            final(self).events@ == old(self).events@.push(
                DiffEvent::Insert { base_at, target_at, len },
            ),
    {
        self.events.push(DiffEvent::Insert { base_at, target_at, len });
        Ok(())
    }
}

/// The events that `diffs::myers::diff` reports of `base` and `target`, in
/// order, when `base` is its old version and `target` its new one.
pub uninterp spec fn myers_trace(base: Seq<u8>, target: Seq<u8>) -> Seq<DiffEvent>;

/// The events that the diff of `base` and `target` starts from: those of
/// the Myers algorithm, or none where a buffer is too long to be handed to
/// it, which leaves the literal script.
pub open spec fn diff_events(base: Seq<u8>, target: Seq<u8>) -> Seq<DiffEvent> {
    if base.len() <= MAX_DIFF_INPUT && target.len() <= MAX_DIFF_INPUT {
        myers_trace(base, target)
    } else {
        Seq::empty()
    }
}

/// The longest buffer that is handed to the diff: the algorithm keeps two
/// tables of twice the shorter length and two more entries, and counts
/// both lengths together in a signed number.
pub const MAX_DIFF_INPUT: usize = isize::MAX as usize / 64;

/// Runs `diffs::myers::diff` over the whole of `base` and the whole of
/// `target`, with an `EventLog` that records each call the algorithm makes.
/// The contract claims only that the events are a function of the two
/// buffers; that they are true of the buffers is checked by whoever uses
/// them. It asks for buffers whose lengths the arithmetic and the tables
/// of the algorithm hold.
#[verifier::external_body]
fn myers_events(base: &[u8], target: &[u8]) -> (events: Vec<DiffEvent>)
    requires
        base@.len() <= MAX_DIFF_INPUT,
        target@.len() <= MAX_DIFF_INPUT,
    ensures
        events@ == myers_trace(base@, target@),
{
    let mut log = EventLog { events: Vec::new() };
    let _ = diffs::myers::diff(&mut log, base, 0, base.len(), target, 0, target.len());
    log.events
}

/// Every operation of a script that holds of two buffers can be written as
/// one instruction.
proof fn lemma_script_encodable(ops: Seq<DeltaOp>, base: Seq<u8>, target: Seq<u8>, i: int)
    requires
        script_ok(ops, base, target),
        0 <= i < ops.len(),
    ensures
        op_encodable(ops[i], target.len()),
    decreases ops.len(),
{
    if i < ops.len() - 1 {
        lemma_script_encodable(ops.drop_last(), base, target, i);
    }
}

/// The diff of two revisions of an object: the edit script that rebuilds
/// the new revision from the old one.
pub struct DeltaDiff {
    ops: Vec<DeltaOp>,
    old_data: Object,
    new_data: Object,
    ssam: usize,
}

impl DeltaDiff {
    #[verifier::type_invariant]
    spec fn well_formed(self) -> bool {
        &&& script_complete(self.ops@, self.old_data.data@, self.new_data.data@)
        &&& self.ssam == copied(self.ops@)
    }

    /// The edit script.
    pub closed spec fn script(&self) -> Seq<DeltaOp> {
        self.ops@
    }

    /// The content of the old revision.
    pub closed spec fn base(&self) -> Seq<u8> {
        self.old_data.data@
    }

    /// The content of the new revision.
    pub closed spec fn target(&self) -> Seq<u8> {
        self.new_data.data@
    }

    /// The diff that the events `events` give for `old_data` and
    /// `new_data`. Fails with `TypeMismatch` where the two are objects of
    /// different types.
    pub fn from_events(old_data: Object, new_data: Object, events: &Vec<DiffEvent>) -> (r: Result<
        DeltaDiff,
        GitError,
    >)
        ensures
            match r {
                Ok(d) => {
                    &&& old_data.t == new_data.t
                    &&& d.base() == old_data.data@
                    &&& d.target() == new_data.data@
                    &&& d.script() == delta_script(events@, old_data.data@, new_data.data@)
                    &&& script_complete(d.script(), d.base(), d.target())
                },
                Err(e) => e == GitError::TypeMismatch && old_data.t != new_data.t,
            },
    {
        if old_data.t != new_data.t {
            return Err(GitError::TypeMismatch);
        }
        let (ops, ssam) = build_script(events, old_data.data.as_slice(), new_data.data.as_slice());
        Ok(DeltaDiff { ops, old_data, new_data, ssam })
    }

    /// The diff of `old_data` and `new_data`, from the runs of the events
    /// that the Myers algorithm reports of their contents, with every
    /// insertion moved to the right as far as it goes. Fails with `TypeMismatch`
    /// where the two are objects of different types.
    pub fn new(old_data: Object, new_data: Object) -> (r: Result<DeltaDiff, GitError>)
        ensures
            match r {
                Ok(d) => {
                    &&& old_data.t == new_data.t
                    &&& d.base() == old_data.data@
                    &&& d.target() == new_data.data@
                    &&& d.script() == delta_script(
                        settle(
                            coalesce(diff_events(old_data.data@, new_data.data@)),
                            old_data.data@,
                            new_data.data@,
                        ),
                        old_data.data@,
                        new_data.data@,
                    )
                    &&& script_complete(d.script(), d.base(), d.target())
                },
                Err(e) => e == GitError::TypeMismatch && old_data.t != new_data.t,
            },
    {
        let reported = if old_data.data.len() <= MAX_DIFF_INPUT && new_data.data.len()
            <= MAX_DIFF_INPUT {
            myers_events(old_data.data.as_slice(), new_data.data.as_slice())
        } else {
            Vec::new()
        };
        let runs = coalesce_events(&reported);
        let events = settle_events(
            &runs,
            old_data.data.as_slice(),
            new_data.data.as_slice(),
        );
        DeltaDiff::from_events(old_data, new_data, &events)
    }

    /// The operations of the edit script, in order.
    pub fn ops(&self) -> (r: &Vec<DeltaOp>)
        ensures
            r@ == self.script(),
    {
        &self.ops
    }

    /// The similarity of the two revisions as a fraction: the number of
    /// bytes of the new revision that the script copies from the old one,
    /// over the length of the new revision.
    pub fn similarity(&self) -> (r: (usize, usize))
        ensures
            r.0 == copied(self.script()),
            r.1 == self.target().len(),
            r.0 <= r.1,
    {
        proof {
            use_type_invariant(self);
            lemma_copied_bound(self.ops@);
        }
        (self.ssam, self.new_data.data.len())
    }

    /// Writes one operation of the script as an instruction of the delta.
    fn encode_op(&self, op: &DeltaOp) -> (out: Vec<u8>)
        requires
            op_encodable(*op, self.target().len()),
        ensures
            out@ == op_encoding(*op, self.target()),
    {
        match op.ins {
            Optype::DATA => encode_insert(self.new_data.data.as_slice(), op.begin, op.len),
            Optype::COPY => encode_copy(op.begin, op.len),
        }
    }

    /// Writes the delta: the size of the old revision, the size of the new
    /// one, and the instructions of the script. Replaying it against the
    /// old revision rebuilds the new one.
    pub fn get_delta_metadata(&self) -> (result: Vec<u8>)
        ensures
            result@ == delta_encoding(self.base().len(), self.script(), self.target()),
            apply_delta_spec(self.base(), result@) == Some(self.target()),
    {
        proof {
            use_type_invariant(self);
        }
        let mut result: Vec<u8> = Vec::new();
        let mut size_old = write_size_encoding(self.old_data.data.len());
        let mut size_new = write_size_encoding(self.new_data.data.len());
        result.append(&mut size_old);
        result.append(&mut size_new);
        let ghost header = result@;
        let mut i: usize = 0;
        while i < self.ops.len()
            invariant
                i <= self.ops@.len(),
                script_ok(self.ops@, self.base(), self.target()),
                result@ == header + ops_encoding(self.ops@.take(i as int), self.target()),
            decreases self.ops@.len() - i,
        {
            proof {
                lemma_script_encodable(self.ops@, self.base(), self.target(), i as int);
                assert(self.ops@.take(i + 1).drop_last() =~= self.ops@.take(i as int));
            }
            let mut piece = self.encode_op(&self.ops[i]);
            result.append(&mut piece);
            i = i + 1;
        }
        proof {
            assert(self.ops@.take(i as int) =~= self.ops@);
            lemma_delta_round_trip(self.ops@, self.base(), self.target());
        }
        result
    }
}

} // verus!
