//! Looking into the frames: which one took longest, and which of its
//! children weigh most.

use crate::trace::{frame_views, trace_views, FrameTrace, FrameTraceView, Trace, TraceView};
use vstd::prelude::*;

verus! {

/// Whether the frame at a position is the heaviest: none has a greater
/// total duration, and every frame before it has a smaller one.
pub open spec fn is_heaviest(frames: Seq<FrameTraceView>, at: int) -> bool {
    &&& 0 <= at < frames.len()
    &&& forall|j: int|
        0 <= j < frames.len() ==> (#[trigger] frames[j]).trace.total_duration()
            <= frames[at].trace.total_duration()
    &&& forall|j: int|
        0 <= j < at ==> (#[trigger] frames[j]).trace.total_duration()
            < frames[at].trace.total_duration()
}

/// At most one position holds the heaviest frame.
pub proof fn lemma_heaviest_unique(frames: Seq<FrameTraceView>, a: int, b: int)
    requires
        is_heaviest(frames, a),
        is_heaviest(frames, b),
    ensures
        a == b,
{
    if a < b {
        assert(frames[a].trace.total_duration() < frames[b].trace.total_duration());
    } else if b < a {
        assert(frames[b].trace.total_duration() < frames[a].trace.total_duration());
    }
}

/// The position of the heaviest frame: among the frames with the greatest
/// total duration, the first. There is none only where there are no frames.
pub fn heaviest_frame(frames: &Vec<FrameTrace>) -> (at: Option<usize>)
    ensures
        frames.len() == 0 ==> at is None,
        frames.len() > 0 ==> at is Some && is_heaviest(frame_views(frames@), at->0 as int),
{
    if frames.len() == 0 {
        return None;
    }
    let ghost views = frame_views(frames@);
    let mut best: usize = 0;
    let mut best_total: u128 = frames[0].trace.total_duration();
    let mut i: usize = 1;
    while i < frames.len()
        invariant
            1 <= i <= frames.len(),
            views == frame_views(frames@),
            best < i,
            best_total == views[best as int].trace.total_duration(),
            forall|j: int|
                0 <= j < i ==> (#[trigger] views[j]).trace.total_duration() <= best_total,
            forall|j: int|
                0 <= j < best ==> (#[trigger] views[j]).trace.total_duration() < best_total,
        decreases frames.len() - i,
    {
        let total = frames[i].trace.total_duration();
        assert(total == views[i as int].trace.total_duration());
        if total > best_total {
            best = i;
            best_total = total;
        }
        i += 1;
    }
    Some(best)
}

/// Whether the total durations never rise from one record to the next.
pub open spec fn descending(records: Seq<TraceView>) -> bool {
    forall|i: int, j: int|
        0 <= i < j < records.len() ==> (#[trigger] records[i]).total_duration() >= (
        #[trigger] records[j]).total_duration()
}

/// The records with a given total duration, in their order.
pub open spec fn with_total(records: Seq<TraceView>, total: nat) -> Seq<TraceView>
    decreases records.len(),
{
    if records.len() == 0 {
        Seq::empty()
    } else {
        let earlier = with_total(records.drop_last(), total);
        if records.last().total_duration() == total {
            earlier.push(records.last())
        } else {
            earlier
        }
    }
}

/// Whether `sorted` is `unsorted` in descending order of total duration,
/// the records of equal duration in the order they had.
pub open spec fn is_stable_descending(sorted: Seq<TraceView>, unsorted: Seq<TraceView>) -> bool {
    &&& sorted.len() == unsorted.len()
    &&& descending(sorted)
    &&& forall|total: nat| #[trigger] with_total(sorted, total) == with_total(unsorted, total)
}

/// Selecting by total duration goes through a concatenation.
proof fn lemma_with_total_add(a: Seq<TraceView>, b: Seq<TraceView>, total: nat)
    ensures
        with_total(a + b, total) == with_total(a, total) + with_total(b, total),
    decreases b.len(),
{
    if b.len() == 0 {
        assert(a + b =~= a);
        assert(with_total(a, total) + with_total(b, total) =~= with_total(a, total));
    } else {
        lemma_with_total_add(a, b.drop_last(), total);
        assert((a + b).drop_last() =~= a + b.drop_last());
        assert((a + b).last() == b.last());
        if b.last().total_duration() == total {
            assert(with_total(a, total) + with_total(b.drop_last(), total).push(b.last())
                =~= (with_total(a, total) + with_total(b.drop_last(), total)).push(b.last()));
        }
    }
}

/// Where no record has the given total duration, none is selected.
proof fn lemma_with_total_none(records: Seq<TraceView>, total: nat)
    requires
        forall|i: int| 0 <= i < records.len() ==> (#[trigger] records[i]).total_duration() != total,
    ensures
        with_total(records, total) == Seq::<TraceView>::empty(),
    decreases records.len(),
{
    if records.len() > 0 {
        assert(records.drop_last().len() < records.len());
        assert forall|i: int| 0 <= i < records.drop_last().len() implies (
        #[trigger] records.drop_last()[i]).total_duration() != total by {
            assert(records.drop_last()[i] == records[i]);
        }
        lemma_with_total_none(records.drop_last(), total);
        assert(records.last() == records[records.len() - 1]);
    }
}

/// Putting a record into a descending sequence, behind every record that
/// weighs at least as much, keeps the sequence descending and keeps the
/// records of equal duration in arrival order.
proof fn lemma_insert_keeps_order(
    sorted: Seq<TraceView>,
    seen: Seq<TraceView>,
    record: TraceView,
    at: int,
)
    requires
        is_stable_descending(sorted, seen),
        0 <= at <= sorted.len(),
        forall|k: int|
            0 <= k < at ==> (#[trigger] sorted[k]).total_duration() >= record.total_duration(),
        at < sorted.len() ==> sorted[at].total_duration() < record.total_duration(),
    ensures
        is_stable_descending(sorted.insert(at, record), seen.push(record)),
{
    let longer = sorted.insert(at, record);
    let before = sorted.take(at);
    let after = sorted.skip(at);
    assert(longer =~= before + seq![record] + after);
    assert(sorted =~= before + after);
    assert forall|k: int| 0 <= k < after.len() implies (#[trigger] after[k]).total_duration()
        < record.total_duration() by {
        assert(after[k] == sorted[at + k]);
        assert(sorted[at].total_duration() >= sorted[at + k].total_duration());
    }
    assert(descending(longer)) by {
        assert forall|i: int, j: int| 0 <= i < j < longer.len() implies (
        #[trigger] longer[i]).total_duration() >= (#[trigger] longer[j]).total_duration() by {
            if i < at && j > at {
                assert(longer[i] == sorted[i]);
                assert(longer[j] == sorted[j - 1]);
            } else if i < at && j == at {
                assert(longer[i] == sorted[i]);
            } else if i < at {
                assert(longer[i] == sorted[i]);
                assert(longer[j] == sorted[j]);
            } else if i == at {
                assert(longer[j] == after[j - at - 1]);
            } else {
                assert(longer[i] == sorted[i - 1]);
                assert(longer[j] == sorted[j - 1]);
            }
        }
    }
    assert forall|total: nat| #[trigger]
        with_total(longer, total) == with_total(seen.push(record), total) by {
        lemma_with_total_add(before + seq![record], after, total);
        lemma_with_total_add(before, seq![record], total);
        lemma_with_total_add(before, after, total);
        assert(seq![record].drop_last() =~= Seq::<TraceView>::empty());
        assert(with_total(Seq::<TraceView>::empty(), total) =~= Seq::<TraceView>::empty());
        assert(seen.push(record).drop_last() =~= seen);
        assert(with_total(sorted, total) == with_total(seen, total));
        if record.total_duration() == total {
            lemma_with_total_none(after, total);
            assert(with_total(seq![record], total) =~= seq![record]);
            assert(with_total(longer, total) =~= with_total(seen, total).push(record));
        } else {
            assert(with_total(seq![record], total) =~= Seq::<TraceView>::empty());
            assert(with_total(longer, total) =~= with_total(seen, total));
        }
    }
}

/// Two descending sequences that hold, for every total duration, the same
/// records in the same order are one and the same.
proof fn lemma_descending_unique(a: Seq<TraceView>, b: Seq<TraceView>)
    requires
        a.len() == b.len(),
        descending(a),
        descending(b),
        forall|total: nat| #[trigger] with_total(a, total) == with_total(b, total),
    ensures
        a == b,
    decreases a.len(),
{
    if a.len() == 0 {
        assert(a =~= b);
    } else {
        let high = a[0].total_duration();
        let other = b[0].total_duration();
        let a_rest = a.skip(1);
        let b_rest = b.skip(1);
        assert(a =~= seq![a[0]] + a_rest);
        assert(b =~= seq![b[0]] + b_rest);
        assert(seq![a[0]].drop_last() =~= Seq::<TraceView>::empty());
        assert(seq![b[0]].drop_last() =~= Seq::<TraceView>::empty());
        assert(with_total(Seq::<TraceView>::empty(), high) =~= Seq::<TraceView>::empty());
        assert(with_total(Seq::<TraceView>::empty(), other) =~= Seq::<TraceView>::empty());
        lemma_with_total_add(seq![a[0]], a_rest, high);
        lemma_with_total_add(seq![b[0]], b_rest, other);
        assert(with_total(a, high)[0] == a[0]);
        assert(with_total(b, other)[0] == b[0]);
        if other < high {
            assert forall|i: int| 0 <= i < b.len() implies (#[trigger] b[i]).total_duration()
                != high by {
                if i > 0 {
                    assert(b[0].total_duration() >= b[i].total_duration());
                }
            }
            lemma_with_total_none(b, high);
            assert(with_total(a, high) == with_total(b, high));
        } else if high < other {
            assert forall|i: int| 0 <= i < a.len() implies (#[trigger] a[i]).total_duration()
                != other by {
                if i > 0 {
                    assert(a[0].total_duration() >= a[i].total_duration());
                }
            }
            lemma_with_total_none(a, other);
            assert(with_total(a, other) == with_total(b, other));
        }
        assert(high == other);
        assert(with_total(a, high) == with_total(b, high));
        assert(a[0] == b[0]);
        assert forall|total: nat| #[trigger]
            with_total(a_rest, total) == with_total(b_rest, total) by {
            lemma_with_total_add(seq![a[0]], a_rest, total);
            lemma_with_total_add(seq![b[0]], b_rest, total);
            assert(with_total(a, total) == with_total(b, total));
            let head = with_total(seq![a[0]], total);
            assert(with_total(a_rest, total) =~= (head + with_total(a_rest, total)).skip(
                head.len() as int,
            ));
            assert(with_total(b_rest, total) =~= (head + with_total(b_rest, total)).skip(
                head.len() as int,
            ));
        }
        assert(descending(a_rest)) by {
            assert forall|i: int, j: int| 0 <= i < j < a_rest.len() implies (
            #[trigger] a_rest[i]).total_duration() >= (#[trigger] a_rest[j]).total_duration() by {
                assert(a[i + 1].total_duration() >= a[j + 1].total_duration());
            }
        }
        assert(descending(b_rest)) by {
            assert forall|i: int, j: int| 0 <= i < j < b_rest.len() implies (
            #[trigger] b_rest[i]).total_duration() >= (#[trigger] b_rest[j]).total_duration() by {
                assert(b[i + 1].total_duration() >= b[j + 1].total_duration());
            }
        }
        lemma_descending_unique(a_rest, b_rest);
    }
}

/// A sequence has one stable descending order: two sequences that both are
/// the stable descending order of a third are equal.
pub proof fn lemma_stable_descending_unique(
    first: Seq<TraceView>,
    second: Seq<TraceView>,
    unsorted: Seq<TraceView>,
)
    requires
        is_stable_descending(first, unsorted),
        is_stable_descending(second, unsorted),
    ensures
        first == second,
{
    assert forall|total: nat| #[trigger] with_total(first, total) == with_total(second, total) by {
        assert(with_total(first, total) == with_total(unsorted, total));
        assert(with_total(second, total) == with_total(unsorted, total));
    }
    lemma_descending_unique(first, second);
}

/// Sorts records by total duration, longest first. Records of equal
/// duration keep the order they came in.
pub fn sort_by_total_descending(records: Vec<Trace>) -> (sorted: Vec<Trace>)
    ensures
        is_stable_descending(trace_views(sorted@), trace_views(records@)),
{
    let ghost all = trace_views(records@);
    let mut sorted: Vec<Trace> = Vec::new();
    let ghost mut seen: Seq<TraceView> = Seq::empty();
    proof {
        assert(trace_views(sorted@) =~= Seq::<TraceView>::empty());
    }
    for record in it: records
        invariant
            all == trace_views(records@),
            it.seq() == records@,
            seen == all.take(it.index() as int),
            is_stable_descending(trace_views(sorted@), seen),
    {
        let total = record.total_duration();
        let mut at: usize = 0;
        while at < sorted.len() && sorted[at].total_duration() >= total
            invariant
                at <= sorted.len(),
                forall|k: int|
                    0 <= k < at ==> (#[trigger] trace_views(sorted@)[k]).total_duration() >= total,
            decreases sorted.len() - at,
        {
            at += 1;
        }
        proof {
            lemma_insert_keeps_order(trace_views(sorted@), seen, record@, at as int);
            assert(trace_views(sorted@.insert(at as int, record)) =~= trace_views(sorted@).insert(
                at as int,
                record@,
            ));
            assert(all.take(it.index() + 1) =~= seen.push(record@));
            seen = seen.push(record@);
        }
        sorted.insert(at, record);
    }
    assert(seen =~= all);
    sorted
}

impl FrameTrace {
    /// A snapshot of the frame for inspection: an independent copy whose
    /// children are sorted by total duration, longest first, those of equal
    /// duration in the order they had.
    pub fn inspected(&self) -> (snapshot: FrameTrace)
        ensures
            snapshot@.trace == self@.trace,
            is_stable_descending(snapshot@.child_traces, self@.child_traces),
    {
        let copy = self.clone();
        FrameTrace { trace: copy.trace, child_traces: sort_by_total_descending(copy.child_traces) }
    }
}

} // verus!
