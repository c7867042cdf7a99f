//! Grouping a flat stream of records into frames.

use crate::trace::{clone_traces, frame_views, trace_views, FrameTrace, FrameTraceView, Trace, TraceView};
use vstd::prelude::*;

verus! {

/// The number of records that stand before the first frame record.
pub open spec fn unframed_prefix_len(records: Seq<TraceView>) -> nat
    decreases records.len(),
{
    if records.len() == 0 || records[0].is_frame() {
        0
    } else {
        1 + unframed_prefix_len(records.skip(1))
    }
}

/// The frames of a stream of records: one for each frame record, in order,
/// holding the records between it and the next frame record (or the end of
/// the stream) as its children. Records before the first frame record
/// belong to no frame.
pub open spec fn aggregate(records: Seq<TraceView>) -> Seq<FrameTraceView>
    decreases records.len(),
{
    if records.len() == 0 {
        Seq::empty()
    } else if records[0].is_frame() {
        let rest = records.skip(1);
        seq![
            FrameTraceView {
                trace: records[0],
                child_traces: rest.take(unframed_prefix_len(rest) as int),
            },
        ] + aggregate(rest)
    } else {
        aggregate(records.skip(1))
    }
}

/// The records of a sequence of frames, laid out flat again: each frame
/// record followed by its children.
pub open spec fn flatten(frames: Seq<FrameTraceView>) -> Seq<TraceView>
    decreases frames.len(),
{
    if frames.len() == 0 {
        Seq::empty()
    } else {
        seq![frames[0].trace] + frames[0].child_traces + flatten(frames.skip(1))
    }
}

/// The unframed prefix is a prefix: it holds no frame record, and the record
/// that follows it, if there is one, is a frame record.
pub proof fn lemma_unframed_prefix(records: Seq<TraceView>)
    ensures
        unframed_prefix_len(records) <= records.len(),
        forall|i: int| 0 <= i < unframed_prefix_len(records) ==> !(#[trigger] records[i]).is_frame(),
        unframed_prefix_len(records) < records.len() ==> records[
            unframed_prefix_len(records) as int
        ].is_frame(),
    decreases records.len(),
{
    if records.len() == 0 || records[0].is_frame() {
    } else {
        let rest = records.skip(1);
        lemma_unframed_prefix(rest);
        assert forall|i: int| 0 <= i < unframed_prefix_len(records) implies !(
        #[trigger] records[i]).is_frame() by {
            if i > 0 {
                assert(records[i] == rest[i - 1]);
            }
        }
    }
}

/// A stream has no frames exactly if it has no frame record.
pub proof fn lemma_aggregate_empty(records: Seq<TraceView>)
    ensures
        aggregate(records).len() == 0 <==> unframed_prefix_len(records) == records.len(),
    decreases records.len(),
{
    if records.len() == 0 || records[0].is_frame() {
    } else {
        lemma_aggregate_empty(records.skip(1));
    }
}

/// How one more record at the end changes the unframed prefix.
proof fn lemma_unframed_prefix_push(records: Seq<TraceView>, last: TraceView)
    ensures
        unframed_prefix_len(records.push(last)) == if unframed_prefix_len(records) == records.len()
            && !last.is_frame() {
            records.len() + 1
        } else {
            unframed_prefix_len(records)
        },
    decreases records.len(),
{
    let longer = records.push(last);
    if records.len() == 0 {
        assert(longer.skip(1) =~= Seq::<TraceView>::empty());
        assert(unframed_prefix_len(longer.skip(1)) == 0);
    } else if records[0].is_frame() {
    } else {
        lemma_unframed_prefix_push(records.skip(1), last);
        assert(longer.skip(1) =~= records.skip(1).push(last));
    }
}

/// A frame with one more child at the end.
pub open spec fn with_child(frame: FrameTraceView, child: TraceView) -> FrameTraceView {
    FrameTraceView { trace: frame.trace, child_traces: frame.child_traces.push(child) }
}

/// How one more record at the end changes the frames: a frame record opens
/// a new frame without children; any other record becomes the last child of
/// the last frame, or is dropped where no frame is open yet.
pub proof fn lemma_aggregate_push(records: Seq<TraceView>, last: TraceView)
    ensures
        last.is_frame() ==> aggregate(records.push(last)) == aggregate(records).push(
            FrameTraceView { trace: last, child_traces: Seq::empty() },
        ),
        !last.is_frame() && aggregate(records).len() == 0 ==> aggregate(records.push(last)).len()
            == 0,
        !last.is_frame() && aggregate(records).len() > 0 ==> aggregate(records.push(last))
            == aggregate(records).drop_last().push(with_child(aggregate(records).last(), last)),
    decreases records.len(),
{
    let longer = records.push(last);
    if records.len() == 0 {
        assert(longer.skip(1) =~= Seq::<TraceView>::empty());
        assert(aggregate(longer.skip(1)) =~= Seq::<FrameTraceView>::empty());
        if last.is_frame() {
            assert(longer.skip(1).take(0) =~= Seq::<TraceView>::empty());
            assert(aggregate(longer) =~= aggregate(records).push(
                FrameTraceView { trace: last, child_traces: Seq::empty() },
            ));
        }
    } else {
        let rest = records.skip(1);
        assert(longer.skip(1) =~= rest.push(last));
        lemma_aggregate_push(rest, last);
        if records[0].is_frame() {
            lemma_unframed_prefix_push(rest, last);
            lemma_unframed_prefix(rest);
            lemma_aggregate_empty(rest);
            let head = FrameTraceView {
                trace: records[0],
                child_traces: rest.take(unframed_prefix_len(rest) as int),
            };
            assert(aggregate(records) == seq![head] + aggregate(rest));
            if last.is_frame() {
                assert(rest.push(last).take(unframed_prefix_len(rest) as int) =~= rest.take(
                    unframed_prefix_len(rest) as int,
                ));
                assert(aggregate(longer) =~= aggregate(records).push(
                    FrameTraceView { trace: last, child_traces: Seq::empty() },
                ));
            } else if aggregate(rest).len() == 0 {
                assert(rest.push(last).take(rest.len() as int + 1) =~= rest.take(rest.len() as int).push(
                    last,
                ));
                assert(aggregate(longer) =~= aggregate(records).drop_last().push(
                    with_child(aggregate(records).last(), last),
                ));
            } else {
                assert(rest.push(last).take(unframed_prefix_len(rest) as int) =~= rest.take(
                    unframed_prefix_len(rest) as int,
                ));
                assert(aggregate(longer) =~= aggregate(records).drop_last().push(
                    with_child(aggregate(records).last(), last),
                ));
            }
        }
    }
}

/// Flattening the frames of a stream gives the stream back, from its first
/// frame record on: within each frame, and from frame to frame, the records
/// keep the order in which they arrived.
pub proof fn lemma_flatten_aggregate(records: Seq<TraceView>)
    ensures
        flatten(aggregate(records)) == records.skip(unframed_prefix_len(records) as int),
    decreases records.len(),
{
    lemma_unframed_prefix(records);
    if records.len() == 0 {
        assert(flatten(aggregate(records)) =~= records.skip(0));
    } else {
        let rest = records.skip(1);
        lemma_flatten_aggregate(rest);
        lemma_unframed_prefix(rest);
        if records[0].is_frame() {
            let n = unframed_prefix_len(rest) as int;
            let head = FrameTraceView { trace: records[0], child_traces: rest.take(n) };
            let frames = seq![head] + aggregate(rest);
            assert(frames.skip(1) =~= aggregate(rest));
            assert(frames[0] == head);
            assert(flatten(frames) == seq![records[0]] + rest.take(n) + rest.skip(n));
            assert(seq![records[0]] + rest.take(n) + rest.skip(n) =~= records.skip(0));
        } else {
            assert(rest.skip(unframed_prefix_len(rest) as int) =~= records.skip(
                unframed_prefix_len(records) as int,
            ));
        }
    }
}

/// The records before the first frame record do not matter to the frames.
pub proof fn lemma_aggregate_skips_unframed(records: Seq<TraceView>)
    ensures
        aggregate(records.skip(unframed_prefix_len(records) as int)) == aggregate(records),
    decreases records.len(),
{
    if records.len() == 0 || records[0].is_frame() {
        assert(records.skip(0) =~= records);
    } else {
        let rest = records.skip(1);
        lemma_aggregate_skips_unframed(rest);
        lemma_unframed_prefix(rest);
        assert(rest.skip(unframed_prefix_len(rest) as int) =~= records.skip(
            unframed_prefix_len(records) as int,
        ));
    }
}

/// Grouping is idempotent through flattening: the flattened frames of a
/// stream group into the same frames again.
pub proof fn lemma_aggregate_flatten_aggregate(records: Seq<TraceView>)
    ensures
        aggregate(flatten(aggregate(records))) == aggregate(records),
{
    lemma_flatten_aggregate(records);
    lemma_aggregate_skips_unframed(records);
}

/// Every frame of a stream starts with a frame record, and none of its
/// children is one.
pub proof fn lemma_aggregate_shape(records: Seq<TraceView>)
    ensures
        forall|k: int|
            0 <= k < aggregate(records).len() ==> (#[trigger] aggregate(records)[k]).trace.is_frame(),
        forall|k: int, j: int|
            0 <= k < aggregate(records).len() && 0 <= j < aggregate(records)[k].child_traces.len()
                ==> !(#[trigger] aggregate(records)[k].child_traces[j]).is_frame(),
    decreases records.len(),
{
    if records.len() == 0 {
    } else {
        let rest = records.skip(1);
        lemma_aggregate_shape(rest);
        lemma_unframed_prefix(rest);
    }
}

/// A stream without a frame record has no frames.
pub proof fn lemma_no_frame_record_no_frames(records: Seq<TraceView>)
    requires
        forall|i: int| 0 <= i < records.len() ==> !(#[trigger] records[i]).is_frame(),
    ensures
        aggregate(records) == Seq::<FrameTraceView>::empty(),
{
    lemma_unframed_prefix(records);
    lemma_aggregate_empty(records);
    assert(aggregate(records) =~= Seq::<FrameTraceView>::empty());
}

/// Groups a stream of records into frames. Each frame record opens a frame;
/// the records that follow, up to the next frame record or the end of the
/// stream, become its children in arrival order. Records before the first
/// frame record are dropped.
pub fn aggregate_frames(records: Vec<Trace>) -> (frames: Vec<FrameTrace>)
    ensures
        frame_views(frames@) == aggregate(trace_views(records@)),
{
    let ghost all = trace_views(records@);
    let mut frames: Vec<FrameTrace> = Vec::new();
    let mut open: Option<Trace> = None;
    let mut children: Vec<Trace> = Vec::new();
    let ghost mut seen: Seq<TraceView> = Seq::empty();
    for trace in it: records
        invariant
            all == trace_views(records@),
            it.seq() == records@,
            seen == all.take(it.index() as int),
            open is None ==> frames@.len() == 0 && aggregate(seen).len() == 0,
            open is Some ==> aggregate(seen) == frame_views(frames@).push(
                FrameTraceView { trace: open->0@, child_traces: trace_views(children@) },
            ),
    {
        proof {
            lemma_aggregate_push(seen, trace@);
            assert(all.take(it.index() + 1) =~= seen.push(trace@));
        }
        if trace.is_frame() {
            match open {
                Some(record) => {
                    proof {
                        assert(frame_views(
                            frames@.push(FrameTrace { trace: record, child_traces: children }),
                        ) =~= frame_views(frames@).push(
                            FrameTraceView {
                                trace: record@,
                                child_traces: trace_views(children@),
                            },
                        ));
                    }
                    frames.push(FrameTrace { trace: record, child_traces: children });
                },
                None => {},
            }
            open = Some(trace);
            children = Vec::new();
            proof {
                assert(trace_views(children@) =~= Seq::<TraceView>::empty());
                assert(open is Some);
            }
        } else {
            proof {
                assert(trace_views(children@.push(trace)) =~= trace_views(children@).push(trace@));
            }
            children.push(trace);
        }
        proof {
            seen = seen.push(trace@);
        }
    }
    assert(seen =~= all);
    match open {
        Some(record) => {
            proof {
                assert(frame_views(
                    frames@.push(FrameTrace { trace: record, child_traces: children }),
                ) =~= frame_views(frames@).push(
                    FrameTraceView { trace: record@, child_traces: trace_views(children@) },
                ));
            }
            frames.push(FrameTrace { trace: record, child_traces: children });
        },
        None => {
            assert(frame_views(frames@) =~= aggregate(all));
        },
    }
    frames
}

/// Lays frames out flat again: each frame record followed by its children.
/// The records are copies.
pub fn flatten_frames(frames: &Vec<FrameTrace>) -> (records: Vec<Trace>)
    ensures
        trace_views(records@) == flatten(frame_views(frames@)),
{
    let mut records: Vec<Trace> = Vec::new();
    let mut i: usize = frames.len();
    proof {
        assert(frame_views(frames@).skip(i as int) =~= Seq::<FrameTraceView>::empty());
        assert(trace_views(records@) =~= Seq::<TraceView>::empty());
    }
    while i > 0
        invariant
            i <= frames.len(),
            trace_views(records@) == flatten(frame_views(frames@).skip(i as int)),
        decreases i,
    {
        i -= 1;
        let mut head: Vec<Trace> = Vec::new();
        head.push(frames[i].trace.clone());
        let mut kids = clone_traces(&frames[i].child_traces);
        proof {
            let tail = frame_views(frames@).skip(i as int);
            assert(tail.skip(1) =~= frame_views(frames@).skip(i + 1));
            assert(tail[0] == frames@[i as int]@);
            assert(trace_views(head@ + kids@ + records@) =~= seq![frames@[i as int]@.trace]
                + frames@[i as int]@.child_traces + trace_views(records@));
        }
        head.append(&mut kids);
        head.append(&mut records);
        records = head;
    }
    assert(frame_views(frames@).skip(0) =~= frame_views(frames@));
    records
}

} // verus!
