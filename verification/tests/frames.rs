use frametrace::frames::{aggregate_frames, flatten_frames};
use frametrace::trace::{Fields, FrameTrace, Span, Trace};

fn record(target: &str, span_name: &str, id: Option<u64>, busy: u64, idle: u64) -> Trace {
    Trace {
        target: target.to_string(),
        fields: Fields { message: "close".to_string(), time_busy: busy, time_idle: idle },
        span: Span { id, name: span_name.to_string() },
    }
}

fn frame(target: &str, id: u64) -> Trace {
    record(target, "frame", Some(id), 1_000, 10)
}

fn child(target: &str) -> Trace {
    record(target, "calc_tics", None, 100, 1)
}

#[test]
fn total_duration_adds_busy_and_idle() {
    assert_eq!(record("t", "x", None, 2_930_000, 375).total_duration(), 2_930_375);
    assert_eq!(record("t", "x", None, 0, 0).total_duration(), 0);
    assert_eq!(
        record("t", "x", None, u64::MAX, u64::MAX).total_duration(),
        2 * (u64::MAX as u128)
    );
}

#[test]
fn frame_records_are_told_by_span_name() {
    assert!(frame("a", 0).is_frame());
    assert!(!child("a").is_frame());
    assert!(!record("a", "Frame", None, 0, 0).is_frame());
    assert!(!record("a", "frames", None, 0, 0).is_frame());
    assert!(!record("a", "fram", None, 0, 0).is_frame());
    assert!(!record("a", "", None, 0, 0).is_frame());
    assert!(!record("frame", "other", None, 0, 0).is_frame());
}

#[test]
fn children_follow_their_frame() {
    let a = frame("A", 0);
    let b = child("B");
    let c = child("C");
    let a2 = frame("A2", 1);
    let d = child("D");
    let frames =
        aggregate_frames(vec![a.clone(), b.clone(), c.clone(), a2.clone(), d.clone()]);
    assert_eq!(
        frames,
        vec![
            FrameTrace { trace: a, child_traces: vec![b, c] },
            FrameTrace { trace: a2, child_traces: vec![d] },
        ]
    );
}

#[test]
fn no_frame_record_gives_no_frames() {
    assert_eq!(aggregate_frames(vec![]), vec![]);
    assert_eq!(aggregate_frames(vec![child("B"), child("C"), child("D")]), vec![]);
}

#[test]
fn records_before_the_first_frame_are_dropped() {
    let frames = aggregate_frames(vec![child("X"), child("Y"), frame("A", 7), child("B")]);
    assert_eq!(frames, vec![FrameTrace { trace: frame("A", 7), child_traces: vec![child("B")] }]);
}

#[test]
fn adjacent_frames_have_no_children() {
    let frames = aggregate_frames(vec![frame("A", 0), frame("B", 1), frame("C", 2)]);
    assert_eq!(frames.len(), 3);
    assert!(frames.iter().all(|f| f.child_traces.is_empty()));
    assert_eq!(frames[1].trace, frame("B", 1));
}

#[test]
fn span_ids_need_not_be_unique_or_present() {
    let first = record("A", "frame", Some(3), 1, 1);
    let second = record("B", "frame", Some(3), 1, 1);
    let third = record("C", "frame", None, 1, 1);
    let frames = aggregate_frames(vec![first.clone(), second.clone(), third.clone()]);
    assert_eq!(
        frames,
        vec![
            FrameTrace { trace: first, child_traces: vec![] },
            FrameTrace { trace: second, child_traces: vec![] },
            FrameTrace { trace: third, child_traces: vec![] },
        ]
    );
}

#[test]
fn flattening_gives_the_stream_back_from_the_first_frame() {
    let stream = vec![
        child("dropped"),
        frame("A", 0),
        child("B"),
        child("C"),
        frame("A2", 1),
        child("D"),
        frame("A3", 2),
    ];
    let frames = aggregate_frames(stream.clone());
    assert_eq!(flatten_frames(&frames), stream[1..].to_vec());
    assert_eq!(aggregate_frames(flatten_frames(&frames)), frames);
}

#[test]
fn flattening_nothing_gives_nothing() {
    assert_eq!(flatten_frames(&vec![]), vec![]);
}

#[test]
fn clones_are_equal_and_independent() {
    let source = FrameTrace { trace: frame("A", 0), child_traces: vec![child("B"), child("C")] };
    let mut copy = source.clone();
    assert_eq!(copy, source);
    copy.child_traces.pop();
    copy.trace.target.push('!');
    assert_eq!(source.child_traces.len(), 2);
    assert_eq!(source.trace.target, "A");
}
