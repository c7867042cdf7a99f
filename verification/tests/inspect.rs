use frametrace::inspect::{heaviest_frame, sort_by_total_descending};
use frametrace::trace::{Fields, FrameTrace, Span, Trace};

const MS: u64 = 1_000_000;

fn record(target: &str, span_name: &str, busy: u64, idle: u64) -> Trace {
    Trace {
        target: target.to_string(),
        fields: Fields { message: "close".to_string(), time_busy: busy, time_idle: idle },
        span: Span { id: None, name: span_name.to_string() },
    }
}

fn frame_of(target: &str, busy: u64, idle: u64, children: Vec<Trace>) -> FrameTrace {
    FrameTrace { trace: record(target, "frame", busy, idle), child_traces: children }
}

fn targets(records: &[Trace]) -> Vec<&str> {
    records.iter().map(|r| r.target.as_str()).collect()
}

#[test]
fn heaviest_of_no_frames_is_none() {
    assert_eq!(heaviest_frame(&vec![]), None);
}

#[test]
fn first_of_the_heaviest_frames_wins() {
    let frames = vec![
        frame_of("a", 5 * MS, 0, vec![]),
        frame_of("b", 7 * MS, 5 * MS, vec![]),
        frame_of("c", 12 * MS, 0, vec![]),
        frame_of("d", 3 * MS, 0, vec![]),
    ];
    assert_eq!(heaviest_frame(&frames), Some(1));
}

#[test]
fn heaviest_counts_busy_and_idle_time() {
    let frames = vec![frame_of("a", 10, 0, vec![]), frame_of("b", 4, 7, vec![])];
    assert_eq!(heaviest_frame(&frames), Some(1));
}

#[test]
fn heaviest_of_weightless_frames_is_the_first() {
    let frames = vec![frame_of("a", 0, 0, vec![]), frame_of("b", 0, 0, vec![])];
    assert_eq!(heaviest_frame(&frames), Some(0));
    assert_eq!(heaviest_frame(&vec![frame_of("only", 1, 2, vec![])]), Some(0));
}

#[test]
fn heaviest_frame_beyond_sixty_four_bits() {
    let frames = vec![
        frame_of("a", u64::MAX, 0, vec![]),
        frame_of("b", u64::MAX, 1, vec![]),
        frame_of("c", 1, u64::MAX, vec![]),
    ];
    assert_eq!(heaviest_frame(&frames), Some(1));
}

#[test]
fn sorting_is_descending_and_stable() {
    let sorted = sort_by_total_descending(vec![
        record("a", "x", 3, 0),
        record("b", "x", 9, 0),
        record("c", "x", 1, 2),
        record("d", "x", 0, 9),
        record("e", "x", 0, 0),
        record("f", "x", 2, 1),
    ]);
    assert_eq!(targets(&sorted), vec!["b", "d", "a", "c", "f", "e"]);
}

#[test]
fn sorting_keeps_short_inputs() {
    assert_eq!(sort_by_total_descending(vec![]), vec![]);
    let one = record("a", "x", 1, 1);
    assert_eq!(sort_by_total_descending(vec![one.clone()]), vec![one]);
}

#[test]
fn sorting_agrees_with_a_stable_sort() {
    let mut seed: u64 = 0x2545_F491_4F6C_DD1D;
    for round in 0..50 {
        let mut records = Vec::new();
        for i in 0..(round % 13) {
            seed ^= seed << 13;
            seed ^= seed >> 7;
            seed ^= seed << 17;
            records.push(record(&format!("r{i}"), "x", seed % 4, (seed >> 8) % 3));
        }
        let mut expected = records.clone();
        expected.sort_by(|a, b| b.total_duration().cmp(&a.total_duration()));
        assert_eq!(sort_by_total_descending(records), expected);
    }
}

#[test]
fn inspecting_sorts_a_copy() {
    let frame = frame_of(
        "f",
        5,
        5,
        vec![record("a", "x", 1, 0), record("b", "x", 2, 0), record("c", "x", 1, 0)],
    );
    let snapshot = frame.inspected();
    assert_eq!(snapshot.trace, frame.trace);
    assert_eq!(targets(&snapshot.child_traces), vec!["b", "a", "c"]);
    assert_eq!(targets(&frame.child_traces), vec!["a", "b", "c"]);
}
