use frametrace::duration::DecodeError;
use frametrace::record::{
    assemble_record, decode_line, decode_record, read_trace_lines, Cause, Line, MalformedRecord,
    RawTrace,
};
use frametrace::trace::{Fields, Span, Trace};
use serde_json::Value;

fn raw(target: &str, busy: &str, idle: &str, id: Option<u64>, span_name: &str) -> RawTrace {
    RawTrace {
        target: target.to_string(),
        message: "close".to_string(),
        time_busy: busy.to_string(),
        time_idle: idle.to_string(),
        span_id: id,
        span_name: span_name.to_string(),
    }
}

fn text_at(value: &Value, outer: &str, inner: Option<&str>) -> Result<String, String> {
    let mut found = value.get(outer).ok_or(format!("missing field `{outer}`"))?;
    if let Some(inner) = inner {
        found = found.get(inner).ok_or(format!("missing field `{inner}`"))?;
    }
    found.as_str().map(str::to_string).ok_or(format!("`{outer}` is no string"))
}

fn fields_of(text: &str) -> Result<RawTrace, String> {
    let value: Value = serde_json::from_str(text).map_err(|e| e.to_string())?;
    Ok(RawTrace {
        target: text_at(&value, "target", None)?,
        message: text_at(&value, "fields", Some("message"))?,
        time_busy: text_at(&value, "fields", Some("time.busy"))?,
        time_idle: text_at(&value, "fields", Some("time.idle"))?,
        span_id: value.get("span").and_then(|s| s.get("id")).and_then(Value::as_u64),
        span_name: text_at(&value, "span", Some("name"))?,
    })
}

fn line(text: &str) -> Line {
    Line { text: text.to_string(), parsed: fields_of(text) }
}

const CALC: &str = r#"{"timestamp":"2024-12-28T17:50:48.993552Z","level":"INFO","fields":{"message":"close","time.busy":"2.93ms","time.idle":"375ns"},"target":"iw::time","span":{"name":"calc_tics"},"spans":[{"id":0,"name":"frame"}]}"#;
const FRAME_3: &str = r#"{"timestamp":"2024-12-28T17:50:49.635111Z","level":"INFO","fields":{"message":"close","time.busy":"6.64ms","time.idle":"7.76ms"},"target":"iw::play","span":{"id":3,"name":"frame"},"spans":[]}"#;
const FRAME_4: &str = r#"{"fields":{"message":"close","time.busy":"1s","time.idle":"2µs"},"target":"iw::play","span":{"id":4,"name":"frame"}}"#;

#[test]
fn a_record_is_made_of_the_fields() {
    let decoded = decode_record("the line", raw("iw::time", "2.93ms", "375ns", None, "calc_tics"));
    assert_eq!(
        decoded,
        Ok(Trace {
            target: "iw::time".to_string(),
            fields: Fields {
                message: "close".to_string(),
                time_busy: 2_930_000,
                time_idle: 375,
            },
            span: Span { id: None, name: "calc_tics".to_string() },
        })
    );
    let frame = decode_record("l", raw("iw::play", "6.64ms", "7.76ms", Some(3), "frame"))
        .expect("both durations decode");
    assert_eq!(frame.span.id, Some(3));
    assert!(frame.is_frame());
    assert_eq!(frame.total_duration(), 14_400_000);
}

#[test]
fn a_bad_duration_reports_the_line() {
    assert_eq!(
        decode_record("the line", raw("t", "5xs", "1ms", None, "x")),
        Err(MalformedRecord {
            line: "the line".to_string(),
            cause: Cause::TimeBusy(DecodeError::TimeUnit),
        })
    );
    assert_eq!(
        decode_record("the line", raw("t", "1ms", "-5ms", None, "x")),
        Err(MalformedRecord {
            line: "the line".to_string(),
            cause: Cause::TimeIdle(DecodeError::NegativeNumber),
        })
    );
    assert_eq!(
        decode_record("both", raw("t", "", "oops", None, "x")),
        Err(MalformedRecord { line: "both".to_string(), cause: Cause::TimeBusy(DecodeError::Empty) })
    );
}

#[test]
fn assembling_looks_at_the_busy_time_first() {
    let overflow = Err(DecodeError::Overflow);
    let syntax = Err(DecodeError::Syntax);
    assert_eq!(
        assemble_record("l", raw("t", "", "", Some(1), "frame"), Ok(7), Ok(8)),
        Ok(Trace {
            target: "t".to_string(),
            fields: Fields { message: "close".to_string(), time_busy: 7, time_idle: 8 },
            span: Span { id: Some(1), name: "frame".to_string() },
        })
    );
    assert_eq!(
        assemble_record("l", raw("t", "", "", None, "x"), overflow, syntax),
        Err(MalformedRecord { line: "l".to_string(), cause: Cause::TimeBusy(DecodeError::Overflow) })
    );
    assert_eq!(
        assemble_record("l", raw("t", "", "", None, "x"), Ok(1), syntax),
        Err(MalformedRecord { line: "l".to_string(), cause: Cause::TimeIdle(DecodeError::Syntax) })
    );
}

#[test]
fn a_line_without_structure_reports_what_its_parser_said() {
    let broken = Line { text: "{oops".to_string(), parsed: Err("key must be a string".to_string()) };
    assert_eq!(
        decode_line(broken),
        Err(MalformedRecord {
            line: "{oops".to_string(),
            cause: Cause::Structure("key must be a string".to_string()),
        })
    );
    let decoded = decode_line(line(CALC)).expect("a record");
    assert_eq!(decoded.target, "iw::time");
    assert_eq!(decoded.fields.time_busy, 2_930_000);
}

#[test]
fn a_trace_of_four_lines_loads_to_two_frames() {
    let frames = read_trace_lines(vec![line(CALC), line(FRAME_3), line(CALC), line(FRAME_4)])
        .expect("every line is a record");
    assert_eq!(frames.len(), 2);
    assert_eq!(frames[0].trace.span.id, Some(3));
    assert_eq!(frames[0].child_traces.len(), 1);
    assert_eq!(frames[0].child_traces[0].target, "iw::time");
    assert_eq!(frames[0].child_traces[0].span.name, "calc_tics");
    assert_eq!(frames[1].trace.span.id, Some(4));
    assert_eq!(frames[1].trace.fields.time_busy, 1_000_000_000);
    assert_eq!(frames[1].trace.fields.time_idle, 2_000);
    assert_eq!(frames[1].child_traces.len(), 0);
}

#[test]
fn an_empty_trace_loads_to_no_frames() {
    assert_eq!(read_trace_lines(vec![]), Ok(vec![]));
    assert_eq!(read_trace_lines(vec![line(CALC), line(CALC)]), Ok(vec![]));
}

#[test]
fn the_first_bad_line_ends_the_load() {
    let bad_duration = FRAME_3.replace("6.64ms", "6.64parsecs");
    let missing = r#"{"target":"t","span":{"name":"frame"}}"#;
    let outcome =
        read_trace_lines(vec![line(FRAME_3), line(&bad_duration), line(missing), line("{")]);
    assert_eq!(
        outcome,
        Err(MalformedRecord {
            line: bad_duration.clone(),
            cause: Cause::TimeBusy(DecodeError::TimeUnit),
        })
    );
    let outcome = read_trace_lines(vec![line(FRAME_3), line(missing), line(&bad_duration)]);
    assert_eq!(
        outcome,
        Err(MalformedRecord {
            line: missing.to_string(),
            cause: Cause::Structure("missing field `fields`".to_string()),
        })
    );
}

#[test]
fn a_malformed_record_describes_itself() {
    let busy = MalformedRecord {
        line: "the line".to_string(),
        cause: Cause::TimeBusy(DecodeError::TimeUnit),
    };
    assert_eq!(busy.describe(), "time.busy: unknown or missing time unit: the line");
    let idle = MalformedRecord { line: "l".to_string(), cause: Cause::TimeIdle(DecodeError::Empty) };
    assert_eq!(idle.describe(), "time.idle: empty input: l");
    let structure =
        MalformedRecord { line: "{".to_string(), cause: Cause::Structure("EOF".to_string()) };
    assert_eq!(structure.describe(), "EOF: {");
    assert_eq!(Cause::Structure("said".to_string()).describe(), "said");
}
