//! Decoding trace lines into records, and a whole trace into frames.
//!
//! A line arrives already taken apart into its fields; the two durations
//! are still tokens. Decoding a line runs both through the duration codec.
//! The first line that fails ends the load.

use crate::duration::{canonical, parse_duration, parsed_duration, DecodeError};
use crate::frames::{aggregate, aggregate_frames};
use crate::trace::{
    frame_views, trace_views, Fields, FieldsView, FrameTrace, FrameTraceView, Span, SpanView, Trace,
    TraceView,
};
use vstd::prelude::*;
use vstd::string::StringExecFns;

verus! {

/// The fields of a trace line, as text and numbers.
#[derive(Debug, PartialEq, Eq)]
pub struct RawTrace {
    pub target: String,
    pub message: String,
    /// The token of `time.busy`, such as `2.93ms`.
    pub time_busy: String,
    /// The token of `time.idle`, such as `375ns`.
    pub time_idle: String,
    pub span_id: Option<u64>,
    pub span_name: String,
}

/// Why a line is no record.
#[derive(Debug, PartialEq, Eq)]
pub enum Cause {
    /// The line is not a structured object with the fields of a record.
    /// Carries what its parser said.
    Structure(String),
    /// The token of `time.busy` is no duration.
    TimeBusy(DecodeError),
    /// The token of `time.idle` is no duration.
    TimeIdle(DecodeError),
}

/// A line that is no record, with the reason.
#[derive(Debug, PartialEq, Eq)]
pub struct MalformedRecord {
    pub line: String,
    pub cause: Cause,
}

/// A line of a trace file: its text, and what the parser of structured
/// objects made of it.
#[derive(Debug, PartialEq, Eq)]
pub struct Line {
    pub text: String,
    pub parsed: Result<RawTrace, String>,
}

/// Mathematical value of [`RawTrace`].
pub ghost struct RawTraceView {
    pub target: Seq<char>,
    pub message: Seq<char>,
    pub time_busy: Seq<char>,
    pub time_idle: Seq<char>,
    pub span_id: Option<u64>,
    pub span_name: Seq<char>,
}

/// Mathematical value of [`Cause`].
pub ghost enum CauseView {
    Structure(Seq<char>),
    TimeBusy(DecodeError),
    TimeIdle(DecodeError),
}

/// Mathematical value of [`MalformedRecord`].
pub ghost struct MalformedRecordView {
    pub line: Seq<char>,
    pub cause: CauseView,
}

/// Mathematical value of [`Line`].
pub ghost struct LineView {
    pub text: Seq<char>,
    pub parsed: Result<RawTraceView, Seq<char>>,
}

impl View for RawTrace {
    type V = RawTraceView;

    open spec fn view(&self) -> RawTraceView {
        RawTraceView {
            target: self.target@,
            message: self.message@,
            time_busy: self.time_busy@,
            time_idle: self.time_idle@,
            span_id: self.span_id,
            span_name: self.span_name@,
        }
    }
}

impl View for Cause {
    type V = CauseView;

    open spec fn view(&self) -> CauseView {
        match self {
            Cause::Structure(said) => CauseView::Structure(said@),
            Cause::TimeBusy(error) => CauseView::TimeBusy(*error),
            Cause::TimeIdle(error) => CauseView::TimeIdle(*error),
        }
    }
}

impl View for MalformedRecord {
    type V = MalformedRecordView;

    open spec fn view(&self) -> MalformedRecordView {
        MalformedRecordView { line: self.line@, cause: self.cause@ }
    }
}

impl View for Line {
    type V = LineView;

    open spec fn view(&self) -> LineView {
        LineView {
            text: self.text@,
            parsed: match self.parsed {
                Ok(raw) => Ok(raw@),
                Err(said) => Err(said@),
            },
        }
    }
}

/// The values of a sequence of lines, in order.
pub open spec fn line_views(lines: Seq<Line>) -> Seq<LineView> {
    lines.map_values(|l: Line| l@)
}

/// The value of a decoding outcome.
pub open spec fn outcome_view(outcome: Result<Trace, MalformedRecord>) -> Result<
    TraceView,
    MalformedRecordView,
> {
    match outcome {
        Ok(trace) => Ok(trace@),
        Err(error) => Err(error@),
    }
}

/// The value of a loading outcome.
pub open spec fn load_view(outcome: Result<Vec<FrameTrace>, MalformedRecord>) -> Result<
    Seq<FrameTraceView>,
    MalformedRecordView,
> {
    match outcome {
        Ok(frames) => Ok(frame_views(frames@)),
        Err(error) => Err(error@),
    }
}

impl CauseView {
    /// What the cause says, in words.
    pub open spec fn description(self) -> Seq<char> {
        match self {
            CauseView::Structure(said) => said,
            CauseView::TimeBusy(error) => "time.busy: "@ + error.description(),
            CauseView::TimeIdle(error) => "time.idle: "@ + error.description(),
        }
    }
}

impl MalformedRecordView {
    /// The report of the line: the cause, then the line itself.
    pub open spec fn description(self) -> Seq<char> {
        self.cause.description() + ": "@ + self.line
    }
}

impl Cause {
    /// What the cause says, in words.
    pub fn describe(&self) -> (text: String)
        ensures
            text@ == self@.description(),
    {
        match self {
            Cause::Structure(said) => said.clone(),
            Cause::TimeBusy(error) => String::from_str("time.busy: ").concat(error.describe()),
            Cause::TimeIdle(error) => String::from_str("time.idle: ").concat(error.describe()),
        }
    }
}

impl MalformedRecord {
    /// The report of the line for the operator: the cause, then the line
    /// itself.
    pub fn describe(&self) -> (text: String)
        ensures
            text@ == self@.description(),
    {
        self.cause.describe().concat(": ").concat(self.line.as_str())
    }
}

/// The record that the fields of a line make, given what the duration codec
/// made of its two tokens. The busy time is looked at first.
pub open spec fn assembled(
    line: Seq<char>,
    raw: RawTraceView,
    busy: Result<u64, DecodeError>,
    idle: Result<u64, DecodeError>,
) -> Result<TraceView, MalformedRecordView> {
    match (busy, idle) {
        (Err(error), _) => Err(MalformedRecordView { line, cause: CauseView::TimeBusy(error) }),
        (Ok(_), Err(error)) => Err(MalformedRecordView { line, cause: CauseView::TimeIdle(error) }),
        (Ok(time_busy), Ok(time_idle)) => Ok(
            TraceView {
                target: raw.target,
                fields: FieldsView {
                    message: raw.message,
                    time_busy: time_busy as nat,
                    time_idle: time_idle as nat,
                },
                span: SpanView { id: raw.span_id, name: raw.span_name },
            },
        ),
    }
}

/// The record that the fields of a line decode to.
pub open spec fn decoded(line: Seq<char>, raw: RawTraceView) -> Result<
    TraceView,
    MalformedRecordView,
> {
    assembled(
        line,
        raw,
        canonical(raw.time_busy, parsed_duration(raw.time_busy)),
        canonical(raw.time_idle, parsed_duration(raw.time_idle)),
    )
}

/// The record that a line decodes to.
pub open spec fn decoded_line(line: LineView) -> Result<TraceView, MalformedRecordView> {
    match line.parsed {
        Ok(raw) => decoded(line.text, raw),
        Err(said) => Err(MalformedRecordView { line: line.text, cause: CauseView::Structure(said) }),
    }
}

/// The records that the lines of a trace decode to, or the error of the
/// first line that is no record.
pub open spec fn decoded_lines(lines: Seq<LineView>) -> Result<Seq<TraceView>, MalformedRecordView>
    decreases lines.len(),
{
    if lines.len() == 0 {
        Ok(Seq::empty())
    } else {
        match decoded_line(lines[0]) {
            Err(error) => Err(error),
            Ok(record) => match decoded_lines(lines.skip(1)) {
                Err(error) => Err(error),
                Ok(records) => Ok(seq![record] + records),
            },
        }
    }
}

/// The frames that the lines of a trace load to, or the error of the first
/// line that is no record.
pub open spec fn loaded(lines: Seq<LineView>) -> Result<Seq<FrameTraceView>, MalformedRecordView> {
    match decoded_lines(lines) {
        Ok(records) => Ok(aggregate(records)),
        Err(error) => Err(error),
    }
}

/// Makes a record of the fields of a line and its two decoded durations,
/// or reports the line with the duration that failed.
pub fn assemble_record(
    line: &str,
    raw: RawTrace,
    busy: Result<u64, DecodeError>,
    idle: Result<u64, DecodeError>,
) -> (outcome: Result<Trace, MalformedRecord>)
    ensures
        outcome_view(outcome) == assembled(line@, raw@, busy, idle),
{
    let time_busy = match busy {
        Ok(nanos) => nanos,
        Err(error) => {
            return Err(
                MalformedRecord { line: String::from_str(line), cause: Cause::TimeBusy(error) },
            );
        },
    };
    let time_idle = match idle {
        Ok(nanos) => nanos,
        Err(error) => {
            return Err(
                MalformedRecord { line: String::from_str(line), cause: Cause::TimeIdle(error) },
            );
        },
    };
    Ok(
        Trace {
            target: raw.target,
            fields: Fields { message: raw.message, time_busy, time_idle },
            span: Span { id: raw.span_id, name: raw.span_name },
        },
    )
}

/// Decodes the fields of a line into a record. Both duration tokens go
/// through the duration codec; where one fails, the line is reported with
/// the failure.
pub fn decode_record(line: &str, raw: RawTrace) -> (outcome: Result<Trace, MalformedRecord>)
    ensures
        outcome_view(outcome) == decoded(line@, raw@),
{
    let busy = parse_duration(raw.time_busy.as_str());
    let idle = parse_duration(raw.time_idle.as_str());
    assemble_record(line, raw, busy, idle)
}

/// Decodes one line of a trace.
pub fn decode_line(line: Line) -> (outcome: Result<Trace, MalformedRecord>)
    ensures
        outcome_view(outcome) == decoded_line(line@),
{
    match line.parsed {
        Ok(raw) => decode_record(line.text.as_str(), raw),
        Err(said) => Err(MalformedRecord { line: line.text, cause: Cause::Structure(said) }),
    }
}

/// Loads a trace: decodes its lines in order and groups the records into
/// frames. The first line that is no record ends the load with its error.
pub fn read_trace_lines(lines: Vec<Line>) -> (outcome: Result<Vec<FrameTrace>, MalformedRecord>)
    ensures
        load_view(outcome) == loaded(line_views(lines@)),
{
    let ghost all = line_views(lines@);
    let mut records: Vec<Trace> = Vec::new();
    proof {
        assert(all.skip(0) =~= all);
        assert(trace_views(records@) =~= Seq::<TraceView>::empty());
    }
    for line in it: lines
        invariant
            all == line_views(lines@),
            it.seq() == lines@,
            decoded_lines(all) == match decoded_lines(all.skip(it.index() as int)) {
                Ok(rest) => Ok(trace_views(records@) + rest),
                Err(error) => Err(error),
            },
    {
        proof {
            let tail = all.skip(it.index() as int);
            assert(tail[0] == line@);
            assert(tail.skip(1) =~= all.skip(it.index() + 1));
        }
        match decode_line(line) {
            Ok(record) => {
                proof {
                    let rest = decoded_lines(all.skip(it.index() + 1));
                    if rest is Ok {
                        assert(trace_views(records@.push(record)) + rest->Ok_0 =~= trace_views(
                            records@,
                        ) + (seq![record@] + rest->Ok_0));
                    }
                }
                records.push(record);
            },
            Err(error) => {
                return Err(error);
            },
        }
    }
    proof {
        assert(all.skip(all.len() as int) =~= Seq::<LineView>::empty());
        assert(trace_views(records@) + Seq::<TraceView>::empty() =~= trace_views(records@));
    }
    Ok(aggregate_frames(records))
}

} // verus!
