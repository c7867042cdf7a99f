//! The data model: timing records and the frames they are grouped into.

use vstd::prelude::*;

verus! {

/// The timing payload of a record. Durations are whole nanoseconds.
#[derive(Debug, PartialEq, Eq)]
pub struct Fields {
    pub message: String,
    pub time_busy: u64,
    pub time_idle: u64,
}

/// The span a record was emitted for.
#[derive(Debug, PartialEq, Eq)]
pub struct Span {
    pub id: Option<u64>,
    pub name: String,
}

/// One decoded trace line.
#[derive(Debug, PartialEq, Eq)]
pub struct Trace {
    pub target: String,
    pub fields: Fields,
    pub span: Span,
}

/// A frame record together with the records emitted while the frame was open.
#[derive(Debug, PartialEq, Eq)]
pub struct FrameTrace {
    pub trace: Trace,
    pub child_traces: Vec<Trace>,
}

/// Mathematical value of [`Fields`].
pub ghost struct FieldsView {
    pub message: Seq<char>,
    pub time_busy: nat,
    pub time_idle: nat,
}

/// Mathematical value of [`Span`].
pub ghost struct SpanView {
    pub id: Option<u64>,
    pub name: Seq<char>,
}

/// Mathematical value of [`Trace`].
pub ghost struct TraceView {
    pub target: Seq<char>,
    pub fields: FieldsView,
    pub span: SpanView,
}

/// Mathematical value of [`FrameTrace`].
pub ghost struct FrameTraceView {
    pub trace: TraceView,
    pub child_traces: Seq<TraceView>,
}

impl View for Fields {
    type V = FieldsView;

    open spec fn view(&self) -> FieldsView {
        FieldsView {
            message: self.message@,
            time_busy: self.time_busy as nat,
            time_idle: self.time_idle as nat,
        }
    }
}

impl View for Span {
    type V = SpanView;

    open spec fn view(&self) -> SpanView {
        SpanView { id: self.id, name: self.name@ }
    }
}

impl View for Trace {
    type V = TraceView;

    open spec fn view(&self) -> TraceView {
        TraceView { target: self.target@, fields: self.fields@, span: self.span@ }
    }
}

impl View for FrameTrace {
    type V = FrameTraceView;

    open spec fn view(&self) -> FrameTraceView {
        FrameTraceView { trace: self.trace@, child_traces: trace_views(self.child_traces@) }
    }
}

/// The values of a sequence of records, in order.
pub open spec fn trace_views(traces: Seq<Trace>) -> Seq<TraceView> {
    traces.map_values(|t: Trace| t@)
}

/// The values of a sequence of frames, in order.
pub open spec fn frame_views(frames: Seq<FrameTrace>) -> Seq<FrameTraceView> {
    frames.map_values(|f: FrameTrace| f@)
}

/// The name of the span that opens a frame.
pub open spec fn frame_span_name() -> Seq<char> {
    seq!['f', 'r', 'a', 'm', 'e']
}

impl TraceView {
    /// Busy time plus idle time, in nanoseconds.
    pub open spec fn total_duration(self) -> nat {
        self.fields.time_busy + self.fields.time_idle
    }

    /// Whether this record opens a frame.
    pub open spec fn is_frame(self) -> bool {
        self.span.name == frame_span_name()
    }
}

impl Clone for Fields {
    /// An independent copy with the same value.
    fn clone(&self) -> (copy: Fields)
        ensures
            copy@ == self@,
    {
        Fields {
            message: self.message.clone(),
            time_busy: self.time_busy,
            time_idle: self.time_idle,
        }
    }
}

impl Clone for Span {
    /// An independent copy with the same value.
    fn clone(&self) -> (copy: Span)
        ensures
            copy@ == self@,
    {
        Span { id: self.id, name: self.name.clone() }
    }
}

impl Trace {
    /// Busy time plus idle time, in nanoseconds. The sum of two `u64` values
    /// always fits the result.
    pub fn total_duration(&self) -> (total: u128)
        ensures
            total == self@.total_duration(),
    {
        self.fields.time_busy as u128 + self.fields.time_idle as u128
    }

    /// Whether this record opens a frame: its span is named `frame`.
    pub fn is_frame(&self) -> (b: bool)
        ensures
            b == self@.is_frame(),
    {
        let name = self.span.name.as_str();
        if name.unicode_len() != 5 {
            return false;
        }
        let same = name.get_char(0) == 'f' && name.get_char(1) == 'r' && name.get_char(2) == 'a'
            && name.get_char(3) == 'm' && name.get_char(4) == 'e';
        assert(same ==> name@ =~= frame_span_name());
        same
    }
}

impl Clone for Trace {
    /// An independent copy with the same value.
    fn clone(&self) -> (copy: Trace)
        ensures
            copy@ == self@,
    {
        Trace {
            target: self.target.clone(),
            fields: self.fields.clone(),
            span: self.span.clone(),
        }
    }
}

/// An independent copy of a list of records, with the same values in the
/// same order.
pub fn clone_traces(traces: &Vec<Trace>) -> (copy: Vec<Trace>)
    ensures
        trace_views(copy@) == trace_views(traces@),
{
    let mut copy: Vec<Trace> = Vec::new();
    let mut i: usize = 0;
    while i < traces.len()
        invariant
            i <= traces.len(),
            copy.len() == i,
            forall|k: int| 0 <= k < i ==> copy@[k]@ == traces@[k]@,
        decreases traces.len() - i,
    {
        copy.push(traces[i].clone());
        i += 1;
    }
    assert(trace_views(copy@) =~= trace_views(traces@));
    copy
}

impl Clone for FrameTrace {
    /// An independent copy with the same value.
    fn clone(&self) -> (copy: FrameTrace)
        ensures
            copy@ == self@,
    {
        FrameTrace { trace: self.trace.clone(), child_traces: clone_traces(&self.child_traces) }
    }
}

} // verus!
