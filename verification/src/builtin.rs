//! The built-in trace hooks and the captures they render.
//!
//! Two attachment kinds ship with the library: a captured stack backtrace and
//! a captured span trace. Capturing is the outside world's work — the span
//! trace comes from the `tracing_error` crate, the backtrace from the
//! standard library — so those calls stand behind trusted wrappers that hand
//! back plain text. Everything downstream of the capture, the counting of
//! frame lines and the numbered rendering of the trace, is verified.

use vstd::prelude::*;
use vstd::string::*;

use crate::keys::TypeKey;
use crate::registry::{ActionModel, HookAction};
use crate::value::{Frame, Value, ValueModel};

verus! {

/// `tracing_error::SpanTrace`, declared so captured span traces can pass
/// through signatures.
#[verifier::external_type_specification]
#[verifier::external_body]
pub struct ExSpanTrace(tracing_error::SpanTrace);

/// `std::backtrace::Backtrace`, declared likewise.
#[verifier::external_type_specification]
#[verifier::external_body]
pub struct ExBacktrace(std::backtrace::Backtrace);

/// Relies on `tracing_error::SpanTrace::capture`: returns the trace of the
/// spans entered on the current thread, as the current subscriber recorded
/// them. Nothing can be promised of it; the result depends on the running
/// subscriber.
#[verifier::external_body]
fn capture_span_trace() -> tracing_error::SpanTrace {
    tracing_error::SpanTrace::capture()
}

/// Relies on the `Display` impl of `tracing_error::SpanTrace`: renders one
/// captured span per entry, innermost first.
#[verifier::external_body]
fn render_span_trace(st: &tracing_error::SpanTrace) -> String {
    format!("{st}")
}

/// A saturating increment, used to count the spans that the trace yields.
fn count_step(n: usize) -> (r: usize)
    ensures
        r == if n < usize::MAX {
            n + 1
        } else {
            n as int
        },
{
    if n < usize::MAX {
        n + 1
    } else {
        n
    }
}

/// Relies on `tracing_error::SpanTrace::with_spans`: calls the closure once
/// per captured span, so the count below is the number of spans in the trace.
#[verifier::external_body]
fn span_trace_span_count(st: &tracing_error::SpanTrace) -> usize {
    let mut n: usize = 0;
    st.with_spans(|_, _| {
        n = count_step(n);
        true
    });
    n
}

/// Relies on `std::backtrace::Backtrace::force_capture`: captures the current
/// thread's stack regardless of environment settings.
#[verifier::external_body]
fn capture_backtrace() -> std::backtrace::Backtrace {
    std::backtrace::Backtrace::force_capture()
}

/// Relies on the `Display` impl of `std::backtrace::Backtrace`: renders
/// numbered frame lines, with location lines indented beneath them.
#[verifier::external_body]
fn render_backtrace(bt: &std::backtrace::Backtrace) -> String {
    format!("{bt}")
}

/// Whether `c` is a decimal digit.
pub open spec fn is_digit(c: char) -> bool {
    c == '0' || c == '1' || c == '2' || c == '3' || c == '4' || c == '5' || c == '6' || c == '7'
        || c == '8' || c == '9'
}

/// Whether `c` is a decimal digit.
pub fn is_digit_char(c: char) -> (r: bool)
    ensures
        r == is_digit(c),
{
    c == '0' || c == '1' || c == '2' || c == '3' || c == '4' || c == '5' || c == '6' || c == '7'
        || c == '8' || c == '9'
}

/// The scan state after the first `n` characters: how many frame lines were
/// seen, and whether the current line's first non-space character has already
/// passed.
pub open spec fn frame_scan(s: Seq<char>, n: int) -> (nat, bool)
    decreases n,
{
    if n <= 0 {
        (0nat, false)
    } else {
        let prev = frame_scan(s, n - 1);
        let c = s[n - 1];
        if c == '\n' {
            (prev.0, false)
        } else if !prev.1 && c != ' ' {
            ((prev.0 + if is_digit(c) {
                1nat
            } else {
                0nat
            }) as nat, true)
        } else {
            prev
        }
    }
}

/// How many lines of `s` are frame lines: lines whose first character other
/// than a space is a decimal digit, the shape in which a rendered backtrace
/// lists its numbered frames.
pub open spec fn frame_line_count_spec(s: Seq<char>) -> nat {
    frame_scan(s, s.len() as int).0
}

/// Counts the frame lines of a rendered trace.
pub fn frame_line_count(s: &str) -> (n: usize)
    ensures
        n as nat == frame_line_count_spec(s@),
{
    let len = s.unicode_len();
    let mut count: usize = 0;
    let mut seen = false;
    let mut i: usize = 0;
    while i < len
        invariant
            len == s@.len(),
            i <= len,
            count <= i,
            (count as nat, seen) == frame_scan(s@, i as int),
        decreases len - i,
    {
        let c = s.get_char(i);
        if c == '\n' {
            seen = false;
        } else if !seen && c != ' ' {
            seen = true;
            if is_digit_char(c) {
                count += 1;
            }
        }
        i += 1;
    }
    count
}

/// The behaviour of the built-in backtrace hook: one numbered trace
/// rendering.
pub open spec fn backtrace_hook_spec() -> Seq<ActionModel> {
    seq![ActionModel::EmitTrace { heading: "Backtrace"@, summary: "backtrace"@ }]
}

/// The built-in backtrace hook behaviour.
pub fn backtrace_hook() -> (h: Vec<HookAction>)
    ensures
        h.deep_view() == backtrace_hook_spec(),
{
    let mut v: Vec<HookAction> = Vec::new();
    v.push(
        HookAction::EmitTrace {
            heading: String::from_str("Backtrace"),
            summary: String::from_str("backtrace"),
        },
    );
    proof {
        assert(v.deep_view() =~= backtrace_hook_spec());
    }
    v
}

/// The behaviour of the built-in span-trace hook: one numbered trace
/// rendering.
pub open spec fn span_trace_hook_spec() -> Seq<ActionModel> {
    seq![ActionModel::EmitTrace { heading: "Span Trace"@, summary: "spantrace"@ }]
}

/// The built-in span-trace hook behaviour.
pub fn span_trace_hook() -> (h: Vec<HookAction>)
    ensures
        h.deep_view() == span_trace_hook_spec(),
{
    let mut v: Vec<HookAction> = Vec::new();
    v.push(
        HookAction::EmitTrace {
            heading: String::from_str("Span Trace"),
            summary: String::from_str("spantrace"),
        },
    );
    proof {
        assert(v.deep_view() =~= span_trace_hook_spec());
    }
    v
}

/// Captures the current span trace and packages it as a chain frame carrying
/// the rendered text and the span count, under the span-trace key. What the
/// capture holds depends on the running subscriber; the frame's shape does
/// not.
pub fn span_trace_frame() -> (f: Frame)
    ensures
        f@.key == TypeKey::SpanTrace,
        f@.value is Trace,
{
    let st = capture_span_trace();
    let rendered = render_span_trace(&st);
    let spans = span_trace_span_count(&st);
    Frame { key: TypeKey::SpanTrace, value: Value::Trace { rendered, frames: spans as u64 } }
}

/// Captures the current stack backtrace and packages it as a chain frame
/// under the backtrace key. The frame count is exactly the number of frame
/// lines in the rendered text.
pub fn backtrace_frame() -> (f: Frame)
    ensures
        f@.key == TypeKey::Backtrace,
        f@.value matches ValueModel::Trace { rendered, frames } && frames as nat
            == frame_line_count_spec(rendered),
{
    let bt = capture_backtrace();
    let rendered = render_backtrace(&bt);
    let n = frame_line_count(rendered.as_str());
    Frame { key: TypeKey::Backtrace, value: Value::Trace { rendered, frames: n as u64 } }
}

} // verus!
