use error_stack::{
    backtrace_frame, frame_line_count, i64_to_string, span_trace_frame, u64_to_string,
    GlobalHookState, HookContext, TypeKey, Value,
};

#[test]
fn decimal_rendering_is_exact() {
    assert_eq!(u64_to_string(0), "0".to_string());
    assert_eq!(u64_to_string(9), "9".to_string());
    assert_eq!(u64_to_string(10), "10".to_string());
    assert_eq!(u64_to_string(305), "305".to_string());
    assert_eq!(u64_to_string(u64::MAX), "18446744073709551615".to_string());
    assert_eq!(i64_to_string(0), "0".to_string());
    assert_eq!(i64_to_string(42), "42".to_string());
    assert_eq!(i64_to_string(-1), "-1".to_string());
    assert_eq!(i64_to_string(-305), "-305".to_string());
    assert_eq!(i64_to_string(i64::MIN), "-9223372036854775808".to_string());
    assert_eq!(i64_to_string(i64::MAX), "9223372036854775807".to_string());
}

#[test]
fn frame_line_count_counts_numbered_lines() {
    assert_eq!(frame_line_count(""), 0);
    assert_eq!(frame_line_count("disabled backtrace"), 0);
    assert_eq!(frame_line_count("   0: main"), 1);
    assert_eq!(
        frame_line_count("   0: alpha\n             at src/a.rs:1:5\n   1: beta\n"),
        2
    );
    assert_eq!(frame_line_count("no\nframes\nhere"), 0);
    assert_eq!(frame_line_count("7teen\n  8 ball"), 2);
    assert_eq!(frame_line_count("\n\n  1: one\n"), 1);
}

#[test]
fn backtrace_frame_counts_its_own_rendering() {
    let frame = backtrace_frame();
    assert_eq!(frame.key, TypeKey::Backtrace);
    match &frame.value {
        Value::Trace { rendered, frames } => {
            assert_eq!(*frames, frame_line_count(rendered) as u64);
            // A force-captured backtrace in a test binary has frames.
            assert!(*frames > 0);
        }
        other => panic!("expected a trace attachment, got {other:?}"),
    }
}

#[test]
fn span_trace_frame_has_the_span_trace_key() {
    let frame = span_trace_frame();
    assert_eq!(frame.key, TypeKey::SpanTrace);
    match &frame.value {
        Value::Trace { rendered, frames } => {
            // Without a subscriber that records spans, the capture is empty.
            assert_eq!(*frames, 0);
            assert_eq!(rendered, &String::new());
        }
        other => panic!("expected a trace attachment, got {other:?}"),
    }
}

#[test]
fn captured_backtrace_renders_through_the_builtin_hook() {
    let mut state: GlobalHookState<u32> = GlobalHookState::new();
    state.install_builtin_hooks();
    let frame = backtrace_frame();
    let n = match &frame.value {
        Value::Trace { frames, .. } => *frames,
        _ => panic!("expected a trace attachment"),
    };
    let mut ctx = HookContext::new(false);
    state.hooks().call(&frame, &mut ctx);
    let body = ctx.take_body();
    assert_eq!(
        body,
        vec![format!("backtrace with {} frames (1)", u64_to_string(n))]
    );
    let appendix = ctx.into_appendix();
    assert_eq!(appendix.len(), 1);
    assert!(appendix[0].starts_with("Backtrace No. 1\n"));
}

#[test]
fn captured_span_trace_renders_through_the_builtin_hook() {
    let mut state: GlobalHookState<u32> = GlobalHookState::new();
    state.install_builtin_hooks();
    let frame = span_trace_frame();
    let mut ctx = HookContext::new(false);
    state.hooks().call(&frame, &mut ctx);
    assert_eq!(ctx.take_body(), vec!["spantrace with 0 frames (1)".to_string()]);
    assert_eq!(ctx.into_appendix(), vec!["Span Trace No. 1\n".to_string()]);
}
