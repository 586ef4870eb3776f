use error_stack::{Frame, HookAction, HookContext, Hooks, TypeKey, Value};

fn text_frame(key: TypeKey, text: &str) -> Frame {
    Frame { key, value: Value::Text(text.to_string()) }
}

#[test]
fn matching_hook_runs_and_fallback_stays_silent() {
    let mut hooks = Hooks::new();
    hooks.insert(TypeKey::User(1), vec![HookAction::EmitBody("A".to_string())]);
    hooks.fallback(vec![HookAction::EmitBody("fallback".to_string())]);

    let mut ctx = HookContext::new(false);
    hooks.call(&text_frame(TypeKey::User(1), "attach"), &mut ctx);
    assert_eq!(ctx.take_body(), vec!["A".to_string()]);
}

#[test]
fn unmatched_frame_falls_back() {
    let mut hooks = Hooks::new();
    hooks.insert(TypeKey::User(1), vec![HookAction::EmitBody("A".to_string())]);
    hooks.fallback(vec![HookAction::EmitBody("fallback".to_string())]);

    let mut ctx = HookContext::new(false);
    hooks.call(&text_frame(TypeKey::User(2), "attach"), &mut ctx);
    assert_eq!(ctx.take_body(), vec!["fallback".to_string()]);
}

#[test]
fn silent_match_still_suppresses_fallback() {
    let mut hooks = Hooks::new();
    hooks.insert(TypeKey::User(1), vec![HookAction::EmitBody("A".to_string())]);
    hooks.insert(TypeKey::User(3), vec![]);
    hooks.fallback(vec![HookAction::EmitBody("fallback".to_string())]);

    let mut ctx = HookContext::new(false);
    hooks.call(&text_frame(TypeKey::User(3), "attach"), &mut ctx);
    assert_eq!(ctx.take_body(), Vec::<String>::new());
}

#[test]
fn no_fallback_set_means_no_output() {
    let hooks = Hooks::new();
    let mut ctx = HookContext::new(false);
    hooks.call(&text_frame(TypeKey::User(9), "attach"), &mut ctx);
    assert_eq!(ctx.take_body(), Vec::<String>::new());
}

#[test]
fn reinsert_replaces_hook_and_keeps_one_entry() {
    let mut hooks = Hooks::new();
    hooks.insert(TypeKey::User(1), vec![HookAction::EmitBody("first".to_string())]);
    hooks.insert(TypeKey::User(2), vec![HookAction::EmitBody("other".to_string())]);
    assert_eq!(hooks.len(), 2);
    hooks.insert(TypeKey::User(1), vec![HookAction::EmitBody("second".to_string())]);
    assert_eq!(hooks.len(), 2);

    let mut ctx = HookContext::new(false);
    hooks.call(&text_frame(TypeKey::User(1), "attach"), &mut ctx);
    assert_eq!(ctx.take_body(), vec!["second".to_string()]);
}

#[test]
fn replacing_fallback_keeps_last() {
    let mut hooks = Hooks::new();
    hooks.fallback(vec![HookAction::EmitBody("old".to_string())]);
    hooks.fallback(vec![HookAction::EmitBody("new".to_string())]);
    let mut ctx = HookContext::new(false);
    hooks.call(&text_frame(TypeKey::User(1), "attach"), &mut ctx);
    assert_eq!(ctx.take_body(), vec!["new".to_string()]);
}

#[test]
fn emit_attachment_renders_each_value_shape() {
    let mut hooks = Hooks::new();
    hooks.insert(TypeKey::User(1), vec![HookAction::EmitAttachment]);

    let cases: Vec<(Value, &str)> = vec![
        (Value::Int(-5), "-5"),
        (Value::Int(0), "0"),
        (Value::Int(1234567890123), "1234567890123"),
        (Value::Nat(7), "7"),
        (Value::Nat(18446744073709551615), "18446744073709551615"),
        (Value::Flag(true), "true"),
        (Value::Flag(false), "false"),
        (Value::Text("hello".to_string()), "hello"),
        (Value::Trace { rendered: "tr".to_string(), frames: 3 }, "tr"),
    ];
    for (value, expected) in cases {
        let mut ctx = HookContext::new(false);
        hooks.call(&Frame { key: TypeKey::User(1), value }, &mut ctx);
        assert_eq!(ctx.take_body(), vec![expected.to_string()]);
    }
}

#[test]
fn emit_indexed_numbers_each_invocation() {
    let mut hooks = Hooks::new();
    hooks.insert(
        TypeKey::User(1),
        vec![HookAction::EmitIndexed("Suggestion ".to_string())],
    );
    let mut ctx = HookContext::new(false);
    hooks.call(&text_frame(TypeKey::User(1), "a"), &mut ctx);
    hooks.call(&text_frame(TypeKey::User(1), "b"), &mut ctx);
    let body = ctx.take_body();
    assert_eq!(body, vec!["Suggestion 0".to_string(), "Suggestion 1".to_string()]);
}

#[test]
fn emit_indexed_renders_negative_counters() {
    let mut hooks = Hooks::new();
    hooks.insert(TypeKey::User(1), vec![HookAction::EmitIndexed("idx ".to_string())]);
    let mut ctx = HookContext::new(false);
    // Pre-seed the hook's counter partition below zero.
    ctx.cast(TypeKey::User(1));
    assert_eq!(ctx.decrement_counter(), -1);
    assert_eq!(ctx.decrement_counter(), -2);
    assert_eq!(ctx.decrement_counter(), -3);
    ctx.cast(TypeKey::Frame);
    hooks.call(&text_frame(TypeKey::User(1), "a"), &mut ctx);
    assert_eq!(ctx.take_body(), vec!["idx -2".to_string()]);
}

#[test]
fn emit_trace_formats_appendix_and_body() {
    let mut hooks = Hooks::new();
    hooks.insert(
        TypeKey::Backtrace,
        vec![HookAction::EmitTrace {
            heading: "Backtrace".to_string(),
            summary: "backtrace".to_string(),
        }],
    );
    let mut ctx = HookContext::new(false);
    let frame = Frame {
        key: TypeKey::Backtrace,
        value: Value::Trace { rendered: "0: main".to_string(), frames: 2 },
    };
    hooks.call(&frame, &mut ctx);
    assert_eq!(ctx.take_body(), vec!["backtrace with 2 frames (1)".to_string()]);
    hooks.call(&frame, &mut ctx);
    assert_eq!(ctx.take_body(), vec!["backtrace with 2 frames (2)".to_string()]);
    assert_eq!(
        ctx.into_appendix(),
        vec![
            "Backtrace No. 1\n0: main".to_string(),
            "Backtrace No. 2\n0: main".to_string(),
        ]
    );
}

#[test]
fn emit_trace_ignores_non_trace_attachments() {
    let mut hooks = Hooks::new();
    hooks.insert(
        TypeKey::User(1),
        vec![HookAction::EmitTrace {
            heading: "Backtrace".to_string(),
            summary: "backtrace".to_string(),
        }],
    );
    hooks.fallback(vec![HookAction::EmitBody("fallback".to_string())]);
    let mut ctx = HookContext::new(false);
    hooks.call(&text_frame(TypeKey::User(1), "not a trace"), &mut ctx);
    // The hook matched (so no fallback) but emitted nothing.
    assert_eq!(ctx.take_body(), Vec::<String>::new());
    assert_eq!(ctx.into_appendix(), Vec::<String>::new());
}

#[test]
fn hook_owner_partition_is_its_own_key() {
    // Two hooks for different keys keep independent counters.
    let mut hooks = Hooks::new();
    hooks.insert(TypeKey::User(1), vec![HookAction::EmitIndexed("a".to_string())]);
    hooks.insert(TypeKey::User(2), vec![HookAction::EmitIndexed("b".to_string())]);
    let mut ctx = HookContext::new(false);
    hooks.call(&text_frame(TypeKey::User(1), "x"), &mut ctx);
    hooks.call(&text_frame(TypeKey::User(2), "x"), &mut ctx);
    hooks.call(&text_frame(TypeKey::User(1), "x"), &mut ctx);
    assert_eq!(
        ctx.take_body(),
        vec!["a0".to_string(), "b0".to_string(), "a1".to_string()]
    );
}

#[test]
fn render_chain_drains_body_per_node_and_keeps_appendix() {
    let mut hooks = Hooks::new();
    hooks.insert(
        TypeKey::User(1),
        vec![
            HookAction::EmitIndexed("entry ".to_string()),
            HookAction::EmitAppendix("extra".to_string()),
        ],
    );
    hooks.fallback(vec![HookAction::EmitBody("fallback".to_string())]);
    let frames = vec![
        text_frame(TypeKey::User(1), "a"),
        text_frame(TypeKey::User(7), "b"),
        text_frame(TypeKey::User(1), "c"),
    ];
    let (bodies, appendix) = hooks.render_chain(&frames, false);
    assert_eq!(
        bodies,
        vec![
            vec!["entry 0".to_string()],
            vec!["fallback".to_string()],
            vec!["entry 1".to_string()],
        ]
    );
    assert_eq!(appendix, vec!["extra".to_string(), "extra".to_string()]);
}
