use error_stack::{
    Frame, GlobalHookState, HookAction, HookContext, TypeKey, Value,
};

fn trace_frame(key: TypeKey) -> Frame {
    Frame { key, value: Value::Trace { rendered: "tr".to_string(), frames: 1 } }
}

#[test]
fn install_builtin_hooks_is_idempotent() {
    let mut state: GlobalHookState<u32> = GlobalHookState::new();
    state.install_builtin_hooks();
    assert_eq!(state.hooks().len(), 2);
    state.install_builtin_hooks();
    assert_eq!(state.hooks().len(), 2);

    // The built-ins are present exactly once: one trace rendering each.
    let mut ctx = HookContext::new(false);
    state.hooks().call(&trace_frame(TypeKey::Backtrace), &mut ctx);
    assert_eq!(ctx.take_body(), vec!["backtrace with 1 frames (1)".to_string()]);
    state.hooks().call(&trace_frame(TypeKey::SpanTrace), &mut ctx);
    assert_eq!(ctx.take_body(), vec!["spantrace with 1 frames (1)".to_string()]);
}

#[test]
fn registration_installs_builtins_first() {
    let mut state: GlobalHookState<u32> = GlobalHookState::new();
    state.install_debug_hook(TypeKey::User(1), vec![HookAction::EmitBody("A".to_string())]);
    // Backtrace, span trace, and the explicit hook.
    assert_eq!(state.hooks().len(), 3);
    state.install_debug_hook(TypeKey::User(1), vec![HookAction::EmitBody("B".to_string())]);
    assert_eq!(state.hooks().len(), 3);

    let mut ctx = HookContext::new(false);
    state.hooks().call(
        &Frame { key: TypeKey::User(1), value: Value::Text("x".to_string()) },
        &mut ctx,
    );
    assert_eq!(ctx.take_body(), vec!["B".to_string()]);
}

#[test]
fn overwriting_a_builtin_keeps_a_single_entry() {
    let mut state: GlobalHookState<u32> = GlobalHookState::new();
    state.install_debug_hook(
        TypeKey::Backtrace,
        vec![HookAction::EmitBody("custom backtrace".to_string())],
    );
    assert_eq!(state.hooks().len(), 2);
    let mut ctx = HookContext::new(false);
    state.hooks().call(&trace_frame(TypeKey::Backtrace), &mut ctx);
    assert_eq!(ctx.take_body(), vec!["custom backtrace".to_string()]);
}

#[test]
fn fallback_registration_does_not_install_builtin_hooks() {
    let mut state: GlobalHookState<u32> = GlobalHookState::new();
    state.install_debug_hook_fallback(vec![HookAction::EmitBody("fb".to_string())]);
    assert_eq!(state.hooks().len(), 0);
    let mut ctx = HookContext::new(false);
    state.hooks().call(&trace_frame(TypeKey::Backtrace), &mut ctx);
    assert_eq!(ctx.take_body(), vec!["fb".to_string()]);
}

#[test]
fn override_slots_take_last_write_and_always_succeed() {
    let mut state: GlobalHookState<&'static str> = GlobalHookState::new();
    assert!(state.get_debug_hook().is_none());
    assert!(state.get_display_hook().is_none());
    assert!(state.set_debug_hook("first").is_ok());
    assert!(state.set_debug_hook("second").is_ok());
    assert_eq!(state.get_debug_hook(), Some(&"second"));
    assert!(state.get_display_hook().is_none());
    assert!(state.set_display_hook("shown").is_ok());
    assert_eq!(state.get_display_hook(), Some(&"shown"));
    assert_eq!(state.get_debug_hook(), Some(&"second"));
}

#[test]
fn hook_already_set_message() {
    let err = error_stack::HookAlreadySet;
    assert_eq!(err.message(), "Hook can only be set once".to_string());
}
