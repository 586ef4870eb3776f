//! Diagnostic hook registry and per-render context.
//!
//! The crate provides the dispatch engine behind rich diagnostic output for
//! error chains: callers register per-type rendering hooks once, globally, and
//! at render time every node of a diagnostic chain is matched against the
//! registered hooks, which append lines to a shared body and appendix.

pub mod builtin;
pub mod context;
pub mod global;
pub mod keys;
pub mod registry;
pub mod text;
pub mod value;

pub use builtin::{backtrace_frame, backtrace_hook, frame_line_count, span_trace_frame, span_trace_hook};
pub use context::{CtxModel, HookContext};
pub use global::{GlobalHookState, HookAlreadySet, InstallState, StateModel};
pub use registry::{ActionModel, HookAction, Hooks, HooksModel};
pub use keys::{StoreKey, TypeKey, ValueTag};
pub use text::{i64_to_string, u64_to_string};
pub use value::{Frame, FrameModel, Value, ValueModel, value_tag, value_text};
