//! The process-wide hook state and the one-time built-in installation.
//!
//! One value of [`GlobalHookState`] lives for the whole process, guarded by a
//! reader/writer lock owned by the embedding program: registrations go
//! through the exclusive path as `&mut self` calls, dispatch reads the
//! registry through [`GlobalHookState::hooks`] under the shared path. The
//! state owns the hook registry, the two whole-output override slots, and the
//! guard that installs the built-in hooks exactly once.
//!
//! Installation is reentrant by design: registering a hook first installs the
//! built-ins, and installing the built-ins registers them through that same
//! registration call — so the guard is a three-state flag, and a call that
//! observes an installation already running, or already done, returns at once
//! instead of recursing further.

use vstd::prelude::*;
use vstd::string::*;

use crate::builtin::{backtrace_hook, backtrace_hook_spec, span_trace_hook, span_trace_hook_spec};
use crate::keys::TypeKey;
use crate::registry::{
    lemma_insert_count_one, lemma_insert_count_other, lemma_insert_preserves_single_entry,
    match_count, registry_insert, single_entry_registry, ActionModel, EntryModel, HookAction,
    Hooks, HooksModel,
};

verus! {

/// Returned by [`GlobalHookState::set_debug_hook`] and
/// [`GlobalHookState::set_display_hook`]. Setting an override always
/// succeeds — the last write wins — so this error is never produced; the
/// `Result` shape of those calls is kept for compatibility.
#[derive(Debug, Clone, Copy)]
pub struct HookAlreadySet;

impl HookAlreadySet {
    /// The human-readable description of this error.
    pub fn message(&self) -> (s: String)
        ensures
            s@ == "Hook can only be set once"@,
    {
        String::from_str("Hook can only be set once")
    }
}

/// Progress of the one-time installation of the built-in hooks.
#[derive(Debug, Clone, Copy, PartialEq, Eq, Structural)]
pub enum InstallState {
    /// No installation has begun.
    NotStarted,
    /// An installation is in progress; calls observing this return at once.
    Running,
    /// The built-ins are installed; no later call changes them again.
    Done,
}

/// The mathematical shape of the global hook state.
#[verifier::ext_equal]
pub struct StateModel<H> {
    /// The hook registry.
    pub hooks: HooksModel,
    /// The whole-output debug override, if one was set.
    pub debug_override: Option<H>,
    /// The whole-output display override, if one was set.
    pub display_override: Option<H>,
    /// Progress of the built-in installation.
    pub install: InstallState,
}

/// What installing the built-ins does: from a state where it has not begun,
/// it registers the backtrace hook and then the span-trace hook and marks the
/// installation done; from any other state it changes nothing.
pub open spec fn install_spec<H>(s: StateModel<H>) -> StateModel<H> {
    if s.install is NotStarted {
        StateModel {
            hooks: HooksModel {
                entries: registry_insert(
                    registry_insert(s.hooks.entries, TypeKey::Backtrace, backtrace_hook_spec()),
                    TypeKey::SpanTrace,
                    span_trace_hook_spec(),
                ),
                fallback: s.hooks.fallback,
            },
            install: InstallState::Done,
            ..s
        }
    } else {
        s
    }
}

/// The termination measure of the installation recursion: a state where
/// installation has not begun can still start one, any other state cannot.
pub open spec fn install_rank(s: InstallState) -> int {
    if s is NotStarted {
        1
    } else {
        0
    }
}

/// The process-wide hook state: one registry, two whole-output override
/// slots, and the built-in installation guard.
///
/// `H` is the embedding program's whole-output renderer type; the state only
/// stores and hands back such values, it never invokes them.
pub struct GlobalHookState<H> {
    hooks: Hooks,
    debug_override: Option<H>,
    display_override: Option<H>,
    install: InstallState,
}

impl<H> View for GlobalHookState<H> {
    type V = StateModel<H>;

    closed spec fn view(&self) -> StateModel<H> {
        StateModel {
            hooks: self.hooks@,
            debug_override: self.debug_override,
            display_override: self.display_override,
            install: self.install,
        }
    }
}

impl<H> GlobalHookState<H> {
    /// A fresh global state: empty registry, no fallback, no overrides, and
    /// the built-ins not yet installed.
    pub fn new() -> (g: Self)
        ensures
            g@.hooks.entries == Seq::<EntryModel>::empty(),
            g@.hooks.fallback is None,
            g@.debug_override is None,
            g@.display_override is None,
            g@.install == InstallState::NotStarted,
    {
        GlobalHookState {
            hooks: Hooks::new(),
            debug_override: None,
            display_override: None,
            install: InstallState::NotStarted,
        }
    }

    /// Read access to the registry, for dispatch during rendering.
    pub fn hooks(&self) -> (h: &Hooks)
        ensures
            h@ == self@.hooks,
    {
        &self.hooks
    }

    /// Installs the built-in hooks exactly once. Callable any number of
    /// times: a call that observes an installation already running — as the
    /// registrations made by the installation itself do — or already done
    /// returns at once, without blocking or re-entering.
    pub fn install_builtin_hooks(&mut self)
        ensures
            final(self)@ == install_spec(old(self)@),
        decreases install_rank(self@.install), 0int,
    {
        match self.install {
            InstallState::Running => {},
            InstallState::Done => {},
            InstallState::NotStarted => {
                self.install = InstallState::Running;
                self.install_debug_hook(TypeKey::Backtrace, backtrace_hook());
                self.install_debug_hook(TypeKey::SpanTrace, span_trace_hook());
                self.install = InstallState::Done;
                proof {
                    assert(self@ =~= install_spec(old(self)@));
                }
            },
        }
    }

    /// Registers `actions` as the hook for `key`, replacing any previous
    /// entry for the same key and moving it to the end of the invocation
    /// order. The built-ins are installed first, so they always precede
    /// explicit registrations that did not overwrite them.
    pub fn install_debug_hook(&mut self, key: TypeKey, actions: Vec<HookAction>)
        ensures
            final(self)@ == ({
                let s1 = install_spec(old(self)@);
                StateModel {
                    hooks: HooksModel {
                        entries: registry_insert(s1.hooks.entries, key, actions.deep_view()),
                        fallback: s1.hooks.fallback,
                    },
                    ..s1
                }
            }),
        decreases install_rank(self@.install), 1int,
    {
        self.install_builtin_hooks();
        self.hooks.insert(key, actions);
        proof {
            assert(self@ =~= ({
                let s1 = install_spec(old(self)@);
                StateModel {
                    hooks: HooksModel {
                        entries: registry_insert(s1.hooks.entries, key, actions.deep_view()),
                        fallback: s1.hooks.fallback,
                    },
                    ..s1
                }
            }));
        }
    }

    /// Sets the fallback hook, replacing any previous one.
    pub fn install_debug_hook_fallback(&mut self, actions: Vec<HookAction>)
        ensures
            final(self)@ == (StateModel {
                hooks: HooksModel {
                    entries: old(self)@.hooks.entries,
                    fallback: Some(actions.deep_view()),
                },
                ..old(self)@
            }),
    {
        self.hooks.fallback(actions);
        proof {
            assert(self@ =~= (StateModel {
                hooks: HooksModel {
                    entries: old(self)@.hooks.entries,
                    fallback: Some(actions.deep_view()),
                },
                ..old(self)@
            }));
        }
    }

    /// Sets the whole-output debug override. The last write wins; the call
    /// never fails.
    pub fn set_debug_hook(&mut self, hook: H) -> (r: Result<(), HookAlreadySet>)
        ensures
            r is Ok,
            final(self)@ == (StateModel { debug_override: Some(hook), ..old(self)@ }),
    {
        self.debug_override = Some(hook);
        proof {
            assert(self@ =~= (StateModel { debug_override: Some(hook), ..old(self)@ }));
        }
        Ok(())
    }

    /// Sets the whole-output display override. The last write wins; the call
    /// never fails.
    pub fn set_display_hook(&mut self, hook: H) -> (r: Result<(), HookAlreadySet>)
        ensures
            r is Ok,
            final(self)@ == (StateModel { display_override: Some(hook), ..old(self)@ }),
    {
        self.display_override = Some(hook);
        proof {
            assert(self@ =~= (StateModel { display_override: Some(hook), ..old(self)@ }));
        }
        Ok(())
    }

    /// The whole-output debug override, if one was set.
    pub fn get_debug_hook(&self) -> (r: Option<&H>)
        ensures
            match r {
                Some(h) => self@.debug_override == Some(*h),
                None => self@.debug_override is None,
            },
    {
        self.debug_override.as_ref()
    }

    /// The whole-output display override, if one was set.
    pub fn get_display_hook(&self) -> (r: Option<&H>)
        ensures
            match r {
                Some(h) => self@.display_override == Some(*h),
                None => self@.display_override is None,
            },
    {
        self.display_override.as_ref()
    }
}

/// The invariant of every reachable global state: no key has two registry
/// entries, and once the installation is done, each built-in hook key has
/// exactly one entry. It holds of a fresh state, and every operation
/// preserves it — so built-in hooks are never duplicated, however many
/// installation and registration calls interleave under the exclusive lock.
pub open spec fn state_inv<H>(s: StateModel<H>) -> bool {
    &&& single_entry_registry(s.hooks.entries)
    &&& (s.install is Done ==> {
        let e = s.hooks.entries;
        &&& match_count(e, TypeKey::Backtrace, e.len() as int) == 1
        &&& match_count(e, TypeKey::SpanTrace, e.len() as int) == 1
    })
}

/// A fresh global state satisfies the invariant: the registry is empty and
/// installation has not begun.
pub proof fn lemma_new_state_inv<H>(s: StateModel<H>)
    requires
        s.hooks.entries == Seq::<EntryModel>::empty(),
        !(s.install is Done),
    ensures
        state_inv(s),
{
}

/// Installing the built-ins preserves the invariant, and establishes its
/// built-in clause: after installation each built-in key has exactly one
/// entry.
pub proof fn lemma_install_preserves_inv<H>(s: StateModel<H>)
    requires
        state_inv(s),
    ensures
        state_inv(install_spec(s)),
{
    if s.install is NotStarted {
        let e1 = registry_insert(s.hooks.entries, TypeKey::Backtrace, backtrace_hook_spec());
        lemma_insert_preserves_single_entry(
            s.hooks.entries,
            TypeKey::Backtrace,
            backtrace_hook_spec(),
        );
        lemma_insert_preserves_single_entry(e1, TypeKey::SpanTrace, span_trace_hook_spec());
        lemma_insert_count_one(s.hooks.entries, TypeKey::Backtrace, backtrace_hook_spec());
        lemma_insert_count_other(
            e1,
            TypeKey::SpanTrace,
            span_trace_hook_spec(),
            TypeKey::Backtrace,
        );
        lemma_insert_count_one(e1, TypeKey::SpanTrace, span_trace_hook_spec());
    }
}

/// Registering a hook preserves the invariant: the built-ins are installed
/// first, and the registration itself leaves exactly one entry for its key
/// and every other key's count unchanged — overwriting a built-in included.
pub proof fn lemma_register_preserves_inv<H>(
    s: StateModel<H>,
    key: TypeKey,
    acts: Seq<ActionModel>,
)
    requires
        state_inv(s),
    ensures
        ({
            let s1 = install_spec(s);
            state_inv(
                StateModel {
                    hooks: HooksModel {
                        entries: registry_insert(s1.hooks.entries, key, acts),
                        fallback: s1.hooks.fallback,
                    },
                    ..s1
                },
            )
        }),
{
    let s1 = install_spec(s);
    lemma_install_preserves_inv(s);
    lemma_insert_preserves_single_entry(s1.hooks.entries, key, acts);
    if s1.install is Done {
        if key == TypeKey::Backtrace {
            lemma_insert_count_one(s1.hooks.entries, key, acts);
            lemma_insert_count_other(s1.hooks.entries, key, acts, TypeKey::SpanTrace);
        } else if key == TypeKey::SpanTrace {
            lemma_insert_count_one(s1.hooks.entries, key, acts);
            lemma_insert_count_other(s1.hooks.entries, key, acts, TypeKey::Backtrace);
        } else {
            lemma_insert_count_other(s1.hooks.entries, key, acts, TypeKey::Backtrace);
            lemma_insert_count_other(s1.hooks.entries, key, acts, TypeKey::SpanTrace);
        }
    }
}

/// Installing the built-ins twice is the same as installing them once:
/// however two installation calls interleave under the exclusive lock, the
/// second changes nothing — no deadlock, no duplicate entries.
pub proof fn lemma_install_idempotent<H>(s: StateModel<H>)
    ensures
        install_spec(install_spec(s)) == install_spec(s),
{
}

/// From a state where installation has not begun, installing leaves exactly
/// one entry for each built-in key in the registry, and marks the
/// installation done, whatever the registry held before.
pub proof fn lemma_install_once<H>(s: StateModel<H>)
    requires
        s.install is NotStarted,
    ensures
        ({
            let e = install_spec(s).hooks.entries;
            &&& match_count(e, TypeKey::Backtrace, e.len() as int) == 1
            &&& match_count(e, TypeKey::SpanTrace, e.len() as int) == 1
            &&& install_spec(s).install == InstallState::Done
        }),
{
    let e1 = registry_insert(s.hooks.entries, TypeKey::Backtrace, backtrace_hook_spec());
    lemma_insert_count_one(s.hooks.entries, TypeKey::Backtrace, backtrace_hook_spec());
    lemma_insert_count_other(
        e1,
        TypeKey::SpanTrace,
        span_trace_hook_spec(),
        TypeKey::Backtrace,
    );
    lemma_insert_count_one(e1, TypeKey::SpanTrace, span_trace_hook_spec());
}

} // verus!
