//! The hook registry and the dispatch engine.
//!
//! A registry holds an ordered list of hooks, each registered for one
//! [`TypeKey`], plus one optional fallback. Dispatching a chain node tries
//! every hook in registration order; a hook whose key equals the node's key
//! matches and runs its actions against the shared context, relabelled to the
//! hook's own key. When no hook at all matched — a hook that matched but
//! emitted nothing still counts — the fallback runs instead, under the
//! chain-node key.
//!
//! A hook's behaviour is a sequence of [`HookAction`]s, a closed command set:
//! without runtime reflection a registry cannot hold arbitrary callbacks, so
//! the dispatchable behaviours form a closed variant that the engine
//! interprets.

use vstd::prelude::*;
use vstd::string::*;

use crate::context::{CtxModel, HookContext};
use crate::keys::TypeKey;
use crate::text::{dec_int, dec_nat, i64_to_string, u64_to_string};
use crate::value::{Frame, FrameModel, Value, ValueModel, value_text, value_text_spec};

verus! {

/// One step of a hook's behaviour.
#[derive(Debug)]
pub enum HookAction {
    /// Append a fixed line to the body.
    EmitBody(String),
    /// Append a fixed line to the appendix.
    EmitAppendix(String),
    /// Append the attachment's own text to the body.
    EmitAttachment,
    /// Bump the hook's counter and append the label followed by the new
    /// counter value to the body.
    EmitIndexed(String),
    /// Render a trace attachment: bump the hook's counter, append the full
    /// rendered trace to the appendix under a numbered heading, and a summary
    /// line with the frame count and the same number to the body. Does
    /// nothing on an attachment that is not a trace.
    EmitTrace {
        /// The heading of the numbered appendix entry.
        heading: String,
        /// The leading word of the body summary line.
        summary: String,
    },
}

/// The mathematical shape of a [`HookAction`].
pub enum ActionModel {
    /// Append a fixed line to the body.
    EmitBody(Seq<char>),
    /// Append a fixed line to the appendix.
    EmitAppendix(Seq<char>),
    /// Append the attachment's own text to the body.
    EmitAttachment,
    /// Bump the hook's counter and append label plus counter to the body.
    EmitIndexed(Seq<char>),
    /// Render a trace attachment into appendix and body.
    EmitTrace {
        /// The heading of the numbered appendix entry.
        heading: Seq<char>,
        /// The leading word of the body summary line.
        summary: Seq<char>,
    },
}

impl View for HookAction {
    type V = ActionModel;

    open spec fn view(&self) -> ActionModel {
        match self {
            HookAction::EmitBody(s) => ActionModel::EmitBody(s@),
            HookAction::EmitAppendix(s) => ActionModel::EmitAppendix(s@),
            HookAction::EmitAttachment => ActionModel::EmitAttachment,
            HookAction::EmitIndexed(s) => ActionModel::EmitIndexed(s@),
            HookAction::EmitTrace { heading, summary } => ActionModel::EmitTrace {
                heading: heading@,
                summary: summary@,
            },
        }
    }
}

impl DeepView for HookAction {
    type V = ActionModel;

    open spec fn deep_view(&self) -> ActionModel {
        self.view()
    }
}

/// The successor of a counter value as shown in trace output, saturating at
/// the largest value.
pub open spec fn succ_sat(i: i64) -> i64 {
    if i < i64::MAX {
        (i + 1) as i64
    } else {
        i
    }
}

/// What one action does to the context. The context's owner key is already
/// the one the running hook operates under.
pub open spec fn apply_action_spec(c: CtxModel, f: FrameModel, a: ActionModel) -> CtxModel {
    match a {
        ActionModel::EmitBody(s) => c.push_body(s),
        ActionModel::EmitAppendix(s) => c.push_appendix(s),
        ActionModel::EmitAttachment => c.push_body(value_text_spec(f.value)),
        ActionModel::EmitIndexed(label) => {
            let idx = c.counter_after_increment();
            c.increment().push_body(label + dec_int(idx as int))
        },
        ActionModel::EmitTrace { heading, summary } => match f.value {
            ValueModel::Trace { rendered, frames } => {
                let shown = succ_sat(c.counter_after_increment());
                c.increment().push_appendix(
                    heading + " No. "@ + dec_int(shown as int) + "\n"@ + rendered,
                ).push_body(
                    summary + " with "@ + dec_nat(frames as nat) + " frames ("@ + dec_int(
                        shown as int,
                    ) + ")"@,
                )
            },
            _ => c,
        },
    }
}

/// The context after the first `n` actions of `acts` ran.
pub open spec fn apply_actions_spec(c: CtxModel, f: FrameModel, acts: Seq<ActionModel>, n: int) -> CtxModel
    decreases n,
{
    if n <= 0 {
        c
    } else {
        apply_action_spec(apply_actions_spec(c, f, acts, n - 1), f, acts[n - 1])
    }
}

/// The context after one hook's whole behaviour ran.
pub open spec fn run_hook(c: CtxModel, f: FrameModel, acts: Seq<ActionModel>) -> CtxModel {
    apply_actions_spec(c, f, acts, acts.len() as int)
}

/// One registered hook entry as the specification sees it: its key and its
/// behaviour.
pub type EntryModel = (TypeKey, Seq<ActionModel>);

/// The mathematical shape of a registry: entries in registration order, plus
/// the optional fallback behaviour.
#[verifier::ext_equal]
pub struct HooksModel {
    /// The registered hooks, in invocation order.
    pub entries: Seq<EntryModel>,
    /// The fallback behaviour, if one was registered.
    pub fallback: Option<Seq<ActionModel>>,
}

/// `entries` with every entry for `key` removed, order otherwise kept.
pub open spec fn strip_key(entries: Seq<EntryModel>, key: TypeKey) -> Seq<EntryModel>
    decreases entries.len(),
{
    if entries.len() == 0 {
        Seq::empty()
    } else {
        let rest = strip_key(entries.drop_first(), key);
        if entries.first().0 == key {
            rest
        } else {
            seq![entries.first()] + rest
        }
    }
}

/// Registration: every old entry for `key` is removed and the new one is
/// appended at the end, taking the last place in invocation order.
pub open spec fn registry_insert(
    entries: Seq<EntryModel>,
    key: TypeKey,
    acts: Seq<ActionModel>,
) -> Seq<EntryModel> {
    strip_key(entries, key).push((key, acts))
}

/// How many of the first `n` entries are registered for `key`.
pub open spec fn match_count(entries: Seq<EntryModel>, key: TypeKey, n: int) -> nat
    decreases n,
{
    if n <= 0 {
        0
    } else {
        match_count(entries, key, n - 1) + if entries[n - 1].0 == key {
            1nat
        } else {
            0nat
        }
    }
}

/// The context after the first `n` entries were tried against frame `f`: a
/// matching entry runs its behaviour with the context relabelled to the
/// entry's key, the owner label being restored afterwards.
pub open spec fn run_entries(entries: Seq<EntryModel>, f: FrameModel, c: CtxModel, n: int) -> CtxModel
    decreases n,
{
    if n <= 0 {
        c
    } else {
        let c1 = run_entries(entries, f, c, n - 1);
        let e = entries[n - 1];
        if e.0 == f.key {
            run_hook(c1.with_owner(e.0), f, e.1).with_owner(c1.owner)
        } else {
            c1
        }
    }
}

/// Full dispatch of one frame: every entry is tried in order; if none
/// matched and a fallback is set, the fallback runs under the chain-node
/// key. A hook that matched but emitted nothing still suppresses the
/// fallback.
pub open spec fn dispatch_spec(h: HooksModel, f: FrameModel, c: CtxModel) -> CtxModel {
    let c1 = run_entries(h.entries, f, c, h.entries.len() as int);
    if match_count(h.entries, f.key, h.entries.len() as int) == 0 {
        match h.fallback {
            Some(fb) => run_hook(c1.with_owner(TypeKey::Frame), f, fb).with_owner(c1.owner),
            None => c1,
        }
    } else {
        c1
    }
}

proof fn lemma_strip_elements(s: Seq<EntryModel>, k: TypeKey)
    ensures
        forall|i: int|
            0 <= i < strip_key(s, k).len() ==> (#[trigger] strip_key(s, k)[i]).0 != k,
    decreases s.len(),
{
    if s.len() > 0 {
        lemma_strip_elements(s.drop_first(), k);
        let st = strip_key(s, k);
        if s.first().0 != k {
            assert forall|i: int| 0 <= i < st.len() implies (#[trigger] st[i]).0 != k by {
                if i == 0 {
                    assert(st[0] == s.first());
                } else {
                    assert(st[i] == strip_key(s.drop_first(), k)[i - 1]);
                }
            }
        }
    }
}

proof fn lemma_match_count_zero(s: Seq<EntryModel>, key: TypeKey, n: int)
    requires
        n <= s.len(),
        forall|i: int| 0 <= i < n ==> (#[trigger] s[i]).0 != key,
    ensures
        match_count(s, key, n) == 0,
    decreases n,
{
    if n > 0 {
        lemma_match_count_zero(s, key, n - 1);
    }
}

proof fn lemma_match_count_prefix(s: Seq<EntryModel>, t: Seq<EntryModel>, key: TypeKey, n: int)
    requires
        n <= s.len(),
        n <= t.len(),
        forall|i: int| 0 <= i < n ==> s[i] == t[i],
    ensures
        match_count(s, key, n) == match_count(t, key, n),
    decreases n,
{
    if n > 0 {
        lemma_match_count_prefix(s, t, key, n - 1);
    }
}

proof fn lemma_run_no_match(s: Seq<EntryModel>, f: FrameModel, c: CtxModel, n: int)
    requires
        n <= s.len(),
        forall|i: int| 0 <= i < n ==> (#[trigger] s[i]).0 != f.key,
    ensures
        run_entries(s, f, c, n) == c,
    decreases n,
{
    if n > 0 {
        lemma_run_no_match(s, f, c, n - 1);
    }
}

proof fn lemma_strip_push_match(t: Seq<EntryModel>, k: TypeKey, a: Seq<ActionModel>)
    ensures
        strip_key(t.push((k, a)), k) == strip_key(t, k),
    decreases t.len(),
{
    let p = t.push((k, a));
    if t.len() == 0 {
        reveal_with_fuel(strip_key, 3);
        assert(p.first() == (k, a));
        assert(p.drop_first() =~= Seq::<EntryModel>::empty());
        assert(strip_key(p, k) =~= strip_key(t, k));
    } else {
        assert(p.first() == t.first());
        assert(p.drop_first() =~= t.drop_first().push((k, a)));
        lemma_strip_push_match(t.drop_first(), k, a);
    }
}

proof fn lemma_strip_id(t: Seq<EntryModel>, k: TypeKey)
    requires
        forall|i: int| 0 <= i < t.len() ==> (#[trigger] t[i]).0 != k,
    ensures
        strip_key(t, k) == t,
    decreases t.len(),
{
    if t.len() == 0 {
        assert(strip_key(t, k) =~= t);
    } else {
        assert(t.first() == t[0]);
        assert forall|i: int|
            0 <= i < t.drop_first().len() implies (#[trigger] t.drop_first()[i]).0 != k by {
            assert(t.drop_first()[i] == t[i + 1]);
        }
        lemma_strip_id(t.drop_first(), k);
        assert(strip_key(t, k) =~= t);
    }
}

pub(crate) proof fn lemma_match_count_first(s: Seq<EntryModel>, key: TypeKey, n: int)
    requires
        1 <= n <= s.len(),
    ensures
        match_count(s, key, n) == match_count(s.drop_first(), key, n - 1) + if s[0].0 == key {
            1nat
        } else {
            0nat
        },
    decreases n,
{
    if n == 1 {
        assert(match_count(s, key, 0) == 0);
        assert(match_count(s.drop_first(), key, 0) == 0);
    } else {
        lemma_match_count_first(s, key, n - 1);
        assert(s.drop_first()[n - 2] == s[n - 1]);
    }
}

pub(crate) proof fn lemma_count_strip_other(s: Seq<EntryModel>, strip_k: TypeKey, count_k: TypeKey)
    requires
        strip_k != count_k,
    ensures
        match_count(strip_key(s, strip_k), count_k, strip_key(s, strip_k).len() as int)
            == match_count(s, count_k, s.len() as int),
    decreases s.len(),
{
    if s.len() > 0 {
        lemma_count_strip_other(s.drop_first(), strip_k, count_k);
        lemma_match_count_first(s, count_k, s.len() as int);
        let st = strip_key(s, strip_k);
        if s.first().0 != strip_k {
            assert(st =~= seq![s.first()] + strip_key(s.drop_first(), strip_k));
            assert(st[0] == s.first());
            lemma_match_count_first(st, count_k, st.len() as int);
            assert(st.drop_first() =~= strip_key(s.drop_first(), strip_k));
        }
    }
}

pub(crate) proof fn lemma_insert_count_one(
    entries: Seq<EntryModel>,
    k: TypeKey,
    a: Seq<ActionModel>,
)
    ensures
        ({
            let r = registry_insert(entries, k, a);
            match_count(r, k, r.len() as int) == 1
        }),
{
    let s1 = strip_key(entries, k);
    let r = registry_insert(entries, k, a);
    lemma_strip_elements(entries, k);
    assert forall|i: int| 0 <= i < r.len() - 1 implies (#[trigger] r[i]).0 != k by {
        assert(r[i] == s1[i]);
    }
    lemma_match_count_zero(r, k, r.len() - 1);
}

pub(crate) proof fn lemma_insert_count_other(
    entries: Seq<EntryModel>,
    k: TypeKey,
    a: Seq<ActionModel>,
    k2: TypeKey,
)
    requires
        k2 != k,
    ensures
        ({
            let r = registry_insert(entries, k, a);
            match_count(r, k2, r.len() as int) == match_count(entries, k2, entries.len() as int)
        }),
{
    let s1 = strip_key(entries, k);
    let r = registry_insert(entries, k, a);
    lemma_count_strip_other(entries, k, k2);
    lemma_match_count_prefix(r, s1, k2, s1.len() as int);
}

/// A registry in which no key has two entries. It holds of the empty registry
/// and every registration preserves it, so it holds of every reachable
/// registry.
pub open spec fn single_entry_registry(entries: Seq<EntryModel>) -> bool {
    forall|k: TypeKey| match_count(entries, k, entries.len() as int) <= 1
}

/// The empty registry holds at most one entry per key, vacuously.
pub proof fn lemma_empty_single_entry()
    ensures
        single_entry_registry(Seq::<EntryModel>::empty()),
{
}

/// Registration preserves the single-entry-per-type invariant: the registered
/// key ends up with exactly one entry and every other key keeps its count.
pub proof fn lemma_insert_preserves_single_entry(
    entries: Seq<EntryModel>,
    k: TypeKey,
    a: Seq<ActionModel>,
)
    requires
        single_entry_registry(entries),
    ensures
        single_entry_registry(registry_insert(entries, k, a)),
{
    let r = registry_insert(entries, k, a);
    assert forall|k2: TypeKey| match_count(r, k2, r.len() as int) <= 1 by {
        if k2 == k {
            lemma_insert_count_one(entries, k, a);
        } else {
            lemma_insert_count_other(entries, k, a, k2);
        }
    }
}

/// Registering for a key twice leaves exactly one entry for it, standing at
/// the end of the invocation order and carrying the second behaviour: the
/// registry keeps a single entry per type however often a type is
/// re-registered.
pub proof fn lemma_reinsert_single_entry(
    entries: Seq<EntryModel>,
    k: TypeKey,
    a1: Seq<ActionModel>,
    a2: Seq<ActionModel>,
)
    ensures
        ({
            let r = registry_insert(registry_insert(entries, k, a1), k, a2);
            &&& match_count(r, k, r.len() as int) == 1
            &&& r.len() >= 1
            &&& r[r.len() - 1] == (k, a2)
        }),
{
    let s1 = strip_key(entries, k);
    let r1 = registry_insert(entries, k, a1);
    let r = registry_insert(r1, k, a2);
    lemma_strip_elements(entries, k);
    lemma_strip_push_match(s1, k, a1);
    lemma_strip_id(s1, k);
    assert(r =~= s1.push((k, a2)));
    lemma_match_count_zero(r, k, r.len() - 1);
    assert(match_count(r, k, r.len() as int) == 1);
}

/// Dispatching a node of the re-registered key runs the second behaviour,
/// exactly once: the first behaviour is never invoked — the result does not
/// depend on it — and the fallback, whatever it is, stays suppressed.
pub proof fn lemma_reinsert_dispatch(
    entries: Seq<EntryModel>,
    k: TypeKey,
    a1: Seq<ActionModel>,
    a2: Seq<ActionModel>,
    fb: Option<Seq<ActionModel>>,
    f: FrameModel,
    c: CtxModel,
)
    requires
        f.key == k,
    ensures
        dispatch_spec(
            HooksModel { entries: registry_insert(registry_insert(entries, k, a1), k, a2), fallback: fb },
            f,
            c,
        ) == run_hook(c.with_owner(k), f, a2).with_owner(c.owner),
{
    let s1 = strip_key(entries, k);
    let r = registry_insert(registry_insert(entries, k, a1), k, a2);
    lemma_strip_elements(entries, k);
    lemma_strip_push_match(s1, k, a1);
    lemma_strip_id(s1, k);
    assert(r =~= s1.push((k, a2)));
    assert forall|i: int| 0 <= i < r.len() - 1 implies (#[trigger] r[i]).0 != f.key by {
        assert(r[i] == s1[i]);
    }
    lemma_run_no_match(r, f, c, r.len() - 1);
    assert(r[r.len() - 1] == (k, a2));
    assert(run_entries(r, f, c, r.len() as int) == run_hook(c.with_owner(k), f, a2).with_owner(
        c.owner,
    ));
    lemma_match_count_zero(r, k, r.len() - 1);
    assert(match_count(r, f.key, r.len() as int) == 1);
}

/// One registered hook: the key it was registered for and its behaviour.
struct HookEntry {
    key: TypeKey,
    actions: Vec<HookAction>,
}

/// The shape of a sequence of registered hooks.
spec fn entries_model(s: Seq<HookEntry>) -> Seq<EntryModel> {
    Seq::new(s.len(), |i: int| (s[i].key, s[i].actions.deep_view()))
}

/// Holds the ordered list of registered hooks and the optional fallback.
///
/// The fallback is called whenever no hook matched a node at all. Hooks are
/// added via [`Hooks::insert`]; inserting for a key that is already present
/// replaces the old entry and moves it to the end of the invocation order, so
/// the registry never holds two entries for one key.
pub struct Hooks {
    entries: Vec<HookEntry>,
    fallback: Option<Vec<HookAction>>,
}

impl View for Hooks {
    type V = HooksModel;

    closed spec fn view(&self) -> HooksModel {
        HooksModel {
            entries: entries_model(self.entries@),
            fallback: match self.fallback {
                Some(ref v) => Some(v.deep_view()),
                None => None,
            },
        }
    }
}

impl Hooks {
    /// Creates an empty registry: no hooks, no fallback.
    pub fn new() -> (h: Hooks)
        ensures
            h@.entries == Seq::<EntryModel>::empty(),
            h@.fallback is None,
    {
        let h = Hooks { entries: Vec::new(), fallback: None };
        proof {
            assert(h@.entries =~= Seq::<EntryModel>::empty());
        }
        h
    }

    /// The number of registered hooks.
    pub fn len(&self) -> (n: usize)
        ensures
            n == self@.entries.len(),
    {
        self.entries.len()
    }

    /// Registers `actions` as the hook for `key`: any previous entry for the
    /// same key is removed, and the new entry is appended at the end of the
    /// invocation order.
    pub fn insert(&mut self, key: TypeKey, actions: Vec<HookAction>)
        ensures
            final(self)@.entries == registry_insert(old(self)@.entries, key, actions.deep_view()),
            final(self)@.fallback == old(self)@.fallback,
    {
        let ghost orig = entries_model(self.entries@);
        let mut pending: Vec<HookEntry> = Vec::new();
        core::mem::swap(&mut self.entries, &mut pending);
        let mut kept: Vec<HookEntry> = Vec::new();
        proof {
            assert(entries_model(pending@) =~= orig);
            assert(strip_key(orig, key) =~= entries_model(kept@) + strip_key(
                entries_model(pending@),
                key,
            ));
        }
        while pending.len() > 0
            invariant
                strip_key(orig, key) =~= entries_model(kept@) + strip_key(
                    entries_model(pending@),
                    key,
                ),
            decreases pending.len(),
        {
            let ghost pm = entries_model(pending@);
            let ghost km = entries_model(kept@);
            let e = pending.remove(0);
            proof {
                assert(entries_model(pending@) =~= pm.drop_first());
                assert(pm.first() == (e.key, e.actions.deep_view()));
            }
            if e.key == key {
                proof {
                    assert(strip_key(pm, key) == strip_key(pm.drop_first(), key));
                }
            } else {
                let ghost ek = e.key;
                let ghost ad = e.actions.deep_view();
                kept.push(e);
                proof {
                    assert(entries_model(kept@) =~= km.push((ek, ad)));
                    assert(strip_key(pm, key) =~= seq![(ek, ad)] + strip_key(
                        pm.drop_first(),
                        key,
                    ));
                }
            }
        }
        proof {
            assert(entries_model(pending@) =~= Seq::<EntryModel>::empty());
            assert(strip_key(entries_model(pending@), key) == Seq::<EntryModel>::empty());
            assert(strip_key(orig, key) =~= entries_model(kept@));
        }
        let ghost ad = actions.deep_view();
        kept.push(HookEntry { key, actions });
        core::mem::swap(&mut self.entries, &mut kept);
        proof {
            assert(entries_model(self.entries@) =~= strip_key(orig, key).push((key, ad)));
        }
    }

    /// Sets the fallback behaviour, replacing any previous one.
    pub fn fallback(&mut self, actions: Vec<HookAction>)
        ensures
            final(self)@.fallback == Some(actions.deep_view()),
            final(self)@.entries == old(self)@.entries,
    {
        self.fallback = Some(actions);
    }

    /// Dispatches one chain node: tries every registered hook in order
    /// against `frame`, and if none matched, runs the fallback, if set, under
    /// the chain-node key. The context's owner label is the same before and
    /// after the call.
    pub fn call(&self, frame: &Frame, ctx: &mut HookContext)
        requires
            old(ctx).wf(),
        ensures
            final(ctx).wf(),
            final(ctx)@ == dispatch_spec(self@, frame@, old(ctx)@),
    {
        let n = self.entries.len();
        let mut matched: usize = 0;
        let mut i: usize = 0;
        while i < n
            invariant
                n == self.entries@.len(),
                i <= n,
                old(ctx).wf(),
                ctx.wf(),
                ctx@ == run_entries(self@.entries, frame@, old(ctx)@, i as int),
                matched == match_count(self@.entries, frame@.key, i as int),
                matched <= i,
            decreases n - i,
        {
            let e = &self.entries[i];
            if e.key == frame.key {
                let saved = ctx.owner();
                ctx.cast(e.key);
                apply_actions(&e.actions, frame, ctx);
                ctx.cast(saved);
                matched += 1;
            }
            i += 1;
        }
        if matched == 0 {
            if let Some(fb) = &self.fallback {
                let saved = ctx.owner();
                ctx.cast(TypeKey::Frame);
                apply_actions(fb, frame, ctx);
                ctx.cast(saved);
            }
        }
    }
}

proof fn lemma_prefix_trans(a: Seq<Seq<char>>, b: Seq<Seq<char>>, c: Seq<Seq<char>>)
    requires
        a.is_prefix_of(b),
        b.is_prefix_of(c),
    ensures
        a.is_prefix_of(c),
{
    assert(a =~= c.subrange(0, a.len() as int));
}

proof fn lemma_action_appends(c: CtxModel, f: FrameModel, a: ActionModel)
    ensures
        ({
            let d = apply_action_spec(c, f, a);
            &&& d.owner == c.owner
            &&& d.alternate == c.alternate
            &&& c.body.is_prefix_of(d.body)
            &&& c.appendix.is_prefix_of(d.appendix)
        }),
{
    let d = apply_action_spec(c, f, a);
    assert(c.body.is_prefix_of(d.body)) by {
        assert(c.body =~= d.body.subrange(0, c.body.len() as int));
    }
    assert(c.appendix.is_prefix_of(d.appendix)) by {
        assert(c.appendix =~= d.appendix.subrange(0, c.appendix.len() as int));
    }
}

proof fn lemma_actions_append(c: CtxModel, f: FrameModel, acts: Seq<ActionModel>, n: int)
    ensures
        ({
            let d = apply_actions_spec(c, f, acts, n);
            &&& d.owner == c.owner
            &&& d.alternate == c.alternate
            &&& c.body.is_prefix_of(d.body)
            &&& c.appendix.is_prefix_of(d.appendix)
        }),
    decreases n,
{
    if n <= 0 {
        assert(c.body.is_prefix_of(c.body)) by {
            assert(c.body =~= c.body.subrange(0, c.body.len() as int));
        }
        assert(c.appendix.is_prefix_of(c.appendix)) by {
            assert(c.appendix =~= c.appendix.subrange(0, c.appendix.len() as int));
        }
    } else {
        let d1 = apply_actions_spec(c, f, acts, n - 1);
        lemma_actions_append(c, f, acts, n - 1);
        lemma_action_appends(d1, f, acts[n - 1]);
        lemma_prefix_trans(c.body, d1.body, apply_action_spec(d1, f, acts[n - 1]).body);
        lemma_prefix_trans(
            c.appendix,
            d1.appendix,
            apply_action_spec(d1, f, acts[n - 1]).appendix,
        );
    }
}

proof fn lemma_entries_append(entries: Seq<EntryModel>, f: FrameModel, c: CtxModel, n: int)
    ensures
        ({
            let d = run_entries(entries, f, c, n);
            &&& d.owner == c.owner
            &&& d.alternate == c.alternate
            &&& c.body.is_prefix_of(d.body)
            &&& c.appendix.is_prefix_of(d.appendix)
        }),
    decreases n,
{
    if n <= 0 {
        assert(c.body =~= c.body.subrange(0, c.body.len() as int));
        assert(c.appendix =~= c.appendix.subrange(0, c.appendix.len() as int));
    } else {
        let c1 = run_entries(entries, f, c, n - 1);
        lemma_entries_append(entries, f, c, n - 1);
        let e = entries[n - 1];
        if e.0 == f.key {
            lemma_actions_append(c1.with_owner(e.0), f, e.1, e.1.len() as int);
            lemma_prefix_trans(c.body, c1.body, run_entries(entries, f, c, n).body);
            lemma_prefix_trans(c.appendix, c1.appendix, run_entries(entries, f, c, n).appendix);
        }
    }
}

/// Dispatch only adds output: the body and the appendix after dispatching a
/// frame extend the ones before — the appendix is thus append-only across a
/// whole render pass, and the body grows until the renderer drains it — while
/// the owner label is restored and the alternate flag, fixed at the context's
/// creation, never changes.
pub proof fn lemma_dispatch_appends(h: HooksModel, f: FrameModel, c: CtxModel)
    ensures
        ({
            let d = dispatch_spec(h, f, c);
            &&& d.owner == c.owner
            &&& d.alternate == c.alternate
            &&& c.body.is_prefix_of(d.body)
            &&& c.appendix.is_prefix_of(d.appendix)
        }),
{
    let c1 = run_entries(h.entries, f, c, h.entries.len() as int);
    lemma_entries_append(h.entries, f, c, h.entries.len() as int);
    if match_count(h.entries, f.key, h.entries.len() as int) == 0 && h.fallback is Some {
        let fb = h.fallback->0;
        lemma_actions_append(c1.with_owner(TypeKey::Frame), f, fb, fb.len() as int);
        lemma_prefix_trans(c.body, c1.body, dispatch_spec(h, f, c).body);
        lemma_prefix_trans(c.appendix, c1.appendix, dispatch_spec(h, f, c).appendix);
    }
}

/// The context a render pass starts from: empty storage, body and appendix,
/// addressed to the chain-node owner key.
pub open spec fn fresh_ctx(alternate: bool) -> CtxModel {
    CtxModel {
        owner: TypeKey::Frame,
        storage: Map::empty(),
        alternate,
        body: Seq::empty(),
        appendix: Seq::empty(),
    }
}

/// The first `n` steps of a render pass: each step dispatches one frame into
/// the running context and drains the body lines it produced, while the
/// appendix and the stored values accumulate across steps.
pub open spec fn render_steps(
    h: HooksModel,
    frames: Seq<FrameModel>,
    c: CtxModel,
    n: int,
) -> (Seq<Seq<Seq<char>>>, CtxModel)
    decreases n,
{
    if n <= 0 {
        (Seq::empty(), c)
    } else {
        let prev = render_steps(h, frames, c, n - 1);
        let c2 = dispatch_spec(h, frames[n - 1], prev.1);
        (prev.0.push(c2.body), CtxModel { body: Seq::empty(), ..c2 })
    }
}

impl Hooks {
    /// Drives one whole render pass: creates a fresh context, dispatches
    /// every frame in chain order, drains the body after each node, and
    /// returns the per-node body lines together with the pass's appendix.
    pub fn render_chain(&self, frames: &Vec<Frame>, alternate: bool) -> (out: (
        Vec<Vec<String>>,
        Vec<String>,
    ))
        ensures
            ({
                let r = render_steps(
                    self@,
                    frames.deep_view(),
                    fresh_ctx(alternate),
                    frames@.len() as int,
                );
                out.0.deep_view() == r.0 && out.1.deep_view() == r.1.appendix
            }),
    {
        let mut ctx = HookContext::new(alternate);
        let mut bodies: Vec<Vec<String>> = Vec::new();
        proof {
            assert(ctx@ =~= fresh_ctx(alternate));
            assert(bodies.deep_view() =~= Seq::<Seq<Seq<char>>>::empty());
        }
        let n = frames.len();
        let mut i: usize = 0;
        while i < n
            invariant
                n == frames@.len(),
                i <= n,
                ctx.wf(),
                ({
                    let r = render_steps(
                        self@,
                        frames.deep_view(),
                        fresh_ctx(alternate),
                        i as int,
                    );
                    bodies.deep_view() == r.0 && ctx@ == r.1
                }),
            decreases n - i,
        {
            let ghost b0 = bodies.deep_view();
            self.call(&frames[i], &mut ctx);
            let lines = ctx.take_body();
            let ghost lv = lines.deep_view();
            bodies.push(lines);
            proof {
                assert(frames.deep_view()[i as int] == frames@[i as int]@);
                assert(bodies.deep_view() =~= b0.push(lv));
            }
            i += 1;
        }
        (bodies, ctx.into_appendix())
    }
}

/// Runs one hook behaviour against the context, under its current owner.
fn apply_actions(actions: &Vec<HookAction>, frame: &Frame, ctx: &mut HookContext)
    requires
        old(ctx).wf(),
    ensures
        final(ctx).wf(),
        final(ctx)@ == run_hook(old(ctx)@, frame@, actions.deep_view()),
{
    let n = actions.len();
    let mut j: usize = 0;
    while j < n
        invariant
            n == actions@.len(),
            j <= n,
            old(ctx).wf(),
            ctx.wf(),
            ctx@ == apply_actions_spec(old(ctx)@, frame@, actions.deep_view(), j as int),
        decreases n - j,
    {
        apply_one(&actions[j], frame, ctx);
        j += 1;
    }
}

/// Runs a single action against the context, under its current owner.
fn apply_one(action: &HookAction, frame: &Frame, ctx: &mut HookContext)
    requires
        old(ctx).wf(),
    ensures
        final(ctx).wf(),
        final(ctx)@ == apply_action_spec(old(ctx)@, frame@, action@),
{
    match action {
        HookAction::EmitBody(s) => {
            ctx.push_body(s.clone());
        },
        HookAction::EmitAppendix(s) => {
            ctx.push_appendix(s.clone());
        },
        HookAction::EmitAttachment => {
            ctx.push_body(value_text(&frame.value));
        },
        HookAction::EmitIndexed(label) => {
            let idx = ctx.increment_counter();
            let mut line = label.clone();
            line.append(i64_to_string(idx).as_str());
            ctx.push_body(line);
        },
        HookAction::EmitTrace { heading, summary } => {
            match &frame.value {
                Value::Trace { rendered, frames } => {
                    let idx = ctx.increment_counter();
                    let shown = if idx < i64::MAX {
                        idx + 1
                    } else {
                        idx
                    };
                    let mut entry = heading.clone();
                    entry.append(" No. ");
                    entry.append(i64_to_string(shown).as_str());
                    entry.append("\n");
                    entry.append(rendered.as_str());
                    ctx.push_appendix(entry);
                    let mut line = summary.clone();
                    line.append(" with ");
                    line.append(u64_to_string(*frames).as_str());
                    line.append(" frames (");
                    line.append(i64_to_string(shown).as_str());
                    line.append(")");
                    ctx.push_body(line);
                },
                _ => {},
            }
        },
    }
}

} // verus!
