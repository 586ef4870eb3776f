//! The per-render context: partitioned storage, body and appendix.
//!
//! One [`HookContext`] is created for a whole render pass and reused across
//! every node of the chain, so values a hook stores persist from one
//! invocation to the next. Storage is partitioned twice: by an owner
//! [`TypeKey`] — the type a hook declared itself for — and below it by the
//! stored value's own tag, so values kept for one hook type never collide
//! with values of the same shape kept for another.

use vstd::prelude::*;

use crate::keys::{StoreKey, TypeKey, ValueTag};
use crate::value::{Value, ValueModel, value_tag};

verus! {

/// One slot of the partitioned storage.
struct StorageEntry {
    owner: TypeKey,
    key: StoreKey,
    value: Value,
}

/// The full key of a storage slot.
spec fn ekey(e: StorageEntry) -> (TypeKey, StoreKey) {
    (e.owner, e.key)
}

/// The dictionary that a sequence of slots denotes; later slots win, though
/// well-formed storage never repeats a key.
spec fn smap(s: Seq<StorageEntry>) -> Map<(TypeKey, StoreKey), ValueModel>
    decreases s.len(),
{
    if s.len() == 0 {
        Map::empty()
    } else {
        smap(s.drop_last()).insert(ekey(s.last()), s.last().value@)
    }
}

/// No two slots share a key.
spec fn unique_keys(s: Seq<StorageEntry>) -> bool {
    forall|i: int, j: int| 0 <= i < j < s.len() ==> ekey(s[i]) != ekey(s[j])
}

/// A slot's value fits its key: the counter slot holds a signed integer, and
/// a tagged slot holds a value of that tag.
spec fn entry_ok(e: StorageEntry) -> bool {
    match e.key {
        StoreKey::Counter => e.value@ is Int,
        StoreKey::Tagged(t) => e.value@.tag() == t,
    }
}

/// Well-formed storage: unique keys, each value fitting its slot.
spec fn entries_wf(s: Seq<StorageEntry>) -> bool {
    unique_keys(s) && forall|i: int| 0 <= i < s.len() ==> entry_ok(#[trigger] s[i])
}

proof fn lemma_smap_contains(s: Seq<StorageEntry>, k: (TypeKey, StoreKey))
    ensures
        smap(s).contains_key(k) <==> exists|i: int| 0 <= i < s.len() && ekey(s[i]) == k,
    decreases s.len(),
{
    if s.len() > 0 {
        lemma_smap_contains(s.drop_last(), k);
        if ekey(s.last()) == k {
            assert(ekey(s[s.len() - 1]) == k);
        } else if smap(s).contains_key(k) {
            let i = choose|i: int| 0 <= i < s.drop_last().len() && ekey(s.drop_last()[i]) == k;
            assert(ekey(s[i]) == k);
        } else {
            assert forall|i: int| 0 <= i < s.len() implies ekey(s[i]) != k by {
                if i < s.len() - 1 {
                    assert(s.drop_last()[i] == s[i]);
                }
            }
        }
    }
}

proof fn lemma_smap_index(s: Seq<StorageEntry>, i: int)
    requires
        unique_keys(s),
        0 <= i < s.len(),
    ensures
        smap(s).contains_key(ekey(s[i])),
        smap(s)[ekey(s[i])] == s[i].value@,
    decreases s.len(),
{
    if i == s.len() - 1 {
    } else {
        assert(unique_keys(s.drop_last())) by {
            assert forall|x: int, y: int|
                0 <= x < y < s.drop_last().len() implies ekey(s.drop_last()[x]) != ekey(
                s.drop_last()[y],
            ) by {
                assert(s.drop_last()[x] == s[x]);
                assert(s.drop_last()[y] == s[y]);
            }
        }
        assert(s.drop_last()[i] == s[i]);
        lemma_smap_index(s.drop_last(), i);
        assert(ekey(s[s.len() - 1]) != ekey(s[i]));
    }
}

proof fn lemma_unique_drop_last(s: Seq<StorageEntry>)
    requires
        unique_keys(s),
        s.len() > 0,
    ensures
        unique_keys(s.drop_last()),
{
    assert forall|x: int, y: int|
        0 <= x < y < s.drop_last().len() implies ekey(s.drop_last()[x]) != ekey(
        s.drop_last()[y],
    ) by {
        assert(s.drop_last()[x] == s[x]);
        assert(s.drop_last()[y] == s[y]);
    }
}

proof fn lemma_smap_remove(s: Seq<StorageEntry>, i: int)
    requires
        unique_keys(s),
        0 <= i < s.len(),
    ensures
        smap(s.remove(i)) =~= smap(s).remove(ekey(s[i])),
    decreases s.len(),
{
    lemma_unique_drop_last(s);
    if i == s.len() - 1 {
        assert(s.remove(i) =~= s.drop_last());
        lemma_smap_contains(s.drop_last(), ekey(s[i]));
        assert forall|j: int| 0 <= j < s.drop_last().len() implies ekey(s.drop_last()[j]) != ekey(
            s[i],
        ) by {
            assert(s.drop_last()[j] == s[j]);
        }
        assert(!smap(s.drop_last()).contains_key(ekey(s[i])));
        assert(smap(s.drop_last()) =~= smap(s).remove(ekey(s[i])));
    } else {
        let t = s.remove(i);
        assert(t.len() == s.len() - 1);
        assert(t.last() == s.last());
        assert(t.drop_last() =~= s.drop_last().remove(i));
        lemma_smap_remove(s.drop_last(), i);
        assert(smap(t) =~= smap(s.drop_last().remove(i)).insert(ekey(s.last()), s.last().value@));
        assert(ekey(s[i]) != ekey(s.last()));
        assert(smap(s.drop_last().remove(i)).insert(ekey(s.last()), s.last().value@) =~= smap(
            s.drop_last(),
        ).remove(ekey(s[i])).insert(ekey(s.last()), s.last().value@));
        assert(smap(s.drop_last()).remove(ekey(s[i])).insert(ekey(s.last()), s.last().value@) =~=
            smap(s.drop_last()).insert(ekey(s.last()), s.last().value@).remove(ekey(s[i])));
    }
}

proof fn lemma_smap_update(s: Seq<StorageEntry>, i: int, e: StorageEntry)
    requires
        unique_keys(s),
        0 <= i < s.len(),
        ekey(e) == ekey(s[i]),
    ensures
        smap(s.update(i, e)) =~= smap(s).insert(ekey(e), e.value@),
    decreases s.len(),
{
    lemma_unique_drop_last(s);
    if i == s.len() - 1 {
        assert(s.update(i, e).drop_last() =~= s.drop_last());
        assert(s.update(i, e).last() == e);
    } else {
        let t = s.update(i, e);
        assert(t.last() == s.last());
        assert(t.drop_last() =~= s.drop_last().update(i, e));
        lemma_smap_update(s.drop_last(), i, e);
        assert(ekey(e) != ekey(s.last()));
        assert(smap(s.drop_last()).insert(ekey(e), e.value@).insert(ekey(s.last()), s.last().value@)
            =~= smap(s.drop_last()).insert(ekey(s.last()), s.last().value@).insert(
            ekey(e),
            e.value@,
        ));
    }
}

/// The mathematical shape of a render context.
#[verifier::ext_equal]
pub struct CtxModel {
    /// The owner key that storage operations currently address.
    pub owner: TypeKey,
    /// The partitioned storage: one value per (owner key, slot key).
    pub storage: Map<(TypeKey, StoreKey), ValueModel>,
    /// Whether the render pass asked for the alternate form.
    pub alternate: bool,
    /// The body lines of the node being dispatched.
    pub body: Seq<Seq<char>>,
    /// The appendix lines of the whole render pass.
    pub appendix: Seq<Seq<char>>,
}

impl CtxModel {
    /// The same context relabelled to address another owner key.
    pub open spec fn with_owner(self, owner: TypeKey) -> CtxModel {
        CtxModel { owner, ..self }
    }

    /// The context with one more body line.
    pub open spec fn push_body(self, line: Seq<char>) -> CtxModel {
        CtxModel { body: self.body.push(line), ..self }
    }

    /// The context with one more appendix line.
    pub open spec fn push_appendix(self, line: Seq<char>) -> CtxModel {
        CtxModel { appendix: self.appendix.push(line), ..self }
    }

    /// The storage key a value of tag `t` lives under for the current owner.
    pub open spec fn slot(self, t: ValueTag) -> (TypeKey, StoreKey) {
        (self.owner, StoreKey::Tagged(t))
    }

    /// The slot of the current owner's private counter.
    pub open spec fn counter_slot(self) -> (TypeKey, StoreKey) {
        (self.owner, StoreKey::Counter)
    }

    /// The context with `v` stored under the current owner and `v`'s own tag.
    pub open spec fn store(self, v: ValueModel) -> CtxModel {
        CtxModel { storage: self.storage.insert(self.slot(v.tag()), v), ..self }
    }

    /// The value the increment operation returns: `0` if the counter was
    /// absent, otherwise its successor, saturating at the largest value.
    pub open spec fn counter_after_increment(self) -> i64 {
        if self.storage.contains_key(self.counter_slot()) {
            match self.storage[self.counter_slot()] {
                ValueModel::Int(c) => if c < i64::MAX {
                    (c + 1) as i64
                } else {
                    c
                },
                _ => 0,
            }
        } else {
            0
        }
    }

    /// The value the decrement operation returns: `-1` if the counter was
    /// absent, otherwise its predecessor, saturating at the smallest value.
    pub open spec fn counter_after_decrement(self) -> i64 {
        if self.storage.contains_key(self.counter_slot()) {
            match self.storage[self.counter_slot()] {
                ValueModel::Int(c) => if c > i64::MIN {
                    (c - 1) as i64
                } else {
                    c
                },
                _ => -1i64,
            }
        } else {
            -1i64
        }
    }

    /// The context after the increment operation.
    pub open spec fn increment(self) -> CtxModel {
        CtxModel {
            storage: self.storage.insert(
                self.counter_slot(),
                ValueModel::Int(self.counter_after_increment()),
            ),
            ..self
        }
    }

    /// The context after the decrement operation.
    pub open spec fn decrement(self) -> CtxModel {
        CtxModel {
            storage: self.storage.insert(
                self.counter_slot(),
                ValueModel::Int(self.counter_after_decrement()),
            ),
            ..self
        }
    }
}

/// Carrier for contextual information used across hook invocations within one
/// render pass.
///
/// A hook reaches two facilities through its context: the body and appendix
/// line lists that build up the rendered output, and a storage partition of
/// its own where it can keep values — counters, accumulators — that persist
/// across the invocations of a single pass.
pub struct HookContext {
    owner: TypeKey,
    entries: Vec<StorageEntry>,
    alternate: bool,
    body: Vec<String>,
    appendix: Vec<String>,
}

impl View for HookContext {
    type V = CtxModel;

    closed spec fn view(&self) -> CtxModel {
        CtxModel {
            owner: self.owner,
            storage: smap(self.entries@),
            alternate: self.alternate,
            body: self.body.deep_view(),
            appendix: self.appendix.deep_view(),
        }
    }
}

impl HookContext {
    /// Well-formed storage: at most one value per slot, each fitting its tag.
    /// Established by [`HookContext::new`] and preserved by every operation.
    pub closed spec fn wf(&self) -> bool {
        entries_wf(self.entries@)
    }

    /// Creates the context for one render pass. Storage operations initially
    /// address the chain-node owner key, as the fallback hook sees them.
    pub fn new(alternate: bool) -> (c: HookContext)
        ensures
            c.wf(),
            c@.owner == TypeKey::Frame,
            c@.storage == Map::<(TypeKey, StoreKey), ValueModel>::empty(),
            c@.alternate == alternate,
            c@.body == Seq::<Seq<char>>::empty(),
            c@.appendix == Seq::<Seq<char>>::empty(),
    {
        let c = HookContext {
            owner: TypeKey::Frame,
            entries: Vec::new(),
            alternate,
            body: Vec::new(),
            appendix: Vec::new(),
        };
        proof {
            assert(c.body.deep_view() =~= Seq::<Seq<char>>::empty());
            assert(c.appendix.deep_view() =~= Seq::<Seq<char>>::empty());
        }
        c
    }

    /// Whether the render pass asked for the alternate form. Fixed at
    /// creation for the context's whole lifetime.
    pub fn alternate(&self) -> (b: bool)
        ensures
            b == self@.alternate,
    {
        self.alternate
    }

    /// The owner key that storage operations currently address.
    pub fn owner(&self) -> (k: TypeKey)
        ensures
            k == self@.owner,
    {
        self.owner
    }

    /// Relabels the context to address owner key `owner`: every subsequent
    /// storage or counter operation keys against it. Nothing is copied; the
    /// storage, body and appendix stay those of this same context.
    pub fn cast(&mut self, owner: TypeKey)
        ensures
            final(self)@ == old(self)@.with_owner(owner),
            old(self).wf() ==> final(self).wf(),
    {
        self.owner = owner;
    }

    /// Appends one line to the body of the node being dispatched.
    pub fn push_body(&mut self, line: String)
        ensures
            final(self)@ == old(self)@.push_body(line@),
            old(self).wf() ==> final(self).wf(),
    {
        self.body.push(line);
        proof {
            assert(self.body.deep_view() =~= old(self).body.deep_view().push(line@));
        }
    }

    /// Appends one line to the appendix of the render pass.
    pub fn push_appendix(&mut self, line: String)
        ensures
            final(self)@ == old(self)@.push_appendix(line@),
            old(self).wf() ==> final(self).wf(),
    {
        self.appendix.push(line);
        proof {
            assert(self.appendix.deep_view() =~= old(self).appendix.deep_view().push(line@));
        }
    }

    /// Empties the body and returns its lines; the renderer calls this once
    /// after each node's dispatch.
    pub fn take_body(&mut self) -> (lines: Vec<String>)
        ensures
            lines.deep_view() == old(self)@.body,
            final(self)@ == (CtxModel { body: Seq::<Seq<char>>::empty(), ..old(self)@ }),
            old(self).wf() ==> final(self).wf(),
    {
        let mut out: Vec<String> = Vec::new();
        core::mem::swap(&mut self.body, &mut out);
        proof {
            assert(out.deep_view() =~= old(self)@.body);
            assert(self.body.deep_view() =~= Seq::<Seq<char>>::empty());
        }
        out
    }

    /// The appendix accumulated so far, in the order it was pushed.
    pub fn appendix(&self) -> (lines: &Vec<String>)
        ensures
            lines.deep_view() == self@.appendix,
    {
        &self.appendix
    }

    /// Consumes the context at the end of a render pass, yielding the whole
    /// pass's appendix.
    pub fn into_appendix(self) -> (lines: Vec<String>)
        ensures
            lines.deep_view() == self@.appendix,
    {
        self.appendix
    }

    /// The index of the slot `(self.owner, key)`, if it is occupied.
    fn position(&self, key: StoreKey) -> (r: Option<usize>)
        ensures
            match r {
                Some(i) => i < self.entries@.len() && ekey(self.entries@[i as int]) == (
                    self@.owner,
                    key,
                ),
                None => !self@.storage.contains_key((self@.owner, key)),
            },
    {
        let n = self.entries.len();
        let mut i: usize = 0;
        while i < n
            invariant
                n == self.entries@.len(),
                i <= n,
                forall|j: int| 0 <= j < i ==> ekey(self.entries@[j]) != (self.owner, key),
            decreases n - i,
        {
            if self.entries[i].owner == self.owner && self.entries[i].key == key {
                return Some(i);
            }
            i += 1;
        }
        proof {
            lemma_smap_contains(self.entries@, (self.owner, key));
        }
        None
    }

    /// Returns the value of tag `tag` stored for the current owner, if one
    /// exists. Values of different tags never alias, and values stored for a
    /// different owner are invisible here.
    pub fn get(&self, tag: ValueTag) -> (r: Option<&Value>)
        requires
            self.wf(),
        ensures
            match r {
                Some(v) => self@.storage.contains_key(self@.slot(tag)) && v@ == self@.storage[
                    self@.slot(tag)
                ] && v@.tag() == tag,
                None => !self@.storage.contains_key(self@.slot(tag)),
            },
    {
        match self.position(StoreKey::Tagged(tag)) {
            Some(i) => {
                proof {
                    lemma_smap_index(self.entries@, i as int);
                }
                Some(&self.entries[i].value)
            },
            None => None,
        }
    }

    /// Returns a mutable reference to the value of tag `tag` stored for the
    /// current owner, if one exists. Writing a value of the same tag through
    /// it updates the slot in place.
    pub fn get_mut(&mut self, tag: ValueTag) -> (r: Option<&mut Value>)
        requires
            old(self).wf(),
        ensures
            match r {
                None => !old(self)@.storage.contains_key(old(self)@.slot(tag)) && final(self)@
                    == old(self)@ && final(self).wf(),
                Some(v) => {
                    &&& old(self)@.storage.contains_key(old(self)@.slot(tag))
                    &&& (*v)@ == old(self)@.storage[old(self)@.slot(tag)]
                    &&& final(self)@ == (CtxModel {
                        storage: old(self)@.storage.insert(old(self)@.slot(tag), (*final(v))@),
                        ..old(self)@
                    })
                    &&& ((*final(v))@.tag() == tag ==> final(self).wf())
                },
            },
    {
        match self.position(StoreKey::Tagged(tag)) {
            Some(i) => {
                proof {
                    lemma_smap_index(self.entries@, i as int);
                }
                let ghost s0 = self.entries@;
                proof {
                    let ki = ekey(s0[i as int]);
                    assert forall|e1: StorageEntry| ekey(e1) == ki implies {
                        &&& smap(#[trigger] s0.update(i as int, e1)) == smap(s0).insert(
                            ki,
                            e1.value@,
                        )
                        &&& (entry_ok(e1) ==> entries_wf(s0.update(i as int, e1)))
                    } by {
                        lemma_smap_update(s0, i as int, e1);
                        let s1 = s0.update(i as int, e1);
                        assert forall|x: int, y: int| 0 <= x < y < s1.len() implies ekey(s1[x])
                            != ekey(s1[y]) by {
                            assert(ekey(s1[x]) == ekey(s0[x]));
                            assert(ekey(s1[y]) == ekey(s0[y]));
                        }
                        if entry_ok(e1) {
                            assert forall|x: int| 0 <= x < s1.len() implies entry_ok(
                                #[trigger] s1[x],
                            ) by {
                                if x != i {
                                    assert(s1[x] == s0[x]);
                                }
                            }
                        }
                    }
                }
                let r = &mut self.entries[i].value;
                Some(r)
            },
            None => None,
        }
    }

    /// Stores `value` under the current owner and the value's own tag,
    /// returning the value previously in that slot, if any.
    pub fn insert(&mut self, value: Value) -> (r: Option<Value>)
        requires
            old(self).wf(),
        ensures
            final(self).wf(),
            final(self)@ == old(self)@.store(value@),
            match r {
                Some(prev) => old(self)@.storage.contains_key(old(self)@.slot(value@.tag()))
                    && prev@ == old(self)@.storage[old(self)@.slot(value@.tag())],
                None => !old(self)@.storage.contains_key(old(self)@.slot(value@.tag())),
            },
    {
        let tag = value_tag(&value);
        let prev = self.remove_slot(StoreKey::Tagged(tag));
        self.push_slot(StoreKey::Tagged(tag), value);
        prev
    }

    /// Removes and returns the value of tag `tag` stored for the current
    /// owner, if one exists.
    pub fn remove(&mut self, tag: ValueTag) -> (r: Option<Value>)
        requires
            old(self).wf(),
        ensures
            final(self).wf(),
            final(self)@ == (CtxModel {
                storage: old(self)@.storage.remove(old(self)@.slot(tag)),
                ..old(self)@
            }),
            match r {
                Some(prev) => old(self)@.storage.contains_key(old(self)@.slot(tag)) && prev@
                    == old(self)@.storage[old(self)@.slot(tag)] && prev@.tag() == tag,
                None => !old(self)@.storage.contains_key(old(self)@.slot(tag)),
            },
    {
        self.remove_slot(StoreKey::Tagged(tag))
    }

    /// Removes the slot `(self.owner, key)` if occupied, returning its value.
    fn remove_slot(&mut self, key: StoreKey) -> (r: Option<Value>)
        requires
            old(self).wf(),
        ensures
            final(self).wf(),
            final(self)@ == (CtxModel {
                storage: old(self)@.storage.remove((old(self)@.owner, key)),
                ..old(self)@
            }),
            match r {
                Some(prev) => old(self)@.storage.contains_key((old(self)@.owner, key)) && prev@
                    == old(self)@.storage[(old(self)@.owner, key)] && match key {
                    StoreKey::Counter => prev@ is Int,
                    StoreKey::Tagged(t) => prev@.tag() == t,
                },
                None => !old(self)@.storage.contains_key((old(self)@.owner, key)),
            },
    {
        match self.position(key) {
            Some(i) => {
                proof {
                    lemma_smap_index(self.entries@, i as int);
                    lemma_smap_remove(self.entries@, i as int);
                    let s0 = self.entries@;
                    assert forall|x: int, y: int|
                        0 <= x < y < s0.remove(i as int).len() implies ekey(
                        s0.remove(i as int)[x],
                    ) != ekey(s0.remove(i as int)[y]) by {
                        assert(s0.remove(i as int)[x] == if x < i { s0[x] } else { s0[x + 1] });
                        assert(s0.remove(i as int)[y] == if y < i { s0[y] } else { s0[y + 1] });
                    }
                    assert forall|x: int| 0 <= x < s0.remove(i as int).len() implies entry_ok(
                        #[trigger] s0.remove(i as int)[x],
                    ) by {
                        assert(s0.remove(i as int)[x] == if x < i { s0[x] } else { s0[x + 1] });
                    }
                }
                let e = self.entries.remove(i);
                proof {
                    assert(self.body.deep_view() =~= old(self).body.deep_view());
                    assert(self.appendix.deep_view() =~= old(self).appendix.deep_view());
                }
                Some(e.value)
            },
            None => {
                proof {
                    assert(old(self)@.storage.remove((old(self)@.owner, key)) =~= old(
                        self,
                    )@.storage);
                }
                None
            },
        }
    }

    /// Fills the slot `(self.owner, key)`, which must be empty, with `value`.
    fn push_slot(&mut self, key: StoreKey, value: Value)
        requires
            old(self).wf(),
            !old(self)@.storage.contains_key((old(self)@.owner, key)),
            match key {
                StoreKey::Counter => value@ is Int,
                StoreKey::Tagged(t) => value@.tag() == t,
            },
        ensures
            final(self).wf(),
            final(self)@ == (CtxModel {
                storage: old(self)@.storage.insert((old(self)@.owner, key), value@),
                ..old(self)@
            }),
    {
        let ghost s0 = self.entries@;
        let ghost k = (self.owner, key);
        proof {
            lemma_smap_contains(s0, k);
        }
        let e = StorageEntry { owner: self.owner, key, value };
        self.entries.push(e);
        proof {
            let s1 = self.entries@;
            assert(s1.drop_last() =~= s0);
            assert(s1.last() == e);
            assert(smap(s1) =~= smap(s0).insert(k, e.value@));
            assert forall|x: int, y: int| 0 <= x < y < s1.len() implies ekey(s1[x]) != ekey(
                s1[y],
            ) by {
                if y < s1.len() - 1 {
                    assert(s1[x] == s0[x] && s1[y] == s0[y]);
                } else {
                    assert(s1[x] == s0[x]);
                    assert(ekey(s0[x]) != k);
                }
            }
            assert forall|x: int| 0 <= x < s1.len() implies entry_ok(#[trigger] s1[x]) by {
                if x < s1.len() - 1 {
                    assert(s1[x] == s0[x]);
                }
            }
        }
    }

    /// Reads the current owner's private counter, initializing it to `0` if
    /// absent; otherwise increments it first and returns the new value, so a
    /// fresh context yields `0, 1, 2, …`. Saturates at the largest value.
    pub fn increment_counter(&mut self) -> (r: i64)
        requires
            old(self).wf(),
        ensures
            final(self).wf(),
            r == old(self)@.counter_after_increment(),
            final(self)@ == old(self)@.increment(),
    {
        let cur = self.remove_slot(StoreKey::Counter);
        let next: i64 = match cur {
            None => 0,
            Some(Value::Int(c)) => if c < i64::MAX {
                c + 1
            } else {
                c
            },
            Some(_) => {
                proof {
                    assert(false);
                }
                0
            },
        };
        self.push_slot(StoreKey::Counter, Value::Int(next));
        proof {
            assert(final(self)@ =~= old(self)@.increment());
        }
        next
    }

    /// Reads the current owner's private counter, initializing it to `-1` if
    /// absent; otherwise decrements it first and returns the new value, so a
    /// fresh context yields `-1, -2, -3, …` — deliberately offset from the
    /// increment baseline, since `-1` is what decrementing the implicit
    /// default `0` gives. Saturates at the smallest value.
    pub fn decrement_counter(&mut self) -> (r: i64)
        requires
            old(self).wf(),
        ensures
            final(self).wf(),
            r == old(self)@.counter_after_decrement(),
            final(self)@ == old(self)@.decrement(),
    {
        let cur = self.remove_slot(StoreKey::Counter);
        let next: i64 = match cur {
            None => -1,
            Some(Value::Int(c)) => if c > i64::MIN {
                c - 1
            } else {
                c
            },
            Some(_) => {
                proof {
                    assert(false);
                }
                0
            },
        };
        self.push_slot(StoreKey::Counter, Value::Int(next));
        proof {
            assert(final(self)@ =~= old(self)@.decrement());
        }
        next
    }
}

/// Storing a value and then reading its tag yields that value back; removing
/// it afterwards yields it once more and leaves the slot empty. This is the
/// round trip that [`HookContext::insert`], [`HookContext::get`] and
/// [`HookContext::remove`] promise through their contracts.
pub proof fn lemma_store_round_trip(c: CtxModel, v: ValueModel)
    ensures
        c.store(v).storage.contains_key(c.slot(v.tag())),
        c.store(v).storage[c.slot(v.tag())] == v,
        !c.store(v).storage.remove(c.slot(v.tag())).contains_key(c.slot(v.tag())),
{
}

/// A fresh context counts `0, 1, 2, …` under increment, and `-1, -2, -3, …`
/// under decrement: the two baselines are deliberately asymmetric, since
/// decrementing the implicit default `0` gives `-1`.
pub proof fn lemma_fresh_counter_sequence(c: CtxModel)
    requires
        !c.storage.contains_key(c.counter_slot()),
    ensures
        c.counter_after_increment() == 0,
        c.increment().counter_after_increment() == 1,
        c.increment().increment().counter_after_increment() == 2,
        c.counter_after_decrement() == -1,
        c.decrement().counter_after_decrement() == -2,
        c.decrement().decrement().counter_after_decrement() == -3,
{
}

/// Relabelling a context is pure re-labelling of the owner key: a value
/// stored after casting to owner `u` is visible under `(u, its tag)` from any
/// handle to the same context, whatever owner relabellings happen in between,
/// and neither the body nor the appendix nor any other stored value moves.
pub proof fn lemma_cast_shares_storage(c: CtxModel, u: TypeKey, w: TypeKey, v: ValueModel)
    ensures
        ({
            let stored = c.with_owner(u).store(v);
            let back = stored.with_owner(w).with_owner(u);
            &&& back.storage.contains_key((u, StoreKey::Tagged(v.tag())))
            &&& back.storage[(u, StoreKey::Tagged(v.tag()))] == v
            &&& back.body == c.body
            &&& back.appendix == c.appendix
            &&& forall|k: (TypeKey, StoreKey)|
                k != (u, StoreKey::Tagged(v.tag())) ==> #[trigger] back.storage.contains_key(k)
                    == c.storage.contains_key(k) && (c.storage.contains_key(k)
                    ==> back.storage[k] == c.storage[k])
        }),
{
}

} // verus!
