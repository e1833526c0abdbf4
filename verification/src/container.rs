//! The flat dependency-injection container and its builder.
//!
//! Providers, metadata and request-scoped factories are stored by key. The value
//! type `V` is the shared handle the application stores (a type-erased `Arc`), `S`
//! a request-scoped factory, `F` a queued async factory; the container's rules do
//! not depend on what they hold.

use std::collections::{HashMap, HashSet};

use vstd::prelude::*;

use crate::TypeKey;

verus! {

broadcast use vstd::std_specs::hash::group_hash_axioms;

/// A piece of metadata attached to a provider, or free-standing when no host is
/// recorded.
#[derive(Clone)]
pub struct MetaEntry<V> {
    pub provider_type_id: Option<TypeKey>,
    pub meta: V,
}

/// The assembled container: providers by key, the metadata index (entries of one
/// metadata key in registration order), and the request-scoped factories.
pub struct Container<V, S> {
    providers: HashMap<TypeKey, V>,
    metadata: HashMap<TypeKey, Vec<MetaEntry<V>>>,
    scoped: HashMap<TypeKey, S>,
}

/// The metadata entries stored under each key, as sequences.
pub open spec fn meta_view<V>(m: Map<TypeKey, Vec<MetaEntry<V>>>) -> Map<TypeKey, Seq<MetaEntry<V>>> {
    m.map_values(|v: Vec<MetaEntry<V>>| v@)
}

/// The entries stored under `key`, or none.
pub open spec fn entries_at<V>(m: Map<TypeKey, Seq<MetaEntry<V>>>, key: TypeKey) -> Seq<MetaEntry<V>> {
    if m.contains_key(key) {
        m[key]
    } else {
        Seq::empty()
    }
}

impl<V, S> Container<V, S> {
    /// Registered providers by key.
    pub closed spec fn providers(&self) -> Map<TypeKey, V> {
        self.providers@
    }

    /// The metadata index.
    pub closed spec fn metadata(&self) -> Map<TypeKey, Seq<MetaEntry<V>>> {
        meta_view(self.metadata@)
    }

    /// The request-scoped factories by key.
    pub closed spec fn scoped(&self) -> Map<TypeKey, S> {
        self.scoped@
    }

    /// Start an empty builder.
    pub fn builder<F>() -> (b: ContainerBuilder<V, S, F>)
        ensures
            b.providers() == Map::<TypeKey, V>::empty(),
            b.metadata() == Map::<TypeKey, Seq<MetaEntry<V>>>::empty(),
            b.scoped() == Map::<TypeKey, S>::empty(),
            b.registered_modules() == Set::<TypeKey>::empty(),
            b.collected_modules() == Set::<TypeKey>::empty(),
            b.factories() == Seq::<(TypeKey, F)>::empty(),
    {
        let b = ContainerBuilder {
            providers: HashMap::new(),
            metadata: HashMap::new(),
            registered_modules: HashSet::new(),
            collected_modules: HashSet::new(),
            factories: Vec::new(),
            scoped: HashMap::new(),
        };
        assert(meta_view(b.metadata@) =~= Map::<TypeKey, Seq<MetaEntry<V>>>::empty());
        b
    }

    /// Resolve the provider registered under `key`; `None` if there is none. An
    /// unchecked escape hatch: it bypasses the access contract.
    pub fn get(&self, key: TypeKey) -> (r: Option<&V>)
        ensures
            match r {
                Some(v) => self.providers().contains_key(key) && *v == self.providers()[key],
                None => !self.providers().contains_key(key),
            },
    {
        self.providers.get(&key)
    }

    /// Resolve a trait-object provider registered with `provide_dyn` under the key of
    /// its shared handle. Like `get`, an unchecked escape hatch.
    pub fn get_dyn(&self, key: TypeKey) -> (r: Option<&V>)
        ensures
            match r {
                Some(v) => self.providers().contains_key(key) && *v == self.providers()[key],
                None => !self.providers().contains_key(key),
            },
    {
        self.providers.get(&key)
    }

    /// The metadata entries registered under `key`, in registration order.
    pub fn metadata_entries(&self, key: TypeKey) -> (r: Option<&Vec<MetaEntry<V>>>)
        ensures
            match r {
                Some(v) => self.metadata().contains_key(key) && v@ == self.metadata()[key],
                None => !self.metadata().contains_key(key),
            },
    {
        self.metadata.get(&key)
    }

    /// The request-scoped factory registered under `key`, if any.
    pub fn scoped_factory(&self, key: TypeKey) -> (r: Option<&S>)
        ensures
            match r {
                Some(f) => self.scoped().contains_key(key) && *f == self.scoped()[key],
                None => !self.scoped().contains_key(key),
            },
    {
        self.scoped.get(&key)
    }
}

/// Collects providers, metadata and factories before the container is built.
pub struct ContainerBuilder<V, S, F> {
    providers: HashMap<TypeKey, V>,
    metadata: HashMap<TypeKey, Vec<MetaEntry<V>>>,
    /// Modules already registered through this builder, so a module imported via
    /// several paths registers once.
    registered_modules: HashSet<TypeKey>,
    /// Modules already visited in the collect phase.
    collected_modules: HashSet<TypeKey>,
    /// Queued async factories, each with the key of the provider it produces.
    factories: Vec<(TypeKey, F)>,
    scoped: HashMap<TypeKey, S>,
}

impl<V, S, F> ContainerBuilder<V, S, F> {
    pub closed spec fn providers(&self) -> Map<TypeKey, V> {
        self.providers@
    }

    pub closed spec fn metadata(&self) -> Map<TypeKey, Seq<MetaEntry<V>>> {
        meta_view(self.metadata@)
    }

    pub closed spec fn scoped(&self) -> Map<TypeKey, S> {
        self.scoped@
    }

    pub closed spec fn registered_modules(&self) -> Set<TypeKey> {
        self.registered_modules@
    }

    pub closed spec fn collected_modules(&self) -> Set<TypeKey> {
        self.collected_modules@
    }

    pub closed spec fn factories(&self) -> Seq<(TypeKey, F)> {
        self.factories@
    }

    /// Register a value under `key`; a later registration of the same key replaces it.
    pub fn provide(self, key: TypeKey, value: V) -> (b: Self)
        ensures
            b.providers() == self.providers().insert(key, value),
            b.metadata() == self.metadata(),
            b.scoped() == self.scoped(),
            b.registered_modules() == self.registered_modules(),
            b.collected_modules() == self.collected_modules(),
            b.factories() == self.factories(),
    {
        let mut b = self;
        b.providers.insert(key, value);
        b
    }

    /// Register an already-shared handle under `key`, so the same instance is reused.
    pub fn provide_arc(self, key: TypeKey, value: V) -> (b: Self)
        ensures
            b.providers() == self.providers().insert(key, value),
            b.metadata() == self.metadata(),
            b.scoped() == self.scoped(),
            b.registered_modules() == self.registered_modules(),
            b.collected_modules() == self.collected_modules(),
            b.factories() == self.factories(),
    {
        let mut b = self;
        b.providers.insert(key, value);
        b
    }

    /// Replace the provider under `key`: the deliberate counterpart of `provide`,
    /// used by overrides.
    pub fn replace(self, key: TypeKey, value: V) -> (b: Self)
        ensures
            b.providers() == self.providers().insert(key, value),
            b.metadata() == self.metadata(),
            b.scoped() == self.scoped(),
            b.registered_modules() == self.registered_modules(),
            b.collected_modules() == self.collected_modules(),
            b.factories() == self.factories(),
    {
        let mut b = self;
        b.providers.insert(key, value);
        b
    }

    /// Register a trait-object binding under the key of its shared handle. The last
    /// binding wins: that is its documented override mechanism.
    pub fn provide_dyn(self, key: TypeKey, value: V) -> (b: Self)
        ensures
            b.providers() == self.providers().insert(key, value),
            b.metadata() == self.metadata(),
            b.scoped() == self.scoped(),
            b.registered_modules() == self.registered_modules(),
            b.collected_modules() == self.collected_modules(),
            b.factories() == self.factories(),
    {
        let mut b = self;
        b.providers.insert(key, value);
        b
    }

    fn push_meta(self, meta_key: TypeKey, entry: MetaEntry<V>) -> (b: Self)
        ensures
            b.metadata() == self.metadata().insert(
                meta_key,
                entries_at(self.metadata(), meta_key).push(entry),
            ),
            b.providers() == self.providers(),
            b.scoped() == self.scoped(),
            b.registered_modules() == self.registered_modules(),
            b.collected_modules() == self.collected_modules(),
            b.factories() == self.factories(),
    {
        let mut b = self;
        let ghost old_meta = b.metadata@;
        let mut entries = match b.metadata.remove(&meta_key) {
            Some(v) => v,
            None => Vec::new(),
        };
        assert(entries@ == entries_at(meta_view(old_meta), meta_key));
        entries.push(entry);
        b.metadata.insert(meta_key, entries);
        assert(meta_view(b.metadata@) =~= meta_view(old_meta).insert(
            meta_key,
            entries_at(meta_view(old_meta), meta_key).push(entry),
        ));
        b
    }

    /// Attach metadata `meta`, stored under `meta_key`, to the provider `host`.
    /// Entries of one key keep their registration order.
    pub fn attach_meta(self, host: TypeKey, meta_key: TypeKey, meta: V) -> (b: Self)
        ensures
            b.metadata() == self.metadata().insert(
                meta_key,
                entries_at(self.metadata(), meta_key).push(
                    MetaEntry { provider_type_id: Some(host), meta },
                ),
            ),
            b.providers() == self.providers(),
            b.scoped() == self.scoped(),
            b.registered_modules() == self.registered_modules(),
            b.collected_modules() == self.collected_modules(),
            b.factories() == self.factories(),
    {
        self.push_meta(meta_key, MetaEntry { provider_type_id: Some(host), meta })
    }

    /// Attach metadata not bound to any provider.
    pub fn provide_meta(self, meta_key: TypeKey, meta: V) -> (b: Self)
        ensures
            b.metadata() == self.metadata().insert(
                meta_key,
                entries_at(self.metadata(), meta_key).push(
                    MetaEntry { provider_type_id: None, meta },
                ),
            ),
            b.providers() == self.providers(),
            b.scoped() == self.scoped(),
            b.registered_modules() == self.registered_modules(),
            b.collected_modules() == self.collected_modules(),
            b.factories() == self.factories(),
    {
        self.push_meta(meta_key, MetaEntry { provider_type_id: None, meta })
    }

    /// Whether a provider for `key` has already been registered.
    pub fn contains(&self, key: TypeKey) -> (b: bool)
        ensures
            b == self.providers().contains_key(key),
    {
        self.providers.contains_key(&key)
    }

    /// Record that module `key` is being registered: `true` the first time, `false`
    /// thereafter.
    pub fn mark_registered(&mut self, key: TypeKey) -> (first: bool)
        ensures
            first == !old(self).registered_modules().contains(key),
            final(self).registered_modules() == old(self).registered_modules().insert(key),
            final(self).providers() == old(self).providers(),
            final(self).metadata() == old(self).metadata(),
            final(self).scoped() == old(self).scoped(),
            final(self).collected_modules() == old(self).collected_modules(),
            final(self).factories() == old(self).factories(),
    {
        self.registered_modules.insert(key)
    }

    /// The collect-phase counterpart of `mark_registered`.
    pub fn mark_collected(&mut self, key: TypeKey) -> (first: bool)
        ensures
            first == !old(self).collected_modules().contains(key),
            final(self).collected_modules() == old(self).collected_modules().insert(key),
            final(self).providers() == old(self).providers(),
            final(self).metadata() == old(self).metadata(),
            final(self).scoped() == old(self).scoped(),
            final(self).registered_modules() == old(self).registered_modules(),
            final(self).factories() == old(self).factories(),
    {
        self.collected_modules.insert(key)
    }

    /// Queue an async factory producing the provider under `key`.
    pub fn provide_factory(self, key: TypeKey, factory: F) -> (b: Self)
        ensures
            b.factories() == self.factories().push((key, factory)),
            b.providers() == self.providers(),
            b.metadata() == self.metadata(),
            b.scoped() == self.scoped(),
            b.registered_modules() == self.registered_modules(),
            b.collected_modules() == self.collected_modules(),
    {
        let mut b = self;
        b.factories.push((key, factory));
        b
    }

    /// Register a request-scoped factory under `key`; a later one replaces it.
    pub fn provide_scoped(self, key: TypeKey, factory: S) -> (b: Self)
        ensures
            b.scoped() == self.scoped().insert(key, factory),
            b.providers() == self.providers(),
            b.metadata() == self.metadata(),
            b.registered_modules() == self.registered_modules(),
            b.collected_modules() == self.collected_modules(),
            b.factories() == self.factories(),
    {
        let mut b = self;
        b.scoped.insert(key, factory);
        b
    }

    /// Drain the queued factories, in the order they were queued.
    pub fn take_factories(&mut self) -> (fs: Vec<(TypeKey, F)>)
        ensures
            fs@ == old(self).factories(),
            final(self).factories() == Seq::<(TypeKey, F)>::empty(),
            final(self).providers() == old(self).providers(),
            final(self).metadata() == old(self).metadata(),
            final(self).scoped() == old(self).scoped(),
            final(self).registered_modules() == old(self).registered_modules(),
            final(self).collected_modules() == old(self).collected_modules(),
    {
        let mut drained: Vec<(TypeKey, F)> = Vec::new();
        std::mem::swap(&mut self.factories, &mut drained);
        drained
    }

    /// Every provider key registered so far.
    pub fn provider_ids(&self) -> (ids: HashSet<TypeKey>)
        ensures
            ids@ == self.providers().dom(),
    {
        let mut ids: HashSet<TypeKey> = HashSet::new();
        let ghost keys_seq = vstd::std_specs::iter::IteratorSpec::remaining(&vstd::std_specs::hash::spec_keys_iter(&self.providers));
        for k in iter: self.providers.keys()
            invariant
                iter.seq() == keys_seq,
                ids@ == iter.seq().take(iter.index() as int).map_values(|r: &TypeKey| *r).to_set(),
        {
            proof {
                let s = iter.seq();
                let i = iter.index() as int;
                assert(s.take(i + 1).map_values(|r: &TypeKey| *r) =~= s.take(i).map_values(
                    |r: &TypeKey| *r,
                ).push(*k));
                s.take(i).map_values(|r: &TypeKey| *r).lemma_push_to_set_commute(*k);
            }
            ids.insert(*k);
        }
        proof {
            assert(keys_seq.take(keys_seq.len() as int) =~= keys_seq);
            assert(keys_seq.map_values(|r: &TypeKey| *r) =~= keys_seq.unref());
        }
        ids
    }

    /// The assembled container.
    pub fn build(self) -> (c: Container<V, S>)
        ensures
            c.providers() == self.providers(),
            c.metadata() == self.metadata(),
            c.scoped() == self.scoped(),
    {
        Container { providers: self.providers, metadata: self.metadata, scoped: self.scoped }
    }
}

impl<V: Clone, S: Clone> Clone for Container<V, S> {
    /// A container sharing this one's providers, metadata and request-scoped
    /// factories: cheap when they are shared handles.
    fn clone(&self) -> (c: Self)
        ensures
            c.providers() == self.providers(),
            c.metadata() == self.metadata(),
            c.scoped() == self.scoped(),
    {
        Container {
            providers: self.providers.clone(),
            metadata: self.metadata.clone(),
            scoped: self.scoped.clone(),
        }
    }
}

impl<V: Clone, S: Clone, F> ContainerBuilder<V, S, F> {
    /// A container holding what has been registered so far, while the builder stays
    /// under construction.
    pub fn snapshot(&self) -> (c: Container<V, S>)
        ensures
            c.providers() == self.providers(),
            c.metadata() == self.metadata(),
            c.scoped() == self.scoped(),
    {
        Container {
            providers: self.providers.clone(),
            metadata: self.metadata.clone(),
            scoped: self.scoped.clone(),
        }
    }
}


/// The last registration under a key wins: registering twice under `key` leaves
/// the second value.
pub proof fn lemma_last_registration_wins<V>(providers: Map<TypeKey, V>, key: TypeKey, first: V, second: V)
    ensures
        providers.insert(key, first).insert(key, second)[key] == second,
        providers.insert(key, first).insert(key, second).contains_key(key),
{
}

/// Registering under one key leaves every other key's provider as it was.
pub proof fn lemma_registration_is_local<V>(providers: Map<TypeKey, V>, key: TypeKey, value: V, other: TypeKey)
    requires
        other != key,
    ensures
        providers.insert(key, value).contains_key(other) == providers.contains_key(other),
        providers.contains_key(other) ==> providers.insert(key, value)[other] == providers[other],
{
}

/// Marking a module registered is true once, then false: after the first mark the
/// module is in the set, so a second mark reports it was already there.
pub proof fn lemma_marked_once(registered: Set<TypeKey>, key: TypeKey)
    ensures
        registered.insert(key).contains(key),
        registered.insert(key).insert(key) == registered.insert(key),
{
    assert(registered.insert(key).insert(key) =~= registered.insert(key));
}


/// The metadata index after one builder call: `add` names the entry the call
/// appended and the key it went under (`attach_meta`, `provide_meta`); `None` for a
/// call that leaves the metadata as it was.
pub open spec fn meta_step<V>(
    before: Map<TypeKey, Seq<MetaEntry<V>>>,
    add: Option<(TypeKey, MetaEntry<V>)>,
) -> Map<TypeKey, Seq<MetaEntry<V>>> {
    match add {
        Some(ke) => before.insert(ke.0, entries_at(before, ke.0).push(ke.1)),
        None => before,
    }
}

/// The entries a run of calls appended under `key`, in call order.
pub open spec fn added_under<V>(adds: Seq<Option<(TypeKey, MetaEntry<V>)>>, key: TypeKey) -> Seq<MetaEntry<V>>
    decreases adds.len(),
{
    if adds.len() == 0 {
        Seq::empty()
    } else {
        let rest = added_under(adds.drop_last(), key);
        match adds.last() {
            Some(ke) => if ke.0 == key {
                rest.push(ke.1)
            } else {
                rest
            },
            None => rest,
        }
    }
}

/// Metadata accumulates in call order: over any run of builder calls, the entries
/// under `key` are those present at the start followed by each one a call appended
/// under `key`, in order; calls under other keys, and calls that add no metadata,
/// leave them as they were.
pub proof fn lemma_metadata_accumulates<V>(
    indexes: Seq<Map<TypeKey, Seq<MetaEntry<V>>>>,
    adds: Seq<Option<(TypeKey, MetaEntry<V>)>>,
    key: TypeKey,
)
    requires
        indexes.len() == adds.len() + 1,
        forall|i: int| 0 <= i < adds.len() ==> indexes[i + 1] == meta_step(indexes[i], #[trigger] adds[i]),
    ensures
        entries_at(indexes.last(), key) == entries_at(indexes[0], key) + added_under(adds, key),
    decreases adds.len(),
{
    if adds.len() == 0 {
        assert(entries_at(indexes[0], key) + Seq::<MetaEntry<V>>::empty() =~= entries_at(indexes[0], key));
    } else {
        let n = adds.len() - 1;
        let ins = indexes.drop_last();
        let ads = adds.drop_last();
        assert forall|i: int| 0 <= i < ads.len() implies ins[i + 1] == meta_step(ins[i], #[trigger] ads[i]) by {
            assert(ads[i] == adds[i]);
        }
        lemma_metadata_accumulates(ins, ads, key);
        assert(ins.last() == indexes[n]);
        assert(indexes.last() == meta_step(indexes[n], adds[n]));
        let prev = entries_at(indexes[n], key);
        match adds[n] {
            Some(ke) => {
                if ke.0 == key {
                    assert(entries_at(indexes.last(), key) == prev.push(ke.1));
                    assert(prev.push(ke.1) =~= entries_at(indexes[0], key) + added_under(ads, key).push(ke.1));
                } else {
                    assert(entries_at(indexes.last(), key) == prev);
                }
            },
            None => {},
        }
    }
}

} // verus!
