//! Per-request resolution for request-scoped providers.
//!
//! A request scope lazily builds each request-scoped provider once and caches it for
//! the rest of the request; anything that is not request-scoped falls through to
//! the singleton container.

use std::collections::HashMap;

use vstd::prelude::*;

use crate::container::Container;
use crate::TypeKey;

verus! {

broadcast use vstd::std_specs::hash::group_hash_axioms;

/// A request-scoped factory: builds a fresh value from the singleton container.
pub trait ScopedBuild<V, S> {
    /// The value this factory builds over the singleton container `root`.
    spec fn built(&self, root: Container<V, S>) -> V;

    fn build(&self, root: &Container<V, S>) -> (v: V)
        ensures
            v == self.built(*root),
    ;
}

/// A request-scoped resolution layer over the singleton container. Cheap to create
/// (an empty cache); built once per request by the serving transport.
pub struct RequestScope<V, S> {
    root: Container<V, S>,
    cache: HashMap<TypeKey, V>,
}

impl<V, S> RequestScope<V, S> {
    /// The singleton container this scope layers over.
    pub closed spec fn root_view(&self) -> Container<V, S> {
        self.root
    }

    /// The request-scoped values built so far in this scope.
    pub closed spec fn cache(&self) -> Map<TypeKey, V> {
        self.cache@
    }

    /// Open a fresh scope over the singleton container — one per request.
    pub fn new(root: Container<V, S>) -> (s: Self)
        ensures
            s.root_view() == root,
            s.cache() == Map::<TypeKey, V>::empty(),
    {
        RequestScope { root, cache: HashMap::new() }
    }

    /// The singleton container this scope layers over.
    pub fn root(&self) -> (r: &Container<V, S>)
        ensures
            *r == self.root_view(),
    {
        &self.root
    }
}

/// What `get` promises: a request-scoped key is served from the cache, filled once
/// with its factory's build over the scope's root; any other key falls through to
/// the singleton providers.
pub open spec fn scope_get_post<V: Clone, S: ScopedBuild<V, S>>(
    before: RequestScope<V, S>,
    after: RequestScope<V, S>,
    key: TypeKey,
    r: Option<V>,
) -> bool {
    &&& after.root_view() == before.root_view()
    &&& if before.root_view().scoped().contains_key(key) {
        &&& after.cache().contains_key(key)
        &&& before.cache().contains_key(key) ==> after.cache() == before.cache()
        &&& !before.cache().contains_key(key) ==> after.cache() == before.cache().insert(
            key,
            before.root_view().scoped()[key].built(before.root_view()),
        )
        &&& r matches Some(v) && cloned(after.cache()[key], v)
    } else {
        &&& after.cache() == before.cache()
        &&& r is Some <==> before.root_view().providers().contains_key(key)
        &&& r matches Some(v) ==> cloned(before.root_view().providers()[key], v)
    }
}

impl<V: Clone, S: ScopedBuild<V, S>> RequestScope<V, S> {
    /// Resolve `key`. A request-scoped provider is built once and cached for this
    /// scope; anything else falls through to the singleton container. `None` when no
    /// provider (scoped or singleton) is registered under `key`.
    pub fn get(&mut self, key: TypeKey) -> (r: Option<V>)
        ensures
            scope_get_post(*old(self), *final(self), key, r),
    {
        match self.root.scoped_factory(key) {
            Some(factory) => {
                match self.cache.get(&key) {
                    Some(v) => Some(v.clone()),
                    None => {
                        let v = factory.build(&self.root);
                        let out = v.clone();
                        self.cache.insert(key, v);
                        Some(out)
                    },
                }
            },
            None => {
                match self.root.get(key) {
                    Some(v) => Some(v.clone()),
                    None => None,
                }
            },
        }
    }
}

/// A request-scoped provider is built at most once per scope, by its factory over
/// the scope's root: a second resolution of the same key leaves the cache as the
/// first left it and hands out a clone of the same cached instance.
pub proof fn lemma_scoped_built_once<V: Clone, S: ScopedBuild<V, S>>(
    s0: RequestScope<V, S>,
    s1: RequestScope<V, S>,
    s2: RequestScope<V, S>,
    key: TypeKey,
    r1: Option<V>,
    r2: Option<V>,
)
    requires
        s0.root_view().scoped().contains_key(key),
        scope_get_post(s0, s1, key, r1),
        scope_get_post(s1, s2, key, r2),
    ensures
        !s0.cache().contains_key(key) ==> s1.cache()[key] == s0.root_view().scoped()[key].built(s0.root_view()),
        s2.cache() == s1.cache(),
        r1 matches Some(v1) && cloned(s1.cache()[key], v1),
        r2 matches Some(v2) && cloned(s1.cache()[key], v2),
{
}

} // verus!
