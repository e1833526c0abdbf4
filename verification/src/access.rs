//! Boot-time validation of the module import graph (the access contract).
//!
//! The container is flat: any provider can resolve any other provider that is
//! registered. This pass turns `#[module(imports = [...])]` into an enforced
//! contract: every provider's dependency must be provided by its own module, by a
//! module in its transitive import closure, or by the global set (seeds and
//! factory outputs). Resolvers join the contract by being listed in the providers
//! of a module reachable from the application root.

use std::collections::HashSet;

use vstd::prelude::*;

use crate::graph::{
    contains_key, find_descriptor, lemma_descriptor_index_bounds, module_provides, provides_key,
    reachable, reachable_from, some_module_provides, ModuleDescriptor, descriptor_index,
};
use crate::TypeKey;

verus! {

broadcast use vstd::std_specs::hash::group_hash_axioms;

/// One `#[resolver]` linked into the binary: its key and its name.
pub struct ResolverDescriptor {
    /// The resolver's key — must match a provider key of some module reachable
    /// from the application root.
    pub resolver: TypeKey,
    /// The resolver name, for diagnostics.
    pub name: String,
}

/// A provider depends on something its module does not import and that is not
/// global infrastructure.
pub struct AccessGraphError {
    /// The module whose import list is incomplete.
    pub module: String,
    /// The provider declaring the offending dependency.
    pub consumer: String,
    /// The dependency that is out of reach.
    pub dependency: String,
    /// The module that provides the dependency and should be imported.
    pub owner: String,
}

/// A resolver is linked into the binary but listed in no module reachable from the
/// application root.
pub struct ResolverMembershipError {
    /// The resolver missing from every reachable module's providers.
    pub resolver: String,
}

/// Some module reachable from `m` (itself included) provides `key`.
pub open spec fn closure_provides(ds: Seq<ModuleDescriptor>, m: TypeKey, key: TypeKey) -> bool {
    exists|m2: TypeKey| #[trigger] reachable_from(ds, seq![m], m2) && module_provides(ds, m2, key)
}

/// `(oi, oj)` is the first provider, in descriptor order and then provider order,
/// registering under `key`: the binding named in a violation.
pub open spec fn is_first_binding(ds: Seq<ModuleDescriptor>, key: TypeKey, oi: int, oj: int) -> bool {
    &&& 0 <= oi < ds.len()
    &&& 0 <= oj < ds[oi].providers@.len()
    &&& ds[oi].providers@[oj].provides == key
    &&& forall|i: int, j: int|
        0 <= i < ds.len() && 0 <= j < ds[i].providers@.len() && (i < oi || (i == oi && j < oj))
            ==> (#[trigger] ds[i].providers@[j]).provides != key
}

/// Some module, reachable or not, provides `key`.
pub open spec fn provided_anywhere(ds: Seq<ModuleDescriptor>, key: TypeKey) -> bool {
    exists|i: int| 0 <= i < ds.len() && provides_key(#[trigger] ds[i], key)
}

/// The `k`-th dependency of provider `j` of the module that stands for `m`.
pub open spec fn dependency_at(ds: Seq<ModuleDescriptor>, m: TypeKey, j: int, k: int) -> TypeKey {
    ds[descriptor_index(ds, m)].providers@[j].injects@[k]
}

/// Module `m` is reachable from the roots, its provider `j` declares dependency `k`,
/// and that dependency is neither global nor provided within `m`'s import closure,
/// yet some module provides it.
pub open spec fn is_violation(
    ds: Seq<ModuleDescriptor>,
    roots: Seq<TypeKey>,
    global: Set<TypeKey>,
    m: TypeKey,
    j: int,
    k: int,
) -> bool {
    let i = descriptor_index(ds, m);
    &&& reachable_from(ds, roots, m)
    &&& i >= 0
    &&& 0 <= j < ds[i].providers@.len()
    &&& 0 <= k < ds[i].providers@[j].injects@.len()
    &&& !global.contains(dependency_at(ds, m, j, k))
    &&& !closure_provides(ds, m, dependency_at(ds, m, j, k))
    &&& provided_anywhere(ds, dependency_at(ds, m, j, k))
}

/// The error names the violating module and consumer, and the first binding of the
/// dependency with its owning module.
pub open spec fn error_describes(
    ds: Seq<ModuleDescriptor>,
    e: AccessGraphError,
    m: TypeKey,
    j: int,
    k: int,
) -> bool {
    let i = descriptor_index(ds, m);
    &&& e.module@ == ds[i].name@
    &&& e.consumer@ == ds[i].providers@[j].name@
    &&& exists|oi: int, oj: int|
        #[trigger] is_first_binding(ds, dependency_at(ds, m, j, k), oi, oj)
            && e.dependency@ == ds[oi].providers@[oj].name@ && e.owner@ == ds[oi].name@
}

/// The resolver key is provided by some module reachable from the roots.
pub open spec fn is_member(ds: Seq<ModuleDescriptor>, roots: Seq<TypeKey>, key: TypeKey) -> bool {
    exists|m: TypeKey| #[trigger] reachable_from(ds, roots, m) && module_provides(ds, m, key)
}

/// Every key provided by a module of `mods`.
pub fn provided_keys(ds: &[ModuleDescriptor], mods: &Vec<TypeKey>) -> (keys: Vec<TypeKey>)
    ensures
        forall|k: TypeKey| #[trigger] keys@.contains(k) <==> some_module_provides(ds@, mods@, k),
{
    let mut keys: Vec<TypeKey> = Vec::new();
    let mut a: usize = 0;
    while a < mods.len()
        invariant
            a <= mods@.len(),
            forall|k: TypeKey| #[trigger]
                keys@.contains(k) <==> some_module_provides(ds@, mods@.take(a as int), k),
        decreases mods@.len() - a,
    {
        let ghost before = keys@;
        let m = mods[a];
        match find_descriptor(ds, m) {
            Some(i) => {
                let mut j: usize = 0;
                while j < ds[i].providers.len()
                    invariant
                        i < ds@.len(),
                        j <= ds@[i as int].providers@.len(),
                        keys@ == before + ds@[i as int].providers@.take(j as int).map_values(
                            |p: crate::graph::ProviderDescriptor| p.provides,
                        ),
                    decreases ds@[i as int].providers@.len() - j,
                {
                    keys.push(ds[i].providers[j].provides);
                    assert(ds@[i as int].providers@.take(j + 1) =~= ds@[i as int].providers@.take(
                        j as int,
                    ).push(ds@[i as int].providers@[j as int]));
                    j = j + 1;
                }
                proof {
                    let ps = ds@[i as int].providers@;
                    assert(ps.take(ps.len() as int) =~= ps);
                    let added = ps.map_values(|p: crate::graph::ProviderDescriptor| p.provides);
                    assert forall|k: TypeKey| #[trigger]
                        keys@.contains(k) <==> some_module_provides(
                            ds@,
                            mods@.take(a + 1),
                            k,
                        ) by {
                        let pre = mods@.take(a as int);
                        let post = mods@.take(a + 1);
                        assert(post[a as int] == m);
                        if keys@.contains(k) {
                            let w = choose|w: int| 0 <= w < keys@.len() && keys@[w] == k;
                            if w < before.len() {
                                assert(before[w] == k);
                                assert(before.contains(k));
                                let b = choose|b: int|
                                    0 <= b < pre.len() && module_provides(ds@, #[trigger] pre[b], k);
                                assert(post[b] == pre[b]);
                            } else {
                                let jj = w - before.len();
                                assert(added[jj] == k);
                                assert(ps[jj].provides == k);
                                assert(provides_key(ds@[i as int], k));
                                assert(module_provides(ds@, post[a as int], k));
                            }
                        }
                        if some_module_provides(ds@, post, k) {
                            let b = choose|b: int|
                                0 <= b < post.len() && module_provides(ds@, #[trigger] post[b], k);
                            if b < a {
                                assert(pre[b] == post[b]);
                                assert(some_module_provides(ds@, pre, k));
                                assert(before.contains(k));
                                let w = choose|w: int| 0 <= w < before.len() && before[w] == k;
                                assert(keys@[w] == k);
                            } else {
                                let jj = choose|jj: int|
                                    0 <= jj < ps.len() && (#[trigger] ps[jj]).provides == k;
                                assert(keys@[before.len() + jj] == added[jj]);
                            }
                        }
                    }
                }
            },
            None => {
                proof {
                    assert forall|k: TypeKey| #[trigger]
                        keys@.contains(k) <==> some_module_provides(
                            ds@,
                            mods@.take(a + 1),
                            k,
                        ) by {
                        let pre = mods@.take(a as int);
                        let post = mods@.take(a + 1);
                        if some_module_provides(ds@, post, k) {
                            let b = choose|b: int|
                                0 <= b < post.len() && module_provides(ds@, #[trigger] post[b], k);
                            assert(b < a);
                            assert(pre[b] == post[b]);
                        }
                        if some_module_provides(ds@, pre, k) {
                            let b = choose|b: int|
                                0 <= b < pre.len() && module_provides(ds@, #[trigger] pre[b], k);
                            assert(pre[b] == post[b]);
                        }
                    }
                }
            },
        }
        a = a + 1;
    }
    assert(mods@.take(mods@.len() as int) =~= mods@);
    keys
}

/// The first binding of `key`, if any module provides it.
pub fn find_binding(ds: &[ModuleDescriptor], key: TypeKey) -> (r: Option<(usize, usize)>)
    ensures
        match r {
            Some((oi, oj)) => is_first_binding(ds@, key, oi as int, oj as int),
            None => !provided_anywhere(ds@, key),
        },
{
    let mut i: usize = 0;
    while i < ds.len()
        invariant
            i <= ds@.len(),
            forall|i2: int, j2: int|
                0 <= i2 < i && 0 <= j2 < ds@[i2].providers@.len()
                    ==> (#[trigger] ds@[i2].providers@[j2]).provides != key,
        decreases ds@.len() - i,
    {
        let mut j: usize = 0;
        while j < ds[i].providers.len()
            invariant
                i < ds@.len(),
                j <= ds@[i as int].providers@.len(),
                forall|i2: int, j2: int|
                    0 <= i2 < i && 0 <= j2 < ds@[i2].providers@.len()
                        ==> (#[trigger] ds@[i2].providers@[j2]).provides != key,
                forall|j2: int| 0 <= j2 < j ==> (#[trigger] ds@[i as int].providers@[j2]).provides != key,
            decreases ds@[i as int].providers@.len() - j,
        {
            if ds[i].providers[j].provides == key {
                return Some((i, j));
            }
            j = j + 1;
        }
        i = i + 1;
    }
    assert forall|i2: int| 0 <= i2 < ds@.len() implies !provides_key(#[trigger] ds@[i2], key) by {
        if provides_key(ds@[i2], key) {
            let j2 = choose|j2: int|
                0 <= j2 < ds@[i2].providers@.len() && (#[trigger] ds@[i2].providers@[j2]).provides == key;
        }
    }
    None
}

/// Validate the access graph: every provider's dependency must be reachable from its
/// module's import closure or be global infrastructure.
///
/// - `descriptors` — every module descriptor in the binary.
/// - `roots` — the application's root module keys; only modules reachable from them
///   are validated. A root without a descriptor ends its branch, so a hand-written
///   root is a no-op.
/// - `global` — container keys present before the register phase (seeds and factory
///   outputs); reachable from any module.
///
/// A dependency that no module provides is skipped: it is either global or genuinely
/// missing, which the register phase reports on its own.
pub fn validate_access_graph(
    descriptors: &[ModuleDescriptor],
    roots: &[TypeKey],
    global: &HashSet<TypeKey>,
) -> (r: Result<(), AccessGraphError>)
    ensures
        r is Ok <==> !exists|m: TypeKey, j: int, k: int|
            #[trigger] is_violation(descriptors@, roots@, global@, m, j, k),
        r matches Err(e) ==> exists|m: TypeKey, j: int, k: int|
            #[trigger] is_violation(descriptors@, roots@, global@, m, j, k) && error_describes(
                descriptors@,
                e,
                m,
                j,
                k,
            ),
{
    let mods = reachable(descriptors, roots);
    let mut a: usize = 0;
    while a < mods.len()
        invariant
            a <= mods@.len(),
            forall|x: TypeKey| #[trigger] mods@.contains(x) <==> reachable_from(descriptors@, roots@, x),
            forall|a2: int, j: int, k: int|
                0 <= a2 < a ==> !#[trigger] is_violation(descriptors@, roots@, global@, mods@[a2], j, k),
        decreases mods@.len() - a,
    {
        let m = mods[a];
        assert(mods@.contains(m));
        match find_descriptor(descriptors, m) {
            None => {
                assert forall|j: int, k: int| !#[trigger] is_violation(descriptors@, roots@, global@, m, j, k) by {}
            },
            Some(i) => {
                let mut one: Vec<TypeKey> = Vec::new();
                one.push(m);
                assert(one@ =~= seq![m]);
                let closure = reachable(descriptors, one.as_slice());
                let keys = provided_keys(descriptors, &closure);
                proof {
                    assert forall|key: TypeKey| #[trigger]
                        keys@.contains(key) <==> closure_provides(descriptors@, m, key) by {
                        if keys@.contains(key) {
                            let b = choose|b: int|
                                0 <= b < closure@.len() && module_provides(descriptors@, #[trigger] closure@[b], key);
                            assert(closure@.contains(closure@[b]));
                            assert(reachable_from(descriptors@, seq![m], closure@[b]));
                        }
                        if closure_provides(descriptors@, m, key) {
                            let m2 = choose|m2: TypeKey|
                                #[trigger] reachable_from(descriptors@, seq![m], m2) && module_provides(descriptors@, m2, key);
                            assert(closure@.contains(m2));
                            let b = choose|b: int| 0 <= b < closure@.len() && closure@[b] == m2;
                            assert(module_provides(descriptors@, closure@[b], key));
                        }
                    }
                }
                let mut j: usize = 0;
                while j < descriptors[i].providers.len()
                    invariant
                        i < descriptors@.len(),
                        descriptor_index(descriptors@, m) == i as int,
                        reachable_from(descriptors@, roots@, m),
                        j <= descriptors@[i as int].providers@.len(),
                        forall|key: TypeKey| #[trigger]
                            keys@.contains(key) <==> closure_provides(descriptors@, m, key),
                        forall|j2: int, k: int|
                            0 <= j2 < j ==> !#[trigger] is_violation(descriptors@, roots@, global@, m, j2, k),
                    decreases descriptors@[i as int].providers@.len() - j,
                {
                    let mut k: usize = 0;
                    while k < descriptors[i].providers[j].injects.len()
                        invariant
                            i < descriptors@.len(),
                            descriptor_index(descriptors@, m) == i as int,
                            reachable_from(descriptors@, roots@, m),
                            j < descriptors@[i as int].providers@.len(),
                            k <= descriptors@[i as int].providers@[j as int].injects@.len(),
                            forall|key: TypeKey| #[trigger]
                                keys@.contains(key) <==> closure_provides(descriptors@, m, key),
                            forall|k2: int|
                                0 <= k2 < k ==> !#[trigger] is_violation(
                                    descriptors@,
                                    roots@,
                                    global@,
                                    m,
                                    j as int,
                                    k2,
                                ),
                        decreases descriptors@[i as int].providers@[j as int].injects@.len() - k,
                    {
                        let dep = descriptors[i].providers[j].injects[k];
                        assert(dep == dependency_at(descriptors@, m, j as int, k as int));
                        if global.contains(&dep) || contains_key(&keys, dep) {
                            k = k + 1;
                            continue;
                        }
                        match find_binding(descriptors, dep) {
                            Some((oi, oj)) => {
                                let e = AccessGraphError {
                                    module: descriptors[i].name.clone(),
                                    consumer: descriptors[i].providers[j].name.clone(),
                                    dependency: descriptors[oi].providers[oj].name.clone(),
                                    owner: descriptors[oi].name.clone(),
                                };
                                proof {
                                    assert(is_first_binding(descriptors@, dep, oi as int, oj as int));
                                    assert(provides_key(descriptors@[oi as int], dep));
                                    assert(provided_anywhere(descriptors@, dep));
                                    assert(is_violation(descriptors@, roots@, global@, m, j as int, k as int));
                                    assert(error_describes(descriptors@, e, m, j as int, k as int));
                                    assert(exists|m: TypeKey, j: int, k: int|
                                        #[trigger] is_violation(descriptors@, roots@, global@, m, j, k));
                                }
                                return Err(e);
                            },
                            None => {},
                        }
                        k = k + 1;
                    }
                    assert forall|k2: int| !#[trigger] is_violation(
                        descriptors@,
                        roots@,
                        global@,
                        m,
                        j as int,
                        k2,
                    ) by {
                        if 0 <= k2 < descriptors@[i as int].providers@[j as int].injects@.len() {
                        }
                    }
                    j = j + 1;
                }
                assert forall|j2: int, k: int| !#[trigger] is_violation(descriptors@, roots@, global@, m, j2, k) by {
                    if 0 <= j2 < descriptors@[i as int].providers@.len() {
                    }
                }
            },
        }
        a = a + 1;
    }
    assert forall|m: TypeKey, j: int, k: int| !#[trigger] is_violation(
        descriptors@,
        roots@,
        global@,
        m,
        j,
        k,
    ) by {
        if reachable_from(descriptors@, roots@, m) {
            assert(mods@.contains(m));
            let a2 = choose|a2: int| 0 <= a2 < mods@.len() && mods@[a2] == m;
            assert(!is_violation(descriptors@, roots@, global@, mods@[a2], j, k));
        }
    }
    Ok(())
}

/// Verify every linked resolver is a member of a module reachable from `roots`
/// (listed in its providers). Fails on the first resolver, in the given order, that
/// is not.
pub fn validate_resolver_membership(
    descriptors: &[ModuleDescriptor],
    roots: &[TypeKey],
    resolvers: &[ResolverDescriptor],
) -> (r: Result<(), ResolverMembershipError>)
    ensures
        r is Ok <==> forall|i: int|
            0 <= i < resolvers@.len() ==> is_member(descriptors@, roots@, (#[trigger] resolvers@[i]).resolver),
        r matches Err(e) ==> exists|i: int|
            0 <= i < resolvers@.len() && !is_member(descriptors@, roots@, (#[trigger] resolvers@[i]).resolver)
                && (forall|i2: int| 0 <= i2 < i ==> is_member(descriptors@, roots@, (#[trigger] resolvers@[i2]).resolver))
                && e.resolver@ == resolvers@[i].name@,
{
    let mods = reachable(descriptors, roots);
    let keys = provided_keys(descriptors, &mods);
    assert forall|key: TypeKey| #[trigger] keys@.contains(key) <==> is_member(descriptors@, roots@, key) by {
        if keys@.contains(key) {
            let b = choose|b: int| 0 <= b < mods@.len() && module_provides(descriptors@, #[trigger] mods@[b], key);
            assert(mods@.contains(mods@[b]));
        }
        if is_member(descriptors@, roots@, key) {
            let m = choose|m: TypeKey| #[trigger] reachable_from(descriptors@, roots@, m) && module_provides(descriptors@, m, key);
            assert(mods@.contains(m));
            let b = choose|b: int| 0 <= b < mods@.len() && mods@[b] == m;
            assert(module_provides(descriptors@, mods@[b], key));
        }
    }
    let mut i: usize = 0;
    while i < resolvers.len()
        invariant
            i <= resolvers@.len(),
            forall|key: TypeKey| #[trigger] keys@.contains(key) <==> is_member(descriptors@, roots@, key),
            forall|i2: int| 0 <= i2 < i ==> is_member(descriptors@, roots@, (#[trigger] resolvers@[i2]).resolver),
        decreases resolvers@.len() - i,
    {
        if !contains_key(&keys, resolvers[i].resolver) {
            assert(!is_member(descriptors@, roots@, resolvers@[i as int].resolver));
            return Err(ResolverMembershipError { resolver: resolvers[i].name.clone() });
        }
        i = i + 1;
    }
    Ok(())
}

impl AccessGraphError {
    /// The diagnostic naming the offending provider, the dependency and the module
    /// to import.
    pub fn message(&self) -> (s: String)
        ensures
            s@ == "module access violation: `"@ + self.consumer@ + "` (in module `"@ + self.module@
                + "`) depends on `"@ + self.dependency@ + "`, but `"@ + self.module@
                + "` imports no module that provides it. `"@ + self.dependency@
                + "` is provided by `"@ + self.owner@ + "` \u{2014} add `"@ + self.owner@
                + "` to `#[module(imports = [...])]` of `"@ + self.module@
                + "`, or route the dependency through a module `"@ + self.module@
                + "` already imports."@,
    {
        let mut s = String::from_str("module access violation: `");
        s.append(self.consumer.as_str());
        s.append("` (in module `");
        s.append(self.module.as_str());
        s.append("`) depends on `");
        s.append(self.dependency.as_str());
        s.append("`, but `");
        s.append(self.module.as_str());
        s.append("` imports no module that provides it. `");
        s.append(self.dependency.as_str());
        s.append("` is provided by `");
        s.append(self.owner.as_str());
        s.append("` \u{2014} add `");
        s.append(self.owner.as_str());
        s.append("` to `#[module(imports = [...])]` of `");
        s.append(self.module.as_str());
        s.append("`, or route the dependency through a module `");
        s.append(self.module.as_str());
        s.append("` already imports.");
        s
    }
}

impl ResolverMembershipError {
    /// The diagnostic naming the resolver and how to bring it under the contract.
    pub fn message(&self) -> (s: String)
        ensures
            s@ == "resolver `"@ + self.resolver@
                + "` is part of the GraphQL schema but is not declared in any module reachable from the application root. Add `"@
                + self.resolver@
                + "` to its feature module's `#[module(providers = [...])]` (like a controller) so its injected dependencies are checked by the access contract."@,
    {
        let mut s = String::from_str("resolver `");
        s.append(self.resolver.as_str());
        s.append(
            "` is part of the GraphQL schema but is not declared in any module reachable from the application root. Add `",
        );
        s.append(self.resolver.as_str());
        s.append(
            "` to its feature module's `#[module(providers = [...])]` (like a controller) so its injected dependencies are checked by the access contract.",
        );
        s
    }
}


/// A provider may always inject what its own module provides: such a dependency is
/// never a violation.
pub proof fn lemma_own_module_dependency_allowed(
    ds: Seq<ModuleDescriptor>,
    roots: Seq<TypeKey>,
    global: Set<TypeKey>,
    m: TypeKey,
    j: int,
    k: int,
)
    requires
        module_provides(ds, m, dependency_at(ds, m, j, k)),
    ensures
        !is_violation(ds, roots, global, m, j, k),
{
    assert(seq![m][0] == m);
    crate::graph::lemma_root_reachable(ds, seq![m], m);
    assert(reachable_from(ds, seq![m], m));
    assert(closure_provides(ds, m, dependency_at(ds, m, j, k)));
}

/// Global infrastructure (seeds and factory outputs) is reachable from every
/// module, and widening the global set never creates a violation.
pub proof fn lemma_more_global_fewer_violations(
    ds: Seq<ModuleDescriptor>,
    roots: Seq<TypeKey>,
    global: Set<TypeKey>,
    wider: Set<TypeKey>,
    m: TypeKey,
    j: int,
    k: int,
)
    requires
        global.subset_of(wider),
        is_violation(ds, roots, wider, m, j, k),
    ensures
        is_violation(ds, roots, global, m, j, k),
{
}

/// Checking from more roots never hides a violation found from fewer: every
/// module reachable from `roots` stays reachable from `roots + more`.
pub proof fn lemma_more_roots_keep_violations(
    ds: Seq<ModuleDescriptor>,
    roots: Seq<TypeKey>,
    more: Seq<TypeKey>,
    global: Set<TypeKey>,
    m: TypeKey,
    j: int,
    k: int,
)
    requires
        is_violation(ds, roots, global, m, j, k),
    ensures
        is_violation(ds, roots + more, global, m, j, k),
{
    let path = choose|path: Seq<TypeKey>| #[trigger] crate::graph::is_import_path(ds, roots, path) && path.last() == m;
    let i = choose|i: int| 0 <= i < roots.len() && roots[i] == path[0];
    assert((roots + more)[i] == path[0]);
    assert(crate::graph::is_import_path(ds, roots + more, path));
}

} // verus!
