//! The module import graph: descriptor lookup and reachability over
//! `imports`, shared by the access-contract checks.

use vstd::prelude::*;

use crate::TypeKey;

verus! {

/// One provider declared in a module's `providers = [...]`, recorded for the
/// access-graph check.
pub struct ProviderDescriptor {
    /// Human-readable label for diagnostics (`"UsersService"`, `"dyn WeatherProvider"`).
    pub name: String,
    /// The container key this provider registers under — what it can satisfy for others.
    pub provides: TypeKey,
    /// The keys of the provider's declared injection dependencies (its `#[inject]`
    /// fields plus the guards, filters and interceptors its attributes reference).
    pub injects: Vec<TypeKey>,
}

/// Per-module descriptor: the module's key and name, the statically-typed modules it
/// imports, and the providers it declares.
pub struct ModuleDescriptor {
    /// The module's own key.
    pub module: TypeKey,
    /// The module name, for diagnostics.
    pub name: String,
    /// Keys of the statically-typed modules this one imports.
    pub imports: Vec<TypeKey>,
    /// The providers this module declares in `providers = [...]`.
    pub providers: Vec<ProviderDescriptor>,
}

/// The descriptor that stands for module `id`: the last one in `ds` carrying that key
/// (a later descriptor of the same module shadows an earlier one), or `-1` when none does.
pub open spec fn descriptor_index(ds: Seq<ModuleDescriptor>, id: TypeKey) -> int
    decreases ds.len(),
{
    if ds.len() == 0 {
        -1
    } else if ds.last().module == id {
        ds.len() - 1
    } else {
        descriptor_index(ds.drop_last(), id)
    }
}

/// The modules that module `id` imports (none when it has no descriptor).
pub open spec fn imports_of(ds: Seq<ModuleDescriptor>, id: TypeKey) -> Seq<TypeKey> {
    let i = descriptor_index(ds, id);
    if i < 0 {
        Seq::empty()
    } else {
        ds[i].imports@
    }
}

/// `path` starts at a root and each step follows an import of the module before it.
pub open spec fn is_import_path(
    ds: Seq<ModuleDescriptor>,
    roots: Seq<TypeKey>,
    path: Seq<TypeKey>,
) -> bool {
    &&& path.len() > 0
    &&& roots.contains(path[0])
    &&& forall|k: int|
        0 <= k < path.len() - 1 ==> #[trigger] imports_of(ds, path[k]).contains(path[k + 1])
}

/// `id` is a root, or is imported by a module reachable from the roots. A key without
/// a descriptor is reached but imports nothing, so it ends its branch.
pub open spec fn reachable_from(ds: Seq<ModuleDescriptor>, roots: Seq<TypeKey>, id: TypeKey) -> bool {
    exists|path: Seq<TypeKey>| #[trigger] is_import_path(ds, roots, path) && path.last() == id
}

/// Provider `j` of descriptor `d` registers under `key`.
pub open spec fn provides_key(d: ModuleDescriptor, key: TypeKey) -> bool {
    exists|j: int| 0 <= j < d.providers@.len() && (#[trigger] d.providers@[j]).provides == key
}

/// Module `m` has a descriptor, and one of its providers registers under `key`.
pub open spec fn module_provides(ds: Seq<ModuleDescriptor>, m: TypeKey, key: TypeKey) -> bool {
    let i = descriptor_index(ds, m);
    i >= 0 && provides_key(ds[i], key)
}

/// Some module in `mods` provides `key`.
pub open spec fn some_module_provides(
    ds: Seq<ModuleDescriptor>,
    mods: Seq<TypeKey>,
    key: TypeKey,
) -> bool {
    exists|a: int| 0 <= a < mods.len() && module_provides(ds, #[trigger] mods[a], key)
}

pub proof fn lemma_descriptor_index_bounds(ds: Seq<ModuleDescriptor>, id: TypeKey)
    ensures
        -1 <= descriptor_index(ds, id) < ds.len(),
        descriptor_index(ds, id) >= 0 ==> ds[descriptor_index(ds, id)].module == id,
        descriptor_index(ds, id) == -1 <==> forall|i: int|
            0 <= i < ds.len() ==> (#[trigger] ds[i]).module != id,
    decreases ds.len(),
{
    if ds.len() > 0 {
        lemma_descriptor_index_bounds(ds.drop_last(), id);
        if ds.last().module != id {
            assert forall|i: int| 0 <= i < ds.len() - 1 implies (#[trigger] ds[i]).module
                == ds.drop_last()[i].module by {}
            if descriptor_index(ds, id) != -1 {
                let w = descriptor_index(ds, id);
                assert(ds.drop_last()[w] == ds[w]);
            }
        }
    }
}

proof fn lemma_descriptor_index_step(ds: Seq<ModuleDescriptor>, id: TypeKey, i: int)
    requires
        0 <= i < ds.len(),
    ensures
        descriptor_index(ds.take(i + 1), id) == (if ds[i].module == id {
            i
        } else {
            descriptor_index(ds.take(i), id)
        }),
{
    assert(ds.take(i + 1).drop_last() =~= ds.take(i));
    assert(ds.take(i + 1).last() == ds[i]);
}

/// The index of the descriptor that stands for module `id`, if any.
pub fn find_descriptor(ds: &[ModuleDescriptor], id: TypeKey) -> (r: Option<usize>)
    ensures
        match r {
            Some(i) => i < ds@.len() && descriptor_index(ds@, id) == i as int,
            None => descriptor_index(ds@, id) == -1,
        },
{
    let mut found: Option<usize> = None;
    let mut i: usize = 0;
    while i < ds.len()
        invariant
            i <= ds@.len(),
            match found {
                Some(f) => f < i && descriptor_index(ds@.take(i as int), id) == f as int,
                None => descriptor_index(ds@.take(i as int), id) == -1,
            },
        decreases ds@.len() - i,
    {
        proof {
            lemma_descriptor_index_step(ds@, id, i as int);
        }
        if ds[i].module == id {
            found = Some(i);
        }
        i = i + 1;
    }
    assert(ds@.take(ds@.len() as int) =~= ds@);
    found
}

/// Whether `v` holds `k`.
pub fn contains_key(v: &Vec<TypeKey>, k: TypeKey) -> (b: bool)
    ensures
        b == v@.contains(k),
{
    let mut i: usize = 0;
    while i < v.len()
        invariant
            i <= v@.len(),
            forall|j: int| 0 <= j < i ==> v@[j] != k,
        decreases v@.len() - i,
    {
        if v[i] == k {
            return true;
        }
        i = i + 1;
    }
    false
}

/// The module keys that carry a descriptor.
pub open spec fn module_keys(ds: Seq<ModuleDescriptor>) -> Set<TypeKey> {
    Set::new(|k: TypeKey| descriptor_index(ds, k) >= 0)
}

proof fn lemma_module_keys_finite(ds: Seq<ModuleDescriptor>)
    ensures
        module_keys(ds).finite(),
{
    let keys = ds.map_values(|d: ModuleDescriptor| d.module).to_set();
    assert(module_keys(ds).subset_of(keys)) by {
        assert forall|k: TypeKey| module_keys(ds).contains(k) implies keys.contains(k) by {
            lemma_descriptor_index_bounds(ds, k);
            let i = descriptor_index(ds, k);
            assert(ds.map_values(|d: ModuleDescriptor| d.module)[i] == k);
        }
    }
    vstd::seq_lib::seq_to_set_is_finite(ds.map_values(|d: ModuleDescriptor| d.module));
    vstd::set_lib::lemma_set_subset_finite(keys, module_keys(ds));
}

proof fn lemma_closed_set_holds_reached(
    ds: Seq<ModuleDescriptor>,
    roots: Seq<TypeKey>,
    seen: Seq<TypeKey>,
    path: Seq<TypeKey>,
    k: int,
)
    requires
        forall|r: TypeKey| roots.contains(r) ==> seen.contains(r),
        forall|y: TypeKey, z: TypeKey|
            seen.contains(y) && #[trigger] imports_of(ds, y).contains(z) ==> seen.contains(z),
        is_import_path(ds, roots, path),
        0 <= k < path.len(),
    ensures
        seen.contains(path[k]),
    decreases k,
{
    if k > 0 {
        lemma_closed_set_holds_reached(ds, roots, seen, path, k - 1);
        let j = k - 1;
        assert(0 <= j < path.len() - 1);
        assert(imports_of(ds, path[j]).contains(path[j + 1]));
        assert(path[j + 1] == path[k]);
    }
}

proof fn lemma_extend_path(
    ds: Seq<ModuleDescriptor>,
    roots: Seq<TypeKey>,
    id: TypeKey,
    x: TypeKey,
)
    requires
        reachable_from(ds, roots, id),
        imports_of(ds, id).contains(x),
    ensures
        reachable_from(ds, roots, x),
{
    let path = choose|path: Seq<TypeKey>| #[trigger] is_import_path(ds, roots, path) && path.last() == id;
    let p2 = path.push(x);
    assert forall|k: int| 0 <= k < p2.len() - 1 implies #[trigger] imports_of(ds, p2[k]).contains(
        p2[k + 1],
    ) by {
        if k < path.len() - 1 {
            assert(p2[k] == path[k] && p2[k + 1] == path[k + 1]);
        } else {
            assert(p2[k] == id && p2[k + 1] == x);
        }
    }
    assert(is_import_path(ds, roots, p2));
}

pub proof fn lemma_root_reachable(ds: Seq<ModuleDescriptor>, roots: Seq<TypeKey>, r: TypeKey)
    requires
        roots.contains(r),
    ensures
        reachable_from(ds, roots, r),
{
    let p = seq![r];
    assert(is_import_path(ds, roots, p));
}

/// Every module reachable from `roots` through `imports` (roots included), each once.
/// A key without a descriptor ends its branch.
pub fn reachable(ds: &[ModuleDescriptor], roots: &[TypeKey]) -> (seen: Vec<TypeKey>)
    ensures
        forall|x: TypeKey| #[trigger] seen@.contains(x) <==> reachable_from(ds@, roots@, x),
        seen@.no_duplicates(),
{
    let mut seen: Vec<TypeKey> = Vec::new();
    let mut stack: Vec<TypeKey> = Vec::new();
    let mut r: usize = 0;
    while r < roots.len()
        invariant
            r <= roots@.len(),
            stack@ == roots@.take(r as int),
        decreases roots@.len() - r,
    {
        stack.push(roots[r]);
        assert(roots@.take(r + 1) =~= roots@.take(r as int).push(roots@[r as int]));
        r = r + 1;
    }
    assert(roots@.take(roots@.len() as int) =~= roots@);
    assert forall|x: TypeKey| stack@.contains(x) implies reachable_from(ds@, roots@, x) by {
        lemma_root_reachable(ds@, roots@, x);
    }
    let ghost mut expanded: Set<TypeKey> = Set::empty();
    proof {
        lemma_module_keys_finite(ds@);
    }
    while stack.len() > 0
        invariant
            module_keys(ds@).finite(),
            expanded.subset_of(module_keys(ds@)),
            forall|x: TypeKey| #[trigger] expanded.contains(x) ==> seen@.contains(x),
            forall|x: TypeKey|
                seen@.contains(x) && descriptor_index(ds@, x) >= 0 ==> #[trigger] expanded.contains(x),
            seen@.no_duplicates(),
            forall|x: TypeKey| #[trigger] seen@.contains(x) ==> reachable_from(ds@, roots@, x),
            forall|x: TypeKey| #[trigger] stack@.contains(x) ==> reachable_from(ds@, roots@, x),
            forall|x: TypeKey| #[trigger] roots@.contains(x) ==> seen@.contains(x) || stack@.contains(x),
            forall|y: TypeKey, z: TypeKey|
                seen@.contains(y) && #[trigger] imports_of(ds@, y).contains(z) ==> seen@.contains(z)
                    || stack@.contains(z),
        decreases module_keys(ds@).difference(expanded).len(), stack@.len(),
    {
        let ghost old_stack = stack@;
        assert(forall|x: TypeKey| #[trigger] old_stack.contains(x) ==> reachable_from(ds@, roots@, x));
        let id = stack.pop().unwrap();
        assert(old_stack == stack@.push(id));
        assert forall|x: TypeKey| old_stack.contains(x) implies x == id || stack@.contains(x) by {
            let w = choose|w: int| 0 <= w < old_stack.len() && old_stack[w] == x;
            if w < stack@.len() {
                assert(stack@[w] == x);
            }
        }
        assert forall|x: TypeKey| stack@.contains(x) implies old_stack.contains(x) by {
            let w = choose|w: int| 0 <= w < stack@.len() && stack@[w] == x;
            assert(old_stack[w] == x);
        }
        assert(old_stack[old_stack.len() - 1] == id);
        assert(old_stack.contains(id));
        assert(reachable_from(ds@, roots@, id));
        assert forall|x: TypeKey| #[trigger] stack@.contains(x) implies reachable_from(ds@, roots@, x) by {
            assert(old_stack.contains(x));
        }
        if contains_key(&seen, id) {
            continue;
        }
        let ghost old_seen = seen@;
        assert(forall|x: TypeKey| #[trigger] old_seen.contains(x) ==> reachable_from(ds@, roots@, x));
        seen.push(id);
        assert(seen@ == old_seen.push(id));
        assert(seen@[old_seen.len() as int] == id);
        assert forall|x: TypeKey| seen@.contains(x) <==> old_seen.contains(x) || x == id by {
            if seen@.contains(x) {
                let w = choose|w: int| 0 <= w < seen@.len() && seen@[w] == x;
                if w < old_seen.len() {
                    assert(old_seen[w] == x);
                }
            }
            if old_seen.contains(x) {
                let w = choose|w: int| 0 <= w < old_seen.len() && old_seen[w] == x;
                assert(seen@[w] == x);
            }
        }
        assert forall|x: TypeKey| #[trigger] seen@.contains(x) implies reachable_from(ds@, roots@, x) by {
            if old_seen.contains(x) {
            } else {
                assert(x == id);
            }
        }
        match find_descriptor(ds, id) {
            Some(i) => {
                let ghost before = stack@;
                let mut k: usize = 0;
                while k < ds[i].imports.len()
                    invariant
                        i < ds@.len(),
                        descriptor_index(ds@, id) == i as int,
                        reachable_from(ds@, roots@, id),
                        k <= ds@[i as int].imports@.len(),
                        stack@ == before + ds@[i as int].imports@.take(k as int),
                        forall|x: TypeKey| before.contains(x) ==> reachable_from(ds@, roots@, x),
                    ensures
                        stack@ == before + ds@[i as int].imports@,
                    decreases ds@[i as int].imports@.len() - k,
                {
                    let x = ds[i].imports[k];
                    stack.push(x);
                    assert(ds@[i as int].imports@.take(k + 1) =~= ds@[i as int].imports@.take(
                        k as int,
                    ).push(x));
                    k = k + 1;
                }
                proof {
                    assert(ds@[i as int].imports@.take(ds@[i as int].imports@.len() as int)
                        =~= ds@[i as int].imports@);
                    assert(imports_of(ds@, id) == ds@[i as int].imports@);
                    assert forall|x: TypeKey| stack@.contains(x) implies reachable_from(
                        ds@,
                        roots@,
                        x,
                    ) by {
                        if !before.contains(x) {
                            let w = choose|w: int| 0 <= w < stack@.len() && stack@[w] == x;
                            assert(ds@[i as int].imports@[w - before.len()] == x);
                            assert(imports_of(ds@, id).contains(x));
                            lemma_extend_path(ds@, roots@, id, x);
                        }
                    }
                    assert forall|z: TypeKey| #[trigger]
                        imports_of(ds@, id).contains(z) implies stack@.contains(z) by {
                        let w = choose|w: int|
                            0 <= w < imports_of(ds@, id).len() && imports_of(ds@, id)[w] == z;
                        assert(stack@[before.len() + w] == z);
                    }
                    assert forall|x: TypeKey| before.contains(x) implies stack@.contains(x) by {
                        let w = choose|w: int| 0 <= w < before.len() && before[w] == x;
                        assert(stack@[w] == x);
                    }
                    lemma_descriptor_index_bounds(ds@, id);
                    assert(!expanded.contains(id));
                    assert(module_keys(ds@).contains(id));
                    assert(module_keys(ds@).difference(expanded.insert(id)) =~= module_keys(
                        ds@,
                    ).difference(expanded).remove(id));
                    expanded = expanded.insert(id);
                }
            },
            None => {
                proof {
                    assert(imports_of(ds@, id) =~= Seq::<TypeKey>::empty());
                }
            },
        }
    }
    proof {
        assert forall|x: TypeKey| reachable_from(ds@, roots@, x) implies #[trigger] seen@.contains(
            x,
        ) by {
            let path = choose|path: Seq<TypeKey>|
                #[trigger] is_import_path(ds@, roots@, path) && path.last() == x;
            lemma_closed_set_holds_reached(ds@, roots@, seen@, path, path.len() - 1);
        }
    }
    seen
}

} // verus!
