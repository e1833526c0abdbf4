//! Read-side façade over the container's metadata index, used by transports and
//! scanners to find what they care about.

use vstd::prelude::*;

use crate::container::{Container, MetaEntry};
use crate::TypeKey;

verus! {

/// A discovered piece of metadata, paired with the key of the provider it describes
/// (when host-bound).
pub struct Discovered<V> {
    pub meta: V,
    pub provider_type_id: Option<TypeKey>,
}

/// Finds metadata registered in a container.
pub struct DiscoveryService<'a, V, S> {
    container: &'a Container<V, S>,
}

impl<'a, V, S> DiscoveryService<'a, V, S> {
    /// The container this service reads.
    pub closed spec fn container(&self) -> Container<V, S> {
        *self.container
    }

    pub fn new(container: &'a Container<V, S>) -> (d: Self)
        ensures
            d.container() == *container,
    {
        DiscoveryService { container }
    }
}

/// `found` lists the entries of `entries` in order, each with its host and a clone
/// of its value.
pub open spec fn discovered_from<V: Clone>(entries: Seq<MetaEntry<V>>, found: Seq<Discovered<V>>) -> bool {
    &&& found.len() == entries.len()
    &&& forall|i: int|
        0 <= i < entries.len() ==> (#[trigger] found[i]).provider_type_id == entries[i].provider_type_id
            && cloned(entries[i].meta, found[i].meta)
}

impl<'a, V: Clone, S> DiscoveryService<'a, V, S> {
    /// Every piece of metadata registered under `meta_key`, in registration order;
    /// empty when there is none.
    pub fn meta(&self, meta_key: TypeKey) -> (found: Vec<Discovered<V>>)
        ensures
            discovered_from(
                crate::container::entries_at(self.container().metadata(), meta_key),
                found@,
            ),
    {
        let mut found: Vec<Discovered<V>> = Vec::new();
        match self.container.metadata_entries(meta_key) {
            None => {},
            Some(entries) => {
                let mut i: usize = 0;
                while i < entries.len()
                    invariant
                        i <= entries@.len(),
                        found@.len() == i,
                        forall|j: int|
                            0 <= j < i ==> (#[trigger] found@[j]).provider_type_id
                                == entries@[j].provider_type_id && cloned(
                                entries@[j].meta,
                                found@[j].meta,
                            ),
                    decreases entries@.len() - i,
                {
                    let meta = entries[i].meta.clone();
                    found.push(Discovered { meta, provider_type_id: entries[i].provider_type_id });
                    i = i + 1;
                }
            },
        }
        found
    }
}

} // verus!
