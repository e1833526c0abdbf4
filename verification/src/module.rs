//! How modules and providers take part in building the container.
//!
//! A static module is listed by type and registers through associated functions;
//! a dynamic module is a value that carries its import-site configuration. Both
//! take part in two phases: `collect` queues the async factories a module owns,
//! `register` installs its providers once every factory output is present.

use vstd::prelude::*;

use crate::container::ContainerBuilder;
use crate::TypeKey;

verus! {

/// A statically composed module, listed by type in another module's imports.
/// Registration is idempotent: a module imported through several paths builds its
/// providers once (see `ContainerBuilder::mark_registered`).
pub trait Module<V, S, F> {
    /// Build this module's providers, and recurse into its imports.
    fn register(builder: ContainerBuilder<V, S, F>) -> ContainerBuilder<V, S, F>;

    /// Queue the async factories this module's import tree owns. The default
    /// queues none.
    fn collect(builder: ContainerBuilder<V, S, F>) -> (r: ContainerBuilder<V, S, F>)
        default_ensures
            r == builder,
    {
        builder
    }
}

/// A module configured at its import site: a value carrying its options.
/// Dynamic modules are not deduplicated; each carries its own configuration.
pub trait DynamicModule<V, S, F> {
    /// Register synchronous providers, metadata or configuration. The default
    /// registers nothing.
    fn register(self, builder: ContainerBuilder<V, S, F>) -> (r: ContainerBuilder<V, S, F>)
        where Self: Sized
        default_ensures
            r == builder,
    {
        builder
    }

    /// Queue async factories for this module's resources. The default queues none.
    fn collect(&self, builder: ContainerBuilder<V, S, F>) -> (r: ContainerBuilder<V, S, F>)
        default_ensures
            r == builder,
    {
        builder
    }
}

/// Anything a module can list among its providers.
pub trait Discoverable<V, S, F> {
    /// The providers that must be registered before this one can be built.
    fn dependencies() -> (r: Vec<TypeKey>)
        default_ensures
            r@ == Seq::<TypeKey>::empty(),
    {
        Vec::new()
    }

    /// Each dependency this provider pulls from the container whenever it is
    /// built, for the module access-graph check.
    fn injected() -> (r: Vec<TypeKey>)
        default_ensures
            r@ == Seq::<TypeKey>::empty(),
    {
        Vec::new()
    }

    /// A readable label for each of `dependencies`, in the same order.
    fn dependency_names() -> (r: Vec<&'static str>)
        default_ensures
            r@ == Seq::<&'static str>::empty(),
    {
        Vec::new()
    }

    /// Optional dependencies: not required to be present, but ordered before this
    /// provider when the same module supplies them.
    fn optional_dependencies() -> (r: Vec<TypeKey>)
        default_ensures
            r@ == Seq::<TypeKey>::empty(),
    {
        Vec::new()
    }

    fn register(builder: ContainerBuilder<V, S, F>) -> ContainerBuilder<V, S, F>;
}

} // verus!
