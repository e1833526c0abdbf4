//! Building and running an application.
//!
//! [`AppBuilder`] collects runtime seeds, root-level async factories, root modules
//! and test overrides. Building runs four phases whatever order they were declared
//! in: the seeds are already in place; each module's `collect` queues its async
//! factories; every queued factory whose output no seed supplies is awaited; each
//! module's `register` builds its providers; the overrides are applied last so
//! they win. The awaiting is the caller's: [`AppBuild`] hands out the factories to
//! run one at a time.
//!
//! Running an application runs the init lifecycle phases, serves every transport
//! until one fails or a shutdown signal arrives, then runs the shutdown phases;
//! [`ServeOutcome`] keeps the first transport failure.

use std::collections::HashSet;

use vstd::prelude::*;

use crate::container::{Container, ContainerBuilder};
use crate::lifecycle::LifecyclePhase;
use crate::TypeKey;

verus! {

broadcast use vstd::std_specs::hash::group_hash_axioms;

/// The two registration entry points of a root module.
pub trait ModuleHooks<V, S, F> {
    /// The builder this module's collect phase leaves, given `builder`.
    spec fn collected(&self, builder: ContainerBuilder<V, S, F>) -> ContainerBuilder<V, S, F>;

    /// The builder this module's register phase leaves, given `builder`.
    spec fn registered(&self, builder: ContainerBuilder<V, S, F>) -> ContainerBuilder<V, S, F>;

    /// Queue the async factories this module's import tree owns.
    fn collect(&self, builder: ContainerBuilder<V, S, F>) -> (r: ContainerBuilder<V, S, F>)
        ensures
            r == self.collected(builder),
    ;

    /// Register this module's providers, and recurse into its imports.
    fn register(&self, builder: ContainerBuilder<V, S, F>) -> (r: ContainerBuilder<V, S, F>)
        ensures
            r == self.registered(builder),
    ;
}

/// Each module's collect phase run on `b`, in module order.
pub open spec fn collect_all<V, S, F, M: ModuleHooks<V, S, F>>(
    modules: Seq<(TypeKey, M)>,
    b: ContainerBuilder<V, S, F>,
) -> ContainerBuilder<V, S, F>
    decreases modules.len(),
{
    if modules.len() == 0 {
        b
    } else {
        modules.last().1.collected(collect_all(modules.drop_last(), b))
    }
}

/// Each module's register phase run on `b`, in module order.
pub open spec fn register_all<V, S, F, M: ModuleHooks<V, S, F>>(
    modules: Seq<(TypeKey, M)>,
    b: ContainerBuilder<V, S, F>,
) -> ContainerBuilder<V, S, F>
    decreases modules.len(),
{
    if modules.len() == 0 {
        b
    } else {
        modules.last().1.registered(register_all(modules.drop_last(), b))
    }
}

/// The providers `m` with each override applied in order, the later winning.
pub open spec fn with_overrides<V>(overrides: Seq<(TypeKey, V)>, m: Map<TypeKey, V>) -> Map<TypeKey, V>
    decreases overrides.len(),
{
    if overrides.len() == 0 {
        m
    } else {
        with_overrides(overrides.drop_last(), m).insert(overrides.last().0, overrides.last().1)
    }
}

/// The value the last override of `key` in `overrides` sets, if any.
pub open spec fn overridden<V>(overrides: Seq<(TypeKey, V)>, key: TypeKey) -> Option<V>
    decreases overrides.len(),
{
    if overrides.len() == 0 {
        None
    } else if overrides.last().0 == key {
        Some(overrides.last().1)
    } else {
        overridden(overrides.drop_last(), key)
    }
}

/// Overrides replace exactly the keys they name: an overridden key resolves to its
/// last override, and every other key resolves as it did without the overrides.
pub proof fn lemma_override_lookup<V>(overrides: Seq<(TypeKey, V)>, m: Map<TypeKey, V>, k: TypeKey)
    ensures
        overridden(overrides, k) matches Some(v) ==> with_overrides(overrides, m).contains_key(k)
            && with_overrides(overrides, m)[k] == v,
        overridden(overrides, k) is None ==> (with_overrides(overrides, m).contains_key(k) == m.contains_key(k)
            && (m.contains_key(k) ==> with_overrides(overrides, m)[k] == m[k])),
    decreases overrides.len(),
{
    if overrides.len() > 0 {
        lemma_override_lookup(overrides.drop_last(), m, k);
    }
}

/// When every module's collect phase only adds to the factory queue, the build runs
/// the root-level factories first, in the order they were queued, before any that
/// a module queued.
pub proof fn lemma_root_factories_first<V, S, F, M: ModuleHooks<V, S, F>>(
    modules: Seq<(TypeKey, M)>,
    b: ContainerBuilder<V, S, F>,
)
    requires
        forall|i: int, c: ContainerBuilder<V, S, F>|
            0 <= i < modules.len() ==> c.factories().is_prefix_of(#[trigger] modules[i].1.collected(c).factories()),
    ensures
        b.factories().is_prefix_of(collect_all(modules, b).factories()),
    decreases modules.len(),
{
    if modules.len() > 0 {
        let rest = modules.drop_last();
        assert forall|i: int, c: ContainerBuilder<V, S, F>|
            0 <= i < rest.len() implies c.factories().is_prefix_of(#[trigger] rest[i].1.collected(c).factories()) by {
            assert(rest[i] == modules[i]);
        }
        lemma_root_factories_first(rest, b);
        let mid = collect_all(rest, b);
        let last = modules.last().1.collected(mid);
        assert(modules.last() == modules[modules.len() - 1]);
        assert(mid.factories().is_prefix_of(last.factories()));
        assert(b.factories() =~= last.factories().subrange(0, b.factories().len() as int)) by {
            assert forall|k: int| 0 <= k < b.factories().len() implies b.factories()[k] == last.factories()[k] by {
                assert(b.factories()[k] == mid.factories()[k]);
                assert(mid.factories()[k] == last.factories()[k]);
            }
        }
    }
}

/// Builder for an application whose module tree needs runtime values or
/// asynchronously built providers.
pub struct AppBuilder<V, S, F, M> {
    builder: ContainerBuilder<V, S, F>,
    modules: Vec<(TypeKey, M)>,
    overrides: Vec<(TypeKey, V)>,
}

impl<V, S, F, M> AppBuilder<V, S, F, M> {
    /// The container under construction: the seeds and root factories so far.
    pub closed spec fn builder(&self) -> ContainerBuilder<V, S, F> {
        self.builder
    }

    /// The root modules, with their keys, in the order they were added.
    pub closed spec fn modules(&self) -> Seq<(TypeKey, M)> {
        self.modules@
    }

    /// The provider replacements, in the order they were declared.
    pub closed spec fn overrides(&self) -> Seq<(TypeKey, V)> {
        self.overrides@
    }

    pub fn new() -> (b: Self)
        ensures
            b.builder().providers() == Map::<TypeKey, V>::empty(),
            b.builder().factories() == Seq::<(TypeKey, F)>::empty(),
            b.builder().metadata() == Map::<TypeKey, Seq<crate::container::MetaEntry<V>>>::empty(),
            b.builder().scoped() == Map::<TypeKey, S>::empty(),
            b.builder().registered_modules() == Set::<TypeKey>::empty(),
            b.builder().collected_modules() == Set::<TypeKey>::empty(),
            b.modules() == Seq::<(TypeKey, M)>::empty(),
            b.overrides() == Seq::<(TypeKey, V)>::empty(),
    {
        AppBuilder { builder: Container::builder(), modules: Vec::new(), overrides: Vec::new() }
    }

    /// Seed a runtime value under `key`, injectable by any provider of the tree.
    pub fn provide(self, key: TypeKey, value: V) -> (b: Self)
        ensures
            b.builder().providers() == self.builder().providers().insert(key, value),
            b.builder().factories() == self.builder().factories(),
            b.modules() == self.modules(),
            b.overrides() == self.overrides(),
    {
        AppBuilder { builder: self.builder.provide(key, value), modules: self.modules, overrides: self.overrides }
    }

    /// Seed an already shared value.
    pub fn provide_arc(self, key: TypeKey, value: V) -> (b: Self)
        ensures
            b.builder().providers() == self.builder().providers().insert(key, value),
            b.builder().factories() == self.builder().factories(),
            b.modules() == self.modules(),
            b.overrides() == self.overrides(),
    {
        AppBuilder { builder: self.builder.provide_arc(key, value), modules: self.modules, overrides: self.overrides }
    }

    /// Seed a trait-object binding under the key of its shared handle.
    pub fn provide_dyn(self, key: TypeKey, value: V) -> (b: Self)
        ensures
            b.builder().providers() == self.builder().providers().insert(key, value),
            b.builder().factories() == self.builder().factories(),
            b.modules() == self.modules(),
            b.overrides() == self.overrides(),
    {
        AppBuilder { builder: self.builder.provide_dyn(key, value), modules: self.modules, overrides: self.overrides }
    }

    /// Queue an async factory at the composition root, producing the provider
    /// under `key`. It is skipped when a seed already supplies `key`.
    pub fn provide_factory(self, key: TypeKey, factory: F) -> (b: Self)
        ensures
            b.builder().providers() == self.builder().providers(),
            b.builder().factories() == self.builder().factories().push((key, factory)),
            b.modules() == self.modules(),
            b.overrides() == self.overrides(),
    {
        AppBuilder { builder: self.builder.provide_factory(key, factory), modules: self.modules, overrides: self.overrides }
    }

    /// Replace the provider under `key` after the module tree registers, so this
    /// value wins.
    pub fn override_value(self, key: TypeKey, value: V) -> (b: Self)
        ensures
            b.builder() == self.builder(),
            b.modules() == self.modules(),
            b.overrides() == self.overrides().push((key, value)),
    {
        let mut overrides = self.overrides;
        overrides.push((key, value));
        AppBuilder { builder: self.builder, modules: self.modules, overrides }
    }

    /// Replace a trait-object binding after the module tree registers.
    pub fn override_dyn(self, key: TypeKey, value: V) -> (b: Self)
        ensures
            b.builder() == self.builder(),
            b.modules() == self.modules(),
            b.overrides() == self.overrides().push((key, value)),
    {
        let mut overrides = self.overrides;
        overrides.push((key, value));
        AppBuilder { builder: self.builder, modules: self.modules, overrides }
    }

    /// Add a root module. Every root module collects and registers, and roots the
    /// access-graph check.
    pub fn module(self, key: TypeKey, hooks: M) -> (b: Self)
        ensures
            b.builder() == self.builder(),
            b.modules() == self.modules().push((key, hooks)),
            b.overrides() == self.overrides(),
    {
        let mut modules = self.modules;
        modules.push((key, hooks));
        AppBuilder { builder: self.builder, modules, overrides: self.overrides }
    }
}

impl<V, S, F, M: ModuleHooks<V, S, F>> AppBuilder<V, S, F, M> {
    /// Start building: run every module's collect phase, in order, and take the
    /// queued factories (root-level ones first, then those the modules queued).
    pub fn start_build(self) -> (b: AppBuild<V, S, F, M>)
        ensures
            b.modules() == self.modules(),
            b.overrides() == self.overrides(),
            b.pending() == collect_all(self.modules(), self.builder()).factories(),
            b.builder().factories() == Seq::<(TypeKey, F)>::empty(),
            b.builder().providers() == collect_all(self.modules(), self.builder()).providers(),
            b.builder().metadata() == collect_all(self.modules(), self.builder()).metadata(),
            b.builder().scoped() == collect_all(self.modules(), self.builder()).scoped(),
            b.builder().registered_modules() == collect_all(self.modules(), self.builder()).registered_modules(),
            b.builder().collected_modules() == collect_all(self.modules(), self.builder()).collected_modules(),
    {
        let AppBuilder { builder, modules, overrides } = self;
        let mut builder = builder;
        let ghost b0 = builder;
        let mut i: usize = 0;
        while i < modules.len()
            invariant
                i <= modules@.len(),
                builder == collect_all(modules@.take(i as int), b0),
            decreases modules@.len() - i,
        {
            proof {
                assert(modules@.take(i + 1).drop_last() =~= modules@.take(i as int));
                assert(modules@.take(i + 1).last() == modules@[i as int]);
            }
            builder = modules[i].1.collect(builder);
            i = i + 1;
        }
        proof {
            assert(modules@.take(modules@.len() as int) =~= modules@);
        }
        let pending = builder.take_factories();
        AppBuild { builder, modules, overrides, pending }
    }
}

/// A build in its factory phase: the factories still to run, in queue order.
pub struct AppBuild<V, S, F, M> {
    builder: ContainerBuilder<V, S, F>,
    modules: Vec<(TypeKey, M)>,
    overrides: Vec<(TypeKey, V)>,
    pending: Vec<(TypeKey, F)>,
}

impl<V, S, F, M> AppBuild<V, S, F, M> {
    pub closed spec fn builder(&self) -> ContainerBuilder<V, S, F> {
        self.builder
    }

    pub closed spec fn modules(&self) -> Seq<(TypeKey, M)> {
        self.modules@
    }

    pub closed spec fn overrides(&self) -> Seq<(TypeKey, V)> {
        self.overrides@
    }

    /// The queued factories not yet handed out, in order.
    pub closed spec fn pending(&self) -> Seq<(TypeKey, F)> {
        self.pending@
    }

    /// The next factory to run: the first pending one whose output no provider
    /// supplies yet. The ones before it are skipped, since a seed (or an earlier
    /// factory) wins over a factory of the same type. `None` once the queue is
    /// drained.
    pub fn next_factory(&mut self) -> (f: Option<(TypeKey, F)>)
        ensures
            final(self).builder() == old(self).builder(),
            final(self).modules() == old(self).modules(),
            final(self).overrides() == old(self).overrides(),
            match f {
                Some(kf) => exists|n: int|
                    0 <= n < old(self).pending().len() && #[trigger] old(self).pending()[n] == kf
                        && !old(self).builder().providers().contains_key(kf.0)
                        && (forall|m: int| 0 <= m < n ==> old(self).builder().providers().contains_key(#[trigger] old(self).pending()[m].0))
                        && final(self).pending() == old(self).pending().skip(n + 1),
                None => final(self).pending() == Seq::<(TypeKey, F)>::empty()
                    && forall|m: int| 0 <= m < old(self).pending().len() ==> old(self).builder().providers().contains_key(#[trigger] old(self).pending()[m].0),
            },
    {
        let ghost start = self.pending@;
        let ghost mut skipped: int = 0;
        while self.pending.len() > 0
            invariant
                self.builder == old(self).builder,
                self.modules == old(self).modules,
                self.overrides == old(self).overrides,
                start == old(self).pending@,
                0 <= skipped <= start.len(),
                self.pending@ == start.skip(skipped),
                forall|m: int| 0 <= m < skipped ==> self.builder.providers().contains_key(#[trigger] start[m].0),
            decreases self.pending@.len(),
        {
            let (key, factory) = self.pending.remove(0);
            proof {
                assert(start[skipped] == (key, factory));
                assert(self.pending@ =~= start.skip(skipped + 1));
            }
            if !self.builder.contains(key) {
                assert(0 <= skipped < start.len() && start[skipped] == (key, factory)
                    && !old(self).builder().providers().contains_key(key)
                    && (forall|m: int| 0 <= m < skipped ==> old(self).builder().providers().contains_key(#[trigger] start[m].0))
                    && self.pending@ == start.skip(skipped + 1));
                assert(old(self).pending()[skipped] == (key, factory));
                return Some((key, factory));
            }
            proof {
                skipped = skipped + 1;
            }
        }
        None
    }

    /// Take the container under construction, to apply a factory's registration
    /// to it; an empty builder stands in until [`restore`](Self::restore).
    pub fn take_builder(&mut self) -> (b: ContainerBuilder<V, S, F>)
        ensures
            b == old(self).builder(),
            final(self).modules() == old(self).modules(),
            final(self).overrides() == old(self).overrides(),
            final(self).pending() == old(self).pending(),
    {
        let mut b = Container::builder();
        std::mem::swap(&mut b, &mut self.builder);
        b
    }

    /// Put back the container under construction.
    pub fn restore(&mut self, builder: ContainerBuilder<V, S, F>)
        ensures
            final(self).builder() == builder,
            final(self).modules() == old(self).modules(),
            final(self).overrides() == old(self).overrides(),
            final(self).pending() == old(self).pending(),
    {
        self.builder = builder;
    }
}

/// What a finished build hands back: the container builder with every provider
/// registered, the global set for the access-graph check (every provider present
/// before any module registered: the seeds and factory outputs), and the root
/// modules that root that check.
pub struct BuiltTree<V, S, F> {
    pub builder: ContainerBuilder<V, S, F>,
    pub global: HashSet<TypeKey>,
    pub roots: Vec<TypeKey>,
}

impl<V, S, F, M: ModuleHooks<V, S, F>> AppBuild<V, S, F, M> {
    /// Finish the build once the factory queue is drained: record the global set,
    /// run every module's register phase in order, then apply the overrides so
    /// they win over the modules' own registrations.
    pub fn finish(self) -> (t: BuiltTree<V, S, F>)
        ensures
            t.global@ == self.builder().providers().dom(),
            t.roots@ == self.modules().map_values(|m: (TypeKey, M)| m.0),
            t.builder.providers() == with_overrides(
                self.overrides(),
                register_all(self.modules(), self.builder()).providers(),
            ),
            t.builder.factories() == register_all(self.modules(), self.builder()).factories(),
            t.builder.metadata() == register_all(self.modules(), self.builder()).metadata(),
            t.builder.scoped() == register_all(self.modules(), self.builder()).scoped(),
            t.builder.registered_modules() == register_all(self.modules(), self.builder()).registered_modules(),
            t.builder.collected_modules() == register_all(self.modules(), self.builder()).collected_modules(),
            forall|k: TypeKey|
                #[trigger] overridden(self.overrides(), k) is Some ==> t.builder.providers().contains_key(k)
                    && t.builder.providers()[k] == overridden(self.overrides(), k)->0,
            forall|k: TypeKey|
                #[trigger] overridden(self.overrides(), k) is None ==> (t.builder.providers().contains_key(k)
                    == register_all(self.modules(), self.builder()).providers().contains_key(k) && (register_all(
                    self.modules(),
                    self.builder(),
                ).providers().contains_key(k) ==> t.builder.providers()[k] == register_all(
                    self.modules(),
                    self.builder(),
                ).providers()[k])),
    {
        let AppBuild { builder, modules, overrides, pending } = self;
        let global = builder.provider_ids();
        let mut builder = builder;
        let ghost b0 = builder;
        let mut roots: Vec<TypeKey> = Vec::new();
        let mut i: usize = 0;
        while i < modules.len()
            invariant
                i <= modules@.len(),
                roots@ == modules@.take(i as int).map_values(|m: (TypeKey, M)| m.0),
                builder == register_all(modules@.take(i as int), b0),
            decreases modules@.len() - i,
        {
            proof {
                assert(modules@.take(i + 1).drop_last() =~= modules@.take(i as int));
                assert(modules@.take(i + 1).last() == modules@[i as int]);
            }
            builder = modules[i].1.register(builder);
            roots.push(modules[i].0);
            proof {
                assert(modules@.take(i + 1).map_values(|m: (TypeKey, M)| m.0) =~= modules@.take(i as int).map_values(
                    |m: (TypeKey, M)| m.0,
                ).push(modules@[i as int].0));
            }
            i = i + 1;
        }
        proof {
            assert(modules@.take(modules@.len() as int) =~= modules@);
        }
        let ghost reg = builder;
        let ghost ovs = overrides@;
        let mut rest = overrides;
        let n = rest.len();
        let mut j: usize = 0;
        while j < n
            invariant
                n == ovs.len(),
                j <= n,
                rest@ == ovs.skip(j as int),
                builder.providers() == with_overrides(ovs.take(j as int), reg.providers()),
                builder.factories() == reg.factories(),
                builder.metadata() == reg.metadata(),
                builder.scoped() == reg.scoped(),
                builder.registered_modules() == reg.registered_modules(),
                builder.collected_modules() == reg.collected_modules(),
            decreases n - j,
        {
            let (key, value) = rest.remove(0);
            proof {
                assert(ovs[j as int] == (key, value));
                assert(rest@ =~= ovs.skip(j + 1));
                assert(ovs.take(j + 1).drop_last() =~= ovs.take(j as int));
                assert(ovs.take(j + 1).last() == (key, value));
            }
            builder = builder.replace(key, value);
            j = j + 1;
        }
        proof {
            assert(ovs.take(n as int) =~= ovs);
            assert forall|k: TypeKey| #[trigger] overridden(ovs, k) is Some || overridden(ovs, k) is None implies (
            overridden(ovs, k) matches Some(v) ==> builder.providers().contains_key(k) && builder.providers()[k] == v)
                && (overridden(ovs, k) is None ==> (builder.providers().contains_key(k) == reg.providers().contains_key(k)
                && (reg.providers().contains_key(k) ==> builder.providers()[k] == reg.providers()[k]))) by {
                lemma_override_lookup(ovs, reg.providers(), k);
            }
        }
        BuiltTree { builder, global, roots }
    }
}

/// The init phases, in the order they run before serving.
pub fn init_phases() -> (p: Vec<LifecyclePhase>)
    ensures
        p@ == seq![LifecyclePhase::OnModuleInit, LifecyclePhase::OnApplicationBootstrap],
{
    let mut p = Vec::new();
    p.push(LifecyclePhase::OnModuleInit);
    p.push(LifecyclePhase::OnApplicationBootstrap);
    p
}

/// The shutdown phases, in the order they run once the transports stop.
pub fn shutdown_phases() -> (p: Vec<LifecyclePhase>)
    ensures
        p@ == seq![
            LifecyclePhase::OnModuleDestroy,
            LifecyclePhase::BeforeApplicationShutdown,
            LifecyclePhase::OnApplicationShutdown,
        ],
{
    let mut p = Vec::new();
    p.push(LifecyclePhase::OnModuleDestroy);
    p.push(LifecyclePhase::BeforeApplicationShutdown);
    p.push(LifecyclePhase::OnApplicationShutdown);
    p
}

/// One step of running an application.
#[derive(Clone, Copy, Debug, PartialEq, Eq, Structural)]
pub enum RunStep {
    /// Configure the transport at this position against the container.
    Configure(usize),
    /// Run the hooks of an init phase; a failure aborts the run.
    InitPhase(LifecyclePhase),
    /// Serve every transport until one fails or a shutdown signal arrives.
    Serve,
    /// Run the hooks of a shutdown phase, whatever fails.
    ShutdownPhase(LifecyclePhase),
    /// The run is over.
    Finish,
}

/// The `pos`-th step of a run over `n` transports in which nothing fails: each
/// transport is configured, the two init phases run, the transports serve, the
/// three shutdown phases run.
pub open spec fn step_at(n: nat, pos: nat) -> RunStep {
    if pos < n {
        RunStep::Configure(pos as usize)
    } else if pos == n {
        RunStep::InitPhase(LifecyclePhase::OnModuleInit)
    } else if pos == n + 1 {
        RunStep::InitPhase(LifecyclePhase::OnApplicationBootstrap)
    } else if pos == n + 2 {
        RunStep::Serve
    } else if pos == n + 3 {
        RunStep::ShutdownPhase(LifecyclePhase::OnModuleDestroy)
    } else if pos == n + 4 {
        RunStep::ShutdownPhase(LifecyclePhase::BeforeApplicationShutdown)
    } else if pos == n + 5 {
        RunStep::ShutdownPhase(LifecyclePhase::OnApplicationShutdown)
    } else {
        RunStep::Finish
    }
}

/// Whether a failure at this step aborts the run: configuring a transport and
/// the init phases happen before anything listens, so there is nothing to tear
/// down.
pub open spec fn aborts_on_failure(step: RunStep) -> bool {
    step is Configure || step is InitPhase
}

/// The order of a run: configure the transports, run the init phases, serve, run
/// the shutdown phases. A failure while configuring or in an init phase ends the
/// run at once.
pub struct RunPlan {
    transports: usize,
    pos: usize,
    aborted: bool,
}

impl RunPlan {
    pub closed spec fn transports(&self) -> nat {
        self.transports as nat
    }

    /// How many steps have completed.
    pub closed spec fn position(&self) -> nat {
        self.pos as nat
    }

    /// A configure step or an init phase failed.
    pub closed spec fn aborted(&self) -> bool {
        self.aborted
    }

    /// The step to perform now.
    pub open spec fn step(&self) -> RunStep {
        if self.aborted() {
            RunStep::Finish
        } else {
            step_at(self.transports(), self.position())
        }
    }

    /// Plan a run over `transports` transports.
    pub fn new(transports: usize) -> (p: RunPlan)
        requires
            transports + 6 <= usize::MAX,
        ensures
            p.transports() == transports,
            p.position() == 0,
            !p.aborted(),
    {
        RunPlan { transports, pos: 0, aborted: false }
    }

    /// The step to perform now.
    pub fn current(&self) -> (s: RunStep)
        ensures
            s == self.step(),
    {
        if self.aborted {
            return RunStep::Finish;
        }
        let n = self.transports;
        let pos = self.pos;
        if pos < n {
            RunStep::Configure(pos)
        } else if pos - n == 0 {
            RunStep::InitPhase(LifecyclePhase::OnModuleInit)
        } else if pos - n == 1 {
            RunStep::InitPhase(LifecyclePhase::OnApplicationBootstrap)
        } else if pos - n == 2 {
            RunStep::Serve
        } else if pos - n == 3 {
            RunStep::ShutdownPhase(LifecyclePhase::OnModuleDestroy)
        } else if pos - n == 4 {
            RunStep::ShutdownPhase(LifecyclePhase::BeforeApplicationShutdown)
        } else if pos - n == 5 {
            RunStep::ShutdownPhase(LifecyclePhase::OnApplicationShutdown)
        } else {
            RunStep::Finish
        }
    }

    /// Record the outcome of the current step.
    pub fn advance(&mut self, ok: bool)
        requires
            old(self).transports() + 6 <= usize::MAX,
            old(self).step() != RunStep::Finish,
        ensures
            final(self).transports() == old(self).transports(),
            final(self).position() == old(self).position() + 1,
            final(self).aborted() == (old(self).aborted() || (!ok && aborts_on_failure(old(self).step()))),
    {
        let step = self.current();
        let aborts = match step {
            RunStep::Configure(_) => true,
            RunStep::InitPhase(_) => true,
            _ => false,
        };
        if !ok && aborts {
            self.aborted = true;
        }
        self.pos = self.pos + 1;
    }
}

/// The shutdown phases run exactly when serving did: a run that reaches a shutdown
/// step went through `Serve`, after every transport was configured and every init
/// phase succeeded.
pub proof fn lemma_shutdown_follows_serving(n: nat, pos: nat)
    requires
        step_at(n, pos) is ShutdownPhase,
    ensures
        step_at(n, (n + 2) as nat) == RunStep::Serve,
        pos > n + 2,
        forall|k: nat| k < n ==> step_at(n, k) == RunStep::Configure(k as usize),
{
}

/// The first failure among `exits`, in the order the transports stopped.
pub open spec fn first_failure<E>(exits: Seq<Result<(), E>>) -> Option<E>
    decreases exits.len(),
{
    if exits.len() == 0 {
        None
    } else {
        match first_failure(exits.drop_last()) {
            Some(e) => Some(e),
            None => match exits.last() {
                Err(e) => Some(e),
                Ok(()) => None,
            },
        }
    }
}

/// What the transports' exits amount to: the first failure is kept (and cancels
/// the others); later failures do not replace it.
pub struct ServeOutcome<E> {
    first_err: Option<E>,
    exits: Ghost<Seq<Result<(), E>>>,
}

impl<E> ServeOutcome<E> {
    #[verifier::type_invariant]
    spec fn keeps_first(self) -> bool {
        self.first_err == first_failure(self.exits@)
    }

    /// The exits recorded so far, in order.
    pub closed spec fn exits(&self) -> Seq<Result<(), E>> {
        self.exits@
    }

    /// The failure kept so far.
    pub open spec fn first(&self) -> Option<E> {
        first_failure(self.exits())
    }

    pub fn new() -> (o: Self)
        ensures
            o.exits() == Seq::<Result<(), E>>::empty(),
    {
        ServeOutcome { first_err: None, exits: Ghost(Seq::empty()) }
    }

    /// Record one transport's exit. Returns whether the shared cancellation must
    /// fire now: on the first failure, and only then.
    pub fn on_exit(&mut self, exit: Result<(), E>) -> (cancel: bool)
        ensures
            final(self).exits() == old(self).exits().push(exit),
            cancel == (old(self).first() is None && exit is Err),
    {
        proof {
            use_type_invariant(&*self);
            lemma_serve_keeps_first_failure(self.exits@, exit);
        }
        let ghost seen = self.exits@.push(exit);
        match exit {
            Ok(()) => {
                self.exits = Ghost(seen);
                false
            },
            Err(e) => {
                if self.first_err.is_none() {
                    *self = ServeOutcome { first_err: Some(e), exits: Ghost(seen) };
                    true
                } else {
                    self.exits = Ghost(seen);
                    false
                }
            },
        }
    }

    /// The result of the run: the first failure, or success.
    pub fn into_result(self) -> (r: Result<(), E>)
        ensures
            match self.first() {
                Some(e) => r == Err::<(), E>(e),
                None => r is Ok,
            },
    {
        proof {
            use_type_invariant(&self);
        }
        match self.first_err {
            Some(e) => Err(e),
            None => Ok(()),
        }
    }
}

/// Feeding the exits one by one keeps exactly the first failure, whatever follows.
pub proof fn lemma_serve_keeps_first_failure<E>(exits: Seq<Result<(), E>>, e: Result<(), E>)
    ensures
        first_failure(exits.push(e)) == (match first_failure(exits) {
            Some(x) => Some(x),
            None => match e {
                Err(x) => Some(x),
                Ok(()) => None,
            },
        }),
{
    assert(exits.push(e).drop_last() =~= exits);
}

} // verus!
