use std::any::{Any, TypeId};
use std::collections::hash_map::DefaultHasher;
use std::hash::{Hash, Hasher};
use std::sync::Arc;

use nestrs::boot::{init_phases, shutdown_phases, AppBuilder, ModuleHooks, RunPlan, RunStep, ServeOutcome};
use nestrs::container::{Container, ContainerBuilder};
use nestrs::lifecycle::LifecyclePhase;

type V = Arc<dyn Any + Send + Sync>;
type Factory = Box<dyn FnOnce(&Container<V, ()>) -> Result<V, String>>;
type B = ContainerBuilder<V, (), Factory>;

fn key<T: 'static>() -> u64 {
    let mut h = DefaultHasher::new();
    TypeId::of::<T>().hash(&mut h);
    h.finish()
}

struct Hooks {
    collect: fn(B) -> B,
    register: fn(B) -> B,
}

impl ModuleHooks<V, (), Factory> for Hooks {
    fn collected(&self, b: B) -> B {
        (self.collect)(b)
    }

    fn registered(&self, b: B) -> B {
        (self.register)(b)
    }

    fn collect(&self, b: B) -> B {
        (self.collect)(b)
    }

    fn register(&self, b: B) -> B {
        (self.register)(b)
    }
}

fn get<T: Any + Send + Sync>(c: &Container<V, ()>) -> Option<Arc<T>> {
    c.get(key::<T>()).and_then(|v| v.clone().downcast::<T>().ok())
}

struct Config(u32);
struct Doubled(u32);

fn no_collect(b: B) -> B {
    b
}

fn doubler_register(b: B) -> B {
    let cfg = get::<Config>(&b.snapshot()).expect("Config is present before modules register");
    b.provide(key::<Doubled>(), val(Doubled(cfg.0 * 2)))
}

fn config_collect(b: B) -> B {
    b.provide_factory(key::<Config>(), Box::new(|_| Ok(Arc::new(Config(7)) as V)))
}

fn doubler() -> Hooks {
    Hooks { collect: no_collect, register: doubler_register }
}

fn config_module() -> Hooks {
    Hooks { collect: config_collect, register: no_collect }
}

fn app() -> AppBuilder<V, (), Factory, Hooks> {
    AppBuilder::new()
}

fn val<T: Any + Send + Sync>(x: T) -> V {
    Arc::new(x)
}

fn factory(f: impl FnOnce(&Container<V, ()>) -> Result<V, String> + 'static) -> Factory {
    Box::new(f)
}

/// Drive a build the way an application's `main` does: run the factories one by
/// one, then finish.
fn build(app: AppBuilder<V, (), Factory, Hooks>) -> Result<Container<V, ()>, String> {
    let mut run = app.start_build();
    while let Some((k, factory)) = run.next_factory() {
        let b = run.take_builder();
        let value = factory(&b.snapshot())?;
        run.restore(b.provide(k, value));
    }
    Ok(run.finish().builder.build())
}

#[test]
fn seeds_are_visible_to_modules() {
    let app = app().provide(key::<Config>(), val(Config(21))).module(1, doubler());
    let c = build(app).expect("build succeeds");
    assert_eq!(get::<Doubled>(&c).unwrap().0, 42);
}

#[test]
fn factory_runs_async_and_reads_a_seed() {
    let app = app()
        .provide(key::<Config>(), val(Config(10)))
        .provide_factory(
            key::<Doubled>(),
            factory(|c| {
                let cfg = get::<Config>(c).expect("seed visible to factory");
                Ok(Arc::new(Doubled(cfg.0 + 5)) as V)
            }),
        );
    let c = build(app).unwrap();
    assert_eq!(get::<Doubled>(&c).unwrap().0, 15);
}

struct First(u32);
struct Second(u32);

#[test]
fn later_factory_sees_earlier_factory_output() {
    let app = app()
        .provide_factory(key::<First>(), factory(|_| Ok(val(First(1)))))
        .provide_factory(
            key::<Second>(),
            factory(|c| {
                let first = get::<First>(c).expect("earlier factory output visible");
                Ok(val(Second(first.0 + 1)))
            }),
        );
    let c = build(app).unwrap();
    assert_eq!(get::<Second>(&c).unwrap().0, 2);
}

#[test]
fn modules_inject_factory_output() {
    let app = app().provide_factory(key::<Config>(), factory(|_| Ok(val(Config(7))))).module(1, doubler());
    let c = build(app).unwrap();
    assert_eq!(get::<Doubled>(&c).unwrap().0, 14);
}

#[test]
fn factory_error_aborts_build() {
    let app =
        app().provide_factory(key::<Config>(), factory(|_| Err("connection refused".to_string())));
    let err = build(app).err().expect("a failing factory must abort the build");
    assert!(err.contains("connection refused"));
}

#[test]
fn module_owns_a_factory_via_collect() {
    let app = app().module(1, config_module()).module(2, doubler());
    let c = build(app).unwrap();
    assert_eq!(get::<Doubled>(&c).unwrap().0, 14);
}

#[test]
fn a_seed_short_circuits_a_factory_of_the_same_type() {
    let app = app()
        .provide(key::<Config>(), val(Config(99)))
        .provide_factory(key::<Config>(), factory(|_| panic!("skipped factory must not run")));
    let c = build(app).unwrap();
    assert_eq!(get::<Config>(&c).unwrap().0, 99);
}

#[test]
fn a_seed_short_circuits_a_module_owned_collect_factory() {
    let app = app()
        .provide(key::<Config>(), val(Config(1)))
        .module(1, config_module())
        .module(2, doubler());
    let c = build(app).unwrap();
    assert_eq!(get::<Doubled>(&c).unwrap().0, 2);
}

#[test]
fn overrides_win_over_module_registrations() {
    let app = app()
        .provide(key::<Config>(), val(Config(3)))
        .module(1, doubler())
        .override_value(key::<Doubled>(), val(Doubled(100)))
        .override_dyn(key::<Doubled>(), val(Doubled(200)));
    let c = build(app).unwrap();
    assert_eq!(get::<Doubled>(&c).unwrap().0, 200);
}

#[test]
fn the_global_set_is_what_exists_before_modules_register() {
    let app = app().provide(key::<Config>(), val(Config(3))).module(9, doubler());
    let mut run = app.start_build();
    assert!(run.next_factory().is_none());
    let tree = run.finish();
    assert!(tree.global.contains(&key::<Config>()));
    assert!(!tree.global.contains(&key::<Doubled>()));
    assert_eq!(tree.roots, vec![9]);
}

#[test]
fn phases_run_in_lifecycle_order() {
    assert_eq!(init_phases(), vec![LifecyclePhase::OnModuleInit, LifecyclePhase::OnApplicationBootstrap]);
    assert_eq!(
        shutdown_phases(),
        vec![
            LifecyclePhase::OnModuleDestroy,
            LifecyclePhase::BeforeApplicationShutdown,
            LifecyclePhase::OnApplicationShutdown
        ]
    );
}

#[test]
fn the_first_transport_failure_wins_and_cancels_once() {
    let mut out: ServeOutcome<&str> = ServeOutcome::new();
    assert!(!out.on_exit(Ok(())));
    assert!(out.on_exit(Err("http died")));
    assert!(!out.on_exit(Err("worker died")));
    assert!(!out.on_exit(Ok(())));
    assert_eq!(out.into_result(), Err("http died"));
    let clean: ServeOutcome<&str> = ServeOutcome::new();
    assert_eq!(clean.into_result(), Ok(()));
}

fn steps(transports: usize, fail_at: Option<usize>) -> Vec<RunStep> {
    let mut plan = RunPlan::new(transports);
    let mut seen = Vec::new();
    let mut k = 0;
    loop {
        let step = plan.current();
        seen.push(step);
        if step == RunStep::Finish {
            return seen;
        }
        plan.advance(fail_at != Some(k));
        k += 1;
    }
}

#[test]
fn a_run_configures_inits_serves_then_shuts_down() {
    assert_eq!(
        steps(2, None),
        vec![
            RunStep::Configure(0),
            RunStep::Configure(1),
            RunStep::InitPhase(LifecyclePhase::OnModuleInit),
            RunStep::InitPhase(LifecyclePhase::OnApplicationBootstrap),
            RunStep::Serve,
            RunStep::ShutdownPhase(LifecyclePhase::OnModuleDestroy),
            RunStep::ShutdownPhase(LifecyclePhase::BeforeApplicationShutdown),
            RunStep::ShutdownPhase(LifecyclePhase::OnApplicationShutdown),
            RunStep::Finish,
        ]
    );
}

#[test]
fn a_failure_before_serving_ends_the_run_at_once() {
    assert_eq!(steps(2, Some(1)), vec![RunStep::Configure(0), RunStep::Configure(1), RunStep::Finish]);
    assert_eq!(
        steps(0, Some(0)),
        vec![RunStep::InitPhase(LifecyclePhase::OnModuleInit), RunStep::Finish]
    );
}

#[test]
fn a_failing_shutdown_phase_does_not_stop_the_others() {
    let s = steps(0, Some(3));
    assert_eq!(s.len(), 7);
    assert_eq!(s[4], RunStep::ShutdownPhase(LifecyclePhase::BeforeApplicationShutdown));
}
