use std::any::{Any, TypeId};
use std::collections::hash_map::DefaultHasher;
use std::hash::{Hash, Hasher};
use std::sync::Arc;

use nestrs::container::Container;
use nestrs::health::{HealthController, HealthModule};

type V = Arc<dyn Any + Send + Sync>;

fn key<T: ?Sized + 'static>() -> u64 {
    let mut h = DefaultHasher::new();
    TypeId::of::<T>().hash(&mut h);
    h.finish()
}

/// The probes the health controller asks.
trait HealthCheck: Send + Sync {
    fn is_live(&self) -> bool;
}

struct HealthService;

impl HealthCheck for HealthService {
    fn is_live(&self) -> bool {
        true
    }
}

struct RouteMeta(&'static str);

fn register(b: nestrs::container::ContainerBuilder<V, (), ()>) -> nestrs::container::ContainerBuilder<V, (), ()> {
    let check: Arc<dyn HealthCheck> = Arc::new(HealthService);
    HealthModule::register(
        b,
        key::<HealthModule>(),
        key::<Arc<dyn HealthCheck>>(),
        Arc::new(check) as V,
        key::<HealthController<()>>(),
        key::<RouteMeta>(),
        Arc::new(RouteMeta("/health")) as V,
    )
}

#[test]
fn registers_default_health_check() {
    let container = register(Container::<V, ()>::builder()).build();
    let svc: Option<Arc<dyn HealthCheck>> = container
        .get_dyn(key::<Arc<dyn HealthCheck>>())
        .and_then(|v| v.clone().downcast::<Arc<dyn HealthCheck>>().ok())
        .map(|outer| (*outer).clone());
    assert!(svc.is_some());
    assert!(svc.unwrap().is_live());
}

#[test]
fn registering_the_module_twice_changes_nothing() {
    let once = register(Container::<V, ()>::builder());
    let twice = register(register(Container::<V, ()>::builder()));
    let c1 = once.build();
    let c2 = twice.build();
    let entries = |c: &Container<V, ()>| c.metadata_entries(key::<RouteMeta>()).map(|v| v.len());
    assert_eq!(entries(&c1), Some(1));
    assert_eq!(entries(&c2), Some(1));
}

#[test]
fn probes_answer_200_or_503() {
    let live = HealthController::<()>::live_response(true);
    assert_eq!((live.status, live.body), (200, "ok"));
    let dead = HealthController::<()>::live_response(false);
    assert_eq!((dead.status, dead.body), (503, "dead"));
    assert_eq!(HealthController::<()>::ready_response(true).body, "ready");
    assert_eq!(HealthController::<()>::ready_response(false).body, "not ready");
    assert_eq!(HealthController::<()>::startup_response(true).body, "started");
    let starting = HealthController::<()>::startup_response(false);
    assert_eq!((starting.status, starting.body), (503, "starting"));
}
