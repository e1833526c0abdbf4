use std::any::{Any, TypeId};
use std::collections::hash_map::DefaultHasher;
use std::hash::{Hash, Hasher};
use std::sync::Arc;

use nestrs::container::{Container, ContainerBuilder};

type AnyArc = Arc<dyn Any + Send + Sync>;
type C = Container<AnyArc, ()>;
type B = ContainerBuilder<AnyArc, (), ()>;

fn key<T: ?Sized + 'static>() -> u64 {
    let mut h = DefaultHasher::new();
    TypeId::of::<T>().hash(&mut h);
    h.finish()
}

fn builder() -> B {
    C::builder()
}

fn provide<T: Any + Send + Sync>(b: B, value: T) -> B {
    b.provide(key::<T>(), Arc::new(value))
}

fn get<T: Any + Send + Sync>(c: &C) -> Option<Arc<T>> {
    c.get(key::<T>()).and_then(|any| any.clone().downcast::<T>().ok())
}

fn provide_dyn<T: ?Sized + Send + Sync + 'static>(b: B, value: Arc<T>) -> B {
    b.provide_dyn(key::<Arc<T>>(), Arc::new(value))
}

fn get_dyn<T: ?Sized + Send + Sync + 'static>(c: &C) -> Option<Arc<T>> {
    c.get_dyn(key::<Arc<T>>())
        .and_then(|any| any.clone().downcast::<Arc<T>>().ok())
        .map(|outer| (*outer).clone())
}

struct Greeter(&'static str);
struct Counter(u32);

#[test]
fn resolves_a_provided_value() {
    let container = provide(builder(), Greeter("hi")).build();
    let resolved: Arc<Greeter> = get(&container).expect("greeter is registered");
    assert_eq!(resolved.0, "hi");
}

#[test]
fn resolves_multiple_distinct_types() {
    let container = provide(provide(builder(), Greeter("hi")), Counter(42)).build();
    assert_eq!(get::<Greeter>(&container).unwrap().0, "hi");
    assert_eq!(get::<Counter>(&container).unwrap().0, 42);
}

#[test]
fn missing_type_returns_none() {
    let container = builder().build();
    assert!(get::<Greeter>(&container).is_none());
}

#[test]
fn provide_override_keeps_the_last_value() {
    let container = provide(provide(builder(), Counter(1)), Counter(2)).build();
    assert_eq!(get::<Counter>(&container).unwrap().0, 2);
}

#[test]
fn provide_arc_preserves_the_same_instance() {
    let shared = Arc::new(Counter(7));
    let container = builder().provide_arc(key::<Counter>(), shared.clone()).build();
    let resolved: Arc<Counter> = get(&container).unwrap();
    assert!(Arc::ptr_eq(&shared, &resolved));
}

#[test]
fn container_is_cheap_to_clone() {
    let container = provide(builder(), Greeter("hi")).build();
    let cloned = container.clone();
    assert_eq!(get::<Greeter>(&cloned).unwrap().0, "hi");
}

trait Hello: Send + Sync {
    fn say(&self) -> &'static str;
}
struct Polite;
impl Hello for Polite {
    fn say(&self) -> &'static str {
        "hello"
    }
}
struct Curt;
impl Hello for Curt {
    fn say(&self) -> &'static str {
        "hi"
    }
}

#[test]
fn provide_dyn_then_get_dyn_returns_the_impl() {
    let polite: Arc<dyn Hello + Send + Sync> = Arc::new(Polite);
    let container = provide_dyn(builder(), polite).build();
    let resolved: Arc<dyn Hello + Send + Sync> = get_dyn(&container).expect("dyn Hello provider");
    assert_eq!(resolved.say(), "hello");
}

#[test]
fn provide_dyn_last_binding_wins() {
    let polite: Arc<dyn Hello + Send + Sync> = Arc::new(Polite);
    let curt: Arc<dyn Hello + Send + Sync> = Arc::new(Curt);
    let container = provide_dyn(provide_dyn(builder(), polite), curt).build();
    let resolved: Arc<dyn Hello + Send + Sync> = get_dyn(&container).unwrap();
    assert_eq!(resolved.say(), "hi");
}

#[derive(Debug, PartialEq)]
struct Marker(&'static str);

struct Host;

fn attach<P: 'static, M: Any + Send + Sync>(b: B, meta: M) -> B {
    b.attach_meta(key::<P>(), key::<M>(), Arc::new(meta))
}

#[test]
fn attach_meta_preserves_insertion_order() {
    let container = attach::<Host, _>(
        attach::<Host, _>(attach::<Host, _>(builder(), Marker("first")), Marker("second")),
        Marker("third"),
    )
    .build();
    let entries = container.metadata_entries(key::<Marker>()).expect("Marker metadata present");
    assert_eq!(entries.len(), 3);
    let values: Vec<&str> = entries
        .iter()
        .map(|e| e.meta.clone().downcast::<Marker>().unwrap().0)
        .collect();
    assert_eq!(values, ["first", "second", "third"]);
}

#[test]
fn attach_meta_records_provider_type_id() {
    let container = attach::<Host, _>(builder(), Marker("hi")).build();
    let entries = container.metadata_entries(key::<Marker>()).unwrap();
    assert_eq!(entries[0].provider_type_id, Some(key::<Host>()));
}

#[test]
fn provide_meta_has_no_host() {
    let container = builder().provide_meta(key::<Marker>(), Arc::new(Marker("free"))).build();
    let entries = container.metadata_entries(key::<Marker>()).unwrap();
    assert_eq!(entries[0].provider_type_id, None);
}

#[test]
fn metadata_returns_none_when_absent() {
    let container = builder().build();
    assert!(container.metadata_entries(key::<Marker>()).is_none());
}

#[test]
fn mark_registered_is_true_once_then_false() {
    let mut builder = builder();
    assert!(builder.mark_registered(key::<Host>()));
    assert!(!builder.mark_registered(key::<Host>()));
    // A distinct type is independent.
    assert!(builder.mark_registered(key::<Marker>()));
}
