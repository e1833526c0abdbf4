use std::any::TypeId;
use std::collections::hash_map::DefaultHasher;
use std::collections::HashSet;
use std::hash::{Hash, Hasher};

use nestrs::access::{validate_access_graph, validate_resolver_membership, ResolverDescriptor};
use nestrs::graph::{ModuleDescriptor, ProviderDescriptor};

// Distinct marker types mint stable keys and module identities for the graph under test.
struct AppMod;
struct UsersMod;
struct BillingMod;

struct UsersService;
struct BillingService;
struct AppGuard;
struct Db;
struct OrgsResolver;

fn key<T: 'static>() -> u64 {
    let mut h = DefaultHasher::new();
    TypeId::of::<T>().hash(&mut h);
    h.finish()
}

fn no_deps() -> Vec<u64> {
    Vec::new()
}

/// `UsersService` depends on the global `Db`.
fn users_deps() -> Vec<u64> {
    vec![key::<Db>()]
}

/// `BillingService` depends on `UsersService` (which lives in `UsersMod`).
fn billing_deps() -> Vec<u64> {
    vec![key::<UsersService>()]
}

fn provider(name: &str, provides: u64, injects: Vec<u64>) -> ProviderDescriptor {
    ProviderDescriptor { name: name.to_string(), provides, injects }
}

fn module(module: u64, name: &str, imports: Vec<u64>, providers: Vec<ProviderDescriptor>) -> ModuleDescriptor {
    ModuleDescriptor { module, name: name.to_string(), imports, providers }
}

fn users_module() -> ModuleDescriptor {
    module(
        key::<UsersMod>(),
        "UsersModule",
        vec![],
        vec![provider("UsersService", key::<UsersService>(), users_deps())],
    )
}

fn global() -> HashSet<u64> {
    HashSet::from([key::<Db>()])
}

#[test]
fn dependency_on_global_infrastructure_passes() {
    let users = users_module();
    let app = module(key::<AppMod>(), "AppModule", vec![key::<UsersMod>()], vec![]);
    let descriptors = [app, users];
    assert!(
        validate_access_graph(&descriptors, &[key::<AppMod>()], &global()).is_ok(),
        "a dependency on global infrastructure is always reachable"
    );
}

#[test]
fn same_module_dependency_passes() {
    let app = module(
        key::<AppMod>(),
        "AppModule",
        vec![],
        vec![
            provider("AppAbility", key::<UsersService>(), no_deps()),
            provider("AppGuard", key::<AppGuard>(), billing_deps()),
        ],
    );
    assert!(
        validate_access_graph(&[app], &[key::<AppMod>()], &HashSet::new()).is_ok(),
        "a provider may depend on another provider of the same module"
    );
}

#[test]
fn imported_module_dependency_passes() {
    let users = users_module();
    let billing = module(
        key::<BillingMod>(),
        "BillingModule",
        vec![key::<UsersMod>()],
        vec![provider("BillingService", key::<BillingService>(), billing_deps())],
    );
    let app = module(key::<AppMod>(), "AppModule", vec![key::<BillingMod>(), key::<UsersMod>()], vec![]);
    assert!(
        validate_access_graph(&[app, billing, users], &[key::<AppMod>()], &global()).is_ok(),
        "an imported module's provider is reachable"
    );
}

#[test]
fn unimported_cross_module_dependency_is_rejected() {
    let users = users_module();
    let billing = module(
        key::<BillingMod>(),
        "BillingModule",
        vec![],
        vec![provider("BillingService", key::<BillingService>(), billing_deps())],
    );
    let app = module(key::<AppMod>(), "AppModule", vec![key::<BillingMod>(), key::<UsersMod>()], vec![]);
    let err = match validate_access_graph(&[app, billing, users], &[key::<AppMod>()], &global()) {
        Ok(()) => panic!("reaching an unimported module must fail"),
        Err(e) => e,
    };
    assert_eq!(err.consumer, "BillingService");
    assert_eq!(err.module, "BillingModule");
    assert_eq!(err.dependency, "UsersService");
    assert_eq!(err.owner, "UsersModule");
    let msg = err.message();
    assert!(msg.contains("BillingService"), "{msg}");
    assert!(msg.contains("UsersModule"), "{msg}");
}

#[test]
fn unimported_module_outside_the_root_tree_is_not_validated() {
    let billing = module(
        key::<BillingMod>(),
        "BillingModule",
        vec![],
        vec![provider("BillingService", key::<BillingService>(), billing_deps())],
    );
    let app = module(key::<AppMod>(), "AppModule", vec![], vec![]);
    assert!(
        validate_access_graph(&[app, billing], &[key::<AppMod>()], &HashSet::new()).is_ok(),
        "a module outside the root's import tree is not validated"
    );
}

#[test]
fn hand_written_root_without_descriptor_is_a_noop() {
    assert!(
        validate_access_graph(&[], &[key::<AppMod>()], &HashSet::new()).is_ok(),
        "a root with no descriptor validates trivially"
    );
}

fn orgs_resolver_desc() -> ResolverDescriptor {
    ResolverDescriptor { resolver: key::<OrgsResolver>(), name: "OrgsResolver".to_string() }
}

#[test]
fn listed_resolver_passes_membership() {
    let app = module(
        key::<AppMod>(),
        "AppModule",
        vec![],
        vec![provider("OrgsResolver", key::<OrgsResolver>(), no_deps())],
    );
    assert!(
        validate_resolver_membership(&[app], &[key::<AppMod>()], &[orgs_resolver_desc()]).is_ok(),
        "a resolver listed in a reachable module's providers is a member"
    );
}

#[test]
fn unlisted_resolver_fails_membership() {
    let app = module(key::<AppMod>(), "AppModule", vec![], vec![]);
    let err = match validate_resolver_membership(&[app], &[key::<AppMod>()], &[orgs_resolver_desc()]) {
        Ok(()) => panic!("a resolver in no reachable module must fail the boot"),
        Err(e) => e,
    };
    assert_eq!(err.resolver, "OrgsResolver");
    let msg = err.message();
    assert!(msg.contains("OrgsResolver"), "{msg}");
}

#[test]
fn resolver_listed_only_in_unreachable_module_fails_membership() {
    let billing = module(
        key::<BillingMod>(),
        "BillingModule",
        vec![],
        vec![provider("OrgsResolver", key::<OrgsResolver>(), no_deps())],
    );
    let app = module(key::<AppMod>(), "AppModule", vec![], vec![]);
    let err = match validate_resolver_membership(&[app, billing], &[key::<AppMod>()], &[orgs_resolver_desc()]) {
        Ok(()) => panic!("a resolver listed only in an unimported module must fail"),
        Err(e) => e,
    };
    assert_eq!(err.resolver, "OrgsResolver");
}
