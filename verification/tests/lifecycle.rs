use nestrs::lifecycle::{failure_message, hooks_for, str_less, LifecycleHook, LifecyclePhase, PhaseRun};

fn hook(phase: LifecyclePhase, provider: &'static str, method: &'static str, run: u32) -> LifecycleHook<u32> {
    LifecycleHook { phase, provider, method, run }
}

fn registry() -> Vec<LifecycleHook<u32>> {
    vec![
        hook(LifecyclePhase::OnModuleInit, "Zeta", "start", 0),
        hook(LifecyclePhase::OnApplicationShutdown, "Alpha", "stop", 1),
        hook(LifecyclePhase::OnModuleInit, "Alpha", "warm", 2),
        hook(LifecyclePhase::OnModuleInit, "Alpha", "open", 3),
        hook(LifecyclePhase::OnModuleInit, "Alpha", "open", 4),
    ]
}

#[test]
fn text_order_is_by_code_point() {
    assert!(str_less("Alpha", "Beta"));
    assert!(str_less("Al", "Alpha"));
    assert!(!str_less("Alpha", "Alpha"));
    assert!(!str_less("b", "B"));
    assert!(str_less("", "a"));
}

#[test]
fn hooks_of_a_phase_run_in_provider_then_method_order() {
    let reg = registry();
    let order = hooks_for(&reg, LifecyclePhase::OnModuleInit);
    // Equal names keep their registry order.
    assert_eq!(order, vec![3, 4, 2, 0]);
    assert_eq!(hooks_for(&reg, LifecyclePhase::OnApplicationShutdown), vec![1]);
    assert!(hooks_for(&reg, LifecyclePhase::OnModuleDestroy).is_empty());
}

#[test]
fn runs_registered_init_hook_against_the_container_instance() {
    let reg = vec![hook(LifecyclePhase::OnModuleInit, "Probe", "touch", 7)];
    let mut hits = 0;
    let mut run = PhaseRun::start(&reg, LifecyclePhase::OnModuleInit, true);
    while let Some(i) = run.next_hook() {
        assert_eq!(reg[i].run, 7);
        hits += 1;
        run.record(true);
    }
    assert_eq!(hits, 1);
    assert_eq!(run.failure(), None);
}

#[test]
fn phase_with_no_hooks_is_a_noop() {
    let reg: Vec<LifecycleHook<u32>> = Vec::new();
    let run = PhaseRun::start(&reg, LifecyclePhase::OnApplicationShutdown, true);
    assert_eq!(run.next_hook(), None);
    assert_eq!(run.failure(), None);
}

#[test]
fn a_strict_phase_stops_at_the_first_failure() {
    let reg = registry();
    let mut run = PhaseRun::start(&reg, LifecyclePhase::OnModuleInit, true);
    let mut ran = Vec::new();
    while let Some(i) = run.next_hook() {
        ran.push(i);
        run.record(i != 4);
    }
    assert_eq!(ran, vec![3, 4]);
    assert_eq!(run.failure(), Some(4));
}

#[test]
fn a_lenient_phase_runs_every_hook() {
    let reg = registry();
    let mut run = PhaseRun::start(&reg, LifecyclePhase::OnModuleInit, false);
    let mut ran = Vec::new();
    while let Some(i) = run.next_hook() {
        ran.push(i);
        run.record(false);
    }
    assert_eq!(ran, vec![3, 4, 2, 0]);
    assert_eq!(run.failure(), None);
}

#[test]
fn a_failed_hook_is_reported_with_its_names_and_phase() {
    assert_eq!(
        failure_message(LifecyclePhase::OnApplicationBootstrap, "Cache", "warm"),
        "lifecycle hook Cache::warm (OnApplicationBootstrap) failed"
    );
}
