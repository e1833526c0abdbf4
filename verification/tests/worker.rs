use std::any::TypeId;
use std::collections::hash_map::DefaultHasher;
use std::hash::{Hash, Hasher};

use nestrs::config::setting;
use nestrs::worker::{AppModule, AudioConsumer, Keyed};

fn key<T: 'static>() -> u64 {
    let mut h = DefaultHasher::new();
    TypeId::of::<T>().hash(&mut h);
    h.finish()
}

/// The consumer's injected transcoder.
struct Transcoder;

impl Keyed for Transcoder {
    fn key_of() -> u64 {
        key::<Transcoder>()
    }

    fn key() -> u64 {
        key::<Transcoder>()
    }
}

#[test]
fn consumer_declares_its_injected_dependency_for_the_access_graph() {
    // Built by the queue worker, so `dependencies` is empty; the access-graph
    // check reads `injected` instead.
    assert!(AudioConsumer::<Transcoder>::dependencies().is_empty());
    assert!(
        AudioConsumer::<Transcoder>::injected().contains(&key::<Transcoder>()),
        "the processor's injected Transcoder is recorded for the access graph",
    );
}

#[test]
fn consumer_runs_five_audio_jobs_at_a_time_with_three_retries() {
    let c = AudioConsumer::<Transcoder>::processor_config();
    assert_eq!(c.name, "AudioConsumer");
    assert_eq!(c.queue, "audio");
    assert_eq!(c.concurrency, 5);
    assert_eq!(c.retries, 3);
}

#[test]
fn the_queue_url_defaults_to_a_local_redis() {
    assert_eq!(AppModule::queue_url(None), "redis://127.0.0.1/");
    assert_eq!(AppModule::queue_url(Some("redis://cache:6379/".to_string())), "redis://cache:6379/");
}

#[test]
fn an_empty_setting_counts_as_unset() {
    assert_eq!(setting(Some(String::new())), None);
    assert_eq!(setting(Some("4242".to_string())), Some("4242".to_string()));
    assert_eq!(setting(None), None);
}
