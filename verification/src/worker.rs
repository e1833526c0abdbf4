//! The worker application: its root module and its queue consumer.

use vstd::prelude::*;

use crate::TypeKey;

verus! {

/// The worker's root module: the queue connection and the audio feature.
pub struct AppModule;

impl AppModule {
    /// The queue connection URL: the `REDIS_URL` setting, else the local default.
    pub fn queue_url(redis_url: Option<String>) -> (u: String)
        ensures
            match redis_url {
                Some(v) => u@ == v@,
                None => u@ == "redis://127.0.0.1/"@,
            },
    {
        match redis_url {
            Some(v) => v,
            None => {
                proof {
                    reveal_strlit("redis://127.0.0.1/");
                }
                "redis://127.0.0.1/".to_owned()
            },
        }
    }
}

/// How a queue processor is discovered and run.
pub struct ProcessorConfig {
    pub name: &'static str,
    pub queue: &'static str,
    pub concurrency: usize,
    pub retries: u32,
}

/// A type that knows the key it is registered under in the container.
pub trait Keyed {
    /// The key of this type.
    spec fn key_of() -> TypeKey;

    fn key() -> (k: TypeKey)
        ensures
            k == Self::key_of(),
    ;
}

/// Consumes transcode jobs from the `audio` queue with the injected transcoder.
pub struct AudioConsumer<T> {
    pub transcoder: T,
}

impl<T: Keyed> AudioConsumer<T> {
    /// The providers that must be registered before this one is built: none, since
    /// the queue worker builds it from the finished container.
    pub fn dependencies() -> (d: Vec<TypeKey>)
        ensures
            d@.len() == 0,
    {
        Vec::new()
    }

    /// The dependencies it pulls from the container, for the access-graph check:
    /// its transcoder.
    pub fn injected() -> (d: Vec<TypeKey>)
        ensures
            d@ == seq![T::key_of()],
    {
        let mut d = Vec::new();
        d.push(T::key());
        d
    }
}

impl<T> AudioConsumer<T> {
    /// Five jobs at a time from the `audio` queue, three retries each.
    pub fn processor_config() -> (c: ProcessorConfig)
        ensures
            c.name@ == "AudioConsumer"@,
            c.queue@ == "audio"@,
            c.concurrency == 5,
            c.retries == 3,
    {
        proof {
            reveal_strlit("AudioConsumer");
            reveal_strlit("audio");
        }
        ProcessorConfig { name: "AudioConsumer", queue: "audio", concurrency: 5, retries: 3 }
    }
}

} // verus!
