//! Health probes: liveness, readiness and startup, each answered `200` with a
//! positive word or `503` with a negative one.

use vstd::prelude::*;

use crate::container::{entries_at, ContainerBuilder, MetaEntry};
use crate::TypeKey;

verus! {

/// The answer to one probe.
pub struct ProbeResponse {
    pub status: u16,
    pub body: &'static str,
}

/// Serves the probes under `/health`, asking the injected health check.
pub struct HealthController<H> {
    pub svc: H,
}

impl<H> HealthController<H> {
    /// `GET /health/live`.
    pub fn live_response(is_live: bool) -> (r: ProbeResponse)
        ensures
            is_live ==> r.status == 200 && r.body@ == "ok"@,
            !is_live ==> r.status == 503 && r.body@ == "dead"@,
    {
        proof {
            reveal_strlit("ok");
            reveal_strlit("dead");
        }
        if is_live {
            ProbeResponse { status: 200, body: "ok" }
        } else {
            ProbeResponse { status: 503, body: "dead" }
        }
    }

    /// `GET /health/ready`.
    pub fn ready_response(is_ready: bool) -> (r: ProbeResponse)
        ensures
            is_ready ==> r.status == 200 && r.body@ == "ready"@,
            !is_ready ==> r.status == 503 && r.body@ == "not ready"@,
    {
        proof {
            reveal_strlit("ready");
            reveal_strlit("not ready");
        }
        if is_ready {
            ProbeResponse { status: 200, body: "ready" }
        } else {
            ProbeResponse { status: 503, body: "not ready" }
        }
    }

    /// `GET /health/startup`.
    pub fn startup_response(is_started: bool) -> (r: ProbeResponse)
        ensures
            is_started ==> r.status == 200 && r.body@ == "started"@,
            !is_started ==> r.status == 503 && r.body@ == "starting"@,
    {
        proof {
            reveal_strlit("started");
            reveal_strlit("starting");
        }
        if is_started {
            ProbeResponse { status: 200, body: "started" }
        } else {
            ProbeResponse { status: 503, body: "starting" }
        }
    }
}

/// Provides the health check, bound as its trait object, and the controller.
pub struct HealthModule;

impl HealthModule {
    /// Register the module once: the health check under the key of its trait-object
    /// binding, and the controller's route metadata attached to the controller. A
    /// second registration through the same builder changes nothing.
    pub fn register<V, S, F>(
        builder: ContainerBuilder<V, S, F>,
        module_key: TypeKey,
        check_key: TypeKey,
        check: V,
        controller_key: TypeKey,
        route_meta_key: TypeKey,
        route_meta: V,
    ) -> (b: ContainerBuilder<V, S, F>)
        ensures
            builder.registered_modules().contains(module_key) ==> b.providers() == builder.providers()
                && b.metadata() == builder.metadata(),
            !builder.registered_modules().contains(module_key) ==> b.providers() == builder.providers().insert(
                check_key,
                check,
            ) && b.metadata() == builder.metadata().insert(
                route_meta_key,
                entries_at(builder.metadata(), route_meta_key).push(
                    MetaEntry { provider_type_id: Some(controller_key), meta: route_meta },
                ),
            ),
            b.registered_modules() == builder.registered_modules().insert(module_key),
            b.factories() == builder.factories(),
    {
        let mut b = builder;
        if !b.mark_registered(module_key) {
            return b;
        }
        let b = b.provide_dyn(check_key, check);
        b.attach_meta(controller_key, route_meta_key, route_meta)
    }
}

} // verus!
