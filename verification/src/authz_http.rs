//! The HTTP side of authorization: the route-level access gate, the guard that
//! builds the request's ability, the decision of how a response body is masked,
//! and the checks of route-model binding.

use std::marker::PhantomData;

use vstd::prelude::*;

use crate::authz::{class_granted, Ability, AbilityBuilder, AbilityFactory, ActionMarker, Subject};
use crate::http::{is_success, Rejection};
use crate::TypeKey;

verus! {

/// The message a request gets when no ability was attached to it.
pub open spec fn missing_ability_message() -> Seq<char> {
    "missing request `Ability` — is the ability guard applied to this route?"@
}

/// Declares that a handler requires action `A` on subject `S` (stored under the
/// subject's key): the request is refused with `403` unless the request's
/// [`Ability`] grants it.
pub struct Authorize<A, S> {
    marker: PhantomData<(A, S)>,
}

impl<A: ActionMarker, S: Subject> Authorize<A, S> {
    /// Decide the request. The ability is the one the ability guard attached to
    /// the request; its absence is a `500` (the guard was not applied to the route,
    /// a wiring bug), a refusal of the class-level check a `403`.
    pub fn check(ability: Option<&Ability>, subject: TypeKey) -> (r: Result<Authorize<A, S>, Rejection>)
        ensures
            ability is None ==> (r matches Err(e) && e.status == 500 && e.message@ == missing_ability_message()),
            ability matches Some(a) ==> (r is Ok <==> class_granted(a.rules(), A::marked(), subject)),
            ability matches Some(a) ==> (r matches Err(e) ==> e.status == 403 && e.message@ == "forbidden"@),
    {
        match ability {
            None => {
                let msg = "missing request `Ability` — is the ability guard applied to this route?";
                proof {
                    reveal_strlit("missing request `Ability` — is the ability guard applied to this route?");
                }
                Err(Rejection::new(500, msg))
            },
            Some(a) => {
                if a.can_class(A::action(), subject) {
                    Ok(Authorize { marker: PhantomData })
                } else {
                    Err(Rejection::new(403, "forbidden"))
                }
            },
        }
    }
}

/// The message a request gets when the ability guard runs before authentication.
pub open spec fn missing_actor_message() -> Seq<char> {
    "AbilityGuard requires an authentication guard to run first"@
}

/// The ability guard's decision: build the actor's ability with the application's
/// factory, or refuse with `500` when no authentication guard attached an actor.
pub fn ability_for<F: AbilityFactory>(factory: &F, actor: Option<&F::Actor>) -> (r: Result<Ability, Rejection>)
    ensures
        actor is None <==> r is Err,
        r matches Err(e) ==> e.status == 500 && e.message@ == missing_actor_message(),
        actor matches Some(x) ==> (r matches Ok(a) && a.rules() == factory.ability_of(*x).rules()),
{
    match actor {
        None => Err(Rejection::new(500, "AbilityGuard requires an authentication guard to run first")),
        Some(actor) => {
            let mut builder = AbilityBuilder::new();
            factory.define(actor, &mut builder);
            assert(builder.rules() =~= factory.ability_of(*actor).rules());
            Ok(builder.build())
        },
    }
}

/// How a handler's response is masked.
#[derive(PartialEq, Eq, Structural, Debug, Clone, Copy)]
pub enum MaskPlan {
    /// Not a successful JSON object or array: sent as it is.
    PassThrough,
    /// A JSON array: each row is checked and masked.
    Many,
    /// A JSON object: its fields are masked.
    One,
}

/// The bytes `u8::is_ascii_whitespace` accepts.
pub open spec fn ascii_whitespace(b: u8) -> bool {
    b == 0x20 || b == 0x09 || b == 0x0a || b == 0x0c || b == 0x0d
}

/// The first byte of `body` that is not ASCII whitespace, if any.
pub open spec fn first_non_space(body: Seq<u8>) -> Option<u8>
    decreases body.len(),
{
    if body.len() == 0 {
        None
    } else if ascii_whitespace(body[0]) {
        first_non_space(body.drop_first())
    } else {
        Some(body[0])
    }
}

/// A media type that starts with `application/json`.
pub open spec fn json_media_type(content_type: Seq<char>) -> bool {
    content_type.len() >= 16 && content_type.subrange(0, 16) == "application/json"@
}

/// The plan for a response with this status, content type and body.
pub open spec fn plan_for(status: u16, content_type: Option<&str>, body: Seq<u8>) -> MaskPlan {
    if !is_success(status) {
        MaskPlan::PassThrough
    } else if !(content_type matches Some(ct) && json_media_type(ct@)) {
        MaskPlan::PassThrough
    } else {
        match first_non_space(body) {
            Some(b) => if b == 0x5b {
                MaskPlan::Many
            } else if b == 0x7b {
                MaskPlan::One
            } else {
                MaskPlan::PassThrough
            },
            None => MaskPlan::PassThrough,
        }
    }
}

/// Decide how a response is masked: a successful JSON body is masked as an array
/// or an object by its first non-whitespace byte; anything else passes through.
pub fn mask_plan(status: u16, content_type: Option<&str>, body: &[u8]) -> (p: MaskPlan)
    ensures
        p == plan_for(status, content_type, body@),
{
    if !(200 <= status && status <= 299) {
        return MaskPlan::PassThrough;
    }
    let is_json = match content_type {
        Some(ct) => starts_with_json(ct),
        None => false,
    };
    if !is_json {
        return MaskPlan::PassThrough;
    }
    let mut i: usize = 0;
    assert(body@.skip(0) =~= body@);
    while i < body.len()
        invariant
            is_success(status),
            content_type matches Some(ct) && json_media_type(ct@),
            i <= body@.len(),
            first_non_space(body@) == first_non_space(body@.skip(i as int)),
        decreases body@.len() - i,
    {
        let b = body[i];
        assert(body@.skip(i as int)[0] == b);
        if !(b == 0x20 || b == 0x09 || b == 0x0a || b == 0x0c || b == 0x0d) {
            if b == 0x5b {
                return MaskPlan::Many;
            } else if b == 0x7b {
                return MaskPlan::One;
            }
            return MaskPlan::PassThrough;
        }
        proof {
            assert(body@.skip(i as int).drop_first() =~= body@.skip(i + 1));
        }
        i = i + 1;
    }
    MaskPlan::PassThrough
}

fn starts_with_json(ct: &str) -> (b: bool)
    ensures
        b == json_media_type(ct@),
{
    let prefix = "application/json";
    proof {
        reveal_strlit("application/json");
    }
    let n = ct.unicode_len();
    if n < 16 {
        return false;
    }
    let mut i: usize = 0;
    while i < 16
        invariant
            n == ct@.len(),
            n >= 16,
            prefix@ == "application/json"@,
            prefix@.len() == 16,
            i <= 16,
            forall|j: int| 0 <= j < i ==> ct@[j] == prefix@[j],
        decreases 16 - i,
    {
        if ct.get_char(i) != prefix.get_char(i) {
            assert(ct@.subrange(0, 16)[i as int] != prefix@[i as int]);
            return false;
        }
        i = i + 1;
    }
    assert(ct@.subrange(0, 16) =~= prefix@);
    true
}

/// The version number of the UUID with this 128-bit value: the high nibble of the
/// seventh byte of its big-endian form.
fn uuid_version(id: u128) -> (v: usize)
    ensures
        v == ((id >> 76u128) & 0xfu128),
{
    let nibble: u128 = (id >> 76u128) & 0xfu128;
    assert(nibble <= 0xf) by (bit_vector)
        requires
            nibble == (id >> 76u128) & 0xfu128,
    ;
    nibble as usize
}

/// The version field of a UUID: the high nibble of its seventh byte.
pub open spec fn version_of(id: u128) -> u128 {
    (id >> 76u128) & 0xfu128
}

/// Route-model binding's first check: the path id must be a UUID v7, else `400`.
pub fn check_bound_id(id: u128) -> (r: Result<(), Rejection>)
    ensures
        r is Ok <==> version_of(id) == 7,
        r matches Err(e) ==> e.status == 400 && e.message@ == "path id must be a UUID v7"@,
{
    if uuid_version(id) != 7 {
        Err(Rejection::new(400, "path id must be a UUID v7"))
    } else {
        Ok(())
    }
}

/// What loading a bound row through its service found.
pub enum Access<M> {
    /// The row exists and the caller may act on it.
    Found(M),
    /// The row exists but the caller's ability denies the action.
    Denied,
    /// No row has that id.
    Missing,
}

/// Route-model binding's answer to the load: the row, `403` when the ability
/// denies it (its existence is not hidden), `404` when there is none, `500` when
/// the load failed.
pub fn bind_access<M>(access: Result<Access<M>, String>) -> (r: Result<M, Rejection>)
    ensures
        access matches Ok(Access::Found(m)) ==> r == Ok::<M, Rejection>(m),
        access matches Ok(Access::Denied) ==> (r matches Err(e) && e.status == 403),
        access matches Ok(Access::Missing) ==> (r matches Err(e) && e.status == 404),
        access matches Err(msg) ==> (r matches Err(e) && e.status == 500 && e.message@ == msg@),
{
    match access {
        Err(msg) => Err(Rejection { status: 500, message: msg }),
        Ok(Access::Found(m)) => Ok(m),
        Ok(Access::Denied) => Err(Rejection::new(403, "Forbidden")),
        Ok(Access::Missing) => Err(Rejection::new(404, "Not Found")),
    }
}

/// What `uuid::Uuid::parse_str` reads from a text: the 128-bit value of the UUID
/// it denotes, or nothing when the text is not a UUID.
pub uninterp spec fn parsed_uuid(text: Seq<char>) -> Option<u128>;

/// `uuid::Uuid::parse_str`, as a 128-bit value; on failure, the crate's error text.
#[verifier::external_body]
fn parse_uuid(text: &str) -> (r: Result<u128, String>)
    ensures
        r is Ok <==> parsed_uuid(text@) is Some,
        r matches Ok(v) ==> parsed_uuid(text@) == Some(v),
{
    match uuid::Uuid::parse_str(text) {
        Ok(id) => Ok(id.as_u128()),
        Err(e) => Err(e.to_string()),
    }
}

/// Resolver-side binding's check of a by-id argument: it must parse as a UUID
/// (else the parser's error) and be a version 7 one.
pub fn check_resolver_id(id: &str) -> (r: Result<u128, String>)
    ensures
        r is Ok <==> (parsed_uuid(id@) matches Some(v) && version_of(v) == 7),
        r matches Ok(v) ==> parsed_uuid(id@) == Some(v),
        (parsed_uuid(id@) matches Some(v) && version_of(v) != 7) ==> (r matches Err(m) && m@ == "id must be a UUID v7"@),
{
    let v = parse_uuid(id)?;
    require_v7(v)
}

/// A parsed by-id argument of a resolver is accepted only as a version 7 UUID.
pub fn require_v7(v: u128) -> (r: Result<u128, String>)
    ensures
        r is Ok <==> version_of(v) == 7,
        r matches Ok(x) ==> x == v,
        r matches Err(m) ==> m@ == "id must be a UUID v7"@,
{
    if uuid_version(v) != 7 {
        return Err("id must be a UUID v7".to_owned());
    }
    Ok(v)
}

/// Resolver-side binding's answer to the load: the row, none when there is no
/// such row (a nullable field resolves to null), a refusal when the ability
/// denies it, the load's error when it failed.
pub fn bind_resolver_access<M>(access: Result<Access<M>, String>) -> (r: Result<Option<M>, String>)
    ensures
        access matches Ok(Access::Found(m)) ==> r == Ok::<Option<M>, String>(Some(m)),
        access matches Ok(Access::Missing) ==> (r matches Ok(None)),
        access matches Ok(Access::Denied) ==> (r matches Err(e) && e@ == "forbidden"@),
        access matches Err(msg) ==> (r matches Err(e) && e@ == msg@),
{
    match access {
        Err(msg) => Err(msg),
        Ok(Access::Found(m)) => Ok(Some(m)),
        Ok(Access::Missing) => Ok(None),
        Ok(Access::Denied) => Err("forbidden".to_owned()),
    }
}

/// The checks a resolver's by-id binding makes before loading, in order: the
/// request's ability must be present (else the context's error), the id must be a
/// UUID v7 (else the parse or version error), and the bound service must be
/// registered (else a missing-provider error). On success, the id and the service.
pub fn resolver_bind_checks<S>(ability: Result<(), String>, id: &str, service: Option<S>) -> (r: Result<(u128, S), String>)
    ensures
        ability matches Err(m) ==> (r matches Err(e) && e == m),
        ability is Ok ==> ((r is Ok) <==> (parsed_uuid(id@) matches Some(v) && version_of(v) == 7 && service is Some)),
        ability is Ok ==> ((parsed_uuid(id@) matches Some(v) && version_of(v) != 7) ==> (r matches Err(e) && e@
            == "id must be a UUID v7"@)),
        (ability is Ok && service is None && (parsed_uuid(id@) matches Some(v) && version_of(v) == 7)) ==> (r matches Err(
            e,
        ) && e@ == "no provider registered for the bound service"@),
        r matches Ok(vs) ==> (parsed_uuid(id@) == Some(vs.0) && service == Some(vs.1)),
{
    if let Err(m) = ability {
        return Err(m);
    }
    let v = check_resolver_id(id)?;
    match service {
        None => Err("no provider registered for the bound service".to_owned()),
        Some(svc) => Ok((v, svc)),
    }
}

} // verus!
