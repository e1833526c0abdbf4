use nestrs::authz::{Ability, AbilityBuilder, AbilityFactory, Action, ActionMarker, Read, RuleSpec, Subject, Update};
use nestrs::authz_http::{
    ability_for, bind_access, bind_resolver_access, check_bound_id, check_resolver_id, mask_plan, resolver_bind_checks, Access, Authorize,
    MaskPlan,
};

struct Users;

impl Subject for Users {}

const USERS: u64 = 1;

struct Policy;

impl AbilityFactory for Policy {
    type Actor = bool;

    fn ability_of(&self, admin: bool) -> Ability {
        let mut ab = AbilityBuilder::new();
        self.define(&admin, &mut ab);
        ab.build()
    }

    fn define(&self, admin: &bool, ab: &mut AbilityBuilder) {
        ab.can(Action::Read, 1, RuleSpec::new());
        if *admin {
            ab.can(Action::Manage, 1, RuleSpec::new());
        }
    }
}

#[test]
fn markers_name_their_actions() {
    assert_eq!(Read::action(), Action::Read);
    assert_eq!(Update::action(), Action::Update);
}

#[test]
fn authorize_needs_an_ability() {
    let r = Authorize::<Read, Users>::check(None, USERS);
    let e = r.err().expect("no ability is a wiring error");
    assert_eq!(e.status, 500);
    assert_eq!(e.message, "missing request `Ability` — is the ability guard applied to this route?");
}

#[test]
fn authorize_admits_a_granted_action_and_forbids_others() {
    let ability = ability_for(&Policy, Some(&false)).ok().unwrap();
    assert!(Authorize::<Read, Users>::check(Some(&ability), USERS).is_ok());
    let e = Authorize::<Update, Users>::check(Some(&ability), USERS).err().unwrap();
    assert_eq!(e.status, 403);
    assert_eq!(e.message, "forbidden");
    let admin = ability_for(&Policy, Some(&true)).ok().unwrap();
    assert!(Authorize::<Update, Users>::check(Some(&admin), USERS).is_ok());
}

#[test]
fn ability_guard_needs_an_authenticated_actor() {
    let e = ability_for(&Policy, None).err().unwrap();
    assert_eq!(e.status, 500);
    assert_eq!(e.message, "AbilityGuard requires an authentication guard to run first");
}

#[test]
fn mask_plan_follows_status_content_type_and_first_byte() {
    let json = Some("application/json; charset=utf-8");
    assert_eq!(mask_plan(200, json, b"  [1,2]"), MaskPlan::Many);
    assert_eq!(mask_plan(201, json, b"\n{\"a\":1}"), MaskPlan::One);
    assert_eq!(mask_plan(200, json, b"42"), MaskPlan::PassThrough);
    assert_eq!(mask_plan(200, json, b"   "), MaskPlan::PassThrough);
    assert_eq!(mask_plan(404, json, b"{}"), MaskPlan::PassThrough);
    assert_eq!(mask_plan(200, Some("text/plain"), b"{}"), MaskPlan::PassThrough);
    assert_eq!(mask_plan(200, None, b"{}"), MaskPlan::PassThrough);
}

#[test]
fn bound_id_must_be_a_v7_uuid() {
    let v7 = uuid::Uuid::parse_str("01890a5d-ac96-774b-bcce-b302099a8057").unwrap().as_u128();
    let v4 = uuid::Uuid::parse_str("67e55044-10b1-426f-9247-bb680e5fe0c8").unwrap().as_u128();
    assert!(check_bound_id(v7).is_ok());
    let e = check_bound_id(v4).err().unwrap();
    assert_eq!(e.status, 400);
    assert_eq!(e.message, "path id must be a UUID v7");
}

#[test]
fn bind_answers_the_load() {
    assert_eq!(bind_access::<u8>(Ok(Access::Found(5))).ok(), Some(5));
    assert_eq!(bind_access::<u8>(Ok(Access::Denied)).err().unwrap().status, 403);
    assert_eq!(bind_access::<u8>(Ok(Access::Missing)).err().unwrap().status, 404);
    let e = bind_access::<u8>(Err("db down".to_string())).err().unwrap();
    assert_eq!((e.status, e.message.as_str()), (500, "db down"));
}

#[test]
fn resolver_binding_parses_and_checks_the_id() {
    assert!(check_resolver_id("01890a5d-ac96-774b-bcce-b302099a8057").is_ok());
    assert_eq!(
        check_resolver_id("67e55044-10b1-426f-9247-bb680e5fe0c8").err().unwrap(),
        "id must be a UUID v7"
    );
    assert!(check_resolver_id("not-a-uuid").is_err());
    assert_eq!(bind_resolver_access::<u8>(Ok(Access::Missing)), Ok(None));
    assert_eq!(bind_resolver_access::<u8>(Ok(Access::Found(1))), Ok(Some(1)));
    assert_eq!(bind_resolver_access::<u8>(Ok(Access::Denied)), Err("forbidden".to_string()));
}

#[test]
fn resolver_binding_checks_the_ability_then_the_id_then_the_service() {
    let v7 = "018f4c3e-9a7b-7c2d-8e1f-0123456789ab";
    let v4 = "550e8400-e29b-41d4-a716-446655440000";
    let no_ability = resolver_bind_checks(Err("no ability".to_string()), "not-a-uuid", None::<u8>);
    assert_eq!(no_ability.err().unwrap(), "no ability");
    assert!(resolver_bind_checks(Ok(()), "not-a-uuid", None::<u8>).is_err());
    assert_eq!(resolver_bind_checks(Ok(()), v4, None::<u8>).err().unwrap(), "id must be a UUID v7");
    assert_eq!(
        resolver_bind_checks(Ok(()), v7, None::<u8>).err().unwrap(),
        "no provider registered for the bound service"
    );
    let (id, svc) = resolver_bind_checks(Ok(()), v7, Some(5u8)).ok().unwrap();
    assert_eq!(id, 0x018f4c3e_9a7b_7c2d_8e1f_0123456789ab);
    assert_eq!(svc, 5);
}
