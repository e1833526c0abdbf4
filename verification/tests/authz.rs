use nestrs::authz::{
    Ability, AbilityBuilder, Action, Condition, FieldSet, FieldValue, Predicate, PredicateBuilder, RuleSpec,
};

const USERS: u64 = 1;
const POSTS: u64 = 2;

// Columns of the `users` subject.
const ID: u32 = 0;
const ORG: u32 = 1;
const NAME: u32 = 2;

fn row(id: i64, org: i64, name: &str) -> Vec<FieldValue> {
    vec![FieldValue::Int(id), FieldValue::Int(org), FieldValue::Text(name.to_string())]
}

fn holds(c: &Condition, row: &[FieldValue]) -> bool {
    // Evaluate a lowered condition the way the database would.
    fn get(row: &[FieldValue], c: u32) -> FieldValue {
        match row.get(c as usize) {
            Some(v) => v.duplicate(),
            None => FieldValue::Null,
        }
    }
    match c {
        Condition::All(cs) => cs.iter().all(|c| holds(c, row)),
        Condition::Any(cs) => cs.iter().any(|c| holds(c, row)),
        Condition::Not(c) => !holds(c, row),
        Condition::ColumnEq(col, v) => get(row, *col).same(v),
        Condition::ColumnIn(col, vs) => vs.iter().any(|v| get(row, *col).same(v)),
        Condition::Never => false,
    }
}

fn org_scoped(org: i64) -> Ability {
    let p = PredicateBuilder::new();
    let mut ab = AbilityBuilder::new();
    ab.can(Action::Read, USERS, RuleSpec::new().when(p.eq(ORG, FieldValue::Int(org))));
    ab.build()
}

#[test]
fn no_rules_grant_nothing() {
    let a = Ability::new();
    assert!(!a.can_class(Action::Read, USERS));
    assert!(!a.can(Action::Read, USERS, &row(1, 1, "a")));
    assert!(matches!(a.condition_for(Action::Read, USERS), Condition::Never));
}

#[test]
fn conditional_grant_admits_matching_rows_only() {
    let a = org_scoped(7);
    assert!(a.can_class(Action::Read, USERS));
    assert!(a.can(Action::Read, USERS, &row(1, 7, "a")));
    assert!(!a.can(Action::Read, USERS, &row(2, 8, "b")));
    // Other actions and subjects are not granted.
    assert!(!a.can_class(Action::Update, USERS));
    assert!(!a.can_class(Action::Read, POSTS));
}

#[test]
fn prefilter_selects_exactly_the_rows_the_instance_check_accepts() {
    let p = PredicateBuilder::new();
    let mut ab = AbilityBuilder::new();
    ab.can(
        Action::Read,
        USERS,
        RuleSpec::new().when(p.any(vec![p.eq(ORG, FieldValue::Int(1)), p.is_in(ID, vec![FieldValue::Int(10), FieldValue::Int(11)])])),
    );
    ab.cannot(Action::Read, USERS, RuleSpec::new().when(p.eq(NAME, FieldValue::Text("root".to_string()))));
    let a = ab.build();
    let cond = a.condition_for(Action::Read, USERS);
    let rows = vec![
        row(1, 1, "alice"),
        row(2, 2, "bob"),
        row(10, 3, "carol"),
        row(11, 1, "root"),
        row(12, 4, "root"),
    ];
    for r in &rows {
        assert_eq!(holds(&cond, r), a.can(Action::Read, USERS, r));
    }
    assert!(a.can(Action::Read, USERS, &rows[0]));
    assert!(!a.can(Action::Read, USERS, &rows[1]));
    assert!(a.can(Action::Read, USERS, &rows[2]));
    assert!(!a.can(Action::Read, USERS, &rows[3]));
}

#[test]
fn a_matching_denial_overrides_a_grant() {
    let p = PredicateBuilder::new();
    let mut ab = AbilityBuilder::new();
    ab.can(Action::Delete, USERS, RuleSpec::new());
    ab.cannot(Action::Delete, USERS, RuleSpec::new().when(p.eq(ID, FieldValue::Int(1))));
    let a = ab.build();
    assert!(!a.can(Action::Delete, USERS, &row(1, 1, "admin")));
    assert!(a.can(Action::Delete, USERS, &row(2, 1, "user")));
    // The class-level check stays optimistic.
    assert!(a.can_class(Action::Delete, USERS));
}

#[test]
fn manage_grants_every_action() {
    let mut ab = AbilityBuilder::new();
    ab.can(Action::Manage, USERS, RuleSpec::new());
    let a = ab.build();
    for action in [Action::Read, Action::Create, Action::Update, Action::Delete, Action::Manage] {
        assert!(a.can_class(action, USERS));
        assert!(a.can(action, USERS, &row(1, 1, "a")));
    }
    assert!(!a.can_class(Action::Read, POSTS));
}

#[test]
fn permitted_fields_are_the_union_of_matching_grants() {
    let p = PredicateBuilder::new();
    let mut ab = AbilityBuilder::new();
    ab.can(Action::Read, USERS, RuleSpec::new().fields(vec!["id".to_string()]));
    ab.can(
        Action::Read,
        USERS,
        RuleSpec::new().when(p.eq(ORG, FieldValue::Int(1))).fields(vec!["name".to_string()]),
    );
    let a = ab.build();
    match a.permitted_fields(Action::Read, USERS, &row(1, 1, "a")) {
        FieldSet::Only(cols) => {
            assert!(cols.contains(&"id".to_string()));
            assert!(cols.contains(&"name".to_string()));
        }
        FieldSet::All => panic!("no unrestricted grant"),
    }
    match a.permitted_fields(Action::Read, USERS, &row(1, 2, "a")) {
        FieldSet::Only(cols) => {
            assert!(cols.contains(&"id".to_string()));
            assert!(!cols.contains(&"name".to_string()));
        }
        FieldSet::All => panic!("no unrestricted grant"),
    }
}

#[test]
fn an_unrestricted_matching_grant_permits_every_field() {
    let mut ab = AbilityBuilder::new();
    ab.can(Action::Read, USERS, RuleSpec::new().fields(vec!["id".to_string()]));
    ab.can(Action::Read, USERS, RuleSpec::new());
    let a = ab.build();
    assert!(matches!(a.permitted_fields(Action::Read, USERS, &row(1, 1, "a")), FieldSet::All));
}

fn object() -> Vec<(String, i32)> {
    vec![("id".to_string(), 1), ("org".to_string(), 2), ("name".to_string(), 3)]
}

#[test]
fn mask_keeps_only_permitted_fields_in_order() {
    let mut ab = AbilityBuilder::new();
    ab.can(Action::Read, USERS, RuleSpec::new().fields(vec!["name".to_string(), "id".to_string()]));
    let a = ab.build();
    let masked = a.mask(Action::Read, USERS, &row(1, 1, "a"), object());
    assert_eq!(masked, vec![("id".to_string(), 1), ("name".to_string(), 3)]);
}

#[test]
fn mask_many_drops_refused_rows_and_masks_the_rest() {
    let p = PredicateBuilder::new();
    let mut ab = AbilityBuilder::new();
    ab.can(
        Action::Read,
        USERS,
        RuleSpec::new().when(p.eq(ORG, FieldValue::Int(1))).fields(vec!["id".to_string()]),
    );
    let a = ab.build();
    let items = vec![(row(1, 1, "a"), object()), (row(2, 2, "b"), object()), (row(3, 1, "c"), object())];
    let out = a.mask_many(Action::Read, USERS, items);
    assert_eq!(out, vec![vec![("id".to_string(), 1)], vec![("id".to_string(), 1)]]);
}

#[test]
fn predicates_evaluate_in_memory() {
    let p = PredicateBuilder::new();
    let r = row(5, 9, "x");
    assert!(Predicate::Always.matches(&r));
    assert!(p.eq(ID, FieldValue::Int(5)).matches(&r));
    assert!(!p.eq(ID, FieldValue::Int(6)).matches(&r));
    assert!(p.is_in(ORG, vec![FieldValue::Int(1), FieldValue::Int(9)]).matches(&r));
    assert!(p.not(p.eq(NAME, FieldValue::Text("y".to_string()))).matches(&r));
    assert!(p.all(vec![]).matches(&r));
    assert!(!p.any(vec![]).matches(&r));
    // A column the row does not hold reads as null.
    assert!(p.eq(7, FieldValue::Null).matches(&r));
}

#[test]
fn lowering_agrees_with_evaluation() {
    let p = PredicateBuilder::new();
    let pred = p.all(vec![
        p.not(p.eq(ID, FieldValue::Int(1))),
        p.any(vec![p.eq(ORG, FieldValue::Int(2)), p.is_in(NAME, vec![FieldValue::Text("z".to_string())])]),
    ]);
    let cond = pred.to_condition();
    for r in [row(1, 2, "a"), row(2, 2, "a"), row(3, 3, "z"), row(4, 3, "q")] {
        assert_eq!(holds(&cond, &r), pred.matches(&r));
    }
}
