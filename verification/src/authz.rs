//! The authorization engine: the rules compiled for one actor, the predicate
//! language they are narrowed with, and the reads the three enforcement layers
//! perform (the class-level gate, the query pre-filter, the instance check and
//! field mask).
//!
//! One predicate representation feeds two interpretations: it is lowered to a
//! query [`Condition`] for the pre-filter and evaluated in memory against a loaded
//! row for the response check. Both interpretations agree on every row, so the rows
//! a query returns and the rows the response check accepts cannot drift apart.

use vstd::prelude::*;

use crate::TypeKey;

verus! {

/// The verbs an ability can grant or deny. `Manage` is the wildcard that matches
/// every other action.
#[derive(Debug, Clone, Copy, PartialEq, Eq, Structural, Hash)]
pub enum Action {
    Read,
    Create,
    Update,
    Delete,
    Manage,
}

/// A zero-sized marker for an [`Action`], so a route can name the action it
/// requires as a type argument.
pub trait ActionMarker {
    /// The action this marker names.
    spec fn marked() -> Action;

    fn action() -> (a: Action)
        ensures
            a == Self::marked(),
    ;
}

/// Marker for `Action::Read`.
pub struct Read;

/// Marker for `Action::Create`.
pub struct Create;

/// Marker for `Action::Update`.
pub struct Update;

/// Marker for `Action::Delete`.
pub struct Delete;

/// Marker for `Action::Manage`.
pub struct Manage;

impl ActionMarker for Read {
    open spec fn marked() -> Action {
        Action::Read
    }

    fn action() -> (a: Action) {
        Action::Read
    }
}

impl ActionMarker for Create {
    open spec fn marked() -> Action {
        Action::Create
    }

    fn action() -> (a: Action) {
        Action::Create
    }
}

impl ActionMarker for Update {
    open spec fn marked() -> Action {
        Action::Update
    }

    fn action() -> (a: Action) {
        Action::Update
    }
}

impl ActionMarker for Delete {
    open spec fn marked() -> Action {
        Action::Delete
    }

    fn action() -> (a: Action) {
        Action::Delete
    }
}

impl ActionMarker for Manage {
    open spec fn marked() -> Action {
        Action::Manage
    }

    fn action() -> (a: Action) {
        Action::Manage
    }
}

/// A type the rules and routes refer to as a subject.
pub trait Subject {
}

/// A column of a subject, by position.
pub type Column = u32;

/// A column value, as read from a loaded row or written into a condition.
pub enum FieldValue {
    Null,
    Bool(bool),
    Int(i64),
    Text(String),
    Uuid(u128),
}

/// Two values are the same value.
pub open spec fn value_eq(a: FieldValue, b: FieldValue) -> bool {
    match (a, b) {
        (FieldValue::Null, FieldValue::Null) => true,
        (FieldValue::Bool(x), FieldValue::Bool(y)) => x == y,
        (FieldValue::Int(x), FieldValue::Int(y)) => x == y,
        (FieldValue::Text(x), FieldValue::Text(y)) => x@ == y@,
        (FieldValue::Uuid(x), FieldValue::Uuid(y)) => x == y,
        _ => false,
    }
}

/// `v` is one of `vs`.
pub open spec fn in_list(vs: Seq<FieldValue>, v: FieldValue) -> bool {
    exists|i: int| 0 <= i < vs.len() && value_eq(#[trigger] vs[i], v)
}

/// The value of column `c` in `row`; a column the row does not hold reads as `Null`.
pub open spec fn row_get(row: Seq<FieldValue>, c: Column) -> FieldValue {
    if (c as int) < row.len() {
        row[c as int]
    } else {
        FieldValue::Null
    }
}

impl FieldValue {
    /// Whether two values are the same value.
    pub fn same(&self, other: &FieldValue) -> (b: bool)
        ensures
            b == value_eq(*self, *other),
    {
        match (self, other) {
            (FieldValue::Null, FieldValue::Null) => true,
            (FieldValue::Bool(x), FieldValue::Bool(y)) => *x == *y,
            (FieldValue::Int(x), FieldValue::Int(y)) => *x == *y,
            (FieldValue::Text(x), FieldValue::Text(y)) => x.eq(y),
            (FieldValue::Uuid(x), FieldValue::Uuid(y)) => *x == *y,
            _ => false,
        }
    }

    /// A copy of this value.
    pub fn duplicate(&self) -> (v: FieldValue)
        ensures
            v == *self,
    {
        match self {
            FieldValue::Null => FieldValue::Null,
            FieldValue::Bool(x) => FieldValue::Bool(*x),
            FieldValue::Int(x) => FieldValue::Int(*x),
            FieldValue::Text(x) => FieldValue::Text(x.clone()),
            FieldValue::Uuid(x) => FieldValue::Uuid(*x),
        }
    }
}

fn duplicate_values(vs: &Vec<FieldValue>) -> (out: Vec<FieldValue>)
    ensures
        out@ == vs@,
{
    let mut out: Vec<FieldValue> = Vec::new();
    let mut i: usize = 0;
    while i < vs.len()
        invariant
            i <= vs@.len(),
            out@ == vs@.take(i as int),
        decreases vs@.len() - i,
    {
        out.push(vs[i].duplicate());
        assert(vs@.take(i + 1) =~= vs@.take(i as int).push(vs@[i as int]));
        i = i + 1;
    }
    assert(vs@.take(vs@.len() as int) =~= vs@);
    out
}

fn read_column(row: &Vec<FieldValue>, c: Column) -> (v: FieldValue)
    ensures
        v == row_get(row@, c),
{
    if (c as usize) < row.len() {
        row[c as usize].duplicate()
    } else {
        FieldValue::Null
    }
}

/// A condition over a subject's rows, interpreted in memory or lowered to a query.
pub enum Predicate {
    /// Matches everything — an unconditional grant.
    Always,
    /// `column = value`.
    Eq(Column, FieldValue),
    /// `column IN (values)`.
    In(Column, Vec<FieldValue>),
    And(Vec<Predicate>),
    Or(Vec<Predicate>),
    Not(Box<Predicate>),
}

/// Whether `p` holds of `row`.
pub open spec fn pred_holds(p: Predicate, row: Seq<FieldValue>) -> bool
    decreases p,
{
    match p {
        Predicate::Always => true,
        Predicate::Eq(c, v) => value_eq(row_get(row, c), v),
        Predicate::In(c, vs) => in_list(vs@, row_get(row, c)),
        Predicate::And(ps) => all_preds(ps@, row),
        Predicate::Or(ps) => any_pred(ps@, row),
        Predicate::Not(q) => !pred_holds(*q, row),
    }
}

/// Every predicate of `ps` holds of `row`.
pub open spec fn all_preds(ps: Seq<Predicate>, row: Seq<FieldValue>) -> bool
    decreases ps,
{
    if ps.len() == 0 {
        true
    } else {
        pred_holds(ps[0], row) && all_preds(ps.drop_first(), row)
    }
}

/// Some predicate of `ps` holds of `row`.
pub open spec fn any_pred(ps: Seq<Predicate>, row: Seq<FieldValue>) -> bool
    decreases ps,
{
    if ps.len() == 0 {
        false
    } else {
        pred_holds(ps[0], row) || any_pred(ps.drop_first(), row)
    }
}

pub proof fn lemma_all_preds(ps: Seq<Predicate>, row: Seq<FieldValue>)
    ensures
        all_preds(ps, row) <==> forall|i: int| 0 <= i < ps.len() ==> pred_holds(#[trigger] ps[i], row),
        any_pred(ps, row) <==> exists|i: int| 0 <= i < ps.len() && pred_holds(#[trigger] ps[i], row),
    decreases ps.len(),
{
    if ps.len() > 0 {
        let rest = ps.drop_first();
        lemma_all_preds(rest, row);
        assert(forall|i: int| 0 <= i < rest.len() ==> rest[i] == ps[i + 1]);
        if any_pred(ps, row) && !pred_holds(ps[0], row) {
            let i = choose|i: int| 0 <= i < rest.len() && pred_holds(#[trigger] rest[i], row);
            assert(pred_holds(ps[i + 1], row));
        }
        if exists|i: int| 0 <= i < ps.len() && pred_holds(#[trigger] ps[i], row) {
            let i = choose|i: int| 0 <= i < ps.len() && pred_holds(#[trigger] ps[i], row);
            if i > 0 {
                assert(pred_holds(rest[i - 1], row));
            }
        }
        if forall|i: int| 0 <= i < ps.len() ==> pred_holds(#[trigger] ps[i], row) {
            assert forall|i: int| 0 <= i < rest.len() implies pred_holds(#[trigger] rest[i], row) by {
                assert(pred_holds(ps[i + 1], row));
            }
        }
        if all_preds(ps, row) {
            assert forall|i: int| 0 <= i < ps.len() implies pred_holds(#[trigger] ps[i], row) by {
                if i > 0 {
                    assert(pred_holds(rest[i - 1], row));
                }
            }
        }
    }
}

/// The query condition a predicate is lowered to. `Never` is the condition that
/// matches no row (`1 = 0`).
pub enum Condition {
    /// Every part holds (the empty conjunction is `TRUE`).
    All(Vec<Condition>),
    /// Some part holds (the empty disjunction matches nothing).
    Any(Vec<Condition>),
    Not(Box<Condition>),
    ColumnEq(Column, FieldValue),
    ColumnIn(Column, Vec<FieldValue>),
    Never,
}

/// Whether condition `c` selects `row`.
pub open spec fn cond_holds(c: Condition, row: Seq<FieldValue>) -> bool
    decreases c,
{
    match c {
        Condition::All(cs) => all_conds(cs@, row),
        Condition::Any(cs) => any_cond(cs@, row),
        Condition::Not(d) => !cond_holds(*d, row),
        Condition::ColumnEq(col, v) => value_eq(row_get(row, col), v),
        Condition::ColumnIn(col, vs) => in_list(vs@, row_get(row, col)),
        Condition::Never => false,
    }
}

/// Every condition of `cs` selects `row`.
pub open spec fn all_conds(cs: Seq<Condition>, row: Seq<FieldValue>) -> bool
    decreases cs,
{
    if cs.len() == 0 {
        true
    } else {
        cond_holds(cs[0], row) && all_conds(cs.drop_first(), row)
    }
}

/// Some condition of `cs` selects `row`.
pub open spec fn any_cond(cs: Seq<Condition>, row: Seq<FieldValue>) -> bool
    decreases cs,
{
    if cs.len() == 0 {
        false
    } else {
        cond_holds(cs[0], row) || any_cond(cs.drop_first(), row)
    }
}

pub proof fn lemma_all_conds(cs: Seq<Condition>, row: Seq<FieldValue>)
    ensures
        all_conds(cs, row) <==> forall|i: int| 0 <= i < cs.len() ==> cond_holds(#[trigger] cs[i], row),
        any_cond(cs, row) <==> exists|i: int| 0 <= i < cs.len() && cond_holds(#[trigger] cs[i], row),
    decreases cs.len(),
{
    if cs.len() > 0 {
        let rest = cs.drop_first();
        lemma_all_conds(rest, row);
        assert(forall|i: int| 0 <= i < rest.len() ==> rest[i] == cs[i + 1]);
        if any_cond(cs, row) && !cond_holds(cs[0], row) {
            let i = choose|i: int| 0 <= i < rest.len() && cond_holds(#[trigger] rest[i], row);
            assert(cond_holds(cs[i + 1], row));
        }
        if exists|i: int| 0 <= i < cs.len() && cond_holds(#[trigger] cs[i], row) {
            let i = choose|i: int| 0 <= i < cs.len() && cond_holds(#[trigger] cs[i], row);
            if i > 0 {
                assert(cond_holds(rest[i - 1], row));
            }
        }
        if forall|i: int| 0 <= i < cs.len() ==> cond_holds(#[trigger] cs[i], row) {
            assert forall|i: int| 0 <= i < rest.len() implies cond_holds(#[trigger] rest[i], row) by {
                assert(cond_holds(cs[i + 1], row));
            }
        }
        if all_conds(cs, row) {
            assert forall|i: int| 0 <= i < cs.len() implies cond_holds(#[trigger] cs[i], row) by {
                if i > 0 {
                    assert(cond_holds(rest[i - 1], row));
                }
            }
        }
    }
}

/// `c` and `d` select the same rows.
pub open spec fn equivalent(c: Condition, d: Condition) -> bool {
    forall|row: Seq<FieldValue>| #[trigger] cond_holds(c, row) == cond_holds(d, row)
}

impl Condition {
    /// A copy of this condition, selecting the same rows.
    pub fn duplicate(&self) -> (c: Condition)
        ensures
            equivalent(c, *self),
        decreases self,
    {
        match self {
            Condition::All(cs) => {
                let parts = self.duplicate_parts(cs);
                let c = Condition::All(parts);
                assert forall|row: Seq<FieldValue>| #[trigger] cond_holds(c, row) == cond_holds(*self, row) by {
                    lemma_all_conds(parts@, row);
                    lemma_all_conds(cs@, row);
                    if cond_holds(*self, row) {
                        assert forall|i: int| 0 <= i < parts@.len() implies cond_holds(
                            #[trigger] parts@[i],
                            row,
                        ) by {
                            assert(cond_holds(cs@[i], row));
                        }
                    }
                    if cond_holds(c, row) {
                        assert forall|i: int| 0 <= i < cs@.len() implies cond_holds(
                            #[trigger] cs@[i],
                            row,
                        ) by {
                            assert(cond_holds(parts@[i], row));
                        }
                    }
                }
                c
            },
            Condition::Any(cs) => {
                let parts = self.duplicate_parts(cs);
                let c = Condition::Any(parts);
                assert forall|row: Seq<FieldValue>| #[trigger] cond_holds(c, row) == cond_holds(*self, row) by {
                    lemma_all_conds(parts@, row);
                    lemma_all_conds(cs@, row);
                    if cond_holds(*self, row) {
                        let i = choose|i: int| 0 <= i < cs@.len() && cond_holds(#[trigger] cs@[i], row);
                        assert(cond_holds(parts@[i], row));
                    }
                    if cond_holds(c, row) {
                        let i = choose|i: int|
                            0 <= i < parts@.len() && cond_holds(#[trigger] parts@[i], row);
                        assert(cond_holds(cs@[i], row));
                    }
                }
                c
            },
            Condition::Not(d) => {
                let inner = d.duplicate();
                let c = Condition::Not(Box::new(inner));
                assert forall|row: Seq<FieldValue>| #[trigger] cond_holds(c, row) == cond_holds(*self, row) by {
                    assert(cond_holds(inner, row) == cond_holds(**d, row));
                }
                c
            },
            Condition::ColumnEq(col, v) => Condition::ColumnEq(*col, v.duplicate()),
            Condition::ColumnIn(col, vs) => Condition::ColumnIn(*col, duplicate_values(vs)),
            Condition::Never => Condition::Never,
        }
    }

    fn duplicate_parts(&self, cs: &Vec<Condition>) -> (out: Vec<Condition>)
        requires
            *self == Condition::All(*cs) || *self == Condition::Any(*cs),
        ensures
            out@.len() == cs@.len(),
            forall|i: int| 0 <= i < cs@.len() ==> equivalent(#[trigger] out@[i], cs@[i]),
        decreases self, 0nat,
    {
        let mut out: Vec<Condition> = Vec::new();
        let mut i: usize = 0;
        while i < cs.len()
            invariant
                *self == Condition::All(*cs) || *self == Condition::Any(*cs),
                i <= cs@.len(),
                out@.len() == i,
                forall|j: int| 0 <= j < i ==> equivalent(#[trigger] out@[j], cs@[j]),
            decreases cs@.len() - i,
        {
            proof {
                if *self == Condition::All(*cs) {
                    assert(decreases_to!(*self => (*self)->All_0));
                } else {
                    assert(decreases_to!(*self => (*self)->Any_0));
                }
                assert(decreases_to!(*cs => cs[i as int]));
            }
            out.push(cs[i].duplicate());
            i = i + 1;
        }
        out
    }
}

/// `c` and `p` select the same rows.
pub open spec fn lowers(c: Condition, p: Predicate) -> bool {
    forall|row: Seq<FieldValue>| #[trigger] cond_holds(c, row) == pred_holds(p, row)
}

impl Predicate {
    /// Evaluate in memory against a loaded row — the response-side check.
    pub fn matches(&self, row: &Vec<FieldValue>) -> (b: bool)
        ensures
            b == pred_holds(*self, row@),
        decreases self,
    {
        match self {
            Predicate::Always => true,
            Predicate::Eq(c, v) => read_column(row, *c).same(v),
            Predicate::In(c, vs) => {
                let actual = read_column(row, *c);
                let mut i: usize = 0;
                while i < vs.len()
                    invariant
                        *self == Predicate::In(*c, *vs),
                        i <= vs@.len(),
                        actual == row_get(row@, *c),
                        forall|j: int| 0 <= j < i ==> !value_eq(#[trigger] vs@[j], actual),
                    decreases vs@.len() - i,
                {
                    if vs[i].same(&actual) {
                        assert(value_eq(vs@[i as int], row_get(row@, *c)));
                        assert(in_list(vs@, row_get(row@, *c)));
                        return true;
                    }
                    i = i + 1;
                }
                false
            },
            Predicate::And(ps) => {
                let mut i: usize = 0;
                while i < ps.len()
                    invariant
                        *self == Predicate::And(*ps),
                        i <= ps@.len(),
                        forall|j: int| 0 <= j < i ==> pred_holds(#[trigger] ps@[j], row@),
                    decreases ps@.len() - i,
                {
                    proof {
                        assert(decreases_to!(*self => (*self)->And_0));
                        assert(decreases_to!(*ps => ps[i as int]));
                    }
                    if !ps[i].matches(row) {
                        proof {
                            lemma_all_preds(ps@, row@);
                        }
                        return false;
                    }
                    i = i + 1;
                }
                proof {
                    lemma_all_preds(ps@, row@);
                }
                true
            },
            Predicate::Or(ps) => {
                let mut i: usize = 0;
                while i < ps.len()
                    invariant
                        *self == Predicate::Or(*ps),
                        i <= ps@.len(),
                        forall|j: int| 0 <= j < i ==> !pred_holds(#[trigger] ps@[j], row@),
                    decreases ps@.len() - i,
                {
                    proof {
                        assert(decreases_to!(*self => (*self)->Or_0));
                        assert(decreases_to!(*ps => ps[i as int]));
                    }
                    if ps[i].matches(row) {
                        proof {
                            lemma_all_preds(ps@, row@);
                        }
                        return true;
                    }
                    i = i + 1;
                }
                proof {
                    lemma_all_preds(ps@, row@);
                }
                false
            },
            Predicate::Not(q) => !q.matches(row),
        }
    }

    /// Lower to a query condition for the pre-filter. `Always` lowers to the empty
    /// conjunction, which imposes no constraint.
    pub fn to_condition(&self) -> (c: Condition)
        ensures
            lowers(c, *self),
        decreases self,
    {
        match self {
            Predicate::Always => {
                let none: Vec<Condition> = Vec::new();
                let c = Condition::All(none);
                assert forall|row: Seq<FieldValue>| #[trigger] cond_holds(c, row) == pred_holds(*self, row) by {
                    assert(none@.len() == 0);
                    assert(all_conds(none@, row));
                    assert(cond_holds(c, row));
                    assert(pred_holds(*self, row));
                }
                c
            },
            Predicate::Eq(col, v) => Condition::ColumnEq(*col, v.duplicate()),
            Predicate::In(col, vs) => Condition::ColumnIn(*col, duplicate_values(vs)),
            Predicate::And(ps) => {
                let parts = lower_all(ps);
                let c = Condition::All(parts);
                assert forall|row: Seq<FieldValue>| #[trigger] cond_holds(c, row) == pred_holds(*self, row) by {
                    lemma_all_preds(ps@, row);
                    lemma_all_conds(parts@, row);
                    if pred_holds(*self, row) {
                        assert forall|i: int| 0 <= i < parts@.len() implies cond_holds(
                            #[trigger] parts@[i],
                            row,
                        ) by {
                            assert(pred_holds(ps@[i], row));
                        }
                    }
                    if cond_holds(c, row) {
                        assert forall|i: int| 0 <= i < ps@.len() implies pred_holds(
                            #[trigger] ps@[i],
                            row,
                        ) by {
                            assert(cond_holds(parts@[i], row));
                        }
                    }
                }
                c
            },
            Predicate::Or(ps) => {
                let parts = lower_all(ps);
                let c = Condition::Any(parts);
                assert forall|row: Seq<FieldValue>| #[trigger] cond_holds(c, row) == pred_holds(*self, row) by {
                    lemma_all_preds(ps@, row);
                    lemma_all_conds(parts@, row);
                    if pred_holds(*self, row) {
                        let i = choose|i: int| 0 <= i < ps@.len() && pred_holds(#[trigger] ps@[i], row);
                        assert(cond_holds(parts@[i], row));
                    }
                    if cond_holds(c, row) {
                        let i = choose|i: int|
                            0 <= i < parts@.len() && cond_holds(#[trigger] parts@[i], row);
                        assert(pred_holds(ps@[i], row));
                    }
                }
                c
            },
            Predicate::Not(q) => {
                let inner = q.to_condition();
                let c = Condition::Not(Box::new(inner));
                assert forall|row: Seq<FieldValue>| #[trigger] cond_holds(c, row) == pred_holds(*self, row) by {
                    assert(cond_holds(inner, row) == pred_holds(**q, row));
                }
                c
            },
        }
    }
}

/// Lower each predicate of `ps`, in order.
fn lower_all(ps: &Vec<Predicate>) -> (out: Vec<Condition>)
    ensures
        out@.len() == ps@.len(),
        forall|i: int| 0 <= i < ps@.len() ==> lowers(#[trigger] out@[i], ps@[i]),
    decreases ps,
{
    let mut out: Vec<Condition> = Vec::new();
    let mut i: usize = 0;
    while i < ps.len()
        invariant
            i <= ps@.len(),
            out@.len() == i,
            forall|j: int| 0 <= j < i ==> lowers(#[trigger] out@[j], ps@[j]),
        decreases ps@.len() - i,
    {
        out.push(ps[i].to_condition());
        i = i + 1;
    }
    out
}

/// Fluent constructor for the predicates a rule is narrowed with.
pub struct PredicateBuilder;

impl PredicateBuilder {
    pub fn new() -> (b: PredicateBuilder) {
        PredicateBuilder
    }

    /// `column = value`.
    pub fn eq(&self, column: Column, value: FieldValue) -> (p: Predicate)
        ensures
            p == Predicate::Eq(column, value),
    {
        Predicate::Eq(column, value)
    }

    /// `column IN (values)`.
    pub fn is_in(&self, column: Column, values: Vec<FieldValue>) -> (p: Predicate)
        ensures
            p == Predicate::In(column, values),
    {
        Predicate::In(column, values)
    }

    /// Every part holds.
    pub fn all(&self, parts: Vec<Predicate>) -> (p: Predicate)
        ensures
            p == Predicate::And(parts),
    {
        Predicate::And(parts)
    }

    /// Some part holds.
    pub fn any(&self, parts: Vec<Predicate>) -> (p: Predicate)
        ensures
            p == Predicate::Or(parts),
    {
        Predicate::Or(parts)
    }

    /// The negation of `inner`.
    pub fn not(&self, inner: Predicate) -> (p: Predicate)
        ensures
            p == Predicate::Not(Box::new(inner)),
    {
        Predicate::Not(Box::new(inner))
    }
}


/// Which fields of a subject may be read back in the response.
pub enum FieldSet {
    /// No restriction: every field is permitted.
    All,
    /// Only these fields, named as they serialize.
    Only(Vec<String>),
}

/// `name` is one of `names`.
pub open spec fn names_contain(names: Seq<String>, name: Seq<char>) -> bool {
    exists|i: int| 0 <= i < names.len() && (#[trigger] names[i])@ == name
}

/// Whether `fs` permits the field `name`.
pub open spec fn field_permitted(fs: FieldSet, name: Seq<char>) -> bool {
    match fs {
        FieldSet::All => true,
        FieldSet::Only(names) => names_contain(names@, name),
    }
}

impl FieldSet {
    /// Whether the field `name` is permitted.
    pub fn permits(&self, name: &String) -> (b: bool)
        ensures
            b == field_permitted(*self, name@),
    {
        match self {
            FieldSet::All => true,
            FieldSet::Only(names) => {
                let mut i: usize = 0;
                while i < names.len()
                    invariant
                        *self == FieldSet::Only(*names),
                        i <= names@.len(),
                        forall|j: int| 0 <= j < i ==> (#[trigger] names@[j])@ != name@,
                    decreases names@.len() - i,
                {
                    if names[i].eq(name) {
                        assert((names@[i as int])@ == name@);
                        assert(names_contain(names@, name@));
                        return true;
                    }
                    i = i + 1;
                }
                false
            },
        }
    }
}

/// One grant or denial of `action` on `subject`. The query condition is computed
/// from the predicate when the rule is built.
pub struct Rule {
    pub action: Action,
    pub subject: TypeKey,
    pub inverted: bool,
    pub predicate: Predicate,
    pub condition: Condition,
    pub fields: FieldSet,
}

/// The rule bears on `action` over `subject`: it names the action itself, or the
/// `Manage` wildcard.
pub open spec fn applies(r: Rule, action: Action, subject: TypeKey) -> bool {
    r.subject == subject && (r.action == action || r.action == Action::Manage)
}

/// The rule bears on `action` over `subject`, is a grant (`inverted == false`) or
/// a denial (`inverted == true`), and its predicate holds of `row`.
pub open spec fn rule_matches(
    r: Rule,
    inverted: bool,
    action: Action,
    subject: TypeKey,
    row: Seq<FieldValue>,
) -> bool {
    applies(r, action, subject) && r.inverted == inverted && pred_holds(r.predicate, row)
}

/// Some rule of `rules` of the given polarity matches `row`.
pub open spec fn some_rule_matches(
    rules: Seq<Rule>,
    inverted: bool,
    action: Action,
    subject: TypeKey,
    row: Seq<FieldValue>,
) -> bool {
    exists|j: int| 0 <= j < rules.len() && rule_matches(#[trigger] rules[j], inverted, action, subject, row)
}

/// The instance check: a grant matches `row` and no denial does.
pub open spec fn permits(rules: Seq<Rule>, action: Action, subject: TypeKey, row: Seq<FieldValue>) -> bool {
    some_rule_matches(rules, false, action, subject, row) && !some_rule_matches(
        rules,
        true,
        action,
        subject,
        row,
    )
}

/// The class-level gate: some grant bears on `action` over `subject`, whatever its
/// condition.
pub open spec fn class_granted(rules: Seq<Rule>, action: Action, subject: TypeKey) -> bool {
    exists|j: int| 0 <= j < rules.len() && applies(#[trigger] rules[j], action, subject) && !rules[j].inverted
}

/// A grant matching `row` leaves every field readable.
pub open spec fn unrestricted(rules: Seq<Rule>, action: Action, subject: TypeKey, row: Seq<FieldValue>) -> bool {
    exists|j: int|
        0 <= j < rules.len() && rule_matches(#[trigger] rules[j], false, action, subject, row)
            && rules[j].fields is All
}

/// Some grant matching `row` permits the field `name`.
pub open spec fn field_allowed(
    rules: Seq<Rule>,
    action: Action,
    subject: TypeKey,
    row: Seq<FieldValue>,
    name: Seq<char>,
) -> bool {
    exists|j: int|
        0 <= j < rules.len() && rule_matches(#[trigger] rules[j], false, action, subject, row)
            && field_permitted(rules[j].fields, name)
}

impl Rule {
    /// Whether this rule bears on `action` over `subject`.
    pub fn applies_to(&self, action: Action, subject: TypeKey) -> (b: bool)
        ensures
            b == applies(*self, action, subject),
    {
        self.subject == subject && (self.action == action || self.action == Action::Manage)
    }
}

/// Whether `conds` selects `row` exactly when some rule of the given polarity
/// matches it, given that `conds` holds, by `src`, the conditions of exactly those
/// rules.
proof fn lemma_collected_conditions(
    conds: Seq<Condition>,
    src: Seq<int>,
    rules: Seq<Rule>,
    inverted: bool,
    action: Action,
    subject: TypeKey,
    row: Seq<FieldValue>,
)
    requires
        src.len() == conds.len(),
        forall|k: int|
            0 <= k < src.len() ==> 0 <= #[trigger] src[k] < rules.len() && conds[k]
                == rules[src[k]].condition && applies(rules[src[k]], action, subject)
                && rules[src[k]].inverted == inverted,
        forall|j: int|
            0 <= j < rules.len() && applies(#[trigger] rules[j], action, subject)
                && rules[j].inverted == inverted ==> exists|k: int| 0 <= k < src.len() && src[k] == j,
        forall|j: int| 0 <= j < rules.len() ==> lowers(#[trigger] rules[j].condition, rules[j].predicate),
    ensures
        any_cond(conds, row) == some_rule_matches(rules, inverted, action, subject, row),
{
    lemma_all_conds(conds, row);
    if any_cond(conds, row) {
        let k = choose|k: int| 0 <= k < conds.len() && cond_holds(#[trigger] conds[k], row);
        let j = src[k];
        assert(lowers(rules[j].condition, rules[j].predicate));
        assert(cond_holds(rules[j].condition, row));
        assert(rule_matches(rules[j], inverted, action, subject, row));
    }
    if some_rule_matches(rules, inverted, action, subject, row) {
        let j = choose|j: int|
            0 <= j < rules.len() && rule_matches(#[trigger] rules[j], inverted, action, subject, row);
        assert(applies(rules[j], action, subject));
        let k = choose|k: int| 0 <= k < src.len() && src[k] == j;
        assert(lowers(rules[j].condition, rules[j].predicate));
        assert(cond_holds(conds[k], row));
    }
}

/// The authorization rules compiled for one actor, in the order they were declared.
pub struct Ability {
    rules: Vec<Rule>,
}

impl Ability {
    /// Each rule's query condition selects exactly the rows its predicate holds of.
    #[verifier::type_invariant]
    spec fn rules_lowered(self) -> bool {
        forall|j: int| 0 <= j < self.rules@.len() ==> lowers(#[trigger] self.rules@[j].condition, self.rules@[j].predicate)
    }

    /// The rules, in declaration order.
    pub closed spec fn rules(&self) -> Seq<Rule> {
        self.rules@
    }

    /// An ability with no rules: it grants nothing.
    pub fn new() -> (a: Ability)
        ensures
            a.rules() == Seq::<Rule>::empty(),
    {
        Ability { rules: Vec::new() }
    }

    /// Append a rule whose condition lowers its predicate.
    fn add_rule(&mut self, rule: Rule)
        requires
            lowers(rule.condition, rule.predicate),
        ensures
            final(self).rules() == old(self).rules().push(rule),
    {
        proof {
            use_type_invariant(&*self);
        }
        let mut rules: Vec<Rule> = Vec::new();
        std::mem::swap(&mut rules, &mut self.rules);
        rules.push(rule);
        self.rules = rules;
    }

    /// Layer one, the class-level gate: is there any grant for `action` on
    /// `subject`? Instance conditions are enforced by the other two layers.
    pub fn can_class(&self, action: Action, subject: TypeKey) -> (b: bool)
        ensures
            b == class_granted(self.rules(), action, subject),
    {
        let mut i: usize = 0;
        while i < self.rules.len()
            invariant
                i <= self.rules@.len(),
                forall|j: int| 0 <= j < i ==> !(applies(#[trigger] self.rules@[j], action, subject) && !self.rules@[j].inverted),
            decreases self.rules@.len() - i,
        {
            let r = &self.rules[i];
            if r.applies_to(action, subject) && !r.inverted {
                return true;
            }
            i = i + 1;
        }
        false
    }

    /// Layer two, the query pre-filter: `(OR of grant conditions) AND NOT (OR of
    /// denial conditions)`. With no grant the result is the condition that matches
    /// nothing. It selects exactly the rows the instance check accepts.
    pub fn condition_for(&self, action: Action, subject: TypeKey) -> (c: Condition)
        ensures
            forall|row: Seq<FieldValue>| #[trigger] cond_holds(c, row) == permits(self.rules(), action, subject, row),
            !class_granted(self.rules(), action, subject) ==> c == Condition::Never,
    {
        proof {
            use_type_invariant(self);
        }
        let mut grant: Vec<Condition> = Vec::new();
        let mut deny: Vec<Condition> = Vec::new();
        let ghost mut gsrc: Seq<int> = Seq::empty();
        let ghost mut dsrc: Seq<int> = Seq::empty();
        let mut i: usize = 0;
        while i < self.rules.len()
            invariant
                i <= self.rules@.len(),
                forall|j: int| 0 <= j < self.rules@.len() ==> lowers(#[trigger] self.rules@[j].condition, self.rules@[j].predicate),
                gsrc.len() == grant@.len(),
                dsrc.len() == deny@.len(),
                forall|k: int|
                    0 <= k < gsrc.len() ==> 0 <= #[trigger] gsrc[k] < i && equivalent(grant@[k], self.rules@[gsrc[k]].condition)
                        && applies(self.rules@[gsrc[k]], action, subject) && !self.rules@[gsrc[k]].inverted,
                forall|k: int|
                    0 <= k < dsrc.len() ==> 0 <= #[trigger] dsrc[k] < i && equivalent(deny@[k], self.rules@[dsrc[k]].condition)
                        && applies(self.rules@[dsrc[k]], action, subject) && self.rules@[dsrc[k]].inverted,
                forall|j: int|
                    0 <= j < i && applies(#[trigger] self.rules@[j], action, subject) && !self.rules@[j].inverted
                        ==> exists|k: int| 0 <= k < gsrc.len() && gsrc[k] == j,
                forall|j: int|
                    0 <= j < i && applies(#[trigger] self.rules@[j], action, subject) && self.rules@[j].inverted
                        ==> exists|k: int| 0 <= k < dsrc.len() && dsrc[k] == j,
            decreases self.rules@.len() - i,
        {
            let r = &self.rules[i];
            let ghost old_g = gsrc;
            let ghost old_d = dsrc;
            if r.applies_to(action, subject) {
                if r.inverted {
                    deny.push(r.condition.duplicate());
                    proof {
                        dsrc = dsrc.push(i as int);
                        assert(dsrc[dsrc.len() - 1] == i as int);
                    }
                } else {
                    grant.push(r.condition.duplicate());
                    proof {
                        gsrc = gsrc.push(i as int);
                        assert(gsrc[gsrc.len() - 1] == i as int);
                    }
                }
            }
            proof {
                assert forall|j: int|
                    0 <= j < i + 1 && applies(#[trigger] self.rules@[j], action, subject) && !self.rules@[j].inverted
                        implies exists|k: int| 0 <= k < gsrc.len() && gsrc[k] == j by {
                    if j < i {
                        let k = choose|k: int| 0 <= k < old_g.len() && old_g[k] == j;
                        assert(gsrc[k] == j);
                    } else {
                        assert(gsrc[gsrc.len() - 1] == j);
                    }
                }
                assert forall|j: int|
                    0 <= j < i + 1 && applies(#[trigger] self.rules@[j], action, subject) && self.rules@[j].inverted
                        implies exists|k: int| 0 <= k < dsrc.len() && dsrc[k] == j by {
                    if j < i {
                        let k = choose|k: int| 0 <= k < old_d.len() && old_d[k] == j;
                        assert(dsrc[k] == j);
                    } else {
                        assert(dsrc[dsrc.len() - 1] == j);
                    }
                }
            }
            i = i + 1;
        }
        if grant.len() == 0 {
            proof {
                assert forall|row: Seq<FieldValue>| #[trigger] cond_holds(Condition::Never, row) == permits(self.rules(), action, subject, row) by {
                    if some_rule_matches(self.rules@, false, action, subject, row) {
                        let j = choose|j: int|
                            0 <= j < self.rules@.len() && rule_matches(#[trigger] self.rules@[j], false, action, subject, row);
                        assert(applies(self.rules@[j], action, subject));
                    }
                }
                if class_granted(self.rules(), action, subject) {
                    let j = choose|j: int|
                        0 <= j < self.rules@.len() && applies(#[trigger] self.rules@[j], action, subject) && !self.rules@[j].inverted;
                    assert(applies(self.rules@[j], action, subject));
                }
            }
            return Condition::Never;
        }
        let ghost grant_v = grant@;
        let ghost deny_v = deny@;
        let has_deny = deny.len() > 0;
        let mut parts: Vec<Condition> = Vec::new();
        parts.push(Condition::Any(grant));
        let any_denial = Condition::Any(deny);
        assert(forall|row: Seq<FieldValue>| #[trigger] cond_holds(any_denial, row) == any_cond(deny_v, row));
        let denial = Condition::Not(Box::new(any_denial));
        assert forall|row: Seq<FieldValue>| #[trigger] cond_holds(denial, row) == !any_cond(deny_v, row) by {
            assert(cond_holds(any_denial, row) == any_cond(deny_v, row));
        }
        if has_deny {
            parts.push(denial);
        }
        let c = Condition::All(parts);
        proof {
            let k0 = 0int;
            assert(applies(self.rules@[gsrc[k0]], action, subject));
            assert forall|row: Seq<FieldValue>| #[trigger] cond_holds(c, row) == permits(self.rules(), action, subject, row) by {
                let gexact = Seq::new(gsrc.len(), |k: int| self.rules@[gsrc[k]].condition);
                let dexact = Seq::new(dsrc.len(), |k: int| self.rules@[dsrc[k]].condition);
                lemma_all_conds(grant_v, row);
                lemma_all_conds(gexact, row);
                lemma_all_conds(deny_v, row);
                lemma_all_conds(dexact, row);
                assert forall|j: int|
                    0 <= j < self.rules@.len() && applies(#[trigger] self.rules@[j], action, subject)
                        && self.rules@[j].inverted == false implies exists|k: int| 0 <= k < gsrc.len() && gsrc[k] == j by {}
                assert forall|j: int|
                    0 <= j < self.rules@.len() && applies(#[trigger] self.rules@[j], action, subject)
                        && self.rules@[j].inverted == true implies exists|k: int| 0 <= k < dsrc.len() && dsrc[k] == j by {}
                lemma_collected_conditions(gexact, gsrc, self.rules@, false, action, subject, row);
                lemma_collected_conditions(dexact, dsrc, self.rules@, true, action, subject, row);
                if any_cond(grant_v, row) {
                    let k = choose|k: int| 0 <= k < grant_v.len() && cond_holds(#[trigger] grant_v[k], row);
                    assert(cond_holds(gexact[k], row));
                }
                if any_cond(gexact, row) {
                    let k = choose|k: int| 0 <= k < gexact.len() && cond_holds(#[trigger] gexact[k], row);
                    assert(cond_holds(grant_v[k], row));
                }
                if any_cond(deny_v, row) {
                    let k = choose|k: int| 0 <= k < deny_v.len() && cond_holds(#[trigger] deny_v[k], row);
                    assert(cond_holds(dexact[k], row));
                }
                if any_cond(dexact, row) {
                    let k = choose|k: int| 0 <= k < dexact.len() && cond_holds(#[trigger] dexact[k], row);
                    assert(cond_holds(deny_v[k], row));
                }
                lemma_all_conds(parts@, row);
                assert(cond_holds(parts@[0], row) == any_cond(grant_v, row));
                if has_deny {
                    assert(parts@[1] == denial);
                    assert(cond_holds(parts@[1], row) == !any_cond(deny_v, row));
                } else {
                    assert(deny_v.len() == 0);
                    assert(!any_cond(dexact, row));
                }
            }
        }
        c
    }

    /// Layer three, the instance check: some grant matches `row` and no denial does
    /// (a matching denial overrides).
    pub fn can(&self, action: Action, subject: TypeKey, row: &Vec<FieldValue>) -> (b: bool)
        ensures
            b == permits(self.rules(), action, subject, row@),
    {
        let mut allowed = false;
        let mut i: usize = 0;
        while i < self.rules.len()
            invariant
                i <= self.rules@.len(),
                allowed == exists|j: int| 0 <= j < i && rule_matches(#[trigger] self.rules@[j], false, action, subject, row@),
                forall|j: int| 0 <= j < i ==> !rule_matches(#[trigger] self.rules@[j], true, action, subject, row@),
            decreases self.rules@.len() - i,
        {
            let r = &self.rules[i];
            if r.applies_to(action, subject) && r.predicate.matches(row) {
                if r.inverted {
                    assert(rule_matches(self.rules@[i as int], true, action, subject, row@));
                    return false;
                }
                assert(rule_matches(self.rules@[i as int], false, action, subject, row@));
                allowed = true;
            }
            i = i + 1;
        }
        allowed
    }

    /// Layer three: the union of the fields permitted by the grants that match
    /// `row`. A matching grant without a field restriction permits every field.
    pub fn permitted_fields(&self, action: Action, subject: TypeKey, row: &Vec<FieldValue>) -> (fs: FieldSet)
        ensures
            (fs is All) == unrestricted(self.rules(), action, subject, row@),
            forall|name: Seq<char>|
                #[trigger] field_permitted(fs, name) == field_allowed(self.rules(), action, subject, row@, name),
    {
        let mut acc: Vec<String> = Vec::new();
        let mut i: usize = 0;
        while i < self.rules.len()
            invariant
                i <= self.rules@.len(),
                forall|j: int|
                    0 <= j < i && rule_matches(#[trigger] self.rules@[j], false, action, subject, row@)
                        ==> self.rules@[j].fields is Only,
                forall|name: Seq<char>|
                    #[trigger] names_contain(acc@, name) == exists|j: int|
                        0 <= j < i && rule_matches(#[trigger] self.rules@[j], false, action, subject, row@)
                            && field_permitted(self.rules@[j].fields, name),
            decreases self.rules@.len() - i,
        {
            let r = &self.rules[i];
            if r.applies_to(action, subject) && !r.inverted && r.predicate.matches(row) {
                assert(rule_matches(self.rules@[i as int], false, action, subject, row@));
                match &r.fields {
                    FieldSet::All => {
                        proof {
                            assert forall|name: Seq<char>| #[trigger]
                                field_permitted(FieldSet::All, name) == field_allowed(self.rules(), action, subject, row@, name) by {
                                assert(field_permitted(self.rules@[i as int].fields, name));
                            }
                        }
                        return FieldSet::All;
                    },
                    FieldSet::Only(cols) => {
                        let ghost before = acc@;
                        append_names(&mut acc, cols);
                        proof {
                            assert forall|name: Seq<char>|
                                #[trigger] names_contain(acc@, name) == exists|j: int|
                                    0 <= j < i + 1 && rule_matches(#[trigger] self.rules@[j], false, action, subject, row@)
                                        && field_permitted(self.rules@[j].fields, name) by {
                                if names_contain(cols@, name) {
                                    assert(field_permitted(self.rules@[i as int].fields, name));
                                }
                                if exists|j: int|
                                    0 <= j < i + 1 && rule_matches(#[trigger] self.rules@[j], false, action, subject, row@)
                                        && field_permitted(self.rules@[j].fields, name) {
                                    let j = choose|j: int|
                                        0 <= j < i + 1 && rule_matches(#[trigger] self.rules@[j], false, action, subject, row@)
                                            && field_permitted(self.rules@[j].fields, name);
                                    if j < i {
                                        assert(names_contain(before, name));
                                    }
                                }
                            }
                        }
                    },
                }
            }
            i = i + 1;
        }
        let fs = FieldSet::Only(acc);
        proof {
            if unrestricted(self.rules(), action, subject, row@) {
                let j = choose|j: int|
                    0 <= j < self.rules@.len() && rule_matches(#[trigger] self.rules@[j], false, action, subject, row@)
                        && self.rules@[j].fields is All;
                assert(self.rules@[j].fields is Only);
            }
            assert forall|name: Seq<char>|
                #[trigger] field_permitted(fs, name) == field_allowed(self.rules(), action, subject, row@, name) by {
                assert(names_contain(acc@, name) == field_allowed(self.rules(), action, subject, row@, name));
            }
        }
        fs
    }

    /// Layer three: strip from a serialized row (its fields, in order) every field
    /// this ability does not permit for `action`. A row whose matching grants leave
    /// every field readable is returned whole.
    pub fn mask<J>(&self, action: Action, subject: TypeKey, row: &Vec<FieldValue>, object: Vec<(String, J)>) -> (out: Vec<(String, J)>)
        ensures
            out@ == object@.filter(|e: (String, J)| field_allowed(self.rules(), action, subject, row@, e.0@)),
    {
        let fs = self.permitted_fields(action, subject, row);
        let ghost keep = |e: (String, J)| field_allowed(self.rules(), action, subject, row@, e.0@);
        let ghost orig = object@;
        let mut rest = object;
        let mut out: Vec<(String, J)> = Vec::new();
        let mut i: usize = 0;
        let n = rest.len();
        while i < n
            invariant
                n == orig.len(),
                i <= n,
                rest@ == orig.skip(i as int),
                out@ == orig.take(i as int).filter(keep),
                forall|name: Seq<char>|
                    #[trigger] field_permitted(fs, name) == field_allowed(self.rules(), action, subject, row@, name),
                keep == (|e: (String, J)| field_allowed(self.rules(), action, subject, row@, e.0@)),
            decreases n - i,
        {
            let entry = rest.remove(0);
            proof {
                assert(entry == orig[i as int]);
                assert(orig.take(i + 1).drop_last() =~= orig.take(i as int));
                assert(orig.take(i + 1).last() == entry);
                reveal(Seq::filter);
                assert(orig.take(i + 1).filter(keep) == if keep(entry) {
                    orig.take(i as int).filter(keep).push(entry)
                } else {
                    orig.take(i as int).filter(keep)
                });
            }
            if fs.permits(&entry.0) {
                out.push(entry);
            }
            proof {
                assert(rest@ =~= orig.skip(i + 1));
            }
            i = i + 1;
        }
        proof {
            assert(orig.take(n as int) =~= orig);
        }
        out
    }

    /// Layer three over a collection of rows, each given with its serialized
    /// fields: drop the rows the instance check rejects, and mask the fields of the
    /// rest.
    pub fn mask_many<J>(&self, action: Action, subject: TypeKey, items: Vec<(Vec<FieldValue>, Vec<(String, J)>)>) -> (out: Vec<Vec<(String, J)>>)
        ensures
            out@.map_values(|v: Vec<(String, J)>| v@) == masked_rows(self.rules(), action, subject, items@),
    {
        let ghost orig = items@;
        let mut rest = items;
        let mut out: Vec<Vec<(String, J)>> = Vec::new();
        let mut i: usize = 0;
        let n = rest.len();
        while i < n
            invariant
                n == orig.len(),
                i <= n,
                rest@ == orig.skip(i as int),
                out@.map_values(|v: Vec<(String, J)>| v@) == masked_rows(self.rules(), action, subject, orig.take(i as int)),
            decreases n - i,
        {
            let (row, object) = rest.remove(0);
            proof {
                assert(orig.take(i + 1).drop_last() =~= orig.take(i as int));
                assert(orig.take(i + 1).last() == (row, object));
            }
            if self.can(action, subject, &row) {
                let masked = self.mask(action, subject, &row, object);
                let ghost before = out@;
                out.push(masked);
                proof {
                    assert(out@.map_values(|v: Vec<(String, J)>| v@) =~= before.map_values(|v: Vec<(String, J)>| v@).push(masked@));
                }
            }
            proof {
                assert(rest@ =~= orig.skip(i + 1));
            }
            i = i + 1;
        }
        proof {
            assert(orig.take(n as int) =~= orig);
        }
        out
    }
}

/// The fields of `object` that the grants matching `row` permit, in order.
pub open spec fn masked_fields<J>(
    rules: Seq<Rule>,
    action: Action,
    subject: TypeKey,
    row: Seq<FieldValue>,
    object: Seq<(String, J)>,
) -> Seq<(String, J)> {
    object.filter(|e: (String, J)| field_allowed(rules, action, subject, row, e.0@))
}

/// The rows of `items` the instance check accepts, each reduced to its permitted
/// fields, in order.
pub open spec fn masked_rows<J>(
    rules: Seq<Rule>,
    action: Action,
    subject: TypeKey,
    items: Seq<(Vec<FieldValue>, Vec<(String, J)>)>,
) -> Seq<Seq<(String, J)>>
    decreases items.len(),
{
    if items.len() == 0 {
        Seq::empty()
    } else {
        let rest = masked_rows(rules, action, subject, items.drop_last());
        let last = items.last();
        if permits(rules, action, subject, last.0@) {
            rest.push(masked_fields(rules, action, subject, last.0@, last.1@))
        } else {
            rest
        }
    }
}

/// Append a copy of each name of `cols` to `acc`.
fn append_names(acc: &mut Vec<String>, cols: &Vec<String>)
    ensures
        forall|name: Seq<char>|
            #[trigger] names_contain(final(acc)@, name) == (names_contain(old(acc)@, name) || names_contain(cols@, name)),
{
    let ghost start = acc@;
    let mut i: usize = 0;
    while i < cols.len()
        invariant
            i <= cols@.len(),
            acc@.len() == start.len() + i,
            forall|k: int| 0 <= k < start.len() ==> acc@[k] == start[k],
            forall|k: int| 0 <= k < i ==> (#[trigger] acc@[start.len() + k])@ == cols@[k]@,
        decreases cols@.len() - i,
    {
        acc.push(cols[i].clone());
        i = i + 1;
    }
    proof {
        assert forall|name: Seq<char>|
            #[trigger] names_contain(acc@, name) == (names_contain(start, name) || names_contain(cols@, name)) by {
            if names_contain(acc@, name) {
                let m = choose|m: int| 0 <= m < acc@.len() && (#[trigger] acc@[m])@ == name;
                if m < start.len() {
                    assert(start[m]@ == name);
                } else {
                    let k = m - start.len();
                    assert(acc@[start.len() + k]@ == cols@[k]@);
                    assert(cols@[k]@ == name);
                }
            }
            if names_contain(start, name) {
                let m = choose|m: int| 0 <= m < start.len() && (#[trigger] start[m])@ == name;
                assert(acc@[m]@ == name);
            }
            if names_contain(cols@, name) {
                let k = choose|k: int| 0 <= k < cols@.len() && (#[trigger] cols@[k])@ == name;
                assert(acc@[start.len() + k]@ == name);
            }
        }
    }
}


/// One rule under construction: its row condition and its field restriction.
pub struct RuleSpec {
    pub predicate: Predicate,
    pub fields: FieldSet,
}

impl RuleSpec {
    /// An unconditional rule over every field.
    pub fn new() -> (r: RuleSpec)
        ensures
            r.predicate == Predicate::Always,
            r.fields == FieldSet::All,
    {
        RuleSpec { predicate: Predicate::Always, fields: FieldSet::All }
    }

    /// Narrow the rule with a row condition.
    pub fn when(self, predicate: Predicate) -> (r: RuleSpec)
        ensures
            r.predicate == predicate,
            r.fields == self.fields,
    {
        RuleSpec { predicate, fields: self.fields }
    }

    /// Restrict the rule to these fields; without this every field is permitted.
    pub fn fields(self, columns: Vec<String>) -> (r: RuleSpec)
        ensures
            r.predicate == self.predicate,
            r.fields == FieldSet::Only(columns),
    {
        RuleSpec { predicate: self.predicate, fields: FieldSet::Only(columns) }
    }
}

/// The rule `spec` declares, as a grant or a denial of `action` on `subject`.
pub open spec fn declared(rule: Rule, action: Action, subject: TypeKey, inverted: bool, spec: RuleSpec) -> bool {
    &&& rule.action == action
    &&& rule.subject == subject
    &&& rule.inverted == inverted
    &&& rule.predicate == spec.predicate
    &&& rule.fields == spec.fields
}

/// Collects the rules declared for one actor, then yields the compiled [`Ability`].
pub struct AbilityBuilder {
    ability: Ability,
}

impl AbilityBuilder {
    /// The rules declared so far, in order.
    pub closed spec fn rules(&self) -> Seq<Rule> {
        self.ability.rules()
    }

    pub fn new() -> (b: AbilityBuilder)
        ensures
            b.rules() == Seq::<Rule>::empty(),
    {
        AbilityBuilder { ability: Ability::new() }
    }

    fn declare(&mut self, action: Action, subject: TypeKey, inverted: bool, spec: RuleSpec)
        ensures
            final(self).rules().len() == old(self).rules().len() + 1,
            final(self).rules().drop_last() == old(self).rules(),
            declared(final(self).rules().last(), action, subject, inverted, spec),
    {
        let condition = spec.predicate.to_condition();
        let rule = Rule {
            action,
            subject,
            inverted,
            predicate: spec.predicate,
            condition,
            fields: spec.fields,
        };
        self.ability.add_rule(rule);
        assert(self.rules().drop_last() =~= old(self).rules());
    }

    /// Declare a grant of `action` on `subject`, narrowed by `spec`.
    pub fn can(&mut self, action: Action, subject: TypeKey, spec: RuleSpec)
        ensures
            final(self).rules().len() == old(self).rules().len() + 1,
            final(self).rules().drop_last() == old(self).rules(),
            declared(final(self).rules().last(), action, subject, false, spec),
    {
        self.declare(action, subject, false, spec);
    }

    /// Declare a denial of `action` on `subject`: the same shape as a grant, but a
    /// matching denial overrides every grant.
    pub fn cannot(&mut self, action: Action, subject: TypeKey, spec: RuleSpec)
        ensures
            final(self).rules().len() == old(self).rules().len() + 1,
            final(self).rules().drop_last() == old(self).rules(),
            declared(final(self).rules().last(), action, subject, true, spec),
    {
        self.declare(action, subject, true, spec);
    }

    /// The compiled ability.
    pub fn build(self) -> (a: Ability)
        ensures
            a.rules() == self.rules(),
    {
        self.ability
    }
}

/// Builds an [`Ability`] for a given actor: an application implements it once for
/// its actor type, declaring the rules.
pub trait AbilityFactory {
    /// The authenticated actor an ability is built for.
    type Actor;

    /// The ability this factory defines for `actor`: the rules it declares, in order.
    spec fn ability_of(&self, actor: Self::Actor) -> Ability;

    /// Declare the rules for `actor`: they are appended to those already declared.
    fn define(&self, actor: &Self::Actor, ability: &mut AbilityBuilder)
        ensures
            final(ability).rules() == old(ability).rules() + self.ability_of(*actor).rules(),
    ;
}

/// The instance check never admits a row that the class-level check refuses: the
/// class-level check is optimistic, never stricter than the row check.
pub proof fn lemma_instance_implies_class(rules: Seq<Rule>, action: Action, subject: TypeKey, row: Seq<FieldValue>)
    requires
        permits(rules, action, subject, row),
    ensures
        class_granted(rules, action, subject),
{
    let j = choose|j: int| 0 <= j < rules.len() && rule_matches(#[trigger] rules[j], false, action, subject, row);
    assert(applies(rules[j], action, subject));
}

/// A matching denial overrides: whatever grants exist, a row that a denial bearing
/// on the action matches is refused.
pub proof fn lemma_denial_overrides(rules: Seq<Rule>, j: int, action: Action, subject: TypeKey, row: Seq<FieldValue>)
    requires
        0 <= j < rules.len(),
        rule_matches(rules[j], true, action, subject, row),
    ensures
        !permits(rules, action, subject, row),
{
}

/// A `Manage` grant is the action wildcard: once declared, it admits a row it
/// matches for every action, unless a denial bearing on that action matches too.
pub proof fn lemma_manage_is_wildcard(rules: Seq<Rule>, j: int, action: Action, subject: TypeKey, row: Seq<FieldValue>)
    requires
        0 <= j < rules.len(),
        rules[j].action == Action::Manage,
        rules[j].subject == subject,
        !rules[j].inverted,
        pred_holds(rules[j].predicate, row),
        !some_rule_matches(rules, true, action, subject, row),
    ensures
        permits(rules, action, subject, row),
{
    assert(rule_matches(rules[j], false, action, subject, row));
}

/// Declaring another grant never takes a permission away.
pub proof fn lemma_grant_is_monotone(rules: Seq<Rule>, grant: Rule, action: Action, subject: TypeKey, row: Seq<FieldValue>)
    requires
        !grant.inverted,
        permits(rules, action, subject, row),
    ensures
        permits(rules.push(grant), action, subject, row),
{
    let ext = rules.push(grant);
    let j = choose|j: int| 0 <= j < rules.len() && rule_matches(#[trigger] rules[j], false, action, subject, row);
    assert(ext[j] == rules[j]);
    if some_rule_matches(ext, true, action, subject, row) {
        let k = choose|k: int| 0 <= k < ext.len() && rule_matches(#[trigger] ext[k], true, action, subject, row);
        assert(k < rules.len());
        assert(ext[k] == rules[k]);
    }
}

/// Declaring another denial never grants a permission.
pub proof fn lemma_denial_is_antitone(rules: Seq<Rule>, denial: Rule, action: Action, subject: TypeKey, row: Seq<FieldValue>)
    requires
        denial.inverted,
        permits(rules.push(denial), action, subject, row),
    ensures
        permits(rules, action, subject, row),
{
    let ext = rules.push(denial);
    let j = choose|j: int| 0 <= j < ext.len() && rule_matches(#[trigger] ext[j], false, action, subject, row);
    assert(j < rules.len());
    assert(ext[j] == rules[j]);
    if some_rule_matches(rules, true, action, subject, row) {
        let k = choose|k: int| 0 <= k < rules.len() && rule_matches(#[trigger] rules[k], true, action, subject, row);
        assert(ext[k] == rules[k]);
    }
}

/// The field mask keeps exactly the permitted fields: every field it returns is
/// permitted, and every permitted field of the input is returned.
pub proof fn lemma_mask_keeps_permitted<J>(
    rules: Seq<Rule>,
    action: Action,
    subject: TypeKey,
    row: Seq<FieldValue>,
    object: Seq<(String, J)>,
)
    ensures
        forall|k: int|
            0 <= k < masked_fields(rules, action, subject, row, object).len() ==> field_allowed(
                rules,
                action,
                subject,
                row,
                (#[trigger] masked_fields(rules, action, subject, row, object)[k]).0@,
            ),
        forall|i: int|
            0 <= i < object.len() && field_allowed(rules, action, subject, row, object[i].0@)
                ==> #[trigger] masked_fields(rules, action, subject, row, object).contains(object[i]),
{
    let keep = |e: (String, J)| field_allowed(rules, action, subject, row, e.0@);
    assert forall|k: int|
        0 <= k < object.filter(keep).len() implies keep(#[trigger] object.filter(keep)[k]) by {
        object.lemma_filter_pred(keep, k);
    }
    assert forall|i: int| 0 <= i < object.len() && keep(object[i]) implies #[trigger] object.filter(keep).contains(object[i]) by {
        object.lemma_filter_contains(keep, i);
    }
}

} // verus!
