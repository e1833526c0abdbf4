//! What the declaration attributes decide about the items they decorate, over a
//! plain model of the Rust types they read.
//!
//! A type is read the way the attributes read it: by the last segment of its path
//! and that segment's angle-bracketed arguments, or as a trait object by the
//! traits it names. From that, an injectable struct's fields are classified (a
//! default, a required dependency, an optional one), the key each dependency is
//! registered under is chosen, and readable labels are given to dependencies.

use vstd::prelude::*;
use vstd::string::StringExecFns;
use crate::TypeKey;

verus! {

/// One angle-bracketed argument of a path segment.
pub enum GenericArg {
    /// A type argument.
    Type(TypeExpr),
    /// A lifetime, a constant, a binding: anything but a type.
    Other,
}

/// A Rust type, as the attributes read it. Each form keeps its rendered tokens,
/// which stand in where no better label exists.
pub enum TypeExpr {
    /// A path type: the identifier of its last segment (if it has segments), and
    /// that segment's angle-bracketed arguments (`None` when it has none).
    Path { last: Option<String>, args: Option<Vec<GenericArg>>, tokens: String },
    /// `dyn A + B`: for each bound, the last segment of the trait it names
    /// (`None` for a lifetime bound).
    TraitObject { bounds: Vec<Option<String>>, tokens: String },
    /// `&T` or `&mut T`: the referenced type.
    Reference { elem: Box<TypeExpr>, tokens: String },
    /// Any other type.
    Other { tokens: String },
}

/// The type arguments among `args`, in order.
pub open spec fn type_args(args: Seq<GenericArg>) -> Seq<TypeExpr>
    decreases args.len(),
{
    if args.len() == 0 {
        Seq::empty()
    } else {
        let rest = type_args(args.drop_last());
        match args.last() {
            GenericArg::Type(t) => rest.push(t),
            GenericArg::Other => rest,
        }
    }
}

/// The `idx`-th type argument of `t` when its last path segment is `name<...>`.
pub open spec fn generic_of(t: TypeExpr, name: Seq<char>, idx: int) -> Option<TypeExpr> {
    match t {
        TypeExpr::Path { last: Some(l), args: Some(a), .. } => if l@ == name && 0 <= idx < type_args(a@).len() {
            Some(type_args(a@)[idx])
        } else {
            None
        },
        _ => None,
    }
}

/// The `T` of `Arc<T>`: the last segment is `Arc` with exactly one argument, a type.
pub open spec fn arc_of(t: TypeExpr) -> Option<TypeExpr> {
    match t {
        TypeExpr::Path { last: Some(l), args: Some(a), .. } => if l@ == "Arc"@ && a@.len() == 1 && a@[0] is Type {
            Some(a@[0]->Type_0)
        } else {
            None
        },
        _ => None,
    }
}

/// The first trait a trait object names, if any.
pub open spec fn first_bound(bounds: Seq<Option<String>>) -> Option<Seq<char>>
    decreases bounds.len(),
{
    if bounds.len() == 0 {
        None
    } else {
        match bounds[0] {
            Some(b) => Some(b@),
            None => first_bound(bounds.drop_first()),
        }
    }
}

/// A short, readable label for a dependency type: the last path segment, or
/// `dyn Trait`, else the rendered tokens.
pub open spec fn label_of(t: TypeExpr) -> Seq<char> {
    match t {
        TypeExpr::Path { last: Some(l), .. } => l@,
        TypeExpr::Path { last: None, tokens, .. } => tokens@,
        TypeExpr::TraitObject { bounds, tokens } => match first_bound(bounds@) {
            Some(name) => "dyn "@ + name,
            None => tokens@,
        },
        TypeExpr::Reference { tokens, .. } => tokens@,
        TypeExpr::Other { tokens } => tokens@,
    }
}

fn str_eq(a: &str, b: &str) -> (r: bool)
    ensures
        r == (a@ == b@),
{
    let n = a.unicode_len();
    if n != b.unicode_len() {
        return false;
    }
    let mut i: usize = 0;
    while i < n
        invariant
            n == a@.len(),
            n == b@.len(),
            i <= n,
            forall|j: int| 0 <= j < i ==> a@[j] == b@[j],
        decreases n - i,
    {
        if a.get_char(i) != b.get_char(i) {
            return false;
        }
        i = i + 1;
    }
    assert(a@ =~= b@);
    true
}

impl TypeExpr {
    /// Whether the last path segment of this type is `name`.
    pub fn last_is(&self, name: &str) -> (b: bool)
        ensures
            b == (*self matches TypeExpr::Path { last: Some(l), .. } && l@ == name@),
    {
        match self {
            TypeExpr::Path { last: Some(l), .. } => str_eq(l.as_str(), name),
            _ => false,
        }
    }

    /// The `idx`-th type argument of this type when its last path segment is
    /// `name<...>`.
    pub fn nth_generic_type(&self, name: &str, idx: usize) -> (r: Option<&TypeExpr>)
        ensures
            match generic_of(*self, name@, idx as int) {
                Some(t) => r == Some(&t),
                None => r is None,
            },
    {
        match self {
            TypeExpr::Path { last: Some(l), args: Some(a), .. } => {
                if !str_eq(l.as_str(), name) {
                    return None;
                }
                let mut seen: usize = 0;
                let mut i: usize = 0;
                while i < a.len()
                    invariant
                        i <= a@.len(),
                        seen == type_args(a@.take(i as int)).len(),
                        seen <= idx,
                        *self matches TypeExpr::Path { last: Some(l2), args: Some(a2), .. } && l2 == *l && a2 == *a,
                        l@ == name@,
                    decreases a@.len() - i,
                {
                    proof {
                        assert(a@.take(i + 1).drop_last() =~= a@.take(i as int));
                        lemma_type_args_prefix(a@, i as int + 1);
                    }
                    match &a[i] {
                        GenericArg::Type(t) => {
                            if seen == idx {
                                proof {
                                    assert(type_args(a@.take(i + 1)) == type_args(a@.take(i as int)).push(*t));
                                    lemma_type_args_grow(a@, i as int + 1);
                                    assert(type_args(a@.take(i + 1))[idx as int] == *t);
                                    assert(type_args(a@)[idx as int] == *t);
                                }
                                return Some(t);
                            }
                            seen = seen + 1;
                        },
                        GenericArg::Other => {},
                    }
                    i = i + 1;
                }
                proof {
                    assert(a@.take(a@.len() as int) =~= a@);
                }
                None
            },
            _ => None,
        }
    }

    /// The `T` of `Arc<T>`.
    pub fn arc_inner(&self) -> (r: Option<&TypeExpr>)
        ensures
            match arc_of(*self) {
                Some(t) => r == Some(&t),
                None => r is None,
            },
    {
        match self {
            TypeExpr::Path { last: Some(l), args: Some(a), .. } => {
                if !str_eq(l.as_str(), "Arc") {
                    proof {
                        reveal_strlit("Arc");
                    }
                    return None;
                }
                if a.len() != 1 {
                    return None;
                }
                match &a[0] {
                    GenericArg::Type(t) => Some(t),
                    GenericArg::Other => None,
                }
            },
            _ => None,
        }
    }

    /// Whether this is a trait object.
    pub fn is_trait_object(&self) -> (b: bool)
        ensures
            b == (*self is TraitObject),
    {
        match self {
            TypeExpr::TraitObject { .. } => true,
            _ => false,
        }
    }

    /// A short, readable label for this type.
    pub fn type_label(&self) -> (s: String)
        ensures
            s@ == label_of(*self),
    {
        match self {
            TypeExpr::Path { last: Some(l), .. } => l.clone(),
            TypeExpr::Path { last: None, tokens, .. } => tokens.clone(),
            TypeExpr::TraitObject { bounds, tokens } => {
                let mut i: usize = 0;
                assert(bounds@.skip(0) =~= bounds@);
                while i < bounds.len()
                    invariant
                        *self matches TypeExpr::TraitObject { bounds: b2, .. } && b2 == *bounds,
                        i <= bounds@.len(),
                        first_bound(bounds@) == first_bound(bounds@.skip(i as int)),
                    decreases bounds@.len() - i,
                {
                    proof {
                        assert(bounds@.skip(i as int)[0] == bounds@[i as int]);
                        assert(bounds@.skip(i as int).drop_first() =~= bounds@.skip(i + 1));
                    }
                    match &bounds[i] {
                        Some(b) => {
                            assert(first_bound(bounds@.skip(i as int)) == Some(b@));
                            let mut s = String::from_str("dyn ");
                            s.append(b.as_str());
                            proof {
                                reveal_strlit("dyn ");
                            }
                            return s;
                        },
                        None => {},
                    }
                    i = i + 1;
                }
                tokens.clone()
            },
            TypeExpr::Reference { tokens, .. } => tokens.clone(),
            TypeExpr::Other { tokens } => tokens.clone(),
        }
    }
}

proof fn lemma_type_args_prefix(a: Seq<GenericArg>, k: int)
    requires
        0 < k <= a.len(),
    ensures
        type_args(a.take(k)) == match a[k - 1] {
            GenericArg::Type(t) => type_args(a.take(k - 1)).push(t),
            GenericArg::Other => type_args(a.take(k - 1)),
        },
{
    assert(a.take(k).drop_last() =~= a.take(k - 1));
}


/// The type arguments of a prefix of `a` are a prefix of those of `a`.
proof fn lemma_type_args_grow(a: Seq<GenericArg>, k: int)
    requires
        0 <= k <= a.len(),
    ensures
        type_args(a.take(k)).len() <= type_args(a).len(),
        forall|j: int| 0 <= j < type_args(a.take(k)).len() ==> type_args(a)[j] == #[trigger] type_args(a.take(k))[j],
    decreases a.len() - k,
{
    if k == a.len() {
        assert(a.take(k) =~= a);
    } else {
        lemma_type_args_grow(a, k + 1);
        lemma_type_args_prefix(a, k + 1);
        let small = type_args(a.take(k));
        let big = type_args(a.take(k + 1));
        assert forall|j: int| 0 <= j < small.len() implies type_args(a)[j] == #[trigger] small[j] by {
            assert(big[j] == small[j]);
        }
    }
}


/// A named field of a struct that an injection attribute decorates: whether it
/// carries `#[inject]`, and its type.
pub struct InjectField {
    pub name: String,
    pub inject: bool,
    pub ty: TypeExpr,
}

/// Which part of a field's type a dependency is keyed by: the field type itself
/// (a trait object is bound under its `Arc<dyn Trait>`), the `T` of `Arc<T>`, the
/// inner type of `Option<...>`, or the `T` of `Option<Arc<T>>`.
#[derive(Clone, Copy, Debug, PartialEq, Eq, Structural)]
pub enum KeySource {
    Field,
    ArcInner,
    OptionInner,
    OptionArcInner,
}

/// How one field of an injectable struct is built.
pub enum FieldInit {
    /// `Default::default()`: the field carries no `#[inject]`.
    Default,
    /// A required dependency, resolved as a trait object (`dynamic`) or as a
    /// concrete provider; construction fails with `missing` when it is absent.
    Required { dynamic: bool, key: KeySource, label: String, missing: String },
    /// An optional dependency: `None` when absent.
    Optional { dynamic: bool, key: KeySource },
}

/// The shape of a struct an injection attribute decorates.
pub enum StructShape {
    Unit,
    Named(Vec<InjectField>),
    Tuple,
}

/// How an injectable struct is built from the container.
pub struct InjectionPlan {
    /// The struct is built with `Default::default()` as a whole: it has named
    /// fields, none of them injected.
    pub uses_default: bool,
    /// How each named field is built, in field order.
    pub fields: Vec<FieldInit>,
}

/// Why an injected field cannot be built, if it cannot.
pub open spec fn field_error(f: InjectField) -> Option<Seq<char>> {
    if !f.inject {
        None
    } else {
        match generic_of(f.ty, "Option"@, 0) {
            Some(inner) => if arc_of(inner) is None {
                Some(
                    "#[inject] `Option<…>` must wrap an `Arc<T>` or `Arc<dyn Trait>` (the optional-dependency form)"@,
                )
            } else {
                None
            },
            None => if arc_of(f.ty) is None {
                Some(
                    "#[inject] requires an `Arc<T>` or `Arc<dyn Trait>` field — a dependency is resolved from the container as a shared `Arc`"@,
                )
            } else {
                None
            },
        }
    }
}

/// The message a required dependency fails with when it is absent.
pub open spec fn missing_text(struct_name: Seq<char>, field: Seq<char>) -> Seq<char> {
    struct_name + "."@ + field + ": no provider registered for this dependency"@
}

/// `init` is how the buildable field `f` of struct `struct_name` is built.
pub open spec fn planned_init(struct_name: Seq<char>, f: InjectField, init: FieldInit) -> bool {
    if !f.inject {
        init is Default
    } else {
        match generic_of(f.ty, "Option"@, 0) {
            Some(inner) => {
                let dynamic = arc_of(inner)->0 is TraitObject;
                init == (FieldInit::Optional {
                    dynamic,
                    key: if dynamic {
                        KeySource::OptionInner
                    } else {
                        KeySource::OptionArcInner
                    },
                })
            },
            None => {
                let inner = arc_of(f.ty)->0;
                init matches FieldInit::Required { dynamic, key, label, missing } && dynamic == (inner is TraitObject)
                    && key == (if dynamic {
                    KeySource::Field
                } else {
                    KeySource::ArcInner
                }) && label@ == label_of(inner) && missing@ == missing_text(struct_name, f.name@)
            },
        }
    }
}

/// The message a tuple struct is refused with.
pub open spec fn tuple_struct_text() -> Seq<char> {
    "#[injectable] does not support tuple structs"@
}

/// Plan one field, or say why it cannot be built.
fn plan_field(struct_name: &str, f: &InjectField) -> (r: Result<FieldInit, String>)
    ensures
        match field_error(*f) {
            Some(m) => r matches Err(e) && e@ == m,
            None => r matches Ok(init) && planned_init(struct_name@, *f, init),
        },
{
    if !f.inject {
        return Ok(FieldInit::Default);
    }
    proof {
        reveal_strlit("Option");
    }
    match f.ty.nth_generic_type("Option", 0) {
        Some(inner) => {
            match inner.arc_inner() {
                None => {
                    let m = "#[inject] `Option<…>` must wrap an `Arc<T>` or `Arc<dyn Trait>` (the optional-dependency form)";
                    proof {
                        reveal_strlit(
                            "#[inject] `Option<…>` must wrap an `Arc<T>` or `Arc<dyn Trait>` (the optional-dependency form)",
                        );
                    }
                    Err(String::from_str(m))
                },
                Some(arc) => {
                    let dynamic = arc.is_trait_object();
                    let key = if dynamic {
                        KeySource::OptionInner
                    } else {
                        KeySource::OptionArcInner
                    };
                    Ok(FieldInit::Optional { dynamic, key })
                },
            }
        },
        None => {
            match f.ty.arc_inner() {
                None => {
                    let m = "#[inject] requires an `Arc<T>` or `Arc<dyn Trait>` field — a dependency is resolved from the container as a shared `Arc`";
                    proof {
                        reveal_strlit(
                            "#[inject] requires an `Arc<T>` or `Arc<dyn Trait>` field — a dependency is resolved from the container as a shared `Arc`",
                        );
                    }
                    Err(String::from_str(m))
                },
                Some(inner) => {
                    let dynamic = inner.is_trait_object();
                    let key = if dynamic {
                        KeySource::Field
                    } else {
                        KeySource::ArcInner
                    };
                    let label = inner.type_label();
                    let mut missing = String::from_str(struct_name);
                    missing.append(".");
                    missing.append(f.name.as_str());
                    missing.append(": no provider registered for this dependency");
                    proof {
                        reveal_strlit(".");
                        reveal_strlit(": no provider registered for this dependency");
                    }
                    Ok(FieldInit::Required { dynamic, key, label, missing })
                },
            }
        },
    }
}

/// Plan how an injectable struct is built: each `#[inject]` field must be an
/// `Arc<T>` or `Arc<dyn Trait>` (required) or an `Option` of one (optional); a
/// field without `#[inject]` takes its default; a tuple struct is refused. The
/// first field that cannot be built is reported.
pub fn plan_injection(struct_name: &str, shape: &StructShape) -> (r: Result<InjectionPlan, String>)
    ensures
        shape is Unit ==> (r matches Ok(p) && !p.uses_default && p.fields@.len() == 0),
        shape is Tuple ==> (r matches Err(m) && m@ == tuple_struct_text()),
        shape matches StructShape::Named(fs) ==> match r {
            Ok(p) => {
                &&& forall|i: int| 0 <= i < fs@.len() ==> field_error(#[trigger] fs@[i]) is None
                &&& p.fields@.len() == fs@.len()
                &&& forall|i: int| 0 <= i < fs@.len() ==> planned_init(struct_name@, #[trigger] fs@[i], p.fields@[i])
                &&& p.uses_default == !exists|i: int| 0 <= i < fs@.len() && (#[trigger] fs@[i]).inject
            },
            Err(m) => exists|i: int|
                0 <= i < fs@.len() && field_error(#[trigger] fs@[i]) == Some(m@) && forall|j: int|
                    0 <= j < i ==> field_error(#[trigger] fs@[j]) is None,
        },
{
    match shape {
        StructShape::Unit => Ok(InjectionPlan { uses_default: false, fields: Vec::new() }),
        StructShape::Tuple => {
            proof {
                reveal_strlit("#[injectable] does not support tuple structs");
            }
            Err(String::from_str("#[injectable] does not support tuple structs"))
        },
        StructShape::Named(fs) => {
            let mut fields: Vec<FieldInit> = Vec::new();
            let mut has_inject = false;
            let mut i: usize = 0;
            while i < fs.len()
                invariant
                    *shape == StructShape::Named(*fs),
                    i <= fs@.len(),
                    fields@.len() == i,
                    forall|j: int| 0 <= j < i ==> field_error(#[trigger] fs@[j]) is None,
                    forall|j: int| 0 <= j < i ==> planned_init(struct_name@, #[trigger] fs@[j], fields@[j]),
                    has_inject == exists|j: int| 0 <= j < i && (#[trigger] fs@[j]).inject,
                decreases fs@.len() - i,
            {
                match plan_field(struct_name, &fs[i]) {
                    Ok(init) => {
                        fields.push(init);
                    },
                    Err(m) => {
                        assert(field_error(fs@[i as int]) == Some(m@));
                        return Err(m);
                    },
                }
                if fs[i].inject {
                    has_inject = true;
                }
                i = i + 1;
            }
            Ok(InjectionPlan { uses_default: !has_inject, fields })
        },
    }
}


/// The shared handle an injected field holds: the `Arc<...>` inside an `Option`
/// for an optional dependency, the field's own type otherwise.
pub open spec fn held_arc(ty: TypeExpr) -> TypeExpr {
    match generic_of(ty, "Option"@, 0) {
        Some(inner) => inner,
        None => ty,
    }
}

/// The type a dependency held as `arc` (an `Arc<X>`) is bound under in the
/// container: a trait object under its shared handle `Arc<dyn Trait>` (where
/// `provide_dyn` binds it), a concrete type under `X` itself.
pub open spec fn bound_type(arc: TypeExpr) -> TypeExpr {
    match arc_of(arc) {
        Some(x) => if x is TraitObject {
            arc
        } else {
            x
        },
        None => arc,
    }
}

/// The type a key source picks out of a field of type `ty`.
pub open spec fn keyed_type(ty: TypeExpr, key: KeySource) -> Option<TypeExpr> {
    match key {
        KeySource::Field => Some(ty),
        KeySource::ArcInner => arc_of(ty),
        KeySource::OptionInner => generic_of(ty, "Option"@, 0),
        KeySource::OptionArcInner => match generic_of(ty, "Option"@, 0) {
            Some(inner) => arc_of(inner),
            None => None,
        },
    }
}

/// Every injected field is resolved where its dependency is bound: an `Option`
/// field is optional and any other required; it is resolved as a trait object
/// exactly when the `Arc` it holds wraps one; and the type its key is taken from
/// is the one that dependency is bound under in the container.
pub proof fn lemma_injected_field_resolved_where_bound(struct_name: Seq<char>, f: InjectField, init: FieldInit)
    requires
        f.inject,
        field_error(f) is None,
        planned_init(struct_name, f, init),
    ensures
        init is Optional <==> generic_of(f.ty, "Option"@, 0) is Some,
        init is Required <==> generic_of(f.ty, "Option"@, 0) is None,
        match init {
            FieldInit::Optional { dynamic, key } => dynamic == (arc_of(held_arc(f.ty))->0 is TraitObject)
                && keyed_type(f.ty, key) == Some(bound_type(held_arc(f.ty))),
            FieldInit::Required { dynamic, key, .. } => dynamic == (arc_of(held_arc(f.ty))->0 is TraitObject)
                && keyed_type(f.ty, key) == Some(bound_type(held_arc(f.ty))),
            FieldInit::Default => false,
        },
{
}

/// The message a decorated `impl` block whose type is not a plain path is refused
/// with.
pub open spec fn not_a_struct_path_text(decorator: Seq<char>) -> Seq<char> {
    decorator + " requires a simple struct path (e.g. `impl MyService`)"@
}

/// The name of the type an `impl` block decorates: the last segment of its path.
pub fn impl_self_ident(self_ty: &TypeExpr, decorator: &str) -> (r: Result<String, String>)
    ensures
        match *self_ty {
            TypeExpr::Path { last: Some(l), .. } => r matches Ok(n) && n@ == l@,
            _ => r matches Err(m) && m@ == not_a_struct_path_text(decorator@),
        },
{
    match self_ty {
        TypeExpr::Path { last: Some(l), .. } => Ok(l.clone()),
        _ => {
            let mut m = String::from_str(decorator);
            m.append(" requires a simple struct path (e.g. `impl MyService`)");
            proof {
                reveal_strlit(" requires a simple struct path (e.g. `impl MyService`)");
            }
            Err(m)
        },
    }
}


/// One parameter of a handler or resolver method.
pub enum FnParam {
    /// `self`, `&self`, `&mut self`.
    Receiver,
    /// A typed parameter: its name when its pattern is a plain identifier, and
    /// its type.
    Typed { ident: Option<String>, ty: TypeExpr },
}

/// The message a destructuring parameter is refused with.
pub open spec fn destructuring_text() -> Seq<char> {
    "resolver/controller method arguments must be simple identifiers (no destructuring patterns)"@
}

/// The names a delegating call forwards, in order: every typed parameter's name,
/// the receiver skipped; `None` when some typed parameter destructures.
pub open spec fn forwarded_spec(params: Seq<FnParam>) -> Option<Seq<Seq<char>>>
    decreases params.len(),
{
    if params.len() == 0 {
        Some(Seq::empty())
    } else {
        match forwarded_spec(params.drop_last()) {
            None => None,
            Some(names) => match params.last() {
                FnParam::Receiver => Some(names),
                FnParam::Typed { ident: Some(n), .. } => Some(names.push(n@)),
                FnParam::Typed { ident: None, .. } => None,
            },
        }
    }
}

proof fn lemma_forwarded_none_sticks(params: Seq<FnParam>, k: int)
    requires
        0 <= k <= params.len(),
        forwarded_spec(params.take(k)) is None,
    ensures
        forwarded_spec(params) is None,
    decreases params.len() - k,
{
    if k < params.len() {
        assert(params.take(k + 1).drop_last() =~= params.take(k));
        lemma_forwarded_none_sticks(params, k + 1);
    } else {
        assert(params.take(k) =~= params);
    }
}

/// The identifiers a generated wrapper forwards to the decorated method.
pub fn forwarded_idents(params: &[FnParam]) -> (r: Result<Vec<String>, String>)
    ensures
        match forwarded_spec(params@) {
            Some(names) => r matches Ok(v) && v@.len() == names.len() && forall|i: int|
                0 <= i < names.len() ==> (#[trigger] v@[i])@ == names[i],
            None => r matches Err(m) && m@ == destructuring_text(),
        },
{
    proof {
        reveal_strlit("resolver/controller method arguments must be simple identifiers (no destructuring patterns)");
    }
    let mut out: Vec<String> = Vec::new();
    let mut i: usize = 0;
    while i < params.len()
        invariant
            i <= params@.len(),
            forwarded_spec(params@.take(i as int)) matches Some(names) && out@.len() == names.len() && forall|j: int|
                0 <= j < names.len() ==> (#[trigger] out@[j])@ == names[j],
        decreases params@.len() - i,
    {
        proof {
            assert(params@.take(i + 1).drop_last() =~= params@.take(i as int));
        }
        match &params[i] {
            FnParam::Receiver => {},
            FnParam::Typed { ident: Some(n), .. } => {
                out.push(n.clone());
            },
            FnParam::Typed { ident: None, .. } => {
                proof {
                    lemma_forwarded_none_sticks(params@, i + 1);
                }
                return Err(
                    String::from_str(
                        "resolver/controller method arguments must be simple identifiers (no destructuring patterns)",
                    ),
                );
            },
        }
        i = i + 1;
    }
    proof {
        assert(params@.take(params@.len() as int) =~= params@);
    }
    Ok(out)
}


/// How a `#[field]` method's argument after the parent is supplied.
#[derive(Clone, Copy, Debug, PartialEq, Eq, Structural)]
pub enum FieldArg {
    /// `&DataLoader<...>`: the request's loader, from the GraphQL context.
    Loader,
    /// Any other `&T`: a service resolved from the container, and recorded as an
    /// injected dependency.
    Service,
    /// A value: a GraphQL argument of the field.
    Argument,
}

/// How the argument of this type is supplied.
pub open spec fn field_arg_of(ty: TypeExpr) -> FieldArg {
    match ty {
        TypeExpr::Reference { elem, .. } => if *elem matches TypeExpr::Path { last: Some(l), .. } && l@ == "DataLoader"@ {
            FieldArg::Loader
        } else {
            FieldArg::Service
        },
        _ => FieldArg::Argument,
    }
}

/// The arguments after the parent, as supplied, in order (a receiver there is
/// skipped).
pub open spec fn field_args_spec(params: Seq<FnParam>) -> Seq<FieldArg>
    decreases params.len(),
{
    if params.len() == 0 {
        Seq::empty()
    } else {
        let rest = field_args_spec(params.drop_last());
        match params.last() {
            FnParam::Receiver => rest,
            FnParam::Typed { ty, .. } => rest.push(field_arg_of(ty)),
        }
    }
}

/// Why a `#[field]` method's signature is refused, if it is.
pub open spec fn field_method_error(params: Seq<FnParam>) -> Option<Seq<char>> {
    if params.len() == 0 || !(params[0] is Receiver) {
        Some(
            "#[field] method needs a `&self` receiver (services come from the resolver's `#[inject]` fields)"@,
        )
    } else if params.len() < 2 {
        Some("#[field] method needs a parent argument `parent: &ParentType` — the object being resolved"@)
    } else if params[1] is Receiver {
        Some("#[field] parent argument must be typed"@)
    } else if !(params[1]->ty is Reference) {
        Some("#[field] parent argument must be a reference `&ParentType`"@)
    } else if forwarded_spec(params.skip(2)) is None {
        Some(destructuring_text())
    } else {
        None
    }
}

/// Whether the argument of this type is supplied as a data loader.
fn is_loader_ref(ty: &TypeExpr) -> (b: FieldArg)
    ensures
        b == field_arg_of(*ty),
{
    proof {
        reveal_strlit("DataLoader");
    }
    match ty {
        TypeExpr::Reference { elem, .. } => {
            if elem.last_is("DataLoader") {
                FieldArg::Loader
            } else {
                FieldArg::Service
            }
        },
        _ => FieldArg::Argument,
    }
}

/// Plan a `#[field]` method: it takes `&self`, then the parent object by
/// reference, then its own arguments; each later `&DataLoader<...>` comes from the
/// request, each other reference from the container, each value is a GraphQL
/// argument.
pub fn plan_field_method(params: &[FnParam]) -> (r: Result<Vec<FieldArg>, String>)
    ensures
        match field_method_error(params@) {
            Some(m) => r matches Err(e) && e@ == m,
            None => r matches Ok(args) && args@ == field_args_spec(params@.skip(2)),
        },
{
    proof {
        reveal_strlit(
            "#[field] method needs a `&self` receiver (services come from the resolver's `#[inject]` fields)",
        );
        reveal_strlit("#[field] method needs a parent argument `parent: &ParentType` — the object being resolved");
        reveal_strlit("#[field] parent argument must be typed");
        reveal_strlit("#[field] parent argument must be a reference `&ParentType`");
    }
    if params.len() == 0 || !matches!(params[0], FnParam::Receiver) {
        return Err(
            String::from_str(
                "#[field] method needs a `&self` receiver (services come from the resolver's `#[inject]` fields)",
            ),
        );
    }
    if params.len() < 2 {
        return Err(
            String::from_str(
                "#[field] method needs a parent argument `parent: &ParentType` — the object being resolved",
            ),
        );
    }
    match &params[1] {
        FnParam::Receiver => {
            return Err(String::from_str("#[field] parent argument must be typed"));
        },
        FnParam::Typed { ty, .. } => {
            match ty {
                TypeExpr::Reference { .. } => {},
                _ => {
                    return Err(String::from_str("#[field] parent argument must be a reference `&ParentType`"));
                },
            }
        },
    }
    let ghost rest = params@.skip(2);
    let mut out: Vec<FieldArg> = Vec::new();
    let mut i: usize = 2;
    while i < params.len()
        invariant
            2 <= i <= params@.len(),
            params@[0] is Receiver,
            params@[1] matches FnParam::Typed { ty, .. } && ty is Reference,
            rest == params@.skip(2),
            out@ == field_args_spec(rest.take(i - 2)),
            forall|j: int| 2 <= j < i ==> (#[trigger] params@[j]) matches FnParam::Typed { ident: Some(_), .. } || params@[j] is Receiver,
        decreases params@.len() - i,
    {
        proof {
            assert(rest.take(i - 1).drop_last() =~= rest.take(i - 2));
            assert(rest.take(i - 1).last() == params@[i as int]);
        }
        match &params[i] {
            FnParam::Receiver => {},
            FnParam::Typed { ident, ty } => {
                match ident {
                    Some(_) => {},
                    None => {
                        proof {
                            reveal_strlit(
                                "resolver/controller method arguments must be simple identifiers (no destructuring patterns)",
                            );
                            assert(rest[i - 2] == params@[i as int]);
                            lemma_forwarded_none_at(rest, i - 2);
                        }
                        return Err(
                            String::from_str(
                                "resolver/controller method arguments must be simple identifiers (no destructuring patterns)",
                            ),
                        );
                    },
                }
                out.push(is_loader_ref(ty));
            },
        }
        i = i + 1;
    }
    proof {
        reveal_strlit("resolver/controller method arguments must be simple identifiers (no destructuring patterns)");
        assert(rest.take(params@.len() - 2) =~= rest);
        lemma_forwarded_some(rest);
    }
    Ok(out)
}

proof fn lemma_forwarded_none_at(params: Seq<FnParam>, k: int)
    requires
        0 <= k < params.len(),
        params[k] matches FnParam::Typed { ident: None, .. },
    ensures
        forwarded_spec(params) is None,
    decreases params.len() - k,
{
    if k == params.len() - 1 {
    } else {
        lemma_forwarded_none_at(params.drop_last(), k);
    }
}

proof fn lemma_forwarded_some(params: Seq<FnParam>)
    requires
        forall|j: int| 0 <= j < params.len() ==> (#[trigger] params[j]) matches FnParam::Typed { ident: Some(_), .. } || params[j] is Receiver,
    ensures
        forwarded_spec(params) is Some,
    decreases params.len(),
{
    if params.len() > 0 {
        lemma_forwarded_some(params.drop_last());
    }
}


/// The parameter carries the GraphQL context: a named `&Context<...>`.
pub open spec fn is_context_param(p: FnParam) -> bool {
    &&& p matches FnParam::Typed { ident: Some(_), ty }
    &&& ty matches TypeExpr::Reference { elem, .. }
    &&& *elem matches TypeExpr::Path { last: Some(l), .. }
    &&& l@ == "Context"@
}

/// The position of the first parameter that carries the GraphQL context.
pub fn ctx_param_index(params: &[FnParam]) -> (r: Option<usize>)
    ensures
        match r {
            Some(i) => i < params@.len() && is_context_param(params@[i as int]) && forall|j: int|
                0 <= j < i ==> !is_context_param(#[trigger] params@[j]),
            None => forall|j: int| 0 <= j < params@.len() ==> !is_context_param(#[trigger] params@[j]),
        },
{
    proof {
        reveal_strlit("Context");
    }
    let mut i: usize = 0;
    while i < params.len()
        invariant
            i <= params@.len(),
            forall|j: int| 0 <= j < i ==> !is_context_param(#[trigger] params@[j]),
        decreases params@.len() - i,
    {
        match &params[i] {
            FnParam::Typed { ident: Some(_), ty: TypeExpr::Reference { elem, .. } } => {
                if elem.last_is("Context") {
                    return Some(i);
                }
            },
            _ => {},
        }
        i = i + 1;
    }
    None
}

/// The name a guarded operation reads the context through: its own context
/// parameter's, or `__guard_ctx`, a parameter added for the guards.
pub fn guard_context(params: &[FnParam]) -> (r: (bool, String))
    ensures
        match ctx_spec_name(params@) {
            Some(n) => !r.0 && r.1@ == n,
            None => r.0 && r.1@ == "__guard_ctx"@,
        },
{
    match ctx_param_index(params) {
        Some(i) => {
            match &params[i] {
                FnParam::Typed { ident: Some(n), .. } => {
                    proof {
                        lemma_ctx_spec_name(params@, i as int);
                    }
                    (false, n.clone())
                },
                _ => {
                    assert(false);
                    (true, String::new())
                },
            }
        },
        None => {
            proof {
                reveal_strlit("__guard_ctx");
                lemma_ctx_spec_none(params@);
            }
            (true, String::from_str("__guard_ctx"))
        },
    }
}

/// The name of the first context parameter, if any.
pub open spec fn ctx_spec_name(params: Seq<FnParam>) -> Option<Seq<char>>
    decreases params.len(),
{
    if params.len() == 0 {
        None
    } else if is_context_param(params[0]) {
        match params[0] {
            FnParam::Typed { ident: Some(n), .. } => Some(n@),
            _ => None,
        }
    } else {
        ctx_spec_name(params.drop_first())
    }
}

proof fn lemma_ctx_spec_name(params: Seq<FnParam>, i: int)
    requires
        0 <= i < params.len(),
        is_context_param(params[i]),
        forall|j: int| 0 <= j < i ==> !is_context_param(#[trigger] params[j]),
    ensures
        ctx_spec_name(params) == Some(params[i]->ident->0@),
    decreases i,
{
    if i > 0 {
        assert(!is_context_param(params[0]));
        assert forall|j: int| 0 <= j < i - 1 implies !is_context_param(#[trigger] params.drop_first()[j]) by {
            assert(params.drop_first()[j] == params[j + 1]);
        }
        lemma_ctx_spec_name(params.drop_first(), i - 1);
    }
}

proof fn lemma_ctx_spec_none(params: Seq<FnParam>)
    requires
        forall|j: int| 0 <= j < params.len() ==> !is_context_param(#[trigger] params[j]),
    ensures
        ctx_spec_name(params) is None,
    decreases params.len(),
{
    if params.len() > 0 {
        assert(!is_context_param(params[0]));
        assert forall|j: int| 0 <= j < params.len() - 1 implies !is_context_param(#[trigger] params.drop_first()[j]) by {
            assert(params.drop_first()[j] == params[j + 1]);
        }
        lemma_ctx_spec_none(params.drop_first());
    }
}


/// Each type argument comes from an argument of the list.
proof fn lemma_type_args_origin(a: Seq<GenericArg>, idx: int) -> (j: int)
    requires
        0 <= idx < type_args(a).len(),
    ensures
        0 <= j < a.len(),
        a[j] == GenericArg::Type(type_args(a)[idx]),
    decreases a.len(),
{
    let rest = type_args(a.drop_last());
    if idx < rest.len() {
        lemma_type_args_grow(a, a.len() - 1);
        assert(a.take(a.len() - 1) =~= a.drop_last());
        assert(type_args(a.take(a.len() - 1))[idx] == rest[idx]);
        let j = lemma_type_args_origin(a.drop_last(), idx);
        assert(a.drop_last()[j] == a[j]);
        j
    } else {
        a.len() - 1
    }
}

/// A type argument is structurally smaller than the type it is an argument of.
pub proof fn lemma_generic_decreases(t: TypeExpr, name: Seq<char>, idx: int)
    requires
        generic_of(t, name, idx) is Some,
    ensures
        decreases_to!(t => generic_of(t, name, idx)->0),
{
    match t {
        TypeExpr::Path { last: Some(l), args: Some(a), tokens } => {
            let x = type_args(a@)[idx];
            let j = lemma_type_args_origin(a@, idx);
            assert(decreases_to!(t => t->args));
            assert(decreases_to!(t->args => a));
            assert(decreases_to!(a => a@));
            assert(decreases_to!(a@ => a@[j]));
            assert(a@[j]->Type_0 == x);
            assert(decreases_to!(a@[j] => a@[j]->Type_0));
        },
        _ => {},
    }
}

/// The JSON payload behind an extractor type: `Json<T>` gives `T`, and
/// `Valid<X>` and `Piped<_, X>` give the payload behind `X`; anything else gives
/// none.
pub open spec fn json_payload_of(t: TypeExpr) -> Option<TypeExpr>
    decreases t,
{
    match generic_of(t, "Json"@, 0) {
        Some(p) => Some(p),
        None => match generic_of(t, "Valid"@, 0) {
            Some(inner) => {
                proof {
                    lemma_generic_decreases(t, "Valid"@, 0);
                }
                json_payload_of(inner)
            },
            None => match generic_of(t, "Piped"@, 1) {
                Some(inner) => {
                    proof {
                        lemma_generic_decreases(t, "Piped"@, 1);
                    }
                    json_payload_of(inner)
                },
                None => None,
            },
        },
    }
}

impl TypeExpr {
    /// The JSON payload behind this extractor type, if any.
    pub fn json_payload(&self) -> (r: Option<&TypeExpr>)
        ensures
            match json_payload_of(*self) {
                Some(p) => r == Some(&p),
                None => r is None,
            },
        decreases self,
    {
        proof {
            reveal_strlit("Json");
            reveal_strlit("Valid");
            reveal_strlit("Piped");
        }
        if let Some(t) = self.nth_generic_type("Json", 0) {
            return Some(t);
        }
        if let Some(inner) = self.nth_generic_type("Valid", 0) {
            proof {
                lemma_generic_decreases(*self, "Valid"@, 0);
            }
            return inner.json_payload();
        }
        if let Some(inner) = self.nth_generic_type("Piped", 1) {
            proof {
                lemma_generic_decreases(*self, "Piped"@, 1);
            }
            return inner.json_payload();
        }
        None
    }
}

/// The type a handler returns as JSON: one optional `Result<...>` peeled, then the
/// `T` of `Json<T>`.
pub open spec fn response_payload_of(output: Option<TypeExpr>) -> Option<TypeExpr> {
    match output {
        None => None,
        Some(t) => {
            let inner = match generic_of(t, "Result"@, 0) {
                Some(i) => i,
                None => t,
            };
            generic_of(inner, "Json"@, 0)
        },
    }
}

/// The JSON payload of a handler's return type, if any.
pub fn response_payload(output: Option<&TypeExpr>) -> (r: Option<&TypeExpr>)
    ensures
        match response_payload_of(match output {
            Some(t) => Some(*t),
            None => None,
        }) {
            Some(p) => r == Some(&p),
            None => r is None,
        },
{
    proof {
        reveal_strlit("Result");
        reveal_strlit("Json");
    }
    match output {
        None => None,
        Some(t) => {
            let inner = match t.nth_generic_type("Result", 0) {
                Some(i) => i,
                None => t,
            };
            inner.nth_generic_type("Json", 0)
        },
    }
}

/// The JSON payload of a parameter, if it is typed and has one.
pub open spec fn param_payload(p: FnParam) -> Option<TypeExpr> {
    match p {
        FnParam::Typed { ty, .. } => json_payload_of(ty),
        FnParam::Receiver => None,
    }
}

/// The request-body payload of a handler: the first typed parameter with a JSON
/// payload.
pub fn request_payload(params: &[FnParam]) -> (r: Option<&TypeExpr>)
    ensures
        match r {
            Some(p) => exists|i: int|
                0 <= i < params@.len() && param_payload(#[trigger] params@[i]) == Some(*p) && forall|j: int|
                    0 <= j < i ==> param_payload(#[trigger] params@[j]) is None,
            None => forall|j: int| 0 <= j < params@.len() ==> param_payload(#[trigger] params@[j]) is None,
        },
{
    let mut i: usize = 0;
    while i < params.len()
        invariant
            i <= params@.len(),
            forall|j: int| 0 <= j < i ==> param_payload(#[trigger] params@[j]) is None,
        decreases params@.len() - i,
    {
        match &params[i] {
            FnParam::Typed { ty, .. } => {
                match ty.json_payload() {
                    Some(p) => {
                        assert(param_payload(params@[i as int]) == Some(*p));
                        return Some(p);
                    },
                    None => {},
                }
            },
            FnParam::Receiver => {},
        }
        i = i + 1;
    }
    None
}


/// The keys of `items`, each once, in the order each first occurs.
pub open spec fn first_seen(items: Seq<TypeKey>) -> Seq<TypeKey>
    decreases items.len(),
{
    if items.len() == 0 {
        Seq::empty()
    } else if first_seen(items.drop_last()).contains(items.last()) {
        first_seen(items.drop_last())
    } else {
        first_seen(items.drop_last()).push(items.last())
    }
}

/// The keys a handler's layers pull from the container (its guards, filters,
/// interceptors or field services), for the access-graph check: each once, in the
/// order each is first named.
pub fn layer_inject_keys(items: &Vec<TypeKey>) -> (keys: Vec<TypeKey>)
    ensures
        keys@ == first_seen(items@),
{
    let mut keys: Vec<TypeKey> = Vec::new();
    let mut i: usize = 0;
    while i < items.len()
        invariant
            i <= items@.len(),
            keys@ == first_seen(items@.take(i as int)),
        decreases items@.len() - i,
    {
        let k = items[i];
        proof {
            assert(items@.take(i + 1).drop_last() =~= items@.take(i as int));
            assert(items@.take(i + 1).last() == k);
        }
        let mut j: usize = 0;
        let mut seen = false;
        while j < keys.len()
            invariant
                j <= keys@.len(),
                seen <==> exists|m: int| 0 <= m < j && keys@[m] == k,
            decreases keys@.len() - j,
        {
            if keys[j] == k {
                seen = true;
            }
            j = j + 1;
        }
        proof {
            if seen {
                let m = choose|m: int| 0 <= m < j && keys@[m] == k;
                assert(keys@.contains(k));
            } else {
                assert(!keys@.contains(k));
            }
        }
        if !seen {
            keys.push(k);
        }
        i = i + 1;
    }
    proof {
        assert(items@.take(items@.len() as int) =~= items@);
    }
    keys
}

/// A resolver's injected keys for the access-graph check: its struct's `#[inject]`
/// keys, then its operation guards' keys, then its `#[field]` services' keys, the
/// guards and the services each listed once in first-seen order.
pub fn resolver_injected(struct_keys: Vec<TypeKey>, guard_keys: &Vec<TypeKey>, field_keys: &Vec<TypeKey>) -> (keys: Vec<
    TypeKey,
>)
    ensures
        keys@ == struct_keys@ + first_seen(guard_keys@) + first_seen(field_keys@),
{
    let mut keys = struct_keys;
    let mut layers = layer_inject_keys(guard_keys);
    let mut fields = layer_inject_keys(field_keys);
    keys.append(&mut layers);
    keys.append(&mut fields);
    keys
}

} // verus!
