//! Serving the auto-discovered GraphQL schema: the endpoint's configuration, and
//! how the registered resolver objects compose into the two root types.
//!
//! Resolver objects register themselves with the kind of root they contribute to.
//! A root merges the fields of its members in registry order, a later member's
//! field of an existing name replacing the value but keeping the position, and
//! resolves a field through the first member that answers it.

use vstd::prelude::*;
use vstd::string::StringExecFns;

verus! {

/// Configuration of the GraphQL endpoint.
pub struct GraphqlOptions {
    /// The path the schema is served at.
    pub path: String,
    /// Serve the playground on `GET <path>`.
    pub playground: bool,
    /// Where the committed SDL lives.
    pub schema_path: String,
    /// Whether to rewrite `schema_path` from the live schema at boot.
    pub emit_sdl: bool,
}

impl Default for GraphqlOptions {
    /// `/graphql`, playground on, `schema.graphql`, no SDL emission.
    fn default() -> (o: GraphqlOptions)
        ensures
            o.path@ == "/graphql"@,
            o.playground,
            o.schema_path@ == "schema.graphql"@,
            !o.emit_sdl,
    {
        GraphqlOptions {
            path: String::from_str("/graphql"),
            playground: true,
            schema_path: String::from_str("schema.graphql"),
            emit_sdl: false,
        }
    }
}

/// Exposes GraphQL over HTTP: imported by type it uses the default options.
pub struct GraphqlModule;

/// The configured form of [`GraphqlModule`].
pub struct GraphqlSetup {
    pub options: GraphqlOptions,
}

impl GraphqlModule {
    /// Configure the endpoint at the import site.
    pub fn for_root(options: GraphqlOptions) -> (s: GraphqlSetup)
        ensures
            s.options == options,
    {
        GraphqlSetup { options }
    }

    /// The options the module uses when imported by type.
    pub fn default_options() -> (o: GraphqlOptions)
        ensures
            o.path@ == "/graphql"@,
            o.playground,
            o.schema_path@ == "schema.graphql"@,
            !o.emit_sdl,
    {
        GraphqlOptions::default()
    }
}

/// Which root a resolver's methods contribute to.
#[derive(Clone, Copy, Debug, PartialEq, Eq, Structural)]
pub enum ResolverKind {
    Query,
    Mutation,
}

/// Whether any registered resolver object contributes to `kind`; a root with no
/// member behaves as absent.
pub fn kind_has_members(kinds: &[ResolverKind], kind: ResolverKind) -> (b: bool)
    ensures
        b == exists|i: int| 0 <= i < kinds@.len() && kinds@[i] == kind,
{
    let mut i: usize = 0;
    while i < kinds.len()
        invariant
            i <= kinds@.len(),
            forall|j: int| 0 <= j < i ==> kinds@[j] != kind,
        decreases kinds@.len() - i,
    {
        if kinds[i] == kind {
            return true;
        }
        i = i + 1;
    }
    false
}

/// The positions of the members of `kind`, in registry order.
pub open spec fn members_spec(kinds: Seq<ResolverKind>, kind: ResolverKind) -> Seq<usize>
    decreases kinds.len(),
{
    if kinds.len() == 0 {
        Seq::empty()
    } else {
        let rest = members_spec(kinds.drop_last(), kind);
        if kinds.last() == kind {
            rest.push((kinds.len() - 1) as usize)
        } else {
            rest
        }
    }
}

/// The registered resolver objects that make up the root of `kind`, as positions
/// in the registry, in registry order.
pub fn members_of(kinds: &[ResolverKind], kind: ResolverKind) -> (m: Vec<usize>)
    ensures
        m@ == members_spec(kinds@, kind),
{
    let mut m: Vec<usize> = Vec::new();
    let mut i: usize = 0;
    while i < kinds.len()
        invariant
            i <= kinds@.len(),
            m@ == members_spec(kinds@.take(i as int), kind),
        decreases kinds@.len() - i,
    {
        proof {
            assert(kinds@.take(i + 1).drop_last() =~= kinds@.take(i as int));
        }
        if kinds[i] == kind {
            m.push(i);
        }
        i = i + 1;
    }
    proof {
        assert(kinds@.take(kinds@.len() as int) =~= kinds@);
    }
    m
}

/// The position of the field named `name` in `fields`, if any.
pub open spec fn field_index<F>(fields: Seq<(String, F)>, name: Seq<char>) -> Option<int>
    decreases fields.len(),
{
    if fields.len() == 0 {
        None
    } else {
        match field_index(fields.drop_last(), name) {
            Some(i) => Some(i),
            None => if fields.last().0@ == name {
                Some(fields.len() - 1)
            } else {
                None
            },
        }
    }
}

/// `fields` with one more field: a field of a name already present replaces the
/// value in place; a new name goes last.
pub open spec fn with_field<F>(fields: Seq<(String, F)>, field: (String, F)) -> Seq<(String, F)> {
    match field_index(fields, field.0@) {
        Some(i) => fields.update(i, (fields[i].0, field.1)),
        None => fields.push(field),
    }
}

/// The fields of a root: every member's fields merged in order.
pub open spec fn merged_fields<F>(entries: Seq<(String, F)>) -> Seq<(String, F)>
    decreases entries.len(),
{
    if entries.len() == 0 {
        Seq::empty()
    } else {
        with_field(merged_fields(entries.drop_last()), entries.last())
    }
}

proof fn lemma_field_index_found<F>(fields: Seq<(String, F)>, name: Seq<char>, i: int)
    requires
        0 <= i < fields.len(),
        fields[i].0@ == name,
        forall|j: int| 0 <= j < i ==> (#[trigger] fields[j]).0@ != name,
    ensures
        field_index(fields, name) == Some(i),
    decreases fields.len(),
{
    if i < fields.len() - 1 {
        lemma_field_index_found(fields.drop_last(), name, i);
    } else {
        lemma_field_index_absent(fields.drop_last(), name);
    }
}

proof fn lemma_field_index_absent<F>(fields: Seq<(String, F)>, name: Seq<char>)
    requires
        forall|j: int| 0 <= j < fields.len() ==> (#[trigger] fields[j]).0@ != name,
    ensures
        field_index(fields, name) is None,
    decreases fields.len(),
{
    if fields.len() > 0 {
        lemma_field_index_absent(fields.drop_last(), name);
    }
}

/// Add one field to a root under construction.
fn add_field<F>(fields: &mut Vec<(String, F)>, field: (String, F))
    ensures
        final(fields)@ == with_field(old(fields)@, field),
{
    let mut i: usize = 0;
    while i < fields.len()
        invariant
            i <= fields@.len(),
            fields@ == old(fields)@,
            forall|j: int| 0 <= j < i ==> (#[trigger] fields@[j]).0@ != field.0@,
        decreases fields@.len() - i,
    {
        if fields[i].0.eq(&field.0) {
            proof {
                lemma_field_index_found(fields@, field.0@, i as int);
            }
            let (_, value) = field;
            let name = fields[i].0.clone();
            fields.set(i, (name, value));
            return;
        }
        i = i + 1;
    }
    proof {
        lemma_field_index_absent(fields@, field.0@);
    }
    fields.push(field);
}

/// Merge the fields of the members of one root, in order, into the root's fields.
pub fn merge_fields<F>(members: Vec<Vec<(String, F)>>) -> (fields: Vec<(String, F)>)
    ensures
        fields@ == merged_fields(flatten_members(members@)),
{
    let ghost all = flatten_members(members@);
    let ghost orig = members@;
    let mut rest = members;
    let mut fields: Vec<(String, F)> = Vec::new();
    let n = rest.len();
    let mut i: usize = 0;
    while i < n
        invariant
            n == orig.len(),
            i <= n,
            rest@ == orig.skip(i as int),
            fields@ == merged_fields(flatten_members(orig.take(i as int))),
        decreases n - i,
    {
        let member = rest.remove(0);
        proof {
            assert(member == orig[i as int]);
            assert(rest@ =~= orig.skip(i + 1));
            assert(orig.take(i + 1).drop_last() =~= orig.take(i as int));
        }
        let ghost before = flatten_members(orig.take(i as int));
        let mut entries = member;
        let m = entries.len();
        let ghost member_v = entries@;
        let mut k: usize = 0;
        while k < m
            invariant
                m == member_v.len(),
                k <= m,
                entries@ == member_v.skip(k as int),
                fields@ == merged_fields(before + member_v.take(k as int)),
            decreases m - k,
        {
            let entry = entries.remove(0);
            proof {
                assert(entry == member_v[k as int]);
                assert(entries@ =~= member_v.skip(k + 1));
                assert((before + member_v.take(k + 1)).drop_last() =~= before + member_v.take(k as int));
                assert((before + member_v.take(k + 1)).last() == entry);
            }
            add_field(&mut fields, entry);
            k = k + 1;
        }
        proof {
            assert(member_v.take(m as int) =~= member_v);
            assert(flatten_members(orig.take(i + 1)) =~= before + member_v);
        }
        i = i + 1;
    }
    proof {
        assert(orig.take(n as int) =~= orig);
    }
    fields
}

/// The fields of every member, one member after another.
pub open spec fn flatten_members<F>(members: Seq<Vec<(String, F)>>) -> Seq<(String, F)>
    decreases members.len(),
{
    if members.len() == 0 {
        Seq::empty()
    } else {
        flatten_members(members.drop_last()) + members.last()@
    }
}

/// A root resolves a field through its first member that answers it; `None` when
/// no member does.
pub fn first_answer<T>(answers: Vec<Option<T>>) -> (r: Option<T>)
    ensures
        r is Some <==> exists|i: int| 0 <= i < answers@.len() && answers@[i] is Some,
        r matches Some(v) ==> exists|i: int|
            0 <= i < answers@.len() && answers@[i] == Some(v) && forall|j: int| 0 <= j < i ==> answers@[j] is None,
{
    let ghost orig = answers@;
    let mut rest = answers;
    let n = rest.len();
    let mut i: usize = 0;
    while i < n
        invariant
            orig == answers@,
            n == orig.len(),
            i <= n,
            rest@ == orig.skip(i as int),
            forall|j: int| 0 <= j < i ==> orig[j] is None,
        decreases n - i,
    {
        let a = rest.remove(0);
        proof {
            assert(a == orig[i as int]);
            assert(rest@ =~= orig.skip(i + 1));
        }
        match a {
            Some(v) => {
                assert(orig[i as int] == Some(v));
                return Some(v);
            },
            None => {},
        }
        i = i + 1;
    }
    None
}


/// How the endpoint is mounted: operations by `POST` at `path`, the playground by
/// `GET` at the same path when enabled, and the file the live SDL is written to at
/// boot, if any.
pub struct EndpointPlan {
    pub path: String,
    pub playground: bool,
    pub emit_sdl_to: Option<String>,
}

/// The mounting plan for these options.
pub fn endpoint_plan(options: GraphqlOptions) -> (p: EndpointPlan)
    ensures
        p.path == options.path,
        p.playground == options.playground,
        options.emit_sdl ==> p.emit_sdl_to == Some(options.schema_path),
        !options.emit_sdl ==> p.emit_sdl_to is None,
{
    let GraphqlOptions { path, playground, schema_path, emit_sdl } = options;
    EndpointPlan { path, playground, emit_sdl_to: if emit_sdl { Some(schema_path) } else { None } }
}

/// The line writing the SDL at boot is logged with; a failure is never fatal.
pub fn sdl_written_message(path: &str, written: Result<(), String>) -> (m: String)
    ensures
        written is Ok ==> m@ == "wrote GraphQL SDL to "@ + path@,
        written matches Err(e) ==> m@ == "failed to write GraphQL SDL to "@ + path@ + ": "@ + e@,
{
    match written {
        Ok(()) => {
            let mut m = String::from_str("wrote GraphQL SDL to ");
            m.append(path);
            proof {
                reveal_strlit("wrote GraphQL SDL to ");
            }
            m
        },
        Err(e) => {
            let mut m = String::from_str("failed to write GraphQL SDL to ");
            m.append(path);
            m.append(": ");
            m.append(e.as_str());
            proof {
                reveal_strlit("failed to write GraphQL SDL to ");
                reveal_strlit(": ");
            }
            m
        },
    }
}

} // verus!
