//! What a controller's route attributes decide: which methods are routes, how
//! several verbs on one path share it, in which order a handler's layers wrap it,
//! which parameter shapes the response, and which payload types are documented.

use vstd::prelude::*;
use vstd::string::StringExecFns;

use crate::codegen::TypeExpr;


verus! {

/// The HTTP verbs a route attribute names.
#[derive(Clone, Copy, Debug, PartialEq, Eq, Structural)]
pub enum HttpVerb {
    Get,
    Post,
    Put,
    Delete,
    Patch,
}

/// The verb an attribute of this name declares, if it is a route attribute.
pub open spec fn verb_spec(name: Seq<char>) -> Option<HttpVerb> {
    if name == "get"@ {
        Some(HttpVerb::Get)
    } else if name == "post"@ {
        Some(HttpVerb::Post)
    } else if name == "put"@ {
        Some(HttpVerb::Put)
    } else if name == "delete"@ {
        Some(HttpVerb::Delete)
    } else if name == "patch"@ {
        Some(HttpVerb::Patch)
    } else {
        None
    }
}

fn same_text(a: &str, b: &str) -> (r: bool)
    ensures
        r == (a@ == b@),
{
    let n = a.unicode_len();
    if n != b.unicode_len() {
        return false;
    }
    let mut i: usize = 0;
    while i < n
        invariant
            n == a@.len(),
            n == b@.len(),
            i <= n,
            forall|j: int| 0 <= j < i ==> a@[j] == b@[j],
        decreases n - i,
    {
        if a.get_char(i) != b.get_char(i) {
            return false;
        }
        i = i + 1;
    }
    assert(a@ =~= b@);
    true
}

/// The verb an attribute of this name declares.
pub fn verb_named(name: &str) -> (v: Option<HttpVerb>)
    ensures
        v == verb_spec(name@),
        v matches Some(x) ==> name@ == verb_attribute(x),
{
    proof {
        if let Some(x) = verb_spec(name@) {
            lemma_verb_is_its_own_name(name@, x);
        }
        reveal_strlit("get");
        reveal_strlit("post");
        reveal_strlit("put");
        reveal_strlit("delete");
        reveal_strlit("patch");
    }
    if same_text(name, "get") {
        Some(HttpVerb::Get)
    } else if same_text(name, "post") {
        Some(HttpVerb::Post)
    } else if same_text(name, "put") {
        Some(HttpVerb::Put)
    } else if same_text(name, "delete") {
        Some(HttpVerb::Delete)
    } else if same_text(name, "patch") {
        Some(HttpVerb::Patch)
    } else {
        None
    }
}

/// The name of the route attribute that declares `v`: the verb's own name in
/// lower case.
pub open spec fn verb_attribute(v: HttpVerb) -> Seq<char> {
    match v {
        HttpVerb::Get => "get"@,
        HttpVerb::Post => "post"@,
        HttpVerb::Put => "put"@,
        HttpVerb::Delete => "delete"@,
        HttpVerb::Patch => "patch"@,
    }
}

/// Each route attribute declares the verb of its own name, and only that one: an
/// attribute name gives verb `v` exactly when it is `v`'s name, so no two names
/// give the same verb.
pub proof fn lemma_verb_is_its_own_name(name: Seq<char>, v: HttpVerb)
    ensures
        verb_spec(name) == Some(v) <==> name == verb_attribute(v),
{
    reveal_strlit("get");
    reveal_strlit("post");
    reveal_strlit("put");
    reveal_strlit("delete");
    reveal_strlit("patch");
    assert("get"@[0] != "put"@[0] && "get"@ != "put"@);
    assert("get"@.len() != "post"@.len() && "get"@.len() != "delete"@.len() && "get"@.len() != "patch"@.len());
    assert("post"@.len() != "put"@.len() && "post"@.len() != "delete"@.len() && "post"@.len() != "patch"@.len());
    assert("put"@.len() != "delete"@.len() && "put"@.len() != "patch"@.len());
    assert("delete"@.len() != "patch"@.len());
}

/// The position of the group for `path`, if any.
pub open spec fn group_index<H>(groups: Seq<(Seq<char>, Seq<H>)>, path: Seq<char>) -> Option<int>
    decreases groups.len(),
{
    if groups.len() == 0 {
        None
    } else {
        match group_index(groups.drop_last(), path) {
            Some(i) => Some(i),
            None => if groups.last().0 == path {
                Some(groups.len() - 1)
            } else {
                None
            },
        }
    }
}

/// Routes grouped by path in first-seen order, each path's handlers in
/// declaration order.
pub open spec fn grouped<H>(routes: Seq<(String, H)>) -> Seq<(Seq<char>, Seq<H>)>
    decreases routes.len(),
{
    if routes.len() == 0 {
        Seq::empty()
    } else {
        let g = grouped(routes.drop_last());
        let (p, h) = routes.last();
        match group_index(g, p@) {
            Some(i) => g.update(i, (g[i].0, g[i].1.push(h))),
            None => g.push((p@, seq![h])),
        }
    }
}

/// The plain view of grouped routes.
pub open spec fn groups_view<H>(gs: Seq<(String, Vec<H>)>) -> Seq<(Seq<char>, Seq<H>)> {
    gs.map_values(|g: (String, Vec<H>)| (g.0@, g.1@))
}

proof fn lemma_group_index_found<H>(groups: Seq<(Seq<char>, Seq<H>)>, path: Seq<char>, i: int)
    requires
        0 <= i < groups.len(),
        groups[i].0 == path,
        forall|j: int| 0 <= j < i ==> (#[trigger] groups[j]).0 != path,
    ensures
        group_index(groups, path) == Some(i),
    decreases groups.len(),
{
    if i < groups.len() - 1 {
        lemma_group_index_found(groups.drop_last(), path, i);
    } else {
        lemma_group_index_absent(groups.drop_last(), path);
    }
}

proof fn lemma_group_index_absent<H>(groups: Seq<(Seq<char>, Seq<H>)>, path: Seq<char>)
    requires
        forall|j: int| 0 <= j < groups.len() ==> (#[trigger] groups[j]).0 != path,
    ensures
        group_index(groups, path) is None,
    decreases groups.len(),
{
    if groups.len() > 0 {
        lemma_group_index_absent(groups.drop_last(), path);
    }
}

/// Group handlers by path, in first-seen order: several verbs on one path (`GET`
/// and `POST /users`) share a single route entry.
pub fn group_by_path<H>(routes: Vec<(String, H)>) -> (gs: Vec<(String, Vec<H>)>)
    ensures
        groups_view(gs@) == grouped(routes@),
{
    let ghost orig = routes@;
    let mut rest = routes;
    let n = rest.len();
    let mut gs: Vec<(String, Vec<H>)> = Vec::new();
    let mut i: usize = 0;
    while i < n
        invariant
            n == orig.len(),
            i <= n,
            rest@ == orig.skip(i as int),
            groups_view(gs@) == grouped(orig.take(i as int)),
        decreases n - i,
    {
        let (path, handler) = rest.remove(0);
        proof {
            assert(orig[i as int] == (path, handler));
            assert(rest@ =~= orig.skip(i + 1));
            assert(orig.take(i + 1).drop_last() =~= orig.take(i as int));
            assert(orig.take(i + 1).last() == (path, handler));
        }
        let ghost before = groups_view(gs@);
        let mut k: usize = 0;
        while k < gs.len() && !gs[k].0.eq(&path)
            invariant
                k <= gs@.len(),
                before == groups_view(gs@),
                forall|j: int| 0 <= j < k ==> (#[trigger] before[j]).0 != path@,
            decreases gs@.len() - k,
        {
            k = k + 1;
        }
        if k < gs.len() {
            proof {
                assert(before[k as int].0 == path@);
                lemma_group_index_found(before, path@, k as int);
            }
            let mut entry = gs.remove(k);
            entry.1.push(handler);
            gs.insert(k, entry);
            proof {
                assert(groups_view(gs@) =~= before.update(k as int, (before[k as int].0, before[k as int].1.push(handler))));
            }
        } else {
            proof {
                lemma_group_index_absent(before, path@);
            }
            let mut hs: Vec<H> = Vec::new();
            hs.push(handler);
            gs.push((path, hs));
            proof {
                assert(hs@ =~= seq![handler]);
                assert(groups_view(gs@) =~= before.push((path@, seq![handler])));
            }
        }
        i = i + 1;
    }
    proof {
        assert(orig.take(n as int) =~= orig);
    }
    gs
}

/// One layer around a route handler.
pub enum Layer<P, E> {
    /// The response shaper of the handler's `Authorize` parameter.
    Shaper,
    Interceptor(P),
    Guard(P),
    Filter(P),
    /// A `#[meta(...)]` value inserted into the request.
    Meta(E),
}

/// `ps` reversed, each wrapped as a layer by `wrap`.
pub open spec fn reversed_as<P, E>(ps: Seq<P>, wrap: spec_fn(P) -> Layer<P, E>) -> Seq<Layer<P, E>> {
    ps.reverse().map_values(wrap)
}

/// The layers around a handler from innermost to outermost: the shaper, then the
/// interceptors, the guards and the filters (each group with its first-listed
/// entry outermost within it), then the metadata values in order.
pub open spec fn layer_order<P, E>(
    shaped: bool,
    interceptors: Seq<P>,
    guards: Seq<P>,
    filters: Seq<P>,
    metas: Seq<E>,
) -> Seq<Layer<P, E>> {
    (if shaped {
        seq![Layer::Shaper]
    } else {
        Seq::empty()
    }) + reversed_as(interceptors, |p: P| Layer::<P, E>::Interceptor(p)) + reversed_as(
        guards,
        |p: P| Layer::<P, E>::Guard(p),
    ) + reversed_as(filters, |p: P| Layer::<P, E>::Filter(p)) + metas.map_values(|e: E| Layer::<P, E>::Meta(e))
}

/// Append `ps` to `out` last-first, each wrapped by `wrap`.
fn push_reversed<P, E>(out: &mut Vec<Layer<P, E>>, ps: Vec<P>, kind: u8)
    requires
        kind < 3,
    ensures
        final(out)@ == old(out)@ + reversed_as(
            ps@,
            if kind == 0 {
                |p: P| Layer::<P, E>::Interceptor(p)
            } else if kind == 1 {
                |p: P| Layer::<P, E>::Guard(p)
            } else {
                |p: P| Layer::<P, E>::Filter(p)
            },
        ),
{
    let ghost wrap = if kind == 0 {
        |p: P| Layer::<P, E>::Interceptor(p)
    } else if kind == 1 {
        |p: P| Layer::<P, E>::Guard(p)
    } else {
        |p: P| Layer::<P, E>::Filter(p)
    };
    let ghost start = out@;
    let ghost orig = ps@;
    let mut rest = ps;
    while rest.len() > 0
        invariant
            kind < 3,
            wrap == (if kind == 0 {
                |p: P| Layer::<P, E>::Interceptor(p)
            } else if kind == 1 {
                |p: P| Layer::<P, E>::Guard(p)
            } else {
                |p: P| Layer::<P, E>::Filter(p)
            }),
            rest@.len() <= orig.len(),
            rest@ == orig.take(rest@.len() as int),
            out@ == start + orig.skip(rest@.len() as int).reverse().map_values(wrap),
        decreases rest@.len(),
    {
        let ghost len = rest@.len();
        let p = rest.pop().unwrap();
        proof {
            assert(p == orig[len - 1]);
            assert(rest@ =~= orig.take(len - 1));
        }
        let layer = if kind == 0 {
            Layer::Interceptor(p)
        } else if kind == 1 {
            Layer::Guard(p)
        } else {
            Layer::Filter(p)
        };
        out.push(layer);
        proof {
            assert(layer == wrap(p));
            assert(orig.skip(len - 1).reverse() =~= orig.skip(len as int).reverse().push(p));
            assert(orig.skip(len - 1).reverse().map_values(wrap) =~= orig.skip(len as int).reverse().map_values(
                wrap,
            ).push(wrap(p)));
        }
    }
    proof {
        assert(orig.skip(0) =~= orig);
    }
}

/// The layers around a route handler, innermost first.
pub fn layer_stack<P, E>(shaped: bool, interceptors: Vec<P>, guards: Vec<P>, filters: Vec<P>, metas: Vec<E>) -> (ls: Vec<Layer<P, E>>)
    ensures
        ls@ == layer_order(shaped, interceptors@, guards@, filters@, metas@),
{
    let mut ls: Vec<Layer<P, E>> = Vec::new();
    if shaped {
        ls.push(Layer::Shaper);
    }
    let ghost s0 = ls@;
    push_reversed(&mut ls, interceptors, 0);
    push_reversed(&mut ls, guards, 1);
    push_reversed(&mut ls, filters, 2);
    let ghost before = ls@;
    let ghost ms = metas@;
    let mut rest = metas;
    let n = rest.len();
    let mut i: usize = 0;
    while i < n
        invariant
            n == ms.len(),
            i <= n,
            rest@ == ms.skip(i as int),
            ls@ == before + ms.take(i as int).map_values(|e: E| Layer::<P, E>::Meta(e)),
        decreases n - i,
    {
        let e = rest.remove(0);
        proof {
            assert(e == ms[i as int]);
            assert(rest@ =~= ms.skip(i + 1));
        }
        ls.push(Layer::Meta(e));
        proof {
            assert(ms.take(i + 1).map_values(|e: E| Layer::<P, E>::Meta(e)) =~= ms.take(i as int).map_values(
                |e: E| Layer::<P, E>::Meta(e),
            ).push(Layer::Meta(e)));
        }
        i = i + 1;
    }
    proof {
        assert(ms.take(n as int) =~= ms);
        assert(s0 =~= (if shaped {
            seq![Layer::<P, E>::Shaper]
        } else {
            Seq::<Layer<P, E>>::empty()
        }));
    }
    ls
}

/// The message a second attribute of the same kind is refused with.
pub open spec fn repeated_attr_text(ident: Seq<char>) -> Seq<char> {
    "at most one `#["@ + ident + "(...)]` is allowed; list every entry in it"@
}

/// Take the attribute named `ident` out of `attrs`: its arguments when there is
/// one, `None` when there is none, and a refusal when there are several. On
/// success the attribute is removed, so it never reaches the compiler.
pub fn take_use_attr<A>(attrs: &mut Vec<(String, A)>, ident: &str) -> (r: Result<Option<A>, String>)
    ensures
        (forall|i: int| 0 <= i < old(attrs)@.len() ==> (#[trigger] old(attrs)@[i]).0@ != ident@) ==> (r matches Ok(
            None,
        ) && final(attrs)@ == old(attrs)@),
        r matches Ok(Some(a)) ==> (exists|i: int|
            0 <= i < old(attrs)@.len() && (#[trigger] old(attrs)@[i]) == (old(attrs)@[i].0, a) && old(attrs)@[i].0@
                == ident@ && final(attrs)@ == old(attrs)@.remove(i) && forall|j: int|
                0 <= j < final(attrs)@.len() ==> (#[trigger] final(attrs)@[j]).0@ != ident@),
        r matches Err(m) ==> (m@ == repeated_attr_text(ident@) && exists|i: int|
            0 <= i < old(attrs)@.len() && (#[trigger] old(attrs)@[i]).0@ == ident@ && final(attrs)@ == old(attrs)@.remove(
                i,
            ) && forall|j: int| 0 <= j < i ==> (#[trigger] old(attrs)@[j]).0@ != ident@),
        (r matches Ok(None)) <==> (forall|i: int| 0 <= i < old(attrs)@.len() ==> (#[trigger] old(attrs)@[i]).0@ != ident@),
        (r is Err) <==> (exists|i: int, k: int|
            0 <= i < k < old(attrs)@.len() && (#[trigger] old(attrs)@[i]).0@ == ident@ && (#[trigger] old(attrs)@[k]).0@
                == ident@),
{
    let mut pos: usize = 0;
    while pos < attrs.len() && !same_text(attrs[pos].0.as_str(), ident)
        invariant
            attrs@ == old(attrs)@,
            pos <= attrs@.len(),
            forall|j: int| 0 <= j < pos ==> (#[trigger] attrs@[j]).0@ != ident@,
        decreases attrs@.len() - pos,
    {
        pos = pos + 1;
    }
    if pos == attrs.len() {
        return Ok(None);
    }
    let ghost before = attrs@;
    assert(before[pos as int].0@ == ident@);
    let (name, args) = attrs.remove(pos);
    let mut k: usize = 0;
    while k < attrs.len()
        invariant
            0 <= pos < before.len(),
            before == old(attrs)@,
            before[pos as int].0@ == ident@,
            forall|j: int| 0 <= j < pos ==> (#[trigger] before[j]).0@ != ident@,
            attrs@ == before.remove(pos as int),
            k <= attrs@.len(),
            forall|j: int| 0 <= j < k ==> (#[trigger] attrs@[j]).0@ != ident@,
        decreases attrs@.len() - k,
    {
        if same_text(attrs[k].0.as_str(), ident) {
            let mut m = String::from_str("at most one `#[");
            m.append(ident);
            m.append("(...)]` is allowed; list every entry in it");
            proof {
                reveal_strlit("at most one `#[");
                reveal_strlit("(...)]` is allowed; list every entry in it");
                assert(before[pos as int].0@ == ident@);
                if k < pos {
                    assert(before[k as int] == attrs@[k as int]);
                    assert(false);
                } else {
                    assert(before[k + 1] == attrs@[k as int]);
                }
            }
            return Err(m);
        }
        k = k + 1;
    }
    proof {
        assert(before[pos as int] == (name, args));
        assert(before[pos as int] == (before[pos as int].0, args));
        assert forall|i: int, k: int|
            0 <= i < k < before.len() && (#[trigger] before[i]).0@ == ident@ implies (#[trigger] before[k]).0@
                != ident@ by {
            if k < pos {
            } else if k == pos {
                assert(attrs@[i] == before[i]);
            } else {
                assert(attrs@[k - 1] == before[k]);
            }
        }
    }
    Ok(Some(args))
}


/// The parameter a handler's response is shaped by: the first whose type's last
/// path segment is `Authorize` with angle-bracketed arguments.
pub open spec fn is_shaper(t: TypeExpr) -> bool {
    t matches TypeExpr::Path { last: Some(l), args: Some(_), .. } && l@ == "Authorize"@
}

/// The position of the parameter that shapes the response, if any.
pub fn shaper_index(params: &[TypeExpr]) -> (r: Option<usize>)
    ensures
        match r {
            Some(i) => i < params@.len() && is_shaper(params@[i as int]) && forall|j: int|
                0 <= j < i ==> !is_shaper(#[trigger] params@[j]),
            None => forall|j: int| 0 <= j < params@.len() ==> !is_shaper(#[trigger] params@[j]),
        },
{
    proof {
        reveal_strlit("Authorize");
    }
    let mut i: usize = 0;
    while i < params.len()
        invariant
            i <= params@.len(),
            forall|j: int| 0 <= j < i ==> !is_shaper(#[trigger] params@[j]),
        decreases params@.len() - i,
    {
        match &params[i] {
            TypeExpr::Path { last: Some(l), args: Some(_), .. } => {
                if same_text(l.as_str(), "Authorize") {
                    return Some(i);
                }
            },
            _ => {},
        }
        i = i + 1;
    }
    None
}

/// The documentation tags of a route: those its `#[api]` attribute lists, else
/// the controller's name.
pub fn route_tags(tags: Vec<String>, controller: String) -> (t: Vec<String>)
    ensures
        tags@.len() == 0 ==> t@.len() == 1 && t@[0] == controller,
        tags@.len() > 0 ==> t@ == tags@,
{
    if tags.len() == 0 {
        let mut t = Vec::new();
        t.push(controller);
        t
    } else {
        tags
    }
}

/// One `name = value` or other entry of an attribute's argument list.
pub enum AttrArg {
    /// `name = value`; the value's text when it is a string literal.
    NameValue { name: String, text: Option<String> },
    /// Any other entry.
    Other,
}

/// The message a `name = value` entry that is not a string literal is refused with.
pub open spec fn not_literal_text() -> Seq<char> {
    "expected a string literal"@
}

/// The message an unknown controller argument is refused with.
pub open spec fn controller_args_text() -> Seq<char> {
    "#[controller] accepts `path = \"...\"` and an optional `version = \"...\"`"@
}

/// The message a controller without a path is refused with.
pub open spec fn controller_path_text() -> Seq<char> {
    "#[controller] requires `path = \"...\"`"@
}

/// The controller's `path` and optional `version` read from its arguments, left
/// to right, a later value of the same name replacing an earlier one.
pub open spec fn controller_args_spec(args: Seq<AttrArg>) -> Result<(Option<Seq<char>>, Option<Seq<char>>), Seq<char>>
    decreases args.len(),
{
    if args.len() == 0 {
        Ok((None, None))
    } else {
        match controller_args_spec(args.drop_last()) {
            Err(e) => Err(e),
            Ok((path, version)) => match args.last() {
                AttrArg::NameValue { name, text } => if name@ == "path"@ {
                    match text {
                        Some(t) => Ok((Some(t@), version)),
                        None => Err(not_literal_text()),
                    }
                } else if name@ == "version"@ {
                    match text {
                        Some(t) => Ok((path, Some(t@))),
                        None => Err(not_literal_text()),
                    }
                } else {
                    Err(controller_args_text())
                },
                AttrArg::Other => Err(controller_args_text()),
            },
        }
    }
}

proof fn lemma_controller_error_sticks(args: Seq<AttrArg>, k: int)
    requires
        0 <= k <= args.len(),
        controller_args_spec(args.take(k)) is Err,
    ensures
        controller_args_spec(args) == controller_args_spec(args.take(k)),
    decreases args.len() - k,
{
    if k < args.len() {
        assert(args.take(k + 1).drop_last() =~= args.take(k));
        lemma_controller_error_sticks(args, k + 1);
    } else {
        assert(args.take(k) =~= args);
    }
}

/// Read a controller's arguments: `path = "..."` (required) and `version = "..."`
/// (optional).
pub fn parse_controller_args(args: Vec<AttrArg>) -> (r: Result<(String, Option<String>), String>)
    ensures
        match controller_args_spec(args@) {
            Err(e) => r matches Err(m) && m@ == e,
            Ok((None, _)) => r matches Err(m) && m@ == controller_path_text(),
            Ok((Some(p), v)) => r matches Ok((rp, rv)) && rp@ == p && match v {
                None => rv is None,
                Some(vv) => rv matches Some(x) && x@ == vv,
            },
        },
{
    proof {
        reveal_strlit("path");
        reveal_strlit("version");
        reveal_strlit("expected a string literal");
        reveal_strlit("#[controller] accepts `path = \"...\"` and an optional `version = \"...\"`");
        reveal_strlit("#[controller] requires `path = \"...\"`");
    }
    let ghost orig = args@;
    let mut rest = args;
    let n = rest.len();
    let mut path: Option<String> = None;
    let mut version: Option<String> = None;
    let mut i: usize = 0;
    while i < n
        invariant
            orig == args@,
            n == orig.len(),
            i <= n,
            rest@ == orig.skip(i as int),
            controller_args_spec(orig.take(i as int)) matches Ok((p, v)) && (match p {
                None => path is None,
                Some(pv) => path matches Some(x) && x@ == pv,
            }) && (match v {
                None => version is None,
                Some(vv) => version matches Some(x) && x@ == vv,
            }),
        decreases n - i,
    {
        let arg = rest.remove(0);
        proof {
            assert(arg == orig[i as int]);
            assert(rest@ =~= orig.skip(i + 1));
            assert(orig.take(i + 1).drop_last() =~= orig.take(i as int));
            assert(orig.take(i + 1).last() == arg);
        }
        match arg {
            AttrArg::NameValue { name, text } => {
                if same_text(name.as_str(), "path") {
                    match text {
                        Some(t) => {
                            path = Some(t);
                        },
                        None => {
                            proof {
                                lemma_controller_error_sticks(orig, i + 1);
                            }
                            return Err(String::from_str("expected a string literal"));
                        },
                    }
                } else if same_text(name.as_str(), "version") {
                    match text {
                        Some(t) => {
                            version = Some(t);
                        },
                        None => {
                            proof {
                                lemma_controller_error_sticks(orig, i + 1);
                            }
                            return Err(String::from_str("expected a string literal"));
                        },
                    }
                } else {
                    proof {
                        lemma_controller_error_sticks(orig, i + 1);
                    }
                    return Err(
                        String::from_str("#[controller] accepts `path = \"...\"` and an optional `version = \"...\"`"),
                    );
                }
            },
            AttrArg::Other => {
                proof {
                    lemma_controller_error_sticks(orig, i + 1);
                }
                return Err(
                    String::from_str("#[controller] accepts `path = \"...\"` and an optional `version = \"...\"`"),
                );
            },
        }
        i = i + 1;
    }
    proof {
        assert(orig.take(n as int) =~= orig);
    }
    match path {
        Some(p) => Ok((p, version)),
        None => Err(String::from_str("#[controller] requires `path = \"...\"`")),
    }
}

/// The kinds of resolver operation a method attribute declares.
#[derive(Clone, Copy, Debug, PartialEq, Eq, Structural)]
pub enum OperationKind {
    Query,
    Mutation,
    Field,
}

/// The operation an attribute of this name declares, if any.
pub open spec fn operation_spec(name: Seq<char>) -> Option<OperationKind> {
    if name == "query"@ {
        Some(OperationKind::Query)
    } else if name == "mutation"@ {
        Some(OperationKind::Mutation)
    } else if name == "field"@ {
        Some(OperationKind::Field)
    } else {
        None
    }
}

/// The first operation attribute among a method's attributes: its position and
/// the operation it declares.
pub fn operation_of(attrs: &[String]) -> (r: Option<(usize, OperationKind)>)
    ensures
        match r {
            Some((i, k)) => i < attrs@.len() && operation_spec(attrs@[i as int]@) == Some(k) && forall|j: int|
                0 <= j < i ==> operation_spec((#[trigger] attrs@[j])@) is None,
            None => forall|j: int| 0 <= j < attrs@.len() ==> operation_spec((#[trigger] attrs@[j])@) is None,
        },
        r matches Some((i, k)) ==> attrs@[i as int]@ == operation_attribute(k),
{
    proof {
        reveal_strlit("query");
        reveal_strlit("mutation");
        reveal_strlit("field");
    }
    let mut i: usize = 0;
    while i < attrs.len()
        invariant
            i <= attrs@.len(),
            forall|j: int| 0 <= j < i ==> operation_spec((#[trigger] attrs@[j])@) is None,
        decreases attrs@.len() - i,
    {
        let a = attrs[i].as_str();
        proof {
            lemma_operation_is_its_own_name(a@, OperationKind::Query);
            lemma_operation_is_its_own_name(a@, OperationKind::Mutation);
            lemma_operation_is_its_own_name(a@, OperationKind::Field);
        }
        if same_text(a, "query") {
            return Some((i, OperationKind::Query));
        } else if same_text(a, "mutation") {
            return Some((i, OperationKind::Mutation));
        } else if same_text(a, "field") {
            return Some((i, OperationKind::Field));
        }
        i = i + 1;
    }
    None
}

/// The name of the method attribute that declares operation `k`.
pub open spec fn operation_attribute(k: OperationKind) -> Seq<char> {
    match k {
        OperationKind::Query => "query"@,
        OperationKind::Mutation => "mutation"@,
        OperationKind::Field => "field"@,
    }
}

/// Each operation attribute declares the operation of its own name, and only
/// that one: `field` makes a field resolver, `query` a root query, `mutation` a
/// root mutation.
pub proof fn lemma_operation_is_its_own_name(name: Seq<char>, k: OperationKind)
    ensures
        operation_spec(name) == Some(k) <==> name == operation_attribute(k),
{
    reveal_strlit("query");
    reveal_strlit("mutation");
    reveal_strlit("field");
    assert("query"@.len() != "mutation"@.len());
    assert("query"@[0] != "field"@[0] && "query"@ != "field"@);
    assert("mutation"@.len() != "field"@.len());
}

/// The guards of one resolver operation: the resolver's own, then the method's.
pub fn operation_guards<P>(resolver_guards: Vec<P>, method_guards: Vec<P>) -> (g: Vec<P>)
    ensures
        g@ == resolver_guards@ + method_guards@,
{
    let mut g = resolver_guards;
    let mut m = method_guards;
    g.append(&mut m);
    g
}


/// One entry of an `#[api(...)]` attribute.
pub enum ApiArg {
    /// `name = value`; the value's text when it is a string literal.
    NameValue { name: String, text: Option<String> },
    /// `name(...)`; the entries' texts when they are all string literals.
    List { name: String, items: Option<Vec<String>> },
    /// Any other entry.
    Other,
}

/// A route's documentation facets; absent ones keep the defaults.
pub struct ApiMeta {
    pub summary: Option<String>,
    pub description: Option<String>,
    pub tags: Vec<String>,
}

/// The message an unknown `#[api]` entry is refused with.
pub open spec fn api_args_text() -> Seq<char> {
    "#[api] accepts `summary = \"...\"`, `description = \"...\"`, and `tags(\"a\", \"b\")`"@
}

/// The facets read from an `#[api(...)]` attribute, left to right, a later value
/// replacing an earlier one.
pub open spec fn api_args_spec(args: Seq<ApiArg>) -> Result<(Option<Seq<char>>, Option<Seq<char>>, Seq<String>), Seq<char>>
    decreases args.len(),
{
    if args.len() == 0 {
        Ok((None, None, Seq::empty()))
    } else {
        match api_args_spec(args.drop_last()) {
            Err(e) => Err(e),
            Ok((summary, description, tags)) => match args.last() {
                ApiArg::NameValue { name, text } => if name@ == "summary"@ {
                    match text {
                        Some(t) => Ok((Some(t@), description, tags)),
                        None => Err(not_literal_text()),
                    }
                } else if name@ == "description"@ {
                    match text {
                        Some(t) => Ok((summary, Some(t@), tags)),
                        None => Err(not_literal_text()),
                    }
                } else {
                    Err(api_args_text())
                },
                ApiArg::List { name, items } => if name@ == "tags"@ {
                    match items {
                        Some(ts) => Ok((summary, description, ts@)),
                        None => Err(not_literal_text()),
                    }
                } else {
                    Err(api_args_text())
                },
                ApiArg::Other => Err(api_args_text()),
            },
        }
    }
}

proof fn lemma_api_error_sticks(args: Seq<ApiArg>, k: int)
    requires
        0 <= k <= args.len(),
        api_args_spec(args.take(k)) is Err,
    ensures
        api_args_spec(args) == api_args_spec(args.take(k)),
    decreases args.len() - k,
{
    if k < args.len() {
        assert(args.take(k + 1).drop_last() =~= args.take(k));
        lemma_api_error_sticks(args, k + 1);
    } else {
        assert(args.take(k) =~= args);
    }
}

/// `a` is a `key = ...` entry.
pub open spec fn api_entry_named(a: ApiArg, key: Seq<char>) -> bool {
    a matches ApiArg::NameValue { name, .. } && name@ == key
}

/// The string a `name = "text"` entry carries.
pub open spec fn entry_text(a: ApiArg) -> Option<Seq<char>> {
    match a {
        ApiArg::NameValue { text: Some(t), .. } => Some(t@),
        _ => None,
    }
}

/// `a` is a `key(...)` list entry.
pub open spec fn api_list_named(a: ApiArg, key: Seq<char>) -> bool {
    a matches ApiArg::List { name, .. } && name@ == key
}

/// The strings a `name("a", "b")` entry lists.
pub open spec fn list_items(a: ApiArg) -> Seq<String> {
    match a {
        ApiArg::List { items: Some(ts), .. } => ts@,
        _ => Seq::empty(),
    }
}

/// The position of the last `key = ...` entry of `args`; -1 when there is none.
pub open spec fn last_entry(args: Seq<ApiArg>, key: Seq<char>) -> int
    decreases args.len(),
{
    if args.len() == 0 {
        -1
    } else if api_entry_named(args.last(), key) {
        args.len() - 1
    } else {
        last_entry(args.drop_last(), key)
    }
}

/// The position of the last `tags(...)` entry of `args`; -1 when there is none.
pub open spec fn last_tags_list(args: Seq<ApiArg>) -> int
    decreases args.len(),
{
    if args.len() == 0 {
        -1
    } else if api_list_named(args.last(), "tags"@) {
        args.len() - 1
    } else {
        last_tags_list(args.drop_last())
    }
}

/// The facet the `key = ...` entries of `args` set: the text of the last one, or
/// none.
pub open spec fn entry_facet(args: Seq<ApiArg>, key: Seq<char>) -> Option<Seq<char>> {
    if last_entry(args, key) < 0 {
        None
    } else {
        entry_text(args[last_entry(args, key)])
    }
}

/// The tags the `tags(...)` entries of `args` set: those of the last one, or none.
pub open spec fn tags_facet(args: Seq<ApiArg>) -> Seq<String> {
    if last_tags_list(args) < 0 {
        Seq::empty()
    } else {
        list_items(args[last_tags_list(args)])
    }
}

proof fn lemma_last_positions_bounded(args: Seq<ApiArg>, key: Seq<char>)
    ensures
        -1 <= last_entry(args, key) < args.len(),
        last_entry(args, key) >= 0 ==> api_entry_named(args[last_entry(args, key)], key),
        -1 <= last_tags_list(args) < args.len(),
    decreases args.len(),
{
    if args.len() > 0 {
        lemma_last_positions_bounded(args.drop_last(), key);
    }
}

/// Each facet of an accepted `#[api(...)]` attribute is set by its own entries,
/// the last one winning: the summary is the text of the last `summary = ...`
/// entry, the description that of the last `description = ...` entry, the tags
/// those of the last `tags(...)` entry; a facet with no entry keeps its default.
/// So an entry of one facet never changes another.
pub proof fn lemma_api_facets_set_by_own_entries(args: Seq<ApiArg>)
    ensures
        api_args_spec(args) matches Ok((s, d, tags)) ==> s == entry_facet(args, "summary"@) && d == entry_facet(
            args,
            "description"@,
        ) && tags == tags_facet(args),
    decreases args.len(),
{
    reveal_strlit("summary");
    reveal_strlit("description");
    reveal_strlit("tags");
    assert("summary"@.len() != "description"@.len());
    if args.len() > 0 {
        let init = args.drop_last();
        let n = args.len() - 1;
        lemma_api_facets_set_by_own_entries(init);
        lemma_last_positions_bounded(init, "summary"@);
        lemma_last_positions_bounded(init, "description"@);
        if api_args_spec(args) is Ok {
            let ls = last_entry(init, "summary"@);
            let ld = last_entry(init, "description"@);
            let lt = last_tags_list(init);
            if ls >= 0 {
                assert(args[ls] == init[ls]);
            }
            if ld >= 0 {
                assert(args[ld] == init[ld]);
            }
            if lt >= 0 {
                assert(args[lt] == init[lt]);
            }
            assert(args.last() == args[n]);
        }
    }
}

/// Read an `#[api(summary = "...", description = "...", tags("a", "b"))]`
/// attribute; every entry is optional.
pub fn parse_api_args(args: Vec<ApiArg>) -> (r: Result<ApiMeta, String>)
    ensures
        match api_args_spec(args@) {
            Err(e) => r matches Err(m) && m@ == e,
            Ok((summary, description, tags)) => r matches Ok(meta) && meta.tags@ == tags && (match summary {
                None => meta.summary is None,
                Some(sv) => meta.summary matches Some(x) && x@ == sv,
            }) && (match description {
                None => meta.description is None,
                Some(dv) => meta.description matches Some(x) && x@ == dv,
            }),
        },
{
    proof {
        reveal_strlit("summary");
        reveal_strlit("description");
        reveal_strlit("tags");
        reveal_strlit("expected a string literal");
        reveal_strlit("#[api] accepts `summary = \"...\"`, `description = \"...\"`, and `tags(\"a\", \"b\")`");
    }
    let ghost orig = args@;
    let mut rest = args;
    let n = rest.len();
    let mut meta = ApiMeta { summary: None, description: None, tags: Vec::new() };
    let mut i: usize = 0;
    while i < n
        invariant
            orig == args@,
            n == orig.len(),
            i <= n,
            rest@ == orig.skip(i as int),
            api_args_spec(orig.take(i as int)) matches Ok((s, d, t)) && meta.tags@ == t && (match s {
                None => meta.summary is None,
                Some(sv) => meta.summary matches Some(x) && x@ == sv,
            }) && (match d {
                None => meta.description is None,
                Some(dv) => meta.description matches Some(x) && x@ == dv,
            }),
        decreases n - i,
    {
        let arg = rest.remove(0);
        proof {
            assert(arg == orig[i as int]);
            assert(rest@ =~= orig.skip(i + 1));
            assert(orig.take(i + 1).drop_last() =~= orig.take(i as int));
            assert(orig.take(i + 1).last() == arg);
        }
        let refused: Option<&str> = match arg {
            ApiArg::NameValue { name, text } => {
                if same_text(name.as_str(), "summary") {
                    match text {
                        Some(t) => {
                            meta.summary = Some(t);
                            None
                        },
                        None => Some("expected a string literal"),
                    }
                } else if same_text(name.as_str(), "description") {
                    match text {
                        Some(t) => {
                            meta.description = Some(t);
                            None
                        },
                        None => Some("expected a string literal"),
                    }
                } else {
                    Some("#[api] accepts `summary = \"...\"`, `description = \"...\"`, and `tags(\"a\", \"b\")`")
                }
            },
            ApiArg::List { name, items } => {
                if same_text(name.as_str(), "tags") {
                    match items {
                        Some(ts) => {
                            meta.tags = ts;
                            None
                        },
                        None => Some("expected a string literal"),
                    }
                } else {
                    Some("#[api] accepts `summary = \"...\"`, `description = \"...\"`, and `tags(\"a\", \"b\")`")
                }
            },
            ApiArg::Other => Some(
                "#[api] accepts `summary = \"...\"`, `description = \"...\"`, and `tags(\"a\", \"b\")`",
            ),
        };
        match refused {
            Some(m) => {
                proof {
                    assert(api_args_spec(orig.take(i + 1)) == Err::<(Option<Seq<char>>, Option<Seq<char>>, Seq<String>), Seq<char>>(m@));
                    lemma_api_error_sticks(orig, i + 1);
                }
                return Err(String::from_str(m));
            },
            None => {},
        }
        i = i + 1;
    }
    proof {
        assert(orig.take(n as int) =~= orig);
    }
    Ok(meta)
}

/// What a resolver attribute is applied to.
#[derive(Clone, Copy, Debug, PartialEq, Eq, Structural)]
pub enum ResolverTarget {
    /// A struct: construction only.
    Struct,
    /// Its impl block: the operations.
    Impl,
    /// Anything else.
    Other,
}

/// Whether the resolver attribute accepts its use: it takes no arguments, and
/// applies to a struct without `#[use_guards]` (guards go on the impl block) or to
/// an impl block.
pub fn check_resolver_use(has_args: bool, target: ResolverTarget, struct_attrs: &[String]) -> (r: Result<(), String>)
    ensures
        has_args ==> (r matches Err(m) && m@
            == "#[resolver] takes no arguments; tag methods with `#[query]` / `#[mutation]`"@),
        !has_args && target == ResolverTarget::Other ==> (r matches Err(m) && m@
            == "#[resolver] applies to a struct (construction) or its impl block (query/mutation methods)"@),
        !has_args && target == ResolverTarget::Impl ==> r is Ok,
        !has_args && target == ResolverTarget::Struct ==> (r is Ok <==> forall|i: int|
            0 <= i < struct_attrs@.len() ==> (#[trigger] struct_attrs@[i])@ != "use_guards"@),
{
    proof {
        reveal_strlit("#[resolver] takes no arguments; tag methods with `#[query]` / `#[mutation]`");
        reveal_strlit("#[resolver] applies to a struct (construction) or its impl block (query/mutation methods)");
        reveal_strlit("put `#[use_guards(...)]` on the resolver's `impl` block, not the struct");
        reveal_strlit("use_guards");
    }
    if has_args {
        return Err(String::from_str("#[resolver] takes no arguments; tag methods with `#[query]` / `#[mutation]`"));
    }
    match target {
        ResolverTarget::Other => Err(
            String::from_str("#[resolver] applies to a struct (construction) or its impl block (query/mutation methods)"),
        ),
        ResolverTarget::Impl => Ok(()),
        ResolverTarget::Struct => {
            let mut i: usize = 0;
            while i < struct_attrs.len()
                invariant
                    !has_args,
                    target == ResolverTarget::Struct,
                    i <= struct_attrs@.len(),
                    forall|j: int| 0 <= j < i ==> (#[trigger] struct_attrs@[j])@ != "use_guards"@,
                decreases struct_attrs@.len() - i,
            {
                if same_text(struct_attrs[i].as_str(), "use_guards") {
                    return Err(String::from_str("put `#[use_guards(...)]` on the resolver's `impl` block, not the struct"));
                }
                i = i + 1;
            }
            Ok(())
        },
    }
}


/// What the route table records of one method of a controller's impl block.
pub struct HandlerInfo {
    /// The method's name.
    pub handler: String,
    /// The verb and path of its route attribute; `None` for a method that is no route.
    pub route: Option<(HttpVerb, String)>,
    /// Its `#[api]` facets.
    pub api: ApiMeta,
    /// Whether its request body has a documented JSON schema.
    pub request_schema: bool,
    /// Whether its response payload has a documented JSON schema.
    pub response_schema: bool,
    /// Whether its response is shaped by the caller's ability.
    pub shaped: bool,
}

/// The documentation record of one route.
pub struct RouteMeta {
    pub verb: HttpVerb,
    pub path: String,
    pub handler: String,
    pub summary: Option<String>,
    pub description: Option<String>,
    pub tags: Vec<String>,
    pub request_schema: bool,
    pub response_schema: bool,
}

/// The methods of `ms` that are routes, in order.
pub open spec fn routed(ms: Seq<HandlerInfo>) -> Seq<HandlerInfo>
    decreases ms.len(),
{
    if ms.len() == 0 {
        Seq::empty()
    } else if ms.last().route is Some {
        routed(ms.drop_last()).push(ms.last())
    } else {
        routed(ms.drop_last())
    }
}

/// `m` records the route method `h` of the controller tagged `controller`: its verb,
/// path and name, its `#[api]` facets (the controller's tag when it lists none),
/// its request schema, and its response schema unless the response is shaped.
pub open spec fn describes(m: RouteMeta, h: HandlerInfo, controller: String) -> bool {
    &&& h.route matches Some(r) && m.verb == r.0 && m.path == r.1
    &&& m.handler == h.handler
    &&& m.summary == h.api.summary
    &&& m.description == h.api.description
    &&& (h.api.tags@.len() == 0 ==> m.tags@ == seq![controller])
    &&& (h.api.tags@.len() > 0 ==> m.tags@ == h.api.tags@)
    &&& m.request_schema == h.request_schema
    &&& m.response_schema == (h.response_schema && !h.shaped)
}

/// The route table of a controller: one record per route method, in method order.
pub fn route_metas(methods: Vec<HandlerInfo>, controller: &String) -> (metas: Vec<RouteMeta>)
    ensures
        metas@.len() == routed(methods@).len(),
        forall|i: int| 0 <= i < metas@.len() ==> describes(#[trigger] metas@[i], routed(methods@)[i], *controller),
{
    let ghost orig = methods@;
    let mut rest = methods;
    let n = rest.len();
    let mut metas: Vec<RouteMeta> = Vec::new();
    let mut i: usize = 0;
    while i < n
        invariant
            n == orig.len(),
            i <= n,
            rest@ == orig.skip(i as int),
            metas@.len() == routed(orig.take(i as int)).len(),
            forall|j: int|
                0 <= j < metas@.len() ==> describes(#[trigger] metas@[j], routed(orig.take(i as int))[j], *controller),
        decreases n - i,
    {
        let h = rest.remove(0);
        proof {
            assert(orig[i as int] == h);
            assert(rest@ =~= orig.skip(i + 1));
            assert(orig.take(i + 1).drop_last() =~= orig.take(i as int));
            assert(orig.take(i + 1).last() == h);
        }
        let HandlerInfo { handler, route, api, request_schema, response_schema, shaped } = h;
        match route {
            Some((verb, path)) => {
                let ApiMeta { summary, description, tags } = api;
                let tags = route_tags(tags, controller.clone());
                let m = RouteMeta {
                    verb,
                    path,
                    handler,
                    summary,
                    description,
                    tags,
                    request_schema,
                    response_schema: response_schema && !shaped,
                };
                proof {
                    if h.api.tags@.len() == 0 {
                        assert(m.tags@ =~= seq![*controller]);
                    }
                }
                assert(describes(m, h, *controller));
                metas.push(m);
            },
            None => {},
        }
        i = i + 1;
    }
    proof {
        assert(orig.take(n as int) =~= orig);
    }
    metas
}

} // verus!
