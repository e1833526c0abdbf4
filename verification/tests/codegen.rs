use nestrs::codegen::{ctx_param_index, request_payload, response_payload, forwarded_idents, guard_context, impl_self_ident, plan_field_method, plan_injection, FieldArg, FnParam, FieldInit, GenericArg, InjectField, KeySource, StructShape, TypeExpr};
use nestrs::routes::{route_metas, ApiMeta, HandlerInfo,
    check_resolver_use, group_by_path, layer_stack, operation_guards, operation_of, parse_api_args,
    parse_controller_args, route_tags, shaper_index, take_use_attr, verb_named, ApiArg, AttrArg, HttpVerb, Layer,
    OperationKind, ResolverTarget,
};

fn path(last: &str, args: Option<Vec<TypeExpr>>) -> TypeExpr {
    TypeExpr::Path {
        last: Some(last.to_string()),
        args: args.map(|ts| ts.into_iter().map(GenericArg::Type).collect()),
        tokens: last.to_string(),
    }
}

fn dyn_trait(name: &str) -> TypeExpr {
    TypeExpr::TraitObject { bounds: vec![Some(name.to_string())], tokens: format!("dyn {name}") }
}

fn field(name: &str, inject: bool, ty: TypeExpr) -> InjectField {
    InjectField { name: name.to_string(), inject, ty }
}

#[test]
fn type_helpers_read_wrappers() {
    let t = path("Arc", Some(vec![path("Users", None)]));
    assert!(matches!(t.arc_inner(), Some(TypeExpr::Path { last: Some(l), .. }) if l == "Users"));
    assert!(path("Users", None).arc_inner().is_none());
    let r = path("Result", Some(vec![path("Json", Some(vec![path("UserDto", None)])), path("Error", None)]));
    assert!(matches!(r.nth_generic_type("Result", 1), Some(TypeExpr::Path { last: Some(l), .. }) if l == "Error"));
    assert!(r.nth_generic_type("Result", 2).is_none());
    assert!(r.nth_generic_type("Option", 0).is_none());
    assert_eq!(path("Users", None).type_label(), "Users");
    assert_eq!(dyn_trait("Mailer").type_label(), "dyn Mailer");
    assert_eq!(TypeExpr::Other { tokens: "[u8; 4]".to_string() }.type_label(), "[u8; 4]");
}

#[test]
fn injected_fields_are_planned_by_their_type() {
    let shape = StructShape::Named(vec![
        field("users", true, path("Arc", Some(vec![path("UsersService", None)]))),
        field("mailer", true, path("Arc", Some(vec![dyn_trait("Mailer")]))),
        field("cache", true, path("Option", Some(vec![path("Arc", Some(vec![path("Cache", None)]))]))),
        field("count", false, path("u32", None)),
    ]);
    let plan = plan_injection("Signup", &shape).ok().expect("every field is buildable");
    assert!(!plan.uses_default);
    match &plan.fields[0] {
        FieldInit::Required { dynamic, key, label, missing } => {
            assert!(!dynamic);
            assert_eq!(*key, KeySource::ArcInner);
            assert_eq!(label, "UsersService");
            assert_eq!(missing, "Signup.users: no provider registered for this dependency");
        }
        _ => panic!("a required dependency"),
    }
    match &plan.fields[1] {
        FieldInit::Required { dynamic, key, label, .. } => {
            assert!(*dynamic);
            assert_eq!(*key, KeySource::Field);
            assert_eq!(label, "dyn Mailer");
        }
        _ => panic!("a required trait-object dependency"),
    }
    assert!(matches!(plan.fields[2], FieldInit::Optional { dynamic: false, key: KeySource::OptionArcInner }));
    assert!(matches!(plan.fields[3], FieldInit::Default));
}

#[test]
fn injection_errors_are_reported() {
    let not_arc = StructShape::Named(vec![field("n", true, path("Box", Some(vec![path("X", None)])))]);
    assert!(plan_injection("S", &not_arc).err().unwrap().starts_with("#[inject] requires an `Arc<T>`"));
    let bad_opt = StructShape::Named(vec![field("n", true, path("Option", Some(vec![path("X", None)])))]);
    assert!(plan_injection("S", &bad_opt).err().unwrap().starts_with("#[inject] `Option<…>` must wrap"));
    assert_eq!(
        plan_injection("S", &StructShape::Tuple).err().unwrap(),
        "#[injectable] does not support tuple structs"
    );
    let unit = plan_injection("S", &StructShape::Unit).ok().unwrap();
    assert!(!unit.uses_default && unit.fields.is_empty());
    let plain = plan_injection("S", &StructShape::Named(vec![field("a", false, path("u8", None))])).ok().unwrap();
    assert!(plain.uses_default);
}

#[test]
fn route_attributes_name_verbs() {
    assert_eq!(verb_named("get"), Some(HttpVerb::Get));
    assert_eq!(verb_named("patch"), Some(HttpVerb::Patch));
    assert_eq!(verb_named("use_guards"), None);
}

#[test]
fn verbs_on_one_path_share_a_route_in_first_seen_order() {
    let routes = vec![
        ("/users".to_string(), "list"),
        ("/users/:id".to_string(), "get"),
        ("/users".to_string(), "create"),
    ];
    let g = group_by_path(routes);
    assert_eq!(
        g,
        vec![("/users".to_string(), vec!["list", "create"]), ("/users/:id".to_string(), vec!["get"])]
    );
}

#[test]
fn layers_nest_shaper_interceptors_guards_filters_then_metadata() {
    let ls = layer_stack(true, vec!["i1", "i2"], vec!["g1", "g2"], vec!["f1"], vec![10, 20]);
    let names: Vec<String> = ls
        .iter()
        .map(|l| match l {
            Layer::Shaper => "shaper".to_string(),
            Layer::Interceptor(p) | Layer::Guard(p) | Layer::Filter(p) => p.to_string(),
            Layer::Meta(m) => m.to_string(),
        })
        .collect();
    assert_eq!(names, vec!["shaper", "i2", "i1", "g2", "g1", "f1", "10", "20"]);
}

#[test]
fn a_use_attribute_is_taken_once() {
    let mut attrs = vec![("doc".to_string(), 0), ("use_guards".to_string(), 1)];
    assert_eq!(take_use_attr(&mut attrs, "use_guards"), Ok(Some(1)));
    assert_eq!(attrs, vec![("doc".to_string(), 0)]);
    assert_eq!(take_use_attr(&mut attrs, "use_guards"), Ok(None));
    let mut twice = vec![("use_filters".to_string(), 1), ("use_filters".to_string(), 2)];
    assert_eq!(
        take_use_attr(&mut twice, "use_filters"),
        Err("at most one `#[use_filters(...)]` is allowed; list every entry in it".to_string())
    );
}

#[test]
fn controller_arguments_need_a_path() {
    let nv = |n: &str, t: Option<&str>| AttrArg::NameValue { name: n.to_string(), text: t.map(|s| s.to_string()) };
    assert_eq!(
        parse_controller_args(vec![nv("path", Some("/users")), nv("version", Some("1"))]),
        Ok(("/users".to_string(), Some("1".to_string())))
    );
    assert_eq!(parse_controller_args(vec![nv("version", Some("1"))]), Err("#[controller] requires `path = \"...\"`".to_string()));
    assert_eq!(parse_controller_args(vec![nv("path", None)]), Err("expected a string literal".to_string()));
    assert_eq!(
        parse_controller_args(vec![nv("prefix", Some("/x"))]),
        Err("#[controller] accepts `path = \"...\"` and an optional `version = \"...\"`".to_string())
    );
}

#[test]
fn the_authorize_parameter_shapes_the_response() {
    let params = vec![path("Json", Some(vec![path("Dto", None)])), path("Authorize", Some(vec![path("Read", None)]))];
    assert_eq!(shaper_index(&params), Some(1));
    assert_eq!(shaper_index(&[path("Authorize", None)]), None);
}

#[test]
fn tags_default_to_the_controller_name() {
    assert_eq!(route_tags(vec![], "UsersController".to_string()), vec!["UsersController".to_string()]);
    assert_eq!(route_tags(vec!["admin".to_string()], "UsersController".to_string()), vec!["admin".to_string()]);
}

#[test]
fn resolver_operations_and_their_guards() {
    let attrs = vec!["doc".to_string(), "mutation".to_string(), "query".to_string()];
    assert_eq!(operation_of(&attrs), Some((1, OperationKind::Mutation)));
    assert_eq!(operation_of(&["doc".to_string()]), None);
    assert_eq!(operation_guards(vec!["auth"], vec!["admin"]), vec!["auth", "admin"]);
}

#[test]
fn an_impl_block_is_named_by_its_type() {
    assert_eq!(impl_self_ident(&path("UsersController", None), "#[routes]"), Ok("UsersController".to_string()));
    assert_eq!(
        impl_self_ident(&TypeExpr::Other { tokens: "(A, B)".to_string() }, "#[routes]"),
        Err("#[routes] requires a simple struct path (e.g. `impl MyService`)".to_string())
    );
}

#[test]
fn api_attributes_are_read_or_refused() {
    let nv = |n: &str, t: Option<&str>| ApiArg::NameValue { name: n.to_string(), text: t.map(|s| s.to_string()) };
    let meta = parse_api_args(vec![
        nv("summary", Some("List users")),
        ApiArg::List { name: "tags".to_string(), items: Some(vec!["users".to_string(), "admin".to_string()]) },
    ])
    .ok()
    .unwrap();
    assert_eq!(meta.summary, Some("List users".to_string()));
    assert_eq!(meta.description, None);
    assert_eq!(meta.tags, vec!["users".to_string(), "admin".to_string()]);
    assert_eq!(parse_api_args(vec![nv("summary", None)]).err(), Some("expected a string literal".to_string()));
    assert_eq!(
        parse_api_args(vec![nv("deprecated", Some("yes"))]).err(),
        Some("#[api] accepts `summary = \"...\"`, `description = \"...\"`, and `tags(\"a\", \"b\")`".to_string())
    );
}

#[test]
fn the_resolver_attribute_checks_where_it_is_used() {
    assert!(check_resolver_use(false, ResolverTarget::Impl, &[]).is_ok());
    assert!(check_resolver_use(false, ResolverTarget::Struct, &["doc".to_string()]).is_ok());
    assert_eq!(
        check_resolver_use(false, ResolverTarget::Struct, &["use_guards".to_string()]),
        Err("put `#[use_guards(...)]` on the resolver's `impl` block, not the struct".to_string())
    );
    assert_eq!(
        check_resolver_use(true, ResolverTarget::Impl, &[]),
        Err("#[resolver] takes no arguments; tag methods with `#[query]` / `#[mutation]`".to_string())
    );
    assert!(check_resolver_use(false, ResolverTarget::Other, &[]).is_err());
}

#[test]
fn wrappers_forward_every_named_parameter() {
    let params = vec![
        FnParam::Receiver,
        FnParam::Typed { ident: Some("id".to_string()), ty: path("Uuid", None) },
        FnParam::Typed { ident: Some("body".to_string()), ty: path("Json", Some(vec![path("Dto", None)])) },
    ];
    assert_eq!(forwarded_idents(&params), Ok(vec!["id".to_string(), "body".to_string()]));
    assert_eq!(
        forwarded_idents(&[FnParam::Typed { ident: None, ty: path("Point", None) }]),
        Err("resolver/controller method arguments must be simple identifiers (no destructuring patterns)".to_string())
    );
}

fn reference(t: TypeExpr) -> TypeExpr {
    TypeExpr::Reference { elem: Box::new(t), tokens: "&T".to_string() }
}

fn typed(name: &str, ty: TypeExpr) -> FnParam {
    FnParam::Typed { ident: Some(name.to_string()), ty }
}

#[test]
fn field_methods_take_self_then_the_parent_then_their_arguments() {
    let params = vec![
        FnParam::Receiver,
        typed("user", reference(path("User", None))),
        typed("loader", reference(path("DataLoader", Some(vec![path("PostLoader", None)])))),
        typed("posts", reference(path("PostsService", None))),
        typed("first", path("u32", None)),
    ];
    assert_eq!(
        plan_field_method(&params),
        Ok(vec![FieldArg::Loader, FieldArg::Service, FieldArg::Argument])
    );
}

#[test]
fn field_method_signatures_are_checked() {
    assert_eq!(
        plan_field_method(&[typed("user", reference(path("User", None)))]),
        Err("#[field] method needs a `&self` receiver (services come from the resolver's `#[inject]` fields)".to_string())
    );
    assert_eq!(
        plan_field_method(&[FnParam::Receiver]),
        Err("#[field] method needs a parent argument `parent: &ParentType` — the object being resolved".to_string())
    );
    assert_eq!(
        plan_field_method(&[FnParam::Receiver, typed("user", path("User", None))]),
        Err("#[field] parent argument must be a reference `&ParentType`".to_string())
    );
    assert!(plan_field_method(&[
        FnParam::Receiver,
        typed("user", reference(path("User", None))),
        FnParam::Typed { ident: None, ty: path("Point", None) },
    ])
    .is_err());
}

#[test]
fn guarded_operations_read_the_context_parameter_or_get_one() {
    let with_ctx = vec![
        FnParam::Receiver,
        typed("id", path("Uuid", None)),
        typed("ctx", reference(path("Context", Some(vec![])))),
    ];
    assert_eq!(ctx_param_index(&with_ctx), Some(2));
    assert_eq!(guard_context(&with_ctx), (false, "ctx".to_string()));
    let without = vec![FnParam::Receiver, typed("id", path("Uuid", None))];
    assert_eq!(ctx_param_index(&without), None);
    assert_eq!(guard_context(&without), (true, "__guard_ctx".to_string()));
}

fn last_of(t: Option<&TypeExpr>) -> Option<String> {
    match t {
        Some(TypeExpr::Path { last: Some(l), .. }) => Some(l.clone()),
        _ => None,
    }
}

#[test]
fn payload_types_are_read_through_extractors() {
    let json = path("Json", Some(vec![path("CreateUser", None)]));
    let valid = path("Valid", Some(vec![json_of("CreateUser")]));
    let piped = path("Piped", Some(vec![path("Trim", None), path("Valid", Some(vec![json_of("Patch")]))]));
    assert_eq!(last_of(json.json_payload()), Some("CreateUser".to_string()));
    assert_eq!(last_of(valid.json_payload()), Some("CreateUser".to_string()));
    assert_eq!(last_of(piped.json_payload()), Some("Patch".to_string()));
    assert!(path("Path", Some(vec![path("Uuid", None)])).json_payload().is_none());
    let params = vec![FnParam::Receiver, typed("id", path("Path", Some(vec![path("Uuid", None)]))), typed("body", valid)];
    assert_eq!(last_of(request_payload(&params)), Some("CreateUser".to_string()));
    let ret = path("Result", Some(vec![json_of("UserDto")]));
    assert_eq!(last_of(response_payload(Some(&ret))), Some("UserDto".to_string()));
    assert_eq!(last_of(response_payload(Some(&json_of("UserDto")))), Some("UserDto".to_string()));
    assert!(response_payload(Some(&path("Response", None))).is_none());
    assert!(response_payload(None).is_none());
}

fn json_of(name: &str) -> TypeExpr {
    path("Json", Some(vec![path(name, None)]))
}

#[test]
fn layer_keys_are_listed_once_in_first_seen_order() {
    assert_eq!(nestrs::codegen::layer_inject_keys(&vec![7, 3, 7, 9, 3]), vec![7, 3, 9]);
    assert_eq!(nestrs::codegen::layer_inject_keys(&vec![]), Vec::<u64>::new());
}

#[test]
fn route_table_lists_each_route_method_in_order() {
    let api = |tags: Vec<&str>| ApiMeta {
        summary: Some("s".to_string()),
        description: None,
        tags: tags.into_iter().map(|t| t.to_string()).collect(),
    };
    let methods = vec![
        HandlerInfo {
            handler: "list".to_string(),
            route: Some((HttpVerb::Get, "/users".to_string())),
            api: api(vec![]),
            request_schema: false,
            response_schema: true,
            shaped: false,
        },
        HandlerInfo {
            handler: "helper".to_string(),
            route: None,
            api: api(vec![]),
            request_schema: false,
            response_schema: false,
            shaped: false,
        },
        HandlerInfo {
            handler: "create".to_string(),
            route: Some((HttpVerb::Post, "/users".to_string())),
            api: api(vec!["admin"]),
            request_schema: true,
            response_schema: true,
            shaped: true,
        },
    ];
    let metas = route_metas(methods, &"Users".to_string());
    assert_eq!(metas.len(), 2);
    assert_eq!(metas[0].handler, "list");
    assert_eq!(metas[0].verb, HttpVerb::Get);
    assert_eq!(metas[0].tags, vec!["Users".to_string()]);
    assert!(metas[0].response_schema);
    assert_eq!(metas[1].handler, "create");
    assert_eq!(metas[1].path, "/users");
    assert_eq!(metas[1].tags, vec!["admin".to_string()]);
    assert!(metas[1].request_schema);
    assert!(!metas[1].response_schema);
}

#[test]
fn resolver_injects_struct_keys_then_guards_then_field_services() {
    let keys = nestrs::codegen::resolver_injected(vec![1, 2], &vec![5, 5, 6], &vec![9, 5, 9]);
    assert_eq!(keys, vec![1, 2, 5, 6, 9, 5]);
}
