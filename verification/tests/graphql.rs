use nestrs::graphql::{endpoint_plan, sdl_written_message, first_answer, kind_has_members, members_of, merge_fields, GraphqlModule, GraphqlOptions, ResolverKind};

#[test]
fn default_options_serve_graphql_with_the_playground() {
    let o = GraphqlOptions::default();
    assert_eq!(o.path, "/graphql");
    assert!(o.playground);
    assert_eq!(o.schema_path, "schema.graphql");
    assert!(!o.emit_sdl);
    let setup = GraphqlModule::for_root(GraphqlOptions { path: "/gql".to_string(), ..GraphqlOptions::default() });
    assert_eq!(setup.options.path, "/gql");
    assert_eq!(GraphqlModule::default_options().path, "/graphql");
}

#[test]
fn roots_are_made_of_the_members_of_their_kind() {
    let kinds = [ResolverKind::Query, ResolverKind::Mutation, ResolverKind::Query];
    assert_eq!(members_of(&kinds, ResolverKind::Query), vec![0, 2]);
    assert_eq!(members_of(&kinds, ResolverKind::Mutation), vec![1]);
    assert!(kind_has_members(&kinds, ResolverKind::Mutation));
    assert!(!kind_has_members(&[ResolverKind::Query], ResolverKind::Mutation));
}

#[test]
fn merged_fields_keep_first_position_and_last_value() {
    let a = vec![("users".to_string(), 1), ("me".to_string(), 2)];
    let b = vec![("posts".to_string(), 3), ("users".to_string(), 4)];
    assert_eq!(
        merge_fields(vec![a, b]),
        vec![("users".to_string(), 4), ("me".to_string(), 2), ("posts".to_string(), 3)]
    );
}

#[test]
fn the_first_member_that_answers_resolves_the_field() {
    assert_eq!(first_answer(vec![None, Some(2), Some(3)]), Some(2));
    assert_eq!(first_answer::<u8>(vec![None, None]), None);
}

#[test]
fn the_endpoint_is_mounted_as_configured() {
    let plan = endpoint_plan(GraphqlOptions::default());
    assert_eq!(plan.path, "/graphql");
    assert!(plan.playground);
    assert_eq!(plan.emit_sdl_to, None);
    let emitting = endpoint_plan(GraphqlOptions { emit_sdl: true, playground: false, ..GraphqlOptions::default() });
    assert_eq!(emitting.emit_sdl_to, Some("schema.graphql".to_string()));
    assert!(!emitting.playground);
    assert_eq!(sdl_written_message("schema.graphql", Ok(())), "wrote GraphQL SDL to schema.graphql");
    assert_eq!(
        sdl_written_message("schema.graphql", Err("denied".to_string())),
        "failed to write GraphQL SDL to schema.graphql: denied"
    );
}
