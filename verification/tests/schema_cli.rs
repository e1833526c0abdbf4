use nestrs::schema_cli::{check_verdict, parse_schema_args, schema_path, write_verdict};

fn args(a: &[&str]) -> Vec<String> {
    a.iter().map(|s| s.to_string()).collect()
}

#[test]
fn no_arguments_write_to_the_default_path() {
    let c = parse_schema_args(args(&[])).ok().unwrap();
    assert!(!c.check);
    assert_eq!(schema_path("schema.graphql", c.path_override), "schema.graphql");
}

#[test]
fn check_and_a_path_override() {
    let c = parse_schema_args(args(&["--check", "other.graphql"])).ok().unwrap();
    assert!(c.check);
    assert_eq!(schema_path("schema.graphql", c.path_override), "other.graphql");
}

#[test]
fn an_unknown_flag_is_refused() {
    let e = parse_schema_args(args(&["x.graphql", "--force", "--check"])).err().unwrap();
    assert_eq!(e, "unknown argument `--force` (expected `--check` or a path)");
}

#[test]
fn drift_check_reports_each_outcome() {
    let sdl = "type Query { a: Int }".to_string();
    let up = check_verdict("s.graphql", Ok(sdl.clone()), &sdl);
    assert!(up.success);
    assert_eq!(up.message, "s.graphql is up to date");
    let stale = check_verdict("s.graphql", Ok("old".to_string()), &sdl);
    assert!(!stale.success);
    assert_eq!(stale.message, "s.graphql is out of date — run `just graphql-schema` and commit the result");
    let missing = check_verdict("s.graphql", Err("not found".to_string()), &sdl);
    assert!(!missing.success);
    assert_eq!(missing.message, "cannot read s.graphql: not found — run `just graphql-schema`");
}

#[test]
fn writing_reports_the_outcome() {
    let ok = write_verdict("s.graphql", Ok(()));
    assert!(ok.success);
    assert_eq!(ok.message, "wrote s.graphql");
    let bad = write_verdict("s.graphql", Err("read-only".to_string()));
    assert!(!bad.success);
    assert_eq!(bad.message, "cannot write s.graphql: read-only");
}
