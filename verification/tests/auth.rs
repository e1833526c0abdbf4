use nestrs::auth::{
    bearer_token, classify_verify_error, expiry_after, guard_verdict, AuthError, AuthModule, GuardVerdict, JwtOptions,
    JwtService, OAuth2Module, Outcome, SigningAlgorithm,
};

fn claims_for(jwt: &JwtService) -> serde_json::Value {
    let mut claims = serde_json::Map::new();
    claims.insert("sub".to_string(), serde_json::Value::from("u1"));
    claims.insert("exp".to_string(), serde_json::Value::from(jwt.expiry()));
    serde_json::Value::Object(claims)
}

#[test]
fn bearer_token_reads_the_authorization_header() {
    assert_eq!(bearer_token(Some("Bearer abc.def")), Some("abc.def"));
    assert_eq!(bearer_token(Some("Bearer   tok  ")), Some("tok"));
    assert_eq!(bearer_token(Some("Bearer ")), None);
    assert_eq!(bearer_token(Some("Bearer    ")), None);
    assert_eq!(bearer_token(Some("Basic abc")), None);
    assert_eq!(bearer_token(Some("bearer abc")), None);
    assert_eq!(bearer_token(None), None);
}

#[test]
fn auth_errors_render_as_a_bearer_challenge() {
    let c = AuthError::Expired.into_response();
    assert_eq!((c.status, c.www_authenticate.as_str(), c.body.as_str()), (401, "Bearer", "token expired"));
    assert_eq!(AuthError::MissingCredentials.message(), "missing credentials");
    assert_eq!(AuthError::InvalidToken.message(), "invalid token");
    assert_eq!(AuthError::Failed("no such user".to_string()).message(), "authentication failed: no such user");
}

#[test]
fn the_guard_attaches_responds_or_refuses() {
    let ok: Result<Outcome<u32, &str>, AuthError> = Ok(Outcome::Authenticated(7));
    assert!(matches!(guard_verdict(ok), GuardVerdict::Attach(7)));
    let challenge: Result<Outcome<u32, &str>, AuthError> = Ok(Outcome::Challenge("redirect"));
    assert!(matches!(guard_verdict(challenge), GuardVerdict::Respond("redirect")));
    let failed: Result<Outcome<u32, &str>, AuthError> = Err(AuthError::InvalidToken);
    match guard_verdict(failed) {
        GuardVerdict::Refuse(c) => assert_eq!((c.status, c.body.as_str()), (401, "invalid token")),
        _ => panic!("a failure is refused"),
    }
}

#[test]
fn jwt_options_default_to_hs256_and_an_hour() {
    let o = JwtOptions::new("s3cret".to_string());
    assert_eq!(o.algorithm, SigningAlgorithm::HS256);
    assert_eq!(o.expires_in, 3600);
    let setup = AuthModule::for_root(o);
    assert_eq!(setup.options.secret, "s3cret");
    assert_eq!(OAuth2Module::for_root(5u8).config, 5);
}

#[test]
fn a_signed_token_verifies_back_to_its_claims() {
    let jwt = JwtService::new(JwtOptions::new("s3cret".to_string()));
    let claims = claims_for(&jwt);
    let token = jwt.sign(&claims).ok().expect("HMAC signing succeeds");
    let back = jwt.verify(&token).ok().expect("a fresh token verifies");
    assert_eq!(back, claims);
}

#[test]
fn a_tampered_or_foreign_token_is_invalid() {
    let jwt = JwtService::new(JwtOptions::new("s3cret".to_string()));
    let other = JwtService::new(JwtOptions::new("other".to_string()));
    let claims = claims_for(&jwt);
    let token = other.sign(&claims).ok().unwrap();
    assert!(matches!(jwt.verify(&token), Err(AuthError::InvalidToken)));
    assert!(matches!(jwt.verify("garbage"), Err(AuthError::InvalidToken)));
}

#[test]
fn an_expired_token_is_reported_as_expired() {
    let jwt = JwtService::new(JwtOptions::new("s3cret".to_string()));
    let mut claims = serde_json::Map::new();
    claims.insert("sub".to_string(), serde_json::Value::from("u1"));
    claims.insert("exp".to_string(), serde_json::Value::from(1_000u64));
    let token = jwt.sign(&serde_json::Value::Object(claims)).ok().unwrap();
    assert!(matches!(jwt.verify(&token), Err(AuthError::Expired)));
    assert!(matches!(classify_verify_error(true), AuthError::Expired));
    assert!(matches!(classify_verify_error(false), AuthError::InvalidToken));
}

#[test]
fn expiry_is_now_plus_the_lifetime() {
    assert_eq!(expiry_after(1_000, 3_600), 4_600);
    assert_eq!(expiry_after(u64::MAX - 1, 10), u64::MAX);
    let jwt = JwtService::new(JwtOptions::new("s".to_string()));
    assert!(jwt.expiry() > 3_600);
}

#[test]
fn a_signed_token_is_three_base64url_segments() {
    let jwt = JwtService::new(JwtOptions::new("s3cret".to_string()));
    let token = jwt.sign(&claims_for(&jwt)).ok().unwrap();
    let parts: Vec<&str> = token.split('.').collect();
    assert_eq!(parts.len(), 3);
    for part in parts {
        assert!(part.chars().all(|c| c.is_ascii_alphanumeric() || c == '-' || c == '_'));
    }
    assert!(matches!(jwt.verify("no-dots-here"), Err(AuthError::InvalidToken)));
    assert!(matches!(jwt.verify("one.dot"), Err(AuthError::InvalidToken)));
}

#[test]
fn only_hmac_algorithms_sign_and_verify_with_a_secret() {
    let mut options = JwtOptions::new("s3cret".to_string());
    options.algorithm = SigningAlgorithm::RS256;
    let rsa = JwtService::new(options);
    assert!(matches!(rsa.sign(&serde_json::Value::Null), Err(AuthError::Failed(_))));
    let hmac = JwtService::new(JwtOptions::new("s3cret".to_string()));
    let token = hmac.sign(&claims_for(&hmac)).ok().unwrap();
    assert!(matches!(rsa.verify(&token), Err(AuthError::InvalidToken)));
    let mut options = JwtOptions::new("s3cret".to_string());
    options.algorithm = SigningAlgorithm::HS384;
    assert!(JwtService::new(options).sign(&serde_json::Value::Null).is_ok());
}

#[test]
fn verification_uses_the_configured_secret_and_algorithm_without_audience() {
    let jwt = JwtService::new(JwtOptions::new("s3cret".to_string()));
    let request = jwt.decode_request();
    assert_eq!(request.algorithm, SigningAlgorithm::HS256);
    assert_eq!(request.secret, "s3cret");
    assert!(!request.validate_aud);
    let mut claims = serde_json::Map::new();
    claims.insert("aud".to_string(), serde_json::Value::from("someone"));
    claims.insert("exp".to_string(), serde_json::Value::from(jwt.expiry()));
    let claims = serde_json::Value::Object(claims);
    let token = jwt.sign(&claims).ok().unwrap();
    assert_eq!(jwt.verify(&token).ok().unwrap(), claims);
}
