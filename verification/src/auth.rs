//! Authentication: establishing who the caller is.
//!
//! A bearer credential is read from the `Authorization` header; tokens are signed
//! and verified with JSON Web Tokens; a strategy's verdict becomes the guard's
//! answer; an authentication failure is answered with a `401` challenge.

use vstd::prelude::*;
use vstd::string::StringExecFns;
use vstd::string::StrSliceExecFns;
use jsonwebtoken::errors::ErrorKind;
use jsonwebtoken::Algorithm;


verus! {

/// Why authentication did not establish an identity.
pub enum AuthError {
    /// No credential was presented.
    MissingCredentials,
    /// A credential was presented but did not verify.
    InvalidToken,
    /// The credential verified but is past its expiry.
    Expired,
    /// Anything strategy-specific; the text is for logs, not the client.
    Failed(String),
}

/// The text an authentication failure is rendered with.
pub open spec fn auth_error_text(e: AuthError) -> Seq<char> {
    match e {
        AuthError::MissingCredentials => "missing credentials"@,
        AuthError::InvalidToken => "invalid token"@,
        AuthError::Expired => "token expired"@,
        AuthError::Failed(detail) => "authentication failed: "@ + detail@,
    }
}

/// The `401` challenge an authentication failure is answered with.
pub struct Challenge {
    pub status: u16,
    /// The `WWW-Authenticate` header.
    pub www_authenticate: String,
    pub body: String,
}

impl AuthError {
    /// The text of this failure.
    pub fn message(&self) -> (s: String)
        ensures
            s@ == auth_error_text(*self),
    {
        match self {
            AuthError::MissingCredentials => {
                proof {
                    reveal_strlit("missing credentials");
                }
                "missing credentials".to_owned()
            },
            AuthError::InvalidToken => {
                proof {
                    reveal_strlit("invalid token");
                }
                "invalid token".to_owned()
            },
            AuthError::Expired => {
                proof {
                    reveal_strlit("token expired");
                }
                "token expired".to_owned()
            },
            AuthError::Failed(detail) => {
                let mut s = String::from_str("authentication failed: ");
                s.append(detail.as_str());
                proof {
                    reveal_strlit("authentication failed: ");
                }
                s
            },
        }
    }

    /// The answer to the request: `401`, a `Bearer` challenge, and the failure's
    /// text.
    pub fn into_response(&self) -> (c: Challenge)
        ensures
            c.status == 401,
            c.www_authenticate@ == "Bearer"@,
            c.body@ == auth_error_text(*self),
    {
        Challenge { status: 401, www_authenticate: "Bearer".to_owned(), body: self.message() }
    }
}

/// The characters `char::is_whitespace` accepts (Unicode `White_Space`).
pub open spec fn is_space(c: char) -> bool {
    let n = c as u32;
    (0x09 <= n <= 0x0d) || n == 0x20 || n == 0x85 || n == 0xa0 || n == 0x1680 || (0x2000 <= n
        <= 0x200a) || n == 0x2028 || n == 0x2029 || n == 0x202f || n == 0x205f || n == 0x3000
}

fn space(c: char) -> (b: bool)
    ensures
        b == is_space(c),
{
    let n = c as u32;
    (0x09 <= n && n <= 0x0d) || n == 0x20 || n == 0x85 || n == 0xa0 || n == 0x1680 || (0x2000 <= n
        && n <= 0x200a) || n == 0x2028 || n == 0x2029 || n == 0x202f || n == 0x205f || n == 0x3000
}

/// `s` without its leading whitespace.
pub open spec fn trim_start(s: Seq<char>) -> Seq<char>
    decreases s.len(),
{
    if s.len() > 0 && is_space(s[0]) {
        trim_start(s.drop_first())
    } else {
        s
    }
}

/// `s` without its trailing whitespace.
pub open spec fn trim_end(s: Seq<char>) -> Seq<char>
    decreases s.len(),
{
    if s.len() > 0 && is_space(s.last()) {
        trim_end(s.drop_last())
    } else {
        s
    }
}

/// The token of an `Authorization` header value: what follows `Bearer `, without
/// surrounding whitespace, when that is not empty.
pub open spec fn bearer_of(value: Seq<char>) -> Option<Seq<char>> {
    if value.len() >= 7 && value.subrange(0, 7) == "Bearer "@ {
        let token = trim_end(trim_start(value.subrange(7, value.len() as int)));
        if token.len() > 0 {
            Some(token)
        } else {
            None
        }
    } else {
        None
    }
}

proof fn lemma_trim_start_skip(s: Seq<char>, i: int)
    requires
        0 <= i <= s.len(),
        forall|k: int| 0 <= k < i ==> is_space(#[trigger] s[k]),
    ensures
        trim_start(s) == trim_start(s.skip(i)),
    decreases i,
{
    if i > 0 {
        assert(s.skip(1) =~= s.drop_first());
        lemma_trim_start_skip(s.drop_first(), i - 1);
        assert(s.drop_first().skip(i - 1) =~= s.skip(i));
    } else {
        assert(s.skip(0) =~= s);
    }
}

proof fn lemma_trim_end_take(s: Seq<char>, j: int)
    requires
        0 <= j <= s.len(),
        forall|k: int| j <= k < s.len() ==> is_space(#[trigger] s[k]),
    ensures
        trim_end(s) == trim_end(s.take(j)),
    decreases s.len() - j,
{
    if j < s.len() {
        assert(s.drop_last() =~= s.take(s.len() - 1));
        lemma_trim_end_take(s.drop_last(), j);
        assert(s.drop_last().take(j) =~= s.take(j));
    } else {
        assert(s.take(j) =~= s);
    }
}

/// Pull the token out of an `Authorization: Bearer <token>` header value, if
/// present and not empty.
pub fn bearer_token(authorization: Option<&str>) -> (t: Option<&str>)
    ensures
        match authorization {
            None => t is None,
            Some(v) => match bearer_of(v@) {
                None => t is None,
                Some(token) => t matches Some(s) && s@ == token,
            },
        },
{
    match authorization {
        None => None,
        Some(value) => bearer_in(value),
    }
}

fn bearer_in(value: &str) -> (t: Option<&str>)
    ensures
        match bearer_of(value@) {
            None => t is None,
            Some(token) => t matches Some(s) && s@ == token,
        },
{
    let prefix = "Bearer ";
    proof {
        reveal_strlit("Bearer ");
    }
    let n = value.unicode_len();
    if n < 7 {
        return None;
    }
    let mut p: usize = 0;
    while p < 7
        invariant
            n == value@.len(),
            n >= 7,
            prefix@ == "Bearer "@,
            prefix@.len() == 7,
            p <= 7,
            forall|k: int| 0 <= k < p ==> value@[k] == prefix@[k],
        decreases 7 - p,
    {
        if value.get_char(p) != prefix.get_char(p) {
            assert(value@.subrange(0, 7)[p as int] != prefix@[p as int]);
            assert(value@.subrange(0, 7) != "Bearer "@);
            assert(bearer_of(value@) is None);
            return None;
        }
        p = p + 1;
    }
    assert(value@.subrange(0, 7) =~= "Bearer "@);
    let ghost rest = value@.subrange(7, n as int);
    let mut i: usize = 7;
    while i < n && space(value.get_char(i))
        invariant
            7 <= i <= n,
            n == value@.len(),
            rest == value@.subrange(7, n as int),
            forall|k: int| 0 <= k < i - 7 ==> is_space(#[trigger] rest[k]),
        decreases n - i,
    {
        i = i + 1;
    }
    proof {
        lemma_trim_start_skip(rest, i - 7);
        assert(rest.skip(i - 7) =~= value@.subrange(i as int, n as int));
        if i < n {
            assert(!is_space(value@.subrange(i as int, n as int)[0]));
        }
    }
    let ghost front = value@.subrange(i as int, n as int);
    assert(trim_start(rest) == front);
    let mut j: usize = n;
    while j > i && space(value.get_char(j - 1))
        invariant
            i <= j <= n,
            n == value@.len(),
            front == value@.subrange(i as int, n as int),
            forall|k: int| j - i <= k < front.len() ==> is_space(#[trigger] front[k]),
        decreases j,
    {
        j = j - 1;
    }
    proof {
        lemma_trim_end_take(front, j - i);
        assert(front.take(j - i) =~= value@.subrange(i as int, j as int));
        if j > i {
            assert(!is_space(value@.subrange(i as int, j as int).last()));
        }
    }
    if j == i {
        assert(value@.subrange(i as int, j as int).len() == 0);
        return None;
    }
    Some(value.substring_char(i, j))
}

/// What a strategy decided about a request.
pub enum Outcome<P, R> {
    /// Identity established: the principal is attached to the request.
    Authenticated(P),
    /// The client must act first (a redirect to an identity provider, a `401`):
    /// the request is answered with this response.
    Challenge(R),
}

/// What the authentication guard does with a request.
pub enum GuardVerdict<P, R> {
    /// Attach the principal and let the request through.
    Attach(P),
    /// Answer with the strategy's own response.
    Respond(R),
    /// Answer with the failure's `401` challenge.
    Refuse(Challenge),
}

/// The authentication guard's decision on a strategy's verdict.
pub fn guard_verdict<P, R>(result: Result<Outcome<P, R>, AuthError>) -> (v: GuardVerdict<P, R>)
    ensures
        result matches Ok(Outcome::Authenticated(p)) ==> v == GuardVerdict::<P, R>::Attach(p),
        result matches Ok(Outcome::Challenge(r)) ==> v == GuardVerdict::<P, R>::Respond(r),
        result matches Err(e) ==> (v matches GuardVerdict::Refuse(c) && c.status == 401
            && c.www_authenticate@ == "Bearer"@ && c.body@ == auth_error_text(e)),
{
    match result {
        Ok(Outcome::Authenticated(p)) => GuardVerdict::Attach(p),
        Ok(Outcome::Challenge(r)) => GuardVerdict::Respond(r),
        Err(e) => GuardVerdict::Refuse(e.into_response()),
    }
}

/// How JSON Web Tokens are signed.
#[derive(Clone, Copy, Debug, PartialEq, Eq, Structural)]
pub enum SigningAlgorithm {
    HS256,
    HS384,
    HS512,
    ES256,
    ES384,
    RS256,
    RS384,
    RS512,
    PS256,
    PS384,
    PS512,
    EdDSA,
}

/// How tokens are signed: the shared secret, the algorithm (only the HMAC ones
/// key off a secret), and how long, in seconds, a fresh token stays valid.
pub struct JwtOptions {
    pub secret: String,
    pub algorithm: SigningAlgorithm,
    pub expires_in: u64,
}

impl JwtOptions {
    /// `HS256`, one-hour expiry.
    pub fn new(secret: String) -> (o: JwtOptions)
        ensures
            o.secret == secret,
            o.algorithm == SigningAlgorithm::HS256,
            o.expires_in == 3600,
    {
        JwtOptions { secret, algorithm: SigningAlgorithm::HS256, expires_in: 3600 }
    }
}

#[verifier::external_type_specification]
#[verifier::external_body]
pub struct ExJwtError(jsonwebtoken::errors::Error);

#[verifier::external_type_specification]
#[verifier::external_body]
pub struct ExJsonValue(serde_json::Value);

/// The HMAC algorithms: the only ones that key off a shared secret.
pub open spec fn is_hmac(algorithm: SigningAlgorithm) -> bool {
    algorithm is HS256 || algorithm is HS384 || algorithm is HS512
}

/// A character of the URL-safe base64 alphabet.
pub open spec fn is_base64url_char(c: char) -> bool {
    ('A' <= c && c <= 'Z') || ('a' <= c && c <= 'z') || ('0' <= c && c <= '9') || c == '-' || c == '_'
}

/// Every character of `s` is in the URL-safe base64 alphabet.
pub open spec fn is_base64url(s: Seq<char>) -> bool {
    forall|k: int| 0 <= k < s.len() ==> is_base64url_char(#[trigger] s[k])
}

/// The header segment `jsonwebtoken` writes for a token signed with `algorithm`:
/// the URL-safe unpadded base64 of the JSON of `Header::new(algorithm)`.
pub uninterp spec fn jwt_header_segment(algorithm: SigningAlgorithm) -> Seq<char>;

/// The payload segment `jsonwebtoken` writes for `claims`: the URL-safe unpadded
/// base64 of their JSON text.
pub uninterp spec fn jwt_payload_segment(claims: serde_json::Value) -> Seq<char>;

/// The signature segment `jsonwebtoken` computes for the signed part `message` of a
/// token (its header and payload segments joined by a dot) with `algorithm`, keyed
/// by the HMAC key of `secret`: the URL-safe unpadded base64 of the MAC.
pub uninterp spec fn jwt_signature(message: Seq<char>, algorithm: SigningAlgorithm, secret: Seq<char>) -> Seq<char>;

/// The claims `jsonwebtoken` reads from a payload segment: the JSON value its
/// URL-safe base64 decodes to.
pub uninterp spec fn jwt_claims(segment: Seq<char>) -> serde_json::Value;

/// The signed part of the token for `claims`: header and payload segments joined
/// by a dot.
pub open spec fn signing_input(algorithm: SigningAlgorithm, claims: serde_json::Value) -> Seq<char> {
    jwt_header_segment(algorithm) + seq!['.'] + jwt_payload_segment(claims)
}

/// The token for `claims` signed with `algorithm` and `secret`: the signed part, a
/// dot and its signature.
pub open spec fn token_for(algorithm: SigningAlgorithm, secret: Seq<char>, claims: serde_json::Value) -> Seq<char> {
    signing_input(algorithm, claims) + seq!['.'] + jwt_signature(signing_input(algorithm, claims), algorithm, secret)
}

/// The three segments of that token are URL-safe base64 text.
pub open spec fn token_segments_base64(algorithm: SigningAlgorithm, secret: Seq<char>, claims: serde_json::Value) -> bool {
    &&& is_base64url(jwt_header_segment(algorithm))
    &&& is_base64url(jwt_payload_segment(claims))
    &&& is_base64url(jwt_signature(signing_input(algorithm, claims), algorithm, secret))
}

/// `j` is the last dot of `t` and `i` the last dot before it.
pub open spec fn last_two_dots(t: Seq<char>, i: int, j: int) -> bool {
    &&& 0 <= i < j < t.len()
    &&& t[i] == '.'
    &&& t[j] == '.'
    &&& forall|k: int| i < k < t.len() && k != j ==> t[k] != '.'
}

/// `c` is what verifying `t` with `algorithm` and `secret` reads: split at its last
/// two dots, `t` ends in the signature of what precedes the last one, and `c` are
/// the claims decoded from the segment between them.
pub open spec fn reads_claims(t: Seq<char>, algorithm: SigningAlgorithm, secret: Seq<char>, c: serde_json::Value) -> bool {
    exists|i: int, j: int|
        #[trigger] last_two_dots(t, i, j) && c == jwt_claims(t.subrange(i + 1, j)) && t.subrange(j + 1, t.len() as int)
            == jwt_signature(t.subrange(0, j), algorithm, secret)
}

/// `jsonwebtoken::encode` with a header naming `algorithm` and the HMAC key of
/// `secret` (`Header::new`, `EncodingKey::from_secret`): it succeeds exactly for
/// an HMAC algorithm (otherwise the key's family does not match), and the token is
/// the base64 header and claims segments joined by a dot, then a dot and the
/// signature of that part; each segment is URL-safe unpadded base64.
#[verifier::external_body]
fn jwt_encode(
    algorithm: SigningAlgorithm,
    secret: &str,
    claims: &serde_json::Value,
) -> (r: Result<String, jsonwebtoken::errors::Error>)
    ensures
        is_hmac(algorithm) <==> r is Ok,
        r matches Ok(t) ==> t@ == jwt_header_segment(algorithm) + seq!['.'] + jwt_payload_segment(*claims) + seq!['.']
            + jwt_signature(jwt_header_segment(algorithm) + seq!['.'] + jwt_payload_segment(*claims), algorithm, secret@),
        r is Ok ==> token_segments_base64(algorithm, secret@, *claims),
{
    let alg = match algorithm {
        SigningAlgorithm::HS256 => Algorithm::HS256, SigningAlgorithm::HS384 => Algorithm::HS384,
        SigningAlgorithm::HS512 => Algorithm::HS512, SigningAlgorithm::ES256 => Algorithm::ES256,
        SigningAlgorithm::ES384 => Algorithm::ES384, SigningAlgorithm::RS256 => Algorithm::RS256,
        SigningAlgorithm::RS384 => Algorithm::RS384, SigningAlgorithm::RS512 => Algorithm::RS512,
        SigningAlgorithm::PS256 => Algorithm::PS256, SigningAlgorithm::PS384 => Algorithm::PS384,
        SigningAlgorithm::PS512 => Algorithm::PS512, SigningAlgorithm::EdDSA => Algorithm::EdDSA,
    };
    let key = jsonwebtoken::EncodingKey::from_secret(secret.as_bytes());
    jsonwebtoken::encode(&jsonwebtoken::Header::new(alg), claims, &key)
}

/// What a token is verified against: the algorithm, the shared secret, and whether
/// the `aud` claim is checked.
pub struct DecodeRequest {
    pub algorithm: SigningAlgorithm,
    pub secret: String,
    pub validate_aud: bool,
}

/// `jsonwebtoken::decode` of `token` with the HMAC key of the request's secret and
/// `Validation::new` of its algorithm, `validate_aud` set as requested; a failure
/// comes back as whether it was an expired signature (`ErrorKind::ExpiredSignature`).
/// The token is split at its last two dots: it is accepted only if it ends in the
/// signature of what precedes the last one, and the claims are those decoded from
/// the segment between them. With a non-HMAC algorithm the key never fits and every
/// token is refused. Whether a well-signed token is accepted depends on its claims
/// and on the clock (`exp`), and is not stated.
#[verifier::external_body]
fn jwt_decode(token: &str, request: &DecodeRequest) -> (r: Result<serde_json::Value, bool>)
    ensures
        r matches Ok(c) ==> exists|i: int, j: int|
            #[trigger] last_two_dots(token@, i, j) && c == jwt_claims(token@.subrange(i + 1, j)) && token@.subrange(
                j + 1,
                token@.len() as int,
            ) == jwt_signature(token@.subrange(0, j), request.algorithm, request.secret@),
        !is_hmac(request.algorithm) ==> r matches Err(false),
{
    let alg = match request.algorithm {
        SigningAlgorithm::HS256 => Algorithm::HS256, SigningAlgorithm::HS384 => Algorithm::HS384,
        SigningAlgorithm::HS512 => Algorithm::HS512, SigningAlgorithm::ES256 => Algorithm::ES256,
        SigningAlgorithm::ES384 => Algorithm::ES384, SigningAlgorithm::RS256 => Algorithm::RS256,
        SigningAlgorithm::RS384 => Algorithm::RS384, SigningAlgorithm::RS512 => Algorithm::RS512,
        SigningAlgorithm::PS256 => Algorithm::PS256, SigningAlgorithm::PS384 => Algorithm::PS384,
        SigningAlgorithm::PS512 => Algorithm::PS512, SigningAlgorithm::EdDSA => Algorithm::EdDSA,
    };
    let mut validation = jsonwebtoken::Validation::new(alg);
    validation.validate_aud = request.validate_aud;
    let key = jsonwebtoken::DecodingKey::from_secret(request.secret.as_bytes());
    jsonwebtoken::decode::<serde_json::Value>(token, &key, &validation)
        .map(|data| data.claims)
        .map_err(|e| matches!(e.kind(), ErrorKind::ExpiredSignature))
}

/// The text of a `jsonwebtoken` error (its `Display`).
#[verifier::external_body]
fn jwt_error_text(e: &jsonwebtoken::errors::Error) -> String {
    e.to_string()
}

/// `jsonwebtoken::get_current_timestamp`: the current Unix time in seconds.
#[verifier::external_body]
fn current_timestamp() -> u64 {
    jsonwebtoken::get_current_timestamp()
}

/// Signs and verifies the application's tokens with the configured secret and
/// algorithm.
pub struct JwtService {
    secret: String,
    algorithm: SigningAlgorithm,
    expires_in: u64,
}

/// How a failed verification is reported: an expired token apart from every
/// other failure.
pub open spec fn verify_failure(expired: bool) -> AuthError {
    if expired {
        AuthError::Expired
    } else {
        AuthError::InvalidToken
    }
}

impl JwtService {
    /// The shared secret tokens are signed and verified with.
    pub closed spec fn secret(&self) -> Seq<char> {
        self.secret@
    }

    /// The algorithm tokens are signed and verified with.
    pub closed spec fn algorithm(&self) -> SigningAlgorithm {
        self.algorithm
    }

    /// The lifetime of a freshly minted token, in seconds.
    pub closed spec fn lifetime(&self) -> u64 {
        self.expires_in
    }

    /// Take the secret, algorithm and lifetime from the options.
    pub fn new(options: JwtOptions) -> (s: JwtService)
        ensures
            s.secret() == options.secret@,
            s.algorithm() == options.algorithm,
            s.lifetime() == options.expires_in,
    {
        JwtService { secret: options.secret, algorithm: options.algorithm, expires_in: options.expires_in }
    }

    /// Sign `claims` into a compact token with the configured algorithm and secret;
    /// a signing failure is reported as `Failed` with the crate's text. Signing
    /// succeeds exactly when the algorithm is an HMAC one.
    pub fn sign(&self, claims: &serde_json::Value) -> (r: Result<String, AuthError>)
        ensures
            is_hmac(self.algorithm()) <==> r is Ok,
            r matches Ok(t) ==> t@ == token_for(self.algorithm(), self.secret(), *claims) && token_segments_base64(
                self.algorithm(),
                self.secret(),
                *claims,
            ),
            r matches Err(e) ==> e is Failed,
    {
        match jwt_encode(self.algorithm, self.secret.as_str(), claims) {
            Ok(token) => Ok(token),
            Err(e) => Err(AuthError::Failed(jwt_error_text(&e))),
        }
    }

    /// What a token is verified against: the configured algorithm and secret, with
    /// no audience check.
    pub fn decode_request(&self) -> (q: DecodeRequest)
        ensures
            q.algorithm == self.algorithm(),
            q.secret@ == self.secret(),
            !q.validate_aud,
    {
        DecodeRequest { algorithm: self.algorithm, secret: self.secret.clone(), validate_aud: false }
    }

    /// Verify a token against [`decode_request`](Self::decode_request) and read its
    /// claims: an expired token is `Expired`, any other failure `InvalidToken`.
    pub fn verify(&self, token: &str) -> (r: Result<serde_json::Value, AuthError>)
        ensures
            r matches Ok(c) ==> reads_claims(token@, self.algorithm(), self.secret(), c),
            !is_hmac(self.algorithm()) ==> (r matches Err(e) && e is InvalidToken),
            r matches Err(e) ==> (e is Expired || e is InvalidToken),
    {
        let request = self.decode_request();
        match jwt_decode(token, &request) {
            Ok(claims) => Ok(claims),
            Err(expired) => Err(classify_verify_error(expired)),
        }
    }

    /// The expiry to set on a token minted now: the current Unix time plus the
    /// configured lifetime (saturating at the largest timestamp).
    pub fn expiry(&self) -> (t: u64)
        ensures
            t >= self.lifetime(),
    {
        expiry_after(current_timestamp(), self.expires_in)
    }
}

/// Verifying a token a service signed reads back the claims it signed: with the
/// same algorithm and secret, the claims verification returns are those decoded
/// from the payload segment signing wrote for `claims`.
pub proof fn lemma_signed_claims_read_back(
    algorithm: SigningAlgorithm,
    secret: Seq<char>,
    claims: serde_json::Value,
    c: serde_json::Value,
)
    requires
        token_segments_base64(algorithm, secret, claims),
        reads_claims(token_for(algorithm, secret, claims), algorithm, secret, c),
    ensures
        c == jwt_claims(jwt_payload_segment(claims)),
{
    let h = jwt_header_segment(algorithm);
    let p = jwt_payload_segment(claims);
    let g = jwt_signature(signing_input(algorithm, claims), algorithm, secret);
    let t = token_for(algorithm, secret, claims);
    let a = h.len() as int;
    let b = a + 1 + p.len();
    assert(t =~= h + seq!['.'] + p + seq!['.'] + g);
    assert(t[a] == '.');
    assert(t[b] == '.');
    let (i, j) = choose|i: int, j: int|
        #[trigger] last_two_dots(t, i, j) && c == jwt_claims(t.subrange(i + 1, j)) && t.subrange(j + 1, t.len() as int)
            == jwt_signature(t.subrange(0, j), algorithm, secret);
    if j > b {
        assert(t[j] == g[j - b - 1]);
        assert(is_base64url_char(g[j - b - 1]));
        assert(false);
    }
    if j < b {
        assert(i < b && b != j);
        assert(false);
    }
    assert(j == b);
    if i < a {
        assert(i < a && a != j);
        assert(false);
    }
    if i > a {
        assert(t[i] == p[i - a - 1]);
        assert(is_base64url_char(p[i - a - 1]));
        assert(false);
    }
    assert(t.subrange(i + 1, j) =~= p);
}

/// The failure a verification reports, by whether the token had expired.
pub fn classify_verify_error(expired: bool) -> (e: AuthError)
    ensures
        e == verify_failure(expired),
{
    if expired {
        AuthError::Expired
    } else {
        AuthError::InvalidToken
    }
}

/// The expiry of a token minted at `now` with this lifetime, saturating at the
/// largest timestamp.
pub fn expiry_after(now: u64, lifetime: u64) -> (t: u64)
    ensures
        now + lifetime <= u64::MAX ==> t == now + lifetime,
        now + lifetime > u64::MAX ==> t == u64::MAX,
{
    if lifetime > u64::MAX - now {
        u64::MAX
    } else {
        now + lifetime
    }
}

/// Makes a configured [`JwtService`] injectable everywhere; always imported through
/// [`AuthModule::for_root`].
pub struct AuthModule;

/// The configured form of [`AuthModule`].
pub struct AuthSetup {
    pub options: JwtOptions,
}

impl AuthModule {
    /// Configure token signing at the import site.
    pub fn for_root(options: JwtOptions) -> (s: AuthSetup)
        ensures
            s.options == options,
    {
        AuthSetup { options }
    }
}

/// Provides a configured OAuth2 client for one provider; imported through
/// [`OAuth2Module::for_root`].
pub struct OAuth2Module;

/// The configured form of [`OAuth2Module`], carrying the provider configuration.
pub struct OAuth2Setup<C> {
    pub config: C,
}

impl OAuth2Module {
    /// Configure the OAuth2 provider at the import site.
    pub fn for_root<C>(config: C) -> (s: OAuth2Setup<C>)
        ensures
            s.config == config,
    {
        OAuth2Setup { config }
    }
}

} // verus!
