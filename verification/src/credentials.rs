//! Credentials of the identity plugin: Argon2 password hashes and signed
//! JSON Web Tokens (HS256).
use vstd::prelude::*;
use crate::identity::{Claims, IdentityError};
use crate::messaging_types::{now_millis, random_uuid};
use serde_json::Value;
use vstd::string::StringSliceAdditionalSpecFns;

verus! {

/// What Argon2 says of `password` against the PHC string `hash`: `None`
/// when the string is no password hash, otherwise whether the password
/// matches it.
pub uninterp spec fn argon2_verdict(password: Seq<u8>, hash: Seq<char>) -> Option<bool>;

/// Hashes `password` with Argon2 (default parameters) and a fresh random
/// salt from the operating system (`SaltString::generate`,
/// `PasswordHasher::hash_password`), as a PHC string. Claimed: a hash that
/// is returned verifies for the same password, which is what
/// `PasswordVerifier::verify_password` does with the salt and parameters
/// stored in the hash; and hashing succeeds for any password of at most
/// `argon2::MAX_PWD_LEN` (2^32 - 1) bytes, the only input check left with
/// default parameters and a generated 16-byte salt. The hash itself
/// depends on the salt and is not stated; neither is the text of an error.
#[verifier::external_body]
fn argon2_hash(password: &[u8]) -> (r: Result<String, String>)
    ensures
        r matches Ok(h) ==> argon2_verdict(password@, h@) == Some(true),
        password@.len() <= 0xFFFF_FFFF ==> r is Ok,
{
    let salt = argon2::password_hash::SaltString::generate(&mut argon2::password_hash::rand_core::OsRng);
    let hasher = argon2::Argon2::default();
    match argon2::PasswordHasher::hash_password(&hasher, password, &salt) {
        Ok(h) => Ok(h.to_string()),
        Err(e) => Err(e.to_string()),
    }
}

/// Parses `hash` as a PHC string (`PasswordHash::new`) and checks
/// `password` against it with Argon2 (`PasswordVerifier::verify_password`).
/// Claimed: the outcome is the named verdict, an error exactly when the
/// string does not parse. The text of the error is not stated.
#[verifier::external_body]
fn argon2_check(password: &[u8], hash: &str) -> (r: Result<bool, String>)
    ensures
        r matches Ok(b) ==> argon2_verdict(password@, hash@) == Some(b),
        r is Err ==> argon2_verdict(password@, hash@) is None,
{
    match argon2::PasswordHash::new(hash) {
        Ok(parsed) => Ok(argon2::PasswordVerifier::verify_password(&argon2::Argon2::default(), password, &parsed).is_ok()),
        Err(e) => Err(e.to_string()),
    }
}

/// Hashes a password for storage.
pub fn hash_password(password: &str) -> (r: Result<String, IdentityError>)
    ensures
        r matches Ok(h) ==> argon2_verdict(password.spec_bytes(), h@) == Some(true),
        r matches Err(e) ==> e is Internal,
        password.spec_bytes().len() <= 0xFFFF_FFFF ==> r is Ok,
{
    match argon2_hash(password.as_bytes()) {
        Ok(h) => Ok(h),
        Err(m) => Err(IdentityError::Internal(m)),
    }
}

/// Whether `password` matches the stored `hash`; an internal error when
/// the stored hash cannot be read.
pub fn verify_password(password: &str, hash: &str) -> (r: Result<bool, IdentityError>)
    ensures
        argon2_verdict(password.spec_bytes(), hash@) matches Some(b) ==> r == Ok::<bool, IdentityError>(b),
        argon2_verdict(password.spec_bytes(), hash@) is None ==> r matches Err(IdentityError::Internal(_)),
{
    match argon2_check(password.as_bytes(), hash) {
        Ok(b) => Ok(b),
        Err(m) => Err(IdentityError::Internal(m)),
    }
}

/// The HS256 token that `jsonwebtoken::encode` makes of the claims with
/// the given secret.
pub uninterp spec fn jwt_encoding(sub: Seq<char>, exp: i64, iat: i64, jti: Seq<char>, token_type: Seq<char>, secret: Seq<char>) -> Seq<char>;

/// Signs the claims with `jsonwebtoken::encode` (default header, HS256,
/// key `EncodingKey::from_secret`); the claims object is written with its
/// fields in the order `sub`, `exp`, `iat`, `jti`, `token_type`. Claimed:
/// the token is the named encoding of the claims and secret, and signing
/// succeeds: the key family matches the header's algorithm, a map of
/// strings and integers always serializes, and HMAC signing cannot fail.
#[verifier::external_body]
fn jwt_encode(claims: &Claims, secret: &str) -> (r: Result<String, String>)
    ensures
        r matches Ok(t) ==> t@ == jwt_encoding(claims.sub@, claims.exp, claims.iat, claims.jti@, claims.token_type@, secret@),
        r is Ok,
{
    let mut m = serde_json::Map::new();
    m.insert("sub".to_string(), Value::from(claims.sub.as_str()));
    m.insert("exp".to_string(), Value::from(claims.exp));
    m.insert("iat".to_string(), Value::from(claims.iat));
    m.insert("jti".to_string(), Value::from(claims.jti.as_str()));
    m.insert("token_type".to_string(), Value::from(claims.token_type.as_str()));
    let key = jsonwebtoken::EncodingKey::from_secret(secret.as_bytes());
    jsonwebtoken::encode(&jsonwebtoken::Header::default(), &m, &key).map_err(|e| e.to_string())
}

/// The claims read from a token, each `None` when missing or of another
/// JSON type: `sub`, `jti`, `token_type` and `role` as text, `exp` and `iat`
/// as integers.
pub type JwtClaimFields = (Option<String>, Option<String>, Option<String>, Option<String>, Option<i64>, Option<i64>);

/// A decoding outcome `d` of `token` with `secret` agrees with signing:
/// when the token is the encoding of some claims with this secret and it
/// is accepted, the claims read are those.
pub open spec fn decode_agrees(token: Seq<char>, secret: Seq<char>, d: Result<JwtClaimFields, (bool, String)>) -> bool {
    forall|sub: Seq<char>, exp: i64, iat: i64, jti: Seq<char>, tt: Seq<char>|
        #[trigger] jwt_encoding(sub, exp, iat, jti, tt, secret) == token && d is Ok ==> {
            let f = d->Ok_0;
            &&& f.0 matches Some(s) && s@ == sub
            &&& f.1 matches Some(s) && s@ == jti
            &&& f.2 matches Some(s) && s@ == tt
            &&& f.4 == Some(exp)
            &&& f.5 == Some(iat)
        }
}

/// What a decoding outcome makes of a token's claims: an expired token is
/// `TokenExpired`, any other refusal `TokenInvalid`; accepted claims with
/// `sub`, `jti`, `token_type`, `exp` and `iat` all present are the claims,
/// otherwise `TokenInvalid`.
pub open spec fn claims_of_decoded(d: Result<JwtClaimFields, (bool, String)>) -> Result<Claims, IdentityError> {
    match d {
        Err((expired, _)) => if expired {
            Err(IdentityError::TokenExpired)
        } else {
            Err(IdentityError::TokenInvalid)
        },
        Ok((Some(sub), Some(jti), Some(token_type), _, Some(exp), Some(iat))) => Ok(Claims { sub, exp, iat, jti, token_type }),
        Ok(_) => Err(IdentityError::TokenInvalid),
    }
}

/// The claims a decoding outcome gives (see `claims_of_decoded`).
pub fn claims_from_decoded(d: Result<JwtClaimFields, (bool, String)>) -> (r: Result<Claims, IdentityError>)
    ensures
        r == claims_of_decoded(d),
{
    match d {
        Err((expired, _)) => {
            if expired {
                Err(IdentityError::TokenExpired)
            } else {
                Err(IdentityError::TokenInvalid)
            }
        },
        Ok(f) => match f {
            (Some(sub), Some(jti), Some(token_type), _, Some(exp), Some(iat)) => Ok(Claims { sub, exp, iat, jti, token_type }),
            _ => Err(IdentityError::TokenInvalid),
        },
    }
}

/// Checks a token with `jsonwebtoken::decode` (key
/// `DecodingKey::from_secret`, `Validation::default()`: HS256, `exp`
/// required and not past, with the crate's leeway) and reads its claims.
/// An error carries whether the signature expired and the error's text.
/// Claimed: when the token is the encoding of some claims with this secret
/// and it is accepted, the claims read are those. Whether a token is
/// accepted depends on the clock and is not stated, nor is the error text.
#[verifier::external_body]
pub(crate) fn jwt_decode(token: &str, secret: &str) -> (r: Result<JwtClaimFields, (bool, String)>)
    ensures
        decode_agrees(token@, secret@, r),
{
    let key = jsonwebtoken::DecodingKey::from_secret(secret.as_bytes());
    match jsonwebtoken::decode::<serde_json::Map<String, Value>>(token, &key, &jsonwebtoken::Validation::default()) {
        Ok(d) => {
            let c = d.claims;
            let text = |k: &str| c.get(k).and_then(Value::as_str).map(str::to_string);
            Ok((text("sub"), text("jti"), text("token_type"), text("role"), c.get("exp").and_then(Value::as_i64), c.get("iat").and_then(Value::as_i64)))
        },
        Err(e) => Err((matches!(e.kind(), jsonwebtoken::errors::ErrorKind::ExpiredSignature), e.to_string())),
    }
}

/// Seconds since the Unix epoch of a time in milliseconds (rounded down).
pub open spec fn secs_of(now_ms: int) -> int {
    now_ms / 1000
}

fn floor_secs(now_ms: i64) -> (s: i64)
    ensures
        s == secs_of(now_ms as int),
{
    if now_ms >= 0 {
        now_ms / 1000
    } else {
        let m: i64 = -(now_ms + 1);
        let q: i64 = m / 1000;
        proof {
            assert(now_ms as int == -(m as int) - 1);
            assert(m as int == 1000 * q + m % 1000) by (nonlinear_arith)
                requires m >= 0, q == m / 1000;
            assert((now_ms as int) / 1000 == -q - 1) by (nonlinear_arith)
                requires now_ms as int == -(m as int) - 1, m as int == 1000 * q + m % 1000, 0 <= m % 1000 < 1000, m >= 0;
        }
        -q - 1
    }
}

/// The claims of a token issued at `now_ms` that lives `ttl` seconds.
pub open spec fn issued_claims(sub: Seq<char>, now_ms: int, ttl: int, jti: Seq<char>, token_type: Seq<char>) -> (Seq<char>, int, int, Seq<char>, Seq<char>) {
    (sub, secs_of(now_ms) + ttl, secs_of(now_ms), jti, token_type)
}

/// The token signed at `now` (milliseconds) for `sub`, living `ttl`
/// seconds, with token id `jti`.
pub open spec fn token_issued_at(sub: Seq<char>, now: i64, ttl: u64, jti: Seq<char>, token_type: Seq<char>, secret: Seq<char>) -> Seq<char> {
    jwt_encoding(sub, (secs_of(now as int) + ttl) as i64, secs_of(now as int) as i64, jti, token_type, secret)
}

/// Issues and checks the identity plugin's access and refresh tokens.
pub struct TokenService {
    secret: String,
    access_ttl_secs: u64,
    refresh_ttl_secs: u64,
}

impl TokenService {
    /// The signing secret.
    pub closed spec fn secret(self) -> Seq<char> {
        self.secret@
    }

    /// Lifetime of an access token, in seconds.
    pub closed spec fn access_ttl(self) -> u64 {
        self.access_ttl_secs
    }

    /// Lifetime of a refresh token, in seconds.
    pub closed spec fn refresh_ttl(self) -> u64 {
        self.refresh_ttl_secs
    }

    /// A service signing with `secret`.
    pub fn new(secret: &str, access_ttl_secs: u64, refresh_ttl_secs: u64) -> (t: Self)
        ensures
            t.secret() == secret@,
            t.access_ttl() == access_ttl_secs,
            t.refresh_ttl() == refresh_ttl_secs,
    {
        TokenService { secret: secret.to_string(), access_ttl_secs, refresh_ttl_secs }
    }

    fn issue(&self, user_id: &str, ttl: u64, now_ms: i64, jti: String, token_type: &str) -> (r: Result<String, IdentityError>)
        requires
            ttl <= i64::MAX / 1000,
        ensures
            r matches Ok(t) ==> t@ == jwt_encoding(user_id@, (secs_of(now_ms as int) + ttl) as i64, secs_of(now_ms as int) as i64, jti@, token_type@, self.secret()),
            r is Ok,
    {
        let iat = floor_secs(now_ms);
        assert(-10_000_000_000_000_000 <= iat <= 10_000_000_000_000_000) by (nonlinear_arith)
            requires iat == secs_of(now_ms as int), i64::MIN <= now_ms <= i64::MAX;
        let claims = Claims {
            sub: user_id.to_string(),
            exp: iat + ttl as i64,
            iat,
            jti,
            token_type: token_type.to_string(),
        };
        match jwt_encode(&claims, self.secret.as_str()) {
            Ok(t) => Ok(t),
            Err(m) => Err(IdentityError::Internal(m)),
        }
    }

    /// An access token for `user_id` issued at `now_ms` with id `jti`.
    pub fn issue_access_token_at(&self, user_id: &str, now_ms: i64, jti: String) -> (r: Result<String, IdentityError>)
        requires
            self.access_ttl() <= i64::MAX / 1000,
        ensures
            r matches Ok(t) ==> t@ == jwt_encoding(user_id@, (secs_of(now_ms as int) + self.access_ttl()) as i64, secs_of(now_ms as int) as i64, jti@, "access"@, self.secret()),
            r is Ok,
    {
        self.issue(user_id, self.access_ttl_secs, now_ms, jti, "access")
    }

    /// A refresh token for `user_id` issued at `now_ms` with id `jti`.
    pub fn issue_refresh_token_at(&self, user_id: &str, now_ms: i64, jti: String) -> (r: Result<String, IdentityError>)
        requires
            self.refresh_ttl() <= i64::MAX / 1000,
        ensures
            r matches Ok(t) ==> t@ == jwt_encoding(user_id@, (secs_of(now_ms as int) + self.refresh_ttl()) as i64, secs_of(now_ms as int) as i64, jti@, "refresh"@, self.secret()),
            r is Ok,
    {
        self.issue(user_id, self.refresh_ttl_secs, now_ms, jti, "refresh")
    }

    /// An access token for `user_id` issued now with a fresh token id.
    pub fn issue_access_token(&self, user_id: &str) -> (r: Result<String, IdentityError>)
        requires
            self.access_ttl() <= i64::MAX / 1000,
        ensures
            r matches Ok(t) ==> exists|now: i64, jti: Seq<char>| t@ == #[trigger] token_issued_at(user_id@, now, self.access_ttl(), jti, "access"@, self.secret()),
            r is Ok,
    {
        let jti = random_uuid();
        let ghost j = jti@;
        let now = now_millis();
        let r = self.issue_access_token_at(user_id, now, jti);
        proof {
            if r is Ok {
                assert(r->Ok_0@ == token_issued_at(user_id@, now, self.access_ttl(), j, "access"@, self.secret()));
            }
        }
        r
    }

    /// A refresh token for `user_id` issued now with a fresh token id.
    pub fn issue_refresh_token(&self, user_id: &str) -> (r: Result<String, IdentityError>)
        requires
            self.refresh_ttl() <= i64::MAX / 1000,
        ensures
            r matches Ok(t) ==> exists|now: i64, jti: Seq<char>| t@ == #[trigger] token_issued_at(user_id@, now, self.refresh_ttl(), jti, "refresh"@, self.secret()),
            r is Ok,
    {
        let jti = random_uuid();
        let ghost j = jti@;
        let now = now_millis();
        let r = self.issue_refresh_token_at(user_id, now, jti);
        proof {
            if r is Ok {
                assert(r->Ok_0@ == token_issued_at(user_id@, now, self.refresh_ttl(), j, "refresh"@, self.secret()));
            }
        }
        r
    }

    /// Checks a token's signature and expiry and returns its claims: an
    /// expired token is `TokenExpired`, any other failure (signature,
    /// format, a missing or mistyped claim) `TokenInvalid`. The claims of a
    /// token that this service issued are given back as issued.
    pub fn verify_token(&self, token: &str) -> (r: Result<Claims, IdentityError>)
        ensures
            r matches Err(e) ==> e is TokenExpired || e is TokenInvalid,
            forall|sub: Seq<char>, exp: i64, iat: i64, jti: Seq<char>, tt: Seq<char>|
                #[trigger] jwt_encoding(sub, exp, iat, jti, tt, self.secret()) == token@ && r is Ok ==> {
                    let c = r->Ok_0;
                    &&& c.sub@ == sub
                    &&& c.exp == exp
                    &&& c.iat == iat
                    &&& c.jti@ == jti
                    &&& c.token_type@ == tt
                },
            exists|d: Result<JwtClaimFields, (bool, String)>| #[trigger] decode_agrees(token@, self.secret(), d) && r == claims_of_decoded(d),
    {
        let d = jwt_decode(token, self.secret.as_str());
        let ghost gd = d;
        let r = claims_from_decoded(d);
        assert(decode_agrees(token@, self.secret(), gd) && r == claims_of_decoded(gd));
        r
    }

    /// Lifetime of an access token, in seconds.
    pub fn access_ttl_secs(&self) -> (n: u64)
        ensures
            n == self.access_ttl(),
    {
        self.access_ttl_secs
    }

    /// Lifetime of a refresh token, in seconds.
    pub fn refresh_ttl_secs(&self) -> (n: u64)
        ensures
            n == self.refresh_ttl(),
    {
        self.refresh_ttl_secs
    }
}

} // verus!
