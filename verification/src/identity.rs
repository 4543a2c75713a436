//! Identity plugin: account providers, tokens, errors, OAuth settings and
//! the percent-encoding used when building OAuth authorization URLs.
use vstd::prelude::*;
use crate::text::{chars_of, push_char, push_str};
use crate::messaging_types::{random_uuid, uuid_hyphenated_text};
use std::collections::HashMap;
use std::collections::hash_map::DefaultHasher;
use std::hash::{Hash, Hasher};
use vstd::std_specs::hash::DefaultHasherAdditionalSpecFns;

verus! {

/// How an account authenticates.
#[derive(Debug, Clone, Copy, PartialEq, Eq, Structural)]
pub enum AuthProvider {
    Local,
    Google,
    Discord,
    Apple,
    Steam,
}

/// Access and refresh tokens handed to a client.
#[derive(Debug, Clone)]
pub struct TokenPair {
    pub access_token: String,
    pub refresh_token: String,
    pub expires_in: u64,
    pub token_type: String,
}

impl TokenPair {
    /// A bearer token pair.
    pub fn new(access_token: String, refresh_token: String, expires_in: u64) -> (t: Self)
        ensures
            t.access_token@ == access_token@,
            t.refresh_token@ == refresh_token@,
            t.expires_in == expires_in,
            t.token_type@ == "Bearer"@,
    {
        TokenPair { access_token, refresh_token, expires_in, token_type: "Bearer".to_string() }
    }
}

/// Errors of the identity plugin.
#[derive(Debug, Clone)]
pub enum IdentityError {
    UserNotFound,
    InvalidCredentials,
    EmailAlreadyExists,
    UsernameAlreadyTaken,
    TokenExpired,
    TokenInvalid,
    TokenRevoked,
    MfaRequired,
    MfaCodeInvalid,
    AccountDisabled,
    Internal(String),
}

/// Message of an identity error.
pub open spec fn identity_error_message(e: IdentityError) -> Seq<char> {
    match e {
        IdentityError::UserNotFound => "user not found"@,
        IdentityError::InvalidCredentials => "invalid credentials"@,
        IdentityError::EmailAlreadyExists => "email already registered"@,
        IdentityError::UsernameAlreadyTaken => "username already taken"@,
        IdentityError::TokenExpired => "token expired"@,
        IdentityError::TokenInvalid => "token invalid"@,
        IdentityError::TokenRevoked => "token revoked"@,
        IdentityError::MfaRequired => "MFA required"@,
        IdentityError::MfaCodeInvalid => "MFA code invalid"@,
        IdentityError::AccountDisabled => "account disabled"@,
        IdentityError::Internal(m) => "internal error: "@ + m@,
    }
}

impl IdentityError {
    /// Human-readable message of the error.
    pub fn message(&self) -> (s: String)
        ensures
            s@ == identity_error_message(*self),
    {
        let mut s = String::new();
        match self {
            IdentityError::UserNotFound => push_str(&mut s, "user not found"),
            IdentityError::InvalidCredentials => push_str(&mut s, "invalid credentials"),
            IdentityError::EmailAlreadyExists => push_str(&mut s, "email already registered"),
            IdentityError::UsernameAlreadyTaken => push_str(&mut s, "username already taken"),
            IdentityError::TokenExpired => push_str(&mut s, "token expired"),
            IdentityError::TokenInvalid => push_str(&mut s, "token invalid"),
            IdentityError::TokenRevoked => push_str(&mut s, "token revoked"),
            IdentityError::MfaRequired => push_str(&mut s, "MFA required"),
            IdentityError::MfaCodeInvalid => push_str(&mut s, "MFA code invalid"),
            IdentityError::AccountDisabled => push_str(&mut s, "account disabled"),
            IdentityError::Internal(m) => {
                push_str(&mut s, "internal error: ");
                push_str(&mut s, m.as_str());
            },
        }
        s
    }
}

/// OAuth2 client settings of one provider.
#[derive(Debug, Clone)]
pub struct OAuthProviderConfig {
    pub client_id: String,
    pub client_secret: String,
    pub redirect_uri: String,
}

/// What an OAuth2 provider reports about the signed-in user.
#[derive(Debug, Clone)]
pub struct OAuthUserInfo {
    pub provider: AuthProvider,
    pub sub: String,
    pub email: String,
    pub display_name: String,
    pub avatar_url: Option<String>,
}

/// Claims of a JSON Web Token issued by the identity plugin.
#[derive(Debug, Clone)]
pub struct Claims {
    pub sub: String,
    pub exp: i64,
    pub iat: i64,
    pub jti: String,
    pub token_type: String,
}

/// Unicode `Alphabetic` or `Numeric` property of a character, as
/// `char::is_alphanumeric` reports it.
pub uninterp spec fn unicode_alphanumeric(c: char) -> bool;

/// ASCII letter or digit.
pub open spec fn ascii_alphanumeric(c: char) -> bool {
    ('0' as u32 <= c as u32 <= '9' as u32) || ('a' as u32 <= c as u32 <= 'z' as u32) || ('A' as u32 <= c as u32
        <= 'Z' as u32)
}

/// Calls `char::is_alphanumeric`; on ASCII it holds exactly for letters
/// and digits, as std documents.
#[verifier::external_body]
fn is_alphanumeric(c: char) -> (b: bool)
    ensures
        b == unicode_alphanumeric(c),
        (c as u32) < 128 ==> (b <==> ascii_alphanumeric(c)),
{
    c.is_alphanumeric()
}

/// Characters left as they are by [`encode`].
pub open spec fn unreserved(c: char) -> bool {
    unicode_alphanumeric(c) || c == '-' || c == '_' || c == '.' || c == '~'
}

/// Upper-case hexadecimal digit of `d < 16`.
pub open spec fn hex_digit(d: nat) -> char {
    if d < 10 {
        ((48 + d) as u8) as char
    } else {
        ((55 + d) as u8) as char
    }
}

/// Upper-case hexadecimal rendering of `n`, without leading zeros.
pub open spec fn hex_str(n: nat) -> Seq<char>
    decreases n,
{
    if n < 16 {
        seq![hex_digit(n)]
    } else {
        hex_str(n / 16) + seq![hex_digit(n % 16)]
    }
}

/// `format!("{:02X}", n)`: upper-case hexadecimal, padded to two digits.
pub open spec fn hex2(n: nat) -> Seq<char> {
    if n < 16 {
        seq!['0'] + hex_str(n)
    } else {
        hex_str(n)
    }
}

/// Encoding of one character: itself when unreserved, else `%` and the
/// hexadecimal code point.
pub open spec fn encode_char(c: char) -> Seq<char> {
    if unreserved(c) {
        seq![c]
    } else {
        seq!['%'] + hex2((c as u32) as nat)
    }
}

/// Percent-encoding of a string, character by character.
pub open spec fn url_encoded(s: Seq<char>) -> Seq<char>
    decreases s.len(),
{
    if s.len() == 0 {
        Seq::empty()
    } else {
        url_encoded(s.drop_last()) + encode_char(s.last())
    }
}

fn push_hex(s: &mut String, n: u32)
    ensures
        final(s)@ == old(s)@ + hex_str(n as nat),
    decreases n,
{
    if n >= 16 {
        push_hex(s, n / 16);
    }
    let d = n % 16;
    let c = if d < 10 {
        ((48 + d) as u8) as char
    } else {
        ((55 + d) as u8) as char
    };
    assert(c == hex_digit(d as nat));
    push_char(s, c);
    assert(s@ =~= old(s)@ + hex_str(n as nat));
}

/// Percent-encodes `s` for a URL query: letters, digits and `-_.~` stay,
/// every other character becomes `%` followed by its code point in
/// upper-case hexadecimal, at least two digits.
pub fn encode(s: &str) -> (r: String)
    ensures
        r@ == url_encoded(s@),
{
    let cs = chars_of(s);
    let mut r = String::new();
    let mut i: usize = 0;
    while i < cs.len()
        invariant
            cs@ == s@,
            i <= cs@.len(),
            r@ == url_encoded(s@.subrange(0, i as int)),
        decreases cs.len() - i,
    {
        let c = cs[i];
        let ghost before = r@;
        if is_alphanumeric(c) || c == '-' || c == '_' || c == '.' || c == '~' {
            push_char(&mut r, c);
            assert(r@ =~= before + encode_char(c));
        } else {
            push_char(&mut r, '%');
            let b = c as u32;
            if b < 16 {
                push_char(&mut r, '0');
            }
            push_hex(&mut r, b);
            assert(r@ =~= before + encode_char(c));
        }
        proof {
            let sub = s@.subrange(0, i + 1);
            assert(sub.drop_last() =~= s@.subrange(0, i as int));
            assert(sub.last() == c);
        }
        i = i + 1;
    }
    assert(s@.subrange(0, s@.len() as int) =~= s@);
    r
}

/// Encoding distributes over concatenation.
pub proof fn lemma_encode_concat(a: Seq<char>, b: Seq<char>)
    ensures
        url_encoded(a + b) == url_encoded(a) + url_encoded(b),
    decreases b.len(),
{
    if b.len() == 0 {
        assert(a + b =~= a);
        assert(url_encoded(a) + url_encoded(b) =~= url_encoded(a));
    } else {
        lemma_encode_concat(a, b.drop_last());
        assert((a + b).drop_last() =~= a + b.drop_last());
        assert((a + b).last() == b.last());
        assert(url_encoded(a + b) =~= url_encoded(a) + url_encoded(b));
    }
}

/// Authorization endpoint and scope of a provider that signs in through
/// OAuth2 in the browser.
pub open spec fn authorize_endpoint(p: AuthProvider) -> Option<(Seq<char>, Seq<char>)> {
    match p {
        AuthProvider::Google => Some(("https://accounts.google.com/o/oauth2/v2/auth"@, "openid email profile"@)),
        AuthProvider::Discord => Some(("https://discord.com/api/oauth2/authorize"@, "identify email"@)),
        AuthProvider::Apple => Some(("https://appleid.apple.com/auth/authorize"@, "name email"@)),
        _ => None,
    }
}

/// The authorization URL for an endpoint, scope, client and `state`.
pub open spec fn authorization_text(base: Seq<char>, scope: Seq<char>, config: OAuthProviderConfig, state: Seq<char>) -> Seq<char> {
    base + "?client_id="@ + url_encoded(config.client_id@) + "&redirect_uri="@ + url_encoded(config.redirect_uri@)
        + "&response_type=code&scope="@ + url_encoded(scope) + "&state="@ + state
}

/// The authorization URL of `provider` with the given `state`; providers
/// without a browser flow are refused.
pub fn authorization_url_with_state(provider: &AuthProvider, config: &OAuthProviderConfig, state: &str) -> (r: Result<String, IdentityError>)
    ensures
        match authorize_endpoint(*provider) {
            Some((base, scope)) => r matches Ok(u) && u@ == authorization_text(base, scope, *config, state@),
            None => r matches Err(IdentityError::Internal(m)) && m@ == "unsupported OAuth provider"@,
        },
{
    let (base, scope) = match provider {
        AuthProvider::Google => ("https://accounts.google.com/o/oauth2/v2/auth", "openid email profile"),
        AuthProvider::Discord => ("https://discord.com/api/oauth2/authorize", "identify email"),
        AuthProvider::Apple => ("https://appleid.apple.com/auth/authorize", "name email"),
        _ => {
            return Err(IdentityError::Internal("unsupported OAuth provider".to_string()));
        },
    };
    let mut url = String::new();
    push_str(&mut url, base);
    push_str(&mut url, "?client_id=");
    push_str(&mut url, encode(config.client_id.as_str()).as_str());
    push_str(&mut url, "&redirect_uri=");
    push_str(&mut url, encode(config.redirect_uri.as_str()).as_str());
    push_str(&mut url, "&response_type=code&scope=");
    push_str(&mut url, encode(scope).as_str());
    push_str(&mut url, "&state=");
    push_str(&mut url, state);
    Ok(url)
}

/// The authorization URL of `provider` with a fresh random `state` (a
/// hyphenated UUID).
pub fn authorization_url(provider: &AuthProvider, config: &OAuthProviderConfig) -> (r: Result<String, IdentityError>)
    ensures
        match authorize_endpoint(*provider) {
            Some((base, scope)) => r matches Ok(u) && exists|b: Seq<u8>| b.len() == 16
                && u@ == authorization_text(base, scope, *config, uuid_hyphenated_text(b)),
            None => r matches Err(IdentityError::Internal(m)) && m@ == "unsupported OAuth provider"@,
        },
{
    if authorize_endpoint_known(provider) {
        let state = random_uuid();
        authorization_url_with_state(provider, config, state.as_str())
    } else {
        Err(IdentityError::Internal("unsupported OAuth provider".to_string()))
    }
}

fn authorize_endpoint_known(provider: &AuthProvider) -> (b: bool)
    ensures
        b == authorize_endpoint(*provider) is Some,
{
    match provider {
        AuthProvider::Google | AuthProvider::Discord | AuthProvider::Apple => true,
        _ => false,
    }
}

/// Token and user-info endpoints of a provider whose codes can be
/// exchanged here.
pub open spec fn exchange_endpoints(p: AuthProvider) -> Option<(Seq<char>, Seq<char>)> {
    match p {
        AuthProvider::Google => Some(("https://oauth2.googleapis.com/token"@, "https://openidconnect.googleapis.com/v1/userinfo"@)),
        AuthProvider::Discord => Some(("https://discord.com/api/oauth2/token"@, "https://discord.com/api/users/@me"@)),
        _ => None,
    }
}

/// The token and user-info endpoints used to exchange an authorization
/// code; other providers are refused.
pub fn oauth_exchange_endpoints(provider: &AuthProvider) -> (r: Result<(String, String), IdentityError>)
    ensures
        match exchange_endpoints(*provider) {
            Some((t, u)) => r matches Ok((a, b)) && a@ == t && b@ == u,
            None => r matches Err(IdentityError::Internal(m)) && m@ == "unsupported OAuth provider"@,
        },
{
    match provider {
        AuthProvider::Google => Ok(("https://oauth2.googleapis.com/token".to_string(), "https://openidconnect.googleapis.com/v1/userinfo".to_string())),
        AuthProvider::Discord => Ok(("https://discord.com/api/oauth2/token".to_string(), "https://discord.com/api/users/@me".to_string())),
        _ => Err(IdentityError::Internal("unsupported OAuth provider".to_string())),
    }
}

/// The form posted to the token endpoint to exchange `code`.
pub fn token_request_form(config: &OAuthProviderConfig, code: &str) -> (f: Vec<(String, String)>)
    ensures
        f@.len() == 5,
        f@[0].0@ == "client_id"@ && f@[0].1@ == config.client_id@,
        f@[1].0@ == "client_secret"@ && f@[1].1@ == config.client_secret@,
        f@[2].0@ == "code"@ && f@[2].1@ == code@,
        f@[3].0@ == "grant_type"@ && f@[3].1@ == "authorization_code"@,
        f@[4].0@ == "redirect_uri"@ && f@[4].1@ == config.redirect_uri@,
{
    let mut f: Vec<(String, String)> = Vec::new();
    f.push(("client_id".to_string(), config.client_id.clone()));
    f.push(("client_secret".to_string(), config.client_secret.clone()));
    f.push(("code".to_string(), code.to_string()));
    f.push(("grant_type".to_string(), "authorization_code".to_string()));
    f.push(("redirect_uri".to_string(), config.redirect_uri.clone()));
    f
}

/// The access token of a token response; refused when it has none.
pub fn require_access_token(access_token: Option<String>) -> (r: Result<String, IdentityError>)
    ensures
        match access_token {
            Some(t) => r == Ok::<String, IdentityError>(t),
            None => r matches Err(IdentityError::Internal(m)) && m@ == "missing access_token"@,
        },
{
    match access_token {
        Some(t) => Ok(t),
        None => Err(IdentityError::Internal("missing access_token".to_string())),
    }
}

/// The body parses as JSON (`serde_json::from_slice` into a `Value`).
pub uninterp spec fn json_parses(body: Seq<u8>) -> bool;

/// The string under `key` of a JSON body that parses: `None` when the body
/// is no object, has no such key, or holds something other than a string
/// there (`Value::get`, then `Value::as_str`).
pub uninterp spec fn json_str_field(body: Seq<u8>, key: Seq<char>) -> Option<Seq<char>>;

/// Parses `body` as JSON and reads the string under `key`. Claimed: the
/// parse succeeds exactly when the body is JSON, and then the field is the
/// named one. The text of a parse error is not stated.
#[verifier::external_body]
fn json_string_field(body: &[u8], key: &str) -> (r: Result<Option<String>, String>)
    ensures
        r is Ok <==> json_parses(body@),
        r matches Ok(o) ==> match o {
            Some(s) => json_str_field(body@, key@) == Some(s@),
            None => json_str_field(body@, key@) is None,
        },
{
    match serde_json::from_slice::<serde_json::Value>(body) {
        Ok(v) => Ok(v.get(key).and_then(serde_json::Value::as_str).map(str::to_string)),
        Err(e) => Err(e.to_string()),
    }
}

/// The first present text of two, else the fallback.
pub open spec fn first_text(a: Option<Seq<char>>, b: Option<Seq<char>>, fallback: Seq<char>) -> Seq<char> {
    match a {
        Some(x) => x,
        None => match b {
            Some(y) => y,
            None => fallback,
        },
    }
}

/// The access token of a token-endpoint response body: refused when the
/// body is not JSON, and with `missing access_token` when it has no string
/// `access_token`.
pub fn access_token_from_response(token_body: &[u8]) -> (r: Result<String, IdentityError>)
    ensures
        !json_parses(token_body@) ==> r matches Err(IdentityError::Internal(_)),
        json_parses(token_body@) ==> match json_str_field(token_body@, "access_token"@) {
            Some(t) => r matches Ok(s) && s@ == t,
            None => r matches Err(IdentityError::Internal(m)) && m@ == "missing access_token"@,
        },
{
    match json_string_field(token_body, "access_token") {
        Ok(t) => require_access_token(t),
        Err(m) => Err(IdentityError::Internal(m)),
    }
}

/// Reads one string field of a body known to parse.
fn field_of(body: &[u8], key: &str) -> (r: Option<String>)
    requires
        json_parses(body@),
    ensures
        match r {
            Some(s) => json_str_field(body@, key@) == Some(s@),
            None => json_str_field(body@, key@) is None,
        },
{
    match json_string_field(body, key) {
        Ok(o) => o,
        Err(_) => None,
    }
}

/// The user a provider reports in its user-info response body: refused
/// when the body is not JSON; otherwise the subject is `sub` or else `id`
/// (empty when neither), the address `email` (empty when missing), the
/// display name `name`, else `username`, else the address, and the avatar
/// `picture` or else `avatar`.
pub fn user_info_from_response(provider: AuthProvider, user_body: &[u8]) -> (r: Result<OAuthUserInfo, IdentityError>)
    ensures
        r is Ok <==> json_parses(user_body@),
        r matches Err(e) ==> e is Internal,
        r matches Ok(u) ==> {
            &&& u.provider == provider
            &&& u.sub@ == first_text(json_str_field(user_body@, "sub"@), json_str_field(user_body@, "id"@), Seq::empty())
            &&& u.email@ == first_text(json_str_field(user_body@, "email"@), None, Seq::empty())
            &&& u.display_name@ == first_text(json_str_field(user_body@, "name"@), json_str_field(user_body@, "username"@),
                first_text(json_str_field(user_body@, "email"@), None, Seq::empty()))
            &&& match u.avatar_url {
                Some(a) => first_text(json_str_field(user_body@, "picture"@), json_str_field(user_body@, "avatar"@), Seq::empty()) == a@
                    && (json_str_field(user_body@, "picture"@) is Some || json_str_field(user_body@, "avatar"@) is Some),
                None => json_str_field(user_body@, "picture"@) is None && json_str_field(user_body@, "avatar"@) is None,
            }
        },
{
    match json_string_field(user_body, "sub") {
        Err(m) => {
            return Err(IdentityError::Internal(m));
        },
        Ok(_) => {},
    }
    let sub = field_of(user_body, "sub");
    let id = field_of(user_body, "id");
    let email = field_of(user_body, "email");
    let name = field_of(user_body, "name");
    let username = field_of(user_body, "username");
    let picture = field_of(user_body, "picture");
    let avatar = field_of(user_body, "avatar");
    Ok(user_info_from_profile(provider, sub, id, email, name, username, picture, avatar))
}

/// The first present string of two, else the fallback.
pub open spec fn first_or(a: Option<String>, b: Option<String>, fallback: Seq<char>) -> Seq<char> {
    match a {
        Some(x) => x@,
        None => match b {
            Some(y) => y@,
            None => fallback,
        },
    }
}

/// The user a provider reports from the string fields of its user-info
/// response: the subject is `sub` or else `id` (empty when neither), the
/// address `email` (empty when missing), the display name `name`, else
/// `username`, else the address, and the avatar `picture` or else
/// `avatar`.
pub fn user_info_from_profile(
    provider: AuthProvider,
    sub: Option<String>,
    id: Option<String>,
    email: Option<String>,
    name: Option<String>,
    username: Option<String>,
    picture: Option<String>,
    avatar: Option<String>,
) -> (u: OAuthUserInfo)
    ensures
        u.provider == provider,
        u.sub@ == first_or(sub, id, Seq::empty()),
        u.email@ == first_or(email, None, Seq::empty()),
        u.display_name@ == first_or(name, username, first_or(email, None, Seq::empty())),
        u.avatar_url == (match picture {
            Some(p) => Some(p),
            None => avatar,
        }),
{
    let sub = match sub {
        Some(s) => s,
        None => match id {
            Some(s) => s,
            None => String::new(),
        },
    };
    let email = match email {
        Some(e) => e,
        None => String::new(),
    };
    let display_name = match name {
        Some(n) => n,
        None => match username {
            Some(n) => n,
            None => email.clone(),
        },
    };
    let avatar_url = match picture {
        Some(p) => Some(p),
        None => avatar,
    };
    OAuthUserInfo { provider, sub, email, display_name, avatar_url }
}

/// Lower-case hexadecimal digit of `d < 16`.
pub open spec fn lower_hex_digit(d: nat) -> char {
    if d < 10 {
        ((48 + d) as u8) as char
    } else {
        ((87 + d) as u8) as char
    }
}

/// `format!("{:016x}", h)`: the 16 lower-case hexadecimal digits of `h`,
/// most significant first.
pub open spec fn hex16(h: u64) -> Seq<char> {
    Seq::new(16, |k: int| lower_hex_digit(((h as nat) / pow16((15 - k) as nat)) % 16))
}

/// `16^e`.
pub open spec fn pow16(e: nat) -> nat
    decreases e,
{
    if e == 0 {
        1
    } else {
        16 * pow16((e - 1) as nat)
    }
}

/// Text of a device fingerprint with hash `h`.
pub open spec fn fingerprint_text(h: u64) -> Seq<char> {
    "dev_"@ + hex16(h)
}

proof fn lemma_pow16_step(e: nat)
    ensures
        pow16(e + 1) == 16 * pow16(e),
        pow16(e) > 0,
    decreases e,
{
    if e > 0 {
        lemma_pow16_step((e - 1) as nat);
    }
}

/// The fingerprint text `dev_` + 16 hexadecimal digits of `h`.
pub fn fingerprint_from_hash(h: u64) -> (s: String)
    ensures
        s@ == fingerprint_text(h),
{
    let mut digits: Vec<char> = Vec::new();
    let mut rest: u64 = h;
    let mut k: usize = 0;
    assert(pow16(0) == 1);
    assert((h as nat) / 1 == h as nat);
    while k < 16
        invariant
            k <= 16,
            digits@.len() == k,
            rest as nat == (h as nat) / pow16(k as nat),
            forall|m: int| 0 <= m < k ==> #[trigger] digits@[m] == lower_hex_digit(((h as nat) / pow16(m as nat)) % 16),
        decreases 16 - k,
    {
        let d = rest % 16;
        let c = if d < 10 {
            ((48 + d) as u8) as char
        } else {
            ((87 + d) as u8) as char
        };
        digits.push(c);
        proof {
            lemma_pow16_step(k as nat);
            let p = pow16(k as nat);
            assert((h as nat) / (16 * p) == ((h as nat) / p) / 16) by (nonlinear_arith)
                requires
                    p > 0,
            {
                vstd::arithmetic::div_mod::lemma_div_denominator(h as int, p as int, 16);
            }
        }
        rest = rest / 16;
        k = k + 1;
    }
    let mut s = String::new();
    push_str(&mut s, "dev_");
    let mut j: usize = 16;
    let ghost start = s@;
    while j > 0
        invariant
            j <= 16,
            digits@.len() == 16,
            start == "dev_"@,
            s@ == start + hex16(h).subrange(0, 16 - j as int),
            forall|m: int| 0 <= m < 16 ==> #[trigger] digits@[m] == lower_hex_digit(((h as nat) / pow16(m as nat)) % 16),
        decreases j,
    {
        j = j - 1;
        push_char(&mut s, digits[j]);
        assert(s@ =~= start + hex16(h).subrange(0, 16 - j as int));
    }
    assert(hex16(h).subrange(0, 16) =~= hex16(h));
    s
}

/// What `Hash::hash` of a string slice feeds to a `DefaultHasher`, as the
/// sequence of writes by which vstd models the hasher.
pub uninterp spec fn str_hash_feed(s: Seq<char>) -> Seq<Seq<u8>>;

/// What `Hash::hash` of an optional string slice feeds to a
/// `DefaultHasher`, as the sequence of writes by which vstd models the
/// hasher.
pub uninterp spec fn opt_str_hash_feed(s: Option<Seq<char>>) -> Seq<Seq<u8>>;

/// The text of an optional string slice.
pub open spec fn opt_text(v: Option<&str>) -> Option<Seq<char>> {
    match v {
        Some(s) => Some(s@),
        None => None,
    }
}

/// What hashing the entries `es` in order feeds: each key, then its value.
pub open spec fn entries_feed(es: Seq<(String, String)>) -> Seq<Seq<u8>>
    decreases es.len(),
{
    if es.len() == 0 {
        Seq::empty()
    } else {
        entries_feed(es.drop_last()) + str_hash_feed(es.last().0@) + str_hash_feed(es.last().1@)
    }
}

/// `es` lists the entries of `m`, each once, in ascending key order.
pub open spec fn sorted_listing(es: Seq<(String, String)>, m: Map<String, String>) -> bool {
    &&& keys_ascending(es)
    &&& forall|a: int| 0 <= a < es.len() ==> m.contains_key(#[trigger] es[a].0) && m[es[a].0] == es[a].1
    &&& forall|k: String| #[trigger] m.contains_key(k) ==> exists|a: int| 0 <= a < es.len() && (#[trigger] es[a]).0 == k
}

/// Entries of `m`, in the map's iteration order (`HashMap::iter`).
/// Claimed: every entry of the map is listed, nothing else, and no key
/// twice. The order is not stated.
#[verifier::external_body]
fn map_entries(m: &HashMap<String, String>) -> (v: Vec<(String, String)>)
    ensures
        forall|a: int| 0 <= a < v@.len() ==> m@.contains_key(#[trigger] v@[a].0) && m@[v@[a].0] == v@[a].1,
        forall|k: String| #[trigger] m@.contains_key(k) ==> exists|a: int| 0 <= a < v@.len() && (#[trigger] v@[a]).0 == k,
        forall|a: int, b: int| 0 <= a < v@.len() && 0 <= b < v@.len() && a != b ==> (#[trigger] v@[a]).0@ != (#[trigger] v@[b]).0@,
{
    m.iter().map(|(k, v)| (k.clone(), v.clone())).collect()
}

/// Feeds `v` to the hasher with `Hash::hash`. Claimed: the hasher's
/// writes grow by the named feed of `v`.
#[verifier::external_body]
fn hash_optional_str(h: &mut DefaultHasher, v: Option<&str>)
    ensures
        final(h)@ == old(h)@ + opt_str_hash_feed(opt_text(v)),
{
    v.hash(h)
}

/// Feeds `v` to the hasher with `Hash::hash`. Claimed: the hasher's
/// writes grow by the named feed of `v`.
#[verifier::external_body]
fn hash_str(h: &mut DefaultHasher, v: &str)
    ensures
        final(h)@ == old(h)@ + str_hash_feed(v@),
{
    v.hash(h)
}

/// Code-point order of two strings (the order of `str::cmp`).
fn str_less(a: &str, b: &str) -> (r: bool)
    ensures
        r == crate::search::seq_less(a@, b@),
{
    let ca = chars_of(a);
    let cb = chars_of(b);
    crate::search::chars_less(&ca, &cb)
}

/// Keys strictly ascending (code-point order).
pub open spec fn keys_ascending(es: Seq<(String, String)>) -> bool {
    forall|a: int, b: int| 0 <= a < b < es.len() ==> crate::search::seq_less(#[trigger] es[a].0@, #[trigger] es[b].0@)
}

/// A map has one listing in ascending key order, so the fingerprint does
/// not depend on the order in which the map hands out its entries.
pub proof fn lemma_sorted_listing_unique(a: Seq<(String, String)>, b: Seq<(String, String)>, m: Map<String, String>)
    requires
        sorted_listing(a, m),
        sorted_listing(b, m),
    ensures
        a == b,
    decreases a.len() + b.len(),
{
    if a.len() == 0 {
        if b.len() > 0 {
            assert(m.contains_key(b[0].0));
        }
        assert(a =~= b);
    } else if b.len() == 0 {
        assert(m.contains_key(a[0].0));
    } else {
        let x = a[0];
        let y = b[0];
        assert(m.contains_key(x.0));
        assert(m.contains_key(y.0));
        let j = choose|j: int| 0 <= j < b.len() && (#[trigger] b[j]).0 == x.0;
        let i = choose|i: int| 0 <= i < a.len() && (#[trigger] a[i]).0 == y.0;
        if j > 0 {
            assert(crate::search::seq_less(b[0].0@, b[j].0@));
            if i > 0 {
                assert(crate::search::seq_less(a[0].0@, a[i].0@));
                crate::search::lemma_seq_less_transitive(x.0@, y.0@, x.0@);
                crate::search::lemma_seq_less_irreflexive(x.0@);
            } else {
                crate::search::lemma_seq_less_irreflexive(x.0@);
            }
        }
        assert(j == 0);
        assert(x.0 == y.0);
        assert(x.1 == m[x.0] && y.1 == m[y.0]);
        assert(x == y);
        let m2 = m.remove(x.0);
        let a2 = a.drop_first();
        let b2 = b.drop_first();
        assert forall|p: int, q: int| 0 <= p < q < a2.len() implies crate::search::seq_less(#[trigger] a2[p].0@, #[trigger] a2[q].0@) by {
            assert(a2[p] == a[p + 1] && a2[q] == a[q + 1]);
        }
        assert forall|p: int, q: int| 0 <= p < q < b2.len() implies crate::search::seq_less(#[trigger] b2[p].0@, #[trigger] b2[q].0@) by {
            assert(b2[p] == b[p + 1] && b2[q] == b[q + 1]);
        }
        assert forall|p: int| 0 <= p < a2.len() implies m2.contains_key(#[trigger] a2[p].0) && m2[a2[p].0] == a2[p].1 by {
            assert(a2[p] == a[p + 1]);
            assert(crate::search::seq_less(a[0].0@, a[p + 1].0@));
            if a2[p].0 == x.0 {
                crate::search::lemma_seq_less_irreflexive(x.0@);
            }
        }
        assert forall|p: int| 0 <= p < b2.len() implies m2.contains_key(#[trigger] b2[p].0) && m2[b2[p].0] == b2[p].1 by {
            assert(b2[p] == b[p + 1]);
            assert(crate::search::seq_less(b[0].0@, b[p + 1].0@));
            if b2[p].0 == x.0 {
                crate::search::lemma_seq_less_irreflexive(x.0@);
            }
        }
        assert forall|k: String| #[trigger] m2.contains_key(k) implies exists|p: int| 0 <= p < a2.len() && (#[trigger] a2[p]).0 == k by {
            assert(m.contains_key(k));
            let p = choose|p: int| 0 <= p < a.len() && (#[trigger] a[p]).0 == k;
            assert(p != 0);
            assert(a2[p - 1] == a[p]);
        }
        assert forall|k: String| #[trigger] m2.contains_key(k) implies exists|p: int| 0 <= p < b2.len() && (#[trigger] b2[p]).0 == k by {
            assert(m.contains_key(k));
            let p = choose|p: int| 0 <= p < b.len() && (#[trigger] b[p]).0 == k;
            assert(p != 0);
            assert(b2[p - 1] == b[p]);
        }
        assert(sorted_listing(a2, m2));
        assert(sorted_listing(b2, m2));
        lemma_sorted_listing_unique(a2, b2, m2);
        assert(a =~= seq![x] + a2);
        assert(b =~= seq![y] + b2);
    }
}

/// Inserts `e` into `sorted` at its place by key; the key is new.
fn insert_by_key(sorted: &mut Vec<(String, String)>, e: (String, String))
    requires
        keys_ascending(old(sorted)@),
        forall|q: int| 0 <= q < old(sorted)@.len() ==> (#[trigger] old(sorted)@[q]).0@ != e.0@,
    ensures
        keys_ascending(final(sorted)@),
        forall|x: (String, String)| #[trigger] final(sorted)@.contains(x) <==> old(sorted)@.contains(x) || x == e,
{
    let mut pos: usize = 0;
    while pos < sorted.len() && !str_less(e.0.as_str(), sorted[pos].0.as_str())
        invariant
            pos <= sorted@.len(),
            sorted@ == old(sorted)@,
            forall|q: int| 0 <= q < sorted@.len() ==> (#[trigger] sorted@[q]).0@ != e.0@,
            forall|q: int| 0 <= q < pos ==> crate::search::seq_less(#[trigger] sorted@[q].0@, e.0@),
        decreases sorted.len() - pos,
    {
        proof {
            assert(sorted@[pos as int].0@ != e.0@);
            crate::search::lemma_seq_less_total(e.0@, sorted@[pos as int].0@);
        }
        pos = pos + 1;
    }
    let ghost o = sorted@;
    proof {
        if pos < o.len() {
            assert forall|q: int| pos <= q < o.len() implies crate::search::seq_less(e.0@, #[trigger] o[q].0@) by {
                if q > pos {
                    crate::search::lemma_seq_less_transitive(e.0@, o[pos as int].0@, o[q].0@);
                }
            }
        }
    }
    let ghost ge = e;
    sorted.insert(pos, e);
    proof {
        let n = sorted@;
        assert(n == o.insert(pos as int, ge));
        assert forall|a: int, b: int| 0 <= a < b < n.len() implies crate::search::seq_less(#[trigger] n[a].0@, #[trigger] n[b].0@) by {
            if b < pos {
                assert(n[a] == o[a] && n[b] == o[b]);
            } else if b == pos {
                assert(n[a] == o[a]);
            } else if a < pos {
                assert(n[a] == o[a] && n[b] == o[b - 1]);
                crate::search::lemma_seq_less_transitive(o[a].0@, ge.0@, o[b - 1].0@);
            } else if a == pos {
                assert(n[b] == o[b - 1]);
            } else {
                assert(n[a] == o[a - 1] && n[b] == o[b - 1]);
            }
        }
        assert forall|x: (String, String)| #[trigger] n.contains(x) <==> o.contains(x) || x == ge by {
            if n.contains(x) {
                let q = choose|q: int| 0 <= q < n.len() && n[q] == x;
                if q < pos {
                    assert(o[q] == x);
                } else if q > pos {
                    assert(o[q - 1] == x);
                }
            }
            if o.contains(x) {
                let q = choose|q: int| 0 <= q < o.len() && o[q] == x;
                if q < pos {
                    assert(n[q] == x);
                } else {
                    assert(n[q + 1] == x);
                }
            }
            if x == ge {
                assert(n[pos as int] == x);
            }
        }
    }
}

/// Device fingerprint from request attributes: the user agent, the IP
/// address and the extra attributes ordered by key are hashed with std's
/// `DefaultHasher`, and the hash is rendered as `dev_` and 16 hexadecimal
/// digits. The extra attributes count by content, not by the map's order.
pub fn fingerprint(user_agent: Option<&str>, ip: Option<&str>, extra: &HashMap<String, String>) -> (s: String)
    ensures
        exists|es: Seq<(String, String)>| #[trigger] sorted_listing(es, extra@) && s@ == fingerprint_text(
            DefaultHasher::spec_finish(opt_str_hash_feed(opt_text(user_agent)) + opt_str_hash_feed(opt_text(ip)) + entries_feed(es)),
        ),
{
    let mut hasher = DefaultHasher::new();
    hash_optional_str(&mut hasher, user_agent);
    hash_optional_str(&mut hasher, ip);
    let ghost base = hasher@;
    assert(base == opt_str_hash_feed(opt_text(user_agent)) + opt_str_hash_feed(opt_text(ip)));
    let entries = map_entries(extra);
    let mut sorted: Vec<(String, String)> = Vec::new();
    let mut i: usize = 0;
    while i < entries.len()
        invariant
            i <= entries@.len(),
            forall|a: int, b: int| 0 <= a < entries@.len() && 0 <= b < entries@.len() && a != b ==> (#[trigger] entries@[a]).0@ != (#[trigger] entries@[b]).0@,
            keys_ascending(sorted@),
            forall|x: (String, String)| #[trigger] sorted@.contains(x) <==> entries@.take(i as int).contains(x),
        decreases entries.len() - i,
    {
        let e = (entries[i].0.clone(), entries[i].1.clone());
        proof {
            assert(e == entries@[i as int]);
            assert forall|q: int| 0 <= q < sorted@.len() implies (#[trigger] sorted@[q]).0@ != e.0@ by {
                assert(sorted@.contains(sorted@[q]));
                let p = choose|p: int| 0 <= p < i && entries@.take(i as int)[p] == sorted@[q];
                assert(entries@[p] == sorted@[q]);
            }
        }
        let ghost ge = e;
        insert_by_key(&mut sorted, e);
        proof {
            let t0 = entries@.take(i as int);
            let t1 = entries@.take(i + 1);
            assert forall|x: (String, String)| #[trigger] sorted@.contains(x) <==> t1.contains(x) by {
                if t1.contains(x) {
                    let q = choose|q: int| 0 <= q < t1.len() && t1[q] == x;
                    if q < i {
                        assert(t0[q] == x);
                    }
                }
                if t0.contains(x) {
                    let q = choose|q: int| 0 <= q < t0.len() && t0[q] == x;
                    assert(t1[q] == x);
                }
                if x == ge {
                    assert(t1[i as int] == x);
                }
            }
        }
        i = i + 1;
    }
    assert(entries@.take(entries@.len() as int) =~= entries@);
    proof {
        assert forall|a: int| 0 <= a < sorted@.len() implies extra@.contains_key(#[trigger] sorted@[a].0) && extra@[sorted@[a].0] == sorted@[a].1 by {
            assert(sorted@.contains(sorted@[a]));
            let p = choose|p: int| 0 <= p < entries@.len() && entries@[p] == sorted@[a];
            assert(extra@.contains_key(entries@[p].0));
        }
        assert forall|k: String| #[trigger] extra@.contains_key(k) implies exists|a: int| 0 <= a < sorted@.len() && (#[trigger] sorted@[a]).0 == k by {
            let p = choose|p: int| 0 <= p < entries@.len() && (#[trigger] entries@[p]).0 == k;
            assert(entries@.contains(entries@[p]));
            assert(sorted@.contains(entries@[p]));
            let q = choose|q: int| 0 <= q < sorted@.len() && sorted@[q] == entries@[p];
            assert(sorted@[q].0 == k);
        }
        assert(sorted_listing(sorted@, extra@));
    }
    let mut k: usize = 0;
    while k < sorted.len()
        invariant
            k <= sorted@.len(),
            hasher@ == base + entries_feed(sorted@.take(k as int)),
        decreases sorted.len() - k,
    {
        proof {
            assert(sorted@.take(k + 1).drop_last() =~= sorted@.take(k as int));
            assert(sorted@.take(k + 1).last() == sorted@[k as int]);
        }
        hash_str(&mut hasher, sorted[k].0.as_str());
        hash_str(&mut hasher, sorted[k].1.as_str());
        proof {
            assert(hasher@ =~= base + entries_feed(sorted@.take(k + 1)));
        }
        k = k + 1;
    }
    assert(sorted@.take(sorted@.len() as int) =~= sorted@);
    let h = hasher.finish();
    let s = fingerprint_from_hash(h);
    assert(sorted_listing(sorted@, extra@) && s@ == fingerprint_text(
        DefaultHasher::spec_finish(opt_str_hash_feed(opt_text(user_agent)) + opt_str_hash_feed(opt_text(ip)) + entries_feed(sorted@))));
    s
}

} // verus!
