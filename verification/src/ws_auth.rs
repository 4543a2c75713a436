//! Authentication of WebSocket connections before their actions reach a
//! plugin: the built-in `auth` action checks a signed token and binds its
//! subject to the connection's session; other actions run with the
//! session's identity, and anonymous ones are refused when required.
use vstd::prelude::*;
use crate::credentials::{decode_agrees, jwt_decode, jwt_encoding, JwtClaimFields};
use crate::lifecycle::HostError;
use crate::messaging_types::now_millis;
use crate::session_store::{hash_token, token_key};
use crate::text::str_equal;

verus! {

/// Who sends an action.
#[derive(Debug, Clone, PartialEq, Eq)]
pub enum Identity {
    /// A connection that has not authenticated.
    Anonymous,
    /// An authenticated user with a role.
    User { user_id: String, role: String },
}

impl Identity {
    /// Whether nobody has authenticated.
    pub fn is_anonymous(&self) -> (b: bool)
        ensures
            b == (*self is Anonymous),
    {
        match self {
            Identity::Anonymous => true,
            _ => false,
        }
    }
}

/// What a session knows of the user who authenticated on it.
#[derive(Debug, Clone)]
pub struct SessionAuth {
    pub user_id: String,
    pub roles: Vec<String>,
}

/// What the `auth` action binds to a session. Times are milliseconds since
/// the Unix epoch.
#[derive(Debug, Clone)]
pub struct AuthInfo {
    pub user_id: String,
    pub roles: Vec<String>,
    pub authenticated_at: i64,
    /// SHA-256 of the token, in lower-case hexadecimal.
    pub token_hash: String,
}

/// Claims of a WebSocket token.
#[derive(Debug, Clone)]
pub struct WsJwtClaims {
    pub sub: String,
    pub role: String,
    pub exp: u64,
}

/// `i` is the identity of the session (roles compared by text).
pub open spec fn is_identity_of(i: Identity, auth: Option<SessionAuth>) -> bool {
    match (i, auth) {
        (Identity::Anonymous, None) => true,
        (Identity::User { user_id, role }, Some(a)) => user_id@ == a.user_id@ && role@ == (if a.roles@.len() > 0 {
            a.roles@[0]@
        } else {
            "viewer"@
        }),
        _ => false,
    }
}

/// The identity under which a session's actions run.
pub fn build_identity(auth: Option<&SessionAuth>) -> (i: Identity)
    ensures
        is_identity_of(i, match auth {
            Some(a) => Some(*a),
            None => None,
        }),
{
    match auth {
        Some(a) => {
            let role = if a.roles.len() > 0 {
                a.roles[0].clone()
            } else {
                "viewer".to_string()
            };
            Identity::User { user_id: a.user_id.clone(), role }
        },
        None => Identity::Anonymous,
    }
}

/// `e` is an error of the given kind with the given message.
pub open spec fn auth_failed(e: HostError, msg: Seq<char>) -> bool {
    e matches HostError::AuthFailed(m) && m@ == msg
}

/// Message of a token whose `sub`, `role` or `exp` claim is missing, of
/// another type, or (for `exp`) negative.
pub open spec fn bad_claims_message() -> Seq<char> {
    "missing or mistyped claim (sub, role, exp)"@
}

/// What a decoding outcome makes of a WebSocket token's claims: a refused
/// token gives the decoder's message; accepted claims with `sub`, `role`
/// and a non-negative `exp` are the claims; anything else is refused with
/// `bad_claims_message()`.
pub open spec fn ws_claims_of_decoded(d: Result<JwtClaimFields, (bool, String)>) -> Result<WsJwtClaims, Seq<char>> {
    match d {
        Err((_, m)) => Err(m@),
        Ok((Some(sub), _, _, Some(role), Some(exp), _)) => if exp >= 0 {
            Ok(WsJwtClaims { sub, role, exp: exp as u64 })
        } else {
            Err(bad_claims_message())
        },
        Ok(_) => Err(bad_claims_message()),
    }
}

/// `r` is `expected`, errors compared by text.
pub open spec fn ws_result_is(r: Result<WsJwtClaims, String>, expected: Result<WsJwtClaims, Seq<char>>) -> bool {
    match (r, expected) {
        (Ok(c), Ok(e)) => c == e,
        (Err(m), Err(e)) => m@ == e,
        _ => false,
    }
}

/// The claims a decoding outcome gives (see `ws_claims_of_decoded`).
pub fn ws_claims_from_decoded(d: Result<JwtClaimFields, (bool, String)>) -> (r: Result<WsJwtClaims, String>)
    ensures
        ws_result_is(r, ws_claims_of_decoded(d)),
{
    match d {
        Err((_, message)) => Err(message),
        Ok(f) => match f {
            (Some(sub), _, _, Some(role), Some(exp), _) => {
                if exp < 0 {
                    Err("missing or mistyped claim (sub, role, exp)".to_string())
                } else {
                    Ok(WsJwtClaims { sub, role, exp: exp as u64 })
                }
            },
            _ => Err("missing or mistyped claim (sub, role, exp)".to_string()),
        },
    }
}

/// Checks a WebSocket token against `secret`: refused without a secret;
/// otherwise the token is decoded and its claims taken as
/// `ws_claims_of_decoded` says. The claims of a token signed with the
/// secret are given back as signed.
pub fn validate_ws_jwt(token: &str, secret: &str) -> (r: Result<WsJwtClaims, String>)
    ensures
        secret@.len() == 0 ==> (r matches Err(m) && m@ == "no JWT secret configured"@),
        secret@.len() > 0 ==> exists|d: Result<JwtClaimFields, (bool, String)>| #[trigger] decode_agrees(token@, secret@, d)
            && ws_result_is(r, ws_claims_of_decoded(d)),
        forall|sub: Seq<char>, exp: i64, iat: i64, jti: Seq<char>, tt: Seq<char>|
            #[trigger] jwt_encoding(sub, exp, iat, jti, tt, secret@) == token@ && r is Ok ==> r->Ok_0.sub@ == sub,
{
    if secret.unicode_len() == 0 {
        return Err("no JWT secret configured".to_string());
    }
    let d = jwt_decode(token, secret);
    let ghost gd = d;
    let r = ws_claims_from_decoded(d);
    assert(decode_agrees(token@, secret@, gd) && ws_result_is(r, ws_claims_of_decoded(gd)));
    r
}

/// The text of an optional token (empty when there is none).
pub open spec fn token_text(token: Option<&str>) -> Seq<char> {
    match token {
        Some(t) => t@,
        None => Seq::empty(),
    }
}

/// Where an admitted action goes.
#[derive(Debug, Clone)]
pub enum WsRoute {
    /// The built-in `auth` action.
    Auth,
    /// A plugin action, run as this identity.
    Plugin(Identity),
}

/// Dispatcher settings: the secret of WebSocket tokens, whether anonymous
/// actions are refused, and whether sessions are tracked at all.
pub struct PluginWsDispatcher {
    jwt_secret: String,
    require_auth: bool,
    has_session_manager: bool,
}

impl PluginWsDispatcher {
    /// The token secret.
    pub closed spec fn secret(self) -> Seq<char> {
        self.jwt_secret@
    }

    /// Whether anonymous actions are refused.
    pub closed spec fn auth_required(self) -> bool {
        self.require_auth
    }

    /// Whether sessions are tracked.
    pub closed spec fn tracks_sessions(self) -> bool {
        self.has_session_manager
    }

    /// A dispatcher without sessions: every action runs anonymously and
    /// none is refused.
    pub fn new() -> (d: Self)
        ensures
            d.secret().len() == 0,
            !d.auth_required(),
            !d.tracks_sessions(),
    {
        PluginWsDispatcher { jwt_secret: String::new(), require_auth: false, has_session_manager: false }
    }

    /// A dispatcher that authenticates sessions with tokens signed with
    /// `jwt_secret`.
    pub fn new_with_auth(jwt_secret: String, require_auth: bool) -> (d: Self)
        ensures
            d.secret() == jwt_secret@,
            d.auth_required() == require_auth,
            d.tracks_sessions(),
    {
        PluginWsDispatcher { jwt_secret, require_auth, has_session_manager: true }
    }

    /// Admission in front of the plugins: `auth` goes to authentication;
    /// other actions run as the session's identity, except that anonymous
    /// ones are refused when authentication is required.
    pub fn route(&self, action: &str, auth: Option<&SessionAuth>) -> (r: Result<WsRoute, HostError>)
        ensures
            action@ == "auth"@ ==> r matches Ok(WsRoute::Auth),
            action@ != "auth"@ && auth is None && self.auth_required() ==> (r matches Err(HostError::Unauthorized(m))
                && m@ == "role 'anonymous' only allows 'auth' and 'ping'"@),
            action@ != "auth"@ && !(auth is None && self.auth_required()) ==> (r matches Ok(WsRoute::Plugin(i))
                && is_identity_of(i, match auth {
                    Some(a) => Some(*a),
                    None => None,
                })),
    {
        if str_equal(action, "auth") {
            return Ok(WsRoute::Auth);
        }
        let identity = build_identity(auth);
        if identity.is_anonymous() && self.require_auth {
            return Err(HostError::Unauthorized("role 'anonymous' only allows 'auth' and 'ping'".to_string()));
        }
        Ok(WsRoute::Plugin(identity))
    }

    /// What the `auth` action at `now` answers, given what checking the
    /// token gave (`checked`): without sessions a configuration error; a
    /// missing token, a missing secret or a refused token an authentication
    /// failure (with the checker's message); no session for the
    /// connection `SessionNotFound`; otherwise the session id and the
    /// token's subject with its one role, the time and the token's hash.
    pub open spec fn auth_outcome(
        self,
        token: Option<&str>,
        session_id: Option<String>,
        now: i64,
        checked: Result<WsJwtClaims, Seq<char>>,
        r: Result<(String, AuthInfo), HostError>,
    ) -> bool {
        if !self.tracks_sessions() {
            r matches Err(HostError::Config(m)) && m@ == "session manager not configured"@
        } else {
            match token {
                None => r matches Err(e) && auth_failed(e, "missing 'token' in auth payload"@),
                Some(t) => if self.secret().len() == 0 {
                    r matches Err(e) && auth_failed(e, "no JWT secret configured"@)
                } else {
                    match checked {
                        Err(m) => r matches Err(e) && auth_failed(e, m),
                        Ok(c) => match session_id {
                            None => r matches Err(HostError::SessionNotFound(m)) && m@ == "session not found for connection"@,
                            Some(sid) => r matches Ok((s, info)) && s == sid && info.user_id == c.sub
                                && info.roles@ == seq![c.role] && info.authenticated_at == now
                                && info.token_hash@ == token_key(t@),
                        },
                    }
                },
            }
        }
    }

    /// The `auth` action at `now`: with sessions tracked, a token in the
    /// payload, a valid signature and a session bound to the connection,
    /// gives the session id and what to bind to it. Each missing piece is
    /// refused, in that order.
    pub fn authenticate_at(&self, token: Option<&str>, session_id: Option<String>, now: i64) -> (r: Result<(String, AuthInfo), HostError>)
        ensures
            exists|d: Result<JwtClaimFields, (bool, String)>| #[trigger] decode_agrees(
                token_text(token), self.secret(), d)
                && self.auth_outcome(token, session_id, now, ws_claims_of_decoded(d), r),
            r matches Ok((sid, info)) ==> {
                &&& token matches Some(t) && info.token_hash@ == token_key(t@)
                &&& session_id == Some(sid)
                &&& info.roles@.len() == 1
                &&& info.authenticated_at == now
                &&& forall|sub: Seq<char>, exp: i64, iat: i64, jti: Seq<char>, tt: Seq<char>|
                    #[trigger] jwt_encoding(sub, exp, iat, jti, tt, self.secret()) == token->Some_0@ ==> info.user_id@ == sub
            },
    {
        let ghost tok = token_text(token);
        let ghost refused: Result<JwtClaimFields, (bool, String)> = Err((false, vstd::pervasive::arbitrary()));
        assert(decode_agrees(tok, self.secret(), refused));
        if !self.has_session_manager {
            let r = Err(HostError::Config("session manager not configured".to_string()));
            assert(self.auth_outcome(token, session_id, now, ws_claims_of_decoded(refused), r));
            return r;
        }
        let t = match token {
            Some(t) => t,
            None => {
                let r = Err(HostError::AuthFailed("missing 'token' in auth payload".to_string()));
                assert(self.auth_outcome(token, session_id, now, ws_claims_of_decoded(refused), r));
                return r;
            },
        };
        let checked = validate_ws_jwt(t, self.jwt_secret.as_str());
        let ghost d = if self.secret().len() > 0 {
            choose|d: Result<JwtClaimFields, (bool, String)>| #[trigger] decode_agrees(t@, self.secret(), d)
                && ws_result_is(checked, ws_claims_of_decoded(d))
        } else {
            refused
        };
        assert(decode_agrees(tok, self.secret(), d));
        let claims = match checked {
            Ok(c) => c,
            Err(m) => {
                let r = Err(HostError::AuthFailed(m));
                assert(self.auth_outcome(token, session_id, now, ws_claims_of_decoded(d), r));
                return r;
            },
        };
        let sid = match session_id {
            Some(s) => s,
            None => {
                let r = Err(HostError::SessionNotFound("session not found for connection".to_string()));
                assert(self.auth_outcome(token, session_id, now, ws_claims_of_decoded(d), r));
                return r;
            },
        };
        let ghost sid_g = sid;
        let mut roles: Vec<String> = Vec::new();
        roles.push(claims.role);
        assert(roles@ =~= seq![claims.role]);
        let info = AuthInfo { user_id: claims.sub, roles, authenticated_at: now, token_hash: hash_token(t) };
        let r = Ok((sid, info));
        assert(self.auth_outcome(token, session_id, now, ws_claims_of_decoded(d), r));
        r
    }

    /// The `auth` action now.
    pub fn authenticate(&self, token: Option<&str>, session_id: Option<String>) -> (r: Result<(String, AuthInfo), HostError>)
        ensures
            exists|now: i64, d: Result<JwtClaimFields, (bool, String)>| 0 <= now && #[trigger] decode_agrees(
                token_text(token), self.secret(), d)
                && #[trigger] self.auth_outcome(token, session_id, now, ws_claims_of_decoded(d), r),
            r matches Ok((sid, info)) ==> token matches Some(t) && info.token_hash@ == token_key(t@) && session_id == Some(sid),
    {
        self.authenticate_at(token, session_id, now_millis())
    }
}

} // verus!
