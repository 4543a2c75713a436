//! Accounts of the identity plugin: registration, sign-in with a password
//! and a one-time code, and the life of access and refresh tokens.
use vstd::prelude::*;
use crate::credentials::{argon2_verdict, hash_password, jwt_encoding, secs_of, verify_password, TokenService};
use crate::identity::{AuthProvider, IdentityError, OAuthUserInfo, TokenPair};
use crate::keyed::{distinct_idents, find_in, lemma_position_at, lemma_push_new, lemma_update_same_ident, position_in, upsert, Identified};
use crate::messaging_types::{now_millis, random_uuid, random_uuid_simple};
use crate::mfa::{base32_decoded, code_verdict, totp_accepts, totp_provisioning_url, TotpService};
use crate::session_store::{rotated_at, token_key, ActiveSession, SessionStore};
use crate::text::{push_str, str_equal};
use vstd::utf8::encode_utf8;

verus! {

/// An account. Times are milliseconds since the Unix epoch.
#[derive(Debug, Clone)]
pub struct User {
    pub id: String,
    pub username: String,
    pub email: String,
    pub display_name: String,
    pub password_hash: Option<String>,
    pub provider: AuthProvider,
    pub provider_sub: Option<String>,
    pub mfa_enabled: bool,
    pub mfa_secret: Option<String>,
    pub created_at: i64,
    pub updated_at: i64,
    pub last_login_at: Option<i64>,
    pub is_active: bool,
}

impl Identified for User {
    open spec fn ident(&self) -> Seq<char> {
        self.id@
    }
}

fn copy_opt(s: &Option<String>) -> (r: Option<String>)
    ensures
        r == *s,
{
    match s {
        Some(x) => Some(x.clone()),
        None => None,
    }
}

/// An id of the form `usr_<32 hexadecimal digits>`.
fn new_user_id() -> (id: String)
    ensures
        id@.len() == 36,
        id@.subrange(0, 4) == "usr_"@,
{
    let mut id = String::new();
    push_str(&mut id, "usr_");
    let u = random_uuid_simple();
    push_str(&mut id, u.as_str());
    proof {
        reveal_strlit("usr_");
        assert(id@.subrange(0, 4) =~= "usr_"@);
    }
    id
}

impl User {
    /// A copy of the account.
    pub fn duplicate(&self) -> (r: Self)
        ensures
            r == *self,
    {
        User {
            id: self.id.clone(),
            username: self.username.clone(),
            email: self.email.clone(),
            display_name: self.display_name.clone(),
            password_hash: copy_opt(&self.password_hash),
            provider: self.provider,
            provider_sub: copy_opt(&self.provider_sub),
            mfa_enabled: self.mfa_enabled,
            mfa_secret: copy_opt(&self.mfa_secret),
            created_at: self.created_at,
            updated_at: self.updated_at,
            last_login_at: self.last_login_at,
            is_active: self.is_active,
        }
    }

    /// An active local account with id `id`, created at `now`, with an
    /// empty display name and no second factor.
    pub fn create_local(id: String, username: String, email: String, password_hash: String, now: i64) -> (u: Self)
        ensures
            u.id == id,
            u.username == username,
            u.email == email,
            u.display_name@ == Seq::<char>::empty(),
            u.password_hash == Some(password_hash),
            u.provider == AuthProvider::Local,
            u.provider_sub is None,
            !u.mfa_enabled,
            u.mfa_secret is None,
            u.created_at == now,
            u.updated_at == now,
            u.last_login_at is None,
            u.is_active,
    {
        User {
            id,
            username,
            email,
            display_name: String::new(),
            password_hash: Some(password_hash),
            provider: AuthProvider::Local,
            provider_sub: None,
            mfa_enabled: false,
            mfa_secret: None,
            created_at: now,
            updated_at: now,
            last_login_at: None,
            is_active: true,
        }
    }

    /// A new local account with a fresh `usr_` id, created now.
    pub fn new_local(username: String, email: String, password_hash: String) -> (u: Self)
        ensures
            u.id@.len() == 36,
            u.id@.subrange(0, 4) == "usr_"@,
            u.username == username,
            u.email == email,
            u.display_name@ == Seq::<char>::empty(),
            u.password_hash == Some(password_hash),
            u.provider == AuthProvider::Local,
            u.provider_sub is None,
            !u.mfa_enabled,
            u.mfa_secret is None,
            u.created_at == u.updated_at,
            u.last_login_at is None,
            u.is_active,
    {
        let id = new_user_id();
        User::create_local(id, username, email, password_hash, now_millis())
    }

    /// An active account of an OAuth provider with id `id`, created at
    /// `now`; its display name is the e-mail address and it has no password.
    pub fn create_oauth(id: String, username: String, email: String, provider: AuthProvider, provider_sub: String, now: i64) -> (u: Self)
        ensures
            u.id == id,
            u.username == username,
            u.email == email,
            u.display_name == email,
            u.password_hash is None,
            u.provider == provider,
            u.provider_sub == Some(provider_sub),
            !u.mfa_enabled,
            u.mfa_secret is None,
            u.created_at == now,
            u.updated_at == now,
            u.last_login_at is None,
            u.is_active,
    {
        let display_name = email.clone();
        User {
            id,
            username,
            email,
            display_name,
            password_hash: None,
            provider,
            provider_sub: Some(provider_sub),
            mfa_enabled: false,
            mfa_secret: None,
            created_at: now,
            updated_at: now,
            last_login_at: None,
            is_active: true,
        }
    }

    /// A new account of an OAuth provider with a fresh `usr_` id, created now.
    pub fn new_oauth(username: String, email: String, provider: AuthProvider, provider_sub: String) -> (u: Self)
        ensures
            u.id@.len() == 36,
            u.id@.subrange(0, 4) == "usr_"@,
            u.username == username,
            u.email == email,
            u.display_name == email,
            u.password_hash is None,
            u.provider == provider,
            u.provider_sub == Some(provider_sub),
            !u.mfa_enabled,
            u.mfa_secret is None,
            u.created_at == u.updated_at,
            u.last_login_at is None,
            u.is_active,
    {
        let id = new_user_id();
        User::create_oauth(id, username, email, provider, provider_sub, now_millis())
    }
}

/// No e-mail address belongs to two accounts.
pub open spec fn emails_distinct(users: Seq<User>) -> bool {
    forall|i: int, j: int| 0 <= i < users.len() && 0 <= j < users.len() && i != j ==> (#[trigger] users[i]).email@ != (#[trigger] users[j]).email@
}

/// The account registered under `email`, if any.
pub open spec fn account_by_email(users: Seq<User>, email: Seq<char>) -> Option<User> {
    if exists|k: int| 0 <= k < users.len() && (#[trigger] users[k]).email@ == email {
        Some(users[choose|k: int| 0 <= k < users.len() && (#[trigger] users[k]).email@ == email])
    } else {
        None
    }
}

proof fn lemma_email_at(users: Seq<User>, i: int)
    requires
        emails_distinct(users),
        0 <= i < users.len(),
    ensures
        account_by_email(users, users[i].email@) == Some(users[i]),
{
    let k = choose|k: int| 0 <= k < users.len() && (#[trigger] users[k]).email@ == users[i].email@;
    if k != i {
        assert(users[k].email@ != users[i].email@);
    }
}

/// A new account whose address is not taken is found under its address
/// once stored, and the addresses stay distinct.
proof fn lemma_upsert_fresh_email(users: Seq<User>, u: User)
    requires
        distinct_idents(users),
        emails_distinct(users),
        account_by_email(users, u.email@) is None,
    ensures
        distinct_idents(upsert(users, u)),
        emails_distinct(upsert(users, u)),
        account_by_email(upsert(users, u), u.email@) == Some(u),
        find_in(upsert(users, u), u.id@) == Some(u),
{
    let w = upsert(users, u);
    assert forall|k: int| 0 <= k < users.len() implies (#[trigger] users[k]).email@ != u.email@ by {}
    match position_in(users, u.id@) {
        Some(p) => {
            lemma_update_same_ident(users, p, u);
            assert forall|a: int, b: int| 0 <= a < w.len() && 0 <= b < w.len() && a != b implies (#[trigger] w[a]).email@ != (#[trigger] w[b]).email@ by {
                if a != p {
                    assert(w[a] == users[a]);
                }
                if b != p {
                    assert(w[b] == users[b]);
                }
            }
            assert(w[p] == u);
            lemma_email_at(w, p);
        },
        None => {
            lemma_push_new(users, u);
            let n = users.len() as int;
            assert forall|a: int, b: int| 0 <= a < w.len() && 0 <= b < w.len() && a != b implies (#[trigger] w[a]).email@ != (#[trigger] w[b]).email@ by {
                if a < n {
                    assert(w[a] == users[a]);
                }
                if b < n {
                    assert(w[b] == users[b]);
                }
            }
            assert(w[n] == u);
            lemma_email_at(w, n);
        },
    }
}

/// Replacing an account by one with the same id and address keeps ids and
/// addresses distinct.
proof fn lemma_replace_same(users: Seq<User>, p: int, u: User)
    requires
        distinct_idents(users),
        emails_distinct(users),
        0 <= p < users.len(),
        u.id@ == users[p].id@,
        u.email@ == users[p].email@,
    ensures
        distinct_idents(users.update(p, u)),
        emails_distinct(users.update(p, u)),
        find_in(users.update(p, u), u.id@) == Some(u),
{
    lemma_update_same_ident(users, p, u);
    let w = users.update(p, u);
    assert forall|a: int, b: int| 0 <= a < w.len() && 0 <= b < w.len() && a != b implies (#[trigger] w[a]).email@ != (#[trigger] w[b]).email@ by {
        assert(w[a].email@ == users[a].email@ && w[b].email@ == users[b].email@);
    }
}

/// What issuing a token pair at `now` for `user_id` did: the access and
/// refresh tokens are the signed claims with the given token ids, the
/// refresh token is stored and the session `session_id` opened; accounts
/// and other records are untouched.
pub open spec fn issued_at(
    before: IdentityManager,
    after: IdentityManager,
    user_id: Seq<char>,
    device_id: Option<String>,
    ip: Option<String>,
    pair: TokenPair,
    now: i64,
    access_jti: Seq<char>,
    refresh_jti: Seq<char>,
    session_id: Seq<char>,
) -> bool {
    let t = before.tokens();
    let iat = secs_of(now as int);
    &&& pair.access_token@ == jwt_encoding(user_id, (iat + t.access_ttl()) as i64, iat as i64, access_jti, "access"@, t.secret())
    &&& pair.refresh_token@ == jwt_encoding(user_id, (iat + t.refresh_ttl()) as i64, iat as i64, refresh_jti, "refresh"@, t.secret())
    &&& pair.expires_in == t.access_ttl()
    &&& pair.token_type@ == "Bearer"@
    &&& after.accounts() == before.accounts()
    &&& after.tokens() == before.tokens()
    &&& after.sessions().ttl() == before.sessions().ttl()
    &&& after.sessions().record(token_key(pair.refresh_token@)) matches Some(rec) && {
        &&& rec.user_id@ == user_id
        &&& rec.device_id == device_id
        &&& rec.created_at == now
        &&& rec.expires_at == now + t.refresh_ttl() * 1000
        &&& !rec.revoked
    }
    &&& forall|k: Seq<char>| k != token_key(pair.refresh_token@) ==> #[trigger] after.sessions().record(k) == before.sessions().record(k)
    &&& after.sessions().session(session_id) matches Some(s) && {
        &&& s.user_id@ == user_id
        &&& s.device_id == device_id
        &&& s.ip_address == ip
        &&& s.created_at == now
        &&& s.expires_at == now + t.access_ttl() * 1000
    }
    &&& forall|id: Seq<char>| id != session_id ==> #[trigger] after.sessions().session(id) == before.sessions().session(id)
}

/// A token pair was issued for `user_id` at some time, with some token
/// and session ids.
pub open spec fn tokens_issued(before: IdentityManager, after: IdentityManager, user_id: Seq<char>, device_id: Option<String>, ip: Option<String>, pair: TokenPair) -> bool {
    exists|now: i64, aj: Seq<char>, rj: Seq<char>, sid: Seq<char>| issued_at(before, after, user_id, device_id, ip, pair, now, aj, rj, sid)
}

/// Outcome of checking an access token: an expired or otherwise bad
/// token is refused, and a token signed for an account names it.
pub open spec fn access_verdict(t: TokenService, token: Seq<char>, r: Result<String, IdentityError>) -> bool {
    &&& r matches Err(e) ==> (e is TokenExpired || e is TokenInvalid)
    &&& forall|sub: Seq<char>, exp: i64, iat: i64, jti: Seq<char>, tt: Seq<char>|
        #[trigger] jwt_encoding(sub, exp, iat, jti, tt, t.secret()) == token && r is Ok ==> r->Ok_0@ == sub
}

/// Checking `email` and `password` against the accounts, before any
/// second factor: the account that passed, or the refusal. `Err(None)`
/// stands for a stored hash that cannot be read.
pub open spec fn password_check(users: Seq<User>, email: Seq<char>, password: Seq<char>) -> Result<User, Option<IdentityError>> {
    match account_by_email(users, email) {
        None => Err(Some(IdentityError::UserNotFound)),
        Some(u) => if !u.is_active {
            Err(Some(IdentityError::AccountDisabled))
        } else {
            match u.password_hash {
                None => Err(Some(IdentityError::InvalidCredentials)),
                Some(h) => match argon2_verdict(encode_utf8(password), h@) {
                    None => Err(None),
                    Some(false) => Err(Some(IdentityError::InvalidCredentials)),
                    Some(true) => Ok(u),
                },
            }
        },
    }
}

/// `r` is the refusal `e`: that error, or an internal one where `e` is
/// `None`.
pub open spec fn refused_with<T>(r: Result<T, IdentityError>, e: Option<IdentityError>) -> bool {
    match e {
        Some(x) => r == Err::<T, IdentityError>(x),
        None => r matches Err(IdentityError::Internal(_)),
    }
}

/// What a refresh did before issuing new tokens: the live record `rec` of
/// `token` was revoked at `now`, nothing else changed.
pub open spec fn spent_refresh(before: IdentityManager, mid: IdentityManager, token: Seq<char>, now: i64, rec: crate::session_store::RefreshTokenRecord) -> bool {
    &&& before.sessions().record(token_key(token)) == Some(rec)
    &&& !rec.revoked
    &&& rotated_at(before.sessions(), mid.sessions(), token, now, Ok(crate::session_store::RefreshTokenRecord { revoked: true, ..rec }))
    &&& mid.sessions().ttl() == before.sessions().ttl()
    &&& mid.accounts() == before.accounts()
    &&& mid.tokens() == before.tokens()
}

/// Accounts, tokens and sessions of the identity plugin.
pub struct IdentityManager {
    users: Vec<User>,
    tokens: TokenService,
    sessions: SessionStore,
}

impl IdentityManager {
    /// The accounts, in the order registered.
    pub closed spec fn accounts(self) -> Seq<User> {
        self.users@
    }

    /// The token service.
    pub closed spec fn tokens(self) -> TokenService {
        self.tokens
    }

    /// The store of refresh tokens and sessions.
    pub closed spec fn sessions(self) -> SessionStore {
        self.sessions
    }

    /// One account per id and per address; the session store is sound and
    /// keeps refresh tokens as long as they are issued for; lifetimes fit
    /// in milliseconds.
    pub closed spec fn wf(self) -> bool {
        &&& distinct_idents(self.users@)
        &&& emails_distinct(self.users@)
        &&& self.sessions.wf()
        &&& self.sessions.ttl() == self.tokens.refresh_ttl()
        &&& self.tokens.access_ttl() <= i64::MAX / 1000
        &&& self.tokens.refresh_ttl() <= i64::MAX / 1000
    }

    /// The token lifetimes leave room for any clock reading: an expiry
    /// time stays within an `i64` however late the clock (below 10^16 ms).
    pub open spec fn ttl_headroom(self) -> bool {
        &&& self.tokens().access_ttl() * 1000 + 10_000_000_000_000_000 <= i64::MAX
        &&& self.tokens().refresh_ttl() * 1000 + 10_000_000_000_000_000 <= i64::MAX
    }

    /// A well-formed manager has one account per id and per address.
    pub proof fn lemma_wf(self)
        requires
            self.wf(),
        ensures
            distinct_idents(self.accounts()),
            emails_distinct(self.accounts()),
            self.sessions().wf(),
            self.sessions().ttl() == self.tokens().refresh_ttl(),
    {
    }

    /// A manager without accounts, signing tokens with `jwt_secret`.
    pub fn new(jwt_secret: &str, access_ttl_secs: u64, refresh_ttl_secs: u64) -> (m: Self)
        requires
            access_ttl_secs <= i64::MAX / 1000,
            refresh_ttl_secs <= i64::MAX / 1000,
        ensures
            m.wf(),
            m.accounts().len() == 0,
            m.tokens().secret() == jwt_secret@,
            m.tokens().access_ttl() == access_ttl_secs,
            m.tokens().refresh_ttl() == refresh_ttl_secs,
            m.sessions().token_rows().len() == 0,
            m.sessions().session_rows().len() == 0,
    {
        IdentityManager {
            users: Vec::new(),
            tokens: TokenService::new(jwt_secret, access_ttl_secs, refresh_ttl_secs),
            sessions: SessionStore::new(refresh_ttl_secs),
        }
    }

    fn email_index(&self, email: &str) -> (r: Option<usize>)
        requires
            self.wf(),
        ensures
            r is None <==> account_by_email(self.accounts(), email@) is None,
            r matches Some(i) ==> i < self.accounts().len() && account_by_email(self.accounts(), email@) == Some(self.accounts()[i as int]),
    {
        let mut i: usize = 0;
        while i < self.users.len()
            invariant
                self.wf(),
                i <= self.users@.len(),
                forall|k: int| 0 <= k < i ==> (#[trigger] self.users@[k]).email@ != email@,
            decreases self.users.len() - i,
        {
            if str_equal(self.users[i].email.as_str(), email) {
                proof {
                    lemma_email_at(self.users@, i as int);
                }
                return Some(i);
            }
            i = i + 1;
        }
        None
    }

    fn id_index(&self, id: &str) -> (r: Option<usize>)
        requires
            self.wf(),
        ensures
            r is None <==> find_in(self.accounts(), id@) is None,
            r matches Some(i) ==> i < self.accounts().len() && position_in(self.accounts(), id@) == Some(i as int)
                && find_in(self.accounts(), id@) == Some(self.accounts()[i as int]),
    {
        let mut i: usize = 0;
        while i < self.users.len()
            invariant
                self.wf(),
                i <= self.users@.len(),
                forall|k: int| 0 <= k < i ==> (#[trigger] self.users@[k]).ident() != id@,
            decreases self.users.len() - i,
        {
            if str_equal(self.users[i].id.as_str(), id) {
                proof {
                    lemma_position_at(self.users@, i as int);
                }
                return Some(i);
            }
            i = i + 1;
        }
        None
    }

    fn store_user(&mut self, u: User)
        requires
            old(self).wf(),
            account_by_email(old(self).accounts(), u.email@) is None,
        ensures
            final(self).wf(),
            final(self).accounts() == upsert(old(self).accounts(), u),
            final(self).tokens() == old(self).tokens(),
            final(self).sessions() == old(self).sessions(),
    {
        proof {
            lemma_upsert_fresh_email(self.users@, u);
        }
        match self.id_index(u.id.as_str()) {
            Some(i) => {
                self.users.set(i, u);
            },
            None => {
                self.users.push(u);
            },
        }
    }

    /// Registers a local account: refused when the address is taken,
    /// otherwise the password is hashed and the new account stored and
    /// returned.
    pub fn register(&mut self, username: String, email: String, password: String) -> (r: Result<User, IdentityError>)
        requires
            old(self).wf(),
        ensures
            final(self).wf(),
            account_by_email(old(self).accounts(), email@) is Some ==> (r matches Err(IdentityError::EmailAlreadyExists) && *final(self) == *old(self)),
            account_by_email(old(self).accounts(), email@) is None ==> match r {
                Ok(u) => {
                    &&& u.id@.subrange(0, 4) == "usr_"@
                    &&& u.username == username
                    &&& u.email == email
                    &&& u.password_hash matches Some(h) && argon2_verdict(encode_utf8(password@), h@) == Some(true)
                    &&& u.provider == AuthProvider::Local
                    &&& u.is_active && !u.mfa_enabled && u.mfa_secret is None
                    &&& final(self).accounts() == upsert(old(self).accounts(), u)
                    &&& account_by_email(final(self).accounts(), email@) == Some(u)
                    &&& final(self).tokens() == old(self).tokens()
                    &&& final(self).sessions() == old(self).sessions()
                },
                Err(e) => e is Internal && *final(self) == *old(self),
            },
            account_by_email(old(self).accounts(), email@) is None && encode_utf8(password@).len() <= 0xFFFF_FFFF ==> r is Ok,
    {
        if self.email_index(email.as_str()).is_some() {
            return Err(IdentityError::EmailAlreadyExists);
        }
        let password_hash = hash_password(password.as_str())?;
        let user = User::new_local(username, email, password_hash);
        let copy = user.duplicate();
        proof {
            lemma_upsert_fresh_email(self.users@, user);
        }
        self.store_user(user);
        Ok(copy)
    }

    /// Registers the account reported by an OAuth provider, or returns the
    /// account already registered under that address.
    pub fn register_oauth(&mut self, info: OAuthUserInfo) -> (r: Result<User, IdentityError>)
        requires
            old(self).wf(),
        ensures
            final(self).wf(),
            r is Ok,
            account_by_email(old(self).accounts(), info.email@) matches Some(u) ==> (r == Ok::<User, IdentityError>(u) && *final(self) == *old(self)),
            account_by_email(old(self).accounts(), info.email@) is None ==> {
                let u = r->Ok_0;
                &&& u.id@.subrange(0, 4) == "usr_"@
                &&& u.username == info.display_name
                &&& u.email == info.email
                &&& u.display_name == info.email
                &&& u.password_hash is None
                &&& u.provider == info.provider
                &&& u.provider_sub == Some(info.sub)
                &&& u.is_active && !u.mfa_enabled
                &&& final(self).accounts() == upsert(old(self).accounts(), u)
                &&& final(self).tokens() == old(self).tokens()
                &&& final(self).sessions() == old(self).sessions()
            },
    {
        match self.email_index(info.email.as_str()) {
            Some(i) => Ok(self.users[i].duplicate()),
            None => {
                let user = User::new_oauth(info.display_name, info.email, info.provider, info.sub);
                let copy = user.duplicate();
                self.store_user(user);
                Ok(copy)
            },
        }
    }

    /// Issues a token pair for `user_id` at `now` with the given token and
    /// session ids: stores the refresh token and opens a session that ends
    /// with the access token.
    pub fn issue_token_pair_at(
        &mut self,
        user_id: &str,
        device_id: Option<String>,
        ip: Option<String>,
        now: i64,
        access_jti: String,
        refresh_jti: String,
        session_id: String,
    ) -> (r: Result<TokenPair, IdentityError>)
        requires
            old(self).wf(),
            now + old(self).tokens().access_ttl() * 1000 <= i64::MAX,
            now + old(self).tokens().refresh_ttl() * 1000 <= i64::MAX,
        ensures
            final(self).wf(),
            r matches Ok(p) ==> issued_at(*old(self), *final(self), user_id@, device_id, ip, p, now, access_jti@, refresh_jti@, session_id@),
            r is Ok,
    {
        let access = self.tokens.issue_access_token_at(user_id, now, access_jti)?;
        let refresh = self.tokens.issue_refresh_token_at(user_id, now, refresh_jti)?;
        let ghost before = *self;
        let dev_copy = copy_opt(&device_id);
        self.sessions.store_refresh_token_at(refresh.as_str(), user_id.to_string(), dev_copy, now);
        let ghost mid = self.sessions;
        let expires_at = now + (self.tokens.access_ttl_secs() * 1000) as i64;
        let session = ActiveSession { session_id, user_id: user_id.to_string(), device_id, ip_address: ip, created_at: now, expires_at };
        self.sessions.create_session(session);
        proof {
            assert(self.sessions.record(token_key(refresh@)) == mid.record(token_key(refresh@)));
            assert forall|k: Seq<char>| k != token_key(refresh@) implies #[trigger] self.sessions.record(k) == before.sessions.record(k) by {
                assert(self.sessions.record(k) == mid.record(k));
            }
        }
        let expires_in = self.tokens.access_ttl_secs();
        Ok(TokenPair::new(access, refresh, expires_in))
    }

    /// Issues a token pair for `user_id` now, with fresh token and session
    /// ids; an internal error when the clock is so far ahead that the
    /// expiry times would not fit.
    fn issue_token_pair(&mut self, user_id: &str, device_id: Option<String>, ip: Option<String>) -> (r: Result<TokenPair, IdentityError>)
        requires
            old(self).wf(),
        ensures
            final(self).wf(),
            r matches Ok(p) ==> tokens_issued(*old(self), *final(self), user_id@, device_id, ip, p),
            r matches Err(e) ==> e is Internal && *final(self) == *old(self),
            old(self).ttl_headroom() ==> r is Ok,
    {
        let now = now_millis();
        let access_span = (self.tokens.access_ttl_secs() * 1000) as i64;
        let refresh_span = (self.sessions_ttl_ms()) as i64;
        if now > i64::MAX - access_span || now > i64::MAX - refresh_span {
            return Err(IdentityError::Internal("clock out of range".to_string()));
        }
        let aj = random_uuid();
        let rj = random_uuid();
        let sid = random_uuid();
        let ghost (gaj, grj, gsid) = (aj@, rj@, sid@);
        let r = self.issue_token_pair_at(user_id, device_id, ip, now, aj, rj, sid);
        proof {
            if r is Ok {
                assert(issued_at(*old(self), *self, user_id@, device_id, ip, r->Ok_0, now, gaj, grj, gsid));
            }
        }
        r
    }

    fn sessions_ttl_ms(&self) -> (n: u64)
        requires
            self.wf(),
        ensures
            n == self.tokens().refresh_ttl() * 1000,
    {
        self.tokens.refresh_ttl_secs() * 1000
    }

    fn authenticate(&self, email: &str, password: &str) -> (r: Result<usize, IdentityError>)
        requires
            self.wf(),
        ensures
            match password_check(self.accounts(), email@, password@) {
                Ok(u) => r matches Ok(i) && i < self.accounts().len() && self.accounts()[i as int] == u,
                Err(e) => refused_with(r, e),
            },
    {
        let i = match self.email_index(email) {
            Some(i) => i,
            None => {
                return Err(IdentityError::UserNotFound);
            },
        };
        let user = &self.users[i];
        if !user.is_active {
            return Err(IdentityError::AccountDisabled);
        }
        let hash = match &user.password_hash {
            Some(h) => h,
            None => {
                return Err(IdentityError::InvalidCredentials);
            },
        };
        if !verify_password(password, hash.as_str())? {
            return Err(IdentityError::InvalidCredentials);
        }
        Ok(i)
    }

    /// Signs in with an address and a password: an unknown address, a
    /// disabled account, a wrong password or an account that needs a
    /// second factor is refused; otherwise a token pair is issued.
    pub fn login(&mut self, email: &str, password: &str, device_id: Option<String>, ip: Option<String>) -> (r: Result<TokenPair, IdentityError>)
        requires
            old(self).wf(),
        ensures
            final(self).wf(),
            match password_check(old(self).accounts(), email@, password@) {
                Err(e) => refused_with(r, e) && *final(self) == *old(self),
                Ok(u) => if u.mfa_enabled {
                    r == Err::<TokenPair, IdentityError>(IdentityError::MfaRequired) && *final(self) == *old(self)
                } else {
                    match r {
                        Ok(p) => tokens_issued(*old(self), *final(self), u.id@, device_id, ip, p),
                        Err(e) => e is Internal && *final(self) == *old(self),
                    }
                },
            },
            password_check(old(self).accounts(), email@, password@) matches Ok(u) && !u.mfa_enabled && old(self).ttl_headroom() ==> r is Ok,
    {
        let i = self.authenticate(email, password)?;
        if self.users[i].mfa_enabled {
            return Err(IdentityError::MfaRequired);
        }
        let uid = self.users[i].id.clone();
        self.issue_token_pair(uid.as_str(), device_id, ip)
    }

    /// Signs in with an address, a password and the current one-time code
    /// of the account's second factor.
    pub fn login_with_mfa(&mut self, email: &str, password: &str, mfa_code: &str, device_id: Option<String>, ip: Option<String>) -> (r: Result<TokenPair, IdentityError>)
        requires
            old(self).wf(),
        ensures
            final(self).wf(),
            match password_check(old(self).accounts(), email@, password@) {
                Err(e) => refused_with(r, e) && *final(self) == *old(self),
                Ok(u) => match u.mfa_secret {
                    None => r == Err::<TokenPair, IdentityError>(IdentityError::MfaCodeInvalid) && *final(self) == *old(self),
                    Some(secret) => if !totp_accepts(secret@, u.email@, "Draox"@) {
                        r matches Err(IdentityError::Internal(_)) && *final(self) == *old(self)
                    } else {
                        &&& match r {
                            Ok(p) => tokens_issued(*old(self), *final(self), u.id@, device_id, ip, p),
                            Err(e) => (e is MfaCodeInvalid || e is Internal) && *final(self) == *old(self),
                        }
                        &&& r matches Err(IdentityError::MfaCodeInvalid) ==> exists|t: u64| t < 10_000_000_000_000
                            && !#[trigger] code_verdict(secret@, mfa_code@, t)
                        &&& old(self).ttl_headroom() ==> (r is Ok || r matches Err(IdentityError::MfaCodeInvalid))
                    },
                },
            },
    {
        let i = self.authenticate(email, password)?;
        let secret = match &self.users[i].mfa_secret {
            Some(s) => s.clone(),
            None => {
                return Err(IdentityError::MfaCodeInvalid);
            },
        };
        let ok = TotpService::verify_code(secret.as_str(), mfa_code, self.users[i].email.as_str(), "Draox");
        proof {
            reveal_strlit("Draox");
        }
        if !ok? {
            return Err(IdentityError::MfaCodeInvalid);
        }
        let uid = self.users[i].id.clone();
        self.issue_token_pair(uid.as_str(), device_id, ip)
    }

    /// Trades a live refresh token for a new token pair: the old token is
    /// revoked first. Unknown tokens are invalid, revoked ones refused.
    pub fn refresh(&mut self, refresh_token: &str) -> (r: Result<TokenPair, IdentityError>)
        requires
            old(self).wf(),
        ensures
            final(self).wf(),
            old(self).sessions().record(token_key(refresh_token@)) is None ==> (r matches Err(IdentityError::TokenInvalid) && *final(self) == *old(self)),
            old(self).sessions().record(token_key(refresh_token@)) matches Some(rec) && rec.revoked ==> (r matches Err(IdentityError::TokenRevoked) && *final(self) == *old(self)),
            r matches Ok(p) ==> exists|mid: IdentityManager, now: i64, rec: crate::session_store::RefreshTokenRecord|
                spent_refresh(*old(self), mid, refresh_token@, now, rec) && tokens_issued(mid, *final(self), rec.user_id@, rec.device_id, None, p),
            r is Err ==> final(self).accounts() == old(self).accounts() && final(self).tokens() == old(self).tokens(),
            match old(self).sessions().record(token_key(refresh_token@)) {
                Some(rec) => !rec.revoked ==> {
                    &&& {
                        ||| r is Ok
                        ||| (r matches Err(IdentityError::TokenExpired) && rec.expires_at < 10_000_000_000_000_000 && *final(self) == *old(self))
                        ||| (r matches Err(IdentityError::TokenInvalid) && rec.expires_at < 10_000_000_000_000_000 && *final(self) == *old(self))
                        ||| r matches Err(IdentityError::Internal(_))
                    }
                    &&& rec.expires_at >= 10_000_000_000_000_000 && old(self).ttl_headroom() ==> r is Ok
                },
                None => true,
            },
    {
        let record = self.sessions.validate_refresh_token(refresh_token)?;
        let ghost before = *self;
        let rotated = self.sessions.rotate_refresh_token(refresh_token);
        if rotated.is_err() {
            return Err(rotated.unwrap_err());
        }
        let ghost mid = *self;
        let ghost now = choose|now: i64| rotated_at(before.sessions, mid.sessions, refresh_token@, now, rotated);
        proof {
            assert(spent_refresh(before, mid, refresh_token@, now, record));
        }
        let r = self.issue_token_pair(record.user_id.as_str(), record.device_id, None);
        r
    }

    /// Signs out by revoking a live refresh token.
    pub fn logout(&mut self, refresh_token: &str) -> (r: Result<(), IdentityError>)
        requires
            old(self).wf(),
        ensures
            final(self).wf(),
            final(self).accounts() == old(self).accounts(),
            final(self).tokens() == old(self).tokens(),
            final(self).sessions().ttl() == old(self).sessions().ttl(),
            exists|now: i64, rr: Result<crate::session_store::RefreshTokenRecord, IdentityError>|
                rotated_at(old(self).sessions(), final(self).sessions(), refresh_token@, now, rr)
                && (r is Ok <==> rr is Ok) && (r matches Err(e) ==> rr == Err::<crate::session_store::RefreshTokenRecord, IdentityError>(e)),
    {
        let rr = self.sessions.rotate_refresh_token(refresh_token);
        let ghost now = choose|now: i64| rotated_at(old(self).sessions, self.sessions, refresh_token@, now, rr);
        let r = match rr {
            Ok(_) => Ok(()),
            Err(e) => Err(e),
        };
        proof {
            assert(rotated_at(old(self).sessions(), self.sessions(), refresh_token@, now, rr));
        }
        r
    }

    /// Revokes every refresh token of `user_id`.
    pub fn logout_all(&mut self, user_id: &str)
        requires
            old(self).wf(),
        ensures
            final(self).wf(),
            final(self).accounts() == old(self).accounts(),
            final(self).tokens() == old(self).tokens(),
            final(self).sessions().token_rows() == crate::session_store::revoked_for(old(self).sessions().token_rows(), user_id@, None),
            final(self).sessions().session_rows() == old(self).sessions().session_rows(),
    {
        self.sessions.revoke_all_for_user(user_id);
    }

    /// The account id that an access token was signed for.
    pub fn verify_access_token(&self, token: &str) -> (r: Result<String, IdentityError>)
        ensures
            access_verdict(self.tokens(), token@, r),
    {
        let claims = self.tokens.verify_token(token)?;
        Ok(claims.sub)
    }

    /// Turns on the second factor of an account with a fresh secret and
    /// returns its provisioning URI.
    pub fn setup_mfa(&mut self, user_id: &str) -> (r: Result<String, IdentityError>)
        requires
            old(self).wf(),
        ensures
            final(self).wf(),
            final(self).tokens() == old(self).tokens(),
            final(self).sessions() == old(self).sessions(),
            find_in(old(self).accounts(), user_id@) is None ==> (r matches Err(IdentityError::UserNotFound) && *final(self) == *old(self)),
            find_in(old(self).accounts(), user_id@) matches Some(u) ==> match r {
                Ok(uri) => exists|secret: String| {
                    &&& secret@.len() == 32
                    &&& totp_accepts(secret@, u.email@, "Draox"@)
                    &&& final(self).accounts() == old(self).accounts().update(
                        position_in(old(self).accounts(), user_id@)->Some_0,
                        User { mfa_secret: Some(secret), mfa_enabled: true, ..u },
                    )
                    &&& uri@ == totp_provisioning_url(base32_decoded(secret@)->Some_0, "Draox"@, u.email@)
                } && uri@.subrange(0, 15) == "otpauth://totp/"@,
                Err(e) => e is Internal && *final(self) == *old(self),
            },
            find_in(old(self).accounts(), user_id@) matches Some(u) && !u.email@.contains(':') ==> r is Ok,
    {
        let i = match self.id_index(user_id) {
            Some(i) => i,
            None => {
                return Err(IdentityError::UserNotFound);
            },
        };
        let secret = TotpService::generate_secret();
        proof {
            reveal_strlit("Draox");
            assert(!"Draox"@.contains(':')) by {
                if "Draox"@.contains(':') {
                    let q = choose|q: int| 0 <= q < "Draox"@.len() && "Draox"@[q] == ':';
                }
            }
        }
        let uri = TotpService::provisioning_uri(secret.as_str(), self.users[i].email.as_str(), "Draox")?;
        proof {
            reveal_strlit("Draox");
        }
        let mut user = self.users[i].duplicate();
        let ghost u0 = user;
        let ghost gs = secret;
        user.mfa_secret = Some(secret);
        user.mfa_enabled = true;
        proof {
            lemma_replace_same(self.users@, i as int, user);
        }
        self.users.set(i, user);
        proof {
            assert(self.users@ == old(self).accounts().update(i as int, User { mfa_secret: Some(gs), mfa_enabled: true, ..u0 }));
        }
        Ok(uri)
    }

    /// Turns off the second factor of an account.
    pub fn disable_mfa(&mut self, user_id: &str) -> (r: Result<(), IdentityError>)
        requires
            old(self).wf(),
        ensures
            final(self).wf(),
            final(self).tokens() == old(self).tokens(),
            final(self).sessions() == old(self).sessions(),
            find_in(old(self).accounts(), user_id@) is None ==> (r matches Err(IdentityError::UserNotFound) && *final(self) == *old(self)),
            find_in(old(self).accounts(), user_id@) matches Some(u) ==> (r is Ok && final(self).accounts() == old(self).accounts().update(
                position_in(old(self).accounts(), user_id@)->Some_0,
                User { mfa_secret: None, mfa_enabled: false, ..u },
            )),
    {
        let i = match self.id_index(user_id) {
            Some(i) => i,
            None => {
                return Err(IdentityError::UserNotFound);
            },
        };
        let mut user = self.users[i].duplicate();
        user.mfa_secret = None;
        user.mfa_enabled = false;
        proof {
            lemma_replace_same(self.users@, i as int, user);
        }
        self.users.set(i, user);
        Ok(())
    }

    /// The account with id `user_id`.
    pub fn get_user_by_id(&self, user_id: &str) -> (r: Result<User, IdentityError>)
        requires
            self.wf(),
        ensures
            match find_in(self.accounts(), user_id@) {
                Some(u) => r == Ok::<User, IdentityError>(u),
                None => r matches Err(IdentityError::UserNotFound),
            },
    {
        match self.id_index(user_id) {
            Some(i) => Ok(self.users[i].duplicate()),
            None => Err(IdentityError::UserNotFound),
        }
    }

    /// The id of the account registered under `email`.
    pub fn get_user_by_email(&self, email: &str) -> (r: Result<String, IdentityError>)
        requires
            self.wf(),
        ensures
            match account_by_email(self.accounts(), email@) {
                Some(u) => r matches Ok(id) && id@ == u.id@,
                None => r matches Err(IdentityError::UserNotFound),
            },
    {
        match self.email_index(email) {
            Some(i) => Ok(self.users[i].id.clone()),
            None => Err(IdentityError::UserNotFound),
        }
    }
}

/// A token pair issued for an account carries that account as the
/// subject of its access token: checking the token never names another.
pub proof fn lemma_access_token_names_account(
    before: IdentityManager,
    after: IdentityManager,
    user_id: Seq<char>,
    device_id: Option<String>,
    ip: Option<String>,
    pair: TokenPair,
    verified: Result<String, IdentityError>,
)
    requires
        tokens_issued(before, after, user_id, device_id, ip, pair),
        access_verdict(after.tokens(), pair.access_token@, verified),
    ensures
        verified matches Ok(s) ==> s@ == user_id,
{
    let (now, aj, rj, sid) = choose|now: i64, aj: Seq<char>, rj: Seq<char>, sid: Seq<char>| issued_at(before, after, user_id, device_id, ip, pair, now, aj, rj, sid);
    let t = before.tokens();
    let iat = secs_of(now as int);
    assert(jwt_encoding(user_id, (iat + t.access_ttl()) as i64, iat as i64, aj, "access"@, after.tokens().secret()) == pair.access_token@);
}

/// A refresh token that was traded for a new pair is spent: its record is
/// revoked, so presenting it again is refused (unless the new refresh
/// token has the very same digest).
pub proof fn lemma_refresh_token_spent(
    before: IdentityManager,
    mid: IdentityManager,
    after: IdentityManager,
    token: Seq<char>,
    now: i64,
    rec: crate::session_store::RefreshTokenRecord,
    pair: TokenPair,
)
    requires
        spent_refresh(before, mid, token, now, rec),
        tokens_issued(mid, after, rec.user_id@, rec.device_id, None, pair),
        token_key(pair.refresh_token@) != token_key(token),
    ensures
        after.sessions().record(token_key(token)) matches Some(x) && x.revoked,
{
    let (n, aj, rj, sid) = choose|n: i64, aj: Seq<char>, rj: Seq<char>, sid: Seq<char>| issued_at(mid, after, rec.user_id@, rec.device_id, None, pair, n, aj, rj, sid);
    assert(after.sessions().record(token_key(token)) == mid.sessions().record(token_key(token)));
}

/// Right after registering an account, its address and password pass the
/// password check and lead to that account.
pub proof fn lemma_registered_account_passes(users: Seq<User>, u: User, password: Seq<char>)
    requires
        distinct_idents(users),
        emails_distinct(users),
        account_by_email(users, u.email@) is None,
        u.is_active,
        u.password_hash matches Some(h) && argon2_verdict(encode_utf8(password), h@) == Some(true),
    ensures
        password_check(upsert(users, u), u.email@, password) == Ok::<User, Option<IdentityError>>(u),
{
    lemma_upsert_fresh_email(users, u);
}

} // verus!
