//! Refresh tokens (kept by the SHA-256 of the token, never the token
//! itself) and active login sessions of the identity plugin.
use vstd::prelude::*;
use crate::identity::{lower_hex_digit, IdentityError};
use crate::keyed::{entry_for, find_key, lemma_entry_at, lemma_entry_none, lemma_entry_push, lemma_entry_set, lemma_entry_unique, remove_entry, unique_keys};
use crate::messaging_types::now_millis;
use crate::text::{push_char, str_equal};
use vstd::string::StringSliceAdditionalSpecFns;

verus! {

/// The SHA-256 digest of `data`, as the `sha2` crate computes it.
pub uninterp spec fn sha256_digest(data: Seq<u8>) -> Seq<u8>;

/// Calls `sha2::Sha256::digest`. The digest is 32 bytes long (the output
/// size the crate declares); what the bytes are is left to the name.
#[verifier::external_body]
fn sha256(data: &[u8]) -> (d: Vec<u8>)
    ensures
        d@ == sha256_digest(data@),
        d@.len() == 32,
{
    <sha2::Sha256 as sha2::Digest>::digest(data).to_vec()
}

/// Lower-case hexadecimal text of `bytes`, two digits per byte.
pub open spec fn hex_text(bytes: Seq<u8>) -> Seq<char>
    decreases bytes.len(),
{
    if bytes.len() == 0 {
        Seq::empty()
    } else {
        hex_text(bytes.drop_last()) + seq![lower_hex_digit((bytes.last() / 16) as nat), lower_hex_digit((bytes.last() % 16) as nat)]
    }
}

fn hex_char(d: u8) -> (c: char)
    requires
        d < 16,
    ensures
        c == lower_hex_digit(d as nat),
{
    if d < 10 {
        (48 + d) as char
    } else {
        (87 + d) as char
    }
}

/// Lower-case hexadecimal encoding of `bytes` (what `hex::encode` gives).
pub fn hex_encode(bytes: &Vec<u8>) -> (s: String)
    ensures
        s@ == hex_text(bytes@),
{
    let mut s = String::new();
    let mut i: usize = 0;
    while i < bytes.len()
        invariant
            i <= bytes@.len(),
            s@ == hex_text(bytes@.take(i as int)),
        decreases bytes.len() - i,
    {
        proof {
            assert(bytes@.take(i + 1).drop_last() =~= bytes@.take(i as int));
            assert(bytes@.take(i + 1).last() == bytes@[i as int]);
        }
        let b = bytes[i];
        push_char(&mut s, hex_char(b / 16));
        push_char(&mut s, hex_char(b % 16));
        i = i + 1;
        assert(s@ =~= hex_text(bytes@.take(i as int)));
    }
    assert(bytes@.take(bytes@.len() as int) =~= bytes@);
    s
}

/// The key a refresh token is kept under: the hexadecimal SHA-256 of its
/// UTF-8 bytes.
pub open spec fn token_key(token: Seq<char>) -> Seq<char> {
    hex_text(sha256_digest(vstd::utf8::encode_utf8(token)))
}

/// The key under which `token` is kept.
pub fn hash_token(token: &str) -> (h: String)
    ensures
        h@ == token_key(token@),
        h@.len() == 64,
{
    let d = sha256(token.as_bytes());
    let h = hex_encode(&d);
    proof {
        lemma_hex_len(d@);
    }
    h
}

pub(crate) proof fn lemma_hex_len(bytes: Seq<u8>)
    ensures
        hex_text(bytes).len() == 2 * bytes.len(),
    decreases bytes.len(),
{
    if bytes.len() > 0 {
        lemma_hex_len(bytes.drop_last());
    }
}

/// A stored refresh token. Times are milliseconds since the Unix epoch.
#[derive(Debug, Clone)]
pub struct RefreshTokenRecord {
    pub token_hash: String,
    pub user_id: String,
    pub device_id: Option<String>,
    pub created_at: i64,
    pub expires_at: i64,
    pub revoked: bool,
}

impl RefreshTokenRecord {
    /// A copy of the record.
    pub fn duplicate(&self) -> (r: Self)
        ensures
            r == *self,
    {
        RefreshTokenRecord {
            token_hash: self.token_hash.clone(),
            user_id: self.user_id.clone(),
            device_id: match &self.device_id {
                Some(d) => Some(d.clone()),
                None => None,
            },
            created_at: self.created_at,
            expires_at: self.expires_at,
            revoked: self.revoked,
        }
    }
}

/// A login session. Times are milliseconds since the Unix epoch.
#[derive(Debug, Clone)]
pub struct ActiveSession {
    pub session_id: String,
    pub user_id: String,
    pub device_id: Option<String>,
    pub ip_address: Option<String>,
    pub created_at: i64,
    pub expires_at: i64,
}

impl ActiveSession {
    /// A copy of the session.
    pub fn duplicate(&self) -> (r: Self)
        ensures
            r == *self,
    {
        ActiveSession {
            session_id: self.session_id.clone(),
            user_id: self.user_id.clone(),
            device_id: match &self.device_id {
                Some(d) => Some(d.clone()),
                None => None,
            },
            ip_address: match &self.ip_address {
                Some(d) => Some(d.clone()),
                None => None,
            },
            created_at: self.created_at,
            expires_at: self.expires_at,
        }
    }
}

/// `rows` with every record of `user` (and, when `device` is given, of that
/// device) revoked.
pub open spec fn revoked_for(rows: Seq<(String, RefreshTokenRecord)>, user: Seq<char>, device: Option<Seq<char>>) -> Seq<(String, RefreshTokenRecord)> {
    Seq::new(
        rows.len(),
        |k: int|
            if rows[k].1.user_id@ == user && match device {
                Some(d) => rows[k].1.device_id matches Some(x) && x@ == d,
                None => true,
            } {
                (rows[k].0, RefreshTokenRecord { revoked: true, ..rows[k].1 })
            } else {
                rows[k]
            },
    )
}

/// The sessions of `user` still open at `now`, in order.
pub open spec fn open_sessions(rows: Seq<(String, ActiveSession)>, user: Seq<char>, now: i64) -> Seq<ActiveSession>
    decreases rows.len(),
{
    if rows.len() == 0 {
        Seq::empty()
    } else {
        let r = open_sessions(rows.drop_last(), user, now);
        let s = rows.last().1;
        if s.user_id@ == user && s.expires_at > now { r.push(s) } else { r }
    }
}

/// What checking `token` at `now` against a store answers: unknown tokens
/// are invalid, revoked ones revoked, ones past their expiry expired, and
/// a live one gives its record.
pub open spec fn validated_at(store: SessionStore, token: Seq<char>, now: i64, r: Result<RefreshTokenRecord, IdentityError>) -> bool {
    match store.record(token_key(token)) {
        None => r matches Err(IdentityError::TokenInvalid),
        Some(rec) => if rec.revoked {
            r matches Err(IdentityError::TokenRevoked)
        } else if rec.expires_at < now {
            r matches Err(IdentityError::TokenExpired)
        } else {
            r == Ok::<RefreshTokenRecord, IdentityError>(rec)
        },
    }
}

/// What rotating `token` at `now` does to a store: a live token is
/// revoked and its revoked record returned; an unknown, revoked or expired
/// token is invalid and nothing changes.
pub open spec fn rotated_at(before: SessionStore, after: SessionStore, token: Seq<char>, now: i64, r: Result<RefreshTokenRecord, IdentityError>) -> bool {
    match before.record(token_key(token)) {
        None => r matches Err(IdentityError::TokenInvalid) && after == before,
        Some(rec) => if rec.revoked || rec.expires_at < now {
            r matches Err(IdentityError::TokenInvalid) && after == before
        } else {
            &&& r == Ok::<RefreshTokenRecord, IdentityError>(RefreshTokenRecord { revoked: true, ..rec })
            &&& after.record(token_key(token)) == Some(RefreshTokenRecord { revoked: true, ..rec })
            &&& forall|k: Seq<char>| k != token_key(token) ==> #[trigger] after.record(k) == before.record(k)
            &&& after.session_rows() == before.session_rows()
        },
    }
}

/// In-memory store of refresh tokens and sessions.
pub struct SessionStore {
    refresh_tokens: Vec<(String, RefreshTokenRecord)>,
    sessions: Vec<(String, ActiveSession)>,
    refresh_ttl_secs: u64,
}

impl SessionStore {
    /// The refresh-token records with their keys, in the order stored.
    pub closed spec fn token_rows(self) -> Seq<(String, RefreshTokenRecord)> {
        self.refresh_tokens@
    }

    /// The sessions with their ids, in the order created.
    pub closed spec fn session_rows(self) -> Seq<(String, ActiveSession)> {
        self.sessions@
    }

    /// Lifetime of a refresh token, in seconds.
    pub closed spec fn ttl(self) -> u64 {
        self.refresh_ttl_secs
    }

    /// The record kept under `key`, if any.
    pub open spec fn record(self, key: Seq<char>) -> Option<RefreshTokenRecord> {
        entry_for(self.token_rows(), key)
    }

    /// The session with id `id`, if any.
    pub open spec fn session(self, id: Seq<char>) -> Option<ActiveSession> {
        entry_for(self.session_rows(), id)
    }

    /// The store's invariant: one record per key, one session per id.
    pub closed spec fn wf(self) -> bool {
        unique_keys(self.refresh_tokens@) && unique_keys(self.sessions@)
    }

    /// A well-formed store has one record per key and one session per id.
    pub proof fn lemma_wf(self)
        requires
            self.wf(),
        ensures
            unique_keys(self.token_rows()),
            unique_keys(self.session_rows()),
    {
    }

    /// An empty store whose refresh tokens live `refresh_ttl_secs` seconds.
    pub fn new(refresh_ttl_secs: u64) -> (s: Self)
        ensures
            s.wf(),
            s.ttl() == refresh_ttl_secs,
            s.token_rows().len() == 0,
            s.session_rows().len() == 0,
    {
        SessionStore { refresh_tokens: Vec::new(), sessions: Vec::new(), refresh_ttl_secs }
    }

    /// Stores a refresh token issued at `now` for `user_id` (replacing a
    /// record of the same token) and returns its record.
    pub fn store_refresh_token_at(&mut self, token: &str, user_id: String, device_id: Option<String>, now: i64) -> (r: RefreshTokenRecord)
        requires
            old(self).wf(),
            old(self).ttl() * 1000 <= i64::MAX,
            now + old(self).ttl() * 1000 <= i64::MAX,
        ensures
            final(self).wf(),
            final(self).ttl() == old(self).ttl(),
            r.token_hash@ == token_key(token@),
            r.user_id == user_id,
            r.device_id == device_id,
            r.created_at == now,
            r.expires_at == now + old(self).ttl() * 1000,
            !r.revoked,
            final(self).record(token_key(token@)) == Some(r),
            forall|k: Seq<char>| k != token_key(token@) ==> #[trigger] final(self).record(k) == old(self).record(k),
            final(self).session_rows() == old(self).session_rows(),
            final(self).ttl() == old(self).ttl(),
    {
        let hash = hash_token(token);
        let expires_at = now + (self.refresh_ttl_secs * 1000) as i64;
        let record = RefreshTokenRecord { token_hash: hash.clone(), user_id, device_id, created_at: now, expires_at, revoked: false };
        let copy = record.duplicate();
        let ghost before = self.refresh_tokens@;
        let ghost g = record;
        match find_key(&self.refresh_tokens, hash.as_str()) {
            Some(i) => {
                proof {
                    lemma_entry_at(before, hash@, i as int);
                }
                let (k, _) = self.refresh_tokens.remove(i);
                self.refresh_tokens.insert(i, (k, record));
                proof {
                    assert(self.refresh_tokens@ =~= before.update(i as int, (before[i as int].0, g)));
                    lemma_entry_set(before, i as int, g);
                }
            },
            None => {
                proof {
                    lemma_entry_none(before, hash@);
                }
                let ghost gk = hash;
                self.refresh_tokens.push((hash, record));
                proof {
                    lemma_entry_push(before, gk, g);
                }
            },
        }
        copy
    }

    /// Stores a refresh token issued now for `user_id`; `None` (and
    /// nothing stored) when its expiry time would not fit in an `i64`.
    pub fn store_refresh_token(&mut self, token: &str, user_id: String, device_id: Option<String>) -> (r: Option<RefreshTokenRecord>)
        requires
            old(self).wf(),
        ensures
            final(self).wf(),
            final(self).ttl() == old(self).ttl(),
            r is None ==> *final(self) == *old(self),
            r is None ==> old(self).ttl() * 1000 > i64::MAX - 10_000_000_000_000_000,
            old(self).ttl() * 1000 <= i64::MAX - 10_000_000_000_000_000 ==> r is Some,
            r matches Some(rec) ==> {
                &&& rec.token_hash@ == token_key(token@)
                &&& rec.user_id == user_id
                &&& rec.device_id == device_id
                &&& !rec.revoked
                &&& 0 <= rec.created_at
                &&& rec.expires_at == rec.created_at + old(self).ttl() * 1000
                &&& final(self).session_rows() == old(self).session_rows()
                &&& final(self).record(token_key(token@)) == Some(rec)
                &&& forall|k: Seq<char>| k != token_key(token@) ==> #[trigger] final(self).record(k) == old(self).record(k)
            },
    {
        let now = now_millis();
        if self.refresh_ttl_secs > 9_223_372_036_854_775 {
            return None;
        }
        let span = (self.refresh_ttl_secs * 1000) as i64;
        if now > i64::MAX - span {
            return None;
        }
        Some(self.store_refresh_token_at(token, user_id, device_id, now))
    }

    /// Checks a refresh token at `now`: unknown tokens are invalid, revoked
    /// ones revoked, and ones past their expiry expired.
    pub fn validate_refresh_token_at(&self, token: &str, now: i64) -> (r: Result<RefreshTokenRecord, IdentityError>)
        requires
            self.wf(),
        ensures
            match self.record(token_key(token@)) {
                None => r matches Err(IdentityError::TokenInvalid),
                Some(rec) => if rec.revoked {
                    r matches Err(IdentityError::TokenRevoked)
                } else if rec.expires_at < now {
                    r matches Err(IdentityError::TokenExpired)
                } else {
                    r == Ok::<RefreshTokenRecord, IdentityError>(rec)
                },
            },
    {
        let hash = hash_token(token);
        match find_key(&self.refresh_tokens, hash.as_str()) {
            None => {
                proof {
                    lemma_entry_none(self.refresh_tokens@, hash@);
                }
                Err(IdentityError::TokenInvalid)
            },
            Some(i) => {
                proof {
                    lemma_entry_at(self.refresh_tokens@, hash@, i as int);
                }
                let rec = self.refresh_tokens[i].1.duplicate();
                if rec.revoked {
                    return Err(IdentityError::TokenRevoked);
                }
                if rec.expires_at < now {
                    return Err(IdentityError::TokenExpired);
                }
                Ok(rec)
            },
        }
    }

    /// Checks a refresh token now.
    pub fn validate_refresh_token(&self, token: &str) -> (r: Result<RefreshTokenRecord, IdentityError>)
        requires
            self.wf(),
        ensures
            self.record(token_key(token@)) is None ==> r matches Err(IdentityError::TokenInvalid),
            self.record(token_key(token@)) matches Some(rec) && rec.revoked ==> r matches Err(IdentityError::TokenRevoked),
            r matches Ok(rec) ==> self.record(token_key(token@)) == Some(rec) && !rec.revoked,
            exists|now: i64| 0 <= now < 10_000_000_000_000_000 && #[trigger] validated_at(*self, token@, now, r),
    {
        let now = now_millis();
        let r = self.validate_refresh_token_at(token, now);
        assert(validated_at(*self, token@, now, r));
        r
    }

    /// Rotates a refresh token at `now`: a live token is revoked and its
    /// (revoked) record returned; unknown, revoked or expired tokens are
    /// invalid.
    pub fn rotate_refresh_token_at(&mut self, old_token: &str, now: i64) -> (r: Result<RefreshTokenRecord, IdentityError>)
        requires
            old(self).wf(),
        ensures
            final(self).wf(),
            final(self).ttl() == old(self).ttl(),
            rotated_at(*old(self), *final(self), old_token@, now, r),
    {
        let hash = hash_token(old_token);
        let ghost before = self.refresh_tokens@;
        match find_key(&self.refresh_tokens, hash.as_str()) {
            None => {
                proof {
                    lemma_entry_none(before, hash@);
                }
                Err(IdentityError::TokenInvalid)
            },
            Some(i) => {
                proof {
                    lemma_entry_at(before, hash@, i as int);
                }
                if self.refresh_tokens[i].1.revoked || self.refresh_tokens[i].1.expires_at < now {
                    return Err(IdentityError::TokenInvalid);
                }
                let (k, mut rec) = self.refresh_tokens.remove(i);
                rec.revoked = true;
                let copy = rec.duplicate();
                let ghost g = rec;
                self.refresh_tokens.insert(i, (k, rec));
                proof {
                    assert(self.refresh_tokens@ =~= before.update(i as int, (before[i as int].0, g)));
                    lemma_entry_set(before, i as int, g);
                }
                Ok(copy)
            },
        }
    }

    /// Rotates a refresh token now.
    pub fn rotate_refresh_token(&mut self, old_token: &str) -> (r: Result<RefreshTokenRecord, IdentityError>)
        requires
            old(self).wf(),
        ensures
            final(self).wf(),
            final(self).ttl() == old(self).ttl(),
            exists|now: i64| 0 <= now < 10_000_000_000_000_000 && #[trigger] rotated_at(*old(self), *final(self), old_token@, now, r),
    {
        let now = now_millis();
        let r = self.rotate_refresh_token_at(old_token, now);
        assert(rotated_at(*old(self), *self, old_token@, now, r));
        r
    }

    /// Revokes the records of `user_id`, restricted to `device_id` when
    /// one is given.
    fn revoke_where(&mut self, user_id: &str, device_id: Option<&str>)
        requires
            old(self).wf(),
        ensures
            final(self).wf(),
            final(self).ttl() == old(self).ttl(),
            final(self).token_rows() == revoked_for(old(self).token_rows(), user_id@, match device_id {
                Some(d) => Some(d@),
                None => None,
            }),
            final(self).session_rows() == old(self).session_rows(),
            final(self).ttl() == old(self).ttl(),
    {
        let ghost before = self.refresh_tokens@;
        let ghost dev = match device_id {
            Some(d) => Some(d@),
            None => None::<Seq<char>>,
        };
        let mut i: usize = 0;
        while i < self.refresh_tokens.len()
            invariant
                self.refresh_tokens@.len() == before.len(),
                i <= before.len(),
                unique_keys(before),
                self.sessions == old(self).sessions,
                self.refresh_ttl_secs == old(self).refresh_ttl_secs,
                before == old(self).refresh_tokens@,
                dev == match device_id {
                    Some(d) => Some(d@),
                    None => None::<Seq<char>>,
                },
                forall|k: int| 0 <= k < i ==> #[trigger] self.refresh_tokens@[k] == revoked_for(before, user_id@, dev)[k],
                forall|k: int| i <= k < before.len() ==> #[trigger] self.refresh_tokens@[k] == before[k],
            decreases before.len() - i,
        {
            let hit = str_equal(self.refresh_tokens[i].1.user_id.as_str(), user_id) && match device_id {
                Some(d) => match &self.refresh_tokens[i].1.device_id {
                    Some(x) => str_equal(x.as_str(), d),
                    None => false,
                },
                None => true,
            };
            if hit {
                let ghost mid = self.refresh_tokens@;
                let (k, mut rec) = self.refresh_tokens.remove(i);
                rec.revoked = true;
                let ghost g = (k, rec);
                self.refresh_tokens.insert(i, (k, rec));
                assert(self.refresh_tokens@ =~= mid.update(i as int, g));
            }
            i = i + 1;
        }
        proof {
            assert(self.refresh_tokens@ =~= revoked_for(before, user_id@, dev));
            assert forall|a: int, b: int| 0 <= a < self.refresh_tokens@.len() && 0 <= b < self.refresh_tokens@.len() && a != b implies (#[trigger] self.refresh_tokens@[a]).0@ != (#[trigger] self.refresh_tokens@[b]).0@ by {
                assert(self.refresh_tokens@[a].0 == before[a].0 && self.refresh_tokens@[b].0 == before[b].0);
            }
        }
    }

    /// Revokes every refresh token of `user_id` (logout everywhere).
    pub fn revoke_all_for_user(&mut self, user_id: &str)
        requires
            old(self).wf(),
        ensures
            final(self).wf(),
            final(self).ttl() == old(self).ttl(),
            final(self).token_rows() == revoked_for(old(self).token_rows(), user_id@, None),
            final(self).session_rows() == old(self).session_rows(),
    {
        self.revoke_where(user_id, None);
    }

    /// Revokes the refresh tokens of `user_id` on `device_id`.
    pub fn revoke_device(&mut self, user_id: &str, device_id: &str)
        requires
            old(self).wf(),
        ensures
            final(self).wf(),
            final(self).ttl() == old(self).ttl(),
            final(self).token_rows() == revoked_for(old(self).token_rows(), user_id@, Some(device_id@)),
            final(self).session_rows() == old(self).session_rows(),
    {
        self.revoke_where(user_id, Some(device_id));
    }

    /// Records a session (replacing one with the same id).
    pub fn create_session(&mut self, session: ActiveSession)
        requires
            old(self).wf(),
        ensures
            final(self).wf(),
            final(self).ttl() == old(self).ttl(),
            final(self).session(session.session_id@) == Some(session),
            forall|id: Seq<char>| id != session.session_id@ ==> #[trigger] final(self).session(id) == old(self).session(id),
            final(self).token_rows() == old(self).token_rows(),
    {
        let ghost before = self.sessions@;
        let ghost g = session;
        match find_key(&self.sessions, session.session_id.as_str()) {
            Some(i) => {
                proof {
                    lemma_entry_at(before, session.session_id@, i as int);
                }
                let (k, _) = self.sessions.remove(i);
                self.sessions.insert(i, (k, session));
                proof {
                    assert(self.sessions@ =~= before.update(i as int, (before[i as int].0, g)));
                    lemma_entry_set(before, i as int, g);
                }
            },
            None => {
                proof {
                    lemma_entry_none(before, session.session_id@);
                }
                let key = session.session_id.clone();
                let ghost gk = key;
                self.sessions.push((key, session));
                proof {
                    lemma_entry_push(before, gk, g);
                }
            },
        }
    }

    /// Copies of the sessions of `user_id` still open at `now`.
    pub fn get_sessions_for_user_at(&self, user_id: &str, now: i64) -> (r: Vec<ActiveSession>)
        ensures
            r@ == open_sessions(self.session_rows(), user_id@, now),
    {
        let mut out: Vec<ActiveSession> = Vec::new();
        let mut i: usize = 0;
        while i < self.sessions.len()
            invariant
                i <= self.sessions@.len(),
                out@ == open_sessions(self.sessions@.take(i as int), user_id@, now),
            decreases self.sessions.len() - i,
        {
            proof {
                assert(self.sessions@.take(i + 1).drop_last() =~= self.sessions@.take(i as int));
                assert(self.sessions@.take(i + 1).last() == self.sessions@[i as int]);
            }
            let s = &self.sessions[i].1;
            if str_equal(s.user_id.as_str(), user_id) && s.expires_at > now {
                out.push(s.duplicate());
            }
            i = i + 1;
        }
        assert(self.sessions@.take(self.sessions@.len() as int) =~= self.sessions@);
        out
    }

    /// Copies of the sessions of `user_id` still open now.
    pub fn get_sessions_for_user(&self, user_id: &str) -> (r: Vec<ActiveSession>)
        ensures
            exists|now: i64| r@ == open_sessions(self.session_rows(), user_id@, now),
    {
        let now = now_millis();
        self.get_sessions_for_user_at(user_id, now)
    }

    /// Removes the session with id `session_id`, if any.
    pub fn remove_session(&mut self, session_id: &str)
        requires
            old(self).wf(),
        ensures
            final(self).wf(),
            final(self).ttl() == old(self).ttl(),
            final(self).session(session_id@) is None,
            forall|id: Seq<char>| id != session_id@ ==> #[trigger] final(self).session(id) == old(self).session(id),
            final(self).token_rows() == old(self).token_rows(),
    {
        remove_entry(&mut self.sessions, session_id);
    }
}

/// After revoking a user's tokens, none of that user's tokens validates:
/// each is reported revoked.
pub proof fn lemma_revoked_user_is_refused(s: SessionStore, user: Seq<char>, key: Seq<char>, t: SessionStore)
    requires
        s.wf(),
        t.wf(),
        t.token_rows() == revoked_for(s.token_rows(), user, None),
        s.record(key) matches Some(rec) && rec.user_id@ == user,
    ensures
        t.record(key) matches Some(rec) && rec.revoked,
{
    let rows = s.token_rows();
    let k = choose|k: int| 0 <= k < rows.len() && (#[trigger] rows[k]).0@ == key && forall|m: int| 0 <= m < k ==> (#[trigger] rows[m]).0@ != key;
    lemma_entry_unique(rows, k);
    lemma_entry_unique(t.token_rows(), k);
}

} // verus!
