//! Content moderation: a blocklist of words, muted users, and a per-user
//! message rate limit over a sliding one-minute window.
use vstd::prelude::*;
use crate::messaging_types::{now_millis, ModerationAction};
use crate::keyed::{entry_for, find_key, lemma_entry_none, lemma_entry_push, lemma_entry_remove, lemma_entry_set, lemma_entry_unique, unique_keys};
use crate::text::{chars_contain, chars_of, contains_seq, lowercase, push_str, str_equal, unicode_lowercase};

verus! {

/// A mute of one user. Times are milliseconds since the Unix epoch.
#[derive(Debug, Clone)]
pub struct MuteEntry {
    pub muted_at: i64,
    pub expires_at: Option<i64>,
    pub reason: String,
}

/// Length of the rate-limit window, in milliseconds.
pub const RATE_WINDOW_MS: i64 = 60_000;

/// Content moderation engine.
pub struct ContentModerator {
    /// Blocked words, lower-cased, each once.
    blocked_words: Vec<String>,
    /// Muted users with their mute.
    muted_users: Vec<(String, MuteEntry)>,
    /// Send times of each user's recent messages.
    rate_tracking: Vec<(String, Vec<i64>)>,
    /// Most messages per minute.
    max_messages_per_minute: u32,
}

/// First blocked word (in list order) that the lower-cased content holds.
pub open spec fn first_blocked(words: Seq<Seq<char>>, lower: Seq<char>) -> Option<int> {
    if exists|k: int| 0 <= k < words.len() && contains_seq(lower, #[trigger] words[k]) {
        Some(choose|k: int| 0 <= k < words.len() && contains_seq(lower, #[trigger] words[k])
            && forall|m: int| 0 <= m < k ==> !contains_seq(lower, #[trigger] words[m]))
    } else {
        None
    }
}

/// Number of messages of a window above which a warning is given: 80% of
/// the limit, rounded down.
pub open spec fn warn_threshold(max: u32) -> int {
    (max as int) * 4 / 5
}

/// `a` blocks with the message `msg`.
pub open spec fn blocks_with(a: ModerationAction, msg: Seq<char>) -> bool {
    a matches ModerationAction::Block(m) && m@ == msg
}

/// `a` warns with the message `msg`.
pub open spec fn warns_with(a: ModerationAction, msg: Seq<char>) -> bool {
    a matches ModerationAction::Warn(m) && m@ == msg
}

/// Outcome of the rate check for a window now holding `count` messages:
/// block above the limit, warn above 80% of it, else allow.
pub open spec fn rate_outcome_ok(a: ModerationAction, count: int, max: u32) -> bool {
    if count > max {
        blocks_with(a, "message rate limit exceeded"@)
    } else if count > warn_threshold(max) {
        warns_with(a, "approaching message rate limit"@)
    } else {
        a is Allow
    }
}

/// The send times of a window that are still inside it at `now`.
pub open spec fn recent(times: Seq<i64>, now: i64) -> Seq<i64>
    decreases times.len(),
{
    if times.len() == 0 {
        times
    } else if times.last() > now - RATE_WINDOW_MS {
        recent(times.drop_last(), now).push(times.last())
    } else {
        recent(times.drop_last(), now)
    }
}

proof fn lemma_recent_len(times: Seq<i64>, now: i64)
    ensures
        recent(times, now).len() <= times.len(),
    decreases times.len(),
{
    if times.len() > 0 {
        lemma_recent_len(times.drop_last(), now);
    }
}

impl ContentModerator {
    /// No user has two mutes or two windows.
    pub closed spec fn wf(self) -> bool {
        unique_keys(self.muted_users@) && unique_keys(self.rate_tracking@)
    }

    /// The blocked words, lower-cased, in the order they were added.
    pub closed spec fn words(self) -> Seq<Seq<char>> {
        self.blocked_words@.map_values(|w: String| w@)
    }

    /// The mute of `user`, if any (expired mutes included until checked).
    pub closed spec fn mute_of(self, user: Seq<char>) -> Option<MuteEntry> {
        entry_for(self.muted_users@, user)
    }

    /// The users with a mute.
    pub closed spec fn muted_set(self) -> Set<Seq<char>> {
        self.muted_users@.map_values(|e: (String, MuteEntry)| e.0@).to_set()
    }

    /// Recent send times of `user`.
    pub closed spec fn window_of(self, user: Seq<char>) -> Seq<i64> {
        match entry_for(self.rate_tracking@, user) {
            Some(v) => v@,
            None => Seq::empty(),
        }
    }

    /// Most messages per minute.
    pub closed spec fn rate_limit(self) -> u32 {
        self.max_messages_per_minute
    }

    /// A moderator with the given blocked words (lower-cased) and rate limit.
    pub fn new(blocked_words: Vec<String>, max_messages_per_minute: u32) -> (m: Self)
        ensures
            m.words() == blocked_words@.map_values(|w: String| unicode_lowercase(w@)),
            m.wf(),
            m.rate_limit() == max_messages_per_minute,
            forall|u: Seq<char>| m.mute_of(u) is None,
            forall|u: Seq<char>| m.window_of(u).len() == 0,
    {
        let mut words: Vec<String> = Vec::new();
        let mut i: usize = 0;
        while i < blocked_words.len()
            invariant
                i <= blocked_words@.len(),
                words@.len() == i,
                words@.map_values(|w: String| w@) == blocked_words@.subrange(0, i as int).map_values(|w: String| unicode_lowercase(w@)),
            decreases blocked_words.len() - i,
        {
            let ghost before = words@;
            let lw = lowercase(blocked_words[i].as_str());
            words.push(lw);
            proof {
                let sub = blocked_words@.subrange(0, i + 1);
                assert(before.map_values(|w: String| w@) =~= blocked_words@.subrange(0, i as int).map_values(|w: String| unicode_lowercase(w@)));
                let ma = words@.map_values(|w: String| w@);
                let mb = sub.map_values(|w: String| unicode_lowercase(w@));
                let pa = before.map_values(|w: String| w@);
                let pb = blocked_words@.subrange(0, i as int).map_values(|w: String| unicode_lowercase(w@));
                assert forall|k: int| 0 <= k < i + 1 implies #[trigger] ma[k] == mb[k] by {
                    if k < i {
                        assert(words@[k] == before[k]);
                        assert(pa[k] == pb[k]);
                    }
                }
                assert(ma =~= mb);
            }
            i = i + 1;
        }
        assert(blocked_words@.subrange(0, blocked_words@.len() as int) =~= blocked_words@);
        ContentModerator { blocked_words: words, muted_users: Vec::new(), rate_tracking: Vec::new(), max_messages_per_minute }
    }

    /// Checks `content` against the blocked words, ignoring case: blocks
    /// with the first blocked word it contains, else allows.
    pub fn check_content(&self, content: &str) -> (r: ModerationAction)
        ensures
            match first_blocked(self.words(), unicode_lowercase(content@)) {
                Some(k) => blocks_with(r, "blocked word detected: "@ + self.words()[k]),
                None => r is Allow,
            },
    {
        let lower = chars_of(lowercase(content).as_str());
        let ghost ws = self.words();
        let mut i: usize = 0;
        while i < self.blocked_words.len()
            invariant
                i <= self.blocked_words@.len(),
                ws == self.words(),
                lower@ == unicode_lowercase(content@),
                forall|m: int| 0 <= m < i ==> !contains_seq(lower@, #[trigger] ws[m]),
            decreases self.blocked_words.len() - i,
        {
            let w = chars_of(self.blocked_words[i].as_str());
            if chars_contain(&lower, &w) {
                proof {
                    assert(ws[i as int] == w@);
                    let j = first_blocked(ws, lower@)->Some_0;
                    assert(contains_seq(lower@, ws[i as int]));
                    assert(0 <= j < ws.len() && contains_seq(lower@, ws[j]) && forall|m: int| 0 <= m < j ==> !contains_seq(lower@, #[trigger] ws[m]));
                    if j < i {
                        assert(!contains_seq(lower@, ws[j]));
                    } else if j > i {
                        assert(!contains_seq(lower@, ws[i as int]));
                    }
                }
                let mut m = String::new();
                push_str(&mut m, "blocked word detected: ");
                push_str(&mut m, self.blocked_words[i].as_str());
                return ModerationAction::Block(m);
            }
            i = i + 1;
        }
        ModerationAction::Allow
    }

    /// Adds a blocked word (lower-cased) unless it is already blocked.
    pub fn add_blocked_word(&mut self, word: String)
        requires
            old(self).wf(),
        ensures
            final(self).wf(),
            final(self).rate_limit() == old(self).rate_limit(),
            old(self).words().contains(unicode_lowercase(word@)) ==> final(self).words() == old(self).words(),
            !old(self).words().contains(unicode_lowercase(word@)) ==> final(self).words() == old(self).words().push(unicode_lowercase(word@)),
            forall|u: Seq<char>| final(self).mute_of(u) == old(self).mute_of(u),
            forall|u: Seq<char>| final(self).window_of(u) == old(self).window_of(u),
    {
        let lower = lowercase(word.as_str());
        let mut i: usize = 0;
        while i < self.blocked_words.len()
            invariant
                self.wf(),
                i <= self.blocked_words@.len(),
                lower@ == unicode_lowercase(word@),
                forall|m: int| 0 <= m < i ==> self.words()[m] != lower@,
            decreases self.blocked_words.len() - i,
        {
            if str_equal(self.blocked_words[i].as_str(), lower.as_str()) {
                assert(self.words()[i as int] == lower@);
                return;
            }
            i = i + 1;
        }
        let ghost before = self.words();
        self.blocked_words.push(lower);
        assert(self.words() =~= before.push(unicode_lowercase(word@)));
    }

    /// Number of blocked words.
    pub fn blocked_word_count(&self) -> (n: usize)
        ensures
            n == self.words().len(),
    {
        self.blocked_words.len()
    }

    /// Whether `client_id` is muted at time `now`. A mute whose expiry has
    /// passed is dropped and does not count.
    pub fn is_muted_at(&mut self, client_id: &str, now: i64) -> (b: bool)
        requires
            old(self).wf(),
        ensures
            final(self).wf(),
            final(self).words() == old(self).words(),
            final(self).rate_limit() == old(self).rate_limit(),
            forall|u: Seq<char>| final(self).window_of(u) == old(self).window_of(u),
            forall|u: Seq<char>| u != client_id@ ==> final(self).mute_of(u) == old(self).mute_of(u),
            b == (old(self).mute_of(client_id@) matches Some(m) && !(m.expires_at matches Some(e) && now >= e)),
            b ==> final(self).mute_of(client_id@) == old(self).mute_of(client_id@),
            !b ==> final(self).mute_of(client_id@) is None,
    {
        match find_key(&self.muted_users, client_id) {
            None => {
                proof {
                    lemma_entry_none(self.muted_users@, client_id@);
                }
                false
            },
            Some(i) => {
                proof {
                    lemma_entry_unique(self.muted_users@, i as int);
                }
                let expired = match self.muted_users[i].1.expires_at {
                    Some(e) => now >= e,
                    None => false,
                };
                if expired {
                    let ghost v = self.muted_users@;
                    self.muted_users.remove(i);
                    proof {
                        lemma_entry_remove(v, i as int);
                    }
                    false
                } else {
                    true
                }
            },
        }
    }

    /// Whether `client_id` is muted now (expired mutes are dropped).
    pub fn is_muted(&mut self, client_id: &str) -> (b: bool)
        requires
            old(self).wf(),
        ensures
            final(self).wf(),
            final(self).words() == old(self).words(),
            final(self).rate_limit() == old(self).rate_limit(),
            forall|u: Seq<char>| final(self).window_of(u) == old(self).window_of(u),
            forall|u: Seq<char>| u != client_id@ ==> final(self).mute_of(u) == old(self).mute_of(u),
            b ==> old(self).mute_of(client_id@) is Some,
            exists|now: i64| 0 <= now && b == #[trigger] old(self).muted_at(client_id@, now),
            b ==> final(self).mute_of(client_id@) == old(self).mute_of(client_id@),
            !b ==> final(self).mute_of(client_id@) is None,
    {
        let now = now_millis();
        let b = self.is_muted_at(client_id, now);
        assert(b == old(self).muted_at(client_id@, now));
        b
    }

    /// Mutes `client_id` at time `now` for `duration_secs` seconds, or until
    /// unmuted when no duration is given; replaces an earlier mute.
    pub fn mute_user_at(&mut self, client_id: &str, reason: String, duration_secs: Option<u64>, now: i64)
        requires
            old(self).wf(),
            duration_secs matches Some(d) ==> d * 1000 <= i64::MAX && now + d * 1000 <= i64::MAX,
        ensures
            final(self).wf(),
            final(self).words() == old(self).words(),
            final(self).rate_limit() == old(self).rate_limit(),
            forall|u: Seq<char>| final(self).window_of(u) == old(self).window_of(u),
            forall|u: Seq<char>| u != client_id@ ==> final(self).mute_of(u) == old(self).mute_of(u),
            final(self).mute_of(client_id@) == Some(MuteEntry {
                muted_at: now,
                expires_at: match duration_secs {
                    Some(d) => Some((now + d * 1000) as i64),
                    None => None,
                },
                reason,
            }),
    {
        let expires_at = match duration_secs {
            Some(d) => Some(now + (d as i64) * 1000),
            None => None,
        };
        let entry = MuteEntry { muted_at: now, expires_at, reason };
        let ghost e = entry;
        let ghost v = self.muted_users@;
        match find_key(&self.muted_users, client_id) {
            Some(i) => {
                let key = self.muted_users[i].0.clone();
                self.muted_users.set(i, (key, entry));
                proof {
                    assert(self.muted_users@ == v.update(i as int, (v[i as int].0, e)));
                    lemma_entry_set(v, i as int, e);
                }
            },
            None => {
                let key = client_id.to_string();
                let ghost k = key;
                self.muted_users.push((key, entry));
                proof {
                    lemma_entry_push(v, k, e);
                }
            },
        }
    }

    /// Mutes `client_id` from now on, for `duration_secs` seconds or until
    /// unmuted. (A clock so far ahead that the expiry would not fit an
    /// `i64` gives a mute without expiry.)
    pub fn mute_user(&mut self, client_id: &str, reason: String, duration_secs: Option<u64>)
        requires
            old(self).wf(),
            duration_secs matches Some(d) ==> d * 1000 <= i64::MAX / 2,
        ensures
            final(self).wf(),
            final(self).words() == old(self).words(),
            forall|u: Seq<char>| u != client_id@ ==> final(self).mute_of(u) == old(self).mute_of(u),
            final(self).mute_of(client_id@) matches Some(m) && m.reason == reason,
    {
        let now = now_millis();
        if now > i64::MAX / 2 {
            self.mute_user_at(client_id, reason, None, now);
        } else {
            self.mute_user_at(client_id, reason, duration_secs, now);
        }
    }

    /// Lifts the mute of `client_id`; `true` when there was one.
    pub fn unmute_user(&mut self, client_id: &str) -> (removed: bool)
        requires
            old(self).wf(),
        ensures
            final(self).wf(),
            final(self).words() == old(self).words(),
            final(self).rate_limit() == old(self).rate_limit(),
            forall|u: Seq<char>| final(self).window_of(u) == old(self).window_of(u),
            forall|u: Seq<char>| u != client_id@ ==> final(self).mute_of(u) == old(self).mute_of(u),
            removed == old(self).mute_of(client_id@) is Some,
            final(self).mute_of(client_id@) is None,
    {
        match find_key(&self.muted_users, client_id) {
            None => {
                proof {
                    lemma_entry_none(self.muted_users@, client_id@);
                }
                false
            },
            Some(i) => {
                let ghost v = self.muted_users@;
                proof {
                    lemma_entry_unique(v, i as int);
                }
                self.muted_users.remove(i);
                proof {
                    lemma_entry_remove(v, i as int);
                }
                true
            },
        }
    }

    /// The mute of `client_id`, if any.
    pub fn get_mute(&self, client_id: &str) -> (r: Option<MuteEntry>)
        requires
            self.wf(),
        ensures
            r == self.mute_of(client_id@),
    {
        match find_key(&self.muted_users, client_id) {
            None => {
                proof {
                    lemma_entry_none(self.muted_users@, client_id@);
                }
                None
            },
            Some(i) => {
                proof {
                    lemma_entry_unique(self.muted_users@, i as int);
                }
                let m = &self.muted_users[i].1;
                Some(MuteEntry { muted_at: m.muted_at, expires_at: m.expires_at, reason: m.reason.clone() })
            },
        }
    }

    /// Number of muted users (expired mutes included until checked).
    pub fn muted_count(&self) -> (n: usize)
        requires
            self.wf(),
        ensures
            n == self.muted_set().len(),
            forall|u: Seq<char>| self.mute_of(u) is Some <==> #[trigger] self.muted_set().contains(u),
    {
        proof {
            let keys = self.muted_users@.map_values(|e: (String, MuteEntry)| e.0@);
            assert(keys.no_duplicates()) by {
                assert forall|a: int, b: int| 0 <= a < keys.len() && 0 <= b < keys.len() && a != b implies keys[a] != keys[b] by {
                    assert(self.muted_users@[a].0@ != self.muted_users@[b].0@);
                }
            }
            keys.unique_seq_to_set();
            assert forall|u: Seq<char>| self.mute_of(u) is Some <==> #[trigger] self.muted_set().contains(u) by {
                if keys.contains(u) {
                    let k = choose|k: int| 0 <= k < keys.len() && keys[k] == u;
                    assert(self.muted_users@[k].0@ == u);
                    lemma_entry_unique(self.muted_users@, k);
                }
                if self.mute_of(u) is Some {
                    let k = choose|k: int| 0 <= k < self.muted_users@.len() && (#[trigger] self.muted_users@[k]).0@ == u;
                    assert(keys[k] == u);
                }
            }
        }
        self.muted_users.len()
    }

    /// Records a message of `client_id` sent at `now` and rates the last
    /// minute: above the limit blocks, above 80% of it warns, else allows.
    pub fn check_rate_at(&mut self, client_id: &str, now: i64) -> (r: ModerationAction)
        requires
            old(self).wf(),
            now >= i64::MIN + RATE_WINDOW_MS,
        ensures
            final(self).wf(),
            final(self).words() == old(self).words(),
            final(self).rate_limit() == old(self).rate_limit(),
            forall|u: Seq<char>| final(self).mute_of(u) == old(self).mute_of(u),
            forall|u: Seq<char>| u != client_id@ ==> final(self).window_of(u) == old(self).window_of(u),
            final(self).window_of(client_id@) == recent(old(self).window_of(client_id@), now).push(now),
            rate_outcome_ok(r, final(self).window_of(client_id@).len() as int, old(self).rate_limit()),
    {
        let ghost v = self.rate_tracking@;
        let (i, window) = match find_key(&self.rate_tracking, client_id) {
            None => {
                proof {
                    lemma_entry_none(v, client_id@);
                }
                let key = client_id.to_string();
                let ghost k = key;
                let fresh: Vec<i64> = Vec::new();
                let ghost f = fresh;
                self.rate_tracking.push((key, fresh));
                proof {
                    lemma_entry_push(v, k, f);
                }
                let n = self.rate_tracking.len() - 1;
                (n, Vec::new())
            },
            Some(i) => {
                proof {
                    lemma_entry_unique(v, i as int);
                }
                let (k, w) = self.rate_tracking.remove(i);
                let fresh: Vec<i64> = Vec::new();
                let ghost f = fresh;
                self.rate_tracking.insert(i, (k, fresh));
                proof {
                    assert(self.rate_tracking@ =~= v.update(i as int, (v[i as int].0, f)));
                    lemma_entry_set(v, i as int, f);
                }
                (i, w)
            },
        };
        let ghost mid = self.rate_tracking@;
        assert(window@ == old(self).window_of(client_id@));
        let cutoff = now - RATE_WINDOW_MS;
        let mut kept: Vec<i64> = Vec::new();
        let mut j: usize = 0;
        while j < window.len()
            invariant
                j <= window@.len(),
                cutoff == now - RATE_WINDOW_MS,
                kept@ == recent(window@.take(j as int), now),
            decreases window.len() - j,
        {
            proof {
                assert(window@.take(j + 1).drop_last() =~= window@.take(j as int));
            }
            if window[j] > cutoff {
                kept.push(window[j]);
            }
            j = j + 1;
        }
        assert(window@.take(window@.len() as int) =~= window@);
        kept.push(now);
        let count = kept.len();
        let ghost kv = kept;
        let key = self.rate_tracking[i].0.clone();
        self.rate_tracking.set(i, (key, kept));
        proof {
            assert(mid[i as int].0@ == client_id@);
            assert(self.rate_tracking@ == mid.update(i as int, (mid[i as int].0, kv)));
            lemma_entry_set(mid, i as int, kv);
        }
        let max = self.max_messages_per_minute as usize;
        let warn = (self.max_messages_per_minute as u64) * 4 / 5;
        if count > max {
            let mut m = String::new();
            push_str(&mut m, "message rate limit exceeded");
            ModerationAction::Block(m)
        } else if (count as u64) > warn {
            let mut m = String::new();
            push_str(&mut m, "approaching message rate limit");
            ModerationAction::Warn(m)
        } else {
            ModerationAction::Allow
        }
    }

    /// Records a message of `client_id` sent now and rates the last minute.
    pub fn check_rate(&mut self, client_id: &str) -> (r: ModerationAction)
        requires
            old(self).wf(),
        ensures
            final(self).wf(),
            final(self).words() == old(self).words(),
            forall|u: Seq<char>| final(self).mute_of(u) == old(self).mute_of(u),
            final(self).rate_limit() == old(self).rate_limit(),
            forall|u: Seq<char>| u != client_id@ ==> final(self).window_of(u) == old(self).window_of(u),
            exists|now: i64| 0 <= now && #[trigger] final(self).window_of(client_id@) == recent(old(self).window_of(client_id@), now).push(now)
                && rate_outcome_ok(r, final(self).window_of(client_id@).len() as int, old(self).rate_limit()),
    {
        let now = now_millis();
        self.check_rate_at(client_id, now)
    }

    /// Whether `client` is muted at `now` by the mute it holds.
    pub open spec fn muted_at(self, client: Seq<char>, now: i64) -> bool {
        self.mute_of(client) matches Some(m) && !(m.expires_at matches Some(e) && now >= e)
    }

    /// `after` and `r` are what full moderation of `content` from `client`
    /// at `now` makes of `self`: a muted sender is blocked; else an expired
    /// mute is dropped, then a blocked word blocks, then the message is
    /// recorded and the rate decides.
    pub open spec fn moderated(self, after: Self, r: ModerationAction, client: Seq<char>, content: Seq<char>, now: i64) -> bool {
        &&& after.wf()
        &&& after.words() == self.words()
        &&& after.rate_limit() == self.rate_limit()
        &&& forall|u: Seq<char>| u != client ==> #[trigger] after.mute_of(u) == self.mute_of(u)
        &&& forall|u: Seq<char>| u != client ==> #[trigger] after.window_of(u) == self.window_of(u)
        &&& if self.muted_at(client, now) {
            &&& blocks_with(r, "user is muted"@)
            &&& after.mute_of(client) == self.mute_of(client)
            &&& after.window_of(client) == self.window_of(client)
        } else {
            &&& after.mute_of(client) is None
            &&& match first_blocked(self.words(), unicode_lowercase(content)) {
                Some(k) => {
                    &&& blocks_with(r, "blocked word detected: "@ + self.words()[k])
                    &&& after.window_of(client) == self.window_of(client)
                },
                None => {
                    &&& after.window_of(client) == recent(self.window_of(client), now).push(now)
                    &&& rate_outcome_ok(r, after.window_of(client).len() as int, self.rate_limit())
                },
            }
        }
    }

    /// Full moderation of a message at time `now`: a muted sender is
    /// blocked; then a blocked word blocks; then the rate decides.
    pub fn check_message_at(&mut self, client_id: &str, content: &str, now: i64) -> (r: ModerationAction)
        requires
            old(self).wf(),
            now >= i64::MIN + RATE_WINDOW_MS,
        ensures
            old(self).moderated(*final(self), r, client_id@, content@, now),
    {
        if self.is_muted_at(client_id, now) {
            let mut m = String::new();
            push_str(&mut m, "user is muted");
            return ModerationAction::Block(m);
        }
        let c = self.check_content(content);
        match c {
            ModerationAction::Allow => self.check_rate_at(client_id, now),
            _ => c,
        }
    }

    /// Full moderation of a message sent now.
    pub fn check_message(&mut self, client_id: &str, content: &str) -> (r: ModerationAction)
        requires
            old(self).wf(),
        ensures
            exists|now: i64| 0 <= now && #[trigger] old(self).moderated(*final(self), r, client_id@, content@, now),
    {
        let now = now_millis();
        let r = self.check_message_at(client_id, content, now);
        assert(old(self).moderated(*self, r, client_id@, content@, now));
        r
    }
}

} // verus!
