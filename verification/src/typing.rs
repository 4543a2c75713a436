//! Typing indicators per channel, which expire after a timeout.
use vstd::prelude::*;
use crate::keyed::{entry_for, find_key, lemma_entry_at, lemma_entry_none, lemma_entry_push, lemma_entry_remove, lemma_entry_set, unique_keys};
use crate::messaging_types::now_millis;

verus! {

/// Who is typing in one channel: each client with when it started
/// (milliseconds since the Unix epoch).
pub type Typers = Vec<(String, i64)>;

/// A typing indicator started at `started` is still live at `now`.
pub open spec fn live(started: i64, now: i64, timeout_ms: i64) -> bool {
    now - started < timeout_ms
}

/// The clients of `entries` whose indicator is live at `now`, in order.
pub open spec fn live_clients(entries: Seq<(String, i64)>, now: i64, timeout_ms: i64) -> Seq<Seq<char>>
    decreases entries.len(),
{
    if entries.len() == 0 {
        Seq::empty()
    } else {
        let r = live_clients(entries.drop_last(), now, timeout_ms);
        if live(entries.last().1, now, timeout_ms) { r.push(entries.last().0@) } else { r }
    }
}

/// The entries of `entries` that are live at `now`, in order.
pub open spec fn live_entries(entries: Seq<(String, i64)>, now: i64, timeout_ms: i64) -> Seq<(String, i64)>
    decreases entries.len(),
{
    if entries.len() == 0 {
        entries
    } else {
        let r = live_entries(entries.drop_last(), now, timeout_ms);
        if live(entries.last().1, now, timeout_ms) { r.push(entries.last()) } else { r }
    }
}

/// The channels after expired indicators are dropped at `now`: each
/// channel keeps its live indicators, and channels left with none go.
pub open spec fn cleaned(rows: Seq<(String, Typers)>, now: i64, timeout_ms: i64) -> Seq<(Seq<char>, Seq<(String, i64)>)>
    decreases rows.len(),
{
    if rows.len() == 0 {
        Seq::empty()
    } else {
        let r = cleaned(rows.drop_last(), now, timeout_ms);
        let kept = live_entries(rows.last().1@, now, timeout_ms);
        if kept.len() > 0 { r.push((rows.last().0@, kept)) } else { r }
    }
}

/// Number of channels of `rows` with at least one indicator.
pub open spec fn busy_channels(rows: Seq<(String, Typers)>) -> nat
    decreases rows.len(),
{
    if rows.len() == 0 {
        0
    } else {
        busy_channels(rows.drop_last()) + if rows.last().1@.len() > 0 { 1nat } else { 0nat }
    }
}

/// The timeout that `Duration::from_secs(timeout_secs)` gives as a chrono
/// duration in milliseconds, or five seconds when it does not fit.
pub open spec fn timeout_of(timeout_secs: u64) -> i64 {
    if timeout_secs <= 9_223_372_036_854_775 { (timeout_secs * 1000) as i64 } else { 5000 }
}

/// Tracks typing indicators with automatic expiry.
pub struct TypingTracker {
    typing: Vec<(String, Typers)>,
    timeout_ms: i64,
}

impl TypingTracker {
    /// When `client` started typing in `channel`, if it did.
    pub closed spec fn started(self, channel: Seq<char>, client: Seq<char>) -> Option<i64> {
        match entry_for(self.typing@, channel) {
            Some(v) => entry_for(v@, client),
            None => None,
        }
    }

    /// The indicators of `channel`, oldest first (none when the channel has
    /// no entry).
    pub closed spec fn typers(self, channel: Seq<char>) -> Seq<(String, i64)> {
        match entry_for(self.typing@, channel) {
            Some(v) => v@,
            None => Seq::empty(),
        }
    }

    /// Whether `channel` has an entry (possibly with no indicator).
    pub closed spec fn has_channel(self, channel: Seq<char>) -> bool {
        entry_for(self.typing@, channel) is Some
    }

    /// All channel entries, in the order they were created.
    pub closed spec fn rows(self) -> Seq<(String, Typers)> {
        self.typing@
    }

    /// How long an indicator lives, in milliseconds.
    pub closed spec fn timeout(self) -> i64 {
        self.timeout_ms
    }

    /// The tracker's invariant: one entry per channel and one indicator per
    /// client in a channel.
    pub closed spec fn wf(self) -> bool {
        &&& unique_keys(self.typing@)
        &&& forall|k: int| 0 <= k < self.typing@.len() ==> unique_keys((#[trigger] self.typing@[k]).1@)
    }

    /// A tracker whose indicators live `timeout_secs` seconds.
    pub fn new(timeout_secs: u64) -> (t: Self)
        ensures
            t.wf(),
            t.timeout() == timeout_of(timeout_secs),
            t.rows().len() == 0,
            forall|ch: Seq<char>, c: Seq<char>| #[trigger] t.started(ch, c) is None,
    {
        let timeout_ms: i64 = if timeout_secs <= 9_223_372_036_854_775 { (timeout_secs * 1000) as i64 } else { 5000 };
        TypingTracker { typing: Vec::new(), timeout_ms }
    }

    /// `client_id` starts (or restarts) typing in `channel_id` at `now`.
    pub fn start_typing_at(&mut self, client_id: &str, channel_id: &str, now: i64)
        requires
            old(self).wf(),
        ensures
            final(self).wf(),
            final(self).timeout() == old(self).timeout(),
            final(self).started(channel_id@, client_id@) == Some(now),
            forall|ch: Seq<char>, c: Seq<char>| (ch != channel_id@ || c != client_id@) ==> #[trigger] final(self).started(ch, c) == old(self).started(ch, c),
            final(self).has_channel(channel_id@),
            forall|ch: Seq<char>| ch != channel_id@ ==> #[trigger] final(self).has_channel(ch) == old(self).has_channel(ch),
    {
        let ghost before = self.typing@;
        match find_key(&self.typing, channel_id) {
            Some(i) => {
                proof {
                    lemma_entry_at(before, channel_id@, i as int);
                    assert(unique_keys(before[i as int].1@));
                }
                let (key, mut users) = self.typing.remove(i);
                upsert_typer(&mut users, client_id, now);
                let ghost g = users;
                self.typing.insert(i, (key, users));
                proof {
                    assert(self.typing@ =~= before.update(i as int, (before[i as int].0, g)));
                    lemma_entry_set(before, i as int, g);
                    assert forall|k: int| 0 <= k < self.typing@.len() implies unique_keys((#[trigger] self.typing@[k]).1@) by {
                        if k != i {
                            assert(self.typing@[k] == before[k]);
                        }
                    }
                }
            },
            None => {
                proof {
                    lemma_entry_none(before, channel_id@);
                }
                let mut users: Typers = Vec::new();
                upsert_typer(&mut users, client_id, now);
                let key = channel_id.to_string();
                let ghost k = key;
                let ghost g = users;
                self.typing.push((key, users));
                proof {
                    lemma_entry_push(before, k, g);
                    assert forall|j: int| 0 <= j < self.typing@.len() implies unique_keys((#[trigger] self.typing@[j]).1@) by {
                        if j < before.len() {
                            assert(self.typing@[j] == before[j]);
                        }
                    }
                }
            },
        }
    }

    /// `client_id` starts typing in `channel_id` now.
    pub fn start_typing(&mut self, client_id: &str, channel_id: &str)
        requires
            old(self).wf(),
        ensures
            final(self).wf(),
            final(self).timeout() == old(self).timeout(),
            final(self).started(channel_id@, client_id@) is Some,
            forall|ch: Seq<char>, c: Seq<char>| (ch != channel_id@ || c != client_id@) ==> #[trigger] final(self).started(ch, c) == old(self).started(ch, c),
    {
        let now = now_millis();
        self.start_typing_at(client_id, channel_id, now);
    }

    /// `client_id` stops typing in `channel_id` (the channel's entry stays,
    /// possibly empty).
    pub fn stop_typing(&mut self, client_id: &str, channel_id: &str)
        requires
            old(self).wf(),
        ensures
            final(self).wf(),
            final(self).timeout() == old(self).timeout(),
            final(self).started(channel_id@, client_id@) is None,
            forall|ch: Seq<char>, c: Seq<char>| (ch != channel_id@ || c != client_id@) ==> #[trigger] final(self).started(ch, c) == old(self).started(ch, c),
            forall|ch: Seq<char>| #[trigger] final(self).has_channel(ch) == old(self).has_channel(ch),
    {
        let ghost before = self.typing@;
        match find_key(&self.typing, channel_id) {
            Some(i) => {
                proof {
                    lemma_entry_at(before, channel_id@, i as int);
                    assert(unique_keys(before[i as int].1@));
                }
                let (key, mut users) = self.typing.remove(i);
                let ghost u0 = users@;
                match find_key(&users, client_id) {
                    Some(j) => {
                        users.remove(j);
                        proof {
                            lemma_entry_at(u0, client_id@, j as int);
                            lemma_entry_remove(u0, j as int);
                        }
                    },
                    None => {
                        proof {
                            lemma_entry_none(u0, client_id@);
                        }
                    },
                }
                let ghost g = users;
                self.typing.insert(i, (key, users));
                proof {
                    assert(self.typing@ =~= before.update(i as int, (before[i as int].0, g)));
                    lemma_entry_set(before, i as int, g);
                    assert forall|k: int| 0 <= k < self.typing@.len() implies unique_keys((#[trigger] self.typing@[k]).1@) by {
                        if k != i {
                            assert(self.typing@[k] == before[k]);
                        }
                    }
                }
            },
            None => {
                proof {
                    lemma_entry_none(before, channel_id@);
                }
            },
        }
    }

    /// The clients typing in `channel_id` at `now` (expired indicators are
    /// left out), oldest first.
    pub fn typing_in_channel_at(&self, channel_id: &str, now: i64) -> (r: Vec<String>)
        requires
            self.wf(),
        ensures
            r@.map_values(|s: String| s@) == live_clients(self.typers(channel_id@), now, self.timeout()),
    {
        match find_key(&self.typing, channel_id) {
            Some(i) => {
                proof {
                    lemma_entry_at(self.typing@, channel_id@, i as int);
                }
                let users = &self.typing[i].1;
                let mut out: Vec<String> = Vec::new();
                let mut j: usize = 0;
                while j < users.len()
                    invariant
                        j <= users@.len(),
                        out@.map_values(|s: String| s@) == live_clients(users@.take(j as int), now, self.timeout_ms),
                    decreases users.len() - j,
                {
                    proof {
                        assert(users@.take(j + 1).drop_last() =~= users@.take(j as int));
                        assert(users@.take(j + 1).last() == users@[j as int]);
                    }
                    if is_live(users[j].1, now, self.timeout_ms) {
                        let ghost ob = out@;
                        out.push(users[j].0.clone());
                        assert(out@.map_values(|s: String| s@) =~= ob.map_values(|s: String| s@).push(users@[j as int].0@));
                    }
                    j = j + 1;
                }
                assert(users@.take(users@.len() as int) =~= users@);
                out
            },
            None => {
                proof {
                    lemma_entry_none(self.typing@, channel_id@);
                }
                Vec::new()
            },
        }
    }

    /// The clients typing in `channel_id` now.
    pub fn typing_in_channel(&self, channel_id: &str) -> (r: Vec<String>)
        requires
            self.wf(),
        ensures
            exists|now: i64| r@.map_values(|s: String| s@) == live_clients(self.typers(channel_id@), now, self.timeout()),
    {
        let now = now_millis();
        self.typing_in_channel_at(channel_id, now)
    }

    /// Whether `client_id`'s indicator in `channel_id` is live at `now`.
    pub fn is_typing_at(&self, client_id: &str, channel_id: &str, now: i64) -> (b: bool)
        requires
            self.wf(),
        ensures
            b == (self.started(channel_id@, client_id@) matches Some(t) && live(t, now, self.timeout())),
    {
        match find_key(&self.typing, channel_id) {
            Some(i) => {
                proof {
                    lemma_entry_at(self.typing@, channel_id@, i as int);
                }
                match find_key(&self.typing[i].1, client_id) {
                    Some(j) => {
                        proof {
                            lemma_entry_at(self.typing@[i as int].1@, client_id@, j as int);
                        }
                        is_live(self.typing[i].1[j].1, now, self.timeout_ms)
                    },
                    None => {
                        proof {
                            lemma_entry_none(self.typing@[i as int].1@, client_id@);
                        }
                        false
                    },
                }
            },
            None => {
                proof {
                    lemma_entry_none(self.typing@, channel_id@);
                }
                false
            },
        }
    }

    /// `client` has a live indicator in `channel` at `now`.
    pub open spec fn typing_live(self, channel: Seq<char>, client: Seq<char>, now: i64) -> bool {
        self.started(channel, client) matches Some(t) && live(t, now, self.timeout())
    }

    /// Whether `client_id` is typing in `channel_id` now.
    pub fn is_typing(&self, client_id: &str, channel_id: &str) -> (b: bool)
        requires
            self.wf(),
        ensures
            b ==> self.started(channel_id@, client_id@) is Some,
            exists|now: i64| 0 <= now && b == #[trigger] self.typing_live(channel_id@, client_id@, now),
    {
        let now = now_millis();
        let b = self.is_typing_at(client_id, channel_id, now);
        assert(b == self.typing_live(channel_id@, client_id@, now));
        b
    }

    /// Drops the indicators expired at `now`, and the channels left with
    /// none.
    pub fn cleanup_expired_at(&mut self, now: i64)
        requires
            old(self).wf(),
        ensures
            final(self).wf(),
            final(self).timeout() == old(self).timeout(),
            final(self).rows().map_values(|r: (String, Typers)| (r.0@, r.1@)) == cleaned(old(self).rows(), now, old(self).timeout()),
    {
        let timeout = self.timeout_ms;
        let mut rest: Vec<(String, Typers)> = Vec::new();
        std::mem::swap(&mut rest, &mut self.typing);
        let ghost all = rest@;
        let mut kept: Vec<(String, Typers)> = Vec::new();
        let mut i: usize = 0;
        while i < rest.len()
            invariant
                rest@ == all,
                i <= all.len(),
                unique_keys(all),
                forall|k: int| 0 <= k < all.len() ==> unique_keys((#[trigger] all[k]).1@),
                kept@.map_values(|r: (String, Typers)| (r.0@, r.1@)) == cleaned(all.take(i as int), now, timeout),
                forall|k: int| 0 <= k < kept@.len() ==> unique_keys((#[trigger] kept@[k]).1@),
                forall|k: int| 0 <= k < kept@.len() ==> exists|m: int| 0 <= m < i && (#[trigger] kept@[k]).0@ == (#[trigger] all[m]).0@,
                forall|a: int, b: int| 0 <= a < b < kept@.len() ==> exists|ma: int, mb: int| 0 <= ma < mb < i && (#[trigger] kept@[a]).0@ == all[ma].0@ && (#[trigger] kept@[b]).0@ == all[mb].0@,
            decreases all.len() - i,
        {
            proof {
                assert(all.take(i + 1).drop_last() =~= all.take(i as int));
                assert(all.take(i + 1).last() == all[i as int]);
            }
            let users = live_typers(&rest[i].1, now, timeout);
            if users.len() > 0 {
                let ghost kb = kept@;
                let ghost gu = users;
                kept.push((rest[i].0.clone(), users));
                proof {
                    assert(kept@.map_values(|r: (String, Typers)| (r.0@, r.1@)) =~= kb.map_values(|r: (String, Typers)| (r.0@, r.1@)).push((all[i as int].0@, gu@)));
                    assert forall|k: int| 0 <= k < kept@.len() implies exists|m: int| 0 <= m < i + 1 && (#[trigger] kept@[k]).0@ == (#[trigger] all[m]).0@ by {
                        if k < kb.len() {
                            assert(kept@[k] == kb[k]);
                            let m = choose|m: int| 0 <= m < i && (#[trigger] kb[k]).0@ == (#[trigger] all[m]).0@;
                            assert(kept@[k].0@ == all[m].0@);
                        } else {
                            assert(kept@[k].0@ == all[i as int].0@);
                        }
                    }
                    assert forall|a: int, b: int| 0 <= a < b < kept@.len() implies exists|ma: int, mb: int| 0 <= ma < mb < i + 1 && (#[trigger] kept@[a]).0@ == all[ma].0@ && (#[trigger] kept@[b]).0@ == all[mb].0@ by {
                        assert(kept@[a] == kb[a]);
                        if b < kb.len() {
                            assert(kept@[b] == kb[b]);
                            let (ma, mb) = choose|ma: int, mb: int| 0 <= ma < mb < i && (#[trigger] kb[a]).0@ == all[ma].0@ && (#[trigger] kb[b]).0@ == all[mb].0@;
                            assert(kept@[a].0@ == all[ma].0@ && kept@[b].0@ == all[mb].0@);
                        } else {
                            let ma = choose|m: int| 0 <= m < i && (#[trigger] kb[a]).0@ == (#[trigger] all[m]).0@;
                            assert(kept@[a].0@ == all[ma].0@ && kept@[b].0@ == all[i as int].0@);
                        }
                    }
                }
            }
            i = i + 1;
        }
        proof {
            assert(all.take(all.len() as int) =~= all);
            assert forall|a: int, b: int| 0 <= a < kept@.len() && 0 <= b < kept@.len() && a != b implies (#[trigger] kept@[a]).0@ != (#[trigger] kept@[b]).0@ by {
                if a < b {
                    let (ma, mb) = choose|ma: int, mb: int| 0 <= ma < mb < all.len() && (#[trigger] kept@[a]).0@ == all[ma].0@ && (#[trigger] kept@[b]).0@ == all[mb].0@;
                    assert(all[ma].0@ != all[mb].0@);
                } else {
                    let (mb, ma) = choose|mb: int, ma: int| 0 <= mb < ma < all.len() && (#[trigger] kept@[b]).0@ == all[mb].0@ && (#[trigger] kept@[a]).0@ == all[ma].0@;
                    assert(all[ma].0@ != all[mb].0@);
                }
            }
        }
        self.typing = kept;
    }

    /// Number of channels where someone has an indicator (expired or not).
    pub fn active_channels(&self) -> (n: usize)
        ensures
            n == busy_channels(self.rows()),
    {
        let mut n: usize = 0;
        let mut i: usize = 0;
        while i < self.typing.len()
            invariant
                i <= self.typing@.len(),
                n == busy_channels(self.typing@.take(i as int)),
                n <= i,
            decreases self.typing.len() - i,
        {
            proof {
                assert(self.typing@.take(i + 1).drop_last() =~= self.typing@.take(i as int));
                assert(self.typing@.take(i + 1).last() == self.typing@[i as int]);
            }
            if self.typing[i].1.len() > 0 {
                n = n + 1;
            }
            i = i + 1;
        }
        assert(self.typing@.take(self.typing@.len() as int) =~= self.typing@);
        n
    }

    /// Drops the indicators expired now, and the channels left with none.
    pub fn cleanup_expired(&mut self)
        requires
            old(self).wf(),
        ensures
            final(self).wf(),
            final(self).timeout() == old(self).timeout(),
            exists|now: i64| final(self).rows().map_values(|r: (String, Typers)| (r.0@, r.1@)) == cleaned(old(self).rows(), now, old(self).timeout()),
    {
        let now = now_millis();
        self.cleanup_expired_at(now);
    }
}

/// Whether an indicator started at `started` is live at `now`.
fn is_live(started: i64, now: i64, timeout_ms: i64) -> (b: bool)
    ensures
        b == live(started, now, timeout_ms),
{
    (now as i128) - (started as i128) < (timeout_ms as i128)
}

/// Sets `client`'s indicator to `now`, adding it when missing.
fn upsert_typer(users: &mut Typers, client: &str, now: i64)
    requires
        unique_keys(old(users)@),
    ensures
        unique_keys(final(users)@),
        entry_for(final(users)@, client@) == Some(now),
        forall|u: Seq<char>| u != client@ ==> #[trigger] entry_for(final(users)@, u) == entry_for(old(users)@, u),
{
    let ghost u0 = users@;
    match find_key(users, client) {
        Some(j) => {
            proof {
                lemma_entry_at(u0, client@, j as int);
            }
            let (k, _) = users.remove(j);
            users.insert(j, (k, now));
            proof {
                assert(users@ =~= u0.update(j as int, (u0[j as int].0, now)));
                lemma_entry_set(u0, j as int, now);
            }
        },
        None => {
            proof {
                lemma_entry_none(u0, client@);
            }
            let key = client.to_string();
            let ghost kk = key;
            users.push((key, now));
            proof {
                lemma_entry_push(u0, kk, now);
            }
        },
    }
}

/// The live indicators of `users` at `now`, in order.
fn live_typers(users: &Typers, now: i64, timeout_ms: i64) -> (r: Typers)
    requires
        unique_keys(users@),
    ensures
        r@ == live_entries(users@, now, timeout_ms),
        unique_keys(r@),
{
    let mut out: Typers = Vec::new();
    let mut j: usize = 0;
    while j < users.len()
        invariant
            j <= users@.len(),
            unique_keys(users@),
            out@ == live_entries(users@.take(j as int), now, timeout_ms),
            forall|k: int| 0 <= k < out@.len() ==> exists|m: int| 0 <= m < j && (#[trigger] out@[k]) == (#[trigger] users@[m]),
            forall|a: int, b: int| 0 <= a < b < out@.len() ==> exists|ma: int, mb: int| 0 <= ma < mb < j && (#[trigger] out@[a]) == users@[ma] && (#[trigger] out@[b]) == users@[mb],
        decreases users.len() - j,
    {
        proof {
            assert(users@.take(j + 1).drop_last() =~= users@.take(j as int));
            assert(users@.take(j + 1).last() == users@[j as int]);
        }
        if is_live(users[j].1, now, timeout_ms) {
            let ghost ob = out@;
            out.push((users[j].0.clone(), users[j].1));
            proof {
                assert(out@ == ob.push(users@[j as int]));
                assert forall|k: int| 0 <= k < out@.len() implies exists|m: int| 0 <= m < j + 1 && (#[trigger] out@[k]) == (#[trigger] users@[m]) by {
                    if k < ob.len() {
                        assert(out@[k] == ob[k]);
                        let m = choose|m: int| 0 <= m < j && (#[trigger] ob[k]) == (#[trigger] users@[m]);
                        assert(out@[k] == users@[m]);
                    } else {
                        assert(out@[k] == users@[j as int]);
                    }
                }
                assert forall|a: int, b: int| 0 <= a < b < out@.len() implies exists|ma: int, mb: int| 0 <= ma < mb < j + 1 && (#[trigger] out@[a]) == users@[ma] && (#[trigger] out@[b]) == users@[mb] by {
                    assert(out@[a] == ob[a]);
                    if b < ob.len() {
                        assert(out@[b] == ob[b]);
                        let (ma, mb) = choose|ma: int, mb: int| 0 <= ma < mb < j && (#[trigger] ob[a]) == users@[ma] && (#[trigger] ob[b]) == users@[mb];
                        assert(out@[a] == users@[ma] && out@[b] == users@[mb]);
                    } else {
                        let ma = choose|m: int| 0 <= m < j && (#[trigger] ob[a]) == (#[trigger] users@[m]);
                        assert(out@[a] == users@[ma] && out@[b] == users@[j as int]);
                    }
                }
            }
        }
        j = j + 1;
    }
    proof {
        assert(users@.take(users@.len() as int) =~= users@);
        assert forall|a: int, b: int| 0 <= a < out@.len() && 0 <= b < out@.len() && a != b implies (#[trigger] out@[a]).0@ != (#[trigger] out@[b]).0@ by {
            if a < b {
                let (ma, mb) = choose|ma: int, mb: int| 0 <= ma < mb < users@.len() && (#[trigger] out@[a]) == users@[ma] && (#[trigger] out@[b]) == users@[mb];
                assert(users@[ma].0@ != users@[mb].0@);
            } else {
                let (mb, ma) = choose|mb: int, ma: int| 0 <= mb < ma < users@.len() && (#[trigger] out@[b]) == users@[mb] && (#[trigger] out@[a]) == users@[ma];
                assert(users@[ma].0@ != users@[mb].0@);
            }
        }
    }
    out
}

} // verus!
