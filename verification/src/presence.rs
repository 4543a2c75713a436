//! Presence of users: their status (online, away, ...), status message and
//! when they were last seen.
use vstd::prelude::*;
use crate::keyed::{entry_for, find_key, lemma_entry_at, lemma_entry_none, lemma_entry_push, lemma_entry_set, lemma_entry_unique, unique_keys};
use crate::messaging_types::{now_millis, PresenceStatus};

verus! {

/// Presence of one user. Times are milliseconds since the Unix epoch.
#[derive(Debug, Clone)]
pub struct PresenceInfo {
    pub status: PresenceStatus,
    pub status_message: String,
    pub last_seen: i64,
    pub updated_at: i64,
}

impl PresenceInfo {
    /// A copy of the presence.
    pub fn duplicate(&self) -> (r: Self)
        ensures
            r == *self,
    {
        PresenceInfo {
            status: self.status,
            status_message: self.status_message.clone(),
            last_seen: self.last_seen,
            updated_at: self.updated_at,
        }
    }
}

/// Ids of the users of `rows` who are online, in order.
pub open spec fn online_of(rows: Seq<(String, PresenceInfo)>) -> Seq<Seq<char>>
    decreases rows.len(),
{
    if rows.len() == 0 {
        Seq::empty()
    } else {
        let r = online_of(rows.drop_last());
        if rows.last().1.status == PresenceStatus::Online { r.push(rows.last().0@) } else { r }
    }
}

/// Tracks the presence of users.
pub struct PresenceTracker {
    presences: Vec<(String, PresenceInfo)>,
}

impl PresenceTracker {
    /// The presence of `client`, if it is tracked.
    pub closed spec fn info(self, client: Seq<char>) -> Option<PresenceInfo> {
        entry_for(self.presences@, client)
    }

    /// The tracked users with their presence, in the order they were first
    /// seen.
    pub closed spec fn rows(self) -> Seq<(String, PresenceInfo)> {
        self.presences@
    }

    /// The tracker's invariant: one row per user.
    pub closed spec fn wf(self) -> bool {
        unique_keys(self.presences@)
    }

    /// Each row holds the presence of its user, and no user has two rows.
    pub proof fn lemma_rows(self)
        requires
            self.wf(),
        ensures
            unique_keys(self.rows()),
            forall|k: int| 0 <= k < self.rows().len() ==> self.info((#[trigger] self.rows()[k]).0@) == Some(self.rows()[k].1),
            forall|c: Seq<char>| #[trigger] self.info(c) is Some <==> exists|k: int| 0 <= k < self.rows().len() && (#[trigger] self.rows()[k]).0@ == c,
    {
        assert forall|k: int| 0 <= k < self.rows().len() implies self.info((#[trigger] self.rows()[k]).0@) == Some(self.rows()[k].1) by {
            lemma_entry_unique(self.presences@, k);
        }
    }

    /// A tracker with no user.
    pub fn new() -> (t: Self)
        ensures
            t.wf(),
            t.rows().len() == 0,
            forall|c: Seq<char>| #[trigger] t.info(c) is None,
    {
        PresenceTracker { presences: Vec::new() }
    }

    /// Position of `client`'s row, adding an offline row seen at `now`
    /// when there is none.
    fn row_of(&mut self, client_id: &str, now: i64) -> (i: usize)
        requires
            old(self).wf(),
        ensures
            final(self).wf(),
            i < final(self).rows().len(),
            final(self).rows()[i as int].0@ == client_id@,
            match old(self).info(client_id@) {
                Some(p) => final(self).rows() == old(self).rows() && final(self).rows()[i as int].1 == p,
                None => {
                    let row = final(self).rows()[i as int].1;
                    &&& final(self).rows() == old(self).rows().push(final(self).rows()[i as int])
                    &&& row.status == PresenceStatus::Offline
                    &&& row.status_message@.len() == 0
                    &&& row.last_seen == now
                    &&& row.updated_at == now
                },
            },
            forall|k: int| 0 <= k < i ==> (#[trigger] final(self).rows()[k]).0@ != client_id@,
            forall|u: Seq<char>| u != client_id@ ==> #[trigger] final(self).info(u) == old(self).info(u),
    {
        let ghost before = self.presences@;
        match find_key(&self.presences, client_id) {
            Some(i) => {
                proof {
                    lemma_entry_at(before, client_id@, i as int);
                }
                i
            },
            None => {
                proof {
                    lemma_entry_none(before, client_id@);
                }
                let key = client_id.to_string();
                let info = PresenceInfo { status: PresenceStatus::Offline, status_message: String::new(), last_seen: now, updated_at: now };
                let ghost k = key;
                let ghost g = info;
                self.presences.push((key, info));
                proof {
                    lemma_entry_push(before, k, g);
                }
                self.presences.len() - 1
            },
        }
    }

    /// Replaces the presence in row `i`.
    fn set_row(&mut self, i: usize, info: PresenceInfo)
        requires
            old(self).wf(),
            i < old(self).rows().len(),
        ensures
            final(self).wf(),
            final(self).rows() == old(self).rows().update(i as int, (old(self).rows()[i as int].0, info)),
            final(self).info(old(self).rows()[i as int].0@) == Some(info),
            forall|u: Seq<char>| u != old(self).rows()[i as int].0@ ==> #[trigger] final(self).info(u) == old(self).info(u),
    {
        let ghost before = self.presences@;
        let (key, _) = self.presences.remove(i);
        let ghost g = info;
        self.presences.insert(i, (key, info));
        proof {
            assert(self.presences@ =~= before.update(i as int, (before[i as int].0, g)));
            lemma_entry_set(before, i as int, g);
        }
    }

    /// Sets `client_id`'s status at `now`; any status but offline also
    /// counts as being seen.
    pub fn set_status_at(&mut self, client_id: &str, status: PresenceStatus, now: i64)
        requires
            old(self).wf(),
        ensures
            final(self).wf(),
            ({
                let p = final(self).info(client_id@)->Some_0;
                &&& final(self).info(client_id@) is Some
                &&& p.status == status
                &&& p.updated_at == now
                &&& p.last_seen == match old(self).info(client_id@) {
                    Some(q) => if status != PresenceStatus::Offline { now } else { q.last_seen },
                    None => now,
                }
                &&& p.status_message@ == match old(self).info(client_id@) {
                    Some(q) => q.status_message@,
                    None => Seq::<char>::empty(),
                }
            }),
            forall|u: Seq<char>| u != client_id@ ==> #[trigger] final(self).info(u) == old(self).info(u),
            final(self).rows().len() == old(self).rows().len() + if old(self).info(client_id@) is Some { 0int } else { 1int },
    {
        let i = self.row_of(client_id, now);
        let mut info = self.presences[i].1.duplicate();
        info.status = status;
        info.updated_at = now;
        if status != PresenceStatus::Offline {
            info.last_seen = now;
        }
        self.set_row(i, info);
    }

    /// Sets `client_id`'s status now.
    pub fn set_status(&mut self, client_id: &str, status: PresenceStatus)
        requires
            old(self).wf(),
        ensures
            final(self).wf(),
            final(self).info(client_id@) is Some,
            final(self).info(client_id@)->Some_0.status == status,
            final(self).info(client_id@)->Some_0.status_message@ == match old(self).info(client_id@) {
                Some(q) => q.status_message@,
                None => Seq::<char>::empty(),
            },
            forall|u: Seq<char>| u != client_id@ ==> #[trigger] final(self).info(u) == old(self).info(u),
    {
        let now = now_millis();
        self.set_status_at(client_id, status, now);
    }

    /// Sets `client_id`'s status message at `now`.
    pub fn set_status_message_at(&mut self, client_id: &str, message: String, now: i64)
        requires
            old(self).wf(),
        ensures
            final(self).wf(),
            ({
                let p = final(self).info(client_id@)->Some_0;
                &&& final(self).info(client_id@) is Some
                &&& p.status_message == message
                &&& p.updated_at == now
                &&& p.status == match old(self).info(client_id@) {
                    Some(q) => q.status,
                    None => PresenceStatus::Offline,
                }
                &&& p.last_seen == match old(self).info(client_id@) {
                    Some(q) => q.last_seen,
                    None => now,
                }
            }),
            forall|u: Seq<char>| u != client_id@ ==> #[trigger] final(self).info(u) == old(self).info(u),
    {
        let i = self.row_of(client_id, now);
        let mut info = self.presences[i].1.duplicate();
        info.status_message = message;
        info.updated_at = now;
        self.set_row(i, info);
    }

    /// Sets `client_id`'s status message now.
    pub fn set_status_message(&mut self, client_id: &str, message: String)
        requires
            old(self).wf(),
        ensures
            final(self).wf(),
            final(self).info(client_id@) is Some,
            final(self).info(client_id@)->Some_0.status_message == message,
            final(self).info(client_id@)->Some_0.status == match old(self).info(client_id@) {
                Some(q) => q.status,
                None => PresenceStatus::Offline,
            },
            forall|u: Seq<char>| u != client_id@ ==> #[trigger] final(self).info(u) == old(self).info(u),
    {
        let now = now_millis();
        self.set_status_message_at(client_id, message, now);
    }

    /// A copy of `client_id`'s presence, if tracked.
    pub fn get(&self, client_id: &str) -> (r: Option<PresenceInfo>)
        requires
            self.wf(),
        ensures
            r == self.info(client_id@),
    {
        match find_key(&self.presences, client_id) {
            Some(i) => {
                proof {
                    lemma_entry_at(self.presences@, client_id@, i as int);
                }
                Some(self.presences[i].1.duplicate())
            },
            None => {
                proof {
                    lemma_entry_none(self.presences@, client_id@);
                }
                None
            },
        }
    }

    /// `client_id`'s status; offline for a user who is not tracked.
    pub fn get_status(&self, client_id: &str) -> (s: PresenceStatus)
        requires
            self.wf(),
        ensures
            s == match self.info(client_id@) {
                Some(p) => p.status,
                None => PresenceStatus::Offline,
            },
    {
        match self.get(client_id) {
            Some(p) => p.status,
            None => PresenceStatus::Offline,
        }
    }

    /// Marks `client_id` online now.
    pub fn mark_online(&mut self, client_id: &str)
        requires
            old(self).wf(),
        ensures
            final(self).wf(),
            final(self).info(client_id@) is Some,
            final(self).info(client_id@)->Some_0.status == PresenceStatus::Online,
            forall|u: Seq<char>| u != client_id@ ==> #[trigger] final(self).info(u) == old(self).info(u),
    {
        self.set_status(client_id, PresenceStatus::Online);
    }

    /// Marks `client_id` offline now.
    pub fn mark_offline(&mut self, client_id: &str)
        requires
            old(self).wf(),
        ensures
            final(self).wf(),
            final(self).info(client_id@) is Some,
            final(self).info(client_id@)->Some_0.status == PresenceStatus::Offline,
            forall|u: Seq<char>| u != client_id@ ==> #[trigger] final(self).info(u) == old(self).info(u),
    {
        self.set_status(client_id, PresenceStatus::Offline);
    }

    /// Ids of the users who are online.
    pub fn online_users(&self) -> (r: Vec<String>)
        ensures
            r@.map_values(|s: String| s@) == online_of(self.rows()),
    {
        let mut out: Vec<String> = Vec::new();
        let mut i: usize = 0;
        while i < self.presences.len()
            invariant
                i <= self.presences@.len(),
                out@.map_values(|s: String| s@) == online_of(self.presences@.take(i as int)),
            decreases self.presences.len() - i,
        {
            proof {
                assert(self.presences@.take(i + 1).drop_last() =~= self.presences@.take(i as int));
                assert(self.presences@.take(i + 1).last() == self.presences@[i as int]);
            }
            if self.presences[i].1.status == PresenceStatus::Online {
                let ghost ob = out@;
                out.push(self.presences[i].0.clone());
                assert(out@.map_values(|s: String| s@) =~= ob.map_values(|s: String| s@).push(self.presences@[i as int].0@));
            }
            i = i + 1;
        }
        assert(self.presences@.take(self.presences@.len() as int) =~= self.presences@);
        out
    }

    /// Copies of all rows: each tracked user with their presence.
    pub fn all_presences(&self) -> (r: Vec<(String, PresenceInfo)>)
        ensures
            r@ == self.rows(),
    {
        let mut out: Vec<(String, PresenceInfo)> = Vec::new();
        let mut i: usize = 0;
        while i < self.presences.len()
            invariant
                i <= self.presences@.len(),
                out@ == self.presences@.take(i as int),
            decreases self.presences.len() - i,
        {
            out.push((self.presences[i].0.clone(), self.presences[i].1.duplicate()));
            i = i + 1;
            assert(out@ =~= self.presences@.take(i as int));
        }
        assert(self.presences@.take(self.presences@.len() as int) =~= self.presences@);
        out
    }

    /// Number of tracked users.
    pub fn tracked_count(&self) -> (n: usize)
        ensures
            n == self.rows().len(),
    {
        self.presences.len()
    }
}

impl Default for PresenceTracker {
    fn default() -> (t: Self)
        ensures
            t.wf(),
            t.rows().len() == 0,
    {
        PresenceTracker::new()
    }
}

/// A user is listed online exactly when their presence says so.
pub proof fn lemma_online_users(t: PresenceTracker, c: Seq<char>)
    requires
        t.wf(),
    ensures
        online_of(t.rows()).contains(c) <==> (t.info(c) matches Some(p) && p.status == PresenceStatus::Online),
{
    t.lemma_rows();
    lemma_online_of(t.rows(), c);
    if t.info(c) is Some {
        let k = choose|k: int| 0 <= k < t.rows().len() && (#[trigger] t.rows()[k]).0@ == c;
        assert(t.info(t.rows()[k].0@) == Some(t.rows()[k].1));
    }
    if online_of(t.rows()).contains(c) {
        let k = choose|k: int| 0 <= k < t.rows().len() && (#[trigger] t.rows()[k]).0@ == c && t.rows()[k].1.status == PresenceStatus::Online;
        assert(t.info(t.rows()[k].0@) == Some(t.rows()[k].1));
    }
}

proof fn lemma_online_of(rows: Seq<(String, PresenceInfo)>, c: Seq<char>)
    ensures
        online_of(rows).contains(c) <==> exists|k: int| 0 <= k < rows.len() && (#[trigger] rows[k]).0@ == c && rows[k].1.status == PresenceStatus::Online,
    decreases rows.len(),
{
    if rows.len() > 0 {
        let init = rows.drop_last();
        lemma_online_of(init, c);
        let r = online_of(init);
        if exists|k: int| 0 <= k < init.len() && (#[trigger] init[k]).0@ == c && init[k].1.status == PresenceStatus::Online {
            let k = choose|k: int| 0 <= k < init.len() && (#[trigger] init[k]).0@ == c && init[k].1.status == PresenceStatus::Online;
            assert(rows[k] == init[k]);
        }
        if exists|k: int| 0 <= k < rows.len() && (#[trigger] rows[k]).0@ == c && rows[k].1.status == PresenceStatus::Online {
            let k = choose|k: int| 0 <= k < rows.len() && (#[trigger] rows[k]).0@ == c && rows[k].1.status == PresenceStatus::Online;
            if k < init.len() {
                assert(rows[k] == init[k]);
            } else {
                assert(online_of(rows) == r.push(c));
                assert(online_of(rows)[r.len() as int] == c);
            }
        }
        if online_of(rows).contains(c) && !r.contains(c) {
            assert(rows.last().1.status == PresenceStatus::Online);
            let j = choose|j: int| 0 <= j < online_of(rows).len() && online_of(rows)[j] == c;
            if j < r.len() {
                assert(online_of(rows)[j] == r[j]);
            }
            assert(rows[rows.len() - 1] == rows.last());
        }
        if r.contains(c) {
            let j = choose|j: int| 0 <= j < r.len() && r[j] == c;
            if rows.last().1.status == PresenceStatus::Online {
                assert(online_of(rows)[j] == r[j]);
            }
        }
    }
}

} // verus!
