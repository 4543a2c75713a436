//! Read receipts per message, and the last-read time of each user in each
//! channel.
use vstd::prelude::*;
use crate::keyed::{entry_for, find_key, lemma_entry_at, lemma_entry_none, lemma_entry_push, lemma_entry_set, unique_keys};
use crate::messaging_types::now_millis;
use crate::text::str_equal;

verus! {

/// A user has read a message. `read_at` is in milliseconds since the Unix
/// epoch.
#[derive(Debug, Clone)]
pub struct ReadReceipt {
    pub message_id: String,
    pub reader_id: String,
    pub read_at: i64,
}

impl ReadReceipt {
    /// A copy of the receipt.
    pub fn duplicate(&self) -> (r: Self)
        ensures
            r == *self,
    {
        ReadReceipt { message_id: self.message_id.clone(), reader_id: self.reader_id.clone(), read_at: self.read_at }
    }
}

/// Some receipt of `rs` is by `reader`.
pub open spec fn read_by(rs: Seq<ReadReceipt>, reader: Seq<char>) -> bool {
    exists|k: int| 0 <= k < rs.len() && (#[trigger] rs[k]).reader_id@ == reader
}

/// Number of the times of `ts` later than `t`.
pub open spec fn count_after(ts: Seq<i64>, t: i64) -> nat
    decreases ts.len(),
{
    if ts.len() == 0 {
        0
    } else {
        count_after(ts.drop_last(), t) + if ts.last() > t { 1nat } else { 0nat }
    }
}

/// Tracks read receipts and last-read times.
pub struct ReadReceiptTracker {
    receipts: Vec<(String, Vec<ReadReceipt>)>,
    last_read: Vec<(String, Vec<(String, i64)>)>,
}

impl ReadReceiptTracker {
    /// The receipts of `message`, in the order they were recorded.
    pub closed spec fn receipts_of(self, message: Seq<char>) -> Seq<ReadReceipt> {
        match entry_for(self.receipts@, message) {
            Some(v) => v@,
            None => Seq::empty(),
        }
    }

    /// When `user` last read `channel`, if ever.
    pub closed spec fn last_read_of(self, channel: Seq<char>, user: Seq<char>) -> Option<i64> {
        match entry_for(self.last_read@, channel) {
            Some(v) => entry_for(v@, user),
            None => None,
        }
    }

    /// The tracker's invariant: one entry per message, one per channel, and
    /// one time per user of a channel.
    pub closed spec fn wf(self) -> bool {
        &&& unique_keys(self.receipts@)
        &&& unique_keys(self.last_read@)
        &&& forall|k: int| 0 <= k < self.last_read@.len() ==> unique_keys((#[trigger] self.last_read@[k]).1@)
    }

    /// A tracker with no receipt.
    pub fn new() -> (t: Self)
        ensures
            t.wf(),
            forall|m: Seq<char>| #[trigger] t.receipts_of(m) == Seq::<ReadReceipt>::empty(),
            forall|c: Seq<char>, u: Seq<char>| #[trigger] t.last_read_of(c, u) is None,
    {
        ReadReceiptTracker { receipts: Vec::new(), last_read: Vec::new() }
    }

    /// Records that `reader_id` read `message_id` at `now`, unless a
    /// receipt by that reader is already there; returns the receipt made.
    pub fn mark_read_at(&mut self, message_id: &str, reader_id: &str, now: i64) -> (r: ReadReceipt)
        requires
            old(self).wf(),
        ensures
            final(self).wf(),
            r.message_id@ == message_id@,
            r.reader_id@ == reader_id@,
            r.read_at == now,
            final(self).receipts_of(message_id@) == if read_by(old(self).receipts_of(message_id@), reader_id@) {
                old(self).receipts_of(message_id@)
            } else {
                old(self).receipts_of(message_id@).push(r)
            },
            forall|m: Seq<char>| m != message_id@ ==> #[trigger] final(self).receipts_of(m) == old(self).receipts_of(m),
            forall|c: Seq<char>, u: Seq<char>| #[trigger] final(self).last_read_of(c, u) == old(self).last_read_of(c, u),
    {
        let receipt = ReadReceipt { message_id: message_id.to_string(), reader_id: reader_id.to_string(), read_at: now };
        let ghost before = self.receipts@;
        match find_key(&self.receipts, message_id) {
            Some(i) => {
                proof {
                    lemma_entry_at(before, message_id@, i as int);
                }
                let (key, mut rs) = self.receipts.remove(i);
                if !has_reader(&rs, reader_id) {
                    rs.push(receipt.duplicate());
                }
                let ghost g = rs;
                self.receipts.insert(i, (key, rs));
                proof {
                    assert(self.receipts@ =~= before.update(i as int, (before[i as int].0, g)));
                    lemma_entry_set(before, i as int, g);
                }
            },
            None => {
                proof {
                    lemma_entry_none(before, message_id@);
                }
                let rs = vec![receipt.duplicate()];
                let key = message_id.to_string();
                let ghost k = key;
                let ghost g = rs;
                self.receipts.push((key, rs));
                proof {
                    lemma_entry_push(before, k, g);
                    assert(g@ =~= Seq::<ReadReceipt>::empty().push(receipt));
                }
            },
        }
        receipt
    }

    /// Records that `reader_id` read `message_id` now.
    pub fn mark_read(&mut self, message_id: &str, reader_id: &str) -> (r: ReadReceipt)
        requires
            old(self).wf(),
        ensures
            final(self).wf(),
            r.message_id@ == message_id@,
            r.reader_id@ == reader_id@,
            final(self).receipts_of(message_id@) == if read_by(old(self).receipts_of(message_id@), reader_id@) {
                old(self).receipts_of(message_id@)
            } else {
                old(self).receipts_of(message_id@).push(r)
            },
            forall|m: Seq<char>| m != message_id@ ==> #[trigger] final(self).receipts_of(m) == old(self).receipts_of(m),
    {
        let now = now_millis();
        self.mark_read_at(message_id, reader_id, now)
    }

    /// Copies of the receipts of `message_id`.
    pub fn get_receipts(&self, message_id: &str) -> (r: Vec<ReadReceipt>)
        requires
            self.wf(),
        ensures
            r@ == self.receipts_of(message_id@),
    {
        match find_key(&self.receipts, message_id) {
            Some(i) => {
                proof {
                    lemma_entry_at(self.receipts@, message_id@, i as int);
                }
                let rs = &self.receipts[i].1;
                let mut out: Vec<ReadReceipt> = Vec::new();
                let mut j: usize = 0;
                while j < rs.len()
                    invariant
                        j <= rs@.len(),
                        out@ == rs@.take(j as int),
                    decreases rs.len() - j,
                {
                    out.push(rs[j].duplicate());
                    j = j + 1;
                    assert(out@ =~= rs@.take(j as int));
                }
                assert(rs@.take(rs@.len() as int) =~= rs@);
                out
            },
            None => {
                proof {
                    lemma_entry_none(self.receipts@, message_id@);
                }
                Vec::new()
            },
        }
    }

    /// Whether `reader_id` has read `message_id`.
    pub fn is_read_by(&self, message_id: &str, reader_id: &str) -> (b: bool)
        requires
            self.wf(),
        ensures
            b == read_by(self.receipts_of(message_id@), reader_id@),
    {
        match find_key(&self.receipts, message_id) {
            Some(i) => {
                proof {
                    lemma_entry_at(self.receipts@, message_id@, i as int);
                }
                has_reader(&self.receipts[i].1, reader_id)
            },
            None => {
                proof {
                    lemma_entry_none(self.receipts@, message_id@);
                }
                false
            },
        }
    }

    /// Sets the time `user_id` last read `channel_id` to `now`.
    pub fn mark_channel_read_at(&mut self, channel_id: &str, user_id: &str, now: i64)
        requires
            old(self).wf(),
        ensures
            final(self).wf(),
            final(self).last_read_of(channel_id@, user_id@) == Some(now),
            forall|c: Seq<char>, u: Seq<char>| (c != channel_id@ || u != user_id@) ==> #[trigger] final(self).last_read_of(c, u) == old(self).last_read_of(c, u),
            forall|m: Seq<char>| #[trigger] final(self).receipts_of(m) == old(self).receipts_of(m),
    {
        let ghost before = self.last_read@;
        match find_key(&self.last_read, channel_id) {
            Some(i) => {
                proof {
                    lemma_entry_at(before, channel_id@, i as int);
                    assert(unique_keys(before[i as int].1@));
                }
                let (key, mut users) = self.last_read.remove(i);
                set_time(&mut users, user_id, now);
                let ghost g = users;
                self.last_read.insert(i, (key, users));
                proof {
                    assert(self.last_read@ =~= before.update(i as int, (before[i as int].0, g)));
                    lemma_entry_set(before, i as int, g);
                    assert forall|k: int| 0 <= k < self.last_read@.len() implies unique_keys((#[trigger] self.last_read@[k]).1@) by {
                        if k != i {
                            assert(self.last_read@[k] == before[k]);
                        }
                    }
                }
            },
            None => {
                proof {
                    lemma_entry_none(before, channel_id@);
                }
                let mut users: Vec<(String, i64)> = Vec::new();
                set_time(&mut users, user_id, now);
                let key = channel_id.to_string();
                let ghost k = key;
                let ghost g = users;
                self.last_read.push((key, users));
                proof {
                    lemma_entry_push(before, k, g);
                    assert forall|j: int| 0 <= j < self.last_read@.len() implies unique_keys((#[trigger] self.last_read@[j]).1@) by {
                        if j < before.len() {
                            assert(self.last_read@[j] == before[j]);
                        }
                    }
                }
            },
        }
    }

    /// Sets the time `user_id` last read `channel_id` to now.
    pub fn mark_channel_read(&mut self, channel_id: &str, user_id: &str)
        requires
            old(self).wf(),
        ensures
            final(self).wf(),
            final(self).last_read_of(channel_id@, user_id@) is Some,
            forall|c: Seq<char>, u: Seq<char>| (c != channel_id@ || u != user_id@) ==> #[trigger] final(self).last_read_of(c, u) == old(self).last_read_of(c, u),
            forall|m: Seq<char>| #[trigger] final(self).receipts_of(m) == old(self).receipts_of(m),
    {
        let now = now_millis();
        self.mark_channel_read_at(channel_id, user_id, now);
    }

    /// When `user_id` last read `channel_id`, if ever.
    pub fn last_read_time(&self, channel_id: &str, user_id: &str) -> (r: Option<i64>)
        requires
            self.wf(),
        ensures
            r == self.last_read_of(channel_id@, user_id@),
    {
        match find_key(&self.last_read, channel_id) {
            Some(i) => {
                proof {
                    lemma_entry_at(self.last_read@, channel_id@, i as int);
                }
                match find_key(&self.last_read[i].1, user_id) {
                    Some(j) => {
                        proof {
                            lemma_entry_at(self.last_read@[i as int].1@, user_id@, j as int);
                        }
                        Some(self.last_read[i].1[j].1)
                    },
                    None => {
                        proof {
                            lemma_entry_none(self.last_read@[i as int].1@, user_id@);
                        }
                        None
                    },
                }
            },
            None => {
                proof {
                    lemma_entry_none(self.last_read@, channel_id@);
                }
                None
            },
        }
    }

    /// How many of the message times `messages` of `channel_id` are later
    /// than `user_id`'s last read; all of them when the user never read it.
    pub fn unread_count(&self, channel_id: &str, user_id: &str, messages: &Vec<i64>) -> (n: usize)
        requires
            self.wf(),
        ensures
            n == match self.last_read_of(channel_id@, user_id@) {
                Some(t) => count_after(messages@, t),
                None => messages@.len(),
            },
    {
        match self.last_read_time(channel_id, user_id) {
            Some(t) => {
                let mut n: usize = 0;
                let mut i: usize = 0;
                while i < messages.len()
                    invariant
                        i <= messages@.len(),
                        n == count_after(messages@.take(i as int), t),
                        n <= i,
                    decreases messages.len() - i,
                {
                    proof {
                        assert(messages@.take(i + 1).drop_last() =~= messages@.take(i as int));
                        assert(messages@.take(i + 1).last() == messages@[i as int]);
                    }
                    if messages[i] > t {
                        n = n + 1;
                    }
                    i = i + 1;
                }
                assert(messages@.take(messages@.len() as int) =~= messages@);
                n
            },
            None => messages.len(),
        }
    }
}

impl Default for ReadReceiptTracker {
    fn default() -> (t: Self)
        ensures
            t.wf(),
    {
        ReadReceiptTracker::new()
    }
}

/// Whether some receipt of `rs` is by `reader`.
fn has_reader(rs: &Vec<ReadReceipt>, reader: &str) -> (b: bool)
    ensures
        b == read_by(rs@, reader@),
{
    let mut i: usize = 0;
    while i < rs.len()
        invariant
            i <= rs@.len(),
            forall|k: int| 0 <= k < i ==> (#[trigger] rs@[k]).reader_id@ != reader@,
        decreases rs.len() - i,
    {
        if str_equal(rs[i].reader_id.as_str(), reader) {
            return true;
        }
        i = i + 1;
    }
    false
}

/// Sets `user`'s time to `now`, adding it when missing.
fn set_time(users: &mut Vec<(String, i64)>, user: &str, now: i64)
    requires
        unique_keys(old(users)@),
    ensures
        unique_keys(final(users)@),
        entry_for(final(users)@, user@) == Some(now),
        forall|u: Seq<char>| u != user@ ==> #[trigger] entry_for(final(users)@, u) == entry_for(old(users)@, u),
{
    let ghost u0 = users@;
    match find_key(users, user) {
        Some(j) => {
            proof {
                lemma_entry_at(u0, user@, j as int);
            }
            let (k, _) = users.remove(j);
            users.insert(j, (k, now));
            proof {
                assert(users@ =~= u0.update(j as int, (u0[j as int].0, now)));
                lemma_entry_set(u0, j as int, now);
            }
        },
        None => {
            proof {
                lemma_entry_none(u0, user@);
            }
            let key = user.to_string();
            let ghost kk = key;
            users.push((key, now));
            proof {
                lemma_entry_push(u0, kk, now);
            }
        },
    }
}

} // verus!
