//! Messages kept for offline users, delivered when they reconnect. Each
//! user's queue holds at most a fixed number of messages: the oldest are
//! dropped first.
use vstd::prelude::*;
use crate::messaging_types::{same_message, Message};
use crate::text::str_equal;

verus! {

/// The last `n` elements of `s` (all of `s` when it is shorter).
pub open spec fn keep_last<T>(s: Seq<T>, n: nat) -> Seq<T> {
    if s.len() <= n {
        s
    } else {
        s.subrange(s.len() - n, s.len() as int)
    }
}

/// A queue never holds more than the limit after an enqueue, and what it
/// holds are the newest messages, in arrival order.
pub proof fn lemma_keep_last_bounded<T>(s: Seq<T>, n: nat)
    ensures
        keep_last(s, n).len() <= n || keep_last(s, n) == s,
        keep_last(s, n).len() == (if s.len() <= n { s.len() } else { n }),
        keep_last(s, n) == s.subrange(s.len() - keep_last(s, n).len(), s.len() as int),
{
    if s.len() <= n {
        assert(s.subrange(0, s.len() as int) =~= s);
    }
}

/// Sum of the queue lengths.
pub open spec fn total_len(qs: Seq<(String, Vec<Message>)>) -> nat
    decreases qs.len(),
{
    if qs.len() == 0 {
        0
    } else {
        total_len(qs.drop_last()) + qs.last().1@.len()
    }
}

proof fn lemma_total_prefix(qs: Seq<(String, Vec<Message>)>, k: int)
    requires
        0 <= k <= qs.len(),
    ensures
        total_len(qs.take(k)) <= total_len(qs),
    decreases qs.len(),
{
    if k < qs.len() {
        assert(qs.drop_last().take(k) =~= qs.take(k));
        lemma_total_prefix(qs.drop_last(), k);
    } else {
        assert(qs.take(k) =~= qs);
    }
}

/// Number of non-empty queues.
pub open spec fn nonempty_count(qs: Seq<(String, Vec<Message>)>) -> nat
    decreases qs.len(),
{
    if qs.len() == 0 {
        0
    } else {
        nonempty_count(qs.drop_last()) + if qs.last().1@.len() > 0 { 1nat } else { 0nat }
    }
}

/// Queues of messages for offline users.
pub struct OfflineQueue {
    queues: Vec<(String, Vec<Message>)>,
    max_per_user: usize,
}

impl OfflineQueue {
    /// No user has two queues.
    pub closed spec fn wf(self) -> bool {
        forall|i: int, j: int|
            0 <= i < self.queues@.len() && 0 <= j < self.queues@.len() && i != j ==> self.queues@[i].0@
                != self.queues@[j].0@
    }

    /// Most messages kept per user.
    pub closed spec fn limit(self) -> nat {
        self.max_per_user as nat
    }

    /// The messages queued for `user`, oldest first.
    pub closed spec fn queue_of(self, user: Seq<char>) -> Seq<Message> {
        if exists|i: int| 0 <= i < self.queues@.len() && self.queues@[i].0@ == user {
            self.queues@[choose|i: int| 0 <= i < self.queues@.len() && self.queues@[i].0@ == user].1@
        } else {
            Seq::empty()
        }
    }

    /// Number of queued messages over all users.
    pub closed spec fn total(self) -> nat {
        total_len(self.queues@)
    }

    /// Number of users with queued messages.
    pub closed spec fn users(self) -> nat {
        nonempty_count(self.queues@)
    }

    proof fn lemma_queue_at(self, i: int)
        requires
            self.wf(),
            0 <= i < self.queues@.len(),
        ensures
            self.queue_of(self.queues@[i].0@) == self.queues@[i].1@,
    {
        let user = self.queues@[i].0@;
        let j = choose|j: int| 0 <= j < self.queues@.len() && self.queues@[j].0@ == user;
        assert(j == i);
    }

    /// Empty queues keeping at most `max_per_user` messages per user.
    pub fn new(max_per_user: usize) -> (q: Self)
        ensures
            q.wf(),
            q.limit() == max_per_user,
            forall|u: Seq<char>| q.queue_of(u).len() == 0,
            q.total() == 0,
            q.users() == 0,
    {
        OfflineQueue { queues: Vec::new(), max_per_user }
    }

    fn find(&self, user: &str) -> (r: Option<usize>)
        requires
            self.wf(),
        ensures
            r is None ==> forall|i: int| 0 <= i < self.queues@.len() ==> self.queues@[i].0@ != user@,
            r is None ==> self.queue_of(user@) == Seq::<Message>::empty(),
            r matches Some(i) ==> i < self.queues@.len() && self.queues@[i as int].0@ == user@
                && self.queue_of(user@) == self.queues@[i as int].1@,
    {
        let mut i: usize = 0;
        while i < self.queues.len()
            invariant
                self.wf(),
                i <= self.queues@.len(),
                forall|k: int| 0 <= k < i ==> self.queues@[k].0@ != user@,
            decreases self.queues.len() - i,
        {
            if str_equal(self.queues[i].0.as_str(), user) {
                proof {
                    self.lemma_queue_at(i as int);
                }
                return Some(i);
            }
            i = i + 1;
        }
        None
    }

    proof fn lemma_update_at(self, other: Self, i: int, v: Vec<Message>)
        requires
            self.wf(),
            0 <= i < self.queues@.len(),
            other.queues@ == self.queues@.update(i, (self.queues@[i].0, v)),
        ensures
            other.wf(),
            other.queue_of(self.queues@[i].0@) == v@,
            forall|u: Seq<char>| u != self.queues@[i].0@ ==> other.queue_of(u) == self.queue_of(u),
    {
        let name = self.queues@[i].0@;
        assert(other.queues@[i].0@ == name);
        other.lemma_queue_at(i);
        assert forall|u: Seq<char>| u != name implies other.queue_of(u) == self.queue_of(u) by {
            if exists|k: int| 0 <= k < self.queues@.len() && self.queues@[k].0@ == u {
                let k = choose|k: int| 0 <= k < self.queues@.len() && self.queues@[k].0@ == u;
                assert(k != i);
                self.lemma_queue_at(k);
                assert(other.queues@[k] == self.queues@[k]);
                other.lemma_queue_at(k);
            } else {
                assert forall|k: int| 0 <= k < other.queues@.len() implies other.queues@[k].0@ != u by {
                    if k != i {
                        assert(other.queues@[k] == self.queues@[k]);
                    }
                }
            }
        }
    }

    /// Queues `message` for `recipient`; when the queue would exceed the
    /// limit, the oldest messages are dropped.
    pub fn enqueue(&mut self, recipient: &str, message: Message)
        requires
            old(self).wf(),
        ensures
            final(self).wf(),
            final(self).limit() == old(self).limit(),
            final(self).queue_of(recipient@) == keep_last(old(self).queue_of(recipient@).push(message), old(self).limit()),
            forall|u: Seq<char>| u != recipient@ ==> final(self).queue_of(u) == old(self).queue_of(u),
    {
        let ghost before = self.queue_of(recipient@);
        let i = match self.find(recipient) {
            Some(i) => i,
            None => {
                let ghost old_self = *self;
                self.queues.push((recipient.to_string(), Vec::new()));
                proof {
                    let n = old_self.queues@.len() as int;
                    assert forall|a: int, b: int|
                        0 <= a < self.queues@.len() && 0 <= b < self.queues@.len() && a != b implies self.queues@[a].0@
                        != self.queues@[b].0@ by {
                        if a < n && b < n {
                            assert(self.queues@[a] == old_self.queues@[a]);
                            assert(self.queues@[b] == old_self.queues@[b]);
                        }
                    }
                    self.lemma_queue_at(n);
                    assert forall|u: Seq<char>| u != recipient@ implies self.queue_of(u) == old_self.queue_of(u) by {
                        if exists|k: int| 0 <= k < old_self.queues@.len() && old_self.queues@[k].0@ == u {
                            let k = choose|k: int| 0 <= k < old_self.queues@.len() && old_self.queues@[k].0@ == u;
                            old_self.lemma_queue_at(k);
                            assert(self.queues@[k] == old_self.queues@[k]);
                            self.lemma_queue_at(k);
                        } else {
                            assert forall|k: int| 0 <= k < self.queues@.len() implies self.queues@[k].0@ != u by {
                                if k < n {
                                    assert(self.queues@[k] == old_self.queues@[k]);
                                }
                            }
                        }
                    }
                }
                self.queues.len() - 1
            },
        };
        let ghost mid = *self;
        assert(mid.queue_of(recipient@) == before);
        let (name, mut q) = self.queues.remove(i);
        assert(q@ == before);
        q.push(message);
        while q.len() > self.max_per_user
            invariant
                keep_last(q@, self.max_per_user as nat) == keep_last(before.push(message), self.max_per_user as nat),
            decreases q.len(),
        {
            let ghost qb = q@;
            q.remove(0);
            assert(q@ =~= qb.drop_first());
            assert(keep_last(q@, self.max_per_user as nat) =~= keep_last(qb, self.max_per_user as nat));
        }
        assert(keep_last(q@, self.max_per_user as nat) == q@);
        let ghost qv = q;
        self.queues.insert(i, (name, q));
        proof {
            assert(self.queues@ =~= mid.queues@.update(i as int, (mid.queues@[i as int].0, qv)));
            mid.lemma_update_at(*self, i as int, qv);
        }
    }

    /// Takes all messages queued for `client_id` (on reconnect), oldest
    /// first, leaving the queue empty.
    pub fn drain(&mut self, client_id: &str) -> (r: Vec<Message>)
        requires
            old(self).wf(),
        ensures
            final(self).wf(),
            final(self).limit() == old(self).limit(),
            r@ == old(self).queue_of(client_id@),
            final(self).queue_of(client_id@).len() == 0,
            forall|u: Seq<char>| u != client_id@ ==> final(self).queue_of(u) == old(self).queue_of(u),
    {
        match self.find(client_id) {
            None => Vec::new(),
            Some(i) => {
                let ghost mid = *self;
                let (name, q) = self.queues.remove(i);
                let empty: Vec<Message> = Vec::new();
                let ghost ev = empty;
                self.queues.insert(i, (name, empty));
                proof {
                    assert(self.queues@ =~= mid.queues@.update(i as int, (mid.queues@[i as int].0, ev)));
                    mid.lemma_update_at(*self, i as int, ev);
                }
                q
            },
        }
    }

    /// The first `limit` messages queued for `client_id`, left in place.
    pub fn peek(&self, client_id: &str, limit: usize) -> (r: Vec<Message>)
        requires
            self.wf(),
        ensures
            r@.len() == (if limit < self.queue_of(client_id@).len() { limit as nat } else { self.queue_of(client_id@).len() }),
            forall|k: int| 0 <= k < r@.len() ==> same_message(#[trigger] r@[k], self.queue_of(client_id@)[k]),
    {
        match self.find(client_id) {
            None => Vec::new(),
            Some(i) => {
                let q = &self.queues[i].1;
                let mut r: Vec<Message> = Vec::new();
                let mut k: usize = 0;
                while k < q.len() && k < limit
                    invariant
                        k <= q@.len(),
                        k <= limit,
                        r@.len() == k,
                        forall|m: int| 0 <= m < k ==> same_message(#[trigger] r@[m], q@[m]),
                    decreases q.len() - k,
                {
                    r.push(q[k].duplicate());
                    k = k + 1;
                }
                r
            },
        }
    }

    /// Number of messages queued for `client_id`.
    pub fn queue_size(&self, client_id: &str) -> (n: usize)
        requires
            self.wf(),
        ensures
            n == self.queue_of(client_id@).len(),
    {
        match self.find(client_id) {
            None => 0,
            Some(i) => self.queues[i].1.len(),
        }
    }

    /// Whether messages are queued for `client_id`.
    pub fn has_messages(&self, client_id: &str) -> (b: bool)
        requires
            self.wf(),
        ensures
            b == (self.queue_of(client_id@).len() > 0),
    {
        self.queue_size(client_id) > 0
    }

    /// Number of queued messages over all users.
    pub fn total_queued(&self) -> (n: usize)
        requires
            self.total() <= usize::MAX,
        ensures
            n == self.total(),
    {
        let mut n: usize = 0;
        let mut i: usize = 0;
        while i < self.queues.len()
            invariant
                i <= self.queues@.len(),
                total_len(self.queues@) <= usize::MAX,
                n == total_len(self.queues@.take(i as int)),
            decreases self.queues.len() - i,
        {
            proof {
                assert(self.queues@.take(i + 1).drop_last() =~= self.queues@.take(i as int));
                lemma_total_prefix(self.queues@, i + 1);
            }
            n = n + self.queues[i].1.len();
            i = i + 1;
        }
        assert(self.queues@.take(self.queues@.len() as int) =~= self.queues@);
        n
    }

    /// Number of users with queued messages.
    pub fn user_count(&self) -> (n: usize)
        ensures
            n == self.users(),
    {
        let mut n: usize = 0;
        let mut i: usize = 0;
        while i < self.queues.len()
            invariant
                i <= self.queues@.len(),
                n == nonempty_count(self.queues@.take(i as int)),
                n <= i,
            decreases self.queues.len() - i,
        {
            proof {
                assert(self.queues@.take(i + 1).drop_last() =~= self.queues@.take(i as int));
            }
            if self.queues[i].1.len() > 0 {
                n = n + 1;
            }
            i = i + 1;
        }
        assert(self.queues@.take(self.queues@.len() as int) =~= self.queues@);
        n
    }
}

} // verus!
