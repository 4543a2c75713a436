//! The message store: messages indexed by the clients and channels they
//! concern, the channels themselves, and the channel rows owed to the
//! persistent backend.
use vstd::prelude::*;
use crate::channel::{id_set, position_of, same_channel, without, Channel};
use crate::keyed::{distinct_idents, entry_for, find_in, find_key, lemma_entry_at, lemma_entry_none, lemma_entry_push, lemma_entry_remove, lemma_entry_set, lemma_position_at, lemma_push_new, lemma_remove_at, lemma_update_same_ident, position_in, unique_keys, upsert, Identified};
use crate::lifecycle::HostError;
use crate::messaging_types::{ChannelType, now_millis, random_uuid_simple, same_message, Message, MessageReaction, MessageStatus, MessageType};
use crate::text::{chars_contain, chars_of, contains_seq, lowercase, push_str, str_equal, unicode_lowercase};

verus! {

/// A write owed to the persistent backend, in the order the store made
/// the change.
#[derive(Debug, Clone, PartialEq, Eq)]
pub enum PersistOp {
    /// Write the channel's current row (or delete the row if the channel
    /// is gone by the time the write is made).
    Save(String),
    /// Delete the channel's row.
    Delete(String),
}

impl View for PersistOp {
    /// `(true, id)` for a write of channel `id`, `(false, id)` for a
    /// deletion.
    type V = (bool, Seq<char>);

    open spec fn view(&self) -> (bool, Seq<char>) {
        match self {
            PersistOp::Save(id) => (true, id@),
            PersistOp::Delete(id) => (false, id@),
        }
    }
}

/// The writes owed after a change to channel `id`: one more while
/// persistence is on, none otherwise.
pub open spec fn queued(pending: Seq<(bool, Seq<char>)>, persisting: bool, op: (bool, Seq<char>)) -> Seq<(bool, Seq<char>)> {
    if persisting { pending.push(op) } else { pending }
}

impl Identified for Message {
    open spec fn ident(&self) -> Seq<char> {
        self.id@
    }
}

impl Identified for Channel {
    open spec fn ident(&self) -> Seq<char> {
        self.id@
    }
}

/// The ids held by an index entry (none when there is no entry).
pub open spec fn log_of(e: Option<Vec<String>>) -> Seq<Seq<char>> {
    match e {
        Some(v) => v@.map_values(|s: String| s@),
        None => Seq::empty(),
    }
}

/// Appends `id` to the entry of `key`, creating the entry when missing.
fn log_push(index: &mut Vec<(String, Vec<String>)>, key: String, id: String)
    requires
        unique_keys(old(index)@),
    ensures
        unique_keys(final(index)@),
        log_of(entry_for(final(index)@, key@)) == log_of(entry_for(old(index)@, key@)).push(id@),
        forall|u: Seq<char>| u != key@ ==> #[trigger] entry_for(final(index)@, u) == entry_for(old(index)@, u),
{
    let ghost before = index@;
    match find_key(index, key.as_str()) {
        Some(i) => {
            proof {
                lemma_entry_at(before, key@, i as int);
            }
            let (k, mut ids) = index.remove(i);
            let ghost old_ids = ids@;
            ids.push(id);
            let ghost new_ids = ids;
            index.insert(i, (k, ids));
            proof {
                assert(index@ =~= before.update(i as int, (before[i as int].0, new_ids)));
                lemma_entry_set(before, i as int, new_ids);
                assert(new_ids@.map_values(|s: String| s@) =~= old_ids.map_values(|s: String| s@).push(id@));
            }
        },
        None => {
            proof {
                lemma_entry_none(before, key@);
            }
            let ghost k = key;
            let ids = vec![id];
            let ghost g = ids;
            index.push((key, ids));
            proof {
                lemma_entry_push(before, k, g);
                assert(g@.map_values(|s: String| s@) =~= Seq::<Seq<char>>::empty().push(id@));
            }
        },
    }
}

/// `e` is an error of the messaging plugin with the message `msg`.
pub open spec fn messaging_error(e: HostError, msg: Seq<char>) -> bool {
    match e {
        HostError::Plugin { plugin_id, message } => plugin_id@ == "io.draox.messaging"@ && message@ == msg,
        _ => false,
    }
}

/// An error of the messaging plugin: `what` followed by `id`.
fn messaging_err(what: &str, id: &str) -> (e: HostError)
    ensures
        messaging_error(e, what@ + id@),
{
    let mut message = String::new();
    push_str(&mut message, what);
    push_str(&mut message, id);
    HostError::Plugin { plugin_id: "io.draox.messaging".to_string(), message }
}

/// In-memory message store: messages, their index by client and by
/// channel, and the channels.
pub struct MessageStore {
    messages: Vec<Message>,
    client_messages: Vec<(String, Vec<String>)>,
    channel_messages: Vec<(String, Vec<String>)>,
    channels: Vec<Channel>,
    message_count: u64,
    max_messages: usize,
    persisting: bool,
    pending: Vec<PersistOp>,
}

/// The sender's log and, for a direct message, the recipient's log gain
/// the message id.
pub open spec fn client_log_after(log: Seq<Seq<char>>, client: Seq<char>, m: Message) -> Seq<Seq<char>> {
    let sent = if client == m.from@ { log.push(m.id@) } else { log };
    if m.message_type == MessageType::Direct && client == m.to@ { sent.push(m.id@) } else { sent }
}

/// A channel message's channel log gains the message id.
pub open spec fn channel_log_after(log: Seq<Seq<char>>, channel: Seq<char>, m: Message) -> Seq<Seq<char>> {
    if m.message_type == MessageType::Channel && channel == m.to@ { log.push(m.id@) } else { log }
}

/// The newest `limit` ids of `log`, newest first.
pub open spec fn newest(log: Seq<Seq<char>>, limit: nat) -> Seq<Seq<char>> {
    let n = if limit < log.len() { limit } else { log.len() };
    Seq::new(n, |k: int| log[log.len() - 1 - k])
}

/// The messages of `s` with the ids `ids`, in the order of `ids`; ids of
/// no stored message are skipped.
pub open spec fn resolve(s: Seq<Message>, ids: Seq<Seq<char>>) -> Seq<Message>
    decreases ids.len(),
{
    if ids.len() == 0 {
        Seq::empty()
    } else {
        let r = resolve(s, ids.drop_last());
        match find_in(s, ids.last()) {
            Some(m) => r.push(m),
            None => r,
        }
    }
}

/// `r` holds a copy of each message of `s`, in order.
pub open spec fn copies_of(r: Seq<Message>, s: Seq<Message>) -> bool {
    r.len() == s.len() && forall|k: int| 0 <= k < r.len() ==> same_message(#[trigger] r[k], s[k])
}

/// The first `limit` values of `s`.
pub open spec fn first_n<T>(s: Seq<T>, limit: nat) -> Seq<T> {
    if limit < s.len() { s.take(limit as int) } else { s }
}

/// Whether a message's content contains the query, ignoring case.
pub open spec fn content_matches(m: Message, query: Seq<char>) -> bool {
    contains_seq(unicode_lowercase(m.content@), unicode_lowercase(query))
}

/// The messages of `s` whose content contains the query, ignoring case.
pub open spec fn matching(s: Seq<Message>, query: Seq<char>) -> Seq<Message>
    decreases s.len(),
{
    if s.len() == 0 {
        s
    } else {
        let r = matching(s.drop_last(), query);
        if content_matches(s.last(), query) { r.push(s.last()) } else { r }
    }
}

/// Whether `m` replies to the message `parent`.
pub open spec fn is_reply_to(m: Message, parent: Seq<char>) -> bool {
    m.reply_to matches Some(p) && p@ == parent
}

/// The messages of `s` that reply to `parent`.
pub open spec fn replies(s: Seq<Message>, parent: Seq<char>) -> Seq<Message>
    decreases s.len(),
{
    if s.len() == 0 {
        s
    } else {
        let r = replies(s.drop_last(), parent);
        if is_reply_to(s.last(), parent) { r.push(s.last()) } else { r }
    }
}

proof fn lemma_first_n_push<T>(r: Seq<T>, x: T, limit: nat)
    ensures
        first_n(r.push(x), limit) == if r.len() < limit { first_n(r, limit).push(x) } else { first_n(r, limit) },
{
    if r.len() < limit {
        assert(first_n(r, limit) == r);
    } else {
        assert(r.push(x).take(limit as int) =~= r.take(limit as int));
        if limit == r.len() {
            assert(r.take(limit as int) =~= r);
        }
    }
}

/// A reaction seen as its emoji and the ids of the users who reacted.
pub open spec fn reaction_view(r: MessageReaction) -> (Seq<char>, Seq<Seq<char>>) {
    (r.emoji@, r.users@.map_values(|u: String| u@))
}

/// The reactions of a message, seen through `reaction_view`.
pub open spec fn reactions_view(rs: Seq<MessageReaction>) -> Seq<(Seq<char>, Seq<Seq<char>>)> {
    rs.map_values(|r: MessageReaction| reaction_view(r))
}

/// Position of the first reaction with `emoji`, if any.
pub open spec fn first_emoji(rs: Seq<(Seq<char>, Seq<Seq<char>>)>, emoji: Seq<char>) -> Option<int> {
    if exists|k: int| 0 <= k < rs.len() && (#[trigger] rs[k]).0 == emoji {
        Some(choose|k: int| 0 <= k < rs.len() && (#[trigger] rs[k]).0 == emoji && forall|m: int| 0 <= m < k ==> (#[trigger] rs[m]).0 != emoji)
    } else {
        None
    }
}

proof fn lemma_first_emoji_at(rs: Seq<(Seq<char>, Seq<Seq<char>>)>, emoji: Seq<char>, i: int)
    requires
        0 <= i < rs.len(),
        rs[i].0 == emoji,
        forall|m: int| 0 <= m < i ==> (#[trigger] rs[m]).0 != emoji,
    ensures
        first_emoji(rs, emoji) == Some(i),
{
    let j = choose|k: int| 0 <= k < rs.len() && (#[trigger] rs[k]).0 == emoji && forall|m: int| 0 <= m < k ==> (#[trigger] rs[m]).0 != emoji;
    if j < i {
        assert(rs[j].0 != emoji);
    } else if j > i {
        assert(rs[i].0 != emoji);
    }
}

/// The reactions after `user` reacts with `emoji`: the user joins the
/// first reaction with that emoji (once), or a new reaction is added.
pub open spec fn with_reaction(rs: Seq<(Seq<char>, Seq<Seq<char>>)>, emoji: Seq<char>, user: Seq<char>) -> Seq<(Seq<char>, Seq<Seq<char>>)> {
    match first_emoji(rs, emoji) {
        Some(j) => if rs[j].1.contains(user) { rs } else { rs.update(j, (emoji, rs[j].1.push(user))) },
        None => rs.push((emoji, seq![user])),
    }
}

/// The reactions after `user` withdraws `emoji`: the user leaves the first
/// reaction with that emoji (which stays, possibly with no user).
pub open spec fn without_reaction(rs: Seq<(Seq<char>, Seq<Seq<char>>)>, emoji: Seq<char>, user: Seq<char>) -> Seq<(Seq<char>, Seq<Seq<char>>)> {
    match first_emoji(rs, emoji) {
        Some(j) => rs.update(j, (emoji, without(rs[j].1, user))),
        None => rs,
    }
}

/// `first_emoji` finds the first reaction with the emoji, and `None`
/// means there is none.
pub proof fn lemma_first_emoji(rs: Seq<(Seq<char>, Seq<Seq<char>>)>, emoji: Seq<char>)
    ensures
        match first_emoji(rs, emoji) {
            Some(j) => 0 <= j < rs.len() && rs[j].0 == emoji && forall|m: int| 0 <= m < j ==> (#[trigger] rs[m]).0 != emoji,
            None => forall|m: int| 0 <= m < rs.len() ==> (#[trigger] rs[m]).0 != emoji,
        },
    decreases rs.len(),
{
    if rs.len() > 0 {
        let init = rs.drop_last();
        lemma_first_emoji(init, emoji);
        assert forall|m: int| 0 <= m < init.len() implies init[m] == rs[m] by {}
        match first_emoji(init, emoji) {
            Some(j) => {
                assert(rs[j] == init[j]);
                lemma_first_emoji_at(rs, emoji, j);
            },
            None => {
                if rs.last().0 == emoji {
                    lemma_first_emoji_at(rs, emoji, rs.len() - 1);
                } else {
                    assert forall|m: int| 0 <= m < rs.len() implies (#[trigger] rs[m]).0 != emoji by {
                        if m < init.len() {
                            assert(init[m] == rs[m]);
                        }
                    }
                }
            },
        }
    }
}

/// Reacting twice with the same emoji is the same as reacting once.
pub proof fn lemma_reaction_idempotent(rs: Seq<(Seq<char>, Seq<Seq<char>>)>, emoji: Seq<char>, user: Seq<char>)
    ensures
        with_reaction(with_reaction(rs, emoji, user), emoji, user) == with_reaction(rs, emoji, user),
{
    lemma_first_emoji(rs, emoji);
    let once = with_reaction(rs, emoji, user);
    match first_emoji(rs, emoji) {
        Some(j) => {
            if !rs[j].1.contains(user) {
                assert forall|m: int| 0 <= m < j implies (#[trigger] once[m]).0 != emoji by {
                    assert(once[m] == rs[m]);
                }
                lemma_first_emoji_at(once, emoji, j);
                assert(once[j].1[rs[j].1.len() as int] == user);
            }
        },
        None => {
            let n = rs.len() as int;
            assert forall|m: int| 0 <= m < n implies (#[trigger] once[m]).0 != emoji by {
                assert(once[m] == rs[m]);
            }
            lemma_first_emoji_at(once, emoji, n);
            assert(once[n].1[0] == user);
        },
    }
}

proof fn lemma_without_push(v: Seq<Seq<char>>, x: Seq<char>)
    ensures
        without(v.push(x), x) == without(v, x),
{
    assert(v.push(x).drop_last() =~= v);
}

/// Withdrawing a reaction just added leaves the reactions as withdrawing
/// it alone would; a reaction that was new stays, with no user.
pub proof fn lemma_reaction_withdrawn(rs: Seq<(Seq<char>, Seq<Seq<char>>)>, emoji: Seq<char>, user: Seq<char>)
    ensures
        without_reaction(with_reaction(rs, emoji, user), emoji, user) == match first_emoji(rs, emoji) {
            Some(j) => without_reaction(rs, emoji, user),
            None => rs.push((emoji, Seq::<Seq<char>>::empty())),
        },
{
    lemma_first_emoji(rs, emoji);
    let once = with_reaction(rs, emoji, user);
    match first_emoji(rs, emoji) {
        Some(j) => {
            if !rs[j].1.contains(user) {
                assert forall|m: int| 0 <= m < j implies (#[trigger] once[m]).0 != emoji by {
                    assert(once[m] == rs[m]);
                }
                lemma_first_emoji_at(once, emoji, j);
                lemma_without_push(rs[j].1, user);
                assert(without_reaction(once, emoji, user) =~= without_reaction(rs, emoji, user));
            }
        },
        None => {
            let n = rs.len() as int;
            assert forall|m: int| 0 <= m < n implies (#[trigger] once[m]).0 != emoji by {
                assert(once[m] == rs[m]);
            }
            lemma_first_emoji_at(once, emoji, n);
            lemma_without_push(Seq::<Seq<char>>::empty(), user);
            assert(seq![user] =~= Seq::<Seq<char>>::empty().push(user));
            assert(without(Seq::<Seq<char>>::empty(), user) =~= Seq::<Seq<char>>::empty());
            assert(without_reaction(once, emoji, user) =~= rs.push((emoji, Seq::<Seq<char>>::empty())));
        },
    }
}

/// `b` differs from `a` in its messages only.
pub open spec fn only_messages_changed(a: MessageStore, b: MessageStore) -> bool {
    &&& b.chans() == a.chans()
    &&& forall|c: Seq<char>| #[trigger] b.client_log(c) == a.client_log(c)
    &&& forall|c: Seq<char>| #[trigger] b.channel_log(c) == a.channel_log(c)
    &&& b.total() == a.total()
    &&& b.capacity() == a.capacity()
    &&& b.persisting() == a.persisting()
    &&& b.pending() == a.pending()
}

/// The strings of `v` other than `x`, in order.
pub(crate) fn strings_without(v: &Vec<String>, x: &str) -> (r: Vec<String>)
    ensures
        r@.map_values(|s: String| s@) == without(v@.map_values(|s: String| s@), x@),
{
    let ghost names = v@.map_values(|s: String| s@);
    let mut kept: Vec<String> = Vec::new();
    let mut i: usize = 0;
    while i < v.len()
        invariant
            i <= v@.len(),
            names == v@.map_values(|s: String| s@),
            kept@.map_values(|s: String| s@) == without(names.take(i as int), x@),
        decreases v.len() - i,
    {
        proof {
            assert(names.take(i + 1).drop_last() =~= names.take(i as int));
            assert(names.take(i + 1).last() == v@[i as int]@);
        }
        if !str_equal(v[i].as_str(), x) {
            let ghost kb = kept@;
            kept.push(v[i].clone());
            assert(kept@.map_values(|s: String| s@) =~= kb.map_values(|s: String| s@).push(v@[i as int]@));
        }
        i = i + 1;
    }
    assert(names.take(names.len() as int) =~= names);
    kept
}

/// `user` joins the reaction `emoji` of `rs`.
fn react(rs: &mut Vec<MessageReaction>, emoji: String, user: String)
    ensures
        reactions_view(final(rs)@) == with_reaction(reactions_view(old(rs)@), emoji@, user@),
{
    let ghost view = reactions_view(rs@);
    let mut j: usize = 0;
    while j < rs.len()
        invariant
            j <= rs@.len(),
            rs@ == old(rs)@,
            view == reactions_view(rs@),
            forall|m: int| 0 <= m < j ==> (#[trigger] view[m]).0 != emoji@,
        decreases rs.len() - j,
    {
        if str_equal(rs[j].emoji.as_str(), emoji.as_str()) {
            proof {
                lemma_first_emoji_at(view, emoji@, j as int);
            }
            let ghost before = rs@;
            let mut r = rs.remove(j);
            let ghost users0 = r.users@.map_values(|u: String| u@);
            let present = position_of(&r.users, user.as_str()).is_some();
            proof {
                if users0.contains(user@) {
                    let k = choose|k: int| 0 <= k < users0.len() && users0[k] == user@;
                    assert(r.users@[k]@ == user@);
                }
                if id_set(r.users@).contains(user@) {
                    let k = choose|k: int| 0 <= k < r.users@.len() && (#[trigger] r.users@[k])@ == user@;
                    assert(users0[k] == user@);
                }
            }
            if !present {
                let ghost ub = r.users@;
                r.users.push(user);
                assert(r.users@.map_values(|u: String| u@) =~= ub.map_values(|u: String| u@).push(user@));
            }
            let ghost rr = r;
            rs.insert(j, r);
            proof {
                assert(rs@ =~= before.update(j as int, rr));
                assert(reactions_view(rs@) =~= with_reaction(view, emoji@, user@));
            }
            return;
        }
        j = j + 1;
    }
    let ghost before = rs@;
    let users = vec![user];
    let ghost u = users;
    let ghost e = emoji;
    rs.push(MessageReaction { emoji, users });
    proof {
        assert(u@.map_values(|s: String| s@) =~= seq![user@]);
        assert(reactions_view(rs@) =~= view.push((e@, seq![user@])));
    }
}

/// `user` leaves the reaction `emoji` of `rs`.
fn unreact(rs: &mut Vec<MessageReaction>, emoji: &str, user: &str)
    ensures
        reactions_view(final(rs)@) == without_reaction(reactions_view(old(rs)@), emoji@, user@),
{
    let ghost view = reactions_view(rs@);
    let mut j: usize = 0;
    while j < rs.len()
        invariant
            j <= rs@.len(),
            rs@ == old(rs)@,
            view == reactions_view(rs@),
            forall|m: int| 0 <= m < j ==> (#[trigger] view[m]).0 != emoji@,
        decreases rs.len() - j,
    {
        if str_equal(rs[j].emoji.as_str(), emoji) {
            proof {
                lemma_first_emoji_at(view, emoji@, j as int);
            }
            let ghost before = rs@;
            let mut r = rs.remove(j);
            r.users = strings_without(&r.users, user);
            let ghost rr = r;
            rs.insert(j, r);
            proof {
                assert(rs@ =~= before.update(j as int, rr));
                assert(reactions_view(rs@) =~= without_reaction(view, emoji@, user@));
            }
            return;
        }
        j = j + 1;
    }
}

/// `c` is a channel as `Channel::new` makes it: the given id, name and
/// creator, the creator its only subscriber, public, with no description,
/// topic or pinned message, not frozen.
pub open spec fn fresh_channel(c: Channel, id: Seq<char>, name: Seq<char>, created_by: Seq<char>) -> bool {
    &&& c.wf()
    &&& c.id@ == id
    &&& c.name@ == name
    &&& c.created_by@ == created_by
    &&& id_set(c.subscribers@) == set![created_by]
    &&& c.subscribers@.len() == 1
    &&& c.channel_type == ChannelType::Public
    &&& c.description@.len() == 0
    &&& c.topic@.len() == 0
    &&& c.pinned_messages@.len() == 0
    &&& !c.frozen
}

/// `b` differs from `a` in its channels and owed writes only.
pub open spec fn only_channels_changed(a: MessageStore, b: MessageStore) -> bool {
    &&& b.msgs() == a.msgs()
    &&& forall|c: Seq<char>| #[trigger] b.client_log(c) == a.client_log(c)
    &&& forall|c: Seq<char>| #[trigger] b.channel_log(c) == a.channel_log(c)
    &&& b.total() == a.total()
    &&& b.capacity() == a.capacity()
    &&& b.persisting() == a.persisting()
}

proof fn lemma_channel_replaced(s: Seq<Channel>, i: int, c: Channel)
    requires
        distinct_idents(s),
        0 <= i < s.len(),
        c.id@ == s[i].id@,
        c.wf(),
        forall|k: int| 0 <= k < s.len() ==> (#[trigger] s[k]).wf(),
    ensures
        distinct_idents(s.update(i, c)),
        forall|k: int| 0 <= k < s.len() ==> (#[trigger] s.update(i, c)[k]).wf(),
{
    lemma_update_same_ident(s, i, c);
}

impl MessageStore {
    /// The stored messages, in the order they were first stored.
    pub closed spec fn msgs(self) -> Seq<Message> {
        self.messages@
    }

    /// The channels, in the order they were created.
    pub closed spec fn chans(self) -> Seq<Channel> {
        self.channels@
    }

    /// Ids of the messages sent or received by `client`, oldest first.
    pub closed spec fn client_log(self, client: Seq<char>) -> Seq<Seq<char>> {
        log_of(entry_for(self.client_messages@, client))
    }

    /// Ids of the messages posted to `channel`, oldest first.
    pub closed spec fn channel_log(self, channel: Seq<char>) -> Seq<Seq<char>> {
        log_of(entry_for(self.channel_messages@, channel))
    }

    /// Number of messages stored so far (wrapping at `u64::MAX`).
    pub closed spec fn total(self) -> u64 {
        self.message_count
    }

    /// How many messages the store is meant to retain.
    pub closed spec fn capacity(self) -> usize {
        self.max_messages
    }

    /// Whether channel changes are queued for the persistent backend.
    pub closed spec fn persisting(self) -> bool {
        self.persisting
    }

    /// The writes owed to the backend, oldest first.
    pub closed spec fn pending(self) -> Seq<(bool, Seq<char>)> {
        self.pending@.map_values(|op: PersistOp| op@)
    }

    /// The store's invariant: message ids and channel ids are distinct,
    /// each index has one entry per key, and every channel meets its own
    /// invariant.
    pub closed spec fn wf(self) -> bool {
        &&& distinct_idents(self.messages@)
        &&& distinct_idents(self.channels@)
        &&& unique_keys(self.client_messages@)
        &&& unique_keys(self.channel_messages@)
        &&& forall|k: int| 0 <= k < self.channels@.len() ==> (#[trigger] self.channels@[k]).wf()
    }

    /// The message with id `id`, if any.
    pub open spec fn message(self, id: Seq<char>) -> Option<Message> {
        find_in(self.msgs(), id)
    }

    /// The channel with id `id`, if any.
    pub open spec fn channel(self, id: Seq<char>) -> Option<Channel> {
        find_in(self.chans(), id)
    }

    /// A well-formed store has distinct message ids and distinct channel
    /// ids, and each of its channels is well formed.
    pub proof fn lemma_wf(self)
        requires
            self.wf(),
        ensures
            distinct_idents(self.msgs()),
            distinct_idents(self.chans()),
            forall|k: int| 0 <= k < self.chans().len() ==> (#[trigger] self.chans()[k]).wf(),
    {
    }

    /// An empty store meant to retain `max_messages` messages.
    pub fn new(max_messages: usize) -> (s: Self)
        ensures
            s.wf(),
            s.msgs().len() == 0,
            s.chans().len() == 0,
            forall|c: Seq<char>| #[trigger] s.client_log(c) == Seq::<Seq<char>>::empty(),
            forall|c: Seq<char>| #[trigger] s.channel_log(c) == Seq::<Seq<char>>::empty(),
            s.total() == 0,
            s.capacity() == max_messages,
            !s.persisting(),
            s.pending().len() == 0,
    {
        MessageStore {
            messages: Vec::new(),
            client_messages: Vec::new(),
            channel_messages: Vec::new(),
            channels: Vec::new(),
            message_count: 0,
            max_messages,
            persisting: false,
            pending: Vec::new(),
        }
    }

    /// From now on, queue every channel change for the persistent backend.
    pub fn attach_storage(&mut self)
        requires
            old(self).wf(),
        ensures
            final(self).wf(),
            final(self).persisting(),
            final(self).msgs() == old(self).msgs(),
            final(self).chans() == old(self).chans(),
            forall|c: Seq<char>| #[trigger] final(self).client_log(c) == old(self).client_log(c),
            forall|c: Seq<char>| #[trigger] final(self).channel_log(c) == old(self).channel_log(c),
            final(self).total() == old(self).total(),
            final(self).capacity() == old(self).capacity(),
            final(self).pending() == old(self).pending(),
    {
        self.persisting = true;
    }

    /// Hands over the queued writes, oldest first, and empties the queue.
    pub fn take_persist_ops(&mut self) -> (ops: Vec<PersistOp>)
        requires
            old(self).wf(),
        ensures
            final(self).wf(),
            ops@.map_values(|op: PersistOp| op@) == old(self).pending(),
            final(self).pending().len() == 0,
            final(self).persisting() == old(self).persisting(),
            final(self).msgs() == old(self).msgs(),
            final(self).chans() == old(self).chans(),
            forall|c: Seq<char>| #[trigger] final(self).client_log(c) == old(self).client_log(c),
            forall|c: Seq<char>| #[trigger] final(self).channel_log(c) == old(self).channel_log(c),
            final(self).total() == old(self).total(),
            final(self).capacity() == old(self).capacity(),
    {
        let mut ops: Vec<PersistOp> = Vec::new();
        std::mem::swap(&mut ops, &mut self.pending);
        ops
    }

    /// Maximum messages to retain.
    pub fn max_messages(&self) -> (n: usize)
        ensures
            n == self.capacity(),
    {
        self.max_messages
    }

    /// Total stored messages.
    pub fn message_count(&self) -> (n: u64)
        ensures
            n == self.total(),
    {
        self.message_count
    }

    /// Total channels.
    pub fn channel_count(&self) -> (n: usize)
        ensures
            n == self.chans().len(),
    {
        self.channels.len()
    }

    /// Stores a message, in place of one with the same id if there is
    /// one, and indexes it under its sender, and under its recipient (a
    /// direct message) or its channel (a channel message).
    pub fn store_message(&mut self, message: Message) -> (id: String)
        requires
            old(self).wf(),
        ensures
            final(self).wf(),
            id == message.id,
            final(self).msgs() == upsert(old(self).msgs(), message),
            final(self).message(id@) == Some(message),
            forall|u: Seq<char>| u != id@ ==> #[trigger] final(self).message(u) == old(self).message(u),
            forall|c: Seq<char>| #[trigger] final(self).client_log(c) == client_log_after(old(self).client_log(c), c, message),
            forall|c: Seq<char>| #[trigger] final(self).channel_log(c) == channel_log_after(old(self).channel_log(c), c, message),
            final(self).chans() == old(self).chans(),
            final(self).total() == if old(self).total() == u64::MAX { 0 } else { (old(self).total() + 1) as u64 },
            final(self).capacity() == old(self).capacity(),
            final(self).persisting() == old(self).persisting(),
            final(self).pending() == old(self).pending(),
    {
        let ghost m = message;
        let id = message.id.clone();
        let from = message.from.clone();
        let to = message.to.clone();
        let message_type = message.message_type;
        let ghost before = *self;
        match self.find_message(id.as_str()) {
            Some(i) => {
                self.messages.set(i, message);
                proof {
                    lemma_update_same_ident(before.messages@, i as int, m);
                }
            },
            None => {
                self.messages.push(message);
                proof {
                    lemma_push_new(before.messages@, m);
                }
            },
        }
        let ghost c0 = self.client_messages@;
        log_push(&mut self.client_messages, from, id.clone());
        let ghost c1 = self.client_messages@;
        match message_type {
            MessageType::Direct => {
                log_push(&mut self.client_messages, to, id.clone());
            },
            MessageType::Channel => {
                log_push(&mut self.channel_messages, to, id.clone());
            },
            _ => {},
        }
        proof {
            assert forall|c: Seq<char>| #[trigger] self.client_log(c) == client_log_after(before.client_log(c), c, m) by {
                if c != m.from@ {
                    assert(entry_for(c1, c) == entry_for(c0, c));
                }
            }
            assert forall|c: Seq<char>| #[trigger] self.channel_log(c) == channel_log_after(before.channel_log(c), c, m) by {
            }
        }
        self.message_count = self.message_count.wrapping_add(1);
        id
    }

    /// A copy of the message with id `id`, if there is one.
    pub fn get_message(&self, id: &str) -> (r: Option<Message>)
        requires
            self.wf(),
        ensures
            r is Some <==> self.message(id@) is Some,
            r matches Some(m) ==> same_message(m, self.message(id@)->Some_0),
    {
        match self.find_message(id) {
            Some(i) => Some(self.messages[i].duplicate()),
            None => None,
        }
    }

    /// Copies of the messages with the newest `limit` ids of `ids`, newest
    /// first.
    fn collect_recent(&self, ids: &Vec<String>, limit: usize) -> (r: Vec<Message>)
        requires
            self.wf(),
        ensures
            copies_of(r@, resolve(self.msgs(), newest(ids@.map_values(|s: String| s@), limit as nat))),
    {
        let ghost log = ids@.map_values(|s: String| s@);
        let ghost recent = newest(log, limit as nat);
        let n = if limit < ids.len() { limit } else { ids.len() };
        let mut out: Vec<Message> = Vec::new();
        let mut j: usize = 0;
        while j < n
            invariant
                self.wf(),
                n <= ids@.len(),
                n == recent.len(),
                log == ids@.map_values(|s: String| s@),
                recent == newest(log, limit as nat),
                j <= n,
                copies_of(out@, resolve(self.msgs(), recent.take(j as int))),
            decreases n - j,
        {
            let id = &ids[ids.len() - 1 - j];
            proof {
                assert(recent.take(j + 1).drop_last() =~= recent.take(j as int));
                assert(recent.take(j + 1).last() == id@);
            }
            match self.find_message(id.as_str()) {
                Some(i) => {
                    proof {
                        lemma_position_at(self.messages@, i as int);
                    }
                    out.push(self.messages[i].duplicate());
                },
                None => {},
            }
            j = j + 1;
        }
        assert(recent.take(n as int) =~= recent);
        out
    }

    /// Copies of the newest `limit` messages sent or received by
    /// `client_id`, newest first.
    pub fn get_client_messages(&self, client_id: &str, limit: usize) -> (r: Vec<Message>)
        requires
            self.wf(),
        ensures
            copies_of(r@, resolve(self.msgs(), newest(self.client_log(client_id@), limit as nat))),
    {
        match find_key(&self.client_messages, client_id) {
            Some(e) => {
                proof {
                    lemma_entry_at(self.client_messages@, client_id@, e as int);
                }
                self.collect_recent(&self.client_messages[e].1, limit)
            },
            None => {
                proof {
                    lemma_entry_none(self.client_messages@, client_id@);
                    assert(newest(self.client_log(client_id@), limit as nat) =~= Seq::<Seq<char>>::empty());
                }
                Vec::new()
            },
        }
    }

    /// Copies of the newest `limit` messages of channel `channel_id`,
    /// newest first.
    pub fn get_channel_messages(&self, channel_id: &str, limit: usize) -> (r: Vec<Message>)
        requires
            self.wf(),
        ensures
            copies_of(r@, resolve(self.msgs(), newest(self.channel_log(channel_id@), limit as nat))),
    {
        match find_key(&self.channel_messages, channel_id) {
            Some(e) => {
                proof {
                    lemma_entry_at(self.channel_messages@, channel_id@, e as int);
                }
                self.collect_recent(&self.channel_messages[e].1, limit)
            },
            None => {
                proof {
                    lemma_entry_none(self.channel_messages@, channel_id@);
                    assert(newest(self.channel_log(channel_id@), limit as nat) =~= Seq::<Seq<char>>::empty());
                }
                Vec::new()
            },
        }
    }

    /// Copies of the first `limit` messages whose content contains
    /// `query`, ignoring case, in store order.
    pub fn search_messages(&self, query: &str, limit: usize) -> (r: Vec<Message>)
        requires
            self.wf(),
        ensures
            copies_of(r@, first_n(matching(self.msgs(), query@), limit as nat)),
    {
        let q_lower = lowercase(query);
        let q = chars_of(q_lower.as_str());
        let mut out: Vec<Message> = Vec::new();
        let mut i: usize = 0;
        while i < self.messages.len()
            invariant
                i <= self.messages@.len(),
                q@ == unicode_lowercase(query@),
                copies_of(out@, first_n(matching(self.messages@.take(i as int), query@), limit as nat)),
            decreases self.messages.len() - i,
        {
            let ghost before = matching(self.messages@.take(i as int), query@);
            proof {
                assert(self.messages@.take(i + 1).drop_last() =~= self.messages@.take(i as int));
                assert(self.messages@.take(i + 1).last() == self.messages@[i as int]);
            }
            let content = lowercase(self.messages[i].content.as_str());
            let c = chars_of(content.as_str());
            if chars_contain(&c, &q) {
                proof {
                    lemma_first_n_push(before, self.messages@[i as int], limit as nat);
                }
                if out.len() < limit {
                    out.push(self.messages[i].duplicate());
                }
            }
            i = i + 1;
        }
        assert(self.messages@.take(self.messages@.len() as int) =~= self.messages@);
        out
    }

    /// Copies of the first `limit` messages that reply to `parent_id`, in
    /// store order.
    pub fn get_thread(&self, parent_id: &str, limit: usize) -> (r: Vec<Message>)
        requires
            self.wf(),
        ensures
            copies_of(r@, first_n(replies(self.msgs(), parent_id@), limit as nat)),
    {
        let mut out: Vec<Message> = Vec::new();
        let mut i: usize = 0;
        while i < self.messages.len()
            invariant
                i <= self.messages@.len(),
                copies_of(out@, first_n(replies(self.messages@.take(i as int), parent_id@), limit as nat)),
            decreases self.messages.len() - i,
        {
            let ghost before = replies(self.messages@.take(i as int), parent_id@);
            proof {
                assert(self.messages@.take(i + 1).drop_last() =~= self.messages@.take(i as int));
                assert(self.messages@.take(i + 1).last() == self.messages@[i as int]);
            }
            let hit = match &self.messages[i].reply_to {
                Some(p) => str_equal(p.as_str(), parent_id),
                None => false,
            };
            if hit {
                proof {
                    lemma_first_n_push(before, self.messages@[i as int], limit as nat);
                }
                if out.len() < limit {
                    out.push(self.messages[i].duplicate());
                }
            }
            i = i + 1;
        }
        assert(self.messages@.take(self.messages@.len() as int) =~= self.messages@);
        out
    }

    /// Sets the delivery status of a message; fails when there is no
    /// message with that id.
    pub fn update_status(&mut self, message_id: &str, status: MessageStatus) -> (r: Result<(), HostError>)
        requires
            old(self).wf(),
        ensures
            final(self).wf(),
            r is Err <==> old(self).message(message_id@) is None,
            r matches Err(e) ==> messaging_error(e, "message not found: "@ + message_id@) && *final(self) == *old(self),
            r is Ok ==> ({
                let k = position_in(old(self).msgs(), message_id@)->Some_0;
                &&& final(self).msgs() == old(self).msgs().update(k, Message { status, ..old(self).msgs()[k] })
                &&& only_messages_changed(*old(self), *final(self))
            }),
    {
        match self.find_message(message_id) {
            None => Err(messaging_err("message not found: ", message_id)),
            Some(i) => {
                let ghost before = *self;
                let mut m = self.messages.remove(i);
                m.status = status;
                let ghost mm = m;
                self.messages.insert(i, m);
                proof {
                    assert(self.messages@ =~= before.messages@.update(i as int, mm));
                    lemma_update_same_ident(before.messages@, i as int, mm);
                }
                Ok(())
            },
        }
    }

    /// `user_id` reacts to a message with `emoji` (at most once per emoji);
    /// fails when there is no message with that id.
    pub fn add_reaction(&mut self, message_id: &str, emoji: String, user_id: String) -> (r: Result<(), HostError>)
        requires
            old(self).wf(),
        ensures
            final(self).wf(),
            r is Err <==> old(self).message(message_id@) is None,
            r matches Err(e) ==> messaging_error(e, "message not found: "@ + message_id@) && *final(self) == *old(self),
            r is Ok ==> ({
                let k = position_in(old(self).msgs(), message_id@)->Some_0;
                let m = final(self).msgs()[k];
                &&& final(self).msgs() == old(self).msgs().update(k, m)
                &&& m == (Message { reactions: m.reactions, ..old(self).msgs()[k] })
                &&& reactions_view(m.reactions@) == with_reaction(reactions_view(old(self).msgs()[k].reactions@), emoji@, user_id@)
                &&& only_messages_changed(*old(self), *final(self))
            }),
    {
        match self.find_message(message_id) {
            None => Err(messaging_err("message not found: ", message_id)),
            Some(i) => {
                let ghost before = *self;
                let mut m = self.messages.remove(i);
                let mut rs: Vec<MessageReaction> = Vec::new();
                std::mem::swap(&mut rs, &mut m.reactions);
                react(&mut rs, emoji, user_id);
                m.reactions = rs;
                let ghost mm = m;
                self.messages.insert(i, m);
                proof {
                    assert(self.messages@ =~= before.messages@.update(i as int, mm));
                    lemma_update_same_ident(before.messages@, i as int, mm);
                }
                Ok(())
            },
        }
    }

    /// `user_id` withdraws the reaction `emoji` from a message; fails when
    /// there is no message with that id.
    pub fn remove_reaction(&mut self, message_id: &str, emoji: &str, user_id: &str) -> (r: Result<(), HostError>)
        requires
            old(self).wf(),
        ensures
            final(self).wf(),
            r is Err <==> old(self).message(message_id@) is None,
            r matches Err(e) ==> messaging_error(e, "message not found: "@ + message_id@) && *final(self) == *old(self),
            r is Ok ==> ({
                let k = position_in(old(self).msgs(), message_id@)->Some_0;
                let m = final(self).msgs()[k];
                &&& final(self).msgs() == old(self).msgs().update(k, m)
                &&& m == (Message { reactions: m.reactions, ..old(self).msgs()[k] })
                &&& reactions_view(m.reactions@) == without_reaction(reactions_view(old(self).msgs()[k].reactions@), emoji@, user_id@)
                &&& only_messages_changed(*old(self), *final(self))
            }),
    {
        match self.find_message(message_id) {
            None => Err(messaging_err("message not found: ", message_id)),
            Some(i) => {
                let ghost before = *self;
                let mut m = self.messages.remove(i);
                let mut rs: Vec<MessageReaction> = Vec::new();
                std::mem::swap(&mut rs, &mut m.reactions);
                unreact(&mut rs, emoji, user_id);
                m.reactions = rs;
                let ghost mm = m;
                self.messages.insert(i, m);
                proof {
                    assert(self.messages@ =~= before.messages@.update(i as int, mm));
                    lemma_update_same_ident(before.messages@, i as int, mm);
                }
                Ok(())
            },
        }
    }

    /// Deletes a message (the client and channel logs keep its id); fails
    /// when there is no message with that id.
    pub fn delete_message(&mut self, message_id: &str) -> (r: Result<(), HostError>)
        requires
            old(self).wf(),
        ensures
            final(self).wf(),
            r is Err <==> old(self).message(message_id@) is None,
            r matches Err(e) ==> messaging_error(e, "message not found: "@ + message_id@) && *final(self) == *old(self),
            r is Ok ==> ({
                let k = position_in(old(self).msgs(), message_id@)->Some_0;
                &&& final(self).msgs() == old(self).msgs().remove(k)
                &&& final(self).message(message_id@) is None
                &&& forall|u: Seq<char>| u != message_id@ ==> #[trigger] final(self).message(u) == old(self).message(u)
                &&& only_messages_changed(*old(self), *final(self))
            }),
    {
        match self.find_message(message_id) {
            None => Err(messaging_err("message not found: ", message_id)),
            Some(i) => {
                let ghost before = *self;
                self.messages.remove(i);
                proof {
                    lemma_remove_at(before.messages@, i as int);
                }
                Ok(())
            },
        }
    }

    /// Replaces the text of a message and marks it edited at `now`;
    /// returns a copy of the edited message, or fails when there is no
    /// message with that id.
    pub fn edit_message_at(&mut self, message_id: &str, new_content: String, now: i64) -> (r: Result<Message, HostError>)
        requires
            old(self).wf(),
        ensures
            final(self).wf(),
            r is Err <==> old(self).message(message_id@) is None,
            r matches Err(e) ==> messaging_error(e, "message not found: "@ + message_id@) && *final(self) == *old(self),
            r matches Ok(edited) ==> ({
                let k = position_in(old(self).msgs(), message_id@)->Some_0;
                let m = Message { content: new_content, edited: true, edited_at: Some(now), ..old(self).msgs()[k] };
                &&& final(self).msgs() == old(self).msgs().update(k, m)
                &&& same_message(edited, m)
                &&& only_messages_changed(*old(self), *final(self))
            }),
    {
        match self.find_message(message_id) {
            None => Err(messaging_err("message not found: ", message_id)),
            Some(i) => {
                let ghost before = *self;
                let mut m = self.messages.remove(i);
                m.content = new_content;
                m.edited = true;
                m.edited_at = Some(now);
                let copy = m.duplicate();
                let ghost mm = m;
                self.messages.insert(i, m);
                proof {
                    assert(self.messages@ =~= before.messages@.update(i as int, mm));
                    lemma_update_same_ident(before.messages@, i as int, mm);
                }
                Ok(copy)
            },
        }
    }

    /// Replaces the text of a message and marks it edited now; returns a
    /// copy of the edited message, or fails when there is no message with
    /// that id.
    pub fn edit_message(&mut self, message_id: &str, new_content: String) -> (r: Result<Message, HostError>)
        requires
            old(self).wf(),
        ensures
            final(self).wf(),
            r is Err <==> old(self).message(message_id@) is None,
            r matches Err(e) ==> messaging_error(e, "message not found: "@ + message_id@) && *final(self) == *old(self),
            r matches Ok(edited) ==> ({
                let k = position_in(old(self).msgs(), message_id@)->Some_0;
                let at = final(self).msgs()[k].edited_at;
                let m = Message { content: new_content, edited: true, edited_at: at, ..old(self).msgs()[k] };
                &&& at is Some
                &&& final(self).msgs() == old(self).msgs().update(k, m)
                &&& same_message(edited, m)
                &&& only_messages_changed(*old(self), *final(self))
            }),
    {
        let now = now_millis();
        self.edit_message_at(message_id, new_content, now)
    }

    /// Queues `op` when persistence is on.
    fn queue(&mut self, op: PersistOp)
        ensures
            *final(self) == (MessageStore { pending: final(self).pending, ..*old(self) }),
            final(self).pending() == queued(old(self).pending(), old(self).persisting, op@),
    {
        if self.persisting {
            let ghost before = self.pending@;
            let ghost o = op;
            self.pending.push(op);
            assert(self.pending@.map_values(|p: PersistOp| p@) =~= before.map_values(|p: PersistOp| p@).push(o@));
        }
    }

    /// Puts `c` in place of the channel with its id, or appends it.
    fn put_channel(&mut self, c: Channel)
        requires
            old(self).wf(),
            c.wf(),
        ensures
            final(self).wf(),
            *final(self) == (MessageStore { channels: final(self).channels, ..*old(self) }),
            final(self).chans() == upsert(old(self).chans(), c),
            final(self).channel(c.id@) == Some(c),
            forall|u: Seq<char>| u != c.id@ ==> #[trigger] final(self).channel(u) == old(self).channel(u),
    {
        let ghost before = self.channels@;
        let ghost cc = c;
        match self.find_channel(c.id.as_str()) {
            Some(i) => {
                self.channels.set(i, c);
                proof {
                    lemma_update_same_ident(before, i as int, cc);
                }
            },
            None => {
                self.channels.push(c);
                proof {
                    lemma_push_new(before, cc);
                }
            },
        }
        assert forall|k: int| 0 <= k < self.channels@.len() implies (#[trigger] self.channels@[k]).wf() by {
            if k < before.len() && self.channels@[k] != cc {
                assert(self.channels@[k] == before[k]);
            }
        }
    }

    /// Creates a channel with a fresh id `ch_<uuid>`, created by
    /// `created_by`, and returns its id.
    pub fn create_channel(&mut self, name: String, created_by: String) -> (id: String)
        requires
            old(self).wf(),
        ensures
            final(self).wf(),
            id@.len() == 35,
            id@.subrange(0, 3) == "ch_"@,
            final(self).channel(id@) is Some,
            ({
                let c = final(self).channel(id@)->Some_0;
                &&& fresh_channel(c, id@, name@, created_by@)
                &&& !c.is_system
                &&& final(self).chans() == upsert(old(self).chans(), c)
            }),
            forall|u: Seq<char>| u != id@ ==> #[trigger] final(self).channel(u) == old(self).channel(u),
            final(self).pending() == queued(old(self).pending(), old(self).persisting(), (true, id@)),
            only_channels_changed(*old(self), *final(self)),
    {
        let mut id = String::new();
        push_str(&mut id, "ch_");
        let u = random_uuid_simple();
        push_str(&mut id, u.as_str());
        proof {
            reveal_strlit("ch_");
            assert(id@.subrange(0, 3) =~= "ch_"@);
        }
        let c = Channel::new(id.clone(), name, created_by);
        let ghost before = *self;
        self.put_channel(c);
        let ghost mid = *self;
        self.queue(PersistOp::Save(id.clone()));
        assert forall|u: Seq<char>| u != id@ implies #[trigger] self.channel(u) == before.channel(u) by {
            assert(self.chans() == mid.chans());
            assert(mid.channel(u) == before.channel(u));
        }
        id
    }

    /// Creates a channel with the given id; fails when the id is taken.
    pub fn create_channel_with_id(&mut self, id: String, name: String, created_by: String, is_system: bool) -> (r: Result<(), HostError>)
        requires
            old(self).wf(),
        ensures
            final(self).wf(),
            r is Err <==> old(self).channel(id@) is Some,
            r matches Err(e) ==> messaging_error(e, "channel already exists: "@ + id@) && *final(self) == *old(self),
            r is Ok ==> ({
                let c = final(self).chans().last();
                &&& final(self).chans() == old(self).chans().push(c)
                &&& fresh_channel(c, id@, name@, created_by@)
                &&& c.is_system == is_system
                &&& final(self).pending() == queued(old(self).pending(), old(self).persisting(), (true, id@))
                &&& only_channels_changed(*old(self), *final(self))
            }),
    {
        match self.find_channel(id.as_str()) {
            Some(_) => Err(messaging_err("channel already exists: ", id.as_str())),
            None => {
                let mut c = Channel::new(id.clone(), name, created_by);
                c.is_system = is_system;
                self.put_channel(c);
                self.queue(PersistOp::Save(id));
                Ok(())
            },
        }
    }

    /// Freezes or unfreezes a channel; fails when there is no channel with
    /// that id.
    pub fn set_channel_frozen(&mut self, channel_id: &str, frozen: bool) -> (r: Result<(), HostError>)
        requires
            old(self).wf(),
        ensures
            final(self).wf(),
            r is Err <==> old(self).channel(channel_id@) is None,
            r matches Err(e) ==> messaging_error(e, "channel not found: "@ + channel_id@) && *final(self) == *old(self),
            r is Ok ==> ({
                let k = position_in(old(self).chans(), channel_id@)->Some_0;
                &&& final(self).chans() == old(self).chans().update(k, Channel { frozen, ..old(self).chans()[k] })
                &&& final(self).pending() == queued(old(self).pending(), old(self).persisting(), (true, channel_id@))
                &&& only_channels_changed(*old(self), *final(self))
            }),
    {
        match self.find_channel(channel_id) {
            None => Err(messaging_err("channel not found: ", channel_id)),
            Some(i) => {
                let ghost before = self.channels@;
                let mut c = self.channels.remove(i);
                c.frozen = frozen;
                let ghost cc = c;
                self.channels.insert(i, c);
                proof {
                    assert(self.channels@ =~= before.update(i as int, cc));
                    lemma_channel_replaced(before, i as int, cc);
                }
                self.queue(PersistOp::Save(channel_id.to_string()));
                Ok(())
            },
        }
    }

    /// A copy of the channel with id `id`, if there is one.
    pub fn get_channel(&self, id: &str) -> (r: Option<Channel>)
        requires
            self.wf(),
        ensures
            r is Some <==> self.channel(id@) is Some,
            r matches Some(c) ==> same_channel(c, self.channel(id@)->Some_0),
    {
        match self.find_channel(id) {
            Some(i) => Some(self.channels[i].duplicate()),
            None => None,
        }
    }

    /// Subscribes a client to a channel; fails when there is no channel
    /// with that id.
    pub fn subscribe_channel(&mut self, channel_id: &str, client_id: &str) -> (r: Result<(), HostError>)
        requires
            old(self).wf(),
        ensures
            final(self).wf(),
            r is Err <==> old(self).channel(channel_id@) is None,
            r matches Err(e) ==> messaging_error(e, "channel not found: "@ + channel_id@) && *final(self) == *old(self),
            r is Ok ==> ({
                let k = position_in(old(self).chans(), channel_id@)->Some_0;
                let c = final(self).chans()[k];
                &&& final(self).chans() == old(self).chans().update(k, c)
                &&& c == (Channel { subscribers: c.subscribers, ..old(self).chans()[k] })
                &&& id_set(c.subscribers@) == id_set(old(self).chans()[k].subscribers@).insert(client_id@)
                &&& final(self).pending() == queued(old(self).pending(), old(self).persisting(), (true, channel_id@))
                &&& only_channels_changed(*old(self), *final(self))
            }),
    {
        match self.find_channel(channel_id) {
            None => Err(messaging_err("channel not found: ", channel_id)),
            Some(i) => {
                let ghost before = self.channels@;
                let mut c = self.channels.remove(i);
                c.subscribe(client_id);
                let ghost cc = c;
                self.channels.insert(i, c);
                proof {
                    assert(self.channels@ =~= before.update(i as int, cc));
                    lemma_channel_replaced(before, i as int, cc);
                }
                self.queue(PersistOp::Save(channel_id.to_string()));
                Ok(())
            },
        }
    }

    /// Unsubscribes a client from a channel; fails when there is no
    /// channel with that id.
    pub fn unsubscribe_channel(&mut self, channel_id: &str, client_id: &str) -> (r: Result<(), HostError>)
        requires
            old(self).wf(),
        ensures
            final(self).wf(),
            r is Err <==> old(self).channel(channel_id@) is None,
            r matches Err(e) ==> messaging_error(e, "channel not found: "@ + channel_id@) && *final(self) == *old(self),
            r is Ok ==> ({
                let k = position_in(old(self).chans(), channel_id@)->Some_0;
                let c = final(self).chans()[k];
                &&& final(self).chans() == old(self).chans().update(k, c)
                &&& c == (Channel { subscribers: c.subscribers, ..old(self).chans()[k] })
                &&& id_set(c.subscribers@) == id_set(old(self).chans()[k].subscribers@).remove(client_id@)
                &&& final(self).pending() == queued(old(self).pending(), old(self).persisting(), (true, channel_id@))
                &&& only_channels_changed(*old(self), *final(self))
            }),
    {
        match self.find_channel(channel_id) {
            None => Err(messaging_err("channel not found: ", channel_id)),
            Some(i) => {
                let ghost before = self.channels@;
                let mut c = self.channels.remove(i);
                c.unsubscribe(client_id);
                let ghost cc = c;
                self.channels.insert(i, c);
                proof {
                    assert(self.channels@ =~= before.update(i as int, cc));
                    lemma_channel_replaced(before, i as int, cc);
                }
                self.queue(PersistOp::Save(channel_id.to_string()));
                Ok(())
            },
        }
    }

    /// Copies of all channels, in creation order.
    pub fn list_channels(&self) -> (r: Vec<Channel>)
        ensures
            r@.len() == self.chans().len(),
            forall|k: int| 0 <= k < r@.len() ==> same_channel(#[trigger] r@[k], self.chans()[k]),
    {
        let mut out: Vec<Channel> = Vec::new();
        let mut i: usize = 0;
        while i < self.channels.len()
            invariant
                i <= self.channels@.len(),
                out@.len() == i,
                forall|k: int| 0 <= k < i ==> same_channel(#[trigger] out@[k], self.channels@[k]),
            decreases self.channels.len() - i,
        {
            out.push(self.channels[i].duplicate());
            i = i + 1;
        }
        out
    }

    /// Deletes a channel and its message log; fails when there is no
    /// channel with that id.
    pub fn delete_channel(&mut self, channel_id: &str) -> (r: Result<(), HostError>)
        requires
            old(self).wf(),
        ensures
            final(self).wf(),
            r is Err <==> old(self).channel(channel_id@) is None,
            r matches Err(e) ==> messaging_error(e, "channel not found: "@ + channel_id@) && *final(self) == *old(self),
            r is Ok ==> ({
                let k = position_in(old(self).chans(), channel_id@)->Some_0;
                &&& final(self).chans() == old(self).chans().remove(k)
                &&& final(self).channel(channel_id@) is None
                &&& forall|u: Seq<char>| u != channel_id@ ==> #[trigger] final(self).channel(u) == old(self).channel(u)
                &&& final(self).channel_log(channel_id@) == Seq::<Seq<char>>::empty()
                &&& forall|c: Seq<char>| c != channel_id@ ==> #[trigger] final(self).channel_log(c) == old(self).channel_log(c)
                &&& forall|c: Seq<char>| #[trigger] final(self).client_log(c) == old(self).client_log(c)
                &&& final(self).msgs() == old(self).msgs()
                &&& final(self).total() == old(self).total()
                &&& final(self).capacity() == old(self).capacity()
                &&& final(self).persisting() == old(self).persisting()
                &&& final(self).pending() == queued(old(self).pending(), old(self).persisting(), (false, channel_id@))
            }),
    {
        match self.find_channel(channel_id) {
            None => Err(messaging_err("channel not found: ", channel_id)),
            Some(i) => {
                let ghost before = self.channels@;
                self.channels.remove(i);
                proof {
                    lemma_remove_at(before, i as int);
                    assert forall|k: int| 0 <= k < self.channels@.len() implies (#[trigger] self.channels@[k]).wf() by {
                        let fk = if k < i { k } else { k + 1 };
                        assert(self.channels@[k] == before[fk]);
                    }
                }
                let ghost index = self.channel_messages@;
                match find_key(&self.channel_messages, channel_id) {
                    Some(e) => {
                        self.channel_messages.remove(e);
                        proof {
                            lemma_entry_remove(index, e as int);
                        }
                    },
                    None => {
                        proof {
                            lemma_entry_none(index, channel_id@);
                        }
                    },
                }
                self.queue(PersistOp::Delete(channel_id.to_string()));
                Ok(())
            },
        }
    }

    /// Puts a channel read back from the backend in place of the channel
    /// with its id, or adds it; nothing is queued for the backend.
    pub fn load_channel(&mut self, channel: Channel)
        requires
            old(self).wf(),
            channel.wf(),
        ensures
            final(self).wf(),
            final(self).chans() == upsert(old(self).chans(), channel),
            final(self).pending() == old(self).pending(),
            only_channels_changed(*old(self), *final(self)),
    {
        self.put_channel(channel);
    }

    fn find_message(&self, id: &str) -> (r: Option<usize>)
        requires
            self.wf(),
        ensures
            r is None ==> self.message(id@) is None,
            r matches Some(i) ==> i < self.msgs().len() && self.msgs()[i as int].id@ == id@ && position_in(self.msgs(), id@) == Some(i as int),
    {
        let mut i: usize = 0;
        while i < self.messages.len()
            invariant
                self.wf(),
                i <= self.messages@.len(),
                forall|k: int| 0 <= k < i ==> (#[trigger] self.messages@[k]).id@ != id@,
            decreases self.messages.len() - i,
        {
            if str_equal(self.messages[i].id.as_str(), id) {
                proof {
                    lemma_position_at(self.messages@, i as int);
                }
                return Some(i);
            }
            i = i + 1;
        }
        None
    }

    fn find_channel(&self, id: &str) -> (r: Option<usize>)
        requires
            self.wf(),
        ensures
            r is None ==> self.channel(id@) is None,
            r matches Some(i) ==> i < self.chans().len() && self.chans()[i as int].id@ == id@ && position_in(self.chans(), id@) == Some(i as int),
    {
        let mut i: usize = 0;
        while i < self.channels.len()
            invariant
                self.wf(),
                i <= self.channels@.len(),
                forall|k: int| 0 <= k < i ==> (#[trigger] self.channels@[k]).id@ != id@,
            decreases self.channels.len() - i,
        {
            if str_equal(self.channels[i].id.as_str(), id) {
                proof {
                    lemma_position_at(self.channels@, i as int);
                }
                return Some(i);
            }
            i = i + 1;
        }
        None
    }
}

} // verus!
