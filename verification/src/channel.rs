//! Messaging channels (group chats): subscribers, topic and pinned messages.
use vstd::prelude::*;
use crate::messaging_types::{copy_strings, now_millis, ChannelType};
use crate::text::str_equal;

verus! {

/// A messaging channel. `subscribers` holds each client id once; times are
/// milliseconds since the Unix epoch.
#[derive(Debug, Clone)]
pub struct Channel {
    pub id: String,
    pub name: String,
    pub description: String,
    pub created_by: String,
    pub created_at: i64,
    pub subscribers: Vec<String>,
    pub channel_type: ChannelType,
    pub topic: String,
    pub pinned_messages: Vec<String>,
    /// A channel the server created for itself (e.g. the lobby).
    pub is_system: bool,
    /// A frozen channel takes no new messages and no new subscribers.
    pub frozen: bool,
}

/// The ids held by a list of strings.
pub open spec fn id_set(v: Seq<String>) -> Set<Seq<char>> {
    Set::new(|x: Seq<char>| exists|k: int| 0 <= k < v.len() && (#[trigger] v[k])@ == x)
}

/// No id occurs twice.
pub open spec fn distinct_ids(v: Seq<String>) -> bool {
    forall|i: int, j: int| 0 <= i < v.len() && 0 <= j < v.len() && i != j ==> (#[trigger] v[i])@ != (#[trigger] v[j])@
}

/// The ids of `v` other than `x`, in order.
pub open spec fn without(v: Seq<Seq<char>>, x: Seq<char>) -> Seq<Seq<char>>
    decreases v.len(),
{
    if v.len() == 0 {
        v
    } else if v.last() == x {
        without(v.drop_last(), x)
    } else {
        without(v.drop_last(), x).push(v.last())
    }
}

/// Two channels hold the same values.
pub open spec fn same_channel(a: Channel, b: Channel) -> bool {
    &&& a.id == b.id
    &&& a.name == b.name
    &&& a.description == b.description
    &&& a.created_by == b.created_by
    &&& a.created_at == b.created_at
    &&& a.subscribers@ == b.subscribers@
    &&& a.channel_type == b.channel_type
    &&& a.topic == b.topic
    &&& a.pinned_messages@ == b.pinned_messages@
    &&& a.is_system == b.is_system
    &&& a.frozen == b.frozen
}

/// Whether no string of `v` occurs twice.
fn all_distinct(v: &Vec<String>) -> (b: bool)
    ensures
        b == distinct_ids(v@),
{
    let mut i: usize = 0;
    while i < v.len()
        invariant
            i <= v@.len(),
            forall|a: int, b: int| 0 <= a < i && 0 <= b < v@.len() && a != b ==> (#[trigger] v@[a])@ != (#[trigger] v@[b])@,
        decreases v.len() - i,
    {
        let mut j: usize = 0;
        while j < v.len()
            invariant
                i < v@.len(),
                j <= v@.len(),
                forall|a: int, b: int| 0 <= a < i && 0 <= b < v@.len() && a != b ==> (#[trigger] v@[a])@ != (#[trigger] v@[b])@,
                forall|b: int| 0 <= b < j && b != i ==> v@[i as int]@ != (#[trigger] v@[b])@,
            decreases v.len() - j,
        {
            if j != i && str_equal(v[i].as_str(), v[j].as_str()) {
                return false;
            }
            j = j + 1;
        }
        i = i + 1;
    }
    true
}

pub(crate) fn position_of(v: &Vec<String>, x: &str) -> (r: Option<usize>)
    ensures
        r is None <==> !id_set(v@).contains(x@),
        r matches Some(i) ==> i < v@.len() && v@[i as int]@ == x@,
{
    let mut i: usize = 0;
    while i < v.len()
        invariant
            i <= v@.len(),
            forall|k: int| 0 <= k < i ==> v@[k]@ != x@,
        decreases v.len() - i,
    {
        if str_equal(v[i].as_str(), x) {
            return Some(i);
        }
        i = i + 1;
    }
    None
}

impl Channel {
    /// The channel's invariant: no subscriber twice, no message pinned twice.
    pub open spec fn wf(self) -> bool {
        distinct_ids(self.subscribers@) && distinct_ids(self.pinned_messages@)
    }

    /// A public channel created now by `created_by`, who is its only
    /// subscriber.
    pub fn new(id: String, name: String, created_by: String) -> (c: Self)
        ensures
            c.wf(),
            c.id == id,
            c.name == name,
            c.created_by == created_by,
            id_set(c.subscribers@) == set![created_by@],
            c.subscribers@.len() == 1,
            c.channel_type == ChannelType::Public,
            c.topic@.len() == 0,
            c.description@.len() == 0,
            c.pinned_messages@.len() == 0,
            !c.is_system,
            !c.frozen,
    {
        let subscribers = vec![created_by.clone()];
        let c = Channel {
            id,
            name,
            description: String::new(),
            created_by,
            created_at: now_millis(),
            subscribers,
            channel_type: ChannelType::Public,
            topic: String::new(),
            pinned_messages: Vec::new(),
            is_system: false,
            frozen: false,
        };
        assert(id_set(c.subscribers@) =~= set![c.created_by@]) by {
            assert(c.subscribers@[0]@ == c.created_by@);
        }
        c
    }

    /// Adds a subscriber; `true` when it was not subscribed yet.
    pub fn subscribe(&mut self, client_id: &str) -> (added: bool)
        requires
            old(self).wf(),
        ensures
            final(self).wf(),
            added == !id_set(old(self).subscribers@).contains(client_id@),
            id_set(final(self).subscribers@) == id_set(old(self).subscribers@).insert(client_id@),
            final(self).subscribers@.len() == old(self).subscribers@.len() + if added { 1int } else { 0int },
            *final(self) == (Channel { subscribers: final(self).subscribers, ..*old(self) }),
    {
        match position_of(&self.subscribers, client_id) {
            Some(_) => {
                assert(id_set(self.subscribers@).insert(client_id@) =~= id_set(self.subscribers@));
                false
            },
            None => {
                let ghost before = self.subscribers@;
                self.subscribers.push(client_id.to_string());
                proof {
                    let after = self.subscribers@;
                    assert(after[before.len() as int]@ == client_id@);
                    assert forall|i: int, j: int| 0 <= i < after.len() && 0 <= j < after.len() && i != j implies (#[trigger] after[i])@ != (#[trigger] after[j])@ by {
                        if i < before.len() && j < before.len() {
                            assert(after[i] == before[i] && after[j] == before[j]);
                        } else if i < before.len() {
                            assert(after[i] == before[i]);
                        } else if j < before.len() {
                            assert(after[j] == before[j]);
                        }
                    }
                    assert forall|x: Seq<char>| id_set(after).contains(x) <==> id_set(before).insert(client_id@).contains(x) by {
                        if id_set(after).contains(x) {
                            let k = choose|k: int| 0 <= k < after.len() && (#[trigger] after[k])@ == x;
                            if k < before.len() {
                                assert(after[k] == before[k]);
                            }
                        }
                        if id_set(before).contains(x) {
                            let k = choose|k: int| 0 <= k < before.len() && (#[trigger] before[k])@ == x;
                            assert(after[k] == before[k]);
                        }
                    }
                    assert(id_set(after) =~= id_set(before).insert(client_id@));
                }
                true
            },
        }
    }

    /// Removes a subscriber; `true` when it was subscribed.
    pub fn unsubscribe(&mut self, client_id: &str) -> (removed: bool)
        requires
            old(self).wf(),
        ensures
            final(self).wf(),
            removed == id_set(old(self).subscribers@).contains(client_id@),
            id_set(final(self).subscribers@) == id_set(old(self).subscribers@).remove(client_id@),
            final(self).subscribers@.len() == old(self).subscribers@.len() - if removed { 1int } else { 0int },
            *final(self) == (Channel { subscribers: final(self).subscribers, ..*old(self) }),
    {
        match position_of(&self.subscribers, client_id) {
            None => {
                assert(id_set(self.subscribers@).remove(client_id@) =~= id_set(self.subscribers@));
                false
            },
            Some(i) => {
                let ghost before = self.subscribers@;
                self.subscribers.remove(i);
                proof {
                    let after = self.subscribers@;
                    assert(after =~= before.remove(i as int));
                    assert forall|a: int, b: int| 0 <= a < after.len() && 0 <= b < after.len() && a != b implies (#[trigger] after[a])@ != (#[trigger] after[b])@ by {
                        let fa = if a < i { a } else { a + 1 };
                        let fb = if b < i { b } else { b + 1 };
                        assert(after[a] == before[fa] && after[b] == before[fb]);
                    }
                    assert forall|x: Seq<char>| id_set(after).contains(x) <==> id_set(before).remove(client_id@).contains(x) by {
                        if id_set(after).contains(x) {
                            let k = choose|k: int| 0 <= k < after.len() && (#[trigger] after[k])@ == x;
                            let fk = if k < i { k } else { k + 1 };
                            assert(after[k] == before[fk]);
                            assert(fk != i);
                        }
                        if id_set(before).contains(x) && x != client_id@ {
                            let k = choose|k: int| 0 <= k < before.len() && (#[trigger] before[k])@ == x;
                            assert(k != i);
                            let ak = if k < i { k } else { k - 1 };
                            assert(after[ak] == before[k]);
                        }
                    }
                    assert(id_set(after) =~= id_set(before).remove(client_id@));
                }
                true
            },
        }
    }

    /// Whether `client_id` is subscribed.
    pub fn is_subscribed(&self, client_id: &str) -> (b: bool)
        ensures
            b == id_set(self.subscribers@).contains(client_id@),
    {
        position_of(&self.subscribers, client_id).is_some()
    }

    /// Number of subscribers.
    pub fn subscriber_count(&self) -> (n: usize)
        ensures
            n == self.subscribers@.len(),
    {
        self.subscribers.len()
    }

    /// Sets the topic.
    pub fn set_topic(&mut self, topic: String)
        ensures
            *final(self) == (Channel { topic, ..*old(self) }),
    {
        self.topic = topic;
    }

    /// Pins a message; pinning it again changes nothing.
    pub fn pin_message(&mut self, message_id: String)
        requires
            old(self).wf(),
        ensures
            final(self).wf(),
            final(self).subscribers == old(self).subscribers,
            id_set(old(self).pinned_messages@).contains(message_id@) ==> final(self).pinned_messages@ == old(self).pinned_messages@,
            !id_set(old(self).pinned_messages@).contains(message_id@) ==> final(self).pinned_messages@ == old(self).pinned_messages@.push(message_id),
    {
        if position_of(&self.pinned_messages, message_id.as_str()).is_none() {
            let ghost before = self.pinned_messages@;
            let ghost m = message_id;
            self.pinned_messages.push(message_id);
            proof {
                let after = self.pinned_messages@;
                assert(after[before.len() as int] == m);
                assert forall|i: int, j: int| 0 <= i < after.len() && 0 <= j < after.len() && i != j implies (#[trigger] after[i])@ != (#[trigger] after[j])@ by {
                    if i < before.len() && j < before.len() {
                        assert(after[i] == before[i] && after[j] == before[j]);
                    } else if i < before.len() {
                        assert(after[i] == before[i]);
                    } else if j < before.len() {
                        assert(after[j] == before[j]);
                    }
                }
            }
        }
    }

    /// Unpins a message; unpinning a message that is not pinned changes
    /// nothing.
    pub fn unpin_message(&mut self, message_id: &str)
        requires
            old(self).wf(),
        ensures
            final(self).wf(),
            final(self).subscribers == old(self).subscribers,
            final(self).pinned_messages@.map_values(|s: String| s@) == without(
                old(self).pinned_messages@.map_values(|s: String| s@),
                message_id@,
            ),
    {
        let ghost names = self.pinned_messages@.map_values(|s: String| s@);
        let mut kept: Vec<String> = Vec::new();
        let mut i: usize = 0;
        while i < self.pinned_messages.len()
            invariant
                i <= self.pinned_messages@.len(),
                names == self.pinned_messages@.map_values(|s: String| s@),
                kept@.map_values(|s: String| s@) == without(names.take(i as int), message_id@),
                forall|k: int| 0 <= k < kept@.len() ==> exists|m: int| 0 <= m < i && (#[trigger] kept@[k])@ == (#[trigger] self.pinned_messages@[m])@,
                forall|a: int, b: int| 0 <= a < b < kept@.len() ==> exists|ma: int, mb: int| 0 <= ma < mb < i && (#[trigger] kept@[a])@ == self.pinned_messages@[ma]@ && (#[trigger] kept@[b])@ == self.pinned_messages@[mb]@,
                distinct_ids(self.pinned_messages@),
            decreases self.pinned_messages.len() - i,
        {
            proof {
                assert(names.take(i + 1).drop_last() =~= names.take(i as int));
                assert(names.take(i + 1).last() == self.pinned_messages@[i as int]@);
            }
            if !str_equal(self.pinned_messages[i].as_str(), message_id) {
                let ghost kb = kept@;
                kept.push(self.pinned_messages[i].clone());
                proof {
                    assert(kept@.map_values(|s: String| s@) =~= kb.map_values(|s: String| s@).push(self.pinned_messages@[i as int]@));
                    assert forall|a: int, b: int| 0 <= a < b < kept@.len() implies exists|ma: int, mb: int| 0 <= ma < mb < i + 1 && (#[trigger] kept@[a])@ == self.pinned_messages@[ma]@ && (#[trigger] kept@[b])@ == self.pinned_messages@[mb]@ by {
                        if b < kb.len() {
                            assert(kept@[a] == kb[a] && kept@[b] == kb[b]);
                            let (ma, mb) = choose|ma: int, mb: int| 0 <= ma < mb < i && (#[trigger] kb[a])@ == self.pinned_messages@[ma]@ && (#[trigger] kb[b])@ == self.pinned_messages@[mb]@;
                            assert(kept@[a]@ == self.pinned_messages@[ma]@ && kept@[b]@ == self.pinned_messages@[mb]@);
                        } else {
                            assert(kept@[a] == kb[a]);
                            let ma = choose|m: int| 0 <= m < i && (#[trigger] kb[a])@ == (#[trigger] self.pinned_messages@[m])@;
                            assert(kept@[a]@ == self.pinned_messages@[ma]@ && kept@[b]@ == self.pinned_messages@[i as int]@);
                        }
                    }
                    assert forall|k: int| 0 <= k < kept@.len() implies exists|m: int| 0 <= m < i + 1 && (#[trigger] kept@[k])@ == (#[trigger] self.pinned_messages@[m])@ by {
                        if k < kb.len() {
                            assert(kept@[k] == kb[k]);
                            let m = choose|m: int| 0 <= m < i && (#[trigger] kb[k])@ == (#[trigger] self.pinned_messages@[m])@;
                            assert(kept@[k]@ == self.pinned_messages@[m]@);
                        } else {
                            assert(kept@[k]@ == self.pinned_messages@[i as int]@);
                        }
                    }
                }
            }
            i = i + 1;
        }
        proof {
            assert(names.take(names.len() as int) =~= names);
            assert forall|a: int, b: int| 0 <= a < kept@.len() && 0 <= b < kept@.len() && a != b implies (#[trigger] kept@[a])@ != (#[trigger] kept@[b])@ by {
                if a < b {
                    let (ma, mb) = choose|ma: int, mb: int| 0 <= ma < mb < self.pinned_messages@.len() && (#[trigger] kept@[a])@ == self.pinned_messages@[ma]@ && (#[trigger] kept@[b])@ == self.pinned_messages@[mb]@;
                    assert(self.pinned_messages@[ma]@ != self.pinned_messages@[mb]@);
                } else {
                    let (mb, ma) = choose|mb: int, ma: int| 0 <= mb < ma < self.pinned_messages@.len() && (#[trigger] kept@[b])@ == self.pinned_messages@[mb]@ && (#[trigger] kept@[a])@ == self.pinned_messages@[ma]@;
                    assert(self.pinned_messages@[ma]@ != self.pinned_messages@[mb]@);
                }
            }
        }
        self.pinned_messages = kept;
    }

    /// A copy of the channel.
    pub fn duplicate(&self) -> (c: Self)
        ensures
            same_channel(c, *self),
    {
        Channel {
            id: self.id.clone(),
            name: self.name.clone(),
            description: self.description.clone(),
            created_by: self.created_by.clone(),
            created_at: self.created_at,
            subscribers: copy_strings(&self.subscribers),
            channel_type: self.channel_type,
            topic: self.topic.clone(),
            pinned_messages: copy_strings(&self.pinned_messages),
            is_system: self.is_system,
            frozen: self.frozen,
        }
    }

    /// Whether the channel meets its invariant (as a channel read back
    /// from storage may not).
    pub fn is_well_formed(&self) -> (b: bool)
        ensures
            b == self.wf(),
    {
        all_distinct(&self.subscribers) && all_distinct(&self.pinned_messages)
    }

    /// Whether this is an announcement channel.
    pub fn is_announcement(&self) -> (b: bool)
        ensures
            b == (self.channel_type == ChannelType::Announcement),
    {
        self.channel_type == ChannelType::Announcement
    }
}

} // verus!
