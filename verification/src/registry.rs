//! The shared routing state: topic registry, presence registry, and
//! per-connection delivery queues.
//!
//! A single routing process owns all connections, so the state is modelled
//! as one value operated on sequentially; the embedding process serializes
//! access to it. Per topic, a bounded fan-out window is kept for every
//! subscriber: a publish never blocks, and a subscriber that falls behind
//! loses the oldest undelivered events. Each subscriber's window is always
//! a suffix of the topic's publish history, which is what makes every
//! subscriber observe events of one topic in the same relative order.

use vstd::prelude::*;
use crate::ids::{UserId, TopicId, ConnId};
use crate::events::{WsEvent, WsEventV, events_view};

verus! {

/// How many undelivered events a topic keeps per subscriber before the
/// oldest is dropped.
pub const FANOUT_CAPACITY: usize = 256;

/// One connection's registration at a topic: the window of events
/// published to the topic and not yet forwarded to the connection.
pub struct Subscription {
    pub conn: ConnId,
    pub pending: Vec<WsEvent>,
}

/// A fan-out point: every event published to the topic goes to the
/// window of every current subscriber. The full publish history is kept
/// as a ghost value; the windows are suffixes of it.
pub struct Topic {
    pub id: TopicId,
    pub subs: Vec<Subscription>,
    pub history: Ghost<Seq<WsEventV>>,
}

/// A user's presence entry: the connection of each of their currently
/// open delivery paths. An entry exists exactly while it is non-empty.
pub struct PresenceEntry {
    pub user: UserId,
    pub paths: Vec<ConnId>,
}

/// A connection's outbound delivery queue, read by the connection's
/// forwarder and written out to the socket.
pub struct OutboundQueue {
    pub conn: ConnId,
    pub queue: Vec<WsEvent>,
}

/// What a subscriber's window becomes when an event is published to its
/// topic: appended, dropping the oldest event if the window is full.
pub open spec fn fanout_push(q: Seq<WsEventV>, e: WsEventV) -> Seq<WsEventV> {
    if q.len() < FANOUT_CAPACITY {
        q.push(e)
    } else {
        q.skip(1).push(e)
    }
}

impl Topic {
    /// Whether `c` is a subscriber of this topic.
    pub open spec fn has_sub(self, c: ConnId) -> bool {
        exists|i: int| 0 <= i < self.subs@.len() && (#[trigger] self.subs@[i]).conn == c
    }

    /// The index of `c`'s subscription.
    pub open spec fn sub_index(self, c: ConnId) -> int {
        choose|i: int| 0 <= i < self.subs@.len() && (#[trigger] self.subs@[i]).conn == c
    }

    /// The window of events pending for subscriber `c`.
    pub open spec fn pending_of(self, c: ConnId) -> Seq<WsEventV> {
        events_view(self.subs@[self.sub_index(c)].pending@)
    }

    /// Subscribers are distinct, and every window is a bounded suffix of
    /// the publish history.
    pub open spec fn wf(self) -> bool {
        &&& forall|i: int, j: int|
            0 <= i < j < self.subs@.len()
                ==> (#[trigger] self.subs@[i]).conn != (#[trigger] self.subs@[j]).conn
        &&& forall|i: int| 0 <= i < self.subs@.len()
                ==> (#[trigger] self.subs@[i]).pending@.len() <= FANOUT_CAPACITY
        &&& forall|i: int| 0 <= i < self.subs@.len()
                ==> (#[trigger] self.subs@[i]).pending@.len() <= self.history@.len()
        &&& forall|i: int| 0 <= i < self.subs@.len()
                ==> events_view((#[trigger] self.subs@[i]).pending@)
                    == self.history@.skip(
                        self.history@.len() - self.subs@[i].pending@.len())
    }
}

impl Subscription {
    /// Accepts one published event into the window, dropping the oldest
    /// event when the window is full. Never blocks and never fails.
    fn offer(&mut self, event: WsEvent)
        requires
            old(self).pending@.len() <= FANOUT_CAPACITY,
        ensures
            final(self).conn == old(self).conn,
            final(self).pending@.len() <= FANOUT_CAPACITY,
            final(self).pending@.len() > 0,
            events_view(final(self).pending@)
                == fanout_push(events_view(old(self).pending@), event@),
    {
        if self.pending.len() == FANOUT_CAPACITY {
            self.pending.remove(0);
            proof {
                assert(self.pending@ =~= old(self).pending@.skip(1));
            }
        }
        self.pending.push(event);
        proof {
            if old(self).pending@.len() == FANOUT_CAPACITY {
                assert(events_view(old(self).pending@.skip(1).push(event))
                    =~= events_view(old(self).pending@).skip(1).push(event@));
            } else {
                assert(events_view(old(self).pending@.push(event))
                    =~= events_view(old(self).pending@).push(event@));
            }
        }
    }
}

impl Topic {
    /// Publishes one event to this fan-out point: it is appended to the
    /// history and offered to every subscriber's window.
    fn publish(&mut self, event: &WsEvent)
        requires
            old(self).wf(),
        ensures
            final(self).wf(),
            final(self).id == old(self).id,
            final(self).history@ == old(self).history@.push(event@),
            final(self).subs@.len() == old(self).subs@.len(),
            forall|k: int| 0 <= k < final(self).subs@.len()
                ==> (#[trigger] final(self).subs@[k]).conn == old(self).subs@[k].conn,
            forall|k: int| 0 <= k < final(self).subs@.len()
                ==> events_view((#[trigger] final(self).subs@[k]).pending@)
                    == fanout_push(events_view(old(self).subs@[k].pending@), event@),
    {
        let n = self.subs.len();
        let mut k: usize = 0;
        while k < n
            invariant
                old(self).wf(),
                n == self.subs@.len(),
                n == old(self).subs@.len(),
                k <= n,
                self.id == old(self).id,
                self.history == old(self).history,
                forall|i: int| k <= i < n
                    ==> #[trigger] self.subs@[i] == old(self).subs@[i],
                forall|i: int| 0 <= i < k
                    ==> (#[trigger] self.subs@[i]).conn == old(self).subs@[i].conn,
                forall|i: int| 0 <= i < k
                    ==> (#[trigger] self.subs@[i]).pending@.len() <= FANOUT_CAPACITY,
                forall|i: int| 0 <= i < k
                    ==> events_view((#[trigger] self.subs@[i]).pending@)
                        == fanout_push(events_view(old(self).subs@[i].pending@), event@),
            decreases n - k,
        {
            let sb = &mut self.subs[k];
            sb.offer(event.clone());
            k = k + 1;
        }
        proof {
            self.history@ = self.history@.push(event@);
        }
        proof {
            let s1 = *self;
            let h0 = old(self).history@;
            let h1 = s1.history@;
            assert forall|i: int| 0 <= i < n implies
                events_view((#[trigger] s1.subs@[i]).pending@)
                    == h1.skip(h1.len() - s1.subs@[i].pending@.len()) by {
                let l0 = old(self).subs@[i].pending@.len() as int;
                let v0 = events_view(old(self).subs@[i].pending@);
                assert(v0.len() == l0);
                assert(v0 == h0.skip(h0.len() - l0));
                if l0 < FANOUT_CAPACITY {
                    assert(h0.push(event@).skip(h0.len() + 1 - (l0 + 1))
                        =~= h0.skip(h0.len() - l0).push(event@));
                } else {
                    assert(h0.push(event@).skip(h0.len() + 1 - l0)
                        =~= h0.skip(h0.len() - l0).skip(1).push(event@));
                }
            }
        }
    }
}

/// With distinct subscriber connections, a subscription index is
/// determined by its connection.
pub proof fn lemma_sub_lookup(t: Topic, c: ConnId, i: int)
    requires
        t.wf(),
        0 <= i < t.subs@.len(),
        t.subs@[i].conn == c,
    ensures
        t.has_sub(c),
        t.sub_index(c) == i,
{
    assert(t.has_sub(c));
    let j = t.sub_index(c);
    if i < j {
        assert(t.subs@[i].conn != t.subs@[j].conn);
    } else if j < i {
        assert(t.subs@[j].conn != t.subs@[i].conn);
    }
}

/// The shared routing state.
pub struct WsState {
    pub topics: Vec<Topic>,
    pub presence: Vec<PresenceEntry>,
    pub outbound: Vec<OutboundQueue>,
    pub next_conn: ConnId,
}

impl WsState {
    /// Whether a fan-out point exists for topic `t`.
    pub open spec fn has_topic(self, t: TopicId) -> bool {
        exists|i: int| 0 <= i < self.topics@.len() && (#[trigger] self.topics@[i]).id == t
    }

    /// The index of topic `t`.
    pub open spec fn topic_index(self, t: TopicId) -> int {
        choose|i: int| 0 <= i < self.topics@.len() && (#[trigger] self.topics@[i]).id == t
    }

    /// The fan-out point of topic `t`.
    pub open spec fn topic_at(self, t: TopicId) -> Topic {
        self.topics@[self.topic_index(t)]
    }

    /// Every event ever published to topic `t`, in publish order.
    pub open spec fn history_of(self, t: TopicId) -> Seq<WsEventV> {
        self.topic_at(t).history@
    }

    /// Whether connection `c` holds an active subscription to topic `t`.
    pub open spec fn is_subscribed(self, t: TopicId, c: ConnId) -> bool {
        self.has_topic(t) && self.topic_at(t).has_sub(c)
    }

    /// The window of events published to `t` and not yet forwarded to `c`.
    pub open spec fn pending_of(self, t: TopicId, c: ConnId) -> Seq<WsEventV> {
        self.topic_at(t).pending_of(c)
    }

    /// Whether user `u` is online: their presence entry exists (and, by
    /// well-formedness, is non-empty).
    pub open spec fn has_user(self, u: UserId) -> bool {
        exists|i: int| 0 <= i < self.presence@.len() && (#[trigger] self.presence@[i]).user == u
    }

    /// The index of user `u`'s presence entry.
    pub open spec fn user_index(self, u: UserId) -> int {
        choose|i: int| 0 <= i < self.presence@.len() && (#[trigger] self.presence@[i]).user == u
    }

    /// The connections of user `u`'s open delivery paths.
    pub open spec fn paths_of(self, u: UserId) -> Seq<ConnId> {
        self.presence@[self.user_index(u)].paths@
    }

    /// Whether connection `c` has a delivery queue.
    pub open spec fn has_conn(self, c: ConnId) -> bool {
        exists|i: int| 0 <= i < self.outbound@.len() && (#[trigger] self.outbound@[i]).conn == c
    }

    /// The index of connection `c`'s delivery queue.
    pub open spec fn conn_index(self, c: ConnId) -> int {
        choose|i: int| 0 <= i < self.outbound@.len() && (#[trigger] self.outbound@[i]).conn == c
    }

    /// The outbound delivery queue of connection `c`.
    pub open spec fn outbound_of(self, c: ConnId) -> Seq<WsEventV> {
        events_view(self.outbound@[self.conn_index(c)].queue@)
    }

    /// Well-formedness of the whole routing state.
    pub open spec fn wf(self) -> bool {
        &&& forall|i: int, j: int|
            0 <= i < j < self.topics@.len()
                ==> (#[trigger] self.topics@[i]).id != (#[trigger] self.topics@[j]).id
        &&& forall|i: int| 0 <= i < self.topics@.len() ==> (#[trigger] self.topics@[i]).wf()
        &&& forall|i: int, j: int|
            0 <= i < j < self.presence@.len()
                ==> (#[trigger] self.presence@[i]).user != (#[trigger] self.presence@[j]).user
        &&& forall|i: int| 0 <= i < self.presence@.len()
                ==> (#[trigger] self.presence@[i]).paths@.len() > 0
        &&& forall|i: int, j1: int, j2: int|
            0 <= i < self.presence@.len()
                && 0 <= j1 < j2 < self.presence@[i].paths@.len()
                ==> #[trigger] self.presence@[i].paths@[j1]
                    != #[trigger] self.presence@[i].paths@[j2]
        &&& forall|i1: int, j1: int, i2: int, j2: int|
            0 <= i1 < i2 < self.presence@.len()
                && 0 <= j1 < self.presence@[i1].paths@.len()
                && 0 <= j2 < self.presence@[i2].paths@.len()
                ==> #[trigger] self.presence@[i1].paths@[j1]
                    != #[trigger] self.presence@[i2].paths@[j2]
        &&& forall|i: int, j: int|
            0 <= i < j < self.outbound@.len()
                ==> (#[trigger] self.outbound@[i]).conn != (#[trigger] self.outbound@[j]).conn
        &&& forall|i: int| 0 <= i < self.outbound@.len()
                ==> (#[trigger] self.outbound@[i]).conn < self.next_conn
        &&& forall|i: int, j: int|
            0 <= i < self.presence@.len() && 0 <= j < self.presence@[i].paths@.len()
                ==> #[trigger] self.presence@[i].paths@[j] < self.next_conn
        &&& forall|i: int, j: int|
            0 <= i < self.topics@.len() && 0 <= j < self.topics@[i].subs@.len()
                ==> (#[trigger] self.topics@[i].subs@[j]).conn < self.next_conn
    }
}

/// With distinct topic identifiers, a topic index is determined by its
/// identifier.
pub proof fn lemma_topic_lookup(s: WsState, t: TopicId, i: int)
    requires
        s.wf(),
        0 <= i < s.topics@.len(),
        s.topics@[i].id == t,
    ensures
        s.has_topic(t),
        s.topic_index(t) == i,
{
    assert(s.has_topic(t));
    let j = s.topic_index(t);
    if i < j {
        assert(s.topics@[i].id != s.topics@[j].id);
    } else if j < i {
        assert(s.topics@[j].id != s.topics@[i].id);
    }
}

/// With distinct users, a presence index is determined by its user.
pub proof fn lemma_user_lookup(s: WsState, u: UserId, i: int)
    requires
        s.wf(),
        0 <= i < s.presence@.len(),
        s.presence@[i].user == u,
    ensures
        s.has_user(u),
        s.user_index(u) == i,
{
    assert(s.has_user(u));
    let j = s.user_index(u);
    if i < j {
        assert(s.presence@[i].user != s.presence@[j].user);
    } else if j < i {
        assert(s.presence@[j].user != s.presence@[i].user);
    }
}

/// With distinct connections, a queue index is determined by its
/// connection.
pub proof fn lemma_conn_lookup(s: WsState, c: ConnId, i: int)
    requires
        s.wf(),
        0 <= i < s.outbound@.len(),
        s.outbound@[i].conn == c,
    ensures
        s.has_conn(c),
        s.conn_index(c) == i,
{
    assert(s.has_conn(c));
    let j = s.conn_index(c);
    if i < j {
        assert(s.outbound@[i].conn != s.outbound@[j].conn);
    } else if j < i {
        assert(s.outbound@[j].conn != s.outbound@[i].conn);
    }
}

impl WsState {
    /// A fresh routing state with no topics, no presence, no connections.
    pub fn new() -> (s: WsState)
        ensures
            s.wf(),
            s.next_conn == 0,
            s.topics@.len() == 0,
            s.presence@.len() == 0,
            s.outbound@.len() == 0,
            forall|t: TopicId| !s.has_topic(t),
            forall|u: UserId| !s.has_user(u),
            forall|c: ConnId| !s.has_conn(c),
    {
        WsState {
            topics: Vec::new(),
            presence: Vec::new(),
            outbound: Vec::new(),
            next_conn: 0,
        }
    }

    /// Ensures a fan-out point exists for `channel_id`, creating an empty
    /// one if this is the first subscription system-wide.
    pub fn get_or_create_channel(&mut self, channel_id: TopicId)
        requires
            old(self).wf(),
        ensures
            final(self).wf(),
            final(self).has_topic(channel_id),
            old(self).has_topic(channel_id) ==> *final(self) == *old(self),
            !old(self).has_topic(channel_id) ==> {
                &&& final(self).history_of(channel_id) == Seq::<WsEventV>::empty()
                &&& forall|c: ConnId| !final(self).is_subscribed(channel_id, c)
            },
            forall|t2: TopicId| t2 != channel_id ==> {
                &&& final(self).has_topic(t2) == old(self).has_topic(t2)
                &&& old(self).has_topic(t2)
                    ==> final(self).topic_at(t2) == old(self).topic_at(t2)
            },
            final(self).presence == old(self).presence,
            final(self).outbound == old(self).outbound,
            final(self).next_conn == old(self).next_conn,
    {
        let n = self.topics.len();
        let mut i: usize = 0;
        while i < n
            invariant
                n == self.topics@.len(),
                i <= n,
                forall|k: int| 0 <= k < i ==> (#[trigger] self.topics@[k]).id != channel_id,
                *self == *old(self),
                old(self).wf(),
            decreases n - i,
        {
            if self.topics[i].id == channel_id {
                proof {
                    lemma_topic_lookup(*self, channel_id, i as int);
                }
                return;
            }
            i = i + 1;
        }
        assert(!self.has_topic(channel_id));
        let t = Topic { id: channel_id, subs: Vec::new(), history: Ghost(Seq::empty()) };
        self.topics.push(t);
        proof {
            let ghost s1 = *self;
            assert(s1.topics@ == old(self).topics@.push(t));
            assert(s1.topics@[s1.topics@.len() - 1].id == channel_id);
            assert forall|i2: int, j2: int| 0 <= i2 < j2 < s1.topics@.len() implies
                (#[trigger] s1.topics@[i2]).id != (#[trigger] s1.topics@[j2]).id by {
                if j2 < s1.topics@.len() - 1 {
                    assert(s1.topics@[i2] == old(self).topics@[i2]);
                    assert(s1.topics@[j2] == old(self).topics@[j2]);
                } else {
                    assert(s1.topics@[i2] == old(self).topics@[i2]);
                    assert(!old(self).has_topic(channel_id));
                }
            }
            lemma_topic_lookup(s1, channel_id, s1.topics@.len() - 1);
            assert(s1.history_of(channel_id) =~= Seq::<WsEventV>::empty());
            assert forall|t2: TopicId| t2 != channel_id implies
                s1.has_topic(t2) == old(self).has_topic(t2)
                && (old(self).has_topic(t2)
                    ==> s1.topic_at(t2) == old(self).topic_at(t2)) by {
                if old(self).has_topic(t2) {
                    let k = old(self).topic_index(t2);
                    assert(old(self).topics@[k].id == t2);
                    assert(s1.topics@[k] == old(self).topics@[k]);
                    lemma_topic_lookup(s1, t2, k);
                    assert(old(self).topic_at(t2) == old(self).topics@[k]);
                }
                if s1.has_topic(t2) {
                    let k = s1.topic_index(t2);
                    assert(s1.topics@[k].id == t2);
                    assert(k < s1.topics@.len() - 1);
                    assert(old(self).topics@[k].id == t2);
                    assert(old(self).has_topic(t2));
                }
            }
        }
    }

    /// The position of topic `t` in the registry, if present.
    fn find_topic_index(&self, t: TopicId) -> (r: Option<usize>)
        ensures
            match r {
                Some(i) => i < self.topics@.len() && self.topics@[i as int].id == t,
                None => !self.has_topic(t),
            },
    {
        let n = self.topics.len();
        let mut i: usize = 0;
        while i < n
            invariant
                n == self.topics@.len(),
                i <= n,
                forall|k: int| 0 <= k < i ==> (#[trigger] self.topics@[k]).id != t,
            decreases n - i,
        {
            if self.topics[i].id == t {
                return Some(i);
            }
            i = i + 1;
        }
        None
    }

    /// The position of user `u`'s presence entry, if present.
    fn find_user_index(&self, u: UserId) -> (r: Option<usize>)
        ensures
            match r {
                Some(i) => i < self.presence@.len() && self.presence@[i as int].user == u,
                None => !self.has_user(u),
            },
    {
        let n = self.presence.len();
        let mut i: usize = 0;
        while i < n
            invariant
                n == self.presence@.len(),
                i <= n,
                forall|k: int| 0 <= k < i ==> (#[trigger] self.presence@[k]).user != u,
            decreases n - i,
        {
            if self.presence[i].user == u {
                return Some(i);
            }
            i = i + 1;
        }
        None
    }

    /// The position of connection `c`'s delivery queue, if present.
    fn find_conn_index(&self, c: ConnId) -> (r: Option<usize>)
        ensures
            match r {
                Some(i) => i < self.outbound@.len() && self.outbound@[i as int].conn == c,
                None => !self.has_conn(c),
            },
    {
        let n = self.outbound.len();
        let mut i: usize = 0;
        while i < n
            invariant
                n == self.outbound@.len(),
                i <= n,
                forall|k: int| 0 <= k < i ==> (#[trigger] self.outbound@[k]).conn != c,
            decreases n - i,
        {
            if self.outbound[i].conn == c {
                return Some(i);
            }
            i = i + 1;
        }
        None
    }

    /// Registers a new delivery path for the user and returns its fresh
    /// connection identifier, with an empty delivery queue.
    pub fn register_user(&mut self, user_id: UserId) -> (c: ConnId)
        requires
            old(self).wf(),
            old(self).next_conn < ConnId::MAX,
        ensures
            final(self).wf(),
            c == old(self).next_conn,
            final(self).next_conn == old(self).next_conn + 1,
            !old(self).has_conn(c),
            final(self).has_conn(c),
            final(self).outbound_of(c) == Seq::<WsEventV>::empty(),
            forall|c2: ConnId| c2 != c
                ==> final(self).has_conn(c2) == old(self).has_conn(c2),
            forall|c2: ConnId| c2 != c && old(self).has_conn(c2)
                ==> final(self).outbound_of(c2) == old(self).outbound_of(c2),
            final(self).has_user(user_id),
            final(self).paths_of(user_id) == if old(self).has_user(user_id) {
                old(self).paths_of(user_id).push(c)
            } else {
                seq![c]
            },
            forall|u2: UserId| u2 != user_id
                ==> final(self).has_user(u2) == old(self).has_user(u2),
            forall|u2: UserId| u2 != user_id && old(self).has_user(u2)
                ==> final(self).paths_of(u2) == old(self).paths_of(u2),
            final(self).topics == old(self).topics,
    {
        let c = self.next_conn;
        proof {
            if old(self).has_conn(c) {
                let i = old(self).conn_index(c);
            }
            if old(self).has_user(user_id) {
                let i = old(self).user_index(user_id);
            }
        }
        self.next_conn = c + 1;
        self.outbound.push(OutboundQueue { conn: c, queue: Vec::new() });
        let found = self.find_user_index(user_id);
        match found {
            Some(i) => {
                let e = &mut self.presence[i];
                e.paths.push(c);
                proof {
                    let s1 = *self;
                    assert(s1.presence@[i as int].user == user_id);
                    assert(s1.presence@[i as int].paths@
                        == old(self).presence@[i as int].paths@.push(c));
                    assert forall|k: int| 0 <= k < s1.presence@.len() && k != i implies
                        s1.presence@[k] == old(self).presence@[k] by {}
                    assert(s1.wf());
                    lemma_user_lookup(s1, user_id, i as int);
                    lemma_user_lookup(*old(self), user_id, i as int);
                    assert forall|u2: UserId| u2 != user_id implies
                        s1.has_user(u2) == old(self).has_user(u2)
                        && (old(self).has_user(u2)
                            ==> s1.paths_of(u2) == old(self).paths_of(u2)) by {
                        if old(self).has_user(u2) {
                            let k = old(self).user_index(u2);
                            lemma_user_lookup(s1, u2, k);
                        }
                        if s1.has_user(u2) {
                            let k = s1.user_index(u2);
                            lemma_user_lookup(*old(self), u2, k);
                        }
                    }
                }
            },
            None => {
                let mut p: Vec<ConnId> = Vec::new();
                p.push(c);
                self.presence.push(PresenceEntry { user: user_id, paths: p });
                proof {
                    let s1 = *self;
                    let last = s1.presence@.len() - 1;
                    assert(s1.presence@[last].user == user_id);
                    assert(s1.presence@[last].paths@ =~= seq![c]);
                    assert forall|k: int| 0 <= k < last implies
                        s1.presence@[k] == old(self).presence@[k] by {}
                    assert(s1.wf());
                    lemma_user_lookup(s1, user_id, last);
                    assert forall|u2: UserId| u2 != user_id implies
                        s1.has_user(u2) == old(self).has_user(u2)
                        && (old(self).has_user(u2)
                            ==> s1.paths_of(u2) == old(self).paths_of(u2)) by {
                        if old(self).has_user(u2) {
                            let k = old(self).user_index(u2);
                            lemma_user_lookup(s1, u2, k);
                        }
                        if s1.has_user(u2) {
                            let k = s1.user_index(u2);
                            assert(k != last);
                            lemma_user_lookup(*old(self), u2, k);
                        }
                    }
                }
            },
        }
        proof {
            let s1 = *self;
            assert(s1.outbound@.len() == old(self).outbound@.len() + 1);
            assert(s1.outbound@[s1.outbound@.len() - 1].conn == c);
            assert(s1.outbound@[s1.outbound@.len() - 1].queue@.len() == 0);
            assert(forall|k: int| 0 <= k < old(self).outbound@.len()
                ==> s1.outbound@[k] == old(self).outbound@[k]);
            lemma_conn_lookup(s1, c, s1.outbound@.len() - 1);
            assert(s1.outbound_of(c) =~= Seq::<WsEventV>::empty());
            assert forall|c2: ConnId| c2 != c implies
                s1.has_conn(c2) == old(self).has_conn(c2)
                && (old(self).has_conn(c2)
                    ==> s1.outbound_of(c2) == old(self).outbound_of(c2)) by {
                if old(self).has_conn(c2) {
                    let k = old(self).conn_index(c2);
                    lemma_conn_lookup(s1, c2, k);
                    lemma_conn_lookup(*old(self), c2, k);
                }
                if s1.has_conn(c2) {
                    let k = s1.conn_index(c2);
                    assert(k != s1.outbound@.len() - 1);
                    lemma_conn_lookup(*old(self), c2, k);
                }
            }
        }
        c
    }

    /// Removes the delivery path `conn` from the user's presence entry;
    /// when it was the last one, the entry itself is removed. Removing a
    /// path that is not registered is a no-op.
    pub fn unregister_user(&mut self, user_id: UserId, conn: ConnId)
        requires
            old(self).wf(),
        ensures
            final(self).wf(),
            final(self).topics == old(self).topics,
            final(self).outbound == old(self).outbound,
            final(self).next_conn == old(self).next_conn,
            !(old(self).has_user(user_id) && old(self).paths_of(user_id).contains(conn))
                ==> *final(self) == *old(self),
            old(self).has_user(user_id) && old(self).paths_of(user_id).contains(conn) ==> {
                &&& final(self).has_user(user_id) == (old(self).paths_of(user_id).len() > 1)
                &&& final(self).has_user(user_id) ==> {
                    &&& final(self).paths_of(user_id).len()
                        == old(self).paths_of(user_id).len() - 1
                    &&& !final(self).paths_of(user_id).contains(conn)
                    &&& forall|c2: ConnId| c2 != conn
                        ==> final(self).paths_of(user_id).contains(c2)
                            == old(self).paths_of(user_id).contains(c2)
                }
            },
            forall|u2: UserId| u2 != user_id
                ==> final(self).has_user(u2) == old(self).has_user(u2),
            forall|u2: UserId| u2 != user_id && old(self).has_user(u2)
                ==> final(self).paths_of(u2) == old(self).paths_of(u2),
    {
        let ui = match self.find_user_index(user_id) {
            None => {
                return;
            },
            Some(i) => i,
        };
        proof {
            lemma_user_lookup(*old(self), user_id, ui as int);
        }
        let plen = self.presence[ui].paths.len();
        let mut j: usize = 0;
        let mut found: Option<usize> = None;
        while j < plen
            invariant
                *self == *old(self),
                old(self).wf(),
                ui < self.presence@.len(),
                self.presence@[ui as int].user == user_id,
                plen == self.presence@[ui as int].paths@.len(),
                j <= plen,
                match found {
                    Some(k) => k < plen && self.presence@[ui as int].paths@[k as int] == conn,
                    None => forall|k: int| 0 <= k < j
                        ==> self.presence@[ui as int].paths@[k] != conn,
                },
            decreases plen - j,
        {
            if self.presence[ui].paths[j] == conn {
                found = Some(j);
            }
            j = j + 1;
        }
        let pj = match found {
            None => {
                proof {
                    assert(!old(self).paths_of(user_id).contains(conn));
                }
                return;
            },
            Some(k) => k,
        };
        assert(old(self).paths_of(user_id).contains(conn));
        let e = &mut self.presence[ui];
        e.paths.remove(pj);
        let now_empty = e.paths.len() == 0;
        proof {
            let s1 = *self;
            let oldp = old(self).presence@[ui as int].paths@;
            let newp = oldp.remove(pj as int);
            oldp.remove_ensures(pj as int);
            assert(s1.presence@[ui as int].paths@ == newp);
            assert forall|k: int| 0 <= k < s1.presence@.len() && k != ui implies
                s1.presence@[k] == old(self).presence@[k] by {}
            // membership in the shortened path list
            assert forall|c2: ConnId| c2 != conn implies
                newp.contains(c2) == oldp.contains(c2) by {
                if oldp.contains(c2) {
                    let k = choose|k: int| 0 <= k < oldp.len() && oldp[k] == c2;
                    if k < pj {
                        assert(newp[k] == c2);
                    } else {
                        assert(k > pj);
                        assert(newp[k - 1] == c2);
                    }
                    assert(newp.contains(c2));
                }
                if newp.contains(c2) {
                    let k = choose|k: int| 0 <= k < newp.len() && newp[k] == c2;
                    if k < pj {
                        assert(oldp[k] == c2);
                    } else {
                        assert(oldp[k + 1] == c2);
                    }
                    assert(oldp.contains(c2));
                }
            }
            assert(!newp.contains(conn)) by {
                if newp.contains(conn) {
                    let k = choose|k: int| 0 <= k < newp.len() && newp[k] == conn;
                    if k < pj {
                        assert(oldp[k] == conn);
                        assert(oldp[pj as int] == conn);
                    } else {
                        assert(oldp[k + 1] == conn);
                        assert(oldp[pj as int] == conn);
                    }
                }
            }
            // the shortened list keeps its distinctness and its bound
            assert forall|j1: int, j2: int| 0 <= j1 < j2 < newp.len() implies
                newp[j1] != newp[j2] by {
                let k1: int = if j1 < pj { j1 } else { j1 + 1 };
                let k2: int = if j2 < pj { j2 } else { j2 + 1 };
                assert(newp[j1] == oldp[k1]);
                assert(newp[j2] == oldp[k2]);
            }
        }
        if now_empty {
            self.presence.remove(ui);
            proof {
                let s1 = *self;
                let oldpr = old(self).presence@;
                assert(s1.presence@.len() == oldpr.len() - 1);
                assert forall|k: int| 0 <= k < s1.presence@.len() implies
                    #[trigger] s1.presence@[k]
                        == (if k < ui { oldpr[k] } else { oldpr[k + 1] }) by {}
                assert(s1.wf());
                assert(!s1.has_user(user_id)) by {
                    if s1.has_user(user_id) {
                        let k = s1.user_index(user_id);
                        let k0: int = if k < ui { k } else { k + 1 };
                        assert(oldpr[k0].user == user_id);
                        lemma_user_lookup(*old(self), user_id, k0);
                    }
                }
                assert(old(self).paths_of(user_id).len() == 1);
                assert forall|u2: UserId| u2 != user_id implies
                    s1.has_user(u2) == old(self).has_user(u2)
                    && (old(self).has_user(u2)
                        ==> s1.paths_of(u2) == old(self).paths_of(u2)) by {
                    if old(self).has_user(u2) {
                        let k = old(self).user_index(u2);
                        let k1: int = if k < ui { k } else { k - 1 };
                        assert(k != ui);
                        assert(s1.presence@[k1] == oldpr[k]);
                        lemma_user_lookup(s1, u2, k1);
                    }
                    if s1.has_user(u2) {
                        let k = s1.user_index(u2);
                        let k0: int = if k < ui { k } else { k + 1 };
                        assert(oldpr[k0].user == u2);
                        lemma_user_lookup(*old(self), u2, k0);
                    }
                }
            }
        } else {
            proof {
                let s1 = *self;
                assert(s1.wf());
                lemma_user_lookup(s1, user_id, ui as int);
                assert(s1.has_user(user_id));
                assert(old(self).paths_of(user_id).len() > 1);
                assert forall|u2: UserId| u2 != user_id implies
                    s1.has_user(u2) == old(self).has_user(u2)
                    && (old(self).has_user(u2)
                        ==> s1.paths_of(u2) == old(self).paths_of(u2)) by {
                    if old(self).has_user(u2) {
                        let k = old(self).user_index(u2);
                        assert(k != ui);
                        lemma_user_lookup(s1, u2, k);
                    }
                    if s1.has_user(u2) {
                        let k = s1.user_index(u2);
                        assert(k != ui);
                        lemma_user_lookup(*old(self), u2, k);
                    }
                }
            }
        }
    }

    /// Appends an event to one connection's delivery queue; a connection
    /// without a queue is skipped silently.
    pub(crate) fn push_outbound(&mut self, conn: ConnId, event: WsEvent)
        requires
            old(self).wf(),
        ensures
            final(self).wf(),
            final(self).topics == old(self).topics,
            final(self).presence == old(self).presence,
            final(self).next_conn == old(self).next_conn,
            forall|c2: ConnId| final(self).has_conn(c2) == old(self).has_conn(c2),
            !old(self).has_conn(conn) ==> *final(self) == *old(self),
            old(self).has_conn(conn)
                ==> final(self).outbound_of(conn)
                    == old(self).outbound_of(conn).push(event@),
            forall|c2: ConnId| c2 != conn && old(self).has_conn(c2)
                ==> final(self).outbound_of(c2) == old(self).outbound_of(c2),
    {
        let i = match self.find_conn_index(conn) {
            None => {
                return;
            },
            Some(i) => i,
        };
        proof {
            lemma_conn_lookup(*old(self), conn, i as int);
        }
        let q = &mut self.outbound[i];
        q.queue.push(event);
        proof {
            let s1 = *self;
            assert(s1.outbound@[i as int].conn == conn);
            assert(s1.outbound@[i as int].queue@
                == old(self).outbound@[i as int].queue@.push(event));
            assert(forall|k: int| 0 <= k < s1.outbound@.len() && k != i
                ==> s1.outbound@[k] == old(self).outbound@[k]);
            assert(s1.wf());
            lemma_conn_lookup(s1, conn, i as int);
            assert(events_view(old(self).outbound@[i as int].queue@.push(event))
                =~= events_view(old(self).outbound@[i as int].queue@).push(event@));
            assert forall|c2: ConnId| c2 != conn implies
                s1.has_conn(c2) == old(self).has_conn(c2)
                && (old(self).has_conn(c2)
                    ==> s1.outbound_of(c2) == old(self).outbound_of(c2)) by {
                if old(self).has_conn(c2) {
                    let k = old(self).conn_index(c2);
                    assert(k != i);
                    lemma_conn_lookup(s1, c2, k);
                    lemma_conn_lookup(*old(self), c2, k);
                }
                if s1.has_conn(c2) {
                    let k = s1.conn_index(c2);
                    assert(k != i);
                    lemma_conn_lookup(*old(self), c2, k);
                }
            }
        }
    }

    /// Delivers an event to every open delivery path of one user: the
    /// multi-device fan-out. An offline user receives nothing, silently.
    pub fn send_to_user(&mut self, user_id: UserId, event: &WsEvent)
        requires
            old(self).wf(),
        ensures
            final(self).wf(),
            final(self).topics == old(self).topics,
            final(self).presence == old(self).presence,
            final(self).next_conn == old(self).next_conn,
            forall|c: ConnId| final(self).has_conn(c) == old(self).has_conn(c),
            !old(self).has_user(user_id) ==> *final(self) == *old(self),
            old(self).has_user(user_id) ==> forall|c: ConnId| old(self).has_conn(c)
                ==> final(self).outbound_of(c)
                    == if old(self).paths_of(user_id).contains(c) {
                        old(self).outbound_of(c).push(event@)
                    } else {
                        old(self).outbound_of(c)
                    },
    {
        let ui = match self.find_user_index(user_id) {
            None => {
                return;
            },
            Some(i) => i,
        };
        proof {
            lemma_user_lookup(*old(self), user_id, ui as int);
        }
        let n = self.presence[ui].paths.len();
        let ghost paths = old(self).paths_of(user_id);
        let mut j: usize = 0;
        while j < n
            invariant
                old(self).wf(),
                self.wf(),
                self.topics == old(self).topics,
                self.presence == old(self).presence,
                self.next_conn == old(self).next_conn,
                ui < self.presence@.len(),
                old(self).has_user(user_id),
                old(self).user_index(user_id) == ui as int,
                paths == old(self).paths_of(user_id),
                paths == self.presence@[ui as int].paths@,
                n == paths.len(),
                j <= n,
                forall|c: ConnId| self.has_conn(c) == old(self).has_conn(c),
                forall|c: ConnId| #[trigger] old(self).has_conn(c)
                    ==> self.outbound_of(c)
                        == if paths.subrange(0, j as int).contains(c) {
                            old(self).outbound_of(c).push(event@)
                        } else {
                            old(self).outbound_of(c)
                        },
            decreases n - j,
        {
            let c = self.presence[ui].paths[j];
            let ghost prev = *self;
            self.push_outbound(c, event.clone());
            proof {
                assert(paths.subrange(0, j + 1).drop_last() =~= paths.subrange(0, j as int));
                assert(paths.subrange(0, j + 1).last() == paths[j as int]);
                // each earlier path differs from the one handled now
                assert(!paths.subrange(0, j as int).contains(c)) by {
                    if paths.subrange(0, j as int).contains(c) {
                        let k = choose|k: int|
                            0 <= k < j && #[trigger] paths.subrange(0, j as int)[k] == c;
                        assert(paths[k] == c);
                        assert(paths[j as int] == c);
                    }
                }
                assert forall|c2: ConnId| #[trigger] old(self).has_conn(c2) implies
                    self.outbound_of(c2)
                        == if paths.subrange(0, j + 1).contains(c2) {
                            old(self).outbound_of(c2).push(event@)
                        } else {
                            old(self).outbound_of(c2)
                        } by {
                    if c2 == c {
                        assert(paths.subrange(0, j + 1).contains(c2)) by {
                            assert(paths.subrange(0, j + 1)[j as int] == c);
                        }
                        assert(prev.outbound_of(c2) == old(self).outbound_of(c2));
                    } else {
                        assert(paths.subrange(0, j + 1).contains(c2)
                            == paths.subrange(0, j as int).contains(c2)) by {
                            if paths.subrange(0, j + 1).contains(c2) {
                                let k = choose|k: int|
                                    0 <= k < j + 1
                                        && #[trigger] paths.subrange(0, j + 1)[k] == c2;
                                assert(paths[k] == c2);
                                assert(k < j);
                                assert(paths.subrange(0, j as int)[k] == c2);
                            }
                            if paths.subrange(0, j as int).contains(c2) {
                                let k = choose|k: int|
                                    0 <= k < j
                                        && #[trigger] paths.subrange(0, j as int)[k] == c2;
                                assert(paths.subrange(0, j + 1)[k] == c2);
                            }
                        }
                    }
                }
            }
            j = j + 1;
        }
        proof {
            assert(paths.subrange(0, n as int) =~= paths);
        }
    }

    /// The position of `conn`'s subscription within topic number `ti`,
    /// if present.
    fn find_sub_index(&self, ti: usize, conn: ConnId) -> (r: Option<usize>)
        requires
            ti < self.topics@.len(),
        ensures
            match r {
                Some(j) => j < self.topics@[ti as int].subs@.len()
                    && self.topics@[ti as int].subs@[j as int].conn == conn,
                None => !self.topics@[ti as int].has_sub(conn),
            },
    {
        let n = self.topics[ti].subs.len();
        let mut j: usize = 0;
        while j < n
            invariant
                ti < self.topics@.len(),
                n == self.topics@[ti as int].subs@.len(),
                j <= n,
                forall|k: int| 0 <= k < j
                    ==> (#[trigger] self.topics@[ti as int].subs@[k]).conn != conn,
            decreases n - j,
        {
            if self.topics[ti].subs[j].conn == conn {
                return Some(j);
            }
            j = j + 1;
        }
        None
    }

    /// Broadcasts an event to all subscribers of a topic: the event joins
    /// the topic history and every subscriber's window, dropping the
    /// oldest undelivered event of a full window. Never blocks, whatever
    /// the subscribers' backlog; publishing to a topic nobody has ever
    /// subscribed to is a silent no-op.
    pub fn broadcast_to_channel(&mut self, channel_id: TopicId, event: &WsEvent)
        requires
            old(self).wf(),
        ensures
            final(self).wf(),
            final(self).presence == old(self).presence,
            final(self).outbound == old(self).outbound,
            final(self).next_conn == old(self).next_conn,
            !old(self).has_topic(channel_id) ==> *final(self) == *old(self),
            forall|t2: TopicId| final(self).has_topic(t2) == old(self).has_topic(t2),
            old(self).has_topic(channel_id) ==> {
                &&& final(self).history_of(channel_id)
                    == old(self).history_of(channel_id).push(event@)
                &&& forall|c: ConnId| final(self).is_subscribed(channel_id, c)
                    == old(self).is_subscribed(channel_id, c)
                &&& forall|c: ConnId| old(self).is_subscribed(channel_id, c)
                    ==> final(self).pending_of(channel_id, c)
                        == fanout_push(old(self).pending_of(channel_id, c), event@)
            },
            forall|t2: TopicId| t2 != channel_id && old(self).has_topic(t2)
                ==> final(self).topic_at(t2) == old(self).topic_at(t2),
    {
        let ti = match self.find_topic_index(channel_id) {
            None => {
                return;
            },
            Some(i) => i,
        };
        proof {
            lemma_topic_lookup(*old(self), channel_id, ti as int);
        }
        let t = &mut self.topics[ti];
        t.publish(event);
        proof {
            let s1 = *self;
            let oldt = old(self).topics@[ti as int];
            let newt = s1.topics@[ti as int];
            assert(forall|k: int| 0 <= k < s1.topics@.len() && k != ti
                ==> s1.topics@[k] == old(self).topics@[k]);
            assert(s1.wf());
            lemma_topic_lookup(s1, channel_id, ti as int);
            assert(s1.topic_at(channel_id) == newt);
            assert forall|t2: TopicId| #![auto] t2 != channel_id implies
                s1.has_topic(t2) == old(self).has_topic(t2)
                && (old(self).has_topic(t2)
                    ==> s1.topic_at(t2) == old(self).topic_at(t2)) by {
                if old(self).has_topic(t2) {
                    let k = old(self).topic_index(t2);
                    assert(k != ti);
                    lemma_topic_lookup(s1, t2, k);
                }
                if s1.has_topic(t2) {
                    let k = s1.topic_index(t2);
                    assert(k != ti);
                    lemma_topic_lookup(*old(self), t2, k);
                }
            }
            // subscriptions and windows of this topic
            assert forall|c: ConnId| #![auto] s1.is_subscribed(channel_id, c)
                == old(self).is_subscribed(channel_id, c)
                && (old(self).is_subscribed(channel_id, c)
                    ==> s1.pending_of(channel_id, c)
                        == fanout_push(old(self).pending_of(channel_id, c), event@)) by {
                if old(self).is_subscribed(channel_id, c) {
                    let k = oldt.sub_index(c);
                    lemma_sub_lookup(oldt, c, k);
                    lemma_sub_lookup(newt, c, k);
                }
                if newt.has_sub(c) {
                    let k = newt.sub_index(c);
                    lemma_sub_lookup(newt, c, k);
                    lemma_sub_lookup(oldt, c, k);
                }
            }
        }
    }

    /// Registers `conn` as a subscriber of the topic, creating the topic's
    /// fan-out point if it never existed. Subscribing is idempotent: a
    /// connection already subscribed sees no change at all. A fresh
    /// subscription starts with an empty window: no replay of history.
    pub fn subscribe(&mut self, channel_id: TopicId, conn: ConnId)
        requires
            old(self).wf(),
            conn < old(self).next_conn,
        ensures
            final(self).wf(),
            final(self).presence == old(self).presence,
            final(self).outbound == old(self).outbound,
            final(self).next_conn == old(self).next_conn,
            final(self).has_topic(channel_id),
            final(self).is_subscribed(channel_id, conn),
            old(self).is_subscribed(channel_id, conn) ==> *final(self) == *old(self),
            !old(self).is_subscribed(channel_id, conn) ==> {
                &&& final(self).pending_of(channel_id, conn) == Seq::<WsEventV>::empty()
                &&& final(self).history_of(channel_id) == if old(self).has_topic(channel_id) {
                    old(self).history_of(channel_id)
                } else {
                    Seq::<WsEventV>::empty()
                }
                &&& forall|c2: ConnId| c2 != conn
                    ==> final(self).is_subscribed(channel_id, c2)
                        == old(self).is_subscribed(channel_id, c2)
                &&& forall|c2: ConnId| c2 != conn && old(self).is_subscribed(channel_id, c2)
                    ==> final(self).pending_of(channel_id, c2)
                        == old(self).pending_of(channel_id, c2)
            },
            forall|t2: TopicId| t2 != channel_id
                ==> final(self).has_topic(t2) == old(self).has_topic(t2),
            forall|t2: TopicId| t2 != channel_id && old(self).has_topic(t2)
                ==> final(self).topic_at(t2) == old(self).topic_at(t2),
    {
        self.get_or_create_channel(channel_id);
        let ghost mid = *self;
        let ti = match self.find_topic_index(channel_id) {
            None => {
                proof {
                    assert(false);
                }
                return;
            },
            Some(i) => i,
        };
        proof {
            lemma_topic_lookup(mid, channel_id, ti as int);
        }
        // look for an existing subscription of this connection
        match self.find_sub_index(ti, conn) {
            Some(j) => {
                proof {
                    lemma_sub_lookup(mid.topics@[ti as int], conn, j as int);
                    assert(mid.is_subscribed(channel_id, conn));
                    assert(old(self).has_topic(channel_id));
                    assert(*old(self) == mid);
                }
                return;
            },
            None => {},
        }
        assert(!mid.topic_at(channel_id).has_sub(conn));
        assert(!old(self).is_subscribed(channel_id, conn));
        let t = &mut self.topics[ti];
        t.subs.push(Subscription { conn, pending: Vec::new() });
        proof {
            let s1 = *self;
            let oldt = mid.topics@[ti as int];
            let newt = s1.topics@[ti as int];
            let last = newt.subs@.len() - 1;
            assert(newt.subs@[last].conn == conn);
            assert(newt.subs@[last].pending@.len() == 0);
            assert(forall|k: int| 0 <= k < last ==> newt.subs@[k] == oldt.subs@[k]);
            assert(events_view(newt.subs@[last].pending@)
                =~= newt.history@.skip(newt.history@.len() - 0));
            assert(newt.wf());
            assert(forall|k: int| 0 <= k < s1.topics@.len() && k != ti
                ==> s1.topics@[k] == mid.topics@[k]);
            assert(s1.wf());
            lemma_topic_lookup(s1, channel_id, ti as int);
            lemma_sub_lookup(newt, conn, last);
            assert(s1.pending_of(channel_id, conn) =~= Seq::<WsEventV>::empty());
            assert forall|c2: ConnId| #![auto] c2 != conn implies
                s1.is_subscribed(channel_id, c2) == mid.is_subscribed(channel_id, c2)
                && (mid.is_subscribed(channel_id, c2)
                    ==> s1.pending_of(channel_id, c2)
                        == mid.pending_of(channel_id, c2)) by {
                if mid.is_subscribed(channel_id, c2) {
                    let k = oldt.sub_index(c2);
                    lemma_sub_lookup(oldt, c2, k);
                    lemma_sub_lookup(newt, c2, k);
                }
                if newt.has_sub(c2) {
                    let k = newt.sub_index(c2);
                    lemma_sub_lookup(newt, c2, k);
                    assert(k != last);
                    lemma_sub_lookup(oldt, c2, k);
                }
            }
            assert forall|t2: TopicId| #![auto] t2 != channel_id implies
                s1.has_topic(t2) == mid.has_topic(t2)
                && (mid.has_topic(t2) ==> s1.topic_at(t2) == mid.topic_at(t2)) by {
                if mid.has_topic(t2) {
                    let k = mid.topic_index(t2);
                    assert(k != ti);
                    lemma_topic_lookup(s1, t2, k);
                }
                if s1.has_topic(t2) {
                    let k = s1.topic_index(t2);
                    assert(k != ti);
                    lemma_topic_lookup(mid, t2, k);
                }
            }
        }
    }

    /// Removes `conn`'s subscription to the topic, stopping any further
    /// fan-out to it from that topic. Unsubscribing from a topic never
    /// subscribed to is a silent no-op.
    pub fn unsubscribe(&mut self, channel_id: TopicId, conn: ConnId)
        requires
            old(self).wf(),
        ensures
            final(self).wf(),
            final(self).presence == old(self).presence,
            final(self).outbound == old(self).outbound,
            final(self).next_conn == old(self).next_conn,
            !old(self).is_subscribed(channel_id, conn) ==> *final(self) == *old(self),
            forall|t2: TopicId| final(self).has_topic(t2) == old(self).has_topic(t2),
            old(self).is_subscribed(channel_id, conn) ==> {
                &&& !final(self).is_subscribed(channel_id, conn)
                &&& final(self).history_of(channel_id) == old(self).history_of(channel_id)
                &&& forall|c2: ConnId| c2 != conn
                    ==> final(self).is_subscribed(channel_id, c2)
                        == old(self).is_subscribed(channel_id, c2)
                &&& forall|c2: ConnId| c2 != conn && old(self).is_subscribed(channel_id, c2)
                    ==> final(self).pending_of(channel_id, c2)
                        == old(self).pending_of(channel_id, c2)
            },
            forall|t2: TopicId| t2 != channel_id && old(self).has_topic(t2)
                ==> final(self).topic_at(t2) == old(self).topic_at(t2),
    {
        let ti = match self.find_topic_index(channel_id) {
            None => {
                return;
            },
            Some(i) => i,
        };
        proof {
            lemma_topic_lookup(*old(self), channel_id, ti as int);
        }
        let ghost oldt = old(self).topics@[ti as int];
        let j = match self.find_sub_index(ti, conn) {
            None => {
                proof {
                    assert(!oldt.has_sub(conn));
                    assert(!old(self).is_subscribed(channel_id, conn));
                }
                return;
            },
            Some(j) => j,
        };
        {
            {
                let t = &mut self.topics[ti];
                t.subs.remove(j);
                proof {
                    lemma_sub_lookup(oldt, conn, j as int);
                }
            }
                proof {
                    let s1 = *self;
                    let newt = s1.topics@[ti as int];
                    oldt.subs@.remove_ensures(j as int);
                    assert(newt.subs@ == oldt.subs@.remove(j as int));
                    // distinctness and window facts survive the removal
                    assert forall|k1: int, k2: int| 0 <= k1 < k2 < newt.subs@.len() implies
                        (#[trigger] newt.subs@[k1]).conn
                            != (#[trigger] newt.subs@[k2]).conn by {
                        let m1: int = if k1 < j { k1 } else { k1 + 1 };
                        let m2: int = if k2 < j { k2 } else { k2 + 1 };
                        assert(newt.subs@[k1] == oldt.subs@[m1]);
                        assert(newt.subs@[k2] == oldt.subs@[m2]);
                    }
                    assert forall|k: int| 0 <= k < newt.subs@.len() implies
                        (#[trigger] newt.subs@[k]).pending@.len() <= FANOUT_CAPACITY
                        && newt.subs@[k].pending@.len() <= newt.history@.len()
                        && events_view(newt.subs@[k].pending@)
                            == newt.history@.skip(
                                newt.history@.len() - newt.subs@[k].pending@.len()) by {
                        let m: int = if k < j { k } else { k + 1 };
                        assert(newt.subs@[k] == oldt.subs@[m]);
                    }
                    assert(newt.wf());
                    assert(forall|k: int| 0 <= k < s1.topics@.len() && k != ti
                        ==> s1.topics@[k] == old(self).topics@[k]);
                    assert(s1.wf());
                    lemma_topic_lookup(s1, channel_id, ti as int);
                    assert(!newt.has_sub(conn)) by {
                        if newt.has_sub(conn) {
                            let k = newt.sub_index(conn);
                            let m: int = if k < j { k } else { k + 1 };
                            assert(oldt.subs@[m].conn == conn);
                            lemma_sub_lookup(oldt, conn, m);
                        }
                    }
                    assert forall|c2: ConnId| #![auto] c2 != conn implies
                        s1.is_subscribed(channel_id, c2)
                            == old(self).is_subscribed(channel_id, c2)
                        && (old(self).is_subscribed(channel_id, c2)
                            ==> s1.pending_of(channel_id, c2)
                                == old(self).pending_of(channel_id, c2)) by {
                        if old(self).is_subscribed(channel_id, c2) {
                            let k = oldt.sub_index(c2);
                            lemma_sub_lookup(oldt, c2, k);
                            assert(k != j);
                            let m: int = if k < j { k } else { k - 1 };
                            assert(newt.subs@[m] == oldt.subs@[k]);
                            lemma_sub_lookup(newt, c2, m);
                        }
                        if newt.has_sub(c2) {
                            let k = newt.sub_index(c2);
                            lemma_sub_lookup(newt, c2, k);
                            let m: int = if k < j { k } else { k + 1 };
                            assert(oldt.subs@[m].conn == c2);
                            lemma_sub_lookup(oldt, c2, m);
                        }
                    }
                    assert forall|t2: TopicId| #![auto] t2 != channel_id implies
                        s1.has_topic(t2) == old(self).has_topic(t2)
                        && (old(self).has_topic(t2)
                            ==> s1.topic_at(t2) == old(self).topic_at(t2)) by {
                        if old(self).has_topic(t2) {
                            let k = old(self).topic_index(t2);
                            assert(k != ti);
                            lemma_topic_lookup(s1, t2, k);
                        }
                        if s1.has_topic(t2) {
                            let k = s1.topic_index(t2);
                            assert(k != ti);
                            lemma_topic_lookup(*old(self), t2, k);
                        }
                    }
                }
        }
    }

    /// One step of a subscription's listener: moves the oldest event of
    /// the window onto the connection's delivery queue. Returns whether
    /// an event was moved.
    pub fn forward_subscription_event(&mut self, channel_id: TopicId, conn: ConnId)
        -> (moved: bool)
        requires
            old(self).wf(),
        ensures
            final(self).wf(),
            final(self).presence == old(self).presence,
            final(self).next_conn == old(self).next_conn,
            moved == (old(self).is_subscribed(channel_id, conn)
                && old(self).pending_of(channel_id, conn).len() > 0),
            !moved ==> *final(self) == *old(self),
            forall|t2: TopicId| final(self).has_topic(t2) == old(self).has_topic(t2),
            forall|c2: ConnId| final(self).has_conn(c2) == old(self).has_conn(c2),
            moved ==> {
                &&& final(self).pending_of(channel_id, conn)
                    == old(self).pending_of(channel_id, conn).skip(1)
                &&& final(self).history_of(channel_id) == old(self).history_of(channel_id)
                &&& forall|c2: ConnId| final(self).is_subscribed(channel_id, c2)
                    == old(self).is_subscribed(channel_id, c2)
                &&& forall|c2: ConnId| c2 != conn && old(self).is_subscribed(channel_id, c2)
                    ==> final(self).pending_of(channel_id, c2)
                        == old(self).pending_of(channel_id, c2)
                &&& forall|t2: TopicId| t2 != channel_id && old(self).has_topic(t2)
                    ==> final(self).topic_at(t2) == old(self).topic_at(t2)
                &&& old(self).has_conn(conn)
                    ==> final(self).outbound_of(conn)
                        == old(self).outbound_of(conn).push(
                            old(self).pending_of(channel_id, conn)[0])
                &&& !old(self).has_conn(conn) ==> final(self).outbound == old(self).outbound
                &&& forall|c2: ConnId| c2 != conn && old(self).has_conn(c2)
                    ==> final(self).outbound_of(c2) == old(self).outbound_of(c2)
            },
    {
        let ti = match self.find_topic_index(channel_id) {
            None => {
                return false;
            },
            Some(i) => i,
        };
        proof {
            lemma_topic_lookup(*old(self), channel_id, ti as int);
        }
        let ghost oldt = old(self).topics@[ti as int];
        // locate this connection's subscription
        let found = match self.find_sub_index(ti, conn) {
            None => {
                proof {
                    assert(!oldt.has_sub(conn));
                }
                return false;
            },
            Some(j) => j,
        };
        proof {
            lemma_sub_lookup(oldt, conn, found as int);
        }
        if self.topics[ti].subs[found].pending.len() == 0 {
            proof {
                assert(old(self).pending_of(channel_id, conn).len() == 0);
            }
            return false;
        }
        let t = &mut self.topics[ti];
        let sb = &mut t.subs[found];
        let e = sb.pending.remove(0);
        proof {
            let s1 = *self;
            let newt = s1.topics@[ti as int];
            let oldp = oldt.subs@[found as int].pending@;
            oldp.remove_ensures(0);
            assert(newt.subs@[found as int].pending@ =~= oldp.skip(1));
            assert(e@ == events_view(oldp)[0]);
            assert(events_view(oldp.skip(1)) =~= events_view(oldp).skip(1));
            // the shortened window is still a suffix of the history
            assert(events_view(oldp).skip(1)
                =~= newt.history@.skip(newt.history@.len() - (oldp.len() - 1)));
            assert(forall|k: int| 0 <= k < newt.subs@.len() && k != found
                ==> newt.subs@[k] == oldt.subs@[k]);
            assert(newt.wf());
            assert(forall|k: int| 0 <= k < s1.topics@.len() && k != ti
                ==> s1.topics@[k] == old(self).topics@[k]);
            assert(s1.wf());
        }
        let ghost mid = *self;
        self.push_outbound(conn, e);
        proof {
            let s1 = *self;
            let newt = mid.topics@[ti as int];
            assert(s1.topics == mid.topics);
            lemma_topic_lookup(mid, channel_id, ti as int);
            lemma_topic_lookup(s1, channel_id, ti as int);
            lemma_sub_lookup(newt, conn, found as int);
            assert(s1.pending_of(channel_id, conn)
                =~= old(self).pending_of(channel_id, conn).skip(1));
            assert forall|c2: ConnId| #![auto] s1.is_subscribed(channel_id, c2)
                == old(self).is_subscribed(channel_id, c2)
                && (c2 != conn && old(self).is_subscribed(channel_id, c2)
                    ==> s1.pending_of(channel_id, c2)
                        == old(self).pending_of(channel_id, c2)) by {
                if old(self).is_subscribed(channel_id, c2) {
                    let k = oldt.sub_index(c2);
                    lemma_sub_lookup(oldt, c2, k);
                    lemma_sub_lookup(newt, c2, k);
                }
                if newt.has_sub(c2) {
                    let k = newt.sub_index(c2);
                    lemma_sub_lookup(newt, c2, k);
                    lemma_sub_lookup(oldt, c2, k);
                }
            }
            assert forall|t2: TopicId| #![auto] s1.has_topic(t2) == old(self).has_topic(t2)
                && (t2 != channel_id && old(self).has_topic(t2)
                    ==> s1.topic_at(t2) == old(self).topic_at(t2)) by {
                if old(self).has_topic(t2) {
                    let k = old(self).topic_index(t2);
                    lemma_topic_lookup(s1, t2, k);
                }
                if s1.has_topic(t2) {
                    let k = s1.topic_index(t2);
                    lemma_topic_lookup(*old(self), t2, k);
                }
            }
        }
        true
    }

    /// One step of a connection's forwarder: takes the next outbound
    /// event for the socket writer, if any.
    pub fn pop_outbound(&mut self, conn: ConnId) -> (r: Option<WsEvent>)
        requires
            old(self).wf(),
        ensures
            final(self).wf(),
            final(self).topics == old(self).topics,
            final(self).presence == old(self).presence,
            final(self).next_conn == old(self).next_conn,
            forall|c2: ConnId| final(self).has_conn(c2) == old(self).has_conn(c2),
            match r {
                Some(e) => {
                    &&& old(self).has_conn(conn)
                    &&& old(self).outbound_of(conn).len() > 0
                    &&& e@ == old(self).outbound_of(conn)[0]
                    &&& final(self).outbound_of(conn) == old(self).outbound_of(conn).skip(1)
                    &&& forall|c2: ConnId| c2 != conn && old(self).has_conn(c2)
                        ==> final(self).outbound_of(c2) == old(self).outbound_of(c2)
                },
                None => {
                    &&& !old(self).has_conn(conn) || old(self).outbound_of(conn).len() == 0
                    &&& *final(self) == *old(self)
                },
            },
    {
        let i = match self.find_conn_index(conn) {
            None => {
                return None;
            },
            Some(i) => i,
        };
        proof {
            lemma_conn_lookup(*old(self), conn, i as int);
        }
        if self.outbound[i].queue.len() == 0 {
            return None;
        }
        let q = &mut self.outbound[i];
        let e = q.queue.remove(0);
        proof {
            let s1 = *self;
            let oldq = old(self).outbound@[i as int].queue@;
            oldq.remove_ensures(0);
            assert(s1.outbound@[i as int].queue@ =~= oldq.skip(1));
            assert(e@ == events_view(oldq)[0]);
            assert(events_view(oldq.skip(1)) =~= events_view(oldq).skip(1));
            assert(forall|k: int| 0 <= k < s1.outbound@.len() && k != i
                ==> s1.outbound@[k] == old(self).outbound@[k]);
            assert(s1.wf());
            lemma_conn_lookup(s1, conn, i as int);
            assert forall|c2: ConnId| #![auto] c2 != conn implies
                s1.has_conn(c2) == old(self).has_conn(c2)
                && (old(self).has_conn(c2)
                    ==> s1.outbound_of(c2) == old(self).outbound_of(c2)) by {
                if old(self).has_conn(c2) {
                    let k = old(self).conn_index(c2);
                    assert(k != i);
                    lemma_conn_lookup(s1, c2, k);
                }
                if s1.has_conn(c2) {
                    let k = s1.conn_index(c2);
                    assert(k != i);
                    lemma_conn_lookup(*old(self), c2, k);
                }
            }
        }
        Some(e)
    }

    /// Drops a closed connection's delivery queue, with everything still
    /// undelivered in it. Dropping an unknown connection is a no-op.
    pub fn drop_outbound_queue(&mut self, conn: ConnId)
        requires
            old(self).wf(),
        ensures
            final(self).wf(),
            final(self).topics == old(self).topics,
            final(self).presence == old(self).presence,
            final(self).next_conn == old(self).next_conn,
            !final(self).has_conn(conn),
            !old(self).has_conn(conn) ==> *final(self) == *old(self),
            forall|c2: ConnId| c2 != conn
                ==> final(self).has_conn(c2) == old(self).has_conn(c2),
            forall|c2: ConnId| c2 != conn && old(self).has_conn(c2)
                ==> final(self).outbound_of(c2) == old(self).outbound_of(c2),
    {
        let i = match self.find_conn_index(conn) {
            None => {
                return;
            },
            Some(i) => i,
        };
        proof {
            lemma_conn_lookup(*old(self), conn, i as int);
        }
        self.outbound.remove(i);
        proof {
            let s1 = *self;
            let oldq = old(self).outbound@;
            oldq.remove_ensures(i as int);
            assert(s1.outbound@ == oldq.remove(i as int));
            assert forall|k1: int, k2: int| 0 <= k1 < k2 < s1.outbound@.len() implies
                (#[trigger] s1.outbound@[k1]).conn
                    != (#[trigger] s1.outbound@[k2]).conn by {
                let m1: int = if k1 < i { k1 } else { k1 + 1 };
                let m2: int = if k2 < i { k2 } else { k2 + 1 };
                assert(s1.outbound@[k1] == oldq[m1]);
                assert(s1.outbound@[k2] == oldq[m2]);
            }
            assert forall|k: int| 0 <= k < s1.outbound@.len() implies
                (#[trigger] s1.outbound@[k]).conn < s1.next_conn by {
                let m: int = if k < i { k } else { k + 1 };
                assert(s1.outbound@[k] == oldq[m]);
            }
            assert(s1.wf());
            assert(!s1.has_conn(conn)) by {
                if s1.has_conn(conn) {
                    let k = s1.conn_index(conn);
                    let m: int = if k < i { k } else { k + 1 };
                    assert(oldq[m].conn == conn);
                    lemma_conn_lookup(*old(self), conn, m);
                }
            }
            assert forall|c2: ConnId| #![auto] c2 != conn implies
                s1.has_conn(c2) == old(self).has_conn(c2)
                && (old(self).has_conn(c2)
                    ==> s1.outbound_of(c2) == old(self).outbound_of(c2)) by {
                if old(self).has_conn(c2) {
                    let k = old(self).conn_index(c2);
                    assert(k != i);
                    let m: int = if k < i { k } else { k - 1 };
                    assert(s1.outbound@[m] == oldq[k]);
                    lemma_conn_lookup(s1, c2, m);
                }
                if s1.has_conn(c2) {
                    let k = s1.conn_index(c2);
                    let m: int = if k < i { k } else { k + 1 };
                    assert(oldq[m].conn == c2);
                    lemma_conn_lookup(*old(self), c2, m);
                }
            }
        }
    }

    /// Whether some open delivery path of user `u` holds a subscription
    /// to topic `t`.
    pub open spec fn user_subscribed(self, u: UserId, t: TopicId) -> bool {
        exists|k: int| 0 <= k < self.paths_of(u).len()
            && self.is_subscribed(t, #[trigger] self.paths_of(u)[k])
    }

    /// Whether the user currently holds, on any device, an active
    /// subscription to the topic.
    pub fn user_is_subscribed(&self, u: UserId, t: TopicId) -> (r: bool)
        requires
            self.wf(),
        ensures
            r == (self.has_user(u) && self.user_subscribed(u, t)),
    {
        let ui = match self.find_user_index(u) {
            None => {
                return false;
            },
            Some(i) => i,
        };
        proof {
            lemma_user_lookup(*self, u, ui as int);
        }
        let ti = match self.find_topic_index(t) {
            None => {
                proof {
                    assert(!self.user_subscribed(u, t));
                }
                return false;
            },
            Some(i) => i,
        };
        proof {
            lemma_topic_lookup(*self, t, ti as int);
        }
        let n = self.presence[ui].paths.len();
        let mut k: usize = 0;
        while k < n
            invariant
                self.wf(),
                ui < self.presence@.len(),
                self.presence@[ui as int].user == u,
                self.user_index(u) == ui as int,
                self.has_user(u),
                ti < self.topics@.len(),
                self.topics@[ti as int].id == t,
                self.topic_index(t) == ti as int,
                self.has_topic(t),
                n == self.paths_of(u).len(),
                k <= n,
                forall|m: int| 0 <= m < k
                    ==> !self.is_subscribed(t, #[trigger] self.paths_of(u)[m]),
            decreases n - k,
        {
            let c = self.presence[ui].paths[k];
            match self.find_sub_index(ti, c) {
                Some(j) => {
                    proof {
                        lemma_sub_lookup(self.topics@[ti as int], c, j as int);
                        assert(self.is_subscribed(t, c));
                        assert(self.paths_of(u)[k as int] == c);
                    }
                    return true;
                },
                None => {},
            }
            k = k + 1;
        }
        false
    }

    /// Whether the user has at least one open delivery path.
    pub fn user_is_connected(&self, user_id: UserId) -> (r: bool)
        ensures
            r == self.has_user(user_id),
    {
        let n = self.presence.len();
        let mut i: usize = 0;
        while i < n
            invariant
                n == self.presence@.len(),
                i <= n,
                forall|k: int| 0 <= k < i ==> (#[trigger] self.presence@[k]).user != user_id,
            decreases n - i,
        {
            if self.presence[i].user == user_id {
                return true;
            }
            i = i + 1;
        }
        false
    }
}


/// The fan-out ordering guarantee of one topic: every subscriber's window
/// of undelivered events is a suffix of the topic's publish history, so
/// any two subscribers hold the events they still see in the same relative
/// order — the shorter window is itself a suffix of the longer one.
pub proof fn lemma_fanout_order(s: WsState, t: TopicId, c1: ConnId, c2: ConnId)
    requires
        s.wf(),
        s.is_subscribed(t, c1),
        s.is_subscribed(t, c2),
    ensures
        s.pending_of(t, c1)
            == s.history_of(t).skip(s.history_of(t).len() - s.pending_of(t, c1).len()),
        s.pending_of(t, c2)
            == s.history_of(t).skip(s.history_of(t).len() - s.pending_of(t, c2).len()),
        s.pending_of(t, c1).len() <= s.pending_of(t, c2).len()
            ==> s.pending_of(t, c1)
                == s.pending_of(t, c2).skip(
                    s.pending_of(t, c2).len() - s.pending_of(t, c1).len()),
{
    let h = s.history_of(t);
    let ti = s.topic_index(t);
    let tp = s.topics@[ti];
    let k1 = tp.sub_index(c1);
    let k2 = tp.sub_index(c2);
    assert(0 <= k1 < tp.subs@.len() && tp.subs@[k1].conn == c1);
    assert(0 <= k2 < tp.subs@.len() && tp.subs@[k2].conn == c2);
    let wa = s.pending_of(t, c1);
    let wb = s.pending_of(t, c2);
    assert(wa == events_view(tp.subs@[k1].pending@));
    assert(wb == events_view(tp.subs@[k2].pending@));
    assert(wa.len() == tp.subs@[k1].pending@.len());
    assert(wb.len() == tp.subs@[k2].pending@.len());
    assert(wa == h.skip(h.len() - wa.len()));
    assert(wb == h.skip(h.len() - wb.len()));
    if wa.len() <= wb.len() {
        assert(wb.skip(wb.len() - wa.len()) =~= h.skip(h.len() - wa.len()));
    }
}


/// Two well-formed states with the same topic store agree on every
/// topic and subscription accessor.
pub proof fn lemma_topic_accessors(a: WsState, b: WsState)
    requires
        a.wf(),
        b.wf(),
        a.topics == b.topics,
    ensures
        forall|t: TopicId| a.has_topic(t) == b.has_topic(t),
        forall|t: TopicId| a.has_topic(t) ==> a.topic_at(t) == b.topic_at(t),
        forall|t: TopicId| a.has_topic(t) ==> a.history_of(t) == b.history_of(t),
        forall|t: TopicId, c: ConnId|
            #[trigger] a.is_subscribed(t, c) == b.is_subscribed(t, c),
        forall|t: TopicId, c: ConnId| #[trigger] a.is_subscribed(t, c)
            ==> a.pending_of(t, c) == b.pending_of(t, c),
{
    assert forall|t: TopicId| a.has_topic(t) == b.has_topic(t)
        && (a.has_topic(t) ==> a.topic_at(t) == b.topic_at(t)) by {
        if a.has_topic(t) {
            let i = a.topic_index(t);
            assert(b.topics@[i].id == t);
            lemma_topic_lookup(b, t, i);
        }
        if b.has_topic(t) {
            let i = b.topic_index(t);
            assert(a.topics@[i].id == t);
            lemma_topic_lookup(a, t, i);
        }
    }
}

/// Two well-formed states with the same presence store agree on every
/// presence accessor.
pub proof fn lemma_presence_accessors(a: WsState, b: WsState)
    requires
        a.wf(),
        b.wf(),
        a.presence == b.presence,
    ensures
        forall|u: UserId| a.has_user(u) == b.has_user(u),
        forall|u: UserId| a.has_user(u) ==> a.paths_of(u) == b.paths_of(u),
{
    assert forall|u: UserId| a.has_user(u) == b.has_user(u)
        && (a.has_user(u) ==> a.paths_of(u) == b.paths_of(u)) by {
        if a.has_user(u) {
            let i = a.user_index(u);
            assert(b.presence@[i].user == u);
            lemma_user_lookup(b, u, i);
        }
        if b.has_user(u) {
            let i = b.user_index(u);
            assert(a.presence@[i].user == u);
            lemma_user_lookup(a, u, i);
        }
    }
}

/// Two well-formed states with the same delivery queues agree on every
/// outbound accessor.
pub proof fn lemma_outbound_accessors(a: WsState, b: WsState)
    requires
        a.wf(),
        b.wf(),
        a.outbound == b.outbound,
    ensures
        forall|c: ConnId| a.has_conn(c) == b.has_conn(c),
        forall|c: ConnId| a.has_conn(c) ==> a.outbound_of(c) == b.outbound_of(c),
{
    assert forall|c: ConnId| a.has_conn(c) == b.has_conn(c)
        && (a.has_conn(c) ==> a.outbound_of(c) == b.outbound_of(c)) by {
        if a.has_conn(c) {
            let i = a.conn_index(c);
            assert(b.outbound@[i].conn == c);
            lemma_conn_lookup(b, c, i);
        }
        if b.has_conn(c) {
            let i = b.conn_index(c);
            assert(a.outbound@[i].conn == c);
            lemma_conn_lookup(a, c, i);
        }
    }
}

/// Two well-formed states with the same topic and presence stores agree
/// on every topic, subscription and presence accessor.
pub proof fn lemma_state_accessors(a: WsState, b: WsState)
    requires
        a.wf(),
        b.wf(),
        a.topics == b.topics,
        a.presence == b.presence,
    ensures
        forall|t: TopicId| a.has_topic(t) == b.has_topic(t),
        forall|t: TopicId| a.has_topic(t) ==> a.topic_at(t) == b.topic_at(t),
        forall|t: TopicId| a.has_topic(t) ==> a.history_of(t) == b.history_of(t),
        forall|t: TopicId, c: ConnId|
            #[trigger] a.is_subscribed(t, c) == b.is_subscribed(t, c),
        forall|t: TopicId, c: ConnId| #[trigger] a.is_subscribed(t, c)
            ==> a.pending_of(t, c) == b.pending_of(t, c),
        forall|u: UserId| a.has_user(u) == b.has_user(u),
        forall|u: UserId| a.has_user(u) ==> a.paths_of(u) == b.paths_of(u),
        forall|u: UserId, t: TopicId|
            #[trigger] a.user_subscribed(u, t) == b.user_subscribed(u, t),
{
    lemma_topic_accessors(a, b);
    lemma_presence_accessors(a, b);
    assert forall|u: UserId, t: TopicId|
        #[trigger] a.user_subscribed(u, t) == b.user_subscribed(u, t) by {
        if a.has_user(u) {
            if a.user_subscribed(u, t) {
                let k = choose|k: int| 0 <= k < a.paths_of(u).len()
                    && a.is_subscribed(t, #[trigger] a.paths_of(u)[k]);
                assert(b.is_subscribed(t, b.paths_of(u)[k]));
            }
            if b.user_subscribed(u, t) {
                let k = choose|k: int| 0 <= k < b.paths_of(u).len()
                    && b.is_subscribed(t, #[trigger] b.paths_of(u)[k]);
                assert(a.is_subscribed(t, a.paths_of(u)[k]));
            }
        }
    }
}



} // verus!
