//! The per-connection session state machine.
//!
//! A session moves through `Authenticating` (waiting for the identify
//! frame), `Active` (reading and dispatching client events) and `Closed`.
//! The embedding process performs the socket reads, the token
//! verification, and the storage calls; the session decides, from its
//! state and each decoded frame or collaborator result, what changes in
//! the registries and what is sent where.

use vstd::prelude::*;
use crate::ids::{UserId, TopicId, ConnId};
use crate::events::{ClientEvent, WsEvent, WsEventV};
use crate::models::ProfileSummary;
use crate::registry::{WsState, lemma_state_accessors, lemma_topic_accessors, lemma_presence_accessors, lemma_outbound_accessors};

verus! {

/// Where a connection stands in its lifecycle.
#[derive(Clone, Copy, PartialEq, Eq, Structural, Debug)]
pub enum SessionPhase {
    /// The connection is up; the first frame has not identified it yet.
    Authenticating,
    /// Identified as `user`, registered under delivery path `conn`.
    Active { user: UserId, conn: ConnId },
    /// Torn down; nothing more happens on this session.
    Closed,
}

/// A topic list without duplicates.
pub open spec fn distinct_ids(s: Seq<TopicId>) -> bool {
    forall|i: int, j: int| 0 <= i < j < s.len() ==> s[i] != s[j]
}

/// Adds a topic to a subscription list, keeping membership idempotent:
/// a topic already present leaves the list untouched.
fn insert_topic(v: &mut Vec<TopicId>, t: TopicId)
    ensures
        final(v)@.contains(t),
        old(v)@.contains(t) ==> final(v)@ == old(v)@,
        !old(v)@.contains(t) ==> final(v)@ == old(v)@.push(t),
        forall|t2: TopicId| t2 != t ==> final(v)@.contains(t2) == old(v)@.contains(t2),
        distinct_ids(old(v)@) ==> distinct_ids(final(v)@),
{
    let n = v.len();
    let mut i: usize = 0;
    while i < n
        invariant
            n == v@.len(),
            i <= n,
            *v == *old(v),
            forall|k: int| 0 <= k < i ==> v@[k] != t,
        decreases n - i,
    {
        if v[i] == t {
            return;
        }
        i = i + 1;
    }
    assert(!v@.contains(t));
    v.push(t);
    proof {
        assert(final(v)@[final(v)@.len() - 1] == t);
        assert forall|t2: TopicId| t2 != t implies
            final(v)@.contains(t2) == old(v)@.contains(t2) by {
            if old(v)@.contains(t2) {
                let k = choose|k: int| 0 <= k < old(v)@.len() && old(v)@[k] == t2;
                assert(final(v)@[k] == t2);
            }
            if final(v)@.contains(t2) {
                let k = choose|k: int| 0 <= k < final(v)@.len() && final(v)@[k] == t2;
                assert(k < old(v)@.len());
                assert(old(v)@[k] == t2);
            }
        }
    }
}

/// Removes a topic from a subscription list; removing one never present
/// is a no-op.
fn remove_topic(v: &mut Vec<TopicId>, t: TopicId)
    requires
        distinct_ids(old(v)@),
    ensures
        !final(v)@.contains(t),
        !old(v)@.contains(t) ==> final(v)@ == old(v)@,
        forall|t2: TopicId| t2 != t ==> final(v)@.contains(t2) == old(v)@.contains(t2),
        distinct_ids(final(v)@),
{
    let n = v.len();
    let mut i: usize = 0;
    while i < n
        invariant
            n == v@.len(),
            i <= n,
            *v == *old(v),
            distinct_ids(old(v)@),
            forall|k: int| 0 <= k < i ==> v@[k] != t,
        decreases n - i,
    {
        if v[i] == t {
            v.remove(i);
            proof {
                let oldv = old(v)@;
                oldv.remove_ensures(i as int);
                let newv = final(v)@;
                assert(newv == oldv.remove(i as int));
                assert(!newv.contains(t)) by {
                    if newv.contains(t) {
                        let k = choose|k: int| 0 <= k < newv.len() && newv[k] == t;
                        let m: int = if k < i { k } else { k + 1 };
                        assert(oldv[m] == t);
                        assert(oldv[i as int] == t);
                    }
                }
                assert forall|t2: TopicId| t2 != t implies
                    newv.contains(t2) == oldv.contains(t2) by {
                    if oldv.contains(t2) {
                        let k = choose|k: int| 0 <= k < oldv.len() && oldv[k] == t2;
                        assert(k != i);
                        let m: int = if k < i { k } else { k - 1 };
                        assert(newv[m] == t2);
                    }
                    if newv.contains(t2) {
                        let k = choose|k: int| 0 <= k < newv.len() && newv[k] == t2;
                        let m: int = if k < i { k } else { k + 1 };
                        assert(oldv[m] == t2);
                    }
                }
                assert forall|k1: int, k2: int| 0 <= k1 < k2 < newv.len() implies
                    newv[k1] != newv[k2] by {
                    let m1: int = if k1 < i { k1 } else { k1 + 1 };
                    let m2: int = if k2 < i { k2 } else { k2 + 1 };
                    assert(newv[k1] == oldv[m1]);
                    assert(newv[k2] == oldv[m2]);
                }
            }
            return;
        }
        i = i + 1;
    }
    assert(!v@.contains(t));
}

/// A storage call the embedding process must perform before the session
/// can finish handling an event.
pub enum IoRequest {
    /// Persist a channel message, then report back through
    /// `message_persisted` or `message_persist_failed`.
    PersistMessage { channel_id: TopicId, content: String },
    /// Persist a direct message, then report back through
    /// `dm_persisted` or `dm_persist_failed`.
    PersistDm { dm_channel_id: TopicId, content: String },
    /// Fetch the author's profile summary, then call `typing_fetched`.
    FetchTypingAuthor { channel_id: TopicId },
    /// Persist the presence status (best effort), fetch the peers
    /// sharing a community, then call `broadcast_presence`.
    PersistPresence { status: String },
}

/// The per-connection session.
pub struct Session {
    pub phase: SessionPhase,
    pub subscribed_channels: Vec<TopicId>,
    pub subscribed_dms: Vec<TopicId>,
}

impl Session {
    /// Whether the session is past the handshake and not yet closed.
    pub open spec fn is_active(self) -> bool {
        self.phase matches SessionPhase::Active { .. }
    }

    /// The authenticated user, meaningful while active.
    pub open spec fn active_user(self) -> UserId {
        match self.phase {
            SessionPhase::Active { user, .. } => user,
            _ => 0,
        }
    }

    /// The delivery path of this session, meaningful while active.
    pub open spec fn active_conn(self) -> ConnId {
        match self.phase {
            SessionPhase::Active { conn, .. } => conn,
            _ => 0,
        }
    }

    /// The subscription lists hold each topic at most once.
    pub open spec fn wf(self) -> bool {
        distinct_ids(self.subscribed_channels@) && distinct_ids(self.subscribed_dms@)
    }

    /// A session fresh from the connection upgrade, waiting for the
    /// identify frame.
    pub fn new() -> (s: Session)
        ensures
            s.wf(),
            s.phase == SessionPhase::Authenticating,
            s.subscribed_channels@.len() == 0,
            s.subscribed_dms@.len() == 0,
    {
        Session {
            phase: SessionPhase::Authenticating,
            subscribed_channels: Vec::new(),
            subscribed_dms: Vec::new(),
        }
    }

    /// Decides on the first decoded frame of the connection. Only an
    /// `identify` frame carries the handshake on; any other frame — or
    /// one that did not decode — closes the session with an error frame,
    /// before anything is registered anywhere.
    pub fn first_frame(&mut self, frame: Option<ClientEvent>) -> (r: Option<String>)
        requires
            old(self).phase == SessionPhase::Authenticating,
        ensures
            final(self).subscribed_channels == old(self).subscribed_channels,
            final(self).subscribed_dms == old(self).subscribed_dms,
            match r {
                Some(tok) => {
                    &&& frame matches Some(ClientEvent::Identify { token }) && tok@ == token@
                    &&& final(self).phase == SessionPhase::Authenticating
                },
                None => {
                    &&& !(frame matches Some(ClientEvent::Identify { .. }))
                    &&& final(self).phase == SessionPhase::Closed
                },
            },
    {
        match frame {
            Some(ClientEvent::Identify { token }) => Some(token),
            _ => {
                self.phase = SessionPhase::Closed;
                None
            },
        }
    }

    /// The error frame sent when the first frame was not `identify`.
    pub fn handshake_error() -> (e: WsEvent)
        ensures
            e@ == (WsEventV::Error { message: "First message must be identify"@ }),
    {
        WsEvent::Error { message: "First message must be identify".to_owned() }
    }

    /// Takes the verifier's verdict on the identify token. Success
    /// registers the connection in the presence registry, moves the
    /// session to `Active` and yields the `ready` frame; failure closes
    /// the session with an error frame and leaves every registry
    /// untouched.
    pub fn identify_verified(
        &mut self,
        state: &mut WsState,
        verify_result: Result<UserId, String>,
    ) -> (r: WsEvent)
        requires
            old(self).phase == SessionPhase::Authenticating,
            old(state).wf(),
            old(state).next_conn < ConnId::MAX,
        ensures
            final(self).subscribed_channels == old(self).subscribed_channels,
            final(self).subscribed_dms == old(self).subscribed_dms,
            final(state).wf(),
            match verify_result {
                Ok(uid) => {
                    let c = old(state).next_conn;
                    &&& final(self).phase == (SessionPhase::Active { user: uid, conn: c })
                    &&& r@ == (WsEventV::Ready { user_id: uid })
                    &&& final(state).next_conn == c + 1
                    &&& !old(state).has_conn(c)
                    &&& final(state).has_conn(c)
                    &&& final(state).outbound_of(c) == Seq::<WsEventV>::empty()
                    &&& forall|c2: ConnId| c2 != c
                        ==> final(state).has_conn(c2) == old(state).has_conn(c2)
                    &&& forall|c2: ConnId| c2 != c && old(state).has_conn(c2)
                        ==> final(state).outbound_of(c2) == old(state).outbound_of(c2)
                    &&& final(state).has_user(uid)
                    &&& final(state).paths_of(uid) == if old(state).has_user(uid) {
                        old(state).paths_of(uid).push(c)
                    } else {
                        seq![c]
                    }
                    &&& forall|u2: UserId| u2 != uid
                        ==> final(state).has_user(u2) == old(state).has_user(u2)
                    &&& forall|u2: UserId| u2 != uid && old(state).has_user(u2)
                        ==> final(state).paths_of(u2) == old(state).paths_of(u2)
                    &&& final(state).topics == old(state).topics
                },
                Err(msg) => {
                    &&& final(self).phase == SessionPhase::Closed
                    &&& *final(state) == *old(state)
                    &&& r@ == (WsEventV::Error { message: msg@ })
                },
            },
    {
        match verify_result {
            Ok(uid) => {
                let c = state.register_user(uid);
                self.phase = SessionPhase::Active { user: uid, conn: c };
                WsEvent::Ready { user_id: uid }
            },
            Err(msg) => {
                self.phase = SessionPhase::Closed;
                WsEvent::Error { message: msg }
            },
        }
    }

    /// Dispatches one decoded client event on an active session: the
    /// routing decision of the event router. Subscription bookkeeping is
    /// applied immediately and idempotently; events that need the storage
    /// collaborator return the call to make. A duplicate `identify` is
    /// accepted and ignored.
    pub fn handle_client_event(
        &mut self,
        state: &mut WsState,
        event: ClientEvent,
    ) -> (r: Option<IoRequest>)
        requires
            old(self).wf(),
            old(self).is_active(),
            old(state).wf(),
            old(self).active_conn() < old(state).next_conn,
        ensures
            final(self).wf(),
            final(state).wf(),
            final(self).phase == old(self).phase,
            final(state).next_conn == old(state).next_conn,
            final(state).presence == old(state).presence,
            final(state).outbound == old(state).outbound,
            match event {
                ClientEvent::Identify { .. } => {
                    &&& r matches None
                    &&& *final(self) == *old(self)
                    &&& *final(state) == *old(state)
                },
                ClientEvent::SubscribeChannel { channel_id } => {
                    &&& r matches None
                    &&& final(self).subscribed_dms == old(self).subscribed_dms
                    &&& subscribe_list_effect(
                        old(self).subscribed_channels@,
                        final(self).subscribed_channels@,
                        channel_id,
                    )
                    &&& subscribe_state_effect(
                        *old(state), *final(state), channel_id, old(self).active_conn())
                },
                ClientEvent::UnsubscribeChannel { channel_id } => {
                    &&& r matches None
                    &&& final(self).subscribed_dms == old(self).subscribed_dms
                    &&& unsubscribe_list_effect(
                        old(self).subscribed_channels@,
                        final(self).subscribed_channels@,
                        channel_id,
                    )
                    &&& unsubscribe_state_effect(
                        *old(state), *final(state), channel_id, old(self).active_conn())
                },
                ClientEvent::SubscribeDm { dm_channel_id } => {
                    &&& r matches None
                    &&& final(self).subscribed_channels == old(self).subscribed_channels
                    &&& subscribe_list_effect(
                        old(self).subscribed_dms@,
                        final(self).subscribed_dms@,
                        dm_channel_id,
                    )
                    &&& subscribe_state_effect(
                        *old(state), *final(state), dm_channel_id, old(self).active_conn())
                },
                ClientEvent::UnsubscribeDm { dm_channel_id } => {
                    &&& r matches None
                    &&& final(self).subscribed_channels == old(self).subscribed_channels
                    &&& unsubscribe_list_effect(
                        old(self).subscribed_dms@,
                        final(self).subscribed_dms@,
                        dm_channel_id,
                    )
                    &&& unsubscribe_state_effect(
                        *old(state), *final(state), dm_channel_id, old(self).active_conn())
                },
                ClientEvent::MessageCreate { channel_id, content } => {
                    &&& *final(self) == *old(self)
                    &&& *final(state) == *old(state)
                    &&& r matches Some(IoRequest::PersistMessage { channel_id: t, content: ct })
                        && t == channel_id && ct@ == content@
                },
                ClientEvent::DmCreate { dm_channel_id, content } => {
                    &&& *final(self) == *old(self)
                    &&& *final(state) == *old(state)
                    &&& r matches Some(IoRequest::PersistDm { dm_channel_id: t, content: ct })
                        && t == dm_channel_id && ct@ == content@
                },
                ClientEvent::TypingStart { channel_id } => {
                    &&& *final(self) == *old(self)
                    &&& *final(state) == *old(state)
                    &&& r matches Some(IoRequest::FetchTypingAuthor { channel_id: t })
                        && t == channel_id
                },
                ClientEvent::PresenceUpdate { status } => {
                    &&& *final(self) == *old(self)
                    &&& *final(state) == *old(state)
                    &&& r matches Some(IoRequest::PersistPresence { status: st })
                        && st@ == status@
                },
            },
    {
        let conn = match &self.phase {
            SessionPhase::Active { conn, .. } => *conn,
            _ => 0,
        };
        match event {
            ClientEvent::Identify { .. } => None,
            ClientEvent::SubscribeChannel { channel_id } => {
                insert_topic(&mut self.subscribed_channels, channel_id);
                state.subscribe(channel_id, conn);
                None
            },
            ClientEvent::UnsubscribeChannel { channel_id } => {
                remove_topic(&mut self.subscribed_channels, channel_id);
                state.unsubscribe(channel_id, conn);
                None
            },
            ClientEvent::SubscribeDm { dm_channel_id } => {
                insert_topic(&mut self.subscribed_dms, dm_channel_id);
                state.subscribe(dm_channel_id, conn);
                None
            },
            ClientEvent::UnsubscribeDm { dm_channel_id } => {
                remove_topic(&mut self.subscribed_dms, dm_channel_id);
                state.unsubscribe(dm_channel_id, conn);
                None
            },
            ClientEvent::MessageCreate { channel_id, content } => {
                Some(IoRequest::PersistMessage { channel_id, content })
            },
            ClientEvent::DmCreate { dm_channel_id, content } => {
                Some(IoRequest::PersistDm { dm_channel_id, content })
            },
            ClientEvent::TypingStart { channel_id } => {
                Some(IoRequest::FetchTypingAuthor { channel_id })
            },
            ClientEvent::PresenceUpdate { status } => {
                Some(IoRequest::PersistPresence { status })
            },
        }
    }
}

impl Session {
    /// Pushes an error frame to this session's own delivery path — never
    /// broadcast anywhere else.
    fn error_to_self(&self, state: &mut WsState, message: String)
        requires
            self.is_active(),
            old(state).wf(),
        ensures
            final(state).wf(),
            final(state).topics == old(state).topics,
            final(state).presence == old(state).presence,
            final(state).next_conn == old(state).next_conn,
            forall|c2: ConnId| final(state).has_conn(c2) == old(state).has_conn(c2),
            !old(state).has_conn(self.active_conn()) ==> *final(state) == *old(state),
            old(state).has_conn(self.active_conn())
                ==> final(state).outbound_of(self.active_conn())
                    == old(state).outbound_of(self.active_conn()).push(
                        WsEventV::Error { message: message@ }),
            forall|c2: ConnId| c2 != self.active_conn() && old(state).has_conn(c2)
                ==> final(state).outbound_of(c2) == old(state).outbound_of(c2),
    {
        let conn = match &self.phase {
            SessionPhase::Active { conn, .. } => *conn,
            _ => 0,
        };
        state.push_outbound(conn, WsEvent::Error { message });
    }

    /// After the storage collaborator persisted a channel message: builds
    /// the `message_create` event and broadcasts it to the channel.
    pub fn message_persisted(
        &self,
        state: &mut WsState,
        channel_id: TopicId,
        msg_id: u128,
        content: String,
        created_at: String,
        author: ProfileSummary,
    )
        requires
            self.is_active(),
            old(state).wf(),
        ensures
            final(state).wf(),
            final(state).presence == old(state).presence,
            final(state).outbound == old(state).outbound,
            final(state).next_conn == old(state).next_conn,
            publish_state_effect(
                *old(state),
                *final(state),
                channel_id,
                WsEventV::MessageCreate {
                    id: msg_id,
                    channel_id,
                    author: author@,
                    content: content@,
                    created_at: created_at@,
                },
            ),
    {
        let ev = WsEvent::MessageCreate { id: msg_id, channel_id, author, content, created_at };
        state.broadcast_to_channel(channel_id, &ev);
    }

    /// After the storage collaborator failed to persist a channel
    /// message: an error frame goes back to the originating connection
    /// only.
    pub fn message_persist_failed(&self, state: &mut WsState)
        requires
            self.is_active(),
            old(state).wf(),
        ensures
            final(state).wf(),
            final(state).topics == old(state).topics,
            final(state).presence == old(state).presence,
            final(state).next_conn == old(state).next_conn,
            forall|c2: ConnId| final(state).has_conn(c2) == old(state).has_conn(c2),
            !old(state).has_conn(self.active_conn()) ==> *final(state) == *old(state),
            old(state).has_conn(self.active_conn())
                ==> final(state).outbound_of(self.active_conn())
                    == old(state).outbound_of(self.active_conn()).push(
                        WsEventV::Error { message: "Failed to send message"@ }),
            forall|c2: ConnId| c2 != self.active_conn() && old(state).has_conn(c2)
                ==> final(state).outbound_of(c2) == old(state).outbound_of(c2),
    {
        self.error_to_self(state, "Failed to send message".to_owned());
    }

    /// After the storage collaborator failed to persist a direct
    /// message: an error frame goes back to the originating connection
    /// only.
    pub fn dm_persist_failed(&self, state: &mut WsState)
        requires
            self.is_active(),
            old(state).wf(),
        ensures
            final(state).wf(),
            final(state).topics == old(state).topics,
            final(state).presence == old(state).presence,
            final(state).next_conn == old(state).next_conn,
            forall|c2: ConnId| final(state).has_conn(c2) == old(state).has_conn(c2),
            !old(state).has_conn(self.active_conn()) ==> *final(state) == *old(state),
            old(state).has_conn(self.active_conn())
                ==> final(state).outbound_of(self.active_conn())
                    == old(state).outbound_of(self.active_conn()).push(
                        WsEventV::Error { message: "Failed to send DM"@ }),
            forall|c2: ConnId| c2 != self.active_conn() && old(state).has_conn(c2)
                ==> final(state).outbound_of(c2) == old(state).outbound_of(c2),
    {
        self.error_to_self(state, "Failed to send DM".to_owned());
    }

    /// After the profile summary for a typing notification was fetched:
    /// broadcasts the `typing_start` event to the channel, best effort,
    /// with no persistence and no error path.
    pub fn typing_fetched(
        &self,
        state: &mut WsState,
        channel_id: TopicId,
        author: ProfileSummary,
    )
        requires
            self.is_active(),
            old(state).wf(),
        ensures
            final(state).wf(),
            final(state).presence == old(state).presence,
            final(state).outbound == old(state).outbound,
            final(state).next_conn == old(state).next_conn,
            publish_state_effect(
                *old(state),
                *final(state),
                channel_id,
                WsEventV::TypingStart { channel_id, user: author@ },
            ),
    {
        let ev = WsEvent::TypingStart { channel_id, user: author };
        state.broadcast_to_channel(channel_id, &ev);
    }
}

/// Whether conn `c` is a delivery path of some user in `members` who is
/// not subscribed to topic `t` on any device: the connections a direct
/// message is additionally hand-delivered to.
pub open spec fn dm_direct_target(pre: WsState, members: Seq<UserId>, t: TopicId, c: ConnId) -> bool {
    exists|k: int| 0 <= k < members.len()
        && pre.has_user(#[trigger] members[k])
        && !pre.user_subscribed(members[k], t)
        && pre.paths_of(members[k]).contains(c)
}

/// Whether conn `c` is a delivery path of some user in `peers`: the
/// connections a presence broadcast reaches.
pub open spec fn presence_target(pre: WsState, peers: Seq<UserId>, c: ConnId) -> bool {
    exists|k: int| 0 <= k < peers.len()
        && pre.has_user(#[trigger] peers[k])
        && pre.paths_of(peers[k]).contains(c)
}

impl Session {
    /// After the storage collaborator persisted a direct message: the
    /// `dm_create` event is broadcast to the DM topic, and in addition
    /// hand-delivered to every other member of the DM channel who is not
    /// currently subscribed to it — so a recipient who never opened the
    /// conversation still receives the message on every device.
    pub fn dm_persisted(
        &self,
        state: &mut WsState,
        dm_channel_id: TopicId,
        msg_id: u128,
        content: String,
        created_at: String,
        author: ProfileSummary,
        other_members: &Vec<UserId>,
    )
        requires
            self.is_active(),
            old(state).wf(),
            distinct_ids(other_members@),
        ensures
            final(state).wf(),
            final(state).presence == old(state).presence,
            final(state).next_conn == old(state).next_conn,
            publish_state_effect(
                *old(state),
                *final(state),
                dm_channel_id,
                WsEventV::DmCreate {
                    id: msg_id,
                    dm_channel_id,
                    author: author@,
                    content: content@,
                    created_at: created_at@,
                },
            ),
            forall|c: ConnId| final(state).has_conn(c) == old(state).has_conn(c),
            forall|c: ConnId| #[trigger] old(state).has_conn(c)
                ==> final(state).outbound_of(c)
                    == if dm_direct_target(*old(state), other_members@, dm_channel_id, c) {
                        old(state).outbound_of(c).push(WsEventV::DmCreate {
                            id: msg_id,
                            dm_channel_id,
                            author: author@,
                            content: content@,
                            created_at: created_at@,
                        })
                    } else {
                        old(state).outbound_of(c)
                    },
    {
        let ev = WsEvent::DmCreate { id: msg_id, dm_channel_id, author, content, created_at };
        state.broadcast_to_channel(dm_channel_id, &ev);
        let ghost pre = *old(state);
        let ghost mid = *state;
        proof {
            assert forall|u: UserId, t2: TopicId| #![auto] mid.has_user(u) == pre.has_user(u)
                && (pre.has_user(u) ==> mid.paths_of(u) == pre.paths_of(u))
                && mid.user_subscribed(u, t2) == pre.user_subscribed(u, t2) by {
                assert(mid.presence == pre.presence);
                assert forall|c2: ConnId| #[trigger] mid.is_subscribed(t2, c2)
                    == pre.is_subscribed(t2, c2) by {
                    if t2 != dm_channel_id {
                        if pre.has_topic(t2) {
                            assert(mid.topic_at(t2) == pre.topic_at(t2));
                        }
                    }
                }
            }
        }
        let n = other_members.len();
        let mut i: usize = 0;
        while i < n
            invariant
                pre.wf(),
                state.wf(),
                pre == *old(state),
                distinct_ids(other_members@),
                n == other_members@.len(),
                i <= n,
                state.topics == mid.topics,
                state.presence == pre.presence,
                state.next_conn == pre.next_conn,
                mid.presence == pre.presence,
                forall|u: UserId| state.has_user(u) == pre.has_user(u),
                forall|u: UserId| pre.has_user(u)
                    ==> #[trigger] state.paths_of(u) == pre.paths_of(u),
                forall|u: UserId, t2: TopicId| #[trigger] state.user_subscribed(u, t2)
                    == pre.user_subscribed(u, t2),
                forall|c: ConnId| state.has_conn(c) == pre.has_conn(c),
                mid.outbound == pre.outbound,
                forall|c: ConnId| #[trigger] pre.has_conn(c)
                    ==> state.outbound_of(c)
                        == if dm_direct_target(
                            pre, other_members@.subrange(0, i as int), dm_channel_id, c)
                        {
                            pre.outbound_of(c).push(ev@)
                        } else {
                            pre.outbound_of(c)
                        },
            decreases n - i,
        {
            let m = other_members[i];
            let ghost snap = *state;
            if !state.user_is_subscribed(m, dm_channel_id) {
                state.send_to_user(m, &ev);
            }
            proof {
                lemma_state_accessors(snap, *state);
                assert forall|u: UserId, t2: TopicId| #[trigger] state.user_subscribed(u, t2)
                    == pre.user_subscribed(u, t2) by {
                    assert(snap.user_subscribed(u, t2) == pre.user_subscribed(u, t2));
                    assert(snap.user_subscribed(u, t2) == state.user_subscribed(u, t2));
                }
                let members = other_members@;
                let short = members.subrange(0, i as int);
                let long = members.subrange(0, i + 1);
                assert(long.drop_last() =~= short);
                assert(long.last() == members[i as int]);
                assert forall|c: ConnId| #[trigger] pre.has_conn(c) implies
                    state.outbound_of(c)
                        == if dm_direct_target(pre, long, dm_channel_id, c) {
                            pre.outbound_of(c).push(ev@)
                        } else {
                            pre.outbound_of(c)
                        } by {
                    let delivered_now = snap.has_user(m) && !snap.user_subscribed(m, dm_channel_id)
                        && snap.has_user(m) && snap.paths_of(m).contains(c);
                    if pre.has_user(m) && !pre.user_subscribed(m, dm_channel_id)
                        && pre.paths_of(m).contains(c) {
                        // this member contributed conn c just now
                        assert(dm_direct_target(pre, long, dm_channel_id, c)) by {
                            assert(0 <= i < long.len() && long[i as int] == m);
                        }
                        assert(!dm_direct_target(pre, short, dm_channel_id, c)) by {
                            if dm_direct_target(pre, short, dm_channel_id, c) {
                                let k = choose|k: int| 0 <= k < short.len()
                                    && pre.has_user(#[trigger] short[k])
                                    && !pre.user_subscribed(short[k], dm_channel_id)
                                    && pre.paths_of(short[k]).contains(c);
                                let m2 = short[k];
                                assert(members[k] == m2);
                                assert(m2 != m);
                                lemma_paths_disjoint(pre, m, m2, c);
                            }
                        }
                        assert(snap.outbound_of(c) == pre.outbound_of(c));
                        assert(state.outbound_of(c) == snap.outbound_of(c).push(ev@));
                    } else {
                        // conn c is no path of this member, or the member
                        // was already covered by the topic broadcast
                        assert(state.outbound_of(c) == snap.outbound_of(c)) by {
                            if pre.has_user(m) && !pre.user_subscribed(m, dm_channel_id) {
                                assert(!snap.paths_of(m).contains(c));
                            }
                        }
                        assert(dm_direct_target(pre, long, dm_channel_id, c)
                            == dm_direct_target(pre, short, dm_channel_id, c)) by {
                            if dm_direct_target(pre, long, dm_channel_id, c) {
                                let k = choose|k: int| 0 <= k < long.len()
                                    && pre.has_user(#[trigger] long[k])
                                    && !pre.user_subscribed(long[k], dm_channel_id)
                                    && pre.paths_of(long[k]).contains(c);
                                assert(k < long.len());
                                if k == i {
                                    assert(long[k] == m);
                                    assert(false);
                                } else {
                                    assert(short[k] == long[k]);
                                }
                            }
                            if dm_direct_target(pre, short, dm_channel_id, c) {
                                let k = choose|k: int| 0 <= k < short.len()
                                    && pre.has_user(#[trigger] short[k])
                                    && !pre.user_subscribed(short[k], dm_channel_id)
                                    && pre.paths_of(short[k]).contains(c);
                                assert(long[k] == short[k]);
                            }
                        }
                    }
                }
            }
            i = i + 1;
        }
        proof {
            assert(other_members@.subrange(0, n as int) =~= other_members@);
            lemma_state_accessors(mid, *state);
        }
    }
}

impl Session {
    /// Tears the session down: every listener subscription of this
    /// connection is dropped, its delivery queue is removed, and its
    /// path leaves the presence registry — removing the user's entry
    /// entirely when it was the last path. Returns whether the user just
    /// went offline, so that the caller broadcasts exactly one offline
    /// presence event; a second device keeps the user online and no
    /// event is owed. Closing is idempotent: on a session already closed
    /// (or never identified) nothing changes and `false` comes back.
    pub fn close_connection(&mut self, state: &mut WsState) -> (went_offline: bool)
        requires
            old(self).wf(),
            old(state).wf(),
        ensures
            final(self).wf(),
            final(state).wf(),
            final(self).phase == SessionPhase::Closed,
            final(self).subscribed_channels == old(self).subscribed_channels,
            final(self).subscribed_dms == old(self).subscribed_dms,
            final(state).next_conn == old(state).next_conn,
            !old(self).is_active() ==> *final(state) == *old(state) && went_offline == false,
            old(self).is_active() ==> ({
                let u = old(self).active_user();
                let c = old(self).active_conn();
                &&& went_offline == (old(state).has_user(u)
                    && old(state).paths_of(u).contains(c)
                    && old(state).paths_of(u).len() == 1)
                &&& final(state).has_user(u) == (old(state).has_user(u) && !went_offline)
                &&& (old(state).has_user(u) && old(state).paths_of(u).contains(c)
                        && !went_offline ==> {
                    &&& final(state).paths_of(u).len() == old(state).paths_of(u).len() - 1
                    &&& !final(state).paths_of(u).contains(c)
                })
                &&& forall|u2: UserId| u2 != u
                    ==> final(state).has_user(u2) == old(state).has_user(u2)
                &&& forall|u2: UserId| u2 != u && old(state).has_user(u2)
                    ==> final(state).paths_of(u2) == old(state).paths_of(u2)
                &&& !final(state).has_conn(c)
                &&& forall|c2: ConnId| c2 != c
                    ==> final(state).has_conn(c2) == old(state).has_conn(c2)
                &&& forall|c2: ConnId| c2 != c && old(state).has_conn(c2)
                    ==> final(state).outbound_of(c2) == old(state).outbound_of(c2)
                &&& forall|t: TopicId| old(self).subscribed_channels@.contains(t)
                        || old(self).subscribed_dms@.contains(t)
                    ==> !final(state).is_subscribed(t, c)
                &&& forall|t: TopicId| final(state).has_topic(t) == old(state).has_topic(t)
                &&& forall|t: TopicId| old(state).has_topic(t)
                    ==> final(state).history_of(t) == old(state).history_of(t)
                &&& forall|t: TopicId, c2: ConnId| c2 != c
                    ==> #[trigger] final(state).is_subscribed(t, c2)
                        == old(state).is_subscribed(t, c2)
                &&& forall|t: TopicId, c2: ConnId|
                    c2 != c && #[trigger] old(state).is_subscribed(t, c2)
                    ==> final(state).pending_of(t, c2) == old(state).pending_of(t, c2)
            }),
    {
        let (u, c) = match &self.phase {
            SessionPhase::Active { user, conn } => (*user, *conn),
            _ => {
                self.phase = SessionPhase::Closed;
                return false;
            },
        };
        let ghost pre = *old(state);
        // drop the per-subscription listeners of this connection
        let n1 = self.subscribed_channels.len();
        let mut i: usize = 0;
        while i < n1
            invariant
                pre.wf(),
                state.wf(),
                pre == *old(state),
                n1 == self.subscribed_channels@.len(),
                i <= n1,
                state.presence == pre.presence,
                state.outbound == pre.outbound,
                state.next_conn == pre.next_conn,
                forall|t: TopicId| state.has_topic(t) == pre.has_topic(t),
                forall|t: TopicId| pre.has_topic(t)
                    ==> #[trigger] state.history_of(t) == pre.history_of(t),
                forall|t: TopicId, c2: ConnId| c2 != c
                    ==> #[trigger] state.is_subscribed(t, c2) == pre.is_subscribed(t, c2),
                forall|t: TopicId, c2: ConnId|
                    c2 != c && #[trigger] pre.is_subscribed(t, c2)
                    ==> state.pending_of(t, c2) == pre.pending_of(t, c2),
                forall|k: int| 0 <= k < i
                    ==> !state.is_subscribed(#[trigger] self.subscribed_channels@[k], c),
            decreases n1 - i,
        {
            let t = self.subscribed_channels[i];
            let ghost snap = *state;
            state.unsubscribe(t, c);
            proof {
                assert forall|t2: TopicId| pre.has_topic(t2) implies
                    #[trigger] state.history_of(t2) == pre.history_of(t2) by {
                    assert(snap.history_of(t2) == pre.history_of(t2));
                    if !snap.is_subscribed(t, c) {
                        assert(*state == snap);
                    } else if t2 != t {
                        assert(snap.has_topic(t2));
                        assert(state.topic_at(t2) == snap.topic_at(t2));
                    }
                }
                assert forall|t2: TopicId, c2: ConnId| c2 != c implies
                    #[trigger] state.is_subscribed(t2, c2) == pre.is_subscribed(t2, c2) by {
                    assert(snap.is_subscribed(t2, c2) == pre.is_subscribed(t2, c2));
                    if !snap.is_subscribed(t, c) {
                        assert(*state == snap);
                    } else if t2 != t && snap.has_topic(t2) {
                        assert(state.topic_at(t2) == snap.topic_at(t2));
                    }
                }
                assert forall|t2: TopicId, c2: ConnId|
                    c2 != c && #[trigger] pre.is_subscribed(t2, c2) implies
                    state.pending_of(t2, c2) == pre.pending_of(t2, c2) by {
                    assert(snap.is_subscribed(t2, c2) == pre.is_subscribed(t2, c2));
                    assert(snap.is_subscribed(t2, c2));
                    assert(snap.pending_of(t2, c2) == pre.pending_of(t2, c2));
                    if !snap.is_subscribed(t, c) {
                        assert(*state == snap);
                    } else if t2 != t {
                        assert(state.topic_at(t2) == snap.topic_at(t2));
                    }
                }
                assert forall|k: int| 0 <= k < i + 1 implies
                    !state.is_subscribed(#[trigger] self.subscribed_channels@[k], c) by {
                    let tk = self.subscribed_channels@[k];
                    if k < i {
                        assert(!snap.is_subscribed(tk, c));
                    }
                    if !snap.is_subscribed(t, c) {
                        assert(*state == snap);
                        if k == i {
                            assert(tk == t);
                        }
                    } else if tk == t {
                        assert(!state.is_subscribed(t, c));
                    } else {
                        assert(k < i);
                        if snap.has_topic(tk) {
                            assert(state.topic_at(tk) == snap.topic_at(tk));
                        }
                        assert(state.has_topic(tk) == snap.has_topic(tk));
                    }
                }
            }
            i = i + 1;
        }
        let n2 = self.subscribed_dms.len();
        let mut j: usize = 0;
        while j < n2
            invariant
                pre.wf(),
                state.wf(),
                pre == *old(state),
                n2 == self.subscribed_dms@.len(),
                j <= n2,
                state.presence == pre.presence,
                state.outbound == pre.outbound,
                state.next_conn == pre.next_conn,
                forall|t: TopicId| state.has_topic(t) == pre.has_topic(t),
                forall|t: TopicId| pre.has_topic(t)
                    ==> #[trigger] state.history_of(t) == pre.history_of(t),
                forall|t: TopicId, c2: ConnId| c2 != c
                    ==> #[trigger] state.is_subscribed(t, c2) == pre.is_subscribed(t, c2),
                forall|t: TopicId, c2: ConnId|
                    c2 != c && #[trigger] pre.is_subscribed(t, c2)
                    ==> state.pending_of(t, c2) == pre.pending_of(t, c2),
                n1 == self.subscribed_channels@.len(),
                forall|k: int| 0 <= k < n1
                    ==> !state.is_subscribed(#[trigger] self.subscribed_channels@[k], c),
                forall|k: int| 0 <= k < j
                    ==> !state.is_subscribed(#[trigger] self.subscribed_dms@[k], c),
            decreases n2 - j,
        {
            let t = self.subscribed_dms[j];
            let ghost snap = *state;
            state.unsubscribe(t, c);
            proof {
                assert forall|t2: TopicId| pre.has_topic(t2) implies
                    #[trigger] state.history_of(t2) == pre.history_of(t2) by {
                    assert(snap.history_of(t2) == pre.history_of(t2));
                    if !snap.is_subscribed(t, c) {
                        assert(*state == snap);
                    } else if t2 != t {
                        assert(snap.has_topic(t2));
                        assert(state.topic_at(t2) == snap.topic_at(t2));
                    }
                }
                assert forall|t2: TopicId, c2: ConnId| c2 != c implies
                    #[trigger] state.is_subscribed(t2, c2) == pre.is_subscribed(t2, c2) by {
                    assert(snap.is_subscribed(t2, c2) == pre.is_subscribed(t2, c2));
                    if !snap.is_subscribed(t, c) {
                        assert(*state == snap);
                    } else if t2 != t && snap.has_topic(t2) {
                        assert(state.topic_at(t2) == snap.topic_at(t2));
                    }
                }
                assert forall|t2: TopicId, c2: ConnId|
                    c2 != c && #[trigger] pre.is_subscribed(t2, c2) implies
                    state.pending_of(t2, c2) == pre.pending_of(t2, c2) by {
                    assert(snap.is_subscribed(t2, c2) == pre.is_subscribed(t2, c2));
                    assert(snap.is_subscribed(t2, c2));
                    assert(snap.pending_of(t2, c2) == pre.pending_of(t2, c2));
                    if !snap.is_subscribed(t, c) {
                        assert(*state == snap);
                    } else if t2 != t {
                        assert(state.topic_at(t2) == snap.topic_at(t2));
                    }
                }
                assert forall|k: int| 0 <= k < n1 implies
                    !state.is_subscribed(#[trigger] self.subscribed_channels@[k], c) by {
                    let tk = self.subscribed_channels@[k];
                    assert(!snap.is_subscribed(tk, c));
                    if !snap.is_subscribed(t, c) {
                        assert(*state == snap);
                    } else if tk == t {
                        assert(!state.is_subscribed(t, c));
                    } else {
                        if snap.has_topic(tk) {
                            assert(state.topic_at(tk) == snap.topic_at(tk));
                        }
                        assert(state.has_topic(tk) == snap.has_topic(tk));
                    }
                }
                assert forall|k: int| 0 <= k < j + 1 implies
                    !state.is_subscribed(#[trigger] self.subscribed_dms@[k], c) by {
                    let tk = self.subscribed_dms@[k];
                    if k < j {
                        assert(!snap.is_subscribed(tk, c));
                    }
                    if !snap.is_subscribed(t, c) {
                        assert(*state == snap);
                        if k == j {
                            assert(tk == t);
                        }
                    } else if tk == t {
                        assert(!state.is_subscribed(t, c));
                    } else {
                        assert(k < j);
                        if snap.has_topic(tk) {
                            assert(state.topic_at(tk) == snap.topic_at(tk));
                        }
                        assert(state.has_topic(tk) == snap.has_topic(tk));
                    }
                }
            }
            j = j + 1;
        }
        // drop the delivery queue and the presence path
        let ghost s2 = *state;
        state.drop_outbound_queue(c);
        let ghost s3 = *state;
        let was_connected = state.user_is_connected(u);
        state.unregister_user(u, c);
        let offline = was_connected && !state.user_is_connected(u);
        self.phase = SessionPhase::Closed;
        proof {
            let s4 = *state;
            lemma_outbound_accessors(s2, pre);
            lemma_topic_accessors(s3, s2);
            lemma_topic_accessors(s4, s3);
            lemma_presence_accessors(s3, pre);
            lemma_outbound_accessors(s4, s3);
            assert(was_connected == pre.has_user(u));
            assert forall|u2: UserId| u2 != u implies
                s4.has_user(u2) == pre.has_user(u2)
                && (pre.has_user(u2) ==> s4.paths_of(u2) == pre.paths_of(u2)) by {}
            assert forall|t2: TopicId, c2: ConnId| c2 != c implies
                #[trigger] s4.is_subscribed(t2, c2) == pre.is_subscribed(t2, c2) by {
                assert(s3.is_subscribed(t2, c2) == s2.is_subscribed(t2, c2));
                assert(s4.is_subscribed(t2, c2) == s3.is_subscribed(t2, c2));
            }
            assert forall|t2: TopicId, c2: ConnId|
                c2 != c && #[trigger] pre.is_subscribed(t2, c2) implies
                s4.pending_of(t2, c2) == pre.pending_of(t2, c2) by {
                assert(s2.is_subscribed(t2, c2));
                assert(s3.is_subscribed(t2, c2));
                assert(s2.pending_of(t2, c2) == s3.pending_of(t2, c2));
                assert(s3.pending_of(t2, c2) == s4.pending_of(t2, c2));
            }
            assert forall|t2: TopicId| old(self).subscribed_channels@.contains(t2)
                    || old(self).subscribed_dms@.contains(t2) implies
                !s4.is_subscribed(t2, c) by {
                assert(!s2.is_subscribed(t2, c));
                assert(s3.is_subscribed(t2, c) == s2.is_subscribed(t2, c));
                assert(s4.is_subscribed(t2, c) == s3.is_subscribed(t2, c));
            }
            assert forall|t2: TopicId| pre.has_topic(t2) implies
                #[trigger] s4.history_of(t2) == pre.history_of(t2) by {
                assert(s3.has_topic(t2) && s4.has_topic(t2));
                assert(s3.history_of(t2) == s2.history_of(t2));
                assert(s4.history_of(t2) == s3.history_of(t2));
            }
        }
        offline
    }
}

/// Two distinct online users share no delivery path.
proof fn lemma_paths_disjoint(s: WsState, u1: UserId, u2: UserId, c: ConnId)
    requires
        s.wf(),
        s.has_user(u1),
        s.has_user(u2),
        u1 != u2,
        s.paths_of(u1).contains(c),
    ensures
        !s.paths_of(u2).contains(c),
{
    let i1 = s.user_index(u1);
    let i2 = s.user_index(u2);
    assert(s.presence@[i1].user == u1);
    assert(s.presence@[i2].user == u2);
    assert(i1 != i2);
    let j1 = choose|j: int| 0 <= j < s.paths_of(u1).len() && s.paths_of(u1)[j] == c;
    if s.paths_of(u2).contains(c) {
        let j2 = choose|j: int| 0 <= j < s.paths_of(u2).len() && s.paths_of(u2)[j] == c;
        if i1 < i2 {
            assert(s.presence@[i1].paths@[j1] != s.presence@[i2].paths@[j2]);
        } else {
            assert(s.presence@[i2].paths@[j2] != s.presence@[i1].paths@[j1]);
        }
    }
}

/// Broadcasts a presence change to every peer who shares a community
/// with the user: each open delivery path of each peer receives exactly
/// one `presence_update` event. Presence has no topic; the delivery goes
/// through the presence registry.
pub fn broadcast_presence(
    state: &mut WsState,
    user_id: UserId,
    status: &str,
    peers: &Vec<UserId>,
)
    requires
        old(state).wf(),
        distinct_ids(peers@),
    ensures
        final(state).wf(),
        final(state).topics == old(state).topics,
        final(state).presence == old(state).presence,
        final(state).next_conn == old(state).next_conn,
        forall|c: ConnId| final(state).has_conn(c) == old(state).has_conn(c),
        forall|c: ConnId| #[trigger] old(state).has_conn(c)
            ==> final(state).outbound_of(c)
                == if presence_target(*old(state), peers@, c) {
                    old(state).outbound_of(c).push(
                        WsEventV::PresenceUpdate { user_id, status: status@ })
                } else {
                    old(state).outbound_of(c)
                },
{
    let ev = WsEvent::PresenceUpdate { user_id, status: status.to_owned() };
    let ghost pre = *old(state);
    let n = peers.len();
    let mut i: usize = 0;
    while i < n
        invariant
            pre.wf(),
            state.wf(),
            pre == *old(state),
            distinct_ids(peers@),
            n == peers@.len(),
            i <= n,
            ev@ == (WsEventV::PresenceUpdate { user_id, status: status@ }),
            state.topics == pre.topics,
            state.presence == pre.presence,
            state.next_conn == pre.next_conn,
            forall|u: UserId| state.has_user(u) == pre.has_user(u),
            forall|u: UserId| pre.has_user(u)
                ==> #[trigger] state.paths_of(u) == pre.paths_of(u),
            forall|c: ConnId| state.has_conn(c) == pre.has_conn(c),
            forall|c: ConnId| #[trigger] pre.has_conn(c)
                ==> state.outbound_of(c)
                    == if presence_target(pre, peers@.subrange(0, i as int), c) {
                        pre.outbound_of(c).push(ev@)
                    } else {
                        pre.outbound_of(c)
                    },
        decreases n - i,
    {
        let m = peers[i];
        let ghost snap = *state;
        state.send_to_user(m, &ev);
        proof {
            lemma_state_accessors(snap, *state);
            let short = peers@.subrange(0, i as int);
            let long = peers@.subrange(0, i + 1);
            assert(long.drop_last() =~= short);
            assert(long.last() == peers@[i as int]);
            assert forall|c: ConnId| #[trigger] pre.has_conn(c) implies
                state.outbound_of(c)
                    == if presence_target(pre, long, c) {
                        pre.outbound_of(c).push(ev@)
                    } else {
                        pre.outbound_of(c)
                    } by {
                if pre.has_user(m) && pre.paths_of(m).contains(c) {
                    assert(presence_target(pre, long, c)) by {
                        assert(0 <= i < long.len() && long[i as int] == m);
                    }
                    assert(!presence_target(pre, short, c)) by {
                        if presence_target(pre, short, c) {
                            let k = choose|k: int| 0 <= k < short.len()
                                && pre.has_user(#[trigger] short[k])
                                && pre.paths_of(short[k]).contains(c);
                            let m2 = short[k];
                            assert(peers@[k] == m2);
                            assert(m2 != m);
                            lemma_paths_disjoint(pre, m, m2, c);
                        }
                    }
                    assert(snap.outbound_of(c) == pre.outbound_of(c));
                    assert(state.outbound_of(c) == snap.outbound_of(c).push(ev@));
                } else {
                    assert(state.outbound_of(c) == snap.outbound_of(c)) by {
                        if pre.has_user(m) {
                            assert(!snap.paths_of(m).contains(c));
                        }
                    }
                    assert(presence_target(pre, long, c) == presence_target(pre, short, c)) by {
                        if presence_target(pre, long, c) {
                            let k = choose|k: int| 0 <= k < long.len()
                                && pre.has_user(#[trigger] long[k])
                                && pre.paths_of(long[k]).contains(c);
                            if k == i {
                                assert(long[k] == m);
                                assert(false);
                            } else {
                                assert(short[k] == long[k]);
                            }
                        }
                        if presence_target(pre, short, c) {
                            let k = choose|k: int| 0 <= k < short.len()
                                && pre.has_user(#[trigger] short[k])
                                && pre.paths_of(short[k]).contains(c);
                            assert(long[k] == short[k]);
                        }
                    }
                }
            }
        }
        i = i + 1;
    }
    proof {
        assert(peers@.subrange(0, n as int) =~= peers@);
    }
}

/// What `broadcast_to_channel` does to the topic registry: the event
/// joins the topic's history and every subscriber's window; nothing else
/// moves, and a topic that was never subscribed to swallows the event.
pub open spec fn publish_state_effect(pre: WsState, post: WsState, t: TopicId, ev: WsEventV) -> bool {
    &&& (!pre.has_topic(t) ==> post.topics == pre.topics)
    &&& forall|t2: TopicId| post.has_topic(t2) == pre.has_topic(t2)
    &&& (pre.has_topic(t) ==> {
        &&& post.history_of(t) == pre.history_of(t).push(ev)
        &&& forall|c: ConnId| post.is_subscribed(t, c) == pre.is_subscribed(t, c)
        &&& forall|c: ConnId| pre.is_subscribed(t, c)
            ==> post.pending_of(t, c)
                == crate::registry::fanout_push(pre.pending_of(t, c), ev)
    })
    &&& forall|t2: TopicId| t2 != t && pre.has_topic(t2)
        ==> post.topic_at(t2) == pre.topic_at(t2)
}

/// What adding a topic does to a session's subscription list:
/// membership grows by exactly that topic, idempotently.
pub open spec fn subscribe_list_effect(pre: Seq<TopicId>, post: Seq<TopicId>, t: TopicId) -> bool {
    &&& post.contains(t)
    &&& (pre.contains(t) ==> post == pre)
    &&& (!pre.contains(t) ==> post == pre.push(t))
    &&& forall|t2: TopicId| t2 != t ==> post.contains(t2) == pre.contains(t2)
}

/// What removing a topic does to a session's subscription list.
pub open spec fn unsubscribe_list_effect(pre: Seq<TopicId>, post: Seq<TopicId>, t: TopicId) -> bool {
    &&& !post.contains(t)
    &&& (!pre.contains(t) ==> post == pre)
    &&& forall|t2: TopicId| t2 != t ==> post.contains(t2) == pre.contains(t2)
}

/// What `WsState::subscribe` does: the subscription exists afterwards
/// with an empty window, nothing else moves, and subscribing an already
/// subscribed connection changes nothing at all.
pub open spec fn subscribe_state_effect(pre: WsState, post: WsState, t: TopicId, c: ConnId) -> bool {
    &&& post.has_topic(t)
    &&& post.is_subscribed(t, c)
    &&& (pre.is_subscribed(t, c) ==> post == pre)
    &&& (!pre.is_subscribed(t, c) ==> {
        &&& post.pending_of(t, c) == Seq::<WsEventV>::empty()
        &&& post.history_of(t) == if pre.has_topic(t) {
            pre.history_of(t)
        } else {
            Seq::<WsEventV>::empty()
        }
        &&& forall|c2: ConnId| c2 != c
            ==> post.is_subscribed(t, c2) == pre.is_subscribed(t, c2)
        &&& forall|c2: ConnId| c2 != c && pre.is_subscribed(t, c2)
            ==> post.pending_of(t, c2) == pre.pending_of(t, c2)
    })
    &&& forall|t2: TopicId| t2 != t ==> post.has_topic(t2) == pre.has_topic(t2)
    &&& forall|t2: TopicId| t2 != t && pre.has_topic(t2)
        ==> post.topic_at(t2) == pre.topic_at(t2)
}

/// What `WsState::unsubscribe` does: the subscription is gone afterwards,
/// nothing else moves, and unsubscribing a topic never subscribed to
/// changes nothing at all.
pub open spec fn unsubscribe_state_effect(pre: WsState, post: WsState, t: TopicId, c: ConnId) -> bool {
    &&& !post.is_subscribed(t, c)
    &&& (!pre.is_subscribed(t, c) ==> post == pre)
    &&& (pre.is_subscribed(t, c) ==> {
        &&& post.history_of(t) == pre.history_of(t)
        &&& forall|c2: ConnId| c2 != c
            ==> post.is_subscribed(t, c2) == pre.is_subscribed(t, c2)
        &&& forall|c2: ConnId| c2 != c && pre.is_subscribed(t, c2)
            ==> post.pending_of(t, c2) == pre.pending_of(t, c2)
    })
    &&& forall|t2: TopicId| post.has_topic(t2) == pre.has_topic(t2)
    &&& forall|t2: TopicId| t2 != t && pre.has_topic(t2)
        ==> post.topic_at(t2) == pre.topic_at(t2)
}


/// Subscribing to a topic twice has the same observable effect as
/// subscribing once: a second subscription by the same connection
/// changes neither the routing state nor anything a subscriber can see.
pub proof fn lemma_subscribe_idempotent(
    s0: WsState,
    s1: WsState,
    s2: WsState,
    t: TopicId,
    c: ConnId,
)
    requires
        subscribe_state_effect(s0, s1, t, c),
        subscribe_state_effect(s1, s2, t, c),
    ensures
        s2 == s1,
{
}

/// Unsubscribing from a topic never subscribed to is a no-op: no error,
/// no event, no change.
pub proof fn lemma_unsubscribe_never_subscribed(s0: WsState, s1: WsState, t: TopicId, c: ConnId)
    requires
        !s0.is_subscribed(t, c),
        unsubscribe_state_effect(s0, s1, t, c),
    ensures
        s1 == s0,
{
}



} // verus!
