//! The closed set of client-to-server and server-to-client event variants.
//!
//! Inbound frames decode to `ClientEvent`; outbound frames are built from
//! `WsEvent`. Outbound events are constructed once and cloned for every
//! delivery target.

use vstd::prelude::*;
use crate::ids::{UserId, TopicId};
use crate::models::{ProfileSummary, ProfileSummaryV, clone_opt_string, opt_str_view};

verus! {

/// Events sent from a client to the server.
pub enum ClientEvent {
    Identify { token: String },
    SubscribeChannel { channel_id: TopicId },
    UnsubscribeChannel { channel_id: TopicId },
    SubscribeDm { dm_channel_id: TopicId },
    UnsubscribeDm { dm_channel_id: TopicId },
    MessageCreate { channel_id: TopicId, content: String },
    DmCreate { dm_channel_id: TopicId, content: String },
    TypingStart { channel_id: TopicId },
    PresenceUpdate { status: String },
}

/// The mathematical value of a `ClientEvent`.
pub ghost enum ClientEventV {
    Identify { token: Seq<char> },
    SubscribeChannel { channel_id: TopicId },
    UnsubscribeChannel { channel_id: TopicId },
    SubscribeDm { dm_channel_id: TopicId },
    UnsubscribeDm { dm_channel_id: TopicId },
    MessageCreate { channel_id: TopicId, content: Seq<char> },
    DmCreate { dm_channel_id: TopicId, content: Seq<char> },
    TypingStart { channel_id: TopicId },
    PresenceUpdate { status: Seq<char> },
}

impl View for ClientEvent {
    type V = ClientEventV;

    open spec fn view(&self) -> ClientEventV {
        match self {
            ClientEvent::Identify { token } => ClientEventV::Identify { token: token@ },
            ClientEvent::SubscribeChannel { channel_id } =>
                ClientEventV::SubscribeChannel { channel_id: *channel_id },
            ClientEvent::UnsubscribeChannel { channel_id } =>
                ClientEventV::UnsubscribeChannel { channel_id: *channel_id },
            ClientEvent::SubscribeDm { dm_channel_id } =>
                ClientEventV::SubscribeDm { dm_channel_id: *dm_channel_id },
            ClientEvent::UnsubscribeDm { dm_channel_id } =>
                ClientEventV::UnsubscribeDm { dm_channel_id: *dm_channel_id },
            ClientEvent::MessageCreate { channel_id, content } =>
                ClientEventV::MessageCreate { channel_id: *channel_id, content: content@ },
            ClientEvent::DmCreate { dm_channel_id, content } =>
                ClientEventV::DmCreate { dm_channel_id: *dm_channel_id, content: content@ },
            ClientEvent::TypingStart { channel_id } =>
                ClientEventV::TypingStart { channel_id: *channel_id },
            ClientEvent::PresenceUpdate { status } =>
                ClientEventV::PresenceUpdate { status: status@ },
        }
    }
}

/// Events sent from the server to clients, and carried through the
/// registries on their way out.
pub enum WsEvent {
    /// The server confirms a successful identification.
    Ready { user_id: UserId },
    /// A new message in a text channel.
    MessageCreate {
        id: u128,
        channel_id: TopicId,
        author: ProfileSummary,
        content: String,
        created_at: String,
    },
    /// A new direct message.
    DmCreate {
        id: u128,
        dm_channel_id: TopicId,
        author: ProfileSummary,
        content: String,
        created_at: String,
    },
    /// Someone started typing.
    TypingStart { channel_id: TopicId, user: ProfileSummary },
    /// A user's presence changed.
    PresenceUpdate { user_id: UserId, status: String },
    /// Voice channel state changed.
    VoiceStateUpdate { channel_id: TopicId, user: ProfileSummary, action: String },
    /// A member joined a community server.
    MemberJoin { server_id: u128, user: ProfileSummary },
    /// A member left a community server.
    MemberLeave { server_id: u128, user_id: UserId },
    /// An error reported to one client.
    Error { message: String },
}

/// The mathematical value of a `WsEvent`.
pub ghost enum WsEventV {
    Ready { user_id: UserId },
    MessageCreate {
        id: u128,
        channel_id: TopicId,
        author: ProfileSummaryV,
        content: Seq<char>,
        created_at: Seq<char>,
    },
    DmCreate {
        id: u128,
        dm_channel_id: TopicId,
        author: ProfileSummaryV,
        content: Seq<char>,
        created_at: Seq<char>,
    },
    TypingStart { channel_id: TopicId, user: ProfileSummaryV },
    PresenceUpdate { user_id: UserId, status: Seq<char> },
    VoiceStateUpdate { channel_id: TopicId, user: ProfileSummaryV, action: Seq<char> },
    MemberJoin { server_id: u128, user: ProfileSummaryV },
    MemberLeave { server_id: u128, user_id: UserId },
    Error { message: Seq<char> },
}

impl View for WsEvent {
    type V = WsEventV;

    open spec fn view(&self) -> WsEventV {
        match self {
            WsEvent::Ready { user_id } => WsEventV::Ready { user_id: *user_id },
            WsEvent::MessageCreate { id, channel_id, author, content, created_at } =>
                WsEventV::MessageCreate {
                    id: *id,
                    channel_id: *channel_id,
                    author: author@,
                    content: content@,
                    created_at: created_at@,
                },
            WsEvent::DmCreate { id, dm_channel_id, author, content, created_at } =>
                WsEventV::DmCreate {
                    id: *id,
                    dm_channel_id: *dm_channel_id,
                    author: author@,
                    content: content@,
                    created_at: created_at@,
                },
            WsEvent::TypingStart { channel_id, user } =>
                WsEventV::TypingStart { channel_id: *channel_id, user: user@ },
            WsEvent::PresenceUpdate { user_id, status } =>
                WsEventV::PresenceUpdate { user_id: *user_id, status: status@ },
            WsEvent::VoiceStateUpdate { channel_id, user, action } =>
                WsEventV::VoiceStateUpdate {
                    channel_id: *channel_id,
                    user: user@,
                    action: action@,
                },
            WsEvent::MemberJoin { server_id, user } =>
                WsEventV::MemberJoin { server_id: *server_id, user: user@ },
            WsEvent::MemberLeave { server_id, user_id } =>
                WsEventV::MemberLeave { server_id: *server_id, user_id: *user_id },
            WsEvent::Error { message } => WsEventV::Error { message: message@ },
        }
    }
}

impl Clone for WsEvent {
    /// Cloning an outbound event keeps its value; fan-out delivers clones.
    fn clone(&self) -> (r: Self)
        ensures
            r@ == self@,
    {
        match self {
            WsEvent::Ready { user_id } => WsEvent::Ready { user_id: *user_id },
            WsEvent::MessageCreate { id, channel_id, author, content, created_at } =>
                WsEvent::MessageCreate {
                    id: *id,
                    channel_id: *channel_id,
                    author: author.clone(),
                    content: content.clone(),
                    created_at: created_at.clone(),
                },
            WsEvent::DmCreate { id, dm_channel_id, author, content, created_at } =>
                WsEvent::DmCreate {
                    id: *id,
                    dm_channel_id: *dm_channel_id,
                    author: author.clone(),
                    content: content.clone(),
                    created_at: created_at.clone(),
                },
            WsEvent::TypingStart { channel_id, user } =>
                WsEvent::TypingStart { channel_id: *channel_id, user: user.clone() },
            WsEvent::PresenceUpdate { user_id, status } =>
                WsEvent::PresenceUpdate { user_id: *user_id, status: status.clone() },
            WsEvent::VoiceStateUpdate { channel_id, user, action } =>
                WsEvent::VoiceStateUpdate {
                    channel_id: *channel_id,
                    user: user.clone(),
                    action: action.clone(),
                },
            WsEvent::MemberJoin { server_id, user } =>
                WsEvent::MemberJoin { server_id: *server_id, user: user.clone() },
            WsEvent::MemberLeave { server_id, user_id } =>
                WsEvent::MemberLeave { server_id: *server_id, user_id: *user_id },
            WsEvent::Error { message } =>
                WsEvent::Error { message: message.clone() },
        }
    }
}

/// The mathematical value of a queue of outbound events.
pub open spec fn events_view(s: Seq<WsEvent>) -> Seq<WsEventV> {
    s.map_values(|e: WsEvent| e@)
}

} // verus!
