//! Domain data carried through the routing core and the REST layer.
//!
//! Dates are carried as Unix timestamps in seconds; identifiers as their
//! 128-bit UUID values (see `ids`).

use vstd::prelude::*;
use crate::ids::UserId;

verus! {

/// A user's presence status, as stored in the profile record.
#[derive(Clone, Copy, PartialEq, Eq, Structural, Debug)]
pub enum UserStatus {
    Online,
    Idle,
    Dnd,
    Offline,
}

/// A member's role within a community server.
#[derive(Clone, Copy, PartialEq, Eq, Structural, Debug)]
pub enum MemberRole {
    Owner,
    Admin,
    Member,
}

/// The kind of a channel.
#[derive(Clone, Copy, PartialEq, Eq, Structural, Debug)]
pub enum ChannelType {
    Text,
    Voice,
}

/// A full profile record.
pub struct Profile {
    pub id: UserId,
    pub username: Option<String>,
    pub display_name: String,
    pub avatar_url: Option<String>,
    pub status: UserStatus,
    pub created_at: i64,
    pub updated_at: i64,
}

/// The subset of a profile embedded in messages and events as author
/// information.
pub struct ProfileSummary {
    pub id: UserId,
    pub username: Option<String>,
    pub display_name: String,
    pub avatar_url: Option<String>,
}

/// The mathematical value of a `ProfileSummary`.
pub ghost struct ProfileSummaryV {
    pub id: UserId,
    pub username: Option<Seq<char>>,
    pub display_name: Seq<char>,
    pub avatar_url: Option<Seq<char>>,
}

/// The mathematical value of an optional string.
pub open spec fn opt_str_view(s: Option<String>) -> Option<Seq<char>> {
    match s {
        Some(x) => Some(x@),
        None => None,
    }
}

impl View for ProfileSummary {
    type V = ProfileSummaryV;

    open spec fn view(&self) -> ProfileSummaryV {
        ProfileSummaryV {
            id: self.id,
            username: opt_str_view(self.username),
            display_name: self.display_name@,
            avatar_url: opt_str_view(self.avatar_url),
        }
    }
}

/// Clones an optional string, keeping its value.
pub fn clone_opt_string(s: &Option<String>) -> (r: Option<String>)
    ensures
        opt_str_view(r) == opt_str_view(*s),
{
    match s {
        Some(x) => Some(x.clone()),
        None => None,
    }
}

impl Clone for ProfileSummary {
    fn clone(&self) -> (r: Self)
        ensures
            r@ == self@,
    {
        ProfileSummary {
            id: self.id,
            username: clone_opt_string(&self.username),
            display_name: self.display_name.clone(),
            avatar_url: clone_opt_string(&self.avatar_url),
        }
    }
}


/// A community server record.
pub struct Server {
    pub id: u128,
    pub name: String,
    pub icon: Option<String>,
    pub banner_url: Option<String>,
    pub color: Option<String>,
    pub description: Option<String>,
    pub category: Option<String>,
    pub owner_id: UserId,
    pub is_public: bool,
    pub created_at: i64,
}

/// Request body for creating a server.
pub struct CreateServerRequest {
    pub name: String,
    pub icon: Option<String>,
    pub description: Option<String>,
    pub category: Option<String>,
    pub color: Option<String>,
}

/// A server membership record.
pub struct ServerMember {
    pub server_id: u128,
    pub user_id: UserId,
    pub role: MemberRole,
    pub joined_at: i64,
}

/// A server together with its member count, for discovery listings.
pub struct ServerWithMemberCount {
    pub server: Server,
    pub member_count: i64,
}

/// A channel record.
pub struct Channel {
    pub id: u128,
    pub server_id: u128,
    pub name: String,
    pub kind: ChannelType,
    pub position: i32,
    pub created_at: i64,
}

/// Request body for creating a channel.
pub struct CreateChannelRequest {
    pub name: String,
    pub kind: ChannelType,
}

/// A voice channel participation record.
pub struct VoiceState {
    pub channel_id: u128,
    pub user_id: UserId,
    pub muted: bool,
    pub video_on: bool,
    pub joined_at: i64,
}

/// A channel message record.
pub struct Message {
    pub id: u128,
    pub channel_id: u128,
    pub author_id: UserId,
    pub content: String,
    pub created_at: i64,
    pub updated_at: Option<i64>,
}

/// A message with its author's profile embedded, for API responses.
pub struct MessageWithAuthor {
    pub id: u128,
    pub channel_id: u128,
    pub author: ProfileSummary,
    pub content: String,
    pub created_at: i64,
}

/// Query parameters for paginated message fetching.
pub struct MessageQuery {
    pub before: Option<u128>,
    pub limit: Option<i64>,
}

impl MessageQuery {
    /// The page size actually used: the requested limit capped at 100,
    /// or 50 when none was asked for.
    pub fn effective_limit(&self) -> (l: i64)
        ensures
            l == match self.limit {
                Some(x) => if x < 100 { x } else { 100i64 },
                None => 50i64,
            },
    {
        match self.limit {
            Some(x) => if x < 100 { x } else { 100 },
            None => 50,
        }
    }
}

/// A direct-message channel record.
pub struct DmChannel {
    pub id: u128,
    pub created_at: i64,
}

/// A direct-message channel membership record.
pub struct DmMember {
    pub dm_channel_id: u128,
    pub user_id: UserId,
}

/// A direct message record.
pub struct DmMessage {
    pub id: u128,
    pub dm_channel_id: u128,
    pub author_id: UserId,
    pub content: String,
    pub created_at: i64,
    pub updated_at: Option<i64>,
}

/// A DM conversation as shown in the sidebar: the other participant and
/// the latest message. Unread tracking is not kept; the count is always
/// zero.
pub struct DmChannelSummary {
    pub id: u128,
    pub other_user: ProfileSummary,
    pub last_message: Option<String>,
    pub last_message_at: Option<i64>,
    pub unread_count: i64,
}

/// A direct message with its author's profile embedded.
pub struct DmMessageWithAuthor {
    pub id: u128,
    pub dm_channel_id: u128,
    pub author: ProfileSummary,
    pub content: String,
    pub created_at: i64,
}

/// Request body for finding or creating a DM channel.
pub struct CreateDmRequest {
    pub target_user_id: UserId,
}

/// Request body for updating the caller's profile.
pub struct UpdateProfileRequest {
    pub username: Option<String>,
    pub display_name: Option<String>,
    pub avatar_url: Option<String>,
}

/// Query parameters for public server discovery.
pub struct DiscoverQuery {
    pub category: Option<String>,
    pub limit: Option<i64>,
    pub offset: Option<i64>,
}

impl DiscoverQuery {
    /// The page size actually used: the requested limit capped at 50,
    /// or 20 when none was asked for.
    pub fn effective_limit(&self) -> (l: i64)
        ensures
            l == match self.limit {
                Some(x) => if x < 50 { x } else { 50i64 },
                None => 20i64,
            },
    {
        match self.limit {
            Some(x) => if x < 50 { x } else { 50 },
            None => 20,
        }
    }

    /// The page offset actually used: zero when none was asked for.
    pub fn effective_offset(&self) -> (o: i64)
        ensures
            o == match self.offset {
                Some(x) => x,
                None => 0i64,
            },
    {
        match self.offset {
            Some(x) => x,
            None => 0,
        }
    }
}

/// The author profile embedded in events when the profile row is
/// missing: a placeholder under the user's own identifier.
pub fn profile_summary_or_unknown(user_id: UserId, fetched: Option<ProfileSummary>)
    -> (p: ProfileSummary)
    ensures
        match fetched {
            Some(f) => p == f,
            None => {
                &&& p.id == user_id
                &&& p.username matches None
                &&& p@.display_name == "Unknown"@
                &&& p.avatar_url matches None
            },
        },
{
    match fetched {
        Some(f) => f,
        None => ProfileSummary {
            id: user_id,
            username: None,
            display_name: "Unknown".to_owned(),
            avatar_url: None,
        },
    }
}

} // verus!
