//! Voice token issuance: the claims of a LiveKit room access token.
//!
//! The claims are assembled and checked here; the embedding process
//! serializes and signs them through its JWT library.

use vstd::prelude::*;
use crate::ids::{UserId, uuid_char_seq, uuid_to_string};

verus! {

/// Request body for a voice token.
pub struct VoiceTokenRequest {
    pub channel_id: u128,
}

/// A voice token with the media server to use it against.
pub struct VoiceTokenResponse {
    pub token: String,
    pub url: String,
}

/// The room grants embedded in a voice token.
pub struct LiveKitVideoGrants {
    pub room_join: bool,
    pub room: String,
    pub can_publish: bool,
    pub can_subscribe: bool,
}

/// The claims of a LiveKit access token.
pub struct LiveKitClaims {
    pub exp: i64,
    pub iss: String,
    pub nbf: i64,
    pub sub: String,
    pub video: LiveKitVideoGrants,
}

/// How long an issued voice token lives, in seconds.
pub const VOICE_TOKEN_LIFETIME: i64 = 21600;

/// Builds the claims of a voice token: the caller's identity as the
/// participant, the channel's room, full publish and subscribe rights,
/// and an expiry six hours out.
pub fn build_voice_claims(user_id: UserId, channel_id: u128, now: i64, api_key: String)
    -> (c: LiveKitClaims)
    requires
        0 <= now <= i64::MAX - VOICE_TOKEN_LIFETIME,
    ensures
        c.exp == now + VOICE_TOKEN_LIFETIME,
        c.nbf == 0,
        c.iss == api_key,
        c.sub@ == uuid_char_seq(user_id as int),
        c.video.room@ == "channel:"@ + uuid_char_seq(channel_id as int),
        c.video.room_join,
        c.video.can_publish,
        c.video.can_subscribe,
{
    let mut room = String::new();
    room.append("channel:");
    let channel_text = uuid_to_string(channel_id);
    room.append(channel_text.as_str());
    proof {
        assert(room@ =~= "channel:"@ + uuid_char_seq(channel_id as int));
    }
    LiveKitClaims {
        exp: now + VOICE_TOKEN_LIFETIME,
        iss: api_key,
        nbf: 0,
        sub: uuid_to_string(user_id),
        video: LiveKitVideoGrants {
            room_join: true,
            room,
            can_publish: true,
            can_subscribe: true,
        },
    }
}

} // verus!
