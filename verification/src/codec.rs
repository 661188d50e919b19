//! The JSON frame codec of the wire protocol.
//!
//! Frames are JSON objects tagged by a `type` field with snake_case
//! variant names. Every payload field of the protocol is a JSON string
//! (identifiers in their hyphenated UUID form) or `null`; author
//! profiles are nested objects of the same shape. The encoder produces
//! the exact byte-for-byte form the specification functions describe;
//! the decoder accepts whitespace, any field order, unknown fields with
//! string or null values, and the standard string escapes.

use vstd::prelude::*;
use crate::ids::{uuid_char_seq, uuid_to_string, hex_char_of, hex_val_of};
use crate::models::{ProfileSummary, ProfileSummaryV, opt_str_view, clone_opt_string};
use crate::events::{WsEvent, WsEventV, ClientEvent, ClientEventV};

verus! {

/// How one character appears inside an encoded JSON string: quote,
/// backslash and control characters are escaped as `serde_json` writes
/// them.
pub open spec fn esc_char(c: char) -> Seq<char> {
    if c == '"' {
        seq!['\\', '"']
    } else if c == '\\' {
        seq!['\\', '\\']
    } else if c == '\n' {
        seq!['\\', 'n']
    } else if c == '\r' {
        seq!['\\', 'r']
    } else if c == '\t' {
        seq!['\\', 't']
    } else if (c as u32) < 32 {
        seq!['\\', 'u', '0', '0',
            hex_char_of((c as u32) as int / 16),
            hex_char_of((c as u32) as int % 16)]
    } else {
        seq![c]
    }
}

/// The escaped form of a whole string.
pub open spec fn esc(s: Seq<char>) -> Seq<char>
    decreases s.len(),
{
    if s.len() == 0 {
        Seq::empty()
    } else {
        esc_char(s[0]) + esc(s.skip(1))
    }
}

/// Escaping one more character appends its escaped form.
pub proof fn lemma_esc_push(s: Seq<char>, c: char)
    ensures
        esc(s.push(c)) == esc(s) + esc_char(c),
    decreases s.len(),
{
    if s.len() == 0 {
        assert(s.push(c)[0] == c);
        assert(esc(s.push(c)) == esc_char(c) + esc(s.push(c).skip(1)));
        assert(s.push(c).skip(1) =~= Seq::<char>::empty());
        assert(esc(Seq::<char>::empty()) == Seq::<char>::empty());
        assert(esc(s.push(c)) =~= esc_char(c));
        assert(esc(s) + esc_char(c) =~= esc_char(c));
    } else {
        assert(s.push(c)[0] == s[0]);
        assert(s.push(c).skip(1) =~= s.skip(1).push(c));
        lemma_esc_push(s.skip(1), c);
        assert(esc_char(s[0]) + (esc(s.skip(1)) + esc_char(c))
            =~= (esc_char(s[0]) + esc(s.skip(1))) + esc_char(c));
    }
}

/// A JSON string literal: quotes around the escaped content.
pub open spec fn json_str(s: Seq<char>) -> Seq<char> {
    seq!['"'] + esc(s) + seq!['"']
}

/// An optional JSON string: `null` when absent.
pub open spec fn opt_json_str(s: Option<Seq<char>>) -> Seq<char> {
    match s {
        Some(v) => json_str(v),
        None => "null"@,
    }
}

/// An identifier as a JSON string in hyphenated UUID form.
pub open spec fn uuid_json(u: u128) -> Seq<char> {
    seq!['"'] + uuid_char_seq(u as int) + seq!['"']
}

/// The encoded author profile object.
pub open spec fn profile_json(p: ProfileSummaryV) -> Seq<char> {
    "{\"id\":"@ + uuid_json(p.id)
        + ",\"username\":"@ + opt_json_str(p.username)
        + ",\"display_name\":"@ + json_str(p.display_name)
        + ",\"avatar_url\":"@ + opt_json_str(p.avatar_url)
        + "}"@
}

/// The encoded frame of one server-to-client event.
pub open spec fn ws_event_json(e: WsEventV) -> Seq<char> {
    match e {
        WsEventV::Ready { user_id } =>
            "{\"type\":\"ready\",\"user_id\":"@ + uuid_json(user_id) + "}"@,
        WsEventV::MessageCreate { id, channel_id, author, content, created_at } =>
            "{\"type\":\"message_create\",\"id\":"@ + uuid_json(id)
                + ",\"channel_id\":"@ + uuid_json(channel_id)
                + ",\"author\":"@ + profile_json(author)
                + ",\"content\":"@ + json_str(content)
                + ",\"created_at\":"@ + json_str(created_at)
                + "}"@,
        WsEventV::DmCreate { id, dm_channel_id, author, content, created_at } =>
            "{\"type\":\"dm_create\",\"id\":"@ + uuid_json(id)
                + ",\"dm_channel_id\":"@ + uuid_json(dm_channel_id)
                + ",\"author\":"@ + profile_json(author)
                + ",\"content\":"@ + json_str(content)
                + ",\"created_at\":"@ + json_str(created_at)
                + "}"@,
        WsEventV::TypingStart { channel_id, user } =>
            "{\"type\":\"typing_start\",\"channel_id\":"@ + uuid_json(channel_id)
                + ",\"user\":"@ + profile_json(user)
                + "}"@,
        WsEventV::PresenceUpdate { user_id, status } =>
            "{\"type\":\"presence_update\",\"user_id\":"@ + uuid_json(user_id)
                + ",\"status\":"@ + json_str(status)
                + "}"@,
        WsEventV::VoiceStateUpdate { channel_id, user, action } =>
            "{\"type\":\"voice_state_update\",\"channel_id\":"@ + uuid_json(channel_id)
                + ",\"user\":"@ + profile_json(user)
                + ",\"action\":"@ + json_str(action)
                + "}"@,
        WsEventV::MemberJoin { server_id, user } =>
            "{\"type\":\"member_join\",\"server_id\":"@ + uuid_json(server_id)
                + ",\"user\":"@ + profile_json(user)
                + "}"@,
        WsEventV::MemberLeave { server_id, user_id } =>
            "{\"type\":\"member_leave\",\"server_id\":"@ + uuid_json(server_id)
                + ",\"user_id\":"@ + uuid_json(user_id)
                + "}"@,
        WsEventV::Error { message } =>
            "{\"type\":\"error\",\"message\":"@ + json_str(message) + "}"@,
    }
}

/// Appends the escaped form of `s` to `out`.
fn push_escaped(out: &mut String, s: &str)
    ensures
        final(out)@ == old(out)@ + esc(s@),
{
    proof {
        reveal_strlit("\\\"");
        reveal_strlit("\\\\");
        reveal_strlit("\\n");
        reveal_strlit("\\r");
        reveal_strlit("\\t");
        reveal_strlit("\\u00");
    }
    let n = s.unicode_len();
    let mut i: usize = 0;
    while i < n
        invariant
            n == s@.len(),
            i <= n,
            out@ == old(out)@ + esc(s@.subrange(0, i as int)),
        decreases n - i,
    {
        let c = s.get_char(i);
        let ghost pre = out@;
        if c == '"' {
            out.append("\\\"");
        } else if c == '\\' {
            out.append("\\\\");
        } else if c == '\n' {
            out.append("\\n");
        } else if c == '\r' {
            out.append("\\r");
        } else if c == '\t' {
            out.append("\\t");
        } else if (c as u32) < 32 {
            out.append("\\u00");
            let code = c as u32;
            out.push(crate::ids::hex_char((code / 16) as u8));
            out.push(crate::ids::hex_char((code % 16) as u8));
        } else {
            out.push(c);
        }
        proof {
            reveal_strlit("\\\"");
            reveal_strlit("\\\\");
            reveal_strlit("\\n");
            reveal_strlit("\\r");
            reveal_strlit("\\t");
            reveal_strlit("\\u00");
            assert(out@ =~= pre + esc_char(c));
            lemma_esc_push(s@.subrange(0, i as int), c);
            assert(s@.subrange(0, i + 1) =~= s@.subrange(0, i as int).push(c));
            assert(out@ =~= old(out)@ + esc(s@.subrange(0, i + 1)));
        }
        i = i + 1;
    }
    proof {
        assert(s@.subrange(0, n as int) =~= s@);
    }
}

/// Appends a JSON string literal.
fn push_json_str(out: &mut String, s: &str)
    ensures
        final(out)@ == old(out)@ + json_str(s@),
{
    out.push('"');
    push_escaped(out, s);
    out.push('"');
    proof {
        assert(final(out)@ =~= old(out)@ + json_str(s@));
    }
}

/// Appends a JSON string literal or `null`.
fn push_opt_json_str(out: &mut String, s: &Option<String>)
    ensures
        final(out)@ == old(out)@ + opt_json_str(opt_str_view(*s)),
{
    match s {
        Some(v) => push_json_str(out, v.as_str()),
        None => out.append("null"),
    }
}

/// Appends an identifier as a quoted hyphenated UUID.
fn push_uuid_json(out: &mut String, u: u128)
    ensures
        final(out)@ == old(out)@ + uuid_json(u),
{
    out.push('"');
    let text = uuid_to_string(u);
    out.append(text.as_str());
    out.push('"');
    proof {
        assert(final(out)@ =~= old(out)@ + uuid_json(u));
    }
}

/// Appends the author profile object.
fn push_profile(out: &mut String, p: &ProfileSummary)
    ensures
        final(out)@ == old(out)@ + profile_json(p@),
{
    out.append("{\"id\":");
    push_uuid_json(out, p.id);
    out.append(",\"username\":");
    push_opt_json_str(out, &p.username);
    out.append(",\"display_name\":");
    push_json_str(out, p.display_name.as_str());
    out.append(",\"avatar_url\":");
    push_opt_json_str(out, &p.avatar_url);
    out.append("}");
    proof {
        assert(final(out)@ =~= old(out)@ + profile_json(p@));
    }
}

/// Encodes one outbound event as its JSON frame.
pub fn encode_ws_event(e: &WsEvent) -> (s: String)
    ensures
        s@ == ws_event_json(e@),
{
    let mut out = String::new();
    match e {
        WsEvent::Ready { user_id } => {
            out.append("{\"type\":\"ready\",\"user_id\":");
            push_uuid_json(&mut out, *user_id);
            out.append("}");
        },
        WsEvent::MessageCreate { id, channel_id, author, content, created_at } => {
            out.append("{\"type\":\"message_create\",\"id\":");
            push_uuid_json(&mut out, *id);
            out.append(",\"channel_id\":");
            push_uuid_json(&mut out, *channel_id);
            out.append(",\"author\":");
            push_profile(&mut out, author);
            out.append(",\"content\":");
            push_json_str(&mut out, content.as_str());
            out.append(",\"created_at\":");
            push_json_str(&mut out, created_at.as_str());
            out.append("}");
        },
        WsEvent::DmCreate { id, dm_channel_id, author, content, created_at } => {
            out.append("{\"type\":\"dm_create\",\"id\":");
            push_uuid_json(&mut out, *id);
            out.append(",\"dm_channel_id\":");
            push_uuid_json(&mut out, *dm_channel_id);
            out.append(",\"author\":");
            push_profile(&mut out, author);
            out.append(",\"content\":");
            push_json_str(&mut out, content.as_str());
            out.append(",\"created_at\":");
            push_json_str(&mut out, created_at.as_str());
            out.append("}");
        },
        WsEvent::TypingStart { channel_id, user } => {
            out.append("{\"type\":\"typing_start\",\"channel_id\":");
            push_uuid_json(&mut out, *channel_id);
            out.append(",\"user\":");
            push_profile(&mut out, user);
            out.append("}");
        },
        WsEvent::PresenceUpdate { user_id, status } => {
            out.append("{\"type\":\"presence_update\",\"user_id\":");
            push_uuid_json(&mut out, *user_id);
            out.append(",\"status\":");
            push_json_str(&mut out, status.as_str());
            out.append("}");
        },
        WsEvent::VoiceStateUpdate { channel_id, user, action } => {
            out.append("{\"type\":\"voice_state_update\",\"channel_id\":");
            push_uuid_json(&mut out, *channel_id);
            out.append(",\"user\":");
            push_profile(&mut out, user);
            out.append(",\"action\":");
            push_json_str(&mut out, action.as_str());
            out.append("}");
        },
        WsEvent::MemberJoin { server_id, user } => {
            out.append("{\"type\":\"member_join\",\"server_id\":");
            push_uuid_json(&mut out, *server_id);
            out.append(",\"user\":");
            push_profile(&mut out, user);
            out.append("}");
        },
        WsEvent::MemberLeave { server_id, user_id } => {
            out.append("{\"type\":\"member_leave\",\"server_id\":");
            push_uuid_json(&mut out, *server_id);
            out.append(",\"user_id\":");
            push_uuid_json(&mut out, *user_id);
            out.append("}");
        },
        WsEvent::Error { message } => {
            out.append("{\"type\":\"error\",\"message\":");
            push_json_str(&mut out, message.as_str());
            out.append("}");
        },
    }
    proof {
        assert(out@ =~= ws_event_json(e@));
    }
    out
}


// ───────────────────────── decoding ─────────────────────────

/// JSON insignificant whitespace.
pub open spec fn json_ws(c: char) -> bool {
    c == ' ' || c == '\t' || c == '\n' || c == '\r'
}

/// The first position at or after `i` holding no whitespace.
pub open spec fn skip_ws_from(s: Seq<char>, i: int) -> int
    decreases s.len() - i when 0 <= i <= s.len()
{
    if i < s.len() && json_ws(s[i]) {
        skip_ws_from(s, i + 1)
    } else {
        i
    }
}

pub proof fn lemma_skip_ws_bounds(s: Seq<char>, i: int)
    requires
        0 <= i <= s.len(),
    ensures
        i <= skip_ws_from(s, i) <= s.len(),
    decreases s.len() - i,
{
    if i < s.len() && json_ws(s[i]) {
        lemma_skip_ws_bounds(s, i + 1);
    }
}

/// The character named by a single-character escape, if that escape
/// exists.
pub open spec fn simple_escape(e: char) -> Option<char> {
    if e == '"' { Some('"') }
    else if e == '\\' { Some('\\') }
    else if e == '/' { Some('/') }
    else if e == 'b' { Some('\u{0008}') }
    else if e == 'f' { Some('\u{000C}') }
    else if e == 'n' { Some('\n') }
    else if e == 'r' { Some('\r') }
    else if e == 't' { Some('\t') }
    else { None }
}

/// Whether a code point is a Unicode scalar value.
pub open spec fn valid_scalar_code(n: int) -> bool {
    (0 <= n && n < 0xD800) || (0xE000 <= n && n <= 0x10FFFF)
}

/// Parses the body of a JSON string from position `i` (just after the
/// opening quote) to its closing quote: the decoded characters and the
/// position after the closing quote. Raw control characters, unknown
/// escapes and surrogate code points are rejected.
pub open spec fn parse_string_chars(s: Seq<char>, i: int) -> Option<(Seq<char>, int)>
    decreases s.len() - i when 0 <= i <= s.len()
{
    if i >= s.len() {
        None
    } else if s[i] == '"' {
        Some((Seq::empty(), i + 1))
    } else if s[i] == '\\' {
        if i + 2 > s.len() {
            None
        } else if s[i + 1] == 'u' {
            if i + 6 > s.len() {
                None
            } else {
                let h1 = hex_val_of(s[i + 2]);
                let h2 = hex_val_of(s[i + 3]);
                let h3 = hex_val_of(s[i + 4]);
                let h4 = hex_val_of(s[i + 5]);
                if h1 < 0 || h2 < 0 || h3 < 0 || h4 < 0 {
                    None
                } else {
                    let code = ((h1 * 16 + h2) * 16 + h3) * 16 + h4;
                    if !valid_scalar_code(code) {
                        None
                    } else {
                        match parse_string_chars(s, i + 6) {
                            Some((rest, j)) => Some((seq![(code as u32) as char] + rest, j)),
                            None => None,
                        }
                    }
                }
            }
        } else {
            match simple_escape(s[i + 1]) {
                Some(c) => match parse_string_chars(s, i + 2) {
                    Some((rest, j)) => Some((seq![c] + rest, j)),
                    None => None,
                },
                None => None,
            }
        }
    } else if (s[i] as u32) < 32 {
        None
    } else {
        match parse_string_chars(s, i + 1) {
            Some((rest, j)) => Some((seq![s[i]] + rest, j)),
            None => None,
        }
    }
}

pub proof fn lemma_parse_string_bounds(s: Seq<char>, i: int)
    requires
        0 <= i <= s.len(),
    ensures
        parse_string_chars(s, i) matches Some(p) ==> i < p.1 <= s.len(),
    decreases s.len() - i,
{
    if i < s.len() {
        if s[i] == '"' {
        } else if s[i] == '\\' {
            if i + 2 <= s.len() && s[i + 1] == 'u' && i + 6 <= s.len() {
                lemma_parse_string_bounds(s, i + 6);
            } else if i + 2 <= s.len() {
                lemma_parse_string_bounds(s, i + 2);
            }
        } else {
            lemma_parse_string_bounds(s, i + 1);
        }
    }
}

/// Parses a member value at `i`: a string or `null`.
pub open spec fn parse_value_at(s: Seq<char>, i: int) -> Option<(Option<Seq<char>>, int)> {
    if 0 <= i && i < s.len() && s[i] == 'n' {
        if i + 4 <= s.len() && s[i + 1] == 'u' && s[i + 2] == 'l' && s[i + 3] == 'l' {
            Some((None, i + 4))
        } else {
            None
        }
    } else if 0 <= i && i < s.len() && s[i] == '"' {
        match parse_string_chars(s, i + 1) {
            Some((v, j)) => Some((Some(v), j)),
            None => None,
        }
    } else {
        None
    }
}

pub proof fn lemma_parse_value_bounds(s: Seq<char>, i: int)
    requires
        0 <= i <= s.len(),
    ensures
        parse_value_at(s, i) matches Some(p) ==> i < p.1 <= s.len(),
{
    if i < s.len() && s[i] == '"' {
        lemma_parse_string_bounds(s, i + 1);
    }
}

/// Parses the members of an object from just after `{` (or a `,`) to
/// just after the closing `}`: the key/value pairs in order.
pub open spec fn parse_members_from(s: Seq<char>, i: int)
    -> Option<(Seq<(Seq<char>, Option<Seq<char>>)>, int)>
    decreases s.len() - i when 0 <= i <= s.len() via parse_members_from_decreases
{
    let j = skip_ws_from(s, i);
    if j >= s.len() || s[j] != '"' {
        None
    } else {
        match parse_string_chars(s, j + 1) {
            None => None,
            Some((key, j2)) => {
                let j3 = skip_ws_from(s, j2);
                if j3 >= s.len() || s[j3] != ':' {
                    None
                } else {
                    let j4 = skip_ws_from(s, j3 + 1);
                    match parse_value_at(s, j4) {
                        None => None,
                        Some((v, j5)) => {
                            let j6 = skip_ws_from(s, j5);
                            if j6 >= s.len() {
                                None
                            } else if s[j6] == ',' {
                                match parse_members_from(s, j6 + 1) {
                                    None => None,
                                    Some((rest, j7)) => Some((seq![(key, v)] + rest, j7)),
                                }
                            } else if s[j6] == '}' {
                                Some((seq![(key, v)], j6 + 1))
                            } else {
                                None
                            }
                        },
                    }
                }
            },
        }
    }
}

#[via_fn]
proof fn parse_members_from_decreases(s: Seq<char>, i: int) {
    lemma_skip_ws_bounds(s, i);
    let j = skip_ws_from(s, i);
    if j < s.len() && s[j] == '"' {
        lemma_parse_string_bounds(s, j + 1);
        match parse_string_chars(s, j + 1) {
            None => {},
            Some((key, j2)) => {
                lemma_skip_ws_bounds(s, j2);
                let j3 = skip_ws_from(s, j2);
                if j3 < s.len() && s[j3] == ':' {
                    lemma_skip_ws_bounds(s, j3 + 1);
                    let j4 = skip_ws_from(s, j3 + 1);
                    lemma_parse_value_bounds(s, j4);
                    match parse_value_at(s, j4) {
                        None => {},
                        Some((v, j5)) => {
                            lemma_skip_ws_bounds(s, j5);
                        },
                    }
                }
            },
        }
    }
}

/// Parses a whole frame as one JSON object of string-or-null members,
/// with nothing but whitespace around it.
pub open spec fn frame_members(s: Seq<char>) -> Option<Seq<(Seq<char>, Option<Seq<char>>)>> {
    let i = skip_ws_from(s, 0);
    if i >= s.len() || s[i] != '{' {
        None
    } else {
        let j = skip_ws_from(s, i + 1);
        if j < s.len() && s[j] == '}' {
            if skip_ws_from(s, j + 1) == s.len() {
                Some(Seq::empty())
            } else {
                None
            }
        } else {
            match parse_members_from(s, i + 1) {
                None => None,
                Some((ms, j2)) => if skip_ws_from(s, j2) == s.len() {
                    Some(ms)
                } else {
                    None
                },
            }
        }
    }
}

/// The value of the first member with the given key.
pub open spec fn field_of(
    ms: Seq<(Seq<char>, Option<Seq<char>>)>,
    k: Seq<char>,
) -> Option<Option<Seq<char>>>
    decreases ms.len(),
{
    if ms.len() == 0 {
        None
    } else if ms[0].0 == k {
        Some(ms[0].1)
    } else {
        field_of(ms.drop_first(), k)
    }
}

/// Whether two members share a key; such a frame is rejected.
pub open spec fn has_dup_key(ms: Seq<(Seq<char>, Option<Seq<char>>)>) -> bool {
    exists|i: int, j: int| 0 <= i < j < ms.len() && (#[trigger] ms[i]).0 == (#[trigger] ms[j]).0
}

/// A member that must be a string (not absent, not null).
pub open spec fn string_field(
    ms: Seq<(Seq<char>, Option<Seq<char>>)>,
    k: Seq<char>,
) -> Option<Seq<char>> {
    match field_of(ms, k) {
        Some(Some(v)) => Some(v),
        _ => None,
    }
}

/// A member that must be a string holding a hyphenated UUID.
pub open spec fn uuid_field(ms: Seq<(Seq<char>, Option<Seq<char>>)>, k: Seq<char>) -> Option<u128> {
    match string_field(ms, k) {
        Some(v) => crate::ids::uuid_parse_spec(v),
        None => None,
    }
}

/// Assembles a client event from the members of a decoded frame, going
/// by the `type` tag; an unknown tag or a missing or ill-shaped field
/// rejects the frame.
pub open spec fn client_event_of_members(
    ms: Seq<(Seq<char>, Option<Seq<char>>)>,
) -> Option<ClientEventV> {
    match string_field(ms, "type"@) {
        None => None,
        Some(ty) => {
            if ty == "identify"@ {
                match string_field(ms, "token"@) {
                    Some(tok) => Some(ClientEventV::Identify { token: tok }),
                    None => None,
                }
            } else if ty == "subscribe_channel"@ {
                match uuid_field(ms, "channel_id"@) {
                    Some(u) => Some(ClientEventV::SubscribeChannel { channel_id: u }),
                    None => None,
                }
            } else if ty == "unsubscribe_channel"@ {
                match uuid_field(ms, "channel_id"@) {
                    Some(u) => Some(ClientEventV::UnsubscribeChannel { channel_id: u }),
                    None => None,
                }
            } else if ty == "subscribe_dm"@ {
                match uuid_field(ms, "dm_channel_id"@) {
                    Some(u) => Some(ClientEventV::SubscribeDm { dm_channel_id: u }),
                    None => None,
                }
            } else if ty == "unsubscribe_dm"@ {
                match uuid_field(ms, "dm_channel_id"@) {
                    Some(u) => Some(ClientEventV::UnsubscribeDm { dm_channel_id: u }),
                    None => None,
                }
            } else if ty == "message_create"@ {
                match (uuid_field(ms, "channel_id"@), string_field(ms, "content"@)) {
                    (Some(u), Some(ct)) =>
                        Some(ClientEventV::MessageCreate { channel_id: u, content: ct }),
                    _ => None,
                }
            } else if ty == "dm_create"@ {
                match (uuid_field(ms, "dm_channel_id"@), string_field(ms, "content"@)) {
                    (Some(u), Some(ct)) =>
                        Some(ClientEventV::DmCreate { dm_channel_id: u, content: ct }),
                    _ => None,
                }
            } else if ty == "typing_start"@ {
                match uuid_field(ms, "channel_id"@) {
                    Some(u) => Some(ClientEventV::TypingStart { channel_id: u }),
                    None => None,
                }
            } else if ty == "presence_update"@ {
                match string_field(ms, "status"@) {
                    Some(st) => Some(ClientEventV::PresenceUpdate { status: st }),
                    None => None,
                }
            } else {
                None
            }
        },
    }
}

/// What decoding a whole inbound frame yields.
pub open spec fn decode_client_frame_spec(s: Seq<char>) -> Option<ClientEventV> {
    match frame_members(s) {
        None => None,
        Some(ms) => if has_dup_key(ms) {
            None
        } else {
            client_event_of_members(ms)
        },
    }
}


/// The characters of a text frame, for indexed scanning.
fn str_chars(s: &str) -> (r: Vec<char>)
    ensures
        r@ == s@,
{
    let n = s.unicode_len();
    let mut r: Vec<char> = Vec::new();
    let mut i: usize = 0;
    while i < n
        invariant
            n == s@.len(),
            i <= n,
            r@ == s@.subrange(0, i as int),
        decreases n - i,
    {
        r.push(s.get_char(i));
        proof {
            assert(r@ =~= s@.subrange(0, i + 1));
        }
        i = i + 1;
    }
    proof {
        assert(s@.subrange(0, n as int) =~= s@);
    }
    r
}

/// Whether two texts hold the same characters.
pub(crate) fn str_eq(a: &str, b: &str) -> (r: bool)
    ensures
        r == (a@ == b@),
{
    let na = a.unicode_len();
    let nb = b.unicode_len();
    if na != nb {
        proof {
            assert(a@ != b@);
        }
        return false;
    }
    let mut i: usize = 0;
    while i < na
        invariant
            na == a@.len(),
            na == b@.len(),
            i <= na,
            forall|k: int| 0 <= k < i ==> a@[k] == b@[k],
        decreases na - i,
    {
        if a.get_char(i) != b.get_char(i) {
            return false;
        }
        i = i + 1;
    }
    proof {
        assert(a@ =~= b@);
    }
    true
}

fn skip_ws_exec(v: &Vec<char>, i: usize) -> (r: usize)
    requires
        i <= v@.len(),
    ensures
        r as int == skip_ws_from(v@, i as int),
        i <= r <= v@.len(),
{
    let n = v.len();
    let mut cur = i;
    while cur < n && (v[cur] == ' ' || v[cur] == '\t' || v[cur] == '\n' || v[cur] == '\r')
        invariant
            n == v@.len(),
            i <= cur <= n,
            skip_ws_from(v@, i as int) == skip_ws_from(v@, cur as int),
        decreases n - cur,
    {
        cur = cur + 1;
    }
    cur
}

/// Parses a JSON string body from just after its opening quote.
fn parse_string_exec(v: &Vec<char>, start: usize) -> (r: Option<(String, usize)>)
    requires
        start <= v@.len(),
    ensures
        match r {
            Some(p) => {
                &&& parse_string_chars(v@, start as int) == Some((p.0@, p.1 as int))
                &&& start < p.1 <= v@.len()
            },
            None => parse_string_chars(v@, start as int) matches None,
        },
{
    let n = v.len();
    let mut cur = start;
    let mut out = String::new();
    while cur < n
        invariant
            n == v@.len(),
            start <= cur <= n,
            parse_string_chars(v@, start as int) == (match parse_string_chars(v@, cur as int) {
                Some(p) => Some((out@ + p.0, p.1)),
                None => None::<(Seq<char>, int)>,
            }),
        decreases n - cur,
    {
        let c = v[cur];
        if c == '"' {
            proof {
                assert(parse_string_chars(v@, cur as int) == Some((Seq::<char>::empty(), cur + 1)));
                assert(out@ + Seq::<char>::empty() =~= out@);
                lemma_parse_string_bounds(v@, start as int);
            }
            return Some((out, cur + 1));
        } else if c == '\\' {
            if cur + 1 >= n {
                return None;
            }
            let e = v[cur + 1];
            if e == 'u' {
                if n - cur < 6 {
                    return None;
                }
                let h1 = match crate::ids::hex_val(v[cur + 2]) {
                    Some(h) => h,
                    None => {
                        return None;
                    },
                };
                let h2 = match crate::ids::hex_val(v[cur + 3]) {
                    Some(h) => h,
                    None => {
                        return None;
                    },
                };
                let h3 = match crate::ids::hex_val(v[cur + 4]) {
                    Some(h) => h,
                    None => {
                        return None;
                    },
                };
                let h4 = match crate::ids::hex_val(v[cur + 5]) {
                    Some(h) => h,
                    None => {
                        return None;
                    },
                };
                let code: u32 = ((h1 as u32 * 16 + h2 as u32) * 16 + h3 as u32) * 16 + h4 as u32;
                if !(code < 0xD800 || (0xE000 <= code && code <= 0x10FFFF)) {
                    return None;
                }
                let c2 = match char::from_u32(code) {
                    Some(c2) => c2,
                    None => {
                        return None;
                    },
                };
                let ghost pre = out@;
                out.push(c2);
                proof {
                    assert(code as int
                        == ((hex_val_of(v@[cur + 2]) * 16 + hex_val_of(v@[cur + 3])) * 16
                            + hex_val_of(v@[cur + 4])) * 16 + hex_val_of(v@[cur + 5]));
                    assert(c2 == (code as int as u32) as char);
                    assert forall|rest: Seq<char>| true implies
                        pre + (seq![c2] + rest) =~= out@ + rest by {}
                }
                cur = cur + 6;
            } else {
                let c2 = match e {
                    '"' => '"',
                    '\\' => '\\',
                    '/' => '/',
                    'b' => '\u{0008}',
                    'f' => '\u{000C}',
                    'n' => '\n',
                    'r' => '\r',
                    't' => '\t',
                    _ => {
                        return None;
                    },
                };
                let ghost pre = out@;
                out.push(c2);
                proof {
                    assert(simple_escape(v@[cur + 1]) == Some(c2));
                    assert forall|rest: Seq<char>| true implies
                        pre + (seq![c2] + rest) =~= out@ + rest by {}
                }
                cur = cur + 2;
            }
        } else if (c as u32) < 32 {
            return None;
        } else {
            let ghost pre = out@;
            out.push(c);
            proof {
                assert forall|rest: Seq<char>| true implies
                    pre + (seq![c] + rest) =~= out@ + rest by {}
            }
            cur = cur + 1;
        }
    }
    None
}

/// Parses a member value: a string or `null`.
fn parse_value_exec(v: &Vec<char>, i: usize) -> (r: Option<(Option<String>, usize)>)
    requires
        i <= v@.len(),
    ensures
        match r {
            Some(p) => {
                &&& parse_value_at(v@, i as int)
                    == Some((crate::models::opt_str_view(p.0), p.1 as int))
                &&& i < p.1 <= v@.len()
            },
            None => parse_value_at(v@, i as int) matches None,
        },
{
    let n = v.len();
    if i < n && v[i] == 'n' {
        if n - i >= 4 && v[i + 1] == 'u' && v[i + 2] == 'l' && v[i + 3] == 'l' {
            Some((None, i + 4))
        } else {
            None
        }
    } else if i < n && v[i] == '"' {
        match parse_string_exec(v, i + 1) {
            Some((st, j)) => Some((Some(st), j)),
            None => None,
        }
    } else {
        None
    }
}

/// The mathematical value of a decoded member list.
pub open spec fn pairs_view(s: Seq<(String, Option<String>)>) -> Seq<(Seq<char>, Option<Seq<char>>)> {
    s.map_values(|p: (String, Option<String>)| (p.0@, opt_str_view(p.1)))
}

/// Parses the members of the frame object from just after `{`.
fn parse_members_exec(v: &Vec<char>, start: usize) -> (r: Option<(Vec<(String, Option<String>)>, usize)>)
    requires
        start <= v@.len(),
    ensures
        match r {
            Some(p) => {
                &&& parse_members_from(v@, start as int) == Some((pairs_view(p.0@), p.1 as int))
                &&& p.1 <= v@.len()
            },
            None => parse_members_from(v@, start as int) matches None,
        },
{
    let n = v.len();
    let mut acc: Vec<(String, Option<String>)> = Vec::new();
    let mut cur = start;
    loop
        invariant
            n == v@.len(),
            start <= cur <= n,
            parse_members_from(v@, start as int)
                == (match parse_members_from(v@, cur as int) {
                    Some(p) => Some((pairs_view(acc@) + p.0, p.1)),
                    None => None::<(Seq<(Seq<char>, Option<Seq<char>>)>, int)>,
                }),
        decreases n - cur,
    {
        let j = skip_ws_exec(v, cur);
        if j >= n {
            return None;
        }
        if v[j] != '"' {
            return None;
        }
        let (key, j2) = match parse_string_exec(v, j + 1) {
            None => {
                return None;
            },
            Some(p) => p,
        };
        let j3 = skip_ws_exec(v, j2);
        if j3 >= n || v[j3] != ':' {
            return None;
        }
        let j4 = skip_ws_exec(v, j3 + 1);
        let (val, j5) = match parse_value_exec(v, j4) {
            None => {
                return None;
            },
            Some(p) => p,
        };
        let j6 = skip_ws_exec(v, j5);
        if j6 >= n {
            return None;
        }
        let sep = v[j6];
        if sep == ',' {
            let ghost acc_pre = acc@;
            acc.push((key, val));
            proof {
                assert(pairs_view(acc@) =~= pairs_view(acc_pre).push((key@, opt_str_view(val))));
                assert forall|rest: Seq<(Seq<char>, Option<Seq<char>>)>| true implies
                    pairs_view(acc_pre) + (seq![(key@, opt_str_view(val))] + rest)
                        =~= pairs_view(acc@) + rest by {}
            }
            cur = j6 + 1;
        } else if sep == '}' {
            let ghost acc_pre = acc@;
            acc.push((key, val));
            proof {
                assert(parse_members_from(v@, cur as int)
                    == Some((seq![(key@, opt_str_view(val))], j6 + 1)));
                assert(pairs_view(acc_pre) + seq![(key@, opt_str_view(val))]
                    =~= pairs_view(acc@));
            }
            return Some((acc, j6 + 1));
        } else {
            return None;
        }
    }
}

/// The member of the frame with the given key, if any.
fn field_lookup(ms: &Vec<(String, Option<String>)>, key: &str) -> (r: Option<Option<String>>)
    ensures
        match r {
            Some(val) => field_of(pairs_view(ms@), key@) == Some(opt_str_view(val)),
            None => field_of(pairs_view(ms@), key@) matches None,
        },
{
    let n = ms.len();
    proof {
        assert(pairs_view(ms@).skip(0) =~= pairs_view(ms@));
    }
    let mut i: usize = 0;
    while i < n
        invariant
            n == ms@.len(),
            i <= n,
            field_of(pairs_view(ms@), key@) == field_of(pairs_view(ms@).skip(i as int), key@),
        decreases n - i,
    {
        let hit = str_eq(ms[i].0.as_str(), key);
        proof {
            assert(pairs_view(ms@).skip(i as int).len() == n - i);
            assert(pairs_view(ms@).skip(i as int)[0] == pairs_view(ms@)[i as int]);
            assert(pairs_view(ms@).skip(i as int).drop_first()
                =~= pairs_view(ms@).skip(i + 1));
        }
        if hit {
            let val = crate::models::clone_opt_string(&ms[i].1);
            proof {
                assert(field_of(pairs_view(ms@).skip(i as int), key@)
                    == Some(pairs_view(ms@)[i as int].1));
            }
            return Some(val);
        }
        i = i + 1;
    }
    proof {
        assert(pairs_view(ms@).skip(n as int).len() == 0);
    }
    None
}

/// A frame member that must hold a UUID string.
fn uuid_lookup(ms: &Vec<(String, Option<String>)>, key: &str) -> (r: Option<u128>)
    ensures
        r == uuid_field(pairs_view(ms@), key@),
{
    match field_lookup(ms, key) {
        Some(Some(v)) => crate::ids::uuid_parse(v.as_str()),
        _ => None,
    }
}

/// Decodes one inbound text frame. `None` stands for a frame that does
/// not parse as a client event; past the handshake such a frame is
/// dropped and the connection stays open.
pub fn decode_client_event(s: &str) -> (r: Option<ClientEvent>)
    ensures
        match r {
            Some(ev) => decode_client_frame_spec(s@) == Some(ev@),
            None => decode_client_frame_spec(s@) matches None,
        },
{
    let v = str_chars(s);
    let n = v.len();
    let i = skip_ws_exec(&v, 0);
    if i >= n {
        return None;
    }
    if v[i] != '{' {
        return None;
    }
    let j = skip_ws_exec(&v, i + 1);
    let mut ms: Vec<(String, Option<String>)> = Vec::new();
    if j < n && v[j] == '}' {
        if skip_ws_exec(&v, j + 1) != n {
            return None;
        }
        proof {
            assert(frame_members(s@) == Some(Seq::<(Seq<char>, Option<Seq<char>>)>::empty()));
            assert(pairs_view(ms@) =~= Seq::<(Seq<char>, Option<Seq<char>>)>::empty());
        }
    } else {
        let (m, j2) = match parse_members_exec(&v, i + 1) {
            None => {
                return None;
            },
            Some(p) => p,
        };
        if skip_ws_exec(&v, j2) != n {
            return None;
        }
        ms = m;
        proof {
            assert(frame_members(s@) == Some(pairs_view(ms@)));
        }
    }
    let ghost gms = pairs_view(ms@);
    // a frame with two members of one name is rejected
    let cnt = ms.len();
    let mut a: usize = 0;
    while a < cnt
        invariant
            cnt == ms@.len(),
            a <= cnt,
            gms == pairs_view(ms@),
            frame_members(s@) == Some(gms),
            forall|x: int, y: int| 0 <= x < y < cnt && x < a
                ==> (#[trigger] gms[x]).0 != (#[trigger] gms[y]).0,
        decreases cnt - a,
    {
        let mut b: usize = a + 1;
        while b < cnt
            invariant
                cnt == ms@.len(),
                a < b <= cnt || (a + 1 == b && b > cnt),
                a < cnt,
                gms == pairs_view(ms@),
                frame_members(s@) == Some(gms),
                forall|y: int| a < y < b ==> (#[trigger] gms[y]).0 != gms[a as int].0,
            decreases cnt - b,
        {
            if str_eq(ms[a].0.as_str(), ms[b].0.as_str()) {
                proof {
                    assert(gms[a as int].0 == gms[b as int].0);
                }
                return None;
            }
            b = b + 1;
        }
        a = a + 1;
    }
    assert(!has_dup_key(gms)) by {
        if has_dup_key(gms) {
            let (x, y) = choose|x: int, y: int|
                0 <= x < y < gms.len() && (#[trigger] gms[x]).0 == (#[trigger] gms[y]).0;
        }
    }
    // dispatch on the type tag
    let ty = match field_lookup(&ms, "type") {
        Some(Some(t)) => t,
        _ => {
            return None;
        },
    };
    if str_eq(ty.as_str(), "identify") {
        match field_lookup(&ms, "token") {
            Some(Some(tok)) => Some(ClientEvent::Identify { token: tok }),
            _ => None,
        }
    } else if str_eq(ty.as_str(), "subscribe_channel") {
        match uuid_lookup(&ms, "channel_id") {
            Some(u) => Some(ClientEvent::SubscribeChannel { channel_id: u }),
            None => None,
        }
    } else if str_eq(ty.as_str(), "unsubscribe_channel") {
        match uuid_lookup(&ms, "channel_id") {
            Some(u) => Some(ClientEvent::UnsubscribeChannel { channel_id: u }),
            None => None,
        }
    } else if str_eq(ty.as_str(), "subscribe_dm") {
        match uuid_lookup(&ms, "dm_channel_id") {
            Some(u) => Some(ClientEvent::SubscribeDm { dm_channel_id: u }),
            None => None,
        }
    } else if str_eq(ty.as_str(), "unsubscribe_dm") {
        match uuid_lookup(&ms, "dm_channel_id") {
            Some(u) => Some(ClientEvent::UnsubscribeDm { dm_channel_id: u }),
            None => None,
        }
    } else if str_eq(ty.as_str(), "message_create") {
        match (uuid_lookup(&ms, "channel_id"), field_lookup(&ms, "content")) {
            (Some(u), Some(Some(ct))) =>
                Some(ClientEvent::MessageCreate { channel_id: u, content: ct }),
            _ => None,
        }
    } else if str_eq(ty.as_str(), "dm_create") {
        match (uuid_lookup(&ms, "dm_channel_id"), field_lookup(&ms, "content")) {
            (Some(u), Some(Some(ct))) =>
                Some(ClientEvent::DmCreate { dm_channel_id: u, content: ct }),
            _ => None,
        }
    } else if str_eq(ty.as_str(), "typing_start") {
        match uuid_lookup(&ms, "channel_id") {
            Some(u) => Some(ClientEvent::TypingStart { channel_id: u }),
            None => None,
        }
    } else if str_eq(ty.as_str(), "presence_update") {
        match field_lookup(&ms, "status") {
            Some(Some(st)) => Some(ClientEvent::PresenceUpdate { status: st }),
            _ => None,
        }
    } else {
        None
    }
}

} // verus!
