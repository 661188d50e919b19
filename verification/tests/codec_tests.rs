//! Frame codec tests: exact encodings, a cross-check through
//! `serde_json`, and the decoder on well-formed, whitespaced, escaped
//! and malformed frames.

use banter_backend::codec::{decode_client_event, encode_ws_event};
use banter_backend::events::{ClientEvent, WsEvent};
use banter_backend::models::ProfileSummary;

const U1: u128 = 0x550e8400_e29b_41d4_a716_446655440000;
const U1_TEXT: &str = "550e8400-e29b-41d4-a716-446655440000";
const C1: u128 = 0x11111111_2222_3333_4444_555555555555;
const C1_TEXT: &str = "11111111-2222-3333-4444-555555555555";

fn author() -> ProfileSummary {
    ProfileSummary {
        id: U1,
        username: Some("ana".to_owned()),
        display_name: "Ana".to_owned(),
        avatar_url: None,
    }
}

#[test]
fn encode_ready_frame() {
    let s = encode_ws_event(&WsEvent::Ready { user_id: U1 });
    assert_eq!(s, format!("{{\"type\":\"ready\",\"user_id\":\"{U1_TEXT}\"}}"));
}

#[test]
fn encode_error_frame() {
    let s = encode_ws_event(&WsEvent::Error { message: "boom".to_owned() });
    assert_eq!(s, "{\"type\":\"error\",\"message\":\"boom\"}");
}

#[test]
fn encode_escapes_content() {
    let s = encode_ws_event(&WsEvent::Error {
        message: "a\"b\\c\nd\te\u{0001}".to_owned(),
    });
    assert_eq!(s, "{\"type\":\"error\",\"message\":\"a\\\"b\\\\c\\nd\\te\\u0001\"}");
}

#[test]
fn encode_message_create_parses_as_json() {
    let ev = WsEvent::MessageCreate {
        id: 42,
        channel_id: C1,
        author: author(),
        content: "hi there".to_owned(),
        created_at: "2024-05-01T10:00:00+00:00".to_owned(),
    };
    let s = encode_ws_event(&ev);
    let v: serde_json::Value = serde_json::from_str(&s).unwrap();
    assert_eq!(v["type"], "message_create");
    assert_eq!(v["channel_id"], C1_TEXT);
    assert_eq!(v["author"]["display_name"], "Ana");
    assert_eq!(v["author"]["username"], "ana");
    assert!(v["author"]["avatar_url"].is_null());
    assert_eq!(v["content"], "hi there");
    assert_eq!(v["created_at"], "2024-05-01T10:00:00+00:00");
}

#[test]
fn encode_presence_and_typing_parse_as_json() {
    let s = encode_ws_event(&WsEvent::PresenceUpdate {
        user_id: U1,
        status: "idle".to_owned(),
    });
    let v: serde_json::Value = serde_json::from_str(&s).unwrap();
    assert_eq!(v["type"], "presence_update");
    assert_eq!(v["user_id"], U1_TEXT);
    assert_eq!(v["status"], "idle");

    let s2 = encode_ws_event(&WsEvent::TypingStart { channel_id: C1, user: author() });
    let v2: serde_json::Value = serde_json::from_str(&s2).unwrap();
    assert_eq!(v2["type"], "typing_start");
    assert_eq!(v2["channel_id"], C1_TEXT);
    assert_eq!(v2["user"]["id"], U1_TEXT);
}

#[test]
fn decode_identify_frame() {
    let ev = decode_client_event("{\"type\":\"identify\",\"token\":\"T1\"}");
    match ev {
        Some(ClientEvent::Identify { token }) => assert_eq!(token, "T1"),
        _ => panic!("expected identify"),
    }
}

#[test]
fn decode_tolerates_whitespace_and_field_order() {
    let ev = decode_client_event(
        " {\n\t\"channel_id\" :  \"11111111-2222-3333-4444-555555555555\" ,\n  \"type\": \"subscribe_channel\" } ",
    );
    match ev {
        Some(ClientEvent::SubscribeChannel { channel_id }) => assert_eq!(channel_id, C1),
        _ => panic!("expected subscribe_channel"),
    }
}

#[test]
fn decode_message_create_frame() {
    let frame = format!("{{\"type\":\"message_create\",\"channel_id\":\"{C1_TEXT}\",\"content\":\"hi\"}}");
    match decode_client_event(&frame) {
        Some(ClientEvent::MessageCreate { channel_id, content }) => {
            assert_eq!(channel_id, C1);
            assert_eq!(content, "hi");
        },
        _ => panic!("expected message_create"),
    }
}

#[test]
fn decode_unescapes_content() {
    let frame = "{\"type\":\"presence_update\",\"status\":\"a\\\"b\\\\c\\nd\\u0041\\u00e9\"}";
    match decode_client_event(frame) {
        Some(ClientEvent::PresenceUpdate { status }) => {
            assert_eq!(status, "a\"b\\c\ndA\u{e9}");
        },
        _ => panic!("expected presence_update"),
    }
}

#[test]
fn decode_ignores_unknown_fields() {
    let frame = format!(
        "{{\"extra\":null,\"type\":\"typing_start\",\"channel_id\":\"{C1_TEXT}\",\"more\":\"x\"}}"
    );
    match decode_client_event(&frame) {
        Some(ClientEvent::TypingStart { channel_id }) => assert_eq!(channel_id, C1),
        _ => panic!("expected typing_start"),
    }
}

#[test]
fn decode_rejects_malformed_frames() {
    assert!(decode_client_event("").is_none());
    assert!(decode_client_event("not json").is_none());
    assert!(decode_client_event("{").is_none());
    assert!(decode_client_event("{}").is_none());
    assert!(decode_client_event("{\"type\":\"unknown_kind\"}").is_none());
    assert!(decode_client_event("{\"type\":\"identify\"}").is_none());
    assert!(decode_client_event("{\"type\":\"identify\",\"token\":null}").is_none());
    assert!(decode_client_event("{\"type\":\"subscribe_channel\",\"channel_id\":\"nope\"}").is_none());
    assert!(decode_client_event("{\"type\":\"identify\",\"token\":\"a\"} x").is_none());
    // duplicate member names are rejected
    assert!(decode_client_event("{\"type\":\"identify\",\"token\":\"a\",\"token\":\"b\"}").is_none());
    // raw control characters and bad escapes are rejected
    assert!(decode_client_event("{\"type\":\"identify\",\"token\":\"a\u{0001}\"}").is_none());
    assert!(decode_client_event("{\"type\":\"identify\",\"token\":\"\\q\"}").is_none());
    assert!(decode_client_event("{\"type\":\"identify\",\"token\":\"\\ud800\"}").is_none());
}

#[test]
fn decode_all_variants() {
    let cases: Vec<(String, &str)> = vec![
        (format!("{{\"type\":\"unsubscribe_channel\",\"channel_id\":\"{C1_TEXT}\"}}"), "unsub_c"),
        (format!("{{\"type\":\"subscribe_dm\",\"dm_channel_id\":\"{C1_TEXT}\"}}"), "sub_dm"),
        (format!("{{\"type\":\"unsubscribe_dm\",\"dm_channel_id\":\"{C1_TEXT}\"}}"), "unsub_dm"),
        (format!("{{\"type\":\"dm_create\",\"dm_channel_id\":\"{C1_TEXT}\",\"content\":\"yo\"}}"), "dm"),
    ];
    for (frame, tag) in cases {
        let ev = decode_client_event(&frame);
        match (tag, ev) {
            ("unsub_c", Some(ClientEvent::UnsubscribeChannel { channel_id })) => {
                assert_eq!(channel_id, C1)
            },
            ("sub_dm", Some(ClientEvent::SubscribeDm { dm_channel_id })) => {
                assert_eq!(dm_channel_id, C1)
            },
            ("unsub_dm", Some(ClientEvent::UnsubscribeDm { dm_channel_id })) => {
                assert_eq!(dm_channel_id, C1)
            },
            ("dm", Some(ClientEvent::DmCreate { dm_channel_id, content })) => {
                assert_eq!(dm_channel_id, C1);
                assert_eq!(content, "yo");
            },
            _ => panic!("decode failed for {tag}"),
        }
    }
}

#[test]
fn decode_agrees_with_serde_json_values() {
    // what my decoder accepts, serde_json also reads as one object
    let frame = format!("{{\"type\":\"dm_create\",\"dm_channel_id\":\"{C1_TEXT}\",\"content\":\"h\\u00e9\"}}");
    let v: serde_json::Value = serde_json::from_str(&frame).unwrap();
    match decode_client_event(&frame) {
        Some(ClientEvent::DmCreate { content, .. }) => {
            assert_eq!(v["content"].as_str().unwrap(), content);
        },
        _ => panic!("expected dm_create"),
    }
}
