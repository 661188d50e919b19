//! Session lifecycle scenarios: handshake, dispatch, message fan-out,
//! direct-message hand delivery, presence broadcast, and teardown.

use banter_backend::codec::{decode_client_event, encode_ws_event};
use banter_backend::events::WsEvent;
use banter_backend::models::ProfileSummary;
use banter_backend::registry::WsState;
use banter_backend::session::{broadcast_presence, IoRequest, Session, SessionPhase};

const U1: u128 = 0x550e8400_e29b_41d4_a716_446655440000;
const U1_TEXT: &str = "550e8400-e29b-41d4-a716-446655440000";
const U2: u128 = 0xaaaaaaaa_bbbb_cccc_dddd_eeeeeeeeeeee;
const U3: u128 = 0x99999999_8888_7777_6666_555555555555;
const C1: u128 = 0x11111111_2222_3333_4444_555555555555;
const C1_TEXT: &str = "11111111-2222-3333-4444-555555555555";
const DM1: u128 = 0x12121212_3434_5656_7878_909090909090;
const DM1_TEXT: &str = "12121212-3434-5656-7878-909090909090";

fn author(id: u128) -> ProfileSummary {
    ProfileSummary {
        id,
        username: Some("kim".to_owned()),
        display_name: "Kim".to_owned(),
        avatar_url: None,
    }
}

fn identify(state: &mut WsState, user: u128) -> (Session, u64) {
    let mut s = Session::new();
    let frame = decode_client_event("{\"type\":\"identify\",\"token\":\"tok\"}");
    let token = s.first_frame(frame);
    assert_eq!(token.as_deref(), Some("tok"));
    let ready = s.identify_verified(state, Ok(user));
    match s.phase {
        SessionPhase::Active { user: u, conn } => {
            assert_eq!(u, user);
            assert!(matches!(ready, WsEvent::Ready { user_id } if user_id == user));
            (s, conn)
        },
        _ => panic!("session should be active"),
    }
}

fn subscribe_channel(s: &mut Session, state: &mut WsState, text: &str) {
    let frame = decode_client_event(&format!(
        "{{\"type\":\"subscribe_channel\",\"channel_id\":\"{text}\"}}"
    ))
    .unwrap();
    assert!(s.handle_client_event(state, frame).is_none());
}

fn pop_all(st: &mut WsState, c: u64) -> Vec<String> {
    let mut out = Vec::new();
    while let Some(e) = st.pop_outbound(c) {
        out.push(encode_ws_event(&e));
    }
    out
}

fn drain_and_pop(st: &mut WsState, t: u128, c: u64) -> Vec<String> {
    while st.forward_subscription_event(t, c) {}
    pop_all(st, c)
}

#[test]
fn identify_then_post_reaches_both_subscribers() {
    let mut state = WsState::new();
    // first client identifies and receives the ready frame
    let (mut s1, c1) = identify(&mut state, U1);
    let ready = encode_ws_event(&WsEvent::Ready { user_id: U1 });
    assert_eq!(ready, format!("{{\"type\":\"ready\",\"user_id\":\"{U1_TEXT}\"}}"));
    subscribe_channel(&mut s1, &mut state, C1_TEXT);

    // a second client subscribes and posts "hi"
    let (mut s2, c2) = identify(&mut state, U2);
    subscribe_channel(&mut s2, &mut state, C1_TEXT);
    let frame = decode_client_event(&format!(
        "{{\"type\":\"message_create\",\"channel_id\":\"{C1_TEXT}\",\"content\":\"hi\"}}"
    ))
    .unwrap();
    let io = s2.handle_client_event(&mut state, frame);
    let (channel_id, content) = match io {
        Some(IoRequest::PersistMessage { channel_id, content }) => (channel_id, content),
        _ => panic!("expected a persistence request"),
    };
    assert_eq!(channel_id, C1);
    assert_eq!(content, "hi");
    // the store assigned an id and a timestamp; the event goes out
    s2.message_persisted(
        &mut state,
        channel_id,
        42,
        content,
        "2024-05-01T10:00:00+00:00".to_owned(),
        author(U2),
    );

    let got1 = drain_and_pop(&mut state, C1, c1);
    let got2 = drain_and_pop(&mut state, C1, c2);
    assert_eq!(got1.len(), 1);
    // both clients receive the identical frame: same id, same timestamp
    assert_eq!(got1, got2);
    let v: serde_json::Value = serde_json::from_str(&got1[0]).unwrap();
    assert_eq!(v["type"], "message_create");
    assert_eq!(v["channel_id"], C1_TEXT);
    assert_eq!(v["content"], "hi");
    assert_eq!(v["created_at"], "2024-05-01T10:00:00+00:00");
}

#[test]
fn frame_before_identify_closes_without_registering() {
    let mut state = WsState::new();
    let mut s = Session::new();
    let frame = decode_client_event(&format!(
        "{{\"type\":\"subscribe_channel\",\"channel_id\":\"{C1_TEXT}\"}}"
    ));
    let r = s.first_frame(frame);
    assert!(r.is_none());
    assert_eq!(s.phase, SessionPhase::Closed);
    let err = encode_ws_event(&Session::handshake_error());
    assert_eq!(err, "{\"type\":\"error\",\"message\":\"First message must be identify\"}");
    // no registry entry was created for anyone
    assert!(!state.user_is_connected(U1));
    assert!(!s.close_connection(&mut state));
}

#[test]
fn rejected_token_closes_with_error() {
    let mut state = WsState::new();
    let mut s = Session::new();
    let frame = decode_client_event("{\"type\":\"identify\",\"token\":\"bad\"}");
    assert!(s.first_frame(frame).is_some());
    let r = s.identify_verified(&mut state, Err("Invalid token: boo".to_owned()));
    assert_eq!(
        encode_ws_event(&r),
        "{\"type\":\"error\",\"message\":\"Invalid token: boo\"}"
    );
    assert_eq!(s.phase, SessionPhase::Closed);
    assert!(!state.user_is_connected(U1));
}

#[test]
fn duplicate_identify_is_ignored() {
    let mut state = WsState::new();
    let (mut s1, c1) = identify(&mut state, U1);
    let frame = decode_client_event("{\"type\":\"identify\",\"token\":\"again\"}").unwrap();
    assert!(s1.handle_client_event(&mut state, frame).is_none());
    assert!(matches!(s1.phase, SessionPhase::Active { .. }));
    assert_eq!(pop_all(&mut state, c1), Vec::<String>::new());
}

#[test]
fn subscribing_twice_equals_subscribing_once() {
    let mut state = WsState::new();
    let (mut s1, c1) = identify(&mut state, U1);
    subscribe_channel(&mut s1, &mut state, C1_TEXT);
    subscribe_channel(&mut s1, &mut state, C1_TEXT);
    state.broadcast_to_channel(C1, &WsEvent::Error { message: "once".to_owned() });
    let got = drain_and_pop(&mut state, C1, c1);
    // one subscription, one delivery
    assert_eq!(got.len(), 1);
}

#[test]
fn unsubscribing_when_never_subscribed_is_a_no_op() {
    let mut state = WsState::new();
    let (mut s1, c1) = identify(&mut state, U1);
    let frame = decode_client_event(&format!(
        "{{\"type\":\"unsubscribe_channel\",\"channel_id\":\"{C1_TEXT}\"}}"
    ))
    .unwrap();
    assert!(s1.handle_client_event(&mut state, frame).is_none());
    assert!(matches!(s1.phase, SessionPhase::Active { .. }));
    assert_eq!(pop_all(&mut state, c1), Vec::<String>::new());
}

#[test]
fn dm_reaches_unsubscribed_recipient_directly() {
    let mut state = WsState::new();
    let (s1, c1) = identify(&mut state, U1);
    // the recipient is online on one connection but never opened the DM
    let (_s2, c2) = identify(&mut state, U2);

    let frame = decode_client_event(&format!(
        "{{\"type\":\"dm_create\",\"dm_channel_id\":\"{DM1_TEXT}\",\"content\":\"psst\"}}"
    ))
    .unwrap();
    let mut s1 = s1;
    let io = s1.handle_client_event(&mut state, frame);
    let (dm, content) = match io {
        Some(IoRequest::PersistDm { dm_channel_id, content }) => (dm_channel_id, content),
        _ => panic!("expected a DM persistence request"),
    };
    s1.dm_persisted(
        &mut state,
        dm,
        7,
        content,
        "2024-05-01T10:00:01+00:00".to_owned(),
        author(U1),
        &vec![U2],
    );
    // the recipient's open connection received the dm_create event
    // without any subscription or forwarding step
    let got = pop_all(&mut state, c2);
    assert_eq!(got.len(), 1);
    let v: serde_json::Value = serde_json::from_str(&got[0]).unwrap();
    assert_eq!(v["type"], "dm_create");
    assert_eq!(v["dm_channel_id"], DM1_TEXT);
    assert_eq!(v["content"], "psst");
    // the author has no subscription either; nothing reached them
    assert_eq!(pop_all(&mut state, c1), Vec::<String>::new());
}

#[test]
fn dm_not_hand_delivered_to_subscribed_recipient_twice() {
    let mut state = WsState::new();
    let (mut s1, _c1) = identify(&mut state, U1);
    let (mut s2, c2) = identify(&mut state, U2);
    // the recipient has the conversation open: subscribed to the DM topic
    let frame = decode_client_event(&format!(
        "{{\"type\":\"subscribe_dm\",\"dm_channel_id\":\"{DM1_TEXT}\"}}"
    ))
    .unwrap();
    assert!(s2.handle_client_event(&mut state, frame).is_none());

    s1.dm_persisted(
        &mut state,
        DM1,
        8,
        "hello".to_owned(),
        "2024-05-01T10:00:02+00:00".to_owned(),
        author(U1),
        &vec![U2],
    );
    let got = drain_and_pop(&mut state, DM1, c2);
    // exactly one copy: through the topic, not also by hand
    assert_eq!(got.len(), 1);
}

#[test]
fn failed_message_persist_errors_only_origin() {
    let mut state = WsState::new();
    let (s1, c1) = identify(&mut state, U1);
    let (_s2, c2) = identify(&mut state, U2);
    s1.message_persist_failed(&mut state);
    assert_eq!(
        pop_all(&mut state, c1),
        vec!["{\"type\":\"error\",\"message\":\"Failed to send message\"}".to_owned()]
    );
    assert_eq!(pop_all(&mut state, c2), Vec::<String>::new());
    s1.dm_persist_failed(&mut state);
    assert_eq!(
        pop_all(&mut state, c1),
        vec!["{\"type\":\"error\",\"message\":\"Failed to send DM\"}".to_owned()]
    );
}

#[test]
fn typing_start_broadcasts_best_effort() {
    let mut state = WsState::new();
    let (mut s1, c1) = identify(&mut state, U1);
    subscribe_channel(&mut s1, &mut state, C1_TEXT);
    let frame = decode_client_event(&format!(
        "{{\"type\":\"typing_start\",\"channel_id\":\"{C1_TEXT}\"}}"
    ))
    .unwrap();
    match s1.handle_client_event(&mut state, frame) {
        Some(IoRequest::FetchTypingAuthor { channel_id }) => assert_eq!(channel_id, C1),
        _ => panic!("expected a profile fetch request"),
    }
    s1.typing_fetched(&mut state, C1, author(U1));
    let got = drain_and_pop(&mut state, C1, c1);
    assert_eq!(got.len(), 1);
    let v: serde_json::Value = serde_json::from_str(&got[0]).unwrap();
    assert_eq!(v["type"], "typing_start");
}

#[test]
fn presence_broadcast_reaches_each_peer_once() {
    let mut state = WsState::new();
    let (_s1, c1) = identify(&mut state, U1);
    let (_s2, c2) = identify(&mut state, U2);
    let (_s3, c3) = identify(&mut state, U3);
    broadcast_presence(&mut state, U1, "idle", &vec![U2, U3]);
    let expected = encode_ws_event(&WsEvent::PresenceUpdate {
        user_id: U1,
        status: "idle".to_owned(),
    });
    assert_eq!(pop_all(&mut state, c2), vec![expected.clone()]);
    assert_eq!(pop_all(&mut state, c3), vec![expected]);
    // the user themself is not a peer
    assert_eq!(pop_all(&mut state, c1), Vec::<String>::new());
}

#[test]
fn closing_last_connection_goes_offline_once() {
    let mut state = WsState::new();
    let (mut sa, _ca) = identify(&mut state, U1);
    let (mut sb, _cb) = identify(&mut state, U1);
    // closing one of two connections keeps the user online
    assert!(!sa.close_connection(&mut state));
    assert!(state.user_is_connected(U1));
    // closing the last one takes the user offline, exactly once
    assert!(sb.close_connection(&mut state));
    assert!(!state.user_is_connected(U1));
    // teardown is idempotent: a second close reports nothing
    assert!(!sb.close_connection(&mut state));
    assert_eq!(sb.phase, SessionPhase::Closed);
}

#[test]
fn close_drops_subscriptions_and_queue() {
    let mut state = WsState::new();
    let (mut s1, c1) = identify(&mut state, U1);
    let (_s2, c2) = identify(&mut state, U2);
    subscribe_channel(&mut s1, &mut state, C1_TEXT);
    assert!(s1.close_connection(&mut state));
    // the closed connection no longer receives topic fan-out
    state.broadcast_to_channel(C1, &WsEvent::Error { message: "late".to_owned() });
    assert!(!state.forward_subscription_event(C1, c1));
    assert!(state.pop_outbound(c1).is_none());
    // an unrelated connection is untouched
    state.send_to_user(U2, &WsEvent::Error { message: "ok".to_owned() });
    assert_eq!(pop_all(&mut state, c2).len(), 1);
}
