//! Registry behavior: fan-out ordering, multi-device delivery, bounded
//! windows under a slow subscriber, and presence bookkeeping.

use banter_backend::codec::encode_ws_event;
use banter_backend::events::WsEvent;
use banter_backend::registry::{WsState, FANOUT_CAPACITY};

const U1: u128 = 1001;
const U2: u128 = 1002;
const T1: u128 = 7001;
const T2: u128 = 7002;

fn ev(n: usize) -> WsEvent {
    WsEvent::Error { message: format!("event {n}") }
}

fn drain_topic(st: &mut WsState, t: u128, c: u64) {
    while st.forward_subscription_event(t, c) {}
}

fn pop_all(st: &mut WsState, c: u64) -> Vec<String> {
    let mut out = Vec::new();
    while let Some(e) = st.pop_outbound(c) {
        out.push(encode_ws_event(&e));
    }
    out
}

#[test]
fn both_subscribers_observe_same_order() {
    let mut st = WsState::new();
    let c1 = st.register_user(U1);
    let c2 = st.register_user(U2);
    st.subscribe(T1, c1);
    st.subscribe(T1, c2);
    for n in 0..5 {
        st.broadcast_to_channel(T1, &ev(n));
    }
    drain_topic(&mut st, T1, c1);
    drain_topic(&mut st, T1, c2);
    let got1 = pop_all(&mut st, c1);
    let got2 = pop_all(&mut st, c2);
    let expected: Vec<String> = (0..5).map(|n| encode_ws_event(&ev(n))).collect();
    assert_eq!(got1, expected);
    assert_eq!(got2, expected);
}

#[test]
fn direct_delivery_reaches_every_device() {
    let mut st = WsState::new();
    let c1 = st.register_user(U1);
    let c2 = st.register_user(U1);
    assert_ne!(c1, c2);
    st.send_to_user(U1, &ev(9));
    assert_eq!(pop_all(&mut st, c1), vec![encode_ws_event(&ev(9))]);
    assert_eq!(pop_all(&mut st, c2), vec![encode_ws_event(&ev(9))]);
}

#[test]
fn delivery_to_offline_user_is_silent() {
    let mut st = WsState::new();
    let c1 = st.register_user(U1);
    st.send_to_user(U2, &ev(1));
    assert_eq!(pop_all(&mut st, c1), Vec::<String>::new());
}

#[test]
fn slow_subscriber_loses_oldest_events_and_publisher_never_stalls() {
    let mut st = WsState::new();
    let c1 = st.register_user(U1);
    st.subscribe(T1, c1);
    let extra = 5;
    // a fast publisher far outruns the (never draining) subscriber;
    // every publish returns immediately
    for n in 0..FANOUT_CAPACITY + extra {
        st.broadcast_to_channel(T1, &ev(n));
    }
    drain_topic(&mut st, T1, c1);
    let got = pop_all(&mut st, c1);
    assert_eq!(got.len(), FANOUT_CAPACITY);
    // the oldest `extra` events were dropped; the rest keep their order
    let expected: Vec<String> = (extra..FANOUT_CAPACITY + extra)
        .map(|n| encode_ws_event(&ev(n)))
        .collect();
    assert_eq!(got, expected);
}

#[test]
fn publish_to_unknown_topic_is_silent() {
    let mut st = WsState::new();
    let c1 = st.register_user(U1);
    st.subscribe(T1, c1);
    st.broadcast_to_channel(T2, &ev(3));
    drain_topic(&mut st, T1, c1);
    assert_eq!(pop_all(&mut st, c1), Vec::<String>::new());
}

#[test]
fn subscription_sees_no_replayed_history() {
    let mut st = WsState::new();
    let c1 = st.register_user(U1);
    let c2 = st.register_user(U2);
    st.subscribe(T1, c1);
    st.broadcast_to_channel(T1, &ev(0));
    st.subscribe(T1, c2);
    st.broadcast_to_channel(T1, &ev(1));
    drain_topic(&mut st, T1, c1);
    drain_topic(&mut st, T1, c2);
    assert_eq!(
        pop_all(&mut st, c1),
        vec![encode_ws_event(&ev(0)), encode_ws_event(&ev(1))]
    );
    assert_eq!(pop_all(&mut st, c2), vec![encode_ws_event(&ev(1))]);
}

#[test]
fn unsubscribe_stops_fanout() {
    let mut st = WsState::new();
    let c1 = st.register_user(U1);
    st.subscribe(T1, c1);
    st.broadcast_to_channel(T1, &ev(0));
    drain_topic(&mut st, T1, c1);
    st.unsubscribe(T1, c1);
    st.broadcast_to_channel(T1, &ev(1));
    drain_topic(&mut st, T1, c1);
    assert_eq!(pop_all(&mut st, c1), vec![encode_ws_event(&ev(0))]);
}

#[test]
fn presence_entry_tracks_paths() {
    let mut st = WsState::new();
    assert!(!st.user_is_connected(U1));
    let c1 = st.register_user(U1);
    assert!(st.user_is_connected(U1));
    let c2 = st.register_user(U1);
    st.unregister_user(U1, c1);
    assert!(st.user_is_connected(U1));
    st.unregister_user(U1, c2);
    assert!(!st.user_is_connected(U1));
    // removing a path that is not registered is a no-op
    st.unregister_user(U1, c2);
    assert!(!st.user_is_connected(U1));
}

#[test]
fn get_or_create_channel_is_idempotent() {
    let mut st = WsState::new();
    st.get_or_create_channel(T1);
    st.get_or_create_channel(T1);
    let c1 = st.register_user(U1);
    st.subscribe(T1, c1);
    st.broadcast_to_channel(T1, &ev(0));
    drain_topic(&mut st, T1, c1);
    // one fan-out point exists, so exactly one copy arrives
    assert_eq!(pop_all(&mut st, c1), vec![encode_ws_event(&ev(0))]);
}
