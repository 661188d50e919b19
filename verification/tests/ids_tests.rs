//! Identifier text-form tests: formatting, parsing, round trips, and a
//! cross-check against the `uuid` crate.

use banter_backend::ids::{uuid_parse, uuid_to_string};

#[test]
fn uuid_format_known_value() {
    let u: u128 = 0x550e8400_e29b_41d4_a716_446655440000;
    assert_eq!(
        uuid_to_string(u),
        "550e8400-e29b-41d4-a716-446655440000"
    );
}

#[test]
fn uuid_format_zero_and_max() {
    assert_eq!(uuid_to_string(0), "00000000-0000-0000-0000-000000000000");
    assert_eq!(uuid_to_string(u128::MAX), "ffffffff-ffff-ffff-ffff-ffffffffffff");
}

#[test]
fn uuid_parse_round_trip() {
    for u in [0u128, 1, 0xdeadbeef, u128::MAX, 0x0123_4567_89ab_cdef_0123_4567_89ab_cdef] {
        let text = uuid_to_string(u);
        assert_eq!(uuid_parse(&text), Some(u));
    }
}

#[test]
fn uuid_parse_accepts_uppercase() {
    assert_eq!(
        uuid_parse("550E8400-E29B-41D4-A716-446655440000"),
        Some(0x550e8400_e29b_41d4_a716_446655440000)
    );
}

#[test]
fn uuid_parse_rejects_bad_shapes() {
    assert_eq!(uuid_parse(""), None);
    assert_eq!(uuid_parse("550e8400e29b41d4a716446655440000"), None);
    assert_eq!(uuid_parse("550e8400-e29b-41d4-a716-44665544000"), None);
    assert_eq!(uuid_parse("550e8400-e29b-41d4-a716-4466554400000"), None);
    assert_eq!(uuid_parse("550e8400-e29b-41d4-a716-44665544000g"), None);
    assert_eq!(uuid_parse("550e8400+e29b-41d4-a716-446655440000"), None);
}

#[test]
fn uuid_text_agrees_with_uuid_crate() {
    for u in [0u128, 7, 0x550e8400_e29b_41d4_a716_446655440000, u128::MAX - 3] {
        let ours = uuid_to_string(u);
        let theirs = uuid::Uuid::from_u128(u).to_string();
        assert_eq!(ours, theirs);
        let parsed = uuid::Uuid::parse_str(&ours).unwrap().as_u128();
        assert_eq!(uuid_parse(&ours), Some(parsed));
    }
}
