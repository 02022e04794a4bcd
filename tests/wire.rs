use kustodio::event::Action;
use kustodio::message::{decode, encode, LockMessage, MESSAGE_ID_LEN};

fn msg(name: &str, action: i32, id: &str) -> LockMessage {
    LockMessage { name: name.to_string(), action, message_id: id.to_string() }
}

#[test]
fn encodes_every_field_in_order() {
    let bytes = encode(&msg("a", 2, "xyz"));
    assert_eq!(
        bytes,
        vec![0x0A, 0x0A, 0x0A, 0x01, 0x61, 0x10, 0x02, 0x1A, 0x03, 0x78, 0x79, 0x7A]
    );
}

#[test]
fn leaves_default_fields_out() {
    assert_eq!(encode(&msg("a", 0, "")), vec![0x0A, 0x03, 0x0A, 0x01, 0x61]);
    assert_eq!(encode(&msg("", 0, "")), vec![0x0A, 0x00]);
}

#[test]
fn negative_action_travels_as_ten_bytes() {
    let bytes = encode(&msg("", -1, ""));
    let mut expected = vec![0x0A, 0x0B, 0x10];
    expected.extend(std::iter::repeat(0xFF).take(9));
    expected.push(0x01);
    assert_eq!(bytes, expected);
    assert_eq!(decode(&bytes), Some(msg("", -1, "")));
}

#[test]
fn long_name_gets_two_byte_length() {
    let name = "n".repeat(200);
    let bytes = encode(&msg(&name, 1, ""));
    assert_eq!(&bytes[0..4], &[0x0A, 0xCD, 0x01, 0x0A]);
    assert_eq!(&bytes[4..6], &[0xC8, 0x01]);
    assert_eq!(decode(&bytes), Some(msg(&name, 1, "")));
}

#[test]
fn round_trip_keeps_name_and_action() {
    for action in [Action::Created, Action::Removed, Action::Locked, Action::Unlocked] {
        let m = LockMessage::new(action, "lock-é".to_string());
        let back = decode(&encode(&m)).unwrap();
        assert_eq!(back.name, "lock-é");
        assert_eq!(back.action, action.code());
        assert_eq!(back, m);
    }
}

#[test]
fn fresh_tokens_have_fixed_length_and_alphabet() {
    let a = LockMessage::new(Action::Locked, "x".to_string());
    let b = LockMessage::new(Action::Locked, "x".to_string());
    assert_eq!(a.message_id.chars().count(), MESSAGE_ID_LEN);
    assert!(a
        .message_id
        .chars()
        .all(|c| c.is_ascii_alphanumeric() || c == '-' || c == '_'));
    assert_ne!(a.message_id, b.message_id);
    assert_eq!(a.action, 2);
}

#[test]
fn rejects_bytes_that_encode_no_message() {
    assert_eq!(decode(&[]), None);
    assert_eq!(decode(&[0x12, 0x00]), None);
    assert_eq!(decode(&[0x0A, 0x05, 0x0A]), None);
    assert_eq!(decode(&[0x0A, 0x03, 0x0A, 0x01, 0x61, 0x00]), None);
    assert_eq!(decode(&[0x0A, 0x02, 0x0A, 0x00]), None);
    assert_eq!(decode(&[0x0A, 0x02, 0x10, 0x00]), None);
    assert_eq!(decode(&[0x0A, 0x03, 0x0A, 0x01, 0xFF]), None);
    assert_eq!(decode(&[0x0A, 0x80, 0x00]), None);
    assert_eq!(decode(&[0x0A, 0x05, 0x1A, 0x01, 0x61, 0x0A, 0x00]), None);
}

#[test]
fn action_numbers() {
    assert_eq!(Action::from_i32(0), Some(Action::Created));
    assert_eq!(Action::from_i32(1), Some(Action::Removed));
    assert_eq!(Action::from_i32(2), Some(Action::Locked));
    assert_eq!(Action::from_i32(3), Some(Action::Unlocked));
    assert_eq!(Action::from_i32(4), None);
    assert_eq!(Action::from_i32(-1), None);
    assert_eq!(Action::Unlocked.code(), 3);
}
