use courier::wire::{Malformed, Message, ServerMessage};
use prost::encoding::{encode_key, encode_varint, string, WireType};

fn text(tag: u32, value: &str, buf: &mut Vec<u8>) {
    string::encode(tag, &value.to_string(), buf);
}

fn fields(message: &Message) -> [&str; 4] {
    [&message.email, &message.password, &message.recipient, &message.data]
}

fn decoded(bytes: &[u8]) -> [String; 4] {
    match Message::decode(bytes) {
        Ok(message) => fields(&message).map(|s| s.to_string()),
        Err(_) => panic!("no message"),
    }
}

fn refused(bytes: &[u8]) -> bool {
    match Message::decode(bytes) {
        Ok(_) => false,
        Err(e) => e == Malformed,
    }
}

#[test]
fn message_is_read_field_by_field() {
    let mut bytes = Vec::new();
    text(1, "a@b.c", &mut bytes);
    text(2, "pw", &mut bytes);
    text(3, "uuid", &mut bytes);
    text(4, "hällo 😝", &mut bytes);
    assert_eq!(decoded(&bytes), ["a@b.c", "pw", "uuid", "hällo 😝"]);
}

#[test]
fn message_is_read_from_known_bytes() {
    let bytes = [0x1a, 0x01, b'r', 0x0a, 0x02, b'm', b'e', 0x22, 0x00];
    assert_eq!(decoded(&bytes), ["me", "", "r", ""]);
    assert_eq!(decoded(&[]), ["", "", "", ""]);
}

#[test]
fn later_field_wins() {
    let mut bytes = Vec::new();
    text(4, "first", &mut bytes);
    text(1, "me", &mut bytes);
    text(4, "second", &mut bytes);
    assert_eq!(decoded(&bytes), ["me", "", "", "second"]);
}

#[test]
fn unknown_fields_are_passed_over() {
    let mut bytes = Vec::new();
    encode_key(5, WireType::Varint, &mut bytes);
    encode_varint(u64::MAX, &mut bytes);
    text(1, "me", &mut bytes);
    encode_key(6, WireType::SixtyFourBit, &mut bytes);
    bytes.extend_from_slice(&[1; 8]);
    encode_key(7, WireType::ThirtyTwoBit, &mut bytes);
    bytes.extend_from_slice(&[1; 4]);
    text(2, "pw", &mut bytes);
    text(1000, "whatever", &mut bytes);
    encode_key(8, WireType::StartGroup, &mut bytes);
    text(1, "inside", &mut bytes);
    encode_key(9, WireType::StartGroup, &mut bytes);
    encode_key(9, WireType::EndGroup, &mut bytes);
    encode_key(8, WireType::EndGroup, &mut bytes);
    text(3, "to", &mut bytes);
    assert_eq!(decoded(&bytes), ["me", "pw", "to", ""]);
}

#[test]
fn malformed_messages_are_refused() {
    // a key that does not end, a key with the number zero, a key with no layout
    assert!(refused(&[0x80]));
    assert!(refused(&[0x02, 0x00]));
    assert!(refused(&[0x0e, 0x00]));
    assert!(refused(&[0x0f, 0x00]));
    // a key beyond 32 bits, a varint beyond 64 bits, a varint of eleven bytes
    assert!(refused(&[0x82, 0x80, 0x80, 0x80, 0x10, 0x00]));
    assert!(refused(&[0x28, 0xff, 0xff, 0xff, 0xff, 0xff, 0xff, 0xff, 0xff, 0xff, 0x02]));
    assert!(refused(&[0x28, 0x80, 0x80, 0x80, 0x80, 0x80, 0x80, 0x80, 0x80, 0x80, 0x80, 0x00]));
    // a text that is too short, is no UTF-8, or is no text
    assert!(refused(&[0x0a, 0x03, b'a']));
    assert!(refused(&[0x0a, 0x01, 0xff]));
    assert!(refused(&[0x08, 0x01]));
    // a group that does not end, ends with another number, or was not opened
    assert!(refused(&[0x2b]));
    assert!(refused(&[0x2b, 0x34]));
    assert!(refused(&[0x2c]));
    // too few bytes of a fixed length
    assert!(refused(&[0x29, 1, 2, 3, 4, 5, 6, 7]));
    assert!(refused(&[0x2d, 1, 2, 3]));
    assert!(refused(&[0x2a, 2, 3]));
}

fn nested(groups: u32, inside: &[u8]) -> Vec<u8> {
    let mut bytes = Vec::new();
    for i in 0..groups {
        encode_key(5 + i, WireType::StartGroup, &mut bytes);
    }
    bytes.extend_from_slice(inside);
    for i in (0..groups).rev() {
        encode_key(5 + i, WireType::EndGroup, &mut bytes);
    }
    text(1, "me", &mut bytes);
    bytes
}

#[test]
fn groups_are_passed_over_up_to_their_end() {
    let mut inside = Vec::new();
    text(4, "a", &mut inside);
    encode_key(6, WireType::Varint, &mut inside);
    encode_varint(300, &mut inside);
    assert_eq!(decoded(&nested(1, &inside)), ["me", "", "", ""]);
    assert_eq!(decoded(&nested(2, &inside)), ["me", "", "", ""]);
    // a field that is cut short, a group that is closed twice
    assert!(refused(&nested(1, &[0x30])));
    assert!(refused(&nested(1, &[0x2c])));
}

#[test]
fn values_nested_too_deep_are_refused() {
    assert_eq!(decoded(&nested(100, &[])), ["me", "", "", ""]);
    assert!(refused(&nested(101, &[])));
    assert_eq!(decoded(&nested(99, &[0x30, 0x01])), ["me", "", "", ""]);
    assert!(refused(&nested(100, &[0x30, 0x01])));
}

#[test]
fn longest_varint_is_passed_over() {
    let bytes = [0x28, 0xff, 0xff, 0xff, 0xff, 0xff, 0xff, 0xff, 0xff, 0xff, 0x01, 0x0a, 1, b'x'];
    assert_eq!(decoded(&bytes), ["x", "", "", ""]);
    let padded = [0x8a, 0x80, 0x00, 0x81, 0x00, b'x'];
    assert_eq!(decoded(&padded), ["x", "", "", ""]);
}

#[test]
fn server_message_is_written_to_known_bytes() {
    let message = ServerMessage { data: "hi".to_string(), sender: "me".to_string() };
    assert_eq!(message.encode_to_vec(), [0x0a, 2, b'h', b'i', 0x12, 2, b'm', b'e']);
}

#[test]
fn empty_fields_are_not_written() {
    let nothing = ServerMessage { data: String::new(), sender: String::new() };
    assert!(nothing.encode_to_vec().is_empty());
    let anonymous = ServerMessage { data: "x".to_string(), sender: String::new() };
    assert_eq!(anonymous.encode_to_vec(), [0x0a, 1, b'x']);
    let silent = ServerMessage { data: String::new(), sender: "x".to_string() };
    assert_eq!(silent.encode_to_vec(), [0x12, 1, b'x']);
}

#[test]
fn long_text_has_a_long_length() {
    let message = ServerMessage { data: "x".repeat(300), sender: String::new() };
    let bytes = message.encode_to_vec();
    assert_eq!(&bytes[..3], &[0x0a, 0xac, 0x02]);
    assert_eq!(bytes.len(), 303);
    // a device that knows the first field as the address reads the same text
    assert_eq!(decoded(&bytes)[0], "x".repeat(300));
}
