use std::hash::{Hash, Hasher};

use ants::multicast::build_error;
use ants::multicast::message::{Kind, MulticastMessage, Timestamp};

fn stamp() -> Timestamp {
    Timestamp { seconds: 1_700_000_000, nanos: 123_456_789 }
}

fn fresh_uuid() -> u128 {
    uuid::Uuid::new_v4().as_u128()
}

/// The body of the test value `{ field1: u64::MAX / 2, field2: 42 }` as JSON.
const SECRET_JSON: &str = "{\"field1\":9223372036854775807,\"field2\":42}";

/// The bytes prost writes for a message with these fields, in field order
/// and without the fields that hold their default value.
fn prost_bytes(m: &MulticastMessage) -> Vec<u8> {
    let mut buf: Vec<u8> = Vec::new();
    if !m.uuid.is_empty() {
        prost::encoding::string::encode(1, &m.uuid, &mut buf);
    }
    if m.kind != 0 {
        prost::encoding::int32::encode(2, &m.kind, &mut buf);
    }
    if let Some(t) = m.timestamp {
        let ts = prost_types::Timestamp { seconds: t.seconds, nanos: t.nanos };
        prost::encoding::message::encode(3, &ts, &mut buf);
    }
    if !m.body.is_empty() {
        prost::encoding::string::encode(4, &m.body, &mut buf);
    }
    if m.ttl != 0 {
        prost::encoding::uint32::encode(5, &m.ttl, &mut buf);
    }
    if m.checksum != 0 {
        prost::encoding::uint64::encode(6, &m.checksum, &mut buf);
    }
    buf
}

#[test]
fn bytes_simple_serde() {
    let uuid = fresh_uuid();
    let message = MulticastMessage::new(uuid, Kind::Origin, "Hello, world!".to_owned(), None, stamp());

    let bytes = message.to_bytes();
    let new_message = MulticastMessage::from_bytes(&bytes).unwrap();

    assert_eq!(message, new_message);
}

#[test]
fn conversions_simple_serde() {
    let uuid = fresh_uuid();
    let message = MulticastMessage::new(uuid, Kind::Origin, SECRET_JSON.to_owned(), None, stamp());

    let body = message.checked_body().unwrap();
    let deserialized: std::collections::HashMap<String, u64> = serde_json::from_str(body).unwrap();

    assert_eq!(deserialized.len(), 2);
    assert_eq!(deserialized["field1"], u64::MAX / 2);
    assert_eq!(deserialized["field2"], 42);
}

#[test]
fn bad_checksum() {
    let uuid = fresh_uuid();
    let mut message = MulticastMessage::new(uuid, Kind::Origin, SECRET_JSON.to_owned(), None, stamp());

    message.checksum = message.checksum.wrapping_add(1);

    assert!(message.checked_body().is_err());
}

#[test]
fn bad_receiving_type() {
    let uuid = fresh_uuid();
    let message = MulticastMessage::new(uuid, Kind::Origin, SECRET_JSON.to_owned(), None, stamp());

    let body = message.checked_body().unwrap();
    assert!(serde_json::from_str::<u64>(body).is_err());
}

#[test]
fn multicast_message_hash() {
    let message1 = MulticastMessage::new(fresh_uuid(), Kind::Origin, "Hello, world!".to_owned(), None, stamp());
    let message2 = MulticastMessage::new(fresh_uuid(), Kind::Origin, "Hello, world!".to_owned(), None, stamp());

    let hash_of = |m: &MulticastMessage| {
        let mut hasher = std::hash::DefaultHasher::new();
        let ts = m.timestamp.map(|t| prost_types::Timestamp { seconds: t.seconds, nanos: t.nanos });
        m.uuid.as_str().hash(&mut hasher);
        m.kind.hash(&mut hasher);
        ts.as_ref().hash(&mut hasher);
        m.body.as_str().hash(&mut hasher);
        m.ttl.hash(&mut hasher);
        hasher.finish()
    };
    let hash1 = hash_of(&message1);
    let hash2 = hash_of(&message2);

    assert_eq!(hash1, message1.checksum);
    assert_eq!(hash2, message2.checksum);

    assert_ne!(hash1, hash2);
}

#[test]
fn new_message_carries_its_fields() {
    let uuid = 0x0123_4567_89ab_cdef_0123_4567_89ab_cdefu128;
    let message = MulticastMessage::new(uuid, Kind::System, "x".to_owned(), Some(3), stamp());
    assert_eq!(message.uuid, "01234567-89ab-cdef-0123-456789abcdef");
    assert_eq!(message.kind, 3);
    assert_eq!(message.timestamp, Some(stamp()));
    assert_eq!(message.body, "x");
    assert_eq!(message.ttl, 3);
    assert_eq!(message.checksum, message.generate_checksum());
    assert!(message.validate_checksum().is_ok());
    assert_eq!(message.uuid().unwrap(), uuid);
}

#[test]
fn kinds_and_their_numbers() {
    assert_eq!(Kind::Origin.to_i32(), 0);
    assert_eq!(Kind::Echo.to_i32(), 1);
    assert_eq!(Kind::Acknowledge.to_i32(), 2);
    assert_eq!(Kind::System.to_i32(), 3);
    assert_eq!(Kind::try_from_i32(2), Some(Kind::Acknowledge));
    assert_eq!(Kind::try_from_i32(4), None);
    assert_eq!(Kind::try_from_i32(-1), None);
}

#[test]
fn regenerated_checksum_validates() {
    let mut message = MulticastMessage::new(fresh_uuid(), Kind::Origin, "body".to_owned(), None, stamp());
    message.body = "another body".to_owned();
    assert!(message.validate_checksum().is_err());
    let message = message.regenerate_checksum();
    assert!(message.validate_checksum().is_ok());
    assert_eq!(message.body, "another body");
}

#[test]
fn echo_counts_down_the_time_to_live() {
    let message = MulticastMessage::new(fresh_uuid(), Kind::Origin, "hop".to_owned(), Some(2), stamp());
    let first = message.echo().unwrap();
    assert_eq!(first.ttl, 1);
    assert_eq!(first.kind, Kind::Echo.to_i32());
    assert_eq!(first.uuid, message.uuid);
    assert_eq!(first.body, message.body);
    assert_eq!(first.timestamp, message.timestamp);
    assert!(first.validate_checksum().is_ok());
    assert_ne!(first.checksum, message.checksum);
    let second = first.echo().unwrap();
    assert_eq!(second.ttl, 0);
    assert!(second.echo().is_none());
}

#[test]
fn uuid_that_cannot_be_read() {
    let mut message = MulticastMessage::new(fresh_uuid(), Kind::Origin, "body".to_owned(), None, stamp());
    message.uuid = "not a uuid".to_owned();
    let error = message.uuid().unwrap_err();
    assert!(error.to_string().starts_with("Failed to parse not a uuid as UUID: "));
}

#[test]
fn written_as_prost_writes_it() {
    let message = MulticastMessage::new(fresh_uuid(), Kind::Echo, "Hello, world!".to_owned(), Some(7), stamp());
    assert_eq!(message.to_bytes(), prost_bytes(&message));

    let mut negative = MulticastMessage::new(fresh_uuid(), Kind::Origin, String::new(), None, stamp());
    negative.kind = -5;
    negative.timestamp = Some(Timestamp { seconds: -62_135_596_800, nanos: -1 });
    assert_eq!(negative.to_bytes(), prost_bytes(&negative));
    assert_eq!(MulticastMessage::from_bytes(&negative.to_bytes()).unwrap(), negative);
}

#[test]
fn empty_bytes_are_the_default_message() {
    let message = MulticastMessage::from_bytes(&[]).unwrap();
    assert_eq!(message.uuid, "");
    assert_eq!(message.kind, 0);
    assert_eq!(message.timestamp, None);
    assert_eq!(message.body, "");
    assert_eq!(message.ttl, 0);
    assert_eq!(message.checksum, 0);
    assert!(message.to_bytes().is_empty());
}

#[test]
fn fields_in_any_order_and_unknown_fields() {
    let message = MulticastMessage::new(fresh_uuid(), Kind::Origin, "payload".to_owned(), Some(1), stamp());
    let mut buf: Vec<u8> = Vec::new();
    prost::encoding::uint64::encode(6, &message.checksum, &mut buf);
    prost::encoding::string::encode(4, &message.body, &mut buf);
    prost::encoding::uint64::encode(9, &12345u64, &mut buf);
    prost::encoding::string::encode(1, &message.uuid, &mut buf);
    prost::encoding::uint32::encode(5, &message.ttl, &mut buf);
    let ts = prost_types::Timestamp { seconds: stamp().seconds, nanos: stamp().nanos };
    prost::encoding::message::encode(3, &ts, &mut buf);
    prost::encoding::string::encode(11, &"ignored".to_owned(), &mut buf);
    assert_eq!(MulticastMessage::from_bytes(&buf).unwrap(), message);
}

#[test]
fn the_last_of_a_repeated_field_wins() {
    let mut buf: Vec<u8> = Vec::new();
    prost::encoding::string::encode(4, &"first".to_owned(), &mut buf);
    prost::encoding::string::encode(4, &"second".to_owned(), &mut buf);
    prost::encoding::uint32::encode(5, &1u32, &mut buf);
    prost::encoding::uint32::encode(5, &9u32, &mut buf);
    let decoded = MulticastMessage::from_bytes(&buf).unwrap();
    assert_eq!(decoded.body, "second");
    assert_eq!(decoded.ttl, 9);
}

#[test]
fn malformed_bytes_are_refused() {
    let message = MulticastMessage::new(fresh_uuid(), Kind::Origin, "Hello, world!".to_owned(), None, stamp());
    let bytes = message.to_bytes();
    // Cut short in the middle of the body.
    assert!(MulticastMessage::from_bytes(&bytes[..bytes.len() - 12]).is_err());
    // A field number of 0.
    assert!(MulticastMessage::from_bytes(&[0x00, 0x01]).is_err());
    // The body with a varint wire type.
    assert!(MulticastMessage::from_bytes(&[0x20, 0x01]).is_err());
    // A body that is not UTF-8.
    assert!(MulticastMessage::from_bytes(&[0x22, 0x02, 0xff, 0xfe]).is_err());
    // A varint of eleven bytes.
    assert!(MulticastMessage::from_bytes(&[0x28, 0xff, 0xff, 0xff, 0xff, 0xff, 0xff, 0xff, 0xff, 0xff, 0xff, 0x01]).is_err());
    // A group, which the message never holds.
    assert!(MulticastMessage::from_bytes(&[0x3b]).is_err());
}

#[test]
fn build_error_is_invalid_data() {
    let error = build_error("Something went wrong.");
    assert_eq!(error.kind(), std::io::ErrorKind::InvalidData);
    assert_eq!(error.to_string(), "Something went wrong.");
}
