use ants::multicast::agent::{
    loopback_address, AgentBook, PeerAddr, Receipt, ReceiptError, DEFAULT_PACKET_SIZE, DEFAULT_TTL,
};
use ants::multicast::message::{Kind, MulticastMessage, Timestamp};
use ants::multicast::system::{SelfTest, SelfTestError, SystemMessage};

fn stamp() -> Timestamp {
    Timestamp { seconds: 1_700_000_000, nanos: 0 }
}

fn peer(last: u8, port: u16) -> PeerAddr {
    PeerAddr { ip: u128::from(u32::from_be_bytes([192, 168, 1, last])), v6: false, port }
}

#[test]
fn new_book_defaults() {
    let book = AgentBook::new();
    assert_eq!(book.packet_size(), DEFAULT_PACKET_SIZE);
    assert_eq!(book.ttl(), DEFAULT_TTL);
    assert_eq!(DEFAULT_PACKET_SIZE, 2043);
    assert_eq!(DEFAULT_TTL, 1);
    let book = book.with_packet_size(1024).with_ttl(3);
    assert_eq!(book.packet_size(), 1024);
    assert_eq!(book.ttl(), 3);
    assert!(!book.has_seen(1));
}

#[test]
fn a_message_is_seen_once() {
    let mut book = AgentBook::new();
    assert!(book.mark_seen(7, peer(1, 5000), 10));
    assert!(book.has_seen(7));
    assert!(!book.mark_seen(7, peer(2, 5000), 11));
    assert!(!book.has_seen(8));
}

#[test]
fn receive_fresh_then_duplicate() {
    let mut book = AgentBook::new();
    let uuid = uuid::Uuid::new_v4().as_u128();
    let message = MulticastMessage::new(uuid, Kind::Origin, "hello".to_owned(), Some(1), stamp());

    match book.receive(&message, peer(3, 6000), 100) {
        Ok(Receipt::Fresh { uuid: u, acknowledge, echo, system }) => {
            assert_eq!(u, uuid);
            assert!(acknowledge);
            assert!(!system);
            let echo = echo.expect("an echo should be sent on");
            assert_eq!(echo.ttl, 0);
            assert_eq!(echo.kind, Kind::Echo.to_i32());
        },
        other => panic!("unexpected receipt: {:?}", other),
    }
    assert!(book.has_seen(uuid));

    assert_eq!(book.receive(&message, peer(4, 6000), 101).unwrap_err(), ReceiptError::Duplicate(uuid));
}

#[test]
fn receive_system_message_without_echo() {
    let mut book = AgentBook::new();
    let uuid = uuid::Uuid::new_v4().as_u128();
    let message = MulticastMessage::new(uuid, Kind::System, "{}".to_owned(), Some(0), stamp());
    match book.receive(&message, loopback_address(), 5) {
        Ok(Receipt::Fresh { acknowledge, echo, system, .. }) => {
            assert!(!acknowledge);
            assert!(echo.is_none());
            assert!(system);
        },
        other => panic!("unexpected receipt: {:?}", other),
    }
}

#[test]
fn receive_acknowledgements() {
    let mut book = AgentBook::new();
    let uuid = uuid::Uuid::new_v4().as_u128();
    let ack = MulticastMessage::new(uuid, Kind::Acknowledge, String::new(), None, stamp());

    // Recorded even though the message itself was never seen.
    match book.receive(&ack, peer(5, 7000), 1) {
        Ok(Receipt::Acknowledgement(u)) => assert_eq!(u, uuid),
        other => panic!("unexpected receipt: {:?}", other),
    }
    // A second acknowledgement from the same peer is recorded too.
    assert!(book.receive(&ack, peer(5, 7000), 2).is_ok());
    assert!(!book.has_seen(uuid));
    assert_eq!(book.count_acknowledgements_for(uuid), Some(2));
    assert_eq!(book.has_acknowledged(uuid, peer(5, 7000)), Some(true));
    assert_eq!(book.has_acknowledged(uuid, peer(6, 7000)), Some(false));
}

#[test]
fn receive_refusals() {
    let mut book = AgentBook::new();
    let mut bad_uuid = MulticastMessage::new(1, Kind::Origin, String::new(), None, stamp());
    bad_uuid.uuid = "??".to_owned();
    assert_eq!(book.receive(&bad_uuid, peer(1, 1), 0).unwrap_err(), ReceiptError::InvalidUuid);

    let mut bad_kind = MulticastMessage::new(2, Kind::Origin, String::new(), None, stamp());
    bad_kind.kind = 17;
    assert_eq!(book.receive(&bad_kind, peer(1, 1), 0).unwrap_err(), ReceiptError::InvalidKind(17));
    assert!(!book.has_seen(2));
}

#[test]
fn acknowledgement_bookkeeping() {
    let mut book = AgentBook::new();
    assert_eq!(book.get_acknowledgements_for(9), None);
    assert_eq!(book.count_acknowledgements_for(9), None);
    assert!(!book.is_expecting_acknowledgement_for(9));

    book.expects_acknowledgement_for(9);
    assert!(book.is_expecting_acknowledgement_for(9));
    assert_eq!(book.count_acknowledgements_for(9), Some(0));

    book.acknowledge(9, peer(1, 10), 50);
    book.ensures_acknowledgement_for(9, Some(peer(2, 10)), 51);
    book.ensures_acknowledgement_for(9, None, 52);
    assert_eq!(book.get_acknowledgements_for(9), Some(vec![(peer(1, 10), 50), (peer(2, 10), 51)]));

    let expected = vec![peer(1, 10), peer(2, 10), peer(3, 10)];
    assert_eq!(book.all_acknowledged(9, &expected), Some(vec![peer(3, 10)]));
    assert_eq!(book.all_acknowledged(10, &expected), None);

    assert_eq!(book.remove_acknowledgements_for(9).map(|v| v.len()), Some(2));
    assert!(!book.is_expecting_acknowledgement_for(9));
    assert_eq!(book.remove_acknowledgements_for(9), None);
}

#[test]
fn prepare_send_marks_seen_unless_looped_back() {
    let mut book = AgentBook::new();
    book.prepare_send(21, true, 1);
    assert!(!book.has_seen(21));
    assert!(!book.is_expecting_acknowledgement_for(21));

    book.prepare_send(22, false, 2);
    assert!(book.has_seen(22));
    assert!(book.is_expecting_acknowledgement_for(22));
    assert_eq!(book.count_acknowledgements_for(22), Some(0));
}

#[test]
fn test_send_self_test() {
    let mut test = SelfTest::new();
    assert!(!test.is_running());

    // The agent is not listening.
    let refused = test.begin(false, 5, "{\"SelfTest\":\"x\"}".to_owned(), stamp());
    assert_eq!(refused.unwrap_err(), SelfTestError::NotListening);
    assert!(!test.is_running());

    let secret = uuid::Uuid::new_v4().as_u128();
    let message = test.begin(true, secret, "body".to_owned(), stamp()).unwrap();
    assert_eq!(message.kind, Kind::System.to_i32());
    assert_eq!(message.ttl, 0);
    assert_eq!(message.uuid().unwrap(), secret);
    assert!(message.validate_checksum().is_ok());
    assert!(test.is_running());

    // A second self-test cannot start.
    assert_eq!(test.begin(true, 6, String::new(), stamp()).unwrap_err(), SelfTestError::AlreadyRunning);

    assert!(!test.resolve(SystemMessage::SelfTest(secret.wrapping_add(1))));
    assert!(test.resolve(SystemMessage::SelfTest(secret)));

    assert!(test.finish().is_ok());
    assert!(!test.is_running());
    assert_eq!(test.finish().unwrap_err(), SelfTestError::Reset);
    assert!(!test.resolve(SystemMessage::SelfTest(secret)));
}

#[test]
fn origin_and_acknowledgement_messages() {
    let book = AgentBook::new().with_ttl(4);
    let uuid = uuid::Uuid::new_v4().as_u128();
    let origin = book.origin_message(uuid, "payload".to_owned(), stamp());
    assert_eq!(origin.uuid().unwrap(), uuid);
    assert_eq!(origin.kind, Kind::Origin.to_i32());
    assert_eq!(origin.ttl, 4);
    assert_eq!(origin.body, "payload");
    assert!(origin.validate_checksum().is_ok());

    let ack = AgentBook::acknowledgement_message(uuid, stamp());
    assert_eq!(ack.uuid().unwrap(), uuid);
    assert_eq!(ack.kind, Kind::Acknowledge.to_i32());
    assert_eq!(ack.ttl, 0);
    assert_eq!(ack.body, "");
    assert!(ack.validate_checksum().is_ok());
}
