use ants::postbox::{id_string, key_string, Message, MessageBody, MessageKind, PostBox};
use ants::token::generate_token;
use ants::worker::proto::{DeliverRequest, PingReply};
use ants::AntsError;

#[test]
fn simple() {
    let mut postbox = PostBox::new();

    let token = generate_token();
    let task_id = generate_token();
    let identifier = (token, task_id);

    let key = postbox.create_message(MessageKind::Deliver, identifier);

    let body = "Test Body";
    let expected = DeliverRequest {
        token,
        task_id,
        success: true,
        error: String::default(),
        body: body.to_owned(),
        worker: "Test Worker".to_owned(),
    };
    let mut bad_result = expected.clone();
    "Bad Body".clone_into(&mut bad_result.body);

    // The remote worker sets the message body...
    postbox.set_body(key, MessageBody::Deliver(expected), 100).expect("Failed to set the message body.");
    // ...and setting it again fails.
    let result = postbox.set_body(key, MessageBody::Deliver(bad_result), 101);
    assert!(result.is_err());

    assert!(postbox.get(key).unwrap().is_set());

    let message = postbox.remove(key).expect("Failed to remove the message.");
    let delivered = match message.get_body(MessageKind::Deliver).expect("Failed to get the message body.") {
        MessageBody::Deliver(d) => d.clone(),
        other => panic!("unexpected body: {:?}", other),
    };

    assert_eq!(&delivered.body, body);
}

#[test]
fn message_errors_name_what_went_wrong() {
    let mut message = Message::new(MessageKind::Ping, (1, 2));
    assert_eq!(message.key(), (MessageKind::Ping, (1, 2)));
    assert_eq!(message.identifier(), (1, 2));
    assert_eq!(message.kind(), MessageKind::Ping);
    assert!(!message.is_set());
    assert_eq!(message.timestamp(), None);
    assert_eq!(message.age(10), None);

    match message.get_body(MessageKind::Ping) {
        Err(AntsError::MessageNotSet(id)) => assert_eq!(id, "(1, 2)"),
        other => panic!("unexpected: {:?}", other),
    }
    match message.get_body(MessageKind::Work) {
        Err(AntsError::IncompatibleRecipientType(a, b)) => {
            assert_eq!(a, "Ping");
            assert_eq!(b, "WorkReply");
        },
        other => panic!("unexpected: {:?}", other),
    }
    match message.set_body(MessageBody::Deliver(DeliverRequest {
        token: 1,
        task_id: 2,
        success: false,
        error: String::new(),
        body: String::new(),
        worker: String::new(),
    }), 5) {
        Err(AntsError::IncompatibleMessage(a, b)) => {
            assert_eq!(a, "DeliverRequest");
            assert_eq!(b, "ants::worker::proto::DeliverRequest");
        },
        other => panic!("unexpected: {:?}", other),
    }
    assert!(message.set_body(MessageBody::Ping(PingReply { status: 1 }), 5).is_ok());
    assert_eq!(message.timestamp(), Some(5));
    assert_eq!(message.age(12), Some(7));
    assert_eq!(message.age(3), Some(0));
    match message.set_body(MessageBody::Ping(PingReply { status: 2 }), 6) {
        Err(AntsError::MessageAlreadySet(id)) => assert_eq!(id, "(1, 2)"),
        other => panic!("unexpected: {:?}", other),
    }
    match message.get_body(MessageKind::Ping) {
        Ok(MessageBody::Ping(p)) => assert_eq!(p.status, 1),
        other => panic!("unexpected: {:?}", other),
    }
}

#[test]
fn postbox_keys_and_lookups() {
    let mut postbox = PostBox::new();
    assert!(postbox.is_empty());
    let key = postbox.create_message(MessageKind::Reserve, (7, 8));
    assert_eq!(postbox.len(), 1);
    // Creating it again keeps the one there.
    assert_eq!(postbox.create_message(MessageKind::Reserve, (7, 8)), key);
    assert_eq!(postbox.len(), 1);

    match postbox.get((MessageKind::Release, (7, 8))) {
        Err(AntsError::MessageNotFound(k)) => assert_eq!(k, "(\"Release\", (7, 8))"),
        other => panic!("unexpected: {:?}", other),
    }
    assert_eq!(key_string(key), "(\"Reserve\", (7, 8))");
    assert_eq!(id_string((0, 18446744073709551615)), "(0, 18446744073709551615)");

    // Inserting under a key that is there replaces the message, and returns
    // the one now stored.
    postbox.set_body(key, MessageBody::Reserve(ants::worker::proto::ReserveReply { success: true, token: 3 }), 1).unwrap();
    assert!(postbox.get(key).unwrap().is_set());
    let stored = postbox.insert(Message::new(MessageKind::Reserve, (7, 8)));
    assert_eq!(stored.key(), key);
    assert!(!stored.is_set());
    assert!(!postbox.get(key).unwrap().is_set());
    assert_eq!(postbox.len(), 1);
    assert_eq!(postbox.insert(Message::new(MessageKind::Work, (7, 8))).key(), (MessageKind::Work, (7, 8)));
    assert_eq!(postbox.len(), 2);
    assert!(postbox.remove(key).is_some());
    assert!(postbox.remove(key).is_none());
    assert_eq!(postbox.len(), 1);

    match postbox.set_body((MessageKind::Ping, (0, 0)), MessageBody::Ping(PingReply { status: 0 }), 1) {
        Err(AntsError::MessageNotFound(_)) => {},
        other => panic!("unexpected: {:?}", other),
    }
}

#[test]
fn clean_old_messages_keeps_fresh_and_waiting_ones() {
    let mut postbox = PostBox::new();
    let old = postbox.create_message(MessageKind::Ping, (1, 1));
    let fresh = postbox.create_message(MessageKind::Ping, (2, 2));
    let waiting = postbox.create_message(MessageKind::Ping, (3, 3));
    postbox.set_body(old, MessageBody::Ping(PingReply { status: 0 }), 10).unwrap();
    postbox.set_body(fresh, MessageBody::Ping(PingReply { status: 0 }), 95).unwrap();

    postbox.clean_old_messages(50, 100);

    assert!(postbox.get(old).is_err());
    assert!(postbox.get(fresh).is_ok());
    assert!(postbox.get(waiting).is_ok());
    assert_eq!(postbox.len(), 2);
}
