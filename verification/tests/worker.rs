use ants::example::{TaskBody, TaskResponse};
use ants::multicast::agent::PeerAddr;
use ants::worker::broadcast::check_broadcast_address;
use ants::nodes::NodeList;
use ants::postbox::{MessageBody, MessageKind};
use ants::worker::broadcast::WorkerBroadcastMessage;
use ants::worker::model::{
    judge_delivery, judge_work_reply, Dispatch, DispatchAction, DispatchEvent, NodeReservation, ReserveAction,
    WorkVerdict, RESERVATION_TIMEOUT_MS, RESERVE_ATTEMPTS, RESERVE_TIMEOUT_MS,
};
use ants::worker::proto::{DeliverRequest, ReserveReply, WorkReply};
use ants::{AntsError, Worker};

fn group() -> Option<PeerAddr> {
    Some(PeerAddr { ip: u128::from(u32::from_be_bytes([224, 0, 0, 251])), v6: false, port: 0 })
}

fn worker() -> Worker {
    Worker::new(
        "127.0.0.1".to_owned(),
        50051,
        vec![("127.0.0.1".to_owned(), 50052), ("127.0.0.1".to_owned(), 50053)],
        "224.0.0.251",
        65432,
        group(),
        5000,
        0,
    )
    .unwrap()
}

#[test]
fn worker_name_and_address() {
    let w = worker();
    assert_eq!(w.name(), "worker://127.0.0.1:50051");
    assert_eq!(w.host(), "127.0.0.1");
    assert_eq!(w.port(), 50051);
    assert!(w.has_node(&("127.0.0.1".to_owned(), 50052)));
    assert!(!w.has_node(&("127.0.0.1".to_owned(), 50051)));
    let zero = Worker::new("h".to_owned(), 0, Vec::new(), "224.0.0.251", 1, group(), 1, 0).unwrap();
    assert_eq!(zero.name(), "worker://h:0");
    assert_eq!(zero.broadcast, PeerAddr { port: 1, ..group().unwrap() });
    assert_eq!(w.nodes.last_used(&("127.0.0.1".to_owned(), 50052)), Some(0));
}

#[test]
fn worker_refuses_a_bad_group_address() {
    match Worker::new("127.0.0.1".to_owned(), 50051, vec![], "not-an-ip", 5353, None, 2000, 0) {
        Err(AntsError::MulticasterAddressError(s)) => assert_eq!(s, "not-an-ip is not a valid IP address."),
        other => panic!("unexpected: {:?}", other.map(|w| w.name())),
    }
    let local = Some(PeerAddr { ip: u128::from(u32::from_be_bytes([127, 0, 0, 1])), v6: false, port: 0 });
    match Worker::new("127.0.0.1".to_owned(), 50051, vec![], "127.0.0.1", 5353, local, 2000, 0) {
        Err(AntsError::MulticasterAddressError(s)) => assert_eq!(s, "127.0.0.1:5353 is not a multicast address."),
        other => panic!("unexpected: {:?}", other.map(|w| w.name())),
    }
}

#[test]
fn one_reservation_at_a_time() {
    let mut w = worker();
    assert_eq!(w.ping().status, 0);
    let token = w.reserve().expect("an idle worker can be reserved");
    assert_ne!(token, 0);
    assert_eq!(w.ping().status, 1);
    assert!(w.reserve().is_none());
    assert_eq!(w.reserve_with(42), None);
    assert!(w.check_reservation(token).is_ok());
    assert!(matches!(w.check_reservation(token.wrapping_add(1)), Err(AntsError::ReservationTokenMismatch)));

    // Releasing with the wrong token leaves the reservation.
    assert!(matches!(w.release(token.wrapping_add(1)), Err(AntsError::ReservationTokenMismatch)));
    assert_eq!(w.reservation, token);
    assert_eq!(w.release(token).unwrap(), token);
    assert_eq!(w.reservation, 0);
    assert_eq!(w.reserve_with(42), Some(42));
}

#[test]
fn reservations_expire_unless_work_started() {
    let mut w = worker();
    let token = w.reserve().unwrap();
    assert!(!w.expire_reservation(token.wrapping_add(1)));
    assert!(w.expire_reservation(token));
    assert_eq!(w.reservation, 0);

    let token = w.reserve().unwrap();
    w.begin_work().unwrap();
    assert!(matches!(w.begin_work(), Err(AntsError::CalledWhileBusy)));
    assert!(!w.expire_reservation(token));
    assert_eq!(w.reservation, token);
    w.end_work();
    assert!(!w.busy);
    assert_eq!(RESERVATION_TIMEOUT_MS, 15000);
}

#[test]
fn answers_to_requests() {
    let mut w = worker();
    let reply = w.answer_reserve();
    assert!(reply.success);
    assert_ne!(reply.token, 0);
    let again = w.answer_reserve();
    assert!(!again.success);
    assert_eq!(again.token, 0);
    assert!(!w.answer_release(reply.token.wrapping_add(1)).success);
    assert!(w.answer_release(reply.token).success);

    let accepted = w.answer_work(1, 2, Ok(()));
    assert!(accepted.success);
    assert_eq!(accepted.message, "Task spawned successfully.");
    assert_eq!(accepted.worker, "worker://127.0.0.1:50051");
    let refused = w.answer_work(1, 2, Err("expected value".to_owned()));
    assert!(!refused.success);
    assert_eq!(refused.message, "Work data is not valid: expected value");
    assert_eq!((refused.token, refused.task_id), (1, 2));

    let done = w.deliver_request(3, 4, Ok("result".to_owned()));
    assert!(done.success);
    assert_eq!(done.body, "result");
    assert_eq!(done.error, "");
    let failed = w.deliver_request(3, 4, Err("boom".to_owned()));
    assert!(!failed.success);
    assert_eq!(failed.error, "boom");
    assert_eq!(failed.body, "");
    assert_eq!(failed.worker, "worker://127.0.0.1:50051");
}

#[test]
fn deliveries_land_in_the_postbox_once() {
    let mut w = worker();
    let key = w.postbox.create_message(MessageKind::Deliver, (9, 10));
    let request = w.deliver_request(9, 10, Ok("42".to_owned()));
    let reply = w.answer_deliver(request.clone(), 7);
    assert!(reply.success);
    assert_eq!((reply.token, reply.task_id), (9, 10));
    assert!(!w.answer_deliver(request.clone(), 8).success);
    // Nobody waits for this one.
    let stray = w.deliver_request(1, 1, Ok("0".to_owned()));
    assert!(!w.answer_deliver(stray, 9).success);

    let message = w.postbox.remove(key).unwrap();
    match message.get_body(MessageKind::Deliver).unwrap() {
        MessageBody::Deliver(d) => assert_eq!(judge_delivery(d), Some(("worker://127.0.0.1:50051".to_owned(), "42".to_owned()))),
        other => panic!("unexpected: {:?}", other),
    }
}

#[test]
fn judging_replies() {
    let reply = WorkReply { token: 5, task_id: 77, success: true, message: String::new(), worker: "w".to_owned() };
    assert_eq!(judge_work_reply(&reply, 5), WorkVerdict::Accepted(77));
    assert_eq!(judge_work_reply(&reply, 6), WorkVerdict::TokenMismatch);
    let refused = WorkReply { success: false, ..reply.clone() };
    assert_eq!(judge_work_reply(&refused, 5), WorkVerdict::Refused);
    assert_eq!(judge_work_reply(&refused, 4), WorkVerdict::TokenMismatch);

    let failed = DeliverRequest {
        token: 1,
        task_id: 2,
        success: false,
        error: "bad".to_owned(),
        body: String::new(),
        worker: "w".to_owned(),
    };
    assert_eq!(judge_delivery(&failed), None);
}

#[test]
fn node_management() {
    let mut w = worker();
    assert!(w.add_node(("10.0.0.1".to_owned(), 1), 5));
    assert!(!w.add_node(("10.0.0.1".to_owned(), 1), 6));
    w.remove_node(&("127.0.0.1".to_owned(), 50053));
    assert!(!w.has_node(&("127.0.0.1".to_owned(), 50053)));
    assert_eq!(w.next_node(), Some(("127.0.0.1".to_owned(), 50052)));
    let (since, node) = w.next_node_with_duration(12).unwrap();
    assert_eq!(node, ("10.0.0.1".to_owned(), 1));
    assert_eq!(since, 7);
    assert!(w.next_node_with_metadata().is_none());
}

#[test]
fn reservation_search_tries_nodes_in_order() {
    let mut nodes = NodeList::from_vec(vec![("a".to_owned(), 1), ("b".to_owned(), 1)], 0);
    let mut search = NodeReservation::new();
    assert_eq!(search.tries(), 0);

    // The first attempt goes out at once.
    let node = match search.next_attempt(&mut nodes, 100) {
        ReserveAction::Contact { node, wait } => {
            assert_eq!(wait, 0);
            node
        },
        other => panic!("unexpected: {:?}", other),
    };
    assert_eq!(node.address(), &("a".to_owned(), 1));
    // The node refused: it goes back into the list.
    let refused = NodeReservation::conclude(node, &mut nodes, 100, Some(ReserveReply { success: false, token: 0 }));
    assert_eq!(refused, None);
    assert_eq!(nodes.len(), 2);

    // Later attempts leave a node alone until it rests long enough.
    let node = match search.next_attempt(&mut nodes, 300) {
        ReserveAction::Contact { node, wait } => {
            assert_eq!(node.address(), &("b".to_owned(), 1));
            assert_eq!(wait, RESERVE_TIMEOUT_MS - 300);
            node
        },
        other => panic!("unexpected: {:?}", other),
    };
    let taken = NodeReservation::conclude(node, &mut nodes, 300, Some(ReserveReply { success: true, token: 99 }));
    assert_eq!(taken, Some((("b".to_owned(), 1), 99)));
    assert_eq!(search.tries(), 2);
}

#[test]
fn reservation_search_gives_up() {
    let mut nodes = NodeList::new();
    let mut search = NodeReservation::new();
    for _ in 0..RESERVE_ATTEMPTS {
        match search.next_attempt(&mut nodes, 0) {
            ReserveAction::Pause(ms) => assert_eq!(ms, RESERVE_TIMEOUT_MS),
            other => panic!("unexpected: {:?}", other),
        }
    }
    assert!(matches!(search.next_attempt(&mut nodes, 0), ReserveAction::GiveUp));
    assert_eq!(RESERVE_ATTEMPTS, 32);
}

#[test]
fn broadcasts_keep_the_node_list() {
    let mut w = worker();
    match w.join_announcement() {
        WorkerBroadcastMessage::Heartbeat { host, port } => {
            assert_eq!(host, "127.0.0.1");
            assert_eq!(port, 50051);
        },
        other => panic!("unexpected: {:?}", other),
    }
    assert!(matches!(w.leave_announcement(), WorkerBroadcastMessage::Leave { .. }));

    let newcomer = WorkerBroadcastMessage::Heartbeat { host: "10.1.1.1".to_owned(), port: 7 };
    assert!(w.process_broadcast(newcomer.clone(), 10));
    assert!(w.has_node(&("10.1.1.1".to_owned(), 7)));
    assert!(!w.process_broadcast(newcomer, 11));
    let leaving = WorkerBroadcastMessage::Leave { host: "10.1.1.1".to_owned(), port: 7 };
    assert!(!w.process_broadcast(leaving, 12));
    assert!(!w.has_node(&("10.1.1.1".to_owned(), 7)));
}

#[test]
fn task_responses() {
    let body = TaskBody { body: "work".to_owned() };
    let done = TaskResponse::done("worker://a:1".to_owned(), body.body.clone());
    assert!(done.success);
    assert_eq!(done.body.as_deref(), Some("work"));
    assert!(done.error.is_none());
    let failed = TaskResponse::failed("worker://a:1".to_owned(), "NoNodesAvailable".to_owned());
    assert!(!failed.success);
    assert!(failed.body.is_none());
    assert_eq!(failed.error.as_deref(), Some("NoNodesAvailable"));
}

#[test]
fn tokens_are_never_zero_or_max() {
    for _ in 0..1000 {
        let t = ants::token::generate_token();
        assert!(t >= 1 && t < u64::MAX);
    }
}

#[test]
fn reserved_work_needs_the_token_and_an_idle_worker() {
    let mut w = worker();
    assert!(matches!(w.start_reserved_work(5), Err(AntsError::ReservationTokenMismatch)));
    // An unreserved worker does no work, not even under the token 0.
    assert!(matches!(w.start_reserved_work(0), Err(AntsError::ReservationTokenMismatch)));
    assert!(!w.busy);
    let token = w.reserve().unwrap();
    assert!(w.start_reserved_work(token).is_ok());
    assert!(w.busy);
    assert!(matches!(w.start_reserved_work(token), Err(AntsError::CalledWhileBusy)));
    w.end_work();
    assert_eq!(w.release(token).unwrap(), token);
    assert!(matches!(w.start_reserved_work(token), Err(AntsError::ReservationTokenMismatch)));
}

#[test]
fn broadcast_address_must_be_multicast() {
    let group = PeerAddr { ip: u128::from(u32::from_be_bytes([224, 0, 0, 251])), v6: false, port: 0 };
    assert!(group.is_multicast());
    assert_eq!(check_broadcast_address("224.0.0.251", 65432, Some(group)).unwrap(), PeerAddr { port: 65432, ..group });

    let local = PeerAddr { ip: u128::from(u32::from_be_bytes([192, 168, 0, 1])), v6: false, port: 0 };
    assert!(!local.is_multicast());
    match check_broadcast_address("192.168.0.1", 5000, Some(local)) {
        Err(AntsError::MulticasterAddressError(m)) => assert_eq!(m, "192.168.0.1:5000 is not a multicast address."),
        other => panic!("unexpected: {:?}", other),
    }
    match check_broadcast_address("nowhere", 1, None) {
        Err(AntsError::MulticasterAddressError(m)) => assert_eq!(m, "nowhere is not a valid IP address."),
        other => panic!("unexpected: {:?}", other),
    }

    let v6 = PeerAddr { ip: u128::from_be_bytes([0xff, 2, 0, 0, 0, 0, 0, 0, 0, 0, 0, 0, 0, 0, 0, 0xfb]), v6: true, port: 0 };
    assert!(v6.is_multicast());
    let v6_local = PeerAddr { ip: 1, v6: true, port: 0 };
    assert!(!v6_local.is_multicast());
    assert!(!PeerAddr { ip: u128::from(u32::from_be_bytes([240, 0, 0, 1])), v6: false, port: 0 }.is_multicast());
    assert!(PeerAddr { ip: u128::from(u32::from_be_bytes([239, 255, 255, 255])), v6: false, port: 0 }.is_multicast());
}

#[test]
fn dispatch_tries_this_worker_first_after_each_failure() {
    let (mut dispatch, first) = Dispatch::new();
    assert!(matches!(first, DispatchAction::ReserveSelf));
    assert!(matches!(dispatch.step(DispatchEvent::SelfReservation(None)), DispatchAction::ReserveNode));
    let node = ("10.0.0.2".to_owned(), 50051);
    match dispatch.step(DispatchEvent::NodeReservation(node.clone(), 77)) {
        DispatchAction::SendWork(a, t) => {
            assert_eq!(a, node);
            assert_eq!(t, 77);
        },
        other => panic!("unexpected: {:?}", other),
    }
    // The node refused: this worker is tried again first.
    let refused = WorkReply { token: 77, task_id: 1, success: false, message: String::new(), worker: "w".to_owned() };
    assert!(matches!(dispatch.step(DispatchEvent::WorkReplied(refused)), DispatchAction::ReserveSelf));
    assert!(matches!(dispatch.step(DispatchEvent::SelfReservation(None)), DispatchAction::ReserveNode));
    dispatch.step(DispatchEvent::NodeReservation(node.clone(), 78));
    // A reply for another reservation does not count.
    let stale = WorkReply { token: 77, task_id: 2, success: true, message: String::new(), worker: "w".to_owned() };
    assert!(matches!(dispatch.step(DispatchEvent::WorkReplied(stale)), DispatchAction::ReserveSelf));
    dispatch.step(DispatchEvent::NodeReservation(node.clone(), 79));
    let accepted = WorkReply { token: 79, task_id: 5, success: true, message: String::new(), worker: "w".to_owned() };
    match dispatch.step(DispatchEvent::WorkReplied(accepted)) {
        DispatchAction::AwaitDelivery(key) => assert_eq!(key, (MessageKind::Deliver, (79, 5))),
        other => panic!("unexpected: {:?}", other),
    }
    let failed = DeliverRequest {
        token: 79,
        task_id: 5,
        success: false,
        error: "boom".to_owned(),
        body: String::new(),
        worker: "w".to_owned(),
    };
    assert!(matches!(dispatch.step(DispatchEvent::Delivered(failed)), DispatchAction::ReserveSelf));
    let done = DeliverRequest {
        token: 80,
        task_id: 6,
        success: true,
        error: String::new(),
        body: "\"ok\"".to_owned(),
        worker: "worker://10.0.0.2:50051".to_owned(),
    };
    match dispatch.step(DispatchEvent::Delivered(done)) {
        DispatchAction::Finish(w, b) => {
            assert_eq!(w, "worker://10.0.0.2:50051");
            assert_eq!(b, "\"ok\"");
        },
        other => panic!("unexpected: {:?}", other),
    }
    assert!(matches!(dispatch.step(DispatchEvent::SelfReservation(Some(3))), DispatchAction::WorkHere(3)));
}
