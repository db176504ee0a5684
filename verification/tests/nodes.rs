use ants::nodes::{NodeAddress, NodeList, NodeMetadata};

const NODES: [(&str, u16); 3] = [("1.1.1.1", 1234), ("2.2.2.2", 2345), ("3.3.3.3", 3456)];

fn nodes() -> Vec<NodeAddress> {
    NODES.iter().map(|(host, port)| (host.to_string(), *port)).collect::<Vec<_>>()
}

#[test]
fn node_list() {
    let nodes = nodes();
    let mut list = NodeList::new();
    let mut now: u64 = 0;

    // Check if the list is empty.
    assert_eq!(list.len(), 0);
    assert!(!list.contains(&nodes[0]));

    // Insert all the nodes.
    for node in &nodes {
        now += 1;
        assert!(list.insert(node.clone(), now));

        let age = list.last_used(node).unwrap();
        // Try inserting the same node again...
        now += 1;
        list.insert(node.clone(), now);

        // ...but the age should NOT have changed.
        assert_eq!(list.last_used(node).unwrap(), age);
    }

    assert_eq!(list.len(), 3);

    // Insert the same node again.
    for node in &nodes {
        now += 1;
        assert!(!list.insert(node.clone(), now));
    }

    assert_eq!(list.len(), 3);

    // Remove a node.
    list.remove(&nodes[0]);
    assert_eq!(list.len(), 2);
    assert!(!list.contains(&nodes[0]));

    // Re-insert the node.
    now += 1;
    assert!(list.insert(nodes[0].clone(), now));

    // Drain the list; the old record of nodes[0] must be discarded on the way.
    assert_eq!(list.next().as_ref(), Some(&nodes[1]));
    assert_eq!(list.next().as_ref(), Some(&nodes[2]));
    assert_eq!(list.next().as_ref(), Some(&nodes[0]));
    assert_eq!(list.next(), None);
    assert!(list.is_empty());
}

#[test]
fn checked_out_node() {
    let nodes = nodes();
    let mut list = NodeList::from_vec(nodes.clone(), 10);

    let inserted_0 = list.last_used(&nodes[0]).expect("Node 0 was not inserted into the list.");

    // Check out the first node and put it back the way a dropped checkout does.
    {
        let node = list.checkout().unwrap();
        assert_eq!(list.len(), nodes.len() - 1);
        assert_eq!(node.address(), &nodes[0]);
        assert!(list.last_used(&nodes[0]).is_none());
        node.discard(&mut list, 20);
    }

    assert_eq!(list.len(), nodes.len());
    assert_ne!(list.last_used(&nodes[0]).expect("Node 0 was not inserted back into the list."), inserted_0);

    let inserted_1 = list.last_used(&nodes[1]).expect("Node 1 was not inserted into the list.");

    // Check out the second node and complete it.
    {
        let node = list.checkout().unwrap();
        assert_eq!(list.len(), nodes.len() - 1);
        assert_eq!(node.address(), &nodes[1]);
        assert!(list.last_used(&nodes[1]).is_none());
        assert_eq!(node.complete(&mut list, 30), nodes[1]);
    }

    assert_eq!(list.len(), nodes.len());
    assert_ne!(list.last_used(&nodes[1]).expect("Node 1 was not inserted back into the list."), inserted_1);

    // Check out the third node and consume it.
    let consumed = {
        let node = list.checkout().unwrap();
        assert_eq!(list.len(), nodes.len() - 1);
        assert_eq!(node.address(), &nodes[2]);
        assert!(list.last_used(&nodes[2]).is_none());
        node.consume()
    };

    // The node should not be added back to the list.
    assert_eq!(list.len(), nodes.len() - 1);
    assert_eq!(consumed, nodes[2]);

    let next = list.next().expect("No nodes left in the list.");

    // The first node should be back to the top.
    assert_eq!(next, nodes[0]);
}

#[test]
fn checked_out_node_details() {
    let mut list = NodeList::from_vec(nodes(), 100);
    let node = list.checkout().unwrap();
    assert_eq!(node.host(), "1.1.1.1");
    assert_eq!(node.port(), 1234);
    assert_eq!(node.last_used(), 100);
    assert_eq!(node.since_last_used(150), 50);
    assert_eq!(node.since_last_used(50), 0);
    let (address, metadata) = node.decompose();
    assert_eq!(address, ("1.1.1.1".to_owned(), 1234));
    assert_eq!(metadata.last_used(), 100);
}

#[test]
fn random_checkout_takes_a_listed_node() {
    let nodes = nodes();
    let mut list = NodeList::from_vec(nodes.clone(), 0);
    let node = list.checkout_random().unwrap();
    assert!(nodes.contains(node.address()));
    assert_eq!(list.len(), 2);
    list.reinsert_checked_out(node, 1);
    assert_eq!(list.len(), 3);

    let picked = list.random().unwrap();
    assert!(nodes.contains(&picked));
    assert!(!list.contains(&picked));
    let (meta, other) = list.random_with_metadata().unwrap();
    assert!(nodes.contains(&other));
    assert!(meta.last_used() <= 1);

    let mut empty = NodeList::new();
    assert!(empty.random().is_none());
    assert!(empty.checkout_random().is_none());
    assert!(empty.checkout().is_none());
}

#[test]
fn least_recently_used_first() {
    let mut list = NodeList::new();
    list.insert(("c".to_owned(), 1), 5);
    list.insert(("a".to_owned(), 1), 7);
    list.insert(("b".to_owned(), 1), 9);
    assert_eq!(list.last_used_for_next(), Some(5));
    let (meta, first) = list.next_with_metadata().unwrap();
    assert_eq!(first, ("c".to_owned(), 1));
    assert_eq!(meta.last_used(), 5);
    // A node used again goes to the back.
    list.insert(("c".to_owned(), 1), 10);
    assert_eq!(list.next().unwrap(), ("a".to_owned(), 1));
    assert_eq!(list.next().unwrap(), ("b".to_owned(), 1));
    assert_eq!(list.next().unwrap(), ("c".to_owned(), 1));
    assert_eq!(list.clock(), 10);
}

#[test]
fn ties_go_by_address() {
    let mut list = NodeList::from_vec(vec![("b".to_owned(), 2), ("a".to_owned(), 9), ("a".to_owned(), 3)], 4);
    assert_eq!(list.next().unwrap(), ("a".to_owned(), 3));
    assert_eq!(list.next().unwrap(), ("a".to_owned(), 9));
    assert_eq!(list.next().unwrap(), ("b".to_owned(), 2));
}

#[test]
fn insert_node_keeps_metadata_with_new_time() {
    let mut list = NodeList::default();
    assert!(list.insert_node(("h".to_owned(), 1), NodeMetadata::with_last_used(3), 8));
    assert_eq!(list.last_used(&("h".to_owned(), 1)), Some(8));
    assert!(!list.insert_node(("h".to_owned(), 1), NodeMetadata::new(2), 12));
    assert_eq!(list.last_used(&("h".to_owned(), 1)), Some(12));
    assert_eq!(list.len(), 1);
}

#[test]
fn node_metadata() {
    let mut meta = NodeMetadata::new(4);
    assert_eq!(meta.last_used(), 4);
    meta.update_last_used(9);
    assert_eq!(meta.last_used(), 9);
    meta.update_last_used_to(2);
    assert_eq!(meta.last_used(), 2);
    assert_eq!(NodeMetadata::with_last_used(77).last_used(), 77);
}

#[test]
fn check_out_random_node() {
    const NODE_COUNT: usize = 4;
    let nodes: Vec<NodeAddress> = (0..NODE_COUNT).map(|i| ("127.0.0.1".to_owned(), 40000 + i as u16)).collect();
    let mut list = NodeList::from_vec(nodes, 0);
    assert_eq!(list.len(), NODE_COUNT);

    let ordered_checkout = list.checkout().expect("Failed to checkout ordered node.");
    let random_checkout = list.checkout_random().expect("Failed to checkout random node.");
    assert!(ordered_checkout.address() != random_checkout.address());
    assert_eq!(list.len(), NODE_COUNT - 2);

    // Make sure the random node does not come up again.
    let mut remaining = Vec::new();
    while let Some(node) = list.checkout() {
        assert!(![ordered_checkout.address(), random_checkout.address()].contains(&node.address()));
        remaining.push(node);
    }
    assert_eq!(remaining.len(), NODE_COUNT - 2);

    let mut now = 1;
    for node in remaining.into_iter().chain([ordered_checkout, random_checkout]) {
        node.discard(&mut list, now);
        now += 1;
    }
    assert_eq!(list.len(), NODE_COUNT);
}

#[test]
fn a_new_node_may_come_in_at_an_earlier_time() {
    let mut list = NodeList::new();
    assert!(list.insert(("a".to_owned(), 1), 50));
    // "b" has no record yet, so an earlier time is fine; the clock stays.
    assert!(list.insert(("b".to_owned(), 1), 20));
    assert_eq!(list.clock(), 50);
    assert_eq!(list.last_used(&("b".to_owned(), 1)), Some(20));
    assert_eq!(list.next().unwrap(), ("b".to_owned(), 1));
    assert_eq!(list.next().unwrap(), ("a".to_owned(), 1));
}
