use ants::config::parse_node;
use ants::{AntsError, CliArgs};

fn args(nodes: &[&str]) -> CliArgs {
    CliArgs {
        host: "0.0.0.0".to_owned(),
        port: 5355,
        grpc_port: 50051,
        nodes: nodes.iter().map(|n| n.to_string()).collect(),
    }
}

#[test]
fn node_addresses_of_host_and_port() {
    let a = args(&["127.0.0.1:50051", "127.0.0.1:50052"]);
    let nodes = a.node_addresses().unwrap();
    assert_eq!(nodes, vec![("127.0.0.1".to_owned(), 50051), ("127.0.0.1".to_owned(), 50052)]);
}

#[test]
fn node_addresses_of_nothing() {
    assert_eq!(args(&[]).node_addresses().unwrap(), Vec::<(String, u16)>::new());
}

#[test]
fn node_addresses_refuse_a_bad_port() {
    match args(&["a:1", "b:port", "c:99999"]).node_addresses() {
        Err(AntsError::InvalidNodeAddress(n)) => assert_eq!(n, "b:port"),
        other => panic!("unexpected: {:?}", other),
    }
    match args(&["c:65536"]).node_addresses() {
        Err(AntsError::InvalidNodeAddress(n)) => assert_eq!(n, "c:65536"),
        other => panic!("unexpected: {:?}", other),
    }
}

#[test]
fn ports_read_as_rust_reads_them() {
    assert_eq!(parse_node(&"h:+80".to_owned()), Some(("h".to_owned(), 80)));
    assert_eq!(parse_node(&"h:0065535".to_owned()), Some(("h".to_owned(), 65535)));
    assert_eq!(parse_node(&":1".to_owned()), Some((String::new(), 1)));
    assert_eq!(parse_node(&"h:".to_owned()), None);
    assert_eq!(parse_node(&"h:+".to_owned()), None);
    assert_eq!(parse_node(&"h:-1".to_owned()), None);
    assert_eq!(parse_node(&"h: 1".to_owned()), None);
    // Only the part between the first and the second colon is the port.
    assert_eq!(parse_node(&"h:12:34".to_owned()), Some(("h".to_owned(), 12)));
    assert_eq!(parse_node(&"nocolon".to_owned()), None);
}

#[test]
fn written_addresses_read_back() {
    for (host, port) in [("127.0.0.1", 50051u16), ("example.org", 0), ("", 65535), ("h", 7)] {
        let text = format!("{}:{}", host, port);
        assert_eq!(parse_node(&text), Some((host.to_owned(), port)));
    }
}
