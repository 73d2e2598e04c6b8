use quorum_node::config::{Algorithm, Client, Node, ParseError, parse_port};

fn valid_node(n: usize, f: usize) -> Node {
    let mut c = Node::new();
    c.id = 1;
    c.num_nodes = n;
    c.num_faults = f;
    c.crypto_alg = Algorithm::NOPKI;
    c.net_map = (0..n + 1).map(|i| format!("127.0.0.1:{}", 8000 + i)).collect();
    c.sk_map = (0..n).map(|j| vec![j as u8; 32]).collect();
    c
}

#[test]
fn validate_accepts_valid_config() {
    assert_eq!(valid_node(4, 1).validate(), Ok(()));
}

#[test]
fn validate_rejects_short_address_map() {
    let mut c = valid_node(4, 1);
    c.net_map.pop();
    assert_eq!(c.validate(), Err(ParseError::InvalidMapLen(5, 4)));
}

#[test]
fn validate_rejects_bad_fault_bound() {
    // n must exceed 3f for the quorum thresholds to make sense
    let mut c = valid_node(6, 2);
    c.net_map = (0..7).map(|i| format!("127.0.0.1:{}", 8000 + i)).collect();
    assert_eq!(c.validate(), Err(ParseError::IncorrectFaults(2, 6)));
}

#[test]
fn validate_rejects_incomplete_key_map() {
    let mut c = valid_node(4, 1);
    c.sk_map.pop();
    assert_eq!(c.validate(), Err(ParseError::InvalidMapEntry(3)));
}

#[test]
fn validate_rejects_short_key() {
    let mut c = valid_node(4, 1);
    c.sk_map[2] = vec![0u8; 16];
    assert_eq!(c.validate(), Err(ParseError::InvalidPkSize(16)));
}

#[test]
fn client_validate() {
    let mut c = Client::new();
    c.num_nodes = 4;
    c.num_faults = 1;
    c.net_map = (0..4).map(|i| format!("127.0.0.1:{}", 7000 + i)).collect();
    assert_eq!(c.validate(), Ok(()));

    c.num_faults = 2;
    assert_eq!(c.validate(), Err(ParseError::IncorrectFaults(2, 4)));

    c.net_map.pop();
    assert_eq!(c.validate(), Err(ParseError::InvalidMapLen(4, 3)));
}

#[test]
fn parse_port_reads_the_last_port() {
    assert_eq!(parse_port("127.0.0.1:8080"), Some(8080));
    assert_eq!(parse_port("host:0"), Some(0));
    assert_eq!(parse_port("a:b:65535"), Some(65535));
}

#[test]
fn parse_port_rejects_bad_strings() {
    assert_eq!(parse_port("nocolon"), None);
    assert_eq!(parse_port("trailing:"), None);
    assert_eq!(parse_port("too:99999"), None);
    assert_eq!(parse_port("mixed:12x"), None);
    assert_eq!(parse_port(""), None);
}

#[test]
fn update_config_rewrites_the_map() {
    let mut c = valid_node(3, 0);
    c.num_faults = 0;
    c.sk_map = (0..3).map(|j| vec![j as u8; 32]).collect();
    c.net_map = (0..4).map(|i| format!("10.0.0.{}:{}", i, 8000 + i)).collect();
    let ips = vec![
        String::from("192.168.0.1:9000"),
        String::from("192.168.0.2:9001"),
        String::from("192.168.0.3:9002"),
        String::from("192.168.0.9:9100"),
    ];
    assert_eq!(c.update_config(ips), Ok(()));
    assert_eq!(c.net_map[0], "192.168.0.1:9000");
    // this node (id 1) listens on every interface at its own port
    assert_eq!(c.net_map[1], "0.0.0.0:9001");
    assert_eq!(c.net_map[2], "192.168.0.3:9002");
    // the last entry is the synchronizer's, and becomes the client address
    assert_eq!(c.net_map[3], "192.168.0.9:9100");
    assert_eq!(c.client_addr, "192.168.0.9:9100");
}

#[test]
fn update_config_rejects_portless_own_address() {
    let mut c = valid_node(3, 0);
    let ips = vec![
        String::from("192.168.0.1:9000"),
        String::from("no-port-here"),
        String::from("192.168.0.3:9002"),
    ];
    assert_eq!(c.update_config(ips), Err(ParseError::InvalidMapEntry(1)));
    // nothing changed
    assert_eq!(c.net_map[1], "127.0.0.1:8001");
}

#[test]
fn client_update_config_replaces_entries() {
    let mut c = Client::new();
    c.num_nodes = 2;
    c.net_map = vec![String::from("a:1"), String::from("b:2")];
    c.update_config(vec![String::from("c:3")]);
    assert_eq!(c.net_map, vec![String::from("c:3"), String::from("b:2")]);
}

#[test]
fn addresses() {
    let mut c = valid_node(4, 1);
    c.client_port = 7001;
    assert_eq!(c.my_ip(), "127.0.0.1:8001");
    assert_eq!(c.client_ip(), "0.0.0.0:7001");
}

#[test]
fn node_new_defaults() {
    let c = Node::new();
    assert_eq!(c.delta, 50);
    assert_eq!(c.client_addr, "0.0.0.0:5000");
    assert_eq!(c.num_nodes, 0);
}
