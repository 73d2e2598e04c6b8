use quorum_node::config::{Algorithm, Node};
use quorum_node::context::{Context, NodeEvent};
use quorum_node::msg::{Msg, ProtMsg, WrapperMsg};
use quorum_node::sync::{SyncMsg, SyncState};

fn pair_key(i: usize, j: usize) -> Vec<u8> {
    let mut k = vec![(i + j) as u8; 16];
    k.extend(vec![(i * j + 1) as u8; 16]);
    k
}

fn node_config(id: usize) -> Node {
    let n = 4;
    let mut c = Node::new();
    c.id = id;
    c.num_nodes = n;
    c.num_faults = 1;
    c.crypto_alg = Algorithm::NOPKI;
    c.net_map = (0..n + 1).map(|i| format!("127.0.0.1:{}", 9000 + i)).collect();
    c.sk_map = (0..n).map(|j| pair_key(id, j)).collect();
    c.client_port = (7000 + id) as u16;
    c.validate().expect("test config must be valid");
    c
}

fn make_node(id: usize) -> Context {
    Context::new(&node_config(id), vec![0, 0, 0, 0, 0, 0, 0, (id + 1) as u8])
}

#[test]
fn quorum_monotonicity() {
    let mut c = make_node(0);
    assert!(c.is_leader);

    assert!(c.handle_init(10, 0).is_empty());
    assert_eq!(c.quorum, 1);

    // a duplicate sender does not move the tally
    assert!(c.handle_init(11, 0).is_empty());
    assert_eq!(c.quorum, 1);

    assert!(c.handle_init(20, 1).is_empty());
    assert_eq!(c.quorum, 2);

    // the third distinct sender reaches 2f+1 = 3: one Prepare, counter reset
    let out = c.handle_init(30, 2);
    assert_eq!(c.quorum, 0);
    assert_eq!(out.len(), 4);
    for (_, w) in &out {
        match &w.protmsg {
            ProtMsg::Prepare(m) => {
                assert_eq!(m.content, vec![10, 20, 30]);
                assert_eq!(m.origin, 0);
            },
            other => panic!("expected Prepare, got {:?}", other),
        }
    }

    // no second Prepare, ever
    assert!(c.handle_init(40, 3).is_empty());
}

#[test]
fn follower_ignores_init() {
    let mut c = make_node(1);
    assert!(!c.is_leader);
    assert!(c.handle_init(9, 0).is_empty());
    assert_eq!(c.quorum, 0);
    assert!(c.values.is_empty());
}

#[test]
fn prepare_echoes_once() {
    let mut c = make_node(3);
    let out = c.handle_prepare(vec![7, 8], 0);
    // a follower broadcasts to everyone but itself
    assert_eq!(out.len(), 3);
    for (r, w) in &out {
        assert_ne!(*r, 3);
        match &w.protmsg {
            ProtMsg::Echo(m) => {
                assert_eq!(m.content, vec![7, 8]);
                assert_eq!(m.origin, 3);
            },
            other => panic!("expected Echo, got {:?}", other),
        }
    }
    // the one-shot trigger is spent
    assert!(c.handle_prepare(vec![7, 8], 1).is_empty());
}

#[test]
fn leader_does_not_echo_prepare() {
    let mut c = make_node(0);
    assert!(c.handle_prepare(vec![1], 2).is_empty());
}

#[test]
fn echo_amplification_exactly_once() {
    let mut c = make_node(1);
    let v = vec![4, 5, 6];
    let (out1, d1) = c.handle_echo(v.clone(), 0);
    assert!(out1.is_empty() && d1.is_none());

    // f+1 = 2 matching reports: the node re-broadcasts the vector once
    let (out2, d2) = c.handle_echo(v.clone(), 2);
    assert_eq!(out2.len(), 3);
    assert!(d2.is_none());
    assert!(!c.echo);

    // idempotent thereafter: another vector reaching f+1 does not fire
    let w = vec![9];
    c.handle_echo(w.clone(), 0);
    let (out3, _) = c.handle_echo(w.clone(), 3);
    assert!(out3.is_empty());
}

#[test]
fn delivery_reports_median() {
    let mut c = make_node(2);
    let v = vec![1, 2, 3, 4];
    c.handle_echo(v.clone(), 0);
    let (_, d2) = c.handle_echo(v.clone(), 1);
    assert!(d2.is_none());

    // n-f = 3 matching reports: deliver the median
    let (_, d3) = c.handle_echo(v.clone(), 3);
    let m = d3.expect("delivery at n-f matching echoes");
    assert_eq!(m.state, SyncState::COMPLETED);
    assert_eq!(m.sender, 2);
    assert_eq!(m.value, "2.5");

    // a fourth matching report does not deliver again
    let (_, d4) = c.handle_echo(v.clone(), 0);
    assert!(d4.is_none());
}

#[test]
fn empty_vector_is_never_delivered() {
    let mut c = make_node(1);
    c.handle_echo(vec![], 0);
    c.handle_echo(vec![], 2);
    let (_, d) = c.handle_echo(vec![], 3);
    assert!(d.is_none());
}

#[test]
fn process_msg_drops_bad_mac() {
    let mut c = make_node(1);
    let w = WrapperMsg::new(
        ProtMsg::Echo(Msg { content: vec![5], origin: 0 }),
        0,
        pair_key(0, 1).as_slice(),
    );
    let (out, comp) = c.process_msg(w.clone());
    assert!(out.is_empty() && comp.is_none());
    assert_eq!(c.echo_quorum, 1);

    let mut bad = w.clone();
    bad.mac[0] ^= 0xff;
    let (out2, comp2) = c.process_msg(bad);
    assert!(out2.is_empty() && comp2.is_none());
    // the tampered message left no trace
    assert_eq!(c.echo_quorum, 1);
}

#[test]
fn process_msg_drops_unknown_sender() {
    let mut c = make_node(1);
    let w = WrapperMsg::new(ProtMsg::Init(1), 9, pair_key(0, 1).as_slice());
    let (out, comp) = c.process_msg(w);
    assert!(out.is_empty() && comp.is_none());
    assert_eq!(c.echo_quorum, 0);
}

#[test]
fn step_start_broadcasts_input() {
    let mut c = make_node(0);
    let alive = c.alive_msg();
    assert_eq!(alive.state, SyncState::ALIVE);
    assert_eq!(alive.sender, 0);

    let start = SyncMsg { sender: 4, state: SyncState::START, value: String::new() };
    let r = c.step(NodeEvent::Sync(start));
    assert!(!r.exit);
    assert_eq!(r.net_out.len(), 4);
    for (_, w) in &r.net_out {
        match &w.protmsg {
            ProtMsg::Init(x) => assert_eq!(*x, 1),
            other => panic!("expected Init, got {:?}", other),
        }
    }
    assert_eq!(r.sync_out.len(), 1);
    assert_eq!(r.sync_out[0].state, SyncState::STARTED);
}

#[test]
fn step_stop_and_shutdown_exit() {
    let mut c = make_node(2);
    let stop = SyncMsg { sender: 4, state: SyncState::STOP, value: String::new() };
    let r = c.step(NodeEvent::Sync(stop));
    assert!(r.exit && r.net_out.is_empty() && r.sync_out.is_empty());

    let r2 = c.step(NodeEvent::Shutdown);
    assert!(r2.exit);

    let informational = SyncMsg { sender: 4, state: SyncState::STARTED, value: String::new() };
    let r3 = c.step(NodeEvent::Sync(informational));
    assert!(!r3.exit && r3.net_out.is_empty() && r3.sync_out.is_empty());
}
