use quorum_node::config::{Algorithm, Node};
use quorum_node::context::{Context, NodeEvent};
use quorum_node::msg::{Replica, WrapperMsg};
use quorum_node::sync::{SyncMsg, SyncState};
use quorum_node::syncer::{CompletionReport, Syncer};

fn completed(sender: usize, value: &str) -> SyncMsg {
    SyncMsg { sender, state: SyncState::COMPLETED, value: String::from(value) }
}

fn alive(sender: usize) -> SyncMsg {
    SyncMsg { sender, state: SyncState::ALIVE, value: String::new() }
}

#[test]
fn start_at_last_alive() {
    let mut s = Syncer::new(4);
    for i in 0..3 {
        let (b, r) = s.handle_sync_msg(&alive(i), 100 + i as u64);
        assert!(b.is_empty() && r.is_none());
    }
    // a duplicate ALIVE does not complete the set
    let (bdup, _) = s.handle_sync_msg(&alive(0), 103);
    assert!(bdup.is_empty());

    let (b, r) = s.handle_sync_msg(&alive(3), 1000);
    assert!(r.is_none());
    assert_eq!(b.len(), 4);
    for (i, (target, m)) in b.iter().enumerate() {
        assert_eq!(*target, i);
        assert_eq!(m.state, SyncState::START);
        assert_eq!(m.sender, 4);
    }
    assert_eq!(s.start_time, 1000);

    // START goes out exactly once: once the set is complete, a further
    // ALIVE broadcasts nothing and leaves the start time alone
    let (bafter, rafter) = s.handle_sync_msg(&alive(2), 2000);
    assert!(bafter.is_empty() && rafter.is_none());
    assert_eq!(s.start_time, 1000);
}

#[test]
fn stop_at_completion_quorum() {
    let mut s = Syncer::new(4);
    s.start_time = 1000;
    let (b0, r0) = s.handle_sync_msg(&completed(0, "2.5"), 1500);
    assert!(b0.is_empty() && r0.is_none());
    let (b1, r1) = s.handle_sync_msg(&completed(1, "2.5"), 1300);
    assert!(b1.is_empty() && r1.is_none());

    // 2n/3 + 1 = 3 completed replicas close the run
    let (b2, r2) = s.handle_sync_msg(&completed(2, "2.5"), 1400);
    assert_eq!(b2.len(), 4);
    for (_, m) in &b2 {
        assert_eq!(m.state, SyncState::STOP);
    }
    let rep: CompletionReport = r2.expect("the quorum closes the run");
    assert!(!rep.disagreement);
    assert_eq!(rep.reported_values, vec![String::from("2.5")]);
    assert_eq!(rep.elapsed_sorted, vec![300, 400, 500]);

    // STOP goes out exactly once: neither a duplicate report nor a late
    // fresh one closes the run again
    let (bdup, rdup) = s.handle_sync_msg(&completed(0, "2.5"), 1600);
    assert!(bdup.is_empty() && rdup.is_none());
    let (blate, rlate) = s.handle_sync_msg(&completed(3, "2.5"), 1700);
    assert!(blate.is_empty() && rlate.is_none());
}

#[test]
fn safety_violation_detected() {
    let mut s = Syncer::new(4);
    s.start_time = 0;
    s.handle_sync_msg(&completed(0, "1"), 10);
    s.handle_sync_msg(&completed(1, "2"), 11);
    let (b, r) = s.handle_sync_msg(&completed(2, "1"), 12);
    let rep = r.expect("the quorum closes the run");
    // two distinct reported values: disagreement, not success
    assert!(rep.disagreement);
    assert_eq!(rep.reported_values.len(), 2);
    assert!(rep.reported_values.contains(&String::from("1")));
    assert!(rep.reported_values.contains(&String::from("2")));
    assert_eq!(b.len(), 4);
}

#[test]
fn informational_reports_do_nothing() {
    let mut s = Syncer::new(4);
    let started = SyncMsg { sender: 2, state: SyncState::STARTED, value: String::new() };
    let (b, r) = s.handle_sync_msg(&started, 5);
    assert!(b.is_empty() && r.is_none());
    let (b2, r2) = s.handle_sync_msg(&alive(9), 6);
    assert!(b2.is_empty() && r2.is_none());
}

// ---------------------------------------------------------------------------
// The full experiment: 4 nodes, f = 1, driven to completion in memory
// ---------------------------------------------------------------------------

fn pair_key(i: usize, j: usize) -> Vec<u8> {
    let mut k = vec![(i + j) as u8; 16];
    k.extend(vec![(i * j + 1) as u8; 16]);
    k
}

fn node_config(id: usize) -> Node {
    let n = 4;
    let mut c = Node::new();
    c.id = id;
    c.num_nodes = n;
    c.num_faults = 1;
    c.crypto_alg = Algorithm::NOPKI;
    c.net_map = (0..n + 1).map(|i| format!("127.0.0.1:{}", 9100 + i)).collect();
    c.sk_map = (0..n).map(|j| pair_key(id, j)).collect();
    c.validate().expect("test config must be valid");
    c
}

#[test]
fn four_nodes_reach_agreement() {
    let n = 4;
    let mut nodes: Vec<Context> = (0..n)
        .map(|id| Context::new(&node_config(id), vec![0, 0, 0, 0, 0, 0, 0, (id + 1) as u8]))
        .collect();
    let mut syncer = Syncer::new(n);

    let mut to_syncer: Vec<SyncMsg> = Vec::new();
    let mut sync_to_nodes: Vec<(Replica, SyncMsg)> = Vec::new();
    let mut to_nodes: Vec<(Replica, WrapperMsg)> = Vec::new();

    for i in 0..n {
        to_syncer.push(nodes[i].alive_msg());
    }

    let mut now: u64 = 1000;
    let mut report = None;
    let mut exited = vec![false; n];
    loop {
        if !to_syncer.is_empty() {
            let m = to_syncer.remove(0);
            let (bcasts, rep) = syncer.handle_sync_msg(&m, now);
            now += 1;
            sync_to_nodes.extend(bcasts);
            if rep.is_some() {
                report = rep;
            }
        } else if !sync_to_nodes.is_empty() {
            let (r, m) = sync_to_nodes.remove(0);
            let out = nodes[r].step(NodeEvent::Sync(m));
            to_nodes.extend(out.net_out);
            to_syncer.extend(out.sync_out);
            if out.exit {
                exited[r] = true;
            }
        } else if !to_nodes.is_empty() {
            let (r, w) = to_nodes.remove(0);
            let out = nodes[r].step(NodeEvent::Consensus(w));
            to_nodes.extend(out.net_out);
            to_syncer.extend(out.sync_out);
        } else {
            break;
        }
    }

    // the leader collected the first three distinct inputs 1, 2, 3;
    // every node delivered their median
    let rep = report.expect("the experiment must close");
    assert!(!rep.disagreement);
    assert_eq!(rep.reported_values, vec![String::from("2")]);
    assert_eq!(rep.elapsed_sorted.len(), 3);
    for w in rep.elapsed_sorted.windows(2) {
        assert!(w[0] <= w[1]);
    }
    // STOP reached every node
    assert!(exited.iter().all(|e| *e));
}
