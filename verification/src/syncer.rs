//! The synchronizer: the orchestrator that waits for every replica to
//! report ALIVE, broadcasts START, collects COMPLETED reports with their
//! delivered values and timings, detects disagreement among the reported
//! values, and broadcasts STOP.
//!
//! As with the node engine, the synchronizer here is the decision logic:
//! each handler takes one report (and the caller's clock reading) and
//! returns the messages to broadcast and the experiment's outcome.

use vstd::prelude::*;

use crate::context::count_true;
use crate::median;
use crate::msg::Replica;
use crate::sync::{SyncMsg, SyncMsgView, SyncState};

verus! {

/// How many replicas have reported, in a per-replica record.
pub open spec fn count_some<T>(s: Seq<Option<T>>) -> int
    decreases s.len(),
{
    if s.len() == 0 {
        0
    } else {
        count_some(s.drop_last()) + if s.last() is Some {
            1int
        } else {
            0int
        }
    }
}

proof fn lemma_count_some_update<T>(s: Seq<Option<T>>, i: int, x: T)
    requires
        0 <= i < s.len(),
    ensures
        s[i] is Some ==> count_some(s.update(i, Some(x))) == count_some(s),
        s[i] is None ==> count_some(s.update(i, Some(x))) == count_some(s) + 1,
    decreases s.len(),
{
    let s2 = s.update(i, Some(x));
    if i == s.len() - 1 {
        assert(s2.drop_last() =~= s.drop_last());
    } else {
        assert(s2.drop_last() =~= s.drop_last().update(i, Some(x)));
        assert(s2.last() == s.last());
        lemma_count_some_update(s.drop_last(), i, x);
    }
}

/// The elapsed time each completed replica took, in replica order:
/// completion time minus the start time, floored at zero.
pub open spec fn elapsed_list(timings: Seq<Option<u64>>, start: u64) -> Seq<u64>
    decreases timings.len(),
{
    if timings.len() == 0 {
        Seq::empty()
    } else {
        let prev = elapsed_list(timings.drop_last(), start);
        match timings.last() {
            Some(t) => prev.push(
                if t >= start {
                    (t - start) as u64
                } else {
                    0u64
                },
            ),
            None => prev,
        }
    }
}

/// The distinct reported values, in first-report order.
pub open spec fn distinct_vals(vs: Seq<Option<Seq<char>>>) -> Seq<Seq<char>>
    decreases vs.len(),
{
    if vs.len() == 0 {
        Seq::empty()
    } else {
        let prev = distinct_vals(vs.drop_last());
        match vs.last() {
            Some(x) => if prev.contains(x) {
                prev
            } else {
                prev.push(x)
            },
            None => prev,
        }
    }
}

/// The synchronizer's aggregate state: which replicas are alive, when the
/// run started, and each replica's completion time and reported value.
pub struct Syncer {
    pub num_nodes: usize,
    pub start_time: u64,
    pub alive: Vec<bool>,
    pub timings: Vec<Option<u64>>,
    pub values: Vec<Option<String>>,
}

/// Mathematical model of the synchronizer state.
pub ghost struct SyncerView {
    pub num_nodes: usize,
    pub start_time: u64,
    pub alive: Seq<bool>,
    pub timings: Seq<Option<u64>>,
    pub values: Seq<Option<Seq<char>>>,
}

impl View for Syncer {
    type V = SyncerView;

    open spec fn view(&self) -> SyncerView {
        SyncerView {
            num_nodes: self.num_nodes,
            start_time: self.start_time,
            alive: self.alive@,
            timings: self.timings@,
            values: self.values@.map_values(
                |o: Option<String>|
                    match o {
                        Some(s) => Some(s@),
                        None => None,
                    },
            ),
        }
    }
}

impl SyncerView {
    pub open spec fn wf(self) -> bool {
        &&& self.alive.len() == self.num_nodes
        &&& self.timings.len() == self.num_nodes
        &&& self.values.len() == self.num_nodes
    }
}

/// The outcome of one experiment run, assembled when enough COMPLETED
/// reports are in: the completion times relative to the start (sorted),
/// the distinct reported values, and whether the replicas disagreed.
/// Disagreement is a safety violation: the run must not be reported a
/// success.
pub struct CompletionReport {
    pub elapsed_sorted: Vec<u64>,
    pub reported_values: Vec<String>,
    pub disagreement: bool,
}

/// One copy of the control message per replica, in replica order.
pub open spec fn sync_bcast_plan(m: SyncMsgView, n: int) -> Seq<(Replica, SyncMsgView)>
    decreases n,
{
    if n <= 0 {
        Seq::empty()
    } else {
        sync_bcast_plan(m, n - 1).push((((n - 1) as usize), m))
    }
}

/// The views of a list of addressed control messages.
pub open spec fn sync_out_views(s: Seq<(Replica, SyncMsg)>) -> Seq<(Replica, SyncMsgView)> {
    s.map_values(|p: (Replica, SyncMsg)| (p.0, p.1@))
}

fn clone_sync_msg(m: &SyncMsg) -> (r: SyncMsg)
    ensures
        r@ == m@,
{
    SyncMsg { sender: m.sender, state: m.state, value: m.value.clone() }
}

// ---------------------------------------------------------------------------
// The transitions, stated over the view
// ---------------------------------------------------------------------------

/// The state after an ALIVE report: the sender is marked alive (an
/// unknown sender is ignored), and the start time is recorded at the one
/// report that completes the replica set. A duplicate report never moves
/// the start time again.
pub open spec fn alive_step(s: SyncerView, sender: Replica, now: u64) -> SyncerView {
    if (sender as int) < s.alive.len() {
        let alive2 = s.alive.update(sender as int, true);
        if !s.alive[sender as int] && count_true(alive2) == s.num_nodes {
            SyncerView { alive: alive2, start_time: now, ..s }
        } else {
            SyncerView { alive: alive2, ..s }
        }
    } else {
        s
    }
}

/// Whether an ALIVE report completes the replica set and START goes out:
/// only a replica not yet alive can complete the set, so START goes out
/// exactly once.
pub open spec fn alive_starts(s: SyncerView, sender: Replica) -> bool {
    &&& (sender as int) < s.alive.len()
    &&& !s.alive[sender as int]
    &&& count_true(s.alive.update(sender as int, true)) == s.num_nodes
}

/// The state after a COMPLETED report: the sender's completion time and
/// reported value are recorded (an unknown sender is ignored).
pub open spec fn completed_step(
    s: SyncerView,
    sender: Replica,
    value: Seq<char>,
    now: u64,
) -> SyncerView {
    if (sender as int) < s.timings.len() {
        SyncerView {
            timings: s.timings.update(sender as int, Some(now)),
            values: s.values.update(sender as int, Some(value)),
            ..s
        }
    } else {
        s
    }
}

/// Whether a COMPLETED report brings the count of completed replicas to
/// exactly the `2n/3 + 1` quorum, closing the run: only a replica that
/// has not reported yet can bring the count there, so the run closes and
/// STOP goes out exactly once.
pub open spec fn completed_closes(s: SyncerView, sender: Replica, now: u64) -> bool {
    &&& (sender as int) < s.timings.len()
    &&& s.timings[sender as int] is None
    &&& count_some(s.timings.update(sender as int, Some(now))) == 2 * s.num_nodes as int / 3 + 1
}

impl Syncer {
    /// A fresh synchronizer for a replica set of `num_nodes`, with no
    /// reports in yet.
    pub fn new(num_nodes: usize) -> (r: Syncer)
        ensures
            r@.wf(),
            r@.num_nodes == num_nodes,
            r@.start_time == 0,
            forall|i: int| 0 <= i < num_nodes ==> !(#[trigger] r@.alive[i]),
            forall|i: int| 0 <= i < num_nodes ==> (#[trigger] r@.timings[i]) is None,
            forall|i: int| 0 <= i < num_nodes ==> (#[trigger] r@.values[i]) is None,
    {
        let mut alive: Vec<bool> = Vec::new();
        let mut timings: Vec<Option<u64>> = Vec::new();
        let mut values: Vec<Option<String>> = Vec::new();
        let mut i: usize = 0;
        while i < num_nodes
            invariant
                i <= num_nodes,
                alive@.len() == i,
                timings@.len() == i,
                values@.len() == i,
                forall|j: int| 0 <= j < i ==> !(#[trigger] alive@[j]),
                forall|j: int| 0 <= j < i ==> (#[trigger] timings@[j]) is None,
                forall|j: int| 0 <= j < i ==> (#[trigger] values@[j]) is None,
            decreases num_nodes - i,
        {
            alive.push(false);
            timings.push(None);
            values.push(None);
            i = i + 1;
        }
        Syncer { num_nodes, start_time: 0, alive, timings, values }
    }

    /// One copy of the control message addressed to every replica.
    pub fn broadcast(&self, sync_msg: &SyncMsg) -> (out: Vec<(Replica, SyncMsg)>)
        ensures
            sync_out_views(out@) == sync_bcast_plan(sync_msg@, self.num_nodes as int),
    {
        let mut out: Vec<(Replica, SyncMsg)> = Vec::new();
        let mut r: usize = 0;
        proof {
            assert(sync_out_views(out@) =~= sync_bcast_plan(sync_msg@, 0));
        }
        while r < self.num_nodes
            invariant
                r <= self.num_nodes,
                sync_out_views(out@) == sync_bcast_plan(sync_msg@, r as int),
            decreases self.num_nodes - r,
        {
            out.push((r, clone_sync_msg(sync_msg)));
            r = r + 1;
            proof {
                assert(sync_out_views(out@) =~= sync_bcast_plan(sync_msg@, r as int));
            }
        }
        out
    }
}

// ---------------------------------------------------------------------------
// Executable helpers over the per-replica records
// ---------------------------------------------------------------------------

fn count_alive(alive: &Vec<bool>) -> (r: usize)
    ensures
        r == count_true(alive@),
{
    let n = alive.len();
    let mut cnt: usize = 0;
    let mut i: usize = 0;
    proof {
        assert(alive@.take(0) =~= Seq::<bool>::empty());
    }
    while i < n
        invariant
            i <= n == alive@.len(),
            cnt <= i,
            cnt == count_true(alive@.take(i as int)),
        decreases n - i,
    {
        proof {
            assert(alive@.take(i + 1).drop_last() =~= alive@.take(i as int));
            assert(alive@.take(i + 1).last() == alive@[i as int]);
        }
        if alive[i] {
            cnt = cnt + 1;
        }
        i = i + 1;
    }
    proof {
        assert(alive@.take(n as int) =~= alive@);
    }
    cnt
}

fn count_completed(timings: &Vec<Option<u64>>) -> (r: usize)
    ensures
        r == count_some(timings@),
{
    let n = timings.len();
    let mut cnt: usize = 0;
    let mut i: usize = 0;
    proof {
        assert(timings@.take(0) =~= Seq::<Option<u64>>::empty());
    }
    while i < n
        invariant
            i <= n == timings@.len(),
            cnt <= i,
            cnt == count_some(timings@.take(i as int)),
        decreases n - i,
    {
        proof {
            assert(timings@.take(i + 1).drop_last() =~= timings@.take(i as int));
            assert(timings@.take(i + 1).last() == timings@[i as int]);
        }
        if timings[i].is_some() {
            cnt = cnt + 1;
        }
        i = i + 1;
    }
    proof {
        assert(timings@.take(n as int) =~= timings@);
    }
    cnt
}

fn collect_elapsed(timings: &Vec<Option<u64>>, start: u64) -> (r: Vec<u64>)
    ensures
        r@ == elapsed_list(timings@, start),
{
    let n = timings.len();
    let mut out: Vec<u64> = Vec::new();
    let mut i: usize = 0;
    proof {
        assert(timings@.take(0) =~= Seq::<Option<u64>>::empty());
        assert(out@ =~= elapsed_list(timings@.take(0), start));
    }
    while i < n
        invariant
            i <= n == timings@.len(),
            out@ == elapsed_list(timings@.take(i as int), start),
        decreases n - i,
    {
        proof {
            assert(timings@.take(i + 1).drop_last() =~= timings@.take(i as int));
            assert(timings@.take(i + 1).last() == timings@[i as int]);
        }
        match timings[i] {
            Some(t) => {
                let e = if t >= start {
                    t - start
                } else {
                    0
                };
                out.push(e);
            },
            None => {},
        }
        i = i + 1;
    }
    proof {
        assert(timings@.take(n as int) =~= timings@);
    }
    out
}

/// The view a record of reported values presents.
pub open spec fn values_view(v: Seq<Option<String>>) -> Seq<Option<Seq<char>>> {
    v.map_values(
        |o: Option<String>|
            match o {
                Some(s) => Some(s@),
                None => None,
            },
    )
}

/// The view a list of reported values presents.
pub open spec fn strings_view(v: Seq<String>) -> Seq<Seq<char>> {
    v.map_values(|s: String| s@)
}

fn string_in(list: &Vec<String>, x: &String) -> (r: bool)
    ensures
        r == strings_view(list@).contains(x@),
{
    let n = list.len();
    let mut i: usize = 0;
    while i < n
        invariant
            i <= n == list@.len(),
            forall|j: int| 0 <= j < i ==> strings_view(list@)[j] != x@,
        decreases n - i,
    {
        if list[i].eq(x) {
            proof {
                assert(strings_view(list@)[i as int] == x@);
            }
            return true;
        }
        i = i + 1;
    }
    proof {
        if strings_view(list@).contains(x@) {
            let j = choose|j: int|
                0 <= j < strings_view(list@).len() && strings_view(list@)[j] == x@;
            assert(false);
        }
    }
    false
}

fn collect_distinct(values: &Vec<Option<String>>) -> (r: Vec<String>)
    ensures
        strings_view(r@) == distinct_vals(values_view(values@)),
{
    let n = values.len();
    let mut out: Vec<String> = Vec::new();
    let mut i: usize = 0;
    proof {
        assert(values_view(values@.take(0)) =~= Seq::<Option<Seq<char>>>::empty());
        assert(strings_view(out@) =~= distinct_vals(values_view(values@.take(0))));
    }
    while i < n
        invariant
            i <= n == values@.len(),
            strings_view(out@) == distinct_vals(values_view(values@.take(i as int))),
        decreases n - i,
    {
        proof {
            assert(values_view(values@.take(i + 1)).drop_last() =~= values_view(
                values@.take(i as int),
            ));
            assert(values_view(values@.take(i + 1)).last() == values_view(values@)[i as int]);
        }
        match &values[i] {
            Some(s) => {
                if !string_in(&out, s) {
                    out.push(s.clone());
                    proof {
                        assert(strings_view(out@) =~= distinct_vals(
                            values_view(values@.take(i + 1)),
                        ));
                    }
                }
            },
            None => {},
        }
        i = i + 1;
    }
    proof {
        assert(values@.take(n as int) =~= values@);
    }
    out
}

// ---------------------------------------------------------------------------
// The synchronizer loop, one report at a time
// ---------------------------------------------------------------------------

impl Syncer {
    /// Processes one report from a replica, with the caller's clock
    /// reading `now` (milliseconds): marks ALIVE reports and broadcasts
    /// START exactly once, at the report that completes the replica set
    /// (recording the start time then, and never again); records
    /// COMPLETED reports and, exactly once, at the fresh report that
    /// brings the count of completed replicas to the `2n/3 + 1` quorum,
    /// assembles the outcome (sorted elapsed times, distinct reported
    /// values, and whether they disagree) and broadcasts STOP. A
    /// duplicate report never re-fires either broadcast. Every other
    /// report only informs.
    pub fn handle_sync_msg(&mut self, msg: &SyncMsg, now: u64) -> (r: (
        Vec<(Replica, SyncMsg)>,
        Option<CompletionReport>,
    ))
        requires
            old(self)@.wf(),
        ensures
            final(self)@.wf(),
            match msg@.state {
                SyncState::ALIVE => {
                    &&& final(self)@ == alive_step(old(self)@, msg@.sender, now)
                    &&& (if alive_starts(old(self)@, msg@.sender) {
                        sync_out_views(r.0@) == sync_bcast_plan(
                            SyncMsgView {
                                sender: old(self)@.num_nodes,
                                state: SyncState::START,
                                value: Seq::<char>::empty(),
                            },
                            old(self)@.num_nodes as int,
                        )
                    } else {
                        r.0@.len() == 0
                    })
                    &&& r.1 is None
                },
                SyncState::COMPLETED => {
                    let s2 = completed_step(old(self)@, msg@.sender, msg@.value, now);
                    &&& final(self)@ == s2
                    &&& (if completed_closes(old(self)@, msg@.sender, now) {
                        &&& sync_out_views(r.0@) == sync_bcast_plan(
                            SyncMsgView {
                                sender: old(self)@.num_nodes,
                                state: SyncState::STOP,
                                value: Seq::<char>::empty(),
                            },
                            old(self)@.num_nodes as int,
                        )
                        &&& r.1 matches Some(rep) && rep.elapsed_sorted@ == median::sorted_of(
                            elapsed_list(s2.timings, s2.start_time),
                        ) && strings_view(rep.reported_values@) == distinct_vals(s2.values)
                            && rep.disagreement == (distinct_vals(s2.values).len() > 1)
                    } else {
                        r.0@.len() == 0 && r.1 is None
                    })
                },
                _ => final(self)@ == old(self)@ && r.0@.len() == 0 && r.1 is None,
            },
    {
        match msg.state {
            SyncState::ALIVE => {
                if msg.sender < self.num_nodes {
                    let was_alive = self.alive[msg.sender];
                    let slot = &mut self.alive[msg.sender];
                    *slot = true;
                    let cnt = count_alive(&self.alive);
                    if !was_alive && cnt == self.num_nodes {
                        self.start_time = now;
                        let m = SyncMsg {
                            sender: self.num_nodes,
                            state: SyncState::START,
                            value: String::new(),
                        };
                        return (self.broadcast(&m), None);
                    }
                }
                (Vec::new(), None)
            },
            SyncState::COMPLETED => {
                if msg.sender < self.num_nodes {
                    let was_reported = self.timings[msg.sender].is_some();
                    let tslot = &mut self.timings[msg.sender];
                    *tslot = Some(now);
                    let vslot = &mut self.values[msg.sender];
                    *vslot = Some(msg.value.clone());
                    proof {
                        assert(self@.values =~= old(self)@.values.update(
                            msg@.sender as int,
                            Some(msg@.value),
                        ));
                    }
                    let cnt = count_completed(&self.timings);
                    let quorum = ((2 * (self.num_nodes as u128)) / 3 + 1) as u128;
                    if !was_reported && cnt as u128 == quorum {
                        // the experiment is over: compute the elapsed
                        // times and check the reported values for
                        // disagreement
                        let times = collect_elapsed(&self.timings, self.start_time);
                        let elapsed_sorted = median::sort_u64(&times);
                        let reported_values = collect_distinct(&self.values);
                        let disagreement = reported_values.len() > 1;
                        proof {
                            assert(strings_view(reported_values@).len()
                                == reported_values@.len());
                        }
                        let report = CompletionReport {
                            elapsed_sorted,
                            reported_values,
                            disagreement,
                        };
                        let m = SyncMsg {
                            sender: self.num_nodes,
                            state: SyncState::STOP,
                            value: String::new(),
                        };
                        return (self.broadcast(&m), Some(report));
                    }
                }
                (Vec::new(), None)
            },
            _ => (Vec::new(), None),
        }
    }
}

/// START goes out exactly once: only the report of a replica not yet
/// alive can complete the set (so the alive count strictly rises to `n`
/// at that one step), the count never falls, and once every replica is
/// alive no further ALIVE report fires START or moves the start time —
/// the state does not change at all.
pub proof fn lemma_start_once(s: SyncerView, sender: Replica, now: u64)
    requires
        s.wf(),
    ensures
        alive_starts(s, sender) ==> count_true(s.alive) + 1 == s.num_nodes as int,
        count_true(alive_step(s, sender, now).alive) >= count_true(s.alive),
        count_true(s.alive) == s.num_nodes ==> !alive_starts(s, sender) && alive_step(
            s,
            sender,
            now,
        ) == s,
{
    crate::context::lemma_count_true_bound(s.alive);
    if (sender as int) < s.alive.len() {
        let alive2 = s.alive.update(sender as int, true);
        if s.alive[sender as int] {
            assert(alive2 =~= s.alive);
        } else {
            crate::context::lemma_count_true_update(s.alive, sender as int);
        }
    }
    if count_true(s.alive) == s.num_nodes {
        crate::context::lemma_count_true_full(s.alive);
    }
}

/// STOP goes out exactly once: the run closes only on the fresh report
/// that raises the completed count to the quorum, the count never falls,
/// and once the quorum has been reached no further COMPLETED report
/// closes the run again.
pub proof fn lemma_stop_once(s: SyncerView, sender: Replica, value: Seq<char>, now: u64)
    requires
        s.wf(),
    ensures
        completed_closes(s, sender, now) ==> count_some(s.timings) + 1 == 2 * s.num_nodes as int
            / 3 + 1,
        count_some(completed_step(s, sender, value, now).timings) >= count_some(s.timings),
        count_some(s.timings) >= 2 * s.num_nodes as int / 3 + 1 ==> !completed_closes(
            s,
            sender,
            now,
        ),
{
    if (sender as int) < s.timings.len() {
        lemma_count_some_update(s.timings, sender as int, now);
        if s.timings[sender as int] is Some {
            assert(completed_step(s, sender, value, now).timings =~= s.timings.update(
                sender as int,
                Some(now),
            ));
        }
    }
}

/// Safety-violation detection: when the run closes, the outcome reports
/// disagreement exactly when two or more distinct values were reported —
/// a run with disagreeing replicas is never reported as agreement.
pub proof fn lemma_disagreement_detected(vs: Seq<Option<Seq<char>>>, i: int, j: int)
    requires
        0 <= i < vs.len(),
        0 <= j < vs.len(),
        vs[i] is Some,
        vs[j] is Some,
        vs[i] != vs[j],
    ensures
        distinct_vals(vs).len() > 1,
{
    lemma_distinct_vals_contains(vs, i);
    lemma_distinct_vals_contains(vs, j);
    let d = distinct_vals(vs);
    let x = vs[i]->0;
    let y = vs[j]->0;
    assert(x != y);
    if d.len() <= 1 {
        let ix = choose|k: int| 0 <= k < d.len() && d[k] == x;
        let iy = choose|k: int| 0 <= k < d.len() && d[k] == y;
        assert(ix == 0 && iy == 0);
        assert(false);
    }
}

/// Every reported value appears among the distinct values.
proof fn lemma_distinct_vals_contains(vs: Seq<Option<Seq<char>>>, i: int)
    requires
        0 <= i < vs.len(),
        vs[i] is Some,
    ensures
        distinct_vals(vs).contains(vs[i]->0),
    decreases vs.len(),
{
    if i == vs.len() - 1 {
        let prev = distinct_vals(vs.drop_last());
        if !prev.contains(vs[i]->0) {
            assert(distinct_vals(vs).last() == vs[i]->0);
        } else {
            lemma_distinct_vals_prefix_contains(vs, vs[i]->0);
        }
    } else {
        assert(vs.drop_last()[i] == vs[i]);
        lemma_distinct_vals_contains(vs.drop_last(), i);
        lemma_distinct_vals_grow(vs, vs[i]->0);
    }
}

/// Whatever the prefix's distinct values hold, the whole record's hold.
proof fn lemma_distinct_vals_grow(vs: Seq<Option<Seq<char>>>, x: Seq<char>)
    requires
        vs.len() > 0,
        distinct_vals(vs.drop_last()).contains(x),
    ensures
        distinct_vals(vs).contains(x),
{
    let prev = distinct_vals(vs.drop_last());
    let j = choose|k: int| 0 <= k < prev.len() && prev[k] == x;
    match vs.last() {
        Some(y) => {
            if prev.contains(y) {
            } else {
                assert(distinct_vals(vs)[j] == x);
            }
        },
        None => {},
    }
}

proof fn lemma_distinct_vals_prefix_contains(vs: Seq<Option<Seq<char>>>, x: Seq<char>)
    requires
        vs.len() > 0,
        distinct_vals(vs.drop_last()).contains(x),
    ensures
        distinct_vals(vs).contains(x),
{
    lemma_distinct_vals_grow(vs, x);
}

} // verus!
