//! The per-node protocol engine: the quorum-broadcast state machine that
//! collects Init values at the leader, opens the echo stage with Prepare,
//! amplifies echoes at `f+1` matching reports, and delivers the median at
//! `n-f` matching reports.
//!
//! The engine is a pure state machine: each handler mutates the protocol
//! state and returns the messages to send, and the caller performs the
//! network I/O. Every transition is stated as a spec-level step function
//! over the state's mathematical view.

use vstd::prelude::*;

use crate::codec;
use crate::config::Node;
use crate::crypto;
use crate::median;
use crate::msg::{Msg, MsgView, ProtMsg, ProtMsgView, Replica, WrapperMsg, WrapperMsgView};
use crate::sync::{SyncMsg, SyncMsgView, SyncState};

verus! {

// ---------------------------------------------------------------------------
// The big-endian input number
// ---------------------------------------------------------------------------

/// The value the input bytes stand for: each byte fills one of the top
/// positions of a 64-bit number, most significant first.
pub open spec fn be_val_from(s: Seq<u8>, i: int) -> nat
    recommends
        s.len() <= 8,
    decreases s.len() - i,
{
    if i < 0 || i >= s.len() {
        0
    } else {
        (s[i] * codec::pow256((7 - i) as nat) + be_val_from(s, i + 1)) as nat
    }
}

pub open spec fn be_val(s: Seq<u8>) -> nat
    recommends
        s.len() <= 8,
{
    be_val_from(s, 0)
}

proof fn lemma_be_val_bound(s: Seq<u8>, i: int)
    requires
        0 <= i <= s.len() <= 8,
    ensures
        be_val_from(s, i) < codec::pow256((8 - i) as nat),
    decreases s.len() - i,
{
    codec::lemma_pow256_pos((7 - i) as nat);
    if i >= s.len() {
        codec::lemma_pow256_pos((8 - i) as nat);
    } else {
        lemma_be_val_bound(s, i + 1);
        codec::lemma_pow256_le((7 - i) as nat, (7 - i + 1) as nat);
        assert(be_val_from(s, i + 1) <= codec::pow256((7 - i) as nat));
        assert(s[i] * codec::pow256((7 - i) as nat) <= 255 * codec::pow256((7 - i) as nat))
            by (nonlinear_arith)
            requires
                0 <= s[i] <= 255,
                codec::pow256((7 - i) as nat) >= 1,
        ;
    }
}

/// A power of 256 that fits a `u64`.
fn pow256_exec(e: usize) -> (r: u64)
    requires
        e <= 7,
    ensures
        r as nat == codec::pow256(e as nat),
{
    proof {
        codec::lemma_pow256_values();
    }
    if e == 0 {
        1
    } else if e == 1 {
        0x100
    } else if e == 2 {
        0x1_0000
    } else if e == 3 {
        0x100_0000
    } else if e == 4 {
        0x1_0000_0000
    } else if e == 5 {
        0x100_0000_0000
    } else if e == 6 {
        0x1_0000_0000_0000
    } else {
        0x100_0000_0000_0000
    }
}

/// Reads up to eight bytes as a big-endian number filling a 64-bit value
/// from the top: the first byte lands in the most significant position.
pub fn vec_to_u64_big_endian(bytes: &Vec<u8>) -> (r: u64)
    requires
        bytes@.len() <= 8,
    ensures
        r as nat == be_val(bytes@),
{
    let mut num: u64 = 0;
    let mut i: usize = 0;
    let n = bytes.len();
    proof {
        lemma_be_val_bound(bytes@, 0);
        codec::lemma_pow256_values();
    }
    while i < n
        invariant
            i <= n == bytes@.len() <= 8,
            num as nat + be_val_from(bytes@, i as int) == be_val(bytes@),
            be_val(bytes@) < codec::pow256(8),
            codec::pow256(8) == 0x1_0000_0000_0000_0000,
        decreases n - i,
    {
        proof {
            lemma_be_val_bound(bytes@, i as int);
            assert(be_val_from(bytes@, i as int) >= bytes@[i as int] * codec::pow256(
                (7 - i) as nat,
            )) by {
                lemma_be_val_bound(bytes@, i + 1);
            }
        }
        let byte = bytes[i];
        let term = (byte as u64) * pow256_exec(7 - i);
        num = num + term;
        i = i + 1;
    }
    num
}

// ---------------------------------------------------------------------------
// The vote tally, as an association list from value vectors to counts
// ---------------------------------------------------------------------------

/// A counter that sticks at its ceiling instead of wrapping.
pub open spec fn inc_sat(c: u64) -> u64 {
    if c < u64::MAX {
        (c + 1) as u64
    } else {
        c
    }
}

/// The tally's count for a vector: the count of its first entry, zero when
/// it has none.
pub open spec fn tally_count(t: Seq<(Seq<u64>, u64)>, k: Seq<u64>) -> u64
    decreases t.len(),
{
    if t.len() == 0 {
        0
    } else if t[0].0 == k {
        t[0].1
    } else {
        tally_count(t.drop_first(), k)
    }
}

/// Whether the tally has an entry for the vector.
pub open spec fn tally_has(t: Seq<(Seq<u64>, u64)>, k: Seq<u64>) -> bool
    decreases t.len(),
{
    if t.len() == 0 {
        false
    } else if t[0].0 == k {
        true
    } else {
        tally_has(t.drop_first(), k)
    }
}

/// The tally after one more report for the vector: its entry's count goes
/// up by one (sticking at the ceiling), or a fresh entry with count one is
/// appended.
pub open spec fn tally_bump_spec(t: Seq<(Seq<u64>, u64)>, k: Seq<u64>) -> Seq<(Seq<u64>, u64)>
    decreases t.len(),
{
    if t.len() == 0 {
        seq![(k, 1u64)]
    } else if t[0].0 == k {
        seq![(t[0].0, inc_sat(t[0].1))] + t.drop_first()
    } else {
        seq![t[0]] + tally_bump_spec(t.drop_first(), k)
    }
}

/// No two tally entries are for the same vector.
pub open spec fn tally_distinct(t: Seq<(Seq<u64>, u64)>) -> bool {
    forall|i: int, j: int| 0 <= i < j < t.len() ==> t[i].0 != t[j].0
}

proof fn lemma_tally_has_iff(t: Seq<(Seq<u64>, u64)>, k: Seq<u64>)
    ensures
        tally_has(t, k) <==> exists|i: int| 0 <= i < t.len() && t[i].0 == k,
    decreases t.len(),
{
    if t.len() > 0 {
        lemma_tally_has_iff(t.drop_first(), k);
        if t[0].0 != k && tally_has(t.drop_first(), k) {
            let i = choose|i: int|
                0 <= i < t.drop_first().len() && t.drop_first()[i].0 == k;
            assert(t[i + 1].0 == k);
        }
        if exists|i: int| 0 <= i < t.len() && t[i].0 == k {
            let i = choose|i: int| 0 <= i < t.len() && t[i].0 == k;
            if t[0].0 != k {
                assert(t.drop_first()[i - 1].0 == k);
            }
        }
    }
}

/// One more report moves only the reported vector's count, and moves it by
/// one (up to the ceiling).
pub proof fn lemma_tally_bump_count(t: Seq<(Seq<u64>, u64)>, k: Seq<u64>)
    ensures
        tally_count(tally_bump_spec(t, k), k) == inc_sat(tally_count(t, k)),
        forall|k2: Seq<u64>|
            k2 != k ==> tally_count(tally_bump_spec(t, k), k2) == tally_count(t, k2),
    decreases t.len(),
{
    let b = tally_bump_spec(t, k);
    if t.len() == 0 {
        assert(b[0].0 == k);
        assert(b.drop_first() =~= Seq::<(Seq<u64>, u64)>::empty());
        assert forall|k2: Seq<u64>| k2 != k implies tally_count(b, k2) == tally_count(
            t,
            k2,
        ) by {
            assert(tally_count(b.drop_first(), k2) == 0);
        }
    } else if t[0].0 == k {
        assert(b.drop_first() =~= t.drop_first());
        assert(b[0].0 == k && b[0].1 == inc_sat(t[0].1));
        assert forall|k2: Seq<u64>| k2 != k implies tally_count(b, k2) == tally_count(
            t,
            k2,
        ) by {
            assert(tally_count(b, k2) == tally_count(b.drop_first(), k2));
            assert(tally_count(t, k2) == tally_count(t.drop_first(), k2));
        }
    } else {
        lemma_tally_bump_count(t.drop_first(), k);
        assert(b[0] == t[0]);
        assert(b.drop_first() =~= tally_bump_spec(t.drop_first(), k));
        assert forall|k2: Seq<u64>| k2 != k implies tally_count(b, k2) == tally_count(
            t,
            k2,
        ) by {
            if t[0].0 != k2 {
                assert(tally_count(b, k2) == tally_count(b.drop_first(), k2));
                assert(tally_count(t, k2) == tally_count(t.drop_first(), k2));
            }
        }
    }
}

/// One more report either raises an existing entry in place or appends a
/// fresh one.
proof fn lemma_tally_bump_shape(t: Seq<(Seq<u64>, u64)>, k: Seq<u64>)
    ensures
        tally_has(t, k) ==> tally_bump_spec(t, k).len() == t.len() && forall|i: int|
            0 <= i < t.len() ==> (#[trigger] tally_bump_spec(t, k)[i]).0 == t[i].0,
        !tally_has(t, k) ==> tally_bump_spec(t, k) == t.push((k, 1u64)),
    decreases t.len(),
{
    let b = tally_bump_spec(t, k);
    if t.len() == 0 {
        assert(b =~= t.push((k, 1u64)));
    } else if t[0].0 == k {
        assert(b.drop_first() =~= t.drop_first());
        assert forall|i: int| 0 <= i < t.len() implies (#[trigger] b[i]).0 == t[i].0 by {
            if i > 0 {
                assert(b[i] == t.drop_first()[i - 1]);
            }
        }
    } else {
        lemma_tally_bump_shape(t.drop_first(), k);
        if tally_has(t, k) {
            let b2 = tally_bump_spec(t.drop_first(), k);
            assert(b.drop_first() =~= b2);
            assert forall|i: int| 0 <= i < t.len() implies (#[trigger] b[i]).0 == t[i].0 by {
                if i > 0 {
                    assert(b[i] == b2[i - 1]);
                    assert(t[i] == t.drop_first()[i - 1]);
                }
            }
        } else {
            assert(b =~= t.push((k, 1u64)));
        }
    }
}

/// One more report keeps the entries' vectors distinct.
pub proof fn lemma_tally_bump_distinct(t: Seq<(Seq<u64>, u64)>, k: Seq<u64>)
    requires
        tally_distinct(t),
    ensures
        tally_distinct(tally_bump_spec(t, k)),
{
    lemma_tally_bump_shape(t, k);
    lemma_tally_has_iff(t, k);
    let b = tally_bump_spec(t, k);
    if tally_has(t, k) {
        assert forall|i: int, j: int| 0 <= i < j < b.len() implies b[i].0 != b[j].0 by {
            assert(b[i].0 == t[i].0 && b[j].0 == t[j].0);
        }
    } else {
        assert forall|i: int, j: int| 0 <= i < j < b.len() implies b[i].0 != b[j].0 by {
            if j == b.len() - 1 {
                assert(b[j].0 == k);
                assert(b[i].0 == t[i].0);
            }
        }
    }
}

/// If the tally's first entries are for other vectors, the report lands in
/// the rest.
proof fn lemma_tally_bump_skip(t: Seq<(Seq<u64>, u64)>, k: Seq<u64>, i: int)
    requires
        0 <= i <= t.len(),
        forall|j: int| 0 <= j < i ==> (#[trigger] t[j]).0 != k,
    ensures
        tally_bump_spec(t, k) == t.take(i) + tally_bump_spec(t.skip(i), k),
    decreases i,
{
    if i == 0 {
        assert(t.skip(0) =~= t);
        assert(t.take(0) + tally_bump_spec(t, k) =~= tally_bump_spec(t, k));
    } else {
        assert(t.len() > 0);
        assert(t[0].0 != k);
        lemma_tally_bump_skip(t.drop_first(), k, i - 1);
        assert(t.drop_first().take(i - 1) =~= t.take(i).drop_first());
        assert(t.drop_first().skip(i - 1) =~= t.skip(i));
        assert(tally_bump_spec(t, k) =~= t.take(i) + tally_bump_spec(t.skip(i), k));
    }
}

/// A count as the recursive tally sees it, read off at an index.
proof fn lemma_tally_count_at(t: Seq<(Seq<u64>, u64)>, i: int)
    requires
        0 <= i < t.len(),
        forall|j: int| 0 <= j < i ==> (#[trigger] t[j]).0 != t[i].0,
    ensures
        tally_count(t, t[i].0) == t[i].1,
        tally_has(t, t[i].0),
    decreases i,
{
    if i == 0 {
    } else {
        lemma_tally_count_at(t.drop_first(), i - 1);
        assert(t.drop_first()[i - 1] == t[i]);
    }
}

/// When no entry matches, the count is zero.
proof fn lemma_tally_count_absent(t: Seq<(Seq<u64>, u64)>, k: Seq<u64>)
    requires
        forall|j: int| 0 <= j < t.len() ==> (#[trigger] t[j]).0 != k,
    ensures
        tally_count(t, k) == 0,
        !tally_has(t, k),
    decreases t.len(),
{
    if t.len() > 0 {
        lemma_tally_count_absent(t.drop_first(), k);
    }
}

// ---------------------------------------------------------------------------
// Executable tally helpers
// ---------------------------------------------------------------------------

/// The mathematical view of the tally vector.
pub open spec fn counts_view(c: Seq<(Vec<u64>, u64)>) -> Seq<(Seq<u64>, u64)> {
    c.map_values(|p: (Vec<u64>, u64)| (p.0@, p.1))
}

fn vec_u64_eq(a: &Vec<u64>, b: &Vec<u64>) -> (r: bool)
    ensures
        r == (a@ == b@),
{
    if a.len() != b.len() {
        return false;
    }
    let n = a.len();
    let mut i: usize = 0;
    while i < n
        invariant
            i <= n,
            a@.len() == n == b@.len(),
            forall|j: int| 0 <= j < i ==> a@[j] == b@[j],
        decreases n - i,
    {
        if a[i] != b[i] {
            return false;
        }
        i = i + 1;
    }
    proof {
        assert(a@ =~= b@);
    }
    true
}

fn clone_vec_u64(v: &Vec<u64>) -> (r: Vec<u64>)
    ensures
        r@ == v@,
{
    let n = v.len();
    let mut r: Vec<u64> = Vec::new();
    let mut i: usize = 0;
    while i < n
        invariant
            i <= n == v@.len(),
            r@ == v@.take(i as int),
        decreases n - i,
    {
        r.push(v[i]);
        i = i + 1;
        proof {
            assert(v@.take(i as int) =~= v@.take(i - 1).push(v@[i - 1]));
        }
    }
    proof {
        assert(v@.take(n as int) =~= v@);
    }
    r
}

/// Records one report for `key` and returns its new count.
fn bump_count(counts: &mut Vec<(Vec<u64>, u64)>, key: &Vec<u64>) -> (r: u64)
    ensures
        counts_view(final(counts)@) == tally_bump_spec(counts_view(old(counts)@), key@),
        r == inc_sat(tally_count(counts_view(old(counts)@), key@)),
{
    let ghost t = counts_view(old(counts)@);
    let n = counts.len();
    let mut i: usize = 0;
    while i < n
        invariant
            i <= n,
            counts == old(counts),
            t == counts_view(counts@),
            n == counts@.len(),
            t.len() == n,
            forall|j: int| 0 <= j < i ==> (#[trigger] t[j]).0 != key@,
        decreases n - i,
    {
        if vec_u64_eq(&counts[i].0, key) {
            let cur = counts[i].1;
            let newc = if cur < u64::MAX {
                cur + 1
            } else {
                cur
            };
            proof {
                lemma_tally_bump_skip(t, key@, i as int);
                lemma_tally_count_at(t, i as int);
                assert(t.skip(i as int)[0] == t[i as int]);
                assert(tally_bump_spec(t.skip(i as int), key@) =~= seq![
                    (t[i as int].0, inc_sat(t[i as int].1)),
                ] + t.skip(i as int).drop_first());
            }
            let newkey = clone_vec_u64(key);
            let slot = &mut counts[i];
            *slot = (newkey, newc);
            proof {
                assert(counts_view(counts@) =~= t.take(i as int) + tally_bump_spec(
                    t.skip(i as int),
                    key@,
                ));
                lemma_tally_bump_skip(t, key@, i as int);
            }
            return newc;
        }
        i = i + 1;
    }
    proof {
        lemma_tally_count_absent(t, key@);
        lemma_tally_has_iff(t, key@);
        lemma_tally_bump_shape(t, key@);
    }
    let newkey = clone_vec_u64(key);
    counts.push((newkey, 1));
    proof {
        assert(counts_view(counts@) =~= t.push((key@, 1u64)));
    }
    1
}

fn clone_vec_u8(v: &Vec<u8>) -> (r: Vec<u8>)
    ensures
        r@ == v@,
{
    let n = v.len();
    let mut r: Vec<u8> = Vec::new();
    let mut i: usize = 0;
    while i < n
        invariant
            i <= n == v@.len(),
            r@ == v@.take(i as int),
        decreases n - i,
    {
        r.push(v[i]);
        i = i + 1;
        proof {
            assert(v@.take(i as int) =~= v@.take(i - 1).push(v@[i - 1]));
        }
    }
    proof {
        assert(v@.take(n as int) =~= v@);
    }
    r
}

fn clone_msg(m: &Msg) -> (r: Msg)
    ensures
        r@ == m@,
{
    Msg { content: clone_vec_u64(&m.content), origin: m.origin }
}

fn clone_prot(m: &ProtMsg) -> (r: ProtMsg)
    ensures
        r@ == m@,
{
    match m {
        ProtMsg::Init(x) => ProtMsg::Init(*x),
        ProtMsg::Prepare(msg) => ProtMsg::Prepare(clone_msg(msg)),
        ProtMsg::Echo(msg) => ProtMsg::Echo(clone_msg(msg)),
        ProtMsg::Ping(msg, r) => ProtMsg::Ping(clone_msg(msg), *r),
    }
}

// ---------------------------------------------------------------------------
// The distinct-sender count
// ---------------------------------------------------------------------------

/// How many senders have been seen.
pub open spec fn count_true(s: Seq<bool>) -> int
    decreases s.len(),
{
    if s.len() == 0 {
        0
    } else {
        count_true(s.drop_last()) + if s.last() {
            1int
        } else {
            0int
        }
    }
}

pub(crate) proof fn lemma_count_true_bound(s: Seq<bool>)
    ensures
        0 <= count_true(s) <= s.len(),
    decreases s.len(),
{
    if s.len() > 0 {
        lemma_count_true_bound(s.drop_last());
    }
}

pub(crate) proof fn lemma_count_true_update(s: Seq<bool>, i: int)
    requires
        0 <= i < s.len(),
        !s[i],
    ensures
        count_true(s.update(i, true)) == count_true(s) + 1,
    decreases s.len(),
{
    let s2 = s.update(i, true);
    if i == s.len() - 1 {
        assert(s2.drop_last() =~= s.drop_last());
        assert(s2.last());
    } else {
        assert(s2.drop_last() =~= s.drop_last().update(i, true));
        assert(s2.last() == s.last());
        lemma_count_true_update(s.drop_last(), i);
    }
}

/// A full count means every entry is set.
pub(crate) proof fn lemma_count_true_full(s: Seq<bool>)
    requires
        count_true(s) == s.len(),
    ensures
        forall|i: int| 0 <= i < s.len() ==> s[i],
    decreases s.len(),
{
    if s.len() > 0 {
        lemma_count_true_bound(s.drop_last());
        lemma_count_true_full(s.drop_last());
        assert(s.last());
        assert forall|i: int| 0 <= i < s.len() implies s[i] by {
            if i < s.len() - 1 {
                assert(s.drop_last()[i]);
            }
        }
    }
}

// ---------------------------------------------------------------------------
// The protocol state and its view
// ---------------------------------------------------------------------------

/// The per-node protocol state. The network handles live with the caller;
/// this is the data the handlers read and write.
pub struct Context {
    /// Data context
    pub num_nodes: usize,
    pub myid: Replica,
    pub num_faults: usize,
    pub inp_message: Vec<u8>,
    /// Secret key map: one shared key per replica, index = replica id
    pub sec_key_map: Vec<Vec<u8>>,
    /// Leadership, fixed at spawn time: replica 0 leads
    pub is_leader: bool,
    /// Count of Init contributions collected by the leader
    pub quorum: usize,
    /// Leader-collected scalar inputs, append-only
    pub values: Vec<u64>,
    /// Which replicas have contributed an Init
    pub init_senders: Vec<bool>,
    /// Echo reports per distinct value vector
    pub vec_counts: Vec<(Vec<u64>, u64)>,
    /// One-shot trigger for this node's own Echo re-broadcast
    pub echo: bool,
    /// Running count of Echo reports received
    pub echo_quorum: u64,
}

/// Mathematical model of the protocol state.
pub ghost struct ContextView {
    pub num_nodes: usize,
    pub myid: Replica,
    pub num_faults: usize,
    pub inp: Seq<u8>,
    pub keys: Seq<Seq<u8>>,
    pub is_leader: bool,
    pub quorum: usize,
    pub values: Seq<u64>,
    pub init_senders: Seq<bool>,
    pub tally: Seq<(Seq<u64>, u64)>,
    pub echo: bool,
    pub echo_quorum: u64,
}

impl View for Context {
    type V = ContextView;

    open spec fn view(&self) -> ContextView {
        ContextView {
            num_nodes: self.num_nodes,
            myid: self.myid,
            num_faults: self.num_faults,
            inp: self.inp_message@,
            keys: self.sec_key_map@.map_values(|v: Vec<u8>| v@),
            is_leader: self.is_leader,
            quorum: self.quorum,
            values: self.values@,
            init_senders: self.init_senders@,
            tally: counts_view(self.vec_counts@),
            echo: self.echo,
            echo_quorum: self.echo_quorum,
        }
    }
}

impl ContextView {
    /// The quorum counter tracks the collected values: it equals their
    /// number until the Prepare threshold, and is reset to zero at it.
    pub open spec fn quorum_ok(self) -> bool {
        if self.values.len() == 2 * self.num_faults + 1 {
            self.quorum == 0
        } else {
            self.quorum == self.values.len()
        }
    }

    /// Well-formedness: the replica set tolerates the fault bound
    /// (`n > 3f`), the maps cover the replica set, the input fits the
    /// 64-bit conversion, the collected values count the distinct Init
    /// senders, and the tally has one entry per vector.
    pub open spec fn wf(self) -> bool {
        &&& self.num_nodes > 3 * self.num_faults
        &&& (self.myid as int) < self.num_nodes as int
        &&& self.keys.len() == self.num_nodes
        &&& self.init_senders.len() == self.num_nodes
        &&& self.inp.len() <= 8
        &&& count_true(self.init_senders) == self.values.len()
        &&& self.quorum_ok()
        &&& tally_distinct(self.tally)
    }
}

// ---------------------------------------------------------------------------
// The transitions, stated over the view
// ---------------------------------------------------------------------------

/// Whether the leader takes this Init into its tally: the threshold has
/// not been reached, and this sender has not contributed yet.
pub open spec fn init_accept(c: ContextView, sender: Replica) -> bool {
    &&& c.quorum != 2 * c.num_faults + 1
    &&& c.is_leader
    &&& !c.init_senders[sender as int]
}

/// The state after an Init from `sender`: the leader appends the value,
/// marks the sender, and tracks or resets the quorum counter.
pub open spec fn init_step(c: ContextView, msg: u64, sender: Replica) -> ContextView {
    if !init_accept(c, sender) {
        c
    } else {
        let values2 = c.values.push(msg);
        let seen2 = c.init_senders.update(sender as int, true);
        if values2.len() == 2 * c.num_faults + 1 {
            ContextView { values: values2, init_senders: seen2, quorum: 0, ..c }
        } else {
            ContextView {
                values: values2,
                init_senders: seen2,
                quorum: values2.len() as usize,
                ..c
            }
        }
    }
}

/// The Prepare the Init broadcasts, exactly at the threshold.
pub open spec fn init_emit(c: ContextView, msg: u64, sender: Replica) -> Option<ProtMsgView> {
    if init_accept(c, sender) && c.values.len() + 1 == 2 * c.num_faults + 1 {
        Some(ProtMsgView::Prepare(MsgView { content: c.values.push(msg), origin: c.myid }))
    } else {
        None
    }
}

/// The state after a Prepare: a follower that has not echoed yet spends
/// its one-shot trigger.
pub open spec fn prepare_step(c: ContextView) -> ContextView {
    if !c.is_leader && c.echo {
        ContextView { echo: false, ..c }
    } else {
        c
    }
}

/// The Echo a first Prepare triggers at a follower.
pub open spec fn prepare_emit(c: ContextView, values: Seq<u64>) -> Option<ProtMsgView> {
    if !c.is_leader && c.echo {
        Some(ProtMsgView::Echo(MsgView { content: values, origin: c.myid }))
    } else {
        None
    }
}

/// The state after an Echo report for `values`: the report is tallied,
/// the running count moves, and amplification spends the one-shot trigger.
pub open spec fn echo_step(c: ContextView, values: Seq<u64>) -> ContextView {
    let cnt = inc_sat(tally_count(c.tally, values));
    let amplified = c.echo && cnt == (c.num_faults + 1) as u64;
    ContextView {
        tally: tally_bump_spec(c.tally, values),
        echo_quorum: inc_sat(c.echo_quorum),
        echo: if amplified {
            false
        } else {
            c.echo
        },
        ..c
    }
}

/// The Echo re-broadcast when a vector's tally reaches `f+1` and the node
/// has not echoed yet.
pub open spec fn echo_emit(c: ContextView, values: Seq<u64>) -> Option<ProtMsgView> {
    let cnt = inc_sat(tally_count(c.tally, values));
    if c.echo && cnt == (c.num_faults + 1) as u64 {
        Some(ProtMsgView::Echo(MsgView { content: values, origin: c.myid }))
    } else {
        None
    }
}

/// The delivered result when a non-empty vector's tally reaches `n-f`:
/// the median of its sorted rearrangement, as a decimal string.
pub open spec fn echo_deliver(c: ContextView, values: Seq<u64>) -> Option<Seq<char>> {
    let cnt = inc_sat(tally_count(c.tally, values));
    if cnt == (c.num_nodes - c.num_faults) as u64 && values.len() > 0 {
        Some(median::median_str_of(values))
    } else {
        None
    }
}

/// An envelope passes when its sender is a known replica and its tag is
/// the HMAC of the encoded payload under that sender's shared key.
pub open spec fn authenticated(c: ContextView, w: WrapperMsgView) -> bool {
    &&& (w.sender as int) < c.keys.len()
    &&& w.mac_valid(c.keys[w.sender as int])
}

/// The state after one inbound envelope: dropped unless authenticated,
/// then dispatched by variant.
pub open spec fn msg_step(c: ContextView, w: WrapperMsgView) -> ContextView {
    if !authenticated(c, w) {
        c
    } else {
        match w.protmsg {
            ProtMsgView::Init(x) => init_step(c, x, w.sender),
            ProtMsgView::Prepare(_) => prepare_step(c),
            ProtMsgView::Echo(m) => echo_step(c, m.content),
            ProtMsgView::Ping(_, _) => c,
        }
    }
}

/// The broadcast one inbound envelope triggers.
pub open spec fn msg_emit(c: ContextView, w: WrapperMsgView) -> Option<ProtMsgView> {
    if !authenticated(c, w) {
        None
    } else {
        match w.protmsg {
            ProtMsgView::Init(x) => init_emit(c, x, w.sender),
            ProtMsgView::Prepare(m) => prepare_emit(c, m.content),
            ProtMsgView::Echo(m) => echo_emit(c, m.content),
            ProtMsgView::Ping(_, _) => None,
        }
    }
}

/// The delivery one inbound envelope triggers.
pub open spec fn msg_deliver(c: ContextView, w: WrapperMsgView) -> Option<Seq<char>> {
    if !authenticated(c, w) {
        None
    } else {
        match w.protmsg {
            ProtMsgView::Echo(m) => echo_deliver(c, m.content),
            _ => None,
        }
    }
}

// ---------------------------------------------------------------------------
// Broadcast
// ---------------------------------------------------------------------------

/// The envelopes a broadcast of `pm` produces, in replica order: one per
/// replica (the leader includes itself, a follower skips itself), each
/// authenticated under that replica's shared key.
pub open spec fn bcast_plan(
    keys: Seq<Seq<u8>>,
    is_leader: bool,
    myid: Replica,
    pm: ProtMsgView,
    n: int,
) -> Seq<(Replica, WrapperMsgView)>
    decreases n,
{
    if n <= 0 {
        Seq::empty()
    } else {
        let prev = bcast_plan(keys, is_leader, myid, pm, n - 1);
        let r = (n - 1) as usize;
        if is_leader || r != myid {
            prev.push(
                (
                    r,
                    WrapperMsgView {
                        protmsg: pm,
                        sender: myid,
                        mac: crypto::hmac_sha256_of(keys[n - 1], codec::enc_prot(pm)),
                    },
                ),
            )
        } else {
            prev
        }
    }
}

/// The views of a list of addressed envelopes.
pub open spec fn out_views(s: Seq<(Replica, WrapperMsg)>) -> Seq<(Replica, WrapperMsgView)> {
    s.map_values(|p: (Replica, WrapperMsg)| (p.0, p.1@))
}

/// What an optional emission broadcasts: the full plan, or nothing.
pub open spec fn emit_plan(c: ContextView, e: Option<ProtMsgView>) -> Seq<
    (Replica, WrapperMsgView),
> {
    match e {
        Some(pm) => bcast_plan(c.keys, c.is_leader, c.myid, pm, c.num_nodes as int),
        None => Seq::empty(),
    }
}

impl Context {
    /// Wraps `protmsg` once per target replica, under that replica's
    /// shared key, and returns the addressed envelopes for the caller to
    /// send. The leader sends to every replica including itself; a
    /// follower skips itself.
    pub fn broadcast(&self, protmsg: &ProtMsg) -> (out: Vec<(Replica, WrapperMsg)>)
        requires
            self@.wf(),
        ensures
            out_views(out@) == bcast_plan(
                self@.keys,
                self@.is_leader,
                self@.myid,
                protmsg@,
                self@.num_nodes as int,
            ),
    {
        let mut out: Vec<(Replica, WrapperMsg)> = Vec::new();
        let mut r: usize = 0;
        proof {
            assert(out_views(out@) =~= bcast_plan(
                self@.keys,
                self@.is_leader,
                self@.myid,
                protmsg@,
                0,
            ));
        }
        while r < self.num_nodes
            invariant
                r <= self.num_nodes,
                self@.wf(),
                out_views(out@) == bcast_plan(
                    self@.keys,
                    self@.is_leader,
                    self@.myid,
                    protmsg@,
                    r as int,
                ),
            decreases self.num_nodes - r,
        {
            if self.is_leader || r != self.myid {
                let w = WrapperMsg::new(clone_prot(protmsg), self.myid, self.sec_key_map[r].as_slice());
                out.push((r, w));
            }
            r = r + 1;
            proof {
                assert(out_views(out@) =~= bcast_plan(
                    self@.keys,
                    self@.is_leader,
                    self@.myid,
                    protmsg@,
                    r as int,
                ));
            }
        }
        out
    }

    /// Builds the protocol state from a validated configuration and this
    /// node's input bytes. Replica 0 leads.
    pub fn new(config: &Node, message: Vec<u8>) -> (r: Context)
        requires
            config.spec_valid(),
            config.id < config.num_nodes,
            message@.len() <= 8,
        ensures
            r@.wf(),
            r@.num_nodes == config.num_nodes,
            r@.num_faults == config.num_faults,
            r@.myid == config.id,
            r@.is_leader == (config.id == 0),
            r@.inp == message@,
            r@.keys.len() == config.sk_map@.len(),
            forall|i: int|
                0 <= i < config.sk_map@.len() ==> r@.keys[i] == (#[trigger] config.sk_map@[i])@,
            r@.quorum == 0,
            r@.values.len() == 0,
            r@.tally.len() == 0,
            r@.echo,
            r@.echo_quorum == 0,
    {
        let n = config.num_nodes;
        let mut sec_key_map: Vec<Vec<u8>> = Vec::new();
        let mut i: usize = 0;
        while i < n
            invariant
                i <= n,
                config.sk_map@.len() == n,
                sec_key_map@.len() == i,
                forall|j: int|
                    0 <= j < i ==> (#[trigger] sec_key_map@[j])@ == config.sk_map@[j]@,
            decreases n - i,
        {
            sec_key_map.push(clone_vec_u8(&config.sk_map[i]));
            i = i + 1;
        }
        let mut init_senders: Vec<bool> = Vec::new();
        let mut j: usize = 0;
        while j < n
            invariant
                j <= n,
                init_senders@.len() == j,
                forall|k: int| 0 <= k < j ==> !(#[trigger] init_senders@[k]),
            decreases n - j,
        {
            init_senders.push(false);
            j = j + 1;
        }
        let c = Context {
            num_nodes: config.num_nodes,
            myid: config.id,
            num_faults: config.num_faults,
            inp_message: message,
            sec_key_map,
            is_leader: config.id == 0,
            quorum: 0,
            values: Vec::new(),
            init_senders,
            vec_counts: Vec::new(),
            echo: true,
            echo_quorum: 0,
        };
        proof {
            lemma_count_all_false(c@.init_senders);
            assert(counts_view(c.vec_counts@) =~= Seq::<(Seq<u64>, u64)>::empty());
        }
        c
    }

    /// Verifies the authentication tag of an inbound envelope: true
    /// exactly when the sender is a known replica and the tag matches the
    /// encoded payload under that sender's shared key. A message from an
    /// unknown sender is rejected, not fatal.
    pub fn check_proposal(&self, wrapper_msg: &WrapperMsg) -> (r: bool)
        ensures
            r == authenticated(self@, wrapper_msg@),
    {
        if wrapper_msg.sender >= self.sec_key_map.len() {
            return false;
        }
        let byte_val = codec::encode_prot_msg(&wrapper_msg.protmsg);
        let sec_key = &self.sec_key_map[wrapper_msg.sender];
        crypto::verf_mac(byte_val.as_slice(), sec_key.as_slice(), wrapper_msg.mac.as_slice())
    }

    /// The leader collects an Init value. At `2f+1` distinct senders the
    /// counter resets and the collected vector goes out in a Prepare;
    /// afterwards no further Prepare is ever emitted.
    pub fn handle_init(&mut self, msg: u64, sender: Replica) -> (out: Vec<(Replica, WrapperMsg)>)
        requires
            old(self)@.wf(),
            (sender as int) < old(self)@.num_nodes as int,
        ensures
            final(self)@ == init_step(old(self)@, msg, sender),
            final(self)@.wf(),
            out_views(out@) == emit_plan(old(self)@, init_emit(old(self)@, msg, sender)),
    {
        // ignore incoming values if quorum reached
        if self.quorum == 2 * self.num_faults + 1 {
            return Vec::new();
        }
        // only process init messages at the leader
        if self.is_leader {
            if self.init_senders[sender] {
                return Vec::new();
            }
            proof {
                lemma_count_true_update(self@.init_senders, sender as int);
            }
            let slot = &mut self.init_senders[sender];
            *slot = true;
            self.values.push(msg);
            self.quorum = self.values.len();
            // if quorum reached start echo stage
            if self.quorum == 2 * self.num_faults + 1 {
                self.quorum = 0;
                let content = clone_vec_u64(&self.values);
                let out = self.broadcast(&ProtMsg::Prepare(Msg { content, origin: self.myid }));
                return out;
            }
            Vec::new()
        } else {
            Vec::new()
        }
    }

    /// A follower echoes the first Prepare it sees; the one-shot trigger
    /// keeps it from echoing twice.
    pub fn handle_prepare(&mut self, values: Vec<u64>, sender_id: Replica) -> (out: Vec<
        (Replica, WrapperMsg),
    >)
        requires
            old(self)@.wf(),
        ensures
            final(self)@ == prepare_step(old(self)@),
            final(self)@.wf(),
            out_views(out@) == emit_plan(old(self)@, prepare_emit(old(self)@, values@)),
    {
        if !self.is_leader {
            if self.echo {
                let out = self.broadcast(&ProtMsg::Echo(Msg { content: values, origin: self.myid }));
                self.echo = false;
                return out;
            }
        }
        Vec::new()
    }

    /// Tallies an Echo report. At `f+1` matching reports the node echoes
    /// the vector itself (once); at `n-f` matching reports it delivers
    /// the vector's median and reports completion.
    pub fn handle_echo(&mut self, values: Vec<u64>, sender_id: Replica) -> (r: (
        Vec<(Replica, WrapperMsg)>,
        Option<SyncMsg>,
    ))
        requires
            old(self)@.wf(),
        ensures
            final(self)@ == echo_step(old(self)@, values@),
            final(self)@.wf(),
            out_views(r.0@) == emit_plan(old(self)@, echo_emit(old(self)@, values@)),
            match echo_deliver(old(self)@, values@) {
                Some(s) => r.1 matches Some(m) && m@ == (SyncMsgView {
                    sender: old(self)@.myid,
                    state: SyncState::COMPLETED,
                    value: s,
                }),
                None => r.1 is None,
            },
    {
        self.echo_quorum = if self.echo_quorum < u64::MAX {
            self.echo_quorum + 1
        } else {
            self.echo_quorum
        };
        proof {
            lemma_tally_bump_distinct(self@.tally, values@);
        }
        let cnt = bump_count(&mut self.vec_counts, &values);
        let f_plus_one = (self.num_faults + 1) as u64;
        let mut out: Vec<(Replica, WrapperMsg)> = Vec::new();
        if self.echo && cnt == f_plus_one {
            let content = clone_vec_u64(&values);
            out = self.broadcast(&ProtMsg::Echo(Msg { content, origin: self.myid }));
            self.echo = false;
        }
        // check if enough responses received for delivery
        let n_minus_f = (self.num_nodes - self.num_faults) as u64;
        let mut completed: Option<SyncMsg> = None;
        if cnt == n_minus_f && values.len() > 0 {
            let result = median::median_string(&values);
            completed = Some(self.terminate(result));
        }
        (out, completed)
    }

    /// A liveness ping needs no reply and changes no state.
    pub fn handle_ping(&self, _msg: &Msg) {
    }

    /// Authenticates one inbound envelope and dispatches it to the
    /// matching handler; an envelope that fails the check is dropped
    /// without any effect.
    pub fn process_msg(&mut self, wrapper_msg: WrapperMsg) -> (r: (
        Vec<(Replica, WrapperMsg)>,
        Option<SyncMsg>,
    ))
        requires
            old(self)@.wf(),
        ensures
            final(self)@ == msg_step(old(self)@, wrapper_msg@),
            final(self)@.wf(),
            out_views(r.0@) == emit_plan(old(self)@, msg_emit(old(self)@, wrapper_msg@)),
            match msg_deliver(old(self)@, wrapper_msg@) {
                Some(s) => r.1 matches Some(m) && m@ == (SyncMsgView {
                    sender: old(self)@.myid,
                    state: SyncState::COMPLETED,
                    value: s,
                }),
                None => r.1 is None,
            },
    {
        if self.check_proposal(&wrapper_msg) {
            let sender = wrapper_msg.sender;
            match wrapper_msg.protmsg {
                ProtMsg::Init(x) => {
                    let out = self.handle_init(x, sender);
                    (out, None)
                },
                ProtMsg::Prepare(m) => {
                    let out = self.handle_prepare(m.content, m.origin);
                    (out, None)
                },
                ProtMsg::Echo(m) => self.handle_echo(m.content, m.origin),
                ProtMsg::Ping(m, _rep) => {
                    self.handle_ping(&m);
                    (Vec::new(), None)
                },
            }
        } else {
            (Vec::new(), None)
        }
    }

    /// Broadcasts this node's input value as the protocol's opening Init.
    pub fn start_init(&self) -> (out: Vec<(Replica, WrapperMsg)>)
        requires
            self@.wf(),
        ensures
            out_views(out@) == emit_plan(
                self@,
                Some(ProtMsgView::Init(be_val(self@.inp) as u64)),
            ),
    {
        let num = vec_to_u64_big_endian(&self.inp_message);
        self.broadcast(&ProtMsg::Init(num))
    }

    /// The completion report for the synchronizer, carrying the delivered
    /// result.
    pub fn terminate(&self, data: String) -> (r: SyncMsg)
        ensures
            r@ == (SyncMsgView {
                sender: self@.myid,
                state: SyncState::COMPLETED,
                value: data@,
            }),
    {
        SyncMsg { sender: self.myid, state: SyncState::COMPLETED, value: data }
    }

    /// The liveness report the loop sends as soon as it starts.
    pub fn alive_msg(&self) -> (r: SyncMsg)
        ensures
            r@ == (SyncMsgView {
                sender: self@.myid,
                state: SyncState::ALIVE,
                value: Seq::<char>::empty(),
            }),
    {
        SyncMsg { sender: self.myid, state: SyncState::ALIVE, value: String::new() }
    }
}

proof fn lemma_count_all_false(s: Seq<bool>)
    requires
        forall|i: int| 0 <= i < s.len() ==> !(#[trigger] s[i]),
    ensures
        count_true(s) == 0,
    decreases s.len(),
{
    if s.len() > 0 {
        lemma_count_all_false(s.drop_last());
    }
}

// ---------------------------------------------------------------------------
// The engine loop, one arrival at a time
// ---------------------------------------------------------------------------

/// One arrival for the engine loop: an inbound consensus envelope, a
/// synchronizer control message, or the shutdown signal.
pub enum NodeEvent {
    Consensus(WrapperMsg),
    Sync(SyncMsg),
    Shutdown,
}

/// What one loop step asks the caller to do: send these envelopes, send
/// these synchronizer reports, and exit the loop when told to.
pub struct StepOutput {
    pub net_out: Vec<(Replica, WrapperMsg)>,
    pub sync_out: Vec<SyncMsg>,
    pub exit: bool,
}

impl Context {
    /// Processes exactly one arrival, as the engine loop does: shutdown
    /// and STOP are terminal; START opens the protocol (the node
    /// broadcasts its Init and reports STARTED); a consensus envelope is
    /// authenticated and dispatched. The caller performs the sends.
    pub fn step(&mut self, ev: NodeEvent) -> (r: StepOutput)
        requires
            old(self)@.wf(),
        ensures
            final(self)@.wf(),
            match ev {
                NodeEvent::Shutdown => final(self)@ == old(self)@ && r.net_out@.len() == 0
                    && r.sync_out@.len() == 0 && r.exit,
                NodeEvent::Sync(m) => {
                    if m@.state == SyncState::START {
                        &&& final(self)@ == old(self)@
                        &&& out_views(r.net_out@) == emit_plan(
                            old(self)@,
                            Some(ProtMsgView::Init(be_val(old(self)@.inp) as u64)),
                        )
                        &&& r.sync_out@.len() == 1
                        &&& r.sync_out@[0]@ == (SyncMsgView {
                            sender: old(self)@.myid,
                            state: SyncState::STARTED,
                            value: Seq::<char>::empty(),
                        })
                        &&& !r.exit
                    } else if m@.state == SyncState::STOP {
                        &&& final(self)@ == old(self)@
                        &&& r.net_out@.len() == 0
                        &&& r.sync_out@.len() == 0
                        &&& r.exit
                    } else {
                        &&& final(self)@ == old(self)@
                        &&& r.net_out@.len() == 0
                        &&& r.sync_out@.len() == 0
                        &&& !r.exit
                    }
                },
                NodeEvent::Consensus(w) => {
                    &&& final(self)@ == msg_step(old(self)@, w@)
                    &&& out_views(r.net_out@) == emit_plan(old(self)@, msg_emit(old(self)@, w@))
                    &&& (match msg_deliver(old(self)@, w@) {
                        Some(s) => r.sync_out@.len() == 1 && r.sync_out@[0]@ == (SyncMsgView {
                            sender: old(self)@.myid,
                            state: SyncState::COMPLETED,
                            value: s,
                        }),
                        None => r.sync_out@.len() == 0,
                    })
                    &&& !r.exit
                },
            },
    {
        match ev {
            NodeEvent::Shutdown => StepOutput {
                net_out: Vec::new(),
                sync_out: Vec::new(),
                exit: true,
            },
            NodeEvent::Sync(m) => {
                match m.state {
                    SyncState::START => {
                        let net_out = self.start_init();
                        let mut sync_out: Vec<SyncMsg> = Vec::new();
                        sync_out.push(
                            SyncMsg {
                                sender: self.myid,
                                state: SyncState::STARTED,
                                value: String::new(),
                            },
                        );
                        StepOutput { net_out, sync_out, exit: false }
                    },
                    SyncState::STOP => StepOutput {
                        net_out: Vec::new(),
                        sync_out: Vec::new(),
                        exit: true,
                    },
                    _ => StepOutput { net_out: Vec::new(), sync_out: Vec::new(), exit: false },
                }
            },
            NodeEvent::Consensus(w) => {
                let (net_out, completed) = self.process_msg(w);
                let mut sync_out: Vec<SyncMsg> = Vec::new();
                match completed {
                    Some(msg) => {
                        sync_out.push(msg);
                    },
                    None => {},
                }
                StepOutput { net_out, sync_out, exit: false }
            },
        }
    }
}

// ---------------------------------------------------------------------------
// Protocol laws
// ---------------------------------------------------------------------------

/// Quorum monotonicity. The leader's Init tally counts distinct senders
/// and never exceeds `2f+1` before resetting: below the threshold the
/// counter equals the number of collected values, the step that reaches
/// `2f+1` distinct senders emits the one Prepare and resets the counter
/// to zero, and once the threshold has been passed no later Init ever
/// emits a Prepare again.
pub proof fn lemma_init_quorum(c: ContextView, msg: u64, sender: Replica)
    requires
        c.wf(),
        (sender as int) < c.num_nodes as int,
    ensures
        init_step(c, msg, sender).values.len() < 2 * c.num_faults + 1 ==> init_step(
            c,
            msg,
            sender,
        ).quorum == init_step(c, msg, sender).values.len() && init_step(c, msg, sender).quorum
            < 2 * c.num_faults + 1,
        init_emit(c, msg, sender) is Some <==> (init_accept(c, sender) && c.values.len() + 1 == 2
            * c.num_faults + 1),
        init_emit(c, msg, sender) is Some ==> init_step(c, msg, sender).quorum == 0,
        c.values.len() >= 2 * c.num_faults + 1 ==> init_emit(c, msg, sender) is None
            && init_step(c, msg, sender).values.len() >= 2 * c.num_faults + 1,
{
}

/// Echo amplification happens exactly once: only when the node has not
/// yet echoed and the reported vector's tally reaches `f+1`; amplifying
/// consumes the trigger, and once it is spent no later Echo report
/// amplifies again.
pub proof fn lemma_echo_amplify_once(c: ContextView, v: Seq<u64>)
    requires
        c.wf(),
    ensures
        echo_emit(c, v) is Some <==> (c.echo && inc_sat(tally_count(c.tally, v)) == (
        c.num_faults + 1) as u64),
        echo_emit(c, v) is Some ==> !echo_step(c, v).echo,
        !c.echo ==> echo_emit(c, v) is None,
        !c.echo ==> !echo_step(c, v).echo,
{
}

/// Delivery law: a step delivers exactly when the reported non-empty
/// vector's tally reaches `n-f`, and what it delivers is the median of
/// the vector's sorted rearrangement.
pub proof fn lemma_echo_delivery(c: ContextView, v: Seq<u64>)
    requires
        c.wf(),
        v.len() > 0,
    ensures
        echo_deliver(c, v) is Some <==> inc_sat(tally_count(c.tally, v)) == (c.num_nodes
            - c.num_faults) as u64,
        echo_deliver(c, v) is Some ==> echo_deliver(c, v) == Some(median::median_str_of(v)),
{
}

/// Whether the leader has opened the echo stage: the one Prepare goes out
/// on the step that first collects `2f+1` values.
pub open spec fn prepare_sent(c: ContextView) -> bool {
    c.values.len() >= 2 * c.num_faults + 1
}

/// Exactly one Prepare over a whole run: an inbound message makes the
/// engine emit a Prepare exactly when it crosses the `2f+1` threshold,
/// and once the threshold is crossed it stays crossed — so no later
/// message can ever emit a second Prepare.
pub proof fn lemma_prepare_once(c: ContextView, w: WrapperMsgView)
    requires
        c.wf(),
    ensures
        (msg_emit(c, w) matches Some(p) && p is Prepare) <==> (!prepare_sent(c) && prepare_sent(
            msg_step(c, w),
        )),
        prepare_sent(c) ==> prepare_sent(msg_step(c, w)),
{
}

/// Exactly one Echo of the node's own over a whole run: an Echo is
/// emitted only while the one-shot trigger stands, the step that emits it
/// spends the trigger, and no step ever re-arms it.
pub proof fn lemma_own_echo_once(c: ContextView, w: WrapperMsgView)
    requires
        c.wf(),
    ensures
        (msg_emit(c, w) matches Some(p) && p is Echo) ==> c.echo && !msg_step(c, w).echo,
        !c.echo ==> !(msg_emit(c, w) matches Some(p) && p is Echo),
        !c.echo ==> !msg_step(c, w).echo,
{
}

/// An Echo report moves only the reported vector's tally, and moves it by
/// one: tallies for different vectors are independent.
pub proof fn lemma_echo_tally_independent(c: ContextView, v: Seq<u64>, other: Seq<u64>)
    requires
        c.wf(),
        other != v,
    ensures
        tally_count(echo_step(c, v).tally, v) == inc_sat(tally_count(c.tally, v)),
        tally_count(echo_step(c, v).tally, other) == tally_count(c.tally, other),
{
    lemma_tally_bump_count(c.tally, v);
}

} // verus!
