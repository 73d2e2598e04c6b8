//! The wire codec: a little-endian, length-prefixed byte format for the
//! protocol and synchronizer messages, with encode and decode proved to be
//! exact inverses of each other.

use vstd::prelude::*;
use vstd::arithmetic::div_mod::{
    lemma_div_basics, lemma_div_denominator, lemma_fundamental_div_mod, lemma_multiply_divide_lt,
};

use crate::msg::{Msg, MsgView, ProtMsg, ProtMsgView, Replica, WrapperMsg, WrapperMsgView};
use crate::sync::{SyncMsg, SyncMsgView, SyncState};

verus! {

// ---------------------------------------------------------------------------
// Little-endian integers
// ---------------------------------------------------------------------------

/// 256 to the power `n`: the number of values an `n`-byte field can carry.
pub open spec fn pow256(n: nat) -> nat
    decreases n,
{
    if n == 0 {
        1
    } else {
        256 * pow256((n - 1) as nat)
    }
}

pub proof fn lemma_pow256_pos(n: nat)
    ensures
        pow256(n) >= 1,
    decreases n,
{
    if n > 0 {
        lemma_pow256_pos((n - 1) as nat);
    }
}

pub proof fn lemma_pow256_le(m: nat, n: nat)
    requires
        m <= n,
    ensures
        pow256(m) <= pow256(n),
    decreases n,
{
    if m < n {
        lemma_pow256_le(m, (n - 1) as nat);
        lemma_pow256_pos((n - 1) as nat);
    }
}

pub proof fn lemma_pow256_values()
    ensures
        pow256(0) == 1,
        pow256(1) == 0x100,
        pow256(2) == 0x1_0000,
        pow256(3) == 0x100_0000,
        pow256(4) == 0x1_0000_0000,
        pow256(5) == 0x100_0000_0000,
        pow256(6) == 0x1_0000_0000_0000,
        pow256(7) == 0x100_0000_0000_0000,
        pow256(8) == 0x1_0000_0000_0000_0000,
{
    assert(pow256(0) == 1);
    assert(pow256(1) == 256);
    assert(pow256(2) == 0x1_0000);
    assert(pow256(3) == 0x100_0000);
    assert(pow256(4) == 0x1_0000_0000);
    assert(pow256(5) == 0x100_0000_0000);
    assert(pow256(6) == 0x1_0000_0000_0000);
    assert(pow256(7) == 0x100_0000_0000_0000);
    assert(pow256(8) == 0x1_0000_0000_0000_0000);
}

/// The `n` little-endian bytes of `x` (low byte first).
pub open spec fn le_bytes(x: nat, n: nat) -> Seq<u8>
    decreases n,
{
    if n == 0 {
        Seq::empty()
    } else {
        seq![(x % 256) as u8] + le_bytes(x / 256, (n - 1) as nat)
    }
}

/// The value carried by a little-endian byte string (low byte first).
pub open spec fn le_val(b: Seq<u8>) -> nat
    decreases b.len(),
{
    if b.len() == 0 {
        0
    } else {
        (b[0] + 256 * le_val(b.drop_first())) as nat
    }
}

pub proof fn lemma_le_bytes_len(x: nat, n: nat)
    ensures
        le_bytes(x, n).len() == n,
    decreases n,
{
    if n > 0 {
        lemma_le_bytes_len(x / 256, (n - 1) as nat);
    }
}

pub proof fn lemma_le_val_bound(b: Seq<u8>)
    ensures
        le_val(b) < pow256(b.len()),
    decreases b.len(),
{
    if b.len() > 0 {
        lemma_le_val_bound(b.drop_first());
        lemma_pow256_pos((b.len() - 1) as nat);
    }
}

/// Decoding the little-endian bytes of `x` gives `x` back.
pub proof fn lemma_le_bytes_val(x: nat, n: nat)
    requires
        x < pow256(n),
    ensures
        le_val(le_bytes(x, n)) == x,
    decreases n,
{
    if n == 0 {
        assert(x == 0);
    } else {
        let rest = le_bytes(x / 256, (n - 1) as nat);
        let whole = seq![(x % 256) as u8] + rest;
        assert(whole.drop_first() =~= rest);
        lemma_pow256_pos((n - 1) as nat);
        lemma_multiply_divide_lt(x as int, 256, pow256((n - 1) as nat) as int);
        lemma_le_bytes_val(x / 256, (n - 1) as nat);
        lemma_fundamental_div_mod(x as int, 256);
    }
}

/// Growing the field by one byte appends the next byte of `x`.
pub proof fn lemma_le_bytes_snoc(x: nat, n: nat)
    ensures
        le_bytes(x, n + 1) == le_bytes(x, n).push(((x / pow256(n)) % 256) as u8),
    decreases n,
{
    if n == 0 {
        lemma_div_basics(x as int);
        assert(le_bytes(x / 256, 0) == Seq::<u8>::empty());
        assert(le_bytes(x, 0) == Seq::<u8>::empty());
        assert(le_bytes(x, 1) =~= le_bytes(x, 0).push(((x / pow256(0)) % 256) as u8));
    } else {
        lemma_le_bytes_snoc(x / 256, (n - 1) as nat);
        lemma_pow256_pos((n - 1) as nat);
        lemma_div_denominator(x as int, 256, pow256((n - 1) as nat) as int);
        let b = (((x / 256) / pow256((n - 1) as nat)) % 256) as u8;
        assert(le_bytes(x, n + 1) =~= le_bytes(x, n).push(b));
    }
}

/// Appends the `n` little-endian bytes of `x` to `out`.
pub fn write_le(out: &mut Vec<u8>, x: u64, n: usize)
    ensures
        final(out)@ == old(out)@ + le_bytes(x as nat, n as nat),
{
    let mut v: u64 = x;
    let mut i: usize = 0;
    proof {
        lemma_div_basics(x as int);
        assert(out@ =~= old(out)@ + le_bytes(x as nat, 0));
    }
    while i < n
        invariant
            i <= n,
            out@ == old(out)@ + le_bytes(x as nat, i as nat),
            v as nat == (x as nat) / pow256(i as nat),
        decreases n - i,
    {
        proof {
            lemma_le_bytes_snoc(x as nat, i as nat);
            lemma_pow256_pos(i as nat);
            lemma_div_denominator(x as int, pow256(i as nat) as int, 256);
        }
        out.push((v % 256) as u8);
        v = v / 256;
        i = i + 1;
        proof {
            assert(out@ =~= old(out)@ + le_bytes(x as nat, i as nat));
        }
    }
}

/// Reads an `n`-byte little-endian field at `pos`; fails exactly when
/// fewer than `n` bytes remain.
pub fn read_le(b: &[u8], pos: usize, n: usize) -> (r: Option<(u64, usize)>)
    requires
        pos <= b@.len(),
        n <= 8,
    ensures
        match r {
            Some(p) => pos + n <= b@.len() && p.1 == pos + n && p.0 as nat == le_val(
                b@.subrange(pos as int, (pos + n) as int),
            ),
            None => pos + n > b@.len(),
        },
{
    if b.len() - pos < n {
        return None;
    }
    let mut val: u64 = 0;
    let mut j: usize = 0;
    proof {
        assert(b@.subrange((pos + n) as int, (pos + n) as int) =~= Seq::<u8>::empty());
    }
    while j < n
        invariant
            j <= n <= 8,
            pos + n <= b@.len(),
            b@.len() <= usize::MAX,
            val as nat == le_val(b@.subrange((pos + n - j) as int, (pos + n) as int)),
            (val as nat) < pow256(j as nat),
        decreases n - j,
    {
        let i = pos + n - 1 - j;
        let byte = b[i];
        proof {
            let tail = b@.subrange((pos + n - j) as int, (pos + n) as int);
            let whole = b@.subrange(i as int, (pos + n) as int);
            assert(whole.drop_first() =~= tail);
            assert(whole[0] == b@[i as int]);
            lemma_pow256_values();
            lemma_pow256_le((j + 1) as nat, 8);
        }
        val = byte as u64 + 256 * val;
        j = j + 1;
    }
    Some((val, pos + n))
}

// ---------------------------------------------------------------------------
// The wire format, field by field
// ---------------------------------------------------------------------------

pub open spec fn enc_u64(x: u64) -> Seq<u8> {
    le_bytes(x as nat, 8)
}

pub open spec fn enc_u32(x: u32) -> Seq<u8> {
    le_bytes(x as nat, 4)
}

pub open spec fn enc_usize(x: usize) -> Seq<u8> {
    le_bytes(x as nat, 8)
}

pub open spec fn enc_u64_elems(s: Seq<u64>) -> Seq<u8>
    decreases s.len(),
{
    if s.len() == 0 {
        Seq::empty()
    } else {
        enc_u64(s[0]) + enc_u64_elems(s.drop_first())
    }
}

/// A vector of scalars: a count followed by that many 8-byte fields.
pub open spec fn enc_u64_seq(s: Seq<u64>) -> Seq<u8> {
    enc_u64(s.len() as u64) + enc_u64_elems(s)
}

pub open spec fn enc_char(c: char) -> Seq<u8> {
    enc_u32(c as u32)
}

pub open spec fn enc_char_elems(s: Seq<char>) -> Seq<u8>
    decreases s.len(),
{
    if s.len() == 0 {
        Seq::empty()
    } else {
        enc_char(s[0]) + enc_char_elems(s.drop_first())
    }
}

/// A string: a count followed by one 4-byte scalar value per character.
pub open spec fn enc_chars(s: Seq<char>) -> Seq<u8> {
    enc_u64(s.len() as u64) + enc_char_elems(s)
}

pub open spec fn enc_msg(m: MsgView) -> Seq<u8> {
    enc_u64_seq(m.content) + enc_usize(m.origin)
}

/// The payload encoding: a 4-byte variant tag followed by the fields.
pub open spec fn enc_prot(p: ProtMsgView) -> Seq<u8> {
    match p {
        ProtMsgView::Init(x) => enc_u32(0) + enc_u64(x),
        ProtMsgView::Prepare(m) => enc_u32(1) + enc_msg(m),
        ProtMsgView::Echo(m) => enc_u32(2) + enc_msg(m),
        ProtMsgView::Ping(m, r) => enc_u32(3) + enc_msg(m) + enc_usize(r),
    }
}

/// The envelope encoding: payload, sender id, then the raw 32-byte tag.
pub open spec fn enc_wrapper(w: WrapperMsgView) -> Seq<u8> {
    enc_prot(w.protmsg) + enc_usize(w.sender) + w.mac
}

pub open spec fn sync_state_tag(s: SyncState) -> u32 {
    match s {
        SyncState::ALIVE => 0,
        SyncState::START => 1,
        SyncState::STARTED => 2,
        SyncState::COMPLETED => 3,
        SyncState::STOP => 4,
        SyncState::STOPPED => 5,
    }
}

pub open spec fn enc_sync_state(s: SyncState) -> Seq<u8> {
    enc_u32(sync_state_tag(s))
}

pub open spec fn enc_sync(m: SyncMsgView) -> Seq<u8> {
    enc_usize(m.sender) + enc_sync_state(m.state) + enc_chars(m.value)
}

/// A view can be put on the wire when its vectors fit the count fields and
/// its tag has the fixed width.
pub open spec fn msg_view_wf(m: MsgView) -> bool {
    m.content.len() <= u64::MAX
}

pub open spec fn prot_view_wf(p: ProtMsgView) -> bool {
    match p {
        ProtMsgView::Init(_) => true,
        ProtMsgView::Prepare(m) => msg_view_wf(m),
        ProtMsgView::Echo(m) => msg_view_wf(m),
        ProtMsgView::Ping(m, _) => msg_view_wf(m),
    }
}

pub open spec fn wrapper_view_wf(w: WrapperMsgView) -> bool {
    prot_view_wf(w.protmsg) && w.mac.len() == 32
}

pub open spec fn sync_view_wf(m: SyncMsgView) -> bool {
    m.value.len() <= u64::MAX
}

// ---------------------------------------------------------------------------
// The decoders, as total functions of the byte string
// ---------------------------------------------------------------------------

pub open spec fn dec_u64(b: Seq<u8>) -> Option<(u64, Seq<u8>)> {
    if b.len() >= 8 {
        Some((le_val(b.take(8)) as u64, b.skip(8)))
    } else {
        None
    }
}

pub open spec fn dec_u32(b: Seq<u8>) -> Option<(u32, Seq<u8>)> {
    if b.len() >= 4 {
        Some((le_val(b.take(4)) as u32, b.skip(4)))
    } else {
        None
    }
}

pub open spec fn dec_usize(b: Seq<u8>) -> Option<(usize, Seq<u8>)> {
    match dec_u64(b) {
        Some((x, r)) => if x <= usize::MAX as u64 {
            Some((x as usize, r))
        } else {
            None
        },
        None => None,
    }
}

pub open spec fn dec_u64_elems(b: Seq<u8>, n: nat) -> Option<(Seq<u64>, Seq<u8>)>
    decreases n,
{
    if n == 0 {
        Some((Seq::empty(), b))
    } else {
        match dec_u64(b) {
            Some((x, r)) => match dec_u64_elems(r, (n - 1) as nat) {
                Some((s, r2)) => Some((seq![x] + s, r2)),
                None => None,
            },
            None => None,
        }
    }
}

pub open spec fn dec_u64_seq(b: Seq<u8>) -> Option<(Seq<u64>, Seq<u8>)> {
    match dec_u64(b) {
        Some((n, r)) => dec_u64_elems(r, n as nat),
        None => None,
    }
}

pub open spec fn dec_char(b: Seq<u8>) -> Option<(char, Seq<u8>)> {
    match dec_u32(b) {
        Some((v, r)) => if vstd::utf8::is_scalar(v) {
            Some((v as char, r))
        } else {
            None
        },
        None => None,
    }
}

pub open spec fn dec_char_elems(b: Seq<u8>, n: nat) -> Option<(Seq<char>, Seq<u8>)>
    decreases n,
{
    if n == 0 {
        Some((Seq::empty(), b))
    } else {
        match dec_char(b) {
            Some((c, r)) => match dec_char_elems(r, (n - 1) as nat) {
                Some((s, r2)) => Some((seq![c] + s, r2)),
                None => None,
            },
            None => None,
        }
    }
}

pub open spec fn dec_chars(b: Seq<u8>) -> Option<(Seq<char>, Seq<u8>)> {
    match dec_u64(b) {
        Some((n, r)) => dec_char_elems(r, n as nat),
        None => None,
    }
}

pub open spec fn dec_msg(b: Seq<u8>) -> Option<(MsgView, Seq<u8>)> {
    match dec_u64_seq(b) {
        Some((content, r)) => match dec_usize(r) {
            Some((origin, r2)) => Some((MsgView { content, origin }, r2)),
            None => None,
        },
        None => None,
    }
}

pub open spec fn dec_prot(b: Seq<u8>) -> Option<(ProtMsgView, Seq<u8>)> {
    match dec_u32(b) {
        Some((tag, r)) => if tag == 0 {
            match dec_u64(r) {
                Some((x, r2)) => Some((ProtMsgView::Init(x), r2)),
                None => None,
            }
        } else if tag == 1 {
            match dec_msg(r) {
                Some((m, r2)) => Some((ProtMsgView::Prepare(m), r2)),
                None => None,
            }
        } else if tag == 2 {
            match dec_msg(r) {
                Some((m, r2)) => Some((ProtMsgView::Echo(m), r2)),
                None => None,
            }
        } else if tag == 3 {
            match dec_msg(r) {
                Some((m, r2)) => match dec_usize(r2) {
                    Some((rep, r3)) => Some((ProtMsgView::Ping(m, rep), r3)),
                    None => None,
                },
                None => None,
            }
        } else {
            None
        },
        None => None,
    }
}

pub open spec fn dec_wrapper(b: Seq<u8>) -> Option<(WrapperMsgView, Seq<u8>)> {
    match dec_prot(b) {
        Some((pm, r)) => match dec_usize(r) {
            Some((sender, r2)) => if r2.len() >= 32 {
                Some(
                    (
                        WrapperMsgView { protmsg: pm, sender, mac: r2.take(32) },
                        r2.skip(32),
                    ),
                )
            } else {
                None
            },
            None => None,
        },
        None => None,
    }
}

pub open spec fn dec_sync_state(b: Seq<u8>) -> Option<(SyncState, Seq<u8>)> {
    match dec_u32(b) {
        Some((tag, r)) => if tag == 0 {
            Some((SyncState::ALIVE, r))
        } else if tag == 1 {
            Some((SyncState::START, r))
        } else if tag == 2 {
            Some((SyncState::STARTED, r))
        } else if tag == 3 {
            Some((SyncState::COMPLETED, r))
        } else if tag == 4 {
            Some((SyncState::STOP, r))
        } else if tag == 5 {
            Some((SyncState::STOPPED, r))
        } else {
            None
        },
        None => None,
    }
}

pub open spec fn dec_sync(b: Seq<u8>) -> Option<(SyncMsgView, Seq<u8>)> {
    match dec_usize(b) {
        Some((sender, r)) => match dec_sync_state(r) {
            Some((state, r2)) => match dec_chars(r2) {
                Some((value, r3)) => Some((SyncMsgView { sender, state, value }, r3)),
                None => None,
            },
            None => None,
        },
        None => None,
    }
}

/// A whole envelope: the buffer must be consumed exactly.
pub open spec fn dec_wrapper_msg(b: Seq<u8>) -> Option<WrapperMsgView> {
    match dec_wrapper(b) {
        Some((w, r)) => if r.len() == 0 {
            Some(w)
        } else {
            None
        },
        None => None,
    }
}

/// A whole synchronizer message: the buffer must be consumed exactly.
pub open spec fn dec_sync_msg(b: Seq<u8>) -> Option<SyncMsgView> {
    match dec_sync(b) {
        Some((m, r)) => if r.len() == 0 {
            Some(m)
        } else {
            None
        },
        None => None,
    }
}

// ---------------------------------------------------------------------------
// Decode is the exact inverse of encode
// ---------------------------------------------------------------------------

pub proof fn lemma_dec_u64(x: u64, rest: Seq<u8>)
    ensures
        dec_u64(enc_u64(x) + rest) == Some((x, rest)),
{
    lemma_le_bytes_len(x as nat, 8);
    let whole = enc_u64(x) + rest;
    assert(whole.take(8) =~= enc_u64(x));
    assert(whole.skip(8) =~= rest);
    lemma_pow256_values();
    lemma_le_bytes_val(x as nat, 8);
}

pub proof fn lemma_dec_u32(x: u32, rest: Seq<u8>)
    ensures
        dec_u32(enc_u32(x) + rest) == Some((x, rest)),
{
    lemma_le_bytes_len(x as nat, 4);
    let whole = enc_u32(x) + rest;
    assert(whole.take(4) =~= enc_u32(x));
    assert(whole.skip(4) =~= rest);
    lemma_pow256_values();
    lemma_le_bytes_val(x as nat, 4);
}

pub proof fn lemma_dec_usize(x: usize, rest: Seq<u8>)
    ensures
        dec_usize(enc_usize(x) + rest) == Some((x, rest)),
{
    assert(enc_usize(x) == enc_u64(x as u64));
    lemma_dec_u64(x as u64, rest);
}

pub proof fn lemma_dec_u64_elems(s: Seq<u64>, rest: Seq<u8>)
    ensures
        dec_u64_elems(enc_u64_elems(s) + rest, s.len()) == Some((s, rest)),
    decreases s.len(),
{
    if s.len() == 0 {
        assert(enc_u64_elems(s) + rest =~= rest);
    } else {
        let tail = s.drop_first();
        assert(enc_u64_elems(s) + rest =~= enc_u64(s[0]) + (enc_u64_elems(tail) + rest));
        lemma_dec_u64(s[0], enc_u64_elems(tail) + rest);
        lemma_dec_u64_elems(tail, rest);
        assert(seq![s[0]] + tail =~= s);
    }
}

pub proof fn lemma_dec_u64_seq(s: Seq<u64>, rest: Seq<u8>)
    requires
        s.len() <= u64::MAX,
    ensures
        dec_u64_seq(enc_u64_seq(s) + rest) == Some((s, rest)),
{
    assert(enc_u64_seq(s) + rest =~= enc_u64(s.len() as u64) + (enc_u64_elems(s) + rest));
    lemma_dec_u64(s.len() as u64, enc_u64_elems(s) + rest);
    lemma_dec_u64_elems(s, rest);
}

pub proof fn lemma_dec_char(c: char, rest: Seq<u8>)
    ensures
        dec_char(enc_char(c) + rest) == Some((c, rest)),
{
    lemma_dec_u32(c as u32, rest);
    vstd::utf8::char_is_scalar(c);
    vstd::utf8::char_u32_cast(c, c as u32);
}

pub proof fn lemma_dec_char_elems(s: Seq<char>, rest: Seq<u8>)
    ensures
        dec_char_elems(enc_char_elems(s) + rest, s.len()) == Some((s, rest)),
    decreases s.len(),
{
    if s.len() == 0 {
        assert(enc_char_elems(s) + rest =~= rest);
    } else {
        let tail = s.drop_first();
        assert(enc_char_elems(s) + rest =~= enc_char(s[0]) + (enc_char_elems(tail) + rest));
        lemma_dec_char(s[0], enc_char_elems(tail) + rest);
        lemma_dec_char_elems(tail, rest);
        assert(seq![s[0]] + tail =~= s);
    }
}

pub proof fn lemma_dec_chars(s: Seq<char>, rest: Seq<u8>)
    requires
        s.len() <= u64::MAX,
    ensures
        dec_chars(enc_chars(s) + rest) == Some((s, rest)),
{
    assert(enc_chars(s) + rest =~= enc_u64(s.len() as u64) + (enc_char_elems(s) + rest));
    lemma_dec_u64(s.len() as u64, enc_char_elems(s) + rest);
    lemma_dec_char_elems(s, rest);
}

pub proof fn lemma_dec_msg(m: MsgView, rest: Seq<u8>)
    requires
        msg_view_wf(m),
    ensures
        dec_msg(enc_msg(m) + rest) == Some((m, rest)),
{
    assert(enc_msg(m) + rest =~= enc_u64_seq(m.content) + (enc_usize(m.origin) + rest));
    lemma_dec_u64_seq(m.content, enc_usize(m.origin) + rest);
    lemma_dec_usize(m.origin, rest);
}

#[verifier::rlimit(50)]
pub proof fn lemma_dec_prot(p: ProtMsgView, rest: Seq<u8>)
    requires
        prot_view_wf(p),
    ensures
        dec_prot(enc_prot(p) + rest) == Some((p, rest)),
{
    match p {
        ProtMsgView::Init(x) => {
            assert(enc_prot(p) + rest =~= enc_u32(0) + (enc_u64(x) + rest));
            lemma_dec_u32(0, enc_u64(x) + rest);
            lemma_dec_u64(x, rest);
        },
        ProtMsgView::Prepare(m) => {
            assert(enc_prot(p) + rest =~= enc_u32(1) + (enc_msg(m) + rest));
            lemma_dec_u32(1, enc_msg(m) + rest);
            lemma_dec_msg(m, rest);
        },
        ProtMsgView::Echo(m) => {
            assert(enc_prot(p) + rest =~= enc_u32(2) + (enc_msg(m) + rest));
            lemma_dec_u32(2, enc_msg(m) + rest);
            lemma_dec_msg(m, rest);
        },
        ProtMsgView::Ping(m, r) => {
            assert(enc_prot(p) + rest =~= enc_u32(3) + ((enc_msg(m) + enc_usize(r)) + rest));
            lemma_dec_u32(3, (enc_msg(m) + enc_usize(r)) + rest);
            assert((enc_msg(m) + enc_usize(r)) + rest =~= enc_msg(m) + (enc_usize(r) + rest));
            lemma_dec_msg(m, enc_usize(r) + rest);
            lemma_dec_usize(r, rest);
        },
    }
}

pub proof fn lemma_dec_wrapper(w: WrapperMsgView, rest: Seq<u8>)
    requires
        wrapper_view_wf(w),
    ensures
        dec_wrapper(enc_wrapper(w) + rest) == Some((w, rest)),
{
    assert(enc_wrapper(w) + rest =~= enc_prot(w.protmsg) + ((enc_usize(w.sender) + w.mac)
        + rest));
    lemma_dec_prot(w.protmsg, (enc_usize(w.sender) + w.mac) + rest);
    assert((enc_usize(w.sender) + w.mac) + rest =~= enc_usize(w.sender) + (w.mac + rest));
    lemma_dec_usize(w.sender, w.mac + rest);
    assert((w.mac + rest).take(32) =~= w.mac);
    assert((w.mac + rest).skip(32) =~= rest);
}

pub proof fn lemma_dec_sync_state(s: SyncState, rest: Seq<u8>)
    ensures
        dec_sync_state(enc_sync_state(s) + rest) == Some((s, rest)),
{
    lemma_dec_u32(sync_state_tag(s), rest);
}

pub proof fn lemma_dec_sync(m: SyncMsgView, rest: Seq<u8>)
    requires
        sync_view_wf(m),
    ensures
        dec_sync(enc_sync(m) + rest) == Some((m, rest)),
{
    assert(enc_sync(m) + rest =~= enc_usize(m.sender) + ((enc_sync_state(m.state)
        + enc_chars(m.value)) + rest));
    lemma_dec_usize(m.sender, (enc_sync_state(m.state) + enc_chars(m.value)) + rest);
    assert((enc_sync_state(m.state) + enc_chars(m.value)) + rest =~= enc_sync_state(m.state)
        + (enc_chars(m.value) + rest));
    lemma_dec_sync_state(m.state, enc_chars(m.value) + rest);
    lemma_dec_chars(m.value, rest);
}

/// Round trip for the envelope: decoding an encoded envelope gives the
/// envelope back, for every envelope whose vectors fit the wire's count
/// fields and whose tag has the fixed tag size.
pub proof fn lemma_wrapper_round_trip(w: WrapperMsgView)
    requires
        wrapper_view_wf(w),
    ensures
        dec_wrapper_msg(enc_wrapper(w)) == Some(w),
{
    lemma_dec_wrapper(w, Seq::empty());
    assert(enc_wrapper(w) + Seq::<u8>::empty() =~= enc_wrapper(w));
}

/// Round trip for synchronizer messages.
pub proof fn lemma_sync_round_trip(m: SyncMsgView)
    requires
        sync_view_wf(m),
    ensures
        dec_sync_msg(enc_sync(m)) == Some(m),
{
    lemma_dec_sync(m, Seq::empty());
    assert(enc_sync(m) + Seq::<u8>::empty() =~= enc_sync(m));
}

// ---------------------------------------------------------------------------
// Helper lemmas for the element loops
// ---------------------------------------------------------------------------

proof fn lemma_enc_u64_elems_concat(s: Seq<u64>, t: Seq<u64>)
    ensures
        enc_u64_elems(s + t) == enc_u64_elems(s) + enc_u64_elems(t),
    decreases s.len(),
{
    if s.len() == 0 {
        assert(s + t =~= t);
        assert(enc_u64_elems(s) + enc_u64_elems(t) =~= enc_u64_elems(t));
    } else {
        assert((s + t).drop_first() =~= s.drop_first() + t);
        lemma_enc_u64_elems_concat(s.drop_first(), t);
        assert(enc_u64_elems(s + t) =~= enc_u64_elems(s) + enc_u64_elems(t));
    }
}

proof fn lemma_enc_u64_elems_take(s: Seq<u64>, i: int)
    requires
        0 <= i < s.len(),
    ensures
        enc_u64_elems(s.take(i + 1)) == enc_u64_elems(s.take(i)) + enc_u64(s[i]),
{
    assert(s.take(i + 1) =~= s.take(i) + seq![s[i]]);
    lemma_enc_u64_elems_concat(s.take(i), seq![s[i]]);
    assert(enc_u64_elems(Seq::<u64>::empty()) == Seq::<u8>::empty());
    assert(seq![s[i]].drop_first() =~= Seq::<u64>::empty());
    assert(enc_u64_elems(seq![s[i]]) =~= enc_u64(s[i]));
}

proof fn lemma_enc_char_elems_concat(s: Seq<char>, t: Seq<char>)
    ensures
        enc_char_elems(s + t) == enc_char_elems(s) + enc_char_elems(t),
    decreases s.len(),
{
    if s.len() == 0 {
        assert(s + t =~= t);
        assert(enc_char_elems(s) + enc_char_elems(t) =~= enc_char_elems(t));
    } else {
        assert((s + t).drop_first() =~= s.drop_first() + t);
        lemma_enc_char_elems_concat(s.drop_first(), t);
        assert(enc_char_elems(s + t) =~= enc_char_elems(s) + enc_char_elems(t));
    }
}

proof fn lemma_enc_char_elems_take(s: Seq<char>, i: int)
    requires
        0 <= i < s.len(),
    ensures
        enc_char_elems(s.take(i + 1)) == enc_char_elems(s.take(i)) + enc_char(s[i]),
{
    assert(s.take(i + 1) =~= s.take(i) + seq![s[i]]);
    lemma_enc_char_elems_concat(s.take(i), seq![s[i]]);
    assert(enc_char_elems(Seq::<char>::empty()) == Seq::<u8>::empty());
    assert(seq![s[i]].drop_first() =~= Seq::<char>::empty());
    assert(enc_char_elems(seq![s[i]]) =~= enc_char(s[i]));
}

proof fn lemma_dec_u64_elems_insufficient(b: Seq<u8>, n: nat)
    requires
        b.len() < 8 * n,
    ensures
        dec_u64_elems(b, n) is None,
    decreases n,
{
    if n > 0 && b.len() >= 8 {
        lemma_dec_u64_elems_insufficient(b.skip(8), (n - 1) as nat);
    }
}

proof fn lemma_dec_char_elems_insufficient(b: Seq<u8>, n: nat)
    requires
        b.len() < 4 * n,
    ensures
        dec_char_elems(b, n) is None,
    decreases n,
{
    if n > 0 && b.len() >= 4 {
        lemma_dec_char_elems_insufficient(b.skip(4), (n - 1) as nat);
    }
}

// ---------------------------------------------------------------------------
// Executable encoders
// ---------------------------------------------------------------------------

fn write_u64(out: &mut Vec<u8>, x: u64)
    ensures
        final(out)@ == old(out)@ + enc_u64(x),
{
    write_le(out, x, 8);
}

fn write_u32(out: &mut Vec<u8>, x: u32)
    ensures
        final(out)@ == old(out)@ + enc_u32(x),
{
    write_le(out, x as u64, 4);
}

fn write_usize(out: &mut Vec<u8>, x: usize)
    ensures
        final(out)@ == old(out)@ + enc_usize(x),
{
    write_le(out, x as u64, 8);
}

fn write_u64_vec(out: &mut Vec<u8>, v: &Vec<u64>)
    ensures
        final(out)@ == old(out)@ + enc_u64_seq(v@),
{
    write_u64(out, v.len() as u64);
    let n = v.len();
    let mut i: usize = 0;
    proof {
        assert(v@.take(0) =~= Seq::<u64>::empty());
        assert(out@ =~= old(out)@ + enc_u64(v@.len() as u64) + enc_u64_elems(v@.take(0)));
    }
    while i < n
        invariant
            i <= n == v@.len(),
            out@ == old(out)@ + enc_u64(v@.len() as u64) + enc_u64_elems(v@.take(i as int)),
        decreases n - i,
    {
        proof {
            lemma_enc_u64_elems_take(v@, i as int);
        }
        write_u64(out, v[i]);
        i = i + 1;
        proof {
            assert(out@ =~= old(out)@ + enc_u64(v@.len() as u64) + enc_u64_elems(
                v@.take(i as int),
            ));
        }
    }
    proof {
        assert(v@.take(n as int) =~= v@);
        assert(out@ =~= old(out)@ + enc_u64_seq(v@));
    }
}

fn write_str(out: &mut Vec<u8>, s: &str)
    ensures
        final(out)@ == old(out)@ + enc_chars(s@),
{
    let n = s.unicode_len();
    write_u64(out, n as u64);
    let mut i: usize = 0;
    proof {
        assert(s@.take(0) =~= Seq::<char>::empty());
        assert(out@ =~= old(out)@ + enc_u64(s@.len() as u64) + enc_char_elems(s@.take(0)));
    }
    while i < n
        invariant
            i <= n == s@.len(),
            out@ == old(out)@ + enc_u64(s@.len() as u64) + enc_char_elems(s@.take(i as int)),
        decreases n - i,
    {
        proof {
            lemma_enc_char_elems_take(s@, i as int);
        }
        let c = s.get_char(i);
        write_u32(out, c as u32);
        i = i + 1;
        proof {
            assert(out@ =~= old(out)@ + enc_u64(s@.len() as u64) + enc_char_elems(
                s@.take(i as int),
            ));
        }
    }
    proof {
        assert(s@.take(n as int) =~= s@);
        assert(out@ =~= old(out)@ + enc_chars(s@));
    }
}

fn write_msg(out: &mut Vec<u8>, m: &Msg)
    ensures
        final(out)@ == old(out)@ + enc_msg(m@),
{
    write_u64_vec(out, &m.content);
    write_usize(out, m.origin);
    proof {
        assert(out@ =~= old(out)@ + enc_msg(m@));
    }
}

/// Encodes a protocol payload for the wire (and for authentication: the
/// envelope's tag is computed over exactly these bytes).
pub fn encode_prot_msg(m: &ProtMsg) -> (r: Vec<u8>)
    ensures
        r@ == enc_prot(m@),
{
    let mut out: Vec<u8> = Vec::new();
    match m {
        ProtMsg::Init(x) => {
            write_u32(&mut out, 0);
            write_u64(&mut out, *x);
        },
        ProtMsg::Prepare(msg) => {
            write_u32(&mut out, 1);
            write_msg(&mut out, msg);
        },
        ProtMsg::Echo(msg) => {
            write_u32(&mut out, 2);
            write_msg(&mut out, msg);
        },
        ProtMsg::Ping(msg, rep) => {
            write_u32(&mut out, 3);
            write_msg(&mut out, msg);
            write_usize(&mut out, *rep);
        },
    }
    proof {
        assert(out@ =~= enc_prot(m@));
    }
    out
}

/// Encodes a whole envelope.
pub fn encode_wrapper_msg(w: &WrapperMsg) -> (r: Vec<u8>)
    ensures
        r@ == enc_wrapper(w@),
{
    broadcast use vstd::array::group_array_axioms;

    let mut out = encode_prot_msg(&w.protmsg);
    write_usize(&mut out, w.sender);
    let mut i: usize = 0;
    while i < 32
        invariant
            i <= 32,
            out@ == enc_prot(w@.protmsg) + enc_usize(w@.sender) + w@.mac.take(i as int),
        decreases 32 - i,
    {
        proof {
            assert(w@.mac.take(i + 1) =~= w@.mac.take(i as int).push(w@.mac[i as int]));
        }
        out.push(w.mac[i]);
        i = i + 1;
        proof {
            assert(out@ =~= enc_prot(w@.protmsg) + enc_usize(w@.sender) + w@.mac.take(
                i as int,
            ));
        }
    }
    proof {
        assert(w@.mac.take(32) =~= w@.mac);
        assert(out@ =~= enc_wrapper(w@));
    }
    out
}

/// Encodes a whole synchronizer message.
pub fn encode_sync_msg(m: &SyncMsg) -> (r: Vec<u8>)
    ensures
        r@ == enc_sync(m@),
{
    let mut out: Vec<u8> = Vec::new();
    write_usize(&mut out, m.sender);
    let tag: u32 = match m.state {
        SyncState::ALIVE => 0,
        SyncState::START => 1,
        SyncState::STARTED => 2,
        SyncState::COMPLETED => 3,
        SyncState::STOP => 4,
        SyncState::STOPPED => 5,
    };
    write_u32(&mut out, tag);
    write_str(&mut out, m.value.as_str());
    proof {
        assert(out@ =~= enc_sync(m@));
    }
    out
}

// ---------------------------------------------------------------------------
// Executable decoders
// ---------------------------------------------------------------------------

/// Relies on char::from_u32: `Some` exactly for Unicode scalar values, and
/// the returned character carries the given scalar value.
#[verifier::external_body]
fn char_from_u32(v: u32) -> (r: Option<char>)
    ensures
        r == (if vstd::utf8::is_scalar(v) {
            Some(v as char)
        } else {
            None::<char>
        }),
{
    char::from_u32(v)
}

/// Relies on String::push: appends exactly the given character.
#[verifier::external_body]
pub(crate) fn string_push_char(s: &mut String, c: char)
    ensures
        final(s)@ == old(s)@.push(c),
{
    s.push(c);
}

spec fn prefix_u64(pre: Seq<u64>, o: Option<(Seq<u64>, Seq<u8>)>) -> Option<(Seq<u64>, Seq<u8>)> {
    match o {
        Some(p) => Some((pre + p.0, p.1)),
        None => None,
    }
}

spec fn prefix_char(pre: Seq<char>, o: Option<(Seq<char>, Seq<u8>)>) -> Option<
    (Seq<char>, Seq<u8>),
> {
    match o {
        Some(p) => Some((pre + p.0, p.1)),
        None => None,
    }
}

proof fn lemma_prefix_push_u64(pre: Seq<u64>, x: u64, o: Option<(Seq<u64>, Seq<u8>)>)
    ensures
        prefix_u64(
            pre,
            match o {
                Some(p) => Some((seq![x] + p.0, p.1)),
                None => None,
            },
        ) == prefix_u64(pre.push(x), o),
{
    match o {
        Some(p) => {
            assert(pre + (seq![x] + p.0) =~= pre.push(x) + p.0);
        },
        None => {},
    }
}

proof fn lemma_prefix_push_char(pre: Seq<char>, c: char, o: Option<(Seq<char>, Seq<u8>)>)
    ensures
        prefix_char(
            pre,
            match o {
                Some(p) => Some((seq![c] + p.0, p.1)),
                None => None,
            },
        ) == prefix_char(pre.push(c), o),
{
    match o {
        Some(p) => {
            assert(pre + (seq![c] + p.0) =~= pre.push(c) + p.0);
        },
        None => {},
    }
}

fn read_u64_f(b: &[u8], pos: usize) -> (r: Option<(u64, usize)>)
    requires
        pos <= b@.len(),
    ensures
        match r {
            Some(p) => pos + 8 == p.1 && p.1 <= b@.len() && dec_u64(b@.skip(pos as int))
                == Some((p.0, b@.skip(p.1 as int))),
            None => dec_u64(b@.skip(pos as int)) is None,
        },
{
    match read_le(b, pos, 8) {
        Some(p) => {
            proof {
                let s = b@.skip(pos as int);
                assert(s.take(8) =~= b@.subrange(pos as int, pos as int + 8));
                assert(s.skip(8) =~= b@.skip(pos as int + 8));
            }
            Some(p)
        },
        None => None,
    }
}

fn read_u32_f(b: &[u8], pos: usize) -> (r: Option<(u32, usize)>)
    requires
        pos <= b@.len(),
    ensures
        match r {
            Some(p) => pos + 4 == p.1 && p.1 <= b@.len() && dec_u32(b@.skip(pos as int))
                == Some((p.0, b@.skip(p.1 as int))),
            None => dec_u32(b@.skip(pos as int)) is None,
        },
{
    match read_le(b, pos, 4) {
        Some(p) => {
            proof {
                let s = b@.skip(pos as int);
                assert(s.take(4) =~= b@.subrange(pos as int, pos as int + 4));
                assert(s.skip(4) =~= b@.skip(pos as int + 4));
                lemma_le_val_bound(s.take(4));
                lemma_pow256_values();
            }
            Some((p.0 as u32, p.1))
        },
        None => None,
    }
}

fn read_usize_f(b: &[u8], pos: usize) -> (r: Option<(usize, usize)>)
    requires
        pos <= b@.len(),
    ensures
        match r {
            Some(p) => pos + 8 == p.1 && p.1 <= b@.len() && dec_usize(b@.skip(pos as int))
                == Some((p.0, b@.skip(p.1 as int))),
            None => dec_usize(b@.skip(pos as int)) is None,
        },
{
    match read_u64_f(b, pos) {
        Some(p) => if p.0 <= usize::MAX as u64 {
            Some((p.0 as usize, p.1))
        } else {
            None
        },
        None => None,
    }
}

fn read_u64_vec(b: &[u8], pos: usize) -> (r: Option<(Vec<u64>, usize)>)
    requires
        pos <= b@.len(),
    ensures
        match r {
            Some(p) => p.1 <= b@.len() && dec_u64_seq(b@.skip(pos as int)) == Some(
                (p.0@, b@.skip(p.1 as int)),
            ),
            None => dec_u64_seq(b@.skip(pos as int)) is None,
        },
{
    let first = read_u64_f(b, pos);
    if first.is_none() {
        return None;
    }
    let (count, p1) = first.unwrap();
    let rem = b.len() - p1;
    if count > (rem / 8) as u64 {
        proof {
            lemma_dec_u64_elems_insufficient(b@.skip(p1 as int), count as nat);
        }
        return None;
    }
    let cnt: usize = count as usize;
    let mut out: Vec<u64> = Vec::new();
    let mut cur: usize = p1;
    let mut i: usize = 0;
    proof {
        assert(out@ =~= Seq::<u64>::empty());
        assert(prefix_u64(out@, dec_u64_elems(b@.skip(cur as int), cnt as nat))
            == dec_u64_elems(b@.skip(p1 as int), cnt as nat));
    }
    while i < cnt
        invariant
            i <= cnt,
            p1 <= cur <= b@.len(),
            b@.len() <= usize::MAX,
            cur == p1 + 8 * i,
            8 * cnt <= b@.len() - p1,
            dec_u64_seq(b@.skip(pos as int)) == prefix_u64(
                out@,
                dec_u64_elems(b@.skip(cur as int), (cnt - i) as nat),
            ),
        decreases cnt - i,
    {
        let rd = read_u64_f(b, cur);
        proof {
            assert(b@.skip(cur as int).len() >= 8);
            assert(rd is Some);
        }
        let (x, np) = rd.unwrap();
        proof {
            lemma_prefix_push_u64(out@, x, dec_u64_elems(b@.skip(np as int), (cnt - i - 1) as nat));
        }
        out.push(x);
        cur = np;
        i = i + 1;
    }
    proof {
        assert(dec_u64_elems(b@.skip(cur as int), 0) == Some(
            (Seq::<u64>::empty(), b@.skip(cur as int)),
        ));
        assert(out@ + Seq::<u64>::empty() =~= out@);
    }
    Some((out, cur))
}

fn read_string(b: &[u8], pos: usize) -> (r: Option<(String, usize)>)
    requires
        pos <= b@.len(),
    ensures
        match r {
            Some(p) => p.1 <= b@.len() && dec_chars(b@.skip(pos as int)) == Some(
                (p.0@, b@.skip(p.1 as int)),
            ),
            None => dec_chars(b@.skip(pos as int)) is None,
        },
{
    let first = read_u64_f(b, pos);
    if first.is_none() {
        return None;
    }
    let (count, p1) = first.unwrap();
    let rem = b.len() - p1;
    if count > (rem / 4) as u64 {
        proof {
            lemma_dec_char_elems_insufficient(b@.skip(p1 as int), count as nat);
        }
        return None;
    }
    let cnt: usize = count as usize;
    let mut out: String = String::new();
    let mut cur: usize = p1;
    let mut i: usize = 0;
    proof {
        assert(out@ =~= Seq::<char>::empty());
        assert(prefix_char(out@, dec_char_elems(b@.skip(cur as int), cnt as nat))
            == dec_char_elems(b@.skip(p1 as int), cnt as nat));
    }
    while i < cnt
        invariant
            i <= cnt,
            p1 <= cur <= b@.len(),
            b@.len() <= usize::MAX,
            cur == p1 + 4 * i,
            4 * cnt <= b@.len() - p1,
            dec_chars(b@.skip(pos as int)) == prefix_char(
                out@,
                dec_char_elems(b@.skip(cur as int), (cnt - i) as nat),
            ),
        decreases cnt - i,
    {
        let rd = read_u32_f(b, cur);
        proof {
            assert(b@.skip(cur as int).len() >= 4);
            assert(rd is Some);
        }
        let (v, np) = rd.unwrap();
        let c = match char_from_u32(v) {
            Some(c) => c,
            None => {
                return None;
            },
        };
        proof {
            lemma_prefix_push_char(
                out@,
                c,
                dec_char_elems(b@.skip(np as int), (cnt - i - 1) as nat),
            );
        }
        string_push_char(&mut out, c);
        cur = np;
        i = i + 1;
    }
    proof {
        assert(dec_char_elems(b@.skip(cur as int), 0) == Some(
            (Seq::<char>::empty(), b@.skip(cur as int)),
        ));
        assert(out@ + Seq::<char>::empty() =~= out@);
    }
    Some((out, cur))
}

fn read_msg(b: &[u8], pos: usize) -> (r: Option<(Msg, usize)>)
    requires
        pos <= b@.len(),
    ensures
        match r {
            Some(p) => p.1 <= b@.len() && dec_msg(b@.skip(pos as int)) == Some(
                (p.0@, b@.skip(p.1 as int)),
            ),
            None => dec_msg(b@.skip(pos as int)) is None,
        },
{
    let first = read_u64_vec(b, pos);
    if first.is_none() {
        return None;
    }
    let (content, p1) = first.unwrap();
    let second = read_usize_f(b, p1);
    if second.is_none() {
        return None;
    }
    let (origin, p2) = second.unwrap();
    Some((Msg { content, origin }, p2))
}

/// Decodes a protocol payload starting at `pos`; `Some` exactly when the
/// bytes there are a payload encoding.
pub fn decode_prot_at(b: &[u8], pos: usize) -> (r: Option<(ProtMsg, usize)>)
    requires
        pos <= b@.len(),
    ensures
        match r {
            Some(p) => p.1 <= b@.len() && dec_prot(b@.skip(pos as int)) == Some(
                (p.0@, b@.skip(p.1 as int)),
            ),
            None => dec_prot(b@.skip(pos as int)) is None,
        },
{
    let first = read_u32_f(b, pos);
    if first.is_none() {
        return None;
    }
    let (tag, p1) = first.unwrap();
    if tag == 0 {
        match read_u64_f(b, p1) {
            Some(p) => Some((ProtMsg::Init(p.0), p.1)),
            None => None,
        }
    } else if tag == 1 {
        match read_msg(b, p1) {
            Some(p) => Some((ProtMsg::Prepare(p.0), p.1)),
            None => None,
        }
    } else if tag == 2 {
        match read_msg(b, p1) {
            Some(p) => Some((ProtMsg::Echo(p.0), p.1)),
            None => None,
        }
    } else if tag == 3 {
        match read_msg(b, p1) {
            Some(p) => {
                let (m, p2) = p;
                match read_usize_f(b, p2) {
                    Some(q) => Some((ProtMsg::Ping(m, q.0), q.1)),
                    None => None,
                }
            },
            None => None,
        }
    } else {
        None
    }
}

/// Decodes a whole envelope; `Some` exactly when the buffer is the
/// encoding of one envelope, consumed entirely.
pub fn decode_wrapper_msg(b: &[u8]) -> (r: Option<WrapperMsg>)
    ensures
        match r {
            Some(m) => dec_wrapper_msg(b@) == Some(m@),
            None => dec_wrapper_msg(b@) is None,
        },
{
    broadcast use vstd::array::group_array_axioms;

    proof {
        assert(b@.skip(0) =~= b@);
    }
    let first = decode_prot_at(b, 0);
    if first.is_none() {
        return None;
    }
    let (protmsg, p1) = first.unwrap();
    let second = read_usize_f(b, p1);
    if second.is_none() {
        return None;
    }
    let (sender, p2) = second.unwrap();
    if b.len() - p2 < 32 {
        return None;
    }
    let mut mac: [u8; 32] = [0; 32];
    let mut i: usize = 0;
    while i < 32
        invariant
            i <= 32,
            p2 + 32 <= b@.len() <= usize::MAX,
            mac@.len() == 32,
            forall|j: int| 0 <= j < i ==> mac@[j] == b@[p2 + j],
        decreases 32 - i,
    {
        mac[i] = b[p2 + i];
        i = i + 1;
    }
    let p3 = p2 + 32;
    if p3 != b.len() {
        return None;
    }
    proof {
        let r2 = b@.skip(p2 as int);
        assert(mac@ =~= r2.take(32));
        assert(b@.skip(p3 as int) =~= r2.skip(32));
        assert(b@.skip(p3 as int).len() == 0);
    }
    Some(WrapperMsg { protmsg, sender, mac })
}

/// Decodes a whole synchronizer message; `Some` exactly when the buffer is
/// the encoding of one synchronizer message, consumed entirely.
pub fn decode_sync_msg(b: &[u8]) -> (r: Option<SyncMsg>)
    ensures
        match r {
            Some(m) => dec_sync_msg(b@) == Some(m@),
            None => dec_sync_msg(b@) is None,
        },
{
    proof {
        assert(b@.skip(0) =~= b@);
    }
    let first = read_usize_f(b, 0);
    if first.is_none() {
        return None;
    }
    let (sender, p1) = first.unwrap();
    let second = read_u32_f(b, p1);
    if second.is_none() {
        return None;
    }
    let (tag, p2) = second.unwrap();
    let state = if tag == 0 {
        SyncState::ALIVE
    } else if tag == 1 {
        SyncState::START
    } else if tag == 2 {
        SyncState::STARTED
    } else if tag == 3 {
        SyncState::COMPLETED
    } else if tag == 4 {
        SyncState::STOP
    } else if tag == 5 {
        SyncState::STOPPED
    } else {
        return None;
    };
    let third = read_string(b, p2);
    if third.is_none() {
        return None;
    }
    let (value, p3) = third.unwrap();
    if p3 != b.len() {
        return None;
    }
    Some(SyncMsg { sender, state, value })
}

} // verus!
