//! Sorting and the median of a delivered value vector, reported as a
//! decimal string: the middle element for an odd-length vector, and the
//! average of the two middle elements (with one digit after the point,
//! `.0` or `.5`) for an even-length one.

use vstd::prelude::*;
use vstd::assert_multisets_equal;
use vstd::relations::{sorted_by, total_ordering};
use vstd::seq_lib::lemma_sorted_unique;

use crate::codec::string_push_char;

verus! {

broadcast use vstd::seq_lib::group_to_multiset_ensures, vstd::multiset::group_multiset_axioms;

/// The ordering the protocol sorts value vectors by.
pub open spec fn u64_leq() -> spec_fn(u64, u64) -> bool {
    |a: u64, b: u64| a <= b
}

/// The sorted rearrangement of a value sequence.
pub open spec fn sorted_of(s: Seq<u64>) -> Seq<u64> {
    s.sort_by(u64_leq())
}

pub proof fn lemma_u64_leq_total()
    ensures
        total_ordering(u64_leq()),
{
}

/// What `sort_by` promises: the sorted rearrangement is sorted and keeps
/// exactly the original elements.
pub proof fn lemma_sorted_of(s: Seq<u64>)
    ensures
        sorted_of(s).to_multiset() == s.to_multiset(),
        sorted_by(sorted_of(s), u64_leq()),
        sorted_of(s).len() == s.len(),
{
    lemma_u64_leq_total();
    s.lemma_sort_by_ensures(u64_leq());
    assert(s.to_multiset() =~= sorted_of(s).to_multiset());
    assert(s.to_multiset().len() == s.len());
    assert(sorted_of(s).to_multiset().len() == sorted_of(s).len());
}

proof fn lemma_insert_to_multiset(s: Seq<u64>, p: int, x: u64)
    requires
        0 <= p <= s.len(),
    ensures
        s.insert(p, x).to_multiset() == s.to_multiset().insert(x),
{
    let s2 = s.insert(p, x);
    assert(s2[p] == x);
    assert(s2.remove(p) =~= s);
    assert(s.to_multiset() =~= s2.to_multiset().remove(x));
    assert(s2.contains(x));
    assert(s2.to_multiset().count(x) > 0);
    assert_multisets_equal!(s2.to_multiset(), s.to_multiset().insert(x));
}

/// Sorts a copy of `v`.
pub fn sort_u64(v: &Vec<u64>) -> (r: Vec<u64>)
    ensures
        r@ == sorted_of(v@),
{
    let n = v.len();
    let mut out: Vec<u64> = Vec::new();
    let mut i: usize = 0;
    proof {
        assert(v@.take(0) =~= Seq::<u64>::empty());
        assert(v@.take(0).to_multiset() =~= out@.to_multiset());
    }
    while i < n
        invariant
            i <= n == v@.len(),
            out@.len() == i,
            sorted_by(out@, u64_leq()),
            out@.to_multiset() == v@.take(i as int).to_multiset(),
        decreases n - i,
    {
        let x = v[i];
        // find the first position whose element is greater than x
        let mut p: usize = 0;
        while p < out.len() && out[p] <= x
            invariant
                p <= out@.len(),
                forall|j: int| 0 <= j < p ==> out@[j] <= x,
            decreases out@.len() - p,
        {
            p = p + 1;
        }
        proof {
            lemma_insert_to_multiset(out@, p as int, x);
            out@.insert_ensures(p as int, x);
            assert(v@.take(i + 1) =~= v@.take(i as int).push(x));
            assert(v@.take(i + 1).to_multiset() =~= v@.take(i as int).to_multiset().insert(x));
            let s2 = out@.insert(p as int, x);
            assert forall|a: int, b: int| 0 <= a <= b < s2.len() implies u64_leq()(
                s2[a],
                s2[b],
            ) by {
                if a < p {
                    assert(s2[a] == out@[a]);
                } else if a == p {
                    assert(s2[a] == x);
                } else {
                    assert(s2[a] == out@[a - 1]);
                }
                if b < p {
                    assert(s2[b] == out@[b]);
                } else if b == p {
                    assert(s2[b] == x);
                } else {
                    assert(s2[b] == out@[b - 1]);
                    if (p as int) < out@.len() {
                        assert(out@[p as int] > x);
                        assert(u64_leq()(out@[p as int], out@[b - 1]));
                    }
                }
            }
        }
        out.insert(p, x);
        i = i + 1;
    }
    proof {
        assert(v@.take(n as int) =~= v@);
        lemma_sorted_of(v@);
        lemma_u64_leq_total();
        lemma_sorted_unique(out@, sorted_of(v@), u64_leq());
    }
    out
}

// ---------------------------------------------------------------------------
// Decimal strings
// ---------------------------------------------------------------------------

/// The decimal digit character for `d`.
pub open spec fn digit_char(d: nat) -> char
    recommends
        d < 10,
{
    if d == 0 {
        '0'
    } else if d == 1 {
        '1'
    } else if d == 2 {
        '2'
    } else if d == 3 {
        '3'
    } else if d == 4 {
        '4'
    } else if d == 5 {
        '5'
    } else if d == 6 {
        '6'
    } else if d == 7 {
        '7'
    } else if d == 8 {
        '8'
    } else {
        '9'
    }
}

/// The decimal digit string of `n`, most significant digit first, with no
/// leading zeros (`0` alone for zero).
pub open spec fn dec_digits(n: nat) -> Seq<char>
    decreases n,
{
    if n < 10 {
        seq![digit_char(n)]
    } else {
        dec_digits(n / 10).push(digit_char(n % 10))
    }
}

/// Writes the decimal digits of `n` onto the end of `s`.
pub fn push_dec_u64(s: &mut String, n: u64)
    ensures
        final(s)@ == old(s)@ + dec_digits(n as nat),
    decreases n,
{
    if n >= 10 {
        push_dec_u64(s, n / 10);
    }
    let d = (n % 10) as u8;
    let c: char = if d == 0 {
        '0'
    } else if d == 1 {
        '1'
    } else if d == 2 {
        '2'
    } else if d == 3 {
        '3'
    } else if d == 4 {
        '4'
    } else if d == 5 {
        '5'
    } else if d == 6 {
        '6'
    } else if d == 7 {
        '7'
    } else if d == 8 {
        '8'
    } else {
        '9'
    };
    string_push_char(s, c);
    proof {
        if n < 10 {
            assert(n as nat % 10 == n as nat);
            assert(final(s)@ =~= old(s)@ + dec_digits(n as nat));
        } else {
            assert(final(s)@ =~= old(s)@ + dec_digits(n as nat));
        }
    }
}

/// The decimal string of `n`.
pub fn u64_to_dec_string(n: u64) -> (r: String)
    ensures
        r@ == dec_digits(n as nat),
{
    let mut s = String::new();
    push_dec_u64(&mut s, n);
    proof {
        assert(Seq::<char>::empty() + dec_digits(n as nat) =~= dec_digits(n as nat));
    }
    s
}

// ---------------------------------------------------------------------------
// The median
// ---------------------------------------------------------------------------

/// The reported median of a sorted, non-empty value vector: the middle
/// element for odd length; for even length the exact average of the two
/// middle elements, printed with `.0` or `.5`.
pub open spec fn median_chars(sorted: Seq<u64>) -> Seq<char>
    recommends
        sorted.len() > 0,
{
    let mid = sorted.len() as int / 2;
    if sorted.len() % 2 == 1 {
        dec_digits(sorted[mid] as nat)
    } else {
        let s = sorted[mid - 1] + sorted[mid];
        if s % 2 == 0 {
            dec_digits((s / 2) as nat) + seq!['.', '0']
        } else {
            dec_digits((s / 2) as nat) + seq!['.', '5']
        }
    }
}

/// The delivery report for a value vector: the median of its sorted
/// rearrangement, as a decimal string.
pub open spec fn median_str_of(values: Seq<u64>) -> Seq<char>
    recommends
        values.len() > 0,
{
    median_chars(sorted_of(values))
}

/// Sorts `values` and prints the median.
pub fn median_string(values: &Vec<u64>) -> (r: String)
    requires
        values@.len() > 0,
    ensures
        r@ == median_str_of(values@),
{
    let sorted = sort_u64(values);
    proof {
        lemma_sorted_of(values@);
    }
    let mid = sorted.len() / 2;
    if sorted.len() % 2 == 1 {
        u64_to_dec_string(sorted[mid])
    } else {
        let a = sorted[mid - 1];
        let b = sorted[mid];
        let s: u128 = a as u128 + b as u128;
        let half: u64 = (s / 2) as u64;
        let mut r = u64_to_dec_string(half);
        if s % 2 == 0 {
            string_push_char(&mut r, '.');
            string_push_char(&mut r, '0');
        } else {
            string_push_char(&mut r, '.');
            string_push_char(&mut r, '5');
        }
        proof {
            assert(r@ =~= median_str_of(values@));
        }
        r
    }
}

} // verus!
