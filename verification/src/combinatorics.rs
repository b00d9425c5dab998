//! Ranking of combinations (co-lexicographic) and permutations
//! (factorial base), permutation parity, and binomial coefficients.

use vstd::prelude::*;
use vstd::relations::{sorted_by, total_ordering};
use vstd::seq_lib::lemma_sorted_unique;

verus! {

broadcast use vstd::seq_lib::group_to_multiset_ensures;

/// Binomial coefficient `C(n, k)` by Pascal's rule; 0 when `k > n`.
pub open spec fn spec_binom(n: nat, k: nat) -> nat
    decreases n, k,
{
    if k == 0 {
        1
    } else if n == 0 {
        0
    } else {
        spec_binom((n - 1) as nat, (k - 1) as nat) + spec_binom((n - 1) as nat, k)
    }
}

/// `n` factorial.
pub open spec fn fact(n: nat) -> nat
    decreases n,
{
    if n == 0 {
        1
    } else {
        n * fact((n - 1) as nat)
    }
}

/// Two to the `n`.
pub open spec fn pow2(n: nat) -> nat
    decreases n,
{
    if n == 0 {
        1
    } else {
        2 * pow2((n - 1) as nat)
    }
}

/// How many entries of `s` are strictly below `x`.
pub open spec fn count_lt(s: Seq<u8>, x: u8) -> nat
    decreases s.len(),
{
    if s.len() == 0 {
        0
    } else {
        (if s[0] < x {
            1nat
        } else {
            0nat
        }) + count_lt(s.drop_first(), x)
    }
}

/// Lexicographic rank of an index sequence in factorial base: at each
/// position, the number of later entries below the current one, weighted by
/// the factorial of the number of remaining positions.
pub open spec fn lex_rank(s: Seq<u8>) -> nat
    decreases s.len(),
{
    if s.len() == 0 {
        0
    } else {
        count_lt(s.drop_first(), s[0]) * fact((s.len() - 1) as nat) + lex_rank(s.drop_first())
    }
}

/// Number of inversions: pairs appearing out of ascending order.
pub open spec fn inv_count(s: Seq<u8>) -> nat
    decreases s.len(),
{
    if s.len() == 0 {
        0
    } else {
        count_lt(s.drop_first(), s[0]) + inv_count(s.drop_first())
    }
}

/// Ascending order on bytes.
pub open spec fn u8_le() -> spec_fn(u8, u8) -> bool {
    |a: u8, b: u8| a <= b
}

/// The ascending rearrangement of `s`.
pub open spec fn sort_u8(s: Seq<u8>) -> Seq<u8> {
    s.sort_by(u8_le())
}

/// The index of `x` in `s` (meaningful when `s` has no duplicates).
pub open spec fn idx_of(s: Seq<u8>, x: u8) -> int {
    choose|i: int| 0 <= i < s.len() && s[i] == x
}

/// Each element of `c` replaced by its index in the ordering `ord`.
pub open spec fn map_idx(c: Seq<u8>, ord: Seq<u8>) -> Seq<u8> {
    Seq::new(c.len(), |i: int| idx_of(ord, c[i]) as u8)
}

/// Co-lexicographic rank of the subset `c` of the ordered ground set `ord`:
/// map each element to its index in `ord`, sort ascending, and sum
/// `C(index_i, i + 1)`.
pub open spec fn comb_rank(c: Seq<u8>, ord: Seq<u8>) -> nat {
    crank(sort_u8(map_idx(c, ord)))
}

/// The co-lex sum over an already sorted index sequence.
pub open spec fn crank(s: Seq<u8>) -> nat
    decreases s.len(),
{
    if s.len() == 0 {
        0
    } else {
        crank(s.drop_last()) + spec_binom(s.last() as nat, s.len() as nat)
    }
}

/// Lexicographic rank of the sequence `p` as a permutation of the reference
/// ordering `r`.
pub open spec fn perm_rank(p: Seq<u8>, r: Seq<u8>) -> nat {
    lex_rank(map_idx(p, r))
}

/// Parity of the permutation carrying the reference `r` to `p`: true when
/// the number of inversions is odd.
pub open spec fn perm_parity(p: Seq<u8>, r: Seq<u8>) -> bool {
    inv_count(map_idx(p, r)) % 2 == 1
}

/// The ordering `ord` with the two values `a` and `b` struck out.
pub open spec fn remove2(s: Seq<u8>, a: u8, b: u8) -> Seq<u8>
    decreases s.len(),
{
    if s.len() == 0 {
        Seq::empty()
    } else {
        let rest = remove2(s.drop_last(), a, b);
        if s.last() == a || s.last() == b {
            rest
        } else {
            rest.push(s.last())
        }
    }
}

pub proof fn lemma_pow2_pos(n: nat)
    ensures
        pow2(n) >= 1,
    decreases n,
{
    if n > 0 {
        lemma_pow2_pos((n - 1) as nat);
    }
}

pub proof fn lemma_pow2_mono(a: nat, b: nat)
    requires
        a <= b,
    ensures
        pow2(a) <= pow2(b),
    decreases b,
{
    if a < b {
        lemma_pow2_mono(a, (b - 1) as nat);
    }
}

pub proof fn lemma_binom_le_pow2(n: nat, k: nat)
    ensures
        spec_binom(n, k) <= pow2(n),
        spec_binom(n, k) >= (if k <= n {
            1nat
        } else {
            0nat
        }),
    decreases n, k,
{
    lemma_pow2_pos(n);
    if k == 0 {
    } else if n == 0 {
    } else {
        lemma_binom_le_pow2((n - 1) as nat, (k - 1) as nat);
        lemma_binom_le_pow2((n - 1) as nat, k);
    }
}

pub proof fn lemma_binom_mono(n1: nat, n2: nat, k: nat)
    requires
        n1 <= n2,
    ensures
        spec_binom(n1, k) <= spec_binom(n2, k),
    decreases n2 - n1,
{
    if n1 < n2 {
        lemma_binom_mono(n1, (n2 - 1) as nat, k);
        if k > 0 {
            lemma_binom_le_pow2((n2 - 1) as nat, (k - 1) as nat);
        }
    }
}

/// In an ascending duplicate-free sequence the entry at position `i` is at
/// least `i`.
pub proof fn lemma_sorted_distinct_lower(s: Seq<u8>)
    requires
        sorted_by(s, u8_le()),
        s.no_duplicates(),
    ensures
        forall|i: int| 0 <= i < s.len() ==> s[i] >= i,
    decreases s.len(),
{
    let leq = u8_le();
    if s.len() > 0 {
        let front = s.drop_last();
        assert(forall|i: int| 0 <= i < front.len() ==> front[i] == s[i]);
        assert forall|a: int, b: int| 0 <= a < b < front.len() implies #[trigger] leq(
            front[a],
            front[b],
        ) by {
            assert(leq(s[a], s[b]));
        }
        assert(front.no_duplicates());
        lemma_sorted_distinct_lower(front);
        if s.len() >= 2 {
            assert(leq(s[s.len() - 2], s[s.len() - 1]));
            assert(s[s.len() - 2] != s[s.len() - 1]);
            assert(s[s.len() - 2] >= s.len() - 2);
        }
    }
}

/// Exact bound for the co-lex sum: a sorted duplicate-free index sequence
/// with entries below `n` ranks below `C(n, len)`.
pub proof fn lemma_crank_bound(s: Seq<u8>, n: nat)
    requires
        sorted_by(s, u8_le()),
        s.no_duplicates(),
        forall|i: int| 0 <= i < s.len() ==> s[i] < n,
    ensures
        crank(s) < spec_binom(n, s.len() as nat),
    decreases s.len(),
{
    let leq = u8_le();
    if s.len() == 0 {
        assert(spec_binom(n, 0) == 1);
    } else {
        let front = s.drop_last();
        let last = s.last();
        assert(forall|i: int| 0 <= i < front.len() ==> front[i] == s[i]);
        assert forall|a: int, b: int| 0 <= a < b < front.len() implies #[trigger] leq(
            front[a],
            front[b],
        ) by {
            assert(leq(s[a], s[b]));
        }
        assert(front.no_duplicates());
        assert forall|i: int| 0 <= i < front.len() implies front[i] < last by {
            assert(leq(s[i], s[s.len() - 1]));
            assert(s[i] != s[s.len() - 1]);
        }
        lemma_crank_bound(front, last as nat);
        lemma_binom_mono((last + 1) as nat, n, s.len() as nat);
        assert(spec_binom((last + 1) as nat, s.len() as nat) == spec_binom(
            last as nat,
            (s.len() - 1) as nat,
        ) + spec_binom(last as nat, s.len() as nat));
    }
}

pub proof fn lemma_count_lt_push(s: Seq<u8>, y: u8, x: u8)
    ensures
        count_lt(s.push(y), x) == count_lt(s, x) + (if y < x {
            1nat
        } else {
            0nat
        }),
    decreases s.len(),
{
    if s.len() == 0 {
        assert(s.push(y)[0] == y);
        assert(s.push(y).drop_first() =~= Seq::empty());
    } else {
        assert(s.push(y)[0] == s[0]);
        assert(s.push(y).drop_first() =~= s.drop_first().push(y));
        assert(s.push(y)[0] == s[0]);
        lemma_count_lt_push(s.drop_first(), y, x);
    }
}

pub proof fn lemma_count_lt_le(s: Seq<u8>, x: u8)
    ensures
        count_lt(s, x) <= s.len(),
    decreases s.len(),
{
    if s.len() > 0 {
        lemma_count_lt_le(s.drop_first(), x);
    }
}

pub proof fn lemma_fact_mono(a: nat, b: nat)
    requires
        a <= b,
    ensures
        fact(a) <= fact(b),
        fact(a) >= 1,
    decreases b,
{
    if a == b {
        if a > 0 {
            lemma_fact_mono((a - 1) as nat, (a - 1) as nat);
            assert(fact(a) == a * fact((a - 1) as nat));
            assert(fact(a) >= fact((a - 1) as nat)) by (nonlinear_arith)
                requires
                    fact(a) == a * fact((a - 1) as nat),
                    a >= 1,
                    fact((a - 1) as nat) >= 1,
            ;
        }
    } else {
        lemma_fact_mono(a, (b - 1) as nat);
        assert(fact(b) == b * fact((b - 1) as nat));
        assert(fact(b) >= fact((b - 1) as nat)) by (nonlinear_arith)
            requires
                fact(b) == b * fact((b - 1) as nat),
                b >= 1,
                fact((b - 1) as nat) >= 1,
        ;
    }
}

/// A factorial-base rank is below the factorial of the length.
pub proof fn lemma_lex_rank_bound(s: Seq<u8>)
    ensures
        lex_rank(s) < fact(s.len() as nat),
    decreases s.len(),
{
    if s.len() == 0 {
    } else {
        let t = s.drop_first();
        lemma_lex_rank_bound(t);
        lemma_count_lt_le(t, s[0]);
        lemma_fact_mono(0, t.len() as nat);
        let c = count_lt(t, s[0]);
        let f = fact(t.len() as nat);
        assert(c * f <= t.len() * f) by (nonlinear_arith)
            requires
                c <= t.len(),
                f >= 1,
        ;
        assert(fact(s.len() as nat) == s.len() * fact((s.len() - 1) as nat));
        assert(s.len() * f == t.len() * f + f) by (nonlinear_arith)
            requires
                s.len() == t.len() + 1,
        ;
    }
}

pub proof fn lemma_inv_count_bound(s: Seq<u8>)
    ensures
        inv_count(s) <= s.len() * s.len(),
    decreases s.len(),
{
    if s.len() > 0 {
        let t = s.drop_first();
        lemma_inv_count_bound(t);
        lemma_count_lt_le(t, s[0]);
        assert(t.len() * t.len() + t.len() <= s.len() * s.len()) by (nonlinear_arith)
            requires
                s.len() == t.len() + 1,
        ;
    }
}

/// Striking two values out of a duplicate-free ordering keeps it
/// duplicate-free, keeps exactly the other values, and (when both are
/// present) shortens it by two.
pub proof fn lemma_remove2_props(s: Seq<u8>, a: u8, b: u8)
    requires
        s.no_duplicates(),
        a != b,
    ensures
        remove2(s, a, b).no_duplicates(),
        forall|x: u8| #[trigger] remove2(s, a, b).contains(x) <==> (s.contains(x) && x != a && x
            != b),
        remove2(s, a, b).len() == s.len() - (if s.contains(a) {
            1int
        } else {
            0int
        }) - (if s.contains(b) {
            1int
        } else {
            0int
        }),
    decreases s.len(),
{
    if s.len() == 0 {
        assert(forall|x: u8| !remove2(s, a, b).contains(x));
        assert(forall|x: u8| !s.contains(x));
    } else {
        let front = s.drop_last();
        let last = s.last();
        assert(front.no_duplicates());
        lemma_remove2_props(front, a, b);
        let rest = remove2(front, a, b);
        assert forall|x: u8| #[trigger] s.contains(x) implies (front.contains(x) || x == last) by {
            let i = choose|i: int| 0 <= i < s.len() && s[i] == x;
            if i < s.len() - 1 {
                assert(front[i] == x);
            }
        }
        assert(forall|x: u8| front.contains(x) ==> s.contains(x));
        assert(s.contains(last));
        assert(!front.contains(last));
        if last == a || last == b {
            assert(remove2(s, a, b) == rest);
        } else {
            let r = rest.push(last);
            assert(remove2(s, a, b) == r);
            assert(!rest.contains(last));
            assert forall|x: u8| #[trigger] r.contains(x) implies (s.contains(x) && x != a && x
                != b) by {
                let i = choose|i: int| 0 <= i < r.len() && r[i] == x;
                if i < rest.len() {
                    assert(rest[i] == x);
                    assert(rest.contains(x));
                } else {
                    assert(x == last);
                }
            }
            assert forall|x: u8| (s.contains(x) && x != a && x != b) implies #[trigger] r.contains(
                x,
            ) by {
                if x == last {
                    assert(r[r.len() - 1] == x);
                } else {
                    assert(front.contains(x));
                    assert(rest.contains(x));
                    let i = choose|i: int| 0 <= i < rest.len() && rest[i] == x;
                    assert(r[i] == x);
                }
            }
        }
    }
}

pub proof fn lemma_fact_values()
    ensures
        fact(0) == 1,
        fact(1) == 1,
        fact(2) == 2,
        fact(3) == 6,
        fact(4) == 24,
        fact(5) == 120,
        fact(6) == 720,
        fact(7) == 5040,
        fact(8) == 40320,
        fact(9) == 362880,
        fact(10) == 3628800,
        fact(11) == 39916800,
        fact(12) == 479001600,
{

    assert(fact(1) == 1 * fact(0));
    assert(fact(2) == 2 * fact(1));
    assert(fact(3) == 3 * fact(2));
    assert(fact(4) == 4 * fact(3));
    assert(fact(5) == 5 * fact(4));
    assert(fact(6) == 6 * fact(5));
    assert(fact(7) == 7 * fact(6));
    assert(fact(8) == 8 * fact(7));
    assert(fact(9) == 9 * fact(8));
    assert(fact(10) == 10 * fact(9));
    assert(fact(11) == 11 * fact(10));
    assert(fact(12) == 12 * fact(11));
}

pub proof fn lemma_pow2_values()
    ensures
        pow2(0) == 1,
        pow2(1) == 2,
        pow2(2) == 4,
        pow2(3) == 8,
        pow2(4) == 16,
        pow2(5) == 32,
        pow2(6) == 64,
        pow2(7) == 128,
        pow2(8) == 256,
        pow2(9) == 512,
        pow2(10) == 1024,
        pow2(11) == 2048,
        pow2(12) == 4096,
{
    assert(pow2(1) == 2 * pow2(0));
    assert(pow2(2) == 2 * pow2(1));
    assert(pow2(3) == 2 * pow2(2));
    assert(pow2(4) == 2 * pow2(3));
    assert(pow2(5) == 2 * pow2(4));
    assert(pow2(6) == 2 * pow2(5));
    assert(pow2(7) == 2 * pow2(6));
    assert(pow2(8) == 2 * pow2(7));
    assert(pow2(9) == 2 * pow2(8));
    assert(pow2(10) == 2 * pow2(9));
    assert(pow2(11) == 2 * pow2(10));
    assert(pow2(12) == 2 * pow2(11));
}

pub proof fn lemma_binom_values()
    ensures
        spec_binom(0, 1) == 0,
        spec_binom(1, 1) == 1,
        spec_binom(2, 1) == 2,
        spec_binom(3, 1) == 3,
        spec_binom(4, 1) == 4,
        spec_binom(5, 1) == 5,
        spec_binom(6, 1) == 6,
        spec_binom(7, 1) == 7,
        spec_binom(8, 1) == 8,
        spec_binom(9, 1) == 9,
        spec_binom(10, 1) == 10,
        spec_binom(11, 1) == 11,
        spec_binom(12, 1) == 12,
        spec_binom(0, 2) == 0,
        spec_binom(1, 2) == 0,
        spec_binom(2, 2) == 1,
        spec_binom(3, 2) == 3,
        spec_binom(4, 2) == 6,
        spec_binom(5, 2) == 10,
        spec_binom(6, 2) == 15,
        spec_binom(7, 2) == 21,
        spec_binom(8, 2) == 28,
        spec_binom(9, 2) == 36,
        spec_binom(10, 2) == 45,
        spec_binom(11, 2) == 55,
        spec_binom(12, 2) == 66,
        spec_binom(0, 3) == 0,
        spec_binom(1, 3) == 0,
        spec_binom(2, 3) == 0,
        spec_binom(3, 3) == 1,
        spec_binom(4, 3) == 4,
        spec_binom(5, 3) == 10,
        spec_binom(6, 3) == 20,
        spec_binom(7, 3) == 35,
        spec_binom(8, 3) == 56,
        spec_binom(9, 3) == 84,
        spec_binom(10, 3) == 120,
        spec_binom(11, 3) == 165,
        spec_binom(12, 3) == 220,
        spec_binom(0, 4) == 0,
        spec_binom(1, 4) == 0,
        spec_binom(2, 4) == 0,
        spec_binom(3, 4) == 0,
        spec_binom(4, 4) == 1,
        spec_binom(5, 4) == 5,
        spec_binom(6, 4) == 15,
        spec_binom(7, 4) == 35,
        spec_binom(8, 4) == 70,
        spec_binom(9, 4) == 126,
        spec_binom(10, 4) == 210,
        spec_binom(11, 4) == 330,
        spec_binom(12, 4) == 495,
{
    assert(spec_binom(1, 1) == spec_binom(0, 0) + spec_binom(0, 1));
    assert(spec_binom(2, 1) == spec_binom(1, 0) + spec_binom(1, 1));
    assert(spec_binom(3, 1) == spec_binom(2, 0) + spec_binom(2, 1));
    assert(spec_binom(4, 1) == spec_binom(3, 0) + spec_binom(3, 1));
    assert(spec_binom(5, 1) == spec_binom(4, 0) + spec_binom(4, 1));
    assert(spec_binom(6, 1) == spec_binom(5, 0) + spec_binom(5, 1));
    assert(spec_binom(7, 1) == spec_binom(6, 0) + spec_binom(6, 1));
    assert(spec_binom(8, 1) == spec_binom(7, 0) + spec_binom(7, 1));
    assert(spec_binom(9, 1) == spec_binom(8, 0) + spec_binom(8, 1));
    assert(spec_binom(10, 1) == spec_binom(9, 0) + spec_binom(9, 1));
    assert(spec_binom(11, 1) == spec_binom(10, 0) + spec_binom(10, 1));
    assert(spec_binom(12, 1) == spec_binom(11, 0) + spec_binom(11, 1));
    assert(spec_binom(1, 2) == spec_binom(0, 1) + spec_binom(0, 2));
    assert(spec_binom(2, 2) == spec_binom(1, 1) + spec_binom(1, 2));
    assert(spec_binom(3, 2) == spec_binom(2, 1) + spec_binom(2, 2));
    assert(spec_binom(4, 2) == spec_binom(3, 1) + spec_binom(3, 2));
    assert(spec_binom(5, 2) == spec_binom(4, 1) + spec_binom(4, 2));
    assert(spec_binom(6, 2) == spec_binom(5, 1) + spec_binom(5, 2));
    assert(spec_binom(7, 2) == spec_binom(6, 1) + spec_binom(6, 2));
    assert(spec_binom(8, 2) == spec_binom(7, 1) + spec_binom(7, 2));
    assert(spec_binom(9, 2) == spec_binom(8, 1) + spec_binom(8, 2));
    assert(spec_binom(10, 2) == spec_binom(9, 1) + spec_binom(9, 2));
    assert(spec_binom(11, 2) == spec_binom(10, 1) + spec_binom(10, 2));
    assert(spec_binom(12, 2) == spec_binom(11, 1) + spec_binom(11, 2));
    assert(spec_binom(1, 3) == spec_binom(0, 2) + spec_binom(0, 3));
    assert(spec_binom(2, 3) == spec_binom(1, 2) + spec_binom(1, 3));
    assert(spec_binom(3, 3) == spec_binom(2, 2) + spec_binom(2, 3));
    assert(spec_binom(4, 3) == spec_binom(3, 2) + spec_binom(3, 3));
    assert(spec_binom(5, 3) == spec_binom(4, 2) + spec_binom(4, 3));
    assert(spec_binom(6, 3) == spec_binom(5, 2) + spec_binom(5, 3));
    assert(spec_binom(7, 3) == spec_binom(6, 2) + spec_binom(6, 3));
    assert(spec_binom(8, 3) == spec_binom(7, 2) + spec_binom(7, 3));
    assert(spec_binom(9, 3) == spec_binom(8, 2) + spec_binom(8, 3));
    assert(spec_binom(10, 3) == spec_binom(9, 2) + spec_binom(9, 3));
    assert(spec_binom(11, 3) == spec_binom(10, 2) + spec_binom(10, 3));
    assert(spec_binom(12, 3) == spec_binom(11, 2) + spec_binom(11, 3));
    assert(spec_binom(1, 4) == spec_binom(0, 3) + spec_binom(0, 4));
    assert(spec_binom(2, 4) == spec_binom(1, 3) + spec_binom(1, 4));
    assert(spec_binom(3, 4) == spec_binom(2, 3) + spec_binom(2, 4));
    assert(spec_binom(4, 4) == spec_binom(3, 3) + spec_binom(3, 4));
    assert(spec_binom(5, 4) == spec_binom(4, 3) + spec_binom(4, 4));
    assert(spec_binom(6, 4) == spec_binom(5, 3) + spec_binom(5, 4));
    assert(spec_binom(7, 4) == spec_binom(6, 3) + spec_binom(6, 4));
    assert(spec_binom(8, 4) == spec_binom(7, 3) + spec_binom(7, 4));
    assert(spec_binom(9, 4) == spec_binom(8, 3) + spec_binom(8, 4));
    assert(spec_binom(10, 4) == spec_binom(9, 3) + spec_binom(9, 4));
    assert(spec_binom(11, 4) == spec_binom(10, 3) + spec_binom(10, 4));
    assert(spec_binom(12, 4) == spec_binom(11, 3) + spec_binom(11, 4));
}

/// Binomial coefficient `C(n, k)`: exact for every `n` up to twelve.
pub fn binom(n: usize, k: usize) -> (r: usize)
    requires
        n <= 12,
    ensures
        r == spec_binom(n as nat, k as nat),
        r <= 4096,
    decreases n, k,
{
    proof {
        lemma_binom_le_pow2(n as nat, k as nat);
        lemma_pow2_values();
        lemma_pow2_mono(n as nat, 12);
        if n >= 1 {
            lemma_binom_le_pow2((n - 1) as nat, (k - 1) as nat);
            lemma_binom_le_pow2((n - 1) as nat, k as nat);
            lemma_pow2_mono((n - 1) as nat, 12);
        }
    }
    if k == 0 {
        1
    } else if n == 0 {
        0
    } else {
        binom(n - 1, k - 1) + binom(n - 1, k)
    }
}

/// `n` factorial, exact for `n` up to twelve.
pub fn factorial(n: usize) -> (r: usize)
    requires
        n <= 12,
    ensures
        r == fact(n as nat),
{
    proof {
        lemma_fact_values();
    }
    let mut r: usize = 1;
    let mut i: usize = 0;
    while i < n
        invariant
            i <= n,
            n <= 12,
            r == fact(i as nat),
        decreases n - i,
    {
        proof {
            lemma_fact_mono((i + 1) as nat, 12);
            lemma_fact_values();
            assert(fact((i + 1) as nat) == (i + 1) * fact(i as nat));
            assert(r * (i + 1) == fact((i + 1) as nat)) by (nonlinear_arith)
                requires
                    r == fact(i as nat),
                    fact((i + 1) as nat) == (i + 1) * fact(i as nat),
            ;
        }
        i = i + 1;
        r = r * i;
    }
    r
}

/// First index holding `x`, if any.
pub fn find_in(list: &Vec<u8>, x: u8) -> (r: Option<usize>)
    ensures
        match r {
            Some(i) => i < list.len() && list@[i as int] == x && forall|j: int|
                0 <= j < i ==> list@[j] != x,
            None => !list@.contains(x),
        },
{
    let mut i: usize = 0;
    while i < list.len()
        invariant
            i <= list.len(),
            forall|j: int| 0 <= j < i ==> list@[j] != x,
        decreases list.len() - i,
    {
        if list[i] == x {
            return Some(i);
        }
        i += 1;
    }
    None
}

/// With no duplicates, the first index is the index.
pub proof fn lemma_idx_of_unique(s: Seq<u8>, x: u8, i: int)
    requires
        s.no_duplicates(),
        0 <= i < s.len(),
        s[i] == x,
    ensures
        idx_of(s, x) == i,
{
    let j = idx_of(s, x);
    assert(0 <= j < s.len() && s[j] == x);
}

/// Map each element of `c` to its index in the duplicate-free ordering
/// `ord`; `None` when some element does not occur.
fn map_to_indices(c: &Vec<u8>, ord: &Vec<u8>) -> (r: Option<Vec<u8>>)
    requires
        ord.len() <= 255,
        ord@.no_duplicates(),
    ensures
        match r {
            Some(pi) => pi@ == map_idx(c@, ord@) && (forall|i: int|
                0 <= i < c@.len() ==> ord@.contains(c@[i])),
            None => exists|i: int| 0 <= i < c@.len() && !ord@.contains(c@[i]),
        },
{
    let mut pi: Vec<u8> = Vec::new();
    let mut i: usize = 0;
    while i < c.len()
        invariant
            i <= c.len(),
            ord.len() <= 255,
            ord@.no_duplicates(),
            pi@ =~= map_idx(c@, ord@).take(i as int),
            forall|j: int| 0 <= j < i ==> ord@.contains(c@[j]),
        decreases c.len() - i,
    {
        match find_in(ord, c[i]) {
            Some(p) => {
                proof {
                    lemma_idx_of_unique(ord@, c@[i as int], p as int);
                }
                pi.push(p as u8);
                proof {
                    assert(pi@ =~= map_idx(c@, ord@).take(i + 1));
                }
            },
            None => {
                return None;
            },
        }
        i += 1;
    }
    proof {
        assert(map_idx(c@, ord@).take(c@.len() as int) =~= map_idx(c@, ord@));
    }
    Some(pi)
}

/// Sort ascending by insertion.
fn sort_vec(v: &Vec<u8>) -> (r: Vec<u8>)
    ensures
        r@ == sort_u8(v@),
        r@.to_multiset() == v@.to_multiset(),
        sorted_by(r@, u8_le()),
{
    proof {
        broadcast use vstd::seq_lib::group_to_multiset_ensures;

    }
    let mut r: Vec<u8> = Vec::new();
    let mut i: usize = 0;
    while i < v.len()
        invariant
            i <= v.len(),
            sorted_by(r@, u8_le()),
            r@.to_multiset() == v@.take(i as int).to_multiset(),
        decreases v.len() - i,
    {
        let x = v[i];
        let mut p: usize = 0;
        while p < r.len() && r[p] < x
            invariant
                p <= r.len(),
                forall|j: int| 0 <= j < p ==> r@[j] < x,
            decreases r.len() - p,
        {
            p += 1;
        }
        proof {
            broadcast use vstd::seq_lib::group_to_multiset_ensures;

            assert(p < r@.len() ==> x <= r@[p as int]);
        }
        let ghost old_r = r@;
        r.insert(p, x);
        proof {
            broadcast use vstd::seq_lib::group_to_multiset_ensures;

            assert(r@ == old_r.insert(p as int, x));
            assert forall|a: int, bq: int| 0 <= a < bq < r@.len() implies u8_le()(
                r@[a],
                r@[bq],
            ) by {
                if a < p && bq < p {
                    assert(r@[a] == old_r[a] && r@[bq] == old_r[bq]);
                } else if a < p && bq == p {
                    assert(r@[a] == old_r[a] && r@[bq] == x);
                } else if a < p && bq > p {
                    assert(r@[a] == old_r[a] && r@[bq] == old_r[bq - 1]);
                    assert(u8_le()(old_r[a], old_r[bq - 1]));
                } else if a == p && bq > p {
                    assert(r@[a] == x && r@[bq] == old_r[bq - 1]);
                    assert(bq - 1 >= p);
                    if bq - 1 == p {
                        assert(old_r.len() > p);
                        assert(x <= old_r[p as int]);
                    } else {
                        assert(u8_le()(old_r[p as int], old_r[bq - 1]));
                        assert(x <= old_r[p as int]);
                    }
                } else {
                    assert(a > p);
                    assert(r@[a] == old_r[a - 1] && r@[bq] == old_r[bq - 1]);
                    assert(u8_le()(old_r[a - 1], old_r[bq - 1]));
                }
            }
            assert(v@.take(i + 1) =~= v@.take(i as int).push(x));
            assert(r@.to_multiset() == v@.take(i + 1).to_multiset());
        }
        i += 1;
    }
    proof {
        assert(v@.take(v@.len() as int) =~= v@);
        let leq = u8_le();
        assert(vstd::relations::reflexive(leq));
        assert(vstd::relations::antisymmetric(leq));
        assert(vstd::relations::transitive(leq));
        assert(vstd::relations::strongly_connected(leq));
        assert(total_ordering(leq));
        v@.lemma_sort_by_ensures(leq);
        lemma_sorted_unique(r@, v@.sort_by(leq), leq);
    }
    r
}

/// The ordering with the two named values struck out, in order.
pub fn remove_two(s: &Vec<u8>, a: u8, b: u8) -> (r: Vec<u8>)
    ensures
        r@ == remove2(s@, a, b),
{
    let mut r: Vec<u8> = Vec::new();
    let mut i: usize = 0;
    while i < s.len()
        invariant
            i <= s.len(),
            r@ == remove2(s@.take(i as int), a, b),
        decreases s.len() - i,
    {
        let x = s[i];
        proof {
            assert(s@.take(i + 1).drop_last() =~= s@.take(i as int));
            assert(s@.take(i + 1).last() == s@[i as int]);
        }
        if x != a && x != b {
            r.push(x);
        }
        i += 1;
    }
    proof {
        assert(s@.take(s@.len() as int) =~= s@);
    }
    r
}

/// Co-lexicographic rank of `combination` among the equal-sized subsets of
/// the ordered ground set `ordering`.
pub fn combination_rank(combination: &Vec<u8>, ordering: &Vec<u8>) -> (r: usize)
    requires
        ordering.len() <= 12,
        combination.len() <= ordering.len(),
        ordering@.no_duplicates(),
        combination@.no_duplicates(),
        forall|i: int| 0 <= i < combination@.len() ==> ordering@.contains(combination@[i]),
    ensures
        r == comb_rank(combination@, ordering@),
        r < spec_binom(ordering@.len() as nat, combination@.len() as nat),
{
    let n = ordering.len();
    let pi = match map_to_indices(combination, ordering) {
        Some(pi) => pi,
        None => {
            proof {
                assert(false);
            }
            return 0;
        },
    };
    proof {
        assert forall|i: int| 0 <= i < pi@.len() implies pi@[i] < n by {
            assert(ordering@.contains(combination@[i]));
        }
        assert forall|i: int, j: int| 0 <= i < j < pi@.len() implies pi@[i] != pi@[j] by {
            assert(ordering@.contains(combination@[i]));
            assert(ordering@.contains(combination@[j]));
            if pi@[i] == pi@[j] {
                assert(ordering@[idx_of(ordering@, combination@[i])] == combination@[i]);
                assert(ordering@[idx_of(ordering@, combination@[j])] == combination@[j]);
            }
        }
        pi@.lemma_multiset_has_no_duplicates();
    }
    let s = sort_vec(&pi);
    proof {
        assert(s@.to_multiset().len() == s@.len());
        assert(pi@.to_multiset().len() == pi@.len());
        assert(s@.len() == pi@.len());
        s@.lemma_multiset_has_no_duplicates_conv();
        assert forall|i: int| 0 <= i < s@.len() implies s@[i] < n by {
            assert(s@.to_multiset().contains(s@[i]));
            assert(pi@.contains(s@[i]));
        }
    }
    let k = s.len();
    let mut acc: usize = 0;
    let mut i: usize = 0;
    proof {
        assert(s@.take(0) =~= Seq::<u8>::empty());
    }
    while i < k
        invariant
            i <= k,
            k == s@.len(),
            k <= n <= 12,
            n == ordering@.len(),
            sorted_by(s@, u8_le()),
            s@.no_duplicates(),
            forall|j: int| 0 <= j < s@.len() ==> s@[j] < n,
            acc == crank(s@.take(i as int)),
            acc <= 4096,
        decreases k - i,
    {
        proof {
            assert(s@.take(i + 1).drop_last() =~= s@.take(i as int));
            assert(s@.take(i + 1).last() == s@[i as int]);
            let leq = u8_le();
            assert forall|a: int, b: int| 0 <= a < b < s@.take(i + 1).len() implies #[trigger] leq(
                s@.take(i + 1)[a],
                s@.take(i + 1)[b],
            ) by {
                assert(leq(s@[a], s@[b]));
            }
            assert(sorted_by(s@.take(i + 1), u8_le()));
            assert(s@.take(i + 1).no_duplicates());
            lemma_crank_bound(s@.take(i + 1), n as nat);
            lemma_binom_le_pow2(n as nat, (i + 1) as nat);
            lemma_pow2_values();
            lemma_pow2_mono(n as nat, 12);
        }
        acc = acc + binom(s[i] as usize, i + 1);
        i += 1;
    }
    proof {
        assert(s@.take(k as int) =~= s@);
        lemma_crank_bound(s@, n as nat);
        assert(crank(s@) == comb_rank(combination@, ordering@));
        assert(s@.len() == combination@.len());
    }
    acc
}

/// Lexicographic rank of `permutation` as a rearrangement of the reference
/// sequence `initial`: the standard factorial-base rank.
pub fn permutation_rank(permutation: &Vec<u8>, initial: &Vec<u8>) -> (r: usize)
    requires
        initial.len() <= 12,
        permutation.len() <= initial.len(),
        initial@.no_duplicates(),
        forall|i: int| 0 <= i < permutation@.len() ==> initial@.contains(permutation@[i]),
    ensures
        r == perm_rank(permutation@, initial@),
        r < fact(permutation@.len() as nat),
{
    let pi = match map_to_indices(permutation, initial) {
        Some(pi) => pi,
        None => {
            proof {
                assert(false);
            }
            return 0;
        },
    };
    let n = pi.len();
    let mut acc: usize = 0;
    let mut i: usize = 0;
    proof {
        assert(pi@.skip(0) =~= pi@);
        lemma_lex_rank_bound(pi@);
        lemma_fact_mono(pi@.len() as nat, 12);
        lemma_fact_values();
    }
    while i < n
        invariant
            i <= n,
            n == pi@.len(),
            n <= 12,
            acc + lex_rank(pi@.skip(i as int)) == lex_rank(pi@),
            lex_rank(pi@) < fact(n as nat),
            fact(n as nat) <= 479001600,
        decreases n - i,
    {
        let mut q: usize = 0;
        let mut j: usize = i + 1;
        while j < n
            invariant
                i < j <= n,
                n == pi@.len(),
                q == count_lt(pi@.subrange(i + 1, j as int), pi@[i as int]),
                q <= j - i - 1,
            decreases n - j,
        {
            proof {
                assert(pi@.subrange(i + 1, j + 1) =~= pi@.subrange(i + 1, j as int).push(
                    pi@[j as int],
                ));
                lemma_count_lt_push(pi@.subrange(i + 1, j as int), pi@[j as int], pi@[i as int]);
            }
            if pi[j] < pi[i] {
                q += 1;
            }
            j += 1;
        }
        let f = factorial(n - 1 - i);
        proof {
            let tail = pi@.skip(i as int);
            assert(tail.drop_first() =~= pi@.skip(i + 1));
            assert(tail[0] == pi@[i as int]);
            assert(pi@.subrange(i + 1, n as int) =~= pi@.skip(i + 1));
            assert(lex_rank(tail) == count_lt(pi@.skip(i + 1), pi@[i as int]) * fact(
                (n - 1 - i) as nat,
            ) + lex_rank(pi@.skip(i + 1)));
        }
        acc = acc + q * f;
        i += 1;
    }
    proof {
        assert(pi@.skip(n as int) =~= Seq::<u8>::empty());
        assert(lex_rank(pi@.skip(n as int)) == 0);
    }
    acc
}

/// Parity of the permutation carrying `initial` to `permutation`: true for
/// an odd number of inversions.
pub fn permutation_parity(permutation: &Vec<u8>, initial: &Vec<u8>) -> (r: bool)
    requires
        initial.len() <= 12,
        permutation.len() <= initial.len(),
        initial@.no_duplicates(),
        forall|i: int| 0 <= i < permutation@.len() ==> initial@.contains(permutation@[i]),
    ensures
        r == perm_parity(permutation@, initial@),
{
    let pi = match map_to_indices(permutation, initial) {
        Some(pi) => pi,
        None => {
            proof {
                assert(false);
            }
            return false;
        },
    };
    let n = pi.len();
    let mut total: usize = 0;
    let mut i: usize = 0;
    proof {
        assert(pi@.skip(0) =~= pi@);
        lemma_inv_count_bound(pi@);
        assert(pi@.len() * pi@.len() <= 144) by (nonlinear_arith)
            requires
                pi@.len() <= 12,
        ;
    }
    while i < n
        invariant
            i <= n,
            n == pi@.len(),
            n <= 12,
            total + inv_count(pi@.skip(i as int)) == inv_count(pi@),
            inv_count(pi@) <= 144,
        decreases n - i,
    {
        let mut q: usize = 0;
        let mut j: usize = i + 1;
        while j < n
            invariant
                i < j <= n,
                n == pi@.len(),
                q == count_lt(pi@.subrange(i + 1, j as int), pi@[i as int]),
                q <= j - i - 1,
            decreases n - j,
        {
            proof {
                assert(pi@.subrange(i + 1, j + 1) =~= pi@.subrange(i + 1, j as int).push(
                    pi@[j as int],
                ));
                lemma_count_lt_push(pi@.subrange(i + 1, j as int), pi@[j as int], pi@[i as int]);
            }
            if pi[j] < pi[i] {
                q += 1;
            }
            j += 1;
        }
        proof {
            let tail = pi@.skip(i as int);
            assert(tail.drop_first() =~= pi@.skip(i + 1));
            assert(tail[0] == pi@[i as int]);
            assert(pi@.subrange(i + 1, n as int) =~= pi@.skip(i + 1));
            assert(inv_count(tail) == count_lt(pi@.skip(i + 1), pi@[i as int]) + inv_count(
                pi@.skip(i + 1),
            ));
        }
        total = total + q;
        i += 1;
    }
    proof {
        assert(pi@.skip(n as int) =~= Seq::<u8>::empty());
        assert(inv_count(pi@.skip(n as int)) == 0);
    }
    total % 2 == 1
}

/// Rank of two unordered pairs drawn in turn from a six-element ordered
/// ground set: the first pair ranked in the full set, the second in what
/// remains.
pub open spec fn paired_index(cp: Seq<u8>, pos: Seq<u8>) -> nat {
    comb_rank(cp.subrange(0, 2), pos) * spec_binom(4, 2) + comb_rank(
        cp.subrange(2, 4),
        remove2(pos, cp[0], cp[1]),
    )
}

/// Index of the two leading pairs of `corner_positions` among the ordered
/// ground set `positions`, the second pair ranked after the first pair's
/// values are struck out.
pub fn paired_combination_index(corner_positions: &Vec<u8>, positions: Vec<u8>) -> (r: usize)
    requires
        corner_positions.len() >= 4,
        corner_positions@.subrange(0, 4).no_duplicates(),
        positions.len() == 6,
        positions@.no_duplicates(),
        forall|i: int| 0 <= i < 4 ==> positions@.contains(corner_positions@[i]),
    ensures
        r == paired_index(corner_positions@, positions@),
        r < 90,
{
    proof {
        let q = corner_positions@.subrange(0, 4);
        assert(q[0] == corner_positions@[0] && q[1] == corner_positions@[1] && q[2]
            == corner_positions@[2] && q[3] == corner_positions@[3]);
        assert(corner_positions@[0] != corner_positions@[1] && corner_positions@[0]
            != corner_positions@[2] && corner_positions@[0] != corner_positions@[3]
            && corner_positions@[1] != corner_positions@[2] && corner_positions@[1]
            != corner_positions@[3] && corner_positions@[2] != corner_positions@[3]);
    }
    let mut pair1: Vec<u8> = Vec::new();
    pair1.push(corner_positions[0]);
    pair1.push(corner_positions[1]);
    proof {
        assert(pair1@ =~= corner_positions@.subrange(0, 2));
        assert(pair1@.no_duplicates());
    }
    let r1 = combination_rank(&pair1, &positions);
    let rem = remove_two(&positions, corner_positions[0], corner_positions[1]);
    proof {
        lemma_remove2_props(positions@, corner_positions@[0], corner_positions@[1]);
    }
    let mut pair2: Vec<u8> = Vec::new();
    pair2.push(corner_positions[2]);
    pair2.push(corner_positions[3]);
    proof {
        assert(pair2@ =~= corner_positions@.subrange(2, 4));
        assert(pair2@.no_duplicates());
        assert(rem@.contains(corner_positions@[2]));
        assert(rem@.contains(corner_positions@[3]));
    }
    let r2 = combination_rank(&pair2, &rem);
    let m = binom(4, 2);
    proof {
        lemma_binom_values();
    }
    r1 * m + r2
}

} // verus!
