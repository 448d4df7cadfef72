//! Assignment enumeration: the i-th boolean assignment for n variables.

use vstd::prelude::*;
use vstd::arithmetic::div_mod::lemma_div_denominator;
use vstd::arithmetic::power2::{
    lemma2_to64, lemma2_to64_rest, lemma_pow2_pos, lemma_pow2_strictly_increases,
    lemma_pow2_unfold, pow2,
};

verus! {

/// The assignment with index `i` for `n` variables: position `j` holds the
/// bit of `i` at weight `2^(n-1-j)`, so the first variable is the most
/// significant bit and index order is binary counting order.
pub open spec fn assignment_seq(i: nat, n: nat) -> Seq<bool> {
    Seq::new(n, |j: int| i / pow2((n - 1 - j) as nat) % 2 == 1)
}

/// The integer encoded by a boolean sequence read as binary digits, the
/// first element most significant.
pub open spec fn bits_to_nat(s: Seq<bool>) -> nat
    decreases s.len(),
{
    if s.len() == 0 {
        0
    } else {
        2 * bits_to_nat(s.drop_last()) + (if s.last() {
            1nat
        } else {
            0nat
        })
    }
}

/// Computes `2^n` for `n` below the width of `u64`.
pub fn pow2_u64(n: usize) -> (r: u64)
    requires
        n < 64,
    ensures
        r as nat == pow2(n as nat),
{
    proof {
        lemma2_to64();
    }
    let mut r: u64 = 1;
    for j in 0..n
        invariant
            n < 64,
            r as nat == pow2(j as nat),
    {
        proof {
            lemma_pow2_strictly_increases((j + 1) as nat, 64);
            lemma2_to64_rest();
            lemma_pow2_unfold((j + 1) as nat);
        }
        r = r * 2;
    }
    r
}

/// Builds the assignment with index `i` for `n` variables.
pub fn assignment(i: u64, n: usize) -> (r: Vec<bool>)
    requires
        n < 64,
        (i as nat) < pow2(n as nat),
    ensures
        r@ == assignment_seq(i as nat, n as nat),
{
    proof {
        lemma2_to64();
    }
    let mut rev: Vec<bool> = Vec::new();
    let mut v: u64 = i;
    for j in 0..n
        invariant
            n < 64,
            v as nat == (i as nat) / pow2(j as nat),
            rev@.len() == j,
            forall|t: int| 0 <= t < j ==> rev@[t] == ((i as nat) / pow2(t as nat) % 2 == 1),
    {
        rev.push(v % 2 == 1);
        proof {
            lemma_pow2_pos(j as nat);
            lemma_div_denominator(i as int, pow2(j as nat) as int, 2);
            lemma_pow2_unfold((j + 1) as nat);
        }
        v = v / 2;
    }
    let mut r: Vec<bool> = Vec::new();
    for j in 0..n
        invariant
            n < 64,
            rev@.len() == n,
            forall|t: int| 0 <= t < n ==> rev@[t] == ((i as nat) / pow2(t as nat) % 2 == 1),
            r@.len() == j,
            forall|t: int| 0 <= t < j ==> r@[t] == rev@[n - 1 - t],
    {
        r.push(rev[n - 1 - j]);
    }
    proof {
        assert(r@ =~= assignment_seq(i as nat, n as nat));
    }
    r
}

/// Assignment `i` of `n` variables encodes exactly the integer `i`: the
/// enumeration is in strictly increasing binary order.
pub proof fn lemma_assignment_value(i: nat, n: nat)
    requires
        i < pow2(n),
    ensures
        bits_to_nat(assignment_seq(i, n)) == i,
    decreases n,
{
    lemma2_to64();
    let s = assignment_seq(i, n);
    if n == 0 {
        assert(s.len() == 0);
    } else {
        let m = (n - 1) as nat;
        assert(s.drop_last() =~= assignment_seq(i / 2, m)) by {
            assert forall|t: int| 0 <= t < m implies s.drop_last()[t] == assignment_seq(
                i / 2,
                m,
            )[t] by {
                lemma_pow2_pos((m - 1 - t) as nat);
                lemma_div_denominator(i as int, 2, pow2((m - 1 - t) as nat) as int);
                lemma_pow2_unfold((n - 1 - t) as nat);
            }
        }
        assert(s.last() == (i / pow2((n - 1 - (n - 1)) as nat) % 2 == 1));
        assert(pow2(0) == 1);
        assert(i / 1 == i) by (nonlinear_arith);
        assert(s.last() == (i % 2 == 1));
        lemma_pow2_unfold(n);
        assert(i / 2 < pow2(m));
        lemma_assignment_value(i / 2, m);
        assert(bits_to_nat(s) == 2 * (i / 2) + i % 2);
    }
}

/// Distinct indices below `2^n` give distinct assignments: the enumerator
/// never repeats a row.
pub proof fn lemma_assignments_distinct(i: nat, k: nat, n: nat)
    requires
        i < pow2(n),
        k < pow2(n),
        i != k,
    ensures
        assignment_seq(i, n) != assignment_seq(k, n),
{
    if assignment_seq(i, n) == assignment_seq(k, n) {
        lemma_assignment_value(i, n);
        lemma_assignment_value(k, n);
    }
}

} // verus!
