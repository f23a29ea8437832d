//! Integer square roots: the mathematical model and the executable root.

use vstd::prelude::*;

verus! {

/// `s` is the floor of the square root of `n`.
pub open spec fn is_floor_sqrt(n: nat, s: nat) -> bool {
    s * s <= n < (s + 1) * (s + 1)
}

/// The floor of the square root of `n`: the one `s` with `s² ≤ n < (s+1)²`.
pub open spec fn floor_sqrt(n: nat) -> nat {
    choose|s: nat| is_floor_sqrt(n, s)
}

/// At most one number is the floor of the square root of `n`.
pub proof fn lemma_floor_sqrt_unique(n: nat, s1: nat, s2: nat)
    requires
        is_floor_sqrt(n, s1),
        is_floor_sqrt(n, s2),
    ensures
        s1 == s2,
{
    if s1 < s2 {
        assert((s1 + 1) * (s1 + 1) <= s2 * s2) by (nonlinear_arith)
            requires
                s1 + 1 <= s2,
        ;
    } else if s2 < s1 {
        assert((s2 + 1) * (s2 + 1) <= s1 * s1) by (nonlinear_arith)
            requires
                s2 + 1 <= s1,
        ;
    }
}

/// Every number has a floor square root; the proof builds one by counting up.
proof fn lemma_floor_sqrt_exists(n: nat) -> (s: nat)
    ensures
        is_floor_sqrt(n, s),
    decreases n,
{
    if n == 0 {
        assert(is_floor_sqrt(0, 0)) by (nonlinear_arith);
        0
    } else {
        let below = lemma_floor_sqrt_exists((n - 1) as nat);
        let next = below + 1;
        if next * next <= n {
            assert(next * next < (next + 1) * (next + 1)) by (nonlinear_arith);
            next
        } else {
            below
        }
    }
}

/// `floor_sqrt(n)` is the floor of the square root of `n`.
pub proof fn lemma_floor_sqrt_bounds(n: nat)
    ensures
        is_floor_sqrt(n, floor_sqrt(n)),
{
    let _ = lemma_floor_sqrt_exists(n);
}

/// Any `s` with `s² ≤ n < (s+1)²` is `floor_sqrt(n)`.
pub proof fn lemma_floor_sqrt_is(n: nat, s: nat)
    requires
        is_floor_sqrt(n, s),
    ensures
        floor_sqrt(n) == s,
{
    lemma_floor_sqrt_bounds(n);
    lemma_floor_sqrt_unique(n, s, floor_sqrt(n));
}

/// The floor square root of a 64-bit number fits in 32 bits.
pub proof fn lemma_floor_sqrt_u64(n: u64)
    ensures
        floor_sqrt(n as nat) <= 0xFFFF_FFFF,
{
    lemma_floor_sqrt_bounds(n as nat);
    let s = floor_sqrt(n as nat);
    if s >= 0x1_0000_0000 {
        assert(s * s >= 0x1_0000_0000 * 0x1_0000_0000) by (nonlinear_arith)
            requires
                s >= 0x1_0000_0000,
        ;
    }
}

/// Calls `num_integer::Roots::sqrt` on a `u64`. The crate documents the result
/// as the truncated square root `r` of its argument `x`, with `r² ≤ x < (r+1)²`;
/// on an unsigned argument it does not panic. That bound is taken on trust.
#[verifier::external_body]
fn truncated_sqrt(n: u64) -> (root: u64)
    ensures
        root * root <= n < (root + 1) * (root + 1),
{
    num_integer::Roots::sqrt(&n)
}

/// The floor of the square root of `n`.
pub fn integer_sqrt(n: u64) -> (root: u64)
    ensures
        root == floor_sqrt(n as nat),
        root <= 0xFFFF_FFFF,
{
    let root = truncated_sqrt(n);
    proof {
        lemma_floor_sqrt_is(n as nat, root as nat);
        lemma_floor_sqrt_u64(n);
    }
    root
}

} // verus!
