//! The three pairing functions as mathematics: each maps a pair of natural
//! numbers to one natural number and back, with no bound on their size.
//!
//! Every one of them is a bijection between pairs and codes, which the lemmas
//! of this module prove in both directions.

use vstd::prelude::*;
use crate::roots::{floor_sqrt, is_floor_sqrt, lemma_floor_sqrt_bounds, lemma_floor_sqrt_is};

verus! {

/// The `n`-th triangular number, `0 + 1 + ... + n`.
pub open spec fn triangular(n: nat) -> nat {
    n * (n + 1) / 2
}

/// Cantor's code of `(l, r)`: pairs are counted along the anti-diagonals
/// `l + r = 0, 1, 2, ...`, and along each one by rising `r`.
pub open spec fn cantor_code(l: nat, r: nat) -> nat {
    triangular(l + r) + r
}

/// The pair that Cantor's code `p` stands for.
pub open spec fn cantor_decode(p: nat) -> (nat, nat) {
    let w = ((floor_sqrt(8 * p + 1) - 1) / 2) as nat;
    let r = (p - triangular(w)) as nat;
    let l = (w - r) as nat;
    (l, r)
}

/// Szudzik's code of `(l, r)`: `r² + l` where `r` is the strict maximum,
/// `l² + l + r` where `l` is the maximum, ties included.
pub open spec fn szudzik_code(l: nat, r: nat) -> nat {
    if l < r {
        r * r + l
    } else {
        l * l + l + r
    }
}

/// The pair that Szudzik's code `p` stands for.
pub open spec fn szudzik_decode(p: nat) -> (nat, nat) {
    let s = floor_sqrt(p);
    let rest = (p - s * s) as nat;
    if rest < s {
        (rest, s)
    } else {
        (s, (rest - s) as nat)
    }
}

/// The larger of the two numbers of a pair: Hagen's shell.
pub open spec fn hagen_shell(l: nat, r: nat) -> nat {
    if l > r {
        l
    } else {
        r
    }
}

/// The smaller of the two numbers of a pair: Hagen's step.
pub open spec fn hagen_step(l: nat, r: nat) -> nat {
    if l > r {
        r
    } else {
        l
    }
}

/// Hagen's flag: 0 where the shell is even and the step is `l`, or the shell
/// is odd and the step is `r`; 1 otherwise.
pub open spec fn hagen_flag(l: nat, r: nat) -> nat {
    let shell = hagen_shell(l, r);
    let step = hagen_step(l, r);
    if (shell % 2 == 0 && step == l) || (shell % 2 == 1 && step == r) {
        0
    } else {
        1
    }
}

/// Hagen's code of `(l, r)`: `shell² + 2·step + flag`.
pub open spec fn hagen_code(l: nat, r: nat) -> nat {
    let shell = hagen_shell(l, r);
    let step = hagen_step(l, r);
    shell * shell + 2 * step + hagen_flag(l, r)
}

/// The pair that Hagen's code `p` stands for: an even code has its step on
/// the left, an odd code on the right.
pub open spec fn hagen_decode(p: nat) -> (nat, nat) {
    let shell = floor_sqrt(p);
    let step = ((p - shell * shell) / 2) as nat;
    if p % 2 == 0 {
        (step, shell)
    } else {
        (shell, step)
    }
}

/// `(s + 1)² = s² + 2s + 1`.
pub proof fn lemma_square_of_successor(s: nat)
    ensures
        (s + 1) * (s + 1) == s * s + 2 * s + 1,
{
    assert((s + 1) * (s + 1) == s * s + 2 * s + 1) by (nonlinear_arith);
}

/// Squaring keeps the order of natural numbers.
pub proof fn lemma_square_is_monotonic(a: nat, b: nat)
    requires
        a <= b,
    ensures
        a * a <= b * b,
{
    assert(a * a <= b * b) by (nonlinear_arith)
        requires
            a <= b,
    ;
}

/// A square is even exactly when its root is.
pub proof fn lemma_square_parity(s: nat)
    ensures
        (s * s) % 2 == s % 2,
{
    let k = s / 2;
    let b = s % 2;
    assert(s * s == 2 * (2 * k * k + 2 * k * b) + b * b) by (nonlinear_arith)
        requires
            s == 2 * k + b,
    ;
    assert(b * b == b) by (nonlinear_arith)
        requires
            b == 0 || b == 1,
    ;
}

/// `n·(n + 1)` is even, so halving it loses nothing.
pub proof fn lemma_triangular_doubled(n: nat)
    ensures
        2 * triangular(n) == n * (n + 1),
    decreases n,
{
    if n == 0 {
        assert(0 * (0 + 1) == 0) by (nonlinear_arith);
    } else {
        let m = (n - 1) as nat;
        lemma_triangular_doubled(m);
        assert(n * (n + 1) == m * (m + 1) + 2 * n) by (nonlinear_arith)
            requires
                n == m + 1,
        ;
    }
}

/// Each triangular number is the one before it and its own index.
pub proof fn lemma_triangular_successor(n: nat)
    ensures
        triangular(n + 1) == triangular(n) + n + 1,
{
    lemma_triangular_doubled(n);
    lemma_triangular_doubled(n + 1);
    assert((n + 1) * (n + 1 + 1) == n * (n + 1) + 2 * (n + 1)) by (nonlinear_arith);
}

/// `(2n + 1)² = 8·triangular(n) + 1`.
pub proof fn lemma_odd_square(n: nat)
    ensures
        (2 * n + 1) * (2 * n + 1) == 8 * triangular(n) + 1,
{
    lemma_triangular_doubled(n);
    assert((2 * n + 1) * (2 * n + 1) == 4 * (n * (n + 1)) + 1) by (nonlinear_arith);
}

/// Decoding Cantor's code of a pair gives the pair back.
pub proof fn lemma_cantor_decode_code(l: nat, r: nat)
    ensures
        cantor_decode(cantor_code(l, r)) == (l, r),
{
    let n = l + r;
    let p = cantor_code(l, r);
    let s = floor_sqrt(8 * p + 1);
    lemma_floor_sqrt_bounds(8 * p + 1);
    lemma_odd_square(n);
    lemma_odd_square(n + 1);
    lemma_triangular_doubled(n);
    lemma_triangular_doubled(n + 1);
    assert((n + 1) * (n + 2) == n * (n + 1) + 2 * (n + 1)) by (nonlinear_arith);
    // (2n + 1)² ≤ 8p + 1 < (2n + 3)²
    if s < 2 * n + 1 {
        lemma_square_is_monotonic(s + 1, 2 * n + 1);
    }
    if s >= 2 * n + 3 {
        lemma_square_is_monotonic(2 * (n + 1) + 1, s);
    }
}

/// Cantor's code of the pair that a code stands for is that code.
pub proof fn lemma_cantor_code_decode(p: nat)
    ensures
        cantor_code(cantor_decode(p).0, cantor_decode(p).1) == p,
        cantor_decode(p).0 + cantor_decode(p).1 == (floor_sqrt(8 * p + 1) - 1) / 2,
{
    let s = floor_sqrt(8 * p + 1);
    lemma_floor_sqrt_bounds(8 * p + 1);
    assert(s >= 1) by {
        if s == 0 {
            assert((s + 1) * (s + 1) == 1) by (nonlinear_arith)
                requires
                    s == 0,
            ;
        }
    }
    let w = ((s - 1) / 2) as nat;
    lemma_odd_square(w);
    lemma_odd_square(w + 1);
    lemma_triangular_doubled(w);
    lemma_triangular_doubled(w + 1);
    assert((w + 1) * (w + 2) == w * (w + 1) + 2 * (w + 1)) by (nonlinear_arith);
    // (2w + 1)² ≤ s² ≤ 8p + 1 < (s + 1)² ≤ (2w + 3)²
    lemma_square_is_monotonic(2 * w + 1, s);
    lemma_square_is_monotonic(s + 1, 2 * (w + 1) + 1);
}

/// A code on the anti-diagonal `w`, that is from `triangular(w)` up to but
/// not `triangular(w + 1)`, stands for the pair whose right number is the
/// code's place on the diagonal and whose numbers add up to `w`.
pub proof fn lemma_cantor_decode_on_diagonal(p: nat, w: nat)
    requires
        triangular(w) <= p < triangular(w + 1),
    ensures
        p - triangular(w) <= w,
        cantor_decode(p) == ((w - (p - triangular(w))) as nat, (p - triangular(w)) as nat),
{
    lemma_triangular_successor(w);
    let r = (p - triangular(w)) as nat;
    let l = (w - r) as nat;
    assert(l + r == w);
    assert(cantor_code(l, r) == p);
    lemma_cantor_decode_code(l, r);
}

/// The anti-diagonal of a code `p` lies next to twice the root of its half:
/// with `k` the floor square root of `p / 2`, it is `2k - 1`, `2k` or
/// `2k + 1`.
pub proof fn lemma_cantor_diagonal_near_root(p: nat, k: nat)
    requires
        is_floor_sqrt(p / 2, k),
    ensures
        triangular(2 * k) == k * (2 * k + 1),
        triangular(2 * k + 1) == triangular(2 * k) + 2 * k + 1,
        triangular(2 * k + 2) == triangular(2 * k) + 4 * k + 3,
        k >= 1 ==> triangular((2 * k - 1) as nat) == triangular(2 * k) - 2 * k,
        k >= 1 ==> triangular((2 * k - 1) as nat) <= p,
        p < triangular(2 * k + 2),
{
    lemma_triangular_doubled(2 * k);
    assert((2 * k) * (2 * k + 1) == 2 * (k * (2 * k + 1))) by (nonlinear_arith);
    assert(k * (2 * k + 1) == 2 * (k * k) + k) by (nonlinear_arith);
    lemma_triangular_successor(2 * k);
    lemma_triangular_successor(2 * k + 1);
    if k >= 1 {
        lemma_triangular_successor((2 * k - 1) as nat);
    }
    // 2k² ≤ p ≤ 2(k + 1)² - 1
    lemma_square_of_successor(k);
}

/// Decoding Szudzik's code of a pair gives the pair back.
pub proof fn lemma_szudzik_decode_code(l: nat, r: nat)
    ensures
        szudzik_decode(szudzik_code(l, r)) == (l, r),
{
    let p = szudzik_code(l, r);
    if l < r {
        lemma_square_of_successor(r);
        lemma_floor_sqrt_is(p, r);
    } else {
        lemma_square_of_successor(l);
        lemma_floor_sqrt_is(p, l);
    }
}

/// Szudzik's code of the pair that a code stands for is that code.
pub proof fn lemma_szudzik_code_decode(p: nat)
    ensures
        szudzik_code(szudzik_decode(p).0, szudzik_decode(p).1) == p,
{
    let s = floor_sqrt(p);
    lemma_floor_sqrt_bounds(p);
    lemma_square_of_successor(s);
}

/// Decoding Hagen's code of a pair gives the pair back.
pub proof fn lemma_hagen_decode_code(l: nat, r: nat)
    ensures
        hagen_decode(hagen_code(l, r)) == (l, r),
{
    let shell = hagen_shell(l, r);
    // where the two numbers are equal the flag is 0, so the code stays below (shell + 1)²
    lemma_square_of_successor(shell);
    lemma_floor_sqrt_is(hagen_code(l, r), shell);
    // the code is odd exactly when the shell's parity and the flag differ
    lemma_square_parity(shell);
}

/// Hagen's code of the pair that a code stands for is that code.
pub proof fn lemma_hagen_code_decode(p: nat)
    ensures
        hagen_code(hagen_decode(p).0, hagen_decode(p).1) == p,
{
    let shell = floor_sqrt(p);
    lemma_floor_sqrt_bounds(p);
    lemma_square_of_successor(shell);
    lemma_square_parity(shell);
}

} // verus!
