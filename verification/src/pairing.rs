//! The pairing functions on 64-bit unsigned integers.
//!
//! Encoding wraps around where its arithmetic leaves the 64-bit range; it is
//! never an error. A pair whose code is computed without wrapping is encoded
//! to the mathematical code of `crate::codes`:
//!
//! - by Hagen and Szudzik exactly when both numbers are below `2³²`;
//! - by Cantor exactly when the two numbers add up to less than `2³²`.
//!
//! Decoding never wraps: every 64-bit number is decoded to the pair that it
//! stands for in mathematics, so decoding the code of such a pair gives the
//! pair back.

use vstd::prelude::*;
use crate::codes::{
    cantor_code, cantor_decode, hagen_code, hagen_decode, hagen_flag, hagen_shell, hagen_step,
    lemma_cantor_code_decode, lemma_cantor_decode_code, lemma_cantor_decode_on_diagonal,
    lemma_cantor_diagonal_near_root, lemma_hagen_code_decode, lemma_hagen_decode_code,
    lemma_square_is_monotonic, lemma_square_of_successor, lemma_szudzik_code_decode,
    lemma_szudzik_decode_code, lemma_triangular_doubled, szudzik_code, szudzik_decode, triangular,
};
use crate::roots::{floor_sqrt, integer_sqrt, lemma_floor_sqrt_bounds, lemma_floor_sqrt_u64};

verus! {

/// The 64-bit number that `x` wraps around to.
pub open spec fn wrap64(x: int) -> u64 {
    (x % 0x1_0000_0000_0000_0000) as u64
}

/// The Hagen code of `(l, r)` in 64-bit arithmetic.
pub open spec fn hagen_pair(l: u64, r: u64) -> u64 {
    wrap64(hagen_code(l as nat, r as nat) as int)
}

/// The pair of the Hagen code `p`.
pub open spec fn hagen_unpair(p: u64) -> (u64, u64) {
    let (l, r) = hagen_decode(p as nat);
    (l as u64, r as u64)
}

/// The Szudzik code of `(l, r)` in 64-bit arithmetic.
pub open spec fn szudzik_pair(l: u64, r: u64) -> u64 {
    wrap64(szudzik_code(l as nat, r as nat) as int)
}

/// The pair of the Szudzik code `p`.
pub open spec fn szudzik_unpair(p: u64) -> (u64, u64) {
    let (l, r) = szudzik_decode(p as nat);
    (l as u64, r as u64)
}

/// The Cantor code of `(l, r)` in 64-bit arithmetic. The product is halved
/// after it has wrapped, so this is the wrapped mathematical code only where
/// the product fits.
pub open spec fn cantor_pair(l: u64, r: u64) -> u64 {
    let sum = wrap64(l + r);
    let product = wrap64(sum * wrap64(sum + 1));
    wrap64(product / 2 + r)
}

/// The pair of the Cantor code `p`.
pub open spec fn cantor_unpair(p: u64) -> (u64, u64) {
    let (l, r) = cantor_decode(p as nat);
    (l as u64, r as u64)
}

/// A wrapping addition gives the wrapped sum.
proof fn lemma_wrapping_add(a: u64, b: u64)
    ensures
        u64::wrapping_add(a, b) == wrap64(a + b),
{
}

/// A wrapping multiplication gives the wrapped product.
proof fn lemma_wrapping_mul(a: u64, b: u64)
    ensures
        u64::wrapping_mul(a, b) == wrap64(a * b),
{
    assert(a as nat * b as nat == a * b);
}

/// Wrapping a sum is the same whether or not its terms have wrapped before.
proof fn lemma_wrap_of_sum(a: int, b: int)
    requires
        0 <= a,
        0 <= b,
    ensures
        wrap64(wrap64(a) + wrap64(b)) == wrap64(a + b),
        wrap64(wrap64(a) + b) == wrap64(a + b),
{
}

/// Encodes `(l, r)` by Hagen's function.
#[verifier::spinoff_prover]
pub fn compute_hagen_pair(l: u64, r: u64) -> (code: Option<u64>)
    ensures
        code == Some(hagen_pair(l, r)),
        hagen_code(l as nat, r as nat) <= u64::MAX ==> code == Some(
            hagen_code(l as nat, r as nat) as u64,
        ),
{
    let (shell, step) = if l > r {
        (l, r)
    } else {
        (r, l)
    };
    let flag: u64 = if (shell % 2 == 0 && step == l) || (shell % 2 == 1 && step == r) {
        0
    } else {
        1
    };
    let square: u64 = shell.wrapping_mul(shell);
    let double: u64 = step.wrapping_mul(2);
    let ring: u64 = square.wrapping_add(double);
    let code: u64 = ring.wrapping_add(flag);
    proof {
        assert(shell == hagen_shell(l as nat, r as nat));
        assert(step == hagen_step(l as nat, r as nat));
        assert(flag == hagen_flag(l as nat, r as nat));
        lemma_wrapping_mul(shell, shell);
        lemma_wrapping_mul(step, 2);
        lemma_wrapping_add(square, double);
        lemma_wrapping_add(ring, flag);
        lemma_wrap_of_sum(shell * shell, 2 * step);
        assert(ring == wrap64(shell * shell + 2 * step));
        lemma_wrap_of_sum(shell * shell + 2 * step, flag as int);
        assert(code == wrap64(shell * shell + 2 * step + flag));
    }
    Some(code)
}

/// Decodes the Hagen code `p`.
pub fn compute_hagen_unpair(p: u64) -> (pair: Option<(u64, u64)>)
    ensures
        pair == Some(hagen_unpair(p)),
{
    let shell = integer_sqrt(p);
    proof {
        lemma_floor_sqrt_bounds(p as nat);
    }
    let step = (p - shell * shell) / 2;
    if p % 2 == 0 {
        Some((step, shell))
    } else {
        Some((shell, step))
    }
}

/// Encodes `(l, r)` by Szudzik's function.
#[verifier::spinoff_prover]
pub fn compute_szudzik_pair(l: u64, r: u64) -> (code: Option<u64>)
    ensures
        code == Some(szudzik_pair(l, r)),
        szudzik_code(l as nat, r as nat) <= u64::MAX ==> code == Some(
            szudzik_code(l as nat, r as nat) as u64,
        ),
{
    if l < r {
        let square: u64 = r.wrapping_mul(r);
        let code: u64 = square.wrapping_add(l);
        proof {
            lemma_wrapping_mul(r, r);
            lemma_wrapping_add(square, l);
            lemma_wrap_of_sum(r * r, l as int);
            assert(code == wrap64(r * r + l));
        }
        Some(code)
    } else {
        let square: u64 = l.wrapping_mul(l);
        let oblong: u64 = square.wrapping_add(l);
        let code: u64 = oblong.wrapping_add(r);
        proof {
            lemma_wrapping_mul(l, l);
            lemma_wrapping_add(square, l);
            lemma_wrapping_add(oblong, r);
            lemma_wrap_of_sum(l * l, l as int);
            assert(oblong == wrap64(l * l + l));
            lemma_wrap_of_sum(l * l + l, r as int);
            assert(code == wrap64(l * l + l + r));
        }
        Some(code)
    }
}

/// Decodes the Szudzik code `p`.
pub fn compute_szudzik_unpair(p: u64) -> (pair: Option<(u64, u64)>)
    ensures
        pair == Some(szudzik_unpair(p)),
{
    let root = integer_sqrt(p);
    proof {
        lemma_floor_sqrt_bounds(p as nat);
    }
    let rest = p - root * root;
    if rest < root {
        Some((rest, root))
    } else {
        Some((root, rest - root))
    }
}

/// Encodes `(l, r)` by Cantor's function.
#[verifier::spinoff_prover]
pub fn compute_cantor_pair(l: u64, r: u64) -> (code: Option<u64>)
    ensures
        code == Some(cantor_pair(l, r)),
        (l + r) * (l + r + 1) <= u64::MAX ==> code == Some(cantor_code(l as nat, r as nat) as u64),
{
    let sum: u64 = l.wrapping_add(r);
    let next: u64 = sum.wrapping_add(1);
    let product: u64 = sum.wrapping_mul(next);
    let code: u64 = (product / 2).wrapping_add(r);
    proof {
        lemma_wrapping_add(l, r);
        assert(sum == wrap64(l + r));
        lemma_wrapping_add(sum, 1);
        assert(next == wrap64(sum + 1));
        lemma_wrapping_mul(sum, next);
        assert(product == wrap64(sum * next));
        lemma_wrapping_add((product / 2) as u64, r);
        assert(code == wrap64(product / 2 + r));
        assert(code == cantor_pair(l, r));
        lemma_cantor_pair_exact(l, r);
    }
    Some(code)
}

/// Decodes the Cantor code `p`.
pub fn compute_cantor_unpair(p: u64) -> (pair: Option<(u64, u64)>)
    ensures
        pair == Some(cantor_unpair(p)),
{
    let k: u64 = integer_sqrt(p / 2);
    proof {
        lemma_floor_sqrt_bounds((p / 2) as nat);
        lemma_cantor_diagonal_near_root(p as nat, k as nat);
        assert(k * (2 * k + 1) <= 0xFFFF_FFFF * 0x1_FFFF_FFFF) by (nonlinear_arith)
            requires
                0 <= k <= 0xFFFF_FFFF,
        ;
    }
    // the triangular numbers of 2k and of 2k + 1, which may pass 64 bits
    let wide: u128 = k as u128;
    let even: u128 = wide * (2 * wide + 1);
    let odd: u128 = even + 2 * wide + 1;
    // the anti-diagonal of p is the last of 2k - 1, 2k and 2k + 1 that starts at or below p
    let (w, start): (u64, u128) = if odd <= p as u128 {
        (2 * k + 1, odd)
    } else if even <= p as u128 {
        (2 * k, even)
    } else {
        (2 * k - 1, even - 2 * wide)
    };
    proof {
        assert(start == triangular(w as nat));
        lemma_cantor_decode_on_diagonal(p as nat, w as nat);
    }
    let r: u64 = p - (start as u64);
    Some((w - r, r))
}

/// Where the product `(l + r)·(l + r + 1)` fits in 64 bits, the 64-bit Cantor
/// code is the mathematical one.
pub proof fn lemma_cantor_pair_exact(l: u64, r: u64)
    ensures
        (l + r) * (l + r + 1) <= u64::MAX ==> cantor_pair(l, r) == cantor_code(l as nat, r as nat),
{
    let n = l + r;
    if n * (n + 1) <= u64::MAX {
        lemma_cantor_code_fits(l, r);
        assert(wrap64(l + r) == n);
        assert(wrap64(n + 1) == n + 1);
        assert(wrap64(n * (n + 1)) == n * (n + 1));
        assert(n * (n + 1) / 2 + r <= u64::MAX);
        assert(wrap64(n * (n + 1) / 2 + r) == n * (n + 1) / 2 + r);
    }
}

/// All codes of pairs whose larger number is `top` lie from `top²` to
/// `top² + 2·top`, and those fit in 64 bits exactly when `top` is below `2³²`.
proof fn lemma_shell_fits(top: nat)
    ensures
        top * top <= u64::MAX <==> top <= 0xFFFF_FFFF,
        top * top + 2 * top <= u64::MAX <==> top <= 0xFFFF_FFFF,
{
    lemma_square_of_successor(top);
    if top <= 0xFFFF_FFFF {
        lemma_square_is_monotonic(top + 1, 0x1_0000_0000);
    } else {
        lemma_square_is_monotonic(0x1_0000_0000, top);
    }
    assert(0x1_0000_0000 * 0x1_0000_0000 == 0x1_0000_0000_0000_0000) by (nonlinear_arith);
}

/// The Hagen code of a pair fits in 64 bits exactly when both numbers are
/// below `2³²`.
pub proof fn lemma_hagen_code_fits(l: u64, r: u64)
    ensures
        hagen_code(l as nat, r as nat) <= u64::MAX <==> l <= 0xFFFF_FFFF && r <= 0xFFFF_FFFF,
{
    lemma_shell_fits(hagen_shell(l as nat, r as nat));
}

/// The Szudzik code of a pair fits in 64 bits exactly when both numbers are
/// below `2³²`.
pub proof fn lemma_szudzik_code_fits(l: u64, r: u64)
    ensures
        szudzik_code(l as nat, r as nat) <= u64::MAX <==> l <= 0xFFFF_FFFF && r <= 0xFFFF_FFFF,
{
    lemma_shell_fits(hagen_shell(l as nat, r as nat));
}

/// The product `(l + r)·(l + r + 1)` of Cantor's code fits in 64 bits
/// exactly when the two numbers add up to less than `2³²`, and the code then
/// fits too.
pub proof fn lemma_cantor_code_fits(l: u64, r: u64)
    ensures
        (l + r) * (l + r + 1) <= u64::MAX <==> l + r <= 0xFFFF_FFFF,
        l + r <= 0xFFFF_FFFF ==> cantor_code(l as nat, r as nat) <= u64::MAX,
{
    let n = (l + r) as nat;
    lemma_triangular_doubled(n);
    if n <= 0xFFFF_FFFF {
        assert(n * (n + 1) <= 0xFFFF_FFFF * 0x1_0000_0000) by (nonlinear_arith)
            requires
                n <= 0xFFFF_FFFF,
        ;
    } else {
        assert(n * (n + 1) >= 0x1_0000_0000 * 0x1_0000_0001) by (nonlinear_arith)
            requires
                n >= 0x1_0000_0000,
        ;
    }
}

/// Decoding the Hagen code of a pair gives the pair back, whenever the code
/// fits in 64 bits.
pub proof fn lemma_hagen_unpair_pair(l: u64, r: u64)
    requires
        hagen_code(l as nat, r as nat) <= u64::MAX,
    ensures
        hagen_unpair(hagen_pair(l, r)) == (l, r),
{
    lemma_hagen_decode_code(l as nat, r as nat);
}

/// Decoding the Szudzik code of a pair gives the pair back, whenever the code
/// fits in 64 bits.
pub proof fn lemma_szudzik_unpair_pair(l: u64, r: u64)
    requires
        szudzik_code(l as nat, r as nat) <= u64::MAX,
    ensures
        szudzik_unpair(szudzik_pair(l, r)) == (l, r),
{
    lemma_szudzik_decode_code(l as nat, r as nat);
}

/// Decoding the Cantor code of a pair gives the pair back, whenever the
/// product `(l + r)·(l + r + 1)` fits in 64 bits.
pub proof fn lemma_cantor_unpair_pair(l: u64, r: u64)
    requires
        (l + r) * (l + r + 1) <= u64::MAX,
    ensures
        cantor_unpair(cantor_pair(l, r)) == (l, r),
{
    lemma_cantor_code_fits(l, r);
    lemma_cantor_pair_exact(l, r);
    lemma_cantor_decode_code(l as nat, r as nat);
}

/// Every 64-bit number is the Hagen code of the pair that it decodes to.
pub proof fn lemma_hagen_pair_unpair(p: u64)
    ensures
        hagen_pair(hagen_unpair(p).0, hagen_unpair(p).1) == p,
{
    let shell = floor_sqrt(p as nat);
    lemma_floor_sqrt_bounds(p as nat);
    lemma_floor_sqrt_u64(p);
    lemma_square_of_successor(shell);
    lemma_hagen_code_decode(p as nat);
}

/// Every 64-bit number is the Szudzik code of the pair that it decodes to.
pub proof fn lemma_szudzik_pair_unpair(p: u64)
    ensures
        szudzik_pair(szudzik_unpair(p).0, szudzik_unpair(p).1) == p,
{
    let root = floor_sqrt(p as nat);
    lemma_floor_sqrt_bounds(p as nat);
    lemma_floor_sqrt_u64(p);
    lemma_square_of_successor(root);
    lemma_szudzik_code_decode(p as nat);
}

/// The numbers of the pair that a 64-bit Cantor code stands for add up to
/// less than `2³³`, so both fit in 64 bits.
pub proof fn lemma_cantor_unpair_fits(p: u64)
    ensures
        cantor_decode(p as nat).0 + cantor_decode(p as nat).1 <= 0x1_FFFF_FFFF,
{
    let k = floor_sqrt((p / 2) as nat);
    lemma_floor_sqrt_bounds((p / 2) as nat);
    lemma_floor_sqrt_u64((p / 2) as u64);
    lemma_cantor_diagonal_near_root(p as nat, k);
    if triangular(2 * k + 1) <= p {
        lemma_cantor_decode_on_diagonal(p as nat, 2 * k + 1);
    } else if triangular(2 * k) <= p {
        lemma_cantor_decode_on_diagonal(p as nat, 2 * k);
    } else {
        lemma_cantor_decode_on_diagonal(p as nat, (2 * k - 1) as nat);
    }
}

/// Every number below `2⁶³` is the Cantor code of the pair that it decodes
/// to; from `2⁶³` up the product of the encoding wraps.
pub proof fn lemma_cantor_pair_unpair(p: u64)
    requires
        p <= 0x7FFF_FFFF_FFFF_FFFF,
    ensures
        cantor_pair(cantor_unpair(p).0, cantor_unpair(p).1) == p,
{
    lemma_cantor_unpair_fits(p);
    lemma_cantor_code_decode(p as nat);
    let (l, r) = cantor_unpair(p);
    // (l + r)·(l + r + 1) is twice a triangular number that is at most p
    lemma_triangular_doubled((l + r) as nat);
    lemma_cantor_pair_exact(l, r);
}

} // verus!
