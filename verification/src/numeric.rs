//! Integer models of the conversions of integers to binary floating point, and of rounding
//! a quotient to the nearest integer.

use vstd::prelude::*;
use vstd::arithmetic::power2::{pow2, lemma_pow2_unfold, lemma_pow2_pos};
use vstd::arithmetic::div_mod::lemma_div_denominator;

verus! {

/// `n / d` rounded to the nearest integer, a tie going to the even one.
pub open spec fn round_half_even_div(n: nat, d: nat) -> nat {
    let q = n / d;
    let r = n % d;
    if 2 * r > d || (2 * r == d && q % 2 == 1) {
        q + 1
    } else {
        q
    }
}

/// How many times `b` is halved before it is below `limit`.
pub open spec fn halvings(b: nat, limit: nat) -> nat
    decreases b,
{
    if limit == 0 || b < limit {
        0
    } else {
        1 + halvings(b / 2, limit)
    }
}

/// The value of the integer `b` in a binary floating-point format with `bits` significant
/// bits: `b` rounded to a multiple of the power of two that leaves `bits` bits, ties to even.
pub open spec fn float_value(b: nat, bits: nat) -> nat {
    let d = pow2(halvings(b, pow2(bits)));
    round_half_even_div(b, d) * d
}

/// `n / d` rounded to the nearest integer, a tie going to the even one.
pub fn div_round_half_even(n: u128, d: u128) -> (r: u128)
    requires
        d > 0,
        n / d < u128::MAX,
    ensures
        r as nat == round_half_even_div(n as nat, d as nat),
{
    let q = n / d;
    let rem = n % d;
    if rem > d - rem || (rem == d - rem && q % 2 == 1) {
        q + 1
    } else {
        q
    }
}

/// The value of `b` in a binary floating-point format with `bits` significant bits.
pub fn to_float_value(b: u64, bits: u32) -> (r: u128)
    requires
        1 <= bits <= 64,
    ensures
        r as nat == float_value(b as nat, bits as nat),
        r <= 0x2_0000_0000_0000_0000,
        b >= 1 ==> 1 <= r <= 2 * b,
{
    let mut limit: u128 = 1;
    let mut i: u32 = 0;
    proof {
        vstd::arithmetic::power2::lemma2_to64();
    }
    while i < bits
        invariant
            i <= bits <= 64,
            limit == pow2(i as nat),
            limit <= 0x1_0000_0000_0000_0000,
        decreases bits - i,
    {
        proof {
            vstd::arithmetic::power2::lemma2_to64();
            lemma_pow2_unfold((i + 1) as nat);
            if i + 1 < 64 {
                vstd::arithmetic::power2::lemma_pow2_strictly_increases((i + 1) as nat, 64);
            }
        }
        limit = limit * 2;
        i += 1;
    }
    let mut d: u128 = 1;
    let ghost mut s: nat = 0;
    let bb = b as u128;
    proof {
        lemma_pow2_pos(bits as nat);
        vstd::arithmetic::power2::lemma2_to64();
        if bits > 1 {
            vstd::arithmetic::power2::lemma_pow2_strictly_increases(1, bits as nat);
        }
    }
    while bb / d >= limit
        invariant
            limit == pow2(bits as nat),
            limit >= 2,
            d == pow2(s),
            d >= 1,
            bb < 0x1_0000_0000_0000_0000,
            d <= bb || d == 1,
            halvings(bb as nat, limit as nat) == s + halvings((bb / d) as nat, limit as nat),
        decreases bb / d,
    {
        proof {
            lemma_div_denominator(bb as int, d as int, 2);
            lemma_pow2_unfold(s + 1);
            assert((bb / d) / 2 < bb / d);
            assert(d * 2 <= bb) by (nonlinear_arith)
                requires bb / d >= 2, d >= 1;
        }
        d = d * 2;
        proof {
            s = s + 1;
        }
    }
    let q = bb / d;
    let rem = bb % d;
    let rounded: u128 = if rem > d - rem || (rem == d - rem && q % 2 == 1) {
        q + 1
    } else {
        q
    };
    proof {
        assert(rounded as nat == round_half_even_div(bb as nat, d as nat));
        assert(q * d <= bb) by (nonlinear_arith)
            requires q == bb / d, d >= 1;
        assert(rounded * d <= bb + d) by (nonlinear_arith)
            requires rounded <= q + 1, q * d <= bb, d >= 1;
        if bb >= 1 {
            assert(q >= 1) by (nonlinear_arith)
                requires q == bb / d, d <= bb, d >= 1;
            assert(rounded * d >= 1) by (nonlinear_arith)
                requires rounded >= q, q >= 1, d >= 1;
        }
    }
    rounded * d
}

} // verus!
