//! Rounding to the precision of a double: to 53 binary digits, to the
//! nearest, and of two equally near to the even one.
//!
//! The product of a double and a whole number is a whole number of 2^-1074,
//! and the floating-point unit hands back that number rounded. Rounding does
//! not depend on the scale: a number and the same number shifted are rounded
//! at the same digit.
use vstd::arithmetic::div_mod::{lemma_div_multiples_vanish_quotient, lemma_truncate_middle};
use vstd::arithmetic::power2::{
    lemma2_to64, lemma2_to64_rest, lemma_pow2_adds, lemma_pow2_pos, lemma_pow2_unfold, pow2,
};
use vstd::prelude::*;

verus! {

/// The number of binary digits of a double's significand.
pub const PRECISION: u64 = 53;

/// The number of binary digits that `x` is written with.
pub open spec fn width(x: nat) -> nat
    decreases x,
{
    if x == 0 {
        0
    } else {
        1 + width(x / 2)
    }
}

/// `x` rounded to the nearest multiple of two to the `s`, and of two
/// equally near to the even one.
pub open spec fn round_at(x: nat, s: nat) -> nat {
    let unit = pow2(s);
    let below = x / unit;
    let rest = x % unit;
    if 2 * rest < unit || (2 * rest == unit && below % 2 == 0) {
        below * unit
    } else {
        (below + 1) * unit
    }
}

/// `x` rounded to 53 binary digits.
pub open spec fn round53(x: nat) -> nat {
    if width(x) <= PRECISION {
        x
    } else {
        round_at(x, (width(x) - PRECISION) as nat)
    }
}

/// Twice a number has one digit more.
pub proof fn lemma_width_doubles(x: nat)
    requires
        x > 0,
    ensures
        width(2 * x) == width(x) + 1,
{
    assert((2 * x) / 2 == x);
}

/// A number shifted by `k` digits has `k` digits more.
pub proof fn lemma_width_shifts(x: nat, k: nat)
    requires
        x > 0,
    ensures
        width(x * pow2(k)) == width(x) + k,
        x * pow2(k) > 0,
    decreases k,
{
    lemma_pow2_pos(k);
    assert(x * pow2(k) > 0) by (nonlinear_arith)
        requires
            x > 0,
            pow2(k) > 0,
    ;
    if k == 0 {
        lemma2_to64();
        assert(x * pow2(0) == x) by (nonlinear_arith)
            requires
                pow2(0) == 1,
        ;
    } else {
        lemma_width_shifts(x, (k - 1) as nat);
        lemma_pow2_unfold(k);
        let half = x * pow2((k - 1) as nat);
        assert(x * pow2(k) == 2 * half) by (nonlinear_arith)
            requires
                pow2(k) == 2 * pow2((k - 1) as nat),
                half == x * pow2((k - 1) as nat),
        ;
        lemma_width_doubles(half);
    }
}

/// A number below two to the `n` has `n` digits at most, and a number from
/// two to the `n` on has more.
pub proof fn lemma_width_bounds(x: nat, n: nat)
    ensures
        x < pow2(n) <==> width(x) <= n,
    decreases n,
{
    lemma2_to64();
    if n == 0 {
    } else {
        lemma_pow2_unfold(n);
        lemma_width_bounds(x / 2, (n - 1) as nat);
    }
}

/// Rounding does not depend on the scale.
pub proof fn lemma_round_at_shifts(x: nat, s: nat, k: nat)
    ensures
        round_at(x * pow2(k), s + k) == round_at(x, s) * pow2(k),
{
    let unit = pow2(s) as int;
    let scale = pow2(k) as int;
    lemma_pow2_pos(s);
    lemma_pow2_pos(k);
    lemma_pow2_adds(s, k);
    let below = x as int / unit;
    let rest = x as int % unit;
    lemma_div_multiples_vanish_quotient(scale, x as int, unit);
    lemma_truncate_middle(x as int, scale, unit);
    assert(scale * x == x * scale && scale * unit == unit * scale) by (nonlinear_arith);
    assert((x * scale) / (unit * scale) == below);
    assert((x * scale) % (unit * scale) == scale * rest);
    assert(2 * (scale * rest) < unit * scale <==> 2 * rest < unit) by (nonlinear_arith)
        requires
            scale > 0,
    ;
    assert(2 * (scale * rest) == unit * scale <==> 2 * rest == unit) by (nonlinear_arith)
        requires
            scale > 0,
    ;
    assert(below * (unit * scale) == (below * unit) * scale && (below + 1) * (unit * scale) == ((
        below + 1) * unit) * scale) by (nonlinear_arith);
}

/// A multiple of the unit stays as it is.
pub proof fn lemma_round_at_keeps_multiples(x: nat, s: nat, k: nat)
    requires
        s <= k,
    ensures
        round_at(x * pow2(k), s) == x * pow2(k),
{
    let unit = pow2(s) as int;
    let more = pow2((k - s) as nat) as int;
    lemma_pow2_pos(s);
    lemma_pow2_pos((k - s) as nat);
    lemma_pow2_adds((k - s) as nat, s);
    let whole = x * more;
    assert(x * pow2(k) == whole * unit) by (nonlinear_arith)
        requires
            pow2(k) == more * unit,
            whole == x * more,
    ;
    vstd::arithmetic::div_mod::lemma_fundamental_div_mod_converse(whole * unit, unit, whole, 0);
}

/// Rounding to 53 digits does not depend on the scale.
pub proof fn lemma_round53_shifts(x: nat, k: nat)
    ensures
        round53(x * pow2(k)) == round53(x) * pow2(k),
{
    if x == 0 {
        assert(0 * pow2(k) == 0) by (nonlinear_arith);
    } else {
        lemma_width_shifts(x, k);
        let w = width(x);
        if w + k <= PRECISION {
        } else if w <= PRECISION {
            lemma_round_at_keeps_multiples(x, (w + k - PRECISION) as nat, k);
        } else {
            lemma_round_at_shifts(x, (w - PRECISION) as nat, k);
        }
    }
}

/// Rounds a number below two to the 62nd to 53 binary digits.
pub fn round_to_precision(x: u64) -> (r: u64)
    requires
        x < 0x4000_0000_0000_0000,
    ensures
        r == round53(x as nat),
        r <= 0x4000_0000_0000_0000,
{
    proof {
        lemma2_to64_rest();
        lemma_width_bounds(x as nat, 53);
        lemma_width_bounds(x as nat, 62);
    }
    if x < 0x0020_0000_0000_0000 {
        return x;
    }
    let mut top: u64 = x;
    let mut unit: u64 = 1;
    let mut s: u64 = 0;
    proof {
        lemma2_to64();
    }
    while top >= 0x0020_0000_0000_0000
        invariant
            top > 0,
            x < 0x4000_0000_0000_0000,
            s <= 9,
            unit == pow2(s as nat),
            top == x / unit,
            width(x as nat) == width(top as nat) + s,
            top >= 0x0010_0000_0000_0000,
            s == 9 ==> top < 0x0020_0000_0000_0000,
        decreases top,
    {
        proof {
            lemma_pow2_unfold((s + 1) as nat);
            lemma2_to64();
            assert(unit <= 256) by {
                if s == 8 {
                } else {
                    vstd::arithmetic::power2::lemma_pow2_strictly_increases(s as nat, 8);
                }
            }
            vstd::arithmetic::div_mod::lemma_div_denominator(x as int, unit as int, 2);
            if s == 8 {
                assert(x / 512 < 0x0020_0000_0000_0000);
            }
        }
        top = top / 2;
        unit = unit * 2;
        s = s + 1;
    }
    proof {
        lemma_width_bounds(top as nat, 53);
        lemma_width_bounds(top as nat, 52);
        assert(width(top as nat) == 53);
        vstd::arithmetic::div_mod::lemma_fundamental_div_mod(x as int, unit as int);
        assert(top * unit <= x && (top + 1) * unit <= x + unit) by (nonlinear_arith)
            requires
                x == unit * top + x % unit,
                0 <= x % unit,
        ;
        assert((top + 1) * unit <= 0x4000_0000_0000_0000) by (nonlinear_arith)
            requires
                top + 1 <= 0x0020_0000_0000_0000,
                unit <= 512,
        ;
        assert(unit <= 512) by {
            lemma2_to64();
            if s < 9 {
                vstd::arithmetic::power2::lemma_pow2_strictly_increases(s as nat, 9);
            }
        }
    }
    let rest = x % unit;
    let round_up = 2 * rest > unit || (2 * rest == unit && top % 2 == 1);
    if round_up {
        (top + 1) * unit
    } else {
        top * unit
    }
}

} // verus!
