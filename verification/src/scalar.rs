//! Double-precision numbers carried as their IEEE 754 binary64 bit patterns.
//!
//! The renderer's arithmetic runs on the host's floating-point unit. What this
//! library decides about such a number (is it below the hit threshold, is it
//! positive, which of two is smaller) it decides on the 64 bits themselves,
//! with integer instructions only. Every finite pattern denotes an integer
//! multiple of 2^-1074, and the contracts below are stated over that integer.
use vstd::arithmetic::power2::{
    lemma2_to64, lemma2_to64_rest, lemma_pow2_adds, lemma_pow2_pos, lemma_pow2_strictly_increases,
    lemma_pow2_unfold, pow2,
};
use vstd::prelude::*;

verus! {

/// The sign bit of a binary64 pattern.
pub const SIGN_BIT: u64 = 0x8000_0000_0000_0000;

/// The pattern of positive infinity; every larger magnitude is a NaN.
pub const INFINITY_BITS: u64 = 0x7FF0_0000_0000_0000;

/// Two to the 52nd: the weight of the implicit leading bit of a normal number.
pub const HIDDEN_BIT: u64 = 0x0010_0000_0000_0000;

/// The pattern of `1.0`.
pub const ONE_BITS: u64 = 0x3FF0_0000_0000_0000;

/// The number of binary digits behind the point in the unit of [`Value::Finite`].
pub open spec fn quantum_exponent() -> nat {
    1074
}

/// What a binary64 bit pattern denotes.
pub enum Value {
    /// Not a number.
    Nan,
    /// Positive or negative infinity.
    Infinite { negative: bool },
    /// The number `quanta * 2^-1074`. Both zeros have `quanta == 0`.
    Finite { quanta: int },
}

impl Value {
    /// The strict order of the extended real line; a NaN is in no relation.
    pub open spec fn lt(self, other: Value) -> bool {
        match (self, other) {
            (Value::Finite { quanta: a }, Value::Finite { quanta: b }) => a < b,
            (Value::Infinite { negative: true }, Value::Finite { .. }) => true,
            (Value::Infinite { negative: true }, Value::Infinite { negative: false }) => true,
            (Value::Finite { .. }, Value::Infinite { negative: false }) => true,
            _ => false,
        }
    }

    /// Equality of numbers; a NaN equals nothing, itself included.
    pub open spec fn same(self, other: Value) -> bool {
        match (self, other) {
            (Value::Finite { quanta: a }, Value::Finite { quanta: b }) => a == b,
            (Value::Infinite { negative: a }, Value::Infinite { negative: b }) => a == b,
            _ => false,
        }
    }

    /// Below or equal; false whenever a NaN is involved.
    pub open spec fn le(self, other: Value) -> bool {
        self.lt(other) || self.same(other)
    }

    /// The number with the opposite sign.
    pub open spec fn negated(self) -> Value {
        match self {
            Value::Nan => Value::Nan,
            Value::Infinite { negative } => Value::Infinite { negative: !negative },
            Value::Finite { quanta } => Value::Finite { quanta: -quanta },
        }
    }

    /// The absolute value.
    pub open spec fn magnitude(self) -> Value {
        match self {
            Value::Nan => Value::Nan,
            Value::Infinite { .. } => Value::Infinite { negative: false },
            Value::Finite { quanta } => Value::Finite { quanta: if quanta < 0 { -quanta } else { quanta } },
        }
    }

    pub open spec fn zero() -> Value {
        Value::Finite { quanta: 0 }
    }

    /// The whole part of a finite number, rounded towards zero.
    pub open spec fn truncated(self) -> int {
        match self {
            Value::Finite { quanta } => if quanta >= 0 {
                quanta / (pow2(quantum_exponent()) as int)
            } else {
                -((-quanta) / (pow2(quantum_exponent()) as int))
            },
            _ => 0,
        }
    }

    /// The number as an unsigned byte, as a cast of Rust converts it: the
    /// whole part of a number from 0 to 255, 0 for a smaller number and for
    /// a NaN, 255 for a greater number.
    pub open spec fn to_byte(self) -> u8 {
        match self {
            Value::Nan => 0,
            Value::Infinite { negative } => if negative {
                0
            } else {
                255
            },
            Value::Finite { .. } => if self.truncated() < 0 {
                0
            } else if self.truncated() > 255 {
                255
            } else {
                self.truncated() as u8
            },
        }
    }

    /// The order is transitive, also through an equality.
    pub proof fn lemma_lt_transitive(a: Value, b: Value, c: Value)
        requires
            a.lt(b) || a.same(b),
            b.lt(c) || b.same(c),
        ensures
            a.le(c),
            a.lt(b) || b.lt(c) ==> a.lt(c),
    {
    }

    /// Two numbers are equal or one is below the other, and only one of the
    /// three holds.
    pub proof fn lemma_trichotomy(a: Value, b: Value)
        requires
            !(a is Nan),
            !(b is Nan),
        ensures
            a.lt(b) || a.same(b) || b.lt(a),
            !(a.lt(b) && b.lt(a)),
            !(a.lt(b) && a.same(b)),
            a.same(b) == b.same(a),
    {
    }

    /// A NaN is in no relation to anything.
    pub proof fn lemma_nan_is_unordered(a: Value, b: Value)
        requires
            a is Nan || b is Nan,
        ensures
            !a.lt(b),
            !b.lt(a),
            !a.same(b),
    {
    }

    /// The value of the whole number `n`.
    pub open spec fn whole(n: int) -> Value {
        Value::Finite { quanta: n * pow2(quantum_exponent()) }
    }

    /// Whole numbers are ordered as doubles as they are as integers.
    pub proof fn lemma_whole_is_ordered(a: int, b: int)
        ensures
            Value::whole(a).lt(Value::whole(b)) <==> a < b,
            Value::whole(a).same(Value::whole(b)) <==> a == b,
    {
        let unit = pow2(quantum_exponent()) as int;
        lemma_pow2_pos(quantum_exponent());
        if a < b {
            assert(a * unit < b * unit) by (nonlinear_arith)
                requires
                    a < b,
                    unit > 0,
            ;
        } else if b < a {
            assert(b * unit < a * unit) by (nonlinear_arith)
                requires
                    b < a,
                    unit > 0,
            ;
        }
    }

    /// A positive whole number is greater than zero as a double too.
    pub proof fn lemma_whole_is_positive(n: int)
        requires
            n > 0,
        ensures
            Value::zero().lt(Value::whole(n)),
    {
        Value::lemma_whole_is_ordered(0, n);
        assert(0 * pow2(quantum_exponent()) == 0) by (nonlinear_arith);
    }
}

/// The pattern without its sign bit.
pub open spec fn magnitude_of(bits: u64) -> nat {
    (bits % SIGN_BIT) as nat
}

/// Whether the sign bit is set.
pub open spec fn negative_of(bits: u64) -> bool {
    bits >= SIGN_BIT
}

/// The multiple of 2^-1074 that a finite magnitude pattern denotes: the
/// fraction field alone for a subnormal, and the fraction with its hidden
/// bit, scaled by the exponent field, for a normal number.
pub open spec fn quanta_of_magnitude(m: nat) -> nat {
    let exponent = m / (HIDDEN_BIT as nat);
    let fraction = m % (HIDDEN_BIT as nat);
    if exponent == 0 {
        fraction
    } else {
        (HIDDEN_BIT as nat + fraction) * pow2((exponent - 1) as nat)
    }
}

/// What the pattern `bits` denotes: a NaN where the magnitude pattern lies
/// above that of infinity, an infinity where it is that pattern, and a
/// multiple of 2^-1074 below it.
pub open spec fn value_of(bits: u64) -> Value {
    let m = magnitude_of(bits);
    if m > INFINITY_BITS {
        Value::Nan
    } else if m == INFINITY_BITS {
        Value::Infinite { negative: negative_of(bits) }
    } else if negative_of(bits) {
        Value::Finite { quanta: -(quanta_of_magnitude(m) as int) }
    } else {
        Value::Finite { quanta: quanta_of_magnitude(m) as int }
    }
}

/// Among finite magnitudes, a larger pattern denotes a larger number.
pub proof fn lemma_quanta_monotonic(a: nat, b: nat)
    requires
        a < b,
    ensures
        quanta_of_magnitude(a) < quanta_of_magnitude(b),
{
    let h = HIDDEN_BIT as nat;
    let ea = a / h;
    let fa = a % h;
    let eb = b / h;
    let fb = b % h;
    assert(a == ea * h + fa && b == eb * h + fb) by (nonlinear_arith)
        requires
            h > 0,
            ea == a / h,
            fa == a % h,
            eb == b / h,
            fb == b % h,
    ;
    assert(ea <= eb) by (nonlinear_arith)
        requires
            a < b,
            h > 0,
            ea == a / h,
            eb == b / h,
    ;
    if ea == eb {
        if ea != 0 {
            let p = pow2((ea - 1) as nat);
            lemma_pow2_pos((ea - 1) as nat);
            assert((h + fa) * p < (h + fb) * p) by (nonlinear_arith)
                requires
                    fa < fb,
                    p > 0,
            ;
        }
    } else {
        let q = pow2((eb - 1) as nat);
        lemma_pow2_pos((eb - 1) as nat);
        assert(h * q <= (h + fb) * q) by (nonlinear_arith)
            requires
                q > 0,
                fb >= 0,
        ;
        if ea == 0 {
            assert(h <= h * q) by (nonlinear_arith)
                requires
                    q > 0,
                    h > 0,
            ;
        } else {
            let p = pow2((ea - 1) as nat);
            lemma_pow2_pos((ea - 1) as nat);
            lemma_pow2_unfold(ea);
            if ea < eb - 1 {
                lemma_pow2_strictly_increases(ea, (eb - 1) as nat);
            }
            assert(pow2(ea) <= q);
            assert((h + fa) * p < h * (2 * p)) by (nonlinear_arith)
                requires
                    fa < h,
                    p > 0,
            ;
            assert(h * pow2(ea) <= h * q) by (nonlinear_arith)
                requires
                    pow2(ea) <= q,
                    h > 0,
            ;
        }
    }
}

/// The pattern with exponent field `e` and no fraction denotes a power of two.
pub proof fn lemma_power_pattern(e: nat)
    requires
        1 <= e,
    ensures
        quanta_of_magnitude(e * (HIDDEN_BIT as nat)) == pow2(51 + e),
{
    let h = HIDDEN_BIT as nat;
    assert((e * h) / h == e && (e * h) % h == 0) by (nonlinear_arith)
        requires
            h > 0,
    ;
    lemma2_to64_rest();
    lemma_pow2_adds(52, (e - 1) as nat);
}

/// The pattern with exponent field `exponent` and fraction field `fraction`
/// denotes the whole number `n` where its significand, with the hidden bit,
/// is `n` times the power of two that the exponent field makes up for: the
/// means to hold a constant pattern against its number.
pub proof fn lemma_pattern_is_whole(bits: u64, n: nat, exponent: nat, fraction: nat)
    requires
        bits == exponent * HIDDEN_BIT + fraction,
        1023 <= exponent <= 1075,
        fraction < HIDDEN_BIT,
        HIDDEN_BIT + fraction == n * pow2((1075 - exponent) as nat),
    ensures
        value_of(bits) == Value::whole(n as int),
{
    let h = HIDDEN_BIT as nat;
    let down = pow2((1075 - exponent) as nat);
    let up = pow2((exponent - 1) as nat);
    lemma_pow2_adds((1075 - exponent) as nat, (exponent - 1) as nat);
    assert(bits as nat / h == exponent && bits as nat % h == fraction) by (nonlinear_arith)
        requires
            bits == exponent * h + fraction,
            fraction < h,
            h > 0,
    ;
    assert(bits < INFINITY_BITS) by (nonlinear_arith)
        requires
            bits == exponent * h + fraction,
            exponent <= 1075,
            fraction < h,
            h == 0x0010_0000_0000_0000,
    ;
    assert((h + fraction) * up == n * pow2(quantum_exponent())) by (nonlinear_arith)
        requires
            h + fraction == n * down,
            pow2(quantum_exponent()) == down * up,
    ;
}

/// A double-precision number, held as its bit pattern.
#[derive(Clone, Copy, Debug)]
pub struct Scalar {
    pub bits: u64,
}

impl View for Scalar {
    type V = Value;

    open spec fn view(&self) -> Value {
        value_of(self.bits)
    }
}

impl Scalar {
    /// The integer by which patterns are ordered as their numbers are: the
    /// magnitude pattern, negated below zero.
    pub open spec fn rank(self) -> int {
        if negative_of(self.bits) {
            -(magnitude_of(self.bits) as int)
        } else {
            magnitude_of(self.bits) as int
        }
    }

    /// Ordering two numbers is ordering their ranks.
    pub proof fn lemma_rank_orders(self, other: Scalar)
        requires
            !(self@ is Nan),
            !(other@ is Nan),
        ensures
            self@.lt(other@) <==> self.rank() < other.rank(),
            self@.same(other@) <==> self.rank() == other.rank(),
    {
        let a = magnitude_of(self.bits);
        let b = magnitude_of(other.bits);
        if a < b {
            lemma_quanta_monotonic(a, b);
        } else if b < a {
            lemma_quanta_monotonic(b, a);
        }
        if a < INFINITY_BITS {
            lemma_quanta_monotonic(a, INFINITY_BITS as nat);
        }
        if b < INFINITY_BITS {
            lemma_quanta_monotonic(b, INFINITY_BITS as nat);
        }
        if 0 < a {
            lemma_quanta_monotonic(0, a);
        }
        if 0 < b {
            lemma_quanta_monotonic(0, b);
        }
        assert(quanta_of_magnitude(0) == 0);
    }

    /// A number has one pattern: two patterns of the same number, neither a
    /// NaN, are the same pattern or the two zeros.
    pub proof fn lemma_value_has_one_pattern(self, other: Scalar)
        requires
            self@ == other@,
            !(self@ is Nan),
        ensures
            self.bits == other.bits || self@ == Value::zero(),
    {
        self.lemma_rank_orders(other);
        let a = magnitude_of(self.bits);
        if 0 < a {
            lemma_quanta_monotonic(0, a);
        }
    }

    /// The double of the given pattern.
    pub fn from_bits(bits: u64) -> (r: Scalar)
        ensures
            r.bits == bits,
    {
        Scalar { bits }
    }

    /// The pattern of the double.
    pub fn to_bits(self) -> (bits: u64)
        ensures
            bits == self.bits,
    {
        self.bits
    }

    /// Positive zero.
    pub fn zero() -> (r: Scalar)
        ensures
            r.bits == 0,
            r@ == Value::zero(),
    {
        Scalar { bits: 0 }
    }

    fn magnitude_bits(self) -> (m: u64)
        ensures
            m == magnitude_of(self.bits),
    {
        self.bits % SIGN_BIT
    }

    pub fn is_sign_negative(self) -> (r: bool)
        ensures
            r == negative_of(self.bits),
    {
        self.bits >= SIGN_BIT
    }

    pub fn is_nan(self) -> (r: bool)
        ensures
            r == (self@ is Nan),
    {
        self.magnitude_bits() > INFINITY_BITS
    }

    pub fn is_infinite(self) -> (r: bool)
        ensures
            r == (self@ is Infinite),
    {
        self.magnitude_bits() == INFINITY_BITS
    }

    pub fn is_finite(self) -> (r: bool)
        ensures
            r == (self@ is Finite),
    {
        self.magnitude_bits() < INFINITY_BITS
    }

    /// Whether the number is zero, of either sign.
    pub fn is_zero(self) -> (r: bool)
        ensures
            r == (self@ == Value::zero()),
    {
        proof {
            if 0 < magnitude_of(self.bits) {
                lemma_quanta_monotonic(0, magnitude_of(self.bits));
            }
        }
        self.magnitude_bits() == 0
    }

    /// `self < other`, as the hardware compares: false whenever a NaN is involved.
    pub fn lt(self, other: Scalar) -> (r: bool)
        ensures
            r == self@.lt(other@),
    {
        if self.is_nan() || other.is_nan() {
            return false;
        }
        proof {
            self.lemma_rank_orders(other);
        }
        let a = self.magnitude_bits();
        let b = other.magnitude_bits();
        if self.is_sign_negative() {
            if other.is_sign_negative() {
                b < a
            } else {
                a != 0 || b != 0
            }
        } else {
            if other.is_sign_negative() {
                false
            } else {
                a < b
            }
        }
    }

    /// `self > other`.
    pub fn gt(self, other: Scalar) -> (r: bool)
        ensures
            r == other@.lt(self@),
    {
        other.lt(self)
    }

    /// `self == other` as numbers: the two zeros are equal, a NaN equals nothing.
    pub fn same(self, other: Scalar) -> (r: bool)
        ensures
            r == self@.same(other@),
    {
        if self.is_nan() || other.is_nan() {
            return false;
        }
        proof {
            self.lemma_rank_orders(other);
        }
        let a = self.magnitude_bits();
        let b = other.magnitude_bits();
        if a == 0 && b == 0 {
            true
        } else {
            self.bits == other.bits
        }
    }

    /// `self <= other`.
    pub fn le(self, other: Scalar) -> (r: bool)
        ensures
            r == self@.le(other@),
    {
        self.lt(other) || self.same(other)
    }

    /// `self >= other`.
    pub fn ge(self, other: Scalar) -> (r: bool)
        ensures
            r == other@.le(self@),
    {
        other.lt(self) || other.same(self)
    }

    /// The pattern with the other sign bit.
    pub open spec fn flipped(self) -> Scalar {
        if self.bits >= SIGN_BIT {
            Scalar { bits: (self.bits - SIGN_BIT) as u64 }
        } else {
            Scalar { bits: (self.bits + SIGN_BIT) as u64 }
        }
    }

    /// Flipping the sign bit negates the number, whatever the pattern.
    pub proof fn lemma_flipped_negates(self)
        ensures
            self.flipped()@ == self@.negated(),
            self.flipped().flipped() == self,
    {
    }

    /// The number with its sign flipped; exact for every pattern.
    pub fn neg(self) -> (r: Scalar)
        ensures
            r == self.flipped(),
            r@ == self@.negated(),
    {
        if self.bits >= SIGN_BIT {
            Scalar { bits: self.bits - SIGN_BIT }
        } else {
            Scalar { bits: self.bits + SIGN_BIT }
        }
    }

    /// The absolute value; exact for every pattern.
    pub fn abs(self) -> (r: Scalar)
        ensures
            r@ == self@.magnitude(),
            r.bits == magnitude_of(self.bits),
    {
        Scalar { bits: self.bits % SIGN_BIT }
    }

    /// `1.0`.
    pub fn one() -> (r: Scalar)
        ensures
            r.bits == ONE_BITS,
            r@ == Value::whole(1),
    {
        Scalar::from_i32(1)
    }

    /// The double that equals the whole number `n`; every 32-bit integer has one.
    pub fn from_i32(n: i32) -> (r: Scalar)
        ensures
            r@ == Value::whole(n as int),
            n == 0 ==> r.bits == 0,
            n == 1 ==> r.bits == ONE_BITS,
    {
        if n == 0 {
            assert(0 * pow2(quantum_exponent()) == 0) by (nonlinear_arith);
            return Scalar { bits: 0 };
        }
        let negative = n < 0;
        let m: u64 = if negative {
            (-(n as i64)) as u64
        } else {
            n as u64
        };
        let mut p: u64 = 0;
        let mut top: u64 = 1;
        let mut scale: u64 = HIDDEN_BIT;
        proof {
            lemma2_to64();
            lemma2_to64_rest();
        }
        while top * 2 <= m
            invariant
                1 <= m <= 0x8000_0000,
                p <= 31,
                top == pow2(p as nat),
                scale == pow2((52 - p) as nat),
                top * scale == HIDDEN_BIT,
                1 <= top <= m,
            decreases m - top,
        {
            proof {
                lemma2_to64();
                lemma_pow2_unfold((p + 1) as nat);
                lemma_pow2_unfold((52 - p) as nat);
                if p >= 31 {
                    lemma_pow2_strictly_increases(31, (p + 1) as nat);
                }
                assert(p < 31);
                assert((top * 2) * (scale / 2) == HIDDEN_BIT) by (nonlinear_arith)
                    requires
                        top * scale == HIDDEN_BIT,
                        scale % 2 == 0,
                ;
            }
            top = top * 2;
            scale = scale / 2;
            p = p + 1;
        }
        assert((m - top) * scale < HIDDEN_BIT && top * scale + (m - top) * scale == m * scale)
            by (nonlinear_arith)
            requires
                top <= m < top * 2,
                top * scale == HIDDEN_BIT,
                scale > 0,
        ;
        let fraction: u64 = (m - top) * scale;
        let exponent: u64 = 1023 + p;
        let magnitude: u64 = exponent * HIDDEN_BIT + fraction;
        proof {
            let h = HIDDEN_BIT as nat;
            assert(magnitude as nat / h == exponent && magnitude as nat % h == fraction)
                by (nonlinear_arith)
                requires
                    magnitude == exponent * h + fraction,
                    fraction < h,
                    h > 0,
            ;
            lemma_pow2_adds((52 - p) as nat, (1022 + p) as nat);
            assert(quanta_of_magnitude(magnitude as nat) == m * pow2(quantum_exponent()))
                by (nonlinear_arith)
                requires
                    quanta_of_magnitude(magnitude as nat) == (h + fraction) * pow2(
                        (exponent - 1) as nat,
                    ),
                    h + fraction == m * scale,
                    exponent - 1 == 1022 + p,
                    scale == pow2((52 - p) as nat),
                    pow2(quantum_exponent()) == pow2((52 - p) as nat) * pow2((1022 + p) as nat),
            ;
            assert(-(m * pow2(quantum_exponent())) == (-(m as int)) * pow2(quantum_exponent()))
                by (nonlinear_arith);
        }
        if negative {
            Scalar { bits: magnitude + SIGN_BIT }
        } else {
            Scalar { bits: magnitude }
        }
    }
}

} // verus!

