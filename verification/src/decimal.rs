//! Decimal numbers as they are written: a run of digits and a power of ten.
//!
//! A number of any length can be compared with another without computing
//! either: the places of their first digits decide, and where those are the
//! same the first digit in which they differ.
use vstd::arithmetic::power::{
    lemma_pow0, lemma_pow1, lemma_pow_adds, lemma_pow_distributes, lemma_pow_increases,
    lemma_pow_positive, pow,
};
use vstd::prelude::*;

verus! {

/// Whether the character is one of `0` to `9`.
pub open spec fn is_digit(c: char) -> bool {
    48 <= c as u32 <= 57
}

/// The number that a digit stands for.
pub open spec fn digit_value(c: char) -> nat {
    (c as u32 - 48) as nat
}

/// Whether every character is one of `0` to `9`.
pub open spec fn all_digits(s: Seq<char>) -> bool {
    forall|i: int| 0 <= i < s.len() ==> is_digit(#[trigger] s[i])
}

/// The digit at place `k` of `s`, and zero where `s` has none.
pub open spec fn digit_at(s: Seq<char>, k: int) -> nat {
    if 0 <= k < s.len() {
        digit_value(s[k])
    } else {
        0
    }
}

/// The number that the digits `s[from..to]` write in base ten. Digits that
/// `s` lacks are zeros.
pub open spec fn decimal(s: Seq<char>, from: int, to: int) -> nat
    decreases to - from,
{
    if to <= from {
        0
    } else {
        decimal(s, from, to - 1) * 10 + digit_at(s, to - 1)
    }
}

/// The number that all of `s` writes.
pub open spec fn number(s: Seq<char>) -> nat {
    decimal(s, 0, s.len() as int)
}

/// Ten to the power `k`.
pub open spec fn ten_to(k: int) -> int {
    pow(10, k as nat)
}

/// Whether `m * 10^e` is greater than `c * 10^f`.
pub open spec fn scaled_gt(m: nat, e: int, c: nat, f: int) -> bool {
    if e >= f {
        m * ten_to(e - f) > c
    } else {
        m > c * ten_to(f - e)
    }
}

/// The end of the run of zeros that starts at `from`.
pub open spec fn zeros_end(digits: Seq<char>, from: int) -> int
    decreases digits.len() - from,
{
    if 0 <= from < digits.len() && digits[from] == '0' {
        zeros_end(digits, from + 1)
    } else {
        from
    }
}

/// The next power of ten is ten times the power, and no power is below one.
pub proof fn lemma_ten_to_step(k: int)
    requires
        k >= 0,
    ensures
        ten_to(k + 1) == 10 * ten_to(k),
        ten_to(k) >= 1,
        ten_to(0) == 1,
{
    lemma_pow_adds(10, 1, k as nat);
    lemma_pow1(10);
    lemma_pow0(10);
    lemma_pow_positive(10, k as nat);
}

/// Powers of ten multiply by adding their exponents.
pub proof fn lemma_ten_to_adds(j: int, k: int)
    requires
        j >= 0,
        k >= 0,
    ensures
        ten_to(j + k) == ten_to(j) * ten_to(k),
        ten_to(j) >= 1,
        ten_to(k) >= 1,
{
    lemma_pow_adds(10, j as nat, k as nat);
    lemma_pow_positive(10, j as nat);
    lemma_pow_positive(10, k as nat);
}

/// A higher power of ten is not the smaller one.
pub proof fn lemma_ten_to_increases(j: int, k: int)
    requires
        0 <= j <= k,
    ensures
        1 <= ten_to(j) <= ten_to(k),
{
    lemma_pow_increases(10, j as nat, k as nat);
    lemma_pow_positive(10, j as nat);
}

/// A number is its leading digits, shifted, and its trailing digits.
pub proof fn lemma_decimal_splits(s: Seq<char>, from: int, mid: int, to: int)
    requires
        from <= mid <= to,
    ensures
        decimal(s, from, to) == decimal(s, from, mid) * ten_to(to - mid) + decimal(s, mid, to),
    decreases to - mid,
{
    if mid == to {
        lemma_ten_to_step(0);
        assert(decimal(s, mid, to) == 0);
        let a = decimal(s, from, mid) as int;
        assert(a * ten_to(to - mid) == a) by (nonlinear_arith)
            requires
                ten_to(to - mid) == 1,
        ;
    } else {
        lemma_decimal_splits(s, from, mid, to - 1);
        lemma_ten_to_step(to - 1 - mid);
        let a = decimal(s, from, mid) as int;
        let p = ten_to(to - 1 - mid);
        let b = decimal(s, mid, to - 1) as int;
        let d = digit_at(s, to - 1) as int;
        assert(ten_to(to - mid) == 10 * p);
        assert(decimal(s, from, to) == decimal(s, from, to - 1) * 10 + d);
        assert(decimal(s, mid, to) == b * 10 + d);
        assert((a * p + b) * 10 + d == a * ten_to(to - mid) + (b * 10 + d)) by (nonlinear_arith)
            requires
                ten_to(to - mid) == 10 * p,
        ;
    }
}

/// A number of `n` digits is below ten to the `n`.
pub proof fn lemma_decimal_is_bounded(s: Seq<char>, from: int, to: int)
    requires
        from <= to,
        all_digits(s),
    ensures
        decimal(s, from, to) < ten_to(to - from),
    decreases to - from,
{
    if from == to {
        lemma_ten_to_step(0);
    } else {
        lemma_decimal_is_bounded(s, from, to - 1);
        lemma_ten_to_step(to - 1 - from);
        if 0 <= to - 1 < s.len() {
            assert(is_digit(s[to - 1]));
        }
    }
}

/// A number of `n` digits whose first digit is not zero is at least ten to
/// the `n - 1`.
pub proof fn lemma_decimal_is_large(s: Seq<char>, from: int, to: int)
    requires
        from < to,
        digit_at(s, from) >= 1,
    ensures
        decimal(s, from, to) >= ten_to(to - from - 1),
{
    lemma_decimal_splits(s, from, from + 1, to);
    lemma_ten_to_step(to - from - 1);
    assert(decimal(s, from, from) == 0);
    assert(decimal(s, from, from + 1) == digit_at(s, from));
    let d = digit_at(s, from) as int;
    let p = ten_to(to - from - 1);
    assert(d * p >= p) by (nonlinear_arith)
        requires
            d >= 1,
            p >= 1,
    ;
}

/// Zeros write zero.
pub proof fn lemma_zeros_write_zero(s: Seq<char>, from: int, to: int)
    requires
        forall|k: int| from <= k < to ==> digit_at(s, k) == 0,
    ensures
        decimal(s, from, to) == 0,
    decreases to - from,
{
    if from < to {
        lemma_zeros_write_zero(s, from, to - 1);
    }
}

/// A run of zeros holds zeros only and ends before a character that is none.
pub proof fn lemma_zeros_end_bounds(digits: Seq<char>, from: int)
    requires
        0 <= from <= digits.len(),
    ensures
        from <= zeros_end(digits, from) <= digits.len(),
        forall|k: int| from <= k < zeros_end(digits, from) ==> digits[k] == '0',
        zeros_end(digits, from) < digits.len() ==> digits[zeros_end(digits, from)] != '0',
    decreases digits.len() - from,
{
    if from < digits.len() && digits[from] == '0' {
        lemma_zeros_end_bounds(digits, from + 1);
    }
}

/// Among numbers of the same length, the first digit in which two differ
/// tells the greater from the smaller.
pub proof fn lemma_first_difference_decides(
    a: Seq<char>,
    za: int,
    c: Seq<char>,
    zc: int,
    k: int,
    len: int,
)
    requires
        all_digits(a),
        all_digits(c),
        0 <= k < len,
        decimal(a, za, za + k) == decimal(c, zc, zc + k),
        digit_at(a, za + k) != digit_at(c, zc + k),
    ensures
        decimal(a, za, za + len) > decimal(c, zc, zc + len) <==> digit_at(a, za + k) > digit_at(
            c,
            zc + k,
        ),
        decimal(a, za, za + len) != decimal(c, zc, zc + len),
{
    let r = len - k - 1;
    lemma_decimal_splits(a, za, za + k + 1, za + len);
    lemma_decimal_splits(c, zc, zc + k + 1, zc + len);
    lemma_decimal_is_bounded(a, za + k + 1, za + len);
    lemma_decimal_is_bounded(c, zc + k + 1, zc + len);
    lemma_ten_to_step(r);
    let p = ten_to(r);
    let ha = decimal(a, za, za + k + 1) as int;
    let hc = decimal(c, zc, zc + k + 1) as int;
    let ta = decimal(a, za + k + 1, za + len) as int;
    let tc = decimal(c, zc + k + 1, zc + len) as int;
    if ha > hc {
        assert(ha * p + ta > hc * p + tc) by (nonlinear_arith)
            requires
                ha >= hc + 1,
                0 <= ta,
                0 <= tc < p,
        ;
    } else {
        assert(ha * p + ta < hc * p + tc) by (nonlinear_arith)
            requires
                hc >= ha + 1,
                0 <= tc,
                0 <= ta < p,
        ;
    }
}

/// Where the first digit of one number stands in a higher place than the
/// first digit of the other, it is the greater of the two.
pub proof fn lemma_places_decide(m: nat, sa: int, e: int, c: nat, sc: int, f: int)
    requires
        sa >= 1,
        sc >= 1,
        ten_to(sa - 1) <= m < ten_to(sa),
        ten_to(sc - 1) <= c < ten_to(sc),
        e + sa != f + sc,
    ensures
        scaled_gt(m, e, c, f) <==> e + sa > f + sc,
{
    if e >= f {
        let d = e - f;
        let p = ten_to(d);
        lemma_ten_to_adds(sa - 1, d);
        lemma_ten_to_adds(sa, d);
        if e + sa > f + sc {
            lemma_ten_to_increases(sc, sa - 1 + d);
            assert(m * p >= ten_to(sa - 1) * p) by (nonlinear_arith)
                requires
                    m >= ten_to(sa - 1),
                    p >= 1,
            ;
        } else {
            lemma_ten_to_increases(sa + d, sc - 1);
            assert(m * p < ten_to(sa) * p) by (nonlinear_arith)
                requires
                    m < ten_to(sa),
                    p >= 1,
            ;
        }
    } else {
        let d = f - e;
        let p = ten_to(d);
        lemma_ten_to_adds(sc - 1, d);
        lemma_ten_to_adds(sc, d);
        if e + sa > f + sc {
            lemma_ten_to_increases(sc + d, sa - 1);
            assert(c * p < ten_to(sc) * p) by (nonlinear_arith)
                requires
                    c < ten_to(sc),
                    p >= 1,
            ;
        } else {
            lemma_ten_to_increases(sa, sc - 1 + d);
            assert(c * p >= ten_to(sc - 1) * p) by (nonlinear_arith)
                requires
                    c >= ten_to(sc - 1),
                    p >= 1,
            ;
        }
    }
}

/// A number read with more digits than it has is the number shifted.
pub proof fn lemma_padding_shifts(s: Seq<char>, from: int, count: int)
    requires
        0 <= from <= s.len(),
        from + count >= s.len(),
    ensures
        decimal(s, from, from + count) == decimal(s, from, s.len() as int) * ten_to(
            from + count - s.len(),
        ),
{
    lemma_decimal_splits(s, from, s.len() as int, from + count);
    lemma_zeros_write_zero(s, s.len() as int, from + count);
}

/// A digit other than the character `0` is worth one at least.
pub proof fn lemma_digit_is_positive(c: char)
    requires
        is_digit(c),
        c != '0',
    ensures
        1 <= digit_value(c) <= 9,
{
    assert('0' as u32 == 48);
    assert(c as u32 != 48);
}

/// Leading zeros do not change a number.
pub proof fn lemma_leading_zeros(s: Seq<char>, zeros: int)
    requires
        0 <= zeros <= s.len(),
        forall|k: int| 0 <= k < zeros ==> s[k] == '0',
    ensures
        number(s) == decimal(s, zeros, s.len() as int),
{
    lemma_decimal_splits(s, 0, zeros, s.len() as int);
    lemma_zeros_write_zero(s, 0, zeros);
    let p = ten_to(s.len() - zeros);
    assert(0 * p == 0) by (nonlinear_arith);
}

fn digit_of(c: char) -> (d: u32)
    requires
        is_digit(c),
    ensures
        d == digit_value(c),
        d <= 9,
{
    c as u32 - 48
}

/// Runs over the zeros from `from` on.
fn scan_zeros(digits: &Vec<char>, from: usize) -> (end: usize)
    requires
        from <= digits.len(),
    ensures
        end == zeros_end(digits@, from as int),
        from <= end <= digits.len(),
        forall|k: int| from <= k < end ==> digits@[k] == '0',
        end < digits.len() ==> digits@[end as int] != '0',
{
    let mut i = from;
    while i < digits.len() && digits[i] == '0'
        invariant
            from <= i <= digits.len(),
            zeros_end(digits@, from as int) == zeros_end(digits@, i as int),
        decreases digits.len() - i,
    {
        i = i + 1;
    }
    proof {
        lemma_zeros_end_bounds(digits@, from as int);
    }
    i
}

/// Whether the `len` digits of `a` from `za` on write a greater number than
/// the `len` digits of `c` from `zc` on.
fn digits_exceed(a: &Vec<char>, za: usize, c: &Vec<char>, zc: usize, len: usize) -> (r: bool)
    requires
        all_digits(a@),
        all_digits(c@),
        za <= a.len(),
        zc <= c.len(),
    ensures
        r == (decimal(a@, za as int, za + len) > decimal(c@, zc as int, zc + len)),
{
    let sa = a.len() - za;
    let sc = c.len() - zc;
    let mut k: usize = 0;
    while k < len
        invariant
            all_digits(a@),
            all_digits(c@),
            za <= a.len(),
            zc <= c.len(),
            sa == a.len() - za,
            sc == c.len() - zc,
            k <= len,
            decimal(a@, za as int, za + k) == decimal(c@, zc as int, zc + k),
        decreases len - k,
    {
        let da: u32 = if k < sa {
            digit_of(a[za + k])
        } else {
            0
        };
        let dc: u32 = if k < sc {
            digit_of(c[zc + k])
        } else {
            0
        };
        if da != dc {
            proof {
                lemma_first_difference_decides(a@, za as int, c@, zc as int, k as int, len as int);
            }
            return da > dc;
        }
        k = k + 1;
    }
    false
}

/// The largest power of ten in magnitude that `exceeds` takes exactly: two
/// to the 88th.
pub const EXACT_POWER: i128 = 0x0100_0000_0000_0000_0000_0000;

/// The largest power of ten in magnitude of the number that `exceeds`
/// compares with: two to the 64th.
pub const PLAIN_POWER: i128 = 0x0001_0000_0000_0000_0000;

/// Whether the number `a * 10^e` is greater than the number `c * 10^f`.
///
/// `power` is `e` where `e` is at most [`EXACT_POWER`] in magnitude, and any
/// power beyond that bound on the side of `e` otherwise.
pub(crate) fn exceeds(a: &Vec<char>, power: i128, Ghost(e): Ghost<int>, c: &Vec<char>, f: i128) -> (r:
    bool)
    requires
        all_digits(a@),
        all_digits(c@),
        -PLAIN_POWER <= f <= PLAIN_POWER,
        -4 * EXACT_POWER <= power <= 4 * EXACT_POWER,
        power == e || (power > EXACT_POWER && e >= power) || (power < -EXACT_POWER && e <= power),
    ensures
        r == scaled_gt(number(a@), e, number(c@), f as int),
{
    let za = scan_zeros(a, 0);
    let zc = scan_zeros(c, 0);
    proof {
        lemma_leading_zeros(a@, za as int);
        lemma_leading_zeros(c@, zc as int);
        if e >= f {
            lemma_ten_to_increases(0, e - f);
        } else {
            lemma_ten_to_increases(0, f - e);
        }
        lemma_ten_to_step(0);
    }
    if za == a.len() {
        proof {
            assert(number(a@) == 0);
            if e < f {
                let p = ten_to(f - e);
                let n = number(c@) as int;
                assert(n * p >= 0) by (nonlinear_arith)
                    requires
                        n >= 0,
                        p >= 1,
                ;
            }
        }
        return false;
    }
    let sa = a.len() - za;
    proof {
        assert(is_digit(a@[za as int]));
        lemma_digit_is_positive(a@[za as int]);
        lemma_decimal_is_large(a@, za as int, a.len() as int);
        lemma_decimal_is_bounded(a@, za as int, a.len() as int);
        lemma_ten_to_increases(0, sa - 1);
    }
    if zc == c.len() {
        proof {
            assert(number(c@) == 0);
            if e >= f {
                let p = ten_to(e - f);
                let n = number(a@) as int;
                assert(n * p > 0) by (nonlinear_arith)
                    requires
                        n >= 1,
                        p >= 1,
                ;
            }
        }
        return true;
    }
    let sc = c.len() - zc;
    proof {
        assert(is_digit(c@[zc as int]));
        lemma_digit_is_positive(c@[zc as int]);
        lemma_decimal_is_large(c@, zc as int, c.len() as int);
        lemma_decimal_is_bounded(c@, zc as int, c.len() as int);
        if e + sa != f + sc {
            lemma_places_decide(number(a@), sa as int, e, number(c@), sc as int, f as int);
        }
    }
    let place_a: i128 = power + sa as i128;
    let place_c: i128 = f + sc as i128;
    if place_a > place_c {
        true
    } else if place_a < place_c {
        false
    } else {
        let len = if sa > sc {
            sa
        } else {
            sc
        };
        proof {
            assert(power == e);
            lemma_padding_shifts(a@, za as int, len as int);
            lemma_padding_shifts(c@, zc as int, len as int);
            lemma_ten_to_step(0);
        }
        digits_exceed(a, za, c, zc, len)
    }
}

/// Numbers that have the same digits in the same places are the same.
pub proof fn lemma_decimal_reads_digits(a: Seq<char>, b: Seq<char>, from: int, to: int)
    requires
        forall|k: int| from <= k < to ==> digit_at(a, k) == digit_at(b, k),
    ensures
        decimal(a, from, to) == decimal(b, from, to),
    decreases to - from,
{
    if from < to {
        lemma_decimal_reads_digits(a, b, from, to - 1);
    }
}

fn digit_char(d: u32) -> (c: char)
    requires
        d <= 9,
    ensures
        is_digit(c),
        digit_value(c) == d,
{
    match d {
        0 => '0',
        1 => '1',
        2 => '2',
        3 => '3',
        4 => '4',
        5 => '5',
        6 => '6',
        7 => '7',
        8 => '8',
        _ => '9',
    }
}

/// Half of an even number, as long division by two finds it: digit by
/// digit from the first, with the same number of digits.
fn halve(digits: &Vec<char>) -> (half: Vec<char>)
    requires
        all_digits(digits@),
        number(digits@) % 2 == 0,
    ensures
        half.len() == digits.len(),
        all_digits(half@),
        number(half@) * 2 == number(digits@),
{
    let mut half: Vec<char> = Vec::new();
    let mut rest: u32 = 0;
    let mut i: usize = 0;
    while i < digits.len()
        invariant
            i <= digits.len(),
            half.len() == i,
            all_digits(half@),
            all_digits(digits@),
            rest <= 1,
            decimal(half@, 0, i as int) * 2 + rest == decimal(digits@, 0, i as int),
        decreases digits.len() - i,
    {
        let ghost before = half@;
        let current = rest * 10 + digit_of(digits[i]);
        let quotient = current / 2;
        rest = current % 2;
        half.push(digit_char(quotient));
        proof {
            lemma_decimal_reads_digits(before, half@, 0, i as int);
            assert(digit_at(half@, i as int) == quotient);
            assert(digit_at(digits@, i as int) == digit_value(digits@[i as int]));
        }
        i = i + 1;
    }
    half
}

/// The digits of five to the power `n`, after zeros that make them `n + 1`
/// in all: one followed by `n` zeros, halved `n` times.
pub(crate) fn power_of_five(n: usize) -> (digits: Vec<char>)
    requires
        n < usize::MAX,
    ensures
        digits.len() == n + 1,
        all_digits(digits@),
        number(digits@) == pow(5, n as nat),
{
    let mut digits: Vec<char> = Vec::new();
    digits.push('1');
    proof {
        lemma_ten_to_step(0);
        assert(decimal(digits@, 0, 0) == 0);
        assert('1' as u32 == 49);
    }
    let mut k: usize = 0;
    while k < n
        invariant
            k <= n < usize::MAX,
            digits.len() == k + 1,
            all_digits(digits@),
            number(digits@) == ten_to(k as int),
        decreases n - k,
    {
        let ghost before = digits@;
        digits.push('0');
        proof {
            assert('0' as u32 == 48);
            lemma_decimal_reads_digits(before, digits@, 0, k + 1);
            lemma_ten_to_step(k as int);
        }
        k = k + 1;
    }
    proof {
        lemma_pow_distributes(5, 2, n as nat);
        lemma_pow0(2);
    }
    let mut halvings: usize = 0;
    while halvings < n
        invariant
            halvings <= n,
            digits.len() == n + 1,
            all_digits(digits@),
            number(digits@) == pow(5, n as nat) * pow(2, (n - halvings) as nat),
        decreases n - halvings,
    {
        let ghost twos = pow(2, (n - halvings - 1) as nat);
        let ghost fives = pow(5, n as nat);
        proof {
            lemma_pow_adds(2, 1, (n - halvings - 1) as nat);
            lemma_pow1(2);
            assert(fives * (2 * twos) == 2 * (fives * twos)) by (nonlinear_arith);
            assert((2 * (fives * twos)) % 2 == 0) by (nonlinear_arith);
        }
        digits = halve(&digits);
        halvings = halvings + 1;
    }
    proof {
        let fives = pow(5, n as nat);
        assert(fives * 1 == fives) by (nonlinear_arith);
    }
    digits
}

} // verus!
