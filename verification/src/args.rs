//! Validation of the numbers that a user writes on the command line.
//!
//! A resolution and a level of anti-aliasing are written as unsigned decimal
//! integers, positions and colours as decimal floating-point literals. The
//! validators accept exactly the strings that Rust's `str::parse` reads as a
//! `u32` or as a double, and decide from the text alone whether the number
//! read is greater than zero.
use crate::decimal::{
    all_digits, decimal, digit_value, exceeds, is_digit, number, power_of_five, scaled_gt,
};
use vstd::arithmetic::power::pow;
use vstd::prelude::*;
use vstd::string::StringExecFns;

verus! {

pub open spec fn is_sign(c: char) -> bool {
    c == '+' || c == '-'
}

/// The code of a character, with that of the small letter for a capital
/// ASCII letter.
pub open spec fn folded(c: char) -> u32 {
    if 65 <= c as u32 <= 90 {
        (c as u32 + 32) as u32
    } else {
        c as u32
    }
}

/// The end of the run of digits that starts at `from`: the index of the
/// first character at or after `from` that is no digit, or the length.
pub open spec fn digits_end(s: Seq<char>, from: int) -> int
    decreases s.len() - from,
{
    if 0 <= from < s.len() && is_digit(s[from]) {
        digits_end(s, from + 1)
    } else {
        from
    }
}

/// The number that a string denotes as a `u32`: an optional `+`, then one
/// digit or more and nothing else, of a value that fits 32 bits.
pub open spec fn parsed_u32(s: Seq<char>) -> Option<u32> {
    let start: int = if s.len() > 0 && s[0] == '+' {
        1
    } else {
        0
    };
    if start < s.len() && digits_end(s, start) == s.len() && decimal(s, start, s.len() as int)
        <= u32::MAX {
        Some(decimal(s, start, s.len() as int) as u32)
    } else {
        None
    }
}

/// Whether `s` from `from` on is `word`, in capital or small letters.
pub open spec fn spells(s: Seq<char>, from: int, word: Seq<char>) -> bool {
    &&& s.len() - from == word.len()
    &&& forall|k: int| 0 <= k < word.len() ==> folded(#[trigger] s[from + k]) == word[k] as u32
}

pub open spec fn word_inf() -> Seq<char> {
    seq!['i', 'n', 'f']
}

pub open spec fn word_infinity() -> Seq<char> {
    seq!['i', 'n', 'f', 'i', 'n', 'i', 't', 'y']
}

pub open spec fn word_nan() -> Seq<char> {
    seq!['n', 'a', 'n']
}

/// The length of the sign that a literal starts with: one or zero.
pub open spec fn sign_len(s: Seq<char>, from: int) -> int {
    if 0 <= from < s.len() && is_sign(s[from]) {
        1
    } else {
        0
    }
}

/// The parts of a decimal number that starts at `from`: a run of digits,
/// then, if a point follows, the point and another run of digits.
pub open spec fn int_end(s: Seq<char>, from: int) -> int {
    digits_end(s, from)
}

/// Whether a point follows the digits before it.
pub open spec fn has_point(s: Seq<char>, from: int) -> bool {
    int_end(s, from) < s.len() && s[int_end(s, from)] == '.'
}

/// Where the digits behind the point start.
pub open spec fn frac_start(s: Seq<char>, from: int) -> int {
    if has_point(s, from) {
        int_end(s, from) + 1
    } else {
        int_end(s, from)
    }
}

/// Where the digits behind the point end, and with them the mantissa.
pub open spec fn frac_end(s: Seq<char>, from: int) -> int {
    digits_end(s, frac_start(s, from))
}

/// Whether `s` from `at` on is empty or an exponent: `e` or `E`, an
/// optional sign, then one digit or more and nothing else.
pub open spec fn exponent_ok(s: Seq<char>, at: int) -> bool {
    at == s.len() || {
        let digits = at + 1 + sign_len(s, at + 1);
        &&& 0 <= at < s.len()
        &&& folded(s[at]) == 'e' as u32
        &&& digits < s.len()
        &&& digits_end(s, digits) == s.len()
    }
}

/// Whether `s` from `from` on is a decimal number: digits with at most one
/// point among them, one digit at least, and then an exponent or nothing.
pub open spec fn is_number(s: Seq<char>, from: int) -> bool {
    &&& (int_end(s, from) - from) + (frac_end(s, from) - frac_start(s, from)) > 0
    &&& exponent_ok(s, frac_end(s, from))
}

/// Whether a string is a floating-point literal: an optional sign, then
/// `inf`, `infinity` or `nan` in letters of either case, or a decimal number.
pub open spec fn is_float_literal(s: Seq<char>) -> bool {
    let from = sign_len(s, 0);
    ||| spells(s, from, word_inf())
    ||| spells(s, from, word_infinity())
    ||| spells(s, from, word_nan())
    ||| is_number(s, from)
}

/// The digits of a number's mantissa, those before the point and those
/// behind it in one run.
pub open spec fn mantissa(s: Seq<char>, from: int) -> Seq<char> {
    s.subrange(from, int_end(s, from)) + s.subrange(frac_start(s, from), frac_end(s, from))
}

/// The exponent that a number is written with, zero where it has none.
pub open spec fn exponent(s: Seq<char>, from: int) -> int {
    let at = frac_end(s, from);
    if at >= s.len() {
        0
    } else {
        let digits = at + 1 + sign_len(s, at + 1);
        if s[at + 1] == '-' {
            -(decimal(s, digits, s.len() as int) as int)
        } else {
            decimal(s, digits, s.len() as int) as int
        }
    }
}

/// The power of ten of the last digit of a number's mantissa: the exponent
/// that the number is written with, less the number of digits behind the point.
pub open spec fn last_place(s: Seq<char>, from: int) -> int {
    exponent(s, from) - (frac_end(s, from) - frac_start(s, from))
}

/// The binary exponent of half the least positive double, `2^-1075`.
pub open spec fn half_least_exponent() -> nat {
    1075
}

/// Whether the decimal number at `from` is read as a double greater than
/// zero: whether it is greater than half the least positive double. A
/// number up to that half is nearest to zero, and read as zero.
///
/// The half is `2^-1075`, which is `5^1075 * 10^-1075`.
pub open spec fn reads_above_zero(s: Seq<char>, from: int) -> bool {
    scaled_gt(
        number(mantissa(s, from)),
        last_place(s, from),
        pow(5, half_least_exponent()) as nat,
        -(half_least_exponent() as int),
    )
}

/// Whether a floating-point literal is read as a double greater than zero:
/// it has no minus sign, and it is an infinity or a number read above zero.
pub open spec fn is_positive_literal(s: Seq<char>) -> bool {
    let from = sign_len(s, 0);
    &&& !(s.len() > 0 && s[0] == '-')
    &&& {
        ||| spells(s, from, word_inf())
        ||| spells(s, from, word_infinity())
        ||| (!spells(s, from, word_nan()) && is_number(s, from) && reads_above_zero(s, from))
    }
}

proof fn lemma_digits_end_bounds(s: Seq<char>, from: int)
    requires
        0 <= from <= s.len(),
    ensures
        from <= digits_end(s, from) <= s.len(),
        forall|k: int| from <= k < digits_end(s, from) ==> is_digit(#[trigger] s[k]),
        digits_end(s, from) < s.len() ==> !is_digit(s[digits_end(s, from)]),
    decreases s.len() - from,
{
    if from < s.len() && is_digit(s[from]) {
        lemma_digits_end_bounds(s, from + 1);
    }
}

fn is_digit_char(c: char) -> (r: bool)
    ensures
        r == is_digit(c),
{
    let code = c as u32;
    48 <= code && code <= 57
}

fn fold_char(c: char) -> (r: u32)
    ensures
        r == folded(c),
{
    let code = c as u32;
    if 65 <= code && code <= 90 {
        code + 32
    } else {
        code
    }
}

fn collect_chars(s: &str) -> (v: Vec<char>)
    ensures
        v@ == s@,
{
    let mut v: Vec<char> = Vec::new();
    for c in it: s.chars()
        invariant
            v@ == it.seq().take(it.index() as int),
            it.seq() == s@,
    {
        v.push(c);
    }
    v
}

/// Runs over the digits from `from` on.
fn scan_digits(s: &Vec<char>, from: usize) -> (end: usize)
    requires
        from <= s.len(),
    ensures
        end == digits_end(s@, from as int),
        from <= end <= s.len(),
{
    let mut i = from;
    while i < s.len() && is_digit_char(s[i])
        invariant
            from <= i <= s.len(),
            digits_end(s@, from as int) == digits_end(s@, i as int),
        decreases s.len() - i,
    {
        i = i + 1;
    }
    i
}

/// The value of the digits `s[from..to]`, or `cap` where the value is greater.
fn decimal_capped(s: &Vec<char>, from: usize, to: usize, cap: u128) -> (v: u128)
    requires
        from <= to <= s.len(),
        forall|k: int| from <= k < to ==> is_digit(#[trigger] s[k]),
        cap <= 0x0fff_ffff_ffff_ffff_ffff_ffff_ffff_ffff,
    ensures
        v == if decimal(s@, from as int, to as int) <= cap {
            decimal(s@, from as int, to as int)
        } else {
            cap as nat
        },
{
    let mut acc: u128 = 0;
    let mut i = from;
    while i < to
        invariant
            from <= i <= to <= s.len(),
            forall|k: int| from <= k < to ==> is_digit(#[trigger] s[k]),
            cap <= 0x0fff_ffff_ffff_ffff_ffff_ffff_ffff_ffff,
            acc == if decimal(s@, from as int, i as int) <= cap {
                decimal(s@, from as int, i as int)
            } else {
                cap as nat
            },
        decreases to - i,
    {
        let digit = (s[i] as u32 - 48) as u128;
        assert(decimal(s@, from as int, i + 1) == decimal(s@, from as int, i as int) * 10
            + digit_value(s@[i as int]));
        let next = acc * 10 + digit;
        acc = if next > cap {
            cap
        } else {
            next
        };
        i = i + 1;
    }
    acc
}

/// Reads a `u32`: an optional `+`, then digits and nothing else, of a value
/// that fits 32 bits.
pub fn parse_u32(input: &str) -> (r: Option<u32>)
    ensures
        r == parsed_u32(input@),
{
    let s = collect_chars(input);
    let start: usize = if s.len() > 0 && s[0] == '+' {
        1
    } else {
        0
    };
    if start >= s.len() {
        return None;
    }
    let end = scan_digits(&s, start);
    if end != s.len() {
        return None;
    }
    proof {
        lemma_digits_end_bounds(s@, start as int);
    }
    let value = decimal_capped(&s, start, end, 0x1_0000_0000);
    if value > 0xffff_ffff {
        None
    } else {
        Some(value as u32)
    }
}

/// Accepts the strings that denote a `u32` greater than zero.
pub fn positive_int_validator(input: String) -> (r: Result<(), String>)
    ensures
        match parsed_u32(input@) {
            None => r is Err && r->Err_0@ == "must be a valid integer"@,
            Some(n) => if n > 0 {
                r is Ok
            } else {
                r is Err && r->Err_0@ == "Must be greater than zero"@
            },
        },
{
    match parse_u32(input.as_str()) {
        None => Err(String::from_str("must be a valid integer")),
        Some(n) => if n > 0 {
            Ok(())
        } else {
            Err(String::from_str("Must be greater than zero"))
        },
    }
}

fn spells_word(s: &Vec<char>, from: usize, word: &Vec<char>) -> (r: bool)
    requires
        from <= s.len(),
    ensures
        r == spells(s@, from as int, word@),
{
    if s.len() - from != word.len() {
        return false;
    }
    let mut k: usize = 0;
    while k < word.len()
        invariant
            from <= s.len(),
            s.len() - from == word.len(),
            k <= word.len(),
            forall|j: int| 0 <= j < k ==> folded(#[trigger] s@[from + j]) == word@[j] as u32,
        decreases word.len() - k,
    {
        if fold_char(s[from + k]) != word[k] as u32 {
            assert(folded(s@[from + k]) != word@[k as int] as u32);
            return false;
        }
        k = k + 1;
    }
    true
}

/// The three words that a literal may spell in place of a number.
#[derive(Clone, Copy, Debug, PartialEq, Eq, Structural)]
enum Word {
    Inf,
    Infinity,
    Nan,
}

fn scan_word(s: &Vec<char>, from: usize) -> (r: Option<Word>)
    requires
        from <= s.len(),
    ensures
        r == Some(Word::Inf) <==> spells(s@, from as int, word_inf()),
        r == Some(Word::Infinity) <==> spells(s@, from as int, word_infinity()),
        r == Some(Word::Nan) <==> spells(s@, from as int, word_nan()),
{
    let inf = vec!['i', 'n', 'f'];
    let infinity = vec!['i', 'n', 'f', 'i', 'n', 'i', 't', 'y'];
    let nan = vec!['n', 'a', 'n'];
    assert(inf@ =~= word_inf());
    assert(infinity@ =~= word_infinity());
    assert(nan@ =~= word_nan());
    if spells_word(s, from, &inf) {
        assert(!spells(s@, from as int, word_nan())) by {
            assert(folded(s@[from + 0]) == word_inf()[0] as u32);
        }
        Some(Word::Inf)
    } else if spells_word(s, from, &infinity) {
        Some(Word::Infinity)
    } else if spells_word(s, from, &nan) {
        Some(Word::Nan)
    } else {
        None
    }
}

/// Where the parts of a decimal number lie in its text.
struct Shape {
    int_end: usize,
    frac_start: usize,
    frac_end: usize,
    /// Where the digits of the exponent start; the length where there is no exponent.
    exp_digits: usize,
    exp_negative: bool,
}

/// Finds the parts of the decimal number at `from`, if there is one.
fn scan_number(s: &Vec<char>, from: usize) -> (r: Option<Shape>)
    requires
        from <= s.len(),
    ensures
        r is Some <==> is_number(s@, from as int),
        match r {
            Some(shape) => {
                &&& shape.int_end == int_end(s@, from as int)
                &&& shape.frac_start == frac_start(s@, from as int)
                &&& shape.frac_end == frac_end(s@, from as int)
                &&& from <= shape.int_end <= shape.frac_start <= shape.frac_end <= shape.exp_digits
                    <= s.len()
                &&& shape.frac_end == s.len() ==> shape.exp_digits == s.len()
                &&& shape.frac_end < s.len() ==> shape.exp_digits == shape.frac_end + 1 + sign_len(
                    s@,
                    shape.frac_end + 1,
                ) && shape.exp_digits < s.len()
                &&& shape.exp_negative == (shape.frac_end < s.len() && s@[shape.frac_end + 1]
                    == '-')
                &&& forall|k: int| shape.exp_digits <= k < s.len() ==> is_digit(#[trigger] s@[k])
                &&& forall|k: int| from <= k < shape.int_end ==> is_digit(#[trigger] s@[k])
                &&& forall|k: int| shape.frac_start <= k < shape.frac_end ==> is_digit(
                    #[trigger] s@[k],
                )
            },
            None => true,
        },
{
    let n = s.len();
    let int_end = scan_digits(s, from);
    let frac_start = if int_end < n && s[int_end] == '.' {
        int_end + 1
    } else {
        int_end
    };
    let frac_end = scan_digits(s, frac_start);
    proof {
        lemma_digits_end_bounds(s@, from as int);
        lemma_digits_end_bounds(s@, frac_start as int);
    }
    if (int_end - from) + (frac_end - frac_start) == 0 {
        return None;
    }
    if frac_end == n {
        return Some(Shape { int_end, frac_start, frac_end, exp_digits: n, exp_negative: false });
    }
    if fold_char(s[frac_end]) != 'e' as u32 {
        return None;
    }
    let signed = frac_end + 1 < n && (s[frac_end + 1] == '+' || s[frac_end + 1] == '-');
    let exp_negative = signed && s[frac_end + 1] == '-';
    let exp_digits = if signed {
        frac_end + 2
    } else {
        frac_end + 1
    };
    if exp_digits >= n {
        return None;
    }
    let end = scan_digits(s, exp_digits);
    proof {
        lemma_digits_end_bounds(s@, exp_digits as int);
    }
    if end != n {
        return None;
    }
    Some(Shape { int_end, frac_start, frac_end, exp_digits, exp_negative })
}

fn leading_sign(s: &Vec<char>) -> (r: usize)
    ensures
        r == sign_len(s@, 0),
        r <= s.len(),
{
    if s.len() > 0 && (s[0] == '+' || s[0] == '-') {
        1
    } else {
        0
    }
}

/// Accepts the strings that denote a double: an optional sign, then `inf`,
/// `infinity` or `nan` in letters of either case, or a decimal number with or
/// without a point and an exponent.
pub fn float_validator(input: String) -> (r: Result<(), String>)
    ensures
        is_float_literal(input@) ==> r is Ok,
        !is_float_literal(input@) ==> r is Err && r->Err_0@ == "must be a valid float"@,
{
    let s = collect_chars(input.as_str());
    let from = leading_sign(&s);
    match scan_word(&s, from) {
        Some(Word::Inf) => Ok(()),
        Some(Word::Infinity) => Ok(()),
        Some(Word::Nan) => Ok(()),
        None => match scan_number(&s, from) {
            Some(_) => Ok(()),
            None => Err(String::from_str("must be a valid float")),
        },
    }
}

/// The digits of the mantissa in one run, without the point.
fn collect_mantissa(s: &Vec<char>, from: usize, shape: &Shape) -> (digits: Vec<char>)
    requires
        from <= shape.int_end <= shape.frac_start <= shape.frac_end <= s.len(),
    ensures
        digits@ == s@.subrange(from as int, shape.int_end as int) + s@.subrange(
            shape.frac_start as int,
            shape.frac_end as int,
        ),
{
    let mut digits: Vec<char> = Vec::new();
    let mut i = from;
    while i < shape.int_end
        invariant
            from <= i <= shape.int_end <= s.len(),
            digits@ == s@.subrange(from as int, i as int),
        decreases shape.int_end - i,
    {
        digits.push(s[i]);
        assert(digits@ =~= s@.subrange(from as int, i + 1));
        i = i + 1;
    }
    let mut j = shape.frac_start;
    assert(digits@ =~= s@.subrange(from as int, shape.int_end as int) + s@.subrange(
        shape.frac_start as int,
        j as int,
    ));
    while j < shape.frac_end
        invariant
            from <= shape.int_end <= shape.frac_start <= j <= shape.frac_end <= s.len(),
            digits@ == s@.subrange(from as int, shape.int_end as int) + s@.subrange(
                shape.frac_start as int,
                j as int,
            ),
        decreases shape.frac_end - j,
    {
        digits.push(s[j]);
        assert(digits@ =~= s@.subrange(from as int, shape.int_end as int) + s@.subrange(
            shape.frac_start as int,
            j + 1,
        ));
        j = j + 1;
    }
    digits
}

/// Whether the decimal number at `from`, of the given shape, is read as a
/// double greater than zero.
fn number_reads_above_zero(s: &Vec<char>, from: usize, shape: &Shape) -> (r: bool)
    requires
        is_number(s@, from as int),
        shape.int_end == int_end(s@, from as int),
        shape.frac_start == frac_start(s@, from as int),
        shape.frac_end == frac_end(s@, from as int),
        from <= shape.int_end <= shape.frac_start <= shape.frac_end <= shape.exp_digits <= s.len(),
        shape.frac_end == s.len() ==> shape.exp_digits == s.len(),
        shape.frac_end < s.len() ==> shape.exp_digits == shape.frac_end + 1 + sign_len(
            s@,
            shape.frac_end + 1,
        ) && shape.exp_digits < s.len(),
        shape.exp_negative == (shape.frac_end < s.len() && s@[shape.frac_end + 1] == '-'),
        forall|k: int| shape.exp_digits <= k < s.len() ==> is_digit(#[trigger] s@[k]),
    ensures
        r == reads_above_zero(s@, from as int),
{
    let digits = collect_mantissa(s, from, shape);
    proof {
        lemma_digits_end_bounds(s@, from as int);
        lemma_digits_end_bounds(s@, shape.frac_start as int);
        assert(digits@ == mantissa(s@, from as int));
        assert(all_digits(digits@));
        vstd::arithmetic::power::lemma_pow_positive(5, half_least_exponent());
        if shape.exp_digits == s.len() {
            assert(decimal(s@, s.len() as int, s.len() as int) == 0);
        }
    }
    let cap: u128 = 0x0200_0000_0000_0000_0000_0000;
    let written = decimal_capped(s, shape.exp_digits, s.len(), cap);
    let power: i128 = if shape.exp_negative {
        -(written as i128)
    } else {
        written as i128
    };
    let place: i128 = power - ((shape.frac_end - shape.frac_start) as i128);
    let half = power_of_five(1075);
    exceeds(&digits, place, Ghost(last_place(s@, from as int)), &half, -1075)
}

/// Accepts the strings that denote a double greater than zero.
///
/// A literal so small that the nearest double is zero is not greater than
/// zero, whatever its digits.
pub fn positive_float_validator(input: String) -> (r: Result<(), String>)
    ensures
        !is_float_literal(input@) ==> r is Err && r->Err_0@ == "must be a valid float"@,
        is_float_literal(input@) && !is_positive_literal(input@) ==> r is Err && r->Err_0@
            == "value must be greater than zero"@,
        is_float_literal(input@) && is_positive_literal(input@) ==> r is Ok,
{
    let s = collect_chars(input.as_str());
    let from = leading_sign(&s);
    let minus = s.len() > 0 && s[0] == '-';
    let positive = match scan_word(&s, from) {
        Some(Word::Inf) => !minus,
        Some(Word::Infinity) => !minus,
        Some(Word::Nan) => false,
        None => match scan_number(&s, from) {
            Some(shape) => {
                let above = number_reads_above_zero(&s, from, &shape);
                above && !minus
            },
            None => {
                return Err(String::from_str("must be a valid float"));
            },
        },
    };
    if positive {
        Ok(())
    } else {
        Err(String::from_str("value must be greater than zero"))
    }
}


} // verus!
