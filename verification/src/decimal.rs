//! Decimal text and the number it writes.
//!
//! A number is written as an optional sign, digits with an optional point
//! among them, and an optional exponent: `7`, `-0.25`, `.5`, `3.`, `12e-3`.
//! Its value is cut toward zero at the ninth decimal place. Text that
//! writes a number beyond the range of a [`Fixed`] is no number here.

use crate::fixed::Fixed;
use vstd::arithmetic::div_mod::{lemma_basic_div, lemma_div_denominator};
use vstd::prelude::*;

verus! {

/// The largest magnitude, in units, that a parsed number may have.
pub const LIMIT: u64 = 9_223_372_036_854_775_807;

/// Decimal places that a [`Fixed`] keeps.
pub const PLACES: u64 = 9;

/// Where the size of an exponent stops growing: beyond any length of text.
pub const EXPONENT_CAP: u128 = 100_000_000_000_000_000_000;

/// An ASCII digit.
pub open spec fn is_digit(byte: u8) -> bool {
    48 <= byte <= 57
}

/// A plus or a minus.
pub open spec fn is_sign(byte: u8) -> bool {
    byte == 43 || byte == 45
}

/// The letter that opens an exponent, in either case.
pub open spec fn is_exponent_mark(byte: u8) -> bool {
    byte == 101 || byte == 69
}

/// The decimal point.
pub open spec fn is_point(byte: u8) -> bool {
    byte == 46
}

/// Ten to the power `n`.
pub open spec fn pow10(n: nat) -> nat
    decreases n,
{
    if n == 0 {
        1
    } else {
        10 * pow10((n - 1) as nat)
    }
}

/// Where the run of digits that starts at `from` ends.
pub open spec fn digits_end(text: Seq<u8>, from: int) -> int
    decreases text.len() - from,
{
    if 0 <= from < text.len() && is_digit(text[from]) {
        digits_end(text, from + 1)
    } else {
        from
    }
}

/// The number that `digits` write when appended to a number already read.
pub open spec fn digits_value_from(start: nat, digits: Seq<u8>) -> nat
    decreases digits.len(),
{
    if digits.len() == 0 {
        start
    } else {
        digits_value_from(start, digits.drop_last()) * 10 + (digits.last() - 48) as nat
    }
}

/// The number that a run of digits writes.
pub open spec fn digits_value(digits: Seq<u8>) -> nat {
    digits_value_from(0, digits)
}

/// `value` times ten to the power `shift`, rounded down.
pub open spec fn scaled(value: nat, shift: int) -> nat {
    if shift >= 0 {
        value * pow10(shift as nat)
    } else {
        value / pow10((-shift) as nat)
    }
}

/// Length of the sign that may open the text.
pub open spec fn sign_len(text: Seq<u8>) -> int {
    if text.len() > 0 && is_sign(text[0]) {
        1
    } else {
        0
    }
}

/// Where the digits before the point end.
pub open spec fn whole_end(text: Seq<u8>) -> int {
    digits_end(text, sign_len(text))
}

/// Whether a point follows the digits of the whole part.
pub open spec fn has_point(text: Seq<u8>) -> bool {
    whole_end(text) < text.len() && is_point(text[whole_end(text)])
}

/// Where the mantissa ends: behind the digits after the point, if there
/// is a point.
pub open spec fn mantissa_end(text: Seq<u8>) -> int {
    if has_point(text) {
        digits_end(text, whole_end(text) + 1)
    } else {
        whole_end(text)
    }
}

/// The digits before the point.
pub open spec fn whole_digits(text: Seq<u8>) -> Seq<u8> {
    text.subrange(sign_len(text), whole_end(text))
}

/// The digits after the point.
pub open spec fn fraction_digits(text: Seq<u8>) -> Seq<u8> {
    if has_point(text) {
        text.subrange(whole_end(text) + 1, mantissa_end(text))
    } else {
        Seq::empty()
    }
}

/// Whether an exponent follows the mantissa.
pub open spec fn has_exponent(text: Seq<u8>) -> bool {
    mantissa_end(text) < text.len() && is_exponent_mark(text[mantissa_end(text)])
}

/// Where the digits of the exponent begin: behind its mark and its sign.
pub open spec fn exponent_start(text: Seq<u8>) -> int {
    let after_mark = mantissa_end(text) + 1;
    if after_mark < text.len() && is_sign(text[after_mark]) {
        after_mark + 1
    } else {
        after_mark
    }
}

/// The exponent: zero where none is written.
pub open spec fn exponent(text: Seq<u8>) -> int {
    if has_exponent(text) {
        let start = exponent_start(text);
        let size = digits_value(text.subrange(start, digits_end(text, start)));
        if text[start - 1] == 45 {
            -size
        } else {
            size as int
        }
    } else {
        0
    }
}

/// Whether the text is a number: a mantissa with at least one digit, then
/// nothing or an exponent with at least one digit, and nothing behind.
pub open spec fn is_number(text: Seq<u8>) -> bool {
    &&& whole_digits(text).len() + fraction_digits(text).len() >= 1
    &&& if has_exponent(text) {
        let start = exponent_start(text);
        start < digits_end(text, start) && digits_end(text, start) == text.len()
    } else {
        mantissa_end(text) == text.len()
    }
}

/// The size of the number in units, its sign left aside: the mantissa's
/// digits taken as one number, moved by the exponent, the fraction's length
/// and the nine kept places, and rounded down.
pub open spec fn magnitude(text: Seq<u8>) -> nat {
    scaled(
        digits_value(whole_digits(text) + fraction_digits(text)),
        PLACES + exponent(text) - fraction_digits(text).len(),
    )
}

/// The number that the text writes, in units; none where the text is no
/// number or the number is out of range.
pub open spec fn decimal_value(text: Seq<u8>) -> Option<int> {
    if is_number(text) && magnitude(text) <= LIMIT {
        if text[0] == 45 {
            Some(-(magnitude(text) as int))
        } else {
            Some(magnitude(text) as int)
        }
    } else {
        None
    }
}

/// A power of ten is positive.
pub proof fn lemma_pow10_positive(n: nat)
    ensures
        pow10(n) >= 1,
    decreases n,
{
    if n > 0 {
        lemma_pow10_positive((n - 1) as nat);
    }
}

/// Powers of ten grow with the exponent.
pub proof fn lemma_pow10_grows(a: nat, b: nat)
    requires
        a <= b,
    ensures
        pow10(a) <= pow10(b),
    decreases b,
{
    if a < b {
        lemma_pow10_grows(a, (b - 1) as nat);
    }
}

/// Appending digits to a number does not make it smaller.
pub proof fn lemma_value_grows(start: nat, digits: Seq<u8>)
    ensures
        digits_value_from(start, digits) >= start,
    decreases digits.len(),
{
    if digits.len() > 0 {
        lemma_value_grows(start, digits.drop_last());
    }
}

/// Reading `first` and then `second` is reading them joined together.
pub proof fn lemma_value_of_join(start: nat, first: Seq<u8>, second: Seq<u8>)
    ensures
        digits_value_from(start, first + second) == digits_value_from(
            digits_value_from(start, first),
            second,
        ),
    decreases second.len(),
{
    if second.len() == 0 {
        assert(first + second =~= first);
    } else {
        lemma_value_of_join(start, first, second.drop_last());
        assert((first + second).drop_last() =~= first + second.drop_last());
    }
}

/// A run of digits writes a number below ten to the power of its length.
pub proof fn lemma_value_below_power(digits: Seq<u8>)
    requires
        forall|i: int| 0 <= i < digits.len() ==> is_digit(#[trigger] digits[i]),
    ensures
        digits_value(digits) < pow10(digits.len()),
    decreases digits.len(),
{
    if digits.len() > 0 {
        lemma_value_below_power(digits.drop_last());
    }
}

/// Dividing by ten to the power `count` strikes the last `count` digits.
pub proof fn lemma_division_strikes_digits(digits: Seq<u8>, count: nat)
    requires
        forall|i: int| 0 <= i < digits.len() ==> is_digit(#[trigger] digits[i]),
        count <= digits.len(),
    ensures
        digits_value(digits) / pow10(count) == digits_value(digits.take(digits.len() - count)),
    decreases count,
{
    let value = digits_value(digits) as int;
    if count == 0 {
        assert(digits.take(digits.len() as int) =~= digits);
        assert(value / 1 == value);
    } else {
        let shorter = digits.drop_last();
        let kept = digits.take(digits.len() - count);
        let power = pow10((count - 1) as nat) as int;
        lemma_division_strikes_digits(shorter, (count - 1) as nat);
        assert(shorter.take(shorter.len() - (count - 1)) =~= kept);
        lemma_pow10_positive((count - 1) as nat);
        assert(value / 10 == digits_value(shorter));
        lemma_div_denominator(value, 10, power);
    }
}

/// Every byte of `text` from `from` up to `to` is a digit.
pub open spec fn all_digits(text: Seq<u8>, from: int, to: int) -> bool {
    forall|i: int| from <= i < to ==> is_digit(#[trigger] text[i])
}

/// Reads over the run of digits that starts at `from`.
fn skip_digits(text: &[u8], from: usize) -> (end: usize)
    requires
        from <= text.len(),
    ensures
        end == digits_end(text@, from as int),
        from <= end <= text.len(),
        all_digits(text@, from as int, end as int),
{
    let mut end: usize = from;
    while end < text.len() && text[end] >= 48 && text[end] <= 57
        invariant
            from <= end <= text.len(),
            digits_end(text@, from as int) == digits_end(text@, end as int),
            all_digits(text@, from as int, end as int),
        decreases text.len() - end,
    {
        end += 1;
    }
    end
}

/// Appends the digits from `from` up to `to` to the number `start`. There
/// is no result when it would exceed [`LIMIT`].
fn append_digits(text: &[u8], from: usize, to: usize, start: u64) -> (value: Option<u64>)
    requires
        from <= to <= text.len(),
        all_digits(text@, from as int, to as int),
        start <= LIMIT,
    ensures
        value is Some <==> digits_value_from(start as nat, text@.subrange(from as int, to as int))
            <= LIMIT,
        value is Some ==> value->Some_0 == digits_value_from(
            start as nat,
            text@.subrange(from as int, to as int),
        ),
{
    let mut value: u64 = start;
    let mut i: usize = from;
    while i < to
        invariant
            from <= i <= to <= text.len(),
            all_digits(text@, from as int, to as int),
            value <= LIMIT,
            value == digits_value_from(start as nat, text@.subrange(from as int, i as int)),
        decreases to - i,
    {
        let digit: u64 = (text[i] - 48) as u64;
        proof {
            let read = text@.subrange(from as int, i + 1);
            let rest = text@.subrange(i + 1, to as int);
            assert(read.drop_last() =~= text@.subrange(from as int, i as int));
            assert(read + rest =~= text@.subrange(from as int, to as int));
            lemma_value_of_join(start as nat, read, rest);
            lemma_value_grows(digits_value_from(start as nat, read), rest);
        }
        if value > (LIMIT - digit) / 10 {
            return None;
        }
        value = value * 10 + digit;
        i += 1;
    }
    Some(value)
}

/// The smaller of two numbers.
pub open spec fn smaller(a: int, b: int) -> int {
    if a <= b {
        a
    } else {
        b
    }
}

/// The number that the digits from `from` up to `to` write, held at
/// [`EXPONENT_CAP`] where it is larger.
fn read_exponent(text: &[u8], from: usize, to: usize) -> (size: u128)
    requires
        from <= to <= text.len(),
        all_digits(text@, from as int, to as int),
    ensures
        size == smaller(
            digits_value(text@.subrange(from as int, to as int)) as int,
            EXPONENT_CAP as int,
        ),
{
    let mut size: u128 = 0;
    let mut i: usize = from;
    while i < to
        invariant
            from <= i <= to <= text.len(),
            all_digits(text@, from as int, to as int),
            size == smaller(
                digits_value(text@.subrange(from as int, i as int)) as int,
                EXPONENT_CAP as int,
            ),
        decreases to - i,
    {
        let digit: u128 = (text[i] - 48) as u128;
        assert(text@.subrange(from as int, i + 1).drop_last() =~= text@.subrange(
            from as int,
            i as int,
        ));
        size = size * 10 + digit;
        if size > EXPONENT_CAP {
            size = EXPONENT_CAP;
        }
        i += 1;
    }
    size
}

/// Multiplies `value` by ten to the power `shift`. There is no result when
/// it would exceed [`LIMIT`].
fn raise(value: u64, shift: u128) -> (raised: Option<u64>)
    requires
        value <= LIMIT,
    ensures
        raised is Some <==> value * pow10(shift as nat) <= LIMIT,
        raised is Some ==> raised->Some_0 == value * pow10(shift as nat),
        raised is Some ==> value == 0 || shift < 19,
{
    if value == 0 {
        return Some(0);
    }
    if shift >= 19 {
        proof {
            lemma_pow10_grows(19, shift as nat);
            reveal_with_fuel(pow10, 20);
            assert(value * pow10(shift as nat) >= 10_000_000_000_000_000_000) by (nonlinear_arith)
                requires
                    value >= 1,
                    pow10(shift as nat) >= 10_000_000_000_000_000_000,
            ;
        }
        return None;
    }
    let mut raised: u64 = value;
    let mut done: u128 = 0;
    assert(value * pow10(0) == value) by (nonlinear_arith)
        requires
            pow10(0) == 1,
    ;
    while done < shift
        invariant
            done <= shift < 19,
            1 <= raised <= LIMIT,
            raised == value * pow10(done as nat),
        decreases shift - done,
    {
        proof {
            lemma_pow10_grows((done + 1) as nat, shift as nat);
            assert(value * pow10((done + 1) as nat) == raised * 10) by (nonlinear_arith)
                requires
                    raised == value * pow10(done as nat),
                    pow10((done + 1) as nat) == 10 * pow10(done as nat),
            ;
            assert(value * pow10(shift as nat) >= value * pow10((done + 1) as nat))
                by (nonlinear_arith)
                requires
                    pow10(shift as nat) >= pow10((done + 1) as nat),
            ;
        }
        if raised > LIMIT / 10 {
            return None;
        }
        raised = raised * 10;
        done += 1;
    }
    Some(raised)
}

/// Where the parts of a number lie in its text.
struct Shape {
    /// Where the digits of the whole part begin.
    begin: usize,
    /// Where they end.
    whole_end: usize,
    /// Where the digits of the fraction begin.
    fraction_start: usize,
    /// Where they end.
    mantissa_end: usize,
    /// Whether the exponent is written with a minus.
    exponent_negative: bool,
    /// The size of the exponent, held at [`EXPONENT_CAP`].
    exponent_size: u128,
}

impl Shape {
    /// The shape is that of the number which `text` writes.
    spec fn fits(&self, text: Seq<u8>) -> bool {
        &&& self.begin == sign_len(text)
        &&& self.whole_end == whole_end(text)
        &&& self.mantissa_end == mantissa_end(text)
        &&& self.begin <= self.whole_end <= self.fraction_start <= self.mantissa_end <= text.len()
        &&& whole_digits(text) == text.subrange(self.begin as int, self.whole_end as int)
        &&& fraction_digits(text) == text.subrange(
            self.fraction_start as int,
            self.mantissa_end as int,
        )
        &&& all_digits(text, self.begin as int, self.whole_end as int)
        &&& all_digits(text, self.fraction_start as int, self.mantissa_end as int)
        &&& if self.exponent_negative {
            exponent(text) <= 0 && self.exponent_size == smaller(
                -exponent(text),
                EXPONENT_CAP as int,
            )
        } else {
            exponent(text) >= 0 && self.exponent_size == smaller(
                exponent(text),
                EXPONENT_CAP as int,
            )
        }
    }
}

/// Finds the parts of a number in `text`; none where `text` is no number.
fn measure(text: &[u8]) -> (shape: Option<Shape>)
    ensures
        shape is Some <==> is_number(text@),
        shape is Some ==> shape->Some_0.fits(text@),
{
    let len: usize = text.len();
    let begin: usize = if len > 0 && (text[0] == 43 || text[0] == 45) {
        1
    } else {
        0
    };
    let whole_end: usize = skip_digits(text, begin);
    let point: bool = whole_end < len && text[whole_end] == 46;
    let fraction_start: usize = if point {
        whole_end + 1
    } else {
        whole_end
    };
    let mantissa_end: usize = if point {
        skip_digits(text, fraction_start)
    } else {
        whole_end
    };
    assert(fraction_digits(text@) =~= text@.subrange(fraction_start as int, mantissa_end as int));
    if whole_end - begin == 0 && mantissa_end - fraction_start == 0 {
        return None;
    }
    let mut exponent_negative: bool = false;
    let mut exponent_size: u128 = 0;
    if mantissa_end < len && (text[mantissa_end] == 101 || text[mantissa_end] == 69) {
        let after_mark: usize = mantissa_end + 1;
        let start: usize = if after_mark < len && (text[after_mark] == 43 || text[after_mark]
            == 45) {
            after_mark + 1
        } else {
            after_mark
        };
        let end: usize = skip_digits(text, start);
        if end == start || end != len {
            return None;
        }
        exponent_negative = text[start - 1] == 45;
        exponent_size = read_exponent(text, start, end);
    } else if mantissa_end != len {
        return None;
    }
    Some(Shape { begin, whole_end, fraction_start, mantissa_end, exponent_negative, exponent_size })
}

/// Reads the first `keep` digits of the mantissa as one number. There is
/// no result when it would exceed [`LIMIT`].
fn read_mantissa(text: &[u8], shape: &Shape, keep: usize) -> (value: Option<u64>)
    requires
        shape.fits(text@),
        keep <= whole_digits(text@).len() + fraction_digits(text@).len(),
    ensures
        value is Some <==> digits_value(
            (whole_digits(text@) + fraction_digits(text@)).take(keep as int),
        ) <= LIMIT,
        value is Some ==> value->Some_0 == digits_value(
            (whole_digits(text@) + fraction_digits(text@)).take(keep as int),
        ),
{
    let ghost whole = whole_digits(text@);
    let ghost fraction = fraction_digits(text@);
    let whole_count: usize = shape.whole_end - shape.begin;
    if keep <= whole_count {
        assert((whole + fraction).take(keep as int) =~= text@.subrange(
            shape.begin as int,
            shape.begin + keep,
        ));
        append_digits(text, shape.begin, shape.begin + keep, 0)
    } else {
        let fraction_end: usize = shape.fraction_start + (keep - whole_count);
        let ghost kept = text@.subrange(shape.fraction_start as int, fraction_end as int);
        proof {
            assert((whole + fraction).take(keep as int) =~= whole + kept);
            lemma_value_of_join(0, whole, kept);
            lemma_value_grows(digits_value(whole), kept);
        }
        match append_digits(text, shape.begin, shape.whole_end, 0) {
            None => None,
            Some(whole_value) => append_digits(
                text,
                shape.fraction_start,
                fraction_end,
                whole_value,
            ),
        }
    }
}

/// Moving a number up by more places makes it no smaller, and leaves zero
/// at zero.
proof fn lemma_scaled_up(value: nat, shift: nat, further: nat)
    requires
        shift <= further,
    ensures
        scaled(value, further as int) >= scaled(value, shift as int) >= value,
        value == 0 ==> scaled(value, further as int) == 0,
{
    lemma_pow10_grows(shift, further);
    lemma_pow10_positive(shift);
    assert(value * pow10(further) >= value * pow10(shift) >= value) by (nonlinear_arith)
        requires
            pow10(further) >= pow10(shift) >= 1,
    ;
}

/// Moving a number down by more places than it has digits leaves nothing.
proof fn lemma_scaled_away(digits: Seq<u8>, shift: int)
    requires
        forall|i: int| 0 <= i < digits.len() ==> is_digit(#[trigger] digits[i]),
        -shift > digits.len(),
    ensures
        scaled(digits_value(digits), shift) == 0,
{
    lemma_value_below_power(digits);
    lemma_pow10_grows(digits.len(), (-shift) as nat);
    lemma_basic_div(digits_value(digits) as int, pow10((-shift) as nat) as int);
}

/// Reads a decimal number.
///
/// The text is an optional sign, digits with an optional point among them,
/// at least one digit in all, and an optional exponent. The number is cut
/// toward zero at the ninth decimal place. Text of another form, and a
/// number whose size exceeds [`LIMIT`] units, give nothing.
pub fn parse_decimal(text: &[u8]) -> (number: Option<Fixed>)
    ensures
        number is Some <==> decimal_value(text@) is Some,
        number is Some ==> number->Some_0.units == decimal_value(text@)->Some_0,
{
    let shape = match measure(text) {
        Some(shape) => shape,
        None => {
            return None;
        },
    };
    let fraction_count: usize = shape.mantissa_end - shape.fraction_start;
    let count: usize = (shape.whole_end - shape.begin) + fraction_count;
    let size: i128 = if shape.exponent_negative {
        -(shape.exponent_size as i128)
    } else {
        shape.exponent_size as i128
    };
    let shift: i128 = PLACES as i128 + size - fraction_count as i128;
    let ghost mantissa = whole_digits(text@) + fraction_digits(text@);
    let ghost true_shift = PLACES + exponent(text@) - fraction_digits(text@).len();
    assert(shape.exponent_size < EXPONENT_CAP ==> shift == true_shift);
    assert(shape.exponent_size == EXPONENT_CAP && !shape.exponent_negative ==> 19 < shift
        <= true_shift);
    assert(shape.exponent_size == EXPONENT_CAP && shape.exponent_negative ==> true_shift <= shift
        < -count);
    assert(mantissa.take(count as int) =~= mantissa);
    let magnitude: Option<u64> = if shift >= 0 {
        proof {
            lemma_scaled_up(digits_value(mantissa), shift as nat, true_shift as nat);
        }
        match read_mantissa(text, &shape, count) {
            None => None,
            Some(value) => raise(value, shift as u128),
        }
    } else if -shift > count as i128 {
        proof {
            lemma_scaled_away(mantissa, true_shift);
        }
        Some(0)
    } else {
        proof {
            lemma_division_strikes_digits(mantissa, (-shift) as nat);
        }
        read_mantissa(text, &shape, count - ((-shift) as usize))
    };
    match magnitude {
        None => None,
        Some(size) => Some(
            Fixed {
                units: if text[0] == 45 {
                    -(size as i64)
                } else {
                    size as i64
                },
            },
        ),
    }
}

} // verus!
