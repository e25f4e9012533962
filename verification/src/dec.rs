use vstd::prelude::*;
use rust_decimal::Decimal;
use rust_decimal::prelude::ToPrimitive;

verus! {

/// Largest mantissa magnitude a decimal value can carry: `2^96 - 1`.
pub const MAX_MANTISSA: i128 = 79228162514264337593543950335;

/// Largest scale (count of fractional digits) a decimal value can carry.
pub const MAX_SCALE: u32 = 28;

/// An exact decimal value, `mant / 10^scale`, mirroring the parts of a
/// 96-bit decimal: a signed mantissa and a count of fractional digits.
#[derive(Clone, Copy, PartialEq, Eq, Structural, Debug)]
pub struct Dec {
    pub mant: i128,
    pub scale: u32,
}

/// A well-formed decimal: the mantissa fits in 96 bits and the scale is
/// at most `MAX_SCALE`.
pub open spec fn dec_wf(d: Dec) -> bool {
    &&& -MAX_MANTISSA <= d.mant <= MAX_MANTISSA
    &&& d.scale <= MAX_SCALE
}

/// `10^n`.
pub open spec fn pow10(n: nat) -> int
    decreases n,
{
    if n == 0 {
        1
    } else {
        10 * pow10((n - 1) as nat)
    }
}

/// The value of a well-formed decimal, scaled up to a common denominator of
/// `10^MAX_SCALE`: two well-formed decimals denote the same number exactly
/// when their scaled values are equal.
pub open spec fn dec_val28(d: Dec) -> int {
    if d.scale <= MAX_SCALE {
        d.mant * pow10((MAX_SCALE - d.scale) as nat)
    } else {
        0
    }
}

/// The mantissa of `d` rescaled to scale `s` (defined for `d.scale <= s <= MAX_SCALE`).
pub open spec fn aligned_mant(d: Dec, s: u32) -> int {
    if d.scale <= s <= MAX_SCALE {
        d.mant * pow10((s - d.scale) as nat)
    } else {
        0
    }
}

/// The larger of the two scales.
pub open spec fn scale_max(a: Dec, b: Dec) -> u32 {
    if a.scale >= b.scale {
        a.scale
    } else {
        b.scale
    }
}

pub open spec fn is_digit(c: char) -> bool {
    c == '0' || c == '1' || c == '2' || c == '3' || c == '4' || c == '5' || c == '6'
        || c == '7' || c == '8' || c == '9'
}

pub open spec fn digit_val(c: char) -> int {
    if c == '0' {
        0
    } else if c == '1' {
        1
    } else if c == '2' {
        2
    } else if c == '3' {
        3
    } else if c == '4' {
        4
    } else if c == '5' {
        5
    } else if c == '6' {
        6
    } else if c == '7' {
        7
    } else if c == '8' {
        8
    } else {
        9
    }
}

/// The integer written by a sequence of digit characters, most significant first.
pub open spec fn digits_value(s: Seq<char>) -> int
    decreases s.len(),
{
    if s.len() == 0 {
        0
    } else {
        digits_value(s.drop_last()) * 10 + digit_val(s.last())
    }
}

pub open spec fn all_digits(s: Seq<char>) -> bool {
    forall|i: int| 0 <= i < s.len() ==> is_digit(s[i])
}

/// How many decimal points a literal holds.
pub open spec fn dot_count(s: Seq<char>) -> nat
    decreases s.len(),
{
    if s.len() == 0 {
        0
    } else {
        dot_count(s.drop_last()) + if s.last() == '.' { 1nat } else { 0nat }
    }
}

/// What parsing a numeric literal (digits and decimal points only) returns.
pub uninterp spec fn dec_of_digits(s: Seq<char>) -> Option<Dec>;

/// What adding two decimal values returns (`None` on overflow).
pub uninterp spec fn add_of(a: Dec, b: Dec) -> Option<Dec>;

/// What subtracting two decimal values returns (`None` on overflow).
pub uninterp spec fn sub_of(a: Dec, b: Dec) -> Option<Dec>;

/// What multiplying two decimal values returns (`None` on overflow).
pub uninterp spec fn mul_of(a: Dec, b: Dec) -> Option<Dec>;

/// What dividing two decimal values returns (`None` on a zero divisor or overflow).
pub uninterp spec fn div_of(a: Dec, b: Dec) -> Option<Dec>;

/// What the remainder of two decimal values is (`None` on a zero divisor or overflow).
pub uninterp spec fn rem_of(a: Dec, b: Dec) -> Option<Dec>;

/// Relies on `Decimal`'s `FromStr`: on a literal of digits with at most one
/// decimal point whose digits fit the mantissa, it returns exactly that
/// mantissa and the count of fractional digits; a second decimal point, an
/// empty literal, or a literal without digits is an error.
#[verifier::external_body]
pub(crate) fn dec_parse(digits: &Vec<char>) -> (r: Option<Dec>)
    requires
        forall|i: int| 0 <= i < digits@.len() ==> is_digit(digits@[i]) || digits@[i] == '.',
    ensures
        r == dec_of_digits(digits@),
        (r matches Some(d) ==> dec_wf(d) && d.mant >= 0),
        digits@.len() == 0 ==> r is None,
        dot_count(digits@) >= 2 ==> r is None,
        all_digits(digits@) && digits@.len() > 0 && digits_value(digits@) <= MAX_MANTISSA
            ==> r == Some(Dec { mant: digits_value(digits@) as i128, scale: 0u32 }),
        (forall|k: int|
            0 <= k < digits@.len() && digits@[k] == '.' && all_digits(digits@.remove(k))
                && digits@.len() >= 2 && digits@.len() - 1 - k <= MAX_SCALE
                && digits_value(digits@.remove(k)) <= MAX_MANTISSA
                ==> r == Some(
                Dec {
                    mant: digits_value(digits@.remove(k)) as i128,
                    scale: (digits@.len() - 1 - k) as u32,
                },
            )),
{
    let s: String = digits.iter().collect();
    match s.parse::<Decimal>() {
        Ok(d) => Some(Dec { mant: d.mantissa(), scale: d.scale() }),
        Err(_) => None,
    }
}

/// Relies on `Decimal::checked_add`: the exact sum when the operands, brought
/// to their larger scale, fit the mantissa; `None` only on overflow.
#[verifier::external_body]
pub(crate) fn dec_add(a: &Dec, b: &Dec) -> (r: Option<Dec>)
    requires
        dec_wf(*a),
        dec_wf(*b),
    ensures
        r == add_of(*a, *b),
        (r matches Some(c) ==> dec_wf(c)),
        -MAX_MANTISSA <= aligned_mant(*a, scale_max(*a, *b)) + aligned_mant(*b, scale_max(*a, *b))
            <= MAX_MANTISSA ==> r is Some,
        r matches Some(c) ==> (-MAX_MANTISSA <= aligned_mant(*a, scale_max(*a, *b))
            + aligned_mant(*b, scale_max(*a, *b)) <= MAX_MANTISSA ==> dec_val28(c) == dec_val28(*a)
            + dec_val28(*b)),
{
    let x = Decimal::from_i128_with_scale(a.mant, a.scale);
    let y = Decimal::from_i128_with_scale(b.mant, b.scale);
    x.checked_add(y).map(|z| Dec { mant: z.mantissa(), scale: z.scale() })
}

/// Relies on `Decimal::checked_sub`: the exact difference when the operands,
/// brought to their larger scale, fit the mantissa; `None` only on overflow.
#[verifier::external_body]
pub(crate) fn dec_sub(a: &Dec, b: &Dec) -> (r: Option<Dec>)
    requires
        dec_wf(*a),
        dec_wf(*b),
    ensures
        r == sub_of(*a, *b),
        (r matches Some(c) ==> dec_wf(c)),
        -MAX_MANTISSA <= aligned_mant(*a, scale_max(*a, *b)) - aligned_mant(*b, scale_max(*a, *b))
            <= MAX_MANTISSA ==> r is Some,
        r matches Some(c) ==> (-MAX_MANTISSA <= aligned_mant(*a, scale_max(*a, *b))
            - aligned_mant(*b, scale_max(*a, *b)) <= MAX_MANTISSA ==> dec_val28(c) == dec_val28(*a)
            - dec_val28(*b)),
{
    let x = Decimal::from_i128_with_scale(a.mant, a.scale);
    let y = Decimal::from_i128_with_scale(b.mant, b.scale);
    x.checked_sub(y).map(|z| Dec { mant: z.mantissa(), scale: z.scale() })
}

/// Relies on `Decimal::checked_mul`: the exact product when the product of
/// the mantissas fits and the scales sum to at most `MAX_SCALE`; `None` only
/// on overflow.
#[verifier::external_body]
pub(crate) fn dec_mul(a: &Dec, b: &Dec) -> (r: Option<Dec>)
    requires
        dec_wf(*a),
        dec_wf(*b),
    ensures
        r == mul_of(*a, *b),
        (r matches Some(c) ==> dec_wf(c)),
        a.scale + b.scale <= MAX_SCALE && -MAX_MANTISSA <= a.mant * b.mant <= MAX_MANTISSA
            ==> r is Some,
        r matches Some(c) ==> (a.scale + b.scale <= MAX_SCALE && -MAX_MANTISSA <= a.mant * b.mant
            <= MAX_MANTISSA ==> dec_val28(c) * pow10(MAX_SCALE as nat) == dec_val28(*a)
            * dec_val28(*b)),
{
    let x = Decimal::from_i128_with_scale(a.mant, a.scale);
    let y = Decimal::from_i128_with_scale(b.mant, b.scale);
    x.checked_mul(y).map(|z| Dec { mant: z.mantissa(), scale: z.scale() })
}

/// Relies on `Decimal::checked_div`: `None` on a zero divisor or overflow; a
/// zero dividend over a non-zero divisor gives zero.
#[verifier::external_body]
pub(crate) fn dec_div(a: &Dec, b: &Dec) -> (r: Option<Dec>)
    requires
        dec_wf(*a),
        dec_wf(*b),
    ensures
        r == div_of(*a, *b),
        (r matches Some(c) ==> dec_wf(c)),
        b.mant == 0 ==> r is None,
        b.mant != 0 && a.mant == 0 ==> r == Some(Dec { mant: 0i128, scale: 0u32 }),
{
    let x = Decimal::from_i128_with_scale(a.mant, a.scale);
    let y = Decimal::from_i128_with_scale(b.mant, b.scale);
    x.checked_div(y).map(|z| Dec { mant: z.mantissa(), scale: z.scale() })
}

/// Relies on `Decimal::checked_rem`: `None` on a zero divisor or overflow; a
/// zero dividend over a non-zero divisor gives zero.
#[verifier::external_body]
pub(crate) fn dec_rem(a: &Dec, b: &Dec) -> (r: Option<Dec>)
    requires
        dec_wf(*a),
        dec_wf(*b),
    ensures
        r == rem_of(*a, *b),
        (r matches Some(c) ==> dec_wf(c)),
        b.mant == 0 ==> r is None,
        b.mant != 0 && a.mant == 0 ==> r == Some(Dec { mant: 0i128, scale: 0u32 }),
{
    let x = Decimal::from_i128_with_scale(a.mant, a.scale);
    let y = Decimal::from_i128_with_scale(b.mant, b.scale);
    x.checked_rem(y).map(|z| Dec { mant: z.mantissa(), scale: z.scale() })
}

/// Relies on `ToPrimitive::to_f64`, `f64::powf` and `TryFrom<f64>` for
/// `Decimal`: both operands go through machine floating point, whose rounding
/// the library does not pin down, so only well-formedness is stated; `None`
/// when a conversion fails or the floating result is out of range.
#[verifier::external_body]
pub(crate) fn dec_pow(a: &Dec, b: &Dec) -> (r: Option<Dec>)
    requires
        dec_wf(*a),
        dec_wf(*b),
    ensures
        (r matches Some(c) ==> dec_wf(c)),
{
    let x = Decimal::from_i128_with_scale(a.mant, a.scale);
    let y = Decimal::from_i128_with_scale(b.mant, b.scale);
    let base = match x.to_f64() {
        Some(v) => v,
        None => return None,
    };
    let exponent = match y.to_f64() {
        Some(v) => v,
        None => return None,
    };
    match Decimal::try_from(base.powf(exponent)) {
        Ok(z) => Some(Dec { mant: z.mantissa(), scale: z.scale() }),
        Err(_) => None,
    }
}

} // verus!
