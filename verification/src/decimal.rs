//! Exact decimal amounts.
//!
//! An [`Amount`] is a decimal number `mantissa / 10^scale` with a 96-bit
//! mantissa and a scale of at most 28, the representation of
//! `rust_decimal::Decimal`. Arithmetic and comparison are done by
//! `rust_decimal` itself, behind the trusted wrappers of this module.
use crate::text::{digit_char, digits_text};
use rust_decimal::Decimal;
use vstd::prelude::*;

verus! {

/// Largest mantissa magnitude a decimal can hold: `2^96 - 1`.
pub const MAX_MANTISSA: i128 = 0xFFFF_FFFF_FFFF_FFFF_FFFF_FFFFi128;

/// Largest scale (number of fractional digits) a decimal can hold.
pub const MAX_SCALE: u32 = 28;

/// `10^n`.
pub open spec fn pow10(n: nat) -> int
    decreases n,
{
    if n == 0 {
        1
    } else {
        10 * pow10((n - 1) as nat)
    }
}

/// `2^64`.
pub open spec fn two_pow_64() -> int {
    0x1_0000_0000_0000_0000int
}

/// `2^96`.
pub open spec fn two_pow_96() -> int {
    0x1_0000_0000_0000_0000_0000_0000int
}

/// Whether `(mantissa, scale)` is a representable decimal.
pub open spec fn in_range(d: (int, nat)) -> bool {
    &&& -(MAX_MANTISSA as int) <= d.0 <= MAX_MANTISSA as int
    &&& d.1 <= MAX_SCALE as nat
}

/// The exact value of the decimal `d`, counted in units of `10^-28`.
/// Every representable decimal is a whole number of such units.
pub open spec fn value(d: (int, nat)) -> int {
    d.0 * pow10((MAX_SCALE as nat - d.1) as nat)
}

/// A raw `(mantissa, scale)` pair as a decimal.
pub open spec fn pair_view(p: (i128, u32)) -> (int, nat) {
    (p.0 as int, p.1 as nat)
}

/// The larger of two scales.
pub open spec fn max_scale(a: nat, b: nat) -> nat {
    if a >= b {
        a
    } else {
        b
    }
}

/// The mantissa of `d` written at the scale `s` (at least its own).
pub open spec fn rescaled(d: (int, nat), s: nat) -> int {
    d.0 * pow10((s - d.1) as nat)
}

/// Both mantissas below `2^64` in magnitude and the scales at most 19
/// apart: the operands that `rust_decimal` aligns in 128-bit arithmetic.
pub open spec fn small_operands(a: (int, nat), b: (int, nat)) -> bool {
    &&& -two_pow_64() < a.0 < two_pow_64()
    &&& -two_pow_64() < b.0 < two_pow_64()
    &&& a.1 <= b.1 + 19
    &&& b.1 <= a.1 + 19
}

/// `a + b` is computed exactly: small operands whose exact sum, written at
/// the larger scale, has a mantissa below `2^96` in magnitude.
pub open spec fn add_regime(a: (int, nat), b: (int, nat)) -> bool {
    let s = max_scale(a.1, b.1);
    small_operands(a, b) && -two_pow_96() < rescaled(a, s) + rescaled(b, s) < two_pow_96()
}

/// `a - b` is computed exactly: small operands whose exact difference,
/// written at the larger scale, has a mantissa below `2^96` in magnitude.
pub open spec fn sub_regime(a: (int, nat), b: (int, nat)) -> bool {
    let s = max_scale(a.1, b.1);
    small_operands(a, b) && -two_pow_96() < rescaled(a, s) - rescaled(b, s) < two_pow_96()
}

/// The sum that `rust_decimal` gives where one operand is zero or the sum
/// is in `add_regime`: the other operand unchanged, or the exact sum at the
/// larger scale.
pub open spec fn exact_sum_result(a: (int, nat), b: (int, nat)) -> (int, nat) {
    let s = max_scale(a.1, b.1);
    if a.0 == 0 {
        b
    } else if b.0 == 0 {
        a
    } else {
        (rescaled(a, s) + rescaled(b, s), s)
    }
}

/// The difference that `rust_decimal` gives where one operand is zero or
/// the difference is in `sub_regime`: `b` negated, `a` unchanged, or the
/// exact difference at the larger scale.
pub open spec fn exact_difference_result(a: (int, nat), b: (int, nat)) -> (int, nat) {
    let s = max_scale(a.1, b.1);
    if a.0 == 0 {
        (-b.0, b.1)
    } else if b.0 == 0 {
        a
    } else {
        (rescaled(a, s) - rescaled(b, s), s)
    }
}

/// `rust_decimal` adds `a` and `b` without overflow and without rounding.
pub open spec fn exact_sum(a: (int, nat), b: (int, nat)) -> bool {
    decimal_sum(a, b) matches Some(r) && value(r) == value(a) + value(b)
}

/// `rust_decimal` subtracts `b` from `a` without overflow and without
/// rounding.
pub open spec fn exact_difference(a: (int, nat), b: (int, nat)) -> bool {
    decimal_difference(a, b) matches Some(r) && value(r) == value(a) - value(b)
}

/// What `Decimal::checked_add` returns for the decimals `a` and `b`, as
/// `(mantissa, scale)`; `None` on overflow.
pub uninterp spec fn decimal_sum(a: (int, nat), b: (int, nat)) -> Option<(int, nat)>;

/// What `Decimal::checked_sub` returns for the decimals `a` and `b`, as
/// `(mantissa, scale)`; `None` on overflow.
pub uninterp spec fn decimal_difference(a: (int, nat), b: (int, nat)) -> Option<(int, nat)>;

/// The four decimal digits of `n` (below 10000), with leading zeros.
pub open spec fn four_digits(n: nat) -> Seq<char> {
    seq![
        digit_char((n / 1000) % 10),
        digit_char((n / 100) % 10),
        digit_char((n / 10) % 10),
        digit_char(n % 10),
    ]
}

/// The text of the decimal `d` with exactly four fractional digits: a minus
/// sign for a negative mantissa, the digits of the integer part, a point,
/// and the first four fractional digits, the rest cut off.
pub open spec fn decimal_text_4dp(d: (int, nat)) -> Seq<char> {
    let magnitude = (if d.0 < 0 {
        -d.0
    } else {
        d.0
    }) as nat;
    let unit = pow10(d.1) as nat;
    let fraction = magnitude % unit;
    let first_four = if d.1 >= 4 {
        fraction / (pow10((d.1 - 4) as nat) as nat)
    } else {
        fraction * (pow10((4 - d.1) as nat) as nat)
    };
    (if d.0 < 0 {
        seq!['-']
    } else {
        Seq::empty()
    }) + digits_text(magnitude / unit) + seq!['.'] + four_digits(first_four)
}

/// Calls `Decimal::checked_add` on the decimals `a` and `b`, built with
/// `Decimal::from_i128_with_scale`, and hands back the sum's `mantissa()`
/// and `scale()`. Claimed of it: the result is the named `decimal_sum`; its
/// mantissa and scale are in range; where `a` is zero the result is `b`,
/// else where `b` is zero it is `a`; and in `add_regime` it is the exact sum
/// at the larger scale. Outside these cases the result is left unsaid.
#[verifier::external_body]
fn decimal_checked_add(a: (i128, u32), b: (i128, u32)) -> (r: Option<(i128, u32)>)
    requires
        in_range(pair_view(a)),
        in_range(pair_view(b)),
    ensures
        r matches Some(x) ==> decimal_sum(pair_view(a), pair_view(b)) == Some(pair_view(x)),
        r matches Some(x) ==> in_range(pair_view(x)),
        r is None ==> decimal_sum(pair_view(a), pair_view(b)) is None,
        a.0 == 0 ==> r == Some(b),
        a.0 != 0 && b.0 == 0 ==> r == Some(a),
        add_regime(pair_view(a), pair_view(b)) ==> r is Some,
        add_regime(pair_view(a), pair_view(b)) ==> pair_view(r.unwrap()) == exact_sum_result(
            pair_view(a),
            pair_view(b),
        ),
{
    let lhs = Decimal::from_i128_with_scale(a.0, a.1);
    let rhs = Decimal::from_i128_with_scale(b.0, b.1);
    match lhs.checked_add(rhs) {
        Some(d) => Some((d.mantissa(), d.scale())),
        None => None,
    }
}

/// Calls `Decimal::checked_sub` on the decimals `a` and `b`, built with
/// `Decimal::from_i128_with_scale`, and hands back the difference's
/// `mantissa()` and `scale()`. Claimed of it: the result is the named
/// `decimal_difference`; its mantissa and scale are in range; where `a` is
/// zero the result is `b` negated, else where `b` is zero it is `a`; and in
/// `sub_regime` it is the exact difference at the larger scale. Outside
/// these cases the result is left unsaid.
#[verifier::external_body]
fn decimal_checked_sub(a: (i128, u32), b: (i128, u32)) -> (r: Option<(i128, u32)>)
    requires
        in_range(pair_view(a)),
        in_range(pair_view(b)),
    ensures
        r matches Some(x) ==> decimal_difference(pair_view(a), pair_view(b)) == Some(
            pair_view(x),
        ),
        r matches Some(x) ==> in_range(pair_view(x)),
        r is None ==> decimal_difference(pair_view(a), pair_view(b)) is None,
        a.0 == 0 ==> r is Some,
        a.0 == 0 ==> pair_view(r.unwrap()) == (-b.0 as int, b.1 as nat),
        a.0 != 0 && b.0 == 0 ==> r == Some(a),
        sub_regime(pair_view(a), pair_view(b)) ==> r is Some,
        sub_regime(pair_view(a), pair_view(b)) ==> pair_view(r.unwrap())
            == exact_difference_result(pair_view(a), pair_view(b)),
{
    let lhs = Decimal::from_i128_with_scale(a.0, a.1);
    let rhs = Decimal::from_i128_with_scale(b.0, b.1);
    match lhs.checked_sub(rhs) {
        Some(d) => Some((d.mantissa(), d.scale())),
        None => None,
    }
}

/// Calls `<` on two decimals built with `Decimal::from_i128_with_scale`.
/// Claimed of it: `Decimal`'s order is the order of the numbers' values.
#[verifier::external_body]
fn decimal_lt(a: (i128, u32), b: (i128, u32)) -> (r: bool)
    requires
        in_range(pair_view(a)),
        in_range(pair_view(b)),
    ensures
        r == (value(pair_view(a)) < value(pair_view(b))),
{
    Decimal::from_i128_with_scale(a.0, a.1) < Decimal::from_i128_with_scale(b.0, b.1)
}

/// Whether the integer part of `d` has at most 27 digits, so that its text
/// with four fractional digits fits the 32-character buffer in which
/// `rust_decimal` writes it.
pub open spec fn text_fits(d: (int, nat)) -> bool {
    -pow10(55) < value(d) < pow10(55)
}

/// Calls `format!("{:.4}", ..)` on a decimal built with
/// `Decimal::from_i128_with_scale`. Claimed of it: the text is
/// `decimal_text_4dp` of the decimal. Formatting panics where the integer
/// part has more than 27 digits; such decimals are left out.
#[verifier::external_body]
fn decimal_format_4dp(a: (i128, u32)) -> (r: String)
    requires
        in_range(pair_view(a)),
        text_fits(pair_view(a)),
    ensures
        r@ == decimal_text_4dp(pair_view(a)),
{
    format!("{:.4}", Decimal::from_i128_with_scale(a.0, a.1))
}

/// A decimal number `mantissa / 10^scale`, with `|mantissa| < 2^96` and
/// `scale <= 28`. Its view is the pair `(mantissa, scale)`.
#[derive(Clone, Copy, Debug)]
pub struct Amount {
    mantissa: i128,
    scale: u32,
}

impl View for Amount {
    type V = (int, nat);

    closed spec fn view(&self) -> (int, nat) {
        (self.mantissa as int, self.scale as nat)
    }
}

impl Amount {
    #[verifier::type_invariant]
    spec fn well_formed(self) -> bool {
        in_range((self.mantissa as int, self.scale as nat))
    }

    /// The decimal `mantissa / 10^scale`, or `None` where it is not
    /// representable.
    pub fn from_parts(mantissa: i128, scale: u32) -> (r: Option<Amount>)
        ensures
            r is Some <==> in_range((mantissa as int, scale as nat)),
            r matches Some(a) ==> a@ == (mantissa as int, scale as nat),
    {
        if scale <= MAX_SCALE && -MAX_MANTISSA <= mantissa && mantissa <= MAX_MANTISSA {
            Some(Amount { mantissa, scale })
        } else {
            None
        }
    }

    /// Zero, with scale 0.
    pub fn zero() -> (r: Amount)
        ensures
            r@ == (0int, 0nat),
            value(r@) == 0,
    {
        Amount { mantissa: 0, scale: 0 }
    }

    /// The mantissa.
    pub fn mantissa(&self) -> (r: i128)
        ensures
            r as int == self@.0,
    {
        self.mantissa
    }

    /// The scale.
    pub fn scale(&self) -> (r: u32)
        ensures
            r as nat == self@.1,
    {
        self.scale
    }

    /// The sum, as `rust_decimal` computes it; `None` on overflow.
    pub fn checked_add(&self, other: &Amount) -> (r: Option<Amount>)
        ensures
            r matches Some(x) ==> decimal_sum(self@, other@) == Some(x@),
            r is None <==> decimal_sum(self@, other@) is None,
            self@.0 == 0 || other@.0 == 0 || add_regime(self@, other@) ==> (r matches Some(x)
                && x@ == exact_sum_result(self@, other@)),
            self@.0 == 0 || other@.0 == 0 || add_regime(self@, other@) ==> exact_sum(
                self@,
                other@,
            ),
    {
        proof {
            use_type_invariant(self);
            use_type_invariant(other);
        }
        let r = match decimal_checked_add((self.mantissa, self.scale), (other.mantissa, other.scale)) {
            Some((m, s)) => Some(Amount { mantissa: m, scale: s }),
            None => None,
        };
        proof {
            lemma_exact_results_value(self@, other@);
        }
        r
    }

    /// The difference, as `rust_decimal` computes it; `None` on overflow.
    pub fn checked_sub(&self, other: &Amount) -> (r: Option<Amount>)
        ensures
            r matches Some(x) ==> decimal_difference(self@, other@) == Some(x@),
            r is None <==> decimal_difference(self@, other@) is None,
            self@.0 == 0 || other@.0 == 0 || sub_regime(self@, other@) ==> (r matches Some(x)
                && x@ == exact_difference_result(self@, other@)),
            self@.0 == 0 || other@.0 == 0 || sub_regime(self@, other@) ==> exact_difference(
                self@,
                other@,
            ),
    {
        proof {
            use_type_invariant(self);
            use_type_invariant(other);
        }
        let r = match decimal_checked_sub((self.mantissa, self.scale), (other.mantissa, other.scale)) {
            Some((m, s)) => Some(Amount { mantissa: m, scale: s }),
            None => None,
        };
        proof {
            lemma_exact_results_value(self@, other@);
        }
        r
    }

    /// Whether `self` is smaller in value than `other`.
    pub fn lt(&self, other: &Amount) -> (r: bool)
        ensures
            r == (value(self@) < value(other@)),
    {
        proof {
            use_type_invariant(self);
            use_type_invariant(other);
        }
        decimal_lt((self.mantissa, self.scale), (other.mantissa, other.scale))
    }

    /// Whether `self` is greater than zero.
    pub fn is_positive(&self) -> (r: bool)
        ensures
            r == (value(self@) > 0),
    {
        let zero = Amount::zero();
        zero.lt(self)
    }

    /// The amount written with exactly four fractional digits.
    pub fn to_text_4dp(&self) -> (r: String)
        requires
            text_fits(self@),
        ensures
            r@ == decimal_text_4dp(self@),
    {
        proof {
            use_type_invariant(self);
        }
        decimal_format_4dp((self.mantissa, self.scale))
    }
}

impl Amount {
    /// Whether the amount can be written as text: its integer part has at
    /// most 27 digits.
    pub fn fits_text(&self) -> (r: bool)
        ensures
            r == text_fits(self@),
    {
        proof {
            use_type_invariant(self);
            lemma_pow10_55();
        }
        let bound = Amount { mantissa: 1_000_000_000_000_000_000_000_000_000i128, scale: 0 };
        let neg_bound = Amount { mantissa: -1_000_000_000_000_000_000_000_000_000i128, scale: 0 };
        neg_bound.lt(self) && self.lt(&bound)
    }
}

/// `10^(x + y) == 10^x * 10^y`.
proof fn lemma_pow10_add(x: nat, y: nat)
    ensures
        pow10(x + y) == pow10(x) * pow10(y),
    decreases x,
{
    if x > 0 {
        lemma_pow10_add((x - 1) as nat, y);
        assert(pow10(x + y) == 10 * pow10((x - 1 + y) as nat));
        assert(10 * (pow10((x - 1) as nat) * pow10(y)) == (10 * pow10((x - 1) as nat)) * pow10(y))
            by (nonlinear_arith);
    }
}

/// Writing a decimal at a larger scale keeps its value.
proof fn lemma_rescaled_value(d: (int, nat), s: nat)
    requires
        d.1 <= s <= MAX_SCALE,
    ensures
        rescaled(d, s) * pow10((MAX_SCALE - s) as nat) == value(d),
{
    lemma_pow10_add((s - d.1) as nat, (MAX_SCALE - s) as nat);
    assert((MAX_SCALE - d.1) as nat == ((s - d.1) as nat + (MAX_SCALE - s) as nat) as nat);
    let p = pow10((s - d.1) as nat);
    let q = pow10((MAX_SCALE - s) as nat);
    assert(d.0 * p * q == d.0 * (p * q)) by (nonlinear_arith);
}

/// The exact results have the exact values.
proof fn lemma_exact_results_value(a: (int, nat), b: (int, nat))
    requires
        in_range(a),
        in_range(b),
    ensures
        value(exact_sum_result(a, b)) == value(a) + value(b),
        value(exact_difference_result(a, b)) == value(a) - value(b),
{
    let s = max_scale(a.1, b.1);
    let q = pow10((MAX_SCALE - s) as nat);
    lemma_rescaled_value(a, s);
    lemma_rescaled_value(b, s);
    assert((rescaled(a, s) + rescaled(b, s)) * q == rescaled(a, s) * q + rescaled(b, s) * q)
        by (nonlinear_arith);
    assert((rescaled(a, s) - rescaled(b, s)) * q == rescaled(a, s) * q - rescaled(b, s) * q)
        by (nonlinear_arith);
    assert(value((-b.0, b.1)) == -value(b)) by (nonlinear_arith);
    assert(value(a) == 0 <== a.0 == 0) by (nonlinear_arith);
    assert(value(b) == 0 <== b.0 == 0) by (nonlinear_arith);
}

/// The text of an amount with at most four fractional digits keeps every
/// digit: its integer digits and its four fractional digits together are
/// the mantissa written at scale 4, and a minus sign stands exactly for a
/// negative mantissa.
pub proof fn law_text_keeps_four_digit_amounts(d: (int, nat))
    requires
        d.1 <= 4,
    ensures
        ({
            let magnitude = (if d.0 < 0 {
                -d.0
            } else {
                d.0
            }) as nat;
            let unit = pow10(d.1) as nat;
            let first_four = (magnitude % unit) * (pow10((4 - d.1) as nat) as nat);
            &&& first_four < 10000
            &&& (magnitude / unit) * 10000 + first_four == magnitude * pow10((4 - d.1) as nat)
            &&& decimal_text_4dp(d) == (if d.0 < 0 {
                seq!['-']
            } else {
                Seq::<char>::empty()
            }) + digits_text(magnitude / unit) + seq!['.'] + four_digits(first_four)
        }),
{
    let magnitude = (if d.0 < 0 {
        -d.0
    } else {
        d.0
    }) as nat;
    reveal_with_fuel(pow10, 5);
    let unit = pow10(d.1);
    let scale_up = pow10((4 - d.1) as nat);
    lemma_pow10_add(d.1, (4 - d.1) as nat);
    assert(unit * scale_up == 10000);
    assert(unit > 0 && scale_up > 0);
    let q = magnitude as int / unit;
    let f = magnitude as int % unit;
    assert(q * unit + f == magnitude) by (nonlinear_arith)
        requires
            unit > 0,
            q == magnitude as int / unit,
            f == magnitude as int % unit,
    ;
    assert(0 <= f < unit) by (nonlinear_arith)
        requires
            unit > 0,
            f == magnitude as int % unit,
    ;
    assert(f * scale_up < 10000) by (nonlinear_arith)
        requires
            0 <= f < unit,
            scale_up > 0,
            unit * scale_up == 10000,
    ;
    assert(q * 10000 + f * scale_up == magnitude * scale_up) by (nonlinear_arith)
        requires
            q * unit + f == magnitude,
            unit * scale_up == 10000,
    ;
    let nunit = pow10(d.1) as nat;
    assert(magnitude / nunit == q);
    assert(magnitude % nunit == f);
    let first_four = (magnitude % nunit) * (pow10((4 - d.1) as nat) as nat);
    assert(first_four == f * scale_up);
    if d.1 >= 4 {
        assert(d.1 == 4);
        assert(pow10((d.1 - 4) as nat) == 1);
        assert((magnitude % nunit) / (pow10((d.1 - 4) as nat) as nat) == first_four);
    }
}

/// `10^55` is `10^27` at scale zero.
proof fn lemma_pow10_55()
    ensures
        value((1_000_000_000_000_000_000_000_000_000int, 0nat)) == pow10(55),
        pow10(27) == 1_000_000_000_000_000_000_000_000_000int,
{
    reveal_with_fuel(pow10, 56);
}

impl PartialEq for Amount {
    fn eq(&self, other: &Amount) -> (r: bool) {
        !self.lt(other) && !other.lt(self)
    }
}

impl vstd::std_specs::cmp::PartialEqSpecImpl for Amount {
    open spec fn obeys_eq_spec() -> bool {
        true
    }

    open spec fn eq_spec(&self, other: &Amount) -> bool {
        value(self@) == value(other@)
    }
}

} // verus!
