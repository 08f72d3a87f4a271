//! Fixed-precision signed decimal amounts.
//!
//! A [`Dec`] is a plain mantissa/scale pair denoting `m / 10^s`, mirroring the
//! 96-bit decimal representation of `rust_decimal::Decimal`: the mantissa
//! magnitude stays below 2^96 and the scale is at most 28. Arithmetic is done
//! by `rust_decimal` behind trusted wrappers; comparison is exact, addition
//! and subtraction are exact whenever the operands fit at their common scale,
//! and this module offers verified exact-or-fail variants built on that fact.
use vstd::prelude::*;
use vstd::arithmetic::power::{pow, lemma_pow_adds, lemma_pow_positive};
use vstd::arithmetic::mul::lemma_mul_inequality;
use vstd::arithmetic::div_mod::lemma_fundamental_div_mod;
use vstd::math::abs;

verus! {

/// Largest mantissa magnitude of the 96-bit decimal representation: 2^96 - 1.
pub const MANTISSA_LIMIT: i128 = 79228162514264337593543950335i128;

/// Largest scale (count of fractional digits) of the representation.
pub const SCALE_LIMIT: u32 = 28;

/// A decimal number `m / 10^s`.
#[derive(Clone, Copy, PartialEq, Eq, Structural, Debug)]
pub struct Dec {
    /// Signed mantissa.
    pub m: i128,
    /// Scale: the number of fractional digits, at most [`SCALE_LIMIT`].
    pub s: u32,
}

impl Dec {
    /// The representation stays within 96 mantissa bits and scale 28.
    pub open spec fn wf(self) -> bool {
        self.s <= SCALE_LIMIT && -MANTISSA_LIMIT <= self.m && self.m <= MANTISSA_LIMIT
    }

    /// The value, expressed exactly in units of `10^-28`.
    pub open spec fn v(self) -> int {
        self.m * pow(10, (SCALE_LIMIT - self.s) as nat)
    }

    /// Whether the representation is within bounds.
    pub fn check_wf(&self) -> (r: bool)
        ensures
            r <==> self.wf(),
    {
        self.s <= SCALE_LIMIT && -MANTISSA_LIMIT <= self.m && self.m <= MANTISSA_LIMIT
    }

    /// True exactly when the value is positive.
    pub fn is_positive(&self) -> (r: bool)
        requires
            self.wf(),
        ensures
            r <==> self.v() > 0,
    {
        proof {
            let p = pow(10, (SCALE_LIMIT - self.s) as nat);
            lemma_pow_positive(10, (SCALE_LIMIT - self.s) as nat);
            if self.m > 0 {
                vstd::arithmetic::mul::lemma_mul_strictly_positive(self.m as int, p);
            } else {
                vstd::arithmetic::mul::lemma_mul_nonnegative(-(self.m as int), p);
                assert((-(self.m as int)) * p == -((self.m as int) * p)) by (nonlinear_arith);
            }
        }
        self.m > 0
    }
}

/// `10^e` within `i128`, for exponents up to the scale limit.
fn pow10_i128(e: u32) -> (r: i128)
    requires
        e <= SCALE_LIMIT,
    ensures
        r == pow(10, e as nat),
        1 <= r <= pow(10, SCALE_LIMIT as nat),
{
    proof {
        lemma_pow28_value();
        vstd::arithmetic::power::lemma_pow0(10);
    }
    let mut i: u32 = 0;
    let mut r: i128 = 1;
    while i < e
        invariant
            i <= e,
            e <= SCALE_LIMIT,
            r == pow(10, i as nat),
            pow(10, SCALE_LIMIT as nat) == 10000000000000000000000000000,
        decreases e - i,
    {
        proof {
            lemma_pow_positive(10, i as nat);
            vstd::arithmetic::power::lemma_pow_increases(10, (i + 1) as nat, SCALE_LIMIT as nat);
            assert(pow(10, (i + 1) as nat) == 10 * pow(10, i as nat)) by {
                lemma_pow_adds(10, 1, i as nat);
                vstd::arithmetic::power::lemma_pow1(10);
            }
        }
        r = r * 10;
        i = i + 1;
    }
    proof {
        lemma_pow_positive(10, e as nat);
        vstd::arithmetic::power::lemma_pow_increases(10, e as nat, SCALE_LIMIT as nat);
    }
    r
}

/// The numeric value of `10^28`, the largest power the scale admits.
proof fn lemma_pow28_value()
    ensures
        pow(10, SCALE_LIMIT as nat) == 10000000000000000000000000000,
{
    reveal_with_fuel(pow, 29);
    assert(pow(10, 28) == 10000000000000000000000000000);
}

/// The magnitude of a mantissa.
fn abs_i128(x: i128) -> (r: i128)
    requires
        x > i128::MIN,
    ensures
        r == abs(x as int),
{
    if x < 0 {
        -x
    } else {
        x
    }
}

/// `q <= l / p` exactly captures `q * p <= l` for nonnegative `q`, `l` and
/// positive `p`.
pub proof fn lemma_scaled_bound(q: int, p: int, l: int)
    requires
        q >= 0,
        p > 0,
        l >= 0,
    ensures
        q <= l / p <==> q * p <= l,
{
    lemma_fundamental_div_mod(l, p);
    vstd::arithmetic::div_mod::lemma_mod_bound(l, p);
    if q <= l / p {
        lemma_mul_inequality(q, l / p, p);
    } else {
        lemma_mul_inequality(l / p + 1, q, p);
        vstd::arithmetic::mul::lemma_mul_is_distributive_add_other_way(p, l / p, 1);
    }
}

/// The exact sum of two decimals, or nothing when it cannot be represented at
/// the common scale. Never rounds.
pub fn try_add_exact(a: Dec, b: Dec) -> (r: Option<Dec>)
    requires
        a.wf(),
        b.wf(),
    ensures
        r == if fits_common_scale(a, b) {
            spec_add(a, b)
        } else {
            None::<Dec>
        },
        r matches Some(c) ==> c.wf() && c.v() == a.v() + b.v(),
        fits_common_scale(a, b) ==> r is Some,
{
    if scaled_magnitudes_fit(&a, &b) {
        raw_add(a, b)
    } else {
        None
    }
}

/// The exact difference of two decimals, or nothing when it cannot be
/// represented at the common scale. Never rounds.
pub fn try_sub_exact(a: Dec, b: Dec) -> (r: Option<Dec>)
    requires
        a.wf(),
        b.wf(),
    ensures
        r == if fits_common_scale(a, b) {
            spec_sub(a, b)
        } else {
            None::<Dec>
        },
        r matches Some(c) ==> c.wf() && c.v() == a.v() - b.v(),
        fits_common_scale(a, b) ==> r is Some,
{
    if scaled_magnitudes_fit(&a, &b) {
        raw_sub(a, b)
    } else {
        None
    }
}

/// Decides [`fits_common_scale`] without leaving `i128`.
fn scaled_magnitudes_fit(a: &Dec, b: &Dec) -> (r: bool)
    requires
        a.wf(),
        b.wf(),
    ensures
        r <==> fits_common_scale(*a, *b),
{
    let t = if a.s >= b.s { a.s } else { b.s };
    let pa = pow10_i128(t - a.s);
    let pb = pow10_i128(t - b.s);
    let aa = abs_i128(a.m);
    let ab = abs_i128(b.m);
    proof {
        lemma_scaled_bound(aa as int, pa as int, MANTISSA_LIMIT as int);
        lemma_scaled_bound(ab as int, pb as int, MANTISSA_LIMIT as int);
        vstd::arithmetic::mul::lemma_mul_nonnegative(aa as int, pa as int);
        vstd::arithmetic::mul::lemma_mul_nonnegative(ab as int, pb as int);
    }
    if aa <= MANTISSA_LIMIT / pa && ab <= MANTISSA_LIMIT / pb {
        let ra = aa * pa;
        let rb = ab * pb;
        ra <= MANTISSA_LIMIT - rb
    } else {
        false
    }
}

/// What `rust_decimal`'s checked addition returns for given operands.
pub uninterp spec fn sum_repr(m1: i128, s1: u32, m2: i128, s2: u32) -> Option<(i128, u32)>;

/// What `rust_decimal`'s checked subtraction returns for given operands.
pub uninterp spec fn diff_repr(m1: i128, s1: u32, m2: i128, s2: u32) -> Option<(i128, u32)>;

/// What `rust_decimal`'s checked multiplication returns for given operands.
pub uninterp spec fn prod_repr(m1: i128, s1: u32, m2: i128, s2: u32) -> Option<(i128, u32)>;

/// What `rust_decimal`'s checked division returns for given operands.
pub uninterp spec fn quot_repr(m1: i128, s1: u32, m2: i128, s2: u32) -> Option<(i128, u32)>;

/// What `rust_decimal` prints for a decimal with the given representation.
pub uninterp spec fn str_repr(m: i128, s: u32) -> Seq<char>;

/// What `rust_decimal` parses out of a string.
pub uninterp spec fn parse_repr(text: Seq<char>) -> Option<(i128, u32)>;

/// The named result of an operation, repackaged as a decimal.
pub open spec fn repr_to_dec(r: Option<(i128, u32)>) -> Option<Dec> {
    match r {
        Some(p) => Some(Dec { m: p.0, s: p.1 }),
        None => None,
    }
}

/// The sum of two decimals as `rust_decimal` computes it.
pub open spec fn spec_add(a: Dec, b: Dec) -> Option<Dec> {
    repr_to_dec(sum_repr(a.m, a.s, b.m, b.s))
}

/// The difference of two decimals as `rust_decimal` computes it.
pub open spec fn spec_sub(a: Dec, b: Dec) -> Option<Dec> {
    repr_to_dec(diff_repr(a.m, a.s, b.m, b.s))
}

/// The product of two decimals as `rust_decimal` computes it.
pub open spec fn spec_mul(a: Dec, b: Dec) -> Option<Dec> {
    repr_to_dec(prod_repr(a.m, a.s, b.m, b.s))
}

/// The quotient of two decimals as `rust_decimal` computes it.
pub open spec fn spec_div(a: Dec, b: Dec) -> Option<Dec> {
    repr_to_dec(quot_repr(a.m, a.s, b.m, b.s))
}

/// Both operands rescaled to the larger of the two scales stay within the
/// mantissa limit, jointly: then addition and subtraction are exact.
pub open spec fn fits_common_scale(a: Dec, b: Dec) -> bool {
    let t = if a.s >= b.s { a.s } else { b.s };
    abs(a.m as int) * pow(10, (t - a.s) as nat) + abs(b.m as int) * pow(10, (t - b.s) as nat)
        <= MANTISSA_LIMIT
}

/// Relies on `Decimal::checked_add`: the exact sum whenever both operands,
/// brought to the common scale, fit in 96 mantissa bits; on any other input
/// the result, if there is one, is still a valid representation.
#[verifier::external_body]
pub(crate) fn raw_add(a: Dec, b: Dec) -> (r: Option<Dec>)
    requires
        a.wf(),
        b.wf(),
    ensures
        r == repr_to_dec(sum_repr(a.m, a.s, b.m, b.s)),
        r matches Some(c) ==> c.wf() && (fits_common_scale(a, b) ==> c.v() == a.v() + b.v()),
        fits_common_scale(a, b) ==> r is Some,
{
    let x = rust_decimal::Decimal::from_i128_with_scale(a.m, a.s);
    let y = rust_decimal::Decimal::from_i128_with_scale(b.m, b.s);
    x.checked_add(y).map(|c| Dec { m: c.mantissa(), s: c.scale() })
}

/// Relies on `Decimal::checked_sub`: the exact difference whenever both
/// operands, brought to the common scale, fit in 96 mantissa bits.
#[verifier::external_body]
pub(crate) fn raw_sub(a: Dec, b: Dec) -> (r: Option<Dec>)
    requires
        a.wf(),
        b.wf(),
    ensures
        r == repr_to_dec(diff_repr(a.m, a.s, b.m, b.s)),
        r matches Some(c) ==> c.wf() && (fits_common_scale(a, b) ==> c.v() == a.v() - b.v()),
        fits_common_scale(a, b) ==> r is Some,
{
    let x = rust_decimal::Decimal::from_i128_with_scale(a.m, a.s);
    let y = rust_decimal::Decimal::from_i128_with_scale(b.m, b.s);
    x.checked_sub(y).map(|c| Dec { m: c.mantissa(), s: c.scale() })
}

/// Relies on `Decimal::checked_mul`: when the scales add to at most 28 and
/// the mantissa product fits, the product is exact; any result is a valid
/// representation of the rounded product.
#[verifier::external_body]
pub(crate) fn raw_mul(a: Dec, b: Dec) -> (r: Option<Dec>)
    requires
        a.wf(),
        b.wf(),
    ensures
        r == repr_to_dec(prod_repr(a.m, a.s, b.m, b.s)),
        r matches Some(c) ==> c.wf() && (a.s + b.s <= SCALE_LIMIT && abs((a.m * b.m) as int)
            <= MANTISSA_LIMIT ==> c.v() == a.m * b.m * pow(10, (SCALE_LIMIT - a.s - b.s) as nat)),
        a.s + b.s <= SCALE_LIMIT && abs((a.m * b.m) as int) <= MANTISSA_LIMIT ==> r is Some,
{
    let x = rust_decimal::Decimal::from_i128_with_scale(a.m, a.s);
    let y = rust_decimal::Decimal::from_i128_with_scale(b.m, b.s);
    x.checked_mul(y).map(|c| Dec { m: c.mantissa(), s: c.scale() })
}

/// Relies on `Decimal::checked_div`: division by zero yields nothing; a
/// quotient whose magnitude stays under the mantissa limit is returned (the
/// long division refuses only a quotient whose integer part cannot fit 96
/// bits, or one rounding up past them); an exactly representable quotient is
/// returned exactly, since the division ends on a zero remainder before any
/// rounding; any result is a valid representation of the quotient rounded to
/// 28 fractional digits.
#[verifier::external_body]
pub(crate) fn raw_div(a: Dec, b: Dec) -> (r: Option<Dec>)
    requires
        a.wf(),
        b.wf(),
    ensures
        r == repr_to_dec(quot_repr(a.m, a.s, b.m, b.s)),
        r matches Some(c) ==> c.wf(),
        b.m == 0 ==> r is None,
        b.v() != 0 && abs(a.v()) < abs(b.v()) * (MANTISSA_LIMIT as int) ==> r is Some,
        r matches Some(c) ==> (b.v() != 0 && (exists|q: Dec|
            q.wf() && q.v() * b.v() == a.v() * pow(10, SCALE_LIMIT as nat)) ==> c.v() * b.v()
            == a.v() * pow(10, SCALE_LIMIT as nat)),
{
    let x = rust_decimal::Decimal::from_i128_with_scale(a.m, a.s);
    let y = rust_decimal::Decimal::from_i128_with_scale(b.m, b.s);
    x.checked_div(y).map(|c| Dec { m: c.mantissa(), s: c.scale() })
}

/// Relies on `Decimal`'s `PartialOrd::lt`: an exact comparison of values.
#[verifier::external_body]
pub(crate) fn dec_lt(a: &Dec, b: &Dec) -> (r: bool)
    requires
        a.wf(),
        b.wf(),
    ensures
        r <==> a.v() < b.v(),
{
    let x = rust_decimal::Decimal::from_i128_with_scale(a.m, a.s);
    let y = rust_decimal::Decimal::from_i128_with_scale(b.m, b.s);
    x < y
}

/// Relies on `Decimal`'s `PartialOrd::le`: an exact comparison of values.
#[verifier::external_body]
pub(crate) fn dec_le(a: &Dec, b: &Dec) -> (r: bool)
    requires
        a.wf(),
        b.wf(),
    ensures
        r <==> a.v() <= b.v(),
{
    let x = rust_decimal::Decimal::from_i128_with_scale(a.m, a.s);
    let y = rust_decimal::Decimal::from_i128_with_scale(b.m, b.s);
    x <= y
}

/// Relies on `Decimal`'s `Display`: the canonical decimal string, without an
/// exponent, a function of the representation alone.
#[verifier::external_body]
pub(crate) fn dec_to_string(a: &Dec) -> (r: String)
    requires
        a.wf(),
    ensures
        r@ == str_repr(a.m, a.s),
{
    let x = rust_decimal::Decimal::from_i128_with_scale(a.m, a.s);
    x.to_string()
}

/// Relies on `Decimal`'s `FromStr`: a decimal parsed out of the text, a
/// function of the text alone, always a valid representation.
#[verifier::external_body]
pub(crate) fn dec_parse(text: &str) -> (r: Option<Dec>)
    ensures
        r == repr_to_dec(parse_repr(text@)),
        r matches Some(c) ==> c.wf(),
{
    match text.parse::<rust_decimal::Decimal>() {
        Ok(c) => Some(Dec { m: c.mantissa(), s: c.scale() }),
        Err(_) => None,
    }
}

} // verus!
