//! Plain-value model of a `rust_decimal::Decimal`: a 96-bit mantissa, a scale
//! of at most 28 fractional digits, and a sign. Arithmetic goes through
//! `rust_decimal` behind trusted wrappers; what can be stated in a few lines
//! (truncation bound, normalization, value equality) is implemented and
//! verified here directly on the parts.

use vstd::arithmetic::div_mod::{
    lemma_div_by_multiple, lemma_div_denominator, lemma_fundamental_div_mod,
    lemma_fundamental_div_mod_converse,
};
use vstd::arithmetic::mul::lemma_mul_inequality;
use vstd::prelude::*;

use rust_decimal::MathematicalOps as _;

verus! {

/// One more than the largest mantissa a decimal can carry (2^96).
pub const MANT_LIMIT: u128 = 79228162514264337593543950336;

/// The largest scale (count of fractional digits) a decimal can carry.
pub const SCALE_LIMIT: u32 = 28;

/// The largest integer-part magnitude the display buffer accepts: sixteen nines.
pub const BUFFER_MAX_NUMBER: u128 = 9999999999999999;

/// A decimal number `(-1)^neg * mant / 10^scale`, mirroring the constituent
/// parts of a `rust_decimal::Decimal`.
#[derive(Clone, Copy, Debug)]
pub struct Dec {
    pub mant: u128,
    pub scale: u32,
    pub neg: bool,
}

pub open spec fn pow10(e: nat) -> nat
    decreases e,
{
    if e == 0 {
        1
    } else {
        10 * pow10((e - 1) as nat)
    }
}

pub open spec fn iabs(x: int) -> int {
    if x < 0 {
        -x
    } else {
        x
    }
}

impl Dec {
    pub open spec fn valid(self) -> bool {
        self.mant < MANT_LIMIT && self.scale <= SCALE_LIMIT
    }

    /// The value of this decimal scaled by 10^28, which makes it an integer.
    pub open spec fn scaled(self) -> int {
        let mag = (self.mant * pow10((SCALE_LIMIT - self.scale) as nat)) as int;
        if self.neg {
            -mag
        } else {
            mag
        }
    }

    /// No trailing zero fractional digits, and zero is carried as `+0` with scale 0.
    pub open spec fn is_normal(self) -> bool {
        &&& self.mant % 10 != 0 || self.scale == 0
        &&& self.mant == 0 ==> self.scale == 0 && !self.neg
    }

    /// The magnitude of the integer part.
    pub open spec fn trunc_abs(self) -> nat {
        (self.mant as nat) / pow10(self.scale as nat)
    }

    /// Within the magnitude ceiling that the display buffer can carry.
    pub open spec fn in_buffer_range(self) -> bool {
        self.trunc_abs() <= BUFFER_MAX_NUMBER
    }

    pub open spec fn zero_spec() -> Dec {
        Dec { mant: 0, scale: 0, neg: false }
    }

    /// The zero value.
    pub fn zero() -> (r: Dec)
        ensures
            r == Dec::zero_spec(),
    {
        Dec { mant: 0, scale: 0, neg: false }
    }

    /// Whether the integer part of the magnitude fits the display buffer.
    pub fn is_in_buffer_range(&self) -> (r: bool)
        requires
            self.valid(),
        ensures
            r == self.in_buffer_range(),
    {
        proof {
            lemma_pow10_pos(self.scale as nat);
        }
        self.mant / pow10_u128(self.scale) <= BUFFER_MAX_NUMBER
    }

    pub open spec fn pi_spec() -> Dec {
        Dec { mant: 31415926535897932384626433833, scale: 28, neg: false }
    }

    /// π to 28 fractional places, with the digits `rust_decimal` documents
    /// for its `Decimal::PI`.
    pub fn pi() -> (r: Dec)
        ensures
            r == Dec::pi_spec(),
            r.valid(),
    {
        proof {
            lemma_pow10_28();
        }
        Dec { mant: 31415926535897932384626433833, scale: 28, neg: false }
    }

    pub open spec fn eulers_spec() -> Dec {
        Dec { mant: 27182818284590452353602874714, scale: 28, neg: false }
    }

    /// Euler's number to 28 fractional places, with the digits `rust_decimal`
    /// documents for its `Decimal::E`.
    pub fn eulers() -> (r: Dec)
        ensures
            r == Dec::eulers_spec(),
            r.valid(),
    {
        proof {
            lemma_pow10_28();
        }
        Dec { mant: 27182818284590452353602874714, scale: 28, neg: false }
    }
}

pub proof fn lemma_pow10_pos(e: nat)
    ensures
        pow10(e) >= 1,
    decreases e,
{
    if e > 0 {
        lemma_pow10_pos((e - 1) as nat);
    }
}

pub proof fn lemma_pow10_adds(a: nat, b: nat)
    ensures
        pow10(a + b) == pow10(a) * pow10(b),
    decreases a,
{
    if a == 0 {
        assert(pow10(0) == 1);
        assert(1 * pow10(b) == pow10(b)) by (nonlinear_arith);
    } else {
        lemma_pow10_adds((a - 1) as nat, b);
        assert(pow10(a + b) == 10 * pow10((a + b - 1) as nat));
        assert((a + b - 1) as nat == (a - 1) as nat + b);
        assert(10 * (pow10((a - 1) as nat) * pow10(b)) == (10 * pow10((a - 1) as nat)) * pow10(b))
            by (nonlinear_arith);
        assert(pow10(a) == 10 * pow10((a - 1) as nat));
    }
}

pub proof fn lemma_pow10_mono(a: nat, b: nat)
    requires
        a <= b,
    ensures
        pow10(a) <= pow10(b),
{
    lemma_pow10_adds(a, (b - a) as nat);
    lemma_pow10_pos((b - a) as nat);
    lemma_mul_inequality(1, pow10((b - a) as nat) as int, pow10(a) as int);
    assert(pow10(a) * 1 == pow10(a)) by (nonlinear_arith);
    assert(pow10(a) * pow10((b - a) as nat) >= pow10(a) * 1) by (nonlinear_arith)
        requires
            pow10((b - a) as nat) >= 1,
            pow10(a) >= 0,
    ;
}

pub proof fn lemma_pow10_28()
    ensures
        pow10(28) == 10000000000000000000000000000,
{
    reveal_with_fuel(pow10, 29);
    assert(pow10(28) == 10000000000000000000000000000);
}

/// 10^e as a machine integer, for scales within the decimal's range.
pub fn pow10_u128(e: u32) -> (r: u128)
    requires
        e <= 28,
    ensures
        r == pow10(e as nat),
{
    proof {
        lemma_pow10_28();
    }
    let mut r: u128 = 1;
    let mut i: u32 = 0;
    while i < e
        invariant
            i <= e,
            e <= 28,
            r == pow10(i as nat),
        decreases e - i,
    {
        proof {
            lemma_pow10_28();
            lemma_pow10_mono((i + 1) as nat, 28);
            assert(pow10((i + 1) as nat) == 10 * pow10(i as nat));
        }
        r = r * 10;
        i = i + 1;
    }
    r
}

/// Strip trailing zero fractional digits; carry zero as `+0` with scale 0.
/// Value-preserving, and the result is in normal form.
pub fn normalize(d: &Dec) -> (r: Dec)
    requires
        d.valid(),
    ensures
        r.valid(),
        r.is_normal(),
        r.scaled() == d.scaled(),
{
    if d.mant == 0 {
        return Dec { mant: 0, scale: 0, neg: false };
    }
    let mut m: u128 = d.mant;
    let mut s: u32 = d.scale;
    while s > 0 && m % 10 == 0
        invariant
            d.valid(),
            s <= d.scale,
            m <= d.mant,
            m * pow10((SCALE_LIMIT - s) as nat) == d.mant * pow10((SCALE_LIMIT - d.scale) as nat),
            m > 0,
        decreases s,
    {
        proof {
            let q = (m / 10) as nat;
            assert(m == 10 * q) by {
                lemma_fundamental_div_mod(m as int, 10);
            };
            assert((10 * q) * pow10((SCALE_LIMIT - s) as nat) == q * (10 * pow10(
                (SCALE_LIMIT - s) as nat,
            ))) by (nonlinear_arith);
            assert(10 * pow10((SCALE_LIMIT - s) as nat) == pow10((SCALE_LIMIT - (s - 1)) as nat));
            assert(q > 0) by (nonlinear_arith)
                requires
                    m == 10 * q,
                    m > 0,
            ;
        }
        m = m / 10;
        s = s - 1;
    }
    Dec { mant: m, scale: s, neg: d.neg }
}

/// Whether two decimals denote the same value, aligning scales as
/// `rust_decimal`'s comparison does.
pub fn dec_eq(a: &Dec, b: &Dec) -> (r: bool)
    requires
        a.valid(),
        b.valid(),
    ensures
        r == (a.scaled() == b.scaled()),
{
    proof {
        lemma_scaled_sign(*a);
        lemma_scaled_sign(*b);
    }
    if a.mant == 0 || b.mant == 0 {
        return a.mant == 0 && b.mant == 0;
    }
    if a.neg != b.neg {
        return false;
    }
    let (hi, lo) = if a.scale >= b.scale {
        (a, b)
    } else {
        (b, a)
    };
    // Same sign and both nonzero: the values agree exactly when the
    // higher-scale mantissa equals the other mantissa brought to that scale.
    proof {
        lemma_pow10_pos((hi.scale - lo.scale) as nat);
    }
    let factor = pow10_u128(hi.scale - lo.scale);
    let r = hi.mant % factor == 0 && hi.mant / factor == lo.mant;
    proof {
        lemma_eq_via_alignment(*hi, *lo);
        if r {
            lemma_fundamental_div_mod(hi.mant as int, factor as int);
            assert(factor * (hi.mant / factor) == (hi.mant / factor) * factor)
                by (nonlinear_arith);
        } else {
            if hi.mant == lo.mant * factor {
                lemma_fundamental_div_mod_converse(
                    hi.mant as int,
                    factor as int,
                    lo.mant as int,
                    0,
                );
            }
        }
    }
    r
}

/// The larger of the two scales.
pub open spec fn max_scale(a: Dec, b: Dec) -> u32 {
    if a.scale >= b.scale {
        a.scale
    } else {
        b.scale
    }
}

/// The value `v` (scaled by 10^28) has a representation with scale `s`:
/// `v / 10^(28-s)` is a whole mantissa below 2^96.
pub open spec fn rep_at_scale(v: int, s: nat) -> bool {
    &&& s <= SCALE_LIMIT
    &&& iabs(v) % (pow10((SCALE_LIMIT - s) as nat) as int) == 0
    &&& iabs(v) / (pow10((SCALE_LIMIT - s) as nat) as int) < MANT_LIMIT
}

/// The value `v` (scaled by 10^28) is representable at some scale up to the
/// operands' common scale. A checked sum or difference is then exact: the
/// wide intermediate buffer aligns the operands exactly, and the trailing
/// rescale divides without remainder for such a value.
pub open spec fn exact_combine_ok(a: Dec, b: Dec, v: int) -> bool {
    exists|s: nat| #[trigger] rep_at_scale(v, s) && s <= max_scale(a, b)
}

/// The product `p` of two scaled values (so in units of 10^-56) has a
/// representation with scale `s`.
pub open spec fn prod_rep_at_scale(p: int, s: nat) -> bool {
    &&& s <= SCALE_LIMIT
    &&& iabs(p) % (pow10((56 - s) as nat) as int) == 0
    &&& iabs(p) / (pow10((56 - s) as nat) as int) < MANT_LIMIT
}

/// The exact product of the two values is representable at some scale, so a
/// checked multiplication is exact: the full double-width product is formed
/// first, and the trailing rescale divides without remainder for such a
/// value.
pub open spec fn exact_product_ok(a: Dec, b: Dec) -> bool {
    exists|s: nat| #[trigger] prod_rep_at_scale(a.scaled() * b.scaled(), s)
}

/// Relies on `rust_decimal`'s `Decimal::checked_add`: a pure function of the
/// two operands' parts, exact whenever the exact sum is representable at a
/// scale up to the common one, otherwise rounded with an error of at most
/// one whole unit; `None` only when the magnitude leaves the 96-bit range.
#[verifier::external_body]
pub(crate) fn dec_checked_add(a: &Dec, b: &Dec) -> (r: Option<Dec>)
    requires
        a.valid(),
        b.valid(),
    ensures
        add_rel(*a, *b, r),
        r matches Some(d) ==> add_parts_of((a.mant, a.scale, a.neg, b.mant, b.scale, b.neg))
            == Some((d.mant, d.scale, d.neg)),
        r is None <==> add_parts_of((a.mant, a.scale, a.neg, b.mant, b.scale, b.neg)) is None,
{
    let x = rust_decimal::Decimal::from_i128_with_scale(
        if a.neg { -(a.mant as i128) } else { a.mant as i128 },
        a.scale,
    );
    let y = rust_decimal::Decimal::from_i128_with_scale(
        if b.neg { -(b.mant as i128) } else { b.mant as i128 },
        b.scale,
    );
    match x.checked_add(y) {
        None => None,
        Some(d) => Some(Dec { mant: d.mantissa().unsigned_abs(), scale: d.scale(), neg: d.is_sign_negative() }),
    }
}

/// Relies on `rust_decimal`'s `Decimal::checked_sub`, with the same behaviour
/// as checked addition of the negated right operand.
#[verifier::external_body]
pub(crate) fn dec_checked_sub(a: &Dec, b: &Dec) -> (r: Option<Dec>)
    requires
        a.valid(),
        b.valid(),
    ensures
        sub_rel(*a, *b, r),
        r matches Some(d) ==> sub_parts_of((a.mant, a.scale, a.neg, b.mant, b.scale, b.neg))
            == Some((d.mant, d.scale, d.neg)),
        r is None <==> sub_parts_of((a.mant, a.scale, a.neg, b.mant, b.scale, b.neg)) is None,
{
    let x = rust_decimal::Decimal::from_i128_with_scale(
        if a.neg { -(a.mant as i128) } else { a.mant as i128 },
        a.scale,
    );
    let y = rust_decimal::Decimal::from_i128_with_scale(
        if b.neg { -(b.mant as i128) } else { b.mant as i128 },
        b.scale,
    );
    match x.checked_sub(y) {
        None => None,
        Some(d) => Some(Dec { mant: d.mantissa().unsigned_abs(), scale: d.scale(), neg: d.is_sign_negative() }),
    }
}

/// Relies on `rust_decimal`'s `Decimal::checked_mul`: a pure function of the
/// parts, exact whenever the exact product is representable, otherwise
/// rounded with an error of at most one whole unit; `None` only when the
/// magnitude leaves the 96-bit range.
#[verifier::external_body]
pub(crate) fn dec_checked_mul(a: &Dec, b: &Dec) -> (r: Option<Dec>)
    requires
        a.valid(),
        b.valid(),
    ensures
        mul_rel(*a, *b, r),
        r matches Some(d) ==> mul_parts_of((a.mant, a.scale, a.neg, b.mant, b.scale, b.neg))
            == Some((d.mant, d.scale, d.neg)),
        r is None <==> mul_parts_of((a.mant, a.scale, a.neg, b.mant, b.scale, b.neg)) is None,
{
    let x = rust_decimal::Decimal::from_i128_with_scale(
        if a.neg { -(a.mant as i128) } else { a.mant as i128 },
        a.scale,
    );
    let y = rust_decimal::Decimal::from_i128_with_scale(
        if b.neg { -(b.mant as i128) } else { b.mant as i128 },
        b.scale,
    );
    match x.checked_mul(y) {
        None => None,
        Some(d) => Some(Dec { mant: d.mantissa().unsigned_abs(), scale: d.scale(), neg: d.is_sign_negative() }),
    }
}

/// The quotient of the two values has a representation with scale `s`:
/// `(a/b) * 10^s` is a whole mantissa below 2^96.
pub open spec fn quot_rep_at_scale(a: Dec, b: Dec, s: nat) -> bool {
    &&& s <= SCALE_LIMIT
    &&& (iabs(a.scaled()) * pow10(s)) % iabs(b.scaled()) == 0
    &&& (iabs(a.scaled()) * pow10(s)) / iabs(b.scaled()) < MANT_LIMIT
}

/// The exact quotient of `a` by a nonzero `b` is representable at some
/// scale. A checked division is then exact: the long division extends its
/// scale digit by digit until the remainder vanishes, which happens within
/// the mantissa's room for such a value.
pub open spec fn exact_quotient_ok(a: Dec, b: Dec) -> bool {
    &&& b.mant != 0
    &&& exists|s: nat| #[trigger] quot_rep_at_scale(a, b, s)
}

/// What `rust_decimal`'s `checked_add` returns, as a function of the two
/// operands' parts; pins the evaluator as a pure function of its inputs.
pub uninterp spec fn add_parts_of(parts: (u128, u32, bool, u128, u32, bool)) -> Option<
    (u128, u32, bool),
>;

/// What `rust_decimal`'s `checked_sub` returns, as a function of the parts.
pub uninterp spec fn sub_parts_of(parts: (u128, u32, bool, u128, u32, bool)) -> Option<
    (u128, u32, bool),
>;

/// What `rust_decimal`'s `checked_mul` returns, as a function of the parts.
pub uninterp spec fn mul_parts_of(parts: (u128, u32, bool, u128, u32, bool)) -> Option<
    (u128, u32, bool),
>;

/// What `rust_decimal`'s `checked_div` returns, as a function of the parts.
pub uninterp spec fn div_parts_of(parts: (u128, u32, bool, u128, u32, bool)) -> Option<
    (u128, u32, bool),
>;

/// Everything the checked addition promises of its outcome: the named pure
/// function of the parts, a one-unit error bound, and exactness whenever the
/// exact sum is representable.
pub open spec fn add_rel(a: Dec, b: Dec, r: Option<Dec>) -> bool {
    match r {
        Some(d) => {
            &&& d.valid()
            &&& add_parts_of((a.mant, a.scale, a.neg, b.mant, b.scale, b.neg)) == Some(
                (d.mant, d.scale, d.neg),
            )
            &&& iabs(d.scaled() - (a.scaled() + b.scaled())) <= pow10(SCALE_LIMIT as nat)
            &&& exact_combine_ok(a, b, a.scaled() + b.scaled()) ==> d.scaled() == a.scaled()
                + b.scaled()
        },
        None => {
            &&& add_parts_of((a.mant, a.scale, a.neg, b.mant, b.scale, b.neg)) is None
            &&& !exact_combine_ok(a, b, a.scaled() + b.scaled())
            &&& iabs(a.scaled() + b.scaled()) > (MANT_LIMIT - 2) * pow10(SCALE_LIMIT as nat)
        },
    }
}

/// Everything the checked subtraction promises of its outcome, in the same
/// shape as the addition relation.
pub open spec fn sub_rel(a: Dec, b: Dec, r: Option<Dec>) -> bool {
    match r {
        Some(d) => {
            &&& d.valid()
            &&& sub_parts_of((a.mant, a.scale, a.neg, b.mant, b.scale, b.neg)) == Some(
                (d.mant, d.scale, d.neg),
            )
            &&& iabs(d.scaled() - (a.scaled() - b.scaled())) <= pow10(SCALE_LIMIT as nat)
            &&& exact_combine_ok(a, b, a.scaled() - b.scaled()) ==> d.scaled() == a.scaled()
                - b.scaled()
        },
        None => {
            &&& sub_parts_of((a.mant, a.scale, a.neg, b.mant, b.scale, b.neg)) is None
            &&& !exact_combine_ok(a, b, a.scaled() - b.scaled())
            &&& iabs(a.scaled() - b.scaled()) > (MANT_LIMIT - 2) * pow10(SCALE_LIMIT as nat)
        },
    }
}

/// Everything the checked multiplication promises of its outcome.
pub open spec fn mul_rel(a: Dec, b: Dec, r: Option<Dec>) -> bool {
    match r {
        Some(d) => {
            &&& d.valid()
            &&& mul_parts_of((a.mant, a.scale, a.neg, b.mant, b.scale, b.neg)) == Some(
                (d.mant, d.scale, d.neg),
            )
            &&& iabs(d.scaled() * pow10(SCALE_LIMIT as nat) - a.scaled() * b.scaled()) <= pow10(56)
            &&& exact_product_ok(a, b) ==> d.scaled() * pow10(SCALE_LIMIT as nat) == a.scaled()
                * b.scaled()
        },
        None => {
            &&& mul_parts_of((a.mant, a.scale, a.neg, b.mant, b.scale, b.neg)) is None
            &&& !exact_product_ok(a, b)
            &&& iabs(a.scaled() * b.scaled()) > (MANT_LIMIT - 2) * pow10(56)
        },
    }
}

/// Everything the checked division promises of its outcome.
pub open spec fn div_rel(a: Dec, b: Dec, r: Option<Dec>) -> bool {
    match r {
        Some(d) => {
            &&& b.mant != 0
            &&& d.valid()
            &&& div_parts_of((a.mant, a.scale, a.neg, b.mant, b.scale, b.neg)) == Some(
                (d.mant, d.scale, d.neg),
            )
            &&& iabs(d.scaled() * b.scaled() - a.scaled() * pow10(SCALE_LIMIT as nat)) <= iabs(
                b.scaled(),
            ) * pow10(SCALE_LIMIT as nat)
            &&& exact_quotient_ok(a, b) ==> d.scaled() * b.scaled() == a.scaled() * pow10(
                SCALE_LIMIT as nat,
            )
        },
        None => {
            &&& div_parts_of((a.mant, a.scale, a.neg, b.mant, b.scale, b.neg)) is None
            &&& !exact_quotient_ok(a, b)
            &&& b.mant != 0 ==> iabs(a.scaled()) > (MANT_LIMIT - 2) * iabs(b.scaled())
        },
    }
}

/// Relies on `rust_decimal`'s `Decimal::checked_div`: a pure function of the
/// parts; `None` on a zero divisor; exact whenever the exact quotient is
/// representable; otherwise off by at most one whole unit; `None` for a
/// nonzero divisor only when the quotient's magnitude leaves the 96-bit
/// range.
#[verifier::external_body]
pub(crate) fn dec_checked_div(a: &Dec, b: &Dec) -> (r: Option<Dec>)
    requires
        a.valid(),
        b.valid(),
    ensures
        r is None <== b.mant == 0,
        div_rel(*a, *b, r),
        r matches Some(d) ==> div_parts_of((a.mant, a.scale, a.neg, b.mant, b.scale, b.neg))
            == Some((d.mant, d.scale, d.neg)),
        r is None <==> div_parts_of((a.mant, a.scale, a.neg, b.mant, b.scale, b.neg)) is None,
{
    let x = rust_decimal::Decimal::from_i128_with_scale(
        if a.neg { -(a.mant as i128) } else { a.mant as i128 },
        a.scale,
    );
    let y = rust_decimal::Decimal::from_i128_with_scale(
        if b.neg { -(b.mant as i128) } else { b.mant as i128 },
        b.scale,
    );
    match x.checked_div(y) {
        None => None,
        Some(d) => Some(Dec { mant: d.mantissa().unsigned_abs(), scale: d.scale(), neg: d.is_sign_negative() }),
    }
}

/// What `rust_decimal`'s `checked_powd` returns, as a function of the parts
/// of the base and the exponent.
pub uninterp spec fn powd_of(parts: (u128, u32, bool, u128, u32, bool)) -> Option<(u128, u32, bool)>;

/// What `rust_decimal`'s `checked_ln` returns, as a function of the parts of
/// its receiver.
pub uninterp spec fn ln_of(parts: (u128, u32, bool)) -> Option<(u128, u32, bool)>;

/// What `rust_decimal`'s `checked_sin` returns, as a function of the parts of
/// its receiver.
pub uninterp spec fn sin_of(parts: (u128, u32, bool)) -> Option<(u128, u32, bool)>;

/// What `rust_decimal`'s `checked_cos` returns, as a function of the parts of
/// its receiver.
pub uninterp spec fn cos_of(parts: (u128, u32, bool)) -> Option<(u128, u32, bool)>;

/// What `rust_decimal`'s `checked_exp_with_tolerance` returns for a zero
/// tolerance, as a function of the parts of its receiver.
pub uninterp spec fn exp_zero_tol_of(parts: (u128, u32, bool)) -> Option<(u128, u32, bool)>;

/// Division of `m` by `10^k`, rounded half to even.
pub open spec fn round_half_even(m: nat, k: nat) -> nat {
    let q = m / pow10(k);
    let rem = m % pow10(k);
    if 2 * rem > pow10(k) {
        q + 1
    } else if 2 * rem < pow10(k) {
        q
    } else if q % 2 == 1 {
        q + 1
    } else {
        q
    }
}

/// Rounding to `dp` fractional places: the input is kept when its scale is
/// at most `dp`; otherwise the mantissa is divided by the excess power of
/// ten, rounding half to even. A zero mantissa always comes back with the
/// sign cleared: a `rust_decimal` value cannot carry a negative zero through
/// its constructors.
pub open spec fn round_dp_spec(d: Dec, dp: u32) -> Dec {
    if d.scale <= dp {
        Dec { mant: d.mant, scale: d.scale, neg: d.neg && d.mant != 0 }
    } else {
        let rounded = round_half_even(d.mant as nat, (d.scale - dp) as nat);
        Dec { mant: rounded as u128, scale: dp, neg: d.neg && rounded != 0 }
    }
}

/// The decimal with the given parts.
pub open spec fn dec_of_parts(t: (u128, u32, bool)) -> Dec {
    Dec { mant: t.0, scale: t.1, neg: t.2 }
}

/// Relies on `rust_decimal`'s `MathematicalOps::checked_powd`: a deterministic
/// function of the parts of base and exponent.
#[verifier::external_body]
pub(crate) fn dec_checked_powd(base: &Dec, exponent: &Dec) -> (r: Option<Dec>)
    requires
        base.valid(),
        exponent.valid(),
    ensures
        r matches Some(d) ==> d.valid() && powd_of(
            (base.mant, base.scale, base.neg, exponent.mant, exponent.scale, exponent.neg),
        ) == Some((d.mant, d.scale, d.neg)),
        r is None <==> powd_of(
            (base.mant, base.scale, base.neg, exponent.mant, exponent.scale, exponent.neg),
        ) is None,
{
    let x = rust_decimal::Decimal::from_i128_with_scale(
        if base.neg { -(base.mant as i128) } else { base.mant as i128 },
        base.scale,
    );
    let y = rust_decimal::Decimal::from_i128_with_scale(
        if exponent.neg { -(exponent.mant as i128) } else { exponent.mant as i128 },
        exponent.scale,
    );
    match x.checked_powd(y) {
        None => None,
        Some(d) => Some(Dec { mant: d.mantissa().unsigned_abs(), scale: d.scale(), neg: d.is_sign_negative() }),
    }
}

/// Relies on `rust_decimal`'s `MathematicalOps::checked_ln`: a deterministic
/// function of the parts of its receiver, `None` for zero or negative input.
#[verifier::external_body]
pub(crate) fn dec_checked_ln(a: &Dec) -> (r: Option<Dec>)
    requires
        a.valid(),
    ensures
        r matches Some(d) ==> d.valid() && ln_of((a.mant, a.scale, a.neg)) == Some(
            (d.mant, d.scale, d.neg),
        ),
        r is None <==> ln_of((a.mant, a.scale, a.neg)) is None,
        a.neg || a.mant == 0 ==> r is None,
{
    let x = rust_decimal::Decimal::from_i128_with_scale(
        if a.neg { -(a.mant as i128) } else { a.mant as i128 },
        a.scale,
    );
    match x.checked_ln() {
        None => None,
        Some(d) => Some(Dec { mant: d.mantissa().unsigned_abs(), scale: d.scale(), neg: d.is_sign_negative() }),
    }
}

/// Relies on `rust_decimal`'s `MathematicalOps::checked_sin`: a deterministic
/// function of the parts of its receiver.
#[verifier::external_body]
pub(crate) fn dec_checked_sin(a: &Dec) -> (r: Option<Dec>)
    requires
        a.valid(),
    ensures
        r matches Some(d) ==> d.valid() && sin_of((a.mant, a.scale, a.neg)) == Some(
            (d.mant, d.scale, d.neg),
        ),
        r is None <==> sin_of((a.mant, a.scale, a.neg)) is None,
{
    let x = rust_decimal::Decimal::from_i128_with_scale(
        if a.neg { -(a.mant as i128) } else { a.mant as i128 },
        a.scale,
    );
    match x.checked_sin() {
        None => None,
        Some(d) => Some(Dec { mant: d.mantissa().unsigned_abs(), scale: d.scale(), neg: d.is_sign_negative() }),
    }
}

/// Relies on `rust_decimal`'s `MathematicalOps::checked_cos`: a deterministic
/// function of the parts of its receiver.
#[verifier::external_body]
pub(crate) fn dec_checked_cos(a: &Dec) -> (r: Option<Dec>)
    requires
        a.valid(),
    ensures
        r matches Some(d) ==> d.valid() && cos_of((a.mant, a.scale, a.neg)) == Some(
            (d.mant, d.scale, d.neg),
        ),
        r is None <==> cos_of((a.mant, a.scale, a.neg)) is None,
{
    let x = rust_decimal::Decimal::from_i128_with_scale(
        if a.neg { -(a.mant as i128) } else { a.mant as i128 },
        a.scale,
    );
    match x.checked_cos() {
        None => None,
        Some(d) => Some(Dec { mant: d.mantissa().unsigned_abs(), scale: d.scale(), neg: d.is_sign_negative() }),
    }
}

/// Relies on `rust_decimal`'s `MathematicalOps::checked_exp_with_tolerance`
/// called with a zero tolerance: a deterministic function of the parts of its
/// receiver.
#[verifier::external_body]
pub(crate) fn dec_checked_exp_zero_tol(a: &Dec) -> (r: Option<Dec>)
    requires
        a.valid(),
    ensures
        r matches Some(d) ==> d.valid() && exp_zero_tol_of((a.mant, a.scale, a.neg)) == Some(
            (d.mant, d.scale, d.neg),
        ),
        r is None <==> exp_zero_tol_of((a.mant, a.scale, a.neg)) is None,
{
    let x = rust_decimal::Decimal::from_i128_with_scale(
        if a.neg { -(a.mant as i128) } else { a.mant as i128 },
        a.scale,
    );
    match x.checked_exp_with_tolerance(rust_decimal::Decimal::ZERO) {
        None => None,
        Some(d) => Some(Dec { mant: d.mantissa().unsigned_abs(), scale: d.scale(), neg: d.is_sign_negative() }),
    }
}

/// Relies on `rust_decimal`'s `Decimal::round_dp`: the input is returned
/// unchanged when its scale is at most `dp`; otherwise the mantissa is
/// divided by the excess power of ten with the remainder rounded half to
/// even; a value that comes out zero is positive, since `from_parts` clears
/// the sign on a zero mantissa. Exactly as `round_dp_spec` states.
#[verifier::external_body]
pub(crate) fn dec_round_dp(a: &Dec, dp: u32) -> (r: Dec)
    requires
        a.valid(),
        dp <= SCALE_LIMIT,
    ensures
        r == round_dp_spec(*a, dp),
        r.valid(),
{
    let x = rust_decimal::Decimal::from_i128_with_scale(
        if a.neg { -(a.mant as i128) } else { a.mant as i128 },
        a.scale,
    );
    let d = x.round_dp(dp);
    Dec { mant: d.mantissa().unsigned_abs(), scale: d.scale(), neg: d.is_sign_negative() }
}

/// A valid decimal's scaled magnitude stays under `2^96 * 10^28`.
pub proof fn lemma_scaled_magnitude(d: Dec)
    requires
        d.valid(),
    ensures
        iabs(d.scaled()) < MANT_LIMIT * pow10(SCALE_LIMIT as nat),
{
    lemma_pow10_mono((SCALE_LIMIT - d.scale) as nat, SCALE_LIMIT as nat);
    lemma_pow10_pos((SCALE_LIMIT - d.scale) as nat);
    assert(d.mant * pow10((SCALE_LIMIT - d.scale) as nat) < MANT_LIMIT * pow10(
        SCALE_LIMIT as nat,
    )) by (nonlinear_arith)
        requires
            d.mant < MANT_LIMIT,
            pow10((SCALE_LIMIT - d.scale) as nat) <= pow10(SCALE_LIMIT as nat),
            pow10((SCALE_LIMIT - d.scale) as nat) >= 1,
    ;
}

/// Law: normal form is canonical — two normalized valid decimals denoting
/// the same value are identical. Together with the named wrapper results
/// this makes the evaluator a pure function of its operand values.
pub proof fn lemma_normal_form_unique(a: Dec, b: Dec)
    requires
        a.valid(),
        b.valid(),
        a.is_normal(),
        b.is_normal(),
        a.scaled() == b.scaled(),
    ensures
        a == b,
{
    lemma_scaled_sign(a);
    lemma_scaled_sign(b);
    if a.mant == 0 {
    } else {
        let (hi, lo) = if a.scale >= b.scale {
            (a, b)
        } else {
            (b, a)
        };
        lemma_eq_via_alignment(hi, lo);
        let k = (hi.scale - lo.scale) as nat;
        lemma_pow10_pos(k);
        if hi.scale > lo.scale {
            assert(pow10(k) == 10 * pow10((k - 1) as nat));
            assert(hi.mant == (lo.mant * pow10((k - 1) as nat)) * 10) by (nonlinear_arith)
                requires
                    hi.mant == lo.mant * pow10(k),
                    pow10(k) == 10 * pow10((k - 1) as nat),
            ;
            assert(hi.mant % 10 == 0) by (nonlinear_arith)
                requires
                    hi.mant == (lo.mant * pow10((k - 1) as nat)) * 10,
            ;
        } else {
            assert(hi.mant == lo.mant * 1) by (nonlinear_arith)
                requires
                    hi.mant == lo.mant * pow10(0),
                    pow10(0) == 1,
            ;
        }
    }
}

/// The integer part of the magnitude is determined by the scaled value, so
/// value-preserving transformations keep it.
pub proof fn lemma_trunc_abs_from_scaled(d: Dec)
    requires
        d.valid(),
    ensures
        d.trunc_abs() == iabs(d.scaled()) / (pow10(SCALE_LIMIT as nat) as int),
{
    let a = pow10((SCALE_LIMIT - d.scale) as nat) as int;
    let b = pow10(d.scale as nat) as int;
    lemma_pow10_pos((SCALE_LIMIT - d.scale) as nat);
    lemma_pow10_pos(d.scale as nat);
    lemma_pow10_adds((SCALE_LIMIT - d.scale) as nat, d.scale as nat);
    assert(iabs(d.scaled()) == d.mant * a);
    lemma_div_denominator(d.mant * a, a, b);
    lemma_div_by_multiple(d.mant as int, a);
    assert(d.mant * a == (d.mant as int) * a);
    assert(iabs(d.scaled()) / (a * b) == (d.mant as int) / b);
}

/// The scaled value is zero, positive, or negative exactly as the parts say.
pub proof fn lemma_scaled_sign(d: Dec)
    requires
        d.valid(),
    ensures
        d.mant == 0 ==> d.scaled() == 0,
        d.mant > 0 && !d.neg ==> d.scaled() > 0,
        d.mant > 0 && d.neg ==> d.scaled() < 0,
{
    lemma_pow10_pos((SCALE_LIMIT - d.scale) as nat);
    if d.mant == 0 {
        assert(d.mant * pow10((SCALE_LIMIT - d.scale) as nat) == 0) by (nonlinear_arith)
            requires
                d.mant == 0,
        ;
    } else {
        assert(d.mant * pow10((SCALE_LIMIT - d.scale) as nat) > 0) by (nonlinear_arith)
            requires
                d.mant > 0,
                pow10((SCALE_LIMIT - d.scale) as nat) >= 1,
        ;
    }
}

/// With equal signs and a common scale, value equality is mantissa equality:
/// `hi.scaled() == lo.scaled()` exactly when `hi.mant == lo.mant * 10^(hi.scale - lo.scale)`.
proof fn lemma_eq_via_alignment(hi: Dec, lo: Dec)
    requires
        hi.valid(),
        lo.valid(),
        hi.scale >= lo.scale,
        hi.neg == lo.neg,
    ensures
        (hi.scaled() == lo.scaled()) == (hi.mant == lo.mant * pow10(
            (hi.scale - lo.scale) as nat,
        )),
{
    let d = (hi.scale - lo.scale) as nat;
    let e = (SCALE_LIMIT - hi.scale) as nat;
    lemma_pow10_adds(d, e);
    lemma_pow10_pos(e);
    assert((SCALE_LIMIT - lo.scale) as nat == d + e);
    assert(lo.mant * pow10(d + e) == (lo.mant * pow10(d)) * pow10(e)) by (nonlinear_arith)
        requires
            pow10(d + e) == pow10(d) * pow10(e),
    ;
    // Cancellation of the common positive factor 10^e.
    assert((hi.mant * pow10(e) == (lo.mant * pow10(d)) * pow10(e)) == (hi.mant == lo.mant * pow10(
        d,
    ))) by (nonlinear_arith)
        requires
            pow10(e) >= 1,
    ;
}

} // verus!
