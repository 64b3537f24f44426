//! Dec numbers for booking, held as a mantissa and a scale, with the
//! arithmetic itself done by `rust_decimal`.
use vstd::prelude::*;

verus! {

/// The largest scale (number of digits after the point) that a decimal can have.
pub const MAX_SCALE: u32 = 28;

/// The largest magnitude of a mantissa (96 bits).
pub const MAX_MANTISSA: i128 = 79_228_162_514_264_337_593_543_950_335;

/// Ten to the power `n`.
pub open spec fn pow10(n: nat) -> int
    decreases n,
{
    if n == 0 {
        1
    } else {
        10 * pow10((n - 1) as nat)
    }
}

pub proof fn lemma_pow10_positive(n: nat)
    ensures
        pow10(n) >= 1,
    decreases n,
{
    if n > 0 {
        lemma_pow10_positive((n - 1) as nat);
    }
}

pub proof fn lemma_pow10_add(a: nat, b: nat)
    ensures
        pow10(a + b) == pow10(a) * pow10(b),
    decreases a,
{
    if a > 0 {
        lemma_pow10_add((a - 1) as nat, b);
        let x = pow10((a - 1) as nat);
        let y = pow10(b);
        assert(pow10(a + b) == 10 * pow10((a - 1 + b) as nat));
        assert(pow10(a) == 10 * x);
        assert((10 * x) * y == 10 * (x * y)) by (nonlinear_arith);
    }
}

/// Positive or negative, with zero being neither.
#[derive(PartialEq, Eq, Clone, Copy, Debug, Structural)]
pub enum Sign {
    Positive,
    Negative,
}

impl Sign {
    /// The name of the sign.
    pub fn name(&self) -> (r: String)
        ensures
            r@ == (match *self {
                Sign::Positive => "Positive"@,
                Sign::Negative => "Negative"@,
            }),
    {
        match self {
            Sign::Positive => String::from_str("Positive"),
            Sign::Negative => String::from_str("Negative"),
        }
    }
}

/// A decimal number `mantissa * 10^-scale`, with a mantissa of at most 96 bits
/// and a scale of at most 28, as `rust_decimal` holds it.
///
/// Equal values may have different scales (`1.0` and `1.00`); the scale is kept
/// because booking uses it to infer tolerances and precisions.
#[derive(Clone, Copy, Debug)]
pub struct Dec {
    mantissa: i128,
    scale: u32,
}

impl Dec {
    #[verifier::type_invariant]
    spec fn well_formed(self) -> bool {
        &&& -MAX_MANTISSA <= self.mantissa <= MAX_MANTISSA
        &&& self.scale <= MAX_SCALE
    }

    /// The mantissa of the number.
    pub closed spec fn m(self) -> int {
        self.mantissa as int
    }

    /// The scale of the number.
    pub closed spec fn s(self) -> nat {
        self.scale as nat
    }

    /// The number scaled up to the largest scale: two decimals are equal, or
    /// ordered, exactly as their values are.
    pub open spec fn value(self) -> int {
        self.m() * pow10((MAX_SCALE - self.s()) as nat)
    }

    /// Decimals with the same mantissa and scale are the same value.
    pub broadcast proof fn lemma_ext(a: Dec, b: Dec)
        requires
            #[trigger] a.m() == #[trigger] b.m(),
            a.s() == b.s(),
        ensures
            a == b,
    {
    }

    /// The decimal of a mantissa and scale within the limits.
    pub closed spec fn of_parts(m: int, s: nat) -> Dec {
        Dec { mantissa: m as i128, scale: s as u32 }
    }

    pub broadcast proof fn lemma_of_parts(m: int, s: nat)
        requires
            -MAX_MANTISSA <= m <= MAX_MANTISSA,
            s <= MAX_SCALE,
        ensures
            #[trigger] Dec::of_parts(m, s).m() == m,
            Dec::of_parts(m, s).s() == s,
    {
    }

    /// A decimal from its mantissa and scale.
    pub fn from_parts(mantissa: i128, scale: u32) -> (r: Dec)
        requires
            -MAX_MANTISSA <= mantissa <= MAX_MANTISSA,
            scale <= MAX_SCALE,
        ensures
            r.m() == mantissa,
            r.s() == scale,
    {
        Dec { mantissa, scale }
    }

    /// The mantissa.
    pub fn mantissa(&self) -> (r: i128)
        ensures
            r == self.m(),
            -MAX_MANTISSA <= r <= MAX_MANTISSA,
    {
        proof {
            use_type_invariant(self);
        }
        self.mantissa
    }

    /// The scale.
    pub fn scale_of(&self) -> (r: u32)
        ensures
            r == self.s(),
            r <= MAX_SCALE,
    {
        proof {
            use_type_invariant(self);
        }
        self.scale
    }

    /// Whether the number is zero.
    pub fn is_zero(&self) -> (r: bool)
        ensures
            r == (self.m() == 0),
            r == (self.value() == 0),
    {
        proof {
            lemma_value_sign(*self);
        }
        self.mantissa == 0
    }

    /// The number negated, at the same scale.
    pub fn neg(&self) -> (r: Dec)
        ensures
            r.m() == -self.m(),
            r.s() == self.s(),
            r == dec_neg(*self),
            r.value() == -self.value(),
    {
        proof {
            let p = pow10((MAX_SCALE - self.s()) as nat);
            assert((-self.m()) * p == -(self.m() * p)) by (nonlinear_arith);
        }
        proof {
            use_type_invariant(self);
        }
        rd_neg(self)
    }

    /// The number as `rust_decimal` displays it.
    pub fn to_text(&self) -> (r: String)
        ensures
            r@ == decimal_text(*self),
    {
        proof {
            use_type_invariant(self);
        }
        rd_text(self)
    }

    /// Numeric equality, across scales.
    pub fn num_eq(&self, other: &Dec) -> (r: bool)
        ensures
            r == (self.value() == other.value()),
    {
        proof {
            use_type_invariant(self);
            use_type_invariant(other);
        }
        rd_eq(self, other)
    }

    /// Numeric less-than, across scales.
    pub fn num_lt(&self, other: &Dec) -> (r: bool)
        ensures
            r == (self.value() < other.value()),
    {
        proof {
            use_type_invariant(self);
            use_type_invariant(other);
        }
        rd_lt(self, other)
    }

    /// Numeric less-or-equal, across scales.
    pub fn num_le(&self, other: &Dec) -> (r: bool)
        ensures
            r == (self.value() <= other.value()),
    {
        !other.num_lt(self)
    }

    /// Sum, `None` where `rust_decimal` overflows.
    pub fn checked_add(&self, other: &Dec) -> (r: Option<Dec>)
        ensures
            r == decimal_checked_add(*self, *other),
            add_is_exact(*self, *other) ==> (r is Some && r.unwrap().value() == self.value()
                + other.value()),
            add_is_exact(*self, *other) ==> r == Some(exact_sum(*self, *other)),
    {
        proof {
            use_type_invariant(self);
            use_type_invariant(other);
        }
        rd_checked_add(self, other)
    }

    /// Difference, `None` where `rust_decimal` overflows.
    pub fn checked_sub(&self, other: &Dec) -> (r: Option<Dec>)
        ensures
            r == decimal_checked_sub(*self, *other),
            sub_is_exact(*self, *other) ==> (r is Some && r.unwrap().value() == self.value()
                - other.value()),
            sub_is_exact(*self, *other) ==> r == Some(exact_difference(*self, *other)),
    {
        proof {
            use_type_invariant(self);
            use_type_invariant(other);
        }
        rd_checked_sub(self, other)
    }

    /// Product, `None` where `rust_decimal` overflows.
    pub fn checked_mul(&self, other: &Dec) -> (r: Option<Dec>)
        ensures
            r == decimal_checked_mul(*self, *other),
            mul_is_exact(*self, *other) ==> (r is Some && r.unwrap().m() * pow10(r.unwrap().s()) == self.m()
                * other.m() * pow10(self.s() + other.s())),
            mul_is_exact(*self, *other) ==> (r is Some && if self.m() * other.m() == 0 {
                r.unwrap().m() == 0 && r.unwrap().s() == 0
            } else {
                r.unwrap().m() == self.m() * other.m() && r.unwrap().s() == self.s() + other.s()
            }),
    {
        proof {
            use_type_invariant(self);
            use_type_invariant(other);
        }
        rd_checked_mul(self, other)
    }
}

/// Both operands, brought to the larger of their scales, and their exact sum
/// all fit in 96 bits: `rust_decimal` then adds without rounding.
pub open spec fn add_is_exact(a: Dec, b: Dec) -> bool {
    let s = if a.s() >= b.s() { a.s() } else { b.s() };
    let am = a.m() * pow10((s - a.s()) as nat);
    let bm = b.m() * pow10((s - b.s()) as nat);
    &&& -MAX_MANTISSA <= am <= MAX_MANTISSA
    &&& -MAX_MANTISSA <= bm <= MAX_MANTISSA
    &&& -MAX_MANTISSA <= am + bm <= MAX_MANTISSA
}

/// As [add_is_exact], for the difference.
pub open spec fn sub_is_exact(a: Dec, b: Dec) -> bool {
    let s = if a.s() >= b.s() { a.s() } else { b.s() };
    let am = a.m() * pow10((s - a.s()) as nat);
    let bm = b.m() * pow10((s - b.s()) as nat);
    &&& -MAX_MANTISSA <= am <= MAX_MANTISSA
    &&& -MAX_MANTISSA <= bm <= MAX_MANTISSA
    &&& -MAX_MANTISSA <= am - bm <= MAX_MANTISSA
}

/// The exact product fits in 96 bits at a scale of at most 28: `rust_decimal`
/// then multiplies without rounding.
pub open spec fn mul_is_exact(a: Dec, b: Dec) -> bool {
    &&& a.s() + b.s() <= MAX_SCALE
    &&& -MAX_MANTISSA <= a.m() * b.m() <= MAX_MANTISSA
}

/// The exact sum as `rust_decimal` gives it: the other operand where one is
/// zero, else the sum of the mantissas brought to the larger scale, at that
/// scale.
pub open spec fn exact_sum(a: Dec, b: Dec) -> Dec {
    let s = if a.s() >= b.s() { a.s() } else { b.s() };
    if a.m() == 0 {
        b
    } else if b.m() == 0 {
        a
    } else {
        Dec::of_parts(a.m() * pow10((s - a.s()) as nat) + b.m() * pow10((s - b.s()) as nat), s)
    }
}

/// The exact difference as `rust_decimal` gives it: the second operand
/// negated where the first is zero, the first where the second is, else the
/// difference of the mantissas brought to the larger scale, at that scale.
pub open spec fn exact_difference(a: Dec, b: Dec) -> Dec {
    let s = if a.s() >= b.s() { a.s() } else { b.s() };
    if a.m() == 0 {
        dec_neg(b)
    } else if b.m() == 0 {
        a
    } else {
        Dec::of_parts(a.m() * pow10((s - a.s()) as nat) - b.m() * pow10((s - b.s()) as nat), s)
    }
}

/// What `rust_decimal`'s `checked_add` returns.
pub uninterp spec fn decimal_checked_add(a: Dec, b: Dec) -> Option<Dec>;

/// What `rust_decimal`'s `checked_sub` returns.
pub uninterp spec fn decimal_checked_sub(a: Dec, b: Dec) -> Option<Dec>;

/// What `rust_decimal`'s `checked_mul` returns.
pub uninterp spec fn decimal_checked_mul(a: Dec, b: Dec) -> Option<Dec>;

/// What `rust_decimal`'s `checked_div` returns.
pub uninterp spec fn decimal_checked_div(a: Dec, b: Dec) -> Option<Dec>;

/// What `rust_decimal`'s `rescale` leaves, given the scale asked for.
pub uninterp spec fn decimal_rescaled(a: Dec, scale: u32) -> Dec;

/// The decimal digits of `n`, most significant first; none for zero.
pub open spec fn digits_of(n: nat) -> Seq<char>
    decreases n,
{
    if n == 0 {
        Seq::empty()
    } else {
        digits_of(n / 10).push(((48 + n % 10) as char))
    }
}

/// What `rust_decimal`'s `Display` writes for a number: a minus sign if it
/// is negative, then the digits of its mantissa's magnitude, zero-padded on
/// the left to at least the scale, with a point before the last `scale` of
/// them (and a zero before the point where nothing else is); zero itself
/// at scale zero is `0`.
pub open spec fn decimal_text(a: Dec) -> Seq<char> {
    let magnitude = if a.m() < 0 {
        -a.m()
    } else {
        a.m()
    };
    let ds = digits_of(magnitude as nat);
    let padded = if ds.len() < a.s() {
        Seq::new((a.s() - ds.len()) as nat, |i: int| '0') + ds
    } else {
        ds
    };
    let whole = padded.take(padded.len() - a.s());
    let fraction = padded.skip(padded.len() - a.s());
    let body = if a.s() == 0 {
        if ds.len() == 0 {
            seq!['0']
        } else {
            ds
        }
    } else {
        (if whole.len() == 0 {
            seq!['0']
        } else {
            whole
        }) + seq!['.'] + fraction
    };
    (if a.m() < 0 {
        seq!['-']
    } else {
        Seq::empty()
    }) + body
}

/// `rust_decimal`'s decimal type, which the wrappers below pass between calls.
#[verifier::external_type_specification]
#[verifier::external_body]
pub struct ExRustDecimal(rust_decimal::Decimal);

/// Calls `rust_decimal::Decimal::from_i128_with_scale`, which builds the number
/// from the mantissa and scale as they are, since both are within its limits.
#[verifier::external_body]
fn to_rd(d: &Dec) -> (r: rust_decimal::Decimal)
    requires
        -MAX_MANTISSA <= d.m() <= MAX_MANTISSA,
        d.s() <= MAX_SCALE,
{
    rust_decimal::Decimal::from_i128_with_scale(d.mantissa, d.scale)
}

/// Calls `rust_decimal::Decimal::neg`, which flips the sign and keeps mantissa
/// magnitude and scale (a zero stays zero).
#[verifier::external_body]
fn rd_neg(a: &Dec) -> (r: Dec)
    requires
        -MAX_MANTISSA <= a.m() <= MAX_MANTISSA,
        a.s() <= MAX_SCALE,
    ensures
        r.m() == -a.m(),
        r.s() == a.s(),
{
    let x = -to_rd(a);
    Dec { mantissa: x.mantissa(), scale: x.scale() }
}

/// Calls `rust_decimal`'s `==`, which compares the numbers' values whatever
/// their scales.
#[verifier::external_body]
fn rd_eq(a: &Dec, b: &Dec) -> (r: bool)
    requires
        -MAX_MANTISSA <= a.m() <= MAX_MANTISSA,
        a.s() <= MAX_SCALE,
        -MAX_MANTISSA <= b.m() <= MAX_MANTISSA,
        b.s() <= MAX_SCALE,
    ensures
        r == (a.value() == b.value()),
{
    to_rd(a) == to_rd(b)
}

/// Calls `rust_decimal`'s `<`, which compares the numbers' values whatever
/// their scales.
#[verifier::external_body]
fn rd_lt(a: &Dec, b: &Dec) -> (r: bool)
    requires
        -MAX_MANTISSA <= a.m() <= MAX_MANTISSA,
        a.s() <= MAX_SCALE,
        -MAX_MANTISSA <= b.m() <= MAX_MANTISSA,
        b.s() <= MAX_SCALE,
    ensures
        r == (a.value() < b.value()),
{
    to_rd(a) < to_rd(b)
}

/// Calls `rust_decimal::Decimal::checked_add`: `None` only on overflow; where
/// the operands and the sum fit at the larger scale, the sum is exact.
#[verifier::external_body]
fn rd_checked_add(a: &Dec, b: &Dec) -> (r: Option<Dec>)
    requires
        -MAX_MANTISSA <= a.m() <= MAX_MANTISSA,
        a.s() <= MAX_SCALE,
        -MAX_MANTISSA <= b.m() <= MAX_MANTISSA,
        b.s() <= MAX_SCALE,
    ensures
        r == decimal_checked_add(*a, *b),
        add_is_exact(*a, *b) ==> (r is Some && r.unwrap().value() == a.value() + b.value()),
        add_is_exact(*a, *b) ==> r == Some(exact_sum(*a, *b)),
{
    match to_rd(a).checked_add(to_rd(b)) {
        Some(x) => Some(Dec { mantissa: x.mantissa(), scale: x.scale() }),
        None => None,
    }
}

/// Calls `rust_decimal::Decimal::checked_sub`: `None` only on overflow; where
/// the operands and the difference fit at the larger scale, it is exact.
#[verifier::external_body]
fn rd_checked_sub(a: &Dec, b: &Dec) -> (r: Option<Dec>)
    requires
        -MAX_MANTISSA <= a.m() <= MAX_MANTISSA,
        a.s() <= MAX_SCALE,
        -MAX_MANTISSA <= b.m() <= MAX_MANTISSA,
        b.s() <= MAX_SCALE,
    ensures
        r == decimal_checked_sub(*a, *b),
        sub_is_exact(*a, *b) ==> (r is Some && r.unwrap().value() == a.value() - b.value()),
        sub_is_exact(*a, *b) ==> r == Some(exact_difference(*a, *b)),
{
    match to_rd(a).checked_sub(to_rd(b)) {
        Some(x) => Some(Dec { mantissa: x.mantissa(), scale: x.scale() }),
        None => None,
    }
}

/// Calls `rust_decimal::Decimal::checked_mul`: `None` only on overflow; where
/// the exact product fits in 96 bits at a scale of at most 28, it is that
/// product at the sum of the scales (zero, at scale zero, for a zero product).
#[verifier::external_body]
fn rd_checked_mul(a: &Dec, b: &Dec) -> (r: Option<Dec>)
    requires
        -MAX_MANTISSA <= a.m() <= MAX_MANTISSA,
        a.s() <= MAX_SCALE,
        -MAX_MANTISSA <= b.m() <= MAX_MANTISSA,
        b.s() <= MAX_SCALE,
    ensures
        r == decimal_checked_mul(*a, *b),
        mul_is_exact(*a, *b) ==> (r is Some && r.unwrap().m() * pow10(r.unwrap().s()) == a.m() * b.m()
            * pow10(a.s() + b.s())),
        mul_is_exact(*a, *b) ==> (r is Some && if a.m() * b.m() == 0 {
            r.unwrap().m() == 0 && r.unwrap().s() == 0
        } else {
            r.unwrap().m() == a.m() * b.m() && r.unwrap().s() == a.s() + b.s()
        }),
{
    match to_rd(a).checked_mul(to_rd(b)) {
        Some(x) => Some(Dec { mantissa: x.mantissa(), scale: x.scale() }),
        None => None,
    }
}

/// Calls `rust_decimal::Decimal::checked_div`: `None` when dividing by zero
/// (or on overflow); the quotient itself, rounded to 28 significant digits,
/// is left to the name [decimal_checked_div].
#[verifier::external_body]
fn rd_checked_div(a: &Dec, b: &Dec) -> (r: Option<Dec>)
    requires
        -MAX_MANTISSA <= a.m() <= MAX_MANTISSA,
        a.s() <= MAX_SCALE,
        -MAX_MANTISSA <= b.m() <= MAX_MANTISSA,
        b.s() <= MAX_SCALE,
    ensures
        r == decimal_checked_div(*a, *b),
        b.m() == 0 ==> r is None,
{
    match to_rd(a).checked_div(to_rd(b)) {
        Some(x) => Some(Dec { mantissa: x.mantissa(), scale: x.scale() }),
        None => None,
    }
}

/// Calls `rust_decimal::Decimal::rescale`, which rounds (midpoints away from zero) or pads
/// the number to the asked scale, or to the nearest scale it can hold; the
/// result is left to the name [decimal_rescaled].
#[verifier::external_body]
fn rd_rescaled(a: &Dec, scale: u32) -> (r: Dec)
    requires
        -MAX_MANTISSA <= a.m() <= MAX_MANTISSA,
        a.s() <= MAX_SCALE,
    ensures
        r == decimal_rescaled(*a, scale),
{
    let mut x = to_rd(a);
    x.rescale(scale);
    Dec { mantissa: x.mantissa(), scale: x.scale() }
}

/// Formats the number with `rust_decimal`'s `Display` (see [decimal_text]).
#[verifier::external_body]
fn rd_text(a: &Dec) -> (r: String)
    requires
        -MAX_MANTISSA <= a.m() <= MAX_MANTISSA,
        a.s() <= MAX_SCALE,
    ensures
        r@ == decimal_text(*a),
{
    format!("{}", to_rd(a))
}

/// Takes a `rust_decimal` number apart, by `rust_decimal::Decimal::mantissa`
/// and `scale`, into the library's number; every `rust_decimal` number fits.
#[verifier::external_body]
pub(crate) fn from_rust_decimal(d: rust_decimal::Decimal) -> Dec {
    Dec { mantissa: d.mantissa(), scale: d.scale() }
}

/// Calls `rust_decimal::Decimal::new`, which builds `m * 10^-scale` from an
/// `i64` mantissa.
#[verifier::external_body]
fn rd_new(m: i64, scale: u32) -> (r: Dec)
    requires
        scale <= MAX_SCALE,
    ensures
        r.m() == m,
        r.s() == scale,
{
    let x = rust_decimal::Decimal::new(m, scale);
    Dec { mantissa: x.mantissa(), scale: x.scale() }
}

/// The properties required for a decimal type to be usable for booking.
pub trait Number: Sized {
    fn abs(&self) -> Self;

    /// Zero is neither positive nor negative.
    fn sign(&self) -> Option<Sign>;

    fn zero() -> Self;

    fn new(m: i64, scale: u32) -> Self
        requires
            scale <= MAX_SCALE,
    ;

    fn checked_div(self, other: Self) -> Option<Self>;

    /// The scale of the decimal number, otherwise known as e.
    fn scale(&self) -> u32;

    /// A new number with the given scale, rounding as required.
    fn rescaled(self, scale: u32) -> Self;
}

impl Number for Dec {
    fn abs(&self) -> (r: Dec)
        ensures
            r.m() == (if self.m() < 0 { -self.m() } else { self.m() }),
            r.s() == self.s(),
            r.value() == abs_value(*self),
            r == dec_abs(*self),
    {
        proof {
            use_type_invariant(self);
        }
        proof {
            let p = pow10((MAX_SCALE - self.s()) as nat);
            lemma_pow10_positive((MAX_SCALE - self.s()) as nat);
            assert((-self.m()) * p == -(self.m() * p)) by (nonlinear_arith);
            assert(self.m() < 0 ==> self.m() * p < 0) by (nonlinear_arith)
                requires p >= 1;
            assert(self.m() >= 0 ==> self.m() * p >= 0) by (nonlinear_arith)
                requires p >= 1;
        }
        if self.mantissa < 0 {
            self.neg()
        } else {
            *self
        }
    }

    fn sign(&self) -> (r: Option<Sign>)
        ensures
            r == sign_of(*self),
    {
        if self.is_zero() {
            None
        } else if self.mantissa < 0 {
            Some(Sign::Negative)
        } else {
            Some(Sign::Positive)
        }
    }

    fn zero() -> (r: Dec)
        ensures
            r.m() == 0,
            r.s() == 0,
            r == Dec::of_parts(0, 0),
    {
        Dec { mantissa: 0, scale: 0 }
    }

    fn new(m: i64, scale: u32) -> (r: Dec)
        ensures
            r.m() == m,
            r.s() == scale,
            r == Dec::of_parts(m as int, scale as nat),
    {
        let r = rd_new(m, scale);
        proof {
            use_type_invariant(&r);
        }
        r
    }

    fn checked_div(self, other: Dec) -> (r: Option<Dec>)
        ensures
            r == decimal_checked_div(self, other),
            other.m() == 0 ==> r is None,
    {
        proof {
            use_type_invariant(&self);
            use_type_invariant(&other);
        }
        rd_checked_div(&self, &other)
    }

    fn scale(&self) -> (r: u32)
        ensures
            r == self.s(),
            r <= MAX_SCALE,
    {
        self.scale_of()
    }

    fn rescaled(self, scale: u32) -> (r: Dec)
        ensures
            r == decimal_rescaled(self, scale),
    {
        proof {
            use_type_invariant(&self);
        }
        rd_rescaled(&self, scale)
    }
}

/// A value has the sign of its mantissa.
pub proof fn lemma_value_sign(d: Dec)
    ensures
        d.m() == 0 <==> d.value() == 0,
        d.m() < 0 <==> d.value() < 0,
        d.m() > 0 <==> d.value() > 0,
{
    let p = pow10((MAX_SCALE - d.s()) as nat);
    lemma_pow10_positive((MAX_SCALE - d.s()) as nat);
    assert(d.m() < 0 ==> d.m() * p < 0) by (nonlinear_arith)
        requires
            p >= 1,
    ;
    assert(d.m() > 0 ==> d.m() * p > 0) by (nonlinear_arith)
        requires
            p >= 1,
    ;
    assert(d.m() == 0 ==> d.m() * p == 0) by (nonlinear_arith);
}

/// The sign of a number, `None` for zero.
pub open spec fn sign_of(d: Dec) -> Option<Sign> {
    if d.m() == 0 {
        None
    } else if d.m() < 0 {
        Some(Sign::Negative)
    } else {
        Some(Sign::Positive)
    }
}

/// The number without its sign, at the same scale.
pub open spec fn dec_abs(d: Dec) -> Dec {
    Dec::of_parts(if d.m() < 0 { -d.m() } else { d.m() }, d.s())
}

/// The number negated, at the same scale.
pub open spec fn dec_neg(d: Dec) -> Dec {
    Dec::of_parts(-d.m(), d.s())
}

/// The magnitude of a number's value.
pub open spec fn abs_value(d: Dec) -> int {
    if d.value() < 0 {
        -d.value()
    } else {
        d.value()
    }
}

} // verus!
