//! Fixed-point decimal numbers as `rust_decimal` represents them: a signed
//! mantissa of at most 96 bits and a scale between 0 and 28.  Every
//! arithmetic step is carried out by `rust_decimal` itself; this module holds
//! the plain-value form of such a number and the contracts of the calls.

use rust_decimal::Decimal;
use vstd::prelude::*;

verus! {

/// Largest magnitude of a `rust_decimal` mantissa: 2^96 - 1.
pub const MAX_MANTISSA: i128 = 79228162514264337593543950335i128;

/// Largest scale (number of decimal places) of a `rust_decimal` value.
pub const MAX_SCALE: u32 = 28u32;

/// Powers of ten.
pub open spec fn pow10(n: nat) -> int
    decreases n,
{
    if n == 0 {
        1
    } else {
        10 * pow10((n - 1) as nat)
    }
}

/// A decimal value given as `(mantissa, scale)`; it stands for
/// `mantissa / 10^scale`.
pub open spec fn dec_wf(d: (int, int)) -> bool {
    -(MAX_MANTISSA as int) <= d.0 <= MAX_MANTISSA as int && 0 <= d.1 <= MAX_SCALE as int
}

/// `a < b` as numbers.
pub open spec fn dec_lt_spec(a: (int, int), b: (int, int)) -> bool {
    a.0 * pow10(b.1 as nat) < b.0 * pow10(a.1 as nat)
}

/// `a <= b` as numbers.
pub open spec fn dec_le_spec(a: (int, int), b: (int, int)) -> bool {
    a.0 * pow10(b.1 as nat) <= b.0 * pow10(a.1 as nat)
}

/// `a == b` as numbers (whatever their scales).
pub open spec fn dec_eq_spec(a: (int, int), b: (int, int)) -> bool {
    a.0 * pow10(b.1 as nat) == b.0 * pow10(a.1 as nat)
}

/// The larger of two scales.
pub open spec fn max_scale_of(a: (int, int), b: (int, int)) -> int {
    if a.1 >= b.1 {
        a.1
    } else {
        b.1
    }
}

/// The exact sum `a + b`, written at the larger of the two scales.
pub open spec fn exact_sum(a: (int, int), b: (int, int)) -> (int, int) {
    let s = max_scale_of(a, b);
    (a.0 * pow10((s - a.1) as nat) + b.0 * pow10((s - b.1) as nat), s)
}

/// The exact difference `a - b`, written at the larger of the two scales.
pub open spec fn exact_difference(a: (int, int), b: (int, int)) -> (int, int) {
    exact_sum(a, (-b.0, b.1))
}

/// A value whose mantissa fits in 96 bits at its scale.
pub open spec fn fits(d: (int, int)) -> bool {
    -(MAX_MANTISSA as int) <= d.0 <= MAX_MANTISSA as int
}

/// The value of `Decimal::checked_add` on `a` and `b` (`None` on overflow).
pub uninterp spec fn dec_checked_add_result(a: (int, int), b: (int, int)) -> Option<(int, int)>;

/// The value of `Decimal::checked_sub` on `a` and `b` (`None` on overflow).
pub uninterp spec fn dec_checked_sub_result(a: (int, int), b: (int, int)) -> Option<(int, int)>;

/// The value of `Decimal::checked_mul` on `a` and `b` (`None` on overflow).
pub uninterp spec fn dec_checked_mul_result(a: (int, int), b: (int, int)) -> Option<(int, int)>;

/// The value of `Decimal::checked_div` on `a` and `b` (`None` on overflow or
/// division by zero).
pub uninterp spec fn dec_checked_div_result(a: (int, int), b: (int, int)) -> Option<(int, int)>;

/// The value of `Decimal::floor`.
pub uninterp spec fn dec_floor_result(a: (int, int)) -> (int, int);

/// The value that `str::parse::<Decimal>` gives for a text (`None` when it is
/// refused).
pub uninterp spec fn dec_parse_result(s: Seq<char>) -> Option<(int, int)>;

/// The text that `Decimal`'s `Display` writes with `prec` decimal places.
pub uninterp spec fn dec_fmt_result(d: (int, int), prec: int) -> Seq<char>;

/// Whether `a + b` does not overflow.
pub open spec fn add_ok(a: (int, int), b: (int, int)) -> bool {
    dec_checked_add_result(a, b) is Some
}

/// `a + b` as `rust_decimal` computes it.
pub open spec fn add_of(a: (int, int), b: (int, int)) -> (int, int) {
    dec_checked_add_result(a, b).unwrap()
}

/// Whether `a - b` does not overflow.
pub open spec fn sub_ok(a: (int, int), b: (int, int)) -> bool {
    dec_checked_sub_result(a, b) is Some
}

/// `a - b` as `rust_decimal` computes it.
pub open spec fn sub_of(a: (int, int), b: (int, int)) -> (int, int) {
    dec_checked_sub_result(a, b).unwrap()
}

/// Whether `a * b` does not overflow.
pub open spec fn mul_ok(a: (int, int), b: (int, int)) -> bool {
    dec_checked_mul_result(a, b) is Some
}

/// `a * b` as `rust_decimal` computes it.
pub open spec fn mul_of(a: (int, int), b: (int, int)) -> (int, int) {
    dec_checked_mul_result(a, b).unwrap()
}

/// Whether `a / b` neither overflows nor divides by zero.
pub open spec fn div_ok(a: (int, int), b: (int, int)) -> bool {
    dec_checked_div_result(a, b) is Some
}

/// `a / b` as `rust_decimal` computes it.
pub open spec fn div_of(a: (int, int), b: (int, int)) -> (int, int) {
    dec_checked_div_result(a, b).unwrap()
}

/// `|a|`: the same scale, the mantissa without its sign.
pub open spec fn abs_of(a: (int, int)) -> (int, int) {
    (if a.0 < 0 {
        -a.0
    } else {
        a.0
    }, a.1)
}

/// The number zero.
pub open spec fn zero_v() -> (int, int) {
    (0, 0)
}

/// The number one.
pub open spec fn one_v() -> (int, int) {
    (1, 0)
}

/// The smaller of two values, the first one when they are equal
/// (`Ord::min`).
pub open spec fn min_of(a: (int, int), b: (int, int)) -> (int, int) {
    if dec_le_spec(a, b) {
        a
    } else {
        b
    }
}

/// The larger of two values, the second one when they are equal
/// (`Ord::max`).
pub open spec fn max_of(a: (int, int), b: (int, int)) -> (int, int) {
    if dec_lt_spec(b, a) {
        a
    } else {
        b
    }
}

/// A decimal number: `mantissa / 10^scale`.
#[derive(Clone, Copy, Debug)]
pub struct Dec {
    pub(crate) mantissa: i128,
    pub(crate) scale: u32,
}

impl View for Dec {
    type V = (int, int);

    closed spec fn view(&self) -> (int, int) {
        (self.mantissa as int, self.scale as int)
    }
}

pub open spec fn opt_dec_view(o: Option<Dec>) -> Option<(int, int)> {
    match o {
        Some(d) => Some(d@),
        None => None,
    }
}

impl Dec {
    /// Every decimal is one that `rust_decimal` can hold.
    #[verifier::type_invariant]
    pub open spec fn inv(self) -> bool {
        dec_wf(self@)
    }

    /// The number zero.
    pub fn zero() -> (r: Dec)
        ensures
            r@ == zero_v(),
    {
        Dec { mantissa: 0, scale: 0 }
    }

    /// The number one.
    pub fn one() -> (r: Dec)
        ensures
            r@ == one_v(),
    {
        Dec { mantissa: 1, scale: 0 }
    }

    /// The largest value, `Decimal::MAX`.
    pub fn max_value() -> (r: Dec)
        ensures
            r@ == (MAX_MANTISSA as int, 0int),
    {
        Dec { mantissa: MAX_MANTISSA, scale: 0 }
    }

    /// `Decimal::from(n)` for an unsigned integer: the integer at scale 0.
    pub fn from_u64(n: u64) -> (r: Dec)
        ensures
            r@ == (n as int, 0int),
    {
        Dec { mantissa: n as i128, scale: 0 }
    }

    /// `Decimal::from(n)` for a signed integer: the integer at scale 0.
    pub fn from_i64(n: i64) -> (r: Dec)
        ensures
            r@ == (n as int, 0int),
    {
        Dec { mantissa: n as i128, scale: 0 }
    }

    /// Builds `mantissa / 10^scale`, or `None` where `rust_decimal` cannot
    /// hold it (`Decimal::try_from_i128_with_scale`).
    pub fn from_parts(mantissa: i128, scale: u32) -> (r: Option<Dec>)
        ensures
            dec_wf((mantissa as int, scale as int)) ==> opt_dec_view(r) == Some((mantissa as int, scale as int)),
            !dec_wf((mantissa as int, scale as int)) ==> r is None,
    {
        if scale <= MAX_SCALE && -MAX_MANTISSA <= mantissa && mantissa <= MAX_MANTISSA {
            Some(Dec { mantissa, scale })
        } else {
            None
        }
    }

    /// The mantissa.
    pub fn mantissa(&self) -> (r: i128)
        ensures
            r == self@.0,
    {
        self.mantissa
    }

    /// The scale.
    pub fn scale(&self) -> (r: u32)
        ensures
            r == self@.1,
    {
        self.scale
    }

    /// Negation (`-d`): the same scale and the opposite mantissa.
    pub fn neg(&self) -> (r: Dec)
        ensures
            r@ == (-self@.0, self@.1),
    {
        proof {
            use_type_invariant(self);
        }
        Dec { mantissa: -self.mantissa, scale: self.scale }
    }

    /// `Decimal::abs`: the same scale and the mantissa without its sign.
    pub fn abs(&self) -> (r: Dec)
        ensures
            r@ == abs_of(self@),
    {
        proof {
            use_type_invariant(self);
        }
        if self.mantissa < 0 {
            Dec { mantissa: -self.mantissa, scale: self.scale }
        } else {
            *self
        }
    }
}

/// `Decimal::checked_add`.  The result is `rust_decimal`'s; where the exact
/// sum fits in 96 bits at the larger scale there is no overflow and no
/// rounding.  Otherwise the exact sum is rounded to the nearest value that
/// fits, which is never below `a` when `b` is not negative; the digits it
/// rounds to are left to the name.
#[verifier::external_body]
pub(crate) fn checked_add(a: Dec, b: Dec) -> (r: Option<Dec>)
    ensures
        opt_dec_view(r) == dec_checked_add_result(a@, b@),
        fits(exact_sum(a@, b@)) ==> r is Some && dec_eq_spec(r.unwrap()@, exact_sum(a@, b@)),
        r is Some && dec_le_spec(zero_v(), b@) ==> dec_le_spec(a@, r.unwrap()@),
{
    let x = Decimal::from_i128_with_scale(a.mantissa, a.scale);
    let y = Decimal::from_i128_with_scale(b.mantissa, b.scale);
    match x.checked_add(y) {
        Some(d) => Some(Dec { mantissa: d.mantissa(), scale: d.scale() }),
        None => None,
    }
}

/// `Decimal::checked_sub`.  Where the exact difference fits in 96 bits at the
/// larger scale there is no overflow and no rounding; otherwise it is
/// rounded to the nearest value that fits, which is never above `a` when
/// `b` is not negative.
#[verifier::external_body]
pub(crate) fn checked_sub(a: Dec, b: Dec) -> (r: Option<Dec>)
    ensures
        opt_dec_view(r) == dec_checked_sub_result(a@, b@),
        fits(exact_difference(a@, b@)) ==> r is Some && dec_eq_spec(
            r.unwrap()@,
            exact_difference(a@, b@),
        ),
        r is Some && dec_le_spec(zero_v(), b@) ==> dec_le_spec(r.unwrap()@, a@),
{
    let x = Decimal::from_i128_with_scale(a.mantissa, a.scale);
    let y = Decimal::from_i128_with_scale(b.mantissa, b.scale);
    match x.checked_sub(y) {
        Some(d) => Some(Dec { mantissa: d.mantissa(), scale: d.scale() }),
        None => None,
    }
}

/// `Decimal::checked_mul`.  A zero factor gives zero at scale 0; where the
/// product of the mantissas fits in 96 bits and the scales add up to at most
/// 28, the product is exact, at the summed scale.
#[verifier::external_body]
pub(crate) fn checked_mul(a: Dec, b: Dec) -> (r: Option<Dec>)
    ensures
        opt_dec_view(r) == dec_checked_mul_result(a@, b@),
        a@.0 == 0 || b@.0 == 0 ==> opt_dec_view(r) == Some(zero_v()),
        a@.0 != 0 && b@.0 != 0 && a@.1 + b@.1 <= MAX_SCALE && fits((a@.0 * b@.0, a@.1 + b@.1))
            ==> opt_dec_view(r) == Some((a@.0 * b@.0, a@.1 + b@.1)),
{
    let x = Decimal::from_i128_with_scale(a.mantissa, a.scale);
    let y = Decimal::from_i128_with_scale(b.mantissa, b.scale);
    match x.checked_mul(y) {
        Some(d) => Some(Dec { mantissa: d.mantissa(), scale: d.scale() }),
        None => None,
    }
}

/// Whether `q` is exactly the quotient `a / b`.
pub open spec fn quotient_is(q: (int, int), a: (int, int), b: (int, int)) -> bool {
    q.0 * b.0 * pow10(a.1 as nat) == a.0 * pow10((b.1 + q.1) as nat)
}

/// Whether `q` lies within one unit of its last place of `a / b`:
/// `|q - a / b| <= 10^-q.1`, multiplied out.
pub open spec fn quotient_within_ulp(q: (int, int), a: (int, int), b: (int, int)) -> bool {
    let err = q.0 * b.0 * pow10(a.1 as nat) - a.0 * pow10((b.1 + q.1) as nat);
    let bound = (if b.0 < 0 {
        -b.0
    } else {
        b.0
    }) * pow10(a.1 as nat);
    -bound <= err <= bound
}

/// `Decimal::checked_div`: `None` for a zero divisor and on overflow.  Where
/// the exact quotient is a value `rust_decimal` can hold, it is returned
/// exactly; otherwise the quotient is rounded in its last place, so it lies
/// within one unit of that place of the exact quotient.  The digits are left
/// to the name.
#[verifier::external_body]
pub(crate) fn checked_div(a: Dec, b: Dec) -> (r: Option<Dec>)
    ensures
        opt_dec_view(r) == dec_checked_div_result(a@, b@),
        b@.0 == 0 ==> r is None,
        b@.0 != 0 && (exists|q: (int, int)| dec_wf(q) && quotient_is(q, a@, b@)) ==> r is Some
            && quotient_is(r.unwrap()@, a@, b@),
        r is Some ==> quotient_within_ulp(r.unwrap()@, a@, b@),
{
    let x = Decimal::from_i128_with_scale(a.mantissa, a.scale);
    let y = Decimal::from_i128_with_scale(b.mantissa, b.scale);
    match x.checked_div(y) {
        Some(d) => Some(Dec { mantissa: d.mantissa(), scale: d.scale() }),
        None => None,
    }
}

/// `Decimal::floor`: the largest integer not above the value.  A value at
/// scale 0 comes back unchanged.
#[verifier::external_body]
pub(crate) fn floor_dec(a: Dec) -> (r: Dec)
    ensures
        r@ == dec_floor_result(a@),
        dec_eq_spec(r@, (a@.0 / pow10(a@.1 as nat), 0)),
        a@.1 == 0 ==> r@ == a@,
{
    let d = Decimal::from_i128_with_scale(a.mantissa, a.scale).floor();
    Dec { mantissa: d.mantissa(), scale: d.scale() }
}

/// `a < b` through `Decimal`'s `PartialOrd`, which compares the numbers.
#[verifier::external_body]
pub(crate) fn lt_dec(a: Dec, b: Dec) -> (r: bool)
    ensures
        r == dec_lt_spec(a@, b@),
{
    Decimal::from_i128_with_scale(a.mantissa, a.scale) < Decimal::from_i128_with_scale(
        b.mantissa,
        b.scale,
    )
}

/// `a <= b` through `Decimal`'s `PartialOrd`.
#[verifier::external_body]
pub(crate) fn le_dec(a: Dec, b: Dec) -> (r: bool)
    ensures
        r == dec_le_spec(a@, b@),
{
    Decimal::from_i128_with_scale(a.mantissa, a.scale) <= Decimal::from_i128_with_scale(
        b.mantissa,
        b.scale,
    )
}

/// `a == b` through `Decimal`'s `PartialEq`, which compares the numbers.
#[verifier::external_body]
pub(crate) fn eq_dec(a: Dec, b: Dec) -> (r: bool)
    ensures
        r == dec_eq_spec(a@, b@),
{
    Decimal::from_i128_with_scale(a.mantissa, a.scale) == Decimal::from_i128_with_scale(
        b.mantissa,
        b.scale,
    )
}

/// `str::parse::<Decimal>`; which texts it takes, and the value it gives,
/// are left to the name.
#[verifier::external_body]
pub(crate) fn parse_dec(s: &str) -> (r: Option<Dec>)
    ensures
        opt_dec_view(r) == dec_parse_result(s@),
{
    match s.parse::<Decimal>() {
        Ok(d) => Some(Dec { mantissa: d.mantissa(), scale: d.scale() }),
        Err(_) => None,
    }
}

/// `Decimal`'s `Display` with `prec` decimal places (`format!("{:.prec$}")`).
#[verifier::external_body]
pub(crate) fn format_dec(d: Dec, prec: usize) -> (r: String)
    ensures
        r@ == dec_fmt_result(d@, prec as int),
{
    format!("{0:.1$}", Decimal::from_i128_with_scale(d.mantissa, d.scale), prec)
}

/// `Ord::min` on decimals: the first argument unless the second is smaller.
pub(crate) fn min_dec(a: Dec, b: Dec) -> (r: Dec)
    ensures
        r@ == min_of(a@, b@),
{
    if le_dec(a, b) {
        a
    } else {
        b
    }
}

/// `Ord::max` on decimals: the second argument unless the first is larger.
pub(crate) fn max_dec(a: Dec, b: Dec) -> (r: Dec)
    ensures
        r@ == max_of(a@, b@),
{
    if lt_dec(b, a) {
        a
    } else {
        b
    }
}

impl Dec {
    /// Parses a decimal number as `str::parse::<Decimal>` does.
    pub fn parse(s: &str) -> (r: Option<Dec>)
        ensures
            opt_dec_view(r) == dec_parse_result(s@),
    {
        parse_dec(s)
    }

    /// Whether the two numbers are equal, whatever their scales.
    pub fn num_eq(&self, other: &Dec) -> (r: bool)
        ensures
            r == dec_eq_spec(self@, other@),
    {
        eq_dec(*self, *other)
    }

    /// Whether `self < other` as numbers.
    pub fn num_lt(&self, other: &Dec) -> (r: bool)
        ensures
            r == dec_lt_spec(self@, other@),
    {
        lt_dec(*self, *other)
    }
}

impl PartialEq for Dec {
    fn eq(&self, other: &Dec) -> (r: bool) {
        eq_dec(*self, *other)
    }
}

impl vstd::std_specs::cmp::PartialEqSpecImpl for Dec {
    open spec fn obeys_eq_spec() -> bool {
        true
    }

    open spec fn eq_spec(&self, other: &Dec) -> bool {
        dec_eq_spec(self@, other@)
    }
}

/// Powers of ten are positive.
pub proof fn lemma_pow10_pos(n: nat)
    ensures
        pow10(n) >= 1,
    decreases n,
{
    if n > 0 {
        lemma_pow10_pos((n - 1) as nat);
    }
}

/// `<=` on decimal values is reflexive.
pub proof fn lemma_le_refl(a: (int, int))
    ensures
        dec_le_spec(a, a),
{
}

proof fn lemma_cross_trans(a0: int, b0: int, c0: int, pa: int, pb: int, pc: int, strict: bool)
    by (nonlinear_arith)
    requires
        pa > 0,
        pb > 0,
        pc > 0,
        a0 * pb <= b0 * pa,
        strict ==> b0 * pc < c0 * pb,
        !strict ==> b0 * pc <= c0 * pb,
    ensures
        strict ==> a0 * pc < c0 * pa,
        !strict ==> a0 * pc <= c0 * pa,
{
    assert(a0 * pb * pc <= b0 * pa * pc);
    assert(strict ==> b0 * pc * pa < c0 * pb * pa);
    assert(!strict ==> b0 * pc * pa <= c0 * pb * pa);
}

/// `<=` on decimal values is transitive, also into `<`.
pub proof fn lemma_le_trans(a: (int, int), b: (int, int), c: (int, int))
    ensures
        dec_le_spec(a, b) && dec_le_spec(b, c) ==> dec_le_spec(a, c),
        dec_le_spec(a, b) && dec_lt_spec(b, c) ==> dec_lt_spec(a, c),
        dec_lt_spec(a, b) && dec_le_spec(b, c) ==> dec_lt_spec(a, c),
{
    lemma_pow10_pos(a.1 as nat);
    lemma_pow10_pos(b.1 as nat);
    lemma_pow10_pos(c.1 as nat);
    let pa = pow10(a.1 as nat);
    let pb = pow10(b.1 as nat);
    let pc = pow10(c.1 as nat);
    if dec_le_spec(a, b) && dec_le_spec(b, c) {
        lemma_cross_trans(a.0, b.0, c.0, pa, pb, pc, false);
    }
    if dec_le_spec(a, b) && dec_lt_spec(b, c) {
        lemma_cross_trans(a.0, b.0, c.0, pa, pb, pc, true);
    }
    if dec_lt_spec(a, b) && dec_le_spec(b, c) {
        assert(a.0 * pb <= b.0 * pa);
        lemma_cross_trans(a.0, b.0, c.0, pa, pb, pc, false);
        // strictness: a0*pb < b0*pa and b0*pc <= c0*pb
        lemma_strict_left(a.0, b.0, c.0, pa, pb, pc);
    }
}

proof fn lemma_strict_left(a0: int, b0: int, c0: int, pa: int, pb: int, pc: int)
    by (nonlinear_arith)
    requires
        pa > 0,
        pb > 0,
        pc > 0,
        a0 * pb < b0 * pa,
        b0 * pc <= c0 * pb,
    ensures
        a0 * pc < c0 * pa,
{
    assert(a0 * pb * pc < b0 * pa * pc);
    assert(b0 * pc * pa <= c0 * pb * pa);
}


/// A scale `rust_decimal` can hold.
pub open spec fn scale_ok(d: (int, int)) -> bool {
    0 <= d.1 <= MAX_SCALE as int
}

/// A value written at the finer scale `s` (at least its own scale): its
/// mantissa there.
pub open spec fn value_at(d: (int, int), s: int) -> int {
    d.0 * pow10((s - d.1) as nat)
}

/// Powers of ten multiply by adding exponents.
pub proof fn lemma_pow10_add(m: nat, n: nat)
    ensures
        pow10(m + n) == pow10(m) * pow10(n),
    decreases m,
{
    if m > 0 {
        lemma_pow10_add((m - 1) as nat, n);
        assert(pow10(m + n) == 10 * pow10((m - 1 + n) as nat));
        assert(10 * (pow10((m - 1) as nat) * pow10(n)) == (10 * pow10((m - 1) as nat)) * pow10(n))
            by (nonlinear_arith);
    }
}

proof fn lemma_scale_order(x: int, y: int, k: int)
    by (nonlinear_arith)
    requires
        k > 0,
    ensures
        (x <= y) == (x * k <= y * k),
        (x < y) == (x * k < y * k),
        (x == y) == (x * k == y * k),
{
}

/// Comparisons of two values read at a common finer scale.
pub proof fn lemma_order_at(a: (int, int), b: (int, int), s: int)
    requires
        0 <= a.1 <= s,
        0 <= b.1 <= s,
    ensures
        dec_le_spec(a, b) == (value_at(a, s) <= value_at(b, s)),
        dec_lt_spec(a, b) == (value_at(a, s) < value_at(b, s)),
        dec_eq_spec(a, b) == (value_at(a, s) == value_at(b, s)),
{
    let pa = pow10(a.1 as nat);
    let pb = pow10(b.1 as nat);
    let qa = pow10((s - a.1) as nat);
    let qb = pow10((s - b.1) as nat);
    let p = pow10(s as nat);
    lemma_pow10_add((s - a.1) as nat, a.1 as nat);
    lemma_pow10_add((s - b.1) as nat, b.1 as nat);
    lemma_pow10_pos(a.1 as nat);
    lemma_pow10_pos(b.1 as nat);
    lemma_pow10_pos(s as nat);
    assert(qa * pa == p);
    assert(qb * pb == p);
    let k = pa * pb;
    assert(k > 0) by (nonlinear_arith)
        requires
            pa >= 1,
            pb >= 1,
            k == pa * pb,
    ;
    lemma_scale_order(a.0 * qa, b.0 * qb, k);
    lemma_scale_order(a.0 * pb, b.0 * pa, p);
    assert(a.0 * qa * k == a.0 * pb * p) by (nonlinear_arith)
        requires
            k == pa * pb,
            qa * pa == p,
    ;
    assert(b.0 * qb * k == b.0 * pa * p) by (nonlinear_arith)
        requires
            k == pa * pb,
            qb * pb == p,
    ;
}

/// An exact sum read at a finer scale is the sum of the two values read
/// there.
pub proof fn lemma_exact_sum_at(a: (int, int), b: (int, int), s: int)
    requires
        0 <= a.1 <= s,
        0 <= b.1 <= s,
    ensures
        value_at(exact_sum(a, b), s) == value_at(a, s) + value_at(b, s),
{
    let m = max_scale_of(a, b);
    lemma_pow10_add((m - a.1) as nat, (s - m) as nat);
    lemma_pow10_add((m - b.1) as nat, (s - m) as nat);
    let t = pow10((s - m) as nat);
    let x = pow10((m - a.1) as nat);
    let y = pow10((m - b.1) as nat);
    assert((a.0 * x + b.0 * y) * t == a.0 * (x * t) + b.0 * (y * t)) by (nonlinear_arith);
    assert(((m - a.1) as nat + (s - m) as nat) as nat == (s - a.1) as nat);
    assert(((m - b.1) as nat + (s - m) as nat) as nat == (s - b.1) as nat);
}



/// A value read at a finer scale changes sign with the value.
pub proof fn lemma_neg_at(d: (int, int), s: int)
    ensures
        value_at((-d.0, d.1), s) == -value_at(d, s),
        value_at(abs_of(d), s) == (if value_at(d, s) < 0 {
            -value_at(d, s)
        } else {
            value_at(d, s)
        }),
{
    let p = pow10((s - d.1) as nat);
    lemma_pow10_pos((s - d.1) as nat);
    assert((-d.0) * p == -(d.0 * p)) by (nonlinear_arith);
    assert(d.0 < 0 <==> d.0 * p < 0) by (nonlinear_arith)
        requires
            p >= 1,
    ;
}

/// An exact quotient read at a finer scale: `q * b == a * 10^s`.
pub proof fn lemma_quotient_at(q: (int, int), a: (int, int), b: (int, int), s: int)
    requires
        quotient_is(q, a, b),
        0 <= q.1 <= s,
        0 <= a.1 <= s,
        0 <= b.1 <= s,
    ensures
        value_at(q, s) * value_at(b, s) == value_at(a, s) * pow10(s as nat),
{
    let pq = pow10((s - q.1) as nat);
    let pb = pow10((s - b.1) as nat);
    let pa = pow10((s - a.1) as nat);
    let p = pow10(s as nat);
    let tq = pow10(q.1 as nat);
    let tb = pow10(b.1 as nat);
    let ta = pow10(a.1 as nat);
    lemma_pow10_add((s - q.1) as nat, q.1 as nat);
    lemma_pow10_add((s - b.1) as nat, b.1 as nat);
    lemma_pow10_add((s - a.1) as nat, a.1 as nat);
    lemma_pow10_add(b.1 as nat, q.1 as nat);
    lemma_pow10_pos(q.1 as nat);
    lemma_pow10_pos(b.1 as nat);
    lemma_pow10_pos(a.1 as nat);
    assert(pq * tq == p);
    assert(pb * tb == p);
    assert(pa * ta == p);
    assert(pow10((b.1 + q.1) as nat) == tb * tq);
    let (q0, b0, a0) = (q.0, b.0, a.0);
    assert((q0 * pq) * (b0 * pb) * ta == (q0 * b0 * ta) * (pq * pb)) by (nonlinear_arith);
    assert((q0 * b0 * ta) * (pq * pb) == (a0 * (tb * tq)) * (pq * pb)) by (nonlinear_arith)
        requires
            q0 * b0 * ta == a0 * (tb * tq),
    ;
    assert((a0 * (tb * tq)) * (pq * pb) == a0 * ((tq * pq) * (tb * pb))) by (nonlinear_arith);
    assert(a0 * ((tq * pq) * (tb * pb)) == a0 * (p * p)) by (nonlinear_arith)
        requires
            pq * tq == p,
            pb * tb == p,
    ;
    assert((a0 * pa) * p * ta == a0 * ((pa * ta) * p)) by (nonlinear_arith);
    assert(a0 * ((pa * ta) * p) == a0 * (p * p)) by (nonlinear_arith)
        requires
            pa * ta == p,
    ;
    lemma_scale_order((q0 * pq) * (b0 * pb), (a0 * pa) * p, ta);
}


/// An exact difference read at the largest scale.
pub proof fn lemma_difference_value(x: (int, int), a: (int, int), b: (int, int))
    requires
        scale_ok(x),
        scale_ok(a),
        scale_ok(b),
        dec_eq_spec(x, exact_difference(a, b)),
    ensures
        value_at(x, MAX_SCALE as int) == value_at(a, MAX_SCALE as int) - value_at(b, MAX_SCALE as int),
{
    let s = MAX_SCALE as int;
    lemma_order_at(x, exact_difference(a, b), s);
    lemma_exact_sum_at(a, (-b.0, b.1), s);
    lemma_neg_at(b, s);
}


/// Whether `x` is exactly the product `a * b`.
pub open spec fn product_is(x: (int, int), a: (int, int), b: (int, int)) -> bool {
    x.0 * pow10((a.1 + b.1) as nat) == a.0 * b.0 * pow10(x.1 as nat)
}

/// An exact product read at a finer scale: `x * 10^s == a * b`.
pub proof fn lemma_product_at(x: (int, int), a: (int, int), b: (int, int), s: int)
    requires
        product_is(x, a, b),
        0 <= x.1 <= s,
        0 <= a.1 <= s,
        0 <= b.1 <= s,
    ensures
        value_at(x, s) * pow10(s as nat) == value_at(a, s) * value_at(b, s),
{
    let px = pow10((s - x.1) as nat);
    let pa = pow10((s - a.1) as nat);
    let pb = pow10((s - b.1) as nat);
    let p = pow10(s as nat);
    let tx = pow10(x.1 as nat);
    let ta = pow10(a.1 as nat);
    let tb = pow10(b.1 as nat);
    lemma_pow10_add((s - x.1) as nat, x.1 as nat);
    lemma_pow10_add((s - a.1) as nat, a.1 as nat);
    lemma_pow10_add((s - b.1) as nat, b.1 as nat);
    lemma_pow10_add(a.1 as nat, b.1 as nat);
    lemma_pow10_pos(x.1 as nat);
    lemma_pow10_pos(a.1 as nat);
    lemma_pow10_pos(b.1 as nat);
    assert(px * tx == p);
    assert(pa * ta == p);
    assert(pb * tb == p);
    assert(pow10((a.1 + b.1) as nat) == ta * tb);
    let (x0, a0, b0) = (x.0, a.0, b.0);
    let k = tx * (ta * tb);
    assert(k > 0) by (nonlinear_arith)
        requires
            tx >= 1,
            ta >= 1,
            tb >= 1,
            k == tx * (ta * tb),
    ;
    assert((x0 * px) * p * k == (x0 * (ta * tb)) * ((px * tx) * p)) by (nonlinear_arith)
        requires
            k == tx * (ta * tb),
    ;
    assert((x0 * (ta * tb)) * ((px * tx) * p) == (a0 * b0 * tx) * (p * p)) by (nonlinear_arith)
        requires
            x0 * (ta * tb) == a0 * b0 * tx,
            px * tx == p,
    ;
    let ab = a0 * b0;
    let q = pa * pb;
    let t = ta * tb;
    assert((a0 * pa) * (b0 * pb) == ab * q) by (nonlinear_arith)
        requires
            ab == a0 * b0,
            q == pa * pb,
    ;
    assert(ab * q * (tx * t) == (ab * tx) * (q * t)) by (nonlinear_arith);
    assert(q * t == (pa * ta) * (pb * tb)) by (nonlinear_arith)
        requires
            q == pa * pb,
            t == ta * tb,
    ;
    assert(a0 * b0 * tx == ab * tx);
    assert((a0 * pa) * (b0 * pb) * k == (a0 * b0 * tx) * ((pa * ta) * (pb * tb)));
    assert((a0 * b0 * tx) * ((pa * ta) * (pb * tb)) == (a0 * b0 * tx) * (p * p)) by (nonlinear_arith)
        requires
            pa * ta == p,
            pb * tb == p,
    ;
    lemma_scale_order((x0 * px) * p, (a0 * pa) * (b0 * pb), k);
}

} // verus!
