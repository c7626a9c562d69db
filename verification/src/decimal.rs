//! Exact decimal amounts, held as a signed mantissa and a power-of-ten scale:
//! the value of `(m, s)` is `m / 10^s`. This is the representation used by
//! `rust_decimal::Decimal` (96-bit magnitude, scale at most 28), and the
//! operations that may round (addition past 96 bits, division) are done by
//! that crate.

use vstd::prelude::*;
use vstd::arithmetic::power::{lemma_pow_adds, pow};
use vstd::arithmetic::div_mod::lemma_fundamental_div_mod;

verus! {

/// Largest magnitude of a mantissa: `2^96 - 1`.
pub const MAX_MANTISSA: i128 = 0xFFFF_FFFF_FFFF_FFFF_FFFF_FFFF;

/// Largest scale (number of decimal places).
pub const MAX_SCALE: u32 = 28;

/// An exact decimal number `mantissa / 10^scale`.
#[derive(Debug, Clone, Copy)]
pub struct Amount {
    mantissa: i128,
    scale: u32,
}

/// A pair `(mantissa, scale)` is a representable decimal.
pub open spec fn parts_ok(p: (int, int)) -> bool {
    &&& -MAX_MANTISSA <= p.0 <= MAX_MANTISSA
    &&& 0 <= p.1 <= MAX_SCALE
}

/// `10^s` for a scale `s`.
pub open spec fn ten_pow(s: int) -> int {
    pow(10, s as nat)
}

/// Two `(mantissa, scale)` pairs denote the same rational number.
pub open spec fn same_value(a: (int, int), b: (int, int)) -> bool {
    a.0 * ten_pow(b.1) == b.0 * ten_pow(a.1)
}

/// The quotient `a / b` cannot be negative: the operands' signs agree or the
/// dividend is zero.
pub open spec fn quotient_nonnegative(a: (int, int), b: (int, int)) -> bool {
    (a.0 >= 0 && b.0 > 0) || (a.0 <= 0 && b.0 < 0)
}

/// The quotient `a / b` cannot be positive: the operands' signs differ or the
/// dividend is zero.
pub open spec fn quotient_nonpositive(a: (int, int), b: (int, int)) -> bool {
    (a.0 <= 0 && b.0 > 0) || (a.0 >= 0 && b.0 < 0)
}

/// The divisor's mantissa divides the dividend's, and the dividend has at
/// least the divisor's scale: `a / b` is the quotient of the mantissas at
/// the difference of the scales, with no rounding.
pub open spec fn exact_quotient(a: (int, int), b: (int, int)) -> bool {
    &&& b.0 != 0
    &&& a.0 % b.0 == 0
    &&& a.1 >= b.1
}

/// The quotient of the mantissas at the difference of the scales.
pub open spec fn mantissa_quotient(a: (int, int), b: (int, int)) -> (int, int) {
    (a.0 / b.0, a.1 - b.1)
}

/// `a` and `b` multiplied: the product of the mantissas at the sum of the
/// scales.
pub open spec fn times(a: (int, int), b: (int, int)) -> (int, int) {
    (a.0 * b.0, a.1 + b.1)
}

/// An exact quotient times the divisor gives back the dividend: where `q`
/// has the value of [`mantissa_quotient`]`(a, d)`, `q * d` has the value of
/// `a`.
pub proof fn lemma_quotient_times_divisor(a: (int, int), d: (int, int), q: (int, int))
    requires
        exact_quotient(a, d),
        0 <= d.1,
        0 <= q.1,
        same_value(q, mantissa_quotient(a, d)),
    ensures
        same_value(times(q, d), a),
{
    let k = a.1 - d.1;
    let quo = a.0 / d.0;
    lemma_pow_adds(10, k as nat, d.1 as nat);
    lemma_pow_adds(10, q.1 as nat, d.1 as nat);
    assert((k as nat) + (d.1 as nat) == a.1 as nat);
    assert((q.1 as nat) + (d.1 as nat) == (q.1 + d.1) as nat);
    lemma_fundamental_div_mod(a.0, d.0);
    assert(a.0 == d.0 * quo);
    let pk = ten_pow(k);
    let pd = ten_pow(d.1);
    let pq = ten_pow(q.1);
    assert(ten_pow(a.1) == pk * pd);
    assert(ten_pow(q.1 + d.1) == pq * pd);
    assert(q.0 * pk == quo * pq);
    assert(q.0 * d.0 * (pk * pd) == a.0 * (pq * pd)) by (nonlinear_arith)
        requires
            q.0 * pk == quo * pq,
            a.0 == d.0 * quo,
    ;
}

/// Two decimals have the same scale and the sum of their mantissas fits in
/// 96 bits, so that their sum is exact at that scale.
pub open spec fn exact_sum_fits(a: (int, int), b: (int, int)) -> bool {
    a.1 == b.1 && -MAX_MANTISSA <= a.0 + b.0 <= MAX_MANTISSA
}

/// What `rust_decimal` computes for the sum of two decimals given as
/// `(mantissa, scale)`: `None` when the sum overflows, else the sum, rounded
/// where it does not fit in 96 bits.
pub uninterp spec fn decimal_sum(a: (int, int), b: (int, int)) -> Option<(int, int)>;

/// What `rust_decimal` computes for the quotient `a / b` of two decimals given
/// as `(mantissa, scale)`: `None` on division by zero or overflow, else the
/// quotient rounded to the precision that fits.
pub uninterp spec fn decimal_quotient(a: (int, int), b: (int, int)) -> Option<(int, int)>;

impl View for Amount {
    type V = (int, int);

    closed spec fn view(&self) -> (int, int) {
        (self.mantissa as int, self.scale as int)
    }
}

/// Calls `rust_decimal::Decimal::checked_add` on the two amounts.
/// Claimed of it: the result is the named `decimal_sum` of the two
/// `(mantissa, scale)` pairs; and when both have the same scale and the exact
/// sum of the mantissas fits in 96 bits, the sum is exact, at that scale (the
/// aligned paths of `rust_decimal`'s addition add the mantissas without
/// rescaling or rounding).
#[verifier::external_body]
fn checked_add_parts(a: Amount, b: Amount) -> (r: Option<Amount>)
    ensures
        decimal_sum(a@, b@) == (match r {
            Some(x) => Some(x@),
            None => None,
        }),
        exact_sum_fits(a@, b@) ==> r == Some(
            Amount { mantissa: (a@.0 + b@.0) as i128, scale: a@.1 as u32 },
        ),
{
    let x = rust_decimal::Decimal::from_i128_with_scale(a.mantissa, a.scale);
    let y = rust_decimal::Decimal::from_i128_with_scale(b.mantissa, b.scale);
    match x.checked_add(y) {
        Some(s) => Some(Amount { mantissa: s.mantissa(), scale: s.scale() }),
        None => None,
    }
}

/// Calls `rust_decimal::Decimal::checked_div` on the two amounts.
/// Claimed of it: the result is the named `decimal_quotient` of the two
/// `(mantissa, scale)` pairs; a zero divisor gives `None`; and a divisor that
/// is a whole number of at least 1 gives `Some`. `checked_div` answers `None`
/// only for a zero divisor or an overflow, and such a quotient is no larger
/// in magnitude than the dividend: the division starts at a working scale of
/// at least zero and only raises it, and its overflow exits are taken only at
/// a negative working scale or on a quotient that fills all 96 bits.
/// Also claimed: the quotient's sign is that of the operands' signs combined
/// (the division sets the result's sign from the two signs and works on
/// magnitudes alone); and where the divisor's mantissa divides the
/// dividend's and the dividend's scale is no smaller than the divisor's, the
/// quotient is exact: the value `(a / b)` of mantissas at the difference of
/// the scales (the division's fast exit, taken when no remainder is left and
/// the working scale is not negative).
#[verifier::external_body]
fn checked_div_parts(a: Amount, b: Amount) -> (r: Option<Amount>)
    ensures
        decimal_quotient(a@, b@) == (match r {
            Some(x) => Some(x@),
            None => None,
        }),
        b@.0 == 0 ==> r is None,
        b@.1 == 0 && b@.0 >= 1 ==> r is Some,
        quotient_nonnegative(a@, b@) && r is Some ==> r->Some_0@.0 >= 0,
        quotient_nonpositive(a@, b@) && r is Some ==> r->Some_0@.0 <= 0,
        exact_quotient(a@, b@) ==> r is Some && same_value(r->Some_0@, mantissa_quotient(a@, b@)),
{
    let x = rust_decimal::Decimal::from_i128_with_scale(a.mantissa, a.scale);
    let y = rust_decimal::Decimal::from_i128_with_scale(b.mantissa, b.scale);
    match x.checked_div(y) {
        Some(q) => Some(Amount { mantissa: q.mantissa(), scale: q.scale() }),
        None => None,
    }
}

/// Calls `==` on the two amounts as `rust_decimal::Decimal`s.
/// Claimed of it: it compares numeric values, so `1.0 == 1.00`.
#[verifier::external_body]
fn equal_values(a: Amount, b: Amount) -> (r: bool)
    ensures
        r == same_value(a@, b@),
{
    rust_decimal::Decimal::from_i128_with_scale(a.mantissa, a.scale)
        == rust_decimal::Decimal::from_i128_with_scale(b.mantissa, b.scale)
}

impl Amount {
    #[verifier::type_invariant]
    spec fn well_formed(self) -> bool {
        parts_ok(self@)
    }

    /// `num / 10^scale`.
    pub fn new(num: i64, scale: u32) -> (r: Amount)
        requires
            scale <= MAX_SCALE,
        ensures
            r@ == (num as int, scale as int),
    {
        Amount { mantissa: num as i128, scale }
    }

    /// `mantissa / 10^scale`, or `None` where the mantissa needs more than 96
    /// bits or the scale exceeds 28.
    pub fn from_parts(mantissa: i128, scale: u32) -> (r: Option<Amount>)
        ensures
            r is Some <==> parts_ok((mantissa as int, scale as int)),
            r matches Some(a) ==> a@ == (mantissa as int, scale as int),
    {
        if -MAX_MANTISSA <= mantissa && mantissa <= MAX_MANTISSA && scale <= MAX_SCALE {
            Some(Amount { mantissa, scale })
        } else {
            None
        }
    }

    /// The whole number `n`, at scale zero.
    pub fn from_count(n: usize) -> (r: Amount)
        ensures
            r@ == (n as int, 0int),
    {
        Amount { mantissa: n as i128, scale: 0 }
    }

    pub fn mantissa(&self) -> (r: i128)
        ensures
            r == self@.0,
            parts_ok(self@),
    {
        proof {
            use_type_invariant(self);
        }
        self.mantissa
    }

    pub fn scale(&self) -> (r: u32)
        ensures
            r == self@.1,
            parts_ok(self@),
    {
        proof {
            use_type_invariant(self);
        }
        self.scale
    }

    /// The value is below zero.
    pub fn is_negative(&self) -> (r: bool)
        ensures
            r == (self@.0 < 0),
    {
        self.mantissa < 0
    }

    /// `-self`, at the same scale.
    pub fn neg(self) -> (r: Amount)
        ensures
            r@ == (-self@.0, self@.1),
    {
        proof {
            use_type_invariant(&self);
        }
        Amount { mantissa: -self.mantissa, scale: self.scale }
    }

    /// `self + other` as `rust_decimal` computes it; `None` on overflow.
    pub fn checked_add(self, other: Amount) -> (r: Option<Amount>)
        ensures
            decimal_sum(self@, other@) == (match r {
                Some(x) => Some(x@),
                None => None,
            }),
            exact_sum_fits(self@, other@) ==> (r matches Some(x) && x@ == (
                self@.0 + other@.0,
                self@.1,
            )),
    {
        proof {
            use_type_invariant(&self);
            use_type_invariant(&other);
        }
        checked_add_parts(self, other)
    }

    /// `self / other` as `rust_decimal` computes it; `None` on division by
    /// zero or overflow, which a whole divisor of at least 1 never causes.
    /// The quotient has the sign that the operands' signs give, and is exact
    /// where the divisor's mantissa divides the dividend's.
    pub fn checked_div(self, other: Amount) -> (r: Option<Amount>)
        ensures
            decimal_quotient(self@, other@) == (match r {
                Some(x) => Some(x@),
                None => None,
            }),
            other@.0 == 0 ==> r is None,
            other@.1 == 0 && other@.0 >= 1 ==> r is Some,
            quotient_nonnegative(self@, other@) && r is Some ==> r->Some_0@.0 >= 0,
            quotient_nonpositive(self@, other@) && r is Some ==> r->Some_0@.0 <= 0,
            exact_quotient(self@, other@) ==> r is Some && same_value(
                r->Some_0@,
                mantissa_quotient(self@, other@),
            ),
    {
        proof {
            use_type_invariant(&self);
            use_type_invariant(&other);
        }
        checked_div_parts(self, other)
    }
}

impl PartialEq for Amount {
    fn eq(&self, other: &Amount) -> (r: bool) {
        proof {
            use_type_invariant(self);
            use_type_invariant(other);
        }
        equal_values(*self, *other)
    }
}

impl vstd::std_specs::cmp::PartialEqSpecImpl for Amount {
    open spec fn obeys_eq_spec() -> bool {
        true
    }

    open spec fn eq_spec(&self, other: &Amount) -> bool {
        same_value(self@, other@)
    }
}

impl Eq for Amount {}

} // verus!
