//! Predictive metrics. `burn_rate` is primary: it reads the net cashflow of
//! each period. `runway` is derived: it reads the result of `burn_rate`, not
//! raw data.

use vstd::prelude::*;
use crate::decimal::{
    Amount, decimal_quotient, exact_quotient, lemma_quotient_times_divisor, mantissa_quotient,
    same_value, ten_pow, times,
};
use crate::metric::{Metric, Provenance, fresh_provenance, sample_diagnostics};
use crate::money::{
    amounts_sum, checked_sum_homogeneous, exact_running_sums, first_mismatch_at, homogeneous,
    lemma_first_mismatch, mantissa_sum, sum_defined,
    sum_homogeneous, CurrencyMismatch, Money,
};

verus! {

/// The error of a predictive metric.
#[derive(Debug, Clone, PartialEq, Eq)]
pub enum PredictiveError {
    /// `burn_rate` of no periods: there is nothing to measure.
    EmptyInput,
    /// The values do not share one currency.
    CurrencyMismatch(CurrencyMismatch),
    /// `runway` needs a negative burn rate (cash being burnt); a zero or
    /// positive rate defines no finite runway.
    NotBurning,
}

/// The average that [`burn_rate`] reports for the values `s`: their sum
/// divided by their count, as `rust_decimal` divides.
pub open spec fn average_of(s: Seq<Money>) -> Option<(int, int)> {
    match amounts_sum(s, s.len() as int) {
        Some(total) => decimal_quotient(total, (s.len() as int, 0)),
        None => None,
    }
}

/// The sums that [`burn_rate`] performs do not overflow (its division, by
/// the number of periods, never does).
pub open spec fn burn_rate_defined(s: Seq<Money>) -> bool {
    s.len() > 0 ==> sum_defined(s)
}

/// What [`burn_rate`] returns for the values `s`.
pub open spec fn burn_rate_result(s: Seq<Money>, r: Result<Metric<Money>, PredictiveError>) -> bool {
    &&& s.len() == 0 ==> r == Err::<Metric<Money>, PredictiveError>(PredictiveError::EmptyInput)
    &&& forall|j: int|
        first_mismatch_at(s, j) ==> r == Err::<Metric<Money>, PredictiveError>(
            PredictiveError::CurrencyMismatch(
                CurrencyMismatch { expected: s[0].currency(), found: s[j].currency() },
            ),
        )
    &&& s.len() > 0 && homogeneous(s) ==> (r matches Ok(m) && m.value.currency() == s[0].currency()
        && average_of(s) == Some(m.value.amount()@) && fresh_provenance(
        m.provenance,
        s.len() as usize,
    ))
}

/// `avg` is an average of `n` periods whose total is `total`: it has the
/// sign of the total, and where the number of periods divides the total's
/// mantissa it is exactly the total divided by `n` (so `avg * n == total`).
pub open spec fn is_average_of_total(total: (int, int), n: int, avg: (int, int)) -> bool {
    &&& total.0 >= 0 ==> avg.0 >= 0
    &&& total.0 <= 0 ==> avg.0 <= 0
    &&& total.0 % n == 0 ==> same_value(avg, (total.0 / n, total.1))
    &&& total.0 % n == 0 ==> same_value(times(avg, (n, 0)), total)
}

/// The burn rate of the values `s`, where they share one currency, is an
/// average of their total over their number: the total as the sums give it,
/// and, for amounts of one scale whose running sums fit, the plain sum of
/// the mantissas at that scale.
pub open spec fn burn_rate_is_average(s: Seq<Money>, r: Result<Metric<Money>, PredictiveError>) -> bool {
    s.len() > 0 && homogeneous(s) ==> (r matches Ok(m) && (amounts_sum(s, s.len() as int) matches Some(
        t,
    ) ==> is_average_of_total(t, s.len() as int, m.value.amount()@)) && (exact_running_sums(s)
        ==> is_average_of_total(
        (mantissa_sum(s, s.len() as int), s[0].amount()@.1),
        s.len() as int,
        m.value.amount()@,
    )))
}

/// Burn rate: the simple average of the net cashflow of each period (negative
/// means cash burnt in that period), with the number of periods as sample
/// size.
pub fn burn_rate(net_cashflow_per_period: &[Money]) -> (r: Result<Metric<Money>, PredictiveError>)
    requires
        burn_rate_defined(net_cashflow_per_period@),
    ensures
        burn_rate_result(net_cashflow_per_period@, r),
        burn_rate_is_average(net_cashflow_per_period@, r),
{
    let n = net_cashflow_per_period.len();
    if n == 0 {
        return Err(PredictiveError::EmptyInput);
    }
    let values = copy_values(net_cashflow_per_period);
    match sum_homogeneous(values) {
        Err(e) => Err(PredictiveError::CurrencyMismatch(e)),
        Ok(None) => Err(PredictiveError::EmptyInput),
        Ok(Some(total)) => {
            let count = Amount::from_count(n);
            let average = total.amount().checked_div(count).unwrap();
            // The scales of the total and of the average are within bounds.
            let _scale = total.amount().scale();
            let _average_scale = average.scale();
            proof {
                let t = total.amount()@;
                if t.0 % (n as int) == 0 {
                    assert(exact_quotient(t, count@));
                    assert(mantissa_quotient(t, count@) == (t.0 / (n as int), t.1));
                    lemma_quotient_times_divisor(t, count@, average@);
                }
            }
            Ok(Metric::new(Money::new(average, total.currency()), Provenance::new(n)))
        },
    }
}

/// The values of a slice, in a vector.
fn copy_values(s: &[Money]) -> (r: Vec<Money>)
    ensures
        r@ == s@,
{
    let mut v: Vec<Money> = Vec::new();
    let mut i: usize = 0;
    while i < s.len()
        invariant
            i <= s.len(),
            v@ == s@.take(i as int),
        decreases s.len() - i,
    {
        v.push(s[i]);
        i = i + 1;
        assert(v@ =~= s@.take(i as int));
    }
    assert(v@ =~= s@);
    v
}

/// [`burn_rate`] for any values: `None` exactly when one of its sums would
/// overflow, else what `burn_rate` returns.
pub fn checked_burn_rate(net_cashflow_per_period: &[Money]) -> (r: Option<
    Result<Metric<Money>, PredictiveError>,
>)
    ensures
        r is None <==> !burn_rate_defined(net_cashflow_per_period@),
        r matches Some(x) ==> burn_rate_result(net_cashflow_per_period@, x),
        r matches Some(x) ==> burn_rate_is_average(net_cashflow_per_period@, x),
{
    let n = net_cashflow_per_period.len();
    if n > 0 {
        let values = copy_values(net_cashflow_per_period);
        match checked_sum_homogeneous(values) {
            None => {
                return None;
            },
            Some(_) => {},
        }
    }
    Some(burn_rate(net_cashflow_per_period))
}

/// The number of periods that `available` lasts at the rate `burn`, as
/// `rust_decimal` divides: `available / -burn`.
pub open spec fn runway_periods(available: Money, burn: Money) -> Option<(int, int)> {
    decimal_quotient(available.amount()@, (-burn.amount()@.0, burn.amount()@.1))
}

/// The division that [`runway`] performs does not overflow.
pub open spec fn runway_defined(available: Money, burn: Metric<Money>) -> bool {
    available.currency()@ == burn.value.currency()@ && burn.value.amount()@.0 < 0
        ==> runway_periods(available, burn.value) is Some
}

/// What [`runway`] returns.
pub open spec fn runway_result(
    available: Money,
    burn: Metric<Money>,
    r: Result<Metric<Amount>, PredictiveError>,
) -> bool {
    &&& available.currency()@ != burn.value.currency()@ ==> r == Err::<
        Metric<Amount>,
        PredictiveError,
    >(
        PredictiveError::CurrencyMismatch(
            CurrencyMismatch { expected: available.currency(), found: burn.value.currency() },
        ),
    )
    &&& available.currency()@ == burn.value.currency()@ && burn.value.amount()@.0 >= 0 ==> r
        == Err::<Metric<Amount>, PredictiveError>(PredictiveError::NotBurning)
    &&& available.currency()@ == burn.value.currency()@ && burn.value.amount()@.0 < 0 ==> (
    r matches Ok(m) && runway_periods(available, burn.value) == Some(m.value@)
        && fresh_provenance(m.provenance, burn.provenance.sample_size))
}

/// The runway that `available` gives at the rate `burn`, where both share a
/// currency and cash is being burnt, is the available amount divided by the
/// burnt amount per period: it has the sign of the available amount (an
/// overdrawn account has a runway of zero or less), and where the burnt
/// amount's mantissa divides the available one's (at a scale no larger) it
/// is exactly their quotient (so `periods * -burn == available`).
pub open spec fn runway_is_quotient(
    available: Money,
    burn: Metric<Money>,
    r: Result<Metric<Amount>, PredictiveError>,
) -> bool {
    let a = available.amount()@;
    let d = (-burn.value.amount()@.0, burn.value.amount()@.1);
    available.currency()@ == burn.value.currency()@ && burn.value.amount()@.0 < 0 ==> (r matches Ok(
        m,
    ) && (a.0 >= 0 ==> m.value@.0 >= 0) && (a.0 <= 0 ==> m.value@.0 <= 0) && (exact_quotient(a, d)
        ==> same_value(m.value@, mantissa_quotient(a, d))) && (exact_quotient(a, d) ==> same_value(
        times(m.value@, d),
        a,
    )))
}

/// Runway: how many periods the available cash lasts at the burn rate that
/// `burn` reports. Derived metric: it reads the result of [`burn_rate`] and
/// carries over its sample size.
pub fn runway(available: Money, burn: &Metric<Money>) -> (r: Result<Metric<Amount>, PredictiveError>)
    requires
        runway_defined(available, *burn),
    ensures
        runway_result(available, *burn, r),
        runway_is_quotient(available, *burn, r),
{
    if available.currency() != burn.value.currency() {
        return Err(
            PredictiveError::CurrencyMismatch(
                CurrencyMismatch { expected: available.currency(), found: burn.value.currency() },
            ),
        );
    }
    if !burn.value.amount().is_negative() {
        return Err(PredictiveError::NotBurning);
    }
    let burnt = burn.value.amount().neg();
    let periods = available.amount().checked_div(burnt).unwrap();
    // The scales of the burnt amount and of the quotient are within bounds.
    let _burnt_scale = burnt.scale();
    let _periods_scale = periods.scale();
    proof {
        if exact_quotient(available.amount()@, burnt@) {
            lemma_quotient_times_divisor(available.amount()@, burnt@, periods@);
        }
    }
    Ok(Metric::new(periods, Provenance::new(burn.provenance.sample_size)))
}

/// [`runway`] for any inputs: `None` exactly when its division would
/// overflow, else what `runway` returns.
pub fn checked_runway(available: Money, burn: &Metric<Money>) -> (r: Option<
    Result<Metric<Amount>, PredictiveError>,
>)
    ensures
        r is None <==> !runway_defined(available, *burn),
        r matches Some(x) ==> runway_result(available, *burn, x),
        r matches Some(x) ==> runway_is_quotient(available, *burn, x),
{
    if available.currency() == burn.value.currency() && burn.value.amount().is_negative() {
        if available.amount().checked_div(burn.value.amount().neg()).is_none() {
            return None;
        }
    }
    Some(runway(available, burn))
}


/// A runway computed from a burn rate carries the burn rate's sample: the
/// number of periods, and the low-significance diagnostic below 30 periods.
pub proof fn lemma_runway_keeps_burn_sample(
    periods: Seq<Money>,
    burn: Metric<Money>,
    available: Money,
    r: Result<Metric<Amount>, PredictiveError>,
)
    requires
        burn_rate_result(periods, Ok::<Metric<Money>, PredictiveError>(burn)),
        runway_result(available, burn, r),
        r is Ok,
    ensures
        r->Ok_0.provenance.sample_size == periods.len() as usize,
        r->Ok_0.provenance.diagnostics@ == sample_diagnostics(periods.len() as usize),
{
    if !homogeneous(periods) {
        let k = choose|k: int|
            0 <= k < periods.len() && (#[trigger] periods[k]).currency()@ != periods[0].currency()@;
        let j = lemma_first_mismatch(periods, k);
    }
}

/// The burn rate is the average of the periods: over values of one currency
/// it has the sign of their total, and where the number of periods divides
/// the total's mantissa the rate times the number of periods is the total.
/// For amounts of one scale whose running sums fit, the total is the plain
/// sum of the mantissas at that scale.
pub proof fn lemma_burn_rate_is_average(s: Seq<Money>, r: Result<Metric<Money>, PredictiveError>)
    requires
        burn_rate_is_average(s, r),
        s.len() > 0,
        homogeneous(s),
    ensures
        r is Ok,
        amounts_sum(s, s.len() as int) is Some ==> {
            let t = amounts_sum(s, s.len() as int)->Some_0;
            let avg = r->Ok_0.value.amount()@;
            &&& t.0 >= 0 ==> avg.0 >= 0
            &&& t.0 <= 0 ==> avg.0 <= 0
            &&& t.0 % (s.len() as int) == 0 ==> avg.0 * s.len() * ten_pow(t.1) == t.0 * ten_pow(
                avg.1,
            )
        },
        exact_running_sums(s) ==> {
            let total = mantissa_sum(s, s.len() as int);
            let avg = r->Ok_0.value.amount()@;
            &&& total >= 0 ==> avg.0 >= 0
            &&& total <= 0 ==> avg.0 <= 0
            &&& total % (s.len() as int) == 0 ==> avg.0 * s.len() * ten_pow(s[0].amount()@.1)
                == total * ten_pow(avg.1)
        },
{
}

/// The runway is the available amount divided by the amount burnt per
/// period: where both share a currency and cash is being burnt, it has the
/// sign of the available amount, and where the burnt amount's mantissa
/// divides the available one's (at a scale no larger) the runway times the
/// burnt amount is the available amount.
pub proof fn lemma_runway_is_quotient(
    available: Money,
    burn: Metric<Money>,
    r: Result<Metric<Amount>, PredictiveError>,
)
    requires
        runway_is_quotient(available, burn, r),
        available.currency()@ == burn.value.currency()@,
        burn.value.amount()@.0 < 0,
    ensures
        r is Ok,
        available.amount()@.0 >= 0 ==> r->Ok_0.value@.0 >= 0,
        available.amount()@.0 <= 0 ==> r->Ok_0.value@.0 <= 0,
        exact_quotient(available.amount()@, (-burn.value.amount()@.0, burn.value.amount()@.1))
            ==> r->Ok_0.value@.0 * -burn.value.amount()@.0 * ten_pow(available.amount()@.1)
            == available.amount()@.0 * ten_pow(r->Ok_0.value@.1 + burn.value.amount()@.1),
{
}

} // verus!
