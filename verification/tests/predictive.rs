use raptor_domain::decimal::Amount;
use raptor_domain::metric::{Metric, MetricDiagnostic, Provenance};
use raptor_domain::money::{CurrencyCode, Money};
use raptor_domain::predictive::{burn_rate, checked_burn_rate, checked_runway, runway, PredictiveError};

fn brl(cents: i64) -> Money {
    Money::new(Amount::new(cents, 2), CurrencyCode::brl())
}

#[test]
fn burn_rate_vazio_retorna_erro() {
    assert_eq!(burn_rate(&[]), Err(PredictiveError::EmptyInput));
}

#[test]
fn burn_rate_moeda_mista_retorna_erro() {
    let values = vec![brl(-1000), Money::new(Amount::new(-1000, 2), CurrencyCode::usd())];
    assert!(matches!(burn_rate(&values), Err(PredictiveError::CurrencyMismatch(_))));
}

#[test]
fn burn_rate_calcula_media_simples() {
    let values = vec![brl(-10000), brl(-20000), brl(-30000)];
    let rate = burn_rate(&values).unwrap();
    assert_eq!(rate.value.amount(), Amount::new(-20000, 2));
    assert_eq!(rate.provenance.sample_size, 3);
}

#[test]
fn runway_calcula_periodos_restantes() {
    let rate = burn_rate(&[brl(-50000)]).unwrap(); // -R$ 500.00 a month
    let available = brl(200000); // R$ 2,000.00
    let survival = runway(available, &rate).unwrap();
    assert_eq!(survival.value, Amount::new(4, 0));
}

#[test]
fn runway_com_burn_rate_zero_retorna_erro() {
    let rate = Metric::new(brl(0), Provenance::new(1));
    assert_eq!(runway(brl(100000), &rate), Err(PredictiveError::NotBurning));
}

#[test]
fn runway_com_burn_rate_positivo_retorna_erro() {
    let rate = Metric::new(brl(1000), Provenance::new(1)); // net inflow, no burn
    assert_eq!(runway(brl(100000), &rate), Err(PredictiveError::NotBurning));
}

#[test]
fn runway_moeda_incompativel_retorna_erro() {
    let rate = burn_rate(&[brl(-1000)]).unwrap();
    let available = Money::new(Amount::new(100000, 2), CurrencyCode::usd());
    assert!(matches!(runway(available, &rate), Err(PredictiveError::CurrencyMismatch(_))));
}

#[test]
fn runway_propaga_sample_size_da_provenance_do_burn() {
    let rate = burn_rate(&[brl(-1000), brl(-2000)]).unwrap();
    let survival = runway(brl(30000), &rate).unwrap();
    assert_eq!(survival.provenance.sample_size, 2);
}

#[test]
fn burn_rate_doc_example() {
    let months = vec![brl(-100000), brl(-200000)];
    let rate = burn_rate(&months).unwrap();
    assert_eq!(rate.value.amount(), Amount::new(-150000, 2));
    assert_eq!(rate.value.currency(), CurrencyCode::brl());
    assert_eq!(
        rate.provenance.diagnostics,
        vec![MetricDiagnostic::LowSampleSignificance { sample_size: 2 }]
    );
}

#[test]
fn runway_doc_example() {
    let rate = burn_rate(&[brl(-100000)]).unwrap();
    let survival = runway(brl(500000), &rate).unwrap();
    assert_eq!(survival.value, Amount::new(5, 0));
}

#[test]
fn burn_rate_average_rounds_like_decimal_division() {
    let rate = burn_rate(&[brl(-100), brl(-100), brl(-101)]).unwrap();
    // -3.01 / 3
    assert_eq!(rate.value.amount().scale(), 28);
    assert!(rate.value.amount().is_negative());
}

#[test]
fn runway_mismatch_names_both_currencies() {
    let rate = burn_rate(&[brl(-1000)]).unwrap();
    let available = Money::new(Amount::new(1, 0), CurrencyCode::usd());
    match runway(available, &rate) {
        Err(PredictiveError::CurrencyMismatch(e)) => {
            assert_eq!(e.expected, CurrencyCode::usd());
            assert_eq!(e.found, CurrencyCode::brl());
        }
        other => panic!("unexpected {:?}", other),
    }
}

#[test]
fn burn_rate_mismatch_names_first_different_currency() {
    let values = vec![brl(-1), brl(-2), Money::new(Amount::new(-3, 0), CurrencyCode::usd())];
    match burn_rate(&values) {
        Err(PredictiveError::CurrencyMismatch(e)) => {
            assert_eq!(e.expected, CurrencyCode::brl());
            assert_eq!(e.found, CurrencyCode::usd());
        }
        other => panic!("unexpected {:?}", other),
    }
}

#[test]
fn checked_variants_agree_on_ordinary_inputs() {
    let values = vec![brl(-10000), brl(-30000)];
    let rate = checked_burn_rate(&values).unwrap().unwrap();
    assert_eq!(rate.value.amount(), Amount::new(-20000, 2));
    assert_eq!(checked_burn_rate(&[]), Some(Err(PredictiveError::EmptyInput)));
    let survival = checked_runway(brl(100000), &rate).unwrap().unwrap();
    assert_eq!(survival.value, Amount::new(5, 0));
    let not_burning = Metric::new(brl(5), Provenance::new(1));
    assert_eq!(checked_runway(brl(1), &not_burning), Some(Err(PredictiveError::NotBurning)));
}

#[test]
fn checked_runway_reports_overflow() {
    // A huge amount divided by a tiny burn overflows.
    let mut big = Money::new(Amount::new(i64::MAX, 0), CurrencyCode::brl());
    for _ in 0..32 {
        big = big.checked_try_add(big).unwrap().unwrap();
    }
    let tiny = Metric::new(Money::new(Amount::new(-1, 28), CurrencyCode::brl()), Provenance::new(1));
    assert_eq!(checked_runway(big, &tiny), None);
}

#[test]
fn checked_burn_rate_reports_overflow() {
    let mut big = Money::new(Amount::new(i64::MAX, 0), CurrencyCode::brl());
    for _ in 0..32 {
        big = big.checked_try_add(big).unwrap().unwrap();
    }
    assert_eq!(checked_burn_rate(&[big, big, big]), None);
}

#[test]
fn burn_rate_of_a_huge_total_divides_without_overflow() {
    let mut big = Money::new(Amount::new(i64::MAX, 0), CurrencyCode::brl());
    for _ in 0..31 {
        big = big.checked_try_add(big).unwrap().unwrap();
    }
    let zero = brl(0);
    let values = [big, zero, zero, zero, zero, zero, zero];
    let rate = burn_rate(&values).unwrap();
    assert_eq!(rate.value.currency(), CurrencyCode::brl());
    assert_eq!(rate.provenance.sample_size, 7);
    assert_eq!(checked_burn_rate(&values), Some(Ok(rate)));
}
