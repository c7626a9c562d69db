use raptor_domain::decimal::Amount;
use raptor_domain::money::{checked_sum_homogeneous, sum_homogeneous, CurrencyCode, Money};

#[test]
fn try_add_same_currency_soma_exata() {
    let a = Money::new(Amount::new(1000, 2), CurrencyCode::brl());
    let b = Money::new(Amount::new(250, 2), CurrencyCode::brl());
    let total = a.try_add(b).unwrap();
    assert_eq!(total.amount(), Amount::new(1250, 2));
    assert_eq!(total.currency(), CurrencyCode::brl());
}

#[test]
fn try_add_moedas_diferentes_retorna_erro() {
    let a = Money::new(Amount::new(1000, 2), CurrencyCode::brl());
    let b = Money::new(Amount::new(1000, 2), CurrencyCode::usd());
    let err = a.try_add(b).unwrap_err();
    assert_eq!(err.expected, CurrencyCode::brl());
    assert_eq!(err.found, CurrencyCode::usd());
}

#[test]
fn sum_homogeneous_vazio_retorna_none() {
    assert_eq!(sum_homogeneous(Vec::<Money>::new()).unwrap(), None);
}

#[test]
fn sum_homogeneous_moeda_unica_soma_tudo() {
    let values = vec![
        Money::new(Amount::new(100, 0), CurrencyCode::brl()),
        Money::new(Amount::new(200, 0), CurrencyCode::brl()),
        Money::new(Amount::new(300, 0), CurrencyCode::brl()),
    ];
    let total = sum_homogeneous(values).unwrap().unwrap();
    assert_eq!(total.amount(), Amount::new(600, 0));
}

#[test]
fn sum_homogeneous_moeda_mista_retorna_erro() {
    let values = vec![
        Money::new(Amount::new(100, 0), CurrencyCode::brl()),
        Money::new(Amount::new(200, 0), CurrencyCode::usd()),
    ];
    assert!(sum_homogeneous(values).is_err());
}

#[test]
fn currency_code_rejeita_string_invalida() {
    assert!(CurrencyCode::try_from("brl").is_err()); // lower case
    assert!(CurrencyCode::try_from("R$").is_err()); // not ASCII letters, wrong length
    assert!(CurrencyCode::try_from("BRLL").is_err()); // wrong length
}

#[test]
fn currency_code_aceita_iso4217_valido() {
    let code = CurrencyCode::try_from("EUR").unwrap();
    assert_eq!(code.as_str(), "EUR");
}

#[test]
fn currency_code_try_from_brl_example() {
    let brl = CurrencyCode::try_from("BRL").unwrap();
    assert_eq!(brl.as_str(), "BRL");
    assert_eq!(brl, CurrencyCode::brl());
    assert_eq!(CurrencyCode::usd().as_str(), "USD");
}

#[test]
fn currency_code_error_keeps_the_input() {
    let err = CurrencyCode::try_from("R$").unwrap_err();
    assert_eq!(err.input, "R$");
    let err = CurrencyCode::try_from("usd").unwrap_err();
    assert_eq!(err.input, "usd");
}

#[test]
fn money_new_keeps_amount_and_currency() {
    let m = Money::new(Amount::new(1050, 2), CurrencyCode::brl());
    assert_eq!(m.currency(), CurrencyCode::brl());
    assert_eq!(m.amount().mantissa(), 1050);
    assert_eq!(m.amount().scale(), 2);
}

#[test]
fn sum_homogeneous_doc_example() {
    let values = vec![
        Money::new(Amount::new(100, 0), CurrencyCode::brl()),
        Money::new(Amount::new(250, 0), CurrencyCode::brl()),
    ];
    let total = sum_homogeneous(values).unwrap().unwrap();
    assert_eq!(total.amount(), Amount::new(350, 0));
    assert_eq!(total.currency(), CurrencyCode::brl());
}

#[test]
fn sum_homogeneous_error_names_first_and_first_different_currency() {
    let eur = CurrencyCode::try_from("EUR").unwrap();
    let values = vec![
        Money::new(Amount::new(1, 0), CurrencyCode::brl()),
        Money::new(Amount::new(2, 0), CurrencyCode::brl()),
        Money::new(Amount::new(3, 0), CurrencyCode::usd()),
        Money::new(Amount::new(4, 0), eur),
    ];
    let err = sum_homogeneous(values).unwrap_err();
    assert_eq!(err.expected, CurrencyCode::brl());
    assert_eq!(err.found, CurrencyCode::usd());
}

#[test]
fn sum_homogeneous_single_value_is_that_value() {
    let m = Money::new(Amount::new(-4217, 3), CurrencyCode::usd());
    assert_eq!(sum_homogeneous(vec![m]).unwrap(), Some(m));
}

#[test]
fn sum_of_different_scales_is_exact_in_value() {
    let a = Money::new(Amount::new(15, 1), CurrencyCode::brl()); // 1.5
    let b = Money::new(Amount::new(25, 2), CurrencyCode::brl()); // 0.25
    let total = a.try_add(b).unwrap();
    assert_eq!(total.amount(), Amount::new(175, 2));
}

#[test]
fn amounts_compare_by_value() {
    assert_eq!(Amount::new(10, 1), Amount::new(100, 2));
    assert_ne!(Amount::new(10, 1), Amount::new(10, 2));
}

#[test]
fn checked_try_add_reports_overflow() {
    let big = Amount::new(i64::MAX, 0);
    let mut acc = Money::new(big, CurrencyCode::brl());
    // Doubling i64::MAX 32 times passes 2^96.
    let mut overflowed = false;
    for _ in 0..40 {
        match acc.checked_try_add(acc) {
            Some(Ok(m)) => acc = m,
            Some(Err(_)) => panic!("same currency"),
            None => {
                overflowed = true;
                break;
            }
        }
    }
    assert!(overflowed);
}

#[test]
fn checked_try_add_of_different_currencies_is_the_mismatch() {
    let a = Money::new(Amount::new(1, 0), CurrencyCode::brl());
    let b = Money::new(Amount::new(1, 0), CurrencyCode::usd());
    let r = a.checked_try_add(b).unwrap();
    assert_eq!(r.unwrap_err().found, CurrencyCode::usd());
}

#[test]
fn checked_sum_homogeneous_agrees_with_sum_homogeneous() {
    let values = vec![
        Money::new(Amount::new(100, 0), CurrencyCode::brl()),
        Money::new(Amount::new(200, 0), CurrencyCode::brl()),
    ];
    let total = checked_sum_homogeneous(values).unwrap().unwrap().unwrap();
    assert_eq!(total.amount(), Amount::new(300, 0));
    let big = Money::new(Amount::new(i64::MAX, 0), CurrencyCode::brl());
    let many: Vec<Money> = std::iter::repeat(big).take(3).collect();
    assert!(checked_sum_homogeneous(many).is_some());
}

#[test]
fn checked_sum_homogeneous_reports_overflow() {
    // 2^32 * i64::MAX is just below 2^95: it fits, twice it does not.
    let mut m = Money::new(Amount::new(i64::MAX, 0), CurrencyCode::brl());
    for _ in 0..32 {
        m = m.checked_try_add(m).unwrap().unwrap();
    }
    assert!(checked_sum_homogeneous(vec![m]).is_some());
    assert!(checked_sum_homogeneous(vec![m, m, m]).is_none());
    // A currency mismatch before the overflowing step is still reported.
    let usd = Money::new(Amount::new(1, 0), CurrencyCode::usd());
    let r = checked_sum_homogeneous(vec![m, usd, m, m]).unwrap();
    assert_eq!(r.unwrap_err().found, CurrencyCode::usd());
}

#[test]
fn sum_of_two_equals_try_add() {
    let a = Money::new(Amount::new(12345, 3), CurrencyCode::usd());
    let b = Money::new(Amount::new(-7, 1), CurrencyCode::usd());
    let summed = sum_homogeneous(vec![a, b]).unwrap().unwrap();
    let added = a.try_add(b).unwrap();
    assert_eq!(summed, added);
    assert_eq!(summed.amount(), Amount::new(11645, 3));
}

#[test]
fn currency_code_text_round_trips() {
    for text in ["BRL", "USD", "EUR", "JPY"] {
        let code = CurrencyCode::try_from(text).unwrap();
        assert_eq!(code.as_str(), text);
        assert_eq!(CurrencyCode::try_from(code.as_str()).unwrap(), code);
    }
}

#[test]
fn try_add_gives_the_same_sum_in_either_order() {
    let a = Money::new(Amount::new(15, 1), CurrencyCode::brl());
    let b = Money::new(Amount::new(-325, 2), CurrencyCode::brl());
    assert_eq!(a.try_add(b).unwrap(), b.try_add(a).unwrap());
    assert_eq!(a.try_add(b).unwrap().amount(), Amount::new(-175, 2));
}
