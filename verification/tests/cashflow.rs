use raptor_domain::cashflow::{
    classify_banking, classify_investment, BankingTrnType, CashflowKind, Confidence, IncomeType,
    InvestmentTranType,
};
use raptor_domain::decimal::Amount;
use raptor_domain::money::{CurrencyCode, Money};

fn brl(amount: i64) -> Money {
    Money::new(Amount::new(amount, 2), CurrencyCode::brl())
}

#[test]
fn compra_de_acao_e_neutral_nao_performance() {
    let event = classify_investment(&InvestmentTranType::BuyStock, brl(-10000));
    assert_eq!(event.kind, CashflowKind::Neutral);
    assert_eq!(event.confidence, Confidence::High);
}

#[test]
fn venda_de_fundo_e_neutral() {
    let event = classify_investment(&InvestmentTranType::SellMf, brl(5000));
    assert_eq!(event.kind, CashflowKind::Neutral);
}

#[test]
fn dividendo_e_performance() {
    let event = classify_investment(&InvestmentTranType::Income(IncomeType::Dividend), brl(150));
    assert_eq!(event.kind, CashflowKind::Performance);
    assert_eq!(event.confidence, Confidence::High);
}

#[test]
fn transferencia_de_entrada_e_external() {
    let event = classify_investment(&InvestmentTranType::TransferIn, brl(100000));
    assert_eq!(event.kind, CashflowKind::External);
}

#[test]
fn investimento_other_e_baixa_confianca() {
    let event = classify_investment(&InvestmentTranType::Other, brl(10));
    assert_eq!(event.confidence, Confidence::Low);
}

#[test]
fn juros_bancarios_e_performance() {
    let event = classify_banking(&BankingTrnType::Int, brl(42));
    assert_eq!(event.kind, CashflowKind::Performance);
}

#[test]
fn transferencia_bancaria_e_neutral() {
    let event = classify_banking(&BankingTrnType::Xfer, brl(-30000));
    assert_eq!(event.kind, CashflowKind::Neutral);
}

#[test]
fn credit_generico_e_baixa_confianca() {
    let event = classify_banking(&BankingTrnType::Credit, brl(100));
    assert_eq!(event.kind, CashflowKind::External);
    assert_eq!(event.confidence, Confidence::Low);
}

#[test]
fn debit_generico_e_baixa_confianca() {
    let event = classify_banking(&BankingTrnType::Debit, brl(-100));
    assert_eq!(event.confidence, Confidence::Low);
}

#[test]
fn tarifa_bancaria_e_external_alta_confianca() {
    let event = classify_banking(&BankingTrnType::Fee, brl(-1090));
    assert_eq!(event.kind, CashflowKind::External);
    assert_eq!(event.confidence, Confidence::High);
}

#[test]
fn unknown_preserva_dado_bruto_e_baixa_confianca() {
    let event = classify_banking(&BankingTrnType::Unknown("XPTO".to_string()), brl(1));
    assert_eq!(event.confidence, Confidence::Low);
}

#[test]
fn classification_keeps_the_amount() {
    let amount = brl(-5000);
    let event = classify_banking(&BankingTrnType::Xfer, amount);
    assert_eq!(event.amount, amount);
    assert_eq!(event.confidence, Confidence::High);
    let event = classify_investment(&InvestmentTranType::BuyStock, brl(-100000));
    assert_eq!(event.amount, brl(-100000));
}

#[test]
fn every_banking_type_is_classified_as_specified() {
    let expected = vec![
        (BankingTrnType::Credit, CashflowKind::External, Confidence::Low),
        (BankingTrnType::Debit, CashflowKind::External, Confidence::Low),
        (BankingTrnType::Int, CashflowKind::Performance, Confidence::High),
        (BankingTrnType::Div, CashflowKind::Performance, Confidence::High),
        (BankingTrnType::Fee, CashflowKind::External, Confidence::High),
        (BankingTrnType::Srvchg, CashflowKind::External, Confidence::High),
        (BankingTrnType::Dep, CashflowKind::External, Confidence::High),
        (BankingTrnType::Atm, CashflowKind::External, Confidence::High),
        (BankingTrnType::Pos, CashflowKind::External, Confidence::High),
        (BankingTrnType::Xfer, CashflowKind::Neutral, Confidence::High),
        (BankingTrnType::Check, CashflowKind::External, Confidence::High),
        (BankingTrnType::Payment, CashflowKind::External, Confidence::High),
        (BankingTrnType::Cash, CashflowKind::External, Confidence::High),
        (BankingTrnType::DirectDep, CashflowKind::External, Confidence::High),
        (BankingTrnType::DirectDebit, CashflowKind::External, Confidence::High),
        (BankingTrnType::RepeatPmt, CashflowKind::External, Confidence::High),
        (BankingTrnType::Other, CashflowKind::External, Confidence::Low),
        (BankingTrnType::Unknown(String::new()), CashflowKind::External, Confidence::Low),
    ];
    for (t, kind, confidence) in expected {
        let event = classify_banking(&t, brl(1));
        assert_eq!((event.kind, event.confidence), (kind, confidence), "{:?}", t);
        // Low confidence only ever comes with External.
        assert!(event.confidence == Confidence::High || event.kind == CashflowKind::External);
    }
}

#[test]
fn every_investment_type_is_classified_as_specified() {
    let expected = vec![
        (InvestmentTranType::BuyStock, CashflowKind::Neutral, Confidence::High),
        (InvestmentTranType::SellStock, CashflowKind::Neutral, Confidence::High),
        (InvestmentTranType::BuyDebt, CashflowKind::Neutral, Confidence::High),
        (InvestmentTranType::SellDebt, CashflowKind::Neutral, Confidence::High),
        (InvestmentTranType::BuyMf, CashflowKind::Neutral, Confidence::High),
        (InvestmentTranType::SellMf, CashflowKind::Neutral, Confidence::High),
        (InvestmentTranType::BuyOpt, CashflowKind::Neutral, Confidence::High),
        (InvestmentTranType::SellOpt, CashflowKind::Neutral, Confidence::High),
        (InvestmentTranType::BuyOther, CashflowKind::Neutral, Confidence::High),
        (InvestmentTranType::SellOther, CashflowKind::Neutral, Confidence::High),
        (InvestmentTranType::Income(IncomeType::CapitalGainsShort), CashflowKind::Performance, Confidence::High),
        (InvestmentTranType::Income(IncomeType::CapitalGainsLong), CashflowKind::Performance, Confidence::High),
        (InvestmentTranType::Income(IncomeType::Interest), CashflowKind::Performance, Confidence::High),
        (InvestmentTranType::Income(IncomeType::Misc), CashflowKind::Performance, Confidence::High),
        (InvestmentTranType::ReinvestIncome, CashflowKind::Performance, Confidence::High),
        (InvestmentTranType::TransferIn, CashflowKind::External, Confidence::High),
        (InvestmentTranType::TransferOut, CashflowKind::External, Confidence::High),
        (InvestmentTranType::Split, CashflowKind::Neutral, Confidence::High),
        (InvestmentTranType::Other, CashflowKind::External, Confidence::Low),
    ];
    for (t, kind, confidence) in expected {
        let event = classify_investment(&t, brl(1));
        assert_eq!((event.kind, event.confidence), (kind, confidence), "{:?}", t);
    }
}
