//! Cashflow classification: an OFX statement does not tell a capital flow from
//! performance. Buying a stock is not income but a reallocation of capital
//! inside the portfolio; return metrics need that distinction.

use vstd::prelude::*;
use crate::money::Money;

verus! {

/// The role of an entry in the cashflow of a portfolio or account.
#[derive(Debug, Clone, Copy, PartialEq, Eq)]
pub enum CashflowKind {
    /// Crosses the boundary of the portfolio or account: a contribution or a
    /// withdrawal of the investor.
    External,
    /// Income or gain made inside the portfolio (interest, dividends,
    /// realised capital gain).
    Performance,
    /// Reallocation of capital that neither enters nor leaves the portfolio
    /// and is not income (e.g. buying a stock).
    Neutral,
}

/// Whether the classification reads the OFX specification directly (`High`)
/// or is a heuristic on a transaction type too generic to decide (`Low`).
#[derive(Debug, Clone, Copy, PartialEq, Eq)]
pub enum Confidence {
    High,
    Low,
}

/// A monetary value classified by its role in the cashflow.
#[derive(Debug, Clone, Copy, PartialEq)]
pub struct ClassifiedEvent {
    pub amount: Money,
    pub kind: CashflowKind,
    pub confidence: Confidence,
}

/// `<TRNTYPE>` values of the OFX Banking message set. `Unknown` keeps the raw
/// value of a type outside the specification.
#[derive(Debug, Clone, PartialEq, Eq)]
pub enum BankingTrnType {
    Credit,
    Debit,
    Int,
    Div,
    Fee,
    Srvchg,
    Dep,
    Atm,
    Pos,
    Xfer,
    Check,
    Payment,
    Cash,
    DirectDep,
    DirectDebit,
    RepeatPmt,
    Other,
    Unknown(String),
}

/// The role of a Banking entry: a transfer between the user's own accounts is
/// neutral, interest and dividends are performance, everything else crosses
/// the account's boundary.
pub open spec fn banking_kind(t: BankingTrnType) -> CashflowKind {
    match t {
        BankingTrnType::Xfer => CashflowKind::Neutral,
        BankingTrnType::Int | BankingTrnType::Div => CashflowKind::Performance,
        _ => CashflowKind::External,
    }
}

/// Generic Banking types (`Credit`, `Debit`, `Other`, and types outside the
/// specification) are classified with low confidence.
pub open spec fn banking_confidence(t: BankingTrnType) -> Confidence {
    match t {
        BankingTrnType::Credit | BankingTrnType::Debit | BankingTrnType::Other
        | BankingTrnType::Unknown(_) => Confidence::Low,
        _ => Confidence::High,
    }
}

/// Classifies a Banking entry by its `TRNTYPE`.
pub fn classify_banking(trn_type: &BankingTrnType, amount: Money) -> (r: ClassifiedEvent)
    ensures
        r.amount == amount,
        r.kind == banking_kind(*trn_type),
        r.confidence == banking_confidence(*trn_type),
        r.confidence == Confidence::Low ==> r.kind == CashflowKind::External,
{
    let (kind, confidence) = match trn_type {
        BankingTrnType::Xfer => (CashflowKind::Neutral, Confidence::High),
        BankingTrnType::Int | BankingTrnType::Div => (CashflowKind::Performance, Confidence::High),
        BankingTrnType::Fee | BankingTrnType::Srvchg => (CashflowKind::External, Confidence::High),
        BankingTrnType::Dep
        | BankingTrnType::Atm
        | BankingTrnType::Pos
        | BankingTrnType::Check
        | BankingTrnType::Payment
        | BankingTrnType::Cash
        | BankingTrnType::DirectDep
        | BankingTrnType::DirectDebit
        | BankingTrnType::RepeatPmt => (CashflowKind::External, Confidence::High),
        BankingTrnType::Credit | BankingTrnType::Debit | BankingTrnType::Other => {
            (CashflowKind::External, Confidence::Low)
        },
        BankingTrnType::Unknown(_) => (CashflowKind::External, Confidence::Low),
    };
    ClassifiedEvent { amount, kind, confidence }
}

/// `<INCOMETYPE>` of an `INCOME` entry (OFX Investments message set).
#[derive(Debug, Clone, PartialEq, Eq)]
pub enum IncomeType {
    CapitalGainsShort,
    CapitalGainsLong,
    Dividend,
    Interest,
    Misc,
}

/// `<INVTRAN>` kinds of the OFX Investments message set.
#[derive(Debug, Clone, PartialEq, Eq)]
pub enum InvestmentTranType {
    BuyStock,
    SellStock,
    BuyDebt,
    SellDebt,
    BuyMf,
    SellMf,
    BuyOpt,
    SellOpt,
    BuyOther,
    SellOther,
    Income(IncomeType),
    ReinvestIncome,
    TransferIn,
    TransferOut,
    Split,
    Other,
}

/// The role of an Investments entry: buying, selling and splits reallocate
/// capital (neutral), income is performance (reinvested or not), transfers
/// in and out cross the portfolio's boundary, and so, by default, does
/// `Other`.
pub open spec fn investment_kind(t: InvestmentTranType) -> CashflowKind {
    match t {
        InvestmentTranType::Income(_) | InvestmentTranType::ReinvestIncome => {
            CashflowKind::Performance
        },
        InvestmentTranType::TransferIn | InvestmentTranType::TransferOut
        | InvestmentTranType::Other => CashflowKind::External,
        _ => CashflowKind::Neutral,
    }
}

/// Only `Other` is classified with low confidence.
pub open spec fn investment_confidence(t: InvestmentTranType) -> Confidence {
    match t {
        InvestmentTranType::Other => Confidence::Low,
        _ => Confidence::High,
    }
}

/// Classifies an Investments entry by its `INVTRAN`/`INCOME` kind. Buying a
/// stock is `Neutral`, never `Performance`.
pub fn classify_investment(trn_type: &InvestmentTranType, amount: Money) -> (r: ClassifiedEvent)
    ensures
        r.amount == amount,
        r.kind == investment_kind(*trn_type),
        r.confidence == investment_confidence(*trn_type),
        r.confidence == Confidence::Low ==> r.kind == CashflowKind::External,
{
    let (kind, confidence) = match trn_type {
        InvestmentTranType::BuyStock
        | InvestmentTranType::SellStock
        | InvestmentTranType::BuyDebt
        | InvestmentTranType::SellDebt
        | InvestmentTranType::BuyMf
        | InvestmentTranType::SellMf
        | InvestmentTranType::BuyOpt
        | InvestmentTranType::SellOpt
        | InvestmentTranType::BuyOther
        | InvestmentTranType::SellOther
        | InvestmentTranType::Split => (CashflowKind::Neutral, Confidence::High),
        InvestmentTranType::Income(_) | InvestmentTranType::ReinvestIncome => {
            (CashflowKind::Performance, Confidence::High)
        },
        InvestmentTranType::TransferIn | InvestmentTranType::TransferOut => {
            (CashflowKind::External, Confidence::High)
        },
        InvestmentTranType::Other => (CashflowKind::External, Confidence::Low),
    };
    ClassifiedEvent { amount, kind, confidence }
}

} // verus!
