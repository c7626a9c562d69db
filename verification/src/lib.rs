//! Domain core of a personal-finance toolkit: exact money with a mandatory
//! currency, cashflow classification of statement entries, deduplication and
//! consolidation of re-imported statements, and predictive metrics with
//! provenance.

pub mod cashflow;
pub mod consolidation;
pub mod date;
pub mod decimal;
pub mod dedupe;
pub mod metric;
pub mod money;
pub mod predictive;
