//! `Metric<V>`: the result of every metric, always with its [`Provenance`]:
//! how many observations went in, which outside inputs were used, and the
//! diagnostics raised automatically about its statistical reliability.

use vstd::prelude::*;
use crate::decimal::Amount;

verus! {

/// Below this sample size [`Provenance::new`] flags low statistical
/// significance.
pub const LOW_SAMPLE_THRESHOLD: usize = 30;

/// A computed value together with its provenance.
#[derive(Debug, Clone, PartialEq)]
pub struct Metric<V> {
    pub value: V,
    pub provenance: Provenance,
}

impl<V> Metric<V> {
    /// A metric from its value and an already built provenance.
    pub fn new(value: V, provenance: Provenance) -> (r: Metric<V>)
        ensures
            r.value == value,
            r.provenance == provenance,
    {
        Metric { value, provenance }
    }
}

/// How many observations a metric used, which outside inputs it consumed,
/// and the diagnostics raised about it.
#[derive(Debug, Clone, PartialEq, Default)]
pub struct Provenance {
    pub sample_size: usize,
    pub external_inputs: Vec<ExternalInput>,
    pub diagnostics: Vec<MetricDiagnostic>,
}

/// The diagnostics that a sample of `n` observations raises: low significance
/// below the threshold, nothing from it on.
pub open spec fn sample_diagnostics(n: usize) -> Seq<MetricDiagnostic> {
    if n < LOW_SAMPLE_THRESHOLD {
        seq![MetricDiagnostic::LowSampleSignificance { sample_size: n }]
    } else {
        seq![]
    }
}

/// `p` is the provenance that [`Provenance::new`] builds for `n` observations.
pub open spec fn fresh_provenance(p: Provenance, n: usize) -> bool {
    &&& p.sample_size == n
    &&& p.external_inputs@ == Seq::<ExternalInput>::empty()
    &&& p.diagnostics@ == sample_diagnostics(n)
}

impl Provenance {
    /// The provenance of a metric over `sample_size` observations; below 30
    /// observations it carries [`MetricDiagnostic::LowSampleSignificance`],
    /// so that no caller has to remember to check.
    pub fn new(sample_size: usize) -> (r: Provenance)
        ensures
            fresh_provenance(r, sample_size),
            sample_size < 30 ==> r.diagnostics@ == (seq![
                MetricDiagnostic::LowSampleSignificance { sample_size: sample_size },
            ]),
            sample_size >= 30 ==> r.diagnostics@.len() == 0,
    {
        let mut diagnostics = Vec::new();
        if sample_size < LOW_SAMPLE_THRESHOLD {
            diagnostics.push(MetricDiagnostic::LowSampleSignificance { sample_size });
        }
        proof {
            if sample_size < LOW_SAMPLE_THRESHOLD {
                assert(diagnostics@ =~= sample_diagnostics(sample_size));
            } else {
                assert(diagnostics@ =~= sample_diagnostics(sample_size));
            }
        }
        Provenance { sample_size, external_inputs: Vec::new(), diagnostics }
    }

    /// Records an outside input that the metric consumed; returns the
    /// provenance for chaining.
    pub fn with_external_input(self, input: ExternalInput) -> (r: Provenance)
        ensures
            r.sample_size == self.sample_size,
            r.external_inputs@ == self.external_inputs@.push(input),
            r.diagnostics@ == self.diagnostics@,
    {
        let mut p = self;
        p.external_inputs.push(input);
        p
    }
}

/// An input that does not come from the data and that a metric consumed.
#[derive(Debug, Clone, PartialEq)]
pub enum ExternalInput {
    /// Risk-free rate used by return and risk metrics (e.g. Sharpe).
    RiskFreeRate(Amount),
    /// Confidence level used by risk metrics (e.g. VaR).
    ConfidenceLevel(Amount),
    /// A named input with no dedicated variant yet.
    Named { name: &'static str, value: String },
}

/// A diagnostic raised automatically about a metric's statistical
/// reliability.
#[derive(Debug, Clone, PartialEq)]
pub enum MetricDiagnostic {
    /// Small sample (`n < 30`): a statistically fragile result.
    LowSampleSignificance { sample_size: usize },
}

/// A provenance built for `n` observations flags low significance exactly
/// when `n` is below 30: it then holds the one diagnostic
/// `LowSampleSignificance` naming `n`, and from 30 observations on it holds
/// no diagnostic. It records the sample size and no outside input.
pub proof fn lemma_low_sample_diagnostic(p: Provenance, n: usize)
    requires
        fresh_provenance(p, n),
    ensures
        p.sample_size == n,
        p.external_inputs@.len() == 0,
        n < 30 ==> p.diagnostics@.len() == 1 && p.diagnostics@[0] == (
        MetricDiagnostic::LowSampleSignificance { sample_size: n }),
        n >= 30 ==> p.diagnostics@.len() == 0,
        p.diagnostics@.contains(MetricDiagnostic::LowSampleSignificance { sample_size: n }) <==> n < 30,
{
    if n < 30 {
        assert(p.diagnostics@[0] == MetricDiagnostic::LowSampleSignificance { sample_size: n });
    }
}

} // verus!
