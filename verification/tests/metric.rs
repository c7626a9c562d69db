use raptor_domain::decimal::Amount;
use raptor_domain::metric::{ExternalInput, Metric, MetricDiagnostic, Provenance};

#[test]
fn amostra_pequena_gera_diagnostic_automatico() {
    let provenance = Provenance::new(10);
    assert_eq!(provenance.sample_size, 10);
    assert_eq!(
        provenance.diagnostics,
        vec![MetricDiagnostic::LowSampleSignificance { sample_size: 10 }]
    );
}

#[test]
fn amostra_no_limiar_nao_gera_diagnostic() {
    assert!(Provenance::new(30).diagnostics.is_empty());
}

#[test]
fn amostra_grande_nao_gera_diagnostic() {
    assert!(Provenance::new(365).diagnostics.is_empty());
}

#[test]
fn with_external_input_acumula_entradas() {
    let provenance = Provenance::new(100)
        .with_external_input(ExternalInput::RiskFreeRate(Amount::new(5, 2)))
        .with_external_input(ExternalInput::ConfidenceLevel(Amount::new(95, 2)));

    assert_eq!(provenance.external_inputs.len(), 2);
    assert_eq!(provenance.external_inputs[0], ExternalInput::RiskFreeRate(Amount::new(5, 2)));
}

#[test]
fn metric_carrega_valor_e_provenance_juntos() {
    let m = Metric::new(Amount::new(150, 2), Provenance::new(40));
    assert_eq!(m.value, Amount::new(150, 2));
    assert_eq!(m.provenance.sample_size, 40);
}

#[test]
fn metric_doc_examples() {
    let m = Metric::new(42, Provenance::new(50));
    assert_eq!(m.value, 42);
    assert!(m.provenance.diagnostics.is_empty());
    let small = Provenance::new(5);
    assert_eq!(small.diagnostics, vec![MetricDiagnostic::LowSampleSignificance { sample_size: 5 }]);
    assert!(Provenance::new(29).diagnostics.len() == 1);
    assert!(Provenance::new(0).external_inputs.is_empty());
}

#[test]
fn with_external_input_keeps_sample_and_diagnostics() {
    let p = Provenance::new(3).with_external_input(ExternalInput::Named {
        name: "horizon",
        value: "252".to_string(),
    });
    assert_eq!(p.sample_size, 3);
    assert_eq!(p.diagnostics, vec![MetricDiagnostic::LowSampleSignificance { sample_size: 3 }]);
    assert_eq!(
        p.external_inputs,
        vec![ExternalInput::Named { name: "horizon", value: "252".to_string() }]
    );
}
