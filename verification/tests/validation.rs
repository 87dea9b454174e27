use assured_fusion::error::FabricError;
use assured_fusion::ids::{ObservationId, SourceId};
use assured_fusion::model::{MeasurementCheck, Observation, Signature, SourceKind, StateCheck, SCHEMA_VERSION};
use assured_fusion::time::Timestamp;
use assured_fusion::validate::validate;

fn obs() -> Observation {
    Observation {
        schema_version: SCHEMA_VERSION,
        observation_id: ObservationId::seq(1),
        source_id: SourceId::new("radar-a"),
        source_kind: SourceKind::Radar,
        observed_at: Timestamp(1000),
        received_at: Timestamp(1000),
        measurement_confidence: MeasurementCheck { in_unit_range: true, display: "0.8".to_string() },
        state: Some(StateCheck { all_finite: true, sigma_valid: true }),
        provenance_ref: None,
        signature: Signature::unsigned(),
    }
}

fn message(r: Result<(), FabricError>) -> String {
    match r {
        Err(FabricError::Validation(m)) => m,
        Err(FabricError::SignatureInvalid(m)) => format!("signature: {m}"),
        other => panic!("unexpected {other:?}"),
    }
}

#[test]
fn a_well_formed_observation_passes() {
    assert!(validate(&obs()).is_ok());
    let mut o = obs();
    o.state = None;
    assert!(validate(&o).is_ok());
}

#[test]
fn each_check_reports_its_own_error() {
    let mut o = obs();
    o.schema_version = 2;
    assert_eq!(message(validate(&o)), "unsupported schema_version 2 (expected 1)");

    let mut o = obs();
    o.observation_id = ObservationId::new("");
    assert_eq!(message(validate(&o)), "empty observation_id");

    let mut o = obs();
    o.source_id = SourceId::new("");
    assert_eq!(message(validate(&o)), "empty source_id");

    let mut o = obs();
    o.measurement_confidence = MeasurementCheck { in_unit_range: false, display: "1.5".to_string() };
    assert_eq!(message(validate(&o)), "measurement_confidence 1.5 out of [0,1]");

    let mut o = obs();
    o.observed_at = Timestamp(-1);
    assert_eq!(message(validate(&o)), "negative timestamp");

    let mut o = obs();
    o.state = Some(StateCheck { all_finite: false, sigma_valid: true });
    assert_eq!(message(validate(&o)), "non-finite state value");

    let mut o = obs();
    o.state = Some(StateCheck { all_finite: true, sigma_valid: false });
    assert_eq!(message(validate(&o)), "invalid position_sigma_m");

    let mut o = obs();
    o.signature.algorithm = "rsa".to_string();
    assert_eq!(message(validate(&o)), "signature: algorithm rsa");
}

#[test]
fn the_first_failing_check_wins() {
    let mut o = obs();
    o.schema_version = 9;
    o.observation_id = ObservationId::new("");
    o.observed_at = Timestamp(-5);
    assert_eq!(message(validate(&o)), "unsupported schema_version 9 (expected 1)");
}
