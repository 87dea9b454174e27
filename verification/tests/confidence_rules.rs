use assured_fusion::confidence::{
    calibration_status, is_degraded, reason_codes, stance_of, BaselineConfidenceScorer, CalibrationBand, OperatorStance,
    ScoreSignals,
};
use assured_fusion::model::{CalibrationStatus, FeedbackVerdict, ReasonCode};

fn single_source() -> ScoreSignals {
    ScoreSignals {
        distinct_sources: 1,
        conflict_count: 0,
        stale: false,
        sensor_degraded: false,
        low_reliability: false,
        calibration: CalibrationBand::NoHistory,
        operator: OperatorStance::Neutral,
        low_score: false,
    }
}

#[test]
fn single_source_raises_single_source_code_first() {
    let codes = reason_codes(&single_source());
    assert_eq!(codes, vec![ReasonCode::SingleSourceOnly]);
}

#[test]
fn corroborated_well_calibrated_track() {
    let s = ScoreSignals { distinct_sources: 3, calibration: CalibrationBand::Good, ..single_source() };
    assert_eq!(reason_codes(&s), vec![ReasonCode::MultiSourceCorroboration, ReasonCode::WellCalibrated]);
    assert_eq!(calibration_status(s.calibration), CalibrationStatus::Calibrated);
    assert!(!is_degraded(&s));
}

#[test]
fn conflicted_degraded_track_raises_codes_in_order() {
    let s = ScoreSignals {
        distinct_sources: 2,
        conflict_count: 3,
        stale: true,
        sensor_degraded: true,
        low_reliability: true,
        calibration: CalibrationBand::Poor,
        operator: OperatorStance::Rejected,
        low_score: true,
    };
    assert_eq!(
        reason_codes(&s),
        vec![
            ReasonCode::MultiSourceCorroboration,
            ReasonCode::StaleContribution,
            ReasonCode::SensorDegraded,
            ReasonCode::ConflictDetected,
            ReasonCode::OperatorRejected,
            ReasonCode::LowSourceReliability,
            ReasonCode::CalibrationDrift,
        ]
    );
    assert!(is_degraded(&s));
    assert_eq!(calibration_status(CalibrationBand::Poor), CalibrationStatus::Uncalibrated);
}

#[test]
fn calibration_bands_map_to_status() {
    assert_eq!(calibration_status(CalibrationBand::NoHistory), CalibrationStatus::Uncalibrated);
    assert_eq!(calibration_status(CalibrationBand::Fair), CalibrationStatus::Drifting);
    assert_eq!(calibration_status(CalibrationBand::Good), CalibrationStatus::Calibrated);
}

#[test]
fn operator_confirmation_is_a_reason_and_conflict_alone_degrades() {
    let s = ScoreSignals { operator: OperatorStance::Confirmed, ..single_source() };
    assert!(reason_codes(&s).contains(&ReasonCode::OperatorConfirmed));
    let s = ScoreSignals { conflict_count: 1, ..single_source() };
    assert!(is_degraded(&s));
    let s = ScoreSignals { operator: OperatorStance::Adjusted, ..single_source() };
    assert_eq!(reason_codes(&s), vec![ReasonCode::SingleSourceOnly]);
}

#[test]
fn scorer_is_named() {
    assert_eq!(BaselineConfidenceScorer::new().name(), "baseline-v0");
}

#[test]
fn verdicts_map_to_operator_stances() {
    assert_eq!(stance_of(FeedbackVerdict::ConfirmTrack), OperatorStance::Confirmed);
    assert_eq!(stance_of(FeedbackVerdict::RejectTrack), OperatorStance::Rejected);
    assert_eq!(stance_of(FeedbackVerdict::AdjustConfidence), OperatorStance::Adjusted);
    assert_eq!(stance_of(FeedbackVerdict::Reclassify), OperatorStance::Neutral);
}
