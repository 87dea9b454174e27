use assured_fusion::engine::{FusionConfig, FusionOutcome};
use assured_fusion::error::FabricError;
use assured_fusion::ids::{ObservationId, SourceId};
use assured_fusion::model::{Magnitude, MeasurementCheck, Observation, ReplayStatus, Signature, SourceKind, SCHEMA_VERSION};
use assured_fusion::replay::{
    default_true, feedback_order, ConfigSpec, EmitterKind, ReplayHarness, ReplayStep, ReplayTally, Timeline,
};
use assured_fusion::time::Timestamp;

#[test]
fn timeline_ticks_include_both_ends() {
    let t = Timeline { start_ms: 0, end_ms: 1000, step_ms: 250 };
    assert_eq!(t.ticks(), vec![0, 250, 500, 750, 1000]);
    let t = Timeline { start_ms: 0, end_ms: 900, step_ms: 400 };
    assert_eq!(t.ticks(), vec![0, 400, 800]);
}

#[test]
fn non_positive_step_counts_as_one_millisecond() {
    let t = Timeline { start_ms: 5, end_ms: 7, step_ms: 0 };
    assert_eq!(t.ticks(), vec![5, 6, 7]);
    let t = Timeline { start_ms: 5, end_ms: 4, step_ms: -3 };
    assert!(t.ticks().is_empty());
}

#[test]
fn feedback_is_ordered_stably_by_time() {
    assert_eq!(feedback_order(&vec![300, 100, 300, 100, 200]), vec![1, 3, 4, 0, 2]);
    assert!(feedback_order(&vec![]).is_empty());
}

#[test]
fn schedule_interleaves_feedback_after_same_instant_emissions() {
    let h = ReplayHarness::new();
    let t = Timeline { start_ms: 0, end_ms: 200, step_ms: 100 };
    let steps = h.schedule(&t, 2, &vec![150, 100, -5]);
    assert_eq!(
        steps,
        vec![
            ReplayStep::Feedback { index: 2 },
            ReplayStep::Emit { at_ms: 0, emitter: 0 },
            ReplayStep::Emit { at_ms: 0, emitter: 1 },
            ReplayStep::Emit { at_ms: 100, emitter: 0 },
            ReplayStep::Emit { at_ms: 100, emitter: 1 },
            ReplayStep::Feedback { index: 1 },
            ReplayStep::Feedback { index: 0 },
            ReplayStep::Emit { at_ms: 200, emitter: 0 },
            ReplayStep::Emit { at_ms: 200, emitter: 1 },
        ]
    );
    // same inputs, same schedule
    assert_eq!(steps, h.schedule(&t, 2, &vec![150, 100, -5]));
}

#[test]
fn schedule_with_feedback_after_the_timeline() {
    let h = ReplayHarness::default();
    let t = Timeline { start_ms: 0, end_ms: 0, step_ms: 10 };
    let steps = h.schedule(&t, 1, &vec![50]);
    assert_eq!(steps, vec![ReplayStep::Emit { at_ms: 0, emitter: 0 }, ReplayStep::Feedback { index: 0 }]);
}

#[test]
fn config_overrides_replace_only_what_is_given() {
    let h = ReplayHarness::new();
    let c = h.engine_config(&ConfigSpec::default());
    assert_eq!(c.staleness_limit_ms, 5_000);
    assert_eq!(c.confirm_min_sources, 2);
    let spec = ConfigSpec {
        staleness_limit_ms: Some(2_000),
        freshness_horizon_ms: None,
        confirm_min_sources: Some(3),
        confirm_min_observations: None,
        default_calibration_score: Some(Magnitude(0.9f64.to_bits())),
    };
    let c = h.engine_config(&spec);
    assert_eq!(c.staleness_limit_ms, 2_000);
    assert_eq!(c.freshness_horizon_ms, 10_000);
    assert_eq!(c.confirm_min_sources, 3);
    assert_eq!(c.confirm_min_observations, 3);
    assert_eq!(c.default_calibration_score, Magnitude(0.9f64.to_bits()));
    let base = FusionConfig::default();
    assert_eq!(spec.apply(base).default_source_reliability, base.default_source_reliability);
}

#[test]
fn session_record_names_the_scenario() {
    let h = ReplayHarness::new();
    let t = Timeline { start_ms: 100, end_ms: 900, step_ms: 100 };
    let s = h.session("scenario-01", 7, default_true(), &t, 42);
    assert_eq!(s.session_id.as_str(), "ses-scenario-01");
    assert_eq!(s.scenario_name, "scenario-01");
    assert_eq!(s.started_at, Timestamp(100));
    assert_eq!(s.finished_at, Some(Timestamp(900)));
    assert!(s.deterministic);
    assert_eq!(s.seed, 7);
    assert_eq!(s.status, ReplayStatus::Completed);
    assert_eq!(s.event_count, 42);
    assert_eq!(s.schema_version, SCHEMA_VERSION);
}

#[test]
fn backdating_moves_only_the_observation_time() {
    let h = ReplayHarness::new();
    let o = Observation {
        schema_version: SCHEMA_VERSION,
        observation_id: ObservationId::seq(1),
        source_id: SourceId::new("laggy"),
        source_kind: SourceKind::Radar,
        observed_at: Timestamp(10_000),
        received_at: Timestamp(10_000),
        measurement_confidence: MeasurementCheck { in_unit_range: true, display: "0.5".to_string() },
        state: None,
        provenance_ref: None,
        signature: Signature::unsigned(),
    };
    let o = h.backdate(o, 10_000, 6_000);
    assert_eq!(o.observed_at, Timestamp(4_000));
    assert_eq!(o.received_at, Timestamp(10_000));
    let o = h.backdate(o, 10_000, 0);
    assert_eq!(o.observed_at, Timestamp(4_000));
}

fn accepted(yes: bool) -> Result<FusionOutcome, FabricError> {
    Ok(FusionOutcome {
        accepted: yes,
        rejection: None,
        operation: None,
        track: None,
        provenance: None,
        cue: None,
        note: None,
    })
}

#[test]
fn tally_counts_events_acceptances_and_overrides() {
    let mut t = ReplayTally::new();
    t.skip_invalid();
    assert!(t.record_observation(&accepted(true)));
    assert!(t.record_observation(&accepted(false)));
    assert!(t.record_feedback(&accepted(true)));
    assert!(t.record_feedback(&Err(FabricError::NotFound("track trk-9".to_string()))));
    assert_eq!(t, ReplayTally { accepted: 1, operator_overrides: 1, event_count: 5 });
    assert!(!t.record_feedback(&Err(FabricError::Other("boom".to_string()))));
    assert!(!t.record_observation(&Err(FabricError::Io("disk".to_string()))));
    assert_eq!(t.event_count, 7);
}

#[test]
fn emitter_kinds_are_distinct() {
    assert_ne!(EmitterKind::Radar, EmitterKind::Eoir);
    assert_ne!(EmitterKind::EwSigint, EmitterKind::Platform);
}
