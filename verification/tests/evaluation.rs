use assured_fusion::engine::{Association, FusionConfig, FusionEngine, TrackEvidence};
use assured_fusion::ids::{ObservationId, SourceId, TrackId};
use assured_fusion::metrics::{complete_chains, metric_detail, metric_kinds, metric_unit, tally, MetricCounts};
use assured_fusion::model::{
    Magnitude, MeasurementCheck, MetricKind, Observation, Signature, SourceKind, StateCheck, SCHEMA_VERSION,
};
use assured_fusion::time::Timestamp;

fn counts() -> MetricCounts {
    MetricCounts {
        ground_truth_tracks: 3,
        confirmed_tracks: 5,
        confirmation_latencies_ms: vec![100, 300, 200],
        stale_rejections: 7,
        total_conflicts: 4,
        accepted_observations: 40,
        operator_overrides: 2,
    }
}

#[test]
fn tally_gives_numerators_and_nonzero_denominators() {
    let t = tally(&counts());
    assert_eq!(t.latency_sum_ms, 600);
    assert_eq!(t.latency_count, 3);
    assert_eq!(t.false_tracks, 2);
    assert_eq!(t.missed_tracks, 0);
    assert_eq!(t.true_positives, 3);
    assert_eq!(t.confirmed_base, 5);
    assert_eq!(t.ground_truth_base, 3);
    assert_eq!(t.accepted_base, 40);
    // the false-track rate and conflict rate that follow
    assert_eq!(t.false_tracks as f64 / t.confirmed_base as f64, 0.4);
    assert_eq!(4.0 / t.accepted_base as f64, 0.1);
}

#[test]
fn empty_run_has_denominators_of_one() {
    let c = MetricCounts {
        ground_truth_tracks: 2,
        confirmed_tracks: 0,
        confirmation_latencies_ms: vec![],
        stale_rejections: 0,
        total_conflicts: 0,
        accepted_observations: 0,
        operator_overrides: 0,
    };
    let t = tally(&c);
    assert_eq!(t.latency_count, 0);
    assert_eq!(t.latency_sum_ms, 0);
    assert_eq!(t.missed_tracks, 2);
    assert_eq!(t.false_tracks, 0);
    assert_eq!(t.confirmed_base, 1);
    assert_eq!(t.accepted_base, 1);
    assert_eq!(t.missed_tracks as f64 / t.ground_truth_base as f64, 1.0);
}

#[test]
fn eight_metrics_in_report_order_with_units() {
    let kinds = metric_kinds();
    assert_eq!(kinds.len(), 8);
    assert_eq!(kinds[0], MetricKind::TrackConfirmationLatencyMs);
    assert_eq!(kinds[7], MetricKind::ProvenanceCompleteness);
    let units: Vec<&str> = kinds.iter().map(|k| metric_unit(*k)).collect();
    assert_eq!(units, vec!["ms", "ratio", "ratio", "abs_error", "count", "ratio", "ratio", "ratio"]);
}

#[test]
fn metric_details_quote_the_counts() {
    let c = counts();
    assert_eq!(metric_detail(MetricKind::TrackConfirmationLatencyMs, &c).unwrap(), "mean over 3 confirmed track(s)");
    assert_eq!(metric_detail(MetricKind::FalseTrackRate, &c).unwrap(), "2 false / 5 confirmed");
    assert_eq!(metric_detail(MetricKind::MissedTrackRate, &c).unwrap(), "0 missed / 3 ground-truth");
    assert_eq!(metric_detail(MetricKind::ConflictRate, &c).unwrap(), "4 conflicts / 40 accepted obs");
    assert_eq!(metric_detail(MetricKind::OperatorOverrideRate, &c).unwrap(), "2 overrides / 40 accepted obs");
    assert_eq!(
        metric_detail(MetricKind::StaleDataRejectionCount, &c).unwrap(),
        "observations rejected as stale before fusion"
    );
    assert_eq!(
        metric_detail(MetricKind::ProvenanceCompleteness, &c).unwrap(),
        "fraction of tracks with a complete provenance chain"
    );
    assert!(metric_detail(MetricKind::ConfidenceCalibrationError, &c).is_none());
}

fn obs(id: u64, source: &str, t: i64) -> Observation {
    Observation {
        schema_version: SCHEMA_VERSION,
        observation_id: ObservationId::seq(id),
        source_id: SourceId::new(source),
        source_kind: SourceKind::Radar,
        observed_at: Timestamp(t),
        received_at: Timestamp(t),
        measurement_confidence: MeasurementCheck { in_unit_range: true, display: "0.8".to_string() },
        state: Some(StateCheck { all_finite: true, sigma_valid: true }),
        provenance_ref: None,
        signature: Signature::unsigned(),
    }
}

#[test]
fn every_fused_track_is_fully_traceable() {
    let mut eng = FusionEngine::new(FusionConfig::default());
    let score = |_e: &TrackEvidence| Magnitude(0.7f64.to_bits());
    let nearest = |ids: &Vec<TrackId>| match ids.first() {
        Some(id) => Association::Merge { track_id: id.clone(), distance_m: Magnitude(5.0f64.to_bits()) },
        None => Association::New,
    };
    eng.process_observation(obs(1, "radar-a", 1000), nearest, score).unwrap();
    eng.process_observation(obs(2, "eoir-1", 1100), nearest, score).unwrap();
    let fresh = |_ids: &Vec<TrackId>| Association::New;
    eng.process_observation(obs(3, "radar-b", 1200), fresh, score).unwrap();
    let tracks = eng.all_tracks();
    assert_eq!(tracks.len(), 2);
    let complete = complete_chains(eng.provenance(), &tracks).unwrap();
    assert_eq!(complete, tracks.len());
    assert_eq!(complete as f64 / tracks.len() as f64, 1.0);
}
