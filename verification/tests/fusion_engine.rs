use assured_fusion::confidence::{reason_codes, CalibrationBand, OperatorStance, ScoreSignals};
use assured_fusion::engine::{Association, FusionConfig, FusionEngine, RejectionReason, TrackEvidence};
use assured_fusion::ids::{ObservationId, SourceId, TrackId};
use assured_fusion::model::{
    FeedbackVerdict, Magnitude, MeasurementCheck, Observation, OperatorFeedback, ProvenanceOp, ReasonCode,
    Signature, Source, SourceKind, StateCheck, TrackStatus, SCHEMA_VERSION,
};
use assured_fusion::ids::FeedbackId;
use assured_fusion::provenance::ProvenanceStore;
use assured_fusion::time::Timestamp;

fn mag(x: f64) -> Magnitude {
    Magnitude(x.to_bits())
}

fn radar_obs(id: u64, source: &str, t: i64) -> Observation {
    Observation {
        schema_version: SCHEMA_VERSION,
        observation_id: ObservationId::seq(id),
        source_id: SourceId::new(source),
        source_kind: SourceKind::Radar,
        observed_at: Timestamp(t),
        received_at: Timestamp(t),
        measurement_confidence: MeasurementCheck { in_unit_range: true, display: "0.8".to_string() },
        state: Some(StateCheck { all_finite: true, sigma_valid: true }),
        provenance_ref: None,
        signature: Signature::unsigned(),
    }
}

fn start_new(_ids: &Vec<TrackId>) -> Association {
    Association::New
}

/// The nearest-neighbour decision for an observation ten metres from the
/// only live track: inside the merge gate.
fn merge_nearby(ids: &Vec<TrackId>) -> Association {
    match ids.first() {
        Some(id) => Association::Merge { track_id: id.clone(), distance_m: mag(10.0) },
        None => Association::New,
    }
}

fn fixed_score(_ev: &TrackEvidence) -> Magnitude {
    mag(0.8)
}

fn signals(ev: &TrackEvidence) -> ScoreSignals {
    let rel: Vec<f64> = ev.source_reliabilities.iter().map(|m| f64::from_bits(m.0)).collect();
    let mean = if rel.is_empty() { 0.0 } else { rel.iter().sum::<f64>() / rel.len() as f64 };
    ScoreSignals {
        distinct_sources: ev.distinct_sources,
        conflict_count: ev.conflict_count,
        stale: false,
        sensor_degraded: false,
        low_reliability: mean < 0.5,
        calibration: CalibrationBand::NoHistory,
        operator: OperatorStance::Neutral,
        low_score: false,
    }
}

#[test]
fn ingest_creates_track_with_provenance_referencing_source() {
    let mut eng = FusionEngine::new(FusionConfig::default());
    eng.register_source(Source::new(SourceId::new("radar-a"), SourceKind::Radar, "Radar A", mag(0.9), Timestamp(0)));

    let outcome = eng.process_observation(radar_obs(1, "radar-a", 1000), start_new, fixed_score).unwrap();

    assert!(outcome.accepted);
    let track = outcome.track.unwrap();
    // Fused track references its contributing source observation.
    assert_eq!(track.contributing_observations, vec![ObservationId::seq(1)]);
    assert_eq!(track.contributing_sources, vec![SourceId::new("radar-a")]);
    // Provenance record was created and is linked from the track.
    let store = eng.provenance();
    assert_eq!(store.len(), 1);
    let prov = store.get(&track.provenance_ref).unwrap().unwrap();
    assert_eq!(prov.operation, ProvenanceOp::Created);
    // Confidence carries reason codes.
    let ev = eng.track_evidence(&track.track_id, Timestamp(1000)).unwrap();
    assert!(!reason_codes(&signals(&ev)).is_empty());
}

#[test]
fn second_nearby_source_merges_and_confirms() {
    let mut eng = FusionEngine::new(FusionConfig::default());
    let o1 = eng.process_observation(radar_obs(1, "radar-a", 1000), merge_nearby, fixed_score).unwrap();
    let track_id = o1.track.unwrap().track_id;

    let o2 = eng.process_observation(radar_obs(2, "radar-b", 1100), merge_nearby, fixed_score).unwrap();
    let track = o2.track.unwrap();
    assert_eq!(track.track_id, track_id, "should merge into same track");
    assert_eq!(track.status, TrackStatus::Confirmed, "two sources confirm");
    assert_eq!(track.contributing_sources.len(), 2);
}

#[test]
fn stale_observation_is_rejected() {
    let mut eng = FusionEngine::new(FusionConfig::default());
    // observed long before received -> stale.
    let mut obs = radar_obs(1, "radar-a", 0);
    obs.received_at = Timestamp(1_000_000);
    let outcome = eng.process_observation(obs, start_new, fixed_score).unwrap();
    assert!(!outcome.accepted);
    assert!(matches!(outcome.rejection, Some(RejectionReason::Stale { .. })));
    assert_eq!(eng.stale_rejections(), 1);
}

#[test]
fn stale_rejection_reports_age_and_limit() {
    let mut eng = FusionEngine::new(FusionConfig::default());
    let mut obs = radar_obs(1, "radar-a", 1000);
    obs.received_at = Timestamp(7001);
    let outcome = eng.process_observation(obs, start_new, fixed_score).unwrap();
    assert_eq!(outcome.rejection, Some(RejectionReason::Stale { age_ms: 6001, limit_ms: 5000 }));
    assert!(eng.all_tracks().is_empty());
    assert_eq!(eng.provenance().len(), 0);
}

#[test]
fn bad_signature_is_rejected_without_effect() {
    let mut eng = FusionEngine::new(FusionConfig::default());
    let mut obs = radar_obs(1, "radar-a", 1000);
    obs.signature.algorithm = "ed25519".to_string();
    let outcome = eng.process_observation(obs, start_new, fixed_score).unwrap();
    assert!(!outcome.accepted);
    assert_eq!(outcome.rejection, Some(RejectionReason::SignatureInvalid));
    assert!(eng.list_sources().is_empty());
}

#[test]
fn unknown_source_is_registered_on_first_sighting() {
    let mut eng = FusionEngine::new(FusionConfig::default());
    eng.process_observation(radar_obs(1, "radar-z", 1000), start_new, fixed_score).unwrap();
    let sources = eng.list_sources();
    assert_eq!(sources.len(), 1);
    assert_eq!(sources[0].source_id, SourceId::new("radar-z"));
    assert_eq!(sources[0].reliability, mag(0.5));
}

#[test]
fn non_kinematic_observation_is_recorded_for_audit_only() {
    let mut eng = FusionEngine::new(FusionConfig::default());
    let mut obs = radar_obs(1, "ew-1", 1000);
    obs.state = None;
    let outcome = eng.process_observation(obs, start_new, fixed_score).unwrap();
    assert!(outcome.accepted);
    assert!(outcome.track.is_none());
    assert_eq!(outcome.note.as_deref(), Some("non-kinematic observation recorded for audit only"));
    assert!(eng.all_tracks().is_empty());
}

#[test]
fn conflicts_are_preserved_on_the_track() {
    let mut eng = FusionEngine::new(FusionConfig::default());
    let o1 = eng.process_observation(radar_obs(1, "radar-a", 1000), start_new, fixed_score).unwrap();
    let tid = o1.track.unwrap().track_id;
    let conflict = |ids: &Vec<TrackId>| Association::Conflict { track_id: ids[0].clone(), divergence_m: mag(400.0) };
    let o2 = eng.process_observation(radar_obs(2, "radar-b", 1100), conflict, fixed_score).unwrap();
    assert_eq!(o2.operation, Some(ProvenanceOp::ConflictPreserved));
    let track = eng.get_track(&tid).unwrap();
    assert_eq!(track.conflicts.len(), 1);
    assert_eq!(track.conflicts[0].observation_id, ObservationId::seq(2));
    // the conflicting observation does not support the track
    assert_eq!(track.contributing_observations, vec![ObservationId::seq(1)]);
    let cue = o2.cue.unwrap();
    assert_eq!(cue.message, "1 conflicting observation(s) preserved on this track");
    // and the log grew by one record per change
    assert_eq!(eng.provenance().len(), 2);
}

#[test]
fn merge_into_unknown_track_is_not_found() {
    let mut eng = FusionEngine::new(FusionConfig::default());
    let ghost_merge = |_ids: &Vec<TrackId>| Association::Merge { track_id: TrackId::new("trk-999999"), distance_m: mag(1.0) };
    let res = eng.process_observation(radar_obs(1, "radar-a", 1000), ghost_merge, fixed_score);
    assert!(res.is_err());
    assert!(eng.all_tracks().is_empty());
}

#[test]
fn operator_rejection_drops_the_track_and_is_audited() {
    let mut eng = FusionEngine::new(FusionConfig::default());
    let o1 = eng.process_observation(radar_obs(1, "radar-a", 1000), start_new, fixed_score).unwrap();
    let tid = o1.track.unwrap().track_id;
    let fb = OperatorFeedback {
        schema_version: SCHEMA_VERSION,
        feedback_id: FeedbackId::seq(1),
        track_id: tid.clone(),
        operator_id: "op-1".to_string(),
        submitted_at: Timestamp(2000),
        verdict: FeedbackVerdict::RejectTrack,
        note: String::new(),
    };
    let out = eng.apply_operator_feedback(fb, fixed_score).unwrap();
    assert_eq!(out.operation, Some(ProvenanceOp::OperatorOverride));
    let track = eng.get_track(&tid).unwrap();
    assert_eq!(track.status, TrackStatus::Dropped);
    assert_eq!(track.version, 2);
    let rec = out.provenance.unwrap();
    assert_eq!(rec.notes, "operator op-1 verdict RejectTrack");
    assert_eq!(eng.live_track_ids().len(), 0);
}

#[test]
fn feedback_on_unknown_track_is_not_found() {
    let mut eng = FusionEngine::new(FusionConfig::default());
    let fb = OperatorFeedback {
        schema_version: SCHEMA_VERSION,
        feedback_id: FeedbackId::seq(1),
        track_id: TrackId::new("trk-000042"),
        operator_id: "op-1".to_string(),
        submitted_at: Timestamp(2000),
        verdict: FeedbackVerdict::ConfirmTrack,
        note: String::new(),
    };
    match eng.apply_operator_feedback(fb, fixed_score) {
        Err(e) => assert!(format!("{e:?}").contains("track trk-000042")),
        Ok(_) => panic!("feedback on an unknown track must fail"),
    }
}

#[test]
fn tracks_are_listed_by_identifier_and_numbered() {
    let mut eng = FusionEngine::new(FusionConfig::default());
    eng.process_observation(radar_obs(1, "radar-a", 1000), start_new, fixed_score).unwrap();
    eng.process_observation(radar_obs(2, "radar-b", 1000), start_new, fixed_score).unwrap();
    let ids: Vec<String> = eng.all_tracks().iter().map(|t| t.track_id.as_str().to_string()).collect();
    assert_eq!(ids, vec!["trk-000001".to_string(), "trk-000002".to_string()]);
}

#[test]
fn confirmation_latency_runs_from_first_observation() {
    let mut eng = FusionEngine::new(FusionConfig::default());
    let o1 = eng.process_observation(radar_obs(1, "radar-a", 1000), merge_nearby, fixed_score).unwrap();
    let tid = o1.track.unwrap().track_id;
    assert_eq!(eng.confirmation_latency_ms(&tid), None);
    eng.process_observation(radar_obs(2, "radar-b", 1400), merge_nearby, fixed_score).unwrap();
    assert_eq!(eng.confirmation_latency_ms(&tid), Some(400));
}

#[test]
fn every_track_chain_starts_with_creation() {
    let mut eng = FusionEngine::new(FusionConfig::default());
    eng.process_observation(radar_obs(1, "radar-a", 1000), merge_nearby, fixed_score).unwrap();
    eng.process_observation(radar_obs(2, "radar-b", 1100), merge_nearby, fixed_score).unwrap();
    for t in eng.all_tracks() {
        let chain = eng.provenance().chain_for_track(&t.track_id).unwrap();
        assert_eq!(chain[0].operation, ProvenanceOp::Created);
        assert!(chain[0].prev_provenance_id.is_none());
        for k in 1..chain.len() {
            assert_eq!(chain[k].prev_provenance_id.as_ref(), Some(&chain[k - 1].provenance_id));
        }
        assert_eq!(chain.last().unwrap().provenance_id, t.provenance_ref);
    }
    let ev = eng.track_evidence(&TrackId::new("trk-000001"), Timestamp(1100)).unwrap();
    assert!(reason_codes(&signals(&ev)).contains(&ReasonCode::MultiSourceCorroboration));
}

#[test]
fn source_reliability_is_clamped_into_the_unit_interval() {
    let high = Source::new(SourceId::new("radar-a"), SourceKind::Radar, "Radar A", mag(1.5), Timestamp(0));
    assert_eq!(high.reliability, mag(1.0));
    let low = Source::new(SourceId::new("radar-b"), SourceKind::Radar, "Radar B", mag(-0.5), Timestamp(0));
    assert_eq!(low.reliability, mag(0.0));
    let mid = Source::new(SourceId::new("radar-c"), SourceKind::Radar, "Radar C", mag(0.7), Timestamp(0));
    assert_eq!(mid.reliability, mag(0.7));
    assert_eq!(high.source_id, SourceId::new("radar-a"));
    assert_eq!(high.registered_at, Timestamp(0));
}

#[test]
fn bad_signature_with_extreme_timestamps_is_rejected() {
    let mut eng = FusionEngine::new(FusionConfig::default());
    let mut obs = radar_obs(1, "radar-a", i64::MIN);
    obs.received_at = Timestamp(i64::MAX);
    obs.signature.algorithm = "ed25519".to_string();
    let outcome = eng.process_observation(obs, start_new, fixed_score).unwrap();
    assert_eq!(outcome.rejection, Some(RejectionReason::SignatureInvalid));
    assert!(outcome.track.is_none());
    assert_eq!(eng.stale_rejections(), 0);
    assert!(eng.all_tracks().is_empty());
    assert_eq!(eng.provenance().len(), 0);
}

#[test]
fn stale_rejection_changes_nothing_else() {
    let mut eng = FusionEngine::new(FusionConfig::default());
    let mut obs = radar_obs(1, "radar-a", 0);
    obs.received_at = Timestamp(1_000_000);
    let outcome = eng.process_observation(obs, start_new, fixed_score).unwrap();
    assert_eq!(outcome.rejection, Some(RejectionReason::Stale { age_ms: 1_000_000, limit_ms: 5_000 }));
    assert!(eng.all_tracks().is_empty());
    assert!(eng.list_sources().is_empty());
    assert_eq!(eng.provenance().len(), 0);
}

#[test]
fn merge_links_its_record_to_the_previous_one() {
    let mut eng = FusionEngine::new(FusionConfig::default());
    let o1 = eng.process_observation(radar_obs(1, "radar-a", 1000), merge_nearby, fixed_score).unwrap();
    let first = o1.track.unwrap();
    let o2 = eng.process_observation(radar_obs(2, "radar-b", 1100), merge_nearby, fixed_score).unwrap();
    assert_eq!(o2.operation, Some(ProvenanceOp::Merged));
    let track = o2.track.unwrap();
    let rec = o2.provenance.unwrap();
    assert_eq!(track.version, 2);
    assert_eq!(rec.fused_version, 2);
    assert_eq!(rec.prev_provenance_id, Some(first.provenance_ref.clone()));
    assert_eq!(rec.contributing_observations, vec![ObservationId::seq(2)]);
    assert_eq!(track.provenance_ref, rec.provenance_id);
    assert_eq!(eng.provenance().len(), 2);
}

#[test]
fn operator_override_links_to_the_track_reference() {
    let mut eng = FusionEngine::new(FusionConfig::default());
    let o1 = eng.process_observation(radar_obs(1, "radar-a", 1000), start_new, fixed_score).unwrap();
    let before = o1.track.unwrap();
    let fb = OperatorFeedback {
        schema_version: SCHEMA_VERSION,
        feedback_id: FeedbackId::seq(1),
        track_id: before.track_id.clone(),
        operator_id: "op-1".to_string(),
        submitted_at: Timestamp(2000),
        verdict: FeedbackVerdict::ConfirmTrack,
        note: String::new(),
    };
    let out = eng.apply_operator_feedback(fb, fixed_score).unwrap();
    let rec = out.provenance.unwrap();
    let track = out.track.unwrap();
    assert_eq!(rec.prev_provenance_id, Some(before.provenance_ref.clone()));
    assert_eq!(rec.fused_version, before.version + 1);
    assert_eq!(track.version, before.version + 1);
    assert!(rec.contributing_observations.is_empty());
    assert_eq!(track.conflicts.len(), before.conflicts.len());
}

#[test]
fn conflicts_survive_later_calls() {
    let mut eng = FusionEngine::new(FusionConfig::default());
    let o1 = eng.process_observation(radar_obs(1, "radar-a", 1000), start_new, fixed_score).unwrap();
    let tid = o1.track.unwrap().track_id;
    let conflict = |ids: &Vec<TrackId>| Association::Conflict { track_id: ids[0].clone(), divergence_m: mag(400.0) };
    eng.process_observation(radar_obs(2, "radar-b", 1100), conflict, fixed_score).unwrap();
    eng.process_observation(radar_obs(3, "radar-c", 1200), merge_nearby, fixed_score).unwrap();
    let fb = OperatorFeedback {
        schema_version: SCHEMA_VERSION,
        feedback_id: FeedbackId::seq(1),
        track_id: tid.clone(),
        operator_id: "op-1".to_string(),
        submitted_at: Timestamp(2000),
        verdict: FeedbackVerdict::RejectTrack,
        note: String::new(),
    };
    eng.apply_operator_feedback(fb, fixed_score).unwrap();
    let track = eng.get_track(&tid).unwrap();
    assert_eq!(track.conflicts.len(), 1);
    assert_eq!(track.conflicts[0].observation_id, ObservationId::seq(2));
}

#[test]
fn listing_ascends_and_agrees_with_lookup() {
    let mut eng = FusionEngine::new(FusionConfig::default());
    for k in 1..=3u64 {
        eng.process_observation(radar_obs(k, "radar-a", 1000), start_new, fixed_score).unwrap();
    }
    let listed = eng.all_tracks();
    assert_eq!(listed.len(), 3);
    for w in listed.windows(2) {
        assert!(w[0].track_id.as_str() < w[1].track_id.as_str());
    }
    for t in &listed {
        let found = eng.get_track(&t.track_id).unwrap();
        assert_eq!(found.track_id, t.track_id);
        assert_eq!(found.version, t.version);
        assert_eq!(found.provenance_ref, t.provenance_ref);
        assert_eq!(found.contributing_observations, t.contributing_observations);
    }
}

#[test]
fn run_counts_come_from_the_listed_tracks() {
    let mut eng = FusionEngine::new(FusionConfig::default());
    eng.process_observation(radar_obs(1, "radar-a", 1000), merge_nearby, fixed_score).unwrap();
    eng.process_observation(radar_obs(2, "radar-b", 1400), merge_nearby, fixed_score).unwrap();
    let conflict = |ids: &Vec<TrackId>| Association::Conflict { track_id: ids[0].clone(), divergence_m: mag(400.0) };
    eng.process_observation(radar_obs(3, "radar-c", 1500), conflict, fixed_score).unwrap();
    let mut stale = radar_obs(4, "radar-a", 0);
    stale.received_at = Timestamp(1_000_000);
    eng.process_observation(stale, start_new, fixed_score).unwrap();
    assert!(eng.counts_fit());
    let c = eng.metric_counts(2, 3, 0);
    assert_eq!(c.ground_truth_tracks, 2);
    assert_eq!(c.confirmed_tracks, 1);
    assert_eq!(c.confirmation_latencies_ms, vec![400]);
    assert_eq!(c.stale_rejections, 1);
    assert_eq!(c.total_conflicts, 1);
    assert_eq!(c.accepted_observations, 3);
    assert_eq!(c.operator_overrides, 0);
}

fn run_script(eng: &mut FusionEngine) -> Vec<(Option<String>, Option<String>, u64, Option<ProvenanceOp>)> {
    let mut out = Vec::new();
    eng.register_source(Source::new(SourceId::new("radar-a"), SourceKind::Radar, "Radar A", mag(0.9), Timestamp(0)));
    for (k, src, t) in [(1u64, "radar-a", 1000i64), (2, "radar-b", 1100), (3, "radar-c", 1200)] {
        let o = eng.process_observation(radar_obs(k, src, t), merge_nearby, fixed_score).unwrap();
        let track = o.track.as_ref().map(|x| x.track_id.as_str().to_string());
        let prov = o.provenance.as_ref().map(|p| p.provenance_id.as_str().to_string());
        let version = o.track.as_ref().map(|x| x.version).unwrap_or(0);
        out.push((track, prov, version, o.operation));
    }
    out
}

#[test]
fn same_calls_give_same_results_and_identifiers() {
    let mut e1 = FusionEngine::new(FusionConfig::default());
    let mut e2 = FusionEngine::new(FusionConfig::default());
    let r1 = run_script(&mut e1);
    let r2 = run_script(&mut e2);
    assert_eq!(r1, r2);
    assert_eq!(r1[0].0.as_deref(), Some("trk-000001"));
    assert_eq!(r1[0].1.as_deref(), Some("prv-000001"));
    assert_eq!(r1[2].1.as_deref(), Some("prv-000003"));
    let l1: Vec<String> = e1.all_tracks().iter().map(|t| t.track_id.as_str().to_string()).collect();
    let l2: Vec<String> = e2.all_tracks().iter().map(|t| t.track_id.as_str().to_string()).collect();
    assert_eq!(l1, l2);
    assert_eq!(e1.provenance().len(), e2.provenance().len());
}

#[test]
fn dropped_track_is_not_merged_again() {
    let mut eng = FusionEngine::new(FusionConfig::default());
    let o1 = eng.process_observation(radar_obs(1, "radar-a", 1000), merge_nearby, fixed_score).unwrap();
    let tid = o1.track.unwrap().track_id;
    let fb = OperatorFeedback {
        schema_version: SCHEMA_VERSION,
        feedback_id: FeedbackId::seq(1),
        track_id: tid.clone(),
        operator_id: "op-1".to_string(),
        submitted_at: Timestamp(1500),
        verdict: FeedbackVerdict::RejectTrack,
        note: String::new(),
    };
    eng.apply_operator_feedback(fb, fixed_score).unwrap();
    let o2 = eng.process_observation(radar_obs(2, "radar-b", 1600), merge_nearby, fixed_score).unwrap();
    assert_eq!(o2.operation, Some(ProvenanceOp::Created));
    assert_ne!(o2.track.unwrap().track_id, tid);
    let dropped = eng.get_track(&tid).unwrap();
    assert_eq!(dropped.status, TrackStatus::Dropped);
    assert_eq!(dropped.version, 2);
    assert_eq!(dropped.contributing_observations, vec![ObservationId::seq(1)]);
}

#[test]
fn registered_source_is_listed_once_and_kept() {
    let mut eng = FusionEngine::new(FusionConfig::default());
    eng.register_source(Source::new(SourceId::new("radar-b"), SourceKind::Radar, "Radar B", mag(0.4), Timestamp(0)));
    eng.register_source(Source::new(SourceId::new("radar-a"), SourceKind::Radar, "Old A", mag(0.2), Timestamp(0)));
    eng.register_source(Source::new(SourceId::new("radar-a"), SourceKind::Radar, "Radar A", mag(0.9), Timestamp(5)));
    eng.process_observation(radar_obs(1, "radar-a", 1000), start_new, fixed_score).unwrap();
    eng.process_observation(radar_obs(2, "radar-c", 1000), start_new, fixed_score).unwrap();
    let listed = eng.list_sources();
    let ids: Vec<String> = listed.iter().map(|s| s.source_id.as_str().to_string()).collect();
    assert_eq!(ids, vec!["radar-a".to_string(), "radar-b".to_string(), "radar-c".to_string()]);
    assert_eq!(listed[0].name, "Radar A");
    assert_eq!(listed[0].reliability, mag(0.9));
    assert_eq!(listed[0].registered_at, Timestamp(5));
    assert_eq!(listed[2].name, "radar-c");
    assert_eq!(listed[2].reliability, mag(0.5));
}
