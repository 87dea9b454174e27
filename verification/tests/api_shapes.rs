use assured_fusion::api::{
    explain_track, feedback_id_at, stamp_received, status_code, HealthResponse, ReadyResponse, ReplayStartRequest,
};
use assured_fusion::provenance::InMemoryProvenanceStore;
use assured_fusion::engine::{Association, FusionConfig, FusionEngine, TrackEvidence};
use assured_fusion::error::FabricError;
use assured_fusion::ids::{ObservationId, SourceId, TrackId};
use assured_fusion::model::{Magnitude, MeasurementCheck, Observation, Signature, SourceKind, StateCheck, SCHEMA_VERSION};
use assured_fusion::time::Timestamp;

#[test]
fn health_reports_ok_and_schema() {
    let h = HealthResponse::ok("0.1.0", 1234);
    assert_eq!(h.status, "ok");
    assert_eq!(h.version, "0.1.0");
    assert_eq!(h.schema_version, SCHEMA_VERSION);
    assert_eq!(h.uptime_ms, 1234);
}

#[test]
fn ready_counts_the_engine_tracks() {
    let mut eng = FusionEngine::new(FusionConfig::default());
    assert_eq!(ReadyResponse::for_engine(&eng), ReadyResponse { ready: true, tracks: 0 });
    let o = Observation {
        schema_version: SCHEMA_VERSION,
        observation_id: ObservationId::seq(1),
        source_id: SourceId::new("radar-a"),
        source_kind: SourceKind::Radar,
        observed_at: Timestamp(10),
        received_at: Timestamp(10),
        measurement_confidence: MeasurementCheck { in_unit_range: true, display: "0.9".to_string() },
        state: Some(StateCheck { all_finite: true, sigma_valid: true }),
        provenance_ref: None,
        signature: Signature::unsigned(),
    };
    eng.process_observation(o, |_ids: &Vec<TrackId>| Association::New, |_e: &TrackEvidence| Magnitude(0)).unwrap();
    assert_eq!(ReadyResponse::for_engine(&eng).tracks, 1);
}

#[test]
fn replay_request_names_the_scenario_file() {
    let r = ReplayStartRequest { scenario: "scenario-01".to_string() };
    assert_eq!(r.file_name(), "scenario-01.json");
}

#[test]
fn feedback_ids_carry_the_submission_time() {
    assert_eq!(feedback_id_at(Timestamp(1_700_000_000_000)).as_str(), "fbk-1700000000000");
    assert_eq!(feedback_id_at(Timestamp(-12)).as_str(), "fbk--12");
}

#[test]
fn failures_map_to_http_statuses() {
    assert_eq!(status_code(&FabricError::Validation("x".to_string())), 400);
    assert_eq!(status_code(&FabricError::StaleObservation { age_ms: 9, limit_ms: 1 }), 422);
    assert_eq!(status_code(&FabricError::RateLimited { source_id: "s".to_string() }), 429);
    assert_eq!(status_code(&FabricError::NotFound("t".to_string())), 404);
    assert_eq!(status_code(&FabricError::SignatureInvalid("a".to_string())), 401);
    assert_eq!(status_code(&FabricError::ProvenanceBroken("p".to_string())), 500);
    assert_eq!(status_code(&FabricError::Io("io".to_string())), 500);
}

fn radar(id: u64, source: &str, t: i64) -> Observation {
    Observation {
        schema_version: SCHEMA_VERSION,
        observation_id: ObservationId::seq(id),
        source_id: SourceId::new(source),
        source_kind: SourceKind::Radar,
        observed_at: Timestamp(t),
        received_at: Timestamp(t),
        measurement_confidence: MeasurementCheck { in_unit_range: true, display: "0.9".to_string() },
        state: Some(StateCheck { all_finite: true, sigma_valid: true }),
        provenance_ref: None,
        signature: Signature::unsigned(),
    }
}

#[test]
fn receive_time_is_stamped_only_when_missing() {
    let mut o = radar(1, "radar-a", 500);
    o.received_at = Timestamp(0);
    assert_eq!(stamp_received(o, Timestamp(900)).received_at, Timestamp(900));
    assert_eq!(stamp_received(radar(2, "radar-a", 500), Timestamp(900)).received_at, Timestamp(500));
}

#[test]
fn provenance_answer_for_a_fused_track() {
    let mut eng = FusionEngine::new(FusionConfig::default());
    let merge = |ids: &Vec<TrackId>| match ids.first() {
        Some(id) => Association::Merge { track_id: id.clone(), distance_m: Magnitude(3.0f64.to_bits()) },
        None => Association::New,
    };
    eng.process_observation(radar(1, "radar-a", 100), merge, |_e: &TrackEvidence| Magnitude(0.6f64.to_bits())).unwrap();
    eng.process_observation(radar(2, "radar-b", 200), merge, |_e: &TrackEvidence| Magnitude(0.4f64.to_bits())).unwrap();
    let tid = TrackId::new("trk-000001");
    let a = explain_track(eng.provenance(), &tid).unwrap();
    assert_eq!(a.chain.len(), 2);
    assert_eq!(a.why_exists.provenance_id.as_str(), "prv-000001");
    assert_eq!(a.contributing_observations, vec![ObservationId::seq(1), ObservationId::seq(2)]);
    let d = a.changed_since_previous.unwrap();
    assert_eq!((d.from_version, d.to_version), (1, 2));
    assert_eq!(a.sources_that_lowered_confidence.len(), 1);
    assert_eq!(a.sources_that_lowered_confidence[0].sources, vec![SourceId::new("radar-b")]);
}

#[test]
fn provenance_answer_for_an_unknown_track_is_not_found() {
    let store = InMemoryProvenanceStore::new();
    match explain_track(&store, &TrackId::new("trk-000777")) {
        Err(FabricError::NotFound(m)) => assert_eq!(m, "no provenance for track trk-000777"),
        _ => panic!("expected not found"),
    }
}
