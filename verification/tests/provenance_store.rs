use assured_fusion::ids::{ObservationId, ProvenanceId, SourceId, TrackId};
use assured_fusion::model::{Magnitude, ProvenanceOp, ProvenanceRecord, SCHEMA_VERSION};
use assured_fusion::provenance::{InMemoryProvenanceStore, ProvenanceQuery, ProvenanceStore};
use assured_fusion::time::Timestamp;

fn mag(x: f64) -> Magnitude {
    Magnitude(x.to_bits())
}

#[allow(clippy::too_many_arguments)]
fn rec(
    pid: &str,
    ver: u64,
    op: ProvenanceOp,
    before: Option<f64>,
    after: f64,
    prev: Option<&str>,
    obs: &[&str],
    src: &[&str],
) -> ProvenanceRecord {
    ProvenanceRecord {
        schema_version: SCHEMA_VERSION,
        provenance_id: ProvenanceId::new(pid),
        track_id: TrackId::new("trk-1"),
        fused_version: ver,
        created_at: Timestamp(ver as i64),
        operation: op,
        contributing_observations: obs.iter().map(|o| ObservationId::new(o)).collect(),
        contributing_sources: src.iter().map(|s| SourceId::new(s)).collect(),
        confidence_before: before.map(mag),
        confidence_after: mag(after),
        notes: String::new(),
        prev_provenance_id: prev.map(ProvenanceId::new),
    }
}

#[test]
fn append_only_is_enforced_and_queries_answer() {
    let mut store = InMemoryProvenanceStore::new();
    let track = TrackId::new("trk-1");

    store.append(rec("p1", 1, ProvenanceOp::Created, None, 0.6, None, &["o1"], &["s1"])).unwrap();
    store.append(rec("p2", 2, ProvenanceOp::Merged, Some(0.6), 0.7, Some("p1"), &["o2"], &["s2"])).unwrap();
    store.append(rec("p3", 3, ProvenanceOp::ConflictPreserved, Some(0.7), 0.5, Some("p2"), &["o3"], &["s3"])).unwrap();

    // append-only: a duplicate id and a dangling prev link are both rejected.
    assert!(store.append(rec("p1", 9, ProvenanceOp::Updated, None, 0.1, None, &[], &[])).is_err());
    assert!(store.append(rec("p9", 9, ProvenanceOp::Updated, Some(0.5), 0.5, Some("nope"), &[], &[])).is_err());

    // "why does this track exist?" -> the Created record.
    assert_eq!(store.why_does_track_exist(&track).unwrap().provenance_id, ProvenanceId::new("p1"));

    // "which observations contributed?" -> de-duplicated union, in order.
    assert_eq!(
        store.contributing_observations(&track).unwrap(),
        vec![ObservationId::new("o1"), ObservationId::new("o2"), ObservationId::new("o3")]
    );

    // "which source lowered confidence?" -> s3 (0.7 -> 0.5).
    let lowered = store.sources_that_lowered_confidence(&track).unwrap();
    assert_eq!(lowered.len(), 1);
    assert_eq!(lowered[0].sources, vec![SourceId::new("s3")]);
    let delta = f64::from_bits(lowered[0].confidence_after.0) - f64::from_bits(lowered[0].confidence_before.0);
    assert!(delta < 0.0);

    // "what changed since the previous version?" -> v2 -> v3.
    let diff = store.changed_since_previous(&track).unwrap().unwrap();
    assert_eq!((diff.from_version, diff.to_version), (2, 3));
    assert_eq!(diff.added_sources, vec![SourceId::new("s3")]);
}

#[test]
fn rejected_appends_leave_the_store_unchanged() {
    let mut store = InMemoryProvenanceStore::new();
    assert!(store.is_empty());
    store.append(rec("p1", 1, ProvenanceOp::Created, None, 0.6, None, &["o1"], &["s1"])).unwrap();
    assert!(store.append(rec("p1", 2, ProvenanceOp::Merged, Some(0.6), 0.7, Some("p1"), &[], &[])).is_err());
    assert!(store.append(rec("p2", 2, ProvenanceOp::Merged, Some(0.6), 0.7, Some("p0"), &[], &[])).is_err());
    assert_eq!(store.len(), 1);
    assert_eq!(store.all().unwrap().len(), 1);
}

#[test]
fn chain_is_read_oldest_to_newest_by_version() {
    let mut store = InMemoryProvenanceStore::new();
    // stored out of version order
    store.append(rec("p1", 2, ProvenanceOp::Merged, Some(0.6), 0.7, None, &["o2"], &["s2"])).unwrap();
    store.append(rec("p2", 1, ProvenanceOp::Created, None, 0.6, None, &["o1"], &["s1"])).unwrap();
    let chain = store.chain_for_track(&TrackId::new("trk-1")).unwrap();
    let versions: Vec<u64> = chain.iter().map(|r| r.fused_version).collect();
    assert_eq!(versions, vec![1, 2]);
    assert_eq!(chain[0].provenance_id, ProvenanceId::new("p2"));
    let latest = store.latest_for_track(&TrackId::new("trk-1")).unwrap().unwrap();
    assert_eq!(latest.provenance_id, ProvenanceId::new("p1"));
    assert!(store.chain_for_track(&TrackId::new("trk-2")).unwrap().is_empty());
    assert!(store.latest_for_track(&TrackId::new("trk-2")).unwrap().is_none());
}

#[test]
fn lookup_after_append_finds_the_record() {
    let mut store = InMemoryProvenanceStore::new();
    store.append(rec("p1", 1, ProvenanceOp::Created, None, 0.6, None, &["o1"], &["s1"])).unwrap();
    let got = store.get(&ProvenanceId::new("p1")).unwrap().unwrap();
    assert_eq!(got.fused_version, 1);
    assert_eq!(got.operation, ProvenanceOp::Created);
    assert!(store.get(&ProvenanceId::new("p2")).unwrap().is_none());
}

#[test]
fn why_does_track_exist_fails_for_an_unknown_track() {
    let store = InMemoryProvenanceStore::new();
    assert!(store.why_does_track_exist(&TrackId::new("trk-9")).is_err());
    assert!(store.changed_since_previous(&TrackId::new("trk-9")).unwrap().is_none());
}
