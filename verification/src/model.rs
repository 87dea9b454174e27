//! The canonical objects of the fabric.
//!
//! Real quantities (confidence scores, reliability priors, health scores,
//! distances) are carried as [`Magnitude`]s: the bit pattern of a
//! non-negative double, whose integer order is the numeric order. The library
//! only compares and copies them; all arithmetic on them happens in the
//! scoring and gating code outside it.

use vstd::prelude::*;
use vstd::string::*;

use crate::ids::{CueId, ObservationId, ProvenanceId, SessionId, SourceId, TrackId};
use crate::time::Timestamp;

verus! {

/// Current schema version stamped onto every canonical object.
pub const SCHEMA_VERSION: u32 = 1;

/// A non-negative real quantity carried as the IEEE-754 bit pattern of its
/// `f64` value. For non-negative doubles, `a < b` exactly when
/// `a.to_bits() < b.to_bits()`, so comparing magnitudes compares values.
#[derive(Debug, Clone, Copy, PartialEq, Eq, Structural, Hash)]
pub struct Magnitude(pub u64);

impl Magnitude {
    /// The magnitude `0.0`.
    pub open spec fn zero() -> Magnitude {
        Magnitude(0)
    }

    /// The magnitude `0.5`.
    pub open spec fn half() -> Magnitude {
        Magnitude(0x3FE0_0000_0000_0000)
    }

    /// The magnitude `1.0`.
    pub open spec fn one() -> Magnitude {
        Magnitude(0x3FF0_0000_0000_0000)
    }

    pub fn less_than(self, other: Magnitude) -> (lt: bool)
        ensures
            lt == (self.0 < other.0),
    {
        self.0 < other.0
    }
}

/// Placeholder for a signed-event envelope.
///
/// Every event is "signed" with the `none-v0` algorithm and verification of
/// that algorithm always succeeds; any other algorithm fails closed.
#[derive(Debug)]
pub struct Signature {
    pub algorithm: String,
    pub key_id: String,
    /// Hex-encoded signature bytes. Empty for `none-v0`.
    pub value: String,
}

impl Signature {
    pub fn unsigned() -> (s: Signature)
        ensures
            s.algorithm@ == "none-v0"@,
            s.key_id@ == "unsigned"@,
            s.value@ == Seq::<char>::empty(),
    {
        Signature {
            algorithm: String::from_str("none-v0"),
            key_id: String::from_str("unsigned"),
            value: String::new(),
        }
    }

    /// The placeholder algorithm always verifies; every other algorithm fails
    /// closed.
    pub fn verify(&self, payload: &[u8]) -> (ok: bool)
        ensures
            ok == (self.algorithm@ == "none-v0"@),
    {
        let expected = String::from_str("none-v0");
        self.algorithm == expected
    }
}

impl Clone for Signature {
    fn clone(&self) -> (s: Self)
        ensures
            s == *self,
    {
        Signature {
            algorithm: self.algorithm.clone(),
            key_id: self.key_id.clone(),
            value: self.value.clone(),
        }
    }
}

impl Default for Signature {
    fn default() -> (s: Signature)
        ensures
            s.algorithm@ == "none-v0"@,
            s.key_id@ == "unsigned"@,
            s.value@ == Seq::<char>::empty(),
    {
        Signature::unsigned()
    }
}

#[derive(Debug, Clone, Copy, PartialEq, Eq, Structural, Hash)]
pub enum SourceKind {
    /// Radar-like track observations.
    Radar,
    /// EO/IR-like detections.
    EoIr,
    /// EW/SIGINT-like emitter observations.
    EwSigint,
    /// Platform state / PNT-like telemetry.
    Platform,
    /// Human feedback / operator console.
    Operator,
}

#[derive(Debug, Clone, Copy, PartialEq, Eq, Structural, Hash)]
pub enum HealthStatus {
    Nominal,
    Degraded,
    Faulted,
    Offline,
}

#[derive(Debug, Clone, Copy, PartialEq, Eq, Structural, Hash)]
pub enum ProvenanceOp {
    /// A new track hypothesis was created.
    Created,
    /// An observation was merged into an existing track.
    Merged,
    /// The track was re-scored or re-stated without new observations.
    Updated,
    /// A conflicting observation was preserved rather than merged.
    ConflictPreserved,
    /// Operator feedback altered the track.
    OperatorOverride,
}

/// The name of a provenance operation as it appears in record notes.
pub open spec fn op_label(op: ProvenanceOp) -> Seq<char> {
    match op {
        ProvenanceOp::Created => "Created"@,
        ProvenanceOp::Merged => "Merged"@,
        ProvenanceOp::Updated => "Updated"@,
        ProvenanceOp::ConflictPreserved => "ConflictPreserved"@,
        ProvenanceOp::OperatorOverride => "OperatorOverride"@,
    }
}

impl ProvenanceOp {
    pub fn label(&self) -> (s: &'static str)
        ensures
            s@ == op_label(*self),
    {
        match self {
            ProvenanceOp::Created => "Created",
            ProvenanceOp::Merged => "Merged",
            ProvenanceOp::Updated => "Updated",
            ProvenanceOp::ConflictPreserved => "ConflictPreserved",
            ProvenanceOp::OperatorOverride => "OperatorOverride",
        }
    }
}

/// Machine-readable reason codes, safe to switch on downstream.
#[derive(Debug, Clone, Copy, PartialEq, Eq, Structural, Hash)]
pub enum ReasonCode {
    SingleSourceOnly,
    MultiSourceCorroboration,
    StaleContribution,
    SensorDegraded,
    ConflictDetected,
    OperatorConfirmed,
    OperatorRejected,
    LowSourceReliability,
    WellCalibrated,
    CalibrationDrift,
}

#[derive(Debug, Clone, Copy, PartialEq, Eq, Structural, Hash)]
pub enum CalibrationStatus {
    Calibrated,
    Drifting,
    Uncalibrated,
}

#[derive(Debug, Clone, Copy, PartialEq, Eq, Structural, Hash)]
pub enum TrackStatus {
    Tentative,
    Confirmed,
    Coasting,
    Dropped,
}

#[derive(Debug, Clone, Copy, PartialEq, Eq, Structural, Hash)]
pub enum CueSeverity {
    Info,
    Caution,
    Warning,
}

#[derive(Debug, Clone, Copy, PartialEq, Eq, Structural, Hash)]
pub enum FeedbackVerdict {
    ConfirmTrack,
    RejectTrack,
    Reclassify,
    AdjustConfidence,
}

/// The name of a feedback verdict as it appears in record notes.
pub open spec fn verdict_label(v: FeedbackVerdict) -> Seq<char> {
    match v {
        FeedbackVerdict::ConfirmTrack => "ConfirmTrack"@,
        FeedbackVerdict::RejectTrack => "RejectTrack"@,
        FeedbackVerdict::Reclassify => "Reclassify"@,
        FeedbackVerdict::AdjustConfidence => "AdjustConfidence"@,
    }
}

impl FeedbackVerdict {
    pub fn label(&self) -> (s: &'static str)
        ensures
            s@ == verdict_label(*self),
    {
        match self {
            FeedbackVerdict::ConfirmTrack => "ConfirmTrack",
            FeedbackVerdict::RejectTrack => "RejectTrack",
            FeedbackVerdict::Reclassify => "Reclassify",
            FeedbackVerdict::AdjustConfidence => "AdjustConfidence",
        }
    }
}

#[derive(Debug, Clone, Copy, PartialEq, Eq, Structural, Hash)]
pub enum ReplayStatus {
    Pending,
    Running,
    Completed,
    Aborted,
}

#[derive(Debug, Clone, Copy, PartialEq, Eq, Structural, Hash)]
pub enum MetricKind {
    TrackConfirmationLatencyMs,
    FalseTrackRate,
    MissedTrackRate,
    ConfidenceCalibrationError,
    StaleDataRejectionCount,
    ConflictRate,
    OperatorOverrideRate,
    ProvenanceCompleteness,
}

/// A registered data source.
#[derive(Debug)]
pub struct Source {
    pub schema_version: u32,
    pub source_id: SourceId,
    pub kind: SourceKind,
    pub name: String,
    /// Prior reliability in `[0, 1]`, used by the confidence engine.
    pub reliability: Magnitude,
    pub registered_at: Timestamp,
}

/// The bit pattern of a double clamped into `[0, 1]`: values above one
/// (up to infinity) become one, negative values (down to minus infinity)
/// become zero, and zero, negative zero, values within the range and NaNs
/// stay as they are, as `f64::clamp(0.0, 1.0)` leaves them.
pub open spec fn clamp_unit(m: Magnitude) -> Magnitude {
    if m.0 <= Magnitude::one().0 {
        m
    } else if m.0 <= 0x7FF0_0000_0000_0000 {
        Magnitude::one()
    } else if m.0 <= 0x8000_0000_0000_0000 {
        m
    } else if m.0 <= 0xFFF0_0000_0000_0000 {
        Magnitude::zero()
    } else {
        m
    }
}

impl Magnitude {
    /// This value clamped into `[0, 1]`, as [`clamp_unit`] describes.
    pub fn clamped_unit(self) -> (c: Magnitude)
        ensures
            c == clamp_unit(self),
    {
        let bits = self.0;
        if bits <= 0x3FF0_0000_0000_0000 {
            self
        } else if bits <= 0x7FF0_0000_0000_0000 {
            Magnitude(0x3FF0_0000_0000_0000)
        } else if bits <= 0x8000_0000_0000_0000 {
            self
        } else if bits <= 0xFFF0_0000_0000_0000 {
            Magnitude(0)
        } else {
            self
        }
    }
}

impl Source {
    /// A source at the current schema version, its reliability prior
    /// clamped into `[0, 1]`.
    pub fn new(
        source_id: SourceId,
        kind: SourceKind,
        name: &str,
        reliability: Magnitude,
        registered_at: Timestamp,
    ) -> (s: Source)
        ensures
            s.schema_version == SCHEMA_VERSION,
            s.source_id == source_id,
            s.kind == kind,
            s.name@ == name@,
            s.reliability == clamp_unit(reliability),
            s.registered_at == registered_at,
    {
        let clamped = reliability.clamped_unit();
        Source {
            schema_version: SCHEMA_VERSION,
            source_id,
            kind,
            name: String::from_str(name),
            reliability: clamped,
            registered_at,
        }
    }
}

impl Clone for Source {
    fn clone(&self) -> (s: Self)
        ensures
            s == *self,
    {
        Source {
            schema_version: self.schema_version,
            source_id: self.source_id.clone(),
            kind: self.kind,
            name: self.name.clone(),
            reliability: self.reliability,
            registered_at: self.registered_at,
        }
    }
}

/// A health report for a source.
#[derive(Debug)]
pub struct SensorHealth {
    pub schema_version: u32,
    pub source_id: SourceId,
    pub reported_at: Timestamp,
    pub status: HealthStatus,
    /// Health score in `[0, 1]`, fed into the confidence engine.
    pub health_score: Magnitude,
    pub detail: String,
}

impl Clone for SensorHealth {
    fn clone(&self) -> (s: Self)
        ensures
            s == *self,
    {
        SensorHealth {
            schema_version: self.schema_version,
            source_id: self.source_id.clone(),
            reported_at: self.reported_at,
            status: self.status,
            health_score: self.health_score,
            detail: self.detail.clone(),
        }
    }
}

/// A single run of the replay harness over a scenario.
#[derive(Debug)]
pub struct ReplaySession {
    pub schema_version: u32,
    pub session_id: SessionId,
    pub scenario_name: String,
    pub started_at: Timestamp,
    pub finished_at: Option<Timestamp>,
    pub deterministic: bool,
    pub seed: u64,
    pub status: ReplayStatus,
    pub event_count: u64,
}

impl Clone for ReplaySession {
    fn clone(&self) -> (s: Self)
        ensures
            s == *self,
    {
        ReplaySession {
            schema_version: self.schema_version,
            session_id: self.session_id.clone(),
            scenario_name: self.scenario_name.clone(),
            started_at: self.started_at,
            finished_at: self.finished_at,
            deterministic: self.deterministic,
            seed: self.seed,
            status: self.status,
            event_count: self.event_count,
        }
    }
}

/// The views of a list of identifiers.
pub open spec fn id_views<T: View<V = Seq<char>>>(ids: Seq<T>) -> Seq<Seq<char>> {
    ids.map_values(|id: T| id@)
}

/// Clones a list of observation identifiers.
pub fn clone_observation_ids(ids: &Vec<ObservationId>) -> (out: Vec<ObservationId>)
    ensures
        out@ == ids@,
{
    let out = ids.clone();
    assert(out@ =~= ids@);
    out
}

/// Clones a list of source identifiers.
pub fn clone_source_ids(ids: &Vec<SourceId>) -> (out: Vec<SourceId>)
    ensures
        out@ == ids@,
{
    let out = ids.clone();
    assert(out@ =~= ids@);
    out
}

/// An append-only record describing one change to a fused track.
///
/// Records form a chain through `prev_provenance_id`; reading the chain
/// backwards from a track's latest record answers "what changed since the
/// previous fused version?".
#[derive(Debug)]
pub struct ProvenanceRecord {
    pub schema_version: u32,
    pub provenance_id: ProvenanceId,
    pub track_id: TrackId,
    /// The fused-track version this record produced.
    pub fused_version: u64,
    pub created_at: Timestamp,
    pub operation: ProvenanceOp,
    pub contributing_observations: Vec<ObservationId>,
    pub contributing_sources: Vec<SourceId>,
    pub confidence_before: Option<Magnitude>,
    pub confidence_after: Magnitude,
    pub notes: String,
    /// Link to the previous record for this track, forming the audit chain.
    pub prev_provenance_id: Option<ProvenanceId>,
}

/// The mathematical content of a [`ProvenanceRecord`]: identifiers and text
/// as character sequences.
pub struct ProvenanceRecordView {
    pub schema_version: u32,
    pub provenance_id: Seq<char>,
    pub track_id: Seq<char>,
    pub fused_version: u64,
    pub created_at: Timestamp,
    pub operation: ProvenanceOp,
    pub contributing_observations: Seq<Seq<char>>,
    pub contributing_sources: Seq<Seq<char>>,
    pub confidence_before: Option<Magnitude>,
    pub confidence_after: Magnitude,
    pub notes: Seq<char>,
    pub prev_provenance_id: Option<Seq<char>>,
}

/// The view of an optional identifier.
pub open spec fn opt_id_view<T: View<V = Seq<char>>>(id: Option<T>) -> Option<Seq<char>> {
    match id {
        Some(i) => Some(i@),
        None => None,
    }
}

impl View for ProvenanceRecord {
    type V = ProvenanceRecordView;

    open spec fn view(&self) -> ProvenanceRecordView {
        ProvenanceRecordView {
            schema_version: self.schema_version,
            provenance_id: self.provenance_id@,
            track_id: self.track_id@,
            fused_version: self.fused_version,
            created_at: self.created_at,
            operation: self.operation,
            contributing_observations: id_views(self.contributing_observations@),
            contributing_sources: id_views(self.contributing_sources@),
            confidence_before: self.confidence_before,
            confidence_after: self.confidence_after,
            notes: self.notes@,
            prev_provenance_id: opt_id_view(self.prev_provenance_id),
        }
    }
}

impl Clone for ProvenanceRecord {
    fn clone(&self) -> (r: Self)
        ensures
            r@ == self@,
    {
        let prev = match &self.prev_provenance_id {
            Some(p) => Some(p.clone()),
            None => None,
        };
        ProvenanceRecord {
            schema_version: self.schema_version,
            provenance_id: self.provenance_id.clone(),
            track_id: self.track_id.clone(),
            fused_version: self.fused_version,
            created_at: self.created_at,
            operation: self.operation,
            contributing_observations: clone_observation_ids(&self.contributing_observations),
            contributing_sources: clone_source_ids(&self.contributing_sources),
            confidence_before: self.confidence_before,
            confidence_after: self.confidence_after,
            notes: self.notes.clone(),
            prev_provenance_id: prev,
        }
    }
}

/// What the checks on an observation's source-reported measurement confidence
/// found. The confidence itself is a floating-point value outside this crate.
#[derive(Debug)]
pub struct MeasurementCheck {
    /// Whether the confidence lies in `[0, 1]`.
    pub in_unit_range: bool,
    /// The confidence as text, for messages.
    pub display: String,
}

/// What the checks on an observation's normalized kinematic state found.
#[derive(Debug, Clone, Copy, PartialEq, Eq, Structural)]
pub struct StateCheck {
    /// Whether every position and velocity component is finite.
    pub all_finite: bool,
    /// Whether the positional sigma is finite and not negative.
    pub sigma_valid: bool,
}

/// A single observation emitted by a source, as the fabric's logic reads it:
/// identifiers, times, signature, and the outcome of the checks on its
/// floating-point parts. `state` is `None` for non-kinematic observations.
#[derive(Debug)]
pub struct Observation {
    pub schema_version: u32,
    pub observation_id: ObservationId,
    pub source_id: SourceId,
    pub source_kind: SourceKind,
    /// When the phenomenon was observed (drives staleness and freshness).
    pub observed_at: Timestamp,
    /// When the fabric received the observation.
    pub received_at: Timestamp,
    pub measurement_confidence: MeasurementCheck,
    pub state: Option<StateCheck>,
    pub provenance_ref: Option<ProvenanceId>,
    pub signature: Signature,
}

/// A retained conflicting observation. Conflicts are preserved, never hidden.
#[derive(Debug)]
pub struct ConflictRecord {
    pub observation_id: ObservationId,
    pub source_id: SourceId,
    pub reason: String,
    /// How far the conflicting observation sat from the track, in metres.
    pub divergence_m: Magnitude,
}

pub struct ConflictRecordView {
    pub observation_id: Seq<char>,
    pub source_id: Seq<char>,
    pub reason: Seq<char>,
    pub divergence_m: Magnitude,
}

impl View for ConflictRecord {
    type V = ConflictRecordView;

    open spec fn view(&self) -> ConflictRecordView {
        ConflictRecordView {
            observation_id: self.observation_id@,
            source_id: self.source_id@,
            reason: self.reason@,
            divergence_m: self.divergence_m,
        }
    }
}

impl Clone for ConflictRecord {
    fn clone(&self) -> (c: Self)
        ensures
            c@ == self@,
    {
        ConflictRecord {
            observation_id: self.observation_id.clone(),
            source_id: self.source_id.clone(),
            reason: self.reason.clone(),
            divergence_m: self.divergence_m,
        }
    }
}

pub open spec fn conflict_views(cs: Seq<ConflictRecord>) -> Seq<ConflictRecordView> {
    cs.map_values(|c: ConflictRecord| c@)
}

pub fn clone_conflicts(cs: &Vec<ConflictRecord>) -> (out: Vec<ConflictRecord>)
    ensures
        conflict_views(out@) == conflict_views(cs@),
{
    let n = cs.len();
    let mut out: Vec<ConflictRecord> = Vec::new();
    let mut i: usize = 0;
    while i < n
        invariant
            n == cs@.len(),
            i <= n,
            conflict_views(out@) == conflict_views(cs@).take(i as int),
        decreases n - i,
    {
        let c = cs[i].clone();
        let ghost old_out = out@;
        out.push(c);
        assert(conflict_views(out@) =~= conflict_views(old_out).push(c@));
        assert(conflict_views(cs@).take(i + 1) =~= conflict_views(cs@).take(i as int).push(cs@[i as int]@));
        assert(conflict_views(out@) =~= conflict_views(cs@).take(i + 1));
        i = i + 1;
    }
    assert(conflict_views(cs@).take(n as int) =~= conflict_views(cs@));
    out
}

/// The published, machine-readable fused track. Its kinematic state and full
/// confidence vector are kept beside it by the scoring side; the track
/// carries the aggregate confidence score.
#[derive(Debug)]
pub struct FusedTrack {
    pub schema_version: u32,
    pub track_id: TrackId,
    pub version: u64,
    pub created_at: Timestamp,
    pub updated_at: Timestamp,
    pub confidence_score: Magnitude,
    pub provenance_ref: ProvenanceId,
    pub contributing_observations: Vec<ObservationId>,
    pub contributing_sources: Vec<SourceId>,
    pub conflicts: Vec<ConflictRecord>,
    pub status: TrackStatus,
}

pub struct FusedTrackView {
    pub schema_version: u32,
    pub track_id: Seq<char>,
    pub version: u64,
    pub created_at: Timestamp,
    pub updated_at: Timestamp,
    pub confidence_score: Magnitude,
    pub provenance_ref: Seq<char>,
    pub contributing_observations: Seq<Seq<char>>,
    pub contributing_sources: Seq<Seq<char>>,
    pub conflicts: Seq<ConflictRecordView>,
    pub status: TrackStatus,
}

impl View for FusedTrack {
    type V = FusedTrackView;

    open spec fn view(&self) -> FusedTrackView {
        FusedTrackView {
            schema_version: self.schema_version,
            track_id: self.track_id@,
            version: self.version,
            created_at: self.created_at,
            updated_at: self.updated_at,
            confidence_score: self.confidence_score,
            provenance_ref: self.provenance_ref@,
            contributing_observations: id_views(self.contributing_observations@),
            contributing_sources: id_views(self.contributing_sources@),
            conflicts: conflict_views(self.conflicts@),
            status: self.status,
        }
    }
}

impl Clone for FusedTrack {
    fn clone(&self) -> (t: Self)
        ensures
            t@ == self@,
    {
        FusedTrack {
            schema_version: self.schema_version,
            track_id: self.track_id.clone(),
            version: self.version,
            created_at: self.created_at,
            updated_at: self.updated_at,
            confidence_score: self.confidence_score,
            provenance_ref: self.provenance_ref.clone(),
            contributing_observations: clone_observation_ids(&self.contributing_observations),
            contributing_sources: clone_source_ids(&self.contributing_sources),
            conflicts: clone_conflicts(&self.conflicts),
            status: self.status,
        }
    }
}

/// A decision-support cue surfaced to a human operator. Advisory only.
#[derive(Debug)]
pub struct RecommendationCue {
    pub schema_version: u32,
    pub cue_id: CueId,
    pub track_id: TrackId,
    pub created_at: Timestamp,
    pub severity: CueSeverity,
    pub message: String,
    /// Snapshot of the track confidence at cue time.
    pub confidence_ref: Magnitude,
    pub recommended_action: String,
}

pub struct RecommendationCueView {
    pub schema_version: u32,
    pub cue_id: Seq<char>,
    pub track_id: Seq<char>,
    pub created_at: Timestamp,
    pub severity: CueSeverity,
    pub message: Seq<char>,
    pub confidence_ref: Magnitude,
    pub recommended_action: Seq<char>,
}

impl View for RecommendationCue {
    type V = RecommendationCueView;

    open spec fn view(&self) -> RecommendationCueView {
        RecommendationCueView {
            schema_version: self.schema_version,
            cue_id: self.cue_id@,
            track_id: self.track_id@,
            created_at: self.created_at,
            severity: self.severity,
            message: self.message@,
            confidence_ref: self.confidence_ref,
            recommended_action: self.recommended_action@,
        }
    }
}

/// Operator feedback or override on a track. An explicit confidence
/// adjustment, when given, is applied by the scoring side.
#[derive(Debug)]
pub struct OperatorFeedback {
    pub schema_version: u32,
    pub feedback_id: crate::ids::FeedbackId,
    pub track_id: TrackId,
    pub operator_id: String,
    pub submitted_at: Timestamp,
    pub verdict: FeedbackVerdict,
    pub note: String,
}

} // verus!
