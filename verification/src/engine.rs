//! The fusion engine: staleness rejection, association handling, status
//! promotion, append-only provenance, conflict preservation, and operator
//! feedback, around a pluggable association policy and confidence scorer.
//!
//! The policy and the scorer work on floating-point kinematics and scores,
//! so the engine receives them as functions: `associate` relates an
//! observation to the live tracks, `score` turns a track's evidence into its
//! confidence score. Everything the engine decides itself is verified here.
//! Processing a fixed sequence of inputs yields identical identifiers and
//! outputs on every run.

use vstd::prelude::*;
use vstd::string::*;

use crate::error::FabricError;
use crate::ids::{lemma_seq_text_injective, seq_text, CueId, ObservationId, ProvenanceId, SourceId, TrackId};
use crate::model::{
    clamp_unit, id_views, op_label, verdict_label, ConflictRecord, FeedbackVerdict, CueSeverity, FusedTrack, FusedTrackView, Magnitude,
    Observation, OperatorFeedback, ProvenanceOp, ProvenanceRecord, ProvenanceRecordView,
    RecommendationCue, RecommendationCueView, SensorHealth, Source, TrackStatus, SCHEMA_VERSION,
};
use crate::text::{decimal, lemma_lex_order, lex_lt, push_decimal, str_lt};
use crate::provenance::{
    chain_complete, chain_covers, chain_linked, chain_of, contains_source, has_id, insert_by_version,
    lemma_chain_after_append, lemma_chain_members, InMemoryProvenanceStore, ProvenanceStore,
};
use crate::time::Timestamp;
use crate::metrics::MetricCounts;

verus! {

/// Engine tunables.
#[derive(Debug, Clone, Copy)]
pub struct FusionConfig {
    /// Observations whose `observed_at` is older than this (relative to their
    /// `received_at`) are rejected before fusion.
    pub staleness_limit_ms: i64,
    /// Passed to the confidence scorer as the freshness horizon.
    pub freshness_horizon_ms: i64,
    /// Distinct sources needed to promote a track to `Confirmed`.
    pub confirm_min_sources: usize,
    /// Supporting observations needed to promote a track to `Confirmed`.
    pub confirm_min_observations: usize,
    /// Reliability assumed for sources that were never registered.
    pub default_source_reliability: Magnitude,
    /// Engine-wide calibration score handed to the confidence scorer.
    pub default_calibration_score: Magnitude,
}

impl Default for FusionConfig {
    fn default() -> (c: FusionConfig)
        ensures
            c.staleness_limit_ms == 5_000,
            c.freshness_horizon_ms == 10_000,
            c.confirm_min_sources == 2,
            c.confirm_min_observations == 3,
            c.default_source_reliability == Magnitude::half(),
            c.default_calibration_score == Magnitude::zero(),
    {
        FusionConfig {
            staleness_limit_ms: 5_000,
            freshness_horizon_ms: 10_000,
            confirm_min_sources: 2,
            confirm_min_observations: 3,
            default_source_reliability: Magnitude(0x3FE0_0000_0000_0000),
            default_calibration_score: Magnitude(0),
        }
    }
}

/// Why an observation was not fused.
#[derive(Debug, Clone, Copy, PartialEq, Eq, Structural)]
pub enum RejectionReason {
    Stale { age_ms: i64, limit_ms: i64 },
    SignatureInvalid,
}

/// The association policy's verdict for one observation.
#[derive(Debug)]
pub enum Association {
    /// Start a new track from this observation.
    New,
    /// Merge into an existing track (consistent within the merge gate).
    Merge { track_id: TrackId, distance_m: Magnitude },
    /// Near an existing track but inconsistent: preserve as a conflict.
    Conflict { track_id: TrackId, divergence_m: Magnitude },
}

/// What the engine knows about a track's membership, handed to the
/// confidence scorer.
#[derive(Debug)]
pub struct TrackEvidence {
    pub track_id: TrackId,
    pub now: Timestamp,
    /// Reliability priors of each distinct contributing source.
    pub source_reliabilities: Vec<Magnitude>,
    /// Health scores of each contributing source.
    pub source_health: Vec<Magnitude>,
    /// Age (ms) of the freshest contributing observation, held at the
    /// nearest bound of `i64` when it lies beyond.
    pub freshest_age_ms: i64,
    /// Number of distinct corroborating sources.
    pub distinct_sources: usize,
    pub support_count: usize,
    pub conflict_count: usize,
    pub calibration_score: Magnitude,
    pub freshness_horizon_ms: i64,
}

/// The result of feeding one observation (or feedback) to the engine.
#[derive(Debug)]
pub struct FusionOutcome {
    pub accepted: bool,
    pub rejection: Option<RejectionReason>,
    pub operation: Option<ProvenanceOp>,
    pub track: Option<FusedTrack>,
    pub provenance: Option<ProvenanceRecord>,
    pub cue: Option<RecommendationCue>,
    /// Set for accepted-but-not-fused observations (non-kinematic ones).
    pub note: Option<String>,
}

impl FusionOutcome {
    fn rejected(reason: RejectionReason) -> (o: FusionOutcome)
        ensures
            o.is_rejection(reason),
    {
        FusionOutcome {
            accepted: false,
            rejection: Some(reason),
            operation: None,
            track: None,
            provenance: None,
            cue: None,
            note: None,
        }
    }

    /// Whether this outcome reports exactly the rejection `reason`.
    pub open spec fn is_rejection(&self, reason: RejectionReason) -> bool {
        &&& !self.accepted
        &&& self.rejection == Some(reason)
        &&& self.operation is None
        &&& self.track is None
        &&& self.provenance is None
        &&& self.cue is None
        &&& self.note is None
    }
}

/// A record of an observation the engine has accepted.
#[derive(Debug)]
pub struct SeenObservation {
    pub observation_id: ObservationId,
    pub observed_at: Timestamp,
}

/// Bookkeeping for a live track.
#[derive(Debug)]
pub struct TrackEntry {
    pub track: FusedTrack,
    pub supporting: Vec<ObservationId>,
    pub conflicting: Vec<ObservationId>,
    /// Unique, in order of first contribution.
    pub sources: Vec<SourceId>,
    pub first_obs_at: Timestamp,
    pub confirmed_at: Option<Timestamp>,
    pub last_provenance: ProvenanceId,
}

pub struct TrackEntryView {
    pub track: FusedTrackView,
    pub supporting: Seq<Seq<char>>,
    pub conflicting: Seq<Seq<char>>,
    pub sources: Seq<Seq<char>>,
    pub first_obs_at: Timestamp,
    pub confirmed_at: Option<Timestamp>,
    pub last_provenance: Seq<char>,
}

impl View for TrackEntry {
    type V = TrackEntryView;

    open spec fn view(&self) -> TrackEntryView {
        TrackEntryView {
            track: self.track@,
            supporting: id_views(self.supporting@),
            conflicting: id_views(self.conflicting@),
            sources: id_views(self.sources@),
            first_obs_at: self.first_obs_at,
            confirmed_at: self.confirmed_at,
            last_provenance: self.last_provenance@,
        }
    }
}

pub open spec fn entry_views(entries: Seq<TrackEntry>) -> Seq<TrackEntryView> {
    entries.map_values(|e: TrackEntry| e@)
}

/// Whether the entries of `tracks` carry pairwise distinct track identifiers.
pub open spec fn distinct_tracks(tracks: Seq<TrackEntryView>) -> bool {
    forall|i: int, j: int|
        0 <= i < j < tracks.len() ==> tracks[i].track.track_id != tracks[j].track.track_id
}

/// The position of the track `id` in `tracks`, when there is one.
pub open spec fn has_track(tracks: Seq<TrackEntryView>, id: Seq<char>) -> bool {
    exists|i: int| 0 <= i < tracks.len() && tracks[i].track.track_id == id
}

/// The identifiers of the tracks that are not `Dropped`, in engine order.
pub open spec fn live_track_ids(tracks: Seq<TrackEntryView>) -> Seq<Seq<char>>
    decreases tracks.len(),
{
    if tracks.len() == 0 {
        Seq::empty()
    } else {
        let rest = live_track_ids(tracks.drop_last());
        if tracks.last().track.status != TrackStatus::Dropped {
            rest.push(tracks.last().track.track_id)
        } else {
            rest
        }
    }
}

pub struct FusionEngine {
    config: FusionConfig,
    provenance: InMemoryProvenanceStore,
    sources: Vec<Source>,
    health: Vec<SensorHealth>,
    observations: Vec<SeenObservation>,
    tracks: Vec<TrackEntry>,
    track_seq: u64,
    prov_seq: u64,
    cue_seq: u64,
    stale_rejections: u64,
}

impl FusionEngine {
    pub closed spec fn config(&self) -> FusionConfig {
        self.config
    }

    /// The engine's provenance log.
    pub closed spec fn provenance_log(&self) -> Seq<ProvenanceRecordView> {
        self.provenance.records()
    }

    pub closed spec fn registered_sources(&self) -> Seq<Source> {
        self.sources@
    }

    pub closed spec fn health_reports(&self) -> Seq<SensorHealth> {
        self.health@
    }

    pub closed spec fn seen_observations(&self) -> Seq<SeenObservation> {
        self.observations@
    }

    pub closed spec fn track_entries(&self) -> Seq<TrackEntryView> {
        entry_views(self.tracks@)
    }

    /// How many tracks, provenance records and cues the engine has numbered.
    pub closed spec fn sequence_numbers(&self) -> (u64, u64, u64) {
        (self.track_seq, self.prov_seq, self.cue_seq)
    }

    pub closed spec fn stale_count(&self) -> u64 {
        self.stale_rejections
    }

    /// The engine's integrity: identifiers are unique, every track and record
    /// carries an identifier the engine numbered, every track's latest
    /// record is in the log, and every track is traceable through the log.
    pub closed spec fn inv(&self) -> bool {
        &&& engine_integrity(entry_views(self.tracks@), self.provenance.records(), self.track_seq, self.prov_seq)
        &&& traceability(entry_views(self.tracks@), self.provenance.records(), self.track_seq)
    }

    pub fn new(config: FusionConfig) -> (engine: FusionEngine)
        ensures
            engine.inv(),
            engine.config() == config,
            engine.provenance_log().len() == 0,
            engine.registered_sources().len() == 0,
            engine.health_reports().len() == 0,
            engine.seen_observations().len() == 0,
            engine.track_entries().len() == 0,
            engine.sequence_numbers() == (0u64, 0u64, 0u64),
            engine.stale_count() == 0,
    {
        let engine = FusionEngine {
            config,
            provenance: InMemoryProvenanceStore::new(),
            sources: Vec::new(),
            health: Vec::new(),
            observations: Vec::new(),
            tracks: Vec::new(),
            track_seq: 0,
            prov_seq: 0,
            cue_seq: 0,
            stale_rejections: 0,
        };
        assert(entry_views(engine.tracks@) =~= Seq::<TrackEntryView>::empty());
        engine
    }

    /// Registers a source, replacing any earlier registration with its id.
    pub fn register_source(&mut self, source: Source)
        requires
            old(self).inv(),
        ensures
            final(self).inv(),
            registration_step(*old(self), source, *final(self)),
    {
        let n = self.sources.len();
        let mut i: usize = 0;
        while i < n
            invariant
                n == self.sources@.len(),
                i <= n,
                *self == *old(self),
                old(self).inv(),
                forall|j: int| 0 <= j < i ==> self.sources@[j].source_id@ != source.source_id@,
            decreases n - i,
        {
            if self.sources[i].source_id.0 == source.source_id.0 {
                proof {
                    lemma_first_match_at(old(self).sources@, |x: Source| x.source_id@ == source.source_id@, i as int);
                }
                self.sources.set(i, source);
                return;
            }
            i = i + 1;
        }
        proof {
            lemma_first_match(old(self).sources@, |x: Source| x.source_id@ == source.source_id@);
        }
        self.sources.push(source);
    }

    /// Records a health report, replacing any earlier report for its source.
    pub fn report_health(&mut self, health: SensorHealth)
        requires
            old(self).inv(),
        ensures
            final(self).inv(),
            health_step(*old(self), health, *final(self)),
    {
        let n = self.health.len();
        let mut i: usize = 0;
        while i < n
            invariant
                n == self.health@.len(),
                i <= n,
                *self == *old(self),
                old(self).inv(),
                forall|j: int| 0 <= j < i ==> self.health@[j].source_id@ != health.source_id@,
            decreases n - i,
        {
            if self.health[i].source_id.0 == health.source_id.0 {
                proof {
                    lemma_first_match_at(old(self).health@, |x: SensorHealth| x.source_id@ == health.source_id@, i as int);
                }
                self.health.set(i, health);
                return;
            }
            i = i + 1;
        }
        proof {
            lemma_first_match(old(self).health@, |x: SensorHealth| x.source_id@ == health.source_id@);
        }
        self.health.push(health);
    }


    fn reliability_for(&self, id: &SourceId) -> (m: Magnitude)
        ensures
            m == reliability_of(self.sources@, id@, self.config.default_source_reliability),
    {
        let mut i = self.sources.len();
        assert(self.sources@.take(i as int) =~= self.sources@);
        while i > 0
            invariant
                i <= self.sources@.len(),
                reliability_of(self.sources@, id@, self.config.default_source_reliability)
                    == reliability_of(self.sources@.take(i as int), id@, self.config.default_source_reliability),
            decreases i,
        {
            assert(self.sources@.take(i as int).drop_last() =~= self.sources@.take(i - 1));
            if self.sources[i - 1].source_id.0 == id.0 {
                return self.sources[i - 1].reliability;
            }
            i = i - 1;
        }
        self.config.default_source_reliability
    }

    fn health_for(&self, id: &SourceId) -> (m: Magnitude)
        ensures
            m == health_of(self.health@, id@),
    {
        let mut i = self.health.len();
        assert(self.health@.take(i as int) =~= self.health@);
        while i > 0
            invariant
                i <= self.health@.len(),
                health_of(self.health@, id@) == health_of(self.health@.take(i as int), id@),
            decreases i,
        {
            assert(self.health@.take(i as int).drop_last() =~= self.health@.take(i - 1));
            if self.health[i - 1].source_id.0 == id.0 {
                return self.health[i - 1].health_score;
            }
            i = i - 1;
        }
        Magnitude(0x3FF0_0000_0000_0000)
    }

    fn observed_time(&self, id: &ObservationId) -> (t: Option<Timestamp>)
        ensures
            t == seen_time(self.observations@, id@),
            t matches Some(time) ==> exists|i: int|
                0 <= i < self.observations@.len() && self.observations@[i].observed_at == time,
    {
        let mut i = self.observations.len();
        assert(self.observations@.take(i as int) =~= self.observations@);
        while i > 0
            invariant
                i <= self.observations@.len(),
                seen_time(self.observations@, id@) == seen_time(self.observations@.take(i as int), id@),
            decreases i,
        {
            assert(self.observations@.take(i as int).drop_last() =~= self.observations@.take(i - 1));
            if self.observations[i - 1].observation_id.0 == id.0 {
                return Some(self.observations[i - 1].observed_at);
            }
            i = i - 1;
        }
        None
    }

    /// Records an accepted observation, replacing an earlier record of it.
    fn record_observation(&mut self, id: &ObservationId, observed_at: Timestamp)
        ensures
            final(self).observations@ == record_seen(old(self).observations@, *id, observed_at),
            final(self).config == old(self).config,
            final(self).provenance == old(self).provenance,
            final(self).sources == old(self).sources,
            final(self).health == old(self).health,
            final(self).tracks == old(self).tracks,
            final(self).track_seq == old(self).track_seq,
            final(self).prov_seq == old(self).prov_seq,
            final(self).cue_seq == old(self).cue_seq,
            final(self).stale_rejections == old(self).stale_rejections,
    {
        let n = self.observations.len();
        let mut i: usize = 0;
        while i < n
            invariant
                n == self.observations@.len(),
                i <= n,
                *self == *old(self),
                forall|j: int| 0 <= j < i ==> self.observations@[j].observation_id@ != id@,
            decreases n - i,
        {
            if self.observations[i].observation_id.0 == id.0 {
                proof {
                    lemma_first_match_at(old(self).observations@, |x: SeenObservation| x.observation_id@ == id@, i as int);
                }
                self.observations.set(i, SeenObservation { observation_id: id.clone(), observed_at });
                return;
            }
            i = i + 1;
        }
        proof {
            lemma_first_match(old(self).observations@, |x: SeenObservation| x.observation_id@ == id@);
        }
        self.observations.push(SeenObservation { observation_id: id.clone(), observed_at });
    }

    /// The evidence for `entry` at `now`, as the confidence scorer receives it.
    fn build_inputs(&self, entry: &TrackEntry, now: Timestamp) -> (ev: TrackEvidence)
        ensures
            ev@ == evidence_of(entry@, now, self.sources@, self.health@, self.observations@, self.config),
    {
        let ghost e = entry@;
        let n = entry.sources.len();
        let mut reliabilities: Vec<Magnitude> = Vec::new();
        let mut health: Vec<Magnitude> = Vec::new();
        let mut i: usize = 0;
        while i < n
            invariant
                n == entry.sources@.len(),
                i <= n,
                reliabilities@ == e.sources.take(i as int).map_values(
                    |s: Seq<char>| reliability_of(self.sources@, s, self.config.default_source_reliability),
                ),
                health@ == e.sources.take(i as int).map_values(|s: Seq<char>| health_of(self.health@, s)),
                e == entry@,
            decreases n - i,
        {
            let r = self.reliability_for(&entry.sources[i]);
            let h = self.health_for(&entry.sources[i]);
            reliabilities.push(r);
            health.push(h);
            assert(e.sources[i as int] == entry.sources@[i as int]@);
            assert(reliabilities@ =~= e.sources.take(i + 1).map_values(
                |s: Seq<char>| reliability_of(self.sources@, s, self.config.default_source_reliability),
            ));
            assert(health@ =~= e.sources.take(i + 1).map_values(|s: Seq<char>| health_of(self.health@, s)));
            i = i + 1;
        }
        assert(e.sources.take(n as int) =~= e.sources);
        let m = entry.supporting.len();
        let mut freshest: Option<i128> = None;
        let mut j: usize = 0;
        while j < m
            invariant
                m == entry.supporting@.len(),
                j <= m,
                e == entry@,
                match freshest {
                    Some(a) => freshest_age(e.supporting.take(j as int), self.observations@, now) == Some(
                        a as int,
                    ),
                    None => freshest_age(e.supporting.take(j as int), self.observations@, now) is None,
                },
            decreases m - j,
        {
            assert(e.supporting.take(j + 1).drop_last() =~= e.supporting.take(j as int));
            assert(e.supporting.take(j + 1).last() == entry.supporting@[j as int]@);
            match self.observed_time(&entry.supporting[j]) {
                Some(t) => {
                    let age: i128 = now.0 as i128 - t.0 as i128;
                    freshest = match freshest {
                        Some(a) => Some(if age < a { age } else { a }),
                        None => Some(age),
                    };
                },
                None => {},
            }
            j = j + 1;
        }
        assert(e.supporting.take(m as int) =~= e.supporting);
        let freshest_age_ms: i64 = match freshest {
            Some(a) => if a < i64::MIN as i128 {
                i64::MIN
            } else if a > i64::MAX as i128 {
                i64::MAX
            } else {
                a as i64
            },
            None => 0,
        };
        TrackEvidence {
            track_id: entry.track.track_id.clone(),
            now,
            source_reliabilities: reliabilities,
            source_health: health,
            freshest_age_ms,
            distinct_sources: entry.sources.len(),
            support_count: entry.supporting.len(),
            conflict_count: entry.conflicting.len(),
            calibration_score: self.config.default_calibration_score,
            freshness_horizon_ms: self.config.freshness_horizon_ms,
        }
    }


    fn build_cue(&mut self, entry: &TrackEntry, now: Timestamp, newly: bool) -> (cue: Option<RecommendationCue>)
        requires
            old(self).cue_seq < u64::MAX,
        ensures
            match cue {
                Some(c) => cue_for(entry@, now, newly, seq_text("cue"@, (old(self).cue_seq + 1) as nat))
                    == Some(c@) && final(self).cue_seq == old(self).cue_seq + 1,
                None => cue_for(entry@, now, newly, seq_text("cue"@, (old(self).cue_seq + 1) as nat))
                    is None && final(self).cue_seq == old(self).cue_seq,
            },
            final(self).config == old(self).config,
            final(self).provenance == old(self).provenance,
            final(self).sources == old(self).sources,
            final(self).health == old(self).health,
            final(self).observations == old(self).observations,
            final(self).tracks == old(self).tracks,
            final(self).track_seq == old(self).track_seq,
            final(self).prov_seq == old(self).prov_seq,
            final(self).stale_rejections == old(self).stale_rejections,
    {
        proof {
            reveal_strlit(" conflicting observation(s) preserved on this track");
            reveal_strlit("Review conflicts before acting on this track");
            reveal_strlit("Track confirmed at low confidence");
            reveal_strlit("Corroborate with another source before acting");
            reveal_strlit("Track confirmed");
            reveal_strlit("No action required");
        }
        let (severity, message, action) = if entry.conflicting.len() > 0 {
            let mut message = String::new();
            push_decimal(&mut message, entry.conflicting.len() as u64);
            message.append(" conflicting observation(s) preserved on this track");
            (CueSeverity::Warning, message, String::from_str("Review conflicts before acting on this track"))
        } else if entry.track.status == TrackStatus::Confirmed && entry.track.confidence_score.less_than(
            Magnitude(0x3FE0_0000_0000_0000),
        ) {
            (
                CueSeverity::Caution,
                String::from_str("Track confirmed at low confidence"),
                String::from_str("Corroborate with another source before acting"),
            )
        } else if newly {
            (CueSeverity::Info, String::from_str("Track confirmed"), String::from_str("No action required"))
        } else {
            return None;
        };
        self.cue_seq = self.cue_seq + 1;
        let cue = RecommendationCue {
            schema_version: SCHEMA_VERSION,
            cue_id: CueId::seq(self.cue_seq),
            track_id: entry.track.track_id.clone(),
            created_at: now,
            severity,
            message,
            confidence_ref: entry.track.confidence_score,
            recommended_action: action,
        };
        assert(cue@.message =~= cue_for(entry@, now, newly, seq_text("cue"@, self.cue_seq as nat))->0.message);
        Some(cue)
    }


    /// Re-scores `entry`, promotes its status, appends its provenance record,
    /// places it at `index`, and builds its cue.
    #[verifier::rlimit(40)]
    fn publish<S: Fn(&TrackEvidence) -> Magnitude>(
        &mut self,
        entry: TrackEntry,
        index: usize,
        now: Timestamp,
        operation: ProvenanceOp,
        confidence_before: Option<Magnitude>,
        trigger_obs: &ObservationId,
        trigger_src: &SourceId,
        score: S,
    ) -> (res: Result<FusionOutcome, FabricError>)
        requires
            index <= old(self).tracks@.len(),
            engine_integrity(
                entry_views(old(self).tracks@),
                old(self).provenance.records(),
                old(self).track_seq,
                old(self).prov_seq,
            ),
            !has_track(entry_views(old(self).tracks@), entry@.track.track_id),
            numbered(entry@.track.track_id, "trk"@, old(self).track_seq),
            operation != ProvenanceOp::Created ==> has_id(old(self).provenance.records(), entry@.last_provenance),
            traceability(entry_views(old(self).tracks@), old(self).provenance.records(), old(self).track_seq),
            forall|k: int|
                0 <= k < old(self).provenance.records().len() && (#[trigger] old(
                    self,
                ).provenance.records()[k]).track_id == entry@.track.track_id ==> old(
                    self,
                ).provenance.records()[k].fused_version <= entry@.track.version,
            operation == ProvenanceOp::Created ==> chain_of(old(self).provenance.records(), entry@.track.track_id).len()
                == 0,
            operation != ProvenanceOp::Created ==> chain_of(old(self).provenance.records(), entry@.track.track_id).len()
                > 0 && chain_of(old(self).provenance.records(), entry@.track.track_id)[0].operation
                == ProvenanceOp::Created,
            chain_linked(chain_of(old(self).provenance.records(), entry@.track.track_id)),
            chain_of(old(self).provenance.records(), entry@.track.track_id).len() > 0 ==> chain_of(
                old(self).provenance.records(),
                entry@.track.track_id,
            ).last().provenance_id == entry@.last_provenance,
            forall|j: int|
                0 <= j < entry@.supporting.len() ==> #[trigger] entry@.supporting[j] == trigger_obs@ || chain_covers(
                    chain_of(old(self).provenance.records(), entry@.track.track_id),
                    entry@.supporting[j],
                ),
            entry@.track.version <= old(self).prov_seq,
            old(self).prov_seq < u64::MAX,
            old(self).cue_seq < u64::MAX,
            scorer_total(score),
        ensures
            final(self).inv(),
            res matches Ok(out) && exists|s: Magnitude|
                scored(
                    score,
                    evidence_of(entry@, now, old(self).sources@, old(self).health@, old(self).observations@, old(self).config),
                    s,
                ) && publish_effect(
                    entry_views(old(self).tracks@),
                    old(self).provenance.records(),
                    old(self).sequence_numbers(),
                    old(self).config,
                    entry@,
                    index as int,
                    now,
                    operation,
                    confidence_before,
                    trigger_obs@,
                    trigger_src@,
                    s,
                    entry_views(final(self).tracks@),
                    final(self).provenance.records(),
                    final(self).sequence_numbers(),
                    out@,
                ),
            final(self).config == old(self).config,
            final(self).sources == old(self).sources,
            final(self).health == old(self).health,
            final(self).observations == old(self).observations,
            final(self).stale_rejections == old(self).stale_rejections,
            exists|p: TrackEntryView|
                entry_views(final(self).tracks@) == entry_views(old(self).tracks@).insert(index as int, p)
                    && p.track.track_id == entry@.track.track_id && p.track.conflicts == entry@.track.conflicts,
            old(self).provenance.records().is_prefix_of(final(self).provenance.records()),
            res matches Ok(out) && record_of_publication(
                old(self).provenance.records(),
                final(self).provenance.records(),
                seq![trigger_obs@],
                out@,
            ) && (out@.track matches Some(t) && (out@.provenance matches Some(p) && {
                &&& t.track_id == entry@.track.track_id
                &&& t.version == entry@.track.version + 1
                &&& t.conflicts == entry@.track.conflicts
                &&& p.operation == operation
                &&& p.confidence_before == confidence_before
                &&& p.prev_provenance_id == (if operation == ProvenanceOp::Created {
                    None
                } else {
                    Some(entry@.last_provenance)
                })
            })),
    {
        let mut entry = entry;
        let ghost e0 = entry@;
        // 1. (re)score confidence from the current membership.
        let evidence = self.build_inputs(&entry, now);
        let confidence = score(&evidence);
        // 2. status promotion.
        let distinct = entry.sources.len();
        let support = entry.supporting.len();
        let newly_confirmed = entry.confirmed_at.is_none() && (distinct >= self.config.confirm_min_sources
            || support >= self.config.confirm_min_observations);
        if newly_confirmed {
            entry.confirmed_at = Some(now);
        }
        let status = if entry.confirmed_at.is_some() {
            TrackStatus::Confirmed
        } else {
            TrackStatus::Tentative
        };
        // 3. append provenance.
        let ghost log0 = self.provenance.records();
        self.prov_seq = self.prov_seq + 1;
        let provenance_id = ProvenanceId::seq(self.prov_seq);
        let prev = if operation == ProvenanceOp::Created {
            None
        } else {
            Some(entry.last_provenance.clone())
        };
        let version = entry.track.version + 1;
        let mut notes = String::from_str(operation.label());
        proof {
            reveal_strlit(" via ");
        }
        notes.append(" via ");
        notes.append(trigger_src.as_str());
        let observations = vec![trigger_obs.clone()];
        let sources = vec![trigger_src.clone()];
        assert(id_views(observations@) =~= seq![trigger_obs@]);
        assert(id_views(sources@) =~= seq![trigger_src@]);
        let record = ProvenanceRecord {
            schema_version: SCHEMA_VERSION,
            provenance_id: provenance_id.clone(),
            track_id: entry.track.track_id.clone(),
            fused_version: version,
            created_at: now,
            operation,
            contributing_observations: observations,
            contributing_sources: sources,
            confidence_before,
            confidence_after: confidence,
            notes,
            prev_provenance_id: prev,
        };
        proof {
            assert forall|i: int| 0 <= i < log0.len() implies log0[i].provenance_id != provenance_id@ by {
                lemma_numbered_fresh(log0[i].provenance_id, "prv"@, (self.prov_seq - 1) as u64);
            }
            assert(record@.notes =~= op_label(operation) + " via "@ + trigger_src@);
        }
        match self.provenance.append(record.clone()) {
            Ok(()) => {},
            Err(e) => {
                return Err(e);
            },
        }
        entry.last_provenance = provenance_id.clone();
        // 4. update the published track.
        entry.track.version = version;
        entry.track.updated_at = now;
        entry.track.confidence_score = confidence;
        entry.track.provenance_ref = provenance_id;
        entry.track.contributing_observations = crate::model::clone_observation_ids(&entry.supporting);
        entry.track.contributing_sources = crate::model::clone_source_ids(&entry.sources);
        entry.track.status = status;
        // 5. decision-support cue.
        let cue = self.build_cue(&entry, now, newly_confirmed);
        let track = entry.track.clone();
        let ghost p = entry@;
        self.tracks.insert(index, entry);
        proof {
            let tracks = entry_views(self.tracks@);
            let log = self.provenance.records();
            assert(tracks =~= entry_views(old(self).tracks@).insert(index as int, p));
            assert(p == published_entry(e0, now, confidence, provenance_id@, newly_confirmed));
            assert(log == log0.push(record@));
            assert(log.subrange(0, log0.len() as int) =~= log0);
            assert forall|i: int| 0 <= i < log.len() implies numbered(
                #[trigger] log[i].provenance_id,
                "prv"@,
                self.prov_seq,
            ) by {
                if i < log0.len() {
                    lemma_numbered_fresh(log0[i].provenance_id, "prv"@, (self.prov_seq - 1) as u64);
                }
            }
            assert forall|i: int| 0 <= i < tracks.len() implies has_id(log, #[trigger] tracks[i].last_provenance) by {
                if i == index {
                    assert(log[log0.len() as int].provenance_id == p.last_provenance);
                } else {
                    let j = if i < index { i } else { i - 1 };
                    assert(tracks[i] == entry_views(old(self).tracks@)[j]);
                    let k = choose|k: int| 0 <= k < log0.len() && log0[k].provenance_id == tracks[i].last_provenance;
                    assert(log[k] == log0[k]);
                }
            }
            assert forall|i: int, j: int| 0 <= i < j < tracks.len() implies tracks[i].track.track_id
                != tracks[j].track.track_id by {
                let old_tracks = entry_views(old(self).tracks@);
                if i == index {
                    assert(tracks[j] == old_tracks[j - 1]);
                } else if j == index {
                    assert(tracks[i] == old_tracks[i]);
                } else {
                    let ii = if i < index { i } else { i - 1 };
                    let jj = if j < index { j } else { j - 1 };
                    assert(tracks[i] == old_tracks[ii]);
                    assert(tracks[j] == old_tracks[jj]);
                }
            }
            assert forall|i: int| 0 <= i < tracks.len() implies numbered(
                #[trigger] tracks[i].track.track_id,
                "trk"@,
                self.track_seq,
            ) && tracks[i].track.version <= self.prov_seq by {
                if i != index {
                    let j = if i < index { i } else { i - 1 };
                    assert(tracks[i] == entry_views(old(self).tracks@)[j]);
                }
            }
            // Traceability: the new record belongs to the published track only.
            assert(record@.contributing_observations == seq![trigger_obs@]);
            assert forall|j: int| 0 <= j < e0.supporting.len() implies record@.contributing_observations.contains(
                #[trigger] e0.supporting[j],
            ) || chain_covers(chain_of(log0, e0.track.track_id), e0.supporting[j]) by {
                if e0.supporting[j] == trigger_obs@ {
                    assert(record@.contributing_observations[0] == trigger_obs@);
                }
            }
            assert(record@.prev_provenance_id == (if chain_of(log0, e0.track.track_id).len() == 0 {
                None
            } else {
                Some(chain_of(log0, e0.track.track_id).last().provenance_id)
            }));
            lemma_traceable_after_publish(log0, e0, record@, p);
            assert forall|k: int| 0 <= k < log.len() implies numbered(#[trigger] log[k].track_id, "trk"@, self.track_seq) by {
                if k < log0.len() {
                    assert(log[k] == log0[k]);
                }
            }
            assert forall|i: int| 0 <= i < tracks.len() implies track_traceable(log, #[trigger] tracks[i]) by {
                if i != index {
                    let old_tracks = entry_views(old(self).tracks@);
                    let j = if i < index { i } else { i - 1 };
                    assert(tracks[i] == old_tracks[j]);
                    assert(old_tracks[j].track.track_id != e0.track.track_id);
                    lemma_traceable_after_other_append(log0, record@, old_tracks[j]);
                }
            }
        }
        let out = FusionOutcome {
            accepted: true,
            rejection: None,
            operation: Some(operation),
            track: Some(track),
            provenance: Some(record),
            cue,
            note: None,
        };
        proof {
            let ev = evidence_of(e0, now, old(self).sources@, old(self).health@, old(self).observations@, old(self).config);
            assert(evidence@ == ev);
            assert(scored(score, ev, confidence));
            assert(newly_confirmed == crate::engine::newly_confirmed(e0, old(self).config));
            assert(publish_record(e0, now, operation, confidence_before, trigger_obs@, trigger_src@, confidence, provenance_id@) == record@);
            assert(publish_effect(
                entry_views(old(self).tracks@),
                old(self).provenance.records(),
                old(self).sequence_numbers(),
                old(self).config,
                e0,
                index as int,
                now,
                operation,
                confidence_before,
                trigger_obs@,
                trigger_src@,
                confidence,
                entry_views(self.tracks@),
                self.provenance.records(),
                self.sequence_numbers(),
                out@,
            ));
        }
        Ok(out)
    }


    fn find_track(&self, id: &TrackId) -> (pos: Option<usize>)
        requires
            distinct_tracks(entry_views(self.tracks@)),
        ensures
            match pos {
                Some(i) => i < self.tracks@.len() && self.tracks@[i as int]@.track.track_id == id@
                    && i == track_index(entry_views(self.tracks@), id@),
                None => !has_track(entry_views(self.tracks@), id@),
            },
    {
        let n = self.tracks.len();
        let mut i: usize = 0;
        while i < n
            invariant
                n == self.tracks@.len(),
                i <= n,
                distinct_tracks(entry_views(self.tracks@)),
                forall|j: int| 0 <= j < i ==> self.tracks@[j]@.track.track_id != id@,
            decreases n - i,
        {
            if self.tracks[i].track.track_id.0 == id.0 {
                proof {
                    let ts = entry_views(self.tracks@);
                    assert(ts[i as int].track.track_id == id@);
                    let c = track_index(ts, id@);
                    if c != i {
                        assert(ts[c].track.track_id == ts[i as int].track.track_id);
                    }
                }
                return Some(i);
            }
            i = i + 1;
        }
        proof {
            assert forall|j: int| 0 <= j < entry_views(self.tracks@).len() implies entry_views(
                self.tracks@,
            )[j].track.track_id != id@ by {
                assert(entry_views(self.tracks@)[j] == self.tracks@[j]@);
            }
        }
        None
    }

    fn create_track<S: Fn(&TrackEvidence) -> Magnitude>(
        &mut self,
        obs: &Observation,
        now: Timestamp,
        score: S,
    ) -> (res: Result<FusionOutcome, FabricError>)
        requires
            old(self).inv(),
            old(self).track_seq < u64::MAX,
            old(self).prov_seq < u64::MAX,
            old(self).cue_seq < u64::MAX,
            scorer_total(score),
        ensures
            final(self).inv(),
            res matches Ok(out) && exists|s: Magnitude|
                scored(
                    score,
                    evidence_of(
                        created_entry(old(self).track_seq, obs, now),
                        now,
                        old(self).sources@,
                        old(self).health@,
                        old(self).observations@,
                        old(self).config,
                    ),
                    s,
                ) && publish_effect(
                    entry_views(old(self).tracks@),
                    old(self).provenance.records(),
                    track_numbered(old(self).sequence_numbers()),
                    old(self).config,
                    created_entry(old(self).track_seq, obs, now),
                    entry_views(old(self).tracks@).len() as int,
                    now,
                    ProvenanceOp::Created,
                    None,
                    obs.observation_id@,
                    obs.source_id@,
                    s,
                    entry_views(final(self).tracks@),
                    final(self).provenance.records(),
                    final(self).sequence_numbers(),
                    out@,
                ),
            final(self).config == old(self).config,
            final(self).sources == old(self).sources,
            final(self).health == old(self).health,
            final(self).observations == old(self).observations,
            final(self).stale_rejections == old(self).stale_rejections,
            tracks_retained(entry_views(old(self).tracks@), entry_views(final(self).tracks@)),
            old(self).provenance.records().is_prefix_of(final(self).provenance.records()),
            res matches Ok(out) ==> change_recorded(
                entry_views(old(self).tracks@),
                old(self).provenance.records(),
                final(self).provenance.records(),
                seq![obs.observation_id@],
                out@,
            ),
    {
        self.track_seq = self.track_seq + 1;
        let track_id = TrackId::seq(self.track_seq);
        proof {
            reveal_strlit("pending");
            let ts = entry_views(self.tracks@);
            assert forall|i: int| 0 <= i < ts.len() implies ts[i].track.track_id != track_id@ by {
                lemma_numbered_fresh(ts[i].track.track_id, "trk"@, (self.track_seq - 1) as u64);
            }
        }
        let supporting = vec![obs.observation_id.clone()];
        let sources = vec![obs.source_id.clone()];
        let entry = TrackEntry {
            track: FusedTrack {
                schema_version: SCHEMA_VERSION,
                track_id: track_id.clone(),
                version: 0,
                created_at: now,
                updated_at: now,
                confidence_score: Magnitude(0),
                provenance_ref: ProvenanceId::new("pending"),
                contributing_observations: vec![obs.observation_id.clone()],
                contributing_sources: vec![obs.source_id.clone()],
                conflicts: Vec::new(),
                status: TrackStatus::Tentative,
            },
            supporting,
            conflicting: Vec::new(),
            sources,
            first_obs_at: obs.observed_at,
            confirmed_at: None,
            last_provenance: ProvenanceId::new("pending"),
        };
        proof {
            assert(id_views(entry.supporting@) =~= seq![obs.observation_id@]);
            assert(id_views(entry.sources@) =~= seq![obs.source_id@]);
            assert(id_views(entry.track.contributing_observations@) =~= seq![obs.observation_id@]);
            assert(id_views(entry.track.contributing_sources@) =~= seq![obs.source_id@]);
            assert(id_views(entry.conflicting@) =~= Seq::<Seq<char>>::empty());
            assert(crate::model::conflict_views(entry.track.conflicts@) =~= Seq::<crate::model::ConflictRecordView>::empty());
            assert(entry@ =~= new_entry(track_id@, obs.observation_id@, obs.source_id@, obs.observed_at, now));
            assert forall|i: int| 0 <= i < entry_views(self.tracks@).len() implies numbered(
                #[trigger] entry_views(self.tracks@)[i].track.track_id,
                "trk"@,
                self.track_seq,
            ) by {
                lemma_numbered_fresh(entry_views(self.tracks@)[i].track.track_id, "trk"@, (self.track_seq - 1) as u64);
            }
            assert(numbered(track_id@, "trk"@, self.track_seq));
            // No record belongs to the new track yet.
            let log = self.provenance.records();
            assert forall|k: int| 0 <= k < log.len() implies (#[trigger] log[k]).track_id != track_id@ && numbered(
                log[k].track_id,
                "trk"@,
                self.track_seq,
            ) by {
                lemma_numbered_fresh(log[k].track_id, "trk"@, (self.track_seq - 1) as u64);
            }
            lemma_chain_members(log, track_id@);
            if chain_of(log, track_id@).len() > 0 {
                let x = chain_of(log, track_id@)[0];
                let k = choose|k: int| 0 <= k < log.len() && log[k] == x;
                assert(log[k].track_id == track_id@);
            }
        }
        let index = self.tracks.len();
        let ghost before = entry_views(self.tracks@);
        let res = self.publish(entry, index, now, ProvenanceOp::Created, None, &obs.observation_id, &obs.source_id, score);
        proof {
            let p = choose|p: TrackEntryView|
                entry_views(self.tracks@) == before.insert(index as int, p) && p.track.track_id == track_id@
                    && p.track.conflicts == Seq::<crate::model::ConflictRecordView>::empty();
            lemma_append_retains(before, p);
            assert(!has_track(before, track_id@));
        }
        res
    }


    fn merge_into<S: Fn(&TrackEvidence) -> Magnitude>(
        &mut self,
        track_id: &TrackId,
        obs: &Observation,
        now: Timestamp,
        score: S,
    ) -> (res: Result<FusionOutcome, FabricError>)
        requires
            old(self).inv(),
            old(self).prov_seq < u64::MAX,
            old(self).cue_seq < u64::MAX,
            scorer_total(score),
        ensures
            final(self).inv(),
            !has_track(entry_views(old(self).tracks@), track_id@) ==> (res matches Err(FabricError::NotFound(msg))
                && msg@ == "track "@ + track_id@ && *final(self) == *old(self)),
            has_track(entry_views(old(self).tracks@), track_id@) ==> (res matches Ok(out) && exists|s: Magnitude|
                scored(
                    score,
                    evidence_of(
                        merged_entry(
                            entry_views(old(self).tracks@)[track_index(entry_views(old(self).tracks@), track_id@)],
                            obs.observation_id@,
                            obs.source_id@,
                        ),
                        now,
                        old(self).sources@,
                        old(self).health@,
                        old(self).observations@,
                        old(self).config,
                    ),
                    s,
                ) && publish_effect(
                    entry_views(old(self).tracks@).remove(track_index(entry_views(old(self).tracks@), track_id@)),
                    old(self).provenance.records(),
                    old(self).sequence_numbers(),
                    old(self).config,
                    merged_entry(
                        entry_views(old(self).tracks@)[track_index(entry_views(old(self).tracks@), track_id@)],
                        obs.observation_id@,
                        obs.source_id@,
                    ),
                    track_index(entry_views(old(self).tracks@), track_id@),
                    now,
                    ProvenanceOp::Merged,
                    Some(entry_views(old(self).tracks@)[track_index(entry_views(old(self).tracks@), track_id@)].track.confidence_score),
                    obs.observation_id@,
                    obs.source_id@,
                    s,
                    entry_views(final(self).tracks@),
                    final(self).provenance.records(),
                    final(self).sequence_numbers(),
                    out@,
                )),
            final(self).config == old(self).config,
            final(self).sources == old(self).sources,
            final(self).health == old(self).health,
            final(self).observations == old(self).observations,
            final(self).stale_rejections == old(self).stale_rejections,
            tracks_retained(entry_views(old(self).tracks@), entry_views(final(self).tracks@)),
            old(self).provenance.records().is_prefix_of(final(self).provenance.records()),
            res matches Ok(out) ==> change_recorded(
                entry_views(old(self).tracks@),
                old(self).provenance.records(),
                final(self).provenance.records(),
                seq![obs.observation_id@],
                out@,
            ),
    {
        let i = match self.find_track(track_id) {
            Some(i) => i,
            None => {
                let mut msg = String::from_str("track ");
                msg.append(track_id.as_str());
                proof {
                    reveal_strlit("track ");
                    lemma_retained_refl(entry_views(self.tracks@));
                    assert(self.provenance.records().subrange(0, self.provenance.records().len() as int)
                        =~= self.provenance.records());
                }
                return Err(FabricError::NotFound(msg));
            },
        };
        proof {
            lemma_integrity_remove(entry_views(self.tracks@), self.provenance.records(), self.track_seq, self.prov_seq, i as int);
            assert(entry_views(self.tracks@.remove(i as int)) =~= entry_views(self.tracks@).remove(i as int));
        }
        let ghost e0 = self.tracks@[i as int]@;
        let mut entry = self.tracks.remove(i);
        let before = entry.track.confidence_score;
        entry.supporting.push(obs.observation_id.clone());
        if !contains_source(&entry.sources, &obs.source_id) {
            entry.sources.push(obs.source_id.clone());
        }
        proof {
            assert(id_views(entry.supporting@) =~= e0.supporting.push(obs.observation_id@));
            assert(id_views(entry.sources@) =~= add_unique(e0.sources, obs.source_id@));
            assert(entry@ =~= merged_entry(e0, obs.observation_id@, obs.source_id@));
        }
        let ghost rest = entry_views(self.tracks@);
        let res = self.publish(entry, i, now, ProvenanceOp::Merged, Some(before), &obs.observation_id, &obs.source_id, score);
        proof {
            let p = choose|p: TrackEntryView|
                entry_views(self.tracks@) == rest.insert(i as int, p) && p.track.track_id == e0.track.track_id
                    && p.track.conflicts == e0.track.conflicts;
            assert(e0.track.conflicts.subrange(0, e0.track.conflicts.len() as int) =~= e0.track.conflicts);
            lemma_replace_retains(entry_views(old(self).tracks@), i as int, p, entry_views(self.tracks@));
            assert(track_traceable(old(self).provenance.records(), entry_views(old(self).tracks@)[i as int]));
            assert(entry_views(old(self).tracks@)[i as int] == e0);
        }
        res
    }

    fn preserve_conflict<S: Fn(&TrackEvidence) -> Magnitude>(
        &mut self,
        track_id: &TrackId,
        obs: &Observation,
        now: Timestamp,
        divergence_m: Magnitude,
        score: S,
    ) -> (res: Result<FusionOutcome, FabricError>)
        requires
            old(self).inv(),
            old(self).prov_seq < u64::MAX,
            old(self).cue_seq < u64::MAX,
            scorer_total(score),
        ensures
            final(self).inv(),
            !has_track(entry_views(old(self).tracks@), track_id@) ==> (res matches Err(FabricError::NotFound(msg))
                && msg@ == "track "@ + track_id@ && *final(self) == *old(self)),
            has_track(entry_views(old(self).tracks@), track_id@) ==> (res matches Ok(out) && exists|s: Magnitude|
                scored(
                    score,
                    evidence_of(
                        conflicted_entry(
                            entry_views(old(self).tracks@)[track_index(entry_views(old(self).tracks@), track_id@)],
                            obs.observation_id@,
                            obs.source_id@,
                            divergence_m,
                        ),
                        now,
                        old(self).sources@,
                        old(self).health@,
                        old(self).observations@,
                        old(self).config,
                    ),
                    s,
                ) && publish_effect(
                    entry_views(old(self).tracks@).remove(track_index(entry_views(old(self).tracks@), track_id@)),
                    old(self).provenance.records(),
                    old(self).sequence_numbers(),
                    old(self).config,
                    conflicted_entry(
                        entry_views(old(self).tracks@)[track_index(entry_views(old(self).tracks@), track_id@)],
                        obs.observation_id@,
                        obs.source_id@,
                        divergence_m,
                    ),
                    track_index(entry_views(old(self).tracks@), track_id@),
                    now,
                    ProvenanceOp::ConflictPreserved,
                    Some(entry_views(old(self).tracks@)[track_index(entry_views(old(self).tracks@), track_id@)].track.confidence_score),
                    obs.observation_id@,
                    obs.source_id@,
                    s,
                    entry_views(final(self).tracks@),
                    final(self).provenance.records(),
                    final(self).sequence_numbers(),
                    out@,
                )),
            final(self).config == old(self).config,
            final(self).sources == old(self).sources,
            final(self).health == old(self).health,
            final(self).observations == old(self).observations,
            final(self).stale_rejections == old(self).stale_rejections,
            tracks_retained(entry_views(old(self).tracks@), entry_views(final(self).tracks@)),
            old(self).provenance.records().is_prefix_of(final(self).provenance.records()),
            res matches Ok(out) ==> change_recorded(
                entry_views(old(self).tracks@),
                old(self).provenance.records(),
                final(self).provenance.records(),
                seq![obs.observation_id@],
                out@,
            ),
    {
        let i = match self.find_track(track_id) {
            Some(i) => i,
            None => {
                let mut msg = String::from_str("track ");
                msg.append(track_id.as_str());
                proof {
                    reveal_strlit("track ");
                    lemma_retained_refl(entry_views(self.tracks@));
                    assert(self.provenance.records().subrange(0, self.provenance.records().len() as int)
                        =~= self.provenance.records());
                }
                return Err(FabricError::NotFound(msg));
            },
        };
        proof {
            lemma_integrity_remove(entry_views(self.tracks@), self.provenance.records(), self.track_seq, self.prov_seq, i as int);
            assert(entry_views(self.tracks@.remove(i as int)) =~= entry_views(self.tracks@).remove(i as int));
            reveal_strlit("observation outside merge gate but within conflict gate");
        }
        let ghost e0 = self.tracks@[i as int]@;
        let mut entry = self.tracks.remove(i);
        let before = entry.track.confidence_score;
        entry.conflicting.push(obs.observation_id.clone());
        let record = ConflictRecord {
            observation_id: obs.observation_id.clone(),
            source_id: obs.source_id.clone(),
            reason: String::from_str("observation outside merge gate but within conflict gate"),
            divergence_m,
        };
        let ghost rv = record@;
        entry.track.conflicts.push(record);
        // A conflicting source still counts toward "sources touching this track".
        if !contains_source(&entry.sources, &obs.source_id) {
            entry.sources.push(obs.source_id.clone());
        }
        proof {
            assert(id_views(entry.conflicting@) =~= e0.conflicting.push(obs.observation_id@));
            assert(crate::model::conflict_views(entry.track.conflicts@) =~= e0.track.conflicts.push(rv));
            assert(id_views(entry.sources@) =~= add_unique(e0.sources, obs.source_id@));
            assert(entry@ =~= conflicted_entry(e0, obs.observation_id@, obs.source_id@, divergence_m));
        }
        let ghost rest = entry_views(self.tracks@);
        let res = self.publish(
            entry,
            i,
            now,
            ProvenanceOp::ConflictPreserved,
            Some(before),
            &obs.observation_id,
            &obs.source_id,
            score,
        );
        proof {
            let p = choose|p: TrackEntryView|
                entry_views(self.tracks@) == rest.insert(i as int, p) && p.track.track_id == e0.track.track_id
                    && p.track.conflicts == e0.track.conflicts.push(rv);
            assert(p.track.conflicts.subrange(0, e0.track.conflicts.len() as int) =~= e0.track.conflicts);
            lemma_replace_retains(entry_views(old(self).tracks@), i as int, p, entry_views(self.tracks@));
            assert(track_traceable(old(self).provenance.records(), entry_views(old(self).tracks@)[i as int]));
            assert(entry_views(old(self).tracks@)[i as int] == e0);
        }
        res
    }


    /// Whether every counter the engine advances has room to advance.
    pub open spec fn has_room(&self) -> bool {
        &&& self.sequence_numbers().0 < u64::MAX
        &&& self.sequence_numbers().1 < u64::MAX
        &&& self.sequence_numbers().2 < u64::MAX
        &&& self.stale_count() < u64::MAX
    }

    fn is_registered(&self, id: &SourceId) -> (known: bool)
        ensures
            known == source_known(self.sources@, id@),
    {
        let n = self.sources.len();
        let mut i: usize = 0;
        while i < n
            invariant
                n == self.sources@.len(),
                i <= n,
                forall|j: int| 0 <= j < i ==> self.sources@[j].source_id@ != id@,
            decreases n - i,
        {
            if self.sources[i].source_id.0 == id.0 {
                return true;
            }
            i = i + 1;
        }
        false
    }

    /// The identifiers of the tracks that are not `Dropped`.
    pub fn live_track_ids(&self) -> (ids: Vec<TrackId>)
        ensures
            id_views(ids@) == live_track_ids(self.track_entries()),
    {
        let n = self.tracks.len();
        let mut ids: Vec<TrackId> = Vec::new();
        let mut i: usize = 0;
        while i < n
            invariant
                n == self.tracks@.len(),
                i <= n,
                id_views(ids@) == live_track_ids(entry_views(self.tracks@).take(i as int)),
            decreases n - i,
        {
            assert(entry_views(self.tracks@).take(i + 1).drop_last() =~= entry_views(self.tracks@).take(i as int));
            assert(entry_views(self.tracks@).take(i + 1).last() == self.tracks@[i as int]@);
            if self.tracks[i].track.status != TrackStatus::Dropped {
                ids.push(self.tracks[i].track.track_id.clone());
                assert(id_views(ids@) =~= live_track_ids(entry_views(self.tracks@).take(i as int)).push(
                    self.tracks@[i as int]@.track.track_id,
                ));
            }
            i = i + 1;
        }
        assert(entry_views(self.tracks@).take(n as int) =~= entry_views(self.tracks@));
        ids
    }

    /// Ingests and fuses one observation.
    ///
    /// A signature that does not verify, or an observation older than the
    /// staleness limit, is rejected. Otherwise the source is registered on
    /// first sighting and the observation recorded; a non-kinematic
    /// observation stops there, a kinematic one is related to the live tracks
    /// by `associate` and fused accordingly, with `score` rating the touched
    /// track.
    pub fn process_observation<A: Fn(&Vec<TrackId>) -> Association, S: Fn(&TrackEvidence) -> Magnitude>(
        &mut self,
        obs: Observation,
        associate: A,
        score: S,
    ) -> (res: Result<FusionOutcome, FabricError>)
        requires
            old(self).inv(),
            old(self).has_room(),
            signature_ok(&obs) ==> i64::MIN <= observation_age(&obs) <= i64::MAX,
            associator_total(associate),
            scorer_total(score),
        ensures
            final(self).inv(),
            observation_step(*old(self), obs, associate, score, *final(self), res),
    {
        proof {
            lemma_retained_refl(self.track_entries());
            assert(self.provenance_log().subrange(0, self.provenance_log().len() as int) =~= self.provenance_log());
        }
        // Signed-event check (the placeholder algorithm always verifies).
        if !obs.signature.verify(&[]) {
            return Ok(FusionOutcome::rejected(RejectionReason::SignatureInvalid));
        }
        proof {
            reveal_strlit("none-v0");
        }
        // "now" is the observation's receive time, so the path stays data-driven.
        let now = obs.received_at;
        let age = obs.observed_at.age_ms(now);
        if age > self.config.staleness_limit_ms {
            self.stale_rejections = self.stale_rejections + 1;
            return Ok(
                FusionOutcome::rejected(
                    RejectionReason::Stale { age_ms: age, limit_ms: self.config.staleness_limit_ms },
                ),
            );
        }
        // Register a source on first sighting, with the default reliability.
        if !self.is_registered(&obs.source_id) {
            let source = Source {
                schema_version: SCHEMA_VERSION,
                source_id: obs.source_id.clone(),
                kind: obs.source_kind,
                name: obs.source_id.0.clone(),
                reliability: self.config.default_source_reliability.clamped_unit(),
                registered_at: now,
            };
            self.register_source(source);
            proof {
                lemma_first_match(old(self).sources@, |x: Source| x.source_id@ == obs.source_id@);
                assert(self.sources@.drop_last() =~= old(self).sources@);
            }
        }
        // Non-kinematic observations are recorded for audit but not associated.
        if obs.state.is_none() {
            self.record_observation(&obs.observation_id, obs.observed_at);
            proof {
                reveal_strlit("non-kinematic observation recorded for audit only");
            }
            return Ok(
                FusionOutcome {
                    accepted: true,
                    rejection: None,
                    operation: None,
                    track: None,
                    provenance: None,
                    cue: None,
                    note: Some(String::from_str("non-kinematic observation recorded for audit only")),
                },
            );
        }
        let live = self.live_track_ids();
        let association = associate(&live);
        self.record_observation(&obs.observation_id, obs.observed_at);
        let ghost mid = *self;
        let res = match &association {
            Association::New => self.create_track(&obs, now, score),
            Association::Merge { track_id, .. } => self.merge_into(track_id, &obs, now, score),
            Association::Conflict { track_id, divergence_m } => self.preserve_conflict(
                track_id,
                &obs,
                now,
                *divergence_m,
                score,
            ),
        };
        proof {
            assert(call_ensures(associate, (&live,), association));
        }
        res
    }


    /// Applies operator feedback: re-scores the track and records an
    /// append-only `OperatorOverride` entry; a rejection drops the track.
    /// Any explicit confidence adjustment is taken into account by `score`.
    pub fn apply_operator_feedback<S: Fn(&TrackEvidence) -> Magnitude>(
        &mut self,
        fb: OperatorFeedback,
        score: S,
    ) -> (res: Result<FusionOutcome, FabricError>)
        requires
            old(self).inv(),
            old(self).has_room(),
            scorer_total(score),
        ensures
            final(self).inv(),
            feedback_step(*old(self), fb, score, *final(self), res),
    {
        let now = fb.submitted_at;
        let i = match self.find_track(&fb.track_id) {
            Some(i) => i,
            None => {
                let mut msg = String::from_str("track ");
                msg.append(fb.track_id.as_str());
                proof {
                    reveal_strlit("track ");
                    lemma_retained_refl(entry_views(self.tracks@));
                    assert(self.provenance.records().subrange(0, self.provenance.records().len() as int)
                        =~= self.provenance.records());
                }
                return Err(FabricError::NotFound(msg));
            },
        };
        proof {
            lemma_integrity_remove(entry_views(self.tracks@), self.provenance.records(), self.track_seq, self.prov_seq, i as int);
        }
        let ghost tracks0 = entry_views(self.tracks@);
        let ghost log0 = self.provenance.records();
        let ghost e0 = self.tracks@[i as int]@;
        let mut entry = self.tracks.remove(i);
        let before = entry.track.confidence_score;
        let evidence = self.build_inputs(&entry, now);
        let confidence = score(&evidence);
        if fb.verdict == FeedbackVerdict::RejectTrack {
            entry.track.status = TrackStatus::Dropped;
        }
        self.prov_seq = self.prov_seq + 1;
        let provenance_id = ProvenanceId::seq(self.prov_seq);
        let version = entry.track.version + 1;
        let mut notes = String::from_str("operator ");
        notes.append(fb.operator_id.as_str());
        notes.append(" verdict ");
        notes.append(fb.verdict.label());
        proof {
            reveal_strlit("operator ");
            reveal_strlit(" verdict ");
        }
        let observations: Vec<ObservationId> = Vec::new();
        let sources: Vec<SourceId> = Vec::new();
        let record = ProvenanceRecord {
            schema_version: SCHEMA_VERSION,
            provenance_id: provenance_id.clone(),
            track_id: entry.track.track_id.clone(),
            fused_version: version,
            created_at: now,
            operation: ProvenanceOp::OperatorOverride,
            contributing_observations: observations,
            contributing_sources: sources,
            confidence_before: Some(before),
            confidence_after: confidence,
            notes,
            prev_provenance_id: Some(entry.last_provenance.clone()),
        };
        proof {
            assert forall|k: int| 0 <= k < log0.len() implies log0[k].provenance_id != provenance_id@ by {
                lemma_numbered_fresh(log0[k].provenance_id, "prv"@, (self.prov_seq - 1) as u64);
            }
            assert(id_views(record.contributing_observations@) =~= Seq::<Seq<char>>::empty());
            assert(id_views(record.contributing_sources@) =~= Seq::<Seq<char>>::empty());
            assert(record@ =~= override_record(e0, now, confidence, provenance_id@, fb.operator_id@, fb.verdict));
        }
        match self.provenance.append(record.clone()) {
            Ok(()) => {},
            Err(e) => {
                return Err(e);
            },
        }
        entry.last_provenance = provenance_id.clone();
        entry.track.version = version;
        entry.track.updated_at = now;
        entry.track.confidence_score = confidence;
        entry.track.provenance_ref = provenance_id;
        let track = entry.track.clone();
        let ghost p = entry@;
        self.tracks.insert(i, entry);
        let out = FusionOutcome {
            accepted: true,
            rejection: None,
            operation: Some(ProvenanceOp::OperatorOverride),
            track: Some(track),
            provenance: Some(record),
            cue: None,
            note: None,
        };
        proof {
            let tracks = entry_views(self.tracks@);
            let log = self.provenance.records();
            assert(p =~= overridden_entry(e0, now, confidence, provenance_id@, fb.verdict));
            assert(tracks =~= tracks0.update(i as int, p));
            assert(e0.track.conflicts.subrange(0, e0.track.conflicts.len() as int) =~= e0.track.conflicts);
            lemma_replace_retains(tracks0, i as int, p, tracks);
            assert(log.subrange(0, log0.len() as int) =~= log0);
            assert(track_traceable(log0, tracks0[i as int]));
            assert(has_track(tracks0, e0.track.track_id));
            assert(i == track_index(tracks0, e0.track.track_id));
            assert forall|k: int| 0 <= k < log.len() implies numbered(
                #[trigger] log[k].provenance_id,
                "prv"@,
                self.prov_seq,
            ) by {
                if k < log0.len() {
                    lemma_numbered_fresh(log0[k].provenance_id, "prv"@, (self.prov_seq - 1) as u64);
                }
            }
            assert forall|k: int| 0 <= k < tracks.len() implies has_id(log, #[trigger] tracks[k].last_provenance) by {
                if k == i {
                    assert(log[log0.len() as int].provenance_id == p.last_provenance);
                } else {
                    assert(tracks[k] == tracks0[k]);
                    let m = choose|m: int| 0 <= m < log0.len() && log0[m].provenance_id == tracks[k].last_provenance;
                    assert(log[m] == log0[m]);
                }
            }
            assert forall|a: int, b: int| 0 <= a < b < tracks.len() implies tracks[a].track.track_id
                != tracks[b].track.track_id by {
                assert(tracks[a].track.track_id == tracks0[a].track.track_id);
                assert(tracks[b].track.track_id == tracks0[b].track.track_id);
            }
            assert forall|k: int| 0 <= k < tracks.len() implies numbered(
                #[trigger] tracks[k].track.track_id,
                "trk"@,
                self.track_seq,
            ) && tracks[k].track.version <= self.prov_seq by {
                assert(tracks[k].track.track_id == tracks0[k].track.track_id);
            }
            // Traceability: the override record belongs to this track only
            // and lists no observation; the chain so far covers them all.
            assert(track_traceable(log0, e0));
            assert forall|j: int| 0 <= j < e0.supporting.len() implies record@.contributing_observations.contains(
                #[trigger] e0.supporting[j],
            ) || chain_covers(chain_of(log0, e0.track.track_id), e0.supporting[j]) by {
                assert(e0.supporting[j] == e0.track.contributing_observations[j]);
            }
            assert(record@.prev_provenance_id == (if chain_of(log0, e0.track.track_id).len() == 0 {
                None
            } else {
                Some(chain_of(log0, e0.track.track_id).last().provenance_id)
            }));
            lemma_traceable_after_publish(log0, e0, record@, p);
            assert forall|k: int| 0 <= k < log.len() implies numbered(#[trigger] log[k].track_id, "trk"@, self.track_seq) by {
                if k < log0.len() {
                    assert(log[k] == log0[k]);
                }
            }
            assert forall|k: int| 0 <= k < tracks.len() implies track_traceable(log, #[trigger] tracks[k]) by {
                if k != i {
                    assert(tracks[k] == tracks0[k]);
                    assert(tracks0[k].track.track_id != e0.track.track_id);
                    lemma_traceable_after_other_append(log0, record@, tracks0[k]);
                }
            }
            assert(evidence@ == evidence_of(e0, now, self.sources@, self.health@, self.observations@, self.config));
            assert(scored(score, evidence_of(e0, now, self.sources@, self.health@, self.observations@, self.config), confidence));
            assert(i == track_index(old(self).track_entries(), fb.track_id@));
            assert(tracks0 == old(self).track_entries());
            assert(e0 == old(self).track_entries()[i as int]);
            assert(override_effect(
                tracks0,
                log0,
                old(self).sequence_numbers(),
                i as int,
                &fb,
                confidence,
                tracks,
                log,
                self.sequence_numbers(),
                out@,
            ));
                    assert(scored(
                score,
                evidence_of(
                    old(self).track_entries()[track_index(old(self).track_entries(), fb.track_id@)],
                    fb.submitted_at,
                    old(self).registered_sources(),
                    old(self).health_reports(),
                    old(self).seen_observations(),
                    old(self).config(),
                ),
                confidence,
            ));
            assert(override_effect(
                old(self).track_entries(),
                old(self).provenance_log(),
                old(self).sequence_numbers(),
                track_index(old(self).track_entries(), fb.track_id@),
                &fb,
                confidence,
                self.track_entries(),
                self.provenance_log(),
                self.sequence_numbers(),
                out@,
            ));
        }
        Ok(out)
    }


    /// The engine's provenance store.
    pub fn provenance(&self) -> (store: &InMemoryProvenanceStore)
        ensures
            store.records() == self.provenance_log(),
    {
        &self.provenance
    }

    /// Every registered source, ordered by identifier.
    pub fn list_sources(&self) -> (sources: Vec<Source>)
        ensures
            sources@ == source_listing(self.registered_sources()),
    {
        let n = self.sources.len();
        let mut out: Vec<Source> = Vec::new();
        let mut i: usize = 0;
        while i < n
            invariant
                n == self.sources@.len(),
                i <= n,
                out@ == sort_by_key(self.sources@.take(i as int), |s: Source| s.source_id@),
            decreases n - i,
        {
            let src = self.sources[i].clone();
            let len = out.len();
            let mut k: usize = len;
            while k > 0 && str_lt(src.source_id.as_str(), out[k - 1].source_id.as_str())
                invariant
                    k <= len,
                    len == out@.len(),
                    forall|m: int| k <= m < len ==> lex_lt(src.source_id@, (#[trigger] out@[m]).source_id@),
                decreases k,
            {
                k = k - 1;
            }
            let ghost sorted = out@;
            proof {
                lemma_insert_by_key_at(sorted, src, |s: Source| s.source_id@, k as int);
                assert(self.sources@.take(i + 1).drop_last() =~= self.sources@.take(i as int));
            }
            out.insert(k, src);
            i = i + 1;
        }
        assert(self.sources@.take(n as int) =~= self.sources@);
        out
    }

    /// The published track `id`, if the engine holds it.
    pub fn get_track(&self, id: &TrackId) -> (track: Option<FusedTrack>)
        requires
            self.inv(),
        ensures
            match track {
                Some(t) => has_track(self.track_entries(), id@) && t@ == self.track_entries()[track_index(
                    self.track_entries(),
                    id@,
                )].track,
                None => !has_track(self.track_entries(), id@),
            },
    {
        match self.find_track(id) {
            Some(i) => Some(self.tracks[i].track.clone()),
            None => None,
        }
    }

    /// Every published track, ordered by identifier.
    pub fn all_tracks(&self) -> (tracks: Vec<FusedTrack>)
        ensures
            tracks@.map_values(|t: FusedTrack| t@) == track_listing(self.track_entries()),
            tracks@.len() == self.track_entries().len(),
    {
        let ghost all = published_tracks(entry_views(self.tracks@));
        let n = self.tracks.len();
        let mut out: Vec<FusedTrack> = Vec::new();
        let mut i: usize = 0;
        while i < n
            invariant
                n == self.tracks@.len(),
                i <= n,
                all == published_tracks(entry_views(self.tracks@)),
                out@.map_values(|t: FusedTrack| t@) == sort_by_key(all.take(i as int), |t: FusedTrackView| t.track_id),
                out@.len() == i,
            decreases n - i,
        {
            let t = self.tracks[i].track.clone();
            let len = out.len();
            let mut k: usize = len;
            while k > 0 && str_lt(t.track_id.as_str(), out[k - 1].track_id.as_str())
                invariant
                    k <= len,
                    len == out@.len(),
                    forall|m: int| k <= m < len ==> lex_lt(t.track_id@, (#[trigger] out@[m]).track_id@),
                decreases k,
            {
                k = k - 1;
            }
            let ghost sorted = out@.map_values(|t: FusedTrack| t@);
            proof {
                lemma_insert_by_key_at(sorted, t@, |t: FusedTrackView| t.track_id, k as int);
                assert(all.take(i + 1).drop_last() =~= all.take(i as int));
                assert(all[i as int] == t@);
            }
            let ghost tv = t@;
            out.insert(k, t);
            assert(out@.map_values(|t: FusedTrack| t@) =~= sorted.insert(k as int, tv));
            i = i + 1;
        }
        assert(all.take(n as int) =~= all);
        out
    }

    /// The time from a track's first observation to its confirmation, if it
    /// has been confirmed.
    pub fn confirmation_latency_ms(&self, id: &TrackId) -> (latency: Option<i64>)
        requires
            self.inv(),
            has_track(self.track_entries(), id@) ==> match self.track_entries()[track_index(
                self.track_entries(),
                id@,
            )].confirmed_at {
                Some(c) => i64::MIN <= c.0 - self.track_entries()[track_index(
                    self.track_entries(),
                    id@,
                )].first_obs_at.0 <= i64::MAX,
                None => true,
            },
        ensures
            match latency {
                Some(l) => has_track(self.track_entries(), id@) && {
                    let e = self.track_entries()[track_index(self.track_entries(), id@)];
                    e.confirmed_at matches Some(c) && l == c.0 - e.first_obs_at.0
                },
                None => !has_track(self.track_entries(), id@) || self.track_entries()[track_index(
                    self.track_entries(),
                    id@,
                )].confirmed_at is None,
            },
    {
        let i = self.find_track(id)?;
        let e = &self.tracks[i];
        assert(entry_views(self.tracks@)[i as int] == e@);
        match e.confirmed_at {
            Some(c) => Some(c.millis() - e.first_obs_at.millis()),
            None => None,
        }
    }

    /// The evidence the confidence scorer receives for track `id` at `now`.
    pub fn track_evidence(&self, id: &TrackId, now: Timestamp) -> (ev: Option<TrackEvidence>)
        requires
            self.inv(),
        ensures
            match ev {
                Some(e) => has_track(self.track_entries(), id@) && e@ == evidence_of(
                    self.track_entries()[track_index(self.track_entries(), id@)],
                    now,
                    self.registered_sources(),
                    self.health_reports(),
                    self.seen_observations(),
                    self.config(),
                ),
                None => !has_track(self.track_entries(), id@),
            },
    {
        let i = self.find_track(id)?;
        assert(entry_views(self.tracks@)[i as int] == self.tracks@[i as int]@);
        Some(self.build_inputs(&self.tracks[i], now))
    }

    pub fn stale_rejections(&self) -> (n: u64)
        ensures
            n == self.stale_count(),
    {
        self.stale_rejections
    }

    /// Whether the whole-number results of a run fit their types: every
    /// confirmation latency fits `i64` and the conflicts of all tracks
    /// together fit `usize`.
    pub fn counts_fit(&self) -> (ok: bool)
        requires
            self.inv(),
        ensures
            ok == counts_fit(self.track_entries()),
    {
        let tracks = self.all_tracks();
        proof {
            lemma_track_listing(self);
        }
        let ghost entries = self.track_entries();
        let ghost listed = track_listing(entries);
        let n = self.tracks.len();
        let mut i: usize = 0;
        while i < n
            invariant
                n == self.tracks@.len(),
                n == entries.len(),
                i <= n,
                entries == entry_views(self.tracks@),
                forall|k: int| 0 <= k < i ==> latency_fits(#[trigger] entries[k]),
            decreases n - i,
        {
            let e = &self.tracks[i];
            assert(entries[i as int] == e@);
            match e.confirmed_at {
                Some(c) => {
                    if c.millis().checked_sub(e.first_obs_at.millis()).is_none() {
                        return false;
                    }
                },
                None => {},
            }
            i = i + 1;
        }
        let m = tracks.len();
        let mut total: usize = 0;
        let mut j: usize = 0;
        while j < m
            invariant
                m == tracks@.len(),
                j <= m,
                tracks@.map_values(|t: FusedTrack| t@) == listed,
                entries == self.track_entries(),
                listed == track_listing(entries),
                forall|k: int| 0 <= k < entries.len() ==> latency_fits(#[trigger] entries[k]),
                total == conflict_total(listed.take(j as int)),
            decreases m - j,
        {
            let k = tracks[j].conflicts.len();
            assert(listed.take(j + 1).drop_last() =~= listed.take(j as int));
            assert(listed[j as int] == tracks@[j as int]@);
            assert(listed.take(j + 1).last() == listed[j as int]);
            assert(listed[j as int].conflicts.len() == k);
            if total > usize::MAX - k {
                proof {
                    lemma_conflict_total_prefix(listed, j + 1);
                }
                return false;
            }
            total = total + k;
            j = j + 1;
        }
        assert(listed.take(m as int) =~= listed);
        true
    }

    /// The whole-number results of a run, as the engine ends it: the tracks
    /// confirmed among those it lists, the confirmation latency of each of
    /// them, the stale rejections and the conflicts of all tracks, beside the
    /// counts the caller kept.
    pub fn metric_counts(
        &self,
        ground_truth_tracks: usize,
        accepted_observations: usize,
        operator_overrides: usize,
    ) -> (c: MetricCounts)
        requires
            self.inv(),
            counts_fit(self.track_entries()),
        ensures
            c.ground_truth_tracks == ground_truth_tracks,
            c.confirmed_tracks == confirmed_of(track_listing(self.track_entries())).len(),
            c.confirmed_tracks == track_listing(self.track_entries()).filter(
                |t: FusedTrackView| t.status == TrackStatus::Confirmed,
            ).len(),
            c.confirmation_latencies_ms@.map_values(|l: i64| l as int) == latencies_of(
                self.track_entries(),
                confirmed_of(track_listing(self.track_entries())),
            ),
            c.stale_rejections == self.stale_count(),
            c.total_conflicts == conflict_total(track_listing(self.track_entries())),
            c.accepted_observations == accepted_observations,
            c.operator_overrides == operator_overrides,
    {
        let tracks = self.all_tracks();
        proof {
            lemma_track_listing(self);
        }
        let ghost entries = self.track_entries();
        let ghost listed = track_listing(entries);
        let m = tracks.len();
        let mut confirmed: usize = 0;
        let mut latencies: Vec<i64> = Vec::new();
        let mut total: usize = 0;
        let mut j: usize = 0;
        while j < m
            invariant
                self.inv(),
                entries == self.track_entries(),
                counts_fit(entries),
                m == tracks@.len(),
                j <= m,
                tracks@.map_values(|t: FusedTrack| t@) == listed,
                listed == track_listing(entries),
                forall|i: int|
                    0 <= i < listed.len() ==> has_track(entries, (#[trigger] listed[i]).track_id),
                confirmed == confirmed_of(listed.take(j as int)).len(),
                confirmed <= j,
                latencies@.map_values(|l: i64| l as int) == latencies_of(entries, confirmed_of(listed.take(j as int))),
                total == conflict_total(listed.take(j as int)),
            decreases m - j,
        {
            let t = &tracks[j];
            assert(listed.take(j + 1).drop_last() =~= listed.take(j as int));
            assert(listed[j as int] == t@);
            assert(listed.take(j + 1).last() == t@);
            proof {
                lemma_conflict_total_prefix(listed, j + 1);
                assert(listed.take(listed.len() as int) =~= listed);
            }
            total = total + t.conflicts.len();
            match t.status {
                TrackStatus::Confirmed => {
                    confirmed = confirmed + 1;
                    let ghost before = latencies@;
                    let ghost done = confirmed_of(listed.take(j as int));
                    assert(done.push(t@).drop_last() =~= done);
                    assert(t.track_id@ == t@.track_id);
                    match self.confirmation_latency_ms(&t.track_id) {
                        Some(l) => {
                            latencies.push(l);
                            assert(latencies@.map_values(|l: i64| l as int) =~= before.map_values(
                                |l: i64| l as int,
                            ).push(l as int));
                        },
                        None => {},
                    }
                },
                _ => {},
            }
            j = j + 1;
        }
        assert(listed.take(m as int) =~= listed);
        proof {
            lemma_confirmed_tracks(listed);
        }
        MetricCounts {
            ground_truth_tracks,
            confirmed_tracks: confirmed,
            confirmation_latencies_ms: latencies,
            stale_rejections: self.stale_rejections,
            total_conflicts: total,
            accepted_observations,
            operator_overrides,
        }
    }
}

/// Integrity of the engine's tracks and log, given its sequence numbers.
pub open spec fn engine_integrity(
    tracks: Seq<TrackEntryView>,
    log: Seq<ProvenanceRecordView>,
    track_seq: u64,
    prov_seq: u64,
) -> bool {
    &&& crate::provenance::chain_intact(log)
    &&& distinct_tracks(tracks)
    &&& forall|i: int|
        0 <= i < tracks.len() ==> numbered(#[trigger] tracks[i].track.track_id, "trk"@, track_seq)
    &&& forall|i: int| 0 <= i < log.len() ==> numbered(#[trigger] log[i].provenance_id, "prv"@, prov_seq)
    &&& forall|i: int| 0 <= i < tracks.len() ==> has_id(log, #[trigger] tracks[i].last_provenance)
    &&& forall|i: int| 0 <= i < tracks.len() ==> #[trigger] tracks[i].track.version <= prov_seq
}

/// A live track is traceable through `log`: it references its latest
/// record, lists its supporting observations as contributing, no record of
/// it is newer than the track, and its chain starts with its creation and
/// covers every contributing observation.
pub open spec fn track_traceable(log: Seq<ProvenanceRecordView>, e: TrackEntryView) -> bool {
    &&& e.track.provenance_ref == e.last_provenance
    &&& e.track.contributing_observations == e.supporting
    &&& forall|k: int|
        0 <= k < log.len() && (#[trigger] log[k]).track_id == e.track.track_id ==> log[k].fused_version
            <= e.track.version
    &&& chain_complete(chain_of(log, e.track.track_id), e.track)
    &&& chain_linked(chain_of(log, e.track.track_id))
    &&& chain_of(log, e.track.track_id).last().provenance_id == e.last_provenance
}

/// Every record of the log belongs to a numbered track, and every live
/// track is traceable.
pub open spec fn traceability(tracks: Seq<TrackEntryView>, log: Seq<ProvenanceRecordView>, track_seq: u64) -> bool {
    &&& forall|k: int| 0 <= k < log.len() ==> numbered(#[trigger] log[k].track_id, "trk"@, track_seq)
    &&& forall|i: int| 0 <= i < tracks.len() ==> track_traceable(log, #[trigger] tracks[i])
}

/// Appending a record of another track keeps a track traceable.
proof fn lemma_traceable_after_other_append(log: Seq<ProvenanceRecordView>, r: ProvenanceRecordView, e: TrackEntryView)
    requires
        track_traceable(log, e),
        r.track_id != e.track.track_id,
    ensures
        track_traceable(log.push(r), e),
{
    lemma_chain_after_append(log, r, e.track.track_id);
    let l2 = log.push(r);
    assert forall|k: int| 0 <= k < l2.len() && (#[trigger] l2[k]).track_id == e.track.track_id implies l2[k].fused_version
        <= e.track.version by {
        assert(k < log.len());
        assert(l2[k] == log[k]);
    }
}

/// Publishing version `e.track.version + 1` of a track as `p`, with the
/// record `r` appended, keeps the track traceable when its chain so far
/// covers every supporting observation that `r` does not list, and either
/// starts with its creation or is empty and `r` creates the track.
proof fn lemma_traceable_after_publish(
    log: Seq<ProvenanceRecordView>,
    e: TrackEntryView,
    r: ProvenanceRecordView,
    p: TrackEntryView,
)
    requires
        r.track_id == e.track.track_id,
        r.fused_version == e.track.version + 1,
        forall|k: int|
            0 <= k < log.len() && (#[trigger] log[k]).track_id == e.track.track_id ==> log[k].fused_version
                <= e.track.version,
        (chain_of(log, e.track.track_id).len() == 0 && r.operation == ProvenanceOp::Created) || (chain_of(
            log,
            e.track.track_id,
        ).len() > 0 && chain_of(log, e.track.track_id)[0].operation == ProvenanceOp::Created),
        forall|j: int|
            0 <= j < e.supporting.len() ==> r.contributing_observations.contains(#[trigger] e.supporting[j])
                || chain_covers(chain_of(log, e.track.track_id), e.supporting[j]),
        chain_linked(chain_of(log, e.track.track_id)),
        r.prev_provenance_id == (if chain_of(log, e.track.track_id).len() == 0 {
            None
        } else {
            Some(chain_of(log, e.track.track_id).last().provenance_id)
        }),
        r.provenance_id == p.last_provenance,
        p.track.track_id == e.track.track_id,
        p.track.version == r.fused_version,
        p.track.provenance_ref == p.last_provenance,
        p.track.contributing_observations == e.supporting,
        p.supporting == e.supporting,
    ensures
        track_traceable(log.push(r), p),
{
    let t = e.track.track_id;
    let chain = chain_of(log, t);
    lemma_chain_after_append(log, r, t);
    lemma_chain_members(log, t);
    assert(insert_by_version(chain, r) =~= chain.push(r)) by {
        if chain.len() > 0 {
            let x = chain.last();
            assert(x == chain[chain.len() - 1]);
            let k = choose|k: int| 0 <= k < log.len() && log[k] == x;
            assert(log[k].track_id == t);
        }
    }
    let c2 = chain_of(log.push(r), t);
    assert(c2 == chain.push(r));
    assert(chain_linked(c2)) by {
        assert forall|k: int| 0 < k < c2.len() implies #[trigger] c2[k].prev_provenance_id == Some(
            c2[k - 1].provenance_id,
        ) by {
            if k == chain.len() {
                assert(c2[k] == r);
                assert(c2[k - 1] == chain.last());
            } else {
                assert(c2[k] == chain[k] && c2[k - 1] == chain[k - 1]);
            }
        }
        if chain.len() == 0 {
            assert(c2[0] == r);
        } else {
            assert(c2[0] == chain[0]);
        }
    }
    assert(c2.last() == r);
    assert(c2[0].operation == ProvenanceOp::Created) by {
        if chain.len() > 0 {
            assert(c2[0] == chain[0]);
        }
    }
    assert forall|j: int| 0 <= j < p.track.contributing_observations.len() implies chain_covers(
        c2,
        #[trigger] p.track.contributing_observations[j],
    ) by {
        let o = e.supporting[j];
        if r.contributing_observations.contains(o) {
            assert(c2[chain.len() as int] == r);
        } else {
            let k = choose|k: int| 0 <= k < chain.len() && (#[trigger] chain[k]).contributing_observations.contains(o);
            assert(c2[k] == chain[k]);
        }
    }
    let l2 = log.push(r);
    assert forall|k: int| 0 <= k < l2.len() && (#[trigger] l2[k]).track_id == p.track.track_id implies l2[k].fused_version
        <= p.track.version by {
        if k < log.len() {
            assert(l2[k] == log[k]);
        }
    }
}

/// A key-sorted sequence has the length of the sequence it sorts, and each
/// of its elements is an element of that sequence.
proof fn lemma_sort_by_key_members<T>(s: Seq<T>, key: spec_fn(T) -> Seq<char>)
    ensures
        sort_by_key(s, key).len() == s.len(),
        forall|m: int| 0 <= m < sort_by_key(s, key).len() ==> s.contains(#[trigger] sort_by_key(s, key)[m]),
    decreases s.len(),
{
    if s.len() > 0 {
        let rest = s.drop_last();
        lemma_sort_by_key_members(rest, key);
        lemma_insert_by_key_members(sort_by_key(rest, key), s.last(), key);
        let out = sort_by_key(s, key);
        assert forall|m: int| 0 <= m < out.len() implies s.contains(#[trigger] out[m]) by {
            if out[m] == s.last() {
                assert(s[s.len() - 1] == s.last());
            } else {
                let k = choose|k: int| 0 <= k < sort_by_key(rest, key).len() && sort_by_key(rest, key)[k] == out[m];
                let q = choose|q: int| 0 <= q < rest.len() && rest[q] == sort_by_key(rest, key)[k];
                assert(s[q] == rest[q]);
            }
        }
    }
}

/// Inserting into a sequence adds one element and keeps the others.
proof fn lemma_insert_by_key_members<T>(s: Seq<T>, t: T, key: spec_fn(T) -> Seq<char>)
    ensures
        insert_by_key(s, t, key).len() == s.len() + 1,
        forall|m: int|
            0 <= m < insert_by_key(s, t, key).len() ==> #[trigger] insert_by_key(s, t, key)[m] == t || s.contains(
                insert_by_key(s, t, key)[m],
            ),
    decreases s.len(),
{
    let out = insert_by_key(s, t, key);
    if s.len() == 0 {
    } else if !lex_lt(key(t), key(s.last())) {
        assert forall|m: int| 0 <= m < out.len() implies #[trigger] out[m] == t || s.contains(out[m]) by {
            if m < s.len() {
                assert(out[m] == s[m]);
            }
        }
    } else {
        let rest = s.drop_last();
        lemma_insert_by_key_members(rest, t, key);
        assert forall|m: int| 0 <= m < out.len() implies #[trigger] out[m] == t || s.contains(out[m]) by {
            if m == out.len() - 1 {
                assert(s[s.len() - 1] == out[m]);
            } else {
                let inner = insert_by_key(rest, t, key);
                assert(out[m] == inner[m]);
                if inner[m] != t {
                    let q = choose|q: int| 0 <= q < rest.len() && rest[q] == inner[m];
                    assert(s[q] == rest[q]);
                }
            }
        }
    }
}

/// In every engine state, no two tracks share an identifier, and each
/// track's provenance reference is the record its entry was last published
/// under, listing its supporting observations as contributing.
pub proof fn lemma_engine_shape(engine: &FusionEngine)
    requires
        engine.inv(),
    ensures
        distinct_tracks(engine.track_entries()),
        forall|i: int|
            0 <= i < engine.track_entries().len() ==> (#[trigger] engine.track_entries()[i]).track.provenance_ref
                == engine.track_entries()[i].last_provenance && engine.track_entries()[i].track.contributing_observations
                == engine.track_entries()[i].supporting,
{
    assert forall|i: int| 0 <= i < engine.track_entries().len() implies (#[trigger] engine.track_entries()[i]).track.provenance_ref
        == engine.track_entries()[i].last_provenance && engine.track_entries()[i].track.contributing_observations
        == engine.track_entries()[i].supporting by {
        assert(track_traceable(engine.provenance_log(), engine.track_entries()[i]));
    }
}

/// The listing of `all_tracks` holds every published track, `Dropped` ones
/// included; its identifiers strictly ascend, so none occurs twice; and each
/// listed track is the one that `get_track` gives for its identifier.
pub proof fn lemma_track_listing(engine: &FusionEngine)
    requires
        engine.inv(),
    ensures
        track_listing(engine.track_entries()).len() == engine.track_entries().len(),
        track_listing(engine.track_entries()).to_multiset() == published_tracks(engine.track_entries()).to_multiset(),
        forall|k: int|
            0 <= k < engine.track_entries().len() ==> exists|i: int|
                0 <= i < track_listing(engine.track_entries()).len() && #[trigger] track_listing(engine.track_entries())[i] == (
                #[trigger] published_tracks(engine.track_entries())[k]),
        forall|i: int, j: int|
            0 <= i < j < track_listing(engine.track_entries()).len() ==> lex_lt(
                (#[trigger] track_listing(engine.track_entries())[i]).track_id,
                (#[trigger] track_listing(engine.track_entries())[j]).track_id,
            ),
        forall|i: int|
            0 <= i < track_listing(engine.track_entries()).len() ==> has_track(engine.track_entries(), (#[trigger] track_listing(engine.track_entries())[i]).track_id)
                && track_listing(engine.track_entries())[i] == engine.track_entries()[track_index(engine.track_entries(), track_listing(engine.track_entries())[i].track_id)].track,
{
    lemma_engine_shape(engine);
    lemma_listing_of(engine.track_entries());
}

/// The listing of `entries` sorted by identifier, when no two share one.
proof fn lemma_listing_of(entries: Seq<TrackEntryView>)
    requires
        distinct_tracks(entries),
    ensures
        track_listing(entries).len() == entries.len(),
        track_listing(entries).to_multiset() == published_tracks(entries).to_multiset(),
        forall|k: int|
            0 <= k < entries.len() ==> exists|i: int|
                0 <= i < track_listing(entries).len() && #[trigger] track_listing(entries)[i] == (
                #[trigger] published_tracks(entries)[k]),
        forall|i: int, j: int|
            0 <= i < j < track_listing(entries).len() ==> lex_lt(
                (#[trigger] track_listing(entries)[i]).track_id,
                (#[trigger] track_listing(entries)[j]).track_id,
            ),
        forall|i: int|
            0 <= i < track_listing(entries).len() ==> has_track(entries, (#[trigger] track_listing(entries)[i]).track_id)
                && track_listing(entries)[i] == entries[track_index(entries, track_listing(entries)[i].track_id)].track,
{
    lemma_sort_by_key_members(published_tracks(entries), |t: FusedTrackView| t.track_id);
    lemma_sorted_tracks_complete(entries, track_listing(entries));
    lemma_sorted_tracks_ordered(entries, track_listing(entries));
}

/// Every fused track can be traced: its provenance reference names a stored
/// record, the newest of its chain; the chain starts with the track's
/// creation, each record links to the one before it, and the chain covers
/// every observation that contributes to the track.
pub proof fn lemma_every_track_is_traceable(engine: &FusionEngine)
    requires
        engine.inv(),
    ensures
        forall|i: int|
            0 <= i < engine.track_entries().len() ==> {
                let t = (#[trigger] engine.track_entries()[i]).track;
                let chain = chain_of(engine.provenance_log(), t.track_id);
                &&& has_id(engine.provenance_log(), t.provenance_ref)
                &&& chain_complete(chain, t)
                &&& chain_linked(chain)
                &&& chain.last().provenance_id == t.provenance_ref
            },
{
    assert forall|i: int| 0 <= i < engine.track_entries().len() implies {
        let t = (#[trigger] engine.track_entries()[i]).track;
        let chain = chain_of(engine.provenance_log(), t.track_id);
        &&& has_id(engine.provenance_log(), t.provenance_ref)
        &&& chain_complete(chain, t)
        &&& chain_linked(chain)
        &&& chain.last().provenance_id == t.provenance_ref
    } by {
        assert(track_traceable(engine.provenance_log(), engine.track_entries()[i]));
    }
}

/// Every published track, in the order the engine lists them, has a
/// complete provenance chain: the completeness metric of any run is one.
pub proof fn lemma_provenance_is_complete(engine: &FusionEngine)
    requires
        engine.inv(),
    ensures
        crate::metrics::complete_count(
            engine.provenance_log(),
            track_listing(engine.track_entries()),
        ) == engine.track_entries().len(),
{
    let key = |t: FusedTrackView| t.track_id;
    let all = published_tracks(engine.track_entries());
    lemma_every_track_is_traceable(engine);
    lemma_sort_by_key_members(all, key);
    let sorted = sort_by_key(all, key);
    assert forall|m: int| 0 <= m < sorted.len() implies chain_complete(
        chain_of(engine.provenance_log(), (#[trigger] sorted[m]).track_id),
        sorted[m],
    ) by {
        assert(all.contains(sorted[m]));
        let q = choose|q: int| 0 <= q < all.len() && all[q] == sorted[m];
        assert(all[q] == engine.track_entries()[q].track);
    }
    lemma_all_complete_count(engine.provenance_log(), sorted);
}

/// When every track's chain is complete, all of them are counted.
proof fn lemma_all_complete_count(log: Seq<ProvenanceRecordView>, tracks: Seq<FusedTrackView>)
    requires
        forall|m: int| 0 <= m < tracks.len() ==> chain_complete(chain_of(log, (#[trigger] tracks[m]).track_id), tracks[m]),
    ensures
        crate::metrics::complete_count(log, tracks) == tracks.len(),
    decreases tracks.len(),
{
    if tracks.len() > 0 {
        let rest = tracks.drop_last();
        assert forall|m: int| 0 <= m < rest.len() implies chain_complete(chain_of(log, (#[trigger] rest[m]).track_id), rest[m]) by {
            assert(rest[m] == tracks[m]);
        }
        lemma_all_complete_count(log, rest);
        assert(tracks.last() == tracks[tracks.len() - 1]);
    }
}

/// The record a publication appends, as it relates to the published track:
/// it is appended to the log, names the track and its new version, carries
/// the triggering observations and the new score, and the track refers to it.
pub open spec fn record_of_publication(
    old_log: Seq<ProvenanceRecordView>,
    new_log: Seq<ProvenanceRecordView>,
    obs: Seq<Seq<char>>,
    out: FusionOutcomeView,
) -> bool {
    out.track matches Some(t) && (out.provenance matches Some(p) && {
        &&& new_log == old_log.push(p)
        &&& p.track_id == t.track_id
        &&& p.fused_version == t.version
        &&& t.provenance_ref == p.provenance_id
        &&& p.contributing_observations == obs
        &&& p.confidence_after == t.confidence_score
    })
}

/// A change published on `out` is recorded: see [`record_of_publication`];
/// moreover a track that existed before gets the next version, its record
/// links to the record the track referred to and quotes the score it had,
/// and the track keeps its conflicts; a new track gets version one from a
/// `Created` record that links to nothing.
pub open spec fn change_recorded(
    old_tracks: Seq<TrackEntryView>,
    old_log: Seq<ProvenanceRecordView>,
    new_log: Seq<ProvenanceRecordView>,
    obs: Seq<Seq<char>>,
    out: FusionOutcomeView,
) -> bool {
    &&& record_of_publication(old_log, new_log, obs, out)
    &&& out.track matches Some(t) && (out.provenance matches Some(p) && if has_track(old_tracks, t.track_id) {
        let o = old_tracks[track_index(old_tracks, t.track_id)].track;
        &&& t.version == o.version + 1
        &&& p.prev_provenance_id == Some(o.provenance_ref)
        &&& p.confidence_before == Some(o.confidence_score)
        &&& o.conflicts.is_prefix_of(t.conflicts)
    } else {
        &&& t.version == 1
        &&& p.operation == ProvenanceOp::Created
        &&& p.prev_provenance_id is None
        &&& p.confidence_before is None
    })
}

/// `post` still holds every track of `pre`, and each still carries every
/// conflict it had: tracks are never discarded and conflicts never hidden.
#[verifier::opaque]
pub open spec fn tracks_retained(pre: Seq<TrackEntryView>, post: Seq<TrackEntryView>) -> bool {
    forall|i: int|
        0 <= i < pre.len() ==> exists|j: int|
            0 <= j < post.len() && (#[trigger] post[j]).track.track_id == (#[trigger] pre[i]).track.track_id
                && pre[i].track.conflicts.is_prefix_of(post[j].track.conflicts)
}

proof fn lemma_retained_refl(tracks: Seq<TrackEntryView>)
    ensures
        tracks_retained(tracks, tracks),
{
    reveal(tracks_retained);
    assert forall|i: int| 0 <= i < tracks.len() implies exists|j: int|
        0 <= j < tracks.len() && (#[trigger] tracks[j]).track.track_id == (#[trigger] tracks[i]).track.track_id
            && tracks[i].track.conflicts.is_prefix_of(tracks[j].track.conflicts) by {
        assert(tracks[i].track.conflicts.subrange(0, tracks[i].track.conflicts.len() as int) =~= tracks[i].track.conflicts);
    }
}

/// No later call removes a track or a conflict: every call on the engine
/// either leaves its tracks as they are or retains them, and retention
/// composes, so over any run of calls each track survives under its
/// identifier with every conflict it ever held, in the order they came.
pub proof fn lemma_conflicts_never_removed(
    a: Seq<TrackEntryView>,
    b: Seq<TrackEntryView>,
    c: Seq<TrackEntryView>,
)
    requires
        a == b || tracks_retained(a, b),
        b == c || tracks_retained(b, c),
    ensures
        tracks_retained(a, c),
{
    if a == b {
        if b == c {
            lemma_retained_refl(a);
        }
    } else if b != c {
        lemma_retained_trans(a, b, c);
    }
}

proof fn lemma_prefix_trans<T>(x: Seq<T>, y: Seq<T>, z: Seq<T>)
    requires
        x.is_prefix_of(y),
        y.is_prefix_of(z),
    ensures
        x.is_prefix_of(z),
{
    assert forall|m: int| 0 <= m < x.len() implies x[m] == z[m] by {
        assert(x[m] == y.subrange(0, x.len() as int)[m]);
        assert(y[m] == z.subrange(0, y.len() as int)[m]);
    }
    assert(x =~= z.subrange(0, x.len() as int));
}

proof fn lemma_retained_trans(a: Seq<TrackEntryView>, b: Seq<TrackEntryView>, c: Seq<TrackEntryView>)
    requires
        tracks_retained(a, b),
        tracks_retained(b, c),
    ensures
        tracks_retained(a, c),
{
    reveal(tracks_retained);
    assert forall|i: int| 0 <= i < a.len() implies exists|k: int|
        0 <= k < c.len() && (#[trigger] c[k]).track.track_id == (#[trigger] a[i]).track.track_id
            && a[i].track.conflicts.is_prefix_of(c[k].track.conflicts) by {
        let j = choose|j: int|
            0 <= j < b.len() && (#[trigger] b[j]).track.track_id == a[i].track.track_id
                && a[i].track.conflicts.is_prefix_of(b[j].track.conflicts);
        let k = choose|k: int|
            0 <= k < c.len() && (#[trigger] c[k]).track.track_id == b[j].track.track_id
                && b[j].track.conflicts.is_prefix_of(c[k].track.conflicts);
        lemma_prefix_trans(a[i].track.conflicts, b[j].track.conflicts, c[k].track.conflicts);
    }
}

/// Putting a track back where it was, with the same identifier and at least
/// its conflicts, retains every track.
proof fn lemma_replace_retains(pre: Seq<TrackEntryView>, idx: int, p: TrackEntryView, post: Seq<TrackEntryView>)
    requires
        0 <= idx < pre.len(),
        post == pre.remove(idx).insert(idx, p) || post == pre.update(idx, p),
        p.track.track_id == pre[idx].track.track_id,
        pre[idx].track.conflicts.is_prefix_of(p.track.conflicts),
    ensures
        tracks_retained(pre, post),
{
    reveal(tracks_retained);
    assert(post.len() == pre.len());
    assert forall|i: int| 0 <= i < pre.len() implies exists|j: int|
        0 <= j < post.len() && (#[trigger] post[j]).track.track_id == (#[trigger] pre[i]).track.track_id
            && pre[i].track.conflicts.is_prefix_of(post[j].track.conflicts) by {
        if i == idx {
            assert(post[i] == p);
        } else {
            assert(post[i] == pre[i]);
            assert(pre[i].track.conflicts.subrange(0, pre[i].track.conflicts.len() as int) =~= pre[i].track.conflicts);
        }
    }
}

/// Adding a track at the end retains every track.
proof fn lemma_append_retains(pre: Seq<TrackEntryView>, p: TrackEntryView)
    ensures
        tracks_retained(pre, pre.insert(pre.len() as int, p)),
{
    reveal(tracks_retained);
    let post = pre.insert(pre.len() as int, p);
    assert forall|i: int| 0 <= i < pre.len() implies exists|j: int|
        0 <= j < post.len() && (#[trigger] post[j]).track.track_id == (#[trigger] pre[i]).track.track_id
            && pre[i].track.conflicts.is_prefix_of(post[j].track.conflicts) by {
        assert(post[i] == pre[i]);
        assert(pre[i].track.conflicts.subrange(0, pre[i].track.conflicts.len() as int) =~= pre[i].track.conflicts);
    }
}

/// Whether `id` is the sequential identifier under `prefix` of some number in
/// `1..=upto`.
pub open spec fn numbered(id: Seq<char>, prefix: Seq<char>, upto: u64) -> bool {
    exists|k: nat| 1 <= k <= upto && id == seq_text(prefix, k)
}


/// Whether publishing `e` promotes it to `Confirmed` for the first time.
pub open spec fn newly_confirmed(e: TrackEntryView, config: FusionConfig) -> bool {
    &&& e.confirmed_at is None
    &&& (e.sources.len() >= config.confirm_min_sources || e.supporting.len()
        >= config.confirm_min_observations)
}

/// Entry `e` after publishing version `e.track.version + 1` at `now` with
/// confidence `score` under the provenance record `pid`.
pub open spec fn published_entry(
    e: TrackEntryView,
    now: Timestamp,
    score: Magnitude,
    pid: Seq<char>,
    newly: bool,
) -> TrackEntryView {
    let confirmed_at = if newly {
        Some(now)
    } else {
        e.confirmed_at
    };
    TrackEntryView {
        track: FusedTrackView {
            version: (e.track.version + 1) as u64,
            updated_at: now,
            confidence_score: score,
            provenance_ref: pid,
            contributing_observations: e.supporting,
            contributing_sources: e.sources,
            status: if confirmed_at is Some {
                TrackStatus::Confirmed
            } else {
                TrackStatus::Tentative
            },
            ..e.track
        },
        confirmed_at,
        last_provenance: pid,
        ..e
    }
}

/// The provenance record written when `e` is published by operation `op`,
/// triggered by observation `obs` of source `src`.
pub open spec fn publish_record(
    e: TrackEntryView,
    now: Timestamp,
    op: ProvenanceOp,
    before: Option<Magnitude>,
    obs: Seq<char>,
    src: Seq<char>,
    score: Magnitude,
    pid: Seq<char>,
) -> ProvenanceRecordView {
    ProvenanceRecordView {
        schema_version: SCHEMA_VERSION,
        provenance_id: pid,
        track_id: e.track.track_id,
        fused_version: (e.track.version + 1) as u64,
        created_at: now,
        operation: op,
        contributing_observations: seq![obs],
        contributing_sources: seq![src],
        confidence_before: before,
        confidence_after: score,
        notes: op_label(op) + " via "@ + src,
        prev_provenance_id: if op == ProvenanceOp::Created {
            None
        } else {
            Some(e.last_provenance)
        },
    }
}

/// A cue with the given content.
pub open spec fn cue_view(
    cue_id: Seq<char>,
    p: TrackEntryView,
    now: Timestamp,
    severity: CueSeverity,
    message: Seq<char>,
    action: Seq<char>,
) -> RecommendationCueView {
    RecommendationCueView {
        schema_version: SCHEMA_VERSION,
        cue_id,
        track_id: p.track.track_id,
        created_at: now,
        severity,
        message,
        confidence_ref: p.track.confidence_score,
        recommended_action: action,
    }
}

/// The decision-support cue for the just-published entry `p`: a warning while
/// conflicts are preserved on it, a caution when it is confirmed at a score
/// below one half, a notice when it was just confirmed, and none otherwise.
pub open spec fn cue_for(p: TrackEntryView, now: Timestamp, newly: bool, cue_id: Seq<char>) -> Option<
    RecommendationCueView,
> {
    if p.conflicting.len() > 0 {
        Some(
            cue_view(
                cue_id,
                p,
                now,
                CueSeverity::Warning,
                decimal(p.conflicting.len()) + " conflicting observation(s) preserved on this track"@,
                "Review conflicts before acting on this track"@,
            ),
        )
    } else if p.track.status == TrackStatus::Confirmed && p.track.confidence_score.0
        < Magnitude::half().0 {
        Some(
            cue_view(
                cue_id,
                p,
                now,
                CueSeverity::Caution,
                "Track confirmed at low confidence"@,
                "Corroborate with another source before acting"@,
            ),
        )
    } else if newly {
        Some(
            cue_view(cue_id, p, now, CueSeverity::Info, "Track confirmed"@, "No action required"@),
        )
    } else {
        None
    }
}

/// Which cue a publication raises: a `Warning` exactly while conflicting
/// observations are preserved on the track; otherwise a `Caution` exactly
/// when the track is confirmed at a score below one half; otherwise an
/// `Info` "Track confirmed" exactly on the publication that first confirms
/// it; and no cue at all otherwise. Every cue names the track, the time and
/// the track's score.
pub proof fn lemma_cue_choice(p: TrackEntryView, now: Timestamp, newly: bool, cue_id: Seq<char>)
    ensures
        (cue_for(p, now, newly, cue_id) matches Some(c) && c.severity == CueSeverity::Warning) <==> p.conflicting.len() > 0,
        (cue_for(p, now, newly, cue_id) matches Some(c) && c.severity == CueSeverity::Caution) <==> (p.conflicting.len()
            == 0 && p.track.status == TrackStatus::Confirmed && p.track.confidence_score.0 < Magnitude::half().0),
        (cue_for(p, now, newly, cue_id) matches Some(c) && c.severity == CueSeverity::Info) <==> (p.conflicting.len()
            == 0 && !(p.track.status == TrackStatus::Confirmed && p.track.confidence_score.0 < Magnitude::half().0)
            && newly),
        cue_for(p, now, newly, cue_id) matches Some(c) ==> (c.severity == CueSeverity::Info ==> c.message
            == "Track confirmed"@),
        cue_for(p, now, newly, cue_id) is None <==> (p.conflicting.len() == 0 && !(p.track.status
            == TrackStatus::Confirmed && p.track.confidence_score.0 < Magnitude::half().0) && !newly),
        cue_for(p, now, newly, cue_id) matches Some(c) ==> c.track_id == p.track.track_id && c.created_at == now
            && c.confidence_ref == p.track.confidence_score && c.cue_id == cue_id,
{
}

pub struct FusionOutcomeView {
    pub accepted: bool,
    pub rejection: Option<RejectionReason>,
    pub operation: Option<ProvenanceOp>,
    pub track: Option<FusedTrackView>,
    pub provenance: Option<ProvenanceRecordView>,
    pub cue: Option<RecommendationCueView>,
    pub note: Option<Seq<char>>,
}

impl View for FusionOutcome {
    type V = FusionOutcomeView;

    open spec fn view(&self) -> FusionOutcomeView {
        FusionOutcomeView {
            accepted: self.accepted,
            rejection: self.rejection,
            operation: self.operation,
            track: match self.track {
                Some(t) => Some(t@),
                None => None,
            },
            provenance: match self.provenance {
                Some(r) => Some(r@),
                None => None,
            },
            cue: match self.cue {
                Some(c) => Some(c@),
                None => None,
            },
            note: match self.note {
                Some(n) => Some(n@),
                None => None,
            },
        }
    }
}

/// The effect of publishing `entry` with score `s`: the published entry is
/// placed at `index` among `tracks`, its provenance record is appended to
/// `log`, the provenance (and, with a cue, the cue) sequence advances, and
/// the outcome reports the track, the record and the cue.
pub open spec fn publish_effect(
    tracks: Seq<TrackEntryView>,
    log: Seq<ProvenanceRecordView>,
    seqs: (u64, u64, u64),
    config: FusionConfig,
    entry: TrackEntryView,
    index: int,
    now: Timestamp,
    op: ProvenanceOp,
    before: Option<Magnitude>,
    obs: Seq<char>,
    src: Seq<char>,
    s: Magnitude,
    post_tracks: Seq<TrackEntryView>,
    post_log: Seq<ProvenanceRecordView>,
    post_seqs: (u64, u64, u64),
    out: FusionOutcomeView,
) -> bool {
    let newly = newly_confirmed(entry, config);
    let pid = seq_text("prv"@, (seqs.1 + 1) as nat);
    let p = published_entry(entry, now, s, pid, newly);
    let record = publish_record(entry, now, op, before, obs, src, s, pid);
    let cue = cue_for(p, now, newly, seq_text("cue"@, (seqs.2 + 1) as nat));
    &&& post_tracks == tracks.insert(index, p)
    &&& post_log == log.push(record)
    &&& post_seqs == (seqs.0, (seqs.1 + 1) as u64, if cue is Some {
        (seqs.2 + 1) as u64
    } else {
        seqs.2
    })
    &&& out == FusionOutcomeView {
        accepted: true,
        rejection: None,
        operation: Some(op),
        track: Some(p.track),
        provenance: Some(record),
        cue,
        note: None,
    }
}

/// The entry of a new track `tid` started by observation `obs` at `now`.
pub open spec fn new_entry(tid: Seq<char>, obs: Seq<char>, src: Seq<char>, observed_at: Timestamp, now: Timestamp) -> TrackEntryView {
    TrackEntryView {
        track: FusedTrackView {
            schema_version: SCHEMA_VERSION,
            track_id: tid,
            version: 0,
            created_at: now,
            updated_at: now,
            confidence_score: Magnitude::zero(),
            provenance_ref: "pending"@,
            contributing_observations: seq![obs],
            contributing_sources: seq![src],
            conflicts: Seq::empty(),
            status: TrackStatus::Tentative,
        },
        supporting: seq![obs],
        conflicting: Seq::empty(),
        sources: seq![src],
        first_obs_at: observed_at,
        confirmed_at: None,
        last_provenance: "pending"@,
    }
}

/// The entry of the track a new observation `obs` starts, numbered after
/// `track_seq`.
pub open spec fn created_entry(track_seq: u64, obs: &Observation, now: Timestamp) -> TrackEntryView {
    new_entry(
        seq_text("trk"@, (track_seq + 1) as nat),
        obs.observation_id@,
        obs.source_id@,
        obs.observed_at,
        now,
    )
}

/// The sequence numbers after numbering one more track.
pub open spec fn track_numbered(seqs: (u64, u64, u64)) -> (u64, u64, u64) {
    ((seqs.0 + 1) as u64, seqs.1, seqs.2)
}

/// `ids` with `id` appended unless it already occurs.
pub open spec fn add_unique(ids: Seq<Seq<char>>, id: Seq<char>) -> Seq<Seq<char>> {
    if ids.contains(id) {
        ids
    } else {
        ids.push(id)
    }
}

/// Entry `e` after merging in observation `obs` of source `src`.
pub open spec fn merged_entry(e: TrackEntryView, obs: Seq<char>, src: Seq<char>) -> TrackEntryView {
    TrackEntryView { supporting: e.supporting.push(obs), sources: add_unique(e.sources, src), ..e }
}

/// The reason recorded with a preserved conflict.
pub open spec fn conflict_reason() -> Seq<char> {
    "observation outside merge gate but within conflict gate"@
}

/// Entry `e` after preserving observation `obs` of source `src`, `divergence`
/// metres away, as a conflict.
pub open spec fn conflicted_entry(e: TrackEntryView, obs: Seq<char>, src: Seq<char>, divergence: Magnitude) -> TrackEntryView {
    TrackEntryView {
        track: FusedTrackView {
            conflicts: e.track.conflicts.push(
                crate::model::ConflictRecordView {
                    observation_id: obs,
                    source_id: src,
                    reason: conflict_reason(),
                    divergence_m: divergence,
                },
            ),
            ..e.track
        },
        conflicting: e.conflicting.push(obs),
        sources: add_unique(e.sources, src),
        ..e
    }
}

/// The position of track `id` in `tracks`; meaningful when `has_track`.
pub open spec fn track_index(tracks: Seq<TrackEntryView>, id: Seq<char>) -> int {
    choose|i: int| 0 <= i < tracks.len() && tracks[i].track.track_id == id
}

proof fn lemma_integrity_remove(
    tracks: Seq<TrackEntryView>,
    log: Seq<ProvenanceRecordView>,
    track_seq: u64,
    prov_seq: u64,
    i: int,
)
    requires
        engine_integrity(tracks, log, track_seq, prov_seq),
        0 <= i < tracks.len(),
    ensures
        engine_integrity(tracks.remove(i), log, track_seq, prov_seq),
        !has_track(tracks.remove(i), tracks[i].track.track_id),
        numbered(tracks[i].track.track_id, "trk"@, track_seq),
        has_id(log, tracks[i].last_provenance),
        tracks[i].track.version <= prov_seq,
{
    let r = tracks.remove(i);
    assert forall|j: int| 0 <= j < r.len() implies #[trigger] r[j] == tracks[if j < i { j } else { j + 1 }] by {}
    assert forall|a: int, b: int| 0 <= a < b < r.len() implies r[a].track.track_id != r[b].track.track_id by {
        assert(r[a] == tracks[if a < i { a } else { a + 1 }]);
        assert(r[b] == tracks[if b < i { b } else { b + 1 }]);
    }
    assert forall|j: int| 0 <= j < r.len() implies numbered(#[trigger] r[j].track.track_id, "trk"@, track_seq) by {
        assert(r[j] == tracks[if j < i { j } else { j + 1 }]);
    }
    assert forall|j: int| 0 <= j < r.len() implies has_id(log, #[trigger] r[j].last_provenance) by {
        assert(r[j] == tracks[if j < i { j } else { j + 1 }]);
    }
    assert forall|j: int| 0 <= j < r.len() implies #[trigger] r[j].track.version <= prov_seq by {
        assert(r[j] == tracks[if j < i { j } else { j + 1 }]);
    }
    assert forall|j: int| 0 <= j < r.len() implies r[j].track.track_id != tracks[i].track.track_id by {
        assert(r[j] == tracks[if j < i { j } else { j + 1 }]);
    }
}

/// Whether the observation carries a signature that verifies.
pub open spec fn signature_ok(obs: &Observation) -> bool {
    obs.signature.algorithm@ == "none-v0"@
}

/// The age of an observation when it was received.
pub open spec fn observation_age(obs: &Observation) -> int {
    obs.received_at.0 - obs.observed_at.0
}

/// Whether a source with identifier `id` is registered in `sources`.
pub open spec fn source_known(sources: Seq<Source>, id: Seq<char>) -> bool {
    exists|i: int| 0 <= i < sources.len() && sources[i].source_id@ == id
}

/// What one call of `register_source` does: `source` takes the place of
/// the registration with its identifier, or is appended when there is none;
/// nothing else changes.
pub open spec fn registration_step(pre: FusionEngine, source: Source, post: FusionEngine) -> bool {
    &&& post.registered_sources() == replace_or_push_source(pre.registered_sources(), source)
    &&& post.config() == pre.config()
    &&& post.provenance_log() == pre.provenance_log()
    &&& post.health_reports() == pre.health_reports()
    &&& post.seen_observations() == pre.seen_observations()
    &&& post.track_entries() == pre.track_entries()
    &&& post.sequence_numbers() == pre.sequence_numbers()
    &&& post.stale_count() == pre.stale_count()
}

/// What one call of `report_health` does: `health` takes the place of the
/// report for its source, or is appended when there is none; nothing else
/// changes.
pub open spec fn health_step(pre: FusionEngine, health: SensorHealth, post: FusionEngine) -> bool {
    &&& post.health_reports() == replace_or_push_health(pre.health_reports(), health)
    &&& post.config() == pre.config()
    &&& post.provenance_log() == pre.provenance_log()
    &&& post.registered_sources() == pre.registered_sources()
    &&& post.seen_observations() == pre.seen_observations()
    &&& post.track_entries() == pre.track_entries()
    &&& post.sequence_numbers() == pre.sequence_numbers()
    &&& post.stale_count() == pre.stale_count()
}

/// What one call of `process_observation` does: on `pre`, with the
/// observation `obs` and the policy and scorer given, it ends in `post` and
/// answers `res`.
pub open spec fn observation_step<A: Fn(&Vec<TrackId>) -> Association, S: Fn(&TrackEvidence) -> Magnitude>(
    pre: FusionEngine,
    obs: Observation,
    associate: A,
    score: S,
    post: FusionEngine,
    res: Result<FusionOutcome, FabricError>,
) -> bool {
    &&& post.config() == pre.config()
    &&& post.health_reports() == pre.health_reports()
    &&& tracks_retained(pre.track_entries(), post.track_entries())
    &&& pre.provenance_log().is_prefix_of(post.provenance_log())
    &&& res matches Ok(out) ==> (out.provenance is Some ==> change_recorded(
        pre.track_entries(),
        pre.provenance_log(),
        post.provenance_log(),
        seq![obs.observation_id@],
        out@,
    ))
    &&& !signature_ok(&obs) ==> (res matches Ok(out) && out.is_rejection(RejectionReason::SignatureInvalid)
        && post == pre)
    &&& signature_ok(&obs) && observation_age(&obs) > pre.config().staleness_limit_ms ==> (res matches Ok(out)
        && out.is_rejection(
        RejectionReason::Stale { age_ms: observation_age(&obs) as i64, limit_ms: pre.config().staleness_limit_ms },
    ) && post.stale_count() == pre.stale_count() + 1 && post.track_entries() == pre.track_entries()
        && post.provenance_log() == pre.provenance_log() && post.sequence_numbers() == pre.sequence_numbers()
        && post.registered_sources() == pre.registered_sources()
        && post.seen_observations() == pre.seen_observations())
    &&& signature_ok(&obs) && observation_age(&obs) <= pre.config().staleness_limit_ms ==> {
        &&& auto_registered(
            pre.registered_sources(),
            post.registered_sources(),
            &obs,
            pre.config().default_source_reliability,
        )
        &&& post.seen_observations() == record_seen(
            pre.seen_observations(),
            obs.observation_id,
            obs.observed_at,
        )
        &&& post.stale_count() == pre.stale_count()
        &&& obs.state is None ==> (res matches Ok(out) && audit_only(out@)
            && post.track_entries() == pre.track_entries()
            && post.provenance_log() == pre.provenance_log()
            && post.sequence_numbers() == pre.sequence_numbers())
        &&& obs.state is Some ==> exists|ids: Vec<TrackId>, a: Association|
            id_views(ids@) == live_track_ids(pre.track_entries()) && call_ensures(
                associate,
                (&ids,),
                a,
            ) && association_effect(
                a,
                &obs,
                pre.track_entries(),
                pre.provenance_log(),
                pre.sequence_numbers(),
                pre.config(),
                post.registered_sources(),
                post.health_reports(),
                post.seen_observations(),
                score,
                post.track_entries(),
                post.provenance_log(),
                post.sequence_numbers(),
                res,
            )
    }
}

/// What one call of `apply_operator_feedback` does: on `pre`, with the
/// feedback `fb` and the scorer given, it ends in `post` and answers `res`.
pub open spec fn feedback_step<S: Fn(&TrackEvidence) -> Magnitude>(
    pre: FusionEngine,
    fb: OperatorFeedback,
    score: S,
    post: FusionEngine,
    res: Result<FusionOutcome, FabricError>,
) -> bool {
    &&& post.config() == pre.config()
    &&& post.registered_sources() == pre.registered_sources()
    &&& post.health_reports() == pre.health_reports()
    &&& post.seen_observations() == pre.seen_observations()
    &&& post.stale_count() == pre.stale_count()
    &&& tracks_retained(pre.track_entries(), post.track_entries())
    &&& pre.provenance_log().is_prefix_of(post.provenance_log())
    &&& res matches Ok(out) ==> change_recorded(
        pre.track_entries(),
        pre.provenance_log(),
        post.provenance_log(),
        Seq::empty(),
        out@,
    )
    &&& !has_track(pre.track_entries(), fb.track_id@) ==> (res matches Err(FabricError::NotFound(msg))
        && msg@ == "track "@ + fb.track_id@ && post == pre)
    &&& has_track(pre.track_entries(), fb.track_id@) ==> (res matches Ok(out) && exists|s: Magnitude|
        scored(
            score,
            evidence_of(
                pre.track_entries()[track_index(pre.track_entries(), fb.track_id@)],
                fb.submitted_at,
                pre.registered_sources(),
                pre.health_reports(),
                pre.seen_observations(),
                pre.config(),
            ),
            s,
        ) && override_effect(
            pre.track_entries(),
            pre.provenance_log(),
            pre.sequence_numbers(),
            track_index(pre.track_entries(), fb.track_id@),
            &fb,
            s,
            post.track_entries(),
            post.provenance_log(),
            post.sequence_numbers(),
            out@,
        ))
}

/// Whether two engines hold the same: configuration, sources, health
/// reports, seen observations, tracks, provenance log, sequence numbers and
/// stale count. Every contract of the engine speaks of these alone.
pub open spec fn same_state(a: FusionEngine, b: FusionEngine) -> bool {
    &&& a.config() == b.config()
    &&& a.registered_sources() == b.registered_sources()
    &&& a.health_reports() == b.health_reports()
    &&& a.seen_observations() == b.seen_observations()
    &&& a.track_entries() == b.track_entries()
    &&& a.provenance_log() == b.provenance_log()
    &&& a.sequence_numbers() == b.sequence_numbers()
    &&& a.stale_count() == b.stale_count()
}

/// Whether two answers agree: equal outcomes, or the same `NotFound` error.
pub open spec fn same_answer(r1: Result<FusionOutcome, FabricError>, r2: Result<FusionOutcome, FabricError>) -> bool {
    match r1 {
        Ok(o1) => r2 matches Ok(o2) && o1@ == o2@,
        Err(FabricError::NotFound(m1)) => r2 matches Err(FabricError::NotFound(m2)) && m1@ == m2@,
        Err(_) => false,
    }
}

/// Whether two verdicts of the association policy agree.
pub open spec fn same_association(a1: Association, a2: Association) -> bool {
    match a1 {
        Association::New => a2 is New,
        Association::Merge { track_id: t1, distance_m: d1 } => a2 matches Association::Merge {
            track_id: t2,
            distance_m: d2,
        } && t1@ == t2@ && d1 == d2,
        Association::Conflict { track_id: t1, divergence_m: d1 } => a2 matches Association::Conflict {
            track_id: t2,
            divergence_m: d2,
        } && t1@ == t2@ && d1 == d2,
    }
}

/// Whether the association policy gives the same verdict whenever it is
/// handed the same track identifiers.
pub open spec fn associator_deterministic<A: Fn(&Vec<TrackId>) -> Association>(associate: A) -> bool {
    forall|i1: Vec<TrackId>, i2: Vec<TrackId>, a1: Association, a2: Association|
        id_views(i1@) == id_views(i2@) && #[trigger] call_ensures(associate, (&i1,), a1) && #[trigger] call_ensures(
            associate,
            (&i2,),
            a2,
        ) ==> same_association(a1, a2)
}

/// Whether the scorer gives the same score whenever it is handed the same
/// evidence.
pub open spec fn scorer_deterministic<S: Fn(&TrackEvidence) -> Magnitude>(score: S) -> bool {
    forall|ev: TrackEvidenceView, s1: Magnitude, s2: Magnitude|
        #[trigger] scored(score, ev, s1) && #[trigger] scored(score, ev, s2) ==> s1 == s2
}

/// Ingestion is deterministic: two engines that hold the same, handed the
/// same observation with a policy and a scorer that answer alike on alike
/// input, answer alike and again hold the same, down to the identifiers of
/// tracks, records and cues, which follow the engine's counters. By
/// induction, so does every run of calls from two fresh engines.
pub proof fn lemma_observation_deterministic<A: Fn(&Vec<TrackId>) -> Association, S: Fn(&TrackEvidence) -> Magnitude>(
    pre1: FusionEngine,
    pre2: FusionEngine,
    obs: Observation,
    associate: A,
    score: S,
    post1: FusionEngine,
    res1: Result<FusionOutcome, FabricError>,
    post2: FusionEngine,
    res2: Result<FusionOutcome, FabricError>,
)
    requires
        same_state(pre1, pre2),
        associator_deterministic(associate),
        scorer_deterministic(score),
        observation_step(pre1, obs, associate, score, post1, res1),
        observation_step(pre2, obs, associate, score, post2, res2),
    ensures
        same_state(post1, post2),
        same_answer(res1, res2),
{
    if signature_ok(&obs) && observation_age(&obs) <= pre1.config().staleness_limit_ms {
        let src1 = post1.registered_sources();
        let src2 = post2.registered_sources();
        if !source_known(pre1.registered_sources(), obs.source_id@) {
            assert forall|k: int| 0 <= k < src1.len() implies src1[k] == src2[k] by {
                if k < src1.len() - 1 {
                    assert(src1[k] == src1.drop_last()[k]);
                    assert(src2[k] == src2.drop_last()[k]);
                } else {
                    assert(src1[k] == src1.last());
                    assert(src2[k] == src2.last());
                }
            }
        }
        assert(src1 =~= src2);
        if obs.state is Some {
            let live = live_track_ids(pre1.track_entries());
            let (i1, a1) = choose|i: Vec<TrackId>, a: Association|
                id_views(i@) == live && call_ensures(associate, (&i,), a) && association_effect(
                    a,
                    &obs,
                    pre1.track_entries(),
                    pre1.provenance_log(),
                    pre1.sequence_numbers(),
                    pre1.config(),
                    post1.registered_sources(),
                    post1.health_reports(),
                    post1.seen_observations(),
                    score,
                    post1.track_entries(),
                    post1.provenance_log(),
                    post1.sequence_numbers(),
                    res1,
                );
            let (i2, a2) = choose|i: Vec<TrackId>, a: Association|
                id_views(i@) == live && call_ensures(associate, (&i,), a) && association_effect(
                    a,
                    &obs,
                    pre2.track_entries(),
                    pre2.provenance_log(),
                    pre2.sequence_numbers(),
                    pre2.config(),
                    post2.registered_sources(),
                    post2.health_reports(),
                    post2.seen_observations(),
                    score,
                    post2.track_entries(),
                    post2.provenance_log(),
                    post2.sequence_numbers(),
                    res2,
                );
            assert(same_association(a1, a2));
        }
    }
}

/// Registering a source is deterministic: two engines that hold the same,
/// handed the same registration, again hold the same.
pub proof fn lemma_registration_deterministic(
    pre1: FusionEngine,
    pre2: FusionEngine,
    source: Source,
    post1: FusionEngine,
    post2: FusionEngine,
)
    requires
        same_state(pre1, pre2),
        registration_step(pre1, source, post1),
        registration_step(pre2, source, post2),
    ensures
        same_state(post1, post2),
{
}

/// Reporting health is deterministic: two engines that hold the same,
/// handed the same report, again hold the same.
pub proof fn lemma_health_deterministic(
    pre1: FusionEngine,
    pre2: FusionEngine,
    health: SensorHealth,
    post1: FusionEngine,
    post2: FusionEngine,
)
    requires
        same_state(pre1, pre2),
        health_step(pre1, health, post1),
        health_step(pre2, health, post2),
    ensures
        same_state(post1, post2),
{
}

/// Operator feedback is deterministic: two engines that hold the same,
/// handed the same feedback with a scorer that answers alike on alike
/// evidence, answer alike and again hold the same.
pub proof fn lemma_feedback_deterministic<S: Fn(&TrackEvidence) -> Magnitude>(
    pre1: FusionEngine,
    pre2: FusionEngine,
    fb: OperatorFeedback,
    score: S,
    post1: FusionEngine,
    res1: Result<FusionOutcome, FabricError>,
    post2: FusionEngine,
    res2: Result<FusionOutcome, FabricError>,
)
    requires
        same_state(pre1, pre2),
        scorer_deterministic(score),
        feedback_step(pre1, fb, score, post1, res1),
        feedback_step(pre2, fb, score, post2, res2),
    ensures
        same_state(post1, post2),
        same_answer(res1, res2),
{
}

/// Whether the association policy names only tracks it was handed.
pub open spec fn associator_names_given<A: Fn(&Vec<TrackId>) -> Association>(associate: A) -> bool {
    forall|ids: Vec<TrackId>, a: Association|
        #[trigger] call_ensures(associate, (&ids,), a) ==> match a {
            Association::New => true,
            Association::Merge { track_id, .. } => id_views(ids@).contains(track_id@),
            Association::Conflict { track_id, .. } => id_views(ids@).contains(track_id@),
        }
}

/// Every identifier among the live ones names a track that is not `Dropped`.
proof fn lemma_live_ids_not_dropped(tracks: Seq<TrackEntryView>, id: Seq<char>)
    requires
        live_track_ids(tracks).contains(id),
    ensures
        exists|m: int|
            0 <= m < tracks.len() && (#[trigger] tracks[m]).track.track_id == id && tracks[m].track.status
                != TrackStatus::Dropped,
    decreases tracks.len(),
{
    let rest = tracks.drop_last();
    if rest.len() < tracks.len() && live_track_ids(rest).contains(id) {
        lemma_live_ids_not_dropped(rest, id);
        let m = choose|m: int|
            0 <= m < rest.len() && (#[trigger] rest[m]).track.track_id == id && rest[m].track.status
                != TrackStatus::Dropped;
        assert(tracks[m] == rest[m]);
    } else {
        let q = choose|q: int| 0 <= q < live_track_ids(tracks).len() && live_track_ids(tracks)[q] == id;
        if tracks.last().track.status != TrackStatus::Dropped {
            if q < live_track_ids(rest).len() {
                assert(live_track_ids(rest)[q] == id);
            }
            assert(tracks[tracks.len() - 1] == tracks.last());
        }
    }
}

/// The policy is handed the identifier of every track that is not
/// `Dropped`, in engine order, and nothing else.
pub proof fn lemma_live_ids(tracks: Seq<TrackEntryView>)
    ensures
        forall|k: int|
            0 <= k < tracks.len() && (#[trigger] tracks[k]).track.status != TrackStatus::Dropped ==> live_track_ids(
                tracks,
            ).contains(tracks[k].track.track_id),
        forall|id: Seq<char>|
            #[trigger] live_track_ids(tracks).contains(id) ==> exists|m: int|
                0 <= m < tracks.len() && (#[trigger] tracks[m]).track.track_id == id && tracks[m].track.status
                    != TrackStatus::Dropped,
        live_track_ids(tracks).len() <= tracks.len(),
    decreases tracks.len(),
{
    if tracks.len() > 0 {
        let rest = tracks.drop_last();
        lemma_live_ids(rest);
        let lr = live_track_ids(rest);
        let l = live_track_ids(tracks);
        assert forall|k: int|
            0 <= k < tracks.len() && (#[trigger] tracks[k]).track.status != TrackStatus::Dropped implies l.contains(
                tracks[k].track.track_id,
            ) by {
            if k < tracks.len() - 1 {
                assert(rest[k] == tracks[k]);
                let q = choose|q: int| 0 <= q < lr.len() && lr[q] == tracks[k].track.track_id;
                assert(l[q] == lr[q]);
            } else {
                assert(tracks[k] == tracks.last());
                assert(l[lr.len() as int] == tracks[k].track.track_id);
            }
        }
        assert forall|id: Seq<char>| #[trigger] l.contains(id) implies exists|m: int|
            0 <= m < tracks.len() && (#[trigger] tracks[m]).track.track_id == id && tracks[m].track.status
                != TrackStatus::Dropped by {
            lemma_live_ids_not_dropped(tracks, id);
        }
    }
}

/// A dropped track is left alone: with a policy that names only tracks it
/// was handed, which are the live ones, no observation merges into a
/// `Dropped` track or is preserved as a conflict on it, and the track keeps
/// its place, its status and everything it holds.
pub proof fn lemma_dropped_track_untouched<A: Fn(&Vec<TrackId>) -> Association, S: Fn(&TrackEvidence) -> Magnitude>(
    pre: FusionEngine,
    obs: Observation,
    associate: A,
    score: S,
    post: FusionEngine,
    res: Result<FusionOutcome, FabricError>,
    k: int,
)
    requires
        pre.inv(),
        associator_names_given(associate),
        observation_step(pre, obs, associate, score, post, res),
        0 <= k < pre.track_entries().len(),
        pre.track_entries()[k].track.status == TrackStatus::Dropped,
    ensures
        k < post.track_entries().len(),
        post.track_entries()[k] == pre.track_entries()[k],
{
    let tracks = pre.track_entries();
    lemma_engine_shape(&pre);
    if signature_ok(&obs) && observation_age(&obs) <= pre.config().staleness_limit_ms && obs.state is Some {
        let live = live_track_ids(tracks);
        let (ids, a) = choose|i: Vec<TrackId>, a: Association|
            id_views(i@) == live && call_ensures(associate, (&i,), a) && association_effect(
                a,
                &obs,
                tracks,
                pre.provenance_log(),
                pre.sequence_numbers(),
                pre.config(),
                post.registered_sources(),
                post.health_reports(),
                post.seen_observations(),
                score,
                post.track_entries(),
                post.provenance_log(),
                post.sequence_numbers(),
                res,
            );
        match a {
            Association::New => {},
            Association::Merge { track_id, .. } => {
                if has_track(tracks, track_id@) {
                    lemma_live_ids_not_dropped(tracks, track_id@);
                    let j = track_index(tracks, track_id@);
                    assert(j != k);
                    assert(post.track_entries()[k] == tracks[k]);
                }
            },
            Association::Conflict { track_id, .. } => {
                if has_track(tracks, track_id@) {
                    lemma_live_ids_not_dropped(tracks, track_id@);
                    let j = track_index(tracks, track_id@);
                    assert(j != k);
                    assert(post.track_entries()[k] == tracks[k]);
                }
            },
        }
    }
}

/// Operator feedback on a known track succeeds and re-publishes that track
/// in its place: a `RejectTrack` verdict leaves it `Dropped`, any other
/// verdict leaves its status as it was; either way its supporting
/// observations, sources and conflicts stay as they were.
pub proof fn lemma_feedback_status<S: Fn(&TrackEvidence) -> Magnitude>(
    pre: FusionEngine,
    fb: OperatorFeedback,
    score: S,
    post: FusionEngine,
    res: Result<FusionOutcome, FabricError>,
)
    requires
        feedback_step(pre, fb, score, post, res),
        has_track(pre.track_entries(), fb.track_id@),
    ensures
        ({
            let i = track_index(pre.track_entries(), fb.track_id@);
            let before = pre.track_entries()[i].track;
            res matches Ok(out) && out@.track matches Some(t) && {
                &&& t.track_id == fb.track_id@
                &&& post.track_entries()[i].track == t
                &&& fb.verdict == FeedbackVerdict::RejectTrack ==> t.status == TrackStatus::Dropped
                &&& fb.verdict != FeedbackVerdict::RejectTrack ==> t.status == before.status
                &&& t.contributing_observations == before.contributing_observations
                &&& t.contributing_sources == before.contributing_sources
                &&& t.conflicts == before.conflicts
            }
        }),
{
    let i = track_index(pre.track_entries(), fb.track_id@);
    assert(0 <= i < pre.track_entries().len());
}

/// Status promotion on ingestion: a track an observation publishes is
/// `Confirmed` exactly when it has at least `confirm_min_observations`
/// supporting observations, or at least `confirm_min_sources` distinct
/// sources, or had been confirmed before; otherwise it is `Tentative`.
pub proof fn lemma_publication_status<A: Fn(&Vec<TrackId>) -> Association, S: Fn(&TrackEvidence) -> Magnitude>(
    pre: FusionEngine,
    obs: Observation,
    associate: A,
    score: S,
    post: FusionEngine,
    res: Result<FusionOutcome, FabricError>,
)
    requires
        pre.inv(),
        pre.has_room(),
        observation_step(pre, obs, associate, score, post, res),
    ensures
        res matches Ok(out) ==> (out@.track matches Some(t) ==> (t.status == TrackStatus::Confirmed <==> (
            t.contributing_observations.len() >= pre.config().confirm_min_observations
                || t.contributing_sources.len() >= pre.config().confirm_min_sources || (has_track(
                pre.track_entries(),
                t.track_id,
            ) && pre.track_entries()[track_index(pre.track_entries(), t.track_id)].confirmed_at is Some)))),
        res matches Ok(out) ==> (out@.track matches Some(t) ==> (t.status == TrackStatus::Confirmed || t.status
            == TrackStatus::Tentative)),
{
    if signature_ok(&obs) && observation_age(&obs) <= pre.config().staleness_limit_ms && obs.state is Some {
        let (ids, a) = choose|i: Vec<TrackId>, a: Association|
            id_views(i@) == live_track_ids(pre.track_entries()) && call_ensures(associate, (&i,), a)
                && association_effect(
                a,
                &obs,
                pre.track_entries(),
                pre.provenance_log(),
                pre.sequence_numbers(),
                pre.config(),
                post.registered_sources(),
                post.health_reports(),
                post.seen_observations(),
                score,
                post.track_entries(),
                post.provenance_log(),
                post.sequence_numbers(),
                res,
            );
        lemma_association_status(pre, obs, a, score, post, res);
    }
}

/// What a publication on ingestion holds: a created track starts at
/// version one from the observation alone, with no conflicts; a merge adds
/// the observation to the track's support and its source to the track's
/// sources once, keeping the conflicts; a preserved conflict keeps the
/// support, appends one conflict naming the observation and its source, and
/// raises a `Warning` cue. Either way the version rises by one.
pub proof fn lemma_publication_content<A: Fn(&Vec<TrackId>) -> Association, S: Fn(&TrackEvidence) -> Magnitude>(
    pre: FusionEngine,
    obs: Observation,
    associate: A,
    score: S,
    post: FusionEngine,
    res: Result<FusionOutcome, FabricError>,
)
    requires
        pre.inv(),
        pre.has_room(),
        observation_step(pre, obs, associate, score, post, res),
    ensures
        res matches Ok(out) ==> (out@.track matches Some(t) ==> ({
            let pe = pre.track_entries()[track_index(pre.track_entries(), t.track_id)];
            let o = pe.track;
            &&& out@.operation == Some(ProvenanceOp::Created) ==> {
                &&& !has_track(pre.track_entries(), t.track_id)
                &&& t.version == 1
                &&& t.contributing_observations == seq![obs.observation_id@]
                &&& t.contributing_sources == seq![obs.source_id@]
                &&& t.conflicts.len() == 0
            }
            &&& out@.operation == Some(ProvenanceOp::Merged) ==> {
                &&& has_track(pre.track_entries(), t.track_id)
                &&& t.version == o.version + 1
                &&& t.contributing_observations == o.contributing_observations.push(obs.observation_id@)
                &&& pe.sources.contains(obs.source_id@) ==> t.contributing_sources == pe.sources
                &&& !pe.sources.contains(obs.source_id@) ==> t.contributing_sources == pe.sources.push(obs.source_id@)
                &&& t.conflicts == o.conflicts
            }
            &&& out@.operation == Some(ProvenanceOp::ConflictPreserved) ==> {
                &&& has_track(pre.track_entries(), t.track_id)
                &&& t.version == o.version + 1
                &&& t.contributing_observations == o.contributing_observations
                &&& t.contributing_sources.contains(obs.source_id@)
                &&& t.conflicts.len() == o.conflicts.len() + 1
                &&& t.conflicts.drop_last() == o.conflicts
                &&& t.conflicts.last().observation_id == obs.observation_id@
                &&& t.conflicts.last().source_id == obs.source_id@
                &&& out@.cue matches Some(c) && c.severity == CueSeverity::Warning
            }
        })),
{
    if signature_ok(&obs) && observation_age(&obs) <= pre.config().staleness_limit_ms && obs.state is Some {
        let (ids, a) = choose|i: Vec<TrackId>, a: Association|
            id_views(i@) == live_track_ids(pre.track_entries()) && call_ensures(associate, (&i,), a)
                && association_effect(
                a,
                &obs,
                pre.track_entries(),
                pre.provenance_log(),
                pre.sequence_numbers(),
                pre.config(),
                post.registered_sources(),
                post.health_reports(),
                post.seen_observations(),
                score,
                post.track_entries(),
                post.provenance_log(),
                post.sequence_numbers(),
                res,
            );
        lemma_association_status(pre, obs, a, score, post, res);
    }
}

/// The order of the gates: an observation whose signature fails is
/// rejected as such whatever its age; a signed one older than the staleness
/// limit is rejected as stale, with its age and the limit, and only the stale
/// count moves; a signed one within the limit is never rejected and leaves
/// the stale count alone.
pub proof fn lemma_ingestion_gates<A: Fn(&Vec<TrackId>) -> Association, S: Fn(&TrackEvidence) -> Magnitude>(
    pre: FusionEngine,
    obs: Observation,
    associate: A,
    score: S,
    post: FusionEngine,
    res: Result<FusionOutcome, FabricError>,
)
    requires
        pre.inv(),
        pre.has_room(),
        observation_step(pre, obs, associate, score, post, res),
    ensures
        obs.signature.algorithm@ != "none-v0"@ ==> (res matches Ok(out) && !out@.accepted && out@.rejection == Some(
            RejectionReason::SignatureInvalid,
        ) && post.stale_count() == pre.stale_count() && post.track_entries() == pre.track_entries()),
        obs.signature.algorithm@ == "none-v0"@ && obs.received_at.0 - obs.observed_at.0
            > pre.config().staleness_limit_ms ==> (res matches Ok(out) && !out@.accepted && out@.rejection == Some(
            RejectionReason::Stale {
                age_ms: (obs.received_at.0 - obs.observed_at.0) as i64,
                limit_ms: pre.config().staleness_limit_ms,
            },
        ) && post.stale_count() == pre.stale_count() + 1 && post.track_entries() == pre.track_entries()
            && post.provenance_log() == pre.provenance_log()),
        obs.signature.algorithm@ == "none-v0"@ && obs.received_at.0 - obs.observed_at.0
            <= pre.config().staleness_limit_ms ==> post.stale_count() == pre.stale_count() && (res matches Ok(out)
            ==> out@.accepted && out@.rejection is None),
{
    if signature_ok(&obs) && observation_age(&obs) <= pre.config().staleness_limit_ms && obs.state is Some {
        let (ids, a) = choose|i: Vec<TrackId>, a: Association|
            id_views(i@) == live_track_ids(pre.track_entries()) && call_ensures(associate, (&i,), a)
                && association_effect(
                a,
                &obs,
                pre.track_entries(),
                pre.provenance_log(),
                pre.sequence_numbers(),
                pre.config(),
                post.registered_sources(),
                post.health_reports(),
                post.seen_observations(),
                score,
                post.track_entries(),
                post.provenance_log(),
                post.sequence_numbers(),
                res,
            );
        lemma_association_status(pre, obs, a, score, post, res);
    }
}

/// Status promotion and content of a publication for each verdict of the
/// association policy.
proof fn lemma_association_status<S: Fn(&TrackEvidence) -> Magnitude>(
    pre: FusionEngine,
    obs: Observation,
    a: Association,
    score: S,
    post: FusionEngine,
    res: Result<FusionOutcome, FabricError>,
)
    requires
        pre.inv(),
        pre.has_room(),
        association_effect(
            a,
            &obs,
            pre.track_entries(),
            pre.provenance_log(),
            pre.sequence_numbers(),
            pre.config(),
            post.registered_sources(),
            post.health_reports(),
            post.seen_observations(),
            score,
            post.track_entries(),
            post.provenance_log(),
            post.sequence_numbers(),
            res,
        ),
    ensures
        res matches Ok(out) ==> out@.accepted && out@.rejection is None && out@.note is None,
        res matches Ok(out) ==> (out@.track matches Some(t) ==> (t.status == TrackStatus::Confirmed <==> (
            t.contributing_observations.len() >= pre.config().confirm_min_observations
                || t.contributing_sources.len() >= pre.config().confirm_min_sources || (has_track(
                pre.track_entries(),
                t.track_id,
            ) && pre.track_entries()[track_index(pre.track_entries(), t.track_id)].confirmed_at is Some)))),
        res matches Ok(out) ==> (out@.track matches Some(t) ==> (t.status == TrackStatus::Confirmed || t.status
            == TrackStatus::Tentative)),
        res matches Ok(out) ==> (out@.track matches Some(t) ==> ({
            let pe = pre.track_entries()[track_index(pre.track_entries(), t.track_id)];
            let o = pe.track;
            &&& out@.operation == Some(ProvenanceOp::Created) ==> {
                &&& !has_track(pre.track_entries(), t.track_id)
                &&& t.version == 1
                &&& t.contributing_observations == seq![obs.observation_id@]
                &&& t.contributing_sources == seq![obs.source_id@]
                &&& t.conflicts.len() == 0
            }
            &&& out@.operation == Some(ProvenanceOp::Merged) ==> {
                &&& has_track(pre.track_entries(), t.track_id)
                &&& t.version == o.version + 1
                &&& t.contributing_observations == o.contributing_observations.push(obs.observation_id@)
                &&& pe.sources.contains(obs.source_id@) ==> t.contributing_sources == pe.sources
                &&& !pe.sources.contains(obs.source_id@) ==> t.contributing_sources == pe.sources.push(obs.source_id@)
                &&& t.conflicts == o.conflicts
            }
            &&& out@.operation == Some(ProvenanceOp::ConflictPreserved) ==> {
                &&& has_track(pre.track_entries(), t.track_id)
                &&& t.version == o.version + 1
                &&& t.contributing_observations == o.contributing_observations
                &&& t.contributing_sources.contains(obs.source_id@)
                &&& t.conflicts.len() == o.conflicts.len() + 1
                &&& t.conflicts.drop_last() == o.conflicts
                &&& t.conflicts.last().observation_id == obs.observation_id@
                &&& t.conflicts.last().source_id == obs.source_id@
                &&& out@.cue matches Some(c) && c.severity == CueSeverity::Warning
            }
        })),
{
    lemma_engine_shape(&pre);
    let tracks = pre.track_entries();
    let now = obs.received_at;
    let sources = post.registered_sources();
    let reports = post.health_reports();
    let seen = post.seen_observations();
    match a {
        Association::New => {
            let e = created_entry(pre.sequence_numbers().0, &obs, now);
            assert forall|i: int| 0 <= i < tracks.len() implies (#[trigger] tracks[i]).track.track_id
                != e.track.track_id by {
                lemma_numbered_fresh(tracks[i].track.track_id, "trk"@, pre.sequence_numbers().0);
            }
            let s = choose|s: Magnitude|
                scored(score, evidence_of(e, now, sources, reports, seen, pre.config()), s) && publish_effect(
                    tracks,
                    pre.provenance_log(),
                    track_numbered(pre.sequence_numbers()),
                    pre.config(),
                    e,
                    tracks.len() as int,
                    now,
                    ProvenanceOp::Created,
                    None,
                    obs.observation_id@,
                    obs.source_id@,
                    s,
                    post.track_entries(),
                    post.provenance_log(),
                    post.sequence_numbers(),
                    res->Ok_0@,
                );
            let p = published_entry(e, now, s, seq_text("prv"@, (pre.sequence_numbers().1 + 1) as nat), newly_confirmed(e, pre.config()));
            assert(res->Ok_0@.track == Some(p.track));
            assert(p.track.contributing_observations.len() == 1 && p.track.contributing_sources.len() == 1);
            assert(p.track.version == 1);
            assert(p.track.contributing_observations == seq![obs.observation_id@]);
            assert(p.track.contributing_sources == seq![obs.source_id@]);
            assert(p.track.conflicts.len() == 0);
        },
        Association::Merge { track_id, .. } => {
            if has_track(tracks, track_id@) {
                let j = track_index(tracks, track_id@);
                let e = merged_entry(tracks[j], obs.observation_id@, obs.source_id@);
                let s = choose|s: Magnitude|
                    scored(score, evidence_of(e, now, sources, reports, seen, pre.config()), s) && publish_effect(
                        tracks.remove(j),
                        pre.provenance_log(),
                        pre.sequence_numbers(),
                        pre.config(),
                        e,
                        j,
                        now,
                        ProvenanceOp::Merged,
                        Some(tracks[j].track.confidence_score),
                        obs.observation_id@,
                        obs.source_id@,
                        s,
                        post.track_entries(),
                        post.provenance_log(),
                        post.sequence_numbers(),
                        res->Ok_0@,
                    );
                let p = published_entry(e, now, s, seq_text("prv"@, (pre.sequence_numbers().1 + 1) as nat), newly_confirmed(e, pre.config()));
                assert(res->Ok_0@.track == Some(p.track));
                assert(p.track.track_id == track_id@);
                assert(p.track.version == tracks[j].track.version + 1);
                assert(p.track.contributing_observations == tracks[j].track.contributing_observations.push(obs.observation_id@));
                assert(p.track.conflicts == tracks[j].track.conflicts);
                assert(p.track.contributing_sources == add_unique(tracks[j].sources, obs.source_id@));
                assert(e.confirmed_at == tracks[j].confirmed_at);
            }
        },
        Association::Conflict { track_id, divergence_m } => {
            if has_track(tracks, track_id@) {
                let j = track_index(tracks, track_id@);
                let e = conflicted_entry(tracks[j], obs.observation_id@, obs.source_id@, divergence_m);
                let s = choose|s: Magnitude|
                    scored(score, evidence_of(e, now, sources, reports, seen, pre.config()), s) && publish_effect(
                        tracks.remove(j),
                        pre.provenance_log(),
                        pre.sequence_numbers(),
                        pre.config(),
                        e,
                        j,
                        now,
                        ProvenanceOp::ConflictPreserved,
                        Some(tracks[j].track.confidence_score),
                        obs.observation_id@,
                        obs.source_id@,
                        s,
                        post.track_entries(),
                        post.provenance_log(),
                        post.sequence_numbers(),
                        res->Ok_0@,
                    );
                let p = published_entry(e, now, s, seq_text("prv"@, (pre.sequence_numbers().1 + 1) as nat), newly_confirmed(e, pre.config()));
                assert(res->Ok_0@.track == Some(p.track));
                assert(p.track.track_id == track_id@);
                assert(p.track.conflicts.drop_last() =~= tracks[j].track.conflicts);
                assert(p.conflicting.len() > 0);
                assert(p.track.version == tracks[j].track.version + 1);
                assert(p.track.contributing_observations == tracks[j].track.contributing_observations);
                if !tracks[j].sources.contains(obs.source_id@) {
                    assert(p.track.contributing_sources[tracks[j].sources.len() as int] == obs.source_id@);
                }
                assert(p.track.contributing_sources.contains(obs.source_id@));
                assert(e.confirmed_at == tracks[j].confirmed_at);
            }
        },
    }
}

/// `post` is `pre` with the observation's source registered on first
/// sighting, under its own identifier as name, with reliability `default` clamped into `[0, 1]`.
pub open spec fn auto_registered(pre: Seq<Source>, post: Seq<Source>, obs: &Observation, default: Magnitude) -> bool {
    if source_known(pre, obs.source_id@) {
        post == pre
    } else {
        &&& post.len() == pre.len() + 1
        &&& post.drop_last() == pre
        &&& post.last().schema_version == SCHEMA_VERSION
        &&& post.last().source_id == obs.source_id
        &&& post.last().kind == obs.source_kind
        &&& post.last().name == obs.source_id.0
        &&& post.last().reliability == clamp_unit(default)
        &&& post.last().registered_at == obs.received_at
    }
}

/// The outcome for an accepted observation that carries no kinematics.
pub open spec fn audit_only(out: FusionOutcomeView) -> bool {
    out == FusionOutcomeView {
        accepted: true,
        rejection: None,
        operation: None,
        track: None,
        provenance: None,
        cue: None,
        note: Some("non-kinematic observation recorded for audit only"@),
    }
}

/// Whether the association policy may be called on any list of tracks.
pub open spec fn associator_total<A: Fn(&Vec<TrackId>) -> Association>(associate: A) -> bool {
    forall|ids: Vec<TrackId>| call_requires(associate, (&ids,))
}

/// What handling association `a` of observation `obs` does: start a new
/// track, merge into the named track, or preserve a conflict on it; merging
/// or preserving against an unknown track fails with `NotFound` and changes
/// no track.
pub open spec fn association_effect<S: Fn(&TrackEvidence) -> Magnitude>(
    a: Association,
    obs: &Observation,
    tracks: Seq<TrackEntryView>,
    log: Seq<ProvenanceRecordView>,
    seqs: (u64, u64, u64),
    config: FusionConfig,
    sources: Seq<Source>,
    reports: Seq<SensorHealth>,
    seen: Seq<SeenObservation>,
    score: S,
    post_tracks: Seq<TrackEntryView>,
    post_log: Seq<ProvenanceRecordView>,
    post_seqs: (u64, u64, u64),
    res: Result<FusionOutcome, FabricError>,
) -> bool {
    let now = obs.received_at;
    match a {
        Association::New => res matches Ok(out) && exists|s: Magnitude|
            scored(score, evidence_of(created_entry(seqs.0, obs, now), now, sources, reports, seen, config), s)
                && publish_effect(
                tracks,
                log,
                track_numbered(seqs),
                config,
                created_entry(seqs.0, obs, now),
                tracks.len() as int,
                now,
                ProvenanceOp::Created,
                None,
                obs.observation_id@,
                obs.source_id@,
                s,
                post_tracks,
                post_log,
                post_seqs,
                out@,
            ),
        Association::Merge { track_id, .. } => if !has_track(tracks, track_id@) {
            &&& res matches Err(FabricError::NotFound(msg)) && msg@ == "track "@ + track_id@
            &&& post_tracks == tracks
            &&& post_log == log
            &&& post_seqs == seqs
        } else {
            res matches Ok(out) && exists|s: Magnitude|
                scored(
                    score,
                    evidence_of(
                        merged_entry(tracks[track_index(tracks, track_id@)], obs.observation_id@, obs.source_id@),
                        now,
                        sources,
                        reports,
                        seen,
                        config,
                    ),
                    s,
                ) && publish_effect(
                    tracks.remove(track_index(tracks, track_id@)),
                    log,
                    seqs,
                    config,
                    merged_entry(tracks[track_index(tracks, track_id@)], obs.observation_id@, obs.source_id@),
                    track_index(tracks, track_id@),
                    now,
                    ProvenanceOp::Merged,
                    Some(tracks[track_index(tracks, track_id@)].track.confidence_score),
                    obs.observation_id@,
                    obs.source_id@,
                    s,
                    post_tracks,
                    post_log,
                    post_seqs,
                    out@,
                )
        },
        Association::Conflict { track_id, divergence_m } => if !has_track(tracks, track_id@) {
            &&& res matches Err(FabricError::NotFound(msg)) && msg@ == "track "@ + track_id@
            &&& post_tracks == tracks
            &&& post_log == log
            &&& post_seqs == seqs
        } else {
            res matches Ok(out) && exists|s: Magnitude|
                scored(
                    score,
                    evidence_of(
                        conflicted_entry(
                            tracks[track_index(tracks, track_id@)],
                            obs.observation_id@,
                            obs.source_id@,
                            divergence_m,
                        ),
                        now,
                        sources,
                        reports,
                        seen,
                        config,
                    ),
                    s,
                ) && publish_effect(
                    tracks.remove(track_index(tracks, track_id@)),
                    log,
                    seqs,
                    config,
                    conflicted_entry(
                        tracks[track_index(tracks, track_id@)],
                        obs.observation_id@,
                        obs.source_id@,
                        divergence_m,
                    ),
                    track_index(tracks, track_id@),
                    now,
                    ProvenanceOp::ConflictPreserved,
                    Some(tracks[track_index(tracks, track_id@)].track.confidence_score),
                    obs.observation_id@,
                    obs.source_id@,
                    s,
                    post_tracks,
                    post_log,
                    post_seqs,
                    out@,
                )
        },
    }
}

/// Entry `e` after an operator verdict at `now` re-scored it to `score` under
/// record `pid`; a rejection drops the track.
pub open spec fn overridden_entry(
    e: TrackEntryView,
    now: Timestamp,
    score: Magnitude,
    pid: Seq<char>,
    verdict: FeedbackVerdict,
) -> TrackEntryView {
    TrackEntryView {
        track: FusedTrackView {
            version: (e.track.version + 1) as u64,
            updated_at: now,
            confidence_score: score,
            provenance_ref: pid,
            status: if verdict == FeedbackVerdict::RejectTrack {
                TrackStatus::Dropped
            } else {
                e.track.status
            },
            ..e.track
        },
        last_provenance: pid,
        ..e
    }
}

/// The `OperatorOverride` record for an operator verdict on entry `e`.
pub open spec fn override_record(
    e: TrackEntryView,
    now: Timestamp,
    score: Magnitude,
    pid: Seq<char>,
    operator_id: Seq<char>,
    verdict: FeedbackVerdict,
) -> ProvenanceRecordView {
    ProvenanceRecordView {
        schema_version: SCHEMA_VERSION,
        provenance_id: pid,
        track_id: e.track.track_id,
        fused_version: (e.track.version + 1) as u64,
        created_at: now,
        operation: ProvenanceOp::OperatorOverride,
        contributing_observations: Seq::empty(),
        contributing_sources: Seq::empty(),
        confidence_before: Some(e.track.confidence_score),
        confidence_after: score,
        notes: "operator "@ + operator_id + " verdict "@ + verdict_label(verdict),
        prev_provenance_id: Some(e.last_provenance),
    }
}

/// The effect of applying an operator verdict with resulting score `s` to
/// the track at position `i` of `tracks`.
pub open spec fn override_effect(
    tracks: Seq<TrackEntryView>,
    log: Seq<ProvenanceRecordView>,
    seqs: (u64, u64, u64),
    i: int,
    fb: &OperatorFeedback,
    s: Magnitude,
    post_tracks: Seq<TrackEntryView>,
    post_log: Seq<ProvenanceRecordView>,
    post_seqs: (u64, u64, u64),
    out: FusionOutcomeView,
) -> bool {
    let pid = seq_text("prv"@, (seqs.1 + 1) as nat);
    let p = overridden_entry(tracks[i], fb.submitted_at, s, pid, fb.verdict);
    let record = override_record(tracks[i], fb.submitted_at, s, pid, fb.operator_id@, fb.verdict);
    &&& post_tracks == tracks.update(i, p)
    &&& post_log == log.push(record)
    &&& post_seqs == (seqs.0, (seqs.1 + 1) as u64, seqs.2)
    &&& out == FusionOutcomeView {
        accepted: true,
        rejection: None,
        operation: Some(ProvenanceOp::OperatorOverride),
        track: Some(p.track),
        provenance: Some(record),
        cue: None,
        note: None,
    }
}

/// `t` placed into `s` after every element whose key does not follow its own.
pub open spec fn insert_by_key<T>(s: Seq<T>, t: T, key: spec_fn(T) -> Seq<char>) -> Seq<T>
    decreases s.len(),
{
    if s.len() == 0 {
        seq![t]
    } else if !lex_lt(key(t), key(s.last())) {
        s.push(t)
    } else {
        insert_by_key(s.drop_last(), t, key).push(s.last())
    }
}

/// The stable sort of `s` by `key` in code-point lexicographic order.
pub open spec fn sort_by_key<T>(s: Seq<T>, key: spec_fn(T) -> Seq<char>) -> Seq<T>
    decreases s.len(),
{
    if s.len() == 0 {
        Seq::empty()
    } else {
        insert_by_key(sort_by_key(s.drop_last(), key), s.last(), key)
    }
}

proof fn lemma_insert_by_key_at<T>(s: Seq<T>, t: T, key: spec_fn(T) -> Seq<char>, k: int)
    requires
        0 <= k <= s.len(),
        forall|m: int| k <= m < s.len() ==> lex_lt(key(t), key(#[trigger] s[m])),
        k > 0 ==> !lex_lt(key(t), key(s[k - 1])),
    ensures
        insert_by_key(s, t, key) == s.insert(k, t),
    decreases s.len(),
{
    if s.len() == 0 {
        assert(s.insert(k, t) =~= seq![t]);
    } else if k == s.len() {
        assert(s.insert(k, t) =~= s.push(t));
    } else {
        assert(lex_lt(key(t), key(s[s.len() - 1])));
        lemma_insert_by_key_at(s.drop_last(), t, key, k);
        assert(s.insert(k, t) =~= s.drop_last().insert(k, t).push(s.last()));
    }
}

/// Keys never descend along `s`.
pub open spec fn key_sorted<T>(s: Seq<T>, key: spec_fn(T) -> Seq<char>) -> bool {
    forall|i: int, j: int| 0 <= i < j < s.len() ==> !lex_lt(key(s[j]), key(s[i]))
}

/// No two elements of `s` share a key.
pub open spec fn keys_distinct<T>(s: Seq<T>, key: spec_fn(T) -> Seq<char>) -> bool {
    forall|i: int, j: int| 0 <= i < j < s.len() ==> key(s[i]) != key(s[j])
}

/// "Not after" is transitive.
proof fn lemma_lex_le_trans(a: Seq<char>, b: Seq<char>, c: Seq<char>)
    requires
        !lex_lt(b, a),
        !lex_lt(c, b),
    ensures
        !lex_lt(c, a),
{
    lemma_lex_order(a, b, a);
    lemma_lex_order(c, a, b);
}

proof fn lemma_insert_by_key_sorted<T>(s: Seq<T>, t: T, key: spec_fn(T) -> Seq<char>)
    requires
        key_sorted(s, key),
    ensures
        key_sorted(insert_by_key(s, t, key), key),
        insert_by_key(s, t, key).to_multiset() == s.to_multiset().insert(t),
        keys_distinct(s, key) && (forall|m: int| 0 <= m < s.len() ==> key(#[trigger] s[m]) != key(t))
            ==> keys_distinct(insert_by_key(s, t, key), key),
    decreases s.len(),
{
    broadcast use vstd::seq_lib::group_to_multiset_ensures;

    let r = insert_by_key(s, t, key);
    if s.len() == 0 {
        assert(seq![t] =~= Seq::<T>::empty().push(t));
    } else if !lex_lt(key(t), key(s.last())) {
        assert(r == s.push(t));
        assert forall|i: int, j: int| 0 <= i < j < r.len() implies !lex_lt(key(r[j]), key(r[i])) by {
            if j == s.len() {
                assert(r[i] == s[i]);
                if i < s.len() - 1 {
                    lemma_lex_le_trans(key(s[i]), key(s[s.len() - 1]), key(t));
                }
            } else {
                assert(r[i] == s[i] && r[j] == s[j]);
            }
        }
        if keys_distinct(s, key) && (forall|m: int| 0 <= m < s.len() ==> key(#[trigger] s[m]) != key(t)) {
            assert forall|i: int, j: int| 0 <= i < j < r.len() implies key(r[i]) != key(r[j]) by {
                assert(r[i] == s[i]);
                if j < s.len() {
                    assert(r[j] == s[j]);
                }
            }
        }
    } else {
        let front = s.drop_last();
        let last = s.last();
        assert(last == s[s.len() - 1]);
        assert(key_sorted(front, key)) by {
            assert forall|i: int, j: int| 0 <= i < j < front.len() implies !lex_lt(key(front[j]), key(front[i])) by {
                assert(front[i] == s[i] && front[j] == s[j]);
            }
        }
        lemma_insert_by_key_sorted(front, t, key);
        let rest = insert_by_key(front, t, key);
        assert(r == rest.push(last));
        assert(s =~= front.push(last));
        lemma_lex_order(key(t), key(last), key(t));
        assert forall|k: int| 0 <= k < rest.len() implies rest[k] == t || (exists|m: int|
            0 <= m < front.len() && front[m] == #[trigger] rest[k]) by {
            assert(rest.to_multiset().count(rest[k]) > 0);
            if rest[k] != t {
                assert(front.to_multiset().count(rest[k]) > 0);
                assert(front.contains(rest[k]));
            }
        }
        assert forall|i: int, j: int| 0 <= i < j < r.len() implies !lex_lt(key(r[j]), key(r[i])) by {
            if j == rest.len() {
                assert(r[i] == rest[i]);
                if rest[i] != t {
                    let m = choose|m: int| 0 <= m < front.len() && front[m] == rest[i];
                    assert(front[m] == s[m]);
                }
            } else {
                assert(r[i] == rest[i] && r[j] == rest[j]);
            }
        }
        if keys_distinct(s, key) && (forall|m: int| 0 <= m < s.len() ==> key(#[trigger] s[m]) != key(t)) {
            assert(keys_distinct(front, key)) by {
                assert forall|i: int, j: int| 0 <= i < j < front.len() implies key(front[i]) != key(front[j]) by {
                    assert(front[i] == s[i] && front[j] == s[j]);
                }
            }
            assert forall|m: int| 0 <= m < front.len() implies key(#[trigger] front[m]) != key(t) by {
                assert(front[m] == s[m]);
            }
            assert forall|i: int, j: int| 0 <= i < j < r.len() implies key(r[i]) != key(r[j]) by {
                if j == rest.len() {
                    assert(r[i] == rest[i]);
                    if rest[i] != t {
                        let m = choose|m: int| 0 <= m < front.len() && front[m] == rest[i];
                        assert(front[m] == s[m]);
                    } else {
                        assert(key(s[s.len() - 1]) != key(t));
                    }
                } else {
                    assert(r[i] == rest[i] && r[j] == rest[j]);
                }
            }
        }
        assert(r.to_multiset() == rest.to_multiset().insert(last));
        assert(s.to_multiset() == front.to_multiset().insert(last));
    }
}

/// Sorting by key orders the keys, keeps the elements, and keeps distinct
/// keys distinct.
proof fn lemma_sort_by_key_sorted<T>(s: Seq<T>, key: spec_fn(T) -> Seq<char>)
    ensures
        key_sorted(sort_by_key(s, key), key),
        sort_by_key(s, key).to_multiset() == s.to_multiset(),
        keys_distinct(s, key) ==> keys_distinct(sort_by_key(s, key), key),
    decreases s.len(),
{
    broadcast use vstd::seq_lib::group_to_multiset_ensures;

    if s.len() == 0 {
        assert(sort_by_key(s, key) =~= Seq::<T>::empty());
        assert(s =~= Seq::<T>::empty());
    } else {
        let front = s.drop_last();
        lemma_sort_by_key_sorted(front, key);
        let sf = sort_by_key(front, key);
        lemma_insert_by_key_sorted(sf, s.last(), key);
        assert(front.push(s.last()) =~= s);
        if keys_distinct(s, key) {
            assert(keys_distinct(front, key)) by {
                assert forall|i: int, j: int| 0 <= i < j < front.len() implies key(front[i]) != key(front[j]) by {
                    assert(front[i] == s[i] && front[j] == s[j]);
                }
            }
            assert forall|m: int| 0 <= m < sf.len() implies key(#[trigger] sf[m]) != key(s.last()) by {
                assert(sf.to_multiset().count(sf[m]) > 0);
                assert(front.contains(sf[m]));
                let q = choose|q: int| 0 <= q < front.len() && front[q] == sf[m];
                assert(front[q] == s[q]);
                assert(s.last() == s[s.len() - 1]);
            }
        }
    }
}

/// The tracks of `entries` sorted by identifier are those of `entries`, each
/// as often, so every track is listed.
proof fn lemma_sorted_tracks_complete(entries: Seq<TrackEntryView>, sv: Seq<FusedTrackView>)
    requires
        sv == track_listing(entries),
    ensures
        sv.to_multiset() == published_tracks(entries).to_multiset(),
        forall|k: int|
            0 <= k < entries.len() ==> exists|i: int|
                0 <= i < sv.len() && #[trigger] sv[i] == (#[trigger] published_tracks(entries)[k]),
{
    let key = |t: FusedTrackView| t.track_id;
    let all = published_tracks(entries);
    lemma_sort_by_key_sorted(all, key);
    assert forall|k: int| 0 <= k < entries.len() implies exists|i: int|
        0 <= i < sv.len() && #[trigger] sv[i] == (#[trigger] published_tracks(entries)[k]) by {
        let x = all[k];
        all.to_multiset_ensures();
        assert(all.contains(x));
        assert(all.to_multiset().count(x) > 0);
        assert(sv.to_multiset().count(x) > 0);
        sv.to_multiset_ensures();
    }
}

/// When no two entries share an identifier, the identifiers of the sorted
/// tracks strictly ascend and each sorted track is the entry's track under
/// its identifier.
proof fn lemma_sorted_tracks_ordered(entries: Seq<TrackEntryView>, sv: Seq<FusedTrackView>)
    requires
        sv == track_listing(entries),
        distinct_tracks(entries),
    ensures
        forall|i: int, j: int|
            0 <= i < j < sv.len() ==> lex_lt((#[trigger] sv[i]).track_id, (#[trigger] sv[j]).track_id),
        forall|i: int|
            0 <= i < sv.len() ==> has_track(entries, (#[trigger] sv[i]).track_id) && sv[i] == entries[track_index(
                entries,
                sv[i].track_id,
            )].track,
{
    let key = |t: FusedTrackView| t.track_id;
    let all = published_tracks(entries);
    assert(keys_distinct(all, key)) by {
        assert forall|i: int, j: int| 0 <= i < j < all.len() implies key(all[i]) != key(all[j]) by {
            assert(all[i] == entries[i].track && all[j] == entries[j].track);
        }
    }
    lemma_sort_by_key_sorted(all, key);
    assert forall|i: int, j: int| 0 <= i < j < sv.len() implies lex_lt(
        (#[trigger] sv[i]).track_id,
        (#[trigger] sv[j]).track_id,
    ) by {
        lemma_lex_order(sv[i].track_id, sv[j].track_id, sv[i].track_id);
    }
    assert forall|i: int| 0 <= i < sv.len() implies has_track(entries, (#[trigger] sv[i]).track_id)
        && sv[i] == entries[track_index(entries, sv[i].track_id)].track by {
        let x = sv[i];
        sv.to_multiset_ensures();
        assert(sv.contains(x));
        assert(all.to_multiset().count(x) > 0);
        all.to_multiset_ensures();
        let q = choose|q: int| 0 <= q < all.len() && all[q] == x;
        assert(all[q] == entries[q].track);
        let c = track_index(entries, x.track_id);
        if c != q {
            assert(entries[c].track.track_id == entries[q].track.track_id);
        }
    }
}

/// The confirmed tracks among `ts`, in order.
pub open spec fn confirmed_of(ts: Seq<FusedTrackView>) -> Seq<FusedTrackView>
    decreases ts.len(),
{
    if ts.len() == 0 {
        Seq::empty()
    } else if ts.last().status == TrackStatus::Confirmed {
        confirmed_of(ts.drop_last()).push(ts.last())
    } else {
        confirmed_of(ts.drop_last())
    }
}

/// The confirmation latency, from first observation to confirmation, of
/// each of `ts` whose entry in `entries` has been confirmed, in order.
pub open spec fn latencies_of(entries: Seq<TrackEntryView>, ts: Seq<FusedTrackView>) -> Seq<int>
    decreases ts.len(),
{
    if ts.len() == 0 {
        Seq::empty()
    } else {
        let rest = latencies_of(entries, ts.drop_last());
        let e = entries[track_index(entries, ts.last().track_id)];
        match e.confirmed_at {
            Some(c) => rest.push(c.0 - e.first_obs_at.0),
            None => rest,
        }
    }
}

/// The tracks `confirmed_of` picks from `ts` are those whose status is
/// `Confirmed`, in their order: every one of them is `Confirmed`, every
/// `Confirmed` track of `ts` is among them, and their number is the number
/// of `Confirmed` tracks in `ts`.
pub proof fn lemma_confirmed_tracks(ts: Seq<FusedTrackView>)
    ensures
        confirmed_of(ts) == ts.filter(|t: FusedTrackView| t.status == TrackStatus::Confirmed),
        forall|i: int| 0 <= i < confirmed_of(ts).len() ==> (#[trigger] confirmed_of(ts)[i]).status == TrackStatus::Confirmed,
        forall|i: int| 0 <= i < ts.len() && (#[trigger] ts[i]).status == TrackStatus::Confirmed ==> confirmed_of(ts).contains(ts[i]),
    decreases ts.len(),
{
    let pred = |t: FusedTrackView| t.status == TrackStatus::Confirmed;
    reveal(Seq::filter);
    if ts.len() > 0 {
        lemma_confirmed_tracks(ts.drop_last());
    }
    assert(confirmed_of(ts) == ts.filter(pred));
    assert forall|i: int| 0 <= i < confirmed_of(ts).len() implies (#[trigger] confirmed_of(ts)[i]).status
        == TrackStatus::Confirmed by {
        ts.lemma_filter_pred(pred, i);
    }
    assert forall|i: int| 0 <= i < ts.len() && (#[trigger] ts[i]).status == TrackStatus::Confirmed implies confirmed_of(
        ts,
    ).contains(ts[i]) by {
        ts.lemma_filter_contains(pred, i);
    }
}

/// The latencies gathered over `ts` are never more than the tracks; when
/// every one of them has been confirmed there is one per track, in order,
/// each the time from the track's first observation to its confirmation.
pub proof fn lemma_latencies(entries: Seq<TrackEntryView>, ts: Seq<FusedTrackView>)
    ensures
        latencies_of(entries, ts).len() <= ts.len(),
        (forall|i: int|
            0 <= i < ts.len() ==> (#[trigger] entries[track_index(entries, ts[i].track_id)]).confirmed_at is Some)
            ==> latencies_of(entries, ts).len() == ts.len() && forall|i: int|
            0 <= i < ts.len() ==> #[trigger] latencies_of(entries, ts)[i] == entries[track_index(
                entries,
                ts[i].track_id,
            )].confirmed_at->Some_0.0 - entries[track_index(entries, ts[i].track_id)].first_obs_at.0,
    decreases ts.len(),
{
    if ts.len() > 0 {
        let rest = ts.drop_last();
        lemma_latencies(entries, rest);
        if forall|i: int|
            0 <= i < ts.len() ==> (#[trigger] entries[track_index(entries, ts[i].track_id)]).confirmed_at is Some {
            assert forall|i: int| 0 <= i < rest.len() implies (#[trigger] entries[track_index(
                entries,
                rest[i].track_id,
            )]).confirmed_at is Some by {
                assert(rest[i] == ts[i]);
            }
            assert(ts[ts.len() - 1] == ts.last());
            assert forall|i: int| 0 <= i < ts.len() implies #[trigger] latencies_of(entries, ts)[i] == entries[track_index(
                entries,
                ts[i].track_id,
            )].confirmed_at->Some_0.0 - entries[track_index(entries, ts[i].track_id)].first_obs_at.0 by {
                if i < rest.len() {
                    assert(rest[i] == ts[i]);
                }
            }
        }
    }
}

/// The number of conflicts the tracks `ts` hold together.
pub open spec fn conflict_total(ts: Seq<FusedTrackView>) -> int
    decreases ts.len(),
{
    if ts.len() == 0 {
        0
    } else {
        conflict_total(ts.drop_last()) + ts.last().conflicts.len()
    }
}

/// Whether the confirmation latency of `e`, if it has one, fits `i64`.
pub open spec fn latency_fits(e: TrackEntryView) -> bool {
    e.confirmed_at matches Some(c) ==> i64::MIN <= c.0 - e.first_obs_at.0 <= i64::MAX
}

/// Whether the whole-number results over `entries` fit their types.
pub open spec fn counts_fit(entries: Seq<TrackEntryView>) -> bool {
    &&& forall|k: int| 0 <= k < entries.len() ==> latency_fits(#[trigger] entries[k])
    &&& conflict_total(track_listing(entries)) <= usize::MAX
}

proof fn lemma_conflict_total_prefix(ts: Seq<FusedTrackView>, j: int)
    requires
        0 <= j <= ts.len(),
    ensures
        conflict_total(ts.take(j)) <= conflict_total(ts),
    decreases ts.len() - j,
{
    if j < ts.len() {
        lemma_conflict_total_prefix(ts, j + 1);
        assert(ts.take(j + 1).drop_last() =~= ts.take(j));
    } else {
        assert(ts.take(j) =~= ts);
    }
}

/// The published tracks of `entries`, ordered by identifier.
pub open spec fn track_listing(entries: Seq<TrackEntryView>) -> Seq<FusedTrackView> {
    sort_by_key(published_tracks(entries), |t: FusedTrackView| t.track_id)
}

/// The published tracks of `entries`, in engine order.
pub open spec fn published_tracks(entries: Seq<TrackEntryView>) -> Seq<FusedTrackView> {
    entries.map_values(|e: TrackEntryView| e.track)
}

/// Whether `s` is a score the scorer may return on evidence whose view is `ev`.
pub open spec fn scored<S: Fn(&TrackEvidence) -> Magnitude>(score: S, ev: TrackEvidenceView, s: Magnitude) -> bool {
    exists|e: TrackEvidence| e@ == ev && call_ensures(score, (&e,), s)
}

/// Whether the scorer may be called on any evidence.
pub open spec fn scorer_total<S: Fn(&TrackEvidence) -> Magnitude>(score: S) -> bool {
    forall|e: TrackEvidence| call_requires(score, (&e,))
}

proof fn lemma_numbered_fresh(id: Seq<char>, prefix: Seq<char>, n: u64)
    requires
        numbered(id, prefix, n),
        n < u64::MAX,
    ensures
        id != seq_text(prefix, (n + 1) as nat),
        numbered(id, prefix, (n + 1) as u64),
{
    let k = choose|k: nat| 1 <= k <= n && id == seq_text(prefix, k);
    if id == seq_text(prefix, (n + 1) as nat) {
        lemma_seq_text_injective(prefix, k, (n + 1) as nat);
    }
}

/// The reliability prior registered for `id`, or `default` for a source that
/// was never registered.
pub open spec fn reliability_of(sources: Seq<Source>, id: Seq<char>, default: Magnitude) -> Magnitude
    decreases sources.len(),
{
    if sources.len() == 0 {
        default
    } else if sources.last().source_id@ == id {
        sources.last().reliability
    } else {
        reliability_of(sources.drop_last(), id, default)
    }
}

/// The reported health score of `id`, or `1.0` for a source with no report.
pub open spec fn health_of(reports: Seq<SensorHealth>, id: Seq<char>) -> Magnitude
    decreases reports.len(),
{
    if reports.len() == 0 {
        Magnitude::one()
    } else if reports.last().source_id@ == id {
        reports.last().health_score
    } else {
        health_of(reports.drop_last(), id)
    }
}

/// When the accepted observation `id` was observed, if it was accepted.
pub open spec fn seen_time(seen: Seq<SeenObservation>, id: Seq<char>) -> Option<Timestamp>
    decreases seen.len(),
{
    if seen.len() == 0 {
        None
    } else if seen.last().observation_id@ == id {
        Some(seen.last().observed_at)
    } else {
        seen_time(seen.drop_last(), id)
    }
}

/// `x`, or the nearest bound of `i64` when it lies outside.
pub open spec fn within_i64(x: int) -> int {
    if x < i64::MIN {
        i64::MIN as int
    } else if x > i64::MAX {
        i64::MAX as int
    } else {
        x
    }
}

/// The smallest age relative to `now` among the accepted observations named
/// in `ids`, if any of them was accepted.
pub open spec fn freshest_age(ids: Seq<Seq<char>>, seen: Seq<SeenObservation>, now: Timestamp) -> Option<int>
    decreases ids.len(),
{
    if ids.len() == 0 {
        None
    } else {
        let rest = freshest_age(ids.drop_last(), seen, now);
        match seen_time(seen, ids.last()) {
            Some(t) => {
                let age = now.0 - t.0;
                match rest {
                    Some(a) => Some(if age < a { age } else { a }),
                    None => Some(age),
                }
            },
            None => rest,
        }
    }
}

/// `freshest_age` is the least age among the seen observations of `ids`:
/// none of them is younger, one of them has exactly that age, and there is
/// no age when none of them was seen.
proof fn lemma_freshest_age_least(ids: Seq<Seq<char>>, seen: Seq<SeenObservation>, now: Timestamp)
    ensures
        freshest_age(ids, seen, now) is None <==> forall|j: int|
            0 <= j < ids.len() ==> seen_time(seen, #[trigger] ids[j]) is None,
        freshest_age(ids, seen, now) matches Some(a) ==> forall|j: int|
            0 <= j < ids.len() && seen_time(seen, #[trigger] ids[j]) is Some ==> a <= now.0 - seen_time(
                seen,
                ids[j],
            )->Some_0.0,
        freshest_age(ids, seen, now) matches Some(a) ==> exists|j: int|
            0 <= j < ids.len() && seen_time(seen, #[trigger] ids[j]) is Some && a == now.0 - seen_time(
                seen,
                ids[j],
            )->Some_0.0,
    decreases ids.len(),
{
    if ids.len() > 0 {
        let rest = ids.drop_last();
        lemma_freshest_age_least(rest, seen, now);
        assert forall|j: int| 0 <= j < rest.len() implies #[trigger] rest[j] == ids[j] by {}
        let last = ids.len() - 1;
        assert(ids[last] == ids.last());
        if freshest_age(ids, seen, now) is None {
            assert forall|j: int| 0 <= j < ids.len() implies seen_time(seen, #[trigger] ids[j]) is None by {
                if j < last {
                    assert(rest[j] == ids[j]);
                }
            }
        }
        match freshest_age(rest, seen, now) {
            Some(b) => {
                let k = choose|k: int|
                    0 <= k < rest.len() && seen_time(seen, #[trigger] rest[k]) is Some && b == now.0 - seen_time(
                        seen,
                        rest[k],
                    )->Some_0.0;
                assert(rest[k] == ids[k]);
            },
            None => {
                assert forall|j: int| 0 <= j < last implies seen_time(seen, #[trigger] ids[j]) is None by {
                    assert(rest[j] == ids[j]);
                }
            },
        }
        assert forall|j: int| 0 <= j < ids.len() && seen_time(seen, #[trigger] ids[j]) is Some implies freshest_age(
            ids,
            seen,
            now,
        )->Some_0 <= now.0 - seen_time(seen, ids[j])->Some_0.0 by {
            if j < last {
                assert(rest[j] == ids[j]);
            }
        }
    }
}

/// The age of the freshest contribution handed to the scorer: no supporting
/// observation that was seen is younger, one of them has exactly that age
/// (each held within `i64`), and with none of them seen the age is zero.
pub proof fn lemma_freshest_contribution(
    e: TrackEntryView,
    now: Timestamp,
    sources: Seq<Source>,
    reports: Seq<SensorHealth>,
    seen: Seq<SeenObservation>,
    config: FusionConfig,
)
    ensures
        forall|j: int|
            0 <= j < e.supporting.len() && seen_time(seen, #[trigger] e.supporting[j]) is Some ==> evidence_of(
                e,
                now,
                sources,
                reports,
                seen,
                config,
            ).freshest_age_ms <= within_i64(now.0 - seen_time(seen, e.supporting[j])->Some_0.0),
        (exists|j: int| 0 <= j < e.supporting.len() && seen_time(seen, #[trigger] e.supporting[j]) is Some) ==> exists|
            j: int,
        |
            0 <= j < e.supporting.len() && seen_time(seen, #[trigger] e.supporting[j]) is Some && evidence_of(
                e,
                now,
                sources,
                reports,
                seen,
                config,
            ).freshest_age_ms == within_i64(now.0 - seen_time(seen, e.supporting[j])->Some_0.0),
        (forall|j: int| 0 <= j < e.supporting.len() ==> seen_time(seen, #[trigger] e.supporting[j]) is None)
            ==> evidence_of(e, now, sources, reports, seen, config).freshest_age_ms == 0,
{
    lemma_freshest_age_least(e.supporting, seen, now);
    if let Some(a) = freshest_age(e.supporting, seen, now) {
        assert forall|j: int|
            0 <= j < e.supporting.len() && seen_time(seen, #[trigger] e.supporting[j]) is Some implies within_i64(a)
                <= within_i64(now.0 - seen_time(seen, e.supporting[j])->Some_0.0) by {}
    }
}

/// The prior the scorer sees for a source is the reliability of its latest
/// registration, or the default for a source never registered.
pub proof fn lemma_reliability_lookup(sources: Seq<Source>, id: Seq<char>, default: Magnitude, k: int)
    ensures
        !source_known(sources, id) ==> reliability_of(sources, id, default) == default,
        0 <= k < sources.len() && sources[k].source_id@ == id && (forall|m: int|
            k < m < sources.len() ==> (#[trigger] sources[m]).source_id@ != id) ==> reliability_of(sources, id, default)
            == sources[k].reliability,
    decreases sources.len(),
{
    if sources.len() > 0 {
        let rest = sources.drop_last();
        lemma_reliability_lookup(rest, id, default, k);
        if !source_known(sources, id) {
            assert forall|i: int| 0 <= i < rest.len() implies rest[i].source_id@ != id by {
                assert(rest[i] == sources[i]);
            }
            assert(sources[sources.len() - 1] == sources.last());
        }
        if 0 <= k < sources.len() && sources[k].source_id@ == id && (forall|m: int|
            k < m < sources.len() ==> (#[trigger] sources[m]).source_id@ != id) {
            if k < sources.len() - 1 {
                assert(sources[sources.len() - 1] == sources.last());
                assert(rest[k] == sources[k]);
                assert forall|m: int| k < m < rest.len() implies (#[trigger] rest[m]).source_id@ != id by {
                    assert(rest[m] == sources[m]);
                }
            } else {
                assert(sources[k] == sources.last());
            }
        }
    }
}

/// The health the scorer sees for a source is the score of its latest
/// report, or full health for a source that never reported.
pub proof fn lemma_health_lookup(reports: Seq<SensorHealth>, id: Seq<char>, k: int)
    ensures
        (forall|m: int| 0 <= m < reports.len() ==> (#[trigger] reports[m]).source_id@ != id) ==> health_of(reports, id)
            == Magnitude::one(),
        0 <= k < reports.len() && reports[k].source_id@ == id && (forall|m: int|
            k < m < reports.len() ==> (#[trigger] reports[m]).source_id@ != id) ==> health_of(reports, id)
            == reports[k].health_score,
    decreases reports.len(),
{
    if reports.len() > 0 {
        let rest = reports.drop_last();
        lemma_health_lookup(rest, id, k);
        assert(reports[reports.len() - 1] == reports.last());
        if forall|m: int| 0 <= m < reports.len() ==> (#[trigger] reports[m]).source_id@ != id {
            assert forall|m: int| 0 <= m < rest.len() implies (#[trigger] rest[m]).source_id@ != id by {
                assert(rest[m] == reports[m]);
            }
        }
        if 0 <= k < reports.len() && reports[k].source_id@ == id && (forall|m: int|
            k < m < reports.len() ==> (#[trigger] reports[m]).source_id@ != id) {
            if k < reports.len() - 1 {
                assert(rest[k] == reports[k]);
                assert forall|m: int| k < m < rest.len() implies (#[trigger] rest[m]).source_id@ != id by {
                    assert(rest[m] == reports[m]);
                }
            }
        }
    }
}

proof fn lemma_reliability_frame(sources: Seq<Source>, k: int, s: Source, id: Seq<char>, default: Magnitude)
    requires
        0 <= k < sources.len(),
        sources[k].source_id@ != id,
        s.source_id@ != id,
    ensures
        reliability_of(sources.update(k, s), id, default) == reliability_of(sources, id, default),
        reliability_of(sources.push(s), id, default) == reliability_of(sources, id, default),
    decreases sources.len(),
{
    let u = sources.update(k, s);
    assert(sources.push(s).drop_last() =~= sources);
    if k < sources.len() - 1 {
        assert(u.drop_last() =~= sources.drop_last().update(k, s));
        lemma_reliability_frame(sources.drop_last(), k, s, id, default);
        assert(u.last() == sources.last());
    } else {
        assert(u.drop_last() =~= sources.drop_last());
    }
}

/// What a registration gives back: after registering `s`, the prior the
/// scorer sees for its source is the one registered, and the prior of every
/// other source is as it was.
pub proof fn lemma_registration_read_back(sources: Seq<Source>, s: Source, id: Seq<char>, default: Magnitude)
    requires
        sources_distinct(sources),
    ensures
        reliability_of(replace_or_push_source(sources, s), s.source_id@, default) == s.reliability,
        id != s.source_id@ ==> reliability_of(replace_or_push_source(sources, s), id, default) == reliability_of(
            sources,
            id,
            default,
        ),
{
    let post = replace_or_push_source(sources, s);
    lemma_registered_source_listed(sources, s);
    lemma_first_match(sources, |x: Source| x.source_id@ == s.source_id@);
    let k = first_match(sources, |x: Source| x.source_id@ == s.source_id@);
    let at = if k >= 0 { k } else { sources.len() as int };
    assert(post[at] == s);
    assert forall|m: int| at < m < post.len() implies (#[trigger] post[m]).source_id@ != s.source_id@ by {
        assert(post[at].source_id@ != post[m].source_id@);
    }
    lemma_reliability_lookup(post, s.source_id@, default, at);
    if id != s.source_id@ {
        if k >= 0 {
            lemma_reliability_frame(sources, k, s, id, default);
        } else {
            assert(post.drop_last() =~= sources);
        }
    }
}

proof fn lemma_health_frame(reports: Seq<SensorHealth>, k: int, h: SensorHealth, id: Seq<char>)
    requires
        0 <= k < reports.len(),
        reports[k].source_id@ != id,
        h.source_id@ != id,
    ensures
        health_of(reports.update(k, h), id) == health_of(reports, id),
        health_of(reports.push(h), id) == health_of(reports, id),
    decreases reports.len(),
{
    let u = reports.update(k, h);
    assert(reports.push(h).drop_last() =~= reports);
    if k < reports.len() - 1 {
        assert(u.drop_last() =~= reports.drop_last().update(k, h));
        lemma_health_frame(reports.drop_last(), k, h, id);
        assert(u.last() == reports.last());
    } else {
        assert(u.drop_last() =~= reports.drop_last());
    }
}

/// What a health report gives back: after reporting `h`, the health the
/// scorer sees for its source is the one reported, and that of every other
/// source is as it was. Reports are kept one per source.
pub proof fn lemma_health_read_back(reports: Seq<SensorHealth>, h: SensorHealth, id: Seq<char>)
    requires
        forall|i: int, j: int| 0 <= i < j < reports.len() ==> reports[i].source_id@ != reports[j].source_id@,
    ensures
        health_of(replace_or_push_health(reports, h), h.source_id@) == h.health_score,
        id != h.source_id@ ==> health_of(replace_or_push_health(reports, h), id) == health_of(reports, id),
{
    let post = replace_or_push_health(reports, h);
    lemma_first_match(reports, |x: SensorHealth| x.source_id@ == h.source_id@);
    let k = first_match(reports, |x: SensorHealth| x.source_id@ == h.source_id@);
    let at = if k >= 0 { k } else { reports.len() as int };
    assert(post[at] == h);
    assert forall|m: int| at < m < post.len() implies (#[trigger] post[m]).source_id@ != h.source_id@ by {
        if k >= 0 {
            assert(post[m] == reports[m]);
            assert(reports[k].source_id@ != reports[m].source_id@);
        }
    }
    lemma_health_lookup(post, h.source_id@, at);
    if id != h.source_id@ {
        if k >= 0 {
            lemma_health_frame(reports, k, h, id);
        } else {
            let q = reports.push(h);
            assert(q.drop_last() =~= reports);
        }
    }
}

/// What the scorer is told about a track: its identifier and the time; one
/// reliability prior and one health score per distinct contributing source,
/// in the track's source order, each that source's registered prior (or the
/// default) and latest reported health (or full health); the numbers of
/// distinct sources, supporting and conflicting observations; and the
/// configured calibration score and freshness horizon.
pub proof fn lemma_evidence_fields(
    e: TrackEntryView,
    now: Timestamp,
    sources: Seq<Source>,
    reports: Seq<SensorHealth>,
    seen: Seq<SeenObservation>,
    config: FusionConfig,
)
    ensures
        ({
            let ev = evidence_of(e, now, sources, reports, seen, config);
            &&& ev.track_id == e.track.track_id
            &&& ev.now == now
            &&& ev.source_reliabilities.len() == e.sources.len()
            &&& ev.source_health.len() == e.sources.len()
            &&& forall|i: int|
                0 <= i < e.sources.len() ==> ev.source_reliabilities[i] == reliability_of(
                    sources,
                    #[trigger] e.sources[i],
                    config.default_source_reliability,
                ) && ev.source_health[i] == health_of(reports, e.sources[i])
            &&& ev.distinct_sources == e.sources.len()
            &&& ev.support_count == e.supporting.len()
            &&& ev.conflict_count == e.conflicting.len()
            &&& ev.calibration_score == config.default_calibration_score
            &&& ev.freshness_horizon_ms == config.freshness_horizon_ms
        }),
{
}

/// The view of the evidence handed to the confidence scorer.
pub struct TrackEvidenceView {
    pub track_id: Seq<char>,
    pub now: Timestamp,
    pub source_reliabilities: Seq<Magnitude>,
    pub source_health: Seq<Magnitude>,
    pub freshest_age_ms: int,
    pub distinct_sources: nat,
    pub support_count: nat,
    pub conflict_count: nat,
    pub calibration_score: Magnitude,
    pub freshness_horizon_ms: i64,
}

impl View for TrackEvidence {
    type V = TrackEvidenceView;

    open spec fn view(&self) -> TrackEvidenceView {
        TrackEvidenceView {
            track_id: self.track_id@,
            now: self.now,
            source_reliabilities: self.source_reliabilities@,
            source_health: self.source_health@,
            freshest_age_ms: self.freshest_age_ms as int,
            distinct_sources: self.distinct_sources as nat,
            support_count: self.support_count as nat,
            conflict_count: self.conflict_count as nat,
            calibration_score: self.calibration_score,
            freshness_horizon_ms: self.freshness_horizon_ms,
        }
    }
}

/// The evidence for track entry `e` at `now`.
pub open spec fn evidence_of(
    e: TrackEntryView,
    now: Timestamp,
    sources: Seq<Source>,
    reports: Seq<SensorHealth>,
    seen: Seq<SeenObservation>,
    config: FusionConfig,
) -> TrackEvidenceView {
    TrackEvidenceView {
        track_id: e.track.track_id,
        now,
        source_reliabilities: e.sources.map_values(
            |s: Seq<char>| reliability_of(sources, s, config.default_source_reliability),
        ),
        source_health: e.sources.map_values(|s: Seq<char>| health_of(reports, s)),
        freshest_age_ms: match freshest_age(e.supporting, seen, now) {
            Some(a) => within_i64(a),
            None => 0,
        },
        distinct_sources: e.sources.len(),
        support_count: e.supporting.len(),
        conflict_count: e.conflicting.len(),
        calibration_score: config.default_calibration_score,
        freshness_horizon_ms: config.freshness_horizon_ms,
    }
}

/// `seen` with the observation `id` recorded as observed at `t`, replacing an
/// earlier record of the same observation.
pub open spec fn record_seen(seen: Seq<SeenObservation>, id: ObservationId, t: Timestamp) -> Seq<SeenObservation> {
    let k = first_match(seen, |x: SeenObservation| x.observation_id@ == id@);
    if k >= 0 {
        seen.update(k, SeenObservation { observation_id: id, observed_at: t })
    } else {
        seen.push(SeenObservation { observation_id: id, observed_at: t })
    }
}

/// The position of the first element of `s` satisfying `p`, or `-1`.
pub open spec fn first_match<T>(s: Seq<T>, p: spec_fn(T) -> bool) -> int
    decreases s.len(),
{
    if s.len() == 0 {
        -1
    } else {
        let k = first_match(s.drop_last(), p);
        if k >= 0 {
            k
        } else if p(s.last()) {
            s.len() - 1
        } else {
            -1
        }
    }
}

pub proof fn lemma_first_match<T>(s: Seq<T>, p: spec_fn(T) -> bool)
    ensures
        first_match(s, p) < s.len(),
        first_match(s, p) >= 0 ==> p(s[first_match(s, p)]),
        forall|j: int| 0 <= j < s.len() && (first_match(s, p) < 0 || j < first_match(s, p)) ==> !p(#[trigger] s[j]),
        first_match(s, p) >= -1,
    decreases s.len(),
{
    if s.len() > 0 {
        lemma_first_match(s.drop_last(), p);
        assert forall|j: int| 0 <= j < s.len() && (first_match(s, p) < 0 || j < first_match(s, p)) implies !p(#[trigger] s[j]) by {
            if j < s.len() - 1 {
                assert(s.drop_last()[j] == s[j]);
            }
        }
    }
}

/// The first match is the position `i` when `s[i]` matches and nothing before
/// it does.
pub proof fn lemma_first_match_at<T>(s: Seq<T>, p: spec_fn(T) -> bool, i: int)
    requires
        0 <= i < s.len(),
        p(s[i]),
        forall|j: int| 0 <= j < i ==> !p(#[trigger] s[j]),
    ensures
        first_match(s, p) == i,
{
    lemma_first_match(s, p);
    if first_match(s, p) < i {
        assert(!p(s[i]));
    }
}

/// The registrations `sources` ordered by source identifier.
pub open spec fn source_listing(sources: Seq<Source>) -> Seq<Source> {
    sort_by_key(sources, |s: Source| s.source_id@)
}

/// No two registrations of `sources` share a source identifier.
pub open spec fn sources_distinct(sources: Seq<Source>) -> bool {
    forall|i: int, j: int| 0 <= i < j < sources.len() ==> sources[i].source_id@ != sources[j].source_id@
}

/// Registering a source keeps identifiers distinct, and the listing of the
/// sources then holds that source exactly once, as given, with identifiers
/// strictly ascending.
pub proof fn lemma_registered_source_listed(pre: Seq<Source>, s: Source)
    requires
        sources_distinct(pre),
    ensures
        sources_distinct(replace_or_push_source(pre, s)),
        exists|i: int|
            0 <= i < source_listing(replace_or_push_source(pre, s)).len() && #[trigger] source_listing(
                replace_or_push_source(pre, s),
            )[i] == s,
        forall|j: int|
            0 <= j < source_listing(replace_or_push_source(pre, s)).len() && (#[trigger] source_listing(
                replace_or_push_source(pre, s),
            )[j]).source_id@ == s.source_id@ ==> source_listing(replace_or_push_source(pre, s))[j] == s,
        forall|i: int, j: int|
            0 <= i < j < source_listing(replace_or_push_source(pre, s)).len() ==> lex_lt(
                (#[trigger] source_listing(replace_or_push_source(pre, s))[i]).source_id@,
                (#[trigger] source_listing(replace_or_push_source(pre, s))[j]).source_id@,
            ),
{
    let key = |x: Source| x.source_id@;
    let p = |x: Source| x.source_id@ == s.source_id@;
    let post = replace_or_push_source(pre, s);
    let listed = source_listing(post);
    lemma_first_match(pre, p);
    let k = first_match(pre, p);
    let at = if k >= 0 { k } else { pre.len() as int };
    assert(post[at] == s);
    assert forall|i: int, j: int| 0 <= i < j < post.len() implies post[i].source_id@ != post[j].source_id@ by {
        if k < 0 {
            if j == pre.len() {
                assert(!p(pre[i]));
            } else {
                assert(post[i] == pre[i] && post[j] == pre[j]);
            }
        }
    }
    assert(keys_distinct(post, key));
    lemma_sort_by_key_sorted(post, key);
    post.to_multiset_ensures();
    listed.to_multiset_ensures();
    assert(post.contains(s));
    assert(listed.to_multiset().count(s) > 0);
    assert(listed.contains(s));
    assert forall|j: int| 0 <= j < listed.len() && (#[trigger] listed[j]).source_id@ == s.source_id@ implies listed[j]
        == s by {
        assert(listed.contains(listed[j]));
        assert(post.to_multiset().count(listed[j]) > 0);
        let q = choose|q: int| 0 <= q < post.len() && post[q] == listed[j];
        if q != at {
            assert(post[q].source_id@ == post[at].source_id@);
        }
    }
    assert forall|i: int, j: int| 0 <= i < j < listed.len() implies lex_lt(
        (#[trigger] listed[i]).source_id@,
        (#[trigger] listed[j]).source_id@,
    ) by {
        lemma_lex_order(listed[i].source_id@, listed[j].source_id@, listed[i].source_id@);
    }
}

/// Registration on first sighting keeps source identifiers distinct, leaves
/// every earlier registration where and as it was, and leaves the
/// observation's source registered.
pub proof fn lemma_auto_registration_keeps(pre: Seq<Source>, post: Seq<Source>, obs: Observation, default: Magnitude)
    requires
        sources_distinct(pre),
        auto_registered(pre, post, &obs, default),
    ensures
        sources_distinct(post),
        pre.is_prefix_of(post),
        source_known(post, obs.source_id@),
{
    if source_known(pre, obs.source_id@) {
        assert(pre.subrange(0, pre.len() as int) =~= pre);
    } else {
        assert(pre =~= post.subrange(0, pre.len() as int));
        assert forall|i: int, j: int| 0 <= i < j < post.len() implies post[i].source_id@ != post[j].source_id@ by {
            assert(post[i] == pre[i] || i == pre.len());
            if j == pre.len() {
                assert(post[j] == post.last());
                assert(post[i] == post.drop_last()[i]);
            } else {
                assert(post[i] == post.drop_last()[i] && post[j] == post.drop_last()[j]);
            }
        }
        assert(post[post.len() - 1] == post.last());
    }
}

/// Ingestion keeps source identifiers distinct and every registration where
/// and as it was: an observation from an unknown source adds one, and none
/// is ever overwritten.
pub proof fn lemma_observation_keeps_sources<A: Fn(&Vec<TrackId>) -> Association, S: Fn(&TrackEvidence) -> Magnitude>(
    pre: FusionEngine,
    obs: Observation,
    associate: A,
    score: S,
    post: FusionEngine,
    res: Result<FusionOutcome, FabricError>,
)
    requires
        sources_distinct(pre.registered_sources()),
        observation_step(pre, obs, associate, score, post, res),
    ensures
        sources_distinct(post.registered_sources()),
        pre.registered_sources().is_prefix_of(post.registered_sources()),
{
    if signature_ok(&obs) && observation_age(&obs) <= pre.config().staleness_limit_ms {
        lemma_auto_registration_keeps(
            pre.registered_sources(),
            post.registered_sources(),
            obs,
            pre.config().default_source_reliability,
        );
    } else {
        assert(pre.registered_sources().subrange(0, pre.registered_sources().len() as int) =~= pre.registered_sources());
    }
}

/// `sources` with `s` in place of the registration sharing its identifier,
/// or with `s` appended when there is none.
pub open spec fn replace_or_push_source(sources: Seq<Source>, s: Source) -> Seq<Source> {
    let k = first_match(sources, |x: Source| x.source_id@ == s.source_id@);
    if k >= 0 {
        sources.update(k, s)
    } else {
        sources.push(s)
    }
}

/// `reports` with `h` in place of the report for its source, or with `h`
/// appended when there is none.
pub open spec fn replace_or_push_health(reports: Seq<SensorHealth>, h: SensorHealth) -> Seq<SensorHealth> {
    let k = first_match(reports, |x: SensorHealth| x.source_id@ == h.source_id@);
    if k >= 0 {
        reports.update(k, h)
    } else {
        reports.push(h)
    }
}

} // verus!
