//! The shapes the service answers with, and how its failures map to HTTP
//! status codes.

use vstd::prelude::*;
use vstd::string::*;

use crate::engine::FusionEngine;
use crate::error::FabricError;
use crate::ids::{FeedbackId, ObservationId, TrackId};
use crate::model::{id_views, Observation, ProvenanceOp, ProvenanceRecord, SCHEMA_VERSION};
use crate::provenance::{
    chain_of, dedup_first_seen, diff_of, lowering_steps, observations_named, views, ConfidenceImpact,
    ProvenanceDiff, ProvenanceQuery, ProvenanceStore,
};
use crate::text::{push_signed_decimal, signed_decimal};
use crate::time::Timestamp;

verus! {

/// Liveness answer.
#[derive(Debug)]
pub struct HealthResponse {
    pub status: &'static str,
    pub version: &'static str,
    pub schema_version: u32,
    pub uptime_ms: u128,
}

impl HealthResponse {
    /// The answer of a live service of the given version.
    pub fn ok(version: &'static str, uptime_ms: u128) -> (r: HealthResponse)
        ensures
            r.status@ == "ok"@,
            r.version@ == version@,
            r.schema_version == SCHEMA_VERSION,
            r.uptime_ms == uptime_ms,
    {
        proof {
            reveal_strlit("ok");
        }
        HealthResponse { status: "ok", version, schema_version: SCHEMA_VERSION, uptime_ms }
    }
}

/// Readiness answer: ready, with the number of tracks the engine publishes.
#[derive(Debug, Clone, Copy, PartialEq, Eq, Structural)]
pub struct ReadyResponse {
    pub ready: bool,
    pub tracks: usize,
}

impl ReadyResponse {
    pub fn for_engine(engine: &FusionEngine) -> (r: ReadyResponse)
        ensures
            r.ready,
            r.tracks == engine.track_entries().len(),
    {
        let tracks = engine.all_tracks();
        ReadyResponse { ready: true, tracks: tracks.len() }
    }
}

/// A request to replay the named scenario.
#[derive(Debug)]
pub struct ReplayStartRequest {
    pub scenario: String,
}

impl ReplayStartRequest {
    /// The file the scenario is read from: its name with a `.json` suffix.
    pub fn file_name(&self) -> (f: String)
        ensures
            f@ == self.scenario@ + ".json"@,
    {
        let mut f = self.scenario.clone();
        f.append(".json");
        f
    }
}

/// The identifier given to operator feedback submitted at `now`.
pub fn feedback_id_at(now: Timestamp) -> (id: FeedbackId)
    ensures
        id@ == "fbk-"@ + signed_decimal(now.0 as int),
{
    let mut s = String::from_str("fbk-");
    push_signed_decimal(&mut s, now.millis());
    FeedbackId(s)
}

/// The HTTP status a failure is answered with.
pub open spec fn status_for(e: &FabricError) -> u16 {
    match e {
        FabricError::Validation(_) => 400,
        FabricError::StaleObservation { .. } => 422,
        FabricError::RateLimited { .. } => 429,
        FabricError::NotFound(_) => 404,
        FabricError::SignatureInvalid(_) => 401,
        _ => 500,
    }
}

pub fn status_code(e: &FabricError) -> (code: u16)
    ensures
        code == status_for(e),
{
    match e {
        FabricError::Validation(_) => 400,
        FabricError::StaleObservation { .. } => 422,
        FabricError::RateLimited { .. } => 429,
        FabricError::NotFound(_) => 404,
        FabricError::SignatureInvalid(_) => 401,
        _ => 500,
    }
}

/// An observation as submitted, with its receive time filled in from `now`
/// when the client left it at the epoch.
pub fn stamp_received(obs: Observation, now: Timestamp) -> (out: Observation)
    ensures
        obs.received_at.0 == 0 ==> out == (Observation { received_at: now, ..obs }),
        obs.received_at.0 != 0 ==> out == obs,
{
    let mut o = obs;
    if o.received_at.0 == 0 {
        o.received_at = now;
    }
    o
}

/// Everything the service answers about a track's provenance.
pub struct ProvenanceAnswer {
    /// The record that created the track.
    pub why_exists: ProvenanceRecord,
    pub contributing_observations: Vec<ObservationId>,
    pub changed_since_previous: Option<ProvenanceDiff>,
    pub sources_that_lowered_confidence: Vec<ConfidenceImpact>,
    /// The whole chain, oldest first.
    pub chain: Vec<ProvenanceRecord>,
}

/// Whether a chain holds a creation record.
pub open spec fn has_creation(chain: Seq<crate::model::ProvenanceRecordView>) -> bool {
    exists|i: int| 0 <= i < chain.len() && (#[trigger] chain[i]).operation == ProvenanceOp::Created
}

/// Answers the four provenance questions about `track`, with its chain. A
/// track without records is not found; so is one whose chain holds no
/// creation record.
pub fn explain_track<P: ProvenanceStore>(store: &P, track: &TrackId) -> (res: Result<ProvenanceAnswer, FabricError>)
    ensures
        chain_of(store.records(), track@).len() == 0 ==> (res matches Err(FabricError::NotFound(m)) && m@
            == "no provenance for track "@ + track@),
        chain_of(store.records(), track@).len() > 0 && !has_creation(chain_of(store.records(), track@)) ==> (
        res matches Err(FabricError::NotFound(m)) && m@ == "no creation record for "@ + track@),
        has_creation(chain_of(store.records(), track@)) ==> res is Ok,
        res matches Ok(a) ==> {
            let chain = chain_of(store.records(), track@);
            &&& views(a.chain@) == chain
            &&& exists|i: int|
                0 <= i < chain.len() && chain[i] == a.why_exists@ && a.why_exists@.operation == ProvenanceOp::Created
                    && forall|j: int| 0 <= j < i ==> chain[j].operation != ProvenanceOp::Created
            &&& id_views(a.contributing_observations@) == dedup_first_seen(observations_named(chain))
            &&& a.sources_that_lowered_confidence@.map_values(|c: ConfidenceImpact| c@) == lowering_steps(chain)
            &&& match a.changed_since_previous {
                Some(d) => chain.len() >= 2 && d@ == diff_of(track@, chain[chain.len() - 2], chain.last()),
                None => chain.len() < 2,
            }
        },
{
    let chain = match store.chain_for_track(track) {
        Ok(c) => c,
        Err(e) => return Err(e),
    };
    if chain.len() == 0 {
        proof {
            reveal_strlit("no provenance for track ");
        }
        let mut msg = String::from_str("no provenance for track ");
        msg.append(track.as_str());
        return Err(FabricError::NotFound(msg));
    }
    let why_exists = match store.why_does_track_exist(track) {
        Ok(r) => r,
        Err(e) => {
            proof {
                let c = chain_of(store.records(), track@);
                if has_creation(c) {
                    let i = choose|i: int| 0 <= i < c.len() && (#[trigger] c[i]).operation == ProvenanceOp::Created;
                    assert(c[i].operation != ProvenanceOp::Created);
                }
            }
            return Err(e);
        },
    };
    let contributing_observations = match store.contributing_observations(track) {
        Ok(v) => v,
        Err(e) => return Err(e),
    };
    let changed_since_previous = match store.changed_since_previous(track) {
        Ok(d) => d,
        Err(e) => return Err(e),
    };
    let sources_that_lowered_confidence = match store.sources_that_lowered_confidence(track) {
        Ok(v) => v,
        Err(e) => return Err(e),
    };
    Ok(ProvenanceAnswer {
        why_exists,
        contributing_observations,
        changed_since_previous,
        sources_that_lowered_confidence,
        chain,
    })
}

} // verus!
