//! The error type shared by the fabric.

use vstd::prelude::*;

verus! {

/// The JSON serialization error raised while persisting records.
#[verifier::external_type_specification]
#[verifier::external_body]
pub struct ExJsonError(serde_json::Error);

#[derive(Debug)]
pub enum FabricError {
    /// Schema validation failed.
    Validation(String),
    /// The observation is older than the staleness limit allows.
    StaleObservation { age_ms: i64, limit_ms: i64 },
    /// The source spent its rate budget.
    RateLimited { source_id: String },
    NotFound(String),
    SignatureInvalid(String),
    /// The append-only provenance chain would be broken.
    ProvenanceBroken(String),
    /// A record could not be serialized.
    Serde(serde_json::Error),
    Io(String),
    Other(String),
}

} // verus!
