//! Schema validation for inbound observations.
//!
//! Runs before anything reaches the fusion engine: cheap structural and range
//! checks plus the signed-event check. Rejects rather than fusing garbage.

use vstd::prelude::*;
use vstd::string::*;

use crate::error::FabricError;
use crate::model::{Observation, SCHEMA_VERSION};
use crate::text::{decimal, push_decimal};

verus! {

/// Checks an observation, in order: schema version, observation and source
/// identifiers, measurement confidence range, timestamps, kinematic state,
/// signature. The first failing check decides the error.
pub fn validate(obs: &Observation) -> (res: Result<(), FabricError>)
    ensures
        obs.schema_version != SCHEMA_VERSION ==> (res matches Err(FabricError::Validation(m)) && m@
            == "unsupported schema_version "@ + decimal(obs.schema_version as nat) + " (expected 1)"@),
        obs.schema_version == SCHEMA_VERSION && obs.observation_id@.len() == 0 ==> (res matches Err(
            FabricError::Validation(m),
        ) && m@ == "empty observation_id"@),
        obs.schema_version == SCHEMA_VERSION && obs.observation_id@.len() > 0 && obs.source_id@.len() == 0
            ==> (res matches Err(FabricError::Validation(m)) && m@ == "empty source_id"@),
        obs.schema_version == SCHEMA_VERSION && obs.observation_id@.len() > 0 && obs.source_id@.len() > 0
            && !obs.measurement_confidence.in_unit_range ==> (res matches Err(FabricError::Validation(m))
            && m@ == "measurement_confidence "@ + obs.measurement_confidence.display@ + " out of [0,1]"@),
        obs.schema_version == SCHEMA_VERSION && obs.observation_id@.len() > 0 && obs.source_id@.len() > 0
            && obs.measurement_confidence.in_unit_range && (obs.observed_at.0 < 0 || obs.received_at.0 < 0)
            ==> (res matches Err(FabricError::Validation(m)) && m@ == "negative timestamp"@),
        obs.schema_version == SCHEMA_VERSION && obs.observation_id@.len() > 0 && obs.source_id@.len() > 0
            && obs.measurement_confidence.in_unit_range && obs.observed_at.0 >= 0 && obs.received_at.0 >= 0
            && (obs.state matches Some(st) && !st.all_finite) ==> (res matches Err(
            FabricError::Validation(m),
        ) && m@ == "non-finite state value"@),
        obs.schema_version == SCHEMA_VERSION && obs.observation_id@.len() > 0 && obs.source_id@.len() > 0
            && obs.measurement_confidence.in_unit_range && obs.observed_at.0 >= 0 && obs.received_at.0 >= 0
            && (obs.state matches Some(st) && st.all_finite && !st.sigma_valid) ==> (res matches Err(
            FabricError::Validation(m),
        ) && m@ == "invalid position_sigma_m"@),
        obs.schema_version == SCHEMA_VERSION && obs.observation_id@.len() > 0 && obs.source_id@.len() > 0
            && obs.measurement_confidence.in_unit_range && obs.observed_at.0 >= 0 && obs.received_at.0 >= 0
            && (obs.state matches Some(st) ==> st.all_finite && st.sigma_valid)
            && obs.signature.algorithm@ != "none-v0"@ ==> (res matches Err(FabricError::SignatureInvalid(m))
            && m@ == "algorithm "@ + obs.signature.algorithm@),
        obs.schema_version == SCHEMA_VERSION && obs.observation_id@.len() > 0 && obs.source_id@.len() > 0
            && obs.measurement_confidence.in_unit_range && obs.observed_at.0 >= 0 && obs.received_at.0 >= 0
            && (obs.state matches Some(st) ==> st.all_finite && st.sigma_valid)
            && obs.signature.algorithm@ == "none-v0"@ ==> res is Ok,
{
    proof {
        reveal_strlit("unsupported schema_version ");
        reveal_strlit(" (expected 1)");
        reveal_strlit("empty observation_id");
        reveal_strlit("empty source_id");
        reveal_strlit("measurement_confidence ");
        reveal_strlit(" out of [0,1]");
        reveal_strlit("negative timestamp");
        reveal_strlit("non-finite state value");
        reveal_strlit("invalid position_sigma_m");
        reveal_strlit("algorithm ");
    }
    if obs.schema_version != SCHEMA_VERSION {
        let mut m = String::from_str("unsupported schema_version ");
        push_decimal(&mut m, obs.schema_version as u64);
        m.append(" (expected 1)");
        return Err(FabricError::Validation(m));
    }
    if obs.observation_id.as_str().is_empty() {
        return Err(FabricError::Validation(String::from_str("empty observation_id")));
    }
    if obs.source_id.as_str().is_empty() {
        return Err(FabricError::Validation(String::from_str("empty source_id")));
    }
    if !obs.measurement_confidence.in_unit_range {
        let mut m = String::from_str("measurement_confidence ");
        m.append(obs.measurement_confidence.display.as_str());
        m.append(" out of [0,1]");
        return Err(FabricError::Validation(m));
    }
    if obs.observed_at.millis() < 0 || obs.received_at.millis() < 0 {
        return Err(FabricError::Validation(String::from_str("negative timestamp")));
    }
    if let Some(state) = obs.state {
        if !state.all_finite {
            return Err(FabricError::Validation(String::from_str("non-finite state value")));
        }
        if !state.sigma_valid {
            return Err(FabricError::Validation(String::from_str("invalid position_sigma_m")));
        }
    }
    if !obs.signature.verify(&[]) {
        let mut m = String::from_str("algorithm ");
        m.append(obs.signature.algorithm.as_str());
        return Err(FabricError::SignatureInvalid(m));
    }
    Ok(())
}

} // verus!
