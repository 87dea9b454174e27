//! Assured edge fusion: the verified core of a provenance-tracking fusion layer.
//!
//! Observations from heterogeneous sources are gated, associated with tracks,
//! and every change to a track is written to an append-only provenance log.

pub mod api;
pub mod clock;
pub mod confidence;
pub mod engine;
pub mod error;
pub mod ids;
pub mod metrics;
pub mod model;
pub mod provenance;
pub mod replay;
pub mod rng;
pub mod text;
pub mod time;
pub mod validate;
