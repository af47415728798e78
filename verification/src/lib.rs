//! Parameter synthesis for procedural terrain generation.
//!
//! The pipeline turns layered coherent-noise samples and a sparse site graph
//! into per-site terrain parameters: a boolean "drainage outlet" flag, an
//! erodibility scalar, and an elevation-to-color mapping used at render time.
//!
//! Every scalar is a fixed-point number: an `i64` counting millionths, so the
//! real value 1.0 is [`fixed::SCALE`]. Callers that work in floating point
//! convert at the boundary; everything in this crate is exact integer
//! arithmetic with contracts proved by Verus.

pub mod classify;
pub mod colormap;
pub mod config;
pub mod curve;
pub mod erodibility;
pub mod fault;
pub mod fixed;
pub mod octave;
pub mod outlet;
pub mod render;
