//! Recognition of traditional instrumental folk tunes: the symbolic core.
//!
//! The crate turns per-frame semitone energies into a pitch contour and
//! ranks a catalogue of known tunes against that contour. Energies are
//! fixed-point integers (one unit of energy is `ff_config::ENERGY_ONE`),
//! so every decision taken here is exact and is proved against its contract.

pub mod abc;
pub mod dataset;
pub mod decode;
pub mod feature;
pub mod ff_config;
pub mod index;
pub mod query;
pub mod text;
