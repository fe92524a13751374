//! Verified core of the Dispersion Equalizer, a group-delay equalizer.
//!
//! - `model`: node types, scale roots and modes, and the node records that
//!   carry a node's continuous shape unchanged.
//! - `scale`: the MIDI notes a scale node places delay peaks on.
//! - `greedy`: section budget, pick counts and their unrolling into sections,
//!   and the key-ordered filing of candidate centre frequencies.
//! - `crossfade`, `engine`: the sample counter of a crossfade and the rule for
//!   when the engine blends an old processing chain into a new one.
//! - `slots`: the editor's node cache laid over the host's fixed node slots,
//!   and the effect of each graph edit on the cache, the host and the selection.
//! - `xtask`: argument handling of the AUv2 bundling command.

pub mod crossfade;
pub mod engine;
pub mod greedy;
pub mod model;
pub mod scale;
pub mod slots;
pub mod xtask;
