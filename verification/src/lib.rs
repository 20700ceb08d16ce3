//! A small melody engine: a line-oriented note format is parsed into a typed
//! note sequence, transformed by playback modifiers (tempo scaling, clamped
//! octave transposition, reversal), and walked by a playback engine that
//! implements a repeat/replay protocol and maps each note to a tone.
//!
//! Durations and tempo multipliers are exact fixed-point values counted in
//! millionths of a unit (see [`note::MICROS_PER_UNIT`]), so that every stage
//! of the pipeline carries a precise contract.

pub mod decimal;
pub mod dice;
pub mod hawaiian;
pub mod jukebox;
pub mod note;
pub mod parse;
pub mod playback;
pub mod roundtrip;
pub mod sequence;
pub mod text;
pub mod transform;
