//! A deterministic audio rendering engine.
//!
//! The engine turns a declarative musical score into a finished
//! multi-channel sample buffer: sound sources synthesize or sample base
//! waveforms, notes are shaped (pitch shift, fit to length, fade,
//! envelope), accumulated into instrument tracks, and mixed down into an
//! interleaved stream.
//!
//! All audio values are signed fixed-point integers (see [`fixed`]), so
//! that every buffer transform has an exact, machine-checked contract.
//! Callers that exchange floating-point samples with the outside world
//! convert at the boundary: one unit of amplitude is [`fixed::SCALE`],
//! one second (or one beat) is [`fixed::TIME_SCALE`].

pub mod envelope;
pub mod error;
pub mod fixed;
pub mod karplus_strong;
pub mod note;
pub mod sampler;
pub mod score;
pub mod sin;
pub mod source;
pub mod track;
pub mod triangle;
pub mod utils;
