//! Error values surfaced by the engine.

use vstd::prelude::*;

verus! {

/// Reported when a channel index reaches at or past a mixdown's channel
/// count; carries the offending index and the channel count.
#[derive(Clone, Copy, Debug, PartialEq, Eq, Structural)]
pub struct IndexError {
    pub index: usize,
    pub len: usize,
}

impl IndexError {
    pub fn new(index: usize, len: usize) -> (r: IndexError)
        ensures
            r == (IndexError { index, len }),
    {
        IndexError { index, len }
    }

    /// The index that was out of range.
    pub fn index(&self) -> (r: usize)
        ensures
            r == self.index,
    {
        self.index
    }

    /// The number of valid indices.
    pub fn len(&self) -> (r: usize)
        ensures
            r == self.len,
    {
        self.len
    }
}

/// Reported when a sampled waveform cannot be constructed from its
/// source container.
#[derive(Clone, Copy, Debug, PartialEq, Eq, Structural)]
pub enum LoadError {
    /// The container is malformed, truncated, or not a WAV stream, or
    /// its samples are not integers.
    Undecodable,
    /// The container decodes but declares a zero sample rate or holds
    /// more samples than a buffer may carry.
    Unsupported,
}

} // verus!
