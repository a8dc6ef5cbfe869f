//! The smallest rendered unit: a mono sample buffer tagged with its
//! sample rate and an optional envelope.

use vstd::prelude::*;

use crate::envelope::Envelope;
use crate::fixed::{samples_ok, LEN_LIMIT};

verus! {

/// An immutable mono sample buffer.  An empty buffer is valid and
/// stands for silence of zero duration.
pub struct Note {
    pub data: Vec<i64>,
    pub sample_rate: u32,
    pub envelope: Option<Envelope>,
}

impl Note {
    /// The rate is positive, the buffer within the engine's limits, and
    /// any envelope tag well formed.
    pub open spec fn wf(self) -> bool {
        &&& self.sample_rate >= 1
        &&& self.data@.len() <= LEN_LIMIT
        &&& samples_ok(self.data@)
        &&& match self.envelope {
            Some(e) => e.wf(),
            None => true,
        }
    }

    pub fn new(data: Vec<i64>, sample_rate: u32, envelope: Option<Envelope>) -> (r: Note)
        requires
            sample_rate >= 1,
            data@.len() <= LEN_LIMIT,
            samples_ok(data@),
            match envelope {
                Some(e) => e.wf(),
                None => true,
            },
        ensures
            r == (Note { data, sample_rate, envelope }),
            r.wf(),
    {
        Note { data, sample_rate, envelope }
    }

    pub fn data(&self) -> (r: &Vec<i64>)
        ensures
            r@ == self.data@,
    {
        &self.data
    }

    pub fn sample_rate(&self) -> (r: u32)
        ensures
            r == self.sample_rate,
    {
        self.sample_rate
    }

    pub fn envelope(&self) -> (r: &Option<Envelope>)
        ensures
            *r == self.envelope,
    {
        &self.envelope
    }

    /// An owned copy of the note.
    pub fn duplicate(&self) -> (r: Note)
        ensures
            r.data@ == self.data@,
            r.sample_rate == self.sample_rate,
            r.envelope == self.envelope,
    {
        Note { data: copy_samples(&self.data), sample_rate: self.sample_rate, envelope: self.envelope }
    }
}

/// Copies a sample buffer element by element.
#[verifier::loop_isolation(false)]
pub fn copy_samples(data: &Vec<i64>) -> (r: Vec<i64>)
    ensures
        r@ == data@,
{
    let mut out: Vec<i64> = Vec::new();
    let mut i: usize = 0;
    while i < data.len()
        invariant
            i <= data@.len(),
            out@ == data@.take(i as int),
        decreases data@.len() - i,
    {
        out.push(data[i]);
        proof {
            assert(out@ =~= data@.take(i as int + 1));
        }
        i += 1;
    }
    proof {
        assert(data@.take(data@.len() as int) =~= data@);
    }
    out
}

} // verus!
