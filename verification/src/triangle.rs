//! The analytic triangle-wave sound source.

use vstd::prelude::*;

use crate::fixed::{sample_ok, SCALE};
use crate::note::Note;
use crate::source::{phase_spec, FREQUENCY_C4, GEN_BASE_LEN, GEN_SAMPLE_RATE};

verus! {

/// One cycle of a triangle wave of unit amplitude: a linear rise from
/// zero to the peak over the first quarter, a fall to the trough over
/// the middle half, and a rise back to zero.
pub open spec fn triangle_wave_spec(phase: int) -> int
    recommends
        0 <= phase < 65536,
{
    if phase < 16384 {
        2 * phase
    } else if phase < 49152 {
        65536 - 2 * phase
    } else {
        2 * phase - 131072
    }
}

/// The generated triangle base stays within unit amplitude.
pub proof fn lemma_triangle_base_within(t: Triangle)
    requires
        t.wf(),
    ensures
        forall|i: int|
            0 <= i < t.base.data@.len() ==> -(SCALE as int) <= (#[trigger] t.base.data@[i]) as int
                <= SCALE as int,
{
    assert forall|i: int|
        0 <= i < t.base.data@.len() implies -(SCALE as int) <= (#[trigger] t.base.data@[i]) as int
        <= SCALE as int by {
        vstd::arithmetic::mul::lemma_mul_nonnegative(i, FREQUENCY_C4 as int);
        vstd::arithmetic::div_mod::lemma_div_pos_is_pos(
            i * (FREQUENCY_C4 as int),
            GEN_SAMPLE_RATE as int,
        );
        vstd::arithmetic::div_mod::lemma_mod_division_less_than_divisor(
            i * (FREQUENCY_C4 as int) / (GEN_SAMPLE_RATE as int),
            65536,
        );
    }
}

/// A triangle wave at the reference pitch, generated once at
/// construction.
pub struct Triangle {
    pub base: Note,
}

impl Triangle {
    /// The base waveform is exactly the two-second triangle wave at the
    /// generation rate, with no envelope tag.
    pub open spec fn wf(self) -> bool {
        &&& self.base.wf()
        &&& self.base.sample_rate == GEN_SAMPLE_RATE
        &&& self.base.envelope is None
        &&& self.base.data@.len() == GEN_BASE_LEN
        &&& forall|i: int|
            0 <= i < GEN_BASE_LEN ==> #[trigger] self.base.data@[i] == triangle_wave_spec(
                phase_spec(i, GEN_SAMPLE_RATE as int),
            ) as i64
    }

    #[verifier::loop_isolation(false)]
    pub fn new() -> (r: Triangle)
        ensures
            r.wf(),
    {
        let mut data: Vec<i64> = Vec::new();
        let mut i: usize = 0;
        while i < GEN_BASE_LEN
            invariant
                i <= GEN_BASE_LEN,
                data@.len() == i,
                forall|k: int|
                    0 <= k < i ==> #[trigger] data@[k] == triangle_wave_spec(
                        phase_spec(k, GEN_SAMPLE_RATE as int),
                    ) as i64 && sample_ok(data@[k]),
            decreases GEN_BASE_LEN - i,
        {
            proof {
                vstd::arithmetic::mul::lemma_mul_nonnegative(i as int, FREQUENCY_C4 as int);
                vstd::arithmetic::div_mod::lemma_div_pos_is_pos(
                    (i as int) * (FREQUENCY_C4 as int),
                    GEN_SAMPLE_RATE as int,
                );
                vstd::arithmetic::div_mod::lemma_mod_division_less_than_divisor(
                    (i as int) * (FREQUENCY_C4 as int) / (GEN_SAMPLE_RATE as int),
                    65536,
                );
                assert((i as int) * (FREQUENCY_C4 as int) <= 96000 * 17145895) by (nonlinear_arith)
                    requires
                        0 <= i as int,
                        (i as int) <= 96000;
            }
            let phase: u64 = (i as u64) * FREQUENCY_C4 / (GEN_SAMPLE_RATE as u64) % 65536;
            let p = phase as i64;
            let v: i64 = if phase < 16384 {
                2 * p
            } else if phase < 49152 {
                65536 - 2 * p
            } else {
                2 * p - 131072
            };
            data.push(v);
            i += 1;
        }
        Triangle { base: Note::new(data, GEN_SAMPLE_RATE, None) }
    }
}

} // verus!
