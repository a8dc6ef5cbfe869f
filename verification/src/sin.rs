//! The sine-wave sound source.
//!
//! The engine is integer-only, so the sine is computed by Bhaskara's
//! rational approximation, `sin(x) = 16x(pi - x) / (5 pi^2 - 4x(pi - x))`
//! for `x` in `[0, pi]`, evaluated in fixed point.  It is exact at the
//! zero crossings and the peaks and within 0.2 % of amplitude
//! elsewhere.

use vstd::prelude::*;

use crate::fixed::{sample_ok, SCALE};
use crate::note::Note;
use crate::source::{phase_spec, GEN_BASE_LEN, GEN_SAMPLE_RATE};

verus! {

/// Half a cycle of the approximated sine of unit amplitude: `p` is the
/// position within the half cycle, with `32768` standing for `pi`.
pub open spec fn sine_half_spec(p: int) -> int
    recommends
        0 <= p < 32768,
{
    let u = p * (32768 - p) / 32768;
    16 * u * 32768 / (163840 - 4 * u)
}

/// One cycle of the approximated sine wave: the positive half followed
/// by its mirrored negative half.
pub open spec fn sine_wave_spec(phase: int) -> int
    recommends
        0 <= phase < 65536,
{
    if phase < 32768 {
        sine_half_spec(phase)
    } else {
        -sine_half_spec(phase - 32768)
    }
}

/// The product `p * (32768 - p)` stays within the quarter-square bound,
/// so the approximation's denominator stays positive and its value
/// within unit amplitude.
proof fn lemma_sine_half_within(p: int)
    requires
        0 <= p < 32768,
    ensures
        0 <= sine_half_spec(p) <= 32768,
{
    let u = p * (32768 - p) / 32768;
    assert(0 <= p * (32768 - p) <= 16384 * 16384) by (nonlinear_arith)
        requires
            0 <= p < 32768;
    assert(0 <= u <= 8192) by {
        vstd::arithmetic::div_mod::lemma_div_pos_is_pos(p * (32768 - p), 32768);
        vstd::arithmetic::div_mod::lemma_div_is_ordered(p * (32768 - p), (16384 * 16384) as int, 32768);
    }
    assert(0 <= 16 * u * 32768) by (nonlinear_arith)
        requires
            0 <= u;
    vstd::arithmetic::div_mod::lemma_div_pos_is_pos(16 * u * 32768, 163840 - 4 * u);
    assert(16 * u * 32768 <= (163840 - 4 * u) * 32768) by (nonlinear_arith)
        requires
            0 <= u <= 8192;
    vstd::arithmetic::div_mod::lemma_multiply_divide_le(
        16 * u * 32768,
        163840 - 4 * u,
        32768,
    );
}

/// The generated sine base stays within unit amplitude.
pub proof fn lemma_sin_base_within(s: Sin)
    requires
        s.wf(),
    ensures
        forall|i: int|
            0 <= i < s.base.data@.len() ==> -(SCALE as int) <= (#[trigger] s.base.data@[i]) as int
                <= SCALE as int,
{
    assert forall|i: int|
        0 <= i < s.base.data@.len() implies -(SCALE as int) <= (#[trigger] s.base.data@[i]) as int
        <= SCALE as int by {
        let ph = phase_spec(i, GEN_SAMPLE_RATE as int);
        vstd::arithmetic::mul::lemma_mul_nonnegative(i, crate::source::FREQUENCY_C4 as int);
        vstd::arithmetic::div_mod::lemma_div_pos_is_pos(
            i * (crate::source::FREQUENCY_C4 as int),
            GEN_SAMPLE_RATE as int,
        );
        vstd::arithmetic::div_mod::lemma_mod_division_less_than_divisor(
            i * (crate::source::FREQUENCY_C4 as int) / (GEN_SAMPLE_RATE as int),
            65536,
        );
        if ph < 32768 {
            lemma_sine_half_within(ph);
        } else {
            lemma_sine_half_within(ph - 32768);
        }
    }
}

/// A sine wave at the reference pitch, generated once at construction.
pub struct Sin {
    pub base: Note,
}

impl Sin {
    /// The base waveform is exactly the two-second approximated sine
    /// wave at the generation rate, with no envelope tag.
    pub open spec fn wf(self) -> bool {
        &&& self.base.wf()
        &&& self.base.sample_rate == GEN_SAMPLE_RATE
        &&& self.base.envelope is None
        &&& self.base.data@.len() == GEN_BASE_LEN
        &&& forall|i: int|
            0 <= i < GEN_BASE_LEN ==> #[trigger] self.base.data@[i] == sine_wave_spec(
                phase_spec(i, GEN_SAMPLE_RATE as int),
            ) as i64
    }

    #[verifier::loop_isolation(false)]
    pub fn new() -> (r: Sin)
        ensures
            r.wf(),
    {
        let mut data: Vec<i64> = Vec::new();
        let mut i: usize = 0;
        while i < GEN_BASE_LEN
            invariant
                i <= GEN_BASE_LEN,
                data@.len() == i,
                forall|k: int|
                    0 <= k < i ==> #[trigger] data@[k] == sine_wave_spec(
                        phase_spec(k, GEN_SAMPLE_RATE as int),
                    ) as i64 && sample_ok(data@[k]),
            decreases GEN_BASE_LEN - i,
        {
            proof {
                vstd::arithmetic::mul::lemma_mul_nonnegative(
                    i as int,
                    crate::source::FREQUENCY_C4 as int,
                );
                vstd::arithmetic::div_mod::lemma_div_pos_is_pos(
                    (i as int) * (crate::source::FREQUENCY_C4 as int),
                    GEN_SAMPLE_RATE as int,
                );
                vstd::arithmetic::div_mod::lemma_mod_division_less_than_divisor(
                    (i as int) * (crate::source::FREQUENCY_C4 as int) / (GEN_SAMPLE_RATE as int),
                    65536,
                );
                assert((i as int) * (crate::source::FREQUENCY_C4 as int) <= 96000 * 17145895)
                    by (nonlinear_arith)
                    requires
                        0 <= i as int,
                        (i as int) <= 96000;
            }
            let phase: u64 = (i as u64) * crate::source::FREQUENCY_C4 / (GEN_SAMPLE_RATE as u64)
                % 65536;
            let v: i64 = if phase < 32768 {
                proof {
                    lemma_sine_half_within(phase as int);
                }
                sine_half(phase)
            } else {
                proof {
                    lemma_sine_half_within(phase as int - 32768);
                }
                -sine_half(phase - 32768)
            };
            data.push(v);
            i += 1;
        }
        Sin { base: Note::new(data, GEN_SAMPLE_RATE, None) }
    }
}

/// Evaluates the positive half cycle of the approximated sine.
fn sine_half(p: u64) -> (r: i64)
    requires
        p < 32768,
    ensures
        r as int == sine_half_spec(p as int),
        0 <= r <= 32768,
{
    proof {
        lemma_sine_half_within(p as int);
        assert(0 <= (p as int) * (32768 - p as int) <= 16384 * 16384) by (nonlinear_arith)
            requires
                0 <= p as int,
            (p as int) < 32768;
        vstd::arithmetic::div_mod::lemma_div_pos_is_pos((p as int) * (32768 - p as int), 32768);
        vstd::arithmetic::div_mod::lemma_div_is_ordered(
            (p as int) * (32768 - p as int),
            (16384 * 16384) as int,
            32768,
        );
    }
    let u: u64 = p * (32768 - p) / 32768;
    let v: u64 = 16 * u * 32768 / (163840 - 4 * u);
    v as i64
}

} // verus!
