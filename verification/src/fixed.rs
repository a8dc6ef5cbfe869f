//! Fixed-point conventions shared by the whole engine.
//!
//! A sample is an `i64` with 15 fractional bits: an amplitude of one is
//! [`SCALE`].  A time (seconds or beats) and a resampling ratio carry 16
//! fractional bits: one second is [`TIME_SCALE`].  The limits below keep
//! every product of the rendering pipeline inside 128-bit intermediate
//! arithmetic and every stored sample inside an `i64`.

use vstd::prelude::*;

verus! {

/// Amplitude of one: samples and gains have 15 fractional bits.
pub const SCALE: i64 = 32768;

/// One second (or one beat): times and ratios have 16 fractional bits.
pub const TIME_SCALE: u64 = 65536;

/// Largest magnitude a stored sample may have.
pub const SAMPLE_LIMIT: i64 = 0x1000_0000_0000;

/// Largest gain a volume or a normalization peak may have (4096 times
/// unit amplitude).
pub const GAIN_LIMIT: i64 = 0x800_0000;

/// Largest magnitude a source's base-waveform sample may have: a
/// generated waveform stays within [`SCALE`], and a decoded 32-bit
/// sample rescaled against the 16-bit maximum stays within this.
/// Together with [`GAIN_LIMIT`] it keeps an envelope-shaped sample
/// within [`SAMPLE_LIMIT`].
pub const BASE_LIMIT: i64 = 0x1_0000_0000;

/// Largest magnitude a summed (pre-normalization) mix sample may have.
pub const MIX_SUM_LIMIT: i64 = 0x4000_0000_0000_0000;

/// Largest number of samples a rendered buffer may hold.
pub const LEN_LIMIT: usize = 0x4000_0000;

/// Largest numerator or denominator of a resampling ratio.
pub const RATIO_LIMIT: u64 = 0x1_0000_0000;

/// Largest number of tracks one mixdown channel may hold.
pub const CHANNEL_TRACKS_LIMIT: usize = 65536;

/// A stored sample stays within [`SAMPLE_LIMIT`].
pub open spec fn sample_ok(s: i64) -> bool {
    -SAMPLE_LIMIT <= s <= SAMPLE_LIMIT
}

/// Every sample of the sequence stays within [`SAMPLE_LIMIT`].
pub open spec fn samples_ok(s: Seq<i64>) -> bool {
    forall|i: int| 0 <= i < s.len() ==> sample_ok(#[trigger] s[i])
}

/// A summed mix sample stays within [`MIX_SUM_LIMIT`].
pub open spec fn sum_ok(s: i64) -> bool {
    -MIX_SUM_LIMIT <= s <= MIX_SUM_LIMIT
}

/// Every sample of the sequence stays within [`MIX_SUM_LIMIT`].
pub open spec fn sums_ok(s: Seq<i64>) -> bool {
    forall|i: int| 0 <= i < s.len() ==> sum_ok(#[trigger] s[i])
}

/// A gain is non-negative and stays within [`GAIN_LIMIT`].
pub open spec fn gain_ok(g: i64) -> bool {
    0 <= g <= GAIN_LIMIT
}

/// `s` scaled by `num / den`, rounded toward zero.
pub open spec fn scale_spec(s: int, num: int, den: int) -> int
    recommends
        num >= 0,
        den > 0,
{
    if s >= 0 {
        s * num / den
    } else {
        -((-s) * num / den)
    }
}

/// Multiplies a sample by the ratio `num / den`, rounding toward zero.
pub fn scale_value(s: i64, num: u64, den: u64) -> (r: i64)
    requires
        den >= 1,
        scale_spec(s as int, num as int, den as int) <= i64::MAX as int,
        -(i64::MAX as int) <= scale_spec(s as int, num as int, den as int),
    ensures
        r == scale_spec(s as int, num as int, den as int),
{
    if s >= 0 {
        proof {
            assert((s as int) * (num as int) < 0x8000_0000_0000_0000_0000_0000_0000_0000int)
                by (nonlinear_arith)
                requires
                    0 <= s as int,
                    (s as int) < 0x8000_0000_0000_0000int,
                    (num as int) < 0x1_0000_0000_0000_0000int;
        }
        let q: u128 = (s as u128) * (num as u128) / (den as u128);
        q as i64
    } else {
        let mag: u128 = (-(s as i128)) as u128;
        proof {
            assert((mag as int) * (num as int) < 0x8000_0000_0000_0000_0000_0000_0000_0000int)
                by (nonlinear_arith)
                requires
                    (mag as int) <= 0x8000_0000_0000_0000int,
                    (num as int) < 0x1_0000_0000_0000_0000int;
        }
        let q: u128 = mag * (num as u128) / (den as u128);
        -(q as i64)
    }
}

/// Scaling by `num / den` with `num <= den` cannot grow a sample's
/// magnitude.
pub proof fn lemma_scale_within(s: int, num: int, den: int, b: int)
    requires
        0 < den,
        0 <= num <= den,
        -b <= s <= b,
    ensures
        -b <= scale_spec(s, num, den) <= b,
{
    lemma_scale_magnitude(s, num, den, b);
    assert(b * num / den <= b * den / den) by {
        vstd::arithmetic::mul::lemma_mul_inequality(num, den, b);
        vstd::arithmetic::mul::lemma_mul_is_commutative(b, num);
        vstd::arithmetic::mul::lemma_mul_is_commutative(b, den);
        vstd::arithmetic::div_mod::lemma_div_is_ordered(b * num, b * den, den);
    }
    assert(b * den / den == b) by {
        vstd::arithmetic::div_mod::lemma_div_multiples_vanish(b, den);
        vstd::arithmetic::mul::lemma_mul_is_commutative(b, den);
    }
}

/// Scaling a sample of magnitude at most `b` by `num / den` gives a
/// magnitude of at most `b * num / den`.
pub proof fn lemma_scale_magnitude(s: int, num: int, den: int, b: int)
    requires
        0 < den,
        0 <= num,
        -b <= s <= b,
    ensures
        -(b * num / den) <= scale_spec(s, num, den) <= b * num / den,
        0 <= b * num / den,
{
    vstd::arithmetic::mul::lemma_mul_nonnegative(b, num);
    vstd::arithmetic::div_mod::lemma_div_pos_is_pos(b * num, den);
    if s >= 0 {
        vstd::arithmetic::mul::lemma_mul_inequality(s, b, num);
        vstd::arithmetic::mul::lemma_mul_is_commutative(s, num);
        vstd::arithmetic::mul::lemma_mul_is_commutative(b, num);
        vstd::arithmetic::div_mod::lemma_div_is_ordered(s * num, b * num, den);
        vstd::arithmetic::mul::lemma_mul_nonnegative(s, num);
        vstd::arithmetic::div_mod::lemma_div_pos_is_pos(s * num, den);
    } else {
        vstd::arithmetic::mul::lemma_mul_inequality(-s, b, num);
        vstd::arithmetic::mul::lemma_mul_is_commutative(-s, num);
        vstd::arithmetic::mul::lemma_mul_is_commutative(b, num);
        vstd::arithmetic::div_mod::lemma_div_is_ordered((-s) * num, b * num, den);
        vstd::arithmetic::mul::lemma_mul_nonnegative(-s, num);
        vstd::arithmetic::div_mod::lemma_div_pos_is_pos((-s) * num, den);
    }
}

/// Scaling a sample whose magnitude is exactly the denominator gives
/// exactly the numerator: normalization maps the peak sample to the peak
/// gain.
pub proof fn lemma_scale_exact(s: int, num: int, den: int)
    requires
        0 < den,
        0 <= num,
        s == den || s == -den,
    ensures
        scale_spec(s, num, den) == if s == den {
            num
        } else {
            -num
        },
{
    vstd::arithmetic::div_mod::lemma_div_multiples_vanish(num, den);
    vstd::arithmetic::mul::lemma_mul_is_commutative(num, den);
}

} // verus!
