//! Buffer utilities: linear-interpolation resampling and peak
//! normalization.
//!
//! Both transforms take an owned buffer and return a new one; neither
//! mutates shared state.

use vstd::arithmetic::div_mod::{
    lemma_div_is_ordered, lemma_div_multiples_vanish, lemma_div_pos_is_pos,
    lemma_mod_multiples_basic, lemma_multiply_divide_lt,
};
use vstd::arithmetic::mul::{
    lemma_mul_inequality, lemma_mul_is_commutative, lemma_mul_nonnegative,
};
use vstd::math::abs;
use vstd::prelude::*;

use crate::fixed::{
    gain_ok, lemma_scale_exact, lemma_scale_magnitude, lemma_scale_within, sample_ok, samples_ok,
    scale_spec, scale_value, sums_ok, GAIN_LIMIT, LEN_LIMIT, MIX_SUM_LIMIT, RATIO_LIMIT,
    SAMPLE_LIMIT,
};

verus! {

/// A positive rational resampling factor `num / den`: reading the input
/// `num / den` times faster than the output is written.
#[derive(Clone, Copy, Debug, PartialEq, Eq, Structural)]
pub struct Ratio {
    pub num: u64,
    pub den: u64,
}

impl Ratio {
    /// Numerator and denominator are positive and small enough for the
    /// engine's 128-bit intermediate arithmetic.
    pub open spec fn wf(self) -> bool {
        &&& 1 <= self.num <= RATIO_LIMIT
        &&& 1 <= self.den <= RATIO_LIMIT
    }

    pub fn new(num: u64, den: u64) -> (r: Ratio)
        requires
            1 <= num <= RATIO_LIMIT,
            1 <= den <= RATIO_LIMIT,
        ensures
            r == (Ratio { num, den }),
            r.wf(),
    {
        Ratio { num, den }
    }

    /// The identity factor.
    pub fn unit() -> (r: Ratio)
        ensures
            r.num == 1,
            r.den == 1,
            r.wf(),
    {
        Ratio { num: 1, den: 1 }
    }

    /// The factor that converts a buffer recorded at `source_rate` into
    /// one playing at `target_rate`.
    pub fn from_rates(source_rate: u32, target_rate: u32) -> (r: Ratio)
        requires
            source_rate >= 1,
            target_rate >= 1,
        ensures
            r.num == source_rate,
            r.den == target_rate,
            r.wf(),
    {
        Ratio { num: source_rate as u64, den: target_rate as u64 }
    }
}

/// Number of samples that resampling a buffer of `len` samples by
/// `num / den` produces: `floor(len * den / num)`, at least one for a
/// non-empty input, zero for an empty one.
pub open spec fn resample_len_spec(len: int, num: int, den: int) -> int
    recommends
        len >= 0,
        num >= 1,
        den >= 1,
{
    if len == 0 {
        0
    } else if len * den / num < 1 {
        1
    } else {
        len * den / num
    }
}

/// Output sample `n` of linear resampling: the input is read at the
/// fractional position `n * num / den` and the two neighbouring input
/// samples are interpolated; at the end of the buffer the last sample
/// stands in for the missing right neighbour.
pub open spec fn lerp_spec(data: Seq<i64>, num: int, den: int, n: int) -> int
    recommends
        num >= 1,
        den >= 1,
        n >= 0,
        data.len() > 0,
{
    let i = n * num / den;
    let frac = n * num % den;
    let s0 = data[i] as int;
    let s1 = if i + 1 < data.len() {
        data[i + 1] as int
    } else {
        s0
    };
    s0 + scale_spec(s1 - s0, frac, den)
}

/// The whole buffer produced by linear resampling by `num / den`.
pub open spec fn resample_seq(data: Seq<i64>, num: int, den: int) -> Seq<i64>
    recommends
        num >= 1,
        den >= 1,
{
    Seq::new(
        resample_len_spec(data.len() as int, num, den) as nat,
        |n: int| lerp_spec(data, num, den, n) as i64,
    )
}

/// Every output index of a resampling reads an input position inside
/// the buffer.
pub proof fn lemma_resample_index_in_range(len: int, num: int, den: int, n: int)
    requires
        len >= 1,
        num >= 1,
        den >= 1,
        0 <= n < resample_len_spec(len, num, den),
    ensures
        0 <= n * num / den < len,
{
    lemma_mul_nonnegative(n, num);
    lemma_div_pos_is_pos(n * num, den);
    assert(n * num < den * len) by {
        if len * den / num < 1 {
            assert(n == 0);
            assert(0 * num == 0) by (nonlinear_arith);
            assert(den * len >= 1) by (nonlinear_arith)
                requires
                    den >= 1,
                    len >= 1;
        } else {
            let q = len * den / num;
            assert(n * num <= (q - 1) * num) by {
                lemma_mul_inequality(n, q - 1, num);
            }
            assert(q * num <= len * den) by {
                vstd::arithmetic::div_mod::lemma_fundamental_div_mod(len * den, num);
                vstd::arithmetic::div_mod::lemma_mod_division_less_than_divisor(len * den, num);
                lemma_mul_is_commutative(num, q);
            }
            assert((q - 1) * num == q * num - num) by (nonlinear_arith);
        }
    }
    lemma_multiply_divide_lt(n * num, den, len);
}

/// An interpolated sample lies between its two sources, so resampling
/// keeps any magnitude bound the input obeys.
pub proof fn lemma_resample_seq_within(data: Seq<i64>, num: int, den: int, b: int)
    requires
        num >= 1,
        den >= 1,
        0 <= b <= i64::MAX as int,
        forall|i: int| 0 <= i < data.len() ==> -b <= #[trigger] data[i] <= b,
    ensures
        forall|n: int|
            0 <= n < resample_seq(data, num, den).len() ==> -b <= #[trigger] resample_seq(
                data,
                num,
                den,
            )[n] <= b,
{
    assert forall|n: int|
        0 <= n < resample_seq(data, num, den).len() implies -b <= #[trigger] resample_seq(
        data,
        num,
        den,
    )[n] <= b by {
        lemma_resample_index_in_range(data.len() as int, num, den, n);
        let i = n * num / den;
        let frac = n * num % den;
        vstd::arithmetic::div_mod::lemma_mod_division_less_than_divisor(n * num, den);
        let s0 = data[i] as int;
        let s1 = if i + 1 < data.len() {
            data[i + 1] as int
        } else {
            s0
        };
        let d = s1 - s0;
        lemma_scale_within(d, frac, den, if d >= 0 {
            d
        } else {
            -d
        });
        if d >= 0 {
            lemma_mul_nonnegative(d, frac);
            lemma_div_pos_is_pos(d * frac, den);
        } else {
            lemma_mul_nonnegative(-d, frac);
            lemma_div_pos_is_pos((-d) * frac, den);
        }
    }
}

/// Resampling by a unit factor (`num == den`) is the identity: every
/// output sample is read at an integral position with no fractional
/// remainder.
pub proof fn lemma_resample_identity(data: Seq<i64>, num: int, den: int)
    requires
        num == den,
        num >= 1,
    ensures
        resample_seq(data, num, den) == data,
{
    let len = data.len() as int;
    if len > 0 {
        assert(len * den / num == len) by {
            lemma_div_multiples_vanish(len, den);
            lemma_mul_is_commutative(len, den);
        }
        assert(resample_len_spec(len, num, den) == len);
        assert forall|n: int| 0 <= n < len implies lerp_spec(data, num, den, n) == data[n] as int
        by {
            assert(n * num / den == n) by {
                lemma_div_multiples_vanish(n, den);
                lemma_mul_is_commutative(n, den);
            }
            assert(n * num % den == 0) by {
                lemma_mod_multiples_basic(n, den);
            }
            let i = n * num / den;
            let s0 = data[i] as int;
            let s1 = if i + 1 < data.len() {
                data[i + 1] as int
            } else {
                s0
            };
            assert(scale_spec(s1 - s0, 0, den) == 0) by {
                let d = s1 - s0;
                if d >= 0 {
                    assert(d * 0 == 0) by (nonlinear_arith);
                    assert(0int / den == 0) by {
                        lemma_div_pos_is_pos(0, den);
                        lemma_div_is_ordered(0, 0, den);
                        vstd::arithmetic::div_mod::lemma_basic_div(0, den);
                    }
                } else {
                    assert((-d) * 0 == 0) by (nonlinear_arith);
                    assert(0int / den == 0) by {
                        vstd::arithmetic::div_mod::lemma_basic_div(0, den);
                    }
                }
            }
        }
        assert(resample_seq(data, num, den) =~= data);
    } else {
        assert(resample_seq(data, num, den) =~= data);
    }
}

/// Resamples `data` by the factor `factor`: output sample `n` is the
/// linear interpolation of the input at fractional position
/// `n * factor`.  A non-empty input yields at least one sample.
#[verifier::loop_isolation(false)]
pub fn resample_linear(data: Vec<i64>, factor: Ratio) -> (r: Vec<i64>)
    requires
        factor.wf(),
        samples_ok(data@),
        data@.len() <= LEN_LIMIT,
        resample_len_spec(data@.len() as int, factor.num as int, factor.den as int) <= LEN_LIMIT,
    ensures
        r@ == resample_seq(data@, factor.num as int, factor.den as int),
        r@.len() == resample_len_spec(data@.len() as int, factor.num as int, factor.den as int),
        samples_ok(r@),
{
    let ghost gnum = factor.num as int;
    let ghost gden = factor.den as int;
    let ghost glen = data@.len() as int;
    if data.len() == 0 {
        assert(resample_seq(data@, gnum, gden) =~= data@);
        return data;
    }
    proof {
        assert(glen * gden <= 0x4000_0000_0000_0000int) by (nonlinear_arith)
            requires
                0 <= glen,
                glen <= 0x4000_0000int,
                0 < gden,
                gden <= 0x1_0000_0000int;
    }
    let prod: u128 = (data.len() as u128) * (factor.den as u128);
    let quot: u128 = prod / (factor.num as u128);
    proof {
        lemma_mul_nonnegative(glen, gden);
        lemma_div_pos_is_pos(glen * gden, gnum);
    }
    let out_len: usize = if quot < 1 {
        1
    } else {
        quot as usize
    };
    let mut out: Vec<i64> = Vec::new();
    let mut n: usize = 0;
    while n < out_len
        invariant
            out@.len() == n,
            n <= out_len,
            forall|k: int|
                0 <= k < n ==> out@[k] == lerp_spec(data@, gnum, gden, k) as i64
                    && sample_ok(#[trigger] out@[k]),
        decreases out_len - n,
    {
        proof {
            assert((n as int) * gnum < gden * glen) by {
                if glen * gden / gnum < 1 {
                    assert(n == 0);
                    assert(0 * gnum == 0) by (nonlinear_arith);
                    lemma_mul_nonnegative(gden, glen);
                    assert(gden * glen >= gden * 1 >= 1) by (nonlinear_arith)
                        requires
                            gden >= 1,
                            glen >= 1;
                } else {
                    let q = glen * gden / gnum;
                    assert(n < q);
                    assert((n as int) * gnum <= (q - 1) * gnum) by {
                        lemma_mul_inequality(n as int, q - 1, gnum);
                    }
                    assert(q * gnum <= glen * gden) by {
                        vstd::arithmetic::div_mod::lemma_fundamental_div_mod(
                            glen * gden,
                            gnum,
                        );
                        vstd::arithmetic::div_mod::lemma_mod_division_less_than_divisor(
                            glen * gden,
                            gnum,
                        );
                        lemma_mul_is_commutative(gnum, q);
                    }
                    assert((q - 1) * gnum == q * gnum - gnum) by (nonlinear_arith);
                }
            }
            assert((n as int) * gnum / gden < glen) by {
                lemma_multiply_divide_lt((n as int) * gnum, gden, glen);
            }
            assert((n as int) * gnum <= 0x4000_0000_0000_0000int) by (nonlinear_arith)
                requires
                    0 <= n as int,
                    (n as int) <= 0x4000_0000int,
                    0 < gnum,
                    gnum <= 0x1_0000_0000int;
        }
        let pos: u128 = (n as u128) * (factor.num as u128);
        let i_wide: u128 = pos / (factor.den as u128);
        let frac: u64 = (pos % (factor.den as u128)) as u64;
        proof {
            lemma_mul_nonnegative(n as int, gnum);
            lemma_div_pos_is_pos((n as int) * gnum, gden);
            vstd::arithmetic::div_mod::lemma_mod_division_less_than_divisor(
                (n as int) * gnum,
                gden,
            );
        }
        let i: usize = i_wide as usize;
        let s0: i64 = data[i];
        let s1: i64 = if i + 1 < data.len() {
            data[i + 1]
        } else {
            s0
        };
        let d: i64 = s1 - s0;
        proof {
            lemma_scale_within(d as int, frac as int, gden, 2 * SAMPLE_LIMIT as int);
            lemma_scale_within(d as int, frac as int, gden, if d >= 0 {
                d as int
            } else {
                -(d as int)
            });
            if d >= 0 {
                lemma_mul_nonnegative(d as int, frac as int);
                lemma_div_pos_is_pos((d as int) * (frac as int), gden);
            } else {
                lemma_mul_nonnegative(-(d as int), frac as int);
                lemma_div_pos_is_pos((-(d as int)) * (frac as int), gden);
            }
        }
        let delta: i64 = scale_value(d, frac, factor.den);
        out.push(s0 + delta);
        n += 1;
    }
    proof {
        assert(out@ =~= resample_seq(data@, gnum, gden));
    }
    out
}

/// Resamples `data` from `original_sample_rate` to
/// `target_sample_rate` (a factor of `original / target`).
pub fn resample_data(data: Vec<i64>, original_sample_rate: u32, target_sample_rate: u32) -> (r:
    Vec<i64>)
    requires
        original_sample_rate >= 1,
        target_sample_rate >= 1,
        samples_ok(data@),
        data@.len() <= LEN_LIMIT,
        resample_len_spec(
            data@.len() as int,
            original_sample_rate as int,
            target_sample_rate as int,
        ) <= LEN_LIMIT,
    ensures
        r@ == resample_seq(data@, original_sample_rate as int, target_sample_rate as int),
        samples_ok(r@),
{
    resample_linear(data, Ratio::from_rates(original_sample_rate, target_sample_rate))
}

/// The largest magnitude among the samples (zero for an empty buffer).
pub open spec fn max_abs_spec(data: Seq<i64>) -> int
    decreases data.len(),
{
    if data.len() == 0 {
        0
    } else {
        let prev = max_abs_spec(data.drop_last());
        let last = abs(data.last() as int) as int;
        if last > prev {
            last
        } else {
            prev
        }
    }
}

/// The peak is an upper bound for every sample's magnitude.
pub proof fn lemma_max_abs_ge(data: Seq<i64>, i: int)
    requires
        0 <= i < data.len(),
    ensures
        abs(data[i] as int) <= max_abs_spec(data),
        max_abs_spec(data) >= 0,
    decreases data.len(),
{
    if i == data.len() - 1 {
        lemma_max_abs_nonneg(data.drop_last());
    } else {
        lemma_max_abs_ge(data.drop_last(), i);
    }
}

/// The peak of any buffer is non-negative.
pub proof fn lemma_max_abs_nonneg(data: Seq<i64>)
    ensures
        max_abs_spec(data) >= 0,
    decreases data.len(),
{
    if data.len() > 0 {
        lemma_max_abs_nonneg(data.drop_last());
    }
}

/// A bound obeyed by every sample is obeyed by the peak.
pub proof fn lemma_max_abs_le(data: Seq<i64>, b: int)
    requires
        forall|i: int| 0 <= i < data.len() ==> abs(#[trigger] data[i] as int) <= b,
        b >= 0,
    ensures
        max_abs_spec(data) <= b,
    decreases data.len(),
{
    if data.len() > 0 {
        assert(forall|i: int|
            0 <= i < data.drop_last().len() ==> abs(#[trigger] data.drop_last()[i] as int) <= b);
        lemma_max_abs_le(data.drop_last(), b);
    }
}

/// A non-empty buffer attains its peak at some index.
pub proof fn lemma_max_abs_attained(data: Seq<i64>)
    requires
        data.len() > 0,
    ensures
        exists|i: int| 0 <= i < data.len() && abs(#[trigger] data[i] as int) == max_abs_spec(data),
    decreases data.len(),
{
    let prev = max_abs_spec(data.drop_last());
    let last = abs(data.last() as int) as int;
    if last >= prev {
        assert(abs(data[data.len() - 1] as int) == max_abs_spec(data));
    } else {
        lemma_max_abs_attained(data.drop_last());
        let j = choose|j: int|
            0 <= j < data.drop_last().len() && abs(#[trigger] data.drop_last()[j] as int)
                == max_abs_spec(data.drop_last());
        assert(data.drop_last()[j] == data[j]);
        assert(abs(data[j] as int) == max_abs_spec(data));
    }
}

/// The buffer scaled so that its peak becomes `peak`; a silent buffer is
/// returned unchanged.
pub open spec fn normalize_seq(data: Seq<i64>, peak: int) -> Seq<i64> {
    let m = max_abs_spec(data);
    if m == 0 {
        data
    } else {
        Seq::new(data.len(), |i: int| scale_spec(data[i] as int, peak, m) as i64)
    }
}

/// Normalizing a buffer with a positive peak yields a buffer whose peak
/// is exactly `peak`; every sample is scaled by the same ratio.
pub proof fn lemma_normalize_peak(data: Seq<i64>, peak: int)
    requires
        max_abs_spec(data) > 0,
        0 <= peak <= GAIN_LIMIT as int,
        sums_ok(data),
    ensures
        max_abs_spec(normalize_seq(data, peak)) == peak,
{
    let m = max_abs_spec(data);
    let out = normalize_seq(data, peak);
    assert forall|i: int| 0 <= i < out.len() implies abs(#[trigger] out[i] as int) <= peak by {
        lemma_max_abs_ge(data, i);
        lemma_scale_magnitude(data[i] as int, peak, m, m);
        assert(m * peak / m == peak) by {
            lemma_div_multiples_vanish(peak, m);
        }
        assert(out[i] == scale_spec(data[i] as int, peak, m) as i64);
    }
    lemma_max_abs_le(out, peak);
    lemma_max_abs_attained(data);
    let j = choose|j: int|
        0 <= j < data.len() && abs(#[trigger] data[j] as int) == m;
    lemma_scale_exact(data[j] as int, peak, m);
    assert(abs(out[j] as int) == peak);
    lemma_max_abs_ge(out, j);
}

/// Finds the largest sample magnitude of the buffer.
#[verifier::loop_isolation(false)]
pub fn max_abs(data: &Vec<i64>) -> (r: i64)
    requires
        sums_ok(data@),
    ensures
        r == max_abs_spec(data@),
        0 <= r <= MIX_SUM_LIMIT,
{
    let mut m: i64 = 0;
    let mut k: usize = 0;
    proof {
        assert(data@.take(0) =~= Seq::<i64>::empty());
    }
    while k < data.len()
        invariant
            k <= data@.len(),
            m == max_abs_spec(data@.take(k as int)),
            0 <= m <= MIX_SUM_LIMIT,
        decreases data@.len() - k,
    {
        let s = data[k];
        let a: i64 = if s >= 0 {
            s
        } else {
            -s
        };
        if a > m {
            m = a;
        }
        proof {
            assert(data@.take(k as int + 1).drop_last() =~= data@.take(k as int));
            assert(data@.take(k as int + 1).last() == data@[k as int]);
        }
        k += 1;
    }
    proof {
        assert(data@.take(data@.len() as int) =~= data@);
    }
    m
}

/// Scales the buffer so that its largest magnitude becomes exactly
/// `peak`; a silent (all-zero) buffer is returned unchanged.
#[verifier::loop_isolation(false)]
pub fn normalize_data(data: Vec<i64>, peak: i64) -> (r: Vec<i64>)
    requires
        gain_ok(peak),
        sums_ok(data@),
    ensures
        r@ == normalize_seq(data@, peak as int),
        max_abs_spec(data@) == 0 ==> r@ == data@,
        max_abs_spec(data@) > 0 ==> max_abs_spec(r@) == peak,
        samples_ok(r@),
{
    let m = max_abs(&data);
    if m == 0 {
        proof {
            assert forall|i: int| 0 <= i < data@.len() implies sample_ok(#[trigger] data@[i]) by {
                lemma_max_abs_ge(data@, i);
            }
        }
        return data;
    }
    let mut out: Vec<i64> = Vec::new();
    let mut k: usize = 0;
    while k < data.len()
        invariant
            k <= data@.len(),
            out@.len() == k,
            m == max_abs_spec(data@),
            0 < m <= MIX_SUM_LIMIT,
            forall|i: int|
                0 <= i < k ==> out@[i] == scale_spec(data@[i] as int, peak as int, m as int) as i64
                    && sample_ok(#[trigger] out@[i]),
        decreases data@.len() - k,
    {
        let s = data[k];
        proof {
            lemma_max_abs_ge(data@, k as int);
            lemma_scale_magnitude(s as int, peak as int, m as int, m as int);
            assert((m as int) * (peak as int) / (m as int) == peak as int) by {
                lemma_div_multiples_vanish(peak as int, m as int);
            }
        }
        out.push(scale_value(s, peak as u64, m as u64));
        k += 1;
    }
    proof {
        assert(out@ =~= normalize_seq(data@, peak as int));
        lemma_normalize_peak(data@, peak as int);
    }
    out
}

} // verus!
