//! The plucked-string sound source: a ring buffer of seeded noise run
//! through a decaying comb filter (Karplus–Strong synthesis).

use rand_chacha::rand_core::{RngCore, SeedableRng};
use vstd::prelude::*;

use crate::fixed::{lemma_scale_magnitude, scale_spec, scale_value, LEN_LIMIT, SCALE, TIME_SCALE};
use crate::note::Note;
use crate::source::{FREQUENCY_C4, GEN_BASE_LEN, GEN_SAMPLE_RATE};

verus! {

#[verifier::external_type_specification]
#[verifier::external_body]
pub struct ExChaCha8Rng(rand_chacha::ChaCha8Rng);

/// Value `i` of the stream a generator seeded from `seed` draws: a
/// ChaCha8 stream is a reproducible function of its seed alone.
pub uninterp spec fn chacha64_stream(seed: u64, i: int) -> u64;

/// Value `i` of the stream the fixed default (all-zero) seed draws.
pub uninterp spec fn chacha64_default_stream(i: int) -> u64;

/// Relies on `ChaCha8Rng::seed_from_u64` and `RngCore::next_u64`: the
/// first `count` values of the stream the seed determines; the same
/// seed always yields the same values.
#[verifier::external_body]
fn chacha_burst_from_u64(seed: u64, count: usize) -> (r: Vec<u64>)
    ensures
        r@.len() == count,
        forall|i: int| 0 <= i < count ==> #[trigger] r@[i] == chacha64_stream(seed, i),
{
    let mut rng = rand_chacha::ChaCha8Rng::seed_from_u64(seed);
    let mut out = Vec::with_capacity(count);
    for _ in 0..count {
        out.push(rng.next_u64());
    }
    out
}

/// Relies on `ChaCha8Rng::from_seed` and `RngCore::next_u64`: the
/// first `count` values of the all-zero seed's stream.
#[verifier::external_body]
fn chacha_burst_default(count: usize) -> (r: Vec<u64>)
    ensures
        r@.len() == count,
        forall|i: int| 0 <= i < count ==> #[trigger] r@[i] == chacha64_default_stream(i),
{
    let mut rng = rand_chacha::ChaCha8Rng::from_seed([0u8; 32]);
    let mut out = Vec::with_capacity(count);
    for _ in 0..count {
        out.push(rng.next_u64());
    }
    out
}

/// A noise sample within unit amplitude.
pub open spec fn noise_ok(s: i64) -> bool {
    -SCALE <= s <= SCALE
}

/// A raw stream value folded into unit-amplitude noise.
pub open spec fn noise_sample_spec(raw: u64) -> i64 {
    ((raw as int) % 65537 - 32768) as i64
}

/// The noise burst that fills the ring for an explicit or defaulted
/// seed.
pub open spec fn noise_of_spec(seed: Option<u64>, count: int) -> Seq<i64>
    recommends
        count >= 0,
{
    Seq::new(
        count as nat,
        |i: int|
            noise_sample_spec(
                match seed {
                    Some(s) => chacha64_stream(s, i),
                    None => chacha64_default_stream(i),
                },
            ),
    )
}

/// Ring length of the plucked string: one period of the reference
/// pitch at the generation rate.
pub open spec fn ring_len_spec() -> int {
    (GEN_SAMPLE_RATE as int) * (TIME_SCALE as int) / (FREQUENCY_C4 as int)
}

/// The ring buffer after `n` comb-filter steps: step `n` replaces cell
/// `n mod size` by the average of itself and the following cell.
pub open spec fn karplus_ring_spec(init: Seq<i64>, n: int) -> Seq<i64>
    recommends
        init.len() > 0,
        n >= 0,
    decreases n,
{
    if n <= 0 {
        init
    } else {
        let prev = karplus_ring_spec(init, n - 1);
        let sz = init.len() as int;
        let i = (n - 1) % sz;
        let nxt = n % sz;
        prev.update(i, scale_spec(prev[i] + prev[nxt], 1, 2) as i64)
    }
}

/// The synthesized waveform: output sample `i` is the ring cell the
/// filter reads at step `i`, before that cell is averaged.
pub open spec fn karplus_out_spec(init: Seq<i64>, count: int) -> Seq<i64>
    recommends
        init.len() > 0,
        count >= 0,
{
    Seq::new(count as nat, |i: int| karplus_ring_spec(init, i)[i % (init.len() as int)])
}

/// Averaging two unit-amplitude cells keeps the whole ring within unit
/// amplitude.
pub proof fn lemma_karplus_ring_within(init: Seq<i64>, n: int)
    requires
        init.len() > 0,
        n >= 0,
        forall|i: int| 0 <= i < init.len() ==> noise_ok(#[trigger] init[i]),
    ensures
        karplus_ring_spec(init, n).len() == init.len(),
        forall|i: int|
            0 <= i < init.len() ==> noise_ok(#[trigger] karplus_ring_spec(init, n)[i]),
    decreases n,
{
    if n > 0 {
        lemma_karplus_ring_within(init, n - 1);
        let prev = karplus_ring_spec(init, n - 1);
        let sz = init.len() as int;
        let i = (n - 1) % sz;
        let nxt = n % sz;
        vstd::arithmetic::div_mod::lemma_mod_division_less_than_divisor(n - 1, sz);
        vstd::arithmetic::div_mod::lemma_mod_division_less_than_divisor(n, sz);
        lemma_scale_magnitude(prev[i] + prev[nxt], 1, 2, 2 * SCALE as int);
    }
}

/// Runs the decaying comb filter over a noise-filled ring buffer,
/// emitting `num_samples` samples: each step emits the current cell and
/// overwrites it with the average of itself and the next cell.
#[verifier::loop_isolation(false)]
pub fn karplus_comb(noise: Vec<i64>, num_samples: usize) -> (r: Vec<i64>)
    requires
        noise@.len() > 0,
        num_samples <= LEN_LIMIT,
        forall|i: int| 0 <= i < noise@.len() ==> noise_ok(#[trigger] noise@[i]),
    ensures
        r@ == karplus_out_spec(noise@, num_samples as int),
        r@.len() == num_samples,
        forall|i: int| 0 <= i < r@.len() ==> noise_ok(#[trigger] r@[i]),
{
    let sz = noise.len();
    let ghost init = noise@;
    let mut ring = noise;
    let mut out: Vec<i64> = Vec::new();
    let mut i: usize = 0;
    while i < num_samples
        invariant
            sz == init.len(),
            sz > 0,
            i <= num_samples,
            out@.len() == i,
            ring@ == karplus_ring_spec(init, i as int),
            ring@.len() == sz,
            forall|k: int| 0 <= k < sz ==> noise_ok(#[trigger] ring@[k]),
            forall|k: int|
                0 <= k < i ==> out@[k] == karplus_ring_spec(init, k)[k % (sz as int)] && noise_ok(
                    #[trigger] out@[k],
                ),
        decreases num_samples - i,
    {
        let idx = i % sz;
        let nxt = (i + 1) % sz;
        proof {
            vstd::arithmetic::div_mod::lemma_mod_division_less_than_divisor(i as int, sz as int);
            vstd::arithmetic::div_mod::lemma_mod_division_less_than_divisor(
                i as int + 1,
                sz as int,
            );
        }
        let s = ring[idx];
        out.push(s);
        proof {
            lemma_scale_magnitude(s as int + ring@[nxt as int] as int, 1, 2, 2 * SCALE as int);
        }
        let v = scale_value(s + ring[nxt], 1, 2);
        ring[idx] = v;
        i += 1;
    }
    proof {
        assert forall|k: int|
            0 <= k < num_samples as int implies karplus_out_spec(init, num_samples as int)[k]
            == out@[k] by {
            lemma_karplus_ring_within(init, k);
            vstd::arithmetic::div_mod::lemma_mod_division_less_than_divisor(k, sz as int);
        }
        assert(out@ =~= karplus_out_spec(init, num_samples as int));
    }
    out
}

/// A plucked-string source: the base waveform is synthesized once at
/// construction from a seeded noise burst, and the seed (if one was
/// given) is retained for round-tripping to a score description.
pub struct KarpusStrong {
    pub seed: Option<u64>,
    pub base: Note,
}

impl KarpusStrong {
    /// The base waveform is two seconds of unit-amplitude synthesis at
    /// the generation rate, with no envelope tag.
    pub open spec fn wf(self) -> bool {
        &&& self.base.wf()
        &&& self.base.sample_rate == GEN_SAMPLE_RATE
        &&& self.base.envelope is None
        &&& self.base.data@.len() == GEN_BASE_LEN
        &&& forall|i: int|
            0 <= i < self.base.data@.len() ==> noise_ok(#[trigger] self.base.data@[i])
    }

    /// Builds the source.  The base waveform is exactly the comb filter
    /// run over the seed's noise burst, so two sources built from the
    /// same seed carry bit-identical waveforms; with no seed the fixed
    /// default seed is used, so the no-seed case is deterministic too.
    #[verifier::loop_isolation(false)]
    pub fn new(seed: Option<u64>) -> (r: KarpusStrong)
        ensures
            r.wf(),
            r.seed == seed,
            r.base.data@ == karplus_out_spec(
                noise_of_spec(seed, ring_len_spec()),
                GEN_BASE_LEN as int,
            ),
    {
        // Ring length: one period of the reference pitch at the
        // generation rate.
        let buffer_size: usize = ((GEN_SAMPLE_RATE as u64) * 65536 / FREQUENCY_C4) as usize;
        let raws: Vec<u64> = match seed {
            Some(s) => chacha_burst_from_u64(s, buffer_size),
            None => chacha_burst_default(buffer_size),
        };
        let mut noise: Vec<i64> = Vec::new();
        let mut j: usize = 0;
        while j < buffer_size
            invariant
                j <= buffer_size,
                raws@.len() == buffer_size,
                noise@.len() == j,
                buffer_size as int == ring_len_spec(),
                forall|k: int|
                    0 <= k < buffer_size ==> #[trigger] raws@[k] == (match seed {
                        Some(s) => chacha64_stream(s, k),
                        None => chacha64_default_stream(k),
                    }),
                forall|k: int|
                    0 <= k < j ==> #[trigger] noise@[k] == noise_of_spec(
                        seed,
                        buffer_size as int,
                    )[k] && noise_ok(noise@[k]),
            decreases buffer_size - j,
        {
            let raw = raws[j];
            noise.push((raw % 65537) as i64 - 32768);
            j += 1;
        }
        proof {
            assert(noise@ =~= noise_of_spec(seed, ring_len_spec()));
        }
        let data = karplus_comb(noise, GEN_BASE_LEN);
        KarpusStrong { seed, base: Note::new(data, GEN_SAMPLE_RATE, None) }
    }
}

} // verus!
