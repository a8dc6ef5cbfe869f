//! Sound sources and the note-shaping pipeline: pitch shift, fit to
//! length, and fade in/out.

use vstd::arithmetic::div_mod::{
    lemma_div_is_ordered, lemma_div_of0, lemma_div_pos_is_pos,
    lemma_mod_division_less_than_divisor,
};
use vstd::arithmetic::mul::{lemma_mul_inequality, lemma_mul_is_commutative, lemma_mul_nonnegative};
use vstd::prelude::*;

use crate::fixed::{
    lemma_scale_within, sample_ok, scale_spec, scale_value, BASE_LIMIT, LEN_LIMIT, SAMPLE_LIMIT,
    TIME_SCALE,
};
use crate::note::Note;
use crate::utils::{resample_len_spec, resample_linear, resample_seq, Ratio};

verus! {

/// Samples per second of a generated base waveform.
pub const GEN_SAMPLE_RATE: u32 = 48000;

/// Length of a generated base waveform: two seconds at the generation
/// rate.
pub const GEN_BASE_LEN: usize = 96000;

/// The reference pitch of a generated waveform (the C above middle C,
/// 261.6256 Hz) as a fixed-point frequency with 16 fractional bits:
/// 261.6256 * 65536 = 17145895.3216, rounded to the nearest unit.
pub const FREQUENCY_C4: u64 = 17145895;

/// Where within one cycle the sample at index `i` falls, as a
/// fixed-point fraction of the cycle with 16 fractional bits.
pub open spec fn phase_spec(i: int, rate: int) -> int
    recommends
        i >= 0,
        rate >= 1,
{
    (i * (FREQUENCY_C4 as int) / rate) % 65536
}

/// A note fades in and out over `seconds / FADE_DIVISOR` seconds.
pub const FADE_DIVISOR: u64 = 200;

/// Shortest fade window: two milliseconds in fixed-point seconds.
pub const FADE_MIN: u64 = 131;

/// Number of samples a duration of `seconds` covers at `rate`:
/// `seconds * rate`, rounded to the nearest whole sample.
pub open spec fn duration_len_spec(seconds: int, rate: int) -> int
    recommends
        seconds >= 0,
        rate >= 1,
{
    (seconds * rate + (TIME_SCALE as int) / 2) / (TIME_SCALE as int)
}

/// The buffer loop-tiled (or truncated) to exactly `target` samples; an
/// empty buffer fits as silence.
pub open spec fn fit_seq(data: Seq<i64>, target: int) -> Seq<i64>
    recommends
        target >= 0,
{
    if data.len() == 0 {
        Seq::new(target as nat, |i: int| 0i64)
    } else {
        Seq::new(target as nat, |i: int| data[i % (data.len() as int)])
    }
}

/// Number of samples a fade window of `fade_seconds` covers at `rate`.
pub open spec fn fade_samples_spec(fade_seconds: int, rate: int) -> int
    recommends
        fade_seconds >= 0,
        rate >= 1,
{
    fade_seconds * rate / (TIME_SCALE as int)
}

/// The buffer with linear ramps applied over its first and last `f`
/// samples (each ramp capped to the buffer's length).  When the two
/// windows overlap, a sample is scaled by both ramps, the fade-in
/// first.
pub open spec fn fade_seq(data: Seq<i64>, f: int) -> Seq<i64>
    recommends
        f >= 0,
{
    let n = data.len() as int;
    let m = if f < n {
        f
    } else {
        n
    };
    let fs = if f < 1 {
        1
    } else {
        f
    };
    Seq::new(
        data.len(),
        |i: int|
            {
                let v1 = if i < m {
                    scale_spec(data[i] as int, i, fs)
                } else {
                    data[i] as int
                };
                let v2 = if n - 1 - i < m {
                    scale_spec(v1, n - 1 - i, fs)
                } else {
                    v1
                };
                v2 as i64
            },
    )
}

/// A sample untouched by either fade window is returned unchanged.
pub proof fn lemma_fade_interior(data: Seq<i64>, f: int, i: int)
    requires
        f >= 0,
        0 <= i < data.len(),
        i >= f,
        data.len() - 1 - i >= f,
    ensures
        fade_seq(data, f)[i] == data[i],
{
}

/// Fits `note` to exactly `duration_len_spec(target_seconds, rate)`
/// samples: a longer buffer is truncated, a shorter one is loop-tiled,
/// and an empty one yields silence of the target length.
#[verifier::loop_isolation(false)]
pub fn fit_length(note: Note, target_seconds: u64) -> (r: Note)
    requires
        note.wf(),
        duration_len_spec(target_seconds as int, note.sample_rate as int) <= LEN_LIMIT as int,
    ensures
        r.data@ == fit_seq(
            note.data@,
            duration_len_spec(target_seconds as int, note.sample_rate as int),
        ),
        r.sample_rate == note.sample_rate,
        r.envelope == note.envelope,
        r.wf(),
{
    let ghost gtarget = duration_len_spec(target_seconds as int, note.sample_rate as int);
    proof {
        lemma_mul_nonnegative(target_seconds as int, note.sample_rate as int);
        lemma_div_pos_is_pos(
            (target_seconds as int) * (note.sample_rate as int) + 32768,
            TIME_SCALE as int,
        );
    }
    let wide: u128 = ((target_seconds as u128) * (note.sample_rate as u128) + 32768) / 65536;
    let target: usize = wide as usize;
    let len = note.data.len();
    let mut out: Vec<i64> = Vec::new();
    let mut i: usize = 0;
    if len == 0 {
        while i < target
            invariant
                i <= target,
                out@.len() == i,
                forall|k: int| 0 <= k < i ==> out@[k] == 0i64,
            decreases target - i,
        {
            out.push(0);
            i += 1;
        }
    } else {
        while i < target
            invariant
                i <= target,
                len == note.data@.len(),
                len > 0,
                out@.len() == i,
                forall|k: int|
                    0 <= k < i ==> out@[k] == note.data@[k % (len as int)]
                        && sample_ok(#[trigger] out@[k]),
            decreases target - i,
        {
            proof {
                lemma_mod_division_less_than_divisor(i as int, len as int);
            }
            out.push(note.data[i % len]);
            i += 1;
        }
    }
    proof {
        assert(out@ =~= fit_seq(note.data@, gtarget));
    }
    Note::new(out, note.sample_rate, note.envelope)
}

/// Applies a linear fade-in over the first samples of the note and a
/// matching fade-out over the last ones, to suppress clicks at note
/// boundaries.
#[verifier::loop_isolation(false)]
pub fn fade_in_out(note: Note, fade_seconds: u64) -> (r: Note)
    requires
        note.wf(),
        (fade_seconds as int) * (note.sample_rate as int) <= 0x4000_0000_0000_0000int,
    ensures
        r.data@ == fade_seq(
            note.data@,
            fade_samples_spec(fade_seconds as int, note.sample_rate as int),
        ),
        r.sample_rate == note.sample_rate,
        r.envelope == note.envelope,
        r.wf(),
{
    let ghost gf = fade_samples_spec(fade_seconds as int, note.sample_rate as int);
    proof {
        lemma_mul_nonnegative(fade_seconds as int, note.sample_rate as int);
        lemma_div_pos_is_pos(
            (fade_seconds as int) * (note.sample_rate as int),
            TIME_SCALE as int,
        );
        lemma_div_is_ordered(
            (fade_seconds as int) * (note.sample_rate as int),
            0x4000_0000_0000_0000int,
            TIME_SCALE as int,
        );
    }
    let f: u64 = ((fade_seconds as u128) * (note.sample_rate as u128) / 65536) as u64;
    let n = note.data.len();
    let m: usize = if (f as u128) < (n as u128) {
        f as usize
    } else {
        n
    };
    let fs: u64 = if f < 1 {
        1
    } else {
        f
    };
    let mut out: Vec<i64> = Vec::new();
    let mut i: usize = 0;
    while i < n
        invariant
            i <= n,
            n == note.data@.len(),
            out@.len() == i,
            m as int == if gf < n as int {
                gf
            } else {
                n as int
            },
            fs as int == if gf < 1 {
                1int
            } else {
                gf
            },
            forall|k: int|
                0 <= k < i ==> out@[k] == fade_seq(note.data@, gf)[k] && sample_ok(
                    #[trigger] out@[k],
                ),
        decreases n - i,
    {
        let mut s: i64 = note.data[i];
        if i < m {
            proof {
                lemma_scale_within(s as int, i as int, fs as int, SAMPLE_LIMIT as int);
            }
            s = scale_value(s, i as u64, fs);
        }
        if n - 1 - i < m {
            proof {
                lemma_scale_within(s as int, (n - 1 - i) as int, fs as int, SAMPLE_LIMIT as int);
            }
            s = scale_value(s, (n - 1 - i) as u64, fs);
        }
        out.push(s);
        i += 1;
    }
    proof {
        assert(out@ =~= fade_seq(note.data@, gf));
    }
    Note::new(out, note.sample_rate, note.envelope)
}

/// Equal-temperament frequency ratio of `k` semitones within one
/// octave, as a fixed-point number with 16 fractional bits
/// (`2^(k/12) * TIME_SCALE`, rounded).
pub open spec fn semitone_step_spec(k: int) -> int {
    if k == 0 {
        65536
    } else if k == 1 {
        69433
    } else if k == 2 {
        73562
    } else if k == 3 {
        77936
    } else if k == 4 {
        82570
    } else if k == 5 {
        87480
    } else if k == 6 {
        92682
    } else if k == 7 {
        98193
    } else if k == 8 {
        104032
    } else if k == 9 {
        110218
    } else if k == 10 {
        116772
    } else {
        123715
    }
}

/// `2^o` for the octave offsets the pitch shifter supports.
pub open spec fn octave_mult_spec(o: int) -> int {
    if o <= 0 {
        1
    } else if o == 1 {
        2
    } else if o == 2 {
        4
    } else if o == 3 {
        8
    } else if o == 4 {
        16
    } else if o == 5 {
        32
    } else if o == 6 {
        64
    } else if o == 7 {
        128
    } else if o == 8 {
        256
    } else if o == 9 {
        512
    } else {
        1024
    }
}

/// Numerator of the resampling factor `2^(s / 12)` for a shift of `s`
/// semitones.
pub open spec fn semitone_num_spec(s: int) -> int
    recommends
        -120 <= s <= 120,
{
    let t = s + 120;
    let q = t / 12;
    let k = t % 12;
    if q >= 10 {
        semitone_step_spec(k) * octave_mult_spec(q - 10)
    } else {
        semitone_step_spec(k)
    }
}

/// Denominator of the resampling factor `2^(s / 12)` for a shift of
/// `s` semitones.
pub open spec fn semitone_den_spec(s: int) -> int
    recommends
        -120 <= s <= 120,
{
    let t = s + 120;
    let q = t / 12;
    if q >= 10 {
        65536
    } else {
        65536 * octave_mult_spec(10 - q)
    }
}

fn semitone_step(k: u32) -> (r: u64)
    requires
        k < 12,
    ensures
        r as int == semitone_step_spec(k as int),
        65536 <= r <= 123715,
{
    if k == 0 {
        65536
    } else if k == 1 {
        69433
    } else if k == 2 {
        73562
    } else if k == 3 {
        77936
    } else if k == 4 {
        82570
    } else if k == 5 {
        87480
    } else if k == 6 {
        92682
    } else if k == 7 {
        98193
    } else if k == 8 {
        104032
    } else if k == 9 {
        110218
    } else if k == 10 {
        116772
    } else {
        123715
    }
}

fn octave_mult(o: u32) -> (r: u64)
    requires
        o <= 10,
    ensures
        r as int == octave_mult_spec(o as int),
        1 <= r <= 1024,
{
    if o == 0 {
        1
    } else if o == 1 {
        2
    } else if o == 2 {
        4
    } else if o == 3 {
        8
    } else if o == 4 {
        16
    } else if o == 5 {
        32
    } else if o == 6 {
        64
    } else if o == 7 {
        128
    } else if o == 8 {
        256
    } else if o == 9 {
        512
    } else {
        1024
    }
}

/// The resampling factor `2^(semitones / 12)` that shifts a waveform by
/// the given number of semitones.
pub fn semitone_ratio(semitones: i32) -> (r: Ratio)
    requires
        -120 <= semitones <= 120,
    ensures
        r.num as int == semitone_num_spec(semitones as int),
        r.den as int == semitone_den_spec(semitones as int),
        r.wf(),
        semitones == 0 ==> r.num == r.den,
{
    let t: u32 = (semitones + 120) as u32;
    let q: u32 = t / 12;
    let k: u32 = t % 12;
    proof {
        lemma_mod_division_less_than_divisor(t as int, 12);
        assert(t as int / 12 <= 20) by {
            lemma_div_is_ordered(t as int, 240, 12);
        }
    }
    let step = semitone_step(k);
    if q >= 10 {
        let num = step * octave_mult(q - 10);
        Ratio::new(num, 65536)
    } else {
        let den = 65536 * octave_mult(10 - q);
        Ratio::new(step, den)
    }
}

/// Pitch-shifts the note by the given number of semitones: its samples
/// are resampled by the factor `2^(semitones / 12)`, keeping the sample
/// rate, so the waveform plays correspondingly higher or lower.
pub fn pitch_shift_semitones(note: Note, semitones: i32) -> (r: Note)
    requires
        note.wf(),
        -120 <= semitones <= 120,
        resample_len_spec(
            note.data@.len() as int,
            semitone_num_spec(semitones as int),
            semitone_den_spec(semitones as int),
        ) <= LEN_LIMIT as int,
    ensures
        r.data@ == resample_seq(
            note.data@,
            semitone_num_spec(semitones as int),
            semitone_den_spec(semitones as int),
        ),
        r.sample_rate == note.sample_rate,
        r.envelope == note.envelope,
        r.wf(),
{
    let factor = semitone_ratio(semitones);
    let rate = note.sample_rate;
    let envelope = note.envelope;
    let data = resample_linear(note.data, factor);
    Note::new(data, rate, envelope)
}

/// The closed set of sound-source variants.  The set is fixed by the
/// score-description format and stays exhaustively matchable for
/// serialization round-trips.
pub enum SoundSource {
    Sin(crate::sin::Sin),
    Triangle(crate::triangle::Triangle),
    Sampler(crate::sampler::Sampler),
    KarpusStrong(crate::karplus_strong::KarpusStrong),
}

impl SoundSource {
    pub open spec fn wf(self) -> bool {
        match self {
            SoundSource::Sin(s) => s.wf(),
            SoundSource::Triangle(s) => s.wf(),
            SoundSource::Sampler(s) => s.wf(),
            SoundSource::KarpusStrong(s) => s.wf(),
        }
    }

    /// The variant's canonical base waveform.
    pub open spec fn base_note(self) -> Note {
        match self {
            SoundSource::Sin(s) => s.base,
            SoundSource::Triangle(s) => s.base,
            SoundSource::Sampler(s) => s.base,
            SoundSource::KarpusStrong(s) => s.base,
        }
    }

    /// The source's native sample rate.
    pub open spec fn rate_spec(self) -> int {
        self.base_note().sample_rate as int
    }

    /// Every variant's base waveform stays within the base-sample
    /// bound: generated waveforms within unit amplitude, decoded ones
    /// within the rescaled 32-bit range.
    pub proof fn lemma_base_within(self)
        requires
            self.wf(),
        ensures
            forall|i: int|
                0 <= i < self.base_note().data@.len() ==> -(BASE_LIMIT as int) <= (
                #[trigger] self.base_note().data@[i]) as int <= BASE_LIMIT as int,
    {
        match self {
            SoundSource::Sin(s) => {
                crate::sin::lemma_sin_base_within(s);
                assert forall|i: int|
                    0 <= i < self.base_note().data@.len() implies -(BASE_LIMIT as int) <= (
                #[trigger] self.base_note().data@[i]) as int <= BASE_LIMIT as int by {
                    assert(self.base_note().data@[i] == s.base.data@[i]);
                }
            },
            SoundSource::Triangle(t) => {
                crate::triangle::lemma_triangle_base_within(t);
                assert forall|i: int|
                    0 <= i < self.base_note().data@.len() implies -(BASE_LIMIT as int) <= (
                #[trigger] self.base_note().data@[i]) as int <= BASE_LIMIT as int by {
                    assert(self.base_note().data@[i] == t.base.data@[i]);
                }
            },
            SoundSource::Sampler(sm) => {
                assert forall|i: int|
                    0 <= i < self.base_note().data@.len() implies -(BASE_LIMIT as int) <= (
                #[trigger] self.base_note().data@[i]) as int <= BASE_LIMIT as int by {
                    assert(self.base_note().data@[i] == sm.base.data@[i]);
                }
            },
            SoundSource::KarpusStrong(k) => {
                assert forall|i: int|
                    0 <= i < self.base_note().data@.len() implies -(BASE_LIMIT as int) <= (
                #[trigger] self.base_note().data@[i]) as int <= BASE_LIMIT as int by {
                    assert(crate::karplus_strong::noise_ok(k.base.data@[i]));
                }
            },
        }
    }

    /// The fade window of a note of the given duration: half a percent
    /// of the duration, but no shorter than [`FADE_MIN`].
    pub open spec fn fade_len_spec(seconds: int) -> int
        recommends
            seconds >= 0,
    {
        if seconds / (FADE_DIVISOR as int) > FADE_MIN as int {
            seconds / (FADE_DIVISOR as int)
        } else {
            FADE_MIN as int
        }
    }

    /// The samples `get_note` renders: the pitch-shifted base waveform
    /// (or a one-sample rest), fitted to the requested duration, then
    /// faded in and out.
    pub open spec fn note_spec(self, seconds: int, semitones: Option<i32>) -> Seq<i64>
        recommends
            seconds >= 0,
            self.wf(),
    {
        let rate = self.rate_spec();
        let pre = match semitones {
            Some(s) => resample_seq(
                self.base_note().data@,
                semitone_num_spec(s as int),
                semitone_den_spec(s as int),
            ),
            None => seq![0i64],
        };
        let fitted = fit_seq(pre, duration_len_spec(seconds, rate));
        fade_seq(fitted, fade_samples_spec(Self::fade_len_spec(seconds), rate))
    }

    /// An owned copy of the canonical unshaped waveform, constant after
    /// construction.
    pub fn get_base(&self) -> (r: Note)
        requires
            self.wf(),
        ensures
            r.data@ == self.base_note().data@,
            r.sample_rate == self.base_note().sample_rate,
            r.envelope == self.base_note().envelope,
            r.envelope is None,
            r.wf(),
    {
        match self {
            SoundSource::Sin(s) => s.base.duplicate(),
            SoundSource::Triangle(s) => s.base.duplicate(),
            SoundSource::Sampler(s) => s.base.duplicate(),
            SoundSource::KarpusStrong(s) => s.base.duplicate(),
        }
    }

    /// A single-sample silent note at the source's rate: a rest.
    pub fn get_rest(&self) -> (r: Note)
        requires
            self.wf(),
        ensures
            r.data@ == seq![0i64],
            r.sample_rate == self.base_note().sample_rate,
            r.envelope is None,
            r.wf(),
    {
        let mut data: Vec<i64> = Vec::new();
        data.push(0);
        proof {
            assert(data@ =~= seq![0i64]);
        }
        Note::new(data, self.sample_rate(), None)
    }

    /// The source's native sample rate: that of its base waveform.
    pub fn sample_rate(&self) -> (r: u32)
        requires
            self.wf(),
        ensures
            r == self.base_note().sample_rate,
            r >= 1,
    {
        match self {
            SoundSource::Sin(s) => s.base.sample_rate,
            SoundSource::Triangle(s) => s.base.sample_rate,
            SoundSource::Sampler(s) => s.base.sample_rate,
            SoundSource::KarpusStrong(s) => s.base.sample_rate,
        }
    }

    /// Renders one note: with a semitone shift, the pitch-shifted base
    /// waveform; without one, a rest.  Either is fitted to exactly the
    /// requested duration (loop-tiled or truncated) and faded in and
    /// out.  A rest stays silent: without a shift every sample of the
    /// result is zero.
    pub fn get_note(&self, seconds: u64, semitones: Option<i32>) -> (r: Note)
        requires
            self.wf(),
            duration_len_spec(seconds as int, self.rate_spec()) <= LEN_LIMIT as int,
            (seconds as int) * self.rate_spec() <= 0x4000_0000_0000_0000int,
            match semitones {
                Some(s) => -120 <= s <= 120 && resample_len_spec(
                    self.base_note().data@.len() as int,
                    semitone_num_spec(s as int),
                    semitone_den_spec(s as int),
                ) <= LEN_LIMIT as int,
                None => true,
            },
        ensures
            r.data@ == self.note_spec(seconds as int, semitones),
            r.data@.len() == duration_len_spec(seconds as int, self.rate_spec()),
            r.sample_rate == self.base_note().sample_rate,
            r.envelope is None,
            r.wf(),
            semitones is None ==> forall|i: int| 0 <= i < r.data@.len() ==> r.data@[i] == 0i64,
            forall|i: int|
                0 <= i < r.data@.len() ==> -(BASE_LIMIT as int) <= (#[trigger] r.data@[i]) as int
                    <= BASE_LIMIT as int,
    {
        let note = match semitones {
            Some(s) => pitch_shift_semitones(self.get_base(), s),
            None => self.get_rest(),
        };
        let note = fit_length(note, seconds);
        let base_fade = seconds / FADE_DIVISOR;
        let fade_seconds: u64 = if base_fade > FADE_MIN {
            base_fade
        } else {
            FADE_MIN
        };
        proof {
            let rate = self.rate_spec();
            assert((base_fade as int) * rate <= (seconds as int) * rate) by {
                lemma_div_is_ordered(
                    0,
                    seconds as int,
                    FADE_DIVISOR as int,
                );
                vstd::arithmetic::div_mod::lemma_div_nonincreasing(
                    seconds as int,
                    FADE_DIVISOR as int,
                );
                lemma_mul_inequality(base_fade as int, seconds as int, rate);
            }
            assert((FADE_MIN as int) * rate <= 0x4000_0000_0000_0000int) by {
                lemma_mul_inequality(rate, 0x1_0000_0000int, FADE_MIN as int);
                lemma_mul_is_commutative(rate, FADE_MIN as int);
                lemma_mul_is_commutative(0x1_0000_0000int, FADE_MIN as int);
            }
        }
        let out = fade_in_out(note, fade_seconds);
        proof {
            self.lemma_base_within();
            let rate = self.rate_spec();
            let base = self.base_note().data@;
            let target = duration_len_spec(seconds as int, rate);
            let gfw = fade_samples_spec(Self::fade_len_spec(seconds as int), rate);
            let pre = match semitones {
                Some(sh) => resample_seq(
                    base,
                    semitone_num_spec(sh as int),
                    semitone_den_spec(sh as int),
                ),
                None => seq![0i64],
            };
            match semitones {
                Some(sh) => {
                    crate::utils::lemma_resample_seq_within(
                        base,
                        semitone_num_spec(sh as int),
                        semitone_den_spec(sh as int),
                        BASE_LIMIT as int,
                    );
                },
                None => {},
            }
            let fitted = fit_seq(pre, target);
            assert forall|i: int|
                0 <= i < fitted.len() implies -(BASE_LIMIT as int) <= (#[trigger] fitted[i]) as int
                <= BASE_LIMIT as int by {
                if pre.len() == 0 {
                    assert(fitted[i] == 0i64);
                } else {
                    lemma_mod_division_less_than_divisor(i, pre.len() as int);
                }
            }
            lemma_mul_nonnegative(Self::fade_len_spec(seconds as int), rate);
            lemma_div_pos_is_pos(Self::fade_len_spec(seconds as int) * rate, TIME_SCALE as int);
            let n2 = fitted.len() as int;
            let m2 = if gfw < n2 {
                gfw
            } else {
                n2
            };
            let fs2 = if gfw < 1 {
                1int
            } else {
                gfw
            };
            assert forall|i: int|
                0 <= i < out.data@.len() implies -(BASE_LIMIT as int) <= (
            #[trigger] out.data@[i]) as int <= BASE_LIMIT as int by {
                let v1 = if i < m2 {
                    scale_spec(fitted[i] as int, i, fs2)
                } else {
                    fitted[i] as int
                };
                if i < m2 {
                    lemma_scale_within(fitted[i] as int, i, fs2, BASE_LIMIT as int);
                }
                if n2 - 1 - i < m2 {
                    lemma_scale_within(v1, n2 - 1 - i, fs2, BASE_LIMIT as int);
                }
            }
            if semitones is None {
                let rate = self.rate_spec();
                let target = duration_len_spec(seconds as int, rate);
                let fitted = fit_seq(seq![0i64], target);
                assert forall|i: int| 0 <= i < fitted.len() implies fitted[i] == 0i64 by {
                    lemma_mod_division_less_than_divisor(i, 1);
                }
                let gf = fade_samples_spec(Self::fade_len_spec(seconds as int), rate);
                assert forall|i: int| 0 <= i < out.data@.len() implies out.data@[i] == 0i64 by {
                    let n = fitted.len() as int;
                    let fs = if gf < 1 {
                        1int
                    } else {
                        gf
                    };
                    lemma_div_of0(fs);
                    assert(scale_spec(0, i, fs) == 0);
                    assert(scale_spec(0, n - 1 - i, fs) == 0);
                }
            }
        }
        out
    }

    /// The descriptor that reconstructs this source in a score
    /// description.
    pub fn to_score_part_source(&self) -> (r: crate::score::ScorePartSource)
        ensures
            self is Sin ==> r is Sin,
            self is Triangle ==> r is Triangle,
            self matches SoundSource::Sampler(s) ==> r matches crate::score::ScorePartSource::Sampler(p)
                && p@ == s.src_file@,
            self matches SoundSource::KarpusStrong(s) ==> r
                == crate::score::ScorePartSource::KarpusStrong(s.seed),
    {
        match self {
            SoundSource::Sin(_) => crate::score::ScorePartSource::Sin,
            SoundSource::Triangle(_) => crate::score::ScorePartSource::Triangle,
            SoundSource::Sampler(s) => crate::score::ScorePartSource::Sampler(
                clone_string(&s.src_file),
            ),
            SoundSource::KarpusStrong(s) => crate::score::ScorePartSource::KarpusStrong(s.seed),
        }
    }
}

/// Relies on `String::clone`: an owned copy with the same characters.
#[verifier::external_body]
fn clone_string(s: &String) -> (r: String)
    ensures
        r@ == s@,
{
    s.clone()
}

/// A note rendered at a zero semitone shift keeps the base waveform's
/// samples wherever neither fade window reaches: pitch shifting by a
/// unit factor is the identity, so only the fades touch the fitted
/// waveform.
pub proof fn lemma_zero_shift_keeps_base(source: SoundSource, seconds: int, i: int)
    requires
        source.wf(),
        seconds >= 0,
        source.base_note().data@.len() > 0,
        fade_samples_spec(SoundSource::fade_len_spec(seconds), source.rate_spec()) <= i,
        i < duration_len_spec(seconds, source.rate_spec()) - fade_samples_spec(
            SoundSource::fade_len_spec(seconds),
            source.rate_spec(),
        ),
    ensures
        source.note_spec(seconds, Some(0i32))[i] == source.base_note().data@[i % (
        source.base_note().data@.len() as int)],
{
    let base = source.base_note().data@;
    let rate = source.rate_spec();
    let target = duration_len_spec(seconds, rate);
    let gf = fade_samples_spec(SoundSource::fade_len_spec(seconds), rate);
    assert(semitone_num_spec(0) == 65536);
    assert(semitone_den_spec(0) == 65536);
    crate::utils::lemma_resample_identity(base, 65536, 65536);
    let fitted = fit_seq(base, target);
    assert(fitted[i] == base[i % (base.len() as int)]);
    vstd::arithmetic::mul::lemma_mul_nonnegative(
        SoundSource::fade_len_spec(seconds),
        rate,
    );
    lemma_div_pos_is_pos(SoundSource::fade_len_spec(seconds) * rate, TIME_SCALE as int);
    lemma_fade_interior(fitted, gf, i);
}

} // verus!
