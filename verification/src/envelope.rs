//! Attack/decay/sustain/release shaping of a note's samples.

use vstd::arithmetic::div_mod::{lemma_div_is_ordered, lemma_div_multiples_vanish, lemma_div_pos_is_pos};
use vstd::arithmetic::mul::{lemma_mul_inequality, lemma_mul_is_commutative, lemma_mul_nonnegative};
use vstd::prelude::*;

use crate::fixed::{
    lemma_scale_magnitude, lemma_scale_within, sample_ok, scale_spec, scale_value, GAIN_LIMIT,
    LEN_LIMIT, SAMPLE_LIMIT, SCALE,
};
use crate::note::Note;

verus! {

/// A piecewise-linear amplitude envelope.
///
/// `attack`, `decay` and `release` are fixed-point seconds (one second
/// is [`crate::fixed::TIME_SCALE`]); `sustain` is a fixed-point gain,
/// conventionally within unit amplitude but not clamped to it: a
/// sustain above [`SCALE`] amplifies, up to the engine's gain cap
/// [`GAIN_LIMIT`].
#[derive(Clone, Copy, Debug, PartialEq, Eq, Structural)]
pub struct Envelope {
    pub attack: u32,
    pub decay: u32,
    pub sustain: u32,
    pub release: u32,
}

impl Envelope {
    /// The sustain gain stays within the engine's gain cap.
    pub open spec fn wf(self) -> bool {
        self.sustain as int <= GAIN_LIMIT as int
    }

    pub fn new(attack: u32, decay: u32, sustain: u32, release: u32) -> (r: Envelope)
        requires
            sustain as int <= GAIN_LIMIT as int,
        ensures
            r == (Envelope { attack, decay, sustain, release }),
            r.wf(),
    {
        Envelope { attack, decay, sustain, release }
    }

    /// The largest gain this envelope can apply: full gain, or the
    /// sustain gain when that amplifies.
    pub open spec fn gain_cap_spec(self) -> int {
        if self.sustain as int > SCALE as int {
            self.sustain as int
        } else {
            SCALE as int
        }
    }

    /// The gain applied to the sample at index `i` of a buffer playing
    /// at `rate`: a linear ramp up over the attack window (an empty
    /// window means immediate full gain), a linear slide from full gain
    /// to the sustain gain over the decay window, then the sustain
    /// gain.
    pub open spec fn gain_at_spec(self, rate: int, i: int) -> int
        recommends
            rate >= 1,
            i >= 0,
    {
        let a = (self.attack as int) * rate;
        let d = (self.decay as int) * rate;
        let t = i * (crate::fixed::TIME_SCALE as int);
        if t < a {
            scale_spec(SCALE as int, t, a)
        } else if t < a + d {
            (SCALE as int) + scale_spec(self.sustain as int - SCALE as int, t - a, d)
        } else {
            self.sustain as int
        }
    }

    /// The envelope's gain never leaves `[0, gain_cap]`.
    pub proof fn lemma_gain_within(self, rate: int, i: int)
        requires
            self.wf(),
            rate >= 1,
            i >= 0,
        ensures
            0 <= self.gain_at_spec(rate, i) <= self.gain_cap_spec(),
    {
        let a = (self.attack as int) * rate;
        let d = (self.decay as int) * rate;
        let t = i * (crate::fixed::TIME_SCALE as int);
        lemma_mul_nonnegative(i, crate::fixed::TIME_SCALE as int);
        lemma_mul_nonnegative(self.attack as int, rate);
        lemma_mul_nonnegative(self.decay as int, rate);
        if t < a {
            lemma_scale_within(SCALE as int, t, a, SCALE as int);
            lemma_mul_nonnegative(SCALE as int, t);
            lemma_div_pos_is_pos((SCALE as int) * t, a);
        } else if t < a + d {
            let s = self.sustain as int - SCALE as int;
            if s >= 0 {
                lemma_scale_within(s, t - a, d, s);
                lemma_mul_nonnegative(s, t - a);
                lemma_div_pos_is_pos(s * (t - a), d);
            } else {
                lemma_scale_within(s, t - a, d, -s);
                lemma_mul_nonnegative(-s, t - a);
                lemma_div_pos_is_pos((-s) * (t - a), d);
            }
        }
    }

    /// The input samples scaled by the piecewise envelope gain.
    pub open spec fn shaped_spec(self, data: Seq<i64>, rate: int) -> Seq<i64>
        recommends
            rate >= 1,
    {
        Seq::new(
            data.len(),
            |i: int| scale_spec(data[i] as int, self.gain_at_spec(rate, i), SCALE as int) as i64,
        )
    }

    /// Number of release-tail samples appended after the shaped buffer.
    pub open spec fn tail_len_spec(self, rate: int) -> int
        recommends
            rate >= 1,
    {
        (self.release as int) * rate / (crate::fixed::TIME_SCALE as int)
    }

    /// The release tail: the original (unshaped) samples, looped from
    /// the start of the buffer, each held at the sustain gain.  An empty
    /// buffer has nothing to loop, so its tail is empty.
    pub open spec fn tail_spec(self, data: Seq<i64>, rate: int) -> Seq<i64>
        recommends
            rate >= 1,
    {
        if data.len() == 0 {
            Seq::empty()
        } else {
            Seq::new(
                self.tail_len_spec(rate) as nat,
                |i: int|
                    scale_spec(
                        data[i % (data.len() as int)] as int,
                        self.sustain as int,
                        SCALE as int,
                    ) as i64,
            )
        }
    }

    /// The whole shaped buffer: scaled samples followed by the looped
    /// release tail.
    pub open spec fn apply_spec(self, data: Seq<i64>, rate: int) -> Seq<i64>
        recommends
            rate >= 1,
    {
        self.shaped_spec(data, rate) + self.tail_spec(data, rate)
    }

    /// Shapes `note`'s samples with this envelope and appends the
    /// release tail; the sample rate and the note's envelope tag carry
    /// over.  The input budget (each sample times the envelope's gain
    /// cap within the stored-sample scale) keeps the shaped samples
    /// within the engine's limits even when the sustain amplifies.
    #[verifier::loop_isolation(false)]
    pub fn apply(&self, note: Note) -> (r: Note)
        requires
            self.wf(),
            note.wf(),
            note.data@.len() + (if note.data@.len() == 0 {
                0int
            } else {
                self.tail_len_spec(note.sample_rate as int)
            }) <= LEN_LIMIT as int,
            forall|i: int|
                0 <= i < note.data@.len() ==> -((SAMPLE_LIMIT as int) * (SCALE as int)) <= (
                #[trigger] note.data@[i] as int) * self.gain_cap_spec() && (note.data@[i] as int)
                    * self.gain_cap_spec() <= (SAMPLE_LIMIT as int) * (SCALE as int),
        ensures
            r.data@ == self.apply_spec(note.data@, note.sample_rate as int),
            r.sample_rate == note.sample_rate,
            r.envelope == note.envelope,
            r.wf(),
    {
        let rate: u32 = note.sample_rate;
        let ghost grate = rate as int;
        let rate64: u64 = rate as u64;
        proof {
            assert((self.attack as int) * (rate64 as int) < 0x1_0000_0000_0000_0000int)
                by (nonlinear_arith)
                requires
                    0 <= self.attack as int,
                    (self.attack as int) < 0x1_0000_0000int,
                    0 <= rate64 as int,
                    (rate64 as int) < 0x1_0000_0000int;
            assert((self.decay as int) * (rate64 as int) < 0x1_0000_0000_0000_0000int)
                by (nonlinear_arith)
                requires
                    0 <= self.decay as int,
                    (self.decay as int) < 0x1_0000_0000int,
                    0 <= rate64 as int,
                    (rate64 as int) < 0x1_0000_0000int;
            assert((self.release as int) * (rate64 as int) < 0x1_0000_0000_0000_0000int)
                by (nonlinear_arith)
                requires
                    0 <= self.release as int,
                    (self.release as int) < 0x1_0000_0000int,
                    0 <= rate64 as int,
                    (rate64 as int) < 0x1_0000_0000int;
        }
        let a: u64 = (self.attack as u64) * rate64;
        let d: u64 = (self.decay as u64) * rate64;
        let mut out: Vec<i64> = Vec::new();
        let len = note.data.len();
        let mut i: usize = 0;
        while i < len
            invariant
                i <= len,
                out@.len() == i,
                forall|k: int|
                    0 <= k < i ==> out@[k] == scale_spec(
                        note.data@[k] as int,
                        self.gain_at_spec(grate, k),
                        SCALE as int,
                    ) as i64 && sample_ok(#[trigger] out@[k]),
            decreases len - i,
        {
            proof {
                assert((i as int) * (crate::fixed::TIME_SCALE as int) <= 0x4000_0000_0000int)
                    by (nonlinear_arith)
                    requires
                        0 <= i as int,
                        (i as int) <= 0x4000_0000int,
                ;
            }
            let t: u64 = (i as u64) * 65536;
            let g: i64 = if t < a {
                proof {
                    lemma_scale_within(SCALE as int, t as int, a as int, SCALE as int);
                }
                scale_value(SCALE, t, a)
            } else if t - a < d {
                proof {
                    let s = self.sustain as int - SCALE as int;
                    if s >= 0 {
                        lemma_scale_within(s, t as int - a as int, d as int, s);
                    } else {
                        lemma_scale_within(s, t as int - a as int, d as int, -s);
                    }
                }
                let slide: i64 = scale_value(self.sustain as i64 - SCALE, t - a, d);
                SCALE + slide
            } else {
                self.sustain as i64
            };
            proof {
                self.lemma_gain_within(grate, i as int);
                lemma_shaped_within(
                    note.data@[i as int] as int,
                    g as int,
                    self.gain_cap_spec(),
                );
            }
            out.push(scale_value(note.data[i], g as u64, 32768));
            i += 1;
        }
        let count_wide: u64 = (self.release as u64) * rate64 / 65536;
        proof {
            lemma_mul_nonnegative(self.release as int, rate64 as int);
            lemma_div_pos_is_pos(
                (self.release as int) * (rate64 as int),
                crate::fixed::TIME_SCALE as int,
            );
        }
        if len > 0 {
            let count: usize = count_wide as usize;
            let mut j: usize = 0;
            while j < count
                invariant
                    j <= count,
                    out@.len() == len + j,
                    len == note.data@.len(),
                    len > 0,
                    count as int == self.tail_len_spec(grate),
                    forall|k: int|
                        0 <= k < len ==> out@[k] == self.shaped_spec(note.data@, grate)[k]
                            && sample_ok(#[trigger] out@[k]),
                    forall|k: int|
                        len <= k < len + j ==> out@[k] == self.tail_spec(note.data@, grate)[k - len]
                            && sample_ok(#[trigger] out@[k]),
                decreases count - j,
            {
                let idx: usize = j % len;
                proof {
                    vstd::arithmetic::div_mod::lemma_mod_division_less_than_divisor(
                        j as int,
                        len as int,
                    );
                    lemma_shaped_within(
                        note.data@[idx as int] as int,
                        self.sustain as int,
                        self.gain_cap_spec(),
                    );
                }
                out.push(scale_value(note.data[idx], self.sustain as u64, 32768));
                j += 1;
            }
        }
        proof {
            assert(out@ =~= self.apply_spec(note.data@, grate));
        }
        Note::new(out, rate, note.envelope)
    }
}

/// A sample within the envelope's input budget stays within the
/// stored-sample bound after any gain up to the cap.
proof fn lemma_shaped_within(s: int, g: int, cap: int)
    requires
        0 <= g <= cap,
        -((SAMPLE_LIMIT as int) * (SCALE as int)) <= s * cap,
        s * cap <= (SAMPLE_LIMIT as int) * (SCALE as int),
    ensures
        -(SAMPLE_LIMIT as int) <= scale_spec(s, g, SCALE as int) <= SAMPLE_LIMIT as int,
{
    let sa = if s >= 0 {
        s
    } else {
        -s
    };
    lemma_scale_magnitude(s, g, SCALE as int, sa);
    assert(sa * g <= sa * cap) by {
        lemma_mul_inequality(g, cap, sa);
        lemma_mul_is_commutative(g, sa);
        lemma_mul_is_commutative(cap, sa);
    }
    assert(sa * cap <= (SAMPLE_LIMIT as int) * (SCALE as int)) by {
        if s < 0 {
            assert(sa * cap == -(s * cap)) by (nonlinear_arith)
                requires
                    sa == -s;
        }
    }
    assert(sa * g / (SCALE as int) <= SAMPLE_LIMIT as int) by {
        lemma_div_is_ordered(sa * g, (SAMPLE_LIMIT as int) * (SCALE as int), SCALE as int);
        assert((SAMPLE_LIMIT as int) * (SCALE as int) / (SCALE as int) == SAMPLE_LIMIT as int)
            by {
            lemma_div_multiples_vanish(SAMPLE_LIMIT as int, SCALE as int);
            lemma_mul_is_commutative(SAMPLE_LIMIT as int, SCALE as int);
        }
    }
    lemma_mul_nonnegative(sa, g);
    lemma_div_pos_is_pos(sa * g, SCALE as int);
}

} // verus!
