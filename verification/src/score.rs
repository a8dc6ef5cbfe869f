//! The validated in-memory score description consumed by the engine,
//! and its adaptation into tracks and a mixdown.
//!
//! Beat values (`bpm`, note starts and lengths) are fixed-point numbers
//! with 16 fractional bits, like seconds ([`crate::fixed::TIME_SCALE`]).

use vstd::prelude::*;

use crate::envelope::Envelope;
use crate::error::IndexError;
use crate::fixed::{
    gain_ok, BASE_LIMIT, CHANNEL_TRACKS_LIMIT, GAIN_LIMIT, LEN_LIMIT, SAMPLE_LIMIT, SCALE,
};
use crate::source::{semitone_den_spec, semitone_num_spec, SoundSource};
use crate::track::{InstrumentTrack, Mixdown};
use crate::utils::resample_len_spec;

verus! {

/// The duration of `length` beats at `bpm` beats per minute, in
/// fixed-point seconds.
pub open spec fn note_seconds_spec(bpm: int, length: int) -> int
    recommends
        bpm >= 1,
        length >= 0,
{
    60 * length * 65536 / bpm
}

/// The reconstruction descriptor of a sound source: which variant it
/// is, plus what is needed to rebuild it (a container path for a
/// sampled waveform, an optional seed for a plucked string).
#[derive(Clone, Debug, PartialEq)]
pub enum ScorePartSource {
    Sampler(String),
    Sin,
    Triangle,
    KarpusStrong(Option<u64>),
}

/// The four source variants, without their reconstruction parameters.
#[derive(Clone, Copy, Debug, PartialEq, Eq, Structural)]
pub enum SoundSourceChoice {
    Sampler,
    Sin,
    Triangle,
    KarpusStrong,
}

impl SoundSourceChoice {
    /// The variant's display name.
    pub fn to_str(&self) -> (r: &'static str)
        ensures
            *self is Sampler ==> r@ == "Sampler"@,
            *self is Sin ==> r@ == "Sin"@,
            *self is Triangle ==> r@ == "Triangle"@,
            *self is KarpusStrong ==> r@ == "KarpusStrong"@,
    {
        match self {
            SoundSourceChoice::Sampler => "Sampler",
            SoundSourceChoice::Sin => "Sin",
            SoundSourceChoice::Triangle => "Triangle",
            SoundSourceChoice::KarpusStrong => "KarpusStrong",
        }
    }

    /// The variant a descriptor belongs to.
    pub fn from_source(source: &ScorePartSource) -> (r: SoundSourceChoice)
        ensures
            r == (match source {
                ScorePartSource::Sampler(_) => SoundSourceChoice::Sampler,
                ScorePartSource::Sin => SoundSourceChoice::Sin,
                ScorePartSource::Triangle => SoundSourceChoice::Triangle,
                ScorePartSource::KarpusStrong(_) => SoundSourceChoice::KarpusStrong,
            }),
    {
        match source {
            ScorePartSource::Sampler(_) => SoundSourceChoice::Sampler,
            ScorePartSource::Sin => SoundSourceChoice::Sin,
            ScorePartSource::Triangle => SoundSourceChoice::Triangle,
            ScorePartSource::KarpusStrong(_) => SoundSourceChoice::KarpusStrong,
        }
    }
}

/// One note of a score part: an optional semitone shift (a rest when
/// absent), an optional authored start time in beats, and a length in
/// beats.
///
/// The engine's pitch table holds whole semitones within ten octaves;
/// a score description's fractional shift rounds to the nearest whole
/// semitone at the boundary.
#[derive(Clone, Copy, Debug, PartialEq, Eq, Structural)]
pub struct ScoreNote {
    pub semitone: Option<i32>,
    pub start: Option<u64>,
    pub length: u64,
}

impl ScoreNote {
    /// The shift stays within the pitch shifter's range.
    pub open spec fn wf(self) -> bool {
        match self.semitone {
            Some(s) => -120 <= s <= 120,
            None => true,
        }
    }

    pub fn new(semitone: Option<i32>, start: Option<u64>, length: u64) -> (r: ScoreNote)
        requires
            match semitone {
                Some(s) => -120 <= s <= 120,
                None => true,
            },
        ensures
            r == (ScoreNote { semitone, start, length }),
            r.wf(),
    {
        ScoreNote { semitone, start, length }
    }

    pub fn semitone(&self) -> (r: Option<i32>)
        ensures
            r == self.semitone,
    {
        self.semitone
    }

    pub fn start(&self) -> (r: Option<u64>)
        ensures
            r == self.start,
    {
        self.start
    }

    pub fn length(&self) -> (r: u64)
        ensures
            r == self.length,
    {
        self.length
    }
}

/// One part of a score: a sound source descriptor, a tempo, the notes
/// to render, and optionally a playback volume, an output channel and a
/// per-part envelope.
pub struct ScorePart {
    pub source: ScorePartSource,
    pub bpm: u32,
    pub score_notes: Vec<ScoreNote>,
    pub volume: Option<i64>,
    pub channel: Option<u16>,
    pub envelope: Option<Envelope>,
}

impl ScorePart {
    pub open spec fn wf(self) -> bool {
        &&& self.bpm >= 1
        &&& forall|i: int| 0 <= i < self.score_notes@.len() ==> (#[trigger] self.score_notes@[i]).wf()
        &&& match self.volume {
            Some(v) => gain_ok(v),
            None => true,
        }
        &&& match self.envelope {
            Some(e) => e.wf(),
            None => true,
        }
    }

    pub fn new(
        source: ScorePartSource,
        bpm: u32,
        score_notes: Vec<ScoreNote>,
        volume: Option<i64>,
        channel: Option<u16>,
        envelope: Option<Envelope>,
    ) -> (r: ScorePart)
        requires
            bpm >= 1,
            forall|i: int| 0 <= i < score_notes@.len() ==> (#[trigger] score_notes@[i]).wf(),
            match volume {
                Some(v) => gain_ok(v),
                None => true,
            },
            match envelope {
                Some(e) => e.wf(),
                None => true,
            },
        ensures
            r == (ScorePart { source, bpm, score_notes, volume, channel, envelope }),
            r.wf(),
    {
        ScorePart { source, bpm, score_notes, volume, channel, envelope }
    }

    pub fn source(&self) -> (r: &ScorePartSource)
        ensures
            *r == self.source,
    {
        &self.source
    }

    pub fn bpm(&self) -> (r: u32)
        ensures
            r == self.bpm,
    {
        self.bpm
    }

    pub fn score_notes(&self) -> (r: &Vec<ScoreNote>)
        ensures
            r@ == self.score_notes@,
    {
        &self.score_notes
    }

    pub fn volume(&self) -> (r: Option<i64>)
        ensures
            r == self.volume,
    {
        self.volume
    }

    pub fn envelope(&self) -> (r: &Option<Envelope>)
        ensures
            *r == self.envelope,
    {
        &self.envelope
    }

    /// The part's output channel; parts without one go to channel zero.
    pub fn channel(&self) -> (r: u16)
        ensures
            r == (match self.channel {
                Some(c) => c,
                None => 0u16,
            }),
    {
        match self.channel {
            Some(channel) => channel,
            None => 0,
        }
    }
}

/// A whole validated score: the channel count, the output sample rate,
/// and the parts.
pub struct Score {
    pub num_channel: u16,
    pub sample_rate: u32,
    pub tracks: Vec<ScorePart>,
}

impl Score {
    pub open spec fn wf(self) -> bool {
        &&& self.sample_rate >= 1
        &&& forall|i: int| 0 <= i < self.tracks@.len() ==> (#[trigger] self.tracks@[i]).wf()
    }

    pub fn new(num_channel: u16, sample_rate: u32, tracks: Vec<ScorePart>) -> (r: Score)
        requires
            sample_rate >= 1,
            forall|i: int| 0 <= i < tracks@.len() ==> (#[trigger] tracks@[i]).wf(),
        ensures
            r == (Score { num_channel, sample_rate, tracks }),
            r.wf(),
    {
        Score { num_channel, sample_rate, tracks }
    }

    pub fn num_channel(&self) -> (r: u16)
        ensures
            r == self.num_channel,
    {
        self.num_channel
    }

    pub fn sample_rate(&self) -> (r: u32)
        ensures
            r == self.sample_rate,
    {
        self.sample_rate
    }

    pub fn tracks(&self) -> (r: &Vec<ScorePart>)
        ensures
            r@ == self.tracks@,
    {
        &self.tracks
    }
}

impl ScorePartSource {
    /// Rebuilds the source this descriptor stands for.  A sampled
    /// waveform needs its container's bytes, which only the caller can
    /// read, so the sampler descriptor yields nothing here (see
    /// [`crate::sampler::Sampler::new`]).
    pub fn to_sound_source(&self) -> (r: Option<SoundSource>)
        ensures
            *self is Sin ==> (r matches Some(s) && s is Sin && s.wf()),
            *self is Triangle ==> (r matches Some(s) && s is Triangle && s.wf()),
            self matches ScorePartSource::KarpusStrong(seed) ==> (r matches Some(s) && (
            s matches SoundSource::KarpusStrong(k) && k.seed == seed) && s.wf()),
            *self is Sampler ==> r is None,
    {
        match self {
            ScorePartSource::Sin => Some(SoundSource::Sin(crate::sin::Sin::new())),
            ScorePartSource::Triangle => Some(
                SoundSource::Triangle(crate::triangle::Triangle::new()),
            ),
            ScorePartSource::KarpusStrong(seed) => Some(
                SoundSource::KarpusStrong(crate::karplus_strong::KarpusStrong::new(*seed)),
            ),
            ScorePartSource::Sampler(_) => None,
        }
    }
}

impl ScorePart {
    /// The track's playback volume: the part's, or unit gain when none
    /// is given.
    pub open spec fn volume_spec(self) -> int {
        match self.volume {
            Some(v) => v as int,
            None => SCALE as int,
        }
    }

    /// The samples note `k` contributes to the part's track: what the
    /// source renders for the note's duration and semitone shift,
    /// shaped by the part's envelope when it has one.
    pub open spec fn rendered_note_spec(self, source: SoundSource, k: int) -> Seq<i64>
        recommends
            self.wf(),
            source.wf(),
            0 <= k < self.score_notes@.len(),
    {
        let secs = note_seconds_spec(self.bpm as int, self.score_notes@[k].length as int);
        let shaped = source.note_spec(secs, self.score_notes@[k].semitone);
        match self.envelope {
            Some(e) => e.apply_spec(shaped, source.rate_spec()),
            None => shaped,
        }
    }

    /// The first `k` notes' rendered buffers laid back to back, in
    /// order.
    pub open spec fn track_data_spec(self, source: SoundSource, k: int) -> Seq<i64>
        decreases k,
    {
        if k <= 0 {
            Seq::empty()
        } else {
            self.track_data_spec(source, k - 1) + self.rendered_note_spec(source, k - 1)
        }
    }

    /// A prefix of the rendered track is never longer than the whole.
    proof fn lemma_track_data_len_mono(self, source: SoundSource, j: int, k: int)
        requires
            0 <= j <= k,
        ensures
            self.track_data_spec(source, j).len() <= self.track_data_spec(source, k).len(),
        decreases k - j,
    {
        if j < k {
            self.lemma_track_data_len_mono(source, j, k - 1);
        }
    }

    /// Everything that must fit in machine limits for this part to
    /// render with `source`: note durations within the time scale, the
    /// whole track within the buffer limit, and every semitone shift's
    /// resampled base within the buffer limit.
    pub open spec fn render_fits_spec(self, source: SoundSource) -> bool {
        let n = self.score_notes@.len() as int;
        &&& forall|k: int|
            0 <= k < n ==> note_seconds_spec(
                self.bpm as int,
                (#[trigger] self.score_notes@[k]).length as int,
            ) * source.rate_spec() <= 0x4000_0000_0000_0000int
        &&& self.track_data_spec(source, n).len() <= LEN_LIMIT as int
        &&& forall|k: int|
            0 <= k < n ==> match (#[trigger] self.score_notes@[k]).semitone {
                Some(s) => resample_len_spec(
                    source.base_note().data@.len() as int,
                    semitone_num_spec(s as int),
                    semitone_den_spec(s as int),
                ) <= LEN_LIMIT as int,
                None => true,
            }
    }

    /// Renders the part into an instrument track: each note is rendered
    /// by `source` in order, shaped by the part's envelope when it has
    /// one, and appended.  Authored per-note start offsets are not
    /// honoured: the notes are laid back to back in append order.
    #[verifier::loop_isolation(false)]
    pub fn to_track(&self, source: &SoundSource) -> (r: InstrumentTrack)
        requires
            self.wf(),
            source.wf(),
            self.render_fits_spec(*source),
        ensures
            r.data@ == self.track_data_spec(*source, self.score_notes@.len() as int),
            r.sample_rate == source.base_note().sample_rate,
            r.volume as int == self.volume_spec(),
            r.wf(),
    {
        let volume: i64 = match self.volume {
            Some(v) => v,
            None => SCALE,
        };
        let mut track = InstrumentTrack::new(source.sample_rate(), volume);
        let n = self.score_notes.len();
        let ghost gn = n as int;
        let mut k: usize = 0;
        while k < n
            invariant
                k <= n,
                n == self.score_notes@.len(),
                track.data@ == self.track_data_spec(*source, k as int),
                track.sample_rate == source.base_note().sample_rate,
                track.volume as int == self.volume_spec(),
                track.wf(),
            decreases n - k,
        {
            let sn = self.score_notes[k];
            proof {
                vstd::arithmetic::mul::lemma_mul_nonnegative(
                    60 * (sn.length as int),
                    crate::fixed::TIME_SCALE as int,
                );
                vstd::arithmetic::div_mod::lemma_div_pos_is_pos(
                    60 * (sn.length as int) * 65536,
                    self.bpm as int,
                );
                let secs = note_seconds_spec(self.bpm as int, sn.length as int);
                assert(secs <= secs * source.rate_spec()) by (nonlinear_arith)
                    requires
                        secs >= 0,
                        source.rate_spec() >= 1;
                self.lemma_track_data_len_mono(*source, k as int + 1, gn);
            }
            let secs_wide: u128 = 60u128 * (sn.length as u128) * 65536 / (self.bpm as u128);
            let secs: u64 = secs_wide as u64;
            let note = source.get_note(secs, sn.semitone);
            let note = match &self.envelope {
                Some(e) => {
                    proof {
                        assert forall|ii: int|
                            0 <= ii < note.data@.len() implies -((SAMPLE_LIMIT as int) * (
                        SCALE as int)) <= (#[trigger] note.data@[ii] as int) * e.gain_cap_spec()
                            && (note.data@[ii] as int) * e.gain_cap_spec() <= (SAMPLE_LIMIT as int)
                            * (SCALE as int) by {
                            let sv = note.data@[ii] as int;
                            assert(-(BASE_LIMIT as int) <= sv <= BASE_LIMIT as int);
                            assert(0 <= e.gain_cap_spec() <= GAIN_LIMIT as int);
                            assert(-(0x800_0000_0000_0000int) <= sv * e.gain_cap_spec() <= 0x800_0000_0000_0000int)
                                by (nonlinear_arith)
                                requires
                                    -(0x1_0000_0000int) <= sv,
                                    sv <= 0x1_0000_0000int,
                                    0 <= e.gain_cap_spec(),
                                    e.gain_cap_spec() <= 0x800_0000int;
                            assert((SAMPLE_LIMIT as int) * (SCALE as int)
                                == 0x800_0000_0000_0000int);
                        }
                    }
                    e.apply(note)
                },
                None => note,
            };
            proof {
                crate::utils::lemma_resample_identity(
                    note.data@,
                    source.rate_spec(),
                    source.rate_spec(),
                );
                lemma_resample_len_identity(note.data@.len() as int, source.rate_spec());
            }
            track.add_note(note);
            k += 1;
        }
        track
    }
}

/// Resampling a buffer to its own rate keeps its length.
proof fn lemma_resample_len_identity(len: int, rate: int)
    requires
        len >= 0,
        rate >= 1,
    ensures
        resample_len_spec(len, rate, rate) == len,
{
    if len > 0 {
        assert(len * rate / rate == len) by {
            vstd::arithmetic::div_mod::lemma_div_multiples_vanish(len, rate);
            vstd::arithmetic::mul::lemma_mul_is_commutative(len, rate);
        }
    }
}

/// The channel a part is registered on: its own, or channel zero when
/// none is given.
pub open spec fn channel_of_spec(part: ScorePart) -> int {
    match part.channel {
        Some(c) => c as int,
        None => 0,
    }
}

/// How many of the first `k` parts land on channel `c`.
pub open spec fn count_channel_spec(parts: Seq<ScorePart>, c: int, k: int) -> int
    decreases k,
{
    if k <= 0 {
        0
    } else {
        count_channel_spec(parts, c, k - 1) + if channel_of_spec(parts[k - 1]) == c {
            1int
        } else {
            0int
        }
    }
}

/// Counting over more parts never shrinks a channel's count.
proof fn lemma_count_channel_mono(parts: Seq<ScorePart>, c: int, j: int, k: int)
    requires
        0 <= j <= k,
    ensures
        count_channel_spec(parts, c, j) <= count_channel_spec(parts, c, k),
    decreases k - j,
{
    if j < k {
        lemma_count_channel_mono(parts, c, j, k - 1);
    }
}

/// At most `k` of the first `k` parts land on any one channel.
proof fn lemma_count_channel_le(parts: Seq<ScorePart>, c: int, k: int)
    requires
        0 <= k,
    ensures
        0 <= count_channel_spec(parts, c, k) <= k,
    decreases k,
{
    if k > 0 {
        lemma_count_channel_le(parts, c, k - 1);
    }
}

impl Score {
    /// Renders the whole score: one instrument track per part, each
    /// registered into its part's channel of a fresh mixdown.  The
    /// first part whose channel index reaches at or past the channel
    /// count aborts the render with that index's error; no partial
    /// mixdown is returned.
    #[verifier::loop_isolation(false)]
    #[verifier::rlimit(100)]
    pub fn to_mixdown(&self, sources: &Vec<SoundSource>) -> (r: Result<Mixdown, IndexError>)
        requires
            self.wf(),
            sources@.len() == self.tracks@.len(),
            self.tracks@.len() <= CHANNEL_TRACKS_LIMIT as int,
            forall|i: int| 0 <= i < sources@.len() ==> (#[trigger] sources@[i]).wf(),
            forall|i: int|
                0 <= i < self.tracks@.len() ==> (#[trigger] self.tracks@[i]).render_fits_spec(
                    sources@[i],
                ),
            forall|i: int|
                0 <= i < self.tracks@.len() ==> resample_len_spec(
                    (#[trigger] self.tracks@[i]).track_data_spec(
                        sources@[i],
                        self.tracks@[i].score_notes@.len() as int,
                    ).len() as int,
                    sources@[i].rate_spec(),
                    self.sample_rate as int,
                ) <= LEN_LIMIT as int,
        ensures
            (forall|i: int|
                0 <= i < self.tracks@.len() ==> channel_of_spec(#[trigger] self.tracks@[i]) < (
                self.num_channel as int)) <==> r is Ok,
            r matches Err(e) ==> exists|i: int|
                {
                    &&& 0 <= i < self.tracks@.len()
                    &&& channel_of_spec(#[trigger] self.tracks@[i]) >= self.num_channel as int
                    &&& forall|j: int|
                        0 <= j < i ==> channel_of_spec(#[trigger] self.tracks@[j]) < (
                        self.num_channel as int)
                    &&& e == (IndexError {
                        index: channel_of_spec(self.tracks@[i]) as usize,
                        len: self.num_channel as usize,
                    })
                },
            r matches Ok(m) ==> {
                &&& m.channel == self.num_channel
                &&& m.sample_rate == self.sample_rate
                &&& m.wf()
                &&& forall|c: int|
                    0 <= c < self.num_channel as int ==> (#[trigger] m.tracks@[c])@.len()
                        == count_channel_spec(self.tracks@, c, self.tracks@.len() as int)
                &&& forall|i: int|
                    0 <= i < self.tracks@.len() ==> {
                        let part = #[trigger] self.tracks@[i];
                        let placed = m.tracks@[channel_of_spec(part)]@[count_channel_spec(
                            self.tracks@,
                            channel_of_spec(part),
                            i,
                        )];
                        &&& placed.data@ == part.track_data_spec(
                            sources@[i],
                            part.score_notes@.len() as int,
                        )
                        &&& placed.sample_rate == sources@[i].base_note().sample_rate
                        &&& placed.volume as int == part.volume_spec()
                    }
            },
    {
        let mut mixdown = Mixdown::new(self.num_channel, self.sample_rate);
        let n = self.tracks.len();
        let ghost gn = n as int;
        let mut i: usize = 0;
        while i < n
            invariant
                i <= n,
                n == self.tracks@.len(),
                mixdown.channel == self.num_channel,
                mixdown.sample_rate == self.sample_rate,
                mixdown.wf(),
                forall|j: int|
                    0 <= j < i ==> channel_of_spec(#[trigger] self.tracks@[j]) < (
                    self.num_channel as int),
                forall|c: int|
                    0 <= c < self.num_channel as int ==> (#[trigger] mixdown.tracks@[c])@.len()
                        == count_channel_spec(self.tracks@, c, i as int),
                forall|j: int|
                    0 <= j < i ==> {
                        let part = #[trigger] self.tracks@[j];
                        let placed = mixdown.tracks@[channel_of_spec(part)]@[count_channel_spec(
                            self.tracks@,
                            channel_of_spec(part),
                            j,
                        )];
                        &&& placed.data@ == part.track_data_spec(
                            sources@[j],
                            part.score_notes@.len() as int,
                        )
                        &&& placed.sample_rate == sources@[j].base_note().sample_rate
                        &&& placed.volume as int == part.volume_spec()
                    },
            decreases n - i,
        {
            let part = &self.tracks[i];
            let channel = part.channel();
            let track = part.to_track(&sources[i]);
            proof {
                lemma_count_channel_le(self.tracks@, channel as int, i as int);
            }
            let ghost prev = mixdown;
            match mixdown.add_track(channel, track) {
                Ok(()) => {},
                Err(e) => {
                    return Err(e);
                },
            }
            proof {
                let gi = i as int;
                let gc = channel as int;
                assert(channel_of_spec(self.tracks@[gi]) == gc);
                assert forall|cc: int| 0 <= cc < self.num_channel as int implies (
                #[trigger] mixdown.tracks@[cc])@.len() == count_channel_spec(
                    self.tracks@,
                    cc,
                    gi + 1,
                ) by {
                    if cc != gc {
                        assert(mixdown.tracks@[cc] == prev.tracks@[cc]);
                    }
                }
                assert forall|j: int| 0 <= j < gi + 1 implies {
                    let part = #[trigger] self.tracks@[j];
                    let placed = mixdown.tracks@[channel_of_spec(part)]@[count_channel_spec(
                        self.tracks@,
                        channel_of_spec(part),
                        j,
                    )];
                    &&& placed.data@ == part.track_data_spec(
                        sources@[j],
                        part.score_notes@.len() as int,
                    )
                    &&& placed.sample_rate == sources@[j].base_note().sample_rate
                    &&& placed.volume as int == part.volume_spec()
                } by {
                    let part = self.tracks@[j];
                    let pc = channel_of_spec(part);
                    let pos = count_channel_spec(self.tracks@, pc, j);
                    if j == gi {
                        assert(pos == prev.tracks@[gc]@.len());
                        assert(mixdown.tracks@[gc]@ == prev.tracks@[gc]@.push(track));
                    } else {
                        lemma_count_channel_le(self.tracks@, pc, j);
                        if pc == gc {
                            lemma_count_channel_mono(self.tracks@, pc, j + 1, gi);
                            assert(count_channel_spec(self.tracks@, pc, j + 1) == pos + 1);
                            assert(pos < prev.tracks@[gc]@.len());
                            assert(mixdown.tracks@[gc]@ == prev.tracks@[gc]@.push(track));
                            assert(mixdown.tracks@[gc]@[pos] == prev.tracks@[gc]@[pos]);
                        } else {
                            assert(mixdown.tracks@[pc] == prev.tracks@[pc]);
                        }
                    }
                }
            }
            i += 1;
        }
        Ok(mixdown)
    }
}

} // verus!
