//! Instrument tracks and the multi-channel mixdown.

use vstd::arithmetic::mul::lemma_mul_nonnegative;
use vstd::prelude::*;

use crate::error::IndexError;
use crate::fixed::{
    gain_ok, samples_ok, sum_ok, CHANNEL_TRACKS_LIMIT, GAIN_LIMIT, LEN_LIMIT, SAMPLE_LIMIT,
};
use crate::note::{copy_samples, Note};
use crate::utils::{
    max_abs_spec, normalize_data, normalize_seq, resample_data, resample_len_spec, resample_seq,
};

verus! {

/// Accumulates rendered notes into one continuous buffer at a fixed
/// sample rate, with a playback volume; the buffer only ever grows.
pub struct InstrumentTrack {
    pub data: Vec<i64>,
    pub sample_rate: u32,
    pub volume: i64,
}

impl InstrumentTrack {
    pub open spec fn wf(self) -> bool {
        &&& self.sample_rate >= 1
        &&& self.data@.len() <= LEN_LIMIT
        &&& samples_ok(self.data@)
        &&& gain_ok(self.volume)
    }

    /// A fresh, empty track.
    pub fn new(sample_rate: u32, volume: i64) -> (r: InstrumentTrack)
        requires
            sample_rate >= 1,
            gain_ok(volume),
        ensures
            r.data@ == Seq::<i64>::empty(),
            r.sample_rate == sample_rate,
            r.volume == volume,
            r.wf(),
    {
        InstrumentTrack { data: Vec::new(), sample_rate, volume }
    }

    /// The accumulated buffer normalized to the track's volume: a pure
    /// read, computed fresh on each call.
    pub fn data(&self) -> (r: Vec<i64>)
        requires
            self.wf(),
        ensures
            r@ == normalize_seq(self.data@, self.volume as int),
            max_abs_spec(self.data@) == 0 ==> r@ == self.data@,
            max_abs_spec(self.data@) > 0 ==> max_abs_spec(r@) == self.volume as int,
    {
        normalize_data(copy_samples(&self.data), self.volume)
    }

    pub fn sample_rate(&self) -> (r: u32)
        ensures
            r == self.sample_rate,
    {
        self.sample_rate
    }

    /// The raw buffer length, before any normalization.
    pub fn length(&self) -> (r: usize)
        ensures
            r == self.data@.len(),
    {
        self.data.len()
    }

    /// Resamples the note to the track's own rate and appends it to the
    /// buffer; the track's timeline is strictly sequential.
    pub fn add_note(&mut self, note: Note)
        requires
            old(self).wf(),
            note.wf(),
            resample_len_spec(
                note.data@.len() as int,
                note.sample_rate as int,
                old(self).sample_rate as int,
            ) <= LEN_LIMIT as int,
            old(self).data@.len() + resample_len_spec(
                note.data@.len() as int,
                note.sample_rate as int,
                old(self).sample_rate as int,
            ) <= LEN_LIMIT as int,
        ensures
            final(self).data@ == old(self).data@ + resample_seq(
                note.data@,
                note.sample_rate as int,
                old(self).sample_rate as int,
            ),
            final(self).sample_rate == old(self).sample_rate,
            final(self).volume == old(self).volume,
            final(self).wf(),
    {
        let mut resampled = resample_data(note.data, note.sample_rate, self.sample_rate);
        self.data.append(&mut resampled);
    }
}

/// The multi-channel container: each channel holds zero or more
/// instrument tracks, and the mixdown is queried once for the final
/// interleaved buffer.
pub struct Mixdown {
    pub tracks: Vec<Vec<InstrumentTrack>>,
    pub channel: u16,
    pub sample_rate: u32,
}

impl Mixdown {
    /// One channel slot per channel; every registered track is well
    /// formed, fits the per-channel count limit, and resamples to the
    /// output rate within the buffer limit.
    pub open spec fn wf(self) -> bool {
        &&& self.sample_rate >= 1
        &&& self.tracks@.len() == self.channel as int
        &&& forall|c: int|
            0 <= c < self.channel as int ==> (#[trigger] self.tracks@[c])@.len()
                <= CHANNEL_TRACKS_LIMIT as int
        &&& forall|c: int, t: int|
            0 <= c < self.channel as int && 0 <= t < self.tracks@[c]@.len() ==> (
            #[trigger] self.tracks@[c]@[t]).wf()
        &&& forall|c: int, t: int|
            0 <= c < self.channel as int && 0 <= t < self.tracks@[c]@.len()
                ==> resample_len_spec(
                (#[trigger] self.tracks@[c]@[t]).data@.len() as int,
                self.tracks@[c]@[t].sample_rate as int,
                self.sample_rate as int,
            ) <= LEN_LIMIT as int
    }

    /// A fresh mixdown with the given number of empty channels.
    #[verifier::loop_isolation(false)]
    pub fn new(channel: u16, sample_rate: u32) -> (r: Mixdown)
        requires
            sample_rate >= 1,
        ensures
            r.channel == channel,
            r.sample_rate == sample_rate,
            forall|c: int| 0 <= c < channel as int ==> (#[trigger] r.tracks@[c])@.len() == 0,
            r.wf(),
    {
        let mut tracks: Vec<Vec<InstrumentTrack>> = Vec::new();
        let mut c: usize = 0;
        while c < channel as usize
            invariant
                c <= channel as usize,
                tracks@.len() == c,
                forall|k: int| 0 <= k < c ==> (#[trigger] tracks@[k])@.len() == 0,
            decreases channel as usize - c,
        {
            tracks.push(Vec::new());
            c += 1;
        }
        Mixdown { tracks, channel, sample_rate }
    }

    pub fn channel(&self) -> (r: u16)
        ensures
            r == self.channel,
    {
        self.channel
    }

    pub fn sample_rate(&self) -> (r: u32)
        ensures
            r == self.sample_rate,
    {
        self.sample_rate
    }

    /// Appends `track` to the given channel's track list.  An index at
    /// or past the channel count is an error and leaves the mixdown
    /// unchanged, never a silent no-op.
    pub fn add_track(&mut self, channel: u16, track: InstrumentTrack) -> (r: Result<
        (),
        IndexError,
    >)
        requires
            old(self).wf(),
            track.wf(),
            resample_len_spec(
                track.data@.len() as int,
                track.sample_rate as int,
                old(self).sample_rate as int,
            ) <= LEN_LIMIT as int,
            channel < old(self).channel ==> old(self).tracks@[channel as int]@.len()
                < CHANNEL_TRACKS_LIMIT as int,
        ensures
            (channel as int) >= (old(self).channel as int) ==> r == Err::<(), IndexError>(
                IndexError { index: channel as usize, len: old(self).channel as usize },
            ) && *final(self) == *old(self),
            (channel as int) < (old(self).channel as int) ==> {
                &&& r == Ok::<(), IndexError>(())
                &&& final(self).channel == old(self).channel
                &&& final(self).sample_rate == old(self).sample_rate
                &&& final(self).tracks@.len() == old(self).tracks@.len()
                &&& forall|c: int|
                    0 <= c < old(self).channel as int && c != channel as int
                        ==> #[trigger] final(self).tracks@[c] == old(self).tracks@[c]
                &&& final(self).tracks@[channel as int]@ == old(self).tracks@[channel as int]@.push(
                    track,
                )
            },
            final(self).wf(),
    {
        if channel < self.channel {
            let c = channel as usize;
            let mut row = self.tracks.remove(c);
            row.push(track);
            self.tracks.insert(c, row);
            proof {
                assert(final(self).tracks@ =~= old(self).tracks@.update(
                    channel as int,
                    final(self).tracks@[channel as int],
                ));
            }
            Ok(())
        } else {
            Err(IndexError::new(channel as usize, self.channel as usize))
        }
    }

    /// The buffer that track `t` of channel `c` contributes: its raw
    /// data resampled to the mixdown's output rate.
    pub open spec fn track_mix_spec(self, c: int, t: int) -> Seq<i64>
        recommends
            self.wf(),
            0 <= c < self.channel as int,
            0 <= t < self.tracks@[c]@.len(),
    {
        resample_seq(
            self.tracks@[c]@[t].data@,
            self.tracks@[c]@[t].sample_rate as int,
            self.sample_rate as int,
        )
    }

    /// The largest volume among the first `t` tracks of channel `c`
    /// (zero when there are none).
    pub open spec fn channel_volume_spec(self, c: int, t: int) -> int
        decreases t,
    {
        if t <= 0 {
            0
        } else {
            let prev = self.channel_volume_spec(c, t - 1);
            let v = self.tracks@[c]@[t - 1].volume as int;
            if prev < v {
                v
            } else {
                prev
            }
        }
    }

    /// The longest resampled buffer among the first `t` tracks of
    /// channel `c` (zero when there are none).
    pub open spec fn channel_len_spec(self, c: int, t: int) -> int
        decreases t,
    {
        if t <= 0 {
            0
        } else {
            let prev = self.channel_len_spec(c, t - 1);
            let l = self.track_mix_spec(c, t - 1).len() as int;
            if prev < l {
                l
            } else {
                prev
            }
        }
    }

    /// The position-wise sum of the first `t` resampled tracks at
    /// index `i`; a track shorter than `i` contributes silence.
    pub open spec fn channel_sum_spec(self, c: int, t: int, i: int) -> int
        decreases t,
    {
        if t <= 0 {
            0
        } else {
            self.channel_sum_spec(c, t - 1, i) + (if i < self.track_mix_spec(c, t - 1).len() {
                self.track_mix_spec(c, t - 1)[i] as int
            } else {
                0
            })
        }
    }

    /// The summed (pre-normalization) buffer of channel `c`.
    pub open spec fn channel_mix_spec(self, c: int) -> Seq<i64> {
        let nt = self.tracks@[c]@.len() as int;
        Seq::new(
            self.channel_len_spec(c, nt) as nat,
            |i: int| self.channel_sum_spec(c, nt, i) as i64,
        )
    }

    /// What `channel_data` returns for a valid channel: the summed
    /// buffer normalized to the loudest track's volume.
    pub open spec fn channel_data_spec(self, c: int) -> Seq<i64> {
        normalize_seq(
            self.channel_mix_spec(c),
            self.channel_volume_spec(c, self.tracks@[c]@.len() as int),
        )
    }

    /// The largest volume of a channel's tracks is itself a gain.
    proof fn lemma_channel_volume_ok(self, c: int, t: int)
        requires
            self.wf(),
            0 <= c < self.channel as int,
            0 <= t <= self.tracks@[c]@.len(),
        ensures
            gain_ok(self.channel_volume_spec(c, t) as i64),
            0 <= self.channel_volume_spec(c, t) <= GAIN_LIMIT as int,
        decreases t,
    {
        if t > 0 {
            self.lemma_channel_volume_ok(c, t - 1);
        }
    }

    /// Renders one channel: every track is resampled to the output
    /// rate, summed position-wise into a buffer as long as the longest
    /// contribution, and the sum is normalized to the loudest track's
    /// volume.  An index at or past the channel count is an error.
    #[verifier::loop_isolation(false)]
    pub fn channel_data(&self, channel: u16) -> (r: Result<Vec<i64>, IndexError>)
        requires
            self.wf(),
        ensures
            (channel as int) >= (self.channel as int) ==> r == Err::<Vec<i64>, IndexError>(
                IndexError { index: channel as usize, len: self.channel as usize },
            ),
            (channel as int) < (self.channel as int) ==> (r matches Ok(d) && d@
                == self.channel_data_spec(channel as int)),
    {
        if channel >= self.channel {
            return Err(IndexError::new(channel as usize, self.channel as usize));
        }
        let c = channel as usize;
        let ghost gc = c as int;
        let row = &self.tracks[c];
        let nt = row.len();
        let mut mixed: Vec<Vec<i64>> = Vec::new();
        let mut volume: i64 = 0;
        let mut t: usize = 0;
        while t < nt
            invariant
                nt == row@.len(),
                t <= nt,
                mixed@.len() == t,
                forall|k: int|
                    0 <= k < t ==> (#[trigger] mixed@[k])@ == self.track_mix_spec(gc, k)
                        && samples_ok(mixed@[k]@),
                volume as int == self.channel_volume_spec(gc, t as int),
                gain_ok(volume),
            decreases nt - t,
        {
            let tr = &row[t];
            let resampled = resample_data(
                copy_samples(&tr.data),
                tr.sample_rate,
                self.sample_rate,
            );
            mixed.push(resampled);
            if volume < tr.volume {
                volume = tr.volume;
            }
            t += 1;
        }
        let mut length: usize = 0;
        let mut t2: usize = 0;
        while t2 < nt
            invariant
                nt == row@.len(),
                t2 <= nt,
                mixed@.len() == nt,
                forall|k: int|
                    0 <= k < nt ==> (#[trigger] mixed@[k])@ == self.track_mix_spec(gc, k)
                        && samples_ok(mixed@[k]@),
                length as int == self.channel_len_spec(gc, t2 as int),
                length <= LEN_LIMIT,
            decreases nt - t2,
        {
            if mixed[t2].len() > length {
                length = mixed[t2].len();
            }
            t2 += 1;
        }
        let mut data: Vec<i64> = Vec::new();
        let mut i: usize = 0;
        while i < length
            invariant
                nt == row@.len(),
                nt <= CHANNEL_TRACKS_LIMIT,
                i <= length,
                data@.len() == i,
                mixed@.len() == nt,
                forall|k: int|
                    0 <= k < nt ==> (#[trigger] mixed@[k])@ == self.track_mix_spec(gc, k)
                        && samples_ok(mixed@[k]@),
                forall|j: int|
                    0 <= j < i ==> #[trigger] data@[j] == self.channel_sum_spec(
                        gc,
                        nt as int,
                        j,
                    ) as i64 && sum_ok(data@[j]),
            decreases length - i,
        {
            let mut acc: i64 = 0;
            let mut t3: usize = 0;
            while t3 < nt
                invariant
                    nt == row@.len(),
                    nt <= CHANNEL_TRACKS_LIMIT,
                    t3 <= nt,
                    mixed@.len() == nt,
                    forall|k: int|
                        0 <= k < nt ==> (#[trigger] mixed@[k])@ == self.track_mix_spec(gc, k)
                            && samples_ok(mixed@[k]@),
                    acc as int == self.channel_sum_spec(gc, t3 as int, i as int),
                    -(t3 as int) * (SAMPLE_LIMIT as int) <= acc as int <= (t3 as int) * (
                    SAMPLE_LIMIT as int),
                decreases nt - t3,
            {
                let trk = &mixed[t3];
                proof {
                    assert((t3 as int) * (SAMPLE_LIMIT as int) + SAMPLE_LIMIT as int == (t3
                        as int + 1) * (SAMPLE_LIMIT as int)) by (nonlinear_arith);
                    assert((t3 as int + 1) * (SAMPLE_LIMIT as int) <= (CHANNEL_TRACKS_LIMIT
                        as int) * (SAMPLE_LIMIT as int)) by (nonlinear_arith)
                        requires
                            t3 as int + 1 <= CHANNEL_TRACKS_LIMIT as int;
                }
                if i < trk.len() {
                    acc = acc + trk[i];
                }
                t3 += 1;
            }
            proof {
                assert((nt as int) * (SAMPLE_LIMIT as int) <= (CHANNEL_TRACKS_LIMIT as int) * (
                SAMPLE_LIMIT as int)) by (nonlinear_arith)
                    requires
                        nt as int <= CHANNEL_TRACKS_LIMIT as int;
            }
            data.push(acc);
            i += 1;
        }
        proof {
            self.lemma_channel_volume_ok(gc, nt as int);
            assert(data@ =~= self.channel_mix_spec(gc));
        }
        Ok(normalize_data(data, volume))
    }

    /// The length of the final per-channel buffers considered so far:
    /// the longest among the first `c` channels' rendered data.
    pub open spec fn out_len_spec(self, c: int) -> int
        decreases c,
    {
        if c <= 0 {
            0
        } else {
            let prev = self.out_len_spec(c - 1);
            let l = self.channel_data_spec(c - 1).len() as int;
            if prev < l {
                l
            } else {
                prev
            }
        }
    }

    /// The final interleaved buffer: sample `i` of channel `c` stands
    /// at flattened index `channel * i + c`, with silence where a
    /// channel's data is shorter than the longest one.
    pub open spec fn interleaved_spec(self) -> Seq<i64> {
        let ch = self.channel as int;
        let len = self.out_len_spec(ch);
        Seq::new(
            (len * ch) as nat,
            |j: int|
                {
                    let i = j / ch;
                    let c = j % ch;
                    if i < self.channel_data_spec(c).len() {
                        self.channel_data_spec(c)[i]
                    } else {
                        0i64
                    }
                },
        )
    }

    /// Renders every channel in index order and interleaves them into
    /// one buffer of `channel * max(channel lengths)` samples.  With
    /// every channel index in range by construction, the render always
    /// succeeds.
    #[verifier::loop_isolation(false)]
    pub fn data(&self) -> (r: Result<Vec<i64>, IndexError>)
        requires
            self.wf(),
        ensures
            r matches Ok(d) && d@ == self.interleaved_spec(),
            r matches Ok(d) ==> d@.len() == self.out_len_spec(self.channel as int) * (
            self.channel as int),
            r matches Ok(d) ==> forall|i: int, c: int|
                0 <= i < self.out_len_spec(self.channel as int) && 0 <= c < self.channel as int
                    ==> #[trigger] d@[(self.channel as int) * i + c] == (if i
                    < self.channel_data_spec(c).len() {
                    self.channel_data_spec(c)[i]
                } else {
                    0i64
                }),
    {
        let ch = self.channel as usize;
        let mut list: Vec<Vec<i64>> = Vec::new();
        let mut c: usize = 0;
        while c < ch
            invariant
                ch == self.channel as usize,
                c <= ch,
                list@.len() == c,
                forall|k: int| 0 <= k < c ==> (#[trigger] list@[k])@ == self.channel_data_spec(k),
            decreases ch - c,
        {
            match self.channel_data(c as u16) {
                Ok(d) => {
                    list.push(d);
                },
                Err(e) => {
                    proof {
                        assert(false);
                    }
                    return Err(e);
                },
            }
            c += 1;
        }
        let mut length: usize = 0;
        let mut c2: usize = 0;
        while c2 < ch
            invariant
                ch == self.channel as usize,
                c2 <= ch,
                list@.len() == ch,
                forall|k: int| 0 <= k < ch ==> (#[trigger] list@[k])@ == self.channel_data_spec(k),
                length as int == self.out_len_spec(c2 as int),
            decreases ch - c2,
        {
            if list[c2].len() > length {
                length = list[c2].len();
            }
            c2 += 1;
        }
        let ghost glen = self.out_len_spec(self.channel as int);
        let mut out: Vec<i64> = Vec::new();
        let mut i: usize = 0;
        proof {
            lemma_mul_nonnegative(glen, self.channel as int);
        }
        while i < length
            invariant
                ch == self.channel as usize,
                i <= length,
                length as int == glen,
                list@.len() == ch,
                forall|k: int| 0 <= k < ch ==> (#[trigger] list@[k])@ == self.channel_data_spec(k),
                out@.len() == (i as int) * (ch as int),
                forall|j: int|
                    0 <= j < out@.len() ==> #[trigger] out@[j] == self.interleaved_spec()[j],
            decreases length - i,
        {
            let mut c3: usize = 0;
            while c3 < ch
                invariant
                    ch == self.channel as usize,
                    i < length,
                    length as int == glen,
                    c3 <= ch,
                    list@.len() == ch,
                    forall|k: int|
                        0 <= k < ch ==> (#[trigger] list@[k])@ == self.channel_data_spec(k),
                    out@.len() == (i as int) * (ch as int) + c3 as int,
                    forall|j: int|
                        0 <= j < out@.len() ==> #[trigger] out@[j] == self.interleaved_spec()[j],
                decreases ch - c3,
            {
                let row = &list[c3];
                let v: i64 = if i < row.len() {
                    row[i]
                } else {
                    0
                };
                proof {
                    let j = (i as int) * (ch as int) + c3 as int;
                    vstd::arithmetic::div_mod::lemma_fundamental_div_mod_converse(
                        j,
                        ch as int,
                        i as int,
                        c3 as int,
                    );
                    assert(j < glen * (ch as int)) by (nonlinear_arith)
                        requires
                            j == (i as int) * (ch as int) + c3 as int,
                            0 <= c3 as int,
                            (c3 as int) < ch as int,
                            0 <= i as int,
                            (i as int) < glen;
                }
                out.push(v);
                c3 += 1;
            }
            proof {
                assert((i as int) * (ch as int) + ch as int == (i as int + 1) * (ch as int))
                    by (nonlinear_arith);
            }
            i += 1;
        }
        proof {
            assert(out@ =~= self.interleaved_spec());
            assert forall|ii: int, cc: int|
                0 <= ii < glen && 0 <= cc < self.channel as int implies #[trigger] out@[(
            self.channel as int) * ii + cc] == (if ii < self.channel_data_spec(cc).len() {
                self.channel_data_spec(cc)[ii]
            } else {
                0i64
            }) by {
                let j = (self.channel as int) * ii + cc;
                vstd::arithmetic::div_mod::lemma_fundamental_div_mod_converse(
                    j,
                    self.channel as int,
                    ii,
                    cc,
                );
                assert(0 <= j < glen * (self.channel as int)) by (nonlinear_arith)
                    requires
                        j == (self.channel as int) * ii + cc,
                        0 <= cc,
                        cc < self.channel as int,
                        0 <= ii,
                        ii < glen;
            }
        }
        Ok(out)
    }
}

} // verus!
