use sound_sampler::envelope::Envelope;
use sound_sampler::error::IndexError;
use sound_sampler::note::Note;
use sound_sampler::score::{Score, ScoreNote, ScorePart, ScorePartSource};
use sound_sampler::track::{InstrumentTrack, Mixdown};

/// Unit gain, in the fixed-point amplitude scale.
const UNIT: i64 = 32768;

fn max_abs_of(data: &[i64]) -> i64 {
    let mut m: i64 = 0;
    for &s in data {
        let a = s.abs();
        if a > m {
            m = a;
        }
    }
    m
}

fn track_with(data: Vec<i64>, sample_rate: u32, volume: i64) -> InstrumentTrack {
    let mut track = InstrumentTrack::new(sample_rate, volume);
    track.add_note(Note::new(data, sample_rate, None));
    track
}

#[test]
fn index_error_carries_index_and_len() {
    let e = IndexError::new(5, 2);
    assert_eq!(e.index(), 5);
    assert_eq!(e.len(), 2);
}

#[test]
fn add_note_appends_sequentially() {
    let mut track = InstrumentTrack::new(48000, UNIT);
    assert_eq!(track.length(), 0);
    track.add_note(Note::new(vec![1i64, 2, 3], 48000, None));
    track.add_note(Note::new(vec![4i64, 5], 48000, None));
    assert_eq!(track.length(), 5);
    assert_eq!(track.sample_rate(), 48000);
}

#[test]
fn add_note_resamples_to_track_rate() {
    let mut track = InstrumentTrack::new(24000, UNIT);
    // A note at twice the track's rate shrinks to half its length.
    track.add_note(Note::new(vec![0i64, 100, 200, 300], 48000, None));
    assert_eq!(track.length(), 2);
}

#[test]
fn track_data_is_normalized_to_volume() {
    let track = track_with(vec![100i64, -200, 50], 48000, 16384);
    let out = track.data();
    assert_eq!(out, vec![8192i64, -16384, 4096]);
    assert_eq!(max_abs_of(&out), 16384);
}

#[test]
fn out_of_range_channel_fails_and_changes_nothing() {
    let mut mixdown = Mixdown::new(2, 48000);
    let r = mixdown.add_track(2, track_with(vec![1i64], 48000, UNIT));
    assert_eq!(r, Err(IndexError::new(2, 2)));
    let r = mixdown.add_track(5, track_with(vec![1i64], 48000, UNIT));
    assert_eq!(r, Err(IndexError::new(5, 2)));
    // Both channels are still empty: they render to nothing.
    assert_eq!(mixdown.channel_data(0).unwrap().len(), 0);
    assert_eq!(mixdown.channel_data(1).unwrap().len(), 0);
    assert!(mixdown.add_track(1, track_with(vec![1i64], 48000, UNIT)).is_ok());
}

#[test]
fn channel_data_rejects_invalid_index() {
    let mixdown = Mixdown::new(2, 48000);
    assert_eq!(mixdown.channel_data(2), Err(IndexError::new(2, 2)));
}

#[test]
fn empty_channel_renders_to_empty_buffer() {
    let mut mixdown = Mixdown::new(2, 48000);
    mixdown
        .add_track(0, track_with(vec![1000i64, 2000], 48000, UNIT))
        .unwrap();
    // The other channel has no tracks: zero length, zero volume, and
    // normalization leaves the empty buffer untouched.
    assert_eq!(mixdown.channel_data(1).unwrap().len(), 0);
}

#[test]
fn channel_sums_tracks_and_normalizes_to_loudest() {
    let mut mixdown = Mixdown::new(1, 48000);
    mixdown
        .add_track(0, track_with(vec![100i64, 300], 48000, 16384))
        .unwrap();
    mixdown
        .add_track(0, track_with(vec![100i64], 48000, UNIT))
        .unwrap();
    // Sums: [200, 300]; loudest volume: unit gain; peak 300 -> 32768.
    let out = mixdown.channel_data(0).unwrap();
    assert_eq!(out, vec![200 * 32768 / 300, 32768]);
}

#[test]
fn interleaved_data_places_channels_in_order() {
    let mut mixdown = Mixdown::new(2, 48000);
    mixdown
        .add_track(0, track_with(vec![32768i64, 16384], 48000, UNIT))
        .unwrap();
    mixdown
        .add_track(1, track_with(vec![8192i64], 48000, UNIT))
        .unwrap();
    let out = mixdown.data().unwrap();
    // Channel 0 renders to [32768, 16384], channel 1 to [32768]; the
    // flattened index `channel_count * i + c` interleaves them, with
    // silence where a channel is short.
    assert_eq!(out.len(), 4);
    assert_eq!(out, vec![32768i64, 32768, 16384, 0]);
}

#[test]
fn mixdown_of_empty_channels_is_empty() {
    let mixdown = Mixdown::new(3, 44100);
    assert_eq!(mixdown.channel(), 3);
    assert_eq!(mixdown.sample_rate(), 44100);
    assert_eq!(mixdown.data().unwrap().len(), 0);
}

#[test]
fn one_sine_beat_renders_one_second_at_full_volume() {
    // One part: a sine source, one note at semitone zero, one beat long,
    // at sixty beats per minute -- exactly one second.
    let part = ScorePart::new(
        ScorePartSource::Sin,
        60 * 65536,
        vec![ScoreNote::new(Some(0), None, 65536)],
        None,
        Some(0),
        None,
    );
    let score = Score::new(1, 48000, vec![part]);
    let sources = vec![score.tracks()[0].source().to_sound_source().unwrap()];
    let mixdown = score.to_mixdown(&sources).unwrap();
    let out = mixdown.data().unwrap();
    assert_eq!(out.len(), 48000);
    // The default volume is unit gain and normalization is exact.
    assert_eq!(max_abs_of(&out), UNIT);
}

#[test]
fn part_envelope_extends_notes_with_release_tail() {
    // Half a beat at sixty beats per minute is half a second (24000
    // samples); a half-second release tail doubles it.
    let part = ScorePart::new(
        ScorePartSource::Triangle,
        60 * 65536,
        vec![ScoreNote::new(Some(0), None, 32768)],
        None,
        None,
        Some(Envelope::new(0, 0, 32768, 32768)),
    );
    let score = Score::new(1, 48000, vec![part]);
    let sources = vec![score.tracks()[0].source().to_sound_source().unwrap()];
    let mixdown = score.to_mixdown(&sources).unwrap();
    assert_eq!(mixdown.channel_data(0).unwrap().len(), 48000);
}

#[test]
fn part_channel_defaults_to_zero() {
    let part = ScorePart::new(
        ScorePartSource::Triangle,
        100 * 65536,
        Vec::new(),
        None,
        None,
        None,
    );
    assert_eq!(part.channel(), 0);
}

#[test]
fn score_render_rejects_out_of_range_part_channel() {
    let part = ScorePart::new(
        ScorePartSource::Triangle,
        120 * 65536,
        vec![ScoreNote::new(None, None, 65536)],
        None,
        Some(3),
        None,
    );
    let score = Score::new(2, 48000, vec![part]);
    let sources = vec![score.tracks()[0].source().to_sound_source().unwrap()];
    let r = score.to_mixdown(&sources);
    assert!(matches!(r, Err(e) if e == IndexError::new(3, 2)));
}

#[test]
fn score_render_places_parts_on_their_channels() {
    let quiet = ScorePart::new(
        ScorePartSource::Triangle,
        60 * 65536,
        vec![ScoreNote::new(Some(0), None, 32768)],
        Some(16384),
        Some(1),
        None,
    );
    let score = Score::new(2, 48000, vec![quiet]);
    let sources = vec![score.tracks()[0].source().to_sound_source().unwrap()];
    let mixdown = score.to_mixdown(&sources).unwrap();
    // Channel 0 stays empty; channel 1 holds half a second at half
    // gain.
    assert_eq!(mixdown.channel_data(0).unwrap().len(), 0);
    let right = mixdown.channel_data(1).unwrap();
    assert_eq!(right.len(), 24000);
    assert_eq!(max_abs_of(&right), 16384);
}
