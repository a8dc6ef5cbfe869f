use std::io::Cursor;

use sound_sampler::error::LoadError;
use sound_sampler::karplus_strong::KarpusStrong;
use sound_sampler::sampler::Sampler;
use sound_sampler::score::{ScorePartSource, SoundSourceChoice};
use sound_sampler::sin::Sin;
use sound_sampler::source::{pitch_shift_semitones, SoundSource};
use sound_sampler::note::Note;
use sound_sampler::triangle::Triangle;

/// One second, in the fixed-point time scale.
const ONE_SECOND: u64 = 65536;

#[test]
fn rest_note_is_silence_of_exact_length() {
    let source = SoundSource::Triangle(Triangle::new());
    let note = source.get_note(ONE_SECOND, None);
    assert_eq!(note.data().len(), 48000);
    assert!(note.data().iter().all(|&s| s == 0));
}

#[test]
fn rest_note_of_zero_duration_is_empty() {
    let source = SoundSource::Sin(Sin::new());
    let note = source.get_note(0, None);
    assert_eq!(note.data().len(), 0);
}

#[test]
fn zero_shift_keeps_base_waveform_between_fades() {
    let source = SoundSource::Sin(Sin::new());
    let base = source.get_base();
    let note = source.get_note(ONE_SECOND, Some(0));
    assert_eq!(note.data().len(), 48000);
    // fade window: max(65536 / 200, 131) = 327 fixed-point seconds,
    // i.e. 327 * 48000 / 65536 = 239 samples at each end.
    for k in 239..(48000 - 239) {
        assert_eq!(note.data()[k], base.data()[k]);
    }
    // The first and last samples are faded to silence.
    assert_eq!(note.data()[0], 0);
}

#[test]
fn octave_up_shift_halves_the_waveform() {
    let note = Note::new(vec![0i64, 100, 200, 300], 48000, None);
    let out = pitch_shift_semitones(note, 12);
    assert_eq!(out.data(), &vec![0i64, 200]);
}

#[test]
fn octave_down_shift_stretches_the_waveform() {
    let note = Note::new(vec![0i64, 100], 48000, None);
    let out = pitch_shift_semitones(note, -12);
    assert_eq!(out.data(), &vec![0i64, 50, 100, 100]);
}

#[test]
fn short_base_tiles_to_fill_the_duration() {
    let sampler = Sampler::from_samples("loop.wav".to_string(), vec![0i64, 10000, -10000, 5000], 4)
        .unwrap();
    let source = SoundSource::Sampler(sampler);
    // Two seconds at four samples per second: the four-sample base
    // repeats twice; the fade window rounds down to zero samples.
    let note = source.get_note(2 * ONE_SECOND, Some(0));
    assert_eq!(
        note.data(),
        &vec![0i64, 10000, -10000, 5000, 0, 10000, -10000, 5000]
    );
}

#[test]
fn generated_bases_are_two_seconds_long() {
    assert_eq!(Sin::new().base.data().len(), 96000);
    assert_eq!(Triangle::new().base.data().len(), 96000);
    assert_eq!(KarpusStrong::new(None).base.data().len(), 96000);
}

#[test]
fn triangle_base_spans_full_amplitude() {
    let base = Triangle::new().base;
    let max = base.data().iter().copied().max().unwrap();
    let min = base.data().iter().copied().min().unwrap();
    assert_eq!(max, 32768);
    assert_eq!(min, -32768);
    assert_eq!(base.data()[0], 0);
}

#[test]
fn sine_base_spans_full_amplitude() {
    let base = Sin::new().base;
    let max = base.data().iter().copied().max().unwrap();
    let min = base.data().iter().copied().min().unwrap();
    assert_eq!(max, 32768);
    assert_eq!(min, -32768);
    assert_eq!(base.data()[0], 0);
}

#[test]
fn same_seed_gives_identical_plucked_strings() {
    let a = KarpusStrong::new(Some(42));
    let b = KarpusStrong::new(Some(42));
    assert_eq!(a.base.data(), b.base.data());
    assert_eq!(a.seed, Some(42));
}

#[test]
fn default_seed_is_deterministic_too() {
    let a = KarpusStrong::new(None);
    let b = KarpusStrong::new(None);
    assert_eq!(a.base.data(), b.base.data());
}

fn wav_bytes(samples: &[i16], sample_rate: u32) -> Vec<u8> {
    let spec = hound::WavSpec {
        channels: 1,
        sample_rate,
        bits_per_sample: 16,
        sample_format: hound::SampleFormat::Int,
    };
    let mut cursor = Cursor::new(Vec::new());
    let mut writer = hound::WavWriter::new(&mut cursor, spec).unwrap();
    for &s in samples {
        writer.write_sample(s).unwrap();
    }
    writer.finalize().unwrap();
    cursor.into_inner()
}

#[test]
fn sampler_decodes_wav_samples() {
    let bytes = wav_bytes(&[0, 16384, -16384, 32767], 8000);
    let sampler = Sampler::new("tone.wav".to_string(), &bytes).unwrap();
    assert_eq!(sampler.base.sample_rate(), 8000);
    // Integer samples are rescaled against the 16-bit signed maximum:
    // the maximum itself maps exactly to unit amplitude.
    assert_eq!(sampler.base.data(), &vec![0i64, 16384, -16384, 32768]);
    assert_eq!(sampler.src_file().as_str(), "tone.wav");
}

#[test]
fn sampler_rejects_garbage_bytes() {
    let bytes = vec![1u8, 2, 3, 4, 5, 6, 7, 8];
    let r = Sampler::new("bad.wav".to_string(), &bytes);
    assert!(matches!(r, Err(LoadError::Undecodable)));
}

#[test]
fn sampler_rejects_zero_sample_rate() {
    let r = Sampler::from_samples("z.wav".to_string(), vec![1i64, 2], 0);
    assert!(matches!(r, Err(LoadError::Unsupported)));
}

#[test]
fn descriptors_round_trip_through_sources() {
    let sin = ScorePartSource::Sin.to_sound_source().unwrap();
    assert_eq!(sin.to_score_part_source(), ScorePartSource::Sin);

    let tri = ScorePartSource::Triangle.to_sound_source().unwrap();
    assert_eq!(tri.to_score_part_source(), ScorePartSource::Triangle);

    let ks = ScorePartSource::KarpusStrong(Some(7)).to_sound_source().unwrap();
    assert_eq!(
        ks.to_score_part_source(),
        ScorePartSource::KarpusStrong(Some(7))
    );

    // A sampled waveform needs its container's bytes: the descriptor
    // alone rebuilds nothing.
    assert!(ScorePartSource::Sampler("a.wav".to_string())
        .to_sound_source()
        .is_none());

    let bytes = wav_bytes(&[100, 200], 8000);
    let sampler = Sampler::new("a.wav".to_string(), &bytes).unwrap();
    let source = SoundSource::Sampler(sampler);
    assert_eq!(
        source.to_score_part_source(),
        ScorePartSource::Sampler("a.wav".to_string())
    );
}

#[test]
fn source_choice_names() {
    assert_eq!(SoundSourceChoice::Sampler.to_str(), "Sampler");
    assert_eq!(SoundSourceChoice::Sin.to_str(), "Sin");
    assert_eq!(SoundSourceChoice::Triangle.to_str(), "Triangle");
    assert_eq!(SoundSourceChoice::KarpusStrong.to_str(), "KarpusStrong");
    assert_eq!(
        SoundSourceChoice::from_source(&ScorePartSource::KarpusStrong(None)),
        SoundSourceChoice::KarpusStrong
    );
    assert_eq!(
        SoundSourceChoice::from_source(&ScorePartSource::Sin),
        SoundSourceChoice::Sin
    );
}

#[test]
fn rest_has_source_rate_and_one_sample() {
    let bytes = wav_bytes(&[1, 2, 3], 22050);
    let sampler = Sampler::new("r.wav".to_string(), &bytes).unwrap();
    let source = SoundSource::Sampler(sampler);
    assert_eq!(source.sample_rate(), 22050);
    let rest = source.get_rest();
    assert_eq!(rest.sample_rate(), 22050);
    assert_eq!(rest.data(), &vec![0i64]);
}
