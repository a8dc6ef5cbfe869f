use sound_sampler::envelope::Envelope;
use sound_sampler::note::Note;
use sound_sampler::source::{fade_in_out, fit_length};
use sound_sampler::utils::{normalize_data, resample_data, resample_linear, Ratio};

fn max_abs_of(data: &[i64]) -> i64 {
    let mut m: i64 = 0;
    for &s in data {
        let a = s.abs();
        if a > m {
            m = a;
        }
    }
    m
}

#[test]
fn resample_unit_factor_is_identity() {
    let data = vec![0i64, 123, -456, 32768, -32768, 7];
    let out = resample_linear(data.clone(), Ratio::unit());
    assert_eq!(out, data);
}

#[test]
fn resample_same_rates_is_identity() {
    let data = vec![5i64, 10, 15];
    let out = resample_data(data.clone(), 48000, 48000);
    assert_eq!(out, data);
}

#[test]
fn resample_empty_is_empty() {
    let out = resample_linear(Vec::new(), Ratio::new(2, 1));
    assert_eq!(out.len(), 0);
}

#[test]
fn resample_downsample_by_two() {
    let data = vec![0i64, 100, 200, 300];
    let out = resample_linear(data, Ratio::new(2, 1));
    assert_eq!(out, vec![0i64, 200]);
}

#[test]
fn resample_upsample_by_two_interpolates() {
    let data = vec![0i64, 100];
    let out = resample_linear(data, Ratio::new(1, 2));
    assert_eq!(out, vec![0i64, 50, 100, 100]);
}

#[test]
fn resample_non_empty_yields_at_least_one() {
    let data = vec![42i64, 43];
    let out = resample_linear(data, Ratio::new(100, 1));
    assert_eq!(out, vec![42i64]);
}

#[test]
fn normalize_scales_peak_exactly() {
    let data = vec![100i64, -200, 50];
    let out = normalize_data(data, 32768);
    assert_eq!(out, vec![16384i64, -32768, 8192]);
    assert_eq!(max_abs_of(&out), 32768);
}

#[test]
fn normalize_silence_is_identity() {
    let data = vec![0i64, 0, 0];
    let out = normalize_data(data.clone(), 32768);
    assert_eq!(out, data);
}

#[test]
fn normalize_to_half_gain() {
    let data = vec![32768i64, -16384];
    let out = normalize_data(data, 16384);
    assert_eq!(out, vec![16384i64, -8192]);
    assert_eq!(max_abs_of(&out), 16384);
}

#[test]
fn envelope_attack_sustain_and_looped_tail() {
    // Four samples at four samples per second; half a second of attack,
    // no decay, sustain at half gain, one second of release.
    let env = Envelope::new(32768, 0, 16384, 65536);
    let note = Note::new(vec![32768i64, 32768, 32768, 32768], 4, None);
    let out = env.apply(note);
    assert_eq!(out.sample_rate(), 4);
    assert_eq!(
        out.data(),
        &vec![0i64, 16384, 16384, 16384, 16384, 16384, 16384, 16384]
    );
}

#[test]
fn envelope_zero_attack_is_full_gain() {
    let env = Envelope::new(0, 0, 32768, 0);
    let note = Note::new(vec![1000i64, -1000], 48000, None);
    let out = env.apply(note);
    assert_eq!(out.data(), &vec![1000i64, -1000]);
}

#[test]
fn envelope_on_empty_note_has_no_tail() {
    let env = Envelope::new(0, 0, 32768, 65536);
    let note = Note::new(Vec::new(), 48000, None);
    let out = env.apply(note);
    assert_eq!(out.data().len(), 0);
}

#[test]
fn fit_length_tiles_and_truncates() {
    // 2.5 seconds at two samples per second: five samples, tiling the
    // three-sample buffer.
    let note = Note::new(vec![1i64, 2, 3], 2, None);
    let out = fit_length(note, 163840);
    assert_eq!(out.data(), &vec![1i64, 2, 3, 1, 2]);
    let note = Note::new(vec![1i64, 2, 3], 2, None);
    let out = fit_length(note, 65536);
    assert_eq!(out.data(), &vec![1i64, 2]);
}

#[test]
fn fit_length_of_empty_buffer_is_silence() {
    let note = Note::new(Vec::new(), 2, None);
    let out = fit_length(note, 65536);
    assert_eq!(out.data(), &vec![0i64, 0]);
}

#[test]
fn fade_ramps_both_ends() {
    // Half a second at four samples per second: a two-sample ramp at
    // each end.
    let note = Note::new(vec![32768i64, 32768, 32768, 32768], 4, None);
    let out = fade_in_out(note, 32768);
    assert_eq!(out.data(), &vec![0i64, 16384, 16384, 0]);
}

#[test]
fn envelope_sustain_above_unit_amplifies() {
    // Sustain is not clamped to unit gain: a sustain of two doubles the
    // samples.
    let env = Envelope::new(0, 0, 65536, 0);
    let note = Note::new(vec![1000i64, -1000], 48000, None);
    let out = env.apply(note);
    assert_eq!(out.data(), &vec![2000i64, -2000]);
}

#[test]
fn envelope_decay_slides_to_sustain() {
    // One sample per second: attack 0, decay 2 s, sustain 0.
    let env = Envelope::new(0, 131072, 0, 0);
    let note = Note::new(vec![32768i64, 32768, 32768, 32768], 1, None);
    let out = env.apply(note);
    // Gains: 1, 1/2, 0 (sustain), 0.
    assert_eq!(out.data(), &vec![32768i64, 16384, 0, 0]);
}
