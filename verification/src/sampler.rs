//! The sampled-waveform sound source: its base waveform is decoded
//! once, at construction, from a WAV container.

use std::io::Cursor;
use vstd::prelude::*;

use crate::error::LoadError;
use crate::fixed::{lemma_scale_magnitude, sample_ok, scale_spec, scale_value, BASE_LIMIT, LEN_LIMIT};
use crate::note::Note;

verus! {

#[verifier::external_type_specification]
#[verifier::external_body]
pub struct ExHoundError(hound::Error);

/// Whether a byte stream parses as a WAV container holding integer
/// samples (hound's decoder accepts it); decoding an in-memory byte
/// slice is a function of the bytes alone.
pub uninterp spec fn wav_decodes(bytes: Seq<u8>) -> bool;

/// The integer samples a decodable WAV byte stream holds.
pub uninterp spec fn wav_int_samples(bytes: Seq<u8>) -> Seq<i64>;

/// The sample rate a decodable WAV byte stream declares in its header.
pub uninterp spec fn wav_int_rate(bytes: Seq<u8>) -> u32;

/// Relies on `hound::WavReader`: parses a WAV container from the byte
/// stream and decodes its interleaved integer samples (any depth up to
/// 32 bits, widened to 64 bits) together with the declared sample rate.
/// A malformed container, an unsupported encoding and float-typed
/// samples are refused with the decoder's error; a sample that cannot
/// be read decodes as zero.
#[verifier::external_body]
fn decode_wav_int(bytes: &Vec<u8>) -> (r: Result<(Vec<i64>, u32), hound::Error>)
    ensures
        r is Ok <==> wav_decodes(bytes@),
        r matches Ok(d) ==> d.0@ == wav_int_samples(bytes@) && d.1 == wav_int_rate(bytes@)
            && forall|i: int|
            0 <= i < d.0@.len() ==> -0x8000_0000 <= #[trigger] d.0@[i] <= 0x7fff_ffff,
{
    let mut reader = match hound::WavReader::new(Cursor::new(bytes.as_slice())) {
        Ok(reader) => reader,
        Err(e) => return Err(e),
    };
    let spec = reader.spec();
    if spec.sample_format == hound::SampleFormat::Float {
        return Err(hound::Error::InvalidSampleFormat);
    }
    let data: Vec<i64> = reader.samples::<i32>().map(|s| s.unwrap_or(0) as i64).collect();
    Ok((data, spec.sample_rate))
}

/// Decoded integer samples brought to the engine's amplitude scale:
/// every sample is divided by the 16-bit signed maximum (not by its own
/// native bit depth), the fixed normalization reference of the score
/// format.
pub open spec fn rescale_spec(raw: Seq<i64>) -> Seq<i64> {
    Seq::new(raw.len(), |i: int| scale_spec(raw[i] as int, 32768, 32767) as i64)
}

/// A sound source whose base waveform was supplied from the outside as
/// a WAV container; the container's path is retained for round-tripping
/// to a score description.
pub struct Sampler {
    pub src_file: String,
    pub base: Note,
}

impl Sampler {
    pub open spec fn wf(self) -> bool {
        &&& self.base.wf()
        &&& self.base.envelope is None
        &&& forall|i: int|
            0 <= i < self.base.data@.len() ==> -(BASE_LIMIT as int) <= (
            #[trigger] self.base.data@[i]) as int <= BASE_LIMIT as int
    }

    /// Builds the source from already-decoded raw integer samples (in
    /// the 32-bit signed range) and their sample rate.  A zero rate or
    /// an over-long buffer is unsupported.
    #[verifier::loop_isolation(false)]
    pub fn from_samples(src_file: String, data: Vec<i64>, sample_rate: u32) -> (r: Result<
        Sampler,
        LoadError,
    >)
        requires
            forall|i: int|
                0 <= i < data@.len() ==> -0x8000_0000 <= #[trigger] data@[i] <= 0x7fff_ffff,
        ensures
            sample_rate == 0 || data@.len() > LEN_LIMIT ==> r == Err::<Sampler, LoadError>(
                LoadError::Unsupported,
            ),
            sample_rate >= 1 && data@.len() <= LEN_LIMIT ==> (r matches Ok(s) && {
                &&& s.base.data@ == rescale_spec(data@)
                &&& s.base.sample_rate == sample_rate
                &&& s.base.envelope is None
                &&& s.src_file@ == src_file@
                &&& s.wf()
            }),
    {
        if sample_rate == 0 || data.len() > LEN_LIMIT {
            return Err(LoadError::Unsupported);
        }
        let mut out: Vec<i64> = Vec::new();
        let mut i: usize = 0;
        while i < data.len()
            invariant
                i <= data@.len(),
                out@.len() == i,
                forall|k: int|
                    0 <= k < i ==> out@[k] == scale_spec(data@[k] as int, 32768, 32767) as i64
                        && sample_ok(#[trigger] out@[k]) && -(BASE_LIMIT as int) <= out@[k] as int
                        <= BASE_LIMIT as int,
            decreases data@.len() - i,
        {
            proof {
                lemma_scale_magnitude(data@[i as int] as int, 32768, 32767, 0x8000_0000int);
            }
            out.push(scale_value(data[i], 32768, 32767));
            i += 1;
        }
        proof {
            assert(out@ =~= rescale_spec(data@));
        }
        Ok(Sampler { src_file, base: Note::new(out, sample_rate, None) })
    }

    /// Builds the source by decoding a WAV container's bytes.  Whatever
    /// the decoder refuses is surfaced here, before any note is
    /// rendered; no partially-loaded source is returned.
    pub fn new(src_file: String, bytes: &Vec<u8>) -> (r: Result<Sampler, LoadError>)
        ensures
            r is Ok <==> wav_decodes(bytes@) && wav_int_rate(bytes@) >= 1 && wav_int_samples(
                bytes@,
            ).len() <= LEN_LIMIT,
            !wav_decodes(bytes@) ==> r == Err::<Sampler, LoadError>(LoadError::Undecodable),
            wav_decodes(bytes@) && (wav_int_rate(bytes@) == 0 || wav_int_samples(bytes@).len()
                > LEN_LIMIT) ==> r == Err::<Sampler, LoadError>(LoadError::Unsupported),
            r matches Ok(s) ==> {
                &&& s.base.data@ == rescale_spec(wav_int_samples(bytes@))
                &&& s.base.sample_rate == wav_int_rate(bytes@)
                &&& s.base.envelope is None
                &&& s.src_file@ == src_file@
                &&& s.wf()
            },
    {
        match decode_wav_int(bytes) {
            Ok((data, sample_rate)) => Sampler::from_samples(src_file, data, sample_rate),
            Err(_) => Err(LoadError::Undecodable),
        }
    }

    /// The path of the container this source was built from.
    pub fn src_file(&self) -> (r: &String)
        ensures
            r@ == self.src_file@,
    {
        &self.src_file
    }
}

} // verus!
