//! Audio from WAV files in memory.
use vstd::prelude::*;

verus! {

/// The errors of the WAV reader.
#[verifier::external_type_specification]
#[verifier::external_body]
pub struct ExHoundError(hound::Error);

/// The sample rate that the header of a WAV file names, and whether its
/// samples are floating-point numbers; `None` if the header cannot be read.
pub uninterp spec fn wav_format_of(bytes: Seq<u8>) -> Option<(u32, bool)>;

/// All samples of a WAV file, channels interleaved, as 16-bit integers; `None`
/// if the file or one of its samples cannot be read so.
pub uninterp spec fn wav_pcm_of(bytes: Seq<u8>) -> Option<Seq<i16>>;

/// `hound::WavReader::new` on a cursor over `bytes`, and `WavReader::spec`: the
/// result follows from the bytes alone, and is named.
#[verifier::external_body]
fn wav_format(bytes: &[u8]) -> (r: Result<(u32, bool), hound::Error>)
    ensures
        match r {
            Ok(format) => wav_format_of(bytes@) == Some(format),
            Err(_) => wav_format_of(bytes@) is None,
        },
{
    let spec = hound::WavReader::new(std::io::Cursor::new(bytes))?.spec();
    let is_float = match spec.sample_format {
        hound::SampleFormat::Float => true,
        hound::SampleFormat::Int => false,
    };
    Ok((spec.sample_rate, is_float))
}

/// `hound::WavReader::samples` of type `i16` on a cursor over `bytes`, up to
/// the first error: the result follows from the bytes alone, and is named.
#[verifier::external_body]
fn wav_pcm(bytes: &[u8]) -> (r: Result<Vec<i16>, hound::Error>)
    ensures
        match r {
            Ok(samples) => wav_pcm_of(bytes@) == Some(samples@),
            Err(_) => wav_pcm_of(bytes@) is None,
        },
{
    hound::WavReader::new(std::io::Cursor::new(bytes))?.samples::<i16>().collect()
}

/// What a WAV file holds, channels interleaved.
#[derive(Debug)]
pub enum Samples {
    /// Integers, in units of 1/32768.
    Pcm(Vec<i16>),
    /// Floating-point numbers of single precision, as their bits.
    Float(Vec<u32>),
}

/// Decoded audio.
#[derive(Debug)]
pub struct Wave {
    pub samples: Samples,
    pub sample_rate: u32,
}

/// Why a WAV file cannot be decoded.
#[derive(Debug)]
pub enum WavError {
    /// Its header cannot be read.
    Header(hound::Error),
    /// One of its samples cannot be read.
    Sample(hound::Error),
}

/// The audio of a file with the given format, whose samples are `pcm` read as
/// integers and `floats` read as floating-point numbers; `None` if they could
/// not be read in the way of the format.
pub fn decode_wav(
    sample_rate: u32,
    is_float: bool,
    pcm: Option<Vec<i16>>,
    floats: Option<Vec<u32>>,
) -> (r: Option<Wave>)
    ensures
        is_float ==> r == (match floats {
            Some(bits) => Some(Wave { samples: Samples::Float(bits), sample_rate }),
            None => None,
        }),
        !is_float ==> r == (match pcm {
            Some(samples) => Some(Wave { samples: Samples::Pcm(samples), sample_rate }),
            None => None,
        }),
{
    if is_float {
        match floats {
            Some(bits) => Some(Wave { samples: Samples::Float(bits), sample_rate }),
            None => None,
        }
    } else {
        match pcm {
            Some(samples) => Some(Wave { samples: Samples::Pcm(samples), sample_rate }),
            None => None,
        }
    }
}

/// Decode a WAV file in memory. Integer samples of up to 16 bits are taken as
/// they are. `floats` is what reading the samples of `bytes` as floating-point
/// numbers gave; it counts only for a file that has such samples, and then a
/// failure there is a failure here.
pub fn load_wav_from_bytes(bytes: &[u8], floats: Result<Vec<u32>, hound::Error>) -> (r: Result<
    Wave,
    WavError,
>)
    ensures
        match wav_format_of(bytes@) {
            None => r is Err && r->Err_0 is Header,
            Some((rate, true)) => match floats {
                Err(e) => r == Err::<Wave, WavError>(WavError::Sample(e)),
                Ok(bits) => r == Ok::<Wave, WavError>(
                    (Wave { samples: Samples::Float(bits), sample_rate: rate }),
                ),
            },
            Some((rate, false)) => match wav_pcm_of(bytes@) {
                None => r is Err && r->Err_0 is Sample,
                Some(samples) => r is Ok && r->Ok_0.samples is Pcm && r->Ok_0.samples->Pcm_0@
                    == samples && r->Ok_0.sample_rate == rate,
            },
        },
{
    let (rate, is_float) = match wav_format(bytes) {
        Ok(format) => format,
        Err(e) => return Err(WavError::Header(e)),
    };
    let (pcm, bits) = if is_float {
        match floats {
            Ok(bits) => (None, Some(bits)),
            Err(e) => return Err(WavError::Sample(e)),
        }
    } else {
        match wav_pcm(bytes) {
            Ok(samples) => (Some(samples), None),
            Err(e) => return Err(WavError::Sample(e)),
        }
    };
    Ok(decode_wav(rate, is_float, pcm, bits).unwrap())
}

} // verus!
