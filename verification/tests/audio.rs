//! Decoding WAV files.
use stt_bench::wav::{decode_wav, load_wav_from_bytes, Samples, WavError, Wave};

fn wav(tag: u16, bits: u16, rate: u32, data: &[u8]) -> Vec<u8> {
    let block = bits / 8;
    let mut out = Vec::new();
    out.extend_from_slice(b"RIFF");
    out.extend_from_slice(&(36 + data.len() as u32).to_le_bytes());
    out.extend_from_slice(b"WAVEfmt ");
    out.extend_from_slice(&16u32.to_le_bytes());
    out.extend_from_slice(&tag.to_le_bytes());
    out.extend_from_slice(&1u16.to_le_bytes());
    out.extend_from_slice(&rate.to_le_bytes());
    out.extend_from_slice(&(rate * block as u32).to_le_bytes());
    out.extend_from_slice(&block.to_le_bytes());
    out.extend_from_slice(&bits.to_le_bytes());
    out.extend_from_slice(b"data");
    out.extend_from_slice(&(data.len() as u32).to_le_bytes());
    out.extend_from_slice(data);
    out
}

fn float_bits(bytes: &[u8]) -> Result<Vec<u32>, hound::Error> {
    hound::WavReader::new(std::io::Cursor::new(bytes))?
        .samples::<f32>()
        .map(|s| s.map(f32::to_bits))
        .collect()
}

fn load(bytes: &[u8]) -> Result<Wave, WavError> {
    load_wav_from_bytes(bytes, float_bits(bytes))
}

#[test]
fn sixteen_bit_samples() {
    let mut data = Vec::new();
    for s in [2i16, -3, 5, -7, i16::MAX, i16::MIN] {
        data.extend_from_slice(&s.to_le_bytes());
    }
    let wave = load(&wav(1, 16, 16000, &data)).unwrap();
    assert_eq!(wave.sample_rate, 16000);
    match wave.samples {
        Samples::Pcm(v) => assert_eq!(v, vec![2, -3, 5, -7, i16::MAX, i16::MIN]),
        Samples::Float(_) => panic!("integers"),
    }
}

#[test]
fn eight_bit_samples_are_centered() {
    let wave = load(&wav(1, 8, 8000, &[128, 0, 255])).unwrap();
    match wave.samples {
        Samples::Pcm(v) => assert_eq!(v, vec![0, -128, 127]),
        Samples::Float(_) => panic!("integers"),
    }
}

#[test]
fn float_files_are_told_apart() {
    let mut data = Vec::new();
    for x in [0.5f32, -1.25] {
        data.extend_from_slice(&x.to_le_bytes());
    }
    let wave = load(&wav(3, 32, 44100, &data)).unwrap();
    assert_eq!(wave.sample_rate, 44100);
    match wave.samples {
        Samples::Float(bits) => assert_eq!(bits, vec![0.5f32.to_bits(), (-1.25f32).to_bits()]),
        Samples::Pcm(_) => panic!("floats"),
    }
}

#[test]
fn float_files_that_are_cut_short_fail() {
    let mut cut = wav(3, 32, 44100, &0.5f32.to_le_bytes());
    cut.pop();
    assert!(matches!(load(&cut), Err(WavError::Sample(_))));
}

#[test]
fn floats_do_not_count_for_integer_files() {
    let bytes = wav(1, 16, 16000, &[1, 0, 2, 0]);
    assert!(float_bits(&bytes).is_err());
    for floats in [Ok(vec![7]), Err(hound::Error::Unsupported)] {
        let wave = load_wav_from_bytes(&bytes, floats).unwrap();
        assert!(matches!(wave.samples, Samples::Pcm(v) if v == vec![1, 2]));
    }
}

#[test]
fn broken_files() {
    assert!(matches!(load(b"RIFX"), Err(WavError::Header(_))));
    assert!(matches!(load(&[]), Err(WavError::Header(_))));
    let wide = wav(1, 24, 16000, &[1, 2, 3]);
    assert!(matches!(load(&wide), Err(WavError::Sample(_))));
    let mut cut = wav(1, 16, 16000, &[1, 2, 3, 4]);
    cut.pop();
    assert!(matches!(load(&cut), Err(WavError::Sample(_))));
}

#[test]
fn formats_decide() {
    assert!(decode_wav(8000, false, None, Some(vec![9])).is_none());
    assert!(decode_wav(8000, true, Some(vec![1]), None).is_none());
    let w = decode_wav(8000, false, Some(vec![1]), None).unwrap();
    assert!(matches!(w.samples, Samples::Pcm(v) if v == vec![1]));
    let w = decode_wav(8000, true, None, Some(vec![9])).unwrap();
    assert!(matches!(w.samples, Samples::Float(v) if v == vec![9]));
    assert_eq!(w.sample_rate, 8000);
}
