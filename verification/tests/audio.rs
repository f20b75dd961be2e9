use rt_voice_wasm::audio::{decode_mulaw_8k_to_16k, downmix_i16, mulaw_decode, pcm_from_le_bytes, PcmRing};
use rt_voice_wasm::wav::{parse_wav_i16, wav_fields_fit, WavError};

#[test]
fn mulaw_silence() {
    // μ-law 0xFF is zero (silence)
    assert_eq!(mulaw_decode(0xFF), 0);
}

#[test]
fn mulaw_roundtrip() {
    // μ-law: 0x80 is max positive (~8031), 0x00 is max negative (~-8031)
    let pos_max = mulaw_decode(0x80);
    let neg_max = mulaw_decode(0x00);
    assert!(pos_max > 8000, "pos_max={pos_max}");
    assert!(neg_max < -8000, "neg_max={neg_max}");
}

#[test]
fn decode_mulaw_upsample_length() {
    let input = vec![0xFFu8; 800]; // 100ms of silence at 8kHz
    let out = decode_mulaw_8k_to_16k(&input);
    assert_eq!(out.len(), 1599);
    assert!(out.iter().all(|&s| s == 0));
}

#[test]
fn ring_basic() {
    let mut ring = PcmRing::new(4);
    assert!(!ring.filled());
    ring.push(&[1, 2, 3]);
    assert!(!ring.filled());
    ring.push(&[4]);
    assert!(ring.filled());
    assert_eq!(ring.snapshot(), vec![1, 2, 3, 4]);
}

#[test]
fn ring_wraps() {
    let mut ring = PcmRing::new(4);
    ring.push(&[1, 2, 3, 4, 5]);
    assert_eq!(ring.snapshot(), vec![2, 3, 4, 5]);
}

#[test]
fn downmix_stereo_to_mono_i16() {
    let stereo: Vec<i16> = vec![1000, 0, 500, 500, -1000, -1000];
    let mono = downmix_i16(&stereo, 2);
    assert_eq!(mono.len(), 3);
    assert_eq!(mono[0], 500);
    assert_eq!(mono[1], 500);
    assert_eq!(mono[2], -1000);
}

fn wav_bytes(format: u16, channels: u16, rate: u32, bits: u16, samples: &[i16]) -> Vec<u8> {
    let data_size = (samples.len() * 2) as u32;
    let file_size = 36 + data_size;
    let mut wav = Vec::new();
    wav.extend_from_slice(b"RIFF");
    wav.extend_from_slice(&file_size.to_le_bytes());
    wav.extend_from_slice(b"WAVE");
    wav.extend_from_slice(b"fmt ");
    wav.extend_from_slice(&16u32.to_le_bytes());
    wav.extend_from_slice(&format.to_le_bytes());
    wav.extend_from_slice(&channels.to_le_bytes());
    wav.extend_from_slice(&rate.to_le_bytes());
    wav.extend_from_slice(&(rate * 2 * channels as u32).to_le_bytes());
    wav.extend_from_slice(&(2 * channels).to_le_bytes());
    wav.extend_from_slice(&bits.to_le_bytes());
    wav.extend_from_slice(b"data");
    wav.extend_from_slice(&data_size.to_le_bytes());
    for s in samples {
        wav.extend_from_slice(&s.to_le_bytes());
    }
    wav
}

#[test]
fn read_wav_i16_mono_16k() {
    let samples: Vec<i16> = vec![100, 200, 300, 400, 500];
    let wav = wav_bytes(1, 1, 16000, 16, &samples);
    assert!(wav_fields_fit(&wav));
    let (out, rate) = parse_wav_i16(&wav).unwrap();
    assert_eq!(rate, 16000);
    assert_eq!(out, samples);
}

#[test]
fn mulaw_sign_symmetry() {
    for b in 0u8..=127 {
        assert_eq!(mulaw_decode(b), -mulaw_decode(b | 0x80));
    }
    assert_eq!(mulaw_decode(0x80), 8031);
    assert_eq!(mulaw_decode(0x7F), 0);
}

#[test]
fn upsample_interpolates_midpoints() {
    // 0x80 -> 8031, 0xFF -> 0: the midpoint is the average, rounded toward zero.
    let out = decode_mulaw_8k_to_16k(&[0x80, 0xFF, 0x80]);
    assert_eq!(out, vec![8031, 4015, 0, 4015, 8031]);
    assert!(decode_mulaw_8k_to_16k(&[]).is_empty());
}

#[test]
fn pcm_from_le_bytes_drops_odd_byte() {
    assert_eq!(pcm_from_le_bytes(&[0x01, 0x00, 0xFF, 0xFF, 0x07]), vec![1, -1]);
}

#[test]
fn downmix_mono_passthrough_i16() {
    let mono_in: Vec<i16> = vec![1, 2, 3];
    assert_eq!(downmix_i16(&mono_in, 1), mono_in);
    // a trailing partial frame is dropped
    assert_eq!(downmix_i16(&[10, 20, 30], 2), vec![15]);
}

#[test]
fn ring_keeps_only_capacity() {
    let mut ring = PcmRing::new(3);
    ring.push(&[1, 2]);
    ring.push(&[3, 4, 5, 6, 7]);
    assert!(ring.filled());
    assert_eq!(ring.snapshot(), vec![5, 6, 7]);
}

#[test]
fn wav_stereo_is_averaged() {
    let wav = wav_bytes(1, 2, 8000, 16, &[100, 300, -50, -150]);
    assert!(wav_fields_fit(&wav));
    let (out, rate) = parse_wav_i16(&wav).unwrap();
    assert_eq!(rate, 8000);
    assert_eq!(out, vec![200, -100]);
}

#[test]
fn wav_errors() {
    assert_eq!(parse_wav_i16(b"RIFF").unwrap_err(), WavError::NotWav);
    let mut not_riff = wav_bytes(1, 1, 16000, 16, &[1, 2]);
    not_riff[0] = b'X';
    assert_eq!(parse_wav_i16(&not_riff).unwrap_err(), WavError::NotWav);

    let float = wav_bytes(3, 1, 16000, 16, &[1, 2]);
    assert!(wav_fields_fit(&float));
    assert_eq!(parse_wav_i16(&float).unwrap_err(), WavError::UnsupportedFormat(3));

    let eight_bit = wav_bytes(1, 1, 16000, 8, &[1, 2]);
    assert!(wav_fields_fit(&eight_bit));
    assert_eq!(parse_wav_i16(&eight_bit).unwrap_err(), WavError::NotSixteenBit(8));

    let mut no_fmt = wav_bytes(1, 1, 16000, 16, &[1, 2]);
    no_fmt[12..16].copy_from_slice(b"junk");
    assert!(wav_fields_fit(&no_fmt));
    assert_eq!(parse_wav_i16(&no_fmt).unwrap_err(), WavError::NoFmtChunk);

    let mut no_data = wav_bytes(1, 1, 16000, 16, &[1, 2]);
    no_data[36..40].copy_from_slice(b"junk");
    assert!(wav_fields_fit(&no_data));
    assert_eq!(parse_wav_i16(&no_data).unwrap_err(), WavError::NoDataChunk);
}

#[test]
fn wav_data_size_past_end_does_not_fit() {
    let mut wav = wav_bytes(1, 1, 16000, 16, &[1, 2]);
    let huge = 1000u32.to_le_bytes();
    wav[40..44].copy_from_slice(&huge);
    assert!(!wav_fields_fit(&wav));
}

#[test]
fn mulaw_monotone_halves() {
    for b in 0u8..127 {
        assert!(mulaw_decode(b) < mulaw_decode(b + 1));
    }
    for b in 128u8..255 {
        assert!(mulaw_decode(b) > mulaw_decode(b + 1));
    }
    assert_eq!((mulaw_decode(0x00), mulaw_decode(0x7F), mulaw_decode(0x80), mulaw_decode(0xFF)), (-8031, 0, 8031, 0));
}
