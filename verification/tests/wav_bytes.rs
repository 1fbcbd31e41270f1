//! Tests of the WAV byte pipelines: decode, hide, extract, clear, re-encode,
//! all on in-memory buffers built with a real WAV writer.

use std::io::Cursor;
use stego_wave::configuration::{Settings, StegoWaveLib};
use stego_wave::error::StegoError;
use stego_wave::formats::wav::WAV16;
use stego_wave::object::AudioFileSpec;

fn test_settings() -> Settings {
    Settings {
        stego_wave_lib: StegoWaveLib {
            header: "STEG".to_string(),
            default_lsb_deep: 1,
            max_occupancy: 70,
        },
    }
}

fn build_wav16(lsb_deep: u8) -> WAV16 {
    WAV16::builder()
        .lsb_deep(lsb_deep)
        .settings(test_settings())
        .build()
        .unwrap()
}

fn wav_bytes_16(samples: &[i16]) -> Vec<u8> {
    let spec = hound::WavSpec {
        channels: 1,
        sample_rate: 44_100,
        bits_per_sample: 16,
        sample_format: hound::SampleFormat::Int,
    };
    let mut cursor = Cursor::new(Vec::new());
    let mut writer = hound::WavWriter::new(&mut cursor, spec).unwrap();
    for &s in samples {
        writer.write_sample(s).unwrap();
    }
    writer.finalize().unwrap();
    cursor.into_inner()
}

fn wav_bytes_8(samples: &[i8]) -> Vec<u8> {
    let spec = hound::WavSpec {
        channels: 1,
        sample_rate: 44_100,
        bits_per_sample: 8,
        sample_format: hound::SampleFormat::Int,
    };
    let mut cursor = Cursor::new(Vec::new());
    let mut writer = hound::WavWriter::new(&mut cursor, spec).unwrap();
    for &s in samples {
        writer.write_sample(s).unwrap();
    }
    writer.finalize().unwrap();
    cursor.into_inner()
}

#[test]
fn test_hide_and_extract_message() {
    let samples: Vec<i16> = vec![0; 10_000];
    let input = wav_bytes_16(&samples);
    let wav16 = build_wav16(1);

    let message = "Hello World!";
    let password = "qwerty1234";

    let output = wav16.hide_bytes(input, message, password).unwrap();
    let res = wav16.extract_bytes(output, password).unwrap();

    assert_eq!(res, message);
}

#[test]
fn test_incorrect_password() {
    let samples: Vec<i16> = vec![0; 10_000];
    let input = wav_bytes_16(&samples);
    let wav16 = build_wav16(1);

    let message = "Hello World!";
    let password = "qwerty1234";

    let output = wav16.hide_bytes(input, message, password).unwrap();
    let res = wav16.extract_bytes(output, "wrong_password");

    match res {
        Err(StegoError::IncorrectPassword) => (),
        _ => panic!("expected IncorrectPassword"),
    }
}

#[test]
fn test_clear_secret_message() {
    let samples: Vec<i16> = vec![0; 10_000];
    let input = wav_bytes_16(&samples);
    let wav16 = build_wav16(1);

    let message = "Hello World!";
    let password = "qwerty1234";

    let hidden = wav16.hide_bytes(input, message, password).unwrap();
    let res = wav16.extract_bytes(hidden.clone(), password).unwrap();
    assert_eq!(res, message);

    let cleared = wav16.clear_bytes(hidden, password).unwrap();

    match wav16.extract_bytes(cleared, password) {
        Err(StegoError::IncorrectPassword) => (),
        _ => panic!("expected IncorrectPassword after clear"),
    }
}

#[test]
fn test_incorrect_bits_per_sample() {
    let samples: Vec<i8> = vec![0; 10_000];
    let input = wav_bytes_8(&samples);
    let wav16 = build_wav16(1);

    match wav16.hide_bytes(input, "test", "rest") {
        Err(StegoError::InvalidFile(err)) => {
            assert_eq!(err, "Only 16-bit WAV file supported")
        }
        _ => panic!("expected InvalidFile"),
    }
}

#[test]
fn test_read_write_round_trip_preserves_spec_and_samples() {
    let samples: Vec<i16> = vec![7, -7, 32767, -32768, 0, 1];
    let input = wav_bytes_16(&samples);
    let wav16 = build_wav16(1);

    let (decoded, spec) = wav16.read_samples_from_byte(input).unwrap();
    assert_eq!(decoded, samples);

    let reencoded = wav16.write_samples_to_byte(spec, &decoded).unwrap();
    let (decoded2, spec2) = wav16.read_samples_from_byte(reencoded).unwrap();

    assert_eq!(decoded2, decoded);
    assert_eq!(spec2, spec);
    let AudioFileSpec::Wav(s) = spec2;
    assert_eq!(s.channels, 1);
    assert_eq!(s.sample_rate, 44_100);
    assert_eq!(s.bits_per_sample, 16);
}

#[test]
fn test_garbage_bytes_are_rejected() {
    let wav16 = build_wav16(1);
    let garbage = vec![0u8, 1, 2, 3, 4, 5, 6, 7];
    match wav16.read_samples_from_byte(garbage) {
        Err(StegoError::Other(msg)) => assert_eq!(msg, "Error reading WAV"),
        _ => panic!("expected a decode failure"),
    }
}

#[test]
fn test_hidden_audio_survives_reencoding() {
    // The output of hide decodes, re-encodes and still carries the message.
    let samples: Vec<i16> = vec![1234; 5_000];
    let input = wav_bytes_16(&samples);
    let wav16 = build_wav16(2);

    let hidden = wav16.hide_bytes(input, "survives", "pw").unwrap();
    let (decoded, spec) = wav16.read_samples_from_byte(hidden).unwrap();
    let reencoded = wav16.write_samples_to_byte(spec, &decoded).unwrap();

    assert_eq!(wav16.extract_bytes(reencoded, "pw").unwrap(), "survives");
}

#[test]
fn test_error_display_text() {
    assert_eq!(
        StegoError::IncorrectPassword.display_text(),
        "Error password is incorrect"
    );
    assert_eq!(
        StegoError::FailedToReceiveMessage.display_text(),
        "Could not receive message, file may be corrupted"
    );
    assert_eq!(
        StegoError::NotEnoughSamples(1006).display_text(),
        "NotEnoughSamplesError: minimum required 1006"
    );
    assert_eq!(
        StegoError::InvalidFile("Only 16-bit WAV file supported".to_string()).display_text(),
        "InvalidFileError: Only 16-bit WAV file supported"
    );
    assert_eq!(
        StegoError::Other("Error reading WAV".to_string()).display_text(),
        "Error reading WAV"
    );
}

#[test]
fn test_default_filename() {
    assert_eq!(build_wav16(1).default_filename(), "wav_16.wav");
}

#[test]
fn test_get_mask() {
    assert_eq!(build_wav16(1).get_mask(), 0b1);
    assert_eq!(build_wav16(2).get_mask(), 0b11);
    assert_eq!(build_wav16(15).get_mask(), 0x7FFF);
    assert_eq!(build_wav16(16).get_mask(), -1);
}

#[test]
fn test_write_rejects_block_align_overflow() {
    // Bytes per sample times channels must fit the container's 16-bit block
    // align field; a spec that overflows it is refused rather than written
    // as a header that no longer decodes.
    let wav16 = build_wav16(1);
    let spec = stego_wave::object::AudioFileSpec::Wav(stego_wave::object::AudioSpec {
        channels: 32_768,
        sample_rate: 1,
        bits_per_sample: 16,
        sample_format: stego_wave::object::WavSampleFormat::Int,
    });
    let samples: Vec<i16> = vec![0; 32_768];
    match wav16.write_samples_to_byte(spec, &samples) {
        Err(StegoError::HoundError(msg)) => assert_eq!(msg, "unsupported WAV spec"),
        _ => panic!("expected the spec to be refused"),
    }
}
