//! Tests of the byte unpacker, the index stream, and the binary codec
//! operations on sample buffers.

use stego_wave::configuration::{Settings, StegoWaveLib};
use stego_wave::error::StegoError;
use stego_wave::formats::wav::WAV16;
use stego_wave::object::{ByteIterator, UniqueRandomIndices};

fn test_settings() -> Settings {
    Settings {
        stego_wave_lib: StegoWaveLib {
            header: "STEG".to_string(),
            default_lsb_deep: 1,
            max_occupancy: 70,
        },
    }
}

fn build_wav16(lsb_deep: u8) -> WAV16 {
    WAV16::builder()
        .lsb_deep(lsb_deep)
        .settings(test_settings())
        .build()
        .unwrap()
}

#[test]
fn test_single_byte() {
    let samples: Vec<i16> = vec![1, 0, 0, 1];
    let indices: Vec<usize> = (0..samples.len()).collect();

    let byte_iter = ByteIterator::new(&samples, indices, 3, 2, 0, 0);
    let result: Vec<u8> = byte_iter.collect_bytes();

    assert_eq!(result, vec![0x41]);
}

#[test]
fn test_multiple_bytes() {
    let samples: Vec<i16> = vec![1, 0, 2, 0, 1, 2, 2, 1];
    let indices: Vec<usize> = (0..samples.len()).collect();

    let byte_iter = ByteIterator::new(&samples, indices, 3, 2, 0, 0);
    let result: Vec<u8> = byte_iter.collect_bytes();

    assert_eq!(result, vec![0x48, 0x69]);
}

#[test]
fn test_random_iterator() {
    let mut iter = UniqueRandomIndices::new(200, "_", 70);

    assert_eq!(iter.next(), Some(155));
    assert_eq!(iter.next(), Some(142));
}

#[test]
fn test_first_indices_regression() {
    // The first three indices for 200 samples at occupancy 70 under the
    // password "_" are pinned so that the hash, the generator seeding and
    // the rejection sampling stay byte-identical across runs.
    let mut iter = UniqueRandomIndices::new(200, "_", 70);

    assert_eq!(iter.next(), Some(155));
    assert_eq!(iter.next(), Some(142));
    assert_eq!(iter.next(), Some(187));
}

#[test]
fn test_stream_is_exhaustible() {
    let mut iter = UniqueRandomIndices::new(10, "pw", 100);
    let mut seen = Vec::new();
    while let Some(i) = iter.next() {
        assert!(i < 10);
        assert!(!seen.contains(&i));
        seen.push(i);
    }
    assert_eq!(seen.len(), 10);
}

#[test]
fn extract_message_binary_success() {
    let sample: &mut Vec<i16> = &mut vec![8; 1_000];
    for i in 1..17 {
        let wav16 = build_wav16(i);

        wav16
            .hide_message_binary(sample, &format!("{i} test {i}"), "_")
            .unwrap();
        let res = wav16.extract_message_binary(sample, "_").unwrap();
        assert_eq!(res, format!("{i} test {i}"));
    }
}

#[test]
fn extract_message_binary_failed() {
    let sample: &mut Vec<i16> = &mut vec![8; 1_000];
    let wav16 = build_wav16(1);

    wav16.hide_message_binary(sample, "test", "qwerty1").unwrap();

    assert!(wav16.extract_message_binary(sample, "qwerty2").is_err());
    assert!(wav16.extract_message_binary(sample, "qwerty").is_err());
    assert!(wav16.extract_message_binary(sample, "qwerty1").is_ok());
    assert!(wav16.extract_message_binary(sample, "qwerty1").is_ok());
}

#[test]
fn test_wrong_password_is_incorrect_password() {
    let sample: &mut Vec<i16> = &mut vec![0; 10_000];
    let wav16 = build_wav16(1);

    wav16
        .hide_message_binary(sample, "Hello World!", "qwerty1234")
        .unwrap();

    match wav16.extract_message_binary(sample, "wrong_password") {
        Err(StegoError::IncorrectPassword) => (),
        _ => panic!("expected IncorrectPassword"),
    }
}

#[test]
fn test_clear_binary_removes_message() {
    let sample: &mut Vec<i16> = &mut vec![0; 10_000];
    let wav16 = build_wav16(1);

    wav16
        .hide_message_binary(sample, "Hello World!", "qwerty1234")
        .unwrap();
    assert_eq!(
        wav16.extract_message_binary(sample, "qwerty1234").unwrap(),
        "Hello World!"
    );

    wav16.clear_secret_message_binary(sample, "qwerty1234").unwrap();

    match wav16.extract_message_binary(sample, "qwerty1234") {
        Err(StegoError::IncorrectPassword) => (),
        _ => panic!("expected IncorrectPassword after clear"),
    }
}

#[test]
fn test_clear_with_wrong_password_leaves_buffer() {
    let sample: &mut Vec<i16> = &mut vec![3; 2_000];
    let wav16 = build_wav16(2);

    wav16.hide_message_binary(sample, "secret", "right").unwrap();
    let before = sample.clone();

    match wav16.clear_secret_message_binary(sample, "wrong") {
        Err(StegoError::IncorrectPassword) => (),
        _ => panic!("expected IncorrectPassword"),
    }
    assert_eq!(*sample, before);
    assert_eq!(
        wav16.extract_message_binary(sample, "right").unwrap(),
        "secret"
    );
}

#[test]
fn test_capacity_boundary() {
    // 1000 samples at depth 1 and occupancy 70 hold 700 usable bits, so the
    // frame (header "STEG", message, NUL) may span 87 bytes: 82 message
    // bytes fit, 83 do not.
    let wav16 = build_wav16(1);
    let fitting = "x".repeat(82);
    let overflowing = "x".repeat(83);

    let sample: &mut Vec<i16> = &mut vec![0; 1_000];
    assert!(wav16.hide_message_binary(sample, &fitting, "pw").is_ok());

    let sample2: &mut Vec<i16> = &mut vec![0; 1_000];
    let before = sample2.clone();
    match wav16.hide_message_binary(sample2, &overflowing, "pw") {
        Err(StegoError::NotEnoughSamples(required)) => {
            assert_eq!(required, 1006);
            assert!(required > 1_000);
        }
        _ => panic!("expected NotEnoughSamples"),
    }
    assert_eq!(*sample2, before);
}

#[test]
fn test_round_trip_non_ascii_message() {
    let sample: &mut Vec<i16> = &mut vec![-5; 4_000];
    let wav16 = build_wav16(4);

    wav16
        .hide_message_binary(sample, "héllo wörld ☂", "päss")
        .unwrap();
    assert_eq!(
        wav16.extract_message_binary(sample, "päss").unwrap(),
        "héllo wörld ☂"
    );
}

#[test]
fn test_untouched_buffer_has_no_message() {
    let wav16 = build_wav16(1);
    let sample: Vec<i16> = vec![0; 1_000];
    match wav16.extract_message_binary(&sample, "any") {
        Err(StegoError::IncorrectPassword) => (),
        _ => panic!("expected IncorrectPassword on an empty buffer"),
    }
}

#[test]
fn test_builder_rejects_bad_depth() {
    for bad in [0u8, 17, 255] {
        let err = WAV16::builder()
            .lsb_deep(bad)
            .settings(test_settings())
            .build()
            .unwrap_err();
        assert_eq!(err, "lsb_deep must be between 1 and 16");
    }
}

#[test]
fn test_builder_requires_settings() {
    assert!(WAV16::builder().lsb_deep(1).build().is_err());
}

#[test]
fn test_builder_rejects_bad_settings() {
    let bad = Settings {
        stego_wave_lib: StegoWaveLib {
            header: String::new(),
            default_lsb_deep: 1,
            max_occupancy: 70,
        },
    };
    assert!(WAV16::builder().lsb_deep(1).settings(bad).build().is_err());

    let bad_occ = Settings {
        stego_wave_lib: StegoWaveLib {
            header: "STEG".to_string(),
            default_lsb_deep: 1,
            max_occupancy: 0,
        },
    };
    assert!(WAV16::builder().lsb_deep(1).settings(bad_occ).build().is_err());
}

#[test]
fn test_embed_stops_after_terminator_chunk() {
    // At depth 8 every frame byte is exactly one chunk; the sample the stream
    // would visit right after the terminator's chunk keeps its value.
    let wav16 = build_wav16(8);
    let mut sample: Vec<i16> = vec![-1; 1_000];
    let mut iter = UniqueRandomIndices::new(1_000, "pw", 70);
    let mut visited = Vec::new();
    for _ in 0..8 {
        visited.push(iter.next().unwrap());
    }

    wav16.hide_message_binary(&mut sample, "ab", "pw").unwrap();

    let frame: [u8; 7] = [b'S', b'T', b'E', b'G', b'a', b'b', 0];
    for (j, &byte) in frame.iter().enumerate() {
        assert_eq!(sample[visited[j]] as u16, 0xFF00 | byte as u16);
    }
    assert_eq!(sample[visited[7]], -1);
    assert_eq!(wav16.extract_message_binary(&sample, "pw").unwrap(), "ab");
}

#[test]
fn test_clear_succeeds_without_terminator() {
    // A buffer whose visited windows spell the header followed only by
    // nonzero bytes still clears: once the password validates, every visited
    // window is zeroed and the call succeeds.
    let wav16 = build_wav16(8);
    let mut sample: Vec<i16> = vec![0; 1_000];
    let mut iter = UniqueRandomIndices::new(1_000, "pw", 70);
    let header = [b'S', b'T', b'E', b'G'];
    let mut visited = Vec::new();
    while let Some(i) = iter.next() {
        let byte = if visited.len() < 4 {
            header[visited.len()]
        } else {
            1
        };
        sample[i] = byte as i16;
        visited.push(i);
    }

    wav16.clear_secret_message_binary(&mut sample, "pw").unwrap();

    for &i in &visited {
        assert_eq!(sample[i], 0);
    }
    match wav16.extract_message_binary(&sample, "pw") {
        Err(StegoError::IncorrectPassword) => (),
        _ => panic!("expected IncorrectPassword after clear"),
    }
}
