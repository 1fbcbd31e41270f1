//! Tests of the service cores, the multipart payload assembly, the format
//! dispatch, and the command-line data.

use std::io::Cursor;
use stego_wave::cli::{
    Cli, ClearCommand, Commands, CommonFields, ExtractCommand, HideCommand, StegoWaveFormat,
    StegoWaveServer,
};
use stego_wave::configuration::StegoWaveLib;
use stego_wave::error::{GetStegoError, StegoWaveClientError};
use stego_wave::formats::get_stego_by_str;
use stego_wave::grpc::{
    create_chunks, AudioMetadata, AudioRequestExt, ServiceError, StegoWaveServiceImpl,
};
use stego_wave::rest::{parse_u8_dec, MultipartyPayload};

fn lib_settings() -> StegoWaveLib {
    StegoWaveLib {
        header: "STEG".to_string(),
        default_lsb_deep: 1,
        max_occupancy: 70,
    }
}

fn wav_bytes_16(samples: &[i16]) -> Vec<u8> {
    let spec = hound::WavSpec {
        channels: 1,
        sample_rate: 44_100,
        bits_per_sample: 16,
        sample_format: hound::SampleFormat::Int,
    };
    let mut cursor = Cursor::new(Vec::new());
    let mut writer = hound::WavWriter::new(&mut cursor, spec).unwrap();
    for &s in samples {
        writer.write_sample(s).unwrap();
    }
    writer.finalize().unwrap();
    cursor.into_inner()
}

#[test]
fn test_get_stego_by_str_dispatch() {
    assert!(get_stego_by_str("wav16", 1, lib_settings()).is_ok());
    match get_stego_by_str("mp3", 1, lib_settings()) {
        Err(GetStegoError::StegoNotFoundError) => (),
        _ => panic!("expected StegoNotFoundError"),
    }
    match get_stego_by_str("wav16", 0, lib_settings()) {
        Err(GetStegoError::BuildStegoError(msg)) => {
            assert_eq!(msg, "lsb_deep must be between 1 and 16")
        }
        _ => panic!("expected BuildStegoError"),
    }
}

#[test]
fn test_service_round_trip() {
    let service = StegoWaveServiceImpl::new(lib_settings());
    let file = wav_bytes_16(&vec![0i16; 10_000]);

    let hidden = service
        .hide_message(stego_wave::grpc::HideRequest {
            file,
            message: "Hello World!".to_string(),
            password: "qwerty1234".to_string(),
            format: "wav16".to_string(),
            lsb_deep: 1,
        })
        .unwrap();

    let message = service
        .extract_message(stego_wave::grpc::ExtractRequest {
            file: hidden.clone(),
            password: "qwerty1234".to_string(),
            format: "wav16".to_string(),
            lsb_deep: 1,
        })
        .unwrap();
    assert_eq!(message, "Hello World!");

    let cleared = service
        .clear_message(stego_wave::grpc::ClearRequest {
            file: hidden,
            password: "qwerty1234".to_string(),
            format: "wav16".to_string(),
            lsb_deep: 1,
        })
        .unwrap();

    let after = service.extract_message(stego_wave::grpc::ExtractRequest {
        file: cleared,
        password: "qwerty1234".to_string(),
        format: "wav16".to_string(),
        lsb_deep: 1,
    });
    match after {
        Err(ServiceError::Internal(msg)) => {
            assert_eq!(msg, "Error password is incorrect")
        }
        _ => panic!("expected an internal error after clear"),
    }
}

#[test]
fn test_service_rejects_unknown_format() {
    let service = StegoWaveServiceImpl::new(lib_settings());
    let res = service.extract_message(stego_wave::grpc::ExtractRequest {
        file: Vec::new(),
        password: "pw".to_string(),
        format: "flac".to_string(),
        lsb_deep: 1,
    });
    match res {
        Err(ServiceError::InvalidArgument(msg)) => {
            assert_eq!(msg, "Stego format not found")
        }
        _ => panic!("expected InvalidArgument"),
    }
}

#[test]
fn test_create_chunks_reassembles() {
    let data: Vec<u8> = (0..=255).collect();
    let chunks = create_chunks(&data, 100);
    assert_eq!(chunks.len(), 3);
    assert_eq!(chunks[0].len(), 100);
    assert_eq!(chunks[1].len(), 100);
    assert_eq!(chunks[2].len(), 56);
    let glued: Vec<u8> = chunks.concat();
    assert_eq!(glued, data);

    let empty = create_chunks(&Vec::new(), 7);
    assert_eq!(empty.concat(), Vec::<u8>::new());
}

#[test]
fn test_chunked_requests_carry_only_bytes() {
    let mut first = stego_wave::grpc::HideRequest {
        file: vec![1, 2, 3],
        message: "m".to_string(),
        password: "p".to_string(),
        format: "wav16".to_string(),
        lsb_deep: 2,
    };
    match first.get_metadata() {
        AudioMetadata::Hide {
            message,
            password,
            format,
            lsb_deep,
        } => {
            assert_eq!(message, "m");
            assert_eq!(password, "p");
            assert_eq!(format, "wav16");
            assert_eq!(lsb_deep, 2);
        }
        _ => panic!("expected hide metadata"),
    }
    assert_eq!(first.get_file(), &vec![1, 2, 3]);

    let follow = stego_wave::grpc::HideRequest::create_by_chunk(&vec![9, 9]);
    assert_eq!(follow.file, vec![9, 9]);
    assert_eq!(follow.message, "");
    assert_eq!(follow.lsb_deep, 0);

    let follow2 = stego_wave::grpc::ExtractRequest::create_by_chunk(&vec![7]);
    assert_eq!(follow2.file, vec![7]);
    let follow3 = stego_wave::grpc::ClearRequest::create_by_chunk(&vec![8]);
    assert_eq!(follow3.file, vec![8]);
}

#[test]
fn test_parse_u8_dec() {
    assert_eq!(parse_u8_dec("0"), Some(0));
    assert_eq!(parse_u8_dec("12"), Some(12));
    assert_eq!(parse_u8_dec("255"), Some(255));
    assert_eq!(parse_u8_dec("+7"), Some(7));
    assert_eq!(parse_u8_dec("007"), Some(7));
    assert_eq!(parse_u8_dec("256"), None);
    assert_eq!(parse_u8_dec("300"), None);
    assert_eq!(parse_u8_dec(""), None);
    assert_eq!(parse_u8_dec("+"), None);
    assert_eq!(parse_u8_dec("-1"), None);
    assert_eq!(parse_u8_dec("1a"), None);
    assert_eq!(parse_u8_dec("99999999999999999999"), None);
}

#[test]
fn test_multipart_payload_assembly() {
    let mut payload = MultipartyPayload::default();
    payload.set_field("file", vec![1, 2, 3]);
    payload.set_field("message", "hello".as_bytes().to_vec());
    payload.set_field("password", "pw".as_bytes().to_vec());
    payload.set_field("format", "wav16".as_bytes().to_vec());
    payload.set_field("lsb_deep", "3".as_bytes().to_vec());
    payload.set_field("unknown", vec![9]);

    let req = stego_wave::rest::HideRequest::from_payload(payload).unwrap();
    assert_eq!(req.file, vec![1, 2, 3]);
    assert_eq!(req.message, "hello");
    assert_eq!(req.password, "pw");
    assert_eq!(req.format, "wav16");
    assert_eq!(req.lsb_deep, 3);
}

#[test]
fn test_multipart_payload_defaults_bad_lsb() {
    let mut payload = MultipartyPayload::default();
    payload.set_field("lsb_deep", "not a number".as_bytes().to_vec());
    assert_eq!(payload.lsb_deep, Some(1));

    let mut payload2 = MultipartyPayload::default();
    payload2.set_field("lsb_deep", "900".as_bytes().to_vec());
    assert_eq!(payload2.lsb_deep, Some(1));
}

#[test]
fn test_multipart_payload_missing_fields() {
    let payload = MultipartyPayload::default();
    let err = stego_wave::rest::HideRequest::from_payload(payload).unwrap_err();
    assert_eq!(err, "The |file bytes| field is required");

    let mut only_file = MultipartyPayload::default();
    only_file.set_field("file", vec![1]);
    let err2 = stego_wave::rest::HideRequest::from_payload(only_file).unwrap_err();
    assert_eq!(err2, "The |message| field is required");
}

#[test]
fn test_get_required_field() {
    let mut payload = MultipartyPayload::default();
    payload.set_field("file", vec![5]);
    payload.set_field("password", "pw".as_bytes().to_vec());
    payload.set_field("format", "wav16".as_bytes().to_vec());

    let (file, msg, pw, fmt, lsb) = payload
        .get_required_field(true, false, true, true)
        .unwrap();
    assert_eq!(file, vec![5]);
    assert_eq!(msg, "");
    assert_eq!(pw, "pw");
    assert_eq!(fmt, "wav16");
    assert_eq!(lsb, 1);

    let mut missing = MultipartyPayload::default();
    missing.set_field("password", "pw".as_bytes().to_vec());
    let err = missing
        .get_required_field(true, false, true, true)
        .unwrap_err();
    assert_eq!(err, "The |file body| field is required");
}

#[test]
fn test_rest_settings_address() {
    let settings = stego_wave::rest::Settings {
        rest: stego_wave::rest::RestConfig {
            host: "127.0.0.1".to_string(),
            port: 8080,
        },
        stego_wave_lib: lib_settings(),
    };
    assert_eq!(settings.address(), "127.0.0.1:8080");
}

#[test]
fn test_grpc_settings_address() {
    let settings = stego_wave::grpc::Settings {
        grpc: stego_wave::grpc::GrpcConfig {
            host: "[::1]".to_string(),
            port: 50051,
        },
        stego_wave_lib: lib_settings(),
    };
    assert_eq!(settings.address(), "[::1]:50051");
}

#[test]
fn test_rest_settings_take_lib() {
    let mut settings = stego_wave::rest::Settings {
        rest: stego_wave::rest::RestConfig {
            host: "h".to_string(),
            port: 1,
        },
        stego_wave_lib: lib_settings(),
    };
    let lib = settings.get_stego_wave_lib_settings();
    assert_eq!(lib.header, "STEG");
    assert_eq!(settings.stego_wave_lib.header, "");
    assert_eq!(settings.stego_wave_lib.max_occupancy, 0);
}

#[test]
fn test_configuration_validate() {
    assert!(lib_settings().validate());
    let mut bad = lib_settings();
    bad.max_occupancy = 101;
    assert!(!bad.validate());
    let mut bad2 = lib_settings();
    bad2.header = String::new();
    assert!(!bad2.validate());
    let mut bad3 = lib_settings();
    bad3.header = "S\u{0}T".to_string();
    assert!(!bad3.validate());
    let mut bad4 = lib_settings();
    bad4.default_lsb_deep = 0;
    assert!(!bad4.validate());
    let mut non_ascii = lib_settings();
    non_ascii.header = "héader".to_string();
    assert!(!non_ascii.validate());
}

#[test]
fn test_cli_getters() {
    let cli = Cli {
        commands: Commands::Hide(HideCommand {
            message: "secret".to_string(),
            command: CommonFields {
                input_file: Some("in.wav".to_string()),
                format: StegoWaveFormat::WAV16,
                server: StegoWaveServer::GRPC,
                start_server: true,
                lsb_deep: 2,
                config: "sw_config.toml".to_string(),
            },
            output_file: None,
        }),
    };
    assert_eq!(cli.get_server(), StegoWaveServer::GRPC);
    assert!(cli.get_start_server());
    assert_eq!(cli.get_file_config(), "sw_config.toml");
    match cli.get_command() {
        Commands::Hide(h) => assert_eq!(h.message, "secret"),
        _ => panic!("expected the hide command"),
    }

    let cli2 = Cli {
        commands: Commands::Extract(ExtractCommand {
            command: CommonFields {
                input_file: None,
                format: StegoWaveFormat::WAV16,
                server: StegoWaveServer::Auto,
                start_server: false,
                lsb_deep: 1,
                config: "c".to_string(),
            },
        }),
    };
    assert_eq!(cli2.get_server(), StegoWaveServer::Auto);
    assert!(!cli2.get_start_server());

    let cli3 = Cli {
        commands: Commands::Clear(ClearCommand {
            command: CommonFields {
                input_file: None,
                format: StegoWaveFormat::WAV16,
                server: StegoWaveServer::REST,
                start_server: false,
                lsb_deep: 1,
                config: "c".to_string(),
            },
            output_file: Some("out.wav".to_string()),
        }),
    };
    assert_eq!(cli3.get_server(), StegoWaveServer::REST);
    assert_eq!(StegoWaveFormat::WAV16.as_tag(), "wav16");
}

#[test]
fn test_client_error_help_messages() {
    assert!(StegoWaveClientError::ConnectionFailed.help_message().is_some());
    assert!(StegoWaveClientError::RequestFailed.help_message().is_some());
    assert!(StegoWaveClientError::UlrInvalid.help_message().is_some());
    assert!(StegoWaveClientError::Response("boom".to_string())
        .help_message()
        .is_none());
    assert_eq!(
        StegoWaveClientError::ConnectionFailed.display_text(),
        "Connection failed"
    );
    assert_eq!(
        StegoWaveClientError::Response("boom".to_string()).display_text(),
        "boom"
    );
}

#[test]
fn test_hide_request_chunks() {
    let file: Vec<u8> = (0u8..=9).collect();
    let reqs = stego_wave::grpc::hide_request_chunks(
        &file,
        4,
        "msg".to_string(),
        "pw".to_string(),
        "wav16".to_string(),
        3,
    );
    assert_eq!(reqs.len(), 3);
    assert_eq!(reqs[0].file, vec![0, 1, 2, 3]);
    assert_eq!(reqs[0].message, "msg");
    assert_eq!(reqs[0].password, "pw");
    assert_eq!(reqs[0].format, "wav16");
    assert_eq!(reqs[0].lsb_deep, 3);
    assert_eq!(reqs[1].file, vec![4, 5, 6, 7]);
    assert_eq!(reqs[1].message, "");
    assert_eq!(reqs[1].lsb_deep, 0);
    assert_eq!(reqs[2].file, vec![8, 9]);
    assert_eq!(reqs[2].password, "");
}
