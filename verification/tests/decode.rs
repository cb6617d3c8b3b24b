use cochlea::decode::{
    check_sample_limit, check_shape, flac_stream_shape, interleave, is_audio_ext, resolve_format, sniff_magic,
    AudioFormat, DecodeError, StreamSpec, DEFAULT_MAX_SAMPLES,
};

#[test]
fn malformed_shapes_are_clean_errors_never_panics() {
    let cases = [
        // 3 samples on a 2-channel stride: one and a half frames.
        (2u16, 8000u32, 3usize),
        // Zero channels: the interleave stride would be a divide-by-zero.
        (0, 8000, 4),
        // Zero sample rate: no time base for any per-second feature.
        (1, 0, 4),
    ];
    for (channels, rate, samples) in cases {
        assert!(
            matches!(
                check_shape(channels, rate, samples),
                Err(DecodeError::DegenerateShape { channels: c, sample_rate: r, samples: n })
                    if c == channels && r == rate && n == samples
            ),
            "({channels}, {rate}, {samples}) must be refused"
        );
    }
    assert!(check_shape(2, 8000, 4).is_ok());
    assert!(check_shape(1, 44_100, 0).is_ok());
}

#[test]
fn the_limit_boundary_is_exact_for_wav() {
    let exact: u64 = 16_000;
    check_sample_limit(exact, Some(exact)).expect("a cap equal to the true length must admit the file");
    let err = check_sample_limit(exact, Some(exact - 1)).expect_err("one below the true length must be refused");
    assert!(matches!(err, DecodeError::TooLong { limit, samples } if limit == exact - 1 && samples == exact));
    assert!(check_sample_limit(u64::MAX, None).is_ok());
    assert!(check_sample_limit(DEFAULT_MAX_SAMPLES, Some(DEFAULT_MAX_SAMPLES)).is_ok());
}

#[test]
fn extensions_are_matched_case_insensitively() {
    for ext in ["wav", "WAV", "Wave", "flac", "mp3", "MP3", "ogg", "oga"] {
        assert!(is_audio_ext(Some(ext)), "{ext}");
    }
    for ext in ["txt", "ron", "", "mp4"] {
        assert!(!is_audio_ext(Some(ext)), "{ext}");
    }
    assert!(!is_audio_ext(None));
}

#[test]
fn magic_bytes_identify_each_format() {
    assert_eq!(sniff_magic(b"RIFF\0\0\0\0WAVE"), Some(AudioFormat::Wav));
    assert_eq!(sniff_magic(b"fLaC\0"), Some(AudioFormat::Flac));
    assert_eq!(sniff_magic(b"OggS\0"), Some(AudioFormat::Ogg));
    assert_eq!(sniff_magic(b"ID3\x04"), Some(AudioFormat::Mp3));
    assert_eq!(sniff_magic(&[0xff, 0xfb, 0x90, 0x00]), Some(AudioFormat::Mp3));
    assert_eq!(sniff_magic(&[0xff, 0x1b, 0x90, 0x00]), None);
    assert_eq!(sniff_magic(b"RIF"), None);
    assert_eq!(sniff_magic(b"abcd"), None);
}

#[test]
fn the_extension_decides_before_the_magic_bytes() {
    assert_eq!(resolve_format(Some("FLAC"), Some(AudioFormat::Wav)).unwrap(), AudioFormat::Flac);
    assert_eq!(resolve_format(None, Some(AudioFormat::Ogg)).unwrap(), AudioFormat::Ogg);
    assert_eq!(resolve_format(Some("bin"), Some(AudioFormat::Mp3)).unwrap(), AudioFormat::Mp3);
    match resolve_format(Some("TXT"), None) {
        Err(DecodeError::UnsupportedExtension(name)) => assert_eq!(name, "txt"),
        other => panic!("expected UnsupportedExtension, got {other:?}"),
    }
    match resolve_format(None, None) {
        Err(DecodeError::UnsupportedExtension(name)) => assert_eq!(name, ""),
        other => panic!("expected UnsupportedExtension, got {other:?}"),
    }
}

#[test]
fn flac_stream_info_must_be_complete() {
    assert!(matches!(flac_stream_shape(None, Some(44_100), Some(2)), Err(DecodeError::UnknownBitDepth)));
    assert!(matches!(flac_stream_shape(Some(16), None, Some(2)), Err(DecodeError::MissingStreamInfo)));
    assert!(matches!(flac_stream_shape(Some(16), Some(44_100), None), Err(DecodeError::MissingStreamInfo)));
    assert_eq!(flac_stream_shape(Some(24), Some(48_000), Some(1)).unwrap(), (48_000, 1));
}

#[test]
fn a_lossy_stream_spec_is_fixed_once_established() {
    let mut spec = StreamSpec::declared(None, None);
    assert!(matches!(spec.finish(), Err(DecodeError::MissingStreamInfo)));
    spec.accept_packet(22_050, 1).unwrap();
    assert_eq!(spec.finish().unwrap(), (22_050, 1));
    spec.accept_packet(22_050, 1).unwrap();
    assert!(matches!(spec.accept_packet(44_100, 1), Err(DecodeError::InconsistentStream)));
    assert!(matches!(spec.accept_packet(22_050, 2), Err(DecodeError::InconsistentStream)));
    assert_eq!(spec.finish().unwrap(), (22_050, 1));

    let mut declared = StreamSpec::declared(Some(8_000), Some(2));
    assert!(matches!(declared.accept_packet(16_000, 2), Err(DecodeError::InconsistentStream)));
    assert_eq!(declared.finish().unwrap(), (8_000, 2));
}

#[test]
fn planes_interleave_frame_by_frame() {
    let planes = vec![vec![1.0f32, 2.0, 3.0], vec![-1.0, -2.0, -3.0, -4.0]];
    let mut out = vec![9.0f32];
    interleave(&planes, 3, &mut out);
    assert_eq!(out, vec![9.0, 1.0, -1.0, 2.0, -2.0, 3.0, -3.0]);
    let mut empty: Vec<i16> = Vec::new();
    interleave(&Vec::<Vec<i16>>::new(), 5, &mut empty);
    assert!(empty.is_empty());
}

#[test]
fn decode_errors_read_as_sentences() {
    assert_eq!(
        DecodeError::TooLong { samples: 10, limit: 4 }.message(),
        "audio is too long to analyze: 10 samples exceeds the 4-sample cap (use load_with_limit to raise it for a genuinely large file)"
    );
    assert_eq!(
        DecodeError::DegenerateShape { channels: 2, sample_rate: 8000, samples: 3 }.message(),
        "degenerate audio shape: 2 channels, 8000 Hz, 3 interleaved samples"
    );
    assert_eq!(
        DecodeError::UnsupportedExtension("txt".to_string()).message(),
        "unrecognized audio file: extension \"txt\" and content match none of WAV, FLAC, mp3, or ogg (expected a wav/flac/mp3/ogg extension, or their magic bytes)"
    );
    assert_eq!(
        DecodeError::Io { path: "/x.wav".to_string(), message: "No such file".to_string() }.message(),
        "reading /x.wav: No such file"
    );
    assert_eq!(DecodeError::Flac("end of stream".to_string()).message(), "decoding: end of stream");
    assert_eq!(DecodeError::Wav("bad header".to_string()).message(), "bad header");
    assert_eq!(
        DecodeError::NonFiniteSample { index: 7 }.message(),
        "non-finite decoded sample (NaN or infinity) at sample index 7"
    );
    assert_eq!(DecodeError::NoAudioTrack.message(), "audio file has no audio track");
}

#[test]
fn every_decode_path_honors_a_tight_limit() {
    // The sample counts each decode path reaches on one-second test tones:
    // mono and stereo WAV, mono and stereo FLAC, mono mp3, stereo ogg.
    for samples in [8_000u64, 16_000, 8_000, 16_000, 8_064, 16_128] {
        let err = check_sample_limit(samples, Some(1)).expect_err("must exceed a 1-sample cap");
        assert!(matches!(err, DecodeError::TooLong { limit: 1, .. }), "{samples}: expected TooLong, got {err:?}");
    }
}

#[test]
fn ordinary_files_load_under_the_default_and_uncapped() {
    for samples in [8_000u64, 16_000, 16_128] {
        assert!(check_sample_limit(samples, Some(DEFAULT_MAX_SAMPLES)).is_ok(), "{samples} under default cap");
        assert!(check_sample_limit(samples, None).is_ok(), "{samples} uncapped");
    }
}

#[test]
fn magic_byte_sniffing_recognizes_lossy_files() {
    // Files without an extension go by their first bytes.
    let mp3 = [b'I', b'D', b'3', 4, 0, 0, 0, 0, 0, 0];
    let ogg = *b"OggS\x00\x02\x00\x00";
    assert_eq!(resolve_format(None, sniff_magic(&mp3)).unwrap(), AudioFormat::Mp3);
    assert_eq!(resolve_format(None, sniff_magic(&ogg)).unwrap(), AudioFormat::Ogg);
}
