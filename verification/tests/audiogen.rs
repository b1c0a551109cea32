use fragr::audiogen::{job_step, JobStep};
use fragr::audiogen::{
    api_error_message, check_spec_names, describe_api_error, describe_subscription, dotenv_key, encode_output,
    parse_format, parse_voice_assignment, resolve_api_key, retry_after, saturating_pow2_u32,
    select_batch, should_retry, validate_name, wav_from_pcm_s16le, Encoding, Error, ErrorDetail,
    MusicParams, RetryPolicy, Subscription, ValidationItem, API_KEY_ENV,
    DEFAULT_MUSIC_FORMAT, DEFAULT_MUSIC_MODEL,
};

fn music(prompt: &str) -> MusicParams {
    MusicParams {
        prompt: prompt.to_string(),
        length_ms: Some(10_000),
        model: DEFAULT_MUSIC_MODEL.to_string(),
        instrumental: true,
        format: DEFAULT_MUSIC_FORMAT.to_string(),
    }
}

fn le32(bytes: &[u8]) -> u32 {
    u32::from_le_bytes(bytes.try_into().unwrap())
}

fn le16(bytes: &[u8]) -> u16 {
    u16::from_le_bytes(bytes.try_into().unwrap())
}

#[test]
fn parse_format_recognises_codecs() {
    assert_eq!(
        parse_format("pcm_24000").unwrap(),
        Encoding::Pcm { sample_rate: 24000 }
    );
    assert_eq!(parse_format("mp3_44100_128").unwrap(), Encoding::Mp3);
    assert_eq!(parse_format("opus_48000_64").unwrap(), Encoding::Opus);
    assert!(parse_format("ulaw_8000").is_err());
    assert!(parse_format("pcm").is_err());
    assert!(parse_format("mp3_fast").is_err());
    assert_eq!(Encoding::Pcm { sample_rate: 1 }.extension(), "wav");
    assert_eq!(Encoding::Mp3.extension(), "mp3");
    assert_eq!(Encoding::Opus.extension(), "opus");
}

#[test]
fn parse_format_error_texts() {
    match parse_format("ulaw_8000") {
        Err(Error::InvalidArgument(m)) => {
            assert_eq!(m, "output format 'ulaw_8000' is not supported; use pcm_*, mp3_* or opus_*")
        }
        other => panic!("unexpected {other:?}"),
    }
    match parse_format("pcm") {
        Err(Error::InvalidArgument(m)) => assert_eq!(m, "output format 'pcm' has no sample rate"),
        other => panic!("unexpected {other:?}"),
    }
    match parse_format("pcm_x") {
        Err(Error::InvalidArgument(m)) => assert!(m.contains("pcm_x"), "{m}"),
        other => panic!("unexpected {other:?}"),
    }
    assert_eq!(
        parse_format("pcm_44100").unwrap(),
        Encoding::Pcm { sample_rate: 44100 }
    );
}

#[test]
fn music_validation_rejects_bad_values() {
    assert!(music(" ").validate().is_err());
    assert!(MusicParams {
        length_ms: Some(100),
        ..music("x")
    }
    .validate()
    .is_err());
    assert!(MusicParams {
        length_ms: Some(700_000),
        ..music("x")
    }
    .validate()
    .is_err());
    assert!(MusicParams {
        model: "music_v9".to_string(),
        ..music("x")
    }
    .validate()
    .is_err());
    assert!(MusicParams {
        length_ms: None,
        ..music("x")
    }
    .validate()
    .is_ok());
}

#[test]
fn music_validation_messages_name_the_problem() {
    match music("  ").validate() {
        Err(Error::InvalidArgument(m)) => assert_eq!(m, "music prompt is empty"),
        other => panic!("unexpected {other:?}"),
    }
    match (MusicParams { length_ms: Some(100), ..music("x") }).validate() {
        Err(Error::InvalidArgument(m)) => {
            assert_eq!(m, "music length 100 ms is outside 3000..=600000")
        }
        other => panic!("unexpected {other:?}"),
    }
    match (MusicParams { model: "music_v9".to_string(), ..music("x") }).validate() {
        Err(Error::InvalidArgument(m)) => assert_eq!(
            m,
            "music model 'music_v9' is not one of music_v1, music_v2, music_v2_5"
        ),
        other => panic!("unexpected {other:?}"),
    }
    assert!((MusicParams { length_ms: Some(3000), ..music("x") }).validate().is_ok());
    assert!((MusicParams { length_ms: Some(600_000), ..music("x") }).validate().is_ok());
    assert!((MusicParams { format: "wav".to_string(), ..music("x") }).validate().is_err());
}

#[test]
fn subscription_description_reports_remaining_credits() {
    let sub = Subscription {
        tier: Some("creator".to_string()),
        status: Some("active".to_string()),
        character_count: Some(1200),
        character_limit: Some(100_000),
        next_character_count_reset_unix: Some(1_760_000_000),
    };
    let text = describe_subscription(&sub);
    assert!(text.contains("tier: creator"));
    assert!(text.contains("remaining 98800"));
    assert!(text.contains("1760000000 (unix)"));
    assert_eq!(
        text,
        "tier: creator\nstatus: active\ncredits used: 1200 of 100000 (remaining 98800)\nresets at: 1760000000 (unix)"
    );
    let empty = describe_subscription(&Subscription::default());
    assert!(empty.contains("tier: unknown"));
    assert!(empty.contains("resets at: unknown"));
    let over = Subscription {
        character_count: Some(10),
        character_limit: Some(5),
        ..Subscription::default()
    };
    assert!(describe_subscription(&over).contains("(remaining 0)"));
}

#[test]
fn api_error_message_handles_all_shapes() {
    let structured =
        br#"{"detail":{"code":"insufficient_credits","message":"Not enough credits"}}"#;
    assert_eq!(
        api_error_message(402, structured),
        "insufficient_credits: Not enough credits"
    );
    let legacy = br#"{"detail":{"status":"quota_exceeded","message":"Quota"}}"#;
    assert_eq!(api_error_message(401, legacy), "quota_exceeded: Quota");
    let code_only = br#"{"detail":{"code":"bad_prompt"}}"#;
    assert_eq!(api_error_message(400, code_only), "bad_prompt");
    let validation = br#"{"detail":[{"loc":["body","text"],"msg":"field required","type":"value_error"},{"msg":"other"}]}"#;
    assert_eq!(
        api_error_message(422, validation),
        "validation failed: body.text: field required; other"
    );
    assert_eq!(api_error_message(400, br#"{"detail":"plain"}"#), "plain");
    assert_eq!(api_error_message(500, b"gateway down"), "gateway down");
    assert_eq!(api_error_message(503, b"   "), "HTTP 503 with empty body");
    let long = "x".repeat(400);
    assert_eq!(api_error_message(500, long.as_bytes()).len(), 200);
}

#[test]
fn api_error_message_reads_odd_members() {
    assert_eq!(api_error_message(400, br#"{"detail":{}}"#), "error");
    assert_eq!(
        api_error_message(400, br#"{"detail":{"code":7,"status":"ignored","message":"m"}}"#),
        "error: m"
    );
    assert_eq!(
        api_error_message(400, br#"{"detail":{"code":null,"status":"s"}}"#),
        "error"
    );
    assert_eq!(
        api_error_message(400, br#"{"detail":{"message":5}}"#),
        "error"
    );
    assert_eq!(
        api_error_message(422, br#"{"detail":[{"loc":["body",0,"name"],"msg":3}]}"#),
        "validation failed: body.name: invalid"
    );
    assert_eq!(
        api_error_message(422, br#"{"detail":[{"loc":"body","msg":"m"}]}"#),
        "validation failed: m"
    );
    assert_eq!(api_error_message(400, br#"{"detail":42}"#), r#"{"detail":42}"#);
    assert_eq!(api_error_message(400, br#"{"other":1}"#), r#"{"other":1}"#);
    assert_eq!(api_error_message(404, b""), "HTTP 404 with empty body");
    assert_eq!(api_error_message(500, &[0x66, 0xff, 0x6f]), "f\u{fffd}o");
}

#[test]
fn described_errors_fill_in_missing_parts() {
    let nothing = ErrorDetail::Object {
        code: None,
        status: None,
        message: None,
    };
    assert_eq!(describe_api_error(400, "{}", Some(&nothing)), "error");
    let odd_code = ErrorDetail::Object {
        code: Some(None),
        status: Some("ignored".to_string()),
        message: Some("m".to_string()),
    };
    assert_eq!(describe_api_error(400, "{}", Some(&odd_code)), "error: m");
    let by_status = ErrorDetail::Object {
        code: None,
        status: Some("quota".to_string()),
        message: None,
    };
    assert_eq!(describe_api_error(400, "{}", Some(&by_status)), "quota");
    let no_msg = ErrorDetail::List(vec![ValidationItem {
        loc: vec![Some("a".to_string()), None, Some("b".to_string())],
        msg: None,
    }]);
    assert_eq!(
        describe_api_error(422, "{}", Some(&no_msg)),
        "validation failed: a.b: invalid"
    );
    assert_eq!(describe_api_error(404, "", None), "HTTP 404 with empty body");
    assert_eq!(describe_api_error(500, "gateway down", None), "gateway down");
}

#[test]
fn retry_only_on_rate_limit_and_server_errors() {
    assert!(should_retry(429));
    assert!(should_retry(500));
    assert!(should_retry(503));
    assert!(!should_retry(400));
    assert!(!should_retry(401));
    assert!(!should_retry(422));
}

#[test]
fn retry_waits_double_until_attempts_run_out() {
    let policy = RetryPolicy::default();
    assert_eq!(policy.attempts, 4);
    assert_eq!(policy.base_delay, std::time::Duration::from_secs(2));
    assert_eq!(retry_after(429, 1, &policy), Some(1));
    assert_eq!(retry_after(500, 2, &policy), Some(2));
    assert_eq!(retry_after(503, 3, &policy), Some(4));
    assert_eq!(retry_after(503, 4, &policy), None);
    assert_eq!(retry_after(400, 1, &policy), None);
    let once = RetryPolicy {
        attempts: 0,
        ..RetryPolicy::default()
    };
    assert_eq!(retry_after(429, 1, &once), None);
    assert_eq!(saturating_pow2_u32(0), 1);
    assert_eq!(saturating_pow2_u32(10), 1024);
    assert_eq!(saturating_pow2_u32(31), 1 << 31);
    assert_eq!(saturating_pow2_u32(32), u32::MAX);
    assert_eq!(saturating_pow2_u32(200), u32::MAX);
}

#[test]
fn wav_header_is_canonical() {
    let pcm = vec![1u8, 0, 2, 0, 3, 0, 4, 0];
    let wav = wav_from_pcm_s16le(&pcm, 24000, 1);
    assert_eq!(wav.len(), 44 + pcm.len());
    assert_eq!(&wav[0..4], b"RIFF");
    assert_eq!(le32(&wav[4..8]), 36 + 8);
    assert_eq!(&wav[8..12], b"WAVE");
    assert_eq!(&wav[12..16], b"fmt ");
    assert_eq!(le32(&wav[16..20]), 16);
    assert_eq!(le16(&wav[20..22]), 1);
    assert_eq!(le16(&wav[22..24]), 1);
    assert_eq!(le32(&wav[24..28]), 24000);
    assert_eq!(le32(&wav[28..32]), 48000);
    assert_eq!(le16(&wav[32..34]), 2);
    assert_eq!(le16(&wav[34..36]), 16);
    assert_eq!(&wav[36..40], b"data");
    assert_eq!(le32(&wav[40..44]), 8);
    assert_eq!(&wav[44..], &pcm[..]);
    let stereo = wav_from_pcm_s16le(&pcm, 44100, 2);
    assert_eq!(le32(&stereo[28..32]), 176_400);
    assert_eq!(le16(&stereo[32..34]), 4);
}

#[test]
fn encode_output_wraps_pcm_and_passes_mp3() {
    let (wav, channels) = encode_output(vec![0u8; 48000], &Encoding::Pcm { sample_rate: 24000 }, 1);
    assert_eq!(channels, 1);
    assert_eq!(&wav[0..4], b"RIFF");
    assert_eq!(wav.len(), 48044);
    let (mp3, channels) = encode_output(vec![9u8; 3], &Encoding::Mp3, 1);
    assert_eq!(channels, 0);
    assert_eq!(mp3, vec![9u8; 3]);
    let (opus, _) = encode_output(vec![1u8], &Encoding::Opus, 1);
    assert_eq!(opus, vec![1u8]);
    let (stereo, channels) = encode_output(vec![0u8; 8], &Encoding::Pcm { sample_rate: 8000 }, 2);
    assert_eq!(channels, 2);
    assert_eq!(le16(&stereo[22..24]), 2);
}

#[test]
fn name_validation() {
    assert!(validate_name("fire_rail").is_ok());
    assert!(validate_name("music/match-01").is_ok());
    assert!(validate_name("").is_err());
    assert!(validate_name("/abs").is_err());
    assert!(validate_name("trail/").is_err());
    assert!(validate_name("../escape").is_err());
    assert!(validate_name("a//b").is_err());
    assert!(validate_name("Fire").is_err());
    assert!(validate_name("fire.wav").is_err());
}

#[test]
fn spec_names_must_be_present_valid_and_unique() {
    let names = |v: &[&str]| v.iter().map(|s| s.to_string()).collect::<Vec<String>>();
    assert!(check_spec_names(&names(&["a", "b/c"])).is_ok());
    match check_spec_names(&names(&[])) {
        Err(Error::Spec(m)) => assert_eq!(m, "spec has no items"),
        other => panic!("unexpected {other:?}"),
    }
    match check_spec_names(&names(&["a", "Bad"])) {
        Err(Error::InvalidArgument(m)) => assert!(m.contains("Bad"), "{m}"),
        other => panic!("unexpected {other:?}"),
    }
    match check_spec_names(&names(&["a", "b", "a"])) {
        Err(Error::Spec(m)) => assert_eq!(m, "duplicate item name 'a'"),
        other => panic!("unexpected {other:?}"),
    }
}

#[test]
fn batch_selection_keeps_order_and_refuses_unknown_names() {
    let names: Vec<String> = ["fire", "jump", "fire2"].iter().map(|s| s.to_string()).collect();
    assert_eq!(select_batch(&names, None).unwrap(), vec![0, 1, 2]);
    assert_eq!(select_batch(&names, Some("jump")).unwrap(), vec![1]);
    match select_batch(&names, Some("nope")) {
        Err(Error::Spec(m)) => assert_eq!(m, "no spec item named 'nope'"),
        other => panic!("unexpected {other:?}"),
    }
    assert!(select_batch(&Vec::new(), None).is_err());
}

#[test]
fn voice_assignments_parse_and_reject() {
    let (speaker, ids) = parse_voice_assignment(" host = v1, v2 ,,").unwrap();
    assert_eq!(speaker, "host");
    assert_eq!(ids, vec!["v1".to_string(), "v2".to_string()]);
    let (speaker, ids) = parse_voice_assignment("a=b").unwrap();
    assert_eq!(speaker, "a");
    assert_eq!(ids, vec!["b".to_string()]);
    assert_eq!(
        parse_voice_assignment("novoice").unwrap_err(),
        "expected speaker=<voice_id>, got 'novoice'"
    );
    assert!(parse_voice_assignment("=v1").is_err());
    assert!(parse_voice_assignment("host= , ").is_err());
}

#[test]
fn dotenv_parsing() {
    assert_eq!(dotenv_key(""), None);
    assert_eq!(
        dotenv_key("# comment\nOTHER=1\nexport elevenlabs = \"sk_abc\"\n").as_deref(),
        Some("sk_abc")
    );
    assert_eq!(
        dotenv_key("ELEVENLABS_API_KEY='quoted'\n").as_deref(),
        Some("quoted")
    );
    assert_eq!(
        dotenv_key("XI_API_KEY=\nELEVENLABS_KEY=later\nno-equals-line\n").as_deref(),
        Some("later")
    );
    assert_eq!(dotenv_key("UNRELATED=x\n"), None);
}

#[test]
fn api_key_resolution() {
    assert!(matches!(resolve_api_key(None, None), Err(Error::MissingApiKey)));
    assert!(matches!(
        resolve_api_key(Some("  ".into()), None),
        Err(Error::MissingApiKey)
    ));
    assert_eq!(resolve_api_key(Some(" abc\n".into()), None).unwrap(), "abc");
    assert_eq!(
        resolve_api_key(Some("env".into()), Some("from-file\n".into())).unwrap(),
        "from-file"
    );
    assert!(matches!(
        resolve_api_key(Some("env".into()), Some(" \n".into())),
        Err(Error::MissingApiKey)
    ));
    assert!(Error::MissingApiKey.message().contains(API_KEY_ENV));
}

#[test]
fn error_display_covers_variants() {
    assert_eq!(
        Error::InvalidArgument("x".into()).message(),
        "invalid argument: x"
    );
    assert_eq!(Error::Transport("t".into()).message(), "transport error: t");
    assert_eq!(Error::Spec("s".into()).message(), "spec error: s");
    let io: Error = std::io::Error::other("disk").into();
    assert!(io.message().contains("disk"));
}

#[test]
fn api_error_text_carries_status_and_message() {
    let err = Error::Api {
        status: 402,
        message: "no credits".to_string(),
    };
    assert_eq!(err.message(), "API error 402: no credits");
    let io: Error = std::io::Error::other("disk").into();
    assert_eq!(io.message(), "io error: disk");
}

#[test]
fn dry_runs_write_nothing_and_existing_files_stay() {
    assert_eq!(job_step(true, true, true), JobStep::DryRun);
    assert_eq!(job_step(true, false, false), JobStep::DryRun);
    assert_eq!(job_step(false, true, false), JobStep::Skip);
    assert_eq!(job_step(false, true, true), JobStep::Generate);
    assert_eq!(job_step(false, false, false), JobStep::Generate);
}
