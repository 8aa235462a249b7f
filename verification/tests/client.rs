//! Services, keys, requests, replies and uploads.

use way_dictation::client::{
    build_transcriber, dump_dir, dump_name, ffmpeg_command, ffmpeg_error, ffmpeg_failure,
    is_cuttable, key_status, missing_key_message, provider_key_var, read_reply, reply, require_key,
    stitch, temp_name, ApiKeys, BuildError, GeminiTranscriber, GroqTranscriber, Joining, KeyStatus,
    KeyVar, OpenRouterSttTranscriber, Provider, ReplyError, Service, Transcriber, Upload,
    UploadStep, DEFAULT_GEMINI_LIVE_MODEL, DEFAULT_GEMINI_MODEL, DEFAULT_GPT_TRANSCRIBE_MODEL,
    DEFAULT_GROQ_MODEL, GROQ_KEY_URL, OPENROUTER_KEY_URL, STT_OMISSION_PROMPT, TRANSCRIBE_SYSTEM,
};
use way_dictation::wav::{split_chunks, wav_from_pcm, WavError};

fn no_keys() -> ApiKeys {
    ApiKeys { groq: None, openrouter: None, gemini: None }
}

fn all_keys() -> ApiKeys {
    ApiKeys {
        groq: Some("g-key".to_string()),
        openrouter: Some("o-key".to_string()),
        gemini: Some("m-key".to_string()),
    }
}

#[test]
fn stitch_dedupes_overlap() {
    let parts = vec![
        "hello world how are".to_string(),
        "how are you today".to_string(),
    ];
    assert_eq!(stitch(&parts), "hello world how are you today");
}

#[test]
fn stitch_handles_empty() {
    assert_eq!(stitch(&[]), "");
    assert_eq!(stitch(&["  ".to_string()]), "");
}

#[test]
fn stitch_takes_the_longest_seam() {
    let parts = vec!["a b a b".to_string(), "a b a b c".to_string(), "".to_string()];
    assert_eq!(stitch(&parts), "a b a b c");
    let apart = vec!["one  two".to_string(), " ".to_string(), "three".to_string()];
    assert_eq!(stitch(&apart), "one two three");
    // words are compared letter by letter
    assert_eq!(stitch(&["Go".to_string(), "go".to_string()]), "Go go");
}

#[test]
fn provider_alias_mapping() {
    // without keys every provider is refused, known or not
    assert!(build_transcriber("gpt", None, &no_keys()).is_err());
    assert!(build_transcriber("gpttranscribe", None, &no_keys()).is_err());
    assert!(build_transcriber("openrouter", None, &no_keys()).is_err());
    assert!(build_transcriber("bogus", None, &no_keys()).is_err());
}

#[test]
fn provider_key_var_mapping() {
    assert_eq!(provider_key_var("groq"), Some("GROQ_API_KEY"));
    assert_eq!(
        provider_key_var("gpt-transcribe"),
        Some("OPENROUTER_API_KEY")
    );
    assert_eq!(provider_key_var("gpt"), Some("OPENROUTER_API_KEY"));
    assert_eq!(provider_key_var("gemini"), Some("OPENROUTER_API_KEY"));
    assert_eq!(provider_key_var("openrouter"), Some("OPENROUTER_API_KEY"));
    assert_eq!(provider_key_var("bogus"), None);
}

#[test]
fn live_provider_has_its_own_key() {
    assert_eq!(provider_key_var("gemini-live"), Some("GEMINI_API_KEY"));
    assert_eq!(provider_key_var("gemini-live-transcribe"), Some("GEMINI_API_KEY"));
    assert_eq!(provider_key_var("glive"), Some("GEMINI_API_KEY"));
    assert_eq!(Provider::parse("glive"), Some(Provider::GeminiLive));
}

#[test]
fn missing_key_message_recommends_switching_provider() {
    let m = missing_key_message("GROQ_API_KEY", true);
    assert!(m.contains("GROQ_API_KEY is not set"));
    assert!(m.contains("OpenRouter key"));
    assert!(!m.contains("Groq Whisper (free)"));
    assert!(m.contains("GPT Transcribe (paid)"));
    assert!(m.contains(GROQ_KEY_URL));

    let m2 = missing_key_message("OPENROUTER_API_KEY", true);
    assert!(m2.contains("OPENROUTER_API_KEY is not set"));
    assert!(m2.contains("Groq key"));
    assert!(m2.contains("Groq Whisper (free)"));
    assert!(m2.contains(OPENROUTER_KEY_URL));
}

#[test]
fn missing_key_message_has_get_key_urls_when_none_present() {
    let m = missing_key_message("GROQ_API_KEY", false);
    assert!(m.contains(GROQ_KEY_URL));
    assert!(m.contains(OPENROUTER_KEY_URL));
    assert!(m.contains("press play again"));
}

#[test]
fn missing_gemini_key_is_told() {
    assert_eq!(
        missing_key_message("GEMINI_API_KEY", true),
        "No Gemini API key found (GEMINI_API_KEY is not set). Switch Provider to \
         \"GPT Transcribe (paid)\", \"Groq Whisper (free)\", or \"Gemini (OpenRouter)\" \
         with one of your existing keys, or add a Gemini key at https://aistudio.google.com/apikey."
    );
}

#[test]
fn keys_of_white_space_do_not_count() {
    let keys = ApiKeys {
        groq: Some(" \t".to_string()),
        openrouter: Some(" k ".to_string()),
        gemini: None,
    };
    assert_eq!(key_status(&keys), KeyStatus { groq: false, openrouter: true, gemini: false });
    // a key is used as it is
    assert_eq!(require_key(KeyVar::OpenRouter, &keys), Ok(" k ".to_string()));
    assert_eq!(
        require_key(KeyVar::Groq, &keys),
        Err(missing_key_message("GROQ_API_KEY", true))
    );
    assert_eq!(
        require_key(KeyVar::Gemini, &keys),
        Err(missing_key_message("GEMINI_API_KEY", true))
    );
}

#[test]
fn any_other_key_lets_a_gemini_user_switch() {
    let groq = ApiKeys { groq: Some("k".to_string()), ..no_keys() };
    let openrouter = ApiKeys { openrouter: Some("k".to_string()), ..no_keys() };
    let switch = Err(missing_key_message("GEMINI_API_KEY", true));
    assert_eq!(require_key(KeyVar::Gemini, &groq), switch);
    assert_eq!(require_key(KeyVar::Gemini, &openrouter), switch);
    assert_eq!(
        require_key(KeyVar::Gemini, &no_keys()),
        Err(missing_key_message("GEMINI_API_KEY", false))
    );
    assert_eq!(
        require_key(KeyVar::OpenRouter, &groq),
        Err(missing_key_message("OPENROUTER_API_KEY", true))
    );
    assert_eq!(
        require_key(KeyVar::Groq, &groq),
        Ok("k".to_string())
    );
}

#[test]
fn each_provider_is_built() {
    match build_transcriber("groq", None, &all_keys()).unwrap() {
        Transcriber::Groq(t) => {
            assert_eq!((t.api_key.as_str(), t.model.as_str()), ("g-key", DEFAULT_GROQ_MODEL));
        }
        other => panic!("{other:?}"),
    }
    match build_transcriber("openrouter", None, &all_keys()).unwrap() {
        Transcriber::Gemini(t) => {
            assert_eq!((t.api_key.as_str(), t.model.as_str()), ("o-key", DEFAULT_GEMINI_MODEL));
            assert_eq!((t.use_mp3, t.max_chunk_ms), (true, 20000));
        }
        other => panic!("{other:?}"),
    }
    match build_transcriber("glive", None, &all_keys()).unwrap() {
        Transcriber::GeminiLive(t) => {
            assert_eq!(t.api_key, "m-key");
            assert_eq!(t.model, DEFAULT_GEMINI_LIVE_MODEL);
            assert_eq!(t.max_chunk_ms, 100);
        }
        other => panic!("{other:?}"),
    }
    match build_transcriber("gpt", Some("my/model"), &all_keys()).unwrap() {
        Transcriber::GptTranscribe(t) => assert_eq!(t.model, "my/model"),
        other => panic!("{other:?}"),
    }
    match build_transcriber("gpt-transcribe", None, &all_keys()).unwrap() {
        Transcriber::GptTranscribe(t) => assert_eq!(t.model, DEFAULT_GPT_TRANSCRIBE_MODEL),
        other => panic!("{other:?}"),
    }
}

#[test]
fn refusals_are_told() {
    let unknown = build_transcriber("b\"x", None, &all_keys()).unwrap_err();
    assert!(matches!(unknown, BuildError::UnknownProvider(_)));
    assert_eq!(
        unknown.message(),
        "Unknown provider: \"b\\\"x\" (expected 'groq', 'gemini', 'gemini-live', or 'gpt-transcribe')"
    );
    let missing = build_transcriber("groq", None, &no_keys()).unwrap_err();
    assert!(matches!(missing, BuildError::MissingKey(_)));
    assert_eq!(missing.message(), missing_key_message("GROQ_API_KEY", false));
}

#[test]
fn groq_takes_a_form() {
    let t = GroqTranscriber::new("key", "whisper");
    let r = t.request(&[1, 2, 3], Some("en"));
    assert_eq!(r.url, "https://api.groq.com/openai/v1/audio/transcriptions");
    assert_eq!(r.bearer, "key");
    assert_eq!(
        (r.file_field.as_str(), r.file_name.as_str(), r.file_mime.as_str()),
        ("file", "phrase.wav", "audio/wav")
    );
    assert_eq!(r.file, vec![1, 2, 3]);
    assert_eq!(
        r.fields,
        vec![
            ("model".to_string(), "whisper".to_string()),
            ("language".to_string(), "en".to_string()),
        ]
    );
    assert_eq!(t.request(&[], None).fields.len(), 1);
}

#[test]
fn openrouter_stt_takes_json() {
    let t = OpenRouterSttTranscriber::new("key", "m");
    let r = t.request(&[0xfb, 0xff, 0xfe], "mp3", Some("en"));
    assert_eq!(r.url, "https://openrouter.ai/api/v1/audio/transcriptions");
    assert_eq!(r.bearer, "key");
    assert_eq!(
        r.body.to_string(),
        format!(
            "{{\"input_audio\":{{\"data\":\"+//+\",\"format\":\"mp3\"}},\"language\":\"en\",\
             \"model\":\"m\",\"prompt\":\"{STT_OMISSION_PROMPT}\",\"temperature\":0.2}}"
        )
    );
    let r = t.request(b"M", "wav", None);
    assert_eq!(r.body["input_audio"]["data"], "TQ==");
    assert!(r.body.get("language").is_none());
    assert_eq!(t.request(b"Ma", "wav", None).body["input_audio"]["data"], "TWE=");
}

#[test]
fn gemini_takes_a_chat() {
    let t = GeminiTranscriber::new("key", "m");
    let r = t.request(b"Man", "wav");
    assert_eq!(r.url, "https://openrouter.ai/api/v1/chat/completions");
    assert_eq!(r.bearer, "key");
    assert_eq!(
        r.body.to_string(),
        format!(
            "{{\"messages\":[{{\"content\":[{{\"text\":\"{TRANSCRIBE_SYSTEM}\",\"type\":\"text\"}},\
             {{\"input_audio\":{{\"data\":\"TWFu\",\"format\":\"wav\"}},\"type\":\"input_audio\"}}],\
             \"role\":\"user\"}}],\"model\":\"m\"}}"
        )
    );
}

#[test]
fn transcripts_are_read() {
    assert_eq!(reply(Service::Groq, 200, "{\"text\":\" hi \\n\"}").unwrap(), "hi");
    assert_eq!(reply(Service::OpenRouterStt, 299, "{\"text\":\"\"}").unwrap(), "");
    let chat = "{\"choices\":[{\"message\":{\"content\":\" ok\"}}]}";
    assert_eq!(reply(Service::OpenRouterChat, 200, chat).unwrap(), "ok");
}

#[test]
fn bad_replies_are_told() {
    let tell = |service: Service, status: u16, body: &str| {
        let e = reply(service, status, body).unwrap_err();
        assert!(e.can_print());
        e.message(service)
    };
    assert_eq!(tell(Service::Groq, 429, "slow down"), "Groq HTTP 429 Too Many Requests: slow down");
    assert_eq!(
        tell(Service::OpenRouterStt, 799, "?"),
        "OpenRouter STT HTTP 799 <unknown status code>: ?"
    );
    assert_eq!(tell(Service::OpenRouterChat, 200, "<html>"), "parsing OpenRouter chat response");
    assert_eq!(tell(Service::Groq, 200, "{\"text\":1}"), "unexpected Groq response: {\"text\":1}");
    assert_eq!(tell(Service::Groq, 200, "[]"), "unexpected Groq response: []");
    assert_eq!(
        tell(Service::OpenRouterChat, 200, "{\"choices\":[]}"),
        "unexpected OpenRouter chat response: {\"choices\":[]}"
    );
    assert_eq!(ReplyError::RequestFailed.message(Service::Groq), "Groq request failed");
    assert_eq!(
        ReplyError::Unreadable.message(Service::OpenRouterStt),
        "reading OpenRouter STT response"
    );
}

#[test]
fn long_replies_are_cut() {
    let long = "x".repeat(500);
    let e = reply(Service::Groq, 500, &long).unwrap_err();
    assert_eq!(
        e.message(Service::Groq),
        format!("Groq HTTP 500 Internal Server Error: {}", "x".repeat(400))
    );
    // no character ends after 400 bytes
    let wide = format!("{}é", "x".repeat(399));
    assert!(!reply(Service::Groq, 500, &wide).unwrap_err().can_print());
    let fits = format!("{}é", "x".repeat(398));
    assert!(reply(Service::Groq, 500, &fits).unwrap_err().can_print());
}

#[test]
fn replies_are_read_from_their_parsed_form() {
    let value: serde_json::Value = serde_json::from_str("{\"text\":\" a \"}").unwrap();
    assert_eq!(read_reply(Service::Groq, 200, "body", Some(value.clone())).unwrap(), "a");
    assert!(matches!(
        read_reply(Service::Groq, 404, "body", Some(value)),
        Err(ReplyError::Http { status: 404, .. })
    ));
    assert!(matches!(
        read_reply(Service::Groq, 200, "body", None),
        Err(ReplyError::NotJson)
    ));
}

#[test]
fn short_audio_is_uploaded_whole() {
    let wav = wav_from_pcm(1, 16, 16000, &[7; 320]);
    let t = OpenRouterSttTranscriber::new("key", "m");
    assert!(is_cuttable(&wav, t.max_chunk_ms));
    let c = match t.upload(wav.clone()) {
        UploadStep::Convert(c) => c,
        other => panic!("{other:?}"),
    };
    assert_eq!(c.wav, wav);
    let q = match c.converted(vec![1, 2]) {
        UploadStep::Ask(q) => q,
        other => panic!("{other:?}"),
    };
    assert_eq!((q.audio.clone(), q.format()), (vec![1, 2], "mp3"));
    match q.answered("all of it".to_string()) {
        UploadStep::Done(text) => assert_eq!(text, "all of it"),
        other => panic!("{other:?}"),
    }
}

/// Drives an upload with the given answers: what was asked, and the transcript.
fn drive(mut step: UploadStep, answers: &[&str]) -> (Vec<Vec<u8>>, String) {
    let mut asked = Vec::new();
    loop {
        step = match step {
            UploadStep::Convert(c) => {
                let mut audio = c.wav.clone();
                audio.reverse();
                c.converted(audio)
            }
            UploadStep::Ask(q) => {
                asked.push(q.audio.clone());
                let answer = answers[asked.len() - 1].to_string();
                q.answered(answer)
            }
            UploadStep::Done(text) => return (asked, text),
            UploadStep::Failed(e) => panic!("{e:?}"),
        }
    }
}

#[test]
fn long_audio_is_uploaded_in_chunks() {
    let pcm: Vec<u8> = (0..64000u32).map(|i| i as u8).collect();
    let wav = wav_from_pcm(1, 16, 16000, &pcm);
    let chunks = split_chunks(&wav, 1000, 500).unwrap();
    assert_eq!(chunks.len(), 3);
    let stt = OpenRouterSttTranscriber {
        max_chunk_ms: 1000,
        use_mp3: false,
        ..OpenRouterSttTranscriber::new("key", "m")
    };
    let (asked, text) = drive(stt.upload(wav.clone()), &["one two", "", "two three"]);
    assert_eq!(asked, chunks);
    assert_eq!(text, "one two three");

    let gemini = GeminiTranscriber { max_chunk_ms: 1000, ..GeminiTranscriber::new("key", "m") };
    let (asked, text) = drive(gemini.upload(wav), &["one two", "", "two three"]);
    let reversed: Vec<Vec<u8>> =
        chunks.iter().map(|c| c.iter().rev().copied().collect()).collect();
    assert_eq!(asked, reversed);
    assert_eq!(text, "one two two three");
}

#[test]
fn audio_without_frames_cannot_be_cut() {
    let mut wav = wav_from_pcm(1, 16, 16000, &[0; 64000]);
    // the size of a frame
    wav[32] = 0;
    wav[33] = 0;
    assert!(is_cuttable(&wav, 1000));
    match Upload::start(wav, false, 1000, Joining::Stitch) {
        UploadStep::Failed(e) => assert_eq!(e, WavError::ZeroBlockAlign),
        other => panic!("{other:?}"),
    }
}

#[test]
fn chunks_must_be_longer_than_their_overlap() {
    let wav = wav_from_pcm(1, 16, 16000, &[0; 64000]);
    assert!(!is_cuttable(&wav, 500));
    assert!(is_cuttable(&wav, 501));
    assert!(is_cuttable(&wav, 2000));
}

#[test]
fn ffmpeg_is_run() {
    let run = ffmpeg_command("a.wav", "b.mp3");
    assert_eq!(run.program, "ffmpeg");
    assert_eq!(
        run.args.join(" "),
        "-y -loglevel error -i a.wav -codec:a libmp3lame -b:a 192k b.mp3"
    );
    assert_eq!(ffmpeg_failure("no file"), "ffmpeg failed: no file");
    assert_eq!(ffmpeg_error(b"bad \xff").unwrap(), "ffmpeg failed: bad \u{fffd}");
    assert_eq!(ffmpeg_error(&[0xff; 400]), None);
}

#[test]
fn scratch_files_are_named_by_time() {
    assert_eq!(temp_name(1754000000123456789, "wav"), "way_dictation_1754000000123456789.wav");
    assert_eq!(temp_name(0, "mp3"), "way_dictation_0.mp3");
    assert_eq!(dump_name(10, "mp3"), "req_10.mp3");
}

#[test]
fn dumps_go_to_the_first_directory() {
    let a = || Some("a".to_string());
    let b = || Some("b".to_string());
    assert_eq!(dump_dir(a(), b()), a());
    assert_eq!(dump_dir(None, b()), b());
    assert_eq!(dump_dir(None, None), None);
}
