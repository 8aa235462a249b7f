//! A session of the Gemini Live API.

use way_dictation::live::{
    connect_order, endpoint, endpoint_of, Collector, Frame, GeminiLiveTranscriber, LiveError,
    Reaction,
};
use way_dictation::wav::{i16_to_pcm, wav_from_pcm, WavError};

fn transcriber() -> GeminiLiveTranscriber {
    GeminiLiveTranscriber::new("a+b", "model-x")
}

fn text(json: &str) -> Frame {
    Frame::Text(json.to_string())
}

fn heard(s: &str) -> String {
    format!("{{\"serverContent\":{{\"inputTranscription\":{{\"text\":\"{s}\"}}}}}}")
}

#[test]
fn only_one_format_is_taken() {
    let t = transcriber();
    let good = wav_from_pcm(1, 16, 16000, &[1, 2, 3, 4]);
    assert_eq!(t.samples(&good).unwrap(), vec![1, 2, 3, 4]);
    let stereo = wav_from_pcm(2, 16, 44100, &[1, 2, 3, 4]);
    assert_eq!(
        t.samples(&stereo).unwrap_err().message(),
        "Gemini Live requires 16 kHz mono 16-bit PCM audio, got 44100 Hz / 2 ch / 16-bit. \
         Re-record or convert: ffmpeg -i in.wav -ar 16000 -ac 1 -acodec pcm_s16le out.wav"
    );
    let e = t.samples(b"?").unwrap_err();
    assert!(matches!(e, LiveError::NotWav(WavError::NotRiff)));
    assert_eq!(e.message(), "parsing WAV for Gemini Live");
}

#[test]
fn recordings_are_taken() {
    let samples: Vec<i16> = (0..1600).collect();
    let pcm = i16_to_pcm(&samples);
    assert_eq!(transcriber().samples(&wav_from_pcm(1, 16, 16000, &pcm)).unwrap(), pcm);
}

#[test]
fn the_key_is_encoded_in_the_address() {
    assert_eq!(
        transcriber().url(),
        "wss://generativelanguage.googleapis.com/ws/google.ai.generativelanguage.v1beta.\
         GenerativeService.BidiGenerateContent?key=a%2Bb"
    );
}

#[test]
fn a_session_is_set_up() {
    assert_eq!(
        transcriber().setup(Some("en")),
        "{\"setup\":{\"generationConfig\":{\"responseModalities\":[\"TEXT\"]},\
         \"inputAudioTranscription\":{\"languageCodes\":[\"en\"]},\"model\":\"models/model-x\"}}"
    );
    assert!(transcriber().setup(None).contains("\"languageCodes\":[]"));
}

#[test]
fn audio_is_streamed_in_chunks() {
    let pcm: Vec<u8> = (0..7000u32).map(|i| i as u8).collect();
    let messages = transcriber().stream(&pcm);
    // 100 ms are 3200 bytes
    assert_eq!(messages.len(), 4);
    let data: Vec<usize> = messages[..3]
        .iter()
        .map(|m| {
            let v: serde_json::Value = serde_json::from_str(m).unwrap();
            let audio = &v["realtimeInput"]["audio"];
            assert_eq!(audio["mimeType"], "audio/pcm;rate=16000");
            audio["data"].as_str().unwrap().len()
        })
        .collect();
    assert_eq!(data, vec![4268, 4268, 800]);
    assert_eq!(messages[3], "{\"realtimeInput\":{\"audioStreamEnd\":true}}");
    assert_eq!(transcriber().stream(&[]).len(), 1);
    let tiny = GeminiLiveTranscriber { max_chunk_ms: 0, ..transcriber() };
    assert_eq!(
        tiny.stream(b"Ma")[0],
        "{\"realtimeInput\":{\"audio\":{\"data\":\"TWE=\",\"mimeType\":\"audio/pcm;rate=16000\"}}}"
    );
    assert_eq!(tiny.stream(b"Mamam").len(), 4);
}

#[test]
fn audio_is_sent_at_its_own_pace() {
    let t = transcriber();
    let n = t.stream(&[0; 7000]).len();
    let waits: Vec<u32> = (0..n).map(|i| t.pause_after(i, n)).collect();
    assert_eq!(waits, vec![100, 100, 100, 0]);
    // the mark of the end alone
    assert_eq!(t.pause_after(0, 1), 0);
    assert_eq!(t.pause_after(0, 0), 0);
}

#[test]
fn reading_ends_when_its_time_is_over() {
    let mut c = Collector::new();
    assert!(matches!(c.before_read(false), Reaction::Continue));
    c.on_frame(text(&heard("one")));
    assert!(matches!(c.before_read(false), Reaction::Continue));
    assert!(matches!(c.before_read(true), Reaction::Finish));
    assert_eq!(c.finish().unwrap(), "one");
}

#[test]
fn texts_are_collected() {
    let mut c = Collector::new();
    assert!(matches!(c.on_frame(text(&heard(" one "))), Reaction::Continue));
    assert!(matches!(c.on_frame(Frame::Binary(heard("two").into_bytes())), Reaction::Continue));
    // nothing is finalized by these
    assert!(matches!(c.on_frame(text(&heard("  "))), Reaction::Continue));
    assert!(matches!(c.on_frame(text("no json")), Reaction::Continue));
    assert!(matches!(c.on_frame(text("{\"setupComplete\":{}}")), Reaction::Continue));
    assert!(matches!(c.on_frame(Frame::Other), Reaction::Continue));
    assert!(matches!(c.on_frame(Frame::Binary(vec![0xff, 0xfe])), Reaction::Continue));
    assert_eq!(c.finish().unwrap(), "one two");
}

#[test]
fn the_end_of_the_turn_is_seen() {
    let last = "{\"serverContent\":{\"inputTranscription\":{\"text\":\"end\"},\
                \"generationComplete\":true}}";
    let mut c = Collector::new();
    assert!(matches!(c.on_frame(text(last)), Reaction::Finish));
    assert_eq!(c.finish().unwrap(), "end");
    let mut c = Collector::new();
    assert!(matches!(
        c.on_frame(text("{\"serverContent\":{\"turnComplete\":true}}")),
        Reaction::Finish
    ));
    assert!(matches!(
        c.on_frame(text("{\"serverContent\":{\"turnComplete\":false}}")),
        Reaction::Continue
    ));
    assert!(matches!(c.on_frame(Frame::Close), Reaction::Finish));
    match c.on_frame(Frame::Ping(vec![1, 2])) {
        Reaction::Pong(p) => assert_eq!(p, vec![1, 2]),
        other => panic!("{other:?}"),
    }
}

#[test]
fn errors_of_the_service_are_told() {
    let mut c = Collector::new();
    match c.on_frame(text("{\"error\":{\"b\":1,\"a\":\"x\"}}")) {
        Reaction::Fail(e) => {
            assert!(e.can_print());
            assert_eq!(e.message(), "Gemini Live API error: {\"a\":\"x\",\"b\":1}");
        }
        other => panic!("{other:?}"),
    }
    let long = LiveError::Api(format!("{}é", "x".repeat(399)));
    assert!(!long.can_print());
    assert!(c.parts.is_empty());
}

#[test]
fn messages_are_taken_from_their_parsed_form() {
    let mut c = Collector::new();
    assert!(matches!(c.on_message(None), Reaction::Continue));
    let v: serde_json::Value = serde_json::from_str(&heard("hi")).unwrap();
    assert!(matches!(c.on_message(Some(v)), Reaction::Continue));
    assert_eq!(c.parts, vec!["hi"]);
}

#[test]
fn quiet_errors_end_the_wait() {
    let c = Collector::new();
    for quiet in [
        "IO error: operation timed out",
        "WouldBlock",
        "IO error: Resource temporarily unavailable (os error 11)",
        "Connection reset without closing handshake",
    ] {
        assert!(matches!(c.on_read_error(quiet), Reaction::Finish));
    }
    match c.on_read_error("broken pipe") {
        Reaction::Fail(e) => assert_eq!(e.message(), "reading from Gemini Live API: broken pipe"),
        other => panic!("{other:?}"),
    }
}

#[test]
fn no_text_is_an_error() {
    assert_eq!(
        Collector::new().finish().unwrap_err().message(),
        "Gemini Live returned no transcript for this audio"
    );
}

#[test]
fn hosts_are_taken_from_addresses() {
    assert_eq!(
        endpoint(&transcriber().url()).unwrap(),
        "generativelanguage.googleapis.com:443"
    );
    assert_eq!(endpoint("wss://h:8443/x").unwrap(), "h:8443");
    assert!(matches!(endpoint("/only/a/path"), Err(LiveError::NoHost)));
    assert!(matches!(endpoint("wss://a b"), Err(LiveError::BadUrl(_))));
    assert_eq!(endpoint_of(Ok((Some("h".to_string()), None))).unwrap(), "h:443");
    assert_eq!(
        endpoint_of(Err("bad".to_string())).unwrap_err().message(),
        "invalid Live API URL: bad"
    );
    assert_eq!(endpoint_of(Ok((None, None))).unwrap_err().message(), "Live API URL has no host");
}

#[test]
fn ipv4_is_tried_first() {
    assert_eq!(connect_order(&[true, false, true, false]), vec![1, 3, 0, 2]);
    assert_eq!(connect_order(&[]), Vec::<usize>::new());
}

#[test]
fn failures_of_the_connection_are_told() {
    let cases = vec![
        (LiveError::Unresolved, "resolving Gemini Live API host"),
        (
            LiveError::Unreachable(Some("refused".to_string())),
            "could not connect to Gemini Live API: refused",
        ),
        (LiveError::Unreachable(None), "could not connect to Gemini Live API: no addresses"),
        (LiveError::Handshake("x".to_string()), "Gemini Live WebSocket handshake: x"),
        (LiveError::Unsent, "sending to Gemini Live API"),
    ];
    for (e, message) in cases {
        assert_eq!(e.message(), message);
    }
}
