//! Dictation without a window, and the command line.

use way_dictation::app::{DictationApp, PhraseLoop, Recorded, Skip, MIN_WAV_BYTES};
use way_dictation::audio::{phrase_wav, VadConfig};
use way_dictation::cli::{mode, normalize_provider, Mode};
use way_dictation::client::{GroqTranscriber, Transcriber};
use way_dictation::injector::{InjectMethod, Injector};

fn app(auto_inject: bool) -> DictationApp {
    DictationApp::new(
        Transcriber::Groq(GroqTranscriber::new("key", "m")),
        Injector::new(InjectMethod::Auto),
        Some("en".to_string()),
        auto_inject,
    )
}

#[test]
fn recordings_are_transcribed_or_skipped() {
    let app = app(true);
    assert_eq!(MIN_WAV_BYTES, 44 + 160);
    match app.after_recording(Ok(vec![0; 204]), false) {
        Recorded::Transcribe(wav) => assert_eq!(wav.len(), 204),
        other => panic!("{other:?}"),
    }
    assert!(matches!(
        app.after_recording(Ok(vec![0; 203]), false),
        Recorded::Skip(Skip::NoSpeech)
    ));
    assert!(matches!(
        app.after_recording(Ok(vec![0; 204]), true),
        Recorded::Skip(Skip::Cancelled)
    ));
    match app.after_recording(Err("no mic".to_string()), true) {
        Recorded::Skip(Skip::MicError(e)) => assert_eq!(e, "no mic"),
        other => panic!("{other:?}"),
    }
}

#[test]
fn transcripts_are_typed_where_that_is_wanted() {
    let next = app(true).after_transcription(Ok("hi".to_string()));
    assert_eq!((next.text, next.inject), (Some("hi".to_string()), true));
    let next = app(true).after_transcription(Ok(String::new()));
    assert_eq!((next.text, next.inject), (Some(String::new()), false));
    let next = app(false).after_transcription(Ok("hi".to_string()));
    assert_eq!((next.text, next.inject), (Some("hi".to_string()), false));
    let next = app(true).after_transcription(Err("x".to_string()));
    assert_eq!((next.text, next.inject), (None, false));
}

#[test]
fn a_run_has_as_many_phrases_as_asked_for() {
    let mut run = PhraseLoop::new(Some(2));
    assert!(run.next(false));
    assert!(run.next(false));
    assert!(!run.next(false));
    assert_eq!(run.done, 2);
    assert!(!PhraseLoop::new(Some(0)).next(false));
    assert!(PhraseLoop::new(None).next(false));
    assert!(!PhraseLoop::new(None).next(true));
}

#[test]
fn providers_have_one_name() {
    assert_eq!(normalize_provider("OpenRouter"), "gemini");
    assert_eq!(normalize_provider("GPT"), "gpt-transcribe");
    assert_eq!(normalize_provider("gpttranscribe"), "gpt-transcribe");
    assert_eq!(normalize_provider("Groq"), "groq");
    assert_eq!(normalize_provider("GLive"), "glive");
}

#[test]
fn options_have_an_order() {
    let file = || Some("a.wav".to_string());
    assert!(matches!(mode(file(), true, Some(3)), Mode::File(path) if path == "a.wav"));
    assert!(matches!(mode(None, true, Some(3)), Mode::Once));
    assert!(matches!(mode(None, false, Some(3)), Mode::Count(3)));
    assert!(matches!(mode(None, false, None), Mode::Continuous));
}

fn levels(trim_silence: bool) -> VadConfig {
    VadConfig { trim_silence, ..VadConfig::default() }
}

#[test]
fn silence_is_not_transcribed() {
    // also where there is less of it than a frame
    for samples in [&[1i16; 3200][..], &[1; 319], &[0; 80]] {
        let wav = phrase_wav(&levels(true), samples);
        assert_eq!(wav.len(), 44);
        assert!(matches!(
            app(true).after_recording(Ok(wav), false),
            Recorded::Skip(Skip::NoSpeech)
        ));
    }
}

#[test]
fn eighty_samples_are_enough() {
    let enough = phrase_wav(&levels(false), &[1; 80]);
    assert!(matches!(app(true).after_recording(Ok(enough), false), Recorded::Transcribe(_)));
    let less = phrase_wav(&levels(false), &[1; 79]);
    assert!(matches!(
        app(true).after_recording(Ok(less), false),
        Recorded::Skip(Skip::NoSpeech)
    ));
}

#[test]
fn provider_names_are_settled() {
    for name in ["OPENROUTER", "gpt", "Groq", "other"] {
        let once = normalize_provider(name);
        assert_eq!(normalize_provider(&once), once);
    }
}
