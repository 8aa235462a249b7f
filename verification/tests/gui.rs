//! The desktop widget.

use way_dictation::client::{missing_key_message, ApiKeys, KeyVar, Transcriber};
use way_dictation::config::Settings;
use way_dictation::gui::{
    language_opt, languages, provider_opt, providers, Effect, Message, Tint, UiState,
    WayDictationApp, WindowPos,
};
use way_dictation::injector::InjectMethod;
use way_dictation::worker::{Cmd, Status, UiEvent};

const MS: u64 = 1_000_000;

fn keys() -> ApiKeys {
    ApiKeys { groq: None, openrouter: Some("o".to_string()), gemini: None }
}

fn no_keys() -> ApiKeys {
    ApiKeys { groq: None, openrouter: None, gemini: None }
}

fn widget() -> WayDictationApp {
    let mut app = WayDictationApp::new(Settings::default(), 0);
    assert!(app.update(Message::WindowId(Some(7)), 0).is_empty());
    app
}

fn listening() -> WayDictationApp {
    let mut app = widget();
    let effects = app.update(Message::Toggle, 0);
    assert!(matches!(effects[..], [Effect::Start]));
    assert!(app.start(&keys()).is_some());
    assert_eq!(app.state, UiState::Listening);
    app
}

#[test]
fn choices_are_found() {
    assert_eq!(providers().len(), 3);
    assert_eq!(languages().len(), 15);
    assert_eq!(provider_opt("groq").label, "Groq Whisper (free)");
    assert_eq!(provider_opt("gemini").label, "Gemini (OpenRouter)");
    assert_eq!(provider_opt("nope").value, "gpt-transcribe");
    assert_eq!(language_opt("ru").label, "Russian");
    assert_eq!(language_opt("").label, "Auto-detect");
    assert_eq!(language_opt("xx").label, "Auto-detect");
}

#[test]
fn a_fresh_widget_is_ready() {
    let app = widget();
    assert_eq!((app.status.as_str(), app.win_h), ("Ready", 420));
    let view = app.main_content(0);
    assert!(!view.playing && !view.pulsing);
    assert_eq!((view.tooltip, view.preview), ("Start dictation", ""));
    assert_eq!((view.status_tint, view.preview_tint), (Tint::Dim, Tint::Faint));
}

#[test]
fn play_starts_a_worker() {
    let mut app = widget();
    app.settings.model = "  my/model ".to_string();
    app.settings.language = " en ".to_string();
    app.update(Message::Toggle, 5);
    assert_eq!(app.bounce_at, Some(5));
    let plan = app.start(&keys()).unwrap();
    assert!(matches!(plan.transcriber, Transcriber::GptTranscribe(t) if t.model == "my/model"));
    assert_eq!(plan.language.as_deref(), Some("en"));
    assert_eq!(plan.injector.method, InjectMethod::Auto);
    assert!(app.worker && !app.fatal);
    assert_eq!(app.status, "Listening…");
    assert_eq!(app.hint, "Speak now, a short pause ends each phrase");
}

#[test]
fn a_missing_key_is_told() {
    let mut app = widget();
    assert!(app.start(&no_keys()).is_none());
    assert!(app.fatal);
    assert_eq!((app.state, app.status.as_str()), (UiState::Error, "API key missing"));
    assert_eq!(app.hint, missing_key_message("OPENROUTER_API_KEY", false));
    assert!(app.hint.contains("https://console.groq.com/keys"));
    app.settings.provider = "groq".to_string();
    assert!(app.start(&keys()).is_none());
    assert_eq!(app.hint, missing_key_message("GROQ_API_KEY", true));
    assert!(app.hint.contains("switch Provider to"));
    app.settings.provider = "nope".to_string();
    assert!(app.start(&keys()).is_none());
    assert!(app.hint.starts_with("Unknown provider: \"nope\" (expected"));
    assert_eq!(app.status_color(), Tint::Red);
}

#[test]
fn the_button_pauses_and_resumes() {
    let mut app = listening();
    let effects = app.update(Message::Toggle, 1);
    assert!(matches!(effects[..], [Effect::Send(Cmd::Pause)]));
    assert_eq!((app.status.as_str(), app.hint.as_str()), ("Paused", "Press play to resume"));
    assert_eq!(app.play_tooltip(), "Resume");
    let effects = app.update(Message::Toggle, 2);
    assert!(matches!(effects[..], [Effect::Send(Cmd::Resume)]));
    assert_eq!(app.state, UiState::Listening);
    assert_eq!(app.play_tooltip(), "Pause");
}

#[test]
fn quitting_stops_everything() {
    let mut app = listening();
    let effects = app.update(Message::Quit, 1);
    assert!(matches!(
        effects[..],
        [Effect::Send(Cmd::Pause), Effect::Send(Cmd::Stop), Effect::DropWorker, Effect::Close(7)]
    ));
    assert!(!app.worker);
    assert_eq!(app.state, UiState::Ready);
    let effects = app.update(Message::CloseRequested(7), 2);
    assert!(effects.is_empty());
}

#[test]
fn the_worker_is_heard() {
    let mut app = listening();
    app.update(Message::Worker(UiEvent::Status(Status::Transcribing)), 1);
    assert_eq!((app.status.as_str(), app.hint.as_str()), ("Listening…", "Sending audio to the cloud…"));
    app.update(Message::Worker(UiEvent::Status(Status::Listening)), 1);
    assert_eq!(app.hint, "Speak now, a short pause ends each phrase");
    app.update(Message::Worker(UiEvent::Phrase { text: "hello".to_string() }), 10);
    assert_eq!((app.transcript.as_str(), app.transcript_set), ("hello", Some(10)));
    let failed = UiEvent::Error { message: "oops".to_string(), fatal: false };
    app.update(Message::Worker(failed), 20);
    assert_eq!((app.transcript.as_str(), app.transcript_error), ("oops", true));
    assert!(app.worker);
    app.update(Message::Worker(UiEvent::Status(Status::Paused)), 30);
    assert_eq!(app.state, UiState::Paused);
    // a late word of the worker changes nothing
    app.update(Message::Worker(UiEvent::Status(Status::Listening)), 40);
    assert_eq!(app.hint, "Press play to resume");
}

#[test]
fn a_fatal_error_drops_the_worker() {
    let mut app = listening();
    let failed = UiEvent::Error { message: "Microphone error: x".to_string(), fatal: true };
    let effects = app.update(Message::Worker(failed), 1);
    assert!(matches!(effects[..], [Effect::DropWorker]));
    assert!(!app.worker && app.fatal);
    assert_eq!((app.status.as_str(), app.hint.as_str()), ("Stopped", "Microphone error: x"));
    let effects = app.update(Message::Toggle, 2);
    assert!(matches!(effects[..], [Effect::Start]));
}

#[test]
fn transcripts_are_dimmed() {
    let mut app = widget();
    app.set_transcript("hello".to_string(), false, 0);
    assert_eq!(app.transcript_color(2199 * MS), Tint::Text);
    assert_eq!(app.transcript_color(2200 * MS), Tint::Faint);
    app.update(Message::Tick, 2199 * MS);
    assert_eq!(app.transcript_set, Some(0));
    app.update(Message::Tick, 2500 * MS);
    assert_eq!(app.transcript_set, None);
    app.set_transcript("oops".to_string(), true, 0);
    assert_eq!(app.transcript_color(2599 * MS), Tint::Red);
    assert_eq!(app.transcript_color(2600 * MS), Tint::Faint);
    assert_eq!(app.main_content(0).preview, "oops");
}

#[test]
fn ticks_are_fast_while_something_moves() {
    let mut app = widget();
    assert_eq!(app.tick_interval(), 250);
    app.update(Message::Toggle, 0);
    assert_eq!(app.tick_interval(), 33);
    app.update(Message::Tick, 259 * MS);
    assert!(app.bounce_at.is_some());
    app.update(Message::Tick, 260 * MS);
    assert_eq!(app.tick_interval(), 250);
    assert_eq!(listening().tick_interval(), 33);
}

#[test]
fn the_window_fits_its_text() {
    let mut app = widget();
    // 58 characters are two lines, and one is kept for the transcript
    assert_eq!(app.desired_height(), 389 + 18 * 3);
    let effects = app.update(Message::Tick, 250 * MS);
    assert!(matches!(
        effects[..],
        [Effect::Resize { win: 7, height: 443 }, Effect::AskPosition(7)]
    ));
    let effects = app.update(Message::Tick, 500 * MS);
    assert!(matches!(effects[..], [Effect::AskPosition(7)]));
    // between two slow ticks nothing is done
    assert!(app.update(Message::Tick, 749 * MS).is_empty());
    app.transcript = "x".repeat(84);
    assert_eq!(app.desired_height(), 389 + 18 * 4);
    app.transcript = "é".repeat(85);
    assert_eq!(app.desired_height(), 389 + 18 * 5);
}

#[test]
fn the_position_is_saved_after_a_while() {
    let mut app = widget();
    let pos = Some(WindowPos { x: 3, y: -4 });
    app.update(Message::Position { pos, moved: true }, 100 * MS);
    assert_eq!(app.pos_save_due, Some(500 * MS));
    app.update(Message::Position { pos, moved: false }, 200 * MS);
    app.update(Message::Position { pos: None, moved: true }, 200 * MS);
    assert_eq!(app.pos_save_due, Some(500 * MS));
    app.update(Message::Tick, 499 * MS);
    assert_eq!(app.settings.pos, None);
    let effects = app.update(Message::Tick, 800 * MS);
    assert!(matches!(effects[..], [Effect::SaveSettings, Effect::AskPosition(7)]));
    assert_eq!(app.settings.pos, Some([3, -4]));
    assert_eq!(app.pos_save_due, None);
}

#[test]
fn settings_are_edited_and_saved() {
    let mut app = widget();
    let open = Message::OpenSettings { groq: Some("g".to_string()), openrouter: None };
    assert!(matches!(app.update(open, 0)[..], [Effect::OpenSettings]));
    app.update(Message::SettingsOpened(9), 0);
    assert_eq!(app.title(9), "Way Dictation - Settings");
    assert_eq!(app.title(7), "Way Dictation");
    assert!(app.is_settings(9) && !app.is_settings(7));
    let again = Message::OpenSettings { groq: None, openrouter: None };
    assert!(matches!(app.update(again, 0)[..], [Effect::Focus(9)]));
    app.update(Message::ToggleRevealGroq, 0);
    app.update(Message::KeyGroq(String::new()), 0);
    app.update(Message::KeyOpenrouter("o".to_string()), 0);
    app.update(Message::DraftProvider(provider_opt("groq")), 0);
    app.update(Message::DraftLanguage(language_opt("fr")), 0);
    app.update(Message::DraftModel("m".to_string()), 0);
    app.update(Message::DraftOntop(false), 0);
    let form = app.settings_content();
    assert_eq!((form.key_groq, form.key_openrouter, form.model), ("", "o", "m"));
    assert!(!form.hide_groq && form.hide_openrouter && !form.on_top && form.on_top_pressed);
    assert_eq!((form.provider.value, form.language.value), ("groq", "fr"));
    // nothing is in force before it is saved
    assert_eq!(app.settings.provider, "gpt-transcribe");
    let effects = app.update(Message::SaveSettings, 0);
    assert_eq!(effects.len(), 6);
    assert!(matches!(effects[0], Effect::SaveSettings));
    assert!(matches!(effects[1], Effect::SaveKeys));
    assert!(matches!(effects[2], Effect::RemoveVar(KeyVar::Groq)));
    assert!(matches!(&effects[3], Effect::SetVar(KeyVar::OpenRouter, v) if v == "o"));
    assert!(matches!(effects[4], Effect::SetLevel { win: 7, on_top: false }));
    assert!(matches!(effects[5], Effect::Close(9)));
    assert_eq!(app.settings.provider, "groq");
    assert_eq!(app.settings.language, "fr");
    assert_eq!(app.settings.model, "m");
    assert!(!app.settings.always_on_top);
    assert_eq!(app.settings_win, None);
    // an unchanged level is left alone
    assert_eq!(app.update(Message::SaveSettings, 0).len(), 4);
}

#[test]
fn settings_are_cancelled() {
    let mut app = widget();
    app.update(Message::OpenSettings { groq: None, openrouter: None }, 0);
    app.update(Message::SettingsOpened(9), 0);
    app.update(Message::DraftModel("m".to_string()), 0);
    assert!(matches!(app.update(Message::CancelSettings, 0)[..], [Effect::Close(9)]));
    assert_eq!(app.settings.model, "");
    assert!(app.update(Message::CancelSettings, 0).is_empty());
    app.update(Message::SettingsOpened(9), 0);
    assert!(app.update(Message::CloseRequested(9), 0).is_empty());
    assert_eq!(app.settings_win, None);
    app.update(Message::ToggleRevealOpenrouter, 0);
    assert!(app.reveal_openrouter);
}

#[test]
fn the_card_is_dragged() {
    let mut app = widget();
    assert!(matches!(app.update(Message::Drag, 0)[..], [Effect::Drag(7)]));
    app.update(Message::WindowId(None), 0);
    assert!(app.update(Message::Drag, 0).is_empty());
}

#[test]
fn states_have_words() {
    let mut app = listening();
    assert_eq!(app.main_content(0).preview, "…");
    assert_eq!(app.status_color(), Tint::Accent);
    app.set_state(UiState::Transcribing);
    assert_eq!((app.status.as_str(), app.hint.as_str()), ("Transcribing…", "Sending audio to the cloud"));
    assert_eq!(app.status_color(), Tint::Amber);
    assert!(app.main_content(0).playing && !app.main_content(0).pulsing);
    app.set_state(UiState::Error);
    assert_eq!((app.status.as_str(), app.hint.as_str()), ("Error", "Sending audio to the cloud"));
}
