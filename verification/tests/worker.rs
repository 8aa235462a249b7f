//! The two threads of the worker.

use way_dictation::worker::{
    after_typing, take_phrase, take_transcript, Action, Cmd, Coordinator, Event, Phase, Status,
    Typing, UiEvent, PHRASE_QUEUE,
};

fn recording() -> Coordinator {
    let (mut c, told) = Coordinator::start();
    assert!(matches!(told, UiEvent::Status(Status::Listening)));
    assert_eq!(c.action(), Action::Poll);
    assert!(c.on_event(Event::NoCommand).is_none());
    assert_eq!(c.action(), Action::Record);
    c
}

#[test]
fn phrases_are_recorded_and_queued() {
    let mut c = recording();
    assert!(c.on_event(Event::NoCommand).is_none());
    assert_eq!(c.action(), Action::Record);
    c.on_event(Event::Recorded);
    assert_eq!(c.action(), Action::Send);
    c.on_event(Event::Queued);
    assert_eq!(c.action(), Action::Poll);
    c.on_event(Event::NoCommand);
    c.on_event(Event::Recorded);
    c.on_event(Event::QueueFull);
    assert_eq!(c.action(), Action::Poll);
    c.on_event(Event::NoCommand);
    c.on_event(Event::Recorded);
    c.on_event(Event::ConsumerGone);
    assert_eq!(c.action(), Action::Exit);
    assert_eq!(PHRASE_QUEUE, 16);
}

#[test]
fn pausing_aborts_the_phrase() {
    let mut c = recording();
    c.on_event(Event::Command(Cmd::Pause));
    assert!(c.aborted && c.paused);
    c.on_event(Event::Recorded);
    // the phrase is not sent
    assert_eq!(c.action(), Action::Poll);
    assert!(matches!(c.on_event(Event::NoCommand), Some(UiEvent::Status(Status::Paused))));
    assert_eq!(c.action(), Action::Wait);
    assert!(c.on_event(Event::Command(Cmd::Pause)).is_none());
    assert_eq!(c.action(), Action::Wait);
    assert!(matches!(
        c.on_event(Event::Command(Cmd::Resume)),
        Some(UiEvent::Status(Status::Listening))
    ));
    assert_eq!(c.action(), Action::Poll);
    c.on_event(Event::NoCommand);
    assert!(!c.aborted && !c.paused);
    assert_eq!(c.action(), Action::Record);
}

#[test]
fn resuming_does_not_bring_the_phrase_back() {
    let mut c = recording();
    c.on_event(Event::Command(Cmd::Pause));
    c.on_event(Event::Command(Cmd::Resume));
    c.on_event(Event::Recorded);
    assert_eq!(c.action(), Action::Poll);
    c.on_event(Event::NoCommand);
    assert_eq!(c.phase, Phase::Recording);
    assert!(!c.aborted);
}

#[test]
fn stopping_ends_the_recorder() {
    let mut c = recording();
    c.on_event(Event::Command(Cmd::Pause));
    c.on_event(Event::Command(Cmd::Stop));
    assert!(c.aborted);
    assert_eq!(c.action(), Action::Record);
    c.on_event(Event::Recorded);
    assert_eq!(c.action(), Action::Exit);
    let (mut c, _) = Coordinator::start();
    c.on_event(Event::Disconnected);
    assert_eq!(c.action(), Action::Exit);
    assert!(c.on_event(Event::NoCommand).is_none());
    assert_eq!(c.action(), Action::Exit);
}

#[test]
fn a_phrase_outlives_its_commander() {
    let mut c = recording();
    for _ in 0..3 {
        assert!(c.on_event(Event::Disconnected).is_none());
        assert!(!c.aborted);
        assert_eq!(c.action(), Action::Record);
    }
    c.on_event(Event::Recorded);
    assert_eq!(c.action(), Action::Send);
    c.on_event(Event::Queued);
    assert_eq!(c.action(), Action::Poll);
    c.on_event(Event::Disconnected);
    assert_eq!(c.action(), Action::Exit);
}

#[test]
fn commands_between_phrases_are_taken() {
    let (mut c, _) = Coordinator::start();
    c.on_event(Event::Command(Cmd::Pause));
    c.on_event(Event::Command(Cmd::Resume));
    c.on_event(Event::Command(Cmd::Pause));
    assert!(matches!(c.on_event(Event::NoCommand), Some(UiEvent::Status(Status::Paused))));
    c.on_event(Event::Command(Cmd::Stop));
    assert_eq!(c.action(), Action::Exit);
}

#[test]
fn a_broken_microphone_is_fatal() {
    let mut c = recording();
    match c.on_event(Event::MicError("gone".to_string())) {
        Some(UiEvent::Error { message, fatal }) => {
            assert!(fatal);
            assert_eq!(message, "Microphone error: gone");
        }
        other => panic!("{other:?}"),
    }
    assert_eq!(c.action(), Action::Exit);
}

#[test]
fn phrases_are_dropped_while_paused() {
    assert!(matches!(
        take_phrase(&[0; 204], false),
        Some(UiEvent::Status(Status::Transcribing))
    ));
    assert!(take_phrase(&[0; 204], true).is_none());
    assert!(take_phrase(&[0; 203], false).is_none());
}

fn is_listening(event: &UiEvent) -> bool {
    matches!(event, UiEvent::Status(Status::Listening))
}

#[test]
fn transcripts_are_typed_unless_paused() {
    match take_transcript(Ok("hi".to_string()), false) {
        Typing::Type(text) => assert_eq!(text, "hi"),
        other => panic!("{other:?}"),
    }
    for (text, paused) in [("hi", true), ("", false)] {
        match take_transcript(Ok(text.to_string()), paused) {
            Typing::Report(events) => {
                assert_eq!(events.len(), 1);
                assert!(is_listening(&events[0]));
            }
            other => panic!("{other:?}"),
        }
    }
}

#[test]
fn failures_of_the_consumer_are_told() {
    let check = |events: Vec<UiEvent>, expected: &str| {
        assert_eq!(events.len(), 2);
        match &events[0] {
            UiEvent::Error { message, fatal } => {
                assert!(!fatal);
                assert_eq!(message, expected);
            }
            other => panic!("{other:?}"),
        }
        assert!(is_listening(&events[1]));
    };
    match take_transcript(Err("x".to_string()), false) {
        Typing::Report(events) => check(events, "Transcription error: x"),
        other => panic!("{other:?}"),
    }
    check(after_typing("hi".to_string(), Err("y".to_string())), "Injection error: y");
    let events = after_typing("hi".to_string(), Ok(()));
    assert!(matches!(&events[0], UiEvent::Phrase { text } if text == "hi"));
    assert!(is_listening(&events[1]));
}
