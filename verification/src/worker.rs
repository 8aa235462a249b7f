//! The worker of the desktop widget: two threads that record and transcribe.
//!
//! The recorder never waits for the cloud, so what is said while a phrase is
//! transcribed is still captured. Phrases go through a bounded queue to the
//! consumer, which transcribes and types them in order. Pausing aborts the
//! phrase that is being recorded and drops those that wait.

use vstd::prelude::*;
use vstd::string::*;

use crate::app::MIN_WAV_BYTES;

verus! {

/// How many phrases may wait to be transcribed.
pub const PHRASE_QUEUE: usize = 16;

/// A command to the recorder.
#[derive(Debug, Clone, Copy, PartialEq, Eq, Structural)]
pub enum Cmd {
    Pause,
    Resume,
    Stop,
}

/// What the worker is doing.
#[derive(Debug, Clone, Copy, PartialEq, Eq, Structural)]
pub enum Status {
    Listening,
    Transcribing,
    Paused,
}

/// What the worker tells the widget.
#[derive(Debug, Clone)]
pub enum UiEvent {
    Status(Status),
    /// A phrase was typed.
    Phrase { text: String },
    /// Something failed. After a fatal error the worker is gone.
    Error { message: String, fatal: bool },
}

// ---------------------------------------------------------------------------
// The recorder
// ---------------------------------------------------------------------------

/// Where the recorder stands.
#[derive(Debug, Clone, Copy, PartialEq, Eq, Structural)]
pub enum Phase {
    /// Between phrases, taking the commands that wait.
    Draining,
    /// Paused, waiting for a command.
    Waiting,
    /// Recording a phrase.
    Recording,
    /// Handing a phrase to the consumer.
    Sending,
    /// Recording a phrase that is dropped, and then gone.
    Stopping,
    Gone,
}

/// The recorder.
#[derive(Debug, Clone, Copy, PartialEq, Eq, Structural)]
pub struct Coordinator {
    pub phase: Phase,
    /// Whether nothing is to be recorded or typed.
    pub paused: bool,
    /// Whether the phrase that is being recorded is aborted.
    pub aborted: bool,
}

/// What happens to the recorder.
#[derive(Debug)]
pub enum Event {
    /// A command came.
    Command(Cmd),
    /// No command waits.
    NoCommand,
    /// No command can come any more.
    Disconnected,
    /// A phrase was recorded.
    Recorded,
    /// The microphone failed.
    MicError(String),
    /// The phrase is in the queue.
    Queued,
    /// The queue is full; the phrase is dropped.
    QueueFull,
    /// The consumer is gone.
    ConsumerGone,
}

/// What the recorder does next.
#[derive(Debug, Clone, Copy, PartialEq, Eq, Structural)]
pub enum Action {
    /// Take a command if one waits.
    Poll,
    /// Wait for a command.
    Wait,
    /// Record a phrase, taking commands meanwhile.
    Record,
    /// Put the recorded phrase in the queue.
    Send,
    Exit,
}

/// What the recorder does in a phase.
pub open spec fn action_in(phase: Phase) -> Action {
    match phase {
        Phase::Draining => Action::Poll,
        Phase::Waiting => Action::Wait,
        Phase::Recording => Action::Record,
        Phase::Sending => Action::Send,
        Phase::Stopping => Action::Record,
        Phase::Gone => Action::Exit,
    }
}

/// The recorder after an event. An event that cannot happen in a phase changes
/// nothing.
pub open spec fn after_event(c: Coordinator, event: Event) -> Coordinator {
    match (c.phase, event) {
        // between phrases
        (Phase::Draining, Event::Command(Cmd::Pause)) => Coordinator { paused: true, ..c },
        (Phase::Draining, Event::Command(Cmd::Resume)) => Coordinator { paused: false, ..c },
        (Phase::Draining, Event::Command(Cmd::Stop)) => Coordinator { phase: Phase::Gone, ..c },
        (Phase::Draining, Event::Disconnected) => Coordinator { phase: Phase::Gone, ..c },
        (Phase::Draining, Event::NoCommand) => if c.paused {
            Coordinator { phase: Phase::Waiting, ..c }
        } else {
            Coordinator { phase: Phase::Recording, aborted: false, ..c }
        },
        // paused
        (Phase::Waiting, Event::Command(Cmd::Resume)) => Coordinator {
            phase: Phase::Draining,
            paused: false,
            ..c
        },
        (Phase::Waiting, Event::Command(Cmd::Stop)) => Coordinator { phase: Phase::Gone, ..c },
        (Phase::Waiting, Event::Disconnected) => Coordinator { phase: Phase::Gone, ..c },
        // while a phrase is recorded
        (Phase::Recording, Event::Command(Cmd::Pause)) => Coordinator {
            paused: true,
            aborted: true,
            ..c
        },
        (Phase::Recording, Event::Command(Cmd::Resume)) => Coordinator { paused: false, ..c },
        (Phase::Recording, Event::Command(Cmd::Stop)) => Coordinator {
            phase: Phase::Stopping,
            aborted: true,
            ..c
        },
        (Phase::Recording, Event::Recorded) => if c.aborted {
            Coordinator { phase: Phase::Draining, ..c }
        } else {
            Coordinator { phase: Phase::Sending, ..c }
        },
        (Phase::Recording, Event::MicError(_)) => Coordinator { phase: Phase::Gone, ..c },
        (Phase::Stopping, Event::Recorded) => Coordinator { phase: Phase::Gone, ..c },
        (Phase::Stopping, Event::MicError(_)) => Coordinator { phase: Phase::Gone, ..c },
        // after a phrase
        (Phase::Sending, Event::Queued) => Coordinator { phase: Phase::Draining, ..c },
        (Phase::Sending, Event::QueueFull) => Coordinator { phase: Phase::Draining, ..c },
        (Phase::Sending, Event::ConsumerGone) => Coordinator { phase: Phase::Gone, ..c },
        _ => c,
    }
}

/// Whether `report` is what the widget is told of an event.
pub open spec fn is_report(c: Coordinator, event: Event, report: Option<UiEvent>) -> bool {
    match (c.phase, event) {
        (Phase::Draining, Event::NoCommand) if c.paused => report == Some(
            UiEvent::Status(Status::Paused),
        ),
        (Phase::Waiting, Event::Command(Cmd::Resume)) => report == Some(
            UiEvent::Status(Status::Listening),
        ),
        (Phase::Recording, Event::MicError(e)) => report matches Some(
            UiEvent::Error { message, fatal },
        ) && fatal && message@ == "Microphone error: "@ + e@,
        (Phase::Stopping, Event::MicError(e)) => report matches Some(
            UiEvent::Error { message, fatal },
        ) && fatal && message@ == "Microphone error: "@ + e@,
        _ => report is None,
    }
}

impl Coordinator {
    /// A recorder that starts, and what the widget is told.
    pub fn start() -> (started: (Self, UiEvent))
        ensures
            started.0 == (Coordinator { phase: Phase::Draining, paused: false, aborted: false }),
            started.1 == UiEvent::Status(Status::Listening),
    {
        (
            Coordinator { phase: Phase::Draining, paused: false, aborted: false },
            UiEvent::Status(Status::Listening),
        )
    }

    /// What is done next.
    pub fn action(&self) -> (action: Action)
        ensures
            action == action_in(self.phase),
    {
        match self.phase {
            Phase::Draining => Action::Poll,
            Phase::Waiting => Action::Wait,
            Phase::Recording => Action::Record,
            Phase::Sending => Action::Send,
            Phase::Stopping => Action::Record,
            Phase::Gone => Action::Exit,
        }
    }

    /// Takes an event; what the widget is told of it.
    pub fn on_event(&mut self, event: Event) -> (report: Option<UiEvent>)
        ensures
            *final(self) == after_event(*old(self), event),
            is_report(*old(self), event, report),
    {
        match self.phase {
            Phase::Draining => match event {
                Event::Command(Cmd::Pause) => {
                    self.paused = true;
                    None
                },
                Event::Command(Cmd::Resume) => {
                    self.paused = false;
                    None
                },
                Event::Command(Cmd::Stop) => {
                    self.phase = Phase::Gone;
                    None
                },
                Event::Disconnected => {
                    self.phase = Phase::Gone;
                    None
                },
                Event::NoCommand => {
                    if self.paused {
                        self.phase = Phase::Waiting;
                        Some(UiEvent::Status(Status::Paused))
                    } else {
                        self.aborted = false;
                        self.phase = Phase::Recording;
                        None
                    }
                },
                _ => None,
            },
            Phase::Waiting => match event {
                Event::Command(Cmd::Resume) => {
                    self.paused = false;
                    self.phase = Phase::Draining;
                    Some(UiEvent::Status(Status::Listening))
                },
                Event::Command(Cmd::Stop) => {
                    self.phase = Phase::Gone;
                    None
                },
                Event::Disconnected => {
                    self.phase = Phase::Gone;
                    None
                },
                _ => None,
            },
            Phase::Recording => match event {
                Event::Command(Cmd::Pause) => {
                    self.paused = true;
                    self.aborted = true;
                    None
                },
                Event::Command(Cmd::Resume) => {
                    self.paused = false;
                    None
                },
                Event::Command(Cmd::Stop) => {
                    self.aborted = true;
                    self.phase = Phase::Stopping;
                    None
                },
                Event::Recorded => {
                    self.phase = if self.aborted {
                        Phase::Draining
                    } else {
                        Phase::Sending
                    };
                    None
                },
                Event::MicError(e) => {
                    self.phase = Phase::Gone;
                    Some(mic_error(e.as_str()))
                },
                _ => None,
            },
            Phase::Stopping => match event {
                Event::Recorded => {
                    self.phase = Phase::Gone;
                    None
                },
                Event::MicError(e) => {
                    self.phase = Phase::Gone;
                    Some(mic_error(e.as_str()))
                },
                _ => None,
            },
            Phase::Sending => match event {
                Event::Queued => {
                    self.phase = Phase::Draining;
                    None
                },
                Event::QueueFull => {
                    self.phase = Phase::Draining;
                    None
                },
                Event::ConsumerGone => {
                    self.phase = Phase::Gone;
                    None
                },
                _ => None,
            },
            Phase::Gone => None,
        }
    }
}

fn mic_error(error: &str) -> (event: UiEvent)
    ensures
        event matches UiEvent::Error { message, fatal } && fatal && message@
            == "Microphone error: "@ + error@,
{
    UiEvent::Error { message: "Microphone error: ".to_string().concat(error), fatal: true }
}

/// The recorder after several events.
pub open spec fn after_events(c: Coordinator, events: Seq<Event>) -> Coordinator
    decreases events.len(),
{
    if events.len() == 0 {
        c
    } else {
        after_event(after_events(c, events.drop_last()), events.last())
    }
}

/// Whether an event ends the recording of a phrase.
pub open spec fn ends_recording(event: Event) -> bool {
    event is Recorded || event is MicError
}

/// A phrase that is being recorded when a pause comes is never sent, even where
/// the user resumes before its recording has ended.
pub proof fn law_pause_aborts_the_phrase(c: Coordinator, meanwhile: Seq<Event>)
    requires
        c.phase == Phase::Recording,
        forall|i: int| 0 <= i < meanwhile.len() ==> !ends_recording(#[trigger] meanwhile[i]),
    ensures
        ({
            let paused = after_event(c, Event::Command(Cmd::Pause));
            let ended = after_event(after_events(paused, meanwhile), Event::Recorded);
            ended.phase != Phase::Sending
        }),
{
    lemma_stays_aborted(after_event(c, Event::Command(Cmd::Pause)), meanwhile);
}

/// A phrase that is being recorded when no command can come any more is still
/// recorded to its end and sent; then the recorder goes.
pub proof fn law_phrase_outlives_its_commander(c: Coordinator, meanwhile: Seq<Event>)
    requires
        c.phase == Phase::Recording,
        !c.aborted,
        forall|i: int| 0 <= i < meanwhile.len() ==> (#[trigger] meanwhile[i]) is Disconnected,
    ensures
        after_events(c, meanwhile) == c,
        ({
            let recorded = after_event(after_events(c, meanwhile), Event::Recorded);
            &&& recorded.phase == Phase::Sending
            &&& after_event(after_event(recorded, Event::Queued), Event::Disconnected).phase
                == Phase::Gone
        }),
    decreases meanwhile.len(),
{
    if meanwhile.len() > 0 {
        let before = meanwhile.drop_last();
        assert forall|i: int| 0 <= i < before.len() implies (
        #[trigger] before[i]) is Disconnected by {
            assert(before[i] == meanwhile[i]);
        }
        law_phrase_outlives_its_commander(c, before);
        assert(meanwhile[meanwhile.len() - 1] is Disconnected);
    }
}

proof fn lemma_stays_aborted(c: Coordinator, events: Seq<Event>)
    requires
        c.phase == Phase::Recording || c.phase == Phase::Stopping,
        c.aborted,
        forall|i: int| 0 <= i < events.len() ==> !ends_recording(#[trigger] events[i]),
    ensures
        after_events(c, events).phase == Phase::Recording || after_events(c, events).phase
            == Phase::Stopping,
        after_events(c, events).aborted,
        c.phase == Phase::Stopping ==> after_events(c, events).phase == Phase::Stopping,
    decreases events.len(),
{
    if events.len() > 0 {
        let before = events.drop_last();
        assert forall|i: int| 0 <= i < before.len() implies !ends_recording(
            #[trigger] before[i],
        ) by {
            assert(before[i] == events[i]);
        }
        lemma_stays_aborted(c, before);
        assert(!ends_recording(events[events.len() - 1]));
    }
}

/// What holds of the recorder at all times: a phrase that is being recorded is
/// aborted where the user has paused, and only a phrase that was not aborted is
/// sent.
pub open spec fn sound(c: Coordinator) -> bool {
    &&& c.phase == Phase::Recording && c.paused ==> c.aborted
    &&& c.phase == Phase::Sending ==> !c.aborted && !c.paused
    &&& c.phase == Phase::Waiting ==> c.paused
    &&& c.phase == Phase::Stopping ==> c.aborted
}

/// However a recorder is driven, it stays sound.
pub proof fn law_recorder_stays_sound(events: Seq<Event>)
    ensures
        sound(
            after_events(
                Coordinator { phase: Phase::Draining, paused: false, aborted: false },
                events,
            ),
        ),
    decreases events.len(),
{
    if events.len() > 0 {
        law_recorder_stays_sound(events.drop_last());
    }
}

/// A phrase is begun only where the user has not paused.
pub proof fn law_no_phrase_begins_while_paused(c: Coordinator, event: Event)
    requires
        c.phase != Phase::Recording,
        after_event(c, event).phase == Phase::Recording,
    ensures
        !c.paused,
        !after_event(c, event).paused,
        !after_event(c, event).aborted,
{
}

/// A recorder that is told to stop is gone once the phrase that is being
/// recorded has ended, and sends it to nobody.
pub proof fn law_stop_ends_the_recorder(c: Coordinator, meanwhile: Seq<Event>)
    requires
        c.phase != Phase::Sending,
        forall|i: int| 0 <= i < meanwhile.len() ==> !ends_recording(#[trigger] meanwhile[i]),
    ensures
        ({
            let stopped = after_event(c, Event::Command(Cmd::Stop));
            let ended = after_event(after_events(stopped, meanwhile), Event::Recorded);
            ended.phase == Phase::Gone
        }),
{
    let stopped = after_event(c, Event::Command(Cmd::Stop));
    if c.phase == Phase::Recording {
        lemma_stays_aborted(stopped, meanwhile);
    } else if c.phase == Phase::Stopping {
        lemma_stays_stopping(stopped, meanwhile);
    } else {
        lemma_stays_gone(stopped, meanwhile);
    }
}

proof fn lemma_stays_stopping(c: Coordinator, events: Seq<Event>)
    requires
        c.phase == Phase::Stopping,
        forall|i: int| 0 <= i < events.len() ==> !ends_recording(#[trigger] events[i]),
    ensures
        after_events(c, events).phase == Phase::Stopping,
    decreases events.len(),
{
    if events.len() > 0 {
        let before = events.drop_last();
        assert forall|i: int| 0 <= i < before.len() implies !ends_recording(
            #[trigger] before[i],
        ) by {
            assert(before[i] == events[i]);
        }
        lemma_stays_stopping(c, before);
        assert(!ends_recording(events[events.len() - 1]));
    }
}

proof fn lemma_stays_gone(c: Coordinator, events: Seq<Event>)
    requires
        c.phase == Phase::Gone,
    ensures
        after_events(c, events).phase == Phase::Gone,
    decreases events.len(),
{
    if events.len() > 0 {
        lemma_stays_gone(c, events.drop_last());
    }
}

/// A full queue costs one phrase and nothing else: the recorder goes on as if
/// the phrase had been queued.
pub proof fn law_full_queue_drops_one_phrase(c: Coordinator)
    requires
        c.phase == Phase::Sending,
    ensures
        after_event(c, Event::QueueFull) == after_event(c, Event::Queued),
        after_event(c, Event::QueueFull).phase == Phase::Draining,
{
}

// ---------------------------------------------------------------------------
// The consumer
// ---------------------------------------------------------------------------

/// What the consumer does with a transcript.
#[derive(Debug)]
pub enum Typing {
    /// Type it.
    Type(String),
    /// Tell the widget, and wait for the next phrase.
    Report(Vec<UiEvent>),
}

/// Whether a phrase of so many bytes is transcribed: not while paused, nor where
/// it is too short.
pub open spec fn is_taken(len: nat, paused: bool) -> bool {
    !paused && len >= MIN_WAV_BYTES
}

/// What is typed of a transcript, if anything is.
pub open spec fn to_type(result: Result<String, String>, paused: bool) -> Option<Seq<char>> {
    match result {
        Ok(text) => if text@.len() > 0 && !paused {
            Some(text@)
        } else {
            None
        },
        Err(_) => None,
    }
}

/// What the widget is told when a phrase is taken from the queue, where it is
/// transcribed: phrases are dropped while paused, and so is audio that is too
/// short.
pub fn take_phrase(wav: &[u8], paused: bool) -> (report: Option<UiEvent>)
    ensures
        report == if paused || wav@.len() < MIN_WAV_BYTES {
            None
        } else {
            Some(UiEvent::Status(Status::Transcribing))
        },
        report is Some <==> is_taken(wav@.len(), paused),
{
    if paused || wav.len() < MIN_WAV_BYTES {
        None
    } else {
        Some(UiEvent::Status(Status::Transcribing))
    }
}

/// Whether the events are one error that is not fatal, and then that the worker
/// listens.
pub open spec fn is_error_report(events: Seq<UiEvent>, text: Seq<char>) -> bool {
    &&& events.len() == 2
    &&& events[0] matches UiEvent::Error { message, fatal } && !fatal && message@ == text
    &&& events[1] == UiEvent::Status(Status::Listening)
}

fn error_report(kind: &str, error: &str) -> (events: Vec<UiEvent>)
    ensures
        is_error_report(events@, kind@ + error@),
{
    let mut events: Vec<UiEvent> = Vec::new();
    events.push(UiEvent::Error { message: kind.to_string().concat(error), fatal: false });
    events.push(UiEvent::Status(Status::Listening));
    events
}

/// What is done with a transcript (or the error of the transcription): it is
/// typed unless it is empty or the user has paused meanwhile.
pub fn take_transcript(result: Result<String, String>, paused: bool) -> (next: Typing)
    ensures
        match result {
            Ok(text) => if text@.len() > 0 && !paused {
                next == Typing::Type(text)
            } else {
                next matches Typing::Report(events) && events@ == seq![
                    UiEvent::Status(Status::Listening),
                ]
            },
            Err(e) => next matches Typing::Report(events) && is_error_report(
                events@,
                "Transcription error: "@ + e@,
            ),
        },
        match next {
            Typing::Type(text) => to_type(result, paused) == Some(text@),
            Typing::Report(_) => to_type(result, paused) is None,
        },
{
    match result {
        Ok(text) => {
            if !text.as_str().is_empty() && !paused {
                return Typing::Type(text);
            }
            let mut events: Vec<UiEvent> = Vec::new();
            events.push(UiEvent::Status(Status::Listening));
            assert(events@ =~= seq![UiEvent::Status(Status::Listening)]);
            Typing::Report(events)
        },
        Err(e) => Typing::Report(error_report("Transcription error: ", e.as_str())),
    }
}

/// What the widget is told once a text was typed, or could not be.
pub fn after_typing(text: String, result: Result<(), String>) -> (events: Vec<UiEvent>)
    ensures
        match result {
            Ok(_) => events@ == seq![
                UiEvent::Phrase { text },
                UiEvent::Status(Status::Listening),
            ],
            Err(e) => is_error_report(events@, "Injection error: "@ + e@),
        },
{
    match result {
        Ok(_) => {
            let mut events: Vec<UiEvent> = Vec::new();
            events.push(UiEvent::Phrase { text });
            events.push(UiEvent::Status(Status::Listening));
            assert(events@ =~= seq![
                UiEvent::Phrase { text },
                UiEvent::Status(Status::Listening),
            ]);
            events
        },
        Err(e) => error_report("Injection error: ", e.as_str()),
    }
}

// ---------------------------------------------------------------------------
// Laws of the steps
// ---------------------------------------------------------------------------

/// What the recorder does is what its phase is for.
pub proof fn law_each_phase_has_its_action()
    ensures
        action_in(Phase::Draining) == Action::Poll,
        action_in(Phase::Waiting) == Action::Wait,
        action_in(Phase::Recording) == Action::Record,
        action_in(Phase::Stopping) == Action::Record,
        action_in(Phase::Sending) == Action::Send,
        action_in(Phase::Gone) == Action::Exit,
{
}

/// A recorder that is not paused records phrase after phrase: with no command
/// waiting it records, what it recorded it sends, and then it looks for commands
/// again.
pub proof fn law_phrases_are_recorded_one_after_the_other(c: Coordinator)
    requires
        c.phase == Phase::Draining,
        !c.paused,
    ensures
        ({
            let recording = after_event(c, Event::NoCommand);
            let sending = after_event(recording, Event::Recorded);
            let sent = after_event(sending, Event::Queued);
            &&& recording == (Coordinator { phase: Phase::Recording, paused: false, aborted: false })
            &&& sending == (Coordinator { phase: Phase::Sending, ..recording })
            &&& sent == (Coordinator { phase: Phase::Draining, ..recording })
        }),
{
}

/// Between phrases, a pause and its end change only whether the recorder is
/// paused; with no command waiting a paused recorder waits.
pub proof fn law_a_paused_recorder_waits(c: Coordinator)
    requires
        c.phase == Phase::Draining,
    ensures
        after_event(c, Event::Command(Cmd::Pause)) == (Coordinator { paused: true, ..c }),
        after_event(c, Event::Command(Cmd::Resume)) == (Coordinator { paused: false, ..c }),
        c.paused ==> after_event(c, Event::NoCommand) == (Coordinator {
            phase: Phase::Waiting,
            ..c
        }),
{
}

/// A recorder that waits goes on only when it is told to resume, stop or that no
/// command can come any more.
pub proof fn law_a_waiting_recorder_is_woken_by_commands(c: Coordinator, event: Event)
    requires
        c.phase == Phase::Waiting,
    ensures
        match event {
            Event::Command(Cmd::Resume) => after_event(c, event) == (Coordinator {
                phase: Phase::Draining,
                paused: false,
                ..c
            }),
            Event::Command(Cmd::Stop) | Event::Disconnected => after_event(c, event).phase
                == Phase::Gone,
            _ => after_event(c, event) == c,
        },
{
}

/// While a phrase is recorded, nothing but a pause, its end, a stop, a failure
/// and the end of the recording changes anything; only a pause or a stop aborts
/// it, and one that was not aborted is sent.
pub proof fn law_only_a_pause_or_a_stop_aborts_a_phrase(c: Coordinator, event: Event)
    requires
        c.phase == Phase::Recording,
    ensures
        match event {
            Event::Command(Cmd::Pause) => after_event(c, event) == (Coordinator {
                paused: true,
                aborted: true,
                ..c
            }),
            Event::Command(Cmd::Resume) => after_event(c, event) == (Coordinator {
                paused: false,
                ..c
            }),
            Event::Command(Cmd::Stop) => after_event(c, event) == (Coordinator {
                phase: Phase::Stopping,
                aborted: true,
                ..c
            }),
            Event::Recorded => after_event(c, event) == (Coordinator {
                phase: if c.aborted {
                    Phase::Draining
                } else {
                    Phase::Sending
                },
                ..c
            }),
            Event::MicError(_) => after_event(c, event).phase == Phase::Gone,
            _ => after_event(c, event) == c,
        },
{
}

/// A recorder goes when it is stopped between phrases, when no command can come
/// any more, when the consumer is gone and when the microphone fails; once gone
/// it stays gone, and is told of nothing.
pub proof fn law_a_recorder_that_is_gone_stays_gone(c: Coordinator, event: Event)
    ensures
        c.phase == Phase::Draining ==> after_event(c, Event::Command(Cmd::Stop)).phase
            == Phase::Gone && after_event(c, Event::Disconnected).phase == Phase::Gone,
        c.phase == Phase::Sending ==> after_event(c, Event::ConsumerGone).phase == Phase::Gone,
        c.phase == Phase::Stopping ==> after_event(c, Event::Recorded).phase == Phase::Gone,
        c.phase == Phase::Gone ==> after_event(c, event) == c,
{
}

/// What the widget is told: that the recorder is paused when it begins to wait,
/// that it listens when it is resumed, and of a microphone that fails, with the
/// whole error, that this ends it. It is told nothing else.
pub proof fn law_the_widget_is_told_of_every_change(
    c: Coordinator,
    event: Event,
    report: Option<UiEvent>,
)
    requires
        is_report(c, event, report),
    ensures
        match (c.phase, event) {
            (Phase::Draining, Event::NoCommand) => report == if c.paused {
                Some(UiEvent::Status(Status::Paused))
            } else {
                None
            },
            (Phase::Waiting, Event::Command(Cmd::Resume)) => report == Some(
                UiEvent::Status(Status::Listening),
            ),
            (Phase::Recording, Event::MicError(e)) | (Phase::Stopping, Event::MicError(e)) => report
                matches Some(UiEvent::Error { message, fatal }) && fatal && message@
                == "Microphone error: "@ + e@,
            _ => report is None,
        },
{
}

/// The report of an error holds the whole error, and then says that the worker
/// listens.
pub proof fn law_an_error_is_reported_whole(events: Seq<UiEvent>, text: Seq<char>)
    ensures
        is_error_report(events, text) <==> {
            &&& events.len() == 2
            &&& events[0] matches UiEvent::Error { message, fatal } && message@ == text && !fatal
            &&& events[1] == UiEvent::Status(Status::Listening)
        },
{
}

/// A phrase is taken exactly where the user has not paused and it holds a header
/// and 80 samples at least, however long it is.
pub proof fn law_long_phrases_are_taken_too(len: nat, longer: nat)
    ensures
        is_taken(len, false) <==> len >= 44 + 2 * 80,
        is_taken(len, false) && longer >= len ==> is_taken(longer, false),
        !is_taken(len, true),
{
}

/// Every transcript that holds a character is typed whole unless the user has
/// paused; an error is never typed.
pub proof fn law_a_transcript_is_typed_whole(text: String, error: String, paused: bool)
    ensures
        to_type(Ok(text), false) == if text@.len() > 0 {
            Some(text@)
        } else {
            None
        },
        to_type(Ok(text), true) is None,
        to_type(Err(error), paused) is None,
{
}

} // verus!
