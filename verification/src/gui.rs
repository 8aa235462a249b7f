//! The desktop widget: its state, and what it does on each event.
//!
//! One button starts and pauses dictation, another quits, a third opens the
//! settings. Windows are named by numbers, and time is counted in nanoseconds
//! since the program started. Painting is left to the program around the
//! library, which performs the effects that an event calls for.

use vstd::prelude::*;
use vstd::string::*;

use crate::client::{
    build_transcriber, refusal, ApiKeys, KeyVar, Provider, Transcriber,
};
use crate::config::{Settings, SettingsView};
use crate::injector::{InjectMethod, Injector};
use crate::text::{
    is_blank, is_white, law_trimming_finds_what_is_between, law_trimming_takes_only_white_ends, same,
    trim, trimmed,
};
use crate::worker::{Cmd, Status, UiEvent};

verus! {

// ---------------------------------------------------------------------------
// Choices
// ---------------------------------------------------------------------------

/// A provider that can be chosen.
#[derive(Debug, Clone, Copy, PartialEq, Eq)]
pub struct ProviderOpt {
    pub label: &'static str,
    pub value: &'static str,
}

/// A language that can be chosen.
#[derive(Debug, Clone, Copy, PartialEq, Eq)]
pub struct LanguageOpt {
    pub label: &'static str,
    pub value: &'static str,
}

/// The mathematical content of a choice.
#[verifier::ext_equal]
pub struct OptView {
    pub label: Seq<char>,
    pub value: Seq<char>,
}

impl View for ProviderOpt {
    type V = OptView;

    open spec fn view(&self) -> OptView {
        OptView { label: self.label@, value: self.value@ }
    }
}

impl View for LanguageOpt {
    type V = OptView;

    open spec fn view(&self) -> OptView {
        OptView { label: self.label@, value: self.value@ }
    }
}

/// A choice.
pub open spec fn opt(label: Seq<char>, value: Seq<char>) -> OptView {
    OptView { label, value }
}

/// The providers that can be chosen.
pub open spec fn provider_table() -> Seq<OptView> {
    seq![
        opt("GPT Transcribe (paid)"@, "gpt-transcribe"@),
        opt("Groq Whisper (free)"@, "groq"@),
        opt("Gemini (OpenRouter)"@, "gemini"@),
    ]
}

/// The languages that can be chosen.
pub open spec fn language_table() -> Seq<OptView> {
    seq![
        opt("Auto-detect"@, ""@),
        opt("English"@, "en"@),
        opt("Igbo"@, "ig"@),
        opt("Yoruba"@, "yo"@),
        opt("Hausa"@, "ha"@),
        opt("French"@, "fr"@),
        opt("Spanish"@, "es"@),
        opt("German"@, "de"@),
        opt("Portuguese"@, "pt"@),
        opt("Italian"@, "it"@),
        opt("Dutch"@, "nl"@),
        opt("Arabic"@, "ar"@),
        opt("Japanese"@, "ja"@),
        opt("Chinese"@, "zh"@),
        opt("Russian"@, "ru"@),
    ]
}

/// The choice with a value among the first `n` of a table, or `fallback`. Of
/// several the first counts.
pub open spec fn chosen_among(
    table: Seq<OptView>,
    value: Seq<char>,
    n: nat,
    fallback: OptView,
) -> OptView
    decreases n,
{
    if n == 0 {
        fallback
    } else {
        let here = table[n - 1];
        chosen_among(
            table,
            value,
            (n - 1) as nat,
            if here.value == value {
                here
            } else {
                fallback
            },
        )
    }
}

/// The choice with a value: the first of the table where none has it.
pub open spec fn chosen(table: Seq<OptView>, value: Seq<char>) -> OptView {
    chosen_among(table, value, table.len(), table[0])
}

/// The providers that can be chosen.
pub fn providers() -> (list: Vec<ProviderOpt>)
    ensures
        list@.len() == provider_table().len(),
        forall|i: int| 0 <= i < list@.len() ==> (#[trigger] list@[i])@ == provider_table()[i],
{
    vec![
        ProviderOpt { label: "GPT Transcribe (paid)", value: "gpt-transcribe" },
        ProviderOpt { label: "Groq Whisper (free)", value: "groq" },
        ProviderOpt { label: "Gemini (OpenRouter)", value: "gemini" },
    ]
}

/// The languages that can be chosen.
pub fn languages() -> (list: Vec<LanguageOpt>)
    ensures
        list@.len() == language_table().len(),
        forall|i: int| 0 <= i < list@.len() ==> (#[trigger] list@[i])@ == language_table()[i],
{
    vec![
        LanguageOpt { label: "Auto-detect", value: "" },
        LanguageOpt { label: "English", value: "en" },
        LanguageOpt { label: "Igbo", value: "ig" },
        LanguageOpt { label: "Yoruba", value: "yo" },
        LanguageOpt { label: "Hausa", value: "ha" },
        LanguageOpt { label: "French", value: "fr" },
        LanguageOpt { label: "Spanish", value: "es" },
        LanguageOpt { label: "German", value: "de" },
        LanguageOpt { label: "Portuguese", value: "pt" },
        LanguageOpt { label: "Italian", value: "it" },
        LanguageOpt { label: "Dutch", value: "nl" },
        LanguageOpt { label: "Arabic", value: "ar" },
        LanguageOpt { label: "Japanese", value: "ja" },
        LanguageOpt { label: "Chinese", value: "zh" },
        LanguageOpt { label: "Russian", value: "ru" },
    ]
}

/// The provider with a value: the first one where none has it.
pub fn provider_opt(value: &str) -> (choice: ProviderOpt)
    ensures
        choice@ == chosen(provider_table(), value@),
{
    let list = providers();
    let mut found: ProviderOpt = list[0];
    let mut i: usize = list.len();
    while i > 0
        invariant
            list@.len() == provider_table().len(),
            forall|k: int| 0 <= k < list@.len() ==> (#[trigger] list@[k])@ == provider_table()[k],
            0 <= i <= list@.len(),
            chosen(provider_table(), value@) == chosen_among(
                provider_table(),
                value@,
                i as nat,
                found@,
            ),
        decreases i,
    {
        i -= 1;
        let here: ProviderOpt = list[i];
        assert(here@ == provider_table()[i as int]);
        if same(here.value, value) {
            found = here;
        }
    }
    found
}

/// The language with a code: the first one where none has it.
pub fn language_opt(code: &str) -> (choice: LanguageOpt)
    ensures
        choice@ == chosen(language_table(), code@),
{
    let list = languages();
    let mut found: LanguageOpt = list[0];
    let mut i: usize = list.len();
    while i > 0
        invariant
            list@.len() == language_table().len(),
            forall|k: int| 0 <= k < list@.len() ==> (#[trigger] list@[k])@ == language_table()[k],
            0 <= i <= list@.len(),
            chosen(language_table(), code@) == chosen_among(
                language_table(),
                code@,
                i as nat,
                found@,
            ),
        decreases i,
    {
        i -= 1;
        let here: LanguageOpt = list[i];
        assert(here@ == language_table()[i as int]);
        if same(here.value, code) {
            found = here;
        }
    }
    found
}

proof fn lemma_chosen_among(
    table: Seq<OptView>,
    value: Seq<char>,
    n: nat,
    fallback: OptView,
)
    requires
        n <= table.len(),
    ensures
        ({
            let choice = chosen_among(table, value, n, fallback);
            ||| choice == fallback && forall|i: int|
                0 <= i < n ==> (#[trigger] table[i]).value != value
            ||| choice.value == value && exists|i: int|
                0 <= i < n && #[trigger] table[i] == choice
        }),
    decreases n,
{
    if n > 0 {
        let here = table[n - 1];
        let next = if here.value == value {
            here
        } else {
            fallback
        };
        lemma_chosen_among(table, value, (n - 1) as nat, next);
        let choice = chosen_among(table, value, n, fallback);
        if here.value == value && choice == here {
            assert(table[n - 1] == choice);
        }
    }
}

/// What is chosen stands in the table, and it has the value that was asked for
/// wherever the table holds that value.
pub proof fn law_choice_stands_in_the_table(table: Seq<OptView>, value: Seq<char>)
    requires
        table.len() > 0,
    ensures
        table.contains(chosen(table, value)),
        (exists|i: int| 0 <= i < table.len() && (#[trigger] table[i]).value == value) ==> chosen(
            table,
            value,
        ).value == value,
        (forall|i: int| 0 <= i < table.len() ==> (#[trigger] table[i]).value != value) ==> chosen(
            table,
            value,
        ) == table[0],
{
    lemma_chosen_among(table, value, table.len(), table[0]);
}

/// Every provider that can be chosen is a service that exists.
pub proof fn law_choices_are_services(i: int)
    requires
        0 <= i < provider_table().len(),
    ensures
        Provider::named(provider_table()[i].value) is Some,
{
}

// ---------------------------------------------------------------------------
// State
// ---------------------------------------------------------------------------

/// What the widget shows.
#[derive(Debug, Clone, Copy, PartialEq, Eq, Structural)]
pub enum UiState {
    Ready,
    Listening,
    Transcribing,
    Paused,
    Error,
}

/// Where the widget stands on the screen.
#[derive(Debug, Clone, Copy, PartialEq, Eq, Structural)]
pub struct WindowPos {
    pub x: i32,
    pub y: i32,
}

/// The state of the widget.
#[derive(Debug)]
pub struct WayDictationApp {
    /// The window of the widget.
    pub win: Option<u64>,
    pub settings: Settings,
    /// Whether a worker runs.
    pub worker: bool,
    pub state: UiState,
    pub status: String,
    pub hint: String,
    /// The last phrase that was typed, or the last error.
    pub transcript: String,
    pub transcript_error: bool,
    /// When the transcript was set, until it is dimmed.
    pub transcript_set: Option<u64>,
    pub fatal: bool,
    /// The window of the settings.
    pub settings_win: Option<u64>,
    pub key_groq: String,
    pub key_openrouter: String,
    pub reveal_groq: bool,
    pub reveal_openrouter: bool,
    pub draft_provider: ProviderOpt,
    pub draft_language: LanguageOpt,
    pub draft_model: String,
    pub draft_ontop: bool,
    pub last_pos: Option<WindowPos>,
    /// When the position is to be saved.
    pub pos_save_due: Option<u64>,
    /// The height of the window.
    pub win_h: u64,
    /// When the last slow tick was.
    pub last_slow: u64,
    /// When the button was pressed, until its bounce is over.
    pub bounce_at: Option<u64>,
}

/// The mathematical content of a [`WayDictationApp`].
#[verifier::ext_equal]
pub struct AppView {
    pub win: Option<u64>,
    pub settings: SettingsView,
    pub worker: bool,
    pub state: UiState,
    pub status: Seq<char>,
    pub hint: Seq<char>,
    pub transcript: Seq<char>,
    pub transcript_error: bool,
    pub transcript_set: Option<u64>,
    pub fatal: bool,
    pub settings_win: Option<u64>,
    pub key_groq: Seq<char>,
    pub key_openrouter: Seq<char>,
    pub reveal_groq: bool,
    pub reveal_openrouter: bool,
    pub draft_provider: OptView,
    pub draft_language: OptView,
    pub draft_model: Seq<char>,
    pub draft_ontop: bool,
    pub last_pos: Option<WindowPos>,
    pub pos_save_due: Option<u64>,
    pub win_h: u64,
    pub last_slow: u64,
    pub bounce_at: Option<u64>,
}

impl View for WayDictationApp {
    type V = AppView;

    open spec fn view(&self) -> AppView {
        AppView {
            win: self.win,
            settings: self.settings@,
            worker: self.worker,
            state: self.state,
            status: self.status@,
            hint: self.hint@,
            transcript: self.transcript@,
            transcript_error: self.transcript_error,
            transcript_set: self.transcript_set,
            fatal: self.fatal,
            settings_win: self.settings_win,
            key_groq: self.key_groq@,
            key_openrouter: self.key_openrouter@,
            reveal_groq: self.reveal_groq,
            reveal_openrouter: self.reveal_openrouter,
            draft_provider: self.draft_provider@,
            draft_language: self.draft_language@,
            draft_model: self.draft_model@,
            draft_ontop: self.draft_ontop,
            last_pos: self.last_pos,
            pos_save_due: self.pos_save_due,
            win_h: self.win_h,
            last_slow: self.last_slow,
            bounce_at: self.bounce_at,
        }
    }
}

/// What the program around the library does for the widget.
#[derive(Debug)]
pub enum Effect {
    /// Move a window with the pointer.
    Drag(u64),
    /// Close a window.
    Close(u64),
    /// Bring a window to the front.
    Focus(u64),
    /// Open the window of the settings, and say which it is.
    OpenSettings,
    /// Keep a window above the others, or let it go.
    SetLevel { win: u64, on_top: bool },
    /// Make a window so high.
    Resize { win: u64, height: u64 },
    /// Ask where a window stands.
    AskPosition(u64),
    /// Write the settings.
    SaveSettings,
    /// Write the keys of the settings dialog.
    SaveKeys,
    /// Set a variable of the environment.
    SetVar(KeyVar, String),
    /// Remove a variable of the environment.
    RemoveVar(KeyVar),
    /// Send a command to the worker.
    Send(Cmd),
    /// Let go of the worker.
    DropWorker,
    /// Load the keys and start a worker.
    Start,
}

/// The mathematical content of an [`Effect`].
#[verifier::ext_equal]
pub enum EffectView {
    Drag(u64),
    Close(u64),
    Focus(u64),
    OpenSettings,
    SetLevel { win: u64, on_top: bool },
    Resize { win: u64, height: u64 },
    AskPosition(u64),
    SaveSettings,
    SaveKeys,
    SetVar(KeyVar, Seq<char>),
    RemoveVar(KeyVar),
    Send(Cmd),
    DropWorker,
    Start,
}

impl View for Effect {
    type V = EffectView;

    open spec fn view(&self) -> EffectView {
        match self {
            Effect::Drag(id) => EffectView::Drag(*id),
            Effect::Close(id) => EffectView::Close(*id),
            Effect::Focus(id) => EffectView::Focus(*id),
            Effect::OpenSettings => EffectView::OpenSettings,
            Effect::SetLevel { win, on_top } => EffectView::SetLevel { win: *win, on_top: *on_top },
            Effect::Resize { win, height } => EffectView::Resize { win: *win, height: *height },
            Effect::AskPosition(id) => EffectView::AskPosition(*id),
            Effect::SaveSettings => EffectView::SaveSettings,
            Effect::SaveKeys => EffectView::SaveKeys,
            Effect::SetVar(var, value) => EffectView::SetVar(*var, value@),
            Effect::RemoveVar(var) => EffectView::RemoveVar(*var),
            Effect::Send(cmd) => EffectView::Send(*cmd),
            Effect::DropWorker => EffectView::DropWorker,
            Effect::Start => EffectView::Start,
        }
    }
}

/// The content of each effect of a list.
pub open spec fn effect_views(effects: Seq<Effect>) -> Seq<EffectView> {
    Seq::new(effects.len(), |i: int| effects[i]@)
}

/// An event of the widget.
#[derive(Debug)]
pub enum Message {
    /// The window of the widget is known.
    WindowId(Option<u64>),
    /// Time has passed.
    Tick,
    /// The card was pressed.
    Drag,
    /// The play button was pressed.
    Toggle,
    Quit,
    /// The settings are asked for; the keys in the environment.
    OpenSettings { groq: Option<String>, openrouter: Option<String> },
    /// The window of the settings is open.
    SettingsOpened(u64),
    CancelSettings,
    SaveSettings,
    Worker(UiEvent),
    /// Where the widget stands, and whether it stood elsewhere before.
    Position { pos: Option<WindowPos>, moved: bool },
    KeyGroq(String),
    KeyOpenrouter(String),
    ToggleRevealGroq,
    ToggleRevealOpenrouter,
    DraftProvider(ProviderOpt),
    DraftLanguage(LanguageOpt),
    DraftModel(String),
    DraftOntop(bool),
    CloseRequested(u64),
}

// ---------------------------------------------------------------------------
// Small transitions
// ---------------------------------------------------------------------------

/// How long the button bounces after it was pressed.
pub const BOUNCE_NANOS: u64 = 260_000_000;

/// The least time between two slow ticks.
pub const SLOW_TICK_NANOS: u64 = 250_000_000;

/// How long the widget must stand still before its position is saved.
pub const POS_SAVE_NANOS: u64 = 400_000_000;

/// How long a phrase is bright.
pub const BRIGHT_NANOS: u64 = 2_200_000_000;

/// How long an error is bright.
pub const BRIGHT_ERROR_NANOS: u64 = 2_600_000_000;

/// Whether so many nanoseconds have passed between two points in time.
pub open spec fn passed(since: u64, now: u64, nanos: u64) -> bool {
    now - since >= nanos
}

fn has_passed(since: u64, now: u64, nanos: u64) -> (r: bool)
    requires
        nanos > 0,
    ensures
        r == passed(since, now, nanos),
{
    now >= since && now - since >= nanos
}

impl AppView {
    /// The widget in a state, with the words that belong to it. An error keeps
    /// its hint.
    pub open spec fn in_state(self, state: UiState) -> AppView {
        AppView {
            state,
            status: match state {
                UiState::Ready => "Ready"@,
                UiState::Listening => "Listening…"@,
                UiState::Transcribing => "Transcribing…"@,
                UiState::Paused => "Paused"@,
                UiState::Error => "Error"@,
            },
            hint: match state {
                UiState::Ready => "Press play, click the app you want to type into, and speak"@,
                UiState::Listening => "Speak now, a short pause ends each phrase"@,
                UiState::Transcribing => "Sending audio to the cloud"@,
                UiState::Paused => "Press play to resume"@,
                UiState::Error => self.hint,
            },
            ..self
        }
    }

    /// The widget with a transcript that was just set.
    pub open spec fn with_transcript(self, text: Seq<char>, error: bool, now: u64) -> AppView {
        AppView {
            transcript: text,
            transcript_error: error,
            transcript_set: Some(now),
            ..self
        }
    }

    /// The widget without a worker.
    pub open spec fn without_worker(self) -> AppView {
        AppView { worker: false, ..self }.in_state(UiState::Ready)
    }

    /// The effects of letting the worker go: it is paused first, so that a
    /// phrase that is being recorded is not typed any more.
    pub open spec fn stopping(self) -> Seq<EffectView> {
        if self.worker {
            seq![
                EffectView::Send(Cmd::Pause),
                EffectView::Send(Cmd::Stop),
                EffectView::DropWorker,
            ]
        } else {
            Seq::empty()
        }
    }

    /// The widget after the play button was pressed.
    pub open spec fn toggled(self, now: u64) -> AppView {
        let bounced = AppView { bounce_at: Some(now), ..self };
        match self.state {
            UiState::Listening | UiState::Transcribing => if self.worker {
                bounced.in_state(UiState::Paused)
            } else {
                bounced
            },
            UiState::Paused => if self.worker {
                bounced.in_state(UiState::Listening)
            } else {
                bounced
            },
            _ => bounced,
        }
    }

    /// The effects of pressing the play button.
    pub open spec fn toggling(self) -> Seq<EffectView> {
        match self.state {
            UiState::Listening | UiState::Transcribing => if self.worker {
                seq![EffectView::Send(Cmd::Pause)]
            } else {
                Seq::empty()
            },
            UiState::Paused => if self.worker {
                seq![EffectView::Send(Cmd::Resume)]
            } else {
                Seq::empty()
            },
            _ => seq![EffectView::Start],
        }
    }

    /// The widget after a worker was started with the given keys, or was not
    /// because a key is missing or the provider is unknown: the hint then says
    /// what to do next.
    pub open spec fn after_start(self, keys: ApiKeys) -> AppView {
        match refusal(self.settings.provider, keys) {
            Some(text) => AppView {
                fatal: true,
                state: UiState::Error,
                status: "API key missing"@,
                hint: text,
                ..self
            },
            None => AppView { worker: true, fatal: false, ..self }.in_state(UiState::Listening),
        }
    }

    /// The widget after the worker told something.
    pub open spec fn told(self, event: UiEvent, now: u64) -> AppView {
        match event {
            UiEvent::Status(status) => if self.state != UiState::Listening {
                self
            } else {
                match status {
                    Status::Listening => AppView {
                        hint: "Speak now, a short pause ends each phrase"@,
                        ..self
                    },
                    Status::Transcribing => AppView {
                        hint: "Sending audio to the cloud…"@,
                        ..self
                    },
                    Status::Paused => self.in_state(UiState::Paused),
                }
            },
            UiEvent::Phrase { text } => self.with_transcript(text@, false, now),
            UiEvent::Error { message, fatal } => if fatal {
                AppView {
                    fatal: true,
                    state: UiState::Error,
                    status: "Stopped"@,
                    hint: message@,
                    worker: false,
                    ..self
                }
            } else {
                self.with_transcript(message@, true, now)
            },
        }
    }

    /// The effects of what the worker told.
    pub open spec fn telling(self, event: UiEvent) -> Seq<EffectView> {
        match event {
            UiEvent::Error { fatal, .. } => if fatal {
                seq![EffectView::DropWorker]
            } else {
                Seq::empty()
            },
            _ => Seq::empty(),
        }
    }

    /// The widget with the settings put in the dialog.
    pub open spec fn with_drafts(self, groq: Option<String>, openrouter: Option<String>) -> AppView {
        AppView {
            key_groq: or_empty(groq),
            key_openrouter: or_empty(openrouter),
            draft_provider: chosen(provider_table(), self.settings.provider),
            draft_language: chosen(language_table(), self.settings.language),
            draft_model: self.settings.model,
            draft_ontop: self.settings.always_on_top,
            ..self
        }
    }

    /// The widget with the dialog put in the settings.
    pub open spec fn saved(self) -> AppView {
        AppView {
            settings: SettingsView {
                provider: self.draft_provider.value,
                language: self.draft_language.value,
                model: self.draft_model,
                always_on_top: self.draft_ontop,
                ..self.settings
            },
            settings_win: None,
            ..self
        }
    }

    /// The effects of saving the dialog.
    pub open spec fn saving(self) -> Seq<EffectView> {
        let always = seq![
            EffectView::SaveSettings,
            EffectView::SaveKeys,
            var_effect(KeyVar::Groq, self.key_groq),
            var_effect(KeyVar::OpenRouter, self.key_openrouter),
        ];
        let level = if self.settings.always_on_top != self.draft_ontop && self.win is Some {
            seq![EffectView::SetLevel { win: self.win->0, on_top: self.draft_ontop }]
        } else {
            Seq::empty()
        };
        let close = if self.settings_win is Some {
            seq![EffectView::Close(self.settings_win->0)]
        } else {
            Seq::empty()
        };
        always + level + close
    }

    /// The height of a window that shows the whole text: 42 characters fit on a
    /// line of 18 pixels, and the rest of the card takes 389.
    pub open spec fn desired_height(self) -> int {
        let transcript_lines = if self.transcript.len() == 0 {
            1
        } else {
            text_lines(self.transcript.len())
        };
        389 + 18 * (text_lines(self.hint.len()) + transcript_lines)
    }

    /// The widget after the fast part of a tick.
    pub open spec fn after_fast_tick(self, now: u64) -> AppView {
        match self.bounce_at {
            Some(t) => if passed(t, now, BOUNCE_NANOS) {
                AppView { bounce_at: None, ..self }
            } else {
                self
            },
            None => self,
        }
    }

    /// Whether the position is to be saved now.
    pub open spec fn pos_is_due(self, now: u64) -> bool {
        self.pos_save_due matches Some(due) && now >= due
    }

    /// For how long a transcript is bright.
    pub open spec fn bright_nanos(self) -> u64 {
        if self.transcript_error {
            BRIGHT_ERROR_NANOS
        } else {
            BRIGHT_NANOS
        }
    }

    /// The widget with its transcript dimmed where it was bright long enough.
    pub open spec fn settled(self, now: u64) -> AppView {
        match self.transcript_set {
            Some(t) => if passed(t, now, self.bright_nanos()) {
                AppView { transcript_set: None, ..self }
            } else {
                self
            },
            None => self,
        }
    }

    /// The widget with its position in the settings.
    pub open spec fn with_pos_kept(self) -> AppView {
        match self.last_pos {
            Some(p) => AppView {
                settings: SettingsView { pos: Some((p.x, p.y)), ..self.settings },
                ..self
            },
            None => self,
        }
    }

    /// The widget with its position in the settings, where that is due.
    pub open spec fn with_due_pos_kept(self, now: u64) -> AppView {
        if self.pos_is_due(now) {
            AppView { pos_save_due: None, ..self }.with_pos_kept()
        } else {
            self
        }
    }

    /// The widget with a window that is as high as its text needs.
    pub open spec fn fitted(self) -> AppView {
        match self.win {
            Some(_) => AppView { win_h: self.desired_height() as u64, ..self },
            None => self,
        }
    }

    /// The effects of giving the window the height that its text needs, and of
    /// asking where it stands.
    pub open spec fn fitting(self) -> Seq<EffectView> {
        match self.win {
            Some(win) => if self.desired_height() != self.win_h {
                seq![
                    EffectView::Resize { win, height: self.desired_height() as u64 },
                    EffectView::AskPosition(win),
                ]
            } else {
                seq![EffectView::AskPosition(win)]
            },
            None => Seq::empty(),
        }
    }

    /// The widget after the slow part of a tick.
    pub open spec fn after_slow_tick(self, now: u64) -> AppView {
        AppView { last_slow: now, ..self }.settled(now).with_due_pos_kept(now).fitted()
    }

    /// The effects of the slow part of a tick.
    pub open spec fn slow_tick_effects(self, now: u64) -> Seq<EffectView> {
        if self.pos_is_due(now) && self.last_pos is Some {
            seq![EffectView::SaveSettings] + self.fitting()
        } else {
            self.fitting()
        }
    }

    /// Whether a tick has a slow part: it comes four times a second at most.
    pub open spec fn is_slow_tick(self, now: u64) -> bool {
        passed(self.last_slow, now, SLOW_TICK_NANOS)
    }

    /// The widget after a tick.
    pub open spec fn ticked(self, now: u64) -> AppView {
        let fast = self.after_fast_tick(now);
        if self.is_slow_tick(now) {
            fast.after_slow_tick(now)
        } else {
            fast
        }
    }

    /// The effects of a tick.
    pub open spec fn ticking(self, now: u64) -> Seq<EffectView> {
        if self.is_slow_tick(now) {
            self.slow_tick_effects(now)
        } else {
            Seq::empty()
        }
    }
}

/// The characters of an optional text: none where it is not there.
pub open spec fn or_empty(text: Option<String>) -> Seq<char> {
    match text {
        Some(t) => t@,
        None => Seq::empty(),
    }
}

/// The effect that makes a key visible in the environment, or takes an empty
/// one out of it.
pub open spec fn var_effect(var: KeyVar, value: Seq<char>) -> EffectView {
    if value.len() == 0 {
        EffectView::RemoveVar(var)
    } else {
        EffectView::SetVar(var, value)
    }
}

/// How many lines so many characters take: one at least.
pub open spec fn text_lines(chars: nat) -> int {
    if chars == 0 {
        1
    } else {
        (chars as int + 41) / 42
    }
}

fn count_lines(text: &str) -> (lines: u64)
    ensures
        lines == text_lines(text@.len()),
        lines <= 500_000_000_000_000_000,
{
    let n: u64 = text.unicode_len() as u64;
    if n == 0 {
        1
    } else if n % 42 == 0 {
        n / 42
    } else {
        n / 42 + 1
    }
}

/// An empty text where there is none.
fn text_or_empty(text: Option<String>) -> (t: String)
    ensures
        t@ == or_empty(text),
{
    match text {
        Some(t) => t,
        None => {
            let t = String::new();
            assert(t@ =~= Seq::empty());
            t
        },
    }
}

fn var_change(var: KeyVar, value: &str) -> (effect: Effect)
    ensures
        effect@ == var_effect(var, value@),
{
    if value.is_empty() {
        Effect::RemoveVar(var)
    } else {
        Effect::SetVar(var, value.to_string())
    }
}

fn no_effects() -> (effects: Vec<Effect>)
    ensures
        effect_views(effects@) == Seq::<EffectView>::empty(),
{
    let effects: Vec<Effect> = Vec::new();
    assert(effect_views(effects@) =~= Seq::empty());
    effects
}

fn one_effect(effect: Effect) -> (effects: Vec<Effect>)
    ensures
        effect_views(effects@) == seq![effect@],
{
    let mut effects: Vec<Effect> = Vec::new();
    effects.push(effect);
    assert(effect_views(effects@) =~= seq![effect@]);
    effects
}

fn add_effect(effects: &mut Vec<Effect>, effect: Effect)
    ensures
        effect_views(final(effects)@) == effect_views(old(effects)@).push(effect@),
{
    effects.push(effect);
    assert(effect_views(effects@) =~= effect_views(old(effects)@).push(effect@));
}

// ---------------------------------------------------------------------------
// Events
// ---------------------------------------------------------------------------

/// The widget after an event.
pub open spec fn after_message(v: AppView, message: Message, now: u64) -> AppView {
    match message {
        Message::WindowId(id) => AppView { win: id, ..v },
        Message::Tick => v.ticked(now),
        Message::Drag => v,
        Message::Toggle => v.toggled(now),
        Message::Quit => v.without_worker(),
        Message::OpenSettings { groq, openrouter } => if v.settings_win is Some {
            v
        } else {
            v.with_drafts(groq, openrouter)
        },
        Message::SettingsOpened(id) => AppView { settings_win: Some(id), ..v },
        Message::CancelSettings => AppView { settings_win: None, ..v },
        Message::SaveSettings => v.saved(),
        Message::Worker(event) => v.told(event, now),
        Message::Position { pos, moved } => if pos is Some && moved {
            AppView { last_pos: pos, pos_save_due: Some((now + POS_SAVE_NANOS) as u64), ..v }
        } else {
            v
        },
        Message::KeyGroq(s) => AppView { key_groq: s@, ..v },
        Message::KeyOpenrouter(s) => AppView { key_openrouter: s@, ..v },
        Message::ToggleRevealGroq => AppView { reveal_groq: !v.reveal_groq, ..v },
        Message::ToggleRevealOpenrouter => AppView {
            reveal_openrouter: !v.reveal_openrouter,
            ..v
        },
        Message::DraftProvider(p) => AppView { draft_provider: p@, ..v },
        Message::DraftLanguage(l) => AppView { draft_language: l@, ..v },
        Message::DraftModel(s) => AppView { draft_model: s@, ..v },
        Message::DraftOntop(b) => AppView { draft_ontop: b, ..v },
        Message::CloseRequested(id) => if v.settings_win == Some(id) {
            AppView { settings_win: None, ..v }
        } else if v.win == Some(id) {
            v.without_worker()
        } else {
            v
        },
    }
}

/// The effects of an event.
pub open spec fn message_effects(v: AppView, message: Message, now: u64) -> Seq<EffectView> {
    match message {
        Message::Tick => v.ticking(now),
        Message::Drag => match v.win {
            Some(id) => seq![EffectView::Drag(id)],
            None => Seq::empty(),
        },
        Message::Toggle => v.toggling(),
        Message::Quit => match v.win {
            Some(id) => v.stopping().push(EffectView::Close(id)),
            None => v.stopping(),
        },
        Message::OpenSettings { .. } => match v.settings_win {
            Some(id) => seq![EffectView::Focus(id)],
            None => seq![EffectView::OpenSettings],
        },
        Message::CancelSettings => match v.settings_win {
            Some(id) => seq![EffectView::Close(id)],
            None => Seq::empty(),
        },
        Message::SaveSettings => v.saving(),
        Message::Worker(event) => v.telling(event),
        Message::CloseRequested(id) => if v.settings_win != Some(id) && v.win == Some(id) {
            v.stopping()
        } else {
            Seq::empty()
        },
        _ => Seq::empty(),
    }
}

/// The widget when it is created.
pub open spec fn fresh(settings: SettingsView, now: u64) -> AppView {
    AppView {
        win: None,
        settings,
        worker: false,
        state: UiState::Ready,
        status: "Ready"@,
        hint: "Press play, click the app you want to type into, and speak"@,
        transcript: Seq::empty(),
        transcript_error: false,
        transcript_set: None,
        fatal: false,
        settings_win: None,
        key_groq: Seq::empty(),
        key_openrouter: Seq::empty(),
        reveal_groq: false,
        reveal_openrouter: false,
        draft_provider: chosen(provider_table(), settings.provider),
        draft_language: chosen(language_table(), settings.language),
        draft_model: settings.model,
        draft_ontop: settings.always_on_top,
        last_pos: None,
        pos_save_due: None,
        win_h: 420,
        last_slow: now,
        bounce_at: None,
    }
}

/// What a worker is started with.
#[derive(Debug)]
pub struct WorkerPlan {
    pub transcriber: Transcriber,
    pub injector: Injector,
    pub language: Option<String>,
}

/// A text of the settings, where it is more than white space.
pub open spec fn filled_in(text: Seq<char>) -> Option<Seq<char>> {
    if trimmed(text).len() == 0 {
        None
    } else {
        Some(trimmed(text))
    }
}

fn fill_in(text: &str) -> (value: Option<String>)
    ensures
        match value {
            Some(t) => filled_in(text@) == Some(t@),
            None => filled_in(text@) is None,
        },
{
    let t = trim(text);
    if t.as_str().is_empty() {
        None
    } else {
        Some(t)
    }
}

impl WayDictationApp {
    pub fn new(settings: Settings, now: u64) -> (app: Self)
        ensures
            app@ == fresh(settings@, now),
    {
        let draft_provider = provider_opt(settings.provider.as_str());
        let draft_language = language_opt(settings.language.as_str());
        let draft_model = settings.model.clone();
        let draft_ontop = settings.always_on_top;
        let app = WayDictationApp {
            win: None,
            settings,
            worker: false,
            state: UiState::Ready,
            status: "Ready".to_string(),
            hint: "Press play, click the app you want to type into, and speak".to_string(),
            transcript: String::new(),
            transcript_error: false,
            transcript_set: None,
            fatal: false,
            settings_win: None,
            key_groq: String::new(),
            key_openrouter: String::new(),
            reveal_groq: false,
            reveal_openrouter: false,
            draft_provider,
            draft_language,
            draft_model,
            draft_ontop,
            last_pos: None,
            pos_save_due: None,
            win_h: 420,
            last_slow: now,
            bounce_at: None,
        };
        assert(app@ =~= fresh(settings@, now));
        app
    }

    /// Puts the widget in a state, with the words that belong to it.
    pub fn set_state(&mut self, state: UiState)
        ensures
            final(self)@ == old(self)@.in_state(state),
    {
        self.state = state;
        match state {
            UiState::Ready => {
                self.status = "Ready".to_string();
                self.hint =
                    "Press play, click the app you want to type into, and speak".to_string();
            },
            UiState::Listening => {
                self.status = "Listening…".to_string();
                self.hint = "Speak now, a short pause ends each phrase".to_string();
            },
            UiState::Transcribing => {
                self.status = "Transcribing…".to_string();
                self.hint = "Sending audio to the cloud".to_string();
            },
            UiState::Paused => {
                self.status = "Paused".to_string();
                self.hint = "Press play to resume".to_string();
            },
            UiState::Error => {
                self.status = "Error".to_string();
            },
        }
        assert(self@ =~= old(self)@.in_state(state));
    }

    /// Shows a transcript or an error.
    pub fn set_transcript(&mut self, text: String, error: bool, now: u64)
        ensures
            final(self)@ == old(self)@.with_transcript(text@, error, now),
    {
        self.transcript = text;
        self.transcript_error = error;
        self.transcript_set = Some(now);
        assert(self@ =~= old(self)@.with_transcript(text@, error, now));
    }

    /// Lets the worker go.
    pub fn stop_worker(&mut self) -> (effects: Vec<Effect>)
        ensures
            final(self)@ == old(self)@.without_worker(),
            effect_views(effects@) == old(self)@.stopping(),
    {
        let mut effects = no_effects();
        if self.worker {
            add_effect(&mut effects, Effect::Send(Cmd::Pause));
            add_effect(&mut effects, Effect::Send(Cmd::Stop));
            add_effect(&mut effects, Effect::DropWorker);
        }
        assert(effect_views(effects@) =~= old(self)@.stopping());
        self.worker = false;
        assert(self@ =~= (AppView { worker: false, ..old(self)@ }));
        self.set_state(UiState::Ready);
        effects
    }

    /// The play button was pressed.
    pub fn toggle(&mut self, now: u64) -> (effects: Vec<Effect>)
        ensures
            final(self)@ == old(self)@.toggled(now),
            effect_views(effects@) == old(self)@.toggling(),
    {
        self.bounce_at = Some(now);
        assert(self@ =~= (AppView { bounce_at: Some(now), ..old(self)@ }));
        match self.state {
            UiState::Listening | UiState::Transcribing => {
                if self.worker {
                    self.set_state(UiState::Paused);
                    one_effect(Effect::Send(Cmd::Pause))
                } else {
                    no_effects()
                }
            },
            UiState::Paused => {
                if self.worker {
                    self.set_state(UiState::Listening);
                    one_effect(Effect::Send(Cmd::Resume))
                } else {
                    no_effects()
                }
            },
            _ => one_effect(Effect::Start),
        }
    }

    /// Starts a worker with the keys that are there now; what it is started
    /// with, unless a key is missing or the provider is unknown.
    pub fn start(&mut self, keys: &ApiKeys) -> (plan: Option<WorkerPlan>)
        ensures
            final(self)@ == old(self)@.after_start(*keys),
            match plan {
                None => refusal(old(self)@.settings.provider, *keys) is Some,
                Some(p) => {
                    &&& refusal(old(self)@.settings.provider, *keys) is None
                    &&& Provider::named(old(self)@.settings.provider) == Some(
                        p.transcriber.provider(),
                    )
                    &&& p.transcriber.key() == keys.value(p.transcriber.provider().key_var())->0@
                    &&& p.transcriber.chosen_model() == match filled_in(
                        old(self)@.settings.model,
                    ) {
                        Some(m) => m,
                        None => p.transcriber.provider().default_model(),
                    }
                    &&& p.transcriber.has_default_limits()
                    &&& p.injector.method == InjectMethod::Auto
                    &&& match p.language {
                        Some(l) => filled_in(old(self)@.settings.language) == Some(l@),
                        None => filled_in(old(self)@.settings.language) is None,
                    }
                },
            },
    {
        let model = fill_in(self.settings.model.as_str());
        let language = fill_in(self.settings.language.as_str());
        let built = match &model {
            Some(m) => build_transcriber(self.settings.provider.as_str(), Some(m.as_str()), keys),
            None => build_transcriber(self.settings.provider.as_str(), None, keys),
        };
        match built {
            Ok(transcriber) => {
                self.worker = true;
                self.fatal = false;
                assert(self@ =~= (AppView { worker: true, fatal: false, ..old(self)@ }));
                self.set_state(UiState::Listening);
                Some(
                    WorkerPlan {
                        transcriber,
                        injector: Injector::new(InjectMethod::Auto),
                        language,
                    },
                )
            },
            Err(e) => {
                self.fatal = true;
                self.state = UiState::Error;
                self.status = "API key missing".to_string();
                self.hint = e.message();
                assert(self@ =~= old(self)@.after_start(*keys));
                None
            },
        }
    }

    /// The worker told something.
    pub fn handle_worker_event(&mut self, event: UiEvent, now: u64) -> (effects: Vec<Effect>)
        ensures
            final(self)@ == old(self)@.told(event, now),
            effect_views(effects@) == old(self)@.telling(event),
    {
        match event {
            UiEvent::Status(status) => {
                if self.state == UiState::Listening {
                    match status {
                        Status::Listening => {
                            self.hint = "Speak now, a short pause ends each phrase".to_string();
                        },
                        Status::Transcribing => {
                            self.hint = "Sending audio to the cloud…".to_string();
                        },
                        Status::Paused => {
                            self.set_state(UiState::Paused);
                        },
                    }
                }
                assert(self@ =~= old(self)@.told(event, now));
                no_effects()
            },
            UiEvent::Phrase { text } => {
                self.set_transcript(text, false, now);
                no_effects()
            },
            UiEvent::Error { message, fatal } => {
                if fatal {
                    self.fatal = true;
                    self.state = UiState::Error;
                    self.status = "Stopped".to_string();
                    self.hint = message;
                    self.worker = false;
                    assert(self@ =~= old(self)@.told(event, now));
                    one_effect(Effect::DropWorker)
                } else {
                    self.set_transcript(message, true, now);
                    no_effects()
                }
            },
        }
    }

    /// The height of a window that shows the whole text.
    pub fn desired_height(&self) -> (height: u64)
        ensures
            height == self@.desired_height(),
    {
        let hint_lines: u64 = count_lines(self.hint.as_str());
        let transcript_lines: u64 = if self.transcript.as_str().is_empty() {
            1
        } else {
            count_lines(self.transcript.as_str())
        };
        389 + 18 * (hint_lines + transcript_lines)
    }

    /// Dims the transcript where it was bright long enough.
    fn settle(&mut self, now: u64)
        ensures
            final(self)@ == old(self)@.settled(now),
    {
        if let Some(t) = self.transcript_set {
            let nanos: u64 = if self.transcript_error {
                BRIGHT_ERROR_NANOS
            } else {
                BRIGHT_NANOS
            };
            if has_passed(t, now, nanos) {
                self.transcript_set = None;
            }
        }
        assert(self@ =~= old(self)@.settled(now));
    }

    /// Puts the position of the widget in the settings; whether they are to be
    /// saved.
    fn persist_pos(&mut self) -> (save: bool)
        ensures
            final(self)@ == old(self)@.with_pos_kept(),
            save == (old(self)@.last_pos is Some),
    {
        match self.last_pos {
            Some(p) => {
                self.settings.pos = Some([p.x, p.y]);
                assert(self@ =~= old(self)@.with_pos_kept());
                true
            },
            None => false,
        }
    }

    /// Gives the window the height that its text needs.
    fn fit(&mut self) -> (effects: Vec<Effect>)
        ensures
            final(self)@ == old(self)@.fitted(),
            effect_views(effects@) == old(self)@.fitting(),
    {
        let mut effects = no_effects();
        if let Some(win) = self.win {
            let desired: u64 = self.desired_height();
            if desired != self.win_h {
                self.win_h = desired;
                add_effect(&mut effects, Effect::Resize { win, height: desired });
            }
            add_effect(&mut effects, Effect::AskPosition(win));
        }
        assert(effect_views(effects@) =~= old(self)@.fitting());
        assert(self@ =~= old(self)@.fitted());
        effects
    }

    fn slow_tick(&mut self, now: u64) -> (effects: Vec<Effect>)
        ensures
            final(self)@ == old(self)@.after_slow_tick(now),
            effect_views(effects@) == old(self)@.slow_tick_effects(now),
    {
        self.last_slow = now;
        assert(self@ =~= (AppView { last_slow: now, ..old(self)@ }));
        self.settle(now);
        let ghost settled = self@;
        let mut save = false;
        if let Some(due) = self.pos_save_due {
            if now >= due {
                self.pos_save_due = None;
                assert(self@ =~= (AppView { pos_save_due: None, ..settled }));
                save = self.persist_pos();
            }
        }
        assert(self@ == settled.with_due_pos_kept(now));
        assert(self@.fitting() == old(self)@.fitting());
        let mut fitting = self.fit();
        if save {
            let ghost rest = effect_views(fitting@);
            let mut effects = one_effect(Effect::SaveSettings);
            let ghost first = effect_views(effects@);
            effects.append(&mut fitting);
            assert(effect_views(effects@) =~= first + rest);
            effects
        } else {
            fitting
        }
    }

    /// Time has passed.
    pub fn on_tick(&mut self, now: u64) -> (effects: Vec<Effect>)
        ensures
            final(self)@ == old(self)@.ticked(now),
            effect_views(effects@) == old(self)@.ticking(now),
    {
        if let Some(t) = self.bounce_at {
            if has_passed(t, now, BOUNCE_NANOS) {
                self.bounce_at = None;
            }
        }
        assert(self@ =~= old(self)@.after_fast_tick(now));
        if !has_passed(self.last_slow, now, SLOW_TICK_NANOS) {
            return no_effects();
        }
        self.slow_tick(now)
    }

    /// Puts the settings in the dialog.
    pub fn snapshot_settings(&mut self, groq: Option<String>, openrouter: Option<String>)
        ensures
            final(self)@ == old(self)@.with_drafts(groq, openrouter),
    {
        self.key_groq = text_or_empty(groq);
        self.key_openrouter = text_or_empty(openrouter);
        self.draft_provider = provider_opt(self.settings.provider.as_str());
        self.draft_language = language_opt(self.settings.language.as_str());
        self.draft_model = self.settings.model.clone();
        self.draft_ontop = self.settings.always_on_top;
        assert(self@ =~= old(self)@.with_drafts(groq, openrouter));
    }

    /// Puts the dialog in the settings, saves them and closes the dialog.
    pub fn save_settings(&mut self) -> (effects: Vec<Effect>)
        ensures
            final(self)@ == old(self)@.saved(),
            effect_views(effects@) == old(self)@.saving(),
    {
        let changed_ontop = self.settings.always_on_top != self.draft_ontop;
        self.settings.provider = self.draft_provider.value.to_string();
        self.settings.language = self.draft_language.value.to_string();
        self.settings.model = self.draft_model.clone();
        self.settings.always_on_top = self.draft_ontop;
        let mut effects = no_effects();
        add_effect(&mut effects, Effect::SaveSettings);
        add_effect(&mut effects, Effect::SaveKeys);
        add_effect(&mut effects, var_change(KeyVar::Groq, self.key_groq.as_str()));
        add_effect(&mut effects, var_change(KeyVar::OpenRouter, self.key_openrouter.as_str()));
        if changed_ontop {
            if let Some(win) = self.win {
                add_effect(&mut effects, Effect::SetLevel { win, on_top: self.draft_ontop });
            }
        }
        if let Some(id) = self.settings_win {
            add_effect(&mut effects, Effect::Close(id));
        }
        self.settings_win = None;
        assert(effect_views(effects@) =~= old(self)@.saving());
        assert(self@ =~= old(self)@.saved());
        effects
    }

    /// Takes an event.
    pub fn update(&mut self, message: Message, now: u64) -> (effects: Vec<Effect>)
        requires
            now <= u64::MAX - POS_SAVE_NANOS,
        ensures
            final(self)@ == after_message(old(self)@, message, now),
            effect_views(effects@) == message_effects(old(self)@, message, now),
    {
        match message {
            Message::Tick => {
                return self.on_tick(now);
            },
            Message::Toggle => {
                return self.toggle(now);
            },
            Message::SaveSettings => {
                return self.save_settings();
            },
            Message::Worker(event) => {
                return self.handle_worker_event(event, now);
            },
            Message::Drag => {
                return match self.win {
                    Some(id) => one_effect(Effect::Drag(id)),
                    None => no_effects(),
                };
            },
            Message::Quit => {
                let mut effects = self.stop_worker();
                if let Some(id) = self.win {
                    add_effect(&mut effects, Effect::Close(id));
                }
                return effects;
            },
            Message::OpenSettings { groq, openrouter } => {
                return match self.settings_win {
                    Some(id) => one_effect(Effect::Focus(id)),
                    None => {
                        self.snapshot_settings(groq, openrouter);
                        one_effect(Effect::OpenSettings)
                    },
                };
            },
            Message::CancelSettings => {
                let open = self.settings_win;
                self.settings_win = None;
                assert(self@ =~= after_message(old(self)@, message, now));
                return match open {
                    Some(id) => one_effect(Effect::Close(id)),
                    None => no_effects(),
                };
            },
            Message::CloseRequested(id) => {
                if self.settings_win == Some(id) {
                    self.settings_win = None;
                } else if self.win == Some(id) {
                    return self.stop_worker();
                }
            },
            Message::WindowId(id) => {
                self.win = id;
            },
            Message::SettingsOpened(id) => {
                self.settings_win = Some(id);
            },
            Message::Position { pos, moved } => {
                if pos.is_some() && moved {
                    self.last_pos = pos;
                    self.pos_save_due = Some(now + POS_SAVE_NANOS);
                }
            },
            Message::KeyGroq(s) => {
                self.key_groq = s;
            },
            Message::KeyOpenrouter(s) => {
                self.key_openrouter = s;
            },
            Message::ToggleRevealGroq => {
                self.reveal_groq = !self.reveal_groq;
            },
            Message::ToggleRevealOpenrouter => {
                self.reveal_openrouter = !self.reveal_openrouter;
            },
            Message::DraftProvider(p) => {
                self.draft_provider = p;
            },
            Message::DraftLanguage(l) => {
                self.draft_language = l;
            },
            Message::DraftModel(s) => {
                self.draft_model = s;
            },
            Message::DraftOntop(b) => {
                self.draft_ontop = b;
            },
        }
        assert(self@ =~= after_message(old(self)@, message, now));
        no_effects()
    }
}

// ---------------------------------------------------------------------------
// What is shown
// ---------------------------------------------------------------------------

/// A colour of the palette.
#[derive(Debug, Clone, Copy, PartialEq, Eq, Structural)]
pub enum Tint {
    Accent,
    Amber,
    Red,
    Text,
    Dim,
    Faint,
}

impl AppView {
    /// Whether the button shows a pause glyph.
    pub open spec fn is_playing(self) -> bool {
        self.state == UiState::Listening || self.state == UiState::Transcribing
    }

    /// Whether something on the widget moves.
    pub open spec fn is_animated(self) -> bool {
        self.state == UiState::Listening || self.bounce_at is Some
    }

    /// The colour of the status line.
    pub open spec fn status_tint(self) -> Tint {
        match self.state {
            UiState::Listening => Tint::Accent,
            UiState::Transcribing => Tint::Amber,
            UiState::Error => Tint::Red,
            _ => Tint::Dim,
        }
    }

    /// The colour of the transcript: bright for a while, then dimmed.
    pub open spec fn transcript_tint(self, now: u64) -> Tint {
        match self.transcript_set {
            Some(t) => if passed(t, now, self.bright_nanos()) {
                Tint::Faint
            } else if self.transcript_error {
                Tint::Red
            } else {
                Tint::Text
            },
            None => Tint::Faint,
        }
    }

    /// What the button says when it is pointed at.
    pub open spec fn tooltip(self) -> Seq<char> {
        match self.state {
            UiState::Listening | UiState::Transcribing => "Pause"@,
            UiState::Paused => "Resume"@,
            _ => "Start dictation"@,
        }
    }

    /// What stands in the place of the transcript.
    pub open spec fn preview_text(self) -> Seq<char> {
        if self.transcript.len() > 0 {
            self.transcript
        } else if self.is_playing() {
            "…"@
        } else {
            ""@
        }
    }
}

/// What the widget shows.
#[derive(Debug)]
pub struct MainView<'a> {
    /// Whether the button shows a pause glyph, and glows.
    pub playing: bool,
    /// Whether the rings around the button move.
    pub pulsing: bool,
    pub tooltip: &'static str,
    pub status: &'a str,
    pub status_tint: Tint,
    pub hint: &'a str,
    pub preview: &'a str,
    pub preview_tint: Tint,
}

/// What the dialog of the settings shows.
#[derive(Debug)]
pub struct SettingsForm<'a> {
    pub key_groq: &'a str,
    /// Whether the key is hidden.
    pub hide_groq: bool,
    pub key_openrouter: &'a str,
    /// Whether the key is hidden.
    pub hide_openrouter: bool,
    pub provider: ProviderOpt,
    pub language: LanguageOpt,
    pub model: &'a str,
    pub on_top: bool,
    /// What the box is set to when it is pressed.
    pub on_top_pressed: bool,
}

impl WayDictationApp {
    /// The colour of the status line.
    pub fn status_color(&self) -> (tint: Tint)
        ensures
            tint == self@.status_tint(),
    {
        match self.state {
            UiState::Listening => Tint::Accent,
            UiState::Transcribing => Tint::Amber,
            UiState::Error => Tint::Red,
            _ => Tint::Dim,
        }
    }

    /// The colour of the transcript.
    pub fn transcript_color(&self, now: u64) -> (tint: Tint)
        ensures
            tint == self@.transcript_tint(now),
    {
        match self.transcript_set {
            None => Tint::Faint,
            Some(t) => {
                let (nanos, bright): (u64, Tint) = if self.transcript_error {
                    (BRIGHT_ERROR_NANOS, Tint::Red)
                } else {
                    (BRIGHT_NANOS, Tint::Text)
                };
                if has_passed(t, now, nanos) {
                    Tint::Faint
                } else {
                    bright
                }
            },
        }
    }

    /// What the button says when it is pointed at.
    pub fn play_tooltip(&self) -> (text: &'static str)
        ensures
            text@ == self@.tooltip(),
    {
        match self.state {
            UiState::Listening | UiState::Transcribing => "Pause",
            UiState::Paused => "Resume",
            _ => "Start dictation",
        }
    }

    /// What the widget shows.
    pub fn main_content(&self, now: u64) -> (view: MainView<'_>)
        ensures
            view.playing == self@.is_playing(),
            view.pulsing == (self@.state == UiState::Listening),
            view.tooltip@ == self@.tooltip(),
            view.status@ == self@.status,
            view.status_tint == self@.status_tint(),
            view.hint@ == self@.hint,
            view.preview@ == self@.preview_text(),
            view.preview_tint == self@.transcript_tint(now),
    {
        let playing = self.state == UiState::Listening || self.state == UiState::Transcribing;
        let preview: &str = if !self.transcript.as_str().is_empty() {
            self.transcript.as_str()
        } else if playing {
            "…"
        } else {
            ""
        };
        MainView {
            playing,
            pulsing: self.state == UiState::Listening,
            tooltip: self.play_tooltip(),
            status: self.status.as_str(),
            status_tint: self.status_color(),
            hint: self.hint.as_str(),
            preview,
            preview_tint: self.transcript_color(now),
        }
    }

    /// What the dialog of the settings shows.
    pub fn settings_content(&self) -> (form: SettingsForm<'_>)
        ensures
            form.key_groq@ == self@.key_groq,
            form.hide_groq == !self@.reveal_groq,
            form.key_openrouter@ == self@.key_openrouter,
            form.hide_openrouter == !self@.reveal_openrouter,
            form.provider@ == self@.draft_provider,
            form.language@ == self@.draft_language,
            form.model@ == self@.draft_model,
            form.on_top == self@.draft_ontop,
            form.on_top_pressed == !self@.draft_ontop,
    {
        SettingsForm {
            key_groq: self.key_groq.as_str(),
            hide_groq: !self.reveal_groq,
            key_openrouter: self.key_openrouter.as_str(),
            hide_openrouter: !self.reveal_openrouter,
            provider: self.draft_provider,
            language: self.draft_language,
            model: self.draft_model.as_str(),
            on_top: self.draft_ontop,
            on_top_pressed: !self.draft_ontop,
        }
    }

    /// Whether a window is that of the settings.
    pub fn is_settings(&self, window: u64) -> (yes: bool)
        ensures
            yes == (self@.settings_win == Some(window)),
    {
        self.settings_win == Some(window)
    }

    /// The title of a window.
    pub fn title(&self, window: u64) -> (title: &'static str)
        ensures
            title@ == if self@.settings_win == Some(window) {
                "Way Dictation - Settings"@
            } else {
                "Way Dictation"@
            },
    {
        if self.is_settings(window) {
            "Way Dictation - Settings"
        } else {
            "Way Dictation"
        }
    }

    /// How many milliseconds pass between two ticks: few while something on
    /// the widget moves.
    pub fn tick_interval(&self) -> (millis: u64)
        ensures
            millis == if self@.is_animated() {
                33int
            } else {
                250int
            },
    {
        if self.state == UiState::Listening || self.bounce_at.is_some() {
            33
        } else {
            250
        }
    }
}

// ---------------------------------------------------------------------------
// Laws
// ---------------------------------------------------------------------------

/// What holds of the widget at all times: it has a worker exactly while it
/// listens, transcribes or is paused.
pub open spec fn consistent(v: AppView) -> bool {
    v.worker <==> (v.is_playing() || v.state == UiState::Paused)
}

/// A widget that was just created is consistent.
pub proof fn law_fresh_widget_is_consistent(settings: SettingsView, now: u64)
    ensures
        consistent(fresh(settings, now)),
{
}

/// Every event keeps the widget consistent.
pub proof fn law_events_keep_consistency(v: AppView, message: Message, now: u64)
    requires
        consistent(v),
    ensures
        consistent(after_message(v, message, now)),
{
}

/// So does starting a worker, which happens only where there is none: no press
/// of the button starts a second one.
pub proof fn law_one_worker_at_a_time(v: AppView, keys: ApiKeys)
    requires
        consistent(v),
        v.toggling() == seq![EffectView::Start],
    ensures
        !v.worker,
        consistent(v.after_start(keys)),
{
    assert(v.toggling()[0] == EffectView::Start);
}

/// Pressing the button while the widget listens pauses it, and pressing it
/// again resumes it, with the words that it had.
pub proof fn law_pause_and_resume(v: AppView, first: u64, second: u64)
    requires
        consistent(v),
        v.state == UiState::Listening,
    ensures
        v.toggling() == seq![EffectView::Send(Cmd::Pause)],
        v.toggled(first).toggling() == seq![EffectView::Send(Cmd::Resume)],
        v.toggled(first).state == UiState::Paused,
        v.toggled(first).toggled(second) == (AppView {
            bounce_at: Some(second),
            ..v
        }).in_state(UiState::Listening),
{
}

/// Quitting pauses the worker before it stops it, lets it go and closes the
/// window last.
pub proof fn law_quit_stops_everything(v: AppView, now: u64)
    requires
        v.worker,
        v.win is Some,
    ensures
        message_effects(v, Message::Quit, now) == seq![
            EffectView::Send(Cmd::Pause),
            EffectView::Send(Cmd::Stop),
            EffectView::DropWorker,
            EffectView::Close(v.win->0),
        ],
        !after_message(v, Message::Quit, now).worker,
{
    assert(message_effects(v, Message::Quit, now) =~= seq![
        EffectView::Send(Cmd::Pause),
        EffectView::Send(Cmd::Stop),
        EffectView::DropWorker,
        EffectView::Close(v.win->0),
    ]);
}

/// A dialog that is opened and saved as it is changes nothing in the settings,
/// provided that they hold choices that the dialog offers.
pub proof fn law_untouched_dialog_changes_nothing(
    v: AppView,
    groq: Option<String>,
    openrouter: Option<String>,
)
    requires
        exists|i: int|
            0 <= i < provider_table().len() && (#[trigger] provider_table()[i]).value
                == v.settings.provider,
        exists|i: int|
            0 <= i < language_table().len() && (#[trigger] language_table()[i]).value
                == v.settings.language,
    ensures
        v.with_drafts(groq, openrouter).saved().settings == v.settings,
{
    law_choice_stands_in_the_table(provider_table(), v.settings.provider);
    law_choice_stands_in_the_table(language_table(), v.settings.language);
    assert(v.with_drafts(groq, openrouter).saved().settings =~= v.settings);
}

/// A dialog that is cancelled or closed leaves the settings as they are,
/// whatever was typed into it.
pub proof fn law_cancelled_dialog_changes_nothing(v: AppView, id: u64, now: u64)
    requires
        v.settings_win == Some(id),
    ensures
        after_message(v, Message::CancelSettings, now).settings == v.settings,
        after_message(v, Message::CloseRequested(id), now).settings == v.settings,
        message_effects(v, Message::CancelSettings, now) == seq![EffectView::Close(id)],
        message_effects(v, Message::CloseRequested(id), now) == Seq::<EffectView>::empty(),
{
}

/// What is saved is what the dialog shows when it is opened again.
pub proof fn law_saved_dialog_is_shown_again(
    v: AppView,
    groq: Option<String>,
    openrouter: Option<String>,
)
    requires
        exists|i: int|
            0 <= i < provider_table().len() && (#[trigger] provider_table()[i])
                == v.draft_provider,
        exists|i: int|
            0 <= i < language_table().len() && (#[trigger] language_table()[i])
                == v.draft_language,
    ensures
        ({
            let again = v.saved().with_drafts(groq, openrouter);
            &&& again.draft_provider.value == v.draft_provider.value
            &&& again.draft_language.value == v.draft_language.value
            &&& again.draft_model == v.draft_model
            &&& again.draft_ontop == v.draft_ontop
        }),
{
    let i = choose|i: int|
        0 <= i < provider_table().len() && (#[trigger] provider_table()[i]) == v.draft_provider;
    assert(provider_table()[i].value == v.draft_provider.value);
    let j = choose|j: int|
        0 <= j < language_table().len() && (#[trigger] language_table()[j]) == v.draft_language;
    assert(language_table()[j].value == v.draft_language.value);
    law_choice_stands_in_the_table(provider_table(), v.draft_provider.value);
    law_choice_stands_in_the_table(language_table(), v.draft_language.value);
}

/// A widget that was moved and then stood still has its position saved with
/// the first slow tick after the delay.
pub proof fn law_position_is_remembered(v: AppView, pos: WindowPos, moved_at: u64, now: u64)
    requires
        now >= moved_at + POS_SAVE_NANOS,
        v.is_slow_tick(now),
    ensures
        ({
            let moved = after_message(
                v,
                Message::Position { pos: Some(pos), moved: true },
                moved_at,
            );
            &&& moved.ticked(now).settings.pos == Some((pos.x, pos.y))
            &&& moved.ticking(now).len() > 0
            &&& moved.ticking(now)[0] == EffectView::SaveSettings
            &&& moved.ticked(now).pos_save_due is None
        }),
{
}

/// A phrase that was typed is shown until the next phrase or error, whatever
/// the user does meanwhile.
pub proof fn law_transcript_stays(v: AppView, message: Message, now: u64)
    requires
        !(message is Worker),
    ensures
        after_message(v, message, now).transcript == v.transcript,
        after_message(v, message, now).transcript_error == v.transcript_error,
{
}

/// The providers and the languages that can be chosen, each with the value that
/// is kept for it.
pub proof fn law_choices_have_their_values()
    ensures
        provider_table() == seq![
            OptView { label: "GPT Transcribe (paid)"@, value: "gpt-transcribe"@ },
            OptView { label: "Groq Whisper (free)"@, value: "groq"@ },
            OptView { label: "Gemini (OpenRouter)"@, value: "gemini"@ },
        ],
        language_table() == seq![
            OptView { label: "Auto-detect"@, value: ""@ },
            OptView { label: "English"@, value: "en"@ },
            OptView { label: "Igbo"@, value: "ig"@ },
            OptView { label: "Yoruba"@, value: "yo"@ },
            OptView { label: "Hausa"@, value: "ha"@ },
            OptView { label: "French"@, value: "fr"@ },
            OptView { label: "Spanish"@, value: "es"@ },
            OptView { label: "German"@, value: "de"@ },
            OptView { label: "Portuguese"@, value: "pt"@ },
            OptView { label: "Italian"@, value: "it"@ },
            OptView { label: "Dutch"@, value: "nl"@ },
            OptView { label: "Arabic"@, value: "ar"@ },
            OptView { label: "Japanese"@, value: "ja"@ },
            OptView { label: "Chinese"@, value: "zh"@ },
            OptView { label: "Russian"@, value: "ru"@ },
        ],
{
}

/// Each state has its words, and entering it changes nothing else. An error
/// keeps its hint.
pub proof fn law_each_state_has_its_words(v: AppView)
    ensures
        v.in_state(UiState::Ready) == (AppView {
            state: UiState::Ready,
            status: "Ready"@,
            hint: "Press play, click the app you want to type into, and speak"@,
            ..v
        }),
        v.in_state(UiState::Listening) == (AppView {
            state: UiState::Listening,
            status: "Listening…"@,
            hint: "Speak now, a short pause ends each phrase"@,
            ..v
        }),
        v.in_state(UiState::Transcribing) == (AppView {
            state: UiState::Transcribing,
            status: "Transcribing…"@,
            hint: "Sending audio to the cloud"@,
            ..v
        }),
        v.in_state(UiState::Paused) == (AppView {
            state: UiState::Paused,
            status: "Paused"@,
            hint: "Press play to resume"@,
            ..v
        }),
        v.in_state(UiState::Error) == (AppView { state: UiState::Error, status: "Error"@, ..v }),
{
}

/// A phrase that was typed is shown whole, as no error, from now on, and changes
/// nothing else.
pub proof fn law_a_typed_phrase_is_shown_whole(v: AppView, text: String, now: u64)
    ensures
        after_message(v, Message::Worker(UiEvent::Phrase { text }), now) == (AppView {
            transcript: text@,
            transcript_error: false,
            transcript_set: Some(now),
            ..v
        }),
        message_effects(v, Message::Worker(UiEvent::Phrase { text }), now) == Seq::<
            EffectView,
        >::empty(),
{
}

/// An error is shown whole: in the place of the transcript where the worker goes
/// on, and as the hint where it is gone.
pub proof fn law_an_error_is_shown_whole(v: AppView, message: String, now: u64)
    ensures
        ({
            let event = Message::Worker(UiEvent::Error { message, fatal: false });
            &&& after_message(v, event, now) == (AppView {
                transcript: message@,
                transcript_error: true,
                transcript_set: Some(now),
                ..v
            })
            &&& message_effects(v, event, now) == Seq::<EffectView>::empty()
        }),
        ({
            let event = Message::Worker(UiEvent::Error { message, fatal: true });
            &&& after_message(v, event, now) == (AppView {
                fatal: true,
                state: UiState::Error,
                status: "Stopped"@,
                hint: message@,
                worker: false,
                ..v
            })
            &&& message_effects(v, event, now) == seq![EffectView::DropWorker]
        }),
{
}

/// What the worker says it does changes the hint of a widget that listens, and
/// nothing of any other; a worker that pauses pauses the widget.
pub proof fn law_a_listening_widget_says_what_is_done(v: AppView, status: Status, now: u64)
    ensures
        ({
            let event = Message::Worker(UiEvent::Status(status));
            let next = after_message(v, event, now);
            &&& message_effects(v, event, now) == Seq::<EffectView>::empty()
            &&& v.state != UiState::Listening ==> next == v
            &&& v.state == UiState::Listening ==> next == match status {
                Status::Listening => AppView {
                    hint: "Speak now, a short pause ends each phrase"@,
                    ..v
                },
                Status::Transcribing => AppView { hint: "Sending audio to the cloud…"@, ..v },
                Status::Paused => AppView {
                    state: UiState::Paused,
                    status: "Paused"@,
                    hint: "Press play to resume"@,
                    ..v
                },
            }
        }),
{
}

/// The play button pauses a widget that listens or transcribes, resumes one that
/// is paused, and starts any other.
pub proof fn law_the_button_starts_pauses_and_resumes(v: AppView, now: u64)
    requires
        consistent(v),
    ensures
        ({
            let next = after_message(v, Message::Toggle, now);
            let effects = message_effects(v, Message::Toggle, now);
            match v.state {
                UiState::Listening | UiState::Transcribing => {
                    &&& next == (AppView { bounce_at: Some(now), ..v }).in_state(UiState::Paused)
                    &&& effects == seq![EffectView::Send(Cmd::Pause)]
                },
                UiState::Paused => {
                    &&& next == (AppView { bounce_at: Some(now), ..v }).in_state(
                        UiState::Listening,
                    )
                    &&& effects == seq![EffectView::Send(Cmd::Resume)]
                },
                UiState::Ready | UiState::Error => {
                    &&& next == (AppView { bounce_at: Some(now), ..v })
                    &&& effects == seq![EffectView::Start]
                },
            }
        }),
{
}

/// Starting listens where the provider is known and its key is there; where it is
/// refused, the whole refusal is the hint.
pub proof fn law_a_refused_start_says_why(v: AppView, keys: ApiKeys)
    ensures
        refusal(v.settings.provider, keys) matches Some(text) ==> v.after_start(keys) == (AppView {
            fatal: true,
            state: UiState::Error,
            status: "API key missing"@,
            hint: text,
            ..v
        }),
        refusal(v.settings.provider, keys) is None ==> v.after_start(keys) == (AppView {
            worker: true,
            fatal: false,
            ..v
        }).in_state(UiState::Listening),
{
}

/// Only the model and the language that hold more than white space are used, and
/// of them nothing but the white space at their ends is left out.
pub proof fn law_settings_are_used_without_white_ends(text: Seq<char>)
    ensures
        filled_in(text) is None <==> is_blank(text),
        filled_in(text) matches Some(used) ==> exists|before: Seq<char>, after: Seq<char>|
            is_blank(before) && is_blank(after) && text == #[trigger] (before + used + after),
        filled_in(text) matches Some(used) ==> !is_white(used[0]) && !is_white(used.last()),
{
    law_trimming_takes_only_white_ends(text);
    let t = trimmed(text);
    let (before, after) = choose|before: Seq<char>, after: Seq<char>|
        is_blank(before) && is_blank(after) && text == #[trigger] (before + t + after);
    if is_blank(text) {
        law_trimming_finds_what_is_between(text, Seq::empty(), Seq::empty());
        assert(text + Seq::<char>::empty() + Seq::<char>::empty() =~= text);
    } else if t.len() > 0 {
        let used = filled_in(text)->0;
        assert(text == before + used + after);
    } else {
        assert forall|i: int| 0 <= i < text.len() implies is_white(#[trigger] text[i]) by {
            if i < before.len() {
                assert(is_white(before[i]));
            } else {
                assert(is_white(after[i - before.len()]));
            }
        }
    }
}

/// The dialog opens with the keys of the environment and the settings, and only
/// once: where it is open it is brought to the front as it is.
pub proof fn law_the_dialog_opens_with_the_settings(
    v: AppView,
    groq: Option<String>,
    openrouter: Option<String>,
    now: u64,
)
    ensures
        ({
            let event = Message::OpenSettings { groq, openrouter };
            let next = after_message(v, event, now);
            &&& v.settings_win matches Some(id) ==> next == v && message_effects(v, event, now)
                == seq![EffectView::Focus(id)]
            &&& v.settings_win is None ==> {
                &&& message_effects(v, event, now) == seq![EffectView::OpenSettings]
                &&& next.key_groq == match groq {
                    Some(k) => k@,
                    None => Seq::empty(),
                }
                &&& next.key_openrouter == match openrouter {
                    Some(k) => k@,
                    None => Seq::empty(),
                }
                &&& next.draft_model == v.settings.model
                &&& next.draft_ontop == v.settings.always_on_top
                &&& next == (AppView {
                    key_groq: next.key_groq,
                    key_openrouter: next.key_openrouter,
                    draft_provider: next.draft_provider,
                    draft_language: next.draft_language,
                    draft_model: next.draft_model,
                    draft_ontop: next.draft_ontop,
                    ..v
                })
            }
        }),
{
}

/// Saving the dialog keeps what it shows and closes it; the position and all
/// else stay.
pub proof fn law_saving_keeps_what_the_dialog_shows(v: AppView, now: u64)
    ensures
        after_message(v, Message::SaveSettings, now) == (AppView {
            settings: SettingsView {
                provider: v.draft_provider.value,
                language: v.draft_language.value,
                model: v.draft_model,
                always_on_top: v.draft_ontop,
                pos: v.settings.pos,
            },
            settings_win: None,
            ..v
        }),
{
}

/// Saving the dialog writes the settings and the keys, makes the keys visible or
/// takes empty ones away, changes the level of the window where that was
/// changed, and closes the dialog.
pub proof fn law_saving_writes_settings_and_keys(v: AppView, now: u64)
    ensures
        ({
            let effects = message_effects(v, Message::SaveSettings, now);
            let level = v.settings.always_on_top != v.draft_ontop && v.win is Some;
            &&& effects.len() == 4 + (if level {
                1int
            } else {
                0
            }) + (if v.settings_win is Some {
                1int
            } else {
                0
            })
            &&& effects[0] == EffectView::SaveSettings
            &&& effects[1] == EffectView::SaveKeys
            &&& effects[2] == if v.key_groq.len() > 0 {
                EffectView::SetVar(KeyVar::Groq, v.key_groq)
            } else {
                EffectView::RemoveVar(KeyVar::Groq)
            }
            &&& effects[3] == if v.key_openrouter.len() > 0 {
                EffectView::SetVar(KeyVar::OpenRouter, v.key_openrouter)
            } else {
                EffectView::RemoveVar(KeyVar::OpenRouter)
            }
            &&& level ==> effects[4] == (EffectView::SetLevel {
                win: v.win->0,
                on_top: v.draft_ontop,
            })
            &&& v.settings_win matches Some(id) ==> effects.last() == EffectView::Close(id)
        }),
{
}

/// What is typed into the dialog changes what it shows, as it is, and nothing
/// else.
pub proof fn law_typing_changes_the_dialog_alone(v: AppView, text: String, on: bool, now: u64)
    ensures
        after_message(v, Message::KeyGroq(text), now) == (AppView { key_groq: text@, ..v }),
        after_message(v, Message::KeyOpenrouter(text), now) == (AppView {
            key_openrouter: text@,
            ..v
        }),
        after_message(v, Message::DraftModel(text), now) == (AppView { draft_model: text@, ..v }),
        after_message(v, Message::DraftOntop(on), now) == (AppView { draft_ontop: on, ..v }),
        after_message(v, Message::ToggleRevealGroq, now) == (AppView {
            reveal_groq: !v.reveal_groq,
            ..v
        }),
        after_message(v, Message::ToggleRevealOpenrouter, now) == (AppView {
            reveal_openrouter: !v.reveal_openrouter,
            ..v
        }),
        message_effects(v, Message::KeyGroq(text), now).len() == 0,
        message_effects(v, Message::KeyOpenrouter(text), now).len() == 0,
        message_effects(v, Message::DraftModel(text), now).len() == 0,
        message_effects(v, Message::DraftOntop(on), now).len() == 0,
        message_effects(v, Message::ToggleRevealGroq, now).len() == 0,
        message_effects(v, Message::ToggleRevealOpenrouter, now).len() == 0,
{
}

/// What is chosen in the dialog is what it shows.
pub proof fn law_choosing_changes_the_dialog_alone(
    v: AppView,
    provider: ProviderOpt,
    language: LanguageOpt,
    now: u64,
)
    ensures
        after_message(v, Message::DraftProvider(provider), now) == (AppView {
            draft_provider: OptView { label: provider.label@, value: provider.value@ },
            ..v
        }),
        after_message(v, Message::DraftLanguage(language), now) == (AppView {
            draft_language: OptView { label: language.label@, value: language.value@ },
            ..v
        }),
        message_effects(v, Message::DraftProvider(provider), now).len() == 0,
        message_effects(v, Message::DraftLanguage(language), now).len() == 0,
{
}

/// Windows come and go: they are known by their numbers, the card can be dragged
/// wherever the window is known, and closing the window of the widget lets the
/// worker go.
pub proof fn law_windows_are_known_by_their_numbers(v: AppView, id: u64, now: u64)
    ensures
        after_message(v, Message::WindowId(Some(id)), now) == (AppView { win: Some(id), ..v }),
        after_message(v, Message::SettingsOpened(id), now) == (AppView {
            settings_win: Some(id),
            ..v
        }),
        after_message(v, Message::CancelSettings, now) == (AppView { settings_win: None, ..v }),
        after_message(v, Message::Drag, now) == v,
        v.win == Some(id) ==> message_effects(v, Message::Drag, now) == seq![EffectView::Drag(id)],
        v.win == Some(id) && v.settings_win != Some(id) ==> after_message(
            v,
            Message::CloseRequested(id),
            now,
        ) == (AppView { worker: false, ..v }).in_state(UiState::Ready),
        v.win != Some(id) && v.settings_win != Some(id) ==> after_message(
            v,
            Message::CloseRequested(id),
            now,
        ) == v && message_effects(v, Message::CloseRequested(id), now).len() == 0,
        after_message(v, Message::Quit, now) == (AppView { worker: false, ..v }).in_state(
            UiState::Ready,
        ),
{
}

/// A widget whose window is closed pauses its worker, stops it and lets it go.
pub proof fn law_closing_the_window_stops_the_worker(v: AppView, id: u64, now: u64)
    requires
        v.win == Some(id),
        v.settings_win != Some(id),
    ensures
        message_effects(v, Message::CloseRequested(id), now) == if v.worker {
            seq![
                EffectView::Send(Cmd::Pause),
                EffectView::Send(Cmd::Stop),
                EffectView::DropWorker,
            ]
        } else {
            Seq::empty()
        },
{
}

/// A move is remembered, to be saved after 400 ms; a widget that did not move has
/// nothing to remember.
pub proof fn law_a_move_is_remembered(v: AppView, pos: WindowPos, now: u64)
    requires
        now <= u64::MAX - 400_000_000,
    ensures
        after_message(v, Message::Position { pos: Some(pos), moved: true }, now) == (AppView {
            last_pos: Some(pos),
            pos_save_due: Some((now + 400_000_000) as u64),
            ..v
        }),
        after_message(v, Message::Position { pos: Some(pos), moved: false }, now) == v,
        after_message(v, Message::Position { pos: None, moved: true }, now) == v,
{
}

/// A line holds 42 characters: a text has as many lines as it needs, and no more.
pub proof fn law_lines_hold_the_whole_text(chars: nat)
    ensures
        text_lines(chars) >= 1,
        42 * text_lines(chars) >= chars,
        chars > 42 ==> 42 * (text_lines(chars) - 1) < chars,
        chars <= 42 ==> text_lines(chars) == 1,
{
}

/// The window is as high as the lines of its hint and of its transcript need, at
/// 18 pixels each.
pub proof fn law_the_window_shows_the_whole_text(v: AppView)
    ensures
        v.desired_height() == 389 + 18 * text_lines(v.hint.len()) + 18 * text_lines(
            v.transcript.len(),
        ),
{
}

/// Time has passed between two points where the later is so much after the
/// earlier.
pub proof fn law_time_passes(since: u64, now: u64, nanos: u64)
    ensures
        passed(since, now, nanos) <==> now >= since + nanos,
{
}

/// A tick ends the bounce of the button after 260 ms. Anything else it does at
/// most every 250 ms.
pub proof fn law_a_tick_ends_the_bounce(v: AppView, now: u64)
    ensures
        ({
            let next = v.ticked(now);
            &&& next.bounce_at == match v.bounce_at {
                Some(t) => if now >= t + 260_000_000 {
                    None
                } else {
                    Some(t)
                },
                None => None,
            }
            &&& now < v.last_slow + 250_000_000 ==> next == (AppView {
                bounce_at: next.bounce_at,
                ..v
            }) && v.ticking(now).len() == 0
            &&& now >= v.last_slow + 250_000_000 ==> next.last_slow == now
        }),
{
}

/// A slow tick dims a phrase after 2.2 s and an error after 2.6 s, keeps a
/// position that is due, and fits the window to its text; it changes nothing
/// else.
pub proof fn law_a_slow_tick_settles_the_widget(v: AppView, now: u64)
    requires
        now >= v.last_slow + 250_000_000,
    ensures
        ({
            let next = v.ticked(now);
            let bright: u64 = if v.transcript_error {
                2_600_000_000
            } else {
                2_200_000_000
            };
            let due = v.pos_save_due matches Some(at) && now >= at;
            &&& next.transcript_set == match v.transcript_set {
                Some(t) => if now >= t + bright {
                    None
                } else {
                    Some(t)
                },
                None => None,
            }
            &&& next.pos_save_due == if due {
                None
            } else {
                v.pos_save_due
            }
            &&& next.settings == (SettingsView {
                pos: if due && v.last_pos is Some {
                    Some((v.last_pos->0.x, v.last_pos->0.y))
                } else {
                    v.settings.pos
                },
                ..v.settings
            })
            &&& next.win_h == if v.win is Some {
                v.desired_height() as u64
            } else {
                v.win_h
            }
            &&& next == (AppView {
                last_slow: now,
                bounce_at: next.bounce_at,
                transcript_set: next.transcript_set,
                pos_save_due: next.pos_save_due,
                settings: next.settings,
                win_h: next.win_h,
                ..v
            })
        }),
{
}

/// A slow tick saves the settings where a position is due, resizes a window that
/// has another height than its text needs, and asks where the window stands.
pub proof fn law_a_slow_tick_asks_and_resizes(v: AppView, now: u64)
    requires
        now >= v.last_slow + 250_000_000,
    ensures
        ({
            let effects = v.ticking(now);
            let saves = (v.pos_save_due matches Some(at) && now >= at) && v.last_pos is Some;
            let resizes = v.win is Some && v.desired_height() != v.win_h;
            &&& effects.len() == (if saves {
                1int
            } else {
                0
            }) + (if resizes {
                1int
            } else {
                0
            }) + (if v.win is Some {
                1int
            } else {
                0
            })
            &&& saves ==> effects[0] == EffectView::SaveSettings
            &&& v.win matches Some(win) ==> effects.last() == EffectView::AskPosition(win)
            &&& resizes ==> effects[effects.len() - 2] == (EffectView::Resize {
                win: v.win->0,
                height: v.desired_height() as u64,
            })
        }),
{
}

/// What the widget shows goes by its state: the colour of the status, what the
/// button says and whether it moves.
pub proof fn law_the_widget_shows_its_state(v: AppView)
    ensures
        v.status_tint() == match v.state {
            UiState::Listening => Tint::Accent,
            UiState::Transcribing => Tint::Amber,
            UiState::Error => Tint::Red,
            UiState::Ready => Tint::Dim,
            UiState::Paused => Tint::Dim,
        },
        v.tooltip() == match v.state {
            UiState::Listening => "Pause"@,
            UiState::Transcribing => "Pause"@,
            UiState::Paused => "Resume"@,
            UiState::Ready => "Start dictation"@,
            UiState::Error => "Start dictation"@,
        },
        v.is_playing() <==> v.state == UiState::Listening || v.state == UiState::Transcribing,
        v.is_animated() <==> v.state == UiState::Listening || v.bounce_at is Some,
{
}

/// The transcript is shown whole wherever there is one, bright while it is new
/// and dimmed afterwards: an error in red.
pub proof fn law_the_transcript_is_shown_whole(v: AppView, now: u64)
    ensures
        v.transcript.len() > 0 ==> v.preview_text() == v.transcript,
        v.transcript.len() == 0 ==> v.preview_text() == if v.is_playing() {
            "…"@
        } else {
            ""@
        },
        v.transcript_tint(now) == match v.transcript_set {
            None => Tint::Faint,
            Some(t) => if v.transcript_error {
                if now >= t + 2_600_000_000 {
                    Tint::Faint
                } else {
                    Tint::Red
                }
            } else {
                if now >= t + 2_200_000_000 {
                    Tint::Faint
                } else {
                    Tint::Text
                }
            },
        },
{
}

/// A fresh widget is ready, shows nothing, and has the settings that it was given
/// in its dialog.
pub proof fn law_a_fresh_widget_is_ready(settings: SettingsView, now: u64)
    ensures
        ({
            let v = fresh(settings, now);
            &&& v == v.in_state(UiState::Ready)
            &&& v.settings == settings
            &&& !v.worker && !v.fatal && v.transcript.len() == 0 && v.transcript_set is None
            &&& v.win is None && v.settings_win is None && v.last_pos is None && v.pos_save_due
                is None && v.bounce_at is None
            &&& v.draft_provider == chosen(provider_table(), settings.provider)
            &&& v.draft_language == chosen(language_table(), settings.language)
            &&& v.draft_model == settings.model && v.draft_ontop == settings.always_on_top
            &&& v.last_slow == now && v.win_h == 420
        }),
{
}

/// Quitting without a window lets the worker go all the same.
pub proof fn law_quitting_needs_no_window(v: AppView, now: u64)
    requires
        v.win is None,
    ensures
        message_effects(v, Message::Quit, now) == if v.worker {
            seq![
                EffectView::Send(Cmd::Pause),
                EffectView::Send(Cmd::Stop),
                EffectView::DropWorker,
            ]
        } else {
            Seq::empty()
        },
{
}

/// The widget is seen as it is: what it says and what the user typed, whole.
pub proof fn law_the_widget_is_seen_whole(app: WayDictationApp)
    ensures
        app@.win == app.win,
        app@.settings == app.settings@,
        app@.worker == app.worker,
        app@.state == app.state,
        app@.status == app.status@,
        app@.hint == app.hint@,
        app@.transcript == app.transcript@,
        app@.transcript_error == app.transcript_error,
        app@.transcript_set == app.transcript_set,
        app@.fatal == app.fatal,
        app@.settings_win == app.settings_win,
        app@.key_groq == app.key_groq@,
        app@.key_openrouter == app.key_openrouter@,
        app@.reveal_groq == app.reveal_groq,
        app@.reveal_openrouter == app.reveal_openrouter,
        app@.draft_provider == app.draft_provider@,
        app@.draft_language == app.draft_language@,
        app@.draft_model == app.draft_model@,
        app@.draft_ontop == app.draft_ontop,
        app@.last_pos == app.last_pos,
        app@.pos_save_due == app.pos_save_due,
        app@.win_h == app.win_h,
        app@.last_slow == app.last_slow,
        app@.bounce_at == app.bounce_at,
{
}

/// Effects are seen as they are, in order.
pub proof fn law_effects_are_seen_whole(
    effects: Seq<Effect>,
    i: int,
    var: KeyVar,
    value: String,
    win: u64,
    height: u64,
    on_top: bool,
    cmd: Cmd,
)
    ensures
        effect_views(effects).len() == effects.len(),
        0 <= i < effects.len() ==> effect_views(effects)[i] == effects[i]@,
        Effect::SetVar(var, value)@ == EffectView::SetVar(var, value@),
        Effect::RemoveVar(var)@ == EffectView::RemoveVar(var),
        Effect::Send(cmd)@ == EffectView::Send(cmd),
        (Effect::Resize { win, height })@ == (EffectView::Resize { win, height }),
        (Effect::SetLevel { win, on_top })@ == (EffectView::SetLevel { win, on_top }),
        Effect::Drag(win)@ == EffectView::Drag(win),
        Effect::Close(win)@ == EffectView::Close(win),
        Effect::Focus(win)@ == EffectView::Focus(win),
        Effect::AskPosition(win)@ == EffectView::AskPosition(win),
        Effect::SaveSettings@ == EffectView::SaveSettings,
        Effect::SaveKeys@ == EffectView::SaveKeys,
        Effect::OpenSettings@ == EffectView::OpenSettings,
        Effect::DropWorker@ == EffectView::DropWorker,
        Effect::Start@ == EffectView::Start,
{
}

} // verus!
