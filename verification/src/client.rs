//! Transcription services: which one is asked, what it is asked, and what its
//! answer means.
//!
//! - [`GroqTranscriber`]: Groq's hosted Whisper, by a multipart upload.
//! - [`OpenRouterSttTranscriber`]: speech models on OpenRouter, by a JSON upload.
//! - [`GeminiTranscriber`]: a general model on OpenRouter that is fed the audio.
//! - [`GeminiLiveTranscriber`]: the Gemini Live API.

use vstd::prelude::*;
use vstd::slice::slice_to_vec;
use vstd::string::*;
use vstd::utf8::encode_utf8;

use crate::encoding::{base64_fits, base64_of, base64_text};
use crate::json::{
    chars_of_option, fields_of, is_tenths, json_element, json_list, json_member, json_object,
    json_parsed, json_string, json_tree, law_objects_hold_their_members, object_of, owned_tree,
    pair_object, parse_json, trees_of, JsonTree,
};
use crate::injector::Invocation;
use crate::live::GeminiLiveTranscriber;
use crate::text::{
    can_truncate, cuttable, debug_quoted, debug_text, decimal, decimal_digits, is_blank, is_white,
    is_word, join, joined, law_a_cut_text_keeps_its_beginning, law_a_needle_is_found_anywhere,
    law_joined_words_are_split_again, law_joined_words_hold_single_spaces,
    law_trimming_finds_what_is_between, law_trimming_takes_only_white_ends,
    law_words_lose_no_character, lossy, lossy_text, occurs, owned, same, split_words, trim, trimmed,
    truncate, truncated, views, words,
};
use crate::wav::{
    byte_views, can_split, chunks_of, lasts_longer, longer_than, split_chunks, splittable, WavError,
};

verus! {

pub const DEFAULT_GROQ_MODEL: &'static str = "whisper-large-v3-turbo";

pub const DEFAULT_GEMINI_MODEL: &'static str = "google/gemini-3.1-flash-lite";

pub const DEFAULT_GEMINI_LIVE_MODEL: &'static str = "gemini-3.5-transcribe-live";

pub const DEFAULT_GPT_TRANSCRIBE_MODEL: &'static str = "openai/gpt-transcribe";

pub const GROQ_KEY_URL: &'static str = "https://console.groq.com/keys";

pub const OPENROUTER_KEY_URL: &'static str = "https://openrouter.ai/keys";

pub const GEMINI_KEY_URL: &'static str = "https://aistudio.google.com/apikey";

const GROQ_BASE: &'static str = "https://api.groq.com/openai/v1";

const OPENROUTER_BASE: &'static str = "https://openrouter.ai/api/v1";

// ---------------------------------------------------------------------------
// Keys and providers
// ---------------------------------------------------------------------------

/// An environment variable that holds an API key.
#[derive(Debug, Clone, Copy, PartialEq, Eq, Structural)]
pub enum KeyVar {
    Groq,
    OpenRouter,
    Gemini,
}

impl KeyVar {
    /// The name of the variable.
    pub open spec fn spelled(self) -> Seq<char> {
        match self {
            KeyVar::Groq => "GROQ_API_KEY"@,
            KeyVar::OpenRouter => "OPENROUTER_API_KEY"@,
            KeyVar::Gemini => "GEMINI_API_KEY"@,
        }
    }

    /// The name of the variable.
    pub fn name(self) -> (name: &'static str)
        ensures
            name@ == self.spelled(),
    {
        match self {
            KeyVar::Groq => "GROQ_API_KEY",
            KeyVar::OpenRouter => "OPENROUTER_API_KEY",
            KeyVar::Gemini => "GEMINI_API_KEY",
        }
    }
}

/// The values of the key variables.
#[derive(Debug, Clone)]
pub struct ApiKeys {
    pub groq: Option<String>,
    pub openrouter: Option<String>,
    pub gemini: Option<String>,
}

/// Whether a key is present: more than white space.
pub open spec fn is_set(key: Option<String>) -> bool {
    key matches Some(k) && trimmed(k@).len() > 0
}

fn key_is_set(key: &Option<String>) -> (set: bool)
    ensures
        set == is_set(*key),
{
    match key {
        Some(k) => !trim(k.as_str()).as_str().is_empty(),
        None => false,
    }
}

impl ApiKeys {
    /// The value of a variable.
    pub open spec fn value(self, var: KeyVar) -> Option<String> {
        match var {
            KeyVar::Groq => self.groq,
            KeyVar::OpenRouter => self.openrouter,
            KeyVar::Gemini => self.gemini,
        }
    }

    /// Whether a user without one key has another that they can switch to.
    pub open spec fn another_set(self, var: KeyVar) -> bool {
        match var {
            KeyVar::Groq => is_set(self.openrouter),
            KeyVar::OpenRouter => is_set(self.groq),
            KeyVar::Gemini => is_set(self.groq) || is_set(self.openrouter),
        }
    }

    fn has_another(&self, var: KeyVar) -> (present: bool)
        ensures
            present == self.another_set(var),
    {
        match var {
            KeyVar::Groq => key_is_set(&self.openrouter),
            KeyVar::OpenRouter => key_is_set(&self.groq),
            KeyVar::Gemini => key_is_set(&self.groq) || key_is_set(&self.openrouter),
        }
    }

    fn get(&self, var: KeyVar) -> (value: &Option<String>)
        ensures
            *value == self.value(var),
    {
        match var {
            KeyVar::Groq => &self.groq,
            KeyVar::OpenRouter => &self.openrouter,
            KeyVar::Gemini => &self.gemini,
        }
    }
}

/// Whether each API key is present.
#[derive(Debug, Clone, Copy, PartialEq, Eq, Structural)]
pub struct KeyStatus {
    pub groq: bool,
    pub openrouter: bool,
    pub gemini: bool,
}

/// Whether each API key is present.
pub fn key_status(keys: &ApiKeys) -> (status: KeyStatus)
    ensures
        status.groq == is_set(keys.groq),
        status.openrouter == is_set(keys.openrouter),
        status.gemini == is_set(keys.gemini),
{
    KeyStatus {
        groq: key_is_set(&keys.groq),
        openrouter: key_is_set(&keys.openrouter),
        gemini: key_is_set(&keys.gemini),
    }
}

/// A transcription service.
#[derive(Debug, Clone, Copy, PartialEq, Eq, Structural)]
pub enum Provider {
    Groq,
    Gemini,
    GeminiLive,
    GptTranscribe,
}

impl Provider {
    /// The service that a name stands for.
    pub open spec fn named(s: Seq<char>) -> Option<Provider> {
        if s == "groq"@ {
            Some(Provider::Groq)
        } else if s == "gemini"@ || s == "openrouter"@ {
            Some(Provider::Gemini)
        } else if s == "gemini-live"@ || s == "gemini-live-transcribe"@ || s == "glive"@ {
            Some(Provider::GeminiLive)
        } else if s == "gpt-transcribe"@ || s == "gpttranscribe"@ || s == "gpt"@ {
            Some(Provider::GptTranscribe)
        } else {
            None
        }
    }

    /// The variable that holds the key of the service.
    pub open spec fn key_var(self) -> KeyVar {
        match self {
            Provider::Groq => KeyVar::Groq,
            Provider::Gemini => KeyVar::OpenRouter,
            Provider::GeminiLive => KeyVar::Gemini,
            Provider::GptTranscribe => KeyVar::OpenRouter,
        }
    }

    /// The model that is asked where none is chosen.
    pub open spec fn default_model(self) -> Seq<char> {
        match self {
            Provider::Groq => DEFAULT_GROQ_MODEL@,
            Provider::Gemini => DEFAULT_GEMINI_MODEL@,
            Provider::GeminiLive => DEFAULT_GEMINI_LIVE_MODEL@,
            Provider::GptTranscribe => DEFAULT_GPT_TRANSCRIBE_MODEL@,
        }
    }

    /// The service that a name stands for.
    pub fn parse(s: &str) -> (provider: Option<Provider>)
        ensures
            provider == Provider::named(s@),
    {
        if same(s, "groq") {
            Some(Provider::Groq)
        } else if same(s, "gemini") || same(s, "openrouter") {
            Some(Provider::Gemini)
        } else if same(s, "gemini-live") || same(s, "gemini-live-transcribe") || same(s, "glive") {
            Some(Provider::GeminiLive)
        } else if same(s, "gpt-transcribe") || same(s, "gpttranscribe") || same(s, "gpt") {
            Some(Provider::GptTranscribe)
        } else {
            None
        }
    }

    fn key(self) -> (var: KeyVar)
        ensures
            var == self.key_var(),
    {
        match self {
            Provider::Groq => KeyVar::Groq,
            Provider::Gemini => KeyVar::OpenRouter,
            Provider::GeminiLive => KeyVar::Gemini,
            Provider::GptTranscribe => KeyVar::OpenRouter,
        }
    }
}

/// Which key variable a provider needs (`None` for an unknown provider).
pub fn provider_key_var(provider: &str) -> (var: Option<&'static str>)
    ensures
        match Provider::named(provider@) {
            Some(p) => var matches Some(v) && v@ == p.key_var().spelled(),
            None => var is None,
        },
{
    match Provider::parse(provider) {
        Some(p) => Some(p.key().name()),
        None => None,
    }
}

/// What a user without a key is told: where another key is present, to switch
/// the provider; where none is, where to get one.
pub open spec fn missing_key_text(needed: Seq<char>, other_present: bool) -> Seq<char> {
    if !other_present {
        "No API keys found. You need a Groq or OpenRouter key to transcribe. Get a free Groq key at "@
            + GROQ_KEY_URL@ + " (free tier, no card required) or an OpenRouter key at "@
            + OPENROUTER_KEY_URL@
            + ", then open Settings (gear icon) in the app, paste it into the matching field, and press play again."@
    } else if needed == KeyVar::Groq.spelled() {
        "No Groq API key found ("@ + needed
            + " is not set). You already have an OpenRouter key: open Settings (gear icon) and switch Provider to \"GPT Transcribe (paid)\" or \"Gemini (OpenRouter)\", or add a free Groq key at "@
            + GROQ_KEY_URL@ + "."@
    } else if needed == KeyVar::OpenRouter.spelled() {
        "No OpenRouter API key found ("@ + needed
            + " is not set). You already have a Groq key: open Settings (gear icon) and switch Provider to \"Groq Whisper (free)\", or add an OpenRouter key at "@
            + OPENROUTER_KEY_URL@ + "."@
    } else {
        "No Gemini API key found ("@ + needed
            + " is not set). Switch Provider to \"GPT Transcribe (paid)\", \"Groq Whisper (free)\", or \"Gemini (OpenRouter)\" with one of your existing keys, or add a Gemini key at "@
            + GEMINI_KEY_URL@ + "."@
    }
}

/// Whether a text is the name of a key variable.
pub open spec fn is_key_var(name: Seq<char>) -> bool {
    ||| name == KeyVar::Groq.spelled()
    ||| name == KeyVar::OpenRouter.spelled()
    ||| name == KeyVar::Gemini.spelled()
}

/// What a user without a key is told.
pub fn missing_key_message(needed: &str, other_present: bool) -> (message: String)
    requires
        other_present ==> is_key_var(needed@),
    ensures
        message@ == missing_key_text(needed@, other_present),
{
    if !other_present {
        "No API keys found. You need a Groq or OpenRouter key to transcribe. Get a free Groq key at ".to_string().concat(
        GROQ_KEY_URL).concat(" (free tier, no card required) or an OpenRouter key at ").concat(
            OPENROUTER_KEY_URL,
        ).concat(
            ", then open Settings (gear icon) in the app, paste it into the matching field, and press play again.",
        )
    } else if same(needed, "GROQ_API_KEY") {
        "No Groq API key found (".to_string().concat(needed).concat(
            " is not set). You already have an OpenRouter key: open Settings (gear icon) and switch Provider to \"GPT Transcribe (paid)\" or \"Gemini (OpenRouter)\", or add a free Groq key at ",
        ).concat(GROQ_KEY_URL).concat(".")
    } else if same(needed, "OPENROUTER_API_KEY") {
        "No OpenRouter API key found (".to_string().concat(needed).concat(
            " is not set). You already have a Groq key: open Settings (gear icon) and switch Provider to \"Groq Whisper (free)\", or add an OpenRouter key at ",
        ).concat(OPENROUTER_KEY_URL).concat(".")
    } else {
        "No Gemini API key found (".to_string().concat(needed).concat(
            " is not set). Switch Provider to \"GPT Transcribe (paid)\", \"Groq Whisper (free)\", or \"Gemini (OpenRouter)\" with one of your existing keys, or add a Gemini key at ",
        ).concat(GEMINI_KEY_URL).concat(".")
    }
}

/// The value of a key, or what a user without it is told.
pub fn require_key(var: KeyVar, keys: &ApiKeys) -> (result: Result<String, String>)
    ensures
        match result {
            Ok(k) => is_set(keys.value(var)) && k@ == keys.value(var)->0@,
            Err(m) => !is_set(keys.value(var)) && m@ == missing_key_text(
                var.spelled(),
                keys.another_set(var),
            ),
        },
{
    if let Some(k) = keys.get(var) {
        if !trim(k.as_str()).as_str().is_empty() {
            return Ok(k.clone());
        }
    }
    Err(missing_key_message(var.name(), keys.has_another(var)))
}

// ---------------------------------------------------------------------------
// Building a transcriber
// ---------------------------------------------------------------------------

/// Groq's hosted Whisper.
#[derive(Debug)]
pub struct GroqTranscriber {
    pub api_key: String,
    pub model: String,
}

/// A speech model on OpenRouter.
#[derive(Debug)]
pub struct OpenRouterSttTranscriber {
    pub api_key: String,
    pub model: String,
    pub use_mp3: bool,
    pub max_chunk_ms: u32,
}

/// A general model on OpenRouter that is fed the audio.
#[derive(Debug)]
pub struct GeminiTranscriber {
    pub api_key: String,
    pub model: String,
    pub use_mp3: bool,
    pub max_chunk_ms: u32,
}

impl GroqTranscriber {
    pub fn new(api_key: &str, model: &str) -> (t: Self)
        ensures
            t.api_key@ == api_key@,
            t.model@ == model@,
    {
        GroqTranscriber { api_key: api_key.to_string(), model: model.to_string() }
    }
}

impl OpenRouterSttTranscriber {
    pub fn new(api_key: &str, model: &str) -> (t: Self)
        ensures
            t.api_key@ == api_key@,
            t.model@ == model@,
            t.use_mp3,
            t.max_chunk_ms == 20000,
    {
        OpenRouterSttTranscriber {
            api_key: api_key.to_string(),
            model: model.to_string(),
            use_mp3: true,
            max_chunk_ms: 20000,
        }
    }
}

impl GeminiTranscriber {
    pub fn new(api_key: &str, model: &str) -> (t: Self)
        ensures
            t.api_key@ == api_key@,
            t.model@ == model@,
            t.use_mp3,
            t.max_chunk_ms == 20000,
    {
        GeminiTranscriber {
            api_key: api_key.to_string(),
            model: model.to_string(),
            use_mp3: true,
            max_chunk_ms: 20000,
        }
    }
}

/// One of the services, ready to be asked.
#[derive(Debug)]
pub enum Transcriber {
    Groq(GroqTranscriber),
    Gemini(GeminiTranscriber),
    GeminiLive(GeminiLiveTranscriber),
    GptTranscribe(OpenRouterSttTranscriber),
}

/// Why there is no transcriber.
#[derive(Debug)]
pub enum BuildError {
    /// The key is not set; what the user is told.
    MissingKey(String),
    /// No service has this name.
    UnknownProvider(String),
}

impl BuildError {
    /// What the user is told.
    pub open spec fn text(self) -> Seq<char> {
        match self {
            BuildError::MissingKey(m) => m@,
            BuildError::UnknownProvider(name) => "Unknown provider: "@ + debug_text(name@)
                + " (expected 'groq', 'gemini', 'gemini-live', or 'gpt-transcribe')"@,
        }
    }

    /// What the user is told.
    pub fn message(&self) -> (message: String)
        ensures
            message@ == self.text(),
    {
        match self {
            BuildError::MissingKey(m) => m.clone(),
            BuildError::UnknownProvider(name) => "Unknown provider: ".to_string().concat(
                debug_quoted(name.as_str()).as_str(),
            ).concat(" (expected 'groq', 'gemini', 'gemini-live', or 'gpt-transcribe')"),
        }
    }
}

impl Transcriber {
    /// The service that is asked.
    pub open spec fn provider(self) -> Provider {
        match self {
            Transcriber::Groq(_) => Provider::Groq,
            Transcriber::Gemini(_) => Provider::Gemini,
            Transcriber::GeminiLive(_) => Provider::GeminiLive,
            Transcriber::GptTranscribe(_) => Provider::GptTranscribe,
        }
    }

    /// The key that is sent.
    pub open spec fn key(self) -> Seq<char> {
        match self {
            Transcriber::Groq(t) => t.api_key@,
            Transcriber::Gemini(t) => t.api_key@,
            Transcriber::GeminiLive(t) => t.api_key@,
            Transcriber::GptTranscribe(t) => t.api_key@,
        }
    }

    /// The model that is asked.
    pub open spec fn chosen_model(self) -> Seq<char> {
        match self {
            Transcriber::Groq(t) => t.model@,
            Transcriber::Gemini(t) => t.model@,
            Transcriber::GeminiLive(t) => t.model@,
            Transcriber::GptTranscribe(t) => t.model@,
        }
    }

    /// Whether uploads are compressed and cut as they are by default.
    pub open spec fn has_default_limits(self) -> bool {
        match self {
            Transcriber::Groq(_) => true,
            Transcriber::Gemini(t) => t.use_mp3 && t.max_chunk_ms == 20000,
            Transcriber::GeminiLive(t) => t.max_chunk_ms == 100,
            Transcriber::GptTranscribe(t) => t.use_mp3 && t.max_chunk_ms == 20000,
        }
    }
}

/// What the user is told where there is no transcriber for a provider.
pub open spec fn refusal(provider: Seq<char>, keys: ApiKeys) -> Option<Seq<char>> {
    match Provider::named(provider) {
        None => Some(
            "Unknown provider: "@ + debug_text(provider)
                + " (expected 'groq', 'gemini', 'gemini-live', or 'gpt-transcribe')"@,
        ),
        Some(p) => if is_set(keys.value(p.key_var())) {
            None
        } else {
            Some(missing_key_text(p.key_var().spelled(), keys.another_set(p.key_var())))
        },
    }
}

/// The transcriber of a provider. `model` overrides the default.
pub fn build_transcriber(provider: &str, model: Option<&str>, keys: &ApiKeys) -> (result: Result<
    Transcriber,
    BuildError,
>)
    ensures
        match result {
            Ok(t) => {
                &&& refusal(provider@, *keys) is None
                &&& Provider::named(provider@) == Some(t.provider())
                &&& t.key() == keys.value(t.provider().key_var())->0@
                &&& t.chosen_model() == match model {
                    Some(m) => m@,
                    None => t.provider().default_model(),
                }
                &&& t.has_default_limits()
            },
            Err(e) => {
                &&& refusal(provider@, *keys) == Some(e.text())
                &&& e is UnknownProvider <==> Provider::named(provider@) is None
            },
        },
{
    let chosen = match Provider::parse(provider) {
        Some(p) => p,
        None => {
            return Err(BuildError::UnknownProvider(provider.to_string()));
        },
    };
    let key = match require_key(chosen.key(), keys) {
        Ok(k) => k,
        Err(m) => {
            return Err(BuildError::MissingKey(m));
        },
    };
    let default: &'static str = match chosen {
        Provider::Groq => DEFAULT_GROQ_MODEL,
        Provider::Gemini => DEFAULT_GEMINI_MODEL,
        Provider::GeminiLive => DEFAULT_GEMINI_LIVE_MODEL,
        Provider::GptTranscribe => DEFAULT_GPT_TRANSCRIBE_MODEL,
    };
    let model: &str = match model {
        Some(m) => m,
        None => default,
    };
    Ok(
        match chosen {
            Provider::Groq => Transcriber::Groq(GroqTranscriber::new(key.as_str(), model)),
            Provider::Gemini => Transcriber::Gemini(GeminiTranscriber::new(key.as_str(), model)),
            Provider::GeminiLive => Transcriber::GeminiLive(
                GeminiLiveTranscriber::new(key.as_str(), model),
            ),
            Provider::GptTranscribe => Transcriber::GptTranscribe(
                OpenRouterSttTranscriber::new(key.as_str(), model),
            ),
        },
    )
}

// ---------------------------------------------------------------------------
// Requests
// ---------------------------------------------------------------------------

/// Asks a general model for the verbatim transcript and nothing else, and for
/// nothing at all where there is no intelligible speech.
pub const TRANSCRIBE_SYSTEM: &'static str =
    "You are a speech-to-text engine. Transcribe ONLY the actual words spoken in the audio, verbatim, with no preamble, no commentary, and no markdown. If the audio is silent, contains no intelligible speech, or is just noise, return an empty string. Never invent, repeat, or add words that were not spoken. Do not describe the audio; do not add filler.";

/// Keeps a speech model from dropping words around pauses.
pub const STT_OMISSION_PROMPT: &'static str =
    "Transcribe every spoken word exactly as spoken. Do NOT omit, summarize, clean up, or truncate anything. Output all words, including any that follow pauses or occur at the very start or end of the audio. Do not combine or drop sentences.";

/// An upload as a multipart form: one file and some text fields.
#[derive(Debug)]
pub struct FormRequest {
    pub url: String,
    pub bearer: String,
    /// The name of the form field that holds the file.
    pub file_field: String,
    pub file_name: String,
    pub file_mime: String,
    pub file: Vec<u8>,
    pub fields: Vec<(String, String)>,
}

/// An upload as JSON.
#[derive(Debug)]
pub struct JsonRequest {
    pub url: String,
    pub bearer: String,
    pub body: serde_json::Value,
}

/// The names and values of form fields.
pub open spec fn pair_views(fields: Seq<(String, String)>) -> Seq<(Seq<char>, Seq<char>)> {
    Seq::new(fields.len(), |i: int| (fields[i].0@, fields[i].1@))
}

/// The text fields of an upload to Groq.
pub open spec fn groq_fields(model: Seq<char>, language: Option<Seq<char>>) -> Seq<
    (Seq<char>, Seq<char>),
> {
    match language {
        Some(l) => seq![("model"@, model), ("language"@, l)],
        None => seq![("model"@, model)],
    }
}

/// Audio within a JSON upload.
pub open spec fn audio_tree(audio: Seq<u8>, format: Seq<char>) -> JsonTree {
    JsonTree::Object(
        object_of(
            seq![("data"@, JsonTree::Text(base64_of(audio))), ("format"@, JsonTree::Text(format))],
        ),
    )
}

/// What a speech model on OpenRouter is asked.
pub open spec fn stt_tree(
    model: Seq<char>,
    audio: Seq<u8>,
    format: Seq<char>,
    language: Option<Seq<char>>,
) -> JsonTree {
    let always = seq![
        ("model"@, JsonTree::Text(model)),
        ("input_audio"@, audio_tree(audio, format)),
        ("prompt"@, JsonTree::Text(STT_OMISSION_PROMPT@)),
        ("temperature"@, JsonTree::Number("0.2"@)),
    ];
    let fields = match language {
        Some(l) => always.push(("language"@, JsonTree::Text(l))),
        None => always,
    };
    JsonTree::Object(object_of(fields))
}

/// What a general model on OpenRouter is asked.
pub open spec fn chat_tree(model: Seq<char>, audio: Seq<u8>, format: Seq<char>) -> JsonTree {
    let instruction = JsonTree::Object(
        object_of(
            seq![("type"@, JsonTree::Text("text"@)), ("text"@, JsonTree::Text(TRANSCRIBE_SYSTEM@))],
        ),
    );
    let speech = JsonTree::Object(
        object_of(
            seq![
                ("type"@, JsonTree::Text("input_audio"@)),
                ("input_audio"@, audio_tree(audio, format)),
            ],
        ),
    );
    let message = JsonTree::Object(
        object_of(
            seq![
                ("role"@, JsonTree::Text("user"@)),
                ("content"@, JsonTree::List(seq![instruction, speech])),
            ],
        ),
    );
    JsonTree::Object(
        object_of(
            seq![("model"@, JsonTree::Text(model)), ("messages"@, JsonTree::List(seq![message]))],
        ),
    )
}

/// A number with one decimal place, as JSON.
fn tenths(text: &str) -> (value: serde_json::Value)
    requires
        is_tenths(text@),
    ensures
        json_tree(value) == JsonTree::Number(text@),
{
    match parse_json(text) {
        Some(value) => value,
        None => unreached(),
    }
}

fn audio_value(audio: &[u8], format: &str) -> (value: serde_json::Value)
    requires
        base64_fits(audio@.len()),
    ensures
        json_tree(value) == audio_tree(audio@, format@),
{
    pair_object(
        "data",
        json_string(base64_text(audio).as_str()),
        "format",
        json_string(format),
    )
}

impl GroqTranscriber {
    /// The upload that asks for the words of some WAV audio.
    pub fn request(&self, wav: &[u8], language: Option<&str>) -> (request: FormRequest)
        ensures
            request.url@ == "https://api.groq.com/openai/v1"@ + "/audio/transcriptions"@,
            request.bearer@ == self.api_key@,
            request.file_field@ == "file"@,
            request.file_name@ == "phrase.wav"@,
            request.file_mime@ == "audio/wav"@,
            request.file@ == wav@,
            pair_views(request.fields@) == groq_fields(self.model@, chars_of_option(language)),
    {
        let mut fields: Vec<(String, String)> = Vec::new();
        fields.push(("model".to_string(), self.model.clone()));
        if let Some(l) = language {
            fields.push(("language".to_string(), l.to_string()));
        }
        assert(pair_views(fields@) =~= groq_fields(self.model@, chars_of_option(language)));
        FormRequest {
            url: GROQ_BASE.to_string().concat("/audio/transcriptions"),
            bearer: self.api_key.clone(),
            file_field: "file".to_string(),
            file_name: "phrase.wav".to_string(),
            file_mime: "audio/wav".to_string(),
            file: slice_to_vec(wav),
            fields,
        }
    }
}

impl OpenRouterSttTranscriber {
    /// The upload that asks for the words of some audio.
    pub fn request(&self, audio: &[u8], format: &str, language: Option<&str>) -> (request:
        JsonRequest)
        requires
            base64_fits(audio@.len()),
        ensures
            request.url@ == "https://openrouter.ai/api/v1"@ + "/audio/transcriptions"@,
            request.bearer@ == self.api_key@,
            json_tree(request.body) == stt_tree(
                self.model@,
                audio@,
                format@,
                chars_of_option(language),
            ),
    {
        proof {
            reveal_strlit("0.2");
        }
        let mut fields: Vec<(String, serde_json::Value)> = Vec::new();
        fields.push(("model".to_string(), json_string(self.model.as_str())));
        fields.push(("input_audio".to_string(), audio_value(audio, format)));
        fields.push(("prompt".to_string(), json_string(STT_OMISSION_PROMPT)));
        fields.push(("temperature".to_string(), tenths("0.2")));
        let ghost always = seq![
            ("model"@, JsonTree::Text(self.model@)),
            ("input_audio"@, audio_tree(audio@, format@)),
            ("prompt"@, JsonTree::Text(STT_OMISSION_PROMPT@)),
            ("temperature"@, JsonTree::Number("0.2"@)),
        ];
        assert(fields_of(fields@) =~= always);
        if let Some(l) = language {
            fields.push(("language".to_string(), json_string(l)));
            assert(fields_of(fields@) =~= always.push(("language"@, JsonTree::Text(l@))));
        }
        JsonRequest {
            url: OPENROUTER_BASE.to_string().concat("/audio/transcriptions"),
            bearer: self.api_key.clone(),
            body: json_object(fields),
        }
    }
}

impl GeminiTranscriber {
    /// The upload that asks for the words of some audio.
    pub fn request(&self, audio: &[u8], format: &str) -> (request: JsonRequest)
        requires
            base64_fits(audio@.len()),
        ensures
            request.url@ == "https://openrouter.ai/api/v1"@ + "/chat/completions"@,
            request.bearer@ == self.api_key@,
            json_tree(request.body) == chat_tree(self.model@, audio@, format@),
    {
        let instruction = pair_object(
            "type",
            json_string("text"),
            "text",
            json_string(TRANSCRIBE_SYSTEM),
        );
        let speech = pair_object(
            "type",
            json_string("input_audio"),
            "input_audio",
            audio_value(audio, format),
        );
        let ghost parts = seq![json_tree(instruction), json_tree(speech)];
        let mut content: Vec<serde_json::Value> = Vec::new();
        content.push(instruction);
        content.push(speech);
        assert(trees_of(content@) =~= parts);
        let message = pair_object("role", json_string("user"), "content", json_list(content));
        let ghost only = seq![json_tree(message)];
        let mut messages: Vec<serde_json::Value> = Vec::new();
        messages.push(message);
        assert(trees_of(messages@) =~= only);
        JsonRequest {
            url: OPENROUTER_BASE.to_string().concat("/chat/completions"),
            bearer: self.api_key.clone(),
            body: pair_object(
                "model",
                json_string(self.model.as_str()),
                "messages",
                json_list(messages),
            ),
        }
    }
}

// ---------------------------------------------------------------------------
// Replies
// ---------------------------------------------------------------------------

/// A service that answers an upload.
#[derive(Debug, Clone, Copy, PartialEq, Eq, Structural)]
pub enum Service {
    Groq,
    OpenRouterStt,
    OpenRouterChat,
}

/// Why an upload gave no transcript.
#[derive(Debug)]
pub enum ReplyError {
    /// The request could not be sent.
    RequestFailed,
    /// The reply could not be received.
    Unreadable,
    /// The service refused.
    Http { status: u16, body: String },
    /// The reply is no JSON.
    NotJson,
    /// The reply holds no transcript.
    Unexpected { body: String },
}

/// What is written for an HTTP status.
pub uninterp spec fn status_text(code: u16) -> Seq<char>;

/// `to_string` of the `StatusCode` that reqwest takes from http: the code and
/// its reason, which depend on the code alone. There is no `StatusCode` below
/// 100 or above 999.
#[verifier::external_body]
fn status_line(code: u16) -> (text: String)
    requires
        100 <= code <= 999,
    ensures
        text@ == status_text(code),
{
    reqwest::StatusCode::from_u16(code).unwrap().to_string()
}

impl Service {
    /// The name of the service in messages.
    pub open spec fn label(self) -> Seq<char> {
        match self {
            Service::Groq => "Groq"@,
            Service::OpenRouterStt => "OpenRouter STT"@,
            Service::OpenRouterChat => "OpenRouter chat"@,
        }
    }

    /// Where the transcript stands in a reply.
    pub open spec fn transcript(self, reply: JsonTree) -> Option<Seq<char>> {
        match self {
            Service::OpenRouterChat => match reply.member("choices"@) {
                Some(choices) => match choices.element(0) {
                    Some(first) => match first.member("message"@) {
                        Some(message) => match message.member("content"@) {
                            Some(content) => content.as_text(),
                            None => None,
                        },
                        None => None,
                    },
                    None => None,
                },
                None => None,
            },
            _ => match reply.member("text"@) {
                Some(text) => text.as_text(),
                None => None,
            },
        }
    }

    fn name(self) -> (name: &'static str)
        ensures
            name@ == self.label(),
    {
        match self {
            Service::Groq => "Groq",
            Service::OpenRouterStt => "OpenRouter STT",
            Service::OpenRouterChat => "OpenRouter chat",
        }
    }

    fn find_transcript<'a>(self, reply: &'a serde_json::Value) -> (text: Option<&'a str>)
        ensures
            chars_of_option(text) == self.transcript(json_tree(*reply)),
    {
        match self {
            Service::OpenRouterChat => {
                let choices = json_member(reply, "choices")?;
                let first = json_element(choices, 0)?;
                let message = json_member(first, "message")?;
                json_member(message, "content")?.as_str()
            },
            _ => json_member(reply, "text")?.as_str(),
        }
    }
}

/// Whether an HTTP status means success.
pub open spec fn is_success(status: u16) -> bool {
    200 <= status < 300
}

impl ReplyError {
    /// Whether the user can be told: the status is one that HTTP knows, and a
    /// character ends where the reply is cut.
    pub open spec fn printable(self) -> bool {
        match self {
            ReplyError::Http { status, body } => 100 <= status <= 999 && cuttable(body@, 400),
            ReplyError::Unexpected { body } => cuttable(body@, 400),
            _ => true,
        }
    }

    /// What the user is told.
    pub open spec fn text(self, service: Service) -> Seq<char> {
        match self {
            ReplyError::RequestFailed => service.label() + " request failed"@,
            ReplyError::Unreadable => "reading "@ + service.label() + " response"@,
            ReplyError::Http { status, body } => service.label() + " HTTP "@ + status_text(status)
                + ": "@ + truncated(body@, 400),
            ReplyError::NotJson => "parsing "@ + service.label() + " response"@,
            ReplyError::Unexpected { body } => "unexpected "@ + service.label() + " response: "@
                + truncated(body@, 400),
        }
    }

    /// Whether the user can be told.
    pub fn can_print(&self) -> (possible: bool)
        ensures
            possible == self.printable(),
    {
        match self {
            ReplyError::Http { status, body } => 100 <= *status && *status <= 999 && can_truncate(
                body.as_str(),
                400,
            ),
            ReplyError::Unexpected { body } => can_truncate(body.as_str(), 400),
            _ => true,
        }
    }

    /// What the user is told.
    pub fn message(&self, service: Service) -> (message: String)
        requires
            self.printable(),
        ensures
            message@ == self.text(service),
    {
        let label = service.name();
        match self {
            ReplyError::RequestFailed => label.to_string().concat(" request failed"),
            ReplyError::Unreadable => "reading ".to_string().concat(label).concat(" response"),
            ReplyError::Http { status, body } => label.to_string().concat(" HTTP ").concat(
                status_line(*status).as_str(),
            ).concat(": ").concat(truncate(body.as_str(), 400)),
            ReplyError::NotJson => "parsing ".to_string().concat(label).concat(" response"),
            ReplyError::Unexpected { body } => "unexpected ".to_string().concat(label).concat(
                " response: ",
            ).concat(truncate(body.as_str(), 400)),
        }
    }
}

/// What a reply means, given what it holds as JSON.
pub open spec fn reply_meaning(
    service: Service,
    status: u16,
    body: Seq<char>,
    parsed: Option<JsonTree>,
    result: Result<String, ReplyError>,
) -> bool {
    if !is_success(status) {
        result matches Err(ReplyError::Http { status: s, body: b }) && s == status && b@ == body
    } else {
        match parsed {
            None => result == Err::<String, ReplyError>(ReplyError::NotJson),
            Some(tree) => match service.transcript(tree) {
                Some(text) => result matches Ok(t) && t@ == trimmed(text),
                None => result matches Err(ReplyError::Unexpected { body: b }) && b@ == body,
            },
        }
    }
}

/// The transcript in a reply whose body was read as JSON (`None` where it is
/// none), or why there is none.
pub fn read_reply(
    service: Service,
    status: u16,
    body: &str,
    parsed: Option<serde_json::Value>,
) -> (result: Result<String, ReplyError>)
    ensures
        reply_meaning(service, status, body@, owned_tree(parsed), result),
{
    if !(200 <= status && status < 300) {
        return Err(ReplyError::Http { status, body: body.to_string() });
    }
    match parsed {
        None => Err(ReplyError::NotJson),
        Some(value) => match service.find_transcript(&value) {
            Some(text) => Ok(trim(text)),
            None => Err(ReplyError::Unexpected { body: body.to_string() }),
        },
    }
}

/// The transcript in a reply, or why there is none.
pub fn reply(service: Service, status: u16, body: &str) -> (result: Result<String, ReplyError>)
    ensures
        reply_meaning(service, status, body@, json_parsed(body@), result),
{
    read_reply(service, status, body, parse_json(body))
}

// ---------------------------------------------------------------------------
// Stitching
// ---------------------------------------------------------------------------

/// Whether the last `k` words of one list are the first `k` words of another.
pub open spec fn is_overlap(built: Seq<Seq<char>>, next: Seq<Seq<char>>, k: int) -> bool {
    0 <= k <= built.len() && k <= next.len() && built.skip(built.len() - k) == next.take(k)
}

/// The longest overlap of at most `k` words.
pub open spec fn longest_overlap(built: Seq<Seq<char>>, next: Seq<Seq<char>>, k: nat) -> nat
    decreases k,
{
    if k == 0 || is_overlap(built, next, k as int) {
        k
    } else {
        longest_overlap(built, next, (k - 1) as nat)
    }
}

/// Two lists of words put together, with the words that both hold at the seam
/// taken once.
pub open spec fn merged(built: Seq<Seq<char>>, next: Seq<Seq<char>>) -> Seq<Seq<char>> {
    let most = if built.len() <= next.len() {
        built.len()
    } else {
        next.len()
    };
    built.take(built.len() - longest_overlap(built, next, most)) + next
}

/// The words of overlapping transcripts, each seam taken once.
pub open spec fn stitched_words(parts: Seq<Seq<char>>) -> Seq<Seq<char>>
    decreases parts.len(),
{
    if parts.len() == 0 {
        Seq::empty()
    } else if parts.len() == 1 {
        words(parts[0])
    } else {
        merged(stitched_words(parts.drop_last()), words(parts.last()))
    }
}

/// Overlapping transcripts merged into one text.
pub open spec fn stitched(parts: Seq<Seq<char>>) -> Seq<char> {
    joined(stitched_words(parts), " "@)
}

proof fn lemma_longest_overlap(built: Seq<Seq<char>>, next: Seq<Seq<char>>, k: nat)
    requires
        k <= built.len(),
        k <= next.len(),
    ensures
        longest_overlap(built, next, k) <= k,
        is_overlap(built, next, longest_overlap(built, next, k) as int),
    decreases k,
{
    if k == 0 {
        assert(built.skip(built.len() as int) =~= next.take(0));
    } else if !is_overlap(built, next, k as int) {
        lemma_longest_overlap(built, next, (k - 1) as nat);
    }
}

fn overlap_is(built: &[String], next: &[String], k: usize) -> (r: bool)
    requires
        k <= built@.len(),
        k <= next@.len(),
    ensures
        r == is_overlap(views(built@), views(next@), k as int),
{
    let total: usize = built.len();
    let from: usize = total - k;
    let ghost a = views(built@).skip(from as int);
    let ghost b = views(next@).take(k as int);
    let mut i: usize = 0;
    while i < k
        invariant
            k <= total == built@.len(),
            k <= next@.len(),
            from == total - k,
            a == views(built@).skip(from as int),
            b == views(next@).take(k as int),
            0 <= i <= k,
            forall|j: int| 0 <= j < i ==> a[j] == b[j],
        decreases k - i,
    {
        if built[from + i] != next[i] {
            assert(a[i as int] != b[i as int]);
            return false;
        }
        i += 1;
    }
    assert(a =~= b);
    true
}

/// Merges overlapping transcripts, taking the words at each seam once.
pub fn stitch(parts: &[String]) -> (text: String)
    ensures
        text@ == stitched(views(parts@)),
{
    if parts.len() == 0 {
        assert(stitched_words(views(parts@)) =~= Seq::empty());
        return String::new();
    }
    let mut built: Vec<String> = split_words(parts[0].as_str());
    let mut i: usize = 1;
    assert(views(parts@).take(1) =~= seq![parts@[0]@]);
    while i < parts.len()
        invariant
            1 <= i <= parts@.len(),
            views(built@) == stitched_words(views(parts@).take(i as int)),
        decreases parts@.len() - i,
    {
        let mut next: Vec<String> = split_words(parts[i].as_str());
        let ghost a = views(built@);
        let ghost b = views(next@);
        let most: usize = if built.len() <= next.len() {
            built.len()
        } else {
            next.len()
        };
        let mut k: usize = most;
        while k > 0 && !overlap_is(&built, &next, k)
            invariant
                k <= most,
                most <= built@.len(),
                most <= next@.len(),
                a == views(built@),
                b == views(next@),
                longest_overlap(a, b, most as nat) == longest_overlap(a, b, k as nat),
            decreases k,
        {
            k -= 1;
        }
        assert(longest_overlap(a, b, most as nat) == k);
        let keep: usize = built.len() - k;
        built.truncate(keep);
        assert(views(built@) =~= a.take(keep as int));
        let ghost kept = built@;
        let ghost added = next@;
        built.append(&mut next);
        proof {
            assert(views(built@) =~= a.take(keep as int) + b);
            let list = views(parts@);
            assert(list.take(i + 1).drop_last() =~= list.take(i as int));
            assert(list.take(i + 1).last() == parts@[i as int]@);
        }
        i += 1;
    }
    assert(views(parts@).take(i as int) =~= views(parts@));
    join(&built, " ")
}

/// Stitching loses no word: what was built so far is kept as it is, and the new
/// transcript stands whole at the end.
pub proof fn law_stitching_loses_no_word(built: Seq<Seq<char>>, next: Seq<Seq<char>>)
    ensures
        merged(built, next).len() >= built.len(),
        merged(built, next).take(built.len() as int) == built,
        merged(built, next).len() >= next.len(),
        merged(built, next).skip(merged(built, next).len() - next.len()) == next,
{
    let most = if built.len() <= next.len() {
        built.len()
    } else {
        next.len()
    };
    let k = longest_overlap(built, next, most) as int;
    lemma_longest_overlap(built, next, most);
    let all = merged(built, next);
    let seam = built.skip(built.len() - k);
    assert forall|i: int| 0 <= i < built.len() implies all[i] == built[i] by {
        if i >= built.len() - k {
            assert(seam[i - (built.len() - k)] == built[i]);
            assert(next.take(k)[i - (built.len() - k)] == next[i - (built.len() - k)]);
        }
    }
    assert(all.take(built.len() as int) =~= built);
    assert(all.skip(all.len() - next.len()) =~= next);
}

/// The seam that is taken once is the longest one: no longer run of words that
/// ends the first list starts the second.
pub proof fn law_seam_is_longest(built: Seq<Seq<char>>, next: Seq<Seq<char>>, k: int)
    requires
        is_overlap(built, next, k),
    ensures
        merged(built, next).len() <= built.len() + next.len() - k,
{
    let most = if built.len() <= next.len() {
        built.len()
    } else {
        next.len()
    };
    lemma_longest_overlap(built, next, most);
    lemma_overlap_at_least(built, next, most, k as nat);
}

proof fn lemma_overlap_at_least(
    built: Seq<Seq<char>>,
    next: Seq<Seq<char>>,
    most: nat,
    k: nat,
)
    requires
        k <= most,
        is_overlap(built, next, k as int),
    ensures
        k <= longest_overlap(built, next, most),
    decreases most,
{
    if most > k && !is_overlap(built, next, most as int) {
        lemma_overlap_at_least(built, next, (most - 1) as nat, k);
    }
}

// ---------------------------------------------------------------------------
// Uploading one phrase
// ---------------------------------------------------------------------------

/// How long audio is cut: not at all, into chunks, or not at all because it is
/// no audio that can be cut.
#[derive(Debug)]
pub enum Plan {
    Whole,
    Chunks(Vec<Vec<u8>>),
    Broken(WavError),
}

/// The mathematical content of a [`Plan`].
#[verifier::ext_equal]
pub enum PlanView {
    Whole,
    Chunks(Seq<Seq<u8>>),
    Broken(WavError),
}

impl View for Plan {
    type V = PlanView;

    open spec fn view(&self) -> PlanView {
        match self {
            Plan::Whole => PlanView::Whole,
            Plan::Chunks(list) => PlanView::Chunks(byte_views(list@)),
            Plan::Broken(e) => PlanView::Broken(*e),
        }
    }
}

/// By how many milliseconds neighbouring chunks overlap.
pub const OVERLAP_MS: u32 = 500;

/// How audio is cut: where it lasts longer than `max_chunk_ms`, into chunks of
/// that length that overlap.
pub open spec fn plan_of(wav: Seq<u8>, max_chunk_ms: u32) -> PlanView {
    if lasts_longer(wav, max_chunk_ms as nat) {
        match chunks_of(wav, max_chunk_ms, OVERLAP_MS) {
            Ok(list) => PlanView::Chunks(list),
            Err(e) => PlanView::Broken(e),
        }
    } else {
        PlanView::Whole
    }
}

/// Whether audio can be cut where it has to be.
pub open spec fn can_be_cut(wav: Seq<u8>, max_chunk_ms: u32) -> bool {
    lasts_longer(wav, max_chunk_ms as nat) ==> splittable(wav, max_chunk_ms, OVERLAP_MS)
}

/// Whether audio can be cut where it has to be.
pub fn is_cuttable(wav: &[u8], max_chunk_ms: u32) -> (possible: bool)
    ensures
        possible == can_be_cut(wav@, max_chunk_ms),
{
    !longer_than(wav, max_chunk_ms) || can_split(wav, max_chunk_ms, OVERLAP_MS)
}

fn plan(wav: &[u8], max_chunk_ms: u32) -> (plan: Plan)
    requires
        can_be_cut(wav@, max_chunk_ms),
    ensures
        plan@ == plan_of(wav@, max_chunk_ms),
{
    if longer_than(wav, max_chunk_ms) {
        match split_chunks(wav, max_chunk_ms, OVERLAP_MS) {
            Ok(list) => Plan::Chunks(list),
            Err(e) => Plan::Broken(e),
        }
    } else {
        Plan::Whole
    }
}

/// How the transcripts of several chunks become one.
#[derive(Debug, Clone, Copy, PartialEq, Eq, Structural)]
pub enum Joining {
    /// The words that two neighbours share at the seam are taken once.
    Stitch,
    /// They are joined by spaces.
    Spaces,
}

/// The transcript of a phrase whose chunks were transcribed as `parts`.
pub open spec fn finished(joining: Joining, parts: Seq<Seq<char>>) -> Seq<char> {
    match joining {
        Joining::Stitch => stitched(parts),
        Joining::Spaces => joined(parts, " "@),
    }
}

/// The upload of one phrase: what is still to be asked and what was answered.
#[derive(Debug)]
pub struct Upload {
    /// Whether audio is compressed before it is sent.
    pub mp3: bool,
    pub joining: Joining,
    /// How the phrase is cut; of the chunks, those that are not taken up yet.
    pub plan: Plan,
    /// The transcripts so far, without the empty ones.
    pub parts: Vec<String>,
}

/// The mathematical content of an [`Upload`].
#[verifier::ext_equal]
pub struct UploadView {
    pub mp3: bool,
    pub joining: Joining,
    pub plan: PlanView,
    pub parts: Seq<Seq<char>>,
}

impl View for Upload {
    type V = UploadView;

    open spec fn view(&self) -> UploadView {
        UploadView {
            mp3: self.mp3,
            joining: self.joining,
            plan: self.plan@,
            parts: views(self.parts@),
        }
    }
}

/// Audio that waits to be compressed.
#[derive(Debug)]
pub struct Conversion {
    pub wav: Vec<u8>,
    /// Whether this is the whole phrase.
    pub whole: bool,
    pub upload: Upload,
}

/// Audio that waits to be transcribed.
#[derive(Debug)]
pub struct Question {
    pub audio: Vec<u8>,
    /// Whether this is the whole phrase.
    pub whole: bool,
    pub upload: Upload,
}

/// What an upload does next.
#[derive(Debug)]
pub enum UploadStep {
    /// Compress audio.
    Convert(Conversion),
    /// Ask for the words of audio.
    Ask(Question),
    /// The phrase is transcribed.
    Done(String),
    /// The phrase cannot be cut.
    Failed(WavError),
}

/// The mathematical content of an [`UploadStep`].
#[verifier::ext_equal]
pub enum UploadStepView {
    Convert { wav: Seq<u8>, whole: bool, upload: UploadView },
    Ask { audio: Seq<u8>, whole: bool, upload: UploadView },
    Done(Seq<char>),
    Failed(WavError),
}

impl View for UploadStep {
    type V = UploadStepView;

    open spec fn view(&self) -> UploadStepView {
        match self {
            UploadStep::Convert(c) => UploadStepView::Convert {
                wav: c.wav@,
                whole: c.whole,
                upload: c.upload@,
            },
            UploadStep::Ask(q) => UploadStepView::Ask {
                audio: q.audio@,
                whole: q.whole,
                upload: q.upload@,
            },
            UploadStep::Done(text) => UploadStepView::Done(text@),
            UploadStep::Failed(e) => UploadStepView::Failed(*e),
        }
    }
}

impl UploadView {
    /// What is done with the next chunk, or the transcript where none is left.
    pub open spec fn next_chunk(self) -> UploadStepView {
        match self.plan {
            PlanView::Chunks(list) if list.len() > 0 => {
                let rest = UploadView { plan: PlanView::Chunks(list.skip(1)), ..self };
                if self.mp3 {
                    UploadStepView::Convert { wav: list[0], whole: false, upload: rest }
                } else {
                    UploadStepView::Ask { audio: list[0], whole: false, upload: rest }
                }
            },
            _ => UploadStepView::Done(finished(self.joining, self.parts)),
        }
    }

    /// What is done once the whole phrase is ready to be sent as `audio`.
    pub open spec fn after_whole(self, audio: Seq<u8>) -> UploadStepView {
        match self.plan {
            PlanView::Whole => UploadStepView::Ask { audio, whole: true, upload: self },
            PlanView::Chunks(_) => self.next_chunk(),
            PlanView::Broken(e) => UploadStepView::Failed(e),
        }
    }

    /// The same upload after a chunk was transcribed.
    pub open spec fn with_part(self, text: Seq<char>) -> UploadView {
        if text.len() > 0 {
            UploadView { parts: self.parts.push(text), ..self }
        } else {
            self
        }
    }
}

/// The first step of an upload.
pub open spec fn upload_started(
    wav: Seq<u8>,
    mp3: bool,
    joining: Joining,
    plan: PlanView,
) -> UploadStepView {
    let upload = UploadView { mp3, joining, plan, parts: Seq::empty() };
    if mp3 {
        UploadStepView::Convert { wav, whole: true, upload }
    } else {
        upload.after_whole(wav)
    }
}

/// The step after a conversion that gave `audio`.
pub open spec fn after_conversion(whole: bool, upload: UploadView, audio: Seq<u8>) -> UploadStepView {
    if whole {
        upload.after_whole(audio)
    } else {
        UploadStepView::Ask { audio, whole, upload }
    }
}

/// The step after a question that was answered with `text`.
pub open spec fn after_answer(whole: bool, upload: UploadView, text: Seq<char>) -> UploadStepView {
    if whole {
        UploadStepView::Done(text)
    } else {
        upload.with_part(text).next_chunk()
    }
}

impl Upload {
    /// Starts the upload of a phrase.
    pub fn start(wav: Vec<u8>, mp3: bool, max_chunk_ms: u32, joining: Joining) -> (step: UploadStep)
        requires
            can_be_cut(wav@, max_chunk_ms),
        ensures
            step@ == upload_started(wav@, mp3, joining, plan_of(wav@, max_chunk_ms)),
    {
        let upload = Upload { mp3, joining, plan: plan(&wav, max_chunk_ms), parts: Vec::new() };
        assert(upload@.parts =~= Seq::empty());
        if mp3 {
            UploadStep::Convert(Conversion { wav, whole: true, upload })
        } else {
            upload.send_whole(wav)
        }
    }

    fn send_whole(self, audio: Vec<u8>) -> (step: UploadStep)
        ensures
            step@ == self@.after_whole(audio@),
    {
        if let Plan::Broken(e) = self.plan {
            return UploadStep::Failed(e);
        }
        if let Plan::Whole = self.plan {
            return UploadStep::Ask(Question { audio, whole: true, upload: self });
        }
        self.send_chunk()
    }

    fn send_chunk(self) -> (step: UploadStep)
        ensures
            step@ == self@.next_chunk(),
    {
        if let Plan::Chunks(mut list) = self.plan {
            if list.len() > 0 {
                let ghost all = byte_views(list@);
                let first = list.remove(0);
                assert(byte_views(list@) =~= all.skip(1));
                let upload = Upload {
                    mp3: self.mp3,
                    joining: self.joining,
                    plan: Plan::Chunks(list),
                    parts: self.parts,
                };
                return if upload.mp3 {
                    UploadStep::Convert(Conversion { wav: first, whole: false, upload })
                } else {
                    UploadStep::Ask(Question { audio: first, whole: false, upload })
                };
            }
        }
        UploadStep::Done(
            match self.joining {
                Joining::Stitch => stitch(&self.parts),
                Joining::Spaces => join(&self.parts, " "),
            },
        )
    }
}

impl Conversion {
    /// Goes on with the compressed audio.
    pub fn converted(self, audio: Vec<u8>) -> (step: UploadStep)
        ensures
            step@ == after_conversion(self.whole, self.upload@, audio@),
    {
        if self.whole {
            self.upload.send_whole(audio)
        } else {
            UploadStep::Ask(Question { audio, whole: false, upload: self.upload })
        }
    }
}

impl Question {
    /// The format of the audio.
    pub fn format(&self) -> (format: &'static str)
        ensures
            format@ == if self.upload.mp3 {
                "mp3"@
            } else {
                "wav"@
            },
    {
        if self.upload.mp3 {
            "mp3"
        } else {
            "wav"
        }
    }

    /// Goes on with the transcript of the audio.
    pub fn answered(self, text: String) -> (step: UploadStep)
        ensures
            step@ == after_answer(self.whole, self.upload@, text@),
    {
        if self.whole {
            return UploadStep::Done(text);
        }
        let mut upload = self.upload;
        let ghost before = upload@;
        if !text.as_str().is_empty() {
            upload.parts.push(text);
            assert(views(upload.parts@) =~= before.parts.push(text@));
        }
        assert(upload@ =~= before.with_part(text@));
        upload.send_chunk()
    }
}

impl OpenRouterSttTranscriber {
    /// Starts the transcription of a phrase.
    pub fn upload(&self, wav: Vec<u8>) -> (step: UploadStep)
        requires
            can_be_cut(wav@, self.max_chunk_ms),
        ensures
            step@ == upload_started(
                wav@,
                self.use_mp3,
                Joining::Stitch,
                plan_of(wav@, self.max_chunk_ms),
            ),
    {
        Upload::start(wav, self.use_mp3, self.max_chunk_ms, Joining::Stitch)
    }
}

impl GeminiTranscriber {
    /// Starts the transcription of a phrase.
    pub fn upload(&self, wav: Vec<u8>) -> (step: UploadStep)
        requires
            can_be_cut(wav@, self.max_chunk_ms),
        ensures
            step@ == upload_started(
                wav@,
                self.use_mp3,
                Joining::Spaces,
                plan_of(wav@, self.max_chunk_ms),
            ),
    {
        Upload::start(wav, self.use_mp3, self.max_chunk_ms, Joining::Spaces)
    }
}

/// The texts that are not empty.
pub open spec fn non_empty(texts: Seq<Seq<char>>) -> Seq<Seq<char>>
    decreases texts.len(),
{
    if texts.len() == 0 {
        Seq::empty()
    } else if texts[0].len() > 0 {
        seq![texts[0]] + non_empty(texts.skip(1))
    } else {
        non_empty(texts.skip(1))
    }
}

/// What comes of an upload whose questions get the given answers in turn and
/// whose audio is compressed by `mp3_of`: the audio that is asked about, and the
/// transcript if there is one.
pub open spec fn outcome(
    step: UploadStepView,
    answers: Seq<Seq<char>>,
    mp3_of: spec_fn(Seq<u8>) -> Seq<u8>,
) -> (Seq<Seq<u8>>, Option<Seq<char>>)
    decreases
            answers.len(),
            match step {
                UploadStepView::Convert { whole, .. } => if whole {
                    2int
                } else {
                    1int
                },
                _ => 0int,
            },
{
    match step {
        UploadStepView::Convert { wav, whole, upload } => outcome(
            after_conversion(whole, upload, mp3_of(wav)),
            answers,
            mp3_of,
        ),
        UploadStepView::Ask { audio, whole, upload } => if answers.len() == 0 {
            (seq![audio], None)
        } else {
            let rest = outcome(
                after_answer(whole, upload, answers[0]),
                answers.skip(1),
                mp3_of,
            );
            (seq![audio] + rest.0, rest.1)
        },
        UploadStepView::Done(text) => (Seq::empty(), Some(text)),
        UploadStepView::Failed(_) => (Seq::empty(), None),
    }
}

/// What is sent of a list of chunks.
pub open spec fn sent(
    chunks: Seq<Seq<u8>>,
    mp3: bool,
    mp3_of: spec_fn(Seq<u8>) -> Seq<u8>,
) -> Seq<Seq<u8>> {
    Seq::new(
        chunks.len(),
        |i: int|
            if mp3 {
                mp3_of(chunks[i])
            } else {
                chunks[i]
            },
    )
}

proof fn lemma_chunks_in_order(
    upload: UploadView,
    chunks: Seq<Seq<u8>>,
    answers: Seq<Seq<char>>,
    mp3_of: spec_fn(Seq<u8>) -> Seq<u8>,
)
    requires
        upload.plan == PlanView::Chunks(chunks),
        answers.len() == chunks.len(),
    ensures
        outcome(upload.next_chunk(), answers, mp3_of).0 == sent(chunks, upload.mp3, mp3_of),
        outcome(upload.next_chunk(), answers, mp3_of).1 == Some(
            finished(upload.joining, upload.parts + non_empty(answers)),
        ),
    decreases chunks.len(),
{
    reveal_with_fuel(outcome, 3);
    if chunks.len() == 0 {
        assert(sent(chunks, upload.mp3, mp3_of) =~= Seq::empty());
        assert(upload.parts + non_empty(answers) =~= upload.parts);
    } else {
        let rest = UploadView { plan: PlanView::Chunks(chunks.skip(1)), ..upload };
        let next = rest.with_part(answers[0]);
        lemma_chunks_in_order(next, chunks.skip(1), answers.skip(1), mp3_of);
        let audio = if upload.mp3 {
            mp3_of(chunks[0])
        } else {
            chunks[0]
        };
        assert(sent(chunks, upload.mp3, mp3_of) =~= seq![audio] + sent(
            chunks.skip(1),
            upload.mp3,
            mp3_of,
        ));
        assert(next.parts + non_empty(answers.skip(1)) =~= upload.parts + non_empty(answers));
    }
}

/// Long audio is asked about chunk by chunk, in order, and its transcript is
/// made of the answers that are not empty, in order.
pub proof fn law_long_audio_goes_in_chunks(
    wav: Seq<u8>,
    mp3: bool,
    joining: Joining,
    chunks: Seq<Seq<u8>>,
    answers: Seq<Seq<char>>,
    mp3_of: spec_fn(Seq<u8>) -> Seq<u8>,
)
    requires
        answers.len() == chunks.len(),
    ensures
        ({
            let start = upload_started(wav, mp3, joining, PlanView::Chunks(chunks));
            &&& outcome(start, answers, mp3_of).0 == sent(chunks, mp3, mp3_of)
            &&& outcome(start, answers, mp3_of).1 == Some(finished(joining, non_empty(answers)))
        }),
{
    let upload = UploadView {
        mp3,
        joining,
        plan: PlanView::Chunks(chunks),
        parts: Seq::empty(),
    };
    lemma_chunks_in_order(upload, chunks, answers, mp3_of);
    assert(upload.parts + non_empty(answers) =~= non_empty(answers));
}

/// Short audio is asked about once, as a whole, and its transcript is the
/// answer.
pub proof fn law_short_audio_goes_whole(
    wav: Seq<u8>,
    mp3: bool,
    joining: Joining,
    answer: Seq<char>,
    mp3_of: spec_fn(Seq<u8>) -> Seq<u8>,
)
    ensures
        ({
            let start = upload_started(wav, mp3, joining, PlanView::Whole);
            outcome(start, seq![answer], mp3_of) == (
                seq![
                    if mp3 {
                        mp3_of(wav)
                    } else {
                        wav
                    },
                ],
                Some(answer),
            )
        }),
{
    reveal_with_fuel(outcome, 3);
    let start = upload_started(wav, mp3, joining, PlanView::Whole);
    let audio = if mp3 {
        mp3_of(wav)
    } else {
        wav
    };
    assert(seq![audio] + Seq::<Seq<u8>>::empty() =~= seq![audio]);
}

// ---------------------------------------------------------------------------
// Compressing audio
// ---------------------------------------------------------------------------

/// The name of a scratch file, from the time in nanoseconds.
pub fn temp_name(nanos: u128, ext: &str) -> (name: String)
    ensures
        name@ == "way_dictation_"@ + decimal_digits(nanos as nat) + "."@ + ext@,
{
    "way_dictation_".to_string().concat(decimal(nanos).as_str()).concat(".").concat(ext)
}

/// How ffmpeg is run to compress a WAV file.
pub fn ffmpeg_command(wav_path: &str, mp3_path: &str) -> (run: Invocation)
    ensures
        run@.program == "ffmpeg"@,
        run@.args == seq![
            "-y"@,
            "-loglevel"@,
            "error"@,
            "-i"@,
            wav_path@,
            "-codec:a"@,
            "libmp3lame"@,
            "-b:a"@,
            "192k"@,
            mp3_path@,
        ],
{
    let args = owned(
        &[
            "-y",
            "-loglevel",
            "error",
            "-i",
            wav_path,
            "-codec:a",
            "libmp3lame",
            "-b:a",
            "192k",
            mp3_path,
        ],
    );
    assert(views(args@) =~= seq![
        "-y"@,
        "-loglevel"@,
        "error"@,
        "-i"@,
        wav_path@,
        "-codec:a"@,
        "libmp3lame"@,
        "-b:a"@,
        "192k"@,
        mp3_path@,
    ]);
    Invocation { program: "ffmpeg".to_string(), args }
}

/// What the user is told where ffmpeg failed, from what it wrote as text.
pub fn ffmpeg_failure(stderr: &str) -> (message: String)
    requires
        cuttable(stderr@, 400),
    ensures
        message@ == "ffmpeg failed: "@ + truncated(stderr@, 400),
{
    "ffmpeg failed: ".to_string().concat(truncate(stderr, 400))
}

/// What the user is told where ffmpeg failed, from what it wrote: nothing where
/// no character ends at the place of the cut.
pub fn ffmpeg_error(stderr: &[u8]) -> (message: Option<String>)
    ensures
        match message {
            Some(m) => cuttable(lossy_text(stderr@), 400) && m@ == "ffmpeg failed: "@ + truncated(
                lossy_text(stderr@),
                400,
            ),
            None => !cuttable(lossy_text(stderr@), 400),
        },
{
    let text = lossy(stderr);
    if can_truncate(text.as_str(), 400) {
        Some(ffmpeg_failure(text.as_str()))
    } else {
        None
    }
}

/// Where the audio of requests is kept for debugging, if anywhere: the value of
/// `WAY_DICTATION_DEBUG_DIR`, or of `GROQ_DICTATION_DEBUG_DIR` where that is
/// not set.
pub fn dump_dir(dir: Option<String>, former_dir: Option<String>) -> (chosen: Option<String>)
    ensures
        chosen == if dir is Some {
            dir
        } else {
            former_dir
        },
{
    match dir {
        Some(d) => Some(d),
        None => former_dir,
    }
}

/// The name of a file that keeps the audio of a request, from the time in
/// nanoseconds.
pub fn dump_name(nanos: u128, format: &str) -> (name: String)
    ensures
        name@ == "req_"@ + decimal_digits(nanos as nat) + "."@ + format@,
{
    "req_".to_string().concat(decimal(nanos).as_str()).concat(".").concat(format)
}

// ---------------------------------------------------------------------------
// Laws
// ---------------------------------------------------------------------------

/// Which service each name stands for; no other name stands for any.
pub proof fn law_names_stand_for_services(s: Seq<char>)
    ensures
        Provider::named(s) == Some(Provider::Groq) <==> s == "groq"@,
        Provider::named(s) == Some(Provider::Gemini) <==> s == "gemini"@ || s == "openrouter"@,
        Provider::named(s) == Some(Provider::GeminiLive) <==> s == "gemini-live"@ || s
            == "gemini-live-transcribe"@ || s == "glive"@,
        Provider::named(s) == Some(Provider::GptTranscribe) <==> s == "gpt-transcribe"@ || s
            == "gpttranscribe"@ || s == "gpt"@,
{
    reveal_strlit("groq");
    reveal_strlit("gemini");
    reveal_strlit("openrouter");
    reveal_strlit("gemini-live");
    reveal_strlit("gemini-live-transcribe");
    reveal_strlit("glive");
    reveal_strlit("gpt-transcribe");
    reveal_strlit("gpttranscribe");
    reveal_strlit("gpt");
    assert("groq"@.len() == 4 && "gemini"@.len() == 6 && "openrouter"@.len() == 10);
    assert("gemini-live"@.len() == 11 && "gemini-live-transcribe"@.len() == 22);
    assert("glive"@.len() == 5 && "gpt-transcribe"@.len() == 14 && "gpttranscribe"@.len() == 13);
    assert("gpt"@.len() == 3);
}

/// Which variable holds the key of each service, and which model it is asked for
/// where none is chosen.
pub proof fn law_services_have_their_keys_and_models()
    ensures
        Provider::Groq.key_var().spelled() == "GROQ_API_KEY"@,
        Provider::Gemini.key_var().spelled() == "OPENROUTER_API_KEY"@,
        Provider::GptTranscribe.key_var().spelled() == "OPENROUTER_API_KEY"@,
        Provider::GeminiLive.key_var().spelled() == "GEMINI_API_KEY"@,
        Provider::Groq.default_model() == "whisper-large-v3-turbo"@,
        Provider::Gemini.default_model() == "google/gemini-3.1-flash-lite"@,
        Provider::GptTranscribe.default_model() == "openai/gpt-transcribe"@,
        Provider::GeminiLive.default_model() == "gemini-3.5-transcribe-live"@,
{
}

/// The value of a variable is its own: no service gets the key of another.
pub proof fn law_keys_are_not_mixed_up(keys: ApiKeys)
    ensures
        keys.value(Provider::Groq.key_var()) == keys.groq,
        keys.value(Provider::Gemini.key_var()) == keys.openrouter,
        keys.value(Provider::GptTranscribe.key_var()) == keys.openrouter,
        keys.value(Provider::GeminiLive.key_var()) == keys.gemini,
{
}

/// A key counts exactly where it holds a character that is not white space.
pub proof fn law_a_key_counts_where_it_is_visible(key: String)
    ensures
        is_set(Some(key)) <==> !is_blank(key@),
        !is_set(None),
{
    law_trimming_takes_only_white_ends(key@);
    let t = trimmed(key@);
    let (before, after) = choose|before: Seq<char>, after: Seq<char>|
        is_blank(before) && is_blank(after) && key@ == #[trigger] (before + t + after);
    if is_blank(key@) {
        law_trimming_finds_what_is_between(key@, Seq::empty(), Seq::empty());
        assert(key@ + Seq::<char>::empty() + Seq::<char>::empty() =~= key@);
    } else if t.len() == 0 {
        assert forall|i: int| 0 <= i < key@.len() implies is_white(#[trigger] key@[i]) by {
            if i < before.len() {
                assert(is_white(before[i]));
            } else {
                assert(is_white(after[i - before.len()]));
            }
        }
    }
}

/// A user can switch exactly where they have the key of a service on another
/// variable that the widget offers: that of Groq or of OpenRouter.
pub proof fn law_a_user_can_switch_to_another_key(keys: ApiKeys, var: KeyVar)
    ensures
        keys.another_set(var) <==> (var != KeyVar::Groq && is_set(keys.groq)) || (var
            != KeyVar::OpenRouter && is_set(keys.openrouter)),
{
}

/// A service is refused exactly where its name is unknown or its key does not
/// count.
pub proof fn law_a_known_service_with_a_key_is_never_refused(provider: Seq<char>, keys: ApiKeys)
    ensures
        refusal(provider, keys) is None <==> (Provider::named(provider) matches Some(p) && (
        keys.value(p.key_var()) matches Some(k) && !is_blank(k@))),
{
    if let Some(p) = Provider::named(provider) {
        if let Some(k) = keys.value(p.key_var()) {
            law_a_key_counts_where_it_is_visible(k);
        }
    }
}

proof fn lemma_occurs_between(before: Seq<char>, needle: Seq<char>, after: Seq<char>, text: Seq<char>)
    requires
        text == before + needle + after,
    ensures
        occurs(text, needle),
{
    law_a_needle_is_found_anywhere(before, needle, after);
}

/// What a user without a key is told names the key and where to get it; a user
/// without any key is told where to get either.
pub proof fn law_a_missing_key_is_told_with_its_source(var: KeyVar)
    ensures
        occurs(missing_key_text(var.spelled(), true), var.spelled()),
        occurs(
            missing_key_text(var.spelled(), true),
            match var {
                KeyVar::Groq => "https://console.groq.com/keys"@,
                KeyVar::OpenRouter => "https://openrouter.ai/keys"@,
                KeyVar::Gemini => "https://aistudio.google.com/apikey"@,
            },
        ),
        occurs(missing_key_text(var.spelled(), false), "https://console.groq.com/keys"@),
        occurs(missing_key_text(var.spelled(), false), "https://openrouter.ai/keys"@),
{
    let a1 =
        "No API keys found. You need a Groq or OpenRouter key to transcribe. Get a free Groq key at "@;
    let a2 = " (free tier, no card required) or an OpenRouter key at "@;
    let a3 =
        ", then open Settings (gear icon) in the app, paste it into the matching field, and press play again."@;
    let none = missing_key_text(var.spelled(), false);
    assert(none =~= a1 + GROQ_KEY_URL@ + (a2 + OPENROUTER_KEY_URL@ + a3));
    lemma_occurs_between(a1, GROQ_KEY_URL@, a2 + OPENROUTER_KEY_URL@ + a3, none);
    assert(none =~= (a1 + GROQ_KEY_URL@ + a2) + OPENROUTER_KEY_URL@ + a3);
    lemma_occurs_between(a1 + GROQ_KEY_URL@ + a2, OPENROUTER_KEY_URL@, a3, none);
    reveal_strlit("GROQ_API_KEY");
    reveal_strlit("OPENROUTER_API_KEY");
    reveal_strlit("GEMINI_API_KEY");
    assert("GROQ_API_KEY"@.len() == 12 && "OPENROUTER_API_KEY"@.len() == 18
        && "GEMINI_API_KEY"@.len() == 14);
    let needed = var.spelled();
    let some = missing_key_text(needed, true);
    let (head, middle, url) = match var {
        KeyVar::Groq => (
            "No Groq API key found ("@,
            " is not set). You already have an OpenRouter key: open Settings (gear icon) and switch Provider to \"GPT Transcribe (paid)\" or \"Gemini (OpenRouter)\", or add a free Groq key at "@,
            GROQ_KEY_URL@,
        ),
        KeyVar::OpenRouter => (
            "No OpenRouter API key found ("@,
            " is not set). You already have a Groq key: open Settings (gear icon) and switch Provider to \"Groq Whisper (free)\", or add an OpenRouter key at "@,
            OPENROUTER_KEY_URL@,
        ),
        KeyVar::Gemini => (
            "No Gemini API key found ("@,
            " is not set). Switch Provider to \"GPT Transcribe (paid)\", \"Groq Whisper (free)\", or \"Gemini (OpenRouter)\" with one of your existing keys, or add a Gemini key at "@,
            GEMINI_KEY_URL@,
        ),
    };
    assert(some =~= head + needed + (middle + url + "."@));
    lemma_occurs_between(head, needed, middle + url + "."@, some);
    assert(some =~= (head + needed + middle) + url + "."@);
    lemma_occurs_between(head + needed + middle, url, "."@, some);
}

/// The form for Groq names the model, and the language exactly where one is
/// chosen.
pub proof fn law_the_form_names_model_and_language(model: Seq<char>, language: Seq<char>)
    ensures
        groq_fields(model, None).len() == 1,
        groq_fields(model, None)[0] == ("model"@, model),
        groq_fields(model, Some(language)).len() == 2,
        groq_fields(model, Some(language))[0] == ("model"@, model),
        groq_fields(model, Some(language))[1] == ("language"@, language),
{
}

/// Audio within an upload is its base64 form, with the name of its format, and
/// nothing else.
pub proof fn law_audio_is_uploaded_whole(audio: Seq<u8>, format: Seq<char>, name: Seq<char>)
    ensures
        audio_tree(audio, format).member("data"@) == Some(JsonTree::Text(base64_of(audio))),
        audio_tree(audio, format).member("format"@) == Some(JsonTree::Text(format)),
        name != "data"@ && name != "format"@ ==> audio_tree(audio, format).member(name) is None,
{
    reveal_strlit("data");
    reveal_strlit("format");
    assert("data"@.len() == 4 && "format"@.len() == 6);
    let fields = seq![
        ("data"@, JsonTree::Text(base64_of(audio))),
        ("format"@, JsonTree::Text(format)),
    ];
    law_objects_hold_their_members(fields);
    assert(fields[0].0 == "data"@ && fields[1].0 == "format"@);
}

/// A speech model is asked with the model, the audio, the prompt against
/// omissions, the temperature and, exactly where one is chosen, the language.
pub proof fn law_a_speech_model_is_asked_for_every_word(
    model: Seq<char>,
    audio: Seq<u8>,
    format: Seq<char>,
    language: Option<Seq<char>>,
    name: Seq<char>,
)
    ensures
        ({
            let asked = stt_tree(model, audio, format, language);
            &&& asked.member("model"@) == Some(JsonTree::Text(model))
            &&& asked.member("input_audio"@) == Some(audio_tree(audio, format))
            &&& asked.member("prompt"@) == Some(JsonTree::Text(STT_OMISSION_PROMPT@))
            &&& asked.member("temperature"@) == Some(JsonTree::Number("0.2"@))
            &&& asked.member("language"@) == match language {
                Some(l) => Some(JsonTree::Text(l)),
                None => None,
            }
            &&& name != "model"@ && name != "input_audio"@ && name != "prompt"@ && name
                != "temperature"@ && name != "language"@ ==> asked.member(name) is None
        }),
{
    reveal_strlit("model");
    reveal_strlit("input_audio");
    reveal_strlit("prompt");
    reveal_strlit("temperature");
    reveal_strlit("language");
    assert("model"@.len() == 5 && "input_audio"@.len() == 11 && "prompt"@.len() == 6
        && "temperature"@.len() == 11 && "language"@.len() == 8);
    assert("input_audio"@[0] != "temperature"@[0]);
    let always = seq![
        ("model"@, JsonTree::Text(model)),
        ("input_audio"@, audio_tree(audio, format)),
        ("prompt"@, JsonTree::Text(STT_OMISSION_PROMPT@)),
        ("temperature"@, JsonTree::Number("0.2"@)),
    ];
    let fields = match language {
        Some(l) => always.push(("language"@, JsonTree::Text(l))),
        None => always,
    };
    assert(fields[0].0 == "model"@ && fields[1].0 == "input_audio"@ && fields[2].0 == "prompt"@
        && fields[3].0 == "temperature"@);
    if language is Some {
        assert(fields[4].0 == "language"@);
    }
    law_objects_hold_their_members(fields);
}

/// A general model is asked in one message of the user: first the instruction to
/// transcribe, then the audio.
pub proof fn law_a_general_model_is_told_to_transcribe(
    model: Seq<char>,
    audio: Seq<u8>,
    format: Seq<char>,
    name: Seq<char>,
)
    ensures
        ({
            let asked = chat_tree(model, audio, format);
            &&& asked.member("model"@) == Some(JsonTree::Text(model))
            &&& name != "model"@ && name != "messages"@ ==> asked.member(name) is None
            &&& asked.member("messages"@) matches Some(messages) && {
                &&& messages.element(1) is None
                &&& messages.element(0) matches Some(message) && {
                    &&& message.member("role"@) == Some(JsonTree::Text("user"@))
                    &&& message.member("content"@) matches Some(content) && {
                        &&& content.element(2) is None
                        &&& content.element(0) matches Some(told) && {
                            &&& told.member("type"@) == Some(JsonTree::Text("text"@))
                            &&& told.member("text"@) == Some(JsonTree::Text(TRANSCRIBE_SYSTEM@))
                        }
                        &&& content.element(1) matches Some(speech) && {
                            &&& speech.member("type"@) == Some(JsonTree::Text("input_audio"@))
                            &&& speech.member("input_audio"@) == Some(audio_tree(audio, format))
                        }
                    }
                }
            }
        }),
{
    reveal_strlit("model");
    reveal_strlit("messages");
    reveal_strlit("role");
    reveal_strlit("content");
    reveal_strlit("type");
    reveal_strlit("text");
    reveal_strlit("input_audio");
    assert("model"@.len() == 5 && "messages"@.len() == 8 && "role"@.len() == 4
        && "content"@.len() == 7 && "type"@.len() == 4 && "text"@.len() == 4
        && "input_audio"@.len() == 11);
    assert("type"@[1] != "text"@[1]);
    let told = seq![("type"@, JsonTree::Text("text"@)), ("text"@, JsonTree::Text(TRANSCRIBE_SYSTEM@))];
    law_objects_hold_their_members(told);
    assert(told[0].0 == "type"@ && told[1].0 == "text"@);
    let speech = seq![
        ("type"@, JsonTree::Text("input_audio"@)),
        ("input_audio"@, audio_tree(audio, format)),
    ];
    law_objects_hold_their_members(speech);
    assert(speech[0].0 == "type"@ && speech[1].0 == "input_audio"@);
    let content = JsonTree::List(
        seq![JsonTree::Object(object_of(told)), JsonTree::Object(object_of(speech))],
    );
    let message = seq![("role"@, JsonTree::Text("user"@)), ("content"@, content)];
    law_objects_hold_their_members(message);
    assert(message[0].0 == "role"@ && message[1].0 == "content"@);
    let messages = JsonTree::List(seq![JsonTree::Object(object_of(message))]);
    let asked = seq![("model"@, JsonTree::Text(model)), ("messages"@, messages)];
    law_objects_hold_their_members(asked);
    assert(asked[0].0 == "model"@ && asked[1].0 == "messages"@);
}

/// The prompts say what the models are to do.
pub proof fn law_prompts_ask_for_the_spoken_words()
    ensures
        TRANSCRIBE_SYSTEM@
            == "You are a speech-to-text engine. Transcribe ONLY the actual words spoken in the audio, verbatim, with no preamble, no commentary, and no markdown. If the audio is silent, contains no intelligible speech, or is just noise, return an empty string. Never invent, repeat, or add words that were not spoken. Do not describe the audio; do not add filler."@,
        STT_OMISSION_PROMPT@
            == "Transcribe every spoken word exactly as spoken. Do NOT omit, summarize, clean up, or truncate anything. Output all words, including any that follow pauses or occur at the very start or end of the audio. Do not combine or drop sentences."@,
{
}

/// Where the transcript stands in a reply: a speech service has it as `text`,
/// and a general model as the content of the message of its first choice.
pub proof fn law_the_transcript_is_found_in_its_place(reply: JsonTree, text: Seq<char>)
    ensures
        Service::Groq.transcript(reply) == Some(text) <==> reply.member("text"@) == Some(
            JsonTree::Text(text),
        ),
        Service::OpenRouterStt.transcript(reply) == Some(text) <==> reply.member("text"@) == Some(
            JsonTree::Text(text),
        ),
        Service::OpenRouterChat.transcript(reply) == Some(text) <==> (reply.member("choices"@)
            matches Some(choices) && (choices.element(0) matches Some(choice) && (choice.member(
            "message"@,
        ) matches Some(message) && message.member("content"@) == Some(JsonTree::Text(text))))),
{
}

/// A reply is read exactly where its status is from 200 to 299 and its body is
/// JSON with a transcript in its place, and the result is that transcript
/// without the white space at its ends, whole.
pub proof fn law_a_reply_gives_the_whole_transcript(
    service: Service,
    status: u16,
    body: Seq<char>,
    parsed: Option<JsonTree>,
    result: Result<String, ReplyError>,
)
    requires
        reply_meaning(service, status, body, parsed, result),
    ensures
        result is Ok <==> 200 <= status <= 299 && (parsed matches Some(tree)
            && service.transcript(tree) is Some),
        result matches Ok(text) ==> exists|before: Seq<char>, after: Seq<char>|
            is_blank(before) && is_blank(after) && service.transcript(parsed->0) == Some(
                #[trigger] (before + text@ + after),
            ),
        result matches Ok(text) ==> (text@.len() > 0 ==> !is_white(text@[0]) && !is_white(
            text@.last(),
        )),
{
    if let Ok(text) = result {
        let whole = service.transcript(parsed->0)->0;
        law_trimming_takes_only_white_ends(whole);
        let (before, after) = choose|before: Seq<char>, after: Seq<char>|
            is_blank(before) && is_blank(after) && whole == #[trigger] (before + trimmed(whole)
                + after);
        assert(service.transcript(parsed->0) == Some(before + text@ + after));
    }
}

/// A reply that cannot be read is told with its reason, and where that is the
/// status or what it holds, with its whole body.
pub proof fn law_a_bad_reply_is_told_with_its_reason(
    service: Service,
    status: u16,
    body: Seq<char>,
    parsed: Option<JsonTree>,
    result: Result<String, ReplyError>,
)
    requires
        reply_meaning(service, status, body, parsed, result),
    ensures
        status < 200 || status > 299 ==> (result matches Err(ReplyError::Http { status: s, body: b })
            && s == status && b@ == body),
        200 <= status <= 299 && parsed is None ==> result == Err::<String, ReplyError>(
            ReplyError::NotJson,
        ),
        200 <= status <= 299 && (parsed matches Some(tree) && service.transcript(tree) is None)
            ==> (result matches Err(ReplyError::Unexpected { body: b }) && b@ == body),
{
}

/// What the user is told of an error names the service, and shows the beginning
/// of a body: 400 bytes of it, or all of it.
pub proof fn law_errors_name_the_service(service: Service, status: u16, body: String)
    requires
        cuttable(body@, 400),
    ensures
        Service::Groq.label() == "Groq"@,
        Service::OpenRouterStt.label() == "OpenRouter STT"@,
        Service::OpenRouterChat.label() == "OpenRouter chat"@,
        ReplyError::RequestFailed.text(service) == service.label() + " request failed"@,
        ReplyError::Unreadable.text(service) == "reading "@ + service.label() + " response"@,
        ReplyError::NotJson.text(service) == "parsing "@ + service.label() + " response"@,
        ({
            let shown = truncated(body@, 400);
            &&& shown.is_prefix_of(body@)
            &&& encode_utf8(body@).len() <= 400 ==> shown == body@
            &&& encode_utf8(body@).len() > 400 ==> encode_utf8(shown).len() == 400
            &&& (ReplyError::Http { status, body }).text(service) == service.label() + " HTTP "@
                + status_text(status) + ": "@ + shown
            &&& (ReplyError::Unexpected { body }).text(service) == "unexpected "@ + service.label()
                + " response: "@ + shown
        }),
{
    law_a_cut_text_keeps_its_beginning(body@, 400);
}

/// Of all the ways in which the end of one list of words is the start of the
/// next, the longest is taken once, however long it is: what is built starts
/// with the first list, ends with the second, and holds nothing else.
pub proof fn law_the_longest_seam_is_taken_once(built: Seq<Seq<char>>, next: Seq<Seq<char>>)
    ensures
        ({
            let all = merged(built, next);
            let k = built.len() + next.len() - all.len();
            &&& built.is_prefix_of(all)
            &&& next.is_suffix_of(all)
            &&& 0 <= k <= built.len() && k <= next.len()
            &&& built.skip(built.len() - k) == next.take(k)
            &&& forall|longer: int|
                k < longer <= built.len() && longer <= next.len() ==> #[trigger] built.skip(
                    built.len() - longer,
                ) != next.take(longer)
        }),
{
    law_stitching_loses_no_word(built, next);
    let most = if built.len() <= next.len() {
        built.len()
    } else {
        next.len()
    };
    lemma_longest_overlap(built, next, most);
    let k = longest_overlap(built, next, most) as int;
    let all = merged(built, next);
    assert(all.len() == built.len() - k + next.len());
    assert forall|longer: int|
        k < longer <= built.len() && longer <= next.len() implies #[trigger] built.skip(
        built.len() - longer,
    ) != next.take(longer) by {
        if built.skip(built.len() - longer) == next.take(longer) {
            assert(is_overlap(built, next, longer));
            lemma_overlap_at_least(built, next, most, longer as nat);
        }
    }
    assert(built.is_prefix_of(all)) by {
        assert(all.take(built.len() as int) =~= built);
    }
    assert(next.is_suffix_of(all)) by {
        assert(all.skip(all.len() - next.len()) =~= next);
    }
}

/// Each further transcript adds its words to those that are there: all of them
/// but the ones of the longest seam. One transcript alone gives its words, and
/// none gives none.
pub proof fn law_stitching_adds_transcript_by_transcript(parts: Seq<Seq<char>>, part: Seq<char>)
    ensures
        stitched_words(Seq::empty()) == Seq::<Seq<char>>::empty(),
        stitched_words(seq![part]) == words(part),
        stitched_words(parts.push(part)) == merged(stitched_words(parts), words(part)),
{
    assert(parts.push(part).drop_last() =~= parts);
    if parts.len() == 0 {
        assert(parts.push(part) =~= seq![part]);
        assert(stitched_words(parts) =~= Seq::empty());
        law_the_longest_seam_is_taken_once(stitched_words(parts), words(part));
        assert(merged(stitched_words(parts), words(part)) =~= words(part));
    }
}

proof fn lemma_stitched_words_are_words(parts: Seq<Seq<char>>)
    ensures
        forall|i: int|
            0 <= i < stitched_words(parts).len() ==> is_word(#[trigger] stitched_words(parts)[i]),
    decreases parts.len(),
{
    if parts.len() == 1 {
        law_words_lose_no_character(parts[0]);
    } else if parts.len() > 1 {
        let built = stitched_words(parts.drop_last());
        let next = words(parts.last());
        lemma_stitched_words_are_words(parts.drop_last());
        law_words_lose_no_character(parts.last());
        law_stitching_loses_no_word(built, next);
        let all = merged(built, next);
        let keep = all.len() - next.len();
        assert forall|i: int| 0 <= i < all.len() implies is_word(#[trigger] all[i]) by {
            if i < built.len() {
                assert(all.take(built.len() as int)[i] == built[i]);
            } else {
                law_the_longest_seam_is_taken_once(built, next);
                assert(all.skip(keep)[i - keep] == next[i - keep]);
            }
        }
    }
}

/// The stitched text holds the stitched words and nothing else, with single
/// spaces between them.
pub proof fn law_stitched_text_holds_the_words(parts: Seq<Seq<char>>)
    ensures
        words(stitched(parts)) == stitched_words(parts),
        forall|i: int|
            #![trigger stitched(parts)[i]]
            0 <= i < stitched(parts).len() && is_white(stitched(parts)[i]) ==> {
                &&& stitched(parts)[i] == ' '
                &&& 0 < i < stitched(parts).len() - 1
                &&& !is_white(stitched(parts)[i - 1])
                &&& !is_white(stitched(parts)[i + 1])
            },
{
    lemma_stitched_words_are_words(parts);
    let list = stitched_words(parts);
    law_joined_words_are_split_again(list);
    let text = stitched(parts);
    assert forall|i: int|
        #![trigger text[i]]
        0 <= i < text.len() && is_white(text[i]) implies {
        &&& text[i] == ' '
        &&& 0 < i < text.len() - 1
        &&& !is_white(text[i - 1])
        &&& !is_white(text[i + 1])
    } by {
        law_joined_words_hold_single_spaces(list, i);
    }
}

/// The texts that are not empty are all of those that hold a character, in
/// order.
pub proof fn law_only_empty_texts_are_left_out(first: Seq<Seq<char>>, second: Seq<Seq<char>>)
    ensures
        non_empty(first + second) == non_empty(first) + non_empty(second),
        (forall|i: int| 0 <= i < first.len() ==> (#[trigger] first[i]).len() > 0) ==> non_empty(
            first,
        ) == first,
        (forall|i: int| 0 <= i < first.len() ==> (#[trigger] first[i]).len() == 0) ==> non_empty(
            first,
        ) == Seq::<Seq<char>>::empty(),
    decreases first.len(),
{
    if first.len() == 0 {
        assert(first + second =~= second);
        assert(non_empty(first) + non_empty(second) =~= non_empty(second));
        assert(first =~= Seq::empty());
    } else {
        let rest = first.skip(1);
        law_only_empty_texts_are_left_out(rest, second);
        assert((first + second).skip(1) =~= rest + second);
        assert(non_empty(first + second) =~= non_empty(first) + non_empty(second));
        if forall|i: int| 0 <= i < first.len() ==> (#[trigger] first[i]).len() > 0 {
            assert forall|i: int| 0 <= i < rest.len() implies (#[trigger] rest[i]).len() > 0 by {
                assert(rest[i] == first[i + 1]);
            }
            assert(first[0].len() > 0);
            assert(seq![first[0]] + rest =~= first);
        }
        if forall|i: int| 0 <= i < first.len() ==> (#[trigger] first[i]).len() == 0 {
            assert forall|i: int| 0 <= i < rest.len() implies (#[trigger] rest[i]).len() == 0 by {
                assert(rest[i] == first[i + 1]);
            }
            assert(first[0].len() == 0);
        }
    }
}

/// Long audio is asked about chunk by chunk: question `i` is about chunk `i`,
/// compressed where that is asked for, and there are as many questions as
/// chunks. The transcript is stitched, or joined by spaces, from all answers that
/// hold a character.
pub proof fn law_every_chunk_is_asked_about_once(
    wav: Seq<u8>,
    mp3: bool,
    chunks: Seq<Seq<u8>>,
    answers: Seq<Seq<char>>,
    mp3_of: spec_fn(Seq<u8>) -> Seq<u8>,
    i: int,
)
    requires
        answers.len() == chunks.len(),
        0 <= i < chunks.len(),
    ensures
        ({
            let plan = PlanView::Chunks(chunks);
            let (asked, text) = outcome(
                upload_started(wav, mp3, Joining::Stitch, plan),
                answers,
                mp3_of,
            );
            &&& asked.len() == chunks.len()
            &&& asked[i] == if mp3 {
                mp3_of(chunks[i])
            } else {
                chunks[i]
            }
            &&& text == Some(stitched(non_empty(answers)))
        }),
        ({
            let plan = PlanView::Chunks(chunks);
            let (asked, text) = outcome(
                upload_started(wav, mp3, Joining::Spaces, plan),
                answers,
                mp3_of,
            );
            &&& asked.len() == chunks.len()
            &&& asked[i] == if mp3 {
                mp3_of(chunks[i])
            } else {
                chunks[i]
            }
            &&& text == Some(joined(non_empty(answers), " "@))
        }),
{
    law_long_audio_goes_in_chunks(wav, mp3, Joining::Stitch, chunks, answers, mp3_of);
    law_long_audio_goes_in_chunks(wav, mp3, Joining::Spaces, chunks, answers, mp3_of);
}

/// Audio is sent whole exactly where it does not last longer than a chunk may;
/// longer audio is cut into chunks of that length that overlap by half a second,
/// or refused for the reason that it cannot be cut.
pub proof fn law_only_long_audio_is_cut(wav: Seq<u8>, max_chunk_ms: u32)
    ensures
        plan_of(wav, max_chunk_ms) == PlanView::Whole <==> !lasts_longer(wav, max_chunk_ms as nat),
        lasts_longer(wav, max_chunk_ms as nat) ==> plan_of(wav, max_chunk_ms) == match chunks_of(
            wav,
            max_chunk_ms,
            500,
        ) {
            Ok(list) => PlanView::Chunks(list),
            Err(e) => PlanView::Broken(e),
        },
        can_be_cut(wav, max_chunk_ms) <==> !lasts_longer(wav, max_chunk_ms as nat) || splittable(
            wav,
            max_chunk_ms,
            500,
        ),
{
}

/// Audio that has to be cut and cannot be is refused, once it was compressed
/// where that is asked for; nothing is asked about it.
pub proof fn law_broken_audio_is_refused(
    wav: Seq<u8>,
    mp3: bool,
    joining: Joining,
    error: WavError,
    answers: Seq<Seq<char>>,
    mp3_of: spec_fn(Seq<u8>) -> Seq<u8>,
)
    ensures
        ({
            let start = upload_started(wav, mp3, joining, PlanView::Broken(error));
            outcome(start, answers, mp3_of) == (Seq::<Seq<u8>>::empty(), None::<Seq<char>>)
        }),
        upload_started(wav, false, joining, PlanView::Broken(error)) == UploadStepView::Failed(
            error,
        ),
{
    reveal_with_fuel(outcome, 3);
}

/// A transcriber is seen as it is: its service, its key and its model are its
/// own.
pub proof fn law_a_transcriber_is_seen_whole(
    groq: GroqTranscriber,
    gemini: GeminiTranscriber,
    live: GeminiLiveTranscriber,
    gpt: OpenRouterSttTranscriber,
)
    ensures
        Transcriber::Groq(groq).provider() == Provider::Groq,
        Transcriber::Groq(groq).key() == groq.api_key@,
        Transcriber::Groq(groq).chosen_model() == groq.model@,
        Transcriber::Gemini(gemini).provider() == Provider::Gemini,
        Transcriber::Gemini(gemini).key() == gemini.api_key@,
        Transcriber::Gemini(gemini).chosen_model() == gemini.model@,
        Transcriber::Gemini(gemini).has_default_limits() <==> gemini.use_mp3 && gemini.max_chunk_ms
            == 20000,
        Transcriber::GeminiLive(live).provider() == Provider::GeminiLive,
        Transcriber::GeminiLive(live).key() == live.api_key@,
        Transcriber::GeminiLive(live).chosen_model() == live.model@,
        Transcriber::GeminiLive(live).has_default_limits() <==> live.max_chunk_ms == 100,
        Transcriber::GptTranscribe(gpt).provider() == Provider::GptTranscribe,
        Transcriber::GptTranscribe(gpt).key() == gpt.api_key@,
        Transcriber::GptTranscribe(gpt).chosen_model() == gpt.model@,
        Transcriber::GptTranscribe(gpt).has_default_limits() <==> gpt.use_mp3 && gpt.max_chunk_ms
            == 20000,
{
}

/// A refusal says which name is unknown, or what to do about the key that is
/// missing.
pub proof fn law_a_refusal_says_what_to_do(provider: Seq<char>, keys: ApiKeys)
    ensures
        Provider::named(provider) is None ==> refusal(provider, keys) == Some(
            "Unknown provider: "@ + debug_text(provider)
                + " (expected 'groq', 'gemini', 'gemini-live', or 'gpt-transcribe')"@,
        ),
        Provider::named(provider) matches Some(p) ==> (!is_set(keys.value(p.key_var())) ==> refusal(
            provider,
            keys,
        ) == Some(missing_key_text(p.key_var().spelled(), keys.another_set(p.key_var())))),
{
}

/// What a user is told where they have another key: which services they can
/// switch to.
pub proof fn law_a_user_with_another_key_is_told_to_switch()
    ensures
        missing_key_text("GROQ_API_KEY"@, true) == "No Groq API key found ("@ + "GROQ_API_KEY"@
            + " is not set). You already have an OpenRouter key: open Settings (gear icon) and switch Provider to \"GPT Transcribe (paid)\" or \"Gemini (OpenRouter)\", or add a free Groq key at "@
            + "https://console.groq.com/keys"@ + "."@,
        missing_key_text("OPENROUTER_API_KEY"@, true) == "No OpenRouter API key found ("@
            + "OPENROUTER_API_KEY"@
            + " is not set). You already have a Groq key: open Settings (gear icon) and switch Provider to \"Groq Whisper (free)\", or add an OpenRouter key at "@
            + "https://openrouter.ai/keys"@ + "."@,
        missing_key_text("GEMINI_API_KEY"@, true) == "No Gemini API key found ("@
            + "GEMINI_API_KEY"@
            + " is not set). Switch Provider to \"GPT Transcribe (paid)\", \"Groq Whisper (free)\", or \"Gemini (OpenRouter)\" with one of your existing keys, or add a Gemini key at "@
            + "https://aistudio.google.com/apikey"@ + "."@,
{
    reveal_strlit("GROQ_API_KEY");
    reveal_strlit("OPENROUTER_API_KEY");
    reveal_strlit("GEMINI_API_KEY");
    assert("GROQ_API_KEY"@.len() == 12 && "OPENROUTER_API_KEY"@.len() == 18
        && "GEMINI_API_KEY"@.len() == 14);
}

/// A user without any key is told the same, whichever is needed.
pub proof fn law_a_user_without_keys_is_told_where_to_get_one(needed: Seq<char>)
    ensures
        missing_key_text(needed, false)
            == "No API keys found. You need a Groq or OpenRouter key to transcribe. Get a free Groq key at "@
            + "https://console.groq.com/keys"@
            + " (free tier, no card required) or an OpenRouter key at "@
            + "https://openrouter.ai/keys"@
            + ", then open Settings (gear icon) in the app, paste it into the matching field, and press play again."@,
{
}

/// An error can be told wherever its status is one of HTTP and a character ends
/// where its body is cut.
pub proof fn law_ordinary_replies_can_be_told(status: u16, body: String)
    ensures
        ReplyError::RequestFailed.printable(),
        ReplyError::Unreadable.printable(),
        ReplyError::NotJson.printable(),
        (ReplyError::Http { status, body }).printable() <==> 100 <= status <= 999 && cuttable(
            body@,
            400,
        ),
        (ReplyError::Unexpected { body }).printable() <==> cuttable(body@, 400),
{
}

/// What an upload is made of is seen as it is.
pub proof fn law_uploads_are_seen_whole(
    upload: Upload,
    conversion: Conversion,
    question: Question,
    text: String,
    fields: Seq<(String, String)>,
    i: int,
)
    ensures
        upload@.mp3 == upload.mp3,
        upload@.joining == upload.joining,
        upload@.plan == upload.plan@,
        upload@.parts == views(upload.parts@),
        UploadStep::Done(text)@ == UploadStepView::Done(text@),
        UploadStep::Convert(conversion)@ == (UploadStepView::Convert {
            wav: conversion.wav@,
            whole: conversion.whole,
            upload: conversion.upload@,
        }),
        UploadStep::Ask(question)@ == (UploadStepView::Ask {
            audio: question.audio@,
            whole: question.whole,
            upload: question.upload@,
        }),
        pair_views(fields).len() == fields.len(),
        0 <= i < fields.len() ==> pair_views(fields)[i] == (fields[i].0@, fields[i].1@),
{
}

/// Plans and failures are seen as they are.
pub proof fn law_plans_are_seen_whole(list: Vec<Vec<u8>>, error: WavError)
    ensures
        Plan::Whole@ == PlanView::Whole,
        Plan::Chunks(list)@ == PlanView::Chunks(byte_views(list@)),
        Plan::Broken(error)@ == PlanView::Broken(error),
        UploadStep::Failed(error)@ == UploadStepView::Failed(error),
{
}

} // verus!
