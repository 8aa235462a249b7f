//! The Gemini Live API: live transcription over a WebSocket.
//!
//! A session opens with a setup message, streams raw 16-bit mono PCM at 16 kHz
//! in short chunks, marks the end of the audio, and then collects the texts
//! that the server finalizes.

use vstd::prelude::*;
use vstd::string::*;
use vstd::utf8::*;

use crate::client::non_empty;
use crate::encoding::{base64_fits, base64_of, base64_text, url_encoded, urlencode};
use crate::json::{
    fields_of, json_bool, json_list, json_member, json_object, json_parsed, json_string, json_text,
    json_tree, json_written, law_objects_hold_their_members, object_of, owned_tree, pair_object,
    parse_json, single_object, trees_of, JsonTree,
};
use crate::text::{
    can_truncate, contains, cuttable, decimal, decimal_digits, digits_value, is_blank, is_white, join,
    joined, law_a_cut_text_keeps_its_beginning, law_a_needle_is_found_anywhere,
    law_digits_spell_the_number, law_trimming_takes_only_white_ends, lossy, lossy_text, occurs, trim,
    trimmed, truncate, truncated, views,
};
use crate::wav::{law_written_audio_is_read_back, parse_wav, parsed, wav_bytes, WavError};

verus! {

pub const GEMINI_LIVE_WS: &'static str =
    "wss://generativelanguage.googleapis.com/ws/google.ai.generativelanguage.v1beta.GenerativeService.BidiGenerateContent";

/// Live transcription by the Gemini Live API.
#[derive(Debug)]
pub struct GeminiLiveTranscriber {
    pub api_key: String,
    pub model: String,
    pub max_chunk_ms: u32,
}

/// Why a session gave no transcript.
#[derive(Debug)]
pub enum LiveError {
    /// The audio is no WAV audio.
    NotWav(WavError),
    /// The audio is not what the service takes.
    Format { sample_rate: u32, channels: u16, bits_per_sample: u16 },
    /// The address of the service cannot be read.
    BadUrl(String),
    /// The address of the service names no host.
    NoHost,
    /// The host of the service could not be resolved.
    Unresolved,
    /// No address of the service took a connection; the last error, if any.
    Unreachable(Option<String>),
    /// The WebSocket handshake failed.
    Handshake(String),
    /// A message could not be sent.
    Unsent,
    /// A message could not be received.
    Unread(String),
    /// The service reports an error.
    Api(String),
    /// The service finalized no text.
    NoTranscript,
}

/// The mathematical content of a [`LiveError`].
#[verifier::ext_equal]
pub enum LiveErrorView {
    NotWav(WavError),
    Format { sample_rate: u32, channels: u16, bits_per_sample: u16 },
    BadUrl(Seq<char>),
    NoHost,
    Unresolved,
    Unreachable(Option<Seq<char>>),
    Handshake(Seq<char>),
    Unsent,
    Unread(Seq<char>),
    Api(Seq<char>),
    NoTranscript,
}

impl View for LiveError {
    type V = LiveErrorView;

    open spec fn view(&self) -> LiveErrorView {
        match self {
            LiveError::NotWav(e) => LiveErrorView::NotWav(*e),
            LiveError::Format { sample_rate, channels, bits_per_sample } => LiveErrorView::Format {
                sample_rate: *sample_rate,
                channels: *channels,
                bits_per_sample: *bits_per_sample,
            },
            LiveError::BadUrl(e) => LiveErrorView::BadUrl(e@),
            LiveError::NoHost => LiveErrorView::NoHost,
            LiveError::Unresolved => LiveErrorView::Unresolved,
            LiveError::Unreachable(Some(e)) => LiveErrorView::Unreachable(Some(e@)),
            LiveError::Unreachable(None) => LiveErrorView::Unreachable(None),
            LiveError::Handshake(e) => LiveErrorView::Handshake(e@),
            LiveError::Unsent => LiveErrorView::Unsent,
            LiveError::Unread(e) => LiveErrorView::Unread(e@),
            LiveError::Api(e) => LiveErrorView::Api(e@),
            LiveError::NoTranscript => LiveErrorView::NoTranscript,
        }
    }
}

impl LiveErrorView {
    /// Whether the user can be told: a character ends where an error that the
    /// service reports is cut.
    pub open spec fn printable(self) -> bool {
        match self {
            LiveErrorView::Api(e) => cuttable(e, 400),
            _ => true,
        }
    }

    /// What the user is told.
    pub open spec fn text(self) -> Seq<char> {
        match self {
            LiveErrorView::NotWav(_) => "parsing WAV for Gemini Live"@,
            LiveErrorView::Format { sample_rate, channels, bits_per_sample } =>
                "Gemini Live requires 16 kHz mono 16-bit PCM audio, got "@ + decimal_digits(
                sample_rate as nat,
            ) + " Hz / "@ + decimal_digits(channels as nat) + " ch / "@ + decimal_digits(
                bits_per_sample as nat,
            )
                + "-bit. Re-record or convert: ffmpeg -i in.wav -ar 16000 -ac 1 -acodec pcm_s16le out.wav"@,
            LiveErrorView::BadUrl(e) => "invalid Live API URL: "@ + e,
            LiveErrorView::NoHost => "Live API URL has no host"@,
            LiveErrorView::Unresolved => "resolving Gemini Live API host"@,
            LiveErrorView::Unreachable(Some(e)) => "could not connect to Gemini Live API: "@ + e,
            LiveErrorView::Unreachable(None) =>
                "could not connect to Gemini Live API: "@ + "no addresses"@,
            LiveErrorView::Handshake(e) => "Gemini Live WebSocket handshake: "@ + e,
            LiveErrorView::Unsent => "sending to Gemini Live API"@,
            LiveErrorView::Unread(e) => "reading from Gemini Live API: "@ + e,
            LiveErrorView::Api(e) => "Gemini Live API error: "@ + truncated(e, 400),
            LiveErrorView::NoTranscript => "Gemini Live returned no transcript for this audio"@,
        }
    }
}

impl LiveError {
    /// Whether the user can be told.
    pub fn can_print(&self) -> (possible: bool)
        ensures
            possible == self@.printable(),
    {
        match self {
            LiveError::Api(e) => can_truncate(e.as_str(), 400),
            _ => true,
        }
    }

    /// What the user is told.
    pub fn message(&self) -> (message: String)
        requires
            self@.printable(),
        ensures
            message@ == self@.text(),
    {
        match self {
            LiveError::NotWav(_) => "parsing WAV for Gemini Live".to_string(),
            LiveError::Format { sample_rate, channels, bits_per_sample } =>
                "Gemini Live requires 16 kHz mono 16-bit PCM audio, got ".to_string().concat(
                decimal(*sample_rate as u128).as_str(),
            ).concat(" Hz / ").concat(decimal(*channels as u128).as_str()).concat(" ch / ").concat(
                decimal(*bits_per_sample as u128).as_str(),
            ).concat(
                "-bit. Re-record or convert: ffmpeg -i in.wav -ar 16000 -ac 1 -acodec pcm_s16le out.wav",
            ),
            LiveError::BadUrl(e) => "invalid Live API URL: ".to_string().concat(e.as_str()),
            LiveError::NoHost => "Live API URL has no host".to_string(),
            LiveError::Unresolved => "resolving Gemini Live API host".to_string(),
            LiveError::Unreachable(Some(e)) =>
                "could not connect to Gemini Live API: ".to_string().concat(e.as_str()),
            LiveError::Unreachable(None) =>
                "could not connect to Gemini Live API: ".to_string().concat("no addresses"),
            LiveError::Handshake(e) => "Gemini Live WebSocket handshake: ".to_string().concat(
                e.as_str(),
            ),
            LiveError::Unsent => "sending to Gemini Live API".to_string(),
            LiveError::Unread(e) => "reading from Gemini Live API: ".to_string().concat(e.as_str()),
            LiveError::Api(e) => "Gemini Live API error: ".to_string().concat(
                truncate(e.as_str(), 400),
            ),
            LiveError::NoTranscript =>
                "Gemini Live returned no transcript for this audio".to_string(),
        }
    }
}

// ---------------------------------------------------------------------------
// What is sent
// ---------------------------------------------------------------------------

/// The samples of WAV audio that the service takes, or why it does not.
pub open spec fn live_audio(wav: Seq<u8>) -> Result<Seq<u8>, LiveErrorView> {
    match parsed(wav) {
        Err(e) => Err(LiveErrorView::NotWav(e)),
        Ok(w) => if w.sample_rate == 16000 && w.channels == 1 && w.bits_per_sample == 16 {
            Ok(w.data)
        } else {
            Err(
                LiveErrorView::Format {
                    sample_rate: w.sample_rate,
                    channels: w.channels,
                    bits_per_sample: w.bits_per_sample,
                },
            )
        },
    }
}

/// The message that opens a session.
pub open spec fn setup_tree(model: Seq<char>, language: Option<&str>) -> JsonTree {
    let codes = match language {
        Some(l) => seq![JsonTree::Text(l@)],
        None => Seq::empty(),
    };
    let modalities = JsonTree::List(seq![JsonTree::Text("TEXT"@)]);
    let setup = JsonTree::Object(
        object_of(
            seq![
                ("model"@, JsonTree::Text("models/"@ + model)),
                (
                    "generationConfig"@,
                    JsonTree::Object(object_of(seq![("responseModalities"@, modalities)])),
                ),
                (
                    "inputAudioTranscription"@,
                    JsonTree::Object(object_of(seq![("languageCodes"@, JsonTree::List(codes))])),
                ),
            ],
        ),
    );
    JsonTree::Object(object_of(seq![("setup"@, setup)]))
}

/// The message that carries some samples.
pub open spec fn audio_message_tree(pcm: Seq<u8>) -> JsonTree {
    let audio = JsonTree::Object(
        object_of(
            seq![
                ("data"@, JsonTree::Text(base64_of(pcm))),
                ("mimeType"@, JsonTree::Text("audio/pcm;rate=16000"@)),
            ],
        ),
    );
    let input = JsonTree::Object(object_of(seq![("audio"@, audio)]));
    JsonTree::Object(object_of(seq![("realtimeInput"@, input)]))
}

/// The message that marks the end of the audio.
pub open spec fn end_message_tree() -> JsonTree {
    let input = JsonTree::Object(object_of(seq![("audioStreamEnd"@, JsonTree::Bool(true))]));
    JsonTree::Object(object_of(seq![("realtimeInput"@, input)]))
}

/// How many bytes of samples one message carries: those of `max_chunk_ms`
/// milliseconds, and one sample at least.
pub open spec fn chunk_bytes(max_chunk_ms: u32) -> nat {
    let samples = 16000 * max_chunk_ms as nat / 1000;
    if samples > 1 {
        2 * samples
    } else {
        2
    }
}

/// Bytes cut into runs of `n`; the last may be shorter.
pub open spec fn runs(bytes: Seq<u8>, n: nat) -> Seq<Seq<u8>>
    decreases bytes.len(),
{
    if bytes.len() == 0 || n == 0 {
        Seq::empty()
    } else if bytes.len() <= n {
        seq![bytes]
    } else {
        seq![bytes.take(n as int)] + runs(bytes.skip(n as int), n)
    }
}

/// How many milliseconds pass after message `i` of a stream of `n` messages
/// before the next: as many as a chunk lasts, and none after the mark of the
/// end, which is the last.
pub open spec fn wait_after(max_chunk_ms: u32, i: int, n: int) -> u32 {
    if i + 1 < n {
        max_chunk_ms
    } else {
        0
    }
}

/// The messages that carry the given runs of samples.
pub open spec fn audio_messages(list: Seq<Seq<u8>>) -> Seq<Seq<char>> {
    Seq::new(list.len(), |i: int| json_text(audio_message_tree(list[i])))
}

fn audio_message(pcm: &[u8]) -> (message: String)
    requires
        base64_fits(pcm@.len()),
    ensures
        message@ == json_text(audio_message_tree(pcm@)),
{
    let audio = pair_object(
        "data",
        json_string(base64_text(pcm).as_str()),
        "mimeType",
        json_string("audio/pcm;rate=16000"),
    );
    json_written(&single_object("realtimeInput", single_object("audio", audio)))
}

impl GeminiLiveTranscriber {
    pub fn new(api_key: &str, model: &str) -> (t: Self)
        ensures
            t.api_key@ == api_key@,
            t.model@ == model@,
            t.max_chunk_ms == 100,
    {
        GeminiLiveTranscriber {
            api_key: api_key.to_string(),
            model: model.to_string(),
            max_chunk_ms: 100,
        }
    }

    /// The samples to send of some WAV audio, or why it cannot be sent. The
    /// service takes 16-bit mono audio at 16 kHz, as it is recorded here;
    /// nothing is resampled.
    pub fn samples(&self, wav: &[u8]) -> (result: Result<Vec<u8>, LiveError>)
        ensures
            match result {
                Ok(pcm) => live_audio(wav@) == Ok::<Seq<u8>, LiveErrorView>(pcm@),
                Err(e) => live_audio(wav@) == Err::<Seq<u8>, LiveErrorView>(e@),
            },
    {
        match parse_wav(wav) {
            Err(e) => Err(LiveError::NotWav(e)),
            Ok(w) => {
                if w.sample_rate != 16000 || w.channels != 1 || w.bits_per_sample != 16 {
                    return Err(
                        LiveError::Format {
                            sample_rate: w.sample_rate,
                            channels: w.channels,
                            bits_per_sample: w.bits_per_sample,
                        },
                    );
                }
                Ok(w.data)
            },
        }
    }

    /// The address of a session.
    pub fn url(&self) -> (url: String)
        ensures
            url@ == GEMINI_LIVE_WS@ + "?key="@ + url_encoded(encode_utf8(self.api_key@)),
    {
        GEMINI_LIVE_WS.to_string().concat("?key=").concat(urlencode(self.api_key.as_str()).as_str())
    }

    /// The message that opens a session.
    pub fn setup(&self, language: Option<&str>) -> (message: String)
        ensures
            message@ == json_text(setup_tree(self.model@, language)),
    {
        let mut codes: Vec<serde_json::Value> = Vec::new();
        if let Some(l) = language {
            codes.push(json_string(l));
        }
        let ghost code_trees = match language {
            Some(l) => seq![JsonTree::Text(l@)],
            None => Seq::empty(),
        };
        assert(trees_of(codes@) =~= code_trees);
        let mut modalities: Vec<serde_json::Value> = Vec::new();
        modalities.push(json_string("TEXT"));
        assert(trees_of(modalities@) =~= seq![JsonTree::Text("TEXT"@)]);
        let config = single_object("responseModalities", json_list(modalities));
        let transcription = single_object("languageCodes", json_list(codes));
        let mut setup: Vec<(String, serde_json::Value)> = Vec::new();
        let model = "models/".to_string().concat(self.model.as_str());
        setup.push(("model".to_string(), json_string(model.as_str())));
        setup.push(("generationConfig".to_string(), config));
        setup.push(("inputAudioTranscription".to_string(), transcription));
        assert(fields_of(setup@) =~= seq![
            ("model"@, JsonTree::Text("models/"@ + self.model@)),
            ("generationConfig"@, json_tree(config)),
            ("inputAudioTranscription"@, json_tree(transcription)),
        ]);
        json_written(&single_object("setup", json_object(setup)))
    }

    /// How many milliseconds the sender waits after message `i` of a stream of
    /// `n` messages. Text is finalized only for audio that arrives at its own
    /// pace.
    pub fn pause_after(&self, i: usize, n: usize) -> (ms: u32)
        ensures
            ms == wait_after(self.max_chunk_ms, i as int, n as int),
    {
        if n > 0 && i < n - 1 {
            self.max_chunk_ms
        } else {
            0
        }
    }

    /// The messages that stream the audio, in order: its chunks and the mark of
    /// its end.
    pub fn stream(&self, pcm: &[u8]) -> (messages: Vec<String>)
        requires
            base64_fits(pcm@.len()),
        ensures
            views(messages@) == audio_messages(runs(pcm@, chunk_bytes(self.max_chunk_ms))).push(
                json_text(end_message_tree()),
            ),
    {
        let samples: u64 = 16000 * self.max_chunk_ms as u64 / 1000;
        let step: u64 = if samples > 1 {
            2 * samples
        } else {
            2
        };
        let ghost n = chunk_bytes(self.max_chunk_ms);
        assert(step == n);
        let total: usize = pcm.len();
        let mut messages: Vec<String> = Vec::new();
        let mut i: usize = 0;
        assert(pcm@.skip(0) =~= pcm@);
        assert(views(messages@) + audio_messages(runs(pcm@, n)) =~= audio_messages(runs(pcm@, n)));
        while i < total
            invariant
                total == pcm@.len(),
                base64_fits(pcm@.len()),
                step == n,
                n > 0,
                0 <= i <= total,
                audio_messages(runs(pcm@, n)) == views(messages@) + audio_messages(
                    runs(pcm@.skip(i as int), n),
                ),
            decreases total - i,
        {
            let ghost rest = pcm@.skip(i as int);
            let ghost before = views(messages@);
            let left: usize = total - i;
            let end: usize = if step < left as u64 {
                i + step as usize
            } else {
                total
            };
            messages.push(audio_message(&pcm[i..end]));
            proof {
                let chunk = pcm@.subrange(i as int, end as int);
                assert(pcm@.skip(end as int) =~= rest.skip(end - i));
                let later = runs(pcm@.skip(end as int), n);
                if step < left {
                    assert(chunk =~= rest.take(n as int));
                    assert(runs(rest, n) =~= seq![chunk] + later);
                } else {
                    assert(chunk =~= rest);
                    assert(runs(rest, n) =~= seq![chunk] + later);
                }
                assert(audio_messages(runs(rest, n)) =~= seq![
                    json_text(audio_message_tree(chunk)),
                ] + audio_messages(later));
                assert(views(messages@) =~= before.push(json_text(audio_message_tree(chunk))));
                assert(before + audio_messages(runs(rest, n)) =~= views(messages@)
                    + audio_messages(later));
            }
            i = end;
        }
        assert(pcm@.skip(i as int) =~= Seq::empty());
        assert(audio_messages(runs(pcm@, n)) =~= views(messages@));
        let ghost chunks = views(messages@);
        let input = single_object("audioStreamEnd", json_bool(true));
        messages.push(json_written(&single_object("realtimeInput", input)));
        assert(views(messages@) =~= chunks.push(json_text(end_message_tree())));
        messages
    }
}

/// Audio that is recorded at 16 kHz, written as 16-bit mono WAV, is what the
/// service takes: its samples are sent as they are.
pub proof fn law_recordings_are_taken(pcm: Seq<u8>)
    requires
        0 < pcm.len() <= u32::MAX - 36,
    ensures
        live_audio(wav_bytes(1, 16, 16000, pcm)) == Ok::<Seq<u8>, LiveErrorView>(pcm),
{
    law_written_audio_is_read_back(1, 16, 16000, pcm);
}

/// Runs of bytes put together.
pub open spec fn put_together(list: Seq<Seq<u8>>) -> Seq<u8>
    decreases list.len(),
{
    if list.len() == 0 {
        Seq::empty()
    } else {
        list[0] + put_together(list.skip(1))
    }
}

/// Audio is sent at its own pace: after each chunk the sender waits for at least
/// as long as the chunk lasts, at 32 bytes in a millisecond, and after the mark
/// of the end it does not wait.
pub proof fn law_audio_is_sent_at_its_own_pace(pcm: Seq<u8>, max_chunk_ms: u32, i: int)
    requires
        max_chunk_ms > 0,
        0 <= i <= runs(pcm, chunk_bytes(max_chunk_ms)).len(),
    ensures
        ({
            let chunks = runs(pcm, chunk_bytes(max_chunk_ms));
            let messages = audio_messages(chunks).push(json_text(end_message_tree()));
            let wait = wait_after(max_chunk_ms, i, messages.len() as int);
            &&& i < chunks.len() ==> wait == max_chunk_ms && chunks[i].len() <= 32 * wait
            &&& i == chunks.len() ==> wait == 0
        }),
{
    law_stream_loses_nothing(pcm, chunk_bytes(max_chunk_ms));
}

/// The chunks that are streamed are the audio, in order and complete, and none
/// is longer than a chunk may be.
pub proof fn law_stream_loses_nothing(pcm: Seq<u8>, n: nat)
    requires
        n > 0,
    ensures
        put_together(runs(pcm, n)) == pcm,
        forall|i: int|
            0 <= i < runs(pcm, n).len() ==> 0 < (#[trigger] runs(pcm, n)[i]).len() <= n,
    decreases pcm.len(),
{
    reveal_with_fuel(put_together, 2);
    if pcm.len() == 0 {
        assert(pcm =~= Seq::empty());
    } else if pcm.len() <= n {
        assert(runs(pcm, n).skip(1) =~= Seq::empty());
        assert(pcm + Seq::<u8>::empty() =~= pcm);
    } else {
        let rest = runs(pcm.skip(n as int), n);
        law_stream_loses_nothing(pcm.skip(n as int), n);
        assert(runs(pcm, n).skip(1) =~= rest);
        assert(pcm.take(n as int) + pcm.skip(n as int) =~= pcm);
        assert forall|i: int| 0 <= i < runs(pcm, n).len() implies 0 < (#[trigger] runs(
            pcm,
            n,
        )[i]).len() <= n by {
            if i > 0 {
                assert(runs(pcm, n)[i] == rest[i - 1]);
            }
        }
    }
}

// ---------------------------------------------------------------------------
// What is received
// ---------------------------------------------------------------------------

/// A message of the server.
#[derive(Debug)]
pub enum Frame {
    Text(String),
    Binary(Vec<u8>),
    Ping(Vec<u8>),
    Close,
    Other,
}

/// What the receiver does after a message or an error.
#[derive(Debug)]
pub enum Reaction {
    /// Wait for the next message.
    Continue,
    /// Answer a ping with these bytes, and wait for the next message.
    Pong(Vec<u8>),
    /// Stop: nothing more will be finalized.
    Finish,
    /// Give up.
    Fail(LiveError),
}

/// The mathematical content of a [`Reaction`].
#[verifier::ext_equal]
pub enum ReactionView {
    Continue,
    Pong(Seq<u8>),
    Finish,
    Fail(LiveErrorView),
}

impl View for Reaction {
    type V = ReactionView;

    open spec fn view(&self) -> ReactionView {
        match self {
            Reaction::Continue => ReactionView::Continue,
            Reaction::Pong(p) => ReactionView::Pong(p@),
            Reaction::Finish => ReactionView::Finish,
            Reaction::Fail(e) => ReactionView::Fail(e@),
        }
    }
}

/// The member of a member.
pub open spec fn inner(tree: Option<JsonTree>, key: Seq<char>) -> Option<JsonTree> {
    match tree {
        Some(t) => t.member(key),
        None => None,
    }
}

/// Whether a member is there and true.
pub open spec fn is_true(tree: Option<JsonTree>) -> bool {
    tree matches Some(t) && t.as_truth() == Some(true)
}

/// The text that a message finalizes, without white space at either end: empty
/// where it finalizes none.
pub open spec fn heard(message: JsonTree) -> Seq<char> {
    match inner(inner(message.member("serverContent"@), "inputTranscription"@), "text"@) {
        Some(t) => match t.as_text() {
            Some(s) => trimmed(s),
            None => Seq::empty(),
        },
        None => Seq::empty(),
    }
}

/// Whether a message ends the turn.
pub open spec fn ends_turn(message: JsonTree) -> bool {
    let content = message.member("serverContent"@);
    is_true(inner(content, "generationComplete"@)) || is_true(inner(content, "turnComplete"@))
}

/// The texts after a message (`None` where it is no JSON).
pub open spec fn parts_after(parts: Seq<Seq<char>>, message: Option<JsonTree>) -> Seq<Seq<char>> {
    match message {
        Some(m) => if m.member("error"@) is None && heard(m).len() > 0 {
            parts.push(heard(m))
        } else {
            parts
        },
        None => parts,
    }
}

/// What is done after a message (`None` where it is no JSON).
pub open spec fn reaction_to(message: Option<JsonTree>) -> ReactionView {
    match message {
        Some(m) => match m.member("error"@) {
            Some(e) => ReactionView::Fail(LiveErrorView::Api(json_text(e))),
            None => if ends_turn(m) {
                ReactionView::Finish
            } else {
                ReactionView::Continue
            },
        },
        None => ReactionView::Continue,
    }
}

/// What a frame holds as JSON, if it holds any.
pub open spec fn frame_tree(frame: Frame) -> Option<JsonTree> {
    match frame {
        Frame::Text(t) => json_parsed(t@),
        Frame::Binary(b) => json_parsed(lossy_text(b@)),
        _ => None,
    }
}

/// Whether a read error only means that nothing more is on its way.
pub open spec fn is_quiet(error: Seq<char>) -> bool {
    ||| occurs(error, "timed out"@)
    ||| occurs(error, "WouldBlock"@)
    ||| occurs(error, "Resource temporarily unavailable"@)
    ||| occurs(error, "Connection reset"@)
}

fn truth(value: Option<&serde_json::Value>) -> (is: bool)
    ensures
        is == is_true(
            match value {
                Some(v) => Some(json_tree(*v)),
                None => None,
            },
        ),
{
    match value {
        Some(v) => match v.as_bool() {
            Some(b) => b,
            None => false,
        },
        None => false,
    }
}

fn finalized(message: &serde_json::Value) -> (text: String)
    ensures
        text@ == heard(json_tree(*message)),
{
    if let Some(content) = json_member(message, "serverContent") {
        if let Some(transcription) = json_member(content, "inputTranscription") {
            if let Some(text) = json_member(transcription, "text") {
                if let Some(s) = text.as_str() {
                    return trim(s);
                }
            }
        }
    }
    let text = String::new();
    assert(text@ =~= Seq::empty());
    text
}

/// Collects the texts that the server finalizes.
#[derive(Debug)]
pub struct Collector {
    pub parts: Vec<String>,
}

impl Collector {
    pub fn new() -> (collector: Self)
        ensures
            views(collector.parts@) == Seq::<Seq<char>>::empty(),
    {
        let parts: Vec<String> = Vec::new();
        assert(views(parts@) =~= Seq::empty());
        Collector { parts }
    }

    /// What is done before a read, given whether the time for reading is over:
    /// nothing more is read then, and what was collected counts.
    pub fn before_read(&self, overdue: bool) -> (reaction: Reaction)
        ensures
            reaction@ == if overdue {
                ReactionView::Finish
            } else {
                ReactionView::Continue
            },
    {
        if overdue {
            Reaction::Finish
        } else {
            Reaction::Continue
        }
    }

    /// Takes a message that was read as JSON (`None` where it is none).
    pub fn on_message(&mut self, message: Option<serde_json::Value>) -> (reaction: Reaction)
        ensures
            views(final(self).parts@) == parts_after(views(old(self).parts@), owned_tree(message)),
            reaction@ == reaction_to(owned_tree(message)),
    {
        let message = match message {
            Some(m) => m,
            None => {
                return Reaction::Continue;
            },
        };
        if let Some(e) = json_member(&message, "error") {
            return Reaction::Fail(LiveError::Api(json_written(e)));
        }
        let text = finalized(&message);
        let ghost before = views(self.parts@);
        if !text.as_str().is_empty() {
            self.parts.push(text);
            assert(views(self.parts@) =~= before.push(heard(json_tree(message))));
        }
        if let Some(content) = json_member(&message, "serverContent") {
            if truth(json_member(content, "generationComplete")) {
                return Reaction::Finish;
            }
            if truth(json_member(content, "turnComplete")) {
                return Reaction::Finish;
            }
        }
        Reaction::Continue
    }

    /// Takes a frame. Texts come in text frames and in binary frames alike.
    pub fn on_frame(&mut self, frame: Frame) -> (reaction: Reaction)
        ensures
            views(final(self).parts@) == parts_after(views(old(self).parts@), frame_tree(frame)),
            reaction@ == match frame {
                Frame::Ping(p) => ReactionView::Pong(p@),
                Frame::Close => ReactionView::Finish,
                _ => reaction_to(frame_tree(frame)),
            },
    {
        match frame {
            Frame::Text(t) => self.on_message(parse_json(t.as_str())),
            Frame::Binary(b) => self.on_message(parse_json(lossy(&b).as_str())),
            Frame::Ping(p) => Reaction::Pong(p),
            Frame::Close => Reaction::Finish,
            Frame::Other => Reaction::Continue,
        }
    }

    /// Takes an error of the connection.
    pub fn on_read_error(&self, error: &str) -> (reaction: Reaction)
        ensures
            reaction@ == if is_quiet(error@) {
                ReactionView::Finish
            } else {
                ReactionView::Fail(LiveErrorView::Unread(error@))
            },
    {
        if contains(error, "timed out") || contains(error, "WouldBlock") || contains(
            error,
            "Resource temporarily unavailable",
        ) || contains(error, "Connection reset") {
            Reaction::Finish
        } else {
            Reaction::Fail(LiveError::Unread(error.to_string()))
        }
    }

    /// The transcript of the texts that were collected: none where there is no
    /// text.
    pub open spec fn collected(self) -> Option<Seq<char>> {
        if self.parts@.len() > 0 {
            Some(joined(views(self.parts@), " "@))
        } else {
            None
        }
    }

    /// The transcript: the texts joined by spaces. No text at all is an error.
    pub fn finish(self) -> (result: Result<String, LiveError>)
        ensures
            match result {
                Ok(text) => self.parts@.len() > 0 && text@ == joined(views(self.parts@), " "@),
                Err(e) => self.parts@.len() == 0 && e == LiveError::NoTranscript,
            },
            match result {
                Ok(text) => self.collected() == Some(text@),
                Err(_) => self.collected() is None,
            },
    {
        if self.parts.len() == 0 {
            return Err(LiveError::NoTranscript);
        }
        Ok(join(&self.parts, " "))
    }
}

/// The texts after several messages.
pub open spec fn parts_after_all(
    parts: Seq<Seq<char>>,
    messages: Seq<Option<JsonTree>>,
) -> Seq<Seq<char>>
    decreases messages.len(),
{
    if messages.len() == 0 {
        parts
    } else {
        parts_after_all(parts_after(parts, messages[0]), messages.skip(1))
    }
}

/// What each message finalizes: nothing where it is no JSON or an error.
pub open spec fn heard_in(messages: Seq<Option<JsonTree>>) -> Seq<Seq<char>> {
    Seq::new(
        messages.len(),
        |i: int|
            match messages[i] {
                Some(m) => if m.member("error"@) is None {
                    heard(m)
                } else {
                    Seq::empty()
                },
                None => Seq::empty(),
            },
    )
}

/// The texts that are collected are those that the messages finalize, in order
/// and complete: none is lost, changed or taken twice.
pub proof fn law_all_that_is_heard_is_collected(
    parts: Seq<Seq<char>>,
    messages: Seq<Option<JsonTree>>,
)
    ensures
        parts_after_all(parts, messages) == parts + non_empty(heard_in(messages)),
    decreases messages.len(),
{
    let texts = heard_in(messages);
    if messages.len() == 0 {
        assert(parts + non_empty(texts) =~= parts);
    } else {
        let next = parts_after(parts, messages[0]);
        law_all_that_is_heard_is_collected(next, messages.skip(1));
        assert(heard_in(messages.skip(1)) =~= texts.skip(1));
        if texts[0].len() > 0 {
            assert(next =~= parts.push(texts[0]));
        } else {
            assert(next =~= parts);
        }
        assert(next + non_empty(texts.skip(1)) =~= parts + non_empty(texts));
    }
}

/// A message without an error adds the text that it finalizes, whether it ends
/// the turn or not.
pub proof fn law_last_text_counts(parts: Seq<Seq<char>>, message: JsonTree)
    requires
        message.member("error"@) is None,
        heard(message).len() > 0,
    ensures
        parts_after(parts, Some(message)) == parts.push(heard(message)),
        reaction_to(Some(message)) == if ends_turn(message) {
            ReactionView::Finish
        } else {
            ReactionView::Continue
        },
{
}

// ---------------------------------------------------------------------------
// Where it is sent
// ---------------------------------------------------------------------------

/// The host and the port of an address, or why it is none.
pub uninterp spec fn uri_read(url: Seq<char>) -> Result<
    (Option<Seq<char>>, Option<u16>),
    Seq<char>,
>;

/// The characters of a host, or of an error.
pub open spec fn uri_view(read: Result<(Option<String>, Option<u16>), String>) -> Result<
    (Option<Seq<char>>, Option<u16>),
    Seq<char>,
> {
    match read {
        Ok((Some(host), port)) => Ok((Some(host@), port)),
        Ok((None, port)) => Ok((None, port)),
        Err(e) => Err(e@),
    }
}

/// `parse` into the `Uri` of http that tungstenite uses, with its `host` and
/// `port_u16`, or the text of the error: they depend on the address alone.
#[verifier::external_body]
fn read_uri(url: &str) -> (read: Result<(Option<String>, Option<u16>), String>)
    ensures
        uri_view(read) == uri_read(url@),
{
    match url.parse::<tungstenite::http::Uri>() {
        Ok(uri) => Ok((uri.host().map(|h| h.to_string()), uri.port_u16())),
        Err(e) => Err(e.to_string()),
    }
}

/// The host and port of an address whose parts were read. The port is 443 where
/// the address names none.
pub open spec fn authority(read: Result<(Option<Seq<char>>, Option<u16>), Seq<char>>) -> Result<
    Seq<char>,
    LiveErrorView,
> {
    match read {
        Err(e) => Err(LiveErrorView::BadUrl(e)),
        Ok((None, _)) => Err(LiveErrorView::NoHost),
        Ok((Some(host), port)) => Ok(
            host + ":"@ + decimal_digits(
                match port {
                    Some(p) => p as nat,
                    None => 443,
                },
            ),
        ),
    }
}

/// The host and port to connect to, from the parts of an address.
pub fn endpoint_of(read: Result<(Option<String>, Option<u16>), String>) -> (result: Result<
    String,
    LiveError,
>)
    ensures
        match result {
            Ok(text) => authority(uri_view(read)) == Ok::<Seq<char>, LiveErrorView>(text@),
            Err(e) => authority(uri_view(read)) == Err::<Seq<char>, LiveErrorView>(e@),
        },
{
    match read {
        Err(e) => Err(LiveError::BadUrl(e)),
        Ok((None, _)) => Err(LiveError::NoHost),
        Ok((Some(host), port)) => {
            let port: u16 = match port {
                Some(p) => p,
                None => 443,
            };
            Ok(host.concat(":").concat(decimal(port as u128).as_str()))
        },
    }
}

/// The host and port to connect to.
pub fn endpoint(url: &str) -> (result: Result<String, LiveError>)
    ensures
        match result {
            Ok(text) => authority(uri_read(url@)) == Ok::<Seq<char>, LiveErrorView>(text@),
            Err(e) => authority(uri_read(url@)) == Err::<Seq<char>, LiveErrorView>(e@),
        },
{
    endpoint_of(read_uri(url))
}

/// The places below `n` where `v6` is `wanted`, in order.
pub open spec fn places(v6: Seq<bool>, wanted: bool, n: nat) -> Seq<usize>
    decreases n,
{
    if n == 0 {
        Seq::empty()
    } else {
        let before = places(v6, wanted, (n - 1) as nat);
        if v6[n - 1] == wanted {
            before.push((n - 1) as usize)
        } else {
            before
        }
    }
}

/// The order in which addresses are tried: those of IPv4 first, since the
/// service answers only there, then those of IPv6, each group as it was
/// resolved.
pub open spec fn ipv4_first(v6: Seq<bool>) -> Seq<usize> {
    places(v6, false, v6.len()) + places(v6, true, v6.len())
}

/// The order in which addresses are tried, from whether each is one of IPv6.
pub fn connect_order(v6: &[bool]) -> (order: Vec<usize>)
    ensures
        order@ == ipv4_first(v6@),
{
    let mut order: Vec<usize> = Vec::new();
    let mut later: Vec<usize> = Vec::new();
    let mut i: usize = 0;
    while i < v6.len()
        invariant
            0 <= i <= v6@.len(),
            order@ == places(v6@, false, i as nat),
            later@ == places(v6@, true, i as nat),
        decreases v6@.len() - i,
    {
        if v6[i] {
            later.push(i);
        } else {
            order.push(i);
        }
        i += 1;
    }
    order.append(&mut later);
    order
}

proof fn lemma_places(v6: Seq<bool>, wanted: bool, n: nat)
    requires
        n <= v6.len() <= usize::MAX,
    ensures
        forall|k: int|
            0 <= k < places(v6, wanted, n).len() ==> (#[trigger] places(v6, wanted, n)[k]) < n
                && v6[places(v6, wanted, n)[k] as int] == wanted,
        forall|k: int, l: int|
            0 <= k < l < places(v6, wanted, n).len() ==> (#[trigger] places(v6, wanted, n)[k])
                < (#[trigger] places(v6, wanted, n)[l]),
        forall|i: usize|
            i < n && v6[i as int] == wanted ==> #[trigger] places(v6, wanted, n).contains(i),
    decreases n,
{
    if n > 0 {
        let before = places(v6, wanted, (n - 1) as nat);
        let after = places(v6, wanted, n);
        lemma_places(v6, wanted, (n - 1) as nat);
        assert forall|i: usize| i < n && v6[i as int] == wanted implies #[trigger] after.contains(
            i,
        ) by {
            if i < n - 1 {
                let k = choose|k: int| 0 <= k < before.len() && before[k] == i;
                assert(before.contains(i));
                assert(after[k] == i);
            } else {
                assert(after[after.len() - 1] == i);
            }
        }
    }
}

/// Every address is tried once: each place stands in the order exactly once.
pub proof fn law_every_address_is_tried(v6: Seq<bool>)
    requires
        v6.len() <= usize::MAX,
    ensures
        forall|i: usize| i < v6.len() ==> #[trigger] ipv4_first(v6).contains(i),
        ipv4_first(v6).no_duplicates(),
{
    lemma_places(v6, false, v6.len());
    lemma_places(v6, true, v6.len());
    let a = places(v6, false, v6.len());
    let b = places(v6, true, v6.len());
    assert forall|i: usize| i < v6.len() implies #[trigger] ipv4_first(v6).contains(i) by {
        if v6[i as int] {
            assert(b.contains(i));
            let k = choose|k: int| 0 <= k < b.len() && b[k] == i;
            assert((a + b)[a.len() + k] == i);
        } else {
            assert(a.contains(i));
            let k = choose|k: int| 0 <= k < a.len() && a[k] == i;
            assert((a + b)[k] == i);
        }
    }
}

/// No address of IPv6 is tried before one of IPv4.
pub proof fn law_ipv4_goes_first(v6: Seq<bool>, k: int, l: int)
    requires
        v6.len() <= usize::MAX,
        0 <= k < l < ipv4_first(v6).len(),
        v6[ipv4_first(v6)[k] as int],
    ensures
        v6[ipv4_first(v6)[l] as int],
{
    lemma_places(v6, false, v6.len());
    lemma_places(v6, true, v6.len());
    let a = places(v6, false, v6.len());
    let b = places(v6, true, v6.len());
    if l < a.len() {
        assert(ipv4_first(v6)[k] == a[k]);
    } else {
        assert(ipv4_first(v6)[l] == b[l - a.len()]);
    }
}

// ---------------------------------------------------------------------------
// Laws
// ---------------------------------------------------------------------------

/// Where a session is opened.
pub proof fn law_sessions_are_opened_at_the_service()
    ensures
        GEMINI_LIVE_WS@
            == "wss://generativelanguage.googleapis.com/ws/google.ai.generativelanguage.v1beta.GenerativeService.BidiGenerateContent"@,
{
}

/// The service takes 16-bit mono audio at 16 kHz and nothing else, and all of
/// its samples are sent.
pub proof fn law_only_recorded_formats_are_sent(wav: Seq<u8>)
    ensures
        match parsed(wav) {
            Err(e) => live_audio(wav) == Err::<Seq<u8>, LiveErrorView>(LiveErrorView::NotWav(e)),
            Ok(w) => if w.sample_rate == 16000 && w.channels == 1 && w.bits_per_sample == 16 {
                live_audio(wav) == Ok::<Seq<u8>, LiveErrorView>(w.data)
            } else {
                live_audio(wav) == Err::<Seq<u8>, LiveErrorView>(
                    LiveErrorView::Format {
                        sample_rate: w.sample_rate,
                        channels: w.channels,
                        bits_per_sample: w.bits_per_sample,
                    },
                )
            },
        },
{
}

/// A session is opened for the model, asks for text, and names the language
/// exactly where one is chosen.
pub proof fn law_setup_asks_for_text(model: Seq<char>, language: Option<&str>)
    ensures
        setup_tree(model, language).member("setup"@) matches Some(setup) && {
            &&& setup.member("model"@) == Some(JsonTree::Text("models/"@ + model))
            &&& inner(setup.member("generationConfig"@), "responseModalities"@) == Some(
                JsonTree::List(seq![JsonTree::Text("TEXT"@)]),
            )
            &&& inner(setup.member("inputAudioTranscription"@), "languageCodes"@) == Some(
                JsonTree::List(
                    match language {
                        Some(l) => seq![JsonTree::Text(l@)],
                        None => Seq::empty(),
                    },
                ),
            )
        },
{
    reveal_strlit("model");
    reveal_strlit("generationConfig");
    reveal_strlit("inputAudioTranscription");
    assert("model"@.len() == 5 && "generationConfig"@.len() == 16 && "inputAudioTranscription"@.len()
        == 23);
    let codes = match language {
        Some(l) => seq![JsonTree::Text(l@)],
        None => Seq::empty(),
    };
    let config = seq![("responseModalities"@, JsonTree::List(seq![JsonTree::Text("TEXT"@)]))];
    let transcription = seq![("languageCodes"@, JsonTree::List(codes))];
    let setup = seq![
        ("model"@, JsonTree::Text("models/"@ + model)),
        ("generationConfig"@, JsonTree::Object(object_of(config))),
        ("inputAudioTranscription"@, JsonTree::Object(object_of(transcription))),
    ];
    let all = seq![("setup"@, JsonTree::Object(object_of(setup)))];
    law_objects_hold_their_members(config);
    law_objects_hold_their_members(transcription);
    law_objects_hold_their_members(setup);
    law_objects_hold_their_members(all);
    assert(config[0].0 == "responseModalities"@);
    assert(transcription[0].0 == "languageCodes"@);
    assert(setup[0].0 == "model"@ && setup[1].0 == "generationConfig"@ && setup[2].0
        == "inputAudioTranscription"@);
    assert(all[0].0 == "setup"@);
}

/// A chunk is sent as the base64 form of all its bytes, as audio at 16 kHz.
pub proof fn law_a_chunk_is_sent_whole(pcm: Seq<u8>)
    ensures
        inner(audio_message_tree(pcm).member("realtimeInput"@), "audio"@) matches Some(audio) && {
            &&& audio.member("data"@) == Some(JsonTree::Text(base64_of(pcm)))
            &&& audio.member("mimeType"@) == Some(JsonTree::Text("audio/pcm;rate=16000"@))
        },
        is_true(inner(end_message_tree().member("realtimeInput"@), "audioStreamEnd"@)),
{
    reveal_strlit("data");
    reveal_strlit("mimeType");
    assert("data"@.len() == 4 && "mimeType"@.len() == 8);
    let audio = seq![
        ("data"@, JsonTree::Text(base64_of(pcm))),
        ("mimeType"@, JsonTree::Text("audio/pcm;rate=16000"@)),
    ];
    let input = seq![("audio"@, JsonTree::Object(object_of(audio)))];
    let all = seq![("realtimeInput"@, JsonTree::Object(object_of(input)))];
    law_objects_hold_their_members(audio);
    law_objects_hold_their_members(input);
    law_objects_hold_their_members(all);
    assert(audio[0].0 == "data"@ && audio[1].0 == "mimeType"@);
    assert(input[0].0 == "audio"@);
    assert(all[0].0 == "realtimeInput"@);
    let end = seq![("audioStreamEnd"@, JsonTree::Bool(true))];
    let last = seq![("realtimeInput"@, JsonTree::Object(object_of(end)))];
    law_objects_hold_their_members(end);
    law_objects_hold_their_members(last);
    assert(end[0].0 == "audioStreamEnd"@);
    assert(last[0].0 == "realtimeInput"@);
}

/// A chunk is as long as is asked for: 32 bytes are played in a millisecond.
/// Every chunk but the last is of that length.
pub proof fn law_chunks_are_of_one_length(pcm: Seq<u8>, max_chunk_ms: u32, i: int)
    requires
        max_chunk_ms > 0,
        0 <= i < runs(pcm, chunk_bytes(max_chunk_ms)).len(),
    ensures
        chunk_bytes(max_chunk_ms) == 32 * max_chunk_ms,
        i < runs(pcm, chunk_bytes(max_chunk_ms)).len() - 1 ==> runs(
            pcm,
            chunk_bytes(max_chunk_ms),
        )[i].len() == 32 * max_chunk_ms,
        0 < runs(pcm, chunk_bytes(max_chunk_ms))[i].len() <= 32 * max_chunk_ms,
{
    law_stream_loses_nothing(pcm, chunk_bytes(max_chunk_ms));
    if i < runs(pcm, chunk_bytes(max_chunk_ms)).len() - 1 {
        lemma_full_runs(pcm, chunk_bytes(max_chunk_ms), i);
    }
}

proof fn lemma_full_runs(bytes: Seq<u8>, n: nat, i: int)
    requires
        n > 0,
        0 <= i < runs(bytes, n).len() - 1,
    ensures
        runs(bytes, n)[i].len() == n,
    decreases bytes.len(),
{
    if i > 0 {
        lemma_full_runs(bytes.skip(n as int), n, i - 1);
        assert(runs(bytes, n)[i] == runs(bytes.skip(n as int), n)[i - 1]);
    }
}

/// Each run of samples is one message, in order.
pub proof fn law_every_chunk_is_a_message(list: Seq<Seq<u8>>, i: int)
    requires
        0 <= i < list.len(),
    ensures
        audio_messages(list).len() == list.len(),
        audio_messages(list)[i] == json_text(audio_message_tree(list[i])),
{
}

/// What a message finalizes is the text that it names, without white space at
/// its ends, whole; where it names none, it finalizes nothing.
pub proof fn law_the_finalized_text_is_heard_whole(message: JsonTree)
    ensures
        match inner(inner(message.member("serverContent"@), "inputTranscription"@), "text"@) {
            Some(JsonTree::Text(text)) => {
                &&& heard(message).len() > 0 ==> !is_white(heard(message)[0]) && !is_white(
                    heard(message).last(),
                )
                &&& exists|before: Seq<char>, after: Seq<char>|
                    is_blank(before) && is_blank(after) && text == #[trigger] (before + heard(
                        message,
                    ) + after)
            },
            _ => heard(message).len() == 0,
        },
{
    if let Some(JsonTree::Text(text)) = inner(
        inner(message.member("serverContent"@), "inputTranscription"@),
        "text"@,
    ) {
        law_trimming_takes_only_white_ends(text);
    }
}

/// What a message makes of the texts, and what is done next: an error ends the
/// session, a finalized text is added, and the mark of the end of the turn, in
/// either form, ends reading. Anything else changes nothing.
pub proof fn law_messages_are_obeyed(parts: Seq<Seq<char>>, message: JsonTree)
    ensures
        parts_after(parts, None) == parts,
        reaction_to(None) == ReactionView::Continue,
        message.member("error"@) matches Some(e) ==> parts_after(parts, Some(message)) == parts
            && reaction_to(Some(message)) == ReactionView::Fail(LiveErrorView::Api(json_text(e))),
        message.member("error"@) is None ==> {
            let content = message.member("serverContent"@);
            let over = inner(content, "generationComplete"@) == Some(JsonTree::Bool(true)) || inner(
                content,
                "turnComplete"@,
            ) == Some(JsonTree::Bool(true));
            &&& parts_after(parts, Some(message)) == if heard(message).len() > 0 {
                parts.push(heard(message))
            } else {
                parts
            }
            &&& reaction_to(Some(message)) == if over {
                ReactionView::Finish
            } else {
                ReactionView::Continue
            }
        },
{
}

/// Which errors of the connection only mean that nothing more is on its way.
pub proof fn law_a_quiet_line_is_no_failure(before: Seq<char>, after: Seq<char>)
    ensures
        is_quiet(before + "timed out"@ + after),
        is_quiet(before + "WouldBlock"@ + after),
        is_quiet(before + "Resource temporarily unavailable"@ + after),
        is_quiet(before + "Connection reset"@ + after),
{
    law_a_needle_is_found_anywhere(before, "timed out"@, after);
    law_a_needle_is_found_anywhere(before, "WouldBlock"@, after);
    law_a_needle_is_found_anywhere(before, "Resource temporarily unavailable"@, after);
    law_a_needle_is_found_anywhere(before, "Connection reset"@, after);
}

/// Any other error of the connection is a failure.
pub proof fn law_any_other_error_is_a_failure(error: Seq<char>)
    requires
        !occurs(error, "timed out"@),
        !occurs(error, "WouldBlock"@),
        !occurs(error, "Resource temporarily unavailable"@),
        !occurs(error, "Connection reset"@),
    ensures
        !is_quiet(error),
{
}

/// The address to connect to is the host, a colon and the port: 443 where none
/// is named.
pub proof fn law_the_port_is_443_unless_named(host: Seq<char>, port: u16, error: Seq<char>)
    ensures
        authority(Err(error)) == Err::<Seq<char>, LiveErrorView>(LiveErrorView::BadUrl(error)),
        authority(Ok((None, Some(port)))) == Err::<Seq<char>, LiveErrorView>(LiveErrorView::NoHost),
        authority(Ok((None, None))) == Err::<Seq<char>, LiveErrorView>(LiveErrorView::NoHost),
        authority(Ok((Some(host), None))) == Ok::<Seq<char>, LiveErrorView>(host + ":443"@),
        authority(Ok((Some(host), Some(port)))) matches Ok(text) && host.is_prefix_of(text)
            && text.len() > host.len() && text[host.len() as int] == ':' && digits_value(
            text.skip(host.len() as int + 1),
        ) == port,
{
    reveal_strlit(":");
    reveal_strlit(":443");
    reveal_with_fuel(decimal_digits, 4);
    assert(decimal_digits(443) =~= seq!['4', '4', '3']);
    assert(host + ":"@ + decimal_digits(443) =~= host + ":443"@);
    law_digits_spell_the_number(port as nat);
    let text = host + ":"@ + decimal_digits(port as nat);
    assert(text.skip(host.len() as int + 1) =~= decimal_digits(port as nat));
    assert(host.is_prefix_of(text)) by {
        assert(text.subrange(0, host.len() as int) =~= host);
    }
}

/// Addresses of one kind are tried in the order in which they were resolved.
pub proof fn law_addresses_of_one_kind_keep_their_order(v6: Seq<bool>, k: int, l: int)
    requires
        v6.len() <= usize::MAX,
        0 <= k < l < ipv4_first(v6).len(),
        ipv4_first(v6)[k] < v6.len(),
        ipv4_first(v6)[l] < v6.len(),
        v6[ipv4_first(v6)[k] as int] == v6[ipv4_first(v6)[l] as int],
    ensures
        ipv4_first(v6)[k] < ipv4_first(v6)[l],
{
    lemma_places(v6, false, v6.len());
    lemma_places(v6, true, v6.len());
    let a = places(v6, false, v6.len());
    let b = places(v6, true, v6.len());
    if k < a.len() {
        assert(ipv4_first(v6)[k] == a[k]);
        if l < a.len() {
            assert(ipv4_first(v6)[l] == a[l]);
        } else {
            assert(ipv4_first(v6)[l] == b[l - a.len()]);
        }
    } else {
        assert(ipv4_first(v6)[k] == b[k - a.len()]);
        assert(ipv4_first(v6)[l] == b[l - a.len()]);
    }
}

/// Only addresses that were resolved are tried.
pub proof fn law_only_resolved_addresses_are_tried(v6: Seq<bool>, k: int)
    requires
        v6.len() <= usize::MAX,
        0 <= k < ipv4_first(v6).len(),
    ensures
        ipv4_first(v6)[k] < v6.len(),
{
    lemma_places(v6, false, v6.len());
    lemma_places(v6, true, v6.len());
    let a = places(v6, false, v6.len());
    if k < a.len() {
        assert(ipv4_first(v6)[k] == a[k]);
    } else {
        assert(ipv4_first(v6)[k] == places(v6, true, v6.len())[k - a.len()]);
    }
}

/// An error that the service reports is shown from its beginning: 400 bytes of
/// it, or all of it.
pub proof fn law_a_reported_error_is_shown(error: Seq<char>)
    requires
        cuttable(error, 400),
    ensures
        ({
            let shown = truncated(error, 400);
            &&& LiveErrorView::Api(error).text() == "Gemini Live API error: "@ + shown
            &&& shown.is_prefix_of(error)
            &&& encode_utf8(error).len() <= 400 ==> shown == error
            &&& encode_utf8(error).len() > 400 ==> encode_utf8(shown).len() == 400
        }),
        LiveErrorView::Unread(error).text() == "reading from Gemini Live API: "@ + error,
        LiveErrorView::Handshake(error).text() == "Gemini Live WebSocket handshake: "@ + error,
        LiveErrorView::BadUrl(error).text() == "invalid Live API URL: "@ + error,
        LiveErrorView::Unreachable(Some(error)).text() == "could not connect to Gemini Live API: "@
            + error,
{
    law_a_cut_text_keeps_its_beginning(error, 400);
}

/// Text frames and binary frames hold messages alike; no other frame holds one.
pub proof fn law_messages_come_in_both_kinds_of_frame(text: String, bytes: Vec<u8>)
    ensures
        frame_tree(Frame::Text(text)) == json_parsed(text@),
        frame_tree(Frame::Binary(bytes)) == json_parsed(lossy_text(bytes@)),
        frame_tree(Frame::Ping(bytes)) is None,
        frame_tree(Frame::Close) is None,
        frame_tree(Frame::Other) is None,
{
}

/// Every message that is no error is heard.
pub proof fn law_every_message_is_heard(messages: Seq<Option<JsonTree>>, i: int)
    requires
        0 <= i < messages.len(),
    ensures
        heard_in(messages).len() == messages.len(),
        messages[i] matches Some(m) ==> (m.member("error"@) is None ==> heard_in(messages)[i]
            == heard(m)),
        messages[i] matches Some(m) ==> (m.member("error"@) is Some ==> heard_in(messages)[i].len()
            == 0),
        messages[i] is None ==> heard_in(messages)[i].len() == 0,
{
}

/// What the user is told of audio in another format names its numbers.
pub proof fn law_another_format_is_told(sample_rate: u32, channels: u16, bits_per_sample: u16)
    ensures
        (LiveErrorView::Format { sample_rate, channels, bits_per_sample }).text()
            == "Gemini Live requires 16 kHz mono 16-bit PCM audio, got "@ + decimal_digits(
            sample_rate as nat,
        ) + " Hz / "@ + decimal_digits(channels as nat) + " ch / "@ + decimal_digits(
            bits_per_sample as nat,
        )
            + "-bit. Re-record or convert: ffmpeg -i in.wav -ar 16000 -ac 1 -acodec pcm_s16le out.wav"@,
        digits_value(decimal_digits(sample_rate as nat)) == sample_rate,
        digits_value(decimal_digits(channels as nat)) == channels,
        digits_value(decimal_digits(bits_per_sample as nat)) == bits_per_sample,
{
    law_digits_spell_the_number(sample_rate as nat);
    law_digits_spell_the_number(channels as nat);
    law_digits_spell_the_number(bits_per_sample as nat);
}

/// Errors and reactions are seen as they are.
pub proof fn law_reactions_are_seen_whole(text: String, bytes: Vec<u8>, error: LiveError)
    ensures
        LiveError::Api(text)@ == LiveErrorView::Api(text@),
        LiveError::Unread(text)@ == LiveErrorView::Unread(text@),
        LiveError::Handshake(text)@ == LiveErrorView::Handshake(text@),
        LiveError::BadUrl(text)@ == LiveErrorView::BadUrl(text@),
        LiveError::Unreachable(Some(text))@ == LiveErrorView::Unreachable(Some(text@)),
        Reaction::Pong(bytes)@ == ReactionView::Pong(bytes@),
        Reaction::Fail(error)@ == ReactionView::Fail(error@),
        Reaction::Continue@ == ReactionView::Continue,
        Reaction::Finish@ == ReactionView::Finish,
{
}

/// Every error can be told, but for one that the service reports in which no
/// character ends at the place of the cut.
pub proof fn law_nearly_every_error_can_be_told(error: LiveErrorView)
    ensures
        error.printable() <==> (error matches LiveErrorView::Api(e) ==> cuttable(e, 400)),
{
}

/// The transcript holds every text that was collected, in order, with one space
/// between neighbours: a text that comes after others is added whole.
pub proof fn law_the_transcript_holds_every_text(
    before: Collector,
    after: Collector,
    text: String,
)
    requires
        after.parts@ == before.parts@.push(text),
    ensures
        after.collected() == Some(
            match before.collected() {
                Some(told) => told + " "@ + text@,
                None => text@,
            },
        ),
{
    let (old_list, new_list) = (views(before.parts@), views(after.parts@));
    assert(new_list.drop_last() =~= old_list);
    assert(new_list.last() == text@);
}

} // verus!
