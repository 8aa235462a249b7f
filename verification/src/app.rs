//! Dictation without a window: capture, transcribe, type.

use vstd::prelude::*;
use vstd::string::*;

use crate::audio::{
    frame_len, law_silence_is_trimmed_away, no_speech, phrase_samples, VadConfig,
};
use crate::client::Transcriber;
use crate::injector::Injector;
use crate::wav::{law_samples_take_two_bytes, law_header_takes_44_bytes, pcm_bytes, wav_bytes};

verus! {

/// The shortest WAV audio that can hold meaningful speech: a header and 80
/// samples.
pub const MIN_WAV_BYTES: usize = 204;

/// What a dictation runs with.
#[derive(Debug)]
pub struct DictationApp {
    pub transcriber: Transcriber,
    pub injector: Injector,
    pub language: Option<String>,
    /// Whether what was said is typed.
    pub auto_inject: bool,
}

/// Why a recording is not transcribed.
#[derive(Debug)]
pub enum Skip {
    /// The microphone failed.
    MicError(String),
    /// The recording was aborted.
    Cancelled,
    /// There is too little audio.
    NoSpeech,
}

/// What is done with a recording.
#[derive(Debug)]
pub enum Recorded {
    Skip(Skip),
    Transcribe(Vec<u8>),
}

/// What is done with a transcript.
#[derive(Debug)]
pub struct Transcribed {
    /// What was said, unless the transcription failed.
    pub text: Option<String>,
    /// Whether it is typed.
    pub inject: bool,
}

impl DictationApp {
    /// What is typed of a transcript, if anything is.
    pub open spec fn to_inject(self, result: Result<String, String>) -> Option<Seq<char>> {
        match result {
            Ok(text) => if text@.len() > 0 && self.auto_inject {
                Some(text@)
            } else {
                None
            },
            Err(_) => None,
        }
    }

    /// Whether a recording is transcribed, given whether it was aborted.
    pub open spec fn is_worth_transcribing(
        self,
        recording: Result<Vec<u8>, String>,
        cancelled: bool,
    ) -> bool {
        !cancelled && (recording matches Ok(wav) && wav@.len() >= MIN_WAV_BYTES)
    }

    pub fn new(
        transcriber: Transcriber,
        injector: Injector,
        language: Option<String>,
        auto_inject: bool,
    ) -> (app: Self)
        ensures
            app.transcriber == transcriber,
            app.injector == injector,
            app.language == language,
            app.auto_inject == auto_inject,
    {
        DictationApp { transcriber, injector, language, auto_inject }
    }

    /// What is done with a recording (or the error of the microphone), given
    /// whether it was aborted.
    pub fn after_recording(&self, recording: Result<Vec<u8>, String>, cancelled: bool) -> (next:
        Recorded)
        ensures
            match recording {
                Err(e) => next == Recorded::Skip(Skip::MicError(e)),
                Ok(wav) => if cancelled {
                    next == Recorded::Skip(Skip::Cancelled)
                } else if wav@.len() < MIN_WAV_BYTES {
                    next == Recorded::Skip(Skip::NoSpeech)
                } else {
                    next == Recorded::Transcribe(wav)
                },
            },
            next is Transcribe <==> self.is_worth_transcribing(recording, cancelled),
    {
        let wav = match recording {
            Ok(wav) => wav,
            Err(e) => {
                return Recorded::Skip(Skip::MicError(e));
            },
        };
        if cancelled {
            return Recorded::Skip(Skip::Cancelled);
        }
        if wav.len() < MIN_WAV_BYTES {
            return Recorded::Skip(Skip::NoSpeech);
        }
        Recorded::Transcribe(wav)
    }

    /// What is done with a transcript (or the error of the transcription).
    pub fn after_transcription(&self, result: Result<String, String>) -> (next: Transcribed)
        ensures
            match result {
                Ok(text) => next.text == Some(text) && next.inject == (text@.len() > 0
                    && self.auto_inject),
                Err(_) => next.text is None && !next.inject,
            },
            next.inject <==> self.to_inject(result) is Some,
            next.inject ==> (next.text matches Some(t) && self.to_inject(result) == Some(t@)),
    {
        match result {
            Ok(text) => {
                let inject = !text.as_str().is_empty() && self.auto_inject;
                Transcribed { text: Some(text), inject }
            },
            Err(_) => Transcribed { text: None, inject: false },
        }
    }
}

/// A run of several phrases.
#[derive(Debug, Clone, Copy)]
pub struct PhraseLoop {
    /// How many phrases there are; without end where this is not set.
    pub count: Option<usize>,
    pub done: usize,
}

impl PhraseLoop {
    pub fn new(count: Option<usize>) -> (run: Self)
        ensures
            run.count == count,
            run.done == 0,
    {
        PhraseLoop { count, done: 0 }
    }

    /// Whether another phrase is recorded.
    pub open spec fn goes_on(self, cancelled: bool) -> bool {
        !cancelled && (self.count matches Some(c) ==> self.done < c)
    }

    /// Whether another phrase is recorded; if so, it is counted.
    pub fn next(&mut self, cancelled: bool) -> (more: bool)
        requires
            old(self).done < usize::MAX,
        ensures
            more == old(self).goes_on(cancelled),
            final(self).count == old(self).count,
            final(self).done == if more {
                old(self).done + 1
            } else {
                old(self).done as int
            },
    {
        if cancelled {
            return false;
        }
        if let Some(c) = self.count {
            if self.done >= c {
                return false;
            }
        }
        self.done = self.done + 1;
        true
    }
}

/// The run after as many phrases as it was asked for `n` times, unless it is
/// aborted.
pub open spec fn after_asking(run: PhraseLoop, n: nat) -> PhraseLoop
    decreases n,
{
    if n == 0 {
        run
    } else {
        let before = after_asking(run, (n - 1) as nat);
        if before.goes_on(false) {
            PhraseLoop { done: (before.done + 1) as usize, ..before }
        } else {
            before
        }
    }
}

/// A run of `c` phrases that is not aborted records exactly `c` phrases.
pub proof fn law_counted_run_is_exact(c: usize, n: nat)
    requires
        n <= usize::MAX,
    ensures
        ({
            let run = after_asking(PhraseLoop { count: Some(c), done: 0 }, n);
            &&& run.done == if n < c {
                n as int
            } else {
                c as int
            }
            &&& run.goes_on(false) == (n < c)
        }),
    decreases n,
{
    if n > 0 {
        law_counted_run_is_exact(c, (n - 1) as nat);
        lemma_count_stays(PhraseLoop { count: Some(c), done: 0 }, n);
        lemma_count_stays(PhraseLoop { count: Some(c), done: 0 }, (n - 1) as nat);
    }
}

proof fn lemma_count_stays(run: PhraseLoop, n: nat)
    ensures
        after_asking(run, n).count == run.count,
    decreases n,
{
    if n > 0 {
        lemma_count_stays(run, (n - 1) as nat);
    }
}

/// A recording is long enough to be transcribed exactly where 80 samples of it
/// are left.
pub proof fn law_eighty_samples_are_enough(sample_rate: u32, samples: Seq<i16>)
    ensures
        wav_bytes(1, 16, sample_rate, pcm_bytes(samples)).len() >= MIN_WAV_BYTES <==> samples.len()
            >= 80,
{
    law_header_takes_44_bytes(1, 16, sample_rate, pcm_bytes(samples));
    law_samples_take_two_bytes(samples);
}

/// A recording in which nothing is speech is not transcribed, however short it
/// is: nothing is left of it once silence is trimmed.
pub proof fn law_silence_is_not_transcribed(cfg: VadConfig, samples: Seq<i16>)
    requires
        cfg.trim_silence,
        no_speech(samples, frame_len(cfg.sample_rate, cfg.frame_ms), cfg.speech_min),
    ensures
        wav_bytes(1, 16, cfg.sample_rate, pcm_bytes(phrase_samples(cfg, samples))).len()
            < MIN_WAV_BYTES,
{
    law_silence_is_trimmed_away(
        samples,
        frame_len(cfg.sample_rate, cfg.frame_ms),
        cfg.speech_min,
        cfg.pad_frames as nat,
    );
    law_eighty_samples_are_enough(cfg.sample_rate, phrase_samples(cfg, samples));
}

/// A run goes on until it is aborted or its phrases are done; one without a
/// count goes on until it is aborted.
pub proof fn law_a_run_goes_on_until_it_is_done(run: PhraseLoop, count: usize)
    ensures
        !run.goes_on(true),
        run.count is None ==> run.goes_on(false),
        run.count == Some(count) ==> run.goes_on(false) == (run.done < count),
{
}

/// Every transcript that holds a character is typed whole where typing is wanted;
/// an error is never typed.
pub proof fn law_a_transcript_is_injected_whole(app: DictationApp, text: String, error: String)
    ensures
        app.to_inject(Ok(text)) == if text@.len() > 0 && app.auto_inject {
            Some(text@)
        } else {
            None
        },
        app.to_inject(Err(error)) is None,
{
}

/// A recording is transcribed exactly where the microphone did not fail, it was
/// not aborted, and it holds a header and 80 samples at least.
pub proof fn law_recordings_with_enough_audio_are_transcribed(
    app: DictationApp,
    wav: Vec<u8>,
    error: String,
    cancelled: bool,
)
    ensures
        app.is_worth_transcribing(Ok(wav), cancelled) <==> !cancelled && wav@.len() >= 44 + 2 * 80,
        !app.is_worth_transcribing(Err(error), cancelled),
{
}

} // verus!
