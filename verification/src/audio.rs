//! Voice detection: where a phrase ends, and what of it is speech.
//!
//! Audio is judged frame by frame. A frame is speech where the mean of the
//! squares of its samples reaches a limit, which the program around the library
//! derives from a loudness threshold. The limit is counted in small parts of
//! one, so that a run of any length is judged as the threshold has it.

use vstd::prelude::*;
use vstd::slice::slice_to_vec;
use vstd::string::*;

use crate::wav::{
    block_align_of, header_fits, header_holds, i16_to_pcm, law_a_header_holds_what_fits, pcm_bytes, wav_bytes,
    wav_from_pcm,
};

verus! {

pub const DEFAULT_SAMPLE_RATE: u32 = 16000;

/// The parts of one in which a mean square is counted.
pub const MEAN_PARTS: u64 = 0x1000_0000_0000_0000;

/// How phrases are found in audio of one sample rate.
#[derive(Debug, Clone, Copy)]
pub struct VadConfig {
    pub sample_rate: u32,
    /// Whether phrases are found at all; otherwise a fixed length is recorded.
    pub enabled: bool,
    /// Frame length in ms.
    pub frame_ms: u32,
    /// The least mean of squared samples that is speech, in parts of one.
    pub speech_min: u128,
    /// Frames of sustained silence before a phrase is considered finished.
    pub silence_frames_trigger: u32,
    /// Maximum phrase length in samples before it is cut off regardless.
    pub max_samples: usize,
    /// Fixed recording length in samples.
    pub fixed_samples: usize,
    /// Whether silence is trimmed from both ends of a phrase.
    pub trim_silence: bool,
    /// Frames kept around detected speech.
    pub pad_frames: usize,
}

impl Default for VadConfig {
    /// How phrases are found at 16 kHz: the loudness threshold is 0.01 of full
    /// scale, a phrase lasts 30 s at most, and 150 ms are kept around speech.
    fn default() -> (cfg: Self)
        ensures
            cfg.sample_rate == DEFAULT_SAMPLE_RATE,
            cfg.enabled,
            cfg.frame_ms == 20,
            cfg.speech_min == 123793998394514892390400,
            cfg.silence_frames_trigger == 20,
            cfg.max_samples == 480000,
            cfg.fixed_samples == 80000,
            cfg.trim_silence,
            cfg.pad_frames == 7,
    {
        VadConfig {
            sample_rate: DEFAULT_SAMPLE_RATE,
            enabled: true,
            frame_ms: 20,
            speech_min: 123793998394514892390400,
            silence_frames_trigger: 20,
            max_samples: 480000,
            fixed_samples: 80000,
            trim_silence: true,
            pad_frames: 7,
        }
    }
}

// ---------------------------------------------------------------------------
// Energy
// ---------------------------------------------------------------------------

/// The energy of a frame: the sum of the squares of its samples.
pub open spec fn energy(frame: Seq<i16>) -> nat
    decreases frame.len(),
{
    if frame.len() == 0 {
        0
    } else {
        energy(frame.drop_last()) + square(frame.last())
    }
}

/// The square of a sample.
pub open spec fn square(s: i16) -> nat {
    (s * s) as nat
}

proof fn lemma_square(s: i16)
    ensures
        0 <= s * s <= 0x4000_0000,
{
    assert(0 <= s * s <= 0x4000_0000) by (nonlinear_arith)
        requires
            -32768 <= s <= 32767,
    ;
}

/// The energy of a frame.
pub fn frame_energy(frame: &[i16]) -> (sum: u128)
    ensures
        sum == energy(frame@),
{
    let mut sum: u128 = 0;
    let mut i: usize = 0;
    assert(frame@.take(0) =~= Seq::empty());
    while i < frame.len()
        invariant
            0 <= i <= frame@.len(),
            sum == energy(frame@.take(i as int)),
            sum <= i * 0x4000_0000,
        decreases frame@.len() - i,
    {
        let s: i32 = frame[i] as i32;
        proof {
            lemma_square(frame@[i as int]);
            assert(frame@.take(i + 1).drop_last() =~= frame@.take(i as int));
        }
        sum = sum + (s * s) as u128;
        i += 1;
    }
    assert(frame@.take(i as int) =~= frame@);
    sum
}

/// Whether a run of samples is speech: the mean of their squares reaches the
/// limit. Where there is no sample, the mean is zero.
pub open spec fn is_speech_run(run: Seq<i16>, speech_min: u128) -> bool {
    if run.len() == 0 {
        speech_min == 0
    } else {
        energy(run) * MEAN_PARTS >= speech_min * run.len()
    }
}

/// Whether `a * b >= c * d`, whatever the products are.
fn product_at_least(a: u128, b: u64, c: u128, d: u64) -> (r: bool)
    requires
        b > 0,
        d > 0,
    ensures
        r == (a * b >= c * d),
{
    let (b, d): (u128, u128) = (b as u128, d as u128);
    let (p, x): (u128, u128) = (a / d, a % d);
    let (q, y): (u128, u128) = (c / b, c % b);
    proof {
        lemma_quotients(a as int, b as int, c as int, d as int);
        assert(x * b < 0x1_0000_0000_0000_0000 * 0x1_0000_0000_0000_0000) by (nonlinear_arith)
            requires
                0 <= x < 0x1_0000_0000_0000_0000,
                0 <= b < 0x1_0000_0000_0000_0000,
        ;
        assert(y * d < 0x1_0000_0000_0000_0000 * 0x1_0000_0000_0000_0000) by (nonlinear_arith)
            requires
                0 <= y < 0x1_0000_0000_0000_0000,
                0 <= d < 0x1_0000_0000_0000_0000,
        ;
    }
    p > q || (p == q && x * b >= y * d)
}

proof fn lemma_quotients(a: int, b: int, c: int, d: int)
    requires
        a >= 0,
        b > 0,
        c >= 0,
        d > 0,
    ensures
        (a * b >= c * d) == (a / d > c / b || (a / d == c / b && (a % d) * b >= (c % b) * d)),
{
    let (p, x) = (a / d, a % d);
    let (q, y) = (c / b, c % b);
    let m = b * d;
    vstd::arithmetic::div_mod::lemma_fundamental_div_mod(a, d);
    vstd::arithmetic::div_mod::lemma_fundamental_div_mod(c, b);
    assert(a * b == p * m + x * b && 0 <= x * b < m) by (nonlinear_arith)
        requires
            a == d * p + x,
            0 <= x < d,
            b > 0,
            m == b * d,
    ;
    assert(c * d == q * m + y * d && 0 <= y * d < m) by (nonlinear_arith)
        requires
            c == b * q + y,
            0 <= y < b,
            d > 0,
            m == b * d,
    ;
    if p > q {
        assert(p * m >= q * m + m) by (nonlinear_arith)
            requires
                p >= q + 1,
                m > 0,
        ;
    } else if p < q {
        assert(q * m >= p * m + m) by (nonlinear_arith)
            requires
                q >= p + 1,
                m > 0,
        ;
    }
}

/// Whether a run of samples is speech.
fn run_is_speech(run: &[i16], speech_min: u128) -> (speech: bool)
    ensures
        speech == is_speech_run(run@, speech_min),
{
    if run.len() == 0 {
        speech_min == 0
    } else {
        product_at_least(frame_energy(run), MEAN_PARTS, speech_min, run.len() as u64)
    }
}

/// Of two runs of one length, the one with more energy is speech where the
/// other is.
pub proof fn law_louder_is_speech_too(run: Seq<i16>, louder: Seq<i16>, speech_min: u128)
    requires
        run.len() == louder.len(),
        energy(run) <= energy(louder),
        is_speech_run(run, speech_min),
    ensures
        is_speech_run(louder, speech_min),
{
}

/// Samples per frame: one at least.
pub open spec fn frame_len(sample_rate: u32, frame_ms: u32) -> int {
    let n = sample_rate * frame_ms / 1000;
    if n > 1 {
        n
    } else {
        1
    }
}

/// Samples per frame: one at least.
pub fn frame_samples(sample_rate: u32, frame_ms: u32) -> (n: usize)
    requires
        sample_rate * frame_ms <= usize::MAX,
    ensures
        n == frame_len(sample_rate, frame_ms),
{
    assert(0 <= sample_rate * frame_ms <= u32::MAX * u32::MAX) by (nonlinear_arith)
        requires
            0 <= sample_rate <= u32::MAX,
            0 <= frame_ms <= u32::MAX,
    ;
    let n: u64 = sample_rate as u64 * frame_ms as u64 / 1000;
    if n > 1 {
        n as usize
    } else {
        1
    }
}

// ---------------------------------------------------------------------------
// The detector
// ---------------------------------------------------------------------------

/// What a frame tells about the phrase.
#[derive(Debug, Clone, Copy, PartialEq, Eq, Structural)]
pub enum FrameState {
    Speech,
    Silence,
    /// Silence that has lasted long enough to end a phrase.
    End,
}

impl FrameState {
    pub fn as_str(self) -> (name: &'static str)
        ensures
            name@ == match self {
                FrameState::Speech => "speech"@,
                FrameState::Silence => "silence"@,
                FrameState::End => "end"@,
            },
    {
        match self {
            FrameState::Speech => "speech",
            FrameState::Silence => "silence",
            FrameState::End => "end",
        }
    }
}

/// Energy detection over frames.
#[derive(Debug, Clone, Copy)]
pub struct EnergyVad {
    pub speech_min: u128,
    pub silence_frames_trigger: u32,
    /// Silent frames since the last one that was speech.
    pub silence_runs: u32,
}

impl EnergyVad {
    pub fn new(cfg: &VadConfig) -> (vad: Self)
        ensures
            vad.speech_min == cfg.speech_min,
            vad.silence_frames_trigger == cfg.silence_frames_trigger,
            vad.silence_runs == 0,
    {
        EnergyVad {
            speech_min: cfg.speech_min,
            silence_frames_trigger: cfg.silence_frames_trigger,
            silence_runs: 0,
        }
    }

    /// Whether a frame, of whatever length, is speech.
    pub open spec fn hears(self, frame: Seq<i16>) -> bool {
        is_speech_run(frame, self.speech_min)
    }

    /// What a frame tells.
    pub open spec fn judged(self, frame: Seq<i16>) -> FrameState {
        if self.hears(frame) {
            FrameState::Speech
        } else if self.silence_runs + 1 >= self.silence_frames_trigger {
            FrameState::End
        } else {
            FrameState::Silence
        }
    }

    /// The detector after a frame.
    pub open spec fn after(self, frame: Seq<i16>) -> EnergyVad {
        EnergyVad {
            silence_runs: if self.hears(frame) {
                0
            } else {
                (self.silence_runs + 1) as u32
            },
            ..self
        }
    }

    /// Whether a frame is speech.
    pub fn is_speech(&self, frame: &[i16]) -> (speech: bool)
        ensures
            speech == self.hears(frame@),
    {
        run_is_speech(frame, self.speech_min)
    }

    /// Takes a frame.
    pub fn process_frame(&mut self, frame: &[i16]) -> (state: FrameState)
        requires
            old(self).silence_runs < u32::MAX,
        ensures
            state == old(self).judged(frame@),
            *final(self) == old(self).after(frame@),
    {
        if self.is_speech(frame) {
            self.silence_runs = 0;
            return FrameState::Speech;
        }
        self.silence_runs = self.silence_runs + 1;
        if self.silence_runs >= self.silence_frames_trigger {
            return FrameState::End;
        }
        FrameState::Silence
    }
}

/// The detector after several frames.
pub open spec fn after_frames(vad: EnergyVad, frames: Seq<Seq<i16>>) -> EnergyVad
    decreases frames.len(),
{
    if frames.len() == 0 {
        vad
    } else {
        after_frames(vad, frames.drop_last()).after(frames.last())
    }
}

/// A phrase ends exactly with the frame that completes the configured number of
/// silent frames in a row: after speech, and then `silent` frames, the next
/// silent frame ends the phrase where it is at least that number.
pub proof fn law_silence_ends_a_phrase(
    vad: EnergyVad,
    speech: Seq<i16>,
    silent: Seq<Seq<i16>>,
    next: Seq<i16>,
)
    requires
        vad.hears(speech),
        forall|i: int| 0 <= i < silent.len() ==> !vad.hears(#[trigger] silent[i]),
        !vad.hears(next),
        silent.len() < u32::MAX,
    ensures
        after_frames(vad.after(speech), silent).judged(next) == if silent.len() + 1
            >= vad.silence_frames_trigger {
            FrameState::End
        } else {
            FrameState::Silence
        },
{
    lemma_silent_runs(vad.after(speech), silent);
}

proof fn lemma_silent_runs(vad: EnergyVad, silent: Seq<Seq<i16>>)
    requires
        forall|i: int| 0 <= i < silent.len() ==> !vad.hears(#[trigger] silent[i]),
        vad.silence_runs + silent.len() <= u32::MAX,
    ensures
        after_frames(vad, silent) == (EnergyVad {
            silence_runs: (vad.silence_runs + silent.len()) as u32,
            ..vad
        }),
    decreases silent.len(),
{
    if silent.len() > 0 {
        let before = silent.drop_last();
        assert forall|i: int| 0 <= i < before.len() implies !vad.hears(#[trigger] before[i]) by {
            assert(before[i] == silent[i]);
        }
        lemma_silent_runs(vad, before);
        assert(!vad.hears(silent[silent.len() - 1]));
    }
}

/// Speech starts the count of silent frames anew, whatever came before.
pub proof fn law_speech_starts_anew(vad: EnergyVad, speech: Seq<i16>)
    requires
        vad.hears(speech),
    ensures
        vad.judged(speech) == FrameState::Speech,
        vad.after(speech).silence_runs == 0,
{
}

// ---------------------------------------------------------------------------
// Trimming
// ---------------------------------------------------------------------------

/// The frame at position `i`.
pub open spec fn frame_at(pcm: Seq<i16>, frame: int, i: int) -> Seq<i16> {
    pcm.subrange(i * frame, (i + 1) * frame)
}

/// Whether the frame at position `i` is speech.
pub open spec fn is_loud(pcm: Seq<i16>, frame: int, speech_min: u128, i: int) -> bool {
    is_speech_run(frame_at(pcm, frame, i), speech_min)
}

/// The first and the last of the first `n` frames that are speech.
pub open spec fn speech_span(pcm: Seq<i16>, frame: int, speech_min: u128, n: nat) -> Option<
    (int, int),
>
    decreases n,
{
    if n == 0 {
        None
    } else {
        let before = speech_span(pcm, frame, speech_min, (n - 1) as nat);
        if is_loud(pcm, frame, speech_min, n - 1) {
            match before {
                Some((first, _)) => Some((first, n - 1)),
                None => Some((n - 1, n - 1)),
            }
        } else {
            before
        }
    }
}

/// Whether audio that holds no whole frame is speech.
pub open spec fn is_short_speech(pcm: Seq<i16>, speech_min: u128) -> bool {
    pcm.len() > 0 && is_speech_run(pcm, speech_min)
}

/// Whether nothing in audio is speech: none of its frames, or, where it holds no
/// whole frame, it all.
pub open spec fn no_speech(pcm: Seq<i16>, frame: int, speech_min: u128) -> bool {
    let n = pcm.len() as int / frame;
    if n == 0 {
        !is_short_speech(pcm, speech_min)
    } else {
        forall|i: int| 0 <= i < n ==> !(#[trigger] is_loud(pcm, frame, speech_min, i))
    }
}

/// Audio without the silence at either end, except for `pad` frames around the
/// speech: nothing where nothing is speech. Audio that holds no whole frame is
/// kept or dropped as one.
pub open spec fn without_silence(pcm: Seq<i16>, frame: int, speech_min: u128, pad: nat) -> Seq<i16> {
    let n = pcm.len() as int / frame;
    if n == 0 {
        if is_short_speech(pcm, speech_min) {
            pcm
        } else {
            Seq::empty()
        }
    } else {
        match speech_span(pcm, frame, speech_min, n as nat) {
            None => Seq::empty(),
            Some((first, last)) => {
                let from = if first > pad {
                    first - pad
                } else {
                    0
                };
                let to = if last + pad < n - 1 {
                    last + pad
                } else {
                    n - 1
                };
                pcm.subrange(from * frame, (to + 1) * frame)
            },
        }
    }
}

/// Whether the frame after the padding can be counted.
pub open spec fn pad_fits(pcm: Seq<i16>, frame: int, speech_min: u128, pad: nat) -> bool {
    speech_span(pcm, frame, speech_min, (pcm.len() as int / frame) as nat) matches Some((_, last))
        ==> last + pad <= usize::MAX
}

proof fn lemma_frame_bounds(total: int, frame: int, i: int)
    requires
        frame > 0,
        0 <= i < total / frame,
    ensures
        0 <= i * frame < (i + 1) * frame <= total,
        i * frame + frame == (i + 1) * frame,
{
    assert(0 <= i * frame < (i + 1) * frame <= total && i * frame + frame == (i + 1) * frame)
        by (nonlinear_arith)
        requires
            frame > 0,
            0 <= i < total / frame,
    ;
}

proof fn lemma_speech_span(pcm: Seq<i16>, frame: int, speech_min: u128, n: nat)
    ensures
        match speech_span(pcm, frame, speech_min, n) {
            Some((first, last)) => {
                &&& 0 <= first <= last < n
                &&& is_loud(pcm, frame, speech_min, first)
                &&& is_loud(pcm, frame, speech_min, last)
                &&& forall|i: int|
                    0 <= i < n && (#[trigger] is_loud(pcm, frame, speech_min, i)) ==> first <= i
                        <= last
            },
            None => forall|i: int|
                0 <= i < n ==> !(#[trigger] is_loud(pcm, frame, speech_min, i)),
        },
    decreases n,
{
    if n > 0 {
        lemma_speech_span(pcm, frame, speech_min, (n - 1) as nat);
    }
}

/// The first and the last frame that are speech.
fn find_speech(pcm: &[i16], frame: usize, speech_min: u128) -> (span: Option<(usize, usize)>)
    requires
        frame > 0,
    ensures
        match speech_span(pcm@, frame as int, speech_min, (pcm@.len() as int / frame as int) as nat) {
            Some((first, last)) => span matches Some((f, l)) && f == first && l == last,
            None => span is None,
        },
{
    let total: usize = pcm.len();
    let n: usize = total / frame;
    let mut span: Option<(usize, usize)> = None;
    let mut i: usize = 0;
    while i < n
        invariant
            frame > 0,
            total == pcm@.len(),
            n == total as int / frame as int,
            0 <= i <= n,
            match speech_span(pcm@, frame as int, speech_min, i as nat) {
                Some((first, last)) => span matches Some((f, l)) && f == first && l == last,
                None => span is None,
            },
        decreases n - i,
    {
        proof {
            lemma_frame_bounds(total as int, frame as int, i as int);
        }
        let from: usize = i * frame;
        let chunk: &[i16] = &pcm[from..from + frame];
        assert(chunk@ == frame_at(pcm@, frame as int, i as int));
        if run_is_speech(chunk, speech_min) {
            span = match span {
                Some((first, _)) => Some((first, i)),
                None => Some((i, i)),
            };
        }
        i += 1;
    }
    span
}

/// Whether audio can be trimmed: the samples of a frame and the frame after the
/// padding can be counted.
pub fn can_trim(
    pcm: &[i16],
    sample_rate: u32,
    speech_min: u128,
    frame_ms: u32,
    pad_frames: usize,
) -> (possible: bool)
    ensures
        possible == (sample_rate * frame_ms <= usize::MAX && pad_fits(
            pcm@,
            frame_len(sample_rate, frame_ms),
            speech_min,
            pad_frames as nat,
        )),
{
    assert(0 <= sample_rate * frame_ms <= u32::MAX * u32::MAX) by (nonlinear_arith)
        requires
            0 <= sample_rate <= u32::MAX,
            0 <= frame_ms <= u32::MAX,
    ;
    if sample_rate as u64 * frame_ms as u64 > usize::MAX as u64 {
        return false;
    }
    let frame: usize = frame_samples(sample_rate, frame_ms);
    match find_speech(pcm, frame, speech_min) {
        Some((_, last)) => last <= usize::MAX - pad_frames,
        None => true,
    }
}

/// Trims the silence at either end of audio, keeping `pad_frames` frames around
/// the speech. Where nothing is speech nothing is left; audio that holds no whole
/// frame is judged as one.
pub fn trim_silence(
    pcm: &[i16],
    sample_rate: u32,
    speech_min: u128,
    frame_ms: u32,
    pad_frames: usize,
) -> (trimmed: Vec<i16>)
    requires
        sample_rate * frame_ms <= usize::MAX,
        pad_fits(pcm@, frame_len(sample_rate, frame_ms), speech_min, pad_frames as nat),
    ensures
        trimmed@ == without_silence(
            pcm@,
            frame_len(sample_rate, frame_ms),
            speech_min,
            pad_frames as nat,
        ),
{
    let frame: usize = frame_samples(sample_rate, frame_ms);
    let total: usize = pcm.len();
    let n: usize = total / frame;
    if n == 0 {
        return if total > 0 && run_is_speech(pcm, speech_min) {
            slice_to_vec(pcm)
        } else {
            Vec::new()
        };
    }
    let (first, last): (usize, usize) = match find_speech(pcm, frame, speech_min) {
        Some(span) => span,
        None => {
            return Vec::new();
        },
    };
    proof {
        lemma_speech_span(pcm@, frame as int, speech_min, n as nat);
    }
    let from: usize = if first > pad_frames {
        first - pad_frames
    } else {
        0
    };
    let to: usize = if last + pad_frames < n - 1 {
        last + pad_frames
    } else {
        n - 1
    };
    proof {
        lemma_frame_bounds(total as int, frame as int, from as int);
        lemma_frame_bounds(total as int, frame as int, to as int);
        assert(from * frame <= to * frame) by (nonlinear_arith)
            requires
                from <= to,
                frame > 0,
        ;
    }
    slice_to_vec(&pcm[from * frame..(to + 1) * frame])
}

/// Trimming keeps every frame that is speech: it lies whole within what is
/// kept.
pub proof fn law_trimming_keeps_speech(
    pcm: Seq<i16>,
    frame: int,
    speech_min: u128,
    pad: nat,
    i: int,
)
    requires
        frame > 0,
        0 <= i < pcm.len() as int / frame,
        is_loud(pcm, frame, speech_min, i),
    ensures
        exists|at: int|
            0 <= at && at + frame <= without_silence(pcm, frame, speech_min, pad).len()
                && #[trigger] without_silence(pcm, frame, speech_min, pad).subrange(at, at + frame)
                == frame_at(pcm, frame, i),
{
    let n = pcm.len() as int / frame;
    lemma_speech_span(pcm, frame, speech_min, n as nat);
    let (first, last) = speech_span(pcm, frame, speech_min, n as nat)->0;
    let from = if first > pad {
        first - pad
    } else {
        0
    };
    let to = if last + pad < n - 1 {
        last + pad
    } else {
        n - 1
    };
    lemma_frame_bounds(pcm.len() as int, frame, from);
    lemma_frame_bounds(pcm.len() as int, frame, to);
    lemma_frame_bounds(pcm.len() as int, frame, i);
    assert(from * frame <= i * frame && (i + 1) * frame <= (to + 1) * frame) by (nonlinear_arith)
        requires
            from <= i <= to,
            frame > 0,
    ;
    let kept = without_silence(pcm, frame, speech_min, pad);
    let at = i * frame - from * frame;
    assert(kept.subrange(at, at + frame) =~= frame_at(pcm, frame, i));
}

/// Trimming never makes audio longer, and what is kept is one run of it.
pub proof fn law_trimming_cuts_a_run(pcm: Seq<i16>, frame: int, speech_min: u128, pad: nat)
    requires
        frame > 0,
    ensures
        exists|from: int, to: int|
            0 <= from <= to <= pcm.len() && without_silence(pcm, frame, speech_min, pad)
                == #[trigger] pcm.subrange(from, to),
{
    let n = pcm.len() as int / frame;
    let kept = without_silence(pcm, frame, speech_min, pad);
    if n == 0 {
        assert(pcm =~= pcm.subrange(0, pcm.len() as int));
        assert(pcm.subrange(0, 0) =~= Seq::empty());
    } else {
        lemma_speech_span(pcm, frame, speech_min, n as nat);
        match speech_span(pcm, frame, speech_min, n as nat) {
            None => {
                assert(kept =~= pcm.subrange(0, 0));
            },
            Some((first, last)) => {
                let from = if first > pad {
                    first - pad
                } else {
                    0
                };
                let to = if last + pad < n - 1 {
                    last + pad
                } else {
                    n - 1
                };
                lemma_frame_bounds(pcm.len() as int, frame, from);
                lemma_frame_bounds(pcm.len() as int, frame, to);
                assert(from * frame <= to * frame) by (nonlinear_arith)
                    requires
                        from <= to,
                        frame > 0,
                ;
                assert(kept == pcm.subrange(from * frame, (to + 1) * frame));
            },
        }
    }
}

/// Audio in which nothing is speech is trimmed to nothing, however short it is.
pub proof fn law_silence_is_trimmed_away(pcm: Seq<i16>, frame: int, speech_min: u128, pad: nat)
    requires
        frame > 0,
        no_speech(pcm, frame, speech_min),
    ensures
        without_silence(pcm, frame, speech_min, pad).len() == 0,
{
    let n = pcm.len() as int / frame;
    assert(n >= 0) by (nonlinear_arith)
        requires
            n == pcm.len() as int / frame,
            frame > 0,
    ;
    lemma_speech_span(pcm, frame, speech_min, n as nat);
}

/// Zero samples are silence wherever any loudness at all is asked of speech:
/// nothing is left of them, however few they are.
pub proof fn law_zeros_are_trimmed_away(pcm: Seq<i16>, frame: int, speech_min: u128, pad: nat)
    requires
        frame > 0,
        speech_min > 0,
        forall|i: int| 0 <= i < pcm.len() ==> (#[trigger] pcm[i]) == 0,
    ensures
        without_silence(pcm, frame, speech_min, pad).len() == 0,
{
    let n = pcm.len() as int / frame;
    if n == 0 {
        if pcm.len() > 0 {
            lemma_zeros_are_silence(pcm, speech_min);
        }
    } else {
        assert forall|i: int| 0 <= i < n implies !(#[trigger] is_loud(
            pcm,
            frame,
            speech_min,
            i,
        )) by {
            lemma_frame_bounds(pcm.len() as int, frame, i);
            lemma_zeros_are_silence(frame_at(pcm, frame, i), speech_min);
        }
    }
    law_silence_is_trimmed_away(pcm, frame, speech_min, pad);
}

proof fn lemma_zeros_are_silence(run: Seq<i16>, speech_min: u128)
    requires
        run.len() > 0,
        speech_min > 0,
        forall|i: int| 0 <= i < run.len() ==> (#[trigger] run[i]) == 0,
    ensures
        !is_speech_run(run, speech_min),
{
    lemma_zero_energy(run);
    assert(speech_min * run.len() > 0) by (nonlinear_arith)
        requires
            speech_min > 0,
            run.len() > 0,
    ;
}

proof fn lemma_zero_energy(run: Seq<i16>)
    requires
        forall|i: int| 0 <= i < run.len() ==> (#[trigger] run[i]) == 0,
    ensures
        energy(run) == 0,
    decreases run.len(),
{
    if run.len() > 0 {
        assert(run[run.len() - 1] == 0);
        lemma_zero_energy(run.drop_last());
    }
}

/// The speech of a run of whole frames cut out of audio: that of the audio,
/// counted from where the run starts.
proof fn lemma_span_of_cut(
    pcm: Seq<i16>,
    frame: int,
    speech_min: u128,
    from: int,
    to: int,
    n: nat,
    first: int,
    last: int,
)
    requires
        frame > 0,
        0 <= from <= to < pcm.len() as int / frame,
        n <= to - from + 1,
        from <= first <= last,
        is_loud(pcm, frame, speech_min, first),
        is_loud(pcm, frame, speech_min, last),
        forall|i: int|
            from <= i <= to && (#[trigger] is_loud(pcm, frame, speech_min, i)) ==> first <= i
                <= last,
    ensures
        ({
            let cut = pcm.subrange(from * frame, (to + 1) * frame);
            let span = speech_span(cut, frame, speech_min, n);
            &&& n > last - from ==> span == Some((first - from, last - from))
            &&& n <= first - from ==> span is None
            &&& first - from < n <= last - from ==> (span matches Some((f, _)) && f
                == first - from)
        }),
    decreases n,
{
    if n > 0 {
        let cut = pcm.subrange(from * frame, (to + 1) * frame);
        let i = from + n - 1;
        lemma_span_of_cut(pcm, frame, speech_min, from, to, (n - 1) as nat, first, last);
        lemma_frame_of_cut(pcm, frame, from, to, n - 1);
        assert(is_loud(cut, frame, speech_min, n - 1) == is_loud(pcm, frame, speech_min, i));
    }
}

proof fn lemma_frame_of_cut(pcm: Seq<i16>, frame: int, from: int, to: int, i: int)
    requires
        frame > 0,
        0 <= from <= to < pcm.len() as int / frame,
        0 <= i <= to - from,
    ensures
        frame_at(pcm.subrange(from * frame, (to + 1) * frame), frame, i) == frame_at(
            pcm,
            frame,
            from + i,
        ),
{
    lemma_frame_bounds(pcm.len() as int, frame, from);
    lemma_frame_bounds(pcm.len() as int, frame, to);
    lemma_frame_bounds(pcm.len() as int, frame, from + i);
    let cut = pcm.subrange(from * frame, (to + 1) * frame);
    assert((from + i) * frame == from * frame + i * frame && (from + i + 1) * frame == from * frame
        + (i + 1) * frame && 0 <= i * frame <= (i + 1) * frame && (from + i + 1) * frame <= (to + 1)
        * frame) by (nonlinear_arith)
        requires
            frame > 0,
            from >= 0,
            0 <= i <= to - from,
    ;
    assert(frame_at(cut, frame, i) =~= frame_at(pcm, frame, from + i));
}

/// Trimming twice changes nothing more, whatever is kept around the speech.
pub proof fn law_trimming_twice_changes_nothing(
    pcm: Seq<i16>,
    frame: int,
    speech_min: u128,
    pad: nat,
)
    requires
        frame > 0,
    ensures
        without_silence(without_silence(pcm, frame, speech_min, pad), frame, speech_min, pad)
            == without_silence(pcm, frame, speech_min, pad),
{
    let n = pcm.len() as int / frame;
    let kept = without_silence(pcm, frame, speech_min, pad);
    assert(n >= 0) by (nonlinear_arith)
        requires
            n == pcm.len() as int / frame,
            frame > 0,
    ;
    assert(0int / frame == 0) by (nonlinear_arith)
        requires
            frame > 0,
    ;
    if n > 0 {
        lemma_speech_span(pcm, frame, speech_min, n as nat);
        if let Some((first, last)) = speech_span(pcm, frame, speech_min, n as nat) {
            let from = if first > pad {
                first - pad
            } else {
                0
            };
            let to = if last + pad < n - 1 {
                last + pad
            } else {
                n - 1
            };
            let m = to - from + 1;
            lemma_frame_bounds(pcm.len() as int, frame, from);
            lemma_frame_bounds(pcm.len() as int, frame, to);
            assert(from * frame <= to * frame) by (nonlinear_arith)
                requires
                    from <= to,
                    frame > 0,
            ;
            assert(kept == pcm.subrange(from * frame, (to + 1) * frame));
            assert(kept.len() == m * frame) by (nonlinear_arith)
                requires
                    kept.len() == (to + 1) * frame - from * frame,
                    m == to - from + 1,
            ;
            assert(kept.len() as int / frame == m) by (nonlinear_arith)
                requires
                    kept.len() == m * frame,
                    frame > 0,
            ;
            lemma_span_of_cut(pcm, frame, speech_min, from, to, m as nat, first, last);
            assert(0 * frame == 0);
            assert(kept.subrange(0, kept.len() as int) =~= kept);
        }
    }
}

// ---------------------------------------------------------------------------
// Samples
// ---------------------------------------------------------------------------

/// Signed samples of unsigned ones.
pub fn samples_from_u16(data: &[u16]) -> (samples: Vec<i16>)
    ensures
        samples@.len() == data@.len(),
        forall|i: int| 0 <= i < data@.len() ==> (#[trigger] samples@[i]) == data@[i] - 32768,
{
    let mut samples: Vec<i16> = Vec::new();
    let mut i: usize = 0;
    while i < data.len()
        invariant
            0 <= i <= data@.len(),
            samples@.len() == i,
            forall|j: int| 0 <= j < i ==> (#[trigger] samples@[j]) == data@[j] - 32768,
        decreases data@.len() - i,
    {
        samples.push((data[i] as i32 - 32768) as i16);
        i += 1;
    }
    samples
}

// ---------------------------------------------------------------------------
// Recording a phrase
// ---------------------------------------------------------------------------

/// Records one phrase: watches what the microphone has delivered so far and
/// says when to stop.
#[derive(Debug, Clone, Copy)]
pub struct Recorder {
    pub enabled: bool,
    /// Samples per frame.
    pub frame: usize,
    /// Samples after which recording stops in any case.
    pub target: usize,
    pub vad: EnergyVad,
    /// Whether speech was heard.
    pub speaking: bool,
}

/// What the recorder does before it waits for more audio.
#[derive(Debug)]
pub enum Watch {
    /// Wait for more audio.
    Wait,
    /// The phrase is aborted.
    Stop,
    /// The microphone failed; what the user is told.
    Fail(String),
}

impl Recorder {
    pub open spec fn wf(self) -> bool {
        self.frame > 0
    }

    /// The last whole frame of what was delivered.
    pub open spec fn latest(self, buffer: Seq<i16>) -> Seq<i16> {
        frame_at(buffer, self.frame as int, buffer.len() as int / self.frame as int - 1)
    }

    /// Whether what was delivered holds a frame to judge.
    pub open spec fn has_frame(self, buffer: Seq<i16>) -> bool {
        self.enabled && buffer.len() as int / self.frame as int > 0
    }

    /// The recorder after it looked at what was delivered.
    pub open spec fn after(self, buffer: Seq<i16>) -> Recorder {
        if self.has_frame(buffer) {
            let frame = self.latest(buffer);
            Recorder {
                vad: self.vad.after(frame),
                speaking: self.speaking || self.vad.hears(frame),
                ..self
            }
        } else {
            self
        }
    }

    /// Whether the phrase is complete: where phrases are found, silence ended it
    /// or it is too long; otherwise the fixed length is there.
    pub open spec fn complete(self, buffer: Seq<i16>) -> bool {
        if self.has_frame(buffer) {
            let ended = self.vad.judged(self.latest(buffer)) == FrameState::End && self.speaking;
            ended || buffer.len() >= self.target
        } else {
            !self.enabled && buffer.len() >= self.target
        }
    }

    pub fn new(cfg: &VadConfig) -> (recorder: Self)
        requires
            cfg.sample_rate * cfg.frame_ms <= usize::MAX,
        ensures
            recorder.wf(),
            recorder.enabled == cfg.enabled,
            recorder.frame == frame_len(cfg.sample_rate, cfg.frame_ms),
            recorder.target == if cfg.enabled {
                cfg.max_samples
            } else {
                cfg.fixed_samples
            },
            recorder.vad.speech_min == cfg.speech_min,
            recorder.vad.silence_frames_trigger == cfg.silence_frames_trigger,
            recorder.vad.silence_runs == 0,
            !recorder.speaking,
    {
        Recorder {
            enabled: cfg.enabled,
            frame: frame_samples(cfg.sample_rate, cfg.frame_ms),
            target: if cfg.enabled {
                cfg.max_samples
            } else {
                cfg.fixed_samples
            },
            vad: EnergyVad::new(cfg),
            speaking: false,
        }
    }

    /// What to do before the next wait. An aborted phrase is no failure, even
    /// where the microphone failed.
    pub fn before_wait(&self, cancelled: bool, stream_error: Option<String>) -> (watch: Watch)
        ensures
            match watch {
                Watch::Stop => cancelled,
                Watch::Fail(m) => !cancelled && (stream_error matches Some(e) && m@
                    == "audio stream error: "@ + e@),
                Watch::Wait => !cancelled && stream_error is None,
            },
    {
        if cancelled {
            return Watch::Stop;
        }
        match stream_error {
            Some(e) => Watch::Fail("audio stream error: ".to_string().concat(e.as_str())),
            None => Watch::Wait,
        }
    }

    /// Looks at what was delivered so far, after a wait: whether the phrase is
    /// complete.
    pub fn after_wait(&mut self, buffer: &[i16]) -> (complete: bool)
        requires
            old(self).wf(),
            old(self).vad.silence_runs < u32::MAX,
        ensures
            *final(self) == old(self).after(buffer@),
            complete == old(self).complete(buffer@),
            final(self).wf(),
    {
        let len: usize = buffer.len();
        if !self.enabled {
            return len >= self.target;
        }
        let n: usize = len / self.frame;
        if n == 0 {
            return false;
        }
        proof {
            lemma_frame_bounds(len as int, self.frame as int, n - 1);
        }
        let frame: &[i16] = &buffer[(n - 1) * self.frame..n * self.frame];
        assert(frame@ == self.latest(buffer@));
        let state = self.vad.process_frame(frame);
        if state == FrameState::Speech {
            self.speaking = true;
        }
        if state == FrameState::End && self.speaking {
            return true;
        }
        len >= self.target
    }
}

/// Silence alone never completes a phrase: where phrases are found and no
/// speech was heard, recording goes on until the maximum length.
pub proof fn law_silence_alone_is_no_phrase(recorder: Recorder, buffer: Seq<i16>)
    requires
        recorder.enabled,
        !recorder.speaking,
        buffer.len() < recorder.target,
    ensures
        !recorder.complete(buffer),
{
}

/// No phrase is longer than it may be: recording stops as soon as the maximum
/// (or fixed) length is there.
pub proof fn law_recording_is_bounded(recorder: Recorder, buffer: Seq<i16>)
    requires
        recorder.wf(),
        buffer.len() >= recorder.target,
        recorder.enabled ==> buffer.len() >= recorder.frame,
    ensures
        recorder.complete(buffer),
{
    if recorder.enabled {
        assert(buffer.len() as int / recorder.frame as int > 0) by (nonlinear_arith)
            requires
                buffer.len() >= recorder.frame > 0,
        ;
    }
}

/// The samples of a phrase that are sent on.
pub open spec fn phrase_samples(cfg: VadConfig, samples: Seq<i16>) -> Seq<i16> {
    if cfg.trim_silence {
        without_silence(
            samples,
            frame_len(cfg.sample_rate, cfg.frame_ms),
            cfg.speech_min,
            cfg.pad_frames as nat,
        )
    } else {
        samples
    }
}

/// Whether a phrase can be trimmed and written as WAV audio.
pub open spec fn phrase_fits(cfg: VadConfig, samples: Seq<i16>) -> bool {
    &&& cfg.trim_silence ==> {
        &&& cfg.sample_rate * cfg.frame_ms <= usize::MAX
        &&& pad_fits(
            samples,
            frame_len(cfg.sample_rate, cfg.frame_ms),
            cfg.speech_min,
            cfg.pad_frames as nat,
        )
    }
    &&& 2 * phrase_samples(cfg, samples).len() <= usize::MAX
    &&& header_fits(1, 16, cfg.sample_rate, 2 * phrase_samples(cfg, samples).len())
}

/// The WAV audio of a phrase: 16-bit mono, trimmed where that is asked for.
pub fn phrase_wav(cfg: &VadConfig, samples: &[i16]) -> (wav: Vec<u8>)
    requires
        phrase_fits(*cfg, samples@),
    ensures
        wav@ == wav_bytes(1, 16, cfg.sample_rate, pcm_bytes(phrase_samples(*cfg, samples@))),
{
    if cfg.trim_silence {
        let kept = trim_silence(
            samples,
            cfg.sample_rate,
            cfg.speech_min,
            cfg.frame_ms,
            cfg.pad_frames,
        );
        wav_from_pcm(1, 16, cfg.sample_rate, &i16_to_pcm(&kept))
    } else {
        wav_from_pcm(1, 16, cfg.sample_rate, &i16_to_pcm(samples))
    }
}

/// Whether a phrase can be trimmed and written as WAV audio.
pub fn can_write(cfg: &VadConfig, samples: &[i16]) -> (possible: bool)
    ensures
        possible == phrase_fits(*cfg, samples@),
{
    let len: usize = if cfg.trim_silence {
        if !can_trim(samples, cfg.sample_rate, cfg.speech_min, cfg.frame_ms, cfg.pad_frames) {
            return false;
        }
        trim_silence(samples, cfg.sample_rate, cfg.speech_min, cfg.frame_ms, cfg.pad_frames).len()
    } else {
        samples.len()
    };
    if len > usize::MAX / 2 {
        return false;
    }
    header_holds(1, 16, cfg.sample_rate, 2 * len)
}

// ---------------------------------------------------------------------------
// Laws
// ---------------------------------------------------------------------------

/// Energy adds up: one sample has its square, and two runs have the sum of
/// theirs.
pub proof fn law_energy_adds_up(a: Seq<i16>, b: Seq<i16>, s: i16)
    ensures
        energy(Seq::empty()) == 0,
        energy(seq![s]) == s * s,
        energy(a + b) == energy(a) + energy(b),
    decreases b.len(),
{
    lemma_square(s);
    assert(seq![s].drop_last() =~= Seq::empty());
    assert(energy(seq![s].drop_last()) == 0);
    if b.len() == 0 {
        assert(a + b =~= a);
    } else {
        assert((a + b).drop_last() =~= a + b.drop_last());
        law_energy_adds_up(a, b.drop_last(), s);
    }
}

/// A run of any length is speech exactly where the squares of its samples reach
/// the limit on the average, at 2^60 parts of one.
pub proof fn law_speech_is_loud_on_the_average(run: Seq<i16>, speech_min: u128)
    requires
        run.len() > 0,
    ensures
        is_speech_run(run, speech_min) <==> energy(run) * 0x1000_0000_0000_0000 >= speech_min
            * run.len(),
{
}

/// Speech after speech is speech, and silence after silence is silence.
pub proof fn law_runs_are_judged_alike_together(a: Seq<i16>, b: Seq<i16>, speech_min: u128)
    requires
        a.len() > 0,
        b.len() > 0,
        is_speech_run(a, speech_min) == is_speech_run(b, speech_min),
    ensures
        is_speech_run(a + b, speech_min) == is_speech_run(a, speech_min),
{
    law_energy_adds_up(a, b, 0);
    let (m, x, y) = (speech_min as int, a.len() as int, b.len() as int);
    assert(m * (x + y) == m * x + m * y) by (nonlinear_arith);
}

/// A detector hears speech by the limit it was made with, whatever it heard
/// before and however long the frame is.
pub proof fn law_detector_hears_by_the_limit(vad: EnergyVad, frame: Seq<i16>)
    ensures
        vad.hears(frame) <==> is_speech_run(frame, vad.speech_min),
        vad.judged(frame) == FrameState::Speech <==> vad.hears(frame),
        vad.after(frame).speech_min == vad.speech_min,
        vad.after(frame).silence_frames_trigger == vad.silence_frames_trigger,
{
}

/// A frame holds as many whole samples as are played in its milliseconds, and
/// one at least.
pub proof fn law_frame_lasts_as_long_as_asked(sample_rate: u32, frame_ms: u32)
    ensures
        frame_len(sample_rate, frame_ms) >= 1,
        sample_rate * frame_ms < 1000 * (frame_len(sample_rate, frame_ms) + 1),
        sample_rate * frame_ms >= 1000 ==> 1000 * frame_len(sample_rate, frame_ms) <= sample_rate
            * frame_ms,
{
}

/// Trimming keeps the frames from the first that is speech to the last, with
/// as many around them as are asked for and there: no more and no less.
pub proof fn law_trimming_keeps_speech_and_its_pad(
    pcm: Seq<i16>,
    frame: int,
    speech_min: u128,
    pad: nat,
    first: int,
    last: int,
)
    requires
        frame > 0,
        0 <= first <= last < pcm.len() as int / frame,
        is_speech_run(pcm.subrange(first * frame, (first + 1) * frame), speech_min),
        is_speech_run(pcm.subrange(last * frame, (last + 1) * frame), speech_min),
        forall|i: int|
            #![trigger pcm.subrange(i * frame, (i + 1) * frame)]
            0 <= i < pcm.len() as int / frame && (i < first || last < i) ==> !is_speech_run(
                pcm.subrange(i * frame, (i + 1) * frame),
                speech_min,
            ),
    ensures
        ({
            let from = if first >= pad {
                first - pad
            } else {
                0
            };
            let to = if last + pad <= pcm.len() as int / frame - 1 {
                last + pad
            } else {
                pcm.len() as int / frame - 1
            };
            without_silence(pcm, frame, speech_min, pad) == pcm.subrange(
                from * frame,
                (to + 1) * frame,
            )
        }),
{
    let n = pcm.len() as int / frame;
    lemma_speech_span(pcm, frame, speech_min, n as nat);
    assert(is_loud(pcm, frame, speech_min, first));
    assert(is_loud(pcm, frame, speech_min, last));
    let (f, l) = speech_span(pcm, frame, speech_min, n as nat)->0;
    assert(is_speech_run(pcm.subrange(f * frame, (f + 1) * frame), speech_min));
    assert(is_speech_run(pcm.subrange(l * frame, (l + 1) * frame), speech_min));
    assert(f == first && l == last);
}

/// Audio that holds no whole frame is kept whole where it is speech, and dropped
/// otherwise.
pub proof fn law_short_audio_is_kept_or_dropped(
    pcm: Seq<i16>,
    frame: int,
    speech_min: u128,
    pad: nat,
)
    requires
        pcm.len() < frame,
    ensures
        without_silence(pcm, frame, speech_min, pad) == if pcm.len() > 0 && is_speech_run(
            pcm,
            speech_min,
        ) {
            pcm
        } else {
            Seq::empty()
        },
{
    assert(pcm.len() as int / frame == 0) by (nonlinear_arith)
        requires
            0 <= pcm.len() < frame,
    ;
}

/// There is room for the padding wherever the audio and the padding together can
/// be counted.
pub proof fn law_padding_has_room(pcm: Seq<i16>, frame: int, speech_min: u128, pad: nat)
    requires
        frame > 0,
        pcm.len() + pad <= usize::MAX,
    ensures
        pad_fits(pcm, frame, speech_min, pad),
{
    let n = pcm.len() as int / frame;
    lemma_speech_span(pcm, frame, speech_min, n as nat);
    assert(0 <= n <= pcm.len()) by (nonlinear_arith)
        requires
            n == pcm.len() as int / frame,
            frame > 0,
            pcm.len() >= 0,
    ;
}

/// The newest whole frame of what was delivered.
pub open spec fn newest(buffer: Seq<i16>, frame: int) -> Seq<i16> {
    let n = buffer.len() as int / frame;
    buffer.subrange((n - 1) * frame, n * frame)
}

proof fn lemma_newest(recorder: Recorder, buffer: Seq<i16>)
    requires
        recorder.frame > 0,
        buffer.len() >= recorder.frame,
    ensures
        buffer.len() as int / recorder.frame as int > 0,
        recorder.latest(buffer) == newest(buffer, recorder.frame as int),
{
    let n = buffer.len() as int / recorder.frame as int;
    assert(n > 0) by (nonlinear_arith)
        requires
            n == buffer.len() as int / recorder.frame as int,
            buffer.len() >= recorder.frame > 0,
    ;
    assert((n - 1 + 1) * recorder.frame == n * recorder.frame);
}

/// Where phrases are found and speech was heard, the phrase is complete as soon
/// as the newest frame completes the silence that ends it, however much audio
/// was delivered.
pub proof fn law_silence_after_speech_completes(recorder: Recorder, buffer: Seq<i16>)
    requires
        recorder.enabled,
        recorder.frame > 0,
        recorder.speaking,
        buffer.len() >= recorder.frame,
        !is_speech_run(newest(buffer, recorder.frame as int), recorder.vad.speech_min),
        recorder.vad.silence_runs + 1 >= recorder.vad.silence_frames_trigger,
    ensures
        recorder.complete(buffer),
{
    lemma_newest(recorder, buffer);
}

/// Nothing else completes a phrase: it is complete only where its longest length
/// is there, or where phrases are found, speech was heard and enough silence
/// has followed.
pub proof fn law_nothing_else_completes_a_phrase(recorder: Recorder, buffer: Seq<i16>)
    requires
        recorder.frame > 0,
        recorder.complete(buffer),
        buffer.len() < recorder.target,
    ensures
        recorder.enabled,
        recorder.speaking,
        buffer.len() >= recorder.frame,
        !is_speech_run(newest(buffer, recorder.frame as int), recorder.vad.speech_min),
        recorder.vad.silence_runs + 1 >= recorder.vad.silence_frames_trigger,
{
    if buffer.len() < recorder.frame {
        assert(buffer.len() as int / recorder.frame as int == 0) by (nonlinear_arith)
            requires
                0 <= buffer.len() < recorder.frame,
        ;
    }
    lemma_newest(recorder, buffer);
}

/// A look at what was delivered tells the detector the newest frame and
/// remembers whether speech was ever heard. Without a whole frame, or where
/// phrases are not found, it changes nothing.
pub proof fn law_a_look_hears_the_newest_frame(recorder: Recorder, buffer: Seq<i16>)
    requires
        recorder.frame > 0,
    ensures
        ({
            let next = recorder.after(buffer);
            let frame = newest(buffer, recorder.frame as int);
            &&& recorder.enabled && buffer.len() >= recorder.frame ==> next.vad
                == recorder.vad.after(frame) && next.speaking == (recorder.speaking
                || is_speech_run(frame, recorder.vad.speech_min))
            &&& !recorder.enabled || buffer.len() < recorder.frame ==> next == recorder
            &&& next.enabled == recorder.enabled && next.frame == recorder.frame && next.target
                == recorder.target
        }),
{
    if buffer.len() < recorder.frame {
        assert(buffer.len() as int / recorder.frame as int == 0) by (nonlinear_arith)
            requires
                0 <= buffer.len() < recorder.frame,
        ;
    } else {
        lemma_newest(recorder, buffer);
    }
}

/// The recorder after several looks at what was delivered.
pub open spec fn after_looks(recorder: Recorder, looks: Seq<Seq<i16>>) -> Recorder
    decreases looks.len(),
{
    if looks.len() == 0 {
        recorder
    } else {
        after_looks(recorder, looks.drop_last()).after(looks.last())
    }
}

proof fn lemma_silent_looks(recorder: Recorder, looks: Seq<Seq<i16>>)
    requires
        recorder.enabled,
        recorder.frame > 0,
        recorder.vad.silence_runs + looks.len() <= u32::MAX,
        forall|i: int|
            0 <= i < looks.len() ==> (#[trigger] looks[i]).len() >= recorder.frame
                && !is_speech_run(newest(looks[i], recorder.frame as int), recorder.vad.speech_min),
    ensures
        after_looks(recorder, looks) == (Recorder {
            vad: EnergyVad {
                silence_runs: (recorder.vad.silence_runs + looks.len()) as u32,
                ..recorder.vad
            },
            ..recorder
        }),
    decreases looks.len(),
{
    if looks.len() > 0 {
        let front = looks.drop_last();
        assert forall|i: int| 0 <= i < front.len() implies (#[trigger] front[i]).len()
            >= recorder.frame && !is_speech_run(
            newest(front[i], recorder.frame as int),
            recorder.vad.speech_min,
        ) by {
            assert(front[i] == looks[i]);
        }
        lemma_silent_looks(recorder, front);
        let last = looks[looks.len() - 1];
        lemma_newest(after_looks(recorder, front), last);
    }
}

/// However long a phrase is, it is complete exactly with the look that sees the
/// last of the silent frames that end it, or once its longest length is there:
/// after a look that heard speech and `silent` looks that heard none, the next
/// one that hears none completes it where that makes the silence long enough.
pub proof fn law_a_phrase_ends_with_its_silence(
    recorder: Recorder,
    spoken: Seq<i16>,
    silent: Seq<Seq<i16>>,
    next: Seq<i16>,
)
    requires
        recorder.enabled,
        recorder.frame > 0,
        silent.len() < u32::MAX,
        spoken.len() >= recorder.frame,
        is_speech_run(newest(spoken, recorder.frame as int), recorder.vad.speech_min),
        forall|i: int|
            0 <= i < silent.len() ==> (#[trigger] silent[i]).len() >= recorder.frame
                && !is_speech_run(newest(silent[i], recorder.frame as int), recorder.vad.speech_min),
        next.len() >= recorder.frame,
        !is_speech_run(newest(next, recorder.frame as int), recorder.vad.speech_min),
    ensures
        after_looks(recorder.after(spoken), silent).complete(next) <==> silent.len() + 1
            >= recorder.vad.silence_frames_trigger || next.len() >= recorder.target,
{
    lemma_newest(recorder, spoken);
    lemma_silent_looks(recorder.after(spoken), silent);
    lemma_newest(after_looks(recorder.after(spoken), silent), next);
}

/// While speech goes on, only the longest length completes a phrase.
pub proof fn law_speech_goes_on(recorder: Recorder, buffer: Seq<i16>)
    requires
        recorder.enabled,
        recorder.frame > 0,
        buffer.len() >= recorder.frame,
        is_speech_run(newest(buffer, recorder.frame as int), recorder.vad.speech_min),
    ensures
        recorder.complete(buffer) <==> buffer.len() >= recorder.target,
{
    lemma_newest(recorder, buffer);
}

/// What is sent of a phrase is all of it, or what trimming at the loudness and
/// padding of the settings leaves.
pub proof fn law_a_phrase_is_whole_or_trimmed(cfg: VadConfig, samples: Seq<i16>)
    ensures
        !cfg.trim_silence ==> phrase_samples(cfg, samples) == samples,
        cfg.trim_silence ==> phrase_samples(cfg, samples) == without_silence(
            samples,
            frame_len(cfg.sample_rate, cfg.frame_ms),
            cfg.speech_min,
            cfg.pad_frames as nat,
        ),
{
}

/// A phrase can be written wherever the settings can be counted with and the
/// samples fit a WAV buffer.
pub proof fn law_an_ordinary_phrase_can_be_written(cfg: VadConfig, samples: Seq<i16>)
    requires
        cfg.sample_rate * cfg.frame_ms <= usize::MAX,
        samples.len() + cfg.pad_frames <= usize::MAX,
        2 * samples.len() <= u32::MAX - 36,
        2 * cfg.sample_rate <= u32::MAX,
    ensures
        phrase_fits(cfg, samples),
{
    let frame = frame_len(cfg.sample_rate, cfg.frame_ms);
    law_padding_has_room(samples, frame, cfg.speech_min, cfg.pad_frames as nat);
    law_trimming_cuts_a_run(samples, frame, cfg.speech_min, cfg.pad_frames as nat);
    let kept = without_silence(samples, frame, cfg.speech_min, cfg.pad_frames as nat);
    let (from, to) = choose|from: int, to: int|
        0 <= from <= to <= samples.len() && kept == #[trigger] samples.subrange(from, to);
    assert(block_align_of(1, 16) == 2);
    assert(cfg.sample_rate * block_align_of(1, 16) == cfg.sample_rate * 2);
    law_a_header_holds_what_fits(1, 16, cfg.sample_rate, 2 * phrase_samples(cfg, samples).len());
}

} // verus!
