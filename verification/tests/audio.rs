//! Voice detection, trimming and recording.

use way_dictation::audio::{
    can_trim, can_write, frame_energy, frame_samples, phrase_wav, samples_from_u16, trim_silence,
    EnergyVad, FrameState, Recorder, VadConfig, Watch, MEAN_PARTS,
};
use way_dictation::wav::{i16_to_pcm, parse_wav};

/// The least mean square whose root, of full scale, is above a threshold.
fn speech_min(threshold: f32) -> u128 {
    let parts = MEAN_PARTS as f64 * (32768.0 * 32768.0);
    let loud = |mean: u128| (mean as f64 / parts).sqrt() > threshold as f64;
    let mut low = 0u128;
    let mut high = MEAN_PARTS as u128 * (1 << 30) + 1;
    while low < high {
        let middle = (low + high) / 2;
        if loud(middle) {
            high = middle;
        } else {
            low = middle + 1;
        }
    }
    low
}

fn config() -> VadConfig {
    VadConfig { speech_min: speech_min(0.01), ..VadConfig::default() }
}

/// A run of samples of the given energy, where one was found.
fn find_run(len: usize, energy: u64) -> Option<Vec<i16>> {
    let mut left = energy;
    let mut run = Vec::new();
    for i in 0..len {
        // an even share, and near the end as much as is left
        let share = if len - i > 12 { left / (len - i) as u64 } else { left };
        let sample = ((share as f64).sqrt().floor() as u64).min(32767);
        left -= sample * sample;
        run.push(sample as i16);
    }
    if left == 0 {
        Some(run)
    } else {
        None
    }
}

fn run_of_energy(len: usize, energy: u64) -> Vec<i16> {
    let run = find_run(len, energy).unwrap();
    assert_eq!(frame_energy(&run), energy as u128);
    run
}

#[test]
fn rms_detects_speech() {
    let cfg = config();
    let mut vad = EnergyVad::new(&cfg);
    let loud = vec![12000i16; 320];
    let quiet = vec![0i16; 320];
    assert!(vad.is_speech(&loud));
    assert!(!vad.is_speech(&quiet));
    assert_eq!(vad.process_frame(&loud).as_str(), "speech");
    // 20 consecutive silent frames -> "end"
    let mut state = "silence";
    for _ in 0..20 {
        state = vad.process_frame(&quiet).as_str();
    }
    assert_eq!(state, "end");
}

#[test]
fn trim_removes_silence() {
    let mut pcm = vec![0i16; 1600]; // 100ms silence
    pcm.extend(vec![8000i16; 1600]); // 100ms speech
    pcm.extend(vec![0i16; 1600]); // 100ms silence
    let trimmed = trim_silence(&pcm, 16000, speech_min(0.01), 20, 0);
    assert!(!trimmed.is_empty());
    assert!(trimmed.len() < pcm.len());
    assert_eq!(trimmed, vec![8000i16; 1600]);
}

#[test]
fn energy_is_the_sum_of_squares() {
    assert_eq!(frame_energy(&[]), 0);
    assert_eq!(frame_energy(&[3, -4]), 25);
    assert_eq!(frame_energy(&[-32768, -32768]), 2 * 1073741824);
}

#[test]
fn threshold_decides() {
    // at 0.01, a steady sample of 328 is the first that is louder
    let vad = EnergyVad::new(&config());
    assert!(!vad.is_speech(&[327; 320]));
    assert!(vad.is_speech(&[328; 320]));
    // and of a frame, the energy 34359737 is the least
    assert!(!vad.is_speech(&run_of_energy(320, 34359736)));
    assert!(vad.is_speech(&run_of_energy(320, 34359737)));
}

#[test]
fn silence_is_counted_anew_after_speech() {
    let mut vad = EnergyVad::new(&config());
    let loud = vec![12000i16; 320];
    let quiet = vec![0i16; 320];
    for _ in 0..19 {
        assert_eq!(vad.process_frame(&quiet), FrameState::Silence);
    }
    assert_eq!(vad.process_frame(&loud), FrameState::Speech);
    for _ in 0..19 {
        assert_eq!(vad.process_frame(&quiet), FrameState::Silence);
    }
    assert_eq!(vad.process_frame(&quiet), FrameState::End);
    assert_eq!(vad.process_frame(&quiet), FrameState::End);
}

#[test]
fn trimming_keeps_a_pad() {
    let mut pcm = vec![0i16; 3200];
    pcm.extend(vec![8000i16; 320]);
    pcm.extend(vec![0i16; 3200]);
    let limit = speech_min(0.01);
    assert_eq!(trim_silence(&pcm, 16000, limit, 20, 2).len(), 5 * 320);
    // the pad ends where the audio does
    assert_eq!(trim_silence(&pcm, 16000, limit, 20, 100), pcm);
}

#[test]
fn trimming_of_edge_cases() {
    let limit = speech_min(0.01);
    assert_eq!(trim_silence(&[], 16000, limit, 20, 0), Vec::<i16>::new());
    // less than a frame is judged as one
    assert_eq!(trim_silence(&[0; 10], 16000, limit, 20, 0), Vec::<i16>::new());
    assert_eq!(trim_silence(&[327; 319], 16000, limit, 20, 0), Vec::<i16>::new());
    assert_eq!(trim_silence(&[400; 10], 16000, limit, 20, 0), vec![400; 10]);
    assert_eq!(trim_silence(&[0; 3200], 16000, limit, 20, 5), Vec::<i16>::new());
    // what is left over after the last whole frame is dropped
    let mut pcm = vec![8000i16; 320];
    pcm.extend(vec![8000i16; 100]);
    assert_eq!(trim_silence(&pcm, 16000, limit, 20, 5).len(), 320);
}

#[test]
fn trimming_twice_changes_nothing() {
    let limit = speech_min(0.01);
    let mut pcm = vec![0i16; 3200];
    pcm.extend(vec![8000i16; 320]);
    pcm.extend(vec![0i16; 640]);
    pcm.extend(vec![8000i16; 320]);
    pcm.extend(vec![0i16; 3300]);
    for pad in [0, 1, 3, 50] {
        let once = trim_silence(&pcm, 16000, limit, 20, pad);
        assert_eq!(trim_silence(&once, 16000, limit, 20, pad), once);
    }
}

#[test]
fn frames_of_any_length_are_judged_by_their_average() {
    let vad = EnergyVad::new(&config());
    assert!(vad.is_speech(&[400; 160]));
    assert!(!vad.is_speech(&[327; 160]));
    assert!(!vad.is_speech(&[327; 640]));
    assert!(vad.is_speech(&[328; 640]));
    assert!(!vad.is_speech(&[]));
    assert!(vad.is_speech(&run_of_energy(1000, 107374178)));
    assert!(!vad.is_speech(&run_of_energy(1000, 107374177)));
    assert!(vad.is_speech(&run_of_energy(45, 4831838)));
    assert!(!vad.is_speech(&run_of_energy(45, 4831837)));
    // however large the numbers are
    let deaf = EnergyVad { speech_min: u128::MAX, ..vad };
    assert!(!deaf.is_speech(&[-32768; 320]));
    let keen = EnergyVad { speech_min: 0, ..vad };
    assert!(keen.is_speech(&[0; 5]) && keen.is_speech(&[]));
}

#[test]
fn loudness_is_the_root_of_the_mean_square() {
    let rms = |run: &[i16]| {
        let squares = run.iter().map(|&s| (s as f64 / 32768.0) * (s as f64 / 32768.0));
        (squares.sum::<f64>() / run.len() as f64).sqrt()
    };
    for threshold in [-1.0f32, 0.0, 0.0001, 0.003, 0.01, 0.0123, 0.1, 0.7, 0.9, f32::NAN] {
        let vad = EnergyVad { speech_min: speech_min(threshold), ..EnergyVad::new(&config()) };
        let mean = (threshold as f64).max(0.0).powi(2) * (1u64 << 30) as f64;
        let mut tried = 0;
        for len in [1usize, 7, 45, 160, 319, 320, 640, 882, 1000, 4999] {
            let limit = (mean * len as f64) as u64;
            for energy in limit.saturating_sub(3)..=limit + 3 {
                let Some(run) = find_run(len, energy) else {
                    continue;
                };
                tried += 1;
                assert_eq!(vad.is_speech(&run), rms(&run) > threshold as f64, "{energy} {len}");
            }
        }
        assert!(tried > 0);
    }
    // nothing is louder than full scale
    let deaf = EnergyVad { speech_min: speech_min(1.0), ..EnergyVad::new(&config()) };
    assert!(!deaf.is_speech(&[-32768; 320]));
}

#[test]
fn louder_is_speech_too() {
    let vad = EnergyVad::new(&config());
    for energy in [34359737u64, 40000000, 1000000000] {
        assert!(vad.is_speech(&run_of_energy(320, energy)));
    }
}

#[test]
fn the_default_is_for_16_khz() {
    let cfg = VadConfig::default();
    assert_eq!((cfg.sample_rate, cfg.frame_ms, cfg.silence_frames_trigger), (16000, 20, 20));
    assert_eq!(cfg.speech_min, speech_min(0.010));
    assert_eq!((cfg.max_samples, cfg.fixed_samples, cfg.pad_frames), (480000, 80000, 7));
    assert!(cfg.enabled && cfg.trim_silence);
}

#[test]
fn trimming_has_limits() {
    assert!(can_trim(&[8000; 640], 16000, speech_min(0.01), 20, 7));
    assert!(!can_trim(&[8000; 640], 16000, speech_min(0.01), 20, usize::MAX));
    assert!(can_trim(&[0; 640], 16000, speech_min(0.01), 20, usize::MAX));
}

#[test]
fn frames_have_a_sample_at_least() {
    assert_eq!(frame_samples(16000, 20), 320);
    assert_eq!(frame_samples(44100, 20), 882);
    assert_eq!(frame_samples(8, 20), 1);
    assert_eq!(frame_samples(0, 0), 1);
}

#[test]
fn unsigned_samples_are_shifted() {
    assert_eq!(samples_from_u16(&[0, 32768, 65535]), vec![-32768, 0, 32767]);
}

#[test]
fn a_phrase_ends_with_silence() {
    let mut recorder = Recorder::new(&config());
    let mut buffer: Vec<i16> = Vec::new();
    assert!(!recorder.after_wait(&buffer));
    // silence alone ends nothing
    for _ in 0..50 {
        buffer.extend(vec![0i16; 320]);
        assert!(!recorder.after_wait(&buffer));
    }
    buffer.extend(vec![12000i16; 320]);
    assert!(!recorder.after_wait(&buffer));
    assert!(recorder.speaking);
    for _ in 0..19 {
        buffer.extend(vec![0i16; 320]);
        assert!(!recorder.after_wait(&buffer));
    }
    buffer.extend(vec![0i16; 320]);
    assert!(recorder.after_wait(&buffer));
}

#[test]
fn a_phrase_has_a_maximum_length() {
    let mut recorder = Recorder::new(&VadConfig { max_samples: 1000, ..config() });
    assert!(!recorder.after_wait(&[12000; 999]));
    assert!(recorder.after_wait(&[12000; 1000]));
}

#[test]
fn a_fixed_length_is_recorded_without_detection() {
    let cfg = VadConfig { enabled: false, fixed_samples: 500, max_samples: 1, ..config() };
    let mut recorder = Recorder::new(&cfg);
    assert!(!recorder.after_wait(&[12000; 499]));
    assert!(recorder.after_wait(&[0; 500]));
}

#[test]
fn recording_is_aborted_or_fails() {
    let recorder = Recorder::new(&config());
    assert!(matches!(recorder.before_wait(false, None), Watch::Wait));
    assert!(matches!(recorder.before_wait(true, None), Watch::Stop));
    assert!(matches!(recorder.before_wait(true, Some("gone".to_string())), Watch::Stop));
    match recorder.before_wait(false, Some("gone".to_string())) {
        Watch::Fail(message) => assert_eq!(message, "audio stream error: gone"),
        other => panic!("{other:?}"),
    }
}

#[test]
fn a_phrase_is_written_as_wav() {
    let mut samples = vec![0i16; 3200];
    samples.extend(vec![8000i16; 320]);
    let cfg = VadConfig { pad_frames: 0, ..config() };
    assert!(can_write(&cfg, &samples));
    let wav = parse_wav(&phrase_wav(&cfg, &samples)).unwrap();
    assert_eq!((wav.channels, wav.bits_per_sample, wav.sample_rate), (1, 16, 16000));
    assert_eq!(wav.data, i16_to_pcm(&[8000; 320]));
    let whole = VadConfig { trim_silence: false, ..cfg };
    assert_eq!(parse_wav(&phrase_wav(&whole, &samples)).unwrap().data, i16_to_pcm(&samples));
    assert!(!can_write(&VadConfig { sample_rate: u32::MAX, ..whole }, &samples));
}
