//! Writing, reading, measuring and splitting WAV files.

use way_dictation::wav::{
    can_split, header_holds, i16_to_pcm, longer_than, parse_wav, split_chunks, wav_from_pcm,
    WavError,
};

fn chunk(id: &[u8; 4], data: &[u8]) -> Vec<u8> {
    let mut out = id.to_vec();
    out.extend((data.len() as u32).to_le_bytes());
    out.extend(data);
    if data.len() % 2 == 1 {
        out.push(0);
    }
    out
}

fn riff(chunks: &[Vec<u8>]) -> Vec<u8> {
    let mut out = b"RIFF\0\0\0\0WAVE".to_vec();
    for c in chunks {
        out.extend(c);
    }
    out
}

fn fmt(format: u16, bits: u16, align: u16) -> Vec<u8> {
    let mut data = Vec::new();
    data.extend(format.to_le_bytes());
    data.extend(1u16.to_le_bytes());
    data.extend(16000u32.to_le_bytes());
    data.extend(32000u32.to_le_bytes());
    data.extend(align.to_le_bytes());
    data.extend(bits.to_le_bytes());
    chunk(b"fmt ", &data)
}

#[test]
fn roundtrip_i16_mono() {
    let samples: Vec<i16> = (0..1600).map(|i| (i % 100 - 50) as i16).collect();
    let pcm = i16_to_pcm(&samples);
    let wav = wav_from_pcm(1, 16, 16000, &pcm);
    let parsed = parse_wav(&wav).unwrap();
    assert_eq!(parsed.sample_rate, 16000);
    assert_eq!(parsed.channels, 1);
    assert_eq!(parsed.bits_per_sample, 16);
    assert_eq!(parsed.frames(), 1600);
    let duration_ms = parsed.data.len() as f64 / parsed.byte_rate as f64 * 1000.0;
    assert!((duration_ms - 100.0).abs() < 0.01);
    assert!(!parsed.exceeds_ms(100));
    assert!(parsed.exceeds_ms(99));
    assert_eq!(parsed.data, pcm);
}

#[test]
fn splits_with_overlap() {
    // 1 second of 16k mono i16 = 16000 frames, 32000 bytes
    let samples = vec![100i16; 16000];
    let pcm = i16_to_pcm(&samples);
    let wav = wav_from_pcm(1, 16, 16000, &pcm);
    // 300ms chunks, 100ms overlap -> 5 chunks (0-300, 200-500, 400-700, 600-900, 800-1000)
    let chunks = split_chunks(&wav, 300, 100).unwrap();
    assert_eq!(chunks.len(), 5);
    for c in &chunks {
        assert!(parse_wav(c).is_ok());
    }
}

#[test]
fn rejects_non_pcm() {
    let wav = wav_from_pcm(1, 16, 16000, &[0u8; 320]);
    let mut bad = wav;
    // the low byte of the encoding: 3 is floating point
    bad[20] = 3;
    assert!(parse_wav(&bad).is_err());
    assert_eq!(parse_wav(&bad).unwrap_err(), WavError::UnsupportedEncoding(3));
}

#[test]
fn header_is_exact() {
    let wav = wav_from_pcm(2, 16, 44100, &[1, 2, 3, 4]);
    let mut expected = b"RIFF".to_vec();
    expected.extend(40u32.to_le_bytes());
    expected.extend(b"WAVEfmt ");
    expected.extend(16u32.to_le_bytes());
    expected.extend(1u16.to_le_bytes());
    expected.extend(2u16.to_le_bytes());
    expected.extend(44100u32.to_le_bytes());
    expected.extend(176400u32.to_le_bytes());
    expected.extend(4u16.to_le_bytes());
    expected.extend(16u16.to_le_bytes());
    expected.extend(b"data");
    expected.extend(4u32.to_le_bytes());
    expected.extend([1, 2, 3, 4]);
    assert_eq!(wav, expected);
}

#[test]
fn samples_are_little_endian() {
    assert_eq!(i16_to_pcm(&[1, -1, 256, -32768]), vec![1, 0, 255, 255, 0, 1, 0, 128]);
    assert_eq!(i16_to_pcm(&[]), Vec::<u8>::new());
}

#[test]
fn header_limits() {
    assert!(header_holds(1, 16, 16000, 32000));
    assert!(!header_holds(5000, 16, 16000, 0));
    assert!(!header_holds(1, 16, u32::MAX, 0));
}

#[test]
fn each_fault_has_its_error() {
    let audio = chunk(b"data", &[1, 2]);
    let cases: Vec<(Vec<u8>, WavError)> = vec![
        (Vec::new(), WavError::NotRiff),
        (b"RIFF\0\0\0\0WAVX".to_vec(), WavError::NotRiff),
        (
            riff(&[b"abcd\x09\0\0\0x".to_vec()]),
            WavError::TruncatedChunk(b'a', b'b', b'c', b'd'),
        ),
        (riff(&[chunk(b"fmt ", &[0; 15])]), WavError::FmtTooSmall),
        (riff(&[audio.clone()]), WavError::NoFmt),
        (riff(&[fmt(0xFFFE, 16, 2), audio.clone()]), WavError::Extensible),
        (riff(&[fmt(7, 16, 2), audio.clone()]), WavError::UnsupportedEncoding(7)),
        (riff(&[fmt(1, 12, 2), audio.clone()]), WavError::UnsupportedBitDepth(12)),
        (riff(&[fmt(1, 16, 2)]), WavError::NoData),
    ];
    for (bytes, error) in cases {
        assert_eq!(parse_wav(&bytes).unwrap_err(), error);
    }
    let unaligned = riff(&[fmt(1, 16, 0), audio]);
    assert_eq!(split_chunks(&unaligned, 300, 100).unwrap_err(), WavError::ZeroBlockAlign);
}

#[test]
fn errors_are_told() {
    assert_eq!(WavError::NotRiff.message(), "not a RIFF/WAVE file");
    assert_eq!(
        WavError::TruncatedChunk(b'd', b'a', 0xff, b'a').message(),
        "truncated WAV chunk 'da\u{fffd}a'"
    );
    assert_eq!(WavError::FmtTooSmall.message(), "fmt chunk too small");
    assert_eq!(WavError::NoFmt.message(), "WAV file has no fmt chunk");
    assert_eq!(
        WavError::Extensible.message(),
        "WAVE_FORMAT_EXTENSIBLE is not supported; convert with ffmpeg: ffmpeg -i in.wav out.wav"
    );
    assert_eq!(
        WavError::UnsupportedEncoding(3).message(),
        "unsupported WAV encoding (audio_format=3); convert with ffmpeg: ffmpeg -i in.wav out.wav"
    );
    assert_eq!(
        WavError::UnsupportedBitDepth(12).message(),
        "unsupported bit depth 12; convert with ffmpeg"
    );
    assert_eq!(WavError::NoData.message(), "WAV file has no data chunk");
    assert_eq!(WavError::ZeroBlockAlign.message(), "WAV block_align is 0");
}

#[test]
fn other_chunks_are_skipped() {
    // a chunk of odd length is followed by a byte that belongs to no chunk
    let bytes = riff(&[
        chunk(b"LIST", &[1, 2, 3]),
        fmt(1, 16, 2),
        chunk(b"data", &[9, 9]),
        chunk(b"data", &[1, 2, 3, 4]),
    ]);
    let wav = parse_wav(&bytes).unwrap();
    // of two data chunks the last one counts
    assert_eq!(wav.data, vec![1, 2, 3, 4]);
    assert_eq!(wav.frames(), 2);
}

#[test]
fn unknown_chunks_change_nothing() {
    let parts = [fmt(1, 16, 2), chunk(b"data", &[1, 2, 3, 4])];
    let plain = parse_wav(&riff(&parts)).unwrap();
    for junk in [chunk(b"LIST", &[]), chunk(b"JUNK", &[7; 3]), chunk(b"fmtx", &[7; 4])] {
        for at in 0..3 {
            let mut with = parts.to_vec();
            with.insert(at, junk.clone());
            let wav = parse_wav(&riff(&with)).unwrap();
            assert_eq!(wav.data, plain.data);
            assert_eq!(
                (wav.channels, wav.bits_per_sample, wav.sample_rate),
                (plain.channels, plain.bits_per_sample, plain.sample_rate)
            );
            assert_eq!(
                (wav.byte_rate, wav.block_align),
                (plain.byte_rate, plain.block_align)
            );
        }
    }
}

#[test]
fn chunks_overlap_and_lose_nothing() {
    let samples: Vec<i16> = (0..16000).map(|i| i as i16).collect();
    let pcm = i16_to_pcm(&samples);
    let wav = wav_from_pcm(1, 16, 16000, &pcm);
    let chunks = split_chunks(&wav, 300, 100).unwrap();
    let overlap = 3200;
    let mut joined: Vec<u8> = Vec::new();
    for (i, c) in chunks.iter().enumerate() {
        let data = parse_wav(c).unwrap().data;
        if i == 0 {
            joined.extend(&data);
        } else {
            assert_eq!(joined[joined.len() - overlap..], data[..overlap]);
            joined.extend(&data[overlap..]);
        }
    }
    assert_eq!(joined, pcm);
}

#[test]
fn short_audio_is_not_split() {
    let wav = wav_from_pcm(1, 16, 16000, &[0; 320]);
    assert_eq!(split_chunks(&wav, 300, 100).unwrap(), vec![wav.clone()]);
    assert_eq!(split_chunks(&wav, 0, 0).unwrap(), vec![wav]);
    assert_eq!(split_chunks(&[], 300, 100).unwrap_err(), WavError::NotRiff);
}

#[test]
fn overlap_must_be_shorter_than_a_chunk() {
    let wav = wav_from_pcm(1, 16, 16000, &[0; 32000]);
    assert!(can_split(&wav, 300, 100));
    assert!(!can_split(&wav, 300, 300));
    // audio that is not cut needs no overlap
    assert!(can_split(&wav, 2000, 2000));
    assert!(can_split(&[], 300, 300));
}

#[test]
fn lengths_are_compared() {
    let wav = wav_from_pcm(1, 16, 16000, &[0; 32000]);
    assert!(longer_than(&wav, 999));
    assert!(!longer_than(&wav, 1000));
    assert!(!longer_than(b"no audio", 0));
}
