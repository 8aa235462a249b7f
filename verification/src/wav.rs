//! The RIFF/WAVE format: parsing, writing, measuring and splitting.
//!
//! Only plain PCM (8, 16, 24 or 32 bits, any number of channels) is supported;
//! other encodings are refused with a message that names ffmpeg.

use vstd::prelude::*;
use vstd::string::*;

use crate::text::{
    decimal, decimal_digits, digits_value, law_digits_spell_the_number, lossy, lossy_text,
};

verus! {

/// What a WAV buffer says of its audio, with the raw bytes of its `data` chunk.
#[derive(Debug, Clone)]
pub struct Wav {
    pub channels: u16,
    pub bits_per_sample: u16,
    pub sample_rate: u32,
    pub byte_rate: u32,
    pub block_align: u16,
    /// Raw PCM sample bytes (the `data` chunk).
    pub data: Vec<u8>,
}

/// The mathematical content of a [`Wav`].
#[verifier::ext_equal]
pub struct WavView {
    pub channels: u16,
    pub bits_per_sample: u16,
    pub sample_rate: u32,
    pub byte_rate: u32,
    pub block_align: u16,
    pub data: Seq<u8>,
}

impl View for Wav {
    type V = WavView;

    open spec fn view(&self) -> WavView {
        WavView {
            channels: self.channels,
            bits_per_sample: self.bits_per_sample,
            sample_rate: self.sample_rate,
            byte_rate: self.byte_rate,
            block_align: self.block_align,
            data: self.data@,
        }
    }
}

/// Why a buffer is not accepted as WAV audio.
#[derive(Debug, Clone, Copy, PartialEq, Eq, Structural)]
pub enum WavError {
    /// The buffer does not start as a RIFF/WAVE file does.
    NotRiff,
    /// A chunk (its four identifying bytes are given) runs past the end.
    TruncatedChunk(u8, u8, u8, u8),
    FmtTooSmall,
    NoFmt,
    Extensible,
    /// An encoding other than PCM, with its format number.
    UnsupportedEncoding(u16),
    UnsupportedBitDepth(u16),
    NoData,
    ZeroBlockAlign,
}

// ---------------------------------------------------------------------------
// Little-endian numbers
// ---------------------------------------------------------------------------

pub open spec fn u16_bytes(x: u16) -> Seq<u8> {
    seq![(x % 256) as u8, (x / 256) as u8]
}

pub open spec fn u32_bytes(x: u32) -> Seq<u8> {
    seq![
        (x % 256) as u8,
        (x / 256 % 256) as u8,
        (x / 65536 % 256) as u8,
        (x / 16777216) as u8,
    ]
}

pub open spec fn u16_at(b: Seq<u8>, at: int) -> u16 {
    (b[at] + 256 * b[at + 1]) as u16
}

pub open spec fn u32_at(b: Seq<u8>, at: int) -> u32 {
    (b[at] + 256 * b[at + 1] + 65536 * b[at + 2] + 16777216 * b[at + 3]) as u32
}

fn push_u16(out: &mut Vec<u8>, x: u16)
    ensures
        final(out)@ == old(out)@ + u16_bytes(x),
{
    out.push((x % 256) as u8);
    out.push((x / 256) as u8);
    assert(out@ =~= old(out)@ + u16_bytes(x));
}

fn push_u32(out: &mut Vec<u8>, x: u32)
    ensures
        final(out)@ == old(out)@ + u32_bytes(x),
{
    out.push((x % 256) as u8);
    out.push((x / 256 % 256) as u8);
    out.push((x / 65536 % 256) as u8);
    out.push((x / 16777216) as u8);
    assert(out@ =~= old(out)@ + u32_bytes(x));
}

fn read_u16(b: &[u8], at: usize) -> (x: u16)
    requires
        at + 2 <= b@.len(),
    ensures
        x == u16_at(b@, at as int),
{
    b[at] as u16 + 256 * b[at + 1] as u16
}

fn read_u32(b: &[u8], at: usize) -> (x: u32)
    requires
        at + 4 <= b@.len(),
    ensures
        x == u32_at(b@, at as int),
{
    b[at] as u32 + 256 * b[at + 1] as u32 + 65536 * b[at + 2] as u32 + 16777216 * b[at + 3] as u32
}

// ---------------------------------------------------------------------------
// Writing
// ---------------------------------------------------------------------------

pub open spec fn riff_tag() -> Seq<u8> {
    seq![0x52u8, 0x49, 0x46, 0x46]
}

pub open spec fn wave_tag() -> Seq<u8> {
    seq![0x57u8, 0x41, 0x56, 0x45]
}

pub open spec fn fmt_tag() -> Seq<u8> {
    seq![0x66u8, 0x6d, 0x74, 0x20]
}

pub open spec fn data_tag() -> Seq<u8> {
    seq![0x64u8, 0x61, 0x74, 0x61]
}

/// Bytes of one frame (one sample of every channel).
pub open spec fn block_align_of(channels: u16, bits_per_sample: u16) -> int {
    channels * bits_per_sample / 8
}

/// The part of a length that the 32-bit size fields hold.
pub open spec fn size_field(len: nat) -> u32 {
    (len % 0x1_0000_0000) as u32
}

/// Whether the header fields of a WAV buffer hold the numbers meant for them.
pub open spec fn header_fits(channels: u16, bits_per_sample: u16, sample_rate: u32, len: nat) -> bool {
    &&& channels * bits_per_sample <= u16::MAX
    &&& sample_rate * block_align_of(channels, bits_per_sample) <= u32::MAX
    &&& 36 + size_field(len) <= u32::MAX
}

/// The 44 bytes that stand before the samples of a WAV buffer.
#[verifier::opaque]
pub open spec fn wav_header(channels: u16, bits_per_sample: u16, sample_rate: u32, len: nat) -> Seq<u8> {
    let block_align = block_align_of(channels, bits_per_sample);
    riff_tag() + u32_bytes((36 + size_field(len)) as u32) + wave_tag() + fmt_tag() + u32_bytes(16)
        + u16_bytes(1) + u16_bytes(channels) + u32_bytes(sample_rate) + u32_bytes(
        (sample_rate * block_align) as u32,
    ) + u16_bytes(block_align as u16) + u16_bytes(bits_per_sample) + data_tag() + u32_bytes(
        size_field(len),
    )
}

/// A WAV buffer: the header, then the samples.
pub open spec fn wav_bytes(channels: u16, bits_per_sample: u16, sample_rate: u32, data: Seq<u8>) -> Seq<u8> {
    wav_header(channels, bits_per_sample, sample_rate, data.len()) + data
}

fn push_all(out: &mut Vec<u8>, bytes: &[u8])
    ensures
        final(out)@ == old(out)@ + bytes@,
{
    let ghost start = out@;
    let mut i: usize = 0;
    while i < bytes.len()
        invariant
            0 <= i <= bytes@.len(),
            out@ =~= start + bytes@.take(i as int),
        decreases bytes@.len() - i,
    {
        out.push(bytes[i]);
        i += 1;
    }
    assert(bytes@.take(i as int) =~= bytes@);
}

fn push_tag(out: &mut Vec<u8>, a: u8, b: u8, c: u8, d: u8)
    ensures
        final(out)@ == old(out)@ + seq![a, b, c, d],
{
    out.push(a);
    out.push(b);
    out.push(c);
    out.push(d);
    assert(out@ =~= old(out)@ + seq![a, b, c, d]);
}

/// Whether the header fields of a WAV buffer hold the numbers meant for them.
pub fn header_holds(channels: u16, bits_per_sample: u16, sample_rate: u32, len: usize) -> (fits:
    bool)
    ensures
        fits == header_fits(channels, bits_per_sample, sample_rate, len as nat),
{
    assert(0 <= channels * bits_per_sample <= u16::MAX * u16::MAX) by (nonlinear_arith)
        requires
            0 <= channels <= u16::MAX,
            0 <= bits_per_sample <= u16::MAX,
    ;
    let frame_bits: u64 = channels as u64 * bits_per_sample as u64;
    if frame_bits > u16::MAX as u64 {
        return false;
    }
    let block: u64 = frame_bits / 8;
    assert(0 <= sample_rate * block <= u32::MAX * u16::MAX) by (nonlinear_arith)
        requires
            0 <= sample_rate <= u32::MAX,
            0 <= block <= u16::MAX,
    ;
    let size: u64 = len as u64 % 0x1_0000_0000;
    sample_rate as u64 * block <= u32::MAX as u64 && 36 + size <= u32::MAX as u64
}

/// Wraps raw PCM bytes into a WAV buffer.
pub fn wav_from_pcm(channels: u16, bits_per_sample: u16, sample_rate: u32, data: &[u8]) -> (out: Vec<u8>)
    requires
        header_fits(channels, bits_per_sample, sample_rate, data@.len()),
    ensures
        out@ == wav_bytes(channels, bits_per_sample, sample_rate, data@),
{
    let block_align: u16 = channels * bits_per_sample / 8;
    let byte_rate: u32 = sample_rate * block_align as u32;
    let size: u32 = (data.len() as u64 % 0x1_0000_0000u64) as u32;
    let mut out: Vec<u8> = Vec::new();
    push_tag(&mut out, 0x52, 0x49, 0x46, 0x46);
    push_u32(&mut out, 36 + size);
    push_tag(&mut out, 0x57, 0x41, 0x56, 0x45);
    push_tag(&mut out, 0x66, 0x6d, 0x74, 0x20);
    push_u32(&mut out, 16);
    push_u16(&mut out, 1);
    push_u16(&mut out, channels);
    push_u32(&mut out, sample_rate);
    push_u32(&mut out, byte_rate);
    push_u16(&mut out, block_align);
    push_u16(&mut out, bits_per_sample);
    push_tag(&mut out, 0x64, 0x61, 0x74, 0x61);
    push_u32(&mut out, size);
    reveal(wav_header);
    assert(out@ =~= wav_header(channels, bits_per_sample, sample_rate, data@.len()));
    push_all(&mut out, data);
    out
}

/// The two bytes of a sample, as a number from 0 to 65535.
pub open spec fn sample_bits(s: i16) -> u16 {
    if s < 0 {
        (s + 65536) as u16
    } else {
        s as u16
    }
}

/// Samples as little-endian bytes, two each.
pub open spec fn pcm_bytes(samples: Seq<i16>) -> Seq<u8>
    decreases samples.len(),
{
    if samples.len() == 0 {
        Seq::empty()
    } else {
        pcm_bytes(samples.drop_last()) + u16_bytes(sample_bits(samples.last()))
    }
}

/// Encodes samples as little-endian PCM bytes.
pub fn i16_to_pcm(samples: &[i16]) -> (out: Vec<u8>)
    ensures
        out@ == pcm_bytes(samples@),
        out@.len() == 2 * samples@.len(),
{
    let mut out: Vec<u8> = Vec::new();
    let mut i: usize = 0;
    assert(samples@.take(0) =~= Seq::empty());
    while i < samples.len()
        invariant
            0 <= i <= samples@.len(),
            out@ == pcm_bytes(samples@.take(i as int)),
            out@.len() == 2 * i,
        decreases samples@.len() - i,
    {
        let s: i16 = samples[i];
        let bits: u16 = if s < 0 {
            (s as i32 + 65536) as u16
        } else {
            s as u16
        };
        push_u16(&mut out, bits);
        assert(samples@.take(i + 1).drop_last() =~= samples@.take(i as int));
        i += 1;
    }
    assert(samples@.take(i as int) =~= samples@);
    out
}

// ---------------------------------------------------------------------------
// Parsing
// ---------------------------------------------------------------------------

/// A chunk of a RIFF file: its identifying bytes and where its content lies.
pub struct Chunk {
    pub id: Seq<u8>,
    pub start: int,
    pub size: u32,
}

impl Chunk {
    pub open spec fn end(self) -> int {
        self.start + self.size
    }
}

pub open spec fn chunk_at(b: Seq<u8>, pos: int) -> Chunk {
    Chunk { id: b.subrange(pos, pos + 4), start: pos + 8, size: u32_at(b, pos + 4) }
}

/// The chunks that stand one after the other from `pos` on, each on an even
/// offset from the one before. A chunk that runs past the end is the last.
pub open spec fn chunks_from(b: Seq<u8>, pos: int) -> Seq<Chunk>
    decreases b.len() + 1 - pos,
{
    if pos < 0 || pos + 8 > b.len() {
        Seq::empty()
    } else {
        let c = chunk_at(b, pos);
        if c.end() > b.len() {
            seq![c]
        } else {
            seq![c] + chunks_from(b, c.end() + c.size % 2)
        }
    }
}

/// What is wrong with a chunk, if anything is.
pub open spec fn chunk_fault(b: Seq<u8>, c: Chunk) -> Option<WavError> {
    if c.end() > b.len() {
        Some(WavError::TruncatedChunk(c.id[0], c.id[1], c.id[2], c.id[3]))
    } else if c.id == fmt_tag() && c.size < 16 {
        Some(WavError::FmtTooSmall)
    } else {
        None
    }
}

/// What is wrong with the first faulty chunk of a list.
pub open spec fn first_fault(b: Seq<u8>, list: Seq<Chunk>) -> Option<WavError>
    decreases list.len(),
{
    if list.len() == 0 {
        None
    } else if chunk_fault(b, list[0]) is Some {
        chunk_fault(b, list[0])
    } else {
        first_fault(b, list.drop_first())
    }
}

/// The last chunk of a list that has the given identifier.
pub open spec fn last_with_id(list: Seq<Chunk>, id: Seq<u8>) -> Option<Chunk>
    decreases list.len(),
{
    if list.len() == 0 {
        None
    } else if list.last().id == id {
        Some(list.last())
    } else {
        last_with_id(list.drop_last(), id)
    }
}

/// The audio that a `fmt ` chunk and the content of a `data` chunk describe.
pub open spec fn described(b: Seq<u8>, fmt: Chunk, data: Seq<u8>) -> Result<WavView, WavError> {
    let format = u16_at(b, fmt.start);
    let bits = u16_at(b, fmt.start + 14);
    if format == 0xFFFE {
        Err(WavError::Extensible)
    } else if format != 1 {
        Err(WavError::UnsupportedEncoding(format))
    } else if bits != 8 && bits != 16 && bits != 24 && bits != 32 {
        Err(WavError::UnsupportedBitDepth(bits))
    } else if data.len() == 0 {
        Err(WavError::NoData)
    } else {
        Ok(
            WavView {
                channels: u16_at(b, fmt.start + 2),
                bits_per_sample: bits,
                sample_rate: u32_at(b, fmt.start + 4),
                byte_rate: u32_at(b, fmt.start + 8),
                block_align: u16_at(b, fmt.start + 12),
                data,
            },
        )
    }
}

/// The content of the last `data` chunk: nothing where there is none.
pub open spec fn data_of(b: Seq<u8>, list: Seq<Chunk>) -> Seq<u8> {
    match last_with_id(list, data_tag()) {
        Some(c) => b.subrange(c.start, c.end()),
        None => Seq::empty(),
    }
}

/// Whether a buffer starts as a RIFF/WAVE file does.
pub open spec fn is_riff(b: Seq<u8>) -> bool {
    b.len() >= 12 && b.subrange(0, 4) == riff_tag() && b.subrange(8, 12) == wave_tag()
}

/// What a buffer holds as WAV audio, or why it is refused.
pub open spec fn parsed(b: Seq<u8>) -> Result<WavView, WavError> {
    let list = chunks_from(b, 12);
    if !is_riff(b) {
        Err(WavError::NotRiff)
    } else {
        match first_fault(b, list) {
            Some(e) => Err(e),
            None => match last_with_id(list, fmt_tag()) {
                None => Err(WavError::NoFmt),
                Some(fmt) => described(b, fmt, data_of(b, list)),
            },
        }
    }
}

fn tag_is(b: &[u8], at: usize, a: u8, x: u8, y: u8, z: u8) -> (r: bool)
    requires
        at + 4 <= b@.len(),
    ensures
        r == (b@.subrange(at as int, at + 4) == seq![a, x, y, z]),
{
    let r = b[at] == a && b[at + 1] == x && b[at + 2] == y && b[at + 3] == z;
    proof {
        let tag = b@.subrange(at as int, at + 4);
        if r {
            assert(tag =~= seq![a, x, y, z]);
        } else {
            assert(tag[0] == b@[at as int]);
            assert(tag[1] == b@[at + 1]);
            assert(tag[2] == b@[at + 2]);
            assert(tag[3] == b@[at + 3]);
            let want = seq![a, x, y, z];
            assert(want[0] == a && want[1] == x && want[2] == y && want[3] == z);
        }
    }
    r
}

proof fn lemma_fault_after(b: Seq<u8>, done: Seq<Chunk>, rest: Seq<Chunk>)
    requires
        forall|i: int| 0 <= i < done.len() ==> chunk_fault(b, #[trigger] done[i]) is None,
    ensures
        first_fault(b, done + rest) == first_fault(b, rest),
    decreases done.len(),
{
    if done.len() == 0 {
        assert(done + rest =~= rest);
    } else {
        assert((done + rest)[0] == done[0]);
        assert((done + rest).drop_first() =~= done.drop_first() + rest);
        assert forall|i: int| 0 <= i < done.drop_first().len() implies chunk_fault(
            b,
            #[trigger] done.drop_first()[i],
        ) is None by {
            assert(done.drop_first()[i] == done[i + 1]);
        }
        lemma_fault_after(b, done.drop_first(), rest);
    }
}

/// Where the content of the last chunk with an identifier lies, as an
/// executable record of [`last_with_id`].
#[derive(Clone, Copy)]
struct Place {
    start: usize,
    end: usize,
}

spec fn place_of(place: Option<Place>, c: Option<Chunk>) -> bool {
    match (place, c) {
        (None, None) => true,
        (Some(p), Some(c)) => p.start == c.start && p.end == c.end(),
        _ => false,
    }
}

/// Parses a WAV buffer. Input that is malformed or not plain PCM is an error.
pub fn parse_wav(bytes: &[u8]) -> (result: Result<Wav, WavError>)
    ensures
        match result {
            Ok(w) => parsed(bytes@) == Ok::<WavView, WavError>(w@),
            Err(e) => parsed(bytes@) == Err::<WavView, WavError>(e),
        },
{
    if bytes.len() < 12 || !tag_is(bytes, 0, 0x52, 0x49, 0x46, 0x46) || !tag_is(
        bytes,
        8,
        0x57,
        0x41,
        0x56,
        0x45,
    ) {
        return Err(WavError::NotRiff);
    }
    let total: usize = bytes.len();
    let mut pos: usize = 12;
    let mut fmt: Option<Place> = None;
    let mut data: Option<Place> = None;
    let ghost all = chunks_from(bytes@, 12);
    let ghost mut done: Seq<Chunk> = Seq::empty();
    assert(done + chunks_from(bytes@, 12) =~= all);
    while total - pos >= 8
        invariant
            total == bytes@.len(),
            is_riff(bytes@),
            all == chunks_from(bytes@, 12),
            12 <= pos <= total,
            all == done + chunks_from(bytes@, pos as int),
            forall|i: int| 0 <= i < done.len() ==> chunk_fault(bytes@, #[trigger] done[i]) is None,
            place_of(fmt, last_with_id(done, fmt_tag())),
            place_of(data, last_with_id(done, data_tag())),
            fmt matches Some(p) ==> p.start + 16 <= p.end <= total,
            data matches Some(p) ==> p.start <= p.end <= total,
        decreases total - pos,
    {
        let start: usize = pos + 8;
        let size: u32 = read_u32(bytes, pos + 4);
        let ghost c = chunk_at(bytes@, pos as int);
        let ghost rest = chunks_from(bytes@, pos as int);
        assert(rest[0] == c);
        if size as usize > total - start {
            proof {
                lemma_fault_after(bytes@, done, rest);
                assert(c.id[0] == bytes@[pos as int]);
                assert(c.id[1] == bytes@[pos + 1]);
                assert(c.id[2] == bytes@[pos + 2]);
                assert(c.id[3] == bytes@[pos + 3]);
            }
            return Err(
                WavError::TruncatedChunk(bytes[pos], bytes[pos + 1], bytes[pos + 2], bytes[pos + 3]),
            );
        }
        let end: usize = start + size as usize;
        let is_fmt = tag_is(bytes, pos, 0x66, 0x6d, 0x74, 0x20);
        let is_data = tag_is(bytes, pos, 0x64, 0x61, 0x74, 0x61);
        if is_fmt && size < 16 {
            proof {
                lemma_fault_after(bytes@, done, rest);
            }
            return Err(WavError::FmtTooSmall);
        }
        if is_fmt {
            fmt = Some(Place { start, end });
        } else if is_data {
            data = Some(Place { start, end });
        }
        let next: usize = if size % 2 == 1 && end < total {
            end + 1
        } else {
            end
        };
        proof {
            let after = chunks_from(bytes@, c.end() + c.size % 2);
            assert(rest =~= seq![c] + after);
            assert(chunks_from(bytes@, next as int) =~= after);
            let before = done;
            done = before.push(c);
            assert(done.drop_last() =~= before);
            assert(done + after =~= before + rest);
            assert(fmt_tag()[0] != data_tag()[0]);
        }
        pos = next;
    }
    proof {
        assert(chunks_from(bytes@, pos as int) =~= Seq::empty());
        assert(all =~= done);
        lemma_fault_after(bytes@, done, Seq::empty());
        assert(done + Seq::empty() =~= done);
    }
    let place: Place = match fmt {
        None => {
            return Err(WavError::NoFmt);
        },
        Some(p) => p,
    };
    let at: usize = place.start;
    let format: u16 = read_u16(bytes, at);
    let bits: u16 = read_u16(bytes, at + 14);
    if format == 0xFFFE {
        return Err(WavError::Extensible);
    }
    if format != 1 {
        return Err(WavError::UnsupportedEncoding(format));
    }
    if bits != 8 && bits != 16 && bits != 24 && bits != 32 {
        return Err(WavError::UnsupportedBitDepth(bits));
    }
    let mut samples: Vec<u8> = Vec::new();
    if let Some(p) = data {
        push_all(&mut samples, &bytes[p.start..p.end]);
    }
    assert(samples@ =~= data_of(bytes@, all));
    if samples.len() == 0 {
        return Err(WavError::NoData);
    }
    Ok(
        Wav {
            channels: read_u16(bytes, at + 2),
            bits_per_sample: bits,
            sample_rate: read_u32(bytes, at + 4),
            byte_rate: read_u32(bytes, at + 8),
            block_align: read_u16(bytes, at + 12),
            data: samples,
        },
    )
}

proof fn lemma_u16_read(b: Seq<u8>, at: int, x: u16)
    requires
        0 <= at <= b.len() - 2,
        b.subrange(at, at + 2) == u16_bytes(x),
    ensures
        u16_at(b, at) == x,
{
    let s = b.subrange(at, at + 2);
    assert(s[0] == b[at] && s[1] == b[at + 1]);
}

proof fn lemma_u32_read(b: Seq<u8>, at: int, x: u32)
    requires
        0 <= at <= b.len() - 4,
        b.subrange(at, at + 4) == u32_bytes(x),
    ensures
        u32_at(b, at) == x,
{
    let s = b.subrange(at, at + 4);
    assert(s[0] == b[at] && s[1] == b[at + 1] && s[2] == b[at + 2] && s[3] == b[at + 3]);
}

proof fn lemma_field(before: Seq<u8>, field: Seq<u8>, after: Seq<u8>, whole: Seq<u8>)
    requires
        whole == before + field + after,
    ensures
        whole == before + (field + after),
        whole.subrange(before.len() as int, (before.len() + field.len()) as int) == field,
{
    assert(whole =~= before + (field + after));
    assert(whole.subrange(before.len() as int, (before.len() + field.len()) as int) =~= field);
}

/// Thirteen fields of the lengths of a WAV header, each at its place.
proof fn lemma_layout(
    f1: Seq<u8>,
    f2: Seq<u8>,
    f3: Seq<u8>,
    f4: Seq<u8>,
    f5: Seq<u8>,
    f6: Seq<u8>,
    f7: Seq<u8>,
    f8: Seq<u8>,
    f9: Seq<u8>,
    f10: Seq<u8>,
    f11: Seq<u8>,
    f12: Seq<u8>,
    f13: Seq<u8>,
    data: Seq<u8>,
    b: Seq<u8>,
)
    requires
        f1.len() == 4,
        f2.len() == 4,
        f3.len() == 4,
        f4.len() == 4,
        f5.len() == 4,
        f6.len() == 2,
        f7.len() == 2,
        f8.len() == 4,
        f9.len() == 4,
        f10.len() == 2,
        f11.len() == 2,
        f12.len() == 4,
        f13.len() == 4,
        b == f1 + f2 + f3 + f4 + f5 + f6 + f7 + f8 + f9 + f10 + f11 + f12 + f13 + data,
    ensures
        b.len() == 44 + data.len(),
        b.subrange(0, 4) == f1,
        b.subrange(4, 8) == f2,
        b.subrange(8, 12) == f3,
        b.subrange(12, 16) == f4,
        b.subrange(16, 20) == f5,
        b.subrange(20, 22) == f6,
        b.subrange(22, 24) == f7,
        b.subrange(24, 28) == f8,
        b.subrange(28, 32) == f9,
        b.subrange(32, 34) == f10,
        b.subrange(34, 36) == f11,
        b.subrange(36, 40) == f12,
        b.subrange(40, 44) == f13,
        b.subrange(44, b.len() as int) == data,
{
    let h1 = f1;
    let h2 = h1 + f2;
    let h3 = h2 + f3;
    let h4 = h3 + f4;
    let h5 = h4 + f5;
    let h6 = h5 + f6;
    let h7 = h6 + f7;
    let h8 = h7 + f8;
    let h9 = h8 + f9;
    let h10 = h9 + f10;
    let h11 = h10 + f11;
    let h12 = h11 + f12;
    let h13 = h12 + f13;
    let t13 = data;
    let t12 = f13 + t13;
    let t11 = f12 + t12;
    let t10 = f11 + t11;
    let t9 = f10 + t10;
    let t8 = f9 + t9;
    let t7 = f8 + t8;
    let t6 = f7 + t7;
    let t5 = f6 + t6;
    let t4 = f5 + t5;
    let t3 = f4 + t4;
    let t2 = f3 + t3;
    let t1 = f2 + t2;
    lemma_field(h12, f13, t13, b);
    lemma_field(h11, f12, t12, b);
    lemma_field(h10, f11, t11, b);
    lemma_field(h9, f10, t10, b);
    lemma_field(h8, f9, t9, b);
    lemma_field(h7, f8, t8, b);
    lemma_field(h6, f7, t7, b);
    lemma_field(h5, f6, t6, b);
    lemma_field(h4, f5, t5, b);
    lemma_field(h3, f4, t4, b);
    lemma_field(h2, f3, t3, b);
    lemma_field(h1, f2, t2, b);
    lemma_first_field(h1, t1, b);
    lemma_last_field(h13, data, b);
}

/// The fields of a WAV header, each at its place.
proof fn lemma_header_fields(channels: u16, bits_per_sample: u16, sample_rate: u32, data: Seq<u8>)
    ensures
        ({
            let b = wav_bytes(channels, bits_per_sample, sample_rate, data);
            let block = block_align_of(channels, bits_per_sample);
            &&& b.len() == 44 + data.len()
            &&& b.subrange(0, 4) == riff_tag()
            &&& b.subrange(8, 12) == wave_tag()
            &&& b.subrange(12, 16) == fmt_tag()
            &&& b.subrange(16, 20) == u32_bytes(16)
            &&& b.subrange(20, 22) == u16_bytes(1)
            &&& b.subrange(22, 24) == u16_bytes(channels)
            &&& b.subrange(24, 28) == u32_bytes(sample_rate)
            &&& b.subrange(28, 32) == u32_bytes((sample_rate * block) as u32)
            &&& b.subrange(32, 34) == u16_bytes(block as u16)
            &&& b.subrange(34, 36) == u16_bytes(bits_per_sample)
            &&& b.subrange(36, 40) == data_tag()
            &&& b.subrange(40, 44) == u32_bytes(size_field(data.len()))
            &&& b.subrange(44, b.len() as int) == data
        }),
{
    reveal(wav_header);
    let block = block_align_of(channels, bits_per_sample);
    let size = size_field(data.len());
    lemma_layout(
        riff_tag(),
        u32_bytes((36 + size) as u32),
        wave_tag(),
        fmt_tag(),
        u32_bytes(16),
        u16_bytes(1),
        u16_bytes(channels),
        u32_bytes(sample_rate),
        u32_bytes((sample_rate * block) as u32),
        u16_bytes(block as u16),
        u16_bytes(bits_per_sample),
        data_tag(),
        u32_bytes(size),
        data,
        wav_bytes(channels, bits_per_sample, sample_rate, data),
    );
}

/// The field that holds the size of what follows it.
proof fn lemma_riff_size(channels: u16, bits_per_sample: u16, sample_rate: u32, data: Seq<u8>)
    ensures
        wav_bytes(channels, bits_per_sample, sample_rate, data).len() == 44 + data.len(),
        wav_bytes(channels, bits_per_sample, sample_rate, data).subrange(4, 8) == u32_bytes(
            (36 + size_field(data.len())) as u32,
        ),
{
    reveal(wav_header);
    let b = wav_bytes(channels, bits_per_sample, sample_rate, data);
    assert(b.subrange(4, 8) =~= u32_bytes((36 + size_field(data.len())) as u32));
}

proof fn lemma_first_field(field: Seq<u8>, after: Seq<u8>, whole: Seq<u8>)
    requires
        whole == field + after,
    ensures
        whole.subrange(0, field.len() as int) == field,
{
    assert(whole.subrange(0, field.len() as int) =~= field);
}

proof fn lemma_last_field(before: Seq<u8>, field: Seq<u8>, whole: Seq<u8>)
    requires
        whole == before + field,
    ensures
        whole.subrange(before.len() as int, whole.len() as int) == field,
{
    assert(whole.subrange(before.len() as int, whole.len() as int) =~= field);
}

/// A WAV buffer is 44 bytes longer than its samples.
pub proof fn law_header_takes_44_bytes(
    channels: u16,
    bits_per_sample: u16,
    sample_rate: u32,
    data: Seq<u8>,
)
    ensures
        wav_bytes(channels, bits_per_sample, sample_rate, data).len() == 44 + data.len(),
{
    reveal(wav_header);
}

/// A buffer that [`wav_from_pcm`] wrote is read back as what was put in: the
/// same samples under the same format. Only a bit depth that the format does
/// not know, or no samples at all, is refused.
pub proof fn law_written_audio_is_read_back(
    channels: u16,
    bits_per_sample: u16,
    sample_rate: u32,
    data: Seq<u8>,
)
    requires
        header_fits(channels, bits_per_sample, sample_rate, data.len()),
        data.len() <= u32::MAX,
    ensures
        parsed(wav_bytes(channels, bits_per_sample, sample_rate, data)) == (if bits_per_sample != 8
            && bits_per_sample != 16 && bits_per_sample != 24 && bits_per_sample != 32 {
            Err::<WavView, WavError>(WavError::UnsupportedBitDepth(bits_per_sample))
        } else if data.len() == 0 {
            Err(WavError::NoData)
        } else {
            Ok(
                WavView {
                    channels,
                    bits_per_sample,
                    sample_rate,
                    byte_rate: (sample_rate * block_align_of(channels, bits_per_sample)) as u32,
                    block_align: block_align_of(channels, bits_per_sample) as u16,
                    data,
                },
            )
        }),
{
    let b = wav_bytes(channels, bits_per_sample, sample_rate, data);
    let block = block_align_of(channels, bits_per_sample);
    lemma_header_fields(channels, bits_per_sample, sample_rate, data);
    lemma_u32_read(b, 16, 16);
    lemma_u16_read(b, 20, 1);
    lemma_u16_read(b, 22, channels);
    lemma_u32_read(b, 24, sample_rate);
    lemma_u32_read(b, 28, (sample_rate * block) as u32);
    lemma_u16_read(b, 32, block as u16);
    lemma_u16_read(b, 34, bits_per_sample);
    lemma_u32_read(b, 40, size_field(data.len()));
    let fmt = chunk_at(b, 12);
    let dat = chunk_at(b, 36);
    assert(dat.size == data.len());
    let tail = chunks_from(b, dat.end() + dat.size % 2);
    assert(tail =~= Seq::empty());
    assert(chunks_from(b, 36) =~= seq![dat]);
    let list = chunks_from(b, 12);
    assert(list =~= seq![fmt, dat]);
    assert(fmt_tag()[0] != data_tag()[0]);
    assert(list.drop_first() =~= seq![dat]);
    assert(list.drop_first().drop_first() =~= Seq::empty());
    assert(first_fault(b, list.drop_first().drop_first()) is None);
    assert(first_fault(b, list.drop_first()) is None);
    assert(first_fault(b, list) is None);
    assert(list.drop_last() =~= seq![fmt]);
    assert(last_with_id(list.drop_last(), fmt_tag()) == Some(fmt));
    assert(last_with_id(list, fmt_tag()) == Some(fmt));
    assert(last_with_id(list, data_tag()) == Some(dat));
}

// ---------------------------------------------------------------------------
// Measuring
// ---------------------------------------------------------------------------

impl WavView {
    /// Whether the audio lasts longer than the given number of milliseconds.
    pub open spec fn exceeds(self, ms: nat) -> bool {
        self.byte_rate != 0 && self.data.len() * 1000 > ms * self.byte_rate
    }
}

impl Wav {
    /// Number of frames (samples per channel).
    pub fn frames(&self) -> (n: usize)
        ensures
            n == if self.block_align == 0 {
                0int
            } else {
                self.data@.len() as int / self.block_align as int
            },
    {
        if self.block_align == 0 {
            0
        } else {
            self.data.len() / self.block_align as usize
        }
    }

    /// Whether the audio lasts longer than the given number of milliseconds.
    /// Audio whose byte rate is 0 has no length.
    pub fn exceeds_ms(&self, ms: u32) -> (longer: bool)
        ensures
            longer == self@.exceeds(ms as nat),
    {
        let played: u128 = self.data.len() as u128 * 1000;
        assert(ms * self.byte_rate <= u32::MAX * u32::MAX) by (nonlinear_arith)
            requires
                0 <= ms <= u32::MAX,
                0 <= self.byte_rate <= u32::MAX,
        ;
        let limit: u128 = ms as u128 * self.byte_rate as u128;
        self.byte_rate != 0 && played > limit
    }
}

/// Whether a buffer is WAV audio that lasts longer than the given number of
/// milliseconds. A buffer that cannot be parsed has no length.
pub open spec fn lasts_longer(b: Seq<u8>, ms: nat) -> bool {
    parsed(b) matches Ok(w) && w.exceeds(ms)
}

/// Whether a buffer is WAV audio that lasts longer than the given number of
/// milliseconds.
pub fn longer_than(bytes: &[u8], ms: u32) -> (longer: bool)
    ensures
        longer == lasts_longer(bytes@, ms as nat),
{
    match parse_wav(bytes) {
        Ok(w) => w.exceeds_ms(ms),
        Err(_) => false,
    }
}

// ---------------------------------------------------------------------------
// Splitting
// ---------------------------------------------------------------------------

/// Bytes of the whole frames that are played in some milliseconds.
pub open spec fn span_bytes(w: WavView, ms: u32) -> int {
    (w.sample_rate * ms / 1000) * w.block_align
}

/// Audio cut into pieces of `step` bytes from `start` on, each starting with
/// the last `overlap` bytes of the one before. The last piece may be shorter.
pub open spec fn pieces(data: Seq<u8>, start: int, step: int, overlap: int) -> Seq<Seq<u8>>
    decreases data.len() - start,
{
    if start < 0 || start >= data.len() || overlap < 0 || overlap >= step {
        Seq::empty()
    } else if start + step >= data.len() {
        seq![data.skip(start)]
    } else {
        seq![data.subrange(start, start + step)] + pieces(
            data,
            start + step - overlap,
            step,
            overlap,
        )
    }
}

/// Each piece as a WAV buffer in the format of `w`.
pub open spec fn wrapped(w: WavView, list: Seq<Seq<u8>>) -> Seq<Seq<u8>> {
    Seq::new(
        list.len(),
        |i: int| wav_bytes(w.channels, w.bits_per_sample, w.sample_rate, list[i]),
    )
}

/// Whether audio is cut at all: not when it fits in one chunk, nor when a chunk
/// would be empty.
pub open spec fn is_cut(w: WavView, chunk_ms: u32) -> bool {
    0 < span_bytes(w, chunk_ms) < w.data.len()
}

/// The overlapping chunks of a WAV buffer, or why there are none.
pub open spec fn chunks_of(b: Seq<u8>, chunk_ms: u32, overlap_ms: u32) -> Result<
    Seq<Seq<u8>>,
    WavError,
> {
    match parsed(b) {
        Err(e) => Err(e),
        Ok(w) => if w.block_align == 0 {
            Err(WavError::ZeroBlockAlign)
        } else if !is_cut(w, chunk_ms) {
            Ok(seq![b])
        } else {
            Ok(wrapped(w, pieces(w.data, 0, span_bytes(w, chunk_ms), span_bytes(w, overlap_ms))))
        },
    }
}

/// Whether a buffer can be split: the lengths fit the machine, the overlap is
/// shorter than a chunk, and the header of a chunk holds its numbers.
pub open spec fn splittable(b: Seq<u8>, chunk_ms: u32, overlap_ms: u32) -> bool {
    parsed(b) matches Ok(w) ==> w.block_align != 0 ==> {
        &&& span_bytes(w, chunk_ms) <= usize::MAX
        &&& span_bytes(w, overlap_ms) <= usize::MAX
        &&& is_cut(w, chunk_ms) ==> {
            &&& span_bytes(w, overlap_ms) < span_bytes(w, chunk_ms)
            &&& span_bytes(w, chunk_ms) <= u32::MAX - 36
            &&& w.channels * w.bits_per_sample <= u16::MAX
            &&& w.sample_rate * block_align_of(w.channels, w.bits_per_sample) <= u32::MAX
        }
    }
}

/// The bytes of each buffer of a list.
pub open spec fn byte_views(list: Seq<Vec<u8>>) -> Seq<Seq<u8>> {
    Seq::new(list.len(), |i: int| list[i]@)
}

fn span(w: &Wav, ms: u32) -> (bytes: u128)
    ensures
        bytes == span_bytes(w@, ms),
{
    assert(w.sample_rate * ms <= u32::MAX * u32::MAX) by (nonlinear_arith)
        requires
            0 <= w.sample_rate <= u32::MAX,
            0 <= ms <= u32::MAX,
    ;
    let frames: u128 = w.sample_rate as u128 * ms as u128 / 1000;
    assert(frames * w.block_align <= u32::MAX * u32::MAX * u16::MAX) by (nonlinear_arith)
        requires
            0 <= frames <= u32::MAX * u32::MAX,
            0 <= w.block_align <= u16::MAX,
    ;
    frames * w.block_align as u128
}

/// Whether [`split_chunks`] can split a buffer.
pub fn can_split(bytes: &[u8], chunk_ms: u32, overlap_ms: u32) -> (possible: bool)
    ensures
        possible == splittable(bytes@, chunk_ms, overlap_ms),
{
    match parse_wav(bytes) {
        Err(_) => true,
        Ok(w) => {
            if w.block_align == 0 {
                return true;
            }
            let step: u128 = span(&w, chunk_ms);
            let overlap: u128 = span(&w, overlap_ms);
            if step > usize::MAX as u128 || overlap > usize::MAX as u128 {
                return false;
            }
            if step == 0 || w.data.len() as u128 <= step {
                return true;
            }
            assert(w.channels * w.bits_per_sample <= u16::MAX * u16::MAX) by (nonlinear_arith)
                requires
                    0 <= w.channels <= u16::MAX,
                    0 <= w.bits_per_sample <= u16::MAX,
            ;
            let frame_bits: u64 = w.channels as u64 * w.bits_per_sample as u64;
            if overlap >= step || step > u32::MAX as u128 - 36 || frame_bits > u16::MAX as u64 {
                return false;
            }
            let block: u64 = frame_bits / 8;
            assert(w.sample_rate * block <= u32::MAX * u16::MAX) by (nonlinear_arith)
                requires
                    0 <= w.sample_rate <= u32::MAX,
                    0 <= block <= u16::MAX,
            ;
            w.sample_rate as u64 * block <= u32::MAX as u64
        },
    }
}

/// Splits a WAV buffer into overlapping chunks, each a WAV buffer of its own.
///
/// The overlap keeps a word from being cut at a chunk boundary.
pub fn split_chunks(bytes: &[u8], chunk_ms: u32, overlap_ms: u32) -> (result: Result<
    Vec<Vec<u8>>,
    WavError,
>)
    requires
        splittable(bytes@, chunk_ms, overlap_ms),
    ensures
        match result {
            Ok(list) => chunks_of(bytes@, chunk_ms, overlap_ms) == Ok::<Seq<Seq<u8>>, WavError>(
                byte_views(list@),
            ),
            Err(e) => chunks_of(bytes@, chunk_ms, overlap_ms) == Err::<Seq<Seq<u8>>, WavError>(e),
        },
{
    let w = match parse_wav(bytes) {
        Err(e) => {
            return Err(e);
        },
        Ok(w) => w,
    };
    if w.block_align == 0 {
        return Err(WavError::ZeroBlockAlign);
    }
    let step: usize = span(&w, chunk_ms) as usize;
    let overlap: usize = span(&w, overlap_ms) as usize;
    let total: usize = w.data.len();
    let mut chunks: Vec<Vec<u8>> = Vec::new();
    if step == 0 || total <= step {
        let mut whole: Vec<u8> = Vec::new();
        push_all(&mut whole, bytes);
        chunks.push(whole);
        assert(byte_views(chunks@) =~= seq![bytes@]);
        return Ok(chunks);
    }
    let ghost cuts = pieces(w.data@, 0, step as int, overlap as int);
    let ghost mut made: Seq<Seq<u8>> = Seq::empty();
    let mut start: usize = 0;
    assert(made + cuts =~= cuts);
    assert(byte_views(chunks@) =~= wrapped(w@, made));
    loop
        invariant_except_break
            cuts == made + pieces(w.data@, start as int, step as int, overlap as int),
            byte_views(chunks@) == wrapped(w@, made),
        invariant
            total == w.data@.len(),
            0 <= start < total,
            overlap < step < total,
            step <= u32::MAX - 36,
            w.channels * w.bits_per_sample <= u16::MAX,
            w.sample_rate * block_align_of(w.channels, w.bits_per_sample) <= u32::MAX,
        ensures
            byte_views(chunks@) == wrapped(w@, cuts),
        decreases total - start,
    {
        let end: usize = if step >= total - start {
            total
        } else {
            start + step
        };
        let ghost piece = w.data@.subrange(start as int, end as int);
        assert(size_field(piece.len()) == piece.len());
        let chunk = wav_from_pcm(
            w.channels,
            w.bits_per_sample,
            w.sample_rate,
            &w.data[start..end],
        );
        let ghost earlier = chunks@;
        chunks.push(chunk);
        let ghost rest = pieces(w.data@, start as int, step as int, overlap as int);
        proof {
            let before = made;
            made = before.push(piece);
            assert(byte_views(earlier).len() == wrapped(w@, before).len());
            assert forall|i: int| 0 <= i < made.len() implies byte_views(chunks@)[i] == wrapped(
                w@,
                made,
            )[i] by {
                if i < before.len() {
                    assert(byte_views(earlier)[i] == wrapped(w@, before)[i]);
                }
            }
            assert(byte_views(chunks@) =~= wrapped(w@, made));
        }
        if end >= total {
            proof {
                assert(w.data@.skip(start as int) =~= piece);
                assert(cuts =~= made);
            }
            break;
        }
        proof {
            let after = pieces(w.data@, end - overlap, step as int, overlap as int);
            assert(rest =~= seq![piece] + after);
            assert(cuts =~= made + after);
        }
        start = end - overlap;
    }
    Ok(chunks)
}

/// Pieces put back together: each but the last without its final `overlap`
/// bytes, which the next one repeats.
pub open spec fn rejoined(list: Seq<Seq<u8>>, overlap: int) -> Seq<u8>
    decreases list.len(),
{
    if list.len() == 0 {
        Seq::empty()
    } else if list.len() == 1 {
        list[0]
    } else {
        list[0].take(list[0].len() - overlap) + rejoined(list.drop_first(), overlap)
    }
}

proof fn lemma_pieces(data: Seq<u8>, start: int, step: int, overlap: int)
    requires
        0 <= start < data.len(),
        0 <= overlap < step,
    ensures
        ({
            let list = pieces(data, start, step, overlap);
            &&& list.len() > 0
            &&& rejoined(list, overlap) == data.skip(start)
            &&& forall|i: int| 0 <= i < list.len() ==> 0 < (#[trigger] list[i]).len() <= step
            &&& forall|i: int| 0 <= i < list.len() - 1 ==> (#[trigger] list[i]).len() == step
            &&& forall|i: int|
                #![trigger list[i]]
                0 < i < list.len() ==> overlap < list[i].len() && list[i].take(overlap)
                    == list[i - 1].skip(step - overlap)
            &&& list[0] == (if start + step >= data.len() {
                data.skip(start)
            } else {
                data.subrange(start, start + step)
            })
        }),
    decreases data.len() - start,
{
    let list = pieces(data, start, step, overlap);
    if start + step >= data.len() {
        assert(list =~= seq![data.skip(start)]);
    } else {
        let next = start + step - overlap;
        let rest = pieces(data, next, step, overlap);
        let head = data.subrange(start, start + step);
        lemma_pieces(data, next, step, overlap);
        assert(list =~= seq![head] + rest);
        assert(list.drop_first() =~= rest);
        assert(head.take(head.len() - overlap) + data.skip(next) =~= data.skip(start));
        assert(rest[0].take(overlap) =~= head.skip(step - overlap));
        assert forall|i: int| 0 < i < list.len() implies overlap < (#[trigger] list[i]).len()
            && list[i].take(overlap) == list[i - 1].skip(step - overlap) by {
            assert(list[i] == rest[i - 1]);
            if i > 1 {
                assert(list[i - 1] == rest[i - 2]);
            }
        }
        assert forall|i: int| 0 <= i < list.len() implies 0 < (#[trigger] list[i]).len()
            <= step by {
            if i > 0 {
                assert(list[i] == rest[i - 1]);
            }
        }
        assert forall|i: int| 0 <= i < list.len() - 1 implies (#[trigger] list[i]).len()
            == step by {
            if i > 0 {
                assert(list[i] == rest[i - 1]);
            }
        }
    }
}

/// A buffer that can be split is refused exactly where it is no WAV audio or its
/// frames have no length, and otherwise gives one chunk at least.
pub proof fn law_splitting_gives_a_chunk(b: Seq<u8>, chunk_ms: u32, overlap_ms: u32)
    requires
        splittable(b, chunk_ms, overlap_ms),
    ensures
        match chunks_of(b, chunk_ms, overlap_ms) {
            Err(e) => match parsed(b) {
                Err(f) => e == f,
                Ok(w) => w.block_align == 0 && e == WavError::ZeroBlockAlign,
            },
            Ok(list) => list.len() >= 1 && (parsed(b) matches Ok(w) && w.block_align != 0),
        },
{
    if let Ok(w) = parsed(b) {
        if w.block_align != 0 && is_cut(w, chunk_ms) {
            assert(span_bytes(w, overlap_ms) >= 0) by (nonlinear_arith)
                requires
                    span_bytes(w, overlap_ms) == (w.sample_rate * overlap_ms / 1000)
                        * w.block_align,
                    w.sample_rate >= 0,
                    overlap_ms >= 0,
                    w.block_align >= 0,
            ;
            lemma_pieces(w.data, 0, span_bytes(w, chunk_ms), span_bytes(w, overlap_ms));
        }
    }
}

/// Audio that is cut loses nothing: the chunks, each without what the next one
/// repeats, are the audio again.
pub proof fn law_chunks_lose_nothing(b: Seq<u8>, w: WavView, chunk_ms: u32, overlap_ms: u32)
    requires
        splittable(b, chunk_ms, overlap_ms),
        parsed(b) == Ok::<WavView, WavError>(w),
        w.block_align != 0,
        is_cut(w, chunk_ms),
    ensures
        ({
            let overlap = span_bytes(w, overlap_ms);
            let list = pieces(w.data, 0, span_bytes(w, chunk_ms), overlap);
            &&& chunks_of(b, chunk_ms, overlap_ms) == Ok::<Seq<Seq<u8>>, WavError>(wrapped(w, list))
            &&& rejoined(list, overlap) == w.data
        }),
{
    assert(span_bytes(w, overlap_ms) >= 0) by (nonlinear_arith)
        requires
            span_bytes(w, overlap_ms) == (w.sample_rate * overlap_ms / 1000) * w.block_align,
            w.sample_rate >= 0,
            overlap_ms >= 0,
            w.block_align >= 0,
    ;
    lemma_pieces(w.data, 0, span_bytes(w, chunk_ms), span_bytes(w, overlap_ms));
    assert(w.data.skip(0) =~= w.data);
}

/// Every chunk after the first starts with the last `overlap_ms` of the one
/// before it, and no chunk is longer than `chunk_ms`.
pub proof fn law_neighbouring_chunks_overlap(
    b: Seq<u8>,
    w: WavView,
    chunk_ms: u32,
    overlap_ms: u32,
    i: int,
)
    requires
        splittable(b, chunk_ms, overlap_ms),
        parsed(b) == Ok::<WavView, WavError>(w),
        w.block_align != 0,
        is_cut(w, chunk_ms),
        0 <= i < pieces(w.data, 0, span_bytes(w, chunk_ms), span_bytes(w, overlap_ms)).len(),
    ensures
        ({
            let step = span_bytes(w, chunk_ms);
            let overlap = span_bytes(w, overlap_ms);
            let list = pieces(w.data, 0, step, overlap);
            &&& 0 < list[i].len() <= step
            &&& i < list.len() - 1 ==> list[i].len() == step && list[i + 1].take(overlap)
                == list[i].skip(step - overlap)
        }),
{
    assert(span_bytes(w, overlap_ms) >= 0) by (nonlinear_arith)
        requires
            span_bytes(w, overlap_ms) == (w.sample_rate * overlap_ms / 1000) * w.block_align,
            w.sample_rate >= 0,
            overlap_ms >= 0,
            w.block_align >= 0,
    ;
    lemma_pieces(w.data, 0, span_bytes(w, chunk_ms), span_bytes(w, overlap_ms));
    let list = pieces(w.data, 0, span_bytes(w, chunk_ms), span_bytes(w, overlap_ms));
    if i < list.len() - 1 {
        assert(list[i + 1].len() > 0);
    }
}

/// Every chunk is itself a WAV buffer that is read back: the piece of audio it
/// was made of, in the format of the whole.
pub proof fn law_every_chunk_is_read_back(
    b: Seq<u8>,
    w: WavView,
    chunk_ms: u32,
    overlap_ms: u32,
    i: int,
)
    requires
        splittable(b, chunk_ms, overlap_ms),
        parsed(b) == Ok::<WavView, WavError>(w),
        w.block_align != 0,
        is_cut(w, chunk_ms),
        0 <= i < pieces(w.data, 0, span_bytes(w, chunk_ms), span_bytes(w, overlap_ms)).len(),
    ensures
        ({
            let list = pieces(w.data, 0, span_bytes(w, chunk_ms), span_bytes(w, overlap_ms));
            parsed(wrapped(w, list)[i]) == Ok::<WavView, WavError>(
                WavView {
                    channels: w.channels,
                    bits_per_sample: w.bits_per_sample,
                    sample_rate: w.sample_rate,
                    byte_rate: (w.sample_rate * block_align_of(w.channels, w.bits_per_sample)) as u32,
                    block_align: block_align_of(w.channels, w.bits_per_sample) as u16,
                    data: list[i],
                },
            )
        }),
{
    let list = pieces(w.data, 0, span_bytes(w, chunk_ms), span_bytes(w, overlap_ms));
    law_neighbouring_chunks_overlap(b, w, chunk_ms, overlap_ms, i);
    assert(size_field(list[i].len()) == list[i].len());
    law_written_audio_is_read_back(w.channels, w.bits_per_sample, w.sample_rate, list[i]);
}

/// The samples stand in the PCM bytes in order, two bytes each.
pub proof fn law_samples_stand_in_order(samples: Seq<i16>, i: int)
    requires
        0 <= i < samples.len(),
    ensures
        pcm_bytes(samples).len() == 2 * samples.len(),
        u16_at(pcm_bytes(samples), 2 * i) == sample_bits(samples[i]),
    decreases samples.len(),
{
    let front = samples.drop_last();
    law_samples_take_two_bytes(front);
    let tail = u16_bytes(sample_bits(samples.last()));
    assert(pcm_bytes(samples) == pcm_bytes(front) + tail);
    if i < front.len() {
        law_samples_stand_in_order(front, i);
        assert(pcm_bytes(samples)[2 * i] == pcm_bytes(front)[2 * i]);
        assert(pcm_bytes(samples)[2 * i + 1] == pcm_bytes(front)[2 * i + 1]);
    } else {
        assert(pcm_bytes(samples).subrange(2 * i, 2 * i + 2) =~= tail);
        lemma_u16_read(pcm_bytes(samples), 2 * i, sample_bits(samples[i]));
    }
}

/// Every sample takes two bytes.
pub proof fn law_samples_take_two_bytes(samples: Seq<i16>)
    ensures
        pcm_bytes(samples).len() == 2 * samples.len(),
    decreases samples.len(),
{
    if samples.len() > 0 {
        law_samples_take_two_bytes(samples.drop_last());
    }
}

// ---------------------------------------------------------------------------
// Unknown chunks
// ---------------------------------------------------------------------------

/// Whether the walk over the chunks from `pos` on comes to `target`, and every
/// chunk before it is complete.
pub open spec fn reaches(b: Seq<u8>, pos: int, target: int) -> bool
    decreases b.len() + 1 - pos,
{
    if pos == target {
        true
    } else if pos < 0 || pos + 8 > b.len() {
        false
    } else {
        let c = chunk_at(b, pos);
        c.end() <= b.len() && reaches(b, c.end() + c.size % 2, target)
    }
}

/// Whether some bytes are one complete chunk that is neither `fmt ` nor `data`.
pub open spec fn is_unknown_chunk(j: Seq<u8>) -> bool {
    let size = u32_at(j, 4);
    &&& j.len() == 8 + size + size % 2
    &&& j.subrange(0, 4) != fmt_tag()
    &&& j.subrange(0, 4) != data_tag()
}

/// The chunks that the walk from `pos` passes before it comes to `target`.
spec fn walked(b: Seq<u8>, pos: int, target: int) -> Seq<Chunk>
    decreases b.len() + 1 - pos,
{
    if pos == target || pos < 0 || pos + 8 > b.len() {
        Seq::empty()
    } else {
        let c = chunk_at(b, pos);
        if c.end() > b.len() {
            Seq::empty()
        } else {
            seq![c] + walked(b, c.end() + c.size % 2, target)
        }
    }
}

/// Chunks that lie `k` bytes later.
spec fn later(list: Seq<Chunk>, k: int) -> Seq<Chunk> {
    Seq::new(list.len(), |i: int| Chunk { start: list[i].start + k, ..list[i] })
}

proof fn lemma_reaches_forward(b: Seq<u8>, pos: int, target: int)
    requires
        reaches(b, pos, target),
    ensures
        pos <= target,
    decreases b.len() + 1 - pos,
{
    if pos != target {
        let c = chunk_at(b, pos);
        lemma_reaches_forward(b, c.end() + c.size % 2, target);
    }
}

proof fn lemma_walk_before(a: Seq<u8>, j: Seq<u8>, b: Seq<u8>, pos: int)
    requires
        0 <= pos,
        reaches(a + b, pos, a.len() as int),
    ensures
        chunks_from(a + b, pos) == walked(a + b, pos, a.len() as int) + chunks_from(
            a + b,
            a.len() as int,
        ),
        chunks_from(a + j + b, pos) == walked(a + b, pos, a.len() as int) + chunks_from(
            a + j + b,
            a.len() as int,
        ),
        forall|i: int|
            0 <= i < walked(a + b, pos, a.len() as int).len() ==> 0 <= (#[trigger] walked(
                a + b,
                pos,
                a.len() as int,
            )[i]).start && walked(a + b, pos, a.len() as int)[i].end() <= a.len(),
    decreases (a + b).len() + 1 - pos,
{
    let x = a + b;
    let y = a + j + b;
    let p = a.len() as int;
    let list = walked(x, pos, p);
    lemma_reaches_forward(x, pos, p);
    if pos == p {
        assert(list + chunks_from(x, p) =~= chunks_from(x, p));
        assert(list + chunks_from(y, p) =~= chunks_from(y, p));
    } else {
        let c = chunk_at(x, pos);
        let next = c.end() + c.size % 2;
        lemma_reaches_forward(x, next, p);
        lemma_walk_before(a, j, b, next);
        assert(x.subrange(pos, pos + 4) =~= y.subrange(pos, pos + 4));
        assert(chunk_at(y, pos) == c);
        let rest = walked(x, next, p);
        assert(list == seq![c] + rest);
        assert(chunks_from(x, pos) =~= list + chunks_from(x, p));
        assert(chunks_from(y, pos) =~= list + chunks_from(y, p));
        assert forall|i: int| 0 <= i < list.len() implies 0 <= (#[trigger] list[i]).start
            && list[i].end() <= p by {
            if i > 0 {
                assert(list[i] == rest[i - 1]);
            }
        }
    }
}

proof fn lemma_walk_after(a: Seq<u8>, j: Seq<u8>, b: Seq<u8>, pos: int)
    requires
        a.len() <= pos,
    ensures
        chunks_from(a + j + b, pos + j.len()) == later(chunks_from(a + b, pos), j.len() as int),
        forall|i: int|
            0 <= i < chunks_from(a + b, pos).len() ==> (#[trigger] chunks_from(
                a + b,
                pos,
            )[i]).start >= a.len(),
    decreases (a + b).len() + 1 - pos,
{
    let x = a + b;
    let y = a + j + b;
    let k = j.len() as int;
    let list = chunks_from(x, pos);
    if pos + 8 <= x.len() {
        let c = chunk_at(x, pos);
        let d = chunk_at(y, pos + k);
        assert(x.subrange(pos, pos + 4) =~= y.subrange(pos + k, pos + k + 4));
        assert(d == (Chunk { start: c.start + k, ..c }));
        if c.end() <= x.len() {
            let next = c.end() + c.size % 2;
            lemma_walk_after(a, j, b, next);
            let rest = chunks_from(x, next);
            assert(list == seq![c] + rest);
            assert(seq![d] + later(rest, k) =~= later(list, k));
            assert forall|i: int| 0 <= i < list.len() implies (#[trigger] list[i]).start
                >= a.len() by {
                if i > 0 {
                    assert(list[i] == rest[i - 1]);
                }
            }
        } else {
            assert(seq![d] =~= later(list, k));
        }
    } else {
        assert(later(list, k) =~= Seq::empty());
    }
}

proof fn lemma_fault_parts(b: Seq<u8>, l: Seq<Chunk>, r: Seq<Chunk>)
    ensures
        first_fault(b, l + r) == match first_fault(b, l) {
            Some(e) => Some(e),
            None => first_fault(b, r),
        },
    decreases l.len(),
{
    if l.len() == 0 {
        assert(l + r =~= r);
    } else {
        assert((l + r)[0] == l[0]);
        assert((l + r).drop_first() =~= l.drop_first() + r);
        lemma_fault_parts(b, l.drop_first(), r);
    }
}

proof fn lemma_same_faults(x: Seq<u8>, y: Seq<u8>, l: Seq<Chunk>, m: Seq<Chunk>)
    requires
        l.len() == m.len(),
        forall|i: int|
            0 <= i < l.len() ==> chunk_fault(x, #[trigger] l[i]) == chunk_fault(y, m[i]),
    ensures
        first_fault(x, l) == first_fault(y, m),
    decreases l.len(),
{
    if l.len() > 0 {
        assert(chunk_fault(x, l[0]) == chunk_fault(y, m[0]));
        assert forall|i: int| 0 <= i < l.drop_first().len() implies chunk_fault(
            x,
            #[trigger] l.drop_first()[i],
        ) == chunk_fault(y, m.drop_first()[i]) by {
            assert(l.drop_first()[i] == l[i + 1]);
            assert(m.drop_first()[i] == m[i + 1]);
        }
        lemma_same_faults(x, y, l.drop_first(), m.drop_first());
    }
}

proof fn lemma_no_fault(b: Seq<u8>, l: Seq<Chunk>)
    requires
        first_fault(b, l) is None,
    ensures
        forall|i: int| 0 <= i < l.len() ==> chunk_fault(b, #[trigger] l[i]) is None,
    decreases l.len(),
{
    if l.len() > 0 {
        lemma_no_fault(b, l.drop_first());
        assert forall|i: int| 0 <= i < l.len() implies chunk_fault(b, #[trigger] l[i]) is None by {
            if i > 0 {
                assert(l[i] == l.drop_first()[i - 1]);
            }
        }
    }
}

proof fn lemma_last_parts(l: Seq<Chunk>, r: Seq<Chunk>, id: Seq<u8>)
    ensures
        last_with_id(l + r, id) == match last_with_id(r, id) {
            Some(c) => Some(c),
            None => last_with_id(l, id),
        },
    decreases r.len(),
{
    if r.len() == 0 {
        assert(l + r =~= l);
    } else {
        assert((l + r).last() == r.last());
        assert((l + r).drop_last() =~= l + r.drop_last());
        lemma_last_parts(l, r.drop_last(), id);
    }
}

proof fn lemma_last_later(l: Seq<Chunk>, k: int, id: Seq<u8>)
    ensures
        last_with_id(later(l, k), id) == match last_with_id(l, id) {
            Some(c) => Some(Chunk { start: c.start + k, ..c }),
            None => None,
        },
    decreases l.len(),
{
    if l.len() > 0 {
        assert(later(l, k).drop_last() =~= later(l.drop_last(), k));
        lemma_last_later(l.drop_last(), k, id);
    }
}

proof fn lemma_last_stands(l: Seq<Chunk>, id: Seq<u8>)
    ensures
        last_with_id(l, id) matches Some(c) ==> c.id == id && exists|i: int|
            0 <= i < l.len() && #[trigger] l[i] == c,
    decreases l.len(),
{
    if l.len() > 0 {
        if l.last().id == id {
            assert(l[l.len() - 1] == l.last());
        } else {
            lemma_last_stands(l.drop_last(), id);
            if let Some(c) = last_with_id(l.drop_last(), id) {
                let i = choose|i: int| 0 <= i < l.drop_last().len() && l.drop_last()[i] == c;
                assert(l[i] == c);
            }
        }
    }
}

/// Bytes that stand before a place are the same after something is put in
/// there, and those behind it are found as much later.
proof fn lemma_same_content(a: Seq<u8>, j: Seq<u8>, b: Seq<u8>, from: int, to: int)
    requires
        0 <= from <= to <= (a + b).len(),
    ensures
        to <= a.len() ==> (a + b).subrange(from, to) == (a + j + b).subrange(from, to),
        a.len() <= from ==> (a + b).subrange(from, to) == (a + j + b).subrange(
            from + j.len(),
            to + j.len(),
        ),
{
    if to <= a.len() {
        assert((a + b).subrange(from, to) =~= (a + j + b).subrange(from, to));
    }
    if a.len() <= from {
        assert((a + b).subrange(from, to) =~= (a + j + b).subrange(
            from + j.len(),
            to + j.len(),
        ));
    }
}

proof fn lemma_same_description(
    x: Seq<u8>,
    y: Seq<u8>,
    f: Chunk,
    g: Chunk,
    data: Seq<u8>,
)
    requires
        0 <= f.start,
        f.start + 16 <= x.len(),
        0 <= g.start,
        g.start + 16 <= y.len(),
        x.subrange(f.start, f.start + 16) == y.subrange(g.start, g.start + 16),
    ensures
        described(x, f, data) == described(y, g, data),
{
    let s = x.subrange(f.start, f.start + 16);
    assert forall|i: int| 0 <= i < 16 implies #[trigger] x[f.start + i] == y[g.start + i] by {
        assert(x[f.start + i] == s[i]);
        assert(y[g.start + i] == y.subrange(g.start, g.start + 16)[i]);
    }
    assert(x[f.start + 0] == y[g.start + 0]);
    assert(x[f.start + 1] == y[g.start + 1]);
    assert(x[f.start + 2] == y[g.start + 2]);
    assert(x[f.start + 3] == y[g.start + 3]);
    assert(x[f.start + 4] == y[g.start + 4]);
    assert(x[f.start + 5] == y[g.start + 5]);
    assert(x[f.start + 6] == y[g.start + 6]);
    assert(x[f.start + 7] == y[g.start + 7]);
    assert(x[f.start + 8] == y[g.start + 8]);
    assert(x[f.start + 9] == y[g.start + 9]);
    assert(x[f.start + 10] == y[g.start + 10]);
    assert(x[f.start + 11] == y[g.start + 11]);
    assert(x[f.start + 12] == y[g.start + 12]);
    assert(x[f.start + 13] == y[g.start + 13]);
    assert(x[f.start + 14] == y[g.start + 14]);
    assert(x[f.start + 15] == y[g.start + 15]);
}

/// The chunk that is put in, and the walk over it.
proof fn lemma_walk_over(a: Seq<u8>, j: Seq<u8>, b: Seq<u8>)
    requires
        is_unknown_chunk(j),
    ensures
        ({
            let y = a + j + b;
            let c = chunk_at(y, a.len() as int);
            &&& chunks_from(y, a.len() as int) == seq![c] + chunks_from(
                y,
                (a.len() + j.len()) as int,
            )
            &&& chunk_fault(y, c) is None
            &&& c.id != fmt_tag()
            &&& c.id != data_tag()
        }),
{
    let y = a + j + b;
    let p = a.len() as int;
    let c = chunk_at(y, p);
    assert(j.len() >= 8);
    assert(y[p + 4] == j[4] && y[p + 5] == j[5] && y[p + 6] == j[6] && y[p + 7] == j[7]);
    assert(c.id =~= j.subrange(0, 4));
    assert(c.size == u32_at(j, 4));
    assert(c.end() + c.size % 2 == p + j.len());
}

/// Where a chunk with an identifier is found, once an unknown one is put in.
proof fn lemma_found_again(
    before: Seq<Chunk>,
    c: Chunk,
    after: Seq<Chunk>,
    k: int,
    id: Seq<u8>,
)
    requires
        c.id != id,
    ensures
        last_with_id(before + (seq![c] + later(after, k)), id) == match last_with_id(after, id) {
            Some(d) => Some(Chunk { start: d.start + k, ..d }),
            None => last_with_id(before, id),
        },
        last_with_id(before + after, id) == match last_with_id(after, id) {
            Some(d) => Some(d),
            None => last_with_id(before, id),
        },
{
    lemma_last_parts(before, seq![c] + later(after, k), id);
    lemma_last_parts(seq![c], later(after, k), id);
    lemma_last_parts(before, after, id);
    lemma_last_later(after, k, id);
    assert(last_with_id(seq![c], id) is None) by {
        assert(seq![c].drop_last() =~= Seq::empty());
        assert(last_with_id(Seq::<Chunk>::empty(), id) is None);
    }
}

proof fn lemma_same_first_fault(
    x: Seq<u8>,
    y: Seq<u8>,
    p: int,
    k: int,
    before: Seq<Chunk>,
    after: Seq<Chunk>,
    c: Chunk,
)
    requires
        0 <= p <= x.len(),
        k >= 0,
        y.len() == x.len() + k,
        chunk_fault(y, c) is None,
        forall|i: int| 0 <= i < before.len() ==> (#[trigger] before[i]).end() <= p,
    ensures
        first_fault(x, before + after) == first_fault(
            y,
            before + (seq![c] + later(after, k)),
        ),
{
    let moved = later(after, k);
    lemma_fault_parts(x, before, after);
    lemma_fault_parts(y, before, seq![c] + moved);
    lemma_fault_parts(y, seq![c], moved);
    assert(first_fault(y, seq![c]) is None) by {
        assert(seq![c].drop_first() =~= Seq::empty());
        assert(first_fault(y, Seq::<Chunk>::empty()) is None);
    }
    lemma_same_faults(x, y, before, before);
    assert forall|i: int| 0 <= i < after.len() implies chunk_fault(x, #[trigger] after[i])
        == chunk_fault(y, moved[i]) by {
        assert(moved[i] == (Chunk { start: after[i].start + k, ..after[i] }));
    }
    lemma_same_faults(x, y, after, moved);
}

proof fn lemma_same_format(
    a: Seq<u8>,
    j: Seq<u8>,
    b: Seq<u8>,
    before: Seq<Chunk>,
    after: Seq<Chunk>,
    c: Chunk,
    data: Seq<u8>,
)
    requires
        c.id != fmt_tag(),
        forall|i: int|
            0 <= i < before.len() ==> 0 <= (#[trigger] before[i]).start && before[i].end()
                <= a.len(),
        forall|i: int| 0 <= i < after.len() ==> (#[trigger] after[i]).start >= a.len(),
        forall|i: int|
            0 <= i < (before + after).len() ==> chunk_fault(
                a + b,
                #[trigger] (before + after)[i],
            ) is None,
    ensures
        match (
            last_with_id(before + after, fmt_tag()),
            last_with_id(before + (seq![c] + later(after, j.len() as int)), fmt_tag()),
        ) {
            (Some(f), Some(g)) => described(a + b, f, data) == described(a + j + b, g, data),
            (None, None) => true,
            _ => false,
        },
{
    let list = before + after;
    lemma_found_again(before, c, after, j.len() as int, fmt_tag());
    lemma_last_stands(list, fmt_tag());
    lemma_last_stands(after, fmt_tag());
    lemma_last_stands(before, fmt_tag());
    if let Some(f) = last_with_id(list, fmt_tag()) {
        let i = choose|i: int| 0 <= i < list.len() && list[i] == f;
        assert(chunk_fault(a + b, list[i]) is None);
        let g = last_with_id(before + (seq![c] + later(after, j.len() as int)), fmt_tag())->0;
        if let Some(d) = last_with_id(after, fmt_tag()) {
            let n = choose|n: int| 0 <= n < after.len() && after[n] == d;
            assert(after[n].start >= a.len());
        } else {
            let n = choose|n: int| 0 <= n < before.len() && before[n] == f;
            assert(before[n].end() <= a.len());
        }
        lemma_same_content(a, j, b, f.start, f.start + 16);
        lemma_same_description(a + b, a + j + b, f, g, data);
    }
}

proof fn lemma_same_data(
    a: Seq<u8>,
    j: Seq<u8>,
    b: Seq<u8>,
    before: Seq<Chunk>,
    after: Seq<Chunk>,
    c: Chunk,
)
    requires
        c.id != data_tag(),
        forall|i: int|
            0 <= i < before.len() ==> 0 <= (#[trigger] before[i]).start && before[i].end()
                <= a.len(),
        forall|i: int| 0 <= i < after.len() ==> (#[trigger] after[i]).start >= a.len(),
        forall|i: int|
            0 <= i < (before + after).len() ==> chunk_fault(
                a + b,
                #[trigger] (before + after)[i],
            ) is None,
    ensures
        data_of(a + j + b, before + (seq![c] + later(after, j.len() as int))) == data_of(
            a + b,
            before + after,
        ),
{
    let list = before + after;
    lemma_found_again(before, c, after, j.len() as int, data_tag());
    lemma_last_stands(list, data_tag());
    lemma_last_stands(after, data_tag());
    lemma_last_stands(before, data_tag());
    if let Some(d) = last_with_id(list, data_tag()) {
        let i = choose|i: int| 0 <= i < list.len() && list[i] == d;
        assert(chunk_fault(a + b, list[i]) is None);
        if let Some(e) = last_with_id(after, data_tag()) {
            let n = choose|n: int| 0 <= n < after.len() && after[n] == e;
            assert(after[n].start >= a.len());
        } else {
            let n = choose|n: int| 0 <= n < before.len() && before[n] == d;
            assert(before[n].end() <= a.len());
        }
        lemma_same_content(a, j, b, d.start, d.end());
    }
}

/// A chunk of an unknown kind changes nothing, wherever between two chunks it
/// is put in: the buffer holds the same audio, or is refused for the same
/// reason.
pub proof fn law_unknown_chunk_is_ignored(a: Seq<u8>, j: Seq<u8>, b: Seq<u8>)
    requires
        a.len() >= 12,
        reaches(a + b, 12, a.len() as int),
        is_unknown_chunk(j),
    ensures
        parsed(a + j + b) == parsed(a + b),
{
    let x = a + b;
    let y = a + j + b;
    let p = a.len() as int;
    let k = j.len() as int;
    let before = walked(x, 12, p);
    let after = chunks_from(x, p);
    let c = chunk_at(y, p);
    assert(x.subrange(0, 4) =~= y.subrange(0, 4));
    assert(x.subrange(8, 12) =~= y.subrange(8, 12));
    lemma_walk_before(a, j, b, 12);
    lemma_walk_over(a, j, b);
    lemma_walk_after(a, j, b, p);
    assert(chunks_from(x, 12) == before + after);
    assert(chunks_from(y, 12) == before + (seq![c] + later(after, k)));
    lemma_same_first_fault(x, y, p, k, before, after, c);
    if first_fault(x, before + after) is None {
        lemma_no_fault(x, before + after);
        lemma_same_data(a, j, b, before, after, c);
        lemma_same_format(a, j, b, before, after, c, data_of(x, before + after));
    }
}

// ---------------------------------------------------------------------------
// Messages
// ---------------------------------------------------------------------------

impl WavError {
    /// What the user is told.
    pub open spec fn text(self) -> Seq<char> {
        match self {
            WavError::NotRiff => "not a RIFF/WAVE file"@,
            WavError::TruncatedChunk(a, b, c, d) => "truncated WAV chunk '"@ + lossy_text(
                seq![a, b, c, d],
            ) + "'"@,
            WavError::FmtTooSmall => "fmt chunk too small"@,
            WavError::NoFmt => "WAV file has no fmt chunk"@,
            WavError::Extensible =>
                "WAVE_FORMAT_EXTENSIBLE is not supported; convert with ffmpeg: ffmpeg -i in.wav out.wav"@,
            WavError::UnsupportedEncoding(format) => "unsupported WAV encoding (audio_format="@
                + decimal_digits(format as nat)
                + "); convert with ffmpeg: ffmpeg -i in.wav out.wav"@,
            WavError::UnsupportedBitDepth(bits) => "unsupported bit depth "@ + decimal_digits(
                bits as nat,
            ) + "; convert with ffmpeg"@,
            WavError::NoData => "WAV file has no data chunk"@,
            WavError::ZeroBlockAlign => "WAV block_align is 0"@,
        }
    }

    /// What the user is told.
    pub fn message(&self) -> (message: String)
        ensures
            message@ == self.text(),
    {
        match *self {
            WavError::NotRiff => "not a RIFF/WAVE file".to_string(),
            WavError::TruncatedChunk(a, b, c, d) => {
                let id: Vec<u8> = vec![a, b, c, d];
                assert(id@ =~= seq![a, b, c, d]);
                "truncated WAV chunk '".to_string().concat(lossy(&id).as_str()).concat("'")
            },
            WavError::FmtTooSmall => "fmt chunk too small".to_string(),
            WavError::NoFmt => "WAV file has no fmt chunk".to_string(),
            WavError::Extensible =>
                "WAVE_FORMAT_EXTENSIBLE is not supported; convert with ffmpeg: ffmpeg -i in.wav out.wav".to_string(),
            WavError::UnsupportedEncoding(format) => "unsupported WAV encoding (audio_format=".to_string().concat(
            decimal(format as u128).as_str()).concat(
                "); convert with ffmpeg: ffmpeg -i in.wav out.wav",
            ),
            WavError::UnsupportedBitDepth(bits) => "unsupported bit depth ".to_string().concat(
                decimal(bits as u128).as_str(),
            ).concat("; convert with ffmpeg"),
            WavError::NoData => "WAV file has no data chunk".to_string(),
            WavError::ZeroBlockAlign => "WAV block_align is 0".to_string(),
        }
    }
}

// ---------------------------------------------------------------------------
// Laws
// ---------------------------------------------------------------------------

/// Numbers are little-endian: the first byte counts least, and a number that was
/// written is read back.
pub proof fn law_numbers_are_little_endian(b: Seq<u8>, at: int, x: u16, y: u32)
    ensures
        u16_at(b, at) == b[at] + 256 * b[at + 1],
        u32_at(b, at) == b[at] + 256 * b[at + 1] + 65536 * b[at + 2] + 16777216 * b[at + 3],
        u16_bytes(x).len() == 2,
        u16_at(u16_bytes(x), 0) == x,
        u32_bytes(y).len() == 4,
        u32_at(u32_bytes(y), 0) == y,
{
}

/// A sample is two bytes, the first of which counts less; a negative sample is
/// written as the number that is 65536 greater.
pub proof fn law_samples_are_signed(samples: Seq<i16>, i: int)
    requires
        0 <= i < samples.len(),
    ensures
        pcm_bytes(samples)[2 * i] + 256 * pcm_bytes(samples)[2 * i + 1] == if samples[i] >= 0 {
            samples[i] as int
        } else {
            samples[i] + 65536
        },
{
    law_samples_stand_in_order(samples, i);
}

/// The marks of a WAV buffer stand where the format has them, and the samples
/// after them.
pub proof fn law_header_has_its_marks(
    channels: u16,
    bits_per_sample: u16,
    sample_rate: u32,
    data: Seq<u8>,
)
    ensures
        ({
            let b = wav_bytes(channels, bits_per_sample, sample_rate, data);
            &&& b.subrange(0, 4) == seq![0x52u8, 0x49, 0x46, 0x46]
            &&& b.subrange(8, 12) == seq![0x57u8, 0x41, 0x56, 0x45]
            &&& b.subrange(12, 16) == seq![0x66u8, 0x6d, 0x74, 0x20]
            &&& b.subrange(36, 40) == seq![0x64u8, 0x61, 0x74, 0x61]
            &&& b.skip(44) == data
        }),
{
    let b = wav_bytes(channels, bits_per_sample, sample_rate, data);
    lemma_header_fields(channels, bits_per_sample, sample_rate, data);
    assert(b.skip(44) =~= b.subrange(44, b.len() as int));
}

/// The sizes in a WAV buffer are those of what follows them.
pub proof fn law_header_says_how_much_follows(
    channels: u16,
    bits_per_sample: u16,
    sample_rate: u32,
    data: Seq<u8>,
)
    requires
        data.len() <= u32::MAX - 36,
    ensures
        ({
            let b = wav_bytes(channels, bits_per_sample, sample_rate, data);
            &&& u32_at(b, 4) == b.len() - 8
            &&& u32_at(b, 16) == 16
            &&& u32_at(b, 40) == data.len()
        }),
{
    let b = wav_bytes(channels, bits_per_sample, sample_rate, data);
    lemma_header_fields(channels, bits_per_sample, sample_rate, data);
    lemma_riff_size(channels, bits_per_sample, sample_rate, data);
    lemma_u32_read(b, 4, (36 + size_field(data.len())) as u32);
    lemma_u32_read(b, 16, 16);
    lemma_u32_read(b, 40, size_field(data.len()));
}

/// The format in a WAV buffer is PCM as it was asked for, with frames of all
/// channels.
pub proof fn law_header_says_the_format(
    channels: u16,
    bits_per_sample: u16,
    sample_rate: u32,
    data: Seq<u8>,
)
    requires
        header_fits(channels, bits_per_sample, sample_rate, data.len()),
    ensures
        ({
            let b = wav_bytes(channels, bits_per_sample, sample_rate, data);
            &&& u16_at(b, 20) == 1
            &&& u16_at(b, 22) == channels
            &&& u32_at(b, 24) == sample_rate
            &&& u32_at(b, 28) == sample_rate * (channels * bits_per_sample / 8)
            &&& u16_at(b, 32) == channels * bits_per_sample / 8
            &&& u16_at(b, 34) == bits_per_sample
        }),
{
    let b = wav_bytes(channels, bits_per_sample, sample_rate, data);
    let block = block_align_of(channels, bits_per_sample);
    lemma_header_fields(channels, bits_per_sample, sample_rate, data);
    assert(channels * bits_per_sample >= 0) by (nonlinear_arith)
        requires
            channels >= 0,
            bits_per_sample >= 0,
    ;
    assert(sample_rate * block >= 0) by (nonlinear_arith)
        requires
            sample_rate >= 0,
            block >= 0,
    ;
    lemma_u16_read(b, 20, 1);
    lemma_u16_read(b, 22, channels);
    lemma_u32_read(b, 24, sample_rate);
    lemma_u32_read(b, 28, (sample_rate * block) as u32);
    lemma_u16_read(b, 32, block as u16);
    lemma_u16_read(b, 34, bits_per_sample);
}

/// Whether a chunk stands at a place of a buffer: the walk over the chunks comes
/// there, and there is room for its identifier and its size.
pub open spec fn chunk_stands_at(b: Seq<u8>, p: int) -> bool {
    reaches(b, 12, p) && p + 8 <= b.len()
}

/// Whether the last chunk with an identifier stands at a place.
pub open spec fn last_stands_at(b: Seq<u8>, id: Seq<u8>, p: int) -> bool {
    &&& chunk_stands_at(b, p)
    &&& b.subrange(p, p + 4) == id
    &&& forall|q: int|
        p < q && #[trigger] chunk_stands_at(b, q) ==> b.subrange(q, q + 4) != id
}

/// Whether a buffer starts as a RIFF/WAVE file does and none of its chunks is
/// incomplete or too small.
pub open spec fn is_sound(b: Seq<u8>) -> bool {
    &&& b.len() >= 12
    &&& b.subrange(0, 4) == seq![0x52u8, 0x49, 0x46, 0x46]
    &&& b.subrange(8, 12) == seq![0x57u8, 0x41, 0x56, 0x45]
    &&& forall|p: int| #[trigger]
        chunk_stands_at(b, p) ==> p + 8 + u32_at(b, p + 4) <= b.len() && (b.subrange(p, p + 4)
            == seq![0x66u8, 0x6d, 0x74, 0x20] ==> u32_at(b, p + 4) >= 16)
}

proof fn lemma_reaches_on(b: Seq<u8>, pos: int, p: int)
    requires
        reaches(b, pos, p),
        p + 8 <= b.len(),
        0 <= pos,
        chunk_at(b, p).end() <= b.len(),
    ensures
        reaches(b, pos, chunk_at(b, p).end() + chunk_at(b, p).size % 2),
    decreases b.len() + 1 - pos,
{
    let next = chunk_at(b, p).end() + chunk_at(b, p).size % 2;
    lemma_reaches_forward(b, pos, p);
    if pos == p {
        assert(reaches(b, next, next));
    } else {
        let c = chunk_at(b, pos);
        let after = c.end() + c.size % 2;
        lemma_reaches_forward(b, after, p);
        lemma_reaches_on(b, after, p);
    }
}

proof fn lemma_listed_chunks_stand(b: Seq<u8>, pos: int)
    requires
        reaches(b, 12, pos),
    ensures
        forall|i: int|
            0 <= i < chunks_from(b, pos).len() ==> exists|p: int|
                pos <= p && #[trigger] chunk_stands_at(b, p) && chunk_at(b, p) == (
                #[trigger] chunks_from(b, pos)[i]),
    decreases b.len() + 1 - pos,
{
    let list = chunks_from(b, pos);
    if 0 <= pos && pos + 8 <= b.len() {
        let c = chunk_at(b, pos);
        assert(chunk_stands_at(b, pos));
        if c.end() <= b.len() {
            let next = c.end() + c.size % 2;
            lemma_reaches_on(b, 12, pos);
            lemma_listed_chunks_stand(b, next);
            let rest = chunks_from(b, next);
            assert forall|i: int| 0 <= i < list.len() implies exists|p: int|
                pos <= p && #[trigger] chunk_stands_at(b, p) && chunk_at(b, p) == (
                #[trigger] list[i]) by {
                if i > 0 {
                    assert(list[i] == rest[i - 1]);
                    let p = choose|p: int|
                        next <= p && #[trigger] chunk_stands_at(b, p) && chunk_at(b, p)
                            == rest[i - 1];
                    assert(chunk_stands_at(b, p));
                }
            }
        }
    }
}

proof fn lemma_walked_chunks_stand(b: Seq<u8>, pos: int, target: int)
    requires
        reaches(b, 12, pos),
        reaches(b, pos, target),
    ensures
        forall|i: int|
            0 <= i < walked(b, pos, target).len() ==> exists|p: int|
                pos <= p < target && #[trigger] chunk_stands_at(b, p) && chunk_at(b, p).end()
                    <= b.len() && chunk_at(b, p) == (#[trigger] walked(b, pos, target)[i]),
    decreases b.len() + 1 - pos,
{
    let list = walked(b, pos, target);
    if pos != target && 0 <= pos && pos + 8 <= b.len() {
        let c = chunk_at(b, pos);
        let next = c.end() + c.size % 2;
        assert(chunk_stands_at(b, pos));
        lemma_reaches_on(b, 12, pos);
        lemma_reaches_forward(b, next, target);
        lemma_walked_chunks_stand(b, next, target);
        let rest = walked(b, next, target);
        assert(list == seq![c] + rest);
        assert forall|i: int| 0 <= i < list.len() implies exists|p: int|
            pos <= p < target && #[trigger] chunk_stands_at(b, p) && chunk_at(b, p).end()
                <= b.len() && chunk_at(b, p) == (#[trigger] list[i]) by {
            if i > 0 {
                assert(list[i] == rest[i - 1]);
                let p = choose|p: int|
                    next <= p < target && #[trigger] chunk_stands_at(b, p) && chunk_at(b, p).end()
                        <= b.len() && chunk_at(b, p) == rest[i - 1];
                assert(chunk_stands_at(b, p));
            }
        }
    }
}

proof fn lemma_list_at(b: Seq<u8>, p: int)
    requires
        chunk_stands_at(b, p),
    ensures
        chunks_from(b, 12) == walked(b, 12, p) + chunks_from(b, p),
{
    lemma_reaches_forward(b, 12, p);
    let (a, z) = (b.take(p), b.skip(p));
    assert(a + z =~= b);
    lemma_walk_before(a, Seq::empty(), z, 12);
}

proof fn lemma_without_id(list: Seq<Chunk>, id: Seq<u8>)
    requires
        forall|i: int| 0 <= i < list.len() ==> (#[trigger] list[i]).id != id,
    ensures
        last_with_id(list, id) is None,
    decreases list.len(),
{
    if list.len() > 0 {
        assert(list[list.len() - 1].id != id);
        let front = list.drop_last();
        assert forall|i: int| 0 <= i < front.len() implies (#[trigger] front[i]).id != id by {
            assert(front[i] == list[i]);
        }
        lemma_without_id(front, id);
    }
}

proof fn lemma_sound_list(b: Seq<u8>)
    requires
        is_sound(b),
    ensures
        first_fault(b, chunks_from(b, 12)) is None,
        is_riff(b),
{
    let list = chunks_from(b, 12);
    assert(reaches(b, 12, 12));
    lemma_listed_chunks_stand(b, 12);
    assert forall|i: int| 0 <= i < list.len() implies chunk_fault(b, #[trigger] list[i]) is None by {
        let p = choose|p: int|
            12 <= p && #[trigger] chunk_stands_at(b, p) && chunk_at(b, p) == list[i];
        assert(chunk_stands_at(b, p));
    }
    lemma_fault_after(b, list, Seq::empty());
    assert(list + Seq::<Chunk>::empty() =~= list);
}

proof fn lemma_found_last(b: Seq<u8>, id: Seq<u8>, p: int)
    requires
        is_sound(b),
        last_stands_at(b, id, p),
    ensures
        last_with_id(chunks_from(b, 12), id) == Some(chunk_at(b, p)),
{
    lemma_list_at(b, p);
    let c = chunk_at(b, p);
    let next = c.end() + c.size % 2;
    lemma_reaches_forward(b, 12, p);
    lemma_reaches_on(b, 12, p);
    lemma_listed_chunks_stand(b, next);
    let rest = chunks_from(b, next);
    assert forall|i: int| 0 <= i < rest.len() implies (#[trigger] rest[i]).id != id by {
        let q = choose|q: int|
            next <= q && #[trigger] chunk_stands_at(b, q) && chunk_at(b, q) == rest[i];
        assert(chunk_stands_at(b, q));
    }
    lemma_without_id(rest, id);
    let before = walked(b, 12, p);
    assert(chunks_from(b, 12) =~= before.push(c) + rest);
    lemma_last_parts(before.push(c), rest, id);
}

proof fn lemma_found_none(b: Seq<u8>, id: Seq<u8>)
    requires
        forall|p: int| #[trigger] chunk_stands_at(b, p) ==> b.subrange(p, p + 4) != id,
    ensures
        last_with_id(chunks_from(b, 12), id) is None,
{
    let list = chunks_from(b, 12);
    assert(reaches(b, 12, 12));
    lemma_listed_chunks_stand(b, 12);
    assert forall|i: int| 0 <= i < list.len() implies (#[trigger] list[i]).id != id by {
        let p = choose|p: int|
            12 <= p && #[trigger] chunk_stands_at(b, p) && chunk_at(b, p) == list[i];
        assert(chunk_stands_at(b, p));
    }
    lemma_without_id(list, id);
}

/// Audio is read where it stands: the format in the last `fmt ` chunk, the
/// samples in the last `data` chunk. Only PCM of the known bit depths is taken.
pub proof fn law_audio_is_read_where_it_stands(b: Seq<u8>, f: int, d: int)
    requires
        is_sound(b),
        last_stands_at(b, seq![0x66u8, 0x6d, 0x74, 0x20], f),
        last_stands_at(b, seq![0x64u8, 0x61, 0x74, 0x61], d),
    ensures
        ({
            let format = u16_at(b, f + 8);
            let bits = u16_at(b, f + 22);
            let size = u32_at(b, d + 4);
            parsed(b) == if format == 0xFFFE {
                Err::<WavView, WavError>(WavError::Extensible)
            } else if format != 1 {
                Err(WavError::UnsupportedEncoding(format))
            } else if bits != 8 && bits != 16 && bits != 24 && bits != 32 {
                Err(WavError::UnsupportedBitDepth(bits))
            } else if size == 0 {
                Err(WavError::NoData)
            } else {
                Ok(
                    WavView {
                        channels: u16_at(b, f + 10),
                        bits_per_sample: bits,
                        sample_rate: u32_at(b, f + 12),
                        byte_rate: u32_at(b, f + 16),
                        block_align: u16_at(b, f + 20),
                        data: b.subrange(d + 8, d + 8 + size),
                    },
                )
            }
        }),
{
    lemma_sound_list(b);
    lemma_found_last(b, fmt_tag(), f);
    lemma_found_last(b, data_tag(), d);
    assert(chunk_stands_at(b, d));
    lemma_reaches_forward(b, 12, d);
    let c = chunk_at(b, d);
    assert(b.subrange(c.start, c.end()).len() == c.size);
    assert(f + 8 + 14 == f + 22 && f + 8 + 2 == f + 10 && f + 8 + 4 == f + 12);
}

/// A buffer without a `fmt ` chunk is refused for that, and one with a good
/// format but no `data` chunk for that.
pub proof fn law_missing_chunks_are_told(b: Seq<u8>, f: int)
    requires
        is_sound(b),
    ensures
        (forall|p: int| #[trigger]
            chunk_stands_at(b, p) ==> b.subrange(p, p + 4) != seq![0x66u8, 0x6d, 0x74, 0x20])
            ==> parsed(b) == Err::<WavView, WavError>(WavError::NoFmt),
        last_stands_at(b, seq![0x66u8, 0x6d, 0x74, 0x20], f) && u16_at(b, f + 8) == 1 && (u16_at(
            b,
            f + 22,
        ) == 8 || u16_at(b, f + 22) == 16 || u16_at(b, f + 22) == 24 || u16_at(b, f + 22) == 32)
            && (forall|p: int| #[trigger]
            chunk_stands_at(b, p) ==> b.subrange(p, p + 4) != seq![0x64u8, 0x61, 0x74, 0x61])
            ==> parsed(b) == Err::<WavView, WavError>(WavError::NoData),
{
    lemma_sound_list(b);
    if forall|p: int| #[trigger]
        chunk_stands_at(b, p) ==> b.subrange(p, p + 4) != seq![0x66u8, 0x6d, 0x74, 0x20] {
        lemma_found_none(b, fmt_tag());
    }
    if forall|p: int| #[trigger]
        chunk_stands_at(b, p) ==> b.subrange(p, p + 4) != seq![0x64u8, 0x61, 0x74, 0x61] {
        lemma_found_none(b, data_tag());
        if last_stands_at(b, seq![0x66u8, 0x6d, 0x74, 0x20], f) {
            lemma_found_last(b, fmt_tag(), f);
        }
    }
}

/// The first chunk that is incomplete, or a `fmt ` chunk that is too small, is
/// what a buffer is refused for, whatever stands after it; a buffer that does
/// not start as it should is refused for that.
pub proof fn law_the_first_fault_is_told(b: Seq<u8>, p: int)
    ensures
        (b.len() < 12 || b.subrange(0, 4) != seq![0x52u8, 0x49, 0x46, 0x46] || b.subrange(8, 12)
            != seq![0x57u8, 0x41, 0x56, 0x45]) ==> parsed(b) == Err::<WavView, WavError>(
            WavError::NotRiff,
        ),
        b.len() >= 12 && b.subrange(0, 4) == seq![0x52u8, 0x49, 0x46, 0x46] && b.subrange(8, 12)
            == seq![0x57u8, 0x41, 0x56, 0x45] && chunk_stands_at(b, p) && (forall|q: int|
            q < p && #[trigger] chunk_stands_at(b, q) && b.subrange(q, q + 4) == seq![
                0x66u8,
                0x6d,
                0x74,
                0x20,
            ] ==> u32_at(b, q + 4) >= 16) ==> {
            &&& p + 8 + u32_at(b, p + 4) > b.len() ==> parsed(b) == Err::<WavView, WavError>(
                WavError::TruncatedChunk(b[p], b[p + 1], b[p + 2], b[p + 3]),
            )
            &&& p + 8 + u32_at(b, p + 4) <= b.len() && b.subrange(p, p + 4) == seq![
                0x66u8,
                0x6d,
                0x74,
                0x20,
            ] && u32_at(b, p + 4) < 16 ==> parsed(b) == Err::<WavView, WavError>(
                WavError::FmtTooSmall,
            )
        },
{
    if chunk_stands_at(b, p) && (forall|q: int|
        q < p && #[trigger] chunk_stands_at(b, q) && b.subrange(q, q + 4) == seq![
            0x66u8,
            0x6d,
            0x74,
            0x20,
        ] ==> u32_at(b, q + 4) >= 16) {
        lemma_list_at(b, p);
        lemma_reaches_forward(b, 12, p);
        assert(reaches(b, 12, 12));
        lemma_walked_chunks_stand(b, 12, p);
        let before = walked(b, 12, p);
        assert forall|i: int| 0 <= i < before.len() implies chunk_fault(
            b,
            #[trigger] before[i],
        ) is None by {
            let q = choose|q: int|
                12 <= q < p && #[trigger] chunk_stands_at(b, q) && chunk_at(b, q).end() <= b.len()
                    && chunk_at(b, q) == before[i];
            assert(chunk_stands_at(b, q));
        }
        lemma_fault_after(b, before, chunks_from(b, p));
        let c = chunk_at(b, p);
        assert(c.id[0] == b[p] && c.id[1] == b[p + 1] && c.id[2] == b[p + 2] && c.id[3] == b[p
            + 3]);
        assert(chunks_from(b, p)[0] == c);
    }
}

/// How long audio lasts is the size of its samples over its byte rate: written
/// audio lasts longer than so many milliseconds exactly where it holds more
/// bytes than are played in them.
pub proof fn law_length_is_size_over_rate(
    channels: u16,
    bits_per_sample: u16,
    sample_rate: u32,
    data: Seq<u8>,
    ms: nat,
)
    requires
        header_fits(channels, bits_per_sample, sample_rate, data.len()),
        0 < data.len() <= u32::MAX,
        bits_per_sample == 8 || bits_per_sample == 16 || bits_per_sample == 24 || bits_per_sample
            == 32,
        sample_rate > 0,
        channels > 0,
    ensures
        lasts_longer(wav_bytes(channels, bits_per_sample, sample_rate, data), ms) <==> data.len()
            * 1000 > ms * (sample_rate * (channels * bits_per_sample / 8)),
{
    law_written_audio_is_read_back(channels, bits_per_sample, sample_rate, data);
    let block = channels * bits_per_sample / 8;
    assert(channels * bits_per_sample >= 8) by (nonlinear_arith)
        requires
            channels >= 1,
            bits_per_sample >= 8,
    ;
    assert(sample_rate * block > 0) by (nonlinear_arith)
        requires
            sample_rate > 0,
            block > 0,
    ;
}

/// Only what can be read has a length, by the byte rate that it names.
pub proof fn law_only_audio_has_a_length(b: Seq<u8>, ms: nat)
    ensures
        lasts_longer(b, ms) <==> (parsed(b) matches Ok(w) && w.byte_rate != 0 && w.data.len() * 1000
            > ms * w.byte_rate),
{
}

proof fn lemma_piece_places(data: Seq<u8>, start: int, step: int, overlap: int)
    requires
        0 <= start < data.len(),
        0 <= overlap < step,
    ensures
        ({
            let list = pieces(data, start, step, overlap);
            let n = list.len() as int;
            let by = step - overlap;
            &&& n > 0
            &&& start + (n - 1) * by + step >= data.len()
            &&& start + (n - 1) * by < data.len()
            &&& n > 1 ==> start + (n - 2) * by + step < data.len()
            &&& forall|i: int|
                0 <= i < n ==> (#[trigger] list[i]) == data.subrange(
                    start + i * by,
                    if start + i * by + step < data.len() {
                        start + i * by + step
                    } else {
                        data.len() as int
                    },
                )
        }),
    decreases data.len() - start,
{
    let list = pieces(data, start, step, overlap);
    let by = step - overlap;
    assert(0 * by == 0);
    if start + step >= data.len() {
        assert(list =~= seq![data.skip(start)]);
        assert(data.skip(start) =~= data.subrange(start, data.len() as int));
        assert((list.len() - 1) * by == 0);
        assert forall|i: int| 0 <= i < list.len() implies (#[trigger] list[i]) == data.subrange(
            start + i * by,
            if start + i * by + step < data.len() {
                start + i * by + step
            } else {
                data.len() as int
            },
        ) by {
            assert(i * by == 0);
        }
    } else {
        let next = start + by;
        let rest = pieces(data, next, step, overlap);
        lemma_piece_places(data, next, step, overlap);
        assert(list =~= seq![data.subrange(start, start + step)] + rest);
        let n = list.len() as int;
        assert((n - 1) * by == (n - 2) * by + by) by (nonlinear_arith);
        if n > 2 {
            assert((n - 2) * by == (n - 3) * by + by) by (nonlinear_arith);
        }
        assert forall|i: int| 0 <= i < n implies (#[trigger] list[i]) == data.subrange(
            start + i * by,
            if start + i * by + step < data.len() {
                start + i * by + step
            } else {
                data.len() as int
            },
        ) by {
            if i > 0 {
                assert(list[i] == rest[i - 1]);
                assert(i * by == (i - 1) * by + by) by (nonlinear_arith);
            } else {
                assert(i * by == 0);
            }
        }
        if n == 2 {
            assert((n - 2) * by == 0);
        }
    }
}

/// Long audio is cut in step: chunk `i` holds the whole frames of `chunk_ms`
/// from where `i` chunks without their overlap end, as far as there are any, in
/// the format of the whole. The chunks end where the audio does.
pub proof fn law_audio_is_cut_in_step(b: Seq<u8>, w: WavView, chunk_ms: u32, overlap_ms: u32, i: int)
    requires
        splittable(b, chunk_ms, overlap_ms),
        parsed(b) == Ok::<WavView, WavError>(w),
        w.block_align != 0,
        0 < (w.sample_rate * chunk_ms / 1000) * w.block_align < w.data.len(),
    ensures
        ({
            let step = (w.sample_rate * chunk_ms / 1000) * w.block_align;
            let by = step - (w.sample_rate * overlap_ms / 1000) * w.block_align;
            chunks_of(b, chunk_ms, overlap_ms) matches Ok(list) && {
                &&& list.len() > 0
                &&& (list.len() - 1) * by < w.data.len() <= (list.len() - 1) * by + step
                &&& list.len() > 1 ==> (list.len() - 2) * by + step < w.data.len()
                &&& 0 <= i < list.len() ==> list[i] == wav_bytes(
                    w.channels,
                    w.bits_per_sample,
                    w.sample_rate,
                    w.data.subrange(
                        i * by,
                        if i * by + step < w.data.len() {
                            i * by + step
                        } else {
                            w.data.len() as int
                        },
                    ),
                )
            }
        }),
{
    let step = span_bytes(w, chunk_ms);
    let overlap = span_bytes(w, overlap_ms);
    assert(overlap >= 0) by (nonlinear_arith)
        requires
            overlap == (w.sample_rate * overlap_ms / 1000) * w.block_align,
            w.sample_rate >= 0,
            overlap_ms >= 0,
            w.block_align >= 0,
    ;
    assert(is_cut(w, chunk_ms));
    lemma_piece_places(w.data, 0, step, overlap);
    let list = pieces(w.data, 0, step, overlap);
    if 0 <= i < list.len() {
        assert(list[i].len() >= 0);
    }
}

/// Audio that fits in one chunk stays as it is.
pub proof fn law_short_audio_stays_whole(b: Seq<u8>, w: WavView, chunk_ms: u32, overlap_ms: u32)
    requires
        parsed(b) == Ok::<WavView, WavError>(w),
        w.block_align != 0,
        w.data.len() <= (w.sample_rate * chunk_ms / 1000) * w.block_align || w.sample_rate
            * chunk_ms < 1000,
    ensures
        chunks_of(b, chunk_ms, overlap_ms) == Ok::<Seq<Seq<u8>>, WavError>(seq![b]),
{
    if w.sample_rate * chunk_ms < 1000 {
        assert(w.sample_rate * chunk_ms >= 0) by (nonlinear_arith)
            requires
                w.sample_rate >= 0,
                chunk_ms >= 0,
        ;
        assert(0 * w.block_align == 0);
    }
}

/// Audio whose header names its frames rightly can be split wherever a chunk is
/// longer than its overlap by a frame and fits a buffer.
pub proof fn law_ordinary_audio_can_be_split(
    b: Seq<u8>,
    w: WavView,
    chunk_ms: u32,
    overlap_ms: u32,
)
    requires
        parsed(b) == Ok::<WavView, WavError>(w),
        w.channels * w.bits_per_sample <= u16::MAX,
        w.block_align == w.channels * w.bits_per_sample / 8,
        w.sample_rate * w.block_align <= u32::MAX,
        w.sample_rate * overlap_ms + 1000 <= w.sample_rate * chunk_ms,
        (w.sample_rate * chunk_ms / 1000) * w.block_align <= u32::MAX - 36,
    ensures
        splittable(b, chunk_ms, overlap_ms),
{
    if w.block_align != 0 {
        let (x, y) = (w.sample_rate * overlap_ms / 1000, w.sample_rate * chunk_ms / 1000);
        assert(x < y);
        assert(x * w.block_align < y * w.block_align) by (nonlinear_arith)
            requires
                x < y,
                w.block_align > 0,
        ;
    }
}

/// Audio and lists of buffers are seen as they are.
pub proof fn law_buffers_are_seen_whole(w: Wav, list: Seq<Vec<u8>>, i: int)
    ensures
        w@.channels == w.channels,
        w@.bits_per_sample == w.bits_per_sample,
        w@.sample_rate == w.sample_rate,
        w@.byte_rate == w.byte_rate,
        w@.block_align == w.block_align,
        w@.data == w.data@,
        byte_views(list).len() == list.len(),
        0 <= i < list.len() ==> byte_views(list)[i] == list[i]@,
{
}

/// A header holds its numbers wherever they fit the fields that the format has
/// for them.
pub proof fn law_a_header_holds_what_fits(
    channels: u16,
    bits_per_sample: u16,
    sample_rate: u32,
    len: nat,
)
    requires
        len <= u32::MAX - 36,
    ensures
        header_fits(channels, bits_per_sample, sample_rate, len) <==> channels * bits_per_sample
            <= u16::MAX && sample_rate * (channels * bits_per_sample / 8) <= u32::MAX,
{
}

/// What the user is told of audio that is not supported names the number that it
/// has for its encoding or its bit depth.
pub proof fn law_unsupported_numbers_are_told(n: u16)
    ensures
        WavError::UnsupportedEncoding(n).text() == "unsupported WAV encoding (audio_format="@
            + decimal_digits(n as nat) + "); convert with ffmpeg: ffmpeg -i in.wav out.wav"@,
        WavError::UnsupportedBitDepth(n).text() == "unsupported bit depth "@ + decimal_digits(
            n as nat,
        ) + "; convert with ffmpeg"@,
        digits_value(decimal_digits(n as nat)) == n,
{
    law_digits_spell_the_number(n as nat);
}

} // verus!
