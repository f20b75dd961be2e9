//! Parsing 16-bit PCM WAV (RIFF) data held in memory.
use vstd::prelude::*;

use crate::audio::{downmix_i16, downmixed, le_samples, lemma_downmix_sums_fit, pcm_from_le_bytes};

verus! {

/// Why WAV data was refused.
#[derive(Debug, Clone, Copy, PartialEq, Eq, Structural)]
pub enum WavError {
    /// Shorter than a WAV header, or not starting with `RIFF`.
    NotWav,
    /// No `fmt ` chunk.
    NoFmtChunk,
    /// The audio format is not PCM (1); the format found.
    UnsupportedFormat(u16),
    /// The samples are not 16-bit; the bits per sample found.
    NotSixteenBit(u16),
    /// No `data` chunk.
    NoDataChunk,
}

/// The little-endian 16-bit number at `at`.
pub open spec fn le_u16(data: Seq<u8>, at: int) -> int {
    data[at] as int + 256 * data[at + 1] as int
}

/// The little-endian 32-bit number at `at`.
pub open spec fn le_u32(data: Seq<u8>, at: int) -> int {
    data[at] as int + 256 * data[at + 1] as int + 65536 * data[at + 2] as int + 16777216 * data[at + 3] as int
}

/// Walking the chunk headers from `pos` (an 8-byte header: 4-byte id, 4-byte
/// little-endian size, then the body padded to even length), the offset of
/// the body of the first chunk with id `id`.
pub open spec fn chunk_from(data: Seq<u8>, pos: int, id: Seq<u8>) -> Option<int>
    decreases data.len() - pos,
{
    if pos < 0 || pos + 8 > data.len() {
        None
    } else if data.subrange(pos, pos + 4) == id {
        Some(pos + 8)
    } else {
        let size = le_u32(data, pos + 4);
        let next = pos + 8 + size + size % 2;
        if next > data.len() { None } else { chunk_from(data, next, id) }
    }
}

proof fn lemma_chunk_after(data: Seq<u8>, pos: int, id: Seq<u8>)
    ensures
        chunk_from(data, pos, id) matches Some(p) ==> p >= pos + 8,
    decreases data.len() - pos,
{
    if pos >= 0 && pos + 8 <= data.len() && data.subrange(pos, pos + 4) != id {
        let size = le_u32(data, pos + 4);
        let next = pos + 8 + size + size % 2;
        if next <= data.len() {
            lemma_chunk_after(data, next, id);
        }
    }
}

/// The body offset of the first chunk with id `id` after the RIFF header.
pub open spec fn find_chunk(data: Seq<u8>, id: Seq<u8>) -> Option<int> {
    chunk_from(data, 12, id)
}

pub open spec fn riff_id() -> Seq<u8> { seq![0x52u8, 0x49u8, 0x46u8, 0x46u8] }
pub open spec fn fmt_id() -> Seq<u8> { seq![0x66u8, 0x6du8, 0x74u8, 0x20u8] }
pub open spec fn data_id() -> Seq<u8> { seq![0x64u8, 0x61u8, 0x74u8, 0x61u8] }

/// The fields of the `fmt ` chunk that parsing reads lie inside `data`, and
/// so does the `data` chunk's body: format at the start of `fmt `; channels,
/// rate and bits per sample when the format is PCM; the whole `data` body
/// when the samples are 16-bit.
pub open spec fn wav_fields_in_bounds(data: Seq<u8>) -> bool {
    data.len() >= 44 && data.subrange(0, 4) == riff_id() ==> match find_chunk(data, fmt_id()) {
        None => true,
        Some(fmt) => {
            &&& fmt + 2 <= data.len()
            &&& le_u16(data, fmt) == 1 ==> {
                &&& fmt + 16 <= data.len()
                &&& le_u16(data, fmt + 14) == 16 ==> match find_chunk(data, data_id()) {
                    None => true,
                    Some(start) => start + le_u32(data, start - 4) <= data.len(),
                }
            }
        },
    }
}

/// What 16-bit PCM WAV data holds: its samples (averaged to mono when there
/// are two or more channels) and its sample rate, or why it was refused.
pub open spec fn wav_contents(data: Seq<u8>) -> Result<(Seq<i16>, u32), WavError> {
    if data.len() < 44 || data.subrange(0, 4) != riff_id() {
        Err(WavError::NotWav)
    } else {
        match find_chunk(data, fmt_id()) {
            None => Err(WavError::NoFmtChunk),
            Some(fmt) => {
                let format = le_u16(data, fmt);
                let channels = le_u16(data, fmt + 2);
                let rate = le_u32(data, fmt + 4);
                let bits = le_u16(data, fmt + 14);
                if format != 1 {
                    Err(WavError::UnsupportedFormat(format as u16))
                } else if bits != 16 {
                    Err(WavError::NotSixteenBit(bits as u16))
                } else {
                    match find_chunk(data, data_id()) {
                        None => Err(WavError::NoDataChunk),
                        Some(start) => {
                            let raw = data.subrange(start, start + le_u32(data, start - 4));
                            let samples = le_samples(raw);
                            if channels >= 2 {
                                Ok((downmixed(samples, channels as nat), rate as u32))
                            } else {
                                Ok((samples, rate as u32))
                            }
                        },
                    }
                }
            },
        }
    }
}

fn read_u16_le(data: &[u8], at: usize) -> (v: u16)
    requires
        at + 2 <= data@.len(),
    ensures
        v == le_u16(data@, at as int),
{
    let lo = data[at] as u16;
    let hi = data[at + 1] as u16;
    let v: u16 = lo | (hi << 8);
    assert(v == lo + 256 * hi) by (bit_vector)
        requires
            lo < 256,
            hi < 256,
            v == lo | (hi << 8),
    ;
    v
}

fn read_u32_le(data: &[u8], at: usize) -> (v: u32)
    requires
        at + 4 <= data@.len(),
    ensures
        v == le_u32(data@, at as int),
{
    let b0 = data[at] as u32;
    let b1 = data[at + 1] as u32;
    let b2 = data[at + 2] as u32;
    let b3 = data[at + 3] as u32;
    let v: u32 = b0 | (b1 << 8) | (b2 << 16) | (b3 << 24);
    assert(v == b0 + 256 * b1 + 65536 * b2 + 16777216 * b3) by (bit_vector)
        requires
            b0 < 256,
            b1 < 256,
            b2 < 256,
            b3 < 256,
            v == b0 | (b1 << 8) | (b2 << 16) | (b3 << 24),
    ;
    v
}

fn id_at(data: &[u8], pos: usize, id: &[u8; 4]) -> (same: bool)
    requires
        pos + 4 <= data@.len(),
    ensures
        same == (data@.subrange(pos as int, pos + 4) == id@),
{
    let same = data[pos] == id[0] && data[pos + 1] == id[1] && data[pos + 2] == id[2] && data[pos + 3] == id[3];
    if same {
        assert(data@.subrange(pos as int, pos + 4) =~= id@);
    } else {
        assert(data@.subrange(pos as int, pos + 4) != id@) by {
            if data@.subrange(pos as int, pos + 4) == id@ {
                assert(data@.subrange(pos as int, pos + 4)[0] == id@[0]);
                assert(data@.subrange(pos as int, pos + 4)[1] == id@[1]);
                assert(data@.subrange(pos as int, pos + 4)[2] == id@[2]);
                assert(data@.subrange(pos as int, pos + 4)[3] == id@[3]);
            }
        }
    }
    same
}

/// The body offset of the first chunk with id `id`, walking the chunks
/// after the 12-byte RIFF header (see [`find_chunk`]).
pub fn locate_chunk(data: &[u8], id: &[u8; 4]) -> (found: Option<usize>)
    ensures
        found matches Some(p) ==> find_chunk(data@, id@) == Some(p as int),
        found is None ==> find_chunk(data@, id@) is None,
{
    let len = data.len();
    let mut pos: usize = 12;
    while pos <= len && len - pos >= 8
        invariant
            len == data@.len(),
            find_chunk(data@, id@) == chunk_from(data@, pos as int, id@),
        decreases len - pos,
    {
        if id_at(data, pos, id) {
            return Some(pos + 8);
        }
        let size = read_u32_le(data, pos + 4) as u64;
        assert(size & 1 == size % 2) by (bit_vector);
        assert(size < 0x1_0000_0000u64);
        let step: u64 = size + (size & 1);
        let room: u64 = (len - pos - 8) as u64;
        if step > room {
            return None;
        }
        pos = pos + 8 + step as usize;
    }
    None
}

/// Read 16-bit PCM WAV data: the samples (averaged to mono when there are
/// two or more channels) and the sample rate.
pub fn parse_wav_i16(data: &[u8]) -> (result: Result<(Vec<i16>, u32), WavError>)
    requires
        wav_fields_in_bounds(data@),
    ensures
        match (result, wav_contents(data@)) {
            (Ok((samples, rate)), Ok((want, want_rate))) => samples@ == want && rate == want_rate,
            (Err(e), Err(want)) => e == want,
            _ => false,
        },
{
    let len = data.len();
    if len < 44 || !id_at(data, 0, &[0x52u8, 0x49u8, 0x46u8, 0x46u8]) {
        return Err(WavError::NotWav);
    }
    let fmt = match locate_chunk(data, &[0x66u8, 0x6du8, 0x74u8, 0x20u8]) {
        Some(p) => p,
        None => return Err(WavError::NoFmtChunk),
    };
    let audio_format = read_u16_le(data, fmt);
    if audio_format != 1 {
        return Err(WavError::UnsupportedFormat(audio_format));
    }
    let channels = read_u16_le(data, fmt + 2);
    let sample_rate = read_u32_le(data, fmt + 4);
    let bits_per_sample = read_u16_le(data, fmt + 14);
    if bits_per_sample != 16 {
        return Err(WavError::NotSixteenBit(bits_per_sample));
    }
    let start = match locate_chunk(data, &[0x64u8, 0x61u8, 0x74u8, 0x61u8]) {
        Some(p) => p,
        None => return Err(WavError::NoDataChunk),
    };
    proof {
        lemma_chunk_after(data@, 12, data_id());
    }
    let data_size = read_u32_le(data, start - 4) as usize;
    let raw = vstd::slice::slice_subrange(data, start, start + data_size);
    let samples = pcm_from_le_bytes(raw);
    if channels >= 2 {
        proof {
            lemma_downmix_sums_fit(samples@, channels as nat);
        }
        let mono = downmix_i16(samples.as_slice(), channels as usize);
        Ok((mono, sample_rate))
    } else {
        Ok((samples, sample_rate))
    }
}

/// Whether the fields that parsing reads lie inside `data`: the check a
/// caller makes before [`parse_wav_i16`], which needs it.
pub fn wav_fields_fit(data: &[u8]) -> (fit: bool)
    ensures
        fit == wav_fields_in_bounds(data@),
{
    let len = data.len();
    if len < 44 || !id_at(data, 0, &[0x52u8, 0x49u8, 0x46u8, 0x46u8]) {
        return true;
    }
    let fmt = match locate_chunk(data, &[0x66u8, 0x6du8, 0x74u8, 0x20u8]) {
        Some(p) => p,
        None => return true,
    };
    if fmt > len || len - fmt < 2 {
        return false;
    }
    if read_u16_le(data, fmt) != 1 {
        return true;
    }
    if len - fmt < 16 {
        return false;
    }
    if read_u16_le(data, fmt + 14) != 16 {
        return true;
    }
    match locate_chunk(data, &[0x64u8, 0x61u8, 0x74u8, 0x61u8]) {
        None => true,
        Some(start) => {
            proof {
                lemma_chunk_after(data@, 12, data_id());
            }
            if start > len {
                return false;
            }
            let size = read_u32_le(data, start - 4) as usize;
            size <= len - start
        },
    }
}

// ----------------------------------------------------------------------
// Where a chunk sits does not matter
// ----------------------------------------------------------------------

/// `c` is a whole RIFF chunk whose id is not `id`: an 8-byte header (id and
/// little-endian body size) and a body padded to even length.
pub open spec fn other_chunk(c: Seq<u8>, id: Seq<u8>) -> bool {
    &&& c.len() >= 8
    &&& c.len() == 8 + le_u32(c, 4) + le_u32(c, 4) % 2
    &&& c.subrange(0, 4) != id
}

/// `data` with `c` inserted at byte `pos`.
pub open spec fn insert_bytes(data: Seq<u8>, pos: int, c: Seq<u8>) -> Seq<u8> {
    data.take(pos) + c + data.skip(pos)
}

/// An offset moved forward by `by`.
pub open spec fn shifted(found: Option<int>, by: int) -> Option<int> {
    match found {
        Some(p) => Some(p + by),
        None => None,
    }
}

proof fn lemma_insert_index(data: Seq<u8>, pos: int, c: Seq<u8>, i: int)
    requires
        0 <= pos <= i < data.len(),
    ensures
        insert_bytes(data, pos, c)[i + c.len()] == data[i],
        insert_bytes(data, pos, c).len() == data.len() + c.len(),
{
}

proof fn lemma_walk_after_insert(data: Seq<u8>, pos: int, c: Seq<u8>, id: Seq<u8>, q: int)
    requires
        0 <= pos <= q,
        pos <= data.len(),
    ensures
        chunk_from(insert_bytes(data, pos, c), q + c.len(), id) == shifted(chunk_from(data, q, id), c.len() as int),
    decreases data.len() - q,
{
    let d2 = insert_bytes(data, pos, c);
    let l = c.len() as int;
    assert(d2.len() == data.len() + l);
    if q + 8 <= data.len() {
        lemma_insert_index(data, pos, c, q);
        lemma_insert_index(data, pos, c, q + 1);
        lemma_insert_index(data, pos, c, q + 2);
        lemma_insert_index(data, pos, c, q + 3);
        lemma_insert_index(data, pos, c, q + 4);
        lemma_insert_index(data, pos, c, q + 5);
        lemma_insert_index(data, pos, c, q + 6);
        lemma_insert_index(data, pos, c, q + 7);
        assert(d2.subrange(q + l, q + l + 4) =~= data.subrange(q, q + 4));
        assert(le_u32(d2, q + l + 4) == le_u32(data, q + 4));
        if data.subrange(q, q + 4) != id {
            let size = le_u32(data, q + 4);
            let next = q + 8 + size + size % 2;
            if next <= data.len() {
                lemma_walk_after_insert(data, pos, c, id, next);
            }
        }
    }
}

/// Inserting a whole chunk with another id into the chunk walk at `pos`
/// moves the chunk found from `pos` on by exactly the inserted chunk's
/// length: the walk steps over the new chunk and finds the same chunk after
/// it.
pub proof fn lemma_chunk_insert_shifts(data: Seq<u8>, pos: int, c: Seq<u8>, id: Seq<u8>)
    requires
        0 <= pos <= data.len(),
        other_chunk(c, id),
    ensures
        chunk_from(insert_bytes(data, pos, c), pos, id) == shifted(chunk_from(data, pos, id), c.len() as int),
{
    let d2 = insert_bytes(data, pos, c);
    assert(d2.subrange(pos, pos + c.len()) =~= c);
    assert(d2.subrange(pos, pos + 4) =~= c.subrange(0, 4));
    assert(le_u32(d2, pos + 4) == le_u32(c, 4)) by {
        assert(d2[pos + 4] == c[4] && d2[pos + 5] == c[5] && d2[pos + 6] == c[6] && d2[pos + 7] == c[7]);
    }
    lemma_walk_after_insert(data, pos, c, id, pos);
}

/// A chunk inserted right after the RIFF header moves every chunk lookup by
/// its length, wherever the sought chunk stands in the chain behind it.
pub proof fn lemma_find_chunk_after_insert(data: Seq<u8>, c: Seq<u8>, id: Seq<u8>)
    requires
        data.len() >= 12,
        other_chunk(c, id),
    ensures
        find_chunk(insert_bytes(data, 12, c), id) == shifted(find_chunk(data, id), c.len() as int),
{
    lemma_chunk_insert_shifts(data, 12, c, id);
}

proof fn lemma_insert_le16(data: Seq<u8>, pos: int, c: Seq<u8>, at: int)
    requires
        0 <= pos <= at,
        at + 2 <= data.len(),
    ensures
        le_u16(insert_bytes(data, pos, c), at + c.len()) == le_u16(data, at),
{
    lemma_insert_index(data, pos, c, at);
    lemma_insert_index(data, pos, c, at + 1);
}

proof fn lemma_insert_le32(data: Seq<u8>, pos: int, c: Seq<u8>, at: int)
    requires
        0 <= pos <= at,
        at + 4 <= data.len(),
    ensures
        le_u32(insert_bytes(data, pos, c), at + c.len()) == le_u32(data, at),
{
    lemma_insert_index(data, pos, c, at);
    lemma_insert_index(data, pos, c, at + 1);
    lemma_insert_index(data, pos, c, at + 2);
    lemma_insert_index(data, pos, c, at + 3);
}

/// A WAV file with an extra chunk (such as `LIST`) between the RIFF header
/// and its `fmt ` chunk parses to the same samples and rate, or the same
/// error, as without it; and what parsing reads stays inside the data.
pub proof fn lemma_wav_ignores_other_chunks(data: Seq<u8>, c: Seq<u8>)
    requires
        data.len() >= 44,
        data.subrange(0, 4) == riff_id(),
        wav_fields_in_bounds(data),
        other_chunk(c, fmt_id()),
        other_chunk(c, data_id()),
    ensures
        wav_contents(insert_bytes(data, 12, c)) == wav_contents(data),
        wav_fields_in_bounds(insert_bytes(data, 12, c)),
{
    let d2 = insert_bytes(data, 12, c);
    let l = c.len() as int;
    assert(d2.len() == data.len() + l);
    assert(d2.subrange(0, 4) =~= data.subrange(0, 4));
    lemma_find_chunk_after_insert(data, c, fmt_id());
    lemma_find_chunk_after_insert(data, c, data_id());
    lemma_chunk_after(data, 12, fmt_id());
    lemma_chunk_after(data, 12, data_id());
    if let Some(fmt) = find_chunk(data, fmt_id()) {
        lemma_insert_le16(data, 12, c, fmt);
        if le_u16(data, fmt) == 1 {
            lemma_insert_le16(data, 12, c, fmt + 2);
            lemma_insert_le32(data, 12, c, fmt + 4);
            lemma_insert_le16(data, 12, c, fmt + 14);
            if le_u16(data, fmt + 14) == 16 {
                if let Some(start) = find_chunk(data, data_id()) {
                    lemma_insert_le32(data, 12, c, start - 4);
                    let size = le_u32(data, start - 4);
                    assert(d2.subrange(start + l, start + l + size) =~= data.subrange(start, start + size));
                }
            }
        }
    }
}

// ----------------------------------------------------------------------
// Writing a WAV and reading it back
// ----------------------------------------------------------------------

/// Byte `k` (0 = least significant) of the little-endian form of `x`.
pub open spec fn le_byte(x: int, k: nat) -> u8 {
    ((x / vstd::arithmetic::power::pow(256, k)) % 256) as u8
}

/// The 44-byte header of a canonical mono 16-bit PCM WAV holding
/// `data_len` bytes of samples at `rate` Hz: `RIFF`, `WAVE`, a 16-byte
/// `fmt ` chunk (PCM, one channel, the rate, the byte rate, block align 2,
/// 16 bits) and the `data` chunk header.
pub open spec fn mono_wav_header(data_len: int, rate: u32) -> Seq<u8> {
    let riff = 36 + data_len;
    let byte_rate = 2 * rate;
    seq![
        0x52u8, 0x49u8, 0x46u8, 0x46u8,
        le_byte(riff, 0), le_byte(riff, 1), le_byte(riff, 2), le_byte(riff, 3),
        0x57u8, 0x41u8, 0x56u8, 0x45u8,
        0x66u8, 0x6du8, 0x74u8, 0x20u8,
        16u8, 0u8, 0u8, 0u8,
        1u8, 0u8,
        1u8, 0u8,
        le_byte(rate as int, 0), le_byte(rate as int, 1), le_byte(rate as int, 2), le_byte(rate as int, 3),
        le_byte(byte_rate, 0), le_byte(byte_rate, 1), le_byte(byte_rate, 2), le_byte(byte_rate, 3),
        2u8, 0u8,
        16u8, 0u8,
        0x64u8, 0x61u8, 0x74u8, 0x61u8,
        le_byte(data_len, 0), le_byte(data_len, 1), le_byte(data_len, 2), le_byte(data_len, 3),
    ]
}

/// 16-bit samples as little-endian byte pairs (two's complement).
pub open spec fn sample_bytes(samples: Seq<i16>) -> Seq<u8> {
    Seq::new(2 * samples.len(), |k: int| le_byte((samples[k / 2] as u16) as int, (k % 2) as nat))
}

/// A canonical mono 16-bit PCM WAV of `samples` at `rate` Hz.
pub open spec fn mono_wav(samples: Seq<i16>, rate: u32) -> Seq<u8> {
    mono_wav_header(2 * samples.len() as int, rate) + sample_bytes(samples)
}

proof fn lemma_le_bytes_u32(x: u32)
    ensures
        le_byte(x as int, 0) as int + 256 * le_byte(x as int, 1) as int + 65536 * le_byte(x as int, 2) as int
            + 16777216 * le_byte(x as int, 3) as int == x,
{
    vstd::arithmetic::power::lemma_pow0(256);
    vstd::arithmetic::power::lemma_pow1(256);
    assert(vstd::arithmetic::power::pow(256, 2) == 65536) by {
        vstd::arithmetic::power::lemma_pow_adds(256, 1, 1);
    }
    assert(vstd::arithmetic::power::pow(256, 3) == 16777216) by {
        vstd::arithmetic::power::lemma_pow_adds(256, 2, 1);
    }
    assert(x % 256 + 256 * ((x / 256) % 256) + 65536 * ((x / 65536) % 256) + 16777216 * ((x / 16777216) % 256) == x)
        by (bit_vector);
}

proof fn lemma_le_bytes_i16(x: i16)
    ensures
        ((le_byte((x as u16) as int, 0) as int + 256 * le_byte((x as u16) as int, 1) as int) as i16) == x,
{
    vstd::arithmetic::power::lemma_pow0(256);
    vstd::arithmetic::power::lemma_pow1(256);
    let u = x as u16;
    assert(((u % 256 + 256 * ((u / 256) % 256)) as i16) == x) by (bit_vector)
        requires
            u == x as u16,
    ;
}

/// Reading a canonical mono WAV gives back the samples and rate it was
/// written with, and parsing reads nothing outside it.
pub proof fn lemma_mono_wav_round_trip(samples: Seq<i16>, rate: u32)
    requires
        36 + 2 * samples.len() <= u32::MAX,
    ensures
        wav_contents(mono_wav(samples, rate)) == Ok::<(Seq<i16>, u32), WavError>((samples, rate)),
        wav_fields_in_bounds(mono_wav(samples, rate)),
{
    let n: int = 2 * samples.len() as int;
    let h = mono_wav_header(n, rate);
    let d = mono_wav(samples, rate);
    assert(h.len() == 44);
    assert(d.len() == 44 + n);
    assert forall|k: int| 0 <= k < 44 implies #[trigger] d[k] == h[k] by {}
    assert(d.subrange(0, 4) =~= riff_id());
    assert(d.subrange(12, 16) =~= fmt_id());
    assert(d.subrange(36, 40) =~= data_id());
    lemma_le_bytes_u32(16u32);
    lemma_le_bytes_u32(rate);
    lemma_le_bytes_u32(n as u32);
    assert(le_u32(d, 16) == 16);
    assert(le_u16(d, 20) == 1);
    assert(le_u16(d, 22) == 1);
    assert(le_u32(d, 24) == rate);
    assert(le_u16(d, 34) == 16);
    assert(le_u32(d, 40) == n);
    assert(find_chunk(d, fmt_id()) == Some(20int));
    assert(d.subrange(12, 16) != data_id());
    assert(chunk_from(d, 36, data_id()) == Some(44int));
    assert(find_chunk(d, data_id()) == Some(44int));
    let raw = d.subrange(44, 44 + n);
    assert(raw =~= sample_bytes(samples));
    assert forall|i: int| 0 <= i < samples.len() implies #[trigger] le_samples(raw)[i] == samples[i] by {
        lemma_le_bytes_i16(samples[i]);
        assert((2 * i) / 2 == i && (2 * i) % 2 == 0);
        assert((2 * i + 1) / 2 == i && (2 * i + 1) % 2 == 1);
        assert(raw[2 * i] == le_byte((samples[i] as u16) as int, 0));
        assert(raw[2 * i + 1] == le_byte((samples[i] as u16) as int, 1));
    }
    assert(le_samples(raw) =~= samples);
}

} // verus!
