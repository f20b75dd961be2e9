use vstd::prelude::*;
use vstd::arithmetic::div_mod::{lemma_fundamental_div_mod, lemma_fundamental_div_mod_converse};

verus! {

/// The magnitude step of a μ-law code: bits 4..6 of the complemented byte.
pub open spec fn mulaw_exponent(code: u8) -> int {
    ((255 - code) % 128) / 16
}

/// The mantissa of a μ-law code: the low four bits of the complemented byte.
pub open spec fn mulaw_mantissa(code: u8) -> int {
    (255 - code) % 16
}

/// The linear magnitude of a μ-law code: `(2m + 33) * 2^e - 33`.
pub open spec fn mulaw_magnitude(code: u8) -> int {
    (2 * mulaw_mantissa(code) + 33) * vstd::arithmetic::power2::pow2(mulaw_exponent(code) as nat) - 33
}

/// G.711 μ-law decoding: the complemented byte's top bit is the sign
/// (set means negative).
pub open spec fn mulaw_value(code: u8) -> int {
    if 255 - code >= 128 { -mulaw_magnitude(code) } else { mulaw_magnitude(code) }
}

/// Decode a G.711 μ-law byte to 16-bit linear PCM.
pub fn mulaw_decode(mulaw: u8) -> (pcm: i16)
    ensures
        pcm == mulaw_value(mulaw),
{
    let data: u32 = (!mulaw) as u32;
    let negative: bool = data & 0x80 != 0;
    let low: u32 = data & 0x7F;
    proof {
        assert(data == 255 - mulaw && low == (255 - mulaw) % 128 && (low >> 4) == low / 16
            && (low & 0x0F) == (255 - mulaw) % 16 && (negative <==> 255 - mulaw >= 128)
            && low >> 4 <= 7 && low & 0x0F <= 15) by (bit_vector)
            requires
                data == (!mulaw) as u32,
                low == data & 0x7F,
                negative == (data & 0x80 != 0),
        ;
    }
    let exponent: u32 = (low >> 4) + 5;
    let mantissa: u32 = low & 0x0F;
    let bits: u32 = (1u32 << exponent) | (mantissa << (exponent - 4)) | (1u32 << (exponent - 5));
    proof {
        let e: u32 = low >> 4;
        let x: u32 = (2 * mantissa + 33) as u32;
        assert(bits == x << e) by (bit_vector)
            requires
                e <= 7,
                mantissa <= 15,
                exponent == e + 5,
                x == 2 * mantissa + 33,
                bits == (1u32 << exponent) | (mantissa << ((exponent - 4) as u32)) | (1u32 << ((exponent - 5) as u32)),
        ;
        vstd::arithmetic::power2::lemma2_to64();
        assert(vstd::arithmetic::power2::pow2(e as nat) <= 128);
        assert(x * vstd::arithmetic::power2::pow2(e as nat) <= 63 * 128) by (nonlinear_arith)
            requires
                x <= 63,
                vstd::arithmetic::power2::pow2(e as nat) <= 128,
        ;
        vstd::bits::lemma_u32_shl_is_mul(x, e);
        assert(x * vstd::arithmetic::power2::pow2(e as nat) >= 33) by (nonlinear_arith)
            requires
                x >= 33,
                vstd::arithmetic::power2::pow2(e as nat) >= 1,
        ;
    }
    let decoded: u32 = bits - 33;
    if negative { -(decoded as i32) as i16 } else { decoded as i16 }
}

/// Integer division that rounds toward zero, as Rust's `/` on signed
/// integers does (for a positive divisor).
pub open spec fn div_toward_zero(x: int, d: int) -> int {
    if x >= 0 { x / d } else { -((-x) / d) }
}

/// μ-law bytes at 8 kHz decoded and upsampled to 16 kHz: each decoded sample
/// is followed by the midpoint between it and the next one, and the last
/// sample stands alone, so `n` bytes give `2n - 1` samples.
pub open spec fn mulaw_upsampled(codes: Seq<u8>) -> Seq<i16> {
    if codes.len() == 0 {
        Seq::empty()
    } else {
        Seq::new(
            (2 * codes.len() - 1) as nat,
            |i: int|
                if i % 2 == 0 {
                    mulaw_value(codes[i / 2]) as i16
                } else {
                    div_toward_zero(mulaw_value(codes[i / 2]) + mulaw_value(codes[i / 2 + 1]), 2) as i16
                },
        )
    }
}

proof fn lemma_mulaw_range(code: u8)
    ensures
        -8031 <= mulaw_value(code) <= 8031,
{
    let e = mulaw_exponent(code);
    let m = mulaw_mantissa(code);
    vstd::arithmetic::power2::lemma2_to64();
    assert(0 <= e <= 7);
    assert(1 <= vstd::arithmetic::power2::pow2(e as nat) <= 128);
    assert(0 <= (2 * m + 33) * vstd::arithmetic::power2::pow2(e as nat) - 33 <= 8031) by (nonlinear_arith)
        requires
            0 <= m <= 15,
            1 <= vstd::arithmetic::power2::pow2(e as nat) <= 128,
    ;
}

/// Decode a buffer of μ-law bytes to 16-bit PCM, then upsample from 8 kHz to
/// 16 kHz by inserting the midpoint between neighbouring samples.
pub fn decode_mulaw_8k_to_16k(mulaw: &[u8]) -> (out: Vec<i16>)
    ensures
        out@ == mulaw_upsampled(mulaw@),
{
    let mut out: Vec<i16> = Vec::new();
    let n = mulaw.len();
    if n == 0 {
        assert(out@ =~= mulaw_upsampled(mulaw@));
        return out;
    }
    let mut prev: i16 = mulaw_decode(mulaw[0]);
    let mut i: usize = 1;
    while i < n
        invariant
            n == mulaw@.len(),
            1 <= i <= n,
            prev == mulaw_value(mulaw@[i - 1]),
            out@.len() == 2 * (i - 1),
            forall|k: int| 0 <= k < out@.len() ==> #[trigger] out@[k] == mulaw_upsampled(mulaw@)[k],
        decreases n - i,
    {
        let next: i16 = mulaw_decode(mulaw[i]);
        proof {
            lemma_mulaw_range(mulaw@[i - 1]);
            lemma_mulaw_range(mulaw@[i as int]);
        }
        let sum: i32 = prev as i32 + next as i32;
        let mid: i32 = if sum >= 0 { sum / 2 } else { -((-sum) / 2) };
        out.push(prev);
        out.push(mid as i16);
        proof {
            let k0 = 2 * (i - 1);
            assert(k0 % 2 == 0 && k0 / 2 == i - 1);
            assert((k0 + 1) % 2 == 1 && (k0 + 1) / 2 == i - 1);
            assert(out@[k0] == mulaw_upsampled(mulaw@)[k0]);
            assert(out@[k0 + 1] == mulaw_upsampled(mulaw@)[k0 + 1]);
        }
        prev = next;
        i = i + 1;
    }
    out.push(prev);
    proof {
        let k0 = 2 * (n - 1);
        assert(k0 % 2 == 0 && k0 / 2 == n - 1);
        assert(out@[k0] == mulaw_upsampled(mulaw@)[k0]);
    }
    assert(out@ =~= mulaw_upsampled(mulaw@));
    out
}

/// Little-endian 16-bit samples read from consecutive byte pairs; a trailing
/// odd byte is ignored.
pub open spec fn le_samples(bytes: Seq<u8>) -> Seq<i16> {
    Seq::new(bytes.len() / 2, |i: int| (bytes[2 * i] as int + 256 * (bytes[2 * i + 1] as int)) as i16)
}

/// Decode little-endian 16-bit PCM from raw bytes (pairs of bytes, a
/// trailing odd byte dropped).
pub fn pcm_from_le_bytes(bytes: &[u8]) -> (pcm: Vec<i16>)
    ensures
        pcm@ == le_samples(bytes@),
{
    let mut pcm: Vec<i16> = Vec::new();
    let len = bytes.len();
    let n = len / 2;
    let mut i: usize = 0;
    while i < n
        invariant
            len == bytes@.len(),
            n == len / 2,
            i <= n,
            pcm@ == le_samples(bytes@).subrange(0, i as int),
        decreases n - i,
    {
        assert(2 * i + 1 < bytes@.len());
        let lo: u16 = bytes[2 * i] as u16;
        let hi: u16 = bytes[2 * i + 1] as u16;
        let word: u16 = lo | (hi << 8);
        proof {
            assert(word == lo + 256 * hi) by (bit_vector)
                requires
                    lo < 256,
                    hi < 256,
                    word == lo | (hi << 8),
            ;
        }
        pcm.push(word as i16);
        proof {
            assert(le_samples(bytes@).subrange(0, i + 1) =~= le_samples(bytes@).subrange(0, i as int).push(word as i16));
        }
        i = i + 1;
    }
    assert(le_samples(bytes@).subrange(0, n as int) =~= le_samples(bytes@));
    pcm
}

/// The sum of a run of samples.
pub open spec fn sample_sum(s: Seq<i16>) -> int
    decreases s.len(),
{
    if s.len() == 0 { 0 } else { sample_sum(s.drop_last()) + s.last() }
}

/// Interleaved audio with `channels` channels averaged to mono: frame `f` is
/// the sum of its `channels` samples divided (toward zero) by `channels`; a
/// trailing partial frame is dropped. One channel, or none, passes through.
pub open spec fn downmixed(samples: Seq<i16>, channels: nat) -> Seq<i16> {
    if channels <= 1 {
        samples
    } else {
        Seq::new(
            samples.len() / channels,
            |f: int| div_toward_zero(sample_sum(samples.subrange(f * channels, f * channels + channels)), channels as int) as i16,
        )
    }
}

/// Every partial sum taken while averaging a frame fits in an `i32`, so the
/// `i32` accumulation of each frame does not overflow.
pub open spec fn downmix_sums_fit(samples: Seq<i16>, channels: nat) -> bool {
    channels > 1 ==> forall|f: int, k: int|
        0 <= f < samples.len() / channels && 0 <= k <= channels
            ==> i32::MIN <= #[trigger] sample_sum(samples.subrange(f * channels, f * channels + k)) <= i32::MAX
}

proof fn lemma_sample_sum_bounds(s: Seq<i16>)
    ensures
        -32768 * s.len() <= sample_sum(s) <= 32767 * s.len(),
    decreases s.len(),
{
    if s.len() > 0 {
        lemma_sample_sum_bounds(s.drop_last());
    }
}

proof fn lemma_sample_sum_push(s: Seq<i16>, x: i16)
    ensures
        sample_sum(s.push(x)) == sample_sum(s) + x,
{
    assert(s.push(x).drop_last() =~= s);
}

/// With at most 65536 channels no partial frame sum can leave the `i32`
/// range, whatever the samples.
pub proof fn lemma_downmix_sums_fit(samples: Seq<i16>, channels: nat)
    requires
        channels <= 65536,
    ensures
        downmix_sums_fit(samples, channels),
{
    if channels > 1 {
        assert forall|f: int, k: int|
            0 <= f < samples.len() / channels && 0 <= k <= channels
                implies i32::MIN <= #[trigger] sample_sum(samples.subrange(f * channels, f * channels + k)) <= i32::MAX by {
            lemma_frame_in_bounds(f, channels as int, samples.len() as int);
            let run = samples.subrange(f * channels, f * channels + k);
            lemma_sample_sum_bounds(run);
            assert(-32768 * run.len() >= -32768 * 65536 && 32767 * run.len() <= 32767 * 65536) by (nonlinear_arith)
                requires
                    run.len() <= 65536,
            ;
        }
    }
}

proof fn lemma_frame_in_bounds(f: int, c: int, len: int)
    requires
        c > 0,
        len >= 0,
        0 <= f < len / c,
    ensures
        0 <= f * c,
        f * c + c <= len,
{
    lemma_fundamental_div_mod(len, c);
    assert(f * c + c <= len) by (nonlinear_arith)
        requires
            len == c * (len / c) + len % c,
            len % c >= 0,
            f + 1 <= len / c,
            c > 0,
    ;
    assert(0 <= f * c) by (nonlinear_arith)
        requires
            f >= 0,
            c > 0,
    ;
}

/// Downmix interleaved multi-channel 16-bit audio to mono by averaging each
/// frame.
pub fn downmix_i16(samples: &[i16], channels: usize) -> (mono: Vec<i16>)
    requires
        samples@.len() < channels || channels <= i32::MAX,
        downmix_sums_fit(samples@, channels as nat),
    ensures
        mono@ == downmixed(samples@, channels as nat),
{
    let mut out: Vec<i16> = Vec::new();
    if channels <= 1 {
        let mut i: usize = 0;
        while i < samples.len()
            invariant
                i <= samples@.len(),
                out@ == samples@.subrange(0, i as int),
            decreases samples@.len() - i,
        {
            out.push(samples[i]);
            proof {
                assert(samples@.subrange(0, i + 1) =~= samples@.subrange(0, i as int).push(samples@[i as int]));
            }
            i = i + 1;
        }
        assert(samples@.subrange(0, samples@.len() as int) =~= samples@);
        return out;
    }
    let len = samples.len();
    let frames = len / channels;
    let ghost c = channels as int;
    proof {
        if len < channels {
            vstd::arithmetic::div_mod::lemma_basic_div(len as int, c);
        }
    }
    let mut f: usize = 0;
    while f < frames
        invariant
            len == samples@.len(),
            c == channels,
            channels > 1,
            frames == len / channels,
            f <= frames,
            frames > 0 ==> channels <= i32::MAX,
            downmix_sums_fit(samples@, channels as nat),
            out@ == downmixed(samples@, channels as nat).subrange(0, f as int),
        decreases frames - f,
    {
        proof {
            lemma_frame_in_bounds(f as int, c, len as int);
        }
        let base: usize = f * channels;
        let mut sum: i32 = 0;
        let mut k: usize = 0;
        while k < channels
            invariant
                len == samples@.len(),
                c == channels,
                channels > 1,
                f < frames,
                frames == len / channels,
                base == f * c,
                base + c <= len,
                k <= channels,
                downmix_sums_fit(samples@, channels as nat),
                sum == sample_sum(samples@.subrange(base as int, base + k)),
            decreases channels - k,
        {
            let x = samples[base + k];
            proof {
                assert(samples@.subrange(base as int, base + k + 1) =~= samples@.subrange(base as int, base + k).push(x));
                lemma_sample_sum_push(samples@.subrange(base as int, base + k), x);
                assert(i32::MIN <= sample_sum(samples@.subrange(f * c, f * c + (k + 1))) <= i32::MAX);
            }
            sum = sum + x as i32;
            k = k + 1;
        }
        let wide: i64 = sum as i64;
        let avg: i64 = if wide >= 0 { wide / (channels as i64) } else { -((-wide) / (channels as i64)) };
        out.push(avg as i16);
        proof {
            assert(downmixed(samples@, channels as nat).subrange(0, f + 1)
                =~= downmixed(samples@, channels as nat).subrange(0, f as int).push(avg as i16));
        }
        f = f + 1;
    }
    assert(downmixed(samples@, channels as nat).subrange(0, frames as int) =~= downmixed(samples@, channels as nat));
    out
}

/// The samples that a ring of `capacity` slots holds after `history` was
/// pushed into it: the last `capacity` samples, or all of them while fewer
/// were pushed.
pub open spec fn ring_window(history: Seq<i16>, capacity: nat) -> Seq<i16> {
    if history.len() <= capacity {
        history
    } else {
        history.subrange(history.len() - capacity, history.len() as int)
    }
}

/// The abstract state of a [`PcmRing`]: its capacity and every sample pushed
/// into it so far, oldest first.
pub struct PcmRingView {
    pub capacity: nat,
    pub history: Seq<i16>,
}

/// A fixed-capacity ring of PCM samples that keeps the most recent ones.
pub struct PcmRing {
    buf: Vec<i16>,
    pos: usize,
    capacity: usize,
    history: Ghost<Seq<i16>>,
}

impl View for PcmRing {
    type V = PcmRingView;

    closed spec fn view(&self) -> PcmRingView {
        PcmRingView { capacity: self.capacity as nat, history: self.history@ }
    }
}

proof fn lemma_mod_distinct(a: int, b: int, n: int)
    requires
        n > 0,
        0 <= a < b < a + n,
    ensures
        a % n != b % n,
{
    lemma_fundamental_div_mod(a, n);
    lemma_fundamental_div_mod(b, n);
    if a % n == b % n {
        let d = b / n - a / n;
        assert(b - a == n * d) by (nonlinear_arith)
            requires
                a == n * (a / n) + a % n,
                b == n * (b / n) + b % n,
                a % n == b % n,
                d == b / n - a / n,
        ;
        assert(false) by (nonlinear_arith)
            requires
                b - a == n * d,
                0 < b - a < n,
                n > 0,
        ;
    }
}

/// Where the `j`-th oldest retained sample sits once the ring has wrapped.
proof fn lemma_wrapped_slot(pos: int, cap: int, j: int)
    requires
        cap > 0,
        pos >= cap,
        0 <= j < cap,
    ensures
        pos % cap + j < cap ==> (pos - cap + j) % cap == pos % cap + j,
        pos % cap + j >= cap ==> (pos - cap + j) % cap == pos % cap + j - cap,
{
    lemma_fundamental_div_mod(pos, cap);
    let q = pos / cap;
    let r = pos % cap;
    if r + j < cap {
        assert(pos - cap + j == (q - 1) * cap + (r + j)) by (nonlinear_arith)
            requires
                pos == cap * q + r,
        ;
        lemma_fundamental_div_mod_converse(pos - cap + j, cap, q - 1, r + j);
    } else {
        assert(pos - cap + j == q * cap + (r + j - cap)) by (nonlinear_arith)
            requires
                pos == cap * q + r,
        ;
        lemma_fundamental_div_mod_converse(pos - cap + j, cap, q, r + j - cap);
    }
}

impl PcmRing {
    /// The ring's internal consistency: slot `k % capacity` holds the `k`-th
    /// pushed sample for every sample still retained.
    pub closed spec fn wf(&self) -> bool {
        &&& self.buf@.len() == self.capacity
        &&& self.pos == self.history@.len()
        &&& self.capacity > 0 ==> forall|k: int|
            #![trigger self.history@[k]]
            self.pos - self.capacity <= k < self.pos && 0 <= k
                ==> self.buf@[k % (self.capacity as int)] == self.history@[k]
    }

    /// An empty ring with room for `capacity_samples` samples.
    pub fn new(capacity_samples: usize) -> (ring: Self)
        ensures
            ring.wf(),
            ring@.capacity == capacity_samples,
            ring@.history == Seq::<i16>::empty(),
    {
        let mut buf: Vec<i16> = Vec::new();
        while buf.len() < capacity_samples
            invariant
                buf.len() <= capacity_samples,
            decreases capacity_samples - buf.len(),
        {
            buf.push(0);
        }
        PcmRing { buf, pos: 0, capacity: capacity_samples, history: Ghost(Seq::empty()) }
    }

    /// Append `samples`, overwriting the oldest ones once the ring is full.
    pub fn push(&mut self, samples: &[i16])
        requires
            old(self).wf(),
            old(self)@.capacity > 0 || samples@.len() == 0,
            old(self)@.history.len() + samples@.len() <= usize::MAX,
        ensures
            final(self).wf(),
            final(self)@.capacity == old(self)@.capacity,
            final(self)@.history == old(self)@.history + samples@,
    {
        let ghost start = self.history@;
        let mut i: usize = 0;
        while i < samples.len()
            invariant
                self.wf(),
                self.capacity == old(self).capacity,
                0 <= i <= samples@.len(),
                self.history@ == start + samples@.subrange(0, i as int),
                start == old(self)@.history,
                old(self)@.capacity > 0 || samples@.len() == 0,
                start.len() + samples@.len() <= usize::MAX,
            decreases samples@.len() - i,
        {
            let s = samples[i];
            let slot = self.pos % self.capacity;
            let ghost old_hist = self.history@;
            let ghost old_pos = self.pos as int;
            let ghost cap = self.capacity as int;
            self.buf.set(slot, s);
            self.pos = self.pos + 1;
            self.history = Ghost(old_hist.push(s));
            proof {
                assert forall|k: int|
                    #![trigger self.history@[k]]
                    self.pos - cap <= k < self.pos && 0 <= k
                        implies self.buf@[k % cap] == self.history@[k] by {
                    if k < old_pos {
                        lemma_mod_distinct(k, old_pos, cap);
                        assert(old_hist[k] == self.history@[k]);
                    }
                }
                assert(samples@.subrange(0, i + 1) == samples@.subrange(0, i as int).push(s));
            }
            i = i + 1;
        }
        assert(samples@.subrange(0, samples@.len() as int) == samples@);
    }

    /// Whether at least `capacity` samples have been pushed.
    pub fn filled(&self) -> (full: bool)
        requires
            self.wf(),
        ensures
            full == (self@.history.len() >= self@.capacity),
    {
        self.pos >= self.capacity
    }

    /// The retained samples, oldest first.
    pub fn snapshot(&self) -> (out: Vec<i16>)
        requires
            self.wf(),
            self@.capacity > 0,
        ensures
            out@ == ring_window(self@.history, self@.capacity),
    {
        let mut out: Vec<i16> = Vec::new();
        if self.pos < self.capacity {
            let mut j: usize = 0;
            while j < self.pos
                invariant
                    self.wf(),
                    self.capacity > 0,
                    self.pos < self.capacity,
                    j <= self.pos,
                    out@ == self.history@.subrange(0, j as int),
                decreases self.pos - j,
            {
                proof {
                    assert(j as int % (self.capacity as int) == j as int) by (nonlinear_arith)
                        requires
                            0 <= j < self.capacity,
                    ;
                    assert(self.history@[j as int] == self.buf@[j as int]);
                }
                out.push(self.buf[j]);
                proof {
                    assert(self.history@.subrange(0, j + 1) == self.history@.subrange(0, j as int).push(self.history@[j as int]));
                }
                j = j + 1;
            }
            assert(self.history@.len() == self.pos);
            assert(out@ =~= self.history@);
            out
        } else {
            let start = self.pos % self.capacity;
            let ghost pos = self.pos as int;
            let ghost cap = self.capacity as int;
            let ghost base = pos - cap;
            let mut j: usize = start;
            while j < self.capacity
                invariant
                    self.wf(),
                    pos == self.pos,
                    cap == self.capacity,
                    cap > 0,
                    pos >= cap,
                    base == pos - cap,
                    start == pos % cap,
                    start <= j <= cap,
                    out@ == self.history@.subrange(base, base + (j - start)),
                decreases self.capacity - j,
            {
                proof {
                    lemma_wrapped_slot(pos, cap, j - start);
                    assert(self.history@[base + (j - start)] == self.buf@[j as int]);
                    assert(self.history@.subrange(base, base + (j - start) + 1)
                        == self.history@.subrange(base, base + (j - start)).push(self.history@[base + (j - start)]));
                }
                out.push(self.buf[j]);
                j = j + 1;
            }
            let mut j: usize = 0;
            while j < start
                invariant
                    self.wf(),
                    pos == self.pos,
                    cap == self.capacity,
                    cap > 0,
                    pos >= cap,
                    base == pos - cap,
                    start == pos % cap,
                    0 <= j <= start,
                    out@ == self.history@.subrange(base, base + (cap - start) + j),
                decreases start - j,
            {
                proof {
                    lemma_wrapped_slot(pos, cap, cap - start + j);
                    assert(self.history@[base + (cap - start) + j] == self.buf@[j as int]);
                    assert(self.history@.subrange(base, base + (cap - start) + j + 1)
                        == self.history@.subrange(base, base + (cap - start) + j).push(self.history@[base + (cap - start) + j]));
                }
                out.push(self.buf[j]);
                j = j + 1;
            }
            out
        }
    }
}

/// μ-law decoding is odd-symmetric: flipping the sign bit of a code negates
/// the sample.
pub proof fn lemma_mulaw_sign_symmetry(code: u8)
    ensures
        mulaw_value(code ^ 0x80u8) == -mulaw_value(code),
{
    assert(255 - (code ^ 0x80u8) == if 255 - code >= 128 { 255 - code - 128 } else { 255 - code + 128 }
        && ((255 - (code ^ 0x80u8)) % 128) == (255 - code) % 128
        && ((255 - (code ^ 0x80u8)) % 16) == (255 - code) % 16) by (bit_vector);
}

/// Every decoded μ-law sample lies within ±8031, and code `0xFF` is silence.
pub proof fn lemma_mulaw_range_and_silence(code: u8)
    ensures
        -8031 <= mulaw_value(code) <= 8031,
        mulaw_value(0xFFu8) == 0,
{
    lemma_mulaw_range(code);
    vstd::arithmetic::power2::lemma2_to64();
    assert(mulaw_exponent(0xFFu8) == 0);
    assert(mulaw_mantissa(0xFFu8) == 0);
    assert(mulaw_magnitude(0xFFu8) == 33 * vstd::arithmetic::power2::pow2(0) - 33);
}

/// The μ-law magnitude for the low seven bits `k` of a complemented code.
spec fn mulaw_level(k: int) -> int {
    (2 * (k % 16) + 33) * vstd::arithmetic::power2::pow2((k / 16) as nat) - 33
}

proof fn lemma_level_step(k: int)
    requires
        0 <= k < 127,
    ensures
        mulaw_level(k) < mulaw_level(k + 1),
{
    let e = k / 16;
    let m = k % 16;
    let p = vstd::arithmetic::power2::pow2(e as nat);
    vstd::arithmetic::power2::lemma_pow2_pos(e as nat);
    if m < 15 {
        assert((k + 1) / 16 == e && (k + 1) % 16 == m + 1);
        assert((2 * m + 33) * p < (2 * (m + 1) + 33) * p) by (nonlinear_arith)
            requires
                p > 0,
        ;
    } else {
        assert((k + 1) / 16 == e + 1 && (k + 1) % 16 == 0);
        vstd::arithmetic::power2::lemma_pow2_unfold((e + 1) as nat);
        assert(vstd::arithmetic::power2::pow2((e + 1) as nat) == 2 * p);
        assert((2 * 15 + 33) * p < 33 * (2 * p)) by (nonlinear_arith)
            requires
                p > 0,
        ;
    }
}

proof fn lemma_level_increasing(i: int, j: int)
    requires
        0 <= i < j < 128,
    ensures
        mulaw_level(i) < mulaw_level(j),
    decreases j - i,
{
    lemma_level_step(j - 1);
    if i < j - 1 {
        lemma_level_increasing(i, j - 1);
    }
}

proof fn lemma_value_level(code: u8)
    ensures
        code <= 0x7F ==> mulaw_value(code) == -mulaw_level(127 - code),
        code >= 0x80 ==> mulaw_value(code) == mulaw_level(255 - code),
{
    let k = (255 - code) % 128;
    assert(k % 16 == (255 - code) % 16);
    assert(code <= 0x7F ==> k == 127 - code);
    assert(code >= 0x80 ==> k == 255 - code);
}

/// μ-law decoding is monotone on each half: codes `0x00..=0x7F` rise
/// strictly from -8031 to 0, codes `0x80..=0xFF` fall strictly from 8031
/// to 0.
pub proof fn lemma_mulaw_monotone(a: u8, b: u8)
    requires
        a < b,
    ensures
        b <= 0x7F ==> mulaw_value(a) < mulaw_value(b),
        a >= 0x80 ==> mulaw_value(a) > mulaw_value(b),
        mulaw_value(0x00u8) == -8031 && mulaw_value(0x7Fu8) == 0,
        mulaw_value(0x80u8) == 8031 && mulaw_value(0xFFu8) == 0,
{
    lemma_value_level(a);
    lemma_value_level(b);
    if b <= 0x7F {
        lemma_level_increasing(127 - b, 127 - a);
    }
    if a >= 0x80 {
        lemma_level_increasing(255 - b, 255 - a);
    }
    lemma_value_level(0x00u8);
    lemma_value_level(0x7Fu8);
    lemma_value_level(0x80u8);
    lemma_value_level(0xFFu8);
    vstd::arithmetic::power2::lemma2_to64();
    assert(mulaw_level(127) == 63 * vstd::arithmetic::power2::pow2(7) - 33);
    assert(mulaw_level(0) == 33 * vstd::arithmetic::power2::pow2(0) - 33);
}

/// Each inserted midpoint lies between the two samples around it.
pub proof fn lemma_upsampled_midpoints(codes: Seq<u8>, i: int)
    requires
        0 <= i < codes.len() - 1,
    ensures
        ({
            let a = mulaw_value(codes[i]);
            let b = mulaw_value(codes[i + 1]);
            let mid = mulaw_upsampled(codes)[2 * i + 1] as int;
            &&& a <= b ==> a <= mid <= b
            &&& b <= a ==> b <= mid <= a
        }),
{
    lemma_mulaw_range(codes[i]);
    lemma_mulaw_range(codes[i + 1]);
    assert((2 * i + 1) % 2 == 1 && (2 * i + 1) / 2 == i);
}

/// A ring forgets: what it holds after more samples arrive depends only on
/// what it held before, not on older history.
pub proof fn lemma_ring_window_forgets(history: Seq<i16>, more: Seq<i16>, capacity: nat)
    ensures
        ring_window(history + more, capacity) == ring_window(ring_window(history, capacity) + more, capacity),
{
    let w = ring_window(history, capacity);
    let a = ring_window(history + more, capacity);
    let b = ring_window(w + more, capacity);
    assert(a =~= b);
}

/// A ring holds as many samples as were pushed, up to its capacity.
pub proof fn lemma_ring_window_len(history: Seq<i16>, capacity: nat)
    ensures
        ring_window(history, capacity).len() == if history.len() < capacity { history.len() } else { capacity },
{
}

} // verus!
