//! Deterministic audio augmentation for adversarial speech-to-text testing:
//! every function takes samples and returns new samples.
use vstd::prelude::*;

verus! {

/// The number of samples in `duration_ms` milliseconds at `sample_rate` Hz,
/// rounded down.
pub open spec fn silence_len(duration_ms: u32, sample_rate: u32) -> int {
    (sample_rate as int * duration_ms as int) / 1000
}

/// `n` zero samples.
pub open spec fn zeros(n: nat) -> Seq<i16> {
    Seq::new(n, |i: int| 0i16)
}

/// `samples` with `n` zero samples inserted at `position` (clamped to the end).
pub open spec fn paused(samples: Seq<i16>, position: int, n: nat) -> Seq<i16> {
    let p = if position < samples.len() { position } else { samples.len() as int };
    samples.take(p) + zeros(n) + samples.skip(p)
}

/// `seg` repeated `count` times.
pub open spec fn repeated(seg: Seq<i16>, count: nat) -> Seq<i16>
    decreases count,
{
    if count == 0 { Seq::empty() } else { repeated(seg, (count - 1) as nat) + seg }
}

/// The run of up to `repeat_len` samples starting at `position`.
pub open spec fn stutter_segment(samples: Seq<i16>, position: int, repeat_len: int) -> Seq<i16> {
    let end = if position + repeat_len < samples.len() { position + repeat_len } else { samples.len() as int };
    samples.subrange(position, end)
}

/// `samples` with the segment at `position` played `count` extra times
/// before itself; unchanged when `position` is past the end or `repeat_len`
/// or `count` is zero.
pub open spec fn stuttered(samples: Seq<i16>, position: int, repeat_len: int, count: nat) -> Seq<i16> {
    if position >= samples.len() || repeat_len == 0 || count == 0 {
        samples
    } else {
        samples.take(position) + repeated(stutter_segment(samples, position, repeat_len), count) + samples.skip(position)
    }
}

/// `samples` with `[start, end)` (clamped to the end) in reverse order;
/// unchanged when `start` is past the end or the range is empty.
pub open spec fn reversed_segment(samples: Seq<i16>, start: int, end: int) -> Seq<i16> {
    if start >= samples.len() || end <= start {
        samples
    } else {
        let e = if end < samples.len() { end } else { samples.len() as int };
        Seq::new(samples.len(), |i: int| if start <= i < e { samples[start + e - 1 - i] } else { samples[i] })
    }
}

/// Append `src[from..to]` to `out`.
fn push_range(out: &mut Vec<i16>, src: &[i16], from: usize, to: usize)
    requires
        from <= to <= src@.len(),
    ensures
        final(out)@ == old(out)@ + src@.subrange(from as int, to as int),
{
    let mut i: usize = from;
    while i < to
        invariant
            from <= i <= to <= src@.len(),
            out@ == old(out)@ + src@.subrange(from as int, i as int),
        decreases to - i,
    {
        out.push(src[i]);
        assert(src@.subrange(from as int, i + 1) =~= src@.subrange(from as int, i as int).push(src@[i as int]));
        i = i + 1;
    }
}

/// Insert a silent pause of `duration_ms` milliseconds at `position_samples`
/// (0 = at the start, past the end = at the end).
pub fn pause(samples: &[i16], position_samples: usize, duration_ms: u32, sample_rate: u32) -> (out: Vec<i16>)
    requires
        samples@.len() + silence_len(duration_ms, sample_rate) <= usize::MAX,
    ensures
        out@ == paused(samples@, position_samples as int, silence_len(duration_ms, sample_rate) as nat),
{
    assert(sample_rate as u64 * duration_ms as u64 <= 0xFFFF_FFFFu64 * 0xFFFF_FFFFu64) by (nonlinear_arith)
        requires
            sample_rate <= 0xFFFF_FFFFu32,
            duration_ms <= 0xFFFF_FFFFu32,
    ;
    let wide: u64 = sample_rate as u64 * duration_ms as u64 / 1000;
    let n: usize = wide as usize;
    let len = samples.len();
    let pos = if position_samples < len { position_samples } else { len };
    let mut out: Vec<i16> = Vec::new();
    push_range(&mut out, samples, 0, pos);
    let mut k: usize = 0;
    while k < n
        invariant
            k <= n,
            pos <= len == samples@.len(),
            out@ == samples@.subrange(0, pos as int) + zeros(k as nat),
        decreases n - k,
    {
        out.push(0);
        assert(zeros((k + 1) as nat) =~= zeros(k as nat).push(0i16));
        k = k + 1;
    }
    push_range(&mut out, samples, pos, len);
    assert(out@ =~= paused(samples@, position_samples as int, silence_len(duration_ms, sample_rate) as nat));
    out
}

/// Stutter: repeat the `repeat_len` samples starting at `position`, `count`
/// times, before the rest plays on from `position`.
pub fn stutter(samples: &[i16], position: usize, repeat_len: usize, count: usize) -> (out: Vec<i16>)
    requires
        position < samples@.len() && repeat_len > 0 && count > 0 ==> {
            &&& position + repeat_len <= usize::MAX
            &&& samples@.len() + stutter_segment(samples@, position as int, repeat_len as int).len() * count <= usize::MAX
        },
    ensures
        out@ == stuttered(samples@, position as int, repeat_len as int, count as nat),
{
    let len = samples.len();
    let mut out: Vec<i16> = Vec::new();
    if position >= len || repeat_len == 0 || count == 0 {
        push_range(&mut out, samples, 0, len);
        assert(out@ =~= samples@);
        return out;
    }
    let end = if position + repeat_len < len { position + repeat_len } else { len };
    let ghost seg = stutter_segment(samples@, position as int, repeat_len as int);
    push_range(&mut out, samples, 0, position);
    let mut c: usize = 0;
    while c < count
        invariant
            c <= count,
            position < end <= len == samples@.len(),
            seg == samples@.subrange(position as int, end as int),
            out@ == samples@.subrange(0, position as int) + repeated(seg, c as nat),
        decreases count - c,
    {
        push_range(&mut out, samples, position, end);
        assert(repeated(seg, (c + 1) as nat) == repeated(seg, c as nat) + seg);
        assert(out@ =~= samples@.subrange(0, position as int) + repeated(seg, (c + 1) as nat));
        c = c + 1;
    }
    push_range(&mut out, samples, position, len);
    assert(out@ =~= stuttered(samples@, position as int, repeat_len as int, count as nat));
    out
}

/// Reverse the samples from `start` to `end` (exclusive, clamped to the
/// end), as a speaker restating something backwards.
pub fn reverse_segment(samples: &[i16], start: usize, end: usize) -> (out: Vec<i16>)
    ensures
        out@ == reversed_segment(samples@, start as int, end as int),
{
    let len = samples.len();
    let mut out: Vec<i16> = Vec::new();
    if start >= len || end <= start {
        push_range(&mut out, samples, 0, len);
        assert(out@ =~= samples@);
        return out;
    }
    let e = if end < len { end } else { len };
    push_range(&mut out, samples, 0, start);
    assert(forall|k: int| 0 <= k < start ==> #[trigger] out@[k] == reversed_segment(samples@, start as int, end as int)[k]);
    let mut i: usize = start;
    while i < e
        invariant
            start <= i <= e <= len == samples@.len(),
            start < e,
            e == (if end < len { end } else { len }),
            out@.len() == i,
            forall|k: int| 0 <= k < i ==> #[trigger] out@[k] == reversed_segment(samples@, start as int, end as int)[k],
        decreases e - i,
    {
        out.push(samples[e - 1 - (i - start)]);
        i = i + 1;
    }
    let mut i: usize = e;
    while i < len
        invariant
            e <= i <= len == samples@.len(),
            start < e,
            e == (if end < len { end } else { len }),
            out@.len() == i,
            forall|k: int| 0 <= k < i ==> #[trigger] out@[k] == reversed_segment(samples@, start as int, end as int)[k],
        decreases len - i,
    {
        out.push(samples[i]);
        i = i + 1;
    }
    assert(out@ =~= reversed_segment(samples@, start as int, end as int));
    out
}

/// Concatenate two sample buffers.
pub fn concat(a: &[i16], b: &[i16]) -> (out: Vec<i16>)
    ensures
        out@ == a@ + b@,
{
    let mut out: Vec<i16> = Vec::new();
    push_range(&mut out, a, 0, a.len());
    push_range(&mut out, b, 0, b.len());
    assert(a@.subrange(0, a@.len() as int) =~= a@);
    assert(b@.subrange(0, b@.len() as int) =~= b@);
    out
}

/// Reversing the same segment twice gives the samples back unchanged.
pub proof fn lemma_reverse_segment_involution(samples: Seq<i16>, start: int, end: int)
    requires
        0 <= start,
    ensures
        reversed_segment(reversed_segment(samples, start, end), start, end) == samples,
{
    let once = reversed_segment(samples, start, end);
    let twice = reversed_segment(once, start, end);
    if !(start >= samples.len() || end <= start) {
        let e = if end < samples.len() { end } else { samples.len() as int };
        assert(once.len() == samples.len());
        assert forall|i: int| 0 <= i < samples.len() implies twice[i] == samples[i] by {
            if start <= i < e {
                let j = start + e - 1 - i;
                assert(start <= j < e);
                assert(once[j] == samples[start + e - 1 - j]);
                assert(twice[i] == once[j]);
            } else {
                assert(twice[i] == once[i]);
            }
        }
    }
    assert(twice =~= samples);
}

/// A pause of no samples changes nothing, and every pause keeps the given
/// samples around the inserted silence.
pub proof fn lemma_pause_keeps_samples(samples: Seq<i16>, position: int, n: nat)
    requires
        0 <= position,
    ensures
        paused(samples, position, 0) == samples,
        paused(samples, position, n).len() == samples.len() + n,
        ({
            let p = if position < samples.len() { position } else { samples.len() as int };
            let out = paused(samples, position, n);
            &&& out.take(p) == samples.take(p)
            &&& out.subrange(p, p + n) == zeros(n)
            &&& out.skip(p + n) == samples.skip(p)
        }),
{
    let p = if position < samples.len() { position } else { samples.len() as int };
    assert(zeros(0) =~= Seq::<i16>::empty());
    assert(samples.take(p) + zeros(0) + samples.skip(p) =~= samples);
    let out = paused(samples, position, n);
    assert(out.take(p) =~= samples.take(p));
    assert(out.subrange(p, p + n) =~= zeros(n));
    assert(out.skip(p + n) =~= samples.skip(p));
}

/// `seg` repeated `count` times is `count` times as long.
pub proof fn lemma_repeated_len(seg: Seq<i16>, count: nat)
    ensures
        repeated(seg, count).len() == seg.len() * count,
    decreases count,
{
    if count > 0 {
        lemma_repeated_len(seg, (count - 1) as nat);
        assert(seg.len() * count == seg.len() * (count - 1) + seg.len()) by (nonlinear_arith);
        assert(repeated(seg, count) == repeated(seg, (count - 1) as nat) + seg);
    } else {
        assert(seg.len() * count == 0) by (nonlinear_arith)
            requires
                count == 0,
        ;
    }
}

/// A stutter lengthens the samples by `count` copies of its segment and
/// leaves the samples before `position` in place.
pub proof fn lemma_stutter_shape(samples: Seq<i16>, position: int, repeat_len: int, count: nat)
    requires
        0 <= position < samples.len(),
        repeat_len > 0,
        count > 0,
    ensures
        stuttered(samples, position, repeat_len, count).len()
            == samples.len() + stutter_segment(samples, position, repeat_len).len() * count,
        stuttered(samples, position, repeat_len, count).take(position) == samples.take(position),
{
    lemma_repeated_len(stutter_segment(samples, position, repeat_len), count);
    let out = stuttered(samples, position, repeat_len, count);
    assert(out.take(position) =~= samples.take(position));
}

} // verus!
