//! The streaming side of transcription: cutting the incoming audio into
//! analysis windows, and merging overlapping transcripts of consecutive
//! windows so that repeated words are not emitted twice.
use vstd::prelude::*;

use crate::text::{append_chars, chars_eq, chars_of, join, split_words, string_of, words};

verus! {

/// The abstract state of a [`WindowBuffer`]: the window and step sizes,
/// every sample received, and the buffer length when the last window was
/// offered (none yet: `None`).
pub struct WindowBufferView {
    pub window_samples: nat,
    pub step_samples: nat,
    pub buffer: Seq<i16>,
    pub last_offered: Option<nat>,
}

/// Accumulates incoming audio and offers sliding analysis windows: the most
/// recent `window_samples` samples, first once that many have arrived and
/// then again each time `step_samples` more have arrived.
pub struct WindowBuffer {
    buffer: Vec<i16>,
    window_samples: usize,
    step_samples: usize,
    last_offered: Option<usize>,
}

impl View for WindowBuffer {
    type V = WindowBufferView;

    closed spec fn view(&self) -> WindowBufferView {
        WindowBufferView {
            window_samples: self.window_samples as nat,
            step_samples: self.step_samples as nat,
            buffer: self.buffer@,
            last_offered: match self.last_offered {
                Some(at) => Some(at as nat),
                None => None,
            },
        }
    }
}

/// The most recent `window_samples` samples of `buffer`, once it holds that
/// many.
pub open spec fn latest_window(buffer: Seq<i16>, window_samples: nat) -> Option<Seq<i16>> {
    if buffer.len() >= window_samples {
        Some(buffer.subrange(buffer.len() - window_samples, buffer.len() as int))
    } else {
        None
    }
}

/// A window is due: the buffer holds a whole window, and either none was
/// offered yet or a whole step of new samples arrived since the last one.
pub open spec fn window_due(v: WindowBufferView) -> bool {
    &&& v.buffer.len() >= v.window_samples
    &&& match v.last_offered {
        None => true,
        Some(at) => v.buffer.len() >= at + v.step_samples,
    }
}

impl WindowBuffer {
    /// An empty buffer for audio at `sample_rate` Hz: two-second windows
    /// that slide by one second.
    pub fn new(sample_rate: u32) -> (wb: Self)
        requires
            2 * sample_rate <= usize::MAX,
        ensures
            wb@ == (WindowBufferView {
                window_samples: 2 * sample_rate as nat,
                step_samples: sample_rate as nat,
                buffer: Seq::empty(),
                last_offered: None,
            }),
    {
        let window = 2 * (sample_rate as usize);
        WindowBuffer { buffer: Vec::new(), window_samples: window, step_samples: sample_rate as usize, last_offered: None }
    }

    /// An empty buffer with windows of `window_samples` samples that slide by
    /// `step_samples`.
    pub fn with_sizes(window_samples: usize, step_samples: usize) -> (wb: Self)
        ensures
            wb@ == (WindowBufferView {
                window_samples: window_samples as nat,
                step_samples: step_samples as nat,
                buffer: Seq::empty(),
                last_offered: None,
            }),
    {
        WindowBuffer { buffer: Vec::new(), window_samples, step_samples, last_offered: None }
    }

    /// Append a frame; when a window is due (see [`window_due`]), return a
    /// copy of the most recent window and remember where it was offered.
    pub fn push_frame(&mut self, samples: &[i16]) -> (window: Option<Vec<i16>>)
        ensures
            final(self)@.buffer == old(self)@.buffer + samples@,
            final(self)@.window_samples == old(self)@.window_samples,
            final(self)@.step_samples == old(self)@.step_samples,
            ({
                let grown = WindowBufferView { buffer: old(self)@.buffer + samples@, ..old(self)@ };
                &&& window_due(grown) ==> (window matches Some(w)
                    && latest_window(grown.buffer, grown.window_samples) == Some(w@)
                    && final(self)@.last_offered == Some(grown.buffer.len()))
                &&& !window_due(grown) ==> window is None && final(self)@.last_offered == old(self)@.last_offered
            }),
    {
        let mut i: usize = 0;
        while i < samples.len()
            invariant
                i <= samples@.len(),
                self.buffer@ == old(self).buffer@ + samples@.subrange(0, i as int),
                self.window_samples == old(self).window_samples,
                self.step_samples == old(self).step_samples,
                self.last_offered == old(self).last_offered,
            decreases samples@.len() - i,
        {
            self.buffer.push(samples[i]);
            assert(samples@.subrange(0, i + 1) =~= samples@.subrange(0, i as int).push(samples@[i as int]));
            i = i + 1;
        }
        assert(samples@.subrange(0, samples@.len() as int) =~= samples@);
        let len = self.buffer.len();
        let step_done = match self.last_offered {
            None => true,
            Some(at) => len >= at && len - at >= self.step_samples,
        };
        if len >= self.window_samples && step_done {
            let mut w: Vec<i16> = Vec::new();
            let mut k: usize = len - self.window_samples;
            while k < len
                invariant
                    len == self.buffer@.len(),
                    self.window_samples <= len,
                    len - self.window_samples <= k <= len,
                    w@ == self.buffer@.subrange(len - self.window_samples, k as int),
                decreases len - k,
            {
                w.push(self.buffer[k]);
                assert(self.buffer@.subrange(len - self.window_samples, k + 1)
                    =~= self.buffer@.subrange(len - self.window_samples, k as int).push(self.buffer@[k as int]));
                k = k + 1;
            }
            self.last_offered = Some(len);
            Some(w)
        } else {
            None
        }
    }

    /// How many samples have been buffered.
    pub fn buffer_len(&self) -> (n: usize)
        ensures
            n == self@.buffer.len(),
    {
        self.buffer.len()
    }
}

/// The largest `k` no greater than `max` for which the first `k` new words
/// are the last `k` previous words; zero when there is none.
pub open spec fn overlap_from(new_words: Seq<Seq<char>>, prev_words: Seq<Seq<char>>, max: int) -> int
    decreases max,
{
    if max <= 0 {
        0
    } else if new_words.take(max) == prev_words.skip(prev_words.len() - max) {
        max
    } else {
        overlap_from(new_words, prev_words, max - 1)
    }
}

/// How many leading words of the new transcript repeat the end of the
/// previous one: at most eight, and no more than either transcript has.
pub open spec fn word_overlap(new_words: Seq<Seq<char>>, prev_words: Seq<Seq<char>>) -> int {
    let m = if new_words.len() < prev_words.len() { new_words.len() } else { prev_words.len() };
    overlap_from(new_words, prev_words, if m < 8 { m as int } else { 8 })
}

/// Merging a new window's transcript after the previous one: the text to
/// emit and the transcript to remember. An empty transcript emits nothing and
/// is not remembered; the first one is emitted whole; later ones drop the
/// words that repeat the end of the previous transcript (the rest joined by
/// single spaces) or, without such words, are emitted as they are.
pub open spec fn merged(previous: Seq<char>, new_text: Seq<char>) -> (Seq<char>, Seq<char>) {
    if new_text.len() == 0 {
        (Seq::empty(), previous)
    } else if previous.len() == 0 {
        (new_text, new_text)
    } else {
        let w = words(new_text);
        let k = word_overlap(w, words(previous));
        if k > 0 { (join(w.skip(k), " "@), new_text) } else { (new_text, new_text) }
    }
}

/// Remembers the last transcript and merges the next one against it.
pub struct OverlapMerger {
    last_output: String,
}

impl View for OverlapMerger {
    type V = Seq<char>;

    closed spec fn view(&self) -> Seq<char> {
        self.last_output@
    }
}

/// Whether `a[..k]` equals `b[b.len() - k..]`, word by word.
fn words_overlap(a: &Vec<Vec<char>>, b: &Vec<Vec<char>>, k: usize) -> (same: bool)
    requires
        k <= a@.len(),
        k <= b@.len(),
    ensures
        same == (a.deep_view().take(k as int) == b.deep_view().skip(b@.len() - k)),
{
    let off = b.len() - k;
    let bl = b.len();
    let mut j: usize = 0;
    while j < k
        invariant
            bl == b@.len(),
            k <= a@.len(),
            k <= b@.len(),
            off == b@.len() - k,
            j <= k,
            forall|m: int| 0 <= m < j ==> a.deep_view()[m] == b.deep_view()[off + m],
        decreases k - j,
    {
        assert(a.deep_view()[j as int] =~= a@[j as int]@);
        assert(b.deep_view()[off + j] =~= b@[off + j]@);
        if !chars_eq(a[j].as_slice(), b[off + j].as_slice()) {
            assert(a.deep_view().take(k as int)[j as int] != b.deep_view().skip(b@.len() - k)[j as int]);
            return false;
        }
        j = j + 1;
    }
    assert(a.deep_view().take(k as int) =~= b.deep_view().skip(b@.len() - k));
    true
}

impl OverlapMerger {
    /// A merger that has seen nothing yet.
    pub fn new() -> (m: Self)
        ensures
            m@ == Seq::<char>::empty(),
    {
        OverlapMerger { last_output: String::new() }
    }

    /// Merge a new transcript (see [`merged`]).
    pub fn merge_overlap(&mut self, new_text: &str) -> (out: String)
        ensures
            (out@, final(self)@) == merged(old(self)@, new_text@),
    {
        let new_chars = chars_of(new_text);
        if new_chars.len() == 0 {
            return String::new();
        }
        let prev_chars = chars_of(self.last_output.as_str());
        if prev_chars.len() == 0 {
            self.last_output = String::from_str(new_text);
            return String::from_str(new_text);
        }
        let w = split_words(new_chars.as_slice());
        let p = split_words(prev_chars.as_slice());
        let m = if w.len() < p.len() { w.len() } else { p.len() };
        let max = if m < 8 { m } else { 8 };
        let mut k: usize = max;
        while k > 0 && !words_overlap(&w, &p, k)
            invariant
                k <= max <= w@.len(),
                max <= p@.len(),
                overlap_from(w.deep_view(), p.deep_view(), max as int) == overlap_from(w.deep_view(), p.deep_view(), k as int),
            decreases k,
        {
            k = k - 1;
        }
        let best = k;
        assert(best == word_overlap(w.deep_view(), p.deep_view()));
        let result = if best > 0 {
            let mut out: Vec<char> = Vec::new();
            let ghost rest = w.deep_view().skip(best as int);
            let mut i: usize = best;
            while i < w.len()
                invariant
                    best <= i <= w@.len(),
                    best > 0,
                    rest == w.deep_view().skip(best as int),
                    out@ == join(rest.take(i - best), " "@),
                decreases w@.len() - i,
            {
                if i > best {
                    crate::text::append_str(&mut out, " ");
                }
                append_chars(&mut out, w[i].as_slice());
                proof {
                    let t = rest.take(i - best + 1);
                    assert(w@[i as int]@ == rest[i - best]);
                    if i > best {
                        assert(t.drop_last() =~= rest.take(i - best));
                    } else {
                        assert(t =~= seq![rest[0]]);
                    }
                }
                i = i + 1;
            }
            assert(rest.take(w@.len() - best) =~= rest);
            string_of(out.as_slice())
        } else {
            String::from_str(new_text)
        };
        self.last_output = String::from_str(new_text);
        result
    }

    /// The last transcript remembered.
    pub fn last_output(&self) -> (text: &str)
        ensures
            text@ == self@,
    {
        self.last_output.as_str()
    }
}

/// The first non-empty transcript is emitted whole; every non-empty
/// transcript becomes the one remembered; an empty one changes nothing.
pub proof fn lemma_merge_remembers(previous: Seq<char>, new_text: Seq<char>)
    ensures
        new_text.len() == 0 ==> merged(previous, new_text) == (Seq::<char>::empty(), previous),
        new_text.len() > 0 ==> merged(previous, new_text).1 == new_text,
        new_text.len() > 0 && previous.len() == 0 ==> merged(previous, new_text).0 == new_text,
{
}

/// The repeated words found are a real overlap, and the longest one: the
/// first `k` new words are the last `k` previous words, and no longer run of
/// at most `max` words is repeated.
pub proof fn lemma_overlap_is_repeat(new_words: Seq<Seq<char>>, prev_words: Seq<Seq<char>>, max: int)
    requires
        max <= new_words.len(),
        max <= prev_words.len(),
    ensures
        0 <= overlap_from(new_words, prev_words, max),
        overlap_from(new_words, prev_words, max) <= if max < 0 { 0 } else { max },
        overlap_from(new_words, prev_words, max) > 0 ==> new_words.take(overlap_from(new_words, prev_words, max))
            == prev_words.skip(prev_words.len() - overlap_from(new_words, prev_words, max)),
        forall|j: int|
            overlap_from(new_words, prev_words, max) < j <= max
                ==> #[trigger] new_words.take(j) != prev_words.skip(prev_words.len() - j),
    decreases max,
{
    if max > 0 && new_words.take(max) != prev_words.skip(prev_words.len() - max) {
        lemma_overlap_is_repeat(new_words, prev_words, max - 1);
    }
}

/// The first `j` words of `w` repeat the last `j` words of `p`.
pub open spec fn repeats_tail(w: Seq<Seq<char>>, p: Seq<Seq<char>>, j: int) -> bool {
    w.take(j) == p.skip(p.len() - j)
}

/// Merging drops the longest repeat of up to eight words: with `k` the
/// number of leading new words dropped, `k` is at most eight (and at most
/// either transcript's word count), the dropped words do repeat the end of
/// the previous transcript, no repeat within the bound is longer than `k`,
/// and the output is the remaining words joined by
/// single spaces (the new text as it is when nothing repeats).
pub proof fn lemma_merge_drops_longest_repeat(previous: Seq<char>, new_text: Seq<char>)
    requires
        previous.len() > 0,
        new_text.len() > 0,
    ensures
        ({
            let w = words(new_text);
            let p = words(previous);
            let cap = if w.len() < p.len() { w.len() as int } else { p.len() as int };
            let cap = if cap < 8 { cap } else { 8 };
            let k = word_overlap(w, p);
            &&& 0 <= k <= cap
            &&& forall|j: int| 1 <= j <= cap && #[trigger] repeats_tail(w, p, j) ==> j <= k
            &&& k > 0 ==> repeats_tail(w, p, k) && merged(previous, new_text).0 == join(w.skip(k), " "@)
            &&& k == 0 ==> merged(previous, new_text).0 == new_text
            &&& merged(previous, new_text).1 == new_text
        }),
{
    let w = words(new_text);
    let p = words(previous);
    let m = if w.len() < p.len() { w.len() } else { p.len() };
    let cap: int = if m < 8 { m as int } else { 8 };
    lemma_overlap_is_repeat(w, p, cap);
    assert forall|j: int| 1 <= j <= cap && #[trigger] repeats_tail(w, p, j) implies j <= word_overlap(w, p) by {
        if j > word_overlap(w, p) {
            assert(w.take(j) != p.skip(p.len() - j));
        }
    }
}

/// Windows slide by the step: once a window was offered, none is due again
/// until a whole step of new samples has arrived.
pub proof fn lemma_windows_slide_by_step(v: WindowBufferView, at: nat)
    requires
        v.last_offered == Some(at),
        v.buffer.len() < at + v.step_samples,
    ensures
        !window_due(v),
{
}

/// The windows offered are always whole windows of the most recent audio.
pub proof fn lemma_window_is_recent(buffer: Seq<i16>, window_samples: nat)
    ensures
        latest_window(buffer, window_samples) matches Some(w) ==> w.len() == window_samples
            && w == buffer.skip(buffer.len() - window_samples),
{
    if buffer.len() >= window_samples {
        assert(buffer.subrange(buffer.len() - window_samples, buffer.len() as int) =~= buffer.skip(buffer.len() - window_samples));
    }
}

} // verus!
