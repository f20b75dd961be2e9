//! Character-level text handling shared by the routing agents: Unicode
//! whitespace splitting, punctuation trimming, substring search, lowercase
//! conversion and decimal formatting.
use vstd::prelude::*;

verus! {

broadcast use vstd::string::group_string_axioms;

/// Unicode's `White_Space` property, which `char::is_whitespace` tests.
pub open spec fn is_space(c: char) -> bool {
    let u = c as u32;
    ||| 0x09 <= u <= 0x0D
    ||| u == 0x20
    ||| u == 0x85
    ||| u == 0xA0
    ||| u == 0x1680
    ||| 0x2000 <= u <= 0x200A
    ||| u == 0x2028
    ||| u == 0x2029
    ||| u == 0x202F
    ||| u == 0x205F
    ||| u == 0x3000
}

/// Whether `c` is Unicode whitespace.
pub fn char_is_space(c: char) -> (b: bool)
    ensures
        b == is_space(c),
{
    let u = c as u32;
    (0x09 <= u && u <= 0x0D) || u == 0x20 || u == 0x85 || u == 0xA0 || u == 0x1680
        || (0x2000 <= u && u <= 0x200A) || u == 0x2028 || u == 0x2029 || u == 0x202F
        || u == 0x205F || u == 0x3000
}

/// What `char::is_alphanumeric` answers for `c` (Unicode `Alphabetic` or
/// `Numeric`).
pub uninterp spec fn is_alphanumeric(c: char) -> bool;

/// What `str::to_lowercase` returns for `s` (Unicode lowercase mapping).
pub uninterp spec fn lowercase(s: Seq<char>) -> Seq<char>;

/// `char::is_alphanumeric`. The contract names its answer and says nothing
/// more about the Unicode tables behind it.
#[verifier::external_body]
pub(crate) fn char_is_alphanumeric(c: char) -> (b: bool)
    ensures
        b == is_alphanumeric(c),
{
    c.is_alphanumeric()
}

/// `str::to_lowercase`. The contract names its result and says nothing more
/// about the Unicode mapping behind it.
#[verifier::external_body]
pub(crate) fn to_lowercase(s: &str) -> (r: String)
    ensures
        r@ == lowercase(s@),
{
    s.to_lowercase()
}

/// `String::push`: the string grows by one character at its end.
#[verifier::external_body]
pub(crate) fn push_char(s: &mut String, c: char)
    ensures
        final(s)@ == old(s)@.push(c),
{
    s.push(c);
}

/// The characters of `s`, in order.
pub fn chars_of(s: &str) -> (v: Vec<char>)
    ensures
        v@ == s@,
{
    let mut v: Vec<char> = Vec::new();
    for c in it: s.chars()
        invariant
            it.seq() == s@,
            v@ == it.seq().take(it.index() as int),
    {
        proof {
            assert(it.seq().take(it.index() + 1) =~= it.seq().take(it.index() as int).push(c));
        }
        v.push(c);
    }
    assert(s@.take(s@.len() as int) =~= s@);
    v
}

/// A string holding `cs`.
pub fn string_of(cs: &[char]) -> (s: String)
    ensures
        s@ == cs@,
{
    let mut s = String::new();
    let mut i: usize = 0;
    while i < cs.len()
        invariant
            i <= cs@.len(),
            s@ == cs@.subrange(0, i as int),
        decreases cs@.len() - i,
    {
        push_char(&mut s, cs[i]);
        proof {
            assert(cs@.subrange(0, i + 1) =~= cs@.subrange(0, i as int).push(cs@[i as int]));
        }
        i = i + 1;
    }
    assert(cs@.subrange(0, cs@.len() as int) =~= cs@);
    s
}

/// `s` in lowercase, as characters.
pub fn lowercase_chars(s: &str) -> (v: Vec<char>)
    ensures
        v@ == lowercase(s@),
{
    let low = to_lowercase(s);
    chars_of(low.as_str())
}

/// `needle` occurs as a contiguous run in `hay` (the empty run occurs
/// everywhere).
pub open spec fn has_substring(hay: Seq<char>, needle: Seq<char>) -> bool {
    exists|i: int| 0 <= i && i + needle.len() <= hay.len() && #[trigger] hay.subrange(i, i + needle.len()) == needle
}

/// Whether `needle` occurs in `hay` at position `at`.
fn occurs_at(hay: &[char], needle: &[char], at: usize) -> (b: bool)
    requires
        at + needle@.len() <= hay@.len(),
    ensures
        b == (hay@.subrange(at as int, at + needle@.len()) == needle@),
{
    let hay_len = hay.len();
    let mut j: usize = 0;
    while j < needle.len()
        invariant
            hay_len == hay@.len(),
            at + needle@.len() <= hay@.len(),
            j <= needle@.len(),
            forall|k: int| 0 <= k < j ==> hay@[at + k] == needle@[k],
        decreases needle@.len() - j,
    {
        if hay[at + j] != needle[j] {
            assert(hay@.subrange(at as int, at + needle@.len())[j as int] != needle@[j as int]);
            return false;
        }
        j = j + 1;
    }
    assert(hay@.subrange(at as int, at + needle@.len()) =~= needle@);
    true
}

/// Whether `needle` occurs in `hay`, as `str::contains` answers it.
pub fn contains_chars(hay: &[char], needle: &[char]) -> (b: bool)
    ensures
        b == has_substring(hay@, needle@),
{
    if needle.len() == 0 {
        assert(hay@.subrange(0int, 0int + needle@.len()) =~= needle@);
        return true;
    }
    if needle.len() > hay.len() {
        return false;
    }
    let last = hay.len() - needle.len();
    let mut i: usize = 0;
    while i <= last
        invariant
            last == hay@.len() - needle@.len(),
            last < hay.len(),
            i <= last + 1,
            forall|k: int| 0 <= k < i ==> #[trigger] hay@.subrange(k, k + needle@.len()) != needle@,
        decreases last + 1 - i,
    {
        if occurs_at(hay, needle, i) {
            return true;
        }
        i = i + 1;
    }
    false
}

/// Whether `needle` occurs in `hay`.
pub fn contains_str(hay: &[char], needle: &str) -> (b: bool)
    ensures
        b == has_substring(hay@, needle@),
{
    let n = chars_of(needle);
    contains_chars(hay, n.as_slice())
}

/// The maximal runs of non-whitespace characters of `s`, in order, as
/// `str::split_whitespace` yields them.
pub open spec fn words(s: Seq<char>) -> Seq<Seq<char>>
    decreases s.len(),
{
    if s.len() == 0 {
        Seq::empty()
    } else {
        let w = words(s.drop_last());
        let c = s.last();
        if is_space(c) {
            w
        } else if s.len() >= 2 && !is_space(s[s.len() - 2]) {
            w.update(w.len() - 1, w.last().push(c))
        } else {
            w.push(seq![c])
        }
    }
}

/// Split `s` into its whitespace-separated words.
pub fn split_words(s: &[char]) -> (ws: Vec<Vec<char>>)
    ensures
        ws.deep_view() == words(s@),
{
    let mut done: Vec<Vec<char>> = Vec::new();
    let mut cur: Vec<char> = Vec::new();
    let mut i: usize = 0;
    while i < s.len()
        invariant
            i <= s@.len(),
            (cur@.len() > 0) == (i > 0 && !is_space(s@[i - 1])),
            cur@.len() > 0 ==> words(s@.subrange(0, i as int)) == done.deep_view().push(cur@),
            cur@.len() == 0 ==> words(s@.subrange(0, i as int)) == done.deep_view(),
        decreases s@.len() - i,
    {
        let c = s[i];
        let ghost prefix = s@.subrange(0, i + 1);
        assert(prefix.drop_last() =~= s@.subrange(0, i as int));
        assert(prefix.last() == c);
        if char_is_space(c) {
            if cur.len() > 0 {
                let ghost before = done.deep_view();
                let ghost run = cur@;
                assert(cur.deep_view() =~= run);
                done.push(cur);
                cur = Vec::new();
                assert(done.deep_view() =~= before.push(run));
            }
        } else {
            let ghost before = done.deep_view();
            let ghost run = cur@;
            let had_run = cur.len() > 0;
            cur.push(c);
            if had_run {
                assert(s@[i - 1] == prefix[prefix.len() - 2]);
                assert(words(prefix) =~= before.push(run).update(before.len() as int, run.push(c)));
                assert(before.push(run).update(before.len() as int, run.push(c)) =~= before.push(cur@));
            } else {
                assert(i > 0 ==> s@[i - 1] == prefix[prefix.len() - 2]);
                assert(words(prefix) =~= before.push(seq![c]));
                assert(cur@ =~= seq![c]);
            }
        }
        i = i + 1;
    }
    assert(s@.subrange(0, s@.len() as int) =~= s@);
    if cur.len() > 0 {
        let ghost before = done.deep_view();
        let ghost run = cur@;
        assert(cur.deep_view() =~= run);
        done.push(cur);
        assert(done.deep_view() =~= before.push(run));
    }
    done
}

/// `w` without its leading non-alphanumeric characters.
pub open spec fn trim_start_nonalnum(w: Seq<char>) -> Seq<char>
    decreases w.len(),
{
    if w.len() > 0 && !is_alphanumeric(w[0]) { trim_start_nonalnum(w.drop_first()) } else { w }
}

/// `w` without its trailing non-alphanumeric characters.
pub open spec fn trim_end_nonalnum(w: Seq<char>) -> Seq<char>
    decreases w.len(),
{
    if w.len() > 0 && !is_alphanumeric(w.last()) { trim_end_nonalnum(w.drop_last()) } else { w }
}

/// `w` with every leading and trailing non-alphanumeric character removed,
/// as `str::trim_matches(|c| !c.is_alphanumeric())` returns it.
pub open spec fn trim_nonalnum(w: Seq<char>) -> Seq<char> {
    trim_end_nonalnum(trim_start_nonalnum(w))
}

/// Strip leading and trailing non-alphanumeric characters from `w`.
pub fn trim_punctuation(w: &[char]) -> (t: Vec<char>)
    ensures
        t@ == trim_nonalnum(w@),
{
    let len = w.len();
    let mut a: usize = 0;
    assert(w@.subrange(0, len as int) =~= w@);
    while a < len && !char_is_alphanumeric(w[a])
        invariant
            len == w@.len(),
            a <= len,
            trim_start_nonalnum(w@) == trim_start_nonalnum(w@.subrange(a as int, len as int)),
        decreases len - a,
    {
        assert(w@.subrange(a as int, len as int).drop_first() =~= w@.subrange(a + 1, len as int));
        a = a + 1;
    }
    let ghost front = w@.subrange(a as int, len as int);
    assert(trim_start_nonalnum(w@) == front);
    let mut b: usize = len;
    while b > a && !char_is_alphanumeric(w[b - 1])
        invariant
            len == w@.len(),
            a <= b <= len,
            front == w@.subrange(a as int, len as int),
            trim_end_nonalnum(front) == trim_end_nonalnum(w@.subrange(a as int, b as int)),
        decreases b - a,
    {
        assert(w@.subrange(a as int, b as int).drop_last() =~= w@.subrange(a as int, b - 1));
        b = b - 1;
    }
    let mut t: Vec<char> = Vec::new();
    let mut k: usize = a;
    while k < b
        invariant
            a <= k <= b <= len,
            len == w@.len(),
            t@ == w@.subrange(a as int, k as int),
        decreases b - k,
    {
        t.push(w[k]);
        assert(w@.subrange(a as int, k + 1) =~= w@.subrange(a as int, k as int).push(w@[k as int]));
        k = k + 1;
    }
    t
}

/// Whether two character runs are equal.
pub fn chars_eq(a: &[char], b: &[char]) -> (eq: bool)
    ensures
        eq == (a@ == b@),
{
    if a.len() != b.len() {
        return false;
    }
    let mut i: usize = 0;
    while i < a.len()
        invariant
            a@.len() == b@.len(),
            i <= a@.len(),
            forall|k: int| 0 <= k < i ==> a@[k] == b@[k],
        decreases a@.len() - i,
    {
        if a[i] != b[i] {
            return false;
        }
        i = i + 1;
    }
    assert(a@ =~= b@);
    true
}

/// The decimal digit character for `d` in `0..10`.
pub open spec fn digit_char(d: int) -> char {
    (48 + d) as char
}

/// The decimal representation of `n`, without sign or leading zeros, as
/// integer `Display` writes it.
pub open spec fn decimal(n: nat) -> Seq<char>
    decreases n,
{
    if n < 10 { seq![digit_char(n as int)] } else { decimal(n / 10).push(digit_char((n % 10) as int)) }
}

/// Append the decimal representation of `n` to `out`.
pub fn push_decimal(out: &mut Vec<char>, n: u32)
    ensures
        final(out)@ == old(out)@ + decimal(n as nat),
    decreases n,
{
    if n >= 10 {
        push_decimal(out, n / 10);
    }
    let d: u8 = (n % 10) as u8;
    let c: char = (48u8 + d) as char;
    assert(c == digit_char((n % 10) as int));
    out.push(c);
    if n >= 10 {
        assert(old(out)@ + decimal(n as nat) =~= old(out)@ + decimal((n / 10) as nat) + seq![c]);
    } else {
        assert(old(out)@ + decimal(n as nat) =~= old(out)@.push(c));
    }
}

/// Some word of `text`, stripped of leading and trailing non-alphanumeric
/// characters, equals `w`.
pub open spec fn has_word(text: Seq<char>, w: Seq<char>) -> bool {
    exists|i: int| 0 <= i < words(text).len() && trim_nonalnum(#[trigger] words(text)[i]) == w
}

/// Whether some word of the text whose words are `text_words`, once trimmed of
/// punctuation, equals `w`.
pub(crate) fn contains_word(text_words: &Vec<Vec<char>>, w: &[char], Ghost(text): Ghost<Seq<char>>) -> (found: bool)
    requires
        text_words.deep_view() == words(text),
    ensures
        found == has_word(text, w@),
{
    let mut i: usize = 0;
    while i < text_words.len()
        invariant
            text_words.deep_view() == words(text),
            i <= text_words@.len(),
            forall|m: int| 0 <= m < i ==> trim_nonalnum(#[trigger] words(text)[m]) != w@,
        decreases text_words@.len() - i,
    {
        assert(text_words@[i as int]@ == words(text)[i as int]);
        let t = trim_punctuation(text_words[i].as_slice());
        if chars_eq(t.as_slice(), w) {
            assert(trim_nonalnum(words(text)[i as int]) == w@);
            return true;
        }
        i = i + 1;
    }
    false
}

/// Append the characters of `s` to `out`.
pub fn append_str(out: &mut Vec<char>, s: &str)
    ensures
        final(out)@ == old(out)@ + s@,
{
    let cs = chars_of(s);
    append_chars(out, cs.as_slice());
}

/// Append `cs` to `out`.
pub fn append_chars(out: &mut Vec<char>, cs: &[char])
    ensures
        final(out)@ == old(out)@ + cs@,
{
    let mut i: usize = 0;
    while i < cs.len()
        invariant
            i <= cs@.len(),
            out@ == old(out)@ + cs@.subrange(0, i as int),
        decreases cs@.len() - i,
    {
        out.push(cs[i]);
        assert(cs@.subrange(0, i + 1) =~= cs@.subrange(0, i as int).push(cs@[i as int]));
        i = i + 1;
    }
    assert(cs@.subrange(0, cs@.len() as int) =~= cs@);
}

/// The pieces of `parts` joined with `sep` between neighbours.
pub open spec fn join(parts: Seq<Seq<char>>, sep: Seq<char>) -> Seq<char>
    decreases parts.len(),
{
    if parts.len() == 0 {
        Seq::empty()
    } else if parts.len() == 1 {
        parts[0]
    } else {
        join(parts.drop_last(), sep) + sep + parts.last()
    }
}

/// The strings of `parts` joined with `sep` between neighbours, as
/// `[String]::join` builds it.
pub fn join_strings(parts: &Vec<String>, sep: &str) -> (joined: String)
    ensures
        joined@ == join(parts.deep_view(), sep@),
{
    let ghost all = parts.deep_view();
    let mut out: Vec<char> = Vec::new();
    let mut i: usize = 0;
    while i < parts.len()
        invariant
            i <= parts@.len(),
            all == parts.deep_view(),
            out@ == join(all.subrange(0, i as int), sep@),
        decreases parts@.len() - i,
    {
        if i > 0 {
            append_str(&mut out, sep);
        }
        append_str(&mut out, parts[i].as_str());
        proof {
            let next = all.subrange(0, i + 1);
            assert(all[i as int] == parts@[i as int]@);
            if i > 0 {
                assert(next.drop_last() =~= all.subrange(0, i as int));
            } else {
                assert(next =~= seq![all[0]]);
            }
        }
        i = i + 1;
    }
    assert(all.subrange(0, parts@.len() as int) =~= all);
    string_of(out.as_slice())
}

/// `s` without leading whitespace.
pub open spec fn trim_start_space(s: Seq<char>) -> Seq<char>
    decreases s.len(),
{
    if s.len() > 0 && is_space(s[0]) { trim_start_space(s.drop_first()) } else { s }
}

/// `s` without trailing whitespace.
pub open spec fn trim_end_space(s: Seq<char>) -> Seq<char>
    decreases s.len(),
{
    if s.len() > 0 && is_space(s.last()) { trim_end_space(s.drop_last()) } else { s }
}

/// `s` without leading and trailing whitespace, as `str::trim` returns it.
pub open spec fn trim_space(s: Seq<char>) -> Seq<char> {
    trim_end_space(trim_start_space(s))
}

/// Strip leading and trailing whitespace from `s`.
pub fn trim_whitespace(s: &[char]) -> (t: Vec<char>)
    ensures
        t@ == trim_space(s@),
{
    let len = s.len();
    let mut a: usize = 0;
    assert(s@.subrange(0, len as int) =~= s@);
    while a < len && char_is_space(s[a])
        invariant
            len == s@.len(),
            a <= len,
            trim_start_space(s@) == trim_start_space(s@.subrange(a as int, len as int)),
        decreases len - a,
    {
        assert(s@.subrange(a as int, len as int).drop_first() =~= s@.subrange(a + 1, len as int));
        a = a + 1;
    }
    let ghost front = s@.subrange(a as int, len as int);
    assert(trim_start_space(s@) == front);
    let mut b: usize = len;
    while b > a && char_is_space(s[b - 1])
        invariant
            len == s@.len(),
            a <= b <= len,
            front == s@.subrange(a as int, len as int),
            trim_end_space(front) == trim_end_space(s@.subrange(a as int, b as int)),
        decreases b - a,
    {
        assert(s@.subrange(a as int, b as int).drop_last() =~= s@.subrange(a as int, b - 1));
        b = b - 1;
    }
    let mut t: Vec<char> = Vec::new();
    let mut k: usize = a;
    while k < b
        invariant
            a <= k <= b <= len,
            len == s@.len(),
            t@ == s@.subrange(a as int, k as int),
        decreases b - k,
    {
        t.push(s[k]);
        assert(s@.subrange(a as int, k + 1) =~= s@.subrange(a as int, k as int).push(s@[k as int]));
        k = k + 1;
    }
    t
}

} // verus!
