//! What travels over an audio transport: events sent to the remote side,
//! audio chunks received from it, and the decoding of Twilio Media Streams
//! messages (JSON with base64 μ-law audio).
use vstd::prelude::*;

use crate::audio::{decode_mulaw_8k_to_16k, mulaw_upsampled};
use crate::json::{find_member, json_object_members, json_quoted, member_json, member_text, parse_json_object, quote_json};
use crate::text::{append_str, chars_eq, chars_of, string_of};

verus! {

/// Who an event is for.
#[derive(Debug, Clone, Copy, PartialEq, Eq, Structural)]
pub enum Destination {
    Caller,
    System,
    Both,
}

/// An event sent over the transport.
#[derive(Debug, Clone)]
pub struct Event {
    pub kind: String,
    pub text: String,
    pub to: Destination,
}

/// The abstract value of an [`Event`].
pub struct EventView {
    pub kind: Seq<char>,
    pub text: Seq<char>,
    pub to: Destination,
}

impl View for Event {
    type V = EventView;

    open spec fn view(&self) -> EventView {
        EventView { kind: self.kind@, text: self.text@, to: self.to }
    }
}

/// An event as the JSON text sent over a WebSocket: a compact object with
/// the members `event` (the kind) and `text`, in key order, and, when
/// `with_data` holds, a leading `"data":null`.
pub open spec fn event_json(e: EventView, with_data: bool) -> Seq<char> {
    let body = "\"event\":"@ + json_quoted(e.kind) + ",\"text\":"@ + json_quoted(e.text) + "}"@;
    if with_data { "{\"data\":null,"@ + body } else { "{"@ + body }
}

impl Event {
    /// The event as JSON text (see [`event_json`]).
    pub fn to_json(&self, with_data: bool) -> (json: String)
        ensures
            json@ == event_json(self@, with_data),
    {
        let mut out: Vec<char> = Vec::new();
        if with_data {
            append_str(&mut out, "{\"data\":null,");
        } else {
            append_str(&mut out, "{");
        }
        append_str(&mut out, "\"event\":");
        append_str(&mut out, quote_json(self.kind.as_str()).as_str());
        append_str(&mut out, ",\"text\":");
        append_str(&mut out, quote_json(self.text.as_str()).as_str());
        append_str(&mut out, "}");
        assert(out@ =~= event_json(self@, with_data));
        string_of(out.as_slice())
    }

    /// A transcript line, for both sides.
    pub fn transcript(text: &str) -> (e: Self)
        ensures
            e.kind@ == "transcript"@,
            e.text@ == text@,
            e.to == Destination::Both,
    {
        Event { kind: String::from_str("transcript"), text: String::from_str(text), to: Destination::Both }
    }

    /// An agent action, for the caller.
    pub fn agent_action(text: &str) -> (e: Self)
        ensures
            e.kind@ == "agent_action"@,
            e.text@ == text@,
            e.to == Destination::Caller,
    {
        Event { kind: String::from_str("agent_action"), text: String::from_str(text), to: Destination::Caller }
    }

    /// A call-state change, for the system.
    pub fn state(state: &str) -> (e: Self)
        ensures
            e.kind@ == "state"@,
            e.text@ == state@,
            e.to == Destination::System,
    {
        Event { kind: String::from_str("state"), text: String::from_str(state), to: Destination::System }
    }

    /// An error report, for the system.
    pub fn error(text: &str) -> (e: Self)
        ensures
            e.kind@ == "error"@,
            e.text@ == text@,
            e.to == Destination::System,
    {
        Event { kind: String::from_str("error"), text: String::from_str(text), to: Destination::System }
    }
}

/// A received audio chunk.
#[derive(Debug, Clone)]
pub struct AudioChunk {
    /// 16-bit PCM at 16 kHz.
    pub pcm: Vec<i16>,
    /// The sample rate before conversion.
    pub original_rate: u32,
}

// ----------------------------------------------------------------------
// Base64
// ----------------------------------------------------------------------

/// The value of a character of the standard base64 alphabet.
pub open spec fn base64_value(c: char) -> Option<u8> {
    let u = c as u32;
    if 65 <= u <= 90 {
        Some((u - 65) as u8)
    } else if 97 <= u <= 122 {
        Some((u - 97 + 26) as u8)
    } else if 48 <= u <= 57 {
        Some((u - 48 + 52) as u8)
    } else if u == 43 {
        Some(62u8)
    } else if u == 47 {
        Some(63u8)
    } else {
        None
    }
}

/// The values of the alphabet characters of `cs`, other characters skipped.
pub open spec fn base64_values(cs: Seq<char>) -> Seq<u8>
    decreases cs.len(),
{
    if cs.len() == 0 {
        Seq::empty()
    } else {
        let rest = base64_values(cs.drop_last());
        match base64_value(cs.last()) {
            Some(v) => rest.push(v),
            None => rest,
        }
    }
}

/// The bytes a group of up to four 6-bit values stands for: one byte from
/// two values, two from three, three from four.
pub open spec fn base64_group_bytes(v: Seq<u8>) -> Seq<u8> {
    let b0 = seq![((v[0] << 2u8) | (v[1] >> 4u8)) as u8];
    let b1 = if v.len() > 2 { seq![((v[1] << 4u8) | (v[2] >> 2u8)) as u8] } else { Seq::empty() };
    let b2 = if v.len() > 3 { seq![((v[2] << 6u8) | v[3]) as u8] } else { Seq::empty() };
    b0 + b1 + b2
}

/// Decode the groups of four characters starting at `i`, stopping at the
/// first group with fewer than two alphabet characters.
pub open spec fn base64_groups_from(cs: Seq<char>, i: int) -> Seq<u8>
    decreases cs.len() - i,
{
    if i < 0 || i >= cs.len() {
        Seq::empty()
    } else {
        let end = if i + 4 < cs.len() { i + 4 } else { cs.len() as int };
        let vals = base64_values(cs.subrange(i, end));
        if vals.len() < 2 {
            Seq::empty()
        } else if i + 4 < cs.len() {
            base64_group_bytes(vals) + base64_groups_from(cs, i + 4)
        } else {
            base64_group_bytes(vals)
        }
    }
}

/// `s` without its trailing `'='` characters.
pub open spec fn trim_padding(s: Seq<char>) -> Seq<char>
    decreases s.len(),
{
    if s.len() > 0 && s.last() == '=' { trim_padding(s.drop_last()) } else { s }
}

/// Lenient base64 decoding: trailing padding is dropped, the text is read
/// in groups of four characters, characters outside the alphabet are
/// skipped, and decoding stops at a group with fewer than two alphabet
/// characters.
pub open spec fn base64_decoded(input: Seq<char>) -> Seq<u8> {
    base64_groups_from(trim_padding(input), 0)
}

/// The standard base64 alphabet character for a 6-bit value.
pub open spec fn base64_char(v: u8) -> char {
    if v < 26 {
        (65 + v) as char
    } else if v < 52 {
        (97 + v - 26) as char
    } else if v < 62 {
        (48 + v - 52) as char
    } else if v == 62 {
        '+'
    } else {
        '/'
    }
}

/// Standard base64 encoding without padding: each group of three bytes
/// becomes four characters; a final group of one or two bytes becomes two
/// or three.
pub open spec fn base64_encoded(bytes: Seq<u8>) -> Seq<char>
    decreases bytes.len(),
{
    if bytes.len() == 0 {
        Seq::empty()
    } else if bytes.len() == 1 {
        seq![base64_char(bytes[0] >> 2u8), base64_char(((bytes[0] & 3u8) << 4u8) as u8)]
    } else if bytes.len() == 2 {
        seq![
            base64_char(bytes[0] >> 2u8),
            base64_char((((bytes[0] & 3u8) << 4u8) | (bytes[1] >> 4u8)) as u8),
            base64_char(((bytes[1] & 15u8) << 2u8) as u8),
        ]
    } else {
        seq![
            base64_char(bytes[0] >> 2u8),
            base64_char((((bytes[0] & 3u8) << 4u8) | (bytes[1] >> 4u8)) as u8),
            base64_char((((bytes[1] & 15u8) << 2u8) | (bytes[2] >> 6u8)) as u8),
            base64_char(bytes[2] & 63u8),
        ] + base64_encoded(bytes.skip(3))
    }
}

/// The `'='` padding that completes the encoding of `n` bytes to a multiple
/// of four characters.
pub open spec fn base64_padding(n: nat) -> Seq<char> {
    if n % 3 == 1 { seq!['=', '='] } else if n % 3 == 2 { seq!['='] } else { Seq::empty() }
}

proof fn lemma_base64_char_value(v: u8)
    requires
        v < 64,
    ensures
        base64_value(base64_char(v)) == Some(v),
        base64_char(v) != '=',
{
}

proof fn lemma_base64_group_values(v0: u8, v1: u8, v2: u8, v3: u8)
    requires
        v0 < 64,
        v1 < 64,
        v2 < 64,
        v3 < 64,
    ensures
        base64_values(seq![base64_char(v0), base64_char(v1)]) == seq![v0, v1],
        base64_values(seq![base64_char(v0), base64_char(v1), base64_char(v2)]) == seq![v0, v1, v2],
        base64_values(seq![base64_char(v0), base64_char(v1), base64_char(v2), base64_char(v3)]) == seq![v0, v1, v2, v3],
{
    reveal_with_fuel(base64_values, 5);
    lemma_base64_char_value(v0);
    lemma_base64_char_value(v1);
    lemma_base64_char_value(v2);
    lemma_base64_char_value(v3);
    let c2 = seq![base64_char(v0), base64_char(v1)];
    let c3 = seq![base64_char(v0), base64_char(v1), base64_char(v2)];
    let c4 = seq![base64_char(v0), base64_char(v1), base64_char(v2), base64_char(v3)];
    assert(c4.drop_last() =~= c3);
    assert(c3.drop_last() =~= c2);
    assert(c2.drop_last() =~= seq![base64_char(v0)]);
    assert(seq![base64_char(v0)].drop_last() =~= Seq::<char>::empty());
    assert(base64_values(seq![base64_char(v0)]) =~= seq![v0]);
    assert(base64_values(c2) =~= seq![v0, v1]);
    assert(base64_values(c3) =~= seq![v0, v1, v2]);
    assert(base64_values(c4) =~= seq![v0, v1, v2, v3]);
}

proof fn lemma_base64_groups_shift(p: Seq<char>, r: Seq<char>, i: int)
    requires
        0 <= i,
    ensures
        base64_groups_from(p + r, p.len() + i) == base64_groups_from(r, i),
    decreases r.len() - i,
{
    let pr = p + r;
    let j = p.len() + i;
    if i < r.len() {
        let end = if i + 4 < r.len() { i + 4 } else { r.len() as int };
        assert(pr.subrange(j, p.len() + end) =~= r.subrange(i, end));
        if i + 4 < r.len() {
            lemma_base64_groups_shift(p, r, i + 4);
        }
    }
}

proof fn lemma_base64_encoded_chars(bytes: Seq<u8>)
    ensures
        forall|k: int| 0 <= k < base64_encoded(bytes).len() ==> #[trigger] base64_encoded(bytes)[k] != '=',
        bytes.len() > 0 ==> base64_encoded(bytes).len() > 0,
    decreases bytes.len(),
{
    assert forall|v: u8| #[trigger] base64_char(v) != '=' by {
        if v < 26 {
            assert(base64_char(v) as u32 == 65 + v);
        } else if v < 52 {
            assert(base64_char(v) as u32 == 97 + v - 26);
        } else if v < 62 {
            assert(base64_char(v) as u32 == 48 + v - 52);
        }
    }
    if bytes.len() >= 3 {
        lemma_base64_encoded_chars(bytes.skip(3));
        let enc = base64_encoded(bytes);
        let rest = base64_encoded(bytes.skip(3));
        assert forall|k: int| 0 <= k < enc.len() implies #[trigger] enc[k] != '=' by {
            if k >= 4 {
                assert(enc[k] == rest[k - 4]);
            }
        }
    }
}

proof fn lemma_base64_decode_encoded(bytes: Seq<u8>)
    ensures
        base64_groups_from(base64_encoded(bytes), 0) == bytes,
    decreases bytes.len(),
{
    let enc = base64_encoded(bytes);
    if bytes.len() == 0 {
    } else {
        let b0 = bytes[0];
        let v0: u8 = b0 >> 2u8;
        assert(v0 < 64) by (bit_vector)
            requires
                v0 == b0 >> 2u8,
        ;
        if bytes.len() == 1 {
            let v1: u8 = ((b0 & 3u8) << 4u8) as u8;
            assert(v1 < 64 && ((v0 << 2u8) | (v1 >> 4u8)) as u8 == b0) by (bit_vector)
                requires
                    v0 == b0 >> 2u8,
                    v1 == ((b0 & 3u8) << 4u8) as u8,
            ;
            lemma_base64_group_values(v0, v1, 0, 0);
            assert(enc.subrange(0, 2) =~= enc);
            assert(base64_group_bytes(seq![v0, v1]) =~= bytes);
        } else {
            let b1 = bytes[1];
            let v1: u8 = (((b0 & 3u8) << 4u8) | (b1 >> 4u8)) as u8;
            assert(v1 < 64 && ((v0 << 2u8) | (v1 >> 4u8)) as u8 == b0) by (bit_vector)
                requires
                    v0 == b0 >> 2u8,
                    v1 == (((b0 & 3u8) << 4u8) | (b1 >> 4u8)) as u8,
            ;
            if bytes.len() == 2 {
                let v2: u8 = ((b1 & 15u8) << 2u8) as u8;
                assert(v2 < 64 && ((v1 << 4u8) | (v2 >> 2u8)) as u8 == b1) by (bit_vector)
                    requires
                        v1 == (((b0 & 3u8) << 4u8) | (b1 >> 4u8)) as u8,
                        v2 == ((b1 & 15u8) << 2u8) as u8,
                ;
                lemma_base64_group_values(v0, v1, v2, 0);
                assert(enc.subrange(0, 3) =~= enc);
                assert(base64_group_bytes(seq![v0, v1, v2]) =~= bytes);
            } else {
                let b2 = bytes[2];
                let v2: u8 = (((b1 & 15u8) << 2u8) | (b2 >> 6u8)) as u8;
                let v3: u8 = b2 & 63u8;
                assert(v2 < 64 && v3 < 64 && ((v1 << 4u8) | (v2 >> 2u8)) as u8 == b1
                    && ((v2 << 6u8) | v3) as u8 == b2) by (bit_vector)
                    requires
                        v1 == (((b0 & 3u8) << 4u8) | (b1 >> 4u8)) as u8,
                        v2 == (((b1 & 15u8) << 2u8) | (b2 >> 6u8)) as u8,
                        v3 == b2 & 63u8,
                ;
                lemma_base64_group_values(v0, v1, v2, v3);
                let g = seq![base64_char(v0), base64_char(v1), base64_char(v2), base64_char(v3)];
                let rest = base64_encoded(bytes.skip(3));
                assert(enc == g + rest);
                assert(enc.subrange(0, 4) =~= g);
                assert(base64_group_bytes(seq![v0, v1, v2, v3]) =~= bytes.take(3));
                lemma_base64_decode_encoded(bytes.skip(3));
                if rest.len() > 0 {
                    lemma_base64_groups_shift(g, rest, 0);
                } else {
                    assert(bytes.skip(3).len() == 0) by {
                        lemma_base64_encoded_chars(bytes.skip(3));
                    }
                }
                assert(bytes.take(3) + bytes.skip(3) =~= bytes);
            }
        }
    }
}

/// Decoding gives back the bytes that standard base64 encoding wrote, with
/// or without the `'='` padding.
pub proof fn lemma_base64_round_trip(bytes: Seq<u8>)
    ensures
        base64_decoded(base64_encoded(bytes)) == bytes,
        base64_decoded(base64_encoded(bytes) + base64_padding(bytes.len())) == bytes,
{
    let enc = base64_encoded(bytes);
    lemma_base64_encoded_chars(bytes);
    lemma_base64_decode_encoded(bytes);
    if enc.len() > 0 {
        assert(enc.last() != '=');
    }
    assert(trim_padding(enc) == enc);
    let pad = base64_padding(bytes.len());
    let one = enc + seq!['='];
    assert(one.last() == '=');
    assert(one.drop_last() =~= enc);
    assert(trim_padding(one) == enc);
    if pad.len() == 2 {
        assert((enc + pad).last() == '=');
        assert((enc + pad).drop_last() =~= one);
        assert(trim_padding(enc + pad) == enc);
    } else if pad.len() == 1 {
        assert(enc + pad =~= one);
    } else {
        assert(enc + pad =~= enc);
    }
}

fn base64_value_of(c: char) -> (v: Option<u8>)
    ensures
        v == base64_value(c),
{
    let u = c as u32;
    if 65 <= u && u <= 90 {
        Some((u - 65) as u8)
    } else if 97 <= u && u <= 122 {
        Some((u - 97 + 26) as u8)
    } else if 48 <= u && u <= 57 {
        Some((u - 48 + 52) as u8)
    } else if u == 43 {
        Some(62u8)
    } else if u == 47 {
        Some(63u8)
    } else {
        None
    }
}

/// Decode base64 text leniently (see [`base64_decoded`]); always `Some`.
pub fn base64_decode(input: &str) -> (bytes: Option<Vec<u8>>)
    ensures
        bytes matches Some(b) && b@ == base64_decoded(input@),
{
    let all = chars_of(input);
    let mut n = all.len();
    assert(all@.subrange(0, all@.len() as int) =~= all@);
    while n > 0 && all[n - 1] == '='
        invariant
            n <= all@.len(),
            all@ == input@,
            trim_padding(input@) == trim_padding(all@.subrange(0, n as int)),
        decreases n,
    {
        assert(all@.subrange(0, n as int).drop_last() =~= all@.subrange(0, n - 1));
        n = n - 1;
    }
    let ghost cs = all@.subrange(0, n as int);
    assert(trim_padding(input@) == cs);
    let mut out: Vec<u8> = Vec::new();
    let mut i: usize = 0;
    while i < n
        invariant
            n <= all@.len(),
            cs == all@.subrange(0, n as int),
            base64_decoded(input@) == out@ + base64_groups_from(cs, i as int),
        ensures
            base64_decoded(input@) == out@,
        decreases n - i,
    {
        let end = if n - i > 4 { i + 4 } else { n };
        let mut vals: Vec<u8> = Vec::new();
        let mut k: usize = i;
        assert(cs.subrange(i as int, i as int) =~= Seq::<char>::empty());
        while k < end
            invariant
                i <= k <= end <= n <= all@.len(),
                cs == all@.subrange(0, n as int),
                vals@ == base64_values(cs.subrange(i as int, k as int)),
            decreases end - k,
        {
            let v = base64_value_of(all[k]);
            let ghost prev = cs.subrange(i as int, k as int);
            assert(cs.subrange(i as int, k + 1).drop_last() =~= prev);
            assert(cs.subrange(i as int, k + 1).last() == all@[k as int]);
            if let Some(x) = v {
                vals.push(x);
            }
            k = k + 1;
        }
        if vals.len() < 2 {
            assert(base64_groups_from(cs, i as int) =~= Seq::<u8>::empty());
            assert(out@ + Seq::<u8>::empty() =~= out@);
            assert(base64_decoded(input@) == out@);
            break;
        }
        let ghost before = out@;
        out.push((vals[0] << 2u8) | (vals[1] >> 4u8));
        if vals.len() > 2 {
            out.push((vals[1] << 4u8) | (vals[2] >> 2u8));
        }
        if vals.len() > 3 {
            out.push((vals[2] << 6u8) | vals[3]);
        }
        assert(out@ =~= before + base64_group_bytes(vals@));
        proof {
            if end < n {
                assert(base64_groups_from(cs, i as int) == base64_group_bytes(vals@) + base64_groups_from(cs, end as int));
            } else {
                assert(base64_groups_from(cs, i as int) == base64_group_bytes(vals@));
                assert(base64_groups_from(cs, end as int) =~= Seq::<u8>::empty());
            }
            assert(out@ + base64_groups_from(cs, end as int) =~= before + base64_groups_from(cs, i as int));
        }
        i = end;
        if i >= n {
            assert(base64_groups_from(cs, i as int) =~= Seq::<u8>::empty());
            assert(out@ + Seq::<u8>::empty() =~= out@);
        }
    }
    Some(out)
}

// ----------------------------------------------------------------------
// Twilio Media Streams
// ----------------------------------------------------------------------

/// A decoded Twilio Media Streams message.
#[derive(Debug, Clone)]
pub enum TwilioMessage {
    /// Audio, decoded to 16 kHz PCM.
    Audio(Vec<i16>),
    /// The stream started; its id.
    Start { stream_sid: String },
    /// The stream stopped.
    Stop,
    /// Anything else.
    Other,
}

/// The abstract value of a [`TwilioMessage`].
pub enum TwilioMessageModel {
    Audio(Seq<i16>),
    Start(Seq<char>),
    Stop,
    Other,
}

impl View for TwilioMessage {
    type V = TwilioMessageModel;

    open spec fn view(&self) -> TwilioMessageModel {
        match self {
            TwilioMessage::Audio(pcm) => TwilioMessageModel::Audio(pcm@),
            TwilioMessage::Start { stream_sid } => TwilioMessageModel::Start(stream_sid@),
            TwilioMessage::Stop => TwilioMessageModel::Stop,
            TwilioMessage::Other => TwilioMessageModel::Other,
        }
    }
}

/// What a Twilio message means: by its string member `event`, `media`
/// carries base64 μ-law audio at 8 kHz in `media.payload` (decoded and
/// upsampled to 16 kHz), `start` carries `streamSid` (`"unknown"` when
/// missing), `stop` ends the stream; anything else, or text that is not a
/// JSON object, is `Other`. The `media` member is read by parsing its JSON
/// text again.
pub open spec fn twilio_message(text: Seq<char>) -> TwilioMessageModel {
    match json_object_members(text) {
        None => TwilioMessageModel::Other,
        Some(ms) => match member_text(ms, "event"@) {
            Some(event) => if event == "media"@ {
                match member_json(ms, "media"@) {
                    Some(media) => match json_object_members(media) {
                        Some(inner) => match member_text(inner, "payload"@) {
                            Some(payload) => TwilioMessageModel::Audio(mulaw_upsampled(base64_decoded(payload))),
                            None => TwilioMessageModel::Other,
                        },
                        None => TwilioMessageModel::Other,
                    },
                    None => TwilioMessageModel::Other,
                }
            } else if event == "start"@ {
                match member_text(ms, "streamSid"@) {
                    Some(sid) => TwilioMessageModel::Start(sid),
                    None => TwilioMessageModel::Start("unknown"@),
                }
            } else if event == "stop"@ {
                TwilioMessageModel::Stop
            } else {
                TwilioMessageModel::Other
            },
            None => TwilioMessageModel::Other,
        },
    }
}

fn media_audio(media_json: &str) -> (msg: TwilioMessage)
    ensures
        msg@ == match json_object_members(media_json@) {
            Some(inner) => match member_text(inner, "payload"@) {
                Some(payload) => TwilioMessageModel::Audio(mulaw_upsampled(base64_decoded(payload))),
                None => TwilioMessageModel::Other,
            },
            None => TwilioMessageModel::Other,
        },
{
    match parse_json_object(media_json) {
        Some(inner) => {
            let (payload, _) = find_member(&inner, "payload");
            match payload {
                Some(p) => match base64_decode(p.as_str()) {
                    Some(raw) => TwilioMessage::Audio(decode_mulaw_8k_to_16k(raw.as_slice())),
                    None => TwilioMessage::Other,
                },
                None => TwilioMessage::Other,
            }
        },
        None => TwilioMessage::Other,
    }
}

/// Decode one Twilio Media Streams text message.
pub fn parse_twilio_message(text: &str) -> (msg: TwilioMessage)
    ensures
        msg@ == twilio_message(text@),
{
    let members = match parse_json_object(text) {
        Some(ms) => ms,
        None => return TwilioMessage::Other,
    };
    let (event, _) = find_member(&members, "event");
    let event = match event {
        Some(e) => e,
        None => return TwilioMessage::Other,
    };
    let ev = chars_of(event.as_str());
    if chars_eq(ev.as_slice(), chars_of("media").as_slice()) {
        let (_, media) = find_member(&members, "media");
        match media {
            Some(m) => media_audio(m.as_str()),
            None => TwilioMessage::Other,
        }
    } else if chars_eq(ev.as_slice(), chars_of("start").as_slice()) {
        let (sid, _) = find_member(&members, "streamSid");
        match sid {
            Some(s) => TwilioMessage::Start { stream_sid: s },
            None => TwilioMessage::Start { stream_sid: String::from_str("unknown") },
        }
    } else if chars_eq(ev.as_slice(), chars_of("stop").as_slice()) {
        TwilioMessage::Stop
    } else {
        TwilioMessage::Other
    }
}

} // verus!
