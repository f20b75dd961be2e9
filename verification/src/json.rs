//! The JSON the library reads and writes, through `serde_json`.
use vstd::prelude::*;

verus! {

/// One member of a JSON object: its key, its value when that value is a JSON
/// string, and its value written back as compact JSON.
pub struct JsonMember {
    pub key: String,
    pub text: Option<String>,
    pub json: String,
}

/// The abstract value of a [`JsonMember`].
pub struct JsonMemberModel {
    pub key: Seq<char>,
    pub text: Option<Seq<char>>,
    pub json: Seq<char>,
}

impl View for JsonMember {
    type V = JsonMemberModel;

    open spec fn view(&self) -> JsonMemberModel {
        JsonMemberModel {
            key: self.key@,
            text: match self.text {
                Some(t) => Some(t@),
                None => None,
            },
            json: self.json@,
        }
    }
}

/// The members of the JSON object that `text` holds, in key order, or `None`
/// when `text` is not valid JSON or holds something other than an object.
pub uninterp spec fn json_object_members(text: Seq<char>) -> Option<Seq<JsonMemberModel>>;

/// The string that `text` holds when it is a JSON string literal (with
/// surrounding whitespace allowed), or `None` when it is not valid JSON or
/// holds something other than a string.
pub uninterp spec fn json_string_value(text: Seq<char>) -> Option<Seq<char>>;

/// The lowercase hexadecimal digit for `d` in `0..16`.
pub open spec fn hex_digit(d: int) -> char {
    if d < 10 { (48 + d) as char } else { (87 + d) as char }
}

/// How one character is written inside a JSON string: `"` and `\` behind a
/// backslash; backspace, form feed, newline, carriage return and tab as
/// `\b \f \n \r \t`; other characters below U+0020 as `\u00xx` in
/// lowercase hex; every other character as itself.
pub open spec fn escaped_char(c: char) -> Seq<char> {
    let u = c as u32;
    if c == '"' {
        seq!['\\', '"']
    } else if c == '\\' {
        seq!['\\', '\\']
    } else if u == 0x08 {
        seq!['\\', 'b']
    } else if u == 0x0C {
        seq!['\\', 'f']
    } else if u == 0x0A {
        seq!['\\', 'n']
    } else if u == 0x0D {
        seq!['\\', 'r']
    } else if u == 0x09 {
        seq!['\\', 't']
    } else if u < 0x20 {
        seq!['\\', 'u', '0', '0', hex_digit(u as int / 16), hex_digit(u as int % 16)]
    } else {
        seq![c]
    }
}

/// The characters of `text`, each written as [`escaped_char`] writes it.
pub open spec fn escaped(text: Seq<char>) -> Seq<char>
    decreases text.len(),
{
    if text.len() == 0 {
        Seq::empty()
    } else {
        escaped(text.drop_last()) + escaped_char(text.last())
    }
}

/// `text` as a JSON string literal: in double quotes, escaped.
pub open spec fn json_quoted(text: Seq<char>) -> Seq<char> {
    seq!['"'] + escaped(text) + seq!['"']
}

/// Parses `text` with `serde_json::from_str` into a `serde_json::Value` and,
/// when that value is an object, lists its members: the key, `Value::as_str`
/// of the value, and the value written back with `Value::to_string`.
/// The contract names that list and adds that its keys are distinct (the
/// object is a map, `serde_json::Map`); it states nothing about how JSON is
/// parsed or written.
#[verifier::external_body]
pub(crate) fn parse_json_object(text: &str) -> (members: Option<Vec<JsonMember>>)
    ensures
        members is Some <==> json_object_members(text@) is Some,
        members matches Some(ms) ==> ms@.map_values(|m: JsonMember| m@) == json_object_members(text@)->0,
        members matches Some(ms) ==> forall|i: int, j: int|
            0 <= i < j < ms@.len() ==> ms@[i].key@ != ms@[j].key@,
{
    match serde_json::from_str::<serde_json::Value>(text) {
        Ok(serde_json::Value::Object(map)) => Some(
            map.iter().map(|(k, v)| JsonMember {
                key: k.clone(),
                text: v.as_str().map(|s| s.to_string()),
                json: v.to_string(),
            }).collect(),
        ),
        _ => None,
    }
}

/// Parses `text` with `serde_json::from_str` into a `serde_json::Value` and,
/// when that value is a string, returns it. The contract names the result
/// and states nothing about how JSON strings are parsed.
#[verifier::external_body]
pub(crate) fn parse_json_string(text: &str) -> (value: Option<String>)
    ensures
        value matches Some(v) ==> json_string_value(text@) == Some(v@),
        value is None ==> json_string_value(text@) is None,
{
    match serde_json::from_str::<serde_json::Value>(text) {
        Ok(serde_json::Value::String(s)) => Some(s),
        _ => None,
    }
}

/// `serde_json::to_string` of a string: the JSON string literal for `text`,
/// escaped as `format_escaped_str` does with its `ESCAPE` table (see
/// [`json_quoted`]). Serializing a `str` cannot fail.
#[verifier::external_body]
pub(crate) fn quote_json(text: &str) -> (quoted: String)
    ensures
        quoted@ == json_quoted(text@),
{
    serde_json::to_string(text).unwrap_or_default()
}

/// The string value of the member with key `key`, if the object has that
/// member and its value is a JSON string.
pub open spec fn member_text(members: Seq<JsonMemberModel>, key: Seq<char>) -> Option<Seq<char>>
    decreases members.len(),
{
    if members.len() == 0 {
        None
    } else if members[0].key == key {
        members[0].text
    } else {
        member_text(members.drop_first(), key)
    }
}

/// The compact JSON of the member with key `key`, if the object has one.
pub open spec fn member_json(members: Seq<JsonMemberModel>, key: Seq<char>) -> Option<Seq<char>>
    decreases members.len(),
{
    if members.len() == 0 {
        None
    } else if members[0].key == key {
        Some(members[0].json)
    } else {
        member_json(members.drop_first(), key)
    }
}

/// Look up the member with key `key`: its string value and its JSON.
pub(crate) fn find_member(members: &Vec<JsonMember>, key: &str) -> (found: (Option<String>, Option<String>))
    ensures
        found.0 matches Some(t) ==> member_text(members@.map_values(|m: JsonMember| m@), key@) == Some(t@),
        found.0 is None ==> member_text(members@.map_values(|m: JsonMember| m@), key@) is None,
        found.1 matches Some(j) ==> member_json(members@.map_values(|m: JsonMember| m@), key@) == Some(j@),
        found.1 is None ==> member_json(members@.map_values(|m: JsonMember| m@), key@) is None,
{
    let k = crate::text::chars_of(key);
    let ghost all = members@.map_values(|m: JsonMember| m@);
    let mut i: usize = 0;
    assert(all.subrange(0, all.len() as int) =~= all);
    while i < members.len()
        invariant
            all == members@.map_values(|m: JsonMember| m@),
            k@ == key@,
            i <= members@.len(),
            member_text(all, key@) == member_text(all.subrange(i as int, all.len() as int), key@),
            member_json(all, key@) == member_json(all.subrange(i as int, all.len() as int), key@),
        decreases members@.len() - i,
    {
        let m = &members[i];
        let mk = crate::text::chars_of(m.key.as_str());
        let rest = Ghost(all.subrange(i as int, all.len() as int));
        assert(rest@[0] == m@);
        if crate::text::chars_eq(mk.as_slice(), k.as_slice()) {
            let t = match &m.text {
                Some(t) => Some(t.clone()),
                None => None,
            };
            return (t, Some(m.json.clone()));
        }
        assert(rest@.drop_first() =~= all.subrange(i + 1, all.len() as int));
        i = i + 1;
    }
    (None, None)
}

} // verus!
