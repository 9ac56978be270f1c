//! Lists of strings as JSON text, written and read with `serde_json`.
use vstd::prelude::*;
use crate::text::joined;

verus! {

/// A lower-case hexadecimal digit.
pub open spec fn hex_digit(d: int) -> char {
    if d < 10 {
        (d + 48) as char
    } else {
        (d + 87) as char
    }
}

/// How one character appears inside a JSON string: quote and backslash
/// escaped, the usual short escapes for backspace, tab, line feed, form
/// feed and carriage return, `\u00XX` for the other control characters,
/// and every other character as itself.
pub open spec fn json_escaped_char(c: char) -> Seq<char> {
    if c == '"' {
        seq!['\\', '"']
    } else if c == '\\' {
        seq!['\\', '\\']
    } else if c == '\u{8}' {
        seq!['\\', 'b']
    } else if c == '\t' {
        seq!['\\', 't']
    } else if c == '\n' {
        seq!['\\', 'n']
    } else if c == '\u{c}' {
        seq!['\\', 'f']
    } else if c == '\r' {
        seq!['\\', 'r']
    } else if (c as int) < 0x20 {
        seq!['\\', 'u', '0', '0', hex_digit(c as int / 16), hex_digit(c as int % 16)]
    } else {
        seq![c]
    }
}

/// The escaped contents of a JSON string.
pub open spec fn json_escaped(s: Seq<char>) -> Seq<char>
    decreases s.len(),
{
    if s.len() == 0 {
        Seq::empty()
    } else {
        json_escaped(s.drop_last()) + json_escaped_char(s.last())
    }
}

/// A JSON string literal.
pub open spec fn json_string(s: Seq<char>) -> Seq<char> {
    seq!['"'] + json_escaped(s) + seq!['"']
}

/// A compact JSON array of strings: `["a","b"]`.
pub open spec fn json_string_array(items: Seq<Seq<char>>) -> Seq<char> {
    seq!['['] + joined(items.map_values(|s: Seq<char>| json_string(s)), seq![',']) + seq![']']
}

/// What `serde_json` reads out of `text` as a list of strings; `None` when
/// the text is not a JSON array of strings.
pub uninterp spec fn parsed_string_array(text: Seq<char>) -> Option<Seq<Seq<char>>>;

/// `serde_json::to_string` on a list of strings. The contract claims the
/// compact form that serde_json writes (`[`, items separated by `,`, `]`)
/// and its string escapes (its `ESCAPE` table and `write_char_escape`);
/// serializing a list of strings cannot fail.
#[verifier::external_body]
fn to_json_array(items: &Vec<String>) -> (text: String)
    ensures
        text@ == json_string_array(items@.map_values(|s: String| s@)),
{
    serde_json::to_string(items).unwrap()
}

/// `serde_json::from_str::<Vec<String>>`, `None` on a parse error. The
/// contract names the result and claims one fact: the text that
/// `to_json_array` writes for a list reads back as that list.
#[verifier::external_body]
fn from_json_array(text: &str) -> (items: Option<Vec<String>>)
    ensures
        items.deep_view() == parsed_string_array(text@),
        forall|l: Seq<Seq<char>>| #[trigger] json_string_array(l) == text@ ==> items.deep_view() == Some(l),
{
    serde_json::from_str::<Vec<String>>(text).ok()
}

/// The list as compact JSON text.
pub fn encode_list(items: &Vec<String>) -> (text: String)
    ensures
        text@ == json_string_array(items@.map_values(|s: String| s@)),
{
    to_json_array(items)
}

/// The list of strings that `text` holds as JSON, if it holds one.
pub fn decode_list(text: &str) -> (items: Option<Vec<String>>)
    ensures
        items.deep_view() == parsed_string_array(text@),
        forall|l: Seq<Seq<char>>| #[trigger] json_string_array(l) == text@ ==> items.deep_view() == Some(l),
{
    from_json_array(text)
}

} // verus!
