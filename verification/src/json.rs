//! The JSON text of a group file: a list of strings, written and read with
//! serde_json.
use vstd::prelude::*;

verus! {

/// serde_json's error type, carried through opaquely.
#[verifier::external_type_specification]
#[verifier::external_body]
pub struct ExJsonError(serde_json::Error);

/// The lower-case hexadecimal digit for `d` (`0 <= d < 16`).
pub open spec fn hex_digit(d: int) -> char {
    if d < 10 {
        (48 + d) as char
    } else {
        (87 + d) as char
    }
}

/// How a character stands inside a JSON string: quote and backslash are
/// escaped with a backslash, the control characters below U+0020 by their
/// short escape or as `\u00XX`, and every other character as itself.
pub open spec fn escaped_char(c: char) -> Seq<char> {
    let u = c as u32;
    if c == '"' {
        seq!['\\', '"']
    } else if c == '\\' {
        seq!['\\', '\\']
    } else if u == 0x08 {
        seq!['\\', 'b']
    } else if u == 0x09 {
        seq!['\\', 't']
    } else if u == 0x0a {
        seq!['\\', 'n']
    } else if u == 0x0c {
        seq!['\\', 'f']
    } else if u == 0x0d {
        seq!['\\', 'r']
    } else if u < 0x20 {
        seq!['\\', 'u', '0', '0', hex_digit((u / 16) as int), hex_digit((u % 16) as int)]
    } else {
        seq![c]
    }
}

/// The characters of `s`, each escaped.
pub open spec fn escaped(s: Seq<char>) -> Seq<char>
    decreases s.len(),
{
    if s.len() == 0 {
        Seq::empty()
    } else {
        escaped(s.drop_last()) + escaped_char(s.last())
    }
}

/// `s` as a JSON string.
pub open spec fn quoted(s: Seq<char>) -> Seq<char> {
    seq!['"'] + escaped(s) + seq!['"']
}

/// The elements of a non-empty pretty JSON list: each on a line of its
/// own, indented by two spaces, separated by commas.
pub open spec fn pretty_items(items: Seq<Seq<char>>) -> Seq<char>
    decreases items.len(),
{
    if items.len() == 0 {
        Seq::empty()
    } else {
        let separator = if items.len() == 1 {
            seq!['\n']
        } else {
            seq![',', '\n']
        };
        pretty_items(items.drop_last()) + separator + seq![' ', ' '] + quoted(items.last())
    }
}

/// The text `serde_json::to_string_pretty` writes for a list of strings:
/// `[]` when it is empty, else the elements between `[` and a line `]`.
pub open spec fn pretty_json_strings(items: Seq<Seq<char>>) -> Seq<char> {
    if items.len() == 0 {
        seq!['[', ']']
    } else {
        seq!['['] + pretty_items(items) + seq!['\n', ']']
    }
}

/// The list of strings `serde_json::from_str::<Vec<String>>` reads from a
/// text, or `None` where it reports an error.
pub uninterp spec fn json_string_list(text: Seq<char>) -> Option<Seq<Seq<char>>>;

/// Calls `serde_json::to_string_pretty` on a list of strings. Trusted: on
/// success the text is the one its pretty formatter writes for these
/// strings, as `pretty_json_strings` spells it out, and reading it back
/// with `serde_json::from_str` gives the same strings. It succeeds: a
/// list of strings written into a `Vec<u8>` meets no error in serde_json's
/// serializer.
#[verifier::external_body]
pub(crate) fn to_pretty_json(items: &Vec<String>) -> (r: Result<String, serde_json::Error>)
    ensures
        r is Ok,
        r matches Ok(text) ==> text@ == pretty_json_strings(items.deep_view()),
        r matches Ok(text) ==> json_string_list(text@) == Some(items.deep_view()),
{
    serde_json::to_string_pretty(items)
}

/// Calls `serde_json::from_str::<Vec<String>>`. Trusted: the result is the
/// list of strings that function reads from `text`, and an error comes
/// back exactly where it reads none.
#[verifier::external_body]
pub(crate) fn from_json(text: &str) -> (r: Result<Vec<String>, serde_json::Error>)
    ensures
        match r {
            Ok(items) => json_string_list(text@) == Some(items.deep_view()),
            Err(_) => json_string_list(text@) is None,
        },
{
    serde_json::from_str(text)
}

} // verus!
