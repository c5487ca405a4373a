//! JSON text: strings and lists of strings.
use vstd::prelude::*;

use crate::numbers;
use crate::text;

verus! {

/// A character as it stands in a JSON string.
pub open spec fn json_char(c: char) -> Seq<char> {
    if c == '"' || c == '\\' {
        seq!['\\', c]
    } else if c == '\u{8}' {
        seq!['\\', 'b']
    } else if c == '\u{c}' {
        seq!['\\', 'f']
    } else if c == '\n' {
        seq!['\\', 'n']
    } else if c == '\r' {
        seq!['\\', 'r']
    } else if c == '\t' {
        seq!['\\', 't']
    } else if ' ' > c {
        seq!['\\', 'u', '0', '0'] + numbers::hex_digits(c as nat, 2)
    } else {
        seq![c]
    }
}

/// The text as it stands between the quotes of a JSON string.
pub open spec fn json_escaped(s: Seq<char>) -> Seq<char>
    decreases s.len(),
{
    if s.len() == 0 {
        Seq::empty()
    } else {
        json_escaped(s.drop_last()) + json_char(s.last())
    }
}

/// The text as a JSON string.
pub open spec fn json_string(s: Seq<char>) -> Seq<char> {
    seq!['"'] + json_escaped(s) + seq!['"']
}

/// The texts as a JSON list of strings.
pub open spec fn json_list(items: Seq<Seq<char>>) -> Seq<char> {
    seq!['['] + text::joined(items.map_values(|s: Seq<char>| json_string(s)), seq![',']) + seq![
        ']',
    ]
}

/// The strings that JSON text lists, where it is a list of strings.
pub uninterp spec fn json_list_read(s: Seq<char>) -> Option<Seq<Seq<char>>>;

/// `serde_json::to_string` of a string: quotes around it, and an escape for each quote,
/// backslash and control character below the blank. To write to memory does not fail.
#[verifier::external_body]
pub(crate) fn write_string(s: &str) -> (r: String)
    ensures
        r@ == json_string(s@),
{
    serde_json::to_string(s).unwrap_or_default()
}

/// `serde_json::to_string` of a list of strings: each as a JSON string, with commas between
/// them and brackets around them. `serde_json::from_str` reads the same list back from it. To
/// write to memory does not fail.
#[verifier::external_body]
pub(crate) fn write_list(list: &Vec<String>) -> (r: String)
    ensures
        r@ == json_list(text::views(list@)),
        json_list_read(r@) == Some(text::views(list@)),
{
    serde_json::to_string(list).unwrap_or_default()
}

/// `serde_json::from_str` into a list of strings: what it reads is a function of the text, and
/// is named [`json_list_read`].
#[verifier::external_body]
pub(crate) fn read_list(s: &str) -> (r: Option<Vec<String>>)
    ensures
        text::opt_views(r) == json_list_read(s@),
{
    serde_json::from_str::<Vec<String>>(s).ok()
}

} // verus!
