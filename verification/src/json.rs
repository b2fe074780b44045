//! Strings as JSON writes them.

use vstd::prelude::*;
use crate::agent::hex_digit;

verus! {

/// The error type of `serde_json`.
#[verifier::external_type_specification]
#[verifier::external_body]
pub struct ExJsonError(serde_json::Error);

/// A character as it stands in a JSON string: quotes, backslashes and control
/// characters are escaped, all others stand for themselves.
pub open spec fn json_char(c: char) -> Seq<char> {
    if c == '"' {
        seq!['\\', '"']
    } else if c == '\\' {
        seq!['\\', '\\']
    } else if c == '\u{8}' {
        seq!['\\', 'b']
    } else if c == '\u{9}' {
        seq!['\\', 't']
    } else if c == '\u{a}' {
        seq!['\\', 'n']
    } else if c == '\u{c}' {
        seq!['\\', 'f']
    } else if c == '\u{d}' {
        seq!['\\', 'r']
    } else if '\u{20}' > c {
        seq!['\\', 'u', '0', '0', hex_digit(c as nat / 16), hex_digit(c as nat % 16)]
    } else {
        seq![c]
    }
}

/// The characters of a text as they stand in a JSON string.
pub open spec fn json_chars(text: Seq<char>) -> Seq<char>
    decreases text.len(),
{
    if text.len() == 0 {
        Seq::empty()
    } else {
        json_chars(text.drop_last()) + json_char(text.last())
    }
}

/// A text as a JSON string.
pub open spec fn json_string(text: Seq<char>) -> Seq<char> {
    seq!['"'] + json_chars(text) + seq!['"']
}

/// Calls `serde_json::to_string` on a string. It writes into memory, which
/// does not fail, so the call succeeds; the text is the string in quotes,
/// escaped as `json_char` states.
#[verifier::external_body]
pub(crate) fn string_to_json(text: &str) -> (result: Result<String, serde_json::Error>)
    ensures
        result is Ok,
        result matches Ok(json) ==> json@ == json_string(text@),
{
    serde_json::to_string(text)
}

/// Strings as they stand in a JSON array, with commas between them.
pub open spec fn json_items(list: Seq<Seq<char>>) -> Seq<char>
    decreases list.len(),
{
    if list.len() == 0 {
        Seq::empty()
    } else if list.len() == 1 {
        json_string(list[0])
    } else {
        json_items(list.drop_last()) + seq![','] + json_string(list.last())
    }
}

/// A list of strings as a JSON array.
pub open spec fn json_array(list: Seq<Seq<char>>) -> Seq<char> {
    seq!['['] + json_items(list) + seq![']']
}

/// An optional string in JSON: null where there is none.
pub open spec fn json_nullable(text: Option<Seq<char>>) -> Seq<char> {
    match text {
        Some(text) => json_string(text),
        None => "null"@,
    }
}

/// A JSON string stands in quotes, and each character of the text adds its own
/// form at the end: most stand for themselves, and none is told by a quote or a
/// control character of its own.
pub proof fn lemma_json_string_one_by_one(text: Seq<char>, c: char)
    ensures
        json_string(Seq::empty()) == seq!['"', '"'],
        json_chars(text.push(c)) == json_chars(text) + json_char(c),
        json_string(text) == seq!['"'] + json_chars(text) + seq!['"'],
        c >= ' ' && c != '"' && c != '\\' ==> json_char(c) == seq![c],
        c < ' ' || c == '"' || c == '\\' ==> json_char(c).len() > 1 && json_char(c)[0] == '\\',
        json_char('"') == seq!['\\', '"'],
        json_char('\\') == seq!['\\', '\\'],
        json_char('\n') == seq!['\\', 'n'],
        json_char('\t') == seq!['\\', 't'],
        json_char('\r') == seq!['\\', 'r'],
        forall|i: int| 0 <= i < json_char(c).len() ==> #[trigger] json_char(c)[i] >= ' ',
{
    assert(text.push(c).drop_last() =~= text);
    assert(json_string(Seq::empty()) =~= seq!['"', '"']);
}

/// A JSON array stands in brackets. Without strings nothing stands in it, one
/// string stands in it alone, and one more behind a comma.
pub proof fn lemma_json_array_one_by_one(list: Seq<Seq<char>>, item: Seq<char>)
    ensures
        json_array(list) == seq!['['] + json_items(list) + seq![']'],
        json_items(Seq::empty()).len() == 0,
        json_items(seq![item]) == json_string(item),
        list.len() > 0 ==> json_items(list.push(item)) == json_items(list) + seq![',']
            + json_string(item),
        json_nullable(Some(item)) == json_string(item),
        json_nullable(None) == "null"@,
{
    assert(list.push(item).drop_last() =~= list);
}

} // verus!
