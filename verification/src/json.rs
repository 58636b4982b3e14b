//! Texts in JSON.
use crate::comments::option_text;
use crate::text;
use serde_json::Value;
use vstd::prelude::*;

verus! {

/// A hexadecimal digit in lower case.
pub open spec fn hex_digit(n: nat) -> char {
    if n < 10 {
        (48 + n) as char
    } else {
        (87 + n) as char
    }
}

/// A character inside a JSON string: quote, backslash and control characters are escaped.
pub open spec fn escaped(c: char) -> Seq<char> {
    if c == '"' {
        seq!['\\', '"']
    } else if c == '\\' {
        seq!['\\', '\\']
    } else if c == '\n' {
        seq!['\\', 'n']
    } else if c == '\r' {
        seq!['\\', 'r']
    } else if c == '\t' {
        seq!['\\', 't']
    } else if c as u32 == 8 {
        seq!['\\', 'b']
    } else if c as u32 == 12 {
        seq!['\\', 'f']
    } else if (c as u32) < 32 {
        seq!['\\', 'u', '0', '0', hex_digit((c as u32 / 16) as nat), hex_digit((c as u32 % 16) as nat)]
    } else {
        seq![c]
    }
}

/// The characters of a text, each as it stands inside a JSON string.
pub open spec fn escapes(s: Seq<char>) -> Seq<char>
    decreases s.len(),
{
    if s.len() == 0 {
        Seq::empty()
    } else {
        escapes(s.drop_last()) + escaped(s.last())
    }
}

/// A text as a JSON string.
pub open spec fn string_json(s: Seq<char>) -> Seq<char> {
    seq!['"'] + escapes(s) + seq!['"']
}

/// Writes a text as a JSON string by `serde_json::to_string`, which quotes it and escapes quotes,
/// backslashes and control characters; it does not fail on a text.
#[verifier::external_body]
pub(crate) fn write_string(s: &str) -> (r: String)
    ensures
        r@ == string_json(s@),
{
    serde_json::to_string(s).expect("a text has a JSON form")
}

/// The text is JSON.
pub uninterp spec fn is_json(text: Seq<char>) -> bool;

/// The text under a key of the JSON object.
pub uninterp spec fn member_text(text: Seq<char>, key: Seq<char>) -> Option<Seq<char>>;

/// The truth value under a key of the JSON object.
pub uninterp spec fn member_truth(text: Seq<char>, key: Seq<char>) -> Option<bool>;

/// The length of the array under a key of the JSON object.
pub uninterp spec fn array_length(text: Seq<char>, key: Seq<char>) -> Option<usize>;

/// The text in a field of an element of the array under a key of the JSON object.
pub uninterp spec fn element_text(text: Seq<char>, key: Seq<char>, i: usize, field: Seq<char>) -> Option<
    Seq<char>,
>;

/// The names of the members of the object under a key of the JSON object.
pub uninterp spec fn member_names(text: Seq<u8>, key: Seq<char>) -> Option<Seq<Seq<char>>>;

/// The whole number under a key of a member of the object under a key of the JSON object.
pub uninterp spec fn member_number(
    text: Seq<u8>,
    outer: Seq<char>,
    name: Seq<char>,
    key: Seq<char>,
) -> Option<u64>;

/// Whether the text is JSON: `serde_json::from_str` reads it as a `serde_json::Value`.
#[verifier::external_body]
pub(crate) fn reads_as_json(text: &str) -> (r: bool)
    ensures
        r == is_json(text@),
{
    serde_json::from_str::<Value>(text).is_ok()
}

/// The text under a key, by `serde_json::from_str`, `Value::get` and `Value::as_str`; there is none
/// where the text is no JSON object, the key is missing, or something else stands under it.
#[verifier::external_body]
pub(crate) fn text_under(text: &str, key: &str) -> (r: Option<String>)
    ensures
        option_text(r) == member_text(text@, key@),
{
    let value = serde_json::from_str::<Value>(text).ok()?;
    value.get(key)?.as_str().map(str::to_owned)
}

/// The truth value under a key, by `serde_json::from_str`, `Value::get` and `Value::as_bool`; there
/// is none where the text is no JSON object, the key is missing, or something else stands under it.
#[verifier::external_body]
pub(crate) fn truth_under(text: &str, key: &str) -> (r: Option<bool>)
    ensures
        r == member_truth(text@, key@),
{
    let value = serde_json::from_str::<Value>(text).ok()?;
    value.get(key)?.as_bool()
}

/// The length of the array under a key, by `serde_json::from_str`, `Value::get` and
/// `Value::as_array`; there is none where no array stands there.
#[verifier::external_body]
pub(crate) fn length_under(text: &str, key: &str) -> (r: Option<usize>)
    ensures
        r == array_length(text@, key@),
{
    let value = serde_json::from_str::<Value>(text).ok()?;
    value.get(key)?.as_array().map(Vec::len)
}

/// The text in a field of an element of the array under a key, by `serde_json::from_str`,
/// `Value::get` and `Value::as_str`; there is none where no text stands there.
#[verifier::external_body]
pub(crate) fn text_of_element(text: &str, key: &str, i: usize, field: &str) -> (r: Option<String>)
    ensures
        option_text(r) == element_text(text@, key@, i, field@),
{
    let value = serde_json::from_str::<Value>(text).ok()?;
    value.get(key)?.get(i)?.get(field)?.as_str().map(str::to_owned)
}

/// The names of the members of the object under a key, by `serde_json::from_slice`, `Value::get`,
/// `Value::as_object` and `serde_json::Map::keys`, in the order in which `keys` gives them; there
/// are none where no object stands there.
#[verifier::external_body]
pub(crate) fn names_under(text: &Vec<u8>, key: &str) -> (r: Option<Vec<String>>)
    ensures
        match r {
            Some(v) => member_names(text@, key@) == Some(text::texts(v@)),
            None => member_names(text@, key@) is None,
        },
{
    let value = serde_json::from_slice::<Value>(text).ok()?;
    Some(value.get(key)?.as_object()?.keys().cloned().collect())
}

/// The whole number under a key of a member of the object under a key, by `serde_json::from_slice`,
/// `Value::get` and `Value::as_u64`; there is none where no such number stands there.
#[verifier::external_body]
pub(crate) fn number_under(text: &Vec<u8>, outer: &str, name: &str, key: &str) -> (r: Option<u64>)
    ensures
        r == member_number(text@, outer@, name@, key@),
{
    let value = serde_json::from_slice::<Value>(text).ok()?;
    value.get(outer)?.get(name)?.get(key)?.as_u64()
}

proof fn lemma_escaped(c: char, i: int)
    requires
        0 <= i < escaped(c).len(),
    ensures
        escaped(c)[i] as u32 >= 32,
{
    if (c as u32) < 32 {
        assert(48 <= hex_digit((c as u32 / 16) as nat) as u32);
        assert(48 <= hex_digit((c as u32 % 16) as nat) as u32);
    }
}

/// Inside a JSON string no control character stands.
pub proof fn lemma_no_control(s: Seq<char>)
    ensures
        forall|i: int| 0 <= i < escapes(s).len() ==> (#[trigger] escapes(s)[i]) as u32 >= 32,
    decreases s.len(),
{
    if s.len() > 0 {
        lemma_no_control(s.drop_last());
        let before = escapes(s.drop_last());
        let last = escaped(s.last());
        assert forall|i: int| 0 <= i < escapes(s).len() implies (
        #[trigger] escapes(s)[i]) as u32 >= 32 by {
            if i < before.len() {
                assert(escapes(s)[i] == before[i]);
            } else {
                lemma_escaped(s.last(), i - before.len());
                assert(escapes(s)[i] == last[i - before.len()]);
            }
        }
    }
}

} // verus!
