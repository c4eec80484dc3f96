//! Text at the library's edge: UTF-8 decoding of wire fields and the JSON
//! reading and writing that the handshake and the credential claims need.
//!
//! JSON is handled by `serde_json`. What it computes is not restated here:
//! each result has a name, a spec function without a body, and the library's
//! contracts speak of those names.

use vstd::prelude::*;
use vstd::utf8::*;

verus! {

/// A text without its trailing `'\0'` characters: how a zero-padded
/// fixed-width field reads.
pub open spec fn strip_trailing_nul(s: Seq<char>) -> Seq<char>
    decreases s.len(),
{
    if s.len() > 0 && s.last() == '\0' {
        strip_trailing_nul(s.drop_last())
    } else {
        s
    }
}

/// What `String::from_utf8_lossy` makes of a run of bytes: the decoded text,
/// with each malformed sequence replaced by U+FFFD.
pub uninterp spec fn utf8_lossy_text(bytes: Seq<u8>) -> Seq<char>;

/// The string value that `serde_json` finds under `key` when `text` is a JSON
/// object; `None` when `text` is no JSON object, has no such member, or the
/// member is no string.
pub uninterp spec fn json_text_field(text: Seq<char>, key: Seq<char>) -> Option<Seq<char>>;

/// The unsigned number that `serde_json` finds under `key` when `text` is a
/// JSON object; `None` when `text` is no JSON object, has no such member, or
/// the member is no number that fits 64 unsigned bits.
pub uninterp spec fn json_number_field(text: Seq<char>, key: Seq<char>) -> Option<u64>;

/// The number of items of the array that `serde_json` finds under `key`
/// when `text` is a JSON object; `None` when `text` is no JSON object, has
/// no such member, or the member is no array.
pub uninterp spec fn json_list_len(text: Seq<char>, key: Seq<char>) -> Option<usize>;

/// The string at place `index` of the array that `serde_json` finds under
/// `key` when `text` is a JSON object; `None` when there is no such array,
/// no such place, or the item is no string.
pub uninterp spec fn json_list_text(text: Seq<char>, key: Seq<char>, index: usize) -> Option<
    Seq<char>,
>;

/// The list of strings under `key` of a JSON object: the items of the array
/// there, if it is an array and all its items are strings.
pub open spec fn json_text_list_field(text: Seq<char>, key: Seq<char>) -> Option<Seq<Seq<char>>> {
    match json_list_len(text, key) {
        Some(n) => if forall|i: usize| i < n ==> json_list_text(text, key, i) is Some {
            Some(Seq::new(n as nat, |i: int| json_list_text(text, key, i as usize)->0))
        } else {
            None
        },
        None => None,
    }
}

/// The JSON string literal, quotes and escapes included, that `serde_json`
/// writes for a text.
pub uninterp spec fn json_quoted(s: Seq<char>) -> Option<Seq<char>>;

/// Decodes bytes with `String::from_utf8`, which succeeds exactly on
/// well-formed UTF-8 and then holds the characters that the bytes encode.
#[verifier::external_body]
pub(crate) fn string_from_utf8(bytes: Vec<u8>) -> (r: Option<String>)
    ensures
        r is Some <==> valid_utf8(bytes@),
        r is Some ==> r->0@ == decode_utf8(bytes@),
{
    match String::from_utf8(bytes) {
        Ok(s) => Some(s),
        Err(_) => None,
    }
}

/// Decodes bytes with `String::from_utf8_lossy`. On well-formed UTF-8 the
/// result is the decoded text; otherwise it is the text that the function
/// documents, with replacement characters, known here only by name.
#[verifier::external_body]
pub(crate) fn string_from_utf8_lossy(bytes: &[u8]) -> (r: String)
    ensures
        r@ == utf8_lossy_text(bytes@),
        valid_utf8(bytes@) ==> r@ == decode_utf8(bytes@),
{
    String::from_utf8_lossy(bytes).into_owned()
}

/// Trims with `str::trim_end_matches('\0')`, which removes every trailing
/// occurrence of the character.
#[verifier::external_body]
pub(crate) fn trim_trailing_nul(s: &str) -> (r: String)
    ensures
        r@ == strip_trailing_nul(s@),
{
    s.trim_end_matches('\0').to_string()
}

/// Parses `text` with `serde_json::from_str` into a `serde_json::Value` and
/// hands out the string member `key` of the object, if there is one.
#[verifier::external_body]
pub(crate) fn json_string_field(text: &str, key: &str) -> (r: Option<String>)
    ensures
        r is Some <==> json_text_field(text@, key@) is Some,
        r is Some ==> r->0@ == json_text_field(text@, key@)->0,
{
    match serde_json::from_str::<serde_json::Value>(text) {
        Ok(serde_json::Value::Object(members)) => match members.get(key) {
            Some(serde_json::Value::String(s)) => Some(s.clone()),
            _ => None,
        },
        _ => None,
    }
}

/// Parses `text` with `serde_json::from_str` into a `serde_json::Value` and
/// hands out the member `key` of the object as an unsigned number, if it is
/// one (`serde_json::Number::as_u64`).
#[verifier::external_body]
pub(crate) fn json_u64_field(text: &str, key: &str) -> (r: Option<u64>)
    ensures
        r == json_number_field(text@, key@),
{
    match serde_json::from_str::<serde_json::Value>(text) {
        Ok(serde_json::Value::Object(members)) => match members.get(key) {
            Some(serde_json::Value::Number(n)) => n.as_u64(),
            _ => None,
        },
        _ => None,
    }
}

/// Parses `text` with `serde_json::from_str` into a `serde_json::Value` and
/// hands out the number of items of the array member `key` of the object,
/// if there is one.
#[verifier::external_body]
pub(crate) fn json_array_len(text: &str, key: &str) -> (r: Option<usize>)
    ensures
        r == json_list_len(text@, key@),
{
    match serde_json::from_str::<serde_json::Value>(text) {
        Ok(serde_json::Value::Object(members)) => match members.get(key) {
            Some(serde_json::Value::Array(items)) => Some(items.len()),
            _ => None,
        },
        _ => None,
    }
}

/// Parses `text` with `serde_json::from_str` into a `serde_json::Value` and
/// hands out the string at place `index` of the array member `key` of the
/// object, if there is one.
#[verifier::external_body]
pub(crate) fn json_array_string(text: &str, key: &str, index: usize) -> (r: Option<String>)
    ensures
        r is Some <==> json_list_text(text@, key@, index) is Some,
        r is Some ==> r->0@ == json_list_text(text@, key@, index)->0,
{
    match serde_json::from_str::<serde_json::Value>(text) {
        Ok(serde_json::Value::Object(members)) => match members.get(key) {
            Some(serde_json::Value::Array(items)) => match items.get(index) {
                Some(serde_json::Value::String(s)) => Some(s.clone()),
                _ => None,
            },
            _ => None,
        },
        _ => None,
    }
}

/// Reads the list of strings under `key` of a JSON object.
pub fn json_string_list_field(text: &str, key: &str) -> (r: Option<Vec<String>>)
    ensures
        r is Some <==> json_text_list_field(text@, key@) is Some,
        r is Some ==> r->0.deep_view() == json_text_list_field(text@, key@)->0,
{
    let n = match json_array_len(text, key) {
        Some(n) => n,
        None => {
            return None;
        },
    };
    let mut items: Vec<String> = Vec::new();
    let mut i: usize = 0;
    while i < n
        invariant
            i <= n,
            json_list_len(text@, key@) == Some(n),
            items@.len() == i,
            forall|j: usize| j < i ==> json_list_text(text@, key@, j) is Some,
            forall|j: int|
                0 <= j < i ==> (#[trigger] items@[j])@ == json_list_text(
                    text@,
                    key@,
                    j as usize,
                )->0,
        decreases n - i,
    {
        match json_array_string(text, key, i) {
            Some(item) => {
                items.push(item);
            },
            None => {
                return None;
            },
        }
        i += 1;
    }
    proof {
        assert(items.deep_view() =~= json_text_list_field(text@, key@)->0);
    }
    Some(items)
}

/// Writes a text as a JSON string literal with `serde_json::to_string`.
#[verifier::external_body]
pub(crate) fn json_quote(s: &str) -> (r: Option<String>)
    ensures
        r is Some <==> json_quoted(s@) is Some,
        r is Some ==> r->0@ == json_quoted(s@)->0,
{
    match serde_json::to_string(s) {
        Ok(quoted) => Some(quoted),
        Err(_) => None,
    }
}

/// Whether two texts are the same, decided on their UTF-8 bytes.
pub fn text_eq(a: &str, b: &str) -> (r: bool)
    ensures
        r == (a@ == b@),
{
    broadcast use encode_utf8_decode_utf8;

    let x = a.as_bytes();
    let y = b.as_bytes();
    if x.len() != y.len() {
        return false;
    }
    let mut i: usize = 0;
    while i < x.len()
        invariant
            i <= x@.len(),
            x@.len() == y@.len(),
            x@ == encode_utf8(a@),
            y@ == encode_utf8(b@),
            forall|j: int| 0 <= j < i ==> x@[j] == y@[j],
        decreases x@.len() - i,
    {
        if x[i] != y[i] {
            return false;
        }
        i += 1;
    }
    assert(x@ =~= y@);
    assert(decode_utf8(encode_utf8(a@)) == decode_utf8(encode_utf8(b@)));
    true
}

/// A run of `'\0'` characters.
pub open spec fn nul_run(k: nat) -> Seq<char> {
    Seq::new(k, |i: int| '\0')
}

/// The encoding of two texts, one behind the other, is the encoding of the
/// first followed by that of the second.
pub proof fn lemma_encode_concat(a: Seq<char>, b: Seq<char>)
    ensures
        encode_utf8(a + b) == encode_utf8(a) + encode_utf8(b),
    decreases a.len(),
{
    if a.len() == 0 {
        assert(a + b =~= b);
        assert(encode_utf8(a) + encode_utf8(b) =~= encode_utf8(b));
    } else {
        lemma_encode_concat(a.drop_first(), b);
        assert((a + b).drop_first() =~= a.drop_first() + b);
        assert((a + b)[0] == a[0]);
        assert(encode_utf8(a + b) =~= encode_utf8(a) + encode_utf8(b));
    }
}

/// A run of `'\0'` characters is encoded as as many zero bytes.
pub proof fn lemma_encode_nul_run(k: nat)
    ensures
        encode_utf8(nul_run(k)) == Seq::new(k, |i: int| 0u8),
{
    is_ascii_chars_encode_utf8(nul_run(k));
    assert(encode_utf8(nul_run(k)) =~= Seq::new(k, |i: int| 0u8));
}

/// Stripping takes a run of `'\0'` characters off the end of a text that
/// does not itself end in one.
pub proof fn lemma_strip_nul_run(s: Seq<char>, k: nat)
    requires
        s.len() == 0 || s.last() != '\0',
    ensures
        strip_trailing_nul(s + nul_run(k)) == s,
    decreases k,
{
    if k == 0 {
        assert(s + nul_run(k) =~= s);
    } else {
        let all = s + nul_run(k);
        assert(all.last() == '\0');
        assert(all.drop_last() =~= s + nul_run((k - 1) as nat));
        lemma_strip_nul_run(s, (k - 1) as nat);
    }
}

} // verus!
