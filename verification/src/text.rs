//! Text: read from bytes, edited character by character, and set as the
//! lines of a log.

use vstd::prelude::*;
use vstd::string::StringExecFns;
use vstd::utf8::{decode_utf8, encode_scalar, encode_utf8, valid_utf8};

verus! {

/// The string that `String::from_utf8_lossy` makes of `bytes`: the text they
/// encode, with U+FFFD in place of what is not UTF-8.
pub uninterp spec fn utf8_lossy(bytes: Seq<u8>) -> Seq<char>;

/// Calls `std::str::from_utf8`. It accepts exactly the byte strings that are
/// well-formed UTF-8, and then gives the text that they encode.
#[verifier::external_body]
pub(crate) fn text_from_utf8(bytes: &[u8]) -> (res: Option<String>)
    ensures
        res is Some <==> valid_utf8(bytes@),
        res matches Some(text) ==> text@ == decode_utf8(bytes@),
{
    match std::str::from_utf8(bytes) {
        Ok(text) => Some(text.to_owned()),
        Err(_) => None,
    }
}

/// Calls `String::from_utf8_lossy`. It never fails, its result depends on
/// the bytes alone, and bytes that are well-formed UTF-8 come back as the
/// text that they encode.
#[verifier::external_body]
pub(crate) fn text_from_utf8_lossy(bytes: &[u8]) -> (res: String)
    ensures
        res@ == utf8_lossy(bytes@),
        valid_utf8(bytes@) ==> res@ == decode_utf8(bytes@),
{
    String::from_utf8_lossy(bytes).into_owned()
}

/// Calls `String::push`, which puts `c` at the end of `text`.
#[verifier::external_body]
pub(crate) fn push_char(text: &mut String, c: char)
    ensures
        final(text)@ == old(text)@.push(c),
{
    text.push(c)
}

/// Calls `String::pop`, which takes the last character off `text` and gives
/// it, or gives nothing where `text` is empty.
#[verifier::external_body]
pub(crate) fn pop_char(text: &mut String) -> (res: Option<char>)
    ensures
        old(text)@.len() == 0 ==> res is None && final(text)@ == old(text)@,
        old(text)@.len() > 0 ==> res == Some(old(text)@.last()) && final(text)@ == old(
            text,
        )@.drop_last(),
{
    text.pop()
}

/// A character at the end of a text adds its own bytes to the text's, and
/// those are at most four.
pub proof fn lemma_push_adds_bytes(text: Seq<char>, c: char)
    ensures
        encode_utf8(text.push(c)) == encode_utf8(text) + encode_scalar(c as u32),
        1 <= encode_scalar(c as u32).len() <= 4,
    decreases text.len(),
{
    if text.len() == 0 {
        assert(text.push(c).drop_first() =~= text);
        assert(encode_utf8(text.push(c)) =~= encode_utf8(text) + encode_scalar(c as u32));
    } else {
        lemma_push_adds_bytes(text.drop_first(), c);
        assert(text.push(c).drop_first() =~= text.drop_first().push(c));
        assert(encode_utf8(text.push(c)) =~= encode_utf8(text) + encode_scalar(c as u32));
    }
}

/// A text without its last character has fewer bytes.
pub proof fn lemma_drop_last_takes_bytes(text: Seq<char>)
    requires
        text.len() > 0,
    ensures
        encode_utf8(text.drop_last()).len() < encode_utf8(text).len(),
{
    lemma_push_adds_bytes(text.drop_last(), text.last());
    assert(text.drop_last().push(text.last()) =~= text);
}

/// A line of a chat's log: who said it, a colon and a space, and what was
/// said.
pub open spec fn chat_line(who: Seq<char>, said: Seq<char>) -> Seq<char> {
    who + ": "@ + said
}

/// Makes a line of a chat's log.
pub fn render_line(who: &str, said: &str) -> (line: String)
    ensures
        line@ == chat_line(who@, said@),
{
    let mut line = who.to_owned();
    line.append(": ");
    line.append(said);
    line
}

} // verus!
