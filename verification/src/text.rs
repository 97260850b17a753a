//! Text helpers: decoding received bytes and matching literal prefixes.

use vstd::prelude::*;
use vstd::utf8::*;

verus! {

/// What lossy decoding makes of bytes that are not valid UTF-8: the text in
/// which every malformed sequence is replaced by U+FFFD.
pub uninterp spec fn lossy_text(bytes: Seq<u8>) -> Seq<char>;

/// The text that received bytes stand for. Valid UTF-8 decodes to the
/// characters it encodes; anything else decodes lossily.
pub open spec fn decoded_text(bytes: Seq<u8>) -> Seq<char> {
    if valid_utf8(bytes) {
        decode_utf8(bytes)
    } else {
        lossy_text(bytes)
    }
}

/// The bytes that write ASCII text.
pub open spec fn ascii_bytes(text: Seq<char>) -> Seq<u8> {
    Seq::new(text.len(), |i: int| text[i] as u8)
}

/// Trusted: `String::from_utf8_lossy`. It never fails; on valid UTF-8 it
/// returns the encoded text unchanged, and otherwise a text that depends on
/// the bytes alone.
#[verifier::external_body]
pub(crate) fn decode_lossy(bytes: &[u8]) -> (text: String)
    ensures
        text@ == (if valid_utf8(bytes@) {
            decode_utf8(bytes@)
        } else {
            lossy_text(bytes@)
        }),
{
    String::from_utf8_lossy(bytes).into_owned()
}

/// Trusted: `str::strip_prefix` with a string pattern. It returns what
/// follows `prefix` when `text` starts with it, and `None` when it does not.
#[verifier::external_body]
pub(crate) fn strip_prefix<'a>(text: &'a str, prefix: &str) -> (rest: Option<&'a str>)
    ensures
        rest matches Some(tail) ==> prefix@.is_prefix_of(text@) && tail@ == text@.skip(
            prefix@.len() as int,
        ),
        rest is None ==> !prefix@.is_prefix_of(text@),
{
    text.strip_prefix(prefix)
}

/// Whether two texts hold the same characters.
pub fn same_text(a: &str, b: &str) -> (same: bool)
    ensures
        same == (a@ == b@),
{
    match strip_prefix(a, b) {
        Some(rest) => {
            let same = rest.is_empty();
            proof {
                if same {
                    assert(a@ =~= a@.subrange(0, b@.len() as int));
                }
            }
            same
        },
        None => {
            proof {
                if a@ == b@ {
                    assert(b@ =~= a@.subrange(0, b@.len() as int));
                }
            }
            false
        },
    }
}

/// ASCII text decodes to itself.
pub proof fn lemma_ascii_decodes(text: Seq<char>)
    requires
        is_ascii_chars(text),
    ensures
        decoded_text(ascii_bytes(text)) == text,
{
    is_ascii_chars_encode_utf8(text);
    assert(ascii_bytes(text) =~= encode_utf8(text));
    encode_utf8_valid_utf8(text);
    encode_utf8_decode_utf8(text);
}

} // verus!
