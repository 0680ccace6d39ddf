use crate::err::{outcome, Failure, JWTError};
use vstd::prelude::*;
use vstd::string::{StringExecFns, StringSliceAdditionalSpecFns};
use vstd::utf8::{decode_utf8, encode_utf8, encode_utf8_decode_utf8, valid_utf8};

verus! {

/// The text that `base64::encode` writes for a sequence of bytes: base64
/// in the standard alphabet, with padding.
pub uninterp spec fn base64_text(bytes: Seq<u8>) -> Seq<char>;

/// What `base64::decode` makes of a text: the bytes that it stands for in
/// the standard alphabet, or the message of the decoder's error.
pub uninterp spec fn base64_outcome(text: Seq<char>) -> Result<Seq<u8>, Seq<char>>;

/// The message of the error that `String::from_utf8` gives for bytes that
/// are not UTF-8.
pub uninterp spec fn utf8_failure(bytes: Seq<u8>) -> Seq<char>;

/// The length of the padded base64 text of `n` bytes: four characters for
/// every three bytes, the last group filled up.
pub open spec fn padded_len(n: nat) -> nat {
    (n + 2) / 3 * 4
}

/// Whether the base64 text of a text's UTF-8 bytes is short enough to be
/// held in memory, where nothing is longer than `isize::MAX` bytes.
pub open spec fn base64_fits(text: Seq<char>) -> bool {
    padded_len(encode_utf8(text).len()) <= isize::MAX
}

/// The outcome of decoding, as a mathematical value.
pub open spec fn bytes_outcome(r: Result<Vec<u8>, String>) -> Result<Seq<u8>, Seq<char>> {
    match r {
        Ok(bytes) => Ok(bytes@),
        Err(cause) => Err(cause@),
    }
}

/// The text that decoded bytes stand for: the bytes read as UTF-8. A
/// failure to decode, and bytes that are not UTF-8, are parse failures that
/// carry the cause.
pub open spec fn text_of_bytes(decoded: Result<Seq<u8>, Seq<char>>) -> Result<Seq<char>, Failure> {
    match decoded {
        Err(cause) => Err(Failure::Parse(cause)),
        Ok(bytes) => if valid_utf8(bytes) {
            Ok(decode_utf8(bytes))
        } else {
            Err(Failure::Parse(utf8_failure(bytes)))
        },
    }
}

/// The text that a base64 text stands for. A text of more than
/// `isize::MAX` bytes is not decoded: it is a parse failure.
pub open spec fn decoded_text(input: Seq<char>) -> Result<Seq<char>, Failure> {
    if encode_utf8(input).len() > isize::MAX {
        Err(Failure::Parse("base64 text is too long"@))
    } else {
        text_of_bytes(base64_outcome(input))
    }
}

/// `base64::encode`. It computes the length of its result before writing
/// it and panics where that length cannot be allocated, so the bytes must
/// be few enough.
#[verifier::external_body]
fn base64_encode(bytes: &[u8]) -> (text: String)
    requires
        padded_len(bytes@.len()) <= isize::MAX,
    ensures
        text@ == base64_text(bytes@),
{
    base64::encode(bytes)
}

/// `base64::decode`, the error turned into its message. It allocates room
/// for three bytes to every four of the text, rounded up, and panics where
/// that cannot be allocated, so the text must not be longer than an
/// allocation can be.
#[verifier::external_body]
fn base64_decode(text: &str) -> (r: Result<Vec<u8>, String>)
    requires
        text.spec_bytes().len() <= isize::MAX,
    ensures
        bytes_outcome(r) == base64_outcome(text@),
{
    match base64::decode(text) {
        Ok(bytes) => Ok(bytes),
        Err(cause) => Err(format!("{}", cause)),
    }
}

/// `String::from_utf8` of the standard library, the error turned into its
/// message. It succeeds on UTF-8 and on nothing else, and the string that
/// it makes has the given bytes.
#[verifier::external_body]
fn string_from_utf8(bytes: Vec<u8>) -> (r: Result<String, String>)
    ensures
        match r {
            Ok(text) => valid_utf8(bytes@) && encode_utf8(text@) == bytes@,
            Err(cause) => !valid_utf8(bytes@) && cause@ == utf8_failure(bytes@),
        },
{
    match String::from_utf8(bytes) {
        Ok(text) => Ok(text),
        Err(cause) => Err(format!("{}", cause)),
    }
}

/// A text has at most four bytes of UTF-8 to each character.
pub proof fn lemma_utf8_len(text: Seq<char>)
    ensures
        encode_utf8(text).len() <= 4 * text.len(),
    decreases text.len(),
{
    if text.len() > 0 {
        lemma_utf8_len(text.drop_first());
    }
}

/// The base64 text of a text of up to a hundred million characters can be
/// held in memory on every machine.
pub proof fn lemma_short_text_fits(text: Seq<char>)
    requires
        text.len() <= 100_000_000,
    ensures
        base64_fits(text),
{
    lemma_utf8_len(text);
}

/// Whether the base64 text of a text can be held in memory.
pub fn text_fits(text: &str) -> (fits: bool)
    ensures
        fits == base64_fits(text@),
{
    let n = text.as_bytes().len();
    let groups = if n % 3 == 0 {
        n / 3
    } else {
        n / 3 + 1
    };
    groups <= isize::MAX as usize / 4
}

/// The base64 text of the UTF-8 bytes of a text.
pub fn encode_text(text: &str) -> (out: String)
    requires
        base64_fits(text@),
    ensures
        out@ == base64_text(encode_utf8(text@)),
{
    base64_encode(text.as_bytes())
}

/// The text that decoded bytes stand for.
pub fn text_from_decoded(decoded: Result<Vec<u8>, String>) -> (r: Result<String, JWTError>)
    ensures
        outcome(r) == text_of_bytes(bytes_outcome(decoded)),
{
    match decoded {
        Err(cause) => Err(JWTError::ParseError(cause)),
        Ok(bytes) => {
            match string_from_utf8(bytes) {
                Ok(text) => {
                    proof {
                        encode_utf8_decode_utf8(text@);
                    }
                    Ok(text)
                },
                Err(cause) => Err(JWTError::ParseError(cause)),
            }
        },
    }
}

/// The text that a base64 text stands for: the text is decoded and the
/// bytes are read as UTF-8.
pub fn decode_text(input: &str) -> (r: Result<String, JWTError>)
    ensures
        outcome(r) == decoded_text(input@),
{
    if input.as_bytes().len() > isize::MAX as usize {
        Err(JWTError::ParseError(String::from_str("base64 text is too long")))
    } else {
        text_from_decoded(base64_decode(input))
    }
}

} // verus!
