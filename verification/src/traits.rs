use crate::err::JWTError;
use vstd::prelude::*;

verus! {

/// A value that is written as JSON text, plain or in base64, and read back
/// from either.
pub trait JsonSerializable: Sized {
    /// The plain text of a value.
    spec fn text(&self) -> Seq<char>;

    /// The base64 text of a value.
    spec fn text_b64(&self) -> Seq<char>;

    /// Whether the base64 text of a value is short enough to be held in
    /// memory.
    spec fn fits_b64(&self) -> bool;

    /// Writes the value as plain text.
    fn encode_str(&self) -> (out: String)
        ensures
            out@ == self.text(),
    ;

    /// Writes the value as base64 text. The text must be short enough for
    /// its base64 to be held in memory; `b64::text_fits` tests that of a
    /// text, and `b64::lemma_short_text_fits` shows it of a short one.
    fn encode_b64(&self) -> (out: String)
        requires
            self.fits_b64(),
        ensures
            out@ == self.text_b64(),
    ;

    /// Reads a value from plain text.
    fn decode_str(input: &str) -> Result<Self, JWTError>;

    /// Reads a value from base64 text.
    fn decode_b64(input: &str) -> Result<Self, JWTError>;
}

} // verus!
