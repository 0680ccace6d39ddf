use vstd::prelude::*;

verus! {

/// Whether a character is a hexadecimal digit in lower case.
pub open spec fn is_lower_hex(c: char) -> bool {
    ('0' <= c && c <= '9') || ('a' <= c && c <= 'f')
}

/// Whether a text has the form in which a random UUID is written:
/// thirty-six characters, hyphens after the eighth, twelfth, sixteenth
/// and twentieth digit, and hexadecimal digits in lower case elsewhere, of
/// which the version digit is `4` and the variant digit one of `8`, `9`,
/// `a`, `b`.
pub open spec fn is_uuid_text(text: Seq<char>) -> bool {
    &&& text.len() == 36
    &&& forall|i: int|
        0 <= i < 36 ==> if i == 8 || i == 13 || i == 18 || i == 23 {
            text[i] == '-'
        } else {
            is_lower_hex(#[trigger] text[i])
        }
    &&& text[14] == '4'
    &&& (text[19] == '8' || text[19] == '9' || text[19] == 'a' || text[19] == 'b')
}

/// `uuid::Uuid::new_v4`, written out by the UUID's `Display`. The digits
/// are random: each call gives its own, and only the shape is known. The
/// call ends the program where the system hands out no random bytes.
#[verifier::external_body]
pub(crate) fn random_uuid() -> (text: String)
    ensures
        is_uuid_text(text@),
{
    format!("{}", uuid::Uuid::new_v4())
}

} // verus!
