use crate::b64::{base64_text, decode_text, decoded_text, encode_text};
use crate::err::{Failure, JWTError};
use crate::json::{json_member_outcome, parse_member, Member, MemberView};
use crate::text::same_text;
use vstd::prelude::*;
use vstd::string::StringExecFns;
use vstd::utf8::{encode_utf8, is_ascii_chars, is_ascii_chars_encode_utf8};

verus! {

/// The media type of a token, where the header names one.
#[derive(Debug, Clone, Copy, PartialEq, Eq, Structural)]
pub enum Typ {
    Unset,
    JWT,
}

/// The algorithm that protects a token. `Unsecured` is the algorithm
/// `none`, which protects nothing. An algorithm that signs is a further
/// variant, with its name in `alg_name` and `alg_of_name`.
#[derive(Debug, Clone, Copy, PartialEq, Eq, Structural)]
#[non_exhaustive]
pub enum Alg {
    Unsecured,
}

/// The content type of a token, where the header names one.
#[derive(Debug, Clone, Copy, PartialEq, Eq, Structural)]
pub enum Cty {
    Unset,
    JWT,
}

/// The header of a token.
#[derive(Debug, Clone, Copy, PartialEq, Eq, Structural)]
pub struct JWTHeader {
    pub typ: Typ,
    pub cty: Cty,
    pub alg: Alg,
}

/// The name under which a header states an algorithm.
pub open spec fn alg_name(alg: Alg) -> Seq<char> {
    match alg {
        Alg::Unsecured => "none"@,
    }
}

/// The algorithm that a name stands for, where this crate has it.
pub open spec fn alg_of_name(name: Seq<char>) -> Option<Alg> {
    if name == "none"@ {
        Some(Alg::Unsecured)
    } else {
        None
    }
}

/// The text of a header: a JSON object whose one member is the algorithm.
pub open spec fn header_text(header: JWTHeader) -> Seq<char> {
    "{\"alg\": \""@ + alg_name(header.alg) + "\"}"@
}

/// The header that the `alg` member of a JSON document stands for. Without
/// the member there is no header: a schema failure. A member that names no
/// algorithm of this crate is not implemented. The two type hints are
/// never read: they are unset.
pub open spec fn header_of_member(member: MemberView) -> Result<JWTHeader, Failure> {
    match member {
        MemberView::Absent => Err(Failure::Schema),
        MemberView::Text(name) => match alg_of_name(name) {
            Some(alg) => Ok(JWTHeader { typ: Typ::Unset, cty: Cty::Unset, alg }),
            None => Err(Failure::NotImplemented),
        },
        MemberView::Other => Err(Failure::NotImplemented),
    }
}

/// The header that a JSON text stands for. A text that is not JSON is a
/// parse failure that carries the parser's message.
pub open spec fn header_of_text(text: Seq<char>) -> Result<JWTHeader, Failure> {
    match json_member_outcome(text, "alg"@) {
        Err(cause) => Err(Failure::Parse(cause)),
        Ok(member) => header_of_member(member),
    }
}

/// The header that a base64 text stands for: the text is decoded, the
/// bytes are read as UTF-8, and the header is read from that text.
pub open spec fn header_of_b64(text: Seq<char>) -> Result<JWTHeader, Failure> {
    match decoded_text(text) {
        Err(failure) => Err(failure),
        Ok(plain) => header_of_text(plain),
    }
}

/// The header of a result, or its failure.
pub open spec fn header_outcome(r: Result<JWTHeader, JWTError>) -> Result<JWTHeader, Failure> {
    match r {
        Ok(header) => Ok(header),
        Err(error) => Err(error@),
    }
}

/// The text of a header is short, so its base64 text can be written.
pub proof fn lemma_header_text_is_short(header: JWTHeader)
    ensures
        header_text(header).len() == 15,
        encode_utf8(header_text(header)).len() == 15,
{
    reveal_strlit("{\"alg\": \"");
    reveal_strlit("none");
    reveal_strlit("\"}");
    let text = header_text(header);
    assert(text.len() == 15);
    assert(is_ascii_chars(text));
    is_ascii_chars_encode_utf8(text);
}

impl Alg {
    /// The name under which a header states the algorithm.
    pub fn name(&self) -> (name: &'static str)
        ensures
            name@ == alg_name(*self),
    {
        match self {
            Alg::Unsecured => "none",
        }
    }

    /// The algorithm that a name stands for, where this crate has it.
    pub fn from_name(name: &str) -> (alg: Option<Alg>)
        ensures
            alg == alg_of_name(name@),
    {
        if same_text(name, "none") {
            Some(Alg::Unsecured)
        } else {
            None
        }
    }
}

impl JWTHeader {
    /// The header that the `alg` member of a JSON document stands for.
    pub fn from_alg_member(member: Member) -> (r: Result<JWTHeader, JWTError>)
        ensures
            header_outcome(r) == header_of_member(member@),
    {
        match member {
            Member::Absent => Err(JWTError::SchemaError),
            Member::Text(name) => match Alg::from_name(name.as_str()) {
                Some(alg) => Ok(JWTHeader { alg, cty: Cty::Unset, typ: Typ::Unset }),
                None => Err(JWTError::NotImplementedError),
            },
            Member::Other => Err(JWTError::NotImplementedError),
        }
    }

    /// Writes the header as JSON text. The algorithm is the one member
    /// that is written.
    pub fn encode_str(&self) -> (out: String)
        ensures
            out@ == header_text(*self),
    {
        let mut out = String::from_str("{\"alg\": \"");
        out.append(self.alg.name());
        out.append("\"}");
        out
    }

    /// Writes the header as the base64 text of its JSON text.
    pub fn encode_b64(&self) -> (out: String)
        ensures
            out@ == base64_text(encode_utf8(header_text(*self))),
    {
        proof {
            lemma_header_text_is_short(*self);
        }
        encode_text(self.encode_str().as_str())
    }

    /// Reads a header from the base64 text of its JSON text.
    pub fn decode_b64(input: &str) -> (r: Result<JWTHeader, JWTError>)
        ensures
            header_outcome(r) == header_of_b64(input@),
    {
        match decode_text(input) {
            Ok(plain) => JWTHeader::decode_str(plain.as_str()),
            Err(error) => Err(error),
        }
    }

    /// Reads a header from JSON text. A text that is not JSON is a parse
    /// error. A document without an `alg` member, or with `null` there, is
    /// a schema error. An `alg` that names no algorithm of this crate is
    /// not implemented.
    pub fn decode_str(input: &str) -> (r: Result<JWTHeader, JWTError>)
        ensures
            header_outcome(r) == header_of_text(input@),
    {
        match parse_member(input, "alg") {
            Err(cause) => Err(JWTError::ParseError(cause)),
            Ok(member) => JWTHeader::from_alg_member(member),
        }
    }
}

} // verus!
