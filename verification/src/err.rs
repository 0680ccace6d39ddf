use vstd::prelude::*;
use vstd::string::StringExecFns;

verus! {

/// The ways in which an operation of this crate fails.
#[derive(Debug)]
pub enum JWTError {
    /// The input is malformed at some layer: it is not base64, not UTF-8,
    /// not JSON, or holds a name that is not a URI. The text is the cause.
    ParseError(String),
    /// The input is well formed but does not have the expected shape: a
    /// repeated or missing claim, a wrong number of segments, a header
    /// without an algorithm.
    SchemaError,
    /// The input is well formed but asks for something this crate does not do.
    NotImplementedError,
}

/// A failure as a mathematical value: `JWTError` with its text taken as a
/// sequence of characters.
pub enum Failure {
    Parse(Seq<char>),
    Schema,
    NotImplemented,
}

impl View for JWTError {
    type V = Failure;

    open spec fn view(&self) -> Failure {
        match self {
            JWTError::ParseError(detail) => Failure::Parse(detail@),
            JWTError::SchemaError => Failure::Schema,
            JWTError::NotImplementedError => Failure::NotImplemented,
        }
    }
}

/// A result of this crate as a mathematical value: the view of what was
/// returned, or of the error.
pub open spec fn outcome<T: View>(r: Result<T, JWTError>) -> Result<T::V, Failure> {
    match r {
        Ok(value) => Ok(value@),
        Err(error) => Err(error@),
    }
}

impl Failure {
    /// The sentence that describes a failure to a reader.
    pub open spec fn message(self) -> Seq<char> {
        match self {
            Failure::Parse(detail) => "Invalid JSON, parsing failed with:\n"@ + detail,
            Failure::Schema => "Schema error!"@,
            Failure::NotImplemented => "Not implemented."@,
        }
    }
}

impl JWTError {
    /// The sentence that describes this error to a reader.
    pub fn message(&self) -> (out: String)
        ensures
            out@ == self@.message(),
    {
        match self {
            JWTError::ParseError(detail) => {
                String::from_str("Invalid JSON, parsing failed with:\n").concat(detail.as_str())
            },
            JWTError::SchemaError => String::from_str("Schema error!"),
            JWTError::NotImplementedError => String::from_str("Not implemented."),
        }
    }
}

} // verus!
