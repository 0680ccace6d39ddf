use vstd::prelude::*;

verus! {

/// What `url::Url::parse` makes of a text: where the text is a URL, the
/// serialization that the parsed URL reports (`Url::as_str`); where it is
/// not, the message of the parser's error.
pub uninterp spec fn uri_outcome(text: Seq<char>) -> Result<Seq<char>, Seq<char>>;

/// A result of two strings, each taken as a sequence of characters.
pub open spec fn text_outcome(r: Result<String, String>) -> Result<Seq<char>, Seq<char>> {
    match r {
        Ok(text) => Ok(text@),
        Err(cause) => Err(cause@),
    }
}

/// `url::Url::parse`, with the URL that it returns turned into its
/// serialization and the error into its message. The outcome depends on the
/// text alone.
#[verifier::external_body]
pub(crate) fn parse_uri(text: &str) -> (r: Result<String, String>)
    ensures
        text_outcome(r) == uri_outcome(text@),
{
    match url::Url::parse(text) {
        Ok(uri) => Ok(String::from(uri.as_str())),
        Err(cause) => Err(format!("{}", cause)),
    }
}

} // verus!
