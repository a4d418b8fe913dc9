//! The failures that the pipeline reports.

use vstd::prelude::*;
use vstd::string::StringExecFns;

verus! {

/// A failure of one request, or of one region of it.
#[derive(Clone, Debug, PartialEq, Eq)]
pub enum Error {
    /// A network session failed, or its output does not have the shape that
    /// the pipeline reads. Fatal to the request.
    Inference(String),
    /// The tokenizer could not turn token ids into text. Confined to one region.
    Tokenizer(String),
    /// A region of the heat-map could not be turned into a box. Fatal to the
    /// request.
    PostProcessing(String),
    /// An image could not be encoded.
    Image(String),
    /// Anything else.
    Other(String),
}

impl Error {
    /// The text that the failure carries.
    pub open spec fn detail(&self) -> Seq<char> {
        match self {
            Error::Inference(s) => s@,
            Error::Tokenizer(s) => s@,
            Error::PostProcessing(s) => s@,
            Error::Image(s) => s@,
            Error::Other(s) => s@,
        }
    }

    /// What precedes the detail in the message shown to the user.
    pub open spec fn prefix(&self) -> Seq<char> {
        match self {
            Error::Inference(_) => "Inference error: "@,
            Error::Tokenizer(_) => "Tokenizer error: "@,
            Error::PostProcessing(_) => "Post-processing error: "@,
            Error::Image(_) => "Image processing error: "@,
            Error::Other(_) => ""@,
        }
    }

    /// Whether the failure ends the whole request. A tokenizer failure does
    /// not: it leaves one box without text.
    pub open spec fn is_fatal(&self) -> bool {
        !(self is Tokenizer)
    }

    /// Computes [`Error::is_fatal`].
    pub fn fatal(&self) -> (out: bool)
        ensures
            out == self.is_fatal(),
    {
        match self {
            Error::Tokenizer(_) => false,
            _ => true,
        }
    }

    /// The message shown to the user: the kind of failure, then its detail.
    pub fn message(&self) -> (out: String)
        ensures
            out@ == self.prefix() + self.detail(),
    {
        match self {
            Error::Inference(s) => String::from_str("Inference error: ").concat(s.as_str()),
            Error::Tokenizer(s) => String::from_str("Tokenizer error: ").concat(s.as_str()),
            Error::PostProcessing(s) => String::from_str("Post-processing error: ").concat(
                s.as_str(),
            ),
            Error::Image(s) => String::from_str("Image processing error: ").concat(s.as_str()),
            Error::Other(s) => String::from_str("").concat(s.as_str()),
        }
    }
}

impl From<String> for Error {
    /// A bare message is a failure of no particular kind.
    fn from(s: String) -> (out: Error)
        ensures
            out == Error::Other(s),
    {
        Error::Other(s)
    }
}

impl vstd::std_specs::convert::FromSpecImpl<String> for Error {
    open spec fn obeys_from_spec() -> bool {
        true
    }

    open spec fn from_spec(s: String) -> Error {
        Error::Other(s)
    }
}

impl From<&str> for Error {
    /// A bare message is a failure of no particular kind.
    fn from(s: &str) -> (out: Error)
        ensures
            out matches Error::Other(message) && message@ == s@,
    {
        Error::Other(String::from_str(s))
    }
}

impl vstd::std_specs::convert::FromSpecImpl<&str> for Error {
    open spec fn obeys_from_spec() -> bool {
        false
    }

    open spec fn from_spec(s: &str) -> Error {
        arbitrary()
    }
}

} // verus!
