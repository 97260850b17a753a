//! What can go wrong, as values a caller can branch on.

use vstd::prelude::*;

verus! {

/// Why a JSON document is not the record that was expected.
#[derive(Debug, Clone, Copy, PartialEq, Eq, Structural)]
pub enum ShapeError {
    /// A record is written as something other than an object.
    ExpectedObject,
    /// A list is written as something other than an array.
    ExpectedArray,
    /// A text is written as something other than a string.
    ExpectedText,
    /// An object lacks a member that the record must have.
    MissingField,
}

/// Why a body or a frame could not be read.
#[derive(Debug)]
pub enum ParseError {
    /// The text is not JSON.
    Syntax(serde_json::Error),
    /// The text is JSON, but not of the expected shape.
    Shape(ShapeError),
}

/// The failure of a call to the service.
#[derive(Debug)]
pub enum ApiError {
    /// The connection failed; the text is the transport's own report.
    Transport(String),
    /// The service answered with something that could not be read.
    Parse(ParseError),
    /// The service answered well-formedly, but with no choice at all.
    NoChoices,
}

/// The model of a [`ParseError`]: its kind, without the parser's diagnostics.
pub ghost enum ParseFault {
    Syntax,
    Shape(ShapeError),
}

/// The model of an [`ApiError`].
pub ghost enum ApiFault {
    Transport(Seq<char>),
    Parse(ParseFault),
    NoChoices,
}

impl View for ParseError {
    type V = ParseFault;

    open spec fn view(&self) -> ParseFault {
        match self {
            ParseError::Syntax(_) => ParseFault::Syntax,
            ParseError::Shape(shape) => ParseFault::Shape(*shape),
        }
    }
}

impl View for ApiError {
    type V = ApiFault;

    open spec fn view(&self) -> ApiFault {
        match self {
            ApiError::Transport(report) => ApiFault::Transport(report@),
            ApiError::Parse(error) => ApiFault::Parse(error@),
            ApiError::NoChoices => ApiFault::NoChoices,
        }
    }
}

/// What is reported when an answer holds no choice.
pub const NO_CHOICES_MESSAGE: &'static str = "No completion choices returned";

/// The text that describes a shape error.
pub open spec fn shape_message(shape: ShapeError) -> Seq<char> {
    match shape {
        ShapeError::ExpectedObject => "expected a JSON object"@,
        ShapeError::ExpectedArray => "expected a JSON array"@,
        ShapeError::ExpectedText => "expected a JSON string"@,
        ShapeError::MissingField => "missing field"@,
    }
}

/// Trusted: the `Display` form of a `serde_json::Error`. Nothing is claimed
/// of the text.
#[verifier::external_body]
fn syntax_message(error: &serde_json::Error) -> (text: String) {
    error.to_string()
}

impl ShapeError {
    /// A short description of the error.
    pub fn message(&self) -> (text: String)
        ensures
            text@ == shape_message(*self),
    {
        match self {
            ShapeError::ExpectedObject => "expected a JSON object".to_owned(),
            ShapeError::ExpectedArray => "expected a JSON array".to_owned(),
            ShapeError::ExpectedText => "expected a JSON string".to_owned(),
            ShapeError::MissingField => "missing field".to_owned(),
        }
    }
}

impl ApiError {
    /// A description of the failure. For a syntax error it is the parser's
    /// own diagnostic.
    pub fn message(&self) -> (text: String)
        ensures
            self@ matches ApiFault::Transport(report) ==> text@ == report,
            self@ matches ApiFault::Parse(ParseFault::Shape(shape)) ==> text@ == shape_message(
                shape,
            ),
            self@ is NoChoices ==> text@ == NO_CHOICES_MESSAGE@,
    {
        match self {
            ApiError::Transport(report) => report.clone(),
            ApiError::Parse(ParseError::Syntax(error)) => syntax_message(error),
            ApiError::Parse(ParseError::Shape(shape)) => shape.message(),
            ApiError::NoChoices => NO_CHOICES_MESSAGE.to_owned(),
        }
    }
}

} // verus!
