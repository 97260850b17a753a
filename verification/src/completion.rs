//! Reading the answer of a completion that was not streamed.

use vstd::prelude::*;
use crate::error::{ApiError, ApiFault, ParseError, ParseFault};
use crate::json::{json_parse, parse, Json, JsonView};
use crate::schema::response_of;
use crate::stream::parsed_view;
use crate::types::{CompletionResponse, CompletionResponseView};

verus! {

/// The text of an answer: the content of its first choice. An answer
/// without choices has none.
pub open spec fn first_content(response: CompletionResponseView) -> Result<Seq<char>, ApiFault> {
    if response.choices.len() == 0 {
        Err(ApiFault::NoChoices)
    } else {
        Ok(response.choices[0].message.content)
    }
}

/// The text of the answer that a body holds, given the document the body
/// parsed to (`None` where it is not JSON).
pub open spec fn answer_of(doc: Option<JsonView>) -> Result<Seq<char>, ApiFault> {
    match doc {
        None => Err(ApiFault::Parse(ParseFault::Syntax)),
        Some(doc) => match response_of(doc) {
            Err(shape) => Err(ApiFault::Parse(ParseFault::Shape(shape))),
            Ok(response) => first_content(response),
        },
    }
}

/// The model of an answer's text, or of the failure to get it.
pub open spec fn answer_view(answer: Result<String, ApiError>) -> Result<Seq<char>, ApiFault> {
    match answer {
        Ok(text) => Ok(text@),
        Err(error) => Err(error@),
    }
}

impl CompletionResponse {
    /// The content of the first choice, or [`ApiError::NoChoices`] where
    /// the answer holds none.
    pub fn first_content(&self) -> (answer: Result<String, ApiError>)
        ensures
            answer_view(answer) == first_content(self@),
    {
        if self.choices.len() == 0 {
            Err(ApiError::NoChoices)
        } else {
            Ok(self.choices[0].message.content.clone())
        }
    }
}

/// The text of the answer in a body that has been parsed.
pub fn answer_from(parsed: Result<Json, serde_json::Error>) -> (answer: Result<String, ApiError>)
    ensures
        answer_view(answer) == answer_of(parsed_view(parsed)),
{
    match parsed {
        Err(error) => Err(ApiError::Parse(ParseError::Syntax(error))),
        Ok(doc) => match CompletionResponse::from_json(&doc) {
            Err(shape) => Err(ApiError::Parse(ParseError::Shape(shape))),
            Ok(response) => response.first_content(),
        },
    }
}

/// The text of the answer in the body of a response.
pub fn read_answer(body: &str) -> (answer: Result<String, ApiError>)
    ensures
        answer_view(answer) == answer_of(json_parse(body@)),
{
    answer_from(parse(body))
}

} // verus!
