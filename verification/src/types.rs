//! The records exchanged with the service.

use vstd::prelude::*;

verus! {

/// One turn of a conversation: who speaks, and what is said.
#[derive(Debug)]
pub struct Message {
    pub role: String,
    pub content: String,
}

/// The body of a complete, non-streamed answer.
#[derive(Debug)]
pub struct CompletionResponse {
    pub choices: Vec<Choice>,
}

/// One candidate completion of a non-streamed answer.
#[derive(Debug)]
pub struct Choice {
    pub message: Message,
}

/// The payload of one frame of a streamed answer.
#[derive(Debug)]
pub struct CompletionChunk {
    pub choices: Vec<ChunkChoice>,
}

/// One candidate's share of a streamed frame.
#[derive(Debug)]
pub struct ChunkChoice {
    pub delta: Delta,
    pub finish_reason: Option<String>,
}

/// The increment that a frame adds to a candidate.
#[derive(Debug)]
pub struct Delta {
    pub content: Option<String>,
}

/// The body of an embedding request.
#[derive(Debug)]
pub struct EmbeddingRequest {
    pub input: Vec<String>,
    pub model: String,
    pub encoding_format: String,
}

/// Token accounting reported with an embedding answer.
#[derive(Debug)]
pub struct Usage {
    pub prompt_tokens: usize,
    pub total_tokens: usize,
}

/// The characters of an optional text.
pub open spec fn text_of(text: Option<String>) -> Option<Seq<char>> {
    match text {
        Some(s) => Some(s@),
        None => None,
    }
}

/// The model of a [`Message`].
pub ghost struct MessageView {
    pub role: Seq<char>,
    pub content: Seq<char>,
}

/// The model of a [`Choice`].
pub ghost struct ChoiceView {
    pub message: MessageView,
}

/// The model of a [`CompletionResponse`].
pub ghost struct CompletionResponseView {
    pub choices: Seq<ChoiceView>,
}

/// The model of a [`Delta`].
pub ghost struct DeltaView {
    pub content: Option<Seq<char>>,
}

/// The model of a [`ChunkChoice`].
pub ghost struct ChunkChoiceView {
    pub delta: DeltaView,
    pub finish_reason: Option<Seq<char>>,
}

/// The model of a [`CompletionChunk`].
pub ghost struct CompletionChunkView {
    pub choices: Seq<ChunkChoiceView>,
}

impl View for Message {
    type V = MessageView;

    open spec fn view(&self) -> MessageView {
        MessageView { role: self.role@, content: self.content@ }
    }
}

impl View for Choice {
    type V = ChoiceView;

    open spec fn view(&self) -> ChoiceView {
        ChoiceView { message: self.message@ }
    }
}

/// The models of a list of choices.
pub open spec fn choice_views(choices: Seq<Choice>) -> Seq<ChoiceView> {
    Seq::new(choices.len(), |i: int| choices[i]@)
}

impl View for CompletionResponse {
    type V = CompletionResponseView;

    open spec fn view(&self) -> CompletionResponseView {
        CompletionResponseView { choices: choice_views(self.choices@) }
    }
}

impl View for Delta {
    type V = DeltaView;

    open spec fn view(&self) -> DeltaView {
        DeltaView { content: text_of(self.content) }
    }
}

impl View for ChunkChoice {
    type V = ChunkChoiceView;

    open spec fn view(&self) -> ChunkChoiceView {
        ChunkChoiceView { delta: self.delta@, finish_reason: text_of(self.finish_reason) }
    }
}

/// The models of a list of streamed choices.
pub open spec fn chunk_choice_views(choices: Seq<ChunkChoice>) -> Seq<ChunkChoiceView> {
    Seq::new(choices.len(), |i: int| choices[i]@)
}

impl View for CompletionChunk {
    type V = CompletionChunkView;

    open spec fn view(&self) -> CompletionChunkView {
        CompletionChunkView { choices: chunk_choice_views(self.choices@) }
    }
}

/// The encoding in which embeddings are always asked for.
pub const EMBEDDING_ENCODING: &'static str = "float";

impl EmbeddingRequest {
    /// The request for the embeddings of `input` by `model`.
    pub fn new(input: Vec<String>, model: String) -> (request: EmbeddingRequest)
        ensures
            request.input == input,
            request.model == model,
            request.encoding_format@ == EMBEDDING_ENCODING@,
    {
        EmbeddingRequest { input, model, encoding_format: EMBEDDING_ENCODING.to_owned() }
    }
}

} // verus!
