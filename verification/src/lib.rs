//! A client library for OpenAI-compatible completion and embedding services.
//!
//! The library holds everything that is decided about a request or an
//! answer, and proves it: how the base address is normalised ([`client`]),
//! how the records of the service are read from JSON ([`schema`]), what the
//! answer of a completion is ([`completion`]), and, above all, how a
//! streamed answer is reassembled from the chunks in which it arrives
//! ([`stream`], with the laws of the decoding in [`framing`]).
//!
//! Sending and receiving are left to the caller. JSON texts are parsed by
//! `serde_json`, and received bytes are decoded by the standard library;
//! both stand behind small trusted functions in [`json`] and [`text`].

pub mod client;
pub mod completion;
pub mod error;
pub mod framing;
pub mod json;
pub mod schema;
pub mod stream;
pub mod text;
pub mod types;

pub use client::OpenAI;
pub use error::{ApiError, ParseError, ShapeError};
pub use stream::StreamDecoder;
pub use types::{
    Choice, ChunkChoice, CompletionChunk, CompletionResponse, Delta, EmbeddingRequest, Message,
    Usage,
};
