//! Streaming chat-completion adapter for an OpenAI-compatible HTTP API.
//!
//! The verified core covers the request payload builder, the SSE stream
//! collector with its delta accumulator, the response normalizer and error
//! taxonomy, the model-directory response parser, and the custom-header
//! string parser.  Network transport lives outside the library and feeds
//! the collector plain byte chunks.

pub mod collect;
pub mod directory;
pub mod error;
pub mod headers;
pub mod json;
pub mod laws;
pub mod model;
pub mod request;
pub mod textutil;
