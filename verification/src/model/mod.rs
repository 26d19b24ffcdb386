//! Requests to model services and their replies.
//!
//! The rest of the library exchanges `GenerateRequest`, `GenerateOutput` and
//! `StreamPart`; the JSON of each service stays inside its adapter.

pub mod anthropic;
pub mod gemini;
pub mod messages;
pub mod openai;
pub mod responses;
pub mod sse;
pub mod types;
