//! Verified logic of a chat client for language models.

pub mod archive;
pub mod clock;
pub mod codec;
pub mod commands;
pub mod conversation;
pub mod image_generation;
pub mod json;
pub mod knowledge_base;
pub mod mcp_image_feedback;
pub mod memory;
pub mod model;
pub mod model_call;
pub mod model_metadata;
pub mod plan;
pub mod settings;
pub mod text;
pub mod types;
pub mod usage;
