//! Values that several parts of the library exchange.

use vstd::prelude::*;

use crate::json::{items_view, opt_json, Json, JsonView};
use crate::text::opt_text;

verus! {

/// Something a tool produced beside its text: an image, a file.
#[derive(Debug)]
pub struct ChatToolArtifact {
    pub name: String,
    pub mime_type: String,
    pub data_url: String,
    pub size_bytes: Option<u64>,
    pub path: Option<String>,
}

/// The value of an artifact.
#[verifier::ext_equal]
pub struct ArtifactView {
    pub name: Seq<char>,
    pub mime_type: Seq<char>,
    pub data_url: Seq<char>,
    pub size_bytes: Option<u64>,
    pub path: Option<Seq<char>>,
}

impl View for ChatToolArtifact {
    type V = ArtifactView;

    open spec fn view(&self) -> ArtifactView {
        ArtifactView {
            name: self.name@,
            mime_type: self.mime_type@,
            data_url: self.data_url@,
            size_bytes: self.size_bytes,
            path: opt_text(self.path),
        }
    }
}

/// The values of the artifacts, in order.
pub open spec fn artifact_views(v: Seq<ChatToolArtifact>) -> Seq<ArtifactView> {
    Seq::new(v.len(), |i: int| v[i]@)
}

/// What a tool call returned.
#[derive(Debug)]
pub struct McpToolCallResult {
    pub content: String,
    pub is_error: bool,
    pub raw: Json,
    pub artifacts: Vec<ChatToolArtifact>,
    pub structured_content: Option<Json>,
    pub follow_up_user_messages: Vec<Json>,
}

/// The value of a tool result.
#[verifier::ext_equal]
pub struct ToolResultView {
    pub content: Seq<char>,
    pub is_error: bool,
    pub raw: JsonView,
    pub artifacts: Seq<ArtifactView>,
    pub structured_content: Option<JsonView>,
    pub follow_up_user_messages: Seq<JsonView>,
}

impl View for McpToolCallResult {
    type V = ToolResultView;

    open spec fn view(&self) -> ToolResultView {
        ToolResultView {
            content: self.content@,
            is_error: self.is_error,
            raw: self.raw@,
            artifacts: artifact_views(self.artifacts@),
            structured_content: opt_json(self.structured_content),
            follow_up_user_messages: items_view(self.follow_up_user_messages@),
        }
    }
}

/// A tool result of text and data alone.
pub open spec fn plain_result(
    content: Seq<char>,
    raw: JsonView,
    structured: Option<JsonView>,
) -> ToolResultView {
    ToolResultView {
        content,
        is_error: false,
        raw,
        artifacts: Seq::empty(),
        structured_content: structured,
        follow_up_user_messages: Seq::empty(),
    }
}

/// A tool result of text and data alone.
pub fn plain_tool_result(content: String, raw: Json, structured: Option<Json>) -> (r:
    McpToolCallResult)
    ensures
        r@ == plain_result(content@, raw@, opt_json(structured)),
{
    McpToolCallResult {
        content,
        is_error: false,
        raw,
        artifacts: Vec::new(),
        structured_content: structured,
        follow_up_user_messages: Vec::new(),
    }
}

} // verus!
