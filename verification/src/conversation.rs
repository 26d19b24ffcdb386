//! Conversations and their messages.

use vstd::prelude::*;

use crate::json::{copy_items, Json, JsonView};
use crate::json::{items_view, opt_json};
use crate::model::types::ModelUsage;
use crate::plan::{AgentPlanState, PlanView};
use crate::text::{copy_opt, copy_str, copy_strings, str_eq};
use crate::text::{opt_str, opt_text, strings};
use crate::types::{artifact_views, ArtifactView};
use crate::types::ChatToolArtifact;

verus! {

/// Says that a reply to the conversation is still being made.
pub const CHAT_REPLY_BUSY_ERROR: &'static str = "该对话正在生成中，请稍后再试";

/// How many models may answer a question at once.
pub const MAX_REPLY_MODELS: usize = 4;

// ---------------------------------------------------------------------
// Messages
// ---------------------------------------------------------------------

fn copy_opt_json(v: &Option<Json>) -> (r: Option<Json>)
    ensures
        opt_json(r) == opt_json(*v),
{
    match v {
        Some(j) => Some(j.copy()),
        None => None,
    }
}

fn copy_artifacts(v: &Vec<ChatToolArtifact>) -> (r: Vec<ChatToolArtifact>)
    ensures
        artifact_views(r@) == artifact_views(v@),
{
    let mut out: Vec<ChatToolArtifact> = Vec::new();
    let mut i: usize = 0;
    while i < v.len()
        invariant
            i <= v@.len(),
            out@.len() == i,
            forall|j: int| 0 <= j < i ==> (#[trigger] out@[j])@ == v@[j]@,
        decreases v@.len() - i,
    {
        out.push(
            ChatToolArtifact {
                name: v[i].name.clone(),
                mime_type: v[i].mime_type.clone(),
                data_url: v[i].data_url.clone(),
                size_bytes: v[i].size_bytes,
                path: copy_opt(&v[i].path),
            },
        );
        i += 1;
    }
    assert(artifact_views(out@) =~= artifact_views(v@));
    out
}

/// How far a tool call has come.
#[derive(Debug, Clone, Copy, PartialEq, Eq, Structural)]
pub enum ToolCallStatus {
    Pending,
    Success,
    Error,
    Skipped,
    Cancelled,
}

/// A file that is attached to a message.
#[derive(Debug)]
pub struct Attachment {
    pub id: String,
    pub attachment_type: String,
    pub name: String,
    pub path: String,
}

/// The value of an attachment.
#[verifier::ext_equal]
pub struct AttachmentView {
    pub id: Seq<char>,
    pub attachment_type: Seq<char>,
    pub name: Seq<char>,
    pub path: Seq<char>,
}

impl View for Attachment {
    type V = AttachmentView;

    open spec fn view(&self) -> AttachmentView {
        AttachmentView {
            id: self.id@,
            attachment_type: self.attachment_type@,
            name: self.name@,
            path: self.path@,
        }
    }
}

impl Attachment {
    /// A copy of the value.
    pub fn copy(&self) -> (r: Attachment)
        ensures
            r@ == self@,
    {
        Attachment {
            id: self.id.clone(),
            attachment_type: self.attachment_type.clone(),
            name: self.name.clone(),
            path: self.path.clone(),
        }
    }
}

/// The values of the attachments, in order.
pub open spec fn attachment_views(v: Seq<Attachment>) -> Seq<AttachmentView> {
    Seq::new(v.len(), |i: int| v[i]@)
}

fn copy_attachments(v: &Vec<Attachment>) -> (r: Vec<Attachment>)
    ensures
        attachment_views(r@) == attachment_views(v@),
{
    let mut out: Vec<Attachment> = Vec::new();
    let mut i: usize = 0;
    while i < v.len()
        invariant
            i <= v@.len(),
            out@.len() == i,
            forall|j: int| 0 <= j < i ==> (#[trigger] out@[j])@ == v@[j]@,
        decreases v@.len() - i,
    {
        out.push(v[i].copy());
        i += 1;
    }
    assert(attachment_views(out@) =~= attachment_views(v@));
    out
}

/// What is kept of a tool call.
#[derive(Debug)]
pub struct ToolCallRecord {
    pub id: String,
    pub name: String,
    pub source: String,
    pub server_id: Option<String>,
    pub arguments: String,
    pub status: ToolCallStatus,
    pub result_preview: Option<String>,
    pub error: Option<String>,
    pub duration_ms: Option<u64>,
    pub started_at: Option<i64>,
    pub completed_at: Option<i64>,
    pub round: u32,
    pub sensitive: bool,
    pub artifacts: Vec<ChatToolArtifact>,
    pub trace_id: Option<String>,
    pub span_id: Option<String>,
    pub structured_content: Option<Json>,
}

/// The value of what is kept of a tool call.
#[verifier::ext_equal]
pub struct ToolRecordView {
    pub id: Seq<char>,
    pub name: Seq<char>,
    pub source: Seq<char>,
    pub server_id: Option<Seq<char>>,
    pub arguments: Seq<char>,
    pub status: ToolCallStatus,
    pub result_preview: Option<Seq<char>>,
    pub error: Option<Seq<char>>,
    pub duration_ms: Option<u64>,
    pub started_at: Option<i64>,
    pub completed_at: Option<i64>,
    pub round: u32,
    pub sensitive: bool,
    pub artifacts: Seq<ArtifactView>,
    pub trace_id: Option<Seq<char>>,
    pub span_id: Option<Seq<char>>,
    pub structured_content: Option<JsonView>,
}

impl View for ToolCallRecord {
    type V = ToolRecordView;

    open spec fn view(&self) -> ToolRecordView {
        ToolRecordView {
            id: self.id@,
            name: self.name@,
            source: self.source@,
            server_id: opt_text(self.server_id),
            arguments: self.arguments@,
            status: self.status,
            result_preview: opt_text(self.result_preview),
            error: opt_text(self.error),
            duration_ms: self.duration_ms,
            started_at: self.started_at,
            completed_at: self.completed_at,
            round: self.round,
            sensitive: self.sensitive,
            artifacts: artifact_views(self.artifacts@),
            trace_id: opt_text(self.trace_id),
            span_id: opt_text(self.span_id),
            structured_content: opt_json(self.structured_content),
        }
    }
}

impl ToolCallRecord {
    /// A copy of the value.
    pub fn copy(&self) -> (r: ToolCallRecord)
        ensures
            r@ == self@,
    {
        ToolCallRecord {
            id: self.id.clone(),
            name: self.name.clone(),
            source: self.source.clone(),
            server_id: copy_opt(&self.server_id),
            arguments: self.arguments.clone(),
            status: self.status,
            result_preview: copy_opt(&self.result_preview),
            error: copy_opt(&self.error),
            duration_ms: self.duration_ms,
            started_at: self.started_at,
            completed_at: self.completed_at,
            round: self.round,
            sensitive: self.sensitive,
            artifacts: copy_artifacts(&self.artifacts),
            trace_id: copy_opt(&self.trace_id),
            span_id: copy_opt(&self.span_id),
            structured_content: copy_opt_json(&self.structured_content),
        }
    }
}

/// The values of the tool calls, in order.
pub open spec fn tool_record_views(v: Seq<ToolCallRecord>) -> Seq<ToolRecordView> {
    Seq::new(v.len(), |i: int| v[i]@)
}

fn copy_tool_records(v: &Vec<ToolCallRecord>) -> (r: Vec<ToolCallRecord>)
    ensures
        tool_record_views(r@) == tool_record_views(v@),
{
    let mut out: Vec<ToolCallRecord> = Vec::new();
    let mut i: usize = 0;
    while i < v.len()
        invariant
            i <= v@.len(),
            out@.len() == i,
            forall|j: int| 0 <= j < i ==> (#[trigger] out@[j])@ == v@[j]@,
        decreases v@.len() - i,
    {
        out.push(v[i].copy());
        i += 1;
    }
    assert(tool_record_views(out@) =~= tool_record_views(v@));
    out
}

/// The value of a plan, where there is one.
pub open spec fn plan_view(v: Option<AgentPlanState>) -> Option<PlanView> {
    match v {
        Some(x) => Some(x@),
        None => None,
    }
}

fn copy_plan(v: &Option<AgentPlanState>) -> (r: Option<AgentPlanState>)
    ensures
        plan_view(r) == plan_view(*v),
{
    match v {
        Some(x) => Some(x.copy()),
        None => None,
    }
}

/// A message of a conversation.
#[derive(Debug)]
pub struct ChatMessage {
    pub id: String,
    pub role: String,
    pub content: String,
    pub attachments: Vec<Attachment>,
    pub reasoning: Option<String>,
    pub artifacts: Vec<ChatToolArtifact>,
    pub tool_calls: Vec<ToolCallRecord>,
    pub segments: Vec<Json>,
    pub agent_plan: Option<AgentPlanState>,
    pub api_messages: Vec<Json>,
    pub model_messages: Vec<Json>,
    pub active_skill_id: Option<String>,
    pub run_entry: Option<String>,
    pub stream_outcome: Option<String>,
    pub usage: Option<ModelUsage>,
    pub anchor_usage: Option<ModelUsage>,
    pub group_id: Option<String>,
    pub provider_id: Option<String>,
    pub model: Option<String>,
    pub timestamp: i64,
}

/// The value of a message.
#[verifier::ext_equal]
pub struct ChatMessageView {
    pub id: Seq<char>,
    pub role: Seq<char>,
    pub content: Seq<char>,
    pub attachments: Seq<AttachmentView>,
    pub reasoning: Option<Seq<char>>,
    pub artifacts: Seq<ArtifactView>,
    pub tool_calls: Seq<ToolRecordView>,
    pub segments: Seq<JsonView>,
    pub agent_plan: Option<PlanView>,
    pub api_messages: Seq<JsonView>,
    pub model_messages: Seq<JsonView>,
    pub active_skill_id: Option<Seq<char>>,
    pub run_entry: Option<Seq<char>>,
    pub stream_outcome: Option<Seq<char>>,
    pub usage: Option<ModelUsage>,
    pub anchor_usage: Option<ModelUsage>,
    pub group_id: Option<Seq<char>>,
    pub provider_id: Option<Seq<char>>,
    pub model: Option<Seq<char>>,
    pub timestamp: i64,
}

impl View for ChatMessage {
    type V = ChatMessageView;

    open spec fn view(&self) -> ChatMessageView {
        ChatMessageView {
            id: self.id@,
            role: self.role@,
            content: self.content@,
            attachments: attachment_views(self.attachments@),
            reasoning: opt_text(self.reasoning),
            artifacts: artifact_views(self.artifacts@),
            tool_calls: tool_record_views(self.tool_calls@),
            segments: items_view(self.segments@),
            agent_plan: plan_view(self.agent_plan),
            api_messages: items_view(self.api_messages@),
            model_messages: items_view(self.model_messages@),
            active_skill_id: opt_text(self.active_skill_id),
            run_entry: opt_text(self.run_entry),
            stream_outcome: opt_text(self.stream_outcome),
            usage: self.usage,
            anchor_usage: self.anchor_usage,
            group_id: opt_text(self.group_id),
            provider_id: opt_text(self.provider_id),
            model: opt_text(self.model),
            timestamp: self.timestamp,
        }
    }
}

impl ChatMessage {
    /// A copy of the value.
    pub fn copy(&self) -> (r: ChatMessage)
        ensures
            r@ == self@,
    {
        ChatMessage {
            id: self.id.clone(),
            role: self.role.clone(),
            content: self.content.clone(),
            attachments: copy_attachments(&self.attachments),
            reasoning: copy_opt(&self.reasoning),
            artifacts: copy_artifacts(&self.artifacts),
            tool_calls: copy_tool_records(&self.tool_calls),
            segments: copy_items(&self.segments),
            agent_plan: copy_plan(&self.agent_plan),
            api_messages: copy_items(&self.api_messages),
            model_messages: copy_items(&self.model_messages),
            active_skill_id: copy_opt(&self.active_skill_id),
            run_entry: copy_opt(&self.run_entry),
            stream_outcome: copy_opt(&self.stream_outcome),
            usage: self.usage,
            anchor_usage: self.anchor_usage,
            group_id: copy_opt(&self.group_id),
            provider_id: copy_opt(&self.provider_id),
            model: copy_opt(&self.model),
            timestamp: self.timestamp,
        }
    }
}

/// The values of the messages, in order.
pub open spec fn chat_message_views(v: Seq<ChatMessage>) -> Seq<ChatMessageView> {
    Seq::new(v.len(), |i: int| v[i]@)
}

/// A copy of the messages.
pub fn copy_messages(v: &Vec<ChatMessage>) -> (r: Vec<ChatMessage>)
    ensures
        chat_message_views(r@) == chat_message_views(v@),
{
    let mut out: Vec<ChatMessage> = Vec::new();
    let mut i: usize = 0;
    while i < v.len()
        invariant
            i <= v@.len(),
            out@.len() == i,
            forall|j: int| 0 <= j < i ==> (#[trigger] out@[j])@ == v@[j]@,
        decreases v@.len() - i,
    {
        out.push(v[i].copy());
        i += 1;
    }
    assert(chat_message_views(out@) =~= chat_message_views(v@));
    out
}

/// A message with a role and a text, and nothing else.
pub open spec fn plain_message(id: Seq<char>, role: Seq<char>, content: Seq<char>, now: i64) -> ChatMessageView {
    ChatMessageView {
        id,
        role,
        content,
        attachments: Seq::empty(),
        reasoning: None,
        artifacts: Seq::empty(),
        tool_calls: Seq::empty(),
        segments: Seq::empty(),
        agent_plan: None,
        api_messages: Seq::empty(),
        model_messages: Seq::empty(),
        active_skill_id: None,
        run_entry: None,
        stream_outcome: None,
        usage: None,
        anchor_usage: None,
        group_id: None,
        provider_id: None,
        model: None,
        timestamp: now,
    }
}

impl ChatMessage {
    /// A message with a role and a text, and nothing else.
    pub fn plain(id: String, role: &str, content: &str, now: i64) -> (r: ChatMessage)
        ensures
            r@ == plain_message(id@, role@, content@, now),
    {
        let r = ChatMessage {
            id,
            role: copy_str(role),
            content: copy_str(content),
            attachments: Vec::new(),
            reasoning: None,
            artifacts: Vec::new(),
            tool_calls: Vec::new(),
            segments: Vec::new(),
            agent_plan: None,
            api_messages: Vec::new(),
            model_messages: Vec::new(),
            active_skill_id: None,
            run_entry: None,
            stream_outcome: None,
            usage: None,
            anchor_usage: None,
            group_id: None,
            provider_id: None,
            model: None,
            timestamp: now,
        };
        assert(r@ =~= plain_message(id@, role@, content@, now));
        r
    }
}

// ---------------------------------------------------------------------
// The state of the context
// ---------------------------------------------------------------------

/// A summary that stands for the older messages.
#[derive(Debug)]
pub struct ConversationContextSummary {
    pub id: String,
    pub content: String,
    pub source_message_ids: Vec<String>,
    pub source_until_message_id: String,
    pub token_estimate_before: usize,
    pub token_estimate_after: usize,
    pub created_at: i64,
    pub provider_id: String,
    pub model: String,
    pub stale: bool,
}

/// The value of a summary.
#[verifier::ext_equal]
pub struct SummaryView {
    pub id: Seq<char>,
    pub content: Seq<char>,
    pub source_message_ids: Seq<Seq<char>>,
    pub source_until_message_id: Seq<char>,
    pub token_estimate_before: usize,
    pub token_estimate_after: usize,
    pub created_at: i64,
    pub provider_id: Seq<char>,
    pub model: Seq<char>,
    pub stale: bool,
}

impl View for ConversationContextSummary {
    type V = SummaryView;

    open spec fn view(&self) -> SummaryView {
        SummaryView {
            id: self.id@,
            content: self.content@,
            source_message_ids: strings(self.source_message_ids@),
            source_until_message_id: self.source_until_message_id@,
            token_estimate_before: self.token_estimate_before,
            token_estimate_after: self.token_estimate_after,
            created_at: self.created_at,
            provider_id: self.provider_id@,
            model: self.model@,
            stale: self.stale,
        }
    }
}

impl ConversationContextSummary {
    /// A copy of the value.
    pub fn copy(&self) -> (r: ConversationContextSummary)
        ensures
            r@ == self@,
    {
        ConversationContextSummary {
            id: self.id.clone(),
            content: self.content.clone(),
            source_message_ids: copy_strings(&self.source_message_ids),
            source_until_message_id: self.source_until_message_id.clone(),
            token_estimate_before: self.token_estimate_before,
            token_estimate_after: self.token_estimate_after,
            created_at: self.created_at,
            provider_id: self.provider_id.clone(),
            model: self.model.clone(),
            stale: self.stale,
        }
    }
}

/// The value of a summary, where there is one.
pub open spec fn summary_view(v: Option<ConversationContextSummary>) -> Option<SummaryView> {
    match v {
        Some(x) => Some(x@),
        None => None,
    }
}

fn copy_summary(v: &Option<ConversationContextSummary>) -> (r: Option<ConversationContextSummary>)
    ensures
        summary_view(r) == summary_view(*v),
{
    match v {
        Some(x) => Some(x.copy()),
        None => None,
    }
}

/// Where the messages were summed up.
#[derive(Debug)]
pub struct CompactionBoundaryRecord {
    pub id: String,
    pub source_until_message_id: String,
    pub display_after_message_id: Option<String>,
    pub token_estimate_before: usize,
    pub token_estimate_after: usize,
    pub summary_content: String,
    pub trigger: String,
    pub created_at: i64,
}

/// The value of a boundary.
#[verifier::ext_equal]
pub struct BoundaryView {
    pub id: Seq<char>,
    pub source_until_message_id: Seq<char>,
    pub display_after_message_id: Option<Seq<char>>,
    pub token_estimate_before: usize,
    pub token_estimate_after: usize,
    pub summary_content: Seq<char>,
    pub trigger: Seq<char>,
    pub created_at: i64,
}

impl View for CompactionBoundaryRecord {
    type V = BoundaryView;

    open spec fn view(&self) -> BoundaryView {
        BoundaryView {
            id: self.id@,
            source_until_message_id: self.source_until_message_id@,
            display_after_message_id: opt_text(self.display_after_message_id),
            token_estimate_before: self.token_estimate_before,
            token_estimate_after: self.token_estimate_after,
            summary_content: self.summary_content@,
            trigger: self.trigger@,
            created_at: self.created_at,
        }
    }
}

impl CompactionBoundaryRecord {
    /// A copy of the value.
    pub fn copy(&self) -> (r: CompactionBoundaryRecord)
        ensures
            r@ == self@,
    {
        CompactionBoundaryRecord {
            id: self.id.clone(),
            source_until_message_id: self.source_until_message_id.clone(),
            display_after_message_id: copy_opt(&self.display_after_message_id),
            token_estimate_before: self.token_estimate_before,
            token_estimate_after: self.token_estimate_after,
            summary_content: self.summary_content.clone(),
            trigger: self.trigger.clone(),
            created_at: self.created_at,
        }
    }
}

/// The values of the boundaries, in order.
pub open spec fn boundary_views(v: Seq<CompactionBoundaryRecord>) -> Seq<BoundaryView> {
    Seq::new(v.len(), |i: int| v[i]@)
}

fn copy_boundaries(v: &Vec<CompactionBoundaryRecord>) -> (r: Vec<CompactionBoundaryRecord>)
    ensures
        boundary_views(r@) == boundary_views(v@),
{
    let mut out: Vec<CompactionBoundaryRecord> = Vec::new();
    let mut i: usize = 0;
    while i < v.len()
        invariant
            i <= v@.len(),
            out@.len() == i,
            forall|j: int| 0 <= j < i ==> (#[trigger] out@[j])@ == v@[j]@,
        decreases v@.len() - i,
    {
        out.push(v[i].copy());
        i += 1;
    }
    assert(boundary_views(out@) =~= boundary_views(v@));
    out
}

/// How full the context of a conversation is. `estimate` holds the figures that are
/// only shown.
#[derive(Debug)]
pub struct ConversationContextState {
    pub estimate: Json,
    pub warning: Option<String>,
    pub summary: Option<ConversationContextSummary>,
    pub compaction_boundaries: Vec<CompactionBoundaryRecord>,
    pub compression_count: u32,
    pub compressed_message_count: usize,
    pub last_compressed_at: Option<i64>,
}

/// The value of the state of the context.
#[verifier::ext_equal]
pub struct ContextView {
    pub estimate: JsonView,
    pub warning: Option<Seq<char>>,
    pub summary: Option<SummaryView>,
    pub compaction_boundaries: Seq<BoundaryView>,
    pub compression_count: u32,
    pub compressed_message_count: usize,
    pub last_compressed_at: Option<i64>,
}

impl View for ConversationContextState {
    type V = ContextView;

    open spec fn view(&self) -> ContextView {
        ContextView {
            estimate: self.estimate@,
            warning: opt_text(self.warning),
            summary: summary_view(self.summary),
            compaction_boundaries: boundary_views(self.compaction_boundaries@),
            compression_count: self.compression_count,
            compressed_message_count: self.compressed_message_count,
            last_compressed_at: self.last_compressed_at,
        }
    }
}

impl ConversationContextState {
    /// A copy of the value.
    pub fn copy(&self) -> (r: ConversationContextState)
        ensures
            r@ == self@,
    {
        ConversationContextState {
            estimate: self.estimate.copy(),
            warning: copy_opt(&self.warning),
            summary: copy_summary(&self.summary),
            compaction_boundaries: copy_boundaries(&self.compaction_boundaries),
            compression_count: self.compression_count,
            compressed_message_count: self.compressed_message_count,
            last_compressed_at: self.last_compressed_at,
        }
    }
}

/// The state of the context of a new conversation.
pub open spec fn empty_context() -> ContextView {
    ContextView {
        estimate: JsonView::Null,
        warning: None,
        summary: None,
        compaction_boundaries: Seq::empty(),
        compression_count: 0,
        compressed_message_count: 0,
        last_compressed_at: None,
    }
}

impl Default for ConversationContextState {
    fn default() -> (r: ConversationContextState)
        ensures
            r@ == empty_context(),
    {
        let r = ConversationContextState {
            estimate: Json::Null,
            warning: None,
            summary: None,
            compaction_boundaries: Vec::new(),
            compression_count: 0,
            compressed_message_count: 0,
            last_compressed_at: None,
        };
        assert(r@ =~= empty_context());
        r
    }
}

// ---------------------------------------------------------------------
// Conversations
// ---------------------------------------------------------------------

/// A model of a provider.
#[derive(Debug)]
pub struct ModelRef {
    pub provider_id: String,
    pub model: String,
}

/// The value of a model of a provider.
#[verifier::ext_equal]
pub struct ModelRefView {
    pub provider_id: Seq<char>,
    pub model: Seq<char>,
}

impl View for ModelRef {
    type V = ModelRefView;

    open spec fn view(&self) -> ModelRefView {
        ModelRefView {
            provider_id: self.provider_id@,
            model: self.model@,
        }
    }
}

impl ModelRef {
    /// A copy of the value.
    pub fn copy(&self) -> (r: ModelRef)
        ensures
            r@ == self@,
    {
        ModelRef {
            provider_id: self.provider_id.clone(),
            model: self.model.clone(),
        }
    }
}

/// The values of the models, in order.
pub open spec fn model_ref_views(v: Seq<ModelRef>) -> Seq<ModelRefView> {
    Seq::new(v.len(), |i: int| v[i]@)
}

/// A copy of the models.
pub fn copy_model_refs(v: &Vec<ModelRef>) -> (r: Vec<ModelRef>)
    ensures
        model_ref_views(r@) == model_ref_views(v@),
{
    let mut out: Vec<ModelRef> = Vec::new();
    let mut i: usize = 0;
    while i < v.len()
        invariant
            i <= v@.len(),
            out@.len() == i,
            forall|j: int| 0 <= j < i ==> (#[trigger] out@[j])@ == v@[j]@,
        decreases v@.len() - i,
    {
        out.push(v[i].copy());
        i += 1;
    }
    assert(model_ref_views(out@) =~= model_ref_views(v@));
    out
}

/// Where a conversation branched off.
#[derive(Debug)]
pub struct ForkOrigin {
    pub conversation_id: String,
    pub message_id: String,
    pub title: String,
}

/// The value of where a conversation branched off.
#[verifier::ext_equal]
pub struct ForkView {
    pub conversation_id: Seq<char>,
    pub message_id: Seq<char>,
    pub title: Seq<char>,
}

impl View for ForkOrigin {
    type V = ForkView;

    open spec fn view(&self) -> ForkView {
        ForkView {
            conversation_id: self.conversation_id@,
            message_id: self.message_id@,
            title: self.title@,
        }
    }
}

impl ForkOrigin {
    /// A copy of the value.
    pub fn copy(&self) -> (r: ForkOrigin)
        ensures
            r@ == self@,
    {
        ForkOrigin {
            conversation_id: self.conversation_id.clone(),
            message_id: self.message_id.clone(),
            title: self.title.clone(),
        }
    }
}

/// The value of an origin, where there is one.
pub open spec fn fork_view(v: Option<ForkOrigin>) -> Option<ForkView> {
    match v {
        Some(x) => Some(x@),
        None => None,
    }
}

fn copy_fork(v: &Option<ForkOrigin>) -> (r: Option<ForkOrigin>)
    ensures
        fork_view(r) == fork_view(*v),
{
    match v {
        Some(x) => Some(x.copy()),
        None => None,
    }
}

/// Which answer of a group counts, by group.
#[derive(Debug)]
pub struct GroupSelections {
    pub entries: Vec<(String, String)>,
}

/// The entries as a map; of two entries of a group the later one counts.
pub open spec fn selection_map(entries: Seq<(String, String)>) -> Map<Seq<char>, Seq<char>>
    decreases entries.len(),
{
    if entries.len() == 0 {
        Map::empty()
    } else {
        selection_map(entries.drop_last()).insert(entries.last().0@, entries.last().1@)
    }
}

impl View for GroupSelections {
    type V = Map<Seq<char>, Seq<char>>;

    open spec fn view(&self) -> Map<Seq<char>, Seq<char>> {
        selection_map(self.entries@)
    }
}

/// What a map has under a key.
pub open spec fn selected(m: Map<Seq<char>, Seq<char>>, group: Seq<char>) -> Option<Seq<char>> {
    if m.dom().contains(group) {
        Some(m[group])
    } else {
        None
    }
}

impl GroupSelections {
    /// No selection.
    pub fn new() -> (r: GroupSelections)
        ensures
            r@ == Map::<Seq<char>, Seq<char>>::empty(),
    {
        GroupSelections { entries: Vec::new() }
    }

    /// The answer of a group that counts.
    pub fn get(&self, group: &str) -> (r: Option<&str>)
        ensures
            opt_str(r) == selected(self@, group@),
    {
        let ghost all = self.entries@;
        let mut i: usize = self.entries.len();
        assert(all.take(i as int) =~= all);
        while i > 0
            invariant
                i <= self.entries@.len(),
                all == self.entries@,
                selected(selection_map(all.take(i as int)), group@) == selected(
                    selection_map(all),
                    group@,
                ),
            decreases i,
        {
            assert(all.take(i as int).drop_last() =~= all.take(i - 1));
            assert(all.take(i as int).last() == all[i - 1]);
            if str_eq(self.entries[i - 1].0.as_str(), group) {
                return Some(self.entries[i - 1].1.as_str());
            }
            i -= 1;
        }
        assert(all.take(0) =~= Seq::<(String, String)>::empty());
        None
    }

    /// Lets an answer of a group count.
    pub fn insert(&mut self, group: &str, message_id: &str)
        ensures
            final(self)@ == old(self)@.insert(group@, message_id@),
    {
        let ghost before = self.entries@;
        self.entries.push((copy_str(group), copy_str(message_id)));
        assert(self.entries@.drop_last() =~= before);
    }

    /// Takes the selection of a group away.
    pub fn remove(&mut self, group: &str)
        ensures
            final(self)@ == old(self)@.remove(group@),
    {
        let ghost all = self.entries@;
        let mut kept: Vec<(String, String)> = Vec::new();
        let mut i: usize = 0;
        assert(all.take(0) =~= Seq::<(String, String)>::empty());
        assert(selection_map(kept@) =~= selection_map(all.take(0)).remove(group@));
        while i < self.entries.len()
            invariant
                i <= self.entries@.len(),
                all == self.entries@,
                selection_map(kept@) == selection_map(all.take(i as int)).remove(group@),
            decreases self.entries@.len() - i,
        {
            assert(all.take(i + 1).drop_last() =~= all.take(i as int));
            assert(all.take(i + 1).last() == all[i as int]);
            if !str_eq(self.entries[i].0.as_str(), group) {
                let ghost before = kept@;
                kept.push((self.entries[i].0.clone(), self.entries[i].1.clone()));
                assert(kept@.drop_last() =~= before);
            }
            assert(selection_map(kept@) =~= selection_map(all.take(i + 1)).remove(group@));
            i += 1;
        }
        assert(all.take(all.len() as int) =~= all);
        self.entries = kept;
    }

    /// A copy of the selections.
    pub fn copy(&self) -> (r: GroupSelections)
        ensures
            r@ == self@,
    {
        let ghost all = self.entries@;
        let mut out: Vec<(String, String)> = Vec::new();
        let mut i: usize = 0;
        assert(all.take(0) =~= Seq::<(String, String)>::empty());
        while i < self.entries.len()
            invariant
                i <= self.entries@.len(),
                all == self.entries@,
                selection_map(out@) == selection_map(all.take(i as int)),
            decreases self.entries@.len() - i,
        {
            assert(all.take(i + 1).drop_last() =~= all.take(i as int));
            let ghost before = out@;
            out.push((self.entries[i].0.clone(), self.entries[i].1.clone()));
            assert(out@.drop_last() =~= before);
            i += 1;
        }
        assert(all.take(all.len() as int) =~= all);
        GroupSelections { entries: out }
    }
}

/// Who answers in a conversation.
#[derive(Debug, Clone, Copy, PartialEq, Eq, Structural)]
pub struct AgentRuntimeConfig {
    pub external: bool,
}

impl AgentRuntimeConfig {
    /// Whether another program answers.
    pub fn is_external(&self) -> (r: bool)
        ensures
            r == self.external,
    {
        self.external
    }
}

/// A conversation.
#[derive(Debug)]
pub struct Conversation {
    pub id: String,
    pub title: String,
    pub provider_id: String,
    pub model: String,
    pub messages: Vec<ChatMessage>,
    pub agent_runtime: AgentRuntimeConfig,
    pub active_skill_id: Option<String>,
    pub assistant_id: Option<String>,
    pub assistant_snapshot: Option<Json>,
    pub created_at: i64,
    pub updated_at: i64,
    pub pinned: bool,
    pub folder: Option<String>,
    pub project_id: Option<String>,
    pub set_id: Option<String>,
    pub context_state: ConversationContextState,
    pub agent_todo_state: Json,
    pub agent_plan_state: AgentPlanState,
    pub knowledge_base_ids: Vec<String>,
    pub force_knowledge_search: bool,
    pub thinking_level: Option<String>,
    pub reply_models: Vec<ModelRef>,
    pub group_selections: GroupSelections,
    pub forked_from: Option<ForkOrigin>,
}

/// The value of a conversation.
#[verifier::ext_equal]
pub struct ConversationView {
    pub id: Seq<char>,
    pub title: Seq<char>,
    pub provider_id: Seq<char>,
    pub model: Seq<char>,
    pub messages: Seq<ChatMessageView>,
    pub agent_runtime: AgentRuntimeConfig,
    pub active_skill_id: Option<Seq<char>>,
    pub assistant_id: Option<Seq<char>>,
    pub assistant_snapshot: Option<JsonView>,
    pub created_at: i64,
    pub updated_at: i64,
    pub pinned: bool,
    pub folder: Option<Seq<char>>,
    pub project_id: Option<Seq<char>>,
    pub set_id: Option<Seq<char>>,
    pub context_state: ContextView,
    pub agent_todo_state: JsonView,
    pub agent_plan_state: PlanView,
    pub knowledge_base_ids: Seq<Seq<char>>,
    pub force_knowledge_search: bool,
    pub thinking_level: Option<Seq<char>>,
    pub reply_models: Seq<ModelRefView>,
    pub group_selections: Map<Seq<char>, Seq<char>>,
    pub forked_from: Option<ForkView>,
}

impl View for Conversation {
    type V = ConversationView;

    open spec fn view(&self) -> ConversationView {
        ConversationView {
            id: self.id@,
            title: self.title@,
            provider_id: self.provider_id@,
            model: self.model@,
            messages: chat_message_views(self.messages@),
            agent_runtime: self.agent_runtime,
            active_skill_id: opt_text(self.active_skill_id),
            assistant_id: opt_text(self.assistant_id),
            assistant_snapshot: opt_json(self.assistant_snapshot),
            created_at: self.created_at,
            updated_at: self.updated_at,
            pinned: self.pinned,
            folder: opt_text(self.folder),
            project_id: opt_text(self.project_id),
            set_id: opt_text(self.set_id),
            context_state: self.context_state@,
            agent_todo_state: self.agent_todo_state@,
            agent_plan_state: self.agent_plan_state@,
            knowledge_base_ids: strings(self.knowledge_base_ids@),
            force_knowledge_search: self.force_knowledge_search,
            thinking_level: opt_text(self.thinking_level),
            reply_models: model_ref_views(self.reply_models@),
            group_selections: self.group_selections@,
            forked_from: fork_view(self.forked_from),
        }
    }
}

impl Conversation {
    /// A copy of the value.
    pub fn copy(&self) -> (r: Conversation)
        ensures
            r@ == self@,
    {
        Conversation {
            id: self.id.clone(),
            title: self.title.clone(),
            provider_id: self.provider_id.clone(),
            model: self.model.clone(),
            messages: copy_messages(&self.messages),
            agent_runtime: self.agent_runtime,
            active_skill_id: copy_opt(&self.active_skill_id),
            assistant_id: copy_opt(&self.assistant_id),
            assistant_snapshot: copy_opt_json(&self.assistant_snapshot),
            created_at: self.created_at,
            updated_at: self.updated_at,
            pinned: self.pinned,
            folder: copy_opt(&self.folder),
            project_id: copy_opt(&self.project_id),
            set_id: copy_opt(&self.set_id),
            context_state: self.context_state.copy(),
            agent_todo_state: self.agent_todo_state.copy(),
            agent_plan_state: self.agent_plan_state.copy(),
            knowledge_base_ids: copy_strings(&self.knowledge_base_ids),
            force_knowledge_search: self.force_knowledge_search,
            thinking_level: copy_opt(&self.thinking_level),
            reply_models: copy_model_refs(&self.reply_models),
            group_selections: self.group_selections.copy(),
            forked_from: copy_fork(&self.forked_from),
        }
    }
}

/// The first message with the identifier, from `from` on.
pub open spec fn message_index(messages: Seq<ChatMessageView>, id: Seq<char>, from: int) -> Option<int>
    decreases messages.len() - from,
{
    if from < 0 || from >= messages.len() {
        None
    } else if messages[from].id == id {
        Some(from)
    } else {
        message_index(messages, id, from + 1)
    }
}

/// The first message with the identifier.
pub fn find_message(messages: &Vec<ChatMessage>, id: &str) -> (r: Option<usize>)
    ensures
        match r {
            Some(i) => i < messages@.len() && message_index(
                chat_message_views(messages@),
                id@,
                0,
            ) == Some(i as int),
            None => message_index(chat_message_views(messages@), id@, 0) is None,
        },
{
    let ghost all = chat_message_views(messages@);
    let mut i: usize = 0;
    while i < messages.len()
        invariant
            i <= messages@.len(),
            all == chat_message_views(messages@),
            message_index(all, id@, 0) == message_index(all, id@, i as int),
        decreases messages@.len() - i,
    {
        assert(all[i as int] == messages@[i as int]@);
        if str_eq(messages[i].id.as_str(), id) {
            return Some(i);
        }
        i += 1;
    }
    None
}

/// The first message with the identifier.
pub fn find_message_index(conversation: &Conversation, message_id: &str) -> (r: Result<usize, String>)
    ensures
        match r {
            Ok(i) => i < conversation.messages@.len() && message_index(
                conversation@.messages,
                message_id@,
                0,
            ) == Some(i as int),
            Err(e) => message_index(conversation@.messages, message_id@, 0) is None && e@
                == "消息不存在"@,
        },
{
    match find_message(&conversation.messages, message_id) {
        Some(i) => Ok(i),
        None => Err(copy_str("消息不存在")),
    }
}

/// The messages with one put in: in place of that with its identifier, or behind
/// the others.
pub open spec fn upserted(messages: Seq<ChatMessageView>, message: ChatMessageView) -> Seq<
    ChatMessageView,
> {
    match message_index(messages, message.id, 0) {
        Some(i) => messages.update(i, message),
        None => messages.push(message),
    }
}

/// Puts an answer into a conversation: in place of the message with its
/// identifier, or behind the others.
pub fn upsert_assistant_message(conversation: &mut Conversation, message: ChatMessage)
    ensures
        final(conversation)@ == (ConversationView {
            messages: upserted(old(conversation)@.messages, message@),
            ..old(conversation)@
        }),
{
    let ghost before = conversation.messages@;
    match find_message(&conversation.messages, message.id.as_str()) {
        Some(i) => {
            conversation.messages.set(i, message);
            assert(chat_message_views(conversation.messages@) =~= chat_message_views(before).update(
                i as int,
                message@,
            ));
        },
        None => {
            conversation.messages.push(message);
            assert(chat_message_views(conversation.messages@) =~= chat_message_views(before).push(
                message@,
            ));
        },
    }
}

/// A message that a summary covers changed: the message at `index` is not behind
/// the last one that the summary stands for.
pub open spec fn summary_broken(
    messages: Seq<ChatMessageView>,
    summary: SummaryView,
    index: int,
) -> bool {
    match message_index(messages, summary.source_until_message_id, 0) {
        Some(until) => index <= until,
        None => true,
    }
}

/// The state of the context after the message at `index` changed.
pub open spec fn context_after_change(
    messages: Seq<ChatMessageView>,
    context: ContextView,
    index: int,
) -> ContextView {
    match context.summary {
        Some(s) => if summary_broken(messages, s, index) {
            ContextView { summary: Some(SummaryView { stale: true, ..s }), ..context }
        } else {
            context
        },
        None => context,
    }
}

/// Marks the summary as outdated where the message at `index` is one that it
/// stands for.
pub fn mark_summary_stale_if_needed(conversation: &mut Conversation, index: usize)
    ensures
        final(conversation)@ == (ConversationView {
            context_state: context_after_change(
                old(conversation)@.messages,
                old(conversation)@.context_state,
                index as int,
            ),
            ..old(conversation)@
        }),
        final(conversation).messages == old(conversation).messages,
{
    let broken = match &conversation.context_state.summary {
        Some(s) => match find_message(&conversation.messages, s.source_until_message_id.as_str()) {
            Some(until) => index <= until,
            None => true,
        },
        None => false,
    };
    if broken {
        let kept = match &conversation.context_state.summary {
            Some(s) => {
                let mut summary = s.copy();
                summary.stale = true;
                Some(summary)
            },
            None => None,
        };
        conversation.context_state.summary = kept;
    }
}

/// A message is found by its identifier: the first that has it; and none where none has.
pub proof fn law_messages_are_found_by_id(messages: Seq<ChatMessageView>, id: Seq<char>, from: int, i: int)
    requires
        0 <= from <= i <= messages.len(),
        forall|j: int| from <= j < i ==> !((#[trigger] messages[j]).id == id),
    ensures
        i < messages.len() && (messages[i]).id == id ==> message_index(messages, id, from) == Some(i),
        i == messages.len() ==> message_index(messages, id, from) == None::<int>,
    decreases i - from,
{
    if from < i {
        assert(!((messages[from]).id == id));
        law_messages_are_found_by_id(messages, id, from + 1, i);
    }
}

/// A message that is put in takes the place of the one with its identifier, or goes to the
/// end; the others stay where they are.
pub proof fn law_messages_take_their_place(
    messages: Seq<ChatMessageView>,
    message: ChatMessageView,
    i: int,
    j: int,
)
    requires
        0 <= i <= messages.len(),
        forall|k: int| 0 <= k < i ==> (#[trigger] messages[k]).id != message.id,
        i < messages.len() ==> messages[i].id == message.id,
        0 <= j < messages.len(),
    ensures
        ({
            let after = upserted(messages, message);
            &&& after.len() == if i < messages.len() {
                messages.len()
            } else {
                messages.len() + 1
            }
            &&& after[i] == message
            &&& j != i ==> after[j] == messages[j]
        }),
{
    law_messages_are_found_by_id(messages, message.id, 0, i);
}

/// A summary goes stale when a message changes that it covers, or when the last message
/// that it covers is gone; nothing else of the context changes.
pub proof fn law_summaries_go_stale(
    messages: Seq<ChatMessageView>,
    context: ContextView,
    index: int,
    until: int,
)
    requires
        0 <= until <= messages.len(),
        context.summary is Some,
        forall|k: int|
            0 <= k < until ==> (#[trigger] messages[k]).id != (
            context.summary->0).source_until_message_id,
        until < messages.len() ==> messages[until].id == (
        context.summary->0).source_until_message_id,
    ensures
        ({
            let after = context_after_change(messages, context, index);
            let s = context.summary->0;
            &&& after.summary is Some
            &&& until == messages.len() || index <= until ==> (after.summary->0).stale
            &&& until < messages.len() && index > until ==> after == context
            &&& (after.summary->0).content == s.content && (after.summary->0).id == s.id
            &&& after.estimate == context.estimate && after.warning == context.warning
                && after.compaction_boundaries == context.compaction_boundaries
                && after.compression_count == context.compression_count
        }),
{
    law_messages_are_found_by_id(
        messages,
        (context.summary->0).source_until_message_id,
        0,
        until,
    );
}

} // verus!
