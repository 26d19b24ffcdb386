//! Making one answer, or several side by side.

use vstd::prelude::*;

use crate::clock::{new_uuid, now_timestamp};
use crate::commands::mutations::{has_key, model_key, trimmed_model};
use crate::commands::mutations::holds_model;
use crate::conversation::{
    boundary_views, chat_message_views, message_index, model_ref_views, plain_message, plan_view,
    summary_view, tool_record_views, upserted, BoundaryView, ChatMessageView, ContextView,
    ConversationView, ModelRefView, SummaryView, ToolRecordView,
};
use crate::conversation::{
    upsert_assistant_message, ChatMessage, CompactionBoundaryRecord, Conversation,
    ConversationContextSummary, ModelRef, ToolCallRecord, ToolCallStatus, MAX_REPLY_MODELS,
};
use crate::json::{items_view, JsonView};
use crate::json::Json;
use crate::model::types::ModelUsage;
use crate::model_call::{missing_key_text, MISSING_MODEL};
use crate::model_call::{chat_missing_model_error, format_chat_missing_api_key_error};
use crate::model_metadata::{efforts_of, makes_images_directly};
use crate::model_metadata::{
    model_can_generate_images_directly, reasoning_efforts_for_model, ModelDatabase,
};
use crate::plan::PlanView;
use crate::plan::{is_orchestrate_mode, is_plan_mode, AgentPlanMode, AgentPlanState};
use crate::settings::provider_index;
use crate::settings::{find_provider, ModelProvider};
use crate::text::{
    as_opt_str, concat2, concat3, concat4, copy_opt, copy_str, decimal_of, is_blank, one_of,
    own_opt, str_eq, trim, truncate_chars,
};
use crate::text::{
    decimal, first_chars, is_blank_text, is_one_of, opt_str, opt_text, strings, trimmed,
};
use crate::types::{artifact_views, ArtifactView};
use crate::types::ChatToolArtifact;

verus! {

// ---------------------------------------------------------------------
// Who answers
// ---------------------------------------------------------------------

/// The providers and models of pairs, in order.
pub open spec fn arm_views(v: Seq<(String, String)>) -> Seq<ModelRefView> {
    Seq::new(v.len(), |i: int| ModelRefView { provider_id: v[i].0@, model: v[i].1@ })
}

/// The models that answer: trimmed, without those with a blank name and those of a
/// provider that there is not, each where it comes first.
pub open spec fn answering(models: Seq<ModelRefView>, providers: Seq<ModelProvider>) -> Seq<
    ModelRefView,
>
    decreases models.len(),
{
    if models.len() == 0 {
        Seq::empty()
    } else {
        let before = answering(models.drop_last(), providers);
        let m = trimmed_model(models.last());
        if m.provider_id.len() == 0 || m.model.len() == 0 || provider_index(
            providers,
            m.provider_id,
            0,
        ) is None || has_key(before, model_key(m)) {
            before
        } else {
            before.push(m)
        }
    }
}

/// The models that answer, or that there are too many.
pub open spec fn reply_arms(models: Seq<ModelRefView>, providers: Seq<ModelProvider>) -> Result<
    Seq<ModelRefView>,
    Seq<char>,
> {
    if models.len() > MAX_REPLY_MODELS {
        Err("多模型并行回答最多同时选择 4 个模型（当前 "@ + decimal(models.len()) + "）。"@)
    } else {
        Ok(answering(models, providers))
    }
}

/// The models that answer, or an error, as values.
pub open spec fn arms_result(r: Result<Vec<(String, String)>, String>) -> Result<
    Seq<ModelRefView>,
    Seq<char>,
> {
    match r {
        Ok(v) => Ok(arm_views(v@)),
        Err(e) => Err(e@),
    }
}

/// The providers and models that answer a question side by side.
pub fn resolve_reply_arms(providers: &Vec<ModelProvider>, reply_models: &Vec<ModelRef>) -> (r: Result<
    Vec<(String, String)>,
    String,
>)
    ensures
        arms_result(r) == reply_arms(model_ref_views(reply_models@), providers@),
{
    let count: usize = reply_models.len();
    if count > MAX_REPLY_MODELS {
        let n = decimal_of(count as u64);
        return Err(
            concat3("多模型并行回答最多同时选择 4 个模型（当前 ", n.as_str(), "）。"),
        );
    }
    let ghost all = model_ref_views(reply_models@);
    let mut models: Vec<ModelRef> = Vec::new();
    let mut arms: Vec<(String, String)> = Vec::new();
    let mut i: usize = 0;
    assert(all.take(0) =~= Seq::<ModelRefView>::empty());
    assert(model_ref_views(models@) =~= Seq::<ModelRefView>::empty());
    assert(arm_views(arms@) =~= Seq::<ModelRefView>::empty());
    while i < count
        invariant
            i <= count,
            count == reply_models@.len(),
            all == model_ref_views(reply_models@),
            model_ref_views(models@) == answering(all.take(i as int), providers@),
            arm_views(arms@) == answering(all.take(i as int), providers@),
        decreases count - i,
    {
        assert(all.take(i + 1).drop_last() =~= all.take(i as int));
        assert(all.take(i + 1).last() == reply_models@[i as int]@);
        let provider_id = trim(reply_models[i].provider_id.as_str());
        let model = trim(reply_models[i].model.as_str());
        if !provider_id.as_str().is_empty() && !model.as_str().is_empty() {
            let known = find_provider(providers, provider_id.as_str());
            if known.is_some() && !holds_model(&models, provider_id.as_str(), model.as_str()) {
                let ghost before = models@;
                let ghost arms_before = arms@;
                let m = ModelRef { provider_id: provider_id.clone(), model: model.clone() };
                models.push(m);
                arms.push((provider_id, model));
                assert(model_ref_views(models@) =~= model_ref_views(before).push(m@));
                assert(arm_views(arms@) =~= arm_views(arms_before).push(m@));
            }
        }
        i += 1;
    }
    assert(all.take(all.len() as int) =~= all);
    Ok(arms)
}

/// No two of the models that answer side by side are the same, each has a provider
/// that there is, and there are no more than the limit.
pub proof fn law_arms_differ(models: Seq<ModelRefView>, providers: Seq<ModelProvider>)
    ensures
        reply_arms(models, providers) matches Ok(arms) ==> arms.len() <= MAX_REPLY_MODELS && (forall|
            i: int,
        |
            0 <= i < arms.len() ==> provider_index(
                providers,
                (#[trigger] arms[i]).provider_id,
                0,
            ) is Some && arms[i].model.len() > 0) && (forall|i: int, j: int|
            0 <= i < j < arms.len() ==> model_key(#[trigger] arms[i]) != model_key(
                #[trigger] arms[j],
            )),
{
    lemma_answering(models, providers);
}

proof fn lemma_answering(models: Seq<ModelRefView>, providers: Seq<ModelProvider>)
    ensures
        ({
            let d = answering(models, providers);
            &&& d.len() <= models.len()
            &&& forall|i: int|
                0 <= i < d.len() ==> provider_index(
                    providers,
                    (#[trigger] d[i]).provider_id,
                    0,
                ) is Some && d[i].model.len() > 0
            &&& forall|i: int, j: int|
                0 <= i < j < d.len() ==> model_key(#[trigger] d[i]) != model_key(#[trigger] d[j])
        }),
    decreases models.len(),
{
    if models.len() > 0 {
        lemma_answering(models.drop_last(), providers);
        let before = answering(models.drop_last(), providers);
        let d = answering(models, providers);
        assert forall|i: int| 0 <= i < d.len() implies provider_index(
            providers,
            (#[trigger] d[i]).provider_id,
            0,
        ) is Some && d[i].model.len() > 0 by {
            if i < before.len() {
                assert(d[i] == before[i]);
            }
        }
        assert forall|i: int, j: int| 0 <= i < j < d.len() implies model_key(#[trigger] d[i])
            != model_key(#[trigger] d[j]) by {
            assert(d[i] == before[i]);
            if j < before.len() {
                assert(d[j] == before[j]);
            }
        }
    }
}

/// Several models answer side by side: there are at least two, and the agent
/// neither plans nor hands work out.
pub open spec fn side_by_side(c: ConversationView, arms: Seq<ModelRefView>) -> bool {
    arms.len() >= 2 && c.agent_plan_state.mode != AgentPlanMode::Plan && c.agent_plan_state.mode
        != AgentPlanMode::Orchestrate
}

/// Whether several models answer side by side.
pub fn fans_out(conversation: &Conversation, arms: &Vec<(String, String)>) -> (r: bool)
    ensures
        r == side_by_side(conversation@, arm_views(arms@)),
{
    let acts = !is_plan_mode(&conversation.agent_plan_state) && !is_orchestrate_mode(
        &conversation.agent_plan_state,
    );
    arms.len() >= 2 && acts
}

/// What a run was started by.
#[derive(Debug, Clone, Copy, PartialEq, Eq, Structural)]
pub enum AgentRunEntry {
    Send,
    Regenerate,
}

/// The name of what a run was started by.
pub open spec fn entry_name(entry: AgentRunEntry) -> Seq<char> {
    match entry {
        AgentRunEntry::Send => "send"@,
        AgentRunEntry::Regenerate => "regenerate"@,
    }
}

/// The name of what a run was started by.
pub fn agent_run_entry_label(entry: AgentRunEntry) -> (r: &'static str)
    ensures
        r@ == entry_name(entry),
{
    match entry {
        AgentRunEntry::Send => "send",
        AgentRunEntry::Regenerate => "regenerate",
    }
}

// ---------------------------------------------------------------------
// Thinking
// ---------------------------------------------------------------------

/// The levels at which a model thinks.
pub open spec fn levels() -> Seq<&'static str> {
    seq!["low", "medium", "high", "xhigh", "max"]
}

/// Whether a model thinks, and at which level.
pub open spec fn thinking_of(level: Option<Seq<char>>) -> (bool, Option<Seq<char>>) {
    match level {
        Some(l) => if l == "off"@ {
            (false, None)
        } else if is_one_of(l, levels()) {
            (true, Some(l))
        } else {
            (true, Some("high"@))
        },
        None => (true, Some("high"@)),
    }
}

/// Whether a model thinks in a conversation, and at which level. What is set for
/// other uses does not count; a level that is not known stands for the usual one.
pub fn resolve_thinking(conv_level: Option<&str>, _global_enabled: bool) -> (r: (
    bool,
    Option<String>,
))
    ensures
        (r.0, opt_text(r.1)) == thinking_of(opt_str(conv_level)),
{
    match conv_level {
        Some(l) => if str_eq(l, "off") {
            (false, None)
        } else if one_of(l, &["low", "medium", "high", "xhigh", "max"]) {
            (true, Some(copy_str(l)))
        } else {
            (true, Some(copy_str("high")))
        },
        None => (true, Some(copy_str("high"))),
    }
}

/// The levels that can be chosen for a model.
pub fn chat_reasoning_efforts_for_model(
    database: &ModelDatabase,
    model: &str,
    api_format: Option<&str>,
) -> (r: Vec<String>)
    ensures
        strings(r@) == efforts_of(
            database@,
            model@,
            match api_format {
                Some(f) => f@,
                None => ""@,
            },
        ),
{
    match api_format {
        Some(f) => reasoning_efforts_for_model(database, model, f),
        None => reasoning_efforts_for_model(database, model, ""),
    }
}

// ---------------------------------------------------------------------
// Starting
// ---------------------------------------------------------------------

/// One of several answers that are made side by side.
#[derive(Debug)]
pub struct ReplyArm {
    pub group_id: String,
    pub provider_id: String,
    pub model: String,
}

/// The text of the last question.
pub open spec fn latest_question(messages: Seq<ChatMessageView>) -> Seq<char>
    decreases messages.len(),
{
    if messages.len() == 0 {
        Seq::empty()
    } else if messages.last().role == "user"@ {
        messages.last().content
    } else {
        latest_question(messages.drop_last())
    }
}

fn find_latest_question(messages: &Vec<ChatMessage>) -> (r: String)
    ensures
        r@ == latest_question(chat_message_views(messages@)),
{
    let ghost all = chat_message_views(messages@);
    let mut i: usize = messages.len();
    assert(all.take(all.len() as int) =~= all);
    while i > 0
        invariant
            i <= messages@.len(),
            all == chat_message_views(messages@),
            latest_question(all) == latest_question(all.take(i as int)),
        decreases i,
    {
        assert(all.take(i as int).last() == messages@[i - 1]@);
        assert(all.take(i as int).drop_last() =~= all.take(i - 1));
        if str_eq(messages[i - 1].role.as_str(), "user") {
            return messages[i - 1].content.clone();
        }
        i -= 1;
    }
    String::new()
}

/// How an answer is made: by another program, as images, or by a model. Providers
/// are given by their place in the list.
#[derive(Debug)]
pub enum ReplyStart {
    External { latest_user: String },
    DirectImages { provider: usize, model: String },
    Answer { provider: usize, model: String },
}

/// How an answer is made, as a value.
pub enum StartView {
    External { latest_user: Seq<char> },
    DirectImages { provider: int, model: Seq<char> },
    Answer { provider: int, model: Seq<char> },
}

impl View for ReplyStart {
    type V = StartView;

    open spec fn view(&self) -> StartView {
        match *self {
            ReplyStart::External { latest_user } => StartView::External {
                latest_user: latest_user@,
            },
            ReplyStart::DirectImages { provider, model } => StartView::DirectImages {
                provider: provider as int,
                model: model@,
            },
            ReplyStart::Answer { provider, model } => StartView::Answer {
                provider: provider as int,
                model: model@,
            },
        }
    }
}

/// What is said where a model that makes images is to answer side by side.
pub const IMAGES_NOT_SIDE_BY_SIDE: &'static str = "多模型并行回答暂不支持直接生图模型，请在多答选择中移除该模型。";

/// The provider and model that answer.
pub open spec fn asked(c: ConversationView, arm: Option<&ReplyArm>) -> (Seq<char>, Seq<char>) {
    match arm {
        Some(a) => (a.provider_id@, a.model@),
        None => (c.provider_id, c.model),
    }
}

/// How an answer is made, or why none can be.
pub open spec fn starting(
    c: ConversationView,
    providers: Seq<ModelProvider>,
    entries: Seq<(Seq<char>, JsonView)>,
    arm: Option<&ReplyArm>,
) -> Result<StartView, Seq<char>> {
    let (provider_id, model) = asked(c, arm);
    if c.agent_runtime.external {
        Ok(StartView::External { latest_user: latest_question(c.messages) })
    } else {
        match provider_index(providers, provider_id, 0) {
            None => Err("Chat provider not found"@),
            Some(i) => if providers[i].api_keys@.len() == 0 {
                Err(missing_key_text(providers[i].name@))
            } else if is_blank_text(model) {
                Err(MISSING_MODEL@)
            } else if c.agent_plan_state.mode == AgentPlanMode::Plan || !makes_images_directly(
                entries,
                providers[i],
                model,
            ) {
                Ok(StartView::Answer { provider: i, model })
            } else if arm is Some {
                Err(IMAGES_NOT_SIDE_BY_SIDE@)
            } else {
                Ok(StartView::DirectImages { provider: i, model })
            },
        }
    }
}

/// One of several models answers only where its own provider is known and has a key and
/// its model is named, and then it answers itself, with words.
pub proof fn law_arms_answer_themselves(
    c: ConversationView,
    providers: Seq<ModelProvider>,
    entries: Seq<(Seq<char>, JsonView)>,
    arm: ReplyArm,
)
    requires
        !c.agent_runtime.external,
    ensures
        ({
            let place = provider_index(providers, arm.provider_id@, 0);
            let start = starting(c, providers, entries, Some(&arm));
            &&& place is None ==> start == Err::<StartView, Seq<char>>("Chat provider not found"@)
            &&& place is Some && providers[place->0].api_keys@.len() == 0 ==> start is Err
            &&& is_blank_text(arm.model@) ==> start is Err
            &&& start matches Ok(view) ==> place is Some && view == (StartView::Answer {
                provider: place->0,
                model: arm.model@,
            })
        }),
{
}

/// How an answer is made or an error, as values.
pub open spec fn start_result(r: Result<ReplyStart, String>) -> Result<StartView, Seq<char>> {
    match r {
        Ok(s) => Ok(s@),
        Err(e) => Err(e@),
    }
}

/// How the answer to a conversation is made, by its own model or by that of `arm`.
pub fn start_reply(
    conversation: &Conversation,
    providers: &Vec<ModelProvider>,
    database: &ModelDatabase,
    arm: Option<&ReplyArm>,
) -> (r: Result<ReplyStart, String>)
    ensures
        start_result(r) == starting(conversation@, providers@, database@, arm),
{
    if conversation.agent_runtime.is_external() {
        return Ok(
            ReplyStart::External { latest_user: find_latest_question(&conversation.messages) },
        );
    }
    let provider_id = match arm {
        Some(a) => a.provider_id.clone(),
        None => conversation.provider_id.clone(),
    };
    let model = match arm {
        Some(a) => a.model.clone(),
        None => conversation.model.clone(),
    };
    let i = match find_provider(providers, provider_id.as_str()) {
        Some(i) => i,
        None => {
            return Err(copy_str("Chat provider not found"));
        },
    };
    if providers[i].api_keys.len() == 0 {
        return Err(format_chat_missing_api_key_error(providers[i].name.as_str()));
    }
    if is_blank(model.as_str()) {
        return Err(chat_missing_model_error());
    }
    if is_plan_mode(&conversation.agent_plan_state) || !model_can_generate_images_directly(
        database,
        &providers[i],
        model.as_str(),
    ) {
        return Ok(ReplyStart::Answer { provider: i, model });
    }
    if arm.is_some() {
        return Err(copy_str(IMAGES_NOT_SIDE_BY_SIDE));
    }
    Ok(ReplyStart::DirectImages { provider: i, model })
}

/// How often a request is tried.
pub fn reply_attempts(retry_enabled: bool, retry_attempts: u32) -> (r: usize)
    ensures
        r == if retry_enabled {
            retry_attempts as int
        } else {
            1
        },
{
    if retry_enabled {
        retry_attempts as usize
    } else {
        1
    }
}

/// The identifier of a run.
pub open spec fn run_name(external: bool, generation: u64, unique: Seq<char>) -> Seq<char> {
    (if external {
        "chat-run-ext-"@
    } else {
        "chat-run-"@
    }) + decimal(generation as nat) + "-"@ + unique
}

/// A new identifier for a run.
pub fn new_run_id(external: bool, generation: u64) -> (r: String)
    ensures
        exists|unique: Seq<char>| r@ == #[trigger] run_name(external, generation, unique),
{
    let unique = new_uuid();
    let n = decimal_of(generation);
    let head = if external {
        "chat-run-ext-"
    } else {
        "chat-run-"
    };
    let r = concat4(head, n.as_str(), "-", unique.as_str());
    assert(r@ == run_name(external, generation, unique@));
    r
}

/// The identifier of a message.
pub open spec fn message_name(unique: Seq<char>) -> Seq<char> {
    "msg_"@ + unique
}

/// A new identifier for a message.
pub fn new_message_id() -> (r: String)
    ensures
        exists|unique: Seq<char>| r@ == #[trigger] message_name(unique),
{
    let unique = new_uuid();
    let r = concat2("msg_", unique.as_str());
    assert(r@ == message_name(unique@));
    r
}

// ---------------------------------------------------------------------
// Images that another model describes
// ---------------------------------------------------------------------

/// How the description of images ended.
#[derive(Debug)]
pub enum Described {
    Done(String),
    Failed(String),
    Cancelled,
}

/// What is noted of a description, and the error that the answer ends with.
#[derive(Debug)]
pub struct DescriptionEnd {
    pub status: ToolCallStatus,
    pub preview: Option<String>,
    pub error: Option<String>,
    pub stops: Option<String>,
}

/// What is noted of a description: the first thousand characters of what came, or
/// what went wrong. One that did not come ends the answer.
pub fn end_description(described: &Described) -> (r: DescriptionEnd)
    ensures
        match *described {
            Described::Done(text) => r.status == ToolCallStatus::Success && opt_text(r.preview)
                == Some(first_chars(trimmed(text@), 1000)) && r.error is None && r.stops is None,
            Described::Failed(e) => r.status == ToolCallStatus::Error && r.preview is None
                && opt_text(r.error) == Some(e@) && opt_text(r.stops) == Some(e@),
            Described::Cancelled => r.status == ToolCallStatus::Cancelled && r.preview is None
                && opt_text(r.error) == Some("Mixer vision analysis cancelled"@) && opt_text(
                r.stops,
            ) == Some("cancelled"@),
        },
{
    match described {
        Described::Done(text) => {
            let shown = trim(text.as_str());
            DescriptionEnd {
                status: ToolCallStatus::Success,
                preview: Some(truncate_chars(shown.as_str(), 1000)),
                error: None,
                stops: None,
            }
        },
        Described::Failed(e) => DescriptionEnd {
            status: ToolCallStatus::Error,
            preview: None,
            error: Some(e.clone()),
            stops: Some(e.clone()),
        },
        Described::Cancelled => DescriptionEnd {
            status: ToolCallStatus::Cancelled,
            preview: None,
            error: Some(copy_str("Mixer vision analysis cancelled")),
            stops: Some(copy_str("cancelled")),
        },
    }
}

/// What the model is given: the question with the description and no images, or
/// the question with its images.
pub fn question_for_model(question: Option<&str>, described: Option<String>) -> (r: (
    Option<String>,
    bool,
))
    ensures
        opt_text(r.0) == match described {
            Some(d) => Some(d@),
            None => opt_str(question),
        },
        r.1 == (described is None),
{
    match described {
        Some(d) => (Some(d), false),
        None => (own_opt(question), true),
    }
}

// ---------------------------------------------------------------------
// Preparing
// ---------------------------------------------------------------------

/// What is set for tools.
#[derive(Debug)]
pub struct ChatToolsConfig {
    pub approval_policy: String,
    pub max_tool_rounds: Option<u32>,
    pub skill_fallback_mode: String,
}

/// What is set for tools, as values.
#[verifier::ext_equal]
pub struct ToolsView {
    pub approval_policy: Seq<char>,
    pub max_tool_rounds: Option<u32>,
    pub skill_fallback_mode: Seq<char>,
}

impl View for ChatToolsConfig {
    type V = ToolsView;

    open spec fn view(&self) -> ToolsView {
        ToolsView {
            approval_policy: self.approval_policy@,
            max_tool_rounds: self.max_tool_rounds,
            skill_fallback_mode: self.skill_fallback_mode@,
        }
    }
}

/// The rounds of tool calls of an agent that hands work out: at least `least`, and
/// without a limit where there is none.
pub fn raised_tool_rounds(configured: Option<u32>, least: u32) -> (r: Option<u32>)
    ensures
        r == match configured {
            Some(n) => Some(
                if n < least {
                    least
                } else {
                    n
                },
            ),
            None => None,
        },
{
    match configured {
        Some(n) => if n < least {
            Some(least)
        } else {
            Some(n)
        },
        None => None,
    }
}

/// The tools of a run: all of them are allowed where nobody can be asked.
pub open spec fn tools_for_run(t: ToolsView, unattended: bool, orchestrates: bool, least: u32) -> ToolsView {
    ToolsView {
        approval_policy: if unattended {
            "auto"@
        } else {
            t.approval_policy
        },
        max_tool_rounds: match t.max_tool_rounds {
            Some(n) => if orchestrates && n < least {
                Some(least)
            } else {
                Some(n)
            },
            None => None,
        },
        skill_fallback_mode: t.skill_fallback_mode,
    }
}

/// The tools where the provider takes none: a skill is then given by its text.
pub open spec fn tools_without_calls(t: ToolsView, has_skill: bool) -> ToolsView {
    if has_skill && t.skill_fallback_mode == "progressive"@ {
        ToolsView { skill_fallback_mode: "skill_md_only"@, ..t }
    } else {
        t
    }
}

/// What a run starts from.
#[derive(Debug)]
pub struct RunSetup {
    /// One of several answers that are made side by side.
    pub is_arm: bool,
    /// Nobody sits in front of the program.
    pub probe: bool,
    /// The conversation makes an assistant.
    pub builds_assistant: bool,
    pub tools: ChatToolsConfig,
    pub skill_id: Option<String>,
    pub memory_warning: Option<String>,
    pub thinking_enabled: bool,
    /// The least number of rounds of an agent that hands work out.
    pub least_rounds: u32,
}

/// How a run is made.
#[derive(Debug)]
pub struct RunPlan {
    pub tools: ChatToolsConfig,
    pub fallback_tools: ChatToolsConfig,
    /// The only tool is the one that saves an assistant.
    pub only_saves_assistant: bool,
    pub offers_sub_agents: bool,
    pub thinking_enabled: bool,
    pub thinking_level: Option<String>,
    pub suppresses_partial_saves: bool,
}

/// The plan of a run is the one that its setup asks for.
pub open spec fn planned(c: ConversationView, setup: RunSetup, plan: RunPlan) -> bool {
    let plans = c.agent_plan_state.mode == AgentPlanMode::Plan;
    let orchestrates = c.agent_plan_state.mode == AgentPlanMode::Orchestrate;
    &&& plan.tools@ == tools_for_run(
        setup.tools@,
        setup.is_arm || setup.probe,
        orchestrates,
        setup.least_rounds,
    )
    &&& plan.fallback_tools@ == tools_without_calls(plan.tools@, setup.skill_id is Some)
    &&& plan.only_saves_assistant == setup.builds_assistant
    &&& plan.offers_sub_agents == (!plans && !setup.builds_assistant)
    &&& (plan.thinking_enabled, opt_text(plan.thinking_level)) == thinking_of(c.thinking_level)
    &&& plan.suppresses_partial_saves == setup.is_arm
}

/// The conversation as the run finds it: without a skill that there is not, and
/// with what memory warns of.
pub open spec fn readied(c: ConversationView, setup: RunSetup) -> ConversationView {
    ConversationView {
        active_skill_id: if setup.skill_id is None {
            None
        } else {
            c.active_skill_id
        },
        context_state: match setup.memory_warning {
            Some(w) => ContextView { warning: Some(w@), ..c.context_state },
            None => c.context_state,
        },
        ..c
    }
}

/// The skill that is asked for: the one of the message, else that of the
/// conversation.
pub fn requested_skill(active_skill_id: Option<&str>, conversation: &Conversation) -> (r: Option<
    String,
>)
    ensures
        opt_text(r) == match active_skill_id {
            Some(s) => Some(s@),
            None => conversation@.active_skill_id,
        },
{
    match active_skill_id {
        Some(s) => Some(copy_str(s)),
        None => copy_opt(&conversation.active_skill_id),
    }
}

/// A text that is not blank, as it is.
pub fn unless_blank(t: Option<String>) -> (r: Option<String>)
    ensures
        r == match t {
            Some(s) => if is_blank_text(s@) {
                None
            } else {
                Some(s)
            },
            None => None,
        },
{
    match t {
        Some(s) => if is_blank(s.as_str()) {
            None
        } else {
            Some(s)
        },
        None => None,
    }
}

/// How a run is made, and what it changes in the conversation before it starts.
pub fn prepare_run(conversation: &mut Conversation, setup: &RunSetup) -> (r: RunPlan)
    ensures
        planned(old(conversation)@, *setup, r),
        final(conversation)@ == readied(old(conversation)@, *setup),
{
    let plans = is_plan_mode(&conversation.agent_plan_state);
    let orchestrates = is_orchestrate_mode(&conversation.agent_plan_state);
    let level = copy_opt(&conversation.thinking_level);
    let (thinking_enabled, thinking_level) = match &level {
        Some(l) => resolve_thinking(Some(l.as_str()), setup.thinking_enabled),
        None => resolve_thinking(None, setup.thinking_enabled),
    };
    if setup.skill_id.is_none() {
        conversation.active_skill_id = None;
    }
    if let Some(w) = &setup.memory_warning {
        conversation.context_state.warning = Some(w.clone());
    }
    let policy = if setup.is_arm || setup.probe {
        copy_str("auto")
    } else {
        setup.tools.approval_policy.clone()
    };
    let rounds = if orchestrates {
        raised_tool_rounds(setup.tools.max_tool_rounds, setup.least_rounds)
    } else {
        setup.tools.max_tool_rounds
    };
    let mode = setup.tools.skill_fallback_mode.clone();
    let fallback_mode = if setup.skill_id.is_some() && str_eq(mode.as_str(), "progressive") {
        copy_str("skill_md_only")
    } else {
        mode.clone()
    };
    let tools = ChatToolsConfig {
        approval_policy: policy.clone(),
        max_tool_rounds: rounds,
        skill_fallback_mode: mode,
    };
    let fallback_tools = ChatToolsConfig {
        approval_policy: policy,
        max_tool_rounds: rounds,
        skill_fallback_mode: fallback_mode,
    };
    RunPlan {
        tools,
        fallback_tools,
        only_saves_assistant: setup.builds_assistant,
        offers_sub_agents: !plans && !setup.builds_assistant,
        thinking_enabled,
        thinking_level,
        suppresses_partial_saves: setup.is_arm,
    }
}

// ---------------------------------------------------------------------
// Finishing
// ---------------------------------------------------------------------

/// A number one higher, as far as it goes.
pub open spec fn one_more(n: u32) -> u32 {
    if n == u32::MAX {
        n
    } else {
        (n + 1) as u32
    }
}

/// The context after a run that summed messages up. The summary then stands for
/// the messages in `ids`.
pub open spec fn summed_up(
    c: ContextView,
    boundary: Option<BoundaryView>,
    summary: Option<SummaryView>,
    ids: Seq<Seq<char>>,
    warning: Option<Seq<char>>,
) -> ContextView {
    let noted = match boundary {
        Some(b) => ContextView { compaction_boundaries: c.compaction_boundaries.push(b), ..c },
        None => c,
    };
    match summary {
        Some(s) => ContextView {
            summary: Some(SummaryView { source_message_ids: ids, ..s }),
            last_compressed_at: Some(s.created_at),
            compressed_message_count: ids.len() as usize,
            compression_count: one_more(c.compression_count),
            warning,
            ..noted
        },
        None => noted,
    }
}

/// The value of a boundary, where there is one.
pub open spec fn boundary_view(b: Option<CompactionBoundaryRecord>) -> Option<BoundaryView> {
    match b {
        Some(x) => Some(x@),
        None => None,
    }
}

/// Writes down what a run summed up: where, in which words, and for which messages.
/// `warning` is what is said of the quality after that many summaries.
pub fn record_summing_up(
    conversation: &mut Conversation,
    boundary: Option<CompactionBoundaryRecord>,
    summary: Option<ConversationContextSummary>,
    source_ids: Vec<String>,
    warning: Option<String>,
)
    ensures
        final(conversation)@ == (ConversationView {
            context_state: summed_up(
                old(conversation)@.context_state,
                boundary_view(boundary),
                summary_view(summary),
                strings(source_ids@),
                opt_text(warning),
            ),
            ..old(conversation)@
        }),
{
    if let Some(b) = boundary {
        let ghost before = conversation.context_state.compaction_boundaries@;
        conversation.context_state.compaction_boundaries.push(b);
        assert(boundary_views(conversation.context_state.compaction_boundaries@)
            =~= boundary_views(before).push(b@));
    }
    if let Some(s) = summary {
        let mut kept = s;
        let count: usize = source_ids.len();
        assert(strings(source_ids@).len() == count);
        kept.source_message_ids = source_ids;
        conversation.context_state.last_compressed_at = Some(kept.created_at);
        conversation.context_state.compressed_message_count = count;
        let n = conversation.context_state.compression_count;
        conversation.context_state.compression_count = if n == u32::MAX {
            n
        } else {
            n + 1
        };
        conversation.context_state.summary = Some(kept);
        conversation.context_state.warning = warning;
    }
}

/// The answer that a run makes. `group` names the group, the provider and the model
/// where it is one of several answers.
pub open spec fn answer(
    id: Seq<char>,
    content: Seq<char>,
    reasoning: Option<Seq<char>>,
    artifacts: Seq<ArtifactView>,
    tool_calls: Seq<ToolRecordView>,
    api_messages: Seq<JsonView>,
    segments: Seq<JsonView>,
    skill_id: Option<Seq<char>>,
    run_entry: Option<Seq<char>>,
    stream_outcome: Option<Seq<char>>,
    usage: Option<ModelUsage>,
    last_step_usage: Option<ModelUsage>,
    plan: Option<PlanView>,
    group: Option<(String, String, String)>,
    now: i64,
) -> ChatMessageView {
    ChatMessageView {
        reasoning,
        artifacts,
        tool_calls,
        segments,
        agent_plan: plan,
        api_messages,
        active_skill_id: skill_id,
        run_entry,
        stream_outcome,
        usage,
        anchor_usage: last_step_usage,
        group_id: match group {
            Some(g) => Some(g.0@),
            None => None,
        },
        provider_id: match group {
            Some(g) => Some(g.1@),
            None => None,
        },
        model: match group {
            Some(g) => Some(g.2@),
            None => None,
        },
        ..plain_message(id, "assistant"@, content, now)
    }
}

/// The answer that a run makes, at the time `now`.
pub fn assistant_message_at(
    id: String,
    content: String,
    reasoning: Option<String>,
    artifacts: Vec<ChatToolArtifact>,
    tool_calls: Vec<ToolCallRecord>,
    api_messages: Vec<Json>,
    segments: Vec<Json>,
    skill_id: Option<&str>,
    run_entry: Option<&str>,
    stream_outcome: Option<&str>,
    usage: Option<ModelUsage>,
    last_step_usage: Option<ModelUsage>,
    plan: Option<AgentPlanState>,
    group: Option<(String, String, String)>,
    now: i64,
) -> (r: ChatMessage)
    ensures
        r@ == answer(
            id@,
            content@,
            opt_text(reasoning),
            artifact_views(artifacts@),
            tool_record_views(tool_calls@),
            items_view(api_messages@),
            items_view(segments@),
            opt_str(skill_id),
            opt_str(run_entry),
            opt_str(stream_outcome),
            usage,
            last_step_usage,
            plan_view(plan),
            group,
            now,
        ),
{
    let mut r = ChatMessage::plain(id, "assistant", content.as_str(), now);
    r.reasoning = reasoning;
    r.artifacts = artifacts;
    r.tool_calls = tool_calls;
    r.segments = segments;
    r.agent_plan = plan;
    r.api_messages = api_messages;
    r.active_skill_id = own_opt(skill_id);
    r.run_entry = own_opt(run_entry);
    r.stream_outcome = own_opt(stream_outcome);
    r.usage = usage;
    r.anchor_usage = last_step_usage;
    if let Some((group_id, provider_id, model)) = group {
        r.group_id = Some(group_id);
        r.provider_id = Some(provider_id);
        r.model = Some(model);
    }
    r
}

/// The answer that a run makes.
pub fn build_assistant_message(
    id: String,
    content: String,
    reasoning: Option<String>,
    artifacts: Vec<ChatToolArtifact>,
    tool_calls: Vec<ToolCallRecord>,
    api_messages: Vec<Json>,
    segments: Vec<Json>,
    skill_id: Option<&str>,
    run_entry: Option<&str>,
    stream_outcome: Option<&str>,
    usage: Option<ModelUsage>,
    last_step_usage: Option<ModelUsage>,
    plan: Option<AgentPlanState>,
    group: Option<(String, String, String)>,
) -> (r: ChatMessage)
    ensures
        r@ == answer(
            id@,
            content@,
            opt_text(reasoning),
            artifact_views(artifacts@),
            tool_record_views(tool_calls@),
            items_view(api_messages@),
            items_view(segments@),
            opt_str(skill_id),
            opt_str(run_entry),
            opt_str(stream_outcome),
            usage,
            last_step_usage,
            plan_view(plan),
            group,
            r@.timestamp,
        ),
{
    assistant_message_at(
        id,
        content,
        reasoning,
        artifacts,
        tool_calls,
        api_messages,
        segments,
        skill_id,
        run_entry,
        stream_outcome,
        usage,
        last_step_usage,
        plan,
        group,
        now_timestamp(),
    )
}

/// How a run of the agent ended: what it said and did, the plan that it drafted, and
/// where it summed messages up.
#[derive(Debug)]
pub struct RunEnd {
    pub message_id: String,
    pub content: String,
    pub reasoning: Option<String>,
    pub tool_records: Vec<ToolCallRecord>,
    pub segments: Vec<Json>,
    pub api_messages: Vec<Json>,
    pub skill_id: Option<String>,
    pub stream_outcome: String,
    pub usage: Option<ModelUsage>,
    pub last_step_usage: Option<ModelUsage>,
    pub plan: Option<AgentPlanState>,
    pub boundary: Option<CompactionBoundaryRecord>,
    pub summary: Option<ConversationContextSummary>,
    pub source_ids: Vec<String>,
    pub warning: Option<String>,
}

/// The answer of a run. What was done before it, to describe images, comes first.
pub open spec fn run_answer(
    records: Seq<ToolRecordView>,
    segments: Seq<JsonView>,
    end: RunEnd,
    entry: AgentRunEntry,
    now: i64,
) -> ChatMessageView {
    answer(
        end.message_id@,
        end.content@,
        opt_text(end.reasoning),
        Seq::empty(),
        records + tool_record_views(end.tool_records@),
        items_view(end.api_messages@),
        segments + items_view(end.segments@),
        opt_text(end.skill_id),
        Some(entry_name(entry)),
        Some(end.stream_outcome@),
        end.usage,
        end.last_step_usage,
        plan_view(end.plan),
        None,
        now,
    )
}

/// An answer as that of one of several models: the message names the group, the
/// provider and the model.
pub open spec fn arm_answer(arm: ReplyArm, message: ChatMessageView) -> ChatMessageView {
    ChatMessageView {
        role: "assistant"@,
        group_id: Some(arm.group_id@),
        provider_id: Some(arm.provider_id@),
        model: Some(arm.model@),
        ..message
    }
}

/// Makes a message the answer of one of several models.
pub fn finish_arm(arm: &ReplyArm, message: ChatMessage) -> (r: ChatMessage)
    ensures
        r@ == arm_answer(*arm, message@),
{
    let mut r = message;
    r.role = copy_str("assistant");
    r.group_id = Some(arm.group_id.clone());
    r.provider_id = Some(arm.provider_id.clone());
    r.model = Some(arm.model.clone());
    r
}

/// What becomes of an answer: it is handed back to the one who merges several, and
/// nothing is saved; or it goes into its conversation, which is then saved.
#[derive(Debug)]
pub enum ReplyEnd {
    HandBack(ChatMessage),
    Push(ChatMessage),
}

/// What becomes of an answer, as a value.
pub enum ReplyEndView {
    HandBack(ChatMessageView),
    Push(ChatMessageView),
}

impl View for ReplyEnd {
    type V = ReplyEndView;

    open spec fn view(&self) -> ReplyEndView {
        match *self {
            ReplyEnd::HandBack(m) => ReplyEndView::HandBack(m@),
            ReplyEnd::Push(m) => ReplyEndView::Push(m@),
        }
    }
}

/// Ends a reply. The answer of one of several models leaves the conversation alone;
/// one that stands alone brings with it what the run summed up. `records` and
/// `segments` tell what was done before the run.
pub fn finish_reply(
    conversation: &mut Conversation,
    arm: Option<&ReplyArm>,
    records: Vec<ToolCallRecord>,
    segments: Vec<Json>,
    end: RunEnd,
    entry: AgentRunEntry,
    now: i64,
) -> (r: ReplyEnd)
    ensures
        ({
            let message = run_answer(
                tool_record_views(records@),
                items_view(segments@),
                end,
                entry,
                now,
            );
            match arm {
                Some(a) => r@ == ReplyEndView::HandBack(arm_answer(*a, message))
                    && final(conversation)@ == old(conversation)@,
                None => r@ == ReplyEndView::Push(message) && final(conversation)@ == (
                ConversationView {
                    context_state: summed_up(
                        old(conversation)@.context_state,
                        boundary_view(end.boundary),
                        summary_view(end.summary),
                        strings(end.source_ids@),
                        opt_text(end.warning),
                    ),
                    ..old(conversation)@
                }),
            }
        }),
{
    let ghost all = end;
    let ghost first_records = records@;
    let ghost first_segments = segments@;
    let RunEnd {
        message_id,
        content,
        reasoning,
        tool_records,
        segments: run_segments,
        api_messages,
        skill_id,
        stream_outcome,
        usage,
        last_step_usage,
        plan,
        boundary,
        summary,
        source_ids,
        warning,
    } = end;
    let mut run_records = tool_records;
    let mut tool_calls = records;
    tool_calls.append(&mut run_records);
    let mut later = run_segments;
    let mut told = segments;
    told.append(&mut later);
    proof {
        assert(tool_record_views(tool_calls@) =~= tool_record_views(first_records)
            + tool_record_views(all.tool_records@));
        assert(items_view(told@) =~= items_view(first_segments) + items_view(all.segments@));
    }
    let message = assistant_message_at(
        message_id,
        content,
        reasoning,
        Vec::new(),
        tool_calls,
        api_messages,
        told,
        as_opt_str(&skill_id),
        Some(agent_run_entry_label(entry)),
        Some(stream_outcome.as_str()),
        usage,
        last_step_usage,
        plan,
        None,
        now,
    );
    assert(message@ =~= run_answer(
        tool_record_views(first_records),
        items_view(first_segments),
        all,
        entry,
        now,
    ));
    match arm {
        Some(a) => ReplyEnd::HandBack(finish_arm(a, message)),
        None => {
            record_summing_up(conversation, boundary, summary, source_ids, warning);
            ReplyEnd::Push(message)
        },
    }
}

// ---------------------------------------------------------------------
// Answers side by side
// ---------------------------------------------------------------------

/// The answer that stands for one that could not be made.
pub open spec fn failed_answer(
    id: Seq<char>,
    group_id: Seq<char>,
    provider_id: Seq<char>,
    model: Seq<char>,
    error: Seq<char>,
    run_entry: Seq<char>,
    skill_id: Option<Seq<char>>,
    now: i64,
) -> ChatMessageView {
    ChatMessageView {
        active_skill_id: skill_id,
        run_entry: Some(run_entry),
        stream_outcome: Some("error"@),
        group_id: Some(group_id),
        provider_id: Some(provider_id),
        model: Some(model),
        ..plain_message(id, "assistant"@, error, now)
    }
}

/// The answer that stands for one that could not be made, with identifier and time.
pub fn error_arm_message_with(
    id: String,
    group_id: &str,
    provider_id: &str,
    model: &str,
    error: &str,
    run_entry: &str,
    skill_id: Option<&str>,
    now: i64,
) -> (r: ChatMessage)
    ensures
        r@ == failed_answer(
            id@,
            group_id@,
            provider_id@,
            model@,
            error@,
            run_entry@,
            opt_str(skill_id),
            now,
        ),
{
    let mut r = ChatMessage::plain(id, "assistant", error, now);
    r.active_skill_id = own_opt(skill_id);
    r.run_entry = Some(copy_str(run_entry));
    r.stream_outcome = Some(copy_str("error"));
    r.group_id = Some(copy_str(group_id));
    r.provider_id = Some(copy_str(provider_id));
    r.model = Some(copy_str(model));
    r
}

/// The answer that stands for one that could not be made.
pub fn build_error_arm_message(
    group_id: &str,
    provider_id: &str,
    model: &str,
    error: &str,
    run_entry: &str,
    skill_id: Option<&str>,
) -> (r: ChatMessage)
    ensures
        exists|unique: Seq<char>, now: i64|
            r@ == #[trigger] failed_answer(
                message_name(unique),
                group_id@,
                provider_id@,
                model@,
                error@,
                run_entry@,
                opt_str(skill_id),
                now,
            ),
{
    let id = new_message_id();
    let ghost unique = choose|unique: Seq<char>| id@ == #[trigger] message_name(unique);
    let now = now_timestamp();
    let r = error_arm_message_with(
        id,
        group_id,
        provider_id,
        model,
        error,
        run_entry,
        skill_id,
        now,
    );
    assert(r@ == failed_answer(
        message_name(unique),
        group_id@,
        provider_id@,
        model@,
        error@,
        run_entry@,
        opt_str(skill_id),
        now,
    ));
    r
}

/// How one of several answers ended.
#[derive(Debug)]
pub enum ArmOutcome {
    Message(ChatMessage),
    Nothing,
    Failed(String),
}

/// How the answer of one provider and model ended.
#[derive(Debug)]
pub struct ArmResult {
    pub provider_id: String,
    pub model: String,
    pub outcome: ArmOutcome,
}

/// How one of several answers ended, as a value.
pub enum OutcomeView {
    Message(ChatMessageView),
    Nothing,
    Failed(Seq<char>),
}

/// How the answer of one provider and model ended, as a value.
pub struct ArmResultView {
    pub provider_id: Seq<char>,
    pub model: Seq<char>,
    pub outcome: OutcomeView,
}

impl View for ArmResult {
    type V = ArmResultView;

    open spec fn view(&self) -> ArmResultView {
        ArmResultView {
            provider_id: self.provider_id@,
            model: self.model@,
            outcome: match self.outcome {
                ArmOutcome::Message(m) => OutcomeView::Message(m@),
                ArmOutcome::Nothing => OutcomeView::Nothing,
                ArmOutcome::Failed(e) => OutcomeView::Failed(e@),
            },
        }
    }
}

/// How the answers ended, in order.
pub open spec fn arm_result_views(v: Seq<ArmResult>) -> Seq<ArmResultView> {
    Seq::new(v.len(), |i: int| v[i]@)
}

/// What several answers have in common: the group, the skill and the time.
#[derive(Debug)]
pub struct GroupInfo {
    pub group_id: String,
    pub skill_id: Option<String>,
    pub now: i64,
}

/// The column that the result number `i` leaves: its answer, or one that stands for
/// it where it failed. What is cancelled leaves none.
pub open spec fn column(r: ArmResultView, id: Seq<char>, group: GroupInfo) -> Option<ChatMessageView> {
    match r.outcome {
        OutcomeView::Message(m) => Some(m),
        OutcomeView::Nothing => None,
        OutcomeView::Failed(e) => if e == "cancelled"@ {
            None
        } else {
            Some(
                failed_answer(
                    id,
                    group.group_id@,
                    r.provider_id,
                    r.model,
                    e,
                    entry_name(AgentRunEntry::Send),
                    opt_text(group.skill_id),
                    group.now,
                ),
            )
        },
    }
}

/// The messages with the columns of the results put in, in order.
pub open spec fn with_columns(
    messages: Seq<ChatMessageView>,
    results: Seq<ArmResultView>,
    ids: Seq<Seq<char>>,
    group: GroupInfo,
) -> Seq<ChatMessageView>
    decreases results.len(),
{
    if results.len() == 0 {
        messages
    } else {
        let before = with_columns(messages, results.drop_last(), ids, group);
        match column(results.last(), ids[results.len() - 1], group) {
            Some(m) => upserted(before, m),
            None => before,
        }
    }
}

/// A result leaves a column.
pub open spec fn leaves_column(r: ArmResultView) -> bool {
    match r.outcome {
        OutcomeView::Message(_) => true,
        OutcomeView::Nothing => false,
        OutcomeView::Failed(e) => e != "cancelled"@,
    }
}

/// A result was cancelled.
pub open spec fn was_cancelled(r: ArmResultView) -> bool {
    match r.outcome {
        OutcomeView::Failed(e) => e == "cancelled"@,
        _ => false,
    }
}

/// Some result leaves a column.
pub open spec fn some_column(results: Seq<ArmResultView>) -> bool {
    exists|i: int| 0 <= i < results.len() && leaves_column(#[trigger] results[i])
}

/// Some result was cancelled.
pub open spec fn some_cancelled(results: Seq<ArmResultView>) -> bool {
    exists|i: int| 0 <= i < results.len() && was_cancelled(#[trigger] results[i])
}

/// The conversation with the answers that were made side by side, and whether there
/// are any: without one the conversation stays as it is, and the question counts as
/// cancelled where one was.
pub open spec fn merged(
    c: ConversationView,
    results: Seq<ArmResultView>,
    ids: Seq<Seq<char>>,
    group: GroupInfo,
) -> (ConversationView, Result<(), Seq<char>>) {
    if some_column(results) {
        (
            ConversationView {
                messages: with_columns(c.messages, results, ids, group),
                updated_at: group.now,
                ..c
            },
            Ok(()),
        )
    } else if some_cancelled(results) {
        (c, Err("cancelled"@))
    } else {
        (c, Err("全部模型回答均失败"@))
    }
}

/// Nothing, or an error, as values.
pub open spec fn unit_result(r: Result<(), String>) -> Result<(), Seq<char>> {
    match r {
        Ok(_) => Ok(()),
        Err(e) => Err(e@),
    }
}

/// Puts the answers that were made side by side into the conversation. `ids` are the
/// identifiers for the answers that stand for failed ones.
pub fn merge_arm_results_with(
    conversation: &mut Conversation,
    results: &Vec<ArmResult>,
    ids: &Vec<String>,
    group: &GroupInfo,
) -> (r: Result<(), String>)
    requires
        ids@.len() == results@.len(),
    ensures
        (final(conversation)@, unit_result(r)) == merged(
            old(conversation)@,
            arm_result_views(results@),
            strings(ids@),
            *group,
        ),
{
    let ghost all = arm_result_views(results@);
    let ghost names = strings(ids@);
    let ghost start = conversation@;
    let mut produced = false;
    let mut cancelled = false;
    let mut i: usize = 0;
    assert(all.take(0) =~= Seq::<ArmResultView>::empty());
    while i < results.len()
        invariant
            i <= results@.len(),
            ids@.len() == results@.len(),
            all == arm_result_views(results@),
            names == strings(ids@),
            conversation@ == (ConversationView {
                messages: with_columns(start.messages, all.take(i as int), names, *group),
                ..start
            }),
            produced == some_column(all.take(i as int)),
            cancelled == some_cancelled(all.take(i as int)),
            !produced ==> conversation@ == start,
        decreases results@.len() - i,
    {
        proof {
            let next = all.take(i + 1);
            assert(next.drop_last() =~= all.take(i as int));
            assert(next.last() == results@[i as int]@);
            assert(names[i as int] == ids@[i as int]@);
            lemma_some_more(all, i as int);
        }
        match &results[i].outcome {
            ArmOutcome::Message(m) => {
                upsert_assistant_message(conversation, m.copy());
                produced = true;
            },
            ArmOutcome::Nothing => {},
            ArmOutcome::Failed(e) => if str_eq(e.as_str(), "cancelled") {
                cancelled = true;
            } else {
                let skill = match &group.skill_id {
                    Some(s) => Some(s.as_str()),
                    None => None,
                };
                let message = error_arm_message_with(
                    ids[i].clone(),
                    group.group_id.as_str(),
                    results[i].provider_id.as_str(),
                    results[i].model.as_str(),
                    e.as_str(),
                    agent_run_entry_label(AgentRunEntry::Send),
                    skill,
                    group.now,
                );
                upsert_assistant_message(conversation, message);
                produced = true;
            },
        }
        i += 1;
    }
    assert(all.take(all.len() as int) =~= all);
    if produced {
        conversation.updated_at = group.now;
        return Ok(());
    }
    if cancelled {
        return Err(copy_str("cancelled"));
    }
    Err(copy_str("全部模型回答均失败"))
}

proof fn lemma_some_more(all: Seq<ArmResultView>, i: int)
    requires
        0 <= i < all.len(),
    ensures
        some_column(all.take(i + 1)) == (some_column(all.take(i)) || leaves_column(all[i])),
        some_cancelled(all.take(i + 1)) == (some_cancelled(all.take(i)) || was_cancelled(all[i])),
{
    let next = all.take(i + 1);
    let before = all.take(i);
    assert(next[i] == all[i]);
    if some_column(before) {
        let j = choose|j: int| 0 <= j < before.len() && leaves_column(#[trigger] before[j]);
        assert(next[j] == before[j]);
    }
    if some_column(next) {
        let j = choose|j: int| 0 <= j < next.len() && leaves_column(#[trigger] next[j]);
        if j < i {
            assert(before[j] == next[j]);
        }
    }
    if some_cancelled(before) {
        let j = choose|j: int| 0 <= j < before.len() && was_cancelled(#[trigger] before[j]);
        assert(next[j] == before[j]);
    }
    if some_cancelled(next) {
        let j = choose|j: int| 0 <= j < next.len() && was_cancelled(#[trigger] next[j]);
        if j < i {
            assert(before[j] == next[j]);
        }
    }
}

/// Identifiers of messages, one for each name.
pub open spec fn message_names(uniques: Seq<Seq<char>>) -> Seq<Seq<char>> {
    Seq::new(uniques.len(), |i: int| message_name(uniques[i]))
}

/// Puts the answers that were made side by side into the conversation, now.
pub fn run_reply_fan_out(
    conversation: &mut Conversation,
    results: &Vec<ArmResult>,
    group_id: &str,
    skill_id: Option<&str>,
) -> (r: Result<(), String>)
    ensures
        exists|uniques: Seq<Seq<char>>, group: GroupInfo|
            group.group_id@ == group_id@ && opt_text(group.skill_id) == opt_str(skill_id)
                && uniques.len() == results@.len() && (final(conversation)@, unit_result(r))
                == #[trigger] merged(
                old(conversation)@,
                arm_result_views(results@),
                message_names(uniques),
                group,
            ),
{
    let mut ids: Vec<String> = Vec::new();
    let ghost mut uniques: Seq<Seq<char>> = Seq::empty();
    let mut i: usize = 0;
    assert(strings(ids@) =~= message_names(uniques));
    while i < results.len()
        invariant
            i <= results@.len(),
            ids@.len() == i,
            uniques.len() == i,
            strings(ids@) == message_names(uniques),
        decreases results@.len() - i,
    {
        let id = new_message_id();
        let ghost before = ids@;
        let ghost named = uniques;
        proof {
            let unique = choose|unique: Seq<char>| id@ == #[trigger] message_name(unique);
            uniques = uniques.push(unique);
        }
        ids.push(id);
        assert(strings(ids@) =~= strings(before).push(id@));
        assert(message_names(uniques) =~= message_names(named).push(id@));
        i += 1;
    }
    let group = GroupInfo {
        group_id: copy_str(group_id),
        skill_id: own_opt(skill_id),
        now: now_timestamp(),
    };
    let ghost start = conversation@;
    let r = merge_arm_results_with(conversation, results, &ids, &group);
    assert((conversation@, unit_result(r)) == merged(
        start,
        arm_result_views(results@),
        message_names(uniques),
        group,
    ));
    r
}

proof fn lemma_message_index(messages: Seq<ChatMessageView>, id: Seq<char>, from: int)
    requires
        0 <= from,
    ensures
        message_index(messages, id, from) matches Some(i) ==> from <= i < messages.len()
            && messages[i].id == id,
    decreases messages.len() - from,
{
    if from < messages.len() && messages[from].id != id {
        lemma_message_index(messages, id, from + 1);
    }
}

proof fn lemma_upserted(messages: Seq<ChatMessageView>, m: ChatMessageView)
    ensures
        ({
            let after = upserted(messages, m);
            &&& messages.len() <= after.len() <= messages.len() + 1
            &&& after.contains(m)
            &&& forall|k: int|
                0 <= k < messages.len() && messages[k].id != m.id ==> #[trigger] after[k]
                    == messages[k]
        }),
{
    lemma_message_index(messages, m.id, 0);
    let after = upserted(messages, m);
    match message_index(messages, m.id, 0) {
        Some(i) => {
            assert(after[i] == m);
        },
        None => {
            assert(after[messages.len() as int] == m);
        },
    }
}

/// Answers that are put in leave the other messages alone: a message whose
/// identifier no new answer has stays where it is, as it is.
pub proof fn law_answers_leave_other_messages(
    messages: Seq<ChatMessageView>,
    results: Seq<ArmResultView>,
    ids: Seq<Seq<char>>,
    group: GroupInfo,
    k: int,
)
    requires
        0 <= k < messages.len(),
        forall|j: int|
            0 <= j < results.len() ==> (column(#[trigger] results[j], ids[j], group) matches Some(m)
                ==> m.id != messages[k].id),
    ensures
        k < with_columns(messages, results, ids, group).len(),
        with_columns(messages, results, ids, group)[k] == messages[k],
    decreases results.len(),
{
    if results.len() > 0 {
        let last = results.len() - 1;
        assert forall|j: int| 0 <= j < results.drop_last().len() implies (column(
            #[trigger] results.drop_last()[j],
            ids[j],
            group,
        ) matches Some(m) ==> m.id != messages[k].id) by {
            assert(results[j] == results.drop_last()[j]);
        }
        law_answers_leave_other_messages(messages, results.drop_last(), ids, group, k);
        let before = with_columns(messages, results.drop_last(), ids, group);
        assert(results[last] == results.last());
        if let Some(m) = column(results.last(), ids[last], group) {
            lemma_upserted(before, m);
        }
    }
}

/// No column gets lost: where the answers have identifiers of their own, each of
/// them is in the conversation in the end, one that failed with its error.
pub proof fn law_every_column_stays(
    messages: Seq<ChatMessageView>,
    results: Seq<ArmResultView>,
    ids: Seq<Seq<char>>,
    group: GroupInfo,
    i: int,
)
    requires
        0 <= i < results.len(),
        leaves_column(results[i]),
        forall|j: int|
            i < j < results.len() ==> (column(#[trigger] results[j], ids[j], group) matches Some(m)
                ==> m.id != column(results[i], ids[i], group)->0.id),
    ensures
        column(results[i], ids[i], group) is Some,
        with_columns(messages, results, ids, group).contains(
            column(results[i], ids[i], group)->0,
        ),
    decreases results.len(),
{
    let last = results.len() - 1;
    let mine = column(results[i], ids[i], group)->0;
    let before = with_columns(messages, results.drop_last(), ids, group);
    if i == last {
        lemma_upserted(before, mine);
    } else {
        assert(results.drop_last()[i] == results[i]);
        assert forall|j: int| i < j < results.drop_last().len() implies (column(
            #[trigger] results.drop_last()[j],
            ids[j],
            group,
        ) matches Some(m) ==> m.id != mine.id) by {
            assert(results[j] == results.drop_last()[j]);
        }
        law_every_column_stays(messages, results.drop_last(), ids, group, i);
        let k = choose|k: int| 0 <= k < before.len() && before[k] == mine;
        assert(results[last] == results.last());
        if let Some(m) = column(results.last(), ids[last], group) {
            lemma_upserted(before, m);
            assert(upserted(before, m)[k] == mine);
        }
    }
}

/// Every column of a fan-out is an assistant message that names the group and its own
/// provider and model, whether the model answered or failed.
pub proof fn law_columns_name_their_model(
    arm: ReplyArm,
    r: ArmResultView,
    message: ChatMessageView,
    id: Seq<char>,
    group: GroupInfo,
)
    requires
        arm.group_id@ == group.group_id@,
        arm.provider_id@ == r.provider_id,
        arm.model@ == r.model,
        r.outcome matches OutcomeView::Message(m) ==> m == arm_answer(arm, message),
    ensures
        column(r, id, group) matches Some(m) ==> m.role == "assistant"@ && m.group_id == Some(
            group.group_id@,
        ) && m.provider_id == Some(r.provider_id) && m.model == Some(r.model),
{
}

/// Every model that is given, whose provider there is, answers; and models that differ,
/// with providers that there are, all answer, in the order in which they are given.
pub proof fn law_every_given_model_answers(
    models: Seq<ModelRefView>,
    providers: Seq<ModelProvider>,
)
    requires
        forall|i: int|
            0 <= i < models.len() ==> trimmed_model(#[trigger] models[i]).provider_id.len() > 0
                && trimmed_model(models[i]).model.len() > 0 && provider_index(
                providers,
                trimmed_model(models[i]).provider_id,
                0,
            ) is Some,
        forall|i: int, j: int|
            0 <= i < j < models.len() ==> model_key(trimmed_model(#[trigger] models[i]))
                != model_key(trimmed_model(#[trigger] models[j])),
    ensures
        answering(models, providers) == Seq::new(models.len(), |i: int| trimmed_model(models[i])),
        models.len() <= 4 ==> reply_arms(models, providers) == Ok::<Seq<ModelRefView>, Seq<char>>(
            Seq::new(models.len(), |i: int| trimmed_model(models[i])),
        ),
        models.len() > 4 ==> reply_arms(models, providers) is Err,
    decreases models.len(),
{
    if models.len() > 0 {
        let front = models.drop_last();
        let n = models.len() - 1;
        assert(models[n] == models.last());
        assert forall|i: int| 0 <= i < front.len() implies trimmed_model(
            #[trigger] front[i],
        ).provider_id.len() > 0 && trimmed_model(front[i]).model.len() > 0 && provider_index(
            providers,
            trimmed_model(front[i]).provider_id,
            0,
        ) is Some by {
            assert(front[i] == models[i]);
        }
        assert forall|i: int, j: int| 0 <= i < j < front.len() implies model_key(
            trimmed_model(#[trigger] front[i]),
        ) != model_key(trimmed_model(#[trigger] front[j])) by {
            assert(front[i] == models[i]);
            assert(front[j] == models[j]);
        }
        law_every_given_model_answers(front, providers);
        let before = answering(front, providers);
        let m = trimmed_model(models.last());
        if has_key(before, model_key(m)) {
            let k = choose|k: int|
                0 <= k < before.len() && model_key(#[trigger] before[k]) == model_key(m);
            assert(before[k] == trimmed_model(front[k]));
            assert(front[k] == models[k]);
            assert(model_key(trimmed_model(models[k])) != model_key(trimmed_model(models[n])));
        }
        assert(answering(models, providers) =~= Seq::new(
            models.len(),
            |i: int| trimmed_model(models[i]),
        ));
    } else {
        assert(answering(models, providers) =~= Seq::new(
            models.len(),
            |i: int| trimmed_model(models[i]),
        ));
    }
}

/// The question is the last one that the user asked.
pub proof fn law_the_latest_question_counts(
    a: Seq<ChatMessageView>,
    m: ChatMessageView,
    b: Seq<ChatMessageView>,
)
    requires
        m.role == "user"@,
        forall|i: int| 0 <= i < b.len() ==> (#[trigger] b[i]).role != "user"@,
    ensures
        latest_question(a.push(m) + b) == m.content,
        latest_question(b).len() == 0,
    decreases b.len(),
{
    let s = a.push(m) + b;
    if b.len() == 0 {
        assert(s =~= a.push(m));
    } else {
        assert(b[b.len() - 1] == b.last());
        assert forall|i: int| 0 <= i < b.drop_last().len() implies (
        #[trigger] b.drop_last()[i]).role != "user"@ by {
            assert(b.drop_last()[i] == b[i]);
        }
        law_the_latest_question_counts(a, m, b.drop_last());
        assert(s.drop_last() =~= a.push(m) + b.drop_last());
        assert(s.last() == b.last());
    }
}

/// Thinking is off where it is switched off, as deep as it is set where the level is
/// known, and else deep.
pub proof fn law_thinking_is_as_set(level: Seq<char>)
    ensures
        thinking_of(Some("off"@)) == (false, None::<Seq<char>>),
        level == "low"@ || level == "medium"@ || level == "high"@ || level == "xhigh"@ || level
            == "max"@ ==> thinking_of(Some(level)) == (true, Some(level)),
        thinking_of(None) == (true, Some("high"@)),
        level != "off"@ ==> thinking_of(Some(level)).0,
{
    let all = levels();
    assert(all[0]@ == "low"@ && all[1]@ == "medium"@ && all[2]@ == "high"@ && all[3]@ == "xhigh"@
        && all[4]@ == "max"@);
    reveal_strlit("off");
    reveal_strlit("low");
    reveal_strlit("medium");
    reveal_strlit("high");
    reveal_strlit("xhigh");
    reveal_strlit("max");
    assert("off"@.len() == 3 && "low"@.len() == 3 && "max"@.len() == 3);
    assert("off"@[0] == 'o' && "low"@[0] == 'l' && "max"@[0] == 'm');
    assert("medium"@.len() == 6 && "high"@.len() == 4 && "xhigh"@.len() == 5);
    if level == "low"@ {
        assert(all[0]@ == level);
    }
    if level == "medium"@ {
        assert(all[1]@ == level);
    }
    if level == "high"@ {
        assert(all[2]@ == level);
    }
    if level == "xhigh"@ {
        assert(all[3]@ == level);
    }
    if level == "max"@ {
        assert(all[4]@ == level);
    }
}

/// The model of the conversation answers where its provider is known and has a key and the
/// model is named: with images where it makes them and no plan is wanted, and else with
/// words. What runs outside answers the latest question.
pub proof fn law_the_chosen_model_answers(
    c: ConversationView,
    providers: Seq<ModelProvider>,
    entries: Seq<(Seq<char>, JsonView)>,
)
    ensures
        ({
            let start = starting(c, providers, entries, None);
            let place = provider_index(providers, c.provider_id, 0);
            &&& c.agent_runtime.external ==> start == Ok::<StartView, Seq<char>>(
                StartView::External { latest_user: latest_question(c.messages) },
            )
            &&& !c.agent_runtime.external ==> (start is Ok <==> place is Some
                && providers[place->0].api_keys@.len() > 0 && !is_blank_text(c.model))
            &&& !c.agent_runtime.external && start is Ok ==> start->Ok_0 == if c.agent_plan_state.mode
                != AgentPlanMode::Plan && makes_images_directly(
                entries,
                providers[place->0],
                c.model,
            ) {
                StartView::DirectImages { provider: place->0, model: c.model }
            } else {
                StartView::Answer { provider: place->0, model: c.model }
            }
        }),
{
}

/// Tools that nobody watches are not asked about, a run that orchestrates has rounds
/// enough, and what is not so set stays.
pub proof fn law_tools_fit_the_run(t: ToolsView, unattended: bool, orchestrates: bool, least: u32)
    ensures
        ({
            let after = tools_for_run(t, unattended, orchestrates, least);
            &&& unattended ==> after.approval_policy == "auto"@
            &&& !unattended ==> after.approval_policy == t.approval_policy
            &&& t.max_tool_rounds is None ==> after.max_tool_rounds is None
            &&& t.max_tool_rounds is Some ==> after.max_tool_rounds is Some && (
            after.max_tool_rounds->0) >= (t.max_tool_rounds->0)
            &&& t.max_tool_rounds is Some && orchestrates ==> (after.max_tool_rounds->0) >= least
            &&& !orchestrates || t.max_tool_rounds is None || (t.max_tool_rounds->0) >= least
                ==> after.max_tool_rounds == t.max_tool_rounds
            &&& after.skill_fallback_mode == t.skill_fallback_mode
        }),
{
}

/// A summary that is made becomes that of the context, over the messages that it sums up,
/// and is counted; a boundary goes to the end of the boundaries; without a summary only
/// that happens.
pub proof fn law_summaries_enter_the_context(
    c: ContextView,
    boundary: Option<BoundaryView>,
    summary: Option<SummaryView>,
    ids: Seq<Seq<char>>,
    warning: Option<Seq<char>>,
)
    ensures
        ({
            let after = summed_up(c, boundary, summary, ids, warning);
            &&& boundary is Some ==> after.compaction_boundaries == c.compaction_boundaries.push(
                boundary->0,
            )
            &&& boundary is None ==> after.compaction_boundaries == c.compaction_boundaries
            &&& summary is Some ==> after.summary is Some && (after.summary->0).content == (
            summary->0).content && (after.summary->0).source_message_ids == ids && (
            after.summary->0).source_until_message_id == (summary->0).source_until_message_id
                && after.warning == warning && after.last_compressed_at == Some(
                (summary->0).created_at,
            )
            &&& summary is Some && c.compression_count < u32::MAX ==> after.compression_count
                == c.compression_count + 1
            &&& summary is Some && ids.len() <= usize::MAX ==> after.compressed_message_count
                == ids.len()
            &&& summary is None ==> after.summary == c.summary && after.warning == c.warning
                && after.compression_count == c.compression_count
            &&& after.estimate == c.estimate
        }),
{
}

/// An answer holds what the run ended with: its text, its reasoning, its usage, and the
/// records and segments so far, followed by those of the end.
pub proof fn law_answers_hold_the_run(
    records: Seq<ToolRecordView>,
    segments: Seq<JsonView>,
    end: RunEnd,
    entry: AgentRunEntry,
    now: i64,
)
    ensures
        ({
            let m = run_answer(records, segments, end, entry, now);
            &&& m.id == end.message_id@ && m.role == "assistant"@ && m.content == end.content@
            &&& m.reasoning == opt_text(end.reasoning)
            &&& m.tool_calls.len() == records.len() + end.tool_records@.len()
            &&& m.tool_calls.take(records.len() as int) == records
            &&& m.tool_calls.skip(records.len() as int) == tool_record_views(end.tool_records@)
            &&& m.segments.len() == segments.len() + end.segments@.len()
            &&& m.segments.take(segments.len() as int) == segments
            &&& m.segments.skip(segments.len() as int) == items_view(end.segments@)
            &&& m.api_messages == items_view(end.api_messages@)
            &&& m.active_skill_id == opt_text(end.skill_id)
            &&& m.usage == end.usage && m.anchor_usage == end.last_step_usage
            &&& m.stream_outcome == Some(end.stream_outcome@)
            &&& m.run_entry == Some(
                if entry == AgentRunEntry::Send {
                    "send"@
                } else {
                    "regenerate"@
                },
            )
            &&& m.agent_plan == plan_view(end.plan)
            &&& m.group_id is None && m.timestamp == now
        }),
{
    let m = run_answer(records, segments, end, entry, now);
    assert(m.tool_calls.take(records.len() as int) =~= records);
    assert(m.tool_calls.skip(records.len() as int) =~= tool_record_views(end.tool_records@));
    assert(m.segments.take(segments.len() as int) =~= segments);
    assert(m.segments.skip(segments.len() as int) =~= items_view(end.segments@));
}

/// A column of a fan-out is the answer of its model; where the model failed, a message with
/// the error as its text; and none where it was cancelled or gave nothing.
pub proof fn law_columns_hold_answers_and_errors(
    r: ArmResultView,
    id: Seq<char>,
    group: GroupInfo,
)
    ensures
        match r.outcome {
            OutcomeView::Message(m) => column(r, id, group) == Some(m),
            OutcomeView::Nothing => column(r, id, group) is None,
            OutcomeView::Failed(e) => if e == "cancelled"@ {
                column(r, id, group) is None
            } else {
                column(r, id, group) is Some && ({
                    let m = column(r, id, group)->0;
                    &&& m.id == id && m.role == "assistant"@ && m.content == e
                    &&& m.stream_outcome == Some("error"@)
                    &&& m.group_id == Some(group.group_id@)
                    &&& m.provider_id == Some(r.provider_id) && m.model == Some(r.model)
                    &&& m.timestamp == group.now && m.run_entry == Some("send"@)
                })
            },
        },
        leaves_column(r) <==> column(r, id, group) is Some,
{
}

/// The columns of results, in order.
pub open spec fn columns_of(
    results: Seq<ArmResultView>,
    ids: Seq<Seq<char>>,
    group: GroupInfo,
) -> Seq<ChatMessageView>
    decreases results.len(),
{
    if results.len() == 0 {
        Seq::empty()
    } else {
        let before = columns_of(results.drop_last(), ids, group);
        match column(results.last(), ids[results.len() - 1], group) {
            Some(m) => before.push(m),
            None => before,
        }
    }
}

/// Answers with identifiers of their own go to the end of the conversation, in order, and
/// the messages before them stay as they are.
pub proof fn law_columns_go_to_the_end(
    messages: Seq<ChatMessageView>,
    results: Seq<ArmResultView>,
    ids: Seq<Seq<char>>,
    group: GroupInfo,
)
    requires
        ({
            let all = messages + columns_of(results, ids, group);
            forall|i: int, j: int| 0 <= i < j < all.len() ==> all[i].id != all[j].id
        }),
    ensures
        with_columns(messages, results, ids, group) == messages + columns_of(results, ids, group),
    decreases results.len(),
{
    let all = messages + columns_of(results, ids, group);
    if results.len() > 0 {
        let front = results.drop_last();
        let start = messages + columns_of(front, ids, group);
        match column(results.last(), ids[results.len() - 1], group) {
            Some(m) => {
                assert(all =~= start.push(m));
                assert forall|i: int, j: int| 0 <= i < j < start.len() implies start[i].id
                    != start[j].id by {
                    assert(all[i] == start[i]);
                    assert(all[j] == start[j]);
                }
                law_columns_go_to_the_end(messages, front, ids, group);
                assert forall|k: int| 0 <= k < start.len() implies (#[trigger] start[k]).id
                    != m.id by {
                    assert(all[k] == start[k]);
                    assert(all[all.len() - 1] == m);
                }
                crate::conversation::law_messages_are_found_by_id(
                    start,
                    m.id,
                    0,
                    start.len() as int,
                );
            },
            None => {
                assert(all =~= start);
                law_columns_go_to_the_end(messages, front, ids, group);
            },
        }
    } else {
        assert(all =~= messages);
    }
}

/// A fan-out went well where one of its models left a column; it was cancelled where none
/// did and one was cancelled; and else it failed. Only then is the conversation as it was.
pub proof fn law_fan_outs_end_as_their_arms(
    c: ConversationView,
    results: Seq<ArmResultView>,
    ids: Seq<Seq<char>>,
    group: GroupInfo,
    i: int,
)
    requires
        0 <= i < results.len(),
    ensures
        ({
            let (after, outcome) = merged(c, results, ids, group);
            &&& leaves_column(results[i]) ==> outcome is Ok
            &&& outcome is Ok ==> after.messages == with_columns(c.messages, results, ids, group)
                && after.updated_at == group.now && after.title == c.title && after.id == c.id
            &&& outcome is Err ==> after == c && !leaves_column(results[i])
            &&& outcome is Err && was_cancelled(results[i]) ==> outcome->Err_0 == "cancelled"@
        }),
{
}

/// Several models answer side by side where no plan is made and nothing is orchestrated.
pub proof fn law_several_models_fan_out(c: ConversationView, arms: Seq<ModelRefView>)
    ensures
        arms.len() < 2 ==> !side_by_side(c, arms),
        arms.len() >= 2 && c.agent_plan_state.mode == AgentPlanMode::Act ==> side_by_side(c, arms),
        c.agent_plan_state.mode == AgentPlanMode::Plan || c.agent_plan_state.mode
            == AgentPlanMode::Orchestrate ==> !side_by_side(c, arms),
{
}

/// A run is planned as the conversation and its setup say: tools without questions where
/// nobody watches, no sub-agents while planning or while an assistant is built, thinking
/// as set.
pub proof fn law_runs_are_planned(c: ConversationView, setup: RunSetup, plan: RunPlan)
    requires
        planned(c, setup, plan),
    ensures
        setup.is_arm || setup.probe ==> plan.tools@.approval_policy == "auto"@,
        !setup.is_arm && !setup.probe ==> plan.tools@.approval_policy
            == setup.tools@.approval_policy,
        c.agent_plan_state.mode == AgentPlanMode::Plan ==> !plan.offers_sub_agents,
        setup.builds_assistant ==> !plan.offers_sub_agents && plan.only_saves_assistant,
        c.agent_plan_state.mode == AgentPlanMode::Act && !setup.builds_assistant
            ==> plan.offers_sub_agents,
        !setup.builds_assistant ==> !plan.only_saves_assistant,
        c.thinking_level == Some("off"@) ==> !plan.thinking_enabled,
        c.thinking_level is None ==> plan.thinking_enabled,
        plan.suppresses_partial_saves == setup.is_arm,
        setup.skill_id is None ==> plan.fallback_tools@ == plan.tools@,
        c.agent_plan_state.mode != AgentPlanMode::Orchestrate ==> plan.tools@.max_tool_rounds
            == setup.tools@.max_tool_rounds,
{
    law_thinking_is_as_set("off"@);
}

/// Before a run, the conversation loses a skill that is not used, and takes a warning on
/// memory; the rest stays.
pub proof fn law_conversations_are_readied(c: ConversationView, setup: RunSetup)
    ensures
        ({
            let after = readied(c, setup);
            &&& setup.skill_id is None ==> after.active_skill_id is None
            &&& setup.skill_id is Some ==> after.active_skill_id == c.active_skill_id
            &&& setup.memory_warning is Some ==> after.context_state.warning == Some(
                (setup.memory_warning->0)@,
            )
            &&& setup.memory_warning is None ==> after.context_state == c.context_state
            &&& after.messages == c.messages && after.title == c.title && after.model == c.model
                && after.context_state.summary == c.context_state.summary
        }),
{
}

/// A column is put in as an answer of its arm: with the group, the provider and the model
/// of the arm, and all else as the answer has it.
pub proof fn law_arm_answers_keep_the_answer(arm: ReplyArm, message: ChatMessageView)
    ensures
        ({
            let m = arm_answer(arm, message);
            &&& m.id == message.id && m.content == message.content && m.reasoning
                == message.reasoning && m.tool_calls == message.tool_calls && m.segments
                == message.segments && m.usage == message.usage && m.timestamp == message.timestamp
                && m.attachments == message.attachments && m.artifacts == message.artifacts
            &&& m.role == "assistant"@ && m.group_id == Some(arm.group_id@) && m.provider_id
                == Some(arm.provider_id@) && m.model == Some(arm.model@)
        }),
{
}

} // verus!
