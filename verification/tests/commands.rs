//! Conversations: sending, answering, changing, branching off.

use kivio_chat::commands::busy::ActiveReplies;
use kivio_chat::commands::interaction::{
    approve_agent_plan_for_execution, chat_execute_agent_plan, chat_list_background_commands,
    chat_set_agent_plan_mode, execute_agent_plan_at, format_tool_approval_summary,
    session_consent_event, session_consented, stream_delta_event, stream_done_event, tool_approved,
    tool_confirm_event, tool_record_event, user_prompt_event, user_reply, BackgroundJob, UserReply,
    Waited,
};
use kivio_chat::commands::mutations::{
    apply_regenerate_truncation, build_fork_messages, chat_delete_message, chat_fork_conversation,
    chat_regenerate_message, chat_set_group_selection, chat_update_conversation,
    chat_update_message, fork_title, forked_file_names, keep_fork_selections, lookups_of,
    remove_answer, update_message_at, ConversationChange, Found,
};
use kivio_chat::commands::probe::{
    invalid_request, prepare_probe, probe_project, probe_result, run_chat_probe, ProbeEnd,
    ProbeProject, ProbeResult, ProbeToolCall, PROBE_PROJECT_ID,
};
use kivio_chat::commands::reply::{
    agent_run_entry_label, build_assistant_message, build_error_arm_message,
    chat_reasoning_efforts_for_model, end_description, fans_out, finish_arm, finish_reply, merge_arm_results_with, new_message_id, new_run_id, prepare_run,
    question_for_model, raised_tool_rounds, record_summing_up, reply_attempts, requested_skill,
    resolve_reply_arms, resolve_thinking, run_reply_fan_out, start_reply, unless_blank,
    AgentRunEntry, ArmOutcome, ArmResult, ChatToolsConfig, Described, GroupInfo, ReplyArm,
    ReplyEnd, ReplyStart, RunEnd, RunSetup, IMAGES_NOT_SIDE_BY_SIDE,
};
use kivio_chat::commands::send::{
    add_question, busy_response, forced_skill, next_send_action, note_before_answer,
    regenerate_response, send_response, sent_content, SendAction, SendEvent, SlashTrigger,
};
use kivio_chat::commands::title::{
    build_title_summary_prompt, generate_title, resolve_conversation_title,
    sanitize_generated_title, title_request,
};
use kivio_chat::conversation::{
    mark_summary_stale_if_needed, AgentRuntimeConfig, Attachment, ChatMessage,
    CompactionBoundaryRecord, Conversation, ConversationContextState, ConversationContextSummary,
    GroupSelections, ModelRef, ToolCallRecord, ToolCallStatus, CHAT_REPLY_BUSY_ERROR,
    MAX_REPLY_MODELS,
};
use kivio_chat::json::Json;
use kivio_chat::model_metadata::ModelDatabase;
use kivio_chat::plan::{AgentPlanMode, AgentPlanState, AgentPlanStatus};
use kivio_chat::settings::ModelProvider;

fn test_chat_message(id: &str, role: &str, content: &str, timestamp: i64) -> ChatMessage {
    ChatMessage::plain(id.to_string(), role, content, timestamp)
}

fn grouped_assistant(id: &str, content: &str, group_id: &str, ts: i64) -> ChatMessage {
    let mut m = test_chat_message(id, "assistant", content, ts);
    m.group_id = Some(group_id.to_string());
    m.provider_id = Some("openai".to_string());
    m.model = Some("gpt-4o".to_string());
    m
}

fn test_conversation_with_summary(stale: bool) -> Conversation {
    let mut context_state = ConversationContextState::default();
    context_state.summary = Some(summary(stale));
    Conversation {
        id: "conv_test".to_string(),
        title: "test".to_string(),
        provider_id: "provider".to_string(),
        model: "model".to_string(),
        messages: vec![
            test_chat_message("msg_user_1", "user", "old user content", 1),
            test_chat_message("msg_assistant_1", "assistant", "old assistant content", 2),
            test_chat_message("msg_user_2", "user", "recent user content", 3),
            test_chat_message("msg_assistant_2", "assistant", "recent assistant content", 4),
        ],
        agent_runtime: AgentRuntimeConfig { external: false },
        active_skill_id: None,
        assistant_id: None,
        assistant_snapshot: None,
        created_at: 1,
        updated_at: 4,
        pinned: false,
        folder: None,
        project_id: None,
        set_id: None,
        context_state,
        agent_todo_state: Json::Null,
        agent_plan_state: AgentPlanState::default(),
        knowledge_base_ids: Vec::new(),
        force_knowledge_search: false,
        thinking_level: None,
        reply_models: Vec::new(),
        group_selections: GroupSelections::new(),
        forked_from: None,
    }
}

fn summary(stale: bool) -> ConversationContextSummary {
    ConversationContextSummary {
        id: "ctxsum_test".to_string(),
        content: "summary of older messages".to_string(),
        source_message_ids: vec!["msg_user_1".to_string(), "msg_assistant_1".to_string()],
        source_until_message_id: "msg_assistant_1".to_string(),
        token_estimate_before: 100,
        token_estimate_after: 10,
        created_at: 5,
        provider_id: "provider".to_string(),
        model: "model".to_string(),
        stale,
    }
}

fn is_stale(conversation: &Conversation) -> Option<bool> {
    conversation.context_state.summary.as_ref().map(|s| s.stale)
}

fn ids(messages: &[ChatMessage]) -> Vec<&str> {
    messages.iter().map(|m| m.id.as_str()).collect()
}

fn provider(id: &str, keys: &[&str]) -> ModelProvider {
    ModelProvider {
        id: id.to_string(),
        name: id.to_string(),
        api_keys: keys.iter().map(|k| k.to_string()).collect(),
        base_url: "https://example.com/v1".to_string(),
        available_models: Vec::new(),
        enabled_models: Vec::new(),
        supports_tools: true,
        enabled: true,
        api_format: "openai_chat".to_string(),
        model_overrides: Vec::new(),
        compress_request_body: false,
    }
}

fn model_ref(provider_id: &str, model: &str) -> ModelRef {
    ModelRef { provider_id: provider_id.to_string(), model: model.to_string() }
}

fn record(name: &str, arguments: &str) -> ToolCallRecord {
    ToolCallRecord {
        id: "call_1".to_string(),
        name: name.to_string(),
        source: "native".to_string(),
        server_id: None,
        arguments: arguments.to_string(),
        status: ToolCallStatus::Pending,
        result_preview: None,
        error: None,
        duration_ms: None,
        started_at: None,
        completed_at: None,
        round: 1,
        sensitive: true,
        artifacts: Vec::new(),
        trace_id: None,
        span_id: None,
        structured_content: None,
    }
}

fn draft(plan: &str, updated_at: i64) -> AgentPlanState {
    AgentPlanState {
        mode: AgentPlanMode::Plan,
        status: AgentPlanStatus::Draft,
        plan: Some(plan.to_string()),
        updated_at,
    }
}

// ---------------------------------------------------------------------
// Thinking, rounds and titles
// ---------------------------------------------------------------------

#[test]
fn resolve_thinking_maps_levels_and_defaults_to_high() {
    assert_eq!(resolve_thinking(None, true), (true, Some("high".to_string())));
    assert_eq!(resolve_thinking(None, false), (true, Some("high".to_string())));
    assert_eq!(resolve_thinking(Some("off"), true), (false, None));
    assert_eq!(resolve_thinking(Some("low"), false), (true, Some("low".to_string())));
    assert_eq!(resolve_thinking(Some("high"), false), (true, Some("high".to_string())));
    assert_eq!(resolve_thinking(Some("xhigh"), false), (true, Some("xhigh".to_string())));
    assert_eq!(resolve_thinking(Some("max"), false), (true, Some("max".to_string())));
    assert_eq!(resolve_thinking(Some("ultra"), true), (true, Some("high".to_string())));
}

#[test]
fn orchestrate_budget_bump_raises_rounds_but_keeps_unlimited() {
    for least in [20, 50, 80] {
        assert_eq!(raised_tool_rounds(Some(20), least), Some(least));
        assert_eq!(raised_tool_rounds(Some(80), least), Some(80));
        assert_eq!(raised_tool_rounds(None, least), None);
    }
}

#[test]
fn generate_title_truncates_unicode_safely() {
    let title = generate_title("附件: 这是一张非常非常非常非常非常非常非常长的图片文件名.png");
    assert!(title.ends_with("..."));
    assert!(title.chars().count() <= 33);
}

#[test]
fn agent_run_entry_label_distinguishes_regenerate() {
    assert_eq!(agent_run_entry_label(AgentRunEntry::Send), "send");
    assert_eq!(agent_run_entry_label(AgentRunEntry::Regenerate), "regenerate");
}

#[test]
fn build_title_summary_prompt_uses_first_turn_context() {
    let prompt = build_title_summary_prompt(
        "今天下雨吗，吉林市。天气怎么样？",
        "吉林市今天有小雨，建议带伞。",
        "zh-CN",
    );
    assert!(prompt.contains("首轮对话"));
    assert!(prompt.contains("用户：今天下雨吗"));
    assert!(prompt.contains("助手：吉林市今天有小雨"));
    assert!(prompt.contains("只输出标题本身"));
}

#[test]
fn sanitize_generated_title_removes_model_formatting() {
    assert_eq!(
        sanitize_generated_title("- 标题：\"吉林天气查询。\""),
        Some("吉林天气查询".to_string())
    );
    assert_eq!(
        sanitize_generated_title("Title: `Jilin Weather Forecast.`"),
        Some("Jilin Weather Forecast".to_string())
    );
}

#[test]
fn sanitize_generated_title_rejects_empty_output() {
    assert_eq!(sanitize_generated_title("\n\n  "), None);
    assert_eq!(sanitize_generated_title("标题：..."), None);
}

#[test]
fn titles_come_from_the_model_or_the_question() {
    assert_eq!(resolve_conversation_title(Some("Title: Tea"), "q"), "Tea");
    assert_eq!(resolve_conversation_title(None, "my question"), "my question");
    assert_eq!(resolve_conversation_title(Some("  "), "my question"), "my question");
    let db = ModelDatabase::parse("{}", Vec::new());
    let messages =
        title_request(&db, &provider("p", &["k"]), "gpt-4o", "question", "answer", "en").unwrap();
    assert_eq!(messages[0].get_str("role"), Some("system"));
    assert!(title_request(&db, &provider("p", &[]), "gpt-4o", "question", "answer", "en").is_none());
}

#[test]
fn levels_are_offered_by_model() {
    let db = ModelDatabase::parse("{}", Vec::new());
    assert_eq!(
        chat_reasoning_efforts_for_model(&db, "some-model", None),
        vec!["low", "medium", "high"]
    );
    assert_eq!(
        chat_reasoning_efforts_for_model(&db, "some-model", Some("anthropic_messages")).len(),
        5
    );
}

// ---------------------------------------------------------------------
// Tools
// ---------------------------------------------------------------------

#[test]
fn format_tool_approval_summary_highlights_run_command() {
    let summary =
        format_tool_approval_summary(&record("bash", r#"{"command":"npm test","cwd":"/tmp/project"}"#));
    assert!(summary.contains("Command: npm test"));
    assert!(summary.contains("Working directory: /tmp/project"));
    assert!(summary.contains("Raw arguments"));
}

#[test]
fn format_tool_approval_summary_highlights_file_path() {
    let summary = format_tool_approval_summary(&record(
        "write",
        r#"{"path":"/tmp/project/out.txt","content":"hello"}"#,
    ));
    assert!(summary.contains("Path: /tmp/project/out.txt"));
    assert!(summary.contains("Raw arguments"));
}

#[test]
fn only_a_yes_allows_a_tool() {
    assert!(tool_approved(&Waited::Answered(true)));
    assert!(!tool_approved(&Waited::Answered(false)));
    assert!(!tool_approved(&Waited::Dropped));
    assert!(!tool_approved(&Waited::TimedOut));
    assert!(!tool_approved(&Waited::Cancelled));
    assert!(session_consented(true, &Waited::TimedOut));
    assert!(!session_consented(false, &Waited::Cancelled));
    assert!(matches!(user_reply(Waited::Answered(3)), UserReply::Answered(3)));
    assert!(matches!(user_reply::<u8>(Waited::TimedOut), UserReply::TimedOut));
}

#[test]
fn events_name_their_message() {
    let confirm = tool_confirm_event("c", "r", "m", &record("bash", "{}"));
    assert_eq!(confirm.get_str("conversationId"), Some("c"));
    assert_eq!(confirm.get_str("toolCallId"), Some("call_1"));
    let consent = session_consent_event("c", "r", "m");
    assert_eq!(consent.get_str("runId"), Some("r"));
    let asked = user_prompt_event(
        "c",
        "r",
        "m",
        &record("ask_user", "{}"),
        Json::string("Which one?"),
        Json::Null,
    );
    assert_eq!(asked.get_str("id"), Some("call_1"));
    assert_eq!(asked.get_str("name"), Some("ask_user"));
    assert_eq!(asked.get_str("prompt"), Some("Which one?"));
    let told = tool_record_event("c", "r", "m", &record("bash", "{}"), "pending", Json::Array(vec![]));
    assert_eq!(told.get_str("status"), Some("pending"));
    let delta = stream_delta_event("c", "r", "m", "Hel", None, None);
    assert_eq!(delta.get_str("delta"), Some("Hel"));
    let done = stream_done_event("c", "r", "m", "stop", "Hello");
    assert_eq!(done.get_str("reason"), Some("stop"));
    assert_eq!(done.get_str("full"), Some("Hello"));
}

#[test]
fn running_commands_are_listed_in_order() {
    let job = |id: &str, running: bool, started_at: u64| BackgroundJob {
        job_id: id.to_string(),
        command: "sleep 1".to_string(),
        cwd: "/".to_string(),
        pid: 7,
        running,
        started_at,
        elapsed_secs: 2,
    };
    let shown = chat_list_background_commands(&vec![
        job("late", true, 30),
        job("over", false, 5),
        job("early", true, 10),
    ]);
    assert_eq!(shown.len(), 2);
    assert_eq!(shown[0].get_str("jobId"), Some("early"));
    assert_eq!(shown[1].get_str("jobId"), Some("late"));
}

// ---------------------------------------------------------------------
// Plans
// ---------------------------------------------------------------------

#[test]
fn approve_agent_plan_targets_selected_message_plan() {
    let mut conversation = test_conversation_with_summary(false);
    let old_plan = "1. Inspect current code\n2. Draft older fix";
    let new_plan = "1. Inspect plan mode\n2. Implement inline execution";
    let mut older = test_chat_message("msg_plan_old", "assistant", old_plan, 10);
    older.agent_plan = Some(draft(old_plan, 10));
    let mut newer = test_chat_message("msg_plan_new", "assistant", new_plan, 11);
    newer.agent_plan = Some(draft(new_plan, 11));
    conversation.agent_plan_state = draft(old_plan, 10);
    conversation.messages.push(older);
    conversation.messages.push(newer);

    approve_agent_plan_for_execution(&mut conversation, Some("msg_plan_new")).unwrap();

    assert_eq!(conversation.agent_plan_state.plan.as_deref(), Some(new_plan));
    assert_eq!(conversation.agent_plan_state.status, AgentPlanStatus::Approved);
    let older = conversation.messages.iter().find(|m| m.id == "msg_plan_old").unwrap();
    assert_eq!(older.agent_plan.as_ref().unwrap().status, AgentPlanStatus::Draft);
    let newer = conversation.messages.iter().find(|m| m.id == "msg_plan_new").unwrap();
    assert_eq!(newer.agent_plan.as_ref().unwrap().status, AgentPlanStatus::Approved);
}

#[test]
fn a_plan_that_is_carried_out_changes_its_conversation() {
    let mut conversation = test_conversation_with_summary(false);
    conversation.agent_plan_state = draft("1. Read code\n2. Edit", 10);
    let c = execute_agent_plan_at(conversation.copy(), None, 40, 41).unwrap();
    assert_eq!(c.agent_plan_state.status, AgentPlanStatus::Approved);
    assert_eq!(c.agent_plan_state.updated_at, 40);
    assert_eq!(c.updated_at, 41);
    let missing = chat_execute_agent_plan(conversation, Some("msg_none"));
    assert_eq!(missing.unwrap_err(), "计划消息不存在");
}

#[test]
fn approve_agent_plan_rejects_non_plan_message_target() {
    let mut conversation = test_conversation_with_summary(false);
    conversation.messages.push(test_chat_message("msg_plain", "assistant", "plain answer", 10));
    let error = approve_agent_plan_for_execution(&mut conversation, Some("msg_plain")).unwrap_err();
    assert_eq!(error, "该消息不是可执行计划");
}

#[test]
fn approve_agent_plan_rejects_empty_message_plan_target() {
    let mut conversation = test_conversation_with_summary(false);
    let mut message = test_chat_message("msg_empty_plan", "assistant", "plain answer", 10);
    message.agent_plan = Some(draft("   ", 10));
    conversation.messages.push(message);
    let error =
        approve_agent_plan_for_execution(&mut conversation, Some("msg_empty_plan")).unwrap_err();
    assert_eq!(error, "该消息不是可执行计划");
}

#[test]
fn approve_agent_plan_rejects_non_executable_fragment_target() {
    let mut conversation = test_conversation_with_summary(false);
    let mut message = test_chat_message("msg_fragment_plan", "assistant", "没问题！积萌,", 10);
    message.agent_plan = Some(draft("没问题！积萌,", 10));
    conversation.messages.push(message);
    let error =
        approve_agent_plan_for_execution(&mut conversation, Some("msg_fragment_plan")).unwrap_err();
    assert_eq!(error, "该消息不是可执行计划");
}

#[test]
fn the_mode_is_set_by_name() {
    let c = chat_set_agent_plan_mode(test_conversation_with_summary(false), " Plan ").unwrap();
    assert_eq!(c.agent_plan_state.mode, AgentPlanMode::Plan);
    assert!(chat_set_agent_plan_mode(test_conversation_with_summary(false), "dream").is_err());
}

// ---------------------------------------------------------------------
// Changing messages
// ---------------------------------------------------------------------

#[test]
fn mark_summary_stale_if_boundary_or_older_message_changes() {
    let mut after_boundary = test_conversation_with_summary(false);
    mark_summary_stale_if_needed(&mut after_boundary, 2);
    assert_eq!(is_stale(&after_boundary), Some(false));

    let mut at_boundary = test_conversation_with_summary(false);
    mark_summary_stale_if_needed(&mut at_boundary, 1);
    assert_eq!(is_stale(&at_boundary), Some(true));
}

#[test]
fn regenerate_truncation_edits_user_content_and_truncates_after() {
    let mut conversation = test_conversation_with_summary(false);
    apply_regenerate_truncation(&mut conversation, 2, Some("edited question".to_string())).unwrap();
    assert_eq!(conversation.messages.len(), 3);
    assert_eq!(conversation.messages[2].id, "msg_user_2");
    assert_eq!(conversation.messages[2].content, "edited question");
    assert_eq!(is_stale(&conversation), Some(false));

    let mut covered = test_conversation_with_summary(false);
    apply_regenerate_truncation(&mut covered, 0, Some("rewritten first question".to_string()))
        .unwrap();
    assert_eq!(covered.messages.len(), 1);
    assert_eq!(covered.messages[0].content, "rewritten first question");
    assert_eq!(is_stale(&covered), Some(true));
}

#[test]
fn regenerate_truncation_rejects_bad_edit_targets() {
    let mut conversation = test_conversation_with_summary(false);
    let err = apply_regenerate_truncation(&mut conversation, 2, Some("   ".to_string())).unwrap_err();
    assert_eq!(err, "消息内容不能为空");
    assert_eq!(conversation.messages.len(), 4);

    let err = apply_regenerate_truncation(&mut conversation, 3, Some("nope".to_string())).unwrap_err();
    assert_eq!(err, "编辑内容仅支持用户消息");
    assert_eq!(conversation.messages.len(), 4);

    let mut plain = test_conversation_with_summary(false);
    apply_regenerate_truncation(&mut plain, 3, None).unwrap();
    assert_eq!(plain.messages.len(), 3);
    assert_eq!(plain.messages.last().unwrap().id, "msg_user_2");
}

#[test]
fn a_new_answer_starts_from_a_question() {
    let mut c = test_conversation_with_summary(false);
    c.group_selections.insert("grp", "msg_assistant_2");
    c.group_selections.insert("kept", "msg_assistant_1");
    let c = chat_regenerate_message(c, "msg_assistant_2", None).unwrap();
    assert_eq!(ids(&c.messages), vec!["msg_user_1", "msg_assistant_1", "msg_user_2"]);
    assert_eq!(c.group_selections.get("grp"), None);
    assert_eq!(c.group_selections.get("kept"), Some("msg_assistant_1"));
    let gone = chat_regenerate_message(test_conversation_with_summary(false), "nope", None);
    assert_eq!(gone.unwrap_err(), "消息不存在");

    let mut odd = test_conversation_with_summary(false);
    odd.messages.remove(2);
    let err = chat_regenerate_message(odd, "msg_assistant_2", None).unwrap_err();
    assert_eq!(err, "缺少对应的用户消息，无法重新生成");
}

#[test]
fn answers_are_edited_and_deleted() {
    let (c, i, text) =
        update_message_at(test_conversation_with_summary(false), "msg_assistant_1", "  new ", 9)
            .unwrap();
    assert_eq!(i, 1);
    assert_eq!(text, "new");
    assert_eq!(is_stale(&c), Some(true));
    assert!(update_message_at(test_conversation_with_summary(false), "msg_user_1", "x", 9).is_err());
    assert!(update_message_at(test_conversation_with_summary(false), "msg_assistant_1", " ", 9).is_err());

    let mut c = test_conversation_with_summary(false);
    c.messages.push(grouped_assistant("g1", "one", "grp", 5));
    c.group_selections.insert("grp", "g1");
    let c = remove_answer(c, "g1").unwrap();
    assert_eq!(c.messages.len(), 4);
    assert_eq!(c.group_selections.get("grp"), None);
    assert!(remove_answer(test_conversation_with_summary(false), "nope").is_err());
    assert!(remove_answer(test_conversation_with_summary(false), "msg_user_1").is_err());
}

#[test]
fn a_change_to_messages_brings_its_context_and_time() {
    let estimated = || {
        let mut state = test_conversation_with_summary(false).context_state;
        state.warning = Some("estimated".to_string());
        state
    };
    let c = test_conversation_with_summary(false);
    let before = c.messages.len();
    let c = chat_delete_message(c, "msg_assistant_1", Ok(estimated()), 77).unwrap();
    assert_eq!(c.messages.len(), before - 1);
    assert_eq!(c.updated_at, 77);
    assert_eq!(c.context_state.warning.as_deref(), Some("estimated"));
    let failed = chat_delete_message(
        test_conversation_with_summary(false),
        "msg_assistant_1",
        Err("no estimate".to_string()),
        77,
    );
    assert_eq!(failed.unwrap_err(), "no estimate");
    let refused = chat_delete_message(
        test_conversation_with_summary(false),
        "msg_user_1",
        Err("no estimate".to_string()),
        77,
    );
    assert_eq!(refused.unwrap_err(), "仅支持删除助手回复");

    let mut message = test_conversation_with_summary(false).messages[1].copy();
    message.content = "new".to_string();
    let c = chat_update_message(
        test_conversation_with_summary(false),
        "msg_assistant_1",
        " new ",
        message,
        Ok(estimated()),
        70,
        78,
    )
    .unwrap();
    assert_eq!(c.messages[1].content, "new");
    assert_eq!(c.messages[1].timestamp, 70);
    assert_eq!(c.updated_at, 78);
    assert_eq!(c.context_state.warning.as_deref(), Some("estimated"));
}

// ---------------------------------------------------------------------
// Branching off
// ---------------------------------------------------------------------

#[test]
fn build_fork_messages_keeps_prefix_including_anchor() {
    let messages = vec![
        test_chat_message("m0", "user", "q1", 1),
        test_chat_message("m1", "assistant", "a1", 2),
        test_chat_message("m2", "user", "q2", 3),
        test_chat_message("m3", "assistant", "a2", 4),
    ];
    let forked = build_fork_messages(&messages, 2);
    assert_eq!(ids(&forked), vec!["m0", "m1", "m2"]);
    assert_eq!(messages.len(), 4);
}

#[test]
fn build_fork_messages_collapses_group_to_selected_column() {
    let messages = vec![
        test_chat_message("m0", "user", "q", 1),
        grouped_assistant("m1", "col1", "grp", 2),
        grouped_assistant("m2", "col2", "grp", 3),
        grouped_assistant("m3", "col3", "grp", 4),
    ];
    let forked = build_fork_messages(&messages, 2);
    assert_eq!(ids(&forked), vec!["m0", "m2"]);
    assert_eq!(forked.last().unwrap().group_id, None);
}

#[test]
fn a_branch_keeps_the_question_of_the_group() {
    let mut asked = test_chat_message("m0", "user", "q", 1);
    asked.group_id = Some("grp".to_string());
    let messages = vec![
        asked,
        grouped_assistant("m1", "col1", "grp", 2),
        grouped_assistant("m2", "col2", "grp", 3),
    ];
    assert_eq!(ids(&build_fork_messages(&messages, 2)), vec!["m0", "m2"]);
}

#[test]
fn build_fork_messages_non_group_anchor_leaves_group_id_untouched() {
    let messages = vec![
        test_chat_message("m0", "user", "q", 1),
        test_chat_message("m1", "assistant", "a", 2),
    ];
    let forked = build_fork_messages(&messages, 1);
    assert_eq!(forked.len(), 2);
    assert_eq!(forked[1].group_id, None);
}

#[test]
fn fork_group_selection_cleanup_drops_dangling_and_collapsed() {
    let messages = vec![
        test_chat_message("u1", "user", "q1", 1),
        grouped_assistant("s1", "g1a", "g1", 2),
        grouped_assistant("s2", "g1b", "g1", 3),
        test_chat_message("u2", "user", "q2", 4),
        test_chat_message("s3", "assistant", "g2sel", 5),
    ];
    let mut selections = GroupSelections::new();
    selections.insert("g1", "s1");
    selections.insert("g2", "s3");
    selections.insert("g3", "gone");
    let selections = keep_fork_selections(&selections, &messages);

    assert_eq!(selections.get("g1"), Some("s1"));
    assert_eq!(selections.get("g2"), None);
    assert_eq!(selections.get("g3"), None);
}

#[test]
fn a_branch_is_a_conversation_of_its_own() {
    let source = test_conversation_with_summary(false);
    let branch = chat_fork_conversation(&source, "msg_user_2").unwrap();
    assert!(branch.id.starts_with("conv_"));
    assert_ne!(branch.id, source.id);
    assert_eq!(branch.title, "test（分支）");
    assert_eq!(branch.messages.len(), 3);
    assert_eq!(
        branch.forked_from.as_ref().map(|f| f.conversation_id.as_str()),
        Some("conv_test")
    );
    assert!(chat_fork_conversation(&source, "nope").is_err());
    assert_eq!(fork_title("test"), "test（分支）");
}

#[test]
fn a_branch_takes_its_files_along() {
    let mut m = test_chat_message("m0", "user", "q", 1);
    let file = |path: &str| Attachment {
        id: "a".to_string(),
        attachment_type: "file".to_string(),
        name: "f".to_string(),
        path: path.to_string(),
    };
    m.attachments = vec![file("a.png"), file("dir/b.png"), file("a.png")];
    assert_eq!(forked_file_names(&vec![m]), vec!["a.png"]);
}

// ---------------------------------------------------------------------
// Changing conversations
// ---------------------------------------------------------------------

fn no_change() -> ConversationChange {
    ConversationChange {
        title: None,
        pinned: None,
        folder: None,
        project_id: None,
        set_id: None,
        provider_id: None,
        model: None,
        active_skill_id: None,
        assistant_id: None,
        knowledge_base_ids: None,
        force_knowledge_search: None,
        thinking_level: None,
        reply_models: None,
    }
}

fn found() -> Found {
    Found {
        folder_project: Ok(None),
        project: Ok(("proj_1".to_string(), "Project".to_string())),
        set: Ok("set_1".to_string()),
        assistant: Err("missing".to_string()),
    }
}

#[test]
fn conversations_change_as_asked() {
    let mut change = no_change();
    change.title = Some("New title".to_string());
    change.pinned = Some(true);
    let c = chat_update_conversation(test_conversation_with_summary(false), &change, &found()).unwrap();
    assert_eq!(c.title, "New title");
    assert!(c.pinned);

    let mut change = no_change();
    change.set_id = Some("set_1".to_string());
    let mut before = test_conversation_with_summary(false);
    before.project_id = Some("proj_1".to_string());
    let c = chat_update_conversation(before, &change, &found()).unwrap();
    assert_eq!(c.set_id.as_deref(), Some("set_1"));
    assert_eq!(c.project_id, None);
    assert_eq!(lookups_of(&change).set.as_deref(), Some("set_1"));

    let mut change = no_change();
    change.assistant_id = Some("asst_1".to_string());
    assert!(
        chat_update_conversation(test_conversation_with_summary(false), &change, &found()).is_err()
    );

    let mut change = no_change();
    change.reply_models = Some((0..MAX_REPLY_MODELS + 1).map(|i| model_ref("p", &format!("m{i}"))).collect());
    assert!(
        chat_update_conversation(test_conversation_with_summary(false), &change, &found()).is_err()
    );
    change.reply_models = Some(vec![model_ref("p", "m"), model_ref(" p ", "m"), model_ref("", "x")]);
    let c = chat_update_conversation(test_conversation_with_summary(false), &change, &found()).unwrap();
    assert_eq!(c.reply_models.len(), 1);
}

#[test]
fn an_answer_of_a_group_is_selected() {
    let mut c = test_conversation_with_summary(false);
    c.messages.push(grouped_assistant("g1", "one", "grp", 5));
    let c = chat_set_group_selection(c, "grp", "g1").unwrap();
    assert_eq!(c.group_selections.get("grp"), Some("g1"));
    assert!(chat_set_group_selection(c, "grp", "msg_user_1").is_err());
}

// ---------------------------------------------------------------------
// Answering
// ---------------------------------------------------------------------

#[test]
fn resolve_reply_arms_dedups_filters_and_caps() {
    let providers = vec![provider("openai", &["k"]), provider("anthropic", &["k"])];

    assert!(resolve_reply_arms(&providers, &vec![]).unwrap().is_empty());
    let one = vec![model_ref("openai", "gpt-4o")];
    assert_eq!(resolve_reply_arms(&providers, &one).unwrap().len(), 1);

    let many = vec![
        model_ref("openai", "gpt-4o"),
        model_ref("openai", "gpt-4o"),
        model_ref("anthropic", "opus-3"),
        model_ref("ghost", "y"),
    ];
    let arms = resolve_reply_arms(&providers, &many).unwrap();
    assert_eq!(
        arms,
        vec![
            ("openai".to_string(), "gpt-4o".to_string()),
            ("anthropic".to_string(), "opus-3".to_string()),
        ]
    );

    let with_empty = vec![model_ref("openai", "gpt-4o"), model_ref("", "x")];
    assert_eq!(resolve_reply_arms(&providers, &with_empty).unwrap().len(), 1);

    let over: Vec<ModelRef> =
        (0..(MAX_REPLY_MODELS + 1)).map(|i| model_ref("openai", &format!("m{i}"))).collect();
    assert_eq!(
        resolve_reply_arms(&providers, &over).unwrap_err(),
        "多模型并行回答最多同时选择 4 个模型（当前 5）。"
    );
}

#[test]
fn several_models_answer_only_while_the_agent_acts() {
    let mut c = test_conversation_with_summary(false);
    let arms = vec![
        ("a".to_string(), "m".to_string()),
        ("b".to_string(), "m".to_string()),
    ];
    assert!(fans_out(&c, &arms));
    assert!(!fans_out(&c, &vec![("a".to_string(), "m".to_string())]));
    c.agent_plan_state.mode = AgentPlanMode::Orchestrate;
    assert!(!fans_out(&c, &arms));
    c.agent_plan_state.mode = AgentPlanMode::Plan;
    assert!(!fans_out(&c, &arms));
}

#[test]
fn build_error_arm_message_keeps_column_identity_and_marks_error() {
    let msg = build_error_arm_message(
        "grp_err",
        "provider-x",
        "model-y",
        "上游返回 429：额度不足",
        "send",
        None,
    );
    assert_eq!(msg.role, "assistant");
    assert_eq!(msg.group_id.as_deref(), Some("grp_err"));
    assert_eq!(msg.provider_id.as_deref(), Some("provider-x"));
    assert_eq!(msg.model.as_deref(), Some("model-y"));
    assert_eq!(msg.stream_outcome.as_deref(), Some("error"));
    assert!(msg.content.contains("429"));
    assert!(msg.id.starts_with("msg_"));
}

#[test]
fn answers_start_as_the_conversation_asks() {
    let db = ModelDatabase::parse("{}", Vec::new());
    let providers = vec![provider("provider", &["k"]), provider("empty", &[])];
    let c = test_conversation_with_summary(false);
    assert!(matches!(
        start_reply(&c, &providers, &db, None),
        Ok(ReplyStart::Answer { provider: 0, model }) if model == "model"
    ));

    let mut external = test_conversation_with_summary(false);
    external.agent_runtime = AgentRuntimeConfig { external: true };
    assert!(matches!(
        start_reply(&external, &Vec::new(), &db, None),
        Ok(ReplyStart::External { latest_user }) if latest_user == "recent user content"
    ));

    let arm = |provider_id: &str, model: &str| ReplyArm {
        group_id: "grp".to_string(),
        provider_id: provider_id.to_string(),
        model: model.to_string(),
    };
    assert_eq!(
        start_reply(&c, &providers, &db, Some(&arm("gone", "m"))).err().as_deref(),
        Some("Chat provider not found")
    );
    assert!(start_reply(&c, &providers, &db, Some(&arm("empty", "m")))
        .err()
        .unwrap()
        .contains("「empty」"));
    assert!(start_reply(&c, &providers, &db, Some(&arm("provider", " ")))
        .err()
        .unwrap()
        .contains("选择模型"));

    let mut painter = test_conversation_with_summary(false);
    painter.model = "gpt-image-1".to_string();
    assert!(matches!(
        start_reply(&painter, &providers, &db, None),
        Ok(ReplyStart::DirectImages { provider: 0, .. })
    ));
    assert_eq!(
        start_reply(&painter, &providers, &db, Some(&arm("provider", "gpt-image-1"))).err().as_deref(),
        Some(IMAGES_NOT_SIDE_BY_SIDE)
    );
    painter.agent_plan_state.mode = AgentPlanMode::Plan;
    assert!(matches!(
        start_reply(&painter, &providers, &db, None),
        Ok(ReplyStart::Answer { .. })
    ));
}

#[test]
fn runs_and_messages_get_new_names() {
    assert!(new_run_id(false, 7).starts_with("chat-run-7-"));
    assert!(new_run_id(true, 7).starts_with("chat-run-ext-7-"));
    assert_ne!(new_message_id(), new_message_id());
    assert_eq!(reply_attempts(true, 3), 3);
    assert_eq!(reply_attempts(false, 3), 1);
}

#[test]
fn descriptions_end_well_or_end_the_answer() {
    let done = end_description(&Described::Done(format!(" {} ", "图".repeat(1200))));
    assert_eq!(done.status, ToolCallStatus::Success);
    assert_eq!(done.preview.map(|p| p.chars().count()), Some(1000));
    assert_eq!(done.stops, None);
    let failed = end_description(&Described::Failed("broken".to_string()));
    assert_eq!(failed.status, ToolCallStatus::Error);
    assert_eq!(failed.stops.as_deref(), Some("broken"));
    let cancelled = end_description(&Described::Cancelled);
    assert_eq!(cancelled.stops.as_deref(), Some("cancelled"));
    assert_eq!(cancelled.error.as_deref(), Some("Mixer vision analysis cancelled"));

    assert_eq!(question_for_model(Some("q"), None), (Some("q".to_string()), true));
    assert_eq!(
        question_for_model(Some("q"), Some("q + text".to_string())),
        (Some("q + text".to_string()), false)
    );
}

fn setup(skill_id: Option<&str>) -> RunSetup {
    RunSetup {
        is_arm: false,
        probe: false,
        builds_assistant: false,
        tools: ChatToolsConfig {
            approval_policy: "ask".to_string(),
            max_tool_rounds: Some(20),
            skill_fallback_mode: "progressive".to_string(),
        },
        skill_id: skill_id.map(|s| s.to_string()),
        memory_warning: None,
        thinking_enabled: false,
        least_rounds: 50,
    }
}

#[test]
fn runs_are_prepared_by_mode() {
    let mut c = test_conversation_with_summary(false);
    c.active_skill_id = Some("gone".to_string());
    let plan = prepare_run(&mut c, &setup(None));
    assert_eq!(c.active_skill_id, None);
    assert_eq!(plan.tools.approval_policy, "ask");
    assert_eq!(plan.tools.max_tool_rounds, Some(20));
    assert_eq!(plan.fallback_tools.skill_fallback_mode, "progressive");
    assert!(plan.offers_sub_agents);
    assert_eq!(plan.thinking_level.as_deref(), Some("high"));

    c.agent_plan_state.mode = AgentPlanMode::Orchestrate;
    c.active_skill_id = Some("pdf".to_string());
    let mut s = setup(Some("pdf"));
    s.is_arm = true;
    s.memory_warning = Some("full".to_string());
    let plan = prepare_run(&mut c, &s);
    assert_eq!(c.active_skill_id.as_deref(), Some("pdf"));
    assert_eq!(c.context_state.warning.as_deref(), Some("full"));
    assert_eq!(plan.tools.approval_policy, "auto");
    assert_eq!(plan.tools.max_tool_rounds, Some(50));
    assert_eq!(plan.tools.skill_fallback_mode, "progressive");
    assert_eq!(plan.fallback_tools.skill_fallback_mode, "skill_md_only");
    assert!(plan.suppresses_partial_saves);

    c.agent_plan_state.mode = AgentPlanMode::Plan;
    assert!(!prepare_run(&mut c, &setup(None)).offers_sub_agents);
    assert_eq!(requested_skill(Some("a"), &c).as_deref(), Some("a"));
    assert_eq!(unless_blank(Some("  ".to_string())), None);
    assert_eq!(unless_blank(Some(" x".to_string())).as_deref(), Some(" x"));
}

#[test]
fn summing_up_is_written_down() {
    let mut c = test_conversation_with_summary(false);
    c.context_state.compression_count = u32::MAX;
    let boundary = CompactionBoundaryRecord {
        id: "b".to_string(),
        source_until_message_id: "msg_assistant_1".to_string(),
        display_after_message_id: None,
        token_estimate_before: 9,
        token_estimate_after: 3,
        summary_content: "s".to_string(),
        trigger: "auto".to_string(),
        created_at: 6,
    };
    record_summing_up(
        &mut c,
        Some(boundary),
        Some(summary(false)),
        vec!["msg_user_1".to_string()],
        Some("careful".to_string()),
    );
    assert_eq!(c.context_state.compaction_boundaries.len(), 1);
    assert_eq!(c.context_state.compressed_message_count, 1);
    assert_eq!(c.context_state.last_compressed_at, Some(5));
    assert_eq!(c.context_state.compression_count, u32::MAX);
    assert_eq!(c.context_state.warning.as_deref(), Some("careful"));
}

fn arm_result(model: &str, outcome: ArmOutcome) -> ArmResult {
    ArmResult { provider_id: "openai".to_string(), model: model.to_string(), outcome }
}

#[test]
fn failed_columns_stay_beside_the_answers() {
    let mut c = test_conversation_with_summary(false);
    let results = vec![
        arm_result("m1", ArmOutcome::Message(grouped_assistant("a1", "one", "grp", 5))),
        arm_result("m2", ArmOutcome::Failed("429".to_string())),
        arm_result("m3", ArmOutcome::Failed("cancelled".to_string())),
        arm_result("m4", ArmOutcome::Nothing),
    ];
    run_reply_fan_out(&mut c, &results, "grp", Some("pdf")).unwrap();
    assert_eq!(c.messages.len(), 6);
    assert_eq!(c.messages[4].id, "a1");
    let failed = &c.messages[5];
    assert_eq!(failed.content, "429");
    assert_eq!(failed.stream_outcome.as_deref(), Some("error"));
    assert_eq!(failed.model.as_deref(), Some("m2"));
    assert_eq!(failed.active_skill_id.as_deref(), Some("pdf"));
    assert_eq!(failed.run_entry.as_deref(), Some("send"));
}

#[test]
fn without_columns_nothing_changes() {
    let group = GroupInfo { group_id: "grp".to_string(), skill_id: None, now: 99 };
    let ids_for = |n: usize| (0..n).map(|i| format!("e{i}")).collect::<Vec<_>>();
    let mut c = test_conversation_with_summary(false);
    let cancelled = vec![
        arm_result("m1", ArmOutcome::Failed("cancelled".to_string())),
        arm_result("m2", ArmOutcome::Nothing),
    ];
    assert_eq!(
        merge_arm_results_with(&mut c, &cancelled, &ids_for(2), &group).unwrap_err(),
        "cancelled"
    );
    assert_eq!((c.messages.len(), c.updated_at), (4, 4));
    let nothing = vec![arm_result("m2", ArmOutcome::Nothing)];
    assert_eq!(
        merge_arm_results_with(&mut c, &nothing, &ids_for(1), &group).unwrap_err(),
        "全部模型回答均失败"
    );
    let failed = vec![arm_result("m1", ArmOutcome::Failed("x".to_string()))];
    merge_arm_results_with(&mut c, &failed, &ids_for(1), &group).unwrap();
    assert_eq!((c.messages.len(), c.updated_at), (5, 99));
    assert_eq!(c.messages[4].id, "e0");
}

// ---------------------------------------------------------------------
// Sending
// ---------------------------------------------------------------------

#[test]
fn a_busy_conversation_takes_no_second_message() {
    let mut active = ActiveReplies::new();
    let first = active.try_acquire("c1").expect("free");
    assert!(first.starts_with("chat-send-reservation-"));
    assert!(active.try_acquire("c1").is_none());
    assert!(active.try_acquire("c2").is_some());
    assert!(active.try_begin_chat_reply("c1", "run-1"));
    assert!(!active.try_begin_chat_reply("c1", "run-1"));
    active.end_chat_reply("c1", &first);
    assert!(active.conversation_has_active_reply("c1"));
    active.end_chat_reply("c1", "run-1");
    assert!(!active.conversation_has_active_reply("c1"));
    let busy = busy_response();
    assert_eq!(busy.get_bool("success"), Some(false));
    assert_eq!(busy.get_str("error"), Some(CHAT_REPLY_BUSY_ERROR));
}

#[test]
fn questions_carry_the_group_of_their_answers() {
    let providers = vec![provider("a", &["k"]), provider("b", &["k"])];
    let mut c = test_conversation_with_summary(false);
    let plan = add_question(&mut c, &providers, "hello", Vec::new()).unwrap();
    assert!(plan.arms.is_empty());
    assert_eq!(plan.group_id, None);
    let asked = c.messages.last().unwrap();
    assert_eq!(asked.role, "user");
    assert_eq!(asked.content, "hello");
    assert_eq!(asked.id, plan.message_id);
    assert_eq!(c.updated_at, asked.timestamp);

    let mut c = test_conversation_with_summary(false);
    c.reply_models = vec![model_ref("a", "m"), model_ref("b", "m")];
    let plan = add_question(&mut c, &providers, "hello", Vec::new()).unwrap();
    assert_eq!(plan.arms.len(), 2);
    assert!(plan.group_id.as_ref().unwrap().starts_with("grp_"));
    assert_eq!(c.messages.last().unwrap().group_id, plan.group_id);

    let mut c = test_conversation_with_summary(false);
    c.reply_models = (0..MAX_REPLY_MODELS + 1).map(|i| model_ref("a", &format!("m{i}"))).collect();
    assert!(add_question(&mut c, &providers, "hello", Vec::new()).is_err());
    assert_eq!(c.messages.len(), 4);
}

#[test]
fn slash_triggers_do_not_reach_other_programs() {
    let trigger = || Some(SlashTrigger {
        skill_id: "commit".to_string(),
        content: "[Skill: Commit]".to_string(),
    });
    let mut c = test_conversation_with_summary(false);
    assert_eq!(
        sent_content(&c, "/commit x".to_string(), None, trigger()),
        ("[Skill: Commit]".to_string(), Some("commit".to_string()))
    );
    c.agent_runtime = AgentRuntimeConfig { external: true };
    assert_eq!(
        sent_content(&c, "/commit x".to_string(), None, trigger()),
        ("/commit x".to_string(), None)
    );
    assert_eq!(forced_skill(&Some(" pdf ".to_string())).as_deref(), Some("pdf"));
    assert_eq!(forced_skill(&Some("  ".to_string())), None);
}

#[test]
fn sending_goes_step_by_step() {
    assert!(matches!(
        next_send_action(SendEvent::Estimated { compress: true }),
        SendAction::Compress
    ));
    assert!(matches!(
        next_send_action(SendEvent::Estimated { compress: false }),
        SendAction::Answer { save: true, touch: false, warning: None }
    ));
    assert!(matches!(
        next_send_action(SendEvent::EstimateFailed),
        SendAction::Answer { save: false, touch: false, warning: None }
    ));
    assert!(matches!(next_send_action(SendEvent::Compressed), SendAction::Refresh));
    assert!(matches!(
        next_send_action(SendEvent::Refreshed),
        SendAction::Answer { save: true, touch: true, warning: None }
    ));
    assert!(matches!(
        next_send_action(SendEvent::RefreshFailed { error: "e".to_string() }),
        SendAction::Fail { error } if error == "e"
    ));
    let reason = match next_send_action(SendEvent::CompressionFailed {
        error: "boom".to_string(),
        over_limit: true,
    }) {
        SendAction::RollBack { reason } => reason,
        _ => panic!("expected the question to be taken back"),
    };
    assert_eq!(
        reason,
        "Context is likely over the model limit and automatic compression failed: boom. Please compress manually or switch to a larger-context model."
    );
    assert!(matches!(
        next_send_action(SendEvent::RolledBack { reason: reason.clone() }),
        SendAction::Respond { error } if error == Some(reason)
    ));
    assert!(matches!(
        next_send_action(SendEvent::RollBackFailed { error: "e".to_string() }),
        SendAction::Fail { .. }
    ));
    match next_send_action(SendEvent::CompressionFailed {
        error: "boom".to_string(),
        over_limit: false,
    }) {
        SendAction::Answer { save: true, touch: false, warning: Some(w) } => assert_eq!(
            w,
            "Automatic compression failed: boom. The uncompressed request was sent because the estimate is still within the model window."
        ),
        _ => panic!("expected an answer with a warning"),
    }
    assert!(matches!(
        next_send_action(SendEvent::Replied { outcome: Err("cancelled".to_string()) }),
        SendAction::Respond { error: None }
    ));
    assert!(matches!(
        next_send_action(SendEvent::Replied { outcome: Err("403".to_string()) }),
        SendAction::Respond { error: Some(e) } if e == "403"
    ));
    let mut c = test_conversation_with_summary(false);
    note_before_answer(&mut c, true, Some("w".to_string()), 50);
    assert_eq!((c.updated_at, c.context_state.warning.as_deref()), (50, Some("w")));
}

#[test]
fn replies_tell_of_errors() {
    let ok = send_response(Json::string("conv"), None);
    assert_eq!(ok.get_bool("success"), Some(true));
    assert_eq!(ok.get_str("conversation"), Some("conv"));
    assert!(ok.get("error").is_none());
    let bad = send_response(Json::string("conv"), Some("403"));
    assert_eq!(bad.get_bool("success"), Some(false));
    assert_eq!(bad.get_str("conversation"), Some("conv"));
    assert_eq!(bad.get_str("error"), Some("403"));

    let again = regenerate_response(Json::string("conv"), &Err("403".to_string()));
    assert!(again.get("conversation").is_none());
    assert_eq!(again.get_str("error"), Some("403"));
    let stopped = regenerate_response(Json::string("conv"), &Err("cancelled".to_string()));
    assert_eq!(stopped.get_bool("success"), Some(true));
}

// ---------------------------------------------------------------------
// Questions without a user
// ---------------------------------------------------------------------

#[test]
fn probe_result_serializes_expected_shape() {
    let result = ProbeResult {
        id: Some("t1".to_string()),
        conversation_id: None,
        answer: "ok".to_string(),
        tool_calls: vec![ProbeToolCall {
            name: "glob".to_string(),
            arguments: r#"{"pattern":"*.rs"}"#.to_string(),
            status: ToolCallStatus::Success,
        }],
        stream_outcome: Some("completed".to_string()),
        error: None,
        finished_at: 123,
    };
    let written = result.to_json(&vec!["success".to_string()]).to_text();
    let v = Json::parse(&written).unwrap();
    assert_eq!(v.get_str("id"), Some("t1"));
    assert_eq!(v.get_str("answer"), Some("ok"));
    let calls = v.get_array("toolCalls").unwrap();
    assert_eq!(calls[0].get_str("name"), Some("glob"));
    assert_eq!(v.get_str("streamOutcome"), Some("completed"));
    assert!(v.get("conversationId").is_none());
    assert!(v.get("error").is_none());
    assert_eq!(v.get_u64("finishedAt"), Some(123));
}

#[test]
fn probes_are_asked_in_a_conversation_of_their_own() {
    let c = prepare_probe(
        test_conversation_with_summary(false),
        &"长".repeat(80),
        &Some(" plan ".to_string()),
    )
    .unwrap();
    assert_eq!(c.title, format!("🔬 {}", "长".repeat(60)));
    assert_eq!(c.agent_plan_state.mode, AgentPlanMode::Plan);
    assert_eq!(c.messages.last().unwrap().content, "长".repeat(80));
    assert!(prepare_probe(test_conversation_with_summary(false), "p", &Some("dream".to_string())).is_err());

    assert!(matches!(probe_project(None, &Vec::new()), ProbeProject::Skip));
    assert!(matches!(probe_project(Some("  "), &Vec::new()), ProbeProject::Skip));
    assert!(matches!(
        probe_project(Some("/repo"), &Vec::new()),
        ProbeProject::Create { root } if root == "/repo"
    ));
    assert!(matches!(
        probe_project(Some("/repo"), &vec![PROBE_PROJECT_ID.to_string()]),
        ProbeProject::Move { root } if root == "/repo"
    ));
}

#[test]
fn probes_report_the_last_answer_or_the_error() {
    let c = test_conversation_with_summary(false);
    assert_eq!(run_chat_probe(&c, Ok(())).unwrap().id, "msg_assistant_2");
    assert_eq!(run_chat_probe(&c, Err("403".to_string())).err().as_deref(), Some("403"));
    let mut silent = test_conversation_with_summary(false);
    silent.messages.truncate(1);
    assert_eq!(
        run_chat_probe(&silent, Ok(())).err().as_deref(),
        Some("probe: no assistant message produced")
    );

    let mut answer = test_chat_message("a", "assistant", "done", 1);
    answer.tool_calls = vec![record("glob", "{}")];
    answer.stream_outcome = Some("completed".to_string());
    let report = probe_result(Some("t".to_string()), &ProbeEnd::Answered(answer), 7);
    assert_eq!(report.answer, "done");
    assert_eq!(report.tool_calls[0].name, "glob");
    let report = probe_result(None, &ProbeEnd::TimedOut, 7);
    assert_eq!(report.stream_outcome.as_deref(), Some("timeout"));
    assert_eq!(report.error.as_deref(), Some("probe generation timed out after 360s"));
    let report = probe_result(None, &ProbeEnd::Failed("x".to_string()), 7);
    assert_eq!(report.error.as_deref(), Some("x"));
    assert_eq!(invalid_request("eof").error.as_deref(), Some("invalid request.json: eof"));
}

#[test]
fn build_assistant_message_records_group_meta_only_when_provided() {
    let single = build_assistant_message(
        "msg_single".to_string(),
        "hi".to_string(),
        None,
        Vec::new(),
        Vec::new(),
        Vec::new(),
        Vec::new(),
        None,
        Some("send"),
        Some("completed"),
        None,
        None,
        None,
        None,
    );
    assert!(single.group_id.is_none());
    assert!(single.provider_id.is_none());
    assert!(single.model.is_none());

    let arm = build_assistant_message(
        "msg_arm".to_string(),
        "hi".to_string(),
        None,
        Vec::new(),
        Vec::new(),
        Vec::new(),
        Vec::new(),
        None,
        Some("send"),
        Some("completed"),
        None,
        None,
        None,
        Some(("grp_1".to_string(), "anthropic".to_string(), "opus-3".to_string())),
    );
    assert_eq!(arm.group_id.as_deref(), Some("grp_1"));
    assert_eq!(arm.provider_id.as_deref(), Some("anthropic"));
    assert_eq!(arm.model.as_deref(), Some("opus-3"));
}

fn run_end(content: &str) -> RunEnd {
    RunEnd {
        message_id: "msg_1".to_string(),
        content: content.to_string(),
        reasoning: None,
        tool_records: vec![record("bash", "{}")],
        segments: vec![Json::string("run")],
        api_messages: Vec::new(),
        skill_id: Some("writer".to_string()),
        stream_outcome: "completed".to_string(),
        usage: None,
        last_step_usage: None,
        plan: None,
        boundary: None,
        summary: None,
        source_ids: Vec::new(),
        warning: None,
    }
}

#[test]
fn an_arm_is_handed_back_and_leaves_its_conversation() {
    let mut c = test_conversation_with_summary(false);
    let before = (c.messages.len(), c.context_state.compression_count);
    let arm = ReplyArm {
        group_id: "grp_1".to_string(),
        provider_id: "openai".to_string(),
        model: "gpt-5".to_string(),
    };
    let earlier = vec![record("vision", "{}")];
    let told = vec![Json::string("vision")];
    let end =
        finish_reply(&mut c, Some(&arm), earlier, told, run_end("hi"), AgentRunEntry::Send, 7);
    let ReplyEnd::HandBack(message) = end else { panic!("an arm is handed back") };
    assert_eq!(message.role, "assistant");
    assert_eq!(message.group_id.as_deref(), Some("grp_1"));
    assert_eq!(message.provider_id.as_deref(), Some("openai"));
    assert_eq!(message.model.as_deref(), Some("gpt-5"));
    assert_eq!(message.run_entry.as_deref(), Some("send"));
    assert_eq!(message.stream_outcome.as_deref(), Some("completed"));
    assert_eq!(message.timestamp, 7);
    let names: Vec<&str> = message.tool_calls.iter().map(|t| t.name.as_str()).collect();
    assert_eq!(names, vec!["vision", "bash"]);
    let shown: Vec<Option<&str>> = message.segments.iter().map(|s| s.as_str()).collect();
    assert_eq!(shown, vec![Some("vision"), Some("run")]);
    assert_eq!((c.messages.len(), c.context_state.compression_count), before);
}

#[test]
fn an_answer_alone_goes_into_its_conversation() {
    let mut c = test_conversation_with_summary(false);
    let before = c.context_state.compression_count;
    let mut done = run_end("hi");
    done.summary = Some(summary(false));
    done.source_ids = vec!["m1".to_string()];
    let end = finish_reply(
        &mut c,
        None,
        Vec::new(),
        Vec::new(),
        done,
        AgentRunEntry::Regenerate,
        8,
    );
    let ReplyEnd::Push(message) = end else { panic!("it is put in") };
    assert_eq!(c.context_state.compression_count, before + 1);
    assert_eq!(c.context_state.compressed_message_count, 1);
    assert!(message.group_id.is_none());
    assert_eq!(message.run_entry.as_deref(), Some("regenerate"));
    let arm = ReplyArm {
        group_id: "g".to_string(),
        provider_id: "p".to_string(),
        model: "m".to_string(),
    };
    let column = finish_arm(&arm, message);
    assert_eq!(column.content, "hi");
    assert_eq!(column.model.as_deref(), Some("m"));
}
