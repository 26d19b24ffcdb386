//! The agent's plan: its mode, its draft and its approval.

use vstd::prelude::*;

use crate::clock::now_timestamp;
use crate::text::{
    chars_of, concat2, concat4, contains_any, copy_opt, copy_str, is_blank, lines, starts_with,
    starts_with_any, str_eq, to_lower, trim, trim_start,
};
use crate::text::{
    blank, char_index, has_any_infix, has_any_prefix, has_infix, has_prefix, is_blank_text,
    lines_of, lower, opt_text, split_on, strings, strip_back, strip_front, trimmed, trimmed_start,
    white_space, without_cr,
};
use crate::text::{
    lemma_infix_within, lemma_lower_trim, lemma_split_concat, lemma_split_first, lemma_split_last,
    lemma_trim_fixed, lemma_trim_front, lemma_trim_infix, lemma_trim_push,
};

verus! {

/// How the agent works: it acts, it plans, or it hands work out to others.
#[derive(Debug, Clone, Copy, PartialEq, Eq, Structural)]
pub enum AgentPlanMode {
    Act,
    Plan,
    Orchestrate,
}

/// How far the plan has come.
#[derive(Debug, Clone, Copy, PartialEq, Eq, Structural)]
pub enum AgentPlanStatus {
    Empty,
    Draft,
    Approved,
}

/// The agent's plan in a conversation.
#[derive(Debug, PartialEq)]
pub struct AgentPlanState {
    pub mode: AgentPlanMode,
    pub status: AgentPlanStatus,
    pub plan: Option<String>,
    pub updated_at: i64,
}

/// The value of a plan.
#[verifier::ext_equal]
pub struct PlanView {
    pub mode: AgentPlanMode,
    pub status: AgentPlanStatus,
    pub plan: Option<Seq<char>>,
    pub updated_at: i64,
}

impl View for AgentPlanState {
    type V = PlanView;

    open spec fn view(&self) -> PlanView {
        PlanView {
            mode: self.mode,
            status: self.status,
            plan: opt_text(self.plan),
            updated_at: self.updated_at,
        }
    }
}

impl Default for AgentPlanState {
    fn default() -> (r: AgentPlanState)
        ensures
            r@ == (PlanView {
                mode: AgentPlanMode::Act,
                status: AgentPlanStatus::Empty,
                plan: None,
                updated_at: 0,
            }),
    {
        AgentPlanState {
            mode: AgentPlanMode::Act,
            status: AgentPlanStatus::Empty,
            plan: None,
            updated_at: 0,
        }
    }
}

impl AgentPlanState {
    /// The same plan once more.
    pub fn copy(&self) -> (r: AgentPlanState)
        ensures
            r@ == self@,
    {
        AgentPlanState {
            mode: self.mode,
            status: self.status,
            plan: copy_opt(&self.plan),
            updated_at: self.updated_at,
        }
    }
}

/// The mode that a name stands for.
pub open spec fn mode_of(value: Seq<char>) -> Result<AgentPlanMode, Seq<char>> {
    let name = lower(trimmed(value));
    if name == "act"@ {
        Ok(AgentPlanMode::Act)
    } else if name == "plan"@ {
        Ok(AgentPlanMode::Plan)
    } else if name == "orchestrate"@ {
        Ok(AgentPlanMode::Orchestrate)
    } else {
        Err("Unknown agent plan mode: "@ + name)
    }
}

/// The mode that a name stands for, whatever its case and surrounding space.
pub fn mode_from_str(value: &str) -> (r: Result<AgentPlanMode, String>)
    ensures
        match r {
            Ok(m) => mode_of(value@) == Ok::<AgentPlanMode, Seq<char>>(m),
            Err(e) => mode_of(value@) == Err::<AgentPlanMode, Seq<char>>(e@),
        },
{
    let name = to_lower(trim(value).as_str());
    if str_eq(name.as_str(), "act") {
        Ok(AgentPlanMode::Act)
    } else if str_eq(name.as_str(), "plan") {
        Ok(AgentPlanMode::Plan)
    } else if str_eq(name.as_str(), "orchestrate") {
        Ok(AgentPlanMode::Orchestrate)
    } else {
        Err(concat2("Unknown agent plan mode: ", name.as_str()))
    }
}

/// Whether the agent plans.
pub fn is_plan_mode(state: &AgentPlanState) -> (r: bool)
    ensures
        r == (state.mode == AgentPlanMode::Plan),
{
    state.mode == AgentPlanMode::Plan
}

/// Whether the agent hands work out to others.
pub fn is_orchestrate_mode(state: &AgentPlanState) -> (r: bool)
    ensures
        r == (state.mode == AgentPlanMode::Orchestrate),
{
    state.mode == AgentPlanMode::Orchestrate
}

/// The plan in another mode; its time changes only where its mode does.
pub open spec fn mode_set(p: PlanView, mode: AgentPlanMode, now: i64) -> PlanView {
    if p.mode == mode {
        p
    } else {
        PlanView { mode, status: p.status, plan: p.plan, updated_at: now }
    }
}

/// The plan in another mode, at the time `now`.
pub fn with_mode_at(current: &AgentPlanState, mode: AgentPlanMode, now: i64) -> (r: AgentPlanState)
    ensures
        r@ == mode_set(current@, mode, now),
{
    let mut next = current.copy();
    if next.mode != mode {
        next.mode = mode;
        next.updated_at = now;
    }
    next
}

/// The plan in another mode.
pub fn with_mode(current: &AgentPlanState, mode: AgentPlanMode) -> (r: AgentPlanState)
    ensures
        r@ == mode_set(current@, mode, r@.updated_at),
        current@.mode == mode ==> r@ == current@,
{
    with_mode_at(current, mode, now_timestamp())
}

/// The plan once approved: the agent acts, and the plan counts as approved where
/// it can be carried out.
pub open spec fn approved(p: PlanView, now: i64) -> PlanView {
    PlanView {
        mode: AgentPlanMode::Act,
        status: if executable_plan(p) is Some {
            AgentPlanStatus::Approved
        } else {
            AgentPlanStatus::Empty
        },
        plan: p.plan,
        updated_at: now,
    }
}

/// Approves the plan, at the time `now`.
pub fn approve_at(current: &AgentPlanState, now: i64) -> (r: AgentPlanState)
    ensures
        r@ == approved(current@, now),
{
    let mut next = current.copy();
    next.mode = AgentPlanMode::Act;
    next.status = if executable_plan_text(current).is_some() {
        AgentPlanStatus::Approved
    } else {
        AgentPlanStatus::Empty
    };
    next.updated_at = now;
    next
}

/// Approves the plan.
pub fn approve(current: &AgentPlanState) -> (r: AgentPlanState)
    ensures
        r@ == approved(current@, r@.updated_at),
{
    approve_at(current, now_timestamp())
}

/// The plan after a reply: the reply is the new draft where it is a plan.
pub open spec fn drafted(p: PlanView, content: Seq<char>, now: i64) -> PlanView {
    if executable(trimmed(content)) {
        PlanView {
            mode: AgentPlanMode::Plan,
            status: AgentPlanStatus::Draft,
            plan: Some(trimmed(content)),
            updated_at: now,
        }
    } else {
        p
    }
}

/// Takes a reply as the new draft where it is a plan, at the time `now`.
pub fn capture_draft_at(current: &AgentPlanState, content: &str, now: i64) -> (r: AgentPlanState)
    ensures
        r@ == drafted(current@, content@, now),
{
    let plan = trim(content);
    if !is_executable_plan_text(plan.as_str()) {
        return current.copy();
    }
    AgentPlanState {
        mode: AgentPlanMode::Plan,
        status: AgentPlanStatus::Draft,
        plan: Some(plan),
        updated_at: now,
    }
}

/// Takes a reply as the new draft where it is a plan.
pub fn capture_draft_from_reply(current: &AgentPlanState, content: &str) -> (r: AgentPlanState)
    ensures
        r@ == drafted(current@, content@, r@.updated_at),
        !executable(trimmed(content@)) ==> r@ == current@,
{
    capture_draft_at(current, content, now_timestamp())
}

// ---------------------------------------------------------------------
// The prompt
// ---------------------------------------------------------------------

/// The text before the plan status.
pub const ZH_PLAN_HEAD: &'static str = "Agent plan mode（内部运行模式）：当前模式是 plan，状态是 ";

/// The text between the plan status and the saved plan.
pub const ZH_PLAN_BODY: &'static str = "。Plan mode 只读：先调研、阅读、搜索、分析，再出计划；不要执行任何会产生副作用的动作，也不要声称已修改文件、运行命令、写入记忆或完成实现，除非 Kivio 返回了实际工具结果。可以提出必要的澄清问题。\n\n调研先行（强制）：写计划之前，必须先用只读工具把现状查清楚，不允许凭空臆测或只看一两个文件就下结论。按以下维度系统调研，每条结论都基于你实际读过的文件/代码并注明来源路径：\n- 现状：相关功能/模块当前怎么实现、入口在哪；\n- 涉及范围：这次改动会 touch 哪些文件/函数，及其上下游调用方；\n- 现有约定：该区域已有的命名、模式、错误处理、测试方式——新代码要对齐；\n- 外部参考（除非纯内部琐碎改动，否则必做）：只要任务涉及外部标准/协议、第三方库/框架 API，或任何架构选型，就必须用 web_search 查官方文档和有代表性的开源项目是怎么做的——什么架构、什么流程、有哪些惯例和坑，再用 web_fetch 读关键页面；不要只凭记忆或已有知识下结论。先确认业界成熟做法再据此规划，不要盲目自己造（仅当 web 搜索工具确实不可用时才跳过，并在发现里说明）；\n- 风险与未知：边界情况、可能被破坏的地方、尚未确认需要进一步查证的点。\n只有当这些维度查得足以支撑一份可落地的计划时，才开始写计划；信息不足就继续调研或向用户提问，不要急着出计划。\n\n最终回复结构：先用「## 调研发现」按上述维度给出关键发现（每条附依据文件路径），紧接着用「## 计划」给出可执行步骤/todo（清晰编号或勾选项），让用户一眼看出这是一份 Plan。背景与风险放计划后面；说明需要用户切到 Act / 执行计划后才会实施。\n\n当前已保存计划：\n";

/// The text before the plan status.
pub const ZH_ORCHESTRATE_HEAD: &'static str = "Agent orchestrate mode（内部运行模式）：当前模式是 orchestrate，计划状态是 ";

/// The text between the plan status and the saved plan.
pub const ZH_ORCHESTRATE_BODY: &'static str = "。你是 orchestrator（编排者），默认行为就是把活拆开**派给子 agent**，而不是自己动手做。这一点是强约束：**只要任务能拆成 2 个或以上相互独立 / 可并行 / 可分主题的部分，你就必须为每个部分各派一个子 agent（用 `agent` 工具 fan-out），不要自己串行把它们全做完。**\n\n典型必须 fan-out 的场景：研究 / 对比 / 调研多个主题、汇总多个来源、跨多个文件的工作。即使最终要汇总成一篇报告或写一个文件，也必须**先把各部分的研究 / 调查分别派给子 agent**，你自己只负责最后的聚合与产出——绝不要一个人把所有部分都查完、写完。\n\n流程（多步任务必须遵循）：①先用 `todo_write` 列出任务计划；②把每个独立子任务委派给子 agent——在对应 todo 上把 `owner` 设为该子 agent 名并标 `in_progress`，再用 `agent` 工具派发（多个独立部分可在同一轮并行派发）；③子 agent 返回后把该 todo 标 `completed`；④最后汇总各子 agent 的结果回复用户。子 agent 各自独立运行、只返回结果；你负责规划、分派、聚合（orchestrator-worker 模型）。\n\n唯一的例外：只有真正无法再拆分的**单一步骤小任务**（如一句翻译、一个简单事实问答）才可以自己直接做。其余一律 fan-out。如果用户要求继续/执行计划，参考下面的已保存计划。\n\n当前已保存计划：\n";

/// The text before the plan status.
pub const ZH_ACT_HEAD: &'static str = "Agent plan context（内部运行状态）：当前模式是 act，计划状态是 ";

/// The text between the plan status and the saved plan.
pub const ZH_ACT_BODY: &'static str = "。如果用户要求继续/执行计划，优先参考下面的已保存计划；若用户改变需求，以最新用户消息为准并说明计划需要调整。不要把 plan 当作用户可编辑 todo，也不要创建提醒或日历事项。\n\n当前已保存计划：\n";

/// The text before the plan status.
pub const EN_PLAN_HEAD: &'static str = "Agent plan mode (internal runtime mode): current mode is plan and status is ";

/// The text between the plan status and the saved plan.
pub const EN_PLAN_BODY: &'static str = ". Plan mode is read-only: research, read, search, and analyze before producing a plan. Do not perform or claim side-effecting work such as editing files, running commands, mutating memory, or implementing changes unless Kivio returned an actual tool result. Ask clarifying questions when needed.\n\nInvestigate first (required): before writing the plan, you MUST use the read-only tools to understand the current state — do not guess or conclude from just one or two files. Investigate systematically along these dimensions, and back every claim with a file/code you actually read (cite the source path):\n- Current state: how the relevant feature/module works today and where its entry points are;\n- Scope: which files/functions this change will touch, plus their upstream/downstream callers;\n- Existing conventions: the naming, patterns, error handling, and testing style already used in this area — new code must align;\n- External references (required unless this is a purely internal, trivial change): whenever the task involves an external standard/protocol, a third-party library/framework API, or any architecture decision, you MUST use web_search to check how official docs and representative open-source projects do it — their architecture, flow, conventions, and pitfalls — then web_fetch to read the key pages. Do not conclude from memory or prior knowledge alone. Confirm the established industry approach before planning rather than building blindly (skip only if the web search tool is genuinely unavailable, and say so in your findings);\n- Risks & unknowns: edge cases, things that could break, and open points that still need confirmation.\nOnly start writing the plan once these dimensions are covered well enough to support an actionable plan; if information is insufficient, keep investigating or ask the user rather than rushing to a plan.\n\nFinal reply structure: first a \"## Findings\" section giving the key findings along the dimensions above (each citing the source file), immediately followed by a \"## Plan\" section with actionable steps/todos (clearly numbered or checkboxed) so the user can immediately tell this is a Plan. Put background and risks after the plan, and make clear that implementation waits for Act / execute plan.\n\nCurrent saved plan:\n";

/// The text before the plan status.
pub const EN_ORCHESTRATE_HEAD: &'static str = "Agent orchestrate mode (internal runtime mode): current mode is orchestrate and plan status is ";

/// The text between the plan status and the saved plan.
pub const EN_ORCHESTRATE_BODY: &'static str = ". You are the orchestrator, and your default behavior is to break work apart and **delegate it to sub-agents** instead of doing it yourself. This is a hard rule: **whenever a task can be split into 2 or more independent / parallelizable / separable parts, you MUST dispatch one sub-agent per part (fan out with the `agent` tool); do NOT serially do them all yourself.**\n\nScenarios that MUST fan out: researching / comparing / investigating multiple topics, aggregating multiple sources, and work spanning multiple files. Even when the end goal is to combine everything into one report or write a single file, you MUST first delegate the research / investigation of each part to separate sub-agents, and only own the final aggregation and output yourself — never investigate and write every part single-handedly.\n\nFlow (required for multi-step tasks): (1) first use `todo_write` to lay out the task plan; (2) delegate each independent subtask to a sub-agent — set the matching todo's `owner` to that sub-agent name and mark it `in_progress`, then dispatch with the `agent` tool (multiple independent parts can be dispatched in parallel in the same round); (3) when a sub-agent returns, mark its todo `completed`; (4) finally aggregate the sub-agents' results into your reply to the user. Each sub-agent runs in isolation and only returns its result; you own planning, dispatch, and aggregation (orchestrator-worker model).\n\nThe only exception: a genuinely indivisible **single-step small task** (e.g. a one-line translation, a simple factual question) may be done directly yourself. Everything else must fan out. If the user asks to continue or execute the plan, use the saved plan below.\n\nCurrent saved plan:\n";

/// The text before the plan status.
pub const EN_ACT_HEAD: &'static str = "Agent plan context (internal runtime state): current mode is act and plan status is ";

/// The text between the plan status and the saved plan.
pub const EN_ACT_BODY: &'static str = ". If the user asks to continue or execute the plan, use the saved plan below as context; if the user changes requirements, follow the latest user message and note that the plan needs adjustment. Do not treat the plan as a user-editable todo list, and do not create reminders or calendar items.\n\nCurrent saved plan:\n";

/// The name of a status.
pub open spec fn status_text(status: AgentPlanStatus) -> Seq<char> {
    match status {
        AgentPlanStatus::Empty => "empty"@,
        AgentPlanStatus::Draft => "draft"@,
        AgentPlanStatus::Approved => "approved"@,
    }
}

/// The name of a status.
pub fn status_name(status: &AgentPlanStatus) -> (r: &'static str)
    ensures
        r@ == status_text(*status),
{
    match status {
        AgentPlanStatus::Empty => "empty",
        AgentPlanStatus::Draft => "draft",
        AgentPlanStatus::Approved => "approved",
    }
}

/// The saved plan as the prompt shows it.
pub open spec fn shown_plan(p: PlanView, chinese: bool) -> Seq<char> {
    match current_plan(p) {
        Some(plan) => plan,
        None => if chinese {
            "当前没有已保存计划。"@
        } else {
            "No current saved plan."@
        },
    }
}

/// The part of the system prompt on the agent's mode and plan.
pub open spec fn plan_prompt(p: PlanView, language: Seq<char>) -> Seq<char> {
    let chinese = has_prefix(language, "zh"@);
    let (head, body) = match (chinese, p.mode) {
        (true, AgentPlanMode::Plan) => (ZH_PLAN_HEAD@, ZH_PLAN_BODY@),
        (true, AgentPlanMode::Orchestrate) => (ZH_ORCHESTRATE_HEAD@, ZH_ORCHESTRATE_BODY@),
        (true, AgentPlanMode::Act) => (ZH_ACT_HEAD@, ZH_ACT_BODY@),
        (false, AgentPlanMode::Plan) => (EN_PLAN_HEAD@, EN_PLAN_BODY@),
        (false, AgentPlanMode::Orchestrate) => (EN_ORCHESTRATE_HEAD@, EN_ORCHESTRATE_BODY@),
        (false, AgentPlanMode::Act) => (EN_ACT_HEAD@, EN_ACT_BODY@),
    };
    head + status_text(p.status) + body + shown_plan(p, chinese)
}

/// The part of the system prompt on the agent's mode and plan, in Chinese where
/// the language is.
pub fn format_prompt(state: &AgentPlanState, language: &str) -> (r: String)
    ensures
        r@ == plan_prompt(state@, language@),
{
    let chinese = starts_with(language, "zh");
    let plan = match current_plan_text(state) {
        Some(plan) => plan,
        None => if chinese {
            copy_str("当前没有已保存计划。")
        } else {
            copy_str("No current saved plan.")
        },
    };
    let status = status_name(&state.status);
    let head: &str;
    let body: &str;
    if chinese {
        match state.mode {
            AgentPlanMode::Plan => {
                head = ZH_PLAN_HEAD;
                body = ZH_PLAN_BODY;
            },
            AgentPlanMode::Orchestrate => {
                head = ZH_ORCHESTRATE_HEAD;
                body = ZH_ORCHESTRATE_BODY;
            },
            AgentPlanMode::Act => {
                head = ZH_ACT_HEAD;
                body = ZH_ACT_BODY;
            },
        }
    } else {
        match state.mode {
            AgentPlanMode::Plan => {
                head = EN_PLAN_HEAD;
                body = EN_PLAN_BODY;
            },
            AgentPlanMode::Orchestrate => {
                head = EN_ORCHESTRATE_HEAD;
                body = EN_ORCHESTRATE_BODY;
            },
            AgentPlanMode::Act => {
                head = EN_ACT_HEAD;
                body = EN_ACT_BODY;
            },
        }
    }
    concat4(head, status, body, plan.as_str())
}

// ---------------------------------------------------------------------
// What counts as a plan
// ---------------------------------------------------------------------

/// The saved plan, trimmed, where there is one.
pub open spec fn current_plan(p: PlanView) -> Option<Seq<char>> {
    match p.plan {
        Some(t) => if is_blank_text(t) {
            None
        } else {
            Some(trimmed(t))
        },
        None => None,
    }
}

/// The saved plan, trimmed, where there is one.
pub fn current_plan_text(state: &AgentPlanState) -> (r: Option<String>)
    ensures
        opt_text(r) == current_plan(state@),
{
    match &state.plan {
        Some(t) => if is_blank(t.as_str()) {
            None
        } else {
            Some(trim(t.as_str()))
        },
        None => None,
    }
}

/// The saved plan, where it can be carried out.
pub open spec fn executable_plan(p: PlanView) -> Option<Seq<char>> {
    match current_plan(p) {
        Some(t) => if executable(t) {
            Some(t)
        } else {
            None
        },
        None => None,
    }
}

/// The saved plan, where it can be carried out.
pub fn executable_plan_text(state: &AgentPlanState) -> (r: Option<String>)
    ensures
        opt_text(r) == executable_plan(state@),
{
    match current_plan_text(state) {
        Some(t) => if is_executable_plan_text(t.as_str()) {
            Some(t)
        } else {
            None
        },
        None => None,
    }
}

/// How many lines are not blank.
pub open spec fn meaningful_lines(ls: Seq<Seq<char>>) -> nat
    decreases ls.len(),
{
    if ls.len() == 0 {
        0
    } else {
        meaningful_lines(ls.drop_last()) + if is_blank_text(ls.last()) {
            0nat
        } else {
            1nat
        }
    }
}

/// How many lines that are not blank begin a step.
pub open spec fn step_lines(ls: Seq<Seq<char>>) -> nat
    decreases ls.len(),
{
    if ls.len() == 0 {
        0
    } else {
        step_lines(ls.drop_last()) + if !is_blank_text(ls.last()) && step_line(trimmed(ls.last())) {
            1nat
        } else {
            0nat
        }
    }
}

/// A text is a plan that can be carried out: at least two lines, and two steps,
/// or one step and a word that speaks of plans.
pub open spec fn executable(content: Seq<char>) -> bool {
    let text = trimmed(content);
    let ls = lines_of(text);
    meaningful_lines(ls) >= 2 && (step_lines(ls) >= 2 || (plan_keyword(text) && step_lines(ls)
        >= 1))
}

/// Whether a text is a plan that can be carried out.
pub fn is_executable_plan_text(content: &str) -> (r: bool)
    ensures
        r == executable(content@),
{
    let text = trim(content);
    let ls = lines(text.as_str());
    let ghost all = strings(ls@);
    let mut meaningful: usize = 0;
    let mut steps: usize = 0;
    let mut i: usize = 0;
    while i < ls.len()
        invariant
            i <= ls@.len(),
            all == strings(ls@),
            meaningful <= i,
            steps <= i,
            meaningful == meaningful_lines(all.take(i as int)),
            steps == step_lines(all.take(i as int)),
        decreases ls@.len() - i,
    {
        assert(all.take(i + 1).drop_last() == all.take(i as int));
        assert(all.take(i + 1).last() == ls@[i as int]@);
        if !is_blank(ls[i].as_str()) {
            meaningful += 1;
            if is_step_like_line(trim(ls[i].as_str()).as_str()) {
                steps += 1;
            }
        }
        i += 1;
    }
    assert(all.take(all.len() as int) == all);
    meaningful >= 2 && (steps >= 2 || (has_plan_keyword(text.as_str()) && steps >= 1))
}

/// A line begins a step.
pub open spec fn step_line(line: Seq<char>) -> bool {
    let t = trimmed_start(line);
    markdown_step(t) || chinese_step(t) || todo_step(t)
}

/// Whether a line begins a step.
pub fn is_step_like_line(line: &str) -> (r: bool)
    ensures
        r == step_line(line@),
{
    let t = trim_start(line);
    starts_with_markdown_step(t.as_str()) || starts_with_chinese_step(t.as_str())
        || starts_with_todo_keyword(t.as_str())
}

/// The ASCII digits.
pub open spec fn digit(c: char) -> bool {
    '0' <= c <= '9'
}

/// How many ASCII digits stand at the front of `s`.
pub open spec fn leading_digits(s: Seq<char>) -> nat
    decreases s.len(),
{
    if s.len() > 0 && digit(s[0]) {
        1 + leading_digits(s.drop_first())
    } else {
        0
    }
}

proof fn lemma_leading_digits(s: Seq<char>, n: int)
    requires
        0 <= n <= s.len(),
        forall|j: int| 0 <= j < n ==> digit(#[trigger] s[j]),
        n < s.len() ==> !digit(s[n]),
    ensures
        leading_digits(s) == n,
    decreases s.len(),
{
    if n > 0 {
        lemma_leading_digits(s.drop_first(), n - 1);
    }
}

/// The bullets of markdown lists.
pub open spec fn bullets() -> Seq<&'static str> {
    seq![
        "- [ ]",
        "- [x]",
        "- [X]",
        "* [ ]",
        "* [x]",
        "* [X]",
        "- ",
        "* ",
        "+ ",
        "• ",
    ]
}

/// A line begins with a bullet, or with a number of one to three digits and `.`,
/// `)` or `、`.
pub open spec fn markdown_step(line: Seq<char>) -> bool {
    let n = leading_digits(line);
    has_any_prefix(line, bullets()) || (1 <= n <= 3 && n < line.len() && (line[n as int] == '.'
        || line[n as int] == ')' || line[n as int] == '、'))
}

fn starts_with_markdown_step(line: &str) -> (r: bool)
    ensures
        r == markdown_step(line@),
{
    let marks = [
        "- [ ]",
        "- [x]",
        "- [X]",
        "* [ ]",
        "* [x]",
        "* [X]",
        "- ",
        "* ",
        "+ ",
        "• ",
    ];
    assert(marks@ == bullets());
    if starts_with_any(line, &marks) {
        return true;
    }
    let v = chars_of(line);
    let mut n: usize = 0;
    while n < v.len() && '0' <= v[n] && v[n] <= '9'
        invariant
            n <= v@.len(),
            forall|j: int| 0 <= j < n ==> digit(#[trigger] v@[j]),
        decreases v@.len() - n,
    {
        n += 1;
    }
    proof {
        lemma_leading_digits(v@, n as int);
    }
    if n == 0 || n > 3 || n == v.len() {
        return false;
    }
    v[n] == '.' || v[n] == ')' || v[n] == '、'
}

/// How a step is numbered in Chinese.
pub open spec fn chinese_numbers() -> Seq<&'static str> {
    seq![
        "第1步", "第2步", "第3步", "第4步", "第5步", "第6步", "第7步", "第8步", "第9步",
        "第一步", "第二步", "第三步", "第四步", "第五步", "第六步", "第七步", "第八步", "第九步",
        "步骤1", "步骤2", "步骤3", "步骤4", "步骤5", "步骤6", "步骤7", "步骤8", "步骤9",
        "一、", "二、", "三、", "四、", "五、", "六、", "七、", "八、", "九、",
    ]
}

/// A line begins with a Chinese number of a step.
pub open spec fn chinese_step(line: Seq<char>) -> bool {
    has_any_prefix(line, chinese_numbers())
}

fn starts_with_chinese_step(line: &str) -> (r: bool)
    ensures
        r == chinese_step(line@),
{
    let numbers = [
        "第1步", "第2步", "第3步", "第4步", "第5步", "第6步", "第7步", "第8步", "第9步",
        "第一步", "第二步", "第三步", "第四步", "第五步", "第六步", "第七步", "第八步", "第九步",
        "步骤1", "步骤2", "步骤3", "步骤4", "步骤5", "步骤6", "步骤7", "步骤8", "步骤9",
        "一、", "二、", "三、", "四、", "五、", "六、", "七、", "八、", "九、",
    ];
    assert(numbers@ == chinese_numbers());
    starts_with_any(line, &numbers)
}

/// Words that open a step.
pub open spec fn todo_words() -> Seq<&'static str> {
    seq!["todo:", "todo ", "step ", "步骤：", "步骤:", "任务：", "任务:"]
}

/// A line begins with a word that opens a step.
pub open spec fn todo_step(line: Seq<char>) -> bool {
    has_any_prefix(lower(line), todo_words())
}

fn starts_with_todo_keyword(line: &str) -> (r: bool)
    ensures
        r == todo_step(line@),
{
    let words = ["todo:", "todo ", "step ", "步骤：", "步骤:", "任务：", "任务:"];
    assert(words@ == todo_words());
    starts_with_any(to_lower(line).as_str(), &words)
}

/// A text speaks of plans, steps or tasks.
pub open spec fn plan_keyword(text: Seq<char>) -> bool {
    has_any_infix(lower(text), seq!["plan", "todo", "step"]) || has_any_infix(
        text,
        seq!["计划", "步骤", "待办", "任务"],
    )
}

fn has_plan_keyword(text: &str) -> (r: bool)
    ensures
        r == plan_keyword(text@),
{
    let english = ["plan", "todo", "step"];
    let chinese = ["计划", "步骤", "待办", "任务"];
    assert(english@ == seq!["plan", "todo", "step"]);
    assert(chinese@ == seq!["计划", "步骤", "待办", "任务"]);
    contains_any(to_lower(text).as_str(), &english) || contains_any(text, &chinese)
}

// ---------------------------------------------------------------------
// Laws
// ---------------------------------------------------------------------

/// A draft that was captured from a reply is a plan that can be carried out, so
/// approving it approves it.
pub proof fn law_captured_drafts_can_be_approved(
    p: PlanView,
    content: Seq<char>,
    then: i64,
    now: i64,
)
    requires
        executable(trimmed(content)),
    ensures
        approved(drafted(p, content, then), now).status == AgentPlanStatus::Approved,
        approved(drafted(p, content, then), now).mode == AgentPlanMode::Act,
        approved(drafted(p, content, then), now).plan == Some(trimmed(content)),
{
    lemma_trim_fixed(content);
    let t = trimmed(content);
    assert(!is_blank_text(t)) by {
        if is_blank_text(t) {
            let ls = lines_of(trimmed(t));
            assert(trimmed(t) == Seq::<char>::empty());
            assert(char_index(trimmed(t), '\n') == 0);
            assert(split_on(trimmed(t), '\n') == seq![trimmed(t)]);
            assert(ls.len() == 0);
        }
    }
}

/// The lines that count and the steps of two texts together.
proof fn lemma_counts_concat(a: Seq<Seq<char>>, b: Seq<Seq<char>>)
    ensures
        meaningful_lines(a + b) == meaningful_lines(a) + meaningful_lines(b),
        step_lines(a + b) == step_lines(a) + step_lines(b),
    decreases b.len(),
{
    if b.len() == 0 {
        assert(a + b =~= a);
    } else {
        lemma_counts_concat(a, b.drop_last());
        assert((a + b).drop_last() =~= a + b.drop_last());
    }
}

/// Only what is left of each line after trimming counts.
proof fn lemma_counts_same(a: Seq<Seq<char>>, b: Seq<Seq<char>>)
    requires
        a.len() == b.len(),
        forall|i: int| 0 <= i < a.len() ==> trimmed(#[trigger] a[i]) == trimmed(b[i]),
    ensures
        meaningful_lines(a) == meaningful_lines(b),
        step_lines(a) == step_lines(b),
    decreases a.len(),
{
    if a.len() > 0 {
        assert(trimmed(a[a.len() - 1]) == trimmed(b[a.len() - 1]));
        assert forall|i: int| 0 <= i < a.drop_last().len() implies trimmed(
            #[trigger] a.drop_last()[i],
        ) == trimmed(b.drop_last()[i]) by {
            assert(trimmed(a[i]) == trimmed(b[i]));
        }
        lemma_counts_same(a.drop_last(), b.drop_last());
    }
}

proof fn lemma_empty_line_counts_not()
    ensures
        meaningful_lines(seq![Seq::<char>::empty()]) == 0,
        step_lines(seq![Seq::<char>::empty()]) == 0,
{
    let e = seq![Seq::<char>::empty()];
    assert(e.drop_last() =~= Seq::<Seq<char>>::empty());
    assert(is_blank_text(Seq::<char>::empty()));
    assert(meaningful_lines(e.drop_last()) == 0 && step_lines(e.drop_last()) == 0);
}

proof fn lemma_counts_strip_front(s: Seq<char>)
    ensures
        meaningful_lines(split_on(strip_front(s, blank()), '\n')) == meaningful_lines(
            split_on(s, '\n'),
        ),
        step_lines(split_on(strip_front(s, blank()), '\n')) == step_lines(split_on(s, '\n')),
    decreases s.len(),
{
    if s.len() > 0 && white_space(s[0]) {
        lemma_counts_strip_front(s.drop_first());
        lemma_split_first(s, '\n');
        let rest = split_on(s.drop_first(), '\n');
        if s[0] == '\n' {
            lemma_empty_line_counts_not();
            lemma_counts_concat(seq![Seq::<char>::empty()], rest);
        } else {
            lemma_trim_front(rest[0], s[0]);
            let more = seq![seq![s[0]] + rest[0]] + rest.drop_first();
            assert forall|i: int| 0 <= i < more.len() implies trimmed(#[trigger] more[i])
                == trimmed(rest[i]) by {}
            lemma_counts_same(more, rest);
        }
    }
}

proof fn lemma_counts_strip_back(s: Seq<char>)
    ensures
        meaningful_lines(split_on(strip_back(s, blank()), '\n')) == meaningful_lines(
            split_on(s, '\n'),
        ),
        step_lines(split_on(strip_back(s, blank()), '\n')) == step_lines(split_on(s, '\n')),
    decreases s.len(),
{
    if s.len() > 0 && white_space(s.last()) {
        lemma_counts_strip_back(s.drop_last());
        lemma_split_last(s, '\n');
        let rest = split_on(s.drop_last(), '\n');
        if s.last() == '\n' {
            lemma_empty_line_counts_not();
            lemma_counts_concat(rest, seq![Seq::<char>::empty()]);
            assert(rest.push(Seq::empty()) =~= rest + seq![Seq::<char>::empty()]);
        } else {
            lemma_trim_push(rest.last(), s.last());
            let more = rest.drop_last().push(rest.last().push(s.last()));
            assert forall|i: int| 0 <= i < more.len() implies trimmed(#[trigger] more[i])
                == trimmed(rest[i]) by {}
            lemma_counts_same(more, rest);
        }
    }
}

/// How lines end makes no difference to what counts.
proof fn lemma_counts_lines(s: Seq<char>)
    ensures
        meaningful_lines(lines_of(s)) == meaningful_lines(split_on(s, '\n')),
        step_lines(lines_of(s)) == step_lines(split_on(s, '\n')),
{
    let parts = split_on(s, '\n');
    assert(parts.len() > 0);
    let ended = Seq::new((parts.len() - 1) as nat, |i: int| without_cr(parts[i]));
    let all = ended.push(parts.last());
    assert forall|i: int| 0 <= i < all.len() implies trimmed(#[trigger] all[i]) == trimmed(
        parts[i],
    ) by {
        let p = parts[i];
        if i < ended.len() && p.len() > 0 && p.last() == '\r' {
            assert(p =~= p.drop_last().push('\r'));
            lemma_trim_push(p.drop_last(), '\r');
        }
    }
    lemma_counts_same(all, parts);
    if parts.last().len() == 0 {
        assert(parts.last() =~= Seq::<char>::empty());
        lemma_empty_line_counts_not();
        lemma_counts_concat(ended, seq![Seq::<char>::empty()]);
        assert(all =~= ended + seq![Seq::<char>::empty()]);
    }
}

/// Whether a text speaks of plans does not depend on white space around it.
proof fn lemma_keyword_trim(s: Seq<char>)
    ensures
        plan_keyword(trimmed(s)) == plan_keyword(s),
{
    let english = seq!["plan", "todo", "step"];
    let chinese = seq!["计划", "步骤", "待办", "任务"];
    reveal_strlit("plan");
    reveal_strlit("todo");
    reveal_strlit("step");
    reveal_strlit("计划");
    reveal_strlit("步骤");
    reveal_strlit("待办");
    reveal_strlit("任务");
    lemma_lower_trim(s);
    assert forall|i: int| 0 <= i < english.len() implies has_infix(
        lower(trimmed(s)),
        #[trigger] english[i]@,
    ) == has_infix(lower(s), english[i]@) by {
        lemma_trim_infix(lower(s), english[i]@);
    }
    assert forall|i: int| 0 <= i < chinese.len() implies has_infix(
        trimmed(s),
        #[trigger] chinese[i]@,
    ) == has_infix(s, chinese[i]@) by {
        lemma_trim_infix(s, chinese[i]@);
    }
}

/// A text around a text that speaks of plans speaks of plans.
proof fn lemma_keyword_within(a: Seq<char>, s: Seq<char>, b: Seq<char>)
    requires
        plan_keyword(s),
    ensures
        plan_keyword(a + s + b),
{
    let english = seq!["plan", "todo", "step"];
    let chinese = seq!["计划", "步骤", "待办", "任务"];
    if has_any_infix(lower(s), english) {
        let i = choose|i: int| 0 <= i < english.len() && has_infix(lower(s), #[trigger] english[i]@);
        lemma_infix_within(lower(a), lower(s), lower(b), english[i]@);
        assert(lower(a + s + b) =~= lower(a) + lower(s) + lower(b));
        assert(has_any_infix(lower(a + s + b), english));
    } else {
        let i = choose|i: int| 0 <= i < chinese.len() && has_infix(s, #[trigger] chinese[i]@);
        lemma_infix_within(a, s, b, chinese[i]@);
        assert(has_any_infix(a + s + b, chinese));
    }
}

/// A plan that can be carried out, over the lines of the text as it stands.
proof fn lemma_executable(s: Seq<char>)
    ensures
        executable(s) == {
            let ls = split_on(s, '\n');
            meaningful_lines(ls) >= 2 && (step_lines(ls) >= 2 || (plan_keyword(s) && step_lines(ls)
                >= 1))
        },
{
    lemma_counts_lines(trimmed(s));
    lemma_counts_strip_back(strip_front(s, blank()));
    lemma_counts_strip_front(s);
    lemma_keyword_trim(s);
}

/// Whole lines before or after a plan, or white space taken off its ends, never keep it
/// from being carried out.
pub proof fn law_more_lines_keep_a_plan(a: Seq<char>, b: Seq<char>)
    requires
        executable(a),
    ensures
        executable(a + "\n"@ + b),
        executable(b + "\n"@ + a),
        executable(trimmed(a)),
{
    reveal_strlit("\n");
    assert("\n"@ =~= seq!['\n']);
    let after = a + "\n"@ + b;
    let before = b + "\n"@ + a;
    lemma_executable(a);
    lemma_executable(after);
    lemma_executable(before);
    lemma_split_concat(a, b, '\n');
    lemma_split_concat(b, a, '\n');
    lemma_counts_concat(split_on(a, '\n'), split_on(b, '\n'));
    lemma_counts_concat(split_on(b, '\n'), split_on(a, '\n'));
    if plan_keyword(a) {
        lemma_keyword_within(Seq::empty(), a, "\n"@ + b);
        assert(Seq::<char>::empty() + a + ("\n"@ + b) =~= after);
        lemma_keyword_within(b + "\n"@, a, Seq::empty());
        assert(b + "\n"@ + a + Seq::<char>::empty() =~= before);
    }
    lemma_trim_fixed(a);
}

/// The lines that say something, and those that are steps, are counted one by one.
pub proof fn law_lines_are_counted_one_by_one(a: Seq<Seq<char>>, b: Seq<Seq<char>>)
    ensures
        meaningful_lines(a + b) == meaningful_lines(a) + meaningful_lines(b),
        step_lines(a + b) == step_lines(a) + step_lines(b),
    decreases b.len(),
{
    if b.len() == 0 {
        assert(a + b =~= a);
        assert(meaningful_lines(a) + meaningful_lines(b) == meaningful_lines(a));
        assert(step_lines(a) + step_lines(b) == step_lines(a));
    } else {
        law_lines_are_counted_one_by_one(a, b.drop_last());
        assert((a + b).drop_last() =~= a + b.drop_last());
        assert((a + b).last() == b.last());
        assert(meaningful_lines(a + b) == meaningful_lines(a) + meaningful_lines(b));
        assert(step_lines(a + b) == step_lines(a) + step_lines(b));
    }
}

/// One line says something where it is not blank, and is a step where it begins as one.
pub proof fn law_a_line_is_counted(line: Seq<char>)
    ensures
        meaningful_lines(seq![line]) == if is_blank_text(line) {
            0nat
        } else {
            1
        },
        step_lines(seq![line]) == if !is_blank_text(line) && step_line(trimmed(line)) {
            1nat
        } else {
            0
        },
{
    reveal_with_fuel(meaningful_lines, 2);
    reveal_with_fuel(step_lines, 2);
    assert(seq![line].drop_last() =~= Seq::<Seq<char>>::empty());
    assert(seq![line].last() == line);
}

proof fn lemma_steps_within(ls: Seq<Seq<char>>)
    ensures
        step_lines(ls) <= meaningful_lines(ls) <= ls.len(),
    decreases ls.len(),
{
    if ls.len() > 0 {
        lemma_steps_within(ls.drop_last());
    }
}

proof fn lemma_step_counts(ls: Seq<Seq<char>>, i: int)
    requires
        0 <= i < ls.len(),
        !is_blank_text(ls[i]),
        step_line(trimmed(ls[i])),
    ensures
        step_lines(ls) == step_lines(ls.take(i)) + 1 + step_lines(ls.skip(i + 1)),
{
    let a = ls.take(i);
    let b = ls.skip(i + 1);
    assert(ls =~= a + (seq![ls[i]] + b));
    law_lines_are_counted_one_by_one(a, seq![ls[i]] + b);
    law_lines_are_counted_one_by_one(seq![ls[i]], b);
    law_a_line_is_counted(ls[i]);
}

/// A text with two steps, in two of its lines, can be carried out; one with a single line,
/// or without a step, cannot.
pub proof fn law_two_steps_make_a_plan(content: Seq<char>, i: int, j: int)
    ensures
        ({
            let ls = lines_of(trimmed(content));
            &&& 0 <= i < j < ls.len() && !is_blank_text(ls[i]) && step_line(trimmed(ls[i]))
                && !is_blank_text(ls[j]) && step_line(trimmed(ls[j])) ==> executable(content)
            &&& ls.len() < 2 ==> !executable(content)
            &&& step_lines(ls) == 0 ==> !executable(content)
        }),
{
    let ls = lines_of(trimmed(content));
    lemma_steps_within(ls);
    if 0 <= i < j < ls.len() && !is_blank_text(ls[i]) && step_line(trimmed(ls[i]))
        && !is_blank_text(ls[j]) && step_line(trimmed(ls[j])) {
        lemma_step_counts(ls, i);
        let rest = ls.skip(i + 1);
        assert(rest[j - i - 1] == ls[j]);
        lemma_step_counts(rest, j - i - 1);
    }
}

/// A line is a step where it begins with a bullet or with a number and a dot.
pub proof fn law_bullets_and_numbers_are_steps(d: char, rest: Seq<char>)
    requires
        '1' <= d <= '9',
    ensures
        step_line(seq!['-', ' '] + rest),
        step_line(seq!['*', ' '] + rest),
        step_line(seq![d, '.'] + rest),
        step_line(seq![d, ')'] + rest),
{
    let all = bullets();
    reveal_strlit("- ");
    reveal_strlit("* ");
    assert("- "@ =~= seq!['-', ' ']);
    assert("* "@ =~= seq!['*', ' ']);
    let a = seq!['-', ' '] + rest;
    let b = seq!['*', ' '] + rest;
    let c = seq![d, '.'] + rest;
    let e = seq![d, ')'] + rest;
    assert(all[6]@ == "- "@ && all[7]@ == "* "@);
    assert(a.subrange(0, 2) =~= "- "@);
    assert(b.subrange(0, 2) =~= "* "@);
    assert(has_prefix(a, all[6]@));
    assert(has_prefix(b, all[7]@));
    reveal_with_fuel(leading_digits, 3);
    assert(c[0] == d && c[1] == '.' && c.drop_first()[0] == '.');
    assert(e[0] == d && e[1] == ')' && e.drop_first()[0] == ')');
    assert(leading_digits(c) == 1);
    assert(leading_digits(e) == 1);
    crate::text::law_trimming_takes_white_space(a);
    crate::text::law_trimming_takes_white_space(b);
    crate::text::law_trimming_takes_white_space(c);
    crate::text::law_trimming_takes_white_space(e);
    lemma_no_lead(a);
    lemma_no_lead(b);
    lemma_no_lead(c);
    lemma_no_lead(e);
}

proof fn lemma_no_lead(s: Seq<char>)
    requires
        s.len() > 0,
        !crate::text::white_space(s[0]),
    ensures
        trimmed_start(s) == s,
{
    crate::text::law_trimming_takes_white_space(s);
    if trimmed_start(s).len() < s.len() {
        assert(crate::text::white_space(s[0]));
    }
    assert(s.skip(0) =~= s);
}

/// A mode is known by its name, whatever the case and the white space around it.
pub proof fn law_modes_have_names(value: Seq<char>)
    ensures
        lower(trimmed(value)) == "act"@ <==> mode_of(value) == Ok::<AgentPlanMode, Seq<char>>(
            AgentPlanMode::Act,
        ),
        lower(trimmed(value)) == "plan"@ <==> mode_of(value) == Ok::<AgentPlanMode, Seq<char>>(
            AgentPlanMode::Plan,
        ),
        lower(trimmed(value)) == "orchestrate"@ <==> mode_of(value) == Ok::<
            AgentPlanMode,
            Seq<char>,
        >(AgentPlanMode::Orchestrate),
        mode_of(trimmed(value)) == mode_of(value),
{
    reveal_strlit("act");
    reveal_strlit("plan");
    reveal_strlit("orchestrate");
    assert("act"@.len() == 3);
    assert("plan"@.len() == 4);
    assert("orchestrate"@.len() == 11);
    lemma_trim_fixed(value);
}

/// Setting the mode keeps the plan and its status; approving keeps the plan, turns to
/// acting and is granted where the plan can be carried out; a draft is taken where it can
/// be carried out, and else nothing changes.
pub proof fn law_plans_change_as_told(
    p: PlanView,
    mode: AgentPlanMode,
    content: Seq<char>,
    now: i64,
)
    ensures
        mode_set(p, mode, now).mode == mode,
        mode_set(p, mode, now).plan == p.plan,
        mode_set(p, mode, now).status == p.status,
        p.mode == mode ==> mode_set(p, mode, now) == p,
        p.mode != mode ==> mode_set(p, mode, now).updated_at == now,
        approved(p, now).plan == p.plan,
        approved(p, now).mode == AgentPlanMode::Act,
        approved(p, now).updated_at == now,
        p.plan is Some && executable(p.plan->0) && !is_blank_text(p.plan->0) ==> approved(
            p,
            now,
        ).status == AgentPlanStatus::Approved,
        p.plan is None || !executable(p.plan->0) ==> approved(p, now).status
            == AgentPlanStatus::Empty,
        executable(content) ==> drafted(p, content, now) == (PlanView {
            mode: AgentPlanMode::Plan,
            status: AgentPlanStatus::Draft,
            plan: Some(trimmed(content)),
            updated_at: now,
        }),
        !executable(content) ==> drafted(p, content, now) == p,
{
    lemma_trim_fixed(content);
    if p.plan is Some {
        lemma_trim_fixed(p.plan->0);
    }
}

/// The prompt on the plan says its status and ends with the plan, where there is one.
pub proof fn law_the_prompt_shows_the_plan(p: PlanView, language: Seq<char>)
    ensures
        p.plan is Some && !is_blank_text(p.plan->0) ==> crate::text::has_suffix(
            plan_prompt(p, language),
            trimmed(p.plan->0),
        ),
        crate::text::has_infix(
            plan_prompt(p, language),
            match p.status {
                AgentPlanStatus::Empty => "empty"@,
                AgentPlanStatus::Draft => "draft"@,
                AgentPlanStatus::Approved => "approved"@,
            },
        ),
{
    let s = plan_prompt(p, language);
    let chinese = has_prefix(language, "zh"@);
    let shown = shown_plan(p, chinese);
    assert(s.subrange(s.len() - shown.len(), s.len() as int) =~= shown);
    let head = match (chinese, p.mode) {
        (true, AgentPlanMode::Plan) => ZH_PLAN_HEAD@,
        (true, AgentPlanMode::Orchestrate) => ZH_ORCHESTRATE_HEAD@,
        (true, AgentPlanMode::Act) => ZH_ACT_HEAD@,
        (false, AgentPlanMode::Plan) => EN_PLAN_HEAD@,
        (false, AgentPlanMode::Orchestrate) => EN_ORCHESTRATE_HEAD@,
        (false, AgentPlanMode::Act) => EN_ACT_HEAD@,
    };
    let w = status_text(p.status);
    let k = head.len() as int;
    assert(s.subrange(k, k + w.len()) =~= w);
    assert(crate::text::occurs_at(s, w, k));
}

/// A line is a step, too, where it begins with a word for one, in English whatever the
/// case.
pub proof fn law_words_for_steps_are_steps(line: Seq<char>)
    requires
        line.len() > 0,
        !crate::text::white_space(line[0]),
    ensures
        has_prefix(lower(line), "todo:"@) ==> step_line(line),
        has_prefix(lower(line), "todo "@) ==> step_line(line),
        has_prefix(lower(line), "step "@) ==> step_line(line),
        has_prefix(line, "第一步"@) ==> step_line(line),
        has_prefix(line, "步骤1"@) ==> step_line(line),
        has_prefix(line, "一、"@) ==> step_line(line),
{
    lemma_no_lead(line);
    let w = todo_words();
    let c = chinese_numbers();
    assert(w[0]@ == "todo:"@ && w[1]@ == "todo "@ && w[2]@ == "step "@);
    assert(c[9]@ == "第一步"@ && c[18]@ == "步骤1"@ && c[27]@ == "一、"@);
    if has_prefix(lower(line), "todo:"@) {
        assert(has_prefix(lower(line), w[0]@));
    }
    if has_prefix(lower(line), "todo "@) {
        assert(has_prefix(lower(line), w[1]@));
    }
    if has_prefix(lower(line), "step "@) {
        assert(has_prefix(lower(line), w[2]@));
    }
    if has_prefix(line, "第一步"@) {
        assert(has_prefix(line, c[9]@));
    }
    if has_prefix(line, "步骤1"@) {
        assert(has_prefix(line, c[18]@));
    }
    if has_prefix(line, "一、"@) {
        assert(has_prefix(line, c[27]@));
    }
}

/// A line that begins with a letter is no step, unless with a word for one.
pub proof fn law_plain_lines_are_no_steps(line: Seq<char>)
    requires
        line.len() > 0,
        'a' <= line[0] <= 'z',
        line[0] != 't',
        line[0] != 's',
    ensures
        !step_line(line),
{
    lemma_no_lead(line);
    let b = bullets();
    let c = chinese_numbers();
    let w = todo_words();
    lemma_first_chars_of_marks();
    assert(!has_any_prefix(line, b)) by {
        if has_any_prefix(line, b) {
            let i = choose|i: int| 0 <= i < b.len() && has_prefix(line, #[trigger] b[i]@);
            assert(line.subrange(0, b[i]@.len() as int)[0] == b[i]@[0]);
        }
    }
    assert(!has_any_prefix(line, c)) by {
        if has_any_prefix(line, c) {
            let i = choose|i: int| 0 <= i < c.len() && has_prefix(line, #[trigger] c[i]@);
            assert(line.subrange(0, c[i]@.len() as int)[0] == c[i]@[0]);
        }
    }
    assert(lower(line)[0] == line[0]);
    assert(!has_any_prefix(lower(line), w)) by {
        if has_any_prefix(lower(line), w) {
            let i = choose|i: int| 0 <= i < w.len() && has_prefix(lower(line), #[trigger] w[i]@);
            assert(lower(line).subrange(0, w[i]@.len() as int)[0] == w[i]@[0]);
        }
    }
    assert(leading_digits(line) == 0);
}

proof fn lemma_first_chars_of_marks()
    ensures
        forall|i: int|
            0 <= i < bullets().len() ==> (#[trigger] bullets()[i])@.len() > 0 && !('a'
                <= bullets()[i]@[0] <= 'z'),
        forall|i: int|
            0 <= i < chinese_numbers().len() ==> (#[trigger] chinese_numbers()[i])@.len() > 0
                && !('a' <= chinese_numbers()[i]@[0] <= 'z'),
        forall|i: int|
            0 <= i < todo_words().len() ==> (#[trigger] todo_words()[i])@.len() > 0 && (
            todo_words()[i]@[0] == 't' || todo_words()[i]@[0] == 's' || !('a'
                <= todo_words()[i]@[0] <= 'z')),
{
    reveal_strlit("- [ ]");
    reveal_strlit("- [x]");
    reveal_strlit("- [X]");
    reveal_strlit("* [ ]");
    reveal_strlit("* [x]");
    reveal_strlit("* [X]");
    reveal_strlit("- ");
    reveal_strlit("* ");
    reveal_strlit("+ ");
    reveal_strlit("• ");
    reveal_strlit("第1步");
    reveal_strlit("第2步");
    reveal_strlit("第3步");
    reveal_strlit("第4步");
    reveal_strlit("第5步");
    reveal_strlit("第6步");
    reveal_strlit("第7步");
    reveal_strlit("第8步");
    reveal_strlit("第9步");
    reveal_strlit("第一步");
    reveal_strlit("第二步");
    reveal_strlit("第三步");
    reveal_strlit("第四步");
    reveal_strlit("第五步");
    reveal_strlit("第六步");
    reveal_strlit("第七步");
    reveal_strlit("第八步");
    reveal_strlit("第九步");
    reveal_strlit("步骤1");
    reveal_strlit("步骤2");
    reveal_strlit("步骤3");
    reveal_strlit("步骤4");
    reveal_strlit("步骤5");
    reveal_strlit("步骤6");
    reveal_strlit("步骤7");
    reveal_strlit("步骤8");
    reveal_strlit("步骤9");
    reveal_strlit("一、");
    reveal_strlit("二、");
    reveal_strlit("三、");
    reveal_strlit("四、");
    reveal_strlit("五、");
    reveal_strlit("六、");
    reveal_strlit("七、");
    reveal_strlit("八、");
    reveal_strlit("九、");
    reveal_strlit("todo:");
    reveal_strlit("todo ");
    reveal_strlit("step ");
    reveal_strlit("步骤：");
    reveal_strlit("步骤:");
    reveal_strlit("任务：");
    reveal_strlit("任务:");
}

} // verus!
