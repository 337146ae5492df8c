//! The events that the agent produces and the operations that it takes.

use crate::text::strings;
use vstd::prelude::*;

verus! {

/// The view of an optional string.
pub open spec fn opt_view(text: Option<String>) -> Option<Seq<char>> {
    match text {
        Some(t) => Some(t@),
        None => None,
    }
}

/// How many tokens a turn, or a session, has used.
#[derive(Clone, Copy, Debug, PartialEq, Eq)]
pub struct TokenUsage {
    /// Tokens of the input.
    pub input_tokens: u64,
    /// Tokens of the input that came from a cache, where that is known.
    pub cached_input_tokens: Option<u64>,
    /// Tokens of the output.
    pub output_tokens: u64,
    /// Tokens of the output that were reasoning, where that is known.
    pub reasoning_output_tokens: Option<u64>,
    /// All tokens.
    pub total_tokens: u64,
}

/// What a tool call gave back.
#[derive(Debug, PartialEq, Eq)]
pub struct ToolOutcome {
    /// Whether the tool reported an error, where it said so.
    pub is_error: Option<bool>,
    /// What the tool gave back, as the transcript shows it.
    pub content: String,
}

/// The mathematical value of what a tool call gave back.
#[verifier::ext_equal]
pub ghost struct ToolOutcomeView {
    pub is_error: Option<bool>,
    pub content: Seq<char>,
}

impl View for ToolOutcome {
    type V = ToolOutcomeView;

    open spec fn view(&self) -> ToolOutcomeView {
        ToolOutcomeView {
            is_error: self.is_error,
            content: self.content@,
        }
    }
}

/// One item of what the user hands to the agent.
#[derive(Debug, PartialEq, Eq)]
pub enum InputItem {
    /// A text.
    Text { text: String },
    /// An image file.
    LocalImage { path: String },
}

/// The mathematical value of an input item.
#[verifier::ext_equal]
pub ghost enum InputItemView {
    Text { text: Seq<char> },
    LocalImage { path: Seq<char> },
}

impl View for InputItem {
    type V = InputItemView;

    open spec fn view(&self) -> InputItemView {
        match self {
            InputItem::Text { text } => InputItemView::Text {
                text: text@,
            },
            InputItem::LocalImage { path } => InputItemView::LocalImage {
                path: path@,
            },
        }
    }
}

/// An operation that the agent takes.
#[derive(Debug, PartialEq, Eq)]
pub enum Op {
    /// Input of the user for a new turn.
    UserInput { items: Vec<InputItem> },
    /// A text for the message history across sessions.
    AddToHistory { text: String },
    /// Stop the running task.
    Interrupt,
    /// End the agent.
    Shutdown,
    /// List the tools of the configured servers.
    ListMcpTools,
    /// Change the context of the turns to come.
    OverrideTurnContext {
        cwd: Option<String>,
        approval_policy: Option<String>,
        sandbox_policy: Option<String>,
        model: Option<String>,
        effort: Option<String>,
        summary: Option<String>,
    },
}

/// The mathematical value of an operation.
#[verifier::ext_equal]
pub ghost enum OpView {
    UserInput { items: Seq<InputItemView> },
    AddToHistory { text: Seq<char> },
    Interrupt,
    Shutdown,
    ListMcpTools,
    OverrideTurnContext {
        cwd: Option<Seq<char>>,
        approval_policy: Option<Seq<char>>,
        sandbox_policy: Option<Seq<char>>,
        model: Option<Seq<char>>,
        effort: Option<Seq<char>>,
        summary: Option<Seq<char>>,
    },
}

impl View for Op {
    type V = OpView;

    open spec fn view(&self) -> OpView {
        match self {
            Op::UserInput { items } => OpView::UserInput {
                items: items@.map_values(|x: InputItem| x@),
            },
            Op::AddToHistory { text } => OpView::AddToHistory {
                text: text@,
            },
            Op::Interrupt => OpView::Interrupt,
            Op::Shutdown => OpView::Shutdown,
            Op::ListMcpTools => OpView::ListMcpTools,
            Op::OverrideTurnContext {
                cwd,
                approval_policy,
                sandbox_policy,
                model,
                effort,
                summary,
            } => OpView::OverrideTurnContext {
                cwd: opt_view(*cwd),
                approval_policy: opt_view(*approval_policy),
                sandbox_policy: opt_view(*sandbox_policy),
                model: opt_view(*model),
                effort: opt_view(*effort),
                summary: opt_view(*summary),
            },
        }
    }
}

/// What an event of the agent says.
#[derive(Debug, PartialEq, Eq)]
pub enum EventMsg {
    /// The session is set up.
    SessionConfigured { session_id: String, history_log_id: u64, history_entry_count: usize },
    /// The whole answer of the turn.
    AgentMessage { message: String },
    /// A piece of the answer.
    AgentMessageDelta { delta: String },
    /// A reasoning block has ended.
    AgentReasoning { text: String },
    /// A piece of reasoning.
    AgentReasoningDelta { delta: String },
    /// A block of raw reasoning has ended.
    AgentReasoningRawContent { text: String },
    /// A piece of raw reasoning.
    AgentReasoningRawContentDelta { delta: String },
    /// A new section of reasoning begins.
    AgentReasoningSectionBreak,
    /// A task has started.
    TaskStarted,
    /// The task is complete.
    TaskComplete { last_agent_message: Option<String> },
    /// The tokens used so far in the turn.
    TokenCount(TokenUsage),
    /// The turn failed.
    Error { message: String },
    /// The turn was aborted.
    TurnAborted { cause: String },
    /// The plan changed.
    PlanUpdate { update: String },
    /// The agent asks whether it may run a command.
    ExecApprovalRequest { command: Vec<String>, reason: Option<String> },
    /// The agent asks whether it may apply a patch.
    ApplyPatchApprovalRequest {
        changes: String,
        reason: Option<String>,
        grant_root: Option<String>,
    },
    /// A command begins to run.
    ExecCommandBegin { call_id: String, command: Vec<String>, parsed_cmd: Vec<String> },
    /// A running command wrote output.
    ExecCommandOutputDelta { call_id: String, chunk: String },
    /// A command has ended.
    ExecCommandEnd { call_id: String, exit_code: i32, stdout: String, stderr: String },
    /// A patch begins to be applied.
    PatchApplyBegin { auto_approved: bool, changes: String },
    /// A patch was applied, or failed to apply.
    PatchApplyEnd { success: bool, stdout: String, stderr: String },
    /// A tool call begins.
    McpToolCallBegin { invocation: String },
    /// A tool call has ended.
    McpToolCallEnd {
        invocation: String,
        duration_ms: u64,
        result: Result<ToolOutcome, String>,
    },
    /// An entry of the message history that the composer asked for.
    GetHistoryEntryResponse { offset: usize, log_id: u64, entry: Option<String> },
    /// The tools of the configured servers.
    McpListToolsResponse { tools: String },
    /// The agent has shut down.
    ShutdownComplete,
    /// The changes of the turn as a diff.
    TurnDiff { unified_diff: String },
    /// A note from the background.
    BackgroundEvent { message: String },
}

/// The mathematical value of what an event says.
#[verifier::ext_equal]
pub ghost enum EventMsgView {
    SessionConfigured {
        session_id: Seq<char>,
        history_log_id: u64,
        history_entry_count: usize,
    },
    AgentMessage { message: Seq<char> },
    AgentMessageDelta { delta: Seq<char> },
    AgentReasoning { text: Seq<char> },
    AgentReasoningDelta { delta: Seq<char> },
    AgentReasoningRawContent { text: Seq<char> },
    AgentReasoningRawContentDelta { delta: Seq<char> },
    AgentReasoningSectionBreak,
    TaskStarted,
    TaskComplete { last_agent_message: Option<Seq<char>> },
    TokenCount(TokenUsage),
    Error { message: Seq<char> },
    TurnAborted { cause: Seq<char> },
    PlanUpdate { update: Seq<char> },
    ExecApprovalRequest { command: Seq<Seq<char>>, reason: Option<Seq<char>> },
    ApplyPatchApprovalRequest {
        changes: Seq<char>,
        reason: Option<Seq<char>>,
        grant_root: Option<Seq<char>>,
    },
    ExecCommandBegin {
        call_id: Seq<char>,
        command: Seq<Seq<char>>,
        parsed_cmd: Seq<Seq<char>>,
    },
    ExecCommandOutputDelta { call_id: Seq<char>, chunk: Seq<char> },
    ExecCommandEnd { call_id: Seq<char>, exit_code: i32, stdout: Seq<char>, stderr: Seq<char> },
    PatchApplyBegin { auto_approved: bool, changes: Seq<char> },
    PatchApplyEnd { success: bool, stdout: Seq<char>, stderr: Seq<char> },
    McpToolCallBegin { invocation: Seq<char> },
    McpToolCallEnd {
        invocation: Seq<char>,
        duration_ms: u64,
        result: Result<ToolOutcomeView, Seq<char>>,
    },
    GetHistoryEntryResponse { offset: usize, log_id: u64, entry: Option<Seq<char>> },
    McpListToolsResponse { tools: Seq<char> },
    ShutdownComplete,
    TurnDiff { unified_diff: Seq<char> },
    BackgroundEvent { message: Seq<char> },
}

impl View for EventMsg {
    type V = EventMsgView;

    open spec fn view(&self) -> EventMsgView {
        match self {
            EventMsg::SessionConfigured {
                session_id,
                history_log_id,
                history_entry_count,
            } => EventMsgView::SessionConfigured {
                session_id: session_id@,
                history_log_id: *history_log_id,
                history_entry_count: *history_entry_count,
            },
            EventMsg::AgentMessage { message } => EventMsgView::AgentMessage {
                message: message@,
            },
            EventMsg::AgentMessageDelta { delta } => EventMsgView::AgentMessageDelta {
                delta: delta@,
            },
            EventMsg::AgentReasoning { text } => EventMsgView::AgentReasoning {
                text: text@,
            },
            EventMsg::AgentReasoningDelta { delta } => EventMsgView::AgentReasoningDelta {
                delta: delta@,
            },
            EventMsg::AgentReasoningRawContent {
                text,
            } => EventMsgView::AgentReasoningRawContent {
                text: text@,
            },
            EventMsg::AgentReasoningRawContentDelta {
                delta,
            } => EventMsgView::AgentReasoningRawContentDelta {
                delta: delta@,
            },
            EventMsg::AgentReasoningSectionBreak => EventMsgView::AgentReasoningSectionBreak,
            EventMsg::TaskStarted => EventMsgView::TaskStarted,
            EventMsg::TaskComplete { last_agent_message } => EventMsgView::TaskComplete {
                last_agent_message: opt_view(*last_agent_message),
            },
            EventMsg::TokenCount(x0) => EventMsgView::TokenCount(*x0),
            EventMsg::Error { message } => EventMsgView::Error {
                message: message@,
            },
            EventMsg::TurnAborted { cause } => EventMsgView::TurnAborted {
                cause: cause@,
            },
            EventMsg::PlanUpdate { update } => EventMsgView::PlanUpdate {
                update: update@,
            },
            EventMsg::ExecApprovalRequest {
                command,
                reason,
            } => EventMsgView::ExecApprovalRequest {
                command: strings(command@),
                reason: opt_view(*reason),
            },
            EventMsg::ApplyPatchApprovalRequest {
                changes,
                reason,
                grant_root,
            } => EventMsgView::ApplyPatchApprovalRequest {
                changes: changes@,
                reason: opt_view(*reason),
                grant_root: opt_view(*grant_root),
            },
            EventMsg::ExecCommandBegin {
                call_id,
                command,
                parsed_cmd,
            } => EventMsgView::ExecCommandBegin {
                call_id: call_id@,
                command: strings(command@),
                parsed_cmd: strings(parsed_cmd@),
            },
            EventMsg::ExecCommandOutputDelta {
                call_id,
                chunk,
            } => EventMsgView::ExecCommandOutputDelta {
                call_id: call_id@,
                chunk: chunk@,
            },
            EventMsg::ExecCommandEnd {
                call_id,
                exit_code,
                stdout,
                stderr,
            } => EventMsgView::ExecCommandEnd {
                call_id: call_id@,
                exit_code: *exit_code,
                stdout: stdout@,
                stderr: stderr@,
            },
            EventMsg::PatchApplyBegin {
                auto_approved,
                changes,
            } => EventMsgView::PatchApplyBegin {
                auto_approved: *auto_approved,
                changes: changes@,
            },
            EventMsg::PatchApplyEnd { success, stdout, stderr } => EventMsgView::PatchApplyEnd {
                success: *success,
                stdout: stdout@,
                stderr: stderr@,
            },
            EventMsg::McpToolCallBegin { invocation } => EventMsgView::McpToolCallBegin {
                invocation: invocation@,
            },
            EventMsg::McpToolCallEnd {
                invocation,
                duration_ms,
                result,
            } => EventMsgView::McpToolCallEnd {
                invocation: invocation@,
                duration_ms: *duration_ms,
                result: match result {
                    Ok(x) => Ok(x@),
                    Err(x) => Err(x@),
                },
            },
            EventMsg::GetHistoryEntryResponse {
                offset,
                log_id,
                entry,
            } => EventMsgView::GetHistoryEntryResponse {
                offset: *offset,
                log_id: *log_id,
                entry: opt_view(*entry),
            },
            EventMsg::McpListToolsResponse { tools } => EventMsgView::McpListToolsResponse {
                tools: tools@,
            },
            EventMsg::ShutdownComplete => EventMsgView::ShutdownComplete,
            EventMsg::TurnDiff { unified_diff } => EventMsgView::TurnDiff {
                unified_diff: unified_diff@,
            },
            EventMsg::BackgroundEvent { message } => EventMsgView::BackgroundEvent {
                message: message@,
            },
        }
    }
}

/// An event of the agent.
#[derive(Debug, PartialEq, Eq)]
pub struct Event {
    /// The id of the event within its turn.
    pub id: String,
    /// What the event says.
    pub msg: EventMsg,
}

/// The mathematical value of an event.
#[verifier::ext_equal]
pub ghost struct EventView {
    pub id: Seq<char>,
    pub msg: EventMsgView,
}

impl View for Event {
    type V = EventView;

    open spec fn view(&self) -> EventView {
        EventView {
            id: self.id@,
            msg: self.msg@,
        }
    }
}

/// The views of a sequence of events.
pub open spec fn event_views(events: Seq<Event>) -> Seq<EventView> {
    events.map_values(|e: Event| e@)
}

} // verus!
