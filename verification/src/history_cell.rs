//! What the conversation core hands to its surroundings: the cells of the
//! history and the other effects of handling an event.

use crate::protocol::{opt_view, Op, OpView, TokenUsage, ToolOutcome, ToolOutcomeView};
use crate::text::strings;
use vstd::prelude::*;

verus! {

/// Which step of a patch a history cell shows.
#[derive(Clone, Copy, Debug, PartialEq, Eq)]
pub enum PatchEventKind {
    /// The agent asks for approval of the patch.
    ApprovalRequest,
    /// The patch begins to be applied.
    ApplyBegin { auto_approved: bool },
}

/// How a command ended.
#[derive(Debug, PartialEq, Eq)]
pub struct CommandOutput {
    /// The exit code of the command.
    pub exit_code: i32,
    /// What the command wrote to its output.
    pub stdout: String,
    /// What the command wrote to its error output.
    pub stderr: String,
}

/// The mathematical value of the end of a command.
#[verifier::ext_equal]
pub ghost struct CommandOutputView {
    pub exit_code: i32,
    pub stdout: Seq<char>,
    pub stderr: Seq<char>,
}

impl View for CommandOutput {
    type V = CommandOutputView;

    open spec fn view(&self) -> CommandOutputView {
        CommandOutputView {
            exit_code: self.exit_code,
            stdout: self.stdout@,
            stderr: self.stderr@,
        }
    }
}

/// The cell of the commands that are running.
#[derive(Debug, PartialEq, Eq)]
pub struct ExecCell {
    /// The command that the cell was made for.
    pub command: Vec<String>,
    /// The parsed forms of all commands of the cell.
    pub parsed: Vec<String>,
}

/// The mathematical value of the cell of running commands.
#[verifier::ext_equal]
pub ghost struct ExecCellView {
    pub command: Seq<Seq<char>>,
    pub parsed: Seq<Seq<char>>,
}

impl View for ExecCell {
    type V = ExecCellView;

    open spec fn view(&self) -> ExecCellView {
        ExecCellView {
            command: strings(self.command@),
            parsed: strings(self.parsed@),
        }
    }
}

/// A cell of the history.
#[derive(Debug, PartialEq, Eq)]
pub enum HistoryCell {
    /// The session as it was set up.
    SessionInfo { session_id: String, history_log_id: u64, history_entry_count: usize },
    /// A line of the answer.
    AnswerLine(String),
    /// The reasoning of a block.
    ReasoningBlock(String),
    /// An error.
    Error(String),
    /// A change of the plan.
    PlanUpdate(String),
    /// The commands that were running when the next cell came.
    ActiveExec(ExecCell),
    /// A command that has ended.
    CompletedExec { command: Vec<String>, parsed: Vec<String>, output: CommandOutput },
    /// A step of a patch.
    PatchEvent { kind: PatchEventKind, changes: String },
    /// A patch that was applied.
    PatchApplySuccess(String),
    /// A patch that failed to apply.
    PatchApplyFailure(String),
    /// A tool call that is running.
    ActiveMcpToolCall(String),
    /// A tool call that has ended.
    CompletedMcpToolCall {
        invocation: String,
        duration_ms: u64,
        success: bool,
        result: Result<ToolOutcome, String>,
    },
    /// The tools of the configured servers.
    McpTools(String),
    /// A prompt of the user.
    UserPrompt(String),
    /// The diff of the working tree.
    DiffOutput(String),
    /// The status of the session.
    StatusOutput { usage: TokenUsage, session: Option<String> },
    /// The note that no server is configured.
    EmptyMcpOutput,
    /// Plain lines.
    Plain(Vec<String>),
}

/// The mathematical value of a history cell.
#[verifier::ext_equal]
pub ghost enum HistoryCellView {
    SessionInfo { session_id: Seq<char>, history_log_id: u64, history_entry_count: usize },
    AnswerLine(Seq<char>),
    ReasoningBlock(Seq<char>),
    Error(Seq<char>),
    PlanUpdate(Seq<char>),
    ActiveExec(ExecCellView),
    CompletedExec {
        command: Seq<Seq<char>>,
        parsed: Seq<Seq<char>>,
        output: CommandOutputView,
    },
    PatchEvent { kind: PatchEventKind, changes: Seq<char> },
    PatchApplySuccess(Seq<char>),
    PatchApplyFailure(Seq<char>),
    ActiveMcpToolCall(Seq<char>),
    CompletedMcpToolCall {
        invocation: Seq<char>,
        duration_ms: u64,
        success: bool,
        result: Result<ToolOutcomeView, Seq<char>>,
    },
    McpTools(Seq<char>),
    UserPrompt(Seq<char>),
    DiffOutput(Seq<char>),
    StatusOutput { usage: TokenUsage, session: Option<Seq<char>> },
    EmptyMcpOutput,
    Plain(Seq<Seq<char>>),
}

impl View for HistoryCell {
    type V = HistoryCellView;

    open spec fn view(&self) -> HistoryCellView {
        match self {
            HistoryCell::SessionInfo {
                session_id,
                history_log_id,
                history_entry_count,
            } => HistoryCellView::SessionInfo {
                session_id: session_id@,
                history_log_id: *history_log_id,
                history_entry_count: *history_entry_count,
            },
            HistoryCell::AnswerLine(x0) => HistoryCellView::AnswerLine(x0@),
            HistoryCell::ReasoningBlock(x0) => HistoryCellView::ReasoningBlock(x0@),
            HistoryCell::Error(x0) => HistoryCellView::Error(x0@),
            HistoryCell::PlanUpdate(x0) => HistoryCellView::PlanUpdate(x0@),
            HistoryCell::ActiveExec(x0) => HistoryCellView::ActiveExec(x0@),
            HistoryCell::CompletedExec {
                command,
                parsed,
                output,
            } => HistoryCellView::CompletedExec {
                command: strings(command@),
                parsed: strings(parsed@),
                output: output@,
            },
            HistoryCell::PatchEvent { kind, changes } => HistoryCellView::PatchEvent {
                kind: *kind,
                changes: changes@,
            },
            HistoryCell::PatchApplySuccess(x0) => HistoryCellView::PatchApplySuccess(x0@),
            HistoryCell::PatchApplyFailure(x0) => HistoryCellView::PatchApplyFailure(x0@),
            HistoryCell::ActiveMcpToolCall(x0) => HistoryCellView::ActiveMcpToolCall(x0@),
            HistoryCell::CompletedMcpToolCall {
                invocation,
                duration_ms,
                success,
                result,
            } => HistoryCellView::CompletedMcpToolCall {
                invocation: invocation@,
                duration_ms: *duration_ms,
                success: *success,
                result: match result {
                    Ok(x) => Ok(x@),
                    Err(x) => Err(x@),
                },
            },
            HistoryCell::McpTools(x0) => HistoryCellView::McpTools(x0@),
            HistoryCell::UserPrompt(x0) => HistoryCellView::UserPrompt(x0@),
            HistoryCell::DiffOutput(x0) => HistoryCellView::DiffOutput(x0@),
            HistoryCell::StatusOutput { usage, session } => HistoryCellView::StatusOutput {
                usage: *usage,
                session: opt_view(*session),
            },
            HistoryCell::EmptyMcpOutput => HistoryCellView::EmptyMcpOutput,
            HistoryCell::Plain(x0) => HistoryCellView::Plain(strings(x0@)),
        }
    }
}

/// A request for approval that the composer shows.
#[derive(Debug, PartialEq, Eq)]
pub enum ApprovalRequest {
    /// May the command run?
    Exec { id: String, command: Vec<String>, reason: Option<String> },
    /// May the patch be applied?
    ApplyPatch { id: String, reason: Option<String>, grant_root: Option<String> },
}

/// The mathematical value of a request for approval.
#[verifier::ext_equal]
pub ghost enum ApprovalRequestView {
    Exec { id: Seq<char>, command: Seq<Seq<char>>, reason: Option<Seq<char>> },
    ApplyPatch { id: Seq<char>, reason: Option<Seq<char>>, grant_root: Option<Seq<char>> },
}

impl View for ApprovalRequest {
    type V = ApprovalRequestView;

    open spec fn view(&self) -> ApprovalRequestView {
        match self {
            ApprovalRequest::Exec { id, command, reason } => ApprovalRequestView::Exec {
                id: id@,
                command: strings(command@),
                reason: opt_view(*reason),
            },
            ApprovalRequest::ApplyPatch {
                id,
                reason,
                grant_root,
            } => ApprovalRequestView::ApplyPatch {
                id: id@,
                reason: opt_view(*reason),
                grant_root: opt_view(*grant_root),
            },
        }
    }
}

/// A request to resume a session.
#[derive(Debug, PartialEq, Eq)]
pub struct ResumeRequest {
    /// Session id or path of a rollout file.
    pub target: String,
    /// Response id to resume from.
    pub at: Option<String>,
    /// Step to resume from, counted from zero.
    pub step: Option<usize>,
    /// The next user prompt.
    pub prompt: String,
}

/// The mathematical value of a request to resume a session.
#[verifier::ext_equal]
pub ghost struct ResumeRequestView {
    pub target: Seq<char>,
    pub at: Option<Seq<char>>,
    pub step: Option<usize>,
    pub prompt: Seq<char>,
}

impl View for ResumeRequest {
    type V = ResumeRequestView;

    open spec fn view(&self) -> ResumeRequestView {
        ResumeRequestView {
            target: self.target@,
            at: opt_view(self.at),
            step: self.step,
            prompt: self.prompt@,
        }
    }
}

/// What choosing an entry of a selection asks for.
#[derive(Debug, PartialEq, Eq)]
pub enum SelectionAction {
    /// Resume a session.
    Resume(ResumeRequest),
    /// Send an operation to the agent.
    Submit(Op),
    /// Take the model for the turns to come.
    UpdateModel(String),
    /// Take the reasoning effort for the turns to come.
    UpdateReasoningEffort(String),
    /// Take the approval policy for the turns to come.
    UpdateAskForApprovalPolicy(String),
    /// Take the sandbox policy for the turns to come.
    UpdateSandboxPolicy(String),
}

/// The mathematical value of the action of a selection.
#[verifier::ext_equal]
pub ghost enum SelectionActionView {
    Resume(ResumeRequestView),
    Submit(OpView),
    UpdateModel(Seq<char>),
    UpdateReasoningEffort(Seq<char>),
    UpdateAskForApprovalPolicy(Seq<char>),
    UpdateSandboxPolicy(Seq<char>),
}

impl View for SelectionAction {
    type V = SelectionActionView;

    open spec fn view(&self) -> SelectionActionView {
        match self {
            SelectionAction::Resume(x0) => SelectionActionView::Resume(x0@),
            SelectionAction::Submit(x0) => SelectionActionView::Submit(x0@),
            SelectionAction::UpdateModel(x0) => SelectionActionView::UpdateModel(x0@),
            SelectionAction::UpdateReasoningEffort(x0) => {
                SelectionActionView::UpdateReasoningEffort(x0@)
            },
            SelectionAction::UpdateAskForApprovalPolicy(x0) => {
                SelectionActionView::UpdateAskForApprovalPolicy(x0@)
            },
            SelectionAction::UpdateSandboxPolicy(x0) => {
                SelectionActionView::UpdateSandboxPolicy(x0@)
            },
        }
    }
}

/// An entry of a selection.
#[derive(Debug, PartialEq, Eq)]
pub struct SelectionItem {
    /// What the list shows for the entry.
    pub name: String,
    /// What the list says of the entry.
    pub description: Option<String>,
    /// Whether the entry is the current choice.
    pub is_current: bool,
    /// What choosing the entry asks for, in order.
    pub actions: Vec<SelectionAction>,
}

/// The mathematical value of an entry of a selection.
#[verifier::ext_equal]
pub ghost struct SelectionItemView {
    pub name: Seq<char>,
    pub description: Option<Seq<char>>,
    pub is_current: bool,
    pub actions: Seq<SelectionActionView>,
}

impl View for SelectionItem {
    type V = SelectionItemView;

    open spec fn view(&self) -> SelectionItemView {
        SelectionItemView {
            name: self.name@,
            description: opt_view(self.description),
            is_current: self.is_current,
            actions: self.actions@.map_values(|x: SelectionAction| x@),
        }
    }
}

/// What handling an event asks of the surroundings.
#[derive(Debug, PartialEq, Eq)]
pub enum Effect {
    /// Append a cell to the history.
    History(HistoryCell),
    /// Send an operation to the agent.
    Submit(Op),
    /// Tell the composer which message history the session has.
    HistoryMetadata { log_id: u64, entry_count: usize },
    /// Show a status header.
    StatusHeader(String),
    /// Show a status text.
    StatusText(String),
    /// Show a selection.
    ShowSelection {
        title: String,
        subtitle: Option<String>,
        footer: Option<String>,
        items: Vec<SelectionItem>,
    },
    /// Show the tokens used.
    TokenUsage { total: TokenUsage, last: TokenUsage },
    /// Ask the user for an approval.
    Approval(ApprovalRequest),
    /// Hand the composer an entry of the message history.
    HistoryEntry { log_id: u64, offset: usize, entry: Option<String> },
    /// Ask the application to resume a session.
    Resume(ResumeRequest),
    /// Ask the application to exit.
    Exit,
    /// Ask for a redraw.
    Redraw,
}

/// The mathematical value of an effect.
#[verifier::ext_equal]
pub ghost enum EffectView {
    History(HistoryCellView),
    Submit(OpView),
    HistoryMetadata { log_id: u64, entry_count: usize },
    StatusHeader(Seq<char>),
    StatusText(Seq<char>),
    ShowSelection {
        title: Seq<char>,
        subtitle: Option<Seq<char>>,
        footer: Option<Seq<char>>,
        items: Seq<SelectionItemView>,
    },
    TokenUsage { total: TokenUsage, last: TokenUsage },
    Approval(ApprovalRequestView),
    HistoryEntry { log_id: u64, offset: usize, entry: Option<Seq<char>> },
    Resume(ResumeRequestView),
    Exit,
    Redraw,
}

impl View for Effect {
    type V = EffectView;

    open spec fn view(&self) -> EffectView {
        match self {
            Effect::History(x0) => EffectView::History(x0@),
            Effect::Submit(x0) => EffectView::Submit(x0@),
            Effect::HistoryMetadata { log_id, entry_count } => EffectView::HistoryMetadata {
                log_id: *log_id,
                entry_count: *entry_count,
            },
            Effect::StatusHeader(x0) => EffectView::StatusHeader(x0@),
            Effect::StatusText(x0) => EffectView::StatusText(x0@),
            Effect::ShowSelection {
                title,
                subtitle,
                footer,
                items,
            } => EffectView::ShowSelection {
                title: title@,
                subtitle: opt_view(*subtitle),
                footer: opt_view(*footer),
                items: items@.map_values(|x: SelectionItem| x@),
            },
            Effect::TokenUsage { total, last } => EffectView::TokenUsage {
                total: *total,
                last: *last,
            },
            Effect::Approval(x0) => EffectView::Approval(x0@),
            Effect::HistoryEntry { log_id, offset, entry } => EffectView::HistoryEntry {
                log_id: *log_id,
                offset: *offset,
                entry: opt_view(*entry),
            },
            Effect::Resume(x0) => EffectView::Resume(x0@),
            Effect::Exit => EffectView::Exit,
            Effect::Redraw => EffectView::Redraw,
        }
    }
}

/// The views of a sequence of effects.
pub open spec fn effect_views(effects: Seq<Effect>) -> Seq<EffectView> {
    effects.map_values(|e: Effect| e@)
}

} // verus!
