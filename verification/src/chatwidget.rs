//! The chat widget: it takes the events of the agent one by one, keeps the
//! state of the turn, defers interruptive events while an answer streams,
//! and says what to append to the history.

pub mod calls;
pub mod laws;
pub mod running;
pub mod selection;
pub mod slash;

use crate::chatwidget::running::{RunningCommand, RunningCommandView, RunningCommands};
use crate::chatwidget::selection::{resume_timeline_opened, timeline_entry};
use crate::history_cell::{
    ApprovalRequest, ApprovalRequestView, CommandOutput, CommandOutputView, Effect, EffectView,
    ExecCell, ExecCellView, HistoryCell, HistoryCellView, PatchEventKind, SelectionAction,
    SelectionItem, effect_views,
};
use crate::interrupts::{InterruptManager, deferrable};
use crate::protocol::{
    Event, EventMsg, EventMsgView, EventView, InputItem, InputItemView, Op, OpView, TokenUsage,
    ToolOutcome, ToolOutcomeView, opt_view,
};
use crate::stream::{
    Outcome, StreamController, StreamView, begun, final_applied, finalized, idle, pushed, ticked,
};
use crate::text::{push_str, strings, to_chars, trim};
use crate::timeline::{TimelineItem, TimelineItemView};
use rand::Rng;
use vstd::prelude::*;

verus! {

/// A command that has ended and waits for its history cell.
#[derive(Debug, PartialEq, Eq)]
pub struct PendingCompletion {
    /// The words of the command.
    pub command: Vec<String>,
    /// The parsed forms of the command.
    pub parsed: Vec<String>,
    /// How the command ended.
    pub output: CommandOutput,
}

/// The mathematical value of a pending completion.
#[verifier::ext_equal]
pub ghost struct PendingCompletionView {
    pub command: Seq<Seq<char>>,
    pub parsed: Seq<Seq<char>>,
    pub output: CommandOutputView,
}

impl View for PendingCompletion {
    type V = PendingCompletionView;

    open spec fn view(&self) -> PendingCompletionView {
        PendingCompletionView {
            command: strings(self.command@),
            parsed: strings(self.parsed@),
            output: self.output@,
        }
    }
}

/// A message of the user: a text and images.
#[derive(Debug, PartialEq, Eq)]
pub struct UserMessage {
    /// The text of the message.
    pub text: String,
    /// The paths of the images of the message.
    pub image_paths: Vec<String>,
}

/// The mathematical value of a user message.
#[verifier::ext_equal]
pub ghost struct UserMessageView {
    pub text: Seq<char>,
    pub image_paths: Seq<Seq<char>>,
}

impl View for UserMessage {
    type V = UserMessageView;

    open spec fn view(&self) -> UserMessageView {
        UserMessageView {
            text: self.text@,
            image_paths: strings(self.image_paths@),
        }
    }
}

/// Two stars stand at index `i` of `s`.
pub open spec fn stars_at(s: Seq<char>, i: int) -> bool {
    0 <= i && i + 1 < s.len() && s[i] == '*' && s[i + 1] == '*'
}

/// The first index from `from` on at which two stars stand.
pub open spec fn next_stars(s: Seq<char>, from: int) -> Option<int>
    decreases s.len() - from,
{
    if from < 0 || from + 1 >= s.len() {
        None
    } else if stars_at(s, from) {
        Some(from)
    } else {
        next_stars(s, from + 1)
    }
}

/// Where two stars are found from `from` on, they stand at or behind
/// `from` and within the text.
pub proof fn lemma_next_stars(s: Seq<char>, from: int)
    ensures
        next_stars(s, from) matches Some(i) ==> from <= i && i + 1 < s.len() && stars_at(s, i),
    decreases s.len() - from,
{
    if !(from < 0 || from + 1 >= s.len()) && !stars_at(s, from) {
        lemma_next_stars(s, from + 1);
    }
}

/// The text of the first bold span from `from` on that has any: what stands
/// between a `**` and the next `**` behind it, without the white space
/// around it. A closed span whose text is blank is passed over, and the
/// search goes on behind its closing `**`. There is none where a span is not
/// closed, and none where no span is left.
pub open spec fn bold_from(s: Seq<char>, from: int) -> Option<Seq<char>>
    decreases s.len() - from,
{
    match next_stars(s, from) {
        Some(open) => match next_stars(s, open + 2) {
            Some(close) => {
                let inner = trim(s.subrange(open + 2, close));
                if inner.len() > 0 {
                    Some(inner)
                } else {
                    proof {
                        lemma_next_stars(s, from);
                        lemma_next_stars(s, open + 2);
                    }
                    bold_from(s, close + 2)
                }
            },
            None => None,
        },
        None => None,
    }
}

/// The text of the first bold span of `s` whose text is not blank, without
/// the white space around it. There is none while the span that the search
/// has come to is not closed.
pub open spec fn first_bold(s: Seq<char>) -> Option<Seq<char>> {
    bold_from(s, 0)
}

/// The first index from `from` on at which two stars stand.
pub fn find_stars(v: &Vec<char>, from: usize) -> (r: Option<usize>)
    ensures
        match r {
            Some(i) => next_stars(v@, from as int) == Some(i as int) && from <= i && i + 1
                < v.len(),
            None => next_stars(v@, from as int) is None,
        },
{
    let mut i: usize = from;
    while i < v.len() && i + 1 < v.len()
        invariant
            from <= i,
            next_stars(v@, from as int) == next_stars(v@, i as int),
        decreases v.len() - i,
    {
        if v[i] == '*' && v[i + 1] == '*' {
            return Some(i);
        }
        i += 1;
    }
    None
}

/// The text of the first bold span of `s` whose text is not blank.
pub fn extract_first_bold(s: &str) -> (r: Option<String>)
    ensures
        r is Some == first_bold(s@) is Some,
        r matches Some(h) ==> first_bold(s@) == Some(h@),
{
    let v = to_chars(s);
    let mut from: usize = 0;
    loop
        invariant
            v@ == s@,
            from <= v.len(),
            first_bold(s@) == bold_from(v@, from as int),
        decreases v.len() - from,
    {
        let open = match find_stars(&v, from) {
            Some(open) => open,
            None => {
                return None;
            },
        };
        let close = match find_stars(&v, open + 2) {
            Some(close) => close,
            None => {
                return None;
            },
        };
        let bounds = crate::text::trim_bounds(&v, open + 2, close);
        if bounds.0 < bounds.1 {
            return Some(crate::text::to_string(&v, bounds.0, bounds.1));
        }
        from = close + 2;
    }
}

/// The sum of two counts, held at the largest count where it would pass it.
pub open spec fn sum(a: u64, b: u64) -> u64 {
    if a + b > u64::MAX {
        u64::MAX
    } else {
        (a + b) as u64
    }
}

/// The sum of two counts that may be unknown: unknown where both are, the
/// known one where one is.
pub open spec fn optional_sum(a: Option<u64>, b: Option<u64>) -> Option<u64> {
    match (a, b) {
        (Some(x), Some(y)) => Some(sum(x, y)),
        (Some(x), None) => Some(x),
        (None, Some(y)) => Some(y),
        (None, None) => None,
    }
}

/// The usage of both together, count by count.
pub open spec fn usage_sum(current: TokenUsage, new: TokenUsage) -> TokenUsage {
    TokenUsage {
        input_tokens: sum(current.input_tokens, new.input_tokens),
        cached_input_tokens: optional_sum(current.cached_input_tokens, new.cached_input_tokens),
        output_tokens: sum(current.output_tokens, new.output_tokens),
        reasoning_output_tokens: optional_sum(
            current.reasoning_output_tokens,
            new.reasoning_output_tokens,
        ),
        total_tokens: sum(current.total_tokens, new.total_tokens),
    }
}

/// The sum of two counts that may be unknown.
pub fn add_optional(a: Option<u64>, b: Option<u64>) -> (r: Option<u64>)
    ensures
        r == optional_sum(a, b),
{
    match (a, b) {
        (Some(x), Some(y)) => Some(x.saturating_add(y)),
        (Some(x), None) => Some(x),
        (None, Some(y)) => Some(y),
        (None, None) => None,
    }
}

/// Adds the usage of a turn to the usage so far.
pub fn add_token_usage(current_usage: &TokenUsage, new_usage: &TokenUsage) -> (r: TokenUsage)
    ensures
        r == usage_sum(*current_usage, *new_usage),
{
    TokenUsage {
        input_tokens: current_usage.input_tokens.saturating_add(new_usage.input_tokens),
        cached_input_tokens: add_optional(
            current_usage.cached_input_tokens,
            new_usage.cached_input_tokens,
        ),
        output_tokens: current_usage.output_tokens.saturating_add(new_usage.output_tokens),
        reasoning_output_tokens: add_optional(
            current_usage.reasoning_output_tokens,
            new_usage.reasoning_output_tokens,
        ),
        total_tokens: current_usage.total_tokens.saturating_add(new_usage.total_tokens),
    }
}

/// No tokens used, and nothing known of cache and reasoning.
pub open spec fn no_usage() -> TokenUsage {
    TokenUsage {
        input_tokens: 0,
        cached_input_tokens: None,
        output_tokens: 0,
        reasoning_output_tokens: None,
        total_tokens: 0,
    }
}

/// The message that a session starts with, where there is a text or an
/// image.
pub fn create_initial_user_message(text: String, image_paths: Vec<String>) -> (r: Option<
    UserMessage,
>)
    ensures
        (text@.len() == 0 && image_paths@.len() == 0) ==> r is None,
        !(text@.len() == 0 && image_paths@.len() == 0) ==> r == Some(
            UserMessage { text, image_paths },
        ),
{
    if text.as_str().is_empty() && image_paths.len() == 0 {
        None
    } else {
        Some(UserMessage { text, image_paths })
    }
}

impl UserMessage {
    /// The message that holds a text and no image.
    pub fn from_text(text: String) -> (r: UserMessage)
        ensures
            r@ == (UserMessageView { text: text@, image_paths: Seq::empty() }),
    {
        let image_paths: Vec<String> = Vec::new();
        assert(strings(image_paths@) =~= Seq::<Seq<char>>::empty());
        UserMessage { text, image_paths }
    }
}

/// The chat widget: the state of the turn.
pub struct ChatWidget {
    /// The controller of the answer stream.
    pub stream: StreamController,
    /// The interruptive events that wait for the stream to finish.
    pub interrupts: InterruptManager,
    /// The commands that are running.
    pub running_commands: RunningCommands,
    /// The cell of the running commands, while there is one.
    pub active_exec_cell: Option<ExecCell>,
    /// The commands that have ended and wait for their history cells.
    pub pending_exec_completions: Vec<PendingCompletion>,
    /// Whether the task is complete and only the stream has to finish.
    pub task_complete_pending: bool,
    /// Whether the event that is handled asks for a redraw.
    pub needs_redraw: bool,
    /// The reasoning of the current block.
    pub reasoning_buffer: String,
    /// The reasoning of the blocks before it.
    pub full_reasoning_buffer: String,
    /// The id of the session, once it is set up.
    pub session_id: Option<String>,
    /// The message to submit once the session is set up.
    pub initial_user_message: Option<UserMessage>,
    /// The tokens used in the session.
    pub total_token_usage: TokenUsage,
    /// The tokens used in the last turn.
    pub last_token_usage: TokenUsage,
    /// Whether a task is running.
    pub task_running: bool,
    /// Whether the hint is shown that another ctrl-c quits.
    pub ctrl_c_quit_hint: bool,
}

/// The mathematical value of a chat widget.
#[verifier::ext_equal]
pub ghost struct WidgetView {
    pub stream: StreamView,
    pub interrupts: Seq<EventView>,
    pub running_commands: Map<Seq<char>, RunningCommandView>,
    pub active_exec_cell: Option<ExecCellView>,
    pub pending_exec_completions: Seq<PendingCompletionView>,
    pub task_complete_pending: bool,
    pub needs_redraw: bool,
    pub reasoning_buffer: Seq<char>,
    pub full_reasoning_buffer: Seq<char>,
    pub session_id: Option<Seq<char>>,
    pub initial_user_message: Option<UserMessageView>,
    pub total_token_usage: TokenUsage,
    pub last_token_usage: TokenUsage,
    pub task_running: bool,
    pub ctrl_c_quit_hint: bool,
}

impl View for ChatWidget {
    type V = WidgetView;

    open spec fn view(&self) -> WidgetView {
        WidgetView {
            stream: self.stream@,
            interrupts: self.interrupts@,
            running_commands: self.running_commands@,
            active_exec_cell: match self.active_exec_cell {
                Some(c) => Some(c@),
                None => None,
            },
            pending_exec_completions: self.pending_exec_completions@.map_values(
                |p: PendingCompletion| p@,
            ),
            task_complete_pending: self.task_complete_pending,
            needs_redraw: self.needs_redraw,
            reasoning_buffer: self.reasoning_buffer@,
            full_reasoning_buffer: self.full_reasoning_buffer@,
            session_id: opt_view(self.session_id),
            initial_user_message: match self.initial_user_message {
                Some(m) => Some(m@),
                None => None,
            },
            total_token_usage: self.total_token_usage,
            last_token_usage: self.last_token_usage,
            task_running: self.task_running,
            ctrl_c_quit_hint: self.ctrl_c_quit_hint,
        }
    }
}

/// The state of the widget and the effects that it has asked for so far.
#[verifier::ext_equal]
pub ghost struct Progress {
    pub state: WidgetView,
    pub effects: Seq<EffectView>,
}

/// The widget and the effects gathered so far.
pub open spec fn progress_of(w: ChatWidget, effects: Vec<Effect>) -> Progress {
    Progress { state: w@, effects: effect_views(effects@) }
}

/// The text of an optional string, empty where there is none.
pub open spec fn opt_text(text: Option<String>) -> Seq<char> {
    match text {
        Some(t) => t@,
        None => Seq::empty(),
    }
}

/// The widget of a new session.
pub open spec fn new_widget(initial_user_message: Option<UserMessageView>) -> WidgetView {
    WidgetView {
        stream: idle(None),
        interrupts: Seq::empty(),
        running_commands: Map::empty(),
        active_exec_cell: None,
        pending_exec_completions: Seq::empty(),
        task_complete_pending: false,
        needs_redraw: false,
        reasoning_buffer: Seq::empty(),
        full_reasoning_buffer: Seq::empty(),
        session_id: None,
        initial_user_message,
        total_token_usage: no_usage(),
        last_token_usage: no_usage(),
        task_running: false,
        ctrl_c_quit_hint: false,
    }
}

/// One more effect.
pub open spec fn emit(s: Progress, e: EffectView) -> Progress {
    Progress { effects: s.effects.push(e), ..s }
}

/// The cell of the running commands goes into the history, where there is
/// one.
pub open spec fn active_cell_flushed(s: Progress) -> Progress {
    match s.state.active_exec_cell {
        Some(cell) => Progress {
            state: WidgetView { active_exec_cell: None, ..s.state },
            effects: s.effects.push(EffectView::History(HistoryCellView::ActiveExec(cell))),
        },
        None => s,
    }
}

/// A cell goes into the history, behind the cell of the running commands.
pub open spec fn history_added(s: Progress, cell: HistoryCellView) -> Progress {
    emit(active_cell_flushed(s), EffectView::History(cell))
}

/// The event that is handled asks for a redraw.
pub open spec fn redraw_marked(s: Progress) -> Progress {
    Progress { state: WidgetView { needs_redraw: true, ..s.state }, ..s }
}

/// The lines of the answer as effects: each goes into the history.
pub open spec fn answer_cells(lines: Seq<Seq<char>>) -> Seq<EffectView> {
    lines.map_values(|l: Seq<char>| EffectView::History(HistoryCellView::AnswerLine(l)))
}

/// What the stream did: its new state and the lines that it committed.
pub open spec fn streamed(s: Progress, o: Outcome) -> Progress {
    Progress {
        state: WidgetView { stream: o.state, ..s.state },
        effects: s.effects + answer_cells(o.lines),
    }
}

/// The answer stream is asked to end, with a blank line behind it.
pub open spec fn answer_flushed(s: Progress) -> Progress {
    streamed(s, finalized(s.state.stream, true))
}

/// A command begins: it is running, and its parsed forms join the cell of
/// the running commands.
pub open spec fn exec_begun(
    s: Progress,
    call_id: Seq<char>,
    command: Seq<Seq<char>>,
    parsed: Seq<Seq<char>>,
) -> Progress {
    let cell = match s.state.active_exec_cell {
        Some(c) => ExecCellView { command: c.command, parsed: c.parsed + parsed },
        None => ExecCellView { command, parsed },
    };
    redraw_marked(
        Progress {
            state: WidgetView {
                running_commands: s.state.running_commands.insert(
                    call_id,
                    RunningCommandView { command, parsed_cmd: parsed },
                ),
                active_exec_cell: Some(cell),
                ..s.state
            },
            ..s
        },
    )
}

/// The history cell of a command that has ended.
pub open spec fn completed_cell(p: PendingCompletionView) -> HistoryCellView {
    HistoryCellView::CompletedExec { command: p.command, parsed: p.parsed, output: p.output }
}

/// The commands that have ended go into the history, in the order in which
/// they ended.
pub open spec fn completions_flushed(s: Progress, pending: Seq<PendingCompletionView>) -> Progress
    decreases pending.len(),
{
    if pending.len() == 0 {
        s
    } else {
        completions_flushed(history_added(s, completed_cell(pending[0])), pending.drop_first())
    }
}

/// What is kept of a command that has ended: its output, and the command
/// and parsed forms that its call runs with. Where no command runs under
/// the call, the call's id stands for the command.
pub open spec fn ended_command(
    running: Map<Seq<char>, RunningCommandView>,
    call_id: Seq<char>,
    output: CommandOutputView,
) -> PendingCompletionView {
    if running.contains_key(call_id) {
        PendingCompletionView {
            command: running[call_id].command,
            parsed: running[call_id].parsed_cmd,
            output,
        }
    } else {
        PendingCompletionView { command: seq![call_id], parsed: Seq::empty(), output }
    }
}

/// A command ends: it runs no longer and waits for its history cell. Once
/// no command is running, the cell of the running commands is retired and
/// the commands that wait go into the history.
pub open spec fn exec_ended(
    s: Progress,
    call_id: Seq<char>,
    exit_code: i32,
    stdout: Seq<char>,
    stderr: Seq<char>,
) -> Progress {
    let running = s.state.running_commands;
    let done = ended_command(running, call_id, CommandOutputView { exit_code, stdout, stderr });
    let pending = s.state.pending_exec_completions.push(done);
    let remaining = running.remove(call_id);
    if remaining == Map::<Seq<char>, RunningCommandView>::empty() {
        completions_flushed(
            Progress {
                state: WidgetView {
                    running_commands: remaining,
                    active_exec_cell: None,
                    pending_exec_completions: Seq::empty(),
                    ..s.state
                },
                ..s
            },
            pending,
        )
    } else {
        Progress {
            state: WidgetView {
                running_commands: remaining,
                pending_exec_completions: pending,
                ..s.state
            },
            ..s
        }
    }
}

/// A patch was applied, or failed to apply.
pub open spec fn patch_ended(
    s: Progress,
    success: bool,
    stdout: Seq<char>,
    stderr: Seq<char>,
) -> Progress {
    history_added(
        s,
        if success {
            HistoryCellView::PatchApplySuccess(stdout)
        } else {
            HistoryCellView::PatchApplyFailure(stderr)
        },
    )
}

/// The agent asks whether it may run a command.
pub open spec fn exec_approval(
    s: Progress,
    id: Seq<char>,
    command: Seq<Seq<char>>,
    reason: Option<Seq<char>>,
) -> Progress {
    redraw_marked(
        emit(
            answer_flushed(s),
            EffectView::Approval(ApprovalRequestView::Exec { id, command, reason }),
        ),
    )
}

/// The agent asks whether it may apply a patch.
pub open spec fn patch_approval(
    s: Progress,
    id: Seq<char>,
    changes: Seq<char>,
    reason: Option<Seq<char>>,
    grant_root: Option<Seq<char>>,
) -> Progress {
    redraw_marked(
        emit(
            history_added(
                answer_flushed(s),
                HistoryCellView::PatchEvent { kind: PatchEventKind::ApprovalRequest, changes },
            ),
            EffectView::Approval(ApprovalRequestView::ApplyPatch { id, reason, grant_root }),
        ),
    )
}

/// A tool call begins.
pub open spec fn mcp_begun(s: Progress, invocation: Seq<char>) -> Progress {
    history_added(answer_flushed(s), HistoryCellView::ActiveMcpToolCall(invocation))
}

/// A tool call succeeded where it gave a result and reported no error.
pub open spec fn tool_succeeded(result: Result<ToolOutcomeView, Seq<char>>) -> bool {
    match result {
        Ok(outcome) => outcome.is_error != Some(true),
        Err(_) => false,
    }
}

/// A tool call has ended.
pub open spec fn mcp_ended(
    s: Progress,
    invocation: Seq<char>,
    duration_ms: u64,
    result: Result<ToolOutcomeView, Seq<char>>,
) -> Progress {
    history_added(
        answer_flushed(s),
        HistoryCellView::CompletedMcpToolCall {
            invocation,
            duration_ms,
            success: tool_succeeded(result),
            result,
        },
    )
}

/// Handles an interruptive event now.
pub open spec fn handled_now(s: Progress, e: EventView) -> Progress {
    match e.msg {
        EventMsgView::ExecCommandBegin { call_id, command, parsed_cmd } => exec_begun(
            s,
            call_id,
            command,
            parsed_cmd,
        ),
        EventMsgView::ExecCommandEnd { call_id, exit_code, stdout, stderr } => exec_ended(
            s,
            call_id,
            exit_code,
            stdout,
            stderr,
        ),
        EventMsgView::PatchApplyEnd { success, stdout, stderr } => patch_ended(
            s,
            success,
            stdout,
            stderr,
        ),
        EventMsgView::McpToolCallBegin { invocation } => mcp_begun(s, invocation),
        EventMsgView::McpToolCallEnd { invocation, duration_ms, result } => mcp_ended(
            s,
            invocation,
            duration_ms,
            result,
        ),
        EventMsgView::ExecApprovalRequest { command, reason } => exec_approval(
            s,
            e.id,
            command,
            reason,
        ),
        EventMsgView::ApplyPatchApprovalRequest { changes, reason, grant_root } => patch_approval(
            s,
            e.id,
            changes,
            reason,
            grant_root,
        ),
        _ => s,
    }
}

/// Handles the events one after the other.
pub open spec fn handled_all(s: Progress, events: Seq<EventView>) -> Progress
    decreases events.len(),
{
    if events.len() == 0 {
        s
    } else {
        handled_all(handled_now(s, events[0]), events.drop_first())
    }
}

/// The events that wait are handled, oldest first, and the queue is empty.
pub open spec fn queue_flushed(s: Progress) -> Progress {
    handled_all(
        Progress { state: WidgetView { interrupts: Seq::empty(), ..s.state }, ..s },
        s.state.interrupts,
    )
}

/// Where the stream has finished: a task that waited for it runs no longer,
/// and the events that wait are handled.
pub open spec fn stream_finished(s: Progress, finished: bool) -> Progress {
    if finished {
        queue_flushed(
            Progress {
                state: if s.state.task_complete_pending {
                    WidgetView { task_running: false, task_complete_pending: false, ..s.state }
                } else {
                    s.state
                },
                ..s
            },
        )
    } else {
        s
    }
}

/// An interruptive event waits while the answer streams or other events
/// wait; else it is handled now.
pub open spec fn deferred(s: Progress, e: EventView) -> Progress {
    if s.state.stream.active || s.state.interrupts.len() > 0 {
        Progress { state: WidgetView { interrupts: s.state.interrupts.push(e), ..s.state }, ..s }
    } else {
        handled_now(s, e)
    }
}

/// Appends an effect.
pub fn push_effect(effects: &mut Vec<Effect>, e: Effect)
    ensures
        effect_views(final(effects)@) == effect_views(old(effects)@).push(e@),
{
    let ghost before = effect_views(effects@);
    effects.push(e);
    assert(effect_views(effects@) =~= before.push(e@));
}

/// Appends the lines of the answer as history cells.
pub fn push_lines(effects: &mut Vec<Effect>, lines: &Vec<String>)
    ensures
        effect_views(final(effects)@) == effect_views(old(effects)@) + answer_cells(
            strings(lines@),
        ),
{
    let ghost before = effect_views(effects@);
    let mut i: usize = 0;
    assert(answer_cells(strings(lines@)).take(0) =~= Seq::<EffectView>::empty());
    assert(effect_views(effects@) =~= before + answer_cells(strings(lines@)).take(0));
    while i < lines.len()
        invariant
            i <= lines.len(),
            effect_views(effects@) == before + answer_cells(strings(lines@)).take(i as int),
        decreases lines.len() - i,
    {
        let ghost so_far = effect_views(effects@);
        let line = lines[i].clone();
        push_effect(effects, Effect::History(HistoryCell::AnswerLine(line)));
        proof {
            let cells = answer_cells(strings(lines@));
            assert(cells.take(i + 1) =~= cells.take(i as int).push(cells[i as int]));
            assert(cells[i as int] == EffectView::History(
                HistoryCellView::AnswerLine(lines@[i as int]@),
            ));
            assert(effect_views(effects@) =~= before + cells.take(i + 1));
        }
        i += 1;
    }
    assert(answer_cells(strings(lines@)).take(lines.len() as int) =~= answer_cells(
        strings(lines@),
    ));
}

impl ChatWidget {
    /// The widget of a new session. The prompt and the images that the
    /// session starts with are submitted once the session is set up.
    pub fn new(initial_prompt: Option<String>, initial_images: Vec<String>) -> (w: ChatWidget)
        ensures
            w@ == new_widget(
                if opt_text(initial_prompt).len() == 0 && initial_images@.len() == 0 {
                    None
                } else {
                    Some(
                        UserMessageView {
                            text: opt_text(initial_prompt),
                            image_paths: strings(initial_images@),
                        },
                    )
                },
            ),
    {
        let text = match initial_prompt {
            Some(t) => t,
            None => String::new(),
        };
        let initial_user_message = create_initial_user_message(text, initial_images);
        let usage = TokenUsage {
            input_tokens: 0,
            cached_input_tokens: None,
            output_tokens: 0,
            reasoning_output_tokens: None,
            total_tokens: 0,
        };
        let w = ChatWidget {
            stream: StreamController::new(),
            interrupts: InterruptManager::new(),
            running_commands: RunningCommands::new(),
            active_exec_cell: None,
            pending_exec_completions: Vec::new(),
            task_complete_pending: false,
            needs_redraw: false,
            reasoning_buffer: String::new(),
            full_reasoning_buffer: String::new(),
            session_id: None,
            initial_user_message,
            total_token_usage: usage,
            last_token_usage: usage,
            task_running: false,
            ctrl_c_quit_hint: false,
        };
        assert(w@.pending_exec_completions =~= Seq::<PendingCompletionView>::empty());
        w
    }

    /// Asks for a redraw once the event is handled.
    fn mark_needs_redraw(&mut self, effects: &mut Vec<Effect>)
        ensures
            progress_of(*final(self), *final(effects)) == redraw_marked(
                progress_of(*old(self), *old(effects)),
            ),
    {
        self.needs_redraw = true;
    }

    /// Puts the cell of the running commands into the history.
    fn flush_active_exec_cell(&mut self, effects: &mut Vec<Effect>)
        ensures
            progress_of(*final(self), *final(effects)) == active_cell_flushed(
                progress_of(*old(self), *old(effects)),
            ),
    {
        match self.active_exec_cell.take() {
            Some(cell) => {
                push_effect(effects, Effect::History(HistoryCell::ActiveExec(cell)));
            },
            None => {},
        }
    }

    /// Puts a cell into the history.
    fn add_to_history(&mut self, effects: &mut Vec<Effect>, cell: HistoryCell)
        ensures
            progress_of(*final(self), *final(effects)) == history_added(
                progress_of(*old(self), *old(effects)),
                cell@,
            ),
    {
        self.flush_active_exec_cell(effects);
        push_effect(effects, Effect::History(cell));
    }

    /// Asks the answer stream to end, with a blank line behind it.
    fn flush_answer_stream_with_separator(&mut self, effects: &mut Vec<Effect>)
        ensures
            progress_of(*final(self), *final(effects)) == answer_flushed(
                progress_of(*old(self), *old(effects)),
            ),
    {
        let mut sink: Vec<String> = Vec::new();
        assert(strings(sink@) =~= Seq::<Seq<char>>::empty());
        let _ = self.stream.finalize(true, &mut sink);
        assert(strings(sink@) =~= finalized(old(self)@.stream, true).lines);
        push_lines(effects, &sink);
    }

    /// A command begins.
    pub fn handle_exec_begin_now(
        &mut self,
        effects: &mut Vec<Effect>,
        call_id: String,
        command: Vec<String>,
        parsed_cmd: Vec<String>,
    )
        ensures
            progress_of(*final(self), *final(effects)) == exec_begun(
                progress_of(*old(self), *old(effects)),
                call_id@,
                strings(command@),
                strings(parsed_cmd@),
            ),
    {
        let running = RunningCommand {
            command: copy_strings(&command),
            parsed_cmd: copy_strings(&parsed_cmd),
        };
        self.running_commands.insert(call_id, running);
        match self.active_exec_cell.take() {
            Some(cell) => {
                let mut parsed = cell.parsed;
                let ghost before = strings(parsed@);
                let mut i: usize = 0;
                assert(before + strings(parsed_cmd@).take(0) =~= before);
                while i < parsed_cmd.len()
                    invariant
                        i <= parsed_cmd.len(),
                        strings(parsed@) == before + strings(parsed_cmd@).take(i as int),
                    decreases parsed_cmd.len() - i,
                {
                    let ghost so_far = strings(parsed@);
                    parsed.push(parsed_cmd[i].clone());
                    assert(strings(parsed@) =~= so_far.push(parsed_cmd@[i as int]@));
                    assert(strings(parsed_cmd@).take(i + 1) =~= strings(parsed_cmd@).take(
                        i as int,
                    ).push(parsed_cmd@[i as int]@));
                    i += 1;
                }
                assert(strings(parsed_cmd@).take(parsed_cmd.len() as int) =~= strings(
                    parsed_cmd@,
                ));
                self.active_exec_cell = Some(ExecCell { command: cell.command, parsed });
            },
            None => {
                self.active_exec_cell = Some(ExecCell { command, parsed: parsed_cmd });
            },
        }
        self.mark_needs_redraw(effects);
    }

    /// Puts the commands that have ended into the history.
    fn flush_completions(&mut self, effects: &mut Vec<Effect>, pending: Vec<PendingCompletion>)
        ensures
            progress_of(*final(self), *final(effects)) == completions_flushed(
                progress_of(*old(self), *old(effects)),
                pending@.map_values(|p: PendingCompletion| p@),
            ),
    {
        let mut rest = pending;
        let ghost views = pending@.map_values(|p: PendingCompletion| p@);
        while rest.len() > 0
            invariant
                completions_flushed(
                    progress_of(*self, *effects),
                    rest@.map_values(|p: PendingCompletion| p@),
                ) == completions_flushed(progress_of(*old(self), *old(effects)), views),
            decreases rest.len(),
        {
            let ghost before = rest@.map_values(|p: PendingCompletion| p@);
            let p = rest.remove(0);
            assert(rest@.map_values(|p: PendingCompletion| p@) =~= before.drop_first());
            assert(before[0] == p@);
            self.add_to_history(
                effects,
                HistoryCell::CompletedExec {
                    command: p.command,
                    parsed: p.parsed,
                    output: p.output,
                },
            );
        }
    }

    /// A command ends.
    pub fn handle_exec_end_now(
        &mut self,
        effects: &mut Vec<Effect>,
        call_id: String,
        exit_code: i32,
        stdout: String,
        stderr: String,
    )
        ensures
            progress_of(*final(self), *final(effects)) == exec_ended(
                progress_of(*old(self), *old(effects)),
                call_id@,
                exit_code,
                stdout@,
                stderr@,
            ),
    {
        let running = self.running_commands.remove(call_id.as_str());
        let output = CommandOutput { exit_code, stdout, stderr };
        let done = match running {
            Some(r) => PendingCompletion { command: r.command, parsed: r.parsed_cmd, output },
            None => {
                let mut command: Vec<String> = Vec::new();
                command.push(call_id);
                let parsed: Vec<String> = Vec::new();
                assert(strings(command@) =~= seq![call_id@]);
                assert(strings(parsed@) =~= Seq::<Seq<char>>::empty());
                PendingCompletion { command, parsed, output }
            },
        };
        let ghost before = self.pending_exec_completions@.map_values(|p: PendingCompletion| p@);
        self.pending_exec_completions.push(done);
        assert(self.pending_exec_completions@.map_values(|p: PendingCompletion| p@) =~= before.push(
            done@,
        ));
        if self.running_commands.is_empty() {
            self.active_exec_cell = None;
            let mut pending: Vec<PendingCompletion> = Vec::new();
            core::mem::swap(&mut pending, &mut self.pending_exec_completions);
            assert(self.pending_exec_completions@.map_values(|p: PendingCompletion| p@)
                =~= Seq::<PendingCompletionView>::empty());
            self.flush_completions(effects, pending);
        }
    }

    /// A patch was applied, or failed to apply.
    pub fn handle_patch_apply_end_now(
        &mut self,
        effects: &mut Vec<Effect>,
        success: bool,
        stdout: String,
        stderr: String,
    )
        ensures
            progress_of(*final(self), *final(effects)) == patch_ended(
                progress_of(*old(self), *old(effects)),
                success,
                stdout@,
                stderr@,
            ),
    {
        if success {
            self.add_to_history(effects, HistoryCell::PatchApplySuccess(stdout));
        } else {
            self.add_to_history(effects, HistoryCell::PatchApplyFailure(stderr));
        }
    }

    /// The agent asks whether it may run a command.
    pub fn handle_exec_approval_now(
        &mut self,
        effects: &mut Vec<Effect>,
        id: String,
        command: Vec<String>,
        reason: Option<String>,
    )
        ensures
            progress_of(*final(self), *final(effects)) == exec_approval(
                progress_of(*old(self), *old(effects)),
                id@,
                strings(command@),
                opt_view(reason),
            ),
    {
        self.flush_answer_stream_with_separator(effects);
        push_effect(effects, Effect::Approval(ApprovalRequest::Exec { id, command, reason }));
        self.mark_needs_redraw(effects);
    }

    /// The agent asks whether it may apply a patch.
    pub fn handle_apply_patch_approval_now(
        &mut self,
        effects: &mut Vec<Effect>,
        id: String,
        changes: String,
        reason: Option<String>,
        grant_root: Option<String>,
    )
        ensures
            progress_of(*final(self), *final(effects)) == patch_approval(
                progress_of(*old(self), *old(effects)),
                id@,
                changes@,
                opt_view(reason),
                opt_view(grant_root),
            ),
    {
        self.flush_answer_stream_with_separator(effects);
        self.add_to_history(
            effects,
            HistoryCell::PatchEvent { kind: PatchEventKind::ApprovalRequest, changes },
        );
        push_effect(
            effects,
            Effect::Approval(ApprovalRequest::ApplyPatch { id, reason, grant_root }),
        );
        self.mark_needs_redraw(effects);
    }

    /// A tool call begins.
    pub fn handle_mcp_begin_now(&mut self, effects: &mut Vec<Effect>, invocation: String)
        ensures
            progress_of(*final(self), *final(effects)) == mcp_begun(
                progress_of(*old(self), *old(effects)),
                invocation@,
            ),
    {
        self.flush_answer_stream_with_separator(effects);
        self.add_to_history(effects, HistoryCell::ActiveMcpToolCall(invocation));
    }

    /// A tool call has ended.
    pub fn handle_mcp_end_now(
        &mut self,
        effects: &mut Vec<Effect>,
        invocation: String,
        duration_ms: u64,
        result: Result<ToolOutcome, String>,
    )
        ensures
            progress_of(*final(self), *final(effects)) == mcp_ended(
                progress_of(*old(self), *old(effects)),
                invocation@,
                duration_ms,
                match result {
                    Ok(x) => Ok(x@),
                    Err(x) => Err(x@),
                },
            ),
    {
        self.flush_answer_stream_with_separator(effects);
        let success = match &result {
            Ok(outcome) => match outcome.is_error {
                Some(failed) => !failed,
                None => true,
            },
            Err(_) => false,
        };
        self.add_to_history(
            effects,
            HistoryCell::CompletedMcpToolCall { invocation, duration_ms, success, result },
        );
    }

    /// Handles an interruptive event now.
    pub fn handle_now(&mut self, effects: &mut Vec<Effect>, event: Event)
        ensures
            progress_of(*final(self), *final(effects)) == handled_now(
                progress_of(*old(self), *old(effects)),
                event@,
            ),
    {
        let id = event.id;
        match event.msg {
            EventMsg::ExecCommandBegin { call_id, command, parsed_cmd } => {
                self.handle_exec_begin_now(effects, call_id, command, parsed_cmd)
            },
            EventMsg::ExecCommandEnd { call_id, exit_code, stdout, stderr } => {
                self.handle_exec_end_now(effects, call_id, exit_code, stdout, stderr)
            },
            EventMsg::PatchApplyEnd { success, stdout, stderr } => {
                self.handle_patch_apply_end_now(effects, success, stdout, stderr)
            },
            EventMsg::McpToolCallBegin { invocation } => {
                self.handle_mcp_begin_now(effects, invocation)
            },
            EventMsg::McpToolCallEnd { invocation, duration_ms, result } => {
                self.handle_mcp_end_now(effects, invocation, duration_ms, result)
            },
            EventMsg::ExecApprovalRequest { command, reason } => {
                self.handle_exec_approval_now(effects, id, command, reason)
            },
            EventMsg::ApplyPatchApprovalRequest { changes, reason, grant_root } => {
                self.handle_apply_patch_approval_now(effects, id, changes, reason, grant_root)
            },
            _ => {},
        }
    }

    /// Handles the events that wait, oldest first.
    pub fn flush_interrupt_queue(&mut self, effects: &mut Vec<Effect>)
        ensures
            progress_of(*final(self), *final(effects)) == queue_flushed(
                progress_of(*old(self), *old(effects)),
            ),
    {
        let mut waiting = self.interrupts.take_all();
        while !waiting.is_empty()
            invariant
                handled_all(progress_of(*self, *effects), waiting@) == queue_flushed(
                    progress_of(*old(self), *old(effects)),
                ),
            decreases waiting@.len(),
        {
            match waiting.pop_front() {
                Some(event) => {
                    self.handle_now(effects, event);
                },
                None => {},
            }
        }
    }

    /// Where the stream has finished: ends the task that waited for it and
    /// handles the events that wait.
    pub fn handle_if_stream_finished(&mut self, effects: &mut Vec<Effect>, finished: bool)
        ensures
            progress_of(*final(self), *final(effects)) == stream_finished(
                progress_of(*old(self), *old(effects)),
                finished,
            ),
    {
        if finished {
            if self.task_complete_pending {
                self.task_running = false;
                self.task_complete_pending = false;
            }
            self.flush_interrupt_queue(effects);
        }
    }

    /// Lets an interruptive event wait while the answer streams or other
    /// events wait; handles it now else.
    pub fn defer_or_handle(&mut self, effects: &mut Vec<Effect>, event: Event)
        ensures
            progress_of(*final(self), *final(effects)) == deferred(
                progress_of(*old(self), *old(effects)),
                event@,
            ),
    {
        if self.stream.is_write_cycle_active() || !self.interrupts.is_empty() {
            self.interrupts.push(event);
        } else {
            self.handle_now(effects, event);
        }
    }
}

/// The items that a user message hands to the agent: its text, where it
/// has one, and its images.
pub open spec fn input_items(m: UserMessageView) -> Seq<InputItemView> {
    (if m.text.len() > 0 {
        seq![InputItemView::Text { text: m.text }]
    } else {
        Seq::empty()
    }) + m.image_paths.map_values(|p: Seq<char>| InputItemView::LocalImage { path: p })
}

/// A user message is submitted: its items go to the agent, and its text
/// goes to the message history and into the history of the conversation. A
/// message without text and images is dropped.
pub open spec fn user_message_submitted(s: Progress, m: UserMessageView) -> Progress {
    let items = input_items(m);
    if items.len() == 0 {
        s
    } else {
        let sent = emit(s, EffectView::Submit(OpView::UserInput { items }));
        if m.text.len() > 0 {
            history_added(
                emit(sent, EffectView::Submit(OpView::AddToHistory { text: m.text })),
                HistoryCellView::UserPrompt(m.text),
            )
        } else {
            sent
        }
    }
}

/// The session is set up.
pub open spec fn session_configured(
    s: Progress,
    session_id: Seq<char>,
    history_log_id: u64,
    history_entry_count: usize,
) -> Progress {
    let told = emit(
        s,
        EffectView::HistoryMetadata { log_id: history_log_id, entry_count: history_entry_count },
    );
    let shown = history_added(
        Progress { state: WidgetView { session_id: Some(session_id), ..told.state }, ..told },
        HistoryCellView::SessionInfo { session_id, history_log_id, history_entry_count },
    );
    redraw_marked(
        match shown.state.initial_user_message {
            Some(m) => user_message_submitted(
                Progress { state: WidgetView { initial_user_message: None, ..shown.state }, ..shown },
                m,
            ),
            None => shown,
        },
    )
}

/// The whole answer has come.
pub open spec fn agent_message(s: Progress, message: Seq<char>) -> Progress {
    let o = final_applied(s.state.stream, message);
    redraw_marked(stream_finished(streamed(s, o), o.finished))
}

/// A piece of the answer has come.
pub open spec fn agent_message_delta(s: Progress, delta: Seq<char>) -> Progress {
    redraw_marked(
        Progress {
            state: WidgetView { stream: pushed(begun(s.state.stream), delta), ..s.state },
            ..s
        },
    )
}

/// A piece of reasoning has come: it joins the reasoning of the block, and
/// the first bold span of the block is shown as the status header unless it
/// is shown already.
pub open spec fn reasoning_delta(s: Progress, delta: Seq<char>) -> Progress {
    let buffer = s.state.reasoning_buffer + delta;
    let kept = Progress { state: WidgetView { reasoning_buffer: buffer, ..s.state }, ..s };
    redraw_marked(
        match first_bold(buffer) {
            Some(header) => if kept.state.stream.header == Some(header) {
                kept
            } else {
                emit(
                    Progress {
                        state: WidgetView {
                            stream: StreamView { header: Some(header), ..kept.state.stream },
                            ..kept.state
                        },
                        ..kept
                    },
                    EffectView::StatusHeader(header),
                )
            },
            None => kept,
        },
    )
}

/// A reasoning block has ended: the reasoning goes into the history, unless
/// there is none.
pub open spec fn reasoning_final(s: Progress) -> Progress {
    let full = s.state.full_reasoning_buffer + s.state.reasoning_buffer;
    let shown = if full.len() > 0 {
        history_added(s, HistoryCellView::ReasoningBlock(full))
    } else {
        s
    };
    redraw_marked(
        Progress {
            state: WidgetView {
                reasoning_buffer: Seq::empty(),
                full_reasoning_buffer: Seq::empty(),
                ..shown.state
            },
            ..shown
        },
    )
}

/// A new section of reasoning begins.
pub open spec fn section_break(s: Progress) -> Progress {
    Progress {
        state: WidgetView {
            full_reasoning_buffer: s.state.full_reasoning_buffer + s.state.reasoning_buffer + seq![
                '\n',
                '\n',
            ],
            reasoning_buffer: Seq::empty(),
            ..s.state
        },
        ..s
    }
}

/// A task has started.
pub open spec fn task_started(s: Progress) -> Progress {
    redraw_marked(
        Progress {
            state: WidgetView {
                ctrl_c_quit_hint: false,
                task_running: true,
                stream: StreamView { header: None, ..s.state.stream },
                reasoning_buffer: Seq::empty(),
                full_reasoning_buffer: Seq::empty(),
                ..s.state
            },
            ..s
        },
    )
}

/// The task is complete. While the answer streams, the stream is asked to
/// end with a blank line, and the task counts as running until the stream
/// has finished. No command counts as running any more.
pub open spec fn task_complete(s: Progress) -> Progress {
    let ended = if s.state.stream.active {
        let o = finalized(s.state.stream, true);
        let t = streamed(s, o);
        if o.finished {
            stream_finished(
                Progress { state: WidgetView { task_running: false, ..t.state }, ..t },
                true,
            )
        } else {
            Progress { state: WidgetView { task_complete_pending: true, ..t.state }, ..t }
        }
    } else {
        Progress { state: WidgetView { task_running: false, ..s.state }, ..s }
    };
    redraw_marked(
        Progress { state: WidgetView { running_commands: Map::empty(), ..ended.state }, ..ended },
    )
}

/// The tokens used so far have come.
pub open spec fn token_count(s: Progress, usage: TokenUsage) -> Progress {
    let total = usage_sum(s.state.total_token_usage, usage);
    emit(
        Progress {
            state: WidgetView { total_token_usage: total, last_token_usage: usage, ..s.state },
            ..s
        },
        EffectView::TokenUsage { total, last: usage },
    )
}

/// The turn failed: the error goes into the history, no task and no
/// command runs any more, and the stream is cleared.
pub open spec fn failed(s: Progress, message: Seq<char>) -> Progress {
    let shown = history_added(s, HistoryCellView::Error(message));
    redraw_marked(
        Progress {
            state: WidgetView {
                task_running: false,
                running_commands: Map::empty(),
                stream: idle(shown.state.stream.header),
                ..shown.state
            },
            ..shown
        },
    )
}

/// What the history says of a turn that was aborted.
pub open spec fn interrupted_text() -> Seq<char> {
    "Turn interrupted"@
}

/// Handles an event, whatever it says.
pub open spec fn routed(s: Progress, e: EventView) -> Progress {
    match e.msg {
        EventMsgView::SessionConfigured { session_id, history_log_id, history_entry_count } =>
            session_configured(s, session_id, history_log_id, history_entry_count),
        EventMsgView::AgentMessage { message } => agent_message(s, message),
        EventMsgView::AgentMessageDelta { delta } => agent_message_delta(s, delta),
        EventMsgView::AgentReasoningDelta { delta } => reasoning_delta(s, delta),
        EventMsgView::AgentReasoningRawContentDelta { delta } => reasoning_delta(s, delta),
        EventMsgView::AgentReasoning { text } => reasoning_final(s),
        EventMsgView::AgentReasoningRawContent { text } => reasoning_final(s),
        EventMsgView::AgentReasoningSectionBreak => section_break(s),
        EventMsgView::TaskStarted => task_started(s),
        EventMsgView::TaskComplete { last_agent_message } => task_complete(s),
        EventMsgView::TokenCount(usage) => token_count(s, usage),
        EventMsgView::Error { message } => failed(s, message),
        EventMsgView::TurnAborted { cause } => failed(s, interrupted_text()),
        EventMsgView::PlanUpdate { update } => history_added(s, HistoryCellView::PlanUpdate(update)),
        EventMsgView::ExecCommandOutputDelta { call_id, chunk } => s,
        EventMsgView::PatchApplyBegin { auto_approved, changes } => history_added(
            s,
            HistoryCellView::PatchEvent {
                kind: PatchEventKind::ApplyBegin { auto_approved },
                changes,
            },
        ),
        EventMsgView::GetHistoryEntryResponse { offset, log_id, entry } => emit(
            s,
            EffectView::HistoryEntry { log_id, offset, entry },
        ),
        EventMsgView::McpListToolsResponse { tools } => history_added(
            s,
            HistoryCellView::McpTools(tools),
        ),
        EventMsgView::ShutdownComplete => emit(s, EffectView::Exit),
        EventMsgView::TurnDiff { unified_diff } => s,
        EventMsgView::BackgroundEvent { message } => s,
        _ => deferred(s, e),
    }
}

/// A redraw is asked for where the event marked one.
pub open spec fn redraw_requested(s: Progress) -> Progress {
    if s.state.needs_redraw {
        Progress {
            state: WidgetView { needs_redraw: false, ..s.state },
            effects: s.effects.push(EffectView::Redraw),
        }
    } else {
        s
    }
}

/// What the widget does with an event: its new state and the effects, in
/// order. The redraw, where one is asked for, is the last effect.
pub open spec fn dispatched(w: WidgetView, e: EventView) -> Progress {
    redraw_requested(
        routed(Progress { state: WidgetView { needs_redraw: false, ..w }, effects: Seq::empty() }, e),
    )
}

/// What the widget does at a commit tick: the stream commits a line, and
/// where it has finished the events that wait are handled.
pub open spec fn tick_committed(w: WidgetView) -> Progress {
    let o = ticked(w.stream);
    stream_finished(streamed(Progress { state: w, effects: Seq::empty() }, o), o.finished)
}

/// The running task is interrupted: no command runs any more, the agent is
/// told to stop, the stream is cleared, and a redraw is asked for.
pub open spec fn task_interrupted(s: Progress) -> Progress {
    if s.state.task_running {
        emit(
            emit(
                Progress {
                    state: WidgetView {
                        active_exec_cell: None,
                        running_commands: Map::empty(),
                        ctrl_c_quit_hint: false,
                        task_running: false,
                        stream: idle(s.state.stream.header),
                        ..s.state
                    },
                    ..s
                },
                EffectView::Submit(OpView::Interrupt),
            ),
            EffectView::Redraw,
        )
    } else {
        s
    }
}

/// What the widget does with ctrl-c, and whether the key is used up. A key
/// that the composer used changes nothing. Else a running task is
/// interrupted; without one the key shows the hint that another ctrl-c
/// quits, and with the hint shown it shuts the agent down.
pub open spec fn ctrl_c_pressed(w: WidgetView, composer_handled: bool) -> (Progress, bool) {
    let s = Progress { state: w, effects: Seq::empty() };
    if composer_handled {
        (s, true)
    } else if w.task_running {
        (task_interrupted(s), false)
    } else if w.ctrl_c_quit_hint {
        (emit(s, EffectView::Submit(OpView::Shutdown)), true)
    } else {
        (Progress { state: WidgetView { ctrl_c_quit_hint: true, ..w }, ..s }, false)
    }
}

impl ChatWidget {
    /// Submits a message of the user.
    pub fn submit_user_message(&mut self, effects: &mut Vec<Effect>, user_message: UserMessage)
        ensures
            progress_of(*final(self), *final(effects)) == user_message_submitted(
                progress_of(*old(self), *old(effects)),
                user_message@,
            ),
    {
        let text = user_message.text;
        let image_paths = user_message.image_paths;
        let has_text = !text.as_str().is_empty();
        let mut items: Vec<InputItem> = Vec::new();
        if has_text {
            items.push(InputItem::Text { text: crate::text::text_copy(text.as_str()) });
        }
        let ghost head = items@.map_values(|x: InputItem| x@);
        let mut i: usize = 0;
        let ghost paths = strings(image_paths@);
        let ghost images = paths.map_values(|p: Seq<char>| InputItemView::LocalImage { path: p });
        assert(head + images.take(0) =~= head);
        while i < image_paths.len()
            invariant
                i <= image_paths.len(),
                paths == strings(image_paths@),
                images == paths.map_values(|p: Seq<char>| InputItemView::LocalImage { path: p }),
                items@.map_values(|x: InputItem| x@) == head + images.take(i as int),
            decreases image_paths.len() - i,
        {
            let ghost so_far = items@.map_values(|x: InputItem| x@);
            items.push(InputItem::LocalImage { path: image_paths[i].clone() });
            assert(items@.map_values(|x: InputItem| x@) =~= so_far.push(images[i as int]));
            assert(images.take(i + 1) =~= images.take(i as int).push(images[i as int]));
            i += 1;
        }
        assert(images.take(image_paths.len() as int) =~= images);
        assert(items@.map_values(|x: InputItem| x@) =~= input_items(user_message@));
        if items.len() == 0 {
            return ;
        }
        push_effect(effects, Effect::Submit(Op::UserInput { items }));
        if has_text {
            push_effect(
                effects,
                Effect::Submit(
                    Op::AddToHistory { text: crate::text::text_copy(text.as_str()) },
                ),
            );
            self.add_to_history(effects, HistoryCell::UserPrompt(text));
        }
    }

    /// Submits a text as a message of the user; an empty text is dropped.
    pub fn submit_text_message(&mut self, effects: &mut Vec<Effect>, text: String)
        ensures
            progress_of(*final(self), *final(effects)) == user_message_submitted(
                progress_of(*old(self), *old(effects)),
                UserMessageView { text: text@, image_paths: Seq::empty() },
            ),
    {
        if text.as_str().is_empty() {
            assert(input_items(UserMessageView { text: text@, image_paths: Seq::empty() })
                =~= Seq::<InputItemView>::empty());
            return ;
        }
        self.submit_user_message(effects, UserMessage::from_text(text));
    }

    fn on_session_configured(
        &mut self,
        effects: &mut Vec<Effect>,
        session_id: String,
        history_log_id: u64,
        history_entry_count: usize,
    )
        ensures
            progress_of(*final(self), *final(effects)) == session_configured(
                progress_of(*old(self), *old(effects)),
                session_id@,
                history_log_id,
                history_entry_count,
            ),
    {
        push_effect(
            effects,
            Effect::HistoryMetadata { log_id: history_log_id, entry_count: history_entry_count },
        );
        self.session_id = Some(crate::text::text_copy(session_id.as_str()));
        self.add_to_history(
            effects,
            HistoryCell::SessionInfo { session_id, history_log_id, history_entry_count },
        );
        match self.initial_user_message.take() {
            Some(user_message) => {
                self.submit_user_message(effects, user_message);
            },
            None => {},
        }
        self.mark_needs_redraw(effects);
    }

    fn on_agent_message(&mut self, effects: &mut Vec<Effect>, message: String)
        ensures
            progress_of(*final(self), *final(effects)) == agent_message(
                progress_of(*old(self), *old(effects)),
                message@,
            ),
    {
        let mut sink: Vec<String> = Vec::new();
        assert(strings(sink@) =~= Seq::<Seq<char>>::empty());
        let finished = self.stream.apply_final_answer(message.as_str(), &mut sink);
        assert(strings(sink@) =~= final_applied(old(self)@.stream, message@).lines);
        push_lines(effects, &sink);
        self.handle_if_stream_finished(effects, finished);
        self.mark_needs_redraw(effects);
    }

    fn on_agent_message_delta(&mut self, effects: &mut Vec<Effect>, delta: String)
        ensures
            progress_of(*final(self), *final(effects)) == agent_message_delta(
                progress_of(*old(self), *old(effects)),
                delta@,
            ),
    {
        let mut sink: Vec<String> = Vec::new();
        self.stream.begin(&mut sink);
        self.stream.push_and_maybe_commit(delta.as_str(), &mut sink);
        self.mark_needs_redraw(effects);
    }

    fn on_agent_reasoning_delta(&mut self, effects: &mut Vec<Effect>, delta: String)
        ensures
            progress_of(*final(self), *final(effects)) == reasoning_delta(
                progress_of(*old(self), *old(effects)),
                delta@,
            ),
    {
        push_str(&mut self.reasoning_buffer, delta.as_str());
        match extract_first_bold(self.reasoning_buffer.as_str()) {
            Some(header) => {
                let shown = match &self.stream.header {
                    Some(h) => crate::text::same_text(h.as_str(), header.as_str()),
                    None => false,
                };
                if !shown {
                    self.stream.header = Some(crate::text::text_copy(header.as_str()));
                    push_effect(effects, Effect::StatusHeader(header));
                }
            },
            None => {},
        }
        self.mark_needs_redraw(effects);
    }

    fn on_agent_reasoning_final(&mut self, effects: &mut Vec<Effect>)
        ensures
            progress_of(*final(self), *final(effects)) == reasoning_final(
                progress_of(*old(self), *old(effects)),
            ),
    {
        let mut full = String::new();
        core::mem::swap(&mut full, &mut self.full_reasoning_buffer);
        push_str(&mut full, self.reasoning_buffer.as_str());
        if !full.as_str().is_empty() {
            self.add_to_history(effects, HistoryCell::ReasoningBlock(full));
        }
        self.reasoning_buffer = String::new();
        self.full_reasoning_buffer = String::new();
        self.mark_needs_redraw(effects);
    }

    fn on_reasoning_section_break(&mut self, effects: &mut Vec<Effect>)
        ensures
            progress_of(*final(self), *final(effects)) == section_break(
                progress_of(*old(self), *old(effects)),
            ),
    {
        push_str(&mut self.full_reasoning_buffer, self.reasoning_buffer.as_str());
        self.full_reasoning_buffer.push('\n');
        self.full_reasoning_buffer.push('\n');
        assert(self.full_reasoning_buffer@ =~= old(self).full_reasoning_buffer@ + old(
            self,
        ).reasoning_buffer@ + seq!['\n', '\n']);
        self.reasoning_buffer = String::new();
    }

    fn on_task_started(&mut self, effects: &mut Vec<Effect>)
        ensures
            progress_of(*final(self), *final(effects)) == task_started(
                progress_of(*old(self), *old(effects)),
            ),
    {
        self.ctrl_c_quit_hint = false;
        self.task_running = true;
        self.stream.reset_headers_for_new_turn();
        self.full_reasoning_buffer = String::new();
        self.reasoning_buffer = String::new();
        self.mark_needs_redraw(effects);
    }

    fn on_task_complete(&mut self, effects: &mut Vec<Effect>)
        ensures
            progress_of(*final(self), *final(effects)) == task_complete(
                progress_of(*old(self), *old(effects)),
            ),
    {
        if self.stream.is_write_cycle_active() {
            let mut sink: Vec<String> = Vec::new();
            assert(strings(sink@) =~= Seq::<Seq<char>>::empty());
            let finished = self.stream.finalize(true, &mut sink);
            assert(strings(sink@) =~= finalized(old(self)@.stream, true).lines);
            push_lines(effects, &sink);
            if finished {
                self.task_running = false;
                self.handle_if_stream_finished(effects, true);
            } else {
                self.task_complete_pending = true;
            }
        } else {
            self.task_running = false;
        }
        self.running_commands.clear();
        self.mark_needs_redraw(effects);
    }

    fn on_token_count(&mut self, effects: &mut Vec<Effect>, token_usage: TokenUsage)
        ensures
            progress_of(*final(self), *final(effects)) == token_count(
                progress_of(*old(self), *old(effects)),
                token_usage,
            ),
    {
        self.total_token_usage = add_token_usage(&self.total_token_usage, &token_usage);
        self.last_token_usage = token_usage;
        push_effect(
            effects,
            Effect::TokenUsage { total: self.total_token_usage, last: self.last_token_usage },
        );
    }

    fn on_error(&mut self, effects: &mut Vec<Effect>, message: String)
        ensures
            progress_of(*final(self), *final(effects)) == failed(
                progress_of(*old(self), *old(effects)),
                message@,
            ),
    {
        self.add_to_history(effects, HistoryCell::Error(message));
        self.task_running = false;
        self.running_commands.clear();
        self.stream.clear_all();
        self.mark_needs_redraw(effects);
    }

    /// Handles an event, whatever it says.
    #[verifier::rlimit(100)]
    fn route(&mut self, effects: &mut Vec<Effect>, event: Event)
        ensures
            progress_of(*final(self), *final(effects)) == routed(
                progress_of(*old(self), *old(effects)),
                event@,
            ),
    {
        if deferrable(&event.msg) {
            self.defer_or_handle(effects, event);
            return ;
        }
        match event.msg {
            EventMsg::SessionConfigured { session_id, history_log_id, history_entry_count } => {
                self.on_session_configured(
                    effects,
                    session_id,
                    history_log_id,
                    history_entry_count,
                )
            },
            EventMsg::AgentMessage { message } => self.on_agent_message(effects, message),
            EventMsg::AgentMessageDelta { delta } => self.on_agent_message_delta(effects, delta),
            EventMsg::AgentReasoningDelta { delta } => {
                self.on_agent_reasoning_delta(effects, delta)
            },
            EventMsg::AgentReasoningRawContentDelta { delta } => {
                self.on_agent_reasoning_delta(effects, delta)
            },
            EventMsg::AgentReasoning { .. } => self.on_agent_reasoning_final(effects),
            EventMsg::AgentReasoningRawContent { .. } => self.on_agent_reasoning_final(effects),
            EventMsg::AgentReasoningSectionBreak => self.on_reasoning_section_break(effects),
            EventMsg::TaskStarted => self.on_task_started(effects),
            EventMsg::TaskComplete { .. } => self.on_task_complete(effects),
            EventMsg::TokenCount(token_usage) => self.on_token_count(effects, token_usage),
            EventMsg::Error { message } => self.on_error(effects, message),
            EventMsg::TurnAborted { .. } => {
                self.on_error(effects, crate::text::text_copy("Turn interrupted"))
            },
            EventMsg::PlanUpdate { update } => {
                self.add_to_history(effects, HistoryCell::PlanUpdate(update))
            },
            EventMsg::PatchApplyBegin { auto_approved, changes } => {
                self.add_to_history(
                    effects,
                    HistoryCell::PatchEvent {
                        kind: PatchEventKind::ApplyBegin { auto_approved },
                        changes,
                    },
                )
            },
            EventMsg::GetHistoryEntryResponse { offset, log_id, entry } => {
                push_effect(effects, Effect::HistoryEntry { log_id, offset, entry })
            },
            EventMsg::McpListToolsResponse { tools } => {
                self.add_to_history(effects, HistoryCell::McpTools(tools))
            },
            EventMsg::ShutdownComplete => push_effect(effects, Effect::Exit),
            _ => {},
        }
    }

    /// Handles an event of the agent and gives the effects to carry out, in
    /// order. At most one redraw is among them, and it is the last.
    pub fn handle_codex_event(&mut self, event: Event) -> (effects: Vec<Effect>)
        ensures
            final(self)@ == dispatched(old(self)@, event@).state,
            effect_views(effects@) == dispatched(old(self)@, event@).effects,
    {
        let mut effects: Vec<Effect> = Vec::new();
        assert(effect_views(effects@) =~= Seq::<EffectView>::empty());
        self.needs_redraw = false;
        self.route(&mut effects, event);
        if self.needs_redraw {
            push_effect(&mut effects, Effect::Redraw);
            self.needs_redraw = false;
        }
        effects
    }

    /// Commits at most one line of the answer and gives the effects to
    /// carry out.
    pub fn on_commit_tick(&mut self) -> (effects: Vec<Effect>)
        ensures
            final(self)@ == tick_committed(old(self)@).state,
            effect_views(effects@) == tick_committed(old(self)@).effects,
    {
        let mut effects: Vec<Effect> = Vec::new();
        assert(effect_views(effects@) =~= Seq::<EffectView>::empty());
        let mut sink: Vec<String> = Vec::new();
        assert(strings(sink@) =~= Seq::<Seq<char>>::empty());
        let finished = self.stream.on_commit_tick(&mut sink);
        assert(strings(sink@) =~= ticked(old(self)@.stream).lines);
        push_lines(&mut effects, &sink);
        self.handle_if_stream_finished(&mut effects, finished);
        effects
    }

    /// Interrupts the running task.
    pub fn interrupt_running_task(&mut self, effects: &mut Vec<Effect>)
        ensures
            progress_of(*final(self), *final(effects)) == task_interrupted(
                progress_of(*old(self), *old(effects)),
            ),
    {
        if self.task_running {
            self.active_exec_cell = None;
            self.running_commands.clear();
            self.ctrl_c_quit_hint = false;
            push_effect(effects, Effect::Submit(Op::Interrupt));
            self.task_running = false;
            self.stream.clear_all();
            push_effect(effects, Effect::Redraw);
        }
    }

    /// Handles ctrl-c. `composer_handled` says whether the composer used the
    /// key. The result says whether the key is used up; the caller handles
    /// a key that is not.
    pub fn on_ctrl_c(&mut self, composer_handled: bool) -> (r: (Vec<Effect>, bool))
        ensures
            final(self)@ == ctrl_c_pressed(old(self)@, composer_handled).0.state,
            effect_views(r.0@) == ctrl_c_pressed(old(self)@, composer_handled).0.effects,
            r.1 == ctrl_c_pressed(old(self)@, composer_handled).1,
    {
        let mut effects: Vec<Effect> = Vec::new();
        assert(effect_views(effects@) =~= Seq::<EffectView>::empty());
        if composer_handled {
            return (effects, true);
        }
        if self.task_running {
            self.interrupt_running_task(&mut effects);
            (effects, false)
        } else if self.ctrl_c_quit_hint {
            push_effect(&mut effects, Effect::Submit(Op::Shutdown));
            (effects, true)
        } else {
            self.ctrl_c_quit_hint = true;
            (effects, false)
        }
    }
}

/// What the composer shows while it is empty. `pick` chooses among the
/// examples.
pub fn example_prompt(pick: usize) -> (r: &'static str)
    ensures
        r@ == example_prompt_text(pick as nat % 6),
{
    let n = pick % 6;
    if n == 0 {
        "Explain this codebase"
    } else if n == 1 {
        "Summarize recent commits"
    } else if n == 2 {
        "Implement {feature}"
    } else if n == 3 {
        "Find and fix a bug in @filename"
    } else if n == 4 {
        "Write tests for @filename"
    } else {
        "Improve documentation in @filename"
    }
}

/// `rand::rng` and `random_range` on the generator that it gives: a number
/// below `n`, drawn at random. Each call may give another number.
#[verifier::external_body]
fn random_below(n: usize) -> (r: usize)
    requires
        n > 0,
    ensures
        r < n,
{
    rand::rng().random_range(0..n)
}

/// One of the example prompts, drawn at random.
pub fn random_example_prompt() -> (r: &'static str)
    ensures
        exists|n: nat| n < 6 && r@ == example_prompt_text(n),
{
    let pick = random_below(6);
    let r = example_prompt(pick);
    assert(pick as nat % 6 == pick as nat);
    assert(r@ == example_prompt_text(pick as nat));
    r
}

/// The example prompts.
pub open spec fn example_prompt_text(n: nat) -> Seq<char> {
    if n == 0 {
        "Explain this codebase"@
    } else if n == 1 {
        "Summarize recent commits"@
    } else if n == 2 {
        "Implement {feature}"@
    } else if n == 3 {
        "Find and fix a bug in @filename"@
    } else if n == 4 {
        "Write tests for @filename"@
    } else {
        "Improve documentation in @filename"@
    }
}

/// A diff is computed: a task runs, the status says so, and a redraw is
/// asked for.
pub open spec fn diff_in_progress(s: Progress) -> Progress {
    emit(
        emit(
            Progress { state: WidgetView { task_running: true, ..s.state }, ..s },
            EffectView::StatusText("computing diff"@),
        ),
        EffectView::Redraw,
    )
}

/// The diff has come: no task runs, and the diff goes into the history.
pub open spec fn diff_output_added(s: Progress, diff: Seq<char>) -> Progress {
    redraw_marked(
        history_added(
            Progress { state: WidgetView { task_running: false, ..s.state }, ..s },
            HistoryCellView::DiffOutput(diff),
        ),
    )
}

/// The status of the session goes into the history.
pub open spec fn status_output_added(s: Progress) -> Progress {
    history_added(
        s,
        HistoryCellView::StatusOutput {
            usage: s.state.total_token_usage,
            session: s.state.session_id,
        },
    )
}

/// The tools are asked for where servers are configured; else the history
/// says that none is.
pub open spec fn mcp_output_added(s: Progress, has_servers: bool) -> Progress {
    if has_servers {
        emit(s, EffectView::Submit(OpView::ListMcpTools))
    } else {
        history_added(s, HistoryCellView::EmptyMcpOutput)
    }
}

/// The tokens of the session are forgotten.
pub open spec fn token_usage_cleared(s: Progress) -> Progress {
    emit(
        Progress { state: WidgetView { total_token_usage: no_usage(), ..s.state }, ..s },
        EffectView::TokenUsage { total: no_usage(), last: s.state.last_token_usage },
    )
}

impl ChatWidget {
    /// Opens the timeline of the sessions to resume from.
    pub fn open_resume_timeline(&mut self, items: Vec<TimelineItem>) -> (effects: Vec<Effect>)
        ensures
            progress_of(*final(self), effects) == resume_timeline_opened(
                Progress { state: old(self)@, effects: Seq::empty() },
                items@.map_values(|i: TimelineItem| i@),
            ),
    {
        let mut effects: Vec<Effect> = Vec::new();
        assert(effect_views(effects@) =~= Seq::<EffectView>::empty());
        if items.len() == 0 {
            let mut lines: Vec<String> = Vec::new();
            lines.push(crate::text::text_copy("No sessions found under ~/.codex/sessions"));
            lines.push(String::new());
            assert(strings(lines@) =~= seq![
                "No sessions found under ~/.codex/sessions"@,
                Seq::<char>::empty(),
            ]);
            self.add_to_history(&mut effects, HistoryCell::Plain(lines));
            push_effect(&mut effects, Effect::Redraw);
            return effects;
        }
        let ghost views = items@.map_values(|i: TimelineItem| i@);
        let mut entries: Vec<SelectionItem> = Vec::new();
        let mut i: usize = 0;
        while i < items.len()
            invariant
                i <= items.len(),
                views == items@.map_values(|i: TimelineItem| i@),
                entries@.len() == i,
                forall|k: int| 0 <= k < i ==> (#[trigger] entries@[k])@ == timeline_entry(views[k]),
            decreases items.len() - i,
        {
            let item = &items[i];
            let mut actions: Vec<SelectionAction> = Vec::new();
            actions.push(SelectionAction::Resume(crate::timeline::resume_request(item)));
            let entry = SelectionItem {
                name: crate::text::text_copy(item.name.as_str()),
                description: match &item.description {
                    Some(d) => Some(crate::text::text_copy(d.as_str())),
                    None => None,
                },
                is_current: false,
                actions,
            };
            assert(entry@.actions =~= timeline_entry(views[i as int]).actions);
            entries.push(entry);
            i += 1;
        }
        assert(entries@.map_values(|x: SelectionItem| x@) =~= views.map_values(
            |i: TimelineItemView| timeline_entry(i),
        ));
        push_effect(
            &mut effects,
            Effect::ShowSelection {
                title: crate::text::text_copy("Resume from a previous turn"),
                subtitle: Some(
                    crate::text::text_copy(
                        "Sorted by time (newest first). Use \u{2191}/\u{2193}; PgUp/PgDn/Home/End for fast navigation.",
                    ),
                ),
                footer: Some(crate::text::text_copy("Press Enter to resume or Esc to cancel")),
                items: entries,
            },
        );
        effects
    }

    /// Says that a diff is computed.
    pub fn add_diff_in_progress(&mut self) -> (effects: Vec<Effect>)
        ensures
            progress_of(*final(self), effects) == diff_in_progress(
                Progress { state: old(self)@, effects: Seq::empty() },
            ),
    {
        let mut effects: Vec<Effect> = Vec::new();
        assert(effect_views(effects@) =~= Seq::<EffectView>::empty());
        self.task_running = true;
        push_effect(&mut effects, Effect::StatusText(crate::text::text_copy("computing diff")));
        push_effect(&mut effects, Effect::Redraw);
        effects
    }

    /// Puts the diff that was computed into the history.
    pub fn add_diff_output(&mut self, diff_output: String) -> (effects: Vec<Effect>)
        ensures
            progress_of(*final(self), effects) == diff_output_added(
                Progress { state: old(self)@, effects: Seq::empty() },
                diff_output@,
            ),
    {
        let mut effects: Vec<Effect> = Vec::new();
        assert(effect_views(effects@) =~= Seq::<EffectView>::empty());
        self.task_running = false;
        self.add_to_history(&mut effects, HistoryCell::DiffOutput(diff_output));
        self.mark_needs_redraw(&mut effects);
        effects
    }

    /// Puts the status of the session into the history.
    pub fn add_status_output(&mut self) -> (effects: Vec<Effect>)
        ensures
            progress_of(*final(self), effects) == status_output_added(
                Progress { state: old(self)@, effects: Seq::empty() },
            ),
    {
        let mut effects: Vec<Effect> = Vec::new();
        assert(effect_views(effects@) =~= Seq::<EffectView>::empty());
        let session = match &self.session_id {
            Some(id) => Some(crate::text::text_copy(id.as_str())),
            None => None,
        };
        let cell = HistoryCell::StatusOutput { usage: self.total_token_usage, session };
        self.add_to_history(&mut effects, cell);
        effects
    }

    /// Asks for the tools of the configured servers, or says that no
    /// server is configured.
    pub fn add_mcp_output(&mut self, has_servers: bool) -> (effects: Vec<Effect>)
        ensures
            progress_of(*final(self), effects) == mcp_output_added(
                Progress { state: old(self)@, effects: Seq::empty() },
                has_servers,
            ),
    {
        let mut effects: Vec<Effect> = Vec::new();
        assert(effect_views(effects@) =~= Seq::<EffectView>::empty());
        if has_servers {
            push_effect(&mut effects, Effect::Submit(Op::ListMcpTools));
        } else {
            self.add_to_history(&mut effects, HistoryCell::EmptyMcpOutput);
        }
        effects
    }

    /// The height that the widget asks for: that of the composer and,
    /// while commands run, that of their cell.
    pub fn desired_height(&self, composer_height: u16, active_cell_height: u16) -> (r: u16)
        requires
            self@.active_exec_cell is Some ==> composer_height + active_cell_height <= u16::MAX,
        ensures
            r == composer_height + if self@.active_exec_cell is Some {
                active_cell_height as int
            } else {
                0
            },
    {
        if self.active_exec_cell.is_some() {
            composer_height + active_cell_height
        } else {
            composer_height
        }
    }

    /// The tokens that the session has used.
    pub fn token_usage(&self) -> (r: &TokenUsage)
        ensures
            *r == self@.total_token_usage,
    {
        &self.total_token_usage
    }

    /// Forgets the tokens that the session has used.
    pub fn clear_token_usage(&mut self) -> (effects: Vec<Effect>)
        ensures
            progress_of(*final(self), effects) == token_usage_cleared(
                Progress { state: old(self)@, effects: Seq::empty() },
            ),
    {
        let mut effects: Vec<Effect> = Vec::new();
        assert(effect_views(effects@) =~= Seq::<EffectView>::empty());
        self.total_token_usage = TokenUsage {
            input_tokens: 0,
            cached_input_tokens: None,
            output_tokens: 0,
            reasoning_output_tokens: None,
            total_tokens: 0,
        };
        push_effect(
            &mut effects,
            Effect::TokenUsage { total: self.total_token_usage, last: self.last_token_usage },
        );
        effects
    }
}

/// A copy of a list of strings.
pub fn copy_strings(v: &Vec<String>) -> (r: Vec<String>)
    ensures
        strings(r@) == strings(v@),
{
    let mut r: Vec<String> = Vec::new();
    let mut i: usize = 0;
    while i < v.len()
        invariant
            i <= v.len(),
            r@.len() == i,
            forall|k: int| 0 <= k < i ==> (#[trigger] r@[k])@ == v@[k]@,
        decreases v.len() - i,
    {
        r.push(v[i].clone());
        i += 1;
    }
    assert(strings(r@) =~= strings(v@));
    r
}

} // verus!
