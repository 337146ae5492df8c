//! What holds of the widget whatever events come: redraws are coalesced,
//! interruptive events are handled in the order in which they come, and
//! each command that ends is accounted for once and in its turn.

use crate::chatwidget::running::RunningCommandView;
use crate::chatwidget::{
    PendingCompletionView, Progress, UserMessageView, WidgetView, active_cell_flushed, answer_cells,
    answer_flushed, completed_cell, completions_flushed, dispatched, emit, ended_command,
    first_bold, handled_all, handled_now, history_added, input_items, interrupted_text,
    reasoning_delta, redraw_marked, redraw_requested, routed, stream_finished, streamed,
    tick_committed, tool_succeeded, usage_sum, user_message_submitted,
};
use crate::history_cell::{
    ApprovalRequestView, CommandOutputView, EffectView, HistoryCellView, PatchEventKind,
};
use crate::interrupts::is_deferrable;
use crate::protocol::{EventMsgView, EventView, OpView};
use crate::stream::{Outcome, final_applied, finalized, ticked};
use vstd::prelude::*;

verus! {

/// No redraw is among the effects.
pub open spec fn redraw_free(effects: Seq<EffectView>) -> bool {
    forall|i: int| 0 <= i < effects.len() ==> !(#[trigger] effects[i] is Redraw)
}

/// Putting commands that have ended into the history asks for no redraw.
pub proof fn lemma_completions_redraw_free(s: Progress, pending: Seq<PendingCompletionView>)
    requires
        redraw_free(s.effects),
    ensures
        redraw_free(completions_flushed(s, pending).effects),
    decreases pending.len(),
{
    if pending.len() > 0 {
        lemma_completions_redraw_free(
            history_added(s, completed_cell(pending[0])),
            pending.drop_first(),
        );
    }
}

/// Handling an interruptive event asks for no redraw by itself; it only
/// marks one.
pub proof fn lemma_handled_now_redraw_free(s: Progress, e: EventView)
    requires
        redraw_free(s.effects),
    ensures
        redraw_free(handled_now(s, e).effects),
{
    match e.msg {
        EventMsgView::ExecCommandEnd { call_id, exit_code, stdout, stderr } => {
            let running = s.state.running_commands;
            let done = ended_command(
                running,
                call_id,
                CommandOutputView { exit_code, stdout, stderr },
            );
            lemma_completions_redraw_free(
                Progress {
                    state: WidgetView {
                        running_commands: running.remove(call_id),
                        active_exec_cell: None,
                        pending_exec_completions: Seq::empty(),
                        ..s.state
                    },
                    ..s
                },
                s.state.pending_exec_completions.push(done),
            );
        },
        _ => {},
    }
}

/// Handling the events that wait asks for no redraw by itself.
pub proof fn lemma_handled_all_redraw_free(s: Progress, events: Seq<EventView>)
    requires
        redraw_free(s.effects),
    ensures
        redraw_free(handled_all(s, events).effects),
    decreases events.len(),
{
    if events.len() > 0 {
        lemma_handled_now_redraw_free(s, events[0]);
        lemma_handled_all_redraw_free(handled_now(s, events[0]), events.drop_first());
    }
}

/// Where the stream has finished, no redraw is asked for by that.
pub proof fn lemma_stream_finished_redraw_free(s: Progress, finished: bool)
    requires
        redraw_free(s.effects),
    ensures
        redraw_free(stream_finished(s, finished).effects),
{
    if finished {
        let t = Progress {
            state: if s.state.task_complete_pending {
                WidgetView { task_running: false, task_complete_pending: false, ..s.state }
            } else {
                s.state
            },
            ..s
        };
        lemma_handled_all_redraw_free(
            Progress { state: WidgetView { interrupts: Seq::empty(), ..t.state }, ..t },
            t.state.interrupts,
        );
    }
}

/// Handling an event asks for no redraw by itself: it only marks one.
#[verifier::rlimit(50)]
pub proof fn lemma_routed_redraw_free(s: Progress, e: EventView)
    requires
        redraw_free(s.effects),
    ensures
        redraw_free(routed(s, e).effects),
{
    match e.msg {
        EventMsgView::AgentMessage { message } => {
            let o = final_applied(s.state.stream, message);
            lemma_stream_finished_redraw_free(streamed(s, o), o.finished);
        },
        EventMsgView::TaskComplete { last_agent_message } => {
            if s.state.stream.active {
                let o = finalized(s.state.stream, true);
                let t = streamed(s, o);
                lemma_stream_finished_redraw_free(
                    Progress { state: WidgetView { task_running: false, ..t.state }, ..t },
                    true,
                );
            }
        },
        _ => {
            if is_deferrable(e.msg) {
                lemma_handled_now_redraw_free(s, e);
            }
        },
    }
}

/// At most one redraw is asked for per event, and it is the last effect.
pub proof fn lemma_at_most_one_redraw(w: WidgetView, e: EventView)
    ensures
        forall|i: int|
            0 <= i < dispatched(w, e).effects.len() && (#[trigger] dispatched(w, e).effects[i])
                is Redraw ==> i == dispatched(w, e).effects.len() - 1,
        !dispatched(w, e).state.needs_redraw,
{
    let start = Progress { state: WidgetView { needs_redraw: false, ..w }, effects: Seq::empty() };
    lemma_routed_redraw_free(start, e);
}

/// What the widget is given: an event of the agent, or a commit tick.
pub ghost enum Input {
    Event(EventView),
    Tick,
}

/// The widget after an input.
#[verifier::opaque]
pub open spec fn after(w: WidgetView, input: Input) -> WidgetView {
    match input {
        Input::Event(e) => dispatched(w, e).state,
        Input::Tick => tick_committed(w).state,
    }
}

/// The effects of an input.
#[verifier::opaque]
pub open spec fn effects_of(w: WidgetView, input: Input) -> Seq<EffectView> {
    match input {
        Input::Event(e) => dispatched(w, e).effects,
        Input::Tick => tick_committed(w).effects,
    }
}

/// The widget after the inputs, one after the other.
pub open spec fn run(w: WidgetView, inputs: Seq<Input>) -> WidgetView
    decreases inputs.len(),
{
    if inputs.len() == 0 {
        w
    } else {
        after(run(w, inputs.drop_last()), inputs.last())
    }
}

/// The effects of the inputs, in order.
pub open spec fn run_effects(w: WidgetView, inputs: Seq<Input>) -> Seq<EffectView>
    decreases inputs.len(),
{
    if inputs.len() == 0 {
        Seq::empty()
    } else {
        run_effects(w, inputs.drop_last()) + effects_of(
            run(w, inputs.drop_last()),
            inputs.last(),
        )
    }
}

/// Where the handling of an event begins: no redraw is marked, and no
/// effect is asked for yet.
pub open spec fn start(w: WidgetView) -> Progress {
    Progress { state: WidgetView { needs_redraw: false, ..w }, effects: Seq::empty() }
}

/// An interruptive event has to wait.
pub open spec fn must_wait(w: WidgetView) -> bool {
    w.stream.active || w.interrupts.len() > 0
}

/// An input ends the write cycle, so that the events that wait are
/// handled.
pub open spec fn ends_cycle(w: WidgetView, input: Input) -> bool {
    match input {
        Input::Event(e) => match e.msg {
            EventMsgView::AgentMessage { message } => final_applied(w.stream, message).finished,
            EventMsgView::TaskComplete { last_agent_message } => w.stream.active && finalized(
                w.stream,
                true,
            ).finished,
            _ => false,
        },
        Input::Tick => ticked(w.stream).finished,
    }
}

/// The interruptive events that are handled at an input: the event itself
/// where it need not wait, and the events that wait where the input ends
/// the write cycle.
#[verifier::opaque]
pub open spec fn handled_at(w: WidgetView, input: Input) -> Seq<EventView> {
    match input {
        Input::Event(e) => if is_deferrable(e.msg) {
            if must_wait(w) {
                Seq::empty()
            } else {
                seq![e]
            }
        } else if ends_cycle(w, input) {
            w.interrupts
        } else {
            Seq::empty()
        },
        Input::Tick => if ends_cycle(w, input) {
            w.interrupts
        } else {
            Seq::empty()
        },
    }
}

/// The interruptive events that are handled at the inputs, in the order in
/// which they are handled.
pub open spec fn handled_in(w: WidgetView, inputs: Seq<Input>) -> Seq<EventView>
    decreases inputs.len(),
{
    if inputs.len() == 0 {
        Seq::empty()
    } else {
        handled_in(w, inputs.drop_last()) + handled_at(run(w, inputs.drop_last()), inputs.last())
    }
}

/// Every event that waits is an interruptive one.
pub open spec fn queue_holds_interruptive(w: WidgetView) -> bool {
    forall|i: int| 0 <= i < w.interrupts.len() ==> is_deferrable((#[trigger] w.interrupts[i]).msg)
}

/// The input as a sequence of interruptive events: the event itself where
/// it is one.
pub open spec fn interruptive_of(input: Input) -> Seq<EventView> {
    match input {
        Input::Event(e) => if is_deferrable(e.msg) {
            seq![e]
        } else {
            Seq::empty()
        },
        Input::Tick => Seq::empty(),
    }
}

/// The interruptive events among the inputs, in the order in which they
/// come.
pub open spec fn interruptive(inputs: Seq<Input>) -> Seq<EventView>
    decreases inputs.len(),
{
    if inputs.len() == 0 {
        Seq::empty()
    } else {
        interruptive(inputs.drop_last()) + interruptive_of(inputs.last())
    }
}

/// An interruptive event is handled at once where nothing makes it wait;
/// else it joins the queue and nothing else happens, whether or not the
/// answer still streams.
pub proof fn lemma_defer_or_handle(w: WidgetView, e: EventView)
    requires
        is_deferrable(e.msg),
    ensures
        !must_wait(w) ==> dispatched(w, e) == redraw_requested(handled_now(start(w), e)),
        must_wait(w) ==> dispatched(w, e) == (Progress {
            state: WidgetView { interrupts: w.interrupts.push(e), needs_redraw: false, ..w },
            effects: Seq::empty(),
        }),
{
}

/// Where the handling of the events that wait begins once the write
/// cycle has ended: the task that waited for the stream runs no longer, and
/// the queue is empty.
pub open spec fn released(p: Progress) -> Progress {
    Progress {
        state: if p.state.task_complete_pending {
            WidgetView {
                task_running: false,
                task_complete_pending: false,
                interrupts: Seq::empty(),
                ..p.state
            }
        } else {
            WidgetView { interrupts: Seq::empty(), ..p.state }
        },
        ..p
    }
}

/// Where an input ends the write cycle, the events that wait are handled
/// then, oldest first, behind the lines that the stream commits.
pub proof fn lemma_cycle_end_handles_queue(w: WidgetView, input: Input)
    requires
        ends_cycle(w, input),
    ensures
        match input {
            Input::Tick => tick_committed(w) == handled_all(
                released(streamed(Progress { state: w, effects: Seq::empty() }, ticked(w.stream))),
                w.interrupts,
            ),
            Input::Event(e) => match e.msg {
                EventMsgView::AgentMessage { message } => dispatched(w, e) == redraw_requested(
                    redraw_marked(
                        handled_all(
                            released(streamed(start(w), final_applied(w.stream, message))),
                            w.interrupts,
                        ),
                    ),
                ),
                _ => {
                    let ended = streamed(start(w), finalized(w.stream, true));
                    dispatched(w, e) == redraw_requested(
                        redraw_marked(
                            ({
                                let flushed = handled_all(
                                    released(
                                        Progress {
                                            state: WidgetView {
                                                task_running: false,
                                                ..ended.state
                                            },
                                            ..ended
                                        },
                                    ),
                                    w.interrupts,
                                );
                                Progress {
                                    state: WidgetView {
                                        running_commands: Map::empty(),
                                        ..flushed.state
                                    },
                                    ..flushed
                                }
                            }),
                        ),
                    )
                },
            },
        },
{
}

/// Putting commands that have ended into the history leaves the queue as
/// it is.
pub proof fn lemma_completions_keep_queue(s: Progress, pending: Seq<PendingCompletionView>)
    ensures
        completions_flushed(s, pending).state.interrupts == s.state.interrupts,
    decreases pending.len(),
{
    if pending.len() > 0 {
        lemma_completions_keep_queue(
            history_added(s, completed_cell(pending[0])),
            pending.drop_first(),
        );
    }
}

/// Handling an interruptive event leaves the queue as it is.
pub proof fn lemma_handled_now_keeps_queue(s: Progress, e: EventView)
    ensures
        handled_now(s, e).state.interrupts == s.state.interrupts,
{
    match e.msg {
        EventMsgView::ExecCommandEnd { call_id, exit_code, stdout, stderr } => {
            let running = s.state.running_commands;
            let done = ended_command(
                running,
                call_id,
                CommandOutputView { exit_code, stdout, stderr },
            );
            lemma_completions_keep_queue(
                Progress {
                    state: WidgetView {
                        running_commands: running.remove(call_id),
                        active_exec_cell: None,
                        pending_exec_completions: Seq::empty(),
                        ..s.state
                    },
                    ..s
                },
                s.state.pending_exec_completions.push(done),
            );
        },
        _ => {},
    }
}

/// Handling events one after the other leaves the queue as it is.
pub proof fn lemma_handled_all_keeps_queue(s: Progress, events: Seq<EventView>)
    ensures
        handled_all(s, events).state.interrupts == s.state.interrupts,
    decreases events.len(),
{
    if events.len() > 0 {
        lemma_handled_now_keeps_queue(s, events[0]);
        lemma_handled_all_keeps_queue(handled_now(s, events[0]), events.drop_first());
    }
}

/// Where the stream has finished the queue is empty afterwards; else it is
/// as it was.
pub proof fn lemma_stream_finished_queue(s: Progress, finished: bool)
    ensures
        stream_finished(s, finished).state.interrupts == if finished {
            Seq::<EventView>::empty()
        } else {
            s.state.interrupts
        },
{
    if finished {
        let t = Progress {
            state: if s.state.task_complete_pending {
                WidgetView { task_running: false, task_complete_pending: false, ..s.state }
            } else {
                s.state
            },
            ..s
        };
        lemma_handled_all_keeps_queue(
            Progress { state: WidgetView { interrupts: Seq::empty(), ..t.state }, ..t },
            t.state.interrupts,
        );
    }
}

/// At every input, the events that are handled and the events that wait
/// afterwards are the events that waited before and, behind them, the
/// event that came.
pub proof fn lemma_queue_step(w: WidgetView, input: Input)
    ensures
        handled_at(w, input) + after(w, input).interrupts == w.interrupts + interruptive_of(input),
{
    reveal(after);
    reveal(handled_at);
    match input {
        Input::Event(e) => {
            if is_deferrable(e.msg) {
                lemma_handled_now_keeps_queue(start(w), e);
            } else {
                match e.msg {
                    EventMsgView::AgentMessage { message } => {
                        let o = final_applied(w.stream, message);
                        lemma_stream_finished_queue(streamed(start(w), o), o.finished);
                    },
                    EventMsgView::TaskComplete { last_agent_message } => {
                        if w.stream.active {
                            let o = finalized(w.stream, true);
                            let t = streamed(start(w), o);
                            let stopped = WidgetView { task_running: false, ..t.state };
                            lemma_stream_finished_queue(Progress { state: stopped, ..t }, true);
                        }
                    },
                    _ => {},
                }
            }
        },
        Input::Tick => {
            let o = ticked(w.stream);
            lemma_stream_finished_queue(
                streamed(Progress { state: w, effects: Seq::empty() }, o),
                o.finished,
            );
        },
    }
    assert(handled_at(w, input) + after(w, input).interrupts =~= w.interrupts + interruptive_of(
        input,
    ));
}

/// Only interruptive events ever wait: an input keeps the queue free of
/// other events.
pub proof fn lemma_queue_holds_interruptive(w: WidgetView, input: Input)
    requires
        queue_holds_interruptive(w),
    ensures
        queue_holds_interruptive(after(w, input)),
{
    lemma_queue_step(w, input);
    let left = handled_at(w, input) + after(w, input).interrupts;
    let right = w.interrupts + interruptive_of(input);
    assert forall|i: int| 0 <= i < after(w, input).interrupts.len() implies is_deferrable(
        (#[trigger] after(w, input).interrupts[i]).msg,
    ) by {
        let k = handled_at(w, input).len() + i;
        assert(left.len() == right.len());
        assert(left[k] == after(w, input).interrupts[i]);
        assert(left[k] == right[k]);
        if k < w.interrupts.len() {
            assert(right[k] == w.interrupts[k]);
        } else {
            let j = k - w.interrupts.len();
            assert(0 <= j < interruptive_of(input).len());
            assert(right[k] == interruptive_of(input)[j]);
        }
    }
}

/// Interruptive events are handled in the order in which they come: after
/// any inputs, the events handled so far and, behind them, the events that
/// still wait are the events that waited at first and, behind them, the
/// interruptive events among the inputs. So the end of a command is never
/// handled before its begin that came earlier.
pub proof fn lemma_handled_in_arrival_order(w: WidgetView, inputs: Seq<Input>)
    ensures
        handled_in(w, inputs) + run(w, inputs).interrupts == w.interrupts + interruptive(inputs),
    decreases inputs.len(),
{
    if inputs.len() == 0 {
        assert(handled_in(w, inputs) + run(w, inputs).interrupts =~= w.interrupts
            + interruptive(inputs));
    } else {
        let before = inputs.drop_last();
        let mid = run(w, before);
        lemma_handled_in_arrival_order(w, before);
        lemma_queue_step(mid, inputs.last());
        let a = handled_in(w, before);
        let b = handled_at(mid, inputs.last());
        let c = run(w, inputs).interrupts;
        let d = interruptive_of(inputs.last());
        assert(b + c == mid.interrupts + d);
        assert((a + b) + c =~= a + (b + c));
        assert(a + (mid.interrupts + d) =~= (a + mid.interrupts) + d);
        assert((w.interrupts + interruptive(before)) + d =~= w.interrupts + (interruptive(before)
            + d));
    }
}

/// From a widget in which no event waits, the events handled so far are
/// the first of the interruptive events that came, in their order: none is
/// handled before one that came earlier. So the end of a command is not
/// handled before the begin of that command.
pub proof fn lemma_handled_first_come(w: WidgetView, inputs: Seq<Input>)
    requires
        w.interrupts.len() == 0,
    ensures
        handled_in(w, inputs).is_prefix_of(interruptive(inputs)),
{
    lemma_handled_in_arrival_order(w, inputs);
    let handled = handled_in(w, inputs);
    let waiting = run(w, inputs).interrupts;
    assert(w.interrupts + interruptive(inputs) =~= interruptive(inputs));
    assert((handled + waiting).subrange(0, handled.len() as int) =~= handled);
}

/// The ended commands with that of one more effect behind them: where
/// the effect puts the cell of a command that has ended into the history,
/// what the cell shows; else nothing.
pub open spec fn with_shown(records: Seq<PendingCompletionView>, e: EffectView) -> Seq<
    PendingCompletionView,
> {
    match e {
        EffectView::History(HistoryCellView::CompletedExec { command, parsed, output }) => {
            records.push(PendingCompletionView { command, parsed, output })
        },
        _ => records,
    }
}

/// The ended commands with that of one more event behind them: where the
/// event is the end of a command, what is kept of it while the commands
/// `running` run; else nothing.
pub open spec fn with_ended(
    records: Seq<PendingCompletionView>,
    running: Map<Seq<char>, RunningCommandView>,
    e: EventView,
) -> Seq<PendingCompletionView> {
    match e.msg {
        EventMsgView::ExecCommandEnd { call_id, exit_code, stdout, stderr } => records.push(
            ended_command(running, call_id, CommandOutputView { exit_code, stdout, stderr }),
        ),
        _ => records,
    }
}

/// The commands that run once an interruptive event is handled: one that
/// begins runs under its call, one that ends runs no longer.
pub open spec fn running_next(running: Map<Seq<char>, RunningCommandView>, e: EventView) -> Map<
    Seq<char>,
    RunningCommandView,
> {
    match e.msg {
        EventMsgView::ExecCommandBegin { call_id, command, parsed_cmd } => running.insert(
            call_id,
            RunningCommandView { command, parsed_cmd },
        ),
        EventMsgView::ExecCommandEnd { call_id, exit_code, stdout, stderr } => running.remove(
            call_id,
        ),
        _ => running,
    }
}

/// What the cells of ended commands show which the effects put into the
/// history, one for each such cell, in the order of the cells.
pub open spec fn completed_records(effects: Seq<EffectView>) -> Seq<PendingCompletionView>
    decreases effects.len(),
{
    if effects.len() == 0 {
        Seq::empty()
    } else {
        with_shown(completed_records(effects.drop_last()), effects.last())
    }
}

/// What is kept of the commands that end among the events, one for each
/// end and in the order of the events, where the events are handled one
/// after the other and the commands `running` run at first.
pub open spec fn ended_records(
    running: Map<Seq<char>, RunningCommandView>,
    events: Seq<EventView>,
) -> Seq<PendingCompletionView>
    decreases events.len(),
{
    if events.len() == 0 {
        Seq::empty()
    } else {
        with_ended(Seq::empty(), running, events[0]) + ended_records(
            running_next(running, events[0]),
            events.drop_first(),
        )
    }
}

/// The outputs of ended commands, in their order.
pub open spec fn outputs_of(records: Seq<PendingCompletionView>) -> Seq<CommandOutputView> {
    Seq::new(records.len(), |i: int| records[i].output)
}

/// The outputs that the cells of ended commands show which the effects
/// put into the history, one for each such cell, in the order of the
/// cells.
pub open spec fn completed_outputs(effects: Seq<EffectView>) -> Seq<CommandOutputView> {
    outputs_of(completed_records(effects))
}

/// The outputs with that of one more event behind them: where the event
/// is the end of a command, the output that it reports; else nothing.
pub open spec fn with_output(outputs: Seq<CommandOutputView>, e: EventView) -> Seq<
    CommandOutputView,
> {
    match e.msg {
        EventMsgView::ExecCommandEnd { call_id, exit_code, stdout, stderr } => outputs.push(
            CommandOutputView { exit_code, stdout, stderr },
        ),
        _ => outputs,
    }
}

/// The outputs that the ends of commands among the events report, one for
/// each end, in the order of the events.
pub open spec fn ended_outputs(events: Seq<EventView>) -> Seq<CommandOutputView>
    decreases events.len(),
{
    if events.len() == 0 {
        Seq::empty()
    } else {
        with_output(ended_outputs(events.drop_last()), events.last())
    }
}

/// The commands that have ended and are accounted for at a step: first
/// those whose cell is in the history, then those that wait for it.
pub open spec fn accounted(s: Progress) -> Seq<PendingCompletionView> {
    completed_records(s.effects) + s.state.pending_exec_completions
}

/// One more effect adds what it shows where it shows a completion.
pub proof fn lemma_completed_push(effects: Seq<EffectView>, e: EffectView)
    ensures
        completed_records(effects.push(e)) == with_shown(completed_records(effects), e),
{
    assert(effects.push(e).drop_last() =~= effects);
}

/// Lines of the answer show no completion.
pub proof fn lemma_completed_lines(effects: Seq<EffectView>, lines: Seq<Seq<char>>)
    ensures
        completed_records(effects + answer_cells(lines)) == completed_records(effects),
    decreases lines.len(),
{
    if lines.len() == 0 {
        assert(effects + answer_cells(lines) =~= effects);
    } else {
        lemma_completed_lines(effects, lines.drop_last());
        assert(effects + answer_cells(lines) =~= (effects + answer_cells(lines.drop_last())).push(
            EffectView::History(HistoryCellView::AnswerLine(lines.last())),
        ));
        lemma_completed_push(
            effects + answer_cells(lines.drop_last()),
            EffectView::History(HistoryCellView::AnswerLine(lines.last())),
        );
    }
}

/// A cell that goes into the history adds what it shows where it is the
/// cell of a command that has ended, and leaves those that wait and those
/// that run as they are.
pub proof fn lemma_accounted_history(s: Progress, cell: HistoryCellView)
    ensures
        completed_records(history_added(s, cell).effects) == with_shown(
            completed_records(s.effects),
            EffectView::History(cell),
        ),
        history_added(s, cell).state.pending_exec_completions == s.state.pending_exec_completions,
        history_added(s, cell).state.running_commands == s.state.running_commands,
{
    let flushed = active_cell_flushed(s);
    match s.state.active_exec_cell {
        Some(c) => {
            lemma_completed_push(s.effects, EffectView::History(HistoryCellView::ActiveExec(c)));
        },
        None => {},
    }
    lemma_completed_push(flushed.effects, EffectView::History(cell));
}

/// What the stream commits shows no completion.
pub proof fn lemma_accounted_streamed(s: Progress, o: Outcome)
    ensures
        accounted(streamed(s, o)) == accounted(s),
        streamed(s, o).state.pending_exec_completions == s.state.pending_exec_completions,
        streamed(s, o).state.running_commands == s.state.running_commands,
{
    lemma_completed_lines(s.effects, o.lines);
}

/// Each command that waited has its cell in the history afterwards, in
/// the order in which they waited; none waits in their place, and the
/// commands that run are as before.
pub proof fn lemma_accounted_completions(s: Progress, pending: Seq<PendingCompletionView>)
    ensures
        completed_records(completions_flushed(s, pending).effects) == completed_records(
            s.effects,
        ) + pending,
        completions_flushed(s, pending).state.pending_exec_completions
            == s.state.pending_exec_completions,
        completions_flushed(s, pending).state.running_commands == s.state.running_commands,
    decreases pending.len(),
{
    if pending.len() > 0 {
        let next = history_added(s, completed_cell(pending[0]));
        lemma_accounted_history(s, completed_cell(pending[0]));
        lemma_accounted_completions(next, pending.drop_first());
        assert(completed_records(s.effects).push(pending[0]) + pending.drop_first()
            =~= completed_records(s.effects) + pending);
    } else {
        assert(completed_records(s.effects) + pending =~= completed_records(s.effects));
    }
}

/// Handling an interruptive event accounts for one more command where the
/// event is the end of a command, and for no more else; a command that
/// begins runs from then on, and one that ends runs no longer.
pub proof fn lemma_accounted_handled_now(s: Progress, e: EventView)
    ensures
        accounted(handled_now(s, e)) == with_ended(accounted(s), s.state.running_commands, e),
        handled_now(s, e).state.running_commands == running_next(s.state.running_commands, e),
{
    match e.msg {
        EventMsgView::ExecCommandEnd { call_id, exit_code, stdout, stderr } => {
            let running = s.state.running_commands;
            let waiting = s.state.pending_exec_completions;
            let done = ended_command(
                running,
                call_id,
                CommandOutputView { exit_code, stdout, stderr },
            );
            lemma_accounted_completions(
                Progress {
                    state: WidgetView {
                        running_commands: running.remove(call_id),
                        active_exec_cell: None,
                        pending_exec_completions: Seq::empty(),
                        ..s.state
                    },
                    ..s
                },
                waiting.push(done),
            );
            assert(accounted(handled_now(s, e)) =~= accounted(s).push(done));
        },
        EventMsgView::PatchApplyEnd { success, stdout, stderr } => {
            lemma_accounted_history(
                s,
                if success {
                    HistoryCellView::PatchApplySuccess(stdout)
                } else {
                    HistoryCellView::PatchApplyFailure(stderr)
                },
            );
        },
        EventMsgView::McpToolCallBegin { invocation } => {
            lemma_accounted_streamed(s, finalized(s.state.stream, true));
            lemma_accounted_history(
                answer_flushed(s),
                HistoryCellView::ActiveMcpToolCall(invocation),
            );
        },
        EventMsgView::McpToolCallEnd { invocation, duration_ms, result } => {
            lemma_accounted_streamed(s, finalized(s.state.stream, true));
            lemma_accounted_history(
                answer_flushed(s),
                HistoryCellView::CompletedMcpToolCall {
                    invocation,
                    duration_ms,
                    success: tool_succeeded(result),
                    result,
                },
            );
        },
        EventMsgView::ExecApprovalRequest { command, reason } => {
            lemma_accounted_streamed(s, finalized(s.state.stream, true));
            lemma_completed_push(
                answer_flushed(s).effects,
                EffectView::Approval(ApprovalRequestView::Exec { id: e.id, command, reason }),
            );
        },
        EventMsgView::ApplyPatchApprovalRequest { changes, reason, grant_root } => {
            lemma_accounted_streamed(s, finalized(s.state.stream, true));
            let shown = history_added(
                answer_flushed(s),
                HistoryCellView::PatchEvent { kind: PatchEventKind::ApprovalRequest, changes },
            );
            lemma_accounted_history(
                answer_flushed(s),
                HistoryCellView::PatchEvent { kind: PatchEventKind::ApprovalRequest, changes },
            );
            lemma_completed_push(
                shown.effects,
                EffectView::Approval(
                    ApprovalRequestView::ApplyPatch { id: e.id, reason, grant_root },
                ),
            );
        },
        _ => {},
    }
}

/// Handling events one after the other accounts for one more command for
/// each end of a command among them, in their order.
pub proof fn lemma_accounted_handled_all(s: Progress, events: Seq<EventView>)
    ensures
        accounted(handled_all(s, events)) == accounted(s) + ended_records(
            s.state.running_commands,
            events,
        ),
    decreases events.len(),
{
    let running = s.state.running_commands;
    if events.len() > 0 {
        lemma_accounted_handled_now(s, events[0]);
        lemma_accounted_handled_all(handled_now(s, events[0]), events.drop_first());
        let rest = ended_records(running_next(running, events[0]), events.drop_first());
        assert(with_ended(accounted(s), running, events[0]) + rest =~= accounted(s) + (with_ended(
            Seq::empty(),
            running,
            events[0],
        ) + rest));
    } else {
        assert(accounted(s) + ended_records(running, events) =~= accounted(s));
    }
}

/// The outputs of the ends of commands among events, taken from the first
/// event on.
pub proof fn lemma_ends_first(outputs: Seq<CommandOutputView>, events: Seq<EventView>)
    requires
        events.len() > 0,
    ensures
        outputs + ended_outputs(events) == with_output(outputs, events[0]) + ended_outputs(
            events.drop_first(),
        ),
    decreases events.len(),
{
    if events.len() == 1 {
        assert(events.drop_first() =~= Seq::<EventView>::empty());
        assert(events.drop_last() =~= Seq::<EventView>::empty());
        assert(outputs + ended_outputs(events) =~= with_output(outputs, events[0])
            + ended_outputs(events.drop_first()));
    } else {
        lemma_ends_first(outputs, events.drop_last());
        assert(events.drop_last().drop_first() =~= events.drop_first().drop_last());
        assert(outputs + ended_outputs(events) =~= with_output(
            outputs + ended_outputs(events.drop_last()),
            events.last(),
        ));
        assert(with_output(outputs, events[0]) + ended_outputs(events.drop_first())
            =~= with_output(
            with_output(outputs, events[0]) + ended_outputs(events.drop_first().drop_last()),
            events.last(),
        ));
    }
}

/// What is kept of the commands that end among events shows the outputs
/// that the ends report, whatever commands run.
pub proof fn lemma_records_outputs(
    running: Map<Seq<char>, RunningCommandView>,
    events: Seq<EventView>,
)
    ensures
        outputs_of(ended_records(running, events)) == ended_outputs(events),
    decreases events.len(),
{
    let none = Seq::<CommandOutputView>::empty();
    if events.len() > 0 {
        let rest = ended_records(running_next(running, events[0]), events.drop_first());
        lemma_records_outputs(running_next(running, events[0]), events.drop_first());
        lemma_ends_first(none, events);
        assert(none + ended_outputs(events) =~= ended_outputs(events));
        assert(outputs_of(with_ended(Seq::empty(), running, events[0]) + rest) =~= with_output(
            none,
            events[0],
        ) + outputs_of(rest));
    } else {
        assert(outputs_of(ended_records(running, events)) =~= none);
    }
}

/// Where the stream has finished, the events that waited are accounted
/// for.
pub proof fn lemma_accounted_stream_finished(s: Progress, finished: bool)
    ensures
        accounted(stream_finished(s, finished)) == if finished {
            accounted(s) + ended_records(s.state.running_commands, s.state.interrupts)
        } else {
            accounted(s)
        },
{
    if finished {
        let t = Progress {
            state: if s.state.task_complete_pending {
                WidgetView { task_running: false, task_complete_pending: false, ..s.state }
            } else {
                s.state
            },
            ..s
        };
        lemma_accounted_handled_all(
            Progress { state: WidgetView { interrupts: Seq::empty(), ..t.state }, ..t },
            t.state.interrupts,
        );
    }
}

/// A user message that is submitted shows no completion.
pub proof fn lemma_accounted_user_message(s: Progress, m: UserMessageView)
    ensures
        accounted(user_message_submitted(s, m)) == accounted(s),
{
    let items = input_items(m);
    if items.len() > 0 {
        let sent = emit(s, EffectView::Submit(OpView::UserInput { items }));
        lemma_completed_push(s.effects, EffectView::Submit(OpView::UserInput { items }));
        if m.text.len() > 0 {
            lemma_completed_push(
                sent.effects,
                EffectView::Submit(OpView::AddToHistory { text: m.text }),
            );
            lemma_accounted_history(
                emit(sent, EffectView::Submit(OpView::AddToHistory { text: m.text })),
                HistoryCellView::UserPrompt(m.text),
            );
        }
    }
}

/// At every input, the commands accounted for grow by the commands whose
/// ends are handled at it: each command that ends is accounted for once,
/// in the history or among those that wait.
pub proof fn lemma_accounted_step(w: WidgetView, input: Input)
    ensures
        completed_records(effects_of(w, input)) + after(w, input).pending_exec_completions
            == w.pending_exec_completions + ended_records(
            w.running_commands,
            handled_at(w, input),
        ),
{
    reveal(after);
    reveal(effects_of);
    reveal(handled_at);
    let s = start(w);
    assert(accounted(s) =~= w.pending_exec_completions);
    assert(ended_records(w.running_commands, Seq::<EventView>::empty()) == Seq::<
        PendingCompletionView,
    >::empty());
    match input {
        Input::Event(e) => {
            let r = routed(s, e);
            assert(accounted(r) == accounted(s) + ended_records(
                w.running_commands,
                handled_at(w, input),
            )) by {
                lemma_accounted_routed(w, e);
            }
            if r.state.needs_redraw {
                lemma_completed_push(r.effects, EffectView::Redraw);
            }
        },
        Input::Tick => {
            let o = ticked(w.stream);
            let t = Progress { state: w, effects: Seq::empty() };
            lemma_accounted_streamed(t, o);
            lemma_accounted_stream_finished(streamed(t, o), o.finished);
            assert(accounted(s) + Seq::<PendingCompletionView>::empty() =~= accounted(s));
        },
    }
}

/// Handling an event accounts for the ends of commands that are handled at
/// it.
pub proof fn lemma_accounted_routed(w: WidgetView, e: EventView)
    ensures
        accounted(routed(start(w), e)) == accounted(start(w)) + ended_records(
            w.running_commands,
            handled_at(w, Input::Event(e)),
        ),
{
    reveal(handled_at);
    let s = start(w);
    let none = Seq::<PendingCompletionView>::empty();
    assert(accounted(s) + none =~= accounted(s));
    assert(ended_records(w.running_commands, Seq::<EventView>::empty()) == none);
    if is_deferrable(e.msg) {
        if !must_wait(w) {
            lemma_accounted_handled_now(s, e);
            assert(seq![e].drop_first() =~= Seq::<EventView>::empty());
            assert(ended_records(running_next(w.running_commands, e), Seq::<EventView>::empty())
                == none);
            assert(accounted(s) + ended_records(w.running_commands, seq![e]) =~= with_ended(
                accounted(s),
                w.running_commands,
                e,
            ));
        }
    } else {
        match e.msg {
            EventMsgView::SessionConfigured { session_id, history_log_id, history_entry_count } => {
                let told = emit(
                    s,
                    EffectView::HistoryMetadata {
                        log_id: history_log_id,
                        entry_count: history_entry_count,
                    },
                );
                lemma_completed_push(
                    s.effects,
                    EffectView::HistoryMetadata {
                        log_id: history_log_id,
                        entry_count: history_entry_count,
                    },
                );
                let named = Progress {
                    state: WidgetView { session_id: Some(session_id), ..told.state },
                    ..told
                };
                let cell = HistoryCellView::SessionInfo {
                    session_id,
                    history_log_id,
                    history_entry_count,
                };
                lemma_accounted_history(named, cell);
                let shown = history_added(named, cell);
                match shown.state.initial_user_message {
                    Some(m) => {
                        lemma_accounted_user_message(
                            Progress {
                                state: WidgetView { initial_user_message: None, ..shown.state },
                                ..shown
                            },
                            m,
                        );
                    },
                    None => {},
                }
            },
            EventMsgView::AgentMessage { message } => {
                let o = final_applied(s.state.stream, message);
                lemma_accounted_streamed(s, o);
                lemma_accounted_stream_finished(streamed(s, o), o.finished);
            },
            EventMsgView::AgentReasoningDelta { delta } => {
                lemma_accounted_reasoning_delta(s, delta);
            },
            EventMsgView::AgentReasoningRawContentDelta { delta } => {
                lemma_accounted_reasoning_delta(s, delta);
            },
            EventMsgView::AgentReasoning { text } => {
                lemma_accounted_history(
                    s,
                    HistoryCellView::ReasoningBlock(
                        s.state.full_reasoning_buffer + s.state.reasoning_buffer,
                    ),
                );
            },
            EventMsgView::AgentReasoningRawContent { text } => {
                lemma_accounted_history(
                    s,
                    HistoryCellView::ReasoningBlock(
                        s.state.full_reasoning_buffer + s.state.reasoning_buffer,
                    ),
                );
            },
            EventMsgView::TaskComplete { last_agent_message } => {
                if s.state.stream.active {
                    let o = finalized(s.state.stream, true);
                    let t = streamed(s, o);
                    lemma_accounted_streamed(s, o);
                    lemma_accounted_stream_finished(
                        Progress { state: WidgetView { task_running: false, ..t.state }, ..t },
                        true,
                    );
                }
            },
            EventMsgView::TokenCount(usage) => {
                lemma_completed_push(
                    s.effects,
                    EffectView::TokenUsage {
                        total: usage_sum(s.state.total_token_usage, usage),
                        last: usage,
                    },
                );
            },
            EventMsgView::Error { message } => {
                lemma_accounted_history(s, HistoryCellView::Error(message));
            },
            EventMsgView::TurnAborted { cause } => {
                lemma_accounted_history(s, HistoryCellView::Error(interrupted_text()));
            },
            EventMsgView::PlanUpdate { update } => {
                lemma_accounted_history(s, HistoryCellView::PlanUpdate(update));
            },
            EventMsgView::PatchApplyBegin { auto_approved, changes } => {
                lemma_accounted_history(
                    s,
                    HistoryCellView::PatchEvent {
                        kind: PatchEventKind::ApplyBegin { auto_approved },
                        changes,
                    },
                );
            },
            EventMsgView::GetHistoryEntryResponse { offset, log_id, entry } => {
                lemma_completed_push(
                    s.effects,
                    EffectView::HistoryEntry { log_id, offset, entry },
                );
            },
            EventMsgView::McpListToolsResponse { tools } => {
                lemma_accounted_history(s, HistoryCellView::McpTools(tools));
            },
            EventMsgView::ShutdownComplete => {
                lemma_completed_push(s.effects, EffectView::Exit);
            },
            _ => {},
        }
    }
}

/// A piece of reasoning shows no completion.
pub proof fn lemma_accounted_reasoning_delta(s: Progress, delta: Seq<char>)
    ensures
        accounted(reasoning_delta(s, delta)) == accounted(s),
{
    let buffer = s.state.reasoning_buffer + delta;
    match first_bold(buffer) {
        Some(header) => {
            lemma_completed_push(s.effects, EffectView::StatusHeader(header));
        },
        None => {},
    }
}

/// The effects of two runs of inputs, one after the other, show the
/// completions of both.
pub proof fn lemma_completed_concat(a: Seq<EffectView>, b: Seq<EffectView>)
    ensures
        completed_records(a + b) == completed_records(a) + completed_records(b),
    decreases b.len(),
{
    if b.len() == 0 {
        assert(a + b =~= a);
        assert(completed_records(a) + completed_records(b) =~= completed_records(a));
    } else {
        lemma_completed_concat(a, b.drop_last());
        assert((a + b).drop_last() =~= a + b.drop_last());
        assert((a + b).last() == b.last());
        assert(completed_records(a) + completed_records(b) =~= with_shown(
            completed_records(a) + completed_records(b.drop_last()),
            b.last(),
        ));
    }
}

/// The ends of commands among two sequences of events, one after the
/// other.
pub proof fn lemma_ends_concat(a: Seq<EventView>, b: Seq<EventView>)
    ensures
        ended_outputs(a + b) == ended_outputs(a) + ended_outputs(b),
    decreases b.len(),
{
    if b.len() == 0 {
        assert(a + b =~= a);
        assert(ended_outputs(a) + ended_outputs(b) =~= ended_outputs(a));
    } else {
        lemma_ends_concat(a, b.drop_last());
        assert((a + b).drop_last() =~= a + b.drop_last());
        assert((a + b).last() == b.last());
        assert(ended_outputs(a) + ended_outputs(b) =~= with_output(
            ended_outputs(a) + ended_outputs(b.drop_last()),
            b.last(),
        ));
    }
}

/// Each command whose end is handled is accounted for exactly once, and
/// in its turn: after any inputs, the outputs that the cells of ended
/// commands in the history show, with those of the ended commands that
/// wait for their cell behind them, are the outputs of the commands that
/// waited at first, with those of the ends that were handled behind them.
/// No cell is put into the history twice, none is lost, and none comes
/// before the cell of a command that ended earlier.
pub proof fn lemma_completions_exactly_once(w: WidgetView, inputs: Seq<Input>)
    ensures
        completed_outputs(run_effects(w, inputs)) + outputs_of(
            run(w, inputs).pending_exec_completions,
        ) == outputs_of(w.pending_exec_completions) + ended_outputs(handled_in(w, inputs)),
    decreases inputs.len(),
{
    if inputs.len() > 0 {
        let before = inputs.drop_last();
        let mid = run(w, before);
        lemma_completions_exactly_once(w, before);
        lemma_accounted_step(mid, inputs.last());
        lemma_records_outputs(mid.running_commands, handled_at(mid, inputs.last()));
        lemma_completed_concat(run_effects(w, before), effects_of(mid, inputs.last()));
        lemma_ends_concat(handled_in(w, before), handled_at(mid, inputs.last()));
        let shown = completed_records(run_effects(w, before));
        let step = completed_records(effects_of(mid, inputs.last()));
        let waiting = run(w, inputs).pending_exec_completions;
        let ended = ended_records(mid.running_commands, handled_at(mid, inputs.last()));
        assert(outputs_of(shown + step) + outputs_of(waiting) =~= outputs_of(shown) + outputs_of(
            step + waiting,
        ));
        assert(outputs_of(shown) + outputs_of(mid.pending_exec_completions + ended) =~= (
        outputs_of(shown) + outputs_of(mid.pending_exec_completions)) + outputs_of(ended));
        assert((outputs_of(w.pending_exec_completions) + ended_outputs(handled_in(w, before)))
            + outputs_of(ended) =~= outputs_of(w.pending_exec_completions) + (ended_outputs(
            handled_in(w, before),
        ) + outputs_of(ended)));
    } else {
        assert(completed_outputs(run_effects(w, inputs)) + outputs_of(
            run(w, inputs).pending_exec_completions,
        ) =~= outputs_of(w.pending_exec_completions) + ended_outputs(handled_in(w, inputs)));
    }
}

} // verus!
