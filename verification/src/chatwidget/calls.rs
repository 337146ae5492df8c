//! What holds of the commands that begin and end: once every command that
//! began has ended and no event waits, no ended command waits for its cell,
//! and the history has one cell for each end, in the order of the ends,
//! with what the end reported and the command that began under its call.

use crate::chatwidget::laws::{
    after, completed_outputs, completed_records, effects_of, ended_outputs, ended_records,
    ends_cycle, handled_at, handled_in, interruptive, lemma_accounted_completions,
    lemma_accounted_handled_now, lemma_accounted_step, lemma_completed_concat,
    lemma_completions_exactly_once, lemma_cycle_end_handles_queue,
    lemma_handled_in_arrival_order, must_wait, outputs_of, released, run, run_effects,
    running_next, start, with_ended, Input,
};
use crate::chatwidget::running::RunningCommandView;
use crate::chatwidget::{
    dispatched, ended_command, handled_all, handled_now, streamed, PendingCompletionView,
    Progress, WidgetView,
};
use crate::history_cell::CommandOutputView;
use crate::interrupts::is_deferrable;
use crate::protocol::{EventMsgView, EventView};
use crate::stream::{final_applied, finalized, ticked};
use vstd::prelude::*;

verus! {

/// The call `c` is open among the events: the last of them that begins or
/// ends a command of that call begins it.
pub open spec fn is_open(events: Seq<EventView>, c: Seq<char>) -> bool
    decreases events.len(),
{
    if events.len() == 0 {
        false
    } else {
        match events.last().msg {
            EventMsgView::ExecCommandBegin { call_id, command, parsed_cmd } => call_id == c
                || is_open(events.drop_last(), c),
            EventMsgView::ExecCommandEnd { call_id, exit_code, stdout, stderr } => call_id != c
                && is_open(events.drop_last(), c),
            _ => is_open(events.drop_last(), c),
        }
    }
}

/// Every command that began has ended: no call is open among the events.
pub open spec fn all_ended(events: Seq<EventView>) -> bool {
    forall|c: Seq<char>| !is_open(events, c)
}

/// A command began under the call `c` among the events, with this command
/// line and these parsed forms.
pub open spec fn began(
    events: Seq<EventView>,
    c: Seq<char>,
    command: Seq<Seq<char>>,
    parsed: Seq<Seq<char>>,
) -> bool {
    exists|i: int|
        0 <= i < events.len() && (#[trigger] events[i]).msg == (EventMsgView::ExecCommandBegin {
            call_id: c,
            command,
            parsed_cmd: parsed,
        })
}

/// Each command that runs began under its call among the events.
pub open spec fn begun_among(
    running: Map<Seq<char>, RunningCommandView>,
    events: Seq<EventView>,
) -> bool {
    forall|c: Seq<char>| #[trigger]
        running.contains_key(c) ==> began(events, c, running[c].command, running[c].parsed_cmd)
}

/// The widget keeps track of the calls among the events that it has
/// handled: a command runs only while its call is open, it is the command
/// that began under the call, and ended commands wait for their cells only
/// while some call is open.
pub open spec fn calls_tracked(w: WidgetView, handled: Seq<EventView>) -> bool {
    &&& forall|c: Seq<char>| w.running_commands.contains_key(c) ==> is_open(handled, c)
    &&& begun_among(w.running_commands, handled)
    &&& w.pending_exec_completions.len() > 0 ==> exists|c: Seq<char>| is_open(handled, c)
}

/// What is kept of an ended command answers the end `e` of a command that
/// comes behind the events `before`: it holds the exit code and the output
/// that the end reports, and the command line and parsed forms with which
/// a command began under the same call before; or, where it holds no such
/// command, the call's id in place of the command line.
pub open spec fn answers(r: PendingCompletionView, before: Seq<EventView>, e: EventView) -> bool {
    e.msg matches EventMsgView::ExecCommandEnd { call_id, exit_code, stdout, stderr } && r.output
        == (CommandOutputView { exit_code, stdout, stderr }) && (began(
        before,
        call_id,
        r.command,
        r.parsed,
    ) || (r.command == seq![call_id] && r.parsed == Seq::<Seq<char>>::empty()))
}

/// The ended commands answer the ends of commands among the events, one
/// for one and in their order.
pub open spec fn cells_answer(records: Seq<PendingCompletionView>, events: Seq<EventView>) -> bool
    decreases events.len(),
{
    if events.len() == 0 {
        records.len() == 0
    } else if events.last().msg is ExecCommandEnd {
        records.len() > 0 && answers(records.last(), events.drop_last(), events.last())
            && cells_answer(records.drop_last(), events.drop_last())
    } else {
        cells_answer(records, events.drop_last())
    }
}

/// A command that began among events began among them and one more.
pub proof fn lemma_began_push(
    events: Seq<EventView>,
    e: EventView,
    c: Seq<char>,
    command: Seq<Seq<char>>,
    parsed: Seq<Seq<char>>,
)
    requires
        began(events, c, command, parsed),
    ensures
        began(events.push(e), c, command, parsed),
{
    let i = choose|i: int|
        0 <= i < events.len() && (#[trigger] events[i]).msg == (EventMsgView::ExecCommandBegin {
            call_id: c,
            command,
            parsed_cmd: parsed,
        });
    assert(events.push(e)[i] == events[i]);
}

/// Handling one more interruptive event keeps to the commands that began:
/// each command that runs afterwards began among the events and that one.
pub proof fn lemma_begun_next(
    running: Map<Seq<char>, RunningCommandView>,
    events: Seq<EventView>,
    e: EventView,
)
    requires
        begun_among(running, events),
    ensures
        begun_among(running_next(running, e), events.push(e)),
{
    let next = running_next(running, e);
    let grown = events.push(e);
    assert forall|c: Seq<char>| #[trigger] next.contains_key(c) implies began(
        grown,
        c,
        next[c].command,
        next[c].parsed_cmd,
    ) by {
        if running.contains_key(c) && next[c] == running[c] {
            lemma_began_push(events, e, c, running[c].command, running[c].parsed_cmd);
        } else {
            assert(grown[events.len() as int] == e);
        }
    }
}

/// The commands that end among more events answer their ends. Where the
/// ended commands so far answer the ends among the events so far, and each
/// command that runs began among these, handling more events adds what
/// answers the ends among them.
pub proof fn lemma_records_answer(
    running: Map<Seq<char>, RunningCommandView>,
    records: Seq<PendingCompletionView>,
    handled: Seq<EventView>,
    events: Seq<EventView>,
)
    requires
        begun_among(running, handled),
        cells_answer(records, handled),
    ensures
        cells_answer(records + ended_records(running, events), handled + events),
    decreases events.len(),
{
    if events.len() == 0 {
        assert(handled + events =~= handled);
        assert(records + ended_records(running, events) =~= records);
    } else {
        let e = events[0];
        let grown = handled.push(e);
        let more = with_ended(records, running, e);
        assert(grown.drop_last() =~= handled);
        if e.msg is ExecCommandEnd {
            assert(more.drop_last() =~= records);
        }
        lemma_begun_next(running, handled, e);
        lemma_records_answer(running_next(running, e), more, grown, events.drop_first());
        assert(grown + events.drop_first() =~= handled + events);
        assert(more + ended_records(running_next(running, e), events.drop_first()) =~= records
            + ended_records(running, events));
    }
}

/// One more event opens its call where it begins a command, closes it
/// where it ends one, and leaves every other call as it is.
pub proof fn lemma_is_open_push(events: Seq<EventView>, e: EventView, c: Seq<char>)
    ensures
        is_open(events.push(e), c) == (match e.msg {
            EventMsgView::ExecCommandBegin { call_id, command, parsed_cmd } => call_id == c
                || is_open(events, c),
            EventMsgView::ExecCommandEnd { call_id, exit_code, stdout, stderr } => call_id != c
                && is_open(events, c),
            _ => is_open(events, c),
        }),
{
    assert(events.push(e).drop_last() =~= events);
}

/// Handling an interruptive event keeps track of the calls.
pub proof fn lemma_tracked_handled_now(p: Progress, e: EventView, handled: Seq<EventView>)
    requires
        calls_tracked(p.state, handled),
    ensures
        calls_tracked(handled_now(p, e).state, handled.push(e)),
{
    let after_it = handled_now(p, e).state;
    let grown = handled.push(e);
    lemma_accounted_handled_now(p, e);
    lemma_begun_next(p.state.running_commands, handled, e);
    assert forall|c: Seq<char>| is_open(grown, c) == (match e.msg {
        EventMsgView::ExecCommandBegin { call_id, command, parsed_cmd } => call_id == c || is_open(
            handled,
            c,
        ),
        EventMsgView::ExecCommandEnd { call_id, exit_code, stdout, stderr } => call_id != c
            && is_open(handled, c),
        _ => is_open(handled, c),
    }) by {
        lemma_is_open_push(handled, e, c);
    }
    match e.msg {
        EventMsgView::ExecCommandBegin { call_id, command, parsed_cmd } => {
            assert(is_open(grown, call_id));
        },
        EventMsgView::ExecCommandEnd { call_id, exit_code, stdout, stderr } => {
            let running = p.state.running_commands;
            let remaining = running.remove(call_id);
            let done = ended_command(
                running,
                call_id,
                CommandOutputView { exit_code, stdout, stderr },
            );
            let cleared = Progress {
                state: WidgetView {
                    running_commands: remaining,
                    active_exec_cell: None,
                    pending_exec_completions: Seq::empty(),
                    ..p.state
                },
                ..p
            };
            lemma_accounted_completions(cleared, p.state.pending_exec_completions.push(done));
            if remaining != Map::<Seq<char>, RunningCommandView>::empty() {
                if forall|k: Seq<char>| !remaining.contains_key(k) {
                    assert(remaining =~= Map::<Seq<char>, RunningCommandView>::empty());
                }
                let k = choose|k: Seq<char>| remaining.contains_key(k);
                assert(running.contains_key(k) && k != call_id);
                assert(is_open(grown, k));
            }
        },
        _ => {
            if p.state.pending_exec_completions.len() > 0 {
                let c = choose|c: Seq<char>| is_open(handled, c);
                assert(is_open(grown, c));
            }
        },
    }
    if let EventMsgView::ExecCommandBegin { call_id, command, parsed_cmd } = e.msg {
    } else if let EventMsgView::ExecCommandEnd { call_id, exit_code, stdout, stderr } = e.msg {
    } else {
        assert(after_it.running_commands == p.state.running_commands);
        assert(after_it.pending_exec_completions == p.state.pending_exec_completions);
    }
}

/// Handling events one after the other keeps track of the calls.
pub proof fn lemma_tracked_handled_all(p: Progress, events: Seq<EventView>, handled: Seq<EventView>)
    requires
        calls_tracked(p.state, handled),
    ensures
        calls_tracked(handled_all(p, events).state, handled + events),
    decreases events.len(),
{
    if events.len() == 0 {
        assert(handled + events =~= handled);
    } else {
        lemma_tracked_handled_now(p, events[0], handled);
        lemma_tracked_handled_all(
            handled_now(p, events[0]),
            events.drop_first(),
            handled.push(events[0]),
        );
        assert(handled.push(events[0]) + events.drop_first() =~= handled + events);
    }
}

/// An event that is not interruptive and does not end the write cycle
/// leaves the ended commands that wait as they are, and the running
/// commands too, unless it takes them all away.
pub proof fn lemma_quiet_event(w: WidgetView, e: EventView)
    requires
        !is_deferrable(e.msg),
        !ends_cycle(w, Input::Event(e)),
    ensures
        dispatched(w, e).state.pending_exec_completions == w.pending_exec_completions,
        dispatched(w, e).state.running_commands == w.running_commands || dispatched(
            w,
            e,
        ).state.running_commands == Map::<Seq<char>, RunningCommandView>::empty(),
{
}

/// Every input keeps track of the calls among the events handled so far.
pub proof fn lemma_tracked_step(w: WidgetView, input: Input, handled: Seq<EventView>)
    requires
        calls_tracked(w, handled),
    ensures
        calls_tracked(after(w, input), handled + handled_at(w, input)),
{
    reveal(after);
    reveal(handled_at);
    match input {
        Input::Tick => {
            if ends_cycle(w, input) {
                lemma_cycle_end_handles_queue(w, input);
                lemma_tracked_handled_all(
                    released(
                        streamed(Progress { state: w, effects: Seq::empty() }, ticked(w.stream)),
                    ),
                    w.interrupts,
                    handled,
                );
            } else {
                assert(handled + handled_at(w, input) =~= handled);
            }
        },
        Input::Event(e) => {
            if is_deferrable(e.msg) {
                if must_wait(w) {
                    assert(handled + handled_at(w, input) =~= handled);
                } else {
                    lemma_tracked_handled_now(start(w), e, handled);
                    assert(handled + handled_at(w, input) =~= handled.push(e));
                }
            } else if ends_cycle(w, input) {
                lemma_cycle_end_handles_queue(w, input);
                match e.msg {
                    EventMsgView::AgentMessage { message } => {
                        lemma_tracked_handled_all(
                            released(streamed(start(w), final_applied(w.stream, message))),
                            w.interrupts,
                            handled,
                        );
                    },
                    _ => {
                        let ended = streamed(start(w), finalized(w.stream, true));
                        lemma_tracked_handled_all(
                            released(
                                Progress {
                                    state: WidgetView { task_running: false, ..ended.state },
                                    ..ended
                                },
                            ),
                            w.interrupts,
                            handled,
                        );
                    },
                }
            } else {
                lemma_quiet_event(w, e);
                assert(handled + handled_at(w, input) =~= handled);
            }
        },
    }
}

/// From a widget in which no command runs and none waits for its cell, any
/// inputs keep track of the calls among the events handled, and the ended
/// commands, those with a cell in the history first and then those that
/// wait for it, answer the ends of commands that were handled.
pub proof fn lemma_tracked_run(w: WidgetView, inputs: Seq<Input>)
    requires
        w.running_commands == Map::<Seq<char>, RunningCommandView>::empty(),
        w.pending_exec_completions.len() == 0,
    ensures
        calls_tracked(run(w, inputs), handled_in(w, inputs)),
        cells_answer(
            completed_records(run_effects(w, inputs)) + run(w, inputs).pending_exec_completions,
            handled_in(w, inputs),
        ),
    decreases inputs.len(),
{
    if inputs.len() > 0 {
        let before = inputs.drop_last();
        let mid = run(w, before);
        let shown = completed_records(run_effects(w, before));
        lemma_tracked_run(w, before);
        lemma_tracked_step(mid, inputs.last(), handled_in(w, before));
        lemma_accounted_step(mid, inputs.last());
        lemma_completed_concat(run_effects(w, before), effects_of(mid, inputs.last()));
        lemma_records_answer(
            mid.running_commands,
            shown + mid.pending_exec_completions,
            handled_in(w, before),
            handled_at(mid, inputs.last()),
        );
        assert((shown + completed_records(effects_of(mid, inputs.last()))) + run(
            w,
            inputs,
        ).pending_exec_completions =~= (shown + mid.pending_exec_completions) + ended_records(
            mid.running_commands,
            handled_at(mid, inputs.last()),
        )) by {
            assert((shown + completed_records(effects_of(mid, inputs.last()))) + run(
                w,
                inputs,
            ).pending_exec_completions =~= shown + (completed_records(
                effects_of(mid, inputs.last()),
            ) + run(w, inputs).pending_exec_completions));
        }
    } else {
        assert(completed_records(run_effects(w, inputs)) + run(w, inputs).pending_exec_completions
            =~= Seq::<PendingCompletionView>::empty());
    }
}

/// Each command that ends has exactly one cell in the history once all is
/// handled. Take a widget in which no command runs, none waits for its cell
/// and no event waits, and give it any events and ticks. Where every command
/// that began has ended and no event waits at the end, no ended command
/// waits for its cell, no command runs, and the cells of ended commands
/// that the history has received answer the ends of commands that came,
/// one for one and in their order: the cell at each place shows the exit
/// code and the output that the end at that place reported, and the
/// command with which a command began under the same call before that
/// end, or else the call's id. None is missing, and none is there twice.
pub proof fn lemma_each_end_has_one_cell(w: WidgetView, inputs: Seq<Input>)
    requires
        w.running_commands == Map::<Seq<char>, RunningCommandView>::empty(),
        w.pending_exec_completions.len() == 0,
        w.interrupts.len() == 0,
        run(w, inputs).interrupts.len() == 0,
        all_ended(interruptive(inputs)),
    ensures
        run(w, inputs).pending_exec_completions.len() == 0,
        run(w, inputs).running_commands == Map::<Seq<char>, RunningCommandView>::empty(),
        completed_outputs(run_effects(w, inputs)) == ended_outputs(interruptive(inputs)),
        cells_answer(completed_records(run_effects(w, inputs)), interruptive(inputs)),
{
    lemma_handled_in_arrival_order(w, inputs);
    assert(handled_in(w, inputs) + run(w, inputs).interrupts =~= handled_in(w, inputs));
    assert(w.interrupts + interruptive(inputs) =~= interruptive(inputs));
    lemma_tracked_run(w, inputs);
    lemma_completions_exactly_once(w, inputs);
    let last = run(w, inputs);
    if last.pending_exec_completions.len() > 0 {
        let c = choose|c: Seq<char>| is_open(handled_in(w, inputs), c);
        assert(is_open(interruptive(inputs), c));
    }
    assert forall|c: Seq<char>| !last.running_commands.contains_key(c) by {
        if last.running_commands.contains_key(c) {
            assert(is_open(handled_in(w, inputs), c));
            assert(is_open(interruptive(inputs), c));
        }
    }
    assert(last.running_commands =~= Map::<Seq<char>, RunningCommandView>::empty());
    assert(completed_outputs(run_effects(w, inputs)) + outputs_of(
        last.pending_exec_completions,
    ) =~= completed_outputs(run_effects(w, inputs)));
    assert(outputs_of(w.pending_exec_completions) + ended_outputs(handled_in(w, inputs))
        =~= ended_outputs(handled_in(w, inputs)));
    assert(completed_records(run_effects(w, inputs)) + last.pending_exec_completions
        =~= completed_records(run_effects(w, inputs)));
}

} // verus!
