use conversation_core::chatwidget::running::{RunningCommand, RunningCommands};
use conversation_core::chatwidget::slash::{
    parse_resume_command, parse_usize, try_handle_slash_command,
};
use conversation_core::chatwidget::{
    add_token_usage, create_initial_user_message, example_prompt, extract_first_bold,
    random_example_prompt, ChatWidget, UserMessage,
};
use conversation_core::history_cell::{
    ApprovalRequest, CommandOutput, Effect, ExecCell, HistoryCell, PatchEventKind, ResumeRequest,
};
use conversation_core::protocol::{Event, EventMsg, InputItem, Op, TokenUsage, ToolOutcome};

fn s(text: &str) -> String {
    text.to_string()
}

fn words(items: &[&str]) -> Vec<String> {
    items.iter().map(|w| w.to_string()).collect()
}

fn event(msg: EventMsg) -> Event {
    Event { id: s("ev"), msg }
}

fn delta(text: &str) -> Event {
    event(EventMsg::AgentMessageDelta { delta: s(text) })
}

fn begin(call_id: &str, command: &[&str]) -> Event {
    event(EventMsg::ExecCommandBegin {
        call_id: s(call_id),
        command: words(command),
        parsed_cmd: vec![format!("parsed {call_id}")],
    })
}

fn end(call_id: &str, exit_code: i32) -> Event {
    event(EventMsg::ExecCommandEnd {
        call_id: s(call_id),
        exit_code,
        stdout: format!("out {call_id}"),
        stderr: String::new(),
    })
}

fn completed(command: &[&str], parsed: &[&str], exit_code: i32, stdout: &str) -> Effect {
    Effect::History(HistoryCell::CompletedExec {
        command: words(command),
        parsed: words(parsed),
        output: CommandOutput { exit_code, stdout: s(stdout), stderr: String::new() },
    })
}

fn answer(line: &str) -> Effect {
    Effect::History(HistoryCell::AnswerLine(s(line)))
}

fn widget() -> ChatWidget {
    ChatWidget::new(None, Vec::new())
}

fn redraws(effects: &[Effect]) -> usize {
    effects.iter().filter(|e| matches!(e, Effect::Redraw)).count()
}

#[test]
fn the_first_bold_span_is_the_header() {
    assert_eq!(
        extract_first_bold("some **Planning next step** and more"),
        Some(s("Planning next step"))
    );
    assert_eq!(extract_first_bold("no closing **yet"), None);
    assert_eq!(extract_first_bold("**  spaced out \t** rest **second**"), Some(s("spaced out")));
    assert_eq!(extract_first_bold("**a*b**"), Some(s("a*b")));
    assert_eq!(extract_first_bold("\u{e9}**\u{2026}x**"), Some(s("\u{2026}x")));
}

#[test]
fn a_blank_span_is_passed_over() {
    assert_eq!(extract_first_bold("** ** x **real**"), Some(s("real")));
    assert_eq!(extract_first_bold("**   ** **later**"), Some(s("later")));
    assert_eq!(extract_first_bold("**** **a** **b**"), Some(s("a")));
    assert_eq!(extract_first_bold("**\n** ** \u{a0}** **text** tail"), Some(s("text")));
    assert_eq!(extract_first_bold("****x**y**"), Some(s("y")));
}

#[test]
fn a_blank_or_open_span_gives_no_header() {
    assert_eq!(extract_first_bold(""), None);
    assert_eq!(extract_first_bold("*"), None);
    assert_eq!(extract_first_bold("**"), None);
    assert_eq!(extract_first_bold("***"), None);
    assert_eq!(extract_first_bold("****"), None);
    assert_eq!(extract_first_bold("**   ** later"), None);
    assert_eq!(extract_first_bold("** ** x **open"), None);
    assert_eq!(extract_first_bold("**\t** ** ** ****"), None);
    assert_eq!(extract_first_bold("plain text"), None);
    assert_eq!(extract_first_bold("*a* *b*"), None);
}

#[test]
fn token_usage_adds_count_by_count() {
    let a = TokenUsage {
        input_tokens: 10,
        cached_input_tokens: Some(3),
        output_tokens: 20,
        reasoning_output_tokens: None,
        total_tokens: 30,
    };
    let b = TokenUsage {
        input_tokens: 1,
        cached_input_tokens: Some(4),
        output_tokens: 2,
        reasoning_output_tokens: Some(7),
        total_tokens: 3,
    };
    assert_eq!(
        add_token_usage(&a, &b),
        TokenUsage {
            input_tokens: 11,
            cached_input_tokens: Some(7),
            output_tokens: 22,
            reasoning_output_tokens: Some(7),
            total_tokens: 33,
        }
    );
    let none = TokenUsage {
        input_tokens: 0,
        cached_input_tokens: None,
        output_tokens: 0,
        reasoning_output_tokens: None,
        total_tokens: 0,
    };
    assert_eq!(add_token_usage(&none, &none), none);
    assert_eq!(add_token_usage(&a, &none), a);
    assert_eq!(add_token_usage(&none, &b), b);
}

#[test]
fn token_usage_stops_at_the_largest_count() {
    let big = TokenUsage {
        input_tokens: u64::MAX - 1,
        cached_input_tokens: Some(u64::MAX),
        output_tokens: 5,
        reasoning_output_tokens: None,
        total_tokens: u64::MAX,
    };
    let two = TokenUsage {
        input_tokens: 2,
        cached_input_tokens: Some(1),
        output_tokens: 5,
        reasoning_output_tokens: None,
        total_tokens: 0,
    };
    let sum = add_token_usage(&big, &two);
    assert_eq!(sum.input_tokens, u64::MAX);
    assert_eq!(sum.cached_input_tokens, Some(u64::MAX));
    assert_eq!(sum.output_tokens, 10);
    assert_eq!(sum.total_tokens, u64::MAX);
}

#[test]
fn an_initial_message_needs_a_text_or_an_image() {
    assert_eq!(create_initial_user_message(String::new(), Vec::new()), None);
    assert_eq!(
        create_initial_user_message(s("hi"), Vec::new()),
        Some(UserMessage { text: s("hi"), image_paths: Vec::new() })
    );
    assert_eq!(
        create_initial_user_message(String::new(), words(&["a.png"])),
        Some(UserMessage { text: String::new(), image_paths: words(&["a.png"]) })
    );
    assert_eq!(UserMessage::from_text(s("x")), UserMessage { text: s("x"), image_paths: Vec::new() });
}

#[test]
fn numbers_are_read_as_the_standard_library_reads_them() {
    for text in [
        "0", "7", "+7", "007", "12345", "", "+", "-1", " 1", "1 ", "1a", "++1", "1_000",
        "18446744073709551615", "18446744073709551616", "99999999999999999999999", "+0",
        "\u{664}", "1.0",
    ] {
        assert_eq!(parse_usize(text), text.parse::<usize>().ok(), "for {text:?}");
    }
}

#[test]
fn resume_command_takes_target_options_and_prompt() {
    assert_eq!(
        try_handle_slash_command("/resume abc123 --step 2 fix the  bug"),
        Some(ResumeRequest { target: s("abc123"), at: None, step: Some(2), prompt: s("fix the bug") })
    );
    assert_eq!(
        try_handle_slash_command("  /resume 'my session' --at r9 --step x --at r10 \"go on\" --step 3 \n"),
        Some(ResumeRequest {
            target: s("my session"),
            at: Some(s("r10")),
            step: None,
            prompt: s("go on --step 3"),
        })
    );
    assert_eq!(
        try_handle_slash_command("/resume t p"),
        Some(ResumeRequest { target: s("t"), at: None, step: None, prompt: s("p") })
    );
}

#[test]
fn a_text_that_is_no_resume_command_gives_no_request() {
    for text in [
        "", "hello", "resume abc go", "/other abc go", "/resume", "/resume abc", "/resume abc --at",
        "/resume abc --at r1", "/resume abc --step 1", "/resume abc ''", "/resume abc --step",
        "/resume abc 'unclosed", "x /resume abc go",
    ] {
        assert_eq!(try_handle_slash_command(text), None, "for {text:?}");
    }
}

#[test]
fn words_are_split_as_a_shell_splits_them() {
    let request = try_handle_slash_command("/resume a\\ b one\\\ntwo 'x y'z # not a comment").unwrap();
    assert_eq!(request.target, "a b");
    assert_eq!(request.prompt, "onetwo x yz");
    let expected: Vec<String> = shlex::Shlex::new("/resume t \"a  b\" c").collect();
    assert_eq!(
        parse_resume_command(&expected),
        Some(ResumeRequest { target: s("t"), at: None, step: None, prompt: s("a  b c") })
    );
}

#[test]
fn the_words_of_a_command_make_the_request() {
    assert_eq!(
        parse_resume_command(&words(&["/resume", "t", "--step", "4", "--at", "r", "do", "it"])),
        Some(ResumeRequest { target: s("t"), at: Some(s("r")), step: Some(4), prompt: s("do it") })
    );
    assert_eq!(parse_resume_command(&words(&["/resume", "t", "", ""])), Some(ResumeRequest {
        target: s("t"),
        at: None,
        step: None,
        prompt: s(" "),
    }));
    assert_eq!(parse_resume_command(&words(&["/resume", "t", ""])), None);
    assert_eq!(parse_resume_command(&words(&["/resume"])), None);
    assert_eq!(parse_resume_command(&Vec::new()), None);
}

#[test]
fn example_prompts_go_round() {
    assert_eq!(example_prompt(0), "Explain this codebase");
    assert_eq!(example_prompt(5), "Improve documentation in @filename");
    assert_eq!(example_prompt(6), "Explain this codebase");
    assert_eq!(example_prompt(usize::MAX), example_prompt(usize::MAX % 6));
}

#[test]
fn a_random_example_prompt_is_one_of_the_examples() {
    let all: Vec<&str> = (0..6).map(example_prompt).collect();
    let mut seen = std::collections::HashSet::new();
    for _ in 0..400 {
        let p = random_example_prompt();
        assert!(all.contains(&p));
        seen.insert(p);
    }
    assert!(seen.len() > 1);
}

#[test]
fn interruptive_events_wait_for_the_answer_to_finish() {
    let mut w = widget();
    let mut history: Vec<Effect> = Vec::new();
    let e1 = w.handle_codex_event(delta("par"));
    assert_eq!(e1, vec![Effect::Redraw]);
    let e2 = w.handle_codex_event(begin("c1", &["ls"]));
    assert!(e2.is_empty());
    let e3 = w.handle_codex_event(delta("t\n"));
    assert_eq!(e3, vec![Effect::Redraw]);
    let e4 = w.handle_codex_event(end("c1", 0));
    assert!(e4.is_empty());
    assert_eq!(w.interrupts.queue.len(), 2);
    assert!(w.running_commands.is_empty());
    let e5 = w.handle_codex_event(event(EventMsg::AgentMessage { message: s("part\n") }));
    assert_eq!(e5, vec![Effect::Redraw]);
    history.extend(e5);
    let mut ticks = 0;
    while w.stream.is_write_cycle_active() {
        history.extend(w.on_commit_tick());
        ticks += 1;
        assert!(ticks < 10);
    }
    assert_eq!(
        history,
        vec![
            Effect::Redraw,
            answer("part"),
            completed(&["ls"], &["parsed c1"], 0, "out c1"),
        ]
    );
    assert!(w.interrupts.queue.is_empty());
    assert_eq!(w.active_exec_cell, None);
    assert!(w.pending_exec_completions.is_empty());
}

#[test]
fn an_event_is_handled_at_once_while_nothing_streams() {
    let mut w = widget();
    let e1 = w.handle_codex_event(begin("c1", &["ls", "-l"]));
    assert_eq!(e1, vec![Effect::Redraw]);
    assert_eq!(
        w.active_exec_cell,
        Some(ExecCell { command: words(&["ls", "-l"]), parsed: words(&["parsed c1"]) })
    );
    let e2 = w.handle_codex_event(end("c1", 3));
    assert_eq!(e2, vec![completed(&["ls", "-l"], &["parsed c1"], 3, "out c1")]);
    assert_eq!(w.active_exec_cell, None);
}

#[test]
fn completions_wait_until_no_command_runs() {
    let mut w = widget();
    w.handle_codex_event(begin("a", &["one"]));
    w.handle_codex_event(begin("b", &["two"]));
    assert_eq!(
        w.active_exec_cell,
        Some(ExecCell { command: words(&["one"]), parsed: words(&["parsed a", "parsed b"]) })
    );
    assert!(w.handle_codex_event(end("b", 0)).is_empty());
    assert_eq!(w.pending_exec_completions.len(), 1);
    let effects = w.handle_codex_event(end("a", 1));
    assert_eq!(
        effects,
        vec![
            completed(&["two"], &["parsed b"], 0, "out b"),
            completed(&["one"], &["parsed a"], 1, "out a"),
        ]
    );
    assert!(w.pending_exec_completions.is_empty());
}

#[test]
fn an_end_without_a_begin_shows_the_call_id() {
    let mut w = widget();
    let effects = w.handle_codex_event(end("lonely", 9));
    assert_eq!(effects, vec![completed(&["lonely"], &[], 9, "out lonely")]);
}

#[test]
fn once_an_event_waits_later_ones_wait_behind_it() {
    let mut w = widget();
    w.handle_codex_event(delta("streaming"));
    w.handle_codex_event(begin("c1", &["ls"]));
    w.handle_codex_event(event(EventMsg::Error { message: s("boom") }));
    assert!(!w.stream.is_write_cycle_active());
    let effects = w.handle_codex_event(end("c1", 0));
    assert!(effects.is_empty());
    assert_eq!(w.interrupts.queue.len(), 2);
    w.handle_codex_event(delta("again\n"));
    let mut all = w.handle_codex_event(event(EventMsg::AgentMessage { message: s("again\n") }));
    all.extend(w.on_commit_tick());
    assert_eq!(
        all,
        vec![Effect::Redraw, answer("again"), completed(&["ls"], &["parsed c1"], 0, "out c1")]
    );
}

#[test]
fn at_most_one_redraw_is_asked_for_per_event() {
    let mut w = ChatWidget::new(Some(s("hello")), words(&["img.png"]));
    let mut events = vec![
        event(EventMsg::SessionConfigured { session_id: s("sid"), history_log_id: 4, history_entry_count: 2 }),
        event(EventMsg::TaskStarted),
        event(EventMsg::AgentReasoningDelta { delta: s("**Plan") }),
        event(EventMsg::AgentReasoningDelta { delta: s("ning** more") }),
        event(EventMsg::AgentReasoning { text: s("ignored") }),
        delta("a\nb"),
        begin("c1", &["ls"]),
        event(EventMsg::ExecApprovalRequest { command: words(&["rm"]), reason: None }),
        end("c1", 0),
        event(EventMsg::PatchApplyEnd { success: true, stdout: s("ok"), stderr: String::new() }),
        event(EventMsg::AgentMessage { message: s("a\nb\n") }),
        event(EventMsg::TaskComplete { last_agent_message: None }),
    ];
    let mut last_was_redraw = 0;
    for e in events.drain(..) {
        let effects = w.handle_codex_event(e);
        assert!(redraws(&effects) <= 1);
        if redraws(&effects) == 1 {
            assert_eq!(effects.last(), Some(&Effect::Redraw));
            last_was_redraw += 1;
        }
        assert!(!w.needs_redraw);
    }
    assert!(last_was_redraw > 5);
}

#[test]
fn the_session_is_set_up_and_the_initial_message_is_submitted() {
    let mut w = ChatWidget::new(Some(s("hello")), words(&["img.png"]));
    let effects = w.handle_codex_event(event(EventMsg::SessionConfigured {
        session_id: s("sid"),
        history_log_id: 4,
        history_entry_count: 2,
    }));
    assert_eq!(
        effects,
        vec![
            Effect::HistoryMetadata { log_id: 4, entry_count: 2 },
            Effect::History(HistoryCell::SessionInfo {
                session_id: s("sid"),
                history_log_id: 4,
                history_entry_count: 2,
            }),
            Effect::Submit(Op::UserInput {
                items: vec![
                    InputItem::Text { text: s("hello") },
                    InputItem::LocalImage { path: s("img.png") },
                ],
            }),
            Effect::Submit(Op::AddToHistory { text: s("hello") }),
            Effect::History(HistoryCell::UserPrompt(s("hello"))),
            Effect::Redraw,
        ]
    );
    assert_eq!(w.session_id, Some(s("sid")));
    assert_eq!(w.initial_user_message, None);
    let again = w.handle_codex_event(event(EventMsg::SessionConfigured {
        session_id: s("sid2"),
        history_log_id: 0,
        history_entry_count: 0,
    }));
    assert_eq!(again.len(), 3);
}

#[test]
fn a_message_of_images_only_is_not_put_into_the_history() {
    let mut w = widget();
    let mut effects = Vec::new();
    w.submit_user_message(&mut effects, UserMessage { text: String::new(), image_paths: words(&["a.png"]) });
    assert_eq!(
        effects,
        vec![Effect::Submit(Op::UserInput { items: vec![InputItem::LocalImage { path: s("a.png") }] })]
    );
    let mut none = Vec::new();
    w.submit_text_message(&mut none, String::new());
    assert!(none.is_empty());
}

#[test]
fn reasoning_shows_its_first_bold_span_once() {
    let mut w = widget();
    let e1 = w.handle_codex_event(event(EventMsg::AgentReasoningDelta { delta: s("I am **Plan") }));
    assert_eq!(e1, vec![Effect::Redraw]);
    let e2 = w.handle_codex_event(event(EventMsg::AgentReasoningRawContentDelta { delta: s("ning** the") }));
    assert_eq!(e2, vec![Effect::StatusHeader(s("Planning")), Effect::Redraw]);
    let e3 = w.handle_codex_event(event(EventMsg::AgentReasoningDelta { delta: s(" work **Other**") }));
    assert_eq!(e3, vec![Effect::Redraw]);
    w.handle_codex_event(event(EventMsg::AgentReasoningSectionBreak));
    let e4 = w.handle_codex_event(event(EventMsg::AgentReasoningDelta { delta: s("**Planning** again") }));
    assert_eq!(e4, vec![Effect::Redraw]);
    let e5 = w.handle_codex_event(event(EventMsg::AgentReasoning { text: String::new() }));
    assert_eq!(
        e5,
        vec![
            Effect::History(HistoryCell::ReasoningBlock(s(
                "I am **Planning** the work **Other**\n\n**Planning** again"
            ))),
            Effect::Redraw,
        ]
    );
    assert_eq!(w.reasoning_buffer, "");
    assert_eq!(w.full_reasoning_buffer, "");
    w.handle_codex_event(event(EventMsg::TaskStarted));
    let e6 = w.handle_codex_event(event(EventMsg::AgentReasoningDelta { delta: s("**Planning**") }));
    assert_eq!(e6, vec![Effect::StatusHeader(s("Planning")), Effect::Redraw]);
    let e7 = w.handle_codex_event(event(EventMsg::AgentReasoningRawContent { text: String::new() }));
    assert_eq!(e7.len(), 2);
    let e8 = w.handle_codex_event(event(EventMsg::AgentReasoning { text: String::new() }));
    assert_eq!(e8, vec![Effect::Redraw]);
}

#[test]
fn a_task_that_completes_while_the_answer_streams_runs_until_the_stream_ends() {
    let mut w = widget();
    w.handle_codex_event(event(EventMsg::TaskStarted));
    assert!(w.task_running);
    w.handle_codex_event(delta("line\n"));
    w.handle_codex_event(begin("c1", &["ls"]));
    let effects = w.handle_codex_event(event(EventMsg::TaskComplete { last_agent_message: None }));
    assert_eq!(effects, vec![Effect::Redraw]);
    assert!(w.task_running);
    assert!(w.task_complete_pending);
    let tick = w.on_commit_tick();
    assert_eq!(tick, vec![answer("line"), answer("")]);
    assert!(!w.task_running);
    assert!(!w.task_complete_pending);
    assert!(w.interrupts.queue.is_empty());
    assert!(w.active_exec_cell.is_some());
}

#[test]
fn a_task_that_completes_while_nothing_streams_ends_at_once() {
    let mut w = widget();
    w.handle_codex_event(event(EventMsg::TaskStarted));
    w.handle_codex_event(begin("c1", &["ls"]));
    let effects = w.handle_codex_event(event(EventMsg::TaskComplete { last_agent_message: Some(s("bye")) }));
    assert_eq!(effects, vec![Effect::Redraw]);
    assert!(!w.task_running);
    assert!(w.running_commands.is_empty());
}

#[test]
fn an_error_clears_the_turn() {
    let mut w = widget();
    w.handle_codex_event(event(EventMsg::TaskStarted));
    w.handle_codex_event(begin("c1", &["ls"]));
    w.handle_codex_event(delta("half a li"));
    let effects = w.handle_codex_event(event(EventMsg::Error { message: s("boom") }));
    assert_eq!(
        effects,
        vec![
            Effect::History(HistoryCell::ActiveExec(ExecCell {
                command: words(&["ls"]),
                parsed: words(&["parsed c1"]),
            })),
            Effect::History(HistoryCell::Error(s("boom"))),
            Effect::Redraw,
        ]
    );
    assert!(!w.task_running);
    assert!(!w.stream.is_write_cycle_active());
    assert!(w.running_commands.is_empty());
    assert!(w.on_commit_tick().is_empty());
    let aborted = w.handle_codex_event(event(EventMsg::TurnAborted { cause: s("user") }));
    assert_eq!(aborted, vec![Effect::History(HistoryCell::Error(s("Turn interrupted"))), Effect::Redraw]);
}

#[test]
fn tokens_are_added_up() {
    let mut w = widget();
    let usage = TokenUsage {
        input_tokens: 5,
        cached_input_tokens: None,
        output_tokens: 6,
        reasoning_output_tokens: Some(1),
        total_tokens: 11,
    };
    let first = w.handle_codex_event(event(EventMsg::TokenCount(usage)));
    assert_eq!(first, vec![Effect::TokenUsage { total: usage, last: usage }]);
    let second = w.handle_codex_event(event(EventMsg::TokenCount(usage)));
    assert_eq!(second, vec![Effect::TokenUsage { total: add_token_usage(&usage, &usage), last: usage }]);
    assert_eq!(w.total_token_usage.total_tokens, 22);
    assert_eq!(w.last_token_usage, usage);
}

#[test]
fn approvals_patches_and_tools_become_cells() {
    let mut w = widget();
    let exec = w.handle_codex_event(Event {
        id: s("e7"),
        msg: EventMsg::ExecApprovalRequest { command: words(&["rm", "-rf"]), reason: Some(s("why")) },
    });
    assert_eq!(
        exec,
        vec![
            Effect::Approval(ApprovalRequest::Exec { id: s("e7"), command: words(&["rm", "-rf"]), reason: Some(s("why")) }),
            Effect::Redraw,
        ]
    );
    let patch = w.handle_codex_event(Event {
        id: s("e8"),
        msg: EventMsg::ApplyPatchApprovalRequest { changes: s("diff"), reason: None, grant_root: Some(s("/r")) },
    });
    assert_eq!(
        patch,
        vec![
            Effect::History(HistoryCell::PatchEvent { kind: PatchEventKind::ApprovalRequest, changes: s("diff") }),
            Effect::Approval(ApprovalRequest::ApplyPatch { id: s("e8"), reason: None, grant_root: Some(s("/r")) }),
            Effect::Redraw,
        ]
    );
    let begun = w.handle_codex_event(event(EventMsg::PatchApplyBegin { auto_approved: true, changes: s("diff") }));
    assert_eq!(
        begun,
        vec![Effect::History(HistoryCell::PatchEvent {
            kind: PatchEventKind::ApplyBegin { auto_approved: true },
            changes: s("diff"),
        })]
    );
    let ok = w.handle_codex_event(event(EventMsg::PatchApplyEnd { success: true, stdout: s("out"), stderr: s("err") }));
    assert_eq!(ok, vec![Effect::History(HistoryCell::PatchApplySuccess(s("out")))]);
    let failed = w.handle_codex_event(event(EventMsg::PatchApplyEnd { success: false, stdout: s("out"), stderr: s("err") }));
    assert_eq!(failed, vec![Effect::History(HistoryCell::PatchApplyFailure(s("err")))]);
    let tool = w.handle_codex_event(event(EventMsg::McpToolCallBegin { invocation: s("srv.tool") }));
    assert_eq!(tool, vec![Effect::History(HistoryCell::ActiveMcpToolCall(s("srv.tool")))]);
    let outcomes: [(fn() -> Result<ToolOutcome, String>, bool); 4] = [
        (|| Ok(ToolOutcome { is_error: None, content: s("c") }), true),
        (|| Ok(ToolOutcome { is_error: Some(false), content: s("c") }), true),
        (|| Ok(ToolOutcome { is_error: Some(true), content: s("c") }), false),
        (|| Err(s("failed")), false),
    ];
    for (result, success) in outcomes {
        let done = w.handle_codex_event(event(EventMsg::McpToolCallEnd {
            invocation: s("srv.tool"),
            duration_ms: 12,
            result: result(),
        }));
        assert_eq!(
            done,
            vec![Effect::History(HistoryCell::CompletedMcpToolCall {
                invocation: s("srv.tool"),
                duration_ms: 12,
                success,
                result: result(),
            })]
        );
    }
}

#[test]
fn other_events_are_passed_on_or_passed_over() {
    let mut w = widget();
    assert_eq!(
        w.handle_codex_event(event(EventMsg::PlanUpdate { update: s("plan") })),
        vec![Effect::History(HistoryCell::PlanUpdate(s("plan")))]
    );
    assert_eq!(
        w.handle_codex_event(event(EventMsg::GetHistoryEntryResponse { offset: 3, log_id: 9, entry: Some(s("old")) })),
        vec![Effect::HistoryEntry { log_id: 9, offset: 3, entry: Some(s("old")) }]
    );
    assert_eq!(
        w.handle_codex_event(event(EventMsg::McpListToolsResponse { tools: s("tools") })),
        vec![Effect::History(HistoryCell::McpTools(s("tools")))]
    );
    assert_eq!(w.handle_codex_event(event(EventMsg::ShutdownComplete)), vec![Effect::Exit]);
    assert!(w.handle_codex_event(event(EventMsg::TurnDiff { unified_diff: s("d") })).is_empty());
    assert!(w.handle_codex_event(event(EventMsg::BackgroundEvent { message: s("m") })).is_empty());
    assert!(w
        .handle_codex_event(event(EventMsg::ExecCommandOutputDelta { call_id: s("c"), chunk: s("x") }))
        .is_empty());
}

#[test]
fn ctrl_c_interrupts_then_hints_then_quits() {
    let mut w = widget();
    w.handle_codex_event(event(EventMsg::TaskStarted));
    w.handle_codex_event(begin("c1", &["ls"]));
    w.handle_codex_event(delta("text"));
    assert_eq!(w.on_ctrl_c(true), (Vec::new(), true));
    assert!(w.task_running);
    let (effects, used) = w.on_ctrl_c(false);
    assert_eq!(effects, vec![Effect::Submit(Op::Interrupt), Effect::Redraw]);
    assert!(!used);
    assert!(!w.task_running);
    assert!(!w.stream.is_write_cycle_active());
    assert_eq!(w.active_exec_cell, None);
    assert!(w.running_commands.is_empty());
    let (effects, used) = w.on_ctrl_c(false);
    assert!(effects.is_empty());
    assert!(!used);
    assert!(w.ctrl_c_quit_hint);
    let (effects, used) = w.on_ctrl_c(false);
    assert_eq!(effects, vec![Effect::Submit(Op::Shutdown)]);
    assert!(used);
}

#[test]
fn a_key_hides_the_hint_and_a_submitted_text_is_a_command_or_a_message() {
    let mut w = widget();
    w.on_ctrl_c(false);
    assert!(w.ctrl_c_quit_hint);
    assert!(w.handle_key_event(false, None).is_empty());
    assert!(w.ctrl_c_quit_hint);
    assert!(w.handle_key_event(true, None).is_empty());
    assert!(!w.ctrl_c_quit_hint);
    assert_eq!(
        w.handle_key_event(true, Some(s("/resume abc --step 1 carry on"))),
        vec![Effect::Resume(ResumeRequest {
            target: s("abc"),
            at: None,
            step: Some(1),
            prompt: s("carry on"),
        })]
    );
    assert_eq!(
        w.handle_key_event(true, Some(s("/resume abc"))),
        vec![
            Effect::Submit(Op::UserInput { items: vec![InputItem::Text { text: s("/resume abc") }] }),
            Effect::Submit(Op::AddToHistory { text: s("/resume abc") }),
            Effect::History(HistoryCell::UserPrompt(s("/resume abc"))),
        ]
    );
}

#[test]
fn a_command_that_begins_twice_is_kept_once() {
    let mut w = widget();
    w.handle_codex_event(begin("c1", &["first"]));
    w.handle_codex_event(begin("c1", &["second"]));
    let effects = w.handle_codex_event(end("c1", 0));
    assert_eq!(effects, vec![completed(&["second"], &["parsed c1"], 0, "out c1")]);
    assert!(w.running_commands.is_empty());
}

fn completed_cells(effects: Vec<Effect>) -> Vec<Effect> {
    effects
        .into_iter()
        .filter(|e| matches!(e, Effect::History(HistoryCell::CompletedExec { .. })))
        .collect()
}

#[test]
fn each_end_has_one_cell_in_the_order_of_the_ends() {
    let mut w = widget();
    let mut all: Vec<Effect> = Vec::new();
    all.extend(w.handle_codex_event(begin("a", &["one"])));
    all.extend(w.handle_codex_event(delta("line\n")));
    all.extend(w.handle_codex_event(begin("b", &["two"])));
    all.extend(w.handle_codex_event(end("b", 2)));
    all.extend(w.handle_codex_event(begin("c", &["three"])));
    all.extend(w.handle_codex_event(end("a", 1)));
    assert!(w.pending_exec_completions.is_empty());
    all.extend(w.handle_codex_event(event(EventMsg::AgentMessage { message: s("line\n") })));
    all.extend(w.handle_codex_event(end("c", 3)));
    let mut ticks = 0;
    while w.stream.is_write_cycle_active() {
        all.extend(w.on_commit_tick());
        ticks += 1;
        assert!(ticks < 10);
    }
    assert!(w.interrupts.queue.is_empty());
    assert!(w.pending_exec_completions.is_empty());
    assert!(w.running_commands.is_empty());
    assert_eq!(
        completed_cells(all),
        vec![
            completed(&["two"], &["parsed b"], 2, "out b"),
            completed(&["one"], &["parsed a"], 1, "out a"),
            completed(&["three"], &["parsed c"], 3, "out c"),
        ]
    );
}

#[test]
fn an_end_behind_an_error_shows_the_call_id() {
    let mut w = widget();
    let mut all: Vec<Effect> = Vec::new();
    all.extend(w.handle_codex_event(begin("a", &["one"])));
    all.extend(w.handle_codex_event(event(EventMsg::Error { message: s("boom") })));
    all.extend(w.handle_codex_event(end("a", 7)));
    assert!(w.pending_exec_completions.is_empty());
    assert_eq!(completed_cells(all), vec![completed(&["a"], &[], 7, "out a")]);
}

#[test]
fn the_table_of_running_commands_keeps_one_command_for_each_call() {
    let mut table = RunningCommands::new();
    assert!(table.is_empty());
    assert_eq!(table.remove("a"), None);
    table.insert(s("a"), RunningCommand { command: words(&["one"]), parsed_cmd: words(&["p1"]) });
    table.insert(s("b"), RunningCommand { command: words(&["two"]), parsed_cmd: Vec::new() });
    table.insert(s("a"), RunningCommand { command: words(&["three"]), parsed_cmd: Vec::new() });
    assert!(!table.is_empty());
    assert_eq!(
        table.remove("a"),
        Some(RunningCommand { command: words(&["three"]), parsed_cmd: Vec::new() })
    );
    assert_eq!(table.remove("a"), None);
    assert!(!table.is_empty());
    assert_eq!(
        table.remove("b"),
        Some(RunningCommand { command: words(&["two"]), parsed_cmd: Vec::new() })
    );
    assert!(table.is_empty());
    table.insert(s("c"), RunningCommand { command: words(&["four"]), parsed_cmd: Vec::new() });
    table.clear();
    assert!(table.is_empty());
    assert_eq!(table.remove("c"), None);
}
