use conversation_core::chatwidget::selection::{
    open_approvals_popup, open_model_popup, ApprovalPreset, ModelPreset,
};
use conversation_core::chatwidget::ChatWidget;
use conversation_core::history_cell::{
    Effect, ExecCell, HistoryCell, ResumeRequest, SelectionAction, SelectionItem,
};
use conversation_core::protocol::{Event, EventMsg, Op, TokenUsage};
use conversation_core::timeline::{resume_request, TimelineItem};

fn s(text: &str) -> String {
    text.to_string()
}

fn item(name: &str, step: usize) -> TimelineItem {
    TimelineItem {
        name: s(name),
        description: if step == 0 { None } else { Some(format!("about {name}")) },
        target: format!("/s/rollout-{name}.jsonl"),
        step,
        sort_key: 5,
        cwd_match: true,
    }
}

#[test]
fn choosing_a_timeline_entry_asks_to_resume_its_step() {
    assert_eq!(
        resume_request(&item("a", 3)),
        ResumeRequest { target: s("/s/rollout-a.jsonl"), at: None, step: Some(3), prompt: String::new() }
    );
}

#[test]
fn the_timeline_opens_as_a_selection() {
    let mut w = ChatWidget::new(None, Vec::new());
    let effects = w.open_resume_timeline(vec![item("a", 0), item("b", 2)]);
    assert_eq!(
        effects,
        vec![Effect::ShowSelection {
            title: s("Resume from a previous turn"),
            subtitle: Some(s(
                "Sorted by time (newest first). Use \u{2191}/\u{2193}; PgUp/PgDn/Home/End for fast navigation."
            )),
            footer: Some(s("Press Enter to resume or Esc to cancel")),
            items: vec![
                SelectionItem {
                    name: s("a"),
                    description: None,
                    is_current: false,
                    actions: vec![SelectionAction::Resume(ResumeRequest {
                        target: s("/s/rollout-a.jsonl"),
                        at: None,
                        step: Some(0),
                        prompt: String::new(),
                    })],
                },
                SelectionItem {
                    name: s("b"),
                    description: Some(s("about b")),
                    is_current: false,
                    actions: vec![SelectionAction::Resume(ResumeRequest {
                        target: s("/s/rollout-b.jsonl"),
                        at: None,
                        step: Some(2),
                        prompt: String::new(),
                    })],
                },
            ],
        }]
    );
}

#[test]
fn an_empty_timeline_leaves_a_note() {
    let mut w = ChatWidget::new(None, Vec::new());
    w.handle_codex_event(Event {
        id: s("e"),
        msg: EventMsg::ExecCommandBegin { call_id: s("c"), command: vec![s("ls")], parsed_cmd: Vec::new() },
    });
    let effects = w.open_resume_timeline(Vec::new());
    assert_eq!(
        effects,
        vec![
            Effect::History(HistoryCell::ActiveExec(ExecCell { command: vec![s("ls")], parsed: Vec::new() })),
            Effect::History(HistoryCell::Plain(vec![
                s("No sessions found under ~/.codex/sessions"),
                String::new(),
            ])),
            Effect::Redraw,
        ]
    );
}

#[test]
fn the_model_popup_marks_the_current_preset() {
    let presets = vec![
        ModelPreset { label: s("fast"), description: s("quick answers"), model: s("m1"), effort: s("low") },
        ModelPreset { label: s("deep"), description: s("long thought"), model: s("m1"), effort: s("high") },
    ];
    match open_model_popup(&presets, "m1", "high") {
        Effect::ShowSelection { title, subtitle, footer, items } => {
            assert_eq!(title, "Select model and reasoning level");
            assert_eq!(
                subtitle,
                Some(s("Switch between OpenAI models for this and future Codex CLI session"))
            );
            assert_eq!(footer, Some(s("Press Enter to confirm or Esc to go back")));
            assert_eq!(items.len(), 2);
            assert!(!items[0].is_current);
            assert!(items[1].is_current);
            assert_eq!(items[0].name, "fast");
            assert_eq!(items[0].description, Some(s("quick answers")));
            assert_eq!(
                items[1].actions,
                vec![
                    SelectionAction::Submit(Op::OverrideTurnContext {
                        cwd: None,
                        approval_policy: None,
                        sandbox_policy: None,
                        model: Some(s("m1")),
                        effort: Some(s("high")),
                        summary: None,
                    }),
                    SelectionAction::UpdateModel(s("m1")),
                    SelectionAction::UpdateReasoningEffort(s("high")),
                ]
            );
        }
        other => panic!("{other:?}"),
    }
}

#[test]
fn the_approvals_popup_marks_the_current_preset() {
    let presets = vec![
        ApprovalPreset { label: s("Read Only"), description: s("asks"), approval: s("on-request"), sandbox: s("read-only") },
        ApprovalPreset { label: s("Auto"), description: s("works"), approval: s("on-request"), sandbox: s("workspace-write") },
    ];
    match open_approvals_popup(&presets, "on-request", "read-only") {
        Effect::ShowSelection { title, subtitle, footer, items } => {
            assert_eq!(title, "Select Approval Mode");
            assert_eq!(subtitle, None);
            assert_eq!(footer, Some(s("Press Enter to confirm or Esc to go back")));
            assert!(items[0].is_current);
            assert!(!items[1].is_current);
            assert_eq!(
                items[1].actions,
                vec![
                    SelectionAction::Submit(Op::OverrideTurnContext {
                        cwd: None,
                        approval_policy: Some(s("on-request")),
                        sandbox_policy: Some(s("workspace-write")),
                        model: None,
                        effort: None,
                        summary: None,
                    }),
                    SelectionAction::UpdateAskForApprovalPolicy(s("on-request")),
                    SelectionAction::UpdateSandboxPolicy(s("workspace-write")),
                ]
            );
        }
        other => panic!("{other:?}"),
    }
    assert!(matches!(
        open_approvals_popup(&Vec::new(), "a", "b"),
        Effect::ShowSelection { items, .. } if items.is_empty()
    ));
}

#[test]
fn a_diff_runs_as_a_task_and_ends_in_the_history() {
    let mut w = ChatWidget::new(None, Vec::new());
    assert_eq!(w.add_diff_in_progress(), vec![Effect::StatusText(s("computing diff")), Effect::Redraw]);
    assert!(w.task_running);
    assert_eq!(w.add_diff_output(s("+line")), vec![Effect::History(HistoryCell::DiffOutput(s("+line")))]);
    assert!(!w.task_running);
    assert!(w.needs_redraw);
}

#[test]
fn status_and_tools_go_into_the_history() {
    let mut w = ChatWidget::new(None, Vec::new());
    let usage = TokenUsage {
        input_tokens: 1,
        cached_input_tokens: None,
        output_tokens: 2,
        reasoning_output_tokens: None,
        total_tokens: 3,
    };
    w.handle_codex_event(Event { id: s("e"), msg: EventMsg::TokenCount(usage) });
    w.handle_codex_event(Event {
        id: s("e"),
        msg: EventMsg::SessionConfigured { session_id: s("sid"), history_log_id: 0, history_entry_count: 0 },
    });
    assert_eq!(
        w.add_status_output(),
        vec![Effect::History(HistoryCell::StatusOutput { usage, session: Some(s("sid")) })]
    );
    assert_eq!(w.add_mcp_output(false), vec![Effect::History(HistoryCell::EmptyMcpOutput)]);
    assert_eq!(w.add_mcp_output(true), vec![Effect::Submit(Op::ListMcpTools)]);
    assert_eq!(*w.token_usage(), usage);
    let none = TokenUsage {
        input_tokens: 0,
        cached_input_tokens: None,
        output_tokens: 0,
        reasoning_output_tokens: None,
        total_tokens: 0,
    };
    assert_eq!(w.clear_token_usage(), vec![Effect::TokenUsage { total: none, last: usage }]);
    assert_eq!(*w.token_usage(), none);
}

#[test]
fn the_height_counts_the_cell_of_running_commands() {
    let mut w = ChatWidget::new(None, Vec::new());
    assert_eq!(w.desired_height(5, 3), 5);
    assert_eq!(w.desired_height(u16::MAX, 7), u16::MAX);
    w.handle_codex_event(Event {
        id: s("e"),
        msg: EventMsg::ExecCommandBegin { call_id: s("c"), command: vec![s("ls")], parsed_cmd: Vec::new() },
    });
    assert_eq!(w.desired_height(5, 3), 8);
    assert_eq!(w.desired_height(0, u16::MAX), u16::MAX);
}
