use conversation_core::error::SessionError;
use conversation_core::sessions::{
    list_sessions, resume_overrides, resume_point, resume_session, session_line, show_session,
    ResumeArgs,
};

fn args(at: Option<&str>, step: Option<usize>) -> ResumeArgs {
    ResumeArgs {
        target: "abc".to_string(),
        prompt: "go on".to_string(),
        model: Some("m1".to_string()),
        at: at.map(|s| s.to_string()),
        step,
        profile: None,
        cwd: Some("/work".to_string()),
        full_auto: true,
        yolo: false,
    }
}

fn rollout() -> String {
    let mut text = String::new();
    for (id, at, summary) in [
        ("resp_0123456789abcdef", "2024-01-02T03:04:05Z", "first"),
        ("resp_0123456789abcdef", "2024-01-02T03:04:06Z", "again"),
        ("r2", "", ""),
        ("r3", "", "only a summary"),
    ] {
        text.push_str(&format!(
            "{{\"record_type\":\"state\",\"last_response_id\":\"{id}\",\"created_at\":\"{at}\",\"summary\":\"{summary}\"}}\n"
        ));
    }
    text
}

#[test]
fn list_prints_session_id_and_path_sorted_by_path() {
    let files = vec![
        "/s/b/rollout-2024-02-02T00-00-00-two.jsonl".to_string(),
        "/s/readme.txt".to_string(),
        "/s/a/rollout-2024-01-01T00-00-00-one.jsonl".to_string(),
    ];
    assert_eq!(
        list_sessions(&files),
        vec![
            "one  /s/a/rollout-2024-01-01T00-00-00-one.jsonl".to_string(),
            "two  /s/b/rollout-2024-02-02T00-00-00-two.jsonl".to_string(),
        ]
    );
    assert_eq!(session_line("plain"), "?  plain");
}

#[test]
fn show_prints_the_path_and_a_line_for_each_step() {
    let lines = show_session("/s/rollout-x-abc.jsonl", &rollout());
    assert_eq!(
        lines,
        vec![
            "Session: /s/rollout-x-abc.jsonl".to_string(),
            "  [0] resp: resp_0123456  2024-01-02T03:04:05Z  first".to_string(),
            "  [1] resp: r2".to_string(),
            "  [2] resp: r3    only a summary".to_string(),
        ]
    );
    assert_eq!(show_session("p", ""), vec!["Session: p".to_string()]);
}

#[test]
fn show_counts_beyond_nine_in_decimal() {
    let mut text = String::new();
    for i in 0..12 {
        text.push_str(&format!("{{\"record_type\":\"state\",\"last_response_id\":\"r{i}\"}}\n"));
    }
    let lines = show_session("p", &text);
    assert_eq!(lines.len(), 13);
    assert_eq!(lines[10], "  [9] resp: r9");
    assert_eq!(lines[11], "  [10] resp: r10");
    assert_eq!(lines[12], "  [11] resp: r11");
}

#[test]
fn overrides_name_the_rollout_and_the_response_id() {
    assert_eq!(
        resume_overrides("C:\\Users\\u\\rollout-1-a.jsonl", None),
        vec!["experimental_resume=\"C:/Users/u/rollout-1-a.jsonl\"".to_string()]
    );
    assert_eq!(
        resume_overrides("/s/rollout-1-a.jsonl", Some("r2")),
        vec![
            "experimental_resume=\"/s/rollout-1-a.jsonl\"".to_string(),
            "experimental_previous_response_id=\"r2\"".to_string(),
        ]
    );
}

#[test]
fn a_given_response_id_counts_before_a_step() {
    assert_eq!(resume_point(Some("given".to_string()), Some(1), &rollout()).ok(), Some(Some("given".to_string())));
    assert_eq!(resume_point(Some("given".to_string()), Some(99), &rollout()).ok(), Some(Some("given".to_string())));
    assert_eq!(resume_point(None, Some(1), &rollout()).ok(), Some(Some("r2".to_string())));
    assert_eq!(resume_point(None, None, &rollout()).ok(), Some(None));
}

#[test]
fn a_step_beyond_the_rollout_is_an_error() {
    match resume_point(None, Some(3), &rollout()) {
        Err(e) => {
            assert!(matches!(e, SessionError::NoResponseAtStep(3)));
            assert_eq!(e.message(), "No response id found at step 3");
        }
        Ok(at) => panic!("resumed at {at:?}"),
    }
}

#[test]
fn resume_prepares_the_run() {
    let run = resume_session(
        args(None, Some(2)),
        vec!["model=\"x\"".to_string()],
        "/s/rollout-1-abc.jsonl",
        true,
        &rollout(),
    )
    .ok()
    .unwrap();
    assert_eq!(
        run.overrides,
        vec![
            "model=\"x\"".to_string(),
            "experimental_resume=\"/s/rollout-1-abc.jsonl\"".to_string(),
            "experimental_previous_response_id=\"r3\"".to_string(),
        ]
    );
    assert_eq!(run.prompt, "go on");
    assert_eq!(run.model, Some("m1".to_string()));
    assert_eq!(run.profile, None);
    assert_eq!(run.cwd, Some("/work".to_string()));
    assert!(run.full_auto);
    assert!(!run.yolo);
}

#[test]
fn resume_without_a_point_only_names_the_rollout() {
    let run = resume_session(args(None, None), Vec::new(), "/s/r.jsonl", true, "").ok().unwrap();
    assert_eq!(run.overrides, vec!["experimental_resume=\"/s/r.jsonl\"".to_string()]);
}

#[test]
fn resume_of_a_missing_rollout_is_an_error() {
    match resume_session(args(Some("r1"), None), Vec::new(), "/s/gone.jsonl", false, "") {
        Err(e) => {
            assert!(matches!(&e, SessionError::RolloutNotFound(p) if p == "/s/gone.jsonl"));
            assert_eq!(e.message(), "rollout file not found: /s/gone.jsonl");
        }
        Ok(_) => panic!("resumed"),
    }
}

#[test]
fn resume_at_a_missing_step_is_an_error() {
    let r = resume_session(args(None, Some(7)), Vec::new(), "/s/r.jsonl", true, &rollout());
    assert!(matches!(r, Err(SessionError::NoResponseAtStep(7))));
}
