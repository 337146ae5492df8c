use conversation_core::rollout::{
    extract_cwd_from_rollout, legacy_synthesize_summary_from_rollout, read_steps_from_rollout, resolve_step_to_response_id,
};

fn state_line(id: &str, created_at: &str, summary: &str) -> String {
    format!(
        "{{\"record_type\":\"state\",\"last_response_id\":\"{id}\",\"created_at\":\"{created_at}\",\"summary\":\"{summary}\"}}"
    )
}

fn five_state_records() -> String {
    let mut text = String::new();
    for (id, at) in [
        ("r1", "2024-01-02T03:04:05Z"),
        ("r1", "2024-01-02T03:04:06Z"),
        ("r2", "2024-01-02T03:04:07Z"),
        ("r3", "2024-01-02T03:04:08Z"),
        ("r3", "2024-01-02T03:04:09Z"),
    ] {
        text.push_str(&state_line(id, at, "did something"));
        text.push('\n');
    }
    text
}

#[test]
fn runs_of_one_response_id_are_one_step() {
    let text = five_state_records();
    let steps = read_steps_from_rollout(&text, 7, "2024-05-06 07:08");
    assert_eq!(steps.len(), 3);
    assert_eq!(steps[0].timestamp, "2024-01-02T03:04:05Z");
    assert_eq!(steps[1].timestamp, "2024-01-02T03:04:07Z");
    assert_eq!(steps[2].timestamp, "2024-01-02T03:04:08Z");
    assert_eq!(steps[0].summary, "did something");
    assert_eq!(resolve_step_to_response_id(&text, 0), Some("r1".to_string()));
    assert_eq!(resolve_step_to_response_id(&text, 1), Some("r2".to_string()));
    assert_eq!(resolve_step_to_response_id(&text, 2), Some("r3".to_string()));
    assert_eq!(resolve_step_to_response_id(&text, 3), None);
}

#[test]
fn the_sort_key_is_the_time_of_created_at_in_milliseconds() {
    let text = state_line("r1", "1970-01-01T00:00:01.444Z", "") + "\n"
        + &state_line("r2", "2001-09-09T01:46:40.555+00:00", "") + "\n"
        + &state_line("r3", "1996-12-19T16:39:57-08:00", "") + "\n";
    let steps = read_steps_from_rollout(&text, 99, "");
    assert_eq!(steps.len(), 3);
    assert_eq!(steps[0].sort_key_ms, 1_444);
    assert_eq!(steps[1].sort_key_ms, 1_000_000_000_555);
    assert_eq!(steps[2].sort_key_ms, 851_042_397_000);
}

#[test]
fn a_created_at_that_is_no_time_falls_back_to_the_file_time() {
    let text = state_line("r1", "yesterday", "s") + "\n"
        + "{\"record_type\":\"state\",\"last_response_id\":\"r2\"}\n";
    let steps = read_steps_from_rollout(&text, 1234, "shown");
    assert_eq!(steps.len(), 2);
    assert_eq!(steps[0].timestamp, "yesterday");
    assert_eq!(steps[0].sort_key_ms, 1234);
    assert_eq!(steps[1].timestamp, "");
    assert_eq!(steps[1].summary, "");
    assert_eq!(steps[1].sort_key_ms, 1234);
}

#[test]
fn fields_are_probed_at_the_top_and_then_under_state() {
    let text = "{\"record_type\":\"state\",\"state\":{\"last_response_id\":\"n1\",\"created_at\":\"2024-01-02T03:04:05Z\",\"summary\":\"nested\"}}\n\
                {\"record_type\":\"state\",\"last_response_id\":\"t2\",\"state\":{\"last_response_id\":\"n2\",\"summary\":\"below\"}}\n\
                {\"record_type\":\"state\",\"last_response_id\":null,\"state\":{\"last_response_id\":\"n3\"}}\n";
    assert_eq!(resolve_step_to_response_id(text, 0), Some("n1".to_string()));
    assert_eq!(resolve_step_to_response_id(text, 1), Some("t2".to_string()));
    assert_eq!(resolve_step_to_response_id(text, 2), None);
    let steps = read_steps_from_rollout(text, 0, "");
    assert_eq!(steps.len(), 2);
    assert_eq!(steps[0].summary, "nested");
    assert_eq!(steps[0].sort_key_ms, 1_704_164_645_000);
    assert_eq!(steps[1].summary, "below");
}

#[test]
fn lines_that_are_no_json_and_unknown_records_are_passed_over() {
    let text = "garbage \"record_type\":\"state\" {{{\n".to_string()
        + "{\"record_type\":\"other\",\"last_response_id\":\"zz\"}\n"
        + "{\"record_type\": \"state\",\"last_response_id\":\"spaced\"}\n"
        + &state_line("r1", "", "") + "\r\n"
        + "\n"
        + &state_line("r2", "", "");
    assert_eq!(resolve_step_to_response_id(&text, 0), Some("r1".to_string()));
    assert_eq!(resolve_step_to_response_id(&text, 1), Some("r2".to_string()));
    assert_eq!(resolve_step_to_response_id(&text, 2), None);
}

#[test]
fn an_id_that_comes_back_later_begins_a_new_step() {
    let text = state_line("a", "", "") + "\n" + &state_line("b", "", "") + "\n"
        + &state_line("a", "", "") + "\n";
    assert_eq!(read_steps_from_rollout(&text, 0, "").len(), 3);
    assert_eq!(resolve_step_to_response_id(&text, 2), Some("a".to_string()));
}

#[test]
fn a_rollout_without_state_records_has_one_step_from_its_messages() {
    let text = "{\"type\":\"message\",\"role\":\"assistant\",\"content\":[{\"text\":\"Hello\\nworld\"}]}\n";
    let steps = read_steps_from_rollout(text, 1_700_000_000_123, "2023-11-14 22:13");
    assert_eq!(steps.len(), 1);
    assert_eq!(steps[0].summary, "Hello");
    assert_eq!(steps[0].sort_key_ms, 1_700_000_000_123);
    assert_eq!(steps[0].timestamp, "2023-11-14 22:13");
}

#[test]
fn an_empty_rollout_has_one_empty_step() {
    let steps = read_steps_from_rollout("", 5, "now");
    assert_eq!(steps.len(), 1);
    assert_eq!(steps[0].summary, "");
    assert_eq!(steps[0].timestamp, "now");
    assert_eq!(steps[0].sort_key_ms, 5);
}

#[test]
fn the_summary_prefers_the_last_assistant_message() {
    let text = "{\"type\":\"message\",\"role\":\"user\",\"content\":[{\"text\":\"first question\"}]}\n\
                {\"type\":\"message\",\"role\":\"assistant\",\"content\":[{\"text\":\"first answer\"}]}\n\
                {\"type\":\"message\",\"role\":\"assistant\",\"content\":[{\"text\":\"  second answer  \\nmore\"}]}\n\
                {\"type\":\"message\",\"role\":\"user\",\"content\":[{\"text\":\"last question\"}]}\n";
    assert_eq!(legacy_synthesize_summary_from_rollout(text), "second answer");
}

#[test]
fn the_summary_falls_back_to_the_last_user_message() {
    let text = "{\"type\":\"message\",\"role\":\"user\",\"content\":[{\"text\":\"one\"}]}\n\
                {\"type\":\"message\",\"role\":\"assistant\",\"content\":[{\"text\":\"   \"}]}\n\
                {\"type\":\"message\",\"role\":\"system\",\"content\":[{\"text\":\"ignored\"}]}\n\
                {\"type\":\"note\",\"role\":\"user\",\"content\":[{\"text\":\"no message\"}]}\n\
                {\"type\":\"message\",\"role\":\"user\",\"content\":[{\"text\":\"two\"}]}\n";
    assert_eq!(legacy_synthesize_summary_from_rollout(text), "two");
}

#[test]
fn the_texts_of_a_message_stand_one_below_the_other() {
    let text = "{\"type\":\"message\",\"role\":\"assistant\",\"content\":[{\"text\":\"\"},{\"content\":[{\"text\":\"inner\"},{\"text\":\"skipped\"}]},{\"other\":1},{\"text\":\"tail\"}]}\n";
    assert_eq!(legacy_synthesize_summary_from_rollout(text), "inner");
    let two = "{\"type\":\"message\",\"role\":\"assistant\",\"content\":[{\"text\":\" \"},{\"text\":\"second\"}]}\n";
    assert_eq!(legacy_synthesize_summary_from_rollout(two), "");
}

#[test]
fn a_long_summary_is_cut_at_eighty_bytes_with_an_ellipsis() {
    let long = "x".repeat(81);
    let text = format!("{{\"type\":\"message\",\"role\":\"user\",\"content\":[{{\"text\":\"{long}\"}}]}}\n");
    let expected = format!("{}\u{2026}", "x".repeat(80));
    assert_eq!(legacy_synthesize_summary_from_rollout(&text), expected);
    let exact = "y".repeat(80);
    let text = format!("{{\"type\":\"message\",\"role\":\"user\",\"content\":[{{\"text\":\"{exact}\"}}]}}\n");
    assert_eq!(legacy_synthesize_summary_from_rollout(&text), exact);
}

#[test]
fn a_cut_never_splits_a_character() {
    let long = format!("{}\u{e9}\u{e9}", "x".repeat(79));
    let text = format!("{{\"type\":\"message\",\"role\":\"user\",\"content\":[{{\"text\":\"{long}\"}}]}}\n");
    let expected = format!("{}\u{2026}", "x".repeat(79));
    assert_eq!(legacy_synthesize_summary_from_rollout(&text), expected);
    let fits = format!("{}\u{e9}", "x".repeat(78));
    let text = format!("{{\"type\":\"message\",\"role\":\"user\",\"content\":[{{\"text\":\"{fits}\"}}]}}\n");
    assert_eq!(legacy_synthesize_summary_from_rollout(&text), fits);
}

#[test]
fn the_working_directory_is_that_of_the_first_shell_call() {
    let text = "{\"record_type\":\"state\",\"type\":\"local_shell_call\",\"action\":{\"exec\":{\"working_directory\":\"/state\"}}}\n\
                {\"type\":\"local_shell_call\",\"action\":{\"exec\":{\"working_directory\":\"\"}}}\n\
                {\"type\":\"message\",\"action\":{\"exec\":{\"working_directory\":\"/message\"}}}\n\
                not json\n\
                {\"type\":\"local_shell_call\",\"action\":{\"exec\":{\"working_directory\":\"/home/u/project\"}}}\n\
                {\"type\":\"local_shell_call\",\"action\":{\"exec\":{\"working_directory\":\"/later\"}}}\n";
    assert_eq!(extract_cwd_from_rollout(text), Some("/home/u/project".to_string()));
    assert_eq!(extract_cwd_from_rollout("{\"type\":\"local_shell_call\"}\n"), None);
    assert_eq!(extract_cwd_from_rollout(""), None);
}
