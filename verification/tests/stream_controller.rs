use conversation_core::stream::{Phase, StreamController};

fn tick_until_idle(c: &mut StreamController, sink: &mut Vec<String>) -> usize {
    let mut ticks = 0;
    while c.is_write_cycle_active() {
        c.on_commit_tick(sink);
        ticks += 1;
        assert!(ticks < 1000);
    }
    ticks
}

#[test]
fn a_new_controller_is_idle() {
    let mut c = StreamController::new();
    let mut sink = Vec::new();
    assert!(!c.is_write_cycle_active());
    assert!(!c.on_commit_tick(&mut sink));
    assert!(!c.finalize(true, &mut sink));
    assert!(sink.is_empty());
}

#[test]
fn begin_is_idempotent() {
    let mut c = StreamController::new();
    c.begin(&mut Vec::new());
    c.push_and_maybe_commit("a\n", &mut Vec::new());
    c.begin(&mut Vec::new());
    assert!(c.is_write_cycle_active());
    let mut sink = Vec::new();
    c.on_commit_tick(&mut sink);
    assert_eq!(sink, vec!["a".to_string()]);
}

#[test]
fn a_delta_before_begin_is_dropped() {
    let mut c = StreamController::new();
    c.push_and_maybe_commit("lost\n", &mut Vec::new());
    let mut sink = Vec::new();
    assert!(!c.on_commit_tick(&mut sink));
    assert!(sink.is_empty());
    assert!(!c.is_write_cycle_active());
}

#[test]
fn a_tick_commits_at_most_one_complete_line() {
    let mut c = StreamController::new();
    let mut sink = Vec::new();
    c.begin(&mut Vec::new());
    c.push_and_maybe_commit("one\ntwo\nthr", &mut Vec::new());
    assert!(!c.on_commit_tick(&mut sink));
    assert_eq!(sink, vec!["one".to_string()]);
    assert!(!c.on_commit_tick(&mut sink));
    assert_eq!(sink, vec!["one".to_string(), "two".to_string()]);
    assert!(!c.on_commit_tick(&mut sink));
    assert_eq!(sink.len(), 2);
    c.push_and_maybe_commit("ee\n", &mut Vec::new());
    assert!(!c.on_commit_tick(&mut sink));
    assert_eq!(sink, vec!["one".to_string(), "two".to_string(), "three".to_string()]);
    assert!(c.is_write_cycle_active());
}

#[test]
fn finalize_lets_the_last_line_out_and_adds_the_separator() {
    let mut c = StreamController::new();
    let mut sink = Vec::new();
    c.begin(&mut Vec::new());
    c.push_and_maybe_commit("one\ntw", &mut Vec::new());
    assert!(!c.finalize(true, &mut sink));
    assert!(sink.is_empty());
    assert!(!c.on_commit_tick(&mut sink));
    assert!(c.on_commit_tick(&mut sink));
    assert_eq!(sink, vec!["one".to_string(), "tw".to_string(), String::new()]);
    assert!(!c.is_write_cycle_active());
    assert!(!c.on_commit_tick(&mut sink));
    assert_eq!(sink.len(), 3);
}

#[test]
fn finalize_without_separator_adds_none() {
    let mut c = StreamController::new();
    let mut sink = Vec::new();
    c.begin(&mut Vec::new());
    c.push_and_maybe_commit("only", &mut Vec::new());
    assert!(!c.finalize(false, &mut sink));
    assert!(c.on_commit_tick(&mut sink));
    assert_eq!(sink, vec!["only".to_string()]);
}

#[test]
fn finalize_finishes_at_once_where_nothing_is_left() {
    let mut c = StreamController::new();
    let mut sink = Vec::new();
    c.begin(&mut Vec::new());
    c.push_and_maybe_commit("a\n", &mut Vec::new());
    c.on_commit_tick(&mut sink);
    assert!(c.finalize(true, &mut sink));
    assert_eq!(sink, vec!["a".to_string(), String::new()]);
    let mut empty = StreamController::new();
    let mut none = Vec::new();
    empty.begin(&mut Vec::new());
    assert!(empty.finalize(false, &mut none));
    assert!(none.is_empty());
}

#[test]
fn the_final_answer_gives_the_lines_that_are_left() {
    let mut c = StreamController::new();
    let mut sink = Vec::new();
    c.begin(&mut Vec::new());
    c.push_and_maybe_commit("one\ntw", &mut Vec::new());
    c.on_commit_tick(&mut sink);
    assert!(!c.apply_final_answer("one\ntwo\nthree", &mut sink));
    let ticks = tick_until_idle(&mut c, &mut sink);
    assert_eq!(ticks, 2);
    assert_eq!(sink, vec!["one".to_string(), "two".to_string(), "three".to_string()]);
}

#[test]
fn the_final_answer_alone_begins_a_cycle() {
    let mut c = StreamController::new();
    let mut sink = Vec::new();
    assert!(!c.apply_final_answer("a\r\nb\n", &mut sink));
    tick_until_idle(&mut c, &mut sink);
    assert_eq!(sink, vec!["a".to_string(), "b".to_string()]);
    let mut none = Vec::new();
    assert!(StreamController::new().apply_final_answer("", &mut none));
    assert!(none.is_empty());
}

#[test]
fn the_final_answer_finishes_at_once_where_all_is_committed() {
    let mut c = StreamController::new();
    let mut sink = Vec::new();
    c.begin(&mut Vec::new());
    c.push_and_maybe_commit("a\nb\n", &mut Vec::new());
    c.on_commit_tick(&mut sink);
    c.on_commit_tick(&mut sink);
    assert!(c.apply_final_answer("a\nb\n", &mut sink));
    assert_eq!(sink, vec!["a".to_string(), "b".to_string()]);
    assert!(!c.is_write_cycle_active());
}

#[test]
fn committed_lines_are_the_lines_of_the_final_message() {
    let final_text = "alpha\nbeta\r\ngamma\n\ndelta";
    let expected: Vec<String> = final_text.lines().map(|l| l.to_string()).collect();
    for cut in 0..=final_text.len() {
        for ticks_between in 0..4 {
            for separator in [false, true] {
                let mut c = StreamController::new();
                let mut sink = Vec::new();
                let (head, tail) = final_text.split_at(cut);
                c.begin(&mut Vec::new());
                c.push_and_maybe_commit(head, &mut Vec::new());
                for _ in 0..ticks_between {
                    c.on_commit_tick(&mut sink);
                }
                c.begin(&mut Vec::new());
                c.push_and_maybe_commit(&tail[..tail.len() / 2], &mut Vec::new());
                c.on_commit_tick(&mut sink);
                let done = c.apply_final_answer(final_text, &mut sink);
                c.finalize(separator, &mut sink);
                tick_until_idle(&mut c, &mut sink);
                let mut wanted = expected.clone();
                if separator && !done {
                    wanted.push(String::new());
                }
                assert_eq!(sink, wanted, "cut {cut}, ticks {ticks_between}, separator {separator}");
            }
        }
    }
}

#[test]
fn clear_all_drops_what_was_not_committed() {
    let mut c = StreamController::new();
    let mut sink = Vec::new();
    c.begin(&mut Vec::new());
    c.push_and_maybe_commit("a\nb\n", &mut Vec::new());
    c.finalize(true, &mut sink);
    c.clear_all();
    assert!(!c.is_write_cycle_active());
    assert!(!c.on_commit_tick(&mut sink));
    assert!(sink.is_empty());
    c.begin(&mut Vec::new());
    c.push_and_maybe_commit("c\n", &mut Vec::new());
    c.on_commit_tick(&mut sink);
    assert_eq!(sink, vec!["c".to_string()]);
}

#[test]
fn reset_headers_forgets_the_header_only() {
    let mut c = StreamController::new();
    c.header = Some("Planning".to_string());
    c.begin(&mut Vec::new());
    c.push_and_maybe_commit("x\n", &mut Vec::new());
    c.reset_headers_for_new_turn();
    assert_eq!(c.header, None);
    assert!(c.is_write_cycle_active());
    let mut sink = Vec::new();
    c.on_commit_tick(&mut sink);
    assert_eq!(sink, vec!["x".to_string()]);
}

#[test]
fn the_controller_goes_from_phase_to_phase() {
    let mut c = StreamController::new();
    let mut sink = Vec::new();
    assert_eq!(c.phase(), Phase::Idle);
    c.begin(&mut sink);
    assert_eq!(c.phase(), Phase::Streaming);
    c.push_and_maybe_commit("a\nb", &mut sink);
    c.on_commit_tick(&mut sink);
    assert_eq!(c.phase(), Phase::Streaming);
    c.finalize(false, &mut sink);
    assert_eq!(c.phase(), Phase::Finalizing);
    c.begin(&mut sink);
    assert_eq!(c.phase(), Phase::Finalizing);
    assert!(c.on_commit_tick(&mut sink));
    assert_eq!(c.phase(), Phase::Idle);
    assert_eq!(sink, vec!["a".to_string(), "b".to_string()]);
    c.begin(&mut sink);
    c.clear_all();
    assert_eq!(c.phase(), Phase::Idle);
}
