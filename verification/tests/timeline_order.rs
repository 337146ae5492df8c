use conversation_core::timeline::{
    collect_timeline_items, paths_match, shorten_path, SessionFile,
};

fn state(id: &str, at_ms: i64, summary: &str) -> String {
    let at = chrono::DateTime::from_timestamp_millis(at_ms).unwrap().to_rfc3339();
    format!("{{\"record_type\":\"state\",\"last_response_id\":\"{id}\",\"created_at\":\"{at}\",\"summary\":\"{summary}\"}}\n")
}

fn shell_call(cwd: &str) -> String {
    format!("{{\"type\":\"local_shell_call\",\"action\":{{\"exec\":{{\"working_directory\":\"{cwd}\"}}}}}}\n")
}

fn file(path: &str, text: &str) -> SessionFile {
    SessionFile {
        path: path.to_string(),
        text: Some(text.to_string()),
        mtime_ms: 5,
        mtime_display: "2024-01-01 00:00".to_string(),
    }
}

#[test]
fn sessions_in_the_current_directory_come_first_and_newer_steps_before_older() {
    let a = file(
        "/s/rollout-2024-01-01T00-00-00-A.jsonl",
        &(shell_call("/x") + &state("a1", 100, "one") + &state("a2", 200, "two")),
    );
    let b = file(
        "/s/rollout-2024-01-01T00-00-00-B.jsonl",
        &(shell_call("/y") + &state("b1", 300, "three")),
    );
    let items = collect_timeline_items("/x", &vec![a, b]);
    let names: Vec<&str> = items.iter().map(|i| i.name.as_str()).collect();
    assert_eq!(names, vec!["A [step 1]", "A [step 0]", "B [step 0]"]);
    let keys: Vec<i64> = items.iter().map(|i| i.sort_key).collect();
    assert_eq!(keys, vec![200, 100, 300]);
    assert_eq!(items.iter().map(|i| i.cwd_match).collect::<Vec<bool>>(), vec![true, true, false]);
    assert_eq!(items[0].target, "/s/rollout-2024-01-01T00-00-00-A.jsonl");
    assert_eq!(items[0].step, 1);
    assert_eq!(items[2].step, 0);
}

#[test]
fn the_description_joins_time_directory_and_summary() {
    let a = file(
        "/s/rollout-1-A.jsonl",
        &(shell_call("/home/u/work/project") + &state("a1", 0, "did it")),
    );
    let items = collect_timeline_items("/elsewhere", &vec![a]);
    assert_eq!(items.len(), 1);
    assert_eq!(
        items[0].description,
        Some("1970-01-01T00:00:00+00:00  \u{2022}  cwd: work/project  \u{2022}  did it".to_string())
    );
}

#[test]
fn a_step_without_time_directory_and_summary_has_no_description() {
    let a = file("/s/rollout-1-A.jsonl", "{\"record_type\":\"state\",\"last_response_id\":\"r\"}\n");
    let items = collect_timeline_items("/x", &vec![a]);
    assert_eq!(items.len(), 1);
    assert_eq!(items[0].description, None);
    assert_eq!(items[0].sort_key, 5);
    assert!(!items[0].cwd_match);
}

#[test]
fn a_rollout_without_state_records_shows_the_time_of_the_file() {
    let a = file("/s/rollout-1-A.jsonl", "{\"type\":\"message\",\"role\":\"user\",\"content\":[{\"text\":\"hi there\"}]}\n");
    let items = collect_timeline_items("/x", &vec![a]);
    assert_eq!(items.len(), 1);
    assert_eq!(items[0].description, Some("2024-01-01 00:00  \u{2022}  hi there".to_string()));
    assert_eq!(items[0].name, "A [step 0]");
}

#[test]
fn a_file_that_could_not_be_read_has_no_entries() {
    let unread = SessionFile {
        path: "/s/rollout-1-A.jsonl".to_string(),
        text: None,
        mtime_ms: 1,
        mtime_display: String::new(),
    };
    assert!(collect_timeline_items("/x", &vec![unread]).is_empty());
    assert!(collect_timeline_items("/x", &Vec::new()).is_empty());
}

#[test]
fn entries_of_equal_rank_keep_the_order_in_which_they_came() {
    let a = file("/s/rollout-1-A.jsonl", &(state("a1", 100, "") + &state("a2", 100, "")));
    let b = file("/s/rollout-1-B.jsonl", &state("b1", 100, ""));
    let items = collect_timeline_items("/x", &vec![a, b]);
    let names: Vec<&str> = items.iter().map(|i| i.name.as_str()).collect();
    assert_eq!(names, vec!["A [step 0]", "A [step 1]", "B [step 0]"]);
}

#[test]
fn the_timeline_orders_as_a_stable_sort_does() {
    let mut files = Vec::new();
    let mut expected: Vec<(bool, i64, String)> = Vec::new();
    let times = [50i64, 10, 40, 10, 30, 50, 20];
    for (n, t) in times.iter().enumerate() {
        let cwd = if n % 2 == 0 { "/x/sub" } else { "/other" };
        let path = format!("/s/rollout-1-s{n}.jsonl");
        files.push(file(&path, &(shell_call(cwd) + &state("a", *t, "") + &state("b", *t + 5, ""))));
        expected.push((n % 2 == 0, *t, format!("s{n} [step 0]")));
        expected.push((n % 2 == 0, *t + 5, format!("s{n} [step 1]")));
    }
    expected.sort_by(|a, b| match b.0.cmp(&a.0) {
        std::cmp::Ordering::Equal => b.1.cmp(&a.1),
        other => other,
    });
    let items = collect_timeline_items("/x", &files);
    let got: Vec<(bool, i64, String)> =
        items.iter().map(|i| (i.cwd_match, i.sort_key, i.name.clone())).collect();
    assert_eq!(got, expected);
}

#[test]
fn shorten_path_keeps_the_last_two_components() {
    for path in ["/a/b/c", "a/b/c/d", "/a", "a", "", "/", "./a/b", "a/./b/", "a//b///c", "/a/b/", "../x", ".", "a/.."] {
        let comps: Vec<&str> = std::path::Path::new(path)
            .components()
            .filter_map(|c| c.as_os_str().to_str())
            .collect();
        let expected = if comps.len() <= 2 {
            comps.join("/")
        } else {
            comps[comps.len() - 2..].join("/")
        };
        assert_eq!(shorten_path(path), expected, "for {path:?}");
    }
    assert_eq!(shorten_path("/home/u/work/project"), "work/project");
    assert_eq!(shorten_path("/a"), "//a");
}

#[test]
fn paths_match_where_one_begins_the_other() {
    let paths = ["/x", "/x/y", "/x/yz", "/xy", "x", "x/y", "", "/", "/x/", "/x/./y", "./x", "//x/y", "/x/y/z"];
    for a in paths {
        for b in paths {
            let pa = std::path::Path::new(a);
            let pb = std::path::Path::new(b);
            let expected = pa.starts_with(pb) || pb.starts_with(pa);
            assert_eq!(paths_match(a, b), expected, "for {a:?} and {b:?}");
        }
    }
    assert!(paths_match("/x/project", "/x"));
    assert!(!paths_match("/x/project", "/x/pro"));
}
