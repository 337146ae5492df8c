use conversation_core::error::SessionError;
use conversation_core::rollout::{enumerate, is_rollout_file, session_id_from_filename};
use conversation_core::sessions::resolve_target_to_path;

fn owned(items: &[&str]) -> Vec<String> {
    items.iter().map(|s| s.to_string()).collect()
}

#[test]
fn session_id_is_what_follows_the_last_hyphen() {
    assert_eq!(
        session_id_from_filename("rollout-2024-01-02T03-04-05-abc123.jsonl"),
        Some("abc123".to_string())
    );
    assert_eq!(
        session_id_from_filename("/home/u/.codex/sessions/2024/01/rollout-2024-01-02T03-04-05-abc123.jsonl"),
        Some("abc123".to_string())
    );
}

#[test]
fn session_id_needs_a_hyphen() {
    assert_eq!(session_id_from_filename("notes.jsonl"), None);
    assert_eq!(session_id_from_filename(""), None);
    assert_eq!(session_id_from_filename("a-b/notes"), None);
}

#[test]
fn session_id_leaves_every_trailing_jsonl_aside() {
    assert_eq!(session_id_from_filename("rollout-x.jsonl.jsonl"), Some("x".to_string()));
    assert_eq!(session_id_from_filename("rollout-x"), Some("x".to_string()));
    assert_eq!(session_id_from_filename("rollout-.jsonl"), Some(String::new()));
}

#[test]
fn rollout_files_are_told_by_their_name() {
    assert!(is_rollout_file("/s/rollout-2024-01-02T03-04-05-abc123.jsonl"));
    assert!(is_rollout_file("rollout-.jsonl"));
    assert!(!is_rollout_file("/s/rollout-1.json"));
    assert!(!is_rollout_file("/s/xrollout-1.jsonl"));
    assert!(!is_rollout_file("/rollout-dir/notes.jsonl"));
    assert!(!is_rollout_file("rollout.jsonl"));
}

#[test]
fn enumerate_keeps_rollouts_and_sorts_them() {
    let found = owned(&[
        "/s/2/rollout-b-2.jsonl",
        "/s/readme.md",
        "/s/1/rollout-a-1.jsonl",
        "/s/2/rollout-a-1.jsonl",
        "/s/1/resume-index.json",
    ]);
    let listing = enumerate(&found);
    assert_eq!(
        listing,
        owned(&["/s/1/rollout-a-1.jsonl", "/s/2/rollout-a-1.jsonl", "/s/2/rollout-b-2.jsonl"])
    );
}

#[test]
fn enumerate_does_not_depend_on_the_order_of_the_walk() {
    let one = owned(&["/s/rollout-c-3.jsonl", "/s/rollout-a-1.jsonl", "/s/x", "/s/rollout-b-2.jsonl"]);
    let other = owned(&["/s/rollout-b-2.jsonl", "/s/x", "/s/rollout-c-3.jsonl", "/s/rollout-a-1.jsonl"]);
    assert_eq!(enumerate(&one), enumerate(&other));
    assert_eq!(enumerate(&enumerate(&one)), enumerate(&one));
}

#[test]
fn enumerate_of_nothing_is_empty() {
    assert_eq!(enumerate(&Vec::new()), Vec::<String>::new());
}

#[test]
fn enumerate_orders_by_code_point() {
    let found = owned(&["rollout-b.jsonl", "rollout-B.jsonl", "rollout-a.jsonl", "rollout-\u{e9}.jsonl"]);
    let mut expected = found.clone();
    expected.sort();
    assert_eq!(enumerate(&found), expected);
}

#[test]
fn a_target_that_exists_is_the_path() {
    let files = owned(&["/s/rollout-2024-a-abc.jsonl"]);
    let r = resolve_target_to_path("some/file.jsonl", true, &files);
    assert_eq!(r.ok(), Some("some/file.jsonl".to_string()));
}

#[test]
fn a_session_id_resolves_to_its_last_rollout() {
    let files = owned(&[
        "/s/rollout-2024-01-02T03-04-05-abc.jsonl",
        "/s/rollout-2024-03-02T03-04-05-abc.jsonl",
        "/s/rollout-2024-02-02T03-04-05-abc.jsonl",
        "/s/rollout-2024-09-02T03-04-05-xyz.jsonl",
        "/s/notes-abc.jsonl",
    ]);
    let r = resolve_target_to_path("abc", false, &files);
    assert_eq!(r.ok(), Some("/s/rollout-2024-03-02T03-04-05-abc.jsonl".to_string()));
}

#[test]
fn resolving_the_session_id_of_the_last_rollout_gives_it_back() {
    let files = owned(&[
        "/s/rollout-2024-01-02T03-04-05-abc.jsonl",
        "/s/rollout-2024-03-02T03-04-05-abc.jsonl",
    ]);
    let p = "/s/rollout-2024-03-02T03-04-05-abc.jsonl";
    let id = session_id_from_filename(p).unwrap();
    assert_eq!(resolve_target_to_path(&id, false, &files).ok(), Some(p.to_string()));
}

#[test]
fn an_unknown_session_id_is_an_error() {
    let files = owned(&["/s/rollout-2024-01-02T03-04-05-abc.jsonl"]);
    match resolve_target_to_path("nope", false, &files) {
        Err(e) => {
            assert!(matches!(&e, SessionError::NoRolloutForSession(id) if id == "nope"));
            assert_eq!(e.message(), "No rollout found for session id: nope");
        }
        Ok(p) => panic!("resolved to {p}"),
    }
}

#[test]
fn error_messages_are_one_line_each() {
    assert_eq!(
        SessionError::RolloutNotFound("/x/y.jsonl".to_string()).message(),
        "rollout file not found: /x/y.jsonl"
    );
    assert_eq!(SessionError::NoResponseAtStep(0).message(), "No response id found at step 0");
    assert_eq!(SessionError::NoResponseAtStep(1203).message(), "No response id found at step 1203");
    assert_eq!(SessionError::BranchExists("exp".to_string()).message(), "Branch already exists: exp");
    assert_eq!(SessionError::BranchNotFound("exp".to_string()).message(), "Branch not found: exp");
    assert_eq!(SessionError::NoBranches.message(), "No branches found for this session");
}

fn id_by_components(path: &str) -> Option<String> {
    let name = std::path::Path::new(path).file_name()?.to_str()?;
    let stem = name.trim_end_matches(".jsonl");
    let cut = stem.rfind('-')?;
    Some(stem[cut + 1..].to_string())
}

#[test]
fn the_name_of_a_file_is_the_last_component_of_its_path() {
    assert_eq!(session_id_from_filename("s/rollout-1-x.jsonl/"), Some("x".to_string()));
    assert_eq!(session_id_from_filename("s/rollout-1-x.jsonl//."), Some("x".to_string()));
    assert_eq!(session_id_from_filename("s-t/./"), Some("t".to_string()));
    assert_eq!(session_id_from_filename("s-t/.."), None);
    assert_eq!(session_id_from_filename("s-t/../"), None);
    assert_eq!(session_id_from_filename("/"), None);
    assert_eq!(session_id_from_filename("."), None);
    assert!(is_rollout_file("s/rollout-1-x.jsonl/"));
    assert!(is_rollout_file("./rollout-1-x.jsonl/./"));
    assert!(!is_rollout_file("rollout-1-x.jsonl/.."));
    assert!(!is_rollout_file("rollout-1-x.jsonl/x"));
    let paths = [
        "a/rollout-1-x.jsonl/",
        "a/rollout-1-x.jsonl//",
        "a/rollout-1-x.jsonl/.",
        "a-b/..",
        "..",
        ".",
        "/",
        "",
        "a-b/./c-d",
        "a-b//c",
        "./x-y",
        "x-y/../",
        "/x-y",
        "//x-y/",
        "x-y/...",
        ".-",
        "a-b/.c",
    ];
    for path in paths {
        assert_eq!(session_id_from_filename(path), id_by_components(path), "for {path:?}");
        let named = std::path::Path::new(path)
            .file_name()
            .and_then(|n| n.to_str())
            .map(|n| n.starts_with("rollout-") && n.ends_with(".jsonl"))
            .unwrap_or(false);
        assert_eq!(is_rollout_file(path), named, "for {path:?}");
    }
}
