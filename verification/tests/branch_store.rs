use conversation_core::branches::{
    branch_notice, branch_session, branch_session_with, branch_with, checkout_notice,
    checkout_session, checkout_session_with, checkout_with, load_index,
};
use conversation_core::error::SessionError;
use conversation_core::json::{parse, to_pretty, Json};

const ROLLOUT: &str = "/home/u/.codex/sessions/rollout-2024-01-02T03-04-05-abc123.jsonl";
const NOW: &str = "2024-05-06T07:08:09.123456+00:00";

fn as_value(text: &str) -> serde_json::Value {
    serde_json::from_str(text).unwrap()
}

fn text_at<'a>(v: &'a serde_json::Value, key: &str) -> &'a str {
    v.get(key).and_then(|x| x.as_str()).unwrap()
}

#[test]
fn the_first_branch_makes_the_index() {
    let text = branch_session_with(None, ROLLOUT, "exp", "r2", 77, NOW).ok().unwrap();
    let v = as_value(&text);
    assert_eq!(text_at(&v, "sessionId"), "abc123");
    assert_eq!(text_at(&v, "head"), "exp");
    assert_eq!(text_at(&v, "updatedAt"), NOW);
    let branches = v.get("branches").and_then(|b| b.as_array()).unwrap();
    assert_eq!(branches.len(), 1);
    assert_eq!(text_at(&branches[0], "name"), "exp");
    assert_eq!(text_at(&branches[0], "baseResponseId"), "r2");
    assert_eq!(text_at(&branches[0], "tipResponseId"), "r2");
    assert_eq!(text_at(&branches[0], "branchId"), "b_77");
    assert_eq!(text_at(&branches[0], "createdAt"), NOW);
    assert!(chrono::DateTime::parse_from_rfc3339(text_at(&v, "updatedAt")).is_ok());
    assert_eq!(text, serde_json::to_string_pretty(&v).unwrap());
}

#[test]
fn a_second_branch_of_the_same_name_fails_and_gives_nothing_to_write() {
    let first = branch_session_with(None, ROLLOUT, "exp", "r2", 1, NOW).ok().unwrap();
    match branch_session_with(Some(&first), ROLLOUT, "exp", "r2", 2, NOW) {
        Err(e) => {
            assert!(matches!(&e, SessionError::BranchExists(n) if n == "exp"));
            assert_eq!(e.message(), "Branch already exists: exp");
        }
        Ok(text) => panic!("wrote {text}"),
    }
}

#[test]
fn a_failed_branch_leaves_the_index_as_it_was() {
    let first = branch_session_with(None, ROLLOUT, "exp", "r2", 1, NOW).ok().unwrap();
    let mut index = load_index(Some(&first));
    let before = to_pretty(&index);
    assert!(branch_with(&mut index, "abc123", "exp", "r9", 5, "later").is_err());
    assert_eq!(to_pretty(&index), before);
    assert_eq!(before, first);
}

#[test]
fn branches_keep_their_order_and_the_last_is_the_head() {
    let one = branch_session_with(None, ROLLOUT, "a", "r1", 4294967295, NOW).ok().unwrap();
    let two = branch_session_with(Some(&one), "other-name-zzz.jsonl", "b", "r2", 0, "t2").ok().unwrap();
    let v = as_value(&two);
    assert_eq!(text_at(&v, "sessionId"), "abc123");
    assert_eq!(text_at(&v, "head"), "b");
    assert_eq!(text_at(&v, "updatedAt"), "t2");
    let branches = v.get("branches").and_then(|b| b.as_array()).unwrap();
    assert_eq!(branches.len(), 2);
    assert_eq!(text_at(&branches[0], "name"), "a");
    assert_eq!(text_at(&branches[0], "branchId"), "b_4294967295");
    assert_eq!(text_at(&branches[0], "createdAt"), NOW);
    assert_eq!(text_at(&branches[1], "name"), "b");
    assert_eq!(text_at(&branches[1], "branchId"), "b_0");
}

#[test]
fn checkout_after_branches_makes_any_of_them_the_head() {
    let mut text = branch_session_with(None, ROLLOUT, "a", "r1", 1, NOW).ok().unwrap();
    for (n, name) in ["b", "c", "d"].iter().enumerate() {
        text = branch_session_with(Some(&text), ROLLOUT, name, "r1", n as u32, NOW).ok().unwrap();
    }
    for name in ["a", "c", "d", "b"] {
        let after = checkout_session_with(Some(&text), name, "t9").ok().unwrap();
        let v = as_value(&after);
        assert_eq!(text_at(&v, "head"), name);
        assert_eq!(text_at(&v, "updatedAt"), "t9");
        assert_eq!(v.get("branches").and_then(|b| b.as_array()).unwrap().len(), 4);
    }
}

#[test]
fn checkout_without_an_index_file_is_an_error() {
    match checkout_session_with(None, "exp", NOW) {
        Err(e) => {
            assert!(matches!(e, SessionError::NoBranches));
            assert_eq!(e.message(), "No branches found for this session");
        }
        Ok(text) => panic!("wrote {text}"),
    }
}

#[test]
fn checkout_of_an_unknown_branch_is_an_error() {
    let text = branch_session_with(None, ROLLOUT, "exp", "r2", 1, NOW).ok().unwrap();
    for index in [text.as_str(), "{}", "not json", "[]", "{\"branches\":{}}", "{\"branches\":[{\"name\":1}]}"] {
        match checkout_session_with(Some(index), "other", NOW) {
            Err(e) => {
                assert!(matches!(&e, SessionError::BranchNotFound(n) if n == "other"));
                assert_eq!(e.message(), "Branch not found: other");
            }
            Ok(text) => panic!("wrote {text}"),
        }
    }
}

#[test]
fn an_index_that_is_no_json_counts_as_empty() {
    let text = branch_session_with(Some("{ broken"), ROLLOUT, "exp", "r2", 3, NOW).ok().unwrap();
    let v = as_value(&text);
    assert_eq!(text_at(&v, "sessionId"), "abc123");
    assert_eq!(v.get("branches").and_then(|b| b.as_array()).unwrap().len(), 1);
    let from_null = branch_session_with(Some("null"), ROLLOUT, "exp", "r2", 3, NOW).ok().unwrap();
    assert_eq!(from_null, text);
}

#[test]
fn other_fields_of_the_index_are_kept() {
    let index = "{\"sessionId\":\"kept\",\"note\":{\"n\":[1,2.5,-3,true,null]},\"branches\":[{\"name\":\"old\",\"extra\":7}],\"head\":\"old\"}";
    let text = branch_session_with(Some(index), ROLLOUT, "new", "r3", 9, NOW).ok().unwrap();
    let v = as_value(&text);
    assert_eq!(text_at(&v, "sessionId"), "kept");
    assert_eq!(v.get("note"), as_value(index).get("note"));
    let branches = v.get("branches").and_then(|b| b.as_array()).unwrap();
    assert_eq!(branches.len(), 2);
    assert_eq!(branches[0], as_value("{\"name\":\"old\",\"extra\":7}"));
    assert_eq!(text_at(&v, "head"), "new");
}

#[test]
fn a_malformed_index_is_an_error() {
    for index in ["[]", "3", "\"text\"", "true", "{\"branches\":{}}", "{\"branches\":\"x\"}"] {
        let r = branch_session_with(Some(index), ROLLOUT, "exp", "r2", 1, NOW);
        assert!(matches!(r, Err(SessionError::MalformedIndex)), "for {index}");
    }
}

#[test]
fn a_rollout_name_without_a_session_id_gives_an_empty_one() {
    let text = branch_session_with(None, "notes", "exp", "r2", 1, NOW).ok().unwrap();
    assert_eq!(text_at(&as_value(&text), "sessionId"), "");
}

#[test]
fn checkout_with_changes_only_head_and_time() {
    let mut index = parse("{\"branches\":[{\"name\":\"a\"},{\"name\":\"b\"}],\"head\":\"a\",\"k\":1}").ok().unwrap();
    assert!(checkout_with(&mut index, "b", "t").is_ok());
    let v = as_value(&to_pretty(&index));
    assert_eq!(v, as_value("{\"branches\":[{\"name\":\"a\"},{\"name\":\"b\"}],\"head\":\"b\",\"k\":1,\"updatedAt\":\"t\"}"));
    assert!(checkout_with(&mut index, "zz", "t2").is_err());
    assert_eq!(as_value(&to_pretty(&index)), v);
}

#[test]
fn json_round_trips_through_the_library_type() {
    let text = "{\"a\":[1,2.5,-3,1e300,\"x\\ny\",null,true,{\"b\":{}}],\"\u{e9}\":\"\u{2026}\"}";
    let j = parse(text).ok().unwrap();
    assert_eq!(as_value(&to_pretty(&j)), as_value(text));
    assert_eq!(to_pretty(&j), serde_json::to_string_pretty(&as_value(text)).unwrap());
    assert!(matches!(j, Json::Object(_)));
}

#[test]
fn the_later_of_two_fields_with_one_key_counts() {
    let j = Json::Object(vec![
        ("k".to_string(), Json::Str("first".to_string())),
        ("a".to_string(), Json::Bool(true)),
        ("k".to_string(), Json::Str("second".to_string())),
    ]);
    assert_eq!(j.get("k").and_then(|x| x.as_str()), Some("second"));
    assert_eq!(as_value(&to_pretty(&j)), as_value("{\"a\":true,\"k\":\"second\"}"));
}

#[test]
fn parse_errors_carry_the_message_of_the_parser() {
    let expected = serde_json::from_str::<serde_json::Value>("{\"a\":").unwrap_err().to_string();
    assert_eq!(parse("{\"a\":").err(), Some(expected));
}

#[test]
fn notices_name_the_branch() {
    assert_eq!(branch_notice("exp", "r2"), "Created branch 'exp' at r2");
    assert_eq!(checkout_notice("exp"), "Checked out branch 'exp'.");
}

#[test]
fn a_branch_gets_a_random_id_and_the_time_of_the_clock() {
    let before = chrono::Utc::now();
    let text = branch_session(None, ROLLOUT, "exp", "r2").ok().unwrap();
    let after = chrono::Utc::now();
    let v = as_value(&text);
    assert_eq!(text_at(&v, "head"), "exp");
    let branches = v.get("branches").and_then(|b| b.as_array()).unwrap();
    assert_eq!(branches.len(), 1);
    assert_eq!(text_at(&branches[0], "name"), "exp");
    assert_eq!(text_at(&branches[0], "baseResponseId"), "r2");
    assert_eq!(text_at(&branches[0], "tipResponseId"), "r2");
    let id = text_at(&branches[0], "branchId");
    assert!(id.starts_with("b_"));
    assert!(id[2..].parse::<u32>().is_ok());
    assert_eq!(text_at(&branches[0], "createdAt"), text_at(&v, "updatedAt"));
    let updated = chrono::DateTime::parse_from_rfc3339(text_at(&v, "updatedAt")).unwrap();
    assert!(before <= updated && updated <= after);
    assert!(matches!(
        branch_session(Some(&text), ROLLOUT, "exp", "r3"),
        Err(SessionError::BranchExists(n)) if n == "exp"
    ));
}

#[test]
fn a_checkout_takes_the_time_of_the_clock() {
    let first = branch_session(None, ROLLOUT, "a", "r1").ok().unwrap();
    let second = branch_session(Some(&first), ROLLOUT, "b", "r2").ok().unwrap();
    let before = chrono::Utc::now();
    let text = checkout_session(Some(&second), "a").ok().unwrap();
    let after = chrono::Utc::now();
    let v = as_value(&text);
    assert_eq!(text_at(&v, "head"), "a");
    let updated = chrono::DateTime::parse_from_rfc3339(text_at(&v, "updatedAt")).unwrap();
    assert!(before <= updated && updated <= after);
    assert!(matches!(checkout_session(None, "a"), Err(SessionError::NoBranches)));
    assert!(matches!(
        checkout_session(Some(&second), "zz"),
        Err(SessionError::BranchNotFound(n)) if n == "zz"
    ));
}
