use conversation_core::embedded::{
    classify, connection_goes_on, on_line, ErrorReply, FrameAction, MessageKind, PARSE_ERROR,
};
use conversation_core::json::parse;

fn kind_of(line: &str) -> Option<MessageKind> {
    classify(&parse(line).ok().unwrap())
}

#[test]
fn blank_lines_are_passed_over() {
    for line in ["", "\n", "   \r\n", "\t"] {
        assert_eq!(on_line(line), FrameAction::Ignore, "for {line:?}");
    }
}

#[test]
fn a_line_that_is_no_json_is_answered_with_a_parse_error() {
    let line = "{\"jsonrpc\": \n";
    let why = serde_json::from_str::<serde_json::Value>(line).unwrap_err().to_string();
    assert_eq!(
        on_line(line),
        FrameAction::Reply(ErrorReply {
            id: "parse".to_string(),
            code: -32700,
            message: format!("parse error: {why}"),
        })
    );
    assert_eq!(PARSE_ERROR, -32700);
}

#[test]
fn json_that_is_no_message_is_answered_with_a_parse_error() {
    for line in ["[]\n", "{}\n", "{\"id\":1,\"method\":\"m\"}\n", "{\"jsonrpc\":\"2.0\",\"id\":1}\n", "3"] {
        assert_eq!(
            on_line(line),
            FrameAction::Reply(ErrorReply {
                id: "parse".to_string(),
                code: -32700,
                message: "parse error: data did not match any variant of untagged enum JSONRPCMessage"
                    .to_string(),
            }),
            "for {line:?}"
        );
    }
}

#[test]
fn messages_go_to_the_processor() {
    let line = "{\"jsonrpc\":\"2.0\",\"id\":7,\"method\":\"tools/call\",\"params\":{\"name\":\"codex\"}}\n";
    match on_line(line) {
        FrameAction::Forward { kind, document } => {
            assert_eq!(kind, MessageKind::Request);
            assert_eq!(document, parse(line).ok().unwrap());
            assert_eq!(document.get("method").and_then(|m| m.as_str()), Some("tools/call"));
        }
        other => panic!("{other:?}"),
    }
}

#[test]
fn the_kind_of_a_message_follows_its_fields() {
    assert_eq!(kind_of("{\"jsonrpc\":\"2.0\",\"id\":\"a\",\"method\":\"m\"}"), Some(MessageKind::Request));
    assert_eq!(kind_of("{\"jsonrpc\":\"2.0\",\"id\":-3,\"method\":\"m\"}"), Some(MessageKind::Request));
    assert_eq!(kind_of("{\"jsonrpc\":\"2.0\",\"method\":\"m\"}"), Some(MessageKind::Notification));
    assert_eq!(kind_of("{\"jsonrpc\":\"2.0\",\"id\":1.5,\"method\":\"m\"}"), Some(MessageKind::Notification));
    assert_eq!(kind_of("{\"jsonrpc\":\"2.0\",\"id\":1,\"result\":null}"), Some(MessageKind::Response));
    assert_eq!(
        kind_of("{\"jsonrpc\":\"2.0\",\"id\":1,\"error\":{\"code\":-32601,\"message\":\"no\"}}"),
        Some(MessageKind::Error)
    );
    assert_eq!(kind_of("{\"jsonrpc\":\"2.0\",\"id\":1,\"error\":{\"code\":\"x\",\"message\":\"no\"}}"), None);
    assert_eq!(kind_of("{\"jsonrpc\":\"2.0\",\"id\":1,\"error\":\"no\"}"), None);
    assert_eq!(kind_of("{\"jsonrpc\":\"2.0\",\"result\":1}"), None);
    assert_eq!(kind_of("{\"jsonrpc\":2,\"id\":1,\"method\":\"m\"}"), None);
    assert_eq!(kind_of("{\"jsonrpc\":\"2.0\",\"id\":18446744073709551615,\"result\":1}"), None);
    assert_eq!(kind_of("{\"jsonrpc\":\"2.0\",\"id\":9223372036854775807,\"result\":1}"), Some(MessageKind::Response));
}

#[test]
fn the_connection_goes_on_after_any_line() {
    assert!(connection_goes_on(&Ok(1)));
    assert!(connection_goes_on(&Ok(4096)));
    assert!(!connection_goes_on(&Ok(0)));
    assert!(!connection_goes_on(&Err(())));
}
