//! The connection of the embedded server: what it does with each line that
//! it reads. A line that is no JSON-RPC message is answered with a parse
//! error, and the connection stays open.

use crate::json::{field, parsed, text_field, Json, JsonValue};
use crate::text::{push_str, to_chars, trim};
use vstd::prelude::*;

verus! {

/// The integer that a number of a JSON document is, where it is an integer
/// that fits into 64 bits with a sign.
pub uninterp spec fn integer_of(n: serde_json::Number) -> Option<i64>;

/// `serde_json::Number::as_i64`: the number as an integer of 64 bits with a
/// sign, where it is one.
#[verifier::external_body]
fn number_as_i64(n: &serde_json::Number) -> (r: Option<i64>)
    ensures
        r == integer_of(*n),
{
    n.as_i64()
}

/// The kinds of JSON-RPC messages.
#[derive(Clone, Copy, Debug, PartialEq, Eq, Structural)]
pub enum MessageKind {
    /// A call that awaits a response.
    Request,
    /// A call that awaits none.
    Notification,
    /// A result for a request.
    Response,
    /// An error for a request.
    Error,
}

/// The code of a JSON-RPC parse error.
pub const PARSE_ERROR: i64 = -32700;

/// A document has a request id where its `id` is a string or an integer.
pub open spec fn has_id(doc: JsonValue) -> bool {
    match field(doc, "id"@) {
        Some(JsonValue::Str(_)) => true,
        Some(JsonValue::Number(n)) => integer_of(n) is Some,
        _ => false,
    }
}

/// A document is an error object where it has an integer `code` and a
/// string `message`.
pub open spec fn is_error_object(doc: JsonValue) -> bool {
    (match field(doc, "code"@) {
        Some(JsonValue::Number(n)) => integer_of(n) is Some,
        _ => false,
    }) && text_field(doc, "message"@) is Some
}

/// The kind of JSON-RPC message that a document is. A message names the
/// protocol in `jsonrpc`. With a method it is a request where it has an id
/// and a notification where it has none; else, with an id, it is a response
/// where it has a result and an error where it has an error object.
pub open spec fn message_kind(doc: JsonValue) -> Option<MessageKind> {
    if text_field(doc, "jsonrpc"@) is None {
        None
    } else if text_field(doc, "method"@) is Some {
        if has_id(doc) {
            Some(MessageKind::Request)
        } else {
            Some(MessageKind::Notification)
        }
    } else if !has_id(doc) {
        None
    } else if field(doc, "result"@) is Some {
        Some(MessageKind::Response)
    } else if field(doc, "error"@) is Some && is_error_object(field(doc, "error"@)->0) {
        Some(MessageKind::Error)
    } else {
        None
    }
}

/// What a connection does with a line.
pub ghost enum FrameActionView {
    /// Nothing: the line is blank.
    Ignore,
    /// It hands the message to the processor.
    Forward { kind: MessageKind, document: JsonValue },
    /// It answers with an error and stays open.
    Reply { id: Seq<char>, code: i64, message: Seq<char> },
}

/// The message of the parse error for a line that is JSON but no message.
pub open spec fn no_message_text() -> Seq<char> {
    "parse error: data did not match any variant of untagged enum JSONRPCMessage"@
}

/// What a connection does with a line: a blank line is passed over, a
/// message goes to the processor, and any other line is answered with a
/// parse error under the id `parse`.
pub open spec fn frame_action(line: Seq<char>) -> FrameActionView {
    if trim(line).len() == 0 {
        FrameActionView::Ignore
    } else {
        match parsed(line) {
            Ok(doc) => match message_kind(doc) {
                Some(kind) => FrameActionView::Forward { kind, document: doc },
                None => FrameActionView::Reply {
                    id: "parse"@,
                    code: PARSE_ERROR,
                    message: no_message_text(),
                },
            },
            Err(why) => FrameActionView::Reply {
                id: "parse"@,
                code: PARSE_ERROR,
                message: "parse error: "@ + why,
            },
        }
    }
}

/// An error that answers a request.
#[derive(Debug, PartialEq, Eq)]
pub struct ErrorReply {
    /// The id of the request that is answered.
    pub id: String,
    /// The code of the error.
    pub code: i64,
    /// The message of the error.
    pub message: String,
}

/// What a connection does with a line.
#[derive(Debug, PartialEq, Eq)]
pub enum FrameAction {
    /// Nothing: the line is blank.
    Ignore,
    /// It hands the message to the processor.
    Forward { kind: MessageKind, document: Json },
    /// It answers with an error and stays open.
    Reply(ErrorReply),
}

impl View for FrameAction {
    type V = FrameActionView;

    open spec fn view(&self) -> FrameActionView {
        match self {
            FrameAction::Ignore => FrameActionView::Ignore,
            FrameAction::Forward { kind, document } => FrameActionView::Forward {
                kind: *kind,
                document: document@,
            },
            FrameAction::Reply(e) => FrameActionView::Reply {
                id: e.id@,
                code: e.code,
                message: e.message@,
            },
        }
    }
}

/// Whether a document has a request id.
pub fn id_present(doc: &Json) -> (r: bool)
    ensures
        r == has_id(doc@),
{
    match doc.get("id") {
        Some(Json::Str(_)) => true,
        Some(Json::Number(n)) => number_as_i64(n).is_some(),
        _ => false,
    }
}

/// Whether a document is an error object.
pub fn error_object(doc: &Json) -> (r: bool)
    ensures
        r == is_error_object(doc@),
{
    let coded = match doc.get("code") {
        Some(Json::Number(n)) => number_as_i64(n).is_some(),
        _ => false,
    };
    let worded = match doc.get("message") {
        Some(m) => m.as_str().is_some(),
        None => false,
    };
    coded && worded
}

/// The kind of JSON-RPC message that a document is.
pub fn classify(doc: &Json) -> (r: Option<MessageKind>)
    ensures
        r == message_kind(doc@),
{
    let named = match doc.get("jsonrpc") {
        Some(v) => v.as_str().is_some(),
        None => false,
    };
    if !named {
        return None;
    }
    let called = match doc.get("method") {
        Some(v) => v.as_str().is_some(),
        None => false,
    };
    if called {
        if id_present(doc) {
            return Some(MessageKind::Request);
        }
        return Some(MessageKind::Notification);
    }
    if !id_present(doc) {
        return None;
    }
    if doc.get("result").is_some() {
        return Some(MessageKind::Response);
    }
    match doc.get("error") {
        Some(e) => if error_object(e) {
            Some(MessageKind::Error)
        } else {
            None
        },
        None => None,
    }
}

/// The reply to a line that is no message.
fn parse_error(why: &str) -> (r: FrameAction)
    ensures
        r@ == (FrameActionView::Reply {
            id: "parse"@,
            code: PARSE_ERROR,
            message: "parse error: "@ + why@,
        }),
{
    let mut id = String::new();
    push_str(&mut id, "parse");
    let mut message = String::new();
    push_str(&mut message, "parse error: ");
    push_str(&mut message, why);
    FrameAction::Reply(ErrorReply { id, code: PARSE_ERROR, message })
}

/// What the connection does with a line that it read.
pub fn on_line(line: &str) -> (r: FrameAction)
    ensures
        r@ == frame_action(line@),
{
    let v = to_chars(line);
    assert(v@.subrange(0, v.len() as int) == v@);
    let bounds = crate::text::trim_bounds(&v, 0, v.len());
    if bounds.0 == bounds.1 {
        return FrameAction::Ignore;
    }
    match crate::json::parse(line) {
        Ok(document) => match classify(&document) {
            Some(kind) => FrameAction::Forward { kind, document },
            None => {
                proof {
                    reveal_strlit(
                        "parse error: data did not match any variant of untagged enum JSONRPCMessage",
                    );
                    reveal_strlit("parse error: ");
                    reveal_strlit("data did not match any variant of untagged enum JSONRPCMessage");
                    assert("parse error: "@ + "data did not match any variant of untagged enum JSONRPCMessage"@
                        =~= no_message_text());
                }
                parse_error("data did not match any variant of untagged enum JSONRPCMessage")
            },
        },
        Err(why) => parse_error(why.as_str()),
    }
}

/// What a connection does after it tried to read a line: it ends at the
/// end of the input and where reading failed, and goes on with any line.
pub fn connection_goes_on(read: &Result<usize, ()>) -> (r: bool)
    ensures
        r == (read matches Ok(n) && n > 0),
{
    match read {
        Ok(n) => *n > 0,
        Err(_) => false,
    }
}

} // verus!
