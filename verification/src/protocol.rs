//! JSON-RPC 2.0 envelopes for the MCP stdio transport: classifying one
//! parsed inbound line, and building success and error responses. The line
//! is read and parsed, and the response written, by the caller; here only
//! values are examined and built.

use vstd::prelude::*;
use crate::json::{Json, member, string_of, is_integer, member_is, member_is_string, take_members};

verus! {

/// The line wasn't valid JSON at all.
pub const PARSE_ERROR: i64 = -32700;
/// The line was valid JSON but not a well-formed request or notification.
pub const INVALID_REQUEST: i64 = -32600;
/// `method` doesn't name anything this server handles.
pub const METHOD_NOT_FOUND: i64 = -32601;
/// A known method's `params` or `arguments` were missing or the wrong shape.
pub const INVALID_PARAMS: i64 = -32602;

/// One inbound request or notification. `id` is `None` exactly when the
/// object had no "id" member: a notification, which never gets a response.
/// A present `null` id is `Some(Json::Null)`.
#[derive(Debug)]
pub struct Message {
    pub id: Option<Json>,
    pub method: String,
    pub params: Json,
}

/// What one inbound line turned out to be.
#[derive(Debug)]
pub enum ParseOutcome {
    Message(Message),
    /// An object without a string "method"; `id` is its "id" member, if any.
    Invalid { id: Option<Json> },
    /// Valid JSON, but not an object (a batch array, a bare string, ...).
    NotAnObject,
    /// Not valid JSON.
    ParseError,
}

/// `params` of a message: the "params" member, or `null` when absent.
pub open spec fn params_or_null(p: Option<Json>) -> Json {
    match p {
        Some(v) => v,
        None => Json::Null,
    }
}

/// `r` is what a line that parsed to `parsed` (`None`: did not parse)
/// amounts to.
pub open spec fn classifies(parsed: Option<Json>, r: ParseOutcome) -> bool {
    match parsed {
        None => r is ParseError,
        Some(Json::Object(entries)) => {
            let id = member(entries@, "id"@);
            match string_of(member(entries@, "method"@)) {
                Some(method) => r matches ParseOutcome::Message(m) && m.id == id && m.method@
                    == method && m.params == params_or_null(member(entries@, "params"@)),
                None => r matches ParseOutcome::Invalid { id: i } && i == id,
            }
        },
        Some(_) => r is NotAnObject,
    }
}

/// Classifies one parsed line (`None` when it was not valid JSON).
pub fn classify(parsed: Option<Json>) -> (r: ParseOutcome)
    ensures
        classifies(parsed, r),
{
    match parsed {
        None => ParseOutcome::ParseError,
        Some(Json::Object(entries)) => {
            let ghost all = entries@;
            let keys: Vec<&str> = vec!["id", "method", "params"];
            proof {
                reveal_strlit("id");
                reveal_strlit("method");
                reveal_strlit("params");
                assert(keys@[0]@.len() == 2 && keys@[1]@.len() == 6 && keys@[2]@.len() == 6);
                assert(keys@[0]@ != keys@[1]@);
                assert(keys@[0]@ != keys@[2]@);
                assert(keys@[1]@[0] != keys@[2]@[0]);
                assert(keys@[1]@ != keys@[2]@);
            }
            let mut slots = take_members(entries, keys.as_slice());
            proof {
                assert(slots@[0] == member(all, "id"@));
                assert(slots@[1] == member(all, "method"@));
                assert(slots@[2] == member(all, "params"@));
            }
            let params = slots.pop().unwrap();
            let method = slots.pop().unwrap();
            let id = slots.pop().unwrap();
            match method {
                Some(Json::Str(name)) => ParseOutcome::Message(
                    Message {
                        id,
                        method: name,
                        params: match params {
                            Some(p) => p,
                            None => Json::Null,
                        },
                    },
                ),
                _ => ParseOutcome::Invalid { id },
            }
        },
        Some(_) => ParseOutcome::NotAnObject,
    }
}

/// `r` is the success response `{"jsonrpc": "2.0", "id": id, "result": result}`.
pub open spec fn is_response(r: Json, id: Json, result: Json) -> bool {
    r matches Json::Object(e) && e@.len() == 3 && member_is_string(e@, 0, "jsonrpc"@, "2.0"@)
        && member_is(e@, 1, "id"@, id) && member_is(e@, 2, "result"@, result)
}

/// `r` is the error response
/// `{"jsonrpc": "2.0", "id": id, "error": {"code": code, "message": message}}`.
pub open spec fn is_error_response(r: Json, id: Json, code: int, message: Seq<char>) -> bool {
    r matches Json::Object(e) && e@.len() == 3 && member_is_string(e@, 0, "jsonrpc"@, "2.0"@)
        && member_is(e@, 1, "id"@, id) && e@[2].0@ == "error"@ && (e@[2].1 matches Json::Object(
        f,
    ) && f@.len() == 2 && f@[0].0@ == "code"@ && is_integer(f@[0].1, code) && member_is_string(
        f@,
        1,
        "message"@,
        message,
    ))
}

/// A success response.
pub fn response(id: Json, result: Json) -> (r: Json)
    ensures
        is_response(r, id, result),
{
    let mut e: Vec<(String, Json)> = Vec::new();
    e.push((String::from_str("jsonrpc"), Json::text("2.0")));
    e.push((String::from_str("id"), id));
    e.push((String::from_str("result"), result));
    Json::Object(e)
}

/// An error response. Protocol-level errors only: a tool that ran and
/// failed answers with a success response whose result says `isError`.
pub fn error_response(id: Json, code: i64, message: String) -> (r: Json)
    ensures
        is_error_response(r, id, code as int, message@),
{
    let mut f: Vec<(String, Json)> = Vec::new();
    f.push((String::from_str("code"), Json::integer(code)));
    f.push((String::from_str("message"), Json::Str(message)));
    let mut e: Vec<(String, Json)> = Vec::new();
    e.push((String::from_str("jsonrpc"), Json::text("2.0")));
    e.push((String::from_str("id"), id));
    e.push((String::from_str("error"), Json::Object(f)));
    Json::Object(e)
}

} // verus!
