//! JSON-RPC dispatch for the MCP tool server. [`Server::handle`] turns one
//! classified inbound line into the [`Action`] to take: a response to
//! write, nothing at all, or a tool to run. Running a
//! tool is the caller's work; [`finish_tool_call`] wraps its outcome into
//! the response. Notifications (no "id") never get a response.

use vstd::prelude::*;
use crate::json::{
    Json, field, string_of, is_empty_object, member, member_is, member_is_string, take_members,
};
use crate::protocol::{
    INVALID_PARAMS, INVALID_REQUEST, METHOD_NOT_FOUND, PARSE_ERROR, Message, ParseOutcome,
    classifies, error_response, is_error_response, response,
};
use crate::text::{decimal, push_decimal, str_eq};
use crate::catalog::{is_tool_schema, listing, tool_schemas};
use crate::tools::{RootDir, ToolCtx, ToolOutcome, is_text_block, text_block};

verus! {

/// The protocol revision this server was built against, and its answer to
/// a client asking for a revision it does not recognize.
pub open spec fn spec_protocol_version() -> Seq<char> {
    "2025-06-18"@
}

/// The revisions this tools-only server serves identically; a recognized
/// requested revision is echoed back.
pub open spec fn supported_version(v: Seq<char>) -> bool {
    v == "2025-06-18"@ || v == "2025-03-26"@ || v == "2024-11-05"@
}

/// The revision answered to a client that asked for `requested`.
pub open spec fn negotiated(requested: Option<Seq<char>>) -> Seq<char> {
    match requested {
        Some(v) => if supported_version(v) {
            v
        } else {
            spec_protocol_version()
        },
        None => spec_protocol_version(),
    }
}

/// The text of an optional string slice.
pub open spec fn opt_view(o: Option<&str>) -> Option<Seq<char>> {
    match o {
        Some(s) => Some(s@),
        None => None,
    }
}

/// The revision to answer to a client that asked for `requested`.
pub fn negotiate_version(requested: Option<&str>) -> (r: &'static str)
    ensures
        r@ == negotiated(opt_view(requested)),
{
    match requested {
        Some(v) => {
            if str_eq(v, "2025-06-18") {
                "2025-06-18"
            } else if str_eq(v, "2025-03-26") {
                "2025-03-26"
            } else if str_eq(v, "2024-11-05") {
                "2024-11-05"
            } else {
                "2025-06-18"
            }
        },
        None => "2025-06-18",
    }
}

/// `r` is the `initialize` result announcing revision `version`:
/// `{"protocolVersion": version, "capabilities": {"tools": {}},
///   "serverInfo": {"name": "cochlea-mcp", "version": "0.1.0"}}`.
pub open spec fn is_initialize_result(r: Json, version: Seq<char>) -> bool {
    r matches Json::Object(e) && e@.len() == 3 && member_is_string(
        e@,
        0,
        "protocolVersion"@,
        version,
    ) && e@[1].0@ == "capabilities"@ && (e@[1].1 matches Json::Object(c) && c@.len() == 1
        && c@[0].0@ == "tools"@ && is_empty_object(c@[0].1)) && e@[2].0@ == "serverInfo"@ && (
    e@[2].1 matches Json::Object(i) && i@.len() == 2 && member_is_string(
        i@,
        0,
        "name"@,
        "cochlea-mcp"@,
    ) && member_is_string(i@, 1, "version"@, "0.1.0"@))
}

/// The result of `initialize` for the given `params`.
pub fn initialize_result(params: &Json) -> (r: Json)
    ensures
        is_initialize_result(r, negotiated(string_of(field(*params, "protocolVersion"@)))),
{
    let requested = match params.get("protocolVersion") {
        Some(v) => v.as_str(),
        None => None,
    };
    let version = negotiate_version(requested);
    let mut caps: Vec<(String, Json)> = Vec::new();
    caps.push((String::from_str("tools"), Json::empty_object()));
    let mut info: Vec<(String, Json)> = Vec::new();
    info.push((String::from_str("name"), Json::text("cochlea-mcp")));
    info.push((String::from_str("version"), Json::text("0.1.0")));
    let mut e: Vec<(String, Json)> = Vec::new();
    e.push((String::from_str("protocolVersion"), Json::text(version)));
    e.push((String::from_str("capabilities"), Json::Object(caps)));
    e.push((String::from_str("serverInfo"), Json::Object(info)));
    Json::Object(e)
}

/// The tools this server runs.
#[derive(PartialEq, Eq, Structural, Clone, Copy, Debug)]
pub enum Tool {
    RenderScore,
    ProbeAudio,
    Spectrogram,
    LintScore,
    ProbeDigest,
    AudioDiff,
    ImportMidi,
    ExportMidi,
    ScoreReference,
    TranscribeAudio,
    LoudnessTimeline,
    BeatGrid,
}

impl Tool {
    /// The tool's name in `tools/list` and `tools/call`.
    pub open spec fn spec_name(self) -> Seq<char> {
        match self {
            Tool::RenderScore => "render_score"@,
            Tool::ProbeAudio => "probe_audio"@,
            Tool::Spectrogram => "spectrogram"@,
            Tool::LintScore => "lint_score"@,
            Tool::ProbeDigest => "probe_digest"@,
            Tool::AudioDiff => "audio_diff"@,
            Tool::ImportMidi => "import_midi"@,
            Tool::ExportMidi => "export_midi"@,
            Tool::ScoreReference => "score_reference"@,
            Tool::TranscribeAudio => "transcribe_audio"@,
            Tool::LoudnessTimeline => "loudness_timeline"@,
            Tool::BeatGrid => "beat_grid"@,
        }
    }

    /// The tool's name.
    pub fn name(self) -> (r: &'static str)
        ensures
            r@ == self.spec_name(),
    {
        match self {
            Tool::RenderScore => "render_score",
            Tool::ProbeAudio => "probe_audio",
            Tool::Spectrogram => "spectrogram",
            Tool::LintScore => "lint_score",
            Tool::ProbeDigest => "probe_digest",
            Tool::AudioDiff => "audio_diff",
            Tool::ImportMidi => "import_midi",
            Tool::ExportMidi => "export_midi",
            Tool::ScoreReference => "score_reference",
            Tool::TranscribeAudio => "transcribe_audio",
            Tool::LoudnessTimeline => "loudness_timeline",
            Tool::BeatGrid => "beat_grid",
        }
    }

    /// The tool called `name`, if there is one.
    pub fn named(name: &str) -> (r: Option<Tool>)
        ensures
            forall|t: Tool| #[trigger] t.spec_name() == name@ <==> r == Some(t),
    {
        let r = if str_eq(name, "render_score") {
            Some(Tool::RenderScore)
        } else if str_eq(name, "probe_audio") {
            Some(Tool::ProbeAudio)
        } else if str_eq(name, "spectrogram") {
            Some(Tool::Spectrogram)
        } else if str_eq(name, "lint_score") {
            Some(Tool::LintScore)
        } else if str_eq(name, "probe_digest") {
            Some(Tool::ProbeDigest)
        } else if str_eq(name, "audio_diff") {
            Some(Tool::AudioDiff)
        } else if str_eq(name, "import_midi") {
            Some(Tool::ImportMidi)
        } else if str_eq(name, "export_midi") {
            Some(Tool::ExportMidi)
        } else if str_eq(name, "score_reference") {
            Some(Tool::ScoreReference)
        } else if str_eq(name, "transcribe_audio") {
            Some(Tool::TranscribeAudio)
        } else if str_eq(name, "loudness_timeline") {
            Some(Tool::LoudnessTimeline)
        } else if str_eq(name, "beat_grid") {
            Some(Tool::BeatGrid)
        } else {
            None
        };
        proof {
            assert forall|t: Tool| #[trigger] t.spec_name() == name@ <==> r == Some(t) by {
                match r {
                    Some(u) => lemma_tool_name_injective(t, u),
                    None => match t {
                        Tool::RenderScore => {},
                        Tool::ProbeAudio => {},
                        Tool::Spectrogram => {},
                        Tool::LintScore => {},
                        Tool::ProbeDigest => {},
                        Tool::AudioDiff => {},
                        Tool::ImportMidi => {},
                        Tool::ExportMidi => {},
                        Tool::ScoreReference => {},
                        Tool::TranscribeAudio => {},
                        Tool::LoudnessTimeline => {},
                        Tool::BeatGrid => {},
                    },
                }
            }
        }
        r
    }
}

/// Different tools have different names.
pub proof fn lemma_tool_name_injective(a: Tool, b: Tool)
    ensures
        a.spec_name() == b.spec_name() ==> a == b,
{
    reveal_strlit("render_score");
    reveal_strlit("probe_audio");
    reveal_strlit("spectrogram");
    reveal_strlit("lint_score");
    reveal_strlit("probe_digest");
    reveal_strlit("audio_diff");
    reveal_strlit("import_midi");
    reveal_strlit("export_midi");
    reveal_strlit("score_reference");
    reveal_strlit("transcribe_audio");
    reveal_strlit("loudness_timeline");
    reveal_strlit("beat_grid");
    if a.spec_name() == b.spec_name() {
        assert(a.spec_name().len() == b.spec_name().len());
        assert(a.spec_name()[0] == b.spec_name()[0]);
    }
}

/// What to do about one inbound line.
#[derive(Debug)]
pub enum Action {
    /// Nothing is written back.
    Silent,
    /// Write this response.
    Reply(Json),
    /// Run `tool` on `args`, then hand `id` and the outcome to
    /// [`finish_tool_call`]. `id` is `None` for a notification: the tool
    /// still runs, and nothing is written back.
    CallTool { id: Option<Json>, tool: Tool, args: Json },
}

/// `r` is a success response to `id` whose result satisfies `ok`.
pub open spec fn is_success_for(r: Json, id: Json, ok: spec_fn(Json) -> bool) -> bool {
    r matches Json::Object(e) && e@.len() == 3 && member_is_string(e@, 0, "jsonrpc"@, "2.0"@)
        && member_is(e@, 1, "id"@, id) && e@[2].0@ == "result"@ && ok(e@[2].1)
}

/// `a` answers the request `id` with a result satisfying `ok`, or does
/// nothing when `id` is absent.
pub open spec fn answered(a: Action, id: Option<Json>, ok: spec_fn(Json) -> bool) -> bool {
    match id {
        None => a is Silent,
        Some(i) => a matches Action::Reply(r) && is_success_for(r, i, ok),
    }
}

/// `a` refuses the request `id` with an error `code` and `message`, or does
/// nothing when `id` is absent.
pub open spec fn refused(a: Action, id: Option<Json>, code: int, message: Seq<char>) -> bool {
    match id {
        None => a is Silent,
        Some(i) => a matches Action::Reply(r) && is_error_response(r, i, code, message),
    }
}

/// The arguments a `tools/call` hands its tool: the "arguments" member of
/// `params`, or `{}`.
pub open spec fn arguments_are(params: Json, args: Json) -> bool {
    match field(params, "arguments"@) {
        Some(x) => args == x,
        None => is_empty_object(args),
    }
}

/// Whether some tool is called `name`.
pub open spec fn is_tool_name(name: Seq<char>) -> bool {
    exists|t: Tool| #[trigger] t.spec_name() == name
}

/// `a` is the action for the request or notification `m`.
pub open spec fn dispatches(m: Message, a: Action) -> bool {
    let method = m.method@;
    if method == "initialize"@ {
        answered(
            a,
            m.id,
            |r: Json| is_initialize_result(r, negotiated(string_of(field(m.params, "protocolVersion"@)))),
        )
    } else if method == "notifications/initialized"@ {
        answered(a, m.id, |r: Json| r is Null)
    } else if method == "ping"@ {
        answered(a, m.id, |r: Json| is_empty_object(r))
    } else if method == "tools/list"@ {
        answered(a, m.id, |r: Json| lists_every_tool(r))
    } else if method == "tools/call"@ {
        match string_of(field(m.params, "name"@)) {
            None => refused(a, m.id, INVALID_PARAMS as int, "tools/call requires a string \"name\""@),
            Some(name) => if is_tool_name(name) {
                a matches Action::CallTool { id, tool, args } && id == m.id && tool.spec_name()
                    == name && arguments_are(m.params, args)
            } else {
                refused(a, m.id, INVALID_PARAMS as int, "unknown tool: "@ + name)
            },
        }
    } else {
        refused(a, m.id, METHOD_NOT_FOUND as int, "method not found: "@ + method)
    }
}

/// The message for a line that is valid JSON but not a single object.
pub open spec fn not_an_object_message() -> Seq<char> {
    "invalid request: payload must be a single JSON-RPC object (batches are not supported over the MCP stdio transport)"@
}

/// `a` is the action for the classified line `outcome`.
pub open spec fn handles(outcome: ParseOutcome, a: Action) -> bool {
    match outcome {
        ParseOutcome::ParseError => a matches Action::Reply(r) && is_error_response(
            r,
            Json::Null,
            PARSE_ERROR as int,
            "parse error: invalid JSON"@,
        ),
        ParseOutcome::NotAnObject => a matches Action::Reply(r) && is_error_response(
            r,
            Json::Null,
            INVALID_REQUEST as int,
            not_an_object_message(),
        ),
        ParseOutcome::Invalid { id } => refused(
            a,
            id,
            INVALID_REQUEST as int,
            "invalid request: expected an object with a string \"method\""@,
        ),
        ParseOutcome::Message(m) => dispatches(m, a),
    }
}

/// Cap on one inbound line, in bytes; a longer line is answered with
/// [`oversized_line_reply`] and skipped.
pub const MAX_LINE_BYTES: u64 = 8 * 1024 * 1024;

/// What to do with one read of at most [`MAX_LINE_BYTES`] bytes up to and
/// including a newline.
#[derive(Debug, PartialEq, Eq, Structural, Clone, Copy)]
pub enum LineStep {
    /// Nothing was read: the input is over and the server stops.
    EndOfInput,
    /// The cap was reached before a newline: the rest of the line is
    /// skipped unread and answered with [`oversized_line_reply`].
    Oversized,
    /// A whole line (or the last, unterminated one) to handle.
    Line,
}

/// The step for a read of `read` bytes that did or did not end in a
/// newline.
pub fn line_step(read: u64, ends_with_newline: bool) -> (s: LineStep)
    ensures
        read == 0 ==> s == LineStep::EndOfInput,
        read != 0 && read == MAX_LINE_BYTES && !ends_with_newline ==> s == LineStep::Oversized,
        read != 0 && !(read == MAX_LINE_BYTES && !ends_with_newline) ==> s == LineStep::Line,
{
    if read == 0 {
        LineStep::EndOfInput
    } else if read == MAX_LINE_BYTES && !ends_with_newline {
        LineStep::Oversized
    } else {
        LineStep::Line
    }
}

/// The answer to a line longer than [`MAX_LINE_BYTES`].
pub fn oversized_line_reply() -> (r: Json)
    ensures
        is_error_response(
            r,
            Json::Null,
            INVALID_REQUEST as int,
            "invalid request: line exceeds the "@ + decimal(MAX_LINE_BYTES as nat)
                + "-byte limit"@,
        ),
{
    let mut m = String::from_str("invalid request: line exceeds the ");
    push_decimal(&mut m, MAX_LINE_BYTES);
    m.append("-byte limit");
    error_response(Json::Null, INVALID_REQUEST, m)
}

/// `res` is the `tools/list` result `{"tools": [...]}`: one entry per
/// tool, in listing order.
pub open spec fn lists_every_tool(res: Json) -> bool {
    res matches Json::Object(e) && e@.len() == 1 && e@[0].0@ == "tools"@ && (e@[0].1 matches Json::Array(
        s,
    ) && s@.len() == listing().len() && forall|i: int|
        0 <= i < listing().len() ==> is_tool_schema(#[trigger] s@[i], listing()[i]))
}

/// The response to `tools/list` request `id`: every tool's schema.
pub fn list_tools_reply(id: Json) -> (r: Json)
    ensures
        is_success_for(r, id, |res: Json| lists_every_tool(res)),
{
    let mut e: Vec<(String, Json)> = Vec::new();
    e.push((String::from_str("tools"), Json::Array(tool_schemas())));
    let result = Json::Object(e);
    let r = response(id, result);
    r
}

/// `res` is a `tools/call` result: `{"content": [...], "isError": is_error}`
/// whose content blocks satisfy `content`.
pub open spec fn is_tool_result(res: Json, content: spec_fn(Seq<Json>) -> bool, is_error: bool) -> bool {
    res matches Json::Object(e) && e@.len() == 2 && e@[0].0@ == "content"@ && (
    e@[0].1 matches Json::Array(c) && content(c@)) && member_is(e@, 1, "isError"@, Json::Bool(is_error))
}

/// `r` is the response to `tools/call` request `id` whose tool ended with `outcome`.
pub open spec fn finishes(r: Json, id: Json, outcome: ToolOutcome) -> bool {
    match outcome {
        ToolOutcome::OkText(t) => is_success_for(
            r,
            id,
            |res: Json|
                is_tool_result(res, |c: Seq<Json>| c.len() == 1 && is_text_block(c[0], t@), false),
        ),
        ToolOutcome::OkContent(blocks) => is_success_for(
            r,
            id,
            |res: Json| is_tool_result(res, |c: Seq<Json>| c == blocks@, false),
        ),
        ToolOutcome::Failed(t) => is_success_for(
            r,
            id,
            |res: Json|
                is_tool_result(res, |c: Seq<Json>| c.len() == 1 && is_text_block(c[0], t@), true),
        ),
        ToolOutcome::InvalidParams(m) => is_error_response(r, id, INVALID_PARAMS as int, m@),
    }
}

/// The `{"content": content, "isError": is_error}` result.
fn tool_result(content: Vec<Json>, is_error: bool) -> (res: Json)
    ensures
        is_tool_result(res, |c: Seq<Json>| c == content@, is_error),
{
    let mut e: Vec<(String, Json)> = Vec::new();
    e.push((String::from_str("content"), Json::Array(content)));
    e.push((String::from_str("isError"), Json::Bool(is_error)));
    Json::Object(e)
}

/// The response to a `tools/call` whose tool ended with `outcome`; nothing
/// for a notification.
pub fn finish_tool_call(id: Option<Json>, outcome: ToolOutcome) -> (r: Option<Json>)
    ensures
        match id {
            None => r is None,
            Some(i) => r matches Some(x) && finishes(x, i, outcome),
        },
{
    let id = match id {
        Some(i) => i,
        None => {
            return None;
        },
    };
    match outcome {
        ToolOutcome::OkText(t) => {
            let mut c: Vec<Json> = Vec::new();
            c.push(text_block(t));
            let res = tool_result(c, false);
            let r = response(id, res);
            Some(r)
        },
        ToolOutcome::OkContent(blocks) => Some(response(id, tool_result(blocks, false))),
        ToolOutcome::Failed(t) => {
            let mut c: Vec<Json> = Vec::new();
            c.push(text_block(t));
            Some(response(id, tool_result(c, true)))
        },
        ToolOutcome::InvalidParams(m) => Some(error_response(id, INVALID_PARAMS, m)),
    }
}

/// The tool server: stateless between lines. Its only configuration is
/// the optional `--root` confinement, fixed at startup.
pub struct Server {
    ctx: ToolCtx,
}

impl Server {
    /// The context the tools run in.
    pub closed spec fn tool_ctx(self) -> ToolCtx {
        self.ctx
    }

    /// A server with no path confinement.
    pub fn new() -> (s: Server)
        ensures
            s.tool_ctx().root is None,
    {
        Server { ctx: ToolCtx::unconfined() }
    }

    /// A server whose tools refuse any path outside `root` (the caller
    /// canonicalizes it; the directory must exist).
    pub fn with_root(root: RootDir) -> (s: Server)
        ensures
            s.tool_ctx().root == Some(root),
    {
        Server { ctx: ToolCtx { root: Some(root) } }
    }

    /// The context the tools run in.
    pub fn ctx(&self) -> (c: &ToolCtx)
        ensures
            *c == self.tool_ctx(),
    {
        &self.ctx
    }

    /// The action for one classified inbound line.
    pub fn handle(&self, outcome: ParseOutcome) -> (a: Action)
        ensures
            handles(outcome, a),
    {
        match outcome {
            ParseOutcome::ParseError => Action::Reply(
                error_response(
                    Json::Null,
                    PARSE_ERROR,
                    String::from_str("parse error: invalid JSON"),
                ),
            ),
            ParseOutcome::NotAnObject => Action::Reply(
                error_response(
                    Json::Null,
                    INVALID_REQUEST,
                    String::from_str(
                        "invalid request: payload must be a single JSON-RPC object (batches are not supported over the MCP stdio transport)",
                    ),
                ),
            ),
            ParseOutcome::Invalid { id } => match id {
                Some(i) => Action::Reply(
                    error_response(
                        i,
                        INVALID_REQUEST,
                        String::from_str(
                            "invalid request: expected an object with a string \"method\"",
                        ),
                    ),
                ),
                None => Action::Silent,
            },
            ParseOutcome::Message(m) => self.dispatch(m),
        }
    }

    /// Answers `result` to `id`, or nothing for a notification.
    fn answer(id: Option<Json>, result: Json) -> (a: Action)
        ensures
            answered(a, id, |r: Json| r == result),
    {
        match id {
            Some(i) => Action::Reply(response(i, result)),
            None => Action::Silent,
        }
    }

    /// Refuses `id` with `code` and `message`, or nothing for a notification.
    fn refuse(id: Option<Json>, code: i64, message: String) -> (a: Action)
        ensures
            refused(a, id, code as int, message@),
    {
        match id {
            Some(i) => Action::Reply(error_response(i, code, message)),
            None => Action::Silent,
        }
    }

    fn dispatch(&self, m: Message) -> (a: Action)
        ensures
            dispatches(m, a),
    {
        let method = m.method.as_str();
        if str_eq(method, "initialize") {
            let result = initialize_result(&m.params);
            Self::answer(m.id, result)
        } else if str_eq(method, "notifications/initialized") {
            Self::answer(m.id, Json::Null)
        } else if str_eq(method, "ping") {
            Self::answer(m.id, Json::empty_object())
        } else if str_eq(method, "tools/list") {
            match m.id {
                Some(i) => Action::Reply(list_tools_reply(i)),
                None => Action::Silent,
            }
        } else if str_eq(method, "tools/call") {
            self.tools_call(m.id, m.params)
        } else {
            let mut message = String::from_str("method not found: ");
            message.append(method);
            Self::refuse(m.id, METHOD_NOT_FOUND, message)
        }
    }

    fn tools_call(&self, id: Option<Json>, params: Json) -> (a: Action)
        ensures
            match string_of(field(params, "name"@)) {
                None => refused(
                    a,
                    id,
                    INVALID_PARAMS as int,
                    "tools/call requires a string \"name\""@,
                ),
                Some(name) => if is_tool_name(name) {
                    a matches Action::CallTool { id: i, tool, args } && i == id && tool.spec_name()
                        == name && arguments_are(params, args)
                } else {
                    refused(a, id, INVALID_PARAMS as int, "unknown tool: "@ + name)
                },
            },
    {
        let ghost p = params;
        let (name, arguments) = match params {
            Json::Object(entries) => {
                let ghost all = entries@;
                let keys: Vec<&str> = vec!["name", "arguments"];
                proof {
                    reveal_strlit("name");
                    reveal_strlit("arguments");
                    assert(keys@[0]@.len() == 4 && keys@[1]@.len() == 9);
                    assert(keys@[0]@ != keys@[1]@);
                }
                let mut slots = take_members(entries, keys.as_slice());
                proof {
                    assert(slots@[0] == member(all, "name"@));
                    assert(slots@[1] == member(all, "arguments"@));
                }
                let arguments = slots.pop().unwrap();
                let name = slots.pop().unwrap();
                (name, arguments)
            },
            _ => (None, None),
        };
        assert(name == field(p, "name"@));
        assert(arguments == field(p, "arguments"@));
        let name = match name {
            Some(Json::Str(n)) => n,
            _ => {
                return Self::refuse(
                    id,
                    INVALID_PARAMS,
                    String::from_str("tools/call requires a string \"name\""),
                );
            },
        };
        let found = Tool::named(name.as_str());
        proof {
            if is_tool_name(name@) {
                let t = choose|t: Tool| #[trigger] t.spec_name() == name@;
                assert(found == Some(t));
            }
        }
        match found {
            Some(tool) => {
                assert(tool.spec_name() == name@);
                let args = match arguments {
                    Some(x) => x,
                    None => Json::empty_object(),
                };
                Action::CallTool { id, tool, args }
            },
            None => {
                let mut message = String::from_str("unknown tool: ");
                message.append(name.as_str());
                Self::refuse(id, INVALID_PARAMS, message)
            },
        }
    }
}

/// The "id" member of an envelope whose first two members are "jsonrpc"
/// and "id" is found by name.
proof fn lemma_envelope_id(r: Json, i: Json)
    requires
        r matches Json::Object(e) && e@.len() == 3 && member_is_string(e@, 0, "jsonrpc"@, "2.0"@)
            && member_is(e@, 1, "id"@, i),
    ensures
        field(r, "id"@) == Some(i),
{
    reveal_strlit("jsonrpc");
    reveal_strlit("id");
    let e = r->Object_0@;
    assert(e[0].0@ != "id"@) by {
        assert(e[0].0@.len() != "id"@.len());
    }
    assert(e.drop_first()[0] == e[1]);
    assert(member(e.drop_first(), "id"@) == Some(i));
    assert(member(e, "id"@) == Some(i));
}

/// A notification (a request object with no "id") is never answered:
/// whatever it asks, nothing is written back, and a tool it runs reports
/// to no one.
pub proof fn lemma_notifications_get_no_response(parsed: Option<Json>, outcome: ParseOutcome, a: Action)
    requires
        parsed matches Some(Json::Object(e)) && member(e@, "id"@) is None,
        classifies(parsed, outcome),
        handles(outcome, a),
    ensures
        !(a is Reply),
        (a matches Action::CallTool { id, .. } ==> id is None),
{
}

/// A request (a request object with an "id") is always answered, and the
/// answer carries its id: a response whose "id" member is the request's,
/// or a tool run that reports back to it.
pub proof fn lemma_requests_are_answered_with_their_id(
    parsed: Option<Json>,
    outcome: ParseOutcome,
    a: Action,
    i: Json,
)
    requires
        parsed matches Some(Json::Object(e)) && member(e@, "id"@) == Some(i),
        classifies(parsed, outcome),
        handles(outcome, a),
    ensures
        match a {
            Action::Silent => false,
            Action::Reply(r) => field(r, "id"@) == Some(i),
            Action::CallTool { id, .. } => id == Some(i),
        },
{
    if let Action::Reply(r) = a {
        lemma_envelope_id(r, i);
    }
}

/// The response to a tool call carries the request's id, whatever the
/// tool's outcome.
pub proof fn lemma_tool_response_carries_id(i: Json, outcome: ToolOutcome, r: Json)
    requires
        finishes(r, i, outcome),
    ensures
        field(r, "id"@) == Some(i),
{
    lemma_envelope_id(r, i);
}

/// Lines that are not JSON, or not a single object, are answered with a
/// null id: there is no id to echo.
pub proof fn lemma_unreadable_lines_answer_null(parsed: Option<Json>, outcome: ParseOutcome, a: Action)
    requires
        !(parsed matches Some(Json::Object(_))),
        classifies(parsed, outcome),
        handles(outcome, a),
    ensures
        a matches Action::Reply(r) && field(r, "id"@) == Some(Json::Null),
{
    if let Action::Reply(r) = a {
        lemma_envelope_id(r, Json::Null);
    }
}

/// The id a reply to the classified line `o` carries.
spec fn reply_id(o: ParseOutcome) -> Json {
    match o {
        ParseOutcome::Message(m) => match m.id {
            Some(i) => i,
            None => Json::Null,
        },
        ParseOutcome::Invalid { id } => match id {
            Some(i) => i,
            None => Json::Null,
        },
        _ => Json::Null,
    }
}

/// The id a reply carries, read by name.
proof fn lemma_reply_id(r: Json, i: Json)
    requires
        r matches Json::Object(e) && e@.len() == 3 && member_is_string(e@, 0, "jsonrpc"@, "2.0"@)
            && member_is(e@, 1, "id"@, i),
    ensures
        field(r, "id"@) == Some(i),
{
    lemma_envelope_id(r, i);
}

/// The answer depends on the line alone: handling the same classified line
/// twice answers or stays silent alike, replies carry the same id, and a
/// tool call runs the same tool for the same request on the same
/// arguments (or on `{}` both times).
pub proof fn lemma_same_line_same_answer(o: ParseOutcome, a1: Action, a2: Action)
    requires
        handles(o, a1),
        handles(o, a2),
    ensures
        a1 is Silent <==> a2 is Silent,
        a1 is Reply <==> a2 is Reply,
        a1 is CallTool <==> a2 is CallTool,
        a1 matches Action::Reply(r1) ==> (a2 matches Action::Reply(r2) && field(r1, "id"@) == field(
            r2,
            "id"@,
        )),
        a1 matches Action::CallTool { id: i1, tool: t1, args: x1 } ==> (a2 matches Action::CallTool {
            id: i2,
            tool: t2,
            args: x2,
        } && i1 == i2 && t1 == t2 && (x1 == x2 || (is_empty_object(x1) && is_empty_object(x2)))),
{
    if let Action::Reply(r1) = a1 {
        lemma_reply_id(r1, reply_id(o));
    }
    if let Action::Reply(r2) = a2 {
        lemma_reply_id(r2, reply_id(o));
    }
    if let Action::CallTool { tool: t1, .. } = a1 {
        if let Action::CallTool { tool: t2, .. } = a2 {
            lemma_tool_name_injective(t1, t2);
        }
    }
}

} // verus!
