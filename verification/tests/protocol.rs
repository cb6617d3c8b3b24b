use cochlea::json::Json;
use cochlea::protocol::{classify, error_response, response, ParseOutcome, INVALID_REQUEST, PARSE_ERROR};
use cochlea::server::{
    finish_tool_call, line_step, list_tools_reply, negotiate_version, oversized_line_reply, Action, LineStep, Server, Tool, MAX_LINE_BYTES,
};
use cochlea::tools::{panic_message, require_str, ToolOutcome};
use serde_json::Value;

fn to_json(v: &Value) -> Json {
    match v {
        Value::Null => Json::Null,
        Value::Bool(b) => Json::Bool(*b),
        Value::Number(n) => Json::Number(n.to_string()),
        Value::String(s) => Json::Str(s.clone()),
        Value::Array(a) => Json::Array(a.iter().map(to_json).collect()),
        Value::Object(o) => Json::Object(o.iter().map(|(k, v)| (k.clone(), to_json(v))).collect()),
    }
}

fn from_json(j: &Json) -> Value {
    match j {
        Json::Null => Value::Null,
        Json::Bool(b) => Value::Bool(*b),
        Json::Number(t) => serde_json::from_str(t).expect("a number's text parses"),
        Json::Str(s) => Value::String(s.clone()),
        Json::Array(a) => Value::Array(a.iter().map(from_json).collect()),
        Json::Object(e) => Value::Object(e.iter().map(|(k, v)| (k.clone(), from_json(v))).collect()),
    }
}

/// The argument checks each tool makes before touching any file.
fn check_arguments(tool: Tool, args: &Json) -> ToolOutcome {
    let required: &[&str] = match tool {
        Tool::ProbeAudio
        | Tool::ProbeDigest
        | Tool::Spectrogram
        | Tool::LoudnessTimeline
        | Tool::BeatGrid
        | Tool::TranscribeAudio => &["audio_path"],
        Tool::AudioDiff => &["audio_path_a", "audio_path_b"],
        Tool::RenderScore | Tool::ExportMidi => &["score_path", "out_path"],
        Tool::LintScore => &["score_path"],
        Tool::ImportMidi => &["midi_path", "out_path"],
        Tool::ScoreReference => &[],
    };
    for key in required {
        if let Err(outcome) = require_str(args, key) {
            return outcome;
        }
    }
    ToolOutcome::Failed(format!("{} is not run in this test", tool.name()))
}

/// One line in, at most one line out, through the library's decisions.
fn handle_line(server: &Server, line: &str) -> Option<String> {
    let line = line.trim();
    if line.is_empty() {
        return None;
    }
    let parsed = serde_json::from_str::<Value>(line).ok().map(|v| to_json(&v));
    let reply = match server.handle(classify(parsed)) {
        Action::Silent => None,
        Action::Reply(r) => Some(r),
        Action::CallTool { id, tool, args } => finish_tool_call(id, check_arguments(tool, &args)),
    };
    reply.map(|r| from_json(&r).to_string())
}

/// Line framing as the stdio loop does it: an over-long line is answered
/// without being parsed, every other line goes through `handle_line`.
fn serve(server: &Server, input: &[u8]) -> Vec<String> {
    let mut out = Vec::new();
    for line in input.split(|&b| b == b'\n') {
        if line.len() as u64 > MAX_LINE_BYTES {
            out.push(from_json(&oversized_line_reply()).to_string());
        } else if let Some(reply) = handle_line(server, std::str::from_utf8(line).unwrap()) {
            out.push(reply);
        }
    }
    out
}

fn call(server: &Server, request: &str) -> Value {
    let line = handle_line(server, request).expect("expected a response line");
    serde_json::from_str(&line).expect("response must be valid JSON")
}

#[test]
fn initialize_handshake() {
    let server = Server::new();
    let response = call(
        &server,
        r#"{"jsonrpc":"2.0","id":1,"method":"initialize","params":{"protocolVersion":"2025-06-18","capabilities":{},"clientInfo":{"name":"test-client","version":"0.0.0"}}}"#,
    );
    assert_eq!(response["jsonrpc"], "2.0");
    assert_eq!(response["id"], 1);
    assert_eq!(response["result"]["protocolVersion"], "2025-06-18");
    assert_eq!(response["result"]["capabilities"]["tools"], serde_json::from_str::<Value>("{}").unwrap());
    assert_eq!(response["result"]["serverInfo"]["name"], "cochlea-mcp");
    assert!(response["result"]["serverInfo"]["version"].is_string());
}

#[test]
fn initialize_echoes_a_recognized_older_protocol_version() {
    let server = Server::new();
    let response = call(
        &server,
        r#"{"jsonrpc":"2.0","id":1,"method":"initialize","params":{"protocolVersion":"2024-11-05"}}"#,
    );
    assert_eq!(response["result"]["protocolVersion"], "2024-11-05");
}

#[test]
fn initialize_answers_an_unrecognized_protocol_version_with_its_own() {
    let server = Server::new();
    let response = call(
        &server,
        r#"{"jsonrpc":"2.0","id":1,"method":"initialize","params":{"protocolVersion":"not-a-real-version-2077-99-99"}}"#,
    );
    assert_eq!(response["result"]["protocolVersion"], "2025-06-18");
}

#[test]
fn a_top_level_json_array_is_invalid_request_not_silence() {
    let server = Server::new();
    let line = handle_line(&server, r#"[{"jsonrpc":"2.0","id":1,"method":"ping"}]"#)
        .expect("a non-object payload must get a response");
    let response: Value = serde_json::from_str(&line).unwrap();
    assert!(response["id"].is_null(), "{response}");
    assert_eq!(response["error"]["code"], -32600, "{response}");

    let line = handle_line(&server, r#""just a string""#).expect("a bare string must get a response");
    let response: Value = serde_json::from_str(&line).unwrap();
    assert_eq!(response["error"]["code"], -32600, "{response}");
}

#[test]
fn notification_gets_no_response() {
    let server = Server::new();
    let response = handle_line(&server, r#"{"jsonrpc":"2.0","method":"notifications/initialized"}"#);
    assert!(response.is_none());
}

#[test]
fn unknown_method_notification_still_gets_no_response() {
    let server = Server::new();
    let response = handle_line(&server, r#"{"jsonrpc":"2.0","method":"no/such/method"}"#);
    assert!(response.is_none());
}

#[test]
fn ping() {
    let server = Server::new();
    let response = call(&server, r#"{"jsonrpc":"2.0","id":7,"method":"ping"}"#);
    assert_eq!(response["result"], serde_json::from_str::<Value>("{}").unwrap());
}

#[test]
fn unknown_method_on_a_request_is_method_not_found() {
    let server = Server::new();
    let response = call(&server, r#"{"jsonrpc":"2.0","id":3,"method":"no/such/method"}"#);
    assert_eq!(response["error"]["code"], -32601);
    assert_eq!(response["error"]["message"], "method not found: no/such/method");
    assert!(response["result"].is_null());
}

#[test]
fn malformed_json_is_parse_error_with_null_id() {
    let server = Server::new();
    let line = handle_line(&server, "{not valid json").expect("parse errors still get a response");
    let response: Value = serde_json::from_str(&line).unwrap();
    assert_eq!(response["error"]["code"], -32700);
    assert_eq!(response["id"], Value::Null);
}

#[test]
fn a_request_missing_method_is_invalid_request() {
    let server = Server::new();
    let response = call(&server, r#"{"jsonrpc":"2.0","id":4,"params":{}}"#);
    assert_eq!(response["error"]["code"], -32600);
    assert_eq!(response["id"], 4);
}

#[test]
fn tools_call_missing_required_argument_is_invalid_params() {
    let server = Server::new();
    let response = call(
        &server,
        r#"{"jsonrpc":"2.0","id":5,"method":"tools/call","params":{"name":"probe_audio","arguments":{}}}"#,
    );
    assert_eq!(response["error"]["code"], -32602);
    assert!(response["result"].is_null());
}

#[test]
fn audio_diff_missing_audio_path_b_is_invalid_params() {
    let server = Server::new();
    let response = call(
        &server,
        r#"{"jsonrpc":"2.0","id":5,"method":"tools/call","params":{"name":"audio_diff","arguments":{"audio_path_a":"a.wav"}}}"#,
    );
    assert_eq!(response["error"]["code"], -32602);
    assert_eq!(response["error"]["message"], "missing required argument \"audio_path_b\"");
    assert!(response["result"].is_null());
}

#[test]
fn tools_call_unknown_tool_name_is_invalid_params() {
    let server = Server::new();
    let response = call(
        &server,
        r#"{"jsonrpc":"2.0","id":6,"method":"tools/call","params":{"name":"no_such_tool","arguments":{}}}"#,
    );
    assert_eq!(response["error"]["code"], -32602);
    assert_eq!(response["error"]["message"], "unknown tool: no_such_tool");
}

#[test]
fn tools_call_missing_name_is_invalid_params() {
    let server = Server::new();
    let response = call(&server, r#"{"jsonrpc":"2.0","id":8,"method":"tools/call","params":{}}"#);
    assert_eq!(response["error"]["code"], -32602);
}

#[test]
fn identical_requests_produce_identical_responses() {
    let server = Server::new();
    let request = r#"{"jsonrpc":"2.0","id":1,"method":"tools/list"}"#;
    let first = handle_line(&server, request).unwrap();
    let second = handle_line(&server, request).unwrap();
    assert_eq!(first, second);
}

#[test]
fn a_tool_call_without_an_id_runs_but_answers_nothing() {
    let server = Server::new();
    match server.handle(classify(Some(to_json(
        &serde_json::from_str::<Value>(r#"{"jsonrpc":"2.0","method":"tools/call","params":{"name":"lint_score"}}"#)
            .unwrap(),
    )))) {
        Action::CallTool { id, tool, args } => {
            assert!(id.is_none());
            assert_eq!(tool, Tool::LintScore);
            assert_eq!(args, Json::Object(Vec::new()));
            assert!(finish_tool_call(id, ToolOutcome::OkText("done".to_string())).is_none());
        }
        other => panic!("expected a tool run, got {other:?}"),
    }
}

#[test]
fn a_null_id_is_an_id_not_a_notification() {
    let server = Server::new();
    let response = call(&server, r#"{"jsonrpc":"2.0","id":null,"method":"ping"}"#);
    assert!(response["id"].is_null());
    assert_eq!(response["result"], serde_json::from_str::<Value>("{}").unwrap());
}

#[test]
fn tool_outcomes_become_results_or_errors() {
    let ok = from_json(&finish_tool_call(Some(Json::integer(9)), ToolOutcome::OkText("fine".to_string())).unwrap());
    assert_eq!(ok["id"], 9);
    assert_eq!(ok["result"]["isError"], false);
    assert_eq!(ok["result"]["content"][0]["type"], "text");
    assert_eq!(ok["result"]["content"][0]["text"], "fine");

    let failed = from_json(&finish_tool_call(Some(Json::text("a")), ToolOutcome::Failed("broke".to_string())).unwrap());
    assert_eq!(failed["id"], "a");
    assert_eq!(failed["result"]["isError"], true);
    assert_eq!(failed["result"]["content"][0]["text"], "broke");

    let blocks = vec![Json::text("x"), Json::Null];
    let content = from_json(&finish_tool_call(Some(Json::Null), ToolOutcome::OkContent(blocks)).unwrap());
    assert_eq!(content["result"]["content"].as_array().unwrap().len(), 2);
    assert_eq!(content["result"]["isError"], false);

    let refused = from_json(&finish_tool_call(Some(Json::integer(2)), ToolOutcome::InvalidParams("no".to_string())).unwrap());
    assert_eq!(refused["error"]["code"], -32602);
    assert_eq!(refused["error"]["message"], "no");
    assert!(refused["result"].is_null());
}

#[test]
fn tools_list_shape() {
    let server = Server::new();
    let response = call(&server, r#"{"jsonrpc": "2.0", "id": 2, "method": "tools/list"}"#);
    let tools = response["result"]["tools"].as_array().expect("tools must be an array");
    let names: Vec<&str> =
        tools.iter().map(|t| t["name"].as_str().expect("tool name must be a string")).collect();
    assert_eq!(
        names,
        vec![
            "render_score",
            "probe_audio",
            "spectrogram",
            "lint_score",
            "probe_digest",
            "score_reference",
            "audio_diff",
            "import_midi",
            "export_midi",
            "transcribe_audio",
            "loudness_timeline",
            "beat_grid",
        ]
    );
    for tool in tools {
        assert!(tool["description"].is_string(), "{tool}");
        let schema = &tool["inputSchema"];
        assert_eq!(schema["type"], "object", "{tool}");
        assert!(schema["properties"].is_object(), "{tool}");
        assert!(schema["required"].is_array(), "{tool}");
    }
    // Every listed tool is one that tools/call dispatches.
    for name in names {
        assert!(Tool::named(name).is_some(), "{name}");
    }
}

#[test]
fn list_tools_reply_carries_the_id_and_the_schemas() {
    let r = from_json(&list_tools_reply(Json::integer(7)));
    assert_eq!(r["id"], 7);
    let bits = &r["result"]["tools"][0]["inputSchema"]["properties"]["bits"];
    assert_eq!(bits["enum"], serde_json::from_str::<Value>(r#"["float","24","16"]"#).unwrap());
    assert_eq!(bits["default"], "float");
    let render = &r["result"]["tools"][0]["inputSchema"];
    assert_eq!(render["required"], serde_json::from_str::<Value>(r#"["score_path","out_path"]"#).unwrap());
    let digest = &r["result"]["tools"][4]["inputSchema"];
    assert_eq!(digest["properties"]["window_ms"]["default"], 1000);
    let reference = &r["result"]["tools"][5]["inputSchema"];
    assert_eq!(reference["required"], serde_json::from_str::<Value>("[]").unwrap());
}

#[test]
fn envelopes_have_their_fixed_shape() {
    let ok = from_json(&response(Json::integer(-4), Json::Bool(true)));
    assert_eq!(ok.to_string(), r#"{"id":-4,"jsonrpc":"2.0","result":true}"#);
    let err = from_json(&error_response(Json::Null, PARSE_ERROR, "bad".to_string()));
    assert_eq!(err.to_string(), r#"{"error":{"code":-32700,"message":"bad"},"id":null,"jsonrpc":"2.0"}"#);
    let big = from_json(&oversized_line_reply());
    assert_eq!(big["error"]["code"], INVALID_REQUEST);
    assert_eq!(big["error"]["message"], "invalid request: line exceeds the 8388608-byte limit");
    assert!(big["id"].is_null());
}

#[test]
fn classification_tells_apart_each_kind_of_line() {
    assert!(matches!(classify(None), ParseOutcome::ParseError));
    assert!(matches!(classify(Some(Json::integer(3))), ParseOutcome::NotAnObject));
    let v: Value = serde_json::from_str(r#"{"id":5,"method":7}"#).unwrap();
    match classify(Some(to_json(&v))) {
        ParseOutcome::Invalid { id } => assert_eq!(id, Some(Json::integer(5))),
        other => panic!("{other:?}"),
    }
    let v: Value = serde_json::from_str(r#"{"method":"ping"}"#).unwrap();
    match classify(Some(to_json(&v))) {
        ParseOutcome::Message(m) => {
            assert!(m.id.is_none());
            assert_eq!(m.method, "ping");
            assert_eq!(m.params, Json::Null);
        }
        other => panic!("{other:?}"),
    }
}

#[test]
fn version_negotiation() {
    assert_eq!(negotiate_version(Some("2025-03-26")), "2025-03-26");
    assert_eq!(negotiate_version(Some("2025-06-18")), "2025-06-18");
    assert_eq!(negotiate_version(Some("1999-01-01")), "2025-06-18");
    assert_eq!(negotiate_version(None), "2025-06-18");
}

#[test]
fn every_tool_is_found_by_its_name() {
    for tool in [
        Tool::RenderScore,
        Tool::ProbeAudio,
        Tool::Spectrogram,
        Tool::LintScore,
        Tool::ProbeDigest,
        Tool::ScoreReference,
        Tool::AudioDiff,
        Tool::ImportMidi,
        Tool::ExportMidi,
        Tool::TranscribeAudio,
        Tool::LoudnessTimeline,
        Tool::BeatGrid,
    ] {
        assert_eq!(Tool::named(tool.name()), Some(tool));
    }
    assert_eq!(Tool::named("Probe_Audio"), None);
}

#[test]
fn serve_round_trips_requests_and_stays_silent_on_notifications() {
    let input = [
        r#"{"jsonrpc":"2.0","id":1,"method":"ping"}"#,
        r#"{"jsonrpc":"2.0","method":"notifications/initialized"}"#,
        r#"{"jsonrpc":"2.0","id":2,"method":"ping"}"#,
        "",
    ]
    .join("\n");
    let lines = serve(&Server::new(), input.as_bytes());
    assert_eq!(lines.len(), 2, "notification must produce no line");
    let first: Value = serde_json::from_str(&lines[0]).unwrap();
    let second: Value = serde_json::from_str(&lines[1]).unwrap();
    assert_eq!(first["id"], 1);
    assert_eq!(second["id"], 2);
}

#[test]
fn serve_rejects_an_oversized_line_without_buffering_it() {
    let mut input: Vec<u8> = Vec::with_capacity(9 * 1024 * 1024 + 64);
    input.extend(br#"{"pad":""#);
    input.resize(9 * 1024 * 1024, b'x');
    input.extend(b"\"}\n");
    input.extend(br#"{"jsonrpc":"2.0","id":7,"method":"ping"}"#);
    input.extend(b"\n");
    let lines = serve(&Server::new(), &input);
    assert_eq!(lines.len(), 2, "{}", lines.len());
    let first: Value = serde_json::from_str(&lines[0]).unwrap();
    assert!(first["id"].is_null(), "{first}");
    assert_eq!(first["error"]["code"], -32600, "{first}");
    assert!(first["error"]["message"].as_str().unwrap().contains("exceeds"), "{first}");
    let second: Value = serde_json::from_str(&lines[1]).unwrap();
    assert_eq!(second["id"], 7, "the loop must survive an oversized line");
}

#[test]
fn a_tool_panic_is_contained_and_the_server_keeps_serving() {
    let server = Server::new();
    // id:1 — the tool's panic was caught by the runner and comes back as a
    // contained tool error.
    let request = r#"{"jsonrpc":"2.0","id":1,"method":"tools/call","params":{"name":"score_reference","arguments":{}}}"#;
    let parsed = serde_json::from_str::<Value>(request).ok().map(|v| to_json(&v));
    let reply = match server.handle(classify(parsed)) {
        Action::CallTool { id, tool, .. } => {
            finish_tool_call(id, ToolOutcome::Failed(panic_message(tool.name(), "boom")))
        }
        _ => panic!("a tools/call request must dispatch to its tool"),
    };
    let r1 = from_json(&reply.expect("a request is answered"));
    assert_eq!(r1["id"], 1);
    assert_eq!(r1["result"]["isError"], true, "a panicking tool must report isError");
    let text = r1["result"]["content"][0]["text"].as_str().unwrap_or("");
    assert!(text.contains("panicked"), "panic surfaced to caller: {text}");
    // id:2 — the very next line is served as usual.
    let r2 = call(&server, r#"{"jsonrpc":"2.0","id":2,"method":"ping"}"#);
    assert_eq!(r2["id"], 2);
    assert!(r2.get("error").is_none(), "{r2}");
}

#[test]
fn reads_end_the_input_cap_a_line_or_hand_it_on() {
    assert_eq!(line_step(0, false), LineStep::EndOfInput);
    assert_eq!(line_step(MAX_LINE_BYTES, false), LineStep::Oversized);
    assert_eq!(line_step(MAX_LINE_BYTES, true), LineStep::Line);
    assert_eq!(line_step(12, true), LineStep::Line);
    assert_eq!(line_step(12, false), LineStep::Line);
}
