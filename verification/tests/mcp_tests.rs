use eleutheria_telos::mcp::{
    csv_tags, mcp_note_update_columns, mcp_tools, plan_tool_call, rpc_reply, tags_json_from_csv,
    tool_error, ArgValue, HttpMethod, RpcReply, INTERNAL_ERROR, METHOD_NOT_FOUND,
};

fn s(x: &str) -> String {
    x.to_string()
}

fn args(pairs: &[(&str, ArgValue)]) -> Vec<(String, ArgValue)> {
    pairs.iter().map(|(k, v)| (s(k), match v {
        ArgValue::Str(t) => ArgValue::Str(t.clone()),
        ArgValue::Int(n) => ArgValue::Int(*n),
        ArgValue::Other => ArgValue::Other,
    })).collect()
}

#[test]
fn list_calls_default_the_limit() {
    let c = plan_tool_call("note_list", &args(&[])).ok().unwrap();
    assert_eq!(c.method, HttpMethod::Get);
    assert_eq!(c.path, "/api/mcp/notes");
    assert_eq!(c.params, vec![(s("limit"), s("50"))]);
    let c = plan_tool_call("clipboard_list", &args(&[("search", ArgValue::Str(s("x"))), ("limit", ArgValue::Int(5))]))
        .ok()
        .unwrap();
    assert_eq!(c.params, vec![(s("q"), s("x")), (s("limit"), s("5"))]);
}

#[test]
fn updates_need_an_id() {
    assert_eq!(plan_tool_call("note_update", &args(&[])).err(), Some(s("note_update requires 'id'")));
    let c = plan_tool_call("note_update", &args(&[("id", ArgValue::Str(s("n1"))), ("tags", ArgValue::Str(s("a,b")))]))
        .ok()
        .unwrap();
    assert_eq!(c.method, HttpMethod::Put);
    assert_eq!(c.path, "/api/mcp/notes/n1");
    assert_eq!(c.params, vec![(s("tags"), s("a,b"))]);
    assert_eq!(plan_tool_call("fly", &args(&[])).err(), Some(s("Unknown tool: fly")));
}

#[test]
fn video_calls_forward_given_fields() {
    let c = plan_tool_call(
        "video_process",
        &args(&[("operation", ArgValue::Str(s("trim"))), ("input_path", ArgValue::Str(s("/v"))), ("crf", ArgValue::Int(30))]),
    )
    .ok()
    .unwrap();
    assert_eq!(c.params, vec![(s("operation"), s("trim")), (s("input_path"), s("/v")), (s("crf"), s("30"))]);
}

#[test]
fn json_rpc_replies() {
    assert!(rpc_reply("initialized", None).is_none());
    assert!(matches!(rpc_reply("ping", None), Some(RpcReply::Pong)));
    assert!(matches!(rpc_reply("tools/call", Some("note_list")), Some(RpcReply::CallTool { ref name }) if name == "note_list"));
    assert!(rpc_reply("tools/call", None).is_none());
    match rpc_reply("nope", None) {
        Some(RpcReply::Error { code, message }) => {
            assert_eq!(code, METHOD_NOT_FOUND);
            assert_eq!(message, "Method not found: nope");
        }
        _ => panic!("expected an error"),
    }
    assert_eq!(tool_error("x"), (INTERNAL_ERROR, s("Tool error: x")));
}

#[test]
fn comma_separated_tags() {
    assert_eq!(csv_tags(" a, b ,c"), vec![s("a"), s("b"), s("c")]);
    assert_eq!(tags_json_from_csv(""), "[]");
    assert_eq!(tags_json_from_csv("a, b"), "[\"a\",\"b\"]");
    assert!(mcp_note_update_columns(false, false, false).is_none());
    assert!(mcp_note_update_columns(true, false, false).is_some());
}

#[test]
fn the_manifest_lists_every_tool() {
    let tools = mcp_tools();
    assert_eq!(tools.len(), 11);
    assert_eq!(tools[0].name, "clipboard_list");
    assert_eq!(tools[10].name, "photo_rembg");
    for t in &tools {
        if t.name != "clipboard_list" && t.name != "note_list" {
            assert!(plan_tool_call(&t.name, &args(&[])).is_ok() || t.name.starts_with("note_"));
        }
    }
}

#[test]
fn manifest_parameters_and_required_fields() {
    let tools = mcp_tools();
    let video = &tools[9];
    assert_eq!(video.name, "video_process");
    assert_eq!(video.required, vec![s("operation"), s("input_path")]);
    let names: Vec<&str> = video.params.iter().map(|p| p.name.as_str()).collect();
    assert_eq!(names, vec!["operation", "input_path", "start", "end", "audio_format", "crf", "compress_resolution", "resize_resolution"]);
    assert_eq!(video.params[0].choices, vec![s("trim"), s("extract_audio"), s("compress"), s("resize")]);
    assert!(matches!(video.params[5].kind, eleutheria_telos::mcp::ParamKind::Integer));
    assert_eq!(video.params[5].description.as_deref(), Some("CRF quality 18–40 (default 28)"));
    for t in &tools {
        let mut a: Vec<(String, ArgValue)> = Vec::new();
        for r in &t.required {
            a.push((r.clone(), ArgValue::Str(s("x"))));
        }
        assert!(plan_tool_call(&t.name, &a).is_ok(), "{}", t.name);
    }
}
