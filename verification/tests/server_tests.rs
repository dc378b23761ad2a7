use icm::json::{to_json_text, JsonValue};
use icm::protocol::JsonRpcMessage;
use icm::server::{handle_message, parse_error_response, render_response};
use icm::store::Store;
use icm::tools::{call_tool, tool_definitions};

fn obj(fields: Vec<(&str, JsonValue)>) -> JsonValue {
    JsonValue::Obj(
        fields
            .into_iter()
            .map(|(k, v)| (k.to_string(), v))
            .collect(),
    )
}

fn s(v: &str) -> JsonValue {
    JsonValue::Str(v.to_string())
}

#[test]
fn test_parse_error_has_code_and_null_id() {
    let resp = parse_error_response("bad line");
    assert!(matches!(resp.id, JsonValue::Null));
    let err = resp.error.as_ref().unwrap();
    assert_eq!(err.code, -32700);
    assert!(err.message.starts_with("parse error: "));
    let rendered = render_response(resp);
    assert!(rendered.contains("-32700"));
    assert!(rendered.contains("\"id\":null"));
}

#[test]
fn test_notification_produces_no_output() {
    let mut store = Store::in_memory().unwrap();
    let msg = JsonRpcMessage {
        id: None,
        method: Some("tools/list".to_string()),
        params: None,
    };
    assert!(handle_message(&mut store, msg).is_none());
}

#[test]
fn test_unknown_method_gives_method_not_found() {
    let mut store = Store::in_memory().unwrap();
    let msg = JsonRpcMessage {
        id: Some(JsonValue::Int(2)),
        method: Some("bogus".to_string()),
        params: None,
    };
    let resp = handle_message(&mut store, msg).unwrap();
    assert!(matches!(resp.id, JsonValue::Int(2)));
    assert_eq!(resp.error.as_ref().unwrap().code, -32601);
}

#[test]
fn test_initialize_and_ping() {
    let mut store = Store::in_memory().unwrap();
    let init = handle_message(
        &mut store,
        JsonRpcMessage {
            id: Some(JsonValue::Int(1)),
            method: Some("initialize".to_string()),
            params: None,
        },
    )
    .unwrap();
    let rendered = render_response(init);
    assert!(rendered.contains("2024-11-05"));
    assert!(rendered.contains("serverInfo"));

    let ping = handle_message(
        &mut store,
        JsonRpcMessage {
            id: Some(JsonValue::Int(7)),
            method: Some("ping".to_string()),
            params: None,
        },
    )
    .unwrap();
    assert!(ping.error.is_none());
    assert!(ping.result.is_some());
}

#[test]
fn test_tools_call_store_returns_identifier() {
    let mut store = Store::in_memory().unwrap();
    let params = obj(vec![
        ("name", s("icm_store")),
        (
            "arguments",
            obj(vec![("topic", s("t")), ("content", s("c"))]),
        ),
    ]);
    let msg = JsonRpcMessage {
        id: Some(JsonValue::Int(1)),
        method: Some("tools/call".to_string()),
        params: Some(params),
    };
    let resp = handle_message(&mut store, msg).unwrap();
    assert!(matches!(resp.id, JsonValue::Int(1)));
    assert!(resp.error.is_none());
    let rendered = to_json_text(&resp.result.unwrap());
    // the single content block carries "Stored memory: " and a
    // 26-character identifier; no isError marker appears
    let marker = "Stored memory: ";
    let at = rendered.find(marker).unwrap();
    let id_part: String = rendered[at + marker.len()..].chars().take(26).collect();
    assert_eq!(id_part.len(), 26);
    assert!(!id_part.contains('"'));
    assert!(!rendered.contains("isError"));
    assert_eq!(store.count().unwrap(), 1);
}

#[test]
fn test_tools_call_missing_params_is_invalid() {
    let mut store = Store::in_memory().unwrap();
    let msg = JsonRpcMessage {
        id: Some(JsonValue::Int(3)),
        method: Some("tools/call".to_string()),
        params: None,
    };
    let resp = handle_message(&mut store, msg).unwrap();
    assert_eq!(resp.error.as_ref().unwrap().code, -32602);
}

#[test]
fn test_unknown_tool_is_error_envelope() {
    let mut store = Store::in_memory().unwrap();
    let args = obj(vec![]);
    let r = call_tool(&mut store, "does_not_exist", &args);
    assert!(r.is_error);
    assert_eq!(r.content[0].text, "unknown tool: does_not_exist");
}

#[test]
fn test_tool_listing_names() {
    let defs = tool_definitions();
    let rendered = to_json_text(&defs);
    for name in [
        "icm_store",
        "icm_recall",
        "icm_forget",
        "icm_consolidate",
        "icm_list_topics",
        "icm_stats",
        "icm_memoir_create",
        "icm_memoir_list",
        "icm_memoir_show",
        "icm_memoir_add_concept",
        "icm_memoir_refine",
        "icm_memoir_search",
        "icm_memoir_link",
        "icm_memoir_inspect",
    ] {
        assert!(rendered.contains(name), "missing tool {name}");
    }
    // the embedding backfill tool is advertised only with an embedder
    // capability, which this server does not carry
    assert!(!rendered.contains("icm_embed_all"));
}

#[test]
fn test_missing_tool_arguments_report_fields() {
    let mut store = Store::in_memory().unwrap();
    let args = obj(vec![]);
    let r = call_tool(&mut store, "icm_store", &args);
    assert!(r.is_error);
    assert_eq!(r.content[0].text, "missing required field: topic");

    let r2 = call_tool(&mut store, "icm_recall", &args);
    assert!(r2.is_error);
    assert_eq!(r2.content[0].text, "missing required field: query");
}

#[test]
fn test_json_serializer_escapes() {
    let v = obj(vec![("text", s("line\nwith \"quotes\" and \\slash"))]);
    let rendered = to_json_text(&v);
    assert_eq!(
        rendered,
        "{\"text\":\"line\\nwith \\\"quotes\\\" and \\\\slash\"}"
    );
    let n = JsonValue::Int(-42);
    assert_eq!(to_json_text(&n), "-42");
    let arr = JsonValue::Arr(vec![JsonValue::Bool(true), JsonValue::Null]);
    assert_eq!(to_json_text(&arr), "[true,null]");
}

#[test]
fn test_recall_falls_back_to_keywords() {
    let mut store = Store::in_memory().unwrap();
    let mut mem = icm::memory::Memory::new(
        "notes".to_string(),
        "configuration hints".to_string(),
        icm::memory::Importance::Medium,
    );
    mem.keywords = vec!["setup".to_string()];
    store.store(mem).unwrap();
    // "setup" appears only among keywords, so the full-text pass over
    // topic and summary misses nothing but the keyword pass finds it
    let args = obj(vec![("query", s("setup"))]);
    let r = call_tool(&mut store, "icm_recall", &args);
    assert!(!r.is_error);
    assert!(r.content[0].text.contains("configuration hints"));
}

#[test]
fn test_memoir_refine_reports_revision_and_confidence() {
    let mut store = Store::new();
    let create = obj(vec![("name", s("plans"))]);
    assert!(!call_tool(&mut store, "icm_memoir_create", &create).is_error);
    let add = obj(vec![
        ("memoir", s("plans")),
        ("name", s("roadmap")),
        ("definition", s("first cut")),
    ]);
    assert!(!call_tool(&mut store, "icm_memoir_add_concept", &add).is_error);
    let refine = obj(vec![
        ("memoir", s("plans")),
        ("name", s("roadmap")),
        ("definition", s("second cut")),
    ]);
    let r = call_tool(&mut store, "icm_memoir_refine", &refine);
    assert!(!r.is_error);
    assert_eq!(r.content[0].text, "Refined 'roadmap' (r2, confidence=0.60)");
}

#[test]
fn test_memoir_search_no_results_text() {
    let mut store = Store::new();
    let create = obj(vec![("name", s("empty"))]);
    assert!(!call_tool(&mut store, "icm_memoir_create", &create).is_error);
    let search = obj(vec![("memoir", s("empty")), ("query", s("nothing"))]);
    let r = call_tool(&mut store, "icm_memoir_search", &search);
    assert!(!r.is_error);
    assert_eq!(r.content[0].text, "No concepts found.");
}
