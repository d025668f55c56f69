use lisa::json::{Json, JsonNumber};
use lisa::notes::{
    classify, created, initialize, listed, note_call, rpc_no_method, rpc_result, storage_failed, tool_error, toggled,
    Incoming, NoteCall, NoteSummary, PROTOCOL_VERSION,
};
use serde_json::Value;

fn to_json(v: &Value) -> Json {
    match v {
        Value::Null => Json::Null,
        Value::Bool(b) => Json::Bool(*b),
        Value::Number(n) => Json::Number(JsonNumber { text: n.to_string(), unsigned: n.as_u64(), signed: n.as_i64() }),
        Value::String(s) => Json::Str(s.clone()),
        Value::Array(a) => Json::Array(a.iter().map(to_json).collect()),
        Value::Object(m) => Json::Object(m.iter().map(|(k, v)| (k.clone(), to_json(v))).collect()),
    }
}

fn to_value(j: &Json) -> Value {
    match j {
        Json::Null => Value::Null,
        Json::Bool(b) => Value::Bool(*b),
        Json::Number(n) => serde_json::from_str(&n.text).unwrap(),
        Json::Str(s) => Value::String(s.clone()),
        Json::Array(a) => Value::Array(a.iter().map(to_value).collect()),
        Json::Object(m) => Value::Object(m.iter().map(|(k, v)| (k.clone(), to_value(v))).collect()),
    }
}

fn value(text: &str) -> Value {
    serde_json::from_str(text).unwrap()
}

fn json(text: &str) -> Json {
    to_json(&value(text))
}

fn call(name: &str, args: &str) -> Json {
    json(&format!(r#"{{"jsonrpc": "2.0", "id": 1, "method": "tools/call", "params": {{"name": "{name}", "arguments": {args}}}}}"#))
}

fn err_text(result: &Json) -> String {
    to_value(result)["content"][0]["text"].as_str().unwrap().to_string()
}

#[test]
fn requests_are_classified_by_method() {
    assert!(matches!(classify(&json(r#"{"jsonrpc": "2.0", "method": "notifications/initialized"}"#)), Incoming::Notification));
    assert!(matches!(classify(&json(r#"{"id": 1, "method": "initialize"}"#)), Incoming::Initialize(_)));
    assert!(matches!(classify(&json(r#"{"id": "x", "method": "tools/call"}"#)), Incoming::ToolsCall(_)));
    match classify(&json(r#"{"id": 2, "method": "tools/list"}"#)) {
        Incoming::Other { id, method } => {
            assert_eq!(method, "tools/list");
            assert_eq!(
                to_value(&rpc_no_method(id, &method)),
                value(r#"{"jsonrpc": "2.0", "id": 2, "error": {"code": -32601, "message": "no such method tools/list"}}"#)
            );
        },
        _ => panic!("unknown methods are reported"),
    }
}

#[test]
fn initialize_echoes_the_offered_protocol() {
    let r = to_value(&initialize(json("1"), &json(r#"{"params": {"protocolVersion": "2025-01-01"}}"#), "0.1.0"));
    assert_eq!(r["result"]["protocolVersion"], "2025-01-01");
    assert_eq!(r["result"]["serverInfo"]["name"], "lisa-notes");
    assert_eq!(r["result"]["serverInfo"]["version"], "0.1.0");
    assert_eq!(r["result"]["capabilities"], value(r#"{"tools": {}}"#));
    let r = to_value(&initialize(json("1"), &json("{}"), "0.1.0"));
    assert_eq!(r["result"]["protocolVersion"], PROTOCOL_VERSION);
    assert_eq!(r["id"], 1);
    assert_eq!(r["jsonrpc"], "2.0");
}

#[test]
fn create_note_validates_its_arguments() {
    match note_call(&call("create_note", r#"{"title": "milk", "body": "2 litres"}"#)) {
        Ok(NoteCall::Create { title, body }) => {
            assert_eq!(title, "milk");
            assert_eq!(body, "2 litres");
        },
        _ => panic!("a valid note"),
    }
    assert!(matches!(note_call(&call("create_note", r#"{"title": "t", "body": null}"#)), Ok(NoteCall::Create { body, .. }) if body.is_empty()));
    assert_eq!(note_call(&call("create_note", "{}")).err().unwrap(), "create_note: missing required argument \"title\"");
    assert_eq!(note_call(&call("create_note", r#"{"title": 3}"#)).err().unwrap(), "create_note: \"title\" must be a string");
    assert_eq!(note_call(&call("create_note", r#"{"title": "t", "body": 3}"#)).err().unwrap(), "create_note: \"body\" must be a string");
    let long = format!(r#"{{"title": "{}"}}"#, "x".repeat(121));
    assert_eq!(note_call(&call("create_note", &long)).err().unwrap(), "create_note: \"title\" exceeds 120 characters");
    let ok = format!(r#"{{"title": "{}"}}"#, "é".repeat(120));
    assert!(note_call(&call("create_note", &ok)).is_ok(), "the limit counts characters");
    let long = format!(r#"{{"title": "t", "body": "{}"}}"#, "x".repeat(4001));
    assert_eq!(note_call(&call("create_note", &long)).err().unwrap(), "create_note: \"body\" exceeds 4000 characters");
}

#[test]
fn delete_restore_and_list_calls() {
    assert!(matches!(note_call(&call("list_notes", "{}")), Ok(NoteCall::List)));
    assert!(matches!(note_call(&call("delete_note", r#"{"id": 7}"#)), Ok(NoteCall::Delete(7))));
    assert!(matches!(note_call(&call("restore_note", r#"{"id": 7}"#)), Ok(NoteCall::Restore(7))));
    assert_eq!(note_call(&call("delete_note", r#"{"id": "7"}"#)).err().unwrap(), "delete_note: \"id\" must be an integer");
    assert_eq!(note_call(&call("restore_note", "{}")).err().unwrap(), "restore_note: missing required argument \"id\"");
    assert_eq!(note_call(&call("shred_note", "{}")).err().unwrap(), "unknown tool: shred_note");
    assert!(matches!(note_call(&json(r#"{"id": 1, "params": {"name": "list_notes"}}"#)), Ok(NoteCall::List)));
}

#[test]
fn results_are_structured_or_tool_errors() {
    assert_eq!(to_value(&created(3, "milk")), value(r#"{"structuredContent": {"id": 3, "title": "milk"}}"#));
    let notes = vec![NoteSummary { id: 1, title: "a".into(), created: "2026-01-01T00:00:00.000Z".into() }];
    assert_eq!(
        to_value(&listed(&notes)),
        value(r#"{"structuredContent": {"notes": [{"id": 1, "title": "a", "created": "2026-01-01T00:00:00.000Z"}]}}"#)
    );
    assert_eq!(to_value(&listed(&vec![])), value(r#"{"structuredContent": {"notes": []}}"#));
    assert_eq!(to_value(&toggled(5, false, true)), value(r#"{"structuredContent": {"id": 5, "restored": false}}"#));
    assert_eq!(to_value(&toggled(5, true, true)), value(r#"{"structuredContent": {"id": 5, "restored": true}}"#));
    assert_eq!(err_text(&toggled(5, false, false)), "delete_note: no active note with id 5");
    assert_eq!(err_text(&toggled(-2, true, false)), "restore_note: no deleted note with id -2");
    assert_eq!(to_value(&tool_error("x")), value(r#"{"isError": true, "content": [{"type": "text", "text": "x"}]}"#));
    assert_eq!(err_text(&storage_failed("list_notes", "disk I/O error")), "list_notes: disk I/O error");
    assert_eq!(
        to_value(&rpc_result(json("9"), created(1, "t"))),
        value(r#"{"jsonrpc": "2.0", "id": 9, "result": {"structuredContent": {"id": 1, "title": "t"}}}"#)
    );
}
