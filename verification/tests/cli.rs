use lisa::catalog::{Catalog, Fit, ModelEntry};
use lisa::cli::{
    ask_body, ask_prompt, chunk_token, cli_request, consent_on, disposition_action, erase_confirmed, fit_mark,
    get_plan, is_yes, join_words, parse_broker_reply, parse_catalog, parse_u16, reply_content_or_error, stream_line,
    DispositionAction, StreamLine,
};
use lisa::intent::router;
use lisa::json::{Json, JsonNumber};
use serde_json::Value;

fn to_json(v: &Value) -> Json {
    match v {
        Value::Null => Json::Null,
        Value::Bool(b) => Json::Bool(*b),
        Value::Number(n) => Json::Number(JsonNumber { text: n.to_string(), unsigned: n.as_u64(), signed: n.as_i64() }),
        Value::String(s) => Json::Str(s.clone()),
        Value::Array(a) => Json::Array(a.iter().map(to_json).collect()),
        Value::Object(m) => Json::Object(m.iter().map(|(k, v)| (k.clone(), to_json(v))).collect()),
    }
}

fn to_value(j: &Json) -> Value {
    match j {
        Json::Null => Value::Null,
        Json::Bool(b) => Value::Bool(*b),
        Json::Number(n) => serde_json::from_str(&n.text).unwrap(),
        Json::Str(s) => Value::String(s.clone()),
        Json::Array(a) => Value::Array(a.iter().map(to_value).collect()),
        Json::Object(m) => Value::Object(m.iter().map(|(k, v)| (k.clone(), to_value(v))).collect()),
    }
}

fn json(text: &str) -> Json {
    to_json(&serde_json::from_str::<Value>(text).unwrap())
}

fn rows(raw: &str) -> Vec<Json> {
    match json(raw) {
        Json::Array(a) => a,
        _ => panic!("ListTools answers an array"),
    }
}

#[test]
fn parse_catalog_maps_list_tools_json() {
    let raw = r#"[
        {"app_id":"org.lisa.notes","name":"create_note","tier":"write",
         "description":"Create a note","undoable":true,
         "input_schema":{"type":"object","properties":{"title":{"type":"string"}},
                         "required":["title"]}},
        {"app_id":"org.lisa.notes","name":"list_notes","tier":"read",
         "description":"List notes","undoable":false,
         "input_schema":{"type":"object","properties":{}}}
    ]"#;
    let tools = parse_catalog(&rows(raw));
    assert_eq!(tools.len(), 2);
    assert_eq!(tools[0].id(), "org.lisa.notes::create_note");
    assert!(tools[0].takes_args());
    assert!(!tools[1].takes_args());
    // The catalog drives a compilable router grammar end to end.
    let task = router(&tools);
    assert!(task.grammar().is_ok());
}

#[test]
fn parse_catalog_tolerates_missing_schema() {
    // Older agentd without input_schema in ListTools: args default to
    // an empty object schema (tool still callable, just arg-less).
    let raw = r#"[{"app_id":"a.b","name":"t","tier":"read",
                   "description":"","undoable":false}]"#;
    let tools = parse_catalog(&rows(raw));
    assert_eq!(tools.len(), 1);
    assert!(!tools[0].takes_args());
}

#[test]
fn parse_catalog_skips_rows_without_ids() {
    let tools = parse_catalog(&rows(r#"[{"name":"t"}, {"app_id":"a","name":"t"}, 3]"#));
    assert_eq!(tools.len(), 1);
    assert_eq!(tools[0].description, "");
}

#[test]
fn confirmations_read_the_terminal_answer() {
    assert!(is_yes(" y\n"));
    assert!(is_yes("yes"));
    assert!(!is_yes("no"));
    assert!(!is_yes("YES"));
    assert!(erase_confirmed("ERASE\n"));
    assert!(!erase_confirmed("erase"));
    assert!(consent_on("allow"));
    assert!(!consent_on("off"));
}

#[test]
fn ask_prompts_join_words_and_append_piped_input() {
    let w = vec!["summarize".to_string(), "this".to_string()];
    assert_eq!(join_words(&w), "summarize this");
    assert_eq!(ask_prompt(&w, None).unwrap(), "summarize this");
    assert_eq!(ask_prompt(&w, Some("text")).unwrap(), "summarize this\n\n---\nInput:\ntext");
    assert_eq!(ask_prompt(&w, Some("  \n")).unwrap(), "summarize this");
    assert!(ask_prompt(&vec![], Some(" ")).is_err());
}

#[test]
fn ask_bodies_carry_the_model_schema_and_priority() {
    let b = to_value(&ask_body(Some("qwen3"), "hi", true, None, false));
    assert_eq!(b["model"], "qwen3");
    assert_eq!(b["stream"], true);
    assert_eq!(b["messages"][0]["content"], "hi");
    assert!(b.get("lisa_priority").is_none());
    let schema = json(r#"{"type": "string"}"#);
    let b = to_value(&ask_body(None, "hi", false, Some(&schema), true));
    assert_eq!(b["model"], Value::Null);
    assert_eq!(b["lisa_priority"], "background");
    assert_eq!(b["response_format"]["type"], "json_schema");
    assert_eq!(b["response_format"]["json_schema"]["strict"], true);
}

#[test]
fn streamed_replies_are_read_line_by_line() {
    assert!(matches!(stream_line("data: [DONE]"), StreamLine::Done));
    assert!(matches!(stream_line("event: x"), StreamLine::Skip));
    assert!(matches!(stream_line("data: {}"), StreamLine::Data(d) if d == "{}"));
    assert_eq!(
        chunk_token(&json(r#"{"choices":[{"delta":{"content":"tok"}}]}"#)).unwrap(),
        Some("tok".to_string())
    );
    assert_eq!(chunk_token(&json(r#"{"error":{"message":"busy"}}"#)).unwrap_err(), "inference error: busy");
    assert_eq!(
        reply_content_or_error(&json(r#"{"choices":[{"message":{"content":"hey"}}]}"#)).unwrap(),
        "hey"
    );
}

#[test]
fn bus_dispositions_map_to_terminal_actions() {
    assert_eq!(disposition_action("executed"), DispositionAction::Executed);
    assert_eq!(disposition_action("confirm-chip"), DispositionAction::AskThenConfirm);
    assert_eq!(disposition_action("confirm-modal"), DispositionAction::NeedsModal);
    assert_eq!(disposition_action("denied"), DispositionAction::Denied);
    assert_eq!(disposition_action("failed"), DispositionAction::Failed);
    assert_eq!(disposition_action("???"), DispositionAction::Unknown);
}

fn entry(id: &str, pinned: bool, revoked: bool) -> ModelEntry {
    ModelEntry {
        id: id.into(),
        task: "system".into(),
        tiers: vec![1],
        license: "MIT".into(),
        engine: "llama-server".into(),
        source: if pinned { Some("https://x/m.gguf".into()) } else { None },
        blake3: if pinned { Some("ab".into()) } else { None },
        min_ram_gb: None,
        notes: None,
        revoked,
    }
}

#[test]
fn models_get_installs_only_pinned_live_entries() {
    let cat = Catalog {
        catalog_version: 1,
        models: vec![entry("a", true, false), entry("b", false, false), entry("c", true, true)],
    };
    assert_eq!(get_plan(&cat, "a").unwrap(), ("https://x/m.gguf".to_string(), "ab".to_string()));
    assert!(get_plan(&cat, "b").unwrap_err().contains("no pinned source"));
    assert!(get_plan(&cat, "c").unwrap_err().contains("revoked"));
    assert!(get_plan(&cat, "d").unwrap_err().starts_with("no catalog model `d`"));
    assert_eq!(fit_mark(Fit::TooBig), "REMOTE");
}

#[test]
fn broker_http_framing_over_the_socket() {
    let r = cli_request("POST", "/v1/providers", Some("{}"));
    assert_eq!(
        r,
        "POST /v1/providers HTTP/1.1\r\nHost: lisa-remoted\r\nContent-Type: application/json\r\nContent-Length: 2\r\nConnection: close\r\n\r\n{}"
    );
    assert!(cli_request("GET", "/v1/consent", None).ends_with("Content-Length: 0\r\nConnection: close\r\n\r\n"));
    assert_eq!(
        parse_broker_reply("HTTP/1.1 404 Not Found\r\nx: y\r\n\r\n  {\"e\":1} \n"),
        Some((404, "{\"e\":1}".to_string()))
    );
    assert_eq!(parse_broker_reply("HTTP/1.1 abc\r\n\r\nbody"), Some((0, "body".to_string())));
    assert_eq!(parse_broker_reply("no blank line"), None);
    assert_eq!(parse_u16("+65535"), Some(65535));
    assert_eq!(parse_u16("65536"), None);
    assert_eq!(parse_u16(""), None);
    assert_eq!(parse_u16("+"), None);
    assert_eq!(parse_u16("12a"), None);
}
