use lisa::api::{
    aggregate, completion_body, completion_id, count_words, error_body, inference_complete, inference_start,
    prompt_of, response_model, stream_event, stream_events, StreamEvent,
};
use lisa::protocol::{call_step, CallAction, CallEvent, CallPhase};
use lisa::config::{apply_overrides, parse_remote_hint, Config, EngineKind};
use lisa::engine::{session_request, stub_generate, stub_reply, word_tokens, ChatMessage, EngineError, GenerateRequest, StubEngine};
use lisa::json::{Json, JsonNumber};
use lisa::llama::{delta_token, llama_body, sse_line, take_line, upstream_error, SseLine};
use lisa::pool::{canonical_model, check_admissible, known_models, sort_names, PoolState};
use lisa::remote::{broker_body, broker_reply, broker_request, parse, route, split_reply, RemoteEngine, Route, MALFORMED_REMOTE};
use lisa::scheduler::{ends_preempted, on_arrival, Acquire, Priority};
use serde_json::Value;

fn to_json(v: &Value) -> Json {
    match v {
        Value::Null => Json::Null,
        Value::Bool(b) => Json::Bool(*b),
        Value::Number(n) => Json::Number(JsonNumber { text: n.to_string(), unsigned: n.as_u64(), signed: n.as_i64() }),
        Value::String(s) => Json::Str(s.clone()),
        Value::Array(a) => Json::Array(a.iter().map(to_json).collect()),
        Value::Object(m) => Json::Object(m.iter().map(|(k, v)| (k.clone(), to_json(v))).collect()),
    }
}

fn to_value(j: &Json) -> Value {
    match j {
        Json::Null => Value::Null,
        Json::Bool(b) => Value::Bool(*b),
        Json::Number(n) => serde_json::from_str(&n.text).unwrap(),
        Json::Str(s) => Value::String(s.clone()),
        Json::Array(a) => Value::Array(a.iter().map(to_value).collect()),
        Json::Object(m) => Value::Object(m.iter().map(|(k, v)| (k.clone(), to_value(v))).collect()),
    }
}

fn json(text: &str) -> Json {
    to_json(&serde_json::from_str::<Value>(text).unwrap())
}

fn value(text: &str) -> Value {
    serde_json::from_str(text).unwrap()
}

fn msg(role: &str, content: &str) -> ChatMessage {
    ChatMessage { role: role.to_string(), content: content.to_string() }
}

#[test]
fn defaults_bind_loopback_7777_with_stub_engine() {
    let c = Config::default();
    assert_eq!(c.bind.0, "127.0.0.1:7777");
    assert_eq!(c.engine, EngineKind::Stub);
    assert!(!c.dbus);
}

#[test]
fn remote_tier_is_disabled_by_default() {
    let c = Config::default();
    assert!(!c.remote.enabled, "nothing leaves the device by default");
    assert!(c.remote.socket.is_none());
    assert_eq!(c.llama.port, 7778);
    assert_eq!(c.llama.max_resident, 2);
    assert_eq!(c.llama.server_bin, "llama-server");
}

#[test]
fn remote_byo_model_hints_parse_provider_and_model() {
    assert_eq!(parse_remote_hint("remote:byo:openai:gpt-x"), Some(("openai", "gpt-x")));
    // Tinker models are URIs containing colons; only the first
    // separator after the provider splits.
    assert_eq!(
        parse_remote_hint("remote:byo:tinker:tinker://run:train:0/w/5"),
        Some(("tinker", "tinker://run:train:0/w/5"))
    );
    assert_eq!(parse_remote_hint("qwen3-0.6b"), None);
    assert_eq!(parse_remote_hint("remote:byo:"), None);
    assert_eq!(parse_remote_hint("remote:byo:openai"), None);
}

#[test]
fn parses_remote_model_names() {
    assert_eq!(
        parse("remote:huggingface:openai/gpt-oss-120b"),
        Some(("huggingface".into(), "openai/gpt-oss-120b".into()))
    );
    assert_eq!(parse("remote:hf:org/model:cheapest"), Some(("hf".into(), "org/model:cheapest".into())));
    assert_eq!(parse("remote:openai"), None, "model required");
    assert_eq!(parse("qwen3-8b"), None, "not a remote name");
}

#[test]
fn routes_remote_names_to_the_broker_and_refuses_malformed_ones() {
    assert!(matches!(route(None), Route::Local));
    assert!(matches!(route(Some("lisa-system-stub")), Route::Local));
    match route(Some("remote:openai:gpt-4o")) {
        Route::Remote { provider, model } => {
            assert_eq!(provider, "openai");
            assert_eq!(model, "gpt-4o");
        },
        _ => panic!("remote name routes to the broker"),
    }
    assert!(matches!(route(Some("remote:openai")), Route::Malformed));
    assert!(MALFORMED_REMOTE.starts_with("remote model must be"));
}

#[test]
fn broker_framing_is_plain_http_over_the_socket() {
    let req = broker_request("openai", "{}");
    assert!(req.starts_with("POST /v1/chat/completions HTTP/1.1\r\n"), "{req}");
    assert!(req.contains("x-lisa-provider: openai\r\nx-lisa-scopes: prompt\r\n"));
    assert!(req.ends_with("\r\n\r\n{}"));
    assert!(req.contains("Content-Length: 2\r\n"));
    let body = to_value(&broker_body("gpt-4o", &vec![msg("user", "hi")]));
    assert_eq!(body["model"], "gpt-4o");
    assert_eq!(body["stream"], false);
    assert_eq!(body["messages"][0]["content"], "hi");
}

#[test]
fn broker_replies_split_at_the_blank_line() {
    let (ok, body) = split_reply("HTTP/1.1 200 OK\r\nx: y\r\n\r\n  {\"a\":1}\n").unwrap();
    assert!(ok);
    assert_eq!(body, "{\"a\":1}");
    let (ok, _) = split_reply("HTTP/1.1 403 Forbidden\r\n\r\n{}").unwrap();
    assert!(!ok);
    assert!(split_reply("garbage").is_none());
    let content = broker_reply(true, &json(r#"{"choices":[{"message":{"content":"hello"}}]}"#)).unwrap();
    assert_eq!(content, "hello");
    match broker_reply(false, &json(r#"{"error":{"message":"consent"}}"#)) {
        Err(EngineError::Unavailable(m)) => assert_eq!(m, "consent"),
        other => panic!("{other:?}"),
    }
    match broker_reply(false, &json("{}")) {
        Err(EngineError::Unavailable(m)) => assert_eq!(m, "remote provider request failed"),
        other => panic!("{other:?}"),
    }
}

#[test]
fn stub_engine_echoes_the_last_user_message() {
    let m = vec![msg("system", "be nice"), msg("user", "hello there"), msg("assistant", "hi")];
    let reply = stub_reply(&m);
    assert_eq!(
        reply,
        "[lisa-inferenced stub] You said: \u{201c}hello there\u{201d}. Run a real engine with --model (see `just smoke-real`)."
    );
    let tokens = stub_generate(&GenerateRequest { messages: m, grammar: None, max_tokens: None });
    assert_eq!(tokens.concat(), reply);
    assert_eq!(tokens[0], "[lisa-inferenced ");
    assert_eq!(word_tokens("a b  c"), vec!["a ", "b ", " ", "c"]);
    assert_eq!(EngineError::Preempted.message(), "preempted by an interactive request");
    assert_eq!(EngineError::Unavailable("x".into()).message(), "engine unavailable: x");
}

#[test]
fn interactive_requests_preempt_background_work() {
    assert_eq!(Priority::parse(Some("background")), Priority::Background);
    assert_eq!(Priority::parse(Some("interactive")), Priority::Interactive);
    assert_eq!(Priority::parse(None), Priority::Interactive);
    assert_eq!(on_arrival(Priority::Interactive, true), Acquire::Take);
    assert_eq!(on_arrival(Priority::Interactive, false), Acquire::PreemptThenWait);
    assert_eq!(on_arrival(Priority::Background, true), Acquire::Wait);
    assert!(ends_preempted(Priority::Background, true));
    assert!(!ends_preempted(Priority::Interactive, true));
}

#[test]
fn pool_aliases_name_the_default_model() {
    assert_eq!(canonical_model("qwen3", None), "qwen3");
    assert_eq!(canonical_model("qwen3", Some("lisa-system")), "qwen3");
    assert_eq!(canonical_model("qwen3", Some("auto")), "qwen3");
    assert_eq!(canonical_model("qwen3", Some("gemma")), "gemma");
    assert!(check_admissible("qwen3", "qwen3", false).is_ok());
    assert!(check_admissible("gemma", "qwen3", true).is_ok());
    match check_admissible("gemma", "qwen3", false) {
        Err(EngineError::Unavailable(m)) => {
            assert_eq!(m, "model `gemma` is not in the store (lisa models list)")
        },
        other => panic!("{other:?}"),
    }
}

#[test]
fn pool_evicts_least_recently_used_beyond_the_cap() {
    let mut p = PoolState::new(2, 7778);
    assert!(p.admitted("a").is_empty());
    assert!(p.admitted("b").is_empty());
    assert!(p.touch("a"));
    assert_eq!(p.admitted("c"), vec!["b".to_string()], "b is the least recently used");
    assert!(p.is_resident("a"));
    assert!(!p.is_resident("b"));
    assert!(!p.touch("b"));
}

#[test]
fn known_models_are_sorted_and_include_the_default_once() {
    assert_eq!(
        sort_names(vec!["b".into(), "a".into(), "c".into()]),
        vec!["a".to_string(), "b".to_string(), "c".to_string()]
    );
    assert_eq!(
        known_models(vec!["zeta".into(), "alpha".into()], "mid"),
        vec!["alpha".to_string(), "mid".to_string(), "zeta".to_string()]
    );
    assert_eq!(known_models(vec!["mid".into()], "mid"), vec!["mid".to_string()]);
}

#[test]
fn completion_bodies_follow_the_openai_shape() {
    assert_eq!(response_model(None, "qwen3"), "qwen3");
    assert_eq!(response_model(Some("lisa"), "qwen3"), "lisa");
    assert_eq!(completion_id(42), "chatcmpl-lisa-42");
    assert_eq!(count_words("  two  words "), 2);
    let b = to_value(&completion_body("chatcmpl-lisa-1", 1, "qwen3", "hello big world"));
    assert_eq!(b["object"], "chat.completion");
    assert_eq!(b["choices"][0]["message"]["content"], "hello big world");
    assert_eq!(b["usage"]["completion_tokens"], 3);
    assert_eq!(to_value(&error_body("boom")), value(r#"{"error":{"message":"boom"}}"#));
}

#[test]
fn aggregation_stops_at_the_first_error() {
    let ok: Vec<Result<String, String>> = vec![Ok("a ".into()), Ok("b".into())];
    assert_eq!(aggregate(&ok).unwrap(), "a b");
    let bad: Vec<Result<String, String>> = vec![Ok("a ".into()), Err("x".into()), Ok("b".into())];
    assert_eq!(aggregate(&bad).unwrap_err(), "x");
    let ev = stream_events(&bad);
    assert_eq!(ev.len(), 5);
    assert!(matches!(ev[0], StreamEvent::Role));
    assert!(matches!(&ev[1], StreamEvent::Token(t) if t == "a "));
    assert!(matches!(&ev[2], StreamEvent::Error(e) if e == "x"));
    assert!(matches!(ev[3], StreamEvent::Stop));
    assert!(matches!(ev[4], StreamEvent::Done));
}

#[test]
fn llama_requests_and_stream_lines() {
    let req = GenerateRequest { messages: vec![msg("user", "hi")], grammar: Some("root ::= x".into()), max_tokens: None };
    let b = to_value(&llama_body(&req));
    assert_eq!(b["grammar"], "root ::= x");
    assert_eq!(b["max_tokens"], 2048);
    assert_eq!(b["stream"], true);
    let mut buf = b"data: {}\npartial".to_vec();
    assert_eq!(take_line(&mut buf), Some(b"data: {}\n".to_vec()));
    assert_eq!(buf, b"partial".to_vec());
    assert_eq!(take_line(&mut buf), None);
    assert!(matches!(sse_line("data: [DONE]\r"), SseLine::Done));
    assert!(matches!(sse_line(": keepalive"), SseLine::Skip));
    assert!(matches!(sse_line("data: {\"a\":1}"), SseLine::Data(d) if d == "{\"a\":1}"));
    assert_eq!(
        delta_token(&json(r#"{"choices":[{"delta":{"content":"tok"}}]}"#)),
        Some("tok".to_string())
    );
    assert_eq!(delta_token(&json(r#"{"choices":[{"delta":{"content":""}}]}"#)), None);
    assert_eq!(upstream_error("500", &"e".repeat(300)).len(), "llama-server returned 500: ".len() + 200);
}

#[test]
fn dbus_sessions_compile_schemas_into_grammars() {
    let r = session_request("hi", None, Some(16)).unwrap();
    assert_eq!(r.messages.len(), 1);
    assert_eq!(r.messages[0].role, "user");
    assert_eq!(r.messages[0].content, "hi");
    assert_eq!(r.max_tokens, Some(16));
    assert!(r.grammar.is_none());
    let schema = json(r#"{"type": "boolean"}"#);
    assert!(session_request("hi", Some(&schema), None).unwrap().grammar.unwrap().starts_with("root ::="));
    let bad = json(r#"{"description": "anything"}"#);
    let e = session_request("hi", Some(&bad), None).unwrap_err();
    assert!(e.starts_with("schema not supported: unsupported schema construct (M0 subset): "), "{e}");
}

#[test]
fn engines_name_themselves() {
    assert_eq!(StubEngine.name(), "stub");
    let req = GenerateRequest { messages: vec![msg("user", "x")], grammar: None, max_tokens: None };
    assert_eq!(StubEngine.generate(&req).concat(), stub_reply(&req.messages));
    let e = RemoteEngine { socket: "/tmp/s".into(), provider: "openai".into(), model: "gpt-x".into() };
    assert_eq!(e.name(), "remote");
    assert!(e.frame("{}").contains("x-lisa-provider: openai\r\n"));
    assert_eq!(to_value(&e.body(&vec![msg("user", "x")]))["model"], "gpt-x");
    assert!(matches!(e.embed_refused(), EngineError::Unavailable(m) if m.contains("chat only")));
}

#[test]
fn every_prompt_is_ledgered_before_generation() {
    let messages = vec![msg("system", "be brief"), msg("user", "hello\nthere")];
    let prompt = prompt_of(&messages);
    assert_eq!(prompt, "be brief\nhello\nthere");
    let start = inference_start("qwen3-8b", &prompt);
    assert_eq!(start.kind, "inference.generate");
    assert_eq!(start.app_id, "host");
    assert_eq!(start.model, "qwen3-8b");
    assert_eq!(start.status, "started");
    assert_eq!(start.input_hash, blake3::hash(prompt.as_bytes()).to_hex().to_string());
    assert_eq!(start.preview, "be brief hello there");
    assert_eq!(start.ref_id, None);
    // Generation goes ahead only under an acknowledged start entry.
    let (phase, action) = call_step(CallPhase::Idle, CallEvent::Admitted { confirm: false });
    assert_eq!(action, CallAction::LedgerStart);
    assert_eq!(call_step(phase, CallEvent::StartAppended(Some(12))).1, CallAction::Go(12));
    assert_eq!(call_step(phase, CallEvent::StartAppended(None)).1, CallAction::Stop);
}

#[test]
fn completion_entries_point_back_to_the_start() {
    let ok = inference_complete("qwen3-8b", 12, &Ok("three short words".to_string()));
    assert_eq!(ok.kind, "inference.complete");
    assert_eq!(ok.ref_id, Some(12));
    assert_eq!(ok.status, "ok");
    assert_eq!(ok.output_tokens, 3);
    assert_eq!(ok.detail, "");
    let err = inference_complete("qwen3-8b", 12, &Err("engine crashed".to_string()));
    assert_eq!(err.status, "error");
    assert_eq!(err.detail, "engine crashed");
    assert_eq!(err.output_tokens, 0);
}

#[test]
fn streaming_item_by_item_matches_the_whole_stream() {
    let tokens = vec![Ok("a".to_string()), Ok("b".to_string()), Err("boom".to_string()), Ok("c".to_string())];
    let mut events = vec![StreamEvent::Role];
    for t in &tokens {
        let (e, last) = stream_event(t);
        events.push(e);
        if last {
            break;
        }
    }
    events.push(StreamEvent::Stop);
    events.push(StreamEvent::Done);
    assert_eq!(events, stream_events(&tokens));
}

#[test]
fn a_resident_without_an_engine_can_be_forgotten_and_readmitted() {
    let mut p = PoolState::new(2, 7778);
    assert!(p.admitted("a").is_empty());
    assert!(p.touch("a"));
    assert!(p.forget("a"));
    assert!(!p.is_resident("a"));
    assert!(!p.forget("a"));
    assert!(p.admitted("a").is_empty());
    assert!(p.is_resident("a"));
}

#[test]
fn command_line_overrides_take_precedence_in_order() {
    let mut c = Config::default();
    apply_overrides(&mut c, Some("0.0.0.0:9000".into()), None, Some("/m/model.gguf".into()), None).unwrap();
    assert_eq!(c.bind.0, "0.0.0.0:9000");
    assert_eq!(c.llama.model_path.as_deref(), Some("/m/model.gguf"));
    assert_eq!(c.engine, EngineKind::Llama);
    // An explicit engine wins over what a model path selected.
    let mut c = Config::default();
    apply_overrides(&mut c, None, Some("stub"), None, Some("/refs".into())).unwrap();
    assert_eq!(c.engine, EngineKind::Stub);
    assert_eq!(c.llama.models_dir.as_deref(), Some("/refs"));
    let mut c = Config::default();
    assert_eq!(apply_overrides(&mut c, None, Some("gpu"), None, None).unwrap_err(), "unknown engine `gpu` (stub | llama)");
}
