use lisa::agent::{
    command_findings, decode_reply, forge_config, forge_outcome, request_body, wire_message, AgentConfig,
    AgentLoop, AgentReport, Arguments, Decoded, ForgeError, Message, OpenAiBackend, Role, Step, ToolCall, Verifier,
    SYSTEM_PROMPT,
};
use lisa::forge_tools::{
    apply_edit, arg_str, check_command, command_text, edit_report, grep_text, inside_git, io_outcome, leaves, plan_tool,
    ToolPlan, listing_text, test_program,
    tool_kind, tool_specs, truncate, unknown_tool, unknown_tool_outcome, write_args, write_outcome, edit_outcome,
    write_report, ToolKind, ToolOutcome, NO_TEST_SETUP,
};
use lisa::json::{Json, JsonNumber};
use serde_json::Value;

fn to_json(v: &Value) -> Json {
    match v {
        Value::Null => Json::Null,
        Value::Bool(b) => Json::Bool(*b),
        Value::Number(n) => Json::Number(JsonNumber { text: n.to_string(), unsigned: n.as_u64(), signed: n.as_i64() }),
        Value::String(s) => Json::Str(s.clone()),
        Value::Array(a) => Json::Array(a.iter().map(to_json).collect()),
        Value::Object(m) => Json::Object(m.iter().map(|(k, v)| (k.clone(), to_json(v))).collect()),
    }
}

fn to_value(j: &Json) -> Value {
    match j {
        Json::Null => Value::Null,
        Json::Bool(b) => Value::Bool(*b),
        Json::Number(n) => serde_json::from_str(&n.text).unwrap(),
        Json::Str(s) => Value::String(s.clone()),
        Json::Array(a) => Value::Array(a.iter().map(to_value).collect()),
        Json::Object(m) => Value::Object(m.iter().map(|(k, v)| (k.clone(), to_value(v))).collect()),
    }
}

fn value(text: &str) -> Value {
    serde_json::from_str(text).unwrap()
}

fn json(text: &str) -> Json {
    to_json(&value(text))
}

/// The wire history of the request, arguments serialized as the backend
/// sends them.
fn wired(history: &[Message]) -> Vec<Json> {
    history
        .iter()
        .map(|m| {
            let args = m.tool_call.as_ref().map(|c| to_value(&c.args).to_string()).unwrap_or_default();
            wire_message(m, &args)
        })
        .collect()
}

#[test]
fn request_carries_tools_and_wire_history() {
    let call = ToolCall { id: "c1".into(), name: "write_file".into(), args: json(r#"{"path": "a.txt", "content": "hi"}"#) };
    let history = vec![
        Message::system("sys"),
        Message::user("task"),
        Message::assistant_call(call),
        Message::tool_result("c1", "wrote a.txt"),
        Message::user("findings"),
    ];
    let body = to_value(&request_body(Some("coder"), wired(&history), &tool_specs()));
    assert_eq!(body["model"], "coder");
    assert_eq!(body["parallel_tool_calls"], false);
    assert_eq!(body["tool_choice"], "auto");
    let tools = body["tools"].as_array().unwrap();
    assert_eq!(tools.len(), 7);
    assert_eq!(tools[0]["type"], "function");
    assert!(tools.iter().any(|t| t["function"]["name"] == "edit_file"));

    let msgs = body["messages"].as_array().unwrap();
    assert_eq!(msgs[0]["role"], "system");
    assert_eq!(msgs[2]["tool_calls"][0]["function"]["name"], "write_file");
    assert_eq!(msgs[2]["content"], Value::Null);
    // Arguments cross the wire as a JSON string.
    let arguments: Value =
        serde_json::from_str(msgs[2]["tool_calls"][0]["function"]["arguments"].as_str().unwrap()).unwrap();
    assert_eq!(arguments, value(r#"{"path": "a.txt", "content": "hi"}"#));
    assert_eq!(msgs[3]["role"], "tool");
    assert_eq!(msgs[3]["tool_call_id"], "c1");
}

#[test]
fn parses_a_tool_call_response() {
    let response = json(
        r#"{"choices": [{"message": {"role": "assistant", "content": null,
            "tool_calls": [{"id": "call_9", "type": "function",
              "function": {"name": "read_file", "arguments": "{\"path\": \"lib/main.dart\"}"}}]}}]}"#,
    );
    match decode_reply(&response) {
        Decoded::Call { id, name, args: Arguments::Text(t) } => {
            assert_eq!(id, "call_9");
            assert_eq!(name, "read_file");
            assert_eq!(value(&t), value(r#"{"path": "lib/main.dart"}"#));
        },
        _ => panic!("expected a call"),
    }
}

#[test]
fn parses_object_shaped_arguments_too() {
    let response = json(r#"{"choices": [{"message": {"tool_calls": [{"id": "x", "function": {"name": "run_tests", "arguments": {}}}]}}]}"#);
    match decode_reply(&response) {
        Decoded::Call { name, args: Arguments::Object(a), .. } => {
            assert_eq!(name, "run_tests");
            assert_eq!(to_value(&a), value("{}"));
        },
        _ => panic!("expected a call"),
    }
}

#[test]
fn a_plain_reply_is_the_done_signal() {
    let response = json(r#"{"choices": [{"message": {"role": "assistant", "content": "all done, analyzer clean"}}]}"#);
    assert!(matches!(decode_reply(&response), Decoded::Done(s) if s == "all done, analyzer clean"));
}

#[test]
fn malformed_replies_are_reported() {
    assert!(matches!(decode_reply(&json("{}")), Decoded::NoMessage));
    assert!(matches!(decode_reply(&json(r#"{"choices": [{"message": null}]}"#)), Decoded::NoMessage));
    assert!(matches!(
        decode_reply(&json(r#"{"choices": [{"message": {"tool_calls": [{"function": {}}]}}]}"#)),
        Decoded::NoName
    ));
    assert!(matches!(decode_reply(&json(r#"{"choices": [{"message": {"role": "assistant"}}]}"#)), Decoded::NoContent));
    match decode_reply(&json(r#"{"choices": [{"message": {"tool_calls": [{"function": {"name": "grep"}}]}}]}"#)) {
        Decoded::Call { id, args: Arguments::Empty, .. } => assert_eq!(id, "call_0"),
        _ => panic!("a call without id or arguments"),
    }
}

fn write_main(content: &str) -> ToolCall {
    let mut m = serde_json::Map::new();
    m.insert("content".to_string(), Value::String(content.to_string()));
    m.insert("path".to_string(), Value::String("bin/main.dart".to_string()));
    ToolCall { id: "c1".into(), name: "write_file".into(), args: to_json(&Value::Object(m)) }
}

fn config(max_turns: usize, verifier: Verifier) -> AgentConfig {
    AgentConfig { max_turns, verifier }
}

#[test]
fn done_signal_ends_the_loop_with_no_verifier() {
    let mut l = AgentLoop::start("build", &config(8, Verifier::NoCheck));
    assert_eq!(l.history.len(), 2);
    assert_eq!(l.history[0].content, SYSTEM_PROMPT);
    assert_eq!(l.history[1].content, "Task: build");
    assert!(l.begin_turn());
    // The write changes the project; with no verifier nothing runs.
    assert!(matches!(l.on_tool(write_main("void main() {}\n"), "wrote bin/main.dart", true, Some(None)), Step::Continue));
    assert!(l.begin_turn());
    match l.on_done("built it".into(), None) {
        Step::Finished(report) => {
            assert_eq!(report.turns, 2);
            assert_eq!(report.summary, "built it");
            assert!(!report.verified, "the model's word verifies nothing");
        },
        _ => panic!("done ends the loop"),
    }
}

#[test]
fn passing_verifier_ends_the_loop_right_after_an_edit() {
    let cfg = config(8, Verifier::Command { program: "true".into(), args: vec![] });
    let mut l = AgentLoop::start("build", &cfg);
    assert!(l.begin_turn());
    match l.on_tool(write_main("void main() {}\n"), "wrote bin/main.dart", true, Some(None)) {
        Step::Finished(report) => {
            assert_eq!(report.turns, 1);
            assert!(report.verified);
            assert_eq!(report.summary, "");
        },
        _ => panic!("a passing verifier ends the loop"),
    }
}

#[test]
fn findings_go_back_to_the_model_and_a_premature_done_is_rejected() {
    let mut l = AgentLoop::start("task", &config(3, Verifier::Dart));
    assert!(l.begin_turn());
    let s = l.on_tool(write_main("broken"), "wrote bin/main.dart", true, Some(Some("error: undefined_symbol".into())));
    assert!(matches!(s, Step::Continue));
    assert_eq!(l.history.last().unwrap().role, Role::User);
    assert_eq!(l.history.last().unwrap().content, "Verifier findings after your edit:\nerror: undefined_symbol\nFix them.");
    assert!(l.begin_turn());
    assert!(matches!(l.on_done("I am done".into(), Some("error: undefined_symbol".into())), Step::Continue));
    assert!(l.history.iter().any(|m| m.content.contains("undefined_symbol") && m.content.starts_with("You said you were done")));
    assert_eq!(l.verifier_output, "error: undefined_symbol");
    assert!(l.begin_turn());
    assert!(!l.begin_turn(), "the budget is spent");
    assert!(matches!(l.exhausted(), ForgeError::NoConvergence(3)));
}

#[test]
fn reads_do_not_run_the_verifier() {
    let mut l = AgentLoop::start("task", &config(3, Verifier::Dart));
    assert!(l.begin_turn());
    let call = ToolCall { id: "r".into(), name: "read_file".into(), args: json(r#"{"path": "a"}"#) };
    assert!(matches!(l.on_tool(call, "contents", false, None), Step::Continue));
    assert_eq!(l.history.len(), 4);
    assert_eq!(l.history[3].tool_call_id.as_deref(), Some("r"));
}

#[test]
fn forge_budget_and_outcome() {
    let c = forge_config(1);
    assert_eq!(c.max_turns, 8);
    assert!(matches!(c.verifier, Verifier::Dart));
    assert_eq!(forge_config(3).max_turns, 24);
    assert!(matches!(forge_outcome(Err(ForgeError::NoConvergence(8)), 1), Err(ForgeError::NoConvergence(1))));
    let ok = forge_outcome(
        Ok(AgentReport { turns: 2, summary: String::new(), verifier_output: "x".into(), verified: true }),
        3,
    )
    .unwrap();
    assert_eq!(ok.iterations, 2);
    assert_eq!(ok.analyzer_output, "x");
    assert_eq!(ForgeError::NoConvergence(1).message(), "did not converge after 1 iteration(s)");
}

#[test]
fn write_read_edit_roundtrip() {
    let (updated, n) = apply_edit("lib/a.dart", "void main() { broken(); }\n", "broken();", "print('ok');", false).unwrap();
    assert_eq!(updated, "void main() { print('ok'); }\n");
    assert_eq!(n, 1);
    assert_eq!(edit_report("lib/a.dart", n), "edited lib/a.dart (1 replacement(s))");
    assert!(write_report("lib/a.dart", "abc").starts_with("wrote "));
}

#[test]
fn edit_requires_unique_match() {
    let err = apply_edit("a.txt", "x x", "x", "y", false).unwrap_err();
    assert!(err.contains("matches 2 places"), "{err}");
    let (updated, n) = apply_edit("a.txt", "x x", "x", "y", true).unwrap();
    assert_eq!(updated, "y y");
    assert_eq!(n, 2);
}

#[test]
fn edit_missing_text_is_a_tool_error() {
    let err = apply_edit("a.txt", "hello", "zzz", "y", false).unwrap_err();
    assert!(err.contains("not found"));
    assert!(apply_edit("a.txt", "hello", "", "y", false).is_err());
    let o = ToolOutcome::err(&err);
    assert!(o.text.starts_with("error:"));
    assert!(!o.mutated);
}

#[test]
fn list_and_grep_see_the_tree() {
    assert!(listing_text(&vec!["lib/".to_string(), "pubspec.yaml".to_string()]).contains("lib/"));
    assert_eq!(listing_text(&vec![]), "(empty directory)");
    let files = vec![
        ("lib/main.dart".to_string(), "void main() { print('needle'); }\n".to_string()),
        ("lib/src/util.dart".to_string(), "// needle in a comment\n".to_string()),
    ];
    let out = grep_text(&files, "needle");
    assert!(out.contains("lib/main.dart:1:"), "{out}");
    assert!(out.contains("lib/src/util.dart:1:"), "{out}");
    assert!(grep_text(&files, "absent").contains("no matches"));
}

#[test]
fn run_command_enforces_allowlist_and_arg_jail() {
    let argv = |a: &[&str]| a.iter().map(|s| s.to_string()).collect::<Vec<String>>();
    assert!(check_command("sh", &argv(&["-c", "id"])).unwrap().contains("not allowlisted"));
    assert!(check_command("cat", &argv(&["../../etc/passwd"])).unwrap().contains("leaves the project"));
    assert!(check_command("cat", &argv(&["/etc/passwd"])).unwrap().contains("leaves the project"));
    assert!(check_command("echo", &argv(&["forged"])).is_none());
    assert!(leaves("a/../../b"));
    assert!(!leaves("lib/main.dart"));
    assert_eq!(command_text("0", "forged\n", ""), "exit: 0\nforged");
}

#[test]
fn run_tests_reports_unconfigured_projects() {
    assert_eq!(test_program(false, false), None);
    assert_eq!(test_program(true, true), Some("dart"));
    assert_eq!(test_program(false, true), Some("cargo"));
    assert!(NO_TEST_SETUP.contains("no recognized test setup"));
}

#[test]
fn unknown_tool_is_a_tool_error() {
    assert_eq!(tool_kind("delete_everything"), None);
    assert_eq!(tool_kind("edit_file"), Some(ToolKind::EditFile));
    assert!(unknown_tool("delete_everything").contains("unknown tool"));
}

#[test]
fn tool_arguments_and_output_bounds() {
    let args = json(r#"{"path": "a", "n": 1}"#);
    assert_eq!(arg_str(&args, "path").unwrap(), "a");
    assert!(arg_str(&args, "n").is_err());
    assert!(arg_str(&args, "missing").is_err());
    assert_eq!(truncate("abc", 10), "abc");
    let t = truncate(&"x".repeat(20), 10);
    assert!(t.starts_with("xxxxxxxxxx…"), "{t}");
    assert!(t.ends_with("[truncated, 20 bytes total]"), "{t}");
    assert_eq!(command_findings("dart", "exit status: 1", "out\n", "err"), "`dart` exited with exit status: 1\nout\nerr");
}

#[test]
fn backend_endpoint_drops_trailing_slashes() {
    let b = OpenAiBackend { url: "http://127.0.0.1:7777//".into(), model: None };
    assert_eq!(b.endpoint(), "http://127.0.0.1:7777/v1/chat/completions");
}

#[test]
fn only_a_write_that_went_through_reports_a_change() {
    let ok = write_outcome("lib/a.dart", "abc", Ok(()));
    assert!(ok.mutated);
    assert_eq!(ok.text, "wrote lib/a.dart (3 bytes)");
    let failed = write_outcome("lib/a.dart", "abc", Err("path escapes the project: ../x".to_string()));
    assert!(!failed.mutated);
    assert_eq!(failed.text, "error: path escapes the project: ../x");
    let edited = edit_outcome("lib/a.dart", 2, Ok(()));
    assert!(edited.mutated);
    assert_eq!(edited.text, "edited lib/a.dart (2 replacement(s))");
    assert!(!edit_outcome("lib/a.dart", 2, Err("disk full".to_string())).mutated);
    let unknown = unknown_tool_outcome("rm_rf");
    assert!(!unknown.mutated);
    assert!(unknown.text.starts_with("error: unknown tool `rm_rf`"));
}

#[test]
fn write_arguments_name_the_missing_one() {
    let both = json(r#"{"path": "a.txt", "content": "x"}"#);
    assert_eq!(write_args(&both).unwrap(), ("a.txt", "x"));
    assert_eq!(
        write_args(&json(r#"{"content": "x"}"#)).unwrap_err(),
        "bad write_file arguments: missing or non-string argument `path`"
    );
    assert_eq!(
        write_args(&json(r#"{"path": "a.txt"}"#)).unwrap_err(),
        "bad write_file arguments: missing or non-string argument `content`"
    );
}

#[test]
fn the_backend_never_gets_more_turns_than_the_budget() {
    let config = AgentConfig { max_turns: 3, verifier: Verifier::Dart };
    let mut l = AgentLoop::start("task", &config);
    let granted = (0..10).filter(|_| l.begin_turn()).count();
    assert_eq!(granted, 3);
    assert_eq!(l.turn, 3);
    assert!(!l.begin_turn());
    assert!(matches!(l.exhausted(), ForgeError::NoConvergence(3)));
}

#[test]
fn git_internals_are_never_searched() {
    assert!(inside_git(".git"));
    assert!(inside_git(".git/hidden"));
    assert!(inside_git("vendor/.git/config"));
    assert!(!inside_git("src/git.rs"));
    assert!(!inside_git(".gitignore"));
    assert!(!inside_git("lib/main.dart"));
}

#[test]
fn an_empty_pattern_matches_every_line() {
    let files = vec![("a.txt".to_string(), "one\ntwo".to_string())];
    assert_eq!(grep_text(&files, ""), "a.txt:1: one\na.txt:2: two");
}

#[test]
fn only_complete_write_and_edit_calls_plan_a_change() {
    match plan_tool("write_file", &json(r#"{"path": "a.txt", "content": "x"}"#)) {
        ToolPlan::Write { path, content } => assert_eq!((path.as_str(), content.as_str()), ("a.txt", "x")),
        _ => panic!("a complete write plans a write"),
    }
    match plan_tool("edit_file", &json(r#"{"path": "a", "old_string": "b", "new_string": "c", "replace_all": true}"#)) {
        ToolPlan::Edit { path, old, new, replace_all } => {
            assert_eq!((path.as_str(), old.as_str(), new.as_str(), replace_all), ("a", "b", "c", true))
        }
        _ => panic!("a complete edit plans an edit"),
    }
    match plan_tool("edit_file", &json(r#"{"path": "a", "new_string": "c"}"#)) {
        ToolPlan::Answer(o) => {
            assert!(!o.mutated);
            assert_eq!(o.text, "error: missing or non-string argument `old_string`");
        }
        _ => panic!("a partial edit is refused"),
    }
    match plan_tool("rm", &json("{}")) {
        ToolPlan::Answer(o) => {
            assert!(!o.mutated);
            assert!(o.text.starts_with("error: unknown tool `rm`"));
        }
        _ => panic!("unknown tools are refused"),
    }
    match plan_tool("list_dir", &json("{}")) {
        ToolPlan::List { path } => assert_eq!(path, "."),
        _ => panic!("list_dir defaults to the project root"),
    }
    match plan_tool("run_command", &json(r#"{"program": "ls", "args": ["-l", 3, "src"]}"#)) {
        ToolPlan::Run { program, args } => {
            assert_eq!(program, "ls");
            assert_eq!(args, vec!["-l".to_string(), "src".to_string()]);
        }
        _ => panic!("run_command plans a command"),
    }
    assert!(matches!(plan_tool("run_tests", &json("{}")), ToolPlan::Tests));
    let o = io_outcome(Err("no such file".to_string()));
    assert!(!o.mutated);
    assert_eq!(o.text, "error: no such file");
    assert!(!io_outcome(Ok("text".to_string())).mutated);
}
