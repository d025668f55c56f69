use lisa::app_registry::{tools_json, Registry};
use lisa::bus::{
    admission, call_entry, compensation, complete_entry, confirm_entry, confirmation_card, skip_entry, deny_entry, detail_json, disposition_of, outcome_reply,
    plan_undo, undo_entry, undo_outcome, undo_report_json, Admission, Answer, BusState, CallRequest, Outcome, Parked, UndoPlan, UndoReport,
    CONFIRMATION_TTL_MS,
};
use lisa::journal::{resolve_undo, JournalEntry};
use lisa::json::{Json, JsonNumber};
use lisa::manifest::{
    chain_trusted, check_args, resolve, validate, Confirmation, Manifest, ManifestError, Tier, ToolDecl, UndoDecl,
};
use serde_json::Value;

fn to_json(v: &Value) -> Json {
    match v {
        Value::Null => Json::Null,
        Value::Bool(b) => Json::Bool(*b),
        Value::Number(n) => Json::Number(JsonNumber { text: n.to_string(), unsigned: n.as_u64(), signed: n.as_i64() }),
        Value::String(s) => Json::Str(s.clone()),
        Value::Array(a) => Json::Array(a.iter().map(to_json).collect()),
        Value::Object(m) => Json::Object(m.iter().map(|(k, v)| (k.clone(), to_json(v))).collect()),
    }
}

fn to_value(j: &Json) -> Value {
    match j {
        Json::Null => Value::Null,
        Json::Bool(b) => Value::Bool(*b),
        Json::Number(n) => serde_json::from_str(&n.text).unwrap(),
        Json::Str(s) => Value::String(s.clone()),
        Json::Array(a) => Value::Array(a.iter().map(to_value).collect()),
        Json::Object(m) => Value::Object(m.iter().map(|(k, v)| (k.clone(), to_value(v))).collect()),
    }
}

fn json(text: &str) -> Json {
    to_json(&serde_json::from_str::<Value>(text).unwrap())
}

fn tool(name: &str, tier: Tier, description: &str, schema: &str, undo: Option<UndoDecl>) -> ToolDecl {
    ToolDecl {
        name: name.to_string(),
        description: description.to_string(),
        tier,
        input_schema: json(schema),
        undo,
    }
}

/// The calendar app of the bus fixtures.
fn calendar() -> Manifest {
    Manifest {
        version: 1,
        app_id: "org.gnome.Calendar".to_string(),
        tools: vec![
            tool(
                "add_event",
                Tier::Write,
                "Create a calendar event",
                r#"{ "type": "object", "required": ["title", "start"],
                     "properties": { "title": {"type": "string"}, "start": {"type": "string"} } }"#,
                Some(UndoDecl {
                    tool: "delete_event".to_string(),
                    map: vec![("event_id".to_string(), "$result.event_id".to_string())],
                }),
            ),
            tool(
                "delete_event",
                Tier::Destructive,
                "Delete a calendar event",
                r#"{ "type": "object", "required": ["event_id"],
                     "properties": { "event_id": {"type": "string"} } }"#,
                None,
            ),
            tool("list_events", Tier::Read, "List events", r#"{ "type": "object", "properties": {} }"#, None),
        ],
    }
}

fn registry() -> Registry {
    let mut r = Registry::new();
    r.insert(calendar()).unwrap();
    r
}

#[test]
fn list_reports_tier_and_undoability() {
    let r = registry();
    let tools = r.list();
    assert_eq!(tools.len(), 3);
    let add = tools.iter().find(|t| t.name == "add_event").unwrap();
    assert_eq!(add.tier, Tier::Write);
    assert!(add.undoable);
    let del = tools.iter().find(|t| t.name == "delete_event").unwrap();
    assert!(!del.undoable);
}

#[test]
fn discover_ranks_name_matches_first_and_omits_misses() {
    let r = registry();
    let hits = r.discover("add a calendar event");
    assert!(!hits.is_empty());
    assert_eq!(hits[0].name, "add_event", "name-token hit ranks first");
    assert!(r.discover("photosynthesis").is_empty());
    assert!(r.discover("").is_empty());
}

#[test]
fn discover_is_case_insensitive() {
    let r = registry();
    let hits = r.discover("DELETE EVENT");
    assert_eq!(hits[0].name, "delete_event");
}

#[test]
fn insert_replaces_on_same_app_id() {
    let mut r = registry();
    let mut m = calendar();
    m.tools.truncate(2);
    r.insert(m).unwrap();
    assert_eq!(r.len(), 1);
    assert_eq!(r.list().len(), 2, "reinstall replaces the old manifest");
}

#[test]
fn registry_lookups_find_installed_tools_only() {
    let r = registry();
    assert!(!r.is_empty());
    assert!(r.manifest("org.gnome.Calendar").is_some());
    assert!(r.manifest("org.gnome.Maps").is_none());
    assert_eq!(r.tool("org.gnome.Calendar", "list_events").unwrap().tier, Tier::Read);
    assert!(r.tool("org.gnome.Calendar", "nope").is_none());
    assert!(Registry::new().is_empty());
}

#[test]
fn load_parsed_keeps_valid_entries_and_reports_the_rest() {
    let mut r = Registry::new();
    let report = r.load_parsed(vec![
        ("broken.json".to_string(), Err("expected value at line 1".to_string())),
        ("calendar.json".to_string(), Ok(calendar())),
    ]);
    assert_eq!(report.loaded, vec!["org.gnome.Calendar".to_string()]);
    assert_eq!(report.skipped, vec![("broken.json".to_string(), "expected value at line 1".to_string())]);
    assert_eq!(r.len(), 1);
}

#[test]
fn resolve_undo_maps_result_input_and_literals() {
    let decl = UndoDecl {
        tool: "delete_event".into(),
        map: vec![
            ("event_id".into(), "$result.event_id".into()),
            ("everything".into(), "$result".into()),
            ("mode".into(), "hard".into()),
            ("title".into(), "$input.title".into()),
        ],
    };
    let input = json(r#"{"title": "dentist", "start": "2026-07-23T10:00:00Z"}"#);
    let result_v: Value = serde_json::from_str(r#"{"event_id": "evt-9", "nested": {"x": 1}}"#).unwrap();
    let result = to_json(&result_v);
    let args = to_value(&resolve_undo(&decl, &input, &result).unwrap());
    assert_eq!(args["event_id"], "evt-9");
    assert_eq!(args["title"], "dentist");
    assert_eq!(args["mode"], "hard");
    assert_eq!(args["everything"], result_v);
}

#[test]
fn resolve_undo_fails_on_missing_path() {
    let decl = UndoDecl {
        tool: "delete_event".into(),
        map: vec![("event_id".into(), "$result.missing".into())],
    };
    let err = resolve_undo(&decl, &json("{}"), &json("{}")).unwrap_err();
    assert!(err.contains("$result.missing"), "{err}");
}

#[test]
fn resolve_undo_walks_nested_input_paths() {
    let decl = UndoDecl {
        tool: "t".into(),
        map: vec![("x".into(), "$input.a.b".into())],
    };
    let args = to_value(&resolve_undo(&decl, &json(r#"{"a": {"b": 7}}"#), &json("null")).unwrap());
    assert_eq!(args["x"], 7);
    let err = resolve_undo(&decl, &json(r#"{"a": 1}"#), &json("null")).unwrap_err();
    assert_eq!(err, "$input.a.b: not present in input");
}

fn call(tool: &str, args: &str, trusted: bool) -> CallRequest {
    CallRequest {
        actor: "host".to_string(),
        app_id: "org.gnome.Calendar".to_string(),
        tool: tool.to_string(),
        args: json(args),
        chain: if trusted { vec!["user".to_string()] } else { vec![] },
    }
}

const EVENT_ARGS: &str = r#"{"title": "dentist", "start": "2026-07-24T10:00:00Z"}"#;

#[test]
fn trusted_read_runs_silently() {
    let m = calendar();
    let req = call("list_events", "{}", true);
    match admission(m.tool("list_events"), &req) {
        Admission::Run(r) => {
            assert_eq!(r.confirmation, Confirmation::Silent);
            assert_eq!(disposition_of(r.confirmation), "executed");
        },
        _ => panic!("read with a trusted chain runs"),
    }
}

#[test]
fn write_waits_for_a_chip_and_destructive_for_a_modal() {
    let m = calendar();
    match admission(m.tool("add_event"), &call("add_event", EVENT_ARGS, true)) {
        Admission::Confirm(r) => {
            assert_eq!(r.confirmation, Confirmation::Chip);
            assert!(!r.escalated);
            assert_eq!(disposition_of(r.confirmation), "confirm-chip");
        },
        _ => panic!("write waits"),
    }
    match admission(m.tool("delete_event"), &call("delete_event", r#"{"event_id": "evt-1"}"#, true)) {
        Admission::Confirm(r) => assert_eq!(r.confirmation, Confirmation::Modal),
        _ => panic!("destructive waits"),
    }
}

#[test]
fn untrusted_or_empty_chain_escalates_one_tier() {
    let r = resolve(Tier::Read, false);
    assert_eq!(r.effective, Tier::Write);
    assert_eq!(r.confirmation, Confirmation::Chip);
    assert!(r.escalated);
    let r = resolve(Tier::Write, false);
    assert_eq!(r.effective, Tier::Destructive);
    assert_eq!(r.confirmation, Confirmation::Modal);
    let r = resolve(Tier::Destructive, false);
    assert_eq!(r.effective, Tier::Destructive);
    assert!(!r.escalated);
    let m = calendar();
    assert!(matches!(
        admission(m.tool("list_events"), &call("list_events", "{}", false)),
        Admission::Confirm(_)
    ));
}

#[test]
fn unknown_tool_and_invalid_args_are_denied() {
    let m = calendar();
    match admission(m.tool("nope"), &call("nope", "{}", true)) {
        Admission::Denied { status, reason } => {
            assert_eq!(status, "unknown-tool");
            assert_eq!(reason, "unknown tool org.gnome.Calendar/nope");
        },
        _ => panic!("unknown tool is denied"),
    }
    match admission(m.tool("add_event"), &call("add_event", r#"{"title": "dentist"}"#, true)) {
        Admission::Denied { status, reason } => {
            assert_eq!(status, "invalid-args");
            assert_eq!(reason, "args rejected by input_schema: missing required argument \"start\"");
        },
        _ => panic!("invalid args are denied"),
    }
}

fn parked(tool: &str, at: u64) -> Parked {
    Parked {
        request: call(tool, "{}", true),
        tier: Tier::Write,
        undo: None,
        resolution: resolve(Tier::Write, true),
        start_ref: 1,
        parked_ms: at,
    }
}

#[test]
fn parked_calls_are_answered_once() {
    let mut s = BusState::new();
    let id = s.next_call_id();
    assert_ne!(s.next_call_id(), id);
    s.park(id, parked("add_event", 1_000));
    assert_eq!(s.pending_count(), 1);
    assert!(matches!(s.answer(id, true, 2_000), Ok(Answer::Approved(_))));
    assert_eq!(s.pending_count(), 0);
    assert_eq!(s.answer(id, true, 2_000).err(), Some(id), "an answered confirmation is gone");
}

#[test]
fn denial_and_expiry_refuse_the_call() {
    let mut s = BusState::new();
    let a = s.next_call_id();
    s.park(a, parked("add_event", 0));
    assert!(matches!(s.answer(a, false, 10), Ok(Answer::Denied(_))));
    let b = s.next_call_id();
    s.park(b, parked("add_event", 0));
    assert!(matches!(s.answer(b, true, CONFIRMATION_TTL_MS + 1), Ok(Answer::Expired(_))));
}

#[test]
fn privileged_calls_journal_their_resolved_compensation() {
    let m = calendar();
    let add = m.tool("add_event").unwrap();
    let c = compensation(add.tier, &add.undo, &json(r#"{"title": "x"}"#), &json(r#"{"event_id": "evt-1"}"#));
    assert!(c.journal);
    let (undo_tool, args) = c.undo.unwrap();
    assert_eq!(undo_tool, "delete_event");
    assert_eq!(to_value(&args), serde_json::from_str::<Value>(r#"{"event_id": "evt-1"}"#).unwrap());
    let del = m.tool("delete_event").unwrap();
    let c = compensation(del.tier, &del.undo, &json("{}"), &json("{}"));
    assert!(c.journal);
    assert!(c.undo.is_none());
    assert_eq!(c.notes, vec!["tool declares no undo".to_string()]);
    let list = m.tool("list_events").unwrap();
    assert!(!compensation(list.tier, &list.undo, &json("{}"), &json("{}")).journal);
}

fn entry(undo: Option<(&str, &str)>) -> JournalEntry {
    JournalEntry {
        id: 7,
        ts: 0,
        ledger_ref: 3,
        actor: "host".into(),
        app_id: "org.gnome.Calendar".into(),
        tool: "add_event".into(),
        args_json: "{}".into(),
        result_json: "{}".into(),
        undo_tool: undo.map(|u| u.0.to_string()),
        undo_args_json: undo.map(|u| u.1.to_string()),
        state: "active".into(),
    }
}

#[test]
fn undo_skips_non_undoable_actions_and_reports_empty_journal() {
    assert!(matches!(plan_undo(None), UndoPlan::Nothing));
    match plan_undo(Some(entry(None))) {
        UndoPlan::Skip { journal_id, tool, .. } => {
            assert_eq!(journal_id, 7);
            assert_eq!(tool, "add_event");
        },
        _ => panic!("no compensation: skipped"),
    }
    match plan_undo(Some(entry(Some(("delete_event", r#"{"event_id":"evt-1"}"#))))) {
        UndoPlan::Dispatch { undo_tool, undo_args_json, .. } => {
            assert_eq!(undo_tool, "delete_event");
            assert_eq!(undo_args_json, r#"{"event_id":"evt-1"}"#);
        },
        _ => panic!("compensation is dispatched"),
    }
}

#[test]
fn undo_outcome_pops_only_on_success() {
    let (report, pop) = undo_outcome("a".into(), "t".into(), "u".into(), Ok(json("{}")));
    assert!(pop);
    assert!(matches!(report, UndoReport::Undone { .. }));
    let (report, pop) = undo_outcome("a".into(), "t".into(), "u".into(), Err("boom".into()));
    assert!(!pop);
    match report {
        UndoReport::Failed { error, .. } => assert_eq!(error, "boom"),
        _ => panic!("failed dispatch reported"),
    }
}

#[test]
fn ledger_detail_and_confirmation_card_describe_the_call() {
    let m = calendar();
    let req = call("add_event", r#"{"title": "dentist"}"#, true);
    let r = resolve(Tier::Write, true);
    let detail = to_value(&detail_json(&req, &r));
    assert_eq!(detail["tool"], "add_event");
    assert_eq!(detail["tier"], "write");
    assert_eq!(detail["confirmation"], "chip");
    assert_eq!(detail["escalated"], false);
    let card = to_value(&confirmation_card(5, &req, m.tool("add_event").unwrap(), &r));
    assert_eq!(card["tool"], "add_event");
    assert_eq!(card["undoable"], true);
}

#[test]
fn dbus_replies_carry_disposition_and_detail() {
    let (id, d, detail) = outcome_reply(&Outcome::Executed { call_id: 4, ledger_ref: 9, result: json(r#"{"event_id": "e"}"#) });
    assert_eq!((id, d.as_str()), (4, "executed"));
    assert_eq!(to_value(&detail), serde_json::from_str::<Value>(r#"{"ledger_ref": 9, "result": {"event_id": "e"}}"#).unwrap());
    let (_, d, detail) = outcome_reply(&Outcome::Failed { call_id: 4, ledger_ref: 9, error: "boom".into() });
    assert_eq!(d, "failed");
    assert_eq!(to_value(&detail)["error"], "boom");
    let (_, d, _) = outcome_reply(&Outcome::AwaitingConfirmation {
        call_id: 5,
        confirmation: Confirmation::Modal,
        escalated: true,
        spec: json("{}"),
    });
    assert_eq!(d, "confirm-modal");
    let (_, d, detail) = outcome_reply(&Outcome::Denied { call_id: 6, reason: "denied by user".into() });
    assert_eq!(d, "denied");
    assert_eq!(to_value(&detail)["reason"], "denied by user");
}

#[test]
fn undo_reports_are_tagged_by_status() {
    assert_eq!(serde_json::to_string(&to_value(&undo_report_json(&UndoReport::Nothing))).unwrap(), r#"{"status":"nothing"}"#);
    let r = UndoReport::NotUndoable { app_id: "a".into(), tool: "t".into() };
    assert_eq!(to_value(&undo_report_json(&r))["status"], "not-undoable");
    let r = UndoReport::Failed { app_id: "a".into(), undo_tool: "u".into(), error: "e".into() };
    match undo_report_json(&r) {
        Json::Object(f) => {
            let keys: Vec<&str> = f.iter().map(|(k, _)| k.as_str()).collect();
            assert_eq!(keys, ["status", "app_id", "undo_tool", "error"]);
        },
        _ => panic!("an object"),
    }
}

#[test]
fn list_tools_json_keeps_field_order() {
    let refs = registry().list();
    match tools_json(&refs) {
        Json::Array(items) => {
            assert_eq!(items.len(), 3);
            match &items[0] {
                Json::Object(f) => {
                    let keys: Vec<&str> = f.iter().map(|(k, _)| k.as_str()).collect();
                    assert_eq!(keys, ["app_id", "name", "tier", "description", "undoable", "input_schema"]);
                },
                _ => panic!("an object"),
            }
            assert_eq!(to_value(&items[0])["tier"], "write");
        },
        _ => panic!("an array"),
    }
}

#[test]
fn write_tier_parks_for_chip_and_never_dispatches_unconfirmed() {
    let m = calendar();
    let req = call("add_event", EVENT_ARGS, true);
    let r = match admission(m.tool("add_event"), &req) {
        Admission::Confirm(r) => r,
        _ => panic!("a write waits for the user"),
    };
    assert_eq!(r.confirmation, Confirmation::Chip);
    assert!(!r.escalated);
    let card = to_value(&confirmation_card(1, &req, m.tool("add_event").unwrap(), &r));
    assert_eq!(card["tool"], "add_event");
    assert_eq!(card["undoable"], true);
    let mut s = BusState::new();
    s.park(1, Parked { request: req, tier: Tier::Write, undo: None, resolution: r, start_ref: 1, parked_ms: 0 });
    assert_eq!(s.pending_count(), 1);
}

#[test]
fn empty_chain_fails_closed_even_for_read() {
    let m = calendar();
    match admission(m.tool("list_events"), &call("list_events", "{}", false)) {
        Admission::Confirm(r) => {
            assert_eq!(r.confirmation, Confirmation::Chip);
            assert!(r.escalated);
        },
        _ => panic!("an empty chain never runs silently"),
    }
}

#[test]
fn chain_trust_takes_every_link() {
    assert!(!chain_trusted(&vec![]));
    assert!(chain_trusted(&vec!["user".to_string()]));
    assert!(!chain_trusted(&vec!["user".to_string(), "mail".to_string()]));
    assert!(!chain_trusted(&vec!["web".to_string()]));
    let m = calendar();
    let mut req = call("list_events", "{}", true);
    req.chain.push("mail".to_string());
    match admission(m.tool("list_events"), &req) {
        Admission::Confirm(r) => assert_eq!(r.confirmation, Confirmation::Chip),
        _ => panic!("a mail-tainted chain escalates"),
    }
}

#[test]
fn arguments_are_checked_against_object_schemas() {
    let schema = json(r#"{"type": "object", "required": ["title", "start"]}"#);
    assert!(check_args(&schema, &json(EVENT_ARGS)).is_ok());
    assert_eq!(check_args(&schema, &json(r#"{"start": "x"}"#)), Err("missing required argument \"title\"".to_string()));
    assert_eq!(check_args(&schema, &json("[1]")), Err("arguments must be an object".to_string()));
    assert!(check_args(&json(r#"{"type": "string"}"#), &json("7")).is_ok());
    assert!(check_args(&json(r#"{"type": "object"}"#), &json("{}")).is_ok());
}

#[test]
fn manifests_are_validated_before_install() {
    assert!(validate(&calendar()).is_ok());
    let mut bad = calendar();
    bad.version = 9;
    assert_eq!(validate(&bad).unwrap_err().message(), "unsupported lisa_manifest version 9");
    let mut empty = calendar();
    empty.app_id = String::new();
    assert!(matches!(validate(&empty), Err(ManifestError::EmptyAppId)));
    let mut dup = calendar();
    dup.tools.push(tool("list_events", Tier::Read, "again", r#"{"type": "object"}"#, None));
    assert_eq!(validate(&dup).unwrap_err().message(), "duplicate tool list_events");
    let mut schema = calendar();
    schema.tools.push(tool("odd", Tier::Read, "odd", "[]", None));
    assert_eq!(validate(&schema).unwrap_err().message(), "input_schema of odd must be an object");
    let mut r = registry();
    let mut v9 = calendar();
    v9.version = 9;
    v9.tools.truncate(1);
    assert!(r.insert(v9).is_err());
    assert_eq!(r.list().len(), 3, "a refused manifest leaves the registry as it was");
}

#[test]
fn load_dir_skips_invalid_files_and_keeps_valid_ones() {
    let mut bad = calendar();
    bad.version = 9;
    let mut r = Registry::new();
    let report = r.load_parsed(vec![
        ("badversion.json".to_string(), Ok(bad)),
        ("broken.json".to_string(), Err("expected value at line 1".to_string())),
        ("calendar.json".to_string(), Ok(calendar())),
    ]);
    assert_eq!(report.loaded, vec!["org.gnome.Calendar".to_string()]);
    assert_eq!(report.skipped.len(), 2);
    assert_eq!(report.skipped[0], ("badversion.json".to_string(), "unsupported lisa_manifest version 9".to_string()));
    assert_eq!(r.len(), 1);
}

#[test]
fn bus_ledger_entries_hash_their_input() {
    let req = call("add_event", EVENT_ARGS, true);
    let text = r#"{"start":"2026-07-24T10:00:00Z","title":"dentist"}"#;
    let e = call_entry(&req, text);
    assert_eq!(e.kind, "tool.call");
    assert_eq!(e.status, "started");
    assert_eq!(e.input_hash, blake3::hash(text.as_bytes()).to_hex().to_string());
    assert_eq!(e.preview, format!("org.gnome.Calendar/add_event {text}"));
    let d = deny_entry(&req, text, Some(4), "denied", "denied by user");
    assert_eq!(d.kind, "tool.deny");
    assert_eq!(d.ref_id, Some(4));
    assert_eq!(d.preview, "org.gnome.Calendar/add_event: denied by user");
    assert_eq!(d.input_hash, e.input_hash);
    let u = undo_entry("org.gnome.Calendar", "add_event", "delete_event", r#"{"event_id":"evt-1"}"#, 9);
    assert_eq!(u.kind, "tool.undo");
    assert_eq!(u.ref_id, Some(9));
    assert_eq!(u.preview, "undo org.gnome.Calendar/add_event via delete_event");
    assert_eq!(u.input_hash, blake3::hash(br#"{"event_id":"evt-1"}"#).to_hex().to_string());
}

#[test]
fn confirmation_completion_and_skip_entries_refer_back() {
    let req = call("add_event", "{}", true);
    let c = confirm_entry(&req, lisa::manifest::Confirmation::Chip, 9);
    assert_eq!(c.kind, "tool.confirm");
    assert_eq!(c.preview, "chip approved org.gnome.Calendar/add_event");
    assert_eq!((c.status, c.ref_id), ("ok", Some(9)));
    let ok = complete_entry(9, Ok("{\"id\":1}"));
    assert_eq!((ok.kind, ok.status, ok.ref_id), ("tool.complete", "ok", Some(9)));
    assert_eq!(ok.preview, "{\"id\":1}");
    let err = complete_entry(9, Err("timeout"));
    assert_eq!((err.status, err.preview.as_str()), ("error", "timeout"));
    let skip = skip_entry("org.gnome.Calendar", "list_events", 4);
    assert_eq!(skip.kind, "tool.undo");
    assert_eq!(skip.preview, "org.gnome.Calendar/list_events is not undoable — skipped");
    assert_eq!((skip.status, skip.ref_id), ("skipped", Some(4)));
}
