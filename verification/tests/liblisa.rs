use lisa::grammar::{
    escape_json, gbnf_string_literal, json_schema_to_gbnf, repetition_suffix, sanitize, GrammarError,
};
use lisa::intent::{arg_filler, parse_choice, router, Choice, IntentCall, IntentError, ToolInfo, NO_INTENT};
use lisa::json::{Json, JsonNumber};
use lisa::tasks::{addressed_intent, extract};
use serde_json::Value;

fn to_json(v: &Value) -> Json {
    match v {
        Value::Null => Json::Null,
        Value::Bool(b) => Json::Bool(*b),
        Value::Number(n) => Json::Number(JsonNumber { text: n.to_string(), unsigned: n.as_u64(), signed: n.as_i64() }),
        Value::String(s) => Json::Str(s.clone()),
        Value::Array(a) => Json::Array(a.iter().map(to_json).collect()),
        Value::Object(m) => Json::Object(m.iter().map(|(k, v)| (k.clone(), to_json(v))).collect()),
    }
}

fn to_value(j: &Json) -> Value {
    match j {
        Json::Null => Value::Null,
        Json::Bool(b) => Value::Bool(*b),
        Json::Number(n) => serde_json::from_str(&n.text).unwrap(),
        Json::Str(s) => Value::String(s.clone()),
        Json::Array(a) => Value::Array(a.iter().map(to_value).collect()),
        Json::Object(m) => Value::Object(m.iter().map(|(k, v)| (k.clone(), to_value(v))).collect()),
    }
}

fn json(text: &str) -> Json {
    to_json(&serde_json::from_str::<Value>(text).unwrap())
}

fn gbnf(schema: &str) -> Result<String, GrammarError> {
    json_schema_to_gbnf(&json(schema))
}

#[test]
fn recipe_schema_produces_root_and_property_rules() {
    let g = gbnf(
        r#"{
            "type": "object",
            "properties": {
                "title": { "type": "string" },
                "servings": { "type": "integer" },
                "ingredients": { "type": "array", "items": { "type": "string" } }
            },
            "required": ["title", "servings", "ingredients"]
        }"#,
    )
    .unwrap();
    assert!(g.starts_with("root ::="), "grammar must start with root: {g}");
    assert!(g.contains(r#""\"title\"""#), "title key literal missing: {g}");
    assert!(g.contains("integer ::="), "integer primitive missing: {g}");
    assert!(g.contains(r#""[" space"#), "array rule missing: {g}");
}

#[test]
fn shared_primitives_are_defined_once() {
    let g = gbnf(r#"{ "type": "object", "properties": { "a": { "type": "string" }, "b": { "type": "string" } } }"#)
        .unwrap();
    assert_eq!(g.matches("string ::=").count(), 1, "grammar: {g}");
}

#[test]
fn string_enum_becomes_literal_alternatives() {
    let g = gbnf(r#"{ "enum": ["red", "green", "blue"] }"#).unwrap();
    assert!(g.contains(r#""\"red\"" | "\"green\"" | "\"blue\"""#), "grammar: {g}");
}

#[test]
fn nested_objects_get_named_rules() {
    let g = gbnf(
        r#"{
            "type": "object",
            "properties": {
                "author": { "type": "object", "properties": { "name": { "type": "string" } } }
            }
        }"#,
    )
    .unwrap();
    assert!(g.contains("root-author ::="), "grammar: {g}");
}

#[test]
fn bounded_array_emits_finite_repetition() {
    let g = gbnf(r#"{ "type": "array", "items": { "type": "string" }, "minItems": 1, "maxItems": 12 }"#).unwrap();
    assert!(g.contains("{0,11}"), "grammar: {g}");
    assert!(!g.contains(r#"( "," space string )*"#), "unbounded item loop left in grammar: {g}");
}

#[test]
fn bounded_string_emits_char_repetition() {
    let g = gbnf(r#"{ "type": "string", "maxLength": 80 }"#).unwrap();
    assert!(g.contains("string-char"), "grammar: {g}");
    assert!(g.contains("{0,80}"), "grammar: {g}");
}

#[test]
fn max_items_below_min_items_is_invalid() {
    let r = gbnf(r#"{ "type": "array", "items": { "type": "string" }, "minItems": 3, "maxItems": 1 }"#);
    assert!(matches!(r, Err(GrammarError::Invalid(_))));
}

#[test]
fn schema_without_type_is_unsupported() {
    assert!(matches!(gbnf(r#"{ "description": "anything" }"#), Err(GrammarError::Unsupported(_))));
}

#[test]
fn generated_grammar_lines_are_well_formed() {
    let g = gbnf(
        r#"{ "type": "object", "properties": { "done": { "type": "boolean" }, "score": { "type": "number" } } }"#,
    )
    .unwrap();
    for line in g.lines() {
        assert!(line.contains("::="), "malformed rule line: {line}");
    }
}

#[test]
fn grammar_helpers_escape_and_bound() {
    assert_eq!(escape_json("a\"b\\c"), "a\\\"b\\\\c");
    assert_eq!(gbnf_string_literal("x"), r#""x""#);
    assert_eq!(gbnf_string_literal("\"x\""), r#""\"x\"""#);
    assert_eq!(sanitize("first name!"), "first-name-");
    assert_eq!(repetition_suffix(0, None), "*");
    assert_eq!(repetition_suffix(2, None), "{2,}");
    assert_eq!(repetition_suffix(1, Some(3)), "{1,3}");
}

#[test]
fn the_exact_grammar_of_a_small_schema() {
    let g = gbnf(r#"{ "type": "object", "properties": { "ok": { "type": "boolean" } }, "required": ["ok"] }"#)
        .unwrap();
    assert!(g.contains("boolean ::= (\"true\" | \"false\") space"), "grammar: {g}");
    assert!(g.contains("space ::="), "grammar: {g}");
}

fn catalog() -> Vec<ToolInfo> {
    vec![
        ToolInfo {
            app_id: "org.lisa.notes".into(),
            tool: "create".into(),
            description: "Create a note with a title and body".into(),
            input_schema: json(
                r#"{"type": "object", "properties": {"title": {"type": "string"}, "body": {"type": "string"}},
                    "required": ["title"]}"#,
            ),
        },
        ToolInfo {
            app_id: "org.lisa.lights".into(),
            tool: "all_off".into(),
            description: "Turn every light off".into(),
            input_schema: json(r#"{"type": "object", "properties": {}}"#),
        },
    ]
}

#[test]
fn router_output_schema_compiles_to_a_grammar() {
    // The whole point: the router's choice is grammar-guaranteed valid.
    let task = router(&catalog());
    let g = task.grammar().expect("router schema must compile");
    assert!(g.starts_with("root ::="), "grammar: {g}");
    // The enum carries every tool id plus the `none` sentinel.
    assert!(g.contains("org.lisa.notes::create"), "grammar: {g}");
    assert!(g.contains("org.lisa.lights::all_off"), "grammar: {g}");
    assert!(g.contains("none"), "grammar: {g}");
    // Both catalog ids are listed in the prompt for the model.
    assert!(task.system.contains("org.lisa.notes::create — Create a note"));
}

#[test]
fn parse_choice_reads_a_real_choice() {
    let out = json(r#"{"intent": "org.lisa.notes::create", "confidence": 0.9}"#);
    let choice = parse_choice(&out).unwrap().expect("a choice");
    assert_eq!(choice.app_id, "org.lisa.notes");
    assert_eq!(choice.tool, "create");
    assert!((choice.confidence.parse::<f64>().unwrap() - 0.9).abs() < 1e-9);
}

#[test]
fn parse_choice_handles_none_and_malformed() {
    assert!(matches!(parse_choice(&json(r#"{"intent": "none", "confidence": 0.1}"#)), Ok(None)));
    assert!(matches!(
        parse_choice(&json(r#"{"confidence": 0.5}"#)),
        Err(IntentError::MissingField("intent"))
    ));
    assert!(matches!(
        parse_choice(&json(r#"{"intent": "notoolsep", "confidence": 0.5}"#)),
        Err(IntentError::MalformedIntentId)
    ));
    assert_eq!(NO_INTENT, "none");
    assert_eq!(IntentError::MalformedIntentId.message(), "intent id is not `<app_id>::<tool>`");
}

#[test]
fn arg_filler_only_for_tools_with_args_and_its_schema_compiles() {
    let tools = catalog();
    // notes.create takes args → a fill task whose grammar compiles.
    let filler = arg_filler(&tools[0]).expect("notes.create takes args");
    assert!(filler.grammar().is_ok(), "arg grammar must compile");
    assert!(filler.system.contains("org.lisa.notes::create"));
    // lights.all_off takes none → no second model call.
    assert!(arg_filler(&tools[1]).is_none());
    assert_eq!(tools[0].id(), "org.lisa.notes::create");
    assert!(tools[0].takes_args());
    assert!(!tools[1].takes_args());
}

#[test]
fn intent_call_assembles_bus_ready_with_user_provenance() {
    let choice = Choice { app_id: "org.lisa.notes".into(), tool: "create".into(), confidence: "0.8".into() };
    let call = IntentCall::from_user(&choice, json(r#"{"title": "milk"}"#));
    assert_eq!(call.app_id, "org.lisa.notes");
    assert_eq!(call.tool, "create");
    assert_eq!(to_value(&call.args)["title"], "milk");
    assert_eq!(call.chain, vec!["user".to_string()]);
    // Non-object args are coerced to an empty object (never garbage).
    let call2 = IntentCall::from_user(&choice, json(r#""oops""#));
    assert_eq!(to_value(&call2.args), serde_json::from_str::<Value>("{}").unwrap());
}

#[test]
fn addressed_intent_request_is_grammar_constrained() {
    let task = addressed_intent();
    let req = to_value(&task.request("hey can you turn off the kitchen light"));
    assert_eq!(req["response_format"]["type"], "json_schema");
    assert_eq!(req["response_format"]["json_schema"]["name"], "addressed_intent");
    // The schema compiles to a grammar (guaranteed-valid output).
    let g = task.grammar().unwrap();
    assert!(g.contains(r#""\"addressed\"""#), "grammar: {g}");
    assert!(g.contains("boolean"), "grammar: {g}");
}

#[test]
fn schema_bounds_the_intent_string() {
    let g = addressed_intent().grammar().unwrap();
    assert!(g.contains("{0,200}"), "intent must be bounded: {g}");
}

#[test]
fn extraction_tasks_carry_their_instruction_and_input() {
    let t = extract("recipe", "Extract the recipe.", json(r#"{"type": "string"}"#));
    assert_eq!(t.name, "recipe");
    assert_eq!(t.system, "Extract the recipe.");
    let req = to_value(&t.request("two eggs"));
    assert_eq!(req["messages"][0]["role"], "system");
    assert_eq!(req["messages"][1]["content"], "two eggs");
}
