//! Guided-generation tasks: each task is data — a system instruction and
//! a JSON Schema for the result — run through any OpenAI-compatible
//! endpoint with a `json_schema` response format. The first task is
//! addressed-intent: was an utterance directed at Lisa?

use crate::grammar::{json_schema_to_gbnf, result_view, spec_json_schema_to_gbnf, GrammarError, SpecError};
use crate::json::{copy_json, fields_view, num_u64, object, u64_value, JValue, Json};
use crate::text::owned;
use vstd::prelude::*;

verus! {

/// A guided-generation task: a name, a system instruction and a result
/// schema.
pub struct Task {
    pub name: String,
    pub system: String,
    pub schema: Json,
}

pub fn kv(k: &str, v: Json) -> (f: (String, Json))
    ensures
        f.0@ == k@,
        f.1@ == v@,
{
    (owned(k), v)
}

pub fn jtext(s: &str) -> (j: Json)
    ensures
        j@ == JValue::Str(s@),
{
    Json::Str(owned(s))
}

/// A chat message object.
pub open spec fn message_value(role: Seq<char>, content: Seq<char>) -> JValue {
    JValue::Object(seq![("content"@, JValue::Str(content)), ("role"@, JValue::Str(role))])
}

fn message(role: &str, content: &str) -> (j: Json)
    ensures
        j@ == message_value(role@, content@),
{
    let mut f: Vec<(String, Json)> = Vec::new();
    f.push(kv("content", jtext(content)));
    f.push(kv("role", jtext(role)));
    assert(fields_view(f@) =~= seq![("content"@, JValue::Str(content@)), ("role"@, JValue::Str(role@))]);
    object(f)
}

/// The chat-completions request for a task over `input` (keys in order):
/// the instruction and the input, at most 200 tokens, constrained to the
/// task's schema.
pub open spec fn spec_request(name: Seq<char>, system: Seq<char>, schema: JValue, input: Seq<char>) -> JValue {
    JValue::Object(
        seq![
            ("max_tokens"@, u64_value(200)),
            ("messages"@, JValue::Array(seq![message_value("system"@, system), message_value("user"@, input)])),
            ("response_format"@, JValue::Object(
                seq![
                    ("json_schema"@, JValue::Object(
                        seq![("name"@, JValue::Str(name)), ("schema"@, schema)],
                    )),
                    ("type"@, JValue::Str("json_schema"@)),
                ],
            )),
        ],
    )
}

impl Task {
    /// The chat-completions request body for the extraction over `input`.
    pub fn request(&self, input: &str) -> (j: Json)
        ensures
            j@ == spec_request(self.name@, self.system@, self.schema@, input@),
    {
        let mut msgs: Vec<Json> = Vec::new();
        msgs.push(message("system", self.system.as_str()));
        msgs.push(message("user", input));
        let ghost mv = Seq::new(msgs@.len(), |i: int| msgs@[i]@);
        let msgs_j = Json::Array(msgs);
        proof {
            if let JValue::Array(x) = crate::json::json_view(msgs_j) {
                assert(x =~= seq![message_value("system"@, self.system@), message_value("user"@, input@)]);
            }
        }
        let mut js: Vec<(String, Json)> = Vec::new();
        js.push(kv("name", Json::Str(self.name.clone())));
        js.push(kv("schema", copy_json(&self.schema)));
        let ghost jsv = fields_view(js@);
        let js_j = object(js);
        let mut rf: Vec<(String, Json)> = Vec::new();
        rf.push(kv("json_schema", js_j));
        rf.push(kv("type", jtext("json_schema")));
        let ghost rfv = fields_view(rf@);
        let rf_j = object(rf);
        let mut f: Vec<(String, Json)> = Vec::new();
        f.push(kv("max_tokens", num_u64(200)));
        f.push(kv("messages", msgs_j));
        f.push(kv("response_format", rf_j));
        proof {
            assert(jsv =~= seq![("name"@, JValue::Str(self.name@)), ("schema"@, self.schema@)]);
            assert(rfv =~= seq![("json_schema"@, JValue::Object(jsv)), ("type"@, JValue::Str("json_schema"@))]);
            assert(fields_view(f@) =~= seq![
                ("max_tokens"@, u64_value(200)),
                ("messages"@, JValue::Array(seq![message_value("system"@, self.system@), message_value("user"@, input@)])),
                ("response_format"@, JValue::Object(rfv)),
            ]);
        }
        object(f)
    }

    /// The GBNF grammar that constrains the extraction's output.
    pub fn grammar(&self) -> (r: Result<String, GrammarError>)
        ensures
            result_view(r) == spec_json_schema_to_gbnf(self.schema),
    {
        json_schema_to_gbnf(&self.schema)
    }
}

/// An extraction task: `name`, `instruction`, and the schema to fill.
pub fn extract(name: &str, instruction: &str, schema: Json) -> (t: Task)
    ensures
        t.name@ == name@,
        t.system@ == instruction@,
        t.schema == schema,
{
    Task { name: owned(name), system: owned(instruction), schema }
}

/// The addressed-intent instruction.
pub const ADDRESSED_SYSTEM: &'static str = "You are the ear of Lisa, an on-device assistant. You are given a transcript of something a person said out loud near the computer. Decide whether they were addressing Lisa (asking it to do or answer something) versus talking to another person, thinking aloud, or background speech. Be conservative: when unsure, addressed is false — responding when not addressed is worse than missing a request. Reply ONLY as the JSON object: addressed (bool), confidence (0..1), intent (a short imperative summary of the request, or empty when not addressed).";

/// The addressed-intent result schema: addressed (boolean), confidence
/// (number), intent (a string of at most 200 characters), all required.
pub open spec fn addressed_schema() -> JValue {
    JValue::Object(
        seq![
            ("properties"@, JValue::Object(
                seq![
                    ("addressed"@, JValue::Object(seq![("type"@, JValue::Str("boolean"@))])),
                    ("confidence"@, JValue::Object(seq![("type"@, JValue::Str("number"@))])),
                    ("intent"@, JValue::Object(
                        seq![("maxLength"@, u64_value(200)), ("type"@, JValue::Str("string"@))],
                    )),
                ],
            )),
            ("required"@, JValue::Array(
                seq![JValue::Str("addressed"@), JValue::Str("confidence"@), JValue::Str("intent"@)],
            )),
            ("type"@, JValue::Str("object"@)),
        ],
    )
}

fn type_only(t: &str) -> (j: Json)
    ensures
        j@ == JValue::Object(seq![("type"@, JValue::Str(t@))]),
{
    let mut f: Vec<(String, Json)> = Vec::new();
    f.push(kv("type", jtext(t)));
    assert(fields_view(f@) =~= seq![("type"@, JValue::Str(t@))]);
    object(f)
}

fn str_list(v: &[&'static str]) -> (j: Json)
    ensures
        j@ == JValue::Array(Seq::new(v@.len(), |i: int| JValue::Str(v@[i]@))),
{
    let mut out: Vec<Json> = Vec::new();
    let mut i: usize = 0;
    while i < v.len()
        invariant
            i <= v@.len(),
            out@.len() == i,
            forall|k: int| 0 <= k < i ==> (#[trigger] out@[k])@ == JValue::Str(v@[k]@),
        decreases v@.len() - i,
    {
        out.push(jtext(v[i]));
        i = i + 1;
    }
    let j = Json::Array(out);
    proof {
        if let JValue::Array(x) = crate::json::json_view(j) {
            assert(x =~= Seq::new(v@.len(), |k: int| JValue::Str(v@[k]@)));
        }
    }
    j
}

/// Addressed-intent: was this utterance directed at Lisa?
pub fn addressed_intent() -> (t: Task)
    ensures
        t.name@ == "addressed_intent"@,
        t.system@ == ADDRESSED_SYSTEM@,
        t.schema@ == addressed_schema(),
{
    let mut intent: Vec<(String, Json)> = Vec::new();
    intent.push(kv("maxLength", num_u64(200)));
    intent.push(kv("type", jtext("string")));
    let ghost iv = fields_view(intent@);
    let intent_j = object(intent);
    let mut props: Vec<(String, Json)> = Vec::new();
    props.push(kv("addressed", type_only("boolean")));
    props.push(kv("confidence", type_only("number")));
    props.push(kv("intent", intent_j));
    let ghost pv = fields_view(props@);
    let props_j = object(props);
    let names = ["addressed", "confidence", "intent"];
    let req = str_list(&names);
    let mut f: Vec<(String, Json)> = Vec::new();
    f.push(kv("properties", props_j));
    f.push(kv("required", req));
    f.push(kv("type", jtext("object")));
    proof {
        assert(iv =~= seq![("maxLength"@, u64_value(200)), ("type"@, JValue::Str("string"@))]);
        assert(pv =~= seq![
            ("addressed"@, JValue::Object(seq![("type"@, JValue::Str("boolean"@))])),
            ("confidence"@, JValue::Object(seq![("type"@, JValue::Str("number"@))])),
            ("intent"@, JValue::Object(iv)),
        ]);
        assert(Seq::new(names@.len(), |i: int| JValue::Str(names@[i]@)) =~= seq![
            JValue::Str("addressed"@),
            JValue::Str("confidence"@),
            JValue::Str("intent"@),
        ]);
        assert(fields_view(f@) =~= seq![
            ("properties"@, JValue::Object(pv)),
            ("required"@, JValue::Array(seq![JValue::Str("addressed"@), JValue::Str("confidence"@), JValue::Str("intent"@)])),
            ("type"@, JValue::Str("object"@)),
        ]);
    }
    let schema = object(f);
    Task { name: owned("addressed_intent"), system: owned(ADDRESSED_SYSTEM), schema }
}

} // verus!
