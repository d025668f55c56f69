//! The natural-language → intent router, in two guided-generation
//! stages: the router picks exactly one tool id from the catalog (or
//! `none`), then the arg-filler fills that tool's arguments against its
//! own input schema. The result is a bus-ready call seeded with user
//! provenance.

use crate::grammar::sanitized;
use crate::json::{as_str, copy_json, fields_view, get, member, object, str_of, JValue, Json, JsonNumber};
use crate::tasks::{extract, jtext, kv, Task};
use crate::text::{find_first, find_seq, lemma_find_seq, owned, str_eq};
use vstd::prelude::*;

verus! {

/// The sentinel intent for "no tool fits".
pub const NO_INTENT: &'static str = "none";

/// One tool the router may choose.
pub struct ToolInfo {
    pub app_id: String,
    pub tool: String,
    pub description: String,
    /// JSON Schema for the tool's arguments.
    pub input_schema: Json,
}

/// `<app_id>::<tool>`.
pub open spec fn spec_id(app_id: Seq<char>, tool: Seq<char>) -> Seq<char> {
    app_id + "::"@ + tool
}

/// The schema declares at least one property.
pub open spec fn spec_takes_args(schema: Json) -> bool {
    match member(schema, "properties"@) {
        Some(Json::Object(p)) => p@.len() > 0,
        _ => false,
    }
}

impl ToolInfo {
    /// The catalog id the router selects by.
    pub fn id(&self) -> (s: String)
        ensures
            s@ == spec_id(self.app_id@, self.tool@),
    {
        let mut s = self.app_id.clone();
        s.append("::");
        s.append(self.tool.as_str());
        s
    }

    /// Whether this tool takes any arguments (whether stage 2 runs).
    pub fn takes_args(&self) -> (b: bool)
        ensures
            b == spec_takes_args(self.input_schema),
    {
        match get(&self.input_schema, "properties") {
            Some(Json::Object(p)) => p.len() > 0,
            _ => false,
        }
    }
}

/// `- <id> — <description>\n` for each tool.
pub open spec fn catalog_text(tools: Seq<ToolInfo>) -> Seq<char>
    decreases tools.len(),
{
    if tools.len() == 0 {
        Seq::empty()
    } else {
        let t = tools.last();
        catalog_text(tools.drop_last()) + "- "@ + spec_id(t.app_id@, t.tool@) + " — "@
            + t.description@ + "\n"@
    }
}

/// The router's instruction over the catalog.
pub open spec fn router_system(catalog: Seq<char>) -> Seq<char> {
    "You are Lisa's intent router. Given the user's request and the tools below, choose EXACTLY ONE tool id that fulfils the request, or \"none\" if none fits. Prefer \"none\" over a wrong guess. Reply ONLY as the JSON object: intent (one of the ids or \"none\"), confidence (0..1).\n\nTools:\n"@
        + catalog
}

/// The choices: every tool id, then `none`.
pub open spec fn choice_values(tools: Seq<ToolInfo>) -> Seq<JValue> {
    Seq::new(tools.len(), |i: int| JValue::Str(spec_id(tools[i].app_id@, tools[i].tool@))).push(
        JValue::Str("none"@),
    )
}

/// The router's result schema: `intent` restricted to the choices, and a
/// numeric `confidence`, both required.
pub open spec fn router_schema(tools: Seq<ToolInfo>) -> JValue {
    JValue::Object(
        seq![
            ("properties"@, JValue::Object(
                seq![
                    ("confidence"@, JValue::Object(seq![("type"@, JValue::Str("number"@))])),
                    ("intent"@, JValue::Object(
                        seq![
                            ("enum"@, JValue::Array(choice_values(tools))),
                            ("type"@, JValue::Str("string"@)),
                        ],
                    )),
                ],
            )),
            ("required"@, JValue::Array(seq![JValue::Str("intent"@), JValue::Str("confidence"@)])),
            ("type"@, JValue::Str("object"@)),
        ],
    )
}

/// Stage 1: the router task over the catalog `tools`.
pub fn router(tools: &Vec<ToolInfo>) -> (t: Task)
    ensures
        t.name@ == "intent_router"@,
        t.system@ == router_system(catalog_text(tools@)),
        t.schema@ == router_schema(tools@),
{
    let mut catalog = String::new();
    let mut ids: Vec<Json> = Vec::new();
    let mut i: usize = 0;
    while i < tools.len()
        invariant
            i <= tools.len(),
            catalog@ == catalog_text(tools@.take(i as int)),
            ids@.len() == i,
            forall|k: int|
                0 <= k < i ==> (#[trigger] ids@[k])@ == JValue::Str(
                    spec_id(tools@[k].app_id@, tools@[k].tool@),
                ),
        decreases tools.len() - i,
    {
        assert(tools@.take(i as int + 1).drop_last() =~= tools@.take(i as int));
        let id = tools[i].id();
        catalog.append("- ");
        catalog.append(id.as_str());
        catalog.append(" — ");
        catalog.append(tools[i].description.as_str());
        catalog.append("\n");
        ids.push(Json::Str(id));
        i = i + 1;
    }
    assert(tools@.take(tools.len() as int) =~= tools@);
    ids.push(jtext("none"));
    let ghost idv = Seq::new(ids@.len(), |k: int| ids@[k]@);
    assert(idv =~= choice_values(tools@));
    let ids_j = Json::Array(ids);
    proof {
        if let JValue::Array(x) = crate::json::json_view(ids_j) {
            assert(x =~= idv);
        }
    }
    let mut conf: Vec<(String, Json)> = Vec::new();
    conf.push(kv("type", jtext("number")));
    let ghost cv = fields_view(conf@);
    let conf_j = object(conf);
    let mut intent: Vec<(String, Json)> = Vec::new();
    intent.push(kv("enum", ids_j));
    intent.push(kv("type", jtext("string")));
    let ghost iv = fields_view(intent@);
    let intent_j = object(intent);
    let mut props: Vec<(String, Json)> = Vec::new();
    props.push(kv("confidence", conf_j));
    props.push(kv("intent", intent_j));
    let ghost pv = fields_view(props@);
    let props_j = object(props);
    let mut req: Vec<Json> = Vec::new();
    req.push(jtext("intent"));
    req.push(jtext("confidence"));
    let ghost rv = Seq::new(req@.len(), |k: int| req@[k]@);
    let req_j = Json::Array(req);
    proof {
        if let JValue::Array(x) = crate::json::json_view(req_j) {
            assert(x =~= rv);
        }
    }
    let mut f: Vec<(String, Json)> = Vec::new();
    f.push(kv("properties", props_j));
    f.push(kv("required", req_j));
    f.push(kv("type", jtext("object")));
    proof {
        assert(cv =~= seq![("type"@, JValue::Str("number"@))]);
        assert(iv =~= seq![("enum"@, JValue::Array(choice_values(tools@))), ("type"@, JValue::Str("string"@))]);
        assert(pv =~= seq![("confidence"@, JValue::Object(cv)), ("intent"@, JValue::Object(iv))]);
        assert(rv =~= seq![JValue::Str("intent"@), JValue::Str("confidence"@)]);
        assert(fields_view(f@) =~= seq![
            ("properties"@, JValue::Object(pv)),
            ("required"@, JValue::Array(rv)),
            ("type"@, JValue::Str("object"@)),
        ]);
    }
    let schema = object(f);
    let mut system = owned("You are Lisa's intent router. Given the user's request and the tools below, choose EXACTLY ONE tool id that fulfils the request, or \"none\" if none fits. Prefer \"none\" over a wrong guess. Reply ONLY as the JSON object: intent (one of the ids or \"none\"), confidence (0..1).\n\nTools:\n");
    system.append(catalog.as_str());
    Task { name: owned("intent_router"), system, schema }
}

/// The tool the router picked. `confidence` is the reported number's
/// text (`0` when absent).
pub struct Choice {
    pub app_id: String,
    pub tool: String,
    pub confidence: String,
}

/// Errors reading router output.
#[derive(Debug)]
pub enum IntentError {
    MissingField(&'static str),
    MalformedIntentId,
}

pub open spec fn intent_error_text(e: IntentError) -> Seq<char> {
    match e {
        IntentError::MissingField(k) => "router output missing field `"@ + k@ + "`"@,
        IntentError::MalformedIntentId => "intent id is not `<app_id>::<tool>`"@,
    }
}

impl IntentError {
    pub fn message(&self) -> (s: String)
        ensures
            s@ == intent_error_text(*self),
    {
        match self {
            IntentError::MissingField(k) => {
                let mut s = owned("router output missing field `");
                s.append(k);
                s.append("`");
                s
            },
            IntentError::MalformedIntentId => owned("intent id is not `<app_id>::<tool>`"),
        }
    }
}

/// What the router's output means: no intent, a chosen
/// `(app_id, tool, confidence text)`, or an error.
pub enum ChoiceView {
    NoIntent,
    Chosen(Seq<char>, Seq<char>, Seq<char>),
    Missing,
    Malformed,
}

pub open spec fn spec_confidence(output: Json) -> Seq<char> {
    match member(output, "confidence"@) {
        Some(Json::Number(n)) => n.text@,
        _ => "0"@,
    }
}

pub open spec fn spec_choice(output: Json) -> ChoiceView {
    match str_of(member(output, "intent"@)) {
        None => ChoiceView::Missing,
        Some(intent) => if intent == "none"@ {
            ChoiceView::NoIntent
        } else {
            let k = find_seq(intent, "::"@);
            if k < 0 {
                ChoiceView::Malformed
            } else if k == 0 || k + 2 >= intent.len() {
                ChoiceView::Malformed
            } else {
                ChoiceView::Chosen(intent.take(k), intent.skip(k + 2), spec_confidence(output))
            }
        },
    }
}

/// Read the router's structured output.
pub fn parse_choice(output: &Json) -> (r: Result<Option<Choice>, IntentError>)
    ensures
        match spec_choice(*output) {
            ChoiceView::NoIntent => r matches Ok(None),
            ChoiceView::Chosen(a, t, c) => r matches Ok(Some(ch)) && ch.app_id@ == a && ch.tool@
                == t && ch.confidence@ == c,
            ChoiceView::Missing => r matches Err(IntentError::MissingField(k)) && k@ == "intent"@,
            ChoiceView::Malformed => r matches Err(IntentError::MalformedIntentId),
        },
{
    proof {
        reveal_strlit("::");
    }
    let intent = match as_str(get(output, "intent")) {
        Some(s) => s,
        None => return Err(IntentError::MissingField("intent")),
    };
    if str_eq(intent, "none") {
        return Ok(None);
    }
    let n = intent.unicode_len();
    let k = find_first(intent, "::");
    proof {
        lemma_find_seq(intent@, "::"@);
    }
    if k == n || k == 0 || k + 2 >= n {
        return Err(IntentError::MalformedIntentId);
    }
    let app_id = owned(intent.substring_char(0, k));
    let tool = owned(intent.substring_char(k + 2, n));
    assert(tool@ =~= intent@.skip(k + 2));
    let confidence = match get(output, "confidence") {
        Some(Json::Number(num)) => num.text.clone(),
        _ => owned("0"),
    };
    Ok(Some(Choice { app_id, tool, confidence }))
}

/// The arg-filler's instruction for a tool.
pub open spec fn filler_system(id: Seq<char>, description: Seq<char>) -> Seq<char> {
    "Fill the arguments for the tool \""@ + id + "\" ("@ + description
        + ") from the user's request."@
}

/// Stage 2: the arg-filler task for a tool that takes arguments.
pub fn arg_filler(tool: &ToolInfo) -> (t: Option<Task>)
    ensures
        !spec_takes_args(tool.input_schema) ==> t is None,
        spec_takes_args(tool.input_schema) ==> (t matches Some(task) && task.name@ == sanitized(
            spec_id(tool.app_id@, tool.tool@),
        ) + "-args"@ && task.system@ == filler_system(
            spec_id(tool.app_id@, tool.tool@),
            tool.description@,
        ) && task.schema@ == tool.input_schema@),
{
    if !tool.takes_args() {
        return None;
    }
    let id = tool.id();
    let mut name = crate::grammar::sanitize(id.as_str());
    name.append("-args");
    let mut system = owned("Fill the arguments for the tool \"");
    system.append(id.as_str());
    system.append("\" (");
    system.append(tool.description.as_str());
    system.append(") from the user's request.");
    Some(extract(name.as_str(), system.as_str(), copy_json(&tool.input_schema)))
}

/// A bus-ready call: target, arguments, and the provenance chain.
pub struct IntentCall {
    pub app_id: String,
    pub tool: String,
    pub args: Json,
    pub chain: Vec<String>,
}

impl IntentCall {
    /// Assemble from the choice and the filled arguments (non-object
    /// arguments become `{}`), seeded as a direct user request.
    pub fn from_user(choice: &Choice, args: Json) -> (c: IntentCall)
        ensures
            c.app_id@ == choice.app_id@,
            c.tool@ == choice.tool@,
            args is Object ==> c.args == args,
            !(args is Object) ==> c.args@ == JValue::Object(Seq::empty()),
            c.chain@.len() == 1 && c.chain@[0]@ == "user"@,
    {
        let a = match args {
            Json::Object(f) => Json::Object(f),
            _ => {
                let e = object(Vec::new());
                assert(fields_view(Seq::<(String, Json)>::empty()) =~= Seq::<(Seq<char>, JValue)>::empty());
                e
            },
        };
        let mut chain: Vec<String> = Vec::new();
        chain.push(owned("user"));
        IntentCall { app_id: choice.app_id.clone(), tool: choice.tool.clone(), args: a, chain }
    }
}

} // verus!
