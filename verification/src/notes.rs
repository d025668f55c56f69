//! The Notes app's MCP server logic: newline-delimited JSON-RPC 2.0
//! requests are classified, `tools/call` arguments validated into a
//! storage operation, and every answer shaped. The socket and the SQLite
//! table are the server program's; the storage result is handed back to
//! the functions here.

use crate::json::{
    as_str, copy_json, field, fields_view, get, member, object, str_of, then_member, JValue, Json,
    JsonNumber,
};
use crate::text::{decimal, owned, str_eq, u64_to_decimal};
use vstd::prelude::*;

verus! {

pub const PROTOCOL_VERSION: &'static str = "2024-11-05";

pub const MAX_TITLE_CHARS: usize = 120;

pub const MAX_BODY_CHARS: usize = 4000;

/// One row as `list_notes` reports it.
#[derive(Debug, PartialEq, Eq)]
pub struct NoteSummary {
    pub id: i64,
    pub title: String,
    pub created: String,
}

/// The decimal text of a signed number.
pub open spec fn signed_decimal(n: i64) -> Seq<char> {
    if n < 0 {
        "-"@ + decimal((-(n as int)) as nat)
    } else {
        decimal(n as nat)
    }
}

/// `n` as a JSON number.
pub open spec fn i64_value(n: i64) -> JValue {
    JValue::Number(
        signed_decimal(n),
        if n >= 0 {
            Some(n as u64)
        } else {
            None
        },
        Some(n),
    )
}

pub fn num_i64(n: i64) -> (j: Json)
    ensures
        j@ == i64_value(n),
{
    let text = if n < 0 {
        let mut t = owned("-");
        let m: u64 = (0u64).wrapping_sub(n as u64);
        assert(m == -(n as int)) by (bit_vector)
            requires
                n < 0,
                m == (0u64).wrapping_sub(n as u64),
        ;
        t.append(u64_to_decimal(m).as_str());
        t
    } else {
        u64_to_decimal(n as u64)
    };
    let unsigned = if n >= 0 {
        Some(n as u64)
    } else {
        None
    };
    Json::Number(JsonNumber { text, unsigned, signed: Some(n) })
}

fn kv(k: &str, v: Json) -> (f: (String, Json))
    ensures
        f.0@ == k@,
        f.1@ == v@,
{
    (owned(k), v)
}

fn text(s: &str) -> (j: Json)
    ensures
        j@ == JValue::Str(s@),
{
    Json::Str(owned(s))
}

/// `{"content": [{"text": msg, "type": "text"}], "isError": true}`.
pub open spec fn spec_tool_error(msg: Seq<char>) -> JValue {
    JValue::Object(
        seq![
            ("content"@, JValue::Array(
                seq![JValue::Object(seq![("text"@, JValue::Str(msg)), ("type"@, JValue::Str("text"@))])],
            )),
            ("isError"@, JValue::Bool(true)),
        ],
    )
}

pub fn tool_error(msg: &str) -> (j: Json)
    ensures
        j@ == spec_tool_error(msg@),
{
    let mut item: Vec<(String, Json)> = Vec::new();
    item.push(kv("text", text(msg)));
    item.push(kv("type", text("text")));
    let ghost iv = fields_view(item@);
    let one = object(item);
    let mut items: Vec<Json> = Vec::new();
    items.push(one);
    let arr = crate::json::array(items);
    let mut f: Vec<(String, Json)> = Vec::new();
    f.push(kv("content", arr));
    f.push(kv("isError", Json::Bool(true)));
    proof {
        assert(iv =~= seq![("text"@, JValue::Str(msg@)), ("type"@, JValue::Str("text"@))]);
        assert(crate::json::items_view(items@) =~= seq![JValue::Object(iv)]);
        assert(fields_view(f@) =~= seq![
            ("content"@, JValue::Array(seq![JValue::Object(iv)])),
            ("isError"@, JValue::Bool(true)),
        ]);
    }
    object(f)
}

/// `{"structuredContent": v}`.
pub fn structured(v: Json) -> (j: Json)
    ensures
        j@ == JValue::Object(seq![("structuredContent"@, v@)]),
{
    let mut f: Vec<(String, Json)> = Vec::new();
    f.push(kv("structuredContent", v));
    let ghost fv = fields_view(f@);
    assert(fv =~= seq![("structuredContent"@, f@[0].1@)]);
    object(f)
}

/// `{"id": id, "jsonrpc": "2.0", "result": result}`.
pub open spec fn spec_rpc_result(id: JValue, result: JValue) -> JValue {
    JValue::Object(seq![("id"@, id), ("jsonrpc"@, JValue::Str("2.0"@)), ("result"@, result)])
}

pub fn rpc_result(id: Json, result: Json) -> (j: Json)
    ensures
        j@ == spec_rpc_result(id@, result@),
{
    let ghost (iv, rv) = (id@, result@);
    let mut f: Vec<(String, Json)> = Vec::new();
    f.push(kv("id", id));
    f.push(kv("jsonrpc", text("2.0")));
    f.push(kv("result", result));
    assert(fields_view(f@) =~= seq![("id"@, iv), ("jsonrpc"@, JValue::Str("2.0"@)), ("result"@, rv)]);
    object(f)
}

/// The answer to a method the server does not have.
pub open spec fn spec_no_method(id: JValue, method: Seq<char>) -> JValue {
    JValue::Object(
        seq![
            ("error"@, JValue::Object(
                seq![
                    ("code"@, JValue::Number("-32601"@, None, Some(-32601i64))),
                    ("message"@, JValue::Str("no such method "@ + method)),
                ],
            )),
            ("id"@, id),
            ("jsonrpc"@, JValue::Str("2.0"@)),
        ],
    )
}

pub fn rpc_no_method(id: Json, method: &str) -> (j: Json)
    ensures
        j@ == spec_no_method(id@, method@),
{
    let ghost iv = id@;
    let mut m = owned("no such method ");
    m.append(method);
    let code = Json::Number(JsonNumber { text: owned("-32601"), unsigned: None, signed: Some(-32601) });
    let mut ef: Vec<(String, Json)> = Vec::new();
    ef.push(kv("code", code));
    ef.push(kv("message", Json::Str(m)));
    let ghost ev = fields_view(ef@);
    let err = object(ef);
    let mut f: Vec<(String, Json)> = Vec::new();
    f.push(kv("error", err));
    f.push(kv("id", id));
    f.push(kv("jsonrpc", text("2.0")));
    proof {
        reveal_strlit("-32601");
        assert(ev =~= seq![
            ("code"@, JValue::Number("-32601"@, None, Some(-32601i64))),
            ("message"@, JValue::Str("no such method "@ + method@)),
        ]);
        assert(fields_view(f@) =~= seq![
            ("error"@, JValue::Object(ev)),
            ("id"@, iv),
            ("jsonrpc"@, JValue::Str("2.0"@)),
        ]);
    }
    object(f)
}

/// What one incoming line asks for.
pub enum Incoming {
    /// No `id`: a notification, answered with nothing.
    Notification,
    Initialize(Json),
    ToolsCall(Json),
    /// Any other method, with the request's id.
    Other { id: Json, method: String },
}

/// The request's method, `""` when absent or not a string.
pub open spec fn method_of(msg: Json) -> Seq<char> {
    match str_of(member(msg, "method"@)) {
        Some(m) => m,
        None => Seq::empty(),
    }
}

pub fn classify(msg: &Json) -> (r: Incoming)
    ensures
        member(*msg, "id"@) is None ==> r is Notification,
        member(*msg, "id"@) matches Some(id) ==> (if method_of(*msg) == "initialize"@ {
            r matches Incoming::Initialize(i) && i@ == id@
        } else if method_of(*msg) == "tools/call"@ {
            r matches Incoming::ToolsCall(i) && i@ == id@
        } else {
            r matches Incoming::Other { id: i, method } && i@ == id@ && method@ == method_of(*msg)
        }),
{
    let id = match get(msg, "id") {
        Some(i) => copy_json(i),
        None => return Incoming::Notification,
    };
    let method = match as_str(get(msg, "method")) {
        Some(m) => m,
        None => {
            proof {
                reveal_strlit("");
                assert(""@ =~= Seq::<char>::empty());
            }
            ""
        },
    };
    proof {
        reveal_strlit("initialize");
        reveal_strlit("tools/call");
        assert("initialize"@[0] != "tools/call"@[0]);
    }
    if str_eq(method, "initialize") {
        Incoming::Initialize(id)
    } else if str_eq(method, "tools/call") {
        Incoming::ToolsCall(id)
    } else {
        Incoming::Other { id, method: owned(method) }
    }
}

/// The `initialize` answer: the client's offered protocol version (ours
/// when it offers none), tool capability, and the server's name and
/// version.
pub open spec fn spec_initialize(id: JValue, msg: Json, version: Seq<char>) -> JValue {
    let offered = match str_of(then_member(member(msg, "params"@), "protocolVersion"@)) {
        Some(v) => v,
        None => "2024-11-05"@,
    };
    spec_rpc_result(
        id,
        JValue::Object(
            seq![
                ("capabilities"@, JValue::Object(seq![("tools"@, JValue::Object(Seq::empty()))])),
                ("protocolVersion"@, JValue::Str(offered)),
                ("serverInfo"@, JValue::Object(
                    seq![("name"@, JValue::Str("lisa-notes"@)), ("version"@, JValue::Str(version))],
                )),
            ],
        ),
    )
}

pub fn initialize(id: Json, msg: &Json, version: &str) -> (j: Json)
    ensures
        j@ == spec_initialize(id@, *msg, version@),
{
    proof {
        reveal_strlit("2024-11-05");
    }
    let offered = match as_str(field(get(msg, "params"), "protocolVersion")) {
        Some(v) => v,
        None => PROTOCOL_VERSION,
    };
    let tools = object(Vec::new());
    let mut cf: Vec<(String, Json)> = Vec::new();
    cf.push(kv("tools", tools));
    let ghost cv = fields_view(cf@);
    let caps = object(cf);
    let mut sf: Vec<(String, Json)> = Vec::new();
    sf.push(kv("name", text("lisa-notes")));
    sf.push(kv("version", text(version)));
    let ghost sv = fields_view(sf@);
    let server = object(sf);
    let mut rf: Vec<(String, Json)> = Vec::new();
    rf.push(kv("capabilities", caps));
    rf.push(kv("protocolVersion", text(offered)));
    rf.push(kv("serverInfo", server));
    proof {
        assert(fields_view(Seq::<(String, Json)>::empty()) =~= Seq::<(Seq<char>, JValue)>::empty());
        assert(cv =~= seq![("tools"@, JValue::Object(Seq::empty()))]);
        assert(sv =~= seq![("name"@, JValue::Str("lisa-notes"@)), ("version"@, JValue::Str(version@))]);
        assert(fields_view(rf@) =~= seq![
            ("capabilities"@, JValue::Object(cv)),
            ("protocolVersion"@, JValue::Str(offered@)),
            ("serverInfo"@, JValue::Object(sv)),
        ]);
    }
    let result = object(rf);
    rpc_result(id, result)
}

/// A validated `tools/call`: what to do to the notes table.
pub enum NoteCall {
    Create { title: String, body: String },
    List,
    Delete(i64),
    Restore(i64),
}

/// The signed value, when `v` is an integral number that fits in 64 bits.
pub open spec fn i64_of(v: Option<Json>) -> Option<i64> {
    match v {
        Some(Json::Number(n)) => n.signed,
        _ => None,
    }
}

/// A required string argument, or the tool error naming it.
pub open spec fn spec_required_str(args: Option<Json>, key: Seq<char>, tool: Seq<char>) -> Result<Seq<char>, Seq<char>> {
    match then_member(args, key) {
        None => Err(tool + ": missing required argument \""@ + key + "\""@),
        Some(v) => match str_of(Some(v)) {
            Some(s) => Ok(s),
            None => Err(tool + ": \""@ + key + "\" must be a string"@),
        },
    }
}

/// The required integer `id` argument, or the tool error naming it.
pub open spec fn spec_required_id(args: Option<Json>, tool: Seq<char>) -> Result<i64, Seq<char>> {
    match then_member(args, "id"@) {
        None => Err(tool + ": missing required argument \"id\""@),
        Some(v) => match i64_of(Some(v)) {
            Some(n) => Ok(n),
            None => Err(tool + ": \"id\" must be an integer"@),
        },
    }
}

fn required_str<'a>(args: Option<&'a Json>, key: &str, tool: &str) -> (r: Result<&'a str, String>)
    ensures
        match spec_required_str(crate::json::deref_opt(args), key@, tool@) {
            Ok(s) => r matches Ok(x) && x@ == s,
            Err(m) => r matches Err(x) && x@ == m,
        },
{
    match field(args, key) {
        None => {
            let mut m = owned(tool);
            m.append(": missing required argument \"");
            m.append(key);
            m.append("\"");
            Err(m)
        },
        Some(v) => match v {
            Json::Str(s) => Ok(s.as_str()),
            _ => {
                let mut m = owned(tool);
                m.append(": \"");
                m.append(key);
                m.append("\" must be a string");
                Err(m)
            },
        },
    }
}

fn required_id(args: Option<&Json>, tool: &str) -> (r: Result<i64, String>)
    ensures
        match spec_required_id(crate::json::deref_opt(args), tool@) {
            Ok(n) => r == Ok::<i64, String>(n),
            Err(m) => r matches Err(x) && x@ == m,
        },
{
    match field(args, "id") {
        None => {
            let mut m = owned(tool);
            m.append(": missing required argument \"id\"");
            Err(m)
        },
        Some(v) => match v {
            Json::Number(n) if n.signed.is_some() => Ok(n.signed.unwrap()),
            _ => {
                let mut m = owned(tool);
                m.append(": \"id\" must be an integer");
                Err(m)
            },
        },
    }
}

/// The note body: absent or null is empty; anything but a string is
/// refused.
pub open spec fn spec_body(args: Option<Json>) -> Result<Seq<char>, Seq<char>> {
    match then_member(args, "body"@) {
        None => Ok(Seq::empty()),
        Some(Json::Null) => Ok(Seq::empty()),
        Some(v) => match str_of(Some(v)) {
            Some(s) => Ok(s),
            None => Err("create_note: \"body\" must be a string"@),
        },
    }
}

/// What a `tools/call` asks of the table, or the tool error it is
/// answered with.
pub open spec fn spec_note_call(name: Seq<char>, args: Option<Json>) -> Result<(Seq<char>, int, Seq<char>, Seq<char>), Seq<char>> {
    if name == "create_note"@ {
        match spec_required_str(args, "title"@, "create_note"@) {
            Err(m) => Err(m),
            Ok(title) => if title.len() > 120 {
                Err("create_note: \"title\" exceeds 120 characters"@)
            } else {
                match spec_body(args) {
                    Err(m) => Err(m),
                    Ok(body) => if body.len() > 4000 {
                        Err("create_note: \"body\" exceeds 4000 characters"@)
                    } else {
                        Ok(("create"@, 0, title, body))
                    },
                }
            },
        }
    } else if name == "list_notes"@ {
        Ok(("list"@, 0, Seq::empty(), Seq::empty()))
    } else if name == "delete_note"@ {
        match spec_required_id(args, "delete_note"@) {
            Err(m) => Err(m),
            Ok(id) => Ok(("delete"@, id as int, Seq::empty(), Seq::empty())),
        }
    } else if name == "restore_note"@ {
        match spec_required_id(args, "restore_note"@) {
            Err(m) => Err(m),
            Ok(id) => Ok(("restore"@, id as int, Seq::empty(), Seq::empty())),
        }
    } else {
        Err("unknown tool: "@ + name)
    }
}

pub open spec fn call_view(c: NoteCall) -> (Seq<char>, int, Seq<char>, Seq<char>) {
    match c {
        NoteCall::Create { title, body } => ("create"@, 0, title@, body@),
        NoteCall::List => ("list"@, 0, Seq::empty(), Seq::empty()),
        NoteCall::Delete(id) => ("delete"@, id as int, Seq::empty(), Seq::empty()),
        NoteCall::Restore(id) => ("restore"@, id as int, Seq::empty(), Seq::empty()),
    }
}

/// The tool a `tools/call` names (`""` when absent).
pub open spec fn tool_name(msg: Json) -> Seq<char> {
    match str_of(then_member(member(msg, "params"@), "name"@)) {
        Some(n) => n,
        None => Seq::empty(),
    }
}

/// The call's arguments (none given reads as no members).
pub open spec fn tool_args(msg: Json) -> Option<Json> {
    then_member(member(msg, "params"@), "arguments"@)
}

/// Validate a `tools/call` into a table operation; the error is the
/// message of the tool error to answer with.
pub fn note_call(msg: &Json) -> (r: Result<NoteCall, String>)
    ensures
        match r {
            Ok(c) => spec_note_call(tool_name(*msg), tool_args(*msg)) == Ok::<_, Seq<char>>(call_view(c)),
            Err(m) => spec_note_call(tool_name(*msg), tool_args(*msg)) == Err::<(Seq<char>, int, Seq<char>, Seq<char>), _>(m@),
        },
{
    proof {
        reveal_strlit("");
        reveal_strlit("create");
        reveal_strlit("list");
        reveal_strlit("delete");
        reveal_strlit("restore");
        reveal_strlit("create_note");
        reveal_strlit("list_notes");
        reveal_strlit("delete_note");
        reveal_strlit("restore_note");
    }
    let params = get(msg, "params");
    let name = match as_str(field(params, "name")) {
        Some(n) => n,
        None => "",
    };
    let args = field(params, "arguments");
    if str_eq(name, "create_note") {
        let title = match required_str(args, "title", "create_note") {
            Ok(t) => t,
            Err(m) => return Err(m),
        };
        if title.unicode_len() > MAX_TITLE_CHARS {
            return Err(owned("create_note: \"title\" exceeds 120 characters"));
        }
        let fb = field(args, "body");
        let body: &str = match fb {
            None => {
                assert(""@ =~= Seq::<char>::empty());
                ""
            },
            Some(Json::Null) => {
                assert(""@ =~= Seq::<char>::empty());
                ""
            },
            Some(Json::Str(s)) => s.as_str(),
            Some(_) => return Err(owned("create_note: \"body\" must be a string")),
        };
        if body.unicode_len() > MAX_BODY_CHARS {
            return Err(owned("create_note: \"body\" exceeds 4000 characters"));
        }
        let c = NoteCall::Create { title: owned(title), body: owned(body) };
        Ok(c)
    } else if str_eq(name, "list_notes") {
        assert("list_notes"@.len() != "create_note"@.len());
        Ok(NoteCall::List)
    } else if str_eq(name, "delete_note") {
        match required_id(args, "delete_note") {
            Ok(id) => Ok(NoteCall::Delete(id)),
            Err(m) => Err(m),
        }
    } else if str_eq(name, "restore_note") {
        match required_id(args, "restore_note") {
            Ok(id) => Ok(NoteCall::Restore(id)),
            Err(m) => Err(m),
        }
    } else {
        let mut m = owned("unknown tool: ");
        m.append(name);
        Err(m)
    }
}

/// `create_note`'s result: the new note's id and title.
pub fn created(id: i64, title: &str) -> (j: Json)
    ensures
        j@ == JValue::Object(
            seq![("structuredContent"@, JValue::Object(seq![("id"@, i64_value(id)), ("title"@, JValue::Str(title@))]))],
        ),
{
    let mut f: Vec<(String, Json)> = Vec::new();
    f.push(kv("id", num_i64(id)));
    f.push(kv("title", text(title)));
    assert(fields_view(f@) =~= seq![("id"@, i64_value(id)), ("title"@, JValue::Str(title@))]);
    structured(object(f))
}

pub open spec fn note_value(n: NoteSummary) -> JValue {
    JValue::Object(
        seq![("created"@, JValue::Str(n.created@)), ("id"@, i64_value(n.id)), ("title"@, JValue::Str(n.title@))],
    )
}

/// `list_notes`' result: the active notes, oldest first.
pub fn listed(notes: &Vec<NoteSummary>) -> (j: Json)
    ensures
        j@ == JValue::Object(
            seq![("structuredContent"@, JValue::Object(
                seq![("notes"@, JValue::Array(Seq::new(notes@.len(), |i: int| note_value(notes@[i]))))],
            ))],
        ),
{
    let mut items: Vec<Json> = Vec::new();
    let mut i: usize = 0;
    while i < notes.len()
        invariant
            i <= notes.len(),
            items@.len() == i,
            forall|k: int| 0 <= k < i ==> (#[trigger] items@[k])@ == note_value(notes@[k]),
        decreases notes.len() - i,
    {
        let n = &notes[i];
        let mut f: Vec<(String, Json)> = Vec::new();
        f.push(kv("created", Json::Str(n.created.clone())));
        f.push(kv("id", num_i64(n.id)));
        f.push(kv("title", Json::Str(n.title.clone())));
        assert(fields_view(f@) =~= seq![
            ("created"@, JValue::Str(n.created@)),
            ("id"@, i64_value(n.id)),
            ("title"@, JValue::Str(n.title@)),
        ]);
        items.push(object(f));
        i = i + 1;
    }
    let ghost iv = crate::json::items_view(items@);
    assert(iv =~= Seq::new(notes@.len(), |i: int| note_value(notes@[i])));
    let arr = crate::json::array(items);
    let mut f: Vec<(String, Json)> = Vec::new();
    f.push(kv("notes", arr));
    assert(fields_view(f@) =~= seq![("notes"@, JValue::Array(iv))]);
    structured(object(f))
}

/// The result of a soft delete (`restore == false`) or its undo: the
/// note's id and state when a matching note changed, else the tool
/// error saying none did.
pub fn toggled(id: i64, restore: bool, changed: bool) -> (j: Json)
    ensures
        changed ==> j@ == JValue::Object(
            seq![("structuredContent"@, JValue::Object(
                seq![("id"@, i64_value(id)), ("restored"@, JValue::Bool(restore))],
            ))],
        ),
        !changed && !restore ==> j@ == spec_tool_error("delete_note: no active note with id "@ + signed_decimal(id)),
        !changed && restore ==> j@ == spec_tool_error("restore_note: no deleted note with id "@ + signed_decimal(id)),
{
    if changed {
        let mut f: Vec<(String, Json)> = Vec::new();
        f.push(kv("id", num_i64(id)));
        f.push(kv("restored", Json::Bool(restore)));
        assert(fields_view(f@) =~= seq![("id"@, i64_value(id)), ("restored"@, JValue::Bool(restore))]);
        return structured(object(f));
    }
    let n = num_i64(id);
    let digits = match &n {
        Json::Number(x) => x.text.clone(),
        _ => String::new(),
    };
    let mut m = if restore {
        owned("restore_note: no deleted note with id ")
    } else {
        owned("delete_note: no active note with id ")
    };
    m.append(digits.as_str());
    tool_error(m.as_str())
}

/// A storage failure of `tool`: `<tool>: <error>`.
pub fn storage_failed(tool: &str, error: &str) -> (j: Json)
    ensures
        j@ == spec_tool_error(tool@ + ": "@ + error@),
{
    let mut m = owned(tool);
    m.append(": ");
    m.append(error);
    tool_error(m.as_str())
}

} // verus!
