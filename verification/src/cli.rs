//! The `lisa` command line's decisions: assembling an `ask` request and
//! reading its streamed reply, reading the tool catalog, acting on the
//! bus's disposition of a call, the broker's local HTTP framing, and the
//! confirmations and choices of the model, install and remote commands.
//! The terminal, the network and the disks are the program's business.

use crate::catalog::{Catalog, Fit, ModelEntry};
use crate::forge_tools::lines;
use crate::remote::first_line;
use crate::intent::ToolInfo;
use crate::json::{as_str, copy_json, fields_view, get, member, object, str_of, JValue, Json};
use crate::tasks::{jtext, kv};
use crate::text::{cut_spaces, decimal, find_char, find_first, find_seq, index_of, is_prefix, is_space, lemma_find_seq, lemma_index_of, owned, skip_spaces, space, starts_with, str_eq, strings_view, trim, trim_start, u64_to_decimal};
use vstd::prelude::*;

verus! {

/// Whether an answer to a `[y/N]` question is yes (`y`, `Y` or `yes`,
/// surrounding whitespace ignored).
pub open spec fn spec_yes(answer: Seq<char>) -> bool {
    let a = trim(answer);
    a == "y"@ || a == "Y"@ || a == "yes"@
}

fn trimmed(s: &str) -> (t: &str)
    ensures
        t@ == trim(s@),
{
    let n = s.unicode_len();
    let a = skip_spaces(s, 0);
    let e = cut_spaces(s, a, n);
    assert(s@.skip(0) =~= s@);
    assert(s@.skip(a as int) =~= s@.subrange(a as int, n as int));
    s.substring_char(a, e)
}

pub fn is_yes(answer: &str) -> (b: bool)
    ensures
        b == spec_yes(answer@),
{
    let a = trimmed(answer);
    str_eq(a, "y") || str_eq(a, "Y") || str_eq(a, "yes")
}

/// Whether the install confirmation was typed: `ERASE`, surrounding
/// whitespace ignored.
pub fn erase_confirmed(answer: &str) -> (b: bool)
    ensures
        b == (trim(answer@) == "ERASE"@),
{
    str_eq(trimmed(answer), "ERASE")
}

/// The prompt of `lisa ask`: the words joined with spaces, and piped
/// input (when it is not blank) appended as context. Blank prompts are
/// refused.
pub open spec fn spec_ask_prompt(words: Seq<char>, piped: Option<Seq<char>>) -> Result<Seq<char>, Seq<char>> {
    let p = match piped {
        Some(x) => if trim(x).len() > 0 {
            words + "\n\n---\nInput:\n"@ + x
        } else {
            words
        },
        None => words,
    };
    if trim(p).len() == 0 {
        Err("empty prompt — usage: lisa ask \"your question\""@)
    } else {
        Ok(p)
    }
}

/// `words` joined with single spaces.
pub open spec fn joined(words: Seq<Seq<char>>) -> Seq<char>
    decreases words.len(),
{
    if words.len() == 0 {
        Seq::empty()
    } else if words.len() == 1 {
        words[0]
    } else {
        joined(words.drop_last()) + " "@ + words.last()
    }
}


/// Join command-line words with spaces.
pub fn join_words(words: &Vec<String>) -> (s: String)
    ensures
        s@ == joined(strings_view(words@)),
{
    let mut s = String::new();
    let mut i: usize = 0;
    while i < words.len()
        invariant
            i <= words.len(),
            s@ == joined(strings_view(words@).take(i as int)),
        decreases words.len() - i,
    {
        assert(strings_view(words@).take(i as int + 1).drop_last() =~= strings_view(words@).take(i as int));
        if i > 0 {
            s.append(" ");
        }
        s.append(words[i].as_str());
        i = i + 1;
    }
    assert(strings_view(words@).take(words.len() as int) =~= strings_view(words@));
    s
}

pub fn ask_prompt(words: &Vec<String>, piped: Option<&str>) -> (r: Result<String, String>)
    ensures
        match spec_ask_prompt(
            joined(strings_view(words@)),
            match piped {
                Some(x) => Some(x@),
                None => None,
            },
        ) {
            Ok(p) => r matches Ok(s) && s@ == p,
            Err(e) => r matches Err(s) && s@ == e,
        },
{
    let mut p = join_words(words);
    if let Some(x) = piped {
        if trimmed(x).unicode_len() > 0 {
            p.append("\n\n---\nInput:\n");
            p.append(x);
        }
    }
    if trimmed(p.as_str()).unicode_len() == 0 {
        return Err(owned("empty prompt — usage: lisa ask \"your question\""));
    }
    Ok(p)
}

/// The `lisa ask` request (keys in order): the model (or null), the user
/// message, streaming, and optionally a strict JSON-schema response
/// format and the background priority.
pub open spec fn spec_ask_body(
    model: Option<Seq<char>>,
    prompt: Seq<char>,
    stream: bool,
    schema: Option<JValue>,
    background: bool,
) -> JValue {
    if background {
        JValue::Object(
            seq![("lisa_priority"@, JValue::Str("background"@))] + ask_fields(model, prompt, stream, schema),
        )
    } else {
        JValue::Object(ask_fields(model, prompt, stream, schema))
    }
}

pub open spec fn ask_fields(
    model: Option<Seq<char>>,
    prompt: Seq<char>,
    stream: bool,
    schema: Option<JValue>,
) -> Seq<(Seq<char>, JValue)> {
    let base = seq![
        ("messages"@, JValue::Array(
            seq![JValue::Object(seq![("content"@, JValue::Str(prompt)), ("role"@, JValue::Str("user"@))])],
        )),
        ("model"@, match model {
            Some(m) => JValue::Str(m),
            None => JValue::Null,
        }),
        ("stream"@, JValue::Bool(stream)),
    ];
    match schema {
        Some(s) => base.push(
            ("response_format"@, JValue::Object(
                seq![
                    ("json_schema"@, JValue::Object(
                        seq![
                            ("name"@, JValue::Str("schema"@)),
                            ("schema"@, s),
                            ("strict"@, JValue::Bool(true)),
                        ],
                    )),
                    ("type"@, JValue::Str("json_schema"@)),
                ],
            )),
        ),
        None => base,
    }
}

pub fn ask_body(model: Option<&str>, prompt: &str, stream: bool, schema: Option<&Json>, background: bool) -> (j: Json)
    ensures
        j@ == spec_ask_body(
            match model {
                Some(m) => Some(m@),
                None => None,
            },
            prompt@,
            stream,
            match schema {
                Some(s) => Some(s@),
                None => None,
            },
            background,
        ),
{
    let mut mf: Vec<(String, Json)> = Vec::new();
    mf.push(kv("content", jtext(prompt)));
    mf.push(kv("role", jtext("user")));
    let ghost mv = fields_view(mf@);
    let m = object(mf);
    let mut msgs: Vec<Json> = Vec::new();
    msgs.push(m);
    let msgs_j = Json::Array(msgs);
    proof {
        if let JValue::Array(x) = crate::json::json_view(msgs_j) {
            assert(x =~= seq![JValue::Object(mv)]);
        }
        assert(mv =~= seq![("content"@, JValue::Str(prompt@)), ("role"@, JValue::Str("user"@))]);
    }
    let mut f: Vec<(String, Json)> = Vec::new();
    if background {
        f.push(kv("lisa_priority", jtext("background")));
    }
    let ghost head = fields_view(f@);
    f.push(kv("messages", msgs_j));
    f.push(kv("model", match model {
        Some(x) => jtext(x),
        None => Json::Null,
    }));
    f.push(kv("stream", Json::Bool(stream)));
    let ghost base = seq![
        ("messages"@, JValue::Array(
            seq![JValue::Object(seq![("content"@, JValue::Str(prompt@)), ("role"@, JValue::Str("user"@))])],
        )),
        ("model"@, match model {
            Some(m) => JValue::Str(m@),
            None => JValue::Null,
        }),
        ("stream"@, JValue::Bool(stream)),
    ];
    assert(fields_view(f@) =~= head + base);
    if let Some(s) = schema {
        let mut js: Vec<(String, Json)> = Vec::new();
        js.push(kv("name", jtext("schema")));
        js.push(kv("schema", copy_json(s)));
        js.push(kv("strict", Json::Bool(true)));
        let ghost jsv = fields_view(js@);
        let js_j = object(js);
        let mut rf: Vec<(String, Json)> = Vec::new();
        rf.push(kv("json_schema", js_j));
        rf.push(kv("type", jtext("json_schema")));
        let ghost rfv = fields_view(rf@);
        let rf_j = object(rf);
        let ghost before = fields_view(f@);
        f.push(kv("response_format", rf_j));
        proof {
            assert(jsv =~= seq![
                ("name"@, JValue::Str("schema"@)),
                ("schema"@, s@),
                ("strict"@, JValue::Bool(true)),
            ]);
            assert(rfv =~= seq![("json_schema"@, JValue::Object(jsv)), ("type"@, JValue::Str("json_schema"@))]);
            assert(fields_view(f@) =~= before.push(("response_format"@, JValue::Object(rfv))));
            assert(fields_view(f@) =~= head + base.push(("response_format"@, JValue::Object(rfv))));
        }
    }
    proof {
        let mv2 = match model {
            Some(m) => Some(m@),
            None => None,
        };
        let sv = match schema {
            Some(x) => Some(x@),
            None => None,
        };
        assert(fields_view(f@) =~= head + ask_fields(mv2, prompt@, stream, sv));
        if background {
            assert(head =~= seq![("lisa_priority"@, JValue::Str("background"@))]);
        } else {
            assert(head =~= Seq::<(Seq<char>, JValue)>::empty());
            assert(fields_view(f@) =~= ask_fields(mv2, prompt@, stream, sv));
        }
    }
    object(f)
}

/// One line of a streamed reply: a data line's payload, the end marker,
/// or anything else.
pub enum StreamLine {
    Skip,
    Done,
    Data(String),
}

pub open spec fn spec_stream_line(line: Seq<char>) -> Option<Option<Seq<char>>> {
    if !is_prefix("data: "@, line) {
        None
    } else if line.skip(6) == "[DONE]"@ {
        Some(None)
    } else {
        Some(Some(line.skip(6)))
    }
}

pub fn stream_line(line: &str) -> (r: StreamLine)
    ensures
        match r {
            StreamLine::Skip => spec_stream_line(line@) is None,
            StreamLine::Done => spec_stream_line(line@) == Some(None::<Seq<char>>),
            StreamLine::Data(d) => spec_stream_line(line@) == Some(Some(d@)),
        },
{
    proof {
        reveal_strlit("data: ");
    }
    if !starts_with(line, "data: ") {
        return StreamLine::Skip;
    }
    let payload = line.substring_char(6, line.unicode_len());
    assert(payload@ =~= line@.skip(6));
    if str_eq(payload, "[DONE]") {
        StreamLine::Done
    } else {
        StreamLine::Data(owned(payload))
    }
}

/// A streamed chunk: the server's error (`inference error: …`), else its
/// token, if any.
pub fn chunk_token(chunk: &Json) -> (r: Result<Option<String>, String>)
    ensures
        match crate::json::reply_error(*chunk) {
            Some(e) => r matches Err(m) && m@ == "inference error: "@ + e,
            None => match crate::llama::spec_raw_delta(*chunk) {
                Some(t) => r matches Ok(Some(x)) && x@ == t,
                None => r matches Ok(None),
            },
        },
{
    if let Some(e) = crate::json::completion_error(chunk) {
        let mut m = owned("inference error: ");
        m.append(e);
        return Err(m);
    }
    match crate::llama::raw_delta(chunk) {
        Some(t) => Ok(Some(owned(t))),
        None => Ok(None),
    }
}

/// The content of a non-streamed reply: the server's error, else the
/// first choice's content (empty when absent).
pub fn reply_content_or_error(resp: &Json) -> (r: Result<String, String>)
    ensures
        match crate::json::reply_error(*resp) {
            Some(e) => r matches Err(m) && m@ == "inference error: "@ + e,
            None => r matches Ok(c) && c@ == (match crate::json::reply_content(*resp) {
                Some(x) => x,
                None => Seq::empty(),
            }),
        },
{
    if let Some(e) = crate::json::completion_error(resp) {
        let mut m = owned("inference error: ");
        m.append(e);
        return Err(m);
    }
    match crate::json::completion_content(resp) {
        Some(c) => Ok(owned(c)),
        None => {
            proof {
                reveal_strlit("");
            }
            Ok(owned(""))
        },
    }
}

/// The tool catalog as the intent router reads it from the bus's listing:
/// rows with a string `app_id` and `name`; the description defaults to
/// empty and the schema to an empty object schema.
pub open spec fn spec_catalog_row(r: Json) -> Option<(Seq<char>, Seq<char>, Seq<char>, JValue)> {
    match (str_of(member(r, "app_id"@)), str_of(member(r, "name"@))) {
        (Some(a), Some(n)) => Some(
            (
                a,
                n,
                match str_of(member(r, "description"@)) {
                    Some(d) => d,
                    None => Seq::empty(),
                },
                match member(r, "input_schema"@) {
                    Some(s) => crate::json::json_view(s),
                    None => JValue::Object(
                        seq![
                            ("properties"@, JValue::Object(Seq::empty())),
                            ("type"@, JValue::Str("object"@)),
                        ],
                    ),
                },
            ),
        ),
        _ => None,
    }
}

pub open spec fn spec_catalog(rows: Seq<Json>) -> Seq<(Seq<char>, Seq<char>, Seq<char>, JValue)>
    decreases rows.len(),
{
    if rows.len() == 0 {
        Seq::empty()
    } else {
        let rest = spec_catalog(rows.drop_last());
        match spec_catalog_row(rows.last()) {
            Some(t) => rest.push(t),
            None => rest,
        }
    }
}

pub open spec fn tool_view(t: ToolInfo) -> (Seq<char>, Seq<char>, Seq<char>, JValue) {
    (t.app_id@, t.tool@, t.description@, t.input_schema@)
}

pub fn parse_catalog(rows: &Vec<Json>) -> (v: Vec<ToolInfo>)
    ensures
        Seq::new(v@.len(), |i: int| tool_view(v@[i])) == spec_catalog(rows@),
{
    let mut out: Vec<ToolInfo> = Vec::new();
    let mut i: usize = 0;
    while i < rows.len()
        invariant
            i <= rows.len(),
            Seq::new(out@.len(), |k: int| tool_view(out@[k])) == spec_catalog(rows@.take(i as int)),
        decreases rows.len() - i,
    {
        let r = &rows[i];
        assert(rows@.take(i as int + 1).drop_last() =~= rows@.take(i as int));
        assert(rows@.take(i as int + 1).last() == rows@[i as int]);
        let ghost before = Seq::new(out@.len(), |k: int| tool_view(out@[k]));
        match (as_str(get(r, "app_id")), as_str(get(r, "name"))) {
            (Some(a), Some(n)) => {
                let d = match as_str(get(r, "description")) {
                    Some(d) => owned(d),
                    None => String::new(),
                };
                let s = match get(r, "input_schema") {
                    Some(s) => copy_json(s),
                    None => {
                        let mut f: Vec<(String, Json)> = Vec::new();
                        f.push(kv("properties", object(Vec::new())));
                        f.push(kv("type", jtext("object")));
                        proof {
                            assert(fields_view(Seq::<(String, Json)>::empty()) =~= Seq::<(Seq<char>, JValue)>::empty());
                        }
                        assert(fields_view(f@) =~= seq![
                            ("properties"@, JValue::Object(Seq::empty())),
                            ("type"@, JValue::Str("object"@)),
                        ]);
                        object(f)
                    },
                };
                out.push(ToolInfo { app_id: owned(a), tool: owned(n), description: d, input_schema: s });
                assert(Seq::new(out@.len(), |k: int| tool_view(out@[k])) =~= before.push(tool_view(out@.last())));
            },
            _ => {},
        }
        i = i + 1;
    }
    assert(rows@.take(rows.len() as int) =~= rows@);
    out
}

/// What the command line does with the bus's disposition of a call.
#[derive(Debug, Clone, Copy, PartialEq, Eq, Structural)]
pub enum DispositionAction {
    /// Done: report success.
    Executed,
    /// The tool failed.
    Failed,
    /// Refused by policy.
    Denied,
    /// Ask on the terminal (or approve with `--yes`), then confirm.
    AskThenConfirm,
    /// Needs the desktop's consent dialog: refuse here.
    NeedsModal,
    /// Not a known disposition.
    Unknown,
}

pub fn disposition_action(d: &str) -> (a: DispositionAction)
    ensures
        a == (if d@ == "executed"@ {
            DispositionAction::Executed
        } else if d@ == "failed"@ {
            DispositionAction::Failed
        } else if d@ == "denied"@ {
            DispositionAction::Denied
        } else if d@ == "confirm-chip"@ {
            DispositionAction::AskThenConfirm
        } else if d@ == "confirm-modal"@ {
            DispositionAction::NeedsModal
        } else {
            DispositionAction::Unknown
        }),
{
    if str_eq(d, "executed") {
        DispositionAction::Executed
    } else if str_eq(d, "failed") {
        DispositionAction::Failed
    } else if str_eq(d, "denied") {
        DispositionAction::Denied
    } else if str_eq(d, "confirm-chip") {
        DispositionAction::AskThenConfirm
    } else if str_eq(d, "confirm-modal") {
        DispositionAction::NeedsModal
    } else {
        DispositionAction::Unknown
    }
}

/// Whether a consent switch value turns offloading on.
pub fn consent_on(state: &str) -> (b: bool)
    ensures
        b == (state@ == "on"@ || state@ == "yes"@ || state@ == "true"@ || state@ == "allow"@),
{
    str_eq(state, "on") || str_eq(state, "yes") || str_eq(state, "true") || str_eq(state, "allow")
}

/// The tag a catalog listing shows for a fit.
pub open spec fn spec_fit_mark(f: Fit) -> Seq<char> {
    match f {
        Fit::Runs => "OK  "@,
        Fit::Tight => "TIGHT"@,
        Fit::TooBig => "REMOTE"@,
    }
}

pub fn fit_mark(f: Fit) -> (s: &'static str)
    ensures
        s@ == spec_fit_mark(f),
{
    match f {
        Fit::Runs => "OK  ",
        Fit::Tight => "TIGHT",
        Fit::TooBig => "REMOTE",
    }
}

/// What `lisa models get <id>` installs: the catalog model's pinned
/// source and hash, or why it cannot.
pub open spec fn spec_get_plan(models: Seq<ModelEntry>, id: Seq<char>) -> Result<(Seq<char>, Seq<char>), Seq<char>> {
    let i = first_model(models, id);
    if i < 0 || i >= models.len() {
        Err("no catalog model `"@ + id + "` (see `lisa models catalog`)"@)
    } else if models[i].revoked {
        Err("`"@ + id + "` is revoked and must not be installed"@)
    } else {
        match (models[i].source, models[i].blake3) {
            (Some(s), Some(h)) => Ok((s@, h@)),
            _ => Err("`"@ + id + "` has no pinned source yet (catalog entry not finalized)"@),
        }
    }
}

/// Index of the first model with `id`, or -1.
pub open spec fn first_model(models: Seq<ModelEntry>, id: Seq<char>) -> int
    decreases models.len(),
{
    if models.len() == 0 {
        -1
    } else if models[0].id@ == id {
        0
    } else {
        let j = first_model(models.drop_first(), id);
        if j < 0 {
            -1
        } else {
            j + 1
        }
    }
}

proof fn lemma_first_model(models: Seq<ModelEntry>, id: Seq<char>)
    ensures
        -1 <= first_model(models, id) < models.len(),
        first_model(models, id) >= 0 ==> models[first_model(models, id)].id@ == id,
        forall|i: int|
            0 <= i < models.len() && (first_model(models, id) < 0 || i < first_model(models, id))
                ==> #[trigger] models[i].id@ != id,
    decreases models.len(),
{
    if models.len() > 0 {
        lemma_first_model(models.drop_first(), id);
        assert forall|i: int| 0 < i < models.len() implies models[i] == models.drop_first()[i - 1] by {}
    }
}

pub fn get_plan(catalog: &Catalog, id: &str) -> (r: Result<(String, String), String>)
    ensures
        match spec_get_plan(catalog.models@, id@) {
            Ok((s, h)) => r matches Ok((a, b)) && a@ == s && b@ == h,
            Err(e) => r matches Err(m) && m@ == e,
        },
{
    proof {
        lemma_first_model(catalog.models@, id@);
    }
    let mut i: usize = 0;
    while i < catalog.models.len() && !str_eq(catalog.models[i].id.as_str(), id)
        invariant
            i <= catalog.models.len(),
            forall|k: int| 0 <= k < i ==> catalog.models@[k].id@ != id@,
        decreases catalog.models.len() - i,
    {
        i = i + 1;
    }
    proof {
        let f = first_model(catalog.models@, id@);
        if i < catalog.models.len() {
            if f < 0 || f > i {
                assert(catalog.models@[i as int].id@ != id@);
            }
            if 0 <= f && f < i {
                assert(catalog.models@[f].id@ != id@);
            }
        } else if f >= 0 {
            assert(catalog.models@[f].id@ != id@);
        }
    }
    if i == catalog.models.len() {
        let mut m = owned("no catalog model `");
        m.append(id);
        m.append("` (see `lisa models catalog`)");
        return Err(m);
    }
    let e = &catalog.models[i];
    if e.revoked {
        let mut m = owned("`");
        m.append(id);
        m.append("` is revoked and must not be installed");
        return Err(m);
    }
    match (&e.source, &e.blake3) {
        (Some(s), Some(h)) => Ok((s.clone(), h.clone())),
        _ => {
            let mut m = owned("`");
            m.append(id);
            m.append("` has no pinned source yet (catalog entry not finalized)");
            Err(m)
        },
    }
}

/// The request `lisa` sends the broker over its local socket.
pub open spec fn spec_cli_request(method: Seq<char>, path: Seq<char>, body: Seq<char>) -> Seq<char> {
    method + " "@ + path
        + " HTTP/1.1\r\nHost: lisa-remoted\r\nContent-Type: application/json\r\nContent-Length: "@
        + decimal(vstd::utf8::encode_utf8(body).len()) + "\r\nConnection: close\r\n\r\n"@ + body
}

pub fn cli_request(method: &str, path: &str, body: Option<&str>) -> (r: String)
    ensures
        r@ == spec_cli_request(
            method@,
            path@,
            match body {
                Some(b) => b@,
                None => Seq::empty(),
            },
        ),
{
    let b = match body {
        Some(b) => b,
        None => {
            proof {
                reveal_strlit("");
            }
            ""
        },
    };
    let mut r = owned(method);
    r.append(" ");
    r.append(path);
    r.append(" HTTP/1.1\r\nHost: lisa-remoted\r\nContent-Type: application/json\r\nContent-Length: ");
    r.append(u64_to_decimal(b.as_bytes().len() as u64).as_str());
    r.append("\r\nConnection: close\r\n\r\n");
    r.append(b);
    r
}

/// The length of the leading run of non-whitespace characters of `s`.
pub open spec fn run_len(s: Seq<char>) -> nat
    decreases s.len(),
{
    if s.len() == 0 || is_space(s[0]) {
        0
    } else {
        1 + run_len(s.drop_first())
    }
}

/// The whitespace-separated words of `s` (`str::split_whitespace`).
pub open spec fn ws_words(s: Seq<char>) -> Seq<Seq<char>>
    decreases s.len(),
{
    let t = trim_start(s);
    if t.len() == 0 {
        Seq::empty()
    } else if t.len() < s.len() {
        ws_words(t)
    } else {
        let k = run_len(t);
        if k == 0 {
            Seq::empty()
        } else {
            proof {
                lemma_trim_start(s);
                lemma_run_len(t);
            }
            seq![t.take(k as int)] + ws_words(t.skip(k as int))
        }
    }
}

/// `trim_start` drops a whitespace prefix: what is left is a suffix of
/// the text that does not start with whitespace.
pub proof fn lemma_trim_start(s: Seq<char>)
    ensures
        trim_start(s).len() <= s.len(),
        trim_start(s).len() > 0 ==> !is_space(trim_start(s)[0]),
        trim_start(s) == s.skip(s.len() - trim_start(s).len()),
    decreases s.len(),
{
    if s.len() > 0 && is_space(s[0]) {
        lemma_trim_start(s.drop_first());
        assert(s.drop_first().skip(s.drop_first().len() - trim_start(s).len()) =~= s.skip(
            s.len() - trim_start(s).len(),
        ));
    } else {
        assert(s.skip(0) =~= s);
    }
}

/// `run_len` counts the leading non-whitespace characters.
pub proof fn lemma_run_len(s: Seq<char>)
    ensures
        run_len(s) <= s.len(),
        forall|i: int| 0 <= i < run_len(s) ==> !is_space(#[trigger] s[i]),
        run_len(s) < s.len() ==> is_space(s[run_len(s) as int]),
    decreases s.len(),
{
    if s.len() > 0 && !is_space(s[0]) {
        lemma_run_len(s.drop_first());
        assert forall|i: int| 0 <= i < run_len(s) implies !is_space(#[trigger] s[i]) by {
            if i > 0 {
                assert(s[i] == s.drop_first()[i - 1]);
            }
        }
    }
}

/// The first two whitespace-separated words of `s` (as positions).
fn word_at(s: &str, from: usize) -> (r: (usize, usize))
    requires
        from <= s@.len(),
    ensures
        from <= r.0 <= r.1 <= s@.len(),
        s@.skip(r.0 as int) == trim_start(s@.skip(from as int)),
        r.1 - r.0 == run_len(s@.skip(r.0 as int)),
{
    let a = crate::text::skip_spaces(s, from);
    let n = s.unicode_len();
    let mut e = a;
    assert(s@.skip(a as int).skip(0) =~= s@.skip(a as int));
    while e < n && !space(s.get_char(e))
        invariant
            n == s@.len(),
            a <= e <= n,
            run_len(s@.skip(a as int)) == (e - a) + run_len(s@.skip(e as int)),
        decreases n - e,
    {
        assert(s@.skip(e as int).drop_first() =~= s@.skip(e as int + 1));
        e = e + 1;
    }
    (a, e)
}

/// The `n`-th whitespace-separated word of `s`.
pub open spec fn nth_word(s: Seq<char>, n: nat) -> Option<Seq<char>> {
    let w = ws_words(s);
    if n < w.len() {
        Some(w[n as int])
    } else {
        None
    }
}

proof fn lemma_words_step(s: Seq<char>, a: int, e: int)
    requires
        0 <= a <= e <= s.len(),
        s.skip(a) == trim_start(s),
        e - a == run_len(s.skip(a)),
    ensures
        e > a ==> ws_words(s) == seq![s.subrange(a, e)] + ws_words(s.skip(e)),
        e == a ==> ws_words(s) == Seq::<Seq<char>>::empty(),
{
    lemma_trim_start(s);
    let t = trim_start(s);
    lemma_run_len(t);
    if t.len() > 0 {
        assert(e > a);
        lemma_trim_start(t);
        assert(trim_start(t) == t);
        if t.len() < s.len() {
            assert(ws_words(s) == ws_words(t));
        }
        assert(t.take(e - a) =~= s.subrange(a, e));
        assert(t.skip(e - a) =~= s.skip(e));
    } else {
        assert(e == a);
    }
}

/// The decimal value of `s` as `str::parse::<u16>` reads it: an optional
/// `+` and at least one digit, within range.
pub open spec fn digits_value(s: Seq<char>) -> int
    decreases s.len(),
{
    if s.len() == 0 {
        0
    } else {
        digits_value(s.drop_last()) * 10 + (s.last() as int - '0' as int)
    }
}

pub open spec fn all_digits(s: Seq<char>) -> bool {
    forall|i: int| 0 <= i < s.len() ==> '0' <= #[trigger] s[i] <= '9'
}

/// `s` without one leading `+`.
pub open spec fn unsigned_digits(s: Seq<char>) -> Seq<char> {
    if s.len() > 0 && s[0] == '+' {
        s.drop_first()
    } else {
        s
    }
}

pub open spec fn spec_parse_u16(s: Seq<char>) -> Option<u16> {
    let d = unsigned_digits(s);
    if d.len() > 0 && all_digits(d) && digits_value(d) <= 65535 {
        Some(digits_value(d) as u16)
    } else {
        None
    }
}

pub fn parse_u16(s: &str) -> (r: Option<u16>)
    ensures
        r == spec_parse_u16(s@),
{
    let n = s.unicode_len();
    let start: usize = if n > 0 && s.get_char(0) == '+' {
        1
    } else {
        0
    };
    let ghost d = unsigned_digits(s@);
    assert(d =~= s@.skip(start as int));
    if start == n {
        return None;
    }
    let mut v: u32 = 0;
    let mut i = start;
    while i < n
        invariant
            n == s@.len(),
            start <= i <= n,
            d == s@.skip(start as int),
            d == unsigned_digits(s@),
            v <= 65535,
            all_digits(s@.subrange(start as int, i as int)),
            v == digits_value(s@.subrange(start as int, i as int)),
        decreases n - i,
    {
        let c = s.get_char(i);
        assert(s@.subrange(start as int, i as int + 1).drop_last() =~= s@.subrange(start as int, i as int));
        if !('0' <= c && c <= '9') {
            proof {
                assert(d[i - start] == c);
                assert(!all_digits(d));
            }
            return None;
        }
        let digit = (c as u32) - ('0' as u32);
        let next = v * 10 + digit;
        if next > 65535 {
            proof {
                let w = s@.subrange(start as int, i as int + 1);
                assert(d.take(i - start + 1) =~= w);
                assert forall|j: int| 0 <= j < w.len() implies '0' <= #[trigger] w[j] <= '9' by {
                    if j < w.len() - 1 {
                        assert(w[j] == s@.subrange(start as int, i as int)[j]);
                    }
                }
                lemma_digits_grow(d, (i - start + 1) as int);
            }
            return None;
        }
        v = next;
        i = i + 1;
    }
    assert(s@.subrange(start as int, n as int) =~= d);
    Some(v as u16)
}

/// A digit string's value is at least that of each of its prefixes.
proof fn lemma_digits_grow(d: Seq<char>, k: int)
    requires
        0 <= k <= d.len(),
        all_digits(d.take(k)),
    ensures
        all_digits(d) ==> digits_value(d) >= digits_value(d.take(k)),
    decreases d.len() - k,
{
    if k < d.len() {
        if all_digits(d) {
            assert(d.take(k + 1).drop_last() =~= d.take(k));
            assert(all_digits(d.take(k + 1)));
            lemma_digits_nonneg(d.take(k));
            lemma_digits_grow(d, k + 1);
        }
    } else {
        assert(d.take(k) =~= d);
    }
}

/// A run of digits has a non-negative value.
pub proof fn lemma_digits_nonneg(s: Seq<char>)
    requires
        all_digits(s),
    ensures
        digits_value(s) >= 0,
    decreases s.len(),
{
    if s.len() > 0 {
        lemma_digits_nonneg(s.drop_last());
    }
}

/// The status and trimmed body of the broker's reply; the status is the
/// second word of the first line, 0 when it is not a number.
pub open spec fn spec_broker_reply(raw: Seq<char>) -> Option<(u16, Seq<char>)> {
    let k = find_seq(raw, "\r\n\r\n"@);
    if k < 0 {
        None
    } else {
        let status = match nth_word(first_line(raw.take(k)), 1) {
            Some(w) => match spec_parse_u16(w) {
                Some(v) => v,
                None => 0u16,
            },
            None => 0u16,
        };
        Some((status, trim(raw.skip(k + 4))))
    }
}

/// The status word of a status line: its second whitespace-separated word.
fn status_word(line: &str) -> (r: Option<&str>)
    ensures
        match r {
            Some(w) => nth_word(line@, 1) == Some(w@),
            None => nth_word(line@, 1) is None,
        },
{
    let (a1, e1) = word_at(line, 0);
    proof {
        assert(line@.skip(0) =~= line@);
        lemma_words_step(line@, a1 as int, e1 as int);
    }
    if e1 == a1 {
        return None;
    }
    let (a2, e2) = word_at(line, e1);
    proof {
        let t = line@.skip(e1 as int);
        assert(t.skip(a2 - e1) =~= line@.skip(a2 as int));
        lemma_words_step(t, a2 - e1, e2 - e1);
        assert(t.subrange(a2 - e1, e2 - e1) =~= line@.subrange(a2 as int, e2 as int));
        assert(ws_words(line@).len() == 1 + ws_words(t).len());
    }
    if e2 == a2 {
        return None;
    }
    Some(line.substring_char(a2, e2))
}

/// Splits the broker's raw HTTP reply into its status and trimmed body;
/// `None` when the reply has no blank line after its head.
pub fn parse_broker_reply(raw: &str) -> (r: Option<(u16, String)>)
    ensures
        match r {
            Some((st, body)) => spec_broker_reply(raw@) == Some((st, body@)),
            None => spec_broker_reply(raw@) is None,
        },
{
    proof {
        reveal_strlit("\r\n\r\n");
    }
    let n = raw.unicode_len();
    let k = find_first(raw, "\r\n\r\n");
    proof {
        lemma_find_seq(raw@, "\r\n\r\n"@);
    }
    if k == n {
        return None;
    }
    let head = raw.substring_char(0, k);
    let nl = find_char(head, '\n', 0);
    proof {
        lemma_index_of(head@, '\n');
        if nl < head@.len() {
            assert(index_of(head@, '\n') == nl);
        }
    }
    let line = head.substring_char(0, nl);
    proof {
        if nl == head@.len() {
            assert(line@ =~= head@);
        }
        assert(head@ =~= raw@.take(k as int));
        assert(line@ == first_line(raw@.take(k as int)));
    }
    let status: u16 = match status_word(line) {
        Some(w) => match parse_u16(w) {
            Some(v) => v,
            None => 0,
        },
        None => 0,
    };
    let a = skip_spaces(raw, k + 4);
    let e = cut_spaces(raw, a, n);
    proof {
        assert(raw@.skip(a as int) =~= raw@.subrange(a as int, n as int));
    }
    let body = owned(raw.substring_char(a, e));
    Some((status, body))
}

/// The first whitespace-separated word of each line of `/proc/mounts`
/// (the mounted device) starting with `target`.
pub open spec fn mounts_target(mounts: Seq<char>, target: Seq<char>) -> bool {
    exists|i: int| 0 <= i < lines(mounts).len() && #[trigger] device_on(lines(mounts)[i], target)
}

/// The line's device (its first word) starts with `target`.
pub open spec fn device_on(line: Seq<char>, target: Seq<char>) -> bool {
    match nth_word(line, 0) {
        Some(d) => is_prefix(target, d),
        None => false,
    }
}

fn first_word(line: &str) -> (r: Option<&str>)
    ensures
        match r {
            Some(w) => nth_word(line@, 0) == Some(w@),
            None => nth_word(line@, 0) is None,
        },
{
    let (a, e) = word_at(line, 0);
    proof {
        assert(line@.skip(0) =~= line@);
        lemma_words_step(line@, a as int, e as int);
    }
    if e == a {
        None
    } else {
        Some(line.substring_char(a, e))
    }
}

/// Whether a partition of `target` is mounted, from the text of
/// `/proc/mounts`: the install guard against overwriting the running
/// disk.
pub fn mounted(mounts: &str, target: &str) -> (b: bool)
    ensures
        b == mounts_target(mounts@, target@),
{
    let ls = crate::forge_tools::split_lines(mounts);
    let mut i: usize = 0;
    while i < ls.len()
        invariant
            strings_view(ls@) == lines(mounts@),
            i <= ls.len(),
            forall|k: int| 0 <= k < i ==> !#[trigger] device_on(lines(mounts@)[k], target@),
        decreases ls.len() - i,
    {
        assert(ls@[i as int]@ == lines(mounts@)[i as int]);
        match first_word(ls[i].as_str()) {
            Some(d) => {
                if starts_with(d, target) {
                    assert(device_on(lines(mounts@)[i as int], target@));
                    return true;
                }
            },
            None => {},
        }
        i = i + 1;
    }
    false
}

/// The image asset of a release: the first asset whose name ends in
/// `.raw.zst`, with its download URL and name (`image` when unnamed).
pub open spec fn is_image(asset: Json) -> bool {
    match str_of(member(asset, "name"@)) {
        Some(n) => n.len() >= 8 && n.skip(n.len() - 8) == ".raw.zst"@,
        None => false,
    }
}

pub open spec fn first_image(assets: Seq<Json>) -> int
    decreases assets.len(),
{
    if assets.len() == 0 {
        -1
    } else if is_image(assets[0]) {
        0
    } else {
        let j = first_image(assets.drop_first());
        if j < 0 {
            -1
        } else {
            j + 1
        }
    }
}

pub open spec fn spec_release_asset(release: Json) -> Result<(Seq<char>, Seq<char>), Seq<char>> {
    match member(release, "assets"@) {
        Some(Json::Array(a)) => {
            let i = first_image(a@);
            if i < 0 {
                Err("no .raw.zst asset in the latest release"@)
            } else {
                match str_of(member(a@[i], "browser_download_url"@)) {
                    None => Err("asset has no download url"@),
                    Some(u) => Ok(
                        (
                            u,
                            match str_of(member(a@[i], "name"@)) {
                                Some(n) => n,
                                None => "image"@,
                            },
                        ),
                    ),
                }
            }
        },
        _ => Err("no .raw.zst asset in the latest release"@),
    }
}

fn image_asset(asset: &Json) -> (b: bool)
    ensures
        b == is_image(*asset),
{
    proof {
        reveal_strlit(".raw.zst");
    }
    match as_str(get(asset, "name")) {
        Some(n) => {
            let k = n.unicode_len();
            if k < 8 {
                return false;
            }
            let tail = n.substring_char(k - 8, k);
            assert(tail@ =~= n@.skip(k - 8));
            str_eq(tail, ".raw.zst")
        },
        None => false,
    }
}

/// The download URL and name of the release's disk image.
pub fn release_asset(release: &Json) -> (r: Result<(String, String), String>)
    ensures
        match spec_release_asset(*release) {
            Ok((u, n)) => r matches Ok((x, y)) && x@ == u && y@ == n,
            Err(m) => r matches Err(x) && x@ == m,
        },
{
    let a = match get(release, "assets") {
        Some(Json::Array(a)) => a,
        _ => return Err(owned("no .raw.zst asset in the latest release")),
    };
    let mut i: usize = 0;
    assert(a@.skip(0) =~= a@);
    while i < a.len() && !image_asset(&a[i])
        invariant
            i <= a.len(),
            first_image(a@) == (if first_image(a@.skip(i as int)) < 0 {
                -1
            } else {
                first_image(a@.skip(i as int)) + i
            }),
        decreases a.len() - i,
    {
        assert(a@.skip(i as int).drop_first() =~= a@.skip(i as int + 1));
        i = i + 1;
    }
    if i == a.len() {
        assert(a@.skip(i as int) =~= Seq::<Json>::empty());
        return Err(owned("no .raw.zst asset in the latest release"));
    }
    assert(a@.skip(i as int)[0] == a@[i as int]);
    let url = match as_str(get(&a[i], "browser_download_url")) {
        Some(u) => u,
        None => return Err(owned("asset has no download url")),
    };
    let name = match as_str(get(&a[i], "name")) {
        Some(n) => owned(n),
        None => owned("image"),
    };
    Ok((owned(url), name))
}

} // verus!
