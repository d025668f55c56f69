//! The OpenAI-compatible chat surface of the inference daemon: which
//! model a request names, how an engine's token stream becomes a
//! completion (or an error), and the server-sent events of a streamed
//! one.

use crate::engine::{ChatMessage, EngineError};
use crate::ledger::{input_hash, preview_of, spec_input_hash, spec_preview, Event};
use crate::json::{fields_view, num_u64, object, u64_value, JValue, Json};
use crate::text::{decimal, is_space, owned, space, u64_to_decimal};
use vstd::prelude::*;

verus! {

/// The model a completion reports: the request's, else the daemon's.
pub fn response_model(requested: Option<&str>, serving: &str) -> (m: String)
    ensures
        m@ == (match requested {
            Some(r) => r@,
            None => serving@,
        }),
{
    match requested {
        Some(r) => owned(r),
        None => owned(serving),
    }
}

/// `chatcmpl-lisa-<unix seconds>`.
pub fn completion_id(now: u64) -> (s: String)
    ensures
        s@ == "chatcmpl-lisa-"@ + decimal(now as nat),
{
    let mut s = owned("chatcmpl-lisa-");
    s.append(u64_to_decimal(now).as_str());
    s
}

/// The text of a token stream, or the first error in it.
pub open spec fn spec_aggregate(t: Seq<Result<String, String>>) -> Result<Seq<char>, Seq<char>>
    decreases t.len(),
{
    if t.len() == 0 {
        Ok(Seq::empty())
    } else {
        match spec_aggregate(t.drop_last()) {
            Err(e) => Err(e),
            Ok(text) => match t.last() {
                Ok(tok) => Ok(text + tok@),
                Err(e) => Err(e@),
            },
        }
    }
}

/// Join the tokens of a non-streamed completion; the first failed token
/// fails the whole completion with its message.
pub fn aggregate(tokens: &Vec<Result<String, String>>) -> (r: Result<String, String>)
    ensures
        match spec_aggregate(tokens@) {
            Ok(text) => r is Ok && r->Ok_0@ == text,
            Err(e) => r is Err && r->Err_0@ == e,
        },
{
    let mut content = String::new();
    let mut i: usize = 0;
    while i < tokens.len()
        invariant
            i <= tokens.len(),
            spec_aggregate(tokens@.take(i as int)) == Ok::<Seq<char>, Seq<char>>(content@),
        decreases tokens.len() - i,
    {
        assert(tokens@.take(i as int + 1).drop_last() =~= tokens@.take(i as int));
        match &tokens[i] {
            Ok(t) => content.append(t.as_str()),
            Err(e) => {
                proof {
                    lemma_aggregate_error(tokens@, i as int + 1);
                }
                return Err(e.clone());
            },
        }
        i = i + 1;
    }
    assert(tokens@.take(tokens.len() as int) =~= tokens@);
    Ok(content)
}

proof fn lemma_aggregate_error(t: Seq<Result<String, String>>, k: int)
    requires
        0 < k <= t.len(),
        spec_aggregate(t.take(k)) is Err,
    ensures
        spec_aggregate(t) == spec_aggregate(t.take(k)),
    decreases t.len() - k,
{
    if k == t.len() {
        assert(t.take(k) =~= t);
    } else {
        assert(t.take(k + 1).drop_last() =~= t.take(k));
        lemma_aggregate_error(t, k + 1);
    }
}

/// The number of whitespace-separated words of `s`.
pub open spec fn word_count(s: Seq<char>) -> nat
    decreases s.len(),
{
    if s.len() == 0 {
        0
    } else {
        let starts = !is_space(s.last()) && (s.len() == 1 || is_space(s[s.len() - 2]));
        word_count(s.drop_last()) + if starts {
            1nat
        } else {
            0nat
        }
    }
}

pub fn count_words(s: &str) -> (n: usize)
    ensures
        n == word_count(s@),
{
    let len = s.unicode_len();
    let mut n: usize = 0;
    let mut prev_space = true;
    let mut i: usize = 0;
    while i < len
        invariant
            len == s@.len(),
            i <= len,
            n == word_count(s@.take(i as int)),
            n <= i,
            prev_space == (i == 0 || is_space(s@[i - 1])),
        decreases len - i,
    {
        let c = s.get_char(i);
        let sp = space(c);
        assert(s@.take(i as int + 1).drop_last() =~= s@.take(i as int));
        if !sp && prev_space {
            n = n + 1;
        }
        prev_space = sp;
        i = i + 1;
    }
    assert(s@.take(len as int) =~= s@);
    n
}

/// The body of a finished, non-streamed completion.
pub open spec fn spec_completion_body(
    id: Seq<char>,
    created: u64,
    model: Seq<char>,
    content: Seq<char>,
    completion_tokens: u64,
) -> JValue {
    JValue::Object(
        seq![
            ("id"@, JValue::Str(id)),
            ("object"@, JValue::Str("chat.completion"@)),
            ("created"@, u64_value(created)),
            ("model"@, JValue::Str(model)),
            (
                "choices"@,
                JValue::Array(
                    seq![
                        JValue::Object(
                            seq![
                                ("index"@, u64_value(0)),
                                (
                                    "message"@,
                                    JValue::Object(
                                        seq![
                                            ("role"@, JValue::Str("assistant"@)),
                                            ("content"@, JValue::Str(content)),
                                        ],
                                    ),
                                ),
                                ("finish_reason"@, JValue::Str("stop"@)),
                            ],
                        ),
                    ],
                ),
            ),
            (
                "usage"@,
                JValue::Object(
                    seq![
                        ("prompt_tokens"@, u64_value(0)),
                        ("completion_tokens"@, u64_value(completion_tokens)),
                        ("total_tokens"@, u64_value(completion_tokens)),
                    ],
                ),
            ),
        ],
    )
}

fn kv(k: &str, v: Json) -> (f: (String, Json))
    ensures
        f.0@ == k@,
        f.1@ == v@,
{
    (owned(k), v)
}

fn jtext(s: &str) -> (j: Json)
    ensures
        j@ == JValue::Str(s@),
{
    Json::Str(owned(s))
}

/// The completion for `content`: one `stop` choice from the assistant,
/// with its word count as the completion tokens.
pub fn completion_body(id: &str, created: u64, model: &str, content: &str) -> (j: Json)
    ensures
        j@ == spec_completion_body(id@, created, model@, content@, word_count(content@) as u64),
{
    let n = count_words(content) as u64;
    let mut mf: Vec<(String, Json)> = Vec::new();
    mf.push(kv("role", jtext("assistant")));
    mf.push(kv("content", jtext(content)));
    let message = object(mf);
    let mut cf: Vec<(String, Json)> = Vec::new();
    cf.push(kv("index", num_u64(0)));
    cf.push(kv("message", message));
    cf.push(kv("finish_reason", jtext("stop")));
    let choice = object(cf);
    let mut choices: Vec<Json> = Vec::new();
    choices.push(choice);
    let choices = Json::Array(choices);
    let mut uf: Vec<(String, Json)> = Vec::new();
    uf.push(kv("prompt_tokens", num_u64(0)));
    uf.push(kv("completion_tokens", num_u64(n)));
    uf.push(kv("total_tokens", num_u64(n)));
    let usage = object(uf);
    proof {
        assert(fields_view(mf@) =~= seq![
            ("role"@, JValue::Str("assistant"@)),
            ("content"@, JValue::Str(content@)),
        ]);
        assert(fields_view(cf@) =~= seq![
            ("index"@, u64_value(0)),
            ("message"@, JValue::Object(fields_view(mf@))),
            ("finish_reason"@, JValue::Str("stop"@)),
        ]);
        if let JValue::Array(x) = crate::json::json_view(choices) {
            assert(x =~= seq![JValue::Object(fields_view(cf@))]);
        }
        assert(fields_view(uf@) =~= seq![
            ("prompt_tokens"@, u64_value(0)),
            ("completion_tokens"@, u64_value(n)),
            ("total_tokens"@, u64_value(n)),
        ]);
    }
    let mut f: Vec<(String, Json)> = Vec::new();
    f.push(kv("id", jtext(id)));
    f.push(kv("object", jtext("chat.completion")));
    f.push(kv("created", num_u64(created)));
    f.push(kv("model", jtext(model)));
    f.push(kv("choices", choices));
    f.push(kv("usage", usage));
    let j = object(f);
    proof {
        assert(fields_view(f@) =~= seq![
            ("id"@, JValue::Str(id@)),
            ("object"@, JValue::Str("chat.completion"@)),
            ("created"@, u64_value(created)),
            ("model"@, JValue::Str(model@)),
            ("choices"@, f@[4].1@),
            ("usage"@, JValue::Object(fields_view(uf@))),
        ]);
    }
    j
}

/// `{"error": {"message": …}}`.
pub open spec fn spec_error_body(message: Seq<char>) -> JValue {
    JValue::Object(seq![("error"@, JValue::Object(seq![("message"@, JValue::Str(message))]))])
}

pub fn error_body(message: &str) -> (j: Json)
    ensures
        j@ == spec_error_body(message@),
{
    let mut mf: Vec<(String, Json)> = Vec::new();
    mf.push(kv("message", jtext(message)));
    let inner = object(mf);
    assert(fields_view(mf@) =~= seq![("message"@, JValue::Str(message@))]);
    let mut f: Vec<(String, Json)> = Vec::new();
    f.push(kv("error", inner));
    let j = object(f);
    assert(fields_view(f@) =~= seq![("error"@, JValue::Object(seq![("message"@, JValue::Str(message@))]))]);
    j
}

/// One server-sent event of a streamed completion.
#[derive(Debug, PartialEq, Eq)]
pub enum StreamEvent {
    /// The role preamble chunk.
    Role,
    /// One content chunk.
    Token(String),
    /// The error that ended the stream early.
    Error(String),
    /// The final chunk, `finish_reason: stop`.
    Stop,
    /// `[DONE]`.
    Done,
}

/// The events after the preamble for the remaining tokens `t`.
pub open spec fn events_of(t: Seq<Result<String, String>>) -> Seq<Seq<char>>
    decreases t.len(),
{
    if t.len() == 0 {
        Seq::empty()
    } else {
        match t[0] {
            Ok(tok) => seq!["token:"@ + tok@] + events_of(t.drop_first()),
            Err(e) => seq!["error:"@ + e@],
        }
    }
}

/// An event, named for the specification.
pub open spec fn event_name(e: StreamEvent) -> Seq<char> {
    match e {
        StreamEvent::Role => "role"@,
        StreamEvent::Token(t) => "token:"@ + t@,
        StreamEvent::Error(m) => "error:"@ + m@,
        StreamEvent::Stop => "stop"@,
        StreamEvent::Done => "done"@,
    }
}

pub open spec fn event_names(v: Seq<StreamEvent>) -> Seq<Seq<char>> {
    Seq::new(v.len(), |i: int| event_name(v[i]))
}

/// The events of a streamed completion: the role preamble, a chunk per
/// token up to the first error (which is reported and ends the tokens),
/// the final `stop` chunk and `[DONE]`.
pub fn stream_events(tokens: &Vec<Result<String, String>>) -> (r: Vec<StreamEvent>)
    ensures
        event_names(r@) == seq!["role"@] + events_of(tokens@) + seq!["stop"@, "done"@],
{
    let mut out: Vec<StreamEvent> = Vec::new();
    out.push(StreamEvent::Role);
    let mut i: usize = 0;
    assert(tokens@.skip(0) =~= tokens@);
    assert(event_names(out@) =~= seq!["role"@]);
    while i < tokens.len()
        invariant
            i <= tokens.len(),
            seq!["role"@] + events_of(tokens@) == event_names(out@) + events_of(
                tokens@.skip(i as int),
            ),
        decreases tokens.len() - i,
    {
        let ghost before = event_names(out@);
        let ghost rest = tokens@.skip(i as int);
        match &tokens[i] {
            Ok(t) => {
                out.push(StreamEvent::Token(t.clone()));
                assert(event_names(out@) =~= before.push("token:"@ + t@));
                assert(rest.drop_first() =~= tokens@.skip(i as int + 1));
                assert(before + events_of(rest) =~= event_names(out@) + events_of(
                    tokens@.skip(i as int + 1),
                ));
            },
            Err(e) => {
                out.push(StreamEvent::Error(e.clone()));
                assert(event_names(out@) =~= before.push("error:"@ + e@));
                assert(before + events_of(rest) =~= event_names(out@));
                let ghost mid = event_names(out@);
                out.push(StreamEvent::Stop);
                out.push(StreamEvent::Done);
                assert(event_names(out@) =~= mid + seq!["stop"@, "done"@]);
                return out;
            },
        }
        i = i + 1;
    }
    let ghost mid = event_names(out@);
    assert(tokens@.skip(tokens.len() as int) =~= Seq::<Result<String, String>>::empty());
    assert(mid + Seq::<Seq<char>>::empty() =~= mid);
    out.push(StreamEvent::Stop);
    out.push(StreamEvent::Done);
    assert(event_names(out@) =~= mid + seq!["stop"@, "done"@]);
    out
}

/// One streamed item's event, and whether it ends the tokens (an error
/// does): emitting these item by item, between the preamble and the
/// `stop`/`[DONE]` tail, gives exactly the events of `stream_events`.
pub fn stream_event(item: &Result<String, String>) -> (r: (StreamEvent, bool))
    ensures
        r.1 == item is Err,
        forall|rest: Seq<Result<String, String>>|
            #[trigger] events_of(seq![*item] + rest) == seq![event_name(r.0)] + if r.1 {
                Seq::<Seq<char>>::empty()
            } else {
                events_of(rest)
            },
{
    let r = match item {
        Ok(t) => (StreamEvent::Token(t.clone()), false),
        Err(e) => (StreamEvent::Error(e.clone()), true),
    };
    assert forall|rest: Seq<Result<String, String>>|
        #[trigger] events_of(seq![*item] + rest) == seq![event_name(r.0)] + if r.1 {
            Seq::<Seq<char>>::empty()
        } else {
            events_of(rest)
        } by {
        let t = seq![*item] + rest;
        assert(t[0] == *item);
        assert(t.drop_first() =~= rest);
    }
    r
}

/// The contents of the messages joined by line breaks.
pub open spec fn spec_prompt(m: Seq<ChatMessage>) -> Seq<char>
    decreases m.len(),
{
    if m.len() == 0 {
        Seq::empty()
    } else if m.len() == 1 {
        m[0].content@
    } else {
        spec_prompt(m.drop_last()) + "\n"@ + m.last().content@
    }
}

/// The prompt a completion is ledgered under: the message contents, one
/// per line.
pub fn prompt_of(messages: &Vec<ChatMessage>) -> (s: String)
    ensures
        s@ == spec_prompt(messages@),
{
    let mut s = String::new();
    let mut i: usize = 0;
    while i < messages.len()
        invariant
            i <= messages.len(),
            s@ == spec_prompt(messages@.take(i as int)),
        decreases messages.len() - i,
    {
        assert(messages@.take(i as int + 1).drop_last() =~= messages@.take(i as int));
        if i > 0 {
            s.append("\n");
        }
        s.append(messages[i].content.as_str());
        i = i + 1;
    }
    assert(messages@.take(messages.len() as int) =~= messages@);
    s
}

/// The start entry of a completion: written before anything is generated.
pub fn inference_start(model: &str, prompt: &str) -> (e: Event)
    ensures
        e.kind@ == "inference.generate"@,
        e.app_id@ == "host"@,
        e.model@ == model@,
        e.input_hash@ == spec_input_hash(prompt@),
        e.preview@ == spec_preview(prompt@),
        e.status@ == "started"@,
        e.detail@ == Seq::<char>::empty(),
        e.ref_id is None,
        e.output_tokens == 0,
        e.duration_ms == 0,
{
    Event {
        kind: owned("inference.generate"),
        app_id: owned("host"),
        model: owned(model),
        input_hash: input_hash(prompt),
        preview: preview_of(prompt),
        status: owned("started"),
        detail: String::new(),
        ref_id: None,
        output_tokens: 0,
        duration_ms: 0,
    }
}

/// The completion entry of the completion started as `start_id`: `ok`
/// with the reply's word count, or `error` with the message.
pub fn inference_complete(model: &str, start_id: i64, outcome: &Result<String, String>) -> (e: Event)
    ensures
        e.kind@ == "inference.complete"@,
        e.app_id@ == "host"@,
        e.model@ == model@,
        e.input_hash@ == Seq::<char>::empty(),
        e.preview@ == Seq::<char>::empty(),
        e.ref_id == Some(start_id),
        e.duration_ms == 0,
        outcome matches Ok(c) ==> e.status@ == "ok"@ && e.detail@ == Seq::<char>::empty() && (
        word_count(c@) <= i64::MAX ==> e.output_tokens == word_count(c@)),
        outcome matches Err(m) ==> e.status@ == "error"@ && e.detail@ == m@ && e.output_tokens == 0,
{
    let (status, detail, tokens) = match outcome {
        Ok(content) => {
            let n = count_words(content.as_str()) as u64;
            let t: i64 = if n <= 0x7fff_ffff_ffff_ffff {
                n as i64
            } else {
                0x7fff_ffff_ffff_ffff
            };
            (owned("ok"), String::new(), t)
        },
        Err(m) => (owned("error"), m.clone(), 0i64),
    };
    Event {
        kind: owned("inference.complete"),
        app_id: owned("host"),
        model: owned(model),
        input_hash: String::new(),
        preview: String::new(),
        status,
        detail,
        ref_id: Some(start_id),
        output_tokens: tokens,
        duration_ms: 0,
    }
}


} // verus!
