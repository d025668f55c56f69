//! Request proxying for the egress broker: render one OpenAI-compatible
//! chat request into a provider's dialect (URL, headers, body), and
//! normalize the provider's response back to the OpenAI shape.

use crate::json::{
    as_str, as_u64, bool_of, copy_json, deref_opt, fields_view, get, json_view, lemma_object_view,
    member, num_u64, object, str_of, u64_of, u64_value, JValue, Json,
};
use crate::oauth::{bearer_headers, pair_views};
use crate::providers::{trim_slashes, trim_trailing_slashes, AuthStyle, Dialect, ProviderSpec};
use crate::text::{owned, str_eq};
use vstd::prelude::*;

verus! {

/// Why a request could not be rendered or was refused upstream.
#[derive(Debug)]
pub enum ProxyError {
    /// The provider has no endpoint configured.
    NoEndpoint(String),
    /// The body has no `messages` array.
    BadRequest,
    /// The provider answered with an error status.
    Upstream { status: u16, body: String },
    /// The request could not be sent or its reply could not be read.
    Http(String),
}

/// A fully rendered upstream request.
pub struct UpstreamRequest {
    pub url: String,
    pub headers: Vec<(String, String)>,
    pub body: Json,
}

/// The authentication headers for `auth` with `credential`, after the
/// content type.
pub open spec fn spec_headers(auth: AuthStyle, credential: Seq<char>) -> Seq<(Seq<char>, Seq<char>)> {
    let ct = seq![("content-type"@, "application/json"@)];
    match auth {
        AuthStyle::Bearer => ct.push(("authorization"@, "Bearer "@ + credential)),
        AuthStyle::AnthropicApiKey => ct + seq![
            ("x-api-key"@, credential),
            ("anthropic-version"@, "2023-06-01"@),
        ],
        AuthStyle::AnthropicOauth => ct + seq![
            ("authorization"@, "Bearer "@ + credential),
            ("anthropic-beta"@, "oauth-2025-04-20"@),
            ("anthropic-version"@, "2023-06-01"@),
        ],
    }
}

fn pair(k: &str, v: &str) -> (p: (String, String))
    ensures
        p.0@ == k@,
        p.1@ == v@,
{
    (owned(k), owned(v))
}

pub fn headers_for(auth: AuthStyle, credential: &str) -> (h: Vec<(String, String)>)
    ensures
        pair_views(h@) == spec_headers(auth, credential@),
{
    let mut h: Vec<(String, String)> = Vec::new();
    h.push(pair("content-type", "application/json"));
    match auth {
        AuthStyle::Bearer => {
            let mut v = owned("Bearer ");
            v.append(credential);
            h.push((owned("authorization"), v));
        },
        AuthStyle::AnthropicApiKey => {
            h.push(pair("x-api-key", credential));
            h.push(pair("anthropic-version", "2023-06-01"));
        },
        AuthStyle::AnthropicOauth => {
            let b = bearer_headers(credential);
            let mut i: usize = 0;
            let ghost start = pair_views(h@);
            assert(start =~= seq![("content-type"@, "application/json"@)]);
            while i < b.len()
                invariant
                    i <= b.len(),
                    pair_views(h@) == start + pair_views(b@).take(i as int),
                decreases b.len() - i,
            {
                let ghost before = pair_views(h@);
                h.push((b[i].0.clone(), b[i].1.clone()));
                assert(pair_views(h@) =~= before.push(pair_views(b@)[i as int]));
                assert(pair_views(b@).take(i as int + 1) =~= pair_views(b@).take(i as int).push(
                    pair_views(b@)[i as int],
                ));
                i = i + 1;
            }
            assert(pair_views(b@).take(b.len() as int) =~= pair_views(b@));
            let ghost mid = pair_views(h@);
            h.push(pair("anthropic-version", "2023-06-01"));
            assert(pair_views(h@) =~= mid.push(("anthropic-version"@, "2023-06-01"@)));
            assert(mid =~= seq![
                ("content-type"@, "application/json"@),
                ("authorization"@, "Bearer "@ + credential@),
                ("anthropic-beta"@, "oauth-2025-04-20"@),
            ]);
        },
    }
    proof {
        match auth {
            AuthStyle::Bearer => {
                assert(pair_views(h@) =~= spec_headers(auth, credential@));
            },
            AuthStyle::AnthropicApiKey => {
                assert(pair_views(h@) =~= spec_headers(auth, credential@));
            },
            AuthStyle::AnthropicOauth => {
                assert(pair_views(h@) =~= spec_headers(auth, credential@));
            },
        }
    }
    h
}

/// The body has a `messages` array.
pub open spec fn has_messages(body: Json) -> bool {
    member(body, "messages"@) matches Some(Json::Array(_))
}

/// The members of `f` other than `lisa_priority`, in order.
pub open spec fn without_lisa(f: Seq<(String, Json)>) -> Seq<(Seq<char>, JValue)> {
    fields_view(f).filter(|m: (Seq<char>, JValue)| m.0 != "lisa_priority"@)
}

/// The role and text of one chat message, as the native Messages API
/// dialect reads them (role defaults to `user`, text to empty).
pub open spec fn msg_role(m: Json) -> Seq<char> {
    match str_of(member(m, "role"@)) {
        Some(r) => r,
        None => "user"@,
    }
}

pub open spec fn msg_text(m: Json) -> Seq<char> {
    match str_of(member(m, "content"@)) {
        Some(c) => c,
        None => Seq::empty(),
    }
}

pub open spec fn is_system_role(r: Seq<char>) -> bool {
    r == "system"@ || r == "developer"@
}

/// The system and developer texts of `msgs`, in order.
pub open spec fn system_parts(msgs: Seq<Json>) -> Seq<Seq<char>>
    decreases msgs.len(),
{
    if msgs.len() == 0 {
        Seq::empty()
    } else if is_system_role(msg_role(msgs.last())) {
        system_parts(msgs.drop_last()).push(msg_text(msgs.last()))
    } else {
        system_parts(msgs.drop_last())
    }
}

/// The user and assistant turns of `msgs`, in order (any role other than
/// system, developer or assistant counts as the user).
pub open spec fn turns(msgs: Seq<Json>) -> Seq<JValue>
    decreases msgs.len(),
{
    if msgs.len() == 0 {
        Seq::empty()
    } else if is_system_role(msg_role(msgs.last())) {
        turns(msgs.drop_last())
    } else {
        let role = if msg_role(msgs.last()) == "assistant"@ {
            "assistant"@
        } else {
            "user"@
        };
        turns(msgs.drop_last()).push(
            JValue::Object(
                seq![("content"@, JValue::Str(msg_text(msgs.last()))), ("role"@, JValue::Str(role))],
            ),
        )
    }
}

/// `parts` joined with line feeds.
pub open spec fn join_lines(parts: Seq<Seq<char>>) -> Seq<char>
    decreases parts.len(),
{
    if parts.len() == 0 {
        Seq::empty()
    } else if parts.len() == 1 {
        parts[0]
    } else {
        join_lines(parts.drop_last()) + "\n"@ + parts.last()
    }
}

/// The native Messages API body for an OpenAI-shaped `body` whose
/// messages are `msgs`.
pub open spec fn spec_messages_body(body: Json, msgs: Seq<Json>) -> JValue {
    let fields = anthropic_fields(
        match u64_of(member(body, "max_tokens"@)) {
            Some(n) => n,
            None => 1024u64,
        },
        turns(msgs),
        match member(body, "model"@) {
            Some(m) => json_view(m),
            None => JValue::Null,
        },
    );
    if system_parts(msgs).len() == 0 {
        JValue::Object(fields)
    } else {
        JValue::Object(fields.push(("system"@, JValue::Str(join_lines(system_parts(msgs))))))
    }
}

/// The fields of a Messages API body before the optional `system`.
pub open spec fn anthropic_fields(max_tokens: u64, t: Seq<JValue>, model: JValue) -> Seq<(Seq<char>, JValue)> {
    seq![
        ("max_tokens"@, u64_value(max_tokens)),
        ("messages"@, JValue::Array(t)),
        ("model"@, model),
    ]
}

/// The rendered request, as the specification sees it.
pub open spec fn spec_upstream(spec: ProviderSpec, credential: Seq<char>, body: Json) -> Result<
    (Seq<char>, Seq<(Seq<char>, Seq<char>)>, JValue),
    ProxyErrorKind,
> {
    match spec.base_url {
        None => Err(ProxyErrorKind::NoEndpoint(spec.id@)),
        Some(base) => if !has_messages(body) {
            Err(ProxyErrorKind::BadRequest)
        } else {
            let headers = spec_headers(spec.auth, credential);
            match spec.dialect {
                Dialect::OpenaiCompat => Ok(
                    (
                        trim_slashes(base@) + "/chat/completions"@,
                        headers,
                        JValue::Object(without_lisa(body->Object_0@)),
                    ),
                ),
                Dialect::AnthropicMessages => Ok(
                    (
                        trim_slashes(base@) + "/v1/messages"@,
                        headers,
                        spec_messages_body(body, member(body, "messages"@)->Some_0->Array_0@),
                    ),
                ),
            }
        },
    }
}

/// A proxy error as the specification sees it.
pub enum ProxyErrorKind {
    NoEndpoint(Seq<char>),
    BadRequest,
}

fn join_parts(parts: &Vec<String>) -> (s: String)
    ensures
        s@ == join_lines(Seq::new(parts@.len(), |i: int| parts@[i]@)),
{
    let ghost pv = Seq::new(parts@.len(), |i: int| parts@[i]@);
    let mut s = String::new();
    let mut i: usize = 0;
    while i < parts.len()
        invariant
            i <= parts.len(),
            pv == Seq::new(parts@.len(), |k: int| parts@[k]@),
            s@ == join_lines(pv.take(i as int)),
        decreases parts.len() - i,
    {
        assert(pv.take(i as int + 1).drop_last() =~= pv.take(i as int));
        if i > 0 {
            s.append("\n");
        } else {
            assert(s@ =~= Seq::<char>::empty());
        }
        s.append(parts[i].as_str());
        i = i + 1;
    }
    assert(pv.take(parts.len() as int) =~= pv);
    s
}

/// Render the native Messages API body.
fn messages_body(body: &Json, msgs: &Vec<Json>) -> (r: Json)
    ensures
        r@ == spec_messages_body(*body, msgs@),
{
    let mut parts: Vec<String> = Vec::new();
    let mut turn_list: Vec<Json> = Vec::new();
    let mut i: usize = 0;
    while i < msgs.len()
        invariant
            i <= msgs.len(),
            Seq::new(parts@.len(), |k: int| parts@[k]@) == system_parts(msgs@.take(i as int)),
            Seq::new(turn_list@.len(), |k: int| turn_list@[k]@) == turns(msgs@.take(i as int)),
        decreases msgs.len() - i,
    {
        let m = &msgs[i];
        assert(msgs@.take(i as int + 1).drop_last() =~= msgs@.take(i as int));
        assert(msgs@.take(i as int + 1).last() == msgs@[i as int]);
        let role = match as_str(get(m, "role")) {
            Some(r) => r,
            None => "user",
        };
        let text = match as_str(get(m, "content")) {
            Some(c) => owned(c),
            None => String::new(),
        };
        proof {
            reveal_strlit("user");
            assert(role@ == msg_role(*m));
            assert(text@ == msg_text(*m));
        }
        let ghost pv0 = Seq::new(parts@.len(), |k: int| parts@[k]@);
        let ghost tv0 = Seq::new(turn_list@.len(), |k: int| turn_list@[k]@);
        if str_eq(role, "system") || str_eq(role, "developer") {
            parts.push(text);
            assert(Seq::new(parts@.len(), |k: int| parts@[k]@) =~= pv0.push(msg_text(*m)));
        } else {
            let r = if str_eq(role, "assistant") {
                "assistant"
            } else {
                "user"
            };
            let mut f: Vec<(String, Json)> = Vec::new();
            f.push((owned("content"), Json::Str(text)));
            f.push((owned("role"), Json::Str(owned(r))));
            let t = object(f);
            assert(fields_view(f@) =~= seq![
                ("content"@, JValue::Str(msg_text(*m))),
                ("role"@, JValue::Str(r@)),
            ]);
            turn_list.push(t);
            assert(Seq::new(turn_list@.len(), |k: int| turn_list@[k]@) =~= tv0.push(t@));
        }
        i = i + 1;
    }
    assert(msgs@.take(msgs.len() as int) =~= msgs@);
    let max = match as_u64(get(body, "max_tokens")) {
        Some(n) => n,
        None => 1024,
    };
    let model = match get(body, "model") {
        Some(m) => copy_json(m),
        None => Json::Null,
    };
    let ghost tv = Seq::new(turn_list@.len(), |k: int| turn_list@[k]@);
    let turns_json = Json::Array(turn_list);
    proof {
        if let JValue::Array(x) = json_view(turns_json) {
            assert(x =~= tv);
        }
    }
    let mut f: Vec<(String, Json)> = Vec::new();
    f.push((owned("max_tokens"), num_u64(max)));
    f.push((owned("messages"), turns_json));
    f.push((owned("model"), model));
    let ghost base_fields = fields_view(f@);
    if parts.len() > 0 {
        let joined = join_parts(&parts);
        f.push((owned("system"), Json::Str(joined)));
    }
    let r = object(f);
    proof {
        let mv = match member(*body, "model"@) {
            Some(m) => json_view(m),
            None => JValue::Null,
        };
        assert(max == (match u64_of(member(*body, "max_tokens"@)) {
            Some(n) => n,
            None => 1024u64,
        }));
        let fields = anthropic_fields(max, turns(msgs@), mv);
        assert(base_fields =~= fields);
        if parts@.len() > 0 {
            assert(fields_view(f@) =~= fields.push(
                ("system"@, JValue::Str(join_lines(system_parts(msgs@)))),
            ));
        } else {
            assert(fields_view(f@) =~= fields);
        }
    }
    r
}

/// Render the OpenAI-shaped `body` for provider `spec`, authenticated
/// with `credential`: the provider's URL, the auth headers of its style,
/// and the body in its dialect (passed through minus `lisa_priority`, or
/// rewritten for the native Messages API with system turns hoisted).
pub fn build_upstream(spec: &ProviderSpec, credential: &str, body: &Json) -> (r: Result<
    UpstreamRequest,
    ProxyError,
>)
    ensures
        match spec_upstream(*spec, credential@, *body) {
            Ok((url, headers, b)) => r matches Ok(u) && u.url@ == url && pair_views(u.headers@)
                == headers && u.body@ == b,
            Err(ProxyErrorKind::NoEndpoint(id)) => r matches Err(ProxyError::NoEndpoint(i))
                && i@ == id,
            Err(ProxyErrorKind::BadRequest) => r matches Err(ProxyError::BadRequest),
        },
{
    let base = match &spec.base_url {
        Some(b) => b,
        None => return Err(ProxyError::NoEndpoint(spec.id.clone())),
    };
    let msgs = match get(body, "messages") {
        Some(Json::Array(a)) => a,
        _ => return Err(ProxyError::BadRequest),
    };
    let headers = headers_for(spec.auth, credential);
    let mut url = trim_trailing_slashes(base.as_str());
    match spec.dialect {
        Dialect::OpenaiCompat => {
            url.append("/chat/completions");
            let fields = match body {
                Json::Object(f) => f,
                _ => return Err(ProxyError::BadRequest),
            };
            let mut kept: Vec<(String, Json)> = Vec::new();
            let mut i: usize = 0;
            while i < fields.len()
                invariant
                    i <= fields.len(),
                    fields_view(kept@) == fields_view(fields@.take(i as int)).filter(
                        |m: (Seq<char>, JValue)| m.0 != "lisa_priority"@,
                    ),
                decreases fields.len() - i,
            {
                let ghost pred = |m: (Seq<char>, JValue)| m.0 != "lisa_priority"@;
                let ghost before = fields_view(kept@);
                assert(fields_view(fields@.take(i as int + 1)) =~= fields_view(
                    fields@.take(i as int),
                ).push((fields@[i as int].0@, json_view(fields@[i as int].1))));
                proof {
                    fields_view(fields@.take(i as int)).lemma_filter_push(
                        (fields@[i as int].0@, json_view(fields@[i as int].1)),
                        pred,
                    );
                }
                if !str_eq(fields[i].0.as_str(), "lisa_priority") {
                    kept.push((fields[i].0.clone(), copy_json(&fields[i].1)));
                    assert(fields_view(kept@) =~= before.push(
                        (fields@[i as int].0@, json_view(fields@[i as int].1)),
                    ));
                }
                i = i + 1;
            }
            assert(fields@.take(fields.len() as int) =~= fields@);
            Ok(UpstreamRequest { url, headers, body: object(kept) })
        },
        Dialect::AnthropicMessages => {
            url.append("/v1/messages");
            let b = messages_body(body, msgs);
            Ok(UpstreamRequest { url, headers, body: b })
        },
    }
}

/// The concatenated text of the `text` blocks of a Messages API reply.
pub open spec fn text_of_blocks(blocks: Seq<Json>) -> Seq<char>
    decreases blocks.len(),
{
    if blocks.len() == 0 {
        Seq::empty()
    } else {
        let b = blocks.last();
        let rest = text_of_blocks(blocks.drop_last());
        if str_of(member(b, "type"@)) == Some("text"@) && str_of(member(b, "text"@)) is Some {
            rest + str_of(member(b, "text"@))->Some_0
        } else {
            rest
        }
    }
}

/// The reply text: the text blocks of `content` when it is an array.
pub open spec fn reply_text(up: Json) -> Seq<char> {
    match member(up, "content"@) {
        Some(Json::Array(a)) => text_of_blocks(a@),
        _ => Seq::empty(),
    }
}

/// A usage counter of a Messages API reply (0 when absent).
pub open spec fn usage_count(up: Json, key: Seq<char>) -> u64 {
    match u64_of(crate::json::then_member(member(up, "usage"@), key)) {
        Some(n) => n,
        None => 0,
    }
}

/// The reply's usage counters can be added.
pub open spec fn usage_fits(up: Json) -> bool {
    usage_count(up, "input_tokens"@) + usage_count(up, "output_tokens"@) <= u64::MAX
}

/// A Messages API reply in the OpenAI chat-completion shape.
pub open spec fn spec_normalized(up: Json) -> JValue {
    let input = usage_count(up, "input_tokens"@);
    let output = usage_count(up, "output_tokens"@);
    let finish = if str_of(member(up, "stop_reason"@)) == Some("max_tokens"@) {
        "length"@
    } else {
        "stop"@
    };
    normalized_fields(
        match member(up, "id"@) {
            Some(v) => json_view(v),
            None => JValue::Null,
        },
        match member(up, "model"@) {
            Some(v) => json_view(v),
            None => JValue::Null,
        },
        reply_text(up),
        finish,
        input,
        output,
    )
}

pub open spec fn normalized_fields(
    id: JValue,
    model: JValue,
    text: Seq<char>,
    finish: Seq<char>,
    input: u64,
    output: u64,
) -> JValue {
    JValue::Object(
        seq![
            (
                "choices"@,
                JValue::Array(
                    seq![
                        JValue::Object(
                            seq![
                                ("finish_reason"@, JValue::Str(finish)),
                                ("index"@, u64_value(0)),
                                (
                                    "message"@,
                                    JValue::Object(
                                        seq![
                                            ("content"@, JValue::Str(text)),
                                            ("role"@, JValue::Str("assistant"@)),
                                        ],
                                    ),
                                ),
                            ],
                        ),
                    ],
                ),
            ),
            ("id"@, id),
            ("model"@, model),
            ("object"@, JValue::Str("chat.completion"@)),
            (
                "usage"@,
                JValue::Object(
                    seq![
                        ("completion_tokens"@, u64_value(output)),
                        ("prompt_tokens"@, u64_value(input)),
                        ("total_tokens"@, u64_value((input + output) as u64)),
                    ],
                ),
            ),
        ],
    )
}

fn kv(k: &str, v: Json) -> (f: (String, Json))
    ensures
        f.0@ == k@,
        f.1@ == v@,
{
    (owned(k), v)
}

fn member_or_null(v: &Json, key: &str) -> (r: Json)
    ensures
        r@ == (match member(*v, key@) {
            Some(m) => json_view(m),
            None => JValue::Null,
        }),
{
    match get(v, key) {
        Some(m) => copy_json(m),
        None => Json::Null,
    }
}

fn blocks_text(blocks: &Vec<Json>) -> (t: String)
    ensures
        t@ == text_of_blocks(blocks@),
{
    let mut t = String::new();
    let mut i: usize = 0;
    while i < blocks.len()
        invariant
            i <= blocks.len(),
            t@ == text_of_blocks(blocks@.take(i as int)),
        decreases blocks.len() - i,
    {
        let b = &blocks[i];
        assert(blocks@.take(i as int + 1).drop_last() =~= blocks@.take(i as int));
        assert(blocks@.take(i as int + 1).last() == blocks@[i as int]);
        let is_text = match as_str(get(b, "type")) {
            Some(k) => str_eq(k, "text"),
            None => false,
        };
        if is_text {
            if let Some(x) = as_str(get(b, "text")) {
                t.append(x);
            }
        }
        i = i + 1;
    }
    assert(blocks@.take(blocks.len() as int) =~= blocks@);
    t
}

/// Normalize a provider's reply to the OpenAI chat-completion shape:
/// OpenAI-compatible replies pass through; Messages API replies are
/// rewritten (text blocks joined, `max_tokens` stop → `length`, usage
/// renamed and totalled).
pub fn translate_response(dialect: Dialect, upstream: &Json) -> (r: Json)
    requires
        dialect == Dialect::AnthropicMessages ==> usage_fits(*upstream),
    ensures
        dialect == Dialect::OpenaiCompat ==> r@ == upstream@,
        dialect == Dialect::AnthropicMessages ==> r@ == spec_normalized(*upstream),
{
    match dialect {
        Dialect::OpenaiCompat => copy_json(upstream),
        Dialect::AnthropicMessages => {
            let text = match get(upstream, "content") {
                Some(Json::Array(a)) => blocks_text(a),
                _ => String::new(),
            };
            let input = match as_u64(crate::json::field(get(upstream, "usage"), "input_tokens")) {
                Some(n) => n,
                None => 0,
            };
            let output = match as_u64(crate::json::field(get(upstream, "usage"), "output_tokens")) {
                Some(n) => n,
                None => 0,
            };
            let length = match as_str(get(upstream, "stop_reason")) {
                Some(s) => str_eq(s, "max_tokens"),
                None => false,
            };
            let finish = if length {
                "length"
            } else {
                "stop"
            };
            let mut mf: Vec<(String, Json)> = Vec::new();
            mf.push(kv("content", Json::Str(text)));
            mf.push(kv("role", Json::Str(owned("assistant"))));
            let message = object(mf);
            let mut cf: Vec<(String, Json)> = Vec::new();
            cf.push(kv("finish_reason", Json::Str(owned(finish))));
            cf.push(kv("index", num_u64(0)));
            cf.push(kv("message", message));
            let choice = object(cf);
            let mut cv: Vec<Json> = Vec::new();
            cv.push(choice);
            let choices = Json::Array(cv);
            let mut uf: Vec<(String, Json)> = Vec::new();
            uf.push(kv("completion_tokens", num_u64(output)));
            uf.push(kv("prompt_tokens", num_u64(input)));
            uf.push(kv("total_tokens", num_u64(input + output)));
            let usage = object(uf);
            let mut f: Vec<(String, Json)> = Vec::new();
            f.push(kv("choices", choices));
            f.push(kv("id", member_or_null(upstream, "id")));
            f.push(kv("model", member_or_null(upstream, "model")));
            f.push(kv("object", Json::Str(owned("chat.completion"))));
            f.push(kv("usage", usage));
            let r = object(f);
            proof {
                let tv = reply_text(*upstream);
                assert(text@ == tv);
                assert(fields_view(mf@) =~= seq![
                    ("content"@, JValue::Str(tv)),
                    ("role"@, JValue::Str("assistant"@)),
                ]);
                assert(fields_view(cf@) =~= seq![
                    ("finish_reason"@, JValue::Str(finish@)),
                    ("index"@, u64_value(0)),
                    ("message"@, JValue::Object(fields_view(mf@))),
                ]);
                if let JValue::Array(x) = json_view(choices) {
                    assert(x =~= seq![JValue::Object(fields_view(cf@))]);
                }
                assert(fields_view(uf@) =~= seq![
                    ("completion_tokens"@, u64_value(output)),
                    ("prompt_tokens"@, u64_value(input)),
                    ("total_tokens"@, u64_value((input + output) as u64)),
                ]);
                assert(fields_view(f@) =~= seq![
                    ("choices"@, json_view(choices)),
                    ("id"@, f@[1].1@),
                    ("model"@, f@[2].1@),
                    ("object"@, JValue::Str("chat.completion"@)),
                    ("usage"@, JValue::Object(fields_view(uf@))),
                ]);
                assert(r@ == normalized_fields(f@[1].1@, f@[2].1@, tv, finish@, input, output));
            }
            r
        },
    }
}

/// Output tokens reported by a normalized reply (0 when absent).
pub open spec fn spec_output_tokens(normalized: Json) -> i64 {
    match crate::json::then_member(member(normalized, "usage"@), "completion_tokens"@) {
        Some(Json::Number(n)) => match n.signed {
            Some(v) => v,
            None => 0,
        },
        _ => 0,
    }
}

pub fn output_tokens(normalized: &Json) -> (n: i64)
    ensures
        n == spec_output_tokens(*normalized),
{
    match crate::json::field(get(normalized, "usage"), "completion_tokens") {
        Some(Json::Number(n)) => match n.signed {
            Some(v) => v,
            None => 0,
        },
        _ => 0,
    }
}

/// The error's message.
pub open spec fn proxy_error_text(e: ProxyError) -> Seq<char> {
    match e {
        ProxyError::NoEndpoint(id) => "provider "@ + id@ + " has no endpoint configured"@,
        ProxyError::BadRequest => "request body must contain a messages array"@,
        ProxyError::Upstream { status, body } => "upstream error "@ + crate::text::decimal(
            status as nat,
        ) + ": "@ + body@,
        ProxyError::Http(m) => "http: "@ + m@,
    }
}

impl ProxyError {
    pub fn message(&self) -> (s: String)
        ensures
            s@ == proxy_error_text(*self),
    {
        match self {
            ProxyError::NoEndpoint(id) => {
                let mut s = owned("provider ");
                s.append(id.as_str());
                s.append(" has no endpoint configured");
                s
            },
            ProxyError::BadRequest => owned("request body must contain a messages array"),
            ProxyError::Upstream { status, body } => {
                let mut s = owned("upstream error ");
                s.append(crate::text::u64_to_decimal(*status as u64).as_str());
                s.append(": ");
                s.append(body.as_str());
                s
            },
            ProxyError::Http(m) => {
                let mut s = owned("http: ");
                s.append(m.as_str());
                s
            },
        }
    }
}

/// Whether a reply's usage counters can be added (the precondition of
/// normalizing a Messages API reply).
pub fn usage_counts_fit(raw: &Json) -> (b: bool)
    ensures
        b == usage_fits(*raw),
{
    let input = match crate::json::as_u64(crate::json::field(get(raw, "usage"), "input_tokens")) {
        Some(n) => n,
        None => 0,
    };
    let output = match crate::json::as_u64(crate::json::field(get(raw, "usage"), "output_tokens")) {
        Some(n) => n,
        None => 0,
    };
    input <= u64::MAX - output
}

} // verus!
