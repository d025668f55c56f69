//! Remote-provider routing: model names of the form
//! `remote:<provider>:<model>` go to the egress broker over its local
//! socket; everything else is served locally. This module decides the
//! route, frames the request to the broker and reads its answer.

use crate::engine::{ChatMessage, EngineError};
use crate::json::{completion_content, completion_error, fields_view, object, reply_content, reply_error, JValue, Json};
use crate::text::{
    cut_spaces, decimal, find_first, find_seq, index_of, is_prefix, find_char, lemma_index_of, owned,
    skip_spaces, split_after_prefix, split_prefixed, starts_with, trim, u64_to_decimal,
};
use vstd::prelude::*;

verus! {

pub const REMOTE_PREFIX: &'static str = "remote:";

/// The refusal for a `remote:` name that is not `remote:<provider>:<model>`.
pub const MALFORMED_REMOTE: &'static str = "remote model must be remote:<provider>:<model>, e.g. remote:huggingface:openai/gpt-oss-120b";

/// Split `remote:<provider>:<model>` into (provider, model). The model may
/// contain further colons and slashes (`org/model:policy`).
pub fn parse(model: &str) -> (r: Option<(String, String)>)
    ensures
        match r {
            Some((p, m)) => split_prefixed(model@, "remote:"@) == Some((p@, m@)),
            None => split_prefixed(model@, "remote:"@) is None,
        },
{
    match split_after_prefix(model, "remote:") {
        Some((p, m)) => Some((owned(p), owned(m))),
        None => None,
    }
}

/// Where a request for a model goes.
pub enum Route {
    /// Served by the local engines.
    Local,
    /// Forwarded to the broker for this provider and model.
    Remote { provider: String, model: String },
    /// A `remote:` name of the wrong shape: refused.
    Malformed,
}

/// Route a request's model name: `remote:` names go to the broker (or
/// are refused when malformed); anything else, or no name, is local.
pub fn route(model: Option<&str>) -> (r: Route)
    ensures
        match model {
            Some(m) => if is_prefix("remote:"@, m@) {
                match split_prefixed(m@, "remote:"@) {
                    Some((p, q)) => r matches Route::Remote { provider, model } && provider@ == p
                        && model@ == q,
                    None => r is Malformed,
                }
            } else {
                r is Local
            },
            None => r is Local,
        },
{
    match model {
        Some(m) => if starts_with(m, "remote:") {
            match parse(m) {
                Some((provider, model)) => Route::Remote { provider, model },
                None => Route::Malformed,
            }
        } else {
            Route::Local
        },
        None => Route::Local,
    }
}

/// The HTTP/1.1 request sent to the broker for `provider`, carrying the
/// JSON `body`; the bare prompt declares the `prompt` scope.
pub open spec fn spec_broker_request(provider: Seq<char>, body: Seq<char>) -> Seq<char> {
    "POST /v1/chat/completions HTTP/1.1\r\nHost: lisa-remoted\r\nx-lisa-provider: "@ + provider
        + "\r\nx-lisa-scopes: prompt\r\nContent-Type: application/json\r\nContent-Length: "@
        + decimal(vstd::utf8::encode_utf8(body).len()) + "\r\nConnection: close\r\n\r\n"@ + body
}

pub fn broker_request(provider: &str, body: &str) -> (r: String)
    ensures
        r@ == spec_broker_request(provider@, body@),
{
    let n = body.as_bytes().len();
    let mut r = owned("POST /v1/chat/completions HTTP/1.1\r\nHost: lisa-remoted\r\nx-lisa-provider: ");
    r.append(provider);
    r.append("\r\nx-lisa-scopes: prompt\r\nContent-Type: application/json\r\nContent-Length: ");
    r.append(u64_to_decimal(n as u64).as_str());
    r.append("\r\nConnection: close\r\n\r\n");
    r.append(body);
    r
}

pub open spec fn messages_value(m: Seq<ChatMessage>) -> Seq<JValue> {
    Seq::new(
        m.len(),
        |i: int|
            JValue::Object(
                seq![("content"@, JValue::Str(m[i].content@)), ("role"@, JValue::Str(m[i].role@))],
            ),
    )
}

/// The chat messages as JSON objects.
pub fn messages_json(m: &Vec<ChatMessage>) -> (r: Json)
    ensures
        r@ == JValue::Array(messages_value(m@)),
{
    let mut out: Vec<Json> = Vec::new();
    let mut i: usize = 0;
    while i < m.len()
        invariant
            i <= m.len(),
            out@.len() == i,
            forall|j: int| 0 <= j < i ==> (#[trigger] out@[j])@ == messages_value(m@)[j],
        decreases m.len() - i,
    {
        let mut f: Vec<(String, Json)> = Vec::new();
        f.push((owned("content"), Json::Str(m[i].content.clone())));
        f.push((owned("role"), Json::Str(m[i].role.clone())));
        let o = object(f);
        assert(fields_view(f@) =~= seq![
            ("content"@, JValue::Str(m@[i as int].content@)),
            ("role"@, JValue::Str(m@[i as int].role@)),
        ]);
        out.push(o);
        i = i + 1;
    }
    let r = Json::Array(out);
    proof {
        if let JValue::Array(x) = crate::json::json_view(r) {
            assert(x =~= messages_value(m@));
        }
    }
    r
}

/// The non-streaming completion request for the broker.
pub open spec fn spec_broker_body(model: Seq<char>, m: Seq<ChatMessage>) -> JValue {
    JValue::Object(
        seq![
            ("messages"@, JValue::Array(messages_value(m))),
            ("model"@, JValue::Str(model)),
            ("stream"@, JValue::Bool(false)),
        ],
    )
}

pub fn broker_body(model: &str, m: &Vec<ChatMessage>) -> (r: Json)
    ensures
        r@ == spec_broker_body(model@, m@),
{
    let mut f: Vec<(String, Json)> = Vec::new();
    f.push((owned("messages"), messages_json(m)));
    f.push((owned("model"), Json::Str(owned(model))));
    f.push((owned("stream"), Json::Bool(false)));
    let r = object(f);
    assert(fields_view(f@) =~= seq![
        ("messages"@, JValue::Array(messages_value(m@))),
        ("model"@, JValue::Str(model@)),
        ("stream"@, JValue::Bool(false)),
    ]);
    r
}

/// The first line of `head` (up to its first line feed).
pub open spec fn first_line(head: Seq<char>) -> Seq<char> {
    let nl = index_of(head, '\n');
    if nl < 0 {
        head
    } else {
        head.take(nl)
    }
}

/// The broker's reply split at its blank line: whether the status line
/// says 200, and the trimmed body; `None` when there is no blank line.
pub open spec fn spec_split_reply(t: Seq<char>) -> Option<(bool, Seq<char>)> {
    let k = find_seq(t, "\r\n\r\n"@);
    if k < 0 {
        None
    } else {
        Some((find_seq(first_line(t.take(k)), " 200 "@) >= 0, trim(t.skip(k + 4))))
    }
}

pub fn split_reply(t: &str) -> (r: Option<(bool, String)>)
    ensures
        match r {
            Some((ok, body)) => spec_split_reply(t@) == Some((ok, body@)),
            None => spec_split_reply(t@) is None,
        },
{
    proof {
        reveal_strlit("\r\n\r\n");
        reveal_strlit(" 200 ");
    }
    let n = t.unicode_len();
    let k = find_first(t, "\r\n\r\n");
    if k == n {
        proof {
            crate::text::lemma_find_seq(t@, "\r\n\r\n"@);
        }
        return None;
    }
    proof {
        crate::text::lemma_find_seq(t@, "\r\n\r\n"@);
    }
    let head = t.substring_char(0, k);
    let nl = find_char(head, '\n', 0);
    proof {
        lemma_index_of(head@, '\n');
        if nl < head@.len() {
            assert(index_of(head@, '\n') == nl);
        }
    }
    let line = head.substring_char(0, nl);
    proof {
        if nl == head@.len() {
            assert(line@ =~= head@);
        }
        assert(line@ == first_line(head@));
        assert(head@ =~= t@.take(k as int));
    }
    let ok = find_first(line, " 200 ") < line.unicode_len();
    proof {
        crate::text::lemma_find_seq(line@, " 200 "@);
    }
    let a = skip_spaces(t, k + 4);
    let e = cut_spaces(t, a, n);
    proof {
        assert(t@.skip(a as int) =~= t@.subrange(a as int, n as int));
    }
    let body = owned(t.substring_char(a, e));
    Some((ok, body))
}

/// The broker's answer: with a 200 status, the first choice's content
/// (empty when absent); otherwise the error it reports, or a generic
/// one.
pub fn broker_reply(status_ok: bool, resp: &Json) -> (r: Result<String, EngineError>)
    ensures
        status_ok ==> r is Ok && r->Ok_0@ == (match reply_content(*resp) {
            Some(c) => c,
            None => Seq::empty(),
        }),
        !status_ok ==> (r matches Err(EngineError::Unavailable(m)) && m@ == (match reply_error(
            *resp,
        ) {
            Some(e) => e,
            None => "remote provider request failed"@,
        })),
{
    if !status_ok {
        let msg = match completion_error(resp) {
            Some(e) => owned(e),
            None => owned("remote provider request failed"),
        };
        return Err(EngineError::Unavailable(msg));
    }
    match completion_content(resp) {
        Some(c) => Ok(owned(c)),
        None => {
            proof {
                reveal_strlit("");
            }
            Ok(owned(""))
        },
    }
}

/// A chat served by a remote provider through the broker.
pub struct RemoteEngine {
    pub socket: String,
    pub provider: String,
    pub model: String,
}

impl RemoteEngine {
    pub fn name(&self) -> (n: &'static str)
        ensures
            n@ == "remote"@,
    {
        "remote"
    }

    /// The broker request for `messages`, given the serialized body.
    pub fn frame(&self, body_text: &str) -> (r: String)
        ensures
            r@ == spec_broker_request(self.provider@, body_text@),
    {
        broker_request(self.provider.as_str(), body_text)
    }

    /// The body sent to the broker: the model, the messages, no
    /// streaming.
    pub fn body(&self, messages: &Vec<ChatMessage>) -> (j: Json)
        ensures
            j@ == spec_broker_body(self.model@, messages@),
    {
        broker_body(self.model.as_str(), messages)
    }

    /// Remote providers serve chat only.
    pub fn embed_refused(&self) -> (e: EngineError)
        ensures
            e matches EngineError::Unavailable(m) && m@
                == "remote providers serve chat only; embeddings run on a local model"@,
    {
        EngineError::Unavailable(owned("remote providers serve chat only; embeddings run on a local model"))
    }
}

} // verus!
