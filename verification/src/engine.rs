//! The engine seam of the inference daemon: the generation request, the
//! engine errors, the deterministic stub engine's reply, and how a reply
//! is handed out as word-sized tokens.

use crate::grammar::{grammar_error_text, json_schema_to_gbnf, spec_json_schema_to_gbnf};
use crate::json::Json;
use crate::text::{find_char, index_of, lemma_index_of, owned, str_eq, strings_view};
use vstd::prelude::*;

verus! {

/// One chat message.
#[derive(Debug, Clone)]
pub struct ChatMessage {
    pub role: String,
    pub content: String,
}

/// Why an engine could not serve.
#[derive(Debug)]
pub enum EngineError {
    Unavailable(String),
    Preempted,
}

/// The error's message.
pub open spec fn engine_error_text(e: EngineError) -> Seq<char> {
    match e {
        EngineError::Unavailable(m) => "engine unavailable: "@ + m@,
        EngineError::Preempted => "preempted by an interactive request"@,
    }
}

impl EngineError {
    pub fn message(&self) -> (s: String)
        ensures
            s@ == engine_error_text(*self),
    {
        match self {
            EngineError::Unavailable(m) => {
                let mut s = owned("engine unavailable: ");
                s.append(m.as_str());
                s
            },
            EngineError::Preempted => owned("preempted by an interactive request"),
        }
    }
}

/// Everything an engine needs for one generation.
#[derive(Debug, Clone)]
pub struct GenerateRequest {
    pub messages: Vec<ChatMessage>,
    /// GBNF grammar constraining sampling.
    pub grammar: Option<String>,
    pub max_tokens: Option<u32>,
}

/// `s` cut after each space (`str::split_inclusive(' ')`).
pub open spec fn split_after_spaces(s: Seq<char>) -> Seq<Seq<char>>
    decreases s.len(),
{
    let j = index_of(s, ' ');
    if s.len() == 0 {
        Seq::empty()
    } else if j < 0 || j >= s.len() {
        seq![s]
    } else {
        seq![s.take(j + 1)] + split_after_spaces(s.skip(j + 1))
    }
}


/// Word-sized tokens of `s`: each piece ends at a space, save the last.
pub fn word_tokens(s: &str) -> (r: Vec<String>)
    ensures
        strings_view(r@) == split_after_spaces(s@),
{
    let n = s.unicode_len();
    let mut out: Vec<String> = Vec::new();
    let mut i: usize = 0;
    assert(s@.skip(0) =~= s@);
    while i < n
        invariant
            n == s@.len(),
            i <= n,
            split_after_spaces(s@) == strings_view(out@) + split_after_spaces(s@.skip(i as int)),
        decreases n - i,
    {
        let ghost rest = s@.skip(i as int);
        let j = find_char(s, ' ', i);
        proof {
            lemma_index_of(rest, ' ');
            if j < n {
                assert(rest[j - i] == ' ');
                assert forall|k: int| 0 <= k < j - i implies rest[k] != ' ' by {
                    assert(rest[k] == s@[k + i]);
                }
                assert(index_of(rest, ' ') == j - i);
            } else {
                assert forall|k: int| 0 <= k < rest.len() implies rest[k] != ' ' by {
                    assert(rest[k] == s@[k + i]);
                }
            }
        }
        let end = if j < n {
            j + 1
        } else {
            n
        };
        let piece = s.substring_char(i, end);
        let ghost before = out@;
        out.push(owned(piece));
        assert(strings_view(out@) =~= strings_view(before).push(piece@));
        if j < n {
            assert(piece@ =~= rest.take(j - i + 1));
            assert(rest.skip(j - i + 1) =~= s@.skip(end as int));
            assert(strings_view(before) + (seq![piece@] + split_after_spaces(s@.skip(end as int)))
                =~= strings_view(out@) + split_after_spaces(s@.skip(end as int)));
        } else {
            assert(piece@ =~= rest);
            assert(s@.skip(n as int) =~= Seq::<char>::empty());
            assert(strings_view(before) + seq![piece@] =~= strings_view(out@) + split_after_spaces(
                s@.skip(n as int),
            ));
        }
        i = end;
    }
    assert(s@.skip(n as int) =~= Seq::<char>::empty());
    assert(strings_view(out@) + Seq::<Seq<char>>::empty() =~= strings_view(out@));
    out
}

/// The content of the last message sent by the user, or empty.
pub open spec fn last_user(m: Seq<ChatMessage>) -> Seq<char>
    decreases m.len(),
{
    if m.len() == 0 {
        Seq::empty()
    } else if m.last().role@ == "user"@ {
        m.last().content@
    } else {
        last_user(m.drop_last())
    }
}

/// The deterministic stub engine's reply: it echoes the last user
/// message.
pub open spec fn spec_stub_reply(m: Seq<ChatMessage>) -> Seq<char> {
    "[lisa-inferenced stub] You said: \u{201c}"@ + last_user(m)
        + "\u{201d}. Run a real engine with --model (see `just smoke-real`)."@
}

pub fn stub_reply(messages: &Vec<ChatMessage>) -> (r: String)
    ensures
        r@ == spec_stub_reply(messages@),
{
    let mut k = messages.len();
    assert(messages@.take(k as int) =~= messages@);
    while k > 0 && !str_eq(messages[k - 1].role.as_str(), "user")
        invariant
            k <= messages.len(),
            last_user(messages@) == last_user(messages@.take(k as int)),
        decreases k,
    {
        assert(messages@.take(k as int).drop_last() =~= messages@.take(k as int - 1));
        k = k - 1;
    }
    let mut r = owned("[lisa-inferenced stub] You said: \u{201c}");
    if k > 0 {
        assert(messages@.take(k as int).last() == messages@[k as int - 1]);
        r.append(messages[k - 1].content.as_str());
    } else {
        proof {
            reveal_strlit("");
        }
        assert(messages@.take(0) =~= Seq::<ChatMessage>::empty());
    }
    r.append("\u{201d}. Run a real engine with --model (see `just smoke-real`).");
    r
}

/// The stub engine's tokens for `req`.
pub fn stub_generate(req: &GenerateRequest) -> (r: Vec<String>)
    ensures
        strings_view(r@) == split_after_spaces(spec_stub_reply(req.messages@)),
{
    let reply = stub_reply(&req.messages);
    word_tokens(reply.as_str())
}

/// What a D-Bus session's `Generate` asks the engine for: the prompt as
/// the one user message, the schema (if any) compiled to a grammar, and
/// the token cap; a schema outside the grammar subset is refused.
pub fn session_request(prompt: &str, schema: Option<&Json>, max_tokens: Option<u32>) -> (r: Result<
    GenerateRequest,
    String,
>)
    ensures
        match schema {
            None => r matches Ok(g) && g.grammar is None && g.max_tokens == max_tokens && g.messages@.len()
                == 1 && g.messages@[0].role@ == "user"@ && g.messages@[0].content@ == prompt@,
            Some(s) => match spec_json_schema_to_gbnf(*s) {
                Ok(gbnf) => r matches Ok(g) && g.grammar matches Some(x) && x@ == gbnf && g.max_tokens
                    == max_tokens && g.messages@.len() == 1 && g.messages@[0].role@ == "user"@
                    && g.messages@[0].content@ == prompt@,
                Err(e) => r matches Err(m) && m@ == "schema not supported: "@ + grammar_error_text(e),
            },
        },
{
    let grammar = match schema {
        None => None,
        Some(s) => match json_schema_to_gbnf(s) {
            Ok(g) => Some(g),
            Err(e) => {
                let mut m = owned("schema not supported: ");
                m.append(e.message().as_str());
                return Err(m);
            },
        },
    };
    let mut messages: Vec<ChatMessage> = Vec::new();
    messages.push(ChatMessage { role: owned("user"), content: owned(prompt) });
    Ok(GenerateRequest { messages, grammar, max_tokens })
}

/// The deterministic stub engine: no model, it echoes the request.
pub struct StubEngine;

impl StubEngine {
    pub fn name(&self) -> (n: &'static str)
        ensures
            n@ == "stub"@,
    {
        "stub"
    }

    /// The tokens of the stub's reply to `req`.
    pub fn generate(&self, req: &GenerateRequest) -> (r: Vec<String>)
        ensures
            strings_view(r@) == split_after_spaces(spec_stub_reply(req.messages@)),
    {
        stub_generate(req)
    }
}

} // verus!
