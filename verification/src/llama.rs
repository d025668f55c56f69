//! The supervised llama-server child's wire: the streaming completion
//! request body, and reading its server-sent event stream back into
//! tokens.

use crate::engine::GenerateRequest;
use crate::json::{as_str, at, field, fields_view, get, member, num_u64, object, str_of, then_elem, then_member, u64_value, JValue, Json};
use crate::remote::{messages_json, messages_value};
use crate::text::{cut_spaces, is_prefix, owned, skip_spaces, starts_with, str_eq, trim};
use vstd::prelude::*;

verus! {

/// Tokens allowed when the client sets no cap, so a runaway generation
/// cannot hold the slot forever.
pub const DEFAULT_MAX_TOKENS: u32 = 2048;

/// The streaming completion request for the child (keys in order; the
/// grammar, when given, constrains sampling).
pub open spec fn spec_llama_body(req: GenerateRequest) -> JValue {
    let rest = llama_fields(
        match req.max_tokens {
            Some(m) => m as u64,
            None => 2048u64,
        },
        req.messages@,
    );
    match req.grammar {
        Some(g) => JValue::Object(seq![("grammar"@, JValue::Str(g@))] + rest),
        None => JValue::Object(rest),
    }
}

/// The fields after the optional grammar.
pub open spec fn llama_fields(max_tokens: u64, m: Seq<crate::engine::ChatMessage>) -> Seq<(Seq<char>, JValue)> {
    seq![
        ("max_tokens"@, u64_value(max_tokens)),
        ("messages"@, JValue::Array(messages_value(m))),
        ("stream"@, JValue::Bool(true)),
    ]
}

pub fn llama_body(req: &GenerateRequest) -> (j: Json)
    ensures
        j@ == spec_llama_body(*req),
{
    let mut f: Vec<(String, Json)> = Vec::new();
    if let Some(g) = &req.grammar {
        f.push((owned("grammar"), Json::Str(g.clone())));
    }
    let max = match req.max_tokens {
        Some(m) => m as u64,
        None => 2048u64,
    };
    f.push((owned("max_tokens"), num_u64(max)));
    f.push((owned("messages"), messages_json(&req.messages)));
    f.push((owned("stream"), Json::Bool(true)));
    let j = object(f);
    proof {
        assert(max == (match req.max_tokens {
            Some(m) => m as u64,
            None => 2048u64,
        }));
        let rest = llama_fields(max, req.messages@);
        if req.grammar is Some {
            assert(fields_view(f@) =~= seq![("grammar"@, JValue::Str(req.grammar->Some_0@))] + rest);
        } else {
            assert(fields_view(f@) =~= rest);
        }
        assert(j@ == JValue::Object(fields_view(f@)));
    }
    j
}

/// Take the first complete line (through its line feed) off the front
/// of `buf`, if there is one.
pub fn take_line(buf: &mut Vec<u8>) -> (line: Option<Vec<u8>>)
    ensures
        match line {
            Some(l) => l@.len() > 0 && l@.last() == 10u8 && (forall|i: int|
                0 <= i < l@.len() - 1 ==> l@[i] != 10u8) && old(buf)@ == l@ + final(buf)@,
            None => (forall|i: int| 0 <= i < old(buf)@.len() ==> old(buf)@[i] != 10u8)
                && final(buf)@ == old(buf)@,
        },
{
    let mut pos: usize = 0;
    while pos < buf.len() && buf[pos] != 10u8
        invariant
            pos <= buf.len(),
            forall|i: int| 0 <= i < pos ==> buf@[i] != 10u8,
        decreases buf.len() - pos,
    {
        pos = pos + 1;
    }
    if pos == buf.len() {
        return None;
    }
    let ghost before = buf@;
    let mut line: Vec<u8> = Vec::new();
    let mut rest: Vec<u8> = Vec::new();
    let mut i: usize = 0;
    while i < buf.len()
        invariant
            buf@ == before,
            pos < before.len(),
            i <= before.len(),
            i <= pos + 1 ==> line@ == before.take(i as int) && rest@.len() == 0,
            i > pos + 1 ==> line@ == before.take(pos as int + 1) && rest@ == before.subrange(
                pos as int + 1,
                i as int,
            ),
        decreases before.len() - i,
    {
        if i <= pos {
            line.push(buf[i]);
            assert(before.take(i as int + 1) =~= before.take(i as int).push(before[i as int]));
        } else {
            let ghost r0 = rest@;
            rest.push(buf[i]);
            assert(before.subrange(pos as int + 1, i as int + 1) =~= before.subrange(
                pos as int + 1,
                i as int,
            ).push(before[i as int]));
        }
        i = i + 1;
    }
    proof {
        if before.len() == pos + 1 {
            assert(rest@ =~= before.subrange(pos as int + 1, before.len() as int));
        }
        assert(before =~= before.take(pos as int + 1) + before.subrange(
            pos as int + 1,
            before.len() as int,
        ));
    }
    *buf = rest;
    Some(line)
}

/// One line of the child's event stream.
pub enum SseLine {
    /// Not a data line.
    Skip,
    /// `data: [DONE]`: the stream is over.
    Done,
    /// A data payload.
    Data(String),
}

/// What a line of the event stream carries, once trimmed.
pub open spec fn spec_sse_line(line: Seq<char>) -> Option<Option<Seq<char>>> {
    let t = trim(line);
    if !is_prefix("data: "@, t) {
        None
    } else if t.skip(6) == "[DONE]"@ {
        Some(None)
    } else {
        Some(Some(t.skip(6)))
    }
}

pub fn sse_line(line: &str) -> (r: SseLine)
    ensures
        match r {
            SseLine::Skip => spec_sse_line(line@) is None,
            SseLine::Done => spec_sse_line(line@) == Some(None::<Seq<char>>),
            SseLine::Data(d) => spec_sse_line(line@) == Some(Some(d@)),
        },
{
    proof {
        reveal_strlit("data: ");
    }
    let n = line.unicode_len();
    let a = skip_spaces(line, 0);
    let e = cut_spaces(line, a, n);
    assert(line@.skip(0) =~= line@);
    assert(line@.skip(a as int) =~= line@.subrange(a as int, n as int));
    let t = line.substring_char(a, e);
    if !starts_with(t, "data: ") {
        return SseLine::Skip;
    }
    let payload = t.substring_char(6, t.unicode_len());
    assert(payload@ =~= t@.skip(6));
    if str_eq(payload, "[DONE]") {
        SseLine::Done
    } else {
        SseLine::Data(owned(payload))
    }
}

/// The token a streamed chunk carries: its first choice's non-empty
/// `delta.content`.
pub open spec fn spec_delta_token(chunk: Json) -> Option<Seq<char>> {
    match str_of(
        then_member(then_member(then_elem(member(chunk, "choices"@), 0), "delta"@), "content"@),
    ) {
        Some(t) => if t.len() > 0 {
            Some(t)
        } else {
            None
        },
        None => None,
    }
}

pub fn delta_token(chunk: &Json) -> (r: Option<String>)
    ensures
        match r {
            Some(t) => spec_delta_token(*chunk) == Some(t@),
            None => spec_delta_token(*chunk) is None,
        },
{
    match as_str(field(field(at(get(chunk, "choices"), 0), "delta"), "content")) {
        Some(t) => if t.unicode_len() > 0 {
            Some(owned(t))
        } else {
            None
        },
        None => None,
    }
}

/// `llama-server returned {status}: {first 200 characters of body}`.
pub open spec fn spec_upstream_error(status: Seq<char>, body: Seq<char>) -> Seq<char> {
    "llama-server returned "@ + status + ": "@ + (if body.len() <= 200 {
        body
    } else {
        body.take(200)
    })
}

pub fn upstream_error(status: &str, body: &str) -> (m: String)
    ensures
        m@ == spec_upstream_error(status@, body@),
{
    let n = body.unicode_len();
    let k = if n <= 200 {
        n
    } else {
        200
    };
    let mut m = owned("llama-server returned ");
    m.append(status);
    m.append(": ");
    m.append(body.substring_char(0, k));
    proof {
        if n <= 200 {
            assert(body@.subrange(0, k as int) =~= body@);
        }
    }
    m
}

/// The first choice's `delta.content` of a streamed chunk, if it is a
/// string.
pub open spec fn spec_raw_delta(chunk: Json) -> Option<Seq<char>> {
    str_of(then_member(then_member(then_elem(member(chunk, "choices"@), 0), "delta"@), "content"@))
}

pub fn raw_delta(chunk: &Json) -> (r: Option<&str>)
    ensures
        match r {
            Some(t) => spec_raw_delta(*chunk) == Some(t@),
            None => spec_raw_delta(*chunk) is None,
        },
{
    as_str(field(field(at(get(chunk, "choices"), 0), "delta"), "content"))
}

} // verus!
