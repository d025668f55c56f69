//! The voice loop's decisions: the wake-word gate that decides whether an
//! utterance addresses Lisa, and reading the reply out of a chat
//! completion.

use crate::json::{completion_content, completion_error, reply_content, reply_error, Json};
use crate::text::{cut_spaces, owned, skip_spaces, to_ascii_lower, ascii_lower, trim, trim_start, is_space};
use vstd::prelude::*;

verus! {

/// `u` opens with the ASCII phrase `p`, compared case-insensitively.
pub open spec fn opens_with(u: Seq<char>, p: Seq<char>) -> bool {
    p.len() <= u.len() && forall|i: int| 0 <= i < p.len() ==> #[trigger] ascii_lower(u[i]) == p[i]
}

/// The characters stripped after the wake phrase.
pub open spec fn is_wake_punct(c: char) -> bool {
    c == ',' || c == '.' || c == '!' || c == '?' || c == ' '
}

/// `s` without its leading wake punctuation.
pub open spec fn strip_punct(s: Seq<char>) -> Seq<char>
    decreases s.len(),
{
    if s.len() > 0 && is_wake_punct(s[0]) {
        strip_punct(s.drop_first())
    } else {
        s
    }
}

/// What follows the wake phrase `p` in `u`, tidied.
pub open spec fn after_phrase(u: Seq<char>, p: Seq<char>) -> Seq<char> {
    trim(strip_punct(u.skip(p.len() as int)))
}

/// The wake-word gate: the request with "hey lisa", "ok lisa",
/// "okay lisa" or "lisa," (tried in that order) stripped, when the
/// utterance opens with one of them; otherwise `None`.
pub open spec fn spec_wake_word(t: Seq<char>) -> Option<Seq<char>> {
    let u = trim_start(t);
    if opens_with(u, "hey lisa"@) {
        Some(after_phrase(u, "hey lisa"@))
    } else if opens_with(u, "ok lisa"@) {
        Some(after_phrase(u, "ok lisa"@))
    } else if opens_with(u, "okay lisa"@) {
        Some(after_phrase(u, "okay lisa"@))
    } else if opens_with(u, "lisa,"@) {
        Some(after_phrase(u, "lisa,"@))
    } else {
        None
    }
}

/// Whether `s.skip(from)` opens with `p` case-insensitively.
fn opens_at(s: &str, from: usize, p: &str) -> (r: bool)
    requires
        from <= s@.len(),
    ensures
        r == opens_with(s@.skip(from as int), p@),
{
    let n = s.unicode_len();
    let m = p.unicode_len();
    if m > n - from {
        return false;
    }
    let mut i: usize = 0;
    while i < m
        invariant
            n == s@.len(),
            m == p@.len(),
            from + m <= n,
            i <= m,
            forall|j: int| 0 <= j < i ==> #[trigger] ascii_lower(s@.skip(from as int)[j]) == p@[j],
        decreases m - i,
    {
        if to_ascii_lower(s.get_char(from + i)) != p.get_char(i) {
            assert(ascii_lower(s@.skip(from as int)[i as int]) != p@[i as int]);
            return false;
        }
        i = i + 1;
    }
    true
}

fn wake_punct(c: char) -> (r: bool)
    ensures
        r == is_wake_punct(c),
{
    c == ',' || c == '.' || c == '!' || c == '?' || c == ' '
}

/// The request after the phrase of length `m` that opens `s.skip(from)`.
fn rest_after(s: &str, from: usize, m: usize) -> (r: String)
    requires
        from + m <= s@.len(),
    ensures
        r@ == trim(strip_punct(s@.skip(from as int).skip(m as int))),
{
    let n = s.unicode_len();
    let mut i = from + m;
    assert(s@.skip(from as int).skip(m as int) =~= s@.skip((from + m) as int));
    while i < n && wake_punct(s.get_char(i))
        invariant
            n == s@.len(),
            from + m <= i <= n,
            strip_punct(s@.skip(i as int)) == strip_punct(s@.skip(from as int).skip(m as int)),
        decreases n - i,
    {
        assert(s@.skip(i as int).drop_first() =~= s@.skip(i as int + 1));
        i = i + 1;
    }
    assert(s@.skip(from as int).skip(m as int) =~= s@.skip((from + m) as int));
    let a = skip_spaces(s, i);
    let e = cut_spaces(s, a, n);
    assert(s@.skip(a as int) =~= s@.subrange(a as int, n as int));
    let r = s.substring_char(a, e);
    owned(r)
}

/// The wake-word gate ("Hey Lisa" is the shipping default): the request
/// with the wake phrase stripped, or `None` when the utterance does not
/// open by addressing Lisa.
pub fn wake_word(transcript: &str) -> (r: Option<String>)
    ensures
        match r {
            Some(s) => spec_wake_word(transcript@) == Some(s@),
            None => spec_wake_word(transcript@) is None,
        },
{
    let start = skip_spaces(transcript, 0);
    assert(transcript@.skip(0) =~= transcript@);
    let ghost u = trim_start(transcript@);
    if opens_at(transcript, start, "hey lisa") {
        proof { reveal_strlit("hey lisa"); }
        return Some(rest_after(transcript, start, 8));
    }
    if opens_at(transcript, start, "ok lisa") {
        proof { reveal_strlit("ok lisa"); }
        return Some(rest_after(transcript, start, 7));
    }
    if opens_at(transcript, start, "okay lisa") {
        proof { reveal_strlit("okay lisa"); }
        return Some(rest_after(transcript, start, 9));
    }
    if opens_at(transcript, start, "lisa,") {
        proof { reveal_strlit("lisa,"); }
        return Some(rest_after(transcript, start, 5));
    }
    None
}

/// The reply of a chat completion for the voice loop: the server's error
/// as `inference error: …`, or else the first choice's content, trimmed
/// (empty when there is none).
pub fn answer_text(resp: &Json) -> (r: Result<String, String>)
    ensures
        match reply_error(*resp) {
            Some(e) => r is Err && r->Err_0@ == "inference error: "@ + e,
            None => r is Ok && r->Ok_0@ == trim(
                match reply_content(*resp) {
                    Some(c) => c,
                    None => Seq::empty(),
                },
            ),
        },
{
    if let Some(e) = completion_error(resp) {
        let mut msg = owned("inference error: ");
        msg.append(e);
        return Err(msg);
    }
    let content = match completion_content(resp) {
        Some(c) => c,
        None => "",
    };
    proof { reveal_strlit(""); }
    let n = content.unicode_len();
    let a = skip_spaces(content, 0);
    let e = cut_spaces(content, a, n);
    assert(content@.skip(0) =~= content@);
    assert(content@.skip(a as int) =~= content@.subrange(a as int, n as int));
    Ok(owned(content.substring_char(a, e)))
}

} // verus!
