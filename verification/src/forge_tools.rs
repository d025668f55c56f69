//! The coding agent's tool set: the tool declarations offered to the
//! backend (each with its JSON input schema), and the decisions and
//! texts of the tools themselves — argument reading, bounded output,
//! find/replace edits, grep hits, directory listings and the command
//! allowlist. File access goes through the project jail, outside this
//! module.

use crate::json::{as_bool, as_str, fields_view, get, object, JValue, Json};
use crate::text::{decimal, find_char, find_first, find_seq, index_of, lemma_find_seq, lemma_index_of, occurs_at, owned, str_eq, strings_view, u64_to_decimal};
use vstd::prelude::*;

verus! {

/// What a tool call produced: `text` goes into the conversation verbatim;
/// `mutated` says the project changed on disk.
#[derive(Debug)]
pub struct ToolOutcome {
    pub text: String,
    pub mutated: bool,
}

impl ToolOutcome {
    pub fn ok(text: &str, mutated: bool) -> (o: ToolOutcome)
        ensures
            o.text@ == text@,
            o.mutated == mutated,
    {
        ToolOutcome { text: owned(text), mutated }
    }

    /// A failed call: `error: …`, nothing changed.
    pub fn err(text: &str) -> (o: ToolOutcome)
        ensures
            o.text@ == "error: "@ + text@,
            !o.mutated,
    {
        let mut t = owned("error: ");
        t.append(text);
        ToolOutcome { text: t, mutated: false }
    }
}

/// Programs `run_command` may execute (no shell).
pub open spec fn allowed_commands() -> Seq<Seq<char>> {
    seq![
        "dart"@, "flutter"@, "cargo"@, "rustc"@, "ls"@, "cat"@, "grep"@, "find"@, "echo"@, "pwd"@,
        "mkdir"@, "touch"@,
    ]
}

pub const MAX_FILE_CHARS: usize = 30000;

pub const MAX_CMD_CHARS: usize = 12000;

pub const MAX_GREP_HITS: usize = 200;

pub const MAX_LIST_ENTRIES: usize = 500;

/// The number of UTF-8 bytes of `c`.
pub open spec fn width(c: char) -> nat {
    vstd::utf8::encode_scalar(c as u32).len()
}

fn char_width(c: char) -> (w: usize)
    ensures
        w == width(c),
        1 <= w <= 4,
{
    proof {
        vstd::utf8::char_is_scalar(c);
    }
    let v = c as u32;
    if v <= 0x7F {
        1
    } else if v <= 0x7FF {
        2
    } else if v <= 0xFFFF {
        3
    } else {
        4
    }
}

/// The longest prefix of `s` (in characters) whose UTF-8 encoding fits
/// in `max` bytes.
pub open spec fn fitting(s: Seq<char>, max: int) -> nat
    decreases s.len(),
{
    if s.len() == 0 || width(s[0]) > max {
        0
    } else {
        1 + fitting(s.drop_first(), max - width(s[0]))
    }
}

/// The number of UTF-8 bytes of `s`.
pub open spec fn byte_len(s: Seq<char>) -> nat {
    vstd::utf8::encode_utf8(s).len()
}

/// `text` cut to at most `max` bytes at a character boundary, with a
/// marker giving the full size.
pub open spec fn spec_truncate(text: Seq<char>, max: nat) -> Seq<char> {
    if byte_len(text) <= max {
        text
    } else {
        text.take(fitting(text, max as int) as int) + "…\n[truncated, "@ + decimal(byte_len(text))
            + " bytes total]"@
    }
}

/// Cut `text` to at most `max` bytes (never inside a character), noting
/// the total size.
pub fn truncate(text: &str, max: usize) -> (r: String)
    ensures
        r@ == spec_truncate(text@, max as nat),
{
    let total = text.as_bytes().len();
    if total <= max {
        return owned(text);
    }
    let n = text.unicode_len();
    let mut k: usize = 0;
    let mut used: usize = 0;
    assert(text@.skip(0) =~= text@);
    while k < n && char_width(text.get_char(k)) <= max - used
        invariant
            n == text@.len(),
            k <= n,
            used <= max,
            fitting(text@, max as int) == k + fitting(text@.skip(k as int), max - used),
        decreases n - k,
    {
        let w = char_width(text.get_char(k));
        assert(text@.skip(k as int).drop_first() =~= text@.skip(k as int + 1));
        used = used + w;
        k = k + 1;
    }
    let mut r = owned(text.substring_char(0, k));
    r.append("…\n[truncated, ");
    r.append(u64_to_decimal(total as u64).as_str());
    r.append(" bytes total]");
    r
}

/// A required string argument, or the message naming it.
pub fn arg_str<'a>(args: &'a Json, key: &str) -> (r: Result<&'a str, String>)
    ensures
        match r {
            Ok(s) => crate::json::str_of(crate::json::member(*args, key@)) == Some(s@),
            Err(m) => crate::json::str_of(crate::json::member(*args, key@)) is None && m@
                == "missing or non-string argument `"@ + key@ + "`"@,
        },
{
    match as_str(get(args, key)) {
        Some(s) => Ok(s),
        None => {
            let mut m = owned("missing or non-string argument `");
            m.append(key);
            m.append("`");
            Err(m)
        },
    }
}

/// The non-overlapping occurrences of the non-empty `pat` in `s`, left
/// to right (`str::matches(pat).count()`).
pub open spec fn count_matches(s: Seq<char>, pat: Seq<char>) -> nat
    decreases s.len(),
{
    let i = find_seq(s, pat);
    if pat.len() == 0 || i < 0 || i + pat.len() > s.len() {
        0
    } else {
        1 + count_matches(s.skip(i + pat.len()), pat)
    }
}

/// `s` with the first `limit` non-overlapping occurrences of the
/// non-empty `pat` replaced by `rep`, left to right
/// (`str::replacen`; `str::replace` replaces them all).
pub open spec fn replace_n(s: Seq<char>, pat: Seq<char>, rep: Seq<char>, limit: nat) -> Seq<char>
    decreases s.len(),
{
    let i = find_seq(s, pat);
    if limit == 0 || pat.len() == 0 || i < 0 || i + pat.len() > s.len() {
        s
    } else {
        s.take(i) + rep + replace_n(s.skip(i + pat.len()), pat, rep, (limit - 1) as nat)
    }
}

/// Count and replace in one pass: the number of occurrences of `pat`,
/// and `s` with the first `limit` of them replaced by `rep`.
pub fn count_and_replace(s: &str, pat: &str, rep: &str, limit: usize) -> (r: (usize, String))
    requires
        pat@.len() > 0,
    ensures
        r.0 == count_matches(s@, pat@),
        r.1@ == replace_n(s@, pat@, rep@, limit as nat),
{
    let n = s.unicode_len();
    let m = pat.unicode_len();
    let mut pos: usize = 0;
    let mut count: usize = 0;
    let mut out = String::new();
    assert(s@.skip(0) =~= s@);
    while pos < n
        invariant
            n == s@.len(),
            m == pat@.len(),
            m > 0,
            pos <= n,
            count <= pos,
            count_matches(s@, pat@) == count + count_matches(s@.skip(pos as int), pat@),
            replace_n(s@, pat@, rep@, limit as nat) == out@ + replace_n(
                s@.skip(pos as int),
                pat@,
                rep@,
                if count <= limit {
                    (limit - count) as nat
                } else {
                    0
                },
            ),
        decreases n - pos,
    {
        let ghost rest = s@.skip(pos as int);
        let j = find_str_from(s, pat, pos);
        proof {
            lemma_find_seq(rest, pat@);
            lemma_find_from(s@, pat@, pos as int, j as int);
        }
        if j >= n {
            proof {
                assert(count_matches(rest, pat@) == 0);
                let lim = if count <= limit { (limit - count) as nat } else { 0 };
                assert(replace_n(rest, pat@, rep@, lim) == rest);
            }
            out.append(s.substring_char(pos, n));
            assert(s@.subrange(pos as int, n as int) =~= rest);
            assert(s@.skip(n as int) =~= Seq::<char>::empty());
            pos = n;
        } else {
            let k = j - pos;
            let before = s.substring_char(pos, j);
            assert(before@ =~= rest.take(k as int));
            assert(rest.skip(k + m) =~= s@.skip(j + m));
            let lim = if count <= limit { limit - count } else { 0 };
            if lim > 0 {
                out.append(before);
                out.append(rep);
            } else {
                out.append(before);
                out.append(pat);
                proof {
                    assert(s@.subrange(j as int, j + m) == pat@);
                }
            }
            proof {
                if lim == 0 {
                    assert(replace_n(rest, pat@, rep@, 0) == rest);
                    assert(replace_n(s@.skip(j + m), pat@, rep@, 0) == s@.skip(j + m));
                    assert(rest =~= rest.take(k as int) + pat@ + s@.skip(j + m));
                }
            }
            count = count + 1;
            pos = j + m;
        }
    }
    (count, out)
}

/// The first occurrence of `pat` in `s` at or after `from` is at `j`
/// (or there is none when `j == s.len()`).
fn find_str_from(s: &str, pat: &str, from: usize) -> (j: usize)
    requires
        from <= s@.len(),
        pat@.len() > 0,
    ensures
        from <= j <= s@.len(),
        j < s@.len() ==> occurs_at(s@, pat@, j as int),
        forall|x: int| from <= x < j ==> !#[trigger] occurs_at(s@, pat@, x),
{
    crate::text::find_str(s, pat, from)
}

proof fn lemma_find_from(s: Seq<char>, pat: Seq<char>, pos: int, j: int)
    requires
        0 <= pos <= j <= s.len(),
        pat.len() > 0,
        j < s.len() ==> occurs_at(s, pat, j),
        forall|x: int| pos <= x < j ==> !#[trigger] occurs_at(s, pat, x),
    ensures
        j < s.len() ==> find_seq(s.skip(pos), pat) == j - pos,
        j == s.len() ==> find_seq(s.skip(pos), pat) < 0,
{
    let r = s.skip(pos);
    lemma_find_seq(r, pat);
    let f = find_seq(r, pat);
    assert forall|x: int| 0 <= x < j - pos implies !#[trigger] occurs_at(r, pat, x) by {
        if x + pat.len() <= r.len() {
            assert(r.subrange(x, x + pat.len()) =~= s.subrange(x + pos, x + pos + pat.len()));
            assert(!occurs_at(s, pat, x + pos));
        }
    }
    if j < s.len() {
        assert(r.subrange(j - pos, j - pos + pat.len()) =~= s.subrange(j, j + pat.len()));
        assert(occurs_at(r, pat, j - pos));
    }
    if f >= 0 {
        assert(occurs_at(r, pat, f));
        assert(f + pat.len() <= r.len());
        if f < j - pos {
        } else if j < s.len() && f > j - pos {
            assert(occurs_at(r, pat, j - pos));
        } else if j == s.len() {
            assert(r.subrange(f, f + pat.len()) =~= s.subrange(f + pos, f + pos + pat.len()));
            assert(occurs_at(s, pat, f + pos));
        }
    }
}

/// What `edit_file` does to a file's `content`: refuse an empty
/// `old_string`, a missing one, or an ambiguous one (more than one match
/// without `replace_all`); otherwise replace the first match (or all)
/// and report the count.
pub open spec fn spec_edit(
    path: Seq<char>,
    content: Seq<char>,
    old: Seq<char>,
    new: Seq<char>,
    replace_all: bool,
) -> Result<(Seq<char>, nat), Seq<char>> {
    let n = count_matches(content, old);
    if old.len() == 0 {
        Err("`old_string` must not be empty"@)
    } else if n == 0 {
        Err("`old_string` not found in "@ + path + "; read the file again and match the exact text"@)
    } else if n > 1 && !replace_all {
        Err("`old_string` matches "@ + decimal(n) + " places in "@ + path
            + "; make it more specific or set `replace_all`"@)
    } else {
        Ok((replace_n(content, old, new, if replace_all { n } else { 1 }), n))
    }
}

pub fn apply_edit(path: &str, content: &str, old: &str, new: &str, replace_all: bool) -> (r: Result<
    (String, usize),
    String,
>)
    ensures
        match spec_edit(path@, content@, old@, new@, replace_all) {
            Ok((updated, n)) => r matches Ok((u, c)) && u@ == updated && c == n,
            Err(m) => r matches Err(e) && e@ == m,
        },
{
    if old.unicode_len() == 0 {
        return Err(owned("`old_string` must not be empty"));
    }
    let (n, _) = count_and_replace(content, old, new, 0);
    if n == 0 {
        let mut m = owned("`old_string` not found in ");
        m.append(path);
        m.append("; read the file again and match the exact text");
        return Err(m);
    }
    if n > 1 && !replace_all {
        let mut m = owned("`old_string` matches ");
        m.append(u64_to_decimal(n as u64).as_str());
        m.append(" places in ");
        m.append(path);
        m.append("; make it more specific or set `replace_all`");
        return Err(m);
    }
    let limit = if replace_all {
        n
    } else {
        1
    };
    let (_, updated) = count_and_replace(content, old, new, limit);
    Ok((updated, n))
}

/// `edited <path> (<n> replacement(s))`.
pub fn edit_report(path: &str, n: usize) -> (s: String)
    ensures
        s@ == "edited "@ + path@ + " ("@ + decimal(n as nat) + " replacement(s))"@,
{
    let mut s = owned("edited ");
    s.append(path);
    s.append(" (");
    s.append(u64_to_decimal(n as u64).as_str());
    s.append(" replacement(s))");
    s
}

/// `wrote <path> (<bytes> bytes)`.
pub fn write_report(path: &str, content: &str) -> (s: String)
    ensures
        s@ == "wrote "@ + path@ + " ("@ + decimal(byte_len(content@)) + " bytes)"@,
{
    let mut s = owned("wrote ");
    s.append(path);
    s.append(" (");
    s.append(u64_to_decimal(content.as_bytes().len() as u64).as_str());
    s.append(" bytes)");
    s
}

/// The text of an outcome starts with `error:`.
pub open spec fn reads_as_error(o: ToolOutcome) -> bool {
    crate::text::is_prefix("error:"@, o.text@)
}

/// The outcome of `write_file` of `content` to `path`, given the jail's
/// answer to the write: the project changed exactly when the write went
/// through, and a failure never reports a change.
pub fn write_outcome(path: &str, content: &str, written: Result<(), String>) -> (o: ToolOutcome)
    ensures
        o.mutated <==> written is Ok,
        written is Ok ==> o.text@ == "wrote "@ + path@ + " ("@ + decimal(byte_len(content@))
            + " bytes)"@,
        written matches Err(e) ==> o.text@ == "error: "@ + e@,
        reads_as_error(o) ==> !o.mutated,
{
    proof {
        reveal_strlit("error:");
        reveal_strlit("wrote ");
    }
    match written {
        Ok(()) => {
            let report = write_report(path, content);
            let o = ToolOutcome::ok(report.as_str(), true);
            assert(o.text@[0] == 'w');
            proof {
                if crate::text::is_prefix("error:"@, o.text@) {
                    assert(o.text@.take(6)[0] == o.text@[0]);
                    assert("error:"@[0] == 'e');
                }
            }
            o
        },
        Err(e) => ToolOutcome::err(e.as_str()),
    }
}

/// The outcome of `edit_file` on `path` after `n` replacements, given the
/// jail's answer to writing the edited text back.
pub fn edit_outcome(path: &str, n: usize, written: Result<(), String>) -> (o: ToolOutcome)
    ensures
        o.mutated <==> written is Ok,
        written is Ok ==> o.text@ == "edited "@ + path@ + " ("@ + decimal(n as nat)
            + " replacement(s))"@,
        written matches Err(e) ==> o.text@ == "error: "@ + e@,
        reads_as_error(o) ==> !o.mutated,
{
    proof {
        reveal_strlit("error:");
        reveal_strlit("edited ");
    }
    match written {
        Ok(()) => {
            let report = edit_report(path, n);
            let o = ToolOutcome::ok(report.as_str(), true);
            assert(o.text@[1] == 'd');
            proof {
                if crate::text::is_prefix("error:"@, o.text@) {
                    assert(o.text@.take(6)[1] == o.text@[1]);
                    assert("error:"@[1] == 'r');
                }
            }
            o
        },
        Err(e) => ToolOutcome::err(e.as_str()),
    }
}

/// The arguments of `write_file`: `path`, then `content`; a missing one
/// is reported as bad arguments.
pub fn write_args<'a>(args: &'a Json) -> (r: Result<(&'a str, &'a str), String>)
    ensures
        match (
            crate::json::str_of(crate::json::member(*args, "path"@)),
            crate::json::str_of(crate::json::member(*args, "content"@)),
        ) {
            (Some(p), Some(c)) => r matches Ok((rp, rc)) && rp@ == p && rc@ == c,
            (None, _) => r matches Err(m) && m@ == "bad write_file arguments: "@
                + "missing or non-string argument `"@ + "path"@ + "`"@,
            (Some(_), None) => r matches Err(m) && m@ == "bad write_file arguments: "@
                + "missing or non-string argument `"@ + "content"@ + "`"@,
        },
{
    match (arg_str(args, "path"), arg_str(args, "content")) {
        (Ok(p), Ok(c)) => Ok((p, c)),
        (Err(e), _) | (_, Err(e)) => {
            let mut m = owned("bad write_file arguments: ");
            m.append(e.as_str());
            Err(m)
        },
    }
}

/// The outcome of a call naming no tool of the tool set: an error that
/// lists the tools, and nothing changed.
pub fn unknown_tool_outcome(name: &str) -> (o: ToolOutcome)
    ensures
        !o.mutated,
        o.text@ == "error: "@ + "unknown tool `"@ + name@ + "`; available: "@ + join_with(
            tool_names(),
            ", "@,
        ),
{
    ToolOutcome::err(unknown_tool(name).as_str())
}


/// `parts` joined with `sep`.
pub open spec fn join_with(parts: Seq<Seq<char>>, sep: Seq<char>) -> Seq<char>
    decreases parts.len(),
{
    if parts.len() == 0 {
        Seq::empty()
    } else if parts.len() == 1 {
        parts[0]
    } else {
        join_with(parts.drop_last(), sep) + sep + parts.last()
    }
}

fn join_strings(parts: &Vec<String>, limit: usize, sep: &str) -> (s: String)
    requires
        limit <= parts.len(),
    ensures
        s@ == join_with(strings_view(parts@).take(limit as int), sep@),
{
    let mut s = String::new();
    let mut i: usize = 0;
    while i < limit
        invariant
            limit <= parts.len(),
            i <= limit,
            s@ == join_with(strings_view(parts@).take(i as int), sep@),
        decreases limit - i,
    {
        assert(strings_view(parts@).take(i as int + 1).drop_last() =~= strings_view(parts@).take(
            i as int,
        ));
        if i > 0 {
            s.append(sep);
        }
        s.append(parts[i].as_str());
        i = i + 1;
    }
    s
}

/// A directory listing as the tool shows it: at most 500 entries, one per
/// line, a note of how many more there were, and `(empty directory)`
/// for none.
pub open spec fn spec_listing(entries: Seq<Seq<char>>) -> Seq<char> {
    let shown = join_with(entries.take(if entries.len() <= 500 { entries.len() as int } else { 500 }), "\n"@);
    let text = if entries.len() > 500 {
        shown + "\n… and "@ + decimal((entries.len() - 500) as nat) + " more entr(ies)"@
    } else {
        shown
    };
    if text.len() == 0 {
        "(empty directory)"@
    } else {
        text
    }
}

pub fn listing_text(entries: &Vec<String>) -> (s: String)
    ensures
        s@ == spec_listing(strings_view(entries@)),
{
    let total = entries.len();
    let shown = if total <= MAX_LIST_ENTRIES {
        total
    } else {
        MAX_LIST_ENTRIES
    };
    let mut text = join_strings(entries, shown, "\n");
    if total > MAX_LIST_ENTRIES {
        text.append("\n… and ");
        text.append(u64_to_decimal((total - MAX_LIST_ENTRIES) as u64).as_str());
        text.append(" more entr(ies)");
    }
    if text.unicode_len() == 0 {
        return owned("(empty directory)");
    }
    text
}

/// A line without the carriage return of its `\r\n` ending.
pub open spec fn strip_cr(l: Seq<char>) -> Seq<char> {
    if l.len() > 0 && l.last() == '\r' {
        l.drop_last()
    } else {
        l
    }
}

/// The lines of `s` (`str::lines`): split at `\n` (a `\r` before it is
/// dropped); a final line ending adds no empty line.
pub open spec fn lines(s: Seq<char>) -> Seq<Seq<char>>
    decreases s.len(),
{
    let j = index_of(s, '\n');
    if s.len() == 0 {
        Seq::empty()
    } else if j < 0 || j >= s.len() {
        seq![s]
    } else {
        seq![strip_cr(s.take(j))] + lines(s.skip(j + 1))
    }
}

/// `<file>:<line number>: <line>` for each line of `lines` (numbered from
/// `first`) that contains `pat`.
pub open spec fn hits_in(file: Seq<char>, ls: Seq<Seq<char>>, first: nat, pat: Seq<char>) -> Seq<Seq<char>>
    decreases ls.len(),
{
    if ls.len() == 0 {
        Seq::empty()
    } else {
        let rest = hits_in(file, ls.drop_first(), first + 1, pat);
        if find_seq(ls[0], pat) >= 0 {
            seq![file + ":"@ + decimal(first) + ": "@ + ls[0]] + rest
        } else {
            rest
        }
    }
}

/// Every grep hit over `files` (path, content), in order.
pub open spec fn all_hits(files: Seq<(String, String)>, pat: Seq<char>) -> Seq<Seq<char>>
    decreases files.len(),
{
    if files.len() == 0 {
        Seq::empty()
    } else {
        all_hits(files.drop_last(), pat) + hits_in(files.last().0@, lines(files.last().1@), 1, pat)
    }
}

/// What `grep` reports over the readable `files` (path, content): the
/// first 200 hits, one per line, or a no-match note.
pub open spec fn spec_grep(files: Seq<(String, String)>, pat: Seq<char>) -> Seq<char> {
    let h = all_hits(files, pat);
    if h.len() == 0 {
        "no matches for `"@ + pat + "`"@
    } else {
        join_with(h.take(if h.len() <= 200 { h.len() as int } else { 200 }), "\n"@)
    }
}

/// The hits of one file's content, numbered from `first`.
fn file_hits(file: &str, content: &str, pat: &str, out: &mut Vec<String>)
    ensures
        strings_view(final(out)@) == strings_view(old(out)@) + hits_in(file@, lines(content@), 1, pat@),
{
    let n = content.unicode_len();
    let mut pos: usize = 0;
    let mut done: usize = 0;
    assert(content@.skip(0) =~= content@);
    assert(strings_view(out@) =~= strings_view(old(out)@) + Seq::<Seq<char>>::empty());
    while pos < n
        invariant
            n == content@.len(),
            pos <= n,
            done <= pos,
            strings_view(old(out)@) + hits_in(file@, lines(content@), 1, pat@) == strings_view(
                out@,
            ) + hits_in(file@, lines(content@.skip(pos as int)), (done + 1) as nat, pat@),
        decreases n - pos,
    {
        let ghost rest = content@.skip(pos as int);
        let j = find_char(content, '\n', pos);
        proof {
            lemma_index_of(rest, '\n');
            if j < n {
                assert(rest[j - pos] == '\n');
                assert forall|k: int| 0 <= k < j - pos implies rest[k] != '\n' by {
                    assert(rest[k] == content@[k + pos]);
                }
                assert(index_of(rest, '\n') == j - pos);
                assert(rest.skip(j - pos + 1) =~= content@.skip(j + 1));
            } else {
                assert forall|k: int| 0 <= k < rest.len() implies rest[k] != '\n' by {
                    assert(rest[k] == content@[k + pos]);
                }
            }
        }
        let mut end = j;
        if j < n && j > pos && content.get_char(j - 1) == '\r' {
            end = j - 1;
        }
        let line = content.substring_char(pos, end);
        proof {
            if j < n {
                assert(line@ =~= strip_cr(rest.take(j - pos)));
            } else {
                assert(line@ =~= rest);
            }
        }
        let hit = if pat.unicode_len() == 0 {
            assert(line@.take(0) =~= pat@);
            true
        } else {
            proof {
                lemma_find_seq(line@, pat@);
            }
            find_first(line, pat) < line.unicode_len()
        };
        assert(hit == (find_seq(line@, pat@) >= 0));
        let ghost before = strings_view(out@);
        let number = done + 1;
        if hit {
            let mut h = owned(file);
            h.append(":");
            h.append(u64_to_decimal(number as u64).as_str());
            h.append(": ");
            h.append(line);
            out.push(h);
            assert(strings_view(out@) =~= before.push(h@));
        }
        let next = if j < n {
            j + 1
        } else {
            n
        };
        proof {
            let ls = lines(rest);
            if j < n {
                assert(ls == seq![line@] + lines(content@.skip(j + 1)));
            } else {
                assert(ls == seq![line@]);
                assert(content@.skip(n as int) =~= Seq::<char>::empty());
                assert(lines(content@.skip(n as int)) == Seq::<Seq<char>>::empty());
            }
            assert(ls[0] == line@);
            assert(ls.drop_first() =~= lines(content@.skip(next as int)));
            let tail = hits_in(file@, lines(content@.skip(next as int)), (number + 1) as nat, pat@);
            assert(hits_in(file@, ls, number as nat, pat@) == (if find_seq(line@, pat@) >= 0 {
                seq![file@ + ":"@ + decimal(number as nat) + ": "@ + line@] + tail
            } else {
                tail
            }));
            assert(before + hits_in(file@, ls, number as nat, pat@) =~= strings_view(out@) + tail);
        }
        pos = next;
        done = number;
    }
    assert(content@.skip(n as int) =~= Seq::<char>::empty());
    assert(strings_view(out@) + Seq::<Seq<char>>::empty() =~= strings_view(out@));
}

/// The lines of `s`, as `str::lines` gives them.
pub fn split_lines(s: &str) -> (r: Vec<String>)
    ensures
        strings_view(r@) == lines(s@),
{
    let n = s.unicode_len();
    let mut out: Vec<String> = Vec::new();
    let mut pos: usize = 0;
    assert(s@.skip(0) =~= s@);
    assert(strings_view(out@) + lines(s@) =~= lines(s@));
    while pos < n
        invariant
            n == s@.len(),
            pos <= n,
            strings_view(out@) + lines(s@.skip(pos as int)) == lines(s@),
        decreases n - pos,
    {
        let ghost rest = s@.skip(pos as int);
        let j = find_char(s, '\n', pos);
        proof {
            lemma_index_of(rest, '\n');
            if j < n {
                assert(rest[j - pos] == '\n');
                assert forall|k: int| 0 <= k < j - pos implies rest[k] != '\n' by {
                    assert(rest[k] == s@[k + pos]);
                }
                assert(index_of(rest, '\n') == j - pos);
                assert(rest.skip(j - pos + 1) =~= s@.skip(j + 1));
            } else {
                assert forall|k: int| 0 <= k < rest.len() implies rest[k] != '\n' by {
                    assert(rest[k] == s@[k + pos]);
                }
            }
        }
        let mut end = j;
        if j < n && j > pos && s.get_char(j - 1) == '\r' {
            end = j - 1;
        }
        let line = s.substring_char(pos, end);
        proof {
            if j < n {
                assert(line@ =~= strip_cr(rest.take(j - pos)));
            } else {
                assert(line@ =~= rest);
            }
        }
        let ghost before = strings_view(out@);
        out.push(owned(line));
        assert(strings_view(out@) =~= before.push(line@));
        let next = if j < n {
            j + 1
        } else {
            n
        };
        proof {
            let ls = lines(rest);
            if j < n {
                assert(ls == seq![line@] + lines(s@.skip(j + 1)));
            } else {
                assert(ls == seq![line@]);
                assert(s@.skip(n as int) =~= Seq::<char>::empty());
                assert(lines(s@.skip(n as int)) == Seq::<Seq<char>>::empty());
            }
            assert(before + ls =~= strings_view(out@) + lines(s@.skip(next as int)));
        }
        pos = next;
    }
    assert(s@.skip(n as int) =~= Seq::<char>::empty());
    assert(strings_view(out@) + Seq::<Seq<char>>::empty() =~= strings_view(out@));
    out
}

/// Search the readable `files` (path, content) for the literal `pat` (an
/// empty one matches every line).
pub fn grep_text(files: &Vec<(String, String)>, pat: &str) -> (s: String)
    ensures
        s@ == spec_grep(files@, pat@),
{
    let mut hits: Vec<String> = Vec::new();
    let mut i: usize = 0;
    while i < files.len()
        invariant
            i <= files.len(),
            strings_view(hits@) == all_hits(files@.take(i as int), pat@),
        decreases files.len() - i,
    {
        assert(files@.take(i as int + 1).drop_last() =~= files@.take(i as int));
        file_hits(files[i].0.as_str(), files[i].1.as_str(), pat, &mut hits);
        i = i + 1;
    }
    assert(files@.take(files.len() as int) =~= files@);
    if hits.len() == 0 {
        let mut m = owned("no matches for `");
        m.append(pat);
        m.append("`");
        return m;
    }
    let shown = if hits.len() <= MAX_GREP_HITS {
        hits.len()
    } else {
        MAX_GREP_HITS
    };
    join_strings(&hits, shown, "\n")
}

/// `s` names a path that leaves the directory it is resolved in: an
/// absolute path, or one with a `..` component.
pub open spec fn leaves_project(s: Seq<char>) -> bool {
    (s.len() > 0 && s[0] == '/') || has_parent_part(s)
}

/// Some `/`-separated part of `s` is `p`.
pub open spec fn has_part(s: Seq<char>, p: Seq<char>) -> bool
    decreases s.len(),
{
    let j = index_of(s, '/');
    if j < 0 || j >= s.len() {
        s == p
    } else {
        s.take(j) == p || has_part(s.skip(j + 1), p)
    }
}

/// Some `/`-separated part of `s` is `..`.
pub open spec fn has_parent_part(s: Seq<char>) -> bool {
    has_part(s, ".."@)
}

/// A project-relative path inside a `.git` directory: the tools never
/// search or list it.
pub open spec fn in_git_dir(rel: Seq<char>) -> bool {
    has_part(rel, ".git"@)
}

fn part_present(s: &str, p: &str) -> (b: bool)
    ensures
        b == has_part(s@, p@),
{
    let n = s.unicode_len();
    let mut pos: usize = 0;
    assert(s@.skip(0) =~= s@);
    loop
        invariant
            n == s@.len(),
            pos <= n,
            has_part(s@, p@) == has_part(s@.skip(pos as int), p@),
        decreases n - pos,
    {
        let ghost rest = s@.skip(pos as int);
        let j = find_char(s, '/', pos);
        proof {
            lemma_index_of(rest, '/');
            if j < n {
                assert(rest[j - pos] == '/');
                assert forall|k: int| 0 <= k < j - pos implies rest[k] != '/' by {
                    assert(rest[k] == s@[k + pos]);
                }
                assert(index_of(rest, '/') == j - pos);
                assert(rest.skip(j - pos + 1) =~= s@.skip(j + 1));
            } else {
                assert forall|k: int| 0 <= k < rest.len() implies rest[k] != '/' by {
                    assert(rest[k] == s@[k + pos]);
                }
            }
        }
        let part = s.substring_char(pos, j);
        if str_eq(part, p) {
            proof {
                if j < n {
                    assert(part@ =~= rest.take(j - pos));
                } else {
                    assert(part@ =~= rest);
                }
            }
            return true;
        }
        if j >= n {
            assert(part@ =~= rest);
            return false;
        }
        assert(part@ =~= rest.take(j - pos));
        pos = j + 1;
    }
}

fn parent_part(s: &str) -> (b: bool)
    ensures
        b == has_parent_part(s@),
{
    part_present(s, "..")
}

/// Whether a project-relative path lies inside a `.git` directory.
pub fn inside_git(rel: &str) -> (b: bool)
    ensures
        b == in_git_dir(rel@),
{
    part_present(rel, ".git")
}

/// Whether the argument leaves the project.
pub fn leaves(arg: &str) -> (b: bool)
    ensures
        b == leaves_project(arg@),
{
    (arg.unicode_len() > 0 && arg.get_char(0) == '/') || parent_part(arg)
}

/// Why the project jail refuses a tool's path, if it does: an absolute
/// path or one with a `..` component escapes the project.
pub fn jail_refusal(path: &str) -> (r: Option<String>)
    ensures
        leaves_project(path@) ==> (r matches Some(m) && m@ == "path `"@ + path@ + "` escapes the project jail"@),
        !leaves_project(path@) ==> r is None,
{
    if leaves(path) {
        let mut m = owned("path `");
        m.append(path);
        m.append("` escapes the project jail");
        Some(m)
    } else {
        None
    }
}

/// Why `run_command` refuses `program` with `argv`, if it does: a
/// program off the allowlist, or the first argument that leaves the
/// project.
pub open spec fn spec_refusal(program: Seq<char>, argv: Seq<Seq<char>>) -> Option<Seq<char>> {
    if !allowed_commands().contains(program) {
        Some("`"@ + program + "` is not allowlisted; allowed: "@ + join_with(allowed_commands(), ", "@))
    } else {
        first_escape(argv)
    }
}

pub open spec fn first_escape(argv: Seq<Seq<char>>) -> Option<Seq<char>>
    decreases argv.len(),
{
    if argv.len() == 0 {
        None
    } else if leaves_project(argv[0]) {
        Some("argument `"@ + argv[0] + "` leaves the project; run_command only works inside it"@)
    } else {
        first_escape(argv.drop_first())
    }
}

fn allowed(program: &str) -> (b: bool)
    ensures
        b == allowed_commands().contains(program@),
{
    let list = ["dart", "flutter", "cargo", "rustc", "ls", "cat", "grep", "find", "echo", "pwd", "mkdir", "touch"];
    let mut i: usize = 0;
    let ghost names = allowed_commands();
    assert(names.len() == 12);
    while i < 12
        invariant
            i <= 12,
            names == allowed_commands(),
            list@.len() == 12,
            forall|k: int| 0 <= k < 12 ==> (#[trigger] list@[k])@ == names[k],
            forall|k: int| 0 <= k < i ==> names[k] != program@,
        decreases 12 - i,
    {
        if str_eq(list[i], program) {
            assert(names[i as int] == program@);
            return true;
        }
        i = i + 1;
    }
    false
}

/// `dart, flutter, …` (the allowlist, comma-separated).
fn allowlist_text() -> (s: String)
    ensures
        s@ == join_with(allowed_commands(), ", "@),
{
    let list = ["dart", "flutter", "cargo", "rustc", "ls", "cat", "grep", "find", "echo", "pwd", "mkdir", "touch"];
    let mut s = String::new();
    let mut i: usize = 0;
    while i < 12
        invariant
            i <= 12,
            list@.len() == 12,
            forall|k: int| 0 <= k < 12 ==> (#[trigger] list@[k])@ == allowed_commands()[k],
            s@ == join_with(allowed_commands().take(i as int), ", "@),
        decreases 12 - i,
    {
        assert(allowed_commands().take(i as int + 1).drop_last() =~= allowed_commands().take(i as int));
        if i > 0 {
            s.append(", ");
        }
        s.append(list[i]);
        i = i + 1;
    }
    assert(allowed_commands().take(12) =~= allowed_commands());
    s
}

/// Check a `run_command` request before anything runs.
pub fn check_command(program: &str, argv: &Vec<String>) -> (r: Option<String>)
    ensures
        match spec_refusal(program@, strings_view(argv@)) {
            Some(m) => r matches Some(x) && x@ == m,
            None => r is None,
        },
{
    if !allowed(program) {
        let mut m = owned("`");
        m.append(program);
        m.append("` is not allowlisted; allowed: ");
        m.append(allowlist_text().as_str());
        return Some(m);
    }
    let mut i: usize = 0;
    assert(strings_view(argv@).skip(0) =~= strings_view(argv@));
    while i < argv.len()
        invariant
            i <= argv.len(),
            allowed_commands().contains(program@),
            first_escape(strings_view(argv@)) == first_escape(strings_view(argv@).skip(i as int)),
        decreases argv.len() - i,
    {
        let ghost rest = strings_view(argv@).skip(i as int);
        assert(rest[0] == argv@[i as int]@);
        if leaves(argv[i].as_str()) {
            let mut m = owned("argument `");
            m.append(argv[i].as_str());
            m.append("` leaves the project; run_command only works inside it");
            return Some(m);
        }
        assert(rest.drop_first() =~= strings_view(argv@).skip(i as int + 1));
        i = i + 1;
    }
    assert(strings_view(argv@).skip(argv.len() as int) =~= Seq::<Seq<char>>::empty());
    None
}

/// What `run_command` reports of a finished program: its exit status and
/// output, trailing whitespace cut, bounded to 12 000 bytes.
pub open spec fn spec_command_text(status: Seq<char>, stdout: Seq<char>, stderr: Seq<char>) -> Seq<char> {
    spec_truncate(crate::text::trim_end("exit: "@ + status + "\n"@ + stdout + stderr), 12000)
}

pub fn command_text(status: &str, stdout: &str, stderr: &str) -> (s: String)
    ensures
        s@ == spec_command_text(status@, stdout@, stderr@),
{
    let mut t = owned("exit: ");
    t.append(status);
    t.append("\n");
    t.append(stdout);
    t.append(stderr);
    let n = t.unicode_len();
    let e = crate::text::cut_spaces(t.as_str(), 0, n);
    assert(t@.subrange(0, n as int) =~= t@);
    let cut = t.as_str().substring_char(0, e);
    truncate(cut, MAX_CMD_CHARS)
}

/// The test suite to run: `dart test` for a pubspec project, else
/// `cargo test` for a Cargo project, else none.
pub fn test_program(has_pubspec: bool, has_cargo: bool) -> (p: Option<&'static str>)
    ensures
        has_pubspec ==> (p matches Some(x) && x@ == "dart"@),
        !has_pubspec && has_cargo ==> (p matches Some(x) && x@ == "cargo"@),
        !has_pubspec && !has_cargo ==> p is None,
{
    if has_pubspec {
        Some("dart")
    } else if has_cargo {
        Some("cargo")
    } else {
        None
    }
}

pub const NO_TEST_SETUP: &'static str = "no recognized test setup in the project (looked for pubspec.yaml and Cargo.toml)";

/// The tools, by name.
#[derive(Debug, Clone, Copy, PartialEq, Eq, Structural)]
pub enum ToolKind {
    ReadFile,
    ListDir,
    Grep,
    WriteFile,
    EditFile,
    RunCommand,
    RunTests,
}

/// The names of the tools, in the order they are offered.
pub open spec fn tool_names() -> Seq<Seq<char>> {
    seq![
        "read_file"@, "list_dir"@, "grep"@, "write_file"@, "edit_file"@, "run_command"@,
        "run_tests"@,
    ]
}

pub open spec fn kind_name(k: ToolKind) -> Seq<char> {
    match k {
        ToolKind::ReadFile => "read_file"@,
        ToolKind::ListDir => "list_dir"@,
        ToolKind::Grep => "grep"@,
        ToolKind::WriteFile => "write_file"@,
        ToolKind::EditFile => "edit_file"@,
        ToolKind::RunCommand => "run_command"@,
        ToolKind::RunTests => "run_tests"@,
    }
}

/// The tool a call names, if it is one of the tool set.
pub fn tool_kind(name: &str) -> (k: Option<ToolKind>)
    ensures
        match k {
            Some(t) => kind_name(t) == name@,
            None => !tool_names().contains(name@),
        },
{
    if str_eq(name, "read_file") {
        Some(ToolKind::ReadFile)
    } else if str_eq(name, "list_dir") {
        Some(ToolKind::ListDir)
    } else if str_eq(name, "grep") {
        Some(ToolKind::Grep)
    } else if str_eq(name, "write_file") {
        Some(ToolKind::WriteFile)
    } else if str_eq(name, "edit_file") {
        Some(ToolKind::EditFile)
    } else if str_eq(name, "run_command") {
        Some(ToolKind::RunCommand)
    } else if str_eq(name, "run_tests") {
        Some(ToolKind::RunTests)
    } else {
        assert forall|i: int| 0 <= i < 7 implies tool_names()[i] != name@ by {}
        None
    }
}

/// `unknown tool `<name>`; available: read_file, list_dir, …`.
pub fn unknown_tool(name: &str) -> (s: String)
    ensures
        s@ == "unknown tool `"@ + name@ + "`; available: "@ + join_with(tool_names(), ", "@),
{
    let mut s = owned("unknown tool `");
    s.append(name);
    s.append("`; available: ");
    let names = ["read_file", "list_dir", "grep", "write_file", "edit_file", "run_command", "run_tests"];
    let mut i: usize = 0;
    let ghost head = s@;
    while i < 7
        invariant
            i <= 7,
            names@.len() == 7,
            forall|k: int| 0 <= k < 7 ==> (#[trigger] names@[k])@ == tool_names()[k],
            s@ == head + join_with(tool_names().take(i as int), ", "@),
        decreases 7 - i,
    {
        assert(tool_names().take(i as int + 1).drop_last() =~= tool_names().take(i as int));
        if i > 0 {
            s.append(", ");
        }
        s.append(names[i]);
        i = i + 1;
    }
    assert(tool_names().take(7) =~= tool_names());
    s
}

/// The string argument `k` of a call, if there is one.
pub open spec fn arg_of(args: Json, k: Seq<char>) -> Option<Seq<char>> {
    crate::json::str_of(crate::json::member(args, k))
}

/// The message for a missing string argument `k`.
pub open spec fn missing_arg(k: Seq<char>) -> Seq<char> {
    "missing or non-string argument `"@ + k + "`"@
}

/// The strings among the items of an array value (none for anything else).
pub open spec fn string_items(v: Option<Json>) -> Seq<Seq<char>> {
    match v {
        Some(Json::Array(a)) => strings_in(a@),
        _ => Seq::empty(),
    }
}

pub open spec fn strings_in(a: Seq<Json>) -> Seq<Seq<char>>
    decreases a.len(),
{
    if a.len() == 0 {
        Seq::empty()
    } else {
        strings_in(a.drop_last()) + match a.last() {
            Json::Str(s) => seq![s@],
            _ => Seq::empty(),
        }
    }
}

fn string_items_of(v: Option<&Json>) -> (r: Vec<String>)
    ensures
        strings_view(r@) == string_items(crate::json::deref_opt(v)),
{
    let mut out: Vec<String> = Vec::new();
    match v {
        Some(Json::Array(a)) => {
            let mut i: usize = 0;
            while i < a.len()
                invariant
                    i <= a@.len(),
                    strings_view(out@) == strings_in(a@.take(i as int)),
                decreases a@.len() - i,
            {
                assert(a@.take(i as int + 1).drop_last() =~= a@.take(i as int));
                let ghost before = strings_view(out@);
                match &a[i] {
                    Json::Str(s) => {
                        out.push(s.clone());
                        assert(strings_view(out@) =~= before + seq![s@]);
                    },
                    _ => {
                        assert(strings_view(out@) =~= before + Seq::<Seq<char>>::empty());
                    },
                }
                i = i + 1;
            }
            assert(a@.take(a@.len() as int) =~= a@);
            out
        },
        _ => {
            assert(strings_view(out@) =~= Seq::<Seq<char>>::empty());
            out
        },
    }
}

/// What a tool call asks of the project, once its name and arguments are
/// read: an immediate answer (an unknown tool, a bad argument), or one
/// jail operation with its arguments.
pub enum ToolPlan {
    Answer(ToolOutcome),
    Read { path: String },
    List { path: String },
    Grep { pattern: String, scope: String },
    Write { path: String, content: String },
    Edit { path: String, old: String, new: String, replace_all: bool },
    Run { program: String, args: Vec<String> },
    Tests,
}

/// `o` is the refusal `error: <m>`, nothing changed.
pub open spec fn refused(o: ToolOutcome, m: Seq<char>) -> bool {
    !o.mutated && o.text@ == "error: "@ + m
}

proof fn lemma_refusal_reads_as_error(o: ToolOutcome, m: Seq<char>)
    requires
        refused(o, m),
    ensures
        reads_as_error(o),
{
    reveal_strlit("error: ");
    reveal_strlit("error:");
    assert(o.text@.take(6) =~= "error:"@);
}

fn refusal(m: &str) -> (o: ToolOutcome)
    ensures
        refused(o, m@),
        reads_as_error(o),
{
    let o = ToolOutcome::err(m);
    proof {
        lemma_refusal_reads_as_error(o, m@);
    }
    o
}

#[verifier::spinoff_prover]
#[verifier::rlimit(40)]
/// Read a tool call: which jail operation it asks for, with which
/// arguments, or the answer it gets at once. Only `write_file` and
/// `edit_file` calls with all their arguments plan a change; every
/// immediate answer is an error that changes nothing.
pub fn plan_tool(name: &str, args: &Json) -> (p: ToolPlan)
    ensures
        p matches ToolPlan::Answer(o) ==> !o.mutated && reads_as_error(o),
        !tool_names().contains(name@) ==> (p matches ToolPlan::Answer(o) && refused(
            o,
            "unknown tool `"@ + name@ + "`; available: "@ + join_with(tool_names(), ", "@),
        )),
        p is Write ==> name@ == "write_file"@,
        p is Edit ==> name@ == "edit_file"@,
        name@ == "read_file"@ ==> match arg_of(*args, "path"@) {
            Some(x) => p matches ToolPlan::Read { path } && path@ == x,
            None => p matches ToolPlan::Answer(o) && refused(o, missing_arg("path"@)),
        },
        name@ == "list_dir"@ ==> (p matches ToolPlan::List { path } && path@ == match arg_of(
            *args,
            "path"@,
        ) {
            Some(x) => x,
            None => "."@,
        }),
        name@ == "grep"@ ==> match arg_of(*args, "pattern"@) {
            Some(x) => p matches ToolPlan::Grep { pattern, scope } && pattern@ == x && scope@ == match arg_of(
                *args,
                "path"@,
            ) {
                Some(y) => y,
                None => "."@,
            },
            None => p matches ToolPlan::Answer(o) && refused(o, missing_arg("pattern"@)),
        },
        name@ == "write_file"@ ==> match (arg_of(*args, "path"@), arg_of(*args, "content"@)) {
            (Some(x), Some(c)) => p matches ToolPlan::Write { path, content } && path@ == x && content@ == c,
            (None, _) => p matches ToolPlan::Answer(o) && refused(
                o,
                "bad write_file arguments: "@ + missing_arg("path"@),
            ),
            (Some(_), None) => p matches ToolPlan::Answer(o) && refused(
                o,
                "bad write_file arguments: "@ + missing_arg("content"@),
            ),
        },
        name@ == "edit_file"@ ==> match (
            arg_of(*args, "path"@),
            arg_of(*args, "old_string"@),
            arg_of(*args, "new_string"@),
        ) {
            (Some(x), Some(o1), Some(n1)) => p matches ToolPlan::Edit { path, old, new, replace_all } && path@
                == x && old@ == o1 && new@ == n1 && replace_all == (crate::json::bool_of(
                crate::json::member(*args, "replace_all"@),
            ) == Some(true)),
            (None, _, _) => p matches ToolPlan::Answer(o) && refused(o, missing_arg("path"@)),
            (Some(_), None, _) => p matches ToolPlan::Answer(o) && refused(o, missing_arg("old_string"@)),
            (Some(_), Some(_), None) => p matches ToolPlan::Answer(o) && refused(
                o,
                missing_arg("new_string"@),
            ),
        },
        name@ == "run_command"@ ==> match arg_of(*args, "program"@) {
            Some(x) => p matches ToolPlan::Run { program, args: argv } && program@ == x && strings_view(argv@)
                == string_items(crate::json::member(*args, "args"@)),
            None => p matches ToolPlan::Answer(o) && refused(o, missing_arg("program"@)),
        },
        name@ == "run_tests"@ ==> p is Tests,
{
    proof {
        reveal_strlit("read_file");
        reveal_strlit("list_dir");
        reveal_strlit("grep");
        reveal_strlit("write_file");
        reveal_strlit("edit_file");
        reveal_strlit("run_command");
        reveal_strlit("run_tests");
        assert("read_file"@.len() != "list_dir"@.len());
        assert("read_file"@.len() != "grep"@.len());
        assert("read_file"@.len() != "write_file"@.len());
        assert("read_file"@[0] != "edit_file"@[0]);
        assert("read_file"@.len() != "run_command"@.len());
        assert("read_file"@[1] != "run_tests"@[1]);
        assert("list_dir"@.len() != "grep"@.len());
        assert("list_dir"@.len() != "write_file"@.len());
        assert("list_dir"@.len() != "edit_file"@.len());
        assert("list_dir"@.len() != "run_command"@.len());
        assert("list_dir"@.len() != "run_tests"@.len());
        assert("grep"@.len() != "write_file"@.len());
        assert("grep"@.len() != "edit_file"@.len());
        assert("grep"@.len() != "run_command"@.len());
        assert("grep"@.len() != "run_tests"@.len());
        assert("write_file"@.len() != "edit_file"@.len());
        assert("write_file"@.len() != "run_command"@.len());
        assert("write_file"@.len() != "run_tests"@.len());
        assert("edit_file"@.len() != "run_command"@.len());
        assert("edit_file"@[0] != "run_tests"@[0]);
        assert("run_command"@.len() != "run_tests"@.len());
    }
    let kind = match tool_kind(name) {
        Some(k) => k,
        None => {
            assert(tool_names()[0] == "read_file"@ && tool_names()[1] == "list_dir"@ && tool_names()[2]
                == "grep"@ && tool_names()[3] == "write_file"@ && tool_names()[4] == "edit_file"@
                && tool_names()[5] == "run_command"@ && tool_names()[6] == "run_tests"@);
            let o = refusal(unknown_tool(name).as_str());
            return ToolPlan::Answer(o);
        },
    };
    match kind {
        ToolKind::ReadFile => match arg_str(args, "path") {
            Ok(p) => ToolPlan::Read { path: owned(p) },
            Err(e) => ToolPlan::Answer(refusal(e.as_str())),
        },
        ToolKind::ListDir => {
            let path = match arg_str(args, "path") {
                Ok(p) => owned(p),
                Err(_) => owned("."),
            };
            ToolPlan::List { path }
        },
        ToolKind::Grep => match arg_str(args, "pattern") {
            Ok(pat) => {
                let scope = match arg_str(args, "path") {
                    Ok(p) => owned(p),
                    Err(_) => owned("."),
                };
                ToolPlan::Grep { pattern: owned(pat), scope }
            },
            Err(e) => ToolPlan::Answer(refusal(e.as_str())),
        },
        ToolKind::WriteFile => match write_args(args) {
            Ok((p, c)) => ToolPlan::Write { path: owned(p), content: owned(c) },
            Err(e) => {
                proof {
                    let bad = "bad write_file arguments: "@;
                    let m = "missing or non-string argument `"@;
                    assert(bad + missing_arg("path"@) =~= bad + m + "path"@ + "`"@);
                    assert(bad + missing_arg("content"@) =~= bad + m + "content"@ + "`"@);
                }
                ToolPlan::Answer(refusal(e.as_str()))
            },
        },
        ToolKind::EditFile => match (arg_str(args, "path"), arg_str(args, "old_string"), arg_str(args, "new_string")) {
            (Ok(p), Ok(o), Ok(n)) => {
                let replace_all = match as_bool(get(args, "replace_all")) {
                    Some(b) => b,
                    None => false,
                };
                ToolPlan::Edit { path: owned(p), old: owned(o), new: owned(n), replace_all }
            },
            (Err(e), _, _) => ToolPlan::Answer(refusal(e.as_str())),
            (Ok(_), Err(e), _) => ToolPlan::Answer(refusal(e.as_str())),
            (Ok(_), Ok(_), Err(e)) => ToolPlan::Answer(refusal(e.as_str())),
        },
        ToolKind::RunCommand => match arg_str(args, "program") {
            Ok(p) => ToolPlan::Run { program: owned(p), args: string_items_of(get(args, "args")) },
            Err(e) => ToolPlan::Answer(refusal(e.as_str())),
        },
        ToolKind::RunTests => ToolPlan::Tests,
    }
}

/// The outcome of an operation that changes nothing (read, list, grep,
/// a command): its text, or `error: <why>`.
pub fn io_outcome(r: Result<String, String>) -> (o: ToolOutcome)
    ensures
        !o.mutated,
        r matches Ok(t) ==> o.text@ == t@,
        r matches Err(e) ==> refused(o, e@) && reads_as_error(o),
{
    match r {
        Ok(t) => ToolOutcome::ok(t.as_str(), false),
        Err(e) => refusal(e.as_str()),
    }
}

/// A tool declaration: name, description, and the JSON schema its calls
/// are constrained to.
pub struct ToolSpec {
    pub name: &'static str,
    pub description: &'static str,
    pub parameters: Json,
}

/// `{"description": …, "type": "string"}`.
pub open spec fn string_prop(desc: Seq<char>) -> JValue {
    JValue::Object(seq![("description"@, JValue::Str(desc)), ("type"@, JValue::Str("string"@))])
}

/// A project-relative path argument.
pub open spec fn rel_prop(what: Seq<char>) -> JValue {
    string_prop(
        "Project-relative "@ + what
            + " — e.g. `bin/main.dart`. Never absolute, never containing `..`."@,
    )
}

/// An object schema with `props` and the `required` names.
pub open spec fn object_schema(props: Seq<(Seq<char>, JValue)>, required: Seq<Seq<char>>) -> JValue {
    JValue::Object(
        seq![
            ("properties"@, JValue::Object(props)),
            ("required"@, JValue::Array(Seq::new(required.len(), |i: int| JValue::Str(required[i])))),
            ("type"@, JValue::Str("object"@)),
        ],
    )
}

/// The input schema of each tool, in order.
pub open spec fn tool_params() -> Seq<JValue> {
    seq![
        object_schema(seq![("path"@, rel_prop("file path"@))], seq!["path"@]),
        object_schema(seq![("path"@, rel_prop("directory path"@))], seq!["path"@]),
        object_schema(
            seq![
                ("path"@, rel_prop("file or directory to search; omit to search the whole project"@)),
                ("pattern"@, string_prop("Literal substring to search for."@)),
            ],
            seq!["pattern"@],
        ),
        object_schema(
            seq![
                ("content"@, string_prop("The complete new file content."@)),
                ("path"@, rel_prop("file path"@)),
            ],
            seq!["path"@, "content"@],
        ),
        object_schema(
            seq![
                ("new_string"@, string_prop("Replacement text."@)),
                ("old_string"@, string_prop("Exact text to find."@)),
                ("path"@, rel_prop("file path"@)),
                ("replace_all"@, JValue::Object(
                    seq![
                        ("description"@, JValue::Str("Replace every occurrence (default false)."@)),
                        ("type"@, JValue::Str("boolean"@)),
                    ],
                )),
            ],
            seq!["path"@, "old_string"@, "new_string"@],
        ),
        object_schema(
            seq![
                ("args"@, JValue::Object(
                    seq![
                        ("description"@, JValue::Str("Arguments; paths must stay inside the project."@)),
                        ("items"@, JValue::Object(seq![("type"@, JValue::Str("string"@))])),
                        ("type"@, JValue::Str("array"@)),
                    ],
                )),
                ("program"@, JValue::Object(
                    seq![
                        ("enum"@, JValue::Array(
                            Seq::new(12, |i: int| JValue::Str(allowed_commands()[i])),
                        )),
                        ("type"@, JValue::Str("string"@)),
                    ],
                )),
            ],
            seq!["program"@],
        ),
        JValue::Object(
            seq![("properties"@, JValue::Object(Seq::empty())), ("type"@, JValue::Str("object"@))],
        ),
    ]
}

/// The descriptions of the tools, in order.
pub open spec fn tool_descriptions() -> Seq<Seq<char>> {
    seq![
        "Read the complete contents of a project file."@,
        "List a project directory (`.` for the root); directories end with `/`."@,
        "Search file contents for a literal substring; returns `path:line: text` matches. Hidden and build-output directories are skipped."@,
        "Write a COMPLETE file (new or full replacement). Prefer `edit_file` for targeted changes to existing files."@,
        "Targeted find/replace in an existing file: `old_string` must match the current content exactly (including indentation) and be unique unless `replace_all` is set."@,
        "Run an allowlisted command in the project root (no shell). Use it for toolchain commands like `dart analyze`; file operations should go through the dedicated tools."@,
        "Run the project's test suite (`dart test` for a pubspec project, `cargo test` for a Cargo project)."@,
    ]
}

fn kv(k: &str, v: Json) -> (f: (String, Json))
    ensures
        f.0@ == k@,
        f.1@ == v@,
{
    (owned(k), v)
}

fn jtext(s: &str) -> (j: Json)
    ensures
        j@ == JValue::Str(s@),
{
    Json::Str(owned(s))
}

fn string_schema(desc: &str) -> (j: Json)
    ensures
        j@ == string_prop(desc@),
{
    let mut f: Vec<(String, Json)> = Vec::new();
    f.push(kv("description", jtext(desc)));
    f.push(kv("type", jtext("string")));
    let j = object(f);
    assert(fields_view(f@) =~= seq![("description"@, JValue::Str(desc@)), ("type"@, JValue::Str("string"@))]);
    j
}

fn rel_schema(what: &str) -> (j: Json)
    ensures
        j@ == rel_prop(what@),
{
    let mut d = owned("Project-relative ");
    d.append(what);
    d.append(" — e.g. `bin/main.dart`. Never absolute, never containing `..`.");
    string_schema(d.as_str())
}

fn names_array(v: &[&'static str]) -> (j: Json)
    ensures
        j@ == JValue::Array(Seq::new(v@.len(), |i: int| JValue::Str(v@[i]@))),
{
    let mut out: Vec<Json> = Vec::new();
    let mut i: usize = 0;
    while i < v.len()
        invariant
            i <= v@.len(),
            out@.len() == i,
            forall|k: int| 0 <= k < i ==> (#[trigger] out@[k])@ == JValue::Str(v@[k]@),
        decreases v@.len() - i,
    {
        out.push(jtext(v[i]));
        i = i + 1;
    }
    let j = Json::Array(out);
    proof {
        if let JValue::Array(x) = crate::json::json_view(j) {
            assert(x =~= Seq::new(v@.len(), |k: int| JValue::Str(v@[k]@)));
        }
    }
    j
}

fn schema(props: Vec<(String, Json)>, required: &[&'static str]) -> (j: Json)
    ensures
        j@ == object_schema(fields_view(props@), Seq::new(required@.len(), |i: int| required@[i]@)),
{
    let ghost pv = fields_view(props@);
    let p = object(props);
    let r = names_array(required);
    let mut f: Vec<(String, Json)> = Vec::new();
    f.push(kv("properties", p));
    f.push(kv("required", r));
    f.push(kv("type", jtext("object")));
    let j = object(f);
    proof {
        let req = Seq::new(required@.len(), |i: int| required@[i]@);
        assert(Seq::new(req.len(), |i: int| JValue::Str(req[i])) =~= Seq::new(required@.len(), |i: int| JValue::Str(required@[i]@)));
        assert(fields_view(f@) =~= seq![
            ("properties"@, JValue::Object(pv)),
            ("required"@, JValue::Array(Seq::new(req.len(), |i: int| JValue::Str(req[i])))),
            ("type"@, JValue::Str("object"@)),
        ]);
    }
    j
}

/// The full tool set offered to the backend, with input schemas.
pub fn tool_specs() -> (v: Vec<ToolSpec>)
    ensures
        v@.len() == 7,
        forall|i: int| 0 <= i < 7 ==> (#[trigger] v@[i]).name@ == tool_names()[i],
        forall|i: int| 0 <= i < 7 ==> (#[trigger] v@[i]).description@ == tool_descriptions()[i],
        forall|i: int| 0 <= i < 7 ==> (#[trigger] v@[i]).parameters@ == tool_params()[i],
{
    let mut v: Vec<ToolSpec> = Vec::new();
    // read_file
    let mut p: Vec<(String, Json)> = Vec::new();
    p.push(kv("path", rel_schema("file path")));
    let ghost pv0 = fields_view(p@);
    assert(pv0 =~= seq![("path"@, rel_prop("file path"@))]);
    let params = schema(p, &["path"]);
    proof { assert(Seq::new(1, |i: int| ["path"]@[i]@) =~= seq!["path"@]); }
    v.push(ToolSpec { name: "read_file", description: "Read the complete contents of a project file.", parameters: params });
    // list_dir
    let mut p: Vec<(String, Json)> = Vec::new();
    p.push(kv("path", rel_schema("directory path")));
    assert(fields_view(p@) =~= seq![("path"@, rel_prop("directory path"@))]);
    let params = schema(p, &["path"]);
    proof { assert(Seq::new(1, |i: int| ["path"]@[i]@) =~= seq!["path"@]); }
    v.push(ToolSpec { name: "list_dir", description: "List a project directory (`.` for the root); directories end with `/`.", parameters: params });
    // grep
    let mut p: Vec<(String, Json)> = Vec::new();
    p.push(kv("path", rel_schema("file or directory to search; omit to search the whole project")));
    p.push(kv("pattern", string_schema("Literal substring to search for.")));
    assert(fields_view(p@) =~= seq![
        ("path"@, rel_prop("file or directory to search; omit to search the whole project"@)),
        ("pattern"@, string_prop("Literal substring to search for."@)),
    ]);
    let params = schema(p, &["pattern"]);
    proof { assert(Seq::new(1, |i: int| ["pattern"]@[i]@) =~= seq!["pattern"@]); }
    v.push(ToolSpec { name: "grep", description: "Search file contents for a literal substring; returns `path:line: text` matches. Hidden and build-output directories are skipped.", parameters: params });
    // write_file
    let mut p: Vec<(String, Json)> = Vec::new();
    p.push(kv("content", string_schema("The complete new file content.")));
    p.push(kv("path", rel_schema("file path")));
    assert(fields_view(p@) =~= seq![
        ("content"@, string_prop("The complete new file content."@)),
        ("path"@, rel_prop("file path"@)),
    ]);
    let params = schema(p, &["path", "content"]);
    proof { assert(Seq::new(2, |i: int| ["path", "content"]@[i]@) =~= seq!["path"@, "content"@]); }
    v.push(ToolSpec { name: "write_file", description: "Write a COMPLETE file (new or full replacement). Prefer `edit_file` for targeted changes to existing files.", parameters: params });
    // edit_file
    let mut b: Vec<(String, Json)> = Vec::new();
    b.push(kv("description", jtext("Replace every occurrence (default false).")));
    b.push(kv("type", jtext("boolean")));
    let ghost bv = fields_view(b@);
    let flag = object(b);
    let mut p: Vec<(String, Json)> = Vec::new();
    p.push(kv("new_string", string_schema("Replacement text.")));
    p.push(kv("old_string", string_schema("Exact text to find.")));
    p.push(kv("path", rel_schema("file path")));
    p.push(kv("replace_all", flag));
    assert(bv =~= seq![
        ("description"@, JValue::Str("Replace every occurrence (default false)."@)),
        ("type"@, JValue::Str("boolean"@)),
    ]);
    assert(fields_view(p@) =~= seq![
        ("new_string"@, string_prop("Replacement text."@)),
        ("old_string"@, string_prop("Exact text to find."@)),
        ("path"@, rel_prop("file path"@)),
        ("replace_all"@, JValue::Object(bv)),
    ]);
    let params = schema(p, &["path", "old_string", "new_string"]);
    proof {
        assert(Seq::new(3, |i: int| ["path", "old_string", "new_string"]@[i]@) =~= seq![
            "path"@,
            "old_string"@,
            "new_string"@,
        ]);
    }
    v.push(ToolSpec { name: "edit_file", description: "Targeted find/replace in an existing file: `old_string` must match the current content exactly (including indentation) and be unique unless `replace_all` is set.", parameters: params });
    // run_command
    let mut items: Vec<(String, Json)> = Vec::new();
    items.push(kv("type", jtext("string")));
    let ghost iv = fields_view(items@);
    let items_j = object(items);
    let mut a: Vec<(String, Json)> = Vec::new();
    a.push(kv("description", jtext("Arguments; paths must stay inside the project.")));
    a.push(kv("items", items_j));
    a.push(kv("type", jtext("array")));
    let ghost av = fields_view(a@);
    let args_j = object(a);
    let cmds = ["dart", "flutter", "cargo", "rustc", "ls", "cat", "grep", "find", "echo", "pwd", "mkdir", "touch"];
    let mut g: Vec<(String, Json)> = Vec::new();
    g.push(kv("enum", names_array(&cmds)));
    g.push(kv("type", jtext("string")));
    let ghost gv = fields_view(g@);
    let prog_j = object(g);
    let mut p: Vec<(String, Json)> = Vec::new();
    p.push(kv("args", args_j));
    p.push(kv("program", prog_j));
    proof {
        assert(iv =~= seq![("type"@, JValue::Str("string"@))]);
        assert(av =~= seq![
            ("description"@, JValue::Str("Arguments; paths must stay inside the project."@)),
            ("items"@, JValue::Object(seq![("type"@, JValue::Str("string"@))])),
            ("type"@, JValue::Str("array"@)),
        ]);
        assert(Seq::new(cmds@.len(), |i: int| JValue::Str(cmds@[i]@)) =~= Seq::new(
            12,
            |i: int| JValue::Str(allowed_commands()[i]),
        ));
        assert(gv =~= seq![
            ("enum"@, JValue::Array(Seq::new(12, |i: int| JValue::Str(allowed_commands()[i])))),
            ("type"@, JValue::Str("string"@)),
        ]);
    }
    assert(fields_view(p@) =~= seq![("args"@, JValue::Object(av)), ("program"@, JValue::Object(gv))]);
    let params = schema(p, &["program"]);
    proof { assert(Seq::new(1, |i: int| ["program"]@[i]@) =~= seq!["program"@]); }
    v.push(ToolSpec { name: "run_command", description: "Run an allowlisted command in the project root (no shell). Use it for toolchain commands like `dart analyze`; file operations should go through the dedicated tools.", parameters: params });
    // run_tests
    let mut f: Vec<(String, Json)> = Vec::new();
    f.push(kv("properties", object(Vec::new())));
    f.push(kv("type", jtext("object")));
    proof {
        assert(fields_view(Seq::<(String, Json)>::empty()) =~= Seq::<(Seq<char>, JValue)>::empty());
    }
    assert(fields_view(f@) =~= seq![
        ("properties"@, JValue::Object(Seq::empty())),
        ("type"@, JValue::Str("object"@)),
    ]);
    let params = object(f);
    v.push(ToolSpec { name: "run_tests", description: "Run the project's test suite (`dart test` for a pubspec project, `cargo test` for a Cargo project).", parameters: params });
    v
}

/// The OpenAI-compatible wire shape of a tool declaration.
pub open spec fn spec_wire(t: ToolSpec) -> JValue {
    JValue::Object(
        seq![
            ("function"@, JValue::Object(
                seq![
                    ("description"@, JValue::Str(t.description@)),
                    ("name"@, JValue::Str(t.name@)),
                    ("parameters"@, t.parameters@),
                ],
            )),
            ("type"@, JValue::Str("function"@)),
        ],
    )
}

impl ToolSpec {
    /// The OpenAI-compatible wire shape.
    pub fn wire(&self) -> (j: Json)
        ensures
            j@ == spec_wire(*self),
    {
        let mut fnf: Vec<(String, Json)> = Vec::new();
        fnf.push(kv("description", jtext(self.description)));
        fnf.push(kv("name", jtext(self.name)));
        fnf.push(kv("parameters", crate::json::copy_json(&self.parameters)));
        let ghost fv = fields_view(fnf@);
        let func = object(fnf);
        let mut f: Vec<(String, Json)> = Vec::new();
        f.push(kv("function", func));
        f.push(kv("type", jtext("function")));
        assert(fv =~= seq![
            ("description"@, JValue::Str(self.description@)),
            ("name"@, JValue::Str(self.name@)),
            ("parameters"@, self.parameters@),
        ]);
        assert(fields_view(f@) =~= seq![
            ("function"@, JValue::Object(fv)),
            ("type"@, JValue::Str("function"@)),
        ]);
        object(f)
    }
}

} // verus!
