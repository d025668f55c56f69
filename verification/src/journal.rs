//! The undo journal's logic: journaled actions, and building an
//! action's compensation arguments from its manifest `undo.map` — each
//! value a literal, `$input`/`$result`, or a dotted path into either.

use crate::json::{copy_json, fields_view, get, json_view, lemma_object_view, member, JValue, Json};
use crate::manifest::UndoDecl;
use crate::text::{find_char, index_of, is_prefix, lemma_index_of, owned, starts_with};
use vstd::prelude::*;

verus! {

/// One journaled action. `state`: "active" | "undone" | "skipped".
#[derive(Debug, Clone)]
pub struct JournalEntry {
    pub id: i64,
    /// Unix milliseconds.
    pub ts: i64,
    /// Ledger id of the `tool.call` entry this action belongs to.
    pub ledger_ref: i64,
    pub actor: String,
    pub app_id: String,
    pub tool: String,
    pub args_json: String,
    pub result_json: String,
    pub undo_tool: Option<String>,
    pub undo_args_json: Option<String>,
    pub state: String,
}

/// The non-empty pieces of `p` between dots.
pub open spec fn segments(p: Seq<char>) -> Seq<Seq<char>>
    decreases p.len(),
{
    let j = index_of(p, '.');
    if j < 0 || j >= p.len() {
        if p.len() == 0 {
            Seq::empty()
        } else {
            seq![p]
        }
    } else {
        let rest = segments(p.skip(j + 1));
        if j == 0 {
            rest
        } else {
            seq![p.take(j)] + rest
        }
    }
}

/// Follow object members named by `segs` from `root`.
pub open spec fn spec_walk(root: Json, segs: Seq<Seq<char>>) -> Option<Json>
    decreases segs.len(),
{
    if segs.len() == 0 {
        Some(root)
    } else {
        match member(root, segs[0]) {
            Some(child) => spec_walk(child, segs.drop_first()),
            None => None,
        }
    }
}

proof fn lemma_walk_step(root: Json, segs: Seq<Seq<char>>, more: Seq<Seq<char>>)
    ensures
        spec_walk(root, segs + more) == match spec_walk(root, segs) {
            Some(v) => spec_walk(v, more),
            None => None,
        },
    decreases segs.len(),
{
    if segs.len() > 0 {
        assert((segs + more).drop_first() =~= segs.drop_first() + more);
        match member(root, segs[0]) {
            Some(child) => lemma_walk_step(child, segs.drop_first(), more),
            None => {},
        }
    } else {
        assert(segs + more =~= more);
    }
}

/// The value at the dotted path `dotted` (from `from` on) inside `root`.
pub fn walk<'a>(root: &'a Json, dotted: &str, from: usize) -> (r: Option<&'a Json>)
    requires
        from <= dotted@.len(),
    ensures
        match r {
            Some(v) => spec_walk(*root, segments(dotted@.skip(from as int))) == Some(*v),
            None => spec_walk(*root, segments(dotted@.skip(from as int))) is None,
        },
{
    let n = dotted.unicode_len();
    let mut current: &Json = root;
    let mut start = from;
    while start < n
        invariant
            n == dotted@.len(),
            from <= start <= n,
            spec_walk(*root, segments(dotted@.skip(from as int))) == spec_walk(
                *current,
                segments(dotted@.skip(start as int)),
            ),
        decreases n - start,
    {
        let j = find_char(dotted, '.', start);
        let ghost p = dotted@.skip(start as int);
        proof {
            lemma_index_of(p, '.');
            if j < n {
                assert(p[j - start] == '.');
                assert forall|k: int| 0 <= k < j - start implies p[k] != '.' by {
                    assert(p[k] == dotted@[k + start]);
                }
                assert(index_of(p, '.') == j - start);
                assert(p.skip(j - start + 1) =~= dotted@.skip(j + 1));
            } else {
                assert forall|k: int| 0 <= k < p.len() implies p[k] != '.' by {
                    assert(p[k] == dotted@[k + start]);
                }
            }
        }
        if j > start {
            let seg = dotted.substring_char(start, j);
            assert(seg@ =~= p.take(j - start));
            proof {
                lemma_walk_step(*current, seq![seg@], segments(if j < n {
                    p.skip(j - start + 1)
                } else {
                    Seq::empty()
                }));
                if j < n {
                    assert(segments(p) == seq![seg@] + segments(p.skip(j - start + 1)));
                } else {
                    assert(seg@ =~= p);
                    assert(segments(p) == seq![seg@]);
                    assert(seq![seg@] + segments(Seq::<char>::empty()) =~= seq![seg@]);
                }
            }
            match get(current, seg) {
                Some(child) => {
                    proof {
                        reveal_with_fuel(spec_walk, 2);
                        assert(spec_walk(*current, seq![seg@]) == Some(*child));
                    }
                    current = child;
                },
                None => {
                    return None;
                },
            }
        }
        proof {
            if j == start {
                assert(segments(p) == segments(p.skip(1)));
            }
        }
        if j < n {
            start = j + 1;
        } else {
            assert(dotted@.skip(n as int) =~= Seq::<char>::empty());
            start = n;
        }
    }
    proof {
        assert(dotted@.skip(start as int) =~= Seq::<char>::empty());
    }
    Some(current)
}

/// One compensation argument built from its spec: `$result…` and
/// `$input…` walk into the call's result and input, anything else is a
/// literal string.
pub open spec fn undo_arg(spec: Seq<char>, input: Json, result: Json) -> Result<
    JValue,
    Seq<char>,
> {
    if is_prefix("$result"@, spec) {
        match spec_walk(result, segments(spec.skip(7))) {
            Some(v) => Ok(json_view(v)),
            None => Err(spec + ": not present in result"@),
        }
    } else if is_prefix("$input"@, spec) {
        match spec_walk(input, segments(spec.skip(6))) {
            Some(v) => Ok(json_view(v)),
            None => Err(spec + ": not present in input"@),
        }
    } else {
        Ok(JValue::Str(spec))
    }
}

/// The compensation arguments for `map`, in its order; the first entry
/// that cannot be resolved gives the error.
pub open spec fn spec_resolve_undo(map: Seq<(String, String)>, input: Json, result: Json) -> Result<
    Seq<(Seq<char>, JValue)>,
    Seq<char>,
>
    decreases map.len(),
{
    if map.len() == 0 {
        Ok(Seq::empty())
    } else {
        match spec_resolve_undo(map.drop_last(), input, result) {
            Err(e) => Err(e),
            Ok(done) => match undo_arg(map.last().1@, input, result) {
                Err(e) => Err(e),
                Ok(v) => Ok(done.push((map.last().0@, v))),
            },
        }
    }
}

fn with_suffix(s: &str, suffix: &str) -> (r: String)
    ensures
        r@ == s@ + suffix@,
{
    let mut r = owned(s);
    r.append(suffix);
    r
}

/// Build the compensation args for an executed call from its manifest
/// `undo.map`.
pub fn resolve_undo(decl: &UndoDecl, input: &Json, result: &Json) -> (r: Result<Json, String>)
    ensures
        match spec_resolve_undo(decl.map@, *input, *result) {
            Ok(fields) => r is Ok && r->Ok_0@ == JValue::Object(fields),
            Err(e) => r is Err && r->Err_0@ == e,
        },
{
    let mut args: Vec<(String, Json)> = Vec::new();
    let mut i: usize = 0;
    while i < decl.map.len()
        invariant
            i <= decl.map.len(),
            spec_resolve_undo(decl.map@.take(i as int), *input, *result) is Ok,
            fields_view(args@) == spec_resolve_undo(decl.map@.take(i as int), *input, *result)->Ok_0,
        decreases decl.map.len() - i,
    {
        let key = &decl.map[i].0;
        let spec = decl.map[i].1.as_str();
        let ghost pre = decl.map@.take(i as int);
        assert(decl.map@.take(i as int + 1).drop_last() =~= pre);
        assert(decl.map@.take(i as int + 1).last() == decl.map@[i as int]);
        let value = if starts_with(spec, "$result") {
            proof { reveal_strlit("$result"); }
            match walk(result, spec, 7) {
                Some(v) => copy_json(v),
                None => {
                    proof {
                        lemma_prefix_error(decl.map@, i as int, *input, *result);
                    }
                    return Err(with_suffix(spec, ": not present in result"));
                },
            }
        } else if starts_with(spec, "$input") {
            proof { reveal_strlit("$input"); }
            match walk(input, spec, 6) {
                Some(v) => copy_json(v),
                None => {
                    proof {
                        lemma_prefix_error(decl.map@, i as int, *input, *result);
                    }
                    return Err(with_suffix(spec, ": not present in input"));
                },
            }
        } else {
            Json::Str(owned(spec))
        };
        let ghost before = args@;
        args.push((key.clone(), value));
        proof {
            let done = spec_resolve_undo(pre, *input, *result)->Ok_0;
            let next = spec_resolve_undo(decl.map@.take(i as int + 1), *input, *result);
            assert(next == Ok::<Seq<(Seq<char>, JValue)>, Seq<char>>(
                done.push((key@, json_view(value))),
            ));
            assert(fields_view(args@) =~= done.push((key@, json_view(value))));
        }
        i = i + 1;
    }
    assert(decl.map@.take(decl.map.len() as int) =~= decl.map@);
    proof {
        lemma_object_view(args);
    }
    Ok(Json::Object(args))
}

/// When entry `i` fails and every earlier one resolved, the whole map
/// fails with entry `i`'s error.
proof fn lemma_prefix_error(map: Seq<(String, String)>, i: int, input: Json, result: Json)
    requires
        0 <= i < map.len(),
        spec_resolve_undo(map.take(i), input, result) is Ok,
        undo_arg(map[i].1@, input, result) is Err,
    ensures
        spec_resolve_undo(map, input, result) == Err::<Seq<(Seq<char>, JValue)>, Seq<char>>(
            undo_arg(map[i].1@, input, result)->Err_0,
        ),
    decreases map.len() - i,
{
    assert(map.take(i + 1).drop_last() =~= map.take(i));
    if i + 1 < map.len() {
        lemma_error_sticks(map, i + 1, input, result);
    } else {
        assert(map.take(i + 1) =~= map);
    }
}

/// Once a prefix fails, every longer prefix fails the same way.
proof fn lemma_error_sticks(map: Seq<(String, String)>, k: int, input: Json, result: Json)
    requires
        0 < k <= map.len(),
        spec_resolve_undo(map.take(k), input, result) is Err,
    ensures
        spec_resolve_undo(map, input, result) == spec_resolve_undo(map.take(k), input, result),
    decreases map.len() - k,
{
    if k == map.len() {
        assert(map.take(k) =~= map);
    } else {
        assert(map.take(k + 1).drop_last() =~= map.take(k));
        lemma_error_sticks(map, k + 1, input, result);
    }
}

} // verus!
