//! Scoped retrieval policy: which provenance tags a granted portal scope
//! may read. An app granted `documents.read` must never receive a `mail`
//! chunk; retrieval filters by the tags computed here, and an unknown scope
//! grants nothing (deny by default).

use crate::text::{owned, str_eq};
use vstd::prelude::*;

verus! {

/// Every provenance tag, in alphabetical order.
pub open spec fn all_tags() -> Seq<Seq<char>> {
    seq!["calendar"@, "file"@, "mail"@, "screen"@, "web"@]
}

/// The tag a scope grants, if any. Both the portal scope names
/// (`documents.read`) and their short forms (`documents`) resolve.
pub open spec fn tag_of_scope(scope: Seq<char>) -> Option<Seq<char>> {
    if scope == "documents.read"@ || scope == "files.read"@ || scope == "documents"@ || scope
        == "files"@ {
        Some("file"@)
    } else if scope == "mail.read"@ || scope == "mail"@ {
        Some("mail"@)
    } else if scope == "calendar.read"@ || scope == "calendar"@ {
        Some("calendar"@)
    } else if scope == "screen.once"@ || scope == "screen.read"@ || scope == "screen"@ {
        Some("screen"@)
    } else if scope == "web.read"@ || scope == "web"@ {
        Some("web"@)
    } else {
        None
    }
}

pub open spec fn tags_of_scope(scope: Seq<char>) -> Seq<Seq<char>> {
    match tag_of_scope(scope) {
        Some(t) => seq![t],
        None => Seq::empty(),
    }
}

pub open spec fn str_views(v: Seq<&str>) -> Seq<Seq<char>> {
    Seq::new(v.len(), |i: int| v[i]@)
}

pub open spec fn opt_view(t: Option<&'static str>) -> Option<Seq<char>> {
    match t {
        Some(s) => Some(s@),
        None => None,
    }
}

/// The tag a scope grants, if any.
fn tag_for(scope: &str) -> (tag: Option<&'static str>)
    ensures
        opt_view(tag) == tag_of_scope(scope@),
{
    if str_eq(scope, "documents.read") || str_eq(scope, "files.read")
        || str_eq(scope, "documents") || str_eq(scope, "files") {
        Some("file")
    } else if str_eq(scope, "mail.read") || str_eq(scope, "mail") {
        Some("mail")
    } else if str_eq(scope, "calendar.read") || str_eq(scope, "calendar") {
        Some("calendar")
    } else if str_eq(scope, "screen.once") || str_eq(scope, "screen.read") || str_eq(
        scope,
        "screen",
    ) {
        Some("screen")
    } else if str_eq(scope, "web.read") || str_eq(scope, "web") {
        Some("web")
    } else {
        None
    }
}

/// Map a granted portal scope to the provenance tags it may read.
pub fn provenance_for_scope(scope: &str) -> (r: Vec<&'static str>)
    ensures
        str_views(r@) == tags_of_scope(scope@),
{
    let tag = tag_for(scope);
    let mut r: Vec<&'static str> = Vec::new();
    if let Some(t) = tag {
        r.push(t);
        assert(str_views(r@) =~= seq![t@]);
    } else {
        assert(str_views(r@) =~= Seq::<Seq<char>>::empty());
    }
    r
}

/// Some scope in `scopes` grants the tag `t`.
pub open spec fn granted(scopes: Seq<&str>, t: Seq<char>) -> bool {
    exists|i: int| 0 <= i < scopes.len() && tag_of_scope(scopes[i]@) == Some(t)
}

/// `t` when some scope grants it.
pub open spec fn if_granted(scopes: Seq<&str>, t: Seq<char>) -> Seq<Seq<char>> {
    if granted(scopes, t) {
        seq![t]
    } else {
        Seq::empty()
    }
}

/// All provenance tags the given scopes together permit, each once, in
/// alphabetical order.
pub open spec fn spec_allowed(scopes: Seq<&str>) -> Seq<Seq<char>> {
    if_granted(scopes, "calendar"@) + if_granted(scopes, "file"@) + if_granted(scopes, "mail"@)
        + if_granted(scopes, "screen"@) + if_granted(scopes, "web"@)
}

fn any_grants(scopes: &[&str], t: &str) -> (b: bool)
    ensures
        b == granted(scopes@, t@),
{
    let mut i: usize = 0;
    while i < scopes.len()
        invariant
            i <= scopes.len(),
            forall|j: int| 0 <= j < i ==> tag_of_scope(scopes@[j]@) != Some(t@),
        decreases scopes.len() - i,
    {
        let s = scopes[i];
        assert(s@ == scopes@[i as int]@);
        match tag_for(s) {
            Some(g) => {
                if str_eq(g, t) {
                    return true;
                }
            },
            None => {},
        }
        i = i + 1;
    }
    false
}

fn push_if_granted(r: &mut Vec<&'static str>, scopes: &[&str], t: &'static str)
    ensures
        str_views(final(r)@) == str_views(old(r)@) + if_granted(scopes@, t@),
{
    let ghost before = str_views(r@);
    if any_grants(scopes, t) {
        r.push(t);
        assert(str_views(r@) =~= before + seq![t@]);
    } else {
        assert(str_views(r@) =~= before + Seq::<Seq<char>>::empty());
    }
}

/// All provenance tags the given scopes together permit, sorted, without
/// duplicates.
pub fn allowed_provenance(scopes: &[&str]) -> (r: Vec<&'static str>)
    ensures
        str_views(r@) == spec_allowed(scopes@),
{
    let mut r: Vec<&'static str> = Vec::new();
    assert(str_views(r@) =~= Seq::<Seq<char>>::empty());
    push_if_granted(&mut r, scopes, "calendar");
    push_if_granted(&mut r, scopes, "file");
    push_if_granted(&mut r, scopes, "mail");
    push_if_granted(&mut r, scopes, "screen");
    push_if_granted(&mut r, scopes, "web");
    assert(str_views(r@) =~= spec_allowed(scopes@));
    r
}

/// The scopes together permit exactly the tags of `allowed_provenance`:
/// a tag is in it if and only if it is a known tag that some scope grants,
/// and no tag is in it twice.
#[verifier::spinoff_prover]
#[verifier::rlimit(40)]
pub proof fn lemma_allowed_exact(scopes: Seq<&str>, t: Seq<char>)
    ensures
        spec_allowed(scopes).contains(t) <==> (all_tags().contains(t) && granted(scopes, t)),
        spec_allowed(scopes).no_duplicates(),
{
    reveal_strlit("calendar");
    reveal_strlit("file");
    reveal_strlit("mail");
    reveal_strlit("screen");
    reveal_strlit("web");
    let tags = all_tags();
    assert(tags[0] == "calendar"@ && tags[1] == "file"@ && tags[2] == "mail"@ && tags[3] == "screen"@ && tags[4] == "web"@);
    assert(forall|i: int, j: int| 0 <= i < 5 && 0 <= j < 5 && i != j ==> tags[i][0] != tags[j][0]);
    let a = spec_allowed(scopes);
    let c = "calendar"@;
    let f = "file"@;
    let m = "mail"@;
    let sc = "screen"@;
    let w = "web"@;
    assert forall|i: int| 0 <= i < a.len() implies ((#[trigger] a[i] == c && granted(scopes, c)) || (
    a[i] == f && granted(scopes, f)) || (a[i] == m && granted(scopes, m)) || (a[i] == sc
        && granted(scopes, sc)) || (a[i] == w && granted(scopes, w))) by {}
    if tags.contains(t) && granted(scopes, t) {
        if t == c {
            assert(a[0] == t);
        } else if t == f {
            assert(a[if_granted(scopes, c).len() as int] == t);
        } else if t == m {
            assert(a[(if_granted(scopes, c).len() + if_granted(scopes, f).len()) as int] == t);
        } else if t == sc {
            assert(a[(if_granted(scopes, c).len() + if_granted(scopes, f).len() + if_granted(
                scopes,
                m,
            ).len()) as int] == t);
        } else {
            assert(t == tags[4]);
            assert(a[(if_granted(scopes, c).len() + if_granted(scopes, f).len() + if_granted(
                scopes,
                m,
            ).len() + if_granted(scopes, sc).len()) as int] == t);
        }
    }
    assert forall|i: int, j: int| 0 <= i < j < a.len() implies a[i] != a[j] by {
        assert(a[i][0] != a[j][0]);
    }
}

fn tag_listed(allowed: &Vec<&'static str>, p: &str) -> (b: bool)
    ensures
        b == str_views(allowed@).contains(p@),
{
    let mut i: usize = 0;
    while i < allowed.len()
        invariant
            i <= allowed.len(),
            forall|j: int| 0 <= j < i ==> allowed@[j]@ != p@,
        decreases allowed.len() - i,
    {
        if str_eq(allowed[i], p) {
            assert(str_views(allowed@)[i as int] == p@);
            return true;
        }
        i = i + 1;
    }
    assert forall|j: int| 0 <= j < str_views(allowed@).len() implies str_views(allowed@)[j] != p@ by {
        assert(str_views(allowed@)[j] == allowed@[j]@);
    }
    false
}

/// Which search hits, by their provenance tags, the granted `scopes` may
/// receive: a hit is kept exactly when some scope grants its tag, so a
/// chunk of disallowed provenance is never handed out, whatever the
/// index returned.
pub fn permitted_hits(scopes: &[&str], provenance: &Vec<String>) -> (keep: Vec<bool>)
    ensures
        keep@.len() == provenance@.len(),
        forall|i: int|
            0 <= i < provenance@.len() ==> (#[trigger] keep@[i] <==> spec_allowed(scopes@).contains(
                provenance@[i]@,
            )),
        forall|i: int|
            0 <= i < provenance@.len() ==> (keep@[i] <==> (all_tags().contains(provenance@[i]@)
                && granted(scopes@, #[trigger] provenance@[i]@))),
{
    let allowed = allowed_provenance(scopes);
    let mut keep: Vec<bool> = Vec::new();
    let mut i: usize = 0;
    while i < provenance.len()
        invariant
            i <= provenance@.len(),
            str_views(allowed@) == spec_allowed(scopes@),
            keep@.len() == i,
            forall|j: int|
                0 <= j < i ==> (#[trigger] keep@[j] <==> spec_allowed(scopes@).contains(
                    provenance@[j]@,
                )),
        decreases provenance@.len() - i,
    {
        let k = tag_listed(&allowed, provenance[i].as_str());
        keep.push(k);
        i = i + 1;
    }
    assert forall|i: int| 0 <= i < provenance@.len() implies (keep@[i] <==> (all_tags().contains(
        provenance@[i]@,
    ) && granted(scopes@, #[trigger] provenance@[i]@))) by {
        lemma_allowed_exact(scopes@, provenance@[i]@);
    }
    keep
}

/// The positions of the hits (by their provenance tags) that `scopes`
/// permit, in order.
pub open spec fn permitted_positions(scopes: Seq<&str>, provenance: Seq<String>) -> Seq<usize>
    decreases provenance.len(),
{
    if provenance.len() == 0 {
        Seq::empty()
    } else {
        let rest = permitted_positions(scopes, provenance.drop_last());
        if spec_allowed(scopes).contains(provenance.last()@) {
            rest.push((provenance.len() - 1) as usize)
        } else {
            rest
        }
    }
}

/// At most the first `n` of `s`.
pub open spec fn at_most(s: Seq<usize>, n: nat) -> Seq<usize> {
    if s.len() <= n {
        s
    } else {
        s.take(n as int)
    }
}

proof fn lemma_positions_in_range(scopes: Seq<&str>, provenance: Seq<String>)
    requires
        provenance.len() <= usize::MAX,
    ensures
        forall|k: int|
            0 <= k < permitted_positions(scopes, provenance).len() ==> {
                let j = #[trigger] permitted_positions(scopes, provenance)[k];
                &&& j < provenance.len()
                &&& spec_allowed(scopes).contains(provenance[j as int]@)
                &&& forall|k2: int|
                    0 <= k2 < k ==> permitted_positions(scopes, provenance)[k2] < j
            },
    decreases provenance.len(),
{
    if provenance.len() > 0 {
        let front = provenance.drop_last();
        lemma_positions_in_range(scopes, front);
        let rest = permitted_positions(scopes, front);
        let all = permitted_positions(scopes, provenance);
        assert forall|k: int| 0 <= k < all.len() implies {
            let j = #[trigger] all[k];
            &&& j < provenance.len()
            &&& spec_allowed(scopes).contains(provenance[j as int]@)
            &&& forall|k2: int| 0 <= k2 < k ==> all[k2] < j
        } by {
            if k < rest.len() {
                assert(all[k] == rest[k]);
                assert(front[rest[k] as int] == provenance[rest[k] as int]);
                assert forall|k2: int| 0 <= k2 < k implies all[k2] < all[k] by {
                    assert(all[k2] == rest[k2]);
                }
            } else {
                assert(all[k] == (provenance.len() - 1) as usize);
                assert forall|k2: int| 0 <= k2 < k implies all[k2] < all[k] by {
                    assert(all[k2] == rest[k2]);
                }
            }
        }
    }
}

/// The hits a scoped search hands out: of the hits the index returned,
/// in rank order, those whose provenance the granted `scopes` permit, and
/// no more than `limit` of them. With no grant there are none.
pub fn select_hits(scopes: &[&str], provenance: &Vec<String>, limit: usize) -> (r: Vec<usize>)
    ensures
        r@ == at_most(permitted_positions(scopes@, provenance@), limit as nat),
        r@.len() <= limit,
        forall|k: int|
            0 <= k < r@.len() ==> #[trigger] r@[k] < provenance@.len() && spec_allowed(scopes@).contains(
                provenance@[r@[k] as int]@,
            ),
        forall|k1: int, k2: int| 0 <= k1 < k2 < r@.len() ==> #[trigger] r@[k1] < #[trigger] r@[k2],
{
    let keep = permitted_hits(scopes, provenance);
    let mut out: Vec<usize> = Vec::new();
    let mut i: usize = 0;
    while i < provenance.len()
        invariant
            i <= provenance@.len(),
            keep@.len() == provenance@.len(),
            forall|j: int|
                0 <= j < provenance@.len() ==> (#[trigger] keep@[j] <==> spec_allowed(scopes@).contains(
                    provenance@[j]@,
                )),
            out@ == at_most(permitted_positions(scopes@, provenance@.take(i as int)), limit as nat),
        decreases provenance@.len() - i,
    {
        let ghost pre = provenance@.take(i as int);
        let ghost next = provenance@.take(i as int + 1);
        assert(next.drop_last() =~= pre);
        assert(next.last() == provenance@[i as int]);
        if keep[i] && out.len() < limit {
            out.push(i);
            assert(out@ =~= at_most(permitted_positions(scopes@, next), limit as nat));
        } else {
            assert(out@ =~= at_most(permitted_positions(scopes@, next), limit as nat));
        }
        i = i + 1;
    }
    assert(provenance@.take(provenance@.len() as int) =~= provenance@);
    proof {
        lemma_positions_in_range(scopes@, provenance@);
    }
    out
}

/// Every tag a scope grants is one of the known provenance tags.
pub proof fn lemma_scope_tags_known(scope: Seq<char>)
    ensures
        tag_of_scope(scope) matches Some(t) ==> all_tags().contains(t),
{
    if let Some(t) = tag_of_scope(scope) {
        if t == "calendar"@ {
            assert(all_tags()[0] == t);
        } else if t == "file"@ {
            assert(all_tags()[1] == t);
        } else if t == "mail"@ {
            assert(all_tags()[2] == t);
        } else if t == "screen"@ {
            assert(all_tags()[3] == t);
        } else {
            assert(all_tags()[4] == t);
        }
    }
}

/// `n` anonymous placeholders, comma-separated.
pub open spec fn placeholders(n: nat) -> Seq<char>
    decreases n,
{
    if n == 0 {
        Seq::empty()
    } else if n == 1 {
        "?"@
    } else {
        placeholders((n - 1) as nat) + ",?"@
    }
}

/// The scoped search query over `n` allowed provenance tags: the match
/// text, then the tags, then the limit bind positionally.
pub open spec fn spec_scoped_sql(n: nat) -> Seq<char> {
    "SELECT d.source, d.provenance,\n                    snippet(chunks, 0, '[', ']', ' … ', 12),\n                    bm25(chunks)\n             FROM chunks JOIN documents d ON d.id = chunks.doc_id\n             WHERE chunks MATCH ? AND d.provenance IN ("@ + placeholders(n) + ")\n             ORDER BY bm25(chunks) LIMIT ?"@
}

pub fn scoped_sql(n: usize) -> (s: String)
    ensures
        s@ == spec_scoped_sql(n as nat),
{
    let mut p = String::new();
    let mut i: usize = 0;
    while i < n
        invariant
            i <= n,
            p@ == placeholders(i as nat),
        decreases n - i,
    {
        if i == 0 {
            p.append("?");
        } else {
            p.append(",?");
        }
        i = i + 1;
    }
    let mut s = owned("SELECT d.source, d.provenance,\n                    snippet(chunks, 0, '[', ']', ' … ', 12),\n                    bm25(chunks)\n             FROM chunks JOIN documents d ON d.id = chunks.doc_id\n             WHERE chunks MATCH ? AND d.provenance IN (");
    s.append(p.as_str());
    s.append(")\n             ORDER BY bm25(chunks) LIMIT ?");
    s
}

/// The scope law: each portal scope and its short form grant the same
/// provenance tag (`documents.read`, `files.read`, `documents`, `files`:
/// file; `mail.read`, `mail`: mail; `calendar.read`, `calendar`: calendar;
/// `screen.once`, `screen.read`, `screen`: screen; `web.read`, `web`: web),
/// any other scope grants nothing, and a granted set holding one of them
/// lets that tag through.
pub proof fn lemma_scope_forms(scope: Seq<char>, scopes: Seq<&str>, i: int)
    ensures
        tags_of_scope("documents.read"@) == seq!["file"@],
        tags_of_scope("files.read"@) == seq!["file"@],
        tags_of_scope("documents"@) == seq!["file"@],
        tags_of_scope("files"@) == seq!["file"@],
        tags_of_scope("mail.read"@) == seq!["mail"@],
        tags_of_scope("mail"@) == seq!["mail"@],
        tags_of_scope("calendar.read"@) == seq!["calendar"@],
        tags_of_scope("calendar"@) == seq!["calendar"@],
        tags_of_scope("screen.once"@) == seq!["screen"@],
        tags_of_scope("screen.read"@) == seq!["screen"@],
        tags_of_scope("screen"@) == seq!["screen"@],
        tags_of_scope("web.read"@) == seq!["web"@],
        tags_of_scope("web"@) == seq!["web"@],
        (scope != "documents.read"@ && scope != "files.read"@ && scope != "documents"@ && scope != "files"@ && scope != "mail.read"@ && scope != "mail"@ && scope != "calendar.read"@ && scope != "calendar"@ && scope != "screen.once"@ && scope != "screen.read"@ && scope != "screen"@ && scope != "web.read"@ && scope != "web"@) ==> tags_of_scope(scope) == Seq::<Seq<char>>::empty(),
        0 <= i < scopes.len() && tags_of_scope(scopes[i]@).len() == 1 ==> spec_allowed(scopes).contains(
            tags_of_scope(scopes[i]@)[0],
        ),
{
    reveal_strlit("calendar");
    reveal_strlit("calendar.read");
    reveal_strlit("documents");
    reveal_strlit("documents.read");
    reveal_strlit("file");
    reveal_strlit("files");
    reveal_strlit("files.read");
    reveal_strlit("mail");
    reveal_strlit("mail.read");
    reveal_strlit("screen");
    reveal_strlit("screen.once");
    reveal_strlit("screen.read");
    reveal_strlit("web");
    reveal_strlit("web.read");
    assert("mail.read"@.len() != "documents.read"@.len());
    assert("mail.read"@.len() != "files.read"@.len());
    assert("mail.read"@[0] != "documents"@[0]);
    assert("mail.read"@.len() != "files"@.len());
    assert("mail"@.len() != "documents.read"@.len());
    assert("mail"@.len() != "files.read"@.len());
    assert("mail"@.len() != "documents"@.len());
    assert("mail"@.len() != "files"@.len());
    assert("calendar.read"@.len() != "documents.read"@.len());
    assert("calendar.read"@.len() != "files.read"@.len());
    assert("calendar.read"@.len() != "documents"@.len());
    assert("calendar.read"@.len() != "files"@.len());
    assert("calendar.read"@.len() != "mail.read"@.len());
    assert("calendar.read"@.len() != "mail"@.len());
    assert("calendar"@.len() != "documents.read"@.len());
    assert("calendar"@.len() != "files.read"@.len());
    assert("calendar"@.len() != "documents"@.len());
    assert("calendar"@.len() != "files"@.len());
    assert("calendar"@.len() != "mail.read"@.len());
    assert("calendar"@.len() != "mail"@.len());
    assert("screen.once"@.len() != "documents.read"@.len());
    assert("screen.once"@.len() != "files.read"@.len());
    assert("screen.once"@.len() != "documents"@.len());
    assert("screen.once"@.len() != "files"@.len());
    assert("screen.once"@.len() != "mail.read"@.len());
    assert("screen.once"@.len() != "mail"@.len());
    assert("screen.once"@.len() != "calendar.read"@.len());
    assert("screen.once"@.len() != "calendar"@.len());
    assert("screen.read"@.len() != "documents.read"@.len());
    assert("screen.read"@.len() != "files.read"@.len());
    assert("screen.read"@.len() != "documents"@.len());
    assert("screen.read"@.len() != "files"@.len());
    assert("screen.read"@.len() != "mail.read"@.len());
    assert("screen.read"@.len() != "mail"@.len());
    assert("screen.read"@.len() != "calendar.read"@.len());
    assert("screen.read"@.len() != "calendar"@.len());
    assert("screen"@.len() != "documents.read"@.len());
    assert("screen"@.len() != "files.read"@.len());
    assert("screen"@.len() != "documents"@.len());
    assert("screen"@.len() != "files"@.len());
    assert("screen"@.len() != "mail.read"@.len());
    assert("screen"@.len() != "mail"@.len());
    assert("screen"@.len() != "calendar.read"@.len());
    assert("screen"@.len() != "calendar"@.len());
    assert("web.read"@.len() != "documents.read"@.len());
    assert("web.read"@.len() != "files.read"@.len());
    assert("web.read"@.len() != "documents"@.len());
    assert("web.read"@.len() != "files"@.len());
    assert("web.read"@.len() != "mail.read"@.len());
    assert("web.read"@.len() != "mail"@.len());
    assert("web.read"@.len() != "calendar.read"@.len());
    assert("web.read"@[0] != "calendar"@[0]);
    assert("web.read"@.len() != "screen.once"@.len());
    assert("web.read"@.len() != "screen.read"@.len());
    assert("web.read"@.len() != "screen"@.len());
    assert("web"@.len() != "documents.read"@.len());
    assert("web"@.len() != "files.read"@.len());
    assert("web"@.len() != "documents"@.len());
    assert("web"@.len() != "files"@.len());
    assert("web"@.len() != "mail.read"@.len());
    assert("web"@.len() != "mail"@.len());
    assert("web"@.len() != "calendar.read"@.len());
    assert("web"@.len() != "calendar"@.len());
    assert("web"@.len() != "screen.once"@.len());
    assert("web"@.len() != "screen.read"@.len());
    assert("web"@.len() != "screen"@.len());
    if 0 <= i < scopes.len() && tags_of_scope(scopes[i]@).len() == 1 {
        let t = tag_of_scope(scopes[i]@)->Some_0;
        assert(granted(scopes, t));
        lemma_scope_tags_known(scopes[i]@);
        lemma_allowed_exact(scopes, t);
    }
}

} // verus!
