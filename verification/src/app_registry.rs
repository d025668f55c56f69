//! The registry of installed app manifests and tool discovery: listing
//! every tool (app, then name order) and ranking tools against a
//! natural-language query by token overlap.

use crate::json::{copy_json, fields_view, items_view, object, JValue, Json};
use crate::manifest::tier_name;
use crate::manifest::{manifest_error_text, manifest_problem, validate, Manifest, ManifestError, Tier, ToolDecl};
use crate::text::{ascii_alnum, is_ascii_alnum, lemma_lex_strict, lemma_lex_trans, lex_lt, owned, str_eq, str_lt, strings_view};
use vstd::multiset::Multiset;
use vstd::prelude::*;

verus! {

/// Discovery/listing view of one tool.
pub struct ToolRef {
    pub app_id: String,
    pub name: String,
    pub tier: Tier,
    pub description: String,
    pub undoable: bool,
    /// The tool's argument schema, verbatim from its manifest.
    pub input_schema: Json,
}

/// What loading a set of manifest files did: the app ids installed, and
/// each file skipped with its reason.
#[derive(Debug, Default)]
pub struct LoadReport {
    pub loaded: Vec<String>,
    pub skipped: Vec<(String, String)>,
}

/// Installed manifests, one per app id, in app-id order.
pub struct Registry {
    apps: Vec<Manifest>,
}

/// App ids strictly increasing.
pub open spec fn ids_sorted(apps: Seq<Manifest>) -> bool {
    forall|i: int, j: int| 0 <= i < j < apps.len() ==> lex_lt(#[trigger] apps[i].app_id@, #[trigger] apps[j].app_id@)
}

/// The installed manifests as a map from app id.
pub open spec fn app_map(apps: Seq<Manifest>) -> Map<Seq<char>, Manifest> {
    Map::new(
        |k: Seq<char>| exists|i: int| 0 <= i < apps.len() && apps[i].app_id@ == k,
        |k: Seq<char>| apps[app_pos(apps, k)],
    )
}

/// A position of `k` among the app ids.
pub open spec fn app_pos(apps: Seq<Manifest>, k: Seq<char>) -> int {
    choose|i: int| 0 <= i < apps.len() && apps[i].app_id@ == k
}

proof fn lemma_sorted_unique(apps: Seq<Manifest>, i: int, j: int)
    requires
        ids_sorted(apps),
        0 <= i < apps.len(),
        0 <= j < apps.len(),
        apps[i].app_id@ == apps[j].app_id@,
    ensures
        i == j,
{
    lemma_lex_strict(apps[i].app_id@, apps[i].app_id@);
}

proof fn lemma_app_map_at(apps: Seq<Manifest>, i: int)
    requires
        ids_sorted(apps),
        0 <= i < apps.len(),
    ensures
        app_map(apps).contains_key(apps[i].app_id@),
        app_map(apps)[apps[i].app_id@] == apps[i],
{
    let k = apps[i].app_id@;
    assert(exists|j: int| 0 <= j < apps.len() && apps[j].app_id@ == k);
    let c = app_pos(apps, k);
    lemma_sorted_unique(apps, i, c);
    assert(app_map(apps)[k] == apps[c]);
}

impl Registry {
    #[verifier::type_invariant]
    spec fn inv(&self) -> bool {
        ids_sorted(self.apps@)
    }

    /// The installed manifests, in app-id order.
    pub closed spec fn apps(&self) -> Seq<Manifest> {
        self.apps@
    }

    /// The installed manifests by app id.
    pub closed spec fn installed(&self) -> Map<Seq<char>, Manifest> {
        app_map(self.apps@)
    }

    pub fn new() -> (r: Registry)
        ensures
            r.apps().len() == 0,
            r.installed() == Map::<Seq<char>, Manifest>::empty(),
    {
        let r = Registry { apps: Vec::new() };
        assert(r.installed() =~= Map::<Seq<char>, Manifest>::empty());
        r
    }

    /// Install or update (replace) one app's manifest, once it validates;
    /// a refused manifest leaves the registry as it was.
    pub fn insert(&mut self, manifest: Manifest) -> (r: Result<(), ManifestError>)
        ensures
            manifest_problem(manifest) is None ==> r is Ok && final(self).installed() == old(
                self,
            ).installed().insert(manifest.app_id@, manifest),
            manifest_problem(manifest) matches Some(p) ==> (r matches Err(e) && manifest_error_text(e) == p
                && final(self).installed() == old(self).installed()),
    {
        match validate(&manifest) {
            Ok(()) => {
                self.install(manifest);
                Ok(())
            },
            Err(e) => Err(e),
        }
    }

    fn install(&mut self, manifest: Manifest)
        ensures
            final(self).installed() == old(self).installed().insert(manifest.app_id@, manifest),
    {
        proof {
            use_type_invariant(&*self);
        }
        let ghost before = self.apps@;
        let ghost key = manifest.app_id@;
        let mut i: usize = 0;
        while i < self.apps.len() && str_lt(self.apps[i].app_id.as_str(), manifest.app_id.as_str())
            invariant
                i <= self.apps.len(),
                self.apps@ == before,
                key == manifest.app_id@,
                ids_sorted(before),
                forall|j: int| 0 <= j < i ==> lex_lt(#[trigger] before[j].app_id@, key),
            decreases self.apps.len() - i,
        {
            i = i + 1;
        }
        let replace = i < self.apps.len() && str_eq(self.apps[i].app_id.as_str(), manifest.app_id.as_str());
        let mut apps: Vec<Manifest> = Vec::new();
        std::mem::swap(&mut apps, &mut self.apps);
        if replace {
            apps.set(i, manifest);
        } else {
            apps.insert(i, manifest);
        }
        proof {
            let after = apps@;
            if !replace && i < before.len() {
                lemma_lex_strict(key, before[i as int].app_id@);
            }
            assert forall|a: int, b: int| 0 <= a < b < after.len() implies lex_lt(
                #[trigger] after[a].app_id@,
                #[trigger] after[b].app_id@,
            ) by {
                if replace {
                    if a == i {
                        assert(lex_lt(before[a].app_id@, before[b].app_id@));
                    } else if b == i {
                        assert(lex_lt(before[a].app_id@, before[b].app_id@));
                    }
                } else {
                    if a < i && b == i {
                    } else if a == i && b > i {
                        if b == i + 1 {
                        } else {
                            assert(lex_lt(before[i as int].app_id@, before[b - 1].app_id@));
                            lemma_lex_trans(key, before[i as int].app_id@, before[b - 1].app_id@);
                        }
                    } else if a < i && b > i {
                        assert(lex_lt(before[a].app_id@, before[b - 1].app_id@));
                    } else if a > i {
                        assert(lex_lt(before[a - 1].app_id@, before[b - 1].app_id@));
                    }
                }
            }
            assert(ids_sorted(after));
            let expect = app_map(before).insert(key, manifest);
            assert forall|k: Seq<char>| #[trigger] app_map(after).contains_key(k) == expect.contains_key(k) by {
                if app_map(after).contains_key(k) {
                    let c = choose|j: int| 0 <= j < after.len() && after[j].app_id@ == k;
                    if k != key {
                        if replace {
                            assert(before[c].app_id@ == k);
                        } else if c < i {
                            assert(before[c].app_id@ == k);
                        } else {
                            assert(before[c - 1].app_id@ == k);
                        }
                    }
                }
                if expect.contains_key(k) && k != key {
                    let c = choose|j: int| 0 <= j < before.len() && before[j].app_id@ == k;
                    if replace {
                        assert(after[c].app_id@ == k);
                    } else if c < i {
                        assert(after[c].app_id@ == k);
                    } else {
                        assert(after[c + 1].app_id@ == k);
                    }
                }
                if k == key {
                    assert(after[i as int].app_id@ == k);
                }
            }
            assert forall|k: Seq<char>| #[trigger] app_map(after).contains_key(k) implies app_map(after)[k] == expect[k] by {
                let c = choose|j: int| 0 <= j < after.len() && after[j].app_id@ == k;
                lemma_app_map_at(after, c);
                if k == key {
                    lemma_app_map_at(after, i as int);
                } else {
                    if replace {
                        lemma_app_map_at(before, c);
                    } else if c < i {
                        lemma_app_map_at(before, c);
                    } else {
                        lemma_app_map_at(before, c - 1);
                    }
                }
            }
            assert(app_map(after) =~= expect);
        }
        self.apps = apps;
    }

    pub fn len(&self) -> (n: usize)
        ensures
            n == self.apps().len(),
            n == self.installed().len(),
    {
        proof {
            use_type_invariant(self);
            lemma_map_len(self.apps@);
        }
        self.apps.len()
    }

    pub fn is_empty(&self) -> (b: bool)
        ensures
            b == (self.installed().len() == 0),
    {
        proof {
            use_type_invariant(self);
            lemma_map_len(self.apps@);
        }
        self.apps.len() == 0
    }

    /// The manifest installed under `app_id`.
    pub fn manifest(&self, app_id: &str) -> (r: Option<&Manifest>)
        ensures
            match r {
                Some(m) => self.installed().contains_key(app_id@) && *m == self.installed()[app_id@],
                None => !self.installed().contains_key(app_id@),
            },
    {
        proof {
            use_type_invariant(self);
        }
        let mut i: usize = 0;
        while i < self.apps.len()
            invariant
                i <= self.apps.len(),
                ids_sorted(self.apps@),
                forall|j: int| 0 <= j < i ==> self.apps@[j].app_id@ != app_id@,
            decreases self.apps.len() - i,
        {
            if str_eq(self.apps[i].app_id.as_str(), app_id) {
                proof {
                    lemma_app_map_at(self.apps@, i as int);
                }
                return Some(&self.apps[i]);
            }
            i = i + 1;
        }
        None
    }

    /// The tool `name` of the app `app_id`.
    pub fn tool(&self, app_id: &str, name: &str) -> (r: Option<&ToolDecl>)
        ensures
            match r {
                Some(t) => self.installed().contains_key(app_id@) && self.installed()[app_id@].spec_tool(
                    name@,
                ) == Some(*t),
                None => !self.installed().contains_key(app_id@) || self.installed()[app_id@].spec_tool(
                    name@,
                ) is None,
            },
    {
        match self.manifest(app_id) {
            Some(m) => m.tool(name),
            None => None,
        }
    }
}

proof fn lemma_map_len(apps: Seq<Manifest>)
    requires
        ids_sorted(apps),
    ensures
        app_map(apps).len() == apps.len(),
        app_map(apps).dom().finite(),
    decreases apps.len(),
{
    if apps.len() == 0 {
        assert(app_map(apps).dom() =~= Set::<Seq<char>>::empty());
    } else {
        let rest = apps.drop_last();
        assert(ids_sorted(rest)) by {
            assert forall|i: int, j: int| 0 <= i < j < rest.len() implies lex_lt(
                #[trigger] rest[i].app_id@,
                #[trigger] rest[j].app_id@,
            ) by {
                assert(rest[i] == apps[i] && rest[j] == apps[j]);
            }
        }
        lemma_map_len(rest);
        let k = apps.last().app_id@;
        assert(!app_map(rest).dom().contains(k)) by {
            if app_map(rest).dom().contains(k) {
                let c = choose|j: int| 0 <= j < rest.len() && rest[j].app_id@ == k;
                lemma_sorted_unique(apps, c, apps.len() - 1);
            }
        }
        assert(app_map(apps).dom() =~= app_map(rest).dom().insert(k)) by {
            assert forall|x: Seq<char>| app_map(apps).dom().contains(x) implies app_map(rest).dom().contains(x) || x == k by {
                let c = choose|j: int| 0 <= j < apps.len() && apps[j].app_id@ == x;
                if c < apps.len() - 1 {
                    assert(rest[c].app_id@ == x);
                }
            }
            assert forall|x: Seq<char>| app_map(rest).dom().contains(x) implies app_map(apps).dom().contains(x) by {
                let c = choose|j: int| 0 <= j < rest.len() && rest[j].app_id@ == x;
                assert(apps[c].app_id@ == x);
            }
            assert(apps[apps.len() - 1].app_id@ == k);
        }
    }
}

/// A tool reference as the specification sees it.
pub struct ToolRefView {
    pub app_id: Seq<char>,
    pub name: Seq<char>,
    pub tier: Tier,
    pub description: Seq<char>,
    pub undoable: bool,
    pub input_schema: JValue,
}

impl View for ToolRef {
    type V = ToolRefView;

    open spec fn view(&self) -> ToolRefView {
        ToolRefView {
            app_id: self.app_id@,
            name: self.name@,
            tier: self.tier,
            description: self.description@,
            undoable: self.undoable,
            input_schema: self.input_schema@,
        }
    }
}

/// The reference to tool `t` of app `app_id`.
pub open spec fn ref_of(app_id: Seq<char>, t: ToolDecl) -> ToolRefView {
    ToolRefView {
        app_id,
        name: t.name@,
        tier: t.tier,
        description: t.description@,
        undoable: t.undo is Some,
        input_schema: t.input_schema@,
    }
}

/// The references to the tools of one manifest, in declaration order.
pub open spec fn app_refs(m: Manifest) -> Seq<ToolRefView> {
    Seq::new(m.tools@.len(), |i: int| ref_of(m.app_id@, m.tools@[i]))
}

/// Every tool of every installed app: apps in order, each app's tools in
/// declaration order.
pub open spec fn all_refs(apps: Seq<Manifest>) -> Seq<ToolRefView>
    decreases apps.len(),
{
    if apps.len() == 0 {
        Seq::empty()
    } else {
        all_refs(apps.drop_last()) + app_refs(apps.last())
    }
}

/// `str::to_lowercase` (Unicode lower-casing).
pub uninterp spec fn spec_lowercase(s: Seq<char>) -> Seq<char>;

/// `str::to_lowercase`: the Unicode lower-case form of `s`. The mapping
/// itself is named, not stated.
#[verifier::external_body]
fn lowercase(s: &str) -> (r: String)
    ensures
        r@ == spec_lowercase(s@),
{
    s.to_lowercase()
}

/// Length of the leading run of ASCII letters and digits of `s`.
pub open spec fn word_len(s: Seq<char>) -> nat
    decreases s.len(),
{
    if s.len() == 0 || !is_ascii_alnum(s[0]) {
        0
    } else {
        1 + word_len(s.drop_first())
    }
}

/// The maximal runs of ASCII letters and digits of `s`, in order.
pub open spec fn words(s: Seq<char>) -> Seq<Seq<char>>
    decreases s.len(),
{
    if s.len() == 0 {
        Seq::empty()
    } else {
        let j = word_len(s);
        if j == 0 {
            words(s.drop_first())
        } else if j >= s.len() {
            seq![s]
        } else {
            seq![s.take(j as int)] + words(s.skip(j as int + 1))
        }
    }
}

proof fn lemma_word_len(s: Seq<char>)
    ensures
        word_len(s) <= s.len(),
        forall|i: int| 0 <= i < word_len(s) ==> is_ascii_alnum(#[trigger] s[i]),
        word_len(s) < s.len() ==> !is_ascii_alnum(s[word_len(s) as int]),
    decreases s.len(),
{
    if s.len() > 0 && is_ascii_alnum(s[0]) {
        lemma_word_len(s.drop_first());
        assert forall|i: int| 0 <= i < word_len(s) implies is_ascii_alnum(#[trigger] s[i]) by {
            if i > 0 {
                assert(s[i] == s.drop_first()[i - 1]);
            }
        }
    }
}

/// The word run of `s.skip(from)` ends at the returned position.
fn word_end(s: &str, from: usize) -> (e: usize)
    requires
        from <= s@.len(),
    ensures
        from <= e <= s@.len(),
        e - from == word_len(s@.skip(from as int)),
{
    let n = s.unicode_len();
    let mut i = from;
    while i < n && ascii_alnum(s.get_char(i))
        invariant
            n == s@.len(),
            from <= i <= n,
            word_len(s@.skip(from as int)) == (i - from) + word_len(s@.skip(i as int)),
        decreases n - i,
    {
        assert(s@.skip(i as int).drop_first() =~= s@.skip(i as int + 1));
        i = i + 1;
    }
    i
}


/// The words of `s` (ASCII letter-and-digit runs).
pub fn split_words(s: &str) -> (r: Vec<String>)
    ensures
        strings_view(r@) == words(s@),
{
    let n = s.unicode_len();
    let mut out: Vec<String> = Vec::new();
    let mut i: usize = 0;
    assert(s@.skip(0) =~= s@);
    while i < n
        invariant
            n == s@.len(),
            i <= n,
            words(s@) == strings_view(out@) + words(s@.skip(i as int)),
        decreases n - i,
    {
        let ghost rest = s@.skip(i as int);
        let e = word_end(s, i);
        proof {
            lemma_word_len(rest);
        }
        if e == i {
            assert(rest.drop_first() =~= s@.skip(i as int + 1));
            i = i + 1;
        } else {
            let w = s.substring_char(i, e);
            assert(w@ =~= rest.take((e - i) as int));
            let ghost before = out@;
            out.push(owned(w));
            assert(strings_view(out@) =~= strings_view(before).push(w@));
            if e >= n {
                assert(w@ =~= rest);
                assert(words(rest) == seq![rest]);
                assert(s@.skip(n as int) =~= Seq::<char>::empty());
                assert(strings_view(before) + seq![rest] =~= strings_view(out@) + Seq::<Seq<char>>::empty());
                i = n;
            } else {
                assert(rest.skip((e - i) + 1) =~= s@.skip(e as int + 1));
                assert(strings_view(before) + (seq![w@] + words(s@.skip(e as int + 1)))
                    =~= strings_view(out@) + words(s@.skip(e as int + 1)));
                i = e + 1;
            }
        }
    }
    assert(s@.skip(n as int) =~= Seq::<char>::empty());
    assert(strings_view(out@) + Seq::<Seq<char>>::empty() =~= strings_view(out@));
    out
}

/// The search tokens of `text`: the ASCII letter-and-digit runs of its
/// lower-cased form.
pub open spec fn tokens(text: Seq<char>) -> Seq<Seq<char>> {
    words(spec_lowercase(text))
}

pub fn text_tokens(text: &str) -> (r: Vec<String>)
    ensures
        strings_view(r@) == tokens(text@),
{
    let lowered = lowercase(text);
    split_words(lowered.as_str())
}

fn has_token(toks: &Vec<String>, q: &str) -> (b: bool)
    ensures
        b == strings_view(toks@).contains(q@),
{
    let mut i: usize = 0;
    while i < toks.len()
        invariant
            i <= toks.len(),
            forall|j: int| 0 <= j < i ==> toks@[j]@ != q@,
        decreases toks.len() - i,
    {
        if str_eq(toks[i].as_str(), q) {
            assert(strings_view(toks@)[i as int] == q@);
            return true;
        }
        i = i + 1;
    }
    assert forall|j: int| 0 <= j < strings_view(toks@).len() implies strings_view(toks@)[j] != q@ by {}
    false
}

/// What one query token adds to a tool's score: 3 for a name-token hit,
/// 1 for a description- or app-id-token hit, else 0.
pub open spec fn token_weight(q: Seq<char>, t: ToolRefView) -> nat {
    if tokens(t.name).contains(q) {
        3
    } else if tokens(t.description).contains(q) || tokens(t.app_id).contains(q) {
        1
    } else {
        0
    }
}

/// A tool's overlap score against the query tokens `qs`.
pub open spec fn score(qs: Seq<Seq<char>>, t: ToolRefView) -> nat
    decreases qs.len(),
{
    if qs.len() == 0 {
        0
    } else {
        score(qs.drop_last(), t) + token_weight(qs.last(), t)
    }
}

fn score_of(qs: &Vec<String>, t: &ToolRef) -> (s: u128)
    ensures
        s == score(strings_view(qs@), t@),
{
    let name_t = text_tokens(t.name.as_str());
    let desc_t = text_tokens(t.description.as_str());
    let app_t = text_tokens(t.app_id.as_str());
    let mut total: u128 = 0;
    let mut i: usize = 0;
    while i < qs.len()
        invariant
            i <= qs.len(),
            strings_view(name_t@) == tokens(t.name@),
            strings_view(desc_t@) == tokens(t.description@),
            strings_view(app_t@) == tokens(t.app_id@),
            total == score(strings_view(qs@).take(i as int), t@),
            total <= 3 * i,
        decreases qs.len() - i,
    {
        let q = qs[i].as_str();
        let w: u128 = if has_token(&name_t, q) {
            3
        } else if has_token(&desc_t, q) || has_token(&app_t, q) {
            1
        } else {
            0
        };
        assert(strings_view(qs@).take(i as int + 1).drop_last() =~= strings_view(qs@).take(i as int));
        total = total + w;
        i = i + 1;
    }
    assert(strings_view(qs@).take(qs.len() as int) =~= strings_view(qs@));
    total
}

/// Ranking order: higher score first, then app id, then tool name.
pub open spec fn ranks_le(a: (nat, ToolRefView), b: (nat, ToolRefView)) -> bool {
    a.0 > b.0 || (a.0 == b.0 && (lex_lt(a.1.app_id, b.1.app_id) || (a.1.app_id == b.1.app_id
        && !lex_lt(b.1.name, a.1.name))))
}

proof fn lemma_ranks_total(a: (nat, ToolRefView), b: (nat, ToolRefView))
    ensures
        ranks_le(a, b) || ranks_le(b, a),
{
    lemma_lex_strict(a.1.app_id, b.1.app_id);
    lemma_lex_strict(a.1.name, b.1.name);
}

proof fn lemma_ranks_trans(a: (nat, ToolRefView), b: (nat, ToolRefView), c: (nat, ToolRefView))
    requires
        ranks_le(a, b),
        ranks_le(b, c),
    ensures
        ranks_le(a, c),
{
    lemma_lex_strict(a.1.app_id, b.1.app_id);
    lemma_lex_strict(b.1.app_id, c.1.app_id);
    lemma_lex_strict(a.1.app_id, c.1.app_id);
    lemma_lex_strict(a.1.name, b.1.name);
    lemma_lex_strict(b.1.name, c.1.name);
    lemma_lex_strict(a.1.name, c.1.name);
    if lex_lt(a.1.app_id, b.1.app_id) && lex_lt(b.1.app_id, c.1.app_id) {
        lemma_lex_trans(a.1.app_id, b.1.app_id, c.1.app_id);
    }
    if lex_lt(c.1.name, a.1.name) && lex_lt(a.1.name, b.1.name) {
        lemma_lex_trans(c.1.name, a.1.name, b.1.name);
    }
}

/// Ranked entries as the specification sees them.
pub open spec fn ranked_view(s: Seq<(u128, ToolRef)>) -> Seq<(nat, ToolRefView)> {
    Seq::new(s.len(), |i: int| (s[i].0 as nat, s[i].1@))
}

/// The tools of ranked entries.
pub open spec fn ranked_tools(s: Seq<(u128, ToolRef)>) -> Seq<ToolRefView> {
    Seq::new(s.len(), |i: int| s[i].1@)
}

/// `s` is in ranking order.
pub open spec fn is_ranked(s: Seq<(nat, ToolRefView)>) -> bool {
    forall|i: int, j: int| 0 <= i < j < s.len() ==> ranks_le(#[trigger] s[i], #[trigger] s[j])
}

fn rank_le(a: &(u128, ToolRef), b: &(u128, ToolRef)) -> (r: bool)
    ensures
        r == ranks_le((a.0 as nat, a.1@), (b.0 as nat, b.1@)),
{
    a.0 > b.0 || (a.0 == b.0 && (str_lt(a.1.app_id.as_str(), b.1.app_id.as_str()) || (str_eq(
        a.1.app_id.as_str(),
        b.1.app_id.as_str(),
    ) && !str_lt(b.1.name.as_str(), a.1.name.as_str()))))
}

proof fn lemma_multiset_insert<A>(s: Seq<A>, p: int, x: A)
    requires
        0 <= p <= s.len(),
    ensures
        s.insert(p, x).to_multiset() =~= s.to_multiset().insert(x),
{
    let t = s.insert(p, x);
    t.to_multiset_ensures();
    assert(t.remove(p) =~= s);
    assert(t[p] == x);
    assert(t.to_multiset().count(x) > 0) by {
        assert(t.contains(x));
    }
}

/// Sort ranked entries: higher score first, then app id, then tool name.
fn rank_sort(items: Vec<(u128, ToolRef)>) -> (r: Vec<(u128, ToolRef)>)
    ensures
        is_ranked(ranked_view(r@)),
        ranked_view(r@).to_multiset() == ranked_view(items@).to_multiset(),
        ranked_tools(r@).to_multiset() == ranked_tools(items@).to_multiset(),
{
    let mut rest = items;
    let mut out: Vec<(u128, ToolRef)> = Vec::new();
    let ghost whole = ranked_view(items@).to_multiset();
    let ghost whole_tools = ranked_tools(items@).to_multiset();
    proof {
        ranked_view(out@).to_multiset_ensures();
        vstd::multiset::lemma_multiset_empty_len(ranked_view(out@).to_multiset());
        assert(ranked_view(out@).to_multiset().add(ranked_view(rest@).to_multiset()) =~= whole);
        ranked_tools(out@).to_multiset_ensures();
        vstd::multiset::lemma_multiset_empty_len(ranked_tools(out@).to_multiset());
        assert(ranked_tools(out@).to_multiset().add(ranked_tools(rest@).to_multiset()) =~= whole_tools);
    }
    while rest.len() > 0
        invariant
            is_ranked(ranked_view(out@)),
            ranked_view(out@).to_multiset().add(ranked_view(rest@).to_multiset()) == whole,
            ranked_tools(out@).to_multiset().add(ranked_tools(rest@).to_multiset()) == whole_tools,
        decreases rest.len(),
    {
        let ghost before_rest = rest@;
        let x = rest.pop().unwrap();
        proof {
            assert(ranked_view(before_rest) =~= ranked_view(rest@).push((x.0 as nat, x.1@)));
            ranked_view(rest@).to_multiset_ensures();
            assert(ranked_tools(before_rest) =~= ranked_tools(rest@).push(x.1@));
            ranked_tools(rest@).to_multiset_ensures();
        }
        let mut p: usize = 0;
        while p < out.len() && !rank_le(&x, &out[p])
            invariant
                p <= out.len(),
                forall|j: int| 0 <= j < p ==> !ranks_le((x.0 as nat, x.1@), #[trigger] ranked_view(out@)[j]),
            decreases out.len() - p,
        {
            p = p + 1;
        }
        let ghost before_out = ranked_view(out@);
        let ghost before_tools = ranked_tools(out@);
        let ghost xv = (x.0 as nat, x.1@);
        out.insert(p, x);
        proof {
            assert(ranked_view(out@) =~= before_out.insert(p as int, xv));
            lemma_multiset_insert(before_out, p as int, xv);
            assert(ranked_tools(out@) =~= before_tools.insert(p as int, xv.1));
            lemma_multiset_insert(before_tools, p as int, xv.1);
            let after = ranked_view(out@);
            assert forall|i: int, j: int| 0 <= i < j < after.len() implies ranks_le(
                #[trigger] after[i],
                #[trigger] after[j],
            ) by {
                if i < p && j == p {
                    lemma_ranks_total(xv, before_out[i]);
                } else if i < p && j > p {
                    assert(ranks_le(before_out[i], before_out[j - 1]));
                } else if i == p && j > p {
                    if j - 1 > p {
                        assert(ranks_le(before_out[p as int], before_out[j - 1]));
                        lemma_ranks_trans(xv, before_out[p as int], before_out[j - 1]);
                    }
                } else if i > p {
                    assert(ranks_le(before_out[i - 1], before_out[j - 1]));
                }
            }
        }
    }
    proof {
        ranked_view(rest@).to_multiset_ensures();
        vstd::multiset::lemma_multiset_empty_len(ranked_view(rest@).to_multiset());
        assert(ranked_view(out@).to_multiset().add(ranked_view(rest@).to_multiset()) =~= ranked_view(
            out@,
        ).to_multiset());
        ranked_tools(rest@).to_multiset_ensures();
        vstd::multiset::lemma_multiset_empty_len(ranked_tools(rest@).to_multiset());
        assert(ranked_tools(out@).to_multiset().add(ranked_tools(rest@).to_multiset()) =~= ranked_tools(
            out@,
        ).to_multiset());
    }
    out
}

/// The tool views of a list of tool references.
pub open spec fn tool_views(v: Seq<ToolRef>) -> Seq<ToolRefView> {
    Seq::new(v.len(), |i: int| v[i]@)
}

/// Drop the scores, keeping the order.
fn strip(v: Vec<(u128, ToolRef)>) -> (r: Vec<ToolRef>)
    ensures
        tool_views(r@) == ranked_tools(v@),
{
    let ghost orig = ranked_tools(v@);
    let mut v = v;
    let mut rev: Vec<ToolRef> = Vec::new();
    while v.len() > 0
        invariant
            orig.len() == v@.len() + rev@.len(),
            forall|i: int| 0 <= i < v@.len() ==> #[trigger] v@[i].1@ == orig[i],
            forall|i: int| 0 <= i < rev@.len() ==> #[trigger] rev@[i]@ == orig[orig.len() - 1 - i],
        decreases v.len(),
    {
        let (_, t) = v.pop().unwrap();
        rev.push(t);
    }
    let mut out: Vec<ToolRef> = Vec::new();
    while rev.len() > 0
        invariant
            orig.len() == out@.len() + rev@.len(),
            forall|i: int| 0 <= i < rev@.len() ==> #[trigger] rev@[i]@ == orig[orig.len() - 1 - i],
            forall|i: int| 0 <= i < out@.len() ==> #[trigger] out@[i]@ == orig[i],
        decreases rev.len(),
    {
        let t = rev.pop().unwrap();
        out.push(t);
    }
    assert(tool_views(out@) =~= orig);
    out
}

fn make_ref(app_id: &String, t: &ToolDecl) -> (r: ToolRef)
    ensures
        r@ == ref_of(app_id@, *t),
{
    ToolRef {
        app_id: app_id.clone(),
        name: t.name.clone(),
        tier: t.tier,
        description: t.description.clone(),
        undoable: t.undo.is_some(),
        input_schema: copy_json(&t.input_schema),
    }
}

/// Tools listed in app-id, then name order.
pub open spec fn app_then_name(v: Seq<ToolRefView>) -> bool {
    forall|i: int, j: int|
        0 <= i < j < v.len() ==> lex_lt((#[trigger] v[i]).app_id, (#[trigger] v[j]).app_id) || (
        v[i].app_id == v[j].app_id && !lex_lt(v[j].name, v[i].name))
}

proof fn lemma_all_refs_step(apps: Seq<Manifest>, i: int)
    requires
        0 <= i < apps.len(),
    ensures
        all_refs(apps.take(i + 1)) == all_refs(apps.take(i)) + app_refs(apps[i]),
{
    assert(apps.take(i + 1).drop_last() =~= apps.take(i));
}

impl Registry {
    /// Every tool of every installed app with its score against `qs`
    /// (0 when `scored` is false); with `scored`, only tools scoring
    /// above 0.
    fn collect(&self, qs: &Vec<String>, scored: bool) -> (r: Vec<(u128, ToolRef)>)
        ensures
            ranked_tools(r@) == (if scored {
                all_refs(self.apps()).filter(|t: ToolRefView| score(strings_view(qs@), t) > 0)
            } else {
                all_refs(self.apps())
            }),
            forall|i: int|
                0 <= i < r@.len() ==> (#[trigger] r@[i]).0 == (if scored {
                    score(strings_view(qs@), r@[i].1@)
                } else {
                    0
                }),
    {
        let ghost qv = strings_view(qs@);
        let ghost pred = |t: ToolRefView| score(qv, t) > 0;
        let ghost apps = self.apps@;
        let mut out: Vec<(u128, ToolRef)> = Vec::new();
        let mut i: usize = 0;
        assert(apps.take(0) =~= Seq::<Manifest>::empty());
        while i < self.apps.len()
            invariant
                apps == self.apps@,
                qv == strings_view(qs@),
                pred == (|t: ToolRefView| score(qv, t) > 0),
                i <= self.apps.len(),
                ranked_tools(out@) == (if scored {
                    all_refs(apps.take(i as int)).filter(pred)
                } else {
                    all_refs(apps.take(i as int))
                }),
                forall|x: int|
                    0 <= x < out@.len() ==> (#[trigger] out@[x]).0 == (if scored {
                        score(qv, out@[x].1@)
                    } else {
                        0
                    }),
            decreases self.apps.len() - i,
        {
            let m = &self.apps[i];
            let mut k: usize = 0;
            let ghost base = all_refs(apps.take(i as int));
            assert(app_refs(*m).take(0) =~= Seq::<ToolRefView>::empty());
            assert(base + app_refs(*m).take(0) =~= base);
            while k < m.tools.len()
                invariant
                    apps == self.apps@,
                    *m == apps[i as int],
                    i < apps.len(),
                    qv == strings_view(qs@),
                    pred == (|t: ToolRefView| score(qv, t) > 0),
                    base == all_refs(apps.take(i as int)),
                    k <= m.tools.len(),
                    ranked_tools(out@) == (if scored {
                        (base + app_refs(*m).take(k as int)).filter(pred)
                    } else {
                        base + app_refs(*m).take(k as int)
                    }),
                    forall|x: int|
                        0 <= x < out@.len() ==> (#[trigger] out@[x]).0 == (if scored {
                            score(qv, out@[x].1@)
                        } else {
                            0
                        }),
                decreases m.tools.len() - k,
            {
                let t = make_ref(&m.app_id, &m.tools[k]);
                let ghost prefix = base + app_refs(*m).take(k as int);
                assert(base + app_refs(*m).take(k as int + 1) =~= prefix.push(t@));
                proof {
                    prefix.lemma_filter_push(t@, pred);
                }
                let ghost before = out@;
                if scored {
                    let sc = score_of(qs, &t);
                    if sc > 0 {
                        out.push((sc, t));
                        assert(ranked_tools(out@) =~= ranked_tools(before).push(out@.last().1@));
                    }
                } else {
                    out.push((0, t));
                    assert(ranked_tools(out@) =~= ranked_tools(before).push(out@.last().1@));
                }
                k = k + 1;
            }
            proof {
                assert(app_refs(*m).take(m.tools.len() as int) =~= app_refs(*m));
                lemma_all_refs_step(apps, i as int);
            }
            i = i + 1;
        }
        assert(apps.take(apps.len() as int) =~= apps);
        out
    }

    /// All tools: app-id order, then tool-name order.
    pub fn list(&self) -> (r: Vec<ToolRef>)
        ensures
            app_then_name(tool_views(r@)),
            tool_views(r@).to_multiset() == all_refs(self.apps()).to_multiset(),
    {
        let none: Vec<String> = Vec::new();
        let items = self.collect(&none, false);
        let sorted = rank_sort(items);
        proof {
            assert forall|x: int| 0 <= x < sorted@.len() implies (#[trigger] sorted@[x]).0 == 0 by {
                ranked_view(sorted@).to_multiset_ensures();
                ranked_view(items@).to_multiset_ensures();
                let e = ranked_view(sorted@)[x];
                assert(ranked_view(sorted@).contains(e));
                assert(ranked_view(sorted@).to_multiset().count(e) > 0);
                assert(ranked_view(items@).to_multiset().count(e) > 0);
                assert(ranked_view(items@).contains(e));
                let j = choose|j: int| 0 <= j < ranked_view(items@).len() && ranked_view(items@)[j] == ranked_view(sorted@)[x];
                assert(items@[j].0 == 0);
            }
        }
        let r = strip(sorted);
        proof {
            let v = tool_views(r@);
            assert forall|i: int, j: int| 0 <= i < j < v.len() implies lex_lt((#[trigger] v[i]).app_id, (#[trigger] v[j]).app_id) || (
                v[i].app_id == v[j].app_id && !lex_lt(v[j].name, v[i].name)) by {
                assert(ranks_le(ranked_view(sorted@)[i], ranked_view(sorted@)[j]));
            }
        }
        r
    }

    /// Rank tools against a natural-language query by token overlap:
    /// name-token hits weigh 3, description and app-id hits 1. Tools with
    /// zero overlap are omitted; ties go by app id, then tool name.
    pub fn discover(&self, query: &str) -> (r: Vec<ToolRef>)
        ensures
            tokens(query@).len() == 0 ==> r@.len() == 0,
            tokens(query@).len() > 0 ==> tool_views(r@).to_multiset() == all_refs(self.apps()).filter(
                |t: ToolRefView| score(tokens(query@), t) > 0,
            ).to_multiset(),
            is_ranked(Seq::new(r@.len(), |i: int| (score(tokens(query@), r@[i]@), r@[i]@))),
    {
        let qs = text_tokens(query);
        if qs.len() == 0 {
            let r: Vec<ToolRef> = Vec::new();
            assert(Seq::new(r@.len(), |i: int| (score(tokens(query@), r@[i]@), r@[i]@)) =~= Seq::<(nat, ToolRefView)>::empty());
            return r;
        }
        let items = self.collect(&qs, true);
        let sorted = rank_sort(items);
        proof {
            assert forall|x: int| 0 <= x < sorted@.len() implies (#[trigger] sorted@[x]).0 == score(strings_view(qs@), sorted@[x].1@) by {
                ranked_view(sorted@).to_multiset_ensures();
                ranked_view(items@).to_multiset_ensures();
                let e = ranked_view(sorted@)[x];
                assert(ranked_view(sorted@).contains(e));
                assert(ranked_view(sorted@).to_multiset().count(e) > 0);
                assert(ranked_view(items@).to_multiset().count(e) > 0);
                assert(ranked_view(items@).contains(e));
                let j = choose|j: int| 0 <= j < ranked_view(items@).len() && ranked_view(items@)[j] == ranked_view(sorted@)[x];
                assert(items@[j].0 == score(strings_view(qs@), items@[j].1@));
            }
        }
        let r = strip(sorted);
        proof {
            let w = Seq::new(r@.len(), |i: int| (score(tokens(query@), r@[i]@), r@[i]@));
            assert(tool_views(r@).len() == ranked_tools(sorted@).len());
            assert(r@.len() == sorted@.len());
            assert forall|i: int| 0 <= i < w.len() implies w[i] == ranked_view(sorted@)[i] by {
                assert(tool_views(r@)[i] == ranked_tools(sorted@)[i]);
                assert(sorted@[i].0 == score(strings_view(qs@), sorted@[i].1@));
            }
            assert(w =~= ranked_view(sorted@));
        }
        r
    }
}

/// What loading the parsed manifest files `entries` (in order) does to
/// the installed set: each parsed manifest is installed in turn.
pub open spec fn install_all(
    start: Map<Seq<char>, Manifest>,
    entries: Seq<(String, Result<Manifest, String>)>,
) -> Map<Seq<char>, Manifest>
    decreases entries.len(),
{
    if entries.len() == 0 {
        start
    } else {
        let before = install_all(start, entries.drop_last());
        match entries.last().1 {
            Ok(m) => if manifest_problem(m) is None {
                before.insert(m.app_id@, m)
            } else {
                before
            },
            Err(_) => before,
        }
    }
}

/// The app ids of the manifests that parsed and validated, in order.
pub open spec fn loaded_ids(entries: Seq<(String, Result<Manifest, String>)>) -> Seq<Seq<char>>
    decreases entries.len(),
{
    if entries.len() == 0 {
        Seq::empty()
    } else {
        let before = loaded_ids(entries.drop_last());
        match entries.last().1 {
            Ok(m) => if manifest_problem(m) is None {
                before.push(m.app_id@)
            } else {
                before
            },
            Err(_) => before,
        }
    }
}

/// The files that did not parse or did not validate, with their
/// reasons, in order.
pub open spec fn skipped_files(entries: Seq<(String, Result<Manifest, String>)>) -> Seq<(Seq<char>, Seq<char>)>
    decreases entries.len(),
{
    if entries.len() == 0 {
        Seq::empty()
    } else {
        let before = skipped_files(entries.drop_last());
        match entries.last().1 {
            Ok(m) => match manifest_problem(m) {
                None => before,
                Some(p) => before.push((entries.last().0@, p)),
            },
            Err(e) => before.push((entries.last().0@, e@)),
        }
    }
}

pub open spec fn pairs_view(v: Seq<(String, String)>) -> Seq<(Seq<char>, Seq<char>)> {
    Seq::new(v.len(), |i: int| (v[i].0@, v[i].1@))
}

impl Registry {
    /// Install the manifest files of a directory, given each file's path
    /// (in path order) with its parsed manifest or the reason it was
    /// refused; refused files are skipped, never fatal.
    pub fn load_parsed(&mut self, entries: Vec<(String, Result<Manifest, String>)>) -> (report: LoadReport)
        ensures
            final(self).installed() == install_all(old(self).installed(), entries@),
            strings_view(report.loaded@) == loaded_ids(entries@),
            pairs_view(report.skipped@) == skipped_files(entries@),
    {
        let ghost all = entries@;
        let total = entries.len();
        let ghost start = self.installed();
        let mut report = LoadReport { loaded: Vec::new(), skipped: Vec::new() };
        let mut rest = entries;
        let mut i: usize = 0;
        assert(all.take(0) =~= Seq::<(String, Result<Manifest, String>)>::empty());
        assert(strings_view(report.loaded@) =~= Seq::<Seq<char>>::empty());
        assert(pairs_view(report.skipped@) =~= Seq::<(Seq<char>, Seq<char>)>::empty());
        while rest.len() > 0
            invariant
                i + rest@.len() == all.len(),
                total == all.len(),
                rest@ == all.skip(i as int),
                self.installed() == install_all(start, all.take(i as int)),
                strings_view(report.loaded@) == loaded_ids(all.take(i as int)),
                pairs_view(report.skipped@) == skipped_files(all.take(i as int)),
            decreases rest.len(),
        {
            let (path, parsed) = rest.remove(0);
            assert(all.take(i as int + 1).drop_last() =~= all.take(i as int));
            assert(all.take(i as int + 1).last() == all[i as int]);
            assert(rest@ =~= all.skip(i as int + 1));
            let ghost before_loaded = report.loaded@;
            let ghost before_skipped = report.skipped@;
            match parsed {
                Ok(m) => {
                    match validate(&m) {
                        Ok(()) => {
                            report.loaded.push(m.app_id.clone());
                            assert(strings_view(report.loaded@) =~= strings_view(before_loaded).push(m.app_id@));
                            self.install(m);
                        },
                        Err(e) => {
                            report.skipped.push((path, e.message()));
                            assert(pairs_view(report.skipped@) =~= pairs_view(before_skipped).push(
                                (report.skipped@.last().0@, report.skipped@.last().1@),
                            ));
                        },
                    }
                },
                Err(reason) => {
                    report.skipped.push((path, reason));
                    assert(pairs_view(report.skipped@) =~= pairs_view(before_skipped).push(
                        (report.skipped@.last().0@, report.skipped@.last().1@),
                    ));
                },
            }
            i = i + 1;
        }
        assert(all.take(all.len() as int) =~= all);
        report
    }
}

/// A tool reference as the D-Bus surface lists it, fields in order.
pub open spec fn ref_value(t: ToolRefView) -> JValue {
    JValue::Object(
        seq![
            ("app_id"@, JValue::Str(t.app_id)),
            ("name"@, JValue::Str(t.name)),
            ("tier"@, JValue::Str(tier_name(t.tier))),
            ("description"@, JValue::Str(t.description)),
            ("undoable"@, JValue::Bool(t.undoable)),
            ("input_schema"@, t.input_schema),
        ],
    )
}

/// The `ListTools` / `Discover` document: an array of tool references.
pub fn tools_json(refs: &Vec<ToolRef>) -> (j: Json)
    ensures
        j@ == JValue::Array(Seq::new(refs@.len(), |i: int| ref_value(refs@[i]@))),
{
    let mut items: Vec<Json> = Vec::new();
    let mut i: usize = 0;
    while i < refs.len()
        invariant
            i <= refs.len(),
            items@.len() == i,
            forall|k: int| 0 <= k < i ==> (#[trigger] items@[k])@ == ref_value(refs@[k]@),
        decreases refs.len() - i,
    {
        let t = &refs[i];
        let mut f: Vec<(String, Json)> = Vec::new();
        f.push((owned("app_id"), Json::Str(t.app_id.clone())));
        f.push((owned("name"), Json::Str(t.name.clone())));
        f.push((owned("tier"), Json::Str(owned(t.tier.as_str()))));
        f.push((owned("description"), Json::Str(t.description.clone())));
        f.push((owned("undoable"), Json::Bool(t.undoable)));
        f.push((owned("input_schema"), copy_json(&t.input_schema)));
        assert(fields_view(f@) =~= seq![
            ("app_id"@, JValue::Str(t.app_id@)),
            ("name"@, JValue::Str(t.name@)),
            ("tier"@, JValue::Str(tier_name(t.tier))),
            ("description"@, JValue::Str(t.description@)),
            ("undoable"@, JValue::Bool(t.undoable)),
            ("input_schema"@, t.input_schema@),
        ]);
        items.push(object(f));
        i = i + 1;
    }
    let ghost iv = items_view(items@);
    assert(iv =~= Seq::new(refs@.len(), |i: int| ref_value(refs@[i]@)));
    crate::json::array(items)
}

} // verus!
