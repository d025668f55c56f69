//! Per-scope offload consent: the user's "may offload" switch for each
//! context scope. The default is that nothing leaves the device. A remote
//! request declares the scopes it carries; any scope the user has not
//! switched on refuses the whole request, and every request carries at
//! least the `prompt` scope (the prompt itself always leaves).

use crate::text::{owned, str_eq};
use vstd::prelude::*;

verus! {

/// The offloadable context scopes.
pub open spec fn known_scope(s: Seq<char>) -> bool {
    s == "prompt"@ || s == "files"@ || s == "mail"@ || s == "calendar"@ || s == "screen"@ || s
        == "memory"@
}

/// The scopes in key order (the order a settings snapshot lists them).
pub open spec fn sorted_scopes() -> Seq<Seq<char>> {
    seq!["calendar"@, "files"@, "mail"@, "memory"@, "prompt"@, "screen"@]
}

pub fn is_known_scope(s: &str) -> (b: bool)
    ensures
        b == known_scope(s@),
{
    str_eq(s, "prompt") || str_eq(s, "files") || str_eq(s, "mail") || str_eq(s, "calendar")
        || str_eq(s, "screen") || str_eq(s, "memory")
}

/// Refusals of the consent gate.
#[derive(Debug)]
pub enum ConsentError {
    /// The scope is not one of the offloadable scopes.
    UnknownScope(String),
    /// These required scopes are not permitted to leave this device.
    Denied(Vec<String>),
}

/// `["a", "b"]`: the items quoted, comma-separated, in brackets.
pub open spec fn quoted_list(v: Seq<String>) -> Seq<char>
    decreases v.len(),
{
    if v.len() == 0 {
        "[]"@
    } else {
        quoted_items(v) + "]"@
    }
}

pub open spec fn quoted_items(v: Seq<String>) -> Seq<char>
    decreases v.len(),
{
    if v.len() == 0 {
        "["@
    } else if v.len() == 1 {
        "["@ + "\""@ + v[0]@ + "\""@
    } else {
        quoted_items(v.drop_last()) + ", \""@ + v.last()@ + "\""@
    }
}

/// The error's message.
pub open spec fn consent_error_text(e: ConsentError) -> Seq<char> {
    match e {
        ConsentError::UnknownScope(s) => "unknown scope: "@ + s@,
        ConsentError::Denied(v) => "scope not permitted to leave this device: "@ + quoted_list(v@),
    }
}

impl ConsentError {
    /// The message of the refusal (scopes in double quotes).
    pub fn message(&self) -> (s: String)
        ensures
            s@ == consent_error_text(*self),
    {
        match self {
            ConsentError::UnknownScope(x) => {
                let mut s = owned("unknown scope: ");
                s.append(x.as_str());
                s
            },
            ConsentError::Denied(v) => {
                let mut s = owned("scope not permitted to leave this device: ");
                let ghost pre = s@;
                if v.len() == 0 {
                    s.append("[]");
                    return s;
                }
                let mut items = owned("[");
                let mut i: usize = 0;
                while i < v.len()
                    invariant
                        i <= v.len(),
                        v.len() > 0,
                        items@ == quoted_items(v@.take(i as int)),
                    decreases v.len() - i,
                {
                    assert(v@.take(i as int + 1).drop_last() =~= v@.take(i as int));
                    assert(v@.take(i as int + 1).last() == v@[i as int]);
                    assert(v@.take(i as int + 1)[0] == v@[0]);
                    if i == 0 {
                        items.append("\"");
                    } else {
                        items.append(", \"");
                    }
                    items.append(v[i].as_str());
                    items.append("\"");
                    i = i + 1;
                }
                assert(v@.take(v.len() as int) =~= v@);
                items.append("]");
                s.append(items.as_str());
                s
            },
        }
    }
}

/// The switch setting stored for `k` (first entry), if any.
pub open spec fn lookup(e: Seq<(String, bool)>, k: Seq<char>) -> Option<bool>
    decreases e.len(),
{
    if e.len() == 0 {
        None
    } else if e[0].0@ == k {
        Some(e[0].1)
    } else {
        lookup(e.drop_first(), k)
    }
}

pub open spec fn keys_distinct(e: Seq<(String, bool)>) -> bool {
    forall|i: int, j: int| 0 <= i < e.len() && 0 <= j < e.len() && i != j ==> e[i].0@ != e[j].0@
}

proof fn lemma_lookup_at(e: Seq<(String, bool)>, i: int)
    requires
        keys_distinct(e),
        0 <= i < e.len(),
    ensures
        lookup(e, e[i].0@) == Some(e[i].1),
    decreases e.len(),
{
    if i > 0 {
        assert(keys_distinct(e.drop_first()));
        assert(e.drop_first()[i - 1] == e[i]);
        lemma_lookup_at(e.drop_first(), i - 1);
    }
}

proof fn lemma_lookup_none(e: Seq<(String, bool)>, k: Seq<char>)
    requires
        forall|i: int| 0 <= i < e.len() ==> e[i].0@ != k,
    ensures
        lookup(e, k) is None,
    decreases e.len(),
{
    if e.len() > 0 {
        lemma_lookup_none(e.drop_first(), k);
    }
}

proof fn lemma_lookup_found(e: Seq<(String, bool)>, k: Seq<char>)
    requires
        lookup(e, k) is Some,
    ensures
        exists|i: int| 0 <= i < e.len() && e[i].0@ == k,
    decreases e.len(),
{
    if e.len() > 0 && e[0].0@ != k {
        lemma_lookup_found(e.drop_first(), k);
        let i = choose|i: int| 0 <= i < e.drop_first().len() && e.drop_first()[i].0@ == k;
        assert(e[i + 1] == e.drop_first()[i]);
    }
}

/// The consent switches, read from and written back to `consent.toml`.
pub struct Consent {
    path: String,
    may_offload: Vec<(String, bool)>,
}

impl Consent {
    #[verifier::type_invariant]
    spec fn inv(&self) -> bool {
        keys_distinct(self.may_offload@)
    }

    /// The stored switches: scope → may offload.
    pub closed spec fn switches(&self) -> Map<Seq<char>, bool> {
        Map::new(
            |k: Seq<char>| lookup(self.may_offload@, k) is Some,
            |k: Seq<char>| lookup(self.may_offload@, k)->Some_0,
        )
    }

    /// Where the switches are persisted.
    pub closed spec fn file(&self) -> Seq<char> {
        self.path@
    }

    /// Whether `scope` may leave the device: an absent entry means no.
    pub open spec fn permits(&self, scope: Seq<char>) -> bool {
        self.switches().contains_key(scope) && self.switches()[scope]
    }

    /// No switch turned on: nothing leaves.
    pub fn new(path: String) -> (c: Consent)
        ensures
            c.switches() == Map::<Seq<char>, bool>::empty(),
            c.file() == path@,
    {
        let c = Consent { path, may_offload: Vec::new() };
        assert(c.switches() =~= Map::<Seq<char>, bool>::empty());
        c
    }

    fn put(&mut self, key: &str, value: bool)
        ensures
            final(self).switches() == old(self).switches().insert(key@, value),
            final(self).file() == old(self).file(),
    {
        proof {
            use_type_invariant(&*self);
        }
        let ghost before = self.may_offload@;
        let mut i: usize = 0;
        while i < self.may_offload.len()
            invariant
                i <= self.may_offload.len(),
                self.may_offload@ == before,
                before == old(self).may_offload@,
                self.path@ == old(self).path@,
                keys_distinct(before),
                forall|j: int| 0 <= j < i ==> before[j].0@ != key@,
            decreases self.may_offload.len() - i,
        {
            if str_eq(self.may_offload[i].0.as_str(), key) {
                let k = self.may_offload[i].0.clone();
                let mut entries: Vec<(String, bool)> = Vec::new();
                std::mem::swap(&mut entries, &mut self.may_offload);
                entries.set(i, (k, value));
                proof {
                    let after = entries@;
                    assert(after == before.update(i as int, (before[i as int].0, value)));
                    assert(keys_distinct(after));
                    assert forall|k2: Seq<char>| #[trigger] lookup(after, k2) == (if k2 == key@ {
                        Some(value)
                    } else {
                        lookup(before, k2)
                    }) by {
                        if k2 == key@ {
                            lemma_lookup_at(after, i as int);
                        } else {
                            if lookup(before, k2) is Some {
                                lemma_lookup_found(before, k2);
                                let j = choose|j: int| 0 <= j < before.len() && before[j].0@ == k2;
                                lemma_lookup_at(before, j);
                                lemma_lookup_at(after, j);
                            } else {
                                assert forall|j: int| 0 <= j < after.len() implies after[j].0@ != k2 by {
                                    if after[j].0@ == k2 {
                                        lemma_lookup_at(before, j);
                                    }
                                }
                                lemma_lookup_none(after, k2);
                            }
                        }
                    }
                }
                self.may_offload = entries;
                assert(self.switches() =~= old(self).switches().insert(key@, value));
                return;
            }
            i = i + 1;
        }
        let mut entries: Vec<(String, bool)> = Vec::new();
                std::mem::swap(&mut entries, &mut self.may_offload);
        entries.push((owned(key), value));
        proof {
            let after = entries@;
            assert(after == before.push((after.last().0, value)));
            assert(keys_distinct(after));
            assert forall|k2: Seq<char>| #[trigger] lookup(after, k2) == (if k2 == key@ {
                Some(value)
            } else {
                lookup(before, k2)
            }) by {
                if k2 == key@ {
                    lemma_lookup_at(after, before.len() as int);
                } else {
                    if lookup(before, k2) is Some {
                        lemma_lookup_found(before, k2);
                        let j = choose|j: int| 0 <= j < before.len() && before[j].0@ == k2;
                        lemma_lookup_at(before, j);
                        lemma_lookup_at(after, j);
                    } else {
                        assert forall|j: int| 0 <= j < after.len() implies after[j].0@ != k2 by {
                            if j < before.len() && after[j].0@ == k2 {
                                lemma_lookup_at(before, j);
                            }
                        }
                        lemma_lookup_none(after, k2);
                    }
                }
            }
        }
        self.may_offload = entries;
        assert(self.switches() =~= old(self).switches().insert(key@, value));
    }

    /// The switches as stored in `consent.toml` (one entry per key; a
    /// later entry for the same key wins).
    pub fn from_entries(path: String, entries: &Vec<(String, bool)>) -> (c: Consent)
        ensures
            c.file() == path@,
            forall|k: Seq<char>|
                #![trigger c.switches().contains_key(k)]
                c.switches().contains_key(k) <==> exists|i: int|
                    0 <= i < entries@.len() && entries@[i].0@ == k,
    {
        let mut c = Consent::new(path);
        let mut i: usize = 0;
        while i < entries.len()
            invariant
                i <= entries.len(),
                c.file() == path@,
                forall|k: Seq<char>|
                    #![trigger c.switches().contains_key(k)]
                    c.switches().contains_key(k) <==> exists|j: int|
                        0 <= j < i && entries@[j].0@ == k,
            decreases entries.len() - i,
        {
            c.put(entries[i].0.as_str(), entries[i].1);
            proof {
                assert forall|k: Seq<char>|
                    #![trigger c.switches().contains_key(k)]
                    c.switches().contains_key(k) <==> exists|j: int|
                        0 <= j < i + 1 && entries@[j].0@ == k by {
                    if k == entries@[i as int].0@ {
                        assert(0 <= i < i + 1 && entries@[i as int].0@ == k);
                    }
                }
            }
            i = i + 1;
        }
        c
    }

    /// The stored switches, one entry per scope key.
    pub fn entries(&self) -> (e: Vec<(String, bool)>)
        ensures
            forall|k: Seq<char>|
                #![trigger self.switches().contains_key(k)]
                self.switches().contains_key(k) <==> exists|i: int|
                    0 <= i < e@.len() && e@[i].0@ == k,
            forall|i: int|
                0 <= i < e@.len() ==> self.switches().contains_key(#[trigger] e@[i].0@)
                    && self.switches()[e@[i].0@] == e@[i].1,
    {
        proof {
            use_type_invariant(self);
        }
        let mut out: Vec<(String, bool)> = Vec::new();
        let mut i: usize = 0;
        while i < self.may_offload.len()
            invariant
                i <= self.may_offload.len(),
                keys_distinct(self.may_offload@),
                out@.len() == i,
                forall|j: int| 0 <= j < i ==> #[trigger] out@[j].0@ == self.may_offload@[j].0@
                    && out@[j].1 == self.may_offload@[j].1,
            decreases self.may_offload.len() - i,
        {
            out.push((self.may_offload[i].0.clone(), self.may_offload[i].1));
            i = i + 1;
        }
        proof {
            let e = self.may_offload@;
            assert forall|k: Seq<char>|
                #![trigger self.switches().contains_key(k)]
                self.switches().contains_key(k) <==> exists|i: int|
                    0 <= i < out@.len() && out@[i].0@ == k by {
                if lookup(e, k) is Some {
                    lemma_lookup_found(e, k);
                    let j = choose|j: int| 0 <= j < e.len() && e[j].0@ == k;
                    assert(out@[j].0@ == k);
                } else {
                    if exists|i: int| 0 <= i < out@.len() && out@[i].0@ == k {
                        let j = choose|j: int| 0 <= j < out@.len() && out@[j].0@ == k;
                        lemma_lookup_at(e, j);
                    }
                }
            }
            assert forall|i: int| 0 <= i < out@.len() implies self.switches().contains_key(
                #[trigger] out@[i].0@,
            ) && self.switches()[out@[i].0@] == out@[i].1 by {
                lemma_lookup_at(e, i);
            }
        }
        out
    }

    /// Where the switches are persisted.
    pub fn path(&self) -> (p: &str)
        ensures
            p@ == self.file(),
    {
        self.path.as_str()
    }

    /// Default is deny: an absent entry means "does not leave".
    pub fn allowed(&self, scope: &str) -> (b: bool)
        ensures
            b == self.permits(scope@),
    {
        proof {
            use_type_invariant(self);
        }
        let mut i: usize = 0;
        while i < self.may_offload.len()
            invariant
                i <= self.may_offload.len(),
                keys_distinct(self.may_offload@),
                forall|j: int| 0 <= j < i ==> self.may_offload@[j].0@ != scope@,
            decreases self.may_offload.len() - i,
        {
            if str_eq(self.may_offload[i].0.as_str(), scope) {
                proof {
                    lemma_lookup_at(self.may_offload@, i as int);
                }
                return self.may_offload[i].1;
            }
            i = i + 1;
        }
        proof {
            lemma_lookup_none(self.may_offload@, scope@);
        }
        false
    }

    /// Every offloadable scope with its switch, in key order.
    pub fn snapshot(&self) -> (s: Vec<(String, bool)>)
        ensures
            s@.len() == 6,
            forall|i: int|
                0 <= i < 6 ==> (#[trigger] s@[i]).0@ == sorted_scopes()[i] && s@[i].1
                    == self.permits(sorted_scopes()[i]),
    {
        let names: [&'static str; 6] = ["calendar", "files", "mail", "memory", "prompt", "screen"];
        let mut out: Vec<(String, bool)> = Vec::new();
        let mut i: usize = 0;
        while i < 6
            invariant
                i <= 6,
                names@.len() == 6,
                forall|j: int| 0 <= j < 6 ==> #[trigger] names@[j]@ == sorted_scopes()[j],
                out@.len() == i,
                forall|j: int|
                    0 <= j < i ==> (#[trigger] out@[j]).0@ == sorted_scopes()[j] && out@[j].1
                        == self.permits(sorted_scopes()[j]),
            decreases 6 - i,
        {
            let name = names[i];
            out.push((owned(name), self.allowed(name)));
            i = i + 1;
        }
        out
    }

    /// Flip the switch for `scope`. Unknown scopes are refused and nothing
    /// changes.
    pub fn set(&mut self, scope: &str, allowed: bool) -> (r: Result<(), ConsentError>)
        ensures
            known_scope(scope@) ==> r is Ok && final(self).switches() == old(
                self,
            ).switches().insert(scope@, allowed),
            !known_scope(scope@) ==> (r matches Err(ConsentError::UnknownScope(s)) && s@ == scope@)
                && final(self).switches() == old(self).switches(),
            final(self).file() == old(self).file(),
    {
        if !is_known_scope(scope) {
            return Err(ConsentError::UnknownScope(owned(scope)));
        }
        self.put(scope, allowed);
        Ok(())
    }

    /// Gate a request: every declared scope must be known and switched on,
    /// and `prompt` is always required, declared or not.
    pub fn check(&self, scopes: &[String]) -> (r: Result<(), ConsentError>)
        ensures
            refusal_view(r) == self.spec_check(scope_views(scopes@)),
    {
        let mut i: usize = 0;
        while i < scopes.len()
            invariant
                i <= scopes.len(),
                forall|j: int| 0 <= j < i ==> known_scope(scopes@[j]@),
            decreases scopes.len() - i,
        {
            if !is_known_scope(scopes[i].as_str()) {
                proof {
                    assert(first_unknown(scope_views(scopes@)) == i as int) by {
                        lemma_first_unknown(scope_views(scopes@), i as int);
                    }
                }
                return Err(ConsentError::UnknownScope(scopes[i].clone()));
            }
            i = i + 1;
        }
        proof {
            lemma_first_unknown_none(scope_views(scopes@));
        }
        let mut has_prompt = false;
        let mut denied: Vec<String> = Vec::new();
        let ghost sv = scope_views(scopes@);
        i = 0;
        while i < scopes.len()
            invariant
                i <= scopes.len(),
                sv == scope_views(scopes@),
                has_prompt == sv.take(i as int).contains("prompt"@),
                scope_views(denied@) == sv.take(i as int).filter(|s: Seq<char>| !self.permits(s)),
            decreases scopes.len() - i,
        {
            let s = scopes[i].as_str();
            proof {
                assert(sv.take(i as int + 1) =~= sv.take(i as int).push(sv[i as int]));
                reveal_with_fuel(Seq::filter, 1);
                assert(sv.take(i as int + 1).drop_last() =~= sv.take(i as int));
            }
            let ghost before = scope_views(denied@);
            proof {
                let t = sv.take(i as int);
                let t1 = sv.take(i as int + 1);
                if t1.contains("prompt"@) && !t.contains("prompt"@) {
                    let k = choose|k: int| 0 <= k < t1.len() && t1[k] == "prompt"@;
                    assert(k == i);
                }
                if t.contains("prompt"@) {
                    let k = choose|k: int| 0 <= k < t.len() && t[k] == "prompt"@;
                    assert(t1[k] == "prompt"@);
                }
                if sv[i as int] == "prompt"@ {
                    assert(t1[i as int] == "prompt"@);
                }
            }
            if str_eq(s, "prompt") {
                has_prompt = true;
            }
            if !self.allowed(s) {
                denied.push(scopes[i].clone());
                assert(scope_views(denied@) =~= before.push(sv[i as int]));
            }
            i = i + 1;
        }
        assert(sv.take(scopes.len() as int) =~= sv);
        proof {
            let f = |x: Seq<char>| !self.permits(x);
            assert(sv.push("prompt"@).drop_last() =~= sv);
            assert(sv.push("prompt"@).filter(f) == sv.filter(f) + if f("prompt"@) {
                seq!["prompt"@]
            } else {
                Seq::<Seq<char>>::empty()
            }) by {
                reveal_with_fuel(Seq::filter, 1);
            }
        }
        if !has_prompt && !self.allowed("prompt") {
            let ghost before = scope_views(denied@);
            denied.push(owned("prompt"));
            assert(scope_views(denied@) =~= before.push("prompt"@));
        }
        assert(scope_views(denied@) =~= required_scopes(sv).filter(|x: Seq<char>| !self.permits(x)));
        if denied.len() == 0 {
            Ok(())
        } else {
            Err(ConsentError::Denied(denied))
        }
    }

    /// What the consent check decides for the declared scopes `s`.
    pub open spec fn spec_check(&self, s: Seq<Seq<char>>) -> Result<(), CheckRefusal> {
        if first_unknown(s) >= 0 {
            Err(CheckRefusal::Unknown(s[first_unknown(s)]))
        } else {
            let denied = required_scopes(s).filter(|x: Seq<char>| !self.permits(x));
            if denied.len() == 0 {
                Ok(())
            } else {
                Err(CheckRefusal::Denied(denied))
            }
        }
    }
}

/// Why the consent check refuses, as the specification speaks of it.
pub enum CheckRefusal {
    Unknown(Seq<char>),
    Denied(Seq<Seq<char>>),
}

pub open spec fn refusal_view(r: Result<(), ConsentError>) -> Result<(), CheckRefusal> {
    match r {
        Ok(()) => Ok(()),
        Err(ConsentError::UnknownScope(s)) => Err(CheckRefusal::Unknown(s@)),
        Err(ConsentError::Denied(d)) => Err(CheckRefusal::Denied(scope_views(d@))),
    }
}

pub open spec fn scope_views(v: Seq<String>) -> Seq<Seq<char>> {
    Seq::new(v.len(), |i: int| v[i]@)
}

/// Index of the first declared scope that is not offloadable, or -1.
pub open spec fn first_unknown(s: Seq<Seq<char>>) -> int
    decreases s.len(),
{
    if s.len() == 0 {
        -1
    } else if !known_scope(s[0]) {
        0
    } else {
        let j = first_unknown(s.drop_first());
        if j < 0 {
            -1
        } else {
            j + 1
        }
    }
}

proof fn lemma_first_unknown(s: Seq<Seq<char>>, i: int)
    requires
        0 <= i < s.len(),
        !known_scope(s[i]),
        forall|j: int| 0 <= j < i ==> known_scope(s[j]),
    ensures
        first_unknown(s) == i,
    decreases s.len(),
{
    if i > 0 {
        lemma_first_unknown(s.drop_first(), i - 1);
    }
}

proof fn lemma_first_unknown_none(s: Seq<Seq<char>>)
    requires
        forall|j: int| 0 <= j < s.len() ==> known_scope(s[j]),
    ensures
        first_unknown(s) == -1,
    decreases s.len(),
{
    if s.len() > 0 {
        lemma_first_unknown_none(s.drop_first());
    }
}

/// Nothing leaves by default: a fresh consent permits no scope.
pub proof fn lemma_default_denies(c: Consent, scope: Seq<char>)
    requires
        c.switches() == Map::<Seq<char>, bool>::empty(),
    ensures
        !c.permits(scope),
{
}

proof fn lemma_first_unknown_all(s: Seq<Seq<char>>)
    ensures
        first_unknown(s) == -1 <==> (forall|j: int| 0 <= j < s.len() ==> known_scope(s[j])),
        first_unknown(s) >= 0 ==> 0 <= first_unknown(s) < s.len() && !known_scope(
            s[first_unknown(s)],
        ),
    decreases s.len(),
{
    if s.len() > 0 {
        lemma_first_unknown_all(s.drop_first());
        if known_scope(s[0]) && first_unknown(s.drop_first()) == -1 {
            assert forall|j: int| 0 <= j < s.len() implies known_scope(s[j]) by {
                if j > 0 {
                    assert(s[j] == s.drop_first()[j - 1]);
                }
            }
        }
        if known_scope(s[0]) && first_unknown(s.drop_first()) >= 0 {
            let k = first_unknown(s.drop_first());
            assert(s[k + 1] == s.drop_first()[k]);
        }
    }
}

/// The scopes a request requires: the declared ones, plus `prompt`.
pub open spec fn required_scopes(s: Seq<Seq<char>>) -> Seq<Seq<char>> {
    if s.contains("prompt"@) {
        s
    } else {
        s.push("prompt"@)
    }
}

proof fn lemma_denied_empty(c: Consent, req: Seq<Seq<char>>)
    ensures
        req.filter(|x: Seq<char>| !c.permits(x)).len() == 0 <==> (forall|i: int|
            0 <= i < req.len() ==> c.permits(req[i])),
{
    let f = |x: Seq<char>| !c.permits(x);
    if req.filter(f).len() > 0 {
        req.lemma_filter_pred(f, 0);
        assert(req.filter(f).contains(req.filter(f)[0]));
        req.lemma_filter_contains_rev(f, req.filter(f)[0]);
    } else {
        assert forall|i: int| 0 <= i < req.len() implies c.permits(req[i]) by {
            if !c.permits(req[i]) {
                req.lemma_filter_contains(f, i);
            }
        }
    }
}

/// The consent check admits a request exactly when every declared scope is known
/// and switched on, and `prompt` is switched on: the prompt itself always
/// leaves.
pub proof fn lemma_check_admits(c: Consent, s: Seq<Seq<char>>)
    ensures
        c.spec_check(s) is Ok <==> (forall|i: int| 0 <= i < s.len() ==> known_scope(s[i])
            && c.permits(s[i])) && c.permits("prompt"@),
{
    lemma_first_unknown_all(s);
    let req = required_scopes(s);
    lemma_denied_empty(c, req);
    if !s.contains("prompt"@) {
        assert(req[s.len() as int] == "prompt"@);
        assert forall|i: int| 0 <= i < s.len() implies req[i] == s[i] by {}
    } else {
        let k = choose|k: int| 0 <= k < s.len() && s[k] == "prompt"@;
        assert(req[k] == "prompt"@);
    }
}

/// Denied scopes are listed in request order, each one that the user has
/// not switched on, `prompt` last when it was not declared.
pub proof fn lemma_check_denies(c: Consent, s: Seq<Seq<char>>)
    requires
        first_unknown(s) == -1,
    ensures
        c.spec_check(s) matches Err(CheckRefusal::Denied(d)) ==> d == required_scopes(s).filter(
            |x: Seq<char>| !c.permits(x),
        ),
{
}

/// Read after write: after `set` accepts a scope, `allowed` answers with
/// the value just written, and the other scopes keep theirs.
pub proof fn lemma_set_then_allowed(
    before: Consent,
    after: Consent,
    scope: Seq<char>,
    value: bool,
    other: Seq<char>,
)
    requires
        after.switches() == before.switches().insert(scope, value),
    ensures
        after.permits(scope) == value,
        other != scope ==> after.permits(other) == before.permits(other),
{
}

} // verus!
