//! Multi-model residency: one engine per resident model, admitted lazily
//! on first request and evicted least-recently-used when the residency
//! cap is reached. This module keeps the residency order and decides
//! reuse, refusal, eviction and the port of a new engine; the daemon
//! spawns and stops the engines.

use crate::engine::EngineError;
use crate::text::{lemma_lex_strict, lemma_lex_trans, lex_lt, owned, str_eq, str_lt};
use vstd::prelude::*;

verus! {

/// Whether `s` is one of the well-known aliases of the default model.
pub open spec fn is_alias(s: Seq<char>) -> bool {
    s == "lisa"@ || s == "lisa-system"@ || s == "lisa-system-stub"@ || s == "default"@ || s
        == "auto"@ || s == ""@
}

/// The model a request names: no name, or a well-known alias, means
/// the default model.
pub open spec fn spec_canonical(default: Seq<char>, model: Option<Seq<char>>) -> Seq<char> {
    let requested = match model {
        Some(m) => m,
        None => default,
    };
    if is_alias(requested) {
        default
    } else {
        requested
    }
}

pub fn canonical_model(default: &str, model: Option<&str>) -> (r: String)
    ensures
        r@ == spec_canonical(
            default@,
            match model {
                Some(m) => Some(m@),
                None => None,
            },
        ),
{
    let requested = match model {
        Some(m) => m,
        None => default,
    };
    if str_eq(requested, "lisa") || str_eq(requested, "lisa-system") || str_eq(
        requested,
        "lisa-system-stub",
    ) || str_eq(requested, "default") || str_eq(requested, "auto") || str_eq(requested, "") {
        owned(default)
    } else {
        owned(requested)
    }
}

/// The refusal for a model that is neither the default nor in the store.
pub open spec fn not_in_store(name: Seq<char>) -> Seq<char> {
    "model `"@ + name + "` is not in the store (lisa models list)"@
}

pub open spec fn names(v: Seq<String>) -> Seq<Seq<char>> {
    Seq::new(v.len(), |i: int| v[i]@)
}

pub open spec fn distinct(s: Seq<Seq<char>>) -> bool {
    forall|i: int, j: int| 0 <= i < j < s.len() ==> s[i] != s[j]
}

/// How many of the oldest residents leave before one more is admitted
/// under cap `cap`.
pub open spec fn evictions(len: nat, cap: nat) -> nat {
    if len >= cap {
        (len - cap + 1) as nat
    } else {
        0
    }
}

/// Evict the oldest entries of `lru` until fewer than `cap` remain.
fn evict_oldest(lru: &mut Vec<String>, cap: usize) -> (evicted: Vec<String>)
    requires
        cap >= 1,
    ensures
        names(evicted@) == names(old(lru)@).take(evictions(old(lru)@.len(), cap as nat) as int),
        names(final(lru)@) == names(old(lru)@).skip(evictions(old(lru)@.len(), cap as nat) as int),
{
    let ghost before = names(lru@);
    let ghost e = evictions(before.len(), cap as nat);
    let n0 = lru.len();
    let mut evicted: Vec<String> = Vec::new();
    let mut k: usize = 0;
    assert(before.skip(0) =~= before);
    assert(before.take(0) =~= Seq::<Seq<char>>::empty());
    assert(names(evicted@) =~= Seq::<Seq<char>>::empty());
    while lru.len() >= cap
        invariant
            cap >= 1,
            n0 == before.len(),
            e == evictions(before.len(), cap as nat),
            k + lru@.len() == before.len(),
            names(lru@) == before.skip(k as int),
            names(evicted@) == before.take(k as int),
            lru@.len() >= cap ==> k < e,
            k <= e,
            lru@.len() < cap ==> k == e,
        decreases lru.len(),
    {
        let ghost old_lru = names(lru@);
        let s = lru.remove(0);
        assert(names(lru@) =~= old_lru.skip(1));
        assert(old_lru[0] == before[k as int]);
        assert(s@ == before[k as int]);
        let ghost old_ev = names(evicted@);
        evicted.push(s);
        assert(names(evicted@) =~= old_ev.push(s@));
        assert(before.take(k as int + 1) =~= before.take(k as int).push(before[k as int]));
        assert(before.skip(k as int).skip(1) =~= before.skip(k as int + 1));
        k = k + 1;
    }
    evicted
}

/// Residency order (least recently used first) and port allocation.
pub struct PoolState {
    lru: Vec<String>,
    cap: usize,
    base_port: u16,
    next_port_offset: u16,
}

impl PoolState {
    #[verifier::type_invariant]
    spec fn inv(&self) -> bool {
        &&& distinct(names(self.lru@))
        &&& self.cap >= 1
        &&& self.lru@.len() <= self.cap
    }

    /// Resident models, least recently used first.
    pub closed spec fn residents(&self) -> Seq<Seq<char>> {
        names(self.lru@)
    }

    /// The residency cap.
    pub closed spec fn cap(&self) -> nat {
        self.cap as nat
    }

    /// The port the next admitted engine gets.
    pub closed spec fn next_port(&self) -> u16 {
        if self.base_port + self.next_port_offset > u16::MAX {
            (self.base_port + self.next_port_offset - 65536) as u16
        } else {
            (self.base_port + self.next_port_offset) as u16
        }
    }

    pub closed spec fn port_offset(&self) -> u16 {
        self.next_port_offset
    }

    /// No residents; the cap is at least one.
    pub fn new(max_resident: usize, base_port: u16) -> (s: PoolState)
        ensures
            s.residents().len() == 0,
            s.cap() == (if max_resident >= 1 {
                max_resident as nat
            } else {
                1
            }),
            s.port_offset() == 0,
    {
        let cap = if max_resident >= 1 {
            max_resident
        } else {
            1
        };
        PoolState { lru: Vec::new(), cap, base_port, next_port_offset: 0 }
    }

    fn position(&self, name: &str) -> (i: usize)
        ensures
            i <= self.residents().len(),
            i < self.residents().len() ==> self.residents()[i as int] == name@,
            forall|j: int| 0 <= j < i ==> self.residents()[j] != name@,
    {
        let mut i: usize = 0;
        while i < self.lru.len() && !str_eq(self.lru[i].as_str(), name)
            invariant
                i <= self.lru.len(),
                forall|j: int| 0 <= j < i ==> names(self.lru@)[j] != name@,
            decreases self.lru.len() - i,
        {
            i = i + 1;
        }
        i
    }

    /// Whether `name` is resident.
    pub fn is_resident(&self, name: &str) -> (b: bool)
        ensures
            b == self.residents().contains(name@),
    {
        let i = self.position(name);
        proof {
            if self.residents().contains(name@) {
                let j = choose|j: int| 0 <= j < self.residents().len() && self.residents()[j] == name@;
                assert(j >= i);
            }
        }
        i < self.lru.len()
    }

    /// A request for a resident model: it becomes the most recently used.
    /// Returns whether the model was resident (otherwise nothing changes).
    pub fn touch(&mut self, name: &str) -> (hit: bool)
        ensures
            hit == old(self).residents().contains(name@),
            hit ==> final(self).residents() == old(self).residents().remove(
                old(self).residents().index_of(name@),
            ).push(name@),
            !hit ==> final(self).residents() == old(self).residents(),
            final(self).cap() == old(self).cap(),
            final(self).port_offset() == old(self).port_offset(),
            final(self).next_port() == old(self).next_port(),
    {
        proof {
            use_type_invariant(&*self);
        }
        let i = self.position(name);
        let ghost before = names(self.lru@);
        if i == self.lru.len() {
            proof {
                if before.contains(name@) {
                    let j = choose|j: int| 0 <= j < before.len() && before[j] == name@;
                    assert(j >= i);
                }
            }
            return false;
        }
        proof {
            before.index_of_first_ensures(name@);
            assert(before.contains(name@));
            let k = before.index_of(name@);
            assert(k == i) by {
                if k < i {
                    assert(before[k] != name@);
                }
                if i < k {
                    assert(before[i as int] == name@);
                }
            }
        }
        let mut lru: Vec<String> = Vec::new();
        std::mem::swap(&mut lru, &mut self.lru);
        let s = lru.remove(i);
        lru.push(s);
        proof {
            assert(names(lru@) =~= before.remove(i as int).push(name@));
            let after = names(lru@);
            assert forall|a: int, b: int| 0 <= a < b < after.len() implies after[a] != after[b] by {
                let a2 = if a < i { a } else { a + 1 };
                if b == after.len() - 1 {
                    assert(after[b] == before[i as int]);
                    assert(after[a] == before[a2]);
                } else {
                    let b2 = if b < i { b } else { b + 1 };
                    assert(after[a] == before[a2]);
                    assert(after[b] == before[b2]);
                }
            }
        }
        self.lru = lru;
        true
    }

    /// Drop `name` from the residents (its engine is gone); returns whether
    /// it was resident (otherwise nothing changes).
    pub fn forget(&mut self, name: &str) -> (hit: bool)
        ensures
            hit == old(self).residents().contains(name@),
            hit ==> final(self).residents() == old(self).residents().remove(
                old(self).residents().index_of(name@),
            ),
            !hit ==> final(self).residents() == old(self).residents(),
            !final(self).residents().contains(name@),
            final(self).cap() == old(self).cap(),
            final(self).port_offset() == old(self).port_offset(),
            final(self).next_port() == old(self).next_port(),
    {
        proof {
            use_type_invariant(&*self);
        }
        let i = self.position(name);
        let ghost before = names(self.lru@);
        if i == self.lru.len() {
            proof {
                if before.contains(name@) {
                    let j = choose|j: int| 0 <= j < before.len() && before[j] == name@;
                    assert(j >= i);
                }
            }
            return false;
        }
        proof {
            before.index_of_first_ensures(name@);
            let k = before.index_of(name@);
            assert(k == i) by {
                if k < i {
                    assert(before[k] != name@);
                }
                if i < k {
                    assert(before[i as int] == name@);
                }
            }
        }
        let mut lru: Vec<String> = Vec::new();
        std::mem::swap(&mut lru, &mut self.lru);
        lru.remove(i);
        proof {
            let after = names(lru@);
            assert(after =~= before.remove(i as int));
            assert forall|a: int, b: int| 0 <= a < b < after.len() implies after[a] != after[b] by {
                let a2 = if a < i { a } else { a + 1 };
                let b2 = if b < i { b } else { b + 1 };
                assert(after[a] == before[a2]);
                assert(after[b] == before[b2]);
            }
            assert forall|j: int| 0 <= j < after.len() implies after[j] != name@ by {
                let j2 = if j < i { j } else { j + 1 };
                assert(after[j] == before[j2]);
                assert(before[i as int] == name@);
            }
        }
        self.lru = lru;
        true
    }

    /// Make room for a new resident: evict the least recently used while
    /// the pool is full, and allocate the new engine's port (the base
    /// port plus a counter, both wrapping). Returns the evicted models,
    /// oldest first, and the port.
    pub fn make_room(&mut self) -> (r: (Vec<String>, u16))
        ensures
            names(r.0@) == old(self).residents().take(
                evictions(old(self).residents().len(), old(self).cap()) as int,
            ),
            final(self).residents() == old(self).residents().skip(
                evictions(old(self).residents().len(), old(self).cap()) as int,
            ),
            final(self).residents().len() < final(self).cap(),
            r.1 == old(self).next_port(),
            final(self).port_offset() == (if old(self).port_offset() == u16::MAX {
                0
            } else {
                (old(self).port_offset() + 1) as u16
            }),
            final(self).cap() == old(self).cap(),
    {
        proof {
            use_type_invariant(&*self);
        }
        let ghost before = names(self.lru@);
        let mut lru: Vec<String> = Vec::new();
        std::mem::swap(&mut lru, &mut self.lru);
        let evicted = evict_oldest(&mut lru, self.cap);
        proof {
            let after = names(lru@);
            let k = evictions(before.len(), self.cap as nat);
            assert forall|a: int, b: int| 0 <= a < b < after.len() implies after[a] != after[b] by {
                assert(after[a] == before[a + k]);
                assert(after[b] == before[b + k]);
            }
        }
        self.lru = lru;
        let port = self.base_port.wrapping_add(self.next_port_offset);
        self.next_port_offset = self.next_port_offset.wrapping_add(1);
        (evicted, port)
    }

    /// A new engine for `name` came up: it becomes the most recently used
    /// resident (making room first if the pool is full).
    pub fn admitted(&mut self, name: &str) -> (evicted: Vec<String>)
        requires
            !old(self).residents().contains(name@),
        ensures
            names(evicted@) == old(self).residents().take(
                evictions(old(self).residents().len(), old(self).cap()) as int,
            ),
            final(self).residents() == old(self).residents().skip(
                evictions(old(self).residents().len(), old(self).cap()) as int,
            ).push(name@),
            final(self).cap() == old(self).cap(),
            final(self).residents().len() <= final(self).cap(),
            distinct(final(self).residents()),
    {
        proof {
            use_type_invariant(&*self);
        }
        let ghost before = names(self.lru@);
        let mut lru: Vec<String> = Vec::new();
        std::mem::swap(&mut lru, &mut self.lru);
        let evicted = evict_oldest(&mut lru, self.cap);
        let ghost mid = names(lru@);
        lru.push(owned(name));
        proof {
            assert(names(lru@) =~= mid.push(name@));
            let after = names(lru@);
            let k = evictions(before.len(), self.cap as nat);
            assert forall|a: int, b: int| 0 <= a < b < after.len() implies after[a] != after[b] by {
                assert(after[a] == before[a + k]);
                if b == after.len() - 1 {
                    assert(before.contains(before[a + k]));
                } else {
                    assert(after[b] == before[b + k]);
                }
            }
        }
        self.lru = lru;
        evicted
    }
}

/// What a request for a model that is not resident may do: the default
/// model is always admissible; any other must be in the store.
pub fn check_admissible(name: &str, default: &str, in_store: bool) -> (r: Result<(), EngineError>)
    ensures
        (name@ == default@ || in_store) ==> r is Ok,
        !(name@ == default@ || in_store) ==> (r matches Err(EngineError::Unavailable(m)) && m@
            == not_in_store(name@)),
{
    if str_eq(name, default) || in_store {
        return Ok(());
    }
    let mut m = owned("model `");
    m.append(name);
    m.append("` is not in the store (lisa models list)");
    Err(EngineError::Unavailable(m))
}

/// Strings in ascending order.
pub open spec fn ascending(s: Seq<Seq<char>>) -> bool {
    forall|i: int, j: int| 0 <= i < j < s.len() ==> !lex_lt(#[trigger] s[j], #[trigger] s[i])
}

proof fn lemma_insert_multiset<A>(s: Seq<A>, p: int, x: A)
    requires
        0 <= p <= s.len(),
    ensures
        s.insert(p, x).to_multiset() =~= s.to_multiset().insert(x),
{
    let t = s.insert(p, x);
    t.to_multiset_ensures();
    assert(t.remove(p) =~= s);
    assert(t.contains(x)) by {
        assert(t[p] == x);
    }
}

/// `v` in ascending order (a permutation of it).
pub fn sort_names(v: Vec<String>) -> (r: Vec<String>)
    ensures
        ascending(names(r@)),
        names(r@).to_multiset() == names(v@).to_multiset(),
{
    let ghost whole = names(v@).to_multiset();
    let mut rest = v;
    let mut out: Vec<String> = Vec::new();
    proof {
        names(out@).to_multiset_ensures();
        vstd::multiset::lemma_multiset_empty_len(names(out@).to_multiset());
        assert(names(out@).to_multiset().add(names(rest@).to_multiset()) =~= whole);
    }
    while rest.len() > 0
        invariant
            ascending(names(out@)),
            names(out@).to_multiset().add(names(rest@).to_multiset()) == whole,
        decreases rest.len(),
    {
        let ghost before_rest = names(rest@);
        let x = rest.pop().unwrap();
        proof {
            assert(before_rest =~= names(rest@).push(x@));
            names(rest@).to_multiset_ensures();
        }
        let mut p: usize = 0;
        while p < out.len() && !str_lt(x.as_str(), out[p].as_str())
            invariant
                p <= out.len(),
                forall|j: int| 0 <= j < p ==> !lex_lt(x@, #[trigger] names(out@)[j]),
            decreases out.len() - p,
        {
            p = p + 1;
        }
        let ghost before_out = names(out@);
        let ghost xv = x@;
        out.insert(p, x);
        proof {
            assert(names(out@) =~= before_out.insert(p as int, xv));
            lemma_insert_multiset(before_out, p as int, xv);
            let after = names(out@);
            assert forall|i: int, j: int| 0 <= i < j < after.len() implies !lex_lt(
                #[trigger] after[j],
                #[trigger] after[i],
            ) by {
                if i < p && j == p {
                    lemma_lex_strict(xv, before_out[i]);
                } else if i < p && j > p {
                    assert(!lex_lt(before_out[j - 1], before_out[i]));
                } else if i == p && j > p {
                    assert(lex_lt(xv, before_out[p as int]));
                    lemma_lex_strict(xv, before_out[p as int]);
                    if j - 1 > p {
                        assert(!lex_lt(before_out[j - 1], before_out[p as int]));
                        lemma_lex_strict(before_out[j - 1], before_out[p as int]);
                        if lex_lt(before_out[j - 1], xv) {
                            if before_out[j - 1] == before_out[p as int] {
                            } else {
                                lemma_lex_trans(before_out[j - 1], xv, before_out[p as int]);
                            }
                        }
                    } else {
                        lemma_lex_strict(before_out[p as int], xv);
                    }
                } else if i > p {
                    assert(!lex_lt(before_out[j - 1], before_out[i - 1]));
                }
            }
        }
    }
    proof {
        names(rest@).to_multiset_ensures();
        vstd::multiset::lemma_multiset_empty_len(names(rest@).to_multiset());
        assert(names(out@).to_multiset().add(names(rest@).to_multiset()) =~= names(out@).to_multiset());
    }
    out
}

/// The models the pool can serve: the store's model names, plus the
/// default when it is not among them, in ascending order.
pub fn known_models(in_store: Vec<String>, default: &str) -> (r: Vec<String>)
    ensures
        ascending(names(r@)),
        names(r@).to_multiset() == (if names(in_store@).contains(default@) {
            names(in_store@)
        } else {
            names(in_store@).push(default@)
        }).to_multiset(),
{
    let mut all = in_store;
    let mut i: usize = 0;
    let mut found = false;
    while i < all.len()
        invariant
            i <= all.len(),
            found == (exists|j: int| 0 <= j < i && names(all@)[j] == default@),
        decreases all.len() - i,
    {
        if str_eq(all[i].as_str(), default) {
            found = true;
            assert(names(all@)[i as int] == default@);
        }
        proof {
            if !found {
                assert forall|j: int| 0 <= j < i + 1 implies names(all@)[j] != default@ by {}
            }
        }
        i = i + 1;
    }
    let ghost listed = names(all@);
    assert(found == listed.contains(default@));
    if !found {
        all.push(owned(default));
        assert(names(all@) =~= listed.push(default@));
    }
    sort_names(all)
}

/// The alias law: no name, or any of the well-known aliases `lisa`,
/// `lisa-system`, `lisa-system-stub`, `default`, `auto` and the empty name,
/// means the default model; every other name means itself.
pub proof fn lemma_aliases_resolve(default: Seq<char>, name: Seq<char>)
    ensures
        spec_canonical(default, None) == default,
        spec_canonical(default, Some("lisa"@)) == default,
        spec_canonical(default, Some("lisa-system"@)) == default,
        spec_canonical(default, Some("lisa-system-stub"@)) == default,
        spec_canonical(default, Some("default"@)) == default,
        spec_canonical(default, Some("auto"@)) == default,
        spec_canonical(default, Some(""@)) == default,
        (name != "lisa"@ && name != "lisa-system"@ && name != "lisa-system-stub"@ && name != "default"@
            && name != "auto"@ && name != ""@) ==> spec_canonical(default, Some(name)) == name,
{
    if is_alias(default) {
    }
}

} // verus!
