//! The deterministic bag-of-words hashing embedder's integer part: the
//! tokens of a text (maximal runs of alphanumeric characters), each
//! ASCII-lowercased and hashed with 64-bit FNV-1a into one of `dim`
//! buckets. The float vector (bucket counts, L2-normalized) and cosine
//! ranking are the daemon's.

use crate::text::{ascii_lower, owned, push_char, strings_view, to_ascii_lower};
use vstd::prelude::*;

verus! {

/// Deterministic bag-of-words hashing embedder: similar texts (shared
/// tokens) land in the same buckets.
pub struct HashEmbedder {
    pub dim: usize,
}

impl Default for HashEmbedder {
    fn default() -> (e: HashEmbedder)
        ensures
            e.dim == 64,
    {
        HashEmbedder { dim: 64 }
    }
}

/// Whether `char::is_alphanumeric` holds of `c` (Unicode alphabetic or
/// numeric).
pub uninterp spec fn unicode_alphanumeric(c: char) -> bool;

/// `char::is_alphanumeric`. Its documentation defines it as alphabetic or
/// numeric, which on ASCII characters is exactly the letters and digits.
#[verifier::external_body]
fn alphanumeric(c: char) -> (b: bool)
    ensures
        b == unicode_alphanumeric(c),
        c < '\u{80}' ==> (b <==> crate::text::is_ascii_alnum(c)),
{
    c.is_alphanumeric()
}

/// The maximal runs of alphanumeric characters of `s`, in order.
pub open spec fn word_runs(s: Seq<char>) -> Seq<Seq<char>>
    decreases s.len(),
{
    if s.len() == 0 {
        Seq::empty()
    } else {
        let rest = word_runs(s.drop_last());
        let c = s.last();
        if !unicode_alphanumeric(c) {
            rest
        } else if s.len() > 1 && unicode_alphanumeric(s[s.len() - 2]) && rest.len() > 0 {
            rest.update(rest.len() - 1, rest.last().push(c))
        } else {
            rest.push(seq![c])
        }
    }
}


/// A run ends with the character before it, so the last run is open
/// exactly when the text ends with an alphanumeric character.
proof fn lemma_runs_open(s: Seq<char>)
    requires
        s.len() > 0,
        unicode_alphanumeric(s.last()),
    ensures
        word_runs(s).len() > 0,
    decreases s.len(),
{
}

/// The tokens of `text`.
pub fn word_tokens(text: &str) -> (r: Vec<String>)
    ensures
        strings_view(r@) == word_runs(text@),
{
    let n = text.unicode_len();
    let mut out: Vec<String> = Vec::new();
    let mut i: usize = 0;
    assert(strings_view(out@) =~= word_runs(text@.take(0)));
    while i < n
        invariant
            n == text@.len(),
            i <= n,
            strings_view(out@) == word_runs(text@.take(i as int)),
        decreases n - i,
    {
        let c = text.get_char(i);
        let ghost before = strings_view(out@);
        let ghost t = text@.take(i as int + 1);
        assert(t.drop_last() =~= text@.take(i as int));
        assert(t.last() == c);
        if alphanumeric(c) {
            let open = i > 0 && alphanumeric(text.get_char(i - 1));
            if open {
                assert(t[t.len() - 2] == text@[i - 1]);
                proof {
                    let p = text@.take(i as int);
                    assert(p.last() == text@[i - 1]);
                    lemma_runs_open(p);
                }
                let k = out.len() - 1;
                let mut last = out.pop().unwrap();
                push_char(&mut last, c);
                out.push(last);
                assert(strings_view(out@) =~= before.update(k as int, before[k as int].push(c)));
            } else {
                if i > 0 {
                    assert(t[t.len() - 2] == text@[i - 1]);
                }
                let mut s = String::new();
                push_char(&mut s, c);
                out.push(s);
                assert(strings_view(out@) =~= before.push(seq![c]));
            }
        }
        i = i + 1;
    }
    assert(text@.take(n as int) =~= text@);
    out
}

/// 64-bit FNV-1a of `b`.
pub open spec fn fnv1a(b: Seq<u8>) -> u64
    decreases b.len(),
{
    if b.len() == 0 {
        1469598103934665603u64
    } else {
        (fnv1a(b.drop_last()) ^ (b.last() as u64)).wrapping_mul(1099511628211u64)
    }
}

pub fn fnv1a_hash(b: &[u8]) -> (h: u64)
    ensures
        h == fnv1a(b@),
{
    let mut h: u64 = 1469598103934665603;
    let mut i: usize = 0;
    assert(b@.take(0) =~= Seq::<u8>::empty());
    while i < b.len()
        invariant
            i <= b.len(),
            h == fnv1a(b@.take(i as int)),
        decreases b.len() - i,
    {
        assert(b@.take(i as int + 1).drop_last() =~= b@.take(i as int));
        h = (h ^ (b[i] as u64)).wrapping_mul(1099511628211);
        i = i + 1;
    }
    assert(b@.take(b.len() as int) =~= b@);
    h
}

/// The token's ASCII lowercasing.
pub open spec fn lowered(t: Seq<char>) -> Seq<char> {
    Seq::new(t.len(), |i: int| ascii_lower(t[i]))
}

/// The bucket a token falls in.
pub open spec fn bucket_of(t: Seq<char>, dim: usize) -> int {
    ((fnv1a(vstd::utf8::encode_utf8(lowered(t))) as usize) % dim) as int
}

/// How many of `toks` fall in bucket `b`.
pub open spec fn bucket_count(toks: Seq<Seq<char>>, dim: usize, b: int) -> nat
    decreases toks.len(),
{
    if toks.len() == 0 {
        0
    } else {
        bucket_count(toks.drop_last(), dim, b) + if bucket_of(toks.last(), dim) == b {
            1nat
        } else {
            0nat
        }
    }
}

proof fn lemma_bucket_count_bound(toks: Seq<Seq<char>>, dim: usize, b: int)
    ensures
        bucket_count(toks, dim, b) <= toks.len(),
    decreases toks.len(),
{
    if toks.len() > 0 {
        lemma_bucket_count_bound(toks.drop_last(), dim, b);
    }
}

fn lower_token(t: &str) -> (r: String)
    ensures
        r@ == lowered(t@),
{
    let n = t.unicode_len();
    let mut r = String::new();
    let mut i: usize = 0;
    while i < n
        invariant
            n == t@.len(),
            i <= n,
            r@ == lowered(t@.take(i as int)),
        decreases n - i,
    {
        push_char(&mut r, to_ascii_lower(t.get_char(i)));
        assert(r@ =~= lowered(t@.take(i as int + 1)));
        i = i + 1;
    }
    assert(t@.take(n as int) =~= t@);
    r
}

impl HashEmbedder {
    /// The bucket counts of `text`: for each of the `dim` buckets, how
    /// many of the text's tokens hash into it.
    pub fn bucket_counts(&self, text: &str) -> (r: Vec<usize>)
        requires
            self.dim > 0 || word_runs(text@).len() == 0,
        ensures
            r@.len() == self.dim,
            forall|b: int| 0 <= b < self.dim ==> r@[b] == bucket_count(word_runs(text@), self.dim, b),
    {
        let toks = word_tokens(text);
        let ghost tv = strings_view(toks@);
        let mut counts: Vec<usize> = Vec::new();
        let mut k: usize = 0;
        while k < self.dim
            invariant
                k <= self.dim,
                counts@.len() == k,
                forall|b: int| 0 <= b < k ==> counts@[b] == 0,
            decreases self.dim - k,
        {
            counts.push(0);
            k = k + 1;
        }
        let mut i: usize = 0;
        assert(tv.len() == toks@.len());
        while i < toks.len()
            invariant
                self.dim > 0 || tv.len() == 0,
                tv.len() == toks@.len(),
                tv == strings_view(toks@),
                i <= toks.len(),
                counts@.len() == self.dim,
                forall|b: int| 0 <= b < self.dim ==> counts@[b] == bucket_count(tv.take(i as int), self.dim, b),
            decreases toks.len() - i,
        {
            assert(self.dim > 0);
            let lower = lower_token(toks[i].as_str());
            let h = fnv1a_hash(lower.as_str().as_bytes());
            let bk = (h as usize) % self.dim;
            let ghost prev = counts@;
            proof {
                assert(tv.take(i as int + 1).drop_last() =~= tv.take(i as int));
                assert(tv.take(i as int + 1).last() == toks@[i as int]@);
                lemma_bucket_count_bound(tv.take(i as int), self.dim, bk as int);
                assert(tv.take(i as int).len() == i);
            }
            counts.set(bk, counts[bk] + 1);
            proof {
                assert forall|b: int| 0 <= b < self.dim implies counts@[b] == bucket_count(
                    tv.take(i as int + 1),
                    self.dim,
                    b,
                ) by {
                    assert(bucket_of(toks@[i as int]@, self.dim) == bk as int);
                }
            }
            i = i + 1;
        }
        assert(tv.take(toks.len() as int) =~= tv);
        counts
    }
}

} // verus!
