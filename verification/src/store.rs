//! The content-addressed model store's decisions. Blobs live under
//! `blobs/<blake3-hex>`, one per unique content; refs under
//! `refs/<name>` are hard links into them. The file system work (hashing
//! files, copying, linking, reading directories) is the daemon's; what
//! an ingest does, what `list` reports, what `verify` finds and what
//! `gc` removes are decided here.

use crate::ledger::spec_blake3_hex;
use crate::text::{lemma_lex_strict, lemma_lex_trans, lex_lt, owned, str_eq, str_lt};
use vstd::prelude::*;

verus! {

/// One named model in the store.
#[derive(Debug, Clone)]
pub struct RefEntry {
    pub name: String,
    pub blake3: String,
    pub size: u64,
}

/// What `verify` found: how many blobs hash to their names, and each
/// corrupt blob as (path, expected hash from its name, actual hash).
#[derive(Debug)]
pub struct VerifyReport {
    pub ok: usize,
    pub corrupt: Vec<(String, String, String)>,
}

impl VerifyReport {
    pub fn is_clean(&self) -> (b: bool)
        ensures
            b == (self.corrupt@.len() == 0),
    {
        self.corrupt.len() == 0
    }
}

/// Why a store operation failed.
#[derive(Debug)]
pub enum StoreError {
    Io { path: String, reason: String },
    RefExists(String),
    RefNotFound(String),
    HashMismatch { path: String, expected: String, actual: String },
}

pub open spec fn store_error_text(e: StoreError) -> Seq<char> {
    match e {
        StoreError::Io { path, reason } => "io error at "@ + path@ + ": "@ + reason@,
        StoreError::RefExists(n) => "ref `"@ + n@ + "` already exists"@,
        StoreError::RefNotFound(n) => "ref `"@ + n@ + "` not found"@,
        StoreError::HashMismatch { path, expected, actual } => "hash mismatch for "@ + path@
            + ": expected "@ + expected@ + ", got "@ + actual@,
    }
}

impl StoreError {
    pub fn message(&self) -> (s: String)
        ensures
            s@ == store_error_text(*self),
    {
        match self {
            StoreError::Io { path, reason } => {
                let mut s = owned("io error at ");
                s.append(path.as_str());
                s.append(": ");
                s.append(reason.as_str());
                s
            },
            StoreError::RefExists(n) => {
                let mut s = owned("ref `");
                s.append(n.as_str());
                s.append("` already exists");
                s
            },
            StoreError::RefNotFound(n) => {
                let mut s = owned("ref `");
                s.append(n.as_str());
                s.append("` not found");
                s
            },
            StoreError::HashMismatch { path, expected, actual } => {
                let mut s = owned("hash mismatch for ");
                s.append(path.as_str());
                s.append(": expected ");
                s.append(expected.as_str());
                s.append(", got ");
                s.append(actual.as_str());
                s
            },
        }
    }
}

/// Ingest a file under a ref name, given the file's hash `hash`, the
/// pinned hash `expected` (if any), and whether the ref and the blob
/// already exist: a pinned mismatch stores nothing, an existing ref is
/// never overwritten, and content already stored is only linked
/// (`Ok(false)`), never copied again (`Ok(true)`).
pub open spec fn opt_view(o: Option<&str>) -> Option<Seq<char>> {
    match o {
        Some(x) => Some(x@),
        None => None,
    }
}

/// The file's hash is the pinned one, when a hash is pinned.
pub open spec fn pinned_ok(expected: Option<&str>, hash: Seq<char>) -> bool {
    match expected {
        Some(e) => e@ == hash,
        None => true,
    }
}

pub fn ingest(src: &str, name: &str, hash: &str, expected: Option<&str>, ref_exists: bool, blob_exists: bool) -> (r:
    Result<bool, StoreError>)
    ensures
        !pinned_ok(expected, hash@) ==> (r matches Err(StoreError::HashMismatch { path, expected: x, actual })
            && path@ == src@ && Some(x@) == opt_view(expected) && actual@ == hash@),
        pinned_ok(expected, hash@) && ref_exists ==> (r matches Err(StoreError::RefExists(n)) && n@ == name@),
        pinned_ok(expected, hash@) && !ref_exists ==> r == Ok::<bool, StoreError>(!blob_exists),
{
    if let Some(e) = expected {
        if !str_eq(e, hash) {
            return Err(StoreError::HashMismatch { path: owned(src), expected: owned(e), actual: owned(hash) });
        }
    }
    if ref_exists {
        return Err(StoreError::RefExists(owned(name)));
    }
    Ok(!blob_exists)
}

/// The temporary file an ingest copies into before renaming it into
/// place: `ingest-<hash>`.
pub fn ingest_tmp_name(hash: &str) -> (s: String)
    ensures
        s@ == "ingest-"@ + hash@,
{
    let mut s = owned("ingest-");
    s.append(hash);
    s
}

/// Removing a ref that does not exist is refused.
pub fn check_remove(name: &str, exists: bool) -> (r: Result<(), StoreError>)
    ensures
        exists ==> r is Ok,
        !exists ==> (r matches Err(StoreError::RefNotFound(n)) && n@ == name@),
{
    if exists {
        Ok(())
    } else {
        Err(StoreError::RefNotFound(owned(name)))
    }
}

/// The corrupt blobs among `blobs` (path, expected, actual), in order.
pub open spec fn corrupt_of(blobs: Seq<(String, String, String)>) -> Seq<(Seq<char>, Seq<char>, Seq<char>)>
    decreases blobs.len(),
{
    if blobs.len() == 0 {
        Seq::empty()
    } else {
        let rest = corrupt_of(blobs.drop_last());
        let b = blobs.last();
        if b.1@ == b.2@ {
            rest
        } else {
            rest.push((b.0@, b.1@, b.2@))
        }
    }
}

pub open spec fn triples(v: Seq<(String, String, String)>) -> Seq<(Seq<char>, Seq<char>, Seq<char>)> {
    Seq::new(v.len(), |i: int| (v[i].0@, v[i].1@, v[i].2@))
}

/// The verify report over every blob's (path, name, recomputed hash):
/// a blob is sound when its content hashes to its name.
pub fn verify_report(blobs: &Vec<(String, String, String)>) -> (r: VerifyReport)
    ensures
        triples(r.corrupt@) == corrupt_of(blobs@),
        r.ok + r.corrupt@.len() == blobs@.len(),
{
    let mut ok: usize = 0;
    let mut corrupt: Vec<(String, String, String)> = Vec::new();
    let mut i: usize = 0;
    while i < blobs.len()
        invariant
            i <= blobs.len(),
            triples(corrupt@) == corrupt_of(blobs@.take(i as int)),
            ok + corrupt@.len() == i,
        decreases blobs.len() - i,
    {
        assert(blobs@.take(i as int + 1).drop_last() =~= blobs@.take(i as int));
        let b = &blobs[i];
        if str_eq(b.1.as_str(), b.2.as_str()) {
            ok = ok + 1;
        } else {
            let ghost before = triples(corrupt@);
            corrupt.push((b.0.clone(), b.1.clone(), b.2.clone()));
            assert(triples(corrupt@) =~= before.push((b.0@, b.1@, b.2@)));
        }
        i = i + 1;
    }
    assert(blobs@.take(blobs.len() as int) =~= blobs@);
    VerifyReport { ok, corrupt }
}

/// The blobs no ref links to any more (a link count of one: only the
/// blob entry itself), in order.
pub open spec fn unreferenced(blobs: Seq<(String, u64)>) -> Seq<Seq<char>>
    decreases blobs.len(),
{
    if blobs.len() == 0 {
        Seq::empty()
    } else {
        let rest = unreferenced(blobs.drop_last());
        if blobs.last().1 == 1 {
            rest.push(blobs.last().0@)
        } else {
            rest
        }
    }
}

pub open spec fn names_of(v: Seq<String>) -> Seq<Seq<char>> {
    Seq::new(v.len(), |i: int| v[i]@)
}

/// What `gc` removes of the blobs (name, link count).
pub fn gc_victims(blobs: &Vec<(String, u64)>) -> (r: Vec<String>)
    ensures
        names_of(r@) == unreferenced(blobs@),
{
    let mut out: Vec<String> = Vec::new();
    let mut i: usize = 0;
    while i < blobs.len()
        invariant
            i <= blobs.len(),
            names_of(out@) == unreferenced(blobs@.take(i as int)),
        decreases blobs.len() - i,
    {
        assert(blobs@.take(i as int + 1).drop_last() =~= blobs@.take(i as int));
        if blobs[i].1 == 1 {
            let ghost before = names_of(out@);
            out.push(blobs[i].0.clone());
            assert(names_of(out@) =~= before.push(blobs@[i as int].0@));
        }
        i = i + 1;
    }
    assert(blobs@.take(blobs.len() as int) =~= blobs@);
    out
}

/// The hash of the blob with inode `ino` (the last one listed with it),
/// or `<orphaned>` when no blob has it.
pub open spec fn blob_hash(blobs: Seq<(u64, String)>, ino: u64) -> Seq<char>
    decreases blobs.len(),
{
    if blobs.len() == 0 {
        "<orphaned>"@
    } else if blobs.last().0 == ino {
        blobs.last().1@
    } else {
        blob_hash(blobs.drop_last(), ino)
    }
}

fn lookup_hash(blobs: &Vec<(u64, String)>, ino: u64) -> (h: String)
    ensures
        h@ == blob_hash(blobs@, ino),
{
    let mut k = blobs.len();
    assert(blobs@.take(k as int) =~= blobs@);
    while k > 0 && blobs[k - 1].0 != ino
        invariant
            k <= blobs.len(),
            blob_hash(blobs@, ino) == blob_hash(blobs@.take(k as int), ino),
        decreases k,
    {
        assert(blobs@.take(k as int).drop_last() =~= blobs@.take(k as int - 1));
        k = k - 1;
    }
    if k == 0 {
        owned("<orphaned>")
    } else {
        blobs[k - 1].1.clone()
    }
}

pub open spec fn entry_view(e: RefEntry) -> (Seq<char>, Seq<char>, u64) {
    (e.name@, e.blake3@, e.size)
}

pub open spec fn entries_view(v: Seq<RefEntry>) -> Seq<(Seq<char>, Seq<char>, u64)> {
    Seq::new(v.len(), |i: int| entry_view(v[i]))
}

/// Each ref (name, inode, size) with the hash of the blob it links to.
pub open spec fn listed(blobs: Seq<(u64, String)>, refs: Seq<(String, u64, u64)>) -> Seq<
    (Seq<char>, Seq<char>, u64),
> {
    Seq::new(refs.len(), |i: int| (refs[i].0@, blob_hash(blobs, refs[i].1), refs[i].2))
}

/// Entries in ascending order of name.
pub open spec fn by_name(s: Seq<(Seq<char>, Seq<char>, u64)>) -> bool {
    forall|i: int, j: int| 0 <= i < j < s.len() ==> !lex_lt(#[trigger] s[j].0, #[trigger] s[i].0)
}

proof fn lemma_insert_multiset<A>(s: Seq<A>, p: int, x: A)
    requires
        0 <= p <= s.len(),
    ensures
        s.insert(p, x).to_multiset() =~= s.to_multiset().insert(x),
{
    let t = s.insert(p, x);
    t.to_multiset_ensures();
    assert(t.remove(p) =~= s);
    assert(t.contains(x)) by {
        assert(t[p] == x);
    }
}

/// The store's listing: every ref with its blob's hash (recovered by
/// inode from the blobs' (inode, name) pairs) and size, by name.
pub fn list_refs(blobs: &Vec<(u64, String)>, refs: &Vec<(String, u64, u64)>) -> (r: Vec<RefEntry>)
    ensures
        by_name(entries_view(r@)),
        entries_view(r@).to_multiset() == listed(blobs@, refs@).to_multiset(),
{
    let ghost all = listed(blobs@, refs@);
    let mut out: Vec<RefEntry> = Vec::new();
    let mut i: usize = 0;
    proof {
        entries_view(out@).to_multiset_ensures();
        assert(entries_view(out@) =~= all.take(0));
    }
    while i < refs.len()
        invariant
            i <= refs.len(),
            all == listed(blobs@, refs@),
            by_name(entries_view(out@)),
            entries_view(out@).to_multiset() == all.take(i as int).to_multiset(),
        decreases refs.len() - i,
    {
        let x = RefEntry { name: refs[i].0.clone(), blake3: lookup_hash(blobs, refs[i].1), size: refs[i].2 };
        let ghost xv = entry_view(x);
        assert(xv == all[i as int]);
        let mut p: usize = 0;
        while p < out.len() && !str_lt(x.name.as_str(), out[p].name.as_str())
            invariant
                p <= out.len(),
                xv.0 == x.name@,
                forall|j: int| 0 <= j < p ==> !lex_lt(xv.0, #[trigger] entries_view(out@)[j].0),
            decreases out.len() - p,
        {
            assert(entries_view(out@)[p as int].0 == out@[p as int].name@);
            p = p + 1;
        }
        let ghost before = entries_view(out@);
        out.insert(p, x);
        proof {
            assert(entries_view(out@) =~= before.insert(p as int, xv));
            lemma_insert_multiset(before, p as int, xv);
            assert(all.take(i as int + 1) =~= all.take(i as int).push(xv));
            all.take(i as int).to_multiset_ensures();
            let after = entries_view(out@);
            assert forall|a: int, b: int| 0 <= a < b < after.len() implies !lex_lt(
                #[trigger] after[b].0,
                #[trigger] after[a].0,
            ) by {
                if a < p && b == p {
                    lemma_lex_strict(xv.0, before[a].0);
                } else if a < p && b > p {
                    assert(!lex_lt(before[b - 1].0, before[a].0));
                } else if a == p && b > p {
                    assert(lex_lt(xv.0, before[p as int].0));
                    lemma_lex_strict(xv.0, before[p as int].0);
                    if b - 1 > p {
                        assert(!lex_lt(before[b - 1].0, before[p as int].0));
                        lemma_lex_strict(before[b - 1].0, before[p as int].0);
                        if lex_lt(before[b - 1].0, xv.0) {
                            if before[b - 1].0 == before[p as int].0 {
                            } else {
                                lemma_lex_trans(before[b - 1].0, xv.0, before[p as int].0);
                            }
                        }
                    } else {
                        lemma_lex_strict(before[p as int].0, xv.0);
                    }
                } else if a > p {
                    assert(!lex_lt(before[b - 1].0, before[a - 1].0));
                }
            }
        }
        i = i + 1;
    }
    assert(all.take(refs.len() as int) =~= all);
    out
}

/// `path` joined with `name` as `Path::join` does: an absolute `name`
/// replaces the path; otherwise one separator between them.
pub open spec fn spec_join(path: Seq<char>, name: Seq<char>) -> Seq<char> {
    if name.len() > 0 && name[0] == '/' {
        name
    } else if path.len() == 0 || path.last() == '/' {
        path + name
    } else {
        path + "/"@ + name
    }
}

pub fn join_path(path: &str, name: &str) -> (r: String)
    ensures
        r@ == spec_join(path@, name@),
{
    let n = name.unicode_len();
    if n > 0 && name.get_char(0) == '/' {
        return owned(name);
    }
    let m = path.unicode_len();
    let mut r = owned(path);
    if !(m == 0 || path.get_char(m - 1) == '/') {
        r.append("/");
    }
    r.append(name);
    r
}

/// A store rooted at a directory: `blobs/`, `refs/` and `tmp/` under it.
pub struct ModelStore {
    root: String,
}

impl ModelStore {
    pub closed spec fn root_path(&self) -> Seq<char> {
        self.root@
    }

    pub fn new(root: &str) -> (s: ModelStore)
        ensures
            s.root_path() == root@,
    {
        ModelStore { root: owned(root) }
    }

    pub fn root(&self) -> (r: &str)
        ensures
            r@ == self.root_path(),
    {
        self.root.as_str()
    }

    pub fn blobs_dir(&self) -> (r: String)
        ensures
            r@ == spec_join(self.root_path(), "blobs"@),
    {
        proof {
            reveal_strlit("blobs");
        }
        join_path(self.root.as_str(), "blobs")
    }

    pub fn refs_dir(&self) -> (r: String)
        ensures
            r@ == spec_join(self.root_path(), "refs"@),
    {
        proof {
            reveal_strlit("refs");
        }
        join_path(self.root.as_str(), "refs")
    }

    pub fn tmp_dir(&self) -> (r: String)
        ensures
            r@ == spec_join(self.root_path(), "tmp"@),
    {
        proof {
            reveal_strlit("tmp");
        }
        join_path(self.root.as_str(), "tmp")
    }

    /// Where the blob of content hashing to `hash` lives.
    pub fn blob_path(&self, hash: &str) -> (r: String)
        ensures
            r@ == spec_join(spec_join(self.root_path(), "blobs"@), hash@),
    {
        let d = self.blobs_dir();
        join_path(d.as_str(), hash)
    }

    /// Where the blob of the bytes `content` lives: named by their BLAKE3
    /// digest.
    pub open spec fn content_blob(&self, content: Seq<u8>) -> Seq<char> {
        spec_join(spec_join(self.root_path(), "blobs"@), spec_blake3_hex(content))
    }

    /// Where the blob of everything fed to `h` lives, with its name.
    pub fn blob_of(&self, h: &ContentHasher) -> (r: (String, String))
        ensures
            r.0@ == spec_blake3_hex(h.input()),
            r.1@ == self.content_blob(h.input()),
    {
        let hash = h.hex();
        let path = self.blob_path(hash.as_str());
        (hash, path)
    }

    /// Where the ref `name` lives.
    pub fn ref_path(&self, name: &str) -> (r: String)
        ensures
            r@ == spec_join(spec_join(self.root_path(), "refs"@), name@),
    {
        let d = self.refs_dir();
        join_path(d.as_str(), name)
    }
}

/// Identical content shares one blob: the same bytes always address the
/// same blob path (and `ingest` copies nothing once that blob exists: it
/// answers `Ok(false)`, a link).
pub proof fn lemma_identical_content_shares_blob(store: ModelStore, a: Seq<u8>, b: Seq<u8>)
    requires
        a == b,
    ensures
        store.content_blob(a) == store.content_blob(b),
{
}

// ---- content hashing (blake3) ----------------------------------------------

#[verifier::external_type_specification]
#[verifier::external_body]
pub struct ExHasher(blake3::Hasher);

/// Everything fed to a BLAKE3 hasher so far, in order.
pub uninterp spec fn hasher_input(h: blake3::Hasher) -> Seq<u8>;

/// `blake3::Hasher::new`: a hasher that has seen nothing.
#[verifier::external_body]
fn hasher_new() -> (h: blake3::Hasher)
    ensures
        hasher_input(h) == Seq::<u8>::empty(),
{
    blake3::Hasher::new()
}

/// `blake3::Hasher::update`: `data` is appended to the hashed input.
#[verifier::external_body]
fn hasher_update(h: &mut blake3::Hasher, data: &[u8])
    ensures
        hasher_input(*final(h)) == hasher_input(*old(h)) + data@,
{
    h.update(data);
}

/// `blake3::Hasher::finalize` rendered by `Hash::to_hex`: the digest of
/// all input so far, the same as `blake3::hash` of it.
#[verifier::external_body]
fn hasher_hex(h: &blake3::Hasher) -> (s: String)
    ensures
        s@ == spec_blake3_hex(hasher_input(*h)),
        s@.len() == 64,
{
    h.finalize().to_hex().to_string()
}

/// A streaming content hash: feed a file's bytes in pieces, then read
/// the blob name they address.
pub struct ContentHasher {
    inner: blake3::Hasher,
}

impl ContentHasher {
    /// The bytes fed so far.
    pub closed spec fn input(&self) -> Seq<u8> {
        hasher_input(self.inner)
    }

    pub fn new() -> (h: ContentHasher)
        ensures
            h.input() == Seq::<u8>::empty(),
    {
        ContentHasher { inner: hasher_new() }
    }

    pub fn update(&mut self, data: &[u8])
        ensures
            final(self).input() == old(self).input() + data@,
    {
        hasher_update(&mut self.inner, data);
    }

    /// The blob name of the bytes fed so far.
    pub fn hex(&self) -> (s: String)
        ensures
            s@ == spec_blake3_hex(self.input()),
            s@.len() == 64,
    {
        hasher_hex(&self.inner)
    }
}

} // verus!
