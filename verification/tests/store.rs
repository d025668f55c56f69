use lisa::embed::{fnv1a_hash, word_tokens, HashEmbedder};
use lisa::store::{
    check_remove, gc_victims, ContentHasher, ingest, ingest_tmp_name, join_path, list_refs, verify_report, ModelStore, StoreError,
};

#[test]
fn identical_content_is_linked_not_copied_again() {
    // First ingest of new content copies the blob; the second ref to the
    // same content only links it.
    assert!(ingest("/tmp/m.gguf", "qwen3-8b-q4", "abc", None, false, false).unwrap());
    assert!(!ingest("/tmp/m.gguf", "qwen3-8b-q4-alias", "abc", None, false, true).unwrap());
    assert_eq!(ingest_tmp_name("abc"), "ingest-abc");
}

#[test]
fn pinned_ingest_rejects_wrong_hash_and_stores_nothing() {
    let zeros = "0".repeat(64);
    match ingest("/tmp/m.gguf", "m", "abc", Some(zeros.as_str()), false, false) {
        Err(StoreError::HashMismatch { path, expected, actual }) => {
            assert_eq!(path, "/tmp/m.gguf");
            assert_eq!(expected, zeros);
            assert_eq!(actual, "abc");
        },
        other => panic!("{other:?}"),
    }
    assert!(ingest("/tmp/m.gguf", "m", "abc", Some("abc"), false, false).is_ok());
}

#[test]
fn duplicate_ref_name_is_rejected() {
    assert!(matches!(ingest("/tmp/m", "m", "h", None, true, true), Err(StoreError::RefExists(n)) if n == "m"));
    assert!(matches!(check_remove("m", false), Err(StoreError::RefNotFound(n)) if n == "m"));
    assert!(check_remove("m", true).is_ok());
    assert_eq!(StoreError::RefExists("m".into()).message(), "ref `m` already exists");
}

#[test]
fn verify_detects_corruption() {
    let blobs = vec![
        ("/s/blobs/aa".to_string(), "aa".to_string(), "aa".to_string()),
        ("/s/blobs/bb".to_string(), "bb".to_string(), "cc".to_string()),
    ];
    let r = verify_report(&blobs);
    assert_eq!(r.ok, 1);
    assert_eq!(r.corrupt, vec![("/s/blobs/bb".to_string(), "bb".to_string(), "cc".to_string())]);
    assert!(!r.is_clean());
    assert!(verify_report(&blobs[..1].to_vec()).is_clean());
}

#[test]
fn gc_removes_only_unreferenced_blobs() {
    let blobs = vec![("keep".to_string(), 2u64), ("drop".to_string(), 1u64), ("shared".to_string(), 3u64)];
    assert_eq!(gc_victims(&blobs), vec!["drop".to_string()]);
}

#[test]
fn listing_recovers_hashes_by_inode_and_sorts_by_name() {
    let blobs = vec![(11u64, "h1".to_string()), (12u64, "h2".to_string())];
    let refs = vec![("zeta".to_string(), 12u64, 5u64), ("alpha".to_string(), 11u64, 7u64), ("lost".to_string(), 99u64, 1u64)];
    let out = list_refs(&blobs, &refs);
    let names: Vec<&str> = out.iter().map(|e| e.name.as_str()).collect();
    assert_eq!(names, ["alpha", "lost", "zeta"]);
    assert_eq!(out[0].blake3, "h1");
    assert_eq!(out[0].size, 7);
    assert_eq!(out[1].blake3, "<orphaned>");
    assert_eq!(out[2].blake3, "h2");
}

#[test]
fn store_layout_paths() {
    let s = ModelStore::new("/var/lib/lisa/models");
    assert_eq!(s.root(), "/var/lib/lisa/models");
    assert_eq!(s.blobs_dir(), "/var/lib/lisa/models/blobs");
    assert_eq!(s.refs_dir(), "/var/lib/lisa/models/refs");
    assert_eq!(s.tmp_dir(), "/var/lib/lisa/models/tmp");
    assert_eq!(s.blob_path("ab"), "/var/lib/lisa/models/blobs/ab");
    assert_eq!(s.ref_path("m"), "/var/lib/lisa/models/refs/m");
    assert_eq!(join_path("/a/", "b"), "/a/b");
    assert_eq!(join_path("/a", "/b"), "/b");
    assert_eq!(join_path("", "b"), "b");
}

#[test]
fn hashing_embedder_tokens_and_buckets() {
    assert_eq!(word_tokens("Budget, revenue-forecast!"), vec!["Budget", "revenue", "forecast"]);
    assert_eq!(word_tokens("  "), Vec::<String>::new());
    assert_eq!(word_tokens("héllo wörld"), vec!["héllo", "wörld"]);
    // FNV-1a from the embedder's offset 1469598103934665603 and the
    // 64-bit FNV prime.
    assert_eq!(fnv1a_hash(b""), 1469598103934665603);
    assert_eq!(fnv1a_hash(b"a"), (1469598103934665603u64 ^ 0x61).wrapping_mul(1099511628211));
    let e = HashEmbedder::default();
    assert_eq!(e.dim, 64);
    let c = e.bucket_counts("Budget budget BUDGET report");
    assert_eq!(c.len(), 64);
    assert_eq!(c.iter().sum::<usize>(), 4);
    let b = (fnv1a_hash(b"budget") as usize) % 64;
    assert!(c[b] >= 3, "case is folded before hashing");
}

#[test]
fn streamed_hash_equals_the_hash_of_the_whole_content() {
    let mut h = ContentHasher::new();
    h.update(b"hello ");
    h.update(b"");
    h.update(b"world");
    assert_eq!(h.hex(), blake3::hash(b"hello world").to_hex().to_string());
    assert_eq!(ContentHasher::new().hex(), "af1349b9f5f9a1a6a0404dea36dcc9499bcb25c9adc112b7cc9a93cae41f3262");
}

#[test]
fn the_same_bytes_address_the_same_blob() {
    let store = ModelStore::new("/var/lib/lisa/models");
    let mut a = ContentHasher::new();
    a.update(b"gguf weights");
    let mut b = ContentHasher::new();
    b.update(b"gguf ");
    b.update(b"weights");
    let (ha, pa) = store.blob_of(&a);
    let (hb, pb) = store.blob_of(&b);
    assert_eq!(ha, hb);
    assert_eq!(pa, pb);
    assert_eq!(pa, format!("/var/lib/lisa/models/blobs/{}", blake3::hash(b"gguf weights").to_hex()));
}

#[test]
fn a_zero_dimension_embedder_still_counts_an_empty_text() {
    let e = HashEmbedder { dim: 0 };
    assert!(e.bucket_counts("").is_empty());
    assert!(e.bucket_counts(" -- ").is_empty());
}
