use lisa::acl::{allowed_provenance, permitted_hits, provenance_for_scope, scoped_sql, select_hits};

#[test]
fn documents_scope_reads_only_files() {
    assert_eq!(provenance_for_scope("documents.read"), vec!["file"]);
    assert_eq!(provenance_for_scope("files"), vec!["file"]);
    assert_eq!(provenance_for_scope("mail.read"), vec!["mail"]);
    assert_eq!(provenance_for_scope("screen.once"), vec!["screen"]);
    assert_eq!(provenance_for_scope("web"), vec!["web"]);
}

#[test]
fn empty_or_unrelated_scopes_grant_nothing() {
    assert!(allowed_provenance(&[]).is_empty());
    assert!(allowed_provenance(&["inference"]).is_empty());
    assert!(provenance_for_scope("inference").is_empty());
}

#[test]
fn allowed_provenance_is_sorted_and_deduplicated() {
    assert_eq!(allowed_provenance(&["mail", "documents.read", "files", "calendar"]), vec!["calendar", "file", "mail"]);
}

#[test]
fn no_scope_grants_another_scopes_provenance() {
    for (scope, prov) in [("documents.read", "file"), ("mail.read", "mail"), ("screen.once", "screen")] {
        assert_eq!(allowed_provenance(&[scope]), vec![prov]);
    }
}

#[test]
fn scoped_query_binds_one_placeholder_per_allowed_tag() {
    let q = scoped_sql(2);
    assert!(q.contains("d.provenance IN (?,?)"), "{q}");
    assert!(q.starts_with("SELECT d.source, d.provenance,"));
    assert!(q.ends_with("ORDER BY bm25(chunks) LIMIT ?"));
    assert!(scoped_sql(1).contains("IN (?)"));
}

#[test]
fn scoped_hits_of_disallowed_provenance_are_dropped() {
    let tags: Vec<String> = ["file", "mail", "web", "file", "unknown"].iter().map(|t| t.to_string()).collect();
    assert_eq!(permitted_hits(&["documents.read"], &tags), vec![true, false, false, true, false]);
    assert_eq!(permitted_hits(&[], &tags), vec![false; 5]);
    assert!(permitted_hits(&["documents.read"], &Vec::new()).is_empty());
}

#[test]
fn scoped_search_keeps_permitted_hits_up_to_the_limit() {
    let tags: Vec<String> = ["mail", "file", "web", "file", "file"].iter().map(|t| t.to_string()).collect();
    assert_eq!(select_hits(&["documents.read"], &tags, 2), vec![1, 3]);
    assert_eq!(select_hits(&["documents.read"], &tags, 10), vec![1, 3, 4]);
    assert_eq!(select_hits(&["documents.read", "mail.read"], &tags, 10), vec![0, 1, 3, 4]);
    assert!(select_hits(&[], &tags, 10).is_empty());
    assert!(select_hits(&["documents.read"], &tags, 0).is_empty());
}
