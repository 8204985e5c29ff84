use sentinel::cache::{Cache, CacheKeyBuilder, MemoryCache};
use sentinel::checker::check_relation;
use sentinel::errors::SentinelError;
use sentinel::hierarchy::PermissionHierarchy;
use sentinel::models::{
    ApiRelationTuple, BatchCheckItem, BatchCheckRequest, BatchCheckResponse, ChangelogEntry,
    CheckRequest, Operation, ReadRequest, RelationTuple, RelationTupleFilter, TupleUpdate,
    WriteRequest,
};
use sentinel::service::{tally_write, PermissionChecker};
use sentinel::store::{MemoryTupleStore, TupleStore};
use sentinel::userset::parse_userset_id;
use sentinel::zookie::{Zookie, ZookieManager};

type Engine = PermissionChecker<MemoryTupleStore, MemoryCache>;

fn engine() -> Engine {
    PermissionChecker::new(
        MemoryTupleStore::new(),
        MemoryCache::new(),
        ZookieManager::new("test-node".to_string()),
    )
}

fn tuple(ns: &str, oid: &str, rel: &str, utype: &str, uid: &str) -> ApiRelationTuple {
    ApiRelationTuple {
        namespace: ns.to_string(),
        object_id: oid.to_string(),
        relation: rel.to_string(),
        user_type: utype.to_string(),
        user_id: uid.to_string(),
        created_at: 0,
    }
}

fn write(e: &mut Engine, ops: Vec<(Operation, ApiRelationTuple)>) -> Zookie {
    let req = WriteRequest {
        updates: ops.into_iter().map(|(operation, tuple)| TupleUpdate { operation, tuple }).collect(),
        preconditions: None,
    };
    let out = e.write_permissions(&req).unwrap();
    assert!(out.errors.is_empty());
    assert_eq!(out.invalidation_failures, 0);
    out.zookie.unwrap()
}

fn check_req(ns: &str, oid: &str, rel: &str, uid: &str) -> CheckRequest {
    CheckRequest {
        namespace: ns.to_string(),
        object_id: oid.to_string(),
        relation: rel.to_string(),
        user_id: uid.to_string(),
        user_type: None,
        zookie: None,
    }
}

fn check(e: &mut Engine, ns: &str, oid: &str, rel: &str, uid: &str) -> bool {
    e.check_permission(&check_req(ns, oid, rel, uid)).unwrap().allowed
}

#[test]
fn direct_allow() {
    let mut e = engine();
    write(&mut e, vec![(Operation::Insert, tuple("documents", "doc1", "viewer", "user", "alice"))]);
    assert!(check(&mut e, "documents", "doc1", "viewer", "alice"));
}

#[test]
fn inherited_allow() {
    let mut e = engine();
    write(&mut e, vec![(Operation::Insert, tuple("documents", "doc1", "editor", "user", "bob"))]);
    assert!(check(&mut e, "documents", "doc1", "viewer", "bob"));
    assert!(check(&mut e, "documents", "doc1", "commenter", "bob"));
    assert!(!check(&mut e, "documents", "doc1", "admin", "bob"));
}

#[test]
fn userset_expansion() {
    let mut e = engine();
    write(
        &mut e,
        vec![
            (Operation::Insert, tuple("team", "backend", "member", "user", "carol")),
            (Operation::Insert, tuple("documents", "doc1", "viewer", "userset", "team:backend#member")),
        ],
    );
    assert!(check(&mut e, "documents", "doc1", "viewer", "carol"));
    assert!(!check(&mut e, "documents", "doc1", "viewer", "mallory"));
}

#[test]
fn cycle_safety() {
    let mut e = engine();
    write(
        &mut e,
        vec![
            (Operation::Insert, tuple("group", "A", "member", "userset", "group:B#member")),
            (Operation::Insert, tuple("group", "B", "member", "userset", "group:A#member")),
        ],
    );
    assert!(!check(&mut e, "group", "A", "member", "dan"));
}

#[test]
fn deny_without_tuples() {
    let mut e = engine();
    assert!(!check(&mut e, "documents", "doc1", "viewer", "eve"));
}

#[test]
fn cache_invalidated_by_delete() {
    let mut e = engine();
    let t = tuple("documents", "doc1", "viewer", "user", "alice");
    write(&mut e, vec![(Operation::Insert, t.clone())]);
    assert!(check(&mut e, "documents", "doc1", "viewer", "alice"));
    let key = CacheKeyBuilder::check_permission_key(&check_req("documents", "doc1", "viewer", "alice"));
    assert!(e.cache.get(&key).unwrap().is_some());
    write(&mut e, vec![(Operation::Delete, t)]);
    assert!(e.cache.get(&key).unwrap().is_none());
    assert!(!check(&mut e, "documents", "doc1", "viewer", "alice"));
}

#[test]
fn zookies_strictly_increase() {
    let mut e = engine();
    let z1 = e.zookie_manager.generate_zookie(&mut e.cache).unwrap();
    let z2 = e.zookie_manager.generate_zookie(&mut e.cache).unwrap();
    assert!(z2.timestamp_micros > z1.timestamp_micros);
}

#[test]
fn insert_then_find_direct() {
    let mut s = MemoryTupleStore::new();
    let t = RelationTuple::with_timestamp("docs", "d1", "viewer", "user", "ann", 5);
    s.insert_tuple(&t).unwrap();
    let probe = RelationTuple::with_timestamp("docs", "d1", "viewer", "user", "ann", 99);
    let found = s.find_direct_tuple(&probe).unwrap().unwrap();
    assert_eq!(found, t);
    s.delete_tuple(&probe).unwrap();
    assert_eq!(s.find_direct_tuple(&t).unwrap(), None);
}

#[test]
fn insert_is_idempotent_by_identity() {
    let mut s = MemoryTupleStore::new();
    let t = RelationTuple::with_timestamp("docs", "d1", "viewer", "user", "ann", 5);
    s.insert_tuple(&t).unwrap();
    s.insert_tuple(&RelationTuple::with_timestamp("docs", "d1", "viewer", "user", "ann", 6)).unwrap();
    assert_eq!(s.find_tuples_by_object("docs", "d1").unwrap().len(), 1);
    assert_eq!(s.find_direct_tuple(&t).unwrap().unwrap().created_at, 6);
}

#[test]
fn store_lookups() {
    let mut s = MemoryTupleStore::new();
    for (ns, oid, rel, ut, uid) in [
        ("docs", "d1", "viewer", "user", "ann"),
        ("docs", "d1", "editor", "user", "bob"),
        ("docs", "d2", "viewer", "user", "ann"),
        ("docs", "d1", "viewer", "userset", "team:t#member"),
    ] {
        s.insert_tuple(&RelationTuple::with_timestamp(ns, oid, rel, ut, uid, 0)).unwrap();
    }
    assert_eq!(s.find_tuples_by_object("docs", "d1").unwrap().len(), 3);
    assert_eq!(s.find_tuples_by_object_relation("docs", "d1", "viewer").unwrap().len(), 2);
    assert_eq!(s.find_userset_members("docs", "d1", "viewer").unwrap().len(), 2);
    assert_eq!(s.find_user_memberships("ann").unwrap().len(), 2);
    assert_eq!(s.find_user_memberships("team:t#member").unwrap().len(), 0);
}

#[test]
fn changelog_entry_fields() {
    let t = RelationTuple::with_timestamp("docs", "d1", "viewer", "user", "ann", 0);
    let e = ChangelogEntry::new(&t, &Operation::Delete);
    assert_eq!(e.operation, "DELETE");
    assert_eq!(e.user_id, "ann");
    assert_eq!(e.id.len(), 36);
    let mut s = MemoryTupleStore::new();
    assert!(s.record_change(&e).is_ok());
}

#[test]
fn tuple_text_forms() {
    let t = RelationTuple::new("documents", "doc1", "viewer", "user", "alice");
    assert_eq!(t.to_string_representation(), "documents:doc1#viewer@user:alice");
    assert!(t.is_direct_user());
    assert!(!t.is_userset());
    let api = t.to_api_tuple();
    assert_eq!(api.to_db_tuple(), t);
}

#[test]
fn userset_parsing() {
    assert_eq!(
        parse_userset_id("team:backend#member"),
        Some(("team".to_string(), "backend".to_string(), "member".to_string()))
    );
    assert_eq!(
        parse_userset_id("a:b:c#d#e"),
        Some(("a".to_string(), "b:c".to_string(), "d#e".to_string()))
    );
    assert_eq!(parse_userset_id("team-backend#member"), None);
    assert_eq!(parse_userset_id("team:backend"), None);
}

#[test]
fn malformed_userset_rows_are_skipped() {
    let mut e = engine();
    write(
        &mut e,
        vec![
            (Operation::Insert, tuple("documents", "doc1", "viewer", "userset", "nonsense")),
            (Operation::Insert, tuple("documents", "doc1", "viewer", "userset", "team:x#member")),
            (Operation::Insert, tuple("team", "x", "member", "user", "zoe")),
        ],
    );
    assert!(check(&mut e, "documents", "doc1", "viewer", "zoe"));
}

#[test]
fn check_relation_on_store() {
    let mut s = MemoryTupleStore::new();
    s.insert_tuple(&RelationTuple::with_timestamp("docs", "d", "owner", "user", "o", 0)).unwrap();
    let h = PermissionHierarchy::new();
    assert!(check_relation(&s, &h, "docs", "d", "viewer", "user", "o").unwrap());
    assert!(check_relation(&s, &h, "docs", "d", "owner", "user", "o").unwrap());
    assert!(!check_relation(&s, &h, "docs", "d", "viewer", "team", "o").unwrap());
}

#[test]
fn read_after_write_with_write_zookie() {
    let mut e = engine();
    let mut req = check_req("documents", "doc9", "viewer", "ivy");
    assert!(!e.check_permission(&req).unwrap().allowed);
    let w = write(&mut e, vec![(Operation::Insert, tuple("documents", "doc9", "viewer", "user", "ivy"))]);
    req.zookie = Some(w.to_string().unwrap());
    let resp = e.check_permission(&req).unwrap();
    assert!(resp.allowed);
    assert_eq!(Zookie::from_string(&resp.zookie).unwrap().timestamp_micros, w.timestamp_micros);
}

#[test]
fn check_with_bad_token_fails() {
    let mut e = engine();
    let mut req = check_req("documents", "doc1", "viewer", "ivy");
    req.zookie = Some("not a token".to_string());
    assert!(matches!(e.check_permission(&req), Err(SentinelError::ValidationError { .. })));
}

#[test]
fn uncached_check_answers_with_snapshot_token() {
    let mut e = engine();
    write(&mut e, vec![(Operation::Insert, tuple("d", "o", "viewer", "user", "u"))]);
    let snap = Zookie::from_timestamp(5);
    let resp = e.check_permission_uncached(&check_req("d", "o", "viewer", "u"), &snap).unwrap();
    assert!(resp.allowed);
    assert_eq!(resp.zookie, snap.to_string().unwrap());
}

#[test]
fn batch_with_duplicates() {
    let mut e = engine();
    write(&mut e, vec![(Operation::Insert, tuple("documents", "doc1", "viewer", "user", "alice"))]);
    let checks = vec![
        check_req("documents", "doc1", "viewer", "alice"),
        check_req("documents", "doc1", "viewer", "bob"),
        check_req("documents", "doc1", "viewer", "alice"),
        check_req("documents", "doc1", "editor", "alice"),
    ];
    let individually: Vec<bool> = checks.iter().map(|c| check(&mut engine_with_alice(), &c.namespace, &c.object_id, &c.relation, &c.user_id)).collect();
    let resp = e.batch_check_permissions(&BatchCheckRequest { checks, zookie: None }).unwrap();
    let allowed: Vec<bool> = resp.results.iter().map(|r| r.allowed).collect();
    assert_eq!(allowed, vec![true, false, true, false]);
    assert_eq!(allowed, individually);
    assert_eq!(resp.total_requests, 4);
    assert_eq!(resp.allowed_count, 2);
    assert_eq!(resp.denied_count, 2);
    assert_eq!(resp.results[2].request_index, 2);
    assert_eq!(resp.results[1].request_info, "documents:doc1#viewer@bob");
    assert!(Zookie::from_string(&resp.zookie).is_ok());
}

fn engine_with_alice() -> Engine {
    let mut e = engine();
    write(&mut e, vec![(Operation::Insert, tuple("documents", "doc1", "viewer", "user", "alice"))]);
    e
}

#[test]
fn batch_with_bad_token_fails() {
    let mut e = engine();
    let req = BatchCheckRequest { checks: vec![check_req("a", "b", "viewer", "c")], zookie: Some("x".to_string()) };
    assert!(e.batch_check_permissions(&req).is_err());
}

#[test]
fn batch_response_counts() {
    let items = vec![
        BatchCheckItem { request_index: 0, allowed: true, request_info: "a".to_string() },
        BatchCheckItem { request_index: 1, allowed: false, request_info: "b".to_string() },
        BatchCheckItem { request_index: 2, allowed: true, request_info: "c".to_string() },
    ];
    let r = BatchCheckResponse::new(items, "z".to_string());
    assert_eq!((r.total_requests, r.allowed_count, r.denied_count), (3, 2, 1));
    assert_eq!(r.zookie, "z");
}

#[test]
fn write_reports_counts_and_invalidates_users() {
    let mut e = engine();
    write(&mut e, vec![(Operation::Insert, tuple("docs", "d1", "viewer", "user", "u1"))]);
    assert!(check(&mut e, "docs", "d1", "viewer", "u1"));
    let key = CacheKeyBuilder::check_permission_key(&check_req("docs", "d1", "viewer", "u1"));
    assert!(e.cache.get(&key).unwrap().is_some());
    let req = WriteRequest {
        updates: vec![TupleUpdate { operation: Operation::Insert, tuple: tuple("other", "o", "viewer", "user", "u1") }],
        preconditions: None,
    };
    let out = e.write_permissions(&req).unwrap();
    assert_eq!(out.success_count, 1);
    assert_eq!(out.applied, vec![true]);
    assert!(out.zookie.is_some());
    assert!(e.cache.get(&key).unwrap().is_none());
}

#[test]
fn empty_write_still_issues_zookie() {
    let mut e = engine();
    let out = e.write_permissions(&WriteRequest { updates: vec![], preconditions: None }).unwrap();
    assert_eq!(out.success_count, 0);
    assert!(out.zookie.is_some());
}

#[test]
fn read_by_filter() {
    let mut e = engine();
    write(
        &mut e,
        vec![
            (Operation::Insert, tuple("docs", "d1", "viewer", "user", "ann")),
            (Operation::Insert, tuple("docs", "d1", "editor", "user", "bob")),
            (Operation::Insert, tuple("docs", "d2", "viewer", "user", "ann")),
        ],
    );
    let filter = |ns: Option<&str>, oid: Option<&str>, rel: Option<&str>, uid: Option<&str>| RelationTupleFilter {
        namespace: ns.map(|s| s.to_string()),
        object_id: oid.map(|s| s.to_string()),
        relation: rel.map(|s| s.to_string()),
        user_type: None,
        user_id: uid.map(|s| s.to_string()),
    };
    assert_eq!(e.read_tuples(&filter(Some("docs"), Some("d1"), None, None)).unwrap().len(), 2);
    assert_eq!(e.read_tuples(&filter(Some("docs"), Some("d1"), Some("editor"), None)).unwrap().len(), 1);
    assert_eq!(e.read_tuples(&filter(Some("docs"), None, None, Some("ann"))).unwrap().len(), 2);
    assert!(matches!(
        e.read_tuples(&filter(Some("docs"), None, None, None)),
        Err(SentinelError::ValidationError { .. })
    ));
    let resp = e
        .read_permissions(&ReadRequest {
            tuple_filter: filter(None, None, None, Some("bob")),
            zookie: None,
            page_size: None,
            page_token: None,
        })
        .unwrap();
    assert_eq!(resp.tuples.len(), 1);
    assert_eq!(resp.tuples[0].relation, "editor");
    assert!(resp.next_page_token.is_none());
    assert_eq!(e.get_user_permissions("ann").unwrap().len(), 2);
    assert_eq!(e.get_object_permissions("docs", "d2").unwrap().len(), 1);
}

#[test]
fn explicit_invalidations() {
    let mut e = engine();
    write(&mut e, vec![(Operation::Insert, tuple("docs", "d1", "viewer", "user", "u"))]);
    let req = check_req("docs", "d1", "viewer", "u");
    let key = CacheKeyBuilder::check_permission_key(&req);
    for step in 0..4 {
        assert!(check(&mut e, "docs", "d1", "viewer", "u"));
        assert!(e.cache.get(&key).unwrap().is_some());
        match step {
            0 => e.invalidate_user_cache("u").unwrap(),
            1 => e.invalidate_object_cache("docs", "d1").unwrap(),
            2 => e.invalidate_namespace_cache("docs").unwrap(),
            _ => e.invalidate_specific_cache(&req).unwrap(),
        }
        assert!(e.cache.get(&key).unwrap().is_none());
    }
}

#[test]
fn error_helpers() {
    let v = SentinelError::validation_error("bad");
    assert_eq!(v.status_code(), 400);
    assert_eq!(v.message(), "bad");
    assert_eq!(SentinelError::permission_error("no").status_code(), 403);
    assert_eq!(SentinelError::internal_error("x").status_code(), 500);
    assert_eq!(SentinelError::database_error("x").status_code(), 500);
    assert_eq!(SentinelError::cache_error("x").status_code(), 500);
}

#[test]
fn relation_index_lookup() {
    let mut s = MemoryTupleStore::new();
    for (ns, oid, rel, uid) in [("docs", "d1", "owner", "a"), ("docs", "d2", "owner", "b"), ("docs", "d3", "viewer", "a"), ("team", "t", "owner", "c")] {
        s.insert_tuple(&RelationTuple::with_timestamp(ns, oid, rel, "user", uid, 0)).unwrap();
    }
    let owned = s.find_objects_with_relation("docs", "owner");
    let mut objects: Vec<String> = owned.iter().map(|t| t.object_id.clone()).collect();
    objects.sort();
    assert_eq!(objects, vec!["d1", "d2"]);
    s.delete_tuple(&RelationTuple::with_timestamp("docs", "d1", "owner", "user", "a", 0)).unwrap();
    assert_eq!(s.find_objects_with_relation("docs", "owner").len(), 1);
    assert_eq!(s.find_user_memberships("a").unwrap().len(), 1);
}

#[test]
fn batch_dedupes_by_cache_key() {
    let mut e = engine();
    write(&mut e, vec![(Operation::Insert, tuple("a:b", "c", "viewer", "user", "u"))]);
    let checks = vec![check_req("a:b", "c", "viewer", "u"), check_req("a", "b:c", "viewer", "u")];
    let resp = e.batch_check_permissions(&BatchCheckRequest { checks, zookie: None }).unwrap();
    assert!(resp.results[0].allowed);
    assert!(resp.results[1].allowed);
    assert!(!check(&mut engine_with_key_collision(), "a", "b:c", "viewer", "u"));
}

fn engine_with_key_collision() -> Engine {
    let mut e = engine();
    write(&mut e, vec![(Operation::Insert, tuple("a:b", "c", "viewer", "user", "u"))]);
    e
}

#[test]
fn tally_follows_store_answers() {
    let updates = vec![
        TupleUpdate { operation: Operation::Insert, tuple: tuple("docs", "d1", "viewer", "user", "u1") },
        TupleUpdate { operation: Operation::Insert, tuple: tuple("docs", "d1", "editor", "team", "t1") },
        TupleUpdate { operation: Operation::Delete, tuple: tuple("docs", "d2", "viewer", "user", "u1") },
    ];
    let results = vec![Ok(()), Err(SentinelError::database_error("down")), Ok(())];
    let t = tally_write(&updates, results);
    assert_eq!(t.applied, vec![true, false, true]);
    assert_eq!(t.success_count, 2);
    assert_eq!(t.errors.len(), 1);
    assert_eq!(t.errors[0].message(), "down");
    assert_eq!(t.objects.len(), 2);
    assert_eq!(t.users, vec!["u1".to_string()]);
}

#[test]
fn write_clears_only_touched_entries() {
    let mut e = engine();
    write(&mut e, vec![(Operation::Insert, tuple("docs", "d1", "viewer", "user", "u1"))]);
    write(&mut e, vec![(Operation::Insert, tuple("docs", "d2", "viewer", "user", "u2"))]);
    assert!(check(&mut e, "docs", "d1", "viewer", "u1"));
    assert!(check(&mut e, "docs", "d2", "viewer", "u2"));
    let k1 = CacheKeyBuilder::check_permission_key(&check_req("docs", "d1", "viewer", "u1"));
    let k2 = CacheKeyBuilder::check_permission_key(&check_req("docs", "d2", "viewer", "u2"));
    write(&mut e, vec![(Operation::Insert, tuple("docs", "d1", "editor", "team", "t9"))]);
    assert!(e.cache.get(&k1).unwrap().is_none());
    assert!(e.cache.get(&k2).unwrap().is_some());
}
