use sentinel::errors::SentinelError;
use sentinel::service::cached_decision;
use sentinel::zookie::Zookie;
use sentinel::cache::{Cache, CacheKeyBuilder, CacheTTL, CachedCheckResult, MemoryCache};
use sentinel::glob::glob_match;
use sentinel::models::{CheckRequest, CheckResponse};

fn request(ns: &str, oid: &str, rel: &str, uid: &str, utype: Option<&str>) -> CheckRequest {
    CheckRequest {
        namespace: ns.to_string(),
        object_id: oid.to_string(),
        relation: rel.to_string(),
        user_id: uid.to_string(),
        user_type: utype.map(|s| s.to_string()),
        zookie: None,
    }
}

#[test]
fn test_cache_key_generation() {
    let request = request("documents", "doc123", "viewer", "alice", Some("user"));

    let key = CacheKeyBuilder::check_permission_key(&request);
    assert_eq!(key, "check:documents:doc123#viewer@user:alice");

    let user_pattern = CacheKeyBuilder::user_permission_pattern("alice");
    assert_eq!(user_pattern, "check:*@user:alice");

    let object_pattern = CacheKeyBuilder::object_permission_pattern("documents", "doc123");
    assert_eq!(object_pattern, "check:documents:doc123*");
}

#[test]
fn test_cached_check_result_serialization() {
    let response = CheckResponse { allowed: true, zookie: "1234567890".to_string() };

    let cached = CachedCheckResult::from_check_response(&response);
    let json = cached.to_json().unwrap();
    let deserialized = CachedCheckResult::from_json(&json).unwrap();

    assert_eq!(cached.allowed, deserialized.allowed);
    assert_eq!(cached.original_zookie, deserialized.original_zookie);
}

#[test]
fn check_key_defaults_subject_type() {
    let r = request("docs", "d1", "editor", "bob", None);
    assert_eq!(CacheKeyBuilder::check_permission_key(&r), "check:docs:d1#editor@user:bob");
    let r = request("docs", "d1", "editor", "team:x#member", Some("userset"));
    assert_eq!(
        CacheKeyBuilder::check_permission_key(&r),
        "check:docs:d1#editor@userset:team:x#member"
    );
    assert_eq!(CacheKeyBuilder::namespace_permission_pattern("docs"), "check:docs:*");
}

#[test]
fn cached_entry_json_text() {
    let c = CachedCheckResult { allowed: false, cached_at: -5, original_zookie: "z\"q".to_string() };
    let json = c.to_json().unwrap();
    assert_eq!(json, r#"{"allowed":false,"cached_at":-5,"original_zookie":"z\"q"}"#);
    let back = CachedCheckResult::from_json(&json).unwrap();
    assert!(!back.allowed);
    assert_eq!(back.cached_at, -5);
    assert_eq!(back.original_zookie, "z\"q");
    assert!(CachedCheckResult::from_json("{}").is_err());
    assert!(CachedCheckResult::from_json(&(json + " ")).is_err());
}

#[test]
fn cached_result_answers_with_current_token() {
    let c = CachedCheckResult { allowed: true, cached_at: 1, original_zookie: "old".to_string() };
    let r = c.to_check_response("current");
    assert!(r.allowed);
    assert_eq!(r.zookie, "current");
}

#[test]
fn ttls() {
    assert_eq!(CacheTTL::PERMISSION_CHECK, 300);
    assert_eq!(CacheTTL::USER_PERMISSIONS, 600);
    assert_eq!(CacheTTL::OBJECT_PERMISSIONS, 600);
}

#[test]
fn glob_semantics() {
    assert!(glob_match("check:documents:doc123*", "check:documents:doc123#viewer@user:alice"));
    assert!(glob_match("check:*@user:alice", "check:documents:doc123#viewer@user:alice"));
    assert!(!glob_match("check:*@user:alice", "check:documents:doc123#viewer@user:alicia"));
    assert!(glob_match("*", ""));
    assert!(glob_match("a*b*c", "aXXbYc"));
    assert!(!glob_match("a*b*c", "aXXbY"));
    assert!(!glob_match("abc", "ab"));
    assert!(glob_match("a?c", "a?c"));
    assert!(!glob_match("a?c", "abc"));
}

#[test]
fn memory_cache_operations() {
    let mut c = MemoryCache::new();
    assert_eq!(c.get("k").unwrap(), None);
    c.set("k", "v1", 10).unwrap();
    c.set("k", "v2", 10).unwrap();
    assert_eq!(c.get("k").unwrap(), Some("v2".to_string()));
    c.set("check:a:1#viewer@user:u", "x", 10).unwrap();
    c.set("check:a:2#viewer@user:u", "y", 10).unwrap();
    c.set("check:a:1#owner@user:w", "z", 10).unwrap();
    c.delete_pattern("check:a:1*").unwrap();
    assert_eq!(c.get("check:a:1#viewer@user:u").unwrap(), None);
    assert_eq!(c.get("check:a:1#owner@user:w").unwrap(), None);
    assert_eq!(c.get("check:a:2#viewer@user:u").unwrap(), Some("y".to_string()));
    c.delete_pattern("check:*@user:u").unwrap();
    assert_eq!(c.get("check:a:2#viewer@user:u").unwrap(), None);
    assert_eq!(c.get("k").unwrap(), Some("v2".to_string()));
    c.delete("k").unwrap();
    assert_eq!(c.get("k").unwrap(), None);
    assert!(c.ping().is_ok());
}

#[test]
fn cached_entry_accepts_short_escapes() {
    let back = CachedCheckResult::from_json(r#"{"allowed":true,"cached_at":1,"original_zookie":"a\nb\/c\t"}"#).unwrap();
    assert_eq!(back.original_zookie, "a\nb/c\t");
}

#[test]
fn cached_decision_over_reads() {
    let snapshot = Zookie::from_timestamp(100);
    let old_token = Zookie::from_timestamp(50).to_string().unwrap();
    let new_token = Zookie::from_timestamp(150).to_string().unwrap();
    let entry = |token: &str| {
        Ok(Some(CachedCheckResult { allowed: true, cached_at: 1, original_zookie: token.to_string() }.to_json().unwrap()))
    };
    assert_eq!(cached_decision(&entry(&old_token), &snapshot, false), Some(true));
    assert_eq!(cached_decision(&entry(&old_token), &snapshot, true), None);
    assert_eq!(cached_decision(&entry(&new_token), &snapshot, true), Some(true));
    assert_eq!(cached_decision(&Ok(None), &snapshot, false), None);
    assert_eq!(cached_decision(&Ok(Some("junk".to_string())), &snapshot, false), None);
    assert_eq!(cached_decision(&Err(SentinelError::cache_error("down")), &snapshot, false), None);
}

#[test]
fn memory_cache_records_ttl_without_expiring() {
    let mut c = MemoryCache::new();
    c.set("k", "v", 1).unwrap();
    assert_eq!(c.get("k").unwrap(), Some("v".to_string()));
}
