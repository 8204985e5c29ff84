use vstd::prelude::*;
use vstd::string::*;
use vstd::utf8::*;

use crate::errors::{SentinelError, SentinelResult};
use crate::glob::{glob_match, glob_matches};
use crate::hierarchy::opt_view;
use crate::json::{
    cached_text, lemma_cached_text_valid, parse_cached_text, read_cached, text_from_bytes,
    write_cached,
};
use crate::models::{canonical, canonical_text, CheckRequest, CheckResponse, TupleKey};

verus! {

/// `m` without the keys that match the glob `pattern`.
pub open spec fn without_matches(m: Map<Seq<char>, Seq<char>>, pattern: Seq<char>) -> Map<
    Seq<char>,
    Seq<char>,
> {
    Map::new(|k: Seq<char>| m.contains_key(k) && !glob_matches(pattern, k), |k: Seq<char>| m[k])
}

/// `m` without the keys that match the glob `pattern`.
pub open spec fn without_matching_ttls(m: Map<Seq<char>, u64>, pattern: Seq<char>) -> Map<Seq<char>, u64> {
    Map::new(|k: Seq<char>| m.contains_key(k) && !glob_matches(pattern, k), |k: Seq<char>| m[k])
}

/// What a lookup of `key` in `m` gives.
pub open spec fn lookup(m: Map<Seq<char>, Seq<char>>, key: Seq<char>) -> Option<Seq<char>> {
    if m.contains_key(key) {
        Some(m[key])
    } else {
        None
    }
}

/// A key-value cache with pattern deletion. Any operation may fail; what a
/// successful one did is stated below. Entries may carry a time to live.
pub trait Cache {
    /// The entries held.
    spec fn entries(&self) -> Map<Seq<char>, Seq<char>>;

    /// The time to live, in seconds, each entry was written with.
    spec fn ttls(&self) -> Map<Seq<char>, u64>;

    /// The cache answers every operation successfully (as an in-memory one does).
    spec fn reliable(&self) -> bool;

    fn get(&self, key: &str) -> (r: SentinelResult<Option<String>>)
        ensures
            self.reliable() ==> r is Ok,
            r matches Ok(v) ==> opt_view(v) == lookup(self.entries(), key@),
    ;

    /// Stores `value` under `key`; a failed write either took effect or did not.
    fn set(&mut self, key: &str, value: &str, ttl_seconds: u64) -> (r: SentinelResult<()>)
        ensures
            old(self).reliable() ==> r is Ok && final(self).reliable(),
            r is Ok ==> final(self).entries() == old(self).entries().insert(key@, value@),
            r is Ok ==> final(self).ttls() == old(self).ttls().insert(key@, ttl_seconds),
            r is Err ==> (final(self).entries() == old(self).entries() && final(self).ttls() == old(self).ttls())
                || (final(self).entries() == old(self).entries().insert(key@, value@) && final(self).ttls()
                == old(self).ttls().insert(key@, ttl_seconds)),
    ;

    fn delete(&mut self, key: &str) -> (r: SentinelResult<()>)
        ensures
            old(self).reliable() ==> r is Ok && final(self).reliable(),
            r is Ok ==> final(self).entries() == old(self).entries().remove(key@),
            r is Ok ==> final(self).ttls() == old(self).ttls().remove(key@),
    ;

    /// Deletes every entry whose key matches the glob `pattern`.
    fn delete_pattern(&mut self, pattern: &str) -> (r: SentinelResult<()>)
        ensures
            old(self).reliable() ==> r is Ok && final(self).reliable(),
            r is Ok ==> final(self).entries() == without_matches(old(self).entries(), pattern@),
            r is Ok ==> final(self).ttls() == without_matching_ttls(old(self).ttls(), pattern@),
    ;

    fn ping(&self) -> (r: SentinelResult<()>)
        ensures
            self.reliable() ==> r is Ok,
    ;
}

/// The map that a list of writes leaves behind: later writes win.
pub open spec fn entries_of(v: Seq<(String, String, u64)>) -> Map<Seq<char>, Seq<char>>
    decreases v.len(),
{
    if v.len() == 0 {
        Map::empty()
    } else {
        entries_of(v.drop_last()).insert(v.last().0@, v.last().1@)
    }
}

/// The times to live that a list of writes leaves behind: later writes win.
pub open spec fn ttls_of(v: Seq<(String, String, u64)>) -> Map<Seq<char>, u64>
    decreases v.len(),
{
    if v.len() == 0 {
        Map::empty()
    } else {
        ttls_of(v.drop_last()).insert(v.last().0@, v.last().2)
    }
}

/// An in-memory cache. It records each entry's time to live but does not
/// expire entries.
#[derive(Debug)]
pub struct MemoryCache {
    slots: Vec<(String, String, u64)>,
}

impl MemoryCache {
    pub fn new() -> (r: Self)
        ensures
            r.entries() == Map::<Seq<char>, Seq<char>>::empty(),
            r.ttls() == Map::<Seq<char>, u64>::empty(),
            r.reliable(),
    {
        MemoryCache { slots: Vec::new() }
    }

    /// Drops the slots whose key is `pattern` (when `literal`) or matches the glob `pattern`.
    fn retain_keys(&mut self, pattern: &str, literal: bool)
        ensures
            literal ==> final(self).entries() == old(self).entries().remove(pattern@),
            !literal ==> final(self).entries() == without_matches(old(self).entries(), pattern@),
            literal ==> final(self).ttls() == old(self).ttls().remove(pattern@),
            !literal ==> final(self).ttls() == without_matching_ttls(old(self).ttls(), pattern@),
    {
        let mut kept: Vec<(String, String, u64)> = Vec::new();
        let mut i: usize = 0;
        let ghost keep = |k: Seq<char>|
            if literal {
                k != pattern@
            } else {
                !glob_matches(pattern@, k)
            };
        while i < self.slots.len()
            invariant
                i <= self.slots@.len(),
                self.slots@ == old(self).slots@,
                keep == (|k: Seq<char>|
                    if literal {
                        k != pattern@
                    } else {
                        !glob_matches(pattern@, k)
                    }),
                entries_of(kept@) == Map::new(
                    |k: Seq<char>| entries_of(self.slots@.take(i as int)).contains_key(k) && keep(k),
                    |k: Seq<char>| entries_of(self.slots@.take(i as int))[k],
                ),
                ttls_of(kept@) == Map::new(
                    |k: Seq<char>| ttls_of(self.slots@.take(i as int)).contains_key(k) && keep(k),
                    |k: Seq<char>| ttls_of(self.slots@.take(i as int))[k],
                ),
            decreases self.slots@.len() - i,
        {
            let slot = &self.slots[i];
            let drop = if literal {
                slot.0.as_str().to_string() == pattern.to_string()
            } else {
                glob_match(pattern, slot.0.as_str())
            };
            let ghost prev = entries_of(self.slots@.take(i as int));
            proof {
                assert(self.slots@.take(i + 1).drop_last() =~= self.slots@.take(i as int));
            }
            if !drop {
                let ghost before = kept@;
                kept.push((slot.0.clone(), slot.1.clone(), slot.2));
                proof {
                    assert(kept@.drop_last() =~= before);
                }
            }
            proof {
                assert(entries_of(kept@) =~= Map::new(
                    |k: Seq<char>|
                        entries_of(self.slots@.take(i + 1)).contains_key(k) && keep(k),
                    |k: Seq<char>| entries_of(self.slots@.take(i + 1))[k],
                ));
                assert(ttls_of(kept@) =~= Map::new(
                    |k: Seq<char>| ttls_of(self.slots@.take(i + 1)).contains_key(k) && keep(k),
                    |k: Seq<char>| ttls_of(self.slots@.take(i + 1))[k],
                ));
            }
            i += 1;
        }
        proof {
            assert(self.slots@.take(i as int) =~= self.slots@);
        }
        self.slots = kept;
        proof {
            if literal {
                assert(self.ttls() =~= old(self).ttls().remove(pattern@));
                assert(self.entries() =~= old(self).entries().remove(pattern@));
            } else {
                assert(self.entries() =~= without_matches(old(self).entries(), pattern@));
                assert(self.ttls() =~= without_matching_ttls(old(self).ttls(), pattern@));
            }
        }
    }
}

impl Cache for MemoryCache {
    closed spec fn reliable(&self) -> bool {
        true
    }

    closed spec fn ttls(&self) -> Map<Seq<char>, u64> {
        ttls_of(self.slots@)
    }

    closed spec fn entries(&self) -> Map<Seq<char>, Seq<char>> {
        entries_of(self.slots@)
    }

    fn get(&self, key: &str) -> (r: SentinelResult<Option<String>>)
        ensures
            r is Ok,
    {
        let mut found: Option<usize> = None;
        let mut i: usize = 0;
        let k = key.to_string();
        while i < self.slots.len()
            invariant
                i <= self.slots@.len(),
                k@ == key@,
                match found {
                    Some(j) => j < i && entries_of(self.slots@.take(i as int)).contains_key(key@)
                        && entries_of(self.slots@.take(i as int))[key@] == self.slots@[j as int].1@,
                    None => !entries_of(self.slots@.take(i as int)).contains_key(key@),
                },
            decreases self.slots@.len() - i,
        {
            proof {
                assert(self.slots@.take(i + 1).drop_last() =~= self.slots@.take(i as int));
            }
            if self.slots[i].0 == k {
                found = Some(i);
            }
            i += 1;
        }
        proof {
            assert(self.slots@.take(i as int) =~= self.slots@);
        }
        match found {
            Some(j) => Ok(Some(self.slots[j].1.clone())),
            None => Ok(None),
        }
    }

    fn set(&mut self, key: &str, value: &str, ttl_seconds: u64) -> (r: SentinelResult<()>)
        ensures
            r is Ok,
    {
        self.retain_keys(key, true);
        let ghost before = self.slots@;
        self.slots.push((key.to_string(), value.to_string(), ttl_seconds));
        proof {
            assert(self.slots@.drop_last() =~= before);
            assert(self.entries() =~= old(self).entries().insert(key@, value@));
            assert(self.ttls() =~= old(self).ttls().insert(key@, ttl_seconds));
        }
        Ok(())
    }

    fn delete(&mut self, key: &str) -> (r: SentinelResult<()>)
        ensures
            r is Ok,
    {
        self.retain_keys(key, true);
        Ok(())
    }

    fn delete_pattern(&mut self, pattern: &str) -> (r: SentinelResult<()>)
        ensures
            r is Ok,
    {
        self.retain_keys(pattern, false);
        Ok(())
    }

    fn ping(&self) -> (r: SentinelResult<()>)
        ensures
            r is Ok,
    {
        Ok(())
    }
}

/// `check:ns:oid#rel@stype:sid`, the cache key of a check.
pub open spec fn check_key(k: TupleKey) -> Seq<char> {
    "check:"@ + canonical(k)
}

/// `check:*@user:uid`, the keys of all checks of one principal.
pub open spec fn user_pattern(user_id: Seq<char>) -> Seq<char> {
    "check:*@user:"@ + user_id
}

/// `check:ns:oid*`, the keys of all checks on one object.
pub open spec fn object_pattern(namespace: Seq<char>, object_id: Seq<char>) -> Seq<char> {
    "check:"@ + namespace + ":"@ + object_id + "*"@
}

/// `check:ns:*`, the keys of all checks in one namespace.
pub open spec fn namespace_pattern(namespace: Seq<char>) -> Seq<char> {
    "check:"@ + namespace + ":*"@
}

/// Builds the cache keys of checks and the patterns that invalidate them.
pub struct CacheKeyBuilder;

impl CacheKeyBuilder {
    pub fn check_permission_key(request: &CheckRequest) -> (r: String)
        ensures
            r@ == check_key(request.key()),
    {
        let body = canonical_text(
            request.namespace.as_str(),
            request.object_id.as_str(),
            request.relation.as_str(),
            request.subject_type_text(),
            request.user_id.as_str(),
        );
        let mut s = "check:".to_string();
        s.append(body.as_str());
        s
    }

    pub fn user_permission_pattern(user_id: &str) -> (r: String)
        ensures
            r@ == user_pattern(user_id@),
    {
        let mut s = "check:*@user:".to_string();
        s.append(user_id);
        s
    }

    pub fn object_permission_pattern(namespace: &str, object_id: &str) -> (r: String)
        ensures
            r@ == object_pattern(namespace@, object_id@),
    {
        let mut s = "check:".to_string();
        s.append(namespace);
        s.append(":");
        s.append(object_id);
        s.append("*");
        s
    }

    pub fn namespace_permission_pattern(namespace: &str) -> (r: String)
        ensures
            r@ == namespace_pattern(namespace@),
    {
        let mut s = "check:".to_string();
        s.append(namespace);
        s.append(":*");
        s
    }
}

/// Times to live of cache entries, in seconds.
pub struct CacheTTL;

impl CacheTTL {
    pub const PERMISSION_CHECK: u64 = 300;
    pub const USER_PERMISSIONS: u64 = 600;
    pub const OBJECT_PERMISSIONS: u64 = 600;
    pub const LATEST_ZOOKIE: u64 = 3600;
}

/// A check outcome as kept in the cache; `cached_at` is in microseconds.
#[derive(Debug, Clone)]
pub struct CachedCheckResult {
    pub allowed: bool,
    pub cached_at: i64,
    /// The token of the snapshot the outcome was computed at.
    pub original_zookie: String,
}

impl CachedCheckResult {
    /// The entry for `response`, stamped with the current time.
    pub fn from_check_response(response: &CheckResponse) -> (r: Self)
        ensures
            r.allowed == response.allowed,
            r.original_zookie == response.zookie,
    {
        CachedCheckResult::stamped(response, crate::clock::now_micros())
    }

    /// The entry for `response`, stamped with `cached_at`.
    pub fn stamped(response: &CheckResponse, cached_at: i64) -> (r: Self)
        ensures
            r.allowed == response.allowed,
            r.original_zookie == response.zookie,
            r.cached_at == cached_at,
    {
        CachedCheckResult {
            allowed: response.allowed,
            cached_at,
            original_zookie: response.zookie.clone(),
        }
    }

    /// The cached outcome, answered under the caller's current token.
    pub fn to_check_response(&self, current_zookie: &str) -> (r: CheckResponse)
        ensures
            r.allowed == self.allowed,
            r.zookie@ == current_zookie@,
    {
        CheckResponse { allowed: self.allowed, zookie: current_zookie.to_string() }
    }

    /// The JSON text of the entry. It never fails.
    pub fn to_json(&self) -> (r: SentinelResult<String>)
        ensures
            r matches Ok(s) && encode_utf8(s@) == cached_text(
                self.allowed,
                self.cached_at,
                self.original_zookie@,
            ),
    {
        let bytes = write_cached(self.allowed, self.cached_at, &self.original_zookie);
        proof {
            lemma_cached_text_valid(self.allowed, self.cached_at, self.original_zookie@);
        }
        match text_from_bytes(bytes) {
            Some(s) => Ok(s),
            None => Err(SentinelError::internal_error("Failed to serialize cached result")),
        }
    }

    /// Reads an entry from its JSON text.
    pub fn from_json(json: &str) -> (r: SentinelResult<Self>)
        ensures
            r matches Ok(c) ==> parse_cached_text(encode_utf8(json@)) == Some(
                (c.allowed, c.cached_at, c.original_zookie@),
            ),
            r is Err <==> parse_cached_text(encode_utf8(json@)) is None,
            r matches Err(e) ==> e is InternalError,
    {
        match read_cached(json.as_bytes()) {
            Some((allowed, cached_at, original_zookie)) => Ok(
                CachedCheckResult { allowed, cached_at, original_zookie },
            ),
            None => Err(SentinelError::internal_error("Failed to deserialize cached result")),
        }
    }
}

} // verus!
