use vstd::prelude::*;
use vstd::utf8::*;

use crate::cache::{
    check_key, lookup, namespace_pattern, object_pattern, user_pattern, without_matches, Cache,
    CacheKeyBuilder, CacheTTL, CachedCheckResult,
};
use crate::checker::check_relation;
use crate::clock::{now_micros, now_millis};
use crate::errors::{SentinelError, SentinelResult};
use crate::glob::glob_matches;
use crate::graph::{grants, Node};
use crate::hierarchy::PermissionHierarchy;
use crate::json::{cached_text, lemma_zookie_text_round_trip, parse_cached_text, zookie_text};
use crate::models::{
    count_allowed, ApiRelationTuple, BatchCheckItem, BatchCheckRequest, BatchCheckResponse,
    CheckRequest, CheckResponse, Operation, ReadRequest, ReadResponse, RelationTuple,
    RelationTupleFilter, TupleKey, TupleUpdate, WriteRequest,
};
use crate::store::{key_set, TupleStore};
use crate::text::str_eq;
use crate::zookie::{base64_of, decode_token, latest_zookie_key, Zookie, ZookieManager, ZookieModel};

verus! {

/// The outcome that a readable cache entry under `key` records.
pub open spec fn cached_outcome(m: Map<Seq<char>, Seq<char>>, key: Seq<char>) -> Option<bool> {
    match lookup(m, key) {
        Some(t) => match parse_cached_text(encode_utf8(t)) {
            Some((a, _, _)) => Some(a),
            None => None,
        },
        None => None,
    }
}

/// The point of the relation graph that a request asks about.
pub open spec fn request_node(r: CheckRequest) -> Node {
    (r.namespace@, r.object_id@, r.relation@)
}

/// Whether the tuples grant what the request asks.
pub open spec fn request_granted(tuples: Set<TupleKey>, r: CheckRequest) -> bool {
    grants(tuples, request_node(r), r.subject_type(), r.user_id@)
}

/// No entry of `m` is a check on the object `namespace:object_id`.
pub open spec fn object_cleared(m: Map<Seq<char>, Seq<char>>, namespace: Seq<char>, object_id: Seq<char>) -> bool {
    forall|k: Seq<char>| #[trigger] m.contains_key(k) ==> !glob_matches(object_pattern(namespace, object_id), k)
}

/// No entry of `m` is a check of the principal `user_id`.
pub open spec fn user_cleared(m: Map<Seq<char>, Seq<char>>, user_id: Seq<char>) -> bool {
    forall|k: Seq<char>| #[trigger] m.contains_key(k) ==> !glob_matches(user_pattern(user_id), k)
}

/// Every entry of `after` is an entry of `before`, under the same key.
pub open spec fn only_removed(before: Map<Seq<char>, Seq<char>>, after: Map<Seq<char>, Seq<char>>) -> bool {
    forall|k: Seq<char>| #[trigger] after.contains_key(k) ==> before.contains_key(k) && after[k] == before[k]
}

/// `after` is `before`, or `before` with `key` written.
pub open spec fn at_most_written(
    before: Map<Seq<char>, Seq<char>>,
    after: Map<Seq<char>, Seq<char>>,
    key: Seq<char>,
) -> bool {
    after == before || exists|v: Seq<char>| after == before.insert(key, v)
}

proof fn lemma_check_key_not_latest(k: TupleKey)
    ensures
        check_key(k) != latest_zookie_key(),
{
    reveal_strlit("check:");
    reveal_strlit("zookie:latest");
    assert(check_key(k)[0] == 'c');
    assert(latest_zookie_key()[0] == 'z');
}

/// The answers of a batch at snapshot time `at`: one per request, in request
/// order; requests with the same cache key get the same answer; every allow is
/// backed by the store or by a cache entry for that key; an item whose check
/// failed is denied and marked `(ERROR)`; any other item carries the cache's
/// usable outcome for its key, or the store's answer.
pub open spec fn batch_answers(
    tuples: Set<TupleKey>,
    cache: Map<Seq<char>, Seq<char>>,
    checks: Seq<CheckRequest>,
    results: Seq<BatchCheckItem>,
    at: i64,
    client_supplied: bool,
) -> bool {
    &&& results.len() == checks.len()
    &&& forall|i: int| 0 <= i < results.len() ==> (#[trigger] results[i]).request_index == i
    &&& forall|i: int, j: int|
        0 <= i < results.len() && 0 <= j < results.len() && check_key(checks[i].key())
            == check_key(checks[j].key()) ==> (#[trigger] results[i]).allowed == (
        #[trigger] results[j]).allowed
    &&& forall|i: int|
        0 <= i < results.len() && (#[trigger] results[i]).allowed ==> exists|j: int|
            0 <= j < checks.len() && check_key(checks[j].key()) == check_key(checks[i].key()) && (
            request_granted(tuples, #[trigger] checks[j]) || cached_outcome(
                cache,
                check_key(checks[i].key()),
            ) == Some(true))
    &&& forall|i: int|
        0 <= i < results.len() ==> (#[trigger] results[i]).request_info@ == request_text(checks[i])
            || (results[i].request_info@ == request_text(checks[i]) + " (ERROR)"@
            && !results[i].allowed)
    &&& forall|i: int|
        0 <= i < results.len() && (#[trigger] results[i]).request_info@ == request_text(checks[i])
            ==> exists|j: int|
            0 <= j < checks.len() && check_key(checks[j].key()) == check_key(checks[i].key()) && (
            results[i].allowed == request_granted(tuples, #[trigger] checks[j]) || cache_decision(
                lookup(cache, check_key(checks[i].key())),
                at,
                client_supplied,
            ) == Some(results[i].allowed))
}

/// `ns:oid#rel@uid`, how a batch item names its request.
pub open spec fn request_text(r: CheckRequest) -> Seq<char> {
    r.namespace@ + ":"@ + r.object_id@ + "#"@ + r.relation@ + "@"@ + r.user_id@
}

/// The tuples after each update marked in `effective` was applied in order.
pub open spec fn apply_updates(
    tuples: Set<TupleKey>,
    updates: Seq<TupleUpdate>,
    effective: Seq<bool>,
) -> Set<TupleKey>
    decreases updates.len(),
{
    if updates.len() == 0 {
        tuples
    } else {
        let before = apply_updates(tuples, updates.drop_last(), effective.drop_last());
        if effective.last() {
            match updates.last().operation {
                Operation::Insert => before.insert(updates.last().tuple.key()),
                Operation::Delete => before.remove(updates.last().tuple.key()),
            }
        } else {
            before
        }
    }
}

/// How many of `s` hold.
pub open spec fn count_true(s: Seq<bool>) -> nat
    decreases s.len(),
{
    if s.len() == 0 {
        0
    } else {
        count_true(s.drop_last()) + if s.last() {
            1nat
        } else {
            0nat
        }
    }
}

/// The result of a write request: which updates the store acknowledged, the
/// errors of the others, how many cache invalidations failed, and the write
/// zookie when one was issued.
#[derive(Debug)]
pub struct WriteOutcome {
    pub success_count: usize,
    pub applied: Vec<bool>,
    pub errors: Vec<SentinelError>,
    pub invalidation_failures: usize,
    pub zookie: Option<Zookie>,
}

/// A pattern that starts with `c` matches nothing that starts with `z`.
proof fn lemma_pattern_misses_latest(p: Seq<char>)
    requires
        p.len() > 0,
        p[0] == 'c',
    ensures
        !glob_matches(p, latest_zookie_key()),
{
    reveal_strlit("zookie:latest");
    assert(latest_zookie_key()[0] == 'z');
}

proof fn lemma_patterns_start_with_c(namespace: Seq<char>, object_id: Seq<char>, user_id: Seq<char>)
    ensures
        object_pattern(namespace, object_id).len() > 0,
        object_pattern(namespace, object_id)[0] == 'c',
        user_pattern(user_id).len() > 0,
        user_pattern(user_id)[0] == 'c',
{
    reveal_strlit("check:");
    reveal_strlit("check:*@user:");
    assert(object_pattern(namespace, object_id)[0] == "check:"@[0]);
    assert(user_pattern(user_id)[0] == "check:*@user:"@[0]);
}

/// Whether `pairs` holds `(a, b)`.
fn find_pair(pairs: &Vec<(String, String)>, a: &String, b: &String) -> (r: bool)
    ensures
        r == exists|o: int| 0 <= o < pairs@.len() && (#[trigger] pairs@[o]).0@ == a@ && pairs@[o].1@ == b@,
{
    let mut u: usize = 0;
    while u < pairs.len()
        invariant
            u <= pairs@.len(),
            forall|w: int| 0 <= w < u ==> !((#[trigger] pairs@[w]).0@ == a@ && pairs@[w].1@ == b@),
        decreases pairs@.len() - u,
    {
        if pairs[u].0 == *a && pairs[u].1 == *b {
            return true;
        }
        u += 1;
    }
    false
}

/// The position of `key` in `keys`.
fn find_key(keys: &Vec<String>, key: &String) -> (r: Option<usize>)
    ensures
        match r {
            Some(u) => u < keys@.len() && keys@[u as int]@ == key@,
            None => forall|u: int| 0 <= u < keys@.len() ==> (#[trigger] keys@[u])@ != key@,
        },
{
    let mut u: usize = 0;
    while u < keys.len()
        invariant
            u <= keys@.len(),
            forall|w: int| 0 <= w < u ==> (#[trigger] keys@[w])@ != key@,
        decreases keys@.len() - u,
    {
        if keys[u] == *key {
            return Some(u);
        }
        u += 1;
    }
    None
}

/// What a cache read says of a check at snapshot time `at`: the outcome of a
/// readable entry that may serve that snapshot, else nothing. `read` is the text
/// the read found; a failed read or a miss is none. A server-chosen snapshot
/// takes any readable entry; a client-chosen one only an entry computed at a
/// snapshot no older than it.
pub open spec fn cache_decision(read: Option<Seq<char>>, at: i64, client_supplied: bool) -> Option<bool> {
    match read {
        Some(t) => match parse_cached_text(encode_utf8(t)) {
            Some((a, _, z)) => if !client_supplied || (decode_token(z) matches Some(m) && m.0 >= at) {
                Some(a)
            } else {
                None
            },
            None => None,
        },
        None => None,
    }
}

/// The text a cache read found.
pub open spec fn read_text(read: SentinelResult<Option<String>>) -> Option<Seq<char>> {
    match read {
        Ok(Some(s)) => Some(s@),
        _ => None,
    }
}

/// `after` is `before`, or `before` with the entry of `allowed` under `token`
/// written at `key`.
pub open spec fn filled(
    before: Map<Seq<char>, Seq<char>>,
    after: Map<Seq<char>, Seq<char>>,
    key: Seq<char>,
    allowed: bool,
    token: Seq<char>,
) -> bool {
    after == before || exists|t: Seq<char>, at: i64|
        after == before.insert(key, t) && encode_utf8(t) == cached_text(allowed, at, token)
}

/// At `key`, `after` holds what `before` held, or the entry of `allowed` under `token`.
pub open spec fn filled_at(
    before: Map<Seq<char>, Seq<char>>,
    after: Map<Seq<char>, Seq<char>>,
    key: Seq<char>,
    allowed: bool,
    token: Seq<char>,
) -> bool {
    lookup(after, key) == lookup(before, key) || exists|t: Seq<char>, at: i64|
        lookup(after, key) == Some(t) && encode_utf8(t) == cached_text(allowed, at, token)
}

/// How a check at one snapshot ends for a given cache read: a usable cached
/// outcome is returned with the cache untouched; otherwise the evaluated
/// outcome, cached as far as the cache allows, or an evaluation error with the
/// cache untouched.
pub open spec fn check_settled(
    read: Option<Seq<char>>,
    at: i64,
    client_supplied: bool,
    granted: bool,
    before: Map<Seq<char>, Seq<char>>,
    after: Map<Seq<char>, Seq<char>>,
    key: Seq<char>,
    token: Seq<char>,
    r: SentinelResult<bool>,
) -> bool {
    match cache_decision(read, at, client_supplied) {
        Some(a) => (r matches Ok(b) && b == a) && after == before,
        None => match r {
            Ok(b) => b == granted && filled(before, after, key, b, token),
            Err(_) => after == before,
        },
    }
}

/// `resp` answers `request`: its token stands for the snapshot (the client's,
/// or one newer than every token issued before); its outcome is a usable cached
/// one for the check key, or else the store's, which is then cached under the
/// check key as far as the cache allows. A usable cached outcome can be passed
/// over only when the cache read failed, so never with a reliable cache.
pub open spec fn check_answered(
    tuples: Set<TupleKey>,
    before: Map<Seq<char>, Seq<char>>,
    after: Map<Seq<char>, Seq<char>>,
    last_issued: i64,
    request: CheckRequest,
    resp: CheckResponse,
    cache_reliable: bool,
) -> bool {
    decode_token(resp.zookie@) matches Some(z) && {
        &&& request.zookie matches Some(t) ==> decode_token(t@) == Some(z)
        &&& request.zookie is None ==> z.0 > last_issued
        &&& {
            let cached = cache_decision(
                lookup(before, check_key(request.key())),
                z.0,
                request.zookie is Some,
            );
            let evaluated = resp.allowed == request_granted(tuples, request) && filled_at(
                before,
                after,
                check_key(request.key()),
                resp.allowed,
                resp.zookie@,
            );
            &&& cached == Some(resp.allowed) || evaluated
            &&& cache_reliable && cached is Some ==> cached == Some(resp.allowed)
        }
    }
}

/// The outcome that a cache read gives a check at `snapshot`, if any.
pub fn cached_decision(read: &SentinelResult<Option<String>>, snapshot: &Zookie, client_supplied: bool) -> (r:
    Option<bool>)
    ensures
        r == cache_decision(read_text(*read), snapshot.timestamp_micros, client_supplied),
{
    let text = match read {
        Ok(Some(t)) => t,
        _ => return None,
    };
    let entry = match CachedCheckResult::from_json(text.as_str()) {
        Ok(c) => c,
        Err(_) => return None,
    };
    if client_supplied {
        match Zookie::from_string(entry.original_zookie.as_str()) {
            Ok(original) => {
                if original.timestamp_micros < snapshot.timestamp_micros {
                    return None;
                }
            },
            Err(_) => return None,
        }
    }
    Some(entry.allowed)
}

/// The permission service: a tuple store, the hierarchy, a result cache and
/// the zookie issuer.
pub struct PermissionChecker<S, C> {
    pub tuple_store: S,
    pub hierarchy: PermissionHierarchy,
    pub cache: C,
    pub zookie_manager: ZookieManager,
}

impl<S: TupleStore, C: Cache> PermissionChecker<S, C> {
    /// The hierarchy is the fixed one and the store holds finitely many tuples.
    pub open spec fn wf(&self) -> bool {
        self.hierarchy.wf() && self.tuple_store.tuples().finite()
    }

    pub fn new(tuple_store: S, cache: C, zookie_manager: ZookieManager) -> (r: Self)
        ensures
            r.hierarchy.wf(),
            r.tuple_store == tuple_store,
            r.cache == cache,
            r.zookie_manager == zookie_manager,
    {
        PermissionChecker { tuple_store, hierarchy: PermissionHierarchy::new(), cache, zookie_manager }
    }

    /// Evaluates `request` against the store, answering under `snapshot_zookie`.
    pub fn check_permission_uncached(&self, request: &CheckRequest, snapshot_zookie: &Zookie) -> (r:
        SentinelResult<CheckResponse>)
        requires
            self.wf(),
        ensures
            self.tuple_store.reliable() ==> r is Ok,
            r matches Ok(resp) ==> resp.allowed == request_granted(self.tuple_store.tuples(), *request)
                && resp.zookie@ == base64_of(zookie_text(snapshot_zookie.view())),
    {
        let allowed = match check_relation(
            &self.tuple_store,
            &self.hierarchy,
            request.namespace.as_str(),
            request.object_id.as_str(),
            request.relation.as_str(),
            request.subject_type_text(),
            request.user_id.as_str(),
        ) {
            Ok(a) => a,
            Err(e) => return Err(e),
        };
        let zookie = match snapshot_zookie.to_string() {
            Ok(z) => z,
            Err(e) => return Err(e),
        };
        Ok(CheckResponse { allowed, zookie })
    }

    /// The cached outcome of `request` when the cache read gives a usable one,
    /// else the evaluated outcome, which is then written to the cache (a cache
    /// failure is ignored).
    fn check_at_snapshot(
        &mut self,
        request: &CheckRequest,
        snapshot: &Zookie,
        client_supplied: bool,
        token: &String,
    ) -> (r: SentinelResult<bool>)
        requires
            old(self).wf(),
        ensures
            final(self).tuple_store == old(self).tuple_store,
            final(self).hierarchy == old(self).hierarchy,
            final(self).zookie_manager == old(self).zookie_manager,
            at_most_written(old(self).cache.entries(), final(self).cache.entries(), check_key(request.key())),
            final(self).cache.ttls() == old(self).cache.ttls() || final(self).cache.ttls() == old(self).cache.ttls().insert(check_key(request.key()), 300),
            old(self).tuple_store.reliable() ==> r is Ok,
            old(self).cache.reliable() ==> final(self).cache.reliable(),
            exists|read: Option<Seq<char>>|
                (read is None || read == lookup(old(self).cache.entries(), check_key(request.key())))
                    && (old(self).cache.reliable() ==> read == lookup(old(self).cache.entries(), check_key(request.key())))
                    && #[trigger] check_settled(
                    read,
                    snapshot.timestamp_micros,
                    client_supplied,
                    request_granted(old(self).tuple_store.tuples(), *request),
                    old(self).cache.entries(),
                    final(self).cache.entries(),
                    check_key(request.key()),
                    token@,
                    r,
                ),
    {
        let key = CacheKeyBuilder::check_permission_key(request);
        let ghost c0 = self.cache.entries();
        let read = self.cache.get(key.as_str());
        let ghost seen = read_text(read);
        if let Some(a) = cached_decision(&read, snapshot, client_supplied) {
            proof {
                assert(check_settled(seen, snapshot.timestamp_micros, client_supplied,
                    request_granted(self.tuple_store.tuples(), *request), c0, self.cache.entries(),
                    key@, token@, Ok::<bool, SentinelError>(a)));
            }
            return Ok(a);
        }
        let allowed = match check_relation(
            &self.tuple_store,
            &self.hierarchy,
            request.namespace.as_str(),
            request.object_id.as_str(),
            request.relation.as_str(),
            request.subject_type_text(),
            request.user_id.as_str(),
        ) {
            Ok(a) => a,
            Err(e) => {
                proof {
                    assert(check_settled(seen, snapshot.timestamp_micros, client_supplied,
                        request_granted(self.tuple_store.tuples(), *request), c0, self.cache.entries(),
                        key@, token@, Err::<bool, SentinelError>(e)));
                }
                return Err(e);
            },
        };
        let response = CheckResponse { allowed, zookie: token.clone() };
        let at = now_micros();
        let entry = CachedCheckResult::stamped(&response, at);
        let json = match entry.to_json() {
            Ok(j) => j,
            Err(e) => return Err(e),
        };
        let _ = self.cache.set(key.as_str(), json.as_str(), CacheTTL::PERMISSION_CHECK);
        proof {
            assert(filled(c0, self.cache.entries(), key@, allowed, token@)) by {
                if self.cache.entries() != c0 {
                    assert(self.cache.entries() == c0.insert(key@, json@));
                    assert(encode_utf8(json@) == cached_text(allowed, at, token@));
                }
            }
            assert(check_settled(seen, snapshot.timestamp_micros, client_supplied,
                request_granted(self.tuple_store.tuples(), *request), c0, self.cache.entries(),
                key@, token@, Ok::<bool, SentinelError>(allowed)));
        }
        Ok(allowed)
    }

    /// Answers `request` at the snapshot its token names (or a freshly issued
    /// one): from a usable cached outcome when the cache read gives one, else by
    /// evaluation, whose outcome is then cached under the check key. A cache
    /// failure never fails the check; a rejected token fails it before the cache
    /// is touched.
    pub fn check_permission(&mut self, request: &CheckRequest) -> (r: SentinelResult<CheckResponse>)
        requires
            old(self).wf(),
        ensures
            final(self).wf(),
            final(self).tuple_store == old(self).tuple_store,
            final(self).hierarchy == old(self).hierarchy,
            forall|k: Seq<char>|
                k != latest_zookie_key() && k != check_key(request.key()) ==> lookup(
                    #[trigger] final(self).cache.entries().remove(latest_zookie_key()),
                    k,
                ) == lookup(old(self).cache.entries(), k),
            request.zookie is Some && r is Err ==> final(self).cache.entries() == old(self).cache.entries(),
            ({
                let t0 = old(self).cache.ttls();
                let t1 = final(self).cache.ttls();
                let key = check_key(request.key());
                t1 == t0 || t1 == t0.insert(key, 300) || t1 == t0.insert(latest_zookie_key(), 3600) || t1
                    == t0.insert(latest_zookie_key(), 3600).insert(key, 300)
            }),
            old(self).tuple_store.reliable() ==> (r matches Err(e) ==> (request.zookie is Some && e is ValidationError)
                || (request.zookie is None && e is InternalError && old(self).zookie_manager.last_issued() == i64::MAX)),
            old(self).tuple_store.reliable() && request.zookie is None && old(self).zookie_manager.last_issued()
                < i64::MAX ==> r is Ok,
            request.zookie matches Some(t) ==> (decode_token(t@) is None ==> (r matches Err(e)
                && e is ValidationError)),
            request.zookie is None && old(self).zookie_manager.last_issued() == i64::MAX ==> (r matches Err(e)
                && e is InternalError),
            r matches Ok(resp) ==> check_answered(
                old(self).tuple_store.tuples(),
                old(self).cache.entries(),
                final(self).cache.entries(),
                old(self).zookie_manager.last_issued(),
                *request,
                resp,
                old(self).cache.reliable(),
            ),
    {
        let client_token: Option<&str> = match &request.zookie {
            Some(t) => Some(t.as_str()),
            None => None,
        };
        let ghost c0 = self.cache.entries();
        let validated = self.zookie_manager.validate_and_get_snapshot_time(&mut self.cache, client_token);
        let snapshot = match validated {
            Ok(z) => z,
            Err(e) => {
                proof {
                    assert(self.cache.entries().remove(latest_zookie_key()) =~= c0.remove(latest_zookie_key()));
                }
                return Err(e);
            },
        };
        let token = match snapshot.to_string() {
            Ok(t) => t,
            Err(e) => return Err(e),
        };
        let ghost c1 = self.cache.entries();
        let ghost c1_reliable = self.cache.reliable();
        let ghost key = check_key(request.key());
        proof {
            lemma_check_key_not_latest(request.key());
            assert(lookup(c1, key) == lookup(c0, key));
            assert(c1.remove(latest_zookie_key()) =~= c0.remove(latest_zookie_key()));
        }
        let answer = self.check_at_snapshot(request, &snapshot, client_token.is_some(), &token);
        proof {
            let c2 = self.cache.entries();
            assert forall|k: Seq<char>|
                k != latest_zookie_key() && k != key implies lookup(
                    #[trigger] c2.remove(latest_zookie_key()),
                    k,
                ) == lookup(c0, k) by {
                if c2 != c1 {
                    let v = choose|v: Seq<char>| c2 == c1.insert(key, v);
                    assert(lookup(c2.remove(latest_zookie_key()), k) == lookup(c1.remove(latest_zookie_key()), k));
                }
                assert(lookup(c1.remove(latest_zookie_key()), k) == lookup(c0.remove(latest_zookie_key()), k));
            }
        }
        let allowed = match answer {
            Ok(a) => a,
            Err(e) => return Err(e),
        };
        let resp = CheckResponse { allowed, zookie: token };
        proof {
            let read = choose|read: Option<Seq<char>>|
                (read is None || read == lookup(c1, key)) && (c1_reliable ==> read == lookup(c1, key))
                    && #[trigger] check_settled(
                    read,
                    snapshot.timestamp_micros,
                    client_token is Some,
                    request_granted(self.tuple_store.tuples(), *request),
                    c1,
                    self.cache.entries(),
                    key,
                    resp.zookie@,
                    Ok::<bool, SentinelError>(allowed),
                );
            if cache_decision(read, snapshot.timestamp_micros, client_token is Some) is None {
                assert(filled_at(c0, self.cache.entries(), key, allowed, resp.zookie@));
            }
            assert(read is None || read == lookup(c0, key));
            assert(snapshot.view().0 == snapshot.timestamp_micros);
            assert(self.tuple_store == old(self).tuple_store);
            assert(c0 == old(self).cache.entries());
            lemma_zookie_text_round_trip(snapshot.view());
            assert(decode_token(resp.zookie@) == Some(snapshot.view()));
            assert(check_answered(
                old(self).tuple_store.tuples(),
                old(self).cache.entries(),
                self.cache.entries(),
                old(self).zookie_manager.last_issued(),
                *request,
                resp,
                old(self).cache.reliable(),
            ));
        }
        Ok(resp)
    }
}


impl<S: TupleStore, C: Cache> PermissionChecker<S, C> {
    /// `ns:oid#rel@uid`, how a batch item names its request.
    fn request_info(request: &CheckRequest) -> (r: String)
        ensures
            r@ == request_text(*request),
    {
        let mut s = request.namespace.clone();
        s.append(":");
        s.append(request.object_id.as_str());
        s.append("#");
        s.append(request.relation.as_str());
        s.append("@");
        s.append(request.user_id.as_str());
        s
    }

    /// Answers each request of a batch at one snapshot, checking each distinct
    /// cache key once. A failed check counts as denied and is marked `(ERROR)`.
    pub fn batch_check_permissions(&mut self, request: &BatchCheckRequest) -> (r: SentinelResult<
        BatchCheckResponse,
    >)
        requires
            old(self).wf(),
        ensures
            final(self).wf(),
            final(self).tuple_store == old(self).tuple_store,
            final(self).hierarchy == old(self).hierarchy,
            r matches Ok(resp) ==> decode_token(resp.zookie@) matches Some(z) && (request.zookie matches Some(t) ==> decode_token(t@) == Some(z)) && (request.zookie is None ==> z.0 > old(self).zookie_manager.last_issued()) && batch_answers(
                old(self).tuple_store.tuples(),
                old(self).cache.entries(),
                request.checks@,
                resp.results@,
                z.0,
                request.zookie is Some,
            ),
            r matches Err(e) ==> e is ValidationError || (e is InternalError && request.zookie is None
                && old(self).zookie_manager.last_issued() == i64::MAX),
            r matches Ok(resp) ==> resp.total_requests == request.checks@.len()
                && resp.allowed_count == count_allowed(resp.results@) && resp.denied_count
                == request.checks@.len() - count_allowed(resp.results@),
            request.zookie matches Some(t) ==> (decode_token(t@) is None ==> r is Err),
            request.zookie is None && old(self).zookie_manager.last_issued() < i64::MAX ==> r is Ok,
            old(self).tuple_store.reliable() ==> (r matches Ok(resp) ==> forall|i: int|
                0 <= i < request.checks@.len() ==> (#[trigger] resp.results@[i]).request_info@ == request_text(
                    request.checks@[i],
                )),
    {
        let client_token: Option<&str> = match &request.zookie {
            Some(t) => Some(t.as_str()),
            None => None,
        };
        let ghost c0 = self.cache.entries();
        let ghost tuples = self.tuple_store.tuples();
        let validated = self.zookie_manager.validate_and_get_snapshot_time(&mut self.cache, client_token);
        let snapshot = match validated {
            Ok(z) => z,
            Err(e) => return Err(e),
        };
        let token = match snapshot.to_string() {
            Ok(t) => t,
            Err(e) => return Err(e),
        };
        let checks = &request.checks;
        let n = checks.len();
        let mut keys: Vec<String> = Vec::new();
        let mut first: Vec<usize> = Vec::new();
        let mut outcomes: Vec<(bool, bool)> = Vec::new();
        let mut slot_of: Vec<usize> = Vec::new();
        let mut i: usize = 0;
        while i < n
            invariant
                n == checks@.len(),
                i <= n,
                self.wf(),
                self.tuple_store == old(self).tuple_store,
                self.hierarchy == old(self).hierarchy,
                tuples == self.tuple_store.tuples(),
                keys@.len() == first@.len(),
                keys@.len() == outcomes@.len(),
                slot_of@.len() == i,
                forall|u: int| 0 <= u < keys@.len() ==> first@[u] < i,
                forall|u: int|
                    0 <= u < keys@.len() ==> (#[trigger] keys@[u])@ == check_key(
                        checks@[first@[u] as int].key(),
                    ),
                forall|u: int, v: int|
                    0 <= u < keys@.len() && 0 <= v < keys@.len() && u != v ==> (#[trigger] keys@[u])@
                        != (#[trigger] keys@[v])@,
                forall|u: int|
                    0 <= u < keys@.len() && (#[trigger] outcomes@[u]).0 ==> request_granted(
                        tuples,
                        checks@[first@[u] as int],
                    ) || cached_outcome(c0, keys@[u]@) == Some(true),
                forall|u: int|
                    0 <= u < keys@.len() ==> (self.tuple_store.reliable() ==> !(#[trigger] outcomes@[u]).1) && (outcomes@[u].1 ==> !outcomes@[u].0) && (
                    !outcomes@[u].1 ==> (outcomes@[u].0 == request_granted(
                        tuples,
                        checks@[first@[u] as int],
                    ) || cache_decision(lookup(c0, keys@[u]@), snapshot.timestamp_micros, client_token is Some)
                        == Some(outcomes@[u].0))),
                forall|j: int|
                    0 <= j < i ==> (#[trigger] slot_of@[j]) < keys@.len() && keys@[slot_of@[j] as int]@
                        == check_key(checks@[j].key()),
                forall|k: Seq<char>|
                    (forall|u: int| 0 <= u < keys@.len() ==> (#[trigger] keys@[u])@ != k) && k
                        != latest_zookie_key() ==> lookup(self.cache.entries(), k) == lookup(c0, k),
            decreases n - i,
        {
            let key = CacheKeyBuilder::check_permission_key(&checks[i]);
            let slot = match find_key(&keys, &key) {
                Some(u) => u,
                None => {
                    let ghost cur = self.cache.entries();
                    proof {
                        lemma_check_key_not_latest(checks@[i as int].key());
                    }
                    let outcome = match self.check_at_snapshot(&checks[i], &snapshot, client_token.is_some(), &token) {
                        Ok(a) => (a, false),
                        Err(_) => (false, true),
                    };
                    proof {
                        let k = key@;
                        assert(lookup(cur, k) == lookup(c0, k));
                        assert(cached_outcome(cur, k) == cached_outcome(c0, k));
                        if !outcome.1 {
                            let rd = choose|rd: Option<Seq<char>>|
                                (rd is None || rd == lookup(cur, k)) && #[trigger] check_settled(
                                    rd,
                                    snapshot.timestamp_micros,
                                    client_token is Some,
                                    request_granted(tuples, checks@[i as int]),
                                    cur,
                                    self.cache.entries(),
                                    k,
                                    token@,
                                    Ok::<bool, SentinelError>(outcome.0),
                                );
                            assert(outcome.0 == request_granted(tuples, checks@[i as int]) || cache_decision(
                                lookup(c0, k),
                                snapshot.timestamp_micros,
                                client_token is Some,
                            ) == Some(outcome.0));
                        }
                    }
                    let ghost old_keys = keys@;
                    keys.push(key);
                    first.push(i);
                    outcomes.push(outcome);
                    proof {
                        let k = key@;
                        let after = self.cache.entries();
                        assert forall|k2: Seq<char>|
                            (forall|u: int| 0 <= u < keys@.len() ==> (#[trigger] keys@[u])@ != k2) && k2
                                != latest_zookie_key() implies lookup(after, k2) == lookup(c0, k2) by {
                            assert(keys@[old_keys.len() as int]@ == k);
                            assert forall|u: int| 0 <= u < old_keys.len() implies (#[trigger] old_keys[u])@ != k2 by {
                                assert(keys@[u] == old_keys[u]);
                            }
                            if after != cur {
                                let v = choose|v: Seq<char>| after == cur.insert(k, v);
                                assert(lookup(after, k2) == lookup(cur, k2));
                            }
                        }
                    }
                    keys.len() - 1
                },
            };
            slot_of.push(slot);
            i += 1;
        }
        let mut results: Vec<BatchCheckItem> = Vec::new();
        let mut j: usize = 0;
        while j < n
            invariant
                n == checks@.len(),
                j <= n,
                slot_of@.len() == n,
                keys@.len() == first@.len(),
                keys@.len() == outcomes@.len(),
                results@.len() == j,
                forall|u: int| 0 <= u < keys@.len() ==> first@[u] < n,
                forall|u: int|
                    0 <= u < keys@.len() ==> (#[trigger] keys@[u])@ == check_key(
                        checks@[first@[u] as int].key(),
                    ),
                forall|u: int, v: int|
                    0 <= u < keys@.len() && 0 <= v < keys@.len() && u != v ==> (#[trigger] keys@[u])@
                        != (#[trigger] keys@[v])@,
                forall|u: int|
                    0 <= u < keys@.len() && (#[trigger] outcomes@[u]).0 ==> request_granted(
                        tuples,
                        checks@[first@[u] as int],
                    ) || cached_outcome(c0, keys@[u]@) == Some(true),
                forall|u: int|
                    0 <= u < keys@.len() ==> (self.tuple_store.reliable() ==> !(#[trigger] outcomes@[u]).1) && (outcomes@[u].1 ==> !outcomes@[u].0) && (
                    !outcomes@[u].1 ==> (outcomes@[u].0 == request_granted(
                        tuples,
                        checks@[first@[u] as int],
                    ) || cache_decision(lookup(c0, keys@[u]@), snapshot.timestamp_micros, client_token is Some)
                        == Some(outcomes@[u].0))),
                forall|m: int|
                    0 <= m < j ==> (#[trigger] results@[m]).request_info@ == request_text(checks@[m]) + (
                    if outcomes@[slot_of@[m] as int].1 {
                        " (ERROR)"@
                    } else {
                        Seq::<char>::empty()
                    }),
                forall|m: int|
                    0 <= m < n ==> (#[trigger] slot_of@[m]) < keys@.len() && keys@[slot_of@[m] as int]@
                        == check_key(checks@[m].key()),
                forall|m: int|
                    0 <= m < j ==> (#[trigger] results@[m]).request_index == m && results@[m].allowed
                        == outcomes@[slot_of@[m] as int].0,
            decreases n - j,
        {
            let (allowed, failed) = outcomes[slot_of[j]];
            let mut info = Self::request_info(&checks[j]);
            if failed {
                info.append(" (ERROR)");
            } else {
                proof {
                    assert(info@ + Seq::<char>::empty() =~= info@);
                }
            }
            results.push(BatchCheckItem { request_index: j, allowed, request_info: info });
            j += 1;
        }
        proof {
            let rs = results@;
            let cs = checks@;
            assert forall|a: int, b: int|
                0 <= a < rs.len() && 0 <= b < rs.len() && check_key(cs[a].key()) == check_key(cs[b].key())
                    implies (#[trigger] rs[a]).allowed == (#[trigger] rs[b]).allowed by {
                assert(slot_of@[a] < keys@.len() && slot_of@[b] < keys@.len());
                if slot_of@[a] != slot_of@[b] {
                    assert(keys@[slot_of@[a] as int]@ != keys@[slot_of@[b] as int]@);
                }
            }
            reveal_strlit(" (ERROR)");
            assert forall|a: int|
                0 <= a < rs.len() && (#[trigger] rs[a]).request_info@ == request_text(cs[a]) implies exists|b: int|
                0 <= b < cs.len() && check_key(cs[b].key()) == check_key(cs[a].key()) && (
                rs[a].allowed == request_granted(tuples, #[trigger] cs[b]) || cache_decision(
                    lookup(c0, check_key(cs[a].key())),
                    snapshot.timestamp_micros,
                    client_token is Some,
                ) == Some(rs[a].allowed)) by {
                let u = slot_of@[a] as int;
                if outcomes@[u].1 {
                    assert((request_text(cs[a]) + " (ERROR)"@).len() > request_text(cs[a]).len());
                }
                let b = first@[u] as int;
                assert(rs[a].allowed == outcomes@[u].0);
                assert(rs[a].allowed == request_granted(tuples, cs[b]) || cache_decision(
                    lookup(c0, check_key(cs[a].key())),
                    snapshot.timestamp_micros,
                    client_token is Some,
                ) == Some(rs[a].allowed));
            }
            assert forall|a: int| 0 <= a < rs.len() && (#[trigger] rs[a]).allowed implies exists|b: int|
                0 <= b < cs.len() && check_key(cs[b].key()) == check_key(cs[a].key()) && (
                request_granted(tuples, #[trigger] cs[b]) || cached_outcome(c0, check_key(cs[a].key()))
                    == Some(true)) by {
                let u = slot_of@[a] as int;
                assert(outcomes@[u].0);
                let b = first@[u] as int;
                assert(request_granted(tuples, cs[b]) || cached_outcome(c0, check_key(cs[a].key())) == Some(true));
            }
        }
        proof {
            lemma_zookie_text_round_trip(snapshot.view());
        }
        Ok(BatchCheckResponse::new(results, token))
    }
}

/// Records `(a, b)` in `pairs` unless it is there already.
fn note_pair(pairs: &mut Vec<(String, String)>, a: &String, b: &String)
    ensures
        final(pairs)@.len() == old(pairs)@.len() || (final(pairs)@.len() == old(pairs)@.len() + 1
            && final(pairs)@.last().0@ == a@ && final(pairs)@.last().1@ == b@),
        forall|o: int| 0 <= o < old(pairs)@.len() ==> #[trigger] final(pairs)@[o] == old(pairs)@[o],
        exists|o: int|
            0 <= o < final(pairs)@.len() && (#[trigger] final(pairs)@[o]).0@ == a@ && final(pairs)@[o].1@
                == b@,
{
    if !find_pair(pairs, a, b) {
        pairs.push((a.clone(), b.clone()));
        proof {
            assert(pairs@[pairs@.len() - 1].0@ == a@);
        }
    }
}

/// Records `a` in `names` unless it is there already.
fn note_name(names: &mut Vec<String>, a: &String)
    ensures
        final(names)@.len() == old(names)@.len() || (final(names)@.len() == old(names)@.len() + 1
            && final(names)@.last()@ == a@),
        forall|o: int| 0 <= o < old(names)@.len() ==> #[trigger] final(names)@[o] == old(names)@[o],
        exists|o: int| 0 <= o < final(names)@.len() && (#[trigger] final(names)@[o])@ == a@,
{
    match find_key(names, a) {
        Some(u) => {},
        None => {
            names.push(a.clone());
            proof {
                assert(names@[names@.len() - 1]@ == a@);
            }
        },
    }
}

/// The tuples after one update.
pub open spec fn apply_update(tuples: Set<TupleKey>, update: TupleUpdate) -> Set<TupleKey> {
    match update.operation {
        Operation::Insert => tuples.insert(update.tuple.key()),
        Operation::Delete => tuples.remove(update.tuple.key()),
    }
}

/// The store answered the updates with `answers`: an update counts as applied
/// exactly when its answer is `Ok`, the errors are the `Err` answers in order,
/// and the tuples are the old ones with the updates of `effective` applied,
/// which include every acknowledged one.
pub open spec fn store_answered(
    before: Set<TupleKey>,
    after: Set<TupleKey>,
    updates: Seq<TupleUpdate>,
    answers: Seq<SentinelResult<()>>,
    effective: Seq<bool>,
    applied: Seq<bool>,
    errors: Seq<SentinelError>,
) -> bool {
    &&& answers.len() == updates.len()
    &&& effective.len() == updates.len()
    &&& forall|i: int| 0 <= i < updates.len() ==> #[trigger] applied[i] == (answers[i] is Ok)
    &&& forall|i: int| 0 <= i < updates.len() && #[trigger] answers[i] is Ok ==> effective[i]
    &&& errors == errors_of(answers)
    &&& after == apply_updates(before, updates, effective)
}

/// `k` is a key that a write's invalidation clears: it matches the object
/// pattern of an acknowledged update, or the user pattern of one whose subject
/// is a principal.
pub open spec fn write_clears(updates: Seq<TupleUpdate>, applied: Seq<bool>, k: Seq<char>) -> bool {
    exists|i: int|
        #![trigger applied[i], updates[i]]
        0 <= i < applied.len() && applied[i] && (glob_matches(
            object_pattern(updates[i].tuple.namespace@, updates[i].tuple.object_id@),
            k,
        ) || (updates[i].tuple.user_type@ == "user"@ && glob_matches(
            user_pattern(updates[i].tuple.user_id@),
            k,
        )))
}

/// `k` matches the pattern of one of the listed objects or principals.
pub open spec fn list_clears(objects: Seq<(String, String)>, users: Seq<String>, k: Seq<char>) -> bool {
    (exists|o: int|
        #![trigger objects[o]]
        0 <= o < objects.len() && glob_matches(object_pattern(objects[o].0@, objects[o].1@), k)) || (
    exists|u: int| #![trigger users[u]] 0 <= u < users.len() && glob_matches(user_pattern(users[u]@), k))
}

/// The errors among `results`, in order.
pub open spec fn errors_of(results: Seq<SentinelResult<()>>) -> Seq<SentinelError>
    decreases results.len(),
{
    if results.len() == 0 {
        seq![]
    } else {
        let before = errors_of(results.drop_last());
        match results.last() {
            Err(e) => before.push(e),
            Ok(_) => before,
        }
    }
}

/// Some acknowledged update is on the object `namespace:object_id`.
pub open spec fn touched_object(
    updates: Seq<TupleUpdate>,
    applied: Seq<bool>,
    namespace: Seq<char>,
    object_id: Seq<char>,
) -> bool {
    exists|i: int|
        #![trigger applied[i], updates[i]]
        0 <= i < applied.len() && applied[i] && updates[i].tuple.namespace@ == namespace
            && updates[i].tuple.object_id@ == object_id
}

/// Some acknowledged update has the principal `user_id` as its subject.
pub open spec fn touched_user(updates: Seq<TupleUpdate>, applied: Seq<bool>, user_id: Seq<char>) -> bool {
    exists|i: int|
        #![trigger applied[i], updates[i]]
        0 <= i < applied.len() && applied[i] && updates[i].tuple.user_type@ == "user"@
            && updates[i].tuple.user_id@ == user_id
}

/// What each update of a write did as the store answered it, and the objects
/// and principals the acknowledged updates touched, each once.
pub struct WriteTally {
    pub applied: Vec<bool>,
    pub errors: Vec<SentinelError>,
    pub success_count: usize,
    pub objects: Vec<(String, String)>,
    pub users: Vec<String>,
}

/// The tally of a write from the store's answer to each update, in order.
pub fn tally_write(updates: &Vec<TupleUpdate>, results: Vec<SentinelResult<()>>) -> (r: WriteTally)
    requires
        results@.len() == updates@.len(),
    ensures
        r.applied@.len() == updates@.len(),
        forall|i: int| 0 <= i < updates@.len() ==> #[trigger] r.applied@[i] == (results@[i] is Ok),
        r.errors@ == errors_of(results@),
        r.success_count == count_true(r.applied@),
        r.success_count <= updates@.len(),
        forall|o: int|
            0 <= o < r.objects@.len() ==> touched_object(
                updates@,
                r.applied@,
                (#[trigger] r.objects@[o]).0@,
                r.objects@[o].1@,
            ),
        forall|j: int|
            0 <= j < updates@.len() && #[trigger] r.applied@[j] ==> exists|o: int|
                0 <= o < r.objects@.len() && (#[trigger] r.objects@[o]).0@ == updates@[j].tuple.namespace@
                    && r.objects@[o].1@ == updates@[j].tuple.object_id@,
        forall|o: int| 0 <= o < r.users@.len() ==> touched_user(updates@, r.applied@, (#[trigger] r.users@[o])@),
        forall|j: int|
            0 <= j < updates@.len() && #[trigger] r.applied@[j] && updates@[j].tuple.user_type@ == "user"@
                ==> exists|o: int| 0 <= o < r.users@.len() && (#[trigger] r.users@[o])@ == updates@[j].tuple.user_id@,
{
    let n = updates.len();
    let mut rest = results;
    let mut t = WriteTally {
        applied: Vec::new(),
        errors: Vec::new(),
        success_count: 0,
        objects: Vec::new(),
        users: Vec::new(),
    };
    let mut i: usize = 0;
    proof {
        assert(results@.skip(0) =~= results@);
        assert(results@.take(0) =~= Seq::<SentinelResult<()>>::empty());
    }
    while i < n
        invariant
            n == updates@.len(),
            n == results@.len(),
            i <= n,
            rest@ == results@.skip(i as int),
            t.applied@.len() == i,
            forall|j: int| 0 <= j < i ==> #[trigger] t.applied@[j] == (results@[j] is Ok),
            t.errors@ == errors_of(results@.take(i as int)),
            t.success_count == count_true(t.applied@),
            t.success_count <= i,
            forall|o: int|
                0 <= o < t.objects@.len() ==> touched_object(
                    updates@,
                    t.applied@,
                    (#[trigger] t.objects@[o]).0@,
                    t.objects@[o].1@,
                ),
            forall|j: int|
                0 <= j < i && #[trigger] t.applied@[j] ==> exists|o: int|
                    0 <= o < t.objects@.len() && (#[trigger] t.objects@[o]).0@ == updates@[j].tuple.namespace@
                        && t.objects@[o].1@ == updates@[j].tuple.object_id@,
            forall|o: int| 0 <= o < t.users@.len() ==> touched_user(updates@, t.applied@, (#[trigger] t.users@[o])@),
            forall|j: int|
                0 <= j < i && #[trigger] t.applied@[j] && updates@[j].tuple.user_type@ == "user"@
                    ==> exists|o: int|
                    0 <= o < t.users@.len() && (#[trigger] t.users@[o])@ == updates@[j].tuple.user_id@,
        decreases n - i,
    {
        let update = &updates[i];
        let result = rest.remove(0);
        proof {
            assert(result == results@[i as int]);
            assert(rest@ =~= results@.skip(i + 1));
            assert(results@.take(i + 1).drop_last() =~= results@.take(i as int));
            assert(results@.take(i + 1).last() == results@[i as int]);
        }
        let ghost prev_applied = t.applied@;
        let ghost prev_objects = t.objects@;
        let ghost prev_users = t.users@;
        match result {
            Ok(()) => {
                t.applied.push(true);
                t.success_count += 1;
                note_pair(&mut t.objects, &update.tuple.namespace, &update.tuple.object_id);
                if str_eq(update.tuple.user_type.as_str(), "user") {
                    note_name(&mut t.users, &update.tuple.user_id);
                }
            },
            Err(e) => {
                t.applied.push(false);
                t.errors.push(e);
            },
        }
        proof {
            let ap = t.applied@;
            assert(ap.drop_last() =~= prev_applied);
            assert(forall|j: int| 0 <= j < i ==> ap[j] == prev_applied[j]);
            assert forall|o: int| 0 <= o < t.objects@.len() implies touched_object(
                updates@,
                ap,
                (#[trigger] t.objects@[o]).0@,
                t.objects@[o].1@,
            ) by {
                if o < prev_objects.len() {
                    assert(t.objects@[o] == prev_objects[o]);
                    assert(touched_object(updates@, prev_applied, prev_objects[o].0@, prev_objects[o].1@));
                    let w = choose|w: int|
                        #![trigger prev_applied[w], updates@[w]]
                        0 <= w < prev_applied.len() && prev_applied[w] && updates@[w].tuple.namespace@
                            == prev_objects[o].0@ && updates@[w].tuple.object_id@ == prev_objects[o].1@;
                    assert(ap[w]);
                } else {
                    assert(ap[i as int]);
                    assert(updates@[i as int] == *update);
                }
            }
            assert forall|o: int| 0 <= o < t.users@.len() implies touched_user(
                updates@,
                ap,
                (#[trigger] t.users@[o])@,
            ) by {
                if o < prev_users.len() {
                    assert(t.users@[o] == prev_users[o]);
                    assert(touched_user(updates@, prev_applied, prev_users[o]@));
                    let w = choose|w: int|
                        #![trigger prev_applied[w], updates@[w]]
                        0 <= w < prev_applied.len() && prev_applied[w] && updates@[w].tuple.user_type@
                            == "user"@ && updates@[w].tuple.user_id@ == prev_users[o]@;
                    assert(ap[w]);
                } else {
                    assert(ap[i as int]);
                    assert(updates@[i as int] == *update);
                }
            }
            assert forall|j: int| 0 <= j < i + 1 && #[trigger] ap[j] implies exists|o: int|
                0 <= o < t.objects@.len() && (#[trigger] t.objects@[o]).0@ == updates@[j].tuple.namespace@
                    && t.objects@[o].1@ == updates@[j].tuple.object_id@ by {
                if j < i {
                    let o = choose|o: int|
                        0 <= o < prev_objects.len() && (#[trigger] prev_objects[o]).0@
                            == updates@[j].tuple.namespace@ && prev_objects[o].1@
                            == updates@[j].tuple.object_id@;
                    assert(t.objects@[o] == prev_objects[o]);
                } else {
                    assert(updates@[j] == *update);
                    let o = choose|o: int|
                        0 <= o < t.objects@.len() && (#[trigger] t.objects@[o]).0@ == update.tuple.namespace@
                            && t.objects@[o].1@ == update.tuple.object_id@;
                    assert(t.objects@[o].0@ == updates@[j].tuple.namespace@);
                }
            }
            assert forall|j: int|
                0 <= j < i + 1 && #[trigger] ap[j] && updates@[j].tuple.user_type@ == "user"@
                    implies exists|o: int|
                    0 <= o < t.users@.len() && (#[trigger] t.users@[o])@ == updates@[j].tuple.user_id@ by {
                if j < i {
                    let o = choose|o: int|
                        0 <= o < prev_users.len() && (#[trigger] prev_users[o])@ == updates@[j].tuple.user_id@;
                    assert(t.users@[o] == prev_users[o]);
                } else {
                    assert(updates@[j] == *update);
                    let o = choose|o: int| 0 <= o < t.users@.len() && (#[trigger] t.users@[o])@ == update.tuple.user_id@;
                    assert(t.users@[o]@ == updates@[j].tuple.user_id@);
                }
            }
        }
        i += 1;
    }
    proof {
        assert(results@.take(n as int) =~= results@);
    }
    t
}

impl<S: TupleStore, C: Cache> PermissionChecker<S, C> {
    /// Applies one update, stamping the tuple with the current time.
    fn apply_one(&mut self, update: &TupleUpdate) -> (r: SentinelResult<()>)
        requires
            old(self).wf(),
        ensures
            final(self).wf(),
            final(self).hierarchy == old(self).hierarchy,
            final(self).cache == old(self).cache,
            final(self).zookie_manager == old(self).zookie_manager,
            old(self).tuple_store.reliable() ==> r is Ok && final(self).tuple_store.reliable(),
            r is Ok ==> final(self).tuple_store.tuples() == apply_update(old(self).tuple_store.tuples(), *update),
            final(self).tuple_store.tuples() == old(self).tuple_store.tuples()
                || final(self).tuple_store.tuples() == apply_update(old(self).tuple_store.tuples(), *update),
    {
        let tuple = RelationTuple::with_timestamp(
            update.tuple.namespace.as_str(),
            update.tuple.object_id.as_str(),
            update.tuple.relation.as_str(),
            update.tuple.user_type.as_str(),
            update.tuple.user_id.as_str(),
            now_millis(),
        );
        match update.operation {
            Operation::Insert => self.tuple_store.insert_tuple(&tuple),
            Operation::Delete => self.tuple_store.delete_tuple(&tuple),
        }
    }

    /// Applies `updates` in order, going on past refusals; returns the store's
    /// answer to each and which of them took effect.
    fn apply_all(&mut self, updates: &Vec<TupleUpdate>) -> (r: (Vec<SentinelResult<()>>, Ghost<Seq<bool>>))
        requires
            old(self).wf(),
        ensures
            final(self).wf(),
            final(self).hierarchy == old(self).hierarchy,
            final(self).cache == old(self).cache,
            final(self).zookie_manager == old(self).zookie_manager,
            r.0@.len() == updates@.len(),
            r.1@.len() == updates@.len(),
            forall|j: int| 0 <= j < updates@.len() && #[trigger] r.0@[j] is Ok ==> r.1@[j],
            final(self).tuple_store.tuples() == apply_updates(old(self).tuple_store.tuples(), updates@, r.1@),
            old(self).tuple_store.reliable() ==> final(self).tuple_store.reliable() && forall|j: int|
                0 <= j < updates@.len() ==> #[trigger] r.0@[j] is Ok,
    {
        let n = updates.len();
        let ghost t0 = self.tuple_store.tuples();
        let mut eff: Ghost<Seq<bool>> = Ghost(Seq::empty());
        let mut results: Vec<SentinelResult<()>> = Vec::new();
        let mut i: usize = 0;
        while i < n
            invariant
                n == updates@.len(),
                i <= n,
                self.wf(),
                self.hierarchy == old(self).hierarchy,
                self.cache == old(self).cache,
                self.zookie_manager == old(self).zookie_manager,
                results@.len() == i,
                eff@.len() == i,
                forall|j: int| 0 <= j < i && #[trigger] results@[j] is Ok ==> eff@[j],
                old(self).tuple_store.reliable() ==> self.tuple_store.reliable() && forall|j: int|
                    0 <= j < i ==> #[trigger] results@[j] is Ok,
                self.tuple_store.tuples() == apply_updates(t0, updates@.take(i as int), eff@),
            decreases n - i,
        {
            let update = &updates[i];
            let ghost before = self.tuple_store.tuples();
            let result = self.apply_one(update);
            let ghost took = self.tuple_store.tuples() == apply_update(before, *update);
            proof {
                let e2 = eff@.push(took);
                assert(updates@.take(i + 1).drop_last() =~= updates@.take(i as int));
                assert(e2.drop_last() =~= eff@);
                assert(updates@.take(i + 1).last() == updates@[i as int]);
            }
            eff = Ghost(eff@.push(took));
            results.push(result);
            i += 1;
        }
        proof {
            assert(updates@.take(n as int) =~= updates@);
        }
        (results, eff)
    }

    /// Deletes the cached checks of each object and each principal; returns
    /// how many deletions failed.
    fn invalidate_touched(&mut self, objects: &Vec<(String, String)>, users: &Vec<String>) -> (r: usize)
        ensures
            final(self).tuple_store == old(self).tuple_store,
            final(self).hierarchy == old(self).hierarchy,
            final(self).zookie_manager == old(self).zookie_manager,
            r == 0 ==> forall|o: int|
                0 <= o < objects@.len() ==> object_cleared(
                    final(self).cache.entries(),
                    (#[trigger] objects@[o]).0@,
                    objects@[o].1@,
                ),
            r == 0 ==> forall|o: int|
                0 <= o < users@.len() ==> user_cleared(final(self).cache.entries(), (#[trigger] users@[o])@),
            r == 0 ==> only_removed(old(self).cache.entries(), final(self).cache.entries()),
            old(self).cache.reliable() ==> r == 0 && final(self).cache.reliable(),
            r == 0 ==> forall|k: Seq<char>|
                #[trigger] lookup(final(self).cache.entries(), k) == if list_clears(objects@, users@, k) {
                    None
                } else {
                    lookup(old(self).cache.entries(), k)
                },
    {
        let ghost c0 = self.cache.entries();
        proof {
            assert forall|k: Seq<char>| #[trigger] lookup(self.cache.entries(), k) == if list_clears(objects@.take(0), Seq::<String>::empty(), k) {
                None
            } else {
                lookup(c0, k)
            } by {
                assert(!list_clears(objects@.take(0), Seq::<String>::empty(), k));
            }
        }
        let mut failures: usize = 0;
        let mut k: usize = 0;
        while k < objects.len()
            invariant
                k <= objects@.len(),
                failures == 0 ==> forall|o: int|
                    0 <= o < k ==> object_cleared(
                        self.cache.entries(),
                        (#[trigger] objects@[o]).0@,
                        objects@[o].1@,
                    ),
                failures == 0 ==> only_removed(c0, self.cache.entries()),
                old(self).cache.reliable() ==> failures == 0 && self.cache.reliable(),
                failures == 0 ==> forall|key: Seq<char>|
                    #[trigger] lookup(self.cache.entries(), key) == if list_clears(objects@.take(k as int), Seq::<String>::empty(), key) {
                        None
                    } else {
                        lookup(c0, key)
                    },
                self.tuple_store == old(self).tuple_store,
                self.hierarchy == old(self).hierarchy,
                self.zookie_manager == old(self).zookie_manager,
            decreases objects@.len() - k,
        {
            let pattern = CacheKeyBuilder::object_permission_pattern(
                objects[k].0.as_str(),
                objects[k].1.as_str(),
            );
            let ghost cur = self.cache.entries();
            let deleted = self.cache.delete_pattern(pattern.as_str());
            proof {
                if failures == 0 && deleted is Ok {
                    let objs = objects@.take(k + 1);
                    assert forall|key: Seq<char>|
                        #[trigger] lookup(self.cache.entries(), key) == if list_clears(objs, Seq::<String>::empty(), key) {
                            None
                        } else {
                            lookup(c0, key)
                        } by {
                        assert(objs[k as int] == objects@[k as int]);
                        let p = object_pattern(objects@[k as int].0@, objects@[k as int].1@);
                        assert(self.cache.entries() == without_matches(cur, p));
                        assert(lookup(cur, key) == if list_clears(objects@.take(k as int), Seq::<String>::empty(), key) {
                            None
                        } else {
                            lookup(c0, key)
                        });
                        if glob_matches(p, key) {
                            assert(!self.cache.entries().contains_key(key));
                            assert(glob_matches(object_pattern(objs[k as int].0@, objs[k as int].1@), key));
                        } else {
                            assert(lookup(self.cache.entries(), key) == lookup(cur, key));
                        }
                        if list_clears(objects@.take(k as int), Seq::<String>::empty(), key) {
                            let o = choose|o: int|
                                #![trigger objects@.take(k as int)[o]]
                                0 <= o < k && glob_matches(
                                    object_pattern(objects@.take(k as int)[o].0@, objects@.take(k as int)[o].1@),
                                    key,
                                );
                            assert(objs[o] == objects@.take(k as int)[o]);
                        } else if list_clears(objs, Seq::<String>::empty(), key) {
                            let o = choose|o: int|
                                #![trigger objs[o]]
                                0 <= o < k + 1 && glob_matches(object_pattern(objs[o].0@, objs[o].1@), key);
                            if o < k {
                                assert(objects@.take(k as int)[o] == objs[o]);
                            }
                        }
                    }
                }
            }
            if deleted.is_err() && failures < usize::MAX {
                failures += 1;
            }
            k += 1;
        }
        proof {
            assert(objects@.take(objects@.len() as int) =~= objects@);
            assert(users@.take(0) =~= Seq::<String>::empty());
        }
        let mut k2: usize = 0;
        while k2 < users.len()
            invariant
                k2 <= users@.len(),
                failures == 0 ==> forall|o: int|
                    0 <= o < objects@.len() ==> object_cleared(
                        self.cache.entries(),
                        (#[trigger] objects@[o]).0@,
                        objects@[o].1@,
                    ),
                failures == 0 ==> forall|o: int|
                    0 <= o < k2 ==> user_cleared(self.cache.entries(), (#[trigger] users@[o])@),
                failures == 0 ==> only_removed(c0, self.cache.entries()),
                old(self).cache.reliable() ==> failures == 0 && self.cache.reliable(),
                failures == 0 ==> forall|key: Seq<char>|
                    #[trigger] lookup(self.cache.entries(), key) == if list_clears(objects@, users@.take(k2 as int), key) {
                        None
                    } else {
                        lookup(c0, key)
                    },
                self.tuple_store == old(self).tuple_store,
                self.hierarchy == old(self).hierarchy,
                self.zookie_manager == old(self).zookie_manager,
            decreases users@.len() - k2,
        {
            let pattern = CacheKeyBuilder::user_permission_pattern(users[k2].as_str());
            let ghost cur = self.cache.entries();
            let deleted = self.cache.delete_pattern(pattern.as_str());
            proof {
                if failures == 0 && deleted is Ok {
                    let us = users@.take(k2 + 1);
                    assert forall|key: Seq<char>|
                        #[trigger] lookup(self.cache.entries(), key) == if list_clears(objects@, us, key) {
                            None
                        } else {
                            lookup(c0, key)
                        } by {
                        assert(us[k2 as int] == users@[k2 as int]);
                        let p = user_pattern(users@[k2 as int]@);
                        assert(self.cache.entries() == without_matches(cur, p));
                        assert(lookup(cur, key) == if list_clears(objects@, users@.take(k2 as int), key) {
                            None
                        } else {
                            lookup(c0, key)
                        });
                        if glob_matches(p, key) {
                            assert(!self.cache.entries().contains_key(key));
                            assert(glob_matches(user_pattern(us[k2 as int]@), key));
                        } else {
                            assert(lookup(self.cache.entries(), key) == lookup(cur, key));
                        }
                        if list_clears(objects@, users@.take(k2 as int), key) {
                            if !(exists|o: int|
                                #![trigger objects@[o]]
                                0 <= o < objects@.len() && glob_matches(object_pattern(objects@[o].0@, objects@[o].1@), key)) {
                                let u = choose|u: int|
                                    #![trigger users@.take(k2 as int)[u]]
                                    0 <= u < k2 && glob_matches(user_pattern(users@.take(k2 as int)[u]@), key);
                                assert(us[u] == users@.take(k2 as int)[u]);
                            }
                        } else if list_clears(objects@, us, key) {
                            if !(exists|o: int|
                                #![trigger objects@[o]]
                                0 <= o < objects@.len() && glob_matches(object_pattern(objects@[o].0@, objects@[o].1@), key)) {
                                let u = choose|u: int| #![trigger us[u]] 0 <= u < k2 + 1 && glob_matches(user_pattern(us[u]@), key);
                                if u < k2 {
                                    assert(users@.take(k2 as int)[u] == us[u]);
                                }
                            }
                        }
                    }
                }
            }
            if deleted.is_err() && failures < usize::MAX {
                failures += 1;
            }
            k2 += 1;
        }
        proof {
            assert(users@.take(users@.len() as int) =~= users@);
        }
        failures
    }
}

impl<S: TupleStore, C: Cache> PermissionChecker<S, C> {
    /// Applies each update in order; an update the store refuses is recorded
    /// with its error and the rest go on. Then every object and principal
    /// touched by an acknowledged update has its cached checks invalidated,
    /// and a write zookie is issued unless every update failed.
    pub fn write_permissions(&mut self, request: &WriteRequest) -> (r: SentinelResult<WriteOutcome>)
        requires
            old(self).wf(),
        ensures
            final(self).wf(),
            final(self).hierarchy == old(self).hierarchy,
            r matches Ok(o) ==> o.applied@.len() == request.updates@.len() && o.success_count
                == count_true(o.applied@),
            r matches Ok(o) ==> exists|answers: Seq<SentinelResult<()>>, eff: Seq<bool>|
                #[trigger] store_answered(
                    old(self).tuple_store.tuples(),
                    final(self).tuple_store.tuples(),
                    request.updates@,
                    answers,
                    eff,
                    o.applied@,
                    o.errors@,
                ),
            r matches Ok(o) ==> (o.invalidation_failures == 0 ==> forall|i: int|
                0 <= i < request.updates@.len() && #[trigger] o.applied@[i] ==> object_cleared(
                    final(self).cache.entries(),
                    request.updates@[i].tuple.namespace@,
                    request.updates@[i].tuple.object_id@,
                ) && (request.updates@[i].tuple.user_type@ == "user"@ ==> user_cleared(
                    final(self).cache.entries(),
                    request.updates@[i].tuple.user_id@,
                ))),
            r matches Ok(o) ==> (o.zookie is Some <==> (o.success_count > 0 || o.errors@.len() == 0)),
            r matches Ok(o) ==> (o.zookie matches Some(z) ==> z.timestamp_micros > old(self).zookie_manager.last_issued()),
            r is Err ==> old(self).zookie_manager.last_issued() == i64::MAX,
            old(self).zookie_manager.last_issued() < i64::MAX ==> r is Ok,
            old(self).tuple_store.reliable() ==> final(self).tuple_store.reliable() && (r matches Ok(o)
                ==> forall|i: int| 0 <= i < request.updates@.len() ==> #[trigger] o.applied@[i]),
            old(self).cache.reliable() ==> (r matches Ok(o) ==> o.invalidation_failures == 0),
            r matches Ok(o) ==> (o.invalidation_failures == 0 ==> forall|k: Seq<char>|
                k != latest_zookie_key() ==> #[trigger] lookup(final(self).cache.entries(), k) == if write_clears(
                    request.updates@,
                    o.applied@,
                    k,
                ) {
                    None
                } else {
                    lookup(old(self).cache.entries(), k)
                }),
            r matches Ok(o) && o.invalidation_failures == 0 ==> only_removed(
                old(self).cache.entries(),
                final(self).cache.entries().remove(latest_zookie_key()),
            ),
            r matches Ok(o) && o.success_count == 0 ==> forall|k: Seq<char>|
                k != latest_zookie_key() ==> lookup(
                    #[trigger] final(self).cache.entries().remove(latest_zookie_key()),
                    k,
                ) == lookup(old(self).cache.entries(), k),
    {
        let updates = &request.updates;
        let (results, eff) = self.apply_all(updates);
        let ghost answers = results@;
        let touched = tally_write(updates, results);
        let invalidation_failures = if touched.success_count > 0 {
            self.invalidate_touched(&touched.objects, &touched.users)
        } else {
            0
        };
        proof {
            let c = self.cache.entries();
            if invalidation_failures == 0 && touched.success_count > 0 {
                assert forall|i: int|
                    0 <= i < updates@.len() && #[trigger] touched.applied@[i] implies object_cleared(
                        c,
                        updates@[i].tuple.namespace@,
                        updates@[i].tuple.object_id@,
                    ) && (updates@[i].tuple.user_type@ == "user"@ ==> user_cleared(c, updates@[i].tuple.user_id@)) by {
                    let o = choose|o: int|
                        0 <= o < touched.objects@.len() && (#[trigger] touched.objects@[o]).0@
                            == updates@[i].tuple.namespace@ && touched.objects@[o].1@
                            == updates@[i].tuple.object_id@;
                    assert(object_cleared(c, touched.objects@[o].0@, touched.objects@[o].1@));
                    if updates@[i].tuple.user_type@ == "user"@ {
                        let w = choose|w: int|
                            0 <= w < touched.users@.len() && (#[trigger] touched.users@[w])@ == updates@[i].tuple.user_id@;
                        assert(user_cleared(c, touched.users@[w]@));
                    }
                }
            }
            if touched.success_count == 0 {
                assert forall|i: int| 0 <= i < updates@.len() implies !#[trigger] touched.applied@[i] by {
                    lemma_count_true_zero(touched.applied@, i);
                }
            }
        }
        let ghost before = self.cache.entries();
        proof {
            if touched.success_count == 0 {
                assert(before == old(self).cache.entries());
            }
            if invalidation_failures == 0 {
                assert forall|k: Seq<char>| #[trigger] lookup(before, k) == if write_clears(updates@, touched.applied@, k) {
                    None
                } else {
                    lookup(old(self).cache.entries(), k)
                } by {
                    if touched.success_count == 0 {
                        if write_clears(updates@, touched.applied@, k) {
                            let i = choose|i: int|
                                #![trigger touched.applied@[i], updates@[i]]
                                0 <= i < touched.applied@.len() && touched.applied@[i] && (glob_matches(
                                    object_pattern(updates@[i].tuple.namespace@, updates@[i].tuple.object_id@),
                                    k,
                                ) || (updates@[i].tuple.user_type@ == "user"@ && glob_matches(
                                    user_pattern(updates@[i].tuple.user_id@),
                                    k,
                                )));
                            lemma_count_true_zero(touched.applied@, i);
                        }
                    } else {
                        lemma_clears_agree(updates@, touched.applied@, touched.objects@, touched.users@, k);
                    }
                }
            }
        }
        let zookie = if touched.success_count > 0 || touched.errors.len() == 0 {
            match self.zookie_manager.issue_and_record(&mut self.cache) {
                Ok(z) => Some(z),
                Err(e) => return Err(e),
            }
        } else {
            None
        };
        proof {
            let c = self.cache.entries();
            if c != before {
                let z = zookie.unwrap();
                assert(c == before.insert(latest_zookie_key(), base64_of(zookie_text(z.view()))));
                assert forall|i: int|
                    0 <= i < updates@.len() && invalidation_failures == 0 && #[trigger] touched.applied@[i] implies object_cleared(
                        c,
                        updates@[i].tuple.namespace@,
                        updates@[i].tuple.object_id@,
                    ) && (updates@[i].tuple.user_type@ == "user"@ ==> user_cleared(c, updates@[i].tuple.user_id@)) by {
                    lemma_patterns_start_with_c(updates@[i].tuple.namespace@, updates@[i].tuple.object_id@, updates@[i].tuple.user_id@);
                    lemma_pattern_misses_latest(object_pattern(updates@[i].tuple.namespace@, updates@[i].tuple.object_id@));
                    lemma_pattern_misses_latest(user_pattern(updates@[i].tuple.user_id@));
                    assert(object_cleared(before, updates@[i].tuple.namespace@, updates@[i].tuple.object_id@));
                }
            }
        }
        proof {
            if touched.success_count == 0 {
                assert(self.cache.entries().remove(latest_zookie_key()) =~= before.remove(latest_zookie_key()));
            }
        }
        proof {
            if invalidation_failures == 0 {
                assert forall|k: Seq<char>| k != latest_zookie_key() implies #[trigger] lookup(self.cache.entries(), k)
                    == if write_clears(updates@, touched.applied@, k) {
                    None
                } else {
                    lookup(old(self).cache.entries(), k)
                } by {
                    assert(lookup(self.cache.entries(), k) == lookup(before, k));
                    assert(lookup(before, k) == if write_clears(updates@, touched.applied@, k) {
                        None
                    } else {
                        lookup(old(self).cache.entries(), k)
                    });
                }
            }
        }
        let out = WriteOutcome {
            success_count: touched.success_count,
            applied: touched.applied,
            errors: touched.errors,
            invalidation_failures,
            zookie,
        };
        proof {
            assert(store_answered(
                old(self).tuple_store.tuples(),
                self.tuple_store.tuples(),
                updates@,
                answers,
                eff@,
                out.applied@,
                out.errors@,
            ));
            assert(exists|a: Seq<SentinelResult<()>>, e: Seq<bool>|
                #[trigger] store_answered(
                    old(self).tuple_store.tuples(),
                    self.tuple_store.tuples(),
                    updates@,
                    a,
                    e,
                    out.applied@,
                    out.errors@,
                ));
        }
        Ok(out)
    }
}

/// The patterns a tally lists clear exactly the keys the acknowledged updates clear.
proof fn lemma_clears_agree(
    updates: Seq<TupleUpdate>,
    applied: Seq<bool>,
    objects: Seq<(String, String)>,
    users: Seq<String>,
    k: Seq<char>,
)
    requires
        applied.len() == updates.len(),
        forall|o: int|
            0 <= o < objects.len() ==> touched_object(updates, applied, (#[trigger] objects[o]).0@, objects[o].1@),
        forall|j: int|
            0 <= j < updates.len() && #[trigger] applied[j] ==> exists|o: int|
                0 <= o < objects.len() && (#[trigger] objects[o]).0@ == updates[j].tuple.namespace@
                    && objects[o].1@ == updates[j].tuple.object_id@,
        forall|o: int| 0 <= o < users.len() ==> touched_user(updates, applied, (#[trigger] users[o])@),
        forall|j: int|
            0 <= j < updates.len() && #[trigger] applied[j] && updates[j].tuple.user_type@ == "user"@
                ==> exists|o: int| 0 <= o < users.len() && (#[trigger] users[o])@ == updates[j].tuple.user_id@,
    ensures
        list_clears(objects, users, k) == write_clears(updates, applied, k),
{
    if list_clears(objects, users, k) {
        if exists|o: int|
            #![trigger objects[o]]
            0 <= o < objects.len() && glob_matches(object_pattern(objects[o].0@, objects[o].1@), k) {
            let o = choose|o: int|
                #![trigger objects[o]]
                0 <= o < objects.len() && glob_matches(object_pattern(objects[o].0@, objects[o].1@), k);
            assert(touched_object(updates, applied, objects[o].0@, objects[o].1@));
            let i = choose|i: int|
                #![trigger applied[i], updates[i]]
                0 <= i < applied.len() && applied[i] && updates[i].tuple.namespace@ == objects[o].0@
                    && updates[i].tuple.object_id@ == objects[o].1@;
            assert(applied[i] && updates[i] == updates[i]);
        } else {
            let u = choose|u: int| #![trigger users[u]] 0 <= u < users.len() && glob_matches(user_pattern(users[u]@), k);
            assert(touched_user(updates, applied, users[u]@));
            let i = choose|i: int|
                #![trigger applied[i], updates[i]]
                0 <= i < applied.len() && applied[i] && updates[i].tuple.user_type@ == "user"@
                    && updates[i].tuple.user_id@ == users[u]@;
            assert(applied[i] && updates[i] == updates[i]);
        }
    }
    if write_clears(updates, applied, k) {
        let i = choose|i: int|
            #![trigger applied[i], updates[i]]
            0 <= i < applied.len() && applied[i] && (glob_matches(
                object_pattern(updates[i].tuple.namespace@, updates[i].tuple.object_id@),
                k,
            ) || (updates[i].tuple.user_type@ == "user"@ && glob_matches(
                user_pattern(updates[i].tuple.user_id@),
                k,
            )));
        if glob_matches(object_pattern(updates[i].tuple.namespace@, updates[i].tuple.object_id@), k) {
            let o = choose|o: int|
                0 <= o < objects.len() && (#[trigger] objects[o]).0@ == updates[i].tuple.namespace@
                    && objects[o].1@ == updates[i].tuple.object_id@;
            assert(glob_matches(object_pattern(objects[o].0@, objects[o].1@), k));
        } else {
            let o = choose|o: int| 0 <= o < users.len() && (#[trigger] users[o])@ == updates[i].tuple.user_id@;
            assert(glob_matches(user_pattern(users[o]@), k));
        }
    }
}

proof fn lemma_count_true_zero(s: Seq<bool>, i: int)
    requires
        count_true(s) == 0,
        0 <= i < s.len(),
    ensures
        !s[i],
    decreases s.len(),
{
    if i < s.len() - 1 {
        lemma_count_true_zero(s.drop_last(), i);
        assert(s.drop_last()[i] == s[i]);
    }
}

/// Which lookup a read filter asks for.
pub enum ReadIndex {
    ByObjectRelation,
    ByObject,
    ByUser,
}

/// The lookup for a filter: an object (and relation) when both namespace and
/// object are given, else a principal when the user id is given, else none.
pub open spec fn read_index_of(f: RelationTupleFilter) -> Option<ReadIndex> {
    if f.namespace is Some && f.object_id is Some {
        if f.relation is Some {
            Some(ReadIndex::ByObjectRelation)
        } else {
            Some(ReadIndex::ByObject)
        }
    } else if f.user_id is Some {
        Some(ReadIndex::ByUser)
    } else {
        None
    }
}

/// The identities a filter selects from `tuples`.
pub open spec fn read_selection(tuples: Set<TupleKey>, f: RelationTupleFilter) -> Set<TupleKey> {
    match read_index_of(f) {
        Some(ReadIndex::ByObjectRelation) => tuples.filter(
            |k: TupleKey|
                k.0 == f.namespace->0@ && k.1 == f.object_id->0@ && k.2 == f.relation->0@,
        ),
        Some(ReadIndex::ByObject) => tuples.filter(
            |k: TupleKey| k.0 == f.namespace->0@ && k.1 == f.object_id->0@,
        ),
        Some(ReadIndex::ByUser) => tuples.filter(
            |k: TupleKey| k.3 == "user"@ && k.4 == f.user_id->0@,
        ),
        None => Set::empty(),
    }
}

impl<S: TupleStore, C: Cache> PermissionChecker<S, C> {
    /// The tuples a read filter selects; a filter with neither an object nor a
    /// user is a validation error.
    pub fn read_tuples(&self, filter: &RelationTupleFilter) -> (r: SentinelResult<Vec<RelationTuple>>)
        ensures
            read_index_of(*filter) is None ==> (r matches Err(e) && e is ValidationError),
            read_index_of(*filter) is Some && self.tuple_store.reliable() ==> r is Ok,
            r matches Ok(v) ==> read_index_of(*filter) is Some && key_set(v@) == read_selection(
                self.tuple_store.tuples(),
                *filter,
            ),
    {
        match (&filter.namespace, &filter.object_id) {
            (Some(ns), Some(oid)) => match &filter.relation {
                Some(rel) => self.tuple_store.find_tuples_by_object_relation(
                    ns.as_str(),
                    oid.as_str(),
                    rel.as_str(),
                ),
                None => self.tuple_store.find_tuples_by_object(ns.as_str(), oid.as_str()),
            },
            _ => match &filter.user_id {
                Some(uid) => self.tuple_store.find_user_memberships(uid.as_str()),
                None => Err(
                    SentinelError::validation_error(
                        "Must specify either (namespace, object_id) or user_id",
                    ),
                ),
            },
        }
    }

    /// The read answer for `tuples`: their client form, one for one, under a
    /// freshly issued read zookie (a clock zookie when the counter is spent).
    pub fn read_response(&mut self, tuples: Vec<RelationTuple>) -> (r: ReadResponse)
        ensures
            final(self).tuple_store == old(self).tuple_store,
            final(self).hierarchy == old(self).hierarchy,
            r.tuples@.len() == tuples@.len(),
            forall|j: int|
                0 <= j < tuples@.len() ==> (#[trigger] r.tuples@[j]).key() == tuples@[j].key()
                    && r.tuples@[j].created_at == tuples@[j].created_at,
            r.next_page_token is None,
            decode_token(r.zookie@) is Some,
            old(self).zookie_manager.last_issued() < i64::MAX ==> (decode_token(r.zookie@) matches Some(z)
                && z.0 > old(self).zookie_manager.last_issued() && final(self).zookie_manager.last_issued()
                == z.0),
            final(self).cache.entries() == old(self).cache.entries() || final(self).cache.entries() == old(self).cache.entries().insert(latest_zookie_key(), r.zookie@),
    {
        let mut api: Vec<ApiRelationTuple> = Vec::new();
        let mut i: usize = 0;
        while i < tuples.len()
            invariant
                i <= tuples@.len(),
                api@.len() == i,
                forall|j: int|
                    0 <= j < i ==> (#[trigger] api@[j]).key() == tuples@[j].key() && api@[j].created_at
                        == tuples@[j].created_at,
            decreases tuples@.len() - i,
        {
            api.push(tuples[i].to_api_tuple());
            i += 1;
        }
        let read_zookie = match self.zookie_manager.issue_and_record(&mut self.cache) {
            Ok(z) => z,
            Err(_) => Zookie::new(),
        };
        let zookie = match read_zookie.to_string() {
            Ok(t) => t,
            Err(_) => String::new(),
        };
        proof {
            lemma_zookie_text_round_trip(read_zookie.view());
        }
        ReadResponse { tuples: api, next_page_token: None, zookie }
    }

    /// The tuples a read request selects, in their client form, under a fresh
    /// read zookie; the read fails only when the lookup does.
    pub fn read_permissions(&mut self, request: &ReadRequest) -> (r: SentinelResult<ReadResponse>)
        requires
            old(self).wf(),
        ensures
            final(self).wf(),
            final(self).tuple_store == old(self).tuple_store,
            final(self).hierarchy == old(self).hierarchy,
            read_index_of(request.tuple_filter) is None ==> (r matches Err(e) && e is ValidationError),
            r is Err ==> final(self).cache == old(self).cache && final(self).zookie_manager == old(self).zookie_manager,
            read_index_of(request.tuple_filter) is Some && old(self).tuple_store.reliable() ==> r is Ok,
            r matches Ok(resp) ==> resp.next_page_token is None && read_index_of(request.tuple_filter) is Some
                && resp.tuples@.map_values(|t: ApiRelationTuple| t.key()).to_set() == read_selection(
                old(self).tuple_store.tuples(),
                request.tuple_filter,
            ) && decode_token(resp.zookie@) is Some,
            r matches Ok(resp) ==> (old(self).zookie_manager.last_issued() < i64::MAX ==> (decode_token(resp.zookie@) matches Some(z)
                && z.0 > old(self).zookie_manager.last_issued())),
    {
        let tuples = match self.read_tuples(&request.tuple_filter) {
            Ok(v) => v,
            Err(e) => return Err(e),
        };
        let ghost rows = tuples@;
        let resp = self.read_response(tuples);
        proof {
            assert(resp.tuples@.map_values(|t: ApiRelationTuple| t.key()) =~= rows.map_values(
                |t: RelationTuple| t.key(),
            ));
        }
        Ok(resp)
    }

    /// All tuples whose subject is the principal `user_id`.
    pub fn get_user_permissions(&self, user_id: &str) -> (r: SentinelResult<Vec<RelationTuple>>)
        ensures
            self.tuple_store.reliable() ==> r is Ok,
            r matches Ok(v) ==> key_set(v@) == self.tuple_store.tuples().filter(
                |k: TupleKey| k.3 == "user"@ && k.4 == user_id@,
            ),
    {
        self.tuple_store.find_user_memberships(user_id)
    }

    /// All tuples on an object.
    pub fn get_object_permissions(&self, namespace: &str, object_id: &str) -> (r: SentinelResult<
        Vec<RelationTuple>,
    >)
        ensures
            self.tuple_store.reliable() ==> r is Ok,
            r matches Ok(v) ==> key_set(v@) == self.tuple_store.tuples().filter(
                |k: TupleKey| k.0 == namespace@ && k.1 == object_id@,
            ),
    {
        self.tuple_store.find_tuples_by_object(namespace, object_id)
    }

    /// Drops the cached checks of the principal `user_id`.
    pub fn invalidate_user_cache(&mut self, user_id: &str) -> (r: SentinelResult<()>)
        ensures
            old(self).cache.reliable() ==> r is Ok,
            final(self).tuple_store == old(self).tuple_store,
            final(self).hierarchy == old(self).hierarchy,
            final(self).zookie_manager == old(self).zookie_manager,
            r is Ok ==> final(self).cache.entries() == without_matches(
                old(self).cache.entries(),
                user_pattern(user_id@),
            ),
    {
        let pattern = CacheKeyBuilder::user_permission_pattern(user_id);
        self.cache.delete_pattern(pattern.as_str())
    }

    /// Drops the cached checks on the object `namespace:object_id`.
    pub fn invalidate_object_cache(&mut self, namespace: &str, object_id: &str) -> (r: SentinelResult<()>)
        ensures
            old(self).cache.reliable() ==> r is Ok,
            final(self).tuple_store == old(self).tuple_store,
            final(self).hierarchy == old(self).hierarchy,
            final(self).zookie_manager == old(self).zookie_manager,
            r is Ok ==> final(self).cache.entries() == without_matches(
                old(self).cache.entries(),
                object_pattern(namespace@, object_id@),
            ),
    {
        let pattern = CacheKeyBuilder::object_permission_pattern(namespace, object_id);
        self.cache.delete_pattern(pattern.as_str())
    }

    /// Drops the cached checks in `namespace`.
    pub fn invalidate_namespace_cache(&mut self, namespace: &str) -> (r: SentinelResult<()>)
        ensures
            old(self).cache.reliable() ==> r is Ok,
            final(self).tuple_store == old(self).tuple_store,
            final(self).hierarchy == old(self).hierarchy,
            final(self).zookie_manager == old(self).zookie_manager,
            r is Ok ==> final(self).cache.entries() == without_matches(
                old(self).cache.entries(),
                namespace_pattern(namespace@),
            ),
    {
        let pattern = CacheKeyBuilder::namespace_permission_pattern(namespace);
        self.cache.delete_pattern(pattern.as_str())
    }

    /// Drops the cached outcome of one check.
    pub fn invalidate_specific_cache(&mut self, request: &CheckRequest) -> (r: SentinelResult<()>)
        ensures
            old(self).cache.reliable() ==> r is Ok,
            final(self).tuple_store == old(self).tuple_store,
            final(self).hierarchy == old(self).hierarchy,
            final(self).zookie_manager == old(self).zookie_manager,
            r is Ok ==> final(self).cache.entries() == old(self).cache.entries().remove(
                check_key(request.key()),
            ),
    {
        let key = CacheKeyBuilder::check_permission_key(request);
        self.cache.delete(key.as_str())
    }
}

} // verus!
