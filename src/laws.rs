//! Properties that relate several operations of the library.
use vstd::prelude::*;

use crate::cache::{check_key, lookup, object_pattern, user_pattern};
use crate::glob::{glob_matches, lemma_glob_prefix, lemma_glob_star, lemma_glob_star_suffix};
use crate::graph::{
    edge, grants, inherits_edge, lemma_grant_direct, lemma_grant_step, lemma_universe_closed,
    lemma_universe_finite, universe, Node,
};
use crate::hierarchy::{implied_by, includes_spec, lemma_implied_facts, level_of};
use crate::json::{
    cached_text, lemma_cached_text_round_trip, lemma_zookie_text_round_trip, parse_cached_text,
    zookie_text,
};
use crate::models::TupleKey;
use crate::models::{count_allowed, BatchCheckItem, CheckRequest};
use crate::service::{
    batch_answers, cache_decision, cached_outcome, count_true, object_cleared, request_granted, request_text,
    user_cleared,
};
use crate::zookie::{base64_decoded, decode_token, snapshot_acceptable, ZookieManager, ZookieModel, MAX_ZOOKIE_AGE_MICROS};

verus! {

/// After a successful insert of a tuple, an exact lookup of its identity finds
/// a tuple with that identity.
pub proof fn law_insert_then_find(before: Set<TupleKey>, after: Set<TupleKey>, t: TupleKey)
    requires
        after == before.insert(t),
    ensures
        after.contains(t),
{
}

/// After a successful insert and then a successful delete of a tuple, an exact
/// lookup of its identity finds nothing.
pub proof fn law_insert_delete_then_miss(
    before: Set<TupleKey>,
    inserted: Set<TupleKey>,
    deleted: Set<TupleKey>,
    t: TupleKey,
)
    requires
        inserted == before.insert(t),
        deleted == inserted.remove(t),
    ensures
        !deleted.contains(t),
{
}

/// Inclusion in the hierarchy never goes from a weaker relation to a stronger one.
pub proof fn law_includes_respects_levels(higher: Seq<char>, lower: Seq<char>)
    requires
        includes_spec(higher, lower),
    ensures
        level_of(higher) >= level_of(lower),
{
    if higher != lower {
        lemma_implied_facts(higher, lower);
    }
}

/// A stored tuple grants its own relation to its own subject.
pub proof fn law_direct_tuple_grants(tuples: Set<TupleKey>, t: TupleKey)
    requires
        tuples.contains(t),
    ensures
        grants(tuples, (t.0, t.1, t.2), t.3, t.4),
{
    lemma_grant_direct(tuples, (t.0, t.1, t.2), t.3, t.4);
}

/// Holding a relation grants every relation it strictly dominates, on the same object.
pub proof fn law_stronger_grants_weaker(
    tuples: Set<TupleKey>,
    namespace: Seq<char>,
    object_id: Seq<char>,
    stronger: Seq<char>,
    weaker: Seq<char>,
    subject_type: Seq<char>,
    subject_id: Seq<char>,
)
    requires
        implied_by(stronger).contains(weaker),
        grants(tuples, (namespace, object_id, stronger), subject_type, subject_id),
    ensures
        grants(tuples, (namespace, object_id, weaker), subject_type, subject_id),
{
    let a: Node = (namespace, object_id, weaker);
    let b: Node = (namespace, object_id, stronger);
    assert(inherits_edge(a, b));
    assert(edge(tuples, a, b));
    lemma_grant_step(tuples, a, b, subject_type, subject_id);
}

/// Over a finite store, the points a check can enter form a finite set that
/// holds the start and that no edge leaves, whatever cycles the tuples form.
pub proof fn law_search_space_finite(tuples: Set<TupleKey>, start: Node)
    requires
        tuples.finite(),
    ensures
        universe(tuples, start).finite(),
        universe(tuples, start).contains(start),
        forall|a: Node, b: Node|
            universe(tuples, start).contains(a) && #[trigger] edge(tuples, a, b) ==> universe(
                tuples,
                start,
            ).contains(b),
{
    lemma_universe_finite(tuples, start);
    assert forall|a: Node, b: Node|
        universe(tuples, start).contains(a) && #[trigger] edge(tuples, a, b) implies universe(
            tuples,
            start,
        ).contains(b) by {
        lemma_universe_closed(tuples, start, a, b);
    }
}

/// Two zookies issued one after the other carry strictly increasing timestamps.
pub proof fn law_issued_timestamps_increase(
    first_before: ZookieManager,
    first_after: ZookieManager,
    second_after: ZookieManager,
    t1: i64,
    t2: i64,
)
    requires
        t1 > first_before.last_issued(),
        first_after.last_issued() == t1,
        t2 > first_after.last_issued(),
        second_after.last_issued() == t2,
    ensures
        t2 > t1,
{
}

/// A zookie's token reads back as that zookie.
pub proof fn law_zookie_round_trip(z: ZookieModel, token: Seq<char>)
    requires
        base64_decoded(token) == Some(zookie_text(z)),
    ensures
        decode_token(token) == Some(z),
{
    lemma_zookie_text_round_trip(z);
}

/// A cached check outcome reads back from its JSON text unchanged.
pub proof fn law_cached_entry_round_trip(allowed: bool, cached_at: i64, original_zookie: Seq<char>)
    ensures
        parse_cached_text(cached_text(allowed, cached_at, original_zookie)) == Some(
            (allowed, cached_at, original_zookie),
        ),
{
    lemma_cached_text_round_trip(allowed, cached_at, original_zookie);
}

/// A token from the future, or older than an hour, is not acceptable.
pub proof fn law_future_and_stale_rejected(timestamp_micros: i64, now: i64)
    ensures
        timestamp_micros > now ==> !snapshot_acceptable(timestamp_micros, now),
        now - timestamp_micros > MAX_ZOOKIE_AGE_MICROS ==> !snapshot_acceptable(timestamp_micros, now),
{
}

proof fn lemma_object_pattern_matches(k: TupleKey)
    ensures
        glob_matches(object_pattern(k.0, k.1), check_key(k)),
{
    reveal_strlit("*");
    let q = "check:"@ + k.0 + ":"@ + k.1;
    let rest = "#"@ + k.2 + "@"@ + k.3 + ":"@ + k.4;
    assert(object_pattern(k.0, k.1) =~= q + seq!['*']);
    assert(check_key(k) =~= q + rest);
    lemma_glob_star(rest);
    lemma_glob_prefix(q, seq!['*'], rest);
}

proof fn lemma_user_pattern_matches(k: TupleKey)
    requires
        k.3 == "user"@,
    ensures
        glob_matches(user_pattern(k.4), check_key(k)),
{
    reveal_strlit("check:*@user:");
    reveal_strlit("check:");
    reveal_strlit("@");
    reveal_strlit(":");
    reveal_strlit("user");
    let t = "@user:"@ + k.4;
    assert("check:*@user:"@ =~= "check:"@ + seq!['*'] + "@user:"@) by {
        reveal_strlit("@user:");
    }
    assert(user_pattern(k.4) =~= "check:"@ + (seq!['*'] + t));
    let x = k.0 + ":"@ + k.1 + "#"@ + k.2;
    assert(check_key(k) =~= "check:"@ + (x + t)) by {
        reveal_strlit("@user:");
    }
    lemma_glob_star_suffix(x, t);
    lemma_glob_prefix("check:"@, seq!['*'] + t, x + t);
}

/// Once the checks on an object are invalidated, no check on that object is
/// answered from the cache; once a principal's are, none of that principal's.
pub proof fn law_invalidated_checks_miss(cache: Map<Seq<char>, Seq<char>>, k: TupleKey)
    ensures
        object_cleared(cache, k.0, k.1) ==> lookup(cache, check_key(k)) is None && cached_outcome(
            cache,
            check_key(k),
        ) is None,
        k.3 == "user"@ && user_cleared(cache, k.4) ==> lookup(cache, check_key(k)) is None,
{
    lemma_object_pattern_matches(k);
    if k.3 == "user"@ {
        lemma_user_pattern_matches(k);
    }
}

/// After a write stores a tuple and clears its object's cached checks, a check
/// of that tuple meets no cached outcome, at any snapshot, and is granted by
/// the store.
pub proof fn law_read_after_write(
    tuples: Set<TupleKey>,
    cache: Map<Seq<char>, Seq<char>>,
    t: TupleKey,
    at: i64,
    client_supplied: bool,
)
    requires
        tuples.contains(t),
        object_cleared(cache, t.0, t.1),
    ensures
        cached_outcome(cache, check_key(t)) is None,
        cache_decision(lookup(cache, check_key(t)), at, client_supplied) is None,
        grants(tuples, (t.0, t.1, t.2), t.3, t.4),
{
    law_invalidated_checks_miss(cache, t);
    law_direct_tuple_grants(tuples, t);
}

/// A batch in which every check ran, over a cache holding none of their
/// outcomes, answers each request as the store grants it, so its allowed and
/// denied counts are those of running each request on its own. Duplicates are
/// recognised by their cache key; the law asks that no two different requests
/// share one.
pub proof fn law_batch_matches_individual(
    tuples: Set<TupleKey>,
    cache: Map<Seq<char>, Seq<char>>,
    checks: Seq<CheckRequest>,
    results: Seq<BatchCheckItem>,
    at: i64,
    client_supplied: bool,
)
    requires
        batch_answers(tuples, cache, checks, results, at, client_supplied),
        forall|i: int| 0 <= i < results.len() ==> (#[trigger] results[i]).request_info@ == request_text(checks[i]),
        forall|i: int| 0 <= i < checks.len() ==> cached_outcome(cache, check_key(#[trigger] checks[i].key())) is None,
        forall|i: int, j: int|
            0 <= i < checks.len() && 0 <= j < checks.len() && check_key(#[trigger] checks[i].key())
                == check_key(#[trigger] checks[j].key()) ==> checks[i].key() == checks[j].key(),
    ensures
        forall|i: int| 0 <= i < results.len() ==> (#[trigger] results[i]).allowed == request_granted(tuples, checks[i]),
        count_allowed(results) == count_true(checks.map_values(|c: CheckRequest| request_granted(tuples, c))),
        results.len() - count_allowed(results) == checks.len() - count_true(
            checks.map_values(|c: CheckRequest| request_granted(tuples, c)),
        ),
{
    let individual = checks.map_values(|c: CheckRequest| request_granted(tuples, c));
    assert forall|i: int| 0 <= i < results.len() implies (#[trigger] results[i]).allowed == individual[i] by {
        assert(results[i].request_info@ == request_text(checks[i]));
        let j = choose|j: int|
            0 <= j < checks.len() && check_key(checks[j].key()) == check_key(checks[i].key()) && (
            results[i].allowed == request_granted(tuples, #[trigger] checks[j]) || cache_decision(
                lookup(cache, check_key(checks[i].key())),
                at,
                client_supplied,
            ) == Some(results[i].allowed));
        assert(cached_outcome(cache, check_key(checks[i].key())) is None);
        assert(checks[i].key() == checks[j].key());
        assert(request_granted(tuples, checks[j]) == request_granted(tuples, checks[i]));
    }
    lemma_counts_agree(results, individual);
}

proof fn lemma_counts_agree(results: Seq<BatchCheckItem>, individual: Seq<bool>)
    requires
        results.len() == individual.len(),
        forall|i: int| 0 <= i < results.len() ==> (#[trigger] results[i]).allowed == individual[i],
    ensures
        count_allowed(results) == count_true(individual),
    decreases results.len(),
{
    if results.len() > 0 {
        let r2 = results.drop_last();
        let i2 = individual.drop_last();
        assert forall|i: int| 0 <= i < r2.len() implies (#[trigger] r2[i]).allowed == i2[i] by {
            assert(results[i].allowed == individual[i]);
        }
        lemma_counts_agree(r2, i2);
        assert(results.last().allowed == individual.last());
    }
}

} // verus!
