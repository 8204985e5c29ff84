use vstd::prelude::*;

use crate::errors::SentinelResult;
use crate::graph::{
    direct_hit, edge, explored, grants, inherits_edge, lemma_explored_denies, lemma_grant_direct,
    lemma_grant_step, lemma_universe_closed, lemma_universe_finite, settled, universe,
    userset_edge, Node,
};
use crate::hierarchy::{
    implied_by, lemma_implied_facts, names_of, relation_names, relations_strongest_first,
    PermissionHierarchy,
};
use crate::models::{RelationTuple, TupleKey};
use crate::store::{key_set, TupleStore};
use crate::text::str_eq;
use crate::userset::{parse_userset, parse_userset_id};

verus! {

/// The points recorded in a visited list.
pub open spec fn visited_set(v: Seq<(String, String, String)>) -> Set<Node> {
    v.map_values(|x: (String, String, String)| (x.0@, x.1@, x.2@)).to_set()
}

proof fn lemma_visited_push(v: Seq<(String, String, String)>, x: (String, String, String))
    ensures
        visited_set(v.push(x)) == visited_set(v).insert((x.0@, x.1@, x.2@)),
{
    let f = |x: (String, String, String)| (x.0@, x.1@, x.2@);
    assert(v.push(x).map_values(f) =~= v.map_values(f).push(f(x)));
    v.map_values(f).lemma_push_to_set_commute(f(x));
}

fn is_visited(visited: &Vec<(String, String, String)>, ns: &str, oid: &str, rel: &str) -> (r: bool)
    ensures
        r == visited_set(visited@).contains((ns@, oid@, rel@)),
{
    let mut i: usize = 0;
    while i < visited.len()
        invariant
            i <= visited@.len(),
            forall|j: int|
                0 <= j < i ==> ((#[trigger] visited@[j]).0@, visited@[j].1@, visited@[j].2@) != (
                    ns@,
                    oid@,
                    rel@,
                ),
        decreases visited@.len() - i,
    {
        let e = &visited[i];
        if str_eq(e.0.as_str(), ns) && str_eq(e.1.as_str(), oid) && str_eq(e.2.as_str(), rel) {
            proof {
                assert(visited@.map_values(|x: (String, String, String)| (x.0@, x.1@, x.2@))[i as int]
                    == (ns@, oid@, rel@));
            }
            return true;
        }
        i += 1;
    }
    proof {
        if visited_set(visited@).contains((ns@, oid@, rel@)) {
            let vs = visited@.map_values(|x: (String, String, String)| (x.0@, x.1@, x.2@));
            let j = choose|j: int| 0 <= j < vs.len() && vs[j] == (ns@, oid@, rel@);
            assert((visited@[j].0@, visited@[j].1@, visited@[j].2@) == (ns@, oid@, rel@));
        }
    }
    false
}

proof fn lemma_subset_chain(a: Set<Node>, b: Set<Node>, c: Set<Node>, d: Set<Node>)
    requires
        a.subset_of(b),
        b.subset_of(c),
        c.subset_of(d),
    ensures
        a.subset_of(d),
{
}

/// Everything recorded in `v` but not in `v0`, save `n`, is explored within `v`.
pub open spec fn settled_but(
    tuples: Set<TupleKey>,
    v0: Set<Node>,
    v: Set<Node>,
    n: Node,
    stype: Seq<char>,
    sid: Seq<char>,
) -> bool {
    forall|m: Node| v.contains(m) && !v0.contains(m) && m != n ==> #[trigger] explored(tuples, v, m, stype, sid)
}

proof fn lemma_settled_after_child(
    tuples: Set<TupleKey>,
    v0: Set<Node>,
    vc: Set<Node>,
    v1: Set<Node>,
    n: Node,
    stype: Seq<char>,
    sid: Seq<char>,
)
    requires
        settled_but(tuples, v0, vc, n, stype, sid),
        vc.subset_of(v1),
        settled(tuples, vc, v1, stype, sid),
    ensures
        settled_but(tuples, v0, v1, n, stype, sid),
{
    assert forall|m: Node| v1.contains(m) && !v0.contains(m) && m != n implies #[trigger] explored(
        tuples,
        v1,
        m,
        stype,
        sid,
    ) by {
        if vc.contains(m) {
            assert(explored(tuples, vc, m, stype, sid));
        } else {
            assert(explored(tuples, v1, m, stype, sid));
        }
    }
}

/// Depth-first search from `(ns, oid, rel)` for a stored tuple of the subject,
/// entering each point at most once.
fn visit<S: TupleStore>(
    store: &S,
    hierarchy: &PermissionHierarchy,
    ns: &str,
    oid: &str,
    rel: &str,
    stype: &str,
    sid: &str,
    visited: &mut Vec<(String, String, String)>,
    Ghost(start): Ghost<Node>,
) -> (r: SentinelResult<bool>)
    requires
        hierarchy.wf(),
        store.tuples().finite(),
        universe(store.tuples(), start).contains((ns@, oid@, rel@)),
        visited_set(old(visited)@).subset_of(universe(store.tuples(), start)),
    ensures
        visited_set(old(visited)@).subset_of(visited_set(final(visited)@)),
        visited_set(final(visited)@).subset_of(universe(store.tuples(), start)),
        store.reliable() ==> r is Ok,
        visited_set(old(visited)@).contains((ns@, oid@, rel@)) ==> (r matches Ok(b) && !b)
            && final(visited)@ == old(visited)@,
        r matches Ok(true) ==> grants(store.tuples(), (ns@, oid@, rel@), stype@, sid@),
        r matches Ok(false) ==> visited_set(final(visited)@).contains((ns@, oid@, rel@)),
        r matches Ok(false) ==> settled(
            store.tuples(),
            visited_set(old(visited)@),
            visited_set(final(visited)@),
            stype@,
            sid@,
        ),
    decreases universe(store.tuples(), start).len() - visited_set(old(visited)@).len(),
{
    let ghost tuples = store.tuples();
    let ghost u = universe(tuples, start);
    let ghost v0 = visited_set(visited@);
    let ghost n: Node = (ns@, oid@, rel@);
    proof {
        lemma_universe_finite(tuples, start);
        vstd::set_lib::lemma_len_subset(v0, u);
    }
    if is_visited(visited, ns, oid, rel) {
        return Ok(false);
    }
    let ghost before_push = visited@;
    visited.push((ns.to_string(), oid.to_string(), rel.to_string()));
    proof {
        lemma_visited_push(before_push, visited@.last());
        assert(visited_set(visited@) == v0.insert(n));
        vstd::set_lib::lemma_len_subset(v0.insert(n), u);
    }

    // A stored tuple of the subject on this very point.
    let probe = RelationTuple::with_timestamp(ns, oid, rel, stype, sid, 0);
    let found = match store.find_direct_tuple(&probe) {
        Ok(f) => f,
        Err(e) => return Err(e),
    };
    if found.is_some() {
        proof {
            lemma_grant_direct(tuples, n, stype@, sid@);
        }
        return Ok(true);
    }

    // Stronger relations on the same object.
    let all = hierarchy.get_all_permissions();
    proof {
        assert(names_of(all@).len() == all@.len());
    }
    let mut i: usize = 0;
    while i < all.len()
        invariant
            hierarchy.wf(),
            tuples == store.tuples(),
            tuples.finite(),
            u == universe(tuples, start),
            u.finite(),
            u.contains(n),
            n == (ns@, oid@, rel@),
            !v0.contains(n),
            v0.finite(),
            v0 == visited_set(old(visited)@),
            names_of(all@) == relations_strongest_first(),
            all@.len() == 5,
            i <= all@.len(),
            v0.insert(n).subset_of(visited_set(visited@)),
            visited_set(visited@).subset_of(u),
            settled_but(tuples, v0, visited_set(visited@), n, stype@, sid@),
            !direct_hit(tuples, n, stype@, sid@),
            forall|j: int|
                0 <= j < i && implied_by(#[trigger] all@[j]@).contains(rel@) ==> visited_set(
                    visited@,
                ).contains((ns@, oid@, all@[j]@)),
        decreases all@.len() - i,
    {
        let higher = all[i].as_str();
        let ghost vc = visited_set(visited@);
        if hierarchy.includes(higher, rel) && !str_eq(higher, rel) {
            let ghost c: Node = (ns@, oid@, higher@);
            proof {
                assert(inherits_edge(n, c));
                lemma_universe_closed(tuples, start, n, c);
                vstd::set_lib::lemma_len_subset(vc, u);
                vstd::set_lib::lemma_len_subset(v0.insert(n), vc);
                assert(v0.insert(n).len() == v0.len() + 1);
            }
            match visit(store, hierarchy, ns, oid, higher, stype, sid, visited, Ghost(start)) {
                Err(e) => {
                    proof {
                        lemma_subset_chain(v0, v0.insert(n), vc, visited_set(visited@));
                    }
                    return Err(e);
                },
                Ok(true) => {
                    proof {
                        lemma_grant_step(tuples, n, c, stype@, sid@);
                    }
                    return Ok(true);
                },
                Ok(false) => {
                    proof {
                        lemma_settled_after_child(
                            tuples,
                            v0,
                            vc,
                            visited_set(visited@),
                            n,
                            stype@,
                            sid@,
                        );
                    }
                },
            }
        } else {
            proof {
                if implied_by(higher@).contains(rel@) {
                    lemma_implied_facts(higher@, rel@);
                }
            }
        }
        i += 1;
    }

    // Usersets that hold this relation on the object.
    let rows = match store.find_tuples_by_object_relation(ns, oid, rel) {
        Ok(v) => v,
        Err(e) => return Err(e),
    };
    proof {
        assert forall|b: Node| inherits_edge(n, b) implies visited_set(visited@).contains(b) by {
            lemma_implied_facts(b.2, rel@);
            let k = choose|k: int| 0 <= k < 5 && relation_names()[k] == b.2;
            assert(relations_strongest_first()[4 - k] == relation_names()[k]);
            assert(names_of(all@)[4 - k] == all@[4 - k]@);
            assert(all@[4 - k]@ == b.2);
        }
    }
    let mut j: usize = 0;
    while j < rows.len()
        invariant
            hierarchy.wf(),
            tuples == store.tuples(),
            tuples.finite(),
            u == universe(tuples, start),
            u.finite(),
            u.contains(n),
            n == (ns@, oid@, rel@),
            !v0.contains(n),
            v0.finite(),
            v0 == visited_set(old(visited)@),
            key_set(rows@) == tuples.filter(
                |k: TupleKey| k.0 == ns@ && k.1 == oid@ && k.2 == rel@,
            ),
            j <= rows@.len(),
            v0.insert(n).subset_of(visited_set(visited@)),
            visited_set(visited@).subset_of(u),
            settled_but(tuples, v0, visited_set(visited@), n, stype@, sid@),
            !direct_hit(tuples, n, stype@, sid@),
            forall|b: Node| inherits_edge(n, b) ==> visited_set(visited@).contains(b),
            forall|k: int|
                0 <= k < j && (#[trigger] rows@[k]).user_type@ == "userset"@ && parse_userset(
                    rows@[k].user_id@,
                ) is Some ==> visited_set(visited@).contains(parse_userset(rows@[k].user_id@)->0),
        decreases rows@.len() - j,
    {
        let row = &rows[j];
        let ghost vc = visited_set(visited@);
        proof {
            assert(rows@.map_values(|t: RelationTuple| t.key())[j as int] == row.key());
            assert(key_set(rows@).contains(row.key()));
        }
        if str_eq(row.user_type.as_str(), "userset") {
            match parse_userset_id(row.user_id.as_str()) {
                None => {},
                Some((a, b, c)) => {
                    let ghost child: Node = (a@, b@, c@);
                    proof {
                        assert(tuples.contains((n.0, n.1, n.2, "userset"@, row.user_id@)));
                        assert(userset_edge(tuples, n, child));
                        lemma_universe_closed(tuples, start, n, child);
                        vstd::set_lib::lemma_len_subset(vc, u);
                        vstd::set_lib::lemma_len_subset(v0.insert(n), vc);
                        assert(v0.insert(n).len() == v0.len() + 1);
                    }
                    match visit(
                        store,
                        hierarchy,
                        a.as_str(),
                        b.as_str(),
                        c.as_str(),
                        stype,
                        sid,
                        visited,
                        Ghost(start),
                    ) {
                        Err(e) => {
                            proof {
                                lemma_subset_chain(v0, v0.insert(n), vc, visited_set(visited@));
                            }
                            return Err(e);
                        },
                        Ok(true) => {
                            proof {
                                lemma_grant_step(tuples, n, child, stype@, sid@);
                            }
                            return Ok(true);
                        },
                        Ok(false) => {
                            proof {
                                lemma_settled_after_child(
                                    tuples,
                                    v0,
                                    vc,
                                    visited_set(visited@),
                                    n,
                                    stype@,
                                    sid@,
                                );
                            }
                        },
                    }
                },
            }
        }
        j += 1;
    }
    proof {
        let v1 = visited_set(visited@);
        assert forall|b: Node| #[trigger] edge(tuples, n, b) implies v1.contains(b) by {
            if !inherits_edge(n, b) {
                let s = choose|s: Seq<char>|
                    tuples.contains((n.0, n.1, n.2, "userset"@, s)) && parse_userset(s) == Some(b);
                let key: TupleKey = (n.0, n.1, n.2, "userset"@, s);
                assert(key_set(rows@).contains(key));
                let keys = rows@.map_values(|t: RelationTuple| t.key());
                let k = choose|k: int| 0 <= k < keys.len() && keys[k] == key;
                assert(rows@[k].key() == key);
            }
        }
        assert(explored(tuples, v1, n, stype@, sid@));
        assert forall|m: Node| v1.contains(m) && !v0.contains(m) implies #[trigger] explored(
            tuples,
            v1,
            m,
            stype@,
            sid@,
        ) by {
            if m != n {
                assert(explored(tuples, v1, m, stype@, sid@));
            }
        }
    }
    Ok(false)
}

/// Whether the subject `subject_type:subject_id` holds `relation` on
/// `namespace:object_id`, directly, through a stronger relation, or through a
/// userset, by the tuples of `store`. A store error ends the search and is returned.
pub fn check_relation<S: TupleStore>(
    store: &S,
    hierarchy: &PermissionHierarchy,
    namespace: &str,
    object_id: &str,
    relation: &str,
    subject_type: &str,
    subject_id: &str,
) -> (r: SentinelResult<bool>)
    requires
        hierarchy.wf(),
        store.tuples().finite(),
    ensures
        store.reliable() ==> r is Ok,
        r matches Ok(b) ==> b == grants(
            store.tuples(),
            (namespace@, object_id@, relation@),
            subject_type@,
            subject_id@,
        ),
{
    let ghost start: Node = (namespace@, object_id@, relation@);
    let mut visited: Vec<(String, String, String)> = Vec::new();
    proof {
        lemma_universe_finite(store.tuples(), start);
        assert(visited_set(visited@) =~= Set::<Node>::empty());
    }
    let r = visit(
        store,
        hierarchy,
        namespace,
        object_id,
        relation,
        subject_type,
        subject_id,
        &mut visited,
        Ghost(start),
    );
    proof {
        if r matches Ok(false) {
            let v1 = visited_set(visited@);
            assert forall|m: Node| v1.contains(m) implies #[trigger] explored(
                store.tuples(),
                v1,
                m,
                subject_type@,
                subject_id@,
            ) by {
                assert(!Set::<Node>::empty().contains(m));
            }
            lemma_explored_denies(store.tuples(), v1, start, subject_type@, subject_id@);
        }
    }
    r
}

} // verus!
