use vstd::prelude::*;

use crate::hierarchy::{implied_by, lemma_implied_facts, relation_names};
use crate::models::TupleKey;
use crate::userset::parse_userset;

verus! {

/// A point of the relation graph: namespace, object, relation.
pub type Node = (Seq<char>, Seq<char>, Seq<char>);

/// The subject holds `n` by a stored tuple.
pub open spec fn direct_hit(tuples: Set<TupleKey>, n: Node, stype: Seq<char>, sid: Seq<char>) -> bool {
    tuples.contains((n.0, n.1, n.2, stype, sid))
}

/// `b` is a stronger relation on the same object that carries `a` with it.
pub open spec fn inherits_edge(a: Node, b: Node) -> bool {
    &&& b.0 == a.0
    &&& b.1 == a.1
    &&& implied_by(b.2).contains(a.2)
}

/// A stored userset row on `a` names `b`.
pub open spec fn userset_edge(tuples: Set<TupleKey>, a: Node, b: Node) -> bool {
    exists|sid: Seq<char>|
        #![trigger tuples.contains((a.0, a.1, a.2, "userset"@, sid))]
        tuples.contains((a.0, a.1, a.2, "userset"@, sid)) && parse_userset(sid) == Some(b)
}

/// Holding `b` is enough to hold `a`.
pub open spec fn edge(tuples: Set<TupleKey>, a: Node, b: Node) -> bool {
    inherits_edge(a, b) || userset_edge(tuples, a, b)
}

pub open spec fn is_path(tuples: Set<TupleKey>, p: Seq<Node>) -> bool {
    forall|i: int| 0 <= i < p.len() - 1 ==> #[trigger] edge(tuples, p[i], p[i + 1])
}

/// The subject holds `start`: some chain of edges from `start` ends at a stored tuple
/// of the subject.
pub open spec fn grants(tuples: Set<TupleKey>, start: Node, stype: Seq<char>, sid: Seq<char>) -> bool {
    exists|p: Seq<Node>|
        {
            &&& p.len() >= 1
            &&& p[0] == start
            &&& is_path(tuples, p)
            &&& direct_hit(tuples, #[trigger] p.last(), stype, sid)
        }
}

/// `m` is no stored tuple of the subject and all its successors lie in `v`.
pub open spec fn explored(
    tuples: Set<TupleKey>,
    v: Set<Node>,
    m: Node,
    stype: Seq<char>,
    sid: Seq<char>,
) -> bool {
    &&& !direct_hit(tuples, m, stype, sid)
    &&& forall|b: Node| #[trigger] edge(tuples, m, b) ==> v.contains(b)
}

/// Every point of `v1` that is not in `v0` is explored within `v1`.
pub open spec fn settled(
    tuples: Set<TupleKey>,
    v0: Set<Node>,
    v1: Set<Node>,
    stype: Seq<char>,
    sid: Seq<char>,
) -> bool {
    forall|m: Node| v1.contains(m) && !v0.contains(m) ==> #[trigger] explored(tuples, v1, m, stype, sid)
}

/// The three parts of a userset reference, none if it does not parse.
pub open spec fn userset_words(s: Seq<char>) -> Set<Seq<char>> {
    match parse_userset(s) {
        Some((a, b, c)) => set![a, b, c],
        None => Set::empty(),
    }
}

/// The texts that can stand in a point reachable from `start`.
pub open spec fn words(tuples: Set<TupleKey>, start: Node) -> Set<Seq<char>> {
    Set::new(
        |w: Seq<char>|
            w == start.0 || w == start.1 || w == start.2 || relation_names().contains(w) || exists|
                k: TupleKey,
            |
                #![trigger tuples.contains(k)]
                tuples.contains(k) && userset_words(k.4).contains(w),
    )
}

/// The points made of words: a finite set closed under edges.
pub open spec fn universe(tuples: Set<TupleKey>, start: Node) -> Set<Node> {
    let w = words(tuples, start);
    Set::new(|n: Node| w.contains(n.0) && w.contains(n.1) && w.contains(n.2))
}

proof fn lemma_words_finite(tuples: Set<TupleKey>, start: Node)
    requires
        tuples.finite(),
    ensures
        words(tuples, start).finite(),
{
    let f = |k: TupleKey| userset_words(k.4);
    tuples.lemma_map_finite(f);
    assert forall|x: Set<Seq<char>>| tuples.map(f).contains(x) implies x.finite() by {
        let k = choose|k: TupleKey| tuples.contains(k) && f(k) == x;
        assert(userset_words(k.4).finite());
    }
    tuples.map(f).lemma_flatten_finite();
    let base = set![start.0, start.1, start.2].union(relation_names().to_set());
    let all = base.union(tuples.map(f).flatten());
    assert(relation_names().to_set().finite());
    assert(all.finite());
    assert forall|w: Seq<char>| words(tuples, start).contains(w) implies all.contains(w) by {
        if w == start.0 || w == start.1 || w == start.2 || relation_names().contains(w) {
        } else {
            let k = choose|k: TupleKey| tuples.contains(k) && userset_words(k.4).contains(w);
            assert(tuples.map(f).contains(f(k)));
        }
    }
    vstd::set_lib::lemma_len_subset(words(tuples, start), all);
}

pub proof fn lemma_universe_finite(tuples: Set<TupleKey>, start: Node)
    requires
        tuples.finite(),
    ensures
        universe(tuples, start).finite(),
        universe(tuples, start).contains(start),
{
    lemma_words_finite(tuples, start);
    let w = words(tuples, start);
    let inner = |a: Seq<char>, b: Seq<char>| w.map(|c: Seq<char>| (a, b, c));
    let mid = |a: Seq<char>| w.map(|b: Seq<char>| inner(a, b)).flatten();
    let all = w.map(mid).flatten();
    assert forall|a: Seq<char>| #[trigger] mid(a).finite() by {
        assert forall|b: Seq<char>| #[trigger] inner(a, b).finite() by {
            w.lemma_map_finite(|c: Seq<char>| (a, b, c));
        }
        w.lemma_map_finite(|b: Seq<char>| inner(a, b));
        assert forall|s: Set<Node>| w.map(|b: Seq<char>| inner(a, b)).contains(s) implies s.finite() by {
            let b = choose|b: Seq<char>| w.contains(b) && inner(a, b) == s;
            assert(inner(a, b).finite());
        }
        w.map(|b: Seq<char>| inner(a, b)).lemma_flatten_finite();
    }
    w.lemma_map_finite(mid);
    assert forall|s: Set<Node>| w.map(mid).contains(s) implies s.finite() by {
        let a = choose|a: Seq<char>| w.contains(a) && mid(a) == s;
        assert(mid(a).finite());
    }
    w.map(mid).lemma_flatten_finite();
    assert forall|n: Node| universe(tuples, start).contains(n) implies all.contains(n) by {
        assert(inner(n.0, n.1).contains(n));
        assert(w.map(|b: Seq<char>| inner(n.0, b)).contains(inner(n.0, n.1)));
        assert(mid(n.0).contains(n));
        assert(w.map(mid).contains(mid(n.0)));
    }
    vstd::set_lib::lemma_len_subset(universe(tuples, start), all);
}

/// Edges never leave the universe.
pub proof fn lemma_universe_closed(tuples: Set<TupleKey>, start: Node, a: Node, b: Node)
    requires
        universe(tuples, start).contains(a),
        edge(tuples, a, b),
    ensures
        universe(tuples, start).contains(b),
{
    let w = words(tuples, start);
    if inherits_edge(a, b) {
        lemma_implied_facts(b.2, a.2);
        assert(w.contains(b.2));
    } else {
        let sid = choose|sid: Seq<char>|
            tuples.contains((a.0, a.1, a.2, "userset"@, sid)) && parse_userset(sid) == Some(b);
        let k: TupleKey = (a.0, a.1, a.2, "userset"@, sid);
        assert(tuples.contains(k));
        assert(userset_words(sid).contains(b.0));
        assert(userset_words(sid).contains(b.1));
        assert(userset_words(sid).contains(b.2));
        assert(w.contains(b.0));
        assert(w.contains(b.1));
        assert(w.contains(b.2));
    }
}

proof fn lemma_path_stays(tuples: Set<TupleKey>, v: Set<Node>, p: Seq<Node>, i: int, stype: Seq<char>, sid: Seq<char>)
    requires
        p.len() >= 1,
        is_path(tuples, p),
        v.contains(p[0]),
        forall|m: Node| v.contains(m) ==> #[trigger] explored(tuples, v, m, stype, sid),
        0 <= i < p.len(),
    ensures
        v.contains(p[i]),
    decreases i,
{
    if i > 0 {
        lemma_path_stays(tuples, v, p, i - 1, stype, sid);
        assert(explored(tuples, v, p[i - 1], stype, sid));
        assert(edge(tuples, p[i - 1], p[(i - 1) + 1]));
    }
}

/// A set of explored points that holds `start` shows that `start` is not granted.
pub proof fn lemma_explored_denies(tuples: Set<TupleKey>, v: Set<Node>, start: Node, stype: Seq<char>, sid: Seq<char>)
    requires
        v.contains(start),
        forall|m: Node| v.contains(m) ==> #[trigger] explored(tuples, v, m, stype, sid),
    ensures
        !grants(tuples, start, stype, sid),
{
    if grants(tuples, start, stype, sid) {
        let p = choose|p: Seq<Node>|
            {
                &&& p.len() >= 1
                &&& p[0] == start
                &&& is_path(tuples, p)
                &&& direct_hit(tuples, #[trigger] p.last(), stype, sid)
            };
        lemma_path_stays(tuples, v, p, p.len() - 1, stype, sid);
        assert(explored(tuples, v, p[p.len() - 1], stype, sid));
    }
}

/// A step from `a` to a granted `b` grants `a`.
pub proof fn lemma_grant_step(tuples: Set<TupleKey>, a: Node, b: Node, stype: Seq<char>, sid: Seq<char>)
    requires
        edge(tuples, a, b),
        grants(tuples, b, stype, sid),
    ensures
        grants(tuples, a, stype, sid),
{
    let p = choose|p: Seq<Node>|
        {
            &&& p.len() >= 1
            &&& p[0] == b
            &&& is_path(tuples, p)
            &&& direct_hit(tuples, #[trigger] p.last(), stype, sid)
        };
    let q = seq![a] + p;
    assert(q.last() == p.last());
    assert forall|i: int| 0 <= i < q.len() - 1 implies #[trigger] edge(tuples, q[i], q[i + 1]) by {
        if i > 0 {
            assert(q[i] == p[i - 1] && q[i + 1] == p[i]);
            assert(edge(tuples, p[i - 1], p[(i - 1) + 1]));
        }
    }
}

/// A stored tuple of the subject grants its own point.
pub proof fn lemma_grant_direct(tuples: Set<TupleKey>, a: Node, stype: Seq<char>, sid: Seq<char>)
    requires
        direct_hit(tuples, a, stype, sid),
    ensures
        grants(tuples, a, stype, sid),
{
    let p = seq![a];
    assert(p.last() == a);
    assert(is_path(tuples, p));
}

} // verus!
