use vstd::prelude::*;

use crate::errors::{SentinelError, SentinelResult};
use crate::models::{operation_word, ChangelogEntry, Operation, RelationTuple, TupleKey};
use crate::text::str_eq;

verus! {

/// The identities of a sequence of tuples.
pub open spec fn key_set(v: Seq<RelationTuple>) -> Set<TupleKey> {
    v.map_values(|t: RelationTuple| t.key()).to_set()
}

/// A changelog record reduced to the identity and the operation word.
pub type ChangeRecord = (TupleKey, Seq<char>);

/// Whether `value` meets an optional equality constraint.
pub open spec fn field_matches(constraint: Option<&str>, value: Seq<char>) -> bool {
    match constraint {
        Some(c) => c@ == value,
        None => true,
    }
}

/// Whether an identity meets each of five optional equality constraints.
pub open spec fn key_matches(
    k: TupleKey,
    ns: Option<&str>,
    oid: Option<&str>,
    rel: Option<&str>,
    stype: Option<&str>,
    sid: Option<&str>,
) -> bool {
    &&& field_matches(ns, k.0)
    &&& field_matches(oid, k.1)
    &&& field_matches(rel, k.2)
    &&& field_matches(stype, k.3)
    &&& field_matches(sid, k.4)
}

/// The tuple store: the owner of all relation tuples and of the changelog.
///
/// Writes are idempotent by tuple identity. Every operation may fail with a
/// database error; what a successful one did is stated below.
pub trait TupleStore {
    /// The identities of the tuples held.
    spec fn tuples(&self) -> Set<TupleKey>;

    /// The changelog, oldest first.
    spec fn changes(&self) -> Seq<ChangeRecord>;

    /// The store answers every operation successfully (as an in-memory one does).
    spec fn reliable(&self) -> bool;

    /// Stores `tuple` and records an `INSERT`; a failed insert may or may not have stored it.
    fn insert_tuple(&mut self, tuple: &RelationTuple) -> (r: SentinelResult<()>)
        ensures
            old(self).reliable() ==> r is Ok && final(self).reliable(),
            r is Ok ==> final(self).tuples() == old(self).tuples().insert(tuple.key()),
            r is Err ==> final(self).tuples() == old(self).tuples() || final(self).tuples()
                == old(self).tuples().insert(tuple.key()),
            r is Ok ==> final(self).changes() == old(self).changes().push(
                (tuple.key(), "INSERT"@),
            ),
    ;

    /// Removes the tuple with the identity of `tuple` and records a `DELETE`;
    /// a failed delete may or may not have removed it.
    fn delete_tuple(&mut self, tuple: &RelationTuple) -> (r: SentinelResult<()>)
        ensures
            old(self).reliable() ==> r is Ok && final(self).reliable(),
            r is Ok ==> final(self).tuples() == old(self).tuples().remove(tuple.key()),
            r is Err ==> final(self).tuples() == old(self).tuples() || final(self).tuples()
                == old(self).tuples().remove(tuple.key()),
            r is Ok ==> final(self).changes() == old(self).changes().push(
                (tuple.key(), "DELETE"@),
            ),
    ;

    /// The stored tuple with the identity of `tuple`, if there is one.
    fn find_direct_tuple(&self, tuple: &RelationTuple) -> (r: SentinelResult<
        Option<RelationTuple>,
    >)
        ensures
            self.reliable() ==> r is Ok,
            r matches Ok(found) ==> (found is Some <==> self.tuples().contains(tuple.key())),
            r matches Ok(Some(f)) ==> f.key() == tuple.key(),
    ;

    /// All tuples on an object.
    fn find_tuples_by_object(&self, namespace: &str, object_id: &str) -> (r: SentinelResult<
        Vec<RelationTuple>,
    >)
        ensures
            self.reliable() ==> r is Ok,
            r matches Ok(v) ==> key_set(v@) == self.tuples().filter(
                |k: TupleKey| k.0 == namespace@ && k.1 == object_id@,
            ),
            r matches Ok(v) ==> distinct_keys(v@),
    ;

    /// All tuples on an object under one relation, usersets included.
    fn find_tuples_by_object_relation(
        &self,
        namespace: &str,
        object_id: &str,
        relation: &str,
    ) -> (r: SentinelResult<Vec<RelationTuple>>)
        ensures
            self.reliable() ==> r is Ok,
            r matches Ok(v) ==> key_set(v@) == self.tuples().filter(
                |k: TupleKey| k.0 == namespace@ && k.1 == object_id@ && k.2 == relation@,
            ),
            r matches Ok(v) ==> distinct_keys(v@),
    ;

    /// All tuples whose subject is the principal `user_id`.
    fn find_user_memberships(&self, user_id: &str) -> (r: SentinelResult<Vec<RelationTuple>>)
        ensures
            self.reliable() ==> r is Ok,
            r matches Ok(v) ==> key_set(v@) == self.tuples().filter(
                |k: TupleKey| k.3 == "user"@ && k.4 == user_id@,
            ),
            r matches Ok(v) ==> distinct_keys(v@),
    ;

    /// The members of the userset `namespace:object_id#relation`.
    fn find_userset_members(&self, namespace: &str, object_id: &str, relation: &str) -> (r:
        SentinelResult<Vec<RelationTuple>>)
        ensures
            self.reliable() ==> r is Ok,
            r matches Ok(v) ==> key_set(v@) == self.tuples().filter(
                |k: TupleKey| k.0 == namespace@ && k.1 == object_id@ && k.2 == relation@,
            ),
            r matches Ok(v) ==> distinct_keys(v@),
    ;

    /// Appends `entry` to the changelog; the tuples are left as they are.
    fn record_change(&mut self, entry: &ChangelogEntry) -> (r: SentinelResult<()>)
        ensures
            final(self).tuples() == old(self).tuples(),
            old(self).reliable() ==> r is Ok && final(self).reliable(),
            r is Ok ==> final(self).changes() == old(self).changes().push(
                (entry.key(), entry.operation@),
            ),
    ;
}

/// Whether two tuples share their identity.
pub fn same_identity(a: &RelationTuple, b: &RelationTuple) -> (r: bool)
    ensures
        r == (a.key() == b.key()),
{
    a.namespace == b.namespace && a.object_id == b.object_id && a.relation == b.relation
        && a.user_type == b.user_type && a.user_id == b.user_id
}

fn field_ok(constraint: Option<&str>, value: &String) -> (r: bool)
    ensures
        r == field_matches(constraint, value@),
{
    match constraint {
        Some(c) => str_eq(c, value.as_str()),
        None => true,
    }
}

proof fn lemma_key_set_push(v: Seq<RelationTuple>, t: RelationTuple)
    ensures
        key_set(v.push(t)) == key_set(v).insert(t.key()),
{
    assert(v.push(t).map_values(|t: RelationTuple| t.key()) =~= v.map_values(
        |t: RelationTuple| t.key(),
    ).push(t.key()));
    v.map_values(|t: RelationTuple| t.key()).lemma_push_to_set_commute(t.key());
}

/// No two of the tuples share an identity.
pub open spec fn distinct_keys(v: Seq<RelationTuple>) -> bool {
    v.map_values(|t: RelationTuple| t.key()).no_duplicates()
}

proof fn lemma_push_distinct(v: Seq<RelationTuple>, t: RelationTuple)
    requires
        distinct_keys(v),
        !key_set(v).contains(t.key()),
    ensures
        distinct_keys(v.push(t)),
{
    let k = v.map_values(|x: RelationTuple| x.key());
    let k2 = v.push(t).map_values(|x: RelationTuple| x.key());
    assert(k2 =~= k.push(t.key()));
    assert forall|i: int, j: int| 0 <= i < k2.len() && 0 <= j < k2.len() && i != j implies k2[i] != k2[j] by {
        if i == v.len() {
            assert(k[j] == k2[j]);
            assert(k.contains(k2[j]));
        } else if j == v.len() {
            assert(k[i] == k2[i]);
            assert(k.contains(k2[i]));
        }
    }
}

proof fn lemma_later_key_is_new(rows: Seq<RelationTuple>, i: int)
    requires
        distinct_keys(rows),
        0 <= i < rows.len(),
    ensures
        !key_set(rows.take(i)).contains(rows[i].key()),
{
    let k = rows.take(i).map_values(|x: RelationTuple| x.key());
    if k.contains(rows[i].key()) {
        let j = choose|j: int| 0 <= j < k.len() && k[j] == rows[i].key();
        let all = rows.map_values(|x: RelationTuple| x.key());
        assert(all[j] == all[i]);
    }
}

/// The first row of `rows` with the identity of `tuple`.
fn position_in(rows: &Vec<RelationTuple>, tuple: &RelationTuple) -> (r: Option<usize>)
    ensures
        match r {
            Some(i) => i < rows@.len() && rows@[i as int].key() == tuple.key(),
            None => !key_set(rows@).contains(tuple.key()),
        },
{
    let mut i: usize = 0;
    while i < rows.len()
        invariant
            i <= rows@.len(),
            forall|j: int| 0 <= j < i ==> rows@[j].key() != tuple.key(),
        decreases rows@.len() - i,
    {
        if same_identity(&rows[i], tuple) {
            return Some(i);
        }
        i += 1;
    }
    proof {
        if key_set(rows@).contains(tuple.key()) {
            let keys = rows@.map_values(|t: RelationTuple| t.key());
            let j = choose|j: int| 0 <= j < keys.len() && keys[j] == tuple.key();
            assert(rows@[j].key() == tuple.key());
        }
    }
    None
}

/// The rows meeting each given constraint.
fn select_rows(
    rows: &Vec<RelationTuple>,
    ns: Option<&str>,
    oid: Option<&str>,
    rel: Option<&str>,
    stype: Option<&str>,
    sid: Option<&str>,
) -> (r: Vec<RelationTuple>)
    ensures
        key_set(r@) == key_set(rows@).filter(|k: TupleKey| key_matches(k, ns, oid, rel, stype, sid)),
        distinct_keys(rows@) ==> distinct_keys(r@),
{
    let mut out: Vec<RelationTuple> = Vec::new();
    let mut i: usize = 0;
    while i < rows.len()
        invariant
            i <= rows@.len(),
            key_set(out@) == key_set(rows@.take(i as int)).filter(
                |k: TupleKey| key_matches(k, ns, oid, rel, stype, sid),
            ),
            distinct_keys(rows@) ==> distinct_keys(out@),
        decreases rows@.len() - i,
    {
        let t = &rows[i];
        let ghost prev = out@;
        proof {
            assert(rows@.take(i + 1) =~= rows@.take(i as int).push(*t));
            lemma_key_set_push(rows@.take(i as int), *t);
        }
        if field_ok(ns, &t.namespace) && field_ok(oid, &t.object_id) && field_ok(rel, &t.relation)
            && field_ok(stype, &t.user_type) && field_ok(sid, &t.user_id) {
            out.push(t.duplicate());
            proof {
                lemma_key_set_push(prev, *t);
                if distinct_keys(rows@) {
                    lemma_later_key_is_new(rows@, i as int);
                    lemma_push_distinct(prev, *t);
                }
            }
        }
        proof {
            assert(key_set(out@) =~= key_set(rows@.take(i + 1)).filter(
                |k: TupleKey| key_matches(k, ns, oid, rel, stype, sid),
            ));
        }
        i += 1;
    }
    proof {
        assert(rows@.take(i as int) =~= rows@);
    }
    out
}

/// `rows` with `tuple` written over the row of its identity, or added.
fn upserted(rows: &Vec<RelationTuple>, tuple: &RelationTuple) -> (r: Vec<RelationTuple>)
    ensures
        key_set(r@) == key_set(rows@).insert(tuple.key()),
        distinct_keys(rows@) ==> distinct_keys(r@),
{
    let mut out: Vec<RelationTuple> = Vec::new();
    let mut i: usize = 0;
    while i < rows.len()
        invariant
            i <= rows@.len(),
            out@ == rows@.take(i as int),
        decreases rows@.len() - i,
    {
        out.push(rows[i].duplicate());
        proof {
            assert(rows@.take(i + 1) =~= rows@.take(i as int).push(rows@[i as int]));
        }
        i += 1;
    }
    proof {
        assert(rows@.take(i as int) =~= rows@);
    }
    match position_in(&out, tuple) {
        Some(j) => {
            let ghost keys = out@.map_values(|t: RelationTuple| t.key());
            out.set(j, tuple.duplicate());
            proof {
                assert(out@.map_values(|t: RelationTuple| t.key()) =~= keys);
                assert(keys[j as int] == tuple.key());
                assert(key_set(out@) =~= key_set(rows@).insert(tuple.key()));
                assert(rows@ =~= rows@.take(rows@.len() as int));
            }
        },
        None => {
            let ghost before = out@;
            out.push(tuple.duplicate());
            proof {
                lemma_key_set_push(before, *tuple);
                if distinct_keys(rows@) {
                    lemma_push_distinct(before, *tuple);
                }
            }
        },
    }
    out
}

/// `rows` without any row of the identity of `tuple`.
fn without_identity(rows: &Vec<RelationTuple>, tuple: &RelationTuple) -> (r: Vec<RelationTuple>)
    ensures
        key_set(r@) == key_set(rows@).remove(tuple.key()),
        distinct_keys(rows@) ==> distinct_keys(r@),
{
    let mut kept: Vec<RelationTuple> = Vec::new();
    let mut i: usize = 0;
    while i < rows.len()
        invariant
            i <= rows@.len(),
            key_set(kept@) == key_set(rows@.take(i as int)).remove(tuple.key()),
            distinct_keys(rows@) ==> distinct_keys(kept@),
        decreases rows@.len() - i,
    {
        let t = &rows[i];
        let ghost prev = kept@;
        proof {
            assert(rows@.take(i + 1) =~= rows@.take(i as int).push(*t));
            lemma_key_set_push(rows@.take(i as int), *t);
        }
        if !same_identity(t, tuple) {
            kept.push(t.duplicate());
            proof {
                lemma_key_set_push(prev, *t);
                if distinct_keys(rows@) {
                    lemma_later_key_is_new(rows@, i as int);
                    lemma_push_distinct(prev, *t);
                }
            }
        }
        proof {
            assert(key_set(kept@) =~= key_set(rows@.take(i + 1)).remove(tuple.key()));
        }
        i += 1;
    }
    proof {
        assert(rows@.take(i as int) =~= rows@);
    }
    kept
}

/// The four logical indices of the store. Each holds every tuple; they differ
/// in the queries they serve: `by_object` exact lookups and object-relation
/// scans, `by_user` a principal's memberships, `by_object_perm` object dumps,
/// `by_relation` the objects on which a relation is held.
#[derive(Debug)]
struct Indices {
    by_object: Vec<RelationTuple>,
    by_user: Vec<RelationTuple>,
    by_object_perm: Vec<RelationTuple>,
    by_relation: Vec<RelationTuple>,
}

impl Indices {
    /// Every index holds the same identities.
    #[verifier::type_invariant]
    spec fn coherent(self) -> bool {
        &&& key_set(self.by_user@) == key_set(self.by_object@)
        &&& key_set(self.by_object_perm@) == key_set(self.by_object@)
        &&& key_set(self.by_relation@) == key_set(self.by_object@)
        &&& distinct_keys(self.by_object@)
        &&& distinct_keys(self.by_user@)
        &&& distinct_keys(self.by_object_perm@)
        &&& distinct_keys(self.by_relation@)
    }
}

/// An in-memory tuple store that writes each tuple to all four indices.
#[derive(Debug)]
pub struct MemoryTupleStore {
    indices: Indices,
    changelog: Vec<ChangelogEntry>,
}

impl MemoryTupleStore {
    pub fn new() -> (r: Self)
        ensures
            r.tuples() == Set::<TupleKey>::empty(),
            r.tuples().finite(),
            r.changes().len() == 0,
            r.reliable(),
    {
        let empty: Vec<RelationTuple> = Vec::new();
        proof {
            assert(key_set(empty@) =~= Set::<TupleKey>::empty());
        }
        MemoryTupleStore {
            indices: Indices {
                by_object: Vec::new(),
                by_user: Vec::new(),
                by_object_perm: Vec::new(),
                by_relation: Vec::new(),
            },
            changelog: Vec::new(),
        }
    }

    /// The store holds finitely many tuples.
    pub proof fn lemma_finite(&self)
        ensures
            self.tuples().finite(),
    {
        vstd::seq_lib::seq_to_set_is_finite(
            self.indices.by_object@.map_values(|t: RelationTuple| t.key()),
        );
    }

    /// The tuples in `namespace` on which `relation` is held, from the relation index.
    pub fn find_objects_with_relation(&self, namespace: &str, relation: &str) -> (r: Vec<
        RelationTuple,
    >)
        ensures
            key_set(r@) == self.tuples().filter(
                |k: TupleKey| k.0 == namespace@ && k.2 == relation@,
            ),
            distinct_keys(r@),
    {
        proof {
            use_type_invariant(&self.indices);
        }
        let v = select_rows(&self.indices.by_relation, Some(namespace), None, Some(relation), None, None);
        proof {
            assert(key_set(v@) =~= self.tuples().filter(
                |k: TupleKey| k.0 == namespace@ && k.2 == relation@,
            ));
        }
        v
    }
}

impl TupleStore for MemoryTupleStore {
    closed spec fn tuples(&self) -> Set<TupleKey> {
        key_set(self.indices.by_object@)
    }

    closed spec fn reliable(&self) -> bool {
        true
    }

    closed spec fn changes(&self) -> Seq<ChangeRecord> {
        self.changelog@.map_values(|e: ChangelogEntry| (e.key(), e.operation@))
    }

    fn insert_tuple(&mut self, tuple: &RelationTuple) -> (r: SentinelResult<()>)
        ensures
            r is Ok,
    {
        proof {
            use_type_invariant(&self.indices);
        }
        let by_object = upserted(&self.indices.by_object, tuple);
        let by_user = upserted(&self.indices.by_user, tuple);
        let by_object_perm = upserted(&self.indices.by_object_perm, tuple);
        let by_relation = upserted(&self.indices.by_relation, tuple);
        self.indices = Indices { by_object, by_user, by_object_perm, by_relation };
        let entry = ChangelogEntry::new(tuple, &Operation::Insert);
        proof {
            reveal_strlit("INSERT");
        }
        self.record_change(&entry)
    }

    fn delete_tuple(&mut self, tuple: &RelationTuple) -> (r: SentinelResult<()>)
        ensures
            r is Ok,
    {
        proof {
            use_type_invariant(&self.indices);
        }
        let by_object = without_identity(&self.indices.by_object, tuple);
        let by_user = without_identity(&self.indices.by_user, tuple);
        let by_object_perm = without_identity(&self.indices.by_object_perm, tuple);
        let by_relation = without_identity(&self.indices.by_relation, tuple);
        self.indices = Indices { by_object, by_user, by_object_perm, by_relation };
        let entry = ChangelogEntry::new(tuple, &Operation::Delete);
        proof {
            reveal_strlit("DELETE");
        }
        self.record_change(&entry)
    }

    fn find_direct_tuple(&self, tuple: &RelationTuple) -> (r: SentinelResult<
        Option<RelationTuple>,
    >)
        ensures
            r is Ok,
    {
        let rows = &self.indices.by_object;
        match position_in(rows, tuple) {
            Some(i) => {
                proof {
                    assert(rows@.map_values(|t: RelationTuple| t.key())[i as int] == tuple.key());
                }
                Ok(Some(rows[i].duplicate()))
            },
            None => Ok(None),
        }
    }

    fn find_tuples_by_object(&self, namespace: &str, object_id: &str) -> (r: SentinelResult<
        Vec<RelationTuple>,
    >)
        ensures
            r is Ok,
    {
        proof {
            use_type_invariant(&self.indices);
        }
        let v = select_rows(&self.indices.by_object_perm, Some(namespace), Some(object_id), None, None, None);
        proof {
            assert(key_set(v@) =~= self.tuples().filter(
                |k: TupleKey| k.0 == namespace@ && k.1 == object_id@,
            ));
        }
        Ok(v)
    }

    fn find_tuples_by_object_relation(
        &self,
        namespace: &str,
        object_id: &str,
        relation: &str,
    ) -> (r: SentinelResult<Vec<RelationTuple>>)
        ensures
            r is Ok,
    {
        proof {
            use_type_invariant(&self.indices);
        }
        let v = select_rows(&self.indices.by_object, Some(namespace), Some(object_id), Some(relation), None, None);
        proof {
            assert(key_set(v@) =~= self.tuples().filter(
                |k: TupleKey| k.0 == namespace@ && k.1 == object_id@ && k.2 == relation@,
            ));
        }
        Ok(v)
    }

    fn find_user_memberships(&self, user_id: &str) -> (r: SentinelResult<Vec<RelationTuple>>)
        ensures
            r is Ok,
    {
        proof {
            use_type_invariant(&self.indices);
        }
        let v = select_rows(&self.indices.by_user, None, None, None, Some("user"), Some(user_id));
        proof {
            assert(key_set(v@) =~= self.tuples().filter(
                |k: TupleKey| k.3 == "user"@ && k.4 == user_id@,
            ));
        }
        Ok(v)
    }

    fn find_userset_members(&self, namespace: &str, object_id: &str, relation: &str) -> (r:
        SentinelResult<Vec<RelationTuple>>)
        ensures
            r is Ok,
    {
        self.find_tuples_by_object_relation(namespace, object_id, relation)
    }

    fn record_change(&mut self, entry: &ChangelogEntry) -> (r: SentinelResult<()>)
        ensures
            r is Ok,
    {
        let ghost before = self.changelog@;
        self.changelog.push(entry.duplicate());
        proof {
            assert(self.changes() =~= before.map_values(
                |e: ChangelogEntry| (e.key(), e.operation@),
            ).push((entry.key(), entry.operation@)));
        }
        Ok(())
    }
}

} // verus!
