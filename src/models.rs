use vstd::prelude::*;
use vstd::string::*;

use crate::clock::{new_uuid_text, now_millis};
use crate::text::str_eq;

verus! {

/// The identity of a tuple: namespace, object, relation, subject type, subject id.
pub type TupleKey = (Seq<char>, Seq<char>, Seq<char>, Seq<char>, Seq<char>);

/// `ns:oid#rel@stype:sid`, the canonical text of a tuple identity.
pub open spec fn canonical(key: TupleKey) -> Seq<char> {
    key.0 + ":"@ + key.1 + "#"@ + key.2 + "@"@ + key.3 + ":"@ + key.4
}

/// A relation tuple as stored: `created_at` is in milliseconds since the epoch.
#[derive(Debug, Clone, PartialEq, Eq)]
pub struct RelationTuple {
    pub namespace: String,
    pub object_id: String,
    pub relation: String,
    /// `user` for a principal; any other value marks a userset reference.
    pub user_type: String,
    /// The principal's id, or a userset written `NS:OBJ#REL`.
    pub user_id: String,
    pub created_at: i64,
}

/// A relation tuple as exchanged with clients.
#[derive(Debug, Clone, PartialEq, Eq)]
pub struct ApiRelationTuple {
    pub namespace: String,
    pub object_id: String,
    pub relation: String,
    pub user_type: String,
    pub user_id: String,
    /// Milliseconds since the epoch.
    pub created_at: i64,
}

impl RelationTuple {
    pub open spec fn key(&self) -> TupleKey {
        (self.namespace@, self.object_id@, self.relation@, self.user_type@, self.user_id@)
    }

    /// A tuple stamped with the current time.
    pub fn new(
        namespace: &str,
        object_id: &str,
        relation: &str,
        user_type: &str,
        user_id: &str,
    ) -> (r: Self)
        ensures
            r.key() == (namespace@, object_id@, relation@, user_type@, user_id@),
    {
        RelationTuple::with_timestamp(namespace, object_id, relation, user_type, user_id, now_millis())
    }

    /// A tuple stamped with `created_at`.
    pub fn with_timestamp(
        namespace: &str,
        object_id: &str,
        relation: &str,
        user_type: &str,
        user_id: &str,
        created_at: i64,
    ) -> (r: Self)
        ensures
            r.key() == (namespace@, object_id@, relation@, user_type@, user_id@),
            r.created_at == created_at,
    {
        RelationTuple {
            namespace: namespace.to_string(),
            object_id: object_id.to_string(),
            relation: relation.to_string(),
            user_type: user_type.to_string(),
            user_id: user_id.to_string(),
            created_at,
        }
    }

    /// A field-by-field copy.
    pub fn duplicate(&self) -> (r: Self)
        ensures
            r == *self,
    {
        RelationTuple {
            namespace: self.namespace.clone(),
            object_id: self.object_id.clone(),
            relation: self.relation.clone(),
            user_type: self.user_type.clone(),
            user_id: self.user_id.clone(),
            created_at: self.created_at,
        }
    }

    pub fn to_api_tuple(&self) -> (r: ApiRelationTuple)
        ensures
            r.namespace == self.namespace,
            r.object_id == self.object_id,
            r.relation == self.relation,
            r.user_type == self.user_type,
            r.user_id == self.user_id,
            r.created_at == self.created_at,
    {
        ApiRelationTuple {
            namespace: self.namespace.clone(),
            object_id: self.object_id.clone(),
            relation: self.relation.clone(),
            user_type: self.user_type.clone(),
            user_id: self.user_id.clone(),
            created_at: self.created_at,
        }
    }

    /// The canonical text `ns:oid#rel@stype:sid`.
    pub fn to_string_representation(&self) -> (r: String)
        ensures
            r@ == canonical(self.key()),
    {
        canonical_text(
            self.namespace.as_str(),
            self.object_id.as_str(),
            self.relation.as_str(),
            self.user_type.as_str(),
            self.user_id.as_str(),
        )
    }

    pub fn is_direct_user(&self) -> (r: bool)
        ensures
            r == (self.user_type@ == "user"@),
    {
        str_eq(self.user_type.as_str(), "user")
    }

    pub fn is_userset(&self) -> (r: bool)
        ensures
            r == (self.user_type@ != "user"@),
    {
        !str_eq(self.user_type.as_str(), "user")
    }
}

impl ApiRelationTuple {
    pub open spec fn key(&self) -> TupleKey {
        (self.namespace@, self.object_id@, self.relation@, self.user_type@, self.user_id@)
    }

    pub fn to_db_tuple(&self) -> (r: RelationTuple)
        ensures
            r.namespace == self.namespace,
            r.object_id == self.object_id,
            r.relation == self.relation,
            r.user_type == self.user_type,
            r.user_id == self.user_id,
            r.created_at == self.created_at,
    {
        RelationTuple {
            namespace: self.namespace.clone(),
            object_id: self.object_id.clone(),
            relation: self.relation.clone(),
            user_type: self.user_type.clone(),
            user_id: self.user_id.clone(),
            created_at: self.created_at,
        }
    }
}

/// Writes `ns:oid#rel@stype:sid`.
pub fn canonical_text(ns: &str, oid: &str, rel: &str, stype: &str, sid: &str) -> (r: String)
    ensures
        r@ == canonical((ns@, oid@, rel@, stype@, sid@)),
{
    let mut s = ns.to_string();
    s.append(":");
    s.append(oid);
    s.append("#");
    s.append(rel);
    s.append("@");
    s.append(stype);
    s.append(":");
    s.append(sid);
    s
}

/// A permission question: does the subject hold `relation` on the object?
#[derive(Debug, Clone)]
pub struct CheckRequest {
    pub namespace: String,
    pub object_id: String,
    pub relation: String,
    pub user_id: String,
    /// Defaults to `user`.
    pub user_type: Option<String>,
    /// The consistency token the client holds, if any.
    pub zookie: Option<String>,
}

impl CheckRequest {
    /// The subject type, `user` when the request leaves it out.
    pub open spec fn subject_type(&self) -> Seq<char> {
        match self.user_type {
            Some(t) => t@,
            None => "user"@,
        }
    }

    /// The tuple identity the request asks about.
    pub open spec fn key(&self) -> TupleKey {
        (self.namespace@, self.object_id@, self.relation@, self.subject_type(), self.user_id@)
    }

    /// The subject type as text, `user` when the request leaves it out.
    pub fn subject_type_text(&self) -> (r: &str)
        ensures
            r@ == self.subject_type(),
    {
        match &self.user_type {
            Some(t) => t.as_str(),
            None => "user",
        }
    }
}

#[derive(Debug, Clone)]
pub struct CheckResponse {
    pub allowed: bool,
    pub zookie: String,
}

#[derive(Debug, Clone, Copy, PartialEq, Eq, Structural)]
pub enum Operation {
    Insert,
    Delete,
}

#[derive(Debug, Clone)]
pub struct WriteRequest {
    pub updates: Vec<TupleUpdate>,
    pub preconditions: Option<Vec<Precondition>>,
}

#[derive(Debug, Clone)]
pub struct TupleUpdate {
    pub operation: Operation,
    pub tuple: ApiRelationTuple,
}

#[derive(Debug, Clone)]
pub struct Precondition {
    pub operation: Operation,
    pub filter: RelationTupleFilter,
}

#[derive(Debug, Clone)]
pub struct RelationTupleFilter {
    pub namespace: Option<String>,
    pub object_id: Option<String>,
    pub relation: Option<String>,
    pub user_type: Option<String>,
    pub user_id: Option<String>,
}

#[derive(Debug, Clone)]
pub struct WriteResponse {
    pub zookie: String,
}

#[derive(Debug, Clone)]
pub struct ReadRequest {
    pub tuple_filter: RelationTupleFilter,
    pub zookie: Option<String>,
    pub page_size: Option<u32>,
    pub page_token: Option<String>,
}

#[derive(Debug, Clone)]
pub struct ReadResponse {
    pub tuples: Vec<ApiRelationTuple>,
    pub next_page_token: Option<String>,
    pub zookie: String,
}

/// One append-only record of a tuple write; `timestamp` is in milliseconds.
#[derive(Debug, Clone)]
pub struct ChangelogEntry {
    /// A random UUID in its hyphenated text form.
    pub id: String,
    pub namespace: String,
    pub object_id: String,
    pub relation: String,
    pub user_type: String,
    pub user_id: String,
    /// `INSERT` or `DELETE`.
    pub operation: String,
    pub timestamp: i64,
}

/// The changelog word for an operation.
pub open spec fn operation_word(op: Operation) -> Seq<char> {
    match op {
        Operation::Insert => "INSERT"@,
        Operation::Delete => "DELETE"@,
    }
}

impl ChangelogEntry {
    pub open spec fn key(&self) -> TupleKey {
        (self.namespace@, self.object_id@, self.relation@, self.user_type@, self.user_id@)
    }

    /// A field-by-field copy.
    pub fn duplicate(&self) -> (r: Self)
        ensures
            r == *self,
    {
        ChangelogEntry {
            id: self.id.clone(),
            namespace: self.namespace.clone(),
            object_id: self.object_id.clone(),
            relation: self.relation.clone(),
            user_type: self.user_type.clone(),
            user_id: self.user_id.clone(),
            operation: self.operation.clone(),
            timestamp: self.timestamp,
        }
    }

    /// A record of `operation` on `tuple`, with a fresh id and the current time.
    pub fn new(tuple: &RelationTuple, operation: &Operation) -> (r: Self)
        ensures
            r.key() == tuple.key(),
            r.operation@ == operation_word(*operation),
            r.id@.len() == 36,
    {
        ChangelogEntry {
            id: new_uuid_text(),
            namespace: tuple.namespace.clone(),
            object_id: tuple.object_id.clone(),
            relation: tuple.relation.clone(),
            user_type: tuple.user_type.clone(),
            user_id: tuple.user_id.clone(),
            operation: match operation {
                Operation::Insert => "INSERT".to_string(),
                Operation::Delete => "DELETE".to_string(),
            },
            timestamp: now_millis(),
        }
    }
}

#[derive(Debug, Clone)]
pub struct BatchCheckRequest {
    pub checks: Vec<CheckRequest>,
    pub zookie: Option<String>,
}

#[derive(Debug, Clone)]
pub struct BatchCheckItem {
    pub request_index: usize,
    pub allowed: bool,
    pub request_info: String,
}

#[derive(Debug, Clone)]
pub struct BatchCheckResponse {
    pub results: Vec<BatchCheckItem>,
    pub total_requests: usize,
    pub allowed_count: usize,
    pub denied_count: usize,
    pub zookie: String,
}

/// How many of `items` are allowed.
pub open spec fn count_allowed(items: Seq<BatchCheckItem>) -> nat
    decreases items.len(),
{
    if items.len() == 0 {
        0
    } else {
        count_allowed(items.drop_last()) + if items.last().allowed {
            1nat
        } else {
            0nat
        }
    }
}

proof fn lemma_count_allowed_bound(items: Seq<BatchCheckItem>)
    ensures
        count_allowed(items) <= items.len(),
    decreases items.len(),
{
    if items.len() > 0 {
        lemma_count_allowed_bound(items.drop_last());
    }
}

impl BatchCheckResponse {
    /// Tallies `results`, answered under the consistency token `zookie`.
    pub fn new(results: Vec<BatchCheckItem>, zookie: String) -> (r: Self)
        ensures
            r.results@ == results@,
            r.total_requests == results@.len(),
            r.allowed_count == count_allowed(results@),
            r.denied_count == results@.len() - count_allowed(results@),
            r.zookie == zookie,
    {
        let total_requests = results.len();
        let mut allowed_count: usize = 0;
        let mut i: usize = 0;
        while i < results.len()
            invariant
                i <= results@.len(),
                allowed_count == count_allowed(results@.take(i as int)),
            decreases results@.len() - i,
        {
            proof {
                assert(results@.take(i + 1).drop_last() =~= results@.take(i as int));
                lemma_count_allowed_bound(results@.take(i as int));
            }
            if results[i].allowed {
                allowed_count += 1;
            }
            i += 1;
        }
        proof {
            assert(results@.take(i as int) =~= results@);
            lemma_count_allowed_bound(results@);
        }
        BatchCheckResponse {
            results,
            total_requests,
            allowed_count,
            denied_count: total_requests - allowed_count,
            zookie,
        }
    }
}

} // verus!
