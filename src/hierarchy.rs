use vstd::prelude::*;

use crate::text::str_eq;

verus! {

/// The five relation names, weakest first.
pub open spec fn relation_names() -> Seq<Seq<char>> {
    seq!["viewer"@, "commenter"@, "editor"@, "admin"@, "owner"@]
}

/// The five relation names, strongest first.
pub open spec fn relations_strongest_first() -> Seq<Seq<char>> {
    seq!["owner"@, "admin"@, "editor"@, "commenter"@, "viewer"@]
}

/// The level of a relation name; unknown names rank below `viewer`, at 0.
pub open spec fn level_of(name: Seq<char>) -> u8 {
    if name == "viewer"@ {
        1
    } else if name == "commenter"@ {
        2
    } else if name == "editor"@ {
        3
    } else if name == "admin"@ {
        4
    } else if name == "owner"@ {
        5
    } else {
        0
    }
}

/// The relations that `name` carries with it, strongest first (not `name` itself).
pub open spec fn implied_by(name: Seq<char>) -> Seq<Seq<char>> {
    if name == "owner"@ {
        seq!["admin"@, "editor"@, "commenter"@, "viewer"@]
    } else if name == "admin"@ {
        seq!["editor"@, "commenter"@, "viewer"@]
    } else if name == "editor"@ {
        seq!["commenter"@, "viewer"@]
    } else if name == "commenter"@ {
        seq!["viewer"@]
    } else {
        seq![]
    }
}

/// Whether holding `higher` grants `lower`.
pub open spec fn includes_spec(higher: Seq<char>, lower: Seq<char>) -> bool {
    higher == lower || implied_by(higher).contains(lower)
}

/// The characters of each string of a sequence.
pub open spec fn names_of(s: Seq<String>) -> Seq<Seq<char>> {
    s.map_values(|x: String| x@)
}

/// The highest level among `s`, 0 when empty.
pub open spec fn max_level(s: Seq<Seq<char>>) -> u8
    decreases s.len(),
{
    if s.len() == 0 {
        0
    } else {
        let m = max_level(s.drop_last());
        let l = level_of(s.last());
        if l > m {
            l
        } else {
            m
        }
    }
}

/// The members of `s` whose level is `k`, in their order in `s`.
pub open spec fn with_level(s: Seq<Seq<char>>, k: int) -> Seq<Seq<char>>
    decreases s.len(),
{
    if s.len() == 0 {
        seq![]
    } else if level_of(s.last()) as int == k {
        with_level(s.drop_last(), k).push(s.last())
    } else {
        with_level(s.drop_last(), k)
    }
}

/// The members of `s` of level `k` or lower, grouped by level from `k` down to 0,
/// each group in its order in `s`.
pub open spec fn levels_down_from(s: Seq<Seq<char>>, k: int) -> Seq<Seq<char>>
    decreases k + 1,
{
    if k < 0 {
        seq![]
    } else {
        with_level(s, k) + levels_down_from(s, k - 1)
    }
}

/// `s` ordered by level, strongest first; names of equal level keep their order.
pub open spec fn sorted_by_level(s: Seq<Seq<char>>) -> Seq<Seq<char>> {
    levels_down_from(s, 5)
}

pub proof fn lemma_names_of_push(s: Seq<String>, x: String)
    ensures
        names_of(s.push(x)) == names_of(s).push(x@),
{
    assert(names_of(s.push(x)) =~= names_of(s).push(x@));
}

proof fn lemma_relation_names()
    ensures
        forall|i: int| 0 <= i < 5 ==> level_of(#[trigger] relation_names()[i]) == i + 1,
        forall|i: int| 0 <= i < 5 ==> implied_by(#[trigger] relation_names()[i]) == relation_names().subrange(0, i).reverse(),
{
    reveal_strlit("viewer");
    reveal_strlit("commenter");
    reveal_strlit("editor");
    reveal_strlit("admin");
    reveal_strlit("owner");
    let n = relation_names();
    assert(n[0].len() == 6 && n[1].len() == 9 && n[2].len() == 6 && n[3].len() == 5 && n[4].len() == 5);
    assert(n[0][0] != n[2][0]);
    assert(n[3][0] != n[4][0]);
    assert(n.subrange(0, 0).reverse() =~= seq![]);
    assert(n.subrange(0, 1).reverse() =~= seq![n[0]]);
    assert(n.subrange(0, 2).reverse() =~= seq![n[1], n[0]]);
    assert(n.subrange(0, 3).reverse() =~= seq![n[2], n[1], n[0]]);
    assert(n.subrange(0, 4).reverse() =~= seq![n[3], n[2], n[1], n[0]]);
}

/// A relation carried by another is one of the five, distinct from and
/// weaker than the one carrying it.
pub proof fn lemma_implied_facts(x: Seq<char>, y: Seq<char>)
    requires
        implied_by(x).contains(y),
    ensures
        relation_names().contains(x),
        relation_names().contains(y),
        x != y,
        level_of(x) > level_of(y),
{
    reveal_strlit("viewer");
    reveal_strlit("commenter");
    reveal_strlit("editor");
    reveal_strlit("admin");
    reveal_strlit("owner");
    let n = relation_names();
    assert(n[0].len() == 6 && n[1].len() == 9 && n[2].len() == 6 && n[3].len() == 5 && n[4].len() == 5);
    assert(n[0][0] != n[2][0]);
    assert(n[3][0] != n[4][0]);
    let i = choose|i: int| 0 <= i < implied_by(x).len() && implied_by(x)[i] == y;
    if x == n[4] {
        assert(n[4] == x);
        assert(n[3 - i] == y);
    } else if x == n[3] {
        assert(n[3] == x);
        assert(n[2 - i] == y);
    } else if x == n[2] {
        assert(n[2] == x);
        assert(n[1 - i] == y);
    } else {
        assert(n[1] == x);
        assert(n[0] == y);
    }
}

/// The fixed relation hierarchy: levels and inheritance of the five relations.
#[derive(Debug, Clone)]
pub struct PermissionHierarchy {
    levels: Vec<(String, u8)>,
    inheritance: Vec<(String, Vec<String>)>,
}

impl Default for PermissionHierarchy {
    fn default() -> (r: Self)
        ensures
            r.wf(),
    {
        PermissionHierarchy::new()
    }
}

impl PermissionHierarchy {
    /// The tables hold the five relations, weakest first, with their levels and inherited relations.
    pub closed spec fn wf(&self) -> bool {
        &&& self.levels@.len() == 5
        &&& self.inheritance@.len() == 5
        &&& forall|i: int|
            0 <= i < 5 ==> {
                &&& (#[trigger] self.levels@[i]).0@ == relation_names()[i]
                &&& self.levels@[i].1 == i + 1
                &&& self.inheritance@[i].0@ == relation_names()[i]
                &&& names_of(self.inheritance@[i].1@) == implied_by(relation_names()[i])
            }
    }

    pub fn new() -> (r: Self)
        ensures
            r.wf(),
    {
        let mut levels: Vec<(String, u8)> = Vec::new();
        levels.push(("viewer".to_string(), 1));
        levels.push(("commenter".to_string(), 2));
        levels.push(("editor".to_string(), 3));
        levels.push(("admin".to_string(), 4));
        levels.push(("owner".to_string(), 5));
        let mut inheritance: Vec<(String, Vec<String>)> = Vec::new();
        inheritance.push(("viewer".to_string(), vec![]));
        inheritance.push(("commenter".to_string(), vec!["viewer".to_string()]));
        inheritance.push(
            ("editor".to_string(), vec!["commenter".to_string(), "viewer".to_string()]),
        );
        inheritance.push(
            (
                "admin".to_string(),
                vec!["editor".to_string(), "commenter".to_string(), "viewer".to_string()],
            ),
        );
        inheritance.push(
            (
                "owner".to_string(),
                vec![
                    "admin".to_string(),
                    "editor".to_string(),
                    "commenter".to_string(),
                    "viewer".to_string(),
                ],
            ),
        );
        let r = PermissionHierarchy { levels, inheritance };
        proof {
            lemma_relation_names();
            assert forall|i: int| 0 <= i < 5 implies names_of(r.inheritance@[i].1@) == implied_by(
                relation_names()[i],
            ) by {
                assert(names_of(r.inheritance@[i].1@) =~= implied_by(relation_names()[i]));
            }
        }
        r
    }

    /// The index of `name` in the tables, if it is one of the five relations.
    fn position(&self, name: &str) -> (r: Option<usize>)
        requires
            self.wf(),
        ensures
            match r {
                Some(i) => i < 5 && relation_names()[i as int] == name@,
                None => level_of(name@) == 0,
            },
    {
        let mut i: usize = 0;
        while i < self.levels.len()
            invariant
                self.wf(),
                i <= 5,
                forall|j: int| 0 <= j < i ==> relation_names()[j] != name@,
            decreases 5 - i,
        {
            if str_eq(self.levels[i].0.as_str(), name) {
                return Some(i);
            }
            i += 1;
        }
        proof {
            assert(relation_names()[0] != name@);
            assert(relation_names()[1] != name@);
            assert(relation_names()[2] != name@);
            assert(relation_names()[3] != name@);
            assert(relation_names()[4] != name@);
        }
        None
    }

    pub fn get_level(&self, permission: &str) -> (r: u8)
        requires
            self.wf(),
        ensures
            r == level_of(permission@),
    {
        proof {
            lemma_relation_names();
        }
        match self.position(permission) {
            Some(i) => self.levels[i].1,
            None => 0,
        }
    }

    /// Whether a holder of `user_permission` may act where `required_permission` is asked.
    pub fn can_access(&self, user_permission: &str, required_permission: &str) -> (r: bool)
        requires
            self.wf(),
        ensures
            r == (level_of(user_permission@) >= level_of(required_permission@)),
    {
        let user_level = self.get_level(user_permission);
        let required_level = self.get_level(required_permission);
        user_level >= required_level
    }

    pub fn get_max_permission_level(&self, permissions: &[String]) -> (r: u8)
        requires
            self.wf(),
        ensures
            r == max_level(names_of(permissions@)),
    {
        let mut best: u8 = 0;
        let mut i: usize = 0;
        while i < permissions.len()
            invariant
                self.wf(),
                i <= permissions@.len(),
                best == max_level(names_of(permissions@).take(i as int)),
            decreases permissions@.len() - i,
        {
            let l = self.get_level(permissions[i].as_str());
            proof {
                let s = names_of(permissions@);
                assert(s.take(i + 1).drop_last() =~= s.take(i as int));
            }
            if l > best {
                best = l;
            }
            i += 1;
        }
        proof {
            assert(names_of(permissions@).take(i as int) =~= names_of(permissions@));
        }
        best
    }

    /// Whether holding `higher_permission` grants `lower_permission`.
    pub fn includes(&self, higher_permission: &str, lower_permission: &str) -> (r: bool)
        requires
            self.wf(),
        ensures
            r == includes_spec(higher_permission@, lower_permission@),
    {
        if str_eq(higher_permission, lower_permission) {
            return true;
        }
        proof {
            lemma_relation_names();
        }
        match self.position(higher_permission) {
            None => false,
            Some(p) => {
                proof {
                    assert(self.levels@[p as int].0@ == relation_names()[p as int]);
                }
                let inherited = &self.inheritance[p].1;
                let mut j: usize = 0;
                while j < inherited.len()
                    invariant
                        self.wf(),
                        p < 5,
                        inherited == &self.inheritance@[p as int].1,
                        names_of(inherited@) == implied_by(higher_permission@),
                        j <= inherited@.len(),
                        forall|k: int| 0 <= k < j ==> inherited@[k]@ != lower_permission@,
                    decreases inherited@.len() - j,
                {
                    if str_eq(inherited[j].as_str(), lower_permission) {
                        proof {
                            assert(names_of(inherited@)[j as int] == lower_permission@);
                        }
                        return true;
                    }
                    j += 1;
                }
                proof {
                    assert forall|k: int|
                        0 <= k < implied_by(higher_permission@).len() implies implied_by(
                        higher_permission@,
                    )[k] != lower_permission@ by {
                        assert(names_of(inherited@)[k] == inherited@[k]@);
                    }
                }
                false
            },
        }
    }

    /// `permission` followed by the relations it carries with it, strongest first.
    pub fn get_inherited_permissions(&self, permission: &str) -> (r: Vec<String>)
        requires
            self.wf(),
        ensures
            names_of(r@) == seq![permission@] + implied_by(permission@),
    {
        let mut result: Vec<String> = vec![permission.to_string()];
        proof {
            lemma_relation_names();
        }
        match self.position(permission) {
            None => {
                proof {
                    assert(names_of(result@) =~= seq![permission@] + implied_by(permission@));
                }
            },
            Some(p) => {
                proof {
                    assert(self.levels@[p as int].0@ == relation_names()[p as int]);
                }
                let inherited = &self.inheritance[p].1;
                let mut j: usize = 0;
                while j < inherited.len()
                    invariant
                        self.wf(),
                        p < 5,
                        inherited == &self.inheritance@[p as int].1,
                        names_of(inherited@) == implied_by(permission@),
                        j <= inherited@.len(),
                        names_of(result@) == seq![permission@] + names_of(inherited@).take(j as int),
                    decreases inherited@.len() - j,
                {
                    let ghost prev = result@;
                    result.push(inherited[j].clone());
                    proof {
                        lemma_names_of_push(prev, inherited@[j as int]);
                        assert(names_of(result@) =~= seq![permission@] + names_of(inherited@).take(
                            j + 1,
                        ));
                    }
                    j += 1;
                }
                proof {
                    assert(names_of(inherited@).take(j as int) =~= names_of(inherited@));
                }
            },
        }
        result
    }

    /// Reorders `permissions` by level, strongest first; equal levels keep their order.
    pub fn sort_by_level(&self, permissions: &mut Vec<String>)
        requires
            self.wf(),
        ensures
            names_of(final(permissions)@) == sorted_by_level(names_of(old(permissions)@)),
    {
        let ghost s = names_of(permissions@);
        let mut out: Vec<String> = Vec::new();
        let mut k: u8 = 6;
        while k > 0
            invariant
                self.wf(),
                k <= 6,
                names_of(permissions@) == s,
                names_of(out@) + levels_down_from(s, k - 1) == levels_down_from(s, 5),
            decreases k,
        {
            k -= 1;
            let ghost before = names_of(out@);
            let mut i: usize = 0;
            while i < permissions.len()
                invariant
                    self.wf(),
                    k <= 5,
                    names_of(permissions@) == s,
                    i <= permissions@.len(),
                    names_of(out@) == before + with_level(s.take(i as int), k as int),
                decreases permissions@.len() - i,
            {
                let l = self.get_level(permissions[i].as_str());
                proof {
                    assert(s.take(i + 1).drop_last() =~= s.take(i as int));
                    assert(s[i as int] == permissions@[i as int]@);
                }
                if l == k {
                    let ghost prev = out@;
                    out.push(permissions[i].clone());
                    proof {
                        lemma_names_of_push(prev, permissions@[i as int]);
                        assert(names_of(out@) =~= before + with_level(s.take(i + 1), k as int));
                    }
                } else {
                    proof {
                        assert(names_of(out@) =~= before + with_level(s.take(i + 1), k as int));
                    }
                }
                i += 1;
            }
            proof {
                assert(s.take(i as int) =~= s);
                assert(levels_down_from(s, k as int) == with_level(s, k as int) + levels_down_from(
                    s,
                    k - 1,
                ));
                assert(names_of(out@) + levels_down_from(s, k - 1) =~= before + levels_down_from(
                    s,
                    k as int,
                ));
            }
        }
        proof {
            assert(levels_down_from(s, -1) =~= seq![]);
            assert(names_of(out@) =~= levels_down_from(s, 5));
        }
        *permissions = out;
    }

    pub fn is_valid_permission(&self, permission: &str) -> (r: bool)
        requires
            self.wf(),
        ensures
            r == (level_of(permission@) != 0),
    {
        proof {
            lemma_relation_names();
        }
        self.position(permission).is_some()
    }

    /// The five relations, strongest first.
    pub fn get_all_permissions(&self) -> (r: Vec<String>)
        requires
            self.wf(),
        ensures
            names_of(r@) == relations_strongest_first(),
    {
        let mut out: Vec<String> = Vec::new();
        let mut i: usize = 5;
        while i > 0
            invariant
                self.wf(),
                i <= 5,
                out@.len() == 5 - i,
                forall|j: int| 0 <= j < 5 - i ==> (#[trigger] out@[j])@ == relation_names()[4 - j],
            decreases i,
        {
            i -= 1;
            out.push(self.levels[i].0.clone());
        }
        proof {
            assert(names_of(out@) =~= relations_strongest_first());
        }
        out
    }
}

/// The outcome of a check together with where the subject's relations came from.
#[derive(Debug, Clone)]
pub struct PermissionCheckResult {
    pub allowed: bool,
    /// The strongest relation seen so far.
    pub user_max_permission: Option<String>,
    pub user_max_level: u8,
    pub required_permission: String,
    pub required_level: u8,
    pub permission_sources: Vec<PermissionSource>,
}

/// One relation that the subject was found to hold, and by what route.
#[derive(Debug, Clone)]
pub struct PermissionSource {
    pub permission: String,
    pub level: u8,
    /// `direct` or `team`.
    pub source_type: String,
    /// The userset through which the relation is held, if any.
    pub source_identifier: Option<String>,
}

/// The characters of an optional string.
pub open spec fn opt_view(o: Option<String>) -> Option<Seq<char>> {
    match o {
        Some(s) => Some(s@),
        None => None,
    }
}

/// `after` is `before` with `source` recorded: the strongest relation is raised
/// when `source` is stronger, and access follows the strongest level.
pub open spec fn source_recorded(
    before: PermissionCheckResult,
    after: PermissionCheckResult,
    source: PermissionSource,
) -> bool {
    &&& after.permission_sources@ == before.permission_sources@.push(source)
    &&& after.required_permission == before.required_permission
    &&& after.required_level == before.required_level
    &&& if source.level > before.user_max_level {
        &&& after.user_max_level == source.level
        &&& opt_view(after.user_max_permission) == Some(source.permission@)
    } else {
        &&& after.user_max_level == before.user_max_level
        &&& after.user_max_permission == before.user_max_permission
    }
    &&& after.allowed == (after.user_max_level >= before.required_level)
}

impl PermissionCheckResult {
    pub fn new(required_permission: &str, hierarchy: &PermissionHierarchy) -> (r: Self)
        requires
            hierarchy.wf(),
        ensures
            !r.allowed,
            r.user_max_permission is None,
            r.user_max_level == 0,
            r.required_permission@ == required_permission@,
            r.required_level == level_of(required_permission@),
            r.permission_sources@.len() == 0,
    {
        let required_level = hierarchy.get_level(required_permission);
        PermissionCheckResult {
            allowed: false,
            user_max_permission: None,
            user_max_level: 0,
            required_permission: required_permission.to_string(),
            required_level,
            permission_sources: Vec::new(),
        }
    }

    pub fn add_permission_source(&mut self, source: PermissionSource)
        ensures
            source_recorded(*old(self), *final(self), source),
    {
        if source.level > self.user_max_level {
            self.user_max_level = source.level;
            self.user_max_permission = Some(source.permission.clone());
        }
        self.permission_sources.push(source);
        self.allowed = self.user_max_level >= self.required_level;
    }

    /// Records a relation held directly by the subject.
    pub fn add_direct_permission(&mut self, permission: &str, hierarchy: &PermissionHierarchy)
        requires
            hierarchy.wf(),
        ensures
            exists|src: PermissionSource|
                {
                    &&& source_recorded(*old(self), *final(self), src)
                    &&& src.permission@ == permission@
                    &&& src.level == level_of(permission@)
                    &&& src.source_type@ == "direct"@
                    &&& src.source_identifier is None
                },
    {
        let level = hierarchy.get_level(permission);
        let source = PermissionSource {
            permission: permission.to_string(),
            level,
            source_type: "direct".to_string(),
            source_identifier: None,
        };
        self.add_permission_source(source);
    }

    /// Records a relation held through a team or other userset.
    pub fn add_team_permission(
        &mut self,
        permission: &str,
        team_identifier: &str,
        hierarchy: &PermissionHierarchy,
    )
        requires
            hierarchy.wf(),
        ensures
            exists|src: PermissionSource|
                {
                    &&& source_recorded(*old(self), *final(self), src)
                    &&& src.permission@ == permission@
                    &&& src.level == level_of(permission@)
                    &&& src.source_type@ == "team"@
                    &&& opt_view(src.source_identifier) == Some(team_identifier@)
                },
    {
        let level = hierarchy.get_level(permission);
        let source = PermissionSource {
            permission: permission.to_string(),
            level,
            source_type: "team".to_string(),
            source_identifier: Some(team_identifier.to_string()),
        };
        self.add_permission_source(source);
    }
}

} // verus!
