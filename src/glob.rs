use vstd::prelude::*;
use vstd::string::*;

verus! {

/// Whether `s` matches the glob `p`, in which `*` stands for any run of
/// characters and every other character for itself.
pub open spec fn glob_matches(p: Seq<char>, s: Seq<char>) -> bool
    decreases p.len() + s.len(),
{
    if p.len() == 0 {
        s.len() == 0
    } else if p[0] == '*' {
        glob_matches(p.skip(1), s) || (s.len() > 0 && glob_matches(p, s.skip(1)))
    } else {
        s.len() > 0 && s[0] == p[0] && glob_matches(p.skip(1), s.skip(1))
    }
}

/// A common prefix can be matched away.
pub proof fn lemma_glob_prefix(q: Seq<char>, p: Seq<char>, s: Seq<char>)
    requires
        glob_matches(p, s),
    ensures
        glob_matches(q + p, q + s),
    decreases q.len(),
{
    if q.len() > 0 {
        lemma_glob_prefix(q.drop_first(), p, s);
        let pp = q + p;
        let ss = q + s;
        assert(pp.skip(1) =~= q.drop_first() + p);
        assert(ss.skip(1) =~= q.drop_first() + s);
        if q[0] == '*' {
            // the star takes exactly the star it faces
            assert(glob_matches(pp.skip(1), ss.skip(1)));
            assert(glob_matches(pp, ss.skip(1)));
        }
    }
}

/// A lone star matches anything.
pub proof fn lemma_glob_star(s: Seq<char>)
    ensures
        glob_matches(seq!['*'], s),
    decreases s.len(),
{
    let p = seq!['*'];
    assert(p.len() == 1 && p[0] == '*');
    assert(p.skip(1) =~= Seq::<char>::empty());
    if s.len() > 0 {
        lemma_glob_star(s.skip(1));
    } else {
        assert(glob_matches(p.skip(1), s));
    }
}

/// A star followed by `t` matches anything that ends with `t`.
pub proof fn lemma_glob_star_suffix(x: Seq<char>, t: Seq<char>)
    ensures
        glob_matches(seq!['*'] + t, x + t),
    decreases x.len(),
{
    let p = seq!['*'] + t;
    assert(p.skip(1) =~= t);
    if x.len() == 0 {
        assert(x + t =~= t);
        lemma_glob_prefix(t, Seq::empty(), Seq::empty());
        assert(t + Seq::<char>::empty() =~= t);
    } else {
        lemma_glob_star_suffix(x.skip(1), t);
        assert((x + t).skip(1) =~= x.skip(1) + t);
    }
}

/// The characters of `s`, one per element.
pub fn chars_of(s: &str) -> (r: Vec<char>)
    ensures
        r@ == s@,
{
    let n = s.unicode_len();
    let mut out: Vec<char> = Vec::new();
    let mut i: usize = 0;
    while i < n
        invariant
            n == s@.len(),
            i <= n,
            out@ == s@.take(i as int),
        decreases n - i,
    {
        out.push(s.get_char(i));
        proof {
            assert(s@.take(i + 1) =~= s@.take(i as int).push(s@[i as int]));
        }
        i += 1;
    }
    proof {
        assert(s@.take(n as int) =~= s@);
    }
    out
}

fn glob_from(p: &Vec<char>, i: usize, s: &Vec<char>, j: usize) -> (r: bool)
    requires
        i <= p@.len(),
        j <= s@.len(),
    ensures
        r == glob_matches(p@.skip(i as int), s@.skip(j as int)),
    decreases p@.len() - i + s@.len() - j,
{
    proof {
        if i < p@.len() {
            assert(p@.skip(i as int).skip(1) =~= p@.skip(i + 1));
        }
        if j < s@.len() {
            assert(s@.skip(j as int).skip(1) =~= s@.skip(j + 1));
        }
    }
    if i == p.len() {
        return j == s.len();
    }
    if p[i] == '*' {
        if glob_from(p, i + 1, s, j) {
            return true;
        }
        j < s.len() && glob_from(p, i, s, j + 1)
    } else {
        j < s.len() && s[j] == p[i] && glob_from(p, i + 1, s, j + 1)
    }
}

/// Whether `s` matches the glob `pattern`.
pub fn glob_match(pattern: &str, s: &str) -> (r: bool)
    ensures
        r == glob_matches(pattern@, s@),
{
    let p = chars_of(pattern);
    let t = chars_of(s);
    proof {
        assert(p@.skip(0) =~= p@);
        assert(t@.skip(0) =~= t@);
    }
    glob_from(&p, 0, &t, 0)
}

} // verus!
