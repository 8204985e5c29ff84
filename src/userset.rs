use vstd::prelude::*;
use vstd::string::*;

verus! {

/// `i` is the first position of `c` in `s`.
pub open spec fn is_first(s: Seq<char>, c: char, i: int) -> bool {
    &&& 0 <= i < s.len()
    &&& s[i] == c
    &&& forall|j: int| 0 <= j < i ==> s[j] != c
}

/// `s` cut at the first `c`: the text before it and the text after it.
pub open spec fn split_once(s: Seq<char>, c: char) -> Option<(Seq<char>, Seq<char>)> {
    if exists|i: int| is_first(s, c, i) {
        let i = choose|i: int| is_first(s, c, i);
        Some((s.take(i), s.skip(i + 1)))
    } else {
        None
    }
}

/// A userset reference `NS:OBJ#REL`, cut at the first `:` and then at the first `#`.
pub open spec fn parse_userset(s: Seq<char>) -> Option<(Seq<char>, Seq<char>, Seq<char>)> {
    match split_once(s, ':') {
        Some((ns, rest)) => match split_once(rest, '#') {
            Some((obj, rel)) => Some((ns, obj, rel)),
            None => None,
        },
        None => None,
    }
}

/// Cuts `s` at the first `c`.
pub fn split_at_first(s: &str, c: char) -> (r: Option<(String, String)>)
    ensures
        match r {
            Some((a, b)) => split_once(s@, c) == Some((a@, b@)),
            None => split_once(s@, c) is None,
        },
{
    let n = s.unicode_len();
    let mut i: usize = 0;
    while i < n
        invariant
            n == s@.len(),
            i <= n,
            forall|j: int| 0 <= j < i ==> s@[j] != c,
        decreases n - i,
    {
        if s.get_char(i) == c {
            let before = s.substring_char(0, i).to_string();
            let after = s.substring_char(i + 1, n).to_string();
            proof {
                assert(is_first(s@, c, i as int));
                let k = choose|k: int| is_first(s@, c, k);
                assert(k == i) by {
                    if k < i {
                        assert(s@[k] != c);
                    } else if k > i {
                        assert(s@[i as int] != c);
                    }
                }
                assert(s@.subrange(0, i as int) =~= s@.take(i as int));
                assert(s@.subrange(i + 1, n as int) =~= s@.skip(i + 1));
            }
            return Some((before, after));
        }
        i += 1;
    }
    None
}

/// Reads a userset reference `NS:OBJ#REL`.
pub fn parse_userset_id(s: &str) -> (r: Option<(String, String, String)>)
    ensures
        match r {
            Some((a, b, c)) => parse_userset(s@) == Some((a@, b@, c@)),
            None => parse_userset(s@) is None,
        },
{
    match split_at_first(s, ':') {
        None => None,
        Some((ns, rest)) => match split_at_first(rest.as_str(), '#') {
            None => None,
            Some((obj, rel)) => Some((ns, obj, rel)),
        },
    }
}

} // verus!
