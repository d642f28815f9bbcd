use vstd::prelude::*;

use crate::japanese::chars_of;

verus! {

/// Where an implicit wildcard may absorb extra characters when a pattern is
/// matched against a text.
#[derive(Debug, Clone, Copy, PartialEq, Eq, Structural)]
pub enum SearchMode {
    /// The pattern is the whole text.
    Exact,
    /// The text may have anything before the pattern: the pattern is a suffix.
    LeftVariable,
    /// The text may have anything after the pattern: the pattern is a prefix.
    RightVariable,
    /// Both sides may float: the pattern occurs somewhere in the text.
    Variable,
}

/// `p` occurs in `t` starting at position `k`.
pub open spec fn occurs_at(p: Seq<char>, t: Seq<char>, k: int) -> bool {
    0 <= k && k + p.len() <= t.len() && t.subrange(k, k + p.len()) == p
}

pub open spec fn is_prefix(p: Seq<char>, t: Seq<char>) -> bool {
    occurs_at(p, t, 0)
}

pub open spec fn is_suffix(p: Seq<char>, t: Seq<char>) -> bool {
    occurs_at(p, t, t.len() - p.len())
}

pub open spec fn is_infix(p: Seq<char>, t: Seq<char>) -> bool {
    exists|k: int| occurs_at(p, t, k)
}

/// Whether pattern `p` matches text `t` under `mode`.
pub open spec fn mode_matches(mode: SearchMode, p: Seq<char>, t: Seq<char>) -> bool {
    match mode {
        SearchMode::Exact => p == t,
        SearchMode::LeftVariable => is_suffix(p, t),
        SearchMode::RightVariable => is_prefix(p, t),
        SearchMode::Variable => is_infix(p, t),
    }
}

fn occurs_at_exec(p: &Vec<char>, t: &Vec<char>, k: usize) -> (r: bool)
    requires
        k + p@.len() <= t@.len(),
    ensures
        r == occurs_at(p@, t@, k as int),
{
    let tl = t.len();
    let mut j: usize = 0;
    while j < p.len()
        invariant
            tl == t@.len(),
            k + p@.len() <= t@.len(),
            j <= p@.len(),
            forall|m: int| 0 <= m < j ==> t@[k + m] == p@[m],
        decreases p@.len() - j,
    {
        if t[k + j] != p[j] {
            assert(t@.subrange(k as int, k + p@.len())[j as int] != p@[j as int]);
            return false;
        }
        j = j + 1;
    }
    assert(t@.subrange(k as int, k + p@.len()) =~= p@);
    true
}

impl SearchMode {
    /// Whether pattern `p` matches text `t`, both given as characters.
    pub fn matches_chars(&self, p: &Vec<char>, t: &Vec<char>) -> (r: bool)
        ensures
            r == mode_matches(*self, p@, t@),
    {
        if p.len() > t.len() {
            assert(!is_infix(p@, t@));
            return false;
        }
        match *self {
            SearchMode::Exact => {
                if p.len() != t.len() {
                    return false;
                }
                let r = occurs_at_exec(p, t, 0);
                assert(t@.subrange(0, t@.len() as int) =~= t@);
                r
            },
            SearchMode::LeftVariable => occurs_at_exec(p, t, t.len() - p.len()),
            SearchMode::RightVariable => occurs_at_exec(p, t, 0),
            SearchMode::Variable => {
                let last = t.len() - p.len();
                let mut k: usize = 0;
                while k < last
                    invariant
                        *self == SearchMode::Variable,
                        last == t@.len() - p@.len(),
                        k <= last,
                        forall|m: int| 0 <= m < k ==> !occurs_at(p@, t@, m),
                    decreases last - k,
                {
                    if occurs_at_exec(p, t, k) {
                        assert(occurs_at(p@, t@, k as int));
                        assert(is_infix(p@, t@));
                        return true;
                    }
                    k = k + 1;
                }
                let r = occurs_at_exec(p, t, last);
                assert(r ==> occurs_at(p@, t@, last as int));
                assert(!r ==> forall|m: int| !occurs_at(p@, t@, m));
                r
            },
        }
    }

    /// Whether pattern `p` matches text `t`: equal (`Exact`), a suffix of it
    /// (`LeftVariable`), a prefix of it (`RightVariable`), or a part of it
    /// (`Variable`).
    pub fn matches(&self, p: &str, t: &str) -> (r: bool)
        ensures
            r == mode_matches(*self, p@, t@),
    {
        let pv = chars_of(p);
        let tv = chars_of(t);
        self.matches_chars(&pv, &tv)
    }
}

} // verus!
