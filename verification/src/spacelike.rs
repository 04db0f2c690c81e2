//! The spacelike scanner: consumes zero or more whitespace and comment
//! spans from the front of the remaining input.  It never fails, and it is
//! the separator between every adjacent pair of grammar tokens.
//!
//! Positions are character indices into the input.  Every scanner has a
//! spec-level twin over `Seq<char>`; the executable scanner is proved to
//! return exactly what the twin says.

use vstd::prelude::*;

verus! {

pub open spec fn is_space(c: char) -> bool {
    c == ' ' || c == '\t' || c == '\r' || c == '\n'
}

/// Where a comment opened before position `i` ends: the position just after
/// the closing `*@`, or `None` if the input runs out first.
pub open spec fn spec_comment_end(s: Seq<char>, i: int) -> Option<int>
    decreases s.len() - i,
{
    if i + 2 > s.len() {
        None
    } else if s[i] == '*' && s[i + 1] == '@' {
        Some(i + 2)
    } else {
        spec_comment_end(s, i + 1)
    }
}

/// The position after all whitespace and `@* ... *@` comment spans
/// starting at `i`.  An unterminated comment opener is left in place.
pub open spec fn spec_spacelike(s: Seq<char>, i: int) -> int
    decreases s.len() - i,
{
    if i < s.len() && is_space(s[i]) {
        spec_spacelike(s, i + 1)
    } else if i + 2 <= s.len() && s[i] == '@' && s[i + 1] == '*' {
        match spec_comment_end(s, i + 2) {
            Some(j) => if i < j <= s.len() {
                spec_spacelike(s, j)
            } else {
                i
            },
            None => i,
        }
    } else {
        i
    }
}

pub proof fn lemma_spacelike_bounds(s: Seq<char>, i: int)
    requires
        0 <= i <= s.len(),
    ensures
        i <= spec_spacelike(s, i) <= s.len(),
    decreases s.len() - i,
{
    if i < s.len() && is_space(s[i]) {
        lemma_spacelike_bounds(s, i + 1);
    } else if i + 2 <= s.len() && s[i] == '@' && s[i + 1] == '*' {
        match spec_comment_end(s, i + 2) {
            Some(j) => {
                if i < j <= s.len() {
                    lemma_spacelike_bounds(s, j);
                }
            },
            None => {},
        }
    }
}

pub fn comment_end(s: &str, i: usize) -> (r: Option<usize>)
    requires
        i <= s@.len(),
    ensures
        spec_comment_end(s@, i as int) == (match r {
            Some(j) => Some(j as int),
            None => None::<int>,
        }),
        r matches Some(j) ==> i + 2 <= j <= s@.len(),
{
    let n = s.unicode_len();
    let mut p = i;
    loop
        invariant
            i <= p <= n,
            n == s@.len(),
            spec_comment_end(s@, i as int) == spec_comment_end(s@, p as int),
        decreases n - p,
    {
        if n - p < 2 {
            return None;
        }
        let c0 = s.get_char(p);
        let c1 = s.get_char(p + 1);
        if c0 == '*' && c1 == '@' {
            return Some(p + 2);
        }
        p = p + 1;
    }
}

pub fn is_space_char(c: char) -> (r: bool)
    ensures
        r == is_space(c),
{
    c == ' ' || c == '\t' || c == '\r' || c == '\n'
}

/// Skip whitespace and comments; never fails.
pub fn spacelike(s: &str, i: usize) -> (r: usize)
    requires
        i <= s@.len(),
    ensures
        r as int == spec_spacelike(s@, i as int),
        i <= r <= s@.len(),
{
    let n = s.unicode_len();
    let mut p = i;
    loop
        invariant
            i <= p <= n,
            n == s@.len(),
            spec_spacelike(s@, i as int) == spec_spacelike(s@, p as int),
        decreases n - p,
    {
        if p < n && is_space_char(s.get_char(p)) {
            p = p + 1;
        } else if n - p >= 2 && s.get_char(p) == '@' && s.get_char(p + 1) == '*' {
            match comment_end(s, p + 2) {
                Some(j) => {
                    p = j;
                },
                None => {
                    return p;
                },
            }
        } else {
            return p;
        }
    }
}

} // verus!
