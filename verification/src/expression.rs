//! The expression recognizer: identifier-like names, and opaque expression
//! spans whose only tracked property is their outer delimiters.  The inner
//! syntax of a span is never validated, only copied verbatim into generated
//! code.

use vstd::prelude::*;

verus! {

pub open spec fn is_ident_start(c: char) -> bool {
    ('a' <= c && c <= 'z') || ('A' <= c && c <= 'Z') || c == '_'
}

pub open spec fn is_ident_char(c: char) -> bool {
    is_ident_start(c) || ('0' <= c && c <= '9')
}

/// The end of a run of identifier characters starting at `i`.
pub open spec fn spec_ident_end(s: Seq<char>, i: int) -> int
    decreases s.len() - i,
{
    if i < s.len() && is_ident_char(s[i]) {
        spec_ident_end(s, i + 1)
    } else {
        i
    }
}

/// An identifier-like name: an identifier-start character followed by a run
/// of identifier characters.  `Some(j)` is the position after the name;
/// `None` means the input does not start with an identifier-start character.
pub open spec fn spec_rust_name(s: Seq<char>, i: int) -> Option<int> {
    if i < s.len() && is_ident_start(s[i]) {
        Some(spec_ident_end(s, i + 1))
    } else {
        None
    }
}

/// The position after the `)` that closes an opaque parenthesized span
/// opened just before `i`, tracking nested parentheses; `None` if the input
/// runs out first.
pub open spec fn spec_balanced_end(s: Seq<char>, i: int, depth: nat) -> Option<int>
    decreases s.len() - i,
{
    if i >= s.len() {
        None
    } else if s[i] == ')' {
        if depth == 0 {
            Some(i + 1)
        } else {
            spec_balanced_end(s, i + 1, (depth - 1) as nat)
        }
    } else if s[i] == '(' {
        spec_balanced_end(s, i + 1, depth + 1)
    } else {
        spec_balanced_end(s, i + 1, depth)
    }
}

/// What may follow a name inside an interpolated expression: any run of
/// `.name` field or method selections and `( ... )` call spans.  Returns the
/// position after the whole expression.
pub open spec fn spec_expr_tail(s: Seq<char>, i: int) -> int
    decreases s.len() - i,
{
    if i < s.len() && s[i] == '.' {
        match spec_rust_name(s, i + 1) {
            Some(j) => if i < j <= s.len() {
                spec_expr_tail(s, j)
            } else {
                i
            },
            None => i,
        }
    } else if i < s.len() && s[i] == '(' {
        match spec_balanced_end(s, i + 1, 0) {
            Some(j) => if i < j <= s.len() {
                spec_expr_tail(s, j)
            } else {
                i
            },
            None => i,
        }
    } else {
        i
    }
}

/// An interpolated expression: a name followed by its tail.
pub open spec fn spec_expr_end(s: Seq<char>, i: int) -> Option<int> {
    match spec_rust_name(s, i) {
        Some(j) => if i < j <= s.len() {
            Some(spec_expr_tail(s, j))
        } else {
            None
        },
        None => None,
    }
}

pub fn is_ident_start_char(c: char) -> (r: bool)
    ensures
        r == is_ident_start(c),
{
    ('a' <= c && c <= 'z') || ('A' <= c && c <= 'Z') || c == '_'
}

pub fn is_ident_char_char(c: char) -> (r: bool)
    ensures
        r == is_ident_char(c),
{
    is_ident_start_char(c) || ('0' <= c && c <= '9')
}

pub fn ident_end(s: &str, i: usize) -> (r: usize)
    requires
        i <= s@.len(),
    ensures
        r as int == spec_ident_end(s@, i as int),
        i <= r <= s@.len(),
{
    let n = s.unicode_len();
    let mut p = i;
    loop
        invariant
            i <= p <= n,
            n == s@.len(),
            spec_ident_end(s@, i as int) == spec_ident_end(s@, p as int),
        decreases n - p,
    {
        if p < n && is_ident_char_char(s.get_char(p)) {
            p = p + 1;
        } else {
            return p;
        }
    }
}

/// Recognize an identifier-like name; fails if the input does not start
/// with a valid identifier-start character.
pub fn rust_name(s: &str, i: usize) -> (r: Option<usize>)
    requires
        i <= s@.len(),
    ensures
        spec_rust_name(s@, i as int) == (match r {
            Some(j) => Some(j as int),
            None => None::<int>,
        }),
        r matches Some(j) ==> i < j <= s@.len(),
{
    let n = s.unicode_len();
    if i < n && is_ident_start_char(s.get_char(i)) {
        Some(ident_end(s, i + 1))
    } else {
        None
    }
}

pub fn balanced_end(s: &str, i: usize) -> (r: Option<usize>)
    requires
        i <= s@.len(),
    ensures
        spec_balanced_end(s@, i as int, 0) == (match r {
            Some(j) => Some(j as int),
            None => None::<int>,
        }),
        r matches Some(j) ==> i < j <= s@.len(),
{
    let n = s.unicode_len();
    let mut p = i;
    let mut depth: usize = 0;
    loop
        invariant
            i <= p <= n,
            n == s@.len(),
            depth <= p,
            spec_balanced_end(s@, i as int, 0) == spec_balanced_end(s@, p as int, depth as nat),
        decreases n - p,
    {
        if p >= n {
            return None;
        }
        let c = s.get_char(p);
        if c == ')' {
            if depth == 0 {
                return Some(p + 1);
            }
            depth = depth - 1;
        } else if c == '(' {
            depth = depth + 1;
        }
        p = p + 1;
    }
}

pub fn expr_tail(s: &str, i: usize) -> (r: usize)
    requires
        i <= s@.len(),
    ensures
        r as int == spec_expr_tail(s@, i as int),
        i <= r <= s@.len(),
{
    let n = s.unicode_len();
    let mut p = i;
    loop
        invariant
            i <= p <= n,
            n == s@.len(),
            spec_expr_tail(s@, i as int) == spec_expr_tail(s@, p as int),
        decreases n - p,
    {
        if p < n && s.get_char(p) == '.' {
            match rust_name(s, p + 1) {
                Some(j) => {
                    p = j;
                },
                None => {
                    return p;
                },
            }
        } else if p < n && s.get_char(p) == '(' {
            match balanced_end(s, p + 1) {
                Some(j) => {
                    p = j;
                },
                None => {
                    return p;
                },
            }
        } else {
            return p;
        }
    }
}

/// Recognize one opaque expression span: a name and its tail.  Only the
/// boundaries are tracked; the text between them is copied verbatim.
pub fn expr_end(s: &str, i: usize) -> (r: Option<usize>)
    requires
        i <= s@.len(),
    ensures
        spec_expr_end(s@, i as int) == (match r {
            Some(j) => Some(j as int),
            None => None::<int>,
        }),
        r matches Some(j) ==> i < j <= s@.len(),
{
    match rust_name(s, i) {
        Some(j) => Some(expr_tail(s, j)),
        None => None,
    }
}

} // verus!
