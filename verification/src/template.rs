//! The top-level template grammar and the generated-function writer.
//!
//! A template file is, in order: leading whitespace and comments, zero or
//! more preamble statements `@stmt;`, exactly one argument list
//! `@(name: Type, ...)`, and a body of constructs parsed to the end of the
//! input.  A parsed template is turned into the text of one statically
//! typed rendering function.

use vstd::prelude::*;
use crate::expression::{is_ident_start, spec_ident_end, spec_rust_name, is_ident_start_char,
    ident_end, rust_name};
use crate::spacelike::{spec_spacelike, spacelike};
use crate::templateexpression::{NodeView, TemplateExpression, spec_body_node, spec_node_code,
    body_node};

verus! {

/// The views of a sequence of owned strings.
pub open spec fn str_views(v: Seq<String>) -> Seq<Seq<char>> {
    v.map_values(|x: String| x@)
}

/// The views of a sequence of parsed body constructs.
pub open spec fn node_views(v: Seq<TemplateExpression>) -> Seq<NodeView> {
    v.map_values(|x: TemplateExpression| x@)
}

// ---------------------------------------------------------------------
// Preamble statements
// ---------------------------------------------------------------------
/// Characters allowed inside a preamble statement: everything but the
/// terminator and parentheses (which open the argument list instead).
pub open spec fn is_stmt_char(c: char) -> bool {
    c != ';' && c != '(' && c != ')'
}

pub open spec fn spec_stmt_end(s: Seq<char>, i: int) -> int
    decreases s.len() - i,
{
    if i < s.len() && is_stmt_char(s[i]) {
        spec_stmt_end(s, i + 1)
    } else {
        i
    }
}

/// Zero or more preamble statements starting at `i`: their texts (without
/// the `@` and `;` marks) and the position after the run.
pub open spec fn spec_preamble(s: Seq<char>, i: int) -> (Seq<Seq<char>>, int)
    decreases s.len() - i,
{
    if i < s.len() && s[i] == '@' {
        let j = spec_stmt_end(s, i + 1);
        if i + 1 < j && j < s.len() && s[j] == ';' {
            let k = spec_spacelike(s, j + 1);
            if i < k <= s.len() {
                let r = spec_preamble(s, k);
                (seq![s.subrange(i + 1, j)] + r.0, r.1)
            } else {
                (Seq::empty(), i)
            }
        } else {
            (Seq::empty(), i)
        }
    } else {
        (Seq::empty(), i)
    }
}

pub fn stmt_end(s: &str, i: usize) -> (r: usize)
    requires
        i <= s@.len(),
    ensures
        r as int == spec_stmt_end(s@, i as int),
        i <= r <= s@.len(),
{
    let n = s.unicode_len();
    let mut p = i;
    loop
        invariant
            i <= p <= n,
            n == s@.len(),
            spec_stmt_end(s@, i as int) == spec_stmt_end(s@, p as int),
        decreases n - p,
    {
        if p < n {
            let c = s.get_char(p);
            if c != ';' && c != '(' && c != ')' {
                p = p + 1;
                continue ;
            }
        }
        return p;
    }
}

pub fn preamble(s: &str, i: usize) -> (r: (Vec<String>, usize))
    requires
        i <= s@.len(),
    ensures
        spec_preamble(s@, i as int).0 == str_views(r.0@),
        spec_preamble(s@, i as int).1 == r.1 as int,
        i <= r.1 <= s@.len(),
{
    let n = s.unicode_len();
    let mut acc: Vec<String> = Vec::new();
    let mut p = i;
    loop
        invariant
            i <= p <= n,
            n == s@.len(),
            spec_preamble(s@, i as int).0 == str_views(acc@) + spec_preamble(s@, p as int).0,
            spec_preamble(s@, i as int).1 == spec_preamble(s@, p as int).1,
        decreases n - p,
    {
        if p < n && s.get_char(p) == '@' {
            let j = stmt_end(s, p + 1);
            if p + 1 < j && j < n && s.get_char(j) == ';' {
                let k = spacelike(s, j + 1);
                let text = s.substring_char(p + 1, j).to_owned();
                acc.push(text);
                proof {
                    assert(str_views(acc@) =~= str_views(acc@.drop_last()) + seq![
                        s@.subrange(p + 1, j as int),
                    ]);
                    assert(str_views(acc@) + spec_preamble(s@, k as int).0 =~= str_views(
                        acc@.drop_last(),
                    ) + (seq![s@.subrange(p + 1, j as int)] + spec_preamble(s@, k as int).0));
                }
                p = k;
                continue ;
            }
        }
        proof {
            assert(spec_preamble(s@, p as int).0 =~= Seq::<Seq<char>>::empty());
            assert(str_views(acc@) + Seq::<Seq<char>>::empty() =~= str_views(acc@));
        }
        return (acc, p);
    }
}

// ---------------------------------------------------------------------
// Type expressions
// ---------------------------------------------------------------------
/// A type expression: an optional reference marker, then a name, an array
/// form `[T]` or a tuple form `(T, T, ...)`, then an optional generic
/// parameter list `<T, T, ...>`.  `Some(j)` is the position after the
/// expression.
pub open spec fn spec_type_expr(s: Seq<char>, i: int) -> Option<int>
    decreases s.len() - i, 0int,
{
    let i0 = if i < s.len() && s[i] == '&' {
        i + 1
    } else {
        i
    };
    let base = if i0 < s.len() && is_ident_start(s[i0]) {
        Some(spec_ident_end(s, i0 + 1))
    } else if i0 < s.len() && s[i0] == '[' {
        match spec_type_expr(s, i0 + 1) {
            Some(j) => if j < s.len() && s[j] == ']' {
                Some(j + 1)
            } else {
                None
            },
            None => None,
        }
    } else if i0 < s.len() && s[i0] == '(' {
        let j = spec_comma_types(s, i0 + 1);
        if j < s.len() && s[j] == ')' {
            Some(j + 1)
        } else {
            None
        }
    } else {
        None
    };
    match base {
        Some(b) => if i < b && b < s.len() && s[b] == '<' {
            let j = spec_comma_types(s, b + 1);
            if j < s.len() && s[j] == '>' {
                Some(j + 1)
            } else {
                Some(b)
            }
        } else {
            Some(b)
        },
        None => None,
    }
}

/// A comma-separated (comma, single space) list of type expressions,
/// possibly empty; never fails, stops before anything it cannot take.
pub open spec fn spec_comma_types(s: Seq<char>, i: int) -> int
    decreases s.len() - i, 2int,
{
    match spec_type_expr(s, i) {
        None => i,
        Some(j) => if i <= j <= s.len() {
            spec_comma_rest(s, j)
        } else {
            i
        },
    }
}

pub open spec fn spec_comma_rest(s: Seq<char>, j: int) -> int
    decreases s.len() - j, 1int,
{
    if j + 2 <= s.len() && s[j] == ',' && s[j + 1] == ' ' {
        match spec_type_expr(s, j + 2) {
            Some(k) => if j < k <= s.len() {
                spec_comma_rest(s, k)
            } else {
                j
            },
            None => j,
        }
    } else {
        j
    }
}

pub fn type_expr(s: &str, i: usize) -> (r: Option<usize>)
    requires
        i <= s@.len(),
    ensures
        spec_type_expr(s@, i as int) == (match r {
            Some(j) => Some(j as int),
            None => None::<int>,
        }),
        r matches Some(j) ==> i < j <= s@.len(),
    decreases s@.len() - i, 0int,
{
    let n = s.unicode_len();
    let i0 = if i < n && s.get_char(i) == '&' {
        i + 1
    } else {
        i
    };
    let base: Option<usize> = if i0 < n && is_ident_start_char(s.get_char(i0)) {
        Some(ident_end(s, i0 + 1))
    } else if i0 < n && s.get_char(i0) == '[' {
        match type_expr(s, i0 + 1) {
            Some(j) => {
                if j < n && s.get_char(j) == ']' {
                    Some(j + 1)
                } else {
                    None
                }
            },
            None => None,
        }
    } else if i0 < n && s.get_char(i0) == '(' {
        let j = comma_types(s, i0 + 1);
        if j < n && s.get_char(j) == ')' {
            Some(j + 1)
        } else {
            None
        }
    } else {
        None
    };
    match base {
        Some(b) => {
            if b < n && s.get_char(b) == '<' {
                let j = comma_types(s, b + 1);
                if j < n && s.get_char(j) == '>' {
                    Some(j + 1)
                } else {
                    Some(b)
                }
            } else {
                Some(b)
            }
        },
        None => None,
    }
}

pub fn comma_types(s: &str, i: usize) -> (r: usize)
    requires
        i <= s@.len(),
    ensures
        r as int == spec_comma_types(s@, i as int),
        i <= r <= s@.len(),
    decreases s@.len() - i, 2int,
{
    match type_expr(s, i) {
        None => i,
        Some(j) => comma_rest(s, j),
    }
}

pub fn comma_rest(s: &str, j: usize) -> (r: usize)
    requires
        j <= s@.len(),
    ensures
        r as int == spec_comma_rest(s@, j as int),
        j <= r <= s@.len(),
    decreases s@.len() - j, 1int,
{
    let n = s.unicode_len();
    if n - j >= 2 && s.get_char(j) == ',' && s.get_char(j + 1) == ' ' {
        match type_expr(s, j + 2) {
            Some(k) => comma_rest(s, k),
            None => j,
        }
    } else {
        j
    }
}

// ---------------------------------------------------------------------
// Formal arguments
// ---------------------------------------------------------------------
/// One formal argument: a name, a colon, a type expression, whitespace
/// allowed around the colon.  `Some(j)` is the position after the whole
/// matched span, which is stored verbatim as the argument's text.
pub open spec fn spec_formal_arg(s: Seq<char>, i: int) -> Option<int> {
    match spec_rust_name(s, i) {
        Some(j) => if i < j <= s.len() {
            let k = spec_spacelike(s, j);
            if j <= k < s.len() && s[k] == ':' {
                let m = spec_spacelike(s, k + 1);
                if k < m <= s.len() {
                    spec_type_expr(s, m)
                } else {
                    None
                }
            } else {
                None
            }
        } else {
            None
        },
        None => None,
    }
}

pub fn formal_arg(s: &str, i: usize) -> (r: Option<usize>)
    requires
        i <= s@.len(),
    ensures
        spec_formal_arg(s@, i as int) == (match r {
            Some(j) => Some(j as int),
            None => None::<int>,
        }),
        r matches Some(j) ==> i < j <= s@.len(),
{
    let n = s.unicode_len();
    match rust_name(s, i) {
        Some(j) => {
            let k = spacelike(s, j);
            if k < n && s.get_char(k) == ':' {
                let m = spacelike(s, k + 1);
                type_expr(s, m)
            } else {
                None
            }
        },
        None => None,
    }
}

/// The comma-separated argument list: the matched spans and the position
/// after the run; possibly empty, never fails.
pub open spec fn spec_arg_rest(s: Seq<char>, j: int) -> (Seq<Seq<char>>, int)
    decreases s.len() - j,
{
    if j + 2 <= s.len() && s[j] == ',' && s[j + 1] == ' ' {
        match spec_formal_arg(s, j + 2) {
            Some(k) => if j < k <= s.len() {
                let r = spec_arg_rest(s, k);
                (seq![s.subrange(j + 2, k)] + r.0, r.1)
            } else {
                (Seq::empty(), j)
            },
            None => (Seq::empty(), j),
        }
    } else {
        (Seq::empty(), j)
    }
}

pub open spec fn spec_arg_list(s: Seq<char>, i: int) -> (Seq<Seq<char>>, int) {
    match spec_formal_arg(s, i) {
        Some(j) => if i < j <= s.len() {
            let r = spec_arg_rest(s, j);
            (seq![s.subrange(i, j)] + r.0, r.1)
        } else {
            (Seq::empty(), i)
        },
        None => (Seq::empty(), i),
    }
}

pub fn arg_rest(s: &str, j: usize, first: String, mut acc: Vec<String>) -> (r: (Vec<String>, usize))
    requires
        j <= s@.len(),
        acc@.len() == 0,
    ensures
        seq![first@] + spec_arg_rest(s@, j as int).0 == str_views(r.0@),
        spec_arg_rest(s@, j as int).1 == r.1 as int,
        j <= r.1 <= s@.len(),
{
    let n = s.unicode_len();
    acc.push(first);
    let mut p = j;
    loop
        invariant
            j <= p <= n,
            n == s@.len(),
            acc@.len() >= 1,
            seq![first@] + spec_arg_rest(s@, j as int).0 == str_views(acc@) + spec_arg_rest(
                s@,
                p as int,
            ).0,
            spec_arg_rest(s@, j as int).1 == spec_arg_rest(s@, p as int).1,
        decreases n - p,
    {
        if n - p >= 2 && s.get_char(p) == ',' && s.get_char(p + 1) == ' ' {
            match formal_arg(s, p + 2) {
                Some(k) => {
                    let text = s.substring_char(p + 2, k).to_owned();
                    acc.push(text);
                    proof {
                        assert(str_views(acc@) =~= str_views(acc@.drop_last()) + seq![
                            s@.subrange(p + 2, k as int),
                        ]);
                        assert(str_views(acc@) + spec_arg_rest(s@, k as int).0 =~= str_views(
                            acc@.drop_last(),
                        ) + (seq![s@.subrange(p + 2, k as int)] + spec_arg_rest(s@, k as int).0));
                    }
                    p = k;
                    continue ;
                },
                None => {},
            }
        }
        proof {
            assert(spec_arg_rest(s@, p as int).0 =~= Seq::<Seq<char>>::empty());
            assert(str_views(acc@) + Seq::<Seq<char>>::empty() =~= str_views(acc@));
        }
        return (acc, p);
    }
}

pub fn arg_list(s: &str, i: usize) -> (r: (Vec<String>, usize))
    requires
        i <= s@.len(),
    ensures
        spec_arg_list(s@, i as int).0 == str_views(r.0@),
        spec_arg_list(s@, i as int).1 == r.1 as int,
        i <= r.1 <= s@.len(),
{
    match formal_arg(s, i) {
        Some(j) => {
            let first = s.substring_char(i, j).to_owned();
            arg_rest(s, j, first, Vec::new())
        },
        None => {
            proof {
                assert(spec_arg_list(s@, i as int).0 =~= str_views(Seq::<String>::empty()));
            }
            (Vec::new(), i)
        },
    }
}

/// The argument-list section: `@(`, the list, `)`, then whitespace.
pub open spec fn spec_args(s: Seq<char>, i: int) -> Option<(Seq<Seq<char>>, int)> {
    if i + 2 <= s.len() && s[i] == '@' && s[i + 1] == '(' {
        let r = spec_arg_list(s, i + 2);
        let j = r.1;
        if i + 2 <= j < s.len() && s[j] == ')' {
            Some((r.0, spec_spacelike(s, j + 1)))
        } else {
            None
        }
    } else {
        None
    }
}

pub fn args_section(s: &str, i: usize) -> (r: Option<(Vec<String>, usize)>)
    requires
        i <= s@.len(),
    ensures
        match r {
            Some((v, j)) => spec_args(s@, i as int) == Some((str_views(v@), j as int)) && i <= j
                <= s@.len(),
            None => spec_args(s@, i as int) matches None,
        },
{
    let n = s.unicode_len();
    if n - i >= 2 && s.get_char(i) == '@' && s.get_char(i + 1) == '(' {
        let (v, j) = arg_list(s, i + 2);
        if j < n && s.get_char(j) == ')' {
            let k = spacelike(s, j + 1);
            Some((v, k))
        } else {
            None
        }
    } else {
        None
    }
}

// ---------------------------------------------------------------------
// The whole template
// ---------------------------------------------------------------------
/// Why a template failed to parse.
#[derive(Clone, Copy, PartialEq, Eq, Structural, Debug)]
pub enum ErrorKind {
    /// The argument list `@( ... )` was missing or malformed (this also
    /// covers a malformed preamble statement, which leaves its `@` in
    /// place where the argument list was expected).
    ArgumentList,
    /// A body construct was malformed; the position is where the
    /// construct started.
    Expression,
}

/// A positional parse failure.  Truncated input is reported the same way:
/// the whole file is in hand, so nothing more can arrive.
#[derive(Clone, Copy, PartialEq, Eq, Structural, Debug)]
pub struct ParseError {
    /// Character position in the input.
    pub pos: usize,
    pub kind: ErrorKind,
}

/// The mathematical value of a parsed template.
pub struct TemplateView {
    pub preamble: Seq<Seq<char>>,
    pub args: Seq<Seq<char>>,
    pub body: Seq<NodeView>,
}

/// What parsing a template yields: a value, or a positional failure.
pub enum SpecParse {
    Parsed(TemplateView),
    Failed(int, ErrorKind),
}

/// A parsed template: ordered verbatim preamble statements, ordered formal
/// arguments (each the exact matched span), and ordered body constructs
/// covering every byte up to the end of the input.
#[derive(Debug)]
pub struct Template {
    pub preamble: Vec<String>,
    pub args: Vec<String>,
    pub body: Vec<TemplateExpression>,
}

impl View for Template {
    type V = TemplateView;

    open spec fn view(&self) -> TemplateView {
        TemplateView {
            preamble: str_views(self.preamble@),
            args: str_views(self.args@),
            body: node_views(self.body@),
        }
    }
}

/// The body: constructs parsed one after another until the end of input;
/// the first malformed construct fails the whole body at its start.
pub open spec fn spec_body(s: Seq<char>, i: int) -> Result<Seq<NodeView>, int>
    decreases s.len() - i,
{
    if i >= s.len() {
        Ok(Seq::empty())
    } else {
        match spec_body_node(s, i) {
            Some((node, j)) => if i < j <= s.len() {
                match spec_body(s, j) {
                    Ok(rest) => Ok(seq![node] + rest),
                    Err(p) => Err(p),
                }
            } else {
                Err(i)
            },
            None => Err(i),
        }
    }
}

pub fn body(s: &str, i: usize) -> (r: Result<Vec<TemplateExpression>, usize>)
    requires
        i <= s@.len(),
    ensures
        match r {
            Ok(v) => spec_body(s@, i as int) == Ok::<Seq<NodeView>, int>(node_views(v@)),
            Err(p) => spec_body(s@, i as int) == Err::<Seq<NodeView>, int>(p as int),
        },
{
    let n = s.unicode_len();
    let mut acc: Vec<TemplateExpression> = Vec::new();
    let mut p = i;
    loop
        invariant
            i <= p <= n,
            n == s@.len(),
            forall|rest: Seq<NodeView>|
                spec_body(s@, p as int) == Ok::<Seq<NodeView>, int>(rest) ==> spec_body(
                    s@,
                    i as int,
                ) == Ok::<Seq<NodeView>, int>(node_views(acc@) + rest),
            forall|q: int|
                spec_body(s@, p as int) == Err::<Seq<NodeView>, int>(q) ==> spec_body(s@, i as int)
                    == Err::<Seq<NodeView>, int>(q),
        decreases n - p,
    {
        if p >= n {
            proof {
                assert(spec_body(s@, p as int) == Ok::<Seq<NodeView>, int>(Seq::empty()));
                assert(node_views(acc@) + Seq::<NodeView>::empty() =~= node_views(acc@));
            }
            return Ok(acc);
        }
        match body_node(s, p) {
            Some((node, j)) => {
                let ghost nv = node@;
                let ghost acc0 = acc@;
                acc.push(node);
                proof {
                    assert(node_views(acc@) =~= node_views(acc0) + seq![nv]);
                    assert forall|rest: Seq<NodeView>|
                        spec_body(s@, j as int) == Ok::<Seq<NodeView>, int>(rest) implies spec_body(
                        s@,
                        i as int,
                    ) == Ok::<Seq<NodeView>, int>(node_views(acc@) + rest) by {
                        assert(spec_body(s@, p as int) == Ok::<Seq<NodeView>, int>(
                            seq![nv] + rest,
                        ));
                        assert(node_views(acc0) + (seq![nv] + rest) =~= node_views(acc@) + rest);
                    }
                    assert forall|q: int|
                        spec_body(s@, j as int) == Err::<Seq<NodeView>, int>(q) implies spec_body(
                        s@,
                        i as int,
                    ) == Err::<Seq<NodeView>, int>(q) by {
                        assert(spec_body(s@, p as int) == Err::<Seq<NodeView>, int>(q));
                    }
                }
                p = j;
            },
            None => {
                return Err(p);
            },
        }
    }
}

/// Parse one whole template from its file's text.
///
/// On success the template's body accounts for every character up to the
/// end of the input.  On failure the error carries the position and the
/// kind of the first problem.
pub fn template(s: &str) -> (r: Result<Template, ParseError>)
    ensures
        match r {
            Ok(t) => spec_template(s@) == SpecParse::Parsed(t@),
            Err(e) => spec_template(s@) == SpecParse::Failed(e.pos as int, e.kind),
        },
{
    let i0 = spacelike(s, 0);
    let (pre, i1) = preamble(s, i0);
    match args_section(s, i1) {
        Some((args, i2)) => {
            match body(s, i2) {
                Ok(b) => Ok(Template { preamble: pre, args, body: b }),
                Err(p) => Err(ParseError { pos: p, kind: ErrorKind::Expression }),
            }
        },
        None => Err(ParseError { pos: i1, kind: ErrorKind::ArgumentList }),
    }
}

/// Parsing a whole template: leading space, preamble, argument list, body.
pub open spec fn spec_template(s: Seq<char>) -> SpecParse {
    let i0 = spec_spacelike(s, 0);
    let pre = spec_preamble(s, i0);
    match spec_args(s, pre.1) {
        Some((args, i2)) => match spec_body(s, i2) {
            Ok(b) => SpecParse::Parsed(TemplateView { preamble: pre.0, args, body: b }),
            Err(p) => SpecParse::Failed(p, ErrorKind::Expression),
        },
        None => SpecParse::Failed(pre.1, ErrorKind::ArgumentList),
    }
}

/// Determinism of parsing: identical input text always parses to the
/// identical outcome, value and failure position alike.
pub proof fn lemma_parse_deterministic(a: Seq<char>, b: Seq<char>)
    requires
        a == b,
    ensures
        spec_template(a) == spec_template(b),
{
}

impl ParseError {
    /// The positional message for this failure.
    pub fn message(&self) -> (r: String)
        ensures
            r@ == spec_error_message(self.pos as nat, self.kind),
    {
        let mut out = String::from_str("error at char ");
        crate::decimal::append_decimal(&mut out, self.pos as u64);
        match self.kind {
            ErrorKind::ArgumentList => out.append(": expected argument list"),
            ErrorKind::Expression => out.append(": error in expression starting here"),
        }
        out
    }
}

pub open spec fn spec_error_message(pos: nat, kind: ErrorKind) -> Seq<char> {
    "error at char "@ + crate::decimal::spec_decimal(pos) + (match kind {
        ErrorKind::ArgumentList => ": expected argument list"@,
        ErrorKind::Expression => ": error in expression starting here"@,
    })
}

// ---------------------------------------------------------------------
// Code generation
// ---------------------------------------------------------------------
/// Whether the argument list declares the deferred-content slot: an
/// argument whose exact text is `content: Content`.
pub open spec fn spec_contains_content(args: Seq<Seq<char>>) -> bool {
    exists|k: int| 0 <= k < args.len() && args[k] == "content: Content"@
}

/// The preamble's code: each statement verbatim, terminated.
pub open spec fn spec_stmts_code(pre: Seq<Seq<char>>) -> Seq<char>
    decreases pre.len(),
{
    if pre.len() == 0 {
        Seq::empty()
    } else {
        pre[0] + ";\n"@ + spec_stmts_code(pre.skip(1))
    }
}

/// The declared arguments as they stand in the generated signature, each
/// after the output-sink parameter.
pub open spec fn spec_args_code(args: Seq<Seq<char>>) -> Seq<char>
    decreases args.len(),
{
    if args.len() == 0 {
        Seq::empty()
    } else {
        ", "@ + args[0] + spec_args_code(args.skip(1))
    }
}

/// The ordered concatenation of every body construct's code fragment.
pub open spec fn spec_body_code(body: Seq<NodeView>) -> Seq<char>
    decreases body.len(),
{
    if body.len() == 0 {
        Seq::empty()
    } else {
        spec_node_code(body[0]) + spec_body_code(body.skip(1))
    }
}

pub proof fn lemma_stmts_code_step(pre: Seq<Seq<char>>, i: int)
    requires
        0 <= i < pre.len(),
    ensures
        spec_stmts_code(pre.take(i + 1)) == spec_stmts_code(pre.take(i)) + pre[i] + ";\n"@,
    decreases i,
{
    if i == 0 {
        assert(pre.take(1) =~= seq![pre[0]]);
        assert(pre.take(0) =~= Seq::<Seq<char>>::empty());
        reveal_with_fuel(spec_stmts_code, 2);
        assert(seq![pre[0]].skip(1) =~= Seq::<Seq<char>>::empty());
        assert(spec_stmts_code(pre.take(1)) =~= spec_stmts_code(pre.take(0)) + pre[0] + ";\n"@);
    } else {
        lemma_stmts_code_step(pre.skip(1), i - 1);
        assert(pre.take(i + 1).skip(1) =~= pre.skip(1).take(i));
        assert(pre.take(i).skip(1) =~= pre.skip(1).take(i - 1));
        assert(pre.take(i + 1)[0] == pre[0]);
        assert(pre.take(i)[0] == pre[0]);
        assert(pre.skip(1)[i - 1] == pre[i]);
        assert(spec_stmts_code(pre.take(i + 1)) == pre[0] + ";\n"@ + spec_stmts_code(
            pre.skip(1).take(i),
        ));
        assert(spec_stmts_code(pre.take(i + 1)) =~= spec_stmts_code(pre.take(i)) + pre[i]
            + ";\n"@);
    }
}

pub proof fn lemma_args_code_step(args: Seq<Seq<char>>, i: int)
    requires
        0 <= i < args.len(),
    ensures
        spec_args_code(args.take(i + 1)) == spec_args_code(args.take(i)) + ", "@ + args[i],
    decreases i,
{
    if i == 0 {
        assert(args.take(1) =~= seq![args[0]]);
        assert(args.take(0) =~= Seq::<Seq<char>>::empty());
        reveal_with_fuel(spec_args_code, 2);
        assert(seq![args[0]].skip(1) =~= Seq::<Seq<char>>::empty());
        assert(spec_args_code(args.take(1)) =~= spec_args_code(args.take(0)) + ", "@ + args[0]);
    } else {
        lemma_args_code_step(args.skip(1), i - 1);
        assert(args.take(i + 1).skip(1) =~= args.skip(1).take(i));
        assert(args.take(i).skip(1) =~= args.skip(1).take(i - 1));
        assert(args.take(i + 1)[0] == args[0]);
        assert(args.take(i)[0] == args[0]);
        assert(args.skip(1)[i - 1] == args[i]);
        assert(spec_args_code(args.take(i + 1)) == ", "@ + args[0] + spec_args_code(
            args.skip(1).take(i),
        ));
        assert(spec_args_code(args.take(i + 1)) =~= spec_args_code(args.take(i)) + ", "@
            + args[i]);
    }
}

pub proof fn lemma_body_code_step(body: Seq<NodeView>, i: int)
    requires
        0 <= i < body.len(),
    ensures
        spec_body_code(body.take(i + 1)) == spec_body_code(body.take(i)) + spec_node_code(body[i]),
    decreases i,
{
    if i == 0 {
        assert(body.take(1) =~= seq![body[0]]);
        assert(body.take(0) =~= Seq::<NodeView>::empty());
        reveal_with_fuel(spec_body_code, 2);
        assert(seq![body[0]].skip(1) =~= Seq::<NodeView>::empty());
        assert(spec_body_code(body.take(1)) =~= spec_body_code(body.take(0)) + spec_node_code(
            body[0],
        ));
    } else {
        lemma_body_code_step(body.skip(1), i - 1);
        assert(body.take(i + 1).skip(1) =~= body.skip(1).take(i));
        assert(body.take(i).skip(1) =~= body.skip(1).take(i - 1));
        assert(body.take(i + 1)[0] == body[0]);
        assert(body.take(i)[0] == body[0]);
        assert(body.skip(1)[i - 1] == body[i]);
        assert(spec_body_code(body.take(i + 1)) == spec_node_code(body[0]) + spec_body_code(
            body.skip(1).take(i),
        ));
        assert(spec_body_code(body.take(i + 1)) =~= spec_body_code(body.take(i)) + spec_node_code(
            body[i],
        ));
    }
}

/// The complete generated rendering function for one template: fixed
/// boilerplate importing the escaping runtime, the preamble verbatim, a
/// function named after the file's base name taking the output sink first
/// and each declared argument in order, generic over the content callback
/// exactly when the deferred-content slot is declared, returning only
/// I/O-class failure, and ending in an explicit success return.
pub open spec fn spec_rust_source(t: TemplateView, name: Seq<char>) -> Seq<char> {
    "use std::io::{self, Write};\n#[allow(unused)]\nuse ::templates::{Html,ToHtml};\n"@
        + spec_stmts_code(t.preamble) + "\npub fn "@ + name + (if spec_contains_content(t.args) {
        "<Content>"@
    } else {
        Seq::<char>::empty()
    }) + "(out: &mut Write"@ + spec_args_code(t.args) + ")\n-> io::Result<()> "@ + (
    if spec_contains_content(t.args) {
        "\nwhere Content: FnOnce(&mut Write) -> io::Result<()>"@
    } else {
        Seq::<char>::empty()
    }) + "{\n"@ + spec_body_code(t.body) + "Ok(())\n}\n"@
}

/// Generic-argument rule: a declared argument whose text is exactly
/// `content: Content` makes the generated function generic over the
/// content-callback type, bound to be invocable once with the writable
/// output sink and returning a result; any other argument set leaves the
/// generated function non-generic, with no extra type parameter and no
/// bound.
pub proof fn lemma_generic_argument_rule(t: TemplateView, name: Seq<char>)
    ensures
        spec_contains_content(t.args) ==> spec_rust_source(t, name) == "use std::io::{self, Write};\n#[allow(unused)]\nuse ::templates::{Html,ToHtml};\n"@
            + spec_stmts_code(t.preamble) + "\npub fn "@ + name + "<Content>"@
            + "(out: &mut Write"@ + spec_args_code(t.args) + ")\n-> io::Result<()> "@
            + "\nwhere Content: FnOnce(&mut Write) -> io::Result<()>"@ + "{\n"@ + spec_body_code(
            t.body,
        ) + "Ok(())\n}\n"@,
        !spec_contains_content(t.args) ==> spec_rust_source(t, name) == "use std::io::{self, Write};\n#[allow(unused)]\nuse ::templates::{Html,ToHtml};\n"@
            + spec_stmts_code(t.preamble) + "\npub fn "@ + name + "(out: &mut Write"@
            + spec_args_code(t.args) + ")\n-> io::Result<()> "@ + "{\n"@ + spec_body_code(t.body)
            + "Ok(())\n}\n"@,
{
    if spec_contains_content(t.args) {
        assert(spec_rust_source(t, name) =~= "use std::io::{self, Write};\n#[allow(unused)]\nuse ::templates::{Html,ToHtml};\n"@
            + spec_stmts_code(t.preamble) + "\npub fn "@ + name + "<Content>"@
            + "(out: &mut Write"@ + spec_args_code(t.args) + ")\n-> io::Result<()> "@
            + "\nwhere Content: FnOnce(&mut Write) -> io::Result<()>"@ + "{\n"@ + spec_body_code(
            t.body,
        ) + "Ok(())\n}\n"@);
    } else {
        assert(spec_rust_source(t, name) =~= "use std::io::{self, Write};\n#[allow(unused)]\nuse ::templates::{Html,ToHtml};\n"@
            + spec_stmts_code(t.preamble) + "\npub fn "@ + name + "(out: &mut Write"@
            + spec_args_code(t.args) + ")\n-> io::Result<()> "@ + "{\n"@ + spec_body_code(t.body)
            + "Ok(())\n}\n"@);
    }
}

/// Whether this template declares the deferred-content slot.
pub fn has_content_arg(args: &Vec<String>) -> (r: bool)
    ensures
        r == spec_contains_content(str_views(args@)),
{
    let needle = String::from_str("content: Content");
    let mut i: usize = 0;
    while i < args.len()
        invariant
            i <= args.len(),
            needle@ == "content: Content"@,
            forall|k: int| 0 <= k < i ==> str_views(args@)[k] != "content: Content"@,
        decreases args.len() - i,
    {
        if args[i].eq(&needle) {
            assert(str_views(args@)[i as int] == args@[i as int]@);
            return true;
        }
        assert(str_views(args@)[i as int] == args@[i as int]@);
        i = i + 1;
    }
    false
}

impl Template {
    /// Append the generated rendering function for this template, named
    /// after the file's base name, to `out`.
    pub fn write_rust(&self, out: &mut String, name: &str)
        ensures
            final(out)@ == old(out)@ + spec_rust_source(self@, name@),
    {
        let ghost orig = out@;
        out.append(
            "use std::io::{self, Write};\n#[allow(unused)]\nuse ::templates::{Html,ToHtml};\n",
        );
        let ghost h1 = out@;
        let mut i: usize = 0;
        while i < self.preamble.len()
            invariant
                i <= self.preamble.len(),
                out@ == h1 + spec_stmts_code(str_views(self.preamble@).take(i as int)),
                h1 == orig
                    + "use std::io::{self, Write};\n#[allow(unused)]\nuse ::templates::{Html,ToHtml};\n"@,
            decreases self.preamble.len() - i,
        {
            proof {
                lemma_stmts_code_step(str_views(self.preamble@), i as int);
                assert(str_views(self.preamble@)[i as int] == self.preamble@[i as int]@);
            }
            out.append(self.preamble[i].as_str());
            out.append(";\n");
            i = i + 1;
        }
        proof {
            assert(str_views(self.preamble@).take(self.preamble@.len() as int) =~= str_views(
                self.preamble@,
            ));
        }
        let generic = has_content_arg(&self.args);
        out.append("\npub fn ");
        out.append(name);
        if generic {
            out.append("<Content>");
        }
        out.append("(out: &mut Write");
        let ghost h2 = out@;
        let mut i: usize = 0;
        while i < self.args.len()
            invariant
                i <= self.args.len(),
                out@ == h2 + spec_args_code(str_views(self.args@).take(i as int)),
            decreases self.args.len() - i,
        {
            proof {
                lemma_args_code_step(str_views(self.args@), i as int);
                assert(str_views(self.args@)[i as int] == self.args@[i as int]@);
            }
            out.append(", ");
            out.append(self.args[i].as_str());
            i = i + 1;
        }
        proof {
            assert(str_views(self.args@).take(self.args@.len() as int) =~= str_views(self.args@));
        }
        out.append(")\n-> io::Result<()> ");
        if generic {
            out.append("\nwhere Content: FnOnce(&mut Write) -> io::Result<()>");
        }
        out.append("{\n");
        let ghost h3 = out@;
        let mut i: usize = 0;
        while i < self.body.len()
            invariant
                i <= self.body.len(),
                out@ == h3 + spec_body_code(node_views(self.body@).take(i as int)),
            decreases self.body.len() - i,
        {
            proof {
                lemma_body_code_step(node_views(self.body@), i as int);
                assert(node_views(self.body@)[i as int] == self.body@[i as int]@);
            }
            let fragment = self.body[i].code();
            out.append(fragment.as_str());
            i = i + 1;
        }
        proof {
            assert(node_views(self.body@).take(self.body@.len() as int) =~= node_views(
                self.body@,
            ));
        }
        out.append("Ok(())\n}\n");
        proof {
            assert(out@ =~= orig + spec_rust_source(self@, name@));
        }
    }
}

} // verus!
