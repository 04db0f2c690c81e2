//! One body construct of a template, with its deterministic code-emission
//! rule.  A construct is literal text, a comment, an escaped interpolation
//! `@expr`, or a deferred-content call `@:name(args)` that hands the output
//! sink to another rendering function.

use vstd::prelude::*;
use crate::expression::{spec_rust_name, spec_balanced_end, spec_expr_end, rust_name, balanced_end,
    expr_end};
use crate::spacelike::spec_comment_end;
use crate::spacelike::comment_end;

verus! {

/// The mathematical value of one body construct.
pub enum NodeView {
    Comment,
    Text(Seq<char>),
    Expression(Seq<char>),
    Call(Seq<char>, Seq<char>),
}

/// One parsed body construct.
#[derive(Debug)]
pub enum TemplateExpression {
    /// A `@* ... *@` comment: emits nothing.
    Comment,
    /// Literal text, emitted through the sink unchanged.
    Text { text: String },
    /// `@expr`: the value's text is rendered HTML-escaped.
    Expression { expr: String },
    /// `@:name(args)`: a call handing the output sink to another
    /// rendering function, the deferred-content composition form.
    Call { name: String, args: String },
}

impl View for TemplateExpression {
    type V = NodeView;

    open spec fn view(&self) -> NodeView {
        match self {
            TemplateExpression::Comment => NodeView::Comment,
            TemplateExpression::Text { text } => NodeView::Text(text@),
            TemplateExpression::Expression { expr } => NodeView::Expression(expr@),
            TemplateExpression::Call { name, args } => NodeView::Call(name@, args@),
        }
    }
}

/// The end of a run of literal text: the next `@` or the end of input.
pub open spec fn spec_text_end(s: Seq<char>, i: int) -> int
    decreases s.len() - i,
{
    if i < s.len() && s[i] != '@' {
        spec_text_end(s, i + 1)
    } else {
        i
    }
}

/// The longest body construct starting at `i`: the node and the position
/// after it, or `None` for a malformed construct (reported at `i`).
pub open spec fn spec_body_node(s: Seq<char>, i: int) -> Option<(NodeView, int)> {
    if i >= s.len() {
        None
    } else if s[i] == '@' {
        if i + 1 < s.len() && s[i + 1] == '*' {
            match spec_comment_end(s, i + 2) {
                Some(j) => if i < j <= s.len() {
                    Some((NodeView::Comment, j))
                } else {
                    None
                },
                None => None,
            }
        } else if i + 1 < s.len() && s[i + 1] == ':' {
            match spec_rust_name(s, i + 2) {
                Some(j) => if i + 2 <= j && j < s.len() && s[j] == '(' {
                    match spec_balanced_end(s, j + 1, 0) {
                        Some(k) => if j + 1 <= k - 1 && k <= s.len() {
                            Some(
                                (
                                    NodeView::Call(s.subrange(i + 2, j), s.subrange(j + 1, k - 1)),
                                    k,
                                ),
                            )
                        } else {
                            None
                        },
                        None => None,
                    }
                } else {
                    None
                },
                None => None,
            }
        } else {
            match spec_expr_end(s, i + 1) {
                Some(j) => if i < j <= s.len() {
                    Some((NodeView::Expression(s.subrange(i + 1, j)), j))
                } else {
                    None
                },
                None => None,
            }
        }
    } else {
        let j = spec_text_end(s, i + 1);
        if i < j <= s.len() {
            Some((NodeView::Text(s.subrange(i, j)), j))
        } else {
            None
        }
    }
}

/// How one character of literal text is written inside a generated Rust
/// string literal: backslash, quote and the common control characters are
/// escaped, every other character stands for itself.
pub open spec fn lit_escape_char(c: char) -> Seq<char> {
    if c == '\\' {
        "\\\\"@
    } else if c == '"' {
        "\\\""@
    } else if c == '\n' {
        "\\n"@
    } else if c == '\r' {
        "\\r"@
    } else if c == '\t' {
        "\\t"@
    } else {
        seq![c]
    }
}

/// Text written as the inside of a generated Rust string literal.
pub open spec fn lit_escaped(s: Seq<char>) -> Seq<char>
    decreases s.len(),
{
    if s.len() == 0 {
        Seq::empty()
    } else {
        lit_escape_char(s[0]) + lit_escaped(s.skip(1))
    }
}

pub proof fn lemma_lit_escaped_concat(a: Seq<char>, b: Seq<char>)
    ensures
        lit_escaped(a + b) == lit_escaped(a) + lit_escaped(b),
    decreases a.len(),
{
    if a.len() == 0 {
        assert(a + b =~= b);
        assert(lit_escaped(a) + lit_escaped(b) =~= lit_escaped(b));
    } else {
        assert((a + b).skip(1) =~= a.skip(1) + b);
        lemma_lit_escaped_concat(a.skip(1), b);
        assert(lit_escaped(a + b) =~= lit_escaped(a) + lit_escaped(b));
    }
}

/// Escape text for embedding in a generated Rust string literal.
pub fn lit_escape(s: &str) -> (r: String)
    ensures
        r@ == lit_escaped(s@),
{
    let n = s.unicode_len();
    let mut out = String::new();
    let mut i: usize = 0;
    while i < n
        invariant
            i <= n,
            n == s@.len(),
            out@ == lit_escaped(s@.take(i as int)),
        decreases n - i,
    {
        let c = s.get_char(i);
        proof {
            assert(s@.take(i + 1) =~= s@.take(i as int) + seq![s@[i as int]]);
            lemma_lit_escaped_concat(s@.take(i as int), seq![s@[i as int]]);
            reveal_with_fuel(lit_escaped, 2);
            assert(seq![s@[i as int]].skip(1) =~= Seq::<char>::empty());
            assert(lit_escaped(seq![s@[i as int]]) =~= lit_escape_char(s@[i as int]));
        }
        if c == '\\' {
            out.append("\\\\");
        } else if c == '"' {
            out.append("\\\"");
        } else if c == '\n' {
            out.append("\\n");
        } else if c == '\r' {
            out.append("\\r");
        } else if c == '\t' {
            out.append("\\t");
        } else {
            crate::template_utils::push_char(&mut out, c);
            proof {
                assert(lit_escaped(s@.take(i as int)).push(c) =~= lit_escaped(s@.take(i as int))
                    + seq![c]);
            }
        }
        i = i + 1;
    }
    proof {
        assert(s@.take(n as int) =~= s@);
    }
    out
}

/// The code fragment one body construct emits into the generated function.
pub open spec fn spec_node_code(n: NodeView) -> Seq<char> {
    match n {
        NodeView::Comment => Seq::empty(),
        NodeView::Text(t) => "try!(write!(out, \"{}\", \""@ + lit_escaped(t) + "\"));\n"@,
        NodeView::Expression(e) => "try!("@ + e + ".to_html(out));\n"@,
        NodeView::Call(name, args) => if args.len() == 0 {
            "try!("@ + name + "(out));\n"@
        } else {
            "try!("@ + name + "(out, "@ + args + "));\n"@
        },
    }
}

impl TemplateExpression {
    /// Produce this construct's fragment of emission code, from its own
    /// state alone.
    pub fn code(&self) -> (r: String)
        ensures
            r@ == spec_node_code(self@),
    {
        match self {
            TemplateExpression::Comment => String::new(),
            TemplateExpression::Text { text } => {
                let mut out = String::from_str("try!(write!(out, \"{}\", \"");
                let esc = lit_escape(text.as_str());
                out.append(esc.as_str());
                out.append("\"));\n");
                out
            },
            TemplateExpression::Expression { expr } => {
                let mut out = String::from_str("try!(");
                out.append(expr.as_str());
                out.append(".to_html(out));\n");
                out
            },
            TemplateExpression::Call { name, args } => {
                let mut out = String::from_str("try!(");
                out.append(name.as_str());
                if args.as_str().unicode_len() == 0 {
                    out.append("(out));\n");
                } else {
                    out.append("(out, ");
                    out.append(args.as_str());
                    out.append("));\n");
                }
                out
            },
        }
    }
}

pub fn text_end(s: &str, i: usize) -> (r: usize)
    requires
        i <= s@.len(),
    ensures
        r as int == spec_text_end(s@, i as int),
        i <= r <= s@.len(),
{
    let n = s.unicode_len();
    let mut p = i;
    loop
        invariant
            i <= p <= n,
            n == s@.len(),
            spec_text_end(s@, i as int) == spec_text_end(s@, p as int),
        decreases n - p,
    {
        if p < n && s.get_char(p) != '@' {
            p = p + 1;
        } else {
            return p;
        }
    }
}

/// Match the longest body construct at `i`.  `None` is a malformed
/// construct, reported by the caller as an error starting at `i`.
pub fn body_node(s: &str, i: usize) -> (r: Option<(TemplateExpression, usize)>)
    requires
        i <= s@.len(),
    ensures
        spec_body_node(s@, i as int) == (match r {
            Some((node, j)) => Some((node@, j as int)),
            None => None::<(NodeView, int)>,
        }),
        r matches Some((node, j)) ==> i < j <= s@.len(),
{
    let n = s.unicode_len();
    if i >= n {
        return None;
    }
    if s.get_char(i) == '@' {
        if i + 1 < n && s.get_char(i + 1) == '*' {
            match comment_end(s, i + 2) {
                Some(j) => Some((TemplateExpression::Comment, j)),
                None => None,
            }
        } else if i + 1 < n && s.get_char(i + 1) == ':' {
            match rust_name(s, i + 2) {
                Some(j) => {
                    if j < n && s.get_char(j) == '(' {
                        match balanced_end(s, j + 1) {
                            Some(k) => {
                                let name = s.substring_char(i + 2, j).to_owned();
                                let args = s.substring_char(j + 1, k - 1).to_owned();
                                Some((TemplateExpression::Call { name, args }, k))
                            },
                            None => None,
                        }
                    } else {
                        None
                    }
                },
                None => None,
            }
        } else {
            match expr_end(s, i + 1) {
                Some(j) => {
                    let expr = s.substring_char(i + 1, j).to_owned();
                    Some((TemplateExpression::Expression { expr }, j))
                },
                None => None,
            }
        }
    } else {
        let j = text_end(s, i + 1);
        let text = s.substring_char(i, j).to_owned();
        Some((TemplateExpression::Text { text }, j))
    }
}

} // verus!
