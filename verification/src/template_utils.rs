//! The escaping runtime that every generated rendering function relies on:
//! a function that renders text with the five HTML-significant characters
//! replaced by entities, and a wrapper carrying pre-rendered trusted text
//! that renders unchanged.

use vstd::prelude::*;

verus! {

/// The entity expansion of one character: `& < > " '` become entities,
/// every other character stands for itself.
pub open spec fn html_escape_char(c: char) -> Seq<char> {
    if c == '&' {
        "&amp;"@
    } else if c == '<' {
        "&lt;"@
    } else if c == '>' {
        "&gt;"@
    } else if c == '"' {
        "&quot;"@
    } else if c == '\'' {
        "&#39;"@
    } else {
        seq![c]
    }
}

/// Text rendered as HTML: each character replaced by its entity expansion.
pub open spec fn html_escaped(s: Seq<char>) -> Seq<char>
    decreases s.len(),
{
    if s.len() == 0 {
        Seq::empty()
    } else {
        html_escape_char(s[0]) + html_escaped(s.skip(1))
    }
}

pub proof fn lemma_html_escaped_concat(a: Seq<char>, b: Seq<char>)
    ensures
        html_escaped(a + b) == html_escaped(a) + html_escaped(b),
    decreases a.len(),
{
    if a.len() == 0 {
        assert(a + b =~= b);
        assert(html_escaped(a) + html_escaped(b) =~= html_escaped(b));
    } else {
        assert((a + b).skip(1) =~= a.skip(1) + b);
        lemma_html_escaped_concat(a.skip(1), b);
        assert(html_escaped(a + b) =~= html_escaped(a) + html_escaped(b));
    }
}

pub proof fn lemma_html_escaped_take_step(s: Seq<char>, i: int)
    requires
        0 <= i < s.len(),
    ensures
        html_escaped(s.take(i + 1)) == html_escaped(s.take(i)) + html_escape_char(s[i]),
{
    assert(s.take(i + 1) =~= s.take(i) + seq![s[i]]);
    lemma_html_escaped_concat(s.take(i), seq![s[i]]);
    reveal_with_fuel(html_escaped, 2);
    assert(seq![s[i]].skip(1) =~= Seq::<char>::empty());
    assert(html_escaped(seq![s[i]]) =~= html_escape_char(s[i]));
}

/// Relies on std's String::push: appends the character to the end.
#[verifier::external_body]
pub fn push_char(s: &mut String, c: char)
    ensures
        final(s)@ == old(s)@.push(c),
{
    s.push(c);
}

/// Render a value's text as HTML: write it with `& < > " '` replaced by
/// their entity equivalents.
pub fn html_escape(s: &str) -> (r: String)
    ensures
        r@ == html_escaped(s@),
{
    let n = s.unicode_len();
    let mut out = String::new();
    let mut i: usize = 0;
    while i < n
        invariant
            i <= n,
            n == s@.len(),
            out@ == html_escaped(s@.take(i as int)),
        decreases n - i,
    {
        let c = s.get_char(i);
        proof {
            lemma_html_escaped_take_step(s@, i as int);
        }
        if c == '&' {
            out.append("&amp;");
        } else if c == '<' {
            out.append("&lt;");
        } else if c == '>' {
            out.append("&gt;");
        } else if c == '"' {
            out.append("&quot;");
        } else if c == '\'' {
            out.append("&#39;");
        } else {
            push_char(&mut out, c);
            proof {
                assert(html_escaped(s@.take(i as int)).push(c) =~= html_escaped(
                    s@.take(i as int),
                ) + seq![c]);
            }
        }
        i = i + 1;
    }
    proof {
        assert(s@.take(n as int) =~= s@);
    }
    out
}

/// A wrapper carrying pre-rendered, trusted HTML text: rendering it writes
/// the content unmodified, an explicit escape bypass.
pub struct Html {
    pub content: String,
}

impl Html {
    pub fn new(content: String) -> (r: Html)
        ensures
            r.content@ == content@,
    {
        Html { content }
    }

    /// Render as HTML: the content is already HTML, so it comes out unchanged.
    pub fn to_html(&self) -> (r: String)
        ensures
            r@ == self.content@,
    {
        self.content.clone()
    }
}

} // verus!
