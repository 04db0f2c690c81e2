//! Parsing templates and generating rendering functions.

use ructe::template::{template, ErrorKind, Template};
use ructe::template_utils::html_escape;

fn parse(s: &str) -> Template {
    template(s).expect("template should parse")
}

fn generate(s: &str, name: &str) -> String {
    let t = parse(s);
    let mut out = String::new();
    t.write_rust(&mut out, name);
    out
}

#[test]
fn end_to_end_generated_function() {
    let src = "@use std::fmt::Display;\n@(name: &str)\nHello @name";
    let expected = "use std::io::{self, Write};\n\
                    #[allow(unused)]\n\
                    use ::templates::{Html,ToHtml};\n\
                    use std::fmt::Display;\n\
                    \npub fn hello(out: &mut Write, name: &str)\n\
                    -> io::Result<()> {\n\
                    try!(write!(out, \"{}\", \"Hello \"));\n\
                    try!(name.to_html(out));\n\
                    Ok(())\n\
                    }\n";
    assert_eq!(generate(src, "hello"), expected);
}

#[test]
fn end_to_end_rendering_effect() {
    // The generated body writes the literal text, then the argument
    // HTML-escaped; with name = "A < B" that is the following text.
    let src = "@use std::fmt::Display;\n@(name: &str)\nHello @name";
    let t = parse(src);
    assert_eq!(t.body.len(), 2);
    let mut rendered = String::from("Hello ");
    rendered.push_str(&html_escape("A < B"));
    assert_eq!(rendered, "Hello A &lt; B");
}

#[test]
fn determinism_same_bytes_same_output() {
    let src = "@(title: &str, n: u32)\n<h1>@title</h1>\n";
    let first = generate(src, "page");
    let second = generate(src, "page");
    assert_eq!(first, second);
}

#[test]
fn generic_content_argument() {
    let src = "@(content: Content)\n@:content()";
    let generated = generate(src, "base");
    let expected = "use std::io::{self, Write};\n\
                    #[allow(unused)]\n\
                    use ::templates::{Html,ToHtml};\n\
                    \npub fn base<Content>(out: &mut Write, content: Content)\n\
                    -> io::Result<()> \n\
                    where Content: FnOnce(&mut Write) -> io::Result<()>{\n\
                    try!(content(out));\n\
                    Ok(())\n\
                    }\n";
    assert_eq!(generated, expected);
}

#[test]
fn non_content_arguments_stay_non_generic() {
    let generated = generate("@(name: &str)\nx", "plain");
    assert!(!generated.contains("<Content>"));
    assert!(!generated.contains("where Content"));
}

#[test]
fn preamble_statements_are_verbatim_and_ordered() {
    let t = parse("@use a::b;\n@let c = 5;\n@(x: u32)\nbody");
    assert_eq!(t.preamble, vec!["use a::b".to_string(), "let c = 5".to_string()]);
    assert_eq!(t.args, vec!["x: u32".to_string()]);
}

#[test]
fn argument_spans_are_exact() {
    let t = parse("@(a: &str, b: Vec<u32>, pair: (u8, u8), arr: [i32])\nx");
    assert_eq!(
        t.args,
        vec![
            "a: &str".to_string(),
            "b: Vec<u32>".to_string(),
            "pair: (u8, u8)".to_string(),
            "arr: [i32]".to_string(),
        ],
    );
}

#[test]
fn empty_argument_list() {
    let t = parse("@()\nYo");
    assert_eq!(t.args.len(), 0);
    assert_eq!(t.preamble.len(), 0);
}

#[test]
fn comments_are_skipped() {
    let t = parse("@* a comment *@@(x: u32)ok");
    assert_eq!(t.args, vec!["x: u32".to_string()]);
}

#[test]
fn interpolation_with_selectors_and_calls() {
    let t = parse("@(user: &User)\n@user.name(1, f(2))!");
    let mut out = String::new();
    t.write_rust(&mut out, "card");
    assert!(out.contains("try!(user.name(1, f(2)).to_html(out));\n"));
    assert!(out.contains("try!(write!(out, \"{}\", \"!\"));\n"));
}

#[test]
fn text_literals_are_escaped_for_rust() {
    let generated = generate("@(x: u32)\na \"quote\" and \\ back", "esc");
    assert!(generated.contains("try!(write!(out, \"{}\", \"a \\\"quote\\\" and \\\\ back\"));\n"));
}

#[test]
fn missing_argument_list_is_an_error() {
    let err = template("no at sign").unwrap_err();
    assert_eq!(err.pos, 0);
    assert_eq!(err.kind, ErrorKind::ArgumentList);
    assert_eq!(err.message(), "error at char 0: expected argument list");
}

#[test]
fn truncated_argument_list_is_an_error() {
    let err = template("@(x: u32").unwrap_err();
    assert_eq!(err.kind, ErrorKind::ArgumentList);
}

#[test]
fn malformed_body_expression_is_an_error() {
    let err = template("@(x: u32)\n@ bad").unwrap_err();
    assert_eq!(err.pos, 10);
    assert_eq!(err.kind, ErrorKind::Expression);
    assert_eq!(err.message(), "error at char 10: error in expression starting here");
}

#[test]
fn unterminated_body_comment_is_an_error() {
    let err = template("@(x: u32)\n@* never closed").unwrap_err();
    assert_eq!(err.kind, ErrorKind::Expression);
}
