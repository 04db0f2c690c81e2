//! The escaping runtime: escaped rendering and the trusted-raw bypass.

use ructe::template_utils::{html_escape, Html};

#[test]
fn encoded() {
    assert_eq!(html_escape("a < b"), "a &lt; b");
}

#[test]
fn raw_html() {
    let h = Html::new(String::from("a<b>c</b>"));
    assert_eq!(h.to_html(), "a<b>c</b>");
}

#[test]
fn all_five_escapes() {
    assert_eq!(html_escape("&<>\"'"), "&amp;&lt;&gt;&quot;&#39;");
}

#[test]
fn empty_input_stays_empty() {
    assert_eq!(html_escape(""), "");
}

#[test]
fn plain_text_unchanged() {
    assert_eq!(html_escape("hello, world"), "hello, world");
}
