//! The static-asset compiler: fingerprints, cache-busted names, and the
//! ordered registry.

use ructe::statics::{checksum_slug, compile_statics, StaticSource};

fn source(path: &str, name: &str, content: &[u8]) -> StaticSource {
    StaticSource { path: path.to_string(), name: name.to_string(), content: content.to_vec() }
}

#[test]
fn fingerprint_is_stable_across_runs() {
    let data = b"body { color: red; }\n";
    assert_eq!(checksum_slug(&data[..]), checksum_slug(&data[..]));
    assert_eq!(checksum_slug(&data[..]), "3XPe6Pqd");
}

#[test]
fn fingerprint_changes_with_content() {
    let with_newline = checksum_slug(&b"body { color: red; }\n"[..]);
    let without_newline = checksum_slug(&b"body { color: red; }"[..]);
    assert_eq!(with_newline, "3XPe6Pqd");
    assert_eq!(without_newline, "8rgE0-O9");
    assert_ne!(with_newline, without_newline);
}

#[test]
fn recognized_files_become_cache_busted_constants() {
    let files = vec![
        source("in/style.css", "style.css", b"body { color: red; }\n"),
        source("in/script.js", "script.js", b"alert(1);\n"),
        source("in/readme.md", "readme.md", b"ignored"),
    ];
    let out = compile_statics(&files);
    assert!(out.source.starts_with(
        "pub struct StaticFile {\n  pub content: &'static [u8],\n  pub name: &'static str,\n}\n"
    ));
    assert!(out.source.contains("pub static style_css: StaticFile"));
    assert!(out.source.contains("name: \"style-3XPe6Pqd.css\","));
    assert!(out.source.contains("pub static script_js: StaticFile"));
    assert!(out.source.contains("name: \"script-Q40gB49v.js\","));
    // The bytes are embedded as a plain array: "body" is 98 111 100 121.
    assert!(out.source.contains("content: &[98, 111, 100, 121,"));
    // The unrecognized file leaves no trace.
    assert!(!out.source.contains("readme"));
}

#[test]
fn registry_is_ordered_and_deduplicated() {
    let files = vec![
        source("in/style.css", "style.css", b"a"),
        source("in/script.js", "script.js", b"b"),
        source("in/style.css", "style.css", b"c"),
    ];
    let out = compile_statics(&files);
    assert_eq!(out.names, vec!["script_js".to_string(), "style_css".to_string()]);
    assert!(out.source.ends_with(
        "\npub static STATICS: &'static [&'static StaticFile] = &[&script_js, &style_css];\n"
    ));
}

#[test]
fn registry_order_ignores_input_order() {
    let forward = vec![
        source("in/a.css", "a.css", b"x"),
        source("in/b.js", "b.js", b"y"),
    ];
    let backward = vec![
        source("in/b.js", "b.js", b"y"),
        source("in/a.css", "a.css", b"x"),
    ];
    assert_eq!(compile_statics(&forward).names, compile_statics(&backward).names);
}

#[test]
fn notices_name_recognized_files_in_order() {
    let files = vec![
        source("in/style.css", "style.css", b"a"),
        source("in/readme.md", "readme.md", b"n"),
        source("in/script.js", "script.js", b"b"),
    ];
    let out = compile_statics(&files);
    assert_eq!(out.notes, vec!["in/style.css".to_string(), "in/script.js".to_string()]);
}

#[test]
fn empty_directory_yields_empty_registry() {
    let out = compile_statics(&Vec::new());
    assert_eq!(out.names.len(), 0);
    assert!(out.source.ends_with(
        "\npub static STATICS: &'static [&'static StaticFile] = &[];\n"
    ));
}

#[test]
fn decimal_rendering_is_exact() {
    assert_eq!(ructe::decimal::decimal_string(0), "0");
    assert_eq!(ructe::decimal::decimal_string(7), "7");
    assert_eq!(ructe::decimal::decimal_string(42), "42");
    assert_eq!(ructe::decimal::decimal_string(255), "255");
    assert_eq!(ructe::decimal::decimal_string(10000), "10000");
}
