//! The directory compiler: tree mirroring, fault isolation, the root
//! index, and the statics declaration.

use ructe::compile::{compile_templates, SrcDir, SrcEntry, SrcFile};

fn file(name: &str, content: &str) -> SrcEntry {
    SrcEntry::File(SrcFile { name: name.to_string(), content: content.to_string() })
}

fn sample_entries() -> Vec<SrcEntry> {
    vec![
        file("good.rs.html", "@(name: &str)\nHi @name"),
        file("bad.rs.html", "oops"),
        file("readme.txt", "not a template"),
        SrcEntry::Dir(SrcDir {
            name: "sub".to_string(),
            entries: vec![file("inner.rs.html", "@()\nYo")],
        }),
    ]
}

#[test]
fn fault_isolation_bad_file_warns_siblings_survive() {
    let entries = sample_entries();
    let out = compile_templates(&entries, "tpl", false);
    // The malformed file produced exactly one warning naming it.
    assert_eq!(out.warnings.len(), 1);
    assert_eq!(out.warnings[0].path, "tpl/bad.rs.html");
    assert_eq!(out.warnings[0].message, "error at char 0: expected argument list");
    // The sibling that parses still appears in the output.
    assert_eq!(out.tree.files.len(), 1);
    assert_eq!(out.tree.files[0].name, "template_good.rs");
    assert!(out.tree.files[0].content.contains("pub fn good(out: &mut Write, name: &str)"));
}

#[test]
fn tree_shape_is_mirrored() {
    let entries = sample_entries();
    let out = compile_templates(&entries, "tpl", false);
    // One generated subdirectory per input subdirectory, by name; the
    // unrecognized file is nowhere in the output.
    assert_eq!(out.tree.subs.len(), 1);
    assert_eq!(out.tree.subs[0].name, "sub");
    let sub = &out.tree.subs[0].tree;
    assert_eq!(sub.subs.len(), 0);
    assert_eq!(sub.files.len(), 2);
    assert_eq!(sub.files[0].name, "template_inner.rs");
    assert_eq!(sub.files[1].name, "mod.rs");
    assert_eq!(sub.files[1].content, "mod template_inner;\npub use self::template_inner::inner;\n\n");
    assert!(!out.root.contains("readme"));
}

#[test]
fn root_index_declares_children_in_traversal_order() {
    let entries = sample_entries();
    let out = compile_templates(&entries, "tpl", false);
    assert!(out.root.starts_with(
        "mod templates {\nuse std::io::{self, Write};\nuse std::fmt::Display;\n\n"
    ));
    let good = out.root.find("mod template_good;").unwrap();
    let sub = out.root.find("pub mod sub;").unwrap();
    assert!(good < sub);
    assert!(out.root.contains("pub use self::template_good::good;"));
    // The escaping runtime is embedded verbatim so the generated tree
    // has no external dependency.
    assert!(out.root.contains("pub trait ToHtml"));
    assert!(out.root.contains("pub struct Html<T>(pub T);"));
    assert!(out.root.ends_with("\n}\n"));
}

#[test]
fn statics_registry_is_declared_only_when_present() {
    let entries = sample_entries();
    let without = compile_templates(&entries, "tpl", false);
    assert!(!without.root.contains("pub mod statics;"));
    let with = compile_templates(&entries, "tpl", true);
    assert!(with.root.contains("pub mod statics;\n"));
}

#[test]
fn dependency_notices_cover_recognized_files_only() {
    let entries = sample_entries();
    let out = compile_templates(&entries, "tpl", false);
    assert_eq!(
        out.notes,
        vec![
            "tpl/good.rs.html".to_string(),
            "tpl/bad.rs.html".to_string(),
            "tpl/sub/inner.rs.html".to_string(),
        ],
    );
}

#[test]
fn compile_is_deterministic_across_runs() {
    let a = compile_templates(&sample_entries(), "tpl", false);
    let b = compile_templates(&sample_entries(), "tpl", false);
    assert_eq!(a.root, b.root);
    assert_eq!(a.tree.files[0].content, b.tree.files[0].content);
    assert_eq!(a.warnings.len(), b.warnings.len());
}

#[test]
fn empty_tree_compiles_to_bare_root() {
    let out = compile_templates(&Vec::new(), "tpl", false);
    assert_eq!(out.tree.files.len(), 0);
    assert_eq!(out.tree.subs.len(), 0);
    assert_eq!(out.warnings.len(), 0);
    assert_eq!(out.notes.len(), 0);
    assert!(out.root.contains("pub trait ToHtml"));
}
