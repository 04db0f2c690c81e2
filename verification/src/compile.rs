//! The directory compiler: mirrors a template source tree into a matching
//! generated module tree, one generated file per recognized source file and
//! one index file per directory.  A subdirectory's output is fully
//! materialized before its declaration is appended to the parent's index,
//! and a file that fails to parse is skipped with a warning while the rest
//! of the build goes on.

use vstd::prelude::*;
use crate::template::{SpecParse, spec_template, spec_rust_source, spec_error_message, str_views,
    template};
use crate::statics::{spec_ends_with, ends_with};

verus! {

broadcast use vstd::seq::axiom_seq_index_decreases, vstd::seq::axiom_seq_subrange_decreases, vstd::std_specs::vec::axiom_vec_decreases_to_view;

/// One source file handed to the compiler: its name and its text.
pub struct SrcFile {
    pub name: String,
    pub content: String,
}

/// One directory of the template source tree.
pub struct SrcDir {
    pub name: String,
    pub entries: Vec<SrcEntry>,
}

/// One entry of a source directory.
pub enum SrcEntry {
    File(SrcFile),
    Dir(SrcDir),
}

/// One generated file.
pub struct OutFile {
    pub name: String,
    pub content: String,
}

/// One generated subdirectory.
pub struct OutSub {
    pub name: String,
    pub tree: OutTree,
}

/// One generated directory: its files and its subdirectories.
pub struct OutTree {
    pub files: Vec<OutFile>,
    pub subs: Vec<OutSub>,
}

/// A per-file warning: the path of the skipped file and the positional
/// cause.
pub struct Warning {
    pub path: String,
    pub message: String,
}

pub struct FileSpec {
    pub name: Seq<char>,
    pub content: Seq<char>,
}

pub struct SubSpec {
    pub name: Seq<char>,
    pub tree: TreeSpec,
}

pub struct TreeSpec {
    pub files: Seq<FileSpec>,
    pub subs: Seq<SubSpec>,
}

pub struct WarnSpec {
    pub path: Seq<char>,
    pub message: Seq<char>,
}

pub open spec fn files_view(files: Seq<OutFile>) -> Seq<FileSpec> {
    files.map_values(|f: OutFile| FileSpec { name: f.name@, content: f.content@ })
}

pub open spec fn subs_view(subs: Seq<OutSub>) -> Seq<SubSpec>
    decreases subs,
{
    if subs.len() == 0 {
        Seq::empty()
    } else {
        seq![SubSpec { name: subs[0].name@, tree: tree_view(subs[0].tree) }] + subs_view(
            subs.skip(1),
        )
    }
}

pub open spec fn tree_view(t: OutTree) -> TreeSpec
    decreases t,
{
    TreeSpec { files: files_view(t.files@), subs: subs_view(t.subs@) }
}

pub open spec fn warn_views(v: Seq<Warning>) -> Seq<WarnSpec> {
    v.map_values(|w: Warning| WarnSpec { path: w.path@, message: w.message@ })
}

/// What compiling the entries of one directory yields: the directory's
/// generated tree, its index text, and the warnings and dependency
/// notices in traversal order.
pub struct DirOutSpec {
    pub tree: TreeSpec,
    pub index: Seq<char>,
    pub warnings: Seq<WarnSpec>,
    pub notes: Seq<Seq<char>>,
}

/// What one entry contributes to its directory's output.
pub struct EntryOutSpec {
    pub files: Seq<FileSpec>,
    pub sub: Option<SubSpec>,
    pub index: Seq<char>,
    pub warnings: Seq<WarnSpec>,
    pub notes: Seq<Seq<char>>,
}

/// The recognized template suffix.
pub open spec fn spec_is_template(name: Seq<char>) -> bool {
    spec_ends_with(name, ".rs.html"@)
}

/// The base name of a recognized template file.
pub open spec fn spec_base_name(name: Seq<char>) -> Seq<char> {
    name.take(name.len() - ".rs.html"@.len())
}

/// What one entry contributes.  A subdirectory is compiled in full and
/// declared in the parent index; a recognized file is parsed and, on
/// success, written as a sibling generated file and re-exported by base
/// name; on failure it yields one warning and nothing else; any other
/// file contributes nothing.
pub open spec fn spec_compile_entry(e: SrcEntry, path: Seq<char>) -> EntryOutSpec
    decreases e,
{
    match e {
        SrcEntry::Dir(d) => {
            let inner = spec_compile_entries(d.entries@, path + "/"@ + d.name@);
            EntryOutSpec {
                files: Seq::empty(),
                sub: Some(
                    SubSpec {
                        name: d.name@,
                        tree: TreeSpec {
                            files: inner.tree.files + seq![
                                FileSpec { name: "mod.rs"@, content: inner.index },
                            ],
                            subs: inner.tree.subs,
                        },
                    },
                ),
                index: "pub mod "@ + d.name@ + ";\n\n"@,
                warnings: inner.warnings,
                notes: inner.notes,
            }
        },
        SrcEntry::File(f) => {
            if spec_is_template(f.name@) {
                let base = spec_base_name(f.name@);
                let file_path = path + "/"@ + f.name@;
                match spec_template(f.content@) {
                    SpecParse::Parsed(t) => EntryOutSpec {
                        files: seq![
                            FileSpec {
                                name: "template_"@ + base + ".rs"@,
                                content: spec_rust_source(t, base),
                            },
                        ],
                        sub: None,
                        index: "mod template_"@ + base + ";\npub use self::template_"@ + base
                            + "::"@ + base + ";\n\n"@,
                        warnings: Seq::empty(),
                        notes: seq![file_path],
                    },
                    SpecParse::Failed(p, k) => EntryOutSpec {
                        files: Seq::empty(),
                        sub: None,
                        index: Seq::empty(),
                        warnings: seq![
                            WarnSpec {
                                path: file_path,
                                message: spec_error_message(p as nat, k),
                            },
                        ],
                        notes: seq![file_path],
                    },
                }
            } else {
                EntryOutSpec {
                    files: Seq::empty(),
                    sub: None,
                    index: Seq::empty(),
                    warnings: Seq::empty(),
                    notes: Seq::empty(),
                }
            }
        },
    }
}

/// Compiling a directory's entries in order, accumulating generated
/// files, subdirectories, index text, warnings and notices.
pub open spec fn spec_compile_entries(entries: Seq<SrcEntry>, path: Seq<char>) -> DirOutSpec
    decreases entries,
{
    if entries.len() == 0 {
        DirOutSpec {
            tree: TreeSpec { files: Seq::empty(), subs: Seq::empty() },
            index: Seq::empty(),
            warnings: Seq::empty(),
            notes: Seq::empty(),
        }
    } else {
        let prev = spec_compile_entries(entries.drop_last(), path);
        let e = spec_compile_entry(entries.last(), path);
        DirOutSpec {
            tree: TreeSpec {
                files: prev.tree.files + e.files,
                subs: prev.tree.subs + (match e.sub {
                    Some(s) => seq![s],
                    None => Seq::empty(),
                }),
            },
            index: prev.index + e.index,
            warnings: prev.warnings + e.warnings,
            notes: prev.notes + e.notes,
        }
    }
}

proof fn lemma_subs_view_push(v: Seq<OutSub>, x: OutSub)
    ensures
        subs_view(v.push(x)) == subs_view(v) + seq![
            SubSpec { name: x.name@, tree: tree_view(x.tree) },
        ],
    decreases v.len(),
{
    if v.len() == 0 {
        reveal_with_fuel(subs_view, 2);
        assert(v.push(x) =~= seq![x]);
        assert(seq![x].skip(1) =~= Seq::<OutSub>::empty());
        assert(subs_view(v.push(x)) =~= subs_view(v) + seq![
            SubSpec { name: x.name@, tree: tree_view(x.tree) },
        ]);
    } else {
        lemma_subs_view_push(v.skip(1), x);
        assert(v.push(x).skip(1) =~= v.skip(1).push(x));
        assert(v.push(x)[0] == v[0]);
        assert(subs_view(v.push(x)) =~= subs_view(v) + seq![
            SubSpec { name: x.name@, tree: tree_view(x.tree) },
        ]);
    }
}

/// Compile every entry of one source directory, in order.  Returns the
/// directory's generated tree and its index text, and appends this
/// directory's warnings and dependency notices, in traversal order, to
/// the two accumulators.
pub fn compile_entries(
    entries: &Vec<SrcEntry>,
    path: &str,
    warnings: &mut Vec<Warning>,
    notes: &mut Vec<String>,
) -> (r: (OutTree, String))
    ensures
        tree_view(r.0) == spec_compile_entries(entries@, path@).tree,
        r.1@ == spec_compile_entries(entries@, path@).index,
        warn_views(final(warnings)@) == warn_views(old(warnings)@) + spec_compile_entries(
            entries@,
            path@,
        ).warnings,
        str_views(final(notes)@) == str_views(old(notes)@) + spec_compile_entries(
            entries@,
            path@,
        ).notes,
    decreases entries@,
{
    let mut files: Vec<OutFile> = Vec::new();
    let mut subs: Vec<OutSub> = Vec::new();
    let mut index = String::new();
    let ghost w0 = warn_views(warnings@);
    let ghost n0 = str_views(notes@);
    let mut i: usize = 0;
    while i < entries.len()
        invariant
            i <= entries@.len(),
            w0 == warn_views(old(warnings)@),
            n0 == str_views(old(notes)@),
            files_view(files@) == spec_compile_entries(entries@.take(i as int), path@).tree.files,
            subs_view(subs@) == spec_compile_entries(entries@.take(i as int), path@).tree.subs,
            index@ == spec_compile_entries(entries@.take(i as int), path@).index,
            warn_views(warnings@) == w0 + spec_compile_entries(entries@.take(i as int),
                path@,
            ).warnings,
            str_views(notes@) == n0 + spec_compile_entries(entries@.take(i as int), path@).notes,
        decreases entries@.len() - i,
    {
        proof {
            assert(entries@.take(i + 1).drop_last() =~= entries@.take(i as int));
            assert(entries@.take(i + 1).last() == entries@[i as int]);
        }
        let ghost prev = spec_compile_entries(entries@.take(i as int), path@);
        let ghost espec = spec_compile_entry(entries@[i as int], path@);
        match &entries[i] {
            SrcEntry::Dir(d) => {
                let mut child_path = String::from_str(path);
                child_path.append("/");
                child_path.append(d.name.as_str());
                proof {
                    assert(decreases_to!(entries@ => entries@[i as int]));
                    assert(entries@[i as int] matches SrcEntry::Dir(d0) && d0 == *d);
                    assert(decreases_to!(entries@[i as int] => *d));
                    assert(decreases_to!(*d => d.entries));
                }
                let ghost w1 = warn_views(warnings@);
                let ghost n1 = str_views(notes@);
                let (mut ctree, cindex) = compile_entries(
                    &d.entries,
                    child_path.as_str(),
                    warnings,
                    notes,
                );
                let ghost inner = spec_compile_entries(d.entries@, path@ + "/"@ + d.name@);
                let ghost cindexv = cindex@;
                ctree.files.push(OutFile { name: String::from_str("mod.rs"), content: cindex });
                proof {
                    assert(files_view(ctree.files@) =~= inner.tree.files + seq![
                        FileSpec { name: "mod.rs"@, content: cindexv },
                    ]);
                }
                let ghost subs0 = subs@;
                let sub = OutSub { name: d.name.clone(), tree: ctree };
                proof {
                    assert(tree_view(sub.tree) == espec.sub.unwrap().tree);
                }
                subs.push(sub);
                proof {
                    lemma_subs_view_push(subs0, subs@.last());
                    assert(subs@ == subs0.push(subs@.last()));
                    assert(subs_view(subs@) =~= prev.tree.subs + seq![espec.sub.unwrap()]);
                    assert(w1 + inner.warnings =~= w0 + (prev.warnings + espec.warnings));
                    assert(n1 + inner.notes =~= n0 + (prev.notes + espec.notes));
                    assert(files_view(files@) + Seq::<FileSpec>::empty() =~= files_view(files@));
                }
                index.append("pub mod ");
                index.append(d.name.as_str());
                index.append(";\n\n");
                proof {
                    assert(index@ =~= prev.index + espec.index);
                }
            },
            SrcEntry::File(f) => {
                if ends_with(f.name.as_str(), ".rs.html") {
                    proof {
                        reveal_strlit(".rs.html");
                    }
                    let nlen = f.name.as_str().unicode_len();
                    let base = f.name.as_str().substring_char(0, nlen - 8).to_owned();
                    proof {
                        assert(base@ == spec_base_name(f.name@));
                    }
                    let mut fpath = String::from_str(path);
                    fpath.append("/");
                    fpath.append(f.name.as_str());
                    let ghost n1 = str_views(notes@);
                    notes.push(fpath.clone());
                    proof {
                        assert(str_views(notes@) =~= n1 + seq![path@ + "/"@ + f.name@]);
                        assert(n1 + seq![path@ + "/"@ + f.name@] =~= n0 + (prev.notes
                            + espec.notes));
                    }
                    match template(f.content.as_str()) {
                        Ok(t) => {
                            let mut gen_name = String::from_str("template_");
                            gen_name.append(base.as_str());
                            gen_name.append(".rs");
                            let mut content = String::new();
                            t.write_rust(&mut content, base.as_str());
                            proof {
                                assert(gen_name@ =~= "template_"@ + base@ + ".rs"@);
                                assert(content@ =~= espec.files[0].content);
                            }
                            files.push(OutFile { name: gen_name, content });
                            proof {
                                assert(files_view(files@) =~= prev.tree.files + espec.files);
                                assert(subs_view(subs@) + Seq::<SubSpec>::empty() =~= subs_view(
                                    subs@,
                                ));
                                assert(warn_views(warnings@) + Seq::<WarnSpec>::empty()
                                    =~= warn_views(warnings@));
                            }
                            index.append("mod template_");
                            index.append(base.as_str());
                            index.append(";\npub use self::template_");
                            index.append(base.as_str());
                            index.append("::");
                            index.append(base.as_str());
                            index.append(";\n\n");
                            proof {
                                assert(index@ =~= prev.index + espec.index);
                            }
                        },
                        Err(e) => {
                            let msg = e.message();
                            let ghost w1 = warn_views(warnings@);
                            warnings.push(Warning { path: fpath, message: msg });
                            proof {
                                assert(warn_views(warnings@) =~= w1 + espec.warnings);
                                assert(w1 + espec.warnings =~= w0 + (prev.warnings
                                    + espec.warnings));
                                assert(index@ + Seq::<char>::empty() =~= index@);
                                assert(files_view(files@) + Seq::<FileSpec>::empty() =~= files_view(
                                    files@,
                                ));
                                assert(subs_view(subs@) + Seq::<SubSpec>::empty() =~= subs_view(
                                    subs@,
                                ));
                            }
                        },
                    }
                } else {
                    proof {
                        assert(files_view(files@) + Seq::<FileSpec>::empty() =~= files_view(
                            files@,
                        ));
                        assert(subs_view(subs@) + Seq::<SubSpec>::empty() =~= subs_view(subs@));
                        assert(index@ + Seq::<char>::empty() =~= index@);
                        assert(warn_views(warnings@) + Seq::<WarnSpec>::empty() =~= warn_views(
                            warnings@,
                        ));
                        assert(str_views(notes@) + Seq::<Seq<char>>::empty() =~= str_views(
                            notes@,
                        ));
                    }
                }
            },
        }
        i = i + 1;
    }
    proof {
        assert(entries@.take(entries@.len() as int) =~= entries@);
    }
    (OutTree { files, subs }, index)
}

// ---------------------------------------------------------------------
// The root of the generated tree
// ---------------------------------------------------------------------
/// The escaping-runtime source embedded verbatim in the root index, so
/// the generated tree needs nothing beyond the host toolchain: a
/// capability rendering any displayable value HTML-escaped, and the
/// `Html` wrapper rendering pre-rendered trusted text unchanged.
pub open spec fn spec_template_utils() -> Seq<char> {
    "pub trait ToHtml {\n    fn to_html(&self, out: &mut Write) -> io::Result<()>;\n}\n\npub struct Html<T>(pub T);\n\nimpl<T: Display> ToHtml for Html<T> {\n    fn to_html(&self, out: &mut Write) -> io::Result<()> {\n        write!(out, \"{}\", self.0)\n    }\n}\n\nimpl<T: Display> ToHtml for T {\n    fn to_html(&self, out: &mut Write) -> io::Result<()> {\n        let s = format!(\"{}\", self);\n        for c in s.chars() {\n            match c {\n                '&' => try!(out.write_all(b\"&amp;\")),\n                '<' => try!(out.write_all(b\"&lt;\")),\n                '>' => try!(out.write_all(b\"&gt;\")),\n                '\\\"' => try!(out.write_all(b\"&quot;\")),\n                '\\'' => try!(out.write_all(b\"&#39;\")),\n                c => try!(write!(out, \"{}\", c)),\n            }\n        }\n        Ok(())\n    }\n}"@
}

/// What compiling a whole template source tree yields.
pub struct RootOutSpec {
    pub root: Seq<char>,
    pub tree: TreeSpec,
    pub warnings: Seq<WarnSpec>,
    pub notes: Seq<Seq<char>>,
}

/// Compiling the whole tree: the generated files mirror the source tree
/// under the root, and the root index declares every root entry, declares
/// the static-asset registry when one exists, and embeds the escaping
/// runtime verbatim.
pub open spec fn spec_compile_templates(
    entries: Seq<SrcEntry>,
    path: Seq<char>,
    has_statics: bool,
) -> RootOutSpec {
    let inner = spec_compile_entries(entries, path);
    RootOutSpec {
        root: "mod templates {\nuse std::io::{self, Write};\nuse std::fmt::Display;\n\n"@
            + inner.index + (if has_statics {
            "pub mod statics;\n"@
        } else {
            Seq::<char>::empty()
        }) + spec_template_utils() + "\n}\n"@,
        tree: inner.tree,
        warnings: inner.warnings,
        notes: inner.notes,
    }
}

/// The result of compiling a whole template source tree: the root index
/// file's text, the mirrored generated tree to be placed beside it, and
/// the diagnostics in traversal order.
pub struct CompiledTemplates {
    pub root: String,
    pub tree: OutTree,
    pub warnings: Vec<Warning>,
    pub notes: Vec<String>,
}

/// Compile a whole template source tree rooted at `path`.
pub fn compile_templates(entries: &Vec<SrcEntry>, path: &str, has_statics: bool) -> (r:
    CompiledTemplates)
    ensures
        r.root@ == spec_compile_templates(entries@, path@, has_statics).root,
        tree_view(r.tree) == spec_compile_templates(entries@, path@, has_statics).tree,
        warn_views(r.warnings@) == spec_compile_templates(entries@, path@, has_statics).warnings,
        str_views(r.notes@) == spec_compile_templates(entries@, path@, has_statics).notes,
{
    let mut warnings: Vec<Warning> = Vec::new();
    let mut notes: Vec<String> = Vec::new();
    let (tree, index) = compile_entries(entries, path, &mut warnings, &mut notes);
    let mut root = String::from_str(
        "mod templates {\nuse std::io::{self, Write};\nuse std::fmt::Display;\n\n",
    );
    root.append(index.as_str());
    if has_statics {
        root.append("pub mod statics;\n");
    }
    root.append(
        "pub trait ToHtml {\n    fn to_html(&self, out: &mut Write) -> io::Result<()>;\n}\n\npub struct Html<T>(pub T);\n\nimpl<T: Display> ToHtml for Html<T> {\n    fn to_html(&self, out: &mut Write) -> io::Result<()> {\n        write!(out, \"{}\", self.0)\n    }\n}\n\nimpl<T: Display> ToHtml for T {\n    fn to_html(&self, out: &mut Write) -> io::Result<()> {\n        let s = format!(\"{}\", self);\n        for c in s.chars() {\n            match c {\n                '&' => try!(out.write_all(b\"&amp;\")),\n                '<' => try!(out.write_all(b\"&lt;\")),\n                '>' => try!(out.write_all(b\"&gt;\")),\n                '\\\"' => try!(out.write_all(b\"&quot;\")),\n                '\\'' => try!(out.write_all(b\"&#39;\")),\n                c => try!(write!(out, \"{}\", c)),\n            }\n        }\n        Ok(())\n    }\n}",
    );
    root.append("\n}\n");
    proof {
        assert(warn_views(Seq::<Warning>::empty()) + spec_compile_entries(
            entries@,
            path@,
        ).warnings =~= spec_compile_entries(entries@, path@).warnings);
        assert(str_views(Seq::<String>::empty()) + spec_compile_entries(entries@, path@).notes
            =~= spec_compile_entries(entries@, path@).notes);
        assert(root@ =~= spec_compile_templates(entries@, path@, has_statics).root);
    }
    CompiledTemplates { root, tree, warnings, notes }
}

// ---------------------------------------------------------------------
// Laws of the directory compiler
// ---------------------------------------------------------------------
/// Determinism: compiling identical source trees yields identical output,
/// text, tree, warnings and notices alike.
pub proof fn lemma_compile_deterministic(
    a: Seq<SrcEntry>,
    b: Seq<SrcEntry>,
    path: Seq<char>,
    has_statics: bool,
)
    requires
        a == b,
    ensures
        spec_compile_templates(a, path, has_statics) == spec_compile_templates(
            b,
            path,
            has_statics,
        ),
{
}

/// The subdirectories of a directory's entries, in order.
pub open spec fn dir_entries(entries: Seq<SrcEntry>) -> Seq<SrcDir>
    decreases entries.len(),
{
    if entries.len() == 0 {
        Seq::empty()
    } else {
        dir_entries(entries.drop_last()) + (match entries.last() {
            SrcEntry::Dir(d) => seq![d],
            SrcEntry::File(_) => Seq::empty(),
        })
    }
}

/// The generated subdirectory that mirrors one input subdirectory: the
/// same name, the compiled contents, and the directory's own index file.
pub open spec fn spec_mirrored_sub(d: SrcDir, path: Seq<char>) -> SubSpec {
    let inner = spec_compile_entries(d.entries@, path + "/"@ + d.name@);
    SubSpec {
        name: d.name@,
        tree: TreeSpec {
            files: inner.tree.files + seq![FileSpec { name: "mod.rs"@, content: inner.index }],
            subs: inner.tree.subs,
        },
    }
}

/// Tree-shape preservation: the generated subdirectories are exactly the
/// input subdirectories, one each, in order and by name; applying the
/// same statement to each subdirectory's own entries carries the mirror
/// down the whole tree.
pub proof fn lemma_tree_shape(entries: Seq<SrcEntry>, path: Seq<char>)
    ensures
        spec_compile_entries(entries, path).tree.subs.len() == dir_entries(entries).len(),
        forall|k: int|
            0 <= k < dir_entries(entries).len() ==> spec_compile_entries(entries, path).tree.subs[k]
                == spec_mirrored_sub(dir_entries(entries)[k], path),
    decreases entries.len(),
{
    if entries.len() > 0 {
        lemma_tree_shape(entries.drop_last(), path);
        let prev = spec_compile_entries(entries.drop_last(), path);
        let pd = dir_entries(entries.drop_last());
        assert forall|k: int|
            0 <= k < dir_entries(entries).len() implies spec_compile_entries(
            entries,
            path,
        ).tree.subs[k] == spec_mirrored_sub(dir_entries(entries)[k], path) by {
            if k < pd.len() {
                assert(dir_entries(entries)[k] == pd[k]);
                assert(spec_compile_entries(entries, path).tree.subs[k] == prev.tree.subs[k]);
            } else {
                match entries.last() {
                    SrcEntry::Dir(d) => {
                        assert(dir_entries(entries)[k] == d);
                        assert(spec_compile_entries(entries, path).tree.subs[k]
                            == spec_compile_entry(entries.last(), path).sub.unwrap());
                        assert(spec_compile_entry(entries.last(), path).sub.unwrap()
                            == spec_mirrored_sub(d, path));
                    },
                    SrcEntry::File(_) => {},
                }
            }
        }
    }
}

/// A file that is not a recognized template contributes nothing: no
/// generated file, no declaration, no warning.
pub proof fn lemma_non_matching_ignored(e: SrcEntry, path: Seq<char>, f: SrcFile)
    requires
        e == SrcEntry::File(f),
        !spec_is_template(f.name@),
    ensures
        spec_compile_entry(e, path).files.len() == 0,
        spec_compile_entry(e, path).sub matches None,
        spec_compile_entry(e, path).index.len() == 0,
        spec_compile_entry(e, path).warnings.len() == 0,
        spec_compile_entry(e, path).notes.len() == 0,
{
}

/// Whether the generated file `fs` is exactly what entry `j` yields: a
/// recognized template file that parses, generating its sibling file.
pub open spec fn spec_generated_from(
    entries: Seq<SrcEntry>,
    fs: FileSpec,
    j: int,
) -> bool {
    &&& 0 <= j < entries.len()
    &&& match entries[j] {
        SrcEntry::File(f) => {
            &&& spec_is_template(f.name@)
            &&& match spec_template(f.content@) {
                SpecParse::Parsed(t) => fs == FileSpec {
                    name: "template_"@ + spec_base_name(f.name@) + ".rs"@,
                    content: spec_rust_source(t, spec_base_name(f.name@)),
                },
                SpecParse::Failed(_, _) => false,
            }
        },
        SrcEntry::Dir(_) => false,
    }
}

/// Some recognized template file among `entries` generates `fs`.
pub open spec fn spec_some_template_generates(entries: Seq<SrcEntry>, fs: FileSpec) -> bool {
    exists|j: int| spec_generated_from(entries, fs, j)
}

/// Non-matching files are never reflected in the output: every file
/// generated directly in a directory is the compiled form of one of its
/// recognized template files that parsed.
pub proof fn lemma_files_only_from_templates(entries: Seq<SrcEntry>, path: Seq<char>)
    ensures
        forall|k: int|
            0 <= k < spec_compile_entries(entries, path).tree.files.len()
                ==> #[trigger] spec_some_template_generates(
                entries,
                spec_compile_entries(entries, path).tree.files[k],
            ),
    decreases entries.len(),
{
    if entries.len() > 0 {
        lemma_files_only_from_templates(entries.drop_last(), path);
        let out = spec_compile_entries(entries, path);
        let prev = spec_compile_entries(entries.drop_last(), path);
        assert forall|k: int| 0 <= k < out.tree.files.len() implies spec_some_template_generates(
            entries,
            out.tree.files[k],
        ) by {
            if k < prev.tree.files.len() {
                assert(out.tree.files[k] == prev.tree.files[k]);
                assert(spec_some_template_generates(entries.drop_last(), prev.tree.files[k]));
                let j = choose|j: int|
                    spec_generated_from(entries.drop_last(), prev.tree.files[k], j);
                assert(spec_generated_from(entries.drop_last(), prev.tree.files[k], j));
                assert(entries.drop_last()[j] == entries[j]);
                assert(spec_generated_from(entries, out.tree.files[k], j));
            } else {
                let j = entries.len() - 1;
                let e = spec_compile_entry(entries.last(), path);
                assert(out.tree.files[k] == e.files[k - prev.tree.files.len()]);
                match entries.last() {
                    SrcEntry::File(f) => {
                        if spec_is_template(f.name@) {
                            match spec_template(f.content@) {
                                SpecParse::Parsed(t) => {
                                    assert(k - prev.tree.files.len() == 0);
                                    assert(spec_generated_from(entries, out.tree.files[k], j));
                                },
                                SpecParse::Failed(_, _) => {
                                    assert(false);
                                },
                            }
                        } else {
                            assert(false);
                        }
                    },
                    SrcEntry::Dir(_) => {
                        assert(false);
                    },
                }
            }
        }
    }
}

/// Fault isolation: a recognized template file that fails to parse yields
/// exactly one warning, naming the file's path and the positional cause,
/// and no generated file; one that parses yields its generated file and
/// no warning.  Either way the rest of the directory is compiled
/// unchanged, and the whole pass still succeeds.
pub proof fn lemma_fault_isolation(entries: Seq<SrcEntry>, path: Seq<char>, k: int, f: SrcFile)
    requires
        0 <= k < entries.len(),
        entries[k] == SrcEntry::File(f),
        spec_is_template(f.name@),
    ensures
        forall|p: int, kind: crate::template::ErrorKind|
            spec_template(f.content@) == SpecParse::Failed(p, kind) ==> spec_compile_entries(
                entries,
                path,
            ).warnings.contains(
                WarnSpec {
                    path: path + "/"@ + f.name@,
                    message: spec_error_message(p as nat, kind),
                },
            ),
        forall|t: crate::template::TemplateView|
            spec_template(f.content@) == SpecParse::Parsed(t) ==> spec_compile_entries(
                entries,
                path,
            ).tree.files.contains(
                FileSpec {
                    name: "template_"@ + spec_base_name(f.name@) + ".rs"@,
                    content: spec_rust_source(t, spec_base_name(f.name@)),
                },
            ),
    decreases entries.len(),
{
    let out = spec_compile_entries(entries, path);
    let prev = spec_compile_entries(entries.drop_last(), path);
    let e = spec_compile_entry(entries.last(), path);
    if k == entries.len() - 1 {
        assert forall|p: int, kind: crate::template::ErrorKind|
            spec_template(f.content@) == SpecParse::Failed(p, kind) implies out.warnings.contains(
            WarnSpec { path: path + "/"@ + f.name@, message: spec_error_message(p as nat, kind) },
        ) by {
            assert(out.warnings[prev.warnings.len() as int] == WarnSpec {
                path: path + "/"@ + f.name@,
                message: spec_error_message(p as nat, kind),
            });
        }
        assert forall|t: crate::template::TemplateView|
            spec_template(f.content@) == SpecParse::Parsed(t) implies out.tree.files.contains(
            FileSpec {
                name: "template_"@ + spec_base_name(f.name@) + ".rs"@,
                content: spec_rust_source(t, spec_base_name(f.name@)),
            },
        ) by {
            assert(out.tree.files[prev.tree.files.len() as int] == FileSpec {
                name: "template_"@ + spec_base_name(f.name@) + ".rs"@,
                content: spec_rust_source(t, spec_base_name(f.name@)),
            });
        }
    } else {
        lemma_fault_isolation(entries.drop_last(), path, k, f);
        assert(entries.drop_last()[k] == entries[k]);
        assert forall|p: int, kind: crate::template::ErrorKind|
            spec_template(f.content@) == SpecParse::Failed(p, kind) implies out.warnings.contains(
            WarnSpec { path: path + "/"@ + f.name@, message: spec_error_message(p as nat, kind) },
        ) by {
            let w = WarnSpec {
                path: path + "/"@ + f.name@,
                message: spec_error_message(p as nat, kind),
            };
            let j = choose|j: int| 0 <= j < prev.warnings.len() && prev.warnings[j] == w;
            assert(out.warnings[j] == w);
        }
        assert forall|t: crate::template::TemplateView|
            spec_template(f.content@) == SpecParse::Parsed(t) implies out.tree.files.contains(
            FileSpec {
                name: "template_"@ + spec_base_name(f.name@) + ".rs"@,
                content: spec_rust_source(t, spec_base_name(f.name@)),
            },
        ) by {
            let w = FileSpec {
                name: "template_"@ + spec_base_name(f.name@) + ".rs"@,
                content: spec_rust_source(t, spec_base_name(f.name@)),
            };
            let j = choose|j: int| 0 <= j < prev.tree.files.len() && prev.tree.files[j] == w;
            assert(out.tree.files[j] == w);
        }
    }
}

} // verus!
