//! The static-asset compiler: each recognized stylesheet or script file
//! becomes a named constant pairing its bytes with a cache-busted public
//! name `<original-name>-<fingerprint>.<suffix>`, and every constant is
//! registered in a deduplicated, lexicographically ordered registry.

use vstd::prelude::*;
use crate::decimal::{spec_decimal, append_decimal};
use crate::template_utils::push_char;

verus! {

// ---------------------------------------------------------------------
// The fingerprint: an md5 digest truncated to six bytes, URL-safe
// base-64 encoded.
// ---------------------------------------------------------------------
/// The md5 digest of the given bytes.  The algorithm itself is the
/// outside crate's business; the contracts rely only on the digest being
/// a sixteen-byte function of the input.
pub uninterp spec fn md5_of(data: Seq<u8>) -> Seq<u8>;

/// Relies on md5::compute: the digest is a pure function of the input
/// bytes alone, and is exactly sixteen bytes long.
#[verifier::external_body]
fn md5_digest(data: &[u8]) -> (r: Vec<u8>)
    ensures
        r@ == md5_of(data@),
        r@.len() == 16,
{
    md5::compute(data).0.to_vec()
}

/// The URL-safe base-64 alphabet.
pub open spec fn b64_alphabet() -> Seq<char> {
    "ABCDEFGHIJKLMNOPQRSTUVWXYZabcdefghijklmnopqrstuvwxyz0123456789-_"@
}

/// The four alphabet characters encoding one group of three bytes.
pub open spec fn b64_group(a: u8, b: u8, c: u8) -> Seq<char> {
    seq![
        b64_alphabet()[a as int / 4],
        b64_alphabet()[(a as int % 4) * 16 + b as int / 16],
        b64_alphabet()[(b as int % 16) * 4 + c as int / 64],
        b64_alphabet()[c as int % 64],
    ]
}

/// URL-safe base-64 of a byte string whose length is a multiple of three:
/// four characters for each group of three bytes, no padding.
pub open spec fn spec_b64url(s: Seq<u8>) -> Seq<char>
    decreases s.len(),
{
    if s.len() < 3 {
        Seq::empty()
    } else {
        b64_group(s[0], s[1], s[2]) + spec_b64url(s.skip(3))
    }
}

/// Relies on base64's URL_SAFE engine: RFC 4648 URL-safe encoding with
/// the alphabet `A..Za..z0..9-_`; an input of length divisible by three
/// takes no padding, so each three-byte group becomes exactly the four
/// alphabet characters of its bit groups.
#[verifier::external_body]
fn b64url_encode(data: &[u8]) -> (r: String)
    requires
        data@.len() % 3 == 0,
    ensures
        r@ == spec_b64url(data@),
{
    base64::Engine::encode(&base64::engine::general_purpose::URL_SAFE, data)
}

/// The fingerprint of a static file's content.
pub open spec fn spec_checksum_slug(data: Seq<u8>) -> Seq<char> {
    spec_b64url(md5_of(data).take(6))
}

/// A short and url-safe checksum string from the given data: the md5
/// digest truncated to six bytes, URL-safe base-64 encoded.
pub fn checksum_slug(data: &[u8]) -> (r: String)
    ensures
        r@ == spec_checksum_slug(data@),
{
    let digest = md5_digest(data);
    let mut six: Vec<u8> = Vec::new();
    let mut i: usize = 0;
    while i < 6
        invariant
            i <= 6,
            digest@.len() == 16,
            digest@ == md5_of(data@),
            six@ == md5_of(data@).take(i as int),
        decreases 6 - i,
    {
        six.push(digest[i]);
        proof {
            assert(md5_of(data@).take(i + 1) =~= md5_of(data@).take(i as int).push(
                md5_of(data@)[i as int],
            ));
        }
        i = i + 1;
    }
    b64url_encode(six.as_slice())
}

/// Fingerprint determinism: identical content yields the identical
/// fingerprint, hence the identical generated public name.
pub proof fn lemma_fingerprint_deterministic(a: Seq<u8>, b: Seq<u8>)
    requires
        a == b,
    ensures
        spec_checksum_slug(a) == spec_checksum_slug(b),
{
}

/// Determinism of the whole static-asset pass: identical input files
/// yield the identical registry file, identifiers and notices.
pub proof fn lemma_statics_deterministic(a: Seq<StaticSource>, b: Seq<StaticSource>)
    requires
        a == b,
    ensures
        spec_statics_source(a) == spec_statics_source(b),
        spec_statics_names(a) == spec_statics_names(b),
        spec_statics_notes(a) == spec_statics_notes(b),
{
}

// ---------------------------------------------------------------------
// Emitting one static file as a constant
// ---------------------------------------------------------------------
/// The decimal items of a byte array literal after the first: each
/// preceded by a comma and a space.
pub open spec fn spec_byte_tail(c: Seq<u8>) -> Seq<char>
    decreases c.len(),
{
    if c.len() == 0 {
        Seq::empty()
    } else {
        ", "@ + spec_decimal(c[0] as nat) + spec_byte_tail(c.skip(1))
    }
}

/// A byte string as a Rust array literal: `[b0, b1, ...]`.
pub open spec fn spec_bytes_array(c: Seq<u8>) -> Seq<char> {
    if c.len() == 0 {
        "[]"@
    } else {
        "["@ + spec_decimal(c[0] as nat) + spec_byte_tail(c.skip(1)) + "]"@
    }
}

proof fn lemma_byte_tail_step(c: Seq<u8>, i: int)
    requires
        0 <= i < c.len(),
    ensures
        spec_byte_tail(c.take(i + 1)) == spec_byte_tail(c.take(i)) + ", "@ + spec_decimal(
            c[i] as nat,
        ),
    decreases i,
{
    if i == 0 {
        assert(c.take(1) =~= seq![c[0]]);
        assert(c.take(0) =~= Seq::<u8>::empty());
        reveal_with_fuel(spec_byte_tail, 2);
        assert(seq![c[0]].skip(1) =~= Seq::<u8>::empty());
        assert(spec_byte_tail(c.take(1)) =~= spec_byte_tail(c.take(0)) + ", "@ + spec_decimal(
            c[0] as nat,
        ));
    } else {
        lemma_byte_tail_step(c.skip(1), i - 1);
        assert(c.take(i + 1).skip(1) =~= c.skip(1).take(i));
        assert(c.take(i).skip(1) =~= c.skip(1).take(i - 1));
        assert(c.take(i + 1)[0] == c[0]);
        assert(c.take(i)[0] == c[0]);
        assert(c.skip(1)[i - 1] == c[i]);
        assert(spec_byte_tail(c.take(i + 1)) == ", "@ + spec_decimal(c[0] as nat) + spec_byte_tail(
            c.skip(1).take(i),
        ));
        assert(spec_byte_tail(c.take(i + 1)) =~= spec_byte_tail(c.take(i)) + ", "@ + spec_decimal(
            c[i] as nat,
        ));
    }
}

/// Append the byte-array literal for `content` to `out`.
pub fn append_bytes_array(out: &mut String, content: &Vec<u8>)
    ensures
        final(out)@ == old(out)@ + spec_bytes_array(content@),
{
    if content.len() == 0 {
        out.append("[]");
        return ;
    }
    let ghost orig = out@;
    out.append("[");
    append_decimal(out, content[0] as u64);
    let ghost h1 = out@;
    let ghost tail = content@.skip(1);
    let mut i: usize = 1;
    while i < content.len()
        invariant
            1 <= i <= content@.len(),
            tail == content@.skip(1),
            out@ == h1 + spec_byte_tail(tail.take(i - 1)),
        decreases content@.len() - i,
    {
        proof {
            lemma_byte_tail_step(tail, i - 1);
            assert(tail[i - 1] == content@[i as int]);
        }
        out.append(", ");
        append_decimal(out, content[i] as u64);
        i = i + 1;
    }
    proof {
        assert(tail.take(content@.len() - 1) =~= tail);
    }
    out.append("]");
    proof {
        assert(out@ =~= orig + spec_bytes_array(content@));
    }
}

/// The constant emitted for one recognized static file: its origin as a
/// comment, its bytes, and its cache-busted public name
/// `<original-name>-<fingerprint>.<suffix>`.
pub open spec fn spec_static_file_source(
    path: Seq<char>,
    name: Seq<char>,
    suf: Seq<char>,
    content: Seq<u8>,
) -> Seq<char> {
    "\n// From \""@ + path + "\"\n#[allow(non_upper_case_globals)]\npub static "@ + name + "_"@
        + suf + ": StaticFile = StaticFile {\n  content: &"@ + spec_bytes_array(content)
        + ",\n  name: \""@ + name + "-"@ + spec_checksum_slug(content) + "."@ + suf + "\",\n};\n"@
}

/// Append the constant for one static file to `out`.
pub fn write_static_file(out: &mut String, path: &str, name: &str, content: &Vec<u8>, suf: &str)
    ensures
        final(out)@ == old(out)@ + spec_static_file_source(path@, name@, suf@, content@),
{
    let ghost orig = out@;
    out.append("\n// From \"");
    out.append(path);
    out.append("\"\n#[allow(non_upper_case_globals)]\npub static ");
    out.append(name);
    out.append("_");
    out.append(suf);
    out.append(": StaticFile = StaticFile {\n  content: &");
    append_bytes_array(out, content);
    out.append(",\n  name: \"");
    out.append(name);
    out.append("-");
    let slug = checksum_slug(content.as_slice());
    out.append(slug.as_str());
    out.append(".");
    out.append(suf);
    out.append("\",\n};\n");
    proof {
        assert(out@ =~= orig + spec_static_file_source(path@, name@, suf@, content@));
    }
}

// ---------------------------------------------------------------------
// The registry: deduplicated, lexicographically ordered
// ---------------------------------------------------------------------
/// Lexicographic order on character strings, by code point.
pub open spec fn lex_le(a: Seq<char>, b: Seq<char>) -> bool
    decreases a.len(),
{
    if a.len() == 0 {
        true
    } else if b.len() == 0 {
        false
    } else if a[0] != b[0] {
        (a[0] as u32) < (b[0] as u32)
    } else {
        lex_le(a.skip(1), b.skip(1))
    }
}

pub fn str_le(a: &str, b: &str) -> (r: bool)
    ensures
        r == lex_le(a@, b@),
{
    let na = a.unicode_len();
    let nb = b.unicode_len();
    let mut i: usize = 0;
    proof {
        assert(a@.skip(0) =~= a@);
        assert(b@.skip(0) =~= b@);
    }
    loop
        invariant
            i <= na,
            i <= nb,
            na == a@.len(),
            nb == b@.len(),
            lex_le(a@, b@) == lex_le(a@.skip(i as int), b@.skip(i as int)),
        decreases na - i,
    {
        if i >= na {
            return true;
        }
        if i >= nb {
            return false;
        }
        let ca = a.get_char(i);
        let cb = b.get_char(i);
        if ca != cb {
            return (ca as u32) < (cb as u32);
        }
        proof {
            assert(a@.skip(i as int).skip(1) =~= a@.skip(i + 1));
            assert(b@.skip(i as int).skip(1) =~= b@.skip(i + 1));
        }
        i = i + 1;
    }
}

/// Insert a name into an ordered, deduplicated registry: before the first
/// entry it precedes, and not at all if it is already present.
pub open spec fn spec_insert(v: Seq<Seq<char>>, x: Seq<char>) -> Seq<Seq<char>>
    decreases v.len(),
{
    if v.len() == 0 {
        seq![x]
    } else if v[0] == x {
        v
    } else if lex_le(x, v[0]) {
        seq![x] + v
    } else {
        seq![v[0]] + spec_insert(v.skip(1), x)
    }
}

proof fn lemma_insert_at(v: Seq<Seq<char>>, x: Seq<char>, i: int)
    requires
        0 <= i <= v.len(),
        forall|k: int| 0 <= k < i ==> v[k] != x && !lex_le(x, v[k]),
    ensures
        i == v.len() ==> spec_insert(v, x) == v + seq![x],
        i < v.len() && v[i] == x ==> spec_insert(v, x) == v,
        i < v.len() && v[i] != x && lex_le(x, v[i]) ==> spec_insert(v, x) == v.take(i) + seq![x]
            + v.skip(i),
    decreases i,
{
    if i == 0 {
        if v.len() == 0 {
            assert(spec_insert(v, x) =~= v + seq![x]);
        } else if v[0] != x && lex_le(x, v[0]) {
            assert(spec_insert(v, x) =~= v.take(0) + seq![x] + v.skip(0));
        }
    } else {
        lemma_insert_at(v.skip(1), x, i - 1);
        assert(forall|k: int|
            0 <= k < i - 1 ==> v.skip(1)[k] == v[k + 1] && v.skip(1)[k] != x && !lex_le(
                x,
                v.skip(1)[k],
            ));
        assert(spec_insert(v, x) == seq![v[0]] + spec_insert(v.skip(1), x));
        if i == v.len() {
            assert(seq![v[0]] + (v.skip(1) + seq![x]) =~= v + seq![x]);
        } else if v[i] == x {
            assert(v.skip(1)[i - 1] == v[i]);
            assert(seq![v[0]] + v.skip(1) =~= v);
        } else if lex_le(x, v[i]) {
            assert(v.skip(1)[i - 1] == v[i]);
            assert(seq![v[0]] + (v.skip(1).take(i - 1) + seq![x] + v.skip(1).skip(i - 1))
                =~= v.take(i) + seq![x] + v.skip(i));
        }
    }
}

/// Lexicographic order is total: of two strings, one is less-or-equal to
/// the other.
pub proof fn lemma_lex_total(a: Seq<char>, b: Seq<char>)
    ensures
        lex_le(a, b) || lex_le(b, a),
    decreases a.len(),
{
    if a.len() > 0 && b.len() > 0 && a[0] == b[0] {
        lemma_lex_total(a.skip(1), b.skip(1));
    } else if a.len() > 0 && b.len() > 0 {
        vstd::utf8::char_u32_cast(a[0], a[0] as u32);
        vstd::utf8::char_u32_cast(b[0], b[0] as u32);
        assert((a[0] as u32) != (b[0] as u32));
    }
}

/// Lexicographic order is antisymmetric: two strings each less-or-equal
/// to the other are the same string.
pub proof fn lemma_lex_antisym(a: Seq<char>, b: Seq<char>)
    requires
        lex_le(a, b),
        lex_le(b, a),
    ensures
        a == b,
    decreases a.len(),
{
    if a.len() == 0 {
        assert(b.len() == 0);
        assert(a =~= b);
    } else if a[0] == b[0] {
        lemma_lex_antisym(a.skip(1), b.skip(1));
        assert(a =~= seq![a[0]] + a.skip(1));
        assert(b =~= seq![b[0]] + b.skip(1));
    }
}

/// Lexicographic order is transitive.
pub proof fn lemma_lex_trans(a: Seq<char>, b: Seq<char>, c: Seq<char>)
    requires
        lex_le(a, b),
        lex_le(b, c),
    ensures
        lex_le(a, c),
    decreases a.len(),
{
    if a.len() > 0 && b.len() > 0 && c.len() > 0 && a[0] == b[0] && b[0] == c[0] {
        lemma_lex_trans(a.skip(1), b.skip(1), c.skip(1));
    }
}

/// Strictly ordered: every entry lexicographically precedes the next, so
/// the registry is both ordered and free of duplicates.
pub open spec fn spec_strictly_sorted(v: Seq<Seq<char>>) -> bool {
    forall|k: int| 0 <= k < v.len() - 1 ==> lex_le(#[trigger] v[k], v[k + 1]) && v[k] != v[k + 1]
}

/// The first entry after an insertion is the inserted name or the old
/// first entry.
proof fn lemma_insert_head(v: Seq<Seq<char>>, x: Seq<char>)
    ensures
        spec_insert(v, x).len() > 0,
        spec_insert(v, x)[0] == x || (v.len() > 0 && spec_insert(v, x)[0] == v[0]),
{
}

/// Insertion keeps the registry strictly ordered.
proof fn lemma_insert_sorted(v: Seq<Seq<char>>, x: Seq<char>)
    requires
        spec_strictly_sorted(v),
    ensures
        spec_strictly_sorted(spec_insert(v, x)),
    decreases v.len(),
{
    if v.len() == 0 {
    } else if v[0] == x {
    } else if lex_le(x, v[0]) {
        let r = seq![x] + v;
        assert forall|k: int| 0 <= k < r.len() - 1 implies lex_le(#[trigger] r[k], r[k + 1])
            && r[k] != r[k + 1] by {
            if k > 0 {
                assert(r[k] == v[k - 1]);
                assert(r[k + 1] == v[k]);
            }
        }
    } else {
        assert(spec_strictly_sorted(v.skip(1))) by {
            assert forall|k: int| 0 <= k < v.skip(1).len() - 1 implies lex_le(
                #[trigger] v.skip(1)[k],
                v.skip(1)[k + 1],
            ) && v.skip(1)[k] != v.skip(1)[k + 1] by {
                assert(v.skip(1)[k] == v[k + 1]);
                assert(v.skip(1)[k + 1] == v[k + 2]);
            }
        }
        lemma_insert_sorted(v.skip(1), x);
        lemma_insert_head(v.skip(1), x);
        lemma_lex_total(x, v[0]);
        let t = spec_insert(v.skip(1), x);
        let r = seq![v[0]] + t;
        assert(spec_insert(v, x) == r);
        assert forall|k: int| 0 <= k < r.len() - 1 implies lex_le(#[trigger] r[k], r[k + 1])
            && r[k] != r[k + 1] by {
            if k == 0 {
                assert(r[1] == t[0]);
                if t[0] == x {
                    assert(lex_le(v[0], x) && v[0] != x);
                } else {
                    assert(v.len() > 1 && t[0] == v[1]);
                    assert(lex_le(v[0], v[1]) && v[0] != v[1]);
                }
            } else {
                assert(r[k] == t[k - 1]);
                assert(r[k + 1] == t[k]);
            }
        }
    }
}

/// In a strictly ordered registry, an earlier entry precedes a later one
/// and differs from it: the registry holds no duplicate anywhere.
pub proof fn lemma_sorted_distinct(v: Seq<Seq<char>>, i: int, j: int)
    requires
        spec_strictly_sorted(v),
        0 <= i < j < v.len(),
    ensures
        lex_le(v[i], v[j]),
        v[i] != v[j],
    decreases j - i,
{
    if j == i + 1 {
    } else {
        lemma_sorted_distinct(v, i, j - 1);
        lemma_lex_trans(v[i], v[j - 1], v[j]);
        if v[i] == v[j] {
            lemma_lex_antisym(v[i], v[j - 1]);
        }
    }
}

/// Insertion adds exactly the inserted name to the registry's members.
proof fn lemma_insert_membership(v: Seq<Seq<char>>, x: Seq<char>, y: Seq<char>)
    ensures
        spec_insert(v, x).contains(y) <==> (v.contains(y) || y == x),
    decreases v.len(),
{
    let r = spec_insert(v, x);
    if v.len() == 0 {
        assert(r[0] == x);
        if r.contains(y) {
            let i = choose|i: int| 0 <= i < r.len() && r[i] == y;
            assert(y == x);
        }
    } else if v[0] == x {
        assert(v[0] == x && v.contains(x));
    } else if lex_le(x, v[0]) {
        if v.contains(y) {
            let i = choose|i: int| 0 <= i < v.len() && v[i] == y;
            assert(r[i + 1] == y);
        }
        if y == x {
            assert(r[0] == y);
        }
        if r.contains(y) {
            let i = choose|i: int| 0 <= i < r.len() && r[i] == y;
            if i == 0 {
                assert(y == x);
            } else {
                assert(v[i - 1] == y);
            }
        }
    } else {
        lemma_insert_membership(v.skip(1), x, y);
        let t = spec_insert(v.skip(1), x);
        assert(r == seq![v[0]] + t);
        if r.contains(y) {
            let i = choose|i: int| 0 <= i < r.len() && r[i] == y;
            if i == 0 {
                assert(v[0] == y && v.contains(y));
            } else {
                assert(t[i - 1] == y && t.contains(y));
                if v.skip(1).contains(y) {
                    let j = choose|j: int| 0 <= j < v.skip(1).len() && v.skip(1)[j] == y;
                    assert(v[j + 1] == y);
                }
            }
        }
        if v.contains(y) {
            let i = choose|i: int| 0 <= i < v.len() && v[i] == y;
            if i == 0 {
                assert(r[0] == y);
            } else {
                assert(v.skip(1)[i - 1] == v[i]);
                assert(v.skip(1).contains(y));
                assert(t.contains(y));
                let j = choose|j: int| 0 <= j < t.len() && t[j] == y;
                assert(r[j + 1] == y);
            }
        }
        if y == x {
            let j = choose|j: int| 0 <= j < t.len() && t[j] == y;
            assert(r[j + 1] == y);
        }
    }
}

/// The identifiers of the recognized files among `files`, in input order.
pub open spec fn spec_idents(files: Seq<StaticSource>) -> Seq<Seq<char>>
    decreases files.len(),
{
    if files.len() == 0 {
        Seq::empty()
    } else {
        spec_idents(files.drop_last()) + (match spec_file_ident(files.last()) {
            Some(id) => seq![id],
            None => Seq::<Seq<char>>::empty(),
        })
    }
}

/// The registry holds exactly the identifiers of the recognized files:
/// nothing is lost, and nothing else creeps in.
pub proof fn lemma_registry_members(files: Seq<StaticSource>, y: Seq<char>)
    ensures
        spec_statics_names(files).contains(y) <==> spec_idents(files).contains(y),
    decreases files.len(),
{
    if files.len() > 0 {
        lemma_registry_members(files.drop_last(), y);
        let pn = spec_statics_names(files.drop_last());
        let pi = spec_idents(files.drop_last());
        match spec_file_ident(files.last()) {
            Some(id) => {
                lemma_insert_membership(pn, id, y);
                assert(spec_idents(files) == pi + seq![id]);
                if pi.contains(y) {
                    let i = choose|i: int| 0 <= i < pi.len() && pi[i] == y;
                    assert(spec_idents(files)[i] == y);
                }
                if y == id {
                    assert(spec_idents(files)[pi.len() as int] == y);
                }
                if spec_idents(files).contains(y) {
                    let i = choose|i: int| 0 <= i < spec_idents(files).len()
                        && spec_idents(files)[i] == y;
                    if i < pi.len() {
                        assert(pi[i] == y);
                    } else {
                        assert(y == id);
                    }
                }
            },
            None => {
                assert(spec_idents(files) =~= pi);
            },
        }
    }
}

/// Two strictly ordered registries with the same members are the same
/// registry: the sorted, deduplicated form is canonical.
pub proof fn lemma_sorted_canonical(a: Seq<Seq<char>>, b: Seq<Seq<char>>)
    requires
        spec_strictly_sorted(a),
        spec_strictly_sorted(b),
        forall|y: Seq<char>| a.contains(y) <==> b.contains(y),
    ensures
        a == b,
    decreases a.len(),
{
    if a.len() == 0 {
        if b.len() > 0 {
            assert(b.contains(b[0]));
        }
        assert(a =~= b);
    } else if b.len() == 0 {
        assert(a.contains(a[0]));
    } else {
        // Each head is the least member of its registry, and the two
        // member sets agree, so the heads agree.
        assert(b.contains(a[0]));
        let i = choose|i: int| 0 <= i < b.len() && b[i] == a[0];
        assert(a.contains(b[0]));
        let j = choose|j: int| 0 <= j < a.len() && a[j] == b[0];
        if i > 0 && j > 0 {
            lemma_sorted_distinct(b, 0, i);
            lemma_sorted_distinct(a, 0, j);
            lemma_lex_antisym(a[0], b[0]);
        }
        assert(a[0] == b[0]);
        assert(spec_strictly_sorted(a.skip(1))) by {
            assert forall|k: int| 0 <= k < a.skip(1).len() - 1 implies lex_le(
                #[trigger] a.skip(1)[k],
                a.skip(1)[k + 1],
            ) && a.skip(1)[k] != a.skip(1)[k + 1] by {
                assert(a.skip(1)[k] == a[k + 1]);
                assert(a.skip(1)[k + 1] == a[k + 2]);
            }
        }
        assert(spec_strictly_sorted(b.skip(1))) by {
            assert forall|k: int| 0 <= k < b.skip(1).len() - 1 implies lex_le(
                #[trigger] b.skip(1)[k],
                b.skip(1)[k + 1],
            ) && b.skip(1)[k] != b.skip(1)[k + 1] by {
                assert(b.skip(1)[k] == b[k + 1]);
                assert(b.skip(1)[k + 1] == b[k + 2]);
            }
        }
        assert(forall|y: Seq<char>| a.skip(1).contains(y) <==> b.skip(1).contains(y)) by {
            assert forall|y: Seq<char>| a.skip(1).contains(y) implies b.skip(1).contains(y) by {
                lemma_tail_member(a, b, y);
            }
            assert forall|y: Seq<char>| b.skip(1).contains(y) implies a.skip(1).contains(y) by {
                lemma_tail_member(b, a, y);
            }
        }
        lemma_sorted_canonical(a.skip(1), b.skip(1));
        assert(a =~= seq![a[0]] + a.skip(1));
        assert(b =~= seq![b[0]] + b.skip(1));
    }
}

/// A member of a strictly ordered registry's tail is a member of any
/// registry with the same members and the same head, past that head.
proof fn lemma_tail_member(a: Seq<Seq<char>>, b: Seq<Seq<char>>, y: Seq<char>)
    requires
        spec_strictly_sorted(a),
        spec_strictly_sorted(b),
        a.len() > 0,
        b.len() > 0,
        a[0] == b[0],
        forall|z: Seq<char>| a.contains(z) <==> b.contains(z),
        a.skip(1).contains(y),
    ensures
        b.skip(1).contains(y),
{
    let i = choose|i: int| 0 <= i < a.skip(1).len() && a.skip(1)[i] == y;
    assert(a[i + 1] == y);
    lemma_sorted_distinct(a, 0, i + 1);
    assert(a.contains(y)) by {
        assert(a[i + 1] == y);
    }
    assert(b.contains(y));
    let j = choose|j: int| 0 <= j < b.len() && b[j] == y;
    assert(j != 0) by {
        if j == 0 {
            assert(y == b[0] && b[0] == a[0]);
        }
    }
    assert(b.skip(1)[j - 1] == y);
}

/// The canonical-registry law: two runs whose recognized files yield the
/// same set of identifiers produce the identical registry, whatever
/// order the directory walk delivered the files in.
pub proof fn lemma_registry_order_independent(a: Seq<StaticSource>, b: Seq<StaticSource>)
    requires
        forall|y: Seq<char>| spec_idents(a).contains(y) <==> spec_idents(b).contains(y),
    ensures
        spec_statics_names(a) == spec_statics_names(b),
{
    lemma_registry_sorted(a);
    lemma_registry_sorted(b);
    assert(forall|y: Seq<char>|
        spec_statics_names(a).contains(y) <==> spec_statics_names(b).contains(y)) by {
        assert forall|y: Seq<char>|
            spec_statics_names(a).contains(y) <==> spec_statics_names(b).contains(y) by {
            lemma_registry_members(a, y);
            lemma_registry_members(b, y);
        }
    }
    lemma_sorted_canonical(spec_statics_names(a), spec_statics_names(b));
}

/// The registry invariant: however many files are compiled, and in
/// whatever order they arrive, the registry of generated identifiers is
/// strictly ordered, hence deduplicated, so the emission order of the
/// generated collection is stable.
pub proof fn lemma_registry_sorted(files: Seq<StaticSource>)
    ensures
        spec_strictly_sorted(spec_statics_names(files)),
        forall|i: int, j: int|
            0 <= i < j < spec_statics_names(files).len() ==> #[trigger] spec_statics_names(
                files,
            )[i] != #[trigger] spec_statics_names(files)[j],
    decreases files.len(),
{
    if files.len() > 0 {
        lemma_registry_sorted(files.drop_last());
        match spec_file_ident(files.last()) {
            Some(id) => {
                lemma_insert_sorted(spec_statics_names(files.drop_last()), id);
            },
            None => {},
        }
    }
    assert forall|i: int, j: int|
        0 <= i < j < spec_statics_names(files).len() implies #[trigger] spec_statics_names(
        files,
    )[i] != #[trigger] spec_statics_names(files)[j] by {
        lemma_sorted_distinct(spec_statics_names(files), i, j);
    }
}

/// Insert a generated identifier into the ordered registry.
pub fn insert_name(v: &mut Vec<String>, x: String)
    ensures
        crate::template::str_views(final(v)@) == spec_insert(
            crate::template::str_views(old(v)@),
            x@,
        ),
{
    let ghost vs = crate::template::str_views(v@);
    let ghost xv = x@;
    let mut i: usize = 0;
    loop
        invariant
            i <= v@.len(),
            v@ == old(v)@,
            vs == crate::template::str_views(v@),
            vs.len() == v@.len(),
            xv == x@,
            forall|k: int| 0 <= k < i ==> vs[k] != xv && !lex_le(xv, vs[k]),
        decreases v@.len() - i,
    {
        if i >= v.len() {
            proof {
                assert(vs == crate::template::str_views(old(v)@));
                lemma_insert_at(vs, xv, i as int);
                assert(spec_insert(vs, xv) == vs + seq![xv]);
            }
            v.push(x);
            proof {
                assert(crate::template::str_views(v@) =~= vs + seq![xv]);
                assert(crate::template::str_views(v@) == spec_insert(vs, xv));
            }
            return ;
        }
        proof {
            assert(vs[i as int] == v@[i as int]@);
        }
        if v[i].eq(&x) {
            proof {
                lemma_insert_at(vs, xv, i as int);
                assert(crate::template::str_views(v@) =~= vs);
            }
            return ;
        }
        if str_le(x.as_str(), v[i].as_str()) {
            proof {
                lemma_insert_at(vs, xv, i as int);
            }
            v.insert(i, x);
            proof {
                assert(crate::template::str_views(v@) =~= vs.take(i as int) + seq![xv] + vs.skip(
                    i as int,
                ));
            }
            return ;
        }
        i = i + 1;
    }
}

// ---------------------------------------------------------------------
// The whole static-asset pass
// ---------------------------------------------------------------------
/// One input file for the static-asset compiler: where it came from (for
/// diagnostics and dependency notices), its file name, and its bytes.
pub struct StaticSource {
    pub path: String,
    pub name: String,
    pub content: Vec<u8>,
}

pub open spec fn spec_ends_with(s: Seq<char>, suf: Seq<char>) -> bool {
    s.len() >= suf.len() && s.skip(s.len() - suf.len()) == suf
}

pub fn ends_with(s: &str, suf: &str) -> (r: bool)
    ensures
        r == spec_ends_with(s@, suf@),
{
    let n = s.unicode_len();
    let m = suf.unicode_len();
    if n < m {
        return false;
    }
    let mut i: usize = 0;
    while i < m
        invariant
            i <= m,
            m <= n,
            n == s@.len(),
            m == suf@.len(),
            forall|k: int| 0 <= k < i ==> s@[n - m + k] == suf@[k],
        decreases m - i,
    {
        if s.get_char(n - m + i) != suf.get_char(i) {
            proof {
                assert(s@.skip(n - m)[i as int] == s@[n - m + i]);
            }
            return false;
        }
        i = i + 1;
    }
    proof {
        assert(s@.skip(n - m) =~= suf@);
    }
    true
}

/// Which recognized suffix class a file name falls in: the base name and
/// the suffix tail, or nothing for an unrecognized file.
pub open spec fn spec_kind(name: Seq<char>) -> Option<(Seq<char>, Seq<char>)> {
    if spec_ends_with(name, ".css"@) {
        Some((name.take(name.len() - ".css"@.len()), "css"@))
    } else if spec_ends_with(name, ".js"@) {
        Some((name.take(name.len() - ".js"@.len()), "js"@))
    } else {
        None
    }
}

/// The constant text one input file contributes, in input order.
pub open spec fn spec_file_piece(f: StaticSource) -> Seq<char> {
    match spec_kind(f.name@) {
        Some((base, suf)) => spec_static_file_source(f.path@, base, suf, f.content@),
        None => Seq::empty(),
    }
}

/// The registry identifier one input file contributes, if recognized.
pub open spec fn spec_file_ident(f: StaticSource) -> Option<Seq<char>> {
    match spec_kind(f.name@) {
        Some((base, suf)) => Some(base + "_"@ + suf),
        None => None,
    }
}

pub open spec fn spec_statics_body(files: Seq<StaticSource>) -> Seq<char>
    decreases files.len(),
{
    if files.len() == 0 {
        Seq::empty()
    } else {
        spec_statics_body(files.drop_last()) + spec_file_piece(files.last())
    }
}

/// The registry after every recognized file was inserted, in input
/// order: deduplicated and lexicographically ordered by construction.
pub open spec fn spec_statics_names(files: Seq<StaticSource>) -> Seq<Seq<char>>
    decreases files.len(),
{
    if files.len() == 0 {
        Seq::empty()
    } else {
        match spec_file_ident(files.last()) {
            Some(id) => spec_insert(spec_statics_names(files.drop_last()), id),
            None => spec_statics_names(files.drop_last()),
        }
    }
}

/// The dependency notices: the path of every recognized file, in input
/// order.
pub open spec fn spec_statics_notes(files: Seq<StaticSource>) -> Seq<Seq<char>>
    decreases files.len(),
{
    if files.len() == 0 {
        Seq::empty()
    } else {
        spec_statics_notes(files.drop_last()) + (match spec_file_ident(files.last()) {
            Some(_) => seq![files.last().path@],
            None => Seq::<Seq<char>>::empty(),
        })
    }
}

pub open spec fn spec_refs_tail(names: Seq<Seq<char>>) -> Seq<char>
    decreases names.len(),
{
    if names.len() == 0 {
        Seq::empty()
    } else {
        ", &"@ + names[0] + spec_refs_tail(names.skip(1))
    }
}

/// The registry entries as references in the generated collection.
pub open spec fn spec_refs_join(names: Seq<Seq<char>>) -> Seq<char> {
    if names.len() == 0 {
        Seq::empty()
    } else {
        "&"@ + names[0] + spec_refs_tail(names.skip(1))
    }
}

proof fn lemma_refs_tail_step(names: Seq<Seq<char>>, i: int)
    requires
        0 <= i < names.len(),
    ensures
        spec_refs_tail(names.take(i + 1)) == spec_refs_tail(names.take(i)) + ", &"@ + names[i],
    decreases i,
{
    if i == 0 {
        assert(names.take(1) =~= seq![names[0]]);
        assert(names.take(0) =~= Seq::<Seq<char>>::empty());
        reveal_with_fuel(spec_refs_tail, 2);
        assert(seq![names[0]].skip(1) =~= Seq::<Seq<char>>::empty());
        assert(spec_refs_tail(names.take(1)) =~= spec_refs_tail(names.take(0)) + ", &"@
            + names[0]);
    } else {
        lemma_refs_tail_step(names.skip(1), i - 1);
        assert(names.take(i + 1).skip(1) =~= names.skip(1).take(i));
        assert(names.take(i).skip(1) =~= names.skip(1).take(i - 1));
        assert(names.take(i + 1)[0] == names[0]);
        assert(names.take(i)[0] == names[0]);
        assert(names.skip(1)[i - 1] == names[i]);
        assert(spec_refs_tail(names.take(i + 1)) == ", &"@ + names[0] + spec_refs_tail(
            names.skip(1).take(i),
        ));
        assert(spec_refs_tail(names.take(i + 1)) =~= spec_refs_tail(names.take(i)) + ", &"@
            + names[i]);
    }
}

/// The whole generated registry file: the StaticFile shape, one constant
/// per recognized input file in input order, and the ordered public
/// collection for enumeration.
pub open spec fn spec_statics_source(files: Seq<StaticSource>) -> Seq<char> {
    "pub struct StaticFile {\n  pub content: &'static [u8],\n  pub name: &'static str,\n}\n"@
        + spec_statics_body(files)
        + "\npub static STATICS: &'static [&'static StaticFile] = &["@ + spec_refs_join(
        spec_statics_names(files),
    ) + "];\n"@
}

/// What the static-asset pass produces: the registry file's text, the
/// ordered registry identifiers, and the dependency notices.
pub struct StaticsOutcome {
    pub source: String,
    pub names: Vec<String>,
    pub notes: Vec<String>,
}

/// Compile a flat directory of static files: every recognized stylesheet
/// or script becomes a named, cache-busted constant, and the registry
/// collects them deduplicated in lexicographic order.  Unrecognized files
/// contribute nothing.
pub fn compile_statics(files: &Vec<StaticSource>) -> (r: StaticsOutcome)
    ensures
        r.source@ == spec_statics_source(files@),
        crate::template::str_views(r.names@) == spec_statics_names(files@),
        crate::template::str_views(r.notes@) == spec_statics_notes(files@),
{
    let mut body = String::new();
    let mut names: Vec<String> = Vec::new();
    let mut notes: Vec<String> = Vec::new();
    let mut i: usize = 0;
    while i < files.len()
        invariant
            i <= files@.len(),
            body@ == spec_statics_body(files@.take(i as int)),
            crate::template::str_views(names@) == spec_statics_names(files@.take(i as int)),
            crate::template::str_views(notes@) == spec_statics_notes(files@.take(i as int)),
        decreases files@.len() - i,
    {
        proof {
            assert(files@.take(i + 1).drop_last() =~= files@.take(i as int));
            assert(files@.take(i + 1).last() == files@[i as int]);
        }
        let f = &files[i];
        let n = f.name.as_str().unicode_len();
        let matched: bool;
        let base: String;
        let suf: &str;
        if ends_with(f.name.as_str(), ".css") {
            proof {
                reveal_strlit(".css");
            }
            matched = true;
            base = f.name.as_str().substring_char(0, n - 4).to_owned();
            suf = "css";
            proof {
                assert(base@ == f.name@.take(f.name@.len() - ".css"@.len()));
            }
        } else if ends_with(f.name.as_str(), ".js") {
            proof {
                reveal_strlit(".js");
            }
            matched = true;
            base = f.name.as_str().substring_char(0, n - 3).to_owned();
            suf = "js";
            proof {
                assert(base@ == f.name@.take(f.name@.len() - ".js"@.len()));
            }
        } else {
            matched = false;
            base = String::new();
            suf = "";
        }
        if matched {
            write_static_file(&mut body, f.path.as_str(), base.as_str(), &f.content, suf);
            let mut id = base;
            id.append("_");
            id.append(suf);
            proof {
                assert(id@ =~= spec_file_ident(files@[i as int]).unwrap());
            }
            insert_name(&mut names, id);
            let ghost notes0 = crate::template::str_views(notes@);
            notes.push(f.path.clone());
            proof {
                assert(crate::template::str_views(notes@) =~= notes0 + seq![
                    files@[i as int].path@,
                ]);
            }
        } else {
            proof {
                assert(spec_file_piece(files@[i as int]) =~= Seq::<char>::empty());
                assert(body@ + Seq::<char>::empty() =~= body@);
                assert(crate::template::str_views(notes@) + Seq::<Seq<char>>::empty()
                    =~= crate::template::str_views(notes@));
            }
        }
        i = i + 1;
    }
    proof {
        assert(files@.take(files@.len() as int) =~= files@);
    }
    let mut source = String::from_str(
        "pub struct StaticFile {\n  pub content: &'static [u8],\n  pub name: &'static str,\n}\n",
    );
    source.append(body.as_str());
    source.append("\npub static STATICS: &'static [&'static StaticFile] = &[");
    let ghost reg = crate::template::str_views(names@);
    if names.len() > 0 {
        proof {
            assert(reg[0] == names@[0]@);
        }
        source.append("&");
        source.append(names[0].as_str());
        let ghost h1 = source@;
        let ghost tail = reg.skip(1);
        let mut k: usize = 1;
        while k < names.len()
            invariant
                1 <= k <= names@.len(),
                reg == crate::template::str_views(names@),
                reg.len() == names@.len(),
                tail == reg.skip(1),
                source@ == h1 + spec_refs_tail(tail.take(k - 1)),
            decreases names@.len() - k,
        {
            proof {
                lemma_refs_tail_step(tail, k - 1);
                assert(tail[k - 1] == reg[k as int]);
                assert(reg[k as int] == names@[k as int]@);
            }
            source.append(", &");
            source.append(names[k].as_str());
            k = k + 1;
        }
        proof {
            assert(tail.take(names@.len() - 1) =~= tail);
        }
    } else {
        proof {
            assert(spec_refs_join(reg) =~= Seq::<char>::empty());
        }
    }
    source.append("];\n");
    proof {
        assert(source@ =~= spec_statics_source(files@));
    }
    StaticsOutcome { source, names, notes }
}

} // verus!
