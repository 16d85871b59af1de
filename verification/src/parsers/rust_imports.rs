//! Rust import resolution over the scanned file list.
//!
//! Resolution is deliberately conservative: `mod foo;` resolves to the
//! sibling `foo.rs` / `foo/mod.rs`, and `crate::` / `self::` / `super::`
//! use-paths resolve against the enclosing `src/` layout by trying
//! progressively shorter module prefixes. A path may also name a crate of
//! the scanned tree outright (an integration test naming its own library,
//! one workspace member naming another); that one form falls back to the
//! crate's root module when no submodule matches, since what follows a
//! crate name is as often a re-exported item as a module. Everything else
//! (external crates, `std`, paths that land on no scanned file) resolves to
//! nothing, never to a guess.
//!
//! A crate's name is its manifest's `[package] name`; the manifests' texts
//! are handed in, one per crate `src` directory, by whoever can read them.

use vstd::prelude::*;

use crate::parsers::rust::MOD_PREFIX;
use crate::parsers::syntax::opt_text;
use crate::text::{
    append, append_str, char_views, chars_of, ends, ends_with, find, first_of, is_listed, last_of,
    last_position, lead_of, lex_lt, listed, position, same, slice, split_chars, split_on, starts, starts_with,
    string_of, trimmed, trimmed_start, trim_bounds, insert_sorted, lemma_lex_asymmetric,
    occurs_at, first_occurrence,
};

verus! {

/// `dir/name`, or `name` alone at the scan root.
pub open spec fn under(dir: Seq<char>, name: Seq<char>) -> Seq<char> {
    if dir.len() == 0 {
        name
    } else {
        dir + "/"@ + name
    }
}

fn under_of(dir: &Vec<char>, name: &str) -> (r: Vec<char>)
    ensures
        r@ == under(dir@, name@),
{
    let mut r = slice(dir, 0, dir.len());
    if dir.len() > 0 {
        r.push('/');
    }
    append_str(&mut r, name);
    proof {
        reveal_strlit("/");
        assert(dir@.subrange(0, dir@.len() as int) =~= dir@);
        if dir.len() > 0 {
            assert(r@ =~= dir@ + "/"@ + name@);
        } else {
            assert(r@ =~= name@);
        }
    }
    r
}

/// The text after the last `/`, or all of it.
pub open spec fn last_segment(s: Seq<char>) -> Seq<char> {
    if last_of(s, '/') >= 0 {
        s.skip(last_of(s, '/') + 1)
    } else {
        s
    }
}

fn last_segment_of(s: &Vec<char>) -> (r: Vec<char>)
    ensures
        r@ == last_segment(s@),
{
    match last_position(s, '/') {
        Some(k) => {
            assert(k < s.len());
            let r = slice(s, k + 1, s.len());
            assert(r@ =~= s@.skip(k + 1));
            r
        },
        None => {
            let r = slice(s, 0, s.len());
            assert(r@ =~= s@);
            r
        },
    }
}

/// A file that owns its directory's module: `mod.rs`, `lib.rs`, `main.rs`.
pub open spec fn owns_dir(name: Seq<char>) -> bool {
    name == "mod.rs"@ || name == "lib.rs"@ || name == "main.rs"@
}

/// The directory where child modules of `file` live: `mod.rs` / `lib.rs`
/// / `main.rs` own their directory, any other file its stem directory.
pub open spec fn children_dir(file: Seq<char>) -> Seq<char> {
    let k = last_of(file, '/');
    let dir = if k >= 0 { file.take(k) } else { Seq::<char>::empty() };
    if owns_dir(last_segment(file)) {
        dir
    } else if ends(file, ".rs"@) {
        file.take(file.len() - 3)
    } else {
        file
    }
}

fn children_dir_of(file: &Vec<char>) -> (r: Vec<char>)
    ensures
        r@ == children_dir(file@),
{
    let name = last_segment_of(file);
    if same(&name, &chars_of("mod.rs")) || same(&name, &chars_of("lib.rs")) || same(&name, &chars_of("main.rs")) {
        match last_position(file, '/') {
            Some(k) => slice(file, 0, k),
            None => Vec::new(),
        }
    } else if ends_with(file, &chars_of(".rs")) {
        proof {
            reveal_strlit(".rs");
        }
        slice(file, 0, file.len() - 3)
    } else {
        slice(file, 0, file.len())
    }
}

/// A directory named `src`, by its last segment.
pub open spec fn src_dir(p: Seq<char>) -> bool {
    p == "src"@ || ends(p, "/src"@)
}

/// The longest directory of `s` before position `n` that is a `src`.
pub open spec fn src_cut(s: Seq<char>, n: nat) -> Option<Seq<char>>
    decreases n,
{
    if n == 0 {
        None
    } else {
        let k = (n - 1) as nat;
        if k < s.len() && s[k as int] == '/' && src_dir(s.take(k as int)) {
            Some(s.take(k as int))
        } else {
            src_cut(s, k)
        }
    }
}

/// The nearest ancestor directory named `src` of a file; `None` when the
/// file sits under no `src/`.
pub open spec fn src_root(importer: Seq<char>) -> Option<Seq<char>> {
    src_cut(importer, importer.len())
}

fn is_src_dir(p: &Vec<char>) -> (r: bool)
    ensures
        r == src_dir(p@),
{
    same(p, &chars_of("src")) || ends_with(p, &chars_of("/src"))
}

fn src_root_of(importer: &Vec<char>) -> (r: Option<Vec<char>>)
    ensures
        match r {
            Some(d) => src_root(importer@) == Some(d@),
            None => src_root(importer@) is None,
        },
{
    let mut n: usize = importer.len();
    while n > 0
        invariant
            n <= importer.len(),
            src_cut(importer@, n as nat) == src_root(importer@),
        decreases n,
    {
        let k = n - 1;
        if importer[k] == '/' {
            let p = slice(importer, 0, k);
            assert(p@ =~= importer@.take(k as int));
            if is_src_dir(&p) {
                return Some(p);
            }
        }
        n = k;
    }
    None
}

/// The file defining the module whose children live in `dir`.
pub open spec fn module_file(dir: Seq<char>, files: Seq<String>) -> Option<Seq<char>> {
    if listed(files, under(dir, "mod.rs"@)) {
        Some(under(dir, "mod.rs"@))
    } else if listed(files, under(dir, "lib.rs"@)) {
        Some(under(dir, "lib.rs"@))
    } else if listed(files, under(dir, "main.rs"@)) {
        Some(under(dir, "main.rs"@))
    } else if listed(files, dir + ".rs"@) {
        Some(dir + ".rs"@)
    } else {
        None
    }
}

fn module_file_of(dir: &Vec<char>, files: &Vec<String>) -> (r: Option<Vec<char>>)
    ensures
        match r {
            Some(p) => module_file(dir@, files@) == Some(p@),
            None => module_file(dir@, files@) is None,
        },
{
    let m = under_of(dir, "mod.rs");
    if is_listed(files, &m) {
        return Some(m);
    }
    let l = under_of(dir, "lib.rs");
    if is_listed(files, &l) {
        return Some(l);
    }
    let n = under_of(dir, "main.rs");
    if is_listed(files, &n) {
        return Some(n);
    }
    let mut sibling = slice(dir, 0, dir.len());
    append_str(&mut sibling, ".rs");
    assert(dir@.subrange(0, dir@.len() as int) =~= dir@);
    if is_listed(files, &sibling) {
        Some(sibling)
    } else {
        None
    }
}

/// `parts` joined by `/`.
pub open spec fn slashed(parts: Seq<Seq<char>>) -> Seq<char> {
    crate::text::joined(parts, "/"@)
}

fn slashed_of(parts: &Vec<Vec<char>>, take: usize) -> (r: Vec<char>)
    requires
        take <= parts.len(),
    ensures
        r@ == slashed(char_views(parts@).take(take as int)),
{
    let mut r: Vec<char> = Vec::new();
    let mut i: usize = 0;
    while i < take
        invariant
            i <= take <= parts.len(),
            r@ == slashed(char_views(parts@).take(i as int)),
        decreases take - i,
    {
        proof {
            reveal_strlit("/");
            assert(char_views(parts@).take(i + 1).drop_last() =~= char_views(parts@).take(i as int));
            assert(char_views(parts@).take(i + 1).last() == parts@[i as int]@);
        }
        if i > 0 {
            r.push('/');
        }
        append(&mut r, &parts[i]);
        proof {
            if i == 0 {
                assert(r@ =~= char_views(parts@).take(1)[0]);
            } else {
                assert(r@ =~= slashed(char_views(parts@).take(i as int)) + "/"@ + parts@[i as int]@);
            }
        }
        i += 1;
    }
    r
}

/// Trying the `take` longest module prefixes of `segs` under `base`: for
/// each, `<prefix>.rs`, then `<prefix>/mod.rs`.
pub open spec fn segments_from(base: Seq<char>, segs: Seq<Seq<char>>, files: Seq<String>, take: nat) -> Option<Seq<char>>
    decreases take,
{
    if take == 0 {
        None
    } else {
        let stem = under(base, slashed(segs.take(take as int)));
        if listed(files, stem + ".rs"@) {
            Some(stem + ".rs"@)
        } else if listed(files, stem + "/mod.rs"@) {
            Some(stem + "/mod.rs"@)
        } else {
            segments_from(base, segs, files, (take - 1) as nat)
        }
    }
}

/// Resolves a path under `base` by trying progressively shorter module
/// prefixes (trailing segments may be items, not modules).
pub open spec fn resolve_segments(base: Seq<char>, segs: Seq<Seq<char>>, files: Seq<String>) -> Option<Seq<char>> {
    segments_from(base, segs, files, segs.len())
}

fn resolve_segments_of(base: &Vec<char>, segs: &Vec<Vec<char>>, files: &Vec<String>) -> (r: Option<Vec<char>>)
    ensures
        match r {
            Some(p) => resolve_segments(base@, char_views(segs@), files@) == Some(p@),
            None => resolve_segments(base@, char_views(segs@), files@) is None,
        },
{
    let mut take: usize = segs.len();
    while take > 0
        invariant
            take <= segs.len(),
            segments_from(base@, char_views(segs@), files@, take as nat) == resolve_segments(base@, char_views(segs@), files@),
        decreases take,
    {
        let joined = slashed_of(segs, take);
        let stem = if base.len() == 0 {
            joined
        } else {
            let mut s = slice(base, 0, base.len());
            s.push('/');
            append(&mut s, &joined);
            proof {
                reveal_strlit("/");
                assert(s@ =~= base@ + "/"@ + joined@);
            }
            s
        };
        assert(stem@ == under(base@, slashed(char_views(segs@).take(take as int))));
        let mut file = slice(&stem, 0, stem.len());
        append_str(&mut file, ".rs");
        assert(file@ =~= stem@ + ".rs"@);
        if is_listed(files, &file) {
            return Some(file);
        }
        let mut dir_mod = slice(&stem, 0, stem.len());
        append_str(&mut dir_mod, "/mod.rs");
        assert(dir_mod@ =~= stem@ + "/mod.rs"@);
        if is_listed(files, &dir_mod) {
            return Some(dir_mod);
        }
        take -= 1;
    }
    None
}

/// The segments of a `::`-path (std `str::split("::")`).
pub open spec fn path_segments(s: Seq<char>) -> Seq<Seq<char>>
    decreases s.len(),
{
    let k = first_occurrence(s, seq![':', ':']);
    if k >= 0 && occurs_at(s, seq![':', ':'], k) {
        seq![s.take(k)] + path_segments(s.skip(k + 2))
    } else {
        seq![s]
    }
}

fn path_segments_of(s: &Vec<char>) -> (r: Vec<Vec<char>>)
    ensures
        char_views(r@) == path_segments(s@),
{
    let sep = chars_of("::");
    proof {
        reveal_strlit("::");
        assert(sep@ =~= seq![':', ':']);
    }
    let mut out: Vec<Vec<char>> = Vec::new();
    let mut rest = slice(s, 0, s.len());
    assert(rest@ =~= s@);
    loop
        invariant
            sep@ == seq![':', ':'],
            char_views(out@) + path_segments(rest@) == path_segments(s@),
        decreases rest.len(),
    {
        match find(&rest, &sep) {
            Some(k) => {
                let ghost old_out = char_views(out@);
                let ghost old_rest = rest@;
                let head = slice(&rest, 0, k);
                let tail = slice(&rest, k + 2, rest.len());
                out.push(head);
                proof {
                    assert(char_views(out@) =~= old_out.push(old_rest.take(k as int)));
                    assert(tail@ =~= old_rest.skip(k + 2));
                    assert(path_segments(old_rest) == seq![old_rest.take(k as int)] + path_segments(old_rest.skip(k + 2)));
                    assert(char_views(out@) + path_segments(tail@) =~= old_out + path_segments(old_rest));
                }
                rest = tail;
            },
            None => {
                let ghost old_out = char_views(out@);
                proof {
                    assert(path_segments(rest@) == seq![rest@]);
                }
                let ghost rv = rest@;
                out.push(rest);
                assert(char_views(out@) =~= old_out + seq![rv]);
                return out;
            },
        }
    }
}

/// The `src` directory a crate root file sits in: `<src>/lib.rs` or
/// `<src>/main.rs` whose last segment is `src` (`foo/notsrc/lib.rs` is not
/// a crate root).
pub open spec fn root_src(path: Seq<char>) -> Option<Seq<char>> {
    let src = if ends(path, "/lib.rs"@) {
        Some(path.take(path.len() - 7))
    } else if ends(path, "/main.rs"@) {
        Some(path.take(path.len() - 8))
    } else {
        None
    };
    match src {
        Some(d) => if last_segment(d) == "src"@ {
            Some(d)
        } else {
            None
        },
        None => None,
    }
}

fn root_src_of(path: &Vec<char>) -> (r: Option<Vec<char>>)
    ensures
        match r {
            Some(d) => root_src(path@) == Some(d@),
            None => root_src(path@) is None,
        },
{
    proof {
        reveal_strlit("/lib.rs");
        reveal_strlit("/main.rs");
    }
    let src = if ends_with(path, &chars_of("/lib.rs")) {
        slice(path, 0, path.len() - 7)
    } else if ends_with(path, &chars_of("/main.rs")) {
        slice(path, 0, path.len() - 8)
    } else {
        return None;
    };
    if same(&last_segment_of(&src), &chars_of("src")) {
        Some(src)
    } else {
        None
    }
}

/// Whether `d` is the `src` directory of a crate root among `files`.
pub open spec fn crate_root_in(files: Seq<String>, d: Seq<char>) -> bool {
    exists|i: int| 0 <= i < files.len() && root_src(#[trigger] files[i]@) == Some(d)
}

/// Every `src` directory a crate root sits on, strictly increasing, so the
/// same tree always gives the same list.
pub fn crate_src_dirs(files: &Vec<String>) -> (r: Vec<String>)
    ensures
        forall|i: int, j: int| 0 <= i < j < r.len() ==> lex_lt(r@[i]@, r@[j]@),
        forall|d: Seq<char>| #[trigger] listed(r@, d) <==> crate_root_in(files@, d),
{
    let mut r: Vec<String> = Vec::new();
    let mut i: usize = 0;
    while i < files.len()
        invariant
            i <= files.len(),
            forall|a: int, b: int| 0 <= a < b < r.len() ==> lex_lt(r@[a]@, r@[b]@),
            forall|d: Seq<char>| #[trigger] listed(r@, d) <==> exists|j: int| 0 <= j < i && root_src(#[trigger] files@[j]@) == Some(d),
        decreases files.len() - i,
    {
        let ghost before = r@;
        match root_src_of(&chars_of(files[i].as_str())) {
            Some(d) => {
                let ghost dv = d@;
                insert_sorted(&mut r, string_of(&d));
                assert forall|x: Seq<char>| #[trigger] listed(r@, x) <==> exists|j: int| 0 <= j < i + 1 && root_src(#[trigger] files@[j]@) == Some(x) by {
                    if listed(r@, x) {
                        if x == dv {
                            assert(root_src(files@[i as int]@) == Some(x));
                        } else {
                            assert(listed(before, x));
                        }
                    }
                    if exists|j: int| 0 <= j < i + 1 && root_src(#[trigger] files@[j]@) == Some(x) {
                        let j = choose|j: int| 0 <= j < i + 1 && root_src(#[trigger] files@[j]@) == Some(x);
                        if j < i {
                            assert(listed(before, x));
                        }
                    }
                }
            },
            None => {
                assert forall|x: Seq<char>| #[trigger] listed(r@, x) <==> exists|j: int| 0 <= j < i + 1 && root_src(#[trigger] files@[j]@) == Some(x) by {
                    if exists|j: int| 0 <= j < i + 1 && root_src(#[trigger] files@[j]@) == Some(x) {
                        let j = choose|j: int| 0 <= j < i + 1 && root_src(#[trigger] files@[j]@) == Some(x);
                        assert(j != i);
                    }
                }
            },
        }
        i += 1;
    }
    r
}

/// `s` without trailing `/`s (std `trim_end_matches('/')`).
pub open spec fn no_trailing_slash(s: Seq<char>) -> Seq<char>
    decreases s.len(),
{
    if s.len() > 0 && s.last() == '/' {
        no_trailing_slash(s.drop_last())
    } else {
        s
    }
}

/// The crate directory of a `src` directory: what precedes `src`, without
/// trailing slashes.
pub open spec fn crate_dir(src: Seq<char>) -> Seq<char> {
    no_trailing_slash(src.take(src.len() - 3))
}

fn crate_dir_of(src: &Vec<char>) -> (r: Vec<char>)
    requires
        ends(src@, "src"@),
    ensures
        r@ == crate_dir(src@),
{
    proof {
        reveal_strlit("src");
    }
    let mut n: usize = src.len() - 3;
    while n > 0 && src[n - 1] == '/'
        invariant
            n <= src.len() - 3,
            no_trailing_slash(src@.take(n as int)) == crate_dir(src@),
        decreases n,
    {
        assert(src@.take(n as int).drop_last() =~= src@.take(n - 1));
        n -= 1;
    }
    slice(src, 0, n)
}

/// The manifest of a `src` directory's crate, as a path from the scan root.
pub open spec fn manifest_path_text(src: Seq<char>) -> Seq<char> {
    under(crate_dir(src), "Cargo.toml"@)
}

/// Where the crate whose sources sit in `src_dir` keeps its manifest.
pub fn manifest_path(src_dir: &str) -> (r: Option<String>)
    ensures
        match r {
            Some(p) => ends(src_dir@, "src"@) && p@ == manifest_path_text(src_dir@),
            None => !ends(src_dir@, "src"@),
        },
{
    let s = chars_of(src_dir);
    if !ends_with(&s, &chars_of("src")) {
        return None;
    }
    Some(string_of(&under_of(&crate_dir_of(&s), "Cargo.toml")))
}

/// `name = "atlas-engine"` gives `atlas-engine`; any other key, or an
/// unquoted value, nothing.
pub open spec fn quoted_name(line: Seq<char>) -> Option<Seq<char>> {
    if !starts(line, "name"@) {
        None
    } else {
        let b = trimmed_start(line.skip(4));
        if !(b.len() > 0 && b[0] == '=') {
            None
        } else {
            let c = trimmed_start(b.skip(1));
            if !(c.len() > 0 && c[0] == '"') {
                None
            } else {
                let d = c.skip(1);
                if first_of(d, '"') >= 0 {
                    Some(d.take(first_of(d, '"')))
                } else {
                    None
                }
            }
        }
    }
}

fn skip_lead(s: &Vec<char>) -> (r: Vec<char>)
    ensures
        r@ == trimmed_start(s@),
{
    let k = lead_of(s);
    slice(s, k, s.len())
}

fn quoted_name_of(line: &Vec<char>) -> (r: Option<Vec<char>>)
    ensures
        match r {
            Some(n) => quoted_name(line@) == Some(n@),
            None => quoted_name(line@) is None,
        },
{
    proof {
        reveal_strlit("name");
    }
    if !starts_with(line, &chars_of("name")) {
        return None;
    }
    let b = skip_lead(&slice(line, 4, line.len()));
    assert(line@.subrange(4, line@.len() as int) =~= line@.skip(4));
    if !(b.len() > 0 && b[0] == '=') {
        return None;
    }
    let c = skip_lead(&slice(&b, 1, b.len()));
    assert(b@.subrange(1, b@.len() as int) =~= b@.skip(1));
    if !(c.len() > 0 && c[0] == '"') {
        return None;
    }
    let d = slice(&c, 1, c.len());
    assert(d@ =~= c@.skip(1));
    match position(&d, '"') {
        Some(k) => {
            let r = slice(&d, 0, k);
            assert(r@ =~= d@.take(k as int));
            Some(r)
        },
        None => None,
    }
}

/// Scanning manifest lines for `name` in the `[package]` table (exactly:
/// `[package.metadata]` is another table).
pub open spec fn package_scan(lines: Seq<Seq<char>>, in_package: bool) -> Option<Seq<char>>
    decreases lines.len(),
{
    if lines.len() == 0 {
        None
    } else {
        let line = trimmed(lines[0]);
        if starts(line, "["@) {
            package_scan(lines.drop_first(), starts(line.skip(1), "package]"@))
        } else if in_package && quoted_name(line) is Some {
            quoted_name(line)
        } else {
            package_scan(lines.drop_first(), in_package)
        }
    }
}

/// `name` from a manifest's `[package]` table, in the quoted form Cargo
/// writes.
pub open spec fn package_name(manifest: Seq<char>) -> Option<Seq<char>> {
    package_scan(crate::parsers::lines_of(manifest), false)
}

pub fn package_name_of(manifest: &str) -> (r: Option<String>)
    ensures
        opt_text(r) == package_name(manifest@),
{
    let ls = crate::parsers::lines(manifest);
    let ghost all = char_views(ls@);
    let mut in_package = false;
    let mut i: usize = 0;
    proof {
        reveal_strlit("[");
        reveal_strlit("package]");
        assert(all.skip(0) =~= all);
    }
    while i < ls.len()
        invariant
            i <= ls.len(),
            all == char_views(ls@),
            all == crate::parsers::lines_of(manifest@),
            package_scan(all.skip(i as int), in_package) == package_name(manifest@),
        decreases ls.len() - i,
    {
        proof {
            assert(all.skip(i as int).drop_first() =~= all.skip(i + 1));
            assert(all.skip(i as int)[0] == ls@[i as int]@);
        }
        let (lo, hi) = trim_bounds(&ls[i]);
        let line = slice(&ls[i], lo, hi);
        let ghost rest = all.skip(i as int);
        let ghost old_in = in_package;
        assert(line@ == trimmed(rest[0]));
        proof {
            reveal_strlit("[");
            reveal_strlit("package]");
            assert("["@ =~= seq!['[']);
            if line@.len() > 0 {
                assert(line@.subrange(0, 1) =~= seq![line@[0]]);
                if line@[0] == '[' {
                    assert(line@.subrange(0, 1) =~= "["@);
                } else {
                    assert(line@.subrange(0, 1)[0] != "["@[0]);
                }
            }
        }
        assert(starts(line@, "["@) == (line@.len() > 0 && line@[0] == '['));
        if line.len() > 0 && line[0] == '[' {
            let header = slice(&line, 1, line.len());
            assert(header@ =~= line@.skip(1));
            in_package = starts_with(&header, &chars_of("package]"));
            assert(package_scan(rest, old_in) == package_scan(rest.drop_first(), in_package));
        } else if in_package {
            match quoted_name_of(&line) {
                Some(n) => {
                    assert(package_scan(rest, old_in) == Some(n@));
                    return Some(string_of(&n));
                },
                None => {
                    assert(package_scan(rest, old_in) == package_scan(rest.drop_first(), in_package));
                },
            }
        } else {
            assert(package_scan(rest, old_in) == package_scan(rest.drop_first(), in_package));
        }
        i += 1;
    }
    None
}

/// Each crate `src` directory with its manifest's text, where it could be
/// read, as values.
pub open spec fn manifest_views(ms: Seq<(String, Option<String>)>) -> Seq<(Seq<char>, Option<Seq<char>>)> {
    ms.map_values(|p: (String, Option<String>)| (p.0@, opt_text(p.1)))
}

/// The manifest text handed in for `src`: the first entry naming it.
pub open spec fn manifest_for(ms: Seq<(Seq<char>, Option<Seq<char>>)>, src: Seq<char>) -> Option<Seq<char>>
    decreases ms.len(),
{
    if ms.len() == 0 {
        None
    } else if ms[0].0 == src {
        ms[0].1
    } else {
        manifest_for(ms.drop_first(), src)
    }
}

fn manifest_at(ms: &Vec<(String, Option<String>)>, src: &Vec<char>) -> (r: Option<String>)
    ensures
        opt_text(r) == manifest_for(manifest_views(ms@), src@),
{
    let ghost all = manifest_views(ms@);
    let mut i: usize = 0;
    assert(all.skip(0) =~= all);
    while i < ms.len()
        invariant
            i <= ms.len(),
            all == manifest_views(ms@),
            manifest_for(all.skip(i as int), src@) == manifest_for(all, src@),
        decreases ms.len() - i,
    {
        assert(all.skip(i as int).drop_first() =~= all.skip(i + 1));
        assert(all.skip(i as int)[0] == (ms@[i as int].0@, opt_text(ms@[i as int].1)));
        if same(&chars_of(ms[i].0.as_str()), src) {
            return match &ms[i].1 {
                Some(t) => Some(t.clone()),
                None => None,
            };
        }
        i += 1;
    }
    None
}

/// The crate name a `src` directory publishes: its manifest's
/// `[package] name`, falling back to the name of the directory the `src`
/// sits in (none for a crate at the scan root without a readable name).
pub open spec fn crate_name_of(src: Seq<char>, manifest: Option<Seq<char>>) -> Option<Seq<char>> {
    if !ends(src, "src"@) {
        None
    } else {
        let named = match manifest {
            Some(t) => package_name(t),
            None => None,
        };
        match named {
            Some(n) => Some(n),
            None => if last_segment(crate_dir(src)).len() > 0 {
                Some(last_segment(crate_dir(src)))
            } else {
                None
            },
        }
    }
}

fn crate_name_from(src: &Vec<char>, manifest: Option<String>) -> (r: Option<Vec<char>>)
    ensures
        match r {
            Some(n) => crate_name_of(src@, opt_text(manifest)) == Some(n@),
            None => crate_name_of(src@, opt_text(manifest)) is None,
        },
{
    if !ends_with(src, &chars_of("src")) {
        return None;
    }
    if let Some(t) = &manifest {
        if let Some(n) = package_name_of(t.as_str()) {
            return Some(chars_of(n.as_str()));
        }
    }
    let last = last_segment_of(&crate_dir_of(src));
    if last.len() > 0 {
        Some(last)
    } else {
        None
    }
}

/// Cargo's normalisation: the package `atlas-engine` is the path segment
/// `atlas_engine`.
pub open spec fn normalized(name: Seq<char>) -> Seq<char> {
    name.map_values(|c: char| if c == '-' { '_' } else { c })
}

fn normalized_of(name: &Vec<char>) -> (r: Vec<char>)
    ensures
        r@ == normalized(name@),
{
    let mut r: Vec<char> = Vec::new();
    let mut i: usize = 0;
    while i < name.len()
        invariant
            i <= name.len(),
            r@ == normalized(name@.take(i as int)),
        decreases name.len() - i,
    {
        r.push(if name[i] == '-' { '_' } else { name[i] });
        assert(r@ =~= normalized(name@.take(i + 1)));
        i += 1;
    }
    assert(name@.take(i as int) =~= name@);
    r
}

/// How many leading segments two segment lists agree on, from `i`.
pub open spec fn shared_from(a: Seq<Seq<char>>, b: Seq<Seq<char>>, i: int) -> int
    decreases a.len() - i,
{
    if 0 <= i < a.len() && i < b.len() && a[i] == b[i] {
        shared_from(a, b, i + 1)
    } else {
        i
    }
}

/// How many leading `/`-separated segments two paths agree on: how near
/// one file is to another in the tree.
pub open spec fn shared_segments(one: Seq<char>, other: Seq<char>) -> int {
    shared_from(split_on(one, '/'), split_on(other, '/'), 0)
}

fn shared_count(a: &Vec<Vec<char>>, b: &Vec<Vec<char>>) -> (r: usize)
    ensures
        r as int == shared_from(char_views(a@), char_views(b@), 0),
{
    let mut i: usize = 0;
    while i < a.len() && i < b.len() && same(&a[i], &b[i])
        invariant
            i <= a.len(),
            shared_from(char_views(a@), char_views(b@), i as int) == shared_from(char_views(a@), char_views(b@), 0),
        decreases a.len() - i,
    {
        i += 1;
    }
    i
}

/// A scanned crate named `wanted` (after normalisation) whose sources sit
/// in `d`.
pub open spec fn crate_candidate(files: Seq<String>, ms: Seq<(Seq<char>, Option<Seq<char>>)>, wanted: Seq<char>, d: Seq<char>) -> bool {
    &&& crate_root_in(files, d)
    &&& crate_name_of(d, manifest_for(ms, d)) matches Some(n) && normalized(n) == wanted
}

/// The candidate nearest the importer, in shared leading segments; of
/// equally near ones, the first in path order.
pub open spec fn nearest(importer: Seq<char>, files: Seq<String>, ms: Seq<(Seq<char>, Option<Seq<char>>)>, wanted: Seq<char>, d: Seq<char>) -> bool {
    &&& crate_candidate(files, ms, wanted, d)
    &&& forall|e: Seq<char>| #[trigger] crate_candidate(files, ms, wanted, e) ==> shared_segments(importer, e) < shared_segments(importer, d)
        || (shared_segments(importer, e) == shared_segments(importer, d) && (e == d || lex_lt(d, e)))
}

/// The `src` directory of the scanned crate called `name`, nearest the
/// importer; none when the tree holds no crate of that name.
pub open spec fn crate_src(importer: Seq<char>, name: Seq<char>, files: Seq<String>, ms: Seq<(Seq<char>, Option<Seq<char>>)>) -> Option<Seq<char>> {
    if exists|d: Seq<char>| nearest(importer, files, ms, normalized(name), d) {
        Some(choose|d: Seq<char>| nearest(importer, files, ms, normalized(name), d))
    } else {
        None
    }
}

proof fn lemma_nearest_unique(importer: Seq<char>, files: Seq<String>, ms: Seq<(Seq<char>, Option<Seq<char>>)>, wanted: Seq<char>, d: Seq<char>)
    requires
        nearest(importer, files, ms, wanted, d),
    ensures
        (choose|x: Seq<char>| nearest(importer, files, ms, wanted, x)) == d,
{
    let x = choose|x: Seq<char>| nearest(importer, files, ms, wanted, x);
    assert(nearest(importer, files, ms, wanted, x));
    assert(crate_candidate(files, ms, wanted, x));
    assert(crate_candidate(files, ms, wanted, d));
    if x != d {
        lemma_lex_asymmetric(d, x);
    }
}

fn crate_src_of(importer: &Vec<char>, name: &Vec<char>, files: &Vec<String>, ms: &Vec<(String, Option<String>)>) -> (r: Option<Vec<char>>)
    ensures
        match r {
            Some(d) => crate_src(importer@, name@, files@, manifest_views(ms@)) == Some(d@),
            None => crate_src(importer@, name@, files@, manifest_views(ms@)) is None,
        },
{
    let ghost mv = manifest_views(ms@);
    let wanted = normalized_of(name);
    let dirs = crate_src_dirs(files);
    let parts = split_chars(importer, '/');
    let mut best: Option<(usize, usize)> = None;
    let mut i: usize = 0;
    while i < dirs.len()
        invariant
            i <= dirs.len(),
            mv == manifest_views(ms@),
            wanted@ == normalized(name@),
            char_views(parts@) == split_on(importer@, '/'),
            forall|a: int, b: int| 0 <= a < b < dirs.len() ==> lex_lt(dirs@[a]@, dirs@[b]@),
            forall|x: Seq<char>| #[trigger] listed(dirs@, x) <==> crate_root_in(files@, x),
            match best {
                None => forall|j: int| 0 <= j < i ==> !crate_candidate(files@, mv, wanted@, #[trigger] dirs@[j]@),
                Some((b, sh)) => {
                    &&& b < i
                    &&& crate_candidate(files@, mv, wanted@, dirs@[b as int]@)
                    &&& sh as int == shared_segments(importer@, dirs@[b as int]@)
                    &&& forall|j: int| 0 <= j < i && crate_candidate(files@, mv, wanted@, #[trigger] dirs@[j]@) ==>
                        shared_segments(importer@, dirs@[j]@) <= sh && (j < b ==> shared_segments(importer@, dirs@[j]@) < sh)
                },
            },
        decreases dirs.len() - i,
    {
        let d = chars_of(dirs[i].as_str());
        proof {
            assert(listed(dirs@, d@));
        }
        let found = crate_name_from(&d, manifest_at(ms, &d));
        let matches = match &found {
            Some(n) => same(&normalized_of(n), &wanted),
            None => false,
        };
        assert(matches == crate_candidate(files@, mv, wanted@, d@));
        if matches {
            let sh = shared_count(&parts, &split_chars(&d, '/'));
            let better = match best {
                None => true,
                Some((_, bsh)) => sh > bsh,
            };
            if better {
                best = Some((i, sh));
            }
        }
        i += 1;
    }
    match best {
        None => {
            proof {
                if exists|x: Seq<char>| nearest(importer@, files@, mv, normalized(name@), x) {
                    let x = choose|x: Seq<char>| nearest(importer@, files@, mv, normalized(name@), x);
                    assert(crate_candidate(files@, mv, wanted@, x));
                    assert(listed(dirs@, x));
                    let j = choose|j: int| 0 <= j < dirs@.len() && #[trigger] dirs@[j]@ == x;
                    assert(!crate_candidate(files@, mv, wanted@, dirs@[j]@));
                }
            }
            None
        },
        Some((b, sh)) => {
            let d = chars_of(dirs[b].as_str());
            proof {
                assert forall|e: Seq<char>| #[trigger] crate_candidate(files@, mv, wanted@, e) implies shared_segments(importer@, e) < shared_segments(importer@, d@)
                    || (shared_segments(importer@, e) == shared_segments(importer@, d@) && (e == d@ || lex_lt(d@, e))) by {
                    assert(listed(dirs@, e));
                    let j = choose|j: int| 0 <= j < dirs@.len() && #[trigger] dirs@[j]@ == e;
                    assert(crate_candidate(files@, mv, wanted@, dirs@[j]@));
                    if j > b {
                        assert(lex_lt(dirs@[b as int]@, dirs@[j]@));
                    }
                }
                assert(nearest(importer@, files@, mv, normalized(name@), d@));
                lemma_nearest_unique(importer@, files@, mv, normalized(name@), d@);
            }
            Some(d)
        },
    }
}

/// The directory above `dir`, or the scan root.
pub open spec fn parent_dir(dir: Seq<char>) -> Seq<char> {
    if last_of(dir, '/') >= 0 {
        dir.take(last_of(dir, '/'))
    } else {
        Seq::<char>::empty()
    }
}

/// A run of leading `super`s consumed, each one module up.
pub open spec fn after_supers(dir: Seq<char>, segs: Seq<Seq<char>>) -> (Seq<char>, Seq<Seq<char>>)
    decreases segs.len(),
{
    if segs.len() > 0 && segs[0] == "super"@ {
        after_supers(parent_dir(dir), segs.drop_first())
    } else {
        (dir, segs)
    }
}

/// `base`'s module file when no segment is left, else the segments under
/// it.
pub open spec fn from_base(base: Seq<char>, rest: Seq<Seq<char>>, files: Seq<String>) -> Option<Seq<char>> {
    if rest.len() == 0 {
        module_file(base, files)
    } else {
        resolve_segments(base, rest, files)
    }
}

/// Where a Rust import lands among the scanned files, in a fixed candidate
/// order: `mod foo;` to the sibling file or directory; `crate::` /
/// `self::` / `super::` within the importer's own crate; a crate of the
/// scanned tree named outright, falling back to its root module; anything
/// else nowhere. `ms` holds each crate `src` directory's manifest text.
pub open spec fn rust_import_target(importer: Seq<char>, spec: Seq<char>, files: Seq<String>, ms: Seq<(Seq<char>, Option<Seq<char>>)>) -> Option<Seq<char>> {
    if starts(spec, MOD_PREFIX@) {
        resolve_segments(children_dir(importer), seq![spec.skip(MOD_PREFIX@.len() as int)], files)
    } else {
        let segs = path_segments(spec);
        let first = segs[0];
        let rest = segs.drop_first();
        if first == "crate"@ {
            match src_root(importer) {
                Some(base) => from_base(base, rest, files),
                None => None,
            }
        } else if first == "self"@ {
            from_base(children_dir(importer), rest, files)
        } else if first == "super"@ {
            let (dir, left) = after_supers(children_dir(importer), segs);
            from_base(dir, left, files)
        } else {
            match crate_src(importer, first, files, ms) {
                Some(src) => if rest.len() == 0 {
                    module_file(src, files)
                } else {
                    match resolve_segments(src, rest, files) {
                        Some(p) => Some(p),
                        None => module_file(src, files),
                    }
                },
                None => None,
            }
        }
    }
}

fn from_base_of(base: &Vec<char>, rest: &Vec<Vec<char>>, files: &Vec<String>) -> (r: Option<Vec<char>>)
    ensures
        match r {
            Some(p) => from_base(base@, char_views(rest@), files@) == Some(p@),
            None => from_base(base@, char_views(rest@), files@) is None,
        },
{
    if rest.len() == 0 {
        module_file_of(base, files)
    } else {
        resolve_segments_of(base, rest, files)
    }
}

fn parent_of(dir: &Vec<char>) -> (r: Vec<char>)
    ensures
        r@ == parent_dir(dir@),
{
    match last_position(dir, '/') {
        Some(k) => slice(dir, 0, k),
        None => Vec::new(),
    }
}

fn drop_first_of(v: &Vec<Vec<char>>) -> (r: Vec<Vec<char>>)
    requires
        v.len() > 0,
    ensures
        char_views(r@) == char_views(v@).drop_first(),
{
    let mut r: Vec<Vec<char>> = Vec::new();
    let mut i: usize = 1;
    while i < v.len()
        invariant
            1 <= i <= v.len(),
            char_views(r@) == char_views(v@).subrange(1, i as int),
        decreases v.len() - i,
    {
        let ghost before = char_views(r@);
        let piece = slice(&v[i], 0, v[i].len());
        assert(piece@ =~= v@[i as int]@);
        r.push(piece);
        assert(char_views(r@) =~= before.push(v@[i as int]@));
        assert(char_views(r@) =~= char_views(v@).subrange(1, i + 1));
        i += 1;
    }
    assert(char_views(v@).subrange(1, i as int) =~= char_views(v@).drop_first());
    r
}

/// Where `specifier`, written in `importer`, lands among `files`; `None`
/// for external crates, `std`, and paths that land on no scanned file.
/// `manifests` pairs each crate `src` directory with its manifest's text,
/// where it could be read.
pub fn resolve_rust_import(importer: &str, specifier: &str, files: &Vec<String>, manifests: &Vec<(String, Option<String>)>) -> (r: Option<String>)
    ensures
        opt_text(r) == rust_import_target(importer@, specifier@, files@, manifest_views(manifests@)),
{
    let imp = chars_of(importer);
    let spec = chars_of(specifier);
    let prefix = chars_of(MOD_PREFIX);
    if starts_with(&spec, &prefix) {
        let name = slice(&spec, prefix.len(), spec.len());
        let segs = vec![name];
        assert(char_views(segs@) =~= seq![specifier@.skip(MOD_PREFIX@.len() as int)]);
        return match resolve_segments_of(&children_dir_of(&imp), &segs, files) {
            Some(p) => Some(string_of(&p)),
            None => None,
        };
    }
    let segs = path_segments_of(&spec);
    proof {
        lemma_path_segments_nonempty(spec@);
        reveal_strlit("crate");
        reveal_strlit("self");
        reveal_strlit("super");
    }
    let rest = drop_first_of(&segs);
    let found = if same(&segs[0], &chars_of("crate")) {
        match src_root_of(&imp) {
            Some(base) => from_base_of(&base, &rest, files),
            None => None,
        }
    } else if same(&segs[0], &chars_of("self")) {
        from_base_of(&children_dir_of(&imp), &rest, files)
    } else if same(&segs[0], &chars_of("super")) {
        let mut dir = children_dir_of(&imp);
        let mut left = drop_first_of(&segs);
        proof {
            assert(after_supers(children_dir(imp@), char_views(segs@)) == after_supers(parent_dir(children_dir(imp@)), char_views(segs@).drop_first()));
        }
        dir = parent_of(&dir);
        while left.len() > 0 && same(&left[0], &chars_of("super"))
            invariant
                after_supers(dir@, char_views(left@)) == after_supers(children_dir(imp@), char_views(segs@)),
            decreases left.len(),
        {
            proof {
                reveal_strlit("super");
            }
            dir = parent_of(&dir);
            left = drop_first_of(&left);
        }
        proof {
            reveal_strlit("super");
            if left.len() > 0 {
                assert(char_views(left@)[0] == left@[0]@);
            }
        }
        from_base_of(&dir, &left, files)
    } else {
        match crate_src_of(&imp, &segs[0], files, manifests) {
            Some(src) => if rest.len() == 0 {
                module_file_of(&src, files)
            } else {
                match resolve_segments_of(&src, &rest, files) {
                    Some(p) => Some(p),
                    None => module_file_of(&src, files),
                }
            },
            None => None,
        }
    };
    match found {
        Some(p) => Some(string_of(&p)),
        None => None,
    }
}

proof fn lemma_path_segments_nonempty(s: Seq<char>)
    ensures
        path_segments(s).len() >= 1,
    decreases s.len(),
{
    let k = first_occurrence(s, seq![':', ':']);
    if k >= 0 && occurs_at(s, seq![':', ':'], k) {
        lemma_path_segments_nonempty(s.skip(k + 2));
    }
}

} // verus!
