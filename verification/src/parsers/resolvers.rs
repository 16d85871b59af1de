//! Where an import specifier lands, per language, against the scanned file
//! set: ES modules (relative specifiers, extension inference, the index
//! convention), Python (dotted modules, relative dots, packages) and the C
//! family (`#include` relative then root-relative, and a header's
//! implementation pair). Nothing outside the map ever resolves.

use vstd::prelude::*;

use crate::parsers::{importer_dir, walk_path, walked};
use crate::scan::{directory_of, directory_of_path, file_name, file_name_of};
use crate::text::{
    append, append_str, char_views, chars_of, ends, ends_with, is_listed, joined, last_of, last_position, listed,
    slice, split_chars, split_on, starts, starts_with, string_of, views,
};

verus! {

// ---------------------------------------------------------------------------
// ES modules.

/// The extensions a relative specifier may leave off, tried in order.
pub open spec fn resolve_extensions() -> Seq<Seq<char>> {
    seq!["ts"@, "tsx"@, "js"@, "jsx"@, "mjs"@, "cjs"@]
}

pub fn resolve_extension_list() -> (r: Vec<&'static str>)
    ensures
        views(r@) == resolve_extensions(),
{
    let r = vec!["ts", "tsx", "js", "jsx", "mjs", "cjs"];
    assert(views(r@) =~= resolve_extensions());
    r
}

/// `stem` with each extension appended after `sep`.
pub open spec fn with_extensions(stem: Seq<char>, sep: Seq<char>, exts: Seq<Seq<char>>) -> Seq<Seq<char>> {
    exts.map_values(|e: Seq<char>| stem + sep + e)
}

/// The TypeScript sources a NodeNext specifier naming an emitted `.js` or
/// `.jsx` file stands for, in order.
pub open spec fn nodenext_sources(base: Seq<char>) -> Seq<Seq<char>> {
    if ends(base, ".js"@) {
        with_extensions(base.take(base.len() - 3), "."@, seq!["ts"@, "tsx"@])
    } else if ends(base, ".jsx"@) {
        with_extensions(base.take(base.len() - 4), "."@, seq!["tsx"@])
    } else {
        Seq::empty()
    }
}

/// The first candidate the scanned files hold.
pub open spec fn first_listed(files: Seq<String>, candidates: Seq<Seq<char>>) -> Option<Seq<char>>
    decreases candidates.len(),
{
    if candidates.len() == 0 {
        None
    } else if listed(files, candidates[0]) {
        Some(candidates[0])
    } else {
        first_listed(files, candidates.drop_first())
    }
}

/// ES-module resolution: relative specifiers only; the literal path, then
/// the TypeScript source a NodeNext specifier stands for, then each
/// extension appended, then `<path>/index.<ext>`. Bare package names never
/// resolve.
pub open spec fn es_resolved(importer: Seq<char>, specifier: Seq<char>, files: Seq<String>) -> Option<Seq<char>> {
    if !starts(specifier, "./"@) && !starts(specifier, "../"@) {
        None
    } else {
        match walked(split_on(importer, '/').drop_last(), specifier) {
            None => None,
            Some(base) => if listed(files, base) {
                Some(base)
            } else {
                first_listed(
                    files,
                    nodenext_sources(base) + with_extensions(base, "."@, resolve_extensions()) + with_extensions(
                        base,
                        "/index."@,
                        resolve_extensions(),
                    ),
                )
            },
        }
    }
}

/// The first of `candidates` the scanned files hold.
fn first_of_listed(files: &Vec<String>, candidates: &Vec<Vec<char>>) -> (r: Option<String>)
    ensures
        match r {
            Some(p) => first_listed(files@, char_views(candidates@)) == Some(p@),
            None => first_listed(files@, char_views(candidates@)) is None,
        },
{
    let ghost all = char_views(candidates@);
    let mut k: usize = 0;
    assert(all.skip(0) =~= all);
    while k < candidates.len()
        invariant
            k <= candidates.len(),
            all == char_views(candidates@),
            first_listed(files@, all) == first_listed(files@, all.skip(k as int)),
        decreases candidates.len() - k,
    {
        let ghost rest = all.skip(k as int);
        assert(rest.drop_first() =~= all.skip(k + 1));
        assert(rest[0] == candidates@[k as int]@);
        if is_listed(files, &candidates[k]) {
            return Some(string_of(&candidates[k]));
        }
        k += 1;
    }
    assert(all.skip(k as int) =~= Seq::<Seq<char>>::empty());
    None
}

/// Appends `stem + sep + e` for each `e` of `exts`.
fn push_with_extensions(out: &mut Vec<Vec<char>>, stem: &Vec<char>, sep: &str, exts: &Vec<&'static str>)
    ensures
        char_views(final(out)@) == char_views(old(out)@) + with_extensions(stem@, sep@, views(exts@)),
{
    let ghost start = char_views(out@);
    let mut k: usize = 0;
    while k < exts.len()
        invariant
            k <= exts.len(),
            char_views(out@) == start + with_extensions(stem@, sep@, views(exts@)).take(k as int),
        decreases exts.len() - k,
    {
        let mut c = slice(stem, 0, stem.len());
        append_str(&mut c, sep);
        append_str(&mut c, exts[k]);
        let ghost before = char_views(out@);
        assert(c@ =~= stem@ + sep@ + exts@[k as int]@);
        out.push(c);
        assert(char_views(out@) =~= before.push(c@));
        assert(with_extensions(stem@, sep@, views(exts@)).take(k + 1) =~= with_extensions(stem@, sep@, views(exts@)).take(
            k as int,
        ).push(stem@ + sep@ + exts@[k as int]@));
        k += 1;
    }
    assert(with_extensions(stem@, sep@, views(exts@)).take(k as int) =~= with_extensions(stem@, sep@, views(exts@)));
}

/// Resolves an ES-module specifier written in `importer`.
pub fn resolve_es_import(importer: &str, specifier: &str, files: &Vec<String>) -> (r: Option<String>)
    ensures
        match r {
            Some(p) => es_resolved(importer@, specifier@, files@) == Some(p@),
            None => es_resolved(importer@, specifier@, files@) is None,
        },
{
    let spec = chars_of(specifier);
    if !starts_with(&spec, &chars_of("./")) && !starts_with(&spec, &chars_of("../")) {
        return None;
    }
    let base = match walk_path(importer_dir(importer), &spec) {
        Some(b) => b,
        None => return None,
    };
    if is_listed(files, &base) {
        return Some(string_of(&base));
    }
    let mut candidates: Vec<Vec<char>> = Vec::new();
    proof {
        reveal_strlit(".js");
        reveal_strlit(".jsx");
    }
    if ends_with(&base, &chars_of(".js")) {
        let stem = slice(&base, 0, base.len() - 3);
        assert(stem@ =~= base@.take(base@.len() - 3));
        push_with_extensions(&mut candidates, &stem, ".", &vec!["ts", "tsx"]);
        assert(views(seq!["ts", "tsx"]) =~= seq!["ts"@, "tsx"@]);
    } else if ends_with(&base, &chars_of(".jsx")) {
        let stem = slice(&base, 0, base.len() - 4);
        assert(stem@ =~= base@.take(base@.len() - 4));
        push_with_extensions(&mut candidates, &stem, ".", &vec!["tsx"]);
        assert(views(seq!["tsx"]) =~= seq!["tsx"@]);
    }
    assert(char_views(candidates@) =~= nodenext_sources(base@));
    let exts = resolve_extension_list();
    push_with_extensions(&mut candidates, &base, ".", &exts);
    push_with_extensions(&mut candidates, &base, "/index.", &exts);
    first_of_listed(files, &candidates)
}


/// The first candidate the files hold wins.
proof fn lemma_first_listed_at(files: Seq<String>, candidates: Seq<Seq<char>>, i: int)
    requires
        0 <= i < candidates.len(),
        listed(files, candidates[i]),
        forall|j: int| 0 <= j < i ==> !listed(files, #[trigger] candidates[j]),
    ensures
        first_listed(files, candidates) == Some(candidates[i]),
    decreases i,
{
    if i > 0 {
        assert(!listed(files, candidates[0]));
        assert forall|j: int| 0 <= j < i - 1 implies !listed(files, #[trigger] candidates.drop_first()[j]) by {
            assert(candidates.drop_first()[j] == candidates[j + 1]);
        }
        lemma_first_listed_at(files, candidates.drop_first(), i - 1);
    }
}

/// The extension law: a relative import that leaves its module's
/// extension off lands on the scanned file with the first of `.ts`,
/// `.tsx`, `.js`, `.jsx`, `.mjs`, `.cjs` that exists, when no file has the
/// exact path. So `./util` from `src/main.js` lands on `src/util.js` when
/// that is the only one of them scanned.
pub proof fn law_a_left_off_extension_is_found_in_order(
    importer: Seq<char>,
    specifier: Seq<char>,
    files: Seq<String>,
    base: Seq<char>,
    exts: Seq<Seq<char>>,
    i: int,
)
    requires
        exts == seq!["ts"@, "tsx"@, "js"@, "jsx"@, "mjs"@, "cjs"@],
        starts(specifier, "./"@) || starts(specifier, "../"@),
        walked(split_on(importer, '/').drop_last(), specifier) == Some(base),
        !ends(base, ".js"@),
        !ends(base, ".jsx"@),
        !listed(files, base),
        0 <= i < exts.len(),
        listed(files, base + "."@ + exts[i]),
        forall|j: int| 0 <= j < i ==> !listed(files, base + "."@ + #[trigger] exts[j]),
    ensures
        es_resolved(importer, specifier, files) == Some(base + "."@ + exts[i]),
{
    assert(resolve_extensions() == exts);
    assert(nodenext_sources(base) =~= Seq::<Seq<char>>::empty());
    let candidates = nodenext_sources(base) + with_extensions(base, "."@, resolve_extensions()) + with_extensions(
        base,
        "/index."@,
        resolve_extensions(),
    );
    assert forall|j: int| 0 <= j < 6 implies #[trigger] candidates[j] == base + "."@ + exts[j] by {}
    assert forall|j: int| 0 <= j < i implies !listed(files, #[trigger] candidates[j]) by {
        assert(candidates[j] == base + "."@ + exts[j]);
    }
    lemma_first_listed_at(files, candidates, i);
}

// ---------------------------------------------------------------------------
// Python.

/// How many dots a specifier leads with.
pub open spec fn dot_run(s: Seq<char>) -> nat
    decreases s.len(),
{
    if s.len() > 0 && s[0] == '.' {
        1 + dot_run(s.drop_first())
    } else {
        0
    }
}

/// The non-empty pieces, in order.
pub open spec fn nonempty_pieces(p: Seq<Seq<char>>) -> Seq<Seq<char>>
    decreases p.len(),
{
    if p.len() == 0 {
        p
    } else if p.last().len() > 0 {
        nonempty_pieces(p.drop_last()).push(p.last())
    } else {
        nonempty_pieces(p.drop_last())
    }
}

/// The path a module's segments name under `base`.
pub open spec fn module_stem(base: Seq<char>, segments: Seq<Seq<char>>) -> Seq<char> {
    if segments.len() == 0 {
        base
    } else if base.len() == 0 {
        joined(segments, "/"@)
    } else {
        base + "/"@ + joined(segments, "/"@)
    }
}

/// A module under `base`: `<path>.py`, then the package form
/// `<path>/__init__.py`; no segments name the package itself.
pub open spec fn py_module(base: Seq<char>, segments: Seq<Seq<char>>, files: Seq<String>) -> Option<Seq<char>> {
    let stem = module_stem(base, segments);
    let package = if stem.len() == 0 {
        "__init__.py"@
    } else {
        stem + "/__init__.py"@
    };
    if segments.len() > 0 && listed(files, stem + ".py"@) {
        Some(stem + ".py"@)
    } else if listed(files, package) {
        Some(package)
    } else {
        None
    }
}

/// Python resolution: a relative specifier's first dot is the importer's
/// package and each further dot one package up (escaping the repository
/// is unresolvable); an absolute one is tried from the repository root,
/// then beside the importer.
pub open spec fn py_resolved(importer: Seq<char>, specifier: Seq<char>, files: Seq<String>) -> Option<Seq<char>> {
    let dots = dot_run(specifier);
    let rest = nonempty_pieces(split_on(specifier.skip(dots as int), '.'));
    if dots > 0 {
        let parts = split_on(importer, '/').drop_last();
        if parts.len() + 1 < dots {
            None
        } else {
            py_module(joined(parts.take(parts.len() - (dots - 1)), "/"@), rest, files)
        }
    } else {
        match py_module(Seq::empty(), rest, files) {
            Some(found) => Some(found),
            None => if directory_of_path(importer).len() == 0 {
                None
            } else {
                py_module(directory_of_path(importer), rest, files)
            },
        }
    }
}

/// The specifier naming `name` as a submodule of `specifier`.
pub open spec fn submodule(specifier: Seq<char>, name: Seq<char>) -> Seq<char> {
    if ends(specifier, "."@) {
        specifier + name
    } else {
        specifier + "."@ + name
    }
}

/// `parts` joined by `sep`.
fn join_parts(parts: &Vec<Vec<char>>, sep: char) -> (r: Vec<char>)
    ensures
        r@ == joined(char_views(parts@), seq![sep]),
{
    let ghost ps = char_views(parts@);
    let mut out: Vec<char> = Vec::new();
    let mut k: usize = 0;
    while k < parts.len()
        invariant
            k <= parts.len(),
            ps == char_views(parts@),
            out@ == joined(ps.take(k as int), seq![sep]),
        decreases parts.len() - k,
    {
        proof {
            assert(ps.take(k + 1).drop_last() =~= ps.take(k as int));
            assert(ps.take(k + 1).last() == parts@[k as int]@);
        }
        if k > 0 {
            out.push(sep);
        }
        append(&mut out, &parts[k]);
        proof {
            if k == 0 {
                assert(ps.take(1) =~= seq![parts@[0]@]);
            }
            assert(out@ =~= joined(ps.take(k + 1), seq![sep]));
        }
        k += 1;
    }
    assert(ps.take(k as int) =~= ps);
    out
}

fn py_module_of(base: &Vec<char>, segments: &Vec<Vec<char>>, files: &Vec<String>) -> (r: Option<String>)
    ensures
        match r {
            Some(p) => py_module(base@, char_views(segments@), files@) == Some(p@),
            None => py_module(base@, char_views(segments@), files@) is None,
        },
{
    proof {
        reveal_strlit("/");
        assert(seq!['/'] =~= "/"@);
    }
    let joined_segments = join_parts(segments, '/');
    let stem = if segments.len() == 0 {
        slice(base, 0, base.len())
    } else if base.len() == 0 {
        joined_segments
    } else {
        let mut s = slice(base, 0, base.len());
        s.push('/');
        append(&mut s, &joined_segments);
        s
    };
    assert(stem@ =~= module_stem(base@, char_views(segments@)));
    if segments.len() > 0 {
        let mut module = slice(&stem, 0, stem.len());
        assert(module@ =~= stem@);
        append_str(&mut module, ".py");
        if is_listed(files, &module) {
            return Some(string_of(&module));
        }
    }
    let package = if stem.len() == 0 {
        chars_of("__init__.py")
    } else {
        let mut p = slice(&stem, 0, stem.len());
        assert(p@ =~= stem@);
        append_str(&mut p, "/__init__.py");
        p
    };
    assert(package@ == (if stem@.len() == 0 { "__init__.py"@ } else { stem@ + "/__init__.py"@ }));
    if is_listed(files, &package) {
        Some(string_of(&package))
    } else {
        None
    }
}

/// Resolves a Python module specifier written in `importer`.
pub fn resolve_py_import(importer: &str, specifier: &str, files: &Vec<String>) -> (r: Option<String>)
    ensures
        match r {
            Some(p) => py_resolved(importer@, specifier@, files@) == Some(p@),
            None => py_resolved(importer@, specifier@, files@) is None,
        },
{
    let spec = chars_of(specifier);
    let mut dots: usize = 0;
    assert(spec@.skip(0) =~= spec@);
    while dots < spec.len() && spec[dots] == '.'
        invariant
            dots <= spec.len(),
            dot_run(spec@) == dots + dot_run(spec@.skip(dots as int)),
        decreases spec.len() - dots,
    {
        assert(spec@.skip(dots as int).drop_first() =~= spec@.skip(dots + 1));
        dots += 1;
    }
    assert(dot_run(spec@.skip(dots as int)) == 0);
    let pieces = split_chars(&slice(&spec, dots, spec.len()), '.');
    assert(spec@.subrange(dots as int, spec@.len() as int) =~= spec@.skip(dots as int));
    let mut rest: Vec<Vec<char>> = Vec::new();
    let mut k: usize = 0;
    while k < pieces.len()
        invariant
            k <= pieces.len(),
            char_views(rest@) == nonempty_pieces(char_views(pieces@).take(k as int)),
        decreases pieces.len() - k,
    {
        let ghost before = char_views(rest@);
        assert(char_views(pieces@).take(k + 1).drop_last() =~= char_views(pieces@).take(k as int));
        assert(char_views(pieces@).take(k + 1).last() == pieces@[k as int]@);
        if pieces[k].len() > 0 {
            let piece = slice(&pieces[k], 0, pieces[k].len());
            assert(piece@ =~= pieces@[k as int]@);
            rest.push(piece);
            assert(char_views(rest@) =~= before.push(pieces@[k as int]@));
        }
        k += 1;
    }
    assert(char_views(pieces@).take(k as int) =~= char_views(pieces@));
    if dots > 0 {
        let mut parts = importer_dir(importer);
        proof {
            crate::text::lemma_split_nonempty(importer@, '/');
        }
        let ghost all = split_on(importer@, '/').drop_last();
        assert(all.take(all.len() as int) =~= all);
        let mut up: usize = 1;
        while up < dots
            invariant
                1 <= up <= dots,
                all == split_on(importer@, '/').drop_last(),
                dot_run(specifier@) == dots,
                up - 1 <= all.len(),
                char_views(parts@) == all.take(all.len() - (up - 1)),
            decreases dots - up,
        {
            if parts.len() == 0 {
                assert(char_views(parts@).len() == 0);
                assert(all.take(all.len() - (up - 1)).len() == all.len() - (up - 1));
                assert(all.len() + 1 < dots);
                return None;
            }
            assert(all.take(all.len() - up) =~= all.take(all.len() - (up - 1)).drop_last());
            let ghost before = char_views(parts@);
            parts.pop();
            assert(char_views(parts@) =~= before.drop_last());
            up += 1;
        }
        let base = join_parts(&parts, '/');
        proof {
            reveal_strlit("/");
            assert(seq!['/'] =~= "/"@);
        }
        return py_module_of(&base, &rest, files);
    }
    let empty: Vec<char> = Vec::new();
    match py_module_of(&empty, &rest, files) {
        Some(found) => Some(found),
        None => {
            let dir = chars_of(directory_of(importer).as_str());
            if dir.len() == 0 {
                None
            } else {
                py_module_of(&dir, &rest, files)
            }
        },
    }
}

/// Resolves a bound name as a module in its own right: `from pkg import
/// util` may name `pkg/util.py`.
pub fn resolve_py_name_as_module(importer: &str, specifier: &str, name: &str, files: &Vec<String>) -> (r: Option<String>)
    ensures
        match r {
            Some(p) => py_resolved(importer@, submodule(specifier@, name@), files@) == Some(p@),
            None => py_resolved(importer@, submodule(specifier@, name@), files@) is None,
        },
{
    let mut v = chars_of(specifier);
    if !ends_with(&v, &chars_of(".")) {
        v.push('.');
    }
    append_str(&mut v, name);
    proof {
        reveal_strlit(".");
    }
    assert(v@ =~= submodule(specifier@, name@));
    resolve_py_import(importer, string_of(&v).as_str(), files)
}

// ---------------------------------------------------------------------------
// The C family.

/// The marker specifier for a header's implementation pair; never a real
/// include path.
pub const PAIR: &'static str = "@header-pair";

/// The source extensions a header of each family may pair with, in
/// preference order: a `.h` may front C or C++.
pub open spec fn pair_sources(cpp: bool) -> Seq<Seq<char>> {
    if cpp {
        seq!["cpp"@, "cc"@, "cxx"@]
    } else {
        seq!["c"@, "cpp"@, "cc"@, "cxx"@]
    }
}

pub fn pair_source_list(cpp: bool) -> (r: Vec<&'static str>)
    ensures
        views(r@) == pair_sources(cpp),
{
    let r = if cpp {
        vec!["cpp", "cc", "cxx"]
    } else {
        vec!["c", "cpp", "cc", "cxx"]
    };
    assert(views(r@) =~= pair_sources(cpp));
    r
}

/// `name` under `dir`, or `name` itself at the root.
pub open spec fn c_join(dir: Seq<char>, name: Seq<char>) -> Seq<char> {
    if dir.len() == 0 {
        name
    } else {
        dir + "/"@ + name
    }
}

/// A path with `.` and `..` collapsed; none when it is absolute or
/// escapes the repository.
pub open spec fn normalized(path: Seq<char>) -> Option<Seq<char>> {
    if starts(path, "/"@) {
        None
    } else {
        walked(Seq::empty(), path)
    }
}

/// A file name without its last extension.
pub open spec fn stem_of(name: Seq<char>) -> Seq<char> {
    if last_of(name, '.') >= 0 {
        name.take(last_of(name, '.'))
    } else {
        name
    }
}

/// `#include "…"` resolution: relative to the includer's directory, then
/// root-relative; the pair marker finds the same-stem source beside a
/// header.
pub open spec fn c_resolved(importer: Seq<char>, specifier: Seq<char>, files: Seq<String>, cpp: bool) -> Option<Seq<char>> {
    let dir = directory_of_path(importer);
    if specifier == PAIR@ {
        first_listed(files, with_extensions(c_join(dir, stem_of(file_name_of(importer))), "."@, pair_sources(cpp)))
    } else {
        match normalized(c_join(dir, specifier)) {
            Some(p) if listed(files, p) => Some(p),
            _ => match normalized(specifier) {
                Some(r) => if listed(files, r) {
                    Some(r)
                } else {
                    None
                },
                None => None,
            },
        }
    }
}

fn c_join_of(dir: &Vec<char>, name: &Vec<char>) -> (r: Vec<char>)
    ensures
        r@ == c_join(dir@, name@),
{
    if dir.len() == 0 {
        slice(name, 0, name.len())
    } else {
        let mut v = slice(dir, 0, dir.len());
        v.push('/');
        append(&mut v, name);
        proof {
            reveal_strlit("/");
        }
        assert(v@ =~= dir@ + "/"@ + name@);
        v
    }
}

fn normalize(path: &Vec<char>) -> (r: Option<Vec<char>>)
    ensures
        match r {
            Some(p) => normalized(path@) == Some(p@),
            None => normalized(path@) is None,
        },
{
    if starts_with(path, &chars_of("/")) {
        return None;
    }
    let start: Vec<Vec<char>> = Vec::new();
    assert(char_views(start@) =~= Seq::<Seq<char>>::empty());
    walk_path(start, path)
}

/// Resolves a C or C++ include (or the pair marker) written in `importer`.
pub fn resolve_c_include(importer: &str, specifier: &str, files: &Vec<String>, cpp: bool) -> (r: Option<String>)
    ensures
        match r {
            Some(p) => c_resolved(importer@, specifier@, files@, cpp) == Some(p@),
            None => c_resolved(importer@, specifier@, files@, cpp) is None,
        },
{
    let dir = chars_of(directory_of(importer).as_str());
    let spec = chars_of(specifier);
    if crate::text::same(&spec, &chars_of(PAIR)) {
        let name = chars_of(file_name(importer).as_str());
        let stem = match last_position(&name, '.') {
            Some(k) => {
                let s = slice(&name, 0, k);
                assert(s@ =~= name@.take(k as int));
                s
            },
            None => slice(&name, 0, name.len()),
        };
        assert(stem@ =~= stem_of(file_name_of(importer@)));
        let base = c_join_of(&dir, &stem);
        let mut candidates: Vec<Vec<char>> = Vec::new();
        push_with_extensions(&mut candidates, &base, ".", &pair_source_list(cpp));
        assert(char_views(candidates@) =~= with_extensions(base@, "."@, pair_sources(cpp)));
        return first_of_listed(files, &candidates);
    }
    match normalize(&c_join_of(&dir, &spec)) {
        Some(p) => {
            if is_listed(files, &p) {
                return Some(string_of(&p));
            }
        },
        None => {},
    }
    match normalize(&spec) {
        Some(r) => if is_listed(files, &r) {
            Some(string_of(&r))
        } else {
            None
        },
        None => None,
    }
}

} // verus!
