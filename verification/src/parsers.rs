//! What a parser extracts from one file — the structural facts only — and
//! the Markdown parser, which reads links by hand rather than through a
//! grammar: a Markdown file contributes no symbols, only edges to the
//! in-map files its relative links reference.

use vstd::prelude::*;

use crate::highlight::Grammar;

use crate::text::{
    char_views, chars_of, contains, find, first_occurrence, first_of, first_word, joined, lead, lead_of,
    listed, is_listed, occurs_at, position, same, slice, split_chars, split_on, starts, starts_with,
    string_of, trim, trimmed, trimmed_start, word_of,
};

pub mod resolvers;
pub mod syntax;
pub mod python;
pub mod ts_js;
pub mod c_cpp;
pub mod rust;
pub mod rust_imports;
pub mod go;

verus! {

/// Everything a parser extracts from one file.
pub struct Analysis {
    pub symbols: Vec<Symbol>,
    pub imports: Vec<Import>,
    pub calls: Vec<Call>,
    /// Names published by export clauses that need indirection to resolve.
    pub reexports: Vec<Reexport>,
}

impl Analysis {
    pub fn empty() -> (a: Analysis)
        ensures
            a.symbols@.len() == 0 && a.imports@.len() == 0 && a.calls@.len() == 0 && a.reexports@.len() == 0,
    {
        Analysis { symbols: Vec::new(), imports: Vec::new(), calls: Vec::new(), reexports: Vec::new() }
    }
}

/// A name an export clause makes available to importers, possibly under a
/// different name, possibly from another module.
pub struct Reexport {
    pub exported: String,
    pub local: String,
    pub specifier: Option<String>,
}

/// A symbol extracted from one file, with 1-based inclusive lines.
pub struct Symbol {
    pub kind: SymbolKind,
    pub name: String,
    pub start_line: u32,
    pub end_line: u32,
    pub exported: bool,
}

#[derive(Clone, Copy, PartialEq, Eq, Debug, Structural)]
pub enum SymbolKind {
    Function,
    Class,
}

/// One import statement: the module specifier as written in source.
pub struct Import {
    pub specifier: String,
    /// Named bindings this import introduces, for call resolution.
    pub names: Vec<ImportedName>,
    /// Local names bound to the module itself.
    pub namespaces: Vec<String>,
}

/// A named import binding: `import { imported as local }`.
pub struct ImportedName {
    pub local: String,
    pub imported: String,
}

/// A function invocation: `caller` invokes `callee`, through `receiver`
/// when the call is qualified.
pub struct Call {
    pub caller: String,
    pub callee: String,
    pub receiver: Vec<String>,
}

/// The per-language parser interface. Each supported language implements
/// it; everything else in the pipeline is language-agnostic.
pub trait Parser {
    /// Language name as it appears in mechanical summaries.
    fn language_name(&self) -> &'static str;

    /// File extensions (without dot) this parser handles.
    fn extensions(&self) -> Vec<&'static str>;

    /// Extracts structural facts from source, tolerating syntax errors.
    fn parse(&self, source: &str) -> Analysis;

    /// Resolves an import specifier written in `importer` (repo-relative)
    /// to a repo-relative file among `files`; `None` when unresolvable.
    fn resolve_import(&self, importer: &str, specifier: &str, files: &Vec<String>, root: &str) -> Option<String>;

    /// Resolves a bound name as a module file in its own right; `None`
    /// means the name lands wherever the specifier does.
    fn resolve_name_as_module(
        &self,
        importer: &str,
        specifier: &str,
        name: &str,
        files: &Vec<String>,
        root: &str,
    ) -> (r: Option<String>)
        default_ensures
            r is None,
    {
        None
    }

    /// Whether all files in one directory share a single namespace.
    fn directory_shares_scope(&self) -> (r: bool)
        default_ensures
            !r,
    {
        false
    }
}

/// The languages this build knows, one per grammar.
#[derive(Clone, Copy, PartialEq, Eq, Debug, Structural)]
pub enum SourceLanguage {
    TypeScript,
    Tsx,
    JavaScript,
    Rust,
    Python,
    Go,
    C,
    Cpp,
    Markdown,
}

/// The language whose parser handles a file extension.
pub open spec fn language_of(ext: Seq<char>) -> Option<SourceLanguage> {
    if ext == "ts"@ {
        Some(SourceLanguage::TypeScript)
    } else if ext == "tsx"@ {
        Some(SourceLanguage::Tsx)
    } else if ext == "js"@ || ext == "jsx"@ || ext == "mjs"@ || ext == "cjs"@ {
        Some(SourceLanguage::JavaScript)
    } else if ext == "rs"@ {
        Some(SourceLanguage::Rust)
    } else if ext == "py"@ {
        Some(SourceLanguage::Python)
    } else if ext == "go"@ {
        Some(SourceLanguage::Go)
    } else if ext == "c"@ || ext == "h"@ {
        Some(SourceLanguage::C)
    } else if ext == "cpp"@ || ext == "cc"@ || ext == "cxx"@ || ext == "hpp"@ || ext == "hh"@ || ext == "hxx"@ {
        Some(SourceLanguage::Cpp)
    } else if ext == "md"@ || ext == "markdown"@ {
        Some(SourceLanguage::Markdown)
    } else {
        None
    }
}

/// The name a language's files carry in mechanical summaries.
pub open spec fn language_label(l: SourceLanguage) -> Seq<char> {
    match l {
        SourceLanguage::TypeScript | SourceLanguage::Tsx => "TypeScript"@,
        SourceLanguage::JavaScript => "JavaScript"@,
        SourceLanguage::Rust => "Rust"@,
        SourceLanguage::Python => "Python"@,
        SourceLanguage::Go => "Go"@,
        SourceLanguage::C => "C"@,
        SourceLanguage::Cpp => "C++"@,
        SourceLanguage::Markdown => "Markdown"@,
    }
}

fn is_text(v: &Vec<char>, w: &str) -> (r: bool)
    ensures
        r == (v@ == w@),
{
    let c = chars_of(w);
    same(v, &c)
}

/// Finds the language for a file extension, if it is supported.
pub fn for_extension(extension: &str) -> (r: Option<SourceLanguage>)
    ensures
        r == language_of(extension@),
{
    let e = chars_of(extension);
    if is_text(&e, "ts") {
        Some(SourceLanguage::TypeScript)
    } else if is_text(&e, "tsx") {
        Some(SourceLanguage::Tsx)
    } else if is_text(&e, "js") || is_text(&e, "jsx") || is_text(&e, "mjs") || is_text(&e, "cjs") {
        Some(SourceLanguage::JavaScript)
    } else if is_text(&e, "rs") {
        Some(SourceLanguage::Rust)
    } else if is_text(&e, "py") {
        Some(SourceLanguage::Python)
    } else if is_text(&e, "go") {
        Some(SourceLanguage::Go)
    } else if is_text(&e, "c") || is_text(&e, "h") {
        Some(SourceLanguage::C)
    } else if is_text(&e, "cpp") || is_text(&e, "cc") || is_text(&e, "cxx") || is_text(&e, "hpp") || is_text(&e, "hh")
        || is_text(&e, "hxx") {
        Some(SourceLanguage::Cpp)
    } else if is_text(&e, "md") || is_text(&e, "markdown") {
        Some(SourceLanguage::Markdown)
    } else {
        None
    }
}

impl SourceLanguage {
    /// Language name as it appears in mechanical summaries.
    pub fn language_name(&self) -> (r: &'static str)
        ensures
            r@ == language_label(*self),
    {
        match self {
            SourceLanguage::TypeScript | SourceLanguage::Tsx => "TypeScript",
            SourceLanguage::JavaScript => "JavaScript",
            SourceLanguage::Rust => "Rust",
            SourceLanguage::Python => "Python",
            SourceLanguage::Go => "Go",
            SourceLanguage::C => "C",
            SourceLanguage::Cpp => "C++",
            SourceLanguage::Markdown => "Markdown",
        }
    }

    /// Whether a directory is one namespace for this language (Go packages).
    pub fn directory_shares_scope(&self) -> (r: bool)
        ensures
            r == (*self == SourceLanguage::Go),
    {
        match self {
            SourceLanguage::Go => true,
            _ => false,
        }
    }
}

/// The lines of `s` (std `str::lines`): split at `\n`, a `\r` before it
/// dropped, and no empty last line after a final newline.
pub open spec fn lines_of(s: Seq<char>) -> Seq<Seq<char>> {
    let p = split_on(s, '\n');
    let body = p.drop_last().map_values(|l: Seq<char>| if l.len() > 0 && l.last() == '\r' { l.drop_last() } else { l });
    if p.last().len() > 0 {
        body.push(p.last())
    } else {
        body
    }
}

/// The lines of `s`.
pub fn lines(s: &str) -> (r: Vec<Vec<char>>)
    ensures
        char_views(r@) == lines_of(s@),
{
    let v = chars_of(s);
    let pieces = split_chars(&v, '\n');
    proof {
        crate::text::lemma_split_nonempty(v@, '\n');
    }
    let ghost p = split_on(v@, '\n');
    let mut r: Vec<Vec<char>> = Vec::new();
    let mut i: usize = 0;
    let last = pieces.len() - 1;
    while i < last
        invariant
            i <= last,
            last + 1 == pieces.len(),
            char_views(pieces@) == p,
            p == split_on(v@, '\n'),
            char_views(r@) == p.drop_last().take(i as int).map_values(|l: Seq<char>| if l.len() > 0 && l.last() == '\r' { l.drop_last() } else { l }),
        decreases last - i,
    {
        let piece = &pieces[i];
        let line = if piece.len() > 0 && piece[piece.len() - 1] == '\r' {
            let l = slice(piece, 0, piece.len() - 1);
            assert(l@ =~= piece@.drop_last());
            l
        } else {
            let l = slice(piece, 0, piece.len());
            assert(l@ =~= piece@);
            l
        };
        assert(line@ == (if piece@.len() > 0 && piece@.last() == '\r' { piece@.drop_last() } else { piece@ }));
        let ghost before = char_views(r@);
        r.push(line);
        proof {
            assert(p[i as int] == piece@);
            assert(char_views(r@) =~= before.push(line@));
            assert(p.drop_last().take(i + 1) =~= p.drop_last().take(i as int).push(p[i as int]));
            assert(char_views(r@) =~= p.drop_last().take(i + 1).map_values(|l: Seq<char>| if l.len() > 0 && l.last() == '\r' { l.drop_last() } else { l }));
        }
        i += 1;
    }
    assert(p.drop_last().take(i as int) =~= p.drop_last());
    if pieces[last].len() > 0 {
        let ghost before = char_views(r@);
        let l = slice(&pieces[last], 0, pieces[last].len());
        assert(l@ =~= pieces@[last as int]@);
        r.push(l);
        proof {
            assert(p.last() == pieces@[last as int]@);
            assert(char_views(r@) =~= before.push(p.last()));
        }
    }
    r
}

/// The target of a reference definition `[label]: target` at the start of
/// the line, if the line is one and the target is not empty.
pub open spec fn reference_target(line: Seq<char>) -> Seq<Seq<char>> {
    let t = trimmed_start(line);
    let close = first_occurrence(t, "]:"@);
    if starts(t, "["@) && close >= 0 && first_word(t.skip(close + 2)).len() > 0 {
        seq![first_word(t.skip(close + 2))]
    } else {
        Seq::empty()
    }
}

/// The targets of the inline links `[text](target "title")` in `rest`, in
/// order, empty targets skipped.
pub open spec fn inline_targets(rest: Seq<char>) -> Seq<Seq<char>>
    decreases rest.len(),
{
    let open = first_occurrence(rest, "]("@);
    if open < 0 || open + 2 > rest.len() {
        Seq::empty()
    } else {
        let after = rest.skip(open + 2);
        let close = first_of(after, ')');
        if close < 0 {
            Seq::empty()
        } else {
            let target = first_word(after.take(close));
            (if target.len() > 0 {
                seq![target]
            } else {
                Seq::<Seq<char>>::empty()
            }) + inline_targets(after.skip(close + 1))
        }
    }
}

/// Every raw link target on one line: the reference definition's first,
/// then the inline links'.
pub open spec fn link_targets(line: Seq<char>) -> Seq<Seq<char>> {
    reference_target(line) + inline_targets(line)
}

/// The reference-definition law: a line whose text, leading whitespace
/// aside, opens with `[` and holds `]:` followed by a word links to that
/// word first; and when the line holds no inline link, to it alone. So
/// `[guide]: docs/guide.md` links to `docs/guide.md`.
pub proof fn law_a_reference_definition_links_its_target(line: Seq<char>, close: int)
    requires
        trimmed_start(line).len() > 0,
        trimmed_start(line)[0] == '[',
        crate::text::is_first_occurrence(trimmed_start(line), seq![']', ':'], close),
        first_word(trimmed_start(line).skip(close + 2)).len() > 0,
    ensures
        link_targets(line).len() >= 1,
        link_targets(line)[0] == first_word(trimmed_start(line).skip(close + 2)),
        !contains(line, seq![']', '(']) ==> link_targets(line) == seq![first_word(trimmed_start(line).skip(close + 2))],
{
    reveal_strlit("[");
    reveal_strlit("]:");
    reveal_strlit("](");
    let t = trimmed_start(line);
    assert("]:"@ =~= seq![']', ':']);
    assert("]("@ =~= seq![']', '(']);
    assert(t.subrange(0, 1) =~= "["@);
    assert(starts(t, "["@));
    let w = choose|k: int| crate::text::is_first_occurrence(t, "]:"@, k);
    assert(w == close) by {
        if w < close {
            assert(!occurs_at(t, "]:"@, w));
        }
        if w > close {
            assert(!occurs_at(t, "]:"@, close));
        }
    }
    assert(first_occurrence(t, "]:"@) == close);
    assert(reference_target(line) == seq![first_word(t.skip(close + 2))]);
    if !contains(line, seq![']', '(']) {
        if exists|k: int| crate::text::is_first_occurrence(line, "]("@, k) {
            let k = choose|k: int| crate::text::is_first_occurrence(line, "]("@, k);
            assert(occurs_at(line, seq![']', '('], k));
        }
        assert(first_occurrence(line, "]("@) == -1);
        assert(inline_targets(line) =~= Seq::<Seq<char>>::empty());
        assert(link_targets(line) =~= seq![first_word(t.skip(close + 2))]);
    }
}

pub fn line_link_targets(line: &Vec<char>) -> (r: Vec<Vec<char>>)
    ensures
        char_views(r@) == link_targets(line@),
{
    let mut targets: Vec<Vec<char>> = Vec::new();
    let lo = lead_of(line);
    let t = slice(line, lo, line.len());
    assert(t@ =~= trimmed_start(line@));
    let open_bracket = chars_of("[");
    let marker = chars_of("]:");
    proof {
        reveal_strlit("[");
        reveal_strlit("]:");
        reveal_strlit("](");
    }
    if starts_with(&t, &open_bracket) {
        match find(&t, &marker) {
            Some(close) => {
                let rest = slice(&t, close + 2, t.len());
                assert(rest@ =~= t@.skip(close + 2));
                let target = word_of(&rest);
                if target.len() > 0 {
                    targets.push(target);
                }
            },
            None => {},
        }
    }
    assert(char_views(targets@) =~= reference_target(line@));
    let link = chars_of("](");
    let mut rest = slice(line, 0, line.len());
    assert(rest@ =~= line@);
    let ghost head = char_views(targets@);
    loop
        invariant
            char_views(targets@) + inline_targets(rest@) == head + inline_targets(line@),
            link@ == "]("@,
            link@.len() == 2,
        ensures
            char_views(targets@) == head + inline_targets(line@),
        decreases rest.len(),
    {
        let ghost r0 = rest@;
        match find(&rest, &link) {
            Some(open) => {
                let after = slice(&rest, open + 2, rest.len());
                assert(after@ =~= r0.skip(open + 2));
                match position(&after, ')') {
                    Some(close) => {
                        let target = word_of(&slice(&after, 0, close));
                        assert(after@.subrange(0, close as int) =~= after@.take(close as int));
                        let next = slice(&after, close + 1, after.len());
                        assert(next@ =~= after@.skip(close + 1));
                        let ghost before = char_views(targets@);
                        if target.len() > 0 {
                            targets.push(target);
                            assert(char_views(targets@) =~= before.push(target@));
                        }
                        proof {
                            assert(inline_targets(r0) == (if target@.len() > 0 {
                                seq![target@]
                            } else {
                                Seq::<Seq<char>>::empty()
                            }) + inline_targets(next@));
                            assert(char_views(targets@) + inline_targets(next@) =~= before + inline_targets(r0));
                        }
                        rest = next;
                    },
                    None => {
                        assert(inline_targets(r0) =~= Seq::<Seq<char>>::empty());
                        assert(char_views(targets@) =~= char_views(targets@) + inline_targets(r0));
                        break;
                    },
                }
            },
            None => {
                assert(inline_targets(r0) =~= Seq::<Seq<char>>::empty());
                assert(char_views(targets@) =~= char_views(targets@) + inline_targets(r0));
                break;
            },
        }
    }
    assert(char_views(targets@) =~= link_targets(line@));
    targets
}

/// Wrapping angle brackets.
pub open spec fn angle(c: char) -> bool {
    c == '<' || c == '>'
}

pub open spec fn strip_front(s: Seq<char>) -> Seq<char>
    decreases s.len(),
{
    if s.len() > 0 && angle(s[0]) {
        strip_front(s.drop_first())
    } else {
        s
    }
}

pub open spec fn strip_back(s: Seq<char>) -> Seq<char>
    decreases s.len(),
{
    if s.len() > 0 && angle(s.last()) {
        strip_back(s.drop_last())
    } else {
        s
    }
}

/// `s` up to its first `#` or `?`.
pub open spec fn before_mark(s: Seq<char>) -> Seq<char>
    decreases s.len(),
{
    if s.len() == 0 {
        s
    } else if s[0] == '#' || s[0] == '?' {
        Seq::<char>::empty()
    } else {
        seq![s[0]] + before_mark(s.drop_first())
    }
}

/// A raw link target reduced to a path: `<…>` wrappers and `#fragment` /
/// `?query` suffixes stripped, whitespace trimmed.
pub open spec fn link_path(raw: Seq<char>) -> Seq<char> {
    trimmed(before_mark(strip_back(strip_front(raw))))
}

/// The file path a raw link target names, if it names one: URLs (a scheme
/// before any `/`), absolute paths and pure anchors are discarded.
pub open spec fn target_file(raw: Seq<char>) -> Option<Seq<char>> {
    let path = link_path(raw);
    let colon = first_of(path, ':');
    if path.len() == 0 || path[0] == '/' {
        None
    } else if colon >= 0 && !path.take(colon).contains('/') {
        None
    } else {
        Some(path)
    }
}

pub fn file_target(raw: &Vec<char>) -> (r: Option<Vec<char>>)
    ensures
        match r {
            Some(p) => target_file(raw@) == Some(p@),
            None => target_file(raw@) is None,
        },
{
    let mut lo: usize = 0;
    assert(raw@.skip(0) =~= raw@);
    while lo < raw.len() && (raw[lo] == '<' || raw[lo] == '>')
        invariant
            lo <= raw.len(),
            strip_front(raw@) == strip_front(raw@.skip(lo as int)),
        decreases raw.len() - lo,
    {
        assert(raw@.skip(lo as int).drop_first() =~= raw@.skip(lo + 1));
        lo += 1;
    }
    let mut hi: usize = raw.len();
    assert(raw@.skip(lo as int) =~= raw@.subrange(lo as int, hi as int));
    while hi > lo && (raw[hi - 1] == '<' || raw[hi - 1] == '>')
        invariant
            lo <= hi <= raw.len(),
            strip_back(strip_front(raw@)) == strip_back(raw@.subrange(lo as int, hi as int)),
            lo < raw.len() ==> !angle(raw@[lo as int]),
            strip_front(raw@) == raw@.skip(lo as int),
        decreases hi,
    {
        assert(raw@.subrange(lo as int, hi as int).drop_last() =~= raw@.subrange(lo as int, hi - 1));
        hi -= 1;
    }
    proof {
        if lo < raw.len() {
            assert(strip_front(raw@.skip(lo as int)) == raw@.skip(lo as int));
        } else {
            assert(raw@.skip(lo as int) =~= Seq::<char>::empty());
        }
    }
    let inner = slice(raw, lo, hi);
    let mut m: usize = 0;
    assert(inner@.skip(0) =~= inner@);
    assert(inner@.take(0) + before_mark(inner@) =~= before_mark(inner@));
    while m < inner.len() && inner[m] != '#' && inner[m] != '?'
        invariant
            m <= inner.len(),
            before_mark(inner@) == inner@.take(m as int) + before_mark(inner@.skip(m as int)),
        decreases inner.len() - m,
    {
        assert(inner@.skip(m as int).drop_first() =~= inner@.skip(m + 1));
        assert(inner@.take(m + 1) =~= inner@.take(m as int).push(inner@[m as int]));
        assert(inner@.take(m as int) + before_mark(inner@.skip(m as int)) =~= inner@.take(m + 1) + before_mark(inner@.skip(m + 1)));
        m += 1;
    }
    proof {
        if m < inner.len() {
            assert(before_mark(inner@.skip(m as int)) =~= Seq::<char>::empty());
        } else {
            assert(inner@.skip(m as int) =~= Seq::<char>::empty());
        }
        assert(inner@.take(m as int) + before_mark(inner@.skip(m as int)) =~= inner@.take(m as int));
    }
    let head = slice(&inner, 0, m);
    let path = chars_of(trim(string_of(&head).as_str()).as_str());
    assert(path@ == link_path(raw@));
    if path.len() == 0 || path[0] == '/' {
        return None;
    }
    match position(&path, ':') {
        Some(colon) => {
            let mut k: usize = 0;
            let mut slash = false;
            while k < colon
                invariant
                    k <= colon < path.len(),
                    slash == exists|j: int| 0 <= j < k && path@[j] == '/',
                decreases colon - k,
            {
                if path[k] == '/' {
                    slash = true;
                }
                k += 1;
            }
            proof {
                if slash {
                    let j = choose|j: int| 0 <= j < colon && path@[j] == '/';
                    assert(path@.take(colon as int)[j] == '/');
                }
                if path@.take(colon as int).contains('/') {
                    let j = choose|j: int| 0 <= j < colon && path@.take(colon as int)[j] == '/';
                    assert(path@[j] == '/');
                }
            }
            if !slash {
                return None;
            }
        },
        None => {},
    }
    Some(path)
}

/// The file specifiers of a list of raw targets, in order.
pub open spec fn link_files(targets: Seq<Seq<char>>) -> Seq<Seq<char>>
    decreases targets.len(),
{
    if targets.len() == 0 {
        Seq::empty()
    } else {
        link_files(targets.drop_last()) + match target_file(targets.last()) {
            Some(p) => seq![p],
            None => Seq::<Seq<char>>::empty(),
        }
    }
}

/// A line that opens or closes a fenced code block.
pub open spec fn fence_line(line: Seq<char>) -> bool {
    let t = trimmed_start(line);
    starts(t, "```"@) || starts(t, "~~~"@)
}

/// After `lines`: whether a fence is open, and the link specifiers found
/// outside fences so far.
pub open spec fn markdown_state(lines: Seq<Seq<char>>) -> (bool, Seq<Seq<char>>)
    decreases lines.len(),
{
    if lines.len() == 0 {
        (false, Seq::empty())
    } else {
        let (fenced, found) = markdown_state(lines.drop_last());
        let line = lines.last();
        if fence_line(line) {
            (!fenced, found)
        } else if fenced {
            (fenced, found)
        } else {
            (fenced, found + link_files(link_targets(line)))
        }
    }
}

/// The link specifiers a Markdown source holds, in order.
pub open spec fn markdown_links(source: Seq<char>) -> Seq<Seq<char>> {
    markdown_state(lines_of(source)).1
}

/// The Markdown link parser.
pub struct Markdown;

impl Parser for Markdown {
    fn language_name(&self) -> (r: &'static str)
        ensures
            r@ == "Markdown"@,
    {
        "Markdown"
    }

    fn extensions(&self) -> (r: Vec<&'static str>)
        ensures
            crate::text::views(r@) == seq!["md"@, "markdown"@],
    {
        markdown_extensions()
    }

    fn parse(&self, source: &str) -> (a: Analysis)
        ensures
            analyzed(SourceLanguage::Markdown, source@, a),
    {
        parse_markdown(source)
    }

    fn resolve_import(&self, importer: &str, specifier: &str, files: &Vec<String>, root: &str) -> (r: Option<String>)
        ensures
            match r {
                Some(p) => markdown_resolved(importer@, specifier@, files@) == Some(p@),
                None => markdown_resolved(importer@, specifier@, files@) is None,
            },
    {
        resolve_markdown_link(importer, specifier, files)
    }
}

/// The extensions the Markdown parser handles.
pub fn markdown_extensions() -> (r: Vec<&'static str>)
    ensures
        crate::text::views(r@) == seq!["md"@, "markdown"@],
{
    let r = vec!["md", "markdown"];
    assert(crate::text::views(r@) =~= seq!["md"@, "markdown"@]);
    r
}

/// What the parser for `language` yields for `source`: each language's
/// walk of the tree its grammar parses, and Markdown's links.
pub open spec fn analyzed(language: SourceLanguage, source: Seq<char>, a: Analysis) -> bool {
    match language {
        SourceLanguage::TypeScript => ts_js::all_facts(a) == ts_js::es_facts(syntax::syntax_of(Grammar::TypeScript, source)),
        SourceLanguage::Tsx => ts_js::all_facts(a) == ts_js::es_facts(syntax::syntax_of(Grammar::Tsx, source)),
        SourceLanguage::JavaScript => ts_js::all_facts(a) == ts_js::es_facts(syntax::syntax_of(Grammar::JavaScript, source)),
        SourceLanguage::Rust => python::facts(a) == rust::rust_facts(syntax::syntax_of(Grammar::Rust, source))
            && a.reexports@.len() == 0,
        SourceLanguage::Python => python::facts(a) == python::python_facts(syntax::syntax_of(Grammar::Python, source))
            && a.reexports@.len() == 0,
        SourceLanguage::Go => go::go_reads(syntax::syntax_of(Grammar::Go, source), a),
        SourceLanguage::C => c_cpp::c_reads(syntax::syntax_of(Grammar::C, source), a),
        SourceLanguage::Cpp => c_cpp::c_reads(syntax::syntax_of(Grammar::Cpp, source), a),
        SourceLanguage::Markdown => {
            &&& a.symbols@.len() == 0 && a.calls@.len() == 0 && a.reexports@.len() == 0
            &&& a.imports@.map_values(|i: Import| i.specifier@) == markdown_links(source)
            &&& forall|k: int| 0 <= k < a.imports@.len() ==> (#[trigger] a.imports@[k]).names@.len() == 0 && a.imports@[k].namespaces@.len() == 0
        },
    }
}

/// The structural facts of one file in `language` (the parser registry).
pub fn analyze(language: SourceLanguage, source: &str) -> (a: Analysis)
    ensures
        analyzed(language, source@, a),
{
    match language {
        SourceLanguage::TypeScript => ts_js::parse_ecmascript(Grammar::TypeScript, source),
        SourceLanguage::Tsx => ts_js::parse_ecmascript(Grammar::Tsx, source),
        SourceLanguage::JavaScript => ts_js::parse_ecmascript(Grammar::JavaScript, source),
        SourceLanguage::Rust => {
            let a = rust::parse_rust(source);
            assert(python::facts(a) == rust::rust_facts(syntax::syntax_of(Grammar::Rust, source@)));
            a
        },
        SourceLanguage::Python => python::parse_python(source),
        SourceLanguage::Go => go::parse_go(source),
        SourceLanguage::C => c_cpp::parse_c_family(Grammar::C, source),
        SourceLanguage::Cpp => c_cpp::parse_c_family(Grammar::Cpp, source),
        SourceLanguage::Markdown => parse_markdown(source),
    }
}

/// A Markdown file's analysis: no symbols, and one import per relative
/// link outside fenced code, in order.
pub fn parse_markdown(source: &str) -> (a: Analysis)
    ensures
        a.symbols@.len() == 0 && a.calls@.len() == 0 && a.reexports@.len() == 0,
        a.imports@.map_values(|i: Import| i.specifier@) == markdown_links(source@),
        forall|k: int| 0 <= k < a.imports@.len() ==> (#[trigger] a.imports@[k]).names@.len() == 0 && a.imports@[k].namespaces@.len() == 0,
{
    let all = lines(source);
    let ghost ls = lines_of(source@);
    let mut analysis = Analysis::empty();
    let mut fenced = false;
    let tick = chars_of("```");
    let tilde = chars_of("~~~");
    let mut i: usize = 0;
    while i < all.len()
        invariant
            i <= all.len(),
            char_views(all@) == ls,
            tick@ == "```"@,
            tilde@ == "~~~"@,
            analysis.symbols@.len() == 0 && analysis.calls@.len() == 0 && analysis.reexports@.len() == 0,
            forall|k: int| 0 <= k < analysis.imports@.len() ==> (#[trigger] analysis.imports@[k]).names@.len() == 0 && analysis.imports@[k].namespaces@.len() == 0,
            (fenced, analysis.imports@.map_values(|i: Import| i.specifier@)) == markdown_state(ls.take(i as int)),
        decreases all.len() - i,
    {
        let line = &all[i];
        proof {
            assert(ls.take(i + 1).drop_last() =~= ls.take(i as int));
            assert(ls.take(i + 1).last() == line@);
        }
        let lo = lead_of(line);
        let t = slice(line, lo, line.len());
        assert(t@ =~= trimmed_start(line@));
        if starts_with(&t, &tick) || starts_with(&t, &tilde) {
            fenced = !fenced;
        } else if !fenced {
            let targets = line_link_targets(line);
            let ghost base = analysis.imports@.map_values(|i: Import| i.specifier@);
            let mut j: usize = 0;
            while j < targets.len()
                invariant
                    j <= targets.len(),
                    forall|k: int| 0 <= k < analysis.imports@.len() ==> (#[trigger] analysis.imports@[k]).names@.len() == 0 && analysis.imports@[k].namespaces@.len() == 0,
                    analysis.symbols@.len() == 0 && analysis.calls@.len() == 0 && analysis.reexports@.len() == 0,
                    analysis.imports@.map_values(|i: Import| i.specifier@) == base + link_files(char_views(targets@).take(j as int)),
                decreases targets.len() - j,
            {
                proof {
                    assert(char_views(targets@).take(j + 1).drop_last() =~= char_views(targets@).take(j as int));
                    assert(char_views(targets@).take(j + 1).last() == targets@[j as int]@);
                }
                let ghost before = analysis.imports@;
                match file_target(&targets[j]) {
                    Some(p) => {
                        analysis.imports.push(Import { specifier: string_of(&p), names: Vec::new(), namespaces: Vec::new() });
                        assert(analysis.imports@.map_values(|i: Import| i.specifier@) =~= before.map_values(|i: Import| i.specifier@).push(p@));
                    },
                    None => {},
                }
                j += 1;
            }
            assert(char_views(targets@).take(j as int) =~= char_views(targets@));
        }
        i += 1;
    }
    assert(ls.take(i as int) =~= ls);
    analysis
}

/// Where a relative link from `importer` leads: the linking file's
/// directory, then each segment (`.` and empty ones skipped, `..` climbing
/// — past the repository root is unresolvable).
pub open spec fn walk_segments(parts: Seq<Seq<char>>, segments: Seq<Seq<char>>) -> Option<Seq<Seq<char>>>
    decreases segments.len(),
{
    if segments.len() == 0 {
        Some(parts)
    } else {
        let s = segments[0];
        let rest = segments.drop_first();
        if s.len() == 0 || s == "."@ {
            walk_segments(parts, rest)
        } else if s == ".."@ {
            if parts.len() == 0 {
                None
            } else {
                walk_segments(parts.drop_last(), rest)
            }
        } else {
            walk_segments(parts.push(s), rest)
        }
    }
}

/// The in-map file a Markdown link resolves to: exact matches only.
pub open spec fn markdown_resolved(importer: Seq<char>, specifier: Seq<char>, files: Seq<String>) -> Option<Seq<char>> {
    match walk_segments(split_on(importer, '/').drop_last(), split_on(specifier, '/')) {
        Some(parts) => if listed(files, joined(parts, "/"@)) {
            Some(joined(parts, "/"@))
        } else {
            None
        },
        None => None,
    }
}

/// A relative path walked from the directory parts `start`, joined by `/`.
pub open spec fn walked(start: Seq<Seq<char>>, path: Seq<char>) -> Option<Seq<char>> {
    match walk_segments(start, split_on(path, '/')) {
        Some(parts) => Some(joined(parts, "/"@)),
        None => None,
    }
}

/// Walks `path` from the directory parts `start`.
pub fn walk_path(start: Vec<Vec<char>>, path: &Vec<char>) -> (r: Option<Vec<char>>)
    ensures
        match r {
            Some(p) => walked(char_views(start@), path@) == Some(p@),
            None => walked(char_views(start@), path@) is None,
        },
{
    let mut parts = start;
    let segments = split_chars(path, '/');
    let ghost all = char_views(segments@);
    let ghost first = char_views(parts@);
    let dot = chars_of(".");
    let dots = chars_of("..");
    proof {
        reveal_strlit(".");
        reveal_strlit("..");
        assert(all.skip(0) =~= all);
    }
    let mut i: usize = 0;
    while i < segments.len()
        invariant
            i <= segments.len(),
            all == char_views(segments@),
            all == split_on(path@, '/'),
            dot@ == "."@,
            dots@ == ".."@,
            first == char_views(start@),
            walk_segments(first, all) == walk_segments(char_views(parts@), all.skip(i as int)),
        decreases segments.len() - i,
    {
        let ghost rest = all.skip(i as int);
        assert(rest[0] == segments@[i as int]@);
        assert(rest.drop_first() =~= all.skip(i + 1));
        let s = &segments[i];
        if s.len() == 0 || same(s, &dot) {
        } else if same(s, &dots) {
            if parts.len() == 0 {
                assert(rest[0] == ".."@);
                return None;
            }
            let ghost before = char_views(parts@);
            parts.pop();
            assert(char_views(parts@) =~= before.drop_last());
        } else {
            let ghost before = char_views(parts@);
            let piece = slice(s, 0, s.len());
            assert(piece@ =~= s@);
            parts.push(piece);
            assert(char_views(parts@) =~= before.push(s@));
        }
        i += 1;
    }
    assert(all.skip(i as int) =~= Seq::<Seq<char>>::empty());
    let mut candidate: Vec<char> = Vec::new();
    let ghost ps = char_views(parts@);
    let mut k: usize = 0;
    while k < parts.len()
        invariant
            k <= parts.len(),
            ps == char_views(parts@),
            candidate@ == joined(ps.take(k as int), "/"@),
        decreases parts.len() - k,
    {
        proof {
            assert(ps.take(k + 1).drop_last() =~= ps.take(k as int));
            assert(ps.take(k + 1).last() == parts@[k as int]@);
        }
        if k > 0 {
            candidate.push('/');
        }
        crate::text::append(&mut candidate, &parts[k]);
        proof {
            reveal_strlit("/");
            if k == 0 {
                assert(ps.take(1) =~= seq![parts@[0]@]);
                assert(candidate@ =~= joined(ps.take(1), "/"@));
            } else {
                assert(candidate@ =~= joined(ps.take(k + 1), "/"@));
            }
        }
        k += 1;
    }
    assert(ps.take(k as int) =~= ps);
    Some(candidate)
}

/// The directory parts of `importer`: its segments without the file.
pub fn importer_dir(importer: &str) -> (r: Vec<Vec<char>>)
    ensures
        char_views(r@) == split_on(importer@, '/').drop_last(),
{
    let mut parts = split_chars(&chars_of(importer), '/');
    proof {
        crate::text::lemma_split_nonempty(importer@, '/');
    }
    parts.pop();
    assert(char_views(parts@) =~= split_on(importer@, '/').drop_last());
    parts
}

pub fn resolve_markdown_link(importer: &str, specifier: &str, files: &Vec<String>) -> (r: Option<String>)
    ensures
        match r {
            Some(p) => markdown_resolved(importer@, specifier@, files@) == Some(p@),
            None => markdown_resolved(importer@, specifier@, files@) is None,
        },
{
    match walk_path(importer_dir(importer), &chars_of(specifier)) {
        Some(candidate) => if is_listed(files, &candidate) {
            Some(string_of(&candidate))
        } else {
            None
        },
        None => None,
    }
}

} // verus!
