//! Server-side syntax highlighting for open code: the seven vendored
//! grammars render their own bundled highlight queries through
//! `tree-sitter-highlight`; any other extension falls back to escaped
//! plain text, stated as such. Everything is escaped on both paths, and
//! the text under the markup is exactly the text given.

use vstd::prelude::*;

use crate::paths::{extension_of, path_extension};
use crate::text::{append_str, chars_of, ends_with, same, string_of, views};

verus! {

/// What the language says when no vendored grammar covers the file.
pub const PLAIN_TEXT: &'static str = "plain text";

/// The highlight names this server recognises; each becomes the CSS class
/// `hl-<name>` on a span.
pub open spec fn highlight_names() -> Seq<Seq<char>> {
    seq![
        "attribute"@, "comment"@, "constant"@, "constructor"@, "function"@, "keyword"@, "label"@,
        "number"@, "operator"@, "property"@, "punctuation"@, "string"@, "tag"@, "type"@,
    ]
}

pub fn highlight_name_list() -> (r: Vec<&'static str>)
    ensures
        views(r@) == highlight_names(),
{
    let r = vec![
        "attribute", "comment", "constant", "constructor", "function", "keyword", "label",
        "number", "operator", "property", "punctuation", "string", "tag", "type",
    ];
    assert(views(r@) =~= highlight_names());
    r
}

/// The class attribute a recognised name renders as.
pub open spec fn class_attr_text(name: Seq<char>) -> Seq<char> {
    "class=\"hl-"@ + name + "\""@
}

pub fn class_attrs() -> (r: Vec<String>)
    ensures
        r@.len() == highlight_names().len(),
        forall|k: int| 0 <= k < r@.len() ==> (#[trigger] r@[k])@ == class_attr_text(highlight_names()[k]),
{
    let names = highlight_name_list();
    let mut r: Vec<String> = Vec::new();
    let mut i: usize = 0;
    while i < names.len()
        invariant
            i <= names.len(),
            views(names@) == highlight_names(),
            r@.len() == i,
            forall|k: int| 0 <= k < i ==> (#[trigger] r@[k])@ == class_attr_text(highlight_names()[k]),
        decreases names.len() - i,
    {
        let mut v = chars_of("class=\"hl-");
        append_str(&mut v, names[i]);
        append_str(&mut v, "\"");
        assert(names@[i as int]@ == highlight_names()[i as int]);
        r.push(string_of(&v));
        i += 1;
    }
    r
}

/// The seven vendored grammars, TypeScript's two dialects apart.
#[derive(Clone, Copy, PartialEq, Eq, Debug, Structural)]
pub enum Grammar {
    TypeScript,
    Tsx,
    JavaScript,
    Rust,
    Python,
    Go,
    C,
    Cpp,
}

/// The language a grammar's answers are labelled with.
pub open spec fn language_name(g: Grammar) -> Seq<char> {
    match g {
        Grammar::TypeScript | Grammar::Tsx => "TypeScript"@,
        Grammar::JavaScript => "JavaScript"@,
        Grammar::Rust => "Rust"@,
        Grammar::Python => "Python"@,
        Grammar::Go => "Go"@,
        Grammar::C => "C"@,
        Grammar::Cpp => "C++"@,
    }
}

pub fn language(g: Grammar) -> (r: &'static str)
    ensures
        r@ == language_name(g),
{
    match g {
        Grammar::TypeScript | Grammar::Tsx => "TypeScript",
        Grammar::JavaScript => "JavaScript",
        Grammar::Rust => "Rust",
        Grammar::Python => "Python",
        Grammar::Go => "Go",
        Grammar::C => "C",
        Grammar::Cpp => "C++",
    }
}

/// The grammar an extension maps to — the same extensions the scanner
/// maps — if any.
pub open spec fn grammar_for(extension: Seq<char>) -> Option<Grammar> {
    if extension == "ts"@ {
        Some(Grammar::TypeScript)
    } else if extension == "tsx"@ {
        Some(Grammar::Tsx)
    } else if extension == "js"@ || extension == "jsx"@ || extension == "mjs"@ || extension == "cjs"@ {
        Some(Grammar::JavaScript)
    } else if extension == "rs"@ {
        Some(Grammar::Rust)
    } else if extension == "py"@ {
        Some(Grammar::Python)
    } else if extension == "go"@ {
        Some(Grammar::Go)
    } else if extension == "c"@ || extension == "h"@ {
        Some(Grammar::C)
    } else if extension == "cpp"@ || extension == "cc"@ || extension == "cxx"@ || extension == "hpp"@
        || extension == "hh"@ || extension == "hxx"@ {
        Some(Grammar::Cpp)
    } else {
        None
    }
}

fn is(ext: &Vec<char>, word: &str) -> (r: bool)
    ensures
        r == (ext@ == word@),
{
    same(ext, &chars_of(word))
}

pub fn grammar_of(extension: &str) -> (r: Option<Grammar>)
    ensures
        r == grammar_for(extension@),
{
    let e = chars_of(extension);
    if is(&e, "ts") {
        Some(Grammar::TypeScript)
    } else if is(&e, "tsx") {
        Some(Grammar::Tsx)
    } else if is(&e, "js") || is(&e, "jsx") || is(&e, "mjs") || is(&e, "cjs") {
        Some(Grammar::JavaScript)
    } else if is(&e, "rs") {
        Some(Grammar::Rust)
    } else if is(&e, "py") {
        Some(Grammar::Python)
    } else if is(&e, "go") {
        Some(Grammar::Go)
    } else if is(&e, "c") || is(&e, "h") {
        Some(Grammar::C)
    } else if is(&e, "cpp") || is(&e, "cc") || is(&e, "cxx") || is(&e, "hpp") || is(&e, "hh") || is(
        &e,
        "hxx",
    ) {
        Some(Grammar::Cpp)
    } else {
        None
    }
}

/// `c` as the markup escapes it.
pub open spec fn escaped_char(c: char) -> Seq<char> {
    if c == '<' {
        "&lt;"@
    } else if c == '>' {
        "&gt;"@
    } else if c == '&' {
        "&amp;"@
    } else if c == '\'' {
        "&#39;"@
    } else if c == '"' {
        "&quot;"@
    } else {
        seq![c]
    }
}

/// `s` with the five markup characters as entities.
pub open spec fn escaped(s: Seq<char>) -> Seq<char>
    decreases s.len(),
{
    if s.len() == 0 {
        Seq::<char>::empty()
    } else {
        escaped(s.drop_last()) + escaped_char(s.last())
    }
}

/// The escaping law: escaped text holds no markup delimiter at all, so
/// nothing in a source file can open or close a tag where it is shown.
pub proof fn law_escaped_text_holds_no_markup(s: Seq<char>)
    ensures
        forall|k: int| 0 <= k < escaped(s).len() ==> #[trigger] escaped(s)[k] != '<' && escaped(s)[k] != '>',
    decreases s.len(),
{
    reveal_strlit("&lt;");
    reveal_strlit("&gt;");
    reveal_strlit("&amp;");
    reveal_strlit("&#39;");
    reveal_strlit("&quot;");
    if s.len() > 0 {
        law_escaped_text_holds_no_markup(s.drop_last());
        let head = escaped(s.drop_last());
        let tail = escaped_char(s.last());
        assert forall|k: int| 0 <= k < escaped(s).len() implies #[trigger] escaped(s)[k] != '<' && escaped(s)[k] != '>' by {
            if k >= head.len() {
                assert(escaped(s)[k] == tail[k - head.len()]);
            } else {
                assert(escaped(s)[k] == head[k]);
            }
        }
    }
}

/// The same five characters the renderer escapes, so source content cannot
/// smuggle markup on either path.
pub fn escape(source: &str) -> (r: String)
    ensures
        r@ == escaped(source@),
{
    let v = chars_of(source);
    let mut out: Vec<char> = Vec::new();
    let mut i: usize = 0;
    while i < v.len()
        invariant
            i <= v.len(),
            v@ == source@,
            out@ == escaped(v@.take(i as int)),
        decreases v.len() - i,
    {
        let c = v[i];
        proof {
            assert(v@.take(i + 1).drop_last() =~= v@.take(i as int));
        }
        if c == '<' {
            append_str(&mut out, "&lt;");
        } else if c == '>' {
            append_str(&mut out, "&gt;");
        } else if c == '&' {
            append_str(&mut out, "&amp;");
        } else if c == '\'' {
            append_str(&mut out, "&#39;");
        } else if c == '"' {
            append_str(&mut out, "&quot;");
        } else {
            out.push(c);
            proof {
                assert(out@ =~= escaped(v@.take(i as int)) + seq![c]);
            }
        }
        i += 1;
    }
    assert(v@.take(i as int) =~= v@);
    string_of(&out)
}

/// One highlighted answer: the HTML and the language that says so.
pub struct Highlighted {
    pub html: String,
    pub language: &'static str,
}

/// The uncovered-language answer: the text escaped whole, no spans, the
/// fallback stated.
pub fn plain(source: &str) -> (r: Highlighted)
    ensures
        r.html@ == escaped(source@),
        r.language@ == PLAIN_TEXT@,
{
    Highlighted { html: escape(source), language: PLAIN_TEXT }
}

/// The renderer's HTML as served: the renderer ends its output with a
/// newline the source may not have had, and serving it would invent a
/// character, so it is taken back off.
pub open spec fn served(source: Seq<char>, html: Seq<char>) -> Seq<char> {
    if !(source.len() > 0 && source.last() == '\n') && html.len() > 0 && html.last() == '\n' {
        html.drop_last()
    } else {
        html
    }
}

/// What a highlight answers once the renderer has run: its HTML as served,
/// labelled with the grammar's language — or, if the renderer failed, the
/// plain answer.
pub fn finish(source: &str, rendered: Option<String>, grammar: Grammar) -> (r: Highlighted)
    ensures
        match rendered {
            Some(h) => r.html@ == served(source@, h@) && r.language@ == language_name(grammar),
            None => r.html@ == escaped(source@) && r.language@ == PLAIN_TEXT@,
        },
{
    match rendered {
        Some(html) => {
            let s = chars_of(source);
            let mut h = chars_of(html.as_str());
            let source_ends = s.len() > 0 && s[s.len() - 1] == '\n';
            if !source_ends && h.len() > 0 && h[h.len() - 1] == '\n' {
                h.pop();
            }
            Highlighted { html: string_of(&h), language: language(grammar) }
        },
        None => plain(source),
    }
}

/// Declares `tree_sitter`'s grammar handle to the verifier, as an opaque
/// value.
#[verifier::external_type_specification]
#[verifier::external_body]
pub struct ExLanguage(tree_sitter::Language);

/// The pieces a grammar's highlighting is assembled from: the grammar
/// crates' bundled queries.
#[derive(Clone, Copy, PartialEq, Eq, Debug, Structural)]
pub enum QueryPart {
    JavaScriptHighlights,
    JsxHighlights,
    TypeScriptHighlights,
    RustHighlights,
    PythonHighlights,
    GoHighlights,
    CHighlights,
    CppHighlights,
    JavaScriptLocals,
    TypeScriptLocals,
}

/// A grammar's highlight queries, base dialect first: JavaScript's under
/// TypeScript's (with the JSX query for Tsx), the JSX query for
/// JavaScript, C's under C++'s.
pub open spec fn layering(g: Grammar) -> Seq<QueryPart> {
    match g {
        Grammar::TypeScript => seq![QueryPart::JavaScriptHighlights, QueryPart::TypeScriptHighlights],
        Grammar::Tsx => seq![QueryPart::JavaScriptHighlights, QueryPart::JsxHighlights, QueryPart::TypeScriptHighlights],
        Grammar::JavaScript => seq![QueryPart::JavaScriptHighlights, QueryPart::JsxHighlights],
        Grammar::Rust => seq![QueryPart::RustHighlights],
        Grammar::Python => seq![QueryPart::PythonHighlights],
        Grammar::Go => seq![QueryPart::GoHighlights],
        Grammar::C => seq![QueryPart::CHighlights],
        Grammar::Cpp => seq![QueryPart::CHighlights, QueryPart::CppHighlights],
    }
}

pub fn query_parts(g: Grammar) -> (r: Vec<QueryPart>)
    ensures
        r@ == layering(g),
{
    let r = match g {
        Grammar::TypeScript => vec![QueryPart::JavaScriptHighlights, QueryPart::TypeScriptHighlights],
        Grammar::Tsx => vec![QueryPart::JavaScriptHighlights, QueryPart::JsxHighlights, QueryPart::TypeScriptHighlights],
        Grammar::JavaScript => vec![QueryPart::JavaScriptHighlights, QueryPart::JsxHighlights],
        Grammar::Rust => vec![QueryPart::RustHighlights],
        Grammar::Python => vec![QueryPart::PythonHighlights],
        Grammar::Go => vec![QueryPart::GoHighlights],
        Grammar::C => vec![QueryPart::CHighlights],
        Grammar::Cpp => vec![QueryPart::CHighlights, QueryPart::CppHighlights],
    };
    assert(r@ =~= layering(g));
    r
}

/// The locals query a grammar ships, where one does: the JavaScript family
/// only.
pub open spec fn locals_of(g: Grammar) -> Option<QueryPart> {
    match g {
        Grammar::TypeScript | Grammar::Tsx => Some(QueryPart::TypeScriptLocals),
        Grammar::JavaScript => Some(QueryPart::JavaScriptLocals),
        _ => None,
    }
}

pub fn locals_part(g: Grammar) -> (r: Option<QueryPart>)
    ensures
        r == locals_of(g),
{
    match g {
        Grammar::TypeScript | Grammar::Tsx => Some(QueryPart::TypeScriptLocals),
        Grammar::JavaScript => Some(QueryPart::JavaScriptLocals),
        _ => None,
    }
}

/// The text of the grammar crates' bundled query `part`.
pub uninterp spec fn vendored_query(part: QueryPart) -> Seq<char>;

/// `tree_sitter_javascript::HIGHLIGHT_QUERY`, named [`vendored_query`].
#[verifier::external_body]
fn javascript_highlights() -> (r: &'static str)
    ensures
        r@ == vendored_query(QueryPart::JavaScriptHighlights),
{
    tree_sitter_javascript::HIGHLIGHT_QUERY
}

/// `tree_sitter_javascript::JSX_HIGHLIGHT_QUERY`, named [`vendored_query`].
#[verifier::external_body]
fn jsx_highlights() -> (r: &'static str)
    ensures
        r@ == vendored_query(QueryPart::JsxHighlights),
{
    tree_sitter_javascript::JSX_HIGHLIGHT_QUERY
}

/// `tree_sitter_typescript::HIGHLIGHTS_QUERY`, named [`vendored_query`].
#[verifier::external_body]
fn typescript_highlights() -> (r: &'static str)
    ensures
        r@ == vendored_query(QueryPart::TypeScriptHighlights),
{
    tree_sitter_typescript::HIGHLIGHTS_QUERY
}

/// `tree_sitter_rust::HIGHLIGHTS_QUERY`, named [`vendored_query`].
#[verifier::external_body]
fn rust_highlights() -> (r: &'static str)
    ensures
        r@ == vendored_query(QueryPart::RustHighlights),
{
    tree_sitter_rust::HIGHLIGHTS_QUERY
}

/// `tree_sitter_python::HIGHLIGHTS_QUERY`, named [`vendored_query`].
#[verifier::external_body]
fn python_highlights() -> (r: &'static str)
    ensures
        r@ == vendored_query(QueryPart::PythonHighlights),
{
    tree_sitter_python::HIGHLIGHTS_QUERY
}

/// `tree_sitter_go::HIGHLIGHTS_QUERY`, named [`vendored_query`].
#[verifier::external_body]
fn go_highlights() -> (r: &'static str)
    ensures
        r@ == vendored_query(QueryPart::GoHighlights),
{
    tree_sitter_go::HIGHLIGHTS_QUERY
}

/// `tree_sitter_c::HIGHLIGHT_QUERY`, named [`vendored_query`].
#[verifier::external_body]
fn c_highlights() -> (r: &'static str)
    ensures
        r@ == vendored_query(QueryPart::CHighlights),
{
    tree_sitter_c::HIGHLIGHT_QUERY
}

/// `tree_sitter_cpp::HIGHLIGHT_QUERY`, named [`vendored_query`].
#[verifier::external_body]
fn cpp_highlights() -> (r: &'static str)
    ensures
        r@ == vendored_query(QueryPart::CppHighlights),
{
    tree_sitter_cpp::HIGHLIGHT_QUERY
}

/// `tree_sitter_javascript::LOCALS_QUERY`, named [`vendored_query`].
#[verifier::external_body]
fn javascript_locals() -> (r: &'static str)
    ensures
        r@ == vendored_query(QueryPart::JavaScriptLocals),
{
    tree_sitter_javascript::LOCALS_QUERY
}

/// `tree_sitter_typescript::LOCALS_QUERY`, named [`vendored_query`].
#[verifier::external_body]
fn typescript_locals() -> (r: &'static str)
    ensures
        r@ == vendored_query(QueryPart::TypeScriptLocals),
{
    tree_sitter_typescript::LOCALS_QUERY
}

/// The text of one vendored query.
fn query_text(part: QueryPart) -> (r: &'static str)
    ensures
        r@ == vendored_query(part),
{
    match part {
        QueryPart::JavaScriptHighlights => javascript_highlights(),
        QueryPart::JsxHighlights => jsx_highlights(),
        QueryPart::TypeScriptHighlights => typescript_highlights(),
        QueryPart::RustHighlights => rust_highlights(),
        QueryPart::PythonHighlights => python_highlights(),
        QueryPart::GoHighlights => go_highlights(),
        QueryPart::CHighlights => c_highlights(),
        QueryPart::CppHighlights => cpp_highlights(),
        QueryPart::JavaScriptLocals => javascript_locals(),
        QueryPart::TypeScriptLocals => typescript_locals(),
    }
}

/// The `tree_sitter::Language` a grammar crate ships for `grammar`: the
/// value its `LANGUAGE` constant converts to. Opaque here; what a parse or
/// a highlight with it gives is named over the grammar.
pub uninterp spec fn language_of(grammar: Grammar) -> tree_sitter::Language;

/// `tree_sitter_typescript::LANGUAGE_TYPESCRIPT` as a `tree_sitter::Language`.
#[verifier::external_body]
fn typescript_language() -> (r: tree_sitter::Language)
    ensures
        r == language_of(Grammar::TypeScript),
{
    tree_sitter_typescript::LANGUAGE_TYPESCRIPT.into()
}

/// `tree_sitter_typescript::LANGUAGE_TSX` as a `tree_sitter::Language`.
#[verifier::external_body]
fn tsx_language() -> (r: tree_sitter::Language)
    ensures
        r == language_of(Grammar::Tsx),
{
    tree_sitter_typescript::LANGUAGE_TSX.into()
}

/// `tree_sitter_javascript::LANGUAGE` as a `tree_sitter::Language`.
#[verifier::external_body]
fn javascript_language() -> (r: tree_sitter::Language)
    ensures
        r == language_of(Grammar::JavaScript),
{
    tree_sitter_javascript::LANGUAGE.into()
}

/// `tree_sitter_rust::LANGUAGE` as a `tree_sitter::Language`.
#[verifier::external_body]
fn rust_language() -> (r: tree_sitter::Language)
    ensures
        r == language_of(Grammar::Rust),
{
    tree_sitter_rust::LANGUAGE.into()
}

/// `tree_sitter_python::LANGUAGE` as a `tree_sitter::Language`.
#[verifier::external_body]
fn python_language() -> (r: tree_sitter::Language)
    ensures
        r == language_of(Grammar::Python),
{
    tree_sitter_python::LANGUAGE.into()
}

/// `tree_sitter_go::LANGUAGE` as a `tree_sitter::Language`.
#[verifier::external_body]
fn go_language() -> (r: tree_sitter::Language)
    ensures
        r == language_of(Grammar::Go),
{
    tree_sitter_go::LANGUAGE.into()
}

/// `tree_sitter_c::LANGUAGE` as a `tree_sitter::Language`.
#[verifier::external_body]
fn c_language() -> (r: tree_sitter::Language)
    ensures
        r == language_of(Grammar::C),
{
    tree_sitter_c::LANGUAGE.into()
}

/// `tree_sitter_cpp::LANGUAGE` as a `tree_sitter::Language`.
#[verifier::external_body]
fn cpp_language() -> (r: tree_sitter::Language)
    ensures
        r == language_of(Grammar::Cpp),
{
    tree_sitter_cpp::LANGUAGE.into()
}

/// The grammar crate's language for `grammar`, as a `tree_sitter::Language`
/// (opaque here).
pub(crate) fn grammar_language(grammar: Grammar) -> (r: tree_sitter::Language)
    ensures
        r == language_of(grammar),
{
    match grammar {
        Grammar::TypeScript => typescript_language(),
        Grammar::Tsx => tsx_language(),
        Grammar::JavaScript => javascript_language(),
        Grammar::Rust => rust_language(),
        Grammar::Python => python_language(),
        Grammar::Go => go_language(),
        Grammar::C => c_language(),
        Grammar::Cpp => cpp_language(),
    }
}

/// A grammar's highlight queries joined by newlines, in layering order.
pub open spec fn highlight_source(g: Grammar) -> Seq<char> {
    crate::text::joined(layering(g).map_values(|p: QueryPart| vendored_query(p)), "\n"@)
}

/// A grammar's locals query, or none.
pub open spec fn locals_source(g: Grammar) -> Seq<char> {
    match locals_of(g) {
        Some(p) => vendored_query(p),
        None => Seq::<char>::empty(),
    }
}

/// The grammar's highlight queries, joined by newlines in layering order.
fn joined_queries(grammar: Grammar) -> (r: String)
    ensures
        r@ == highlight_source(grammar),
{
    let parts = query_parts(grammar);
    let mut texts: Vec<&'static str> = Vec::new();
    let mut i: usize = 0;
    while i < parts.len()
        invariant
            i <= parts.len(),
            parts@ == layering(grammar),
            views(texts@) == layering(grammar).take(i as int).map_values(|p: QueryPart| vendored_query(p)),
        decreases parts.len() - i,
    {
        let ghost before = views(texts@);
        let t = query_text(parts[i]);
        texts.push(t);
        assert(views(texts@) =~= before.push(t@));
        assert(views(texts@) =~= layering(grammar).take(i + 1).map_values(|p: QueryPart| vendored_query(p)));
        i += 1;
    }
    assert(layering(grammar).take(i as int) =~= layering(grammar));
    string_of(&crate::text::join(&texts, "\n"))
}

/// The grammar's locals query, or none.
fn locals_text(grammar: Grammar) -> (r: &'static str)
    ensures
        r@ == locals_source(grammar),
{
    match locals_part(grammar) {
        Some(p) => query_text(p),
        None => {
            proof {
                reveal_strlit("");
            }
            ""
        },
    }
}

/// The HTML `tree_sitter_highlight` renders for `source` with a
/// configuration of `grammar`'s language named `name`, built from the
/// `highlights` and `locals` queries and configured with the `recognised`
/// highlight names, each span's attributes being `attrs` at its name's
/// index; `None` where the configuration, the highlighting or the
/// rendering fails.
pub uninterp spec fn rendered(
    grammar: Grammar,
    name: Seq<char>,
    highlights: Seq<char>,
    locals: Seq<char>,
    recognised: Seq<Seq<char>>,
    attrs: Seq<Seq<char>>,
    source: Seq<char>,
) -> Option<Seq<char>>;

/// Calls `HighlightConfiguration::new` (no injection query) and
/// `configure`, then `Highlighter::highlight` and `HtmlRenderer::render`;
/// `None` stands for an error from any of them. The result is named
/// [`rendered`] over every argument, `language` standing as the grammar's;
/// nothing is claimed of the HTML's content. `attrs` covers every
/// recognised name, so the renderer's lookup by name index stays in bounds.
#[verifier::external_body]
fn render(
    grammar: Grammar,
    language: tree_sitter::Language,
    name: &str,
    highlights: &str,
    locals: &str,
    recognised: &Vec<&'static str>,
    attrs: &Vec<String>,
    source: &str,
) -> (r: Option<String>)
    requires
        language == language_of(grammar),
        attrs.len() >= recognised.len(),
    ensures
        match r {
            Some(h) => rendered(grammar, name@, highlights@, locals@, views(recognised@), crate::text::strings(attrs@), source@) == Some(h@),
            None => rendered(grammar, name@, highlights@, locals@, views(recognised@), crate::text::strings(attrs@), source@) is None,
        },
{
    let mut config = tree_sitter_highlight::HighlightConfiguration::new(language, name, highlights, "", locals).ok()?;
    config.configure(recognised);
    let mut highlighter = tree_sitter_highlight::Highlighter::new();
    let events = highlighter.highlight(&config, source.as_bytes(), None, None, |_| None).ok()?;
    let mut renderer = tree_sitter_highlight::HtmlRenderer::new();
    renderer.render(events, source.as_bytes(), &|token, out| out.extend_from_slice(attrs[token.0].as_bytes())).ok()?;
    String::from_utf8(renderer.html).ok()
}

/// The class attributes of the recognised names, in order.
pub open spec fn class_attr_texts() -> Seq<Seq<char>> {
    highlight_names().map_values(|n: Seq<char>| class_attr_text(n))
}

/// What the renderer gives for `source` under grammar `g`'s vendored
/// configuration, as `highlight` sets it up.
pub open spec fn grammar_rendering(g: Grammar, source: Seq<char>) -> Option<Seq<char>> {
    rendered(g, language_name(g), highlight_source(g), locals_source(g), highlight_names(), class_attr_texts(), source)
}

/// What `highlight` answers for a grammar: the rendered HTML as served,
/// labelled with the grammar's language, where the renderer answers; the
/// plain answer otherwise.
pub open spec fn grammar_answer(g: Grammar, source: Seq<char>, r: Highlighted) -> bool {
    match grammar_rendering(g, source) {
        Some(h) => r.html@ == served(source, h) && r.language@ == language_name(g),
        None => r.html@ == escaped(source) && r.language@ == PLAIN_TEXT@,
    }
}

/// Highlights `source` as the language `path`'s extension names, falling
/// back to escaped plain text — stated as such — for anything the
/// vendored grammars do not cover, or that the renderer refuses.
pub fn highlight(path: &str, source: &str) -> (r: Highlighted)
    ensures
        match path_extension(path@) {
            Some(e) if grammar_for(e) is Some => grammar_answer(grammar_for(e)->0, source@, r),
            _ => r.html@ == escaped(source@) && r.language@ == PLAIN_TEXT@,
        },
{
    let grammar = match extension_of(path) {
        Some(e) => grammar_of(e.as_str()),
        None => None,
    };
    match grammar {
        Some(g) => {
            let names = highlight_name_list();
            let attrs = class_attrs();
            proof {
                assert(crate::text::strings(attrs@) =~= class_attr_texts());
            }
            let rendered = render(
                g,
                grammar_language(g),
                language(g),
                joined_queries(g).as_str(),
                locals_text(g),
                &names,
                &attrs,
                source,
            );
            finish(source, rendered, g)
        },
        None => plain(source),
    }
}

} // verus!
