use codeatlas::highlight::{highlight, highlight_name_list, PLAIN_TEXT};

fn visible_text(html: &str) -> String {
    let mut text = String::new();
    let mut rest = html;
    while let Some(open) = rest.find('<') {
        text.push_str(&rest[..open]);
        let close = rest[open..].find('>').expect("every tag the renderer opens, it closes");
        rest = &rest[open + close + 1..];
    }
    text.push_str(rest);
    text.replace("&lt;", "<").replace("&gt;", ">").replace("&quot;", "\"").replace("&#39;", "'").replace("&amp;", "&")
}

fn seven_grammars() -> Vec<(&'static str, &'static str, &'static str)> {
    vec![
        ("C", "src/main.c", "#include <stdio.h>\nint main(void) {\n  return 0; /* done */\n}\n"),
        ("C++", "src/greeter.cpp", "class Greeter {\npublic:\n  int greet() { return 42; }\n};\n"),
        ("Go", "cmd/main.go", "package main\n\nfunc main() {\n\tprintln(\"hi\")\n}\n"),
        ("JavaScript", "src/main.js", "const greeting = \"hi\";\nfunction main() {\n  return greeting;\n}\n"),
        ("Python", "src/main.py", "def main():\n    return \"hi\"\n"),
        ("Rust", "src/main.rs", "fn main() {\n    println!(\"hi\");\n}\n"),
        (
            "TypeScript",
            "src/main.ts",
            "const answer: number = 42;\nexport function main(): number {\n  return answer;\n}\n",
        ),
    ]
}

#[test]
fn every_vendored_grammar_yields_spans_and_names_its_language() {
    for (language, path, source) in seven_grammars() {
        let highlighted = highlight(path, source);
        assert_eq!(highlighted.language, language, "{path} must be highlighted as {language}");
        assert!(highlighted.html.contains("<span class=\"hl-"), "{language}: {}", highlighted.html);
        assert_eq!(visible_text(&highlighted.html), source, "{language}");
    }
}

#[test]
fn the_sibling_extensions_land_on_their_family_grammar() {
    for (path, source, language) in [
        ("include/api.h", "int add(int a, int b);\n", "C"),
        ("src/impl.cc", "int add(int a, int b) { return a + b; }\n", "C++"),
        ("include/api.hpp", "class Api {};\n", "C++"),
        ("src/App.tsx", "export const App = () => <div>hi</div>;\n", "TypeScript"),
        ("src/legacy.jsx", "const x = <b>hi</b>;\n", "JavaScript"),
        ("src/mod.mjs", "export const x = 1;\n", "JavaScript"),
    ] {
        let highlighted = highlight(path, source);
        assert_eq!(highlighted.language, language, "{path}");
        assert!(highlighted.html.contains("<span class=\"hl-"), "{path}: {}", highlighted.html);
    }
}

#[test]
fn an_uncovered_language_falls_back_to_plain_text_and_says_so() {
    for path in ["README.md", "notes.txt", "Makefile"] {
        let source = "# a heading\nplain prose, `code`, and 2 < 3.\n";
        let highlighted = highlight(path, source);
        assert_eq!(highlighted.language, PLAIN_TEXT, "{path}");
        assert!(!highlighted.html.contains("<span"), "{path}: {}", highlighted.html);
        assert_eq!(visible_text(&highlighted.html), source, "{path}");
    }
}

#[test]
fn source_content_cannot_smuggle_markup_on_either_path() {
    let payload = "const x = \"<script>alert('pwned')</script>\";\n";
    for path in ["src/evil.ts", "evil.weird"] {
        let highlighted = highlight(path, payload);
        assert!(!highlighted.html.contains("<script"), "{path}: {}", highlighted.html);
        assert!(highlighted.html.contains("&lt;script&gt;"), "{path}: {}", highlighted.html);
        assert_eq!(visible_text(&highlighted.html), payload, "{path}");
    }
}

#[test]
fn a_clipped_prefix_highlights_exactly_as_served() {
    let whole = "fn main() {\n    let s = \"a string the cap will cut in half\";\n}\n";
    let cut = &whole[..whole.find("cap").expect("the marker is in the string")];
    assert!(!cut.ends_with('\n'));
    let highlighted = highlight("src/main.rs", cut);
    assert_eq!(highlighted.language, "Rust");
    assert_eq!(visible_text(&highlighted.html), cut);
    assert!(highlighted.html.contains("<span class=\"hl-"), "{}", highlighted.html);
}

#[test]
fn every_line_is_self_contained_so_the_dashboard_can_split_on_newlines() {
    let source = "/* a comment\n   that spans\n   three lines */\nfn main() {}\n";
    let highlighted = highlight("src/lib.rs", source);
    let lines: Vec<&str> = highlighted.html.split('\n').collect();
    assert_eq!(lines.len(), source.split('\n').count());
    for (number, line) in lines.iter().enumerate() {
        assert_eq!(line.matches("<span").count(), line.matches("</span>").count(), "line {}: {line}", number + 1);
    }
    assert!(highlighted.html.contains("hl-comment"), "{}", highlighted.html);
}

#[test]
fn the_plain_fallback_escapes_every_markup_character() {
    let highlighted = highlight("notes.txt", "a<b>&\"'");
    assert_eq!(highlighted.html, "a&lt;b&gt;&amp;&quot;&#39;");
    assert_eq!(highlighted.language, "plain text");
}

#[test]
fn the_class_list_is_the_recognised_names() {
    let names = highlight_name_list();
    assert!(names.contains(&"comment") && names.contains(&"keyword") && names.contains(&"string"));
    assert_eq!(names.len(), names.iter().collect::<std::collections::HashSet<_>>().len());
}
