use codeatlas::parsers::{Symbol, SymbolKind};
use codeatlas::scan::{file_nodes, function_lists, line_count};

#[test]
fn lines_count_as_std_counts_them() {
    assert_eq!(line_count(""), 0);
    assert_eq!(line_count("a\nb\n"), 2);
    assert_eq!(line_count("a\r\nb"), 2);
    assert_eq!(line_count("\n\n"), 2);
}

#[test]
fn function_lists_follow_the_nodes_and_their_exports() {
    let symbols = vec![
        Symbol { kind: SymbolKind::Function, name: "open".to_string(), start_line: 1, end_line: 2, exported: true },
        Symbol { kind: SymbolKind::Class, name: "Door".to_string(), start_line: 3, end_line: 4, exported: true },
        Symbol { kind: SymbolKind::Function, name: "helper".to_string(), start_line: 5, end_line: 6, exported: false },
    ];
    let (nodes, edges) = file_nodes("src/door.ts", 6, Some("TypeScript"), symbols);
    let (functions, exported) = function_lists(&nodes, &edges);
    assert_eq!(functions, vec!["open".to_string(), "helper".to_string()]);
    assert_eq!(exported, vec!["open".to_string()]);
}
