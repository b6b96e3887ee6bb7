//! Tests of snippet-variable extraction and the repeated-binding pass.

use pattern_compiler::compile::pattern_repeated_variable;
use pattern_compiler::grammar::{is_variables_in_snippet, Grammar};
use pattern_compiler::syntax::{ChildNode, Range, SyntaxNode};

fn grammar() -> Grammar {
    Grammar {
        variable_kind: "variable".to_string(),
        snippet_kind: "codeSnippet".to_string(),
        metavariable_prefix: '$',
    }
}

fn leaf(kind: &str, start: usize, end: usize) -> SyntaxNode {
    SyntaxNode { kind: kind.to_string(), range: Range { start, end }, children: Vec::new() }
}

#[test]
fn extraction_finds_each_placeholder_in_order() {
    let g = grammar();
    let vars = g.snippet_variables("foo($x, $yy) $ $1");
    let got: Vec<(usize, &str)> = vars.iter().map(|v| (v.position, v.name.as_str())).collect();
    assert_eq!(got, vec![(4, "$x"), (8, "$yy"), (15, "$1")]);
}

#[test]
fn extraction_of_plain_text_is_empty() {
    let g = grammar();
    assert!(g.snippet_variables("foo(bar)").is_empty());
    assert!(g.snippet_variables("").is_empty());
    assert!(g.snippet_variables("$").is_empty());
    assert!(g.snippet_variables("100 $ 200").is_empty());
}

#[test]
fn extraction_respects_the_grammar_prefix() {
    let g = Grammar {
        variable_kind: "variable".to_string(),
        snippet_kind: "codeSnippet".to_string(),
        metavariable_prefix: '^',
    };
    let vars = g.snippet_variables("f(^a, $b)");
    let got: Vec<(usize, &str)> = vars.iter().map(|v| (v.position, v.name.as_str())).collect();
    assert_eq!(got, vec![(2, "^a")]);
}

#[test]
fn membership_compares_whole_names() {
    let g = grammar();
    assert!(is_variables_in_snippet("$x", "foo($x)", &g));
    assert!(!is_variables_in_snippet("$y", "foo($x)", &g));
    // "$x" is embedded as "$xs", a different variable.
    assert!(!is_variables_in_snippet("$x", "foo($xs)", &g));
}

#[test]
fn repeated_binding_pass_sees_nested_variables() {
    // A small tree: some construct holding a variable "$x" two levels down.
    let src = "call(arg($x))";
    let inner = SyntaxNode {
        kind: "argList".to_string(),
        range: Range { start: 5, end: 12 },
        children: vec![ChildNode { field: None, node: leaf("variable", 9, 11) }],
    };
    let root = SyntaxNode {
        kind: "call".to_string(),
        range: Range { start: 0, end: 13 },
        children: vec![ChildNode { field: None, node: inner }],
    };
    let g = grammar();
    assert_eq!(pattern_repeated_variable(&root, "$x", src, &g).unwrap(), true);
    assert_eq!(pattern_repeated_variable(&root, "$y", src, &g).unwrap(), false);
}

#[test]
fn trim_removes_surrounding_whitespace() {
    assert_eq!(pattern_compiler::text::trim("  $x\t\n"), "$x");
    assert_eq!(pattern_compiler::text::trim(""), "");
    assert_eq!(pattern_compiler::text::trim("   "), "");
    assert_eq!(pattern_compiler::text::trim("\u{2003}a b\u{00a0}"), "a b");
}

#[test]
fn repeated_binding_pass_reports_unreadable_spans() {
    let src = "$x";
    let root = leaf("variable", 0, 9);
    let g = grammar();
    assert!(pattern_repeated_variable(&root, "$x", src, &g).is_err());
}
