//! End-to-end tests of the `as`-construct compiler: warnings, structural
//! errors, slot assignment and the shape of the produced IR.

use pattern_compiler::compile::{AsCompiler, CompilationContext, CompileError};
use pattern_compiler::ir::Pattern;
use pattern_compiler::diagnostics::{Diagnostic, REDEFINED_VARIABLE_SEVERITY};
use pattern_compiler::grammar::Grammar;
use pattern_compiler::ir::{Container, Predicate, Where};
use pattern_compiler::scope::ScopeTables;
use pattern_compiler::syntax::{ChildNode, Range, SyntaxNode};

fn grammar() -> Grammar {
    Grammar {
        variable_kind: "variable".to_string(),
        snippet_kind: "codeSnippet".to_string(),
        metavariable_prefix: '$',
    }
}

fn context(src: &str) -> CompilationContext {
    CompilationContext { src: src.to_string(), file: "pattern.grit".to_string(), lang: grammar() }
}

fn leaf(kind: &str, start: usize, end: usize) -> SyntaxNode {
    SyntaxNode { kind: kind.to_string(), range: Range { start, end }, children: Vec::new() }
}

fn as_node(pattern: SyntaxNode, variable: SyntaxNode, start: usize, end: usize) -> SyntaxNode {
    SyntaxNode {
        kind: "patternAs".to_string(),
        range: Range { start, end },
        children: vec![
            ChildNode { field: Some("pattern".to_string()), node: pattern },
            ChildNode { field: Some("variable".to_string()), node: variable },
        ],
    }
}

fn fresh_state() -> (ScopeTables, usize, Vec<Diagnostic>) {
    let mut tables = ScopeTables::new();
    let scope = tables.new_scope();
    (tables, scope, Vec::new())
}

#[test]
fn warning_on_rebinding_variable_in_its_own_pattern() {
    // `$x as $x`: the pattern is the very variable being rebound.
    let src = "$x as $x";
    let node = as_node(leaf("variable", 0, 2), leaf("variable", 6, 8), 0, 8);
    let ctx = context(src);
    let (mut tables, scope, mut logs) = fresh_state();
    let r = AsCompiler::from_node(&node, &ctx, &mut tables, scope, &mut logs);
    assert!(r.is_ok());
    assert_eq!(logs.len(), 1);
    assert_eq!(logs[0].severity, REDEFINED_VARIABLE_SEVERITY);
    assert_eq!(logs[0].severity, 441);
    assert_eq!(
        logs[0].message,
        "Warning: it is usually incorrect to redefine a variable $x using as"
    );
    assert_eq!(logs[0].file, "pattern.grit");
    assert_eq!(logs[0].range, Range { start: 0, end: 8 });
    assert_eq!(logs[0].position, 0);
}

#[test]
fn no_warning_when_pattern_does_not_reference_the_variable() {
    // "`foo` as $x": the literal mentions no variable at all.
    let src = "`foo` as $x";
    let node = as_node(leaf("codeSnippet", 0, 5), leaf("variable", 9, 11), 0, 11);
    let ctx = context(src);
    let (mut tables, scope, mut logs) = fresh_state();
    let r = AsCompiler::from_node(&node, &ctx, &mut tables, scope, &mut logs);
    assert!(r.is_ok());
    assert_eq!(logs.len(), 0);
    let w = r.unwrap();
    let Predicate::Match(m) = w.side_condition;
    match m.pattern {
        Some(Pattern::CodeSnippet(text)) => assert_eq!(text, "`foo`"),
        _ => panic!("expected the compiled snippet as the match pattern"),
    }
}

#[test]
fn warning_when_variable_hides_inside_snippet() {
    // "`foo($x)` as $x": `$x` occurs only inside the snippet's text.
    let src = "`foo($x)` as $x";
    let node = as_node(leaf("codeSnippet", 0, 9), leaf("variable", 13, 15), 0, 15);
    let ctx = context(src);
    let (mut tables, scope, mut logs) = fresh_state();
    let r = AsCompiler::from_node(&node, &ctx, &mut tables, scope, &mut logs);
    assert!(r.is_ok());
    assert_eq!(logs.len(), 1);
    assert_eq!(logs[0].severity, 441);
    assert_eq!(
        logs[0].message,
        "Warning: it is usually incorrect to redefine a variable $x using as"
    );
}

#[test]
fn missing_variable_child_is_a_structural_error() {
    let src = "$y as ";
    let node = SyntaxNode {
        kind: "patternAs".to_string(),
        range: Range { start: 0, end: 6 },
        children: vec![ChildNode {
            field: Some("pattern".to_string()),
            node: leaf("variable", 0, 2),
        }],
    };
    let ctx = context(src);
    let (mut tables, scope, mut logs) = fresh_state();
    let r = AsCompiler::from_node(&node, &ctx, &mut tables, scope, &mut logs);
    match r {
        Err(CompileError::MissingChild { kind, field }) => {
            assert_eq!(kind, "patternAs");
            assert_eq!(field, "variable");
        }
        _ => panic!("expected a missing-child error"),
    }
    // No IR, no diagnostics, no scope-state change.
    assert_eq!(logs.len(), 0);
    assert!(tables.scopes[0].is_empty());
    assert!(tables.occurrences[0].is_empty());
    assert_eq!(tables.next_slot, 0);
}

#[test]
fn missing_pattern_child_is_a_structural_error() {
    let node = SyntaxNode {
        kind: "patternAs".to_string(),
        range: Range { start: 0, end: 5 },
        children: vec![ChildNode {
            field: Some("variable".to_string()),
            node: leaf("variable", 3, 5),
        }],
    };
    let ctx = context("as $x");
    let (mut tables, scope, mut logs) = fresh_state();
    let r = AsCompiler::from_node(&node, &ctx, &mut tables, scope, &mut logs);
    match r {
        Err(e) => assert_eq!(e.message(), "missing pattern of patternAs"),
        _ => panic!("expected a missing-child error"),
    }
    assert_eq!(logs.len(), 0);
}

#[test]
fn where_wraps_the_variable_matched_against_the_pattern() {
    // "$y as $x": the IR is Where(Variable(x), Match(Variable(x), Some(Variable(y)))).
    let src = "$y as $x";
    let node = as_node(leaf("variable", 0, 2), leaf("variable", 6, 8), 0, 8);
    let ctx = context(src);
    let (mut tables, scope, mut logs) = fresh_state();
    let w: Where = AsCompiler::from_node(&node, &ctx, &mut tables, scope, &mut logs).unwrap();
    assert_eq!(logs.len(), 0);
    // The pattern child compiles first, so $y takes slot 0 and $x slot 1.
    let v = match w.pattern {
        Pattern::Variable(v) => v,
        _ => panic!("expected the resolved variable as the overall pattern"),
    };
    assert_eq!(v.slot, 1);
    let Predicate::Match(m) = w.side_condition;
    assert_eq!(m.val, Container::Variable(v));
    match m.pattern {
        Some(Pattern::Variable(inner)) => assert_eq!(inner.slot, 0),
        _ => panic!("expected the compiled sub-pattern inside the match"),
    }
}

#[test]
fn rebound_name_resolves_to_one_slot() {
    // "$x as $x": both references resolve to the same slot.
    let src = "$x as $x";
    let node = as_node(leaf("variable", 0, 2), leaf("variable", 6, 8), 0, 8);
    let ctx = context(src);
    let (mut tables, scope, mut logs) = fresh_state();
    let w = AsCompiler::from_node(&node, &ctx, &mut tables, scope, &mut logs).unwrap();
    let v = match w.pattern {
        Pattern::Variable(v) => v,
        _ => panic!("expected a variable pattern"),
    };
    assert_eq!(v.slot, 0);
    assert_eq!(tables.next_slot, 1);
    assert_eq!(tables.scopes[0].len(), 1);
    assert_eq!(tables.scopes[0][0].name, "$x");
    assert_eq!(tables.scopes[0][0].slot, 0);
}

#[test]
fn occurrences_append_in_compilation_order() {
    // "$y as $x": the pattern's occurrence lands before the variable's.
    let src = "$y as $x";
    let node = as_node(leaf("variable", 0, 2), leaf("variable", 6, 8), 0, 8);
    let ctx = context(src);
    let (mut tables, scope, mut logs) = fresh_state();
    AsCompiler::from_node(&node, &ctx, &mut tables, scope, &mut logs).unwrap();
    assert_eq!(tables.occurrences[0].len(), 2);
    assert_eq!(tables.occurrences[0][0].name, "$y");
    assert_eq!(tables.occurrences[0][0].range, Range { start: 0, end: 2 });
    assert_eq!(tables.occurrences[0][1].name, "$x");
    assert_eq!(tables.occurrences[0][1].range, Range { start: 6, end: 8 });
}

#[test]
fn reserved_prefix_binds_in_the_global_table() {
    let src = "$GLOBAL_NAME as $x";
    let node = as_node(leaf("variable", 0, 12), leaf("variable", 16, 18), 0, 18);
    let ctx = context(src);
    let (mut tables, scope, mut logs) = fresh_state();
    AsCompiler::from_node(&node, &ctx, &mut tables, scope, &mut logs).unwrap();
    assert_eq!(tables.globals.len(), 1);
    assert_eq!(tables.globals[0].name, "$GLOBAL_NAME");
    assert_eq!(tables.globals[0].slot, 0);
    assert_eq!(tables.scopes[0].len(), 1);
    assert_eq!(tables.scopes[0][0].name, "$x");
    assert_eq!(tables.scopes[0][0].slot, 1);
}

#[test]
fn variable_name_is_trimmed() {
    // A variable node whose span carries surrounding whitespace.
    let src = "  $x  ";
    let node = leaf("variable", 0, 6);
    let ctx = context(src);
    let (mut tables, scope, mut logs) = fresh_state();
    let r = Pattern::from_node(&node, &ctx, &mut tables, scope, &mut logs);
    assert!(r.is_ok());
    assert_eq!(tables.occurrences[0].len(), 1);
    assert_eq!(tables.occurrences[0][0].name, "$x");
    assert_eq!(tables.scopes[0][0].name, "$x");
}

#[test]
fn unsupported_kind_is_rejected() {
    let node = leaf("patternLimit", 0, 3);
    let ctx = context("abc");
    let (mut tables, scope, mut logs) = fresh_state();
    let r = Pattern::from_node(&node, &ctx, &mut tables, scope, &mut logs);
    match r {
        Err(CompileError::UnsupportedKind { kind }) => {
            assert_eq!(kind, "patternLimit");
        }
        _ => panic!("expected an unsupported-kind error"),
    }
    assert_eq!(
        Pattern::from_node(&node, &ctx, &mut tables, scope, &mut logs)
            .unwrap_err()
            .message(),
        "unsupported pattern kind patternLimit"
    );
}

#[test]
fn span_outside_the_source_is_rejected() {
    let node = leaf("variable", 0, 100);
    let ctx = context("$x");
    let (mut tables, scope, mut logs) = fresh_state();
    let r = Pattern::from_node(&node, &ctx, &mut tables, scope, &mut logs);
    match r {
        Err(CompileError::UnreadableSpan { range }) => {
            assert_eq!(range, Range { start: 0, end: 100 });
        }
        _ => panic!("expected an unreadable-span error"),
    }
    assert_eq!(r.unwrap_err().message(), "unreadable source span");
}

#[test]
fn nested_as_nests_exactly_one_level_per_construct() {
    // "$y as $z as $x": the outer pattern child is itself an `as` node.
    let src = "$y as $z as $x";
    let inner = as_node(leaf("variable", 0, 2), leaf("variable", 6, 8), 0, 8);
    let outer = as_node(inner, leaf("variable", 12, 14), 0, 14);
    let ctx = context(src);
    let (mut tables, scope, mut logs) = fresh_state();
    let w = AsCompiler::from_node(&outer, &ctx, &mut tables, scope, &mut logs).unwrap();
    assert_eq!(logs.len(), 0);
    // Slots in compilation order: $y, $z, then $x.
    let v = match w.pattern {
        Pattern::Variable(v) => v,
        _ => panic!("expected a variable pattern"),
    };
    assert_eq!(v.slot, 2);
    let Predicate::Match(m) = w.side_condition;
    assert_eq!(m.val, Container::Variable(v));
    let inner_w = match m.pattern {
        Some(Pattern::Where(w)) => *w,
        _ => panic!("expected the inner Where as the match pattern"),
    };
    match inner_w.pattern {
        Pattern::Variable(v) => assert_eq!(v.slot, 1),
        _ => panic!("expected a variable pattern inside"),
    }
    let Predicate::Match(inner_m) = inner_w.side_condition;
    match inner_m.pattern {
        Some(Pattern::Variable(v)) => assert_eq!(v.slot, 0),
        _ => panic!("expected the innermost variable"),
    }
}

#[test]
fn compiling_twice_gives_identical_results() {
    let src = "`foo($x)` as $x";
    let node = as_node(leaf("codeSnippet", 0, 9), leaf("variable", 13, 15), 0, 15);
    let ctx = context(src);

    let (mut tables1, scope1, mut logs1) = fresh_state();
    let r1 = AsCompiler::from_node(&node, &ctx, &mut tables1, scope1, &mut logs1);
    let (mut tables2, scope2, mut logs2) = fresh_state();
    let r2 = AsCompiler::from_node(&node, &ctx, &mut tables2, scope2, &mut logs2);

    assert!(r1.is_ok() && r2.is_ok());
    assert_eq!(logs1.len(), logs2.len());
    for (a, b) in logs1.iter().zip(logs2.iter()) {
        assert_eq!(a.severity, b.severity);
        assert_eq!(a.message, b.message);
        assert_eq!(a.range, b.range);
        assert_eq!(a.position, b.position);
        assert_eq!(a.file, b.file);
    }
    let (w1, w2) = (r1.unwrap(), r2.unwrap());
    match (w1.pattern, w2.pattern) {
        (Pattern::Variable(a), Pattern::Variable(b)) => assert_eq!(a.slot, b.slot),
        _ => panic!("expected variable patterns on both runs"),
    }
    assert_eq!(tables1.next_slot, tables2.next_slot);
    assert_eq!(tables1.scopes[0].len(), tables2.scopes[0].len());
}
