//! Tests of the scope and symbol tables on their own.

use pattern_compiler::scope::ScopeTables;
use pattern_compiler::syntax::Range;

#[test]
fn fresh_names_take_increasing_slots() {
    let mut t = ScopeTables::new();
    let s = t.new_scope();
    let a = t.resolve_or_bind("$a", s, Range { start: 0, end: 2 });
    let b = t.resolve_or_bind("$b", s, Range { start: 3, end: 5 });
    let c = t.resolve_or_bind("$c", s, Range { start: 6, end: 8 });
    assert_eq!((a, b, c), (0, 1, 2));
    assert_eq!(t.next_slot, 3);
}

#[test]
fn repeated_resolution_returns_the_same_slot_and_still_records_the_occurrence() {
    let mut t = ScopeTables::new();
    let s = t.new_scope();
    let first = t.resolve_or_bind("$a", s, Range { start: 0, end: 2 });
    let again = t.resolve_or_bind("$a", s, Range { start: 10, end: 12 });
    assert_eq!(first, again);
    // One binding, but one occurrence record per reference.
    assert_eq!(t.scopes[s].len(), 1);
    assert_eq!(t.occurrences[s].len(), 2);
    assert_eq!(t.occurrences[s][0].range, Range { start: 0, end: 2 });
    assert_eq!(t.occurrences[s][1].range, Range { start: 10, end: 12 });
}

#[test]
fn scopes_do_not_share_bindings_but_globals_do() {
    let mut t = ScopeTables::new();
    let s1 = t.new_scope();
    let s2 = t.new_scope();
    let a1 = t.resolve_or_bind("$a", s1, Range { start: 0, end: 2 });
    let a2 = t.resolve_or_bind("$a", s2, Range { start: 0, end: 2 });
    assert_ne!(a1, a2);
    let g1 = t.resolve_or_bind("$GLOBAL_G", s1, Range { start: 4, end: 13 });
    let g2 = t.resolve_or_bind("$GLOBAL_G", s2, Range { start: 4, end: 13 });
    assert_eq!(g1, g2);
    assert_eq!(t.globals.len(), 1);
}
