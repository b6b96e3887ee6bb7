//! Node compilation: the per-kind dispatch, the variable compiler, the
//! repeated-binding diagnostic pass, and the compiler for the
//! `pattern as $variable` construct.
//!
//! Every compiler takes the same shape of arguments: the syntax node, the
//! read-only compilation context, exclusive access to the scope tables and
//! the diagnostic log, and the index of the scope to compile in. A malformed
//! node is a hard failure that propagates as an error; suspicious-but-legal
//! input only appends a diagnostic. The whole pass is specified by a
//! functional model (`compile_spec` and companions), so each executable
//! compiler's contract pins its result, its diagnostics and the final scope
//! state exactly.

use vstd::prelude::*;
use vstd::string::StrSliceExecFns;
use vstd::string::StringExecFns;

use crate::diagnostics::{
    logs_view,
    rebind_warning,
    rebind_warning_v,
    Diagnostic,
    DiagnosticV,
};
use crate::grammar::{is_variables_in_snippet, snippet_has_var, Grammar, GrammarV};
use crate::ir::{
    container_view,
    match_view,
    pattern_view,
    predicate_view,
    where_view,
    Container,
    ContainerV,
    Match,
    MatchV,
    Pattern,
    PatternV,
    Predicate,
    PredicateV,
    Variable,
    Where,
    WhereV,
};
use crate::scope::{
    occs_extended,
    resolve_spec,
    wf,
    lemma_occs_extended_refl,
    lemma_occs_extended_trans,
    lemma_resolve_preserves_wf,
    ScopeTables,
    TablesV,
};
use crate::syntax::{
    find_child,
    lemma_find_child_member,
    node_count,
    span_ok,
    span_text,
    ChildNode,
    Range,
    SyntaxNode,
};
use crate::text::{str_eq, trim, trim_spec};

verus! {

/// The immutable per-compilation environment: the source text, the file
/// identifier, and the target-language grammar handle.
pub struct CompilationContext {
    pub src: String,
    pub file: String,
    pub lang: Grammar,
}

/// Mathematical image of a `CompilationContext`.
#[verifier::ext_equal]
pub struct ContextV {
    pub src: Seq<char>,
    pub file: Seq<char>,
    pub lang: GrammarV,
}

impl View for CompilationContext {
    type V = ContextV;

    open spec fn view(&self) -> ContextV {
        ContextV { src: self.src@, file: self.file@, lang: self.lang@ }
    }
}

/// A hard failure: the syntax tree handed to a compiler is malformed.
#[derive(Debug)]
pub enum CompileError {
    /// The node lacks a required named child.
    MissingChild { kind: String, field: String },
    /// The node's span does not lie inside the source text.
    UnreadableSpan { range: Range },
    /// No compiler exists for this node kind.
    UnsupportedKind { kind: String },
}

/// Mathematical image of a `CompileError`.
#[verifier::ext_equal]
pub enum CompileErrorV {
    MissingChild { kind: Seq<char>, field: Seq<char> },
    UnreadableSpan { range: Range },
    UnsupportedKind { kind: Seq<char> },
}

impl View for CompileError {
    type V = CompileErrorV;

    open spec fn view(&self) -> CompileErrorV {
        match self {
            CompileError::MissingChild { kind, field } => CompileErrorV::MissingChild {
                kind: kind@,
                field: field@,
            },
            CompileError::UnreadableSpan { range } => CompileErrorV::UnreadableSpan {
                range: *range,
            },
            CompileError::UnsupportedKind { kind } => CompileErrorV::UnsupportedKind {
                kind: kind@,
            },
        }
    }
}

/// The human-readable text of an error.
pub open spec fn error_text(e: CompileErrorV) -> Seq<char> {
    match e {
        CompileErrorV::MissingChild { kind, field } => "missing "@ + field + " of "@ + kind,
        CompileErrorV::UnreadableSpan { .. } => "unreadable source span"@,
        CompileErrorV::UnsupportedKind { kind } => "unsupported pattern kind "@ + kind,
    }
}

impl CompileError {
    /// Renders the error for the caller.
    pub fn message(&self) -> (r: String)
        ensures
            r@ == error_text(self@),
    {
        match self {
            CompileError::MissingChild { kind, field } => {
                let mut m = String::new();
                m.append("missing ");
                m.append(field.as_str());
                m.append(" of ");
                m.append(kind.as_str());
                proof {
                    assert(m@ =~= error_text(self@));
                }
                m
            },
            CompileError::UnreadableSpan { .. } => {
                let mut m = String::new();
                m.append("unreadable source span");
                proof {
                    assert(m@ =~= error_text(self@));
                }
                m
            },
            CompileError::UnsupportedKind { kind } => {
                let mut m = String::new();
                m.append("unsupported pattern kind ");
                m.append(kind.as_str());
                proof {
                    assert(m@ =~= error_text(self@));
                }
                m
            },
        }
    }
}

/// The node kind of the `pattern as $variable` construct.
pub open spec fn as_kind() -> Seq<char> {
    "patternAs"@
}

/// The trimmed text a node covers, read from the source; a span outside the
/// source is a hard failure.
pub open spec fn node_name(n: SyntaxNode, src: Seq<char>) -> Result<Seq<char>, CompileErrorV> {
    if span_ok(n.range, src) {
        Ok(trim_spec(span_text(n.range, src)))
    } else {
        Err(CompileErrorV::UnreadableSpan { range: n.range })
    }
}

/// Reads and trims the text a node covers.
pub fn node_trimmed_text<'a>(node: &SyntaxNode, source: &'a str) -> (r: Result<
    &'a str,
    CompileError,
>)
    ensures
        match (r, node_name(*node, source@)) {
            (Ok(s), Ok(t)) => s@ == t,
            (Err(e), Err(m)) => e@ == m,
            _ => false,
        },
{
    let len = source.unicode_len();
    if node.range.start <= node.range.end && node.range.end <= len {
        let raw = source.substring_char(node.range.start, node.range.end);
        Ok(trim(raw))
    } else {
        Err(CompileError::UnreadableSpan { range: node.range })
    }
}

/// Whether `name` already occurs in the subtree rooted at `n` — as the
/// trimmed text of a variable node, or as a placeholder embedded in a literal
/// snippet node — or the first unreadable span hit in pre-order. The pass is
/// read-only; it compares raw text, not resolved slots, and deliberately
/// looks through nested scopes (a legitimately shadowed rebinding still
/// counts, a documented approximation).
pub open spec fn repeats_in_node(
    n: SyntaxNode,
    name: Seq<char>,
    src: Seq<char>,
    g: GrammarV,
) -> Result<bool, CompileErrorV>
    decreases n,
{
    let own = if n.kind@ == g.variable_kind {
        match node_name(n, src) {
            Ok(t) => Ok(t == name),
            Err(e) => Err(e),
        }
    } else if n.kind@ == g.snippet_kind {
        match node_name(n, src) {
            Ok(t) => Ok(snippet_has_var(t, g.metavariable_prefix, name)),
            Err(e) => Err(e),
        }
    } else {
        Ok(false)
    };
    match own {
        Err(e) => Err(e),
        Ok(true) => Ok(true),
        Ok(false) => repeats_in_children(n.children@, name, src, g),
    }
}

/// The same pass over a forest of child edges, left to right.
pub open spec fn repeats_in_children(
    cs: Seq<ChildNode>,
    name: Seq<char>,
    src: Seq<char>,
    g: GrammarV,
) -> Result<bool, CompileErrorV>
    decreases cs,
{
    if cs.len() == 0 {
        Ok(false)
    } else {
        match repeats_in_node(cs[0].node, name, src, g) {
            Err(e) => Err(e),
            Ok(true) => Ok(true),
            Ok(false) => repeats_in_children(cs.drop_first(), name, src, g),
        }
    }
}

/// The repeated-binding diagnostic pass: searches the subtree of `pattern`
/// for an occurrence of `name`, visiting every descendant exactly once,
/// looking both at bare variable nodes and inside literal snippets.
pub fn pattern_repeated_variable(
    pattern: &SyntaxNode,
    name: &str,
    source: &str,
    lang: &Grammar,
) -> (r: Result<bool, CompileError>)
    ensures
        match (r, repeats_in_node(*pattern, name@, source@, lang@)) {
            (Ok(b), Ok(m)) => b == m,
            (Err(e), Err(m)) => e@ == m,
            _ => false,
        },
    decreases *pattern,
{
    let own: Result<bool, CompileError> = if str_eq(
        pattern.kind.as_str(),
        lang.variable_kind.as_str(),
    ) {
        match node_trimmed_text(pattern, source) {
            Ok(t) => Ok(str_eq(t, name)),
            Err(e) => Err(e),
        }
    } else if str_eq(pattern.kind.as_str(), lang.snippet_kind.as_str()) {
        match node_trimmed_text(pattern, source) {
            Ok(t) => Ok(is_variables_in_snippet(name, t, lang)),
            Err(e) => Err(e),
        }
    } else {
        Ok(false)
    };
    match own {
        Err(e) => return Err(e),
        Ok(true) => return Ok(true),
        Ok(false) => {},
    }
    let n = pattern.children.len();
    let mut i: usize = 0;
    proof {
        assert(pattern.children@.skip(0) =~= pattern.children@);
    }
    while i < n
        invariant
            i <= n,
            n == pattern.children@.len(),
            repeats_in_node(*pattern, name@, source@, lang@) == repeats_in_children(
                pattern.children@,
                name@,
                source@,
                lang@,
            ),
            repeats_in_children(pattern.children@.skip(i as int), name@, source@, lang@)
                == repeats_in_children(pattern.children@, name@, source@, lang@),
        decreases n - i,
    {
        let child = &pattern.children[i];
        proof {
            assert(decreases_to!(*pattern => pattern.children));
            assert(decreases_to!(pattern.children => pattern.children@[i as int]));
            assert(decreases_to!(pattern.children@[i as int] => pattern.children@[i as int].node));
            assert(pattern.children@.skip(i as int)[0] == pattern.children@[i as int]);
            assert(pattern.children@.skip(i as int).drop_first() =~= pattern.children@.skip(
                i as int + 1,
            ));
        }
        match pattern_repeated_variable(&child.node, name, source, lang) {
            Err(e) => return Err(e),
            Ok(true) => return Ok(true),
            Ok(false) => {},
        }
        i = i + 1;
    }
    proof {
        assert(pattern.children@.skip(n as int) =~= Seq::<ChildNode>::empty());
    }
    Ok(false)
}

/// What compiling a variable node does to the scope state: trim the node's
/// text, then resolve or bind it in the given scope.
pub open spec fn variable_spec(n: SyntaxNode, ctx: ContextV, t: TablesV, scope: int) -> (Result<
    nat,
    CompileErrorV,
>, TablesV) {
    match node_name(n, ctx.src) {
        Err(e) => (Err(e), t),
        Ok(name) => {
            let r = resolve_spec(t, name, scope, n.range);
            (Ok(r.0), r.1)
        },
    }
}

/// Outcome of compiling one node in the functional model: the result, the
/// scope state after, and the diagnostics this compilation appended.
#[verifier::ext_equal]
pub struct OutcomeV {
    pub result: Result<PatternV, CompileErrorV>,
    pub tables: TablesV,
    pub diags: Seq<DiagnosticV>,
}

/// The functional model of the node-compilation dispatch: one case per
/// syntax-node kind, an error for a kind nothing compiles.
pub open spec fn compile_spec(n: SyntaxNode, ctx: ContextV, t: TablesV, scope: int) -> OutcomeV
    decreases n, 1int,
{
    if n.kind@ == ctx.lang.variable_kind {
        let r = variable_spec(n, ctx, t, scope);
        OutcomeV {
            result: match r.0 {
                Ok(slot) => Ok(PatternV::Variable(slot)),
                Err(e) => Err(e),
            },
            tables: r.1,
            diags: Seq::empty(),
        }
    } else if n.kind@ == ctx.lang.snippet_kind {
        match node_name(n, ctx.src) {
            Ok(text) => OutcomeV {
                result: Ok(PatternV::CodeSnippet(text)),
                tables: t,
                diags: Seq::empty(),
            },
            Err(e) => OutcomeV { result: Err(e), tables: t, diags: Seq::empty() },
        }
    } else if n.kind@ == as_kind() {
        as_spec(n, ctx, t, scope)
    } else {
        OutcomeV {
            result: Err(CompileErrorV::UnsupportedKind { kind: n.kind@ }),
            tables: t,
            diags: Seq::empty(),
        }
    }
}

/// The functional model of the `as`-construct compiler: require the two
/// named children; read and trim the variable's name; warn once, at the
/// node's span, if the name already occurs in the sub-pattern; compile the
/// sub-pattern, then the variable; wrap the two as
/// `Where(Variable(v), Match(Variable(v), Some(pattern)))`.
pub open spec fn as_spec(n: SyntaxNode, ctx: ContextV, t: TablesV, scope: int) -> OutcomeV
    decreases n, 0int,
    via as_spec_decreases
{
    match find_child(n.children@, "pattern"@) {
        None => OutcomeV {
            result: Err(CompileErrorV::MissingChild { kind: n.kind@, field: "pattern"@ }),
            tables: t,
            diags: Seq::empty(),
        },
        Some(pattern_child) => match find_child(n.children@, "variable"@) {
            None => OutcomeV {
                result: Err(CompileErrorV::MissingChild { kind: n.kind@, field: "variable"@ }),
                tables: t,
                diags: Seq::empty(),
            },
            Some(variable_child) => match node_name(variable_child, ctx.src) {
                Err(e) => OutcomeV { result: Err(e), tables: t, diags: Seq::empty() },
                Ok(name) => match repeats_in_node(pattern_child, name, ctx.src, ctx.lang) {
                    Err(e) => OutcomeV { result: Err(e), tables: t, diags: Seq::empty() },
                    Ok(rep) => {
                        let warn: Seq<DiagnosticV> = if rep {
                            seq![rebind_warning_v(name, ctx.file, n.range)]
                        } else {
                            Seq::empty()
                        };
                        let out_p = compile_spec(pattern_child, ctx, t, scope);
                        match out_p.result {
                            Err(e) => OutcomeV {
                                result: Err(e),
                                tables: out_p.tables,
                                diags: warn + out_p.diags,
                            },
                            Ok(p) => {
                                let rv = variable_spec(variable_child, ctx, out_p.tables, scope);
                                match rv.0 {
                                    Err(e) => OutcomeV {
                                        result: Err(e),
                                        tables: rv.1,
                                        diags: warn + out_p.diags,
                                    },
                                    Ok(slot) => OutcomeV {
                                        result: Ok(
                                            PatternV::Where(
                                                Box::new(
                                                    WhereV {
                                                        pattern: PatternV::Variable(slot),
                                                        side_condition: PredicateV::Match(
                                                            Box::new(
                                                                MatchV {
                                                                    val: ContainerV::Variable(slot),
                                                                    pattern: Some(p),
                                                                },
                                                            ),
                                                        ),
                                                    },
                                                ),
                                            ),
                                        ),
                                        tables: rv.1,
                                        diags: warn + out_p.diags,
                                    },
                                }
                            },
                        }
                    },
                },
            },
        },
    }
}

#[via_fn]
proof fn as_spec_decreases(n: SyntaxNode, ctx: ContextV, t: TablesV, scope: int) {
    if find_child(n.children@, "pattern"@) is Some {
        lemma_find_child_member(n.children@, "pattern"@);
        let pc = find_child(n.children@, "pattern"@)->Some_0;
        let i = choose|i: int| 0 <= i < n.children@.len() && n.children@[i].node == pc;
        assert(decreases_to!(n => n.children));
        assert(decreases_to!(n.children => n.children@[i]));
        assert(decreases_to!(n.children@[i] => n.children@[i].node));
    }
}

/// The node-compilation instance for variable-reference nodes.
pub struct VariableCompiler;

impl VariableCompiler {
    /// Compiles a variable-reference node: extracts the name text, trims it,
    /// and resolves an existing slot or allocates a fresh one, appending one
    /// occurrence record either way. It never fails on a name collision —
    /// collisions are a feature — only on a malformed node.
    pub fn from_node(
        node: &SyntaxNode,
        context: &CompilationContext,
        vars: &mut ScopeTables,
        scope_index: usize,
        logs: &mut Vec<Diagnostic>,
    ) -> (r: Result<Variable, CompileError>)
        requires
            wf(old(vars)@),
            scope_index < old(vars)@.scopes.len(),
            old(vars)@.next_slot < usize::MAX,
        ensures
            final(vars)@ == variable_spec(*node, context@, old(vars)@, scope_index as int).1,
            wf(final(vars)@),
            final(logs)@ == old(logs)@,
            occs_extended(old(vars)@, final(vars)@),
            final(vars)@.scopes.len() == old(vars)@.scopes.len(),
            final(vars)@.next_slot <= old(vars)@.next_slot + 1,
            match (r, variable_spec(*node, context@, old(vars)@, scope_index as int).0) {
                (Ok(v), Ok(slot)) => v.slot as nat == slot,
                (Err(e), Err(m)) => e@ == m,
                _ => false,
            },
    {
        let ghost t0 = vars@;
        match node_trimmed_text(node, context.src.as_str()) {
            Err(e) => {
                proof {
                    lemma_occs_extended_refl(t0);
                }
                Err(e)
            },
            Ok(name) => {
                proof {
                    lemma_resolve_preserves_wf(t0, name@, scope_index as int, node.range);
                }
                let slot = vars.resolve_or_bind(name, scope_index, node.range);
                Ok(Variable { slot: slot })
            },
        }
    }
}

impl Pattern {
    /// The node-compilation dispatch: selects the compiler for the node's
    /// kind and runs it, threading the scope tables and the diagnostic log.
    pub fn from_node(
        node: &SyntaxNode,
        context: &CompilationContext,
        vars: &mut ScopeTables,
        scope_index: usize,
        logs: &mut Vec<Diagnostic>,
    ) -> (r: Result<Pattern, CompileError>)
        requires
            wf(old(vars)@),
            scope_index < old(vars)@.scopes.len(),
            old(vars)@.next_slot + node_count(*node) <= usize::MAX,
        ensures
            ({
                let out = compile_spec(*node, context@, old(vars)@, scope_index as int);
                &&& final(vars)@ == out.tables
                &&& wf(final(vars)@)
                &&& logs_view(final(logs)@) == logs_view(old(logs)@) + out.diags
                &&& occs_extended(old(vars)@, final(vars)@)
                &&& final(vars)@.scopes.len() == old(vars)@.scopes.len()
                &&& final(vars)@.next_slot <= old(vars)@.next_slot + node_count(*node)
                &&& match (r, out.result) {
                    (Ok(p), Ok(pv)) => pattern_view(p) == pv,
                    (Err(e), Err(m)) => e@ == m,
                    _ => false,
                }
            }),
        decreases *node, 1int,
    {
        let ghost t0 = vars@;
        let ghost l0 = logs@;
        proof {
            lemma_occs_extended_refl(t0);
            assert(logs_view(l0) + Seq::<DiagnosticV>::empty() =~= logs_view(l0));
            assert(node_count(*node) >= 1);
        }
        if str_eq(node.kind.as_str(), context.lang.variable_kind.as_str()) {
            match VariableCompiler::from_node(node, context, vars, scope_index, logs) {
                Ok(v) => Ok(Pattern::Variable(v)),
                Err(e) => Err(e),
            }
        } else if str_eq(node.kind.as_str(), context.lang.snippet_kind.as_str()) {
            match node_trimmed_text(node, context.src.as_str()) {
                Ok(t) => Ok(Pattern::CodeSnippet(t.to_owned())),
                Err(e) => Err(e),
            }
        } else if str_eq(node.kind.as_str(), "patternAs") {
            match AsCompiler::from_node(node, context, vars, scope_index, logs) {
                Ok(w) => {
                    let p = Pattern::Where(Box::new(w));
                    proof {
                        assert(pattern_view(p) == PatternV::Where(Box::new(where_view(w))));
                    }
                    Ok(p)
                },
                Err(e) => Err(e),
            }
        } else {
            Err(CompileError::UnsupportedKind { kind: node.kind.clone() })
        }
    }
}

/// The node-compilation instance for the `pattern as $variable` construct.
pub struct AsCompiler;

impl AsCompiler {
    /// Compiles `pattern as $variable`: requires the two named children,
    /// warns (severity 441, at this node's span) when the variable already
    /// occurs inside its own sub-pattern — compilation continues regardless —
    /// then compiles the sub-pattern and the variable, in that order, and
    /// binds the variable to the sub-pattern's match result.
    pub fn from_node(
        node: &SyntaxNode,
        context: &CompilationContext,
        vars: &mut ScopeTables,
        scope_index: usize,
        logs: &mut Vec<Diagnostic>,
    ) -> (r: Result<Where, CompileError>)
        requires
            wf(old(vars)@),
            scope_index < old(vars)@.scopes.len(),
            old(vars)@.next_slot + node_count(*node) <= usize::MAX,
        ensures
            ({
                let out = as_spec(*node, context@, old(vars)@, scope_index as int);
                &&& final(vars)@ == out.tables
                &&& wf(final(vars)@)
                &&& logs_view(final(logs)@) == logs_view(old(logs)@) + out.diags
                &&& occs_extended(old(vars)@, final(vars)@)
                &&& final(vars)@.scopes.len() == old(vars)@.scopes.len()
                &&& final(vars)@.next_slot <= old(vars)@.next_slot + node_count(*node)
                &&& match (r, out.result) {
                    (Ok(w), Ok(pv)) => pv == PatternV::Where(Box::new(where_view(w))),
                    (Err(e), Err(m)) => e@ == m,
                    _ => false,
                }
            }),
        decreases *node, 0int,
    {
        let ghost t0 = vars@;
        let ghost l0 = logs@;
        proof {
            lemma_occs_extended_refl(t0);
            assert(logs_view(l0) + Seq::<DiagnosticV>::empty() =~= logs_view(l0));
        }
        let pattern_child = match node.child_by_field_name("pattern") {
            Some(c) => c,
            None => {
                return Err(
                    CompileError::MissingChild {
                        kind: node.kind.clone(),
                        field: "pattern".to_owned(),
                    },
                );
            },
        };
        let variable_child = match node.child_by_field_name("variable") {
            Some(c) => c,
            None => {
                return Err(
                    CompileError::MissingChild {
                        kind: node.kind.clone(),
                        field: "variable".to_owned(),
                    },
                );
            },
        };
        let name = match node_trimmed_text(variable_child, context.src.as_str()) {
            Ok(s) => s,
            Err(e) => {
                return Err(e);
            },
        };
        let ghost namev = name@;
        let repeated = match pattern_repeated_variable(
            pattern_child,
            name,
            context.src.as_str(),
            &context.lang,
        ) {
            Ok(b) => b,
            Err(e) => {
                return Err(e);
            },
        };
        if repeated {
            let d = rebind_warning(name, context.file.as_str(), node.range);
            logs.push(d);
        }
        let ghost warn: Seq<DiagnosticV> = if repeated {
            seq![rebind_warning_v(namev, context@.file, node.range)]
        } else {
            Seq::empty()
        };
        proof {
            assert(logs_view(logs@) =~= logs_view(l0) + warn);
            lemma_find_child_member(node.children@, "pattern"@);
            assert(node_count(*node) == 1 + crate::syntax::nodes_count(node.children@));
            assert(node_count(*pattern_child) <= crate::syntax::nodes_count(node.children@));
            let i = choose|i: int|
                0 <= i < node.children@.len() && node.children@[i].node == *pattern_child;
            assert(decreases_to!(*node => node.children));
            assert(decreases_to!(node.children => node.children@[i]));
            assert(decreases_to!(node.children@[i] => node.children@[i].node));
        }
        let ghost out_p = compile_spec(*pattern_child, context@, t0, scope_index as int);
        let pattern = match Pattern::from_node(pattern_child, context, vars, scope_index, logs) {
            Ok(p) => p,
            Err(e) => {
                proof {
                    assert((logs_view(l0) + warn) + out_p.diags =~= logs_view(l0) + (warn
                        + out_p.diags));
                }
                return Err(e);
            },
        };
        proof {
            assert((logs_view(l0) + warn) + out_p.diags =~= logs_view(l0) + (warn + out_p.diags));
            assert(vars@.next_slot < usize::MAX);
        }
        let ghost rv = variable_spec(
            *variable_child,
            context@,
            out_p.tables,
            scope_index as int,
        );
        let variable = match VariableCompiler::from_node(
            variable_child,
            context,
            vars,
            scope_index,
            logs,
        ) {
            Ok(v) => v,
            Err(e) => {
                proof {
                    lemma_occs_extended_trans(t0, out_p.tables, vars@);
                }
                return Err(e);
            },
        };
        let ghost pv = pattern_view(pattern);
        let m = Match::new(Container::Variable(variable), Some(pattern));
        let result = Where::new(Pattern::Variable(variable), Predicate::Match(Box::new(m)));
        proof {
            lemma_occs_extended_trans(t0, out_p.tables, vars@);
            let slotv = variable.slot as nat;
            assert(container_view(m.val) == ContainerV::Variable(slotv));
            assert(match_view(m) == (MatchV {
                val: ContainerV::Variable(slotv),
                pattern: Some(pv),
            }));
            assert(predicate_view(result.side_condition) == PredicateV::Match(
                Box::new(MatchV { val: ContainerV::Variable(slotv), pattern: Some(pv) }),
            ));
            assert(pattern_view(result.pattern) == PatternV::Variable(slotv));
            assert(where_view(result) == (WhereV {
                pattern: PatternV::Variable(slotv),
                side_condition: PredicateV::Match(
                    Box::new(MatchV { val: ContainerV::Variable(slotv), pattern: Some(pv) }),
                ),
            }));
        }
        Ok(result)
    }
}

/// Law: determinism — compiling the same syntax node with the same source,
/// grammar and scope state twice yields structurally identical IR, identical
/// diagnostics (severity, message and range included), and the same final
/// scope state. Every compiler's contract equates its outcome with
/// `compile_spec`, a function of its inputs alone, so any two runs agree.
pub proof fn lemma_compile_deterministic(
    a: OutcomeV,
    b: OutcomeV,
    n: SyntaxNode,
    ctx: ContextV,
    t: TablesV,
    scope: int,
)
    requires
        a == compile_spec(n, ctx, t, scope),
        b == compile_spec(n, ctx, t, scope),
    ensures
        a.result == b.result,
        a.diags == b.diags,
        a.tables == b.tables,
{
}

/// Law: structural-error path — an `as` node missing a required child fails
/// with the structural error naming the missing field and changes nothing:
/// no IR, no scope-state change, and no diagnostics beyond what was already
/// logged.
pub proof fn lemma_as_missing_child(n: SyntaxNode, ctx: ContextV, t: TablesV, scope: int)
    requires
        find_child(n.children@, "pattern"@) is None || find_child(n.children@, "variable"@)
            is None,
    ensures
        as_spec(n, ctx, t, scope).tables == t,
        as_spec(n, ctx, t, scope).diags == Seq::<DiagnosticV>::empty(),
        as_spec(n, ctx, t, scope).result == Err::<PatternV, CompileErrorV>(
            CompileErrorV::MissingChild {
                kind: n.kind@,
                field: if find_child(n.children@, "pattern"@) is None {
                    "pattern"@
                } else {
                    "variable"@
                },
            },
        ),
{
}

/// Law: warning trigger — with both children present and readable, the `as`
/// compiler appends exactly one severity-441 diagnostic, positioned at the
/// node's span, precisely when the repeated-binding pass finds the variable
/// inside its own sub-pattern; otherwise it appends none of its own (the
/// sub-pattern's diagnostics follow either way).
pub proof fn lemma_as_warning_trigger(n: SyntaxNode, ctx: ContextV, t: TablesV, scope: int)
    requires
        find_child(n.children@, "pattern"@) is Some,
        find_child(n.children@, "variable"@) is Some,
        node_name(find_child(n.children@, "variable"@)->Some_0, ctx.src) is Ok,
        repeats_in_node(
            find_child(n.children@, "pattern"@)->Some_0,
            node_name(find_child(n.children@, "variable"@)->Some_0, ctx.src)->Ok_0,
            ctx.src,
            ctx.lang,
        ) is Ok,
    ensures
        ({
            let name = node_name(find_child(n.children@, "variable"@)->Some_0, ctx.src)->Ok_0;
            let rep = repeats_in_node(
                find_child(n.children@, "pattern"@)->Some_0,
                name,
                ctx.src,
                ctx.lang,
            )->Ok_0;
            as_spec(n, ctx, t, scope).diags == (if rep {
                seq![rebind_warning_v(name, ctx.file, n.range)]
            } else {
                Seq::<DiagnosticV>::empty()
            }) + compile_spec(find_child(n.children@, "pattern"@)->Some_0, ctx, t, scope).diags
        }),
{
}

/// Law: snippet-embedded detection — the repeated-binding pass looks inside
/// literal snippets: a snippet node whose trimmed text embeds `name` as a
/// placeholder makes the pass report a repeat.
pub proof fn lemma_snippet_detection(n: SyntaxNode, name: Seq<char>, src: Seq<char>, g: GrammarV)
    requires
        n.kind@ != g.variable_kind,
        n.kind@ == g.snippet_kind,
        span_ok(n.range, src),
        snippet_has_var(trim_spec(span_text(n.range, src)), g.metavariable_prefix, name),
    ensures
        repeats_in_node(n, name, src, g) == Ok::<bool, CompileErrorV>(true),
{
}

/// Law: idempotent IR shape — any accepted `pattern as $v` compiles to
/// exactly one `Where` wrapping the resolved variable, constrained by exactly
/// one `Match` of that same variable against the compiled sub-pattern, never
/// nested deeper, however deeply the sub-pattern itself recurses.
pub proof fn lemma_as_ir_shape(n: SyntaxNode, ctx: ContextV, t: TablesV, scope: int)
    requires
        as_spec(n, ctx, t, scope).result is Ok,
    ensures
        exists|v: nat, p: PatternV|
            as_spec(n, ctx, t, scope).result == Ok::<PatternV, CompileErrorV>(
                PatternV::Where(
                    Box::new(
                        WhereV {
                            pattern: PatternV::Variable(v),
                            side_condition: PredicateV::Match(
                                Box::new(
                                    MatchV { val: ContainerV::Variable(v), pattern: Some(p) },
                                ),
                            ),
                        },
                    ),
                ),
            ),
{
    let pc = find_child(n.children@, "pattern"@)->Some_0;
    let vc = find_child(n.children@, "variable"@)->Some_0;
    let out_p = compile_spec(pc, ctx, t, scope);
    let p = out_p.result->Ok_0;
    let rv = variable_spec(vc, ctx, out_p.tables, scope);
    let v = rv.0->Ok_0;
    assert(as_spec(n, ctx, t, scope).result == Ok::<PatternV, CompileErrorV>(
        PatternV::Where(
            Box::new(
                WhereV {
                    pattern: PatternV::Variable(v),
                    side_condition: PredicateV::Match(
                        Box::new(MatchV { val: ContainerV::Variable(v), pattern: Some(p) }),
                    ),
                },
            ),
        ),
    ));
}

} // verus!
