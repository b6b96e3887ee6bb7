//! The compiled intermediate representation handed to the matching engine:
//! patterns, boolean side-constraints (predicates), and the `Where` node that
//! pairs them. Name resolution is finished by IR-construction time: a
//! variable carries its resolved binding slot, never a name.

use vstd::prelude::*;

verus! {

/// A resolved variable reference: its binding slot.
#[derive(Clone, Copy, Debug, PartialEq, Eq, Structural)]
pub struct Variable {
    pub slot: usize,
}

/// A value-holding target that a `Match` predicate binds against.
#[derive(Clone, Copy, Debug, PartialEq, Eq, Structural)]
pub enum Container {
    Variable(Variable),
}

/// A compiled match pattern.
#[derive(Debug)]
pub enum Pattern {
    Variable(Variable),
    CodeSnippet(String),
    Where(Box<Where>),
}

/// A pattern constrained by a predicate that must additionally hold.
#[derive(Debug)]
pub struct Where {
    pub pattern: Pattern,
    pub side_condition: Predicate,
}

/// A boolean side-constraint evaluated during matching.
#[derive(Debug)]
pub enum Predicate {
    Match(Box<Match>),
}

/// Binds a container against an optional pattern: it succeeds when the
/// container's matched value is consistent with the pattern.
#[derive(Debug)]
pub struct Match {
    pub val: Container,
    pub pattern: Option<Pattern>,
}

/// Mathematical image of a `Pattern`.
#[verifier::ext_equal]
pub enum PatternV {
    Variable(nat),
    CodeSnippet(Seq<char>),
    Where(Box<WhereV>),
}

/// Mathematical image of a `Where`.
#[verifier::ext_equal]
pub struct WhereV {
    pub pattern: PatternV,
    pub side_condition: PredicateV,
}

/// Mathematical image of a `Predicate`.
#[verifier::ext_equal]
pub enum PredicateV {
    Match(Box<MatchV>),
}

/// Mathematical image of a `Match`.
#[verifier::ext_equal]
pub struct MatchV {
    pub val: ContainerV,
    pub pattern: Option<PatternV>,
}

/// Mathematical image of a `Container`.
#[verifier::ext_equal]
pub enum ContainerV {
    Variable(nat),
}

pub open spec fn container_view(c: Container) -> ContainerV {
    match c {
        Container::Variable(v) => ContainerV::Variable(v.slot as nat),
    }
}

pub open spec fn pattern_view(p: Pattern) -> PatternV
    decreases p,
{
    match p {
        Pattern::Variable(v) => PatternV::Variable(v.slot as nat),
        Pattern::CodeSnippet(s) => PatternV::CodeSnippet(s@),
        Pattern::Where(w) => PatternV::Where(Box::new(where_view(*w))),
    }
}

pub open spec fn where_view(w: Where) -> WhereV
    decreases w,
{
    WhereV { pattern: pattern_view(w.pattern), side_condition: predicate_view(w.side_condition) }
}

pub open spec fn predicate_view(p: Predicate) -> PredicateV
    decreases p,
{
    match p {
        Predicate::Match(m) => PredicateV::Match(Box::new(match_view(*m))),
    }
}

pub open spec fn match_view(m: Match) -> MatchV
    decreases m,
{
    MatchV {
        val: container_view(m.val),
        pattern: match m.pattern {
            Some(p) => Some(pattern_view(p)),
            None => None,
        },
    }
}

impl Where {
    /// Pairs a pattern with the predicate that must additionally hold.
    pub fn new(pattern: Pattern, side_condition: Predicate) -> (r: Where)
        ensures
            r.pattern == pattern,
            r.side_condition == side_condition,
    {
        Where { pattern: pattern, side_condition: side_condition }
    }
}

impl Match {
    /// Binds `val` against `pattern`.
    pub fn new(val: Container, pattern: Option<Pattern>) -> (r: Match)
        ensures
            r.val == val,
            r.pattern == pattern,
    {
        Match { val: val, pattern: pattern }
    }
}

} // verus!
