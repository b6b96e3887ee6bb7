//! The concrete syntax tree that the compiler consumes.
//!
//! An external parser produces the tree; this crate models one node as its
//! grammar production name (`kind`), the span of source characters it covers,
//! and its ordered children, some of which the grammar labels with a field
//! name. A node carries no text of its own: its text is read out of the
//! compilation's source through its span.

use vstd::prelude::*;
use vstd::string::StrSliceExecFns;

verus! {

/// Half-open span of character offsets into the compilation's source text.
#[derive(Clone, Copy, Debug, PartialEq, Eq, Structural)]
pub struct Range {
    pub start: usize,
    pub end: usize,
}

/// One node of the pattern language's concrete syntax tree.
pub struct SyntaxNode {
    pub kind: String,
    pub range: Range,
    pub children: Vec<ChildNode>,
}

/// A child edge of a syntax node; the grammar labels some children with a
/// field name (for example `pattern` and `variable` under an `as` node).
pub struct ChildNode {
    pub field: Option<String>,
    pub node: SyntaxNode,
}

/// The span lies inside the source text.
pub open spec fn span_ok(r: Range, src: Seq<char>) -> bool {
    r.start <= r.end <= src.len()
}

/// The source text covered by a span.
pub open spec fn span_text(r: Range, src: Seq<char>) -> Seq<char> {
    src.subrange(r.start as int, r.end as int)
}

/// The first child labelled with field name `f`, if any.
pub open spec fn find_child(cs: Seq<ChildNode>, f: Seq<char>) -> Option<SyntaxNode>
    decreases cs.len(),
{
    if cs.len() == 0 {
        None
    } else {
        match cs[0].field {
            Some(n) => if n@ == f {
                Some(cs[0].node)
            } else {
                find_child(cs.drop_first(), f)
            },
            None => find_child(cs.drop_first(), f),
        }
    }
}

/// The number of nodes in the tree rooted at `n`; it bounds how many fresh
/// binding slots compiling `n` can allocate.
pub open spec fn node_count(n: SyntaxNode) -> nat
    decreases n,
{
    1 + nodes_count(n.children@)
}

/// The number of nodes in a forest of child edges.
pub open spec fn nodes_count(cs: Seq<ChildNode>) -> nat
    decreases cs,
{
    if cs.len() == 0 {
        0
    } else {
        node_count(cs[0].node) + nodes_count(cs.drop_first())
    }
}

/// The count of a child edge's subtree never exceeds the count of the forest
/// holding it.
pub proof fn lemma_nodes_count_member(cs: Seq<ChildNode>, i: int)
    requires
        0 <= i < cs.len(),
    ensures
        node_count(cs[i].node) <= nodes_count(cs),
    decreases cs.len(),
{
    if i > 0 {
        lemma_nodes_count_member(cs.drop_first(), i - 1);
    }
}

/// A child found by field name lies in the forest, so its subtree count is
/// bounded by the forest's.
pub proof fn lemma_find_child_member(cs: Seq<ChildNode>, f: Seq<char>)
    requires
        find_child(cs, f) is Some,
    ensures
        exists|i: int|
            0 <= i < cs.len() && cs[i].node == find_child(cs, f)->Some_0,
        node_count(find_child(cs, f)->Some_0) <= nodes_count(cs),
    decreases cs.len(),
{
    if cs[0].field matches Some(n) && n@ == f {
        assert(cs[0].node == find_child(cs, f)->Some_0);
        lemma_nodes_count_member(cs, 0);
    } else {
        lemma_find_child_member(cs.drop_first(), f);
        let i = choose|i: int|
            0 <= i < cs.drop_first().len() && cs.drop_first()[i].node == find_child(
                cs.drop_first(),
                f,
            )->Some_0;
        assert(cs[i + 1].node == find_child(cs, f)->Some_0);
        lemma_nodes_count_member(cs, i + 1);
    }
}

impl SyntaxNode {
    /// The first child labelled with field name `f`, if any; how a compiler
    /// reads the named parts of its construct.
    pub fn child_by_field_name(&self, f: &str) -> (r: Option<&SyntaxNode>)
        ensures
            match r {
                Some(c) => find_child(self.children@, f@) == Some(*c),
                None => find_child(self.children@, f@) is None,
            },
    {
        let n = self.children.len();
        let mut i: usize = 0;
        proof {
            assert(self.children@.skip(0) =~= self.children@);
        }
        while i < n
            invariant
                i <= n,
                n == self.children@.len(),
                find_child(self.children@.skip(i as int), f@) == find_child(self.children@, f@),
            decreases n - i,
        {
            let c = &self.children[i];
            proof {
                assert(self.children@.skip(i as int)[0] == self.children@[i as int]);
                assert(self.children@.skip(i as int).drop_first() =~= self.children@.skip(
                    i as int + 1,
                ));
            }
            match &c.field {
                Some(name) => {
                    if crate::text::str_eq(name.as_str(), f) {
                        return Some(&c.node);
                    }
                },
                None => {},
            }
            i = i + 1;
        }
        proof {
            assert(self.children@.skip(n as int) =~= Seq::<ChildNode>::empty());
        }
        None
    }
}

} // verus!
