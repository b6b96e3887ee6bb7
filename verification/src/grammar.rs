//! The grammar handle for one target language: the syntax-node kind names
//! that the dispatch reads, and the snippet-variable-extraction rule that
//! tells which placeholders a literal code snippet embeds.
//!
//! Extraction is deterministic and local to the snippet's own text: a
//! placeholder starts at the grammar's metavariable prefix character and runs
//! through the following identifier characters, prefix included in the name.

use vstd::prelude::*;
use vstd::string::StrSliceExecFns;

use crate::text::str_eq;

verus! {

/// The target-language grammar handle.
pub struct Grammar {
    pub variable_kind: String,
    pub snippet_kind: String,
    pub metavariable_prefix: char,
}

/// Mathematical image of a `Grammar`.
#[verifier::ext_equal]
pub struct GrammarV {
    pub variable_kind: Seq<char>,
    pub snippet_kind: Seq<char>,
    pub metavariable_prefix: char,
}

impl View for Grammar {
    type V = GrammarV;

    open spec fn view(&self) -> GrammarV {
        GrammarV {
            variable_kind: self.variable_kind@,
            snippet_kind: self.snippet_kind@,
            metavariable_prefix: self.metavariable_prefix,
        }
    }
}

/// A character that may continue a variable placeholder's name.
pub open spec fn is_ident_char(c: char) -> bool {
    let u = c as u32;
    (0x30 <= u && u <= 0x39) || (0x41 <= u && u <= 0x5A) || (0x61 <= u && u <= 0x7A) || u == 0x5F
}

fn is_ident(c: char) -> (b: bool)
    ensures
        b == is_ident_char(c),
{
    let u = c as u32;
    (0x30 <= u && u <= 0x39) || (0x41 <= u && u <= 0x5A) || (0x61 <= u && u <= 0x7A) || u == 0x5F
}

/// One variable placeholder embedded in a snippet: its character offset in
/// the snippet text and its name, prefix included.
pub struct SnippetVar {
    pub position: usize,
    pub name: String,
}

/// Mathematical image of a `SnippetVar`.
#[verifier::ext_equal]
pub struct SnippetVarV {
    pub position: nat,
    pub name: Seq<char>,
}

impl View for SnippetVar {
    type V = SnippetVarV;

    open spec fn view(&self) -> SnippetVarV {
        SnippetVarV { position: self.position as nat, name: self.name@ }
    }
}

/// Where the identifier run starting at `i` ends.
pub open spec fn ident_run_end(s: Seq<char>, i: int) -> int
    decreases s.len() - i,
{
    if i < 0 || i >= s.len() {
        i
    } else if !is_ident_char(s[i]) {
        i
    } else {
        ident_run_end(s, i + 1)
    }
}

/// The identifier run covers exactly `[i, ident_run_end(s, i))`.
pub proof fn lemma_ident_run_end(s: Seq<char>, i: int)
    requires
        0 <= i <= s.len(),
    ensures
        i <= ident_run_end(s, i) <= s.len(),
        forall|k: int| i <= k < ident_run_end(s, i) ==> is_ident_char(s[k]),
        ident_run_end(s, i) < s.len() ==> !is_ident_char(s[ident_run_end(s, i)]),
    decreases s.len() - i,
{
    if i < s.len() && is_ident_char(s[i]) {
        lemma_ident_run_end(s, i + 1);
    }
}

/// A maximal identifier run determines where `ident_run_end` stops.
pub proof fn lemma_ident_run_end_is(s: Seq<char>, a: int, j: int)
    requires
        0 <= a <= j <= s.len(),
        forall|k: int| a <= k < j ==> is_ident_char(s[k]),
        j < s.len() ==> !is_ident_char(s[j]),
    ensures
        ident_run_end(s, a) == j,
    decreases j - a,
{
    if a < j {
        lemma_ident_run_end_is(s, a + 1, j);
    }
}

/// The variable placeholders embedded in snippet text from offset `i` on, in
/// text order: one wherever the metavariable prefix is followed by at least
/// one identifier character.
pub open spec fn snippet_vars_from(s: Seq<char>, prefix: char, i: int) -> Seq<SnippetVarV>
    decreases s.len() - i,
    via snippet_vars_from_decreases
{
    if i < 0 || i >= s.len() {
        Seq::empty()
    } else if s[i] == prefix && i + 1 < s.len() && is_ident_char(s[i + 1]) {
        let end = ident_run_end(s, i + 1);
        seq![SnippetVarV { position: i as nat, name: s.subrange(i, end) }] + snippet_vars_from(
            s,
            prefix,
            end,
        )
    } else {
        snippet_vars_from(s, prefix, i + 1)
    }
}

#[via_fn]
proof fn snippet_vars_from_decreases(s: Seq<char>, prefix: char, i: int) {
    if 0 <= i < s.len() {
        lemma_ident_run_end(s, i + 1);
    }
}

/// All placeholders of a snippet text, in order.
pub open spec fn snippet_vars(s: Seq<char>, prefix: char) -> Seq<SnippetVarV> {
    snippet_vars_from(s, prefix, 0)
}

/// Whether `name` is the name of some placeholder embedded in snippet text.
pub open spec fn snippet_has_var(s: Seq<char>, prefix: char, name: Seq<char>) -> bool {
    exists|k: int|
        0 <= k < snippet_vars(s, prefix).len() && (#[trigger] snippet_vars(s, prefix)[k]).name
            == name
}

impl Grammar {
    /// The snippet-variable-extraction contract: the ordered sequence of
    /// `(offset, name)` placeholder pairs embedded in a literal snippet's
    /// text, computed from that text alone.
    pub fn snippet_variables(&self, snippet: &str) -> (r: Vec<SnippetVar>)
        ensures
            r@.map_values(|v: SnippetVar| v@) == snippet_vars(snippet@, self.metavariable_prefix),
    {
        let s = snippet;
        let prefix = self.metavariable_prefix;
        let len = s.unicode_len();
        let mut r: Vec<SnippetVar> = Vec::new();
        let mut i: usize = 0;
        proof {
            assert(r@.map_values(|v: SnippetVar| v@) + snippet_vars_from(s@, prefix, 0) =~= snippet_vars_from(
                s@,
                prefix,
                0,
            ));
        }
        while i < len
            invariant
                i <= len,
                len == s@.len(),
                prefix == self.metavariable_prefix,
                r@.map_values(|v: SnippetVar| v@) + snippet_vars_from(s@, prefix, i as int)
                    == snippet_vars(s@, prefix),
            decreases len - i,
        {
            let c = s.get_char(i);
            let ghost prev = r@.map_values(|v: SnippetVar| v@);
            if c == prefix && i + 1 < len && is_ident(s.get_char(i + 1)) {
                let mut j: usize = i + 1;
                while j < len && is_ident(s.get_char(j))
                    invariant
                        i + 1 <= j <= len,
                        len == s@.len(),
                        forall|k: int| i + 1 <= k < j ==> is_ident_char(s@[k]),
                    decreases len - j,
                {
                    j = j + 1;
                }
                proof {
                    lemma_ident_run_end_is(s@, i as int + 1, j as int);
                }
                let name = s.substring_char(i, j).to_owned();
                let v = SnippetVar { position: i, name: name };
                r.push(v);
                proof {
                    let vv = SnippetVarV {
                        position: i as nat,
                        name: s@.subrange(i as int, j as int),
                    };
                    assert(v@ == vv);
                    assert(r@.map_values(|v: SnippetVar| v@) =~= prev + seq![vv]);
                    assert(snippet_vars_from(s@, prefix, i as int) == seq![vv]
                        + snippet_vars_from(s@, prefix, j as int));
                    assert(prev + (seq![vv] + snippet_vars_from(s@, prefix, j as int)) =~= (prev
                        + seq![vv]) + snippet_vars_from(s@, prefix, j as int));
                }
                i = j;
            } else {
                proof {
                    assert(snippet_vars_from(s@, prefix, i as int) == snippet_vars_from(
                        s@,
                        prefix,
                        i as int + 1,
                    ));
                }
                i = i + 1;
            }
        }
        proof {
            assert(snippet_vars_from(s@, prefix, len as int) =~= Seq::<SnippetVarV>::empty());
            assert(r@.map_values(|v: SnippetVar| v@) + Seq::<SnippetVarV>::empty() =~= r@.map_values(
                |v: SnippetVar| v@,
            ));
        }
        r
    }
}

/// Whether `name` occurs among the variable placeholders embedded in
/// `snippet`, under grammar `lang`.
pub fn is_variables_in_snippet(name: &str, snippet: &str, lang: &Grammar) -> (b: bool)
    ensures
        b == snippet_has_var(snippet@, lang.metavariable_prefix, name@),
{
    let variables = lang.snippet_variables(snippet);
    let ghost vs = snippet_vars(snippet@, lang.metavariable_prefix);
    let n = variables.len();
    let mut k: usize = 0;
    while k < n
        invariant
            k <= n,
            n == variables@.len(),
            vs == snippet_vars(snippet@, lang.metavariable_prefix),
            variables@.map_values(|v: SnippetVar| v@) == vs,
            forall|m: int| 0 <= m < k ==> (#[trigger] vs[m]).name != name@,
        decreases n - k,
    {
        let v = &variables[k];
        if str_eq(v.name.as_str(), name) {
            proof {
                assert(vs.len() == variables@.map_values(|v: SnippetVar| v@).len());
                assert(vs.len() == variables@.len());
                assert(variables@.map_values(|v: SnippetVar| v@)[k as int] == variables@[k as int]@);
                assert(vs[k as int] == variables@[k as int]@);
                assert(vs[k as int].name == variables@[k as int].name@);
                assert(0 <= k < snippet_vars(snippet@, lang.metavariable_prefix).len()
                    && (snippet_vars(snippet@, lang.metavariable_prefix)[k as int]).name
                    == name@);
            }
            return true;
        }
        proof {
            assert(vs[k as int] == variables@.map_values(|v: SnippetVar| v@)[k as int]);
        }
        k = k + 1;
    }
    false
}

} // verus!
