//! Compile-time scope state: per-scope symbol tables mapping variable names
//! to binding slots, per-scope occurrence lists recording every syntactic use
//! of a variable, and a global symbol table for bindings visible outside
//! lexical nesting.
//!
//! Slots are allocated from one monotonically increasing counter, so a slot
//! is unique for the whole compilation; a binding is never removed or
//! reassigned, and occurrence lists only ever grow.

use vstd::prelude::*;
use vstd::string::StrSliceExecFns;

use crate::syntax::Range;
use crate::text::str_eq;

verus! {

/// One name-to-slot binding in a symbol table.
pub struct Binding {
    pub name: String,
    pub slot: usize,
}

/// One syntactic occurrence of a variable: its (trimmed) name and the span
/// it occupies in the source.
pub struct Occurrence {
    pub name: String,
    pub range: Range,
}

/// Mathematical image of a `Binding`.
#[verifier::ext_equal]
pub struct BindingV {
    pub name: Seq<char>,
    pub slot: nat,
}

/// Mathematical image of an `Occurrence`.
#[verifier::ext_equal]
pub struct OccurrenceV {
    pub name: Seq<char>,
    pub range: Range,
}

impl View for Binding {
    type V = BindingV;

    open spec fn view(&self) -> BindingV {
        BindingV { name: self.name@, slot: self.slot as nat }
    }
}

impl View for Occurrence {
    type V = OccurrenceV;

    open spec fn view(&self) -> OccurrenceV {
        OccurrenceV { name: self.name@, range: self.range }
    }
}

/// Mathematical image of the whole scope state.
#[verifier::ext_equal]
pub struct TablesV {
    pub scopes: Seq<Seq<BindingV>>,
    pub occurrences: Seq<Seq<OccurrenceV>>,
    pub globals: Seq<BindingV>,
    pub next_slot: nat,
}

/// The mutable compile-time scope state threaded through every compiler.
pub struct ScopeTables {
    pub scopes: Vec<Vec<Binding>>,
    pub occurrences: Vec<Vec<Occurrence>>,
    pub globals: Vec<Binding>,
    pub next_slot: usize,
}

/// View of one symbol table.
pub open spec fn table_view(s: Seq<Binding>) -> Seq<BindingV> {
    s.map_values(|b: Binding| b@)
}

/// View of one occurrence list.
pub open spec fn occs_view(s: Seq<Occurrence>) -> Seq<OccurrenceV> {
    s.map_values(|o: Occurrence| o@)
}

impl View for ScopeTables {
    type V = TablesV;

    open spec fn view(&self) -> TablesV {
        TablesV {
            scopes: self.scopes@.map_values(|t: Vec<Binding>| table_view(t@)),
            occurrences: self.occurrences@.map_values(|t: Vec<Occurrence>| occs_view(t@)),
            globals: table_view(self.globals@),
            next_slot: self.next_slot as nat,
        }
    }
}

/// The reserved name prefix that routes a binding to the global table.
pub open spec fn global_prefix() -> Seq<char> {
    seq!['$', 'G', 'L', 'O', 'B', 'A', 'L', '_']
}

/// A variable name that binds in the global table rather than in a lexical
/// scope.
pub open spec fn is_global_name(n: Seq<char>) -> bool {
    n.len() >= 8 && n.subrange(0, 8) == global_prefix()
}

fn is_global(name: &str) -> (b: bool)
    ensures
        b == is_global_name(name@),
{
    let len = name.unicode_len();
    if len < 8 {
        return false;
    }
    let b = name.get_char(0) == '$' && name.get_char(1) == 'G' && name.get_char(2) == 'L'
        && name.get_char(3) == 'O' && name.get_char(4) == 'B' && name.get_char(5) == 'A'
        && name.get_char(6) == 'L' && name.get_char(7) == '_';
    proof {
        let p = name@.subrange(0, 8);
        if b {
            assert(p =~= global_prefix());
        } else {
            assert(p != global_prefix()) by {
                if p == global_prefix() {
                    assert(name@[0] == p[0] && name@[1] == p[1] && name@[2] == p[2] && name@[3]
                        == p[3] && name@[4] == p[4] && name@[5] == p[5] && name@[6] == p[6]
                        && name@[7] == p[7]);
                }
            }
        }
    }
    b
}

/// The slot that `name` maps to in one symbol table: the first binding with
/// that name (well-formed tables hold at most one).
pub open spec fn lookup(s: Seq<BindingV>, name: Seq<char>) -> Option<nat>
    decreases s.len(),
{
    if s.len() == 0 {
        None
    } else if s[0].name == name {
        Some(s[0].slot)
    } else {
        lookup(s.drop_first(), name)
    }
}

/// What a lookup result says about the table's entries.
pub proof fn lemma_lookup_properties(s: Seq<BindingV>, name: Seq<char>)
    ensures
        match lookup(s, name) {
            Some(v) => exists|i: int| 0 <= i < s.len() && s[i].name == name && s[i].slot == v,
            None => forall|i: int| 0 <= i < s.len() ==> s[i].name != name,
        },
    decreases s.len(),
{
    if s.len() == 0 {
    } else if s[0].name == name {
        assert(0 <= 0 < s.len() && s[0].name == name && s[0].slot == lookup(s, name)->Some_0);
    } else {
        let t = s.drop_first();
        lemma_lookup_properties(t, name);
        assert(lookup(s, name) == lookup(t, name));
        match lookup(t, name) {
            Some(v) => {
                let i = choose|i: int| 0 <= i < t.len() && t[i].name == name && t[i].slot == v;
                assert(t[i] == s[i + 1]);
                assert(0 <= i + 1 < s.len() && s[i + 1].name == name && s[i + 1].slot == v);
            },
            None => {
                assert forall|i: int| 0 <= i < s.len() implies s[i].name != name by {
                    if i > 0 {
                        assert(s[i] == t[i - 1]);
                    }
                }
            },
        }
    }
}

/// If the first `i` entries miss and entry `i` matches, lookup returns entry
/// `i`'s slot.
pub proof fn lemma_lookup_found(s: Seq<BindingV>, name: Seq<char>, i: int)
    requires
        0 <= i < s.len(),
        forall|k: int| 0 <= k < i ==> s[k].name != name,
        s[i].name == name,
    ensures
        lookup(s, name) == Some(s[i].slot),
    decreases i,
{
    if i > 0 {
        lemma_lookup_found(s.drop_first(), name, i - 1);
    }
}

/// If no entry matches, lookup misses.
pub proof fn lemma_lookup_none(s: Seq<BindingV>, name: Seq<char>)
    requires
        forall|i: int| 0 <= i < s.len() ==> s[i].name != name,
    ensures
        lookup(s, name) is None,
    decreases s.len(),
{
    if s.len() > 0 {
        lemma_lookup_none(s.drop_first(), name);
    }
}

/// A binding appended to a table that misses its name is then found.
pub proof fn lemma_lookup_push_absent(s: Seq<BindingV>, b: BindingV)
    requires
        lookup(s, b.name) is None,
    ensures
        lookup(s.push(b), b.name) == Some(b.slot),
{
    lemma_lookup_properties(s, b.name);
    lemma_lookup_found(s.push(b), b.name, s.len() as int);
}

/// A table that already resolves a name keeps resolving it the same way when
/// a binding is appended.
pub proof fn lemma_lookup_push_found(s: Seq<BindingV>, b: BindingV, name: Seq<char>)
    requires
        lookup(s, name) is Some,
    ensures
        lookup(s.push(b), name) == lookup(s, name),
    decreases s.len(),
{
    if s.len() > 0 && s[0].name != name {
        lemma_lookup_push_found(s.drop_first(), b, name);
        assert(s.push(b).drop_first() =~= s.drop_first().push(b));
    }
}

/// One symbol table is well formed: names are unique, slots are unique, and
/// every slot was allocated below `next`.
pub open spec fn table_wf(s: Seq<BindingV>, next: nat) -> bool {
    &&& forall|i: int, j: int|
        0 <= i < j < s.len() ==> (#[trigger] s[i]).name != (#[trigger] s[j]).name
    &&& forall|i: int, j: int| 0 <= i < j < s.len() ==> (#[trigger] s[i]).slot != (#[trigger] s[j]).slot
    &&& forall|i: int| 0 <= i < s.len() ==> (#[trigger] s[i]).slot < next
}

/// Two symbol tables share no slot.
pub open spec fn tables_disjoint(a: Seq<BindingV>, b: Seq<BindingV>) -> bool {
    forall|i: int, j: int|
        0 <= i < a.len() && 0 <= j < b.len() ==> (#[trigger] a[i]).slot != (#[trigger] b[j]).slot
}

/// The scope state is well formed: one occurrence list per scope, every
/// table well formed, and slots disjoint across all tables.
pub open spec fn wf(t: TablesV) -> bool {
    &&& t.scopes.len() == t.occurrences.len()
    &&& table_wf(t.globals, t.next_slot)
    &&& forall|k: int| 0 <= k < t.scopes.len() ==> table_wf(#[trigger] t.scopes[k], t.next_slot)
    &&& forall|k: int|
        0 <= k < t.scopes.len() ==> tables_disjoint(#[trigger] t.scopes[k], t.globals)
    &&& forall|k1: int, k2: int|
        0 <= k1 < t.scopes.len() && 0 <= k2 < t.scopes.len() && k1 != k2 ==> tables_disjoint(
            #[trigger] t.scopes[k1],
            #[trigger] t.scopes[k2],
        )
}

/// What `resolve_or_bind` does, as a function: append one occurrence record,
/// and either return the slot the name already has (current scope first, then
/// the global table) or allocate the next slot and register the binding in
/// the global table (for reserved global names) or the current scope.
pub open spec fn resolve_spec(t: TablesV, name: Seq<char>, scope: int, range: Range) -> (nat,
    TablesV)
    recommends
        0 <= scope < t.scopes.len(),
{
    let occ = OccurrenceV { name: name, range: range };
    let t1 = TablesV {
        occurrences: t.occurrences.update(scope, t.occurrences[scope].push(occ)),
        ..t
    };
    match lookup(t.scopes[scope], name) {
        Some(slot) => (slot, t1),
        None => match lookup(t.globals, name) {
            Some(slot) => (slot, t1),
            None => {
                let b = BindingV { name: name, slot: t.next_slot };
                if is_global_name(name) {
                    (
                        t.next_slot,
                        TablesV {
                            globals: t1.globals.push(b),
                            next_slot: t.next_slot + 1,
                            ..t1
                        },
                    )
                } else {
                    (
                        t.next_slot,
                        TablesV {
                            scopes: t1.scopes.update(scope, t1.scopes[scope].push(b)),
                            next_slot: t.next_slot + 1,
                            ..t1
                        },
                    )
                }
            },
        },
    }
}

/// Occurrence lists only grow: `b` has the same scopes as `a` and every
/// occurrence list of `a` is a prefix of the corresponding list of `b`.
pub open spec fn occs_extended(a: TablesV, b: TablesV) -> bool {
    &&& a.occurrences.len() == b.occurrences.len()
    &&& forall|k: int|
        0 <= k < a.occurrences.len() ==> (#[trigger] a.occurrences[k]).is_prefix_of(
            b.occurrences[k],
        )
}

/// Law: growing occurrence lists compose — extension is transitive (and so
/// holds across any chain of compilation steps).
pub proof fn lemma_occs_extended_trans(a: TablesV, b: TablesV, c: TablesV)
    requires
        occs_extended(a, b),
        occs_extended(b, c),
    ensures
        occs_extended(a, c),
{
    assert forall|k: int| 0 <= k < a.occurrences.len() implies (
    #[trigger] a.occurrences[k]).is_prefix_of(c.occurrences[k]) by {
        let x = a.occurrences[k];
        let y = b.occurrences[k];
        let z = c.occurrences[k];
        assert(x =~= y.subrange(0, x.len() as int));
        assert(y =~= z.subrange(0, y.len() as int));
        assert(x =~= z.subrange(0, x.len() as int));
    }
}

pub proof fn lemma_occs_extended_refl(a: TablesV)
    ensures
        occs_extended(a, a),
{
    assert forall|k: int| 0 <= k < a.occurrences.len() implies (
    #[trigger] a.occurrences[k]).is_prefix_of(a.occurrences[k]) by {
        assert(a.occurrences[k] =~= a.occurrences[k].subrange(
            0,
            a.occurrences[k].len() as int,
        ));
    }
}

/// A table stays well formed when the allocation bound grows.
proof fn lemma_table_wf_monotonic(s: Seq<BindingV>, n1: nat, n2: nat)
    requires
        table_wf(s, n1),
        n1 <= n2,
    ensures
        table_wf(s, n2),
{
}

/// Resolving a name keeps the state well formed, allocates at most one slot,
/// returns a slot below the new bound, and only appends to occurrence lists.
pub proof fn lemma_resolve_preserves_wf(t: TablesV, name: Seq<char>, scope: int, range: Range)
    requires
        wf(t),
        0 <= scope < t.scopes.len(),
    ensures
        ({
            let (slot, t2) = resolve_spec(t, name, scope, range);
            &&& wf(t2)
            &&& slot < t2.next_slot
            &&& t.next_slot <= t2.next_slot <= t.next_slot + 1
            &&& t2.scopes.len() == t.scopes.len()
            &&& occs_extended(t, t2)
        }),
{
    let (slot, t2) = resolve_spec(t, name, scope, range);
    let occ = OccurrenceV { name: name, range: range };
    let occs1 = t.occurrences.update(scope, t.occurrences[scope].push(occ));
    assert forall|k: int| 0 <= k < t.occurrences.len() implies (
    #[trigger] t.occurrences[k]).is_prefix_of(occs1[k]) by {
        if k == scope {
            assert(t.occurrences[k] =~= t.occurrences[k].push(occ).subrange(
                0,
                t.occurrences[k].len() as int,
            ));
        } else {
            assert(t.occurrences[k] =~= occs1[k].subrange(0, t.occurrences[k].len() as int));
        }
    }
    lemma_lookup_properties(t.scopes[scope], name);
    lemma_lookup_properties(t.globals, name);
    match lookup(t.scopes[scope], name) {
        Some(_) => {},
        None => match lookup(t.globals, name) {
            Some(_) => {},
            None => {
                let b = BindingV { name: name, slot: t.next_slot };
                if is_global_name(name) {
                    let g2 = t.globals.push(b);
                    assert(table_wf(g2, t.next_slot + 1)) by {
                        assert forall|i: int, j: int| 0 <= i < j < g2.len() implies (
                        #[trigger] g2[i]).name != (#[trigger] g2[j]).name && g2[i].slot
                            != g2[j].slot by {
                            if j == g2.len() - 1 {
                                assert(g2[i] == t.globals[i]);
                                assert(t.globals[i].slot < t.next_slot);
                            }
                        }
                    }
                    assert forall|k: int| 0 <= k < t2.scopes.len() implies table_wf(
                        #[trigger] t2.scopes[k],
                        t2.next_slot,
                    ) by {
                        lemma_table_wf_monotonic(t.scopes[k], t.next_slot, t.next_slot + 1);
                    }
                    assert forall|k: int| 0 <= k < t2.scopes.len() implies tables_disjoint(
                        #[trigger] t2.scopes[k],
                        t2.globals,
                    ) by {
                        assert forall|i: int, j: int|
                            0 <= i < t2.scopes[k].len() && 0 <= j < g2.len() implies (
                        #[trigger] t2.scopes[k][i]).slot != (#[trigger] g2[j]).slot by {
                            if j == g2.len() - 1 {
                                assert(t.scopes[k][i].slot < t.next_slot);
                            }
                        }
                    }
                } else {
                    let s2 = t.scopes[scope].push(b);
                    let scopes2 = t.scopes.update(scope, s2);
                    assert(table_wf(s2, t.next_slot + 1)) by {
                        assert forall|i: int, j: int| 0 <= i < j < s2.len() implies (
                        #[trigger] s2[i]).name != (#[trigger] s2[j]).name && s2[i].slot
                            != s2[j].slot by {
                            if j == s2.len() - 1 {
                                assert(s2[i] == t.scopes[scope][i]);
                                assert(t.scopes[scope][i].slot < t.next_slot);
                            }
                        }
                    }
                    assert forall|k: int| 0 <= k < scopes2.len() implies table_wf(
                        #[trigger] scopes2[k],
                        t.next_slot + 1,
                    ) by {
                        if k != scope {
                            lemma_table_wf_monotonic(t.scopes[k], t.next_slot, t.next_slot + 1);
                        }
                    }
                    assert forall|k: int| 0 <= k < scopes2.len() implies tables_disjoint(
                        #[trigger] scopes2[k],
                        t2.globals,
                    ) by {
                        assert forall|i: int, j: int|
                            0 <= i < scopes2[k].len() && 0 <= j < t.globals.len() implies (
                        #[trigger] scopes2[k][i]).slot != (#[trigger] t.globals[j]).slot by {
                            if k == scope && i == s2.len() - 1 {
                                assert(t.globals[j].slot < t.next_slot);
                            }
                        }
                    }
                    assert forall|k1: int, k2: int|
                        0 <= k1 < scopes2.len() && 0 <= k2 < scopes2.len() && k1
                            != k2 implies tables_disjoint(
                        #[trigger] scopes2[k1],
                        #[trigger] scopes2[k2],
                    ) by {
                        assert forall|i: int, j: int|
                            0 <= i < scopes2[k1].len() && 0 <= j < scopes2[k2].len() implies (
                        #[trigger] scopes2[k1][i]).slot != (#[trigger] scopes2[k2][j]).slot by {
                            if k1 == scope && i == s2.len() - 1 {
                                assert(t.scopes[k2][j].slot < t.next_slot);
                            } else if k2 == scope && j == s2.len() - 1 {
                                assert(t.scopes[k1][i].slot < t.next_slot);
                            }
                        }
                    }
                }
            },
        },
    }
}

/// Law: slot uniqueness — in a well-formed state no two distinct bindings
/// (in particular, no two distinct variable names) share a slot index.
/// `None` selects the global table, `Some(k)` the table of scope `k`.
pub open spec fn table_of(t: TablesV, k: Option<int>) -> Seq<BindingV> {
    match k {
        Some(i) => t.scopes[i],
        None => t.globals,
    }
}

pub open spec fn valid_table(t: TablesV, k: Option<int>) -> bool {
    match k {
        Some(i) => 0 <= i < t.scopes.len(),
        None => true,
    }
}

pub proof fn lemma_slot_uniqueness(
    t: TablesV,
    k1: Option<int>,
    i1: int,
    k2: Option<int>,
    i2: int,
)
    requires
        wf(t),
        valid_table(t, k1),
        valid_table(t, k2),
        0 <= i1 < table_of(t, k1).len(),
        0 <= i2 < table_of(t, k2).len(),
        k1 != k2 || i1 != i2,
    ensures
        table_of(t, k1)[i1].slot != table_of(t, k2)[i2].slot,
{
}

/// Law: a name resolves to the same slot across repeated references in one
/// scope — resolving it twice in a row returns the same slot.
pub proof fn lemma_resolve_stable(
    t: TablesV,
    name: Seq<char>,
    scope: int,
    r1: Range,
    r2: Range,
)
    requires
        wf(t),
        0 <= scope < t.scopes.len(),
    ensures
        ({
            let (s1, t1) = resolve_spec(t, name, scope, r1);
            let (s2, _) = resolve_spec(t1, name, scope, r2);
            s1 == s2
        }),
{
    let (s1, t1) = resolve_spec(t, name, scope, r1);
    match lookup(t.scopes[scope], name) {
        Some(_) => {},
        None => match lookup(t.globals, name) {
            Some(_) => {},
            None => {
                let b = BindingV { name: name, slot: t.next_slot };
                if is_global_name(name) {
                    lemma_lookup_push_absent(t.globals, b);
                } else {
                    lemma_lookup_push_absent(t.scopes[scope], b);
                }
            },
        },
    }
}

/// Law: occurrence lists are append-only — wherever `occs_extended` holds,
/// every scope's occurrence list keeps its existing entries unchanged, in
/// place, and its length never decreases.
pub proof fn lemma_occs_append_only(a: TablesV, b: TablesV, k: int, i: int)
    requires
        occs_extended(a, b),
        0 <= k < a.occurrences.len(),
        0 <= i < a.occurrences[k].len(),
    ensures
        a.occurrences[k].len() <= b.occurrences[k].len(),
        b.occurrences[k][i] == a.occurrences[k][i],
{
    let x = a.occurrences[k];
    let y = b.occurrences[k];
    assert(x =~= y.subrange(0, x.len() as int));
    assert(x[i] == y.subrange(0, x.len() as int)[i]);
}

/// Law: a slot, once assigned, is never reassigned — resolving any other
/// name, in any scope, leaves every existing binding resolving as before.
pub proof fn lemma_bindings_persist(
    t: TablesV,
    name: Seq<char>,
    scope: int,
    other: Seq<char>,
    scope2: int,
    r: Range,
)
    requires
        wf(t),
        0 <= scope < t.scopes.len(),
        0 <= scope2 < t.scopes.len(),
    ensures
        lookup(t.scopes[scope], name) is Some ==> lookup(
            resolve_spec(t, other, scope2, r).1.scopes[scope],
            name,
        ) == lookup(t.scopes[scope], name),
        lookup(t.globals, name) is Some ==> lookup(
            resolve_spec(t, other, scope2, r).1.globals,
            name,
        ) == lookup(t.globals, name),
{
    let t2 = resolve_spec(t, other, scope2, r).1;
    if lookup(t.scopes[scope2], other) is None && lookup(t.globals, other) is None {
        let b = BindingV { name: other, slot: t.next_slot };
        if is_global_name(other) {
            if lookup(t.globals, name) is Some {
                lemma_lookup_push_found(t.globals, b, name);
            }
        } else {
            if scope2 == scope && lookup(t.scopes[scope], name) is Some {
                lemma_lookup_push_found(t.scopes[scope], b, name);
            }
        }
    }
}

fn table_lookup(table: &Vec<Binding>, name: &str) -> (r: Option<usize>)
    ensures
        match r {
            Some(s) => lookup(table_view(table@), name@) == Some(s as nat),
            None => lookup(table_view(table@), name@) is None,
        },
{
    let ghost sv = table_view(table@);
    let n = table.len();
    let mut i: usize = 0;
    while i < n
        invariant
            i <= n,
            n == table@.len(),
            sv == table_view(table@),
            sv.len() == n,
            forall|k: int| 0 <= k < i ==> (#[trigger] sv[k]).name != name@,
        decreases n - i,
    {
        let b = &table[i];
        if str_eq(b.name.as_str(), name) {
            proof {
                lemma_lookup_found(sv, name@, i as int);
            }
            return Some(b.slot);
        }
        i = i + 1;
    }
    proof {
        lemma_lookup_none(sv, name@);
    }
    None
}

impl ScopeTables {
    /// Fresh state for one top-level compilation: no scopes, no globals, no
    /// occurrences, slots start at zero.
    pub fn new() -> (r: ScopeTables)
        ensures
            r@.scopes == Seq::<Seq<BindingV>>::empty(),
            r@.occurrences == Seq::<Seq<OccurrenceV>>::empty(),
            r@.globals == Seq::<BindingV>::empty(),
            r@.next_slot == 0,
            wf(r@),
    {
        let r = ScopeTables {
            scopes: Vec::new(),
            occurrences: Vec::new(),
            globals: Vec::new(),
            next_slot: 0,
        };
        proof {
            assert(r@.scopes =~= Seq::<Seq<BindingV>>::empty());
            assert(r@.occurrences =~= Seq::<Seq<OccurrenceV>>::empty());
            assert(r@.globals =~= Seq::<BindingV>::empty());
        }
        r
    }

    /// Opens a new lexical scope, in creation order, and returns its index.
    pub fn new_scope(&mut self) -> (idx: usize)
        ensures
            idx as int == old(self)@.scopes.len(),
            final(self)@.scopes == old(self)@.scopes.push(Seq::<BindingV>::empty()),
            final(self)@.occurrences == old(self)@.occurrences.push(Seq::<OccurrenceV>::empty()),
            final(self)@.globals == old(self)@.globals,
            final(self)@.next_slot == old(self)@.next_slot,
            wf(old(self)@) ==> wf(final(self)@),
    {
        let idx = self.scopes.len();
        self.scopes.push(Vec::new());
        self.occurrences.push(Vec::new());
        proof {
            assert(self@.scopes =~~= old(self)@.scopes.push(Seq::<BindingV>::empty()));
            assert(self@.occurrences =~~= old(self)@.occurrences.push(
                Seq::<OccurrenceV>::empty(),
            ));
            if wf(old(self)@) {
                assert forall|k: int| 0 <= k < self@.scopes.len() implies table_wf(
                    #[trigger] self@.scopes[k],
                    self@.next_slot,
                ) by {
                    if k < old(self)@.scopes.len() {
                        assert(self@.scopes[k] == old(self)@.scopes[k]);
                    }
                }
            }
        }
        idx
    }

    /// The scope-and-symbol-table contract: if `name` already has a slot in
    /// the current scope or the global table, return it; otherwise allocate
    /// the next slot and register the binding. Either way, append one
    /// occurrence record to the current scope's occurrence list.
    pub fn resolve_or_bind(&mut self, name: &str, scope_index: usize, range: Range) -> (slot:
        usize)
        requires
            wf(old(self)@),
            scope_index < old(self)@.scopes.len(),
            old(self)@.next_slot < usize::MAX,
        ensures
            slot as nat == resolve_spec(old(self)@, name@, scope_index as int, range).0,
            final(self)@ == resolve_spec(old(self)@, name@, scope_index as int, range).1,
            wf(final(self)@),
    {
        proof {
            lemma_resolve_preserves_wf(old(self)@, name@, scope_index as int, range);
        }
        let ghost t0 = self@;
        let occ = Occurrence { name: name.to_owned(), range: range };
        self.occurrences[scope_index].push(occ);
        proof {
            let occv = OccurrenceV { name: name@, range: range };
            assert(self@.occurrences =~~= t0.occurrences.update(
                scope_index as int,
                t0.occurrences[scope_index as int].push(occv),
            ));
            assert(self@.scopes =~~= t0.scopes);
        }
        let r = table_lookup(&self.scopes[scope_index], name);
        match r {
            Some(slot) => {
                proof {
                    assert(self@ =~~= resolve_spec(t0, name@, scope_index as int, range).1);
                }
                slot
            },
            None => {
                let r2 = table_lookup(&self.globals, name);
                match r2 {
                    Some(slot) => {
                        proof {
                            assert(self@ =~~= resolve_spec(t0, name@, scope_index as int, range).1);
                        }
                        slot
                    },
                    None => {
                        let slot = self.next_slot;
                        let b = Binding { name: name.to_owned(), slot: slot };
                        let ghost bv = BindingV { name: name@, slot: slot as nat };
                        if is_global(name) {
                            self.globals.push(b);
                            proof {
                                assert(self@.globals =~= t0.globals.push(bv));
                            }
                        } else {
                            self.scopes[scope_index].push(b);
                            proof {
                                assert(self@.scopes =~~= t0.scopes.update(
                                    scope_index as int,
                                    t0.scopes[scope_index as int].push(bv),
                                ));
                            }
                        }
                        self.next_slot = slot + 1;
                        proof {
                            assert(self@ =~~= resolve_spec(t0, name@, scope_index as int, range).1);
                        }
                        slot
                    },
                }
            },
        }
    }
}

} // verus!
