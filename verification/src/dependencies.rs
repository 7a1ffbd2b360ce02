//! Dependency extraction: which type names a definition's layout mentions.
//!
//! Every node contributes its references in traversal order; a whole
//! definition canonicalizes them into a strictly sorted, duplicate-free
//! list, so the result is independent of traversal order and identical
//! across repeated computations.
use vstd::prelude::*;
use vstd::string::StrSliceExecFns;

use crate::ast::Case;
use crate::ast::CaseBody;
use crate::ast::Definition;
use crate::ast::Field;
use crate::ast::FieldOrSelect;
use crate::ast::SpecCase;
use crate::ast::SpecCaseBody;
use crate::ast::SpecDefinition;
use crate::ast::SpecField;
use crate::ast::SpecFieldOrSelect;

verus! {

/// Lexicographic order on character sequences, compared from position `i`
/// by Unicode scalar value; a proper prefix precedes its extensions.
pub open spec fn lex_lt_from(a: Seq<char>, b: Seq<char>, i: int) -> bool
    decreases a.len() - i,
    when 0 <= i
{
    if i >= b.len() {
        false
    } else if i >= a.len() {
        true
    } else if a[i] != b[i] {
        (a[i] as u32) < (b[i] as u32)
    } else {
        lex_lt_from(a, b, i + 1)
    }
}

/// Strict lexicographic order on character sequences.
pub open spec fn lex_lt(a: Seq<char>, b: Seq<char>) -> bool {
    lex_lt_from(a, b, 0)
}

pub proof fn lemma_lex_irrefl(a: Seq<char>, i: int)
    requires
        0 <= i,
    ensures
        !lex_lt_from(a, a, i),
    decreases a.len() - i,
{
    if i < a.len() {
        lemma_lex_irrefl(a, i + 1);
    }
}

pub proof fn lemma_lex_trans(a: Seq<char>, b: Seq<char>, c: Seq<char>, i: int)
    requires
        0 <= i,
        lex_lt_from(a, b, i),
        lex_lt_from(b, c, i),
    ensures
        lex_lt_from(a, c, i),
    decreases a.len() - i,
{
    if i < a.len() && i < b.len() && i < c.len() && a[i] == b[i] && b[i] == c[i] {
        lemma_lex_trans(a, b, c, i + 1);
    }
}

pub proof fn lemma_lex_connex(a: Seq<char>, b: Seq<char>, i: int)
    requires
        0 <= i <= a.len(),
        i <= b.len(),
        !lex_lt_from(a, b, i),
        !lex_lt_from(b, a, i),
    ensures
        a.skip(i) == b.skip(i),
    decreases a.len() - i,
{
    if i >= a.len() && i >= b.len() {
        assert(a.skip(i) =~= b.skip(i));
    } else {
        assert(i < a.len() && i < b.len());
        vstd::utf8::char_u32_cast(a[i], a[i] as u32);
        vstd::utf8::char_u32_cast(b[i], b[i] as u32);
        assert(a[i] == b[i]);
        lemma_lex_connex(a, b, i + 1);
        assert(a.skip(i + 1).len() == b.skip(i + 1).len());
        assert forall|k: int| 0 <= k < a.skip(i).len() implies a.skip(i)[k] == b.skip(i)[k] by {
            if k == 0 {
                assert(a.skip(i)[0] == a[i]);
                assert(b.skip(i)[0] == b[i]);
            } else {
                assert(a.skip(i)[k] == a.skip(i + 1)[k - 1]);
                assert(b.skip(i)[k] == b.skip(i + 1)[k - 1]);
            }
        }
        assert(a.skip(i) =~= b.skip(i));
    }
}

/// Two sequences of which neither lexicographically precedes the other are
/// equal.
pub proof fn lemma_lex_total(a: Seq<char>, b: Seq<char>)
    requires
        !lex_lt(a, b),
        !lex_lt(b, a),
    ensures
        a == b,
{
    lemma_lex_connex(a, b, 0);
    assert(a.skip(0) =~= a);
    assert(b.skip(0) =~= b);
}

/// `l` with `x` inserted at its place in lexicographic order, unless an
/// equal entry is already present.
pub open spec fn spec_sorted_insert(x: Seq<char>, l: Seq<Seq<char>>) -> Seq<Seq<char>>
    decreases l.len(),
{
    if l.len() == 0 {
        seq![x]
    } else if lex_lt(x, l[0]) {
        seq![x] + l
    } else if x == l[0] {
        l
    } else {
        seq![l[0]] + spec_sorted_insert(x, l.drop_first())
    }
}

/// The canonical form of a reference list: strictly sorted and
/// duplicate-free, holding exactly the entries of `l`.
pub open spec fn spec_sort_dedup(l: Seq<Seq<char>>) -> Seq<Seq<char>>
    decreases l.len(),
{
    if l.len() == 0 {
        seq![]
    } else {
        spec_sorted_insert(l[0], spec_sort_dedup(l.drop_first()))
    }
}

/// Every entry is strictly below every later entry.
pub open spec fn spec_strictly_sorted(l: Seq<Seq<char>>) -> bool {
    forall|p: int, q: int| 0 <= p < q < l.len() ==> lex_lt(l[p], l[q])
}

proof fn lemma_cons_contains(h: Seq<char>, l: Seq<Seq<char>>, e: Seq<char>)
    ensures
        (seq![h] + l).contains(e) <==> (e == h || l.contains(e)),
{
    if e == h {
        assert((seq![h] + l)[0] == e);
    }
    if l.contains(e) {
        let i = choose|i: int| 0 <= i < l.len() && l[i] == e;
        assert((seq![h] + l)[i + 1] == e);
    }
    if (seq![h] + l).contains(e) {
        let i = choose|i: int| 0 <= i < (seq![h] + l).len() && (seq![h] + l)[i] == e;
        if i > 0 {
            assert(l[i - 1] == e);
        }
    }
}

pub proof fn lemma_sorted_insert_props(x: Seq<char>, l: Seq<Seq<char>>)
    requires
        spec_strictly_sorted(l),
    ensures
        spec_strictly_sorted(spec_sorted_insert(x, l)),
        forall|e: Seq<char>|
            #[trigger] spec_sorted_insert(x, l).contains(e) <==> (e == x || l.contains(e)),
    decreases l.len(),
{
    let r = spec_sorted_insert(x, l);
    if l.len() == 0 {
        assert forall|e: Seq<char>| r.contains(e) <==> (e == x || l.contains(e)) by {
            if e == x {
                assert(r[0] == e);
            }
            if r.contains(e) {
                let i = choose|i: int| 0 <= i < r.len() && r[i] == e;
                assert(i == 0);
            }
        }
    } else if lex_lt(x, l[0]) {
        assert forall|p: int, q: int| 0 <= p < q < r.len() implies lex_lt(r[p], r[q]) by {
            if p == 0 {
                assert(r[q] == l[q - 1]);
                if q - 1 > 0 {
                    assert(lex_lt(l[0], l[q - 1]));
                    lemma_lex_trans(x, l[0], l[q - 1], 0);
                }
            } else {
                assert(r[p] == l[p - 1] && r[q] == l[q - 1]);
            }
        }
        assert forall|e: Seq<char>| r.contains(e) <==> (e == x || l.contains(e)) by {
            lemma_cons_contains(x, l, e);
        }
    } else if x == l[0] {
        assert forall|e: Seq<char>| r.contains(e) <==> (e == x || l.contains(e)) by {
            if e == x {
                assert(l[0] == e);
            }
        }
    } else {
        let rest = l.drop_first();
        assert(spec_strictly_sorted(rest)) by {
            assert(forall|p: int, q: int|
                0 <= p < q < rest.len() ==> rest[p] == l[p + 1] && rest[q] == l[q + 1]);
        }
        lemma_sorted_insert_props(x, rest);
        let m = spec_sorted_insert(x, rest);
        // the head is below the inserted element and below every old entry
        lemma_lex_irrefl(l[0], 0);
        lemma_lex_irrefl(x, 0);
        if !lex_lt(l[0], x) {
            lemma_lex_total(x, l[0]);
        }
        assert(lex_lt(l[0], x));
        assert(r == seq![l[0]] + m);
        assert forall|p: int, q: int| 0 <= p < q < r.len() implies lex_lt(r[p], r[q]) by {
            if p == 0 {
                assert(r[q] == m[q - 1]);
                assert(m.contains(m[q - 1]));
                if m[q - 1] == x {
                    assert(lex_lt(r[0], r[q]));
                } else {
                    assert(rest.contains(m[q - 1]));
                    let i = choose|i: int| 0 <= i < rest.len() && rest[i] == m[q - 1];
                    assert(l[i + 1] == m[q - 1]);
                    assert(lex_lt(l[0], l[i + 1]));
                }
            } else {
                assert(r[p] == m[p - 1] && r[q] == m[q - 1]);
            }
        }
        assert forall|e: Seq<char>| r.contains(e) <==> (e == x || l.contains(e)) by {
            lemma_cons_contains(l[0], m, e);
            lemma_cons_contains(l[0], rest, e);
            assert(seq![l[0]] + rest =~= l);
        }
    }
}

pub proof fn lemma_sort_dedup_props(l: Seq<Seq<char>>)
    ensures
        spec_strictly_sorted(spec_sort_dedup(l)),
        forall|e: Seq<char>| #[trigger] spec_sort_dedup(l).contains(e) <==> l.contains(e),
    decreases l.len(),
{
    if l.len() == 0 {
        assert forall|e: Seq<char>| !spec_sort_dedup(l).contains(e) && !l.contains(e) by {}
    } else {
        let rest = l.drop_first();
        lemma_sort_dedup_props(rest);
        lemma_sorted_insert_props(l[0], spec_sort_dedup(rest));
        assert forall|e: Seq<char>| spec_sort_dedup(l).contains(e) <==> l.contains(e) by {
            assert(spec_sort_dedup(l) == spec_sorted_insert(l[0], spec_sort_dedup(rest)));
            assert(spec_sorted_insert(l[0], spec_sort_dedup(rest)).contains(e) <==> (e == l[0]
                || spec_sort_dedup(rest).contains(e)));
            assert(spec_sort_dedup(rest).contains(e) <==> rest.contains(e));
            lemma_cons_contains(l[0], rest, e);
            assert(seq![l[0]] + rest =~= l);
        }
    }
}

/// How `spec_sorted_insert` acts at the first position whose entry is not
/// below `x`: it keeps the list when that entry equals `x`, and splices `x`
/// in at that position otherwise.
pub proof fn lemma_sorted_insert_at(x: Seq<char>, l: Seq<Seq<char>>, k: int)
    requires
        0 <= k <= l.len(),
        forall|j: int| 0 <= j < k ==> lex_lt(l[j], x),
        k < l.len() ==> !lex_lt(l[k], x),
    ensures
        spec_sorted_insert(x, l) == if k < l.len() && l[k] == x {
            l
        } else {
            l.take(k) + seq![x] + l.skip(k)
        },
    decreases l.len(),
{
    if l.len() == 0 {
        assert(spec_sorted_insert(x, l) =~= l.take(0) + seq![x] + l.skip(0));
    } else if k == 0 {
        if l[0] == x {
            lemma_lex_irrefl(x, 0);
        } else {
            if !lex_lt(x, l[0]) {
                lemma_lex_total(x, l[0]);
            }
            assert(lex_lt(x, l[0]));
            assert(seq![x] + l =~= l.take(0) + seq![x] + l.skip(0));
        }
    } else {
        assert(lex_lt(l[0], x));
        lemma_lex_irrefl(l[0], 0);
        if lex_lt(x, l[0]) {
            lemma_lex_trans(x, l[0], x, 0);
            lemma_lex_irrefl(x, 0);
        }
        assert(l[0] != x);
        let rest = l.drop_first();
        assert(forall|j: int| 0 <= j < k - 1 ==> rest[j] == l[j + 1]);
        lemma_sorted_insert_at(x, rest, k - 1);
        if k < l.len() && l[k] == x {
            assert(rest[k - 1] == x);
            assert(seq![l[0]] + rest =~= l);
        } else {
            assert(seq![l[0]] + (rest.take(k - 1) + seq![x] + rest.skip(k - 1)) =~= l.take(k)
                + seq![x] + l.skip(k));
        }
    }
}

/// The references contributed by a list of fields: each field's type, in
/// order.
pub open spec fn spec_field_list_deps(fs: Seq<SpecField>) -> Seq<Seq<char>>
    decreases fs.len(),
{
    if fs.len() == 0 {
        seq![]
    } else {
        spec_field_list_deps(fs.drop_last()) + seq![fs.last().ty]
    }
}

/// The references contributed by one case: none for an empty body, the
/// named type for a bare reference, the fields' types for a field list.
pub open spec fn spec_case_deps(c: SpecCase) -> Seq<Seq<char>> {
    match c.right {
        SpecCaseBody::Empty => seq![],
        SpecCaseBody::ReferenceToType(t) => seq![t],
        SpecCaseBody::Fields(fs) => spec_field_list_deps(fs),
    }
}

/// The references contributed by a list of cases, concatenated in order.
pub open spec fn spec_case_list_deps(cs: Seq<SpecCase>) -> Seq<Seq<char>>
    decreases cs.len(),
{
    if cs.len() == 0 {
        seq![]
    } else {
        spec_case_list_deps(cs.drop_last()) + spec_case_deps(cs.last())
    }
}

/// The references contributed by a struct item: a field's type, or all the
/// references of a select's cases. The select's discriminant contributes
/// nothing.
pub open spec fn spec_item_deps(x: SpecFieldOrSelect) -> Seq<Seq<char>> {
    match x {
        SpecFieldOrSelect::Field(f) => seq![f.ty],
        SpecFieldOrSelect::Select(sel) => spec_case_list_deps(sel.cases),
    }
}

/// The references contributed by a list of struct items, concatenated in
/// order.
pub open spec fn spec_item_list_deps(items: Seq<SpecFieldOrSelect>) -> Seq<Seq<char>>
    decreases items.len(),
{
    if items.len() == 0 {
        seq![]
    } else {
        spec_item_list_deps(items.drop_last()) + spec_item_deps(items.last())
    }
}

/// All references a definition's layout mentions, in traversal order and
/// possibly with duplicates: a struct's items' references, nothing for an
/// enum, the aliased type for an alias.
pub open spec fn spec_definition_deps(d: SpecDefinition) -> Seq<Seq<char>> {
    match d {
        SpecDefinition::Struct(st) => spec_item_list_deps(st.items),
        SpecDefinition::Enum(en) => seq![],
        SpecDefinition::Alias(f) => seq![f.ty],
    }
}

/// Nodes that can enumerate the type names they reference.
pub trait Dependencies {
    /// The references this node's `dependencies` method returns, as
    /// character sequences.
    spec fn spec_dependencies(&self) -> Seq<Seq<char>>;

    /// The type names this node references.
    fn dependencies(&self) -> (r: Vec<String>)
        ensures
            r.deep_view() == self.spec_dependencies(),
    ;
}

/// Insert `x` into the sorted list `v`, keeping it sorted and dropping `x`
/// when an equal entry is already present.
fn insert_sorted(v: &mut Vec<String>, x: String)
    ensures
        final(v).deep_view() == spec_sorted_insert(x@, old(v).deep_view()),
{
    let ghost dv = v.deep_view();
    let mut k: usize = 0;
    while k < v.len() && str_lt(v[k].as_str(), x.as_str())
        invariant
            k <= v@.len(),
            v@ == old(v)@,
            dv == v.deep_view(),
            forall|j: int| 0 <= j < k ==> lex_lt(dv[j], x@),
        decreases v@.len() - k,
    {
        k += 1;
    }
    if k < v.len() && v[k] == x {
        proof {
            lemma_sorted_insert_at(x@, dv, k as int);
        }
        return ;
    }
    v.insert(k, x);
    proof {
        lemma_sorted_insert_at(x@, dv, k as int);
        assert(v.deep_view() =~= dv.take(k as int) + seq![x@] + dv.skip(k as int));
    }
}

/// Lexicographic comparison of the characters of two strings from position
/// `i` on.
fn str_lt_from(a: &str, b: &str, i: usize) -> (r: bool)
    requires
        i <= a@.len(),
        i <= b@.len(),
    ensures
        r == lex_lt_from(a@, b@, i as int),
    decreases a@.len() - i,
{
    let bn = b.unicode_len();
    let an = a.unicode_len();
    if i >= bn {
        false
    } else if i >= an {
        true
    } else {
        let ca = a.get_char(i);
        let cb = b.get_char(i);
        if ca != cb {
            (ca as u32) < (cb as u32)
        } else {
            str_lt_from(a, b, i + 1)
        }
    }
}

/// Whether `a` is strictly below `b` in lexicographic order.
fn str_lt(a: &str, b: &str) -> (r: bool)
    ensures
        r == lex_lt(a@, b@),
{
    str_lt_from(a, b, 0)
}

impl Dependencies for Case {
    open spec fn spec_dependencies(&self) -> Seq<Seq<char>> {
        spec_case_deps(self@)
    }

    fn dependencies(&self) -> (r: Vec<String>) {
        match &self.right {
            CaseBody::Empty => {
                let out: Vec<String> = Vec::new();
                proof {
                    assert(out.deep_view() =~= Seq::<Seq<char>>::empty());
                }
                out
            },
            CaseBody::ReferenceToType(t) => {
                let mut out: Vec<String> = Vec::new();
                out.push(t.clone());
                proof {
                    assert(out.deep_view() =~= seq![t@]);
                }
                out
            },
            CaseBody::Fields(fs) => {
                let ghost model = fs@.map_values(|f: Field| f@);
                let mut out: Vec<String> = Vec::new();
                let mut k: usize = 0;
                proof {
                    assert(out.deep_view() =~= spec_field_list_deps(model.take(0)));
                }
                while k < fs.len()
                    invariant
                        k <= fs@.len(),
                        model == fs@.map_values(|f: Field| f@),
                        out.deep_view() == spec_field_list_deps(model.take(k as int)),
                    decreases fs@.len() - k,
                {
                    let ghost before = out.deep_view();
                    out.push(fs[k].ty.clone());
                    proof {
                        assert(model.take(k + 1).drop_last() =~= model.take(k as int));
                        assert(out.deep_view() =~= before + seq![model.take(k + 1).last().ty]);
                    }
                    k += 1;
                }
                proof {
                    assert(model.take(fs@.len() as int) =~= model);
                }
                out
            },
        }
    }
}

impl Dependencies for FieldOrSelect {
    open spec fn spec_dependencies(&self) -> Seq<Seq<char>> {
        spec_item_deps(self@)
    }

    fn dependencies(&self) -> (r: Vec<String>) {
        match self {
            FieldOrSelect::Field(f) => {
                let mut out: Vec<String> = Vec::new();
                out.push(f.ty.clone());
                proof {
                    assert(out.deep_view() =~= seq![f.ty@]);
                }
                out
            },
            FieldOrSelect::Select(sel) => {
                let ghost model = sel.cases@.map_values(|c: Case| c@);
                let mut out: Vec<String> = Vec::new();
                let mut k: usize = 0;
                proof {
                    assert(out.deep_view() =~= spec_case_list_deps(model.take(0)));
                }
                while k < sel.cases.len()
                    invariant
                        k <= sel.cases@.len(),
                        model == sel.cases@.map_values(|c: Case| c@),
                        out.deep_view() == spec_case_list_deps(model.take(k as int)),
                    decreases sel.cases@.len() - k,
                {
                    let ghost before = out.deep_view();
                    let mut cd = sel.cases[k].dependencies();
                    let ghost cdv = cd.deep_view();
                    out.append(&mut cd);
                    proof {
                        assert(model.take(k + 1).drop_last() =~= model.take(k as int));
                        assert(out.deep_view() =~= before + cdv);
                    }
                    k += 1;
                }
                proof {
                    assert(model.take(sel.cases@.len() as int) =~= model);
                }
                out
            },
        }
    }
}

impl Dependencies for Definition {
    open spec fn spec_dependencies(&self) -> Seq<Seq<char>> {
        spec_sort_dedup(spec_definition_deps(self@))
    }

    fn dependencies(&self) -> (r: Vec<String>) {
        let raw: Vec<String> = match self {
            Definition::Struct(st) => {
                let ghost model = st.items@.map_values(|x: FieldOrSelect| x@);
                let mut out: Vec<String> = Vec::new();
                let mut k: usize = 0;
                proof {
                    assert(out.deep_view() =~= spec_item_list_deps(model.take(0)));
                }
                while k < st.items.len()
                    invariant
                        k <= st.items@.len(),
                        model == st.items@.map_values(|x: FieldOrSelect| x@),
                        out.deep_view() == spec_item_list_deps(model.take(k as int)),
                    decreases st.items@.len() - k,
                {
                    let ghost before = out.deep_view();
                    let mut xd = st.items[k].dependencies();
                    let ghost xdv = xd.deep_view();
                    out.append(&mut xd);
                    proof {
                        assert(model.take(k + 1).drop_last() =~= model.take(k as int));
                        assert(out.deep_view() =~= before + xdv);
                    }
                    k += 1;
                }
                proof {
                    assert(model.take(st.items@.len() as int) =~= model);
                }
                out
            },
            Definition::Enum(en) => {
                let out: Vec<String> = Vec::new();
                proof {
                    assert(out.deep_view() =~= Seq::<Seq<char>>::empty());
                }
                out
            },
            Definition::Alias(f) => {
                let mut out: Vec<String> = Vec::new();
                out.push(f.ty.clone());
                proof {
                    assert(out.deep_view() =~= seq![f.ty@]);
                }
                out
            },
        };
        let ghost rawv = raw.deep_view();
        let mut out: Vec<String> = Vec::new();
        let mut k: usize = raw.len();
        proof {
            assert(rawv.skip(rawv.len() as int) =~= Seq::<Seq<char>>::empty());
        }
        while k > 0
            invariant
                k <= raw@.len(),
                rawv == raw.deep_view(),
                out.deep_view() == spec_sort_dedup(rawv.skip(k as int)),
            decreases k,
        {
            k -= 1;
            insert_sorted(&mut out, raw[k].clone());
            proof {
                assert(rawv.skip(k as int).drop_first() =~= rawv.skip(k + 1));
                assert(rawv.skip(k as int)[0] == rawv[k as int]);
            }
        }
        proof {
            assert(rawv.skip(0) =~= rawv);
        }
        out
    }
}

/// A definition's dependency list is canonical: strictly sorted,
/// duplicate-free, and holding exactly the type names the definition's
/// layout mentions.
pub proof fn lemma_dependencies_canonical(d: SpecDefinition)
    ensures
        spec_strictly_sorted(spec_sort_dedup(spec_definition_deps(d))),
        forall|p: int, q: int|
            0 <= p < q < spec_sort_dedup(spec_definition_deps(d)).len()
                ==> spec_sort_dedup(spec_definition_deps(d))[p] != spec_sort_dedup(
                spec_definition_deps(d),
            )[q],
        forall|e: Seq<char>|
            spec_sort_dedup(spec_definition_deps(d)).contains(e) <==> spec_definition_deps(
                d,
            ).contains(e),
{
    lemma_sort_dedup_props(spec_definition_deps(d));
    let r = spec_sort_dedup(spec_definition_deps(d));
    assert forall|p: int, q: int| 0 <= p < q < r.len() implies r[p] != r[q] by {
        assert(lex_lt(r[p], r[q]));
        lemma_lex_irrefl(r[p], 0);
    }
}

/// Computing a definition's dependencies is idempotent: the canonical list
/// depends on the definition alone, so two computations agree, and the
/// common result is sorted and free of duplicates.
pub proof fn lemma_dependencies_repeatable(
    d: SpecDefinition,
    r1: Seq<Seq<char>>,
    r2: Seq<Seq<char>>,
)
    requires
        r1 == spec_sort_dedup(spec_definition_deps(d)),
        r2 == spec_sort_dedup(spec_definition_deps(d)),
    ensures
        r1 == r2,
        spec_strictly_sorted(r1),
        forall|p: int, q: int| 0 <= p < q < r1.len() ==> r1[p] != r1[q],
{
    lemma_dependencies_canonical(d);
}

/// An enum definition never contributes dependencies.
pub proof fn lemma_enum_dependencies_empty(en: crate::ast::SpecEnum)
    ensures
        spec_sort_dedup(spec_definition_deps(SpecDefinition::Enum(en))) == Seq::<Seq<char>>::empty(),
{
    assert(spec_definition_deps(SpecDefinition::Enum(en)) =~= Seq::<Seq<char>>::empty());
}

/// A case whose body is a bare reference to a type and a case whose body is
/// a single field of that type contribute the same single dependency.
pub proof fn lemma_case_forms_agree(left: Seq<char>, f: SpecField)
    ensures
        spec_case_deps(SpecCase { left, right: SpecCaseBody::ReferenceToType(f.ty) })
            == spec_case_deps(SpecCase { left, right: SpecCaseBody::Fields(seq![f]) }),
{
    assert(seq![f].drop_last() =~= Seq::<SpecField>::empty());
    assert(spec_field_list_deps(Seq::<SpecField>::empty()) == Seq::<Seq<char>>::empty());
    assert(seq![f].last() == f);
    assert(spec_field_list_deps(seq![f]) =~= seq![f.ty]);
}

} // verus!
