//! The executable recursive-descent parser. Every function is proved to
//! compute exactly the production of the same name in `grammar`.
use vstd::prelude::*;
use vstd::string::StrSliceExecFns;

use crate::ast::Case;
use crate::ast::CaseBody;
use crate::ast::Definition;
use crate::ast::Enum;
use crate::ast::EnumItem;
use crate::ast::Field;
use crate::ast::FieldOrSelect;
use crate::ast::Range;
use crate::ast::Select;
use crate::ast::SpecRange;
use crate::ast::Struct;
use crate::grammar::spec_angle_body;
use crate::grammar::spec_bracket_body;
use crate::grammar::spec_case;
use crate::grammar::spec_case_body;
use crate::grammar::spec_case_fields;
use crate::grammar::spec_cases;
use crate::grammar::spec_default_suffix;
use crate::grammar::spec_definition;
use crate::grammar::spec_definitions;
use crate::grammar::spec_definitions_more;
use crate::grammar::spec_empty_body;
use crate::grammar::spec_enum;
use crate::grammar::spec_enum_item;
use crate::grammar::spec_enum_items;
use crate::grammar::spec_enum_items_more;
use crate::grammar::spec_field;
use crate::grammar::spec_field_or_select;
use crate::grammar::spec_fixed;
use crate::grammar::spec_full;
use crate::grammar::spec_optional_type;
use crate::grammar::spec_parse;
use crate::grammar::spec_range_suffix;
use crate::grammar::spec_reference_body;
use crate::grammar::spec_select;
use crate::grammar::spec_struct;
use crate::grammar::spec_struct_items;
use crate::grammar::spec_type_ref;
use crate::grammar::SpecParseOutcome;
use crate::text::copy_range;
use crate::text::digits_to_usize;
use crate::text::has_tag;
use crate::text::lemma_digit_end;
use crate::text::scan_alnum;
use crate::text::scan_digits;
use crate::text::scan_name_characters;
use crate::text::scan_space;
use crate::text::scan_type_characters;
use crate::text::scan_until;

verus! {

/// How a parse of a whole input fails: no grammar production matched, or
/// recognized definitions left unconsumed text (carried for diagnostics).
#[derive(Debug)]
pub enum ParseError {
    Syntax,
    Trailing(String),
}

/// The `optional<INNER>` form of a type reference.
fn optional_type(s: &str, i: usize) -> (r: Option<(String, bool, usize)>)
    requires
        i <= s@.len(),
    ensures
        match r {
            Some((ty, opt, j)) => spec_optional_type(s@, i as int) == Some((ty@, opt, j as int))
                && i < j <= s@.len(),
            None => spec_optional_type(s@, i as int) is None,
        },
{
    proof {
        reveal_strlit("optional");
        assert("optional"@.len() == 8);
    }
    let n = s.unicode_len();
    if !has_tag(s, i, "optional") {
        return None;
    }
    let i1 = i + 8;
    if i1 < n && s.get_char(i1) == '<' {
        let e = scan_type_characters(s, i1 + 1);
        if e > i1 + 1 && e < n && s.get_char(e) == '>' {
            Some((copy_range(s, i1 + 1, e), true, e + 1))
        } else {
            None
        }
    } else {
        None
    }
}

/// A type reference: `optional<INNER>`, or a bare run of type characters.
/// Yields the referenced name and whether it was wrapped in `optional`.
pub fn type_ref(s: &str, i: usize) -> (r: Option<(String, bool, usize)>)
    requires
        i <= s@.len(),
    ensures
        match r {
            Some((ty, opt, j)) => spec_type_ref(s@, i as int) == Some((ty@, opt, j as int)) && i
                < j <= s@.len(),
            None => spec_type_ref(s@, i as int) is None,
        },
{
    match optional_type(s, i) {
        Some(r) => Some(r),
        None => {
            let e = scan_type_characters(s, i);
            if e > i {
                Some((copy_range(s, i, e), false, e))
            } else {
                None
            }
        },
    }
}

/// The `min..max` bounds form of a vector length annotation.
pub fn fixed(s: &str, i: usize) -> (r: Option<(Range, usize)>)
    requires
        i <= s@.len(),
    ensures
        r is Some <==> spec_fixed(s@, i as int) is Some,
        r matches Some((rg, j)) ==> spec_fixed(s@, i as int) matches Some((lo, hi, sj)) && rg@
            == SpecRange::MinMax(lo, hi) && j as int == sj && i < j <= s@.len(),
{
    let d1 = scan_digits(s, i);
    if d1 == i {
        return None;
    }
    proof {
        lemma_digit_end(s@, i as int);
    }
    let lo = match digits_to_usize(s, i, d1) {
        Some(v) => v,
        None => {
            return None;
        },
    };
    let n = s.unicode_len();
    if d1 < n && s.get_char(d1) == '.' && d1 + 1 < n && s.get_char(d1 + 1) == '.' {
        let d2 = scan_digits(s, d1 + 2);
        if d2 == d1 + 2 {
            return None;
        }
        proof {
            lemma_digit_end(s@, d1 + 2);
        }
        let hi = match digits_to_usize(s, d1 + 2, d2) {
            Some(v) => v,
            None => {
                return None;
            },
        };
        Some((Range::MinMax(lo, hi), d2))
    } else {
        None
    }
}

/// The `V` form of a vector length annotation: an unbounded vector.
pub fn variable(s: &str, i: usize) -> (r: Option<(Range, usize)>)
    requires
        i <= s@.len(),
    ensures
        match r {
            Some((rg, j)) => i < s@.len() && s@[i as int] == 'V' && rg@ == SpecRange::Variable
                && j == i + 1,
            None => !(i < s@.len() && s@[i as int] == 'V'),
        },
{
    if i < s.unicode_len() && s.get_char(i) == 'V' {
        Some((Range::Variable, i + 1))
    } else {
        None
    }
}

/// The body of a `[...]` annotation, just past the opening bracket.
fn bracket_body(s: &str, i: usize) -> (r: Option<(Range, usize)>)
    requires
        i <= s@.len(),
    ensures
        match r {
            Some((rg, j)) => spec_bracket_body(s@, i as int) == Some((rg@, j as int)) && i < j
                <= s@.len(),
            None => spec_bracket_body(s@, i as int) is None,
        },
{
    let d = scan_digits(s, i);
    let exact = if d > i {
        proof {
            lemma_digit_end(s@, i as int);
        }
        digits_to_usize(s, i, d)
    } else {
        None
    };
    match exact {
        Some(v) => {
            if d < s.unicode_len() && s.get_char(d) == ']' {
                Some((Range::Exact(v), d + 1))
            } else {
                None
            }
        },
        None => {
            let u = scan_until(s, i, ']');
            if u > i && u < s.unicode_len() {
                Some((Range::Prose(copy_range(s, i, u)), u + 1))
            } else {
                None
            }
        },
    }
}

/// The body of a `<...>` annotation, just past the opening angle bracket.
fn angle_body(s: &str, i: usize) -> (r: Option<(Range, usize)>)
    requires
        i <= s@.len(),
    ensures
        match r {
            Some((rg, j)) => spec_angle_body(s@, i as int) == Some((rg@, j as int)) && i < j
                <= s@.len(),
            None => spec_angle_body(s@, i as int) is None,
        },
{
    match fixed(s, i) {
        Some((rg, j)) => {
            if j < s.unicode_len() && s.get_char(j) == '>' {
                Some((rg, j + 1))
            } else {
                None
            }
        },
        None => {
            match variable(s, i) {
                Some((rg, j)) => {
                    if j < s.unicode_len() && s.get_char(j) == '>' {
                        Some((rg, j + 1))
                    } else {
                        None
                    }
                },
                None => None,
            }
        },
    }
}

/// The optional length annotation of a field.
fn range_suffix(s: &str, i: usize) -> (r: (Option<Range>, usize))
    requires
        i <= s@.len(),
    ensures
        ({
            let (sr, sj) = spec_range_suffix(s@, i as int);
            &&& match r.0 {
                Some(rg) => sr == Some(rg@),
                None => sr is None,
            }
            &&& r.1 as int == sj
            &&& i <= r.1 <= s@.len()
        }),
{
    if i < s.unicode_len() && s.get_char(i) == '[' {
        match bracket_body(s, i + 1) {
            Some((rg, j)) => (Some(rg), j),
            None => (None, i),
        }
    } else if i < s.unicode_len() && s.get_char(i) == '<' {
        match angle_body(s, i + 1) {
            Some((rg, j)) => (Some(rg), j),
            None => (None, i),
        }
    } else {
        (None, i)
    }
}

/// The optional `= TEXT` default of a field.
fn default_suffix(s: &str, i: usize) -> (r: (Option<String>, usize))
    requires
        i <= s@.len(),
    ensures
        ({
            let (sd, sj) = spec_default_suffix(s@, i as int);
            &&& match r.0 {
                Some(d) => sd == Some(d@),
                None => sd is None,
            }
            &&& r.1 as int == sj
            &&& i <= r.1 <= s@.len()
        }),
{
    let w = scan_space(s, i);
    if w < s.unicode_len() && s.get_char(w) == '=' {
        let w2 = scan_space(s, w + 1);
        let u = scan_until(s, w2, ';');
        if u > w2 && u < s.unicode_len() {
            (Some(copy_range(s, w2, u)), u)
        } else {
            (None, i)
        }
    } else {
        (None, i)
    }
}

/// A field declaration `TYPE NAME [ANNOTATION] [= DEFAULT] ;`.
pub fn field(s: &str, i: usize) -> (r: Option<(Field, usize)>)
    requires
        i <= s@.len(),
    ensures
        match r {
            Some((f, j)) => spec_field(s@, i as int) == Some((f@, j as int)) && i < j <= s@.len(),
            None => spec_field(s@, i as int) is None,
        },
{
    let (ty, opt, j) = match type_ref(s, i) {
        Some(t) => t,
        None => {
            return None;
        },
    };
    let w = scan_space(s, j);
    if w == j {
        return None;
    }
    let ne = scan_name_characters(s, w);
    if ne == w {
        return None;
    }
    let (range, k) = range_suffix(s, ne);
    let (dflt, m) = default_suffix(s, k);
    if m < s.unicode_len() && s.get_char(m) == ';' {
        let f = Field { ty, name: copy_range(s, w, ne), range, optional: opt, default: dflt };
        Some((f, m + 1))
    } else {
        None
    }
}

/// A `case LABEL : BODY` alternative.
pub fn case(s: &str, i: usize) -> (r: Option<(Case, usize)>)
    requires
        i <= s@.len(),
    ensures
        match r {
            Some((c, j)) => spec_case(s@, i as int) == Some((c@, j as int)) && i < j <= s@.len(),
            None => spec_case(s@, i as int) is None,
        },
{
    proof {
        reveal_strlit("case");
        assert("case"@.len() == 4);
    }
    let n = s.unicode_len();
    if !has_tag(s, i, "case") {
        return None;
    }
    let i1 = i + 4;
    let w = scan_space(s, i1);
    if w == i1 {
        return None;
    }
    let u = scan_until(s, w, ':');
    if u > w && u < n {
        let (body, j) = case_body(s, u + 1);
        let c = Case { left: copy_range(s, w, u), right: body };
        Some((c, j))
    } else {
        None
    }
}

/// The body of a case: `struct{};`, a bare type reference, or a field list.
fn case_body(s: &str, i: usize) -> (r: (CaseBody, usize))
    requires
        i <= s@.len(),
    ensures
        ({
            let (sb, sj) = spec_case_body(s@, i as int);
            r.0@ == sb && r.1 as int == sj && i <= r.1 <= s@.len()
        }),
{
    proof {
        reveal_strlit("struct{};");
        assert("struct{};"@.len() == 9);
    }
    let w = scan_space(s, i);
    let n = s.unicode_len();
    if has_tag(s, w, "struct{};") {
        let j = scan_space(s, w + 9);
        proof {
            assert(spec_empty_body(s@, i as int) == Some(j as int));
        }
        return (CaseBody::Empty, j);
    }
    proof {
        assert(spec_empty_body(s@, i as int) is None);
    }
    let a = scan_alnum(s, w);
    if a > w && a < n && s.get_char(a) == ';' {
        let j = scan_space(s, a + 1);
        proof {
            assert(spec_reference_body(s@, i as int) == Some(
                (s@.subrange(w as int, a as int), j as int),
            ));
        }
        return (CaseBody::ReferenceToType(copy_range(s, w, a)), j);
    }
    proof {
        assert(spec_reference_body(s@, i as int) is None);
    }
    let (fs, j) = case_fields(s, i);
    proof {
        assert(fs@.map_values(|f: Field| f@) == spec_case_fields(s@, i as int).0);
    }
    (CaseBody::Fields(fs), j)
}

/// Zero or more field declarations, each surrounded by optional whitespace.
fn case_fields(s: &str, i: usize) -> (r: (Vec<Field>, usize))
    requires
        i <= s@.len(),
    ensures
        ({
            let (sf, sj) = spec_case_fields(s@, i as int);
            r.0@.map_values(|f: Field| f@) == sf && r.1 as int == sj && i <= r.1 <= s@.len()
        }),
    decreases s@.len() - i,
{
    let w = scan_space(s, i);
    match field(s, w) {
        None => {
            let out: Vec<Field> = Vec::new();
            proof {
                assert(out@.map_values(|f: Field| f@) =~= Seq::<crate::ast::SpecField>::empty());
            }
            (out, i)
        },
        Some((f, j)) => {
            let w2 = scan_space(s, j);
            let (mut rest, k) = case_fields(s, w2);
            let ghost rest_model = rest@.map_values(|f: Field| f@);
            let mut out: Vec<Field> = Vec::new();
            out.push(f);
            out.append(&mut rest);
            proof {
                assert(out@.map_values(|f: Field| f@) =~= seq![f@] + rest_model);
            }
            (out, k)
        },
    }
}

/// Zero or more cases, each surrounded by optional whitespace.
fn cases(s: &str, i: usize) -> (r: (Vec<Case>, usize))
    requires
        i <= s@.len(),
    ensures
        ({
            let (sc, sj) = spec_cases(s@, i as int);
            r.0@.map_values(|c: Case| c@) == sc && r.1 as int == sj && i <= r.1 <= s@.len()
        }),
    decreases s@.len() - i,
{
    let w = scan_space(s, i);
    match case(s, w) {
        None => {
            let out: Vec<Case> = Vec::new();
            proof {
                assert(out@.map_values(|c: Case| c@) =~= Seq::<crate::ast::SpecCase>::empty());
            }
            (out, i)
        },
        Some((c, j)) => {
            let w2 = scan_space(s, j);
            let (mut rest, k) = cases(s, w2);
            let ghost rest_model = rest@.map_values(|c: Case| c@);
            let mut out: Vec<Case> = Vec::new();
            out.push(c);
            out.append(&mut rest);
            proof {
                assert(out@.map_values(|c: Case| c@) =~= seq![c@] + rest_model);
            }
            (out, k)
        },
    }
}

/// A `select (DISCRIMINANT) { case* } ;` union.
pub fn select(s: &str, i: usize) -> (r: Option<(Select, usize)>)
    requires
        i <= s@.len(),
    ensures
        match r {
            Some((sel, j)) => spec_select(s@, i as int) == Some((sel@, j as int)) && i < j
                <= s@.len(),
            None => spec_select(s@, i as int) is None,
        },
{
    proof {
        reveal_strlit("select");
        assert("select"@.len() == 6);
    }
    let n = s.unicode_len();
    if !has_tag(s, i, "select") {
        return None;
    }
    let i1 = i + 6;
    let w = scan_space(s, i1);
    if !(w > i1 && w < n && s.get_char(w) == '(') {
        return None;
    }
    let a = scan_space(s, w + 1);
    let u = scan_until(s, a, ')');
    if !(u > a && u < n) {
        return None;
    }
    let b = scan_space(s, u + 1);
    if !(b < n && s.get_char(b) == '{') {
        return None;
    }
    let (cs, d) = cases(s, b + 1);
    if !(d < n && s.get_char(d) == '}') {
        return None;
    }
    let f = scan_space(s, d + 1);
    if f < n && s.get_char(f) == ';' {
        let sel = Select { over: copy_range(s, a, u), cases: cs };
        Some((sel, f + 1))
    } else {
        None
    }
}

/// One item of a struct body: a field, or else a select.
pub fn field_or_select(s: &str, i: usize) -> (r: Option<(FieldOrSelect, usize)>)
    requires
        i <= s@.len(),
    ensures
        match r {
            Some((x, j)) => spec_field_or_select(s@, i as int) == Some((x@, j as int)) && i < j
                <= s@.len(),
            None => spec_field_or_select(s@, i as int) is None,
        },
{
    match field(s, i) {
        Some((f, j)) => Some((FieldOrSelect::Field(f), j)),
        None => {
            match select(s, i) {
                Some((sel, j)) => Some((FieldOrSelect::Select(sel), j)),
                None => None,
            }
        },
    }
}

/// Zero or more struct items, each surrounded by optional whitespace.
fn struct_items(s: &str, i: usize) -> (r: (Vec<FieldOrSelect>, usize))
    requires
        i <= s@.len(),
    ensures
        ({
            let (si, sj) = spec_struct_items(s@, i as int);
            r.0@.map_values(|x: FieldOrSelect| x@) == si && r.1 as int == sj && i <= r.1 <= s@.len()
        }),
    decreases s@.len() - i,
{
    let w = scan_space(s, i);
    match field_or_select(s, w) {
        None => {
            let out: Vec<FieldOrSelect> = Vec::new();
            proof {
                assert(out@.map_values(|x: FieldOrSelect| x@) =~= Seq::<
                    crate::ast::SpecFieldOrSelect,
                >::empty());
            }
            (out, i)
        },
        Some((x, j)) => {
            let w2 = scan_space(s, j);
            let (mut rest, k) = struct_items(s, w2);
            let ghost rest_model = rest@.map_values(|x: FieldOrSelect| x@);
            let mut out: Vec<FieldOrSelect> = Vec::new();
            out.push(x);
            out.append(&mut rest);
            proof {
                assert(out@.map_values(|x: FieldOrSelect| x@) =~= seq![x@] + rest_model);
            }
            (out, k)
        },
    }
}

/// A `struct { item* } NAME ;` definition.
pub fn struct_def(s: &str, i: usize) -> (r: Option<(Struct, usize)>)
    requires
        i <= s@.len(),
    ensures
        match r {
            Some((st, j)) => spec_struct(s@, i as int) == Some((st@, j as int)) && i < j
                <= s@.len(),
            None => spec_struct(s@, i as int) is None,
        },
{
    proof {
        reveal_strlit("struct");
        assert("struct"@.len() == 6);
    }
    let n = s.unicode_len();
    if !has_tag(s, i, "struct") {
        return None;
    }
    let i1 = i + 6;
    let w = scan_space(s, i1);
    if !(w > i1 && w < n && s.get_char(w) == '{') {
        return None;
    }
    let (items, d) = struct_items(s, w + 1);
    if !(d < n && s.get_char(d) == '}') {
        return None;
    }
    let f = scan_space(s, d + 1);
    let u = scan_until(s, f, ';');
    if u > f && u < n {
        let st = Struct { name: copy_range(s, f, u), items };
        Some((st, u + 1))
    } else {
        None
    }
}

/// One enumerator: `NAME(digits)`, or else the sentinel `(digits)`.
pub fn enum_item(s: &str, i: usize) -> (r: Option<(EnumItem, usize)>)
    requires
        i <= s@.len(),
    ensures
        match r {
            Some((it, j)) => spec_enum_item(s@, i as int) == Some((it@, j as int)) && i < j
                <= s@.len(),
            None => spec_enum_item(s@, i as int) is None,
        },
{
    let n = scan_name_characters(s, i);
    if n > i && n < s.unicode_len() && s.get_char(n) == '(' {
        let d = scan_digits(s, n + 1);
        if d > n + 1 && d < s.unicode_len() && s.get_char(d) == ')' {
            let it = EnumItem::Value(copy_range(s, i, n), copy_range(s, n + 1, d));
            return Some((it, d + 1));
        }
    }
    if i < s.unicode_len() && s.get_char(i) == '(' {
        let d = scan_digits(s, i + 1);
        if d > i + 1 && d < s.unicode_len() && s.get_char(d) == ')' {
            let it = EnumItem::Max(copy_range(s, i + 1, d));
            return Some((it, d + 1));
        }
    }
    None
}

/// The enumerators after the first: zero or more of `, enum-item`.
fn enum_items_more(s: &str, i: usize) -> (r: (Vec<EnumItem>, usize))
    requires
        i <= s@.len(),
    ensures
        ({
            let (si, sj) = spec_enum_items_more(s@, i as int);
            r.0@.map_values(|x: EnumItem| x@) == si && r.1 as int == sj && i <= r.1 <= s@.len()
        }),
    decreases s@.len() - i,
{
    if i < s.unicode_len() && s.get_char(i) == ',' {
        let w = scan_space(s, i + 1);
        match enum_item(s, w) {
            None => {
                let out: Vec<EnumItem> = Vec::new();
                proof {
                    assert(out@.map_values(|x: EnumItem| x@) =~= Seq::<
                        crate::ast::SpecEnumItem,
                    >::empty());
                }
                (out, i)
            },
            Some((it, j)) => {
                let j2 = scan_space(s, j);
                let (mut rest, k) = enum_items_more(s, j2);
                let ghost rest_model = rest@.map_values(|x: EnumItem| x@);
                let mut out: Vec<EnumItem> = Vec::new();
                out.push(it);
                out.append(&mut rest);
                proof {
                    assert(out@.map_values(|x: EnumItem| x@) =~= seq![it@] + rest_model);
                }
                (out, k)
            },
        }
    } else {
        let out: Vec<EnumItem> = Vec::new();
        proof {
            assert(out@.map_values(|x: EnumItem| x@) =~= Seq::<crate::ast::SpecEnumItem>::empty());
        }
        (out, i)
    }
}

/// The comma-separated, non-empty enumerator list of an enum body.
fn enum_items(s: &str, i: usize) -> (r: Option<(Vec<EnumItem>, usize)>)
    requires
        i <= s@.len(),
    ensures
        match r {
            Some((items, j)) => spec_enum_items(s@, i as int) matches Some((si, sj))
                && items@.map_values(|x: EnumItem| x@) == si && j as int == sj && i <= j
                <= s@.len(),
            None => spec_enum_items(s@, i as int) is None,
        },
{
    let w = scan_space(s, i);
    match enum_item(s, w) {
        None => None,
        Some((it, j)) => {
            let j2 = scan_space(s, j);
            let (mut rest, k) = enum_items_more(s, j2);
            let ghost rest_model = rest@.map_values(|x: EnumItem| x@);
            let mut out: Vec<EnumItem> = Vec::new();
            out.push(it);
            out.append(&mut rest);
            proof {
                assert(out@.map_values(|x: EnumItem| x@) =~= seq![it@] + rest_model);
            }
            Some((out, k))
        },
    }
}

/// An `enum { item (, item)* } NAME ;` definition.
pub fn enum_def(s: &str, i: usize) -> (r: Option<(Enum, usize)>)
    requires
        i <= s@.len(),
    ensures
        match r {
            Some((en, j)) => spec_enum(s@, i as int) == Some((en@, j as int)) && i < j <= s@.len(),
            None => spec_enum(s@, i as int) is None,
        },
{
    proof {
        reveal_strlit("enum");
        assert("enum"@.len() == 4);
    }
    let n = s.unicode_len();
    if !has_tag(s, i, "enum") {
        return None;
    }
    let i1 = i + 4;
    let w = scan_space(s, i1);
    if !(w > i1 && w < n && s.get_char(w) == '{') {
        return None;
    }
    match enum_items(s, w + 1) {
        None => None,
        Some((items, d)) => {
            if !(d < n && s.get_char(d) == '}') {
                return None;
            }
            let f = scan_space(s, d + 1);
            let u = scan_until(s, f, ';');
            if u > f && u < n {
                let en = Enum { name: copy_range(s, f, u), items };
                Some((en, u + 1))
            } else {
                None
            }
        },
    }
}

/// One top-level definition: a struct, an enum, or a type alias.
pub fn definition(s: &str, i: usize) -> (r: Option<(Definition, usize)>)
    requires
        i <= s@.len(),
    ensures
        match r {
            Some((d, j)) => spec_definition(s@, i as int) == Some((d@, j as int)) && i < j
                <= s@.len(),
            None => spec_definition(s@, i as int) is None,
        },
{
    match struct_def(s, i) {
        Some((st, j)) => Some((Definition::Struct(st), j)),
        None => {
            match enum_def(s, i) {
                Some((en, j)) => Some((Definition::Enum(en), j)),
                None => {
                    match field(s, i) {
                        Some((f, j)) => Some((Definition::Alias(f), j)),
                        None => None,
                    }
                },
            }
        },
    }
}

/// The definitions after the first, separated by mandatory whitespace.
fn definitions_more(s: &str, i: usize) -> (r: Option<(Vec<Definition>, usize)>)
    requires
        i <= s@.len(),
    ensures
        match r {
            Some((ds, j)) => spec_definitions_more(s@, i as int) matches Some((sd, sj))
                && ds@.map_values(|d: Definition| d@) == sd && j as int == sj && i <= j
                <= s@.len(),
            None => spec_definitions_more(s@, i as int) is None,
        },
    decreases s@.len() - i,
{
    let w = scan_space(s, i);
    if w == i {
        return None;
    }
    match definition(s, w) {
        None => {
            let out: Vec<Definition> = Vec::new();
            proof {
                assert(out@.map_values(|d: Definition| d@) =~= Seq::<
                    crate::ast::SpecDefinition,
                >::empty());
            }
            Some((out, i))
        },
        Some((d, j)) => {
            match definitions_more(s, j) {
                None => None,
                Some((mut rest, k)) => {
                    let ghost rest_model = rest@.map_values(|d: Definition| d@);
                    let mut out: Vec<Definition> = Vec::new();
                    out.push(d);
                    out.append(&mut rest);
                    proof {
                        assert(out@.map_values(|d: Definition| d@) =~= seq![d@] + rest_model);
                    }
                    Some((out, k))
                },
            }
        },
    }
}

/// The whitespace-separated top-level definition list.
fn definitions(s: &str, i: usize) -> (r: Option<(Vec<Definition>, usize)>)
    requires
        i <= s@.len(),
    ensures
        match r {
            Some((ds, j)) => spec_definitions(s@, i as int) matches Some((sd, sj))
                && ds@.map_values(|d: Definition| d@) == sd && j as int == sj && i <= j
                <= s@.len(),
            None => spec_definitions(s@, i as int) is None,
        },
{
    match definition(s, i) {
        None => {
            let out: Vec<Definition> = Vec::new();
            proof {
                assert(out@.map_values(|d: Definition| d@) =~= Seq::<
                    crate::ast::SpecDefinition,
                >::empty());
            }
            Some((out, i))
        },
        Some((d, j)) => {
            match definitions_more(s, j) {
                None => None,
                Some((mut rest, k)) => {
                    let ghost rest_model = rest@.map_values(|d: Definition| d@);
                    let mut out: Vec<Definition> = Vec::new();
                    out.push(d);
                    out.append(&mut rest);
                    proof {
                        assert(out@.map_values(|d: Definition| d@) =~= seq![d@] + rest_model);
                    }
                    Some((out, k))
                },
            }
        },
    }
}

/// The whole input: leading whitespace, the definition list, trailing
/// whitespace.
fn full(s: &str) -> (r: Option<(Vec<Definition>, usize)>)
    ensures
        match r {
            Some((ds, p)) => spec_full(s@) matches Some((sd, sp)) && ds@.map_values(
                |d: Definition| d@,
            ) == sd && p as int == sp && p <= s@.len(),
            None => spec_full(s@) is None,
        },
{
    let i0 = scan_space(s, 0);
    match definitions(s, i0) {
        None => None,
        Some((ds, p)) => {
            let p2 = scan_space(s, p);
            Some((ds, p2))
        },
    }
}

/// Parse a whole schema text into its top-level definitions.
///
/// The call succeeds exactly when the grammar consumes the entire input; a
/// remainder that begins with recognized definitions is reported as trailing
/// data, carrying the unconsumed suffix, and any other failure is a flat
/// syntax error. No partial result is ever returned.
pub fn parse(input: &str) -> (r: Result<Vec<Definition>, ParseError>)
    ensures
        match r {
            Ok(defs) => spec_parse(input@) == SpecParseOutcome::Defs(
                defs@.map_values(|d: Definition| d@),
            ),
            Err(e) => match e {
                ParseError::Syntax => spec_parse(input@) is Syntax,
                ParseError::Trailing(t) => spec_parse(input@) == SpecParseOutcome::Trailing(t@),
            },
        },
{
    match full(input) {
        None => Err(ParseError::Syntax),
        Some((ds, p)) => {
            let n = input.unicode_len();
            if p == n {
                Ok(ds)
            } else {
                Err(ParseError::Trailing(copy_range(input, p, n)))
            }
        },
    }
}

} // verus!
