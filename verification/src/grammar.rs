//! The grammar of the presentation language, stated as deterministic
//! parsing functions over character sequences.
//!
//! Each `spec_*` function is the mathematical meaning of one production: it
//! takes the input and a start position and yields the parsed node together
//! with the position just past the consumed text, or nothing when the
//! production does not match. Alternatives are ordered and committed exactly
//! as the executable parser tries them, so each production has one defined
//! outcome on every input.
use vstd::prelude::*;

use crate::ast::SpecCase;
use crate::ast::SpecCaseBody;
use crate::ast::SpecDefinition;
use crate::ast::SpecEnum;
use crate::ast::SpecEnumItem;
use crate::ast::SpecField;
use crate::ast::SpecFieldOrSelect;
use crate::ast::SpecRange;
use crate::ast::SpecSelect;
use crate::ast::SpecStruct;
use crate::text::lemma_alnum_run_end;
use crate::text::lemma_digit_end;
use crate::text::lemma_name_run_end;
use crate::text::lemma_space_end;
use crate::text::lemma_type_run_end;
use crate::text::lemma_until_end;
use crate::text::spec_alnum_run_end;
use crate::text::spec_digit_end;
use crate::text::spec_digits_value;
use crate::text::spec_name_run_end;
use crate::text::spec_space_end;
use crate::text::spec_tag;
use crate::text::spec_type_run_end;
use crate::text::spec_until_end;

verus! {

/// A type reference: `optional<INNER>` (optional set, `INNER` captured), or a
/// bare run of type characters. Yields the referenced name, the optional
/// flag, and the next position.
pub open spec fn spec_optional_type(s: Seq<char>, i: int) -> Option<(Seq<char>, bool, int)> {
    if spec_tag(s, i, "optional"@) {
        let i1 = i + "optional"@.len();
        if i1 < s.len() && s[i1] == '<' {
            let e = spec_type_run_end(s, i1 + 1);
            if e > i1 + 1 && e < s.len() && s[e] == '>' {
                Some((s.subrange(i1 + 1, e), true, e + 1))
            } else {
                None
            }
        } else {
            None
        }
    } else {
        None
    }
}

/// A type reference, trying the `optional<...>` form before a bare name.
pub open spec fn spec_type_ref(s: Seq<char>, i: int) -> Option<(Seq<char>, bool, int)> {
    let wrapped = spec_optional_type(s, i);
    if wrapped is Some {
        wrapped
    } else {
        let e = spec_type_run_end(s, i);
        if e > i {
            Some((s.subrange(i, e), false, e))
        } else {
            None
        }
    }
}

/// The body of a `[...]` length annotation, starting just past the opening
/// bracket: a digit run whose value fits in `usize` gives `Exact` and commits
/// (a following character other than `]` is a failure); otherwise any
/// non-empty text up to `]` gives `Prose`.
pub open spec fn spec_bracket_body(s: Seq<char>, i: int) -> Option<(SpecRange, int)> {
    let d = spec_digit_end(s, i);
    if d > i && spec_digits_value(s.subrange(i, d)) <= usize::MAX {
        if d < s.len() && s[d] == ']' {
            Some((SpecRange::Exact(spec_digits_value(s.subrange(i, d)) as usize), d + 1))
        } else {
            None
        }
    } else {
        let u = spec_until_end(s, i, ']');
        if u > i && u < s.len() {
            Some((SpecRange::Prose(s.subrange(i, u)), u + 1))
        } else {
            None
        }
    }
}

/// The `min..max` form inside a `<...>` annotation: two digit runs whose
/// values fit in `usize`, separated by `..`. Yields the bounds and the
/// position just past the second run.
pub open spec fn spec_fixed(s: Seq<char>, i: int) -> Option<(usize, usize, int)> {
    let d1 = spec_digit_end(s, i);
    if d1 > i && spec_digits_value(s.subrange(i, d1)) <= usize::MAX {
        if d1 + 1 < s.len() && s[d1] == '.' && s[d1 + 1] == '.' {
            let d2 = spec_digit_end(s, d1 + 2);
            if d2 > d1 + 2 && spec_digits_value(s.subrange(d1 + 2, d2)) <= usize::MAX {
                Some(
                    (
                        spec_digits_value(s.subrange(i, d1)) as usize,
                        spec_digits_value(s.subrange(d1 + 2, d2)) as usize,
                        d2,
                    ),
                )
            } else {
                None
            }
        } else {
            None
        }
    } else {
        None
    }
}

/// The body of a `<...>` length annotation, starting just past the opening
/// angle bracket: `min..max` gives `MinMax` and commits, else a literal `V`
/// gives `Variable`; either must be followed by `>`.
pub open spec fn spec_angle_body(s: Seq<char>, i: int) -> Option<(SpecRange, int)> {
    match spec_fixed(s, i) {
        Some((lo, hi, j)) => {
            if j < s.len() && s[j] == '>' {
                Some((SpecRange::MinMax(lo, hi), j + 1))
            } else {
                None
            }
        },
        None => {
            if i + 1 < s.len() && s[i] == 'V' && s[i + 1] == '>' {
                Some((SpecRange::Variable, i + 2))
            } else {
                None
            }
        },
    }
}

/// The optional length annotation of a field: a `[...]` or `<...>` group, or
/// nothing. A group that opens but does not parse consumes nothing.
pub open spec fn spec_range_suffix(s: Seq<char>, i: int) -> (Option<SpecRange>, int) {
    if i < s.len() && s[i] == '[' {
        match spec_bracket_body(s, i + 1) {
            Some((r, j)) => (Some(r), j),
            None => (None, i),
        }
    } else if i < s.len() && s[i] == '<' {
        match spec_angle_body(s, i + 1) {
            Some((r, j)) => (Some(r), j),
            None => (None, i),
        }
    } else {
        (None, i)
    }
}

/// The optional default of a field: `= TEXT` where `TEXT` is any non-empty
/// text up to the terminating semicolon, which is not consumed.
pub open spec fn spec_default_suffix(s: Seq<char>, i: int) -> (Option<Seq<char>>, int) {
    let w = spec_space_end(s, i);
    if w < s.len() && s[w] == '=' {
        let w2 = spec_space_end(s, w + 1);
        let u = spec_until_end(s, w2, ';');
        if u > w2 && u < s.len() {
            (Some(s.subrange(w2, u)), u)
        } else {
            (None, i)
        }
    } else {
        (None, i)
    }
}

/// A field declaration: type reference, whitespace, field name, optional
/// length annotation, optional default, semicolon.
pub open spec fn spec_field(s: Seq<char>, i: int) -> Option<(SpecField, int)> {
    match spec_type_ref(s, i) {
        None => None,
        Some((ty, opt, j)) => {
            let w = spec_space_end(s, j);
            if w > j {
                let ne = spec_name_run_end(s, w);
                if ne > w {
                    let (range, k) = spec_range_suffix(s, ne);
                    let (dflt, m) = spec_default_suffix(s, k);
                    if m < s.len() && s[m] == ';' {
                        Some(
                            (
                                SpecField {
                                    ty,
                                    name: s.subrange(w, ne),
                                    range,
                                    optional: opt,
                                    default: dflt,
                                },
                                m + 1,
                            ),
                        )
                    } else {
                        None
                    }
                } else {
                    None
                }
            } else {
                None
            }
        },
    }
}

pub proof fn lemma_optional_type_bounds(s: Seq<char>, i: int)
    requires
        0 <= i <= s.len(),
    ensures
        match spec_optional_type(s, i) {
            Some((ty, opt, j)) => i < j <= s.len(),
            None => true,
        },
{
    reveal_strlit("optional");
    if spec_tag(s, i, "optional"@) {
        let i1 = i + "optional"@.len();
        if i1 < s.len() && s[i1] == '<' {
            lemma_type_run_end(s, i1 + 1);
        }
    }
}

pub proof fn lemma_type_ref_bounds(s: Seq<char>, i: int)
    requires
        0 <= i <= s.len(),
    ensures
        match spec_type_ref(s, i) {
            Some((ty, opt, j)) => i < j <= s.len(),
            None => true,
        },
{
    lemma_optional_type_bounds(s, i);
    lemma_type_run_end(s, i);
}

pub proof fn lemma_bracket_body_bounds(s: Seq<char>, i: int)
    requires
        0 <= i <= s.len(),
    ensures
        match spec_bracket_body(s, i) {
            Some((r, j)) => i < j <= s.len(),
            None => true,
        },
{
    lemma_digit_end(s, i);
    lemma_until_end(s, i, ']');
}

pub proof fn lemma_fixed_bounds(s: Seq<char>, i: int)
    requires
        0 <= i <= s.len(),
    ensures
        match spec_fixed(s, i) {
            Some((lo, hi, j)) => i < j <= s.len(),
            None => true,
        },
{
    lemma_digit_end(s, i);
    let d1 = spec_digit_end(s, i);
    if d1 + 2 <= s.len() {
        lemma_digit_end(s, d1 + 2);
    }
}

pub proof fn lemma_angle_body_bounds(s: Seq<char>, i: int)
    requires
        0 <= i <= s.len(),
    ensures
        match spec_angle_body(s, i) {
            Some((r, j)) => i < j <= s.len(),
            None => true,
        },
{
    lemma_fixed_bounds(s, i);
}

pub proof fn lemma_range_suffix_bounds(s: Seq<char>, i: int)
    requires
        0 <= i <= s.len(),
    ensures
        i <= spec_range_suffix(s, i).1 <= s.len(),
{
    if i < s.len() && s[i] == '[' {
        lemma_bracket_body_bounds(s, i + 1);
    } else if i < s.len() && s[i] == '<' {
        lemma_angle_body_bounds(s, i + 1);
    }
}

pub proof fn lemma_default_suffix_bounds(s: Seq<char>, i: int)
    requires
        0 <= i <= s.len(),
    ensures
        i <= spec_default_suffix(s, i).1 <= s.len(),
{
    lemma_space_end(s, i);
    let w = spec_space_end(s, i);
    if w < s.len() && s[w] == '=' {
        lemma_space_end(s, w + 1);
        let w2 = spec_space_end(s, w + 1);
        lemma_until_end(s, w2, ';');
    }
}

pub proof fn lemma_field_bounds(s: Seq<char>, i: int)
    requires
        0 <= i <= s.len(),
    ensures
        match spec_field(s, i) {
            Some((f, j)) => i < j <= s.len(),
            None => true,
        },
{
    lemma_type_ref_bounds(s, i);
    match spec_type_ref(s, i) {
        None => {},
        Some((ty, opt, j)) => {
            lemma_space_end(s, j);
            let w = spec_space_end(s, j);
            if w > j {
                lemma_name_run_end(s, w);
                let ne = spec_name_run_end(s, w);
                if ne > w {
                    lemma_range_suffix_bounds(s, ne);
                    let k = spec_range_suffix(s, ne).1;
                    lemma_default_suffix_bounds(s, k);
                }
            }
        },
    }
}

/// Zero or more field declarations, each surrounded by optional whitespace.
/// Stops before the first text that is not a field; consumes nothing after
/// the last field's trailing whitespace.
pub open spec fn spec_case_fields(s: Seq<char>, i: int) -> (Seq<SpecField>, int)
    decreases s.len() - i,
    when 0 <= i <= s.len()
{
    let w = spec_space_end(s, i);
    proof {
        lemma_space_end(s, i);
        lemma_field_bounds(s, w);
    }
    match spec_field(s, w) {
        None => (seq![], i),
        Some((f, j)) => {
            proof {
                lemma_space_end(s, j);
            }
            let w2 = spec_space_end(s, j);
            let (rest, k) = spec_case_fields(s, w2);
            (seq![f] + rest, k)
        },
    }
}

pub proof fn lemma_case_fields_bounds(s: Seq<char>, i: int)
    requires
        0 <= i <= s.len(),
    ensures
        i <= spec_case_fields(s, i).1 <= s.len(),
    decreases s.len() - i,
{
    lemma_space_end(s, i);
    let w = spec_space_end(s, i);
    lemma_field_bounds(s, w);
    match spec_field(s, w) {
        None => {},
        Some((f, j)) => {
            lemma_space_end(s, j);
            let w2 = spec_space_end(s, j);
            lemma_case_fields_bounds(s, w2);
        },
    }
}

/// A case body written exactly `struct{};`, surrounded by optional
/// whitespace. Yields the next position.
pub open spec fn spec_empty_body(s: Seq<char>, i: int) -> Option<int> {
    let w = spec_space_end(s, i);
    if spec_tag(s, w, "struct{};"@) {
        Some(spec_space_end(s, w + "struct{};"@.len()))
    } else {
        None
    }
}

/// A case body that is a single bare type name: an ASCII alphanumeric run
/// followed by a semicolon, surrounded by optional whitespace.
pub open spec fn spec_reference_body(s: Seq<char>, i: int) -> Option<(Seq<char>, int)> {
    let w = spec_space_end(s, i);
    let r = spec_alnum_run_end(s, w);
    if r > w && r < s.len() && s[r] == ';' {
        Some((s.subrange(w, r), spec_space_end(s, r + 1)))
    } else {
        None
    }
}

/// The body of a case, trying the alternatives in their fixed order: the
/// literal `struct{};`, then a bare type reference, then a (possibly empty)
/// field list.
pub open spec fn spec_case_body(s: Seq<char>, i: int) -> (SpecCaseBody, int) {
    match spec_empty_body(s, i) {
        Some(j) => (SpecCaseBody::Empty, j),
        None => match spec_reference_body(s, i) {
            Some((t, j)) => (SpecCaseBody::ReferenceToType(t), j),
            None => {
                let (fs, j) = spec_case_fields(s, i);
                (SpecCaseBody::Fields(fs), j)
            },
        },
    }
}

pub proof fn lemma_case_body_bounds(s: Seq<char>, i: int)
    requires
        0 <= i <= s.len(),
    ensures
        i <= spec_case_body(s, i).1 <= s.len(),
{
    reveal_strlit("struct{};");
    lemma_space_end(s, i);
    let w = spec_space_end(s, i);
    if spec_tag(s, w, "struct{};"@) {
        lemma_space_end(s, w + "struct{};"@.len());
    }
    lemma_alnum_run_end(s, w);
    let r = spec_alnum_run_end(s, w);
    if r > w && r < s.len() && s[r] == ';' {
        lemma_space_end(s, r + 1);
    }
    lemma_case_fields_bounds(s, i);
}

/// One `case LABEL : BODY` alternative of a select.
pub open spec fn spec_case(s: Seq<char>, i: int) -> Option<(SpecCase, int)> {
    if spec_tag(s, i, "case"@) {
        let i1 = i + "case"@.len();
        let w = spec_space_end(s, i1);
        if w > i1 {
            let u = spec_until_end(s, w, ':');
            if u > w && u < s.len() {
                let (body, j) = spec_case_body(s, u + 1);
                Some((SpecCase { left: s.subrange(w, u), right: body }, j))
            } else {
                None
            }
        } else {
            None
        }
    } else {
        None
    }
}

pub proof fn lemma_case_bounds(s: Seq<char>, i: int)
    requires
        0 <= i <= s.len(),
    ensures
        match spec_case(s, i) {
            Some((c, j)) => i < j <= s.len(),
            None => true,
        },
{
    reveal_strlit("case");
    if spec_tag(s, i, "case"@) {
        let i1 = i + "case"@.len();
        lemma_space_end(s, i1);
        let w = spec_space_end(s, i1);
        if w > i1 {
            lemma_until_end(s, w, ':');
            let u = spec_until_end(s, w, ':');
            if u > w && u < s.len() {
                lemma_case_body_bounds(s, u + 1);
            }
        }
    }
}

/// Zero or more cases, each surrounded by optional whitespace.
pub open spec fn spec_cases(s: Seq<char>, i: int) -> (Seq<SpecCase>, int)
    decreases s.len() - i,
    when 0 <= i <= s.len()
{
    let w = spec_space_end(s, i);
    proof {
        lemma_space_end(s, i);
        lemma_case_bounds(s, w);
    }
    match spec_case(s, w) {
        None => (seq![], i),
        Some((c, j)) => {
            proof {
                lemma_space_end(s, j);
            }
            let w2 = spec_space_end(s, j);
            let (rest, k) = spec_cases(s, w2);
            (seq![c] + rest, k)
        },
    }
}

pub proof fn lemma_cases_bounds(s: Seq<char>, i: int)
    requires
        0 <= i <= s.len(),
    ensures
        i <= spec_cases(s, i).1 <= s.len(),
    decreases s.len() - i,
{
    lemma_space_end(s, i);
    let w = spec_space_end(s, i);
    lemma_case_bounds(s, w);
    match spec_case(s, w) {
        None => {},
        Some((c, j)) => {
            lemma_space_end(s, j);
            let w2 = spec_space_end(s, j);
            lemma_cases_bounds(s, w2);
        },
    }
}

/// A `select (DISCRIMINANT) { case* } ;` union. The discriminant is any
/// non-empty text up to the closing parenthesis.
pub open spec fn spec_select(s: Seq<char>, i: int) -> Option<(SpecSelect, int)> {
    if spec_tag(s, i, "select"@) {
        let i1 = i + "select"@.len();
        let w = spec_space_end(s, i1);
        if w > i1 && w < s.len() && s[w] == '(' {
            let a = spec_space_end(s, w + 1);
            let u = spec_until_end(s, a, ')');
            if u > a && u < s.len() {
                let b = spec_space_end(s, u + 1);
                if b < s.len() && s[b] == '{' {
                    let (cases, d) = spec_cases(s, b + 1);
                    if d < s.len() && s[d] == '}' {
                        let f = spec_space_end(s, d + 1);
                        if f < s.len() && s[f] == ';' {
                            Some((SpecSelect { over: s.subrange(a, u), cases }, f + 1))
                        } else {
                            None
                        }
                    } else {
                        None
                    }
                } else {
                    None
                }
            } else {
                None
            }
        } else {
            None
        }
    } else {
        None
    }
}

pub proof fn lemma_select_bounds(s: Seq<char>, i: int)
    requires
        0 <= i <= s.len(),
    ensures
        match spec_select(s, i) {
            Some((sel, j)) => i < j <= s.len(),
            None => true,
        },
{
    reveal_strlit("select");
    if spec_tag(s, i, "select"@) {
        let i1 = i + "select"@.len();
        lemma_space_end(s, i1);
        let w = spec_space_end(s, i1);
        if w > i1 && w < s.len() && s[w] == '(' {
            lemma_space_end(s, w + 1);
            let a = spec_space_end(s, w + 1);
            lemma_until_end(s, a, ')');
            let u = spec_until_end(s, a, ')');
            if u > a && u < s.len() {
                lemma_space_end(s, u + 1);
                let b = spec_space_end(s, u + 1);
                if b < s.len() && s[b] == '{' {
                    lemma_cases_bounds(s, b + 1);
                    let d = spec_cases(s, b + 1).1;
                    if d < s.len() && s[d] == '}' {
                        lemma_space_end(s, d + 1);
                    }
                }
            }
        }
    }
}

/// One item of a struct body: a field, or else a select.
pub open spec fn spec_field_or_select(s: Seq<char>, i: int) -> Option<(SpecFieldOrSelect, int)> {
    match spec_field(s, i) {
        Some((f, j)) => Some((SpecFieldOrSelect::Field(f), j)),
        None => match spec_select(s, i) {
            Some((sel, j)) => Some((SpecFieldOrSelect::Select(sel), j)),
            None => None,
        },
    }
}

pub proof fn lemma_field_or_select_bounds(s: Seq<char>, i: int)
    requires
        0 <= i <= s.len(),
    ensures
        match spec_field_or_select(s, i) {
            Some((x, j)) => i < j <= s.len(),
            None => true,
        },
{
    lemma_field_bounds(s, i);
    lemma_select_bounds(s, i);
}

/// Zero or more struct items, each surrounded by optional whitespace.
pub open spec fn spec_struct_items(s: Seq<char>, i: int) -> (Seq<SpecFieldOrSelect>, int)
    decreases s.len() - i,
    when 0 <= i <= s.len()
{
    let w = spec_space_end(s, i);
    proof {
        lemma_space_end(s, i);
        lemma_field_or_select_bounds(s, w);
    }
    match spec_field_or_select(s, w) {
        None => (seq![], i),
        Some((x, j)) => {
            proof {
                lemma_space_end(s, j);
            }
            let w2 = spec_space_end(s, j);
            let (rest, k) = spec_struct_items(s, w2);
            (seq![x] + rest, k)
        },
    }
}

pub proof fn lemma_struct_items_bounds(s: Seq<char>, i: int)
    requires
        0 <= i <= s.len(),
    ensures
        i <= spec_struct_items(s, i).1 <= s.len(),
    decreases s.len() - i,
{
    lemma_space_end(s, i);
    let w = spec_space_end(s, i);
    lemma_field_or_select_bounds(s, w);
    match spec_field_or_select(s, w) {
        None => {},
        Some((x, j)) => {
            lemma_space_end(s, j);
            let w2 = spec_space_end(s, j);
            lemma_struct_items_bounds(s, w2);
        },
    }
}

/// A `struct { item* } NAME ;` definition. The name is any non-empty text up
/// to the final semicolon.
pub open spec fn spec_struct(s: Seq<char>, i: int) -> Option<(SpecStruct, int)> {
    if spec_tag(s, i, "struct"@) {
        let i1 = i + "struct"@.len();
        let w = spec_space_end(s, i1);
        if w > i1 && w < s.len() && s[w] == '{' {
            let (items, d) = spec_struct_items(s, w + 1);
            if d < s.len() && s[d] == '}' {
                let f = spec_space_end(s, d + 1);
                let u = spec_until_end(s, f, ';');
                if u > f && u < s.len() {
                    Some((SpecStruct { name: s.subrange(f, u), items }, u + 1))
                } else {
                    None
                }
            } else {
                None
            }
        } else {
            None
        }
    } else {
        None
    }
}

pub proof fn lemma_struct_bounds(s: Seq<char>, i: int)
    requires
        0 <= i <= s.len(),
    ensures
        match spec_struct(s, i) {
            Some((st, j)) => i < j <= s.len(),
            None => true,
        },
{
    reveal_strlit("struct");
    if spec_tag(s, i, "struct"@) {
        let i1 = i + "struct"@.len();
        lemma_space_end(s, i1);
        let w = spec_space_end(s, i1);
        if w > i1 && w < s.len() && s[w] == '{' {
            lemma_struct_items_bounds(s, w + 1);
            let d = spec_struct_items(s, w + 1).1;
            if d < s.len() && s[d] == '}' {
                lemma_space_end(s, d + 1);
                let f = spec_space_end(s, d + 1);
                lemma_until_end(s, f, ';');
            }
        }
    }
}

/// A named enumerator `NAME(digits)`.
pub open spec fn spec_enum_item_value(s: Seq<char>, i: int) -> Option<(SpecEnumItem, int)> {
    let n = spec_name_run_end(s, i);
    if n > i && n < s.len() && s[n] == '(' {
        let d = spec_digit_end(s, n + 1);
        if d > n + 1 && d < s.len() && s[d] == ')' {
            Some((SpecEnumItem::Value(s.subrange(i, n), s.subrange(n + 1, d)), d + 1))
        } else {
            None
        }
    } else {
        None
    }
}

/// An unnamed sentinel enumerator `(digits)`.
pub open spec fn spec_enum_item_max(s: Seq<char>, i: int) -> Option<(SpecEnumItem, int)> {
    if i < s.len() && s[i] == '(' {
        let d = spec_digit_end(s, i + 1);
        if d > i + 1 && d < s.len() && s[d] == ')' {
            Some((SpecEnumItem::Max(s.subrange(i + 1, d)), d + 1))
        } else {
            None
        }
    } else {
        None
    }
}

/// One enumerator, trying the named form before the sentinel form.
pub open spec fn spec_enum_item(s: Seq<char>, i: int) -> Option<(SpecEnumItem, int)> {
    let v = spec_enum_item_value(s, i);
    if v is Some {
        v
    } else {
        spec_enum_item_max(s, i)
    }
}

pub proof fn lemma_enum_item_bounds(s: Seq<char>, i: int)
    requires
        0 <= i <= s.len(),
    ensures
        match spec_enum_item(s, i) {
            Some((it, j)) => i < j <= s.len(),
            None => true,
        },
{
    lemma_name_run_end(s, i);
    let n = spec_name_run_end(s, i);
    if n + 1 <= s.len() {
        lemma_digit_end(s, n + 1);
    }
    if i + 1 <= s.len() {
        lemma_digit_end(s, i + 1);
    }
}

/// The enumerators after the first: zero or more of `, enum-item`, each item
/// surrounded by optional whitespace. Stops (consuming neither the comma nor
/// the whitespace) before a comma that is not followed by an enumerator.
pub open spec fn spec_enum_items_more(s: Seq<char>, i: int) -> (Seq<SpecEnumItem>, int)
    decreases s.len() - i,
    when 0 <= i <= s.len()
{
    if i < s.len() && s[i] == ',' {
        let w = spec_space_end(s, i + 1);
        proof {
            lemma_space_end(s, i + 1);
            lemma_enum_item_bounds(s, w);
        }
        match spec_enum_item(s, w) {
            None => (seq![], i),
            Some((it, j)) => {
                proof {
                    lemma_space_end(s, j);
                }
                let j2 = spec_space_end(s, j);
                let (rest, k) = spec_enum_items_more(s, j2);
                (seq![it] + rest, k)
            },
        }
    } else {
        (seq![], i)
    }
}

pub proof fn lemma_enum_items_more_bounds(s: Seq<char>, i: int)
    requires
        0 <= i <= s.len(),
    ensures
        i <= spec_enum_items_more(s, i).1 <= s.len(),
    decreases s.len() - i,
{
    if i < s.len() && s[i] == ',' {
        lemma_space_end(s, i + 1);
        let w = spec_space_end(s, i + 1);
        lemma_enum_item_bounds(s, w);
        match spec_enum_item(s, w) {
            None => {},
            Some((it, j)) => {
                lemma_space_end(s, j);
                let j2 = spec_space_end(s, j);
                lemma_enum_items_more_bounds(s, j2);
            },
        }
    }
}

/// The comma-separated, non-empty enumerator list of an enum body.
pub open spec fn spec_enum_items(s: Seq<char>, i: int) -> Option<(Seq<SpecEnumItem>, int)> {
    let w = spec_space_end(s, i);
    match spec_enum_item(s, w) {
        None => None,
        Some((it, j)) => {
            let j2 = spec_space_end(s, j);
            let (rest, k) = spec_enum_items_more(s, j2);
            Some((seq![it] + rest, k))
        },
    }
}

pub proof fn lemma_enum_items_bounds(s: Seq<char>, i: int)
    requires
        0 <= i <= s.len(),
    ensures
        match spec_enum_items(s, i) {
            Some((items, j)) => i <= j <= s.len(),
            None => true,
        },
{
    lemma_space_end(s, i);
    let w = spec_space_end(s, i);
    lemma_enum_item_bounds(s, w);
    match spec_enum_item(s, w) {
        None => {},
        Some((it, j)) => {
            lemma_space_end(s, j);
            let j2 = spec_space_end(s, j);
            lemma_enum_items_more_bounds(s, j2);
        },
    }
}

/// An `enum { item (, item)* } NAME ;` definition.
pub open spec fn spec_enum(s: Seq<char>, i: int) -> Option<(SpecEnum, int)> {
    if spec_tag(s, i, "enum"@) {
        let i1 = i + "enum"@.len();
        let w = spec_space_end(s, i1);
        if w > i1 && w < s.len() && s[w] == '{' {
            match spec_enum_items(s, w + 1) {
                None => None,
                Some((items, d)) => {
                    if d < s.len() && s[d] == '}' {
                        let f = spec_space_end(s, d + 1);
                        let u = spec_until_end(s, f, ';');
                        if u > f && u < s.len() {
                            Some((SpecEnum { name: s.subrange(f, u), items }, u + 1))
                        } else {
                            None
                        }
                    } else {
                        None
                    }
                },
            }
        } else {
            None
        }
    } else {
        None
    }
}

pub proof fn lemma_enum_bounds(s: Seq<char>, i: int)
    requires
        0 <= i <= s.len(),
    ensures
        match spec_enum(s, i) {
            Some((en, j)) => i < j <= s.len(),
            None => true,
        },
{
    reveal_strlit("enum");
    if spec_tag(s, i, "enum"@) {
        let i1 = i + "enum"@.len();
        lemma_space_end(s, i1);
        let w = spec_space_end(s, i1);
        if w > i1 && w < s.len() && s[w] == '{' {
            lemma_enum_items_bounds(s, w + 1);
            match spec_enum_items(s, w + 1) {
                None => {},
                Some((items, d)) => {
                    if d < s.len() && s[d] == '}' {
                        lemma_space_end(s, d + 1);
                        let f = spec_space_end(s, d + 1);
                        lemma_until_end(s, f, ';');
                    }
                },
            }
        }
    }
}

/// One top-level definition, trying the alternatives in their fixed order:
/// a struct, then an enum, then a bare field read as a type alias.
pub open spec fn spec_definition(s: Seq<char>, i: int) -> Option<(SpecDefinition, int)> {
    match spec_struct(s, i) {
        Some((st, j)) => Some((SpecDefinition::Struct(st), j)),
        None => match spec_enum(s, i) {
            Some((en, j)) => Some((SpecDefinition::Enum(en), j)),
            None => match spec_field(s, i) {
                Some((f, j)) => Some((SpecDefinition::Alias(f), j)),
                None => None,
            },
        },
    }
}

pub proof fn lemma_definition_bounds(s: Seq<char>, i: int)
    requires
        0 <= i <= s.len(),
    ensures
        match spec_definition(s, i) {
            Some((d, j)) => i < j <= s.len(),
            None => true,
        },
{
    lemma_struct_bounds(s, i);
    lemma_enum_bounds(s, i);
    lemma_field_bounds(s, i);
}

/// The definitions after the first, separated by whitespace. After any
/// definition the next character must be whitespace: a definition that ends
/// the input, or that is followed directly by more text, is a hard failure
/// (`None`). A whitespace run not followed by a further definition ends the
/// list and is not consumed.
pub open spec fn spec_definitions_more(s: Seq<char>, i: int) -> Option<
    (Seq<SpecDefinition>, int),
>
    decreases s.len() - i,
    when 0 <= i <= s.len()
{
    let w = spec_space_end(s, i);
    proof {
        lemma_space_end(s, i);
        lemma_definition_bounds(s, w);
    }
    if w == i {
        None
    } else {
        match spec_definition(s, w) {
            None => Some((seq![], i)),
            Some((d, j)) => {
                match spec_definitions_more(s, j) {
                    None => None,
                    Some((rest, k)) => Some((seq![d] + rest, k)),
                }
            },
        }
    }
}

pub proof fn lemma_definitions_more_bounds(s: Seq<char>, i: int)
    requires
        0 <= i <= s.len(),
    ensures
        match spec_definitions_more(s, i) {
            Some((ds, j)) => i <= j <= s.len(),
            None => true,
        },
    decreases s.len() - i,
{
    lemma_space_end(s, i);
    let w = spec_space_end(s, i);
    lemma_definition_bounds(s, w);
    if w != i {
        match spec_definition(s, w) {
            None => {},
            Some((d, j)) => {
                lemma_definitions_more_bounds(s, j);
            },
        }
    }
}

/// The whitespace-separated top-level definition list. An empty list is
/// legal and consumes nothing.
pub open spec fn spec_definitions(s: Seq<char>, i: int) -> Option<(Seq<SpecDefinition>, int)> {
    match spec_definition(s, i) {
        None => Some((seq![], i)),
        Some((d, j)) => {
            match spec_definitions_more(s, j) {
                None => None,
                Some((rest, k)) => Some((seq![d] + rest, k)),
            }
        },
    }
}

pub proof fn lemma_definitions_bounds(s: Seq<char>, i: int)
    requires
        0 <= i <= s.len(),
    ensures
        match spec_definitions(s, i) {
            Some((ds, j)) => i <= j <= s.len(),
            None => true,
        },
{
    lemma_definition_bounds(s, i);
    match spec_definition(s, i) {
        None => {},
        Some((d, j)) => {
            lemma_definitions_more_bounds(s, j);
        },
    }
}

/// The whole input: leading whitespace, the definition list, trailing
/// whitespace. Yields the definitions and the first position that was not
/// consumed.
pub open spec fn spec_full(s: Seq<char>) -> Option<(Seq<SpecDefinition>, int)> {
    let i0 = spec_space_end(s, 0);
    match spec_definitions(s, i0) {
        None => None,
        Some((ds, p)) => Some((ds, spec_space_end(s, p))),
    }
}

pub proof fn lemma_full_bounds(s: Seq<char>)
    ensures
        match spec_full(s) {
            Some((ds, p)) => 0 <= p <= s.len(),
            None => true,
        },
{
    lemma_space_end(s, 0);
    let i0 = spec_space_end(s, 0);
    lemma_definitions_bounds(s, i0);
    match spec_definitions(s, i0) {
        None => {},
        Some((ds, p)) => {
            lemma_space_end(s, p);
        },
    }
}

/// The outcome of parsing a whole input: the definition list on success, a
/// flat syntax failure, or the unconsumed suffix when recognized definitions
/// do not cover the input.
pub enum SpecParseOutcome {
    Defs(Seq<SpecDefinition>),
    Syntax,
    Trailing(Seq<char>),
}

/// The meaning of `parse`: the full-input grammar applied to `s`, with any
/// unconsumed remainder turned into a trailing-data failure.
pub open spec fn spec_parse(s: Seq<char>) -> SpecParseOutcome {
    match spec_full(s) {
        None => SpecParseOutcome::Syntax,
        Some((ds, p)) => {
            if p == s.len() {
                SpecParseOutcome::Defs(ds)
            } else {
                SpecParseOutcome::Trailing(s.subrange(p, s.len() as int))
            }
        },
    }
}

/// A parse never yields a silent partial result: it either consumes the
/// entire input and returns one node per top-level definition, or it fails.
/// A trailing-data failure carries exactly the non-empty unconsumed suffix,
/// and a syntax failure is exactly a failure of the full-input grammar.
pub proof fn lemma_parse_all_or_nothing(s: Seq<char>)
    ensures
        spec_parse(s) matches SpecParseOutcome::Defs(ds) ==> spec_full(s) == Some(
            (ds, s.len() as int),
        ),
        spec_parse(s) matches SpecParseOutcome::Trailing(t) ==> t.len() > 0 && (spec_full(
            s,
        ) matches Some((ds, p)) && 0 <= p < s.len() && t == s.subrange(p, s.len() as int)),
        spec_parse(s) is Syntax <==> spec_full(s) is None,
{
    lemma_full_bounds(s);
}

} // verus!
