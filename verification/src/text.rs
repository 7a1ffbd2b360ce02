//! Character classes and low-level text scanners for the presentation
//! language: whitespace runs, digit runs, identifier runs, runs delimited by a
//! terminator character, literal tags, and the numeric value of a digit run.
use vstd::prelude::*;
use vstd::string::StrSliceExecFns;

verus! {

/// Whitespace of the dialect: space, tab, carriage return or line feed.
pub open spec fn spec_is_space(c: char) -> bool {
    c == ' ' || c == '\t' || c == '\r' || c == '\n'
}

/// Executable test matching `spec_is_space`.
pub fn is_space(c: char) -> (b: bool)
    ensures
        b == spec_is_space(c),
{
    c == ' ' || c == '\t' || c == '\r' || c == '\n'
}

/// An ASCII decimal digit.
pub open spec fn spec_is_digit(c: char) -> bool {
    48 <= c as u32 && c as u32 <= 57
}

/// Executable test matching `spec_is_digit`.
pub fn is_digit(c: char) -> (b: bool)
    ensures
        b == spec_is_digit(c),
{
    let u = c as u32;
    48 <= u && u <= 57
}

/// An ASCII letter or digit, the character class of a bare type reference in
/// a `case` body.
pub open spec fn spec_is_ascii_alnum(c: char) -> bool {
    spec_is_digit(c) || (65 <= c as u32 && c as u32 <= 90) || (97 <= c as u32 && c as u32 <= 122)
}

/// Executable test matching `spec_is_ascii_alnum`.
pub fn is_ascii_alnum(c: char) -> (b: bool)
    ensures
        b == spec_is_ascii_alnum(c),
{
    let u = c as u32;
    (48 <= u && u <= 57) || (65 <= u && u <= 90) || (97 <= u && u <= 122)
}

/// Whether a character counts as alphanumeric in the full Unicode sense.
/// This is the character class of type names; it is decided by the standard
/// library and left uninterpreted here.
pub uninterp spec fn char_alphanumeric(c: char) -> bool;

/// Relies on `char::is_alphanumeric` from std: whether a character is
/// alphanumeric depends on the character alone.
#[verifier::external_body]
fn exec_char_alphanumeric(c: char) -> (b: bool)
    ensures
        b == char_alphanumeric(c),
{
    c.is_alphanumeric()
}

/// A character that may appear in a type name: any alphanumeric character.
pub open spec fn spec_is_type_character(c: char) -> bool {
    char_alphanumeric(c)
}

/// Executable test matching `spec_is_type_character`.
pub fn is_type_character(c: char) -> (b: bool)
    ensures
        b == spec_is_type_character(c),
{
    exec_char_alphanumeric(c)
}

/// A character that may appear in a field name: alphanumeric or underscore.
pub open spec fn spec_is_field_name_character(c: char) -> bool {
    char_alphanumeric(c) || c == '_'
}

/// Executable test matching `spec_is_field_name_character`.
pub fn is_field_name_character(c: char) -> (b: bool)
    ensures
        b == spec_is_field_name_character(c),
{
    exec_char_alphanumeric(c) || c == '_'
}

/// End of the maximal whitespace run starting at `i`.
pub open spec fn spec_space_end(s: Seq<char>, i: int) -> int
    decreases s.len() - i,
    when 0 <= i <= s.len()
{
    if i < s.len() && spec_is_space(s[i]) {
        spec_space_end(s, i + 1)
    } else {
        i
    }
}

pub proof fn lemma_space_end(s: Seq<char>, i: int)
    requires
        0 <= i <= s.len(),
    ensures
        i <= spec_space_end(s, i) <= s.len(),
        spec_space_end(s, i) < s.len() ==> !spec_is_space(s[spec_space_end(s, i)]),
        forall|k: int| i <= k < spec_space_end(s, i) ==> spec_is_space(s[k]),
    decreases s.len() - i,
{
    if i < s.len() && spec_is_space(s[i]) {
        lemma_space_end(s, i + 1);
    }
}

/// Executable scanner matching `spec_space_end`.
pub fn scan_space(s: &str, i: usize) -> (j: usize)
    requires
        i <= s@.len(),
    ensures
        i <= j <= s@.len(),
        j as int == spec_space_end(s@, i as int),
    decreases s@.len() - i,
{
    proof {
        lemma_space_end(s@, i as int);
    }
    if i < s.unicode_len() && is_space(s.get_char(i)) {
        scan_space(s, i + 1)
    } else {
        i
    }
}

/// End of the maximal digit run starting at `i`.
pub open spec fn spec_digit_end(s: Seq<char>, i: int) -> int
    decreases s.len() - i,
    when 0 <= i <= s.len()
{
    if i < s.len() && spec_is_digit(s[i]) {
        spec_digit_end(s, i + 1)
    } else {
        i
    }
}

pub proof fn lemma_digit_end(s: Seq<char>, i: int)
    requires
        0 <= i <= s.len(),
    ensures
        i <= spec_digit_end(s, i) <= s.len(),
        spec_digit_end(s, i) < s.len() ==> !spec_is_digit(s[spec_digit_end(s, i)]),
        forall|k: int| i <= k < spec_digit_end(s, i) ==> spec_is_digit(s[k]),
    decreases s.len() - i,
{
    if i < s.len() && spec_is_digit(s[i]) {
        lemma_digit_end(s, i + 1);
    }
}

/// Executable scanner matching `spec_digit_end`.
pub fn scan_digits(s: &str, i: usize) -> (j: usize)
    requires
        i <= s@.len(),
    ensures
        i <= j <= s@.len(),
        j as int == spec_digit_end(s@, i as int),
    decreases s@.len() - i,
{
    proof {
        lemma_digit_end(s@, i as int);
    }
    if i < s.unicode_len() && is_digit(s.get_char(i)) {
        scan_digits(s, i + 1)
    } else {
        i
    }
}

/// End of the maximal run of type-name characters starting at `i`.
pub open spec fn spec_type_run_end(s: Seq<char>, i: int) -> int
    decreases s.len() - i,
    when 0 <= i <= s.len()
{
    if i < s.len() && spec_is_type_character(s[i]) {
        spec_type_run_end(s, i + 1)
    } else {
        i
    }
}

pub proof fn lemma_type_run_end(s: Seq<char>, i: int)
    requires
        0 <= i <= s.len(),
    ensures
        i <= spec_type_run_end(s, i) <= s.len(),
        spec_type_run_end(s, i) < s.len() ==> !spec_is_type_character(
            s[spec_type_run_end(s, i)],
        ),
        forall|k: int| i <= k < spec_type_run_end(s, i) ==> spec_is_type_character(s[k]),
    decreases s.len() - i,
{
    if i < s.len() && spec_is_type_character(s[i]) {
        lemma_type_run_end(s, i + 1);
    }
}

/// Executable scanner matching `spec_type_run_end`.
pub fn scan_type_characters(s: &str, i: usize) -> (j: usize)
    requires
        i <= s@.len(),
    ensures
        i <= j <= s@.len(),
        j as int == spec_type_run_end(s@, i as int),
    decreases s@.len() - i,
{
    proof {
        lemma_type_run_end(s@, i as int);
    }
    if i < s.unicode_len() && is_type_character(s.get_char(i)) {
        scan_type_characters(s, i + 1)
    } else {
        i
    }
}

/// End of the maximal run of field-name characters starting at `i`.
pub open spec fn spec_name_run_end(s: Seq<char>, i: int) -> int
    decreases s.len() - i,
    when 0 <= i <= s.len()
{
    if i < s.len() && spec_is_field_name_character(s[i]) {
        spec_name_run_end(s, i + 1)
    } else {
        i
    }
}

pub proof fn lemma_name_run_end(s: Seq<char>, i: int)
    requires
        0 <= i <= s.len(),
    ensures
        i <= spec_name_run_end(s, i) <= s.len(),
        spec_name_run_end(s, i) < s.len() ==> !spec_is_field_name_character(
            s[spec_name_run_end(s, i)],
        ),
        forall|k: int| i <= k < spec_name_run_end(s, i) ==> spec_is_field_name_character(s[k]),
    decreases s.len() - i,
{
    if i < s.len() && spec_is_field_name_character(s[i]) {
        lemma_name_run_end(s, i + 1);
    }
}

/// Executable scanner matching `spec_name_run_end`.
pub fn scan_name_characters(s: &str, i: usize) -> (j: usize)
    requires
        i <= s@.len(),
    ensures
        i <= j <= s@.len(),
        j as int == spec_name_run_end(s@, i as int),
    decreases s@.len() - i,
{
    proof {
        lemma_name_run_end(s@, i as int);
    }
    if i < s.unicode_len() && is_field_name_character(s.get_char(i)) {
        scan_name_characters(s, i + 1)
    } else {
        i
    }
}

/// End of the maximal run of ASCII alphanumeric characters starting at `i`.
pub open spec fn spec_alnum_run_end(s: Seq<char>, i: int) -> int
    decreases s.len() - i,
    when 0 <= i <= s.len()
{
    if i < s.len() && spec_is_ascii_alnum(s[i]) {
        spec_alnum_run_end(s, i + 1)
    } else {
        i
    }
}

pub proof fn lemma_alnum_run_end(s: Seq<char>, i: int)
    requires
        0 <= i <= s.len(),
    ensures
        i <= spec_alnum_run_end(s, i) <= s.len(),
        spec_alnum_run_end(s, i) < s.len() ==> !spec_is_ascii_alnum(s[spec_alnum_run_end(s, i)]),
        forall|k: int| i <= k < spec_alnum_run_end(s, i) ==> spec_is_ascii_alnum(s[k]),
    decreases s.len() - i,
{
    if i < s.len() && spec_is_ascii_alnum(s[i]) {
        lemma_alnum_run_end(s, i + 1);
    }
}

/// Executable scanner matching `spec_alnum_run_end`.
pub fn scan_alnum(s: &str, i: usize) -> (j: usize)
    requires
        i <= s@.len(),
    ensures
        i <= j <= s@.len(),
        j as int == spec_alnum_run_end(s@, i as int),
    decreases s@.len() - i,
{
    proof {
        lemma_alnum_run_end(s@, i as int);
    }
    if i < s.unicode_len() && is_ascii_alnum(s.get_char(i)) {
        scan_alnum(s, i + 1)
    } else {
        i
    }
}

/// End of the maximal run of characters other than `c` starting at `i`; this
/// is the position of the first occurrence of `c` at or after `i`, or the end
/// of the text if `c` does not occur.
pub open spec fn spec_until_end(s: Seq<char>, i: int, c: char) -> int
    decreases s.len() - i,
    when 0 <= i <= s.len()
{
    if i < s.len() && s[i] != c {
        spec_until_end(s, i + 1, c)
    } else {
        i
    }
}

pub proof fn lemma_until_end(s: Seq<char>, i: int, c: char)
    requires
        0 <= i <= s.len(),
    ensures
        i <= spec_until_end(s, i, c) <= s.len(),
        spec_until_end(s, i, c) < s.len() ==> s[spec_until_end(s, i, c)] == c,
        forall|k: int| i <= k < spec_until_end(s, i, c) ==> s[k] != c,
    decreases s.len() - i,
{
    if i < s.len() && s[i] != c {
        lemma_until_end(s, i + 1, c);
    }
}

/// Executable scanner matching `spec_until_end`.
pub fn scan_until(s: &str, i: usize, c: char) -> (j: usize)
    requires
        i <= s@.len(),
    ensures
        i <= j <= s@.len(),
        j as int == spec_until_end(s@, i as int, c),
    decreases s@.len() - i,
{
    proof {
        lemma_until_end(s@, i as int, c);
    }
    if i < s.unicode_len() && s.get_char(i) != c {
        scan_until(s, i + 1, c)
    } else {
        i
    }
}

/// The literal `t` occurs in `s` starting at position `i`.
pub open spec fn spec_tag(s: Seq<char>, i: int, t: Seq<char>) -> bool {
    0 <= i && i + t.len() <= s.len() && s.subrange(i, i + t.len()) == t
}

/// Executable test matching `spec_tag`.
pub fn has_tag(s: &str, i: usize, t: &str) -> (b: bool)
    requires
        i <= s@.len(),
    ensures
        b == spec_tag(s@, i as int, t@),
{
    let n = s.unicode_len();
    let m = t.unicode_len();
    if m > n - i {
        proof {
            assert(!spec_tag(s@, i as int, t@));
        }
        return false;
    }
    let mut k: usize = 0;
    while k < m
        invariant
            i + m <= n,
            n == s@.len(),
            m == t@.len(),
            k <= m,
            forall|q: int| 0 <= q < k ==> s@[i + q] == t@[q],
        decreases m - k,
    {
        if s.get_char(i + k) != t.get_char(k) {
            proof {
                assert(s@.subrange(i as int, i + m) != t@) by {
                    assert(s@.subrange(i as int, i + m)[k as int] == s@[i + k]);
                }
            }
            return false;
        }
        k += 1;
    }
    proof {
        assert(s@.subrange(i as int, i + m) =~= t@);
    }
    true
}

/// The numeric value of a digit character.
pub open spec fn spec_digit_value(c: char) -> nat {
    (c as u32 - 48) as nat
}

/// The numeric value of a run of decimal digits, most significant first.
pub open spec fn spec_digits_value(ds: Seq<char>) -> nat
    decreases ds.len(),
{
    if ds.len() == 0 {
        0
    } else {
        spec_digits_value(ds.drop_last()) * 10 + spec_digit_value(ds.last())
    }
}

/// A longer digit run never has a smaller value: the value of a prefix is a
/// lower bound for the value of the whole run.
pub proof fn lemma_digits_value_prefix(ds: Seq<char>, m: int)
    requires
        0 <= m <= ds.len(),
    ensures
        spec_digits_value(ds.take(m)) <= spec_digits_value(ds),
    decreases ds.len(),
{
    if m < ds.len() {
        lemma_digits_value_prefix(ds.drop_last(), m);
        assert(ds.drop_last().take(m) =~= ds.take(m));
    } else {
        assert(ds.take(m) =~= ds);
    }
}

/// The value of the digit run `s[a..b]`, or `None` on a value that does not
/// fit in `usize` (matching a failed integer conversion).
pub fn digits_to_usize(s: &str, a: usize, b: usize) -> (r: Option<usize>)
    requires
        a <= b <= s@.len(),
        forall|k: int| a <= k < b ==> spec_is_digit(s@[k]),
    ensures
        match r {
            Some(v) => v as nat == spec_digits_value(s@.subrange(a as int, b as int)),
            None => spec_digits_value(s@.subrange(a as int, b as int)) > usize::MAX,
        },
{
    let ghost whole = s@.subrange(a as int, b as int);
    let mut v: usize = 0;
    let mut k: usize = a;
    while k < b
        invariant
            a <= k <= b <= s@.len(),
            forall|q: int| a <= q < b ==> spec_is_digit(s@[q]),
            whole == s@.subrange(a as int, b as int),
            v as nat == spec_digits_value(s@.subrange(a as int, k as int)),
        decreases b - k,
    {
        let c = s.get_char(k);
        let d = ((c as u32) - 48) as usize;
        proof {
            assert(s@.subrange(a as int, k + 1).drop_last() =~= s@.subrange(a as int, k as int));
            assert(s@.subrange(a as int, k + 1).last() == s@[k as int]);
            assert(whole.take(k + 1 - a) =~= s@.subrange(a as int, k + 1));
            lemma_digits_value_prefix(whole, k + 1 - a);
        }
        let w = match v.checked_mul(10) {
            Some(w) => w,
            None => {
                return None;
            },
        };
        let x = match w.checked_add(d) {
            Some(x) => x,
            None => {
                return None;
            },
        };
        v = x;
        k += 1;
    }
    proof {
        assert(s@.subrange(a as int, b as int) =~= whole);
    }
    Some(v)
}

/// An owned copy of the characters of `s` from `a` (inclusive) to `b`
/// (exclusive).
pub fn copy_range(s: &str, a: usize, b: usize) -> (r: String)
    requires
        a <= b <= s@.len(),
    ensures
        r@ == s@.subrange(a as int, b as int),
{
    s.substring_char(a, b).to_owned()
}

} // verus!
