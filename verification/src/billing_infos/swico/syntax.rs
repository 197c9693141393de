//! The Swico S1 syntax validator: per-field format rules applied once to
//! a freshly parsed or built field set.

use vstd::prelude::*;

verus! {

use crate::chars::all_digits;
use crate::chars::chars_to_string;
use crate::chars::contains_at;
use crate::chars::find_sub;
use crate::chars::spec_digit_val;
use crate::chars::spec_find;
use crate::chars::spec_is_digit;
use crate::chars::is_digit;
use crate::chars::lemma_find_from_props;
use crate::billing_infos::swico::spec_get;
use crate::billing_infos::swico::StructuredSet;
use crate::billing_infos::swico::SwicoComponent;

/// Failure cases of the syntax validator. Each carries the offending
/// field value or subgroup.
#[derive(Debug, Clone)]
pub enum SyntaxValidatorError {
    /// A date field is neither 6 nor 12 characters long.
    InvalidDateFormat(String),
    /// A 6-character date chunk is not a valid `YYMMDD` calendar date.
    InvalidDate(String),
    /// The VAT number is not exactly 9 decimal digits.
    InvalidVatNum(String),
    /// A reference field holds an unescaped `/` or a dangling `\`.
    InvalidEscapeChar(String),
    /// An amount field uses `,` where `.` is required.
    InvalidDecimalPoint(String),
    /// A subgroup of an amount field is not a decimal number.
    InvalidNumber(String),
    /// A conditions group does not consist of exactly two subgroups.
    InvalidConditions(String),
    /// The days part of a conditions group is not an integer in 0..=255.
    InvalidDays(String),
}

// ------------------------------------------------------------------
// calendar dates
// ------------------------------------------------------------------

/// Days in a month of the two-digit-year calendar window, where a year is
/// a leap year exactly when its two digits are divisible by four.
pub open spec fn spec_days_in_month(yy: int, m: int) -> int {
    if m == 1 || m == 3 || m == 5 || m == 7 || m == 8 || m == 10 || m == 12 {
        31
    } else if m == 4 || m == 6 || m == 9 || m == 11 {
        30
    } else if yy % 4 == 0 {
        29
    } else {
        28
    }
}

/// A valid `YYMMDD` date: six digits whose month is 1..=12 and whose day
/// fits the month.
pub open spec fn spec_date6_ok(s: Seq<char>) -> bool {
    &&& s.len() == 6
    &&& all_digits(s)
    &&& ({
        let yy = 10 * spec_digit_val(s[0]) + spec_digit_val(s[1]);
        let m = 10 * spec_digit_val(s[2]) + spec_digit_val(s[3]);
        let d = 10 * spec_digit_val(s[4]) + spec_digit_val(s[5]);
        1 <= m <= 12 && 1 <= d <= spec_days_in_month(yy, m)
    })
}

/// The fault of a date field: 0 none, 1 wrong length, 2 invalid date.
pub open spec fn spec_date_fault(s: Seq<char>) -> int {
    if s.len() == 6 {
        if spec_date6_ok(s) {
            0
        } else {
            2
        }
    } else if s.len() == 12 {
        if !spec_date6_ok(s.take(6)) || !spec_date6_ok(s.skip(6)) {
            2
        } else {
            0
        }
    } else {
        1
    }
}

/// Check one six-character chunk of a date field.
fn date6_ok_at(v: &Vec<char>, off: usize) -> (r: bool)
    requires
        off + 6 <= v@.len(),
    ensures
        r == spec_date6_ok(v@.subrange(off as int, off + 6)),
{
    let n = v.len();
    let ghost s = v@.subrange(off as int, off + 6);
    proof {
        assert(forall|k: int| 0 <= k < 6 ==> s[k] == #[trigger] v@[off + k]);
    }
    let mut k: usize = 0;
    while k < 6
        invariant
            0 <= k <= 6,
            off + 6 <= v@.len(),
            n == v@.len(),
            s == v@.subrange(off as int, off + 6),
            forall|q: int| 0 <= q < k ==> spec_is_digit(#[trigger] s[q]),
        decreases 6 - k,
    {
        if !is_digit(v[off + k]) {
            proof {
                assert(s[k as int] == v@[off + k]);
            }
            return false;
        }
        proof {
            assert(s[k as int] == v@[off + k]);
        }
        k = k + 1;
    }
    proof {
        assert(s[0] == v@[off as int] && s[1] == v@[off + 1] && s[2] == v@[off + 2]
            && s[3] == v@[off + 3] && s[4] == v@[off + 4] && s[5] == v@[off + 5]);
    }
    let yy = crate::chars::digit_val(v[off]) * 10 + crate::chars::digit_val(v[off + 1]);
    let m = crate::chars::digit_val(v[off + 2]) * 10 + crate::chars::digit_val(v[off + 3]);
    let d = crate::chars::digit_val(v[off + 4]) * 10 + crate::chars::digit_val(v[off + 5]);
    let dim: u32 = if m == 1 || m == 3 || m == 5 || m == 7 || m == 8 || m == 10 || m == 12 {
        31
    } else if m == 4 || m == 6 || m == 9 || m == 11 {
        30
    } else if yy % 4 == 0 {
        29
    } else {
        28
    };
    1 <= m && m <= 12 && 1 <= d && d <= dim
}

/// Check a whole date field; 0 means it is in order.
fn date_fault(v: &Vec<char>) -> (r: u32)
    ensures
        r == spec_date_fault(v@),
{
    if v.len() == 6 {
        proof {
            assert(v@.subrange(0, 6) =~= v@);
        }
        if date6_ok_at(v, 0) {
            0
        } else {
            2
        }
    } else if v.len() == 12 {
        proof {
            assert(v@.subrange(0, 6) =~= v@.take(6));
            assert(v@.subrange(6, 12) =~= v@.skip(6));
        }
        if date6_ok_at(v, 0) && date6_ok_at(v, 6) {
            0
        } else {
            2
        }
    } else {
        1
    }
}

// ------------------------------------------------------------------
// decimal numbers, per the standard library's floating-point grammar
// ------------------------------------------------------------------

/// The number of consecutive decimal digits of `s` starting at `i`.
pub open spec fn count_digits(s: Seq<char>, i: int) -> int
    decreases s.len() - i,
{
    if 0 <= i < s.len() && spec_is_digit(s[i]) {
        1 + count_digits(s, i + 1)
    } else {
        0
    }
}

proof fn lemma_count_digits(s: Seq<char>, i: int)
    requires
        0 <= i <= s.len(),
    ensures
        ({
            let c = count_digits(s, i);
            &&& 0 <= c
            &&& i + c <= s.len()
            &&& forall|k: int| i <= k < i + c ==> spec_is_digit(#[trigger] s[k])
            &&& (i + c < s.len() ==> !spec_is_digit(s[i + c]))
        }),
    decreases s.len() - i,
{
    if 0 <= i < s.len() && spec_is_digit(s[i]) {
        lemma_count_digits(s, i + 1);
        let c = count_digits(s, i);
        assert(c == 1 + count_digits(s, i + 1));
        assert forall|k: int| i <= k < i + c implies spec_is_digit(s[k]) by {
            if k > i {
                assert(i + 1 <= k < i + 1 + count_digits(s, i + 1));
            }
        }
    }
}

/// Count consecutive digits from a position.
fn count_digits_from(v: &Vec<char>, i: usize) -> (c: usize)
    requires
        i <= v@.len(),
    ensures
        c == count_digits(v@, i as int),
        i + c <= v@.len(),
{
    let mut j: usize = i;
    while j < v.len() && is_digit(v[j])
        invariant
            i <= j <= v@.len(),
            forall|k: int| i <= k < j ==> spec_is_digit(#[trigger] v@[k]),
        decreases v.len() - j,
    {
        j = j + 1;
    }
    proof {
        lemma_count_digits(v@, i as int);
        let c = count_digits(v@, i as int);
        if j - i < c {
            assert(spec_is_digit(v@[j as int]));
            assert(false);
        }
        if j - i > c {
            assert(spec_is_digit(v@[i + c]));
            assert(false);
        }
    }
    j - i
}

/// An exponent part standing at `i`: either nothing, or `e`/`E`, an
/// optional sign, and at least one digit reaching the end.
pub open spec fn spec_exp_at(s: Seq<char>, i: int) -> bool {
    if i == s.len() {
        true
    } else if 0 <= i < s.len() && (s[i] == 'e' || s[i] == 'E') {
        let j = if i + 1 < s.len() && (s[i + 1] == '+' || s[i + 1] == '-') {
            i + 2
        } else {
            i + 1
        };
        count_digits(s, j) >= 1 && j + count_digits(s, j) == s.len()
    } else {
        false
    }
}

/// A number body standing at `st`: digits, an optional point with more
/// digits, and an optional exponent; or a point followed by digits and an
/// optional exponent.
pub open spec fn spec_number_at(s: Seq<char>, st: int) -> bool {
    if st < s.len() && s[st] == '.' {
        let d = count_digits(s, st + 1);
        d >= 1 && spec_exp_at(s, st + 1 + d)
    } else {
        let d1 = count_digits(s, st);
        &&& d1 >= 1
        &&& if st + d1 < s.len() && s[st + d1] == '.' {
            spec_exp_at(s, st + d1 + 1 + count_digits(s, st + d1 + 1))
        } else {
            spec_exp_at(s, st + d1)
        }
    }
}

/// `inf`, `infinity` or `nan` standing at `st`, case-insensitively.
pub open spec fn spec_inf_nan_at(s: Seq<char>, st: int) -> bool {
    let up = |k: int| crate::iso11649::spec_upper(s[st + k]);
    ||| (s.len() - st == 3 && up(0) == 'I' && up(1) == 'N' && up(2) == 'F')
    ||| (s.len() - st == 8 && up(0) == 'I' && up(1) == 'N' && up(2) == 'F' && up(3) == 'I'
        && up(4) == 'N' && up(5) == 'I' && up(6) == 'T' && up(7) == 'Y')
    ||| (s.len() - st == 3 && up(0) == 'N' && up(1) == 'A' && up(2) == 'N')
}

/// A string the standard library parses as a floating-point number: an
/// optional sign, then a number body or an infinity/NaN word.
pub open spec fn spec_is_float(s: Seq<char>) -> bool {
    s.len() > 0 && {
        let st: int = if s[0] == '+' || s[0] == '-' {
            1
        } else {
            0
        };
        spec_inf_nan_at(s, st) || spec_number_at(s, st)
    }
}

/// Check a character run against the floating-point grammar.
fn is_float_chars(v: &Vec<char>) -> (r: bool)
    ensures
        r == spec_is_float(v@),
{
    if v.len() == 0 {
        return false;
    }
    let st: usize = if v[0] == '+' || v[0] == '-' {
        1
    } else {
        0
    };
    // infinity and NaN words
    if v.len() - st == 3 {
        let a = upper(v[st]);
        let b = upper(v[st + 1]);
        let c = upper(v[st + 2]);
        if (a == 'I' && b == 'N' && c == 'F') || (a == 'N' && b == 'A' && c == 'N') {
            return true;
        }
    }
    if v.len() - st == 8 {
        if upper(v[st]) == 'I' && upper(v[st + 1]) == 'N' && upper(v[st + 2]) == 'F'
            && upper(v[st + 3]) == 'I' && upper(v[st + 4]) == 'N' && upper(v[st + 5]) == 'I'
            && upper(v[st + 6]) == 'T' && upper(v[st + 7]) == 'Y' {
            return true;
        }
    }
    // number body
    if st < v.len() && v[st] == '.' {
        let d = count_digits_from(v, st + 1);
        d >= 1 && exp_at(v, st + 1 + d)
    } else {
        let d1 = count_digits_from(v, st);
        if d1 == 0 {
            return false;
        }
        if st + d1 < v.len() && v[st + d1] == '.' {
            let d2 = count_digits_from(v, st + d1 + 1);
            exp_at(v, st + d1 + 1 + d2)
        } else {
            exp_at(v, st + d1)
        }
    }
}

/// Check an exponent part standing at `i`.
fn exp_at(v: &Vec<char>, i: usize) -> (r: bool)
    requires
        i <= v@.len(),
    ensures
        r == spec_exp_at(v@, i as int),
{
    if i == v.len() {
        return true;
    }
    if !(v[i] == 'e' || v[i] == 'E') {
        return false;
    }
    let j = if i + 1 < v.len() && (v[i + 1] == '+' || v[i + 1] == '-') {
        i + 2
    } else {
        i + 1
    };
    let d = count_digits_from(v, j);
    d >= 1 && j + d == v.len()
}

/// ASCII upper-casing, shared with the reference codec.
fn upper(c: char) -> (r: char)
    ensures
        r == crate::iso11649::spec_upper(c),
{
    if 'a' <= c && c <= 'z' {
        (((c as u32) - 32) as u8) as char
    } else {
        c
    }
}

// ------------------------------------------------------------------
// unsigned day counts
// ------------------------------------------------------------------

/// The number denoted by a digit string.
pub open spec fn spec_digits_value(s: Seq<char>) -> int
    decreases s.len(),
{
    if s.len() == 0 {
        0
    } else {
        spec_digits_value(s.drop_last()) * 10 + spec_digit_val(s.last())
    }
}

/// A string the standard library parses as a `u8`: an optional `+`, then
/// at least one digit, denoting a value of at most 255.
pub open spec fn spec_is_u8(s: Seq<char>) -> bool {
    let st: int = if s.len() > 0 && s[0] == '+' {
        1
    } else {
        0
    };
    &&& s.len() - st >= 1
    &&& (forall|k: int| st <= k < s.len() ==> spec_is_digit(#[trigger] s[k]))
    &&& spec_digits_value(s.skip(st)) <= 255
}

/// A longer digit string never denotes a smaller number.
proof fn lemma_digits_value_mono(s: Seq<char>, k: int)
    requires
        0 <= k <= s.len(),
        all_digits(s),
    ensures
        spec_digits_value(s.take(k)) <= spec_digits_value(s),
        spec_digits_value(s) >= 0,
    decreases s.len(),
{
    if s.len() > 0 {
        assert(all_digits(s.drop_last()));
        lemma_digits_value_mono(s.drop_last(), if k <= s.len() - 1 { k } else { k - 1 });
        if k == s.len() {
            assert(s.take(k) =~= s);
        } else {
            assert(s.take(k) =~= s.drop_last().take(k));
        }
    } else {
        assert(s.take(k) =~= s);
    }
}

/// Check a character run against the `u8` grammar.
fn is_u8_chars(v: &Vec<char>) -> (r: bool)
    ensures
        r == spec_is_u8(v@),
{
    let st: usize = if v.len() > 0 && v[0] == '+' {
        1
    } else {
        0
    };
    if v.len() - st == 0 {
        return false;
    }
    let ghost rest = v@.skip(st as int);
    let mut val: u32 = 0;
    let mut j: usize = st;
    while j < v.len()
        invariant
            st <= j <= v@.len(),
            st as int == if v@.len() > 0 && v@[0] == '+' { 1int } else { 0 },
            v@.len() - st >= 1,
            rest == v@.skip(st as int),
            forall|k: int| st <= k < j ==> spec_is_digit(#[trigger] v@[k]),
            val <= 255,
            val == spec_digits_value(rest.take(j - st)),
        decreases v.len() - j,
    {
        if !is_digit(v[j]) {
            proof {
                assert(!spec_is_digit(v@[j as int]));
            }
            return false;
        }
        proof {
            assert(rest[j - st] == v@[j as int]);
            assert(rest.take(j - st + 1).drop_last() =~= rest.take(j - st));
            assert(rest.take(j - st + 1).last() == rest[j - st]);
        }
        val = val * 10 + crate::chars::digit_val(v[j]);
        proof {
            assert(spec_digits_value(rest.take(j - st + 1))
                == spec_digits_value(rest.take(j - st)) * 10 + spec_digit_val(rest[j - st]));
            assert(val == spec_digits_value(rest.take(j - st + 1)));
        }
        if val > 255 {
            proof {
                if forall|k: int| st <= k < v@.len() ==> spec_is_digit(#[trigger] v@[k]) {
                    assert forall|k: int| 0 <= k < rest.len() implies
                        spec_is_digit(rest[k]) by {
                        assert(rest[k] == v@[st + k]);
                    }
                    lemma_digits_value_mono(rest, j - st + 1);
                    assert(spec_digits_value(rest) > 255);
                }
            }
            return false;
        }
        j = j + 1;
    }
    proof {
        assert(rest.take(v@.len() - st) =~= rest);
    }
    true
}

// ------------------------------------------------------------------
// escaping in reference fields
// ------------------------------------------------------------------

/// The escaping rule from position `i` on: no bare `/`, and every `\`
/// followed by `\` or `/`.
pub open spec fn spec_escape_ok(s: Seq<char>, i: int) -> bool
    decreases s.len() - i,
{
    if i < 0 || i >= s.len() {
        true
    } else if s[i] == '/' {
        false
    } else if s[i] == '\\' {
        i + 1 < s.len() && (s[i + 1] == '\\' || s[i + 1] == '/') && spec_escape_ok(s, i + 2)
    } else {
        spec_escape_ok(s, i + 1)
    }
}

/// Check a reference field's escaping.
fn escape_ok_chars(v: &Vec<char>) -> (r: bool)
    ensures
        r == spec_escape_ok(v@, 0),
{
    let mut i: usize = 0;
    while i < v.len()
        invariant
            0 <= i <= v@.len(),
            spec_escape_ok(v@, 0) == spec_escape_ok(v@, i as int),
        decreases v.len() - i,
    {
        let c = v[i];
        if c == '/' {
            return false;
        }
        if c == '\\' {
            if i + 1 >= v.len() {
                return false;
            }
            let n = v[i + 1];
            if !(n == '\\' || n == '/') {
                return false;
            }
            i = i + 2;
        } else {
            i = i + 1;
        }
    }
    true
}

// ------------------------------------------------------------------
// group structure of the amount fields
// ------------------------------------------------------------------

/// Split a string at every occurrence of a separator; a string without
/// the separator yields itself as the only part.
pub open spec fn split_char(s: Seq<char>, sep: char) -> Seq<Seq<char>>
    decreases s.len(),
{
    let f = spec_find(s, seq![sep]);
    if f < 0 || f >= s.len() {
        seq![s]
    } else {
        seq![s.take(f)] + split_char(s.skip(f + 1), sep)
    }
}

/// Split a character run at a separator.
fn split_by(v: &Vec<char>, sep: char) -> (r: Vec<Vec<char>>)
    ensures
        r@.map_values(|x: Vec<char>| x@) == split_char(v@, sep),
    decreases v@.len(),
{
    let mut pat: Vec<char> = Vec::new();
    pat.push(sep);
    proof {
        assert(pat@ =~= seq![sep]);
    }
    match find_sub(v, &pat) {
        Option::None => {
            let mut r: Vec<Vec<char>> = Vec::new();
            r.push(crate::chars::copy_range(v, 0, v.len()));
            proof {
                assert(v@.subrange(0, v@.len() as int) =~= v@);
                assert(r@.map_values(|x: Vec<char>| x@) =~= split_char(v@, sep));
            }
            r
        },
        Option::Some(f) => {
            let n = v.len();
            proof {
                lemma_find_from_props(v@, pat@, 0);
                assert(contains_at(v@, pat@, f as int));
                assert(v@[f as int] == pat@[0]);
                assert(f + 1 <= n);
            }
            let head = crate::chars::copy_range(v, 0, f);
            let rest = crate::chars::copy_range(v, f + 1, v.len());
            proof {
                assert(rest@ =~= v@.skip(f + 1));
            }
            let mut r = split_by(&rest, sep);
            r.insert(0, head);
            proof {
                assert(head@ =~= v@.take(f as int));
                assert(r@.map_values(|x: Vec<char>| x@) =~= split_char(v@, sep));
            }
            r
        },
    }
}

/// The first subgroup of a list that is not a decimal number.
pub open spec fn spec_subs_fault(subs: Seq<Seq<char>>) -> Option<Seq<char>>
    decreases subs.len(),
{
    if subs.len() == 0 {
        Option::None
    } else if !spec_is_float(subs[0]) {
        Option::Some(subs[0])
    } else {
        spec_subs_fault(subs.skip(1))
    }
}

/// The first fault of one group. The fault kinds are 6 for a bad number,
/// 7 for a conditions group without exactly two subgroups, 8 for a bad
/// days count; the text is the offending subgroup, or the whole field
/// for kind 7.
pub open spec fn spec_group_fault_one(g: Seq<char>, whole: Seq<char>, is_cond: bool)
    -> Option<(int, Seq<char>)>
{
    let subs = split_char(g, ':');
    if spec_subs_fault(subs) is Some {
        Option::Some((6int, spec_subs_fault(subs).unwrap()))
    } else if is_cond && subs.len() != 2 {
        Option::Some((7int, whole))
    } else if is_cond && !spec_is_u8(subs[1]) {
        Option::Some((8int, subs[1]))
    } else {
        Option::None
    }
}

/// The first fault over a list of groups.
pub open spec fn spec_groups_fault(gs: Seq<Seq<char>>, whole: Seq<char>, is_cond: bool)
    -> Option<(int, Seq<char>)>
    decreases gs.len(),
{
    if gs.len() == 0 {
        Option::None
    } else if spec_group_fault_one(gs[0], whole, is_cond) is Some {
        spec_group_fault_one(gs[0], whole, is_cond)
    } else {
        spec_groups_fault(gs.skip(1), whole, is_cond)
    }
}

/// The first fault of an amount field: groups split on `;`, subgroups on
/// `:`, every subgroup a decimal number; a conditions field moreover has
/// two subgroups per group, the second an integer day count.
pub open spec fn spec_group_fault(s: Seq<char>, is_cond: bool) -> Option<(int, Seq<char>)> {
    spec_groups_fault(split_char(s, ';'), s, is_cond)
}

/// Check the group structure of an amount field; `Ok` when no group is
/// at fault.
fn group_control(v: &Vec<char>, is_cond: bool) -> (r: Result<(), SyntaxValidatorError>)
    ensures
        ({
            let f = spec_group_fault(v@, is_cond);
            match r {
                Ok(()) => f is None,
                Err(SyntaxValidatorError::InvalidNumber(t)) =>
                    f == Option::Some((6int, t@)),
                Err(SyntaxValidatorError::InvalidConditions(t)) =>
                    f == Option::Some((7int, t@)),
                Err(SyntaxValidatorError::InvalidDays(t)) =>
                    f == Option::Some((8int, t@)),
                Err(_) => false,
            }
        }),
{
    let groups = split_by(v, ';');
    let ghost gs = groups@.map_values(|x: Vec<char>| x@);
    let mut gi: usize = 0;
    proof {
        assert(gs.skip(0) =~= gs);
    }
    while gi < groups.len()
        invariant
            0 <= gi <= gs.len(),
            gs == groups@.map_values(|x: Vec<char>| x@),
            gs == split_char(v@, ';'),
            spec_groups_fault(gs, v@, is_cond) == spec_groups_fault(gs.skip(gi as int), v@, is_cond),
        decreases groups.len() - gi,
    {
        proof {
            assert(gs.skip(gi as int)[0] == gs[gi as int]);
            assert(gs.skip(gi as int).skip(1) =~= gs.skip(gi + 1));
        }
        let subs = split_by(&groups[gi], ':');
        let ghost ss = subs@.map_values(|x: Vec<char>| x@);
        let mut si: usize = 0;
        proof {
            assert(groups@[gi as int]@ == gs[gi as int]);
            assert(ss.skip(0) =~= ss);
        }
        while si < subs.len()
            invariant
                0 <= si <= ss.len(),
                ss == subs@.map_values(|x: Vec<char>| x@),
                ss == split_char(gs[gi as int], ':'),
                gi < gs.len(),
                gs == split_char(v@, ';'),
                spec_groups_fault(gs, v@, is_cond)
                    == spec_groups_fault(gs.skip(gi as int), v@, is_cond),
                spec_subs_fault(ss) == spec_subs_fault(ss.skip(si as int)),
            decreases subs.len() - si,
        {
            proof {
                assert(ss.skip(si as int)[0] == ss[si as int]);
                assert(ss.skip(si as int).skip(1) =~= ss.skip(si + 1));
            }
            if !is_float_chars(&subs[si]) {
                proof {
                    assert(gs.skip(gi as int)[0] == gs[gi as int]);
                    assert(gs.skip(gi as int).skip(1) =~= gs.skip(gi + 1));
                    assert(spec_subs_fault(ss.skip(si as int))
                        == Option::Some(ss[si as int]));
                    assert(spec_group_fault_one(gs[gi as int], v@, is_cond)
                        == Option::Some((6int, ss[si as int])));
                    assert(spec_groups_fault(gs.skip(gi as int), v@, is_cond)
                        == Option::Some((6int, ss[si as int])));
                }
                return Err(SyntaxValidatorError::InvalidNumber(
                    chars_to_string(&subs[si]),
                ));
            }
            si = si + 1;
        }
        proof {
            assert(ss.skip(ss.len() as int) =~= Seq::<Seq<char>>::empty());
            assert(spec_subs_fault(ss) is None);
        }
        if is_cond {
            if subs.len() != 2 {
                proof {
                    assert(spec_group_fault_one(gs[gi as int], v@, is_cond)
                        == Option::Some((7int, v@)));
                    assert(spec_groups_fault(gs.skip(gi as int), v@, is_cond)
                        == Option::Some((7int, v@)));
                }
                return Err(SyntaxValidatorError::InvalidConditions(
                    chars_to_string(v),
                ));
            }
            if !is_u8_chars(&subs[1]) {
                proof {
                    assert(subs@[1]@ == ss[1]);
                    assert(spec_group_fault_one(gs[gi as int], v@, is_cond)
                        == Option::Some((8int, ss[1])));
                    assert(spec_groups_fault(gs.skip(gi as int), v@, is_cond)
                        == Option::Some((8int, ss[1])));
                }
                return Err(SyntaxValidatorError::InvalidDays(
                    chars_to_string(&subs[1]),
                ));
            }
        }
        proof {
            assert(spec_group_fault_one(gs[gi as int], v@, is_cond) is None);
            assert(spec_groups_fault(gs.skip(gi as int), v@, is_cond)
                == spec_groups_fault(gs.skip(gi + 1), v@, is_cond));
        }
        gi = gi + 1;
    }
    proof {
        assert(gs.skip(gs.len() as int) =~= Seq::<Seq<char>>::empty());
    }
    Ok(())
}

// ------------------------------------------------------------------
// the validator
// ------------------------------------------------------------------

/// Nine decimal digits.
pub open spec fn spec_vat_num_ok(s: Seq<char>) -> bool {
    s.len() == 9 && all_digits(s)
}

/// The first fault of a whole field set, with the text the error carries.
/// The fault kinds are: 1 date length, 2 invalid date, 3 VAT number,
/// 4 escaping, 5 decimal comma, and 6 to 8 as in the group faults. The
/// fields are examined in the order the validator applies: document
/// date, VAT date, VAT number, invoice reference, customer reference,
/// then VAT details, VAT import and conditions each checked first for a
/// comma and then for group structure.
pub open spec fn spec_validate_fault(v: Seq<(SwicoComponent, Seq<char>)>)
    -> Option<(int, Seq<char>)>
{
    let doc = spec_get(v, SwicoComponent::DocDate);
    let vat = spec_get(v, SwicoComponent::VatDate);
    let num = spec_get(v, SwicoComponent::VatNum);
    let inv = spec_get(v, SwicoComponent::InvoiceRef);
    let cli = spec_get(v, SwicoComponent::ClientRef);
    let det = spec_get(v, SwicoComponent::VatDetails);
    let imp = spec_get(v, SwicoComponent::VatImport);
    let cond = spec_get(v, SwicoComponent::Conditions);
    if doc is Some && spec_date_fault(doc.unwrap()) != 0 {
        Option::Some((spec_date_fault(doc.unwrap()), doc.unwrap()))
    } else if vat is Some && spec_date_fault(vat.unwrap()) != 0 {
        Option::Some((spec_date_fault(vat.unwrap()), vat.unwrap()))
    } else if num is Some && !spec_vat_num_ok(num.unwrap()) {
        Option::Some((3int, num.unwrap()))
    } else if inv is Some && !spec_escape_ok(inv.unwrap(), 0) {
        Option::Some((4int, inv.unwrap()))
    } else if cli is Some && !spec_escape_ok(cli.unwrap(), 0) {
        Option::Some((4int, cli.unwrap()))
    } else if det is Some && spec_find(det.unwrap(), seq![',']) >= 0 {
        Option::Some((5int, det.unwrap()))
    } else if det is Some && spec_group_fault(det.unwrap(), false) is Some {
        spec_group_fault(det.unwrap(), false)
    } else if imp is Some && spec_find(imp.unwrap(), seq![',']) >= 0 {
        Option::Some((5int, imp.unwrap()))
    } else if imp is Some && spec_group_fault(imp.unwrap(), false) is Some {
        spec_group_fault(imp.unwrap(), false)
    } else if cond is Some && spec_find(cond.unwrap(), seq![',']) >= 0 {
        Option::Some((5int, cond.unwrap()))
    } else if cond is Some && spec_group_fault(cond.unwrap(), true) is Some {
        spec_group_fault(cond.unwrap(), true)
    } else {
        Option::None
    }
}

/// Whether a validator error reports exactly the given fault.
pub open spec fn fault_matches(e: SyntaxValidatorError, f: Option<(int, Seq<char>)>) -> bool {
    match e {
        SyntaxValidatorError::InvalidDateFormat(t) => f == Option::Some((1int, t@)),
        SyntaxValidatorError::InvalidDate(t) => f == Option::Some((2int, t@)),
        SyntaxValidatorError::InvalidVatNum(t) => f == Option::Some((3int, t@)),
        SyntaxValidatorError::InvalidEscapeChar(t) => f == Option::Some((4int, t@)),
        SyntaxValidatorError::InvalidDecimalPoint(t) => f == Option::Some((5int, t@)),
        SyntaxValidatorError::InvalidNumber(t) => f == Option::Some((6int, t@)),
        SyntaxValidatorError::InvalidConditions(t) => f == Option::Some((7int, t@)),
        SyntaxValidatorError::InvalidDays(t) => f == Option::Some((8int, t@)),
    }
}

/// A versioned Swico field set; today only the S1 syntax exists.
#[derive(Debug, Clone)]
pub enum Version {
    S1(StructuredSet),
}

impl View for Version {
    type V = Seq<(SwicoComponent, Seq<char>)>;

    open spec fn view(&self) -> Seq<(SwicoComponent, Seq<char>)> {
        match self {
            Version::S1(s) => s@,
        }
    }
}

impl Version {
    /// Apply every per-field rule to the set and hand it back unchanged,
    /// or report the first field at fault.
    pub fn validate_syntax(self) -> (r: Result<Self, SyntaxValidatorError>)
        ensures
            ({
                let f = spec_validate_fault(self@);
                match r {
                    Ok(out) => out@ == self@ && f is None,
                    Err(e) => fault_matches(e, f),
                }
            }),
    {
        let set = match &self {
            Version::S1(s) => s,
        };
        if let Some(d) = set.get(SwicoComponent::DocDate) {
            let v = crate::chars::str_to_chars(d.as_str());
            let df = date_fault(&v);
            if df == 1 {
                return Err(SyntaxValidatorError::InvalidDateFormat(d));
            }
            if df == 2 {
                return Err(SyntaxValidatorError::InvalidDate(d));
            }
        }
        if let Some(d) = set.get(SwicoComponent::VatDate) {
            let v = crate::chars::str_to_chars(d.as_str());
            let df = date_fault(&v);
            if df == 1 {
                return Err(SyntaxValidatorError::InvalidDateFormat(d));
            }
            if df == 2 {
                return Err(SyntaxValidatorError::InvalidDate(d));
            }
        }
        if let Some(n) = set.get(SwicoComponent::VatNum) {
            let v = crate::chars::str_to_chars(n.as_str());
            if v.len() != 9 || !crate::chars::all_digits_chars(&v) {
                return Err(SyntaxValidatorError::InvalidVatNum(n));
            }
        }
        if let Some(s) = set.get(SwicoComponent::InvoiceRef) {
            let v = crate::chars::str_to_chars(s.as_str());
            if !escape_ok_chars(&v) {
                return Err(SyntaxValidatorError::InvalidEscapeChar(s));
            }
        }
        if let Some(s) = set.get(SwicoComponent::ClientRef) {
            let v = crate::chars::str_to_chars(s.as_str());
            if !escape_ok_chars(&v) {
                return Err(SyntaxValidatorError::InvalidEscapeChar(s));
            }
        }
        if let Some(s) = set.get(SwicoComponent::VatDetails) {
            let v = crate::chars::str_to_chars(s.as_str());
            if has_comma(&v) {
                return Err(SyntaxValidatorError::InvalidDecimalPoint(s));
            }
            match group_control(&v, false) {
                Ok(()) => {},
                Err(e) => {
                    return Err(e);
                },
            }
        }
        if let Some(s) = set.get(SwicoComponent::VatImport) {
            let v = crate::chars::str_to_chars(s.as_str());
            if has_comma(&v) {
                return Err(SyntaxValidatorError::InvalidDecimalPoint(s));
            }
            match group_control(&v, false) {
                Ok(()) => {},
                Err(e) => {
                    return Err(e);
                },
            }
        }
        if let Some(s) = set.get(SwicoComponent::Conditions) {
            let v = crate::chars::str_to_chars(s.as_str());
            if has_comma(&v) {
                return Err(SyntaxValidatorError::InvalidDecimalPoint(s));
            }
            match group_control(&v, true) {
                Ok(()) => {},
                Err(e) => {
                    return Err(e);
                },
            }
        }
        Ok(self)
    }
}

/// Whether a comma occurs anywhere in the run.
fn has_comma(v: &Vec<char>) -> (r: bool)
    ensures
        r == (spec_find(v@, seq![',']) >= 0),
{
    let mut pat: Vec<char> = Vec::new();
    pat.push(',');
    proof {
        assert(pat@ =~= seq![',']);
    }
    match find_sub(v, &pat) {
        Option::Some(_) => true,
        Option::None => false,
    }
}

} // verus!
