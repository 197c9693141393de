//! Character-level helpers shared by the reference-number codecs and the
//! Swico text machinery: digit tests and conversions, ASCII upper-casing,
//! whitespace trimming, and conversions between `&str`, `Vec<char>` and
//! `String`.

use vstd::prelude::*;
use vstd::string::StrSliceExecFns;

verus! {

/// Relies on String::push: appends exactly the given character.
pub assume_specification[ String::push ](s: &mut String, ch: char)
    ensures
        final(s)@ == old(s)@.push(ch),
;

pub open spec fn spec_is_digit(c: char) -> bool {
    '0' <= c && c <= '9'
}

/// Numeric value of a decimal digit character.
pub open spec fn spec_digit_val(c: char) -> int {
    c as int - '0' as int
}

/// The decimal digit character for a value in 0..=9.
pub open spec fn spec_digit_char(v: int) -> char {
    if v == 0 { '0' } else if v == 1 { '1' } else if v == 2 { '2' }
    else if v == 3 { '3' } else if v == 4 { '4' } else if v == 5 { '5' }
    else if v == 6 { '6' } else if v == 7 { '7' } else if v == 8 { '8' }
    else { '9' }
}

pub open spec fn all_digits(s: Seq<char>) -> bool {
    forall|i: int| 0 <= i < s.len() ==> spec_is_digit(#[trigger] s[i])
}

pub fn is_digit(c: char) -> (r: bool)
    ensures
        r == spec_is_digit(c),
{
    '0' <= c && c <= '9'
}

pub fn digit_val(c: char) -> (r: u32)
    requires
        spec_is_digit(c),
    ensures
        r == spec_digit_val(c),
        r <= 9,
{
    c as u32 - '0' as u32
}

pub fn digit_char(v: u32) -> (r: char)
    requires
        v <= 9,
    ensures
        r == spec_digit_char(v as int),
{
    match v {
        0 => '0',
        1 => '1',
        2 => '2',
        3 => '3',
        4 => '4',
        5 => '5',
        6 => '6',
        7 => '7',
        8 => '8',
        _ => '9',
    }
}

/// The characters the trimming of free text removes at either end: the
/// Unicode white-space characters.
pub open spec fn spec_is_space(c: char) -> bool {
    ||| c == ' ' || c == '\t' || c == '\n' || c == '\r'
    ||| c == '\u{b}' || c == '\u{c}' || c == '\u{85}' || c == '\u{a0}'
    ||| c == '\u{1680}'
    ||| ('\u{2000}' <= c && c <= '\u{200a}')
    ||| c == '\u{2028}' || c == '\u{2029}' || c == '\u{202f}' || c == '\u{205f}'
    ||| c == '\u{3000}'
}

pub fn is_space(c: char) -> (r: bool)
    ensures
        r == spec_is_space(c),
{
    c == ' ' || c == '\t' || c == '\n' || c == '\r'
        || c == '\u{b}' || c == '\u{c}' || c == '\u{85}' || c == '\u{a0}'
        || c == '\u{1680}'
        || ('\u{2000}' <= c && c <= '\u{200a}')
        || c == '\u{2028}' || c == '\u{2029}' || c == '\u{202f}' || c == '\u{205f}'
        || c == '\u{3000}'
}

/// Index of the first non-space character, or the length if all are spaces.
pub open spec fn spec_trim_start(s: Seq<char>) -> int
    decreases s.len(),
{
    if s.len() == 0 {
        0
    } else if spec_is_space(s[0]) {
        1 + spec_trim_start(s.skip(1))
    } else {
        0
    }
}

/// One past the last non-space character, or 0 if all are spaces.
pub open spec fn spec_trim_end(s: Seq<char>) -> int
    decreases s.len(),
{
    if s.len() == 0 {
        0
    } else if spec_is_space(s[s.len() - 1]) {
        spec_trim_end(s.take(s.len() - 1))
    } else {
        s.len() as int
    }
}

/// The sequence with leading and trailing spaces removed.
pub open spec fn spec_trim(s: Seq<char>) -> Seq<char> {
    if spec_trim_start(s) == s.len() {
        Seq::empty()
    } else {
        s.subrange(spec_trim_start(s), spec_trim_end(s))
    }
}

proof fn lemma_trim_start_bounds(s: Seq<char>)
    ensures
        0 <= spec_trim_start(s) <= s.len(),
        forall|i: int| 0 <= i < spec_trim_start(s) ==> spec_is_space(#[trigger] s[i]),
        spec_trim_start(s) < s.len() ==> !spec_is_space(s[spec_trim_start(s)]),
    decreases s.len(),
{
    if s.len() > 0 && spec_is_space(s[0]) {
        lemma_trim_start_bounds(s.skip(1));
        let st = spec_trim_start(s);
        assert forall|i: int| 0 <= i < st implies spec_is_space(s[i]) by {
            if i > 0 {
                assert(s.skip(1)[i - 1] == s[i]);
            }
        }
        if st < s.len() {
            assert(s.skip(1)[st - 1] == s[st]);
        }
    }
}

proof fn lemma_trim_end_bounds(s: Seq<char>)
    ensures
        0 <= spec_trim_end(s) <= s.len(),
        forall|i: int| spec_trim_end(s) <= i < s.len() ==> spec_is_space(#[trigger] s[i]),
        spec_trim_end(s) > 0 ==> !spec_is_space(s[spec_trim_end(s) - 1]),
    decreases s.len(),
{
    if s.len() > 0 && spec_is_space(s[s.len() - 1]) {
        lemma_trim_end_bounds(s.take(s.len() - 1));
        let te = spec_trim_end(s);
        assert forall|i: int| te <= i < s.len() implies spec_is_space(s[i]) by {
            if i < s.len() - 1 {
                assert(s.take(s.len() - 1)[i] == s[i]);
            }
        }
        if te > 0 {
            assert(s.take(s.len() - 1)[te - 1] == s[te - 1]);
        }
    }
}

/// When some character is not a space, the first and last non-space
/// positions are in the expected order.
proof fn lemma_trim_order(s: Seq<char>)
    requires
        spec_trim_start(s) < s.len(),
    ensures
        spec_trim_start(s) < spec_trim_end(s) <= s.len(),
{
    lemma_trim_start_bounds(s);
    lemma_trim_end_bounds(s);
    if spec_trim_end(s) <= spec_trim_start(s) {
        assert(spec_is_space(s[spec_trim_start(s)]));
    }
}

/// Remove leading and trailing spaces from a character vector.
pub fn trim_chars(s: &Vec<char>) -> (r: Vec<char>)
    ensures
        r@ == spec_trim(s@),
{
    proof {
        lemma_trim_start_bounds(s@);
        lemma_trim_end_bounds(s@);
    }
    let mut start: usize = 0;
    while start < s.len() && is_space(s[start])
        invariant
            0 <= start <= s.len(),
            forall|i: int| 0 <= i < start ==> spec_is_space(#[trigger] s@[i]),
            start <= spec_trim_start(s@),
        decreases s.len() - start,
    {
        proof {
            lemma_trim_start_bounds(s@);
            if start + 1 > spec_trim_start(s@) {
                assert(!spec_is_space(s@[spec_trim_start(s@)]));
            }
        }
        start = start + 1;
    }
    proof {
        if start < spec_trim_start(s@) {
            assert(spec_is_space(s@[start as int]));
        }
        assert(start == spec_trim_start(s@));
    }
    if start == s.len() {
        let r: Vec<char> = Vec::new();
        proof {
            assert(spec_trim(s@) =~= Seq::<char>::empty());
        }
        return r;
    }
    proof {
        lemma_trim_order(s@);
    }
    let mut end: usize = s.len();
    while end > start && is_space(s[end - 1])
        invariant
            start < end <= s.len(),
            forall|i: int| end <= i < s.len() ==> spec_is_space(#[trigger] s@[i]),
            end >= spec_trim_end(s@),
            start == spec_trim_start(s@),
            start < spec_trim_end(s@) <= s.len(),
        decreases end,
    {
        proof {
            lemma_trim_end_bounds(s@);
            if end - 1 < spec_trim_end(s@) {
                assert(!spec_is_space(s@[spec_trim_end(s@) - 1]));
            }
        }
        end = end - 1;
    }
    proof {
        if end > spec_trim_end(s@) {
            assert(spec_is_space(s@[end - 1]));
        }
        assert(end == spec_trim_end(s@));
    }
    let mut r: Vec<char> = Vec::new();
    let mut i: usize = start;
    while i < end
        invariant
            start <= i <= end <= s.len(),
            r@ == s@.subrange(start as int, i as int),
        decreases end - i,
    {
        r.push(s[i]);
        proof {
            assert(r@ =~= s@.subrange(start as int, i + 1));
        }
        i = i + 1;
    }
    r
}

/// Copy an index range of a character run.
pub fn copy_range(v: &Vec<char>, from: usize, to: usize) -> (r: Vec<char>)
    requires
        from <= to <= v@.len(),
    ensures
        r@ == v@.subrange(from as int, to as int),
{
    let mut r: Vec<char> = Vec::new();
    let mut i: usize = from;
    while i < to
        invariant
            from <= i <= to <= v@.len(),
            r@ == v@.subrange(from as int, i as int),
        decreases to - i,
    {
        r.push(v[i]);
        proof {
            assert(r@ =~= v@.subrange(from as int, i + 1));
        }
        i = i + 1;
    }
    r
}

/// Add two sizes, clamping at the largest representable value.
pub fn add_clamped(a: usize, b: usize) -> (r: usize)
    ensures
        r as int == if a + b <= usize::MAX as int {
            a + b
        } else {
            usize::MAX as int
        },
{
    let s: u128 = a as u128 + b as u128;
    if s > usize::MAX as u128 {
        usize::MAX
    } else {
        s as usize
    }
}

/// Whether every character of the run is a decimal digit.
pub fn all_digits_chars(v: &Vec<char>) -> (r: bool)
    ensures
        r == all_digits(v@),
{
    let mut i: usize = 0;
    while i < v.len()
        invariant
            0 <= i <= v@.len(),
            forall|q: int| 0 <= q < i ==> spec_is_digit(#[trigger] v@[q]),
        decreases v.len() - i,
    {
        if !is_digit(v[i]) {
            proof {
                assert(!spec_is_digit(v@[i as int]));
            }
            return false;
        }
        i = i + 1;
    }
    true
}

/// The pattern `p` occurs in `s` starting at position `i`.
pub open spec fn contains_at(s: Seq<char>, p: Seq<char>, i: int) -> bool {
    &&& 0 <= i
    &&& i + p.len() <= s.len()
    &&& forall|j: int| 0 <= j < p.len() ==> s[i + j] == #[trigger] p[j]
}

/// The first position at or after `i` where `p` occurs in `s`, or -1.
pub open spec fn spec_find_from(s: Seq<char>, p: Seq<char>, i: int) -> int
    decreases s.len() - i,
{
    if i < 0 || i + p.len() > s.len() {
        -1
    } else if contains_at(s, p, i) {
        i
    } else {
        spec_find_from(s, p, i + 1)
    }
}

/// The first position where `p` occurs in `s`, or -1 if it does not occur.
pub open spec fn spec_find(s: Seq<char>, p: Seq<char>) -> int {
    spec_find_from(s, p, 0)
}

/// `spec_find_from` returns exactly the first occurrence at or after `i`.
pub proof fn lemma_find_from_props(s: Seq<char>, p: Seq<char>, i: int)
    requires
        0 <= i,
    ensures
        ({
            let f = spec_find_from(s, p, i);
            &&& (f == -1 ==> forall|j: int| j >= i ==> !contains_at(s, p, j))
            &&& (f >= 0 ==> f >= i && contains_at(s, p, f)
                && (forall|j: int| i <= j < f ==> !contains_at(s, p, j)))
        }),
    decreases s.len() - i,
{
    if i + p.len() > s.len() {
        assert forall|j: int| j >= i implies !contains_at(s, p, j) by {}
    } else if contains_at(s, p, i) {
    } else {
        lemma_find_from_props(s, p, i + 1);
    }
}

/// Find the first occurrence of `p` in `s`.
pub fn find_sub(s: &Vec<char>, p: &Vec<char>) -> (r: Option<usize>)
    requires
        p@.len() >= 1,
    ensures
        match r {
            Some(i) => spec_find(s@, p@) == i as int,
            None => spec_find(s@, p@) == -1,
        },
{
    if p.len() > s.len() {
        proof {
            assert(spec_find_from(s@, p@, 0) == -1);
        }
        return None;
    }
    let last = s.len() - p.len();
    let mut i: usize = 0;
    while i <= last
        invariant
            p@.len() >= 1,
            last == s@.len() - p@.len(),
            last < usize::MAX,
            0 <= i <= last + 1,
            spec_find_from(s@, p@, 0) == spec_find_from(s@, p@, i as int),
        decreases last + 1 - i,
    {
        if match_at(s, p, i) {
            return Some(i);
        }
        i = i + 1;
    }
    proof {
        assert(spec_find_from(s@, p@, i as int) == -1);
    }
    None
}

/// Whether `p` matches `s` at position `i`.
fn match_at(s: &Vec<char>, p: &Vec<char>, i: usize) -> (r: bool)
    requires
        i + p@.len() <= s@.len(),
    ensures
        r == contains_at(s@, p@, i as int),
{
    let n = s.len();
    let mut j: usize = 0;
    while j < p.len()
        invariant
            0 <= j <= p@.len(),
            i + p@.len() <= s@.len(),
            n == s@.len(),
            forall|q: int| 0 <= q < j ==> s@[i + q] == #[trigger] p@[q],
        decreases p.len() - j,
    {
        if s[i + j] != p[j] {
            proof {
                assert(s@[i + j] != p@[j as int]);
            }
            return false;
        }
        j = j + 1;
    }
    true
}

/// The characters of a string slice, in order.
pub fn str_to_chars(s: &str) -> (r: Vec<char>)
    ensures
        r@ == s@,
{
    let n = s.unicode_len();
    let mut r: Vec<char> = Vec::new();
    let mut i: usize = 0;
    while i < n
        invariant
            0 <= i <= n,
            n == s@.len(),
            r@ == s@.take(i as int),
        decreases n - i,
    {
        r.push(s.get_char(i));
        proof {
            assert(r@ =~= s@.take(i + 1));
        }
        i = i + 1;
    }
    proof {
        assert(s@.take(n as int) =~= s@);
    }
    r
}

/// A `String` holding exactly the given characters.
pub fn chars_to_string(v: &Vec<char>) -> (r: String)
    ensures
        r@ == v@,
{
    let mut r = String::new();
    let mut i: usize = 0;
    while i < v.len()
        invariant
            0 <= i <= v.len(),
            r@ == v@.take(i as int),
        decreases v.len() - i,
    {
        r.push(v[i]);
        proof {
            assert(r@ =~= v@.take(i + 1));
        }
        i = i + 1;
    }
    proof {
        assert(v@.take(v@.len() as int) =~= v@);
    }
    r
}

} // verus!
