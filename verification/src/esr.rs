//! The ESR (QRR) payment reference: a numeric reference whose last digit is
//! a modulo-10 check digit computed with a fixed substitution table.

use vstd::prelude::*;

verus! {

use crate::chars::all_digits;
use crate::chars::chars_to_string;
use crate::chars::digit_char;
use crate::chars::digit_val;
use crate::chars::is_digit;
use crate::chars::spec_digit_char;
use crate::chars::spec_digit_val;
use crate::chars::spec_is_digit;
use crate::chars::str_to_chars;

/// Failure cases when constructing an [`Esr`].
#[derive(Debug, Clone, Copy, PartialEq, Eq, Structural)]
pub enum Error {
    InvalidLength,
    InvalidFormat,
    InvalidChecksum,
}

/// The modulo-10 substitution table that drives the running checksum state.
pub open spec fn esr_table(i: int) -> int {
    if i == 0 { 0 } else if i == 1 { 9 } else if i == 2 { 4 }
    else if i == 3 { 6 } else if i == 4 { 8 } else if i == 5 { 2 }
    else if i == 6 { 7 } else if i == 7 { 1 } else if i == 8 { 3 }
    else { 5 }
}

/// The checksum state after feeding every digit of `s`, starting from 0:
/// each digit `d` moves state `c` to `table[(d + c) mod 10]`.
pub open spec fn esr_state(s: Seq<char>) -> int
    decreases s.len(),
{
    if s.len() == 0 {
        0
    } else {
        esr_table((spec_digit_val(s.last()) + esr_state(s.drop_last())) % 10)
    }
}

/// The check digit of a digit string: `(10 - state) mod 10`.
pub open spec fn esr_check(s: Seq<char>) -> int {
    (10 - esr_state(s)) % 10
}

proof fn lemma_state_range(s: Seq<char>)
    ensures
        0 <= esr_state(s) <= 9,
        0 <= esr_check(s) <= 9,
    decreases s.len(),
{
    if s.len() > 0 {
        lemma_state_range(s.drop_last());
    }
}

/// The input with every space removed.
pub open spec fn spec_strip_spaces(s: Seq<char>) -> Seq<char>
    decreases s.len(),
{
    if s.len() == 0 {
        Seq::empty()
    } else if s.last() == ' ' {
        spec_strip_spaces(s.drop_last())
    } else {
        spec_strip_spaces(s.drop_last()).push(s.last())
    }
}

/// The number of leading `'0'` characters.
pub open spec fn spec_leading_zeros(s: Seq<char>) -> int
    decreases s.len(),
{
    if s.len() == 0 {
        0
    } else if s[0] == '0' {
        1 + spec_leading_zeros(s.skip(1))
    } else {
        0
    }
}

/// The input with leading `'0'` characters removed.
pub open spec fn spec_strip_zeros(s: Seq<char>) -> Seq<char> {
    s.skip(spec_leading_zeros(s))
}

/// An ESR input is normalized by removing spaces, then leading zeros.
pub open spec fn esr_normalize(s: Seq<char>) -> Seq<char> {
    spec_strip_zeros(spec_strip_spaces(s))
}

proof fn lemma_leading_zeros_bounds(s: Seq<char>)
    ensures
        0 <= spec_leading_zeros(s) <= s.len(),
        forall|i: int| 0 <= i < spec_leading_zeros(s) ==> #[trigger] s[i] == '0',
        spec_leading_zeros(s) < s.len() ==> s[spec_leading_zeros(s)] != '0',
    decreases s.len(),
{
    if s.len() > 0 && s[0] == '0' {
        lemma_leading_zeros_bounds(s.skip(1));
        let lz = spec_leading_zeros(s);
        assert forall|i: int| 0 <= i < lz implies s[i] == '0' by {
            if i > 0 {
                assert(s.skip(1)[i - 1] == s[i]);
            }
        }
        if lz < s.len() {
            assert(s.skip(1)[lz - 1] == s[lz]);
        }
    }
}

/// A nonempty normalized input starts with no `'0'`.
proof fn lemma_normalize_first(s: Seq<char>)
    ensures
        esr_normalize(s).len() > 0 ==> esr_normalize(s)[0] != '0',
{
    let ss = spec_strip_spaces(s);
    lemma_leading_zeros_bounds(ss);
    let lz = spec_leading_zeros(ss);
    if esr_normalize(s).len() > 0 {
        assert(ss.skip(lz)[0] == ss[lz]);
    }
}

/// A normalized input that starts with no zero and holds no space is its
/// own normalization.
pub proof fn lemma_normalize_fixed(s: Seq<char>)
    requires
        forall|i: int| 0 <= i < s.len() ==> #[trigger] s[i] != ' ',
        s.len() > 0 ==> s[0] != '0',
    ensures
        esr_normalize(s) == s,
    decreases s.len(),
{
    if s.len() == 0 {
        assert(spec_strip_spaces(s) =~= s);
        assert(spec_strip_zeros(s) =~= s);
    } else {
        lemma_strip_spaces_none(s);
        assert(spec_leading_zeros(s) == 0);
        assert(spec_strip_zeros(s) =~= s);
    }
}

proof fn lemma_strip_spaces_none(s: Seq<char>)
    requires
        forall|i: int| 0 <= i < s.len() ==> #[trigger] s[i] != ' ',
    ensures
        spec_strip_spaces(s) == s,
    decreases s.len(),
{
    if s.len() > 0 {
        lemma_strip_spaces_none(s.drop_last());
        assert(spec_strip_spaces(s) =~= s.drop_last().push(s.last()));
        assert(s.drop_last().push(s.last()) =~= s);
    }
}

/// A fully validated reference: 5 to 27 digits, whose last digit is the
/// check digit of the digits before it.
pub open spec fn esr_valid(n: Seq<char>) -> bool {
    &&& 5 <= n.len() <= 27
    &&& all_digits(n.drop_last())
    &&& n.last() == spec_digit_char(esr_check(n.drop_last()))
}

/// A validated ESR reference number, held in normalized form: digits only,
/// no leading zero, checksum verified.
#[derive(Debug, Clone)]
pub struct Esr {
    number: String,
}

impl View for Esr {
    type V = Seq<char>;

    closed spec fn view(&self) -> Seq<char> {
        self.number@
    }
}

impl Esr {
    /// The stored reference is normalized, at most 27 digits, nonempty,
    /// with a correct trailing check digit.
    pub closed spec fn wf(&self) -> bool {
        &&& 1 <= self@.len() <= 27
        &&& all_digits(self@)
        &&& self@[0] != '0'
        &&& self@.last() == spec_digit_char(esr_check(self@.drop_last()))
    }

    /// Accepts a reference with its trailing check digit, of any length up
    /// to 27 digits after normalization; the input must not normalize to
    /// an empty string.
    pub fn try_new(number: String) -> (r: Result<Self, Error>)
        requires
            esr_normalize(number@).len() >= 1,
        ensures
            ({
                let n = esr_normalize(number@);
                match r {
                    Ok(e) => {
                        &&& n.len() <= 27
                        &&& all_digits(n)
                        &&& n.last() == spec_digit_char(esr_check(n.drop_last()))
                        &&& e@ == n
                        &&& e.wf()
                    },
                    Err(Error::InvalidLength) => n.len() > 27,
                    Err(Error::InvalidFormat) => n.len() <= 27 && !all_digits(n.drop_last()),
                    Err(Error::InvalidChecksum) => {
                        &&& n.len() <= 27
                        &&& all_digits(n.drop_last())
                        &&& n.last() != spec_digit_char(esr_check(n.drop_last()))
                    },
                }
            }),
    {
        let n = normalize(&number);
        if n.len() > 27 {
            return Err(Error::InvalidLength);
        }
        match checked_chars(&n) {
            Ok(()) => {
                proof {
                    lemma_last_digit(n@);
                    lemma_normalize_first(number@);
                }
                Ok(Esr { number: chars_to_string(&n) })
            },
            Err(e) => Err(e),
        }
    }

    /// Accepts a reference with its trailing check digit: 5 to 27 digits
    /// after normalization, trailing digit matching the checksum of the
    /// rest.
    pub fn try_with_checksum(number: String) -> (r: Result<Self, Error>)
        ensures
            ({
                let n = esr_normalize(number@);
                match r {
                    Ok(e) => esr_valid(n) && e@ == n && e.wf(),
                    Err(Error::InvalidLength) => n.len() > 27 || n.len() < 5,
                    Err(Error::InvalidFormat) => {
                        &&& 5 <= n.len() <= 27
                        &&& !all_digits(n.drop_last())
                    },
                    Err(Error::InvalidChecksum) => {
                        &&& 5 <= n.len() <= 27
                        &&& all_digits(n.drop_last())
                        &&& n.last() != spec_digit_char(esr_check(n.drop_last()))
                    },
                }
            }),
    {
        let n = normalize(&number);
        if n.len() > 27 || n.len() < 5 {
            return Err(Error::InvalidLength);
        }
        match checked_chars(&n) {
            Ok(()) => {
                proof {
                    lemma_last_digit(n@);
                    lemma_normalize_first(number@);
                }
                Ok(Esr { number: chars_to_string(&n) })
            },
            Err(e) => Err(e),
        }
    }

    /// Accepts a reference without its check digit: 5 to 25 digits after
    /// normalization; computes and appends the check digit.
    pub fn try_without_checksum(value: String) -> (r: Result<Self, Error>)
        ensures
            ({
                let n = esr_normalize(value@);
                match r {
                    Ok(e) => {
                        &&& 5 <= n.len() <= 25
                        &&& all_digits(n)
                        &&& e@ == n.push(spec_digit_char(esr_check(n)))
                        &&& e.wf()
                    },
                    Err(Error::InvalidLength) => n.len() > 25 || n.len() < 5,
                    Err(Error::InvalidFormat) => 5 <= n.len() <= 25 && !all_digits(n),
                    Err(Error::InvalidChecksum) => false,
                }
            }),
    {
        let mut n = normalize(&value);
        if n.len() > 25 || n.len() < 5 {
            return Err(Error::InvalidLength);
        }
        match checksum_chars(&n) {
            Ok(k) => {
                proof {
                    lemma_state_range(n@);
                    lemma_normalize_first(value@);
                }
                n.push(k);
                proof {
                    let m = esr_normalize(value@);
                    assert(n@.drop_last() =~= m);
                    assert(n@[0] == m[0]);
                    assert(spec_is_digit(n@.last()));
                    assert forall|i: int| 0 <= i < n@.len()
                        implies spec_is_digit(n@[i]) by {
                        if i < n@.len() - 1 {
                            assert(n@.drop_last()[i] == n@[i]);
                        }
                    }
                }
                Ok(Esr { number: chars_to_string(&n) })
            },
            Err(e) => Err(e),
        }
    }

    /// The normalized reference as stored, check digit included.
    pub fn to_raw(&self) -> (r: String)
        ensures
            r@ == self@,
    {
        self.number.clone()
    }

    /// The display form: the reference left-padded with zeros to 27
    /// digits, grouped as 2 + 5 + 5 + 5 + 5 + 5 digits separated by
    /// single spaces.
    pub fn formatted(&self) -> (r: String)
        requires
            self.wf(),
        ensures
            r@ == esr_formatted(self@),
    {
        let cs = str_to_chars(self.number.as_str());
        let mut padded: Vec<char> = Vec::new();
        let mut i: usize = 0;
        let pad = 27 - cs.len();
        while i < pad
            invariant
                0 <= i <= pad,
                pad == 27 - cs@.len(),
                cs@.len() <= 27,
                padded@ =~= Seq::new(i as nat, |q: int| '0'),
            decreases pad - i,
        {
            padded.push('0');
            i = i + 1;
        }
        let mut j: usize = 0;
        while j < cs.len()
            invariant
                0 <= j <= cs@.len(),
                cs@.len() <= 27,
                padded@ =~= Seq::new((27 - cs@.len()) as nat, |q: int| '0') + cs@.take(j as int),
            decreases cs.len() - j,
        {
            padded.push(cs[j]);
            j = j + 1;
        }
        proof {
            assert(cs@.take(cs@.len() as int) =~= cs@);
            assert(padded@ =~= esr_pad(self@));
        }
        let mut out: Vec<char> = Vec::new();
        let mut k: usize = 0;
        while k < 27
            invariant
                0 <= k <= 27,
                padded@.len() == 27,
                padded@ == esr_pad(self@),
                out@ =~= esr_grouped_prefix(padded@, k as int),
        decreases 27 - k,
        {
            if k == 2 || k == 7 || k == 12 || k == 17 || k == 22 {
                out.push(' ');
            }
            out.push(padded[k]);
            k = k + 1;
        }
        proof {
            assert(out@ =~= esr_formatted(self@));
        }
        chars_to_string(&out)
    }
}

/// The reference left-padded with zeros to 27 characters.
pub open spec fn esr_pad(n: Seq<char>) -> Seq<char> {
    Seq::new((27 - n.len()) as nat, |q: int| '0') + n
}

/// The first `k` characters of the padded reference, with a space before
/// positions 2, 7, 12, 17 and 22.
pub open spec fn esr_grouped_prefix(p: Seq<char>, k: int) -> Seq<char>
    decreases k,
{
    if k <= 0 {
        Seq::empty()
    } else {
        let sep: Seq<char> = if k - 1 == 2 || k - 1 == 7 || k - 1 == 12 || k - 1 == 17
            || k - 1 == 22 { seq![' '] } else { Seq::empty() };
        esr_grouped_prefix(p, k - 1) + sep + seq![p[k - 1]]
    }
}

/// The display form of a reference of at most 27 digits.
pub open spec fn esr_formatted(n: Seq<char>) -> Seq<char> {
    esr_grouped_prefix(esr_pad(n), 27)
}

/// If all digits of `n` but possibly the last are digits and the last
/// equals the check digit of the rest, then all of `n` are digits.
proof fn lemma_last_digit(n: Seq<char>)
    requires
        n.len() >= 1,
        all_digits(n.drop_last()),
        n.last() == spec_digit_char(esr_check(n.drop_last())),
    ensures
        all_digits(n),
{
    lemma_state_range(n.drop_last());
    assert(spec_is_digit(n.last()));
    assert forall|i: int| 0 <= i < n.len() implies spec_is_digit(n[i]) by {
        if i < n.len() - 1 {
            assert(n.drop_last()[i] == n[i]);
        }
    }
}

/// Normalize an input: remove spaces, then leading zeros.
fn normalize(s: &String) -> (r: Vec<char>)
    ensures
        r@ == esr_normalize(s@),
{
    let cs = str_to_chars(s.as_str());
    let mut no_spaces: Vec<char> = Vec::new();
    let mut i: usize = 0;
    while i < cs.len()
        invariant
            0 <= i <= cs@.len(),
            no_spaces@ == spec_strip_spaces(cs@.take(i as int)),
        decreases cs.len() - i,
    {
        proof {
            assert(cs@.take(i + 1).drop_last() =~= cs@.take(i as int));
            assert(cs@.take(i + 1).last() == cs@[i as int]);
        }
        if cs[i] != ' ' {
            no_spaces.push(cs[i]);
        }
        i = i + 1;
    }
    proof {
        assert(cs@.take(cs@.len() as int) =~= cs@);
        lemma_leading_zeros_bounds(no_spaces@);
    }
    let mut start: usize = 0;
    while start < no_spaces.len() && no_spaces[start] == '0'
        invariant
            0 <= start <= no_spaces@.len(),
            forall|i: int| 0 <= i < start ==> #[trigger] no_spaces@[i] == '0',
            start <= spec_leading_zeros(no_spaces@),
        decreases no_spaces.len() - start,
    {
        proof {
            lemma_leading_zeros_bounds(no_spaces@);
            if start + 1 > spec_leading_zeros(no_spaces@) {
                assert(no_spaces@[spec_leading_zeros(no_spaces@)] != '0');
            }
        }
        start = start + 1;
    }
    proof {
        lemma_leading_zeros_bounds(no_spaces@);
        if start < spec_leading_zeros(no_spaces@) {
            assert(no_spaces@[start as int] == '0');
        }
        assert(start == spec_leading_zeros(no_spaces@));
    }
    let mut r: Vec<char> = Vec::new();
    let mut j: usize = start;
    while j < no_spaces.len()
        invariant
            start <= j <= no_spaces@.len(),
            r@ == no_spaces@.subrange(start as int, j as int),
        decreases no_spaces.len() - j,
    {
        r.push(no_spaces[j]);
        proof {
            assert(r@ =~= no_spaces@.subrange(start as int, j + 1));
        }
        j = j + 1;
    }
    proof {
        assert(no_spaces@.subrange(start as int, no_spaces@.len() as int)
            =~= no_spaces@.skip(start as int));
    }
    r
}

/// The check digit of a digit vector, as a character.
fn checksum_chars(n: &Vec<char>) -> (r: Result<char, Error>)
    ensures
        all_digits(n@) ==> r == Ok::<char, Error>(spec_digit_char(esr_check(n@))),
        !all_digits(n@) ==> r == Err::<char, Error>(Error::InvalidFormat),
{
    let mut c: u32 = 0;
    let mut i: usize = 0;
    while i < n.len()
        invariant
            0 <= i <= n@.len(),
            c <= 9,
            all_digits(n@.take(i as int)),
            c == esr_state(n@.take(i as int)),
        decreases n.len() - i,
    {
        if !is_digit(n[i]) {
            return Err(Error::InvalidFormat);
        }
        let d = digit_val(n[i]);
        proof {
            assert(n@.take(i + 1).drop_last() =~= n@.take(i as int));
            assert(n@.take(i + 1).last() == n@[i as int]);
        }
        c = table_lookup((d + c) % 10);
        i = i + 1;
    }
    proof {
        assert(n@.take(n@.len() as int) =~= n@);
    }
    Ok(digit_char((10 - c) % 10))
}

/// Check that the last character equals the check digit of the rest.
fn checked_chars(n: &Vec<char>) -> (r: Result<(), Error>)
    requires
        n@.len() >= 1,
    ensures
        ({
            let prefix = n@.drop_last();
            match r {
                Ok(()) => {
                    &&& all_digits(prefix)
                    &&& n@.last() == spec_digit_char(esr_check(prefix))
                },
                Err(Error::InvalidFormat) => !all_digits(prefix),
                Err(Error::InvalidChecksum) => {
                    &&& all_digits(prefix)
                    &&& n@.last() != spec_digit_char(esr_check(prefix))
                },
                Err(Error::InvalidLength) => false,
            }
        }),
{
    let mut prefix: Vec<char> = Vec::new();
    let mut i: usize = 0;
    while i < n.len() - 1
        invariant
            n@.len() >= 1,
            0 <= i <= n@.len() - 1,
            prefix@ == n@.take(i as int),
        decreases n.len() - 1 - i,
    {
        prefix.push(n[i]);
        proof {
            assert(prefix@ =~= n@.take(i + 1));
        }
        i = i + 1;
    }
    proof {
        assert(n@.take(n@.len() - 1) =~= n@.drop_last());
    }
    match checksum_chars(&prefix) {
        Ok(k) => {
            if n[n.len() - 1] == k {
                Ok(())
            } else {
                Err(Error::InvalidChecksum)
            }
        },
        Err(e) => Err(e),
    }
}

/// Substitution-table lookup.
fn table_lookup(i: u32) -> (r: u32)
    requires
        i <= 9,
    ensures
        r == esr_table(i as int),
        r <= 9,
{
    match i {
        0 => 0,
        1 => 9,
        2 => 4,
        3 => 6,
        4 => 8,
        5 => 2,
        6 => 7,
        7 => 1,
        8 => 3,
        _ => 5,
    }
}

/// The check digit of a digit string, as a one-character string.
pub fn checksum(number: String) -> (r: Result<String, Error>)
    ensures
        all_digits(number@) ==> ({
            &&& r is Ok
            &&& r.unwrap()@ == seq![spec_digit_char(esr_check(number@))]
        }),
        !all_digits(number@) ==> r == Err::<String, Error>(Error::InvalidFormat),
{
    let cs = str_to_chars(number.as_str());
    match checksum_chars(&cs) {
        Ok(k) => {
            let mut v: Vec<char> = Vec::new();
            v.push(k);
            Ok(chars_to_string(&v))
        },
        Err(e) => Err(e),
    }
}

/// Check a full reference string: the last character must be the check
/// digit of the characters before it.
pub fn is_checksum_valid(number: &str) -> (r: Result<(), Error>)
    requires
        number@.len() >= 1,
    ensures
        ({
            let prefix = number@.drop_last();
            match r {
                Ok(()) => {
                    &&& all_digits(prefix)
                    &&& number@.last() == spec_digit_char(esr_check(prefix))
                },
                Err(Error::InvalidFormat) => !all_digits(prefix),
                Err(Error::InvalidChecksum) => {
                    &&& all_digits(prefix)
                    &&& number@.last() != spec_digit_char(esr_check(prefix))
                },
                Err(Error::InvalidLength) => false,
            }
        }),
{
    let cs = str_to_chars(number);
    checked_chars(&cs)
}

/// Appending the computed check digit to a normalized digit string of 5 to
/// 25 digits yields a reference that passes full validation: this is the
/// round trip between `try_without_checksum` and `try_with_checksum`.
pub proof fn lemma_append_checksum_valid(d: Seq<char>)
    requires
        all_digits(d),
        5 <= d.len() <= 25,
        d[0] != '0',
    ensures
        ({
            let full = d.push(spec_digit_char(esr_check(d)));
            &&& esr_normalize(d) == d
            &&& esr_normalize(full) == full
            &&& esr_valid(full)
            &&& full.drop_last() == d
        }),
{
    let k = spec_digit_char(esr_check(d));
    let full = d.push(k);
    lemma_state_range(d);
    assert(spec_is_digit(k));
    assert(forall|i: int| 0 <= i < d.len() ==> full[i] == #[trigger] d[i]);
    assert(forall|i: int| 0 <= i < full.len() ==>
        #[trigger] full[i] != ' ' && spec_is_digit(full[i]));
    lemma_normalize_fixed(d);
    lemma_normalize_fixed(full);
    assert(full.drop_last() =~= d);
}

/// Changing exactly the last digit of a valid reference to a different
/// digit always fails the checksum comparison (and only that): the
/// mutated string still normalizes to itself and keeps a digit prefix,
/// but its trailing digit no longer matches.
pub proof fn lemma_mutated_checksum_invalid(n: Seq<char>, k: char)
    requires
        esr_valid(n),
        n[0] != '0',
        spec_is_digit(k),
        k != n.last(),
    ensures
        ({
            let m = n.update(n.len() - 1, k);
            &&& esr_normalize(m) == m
            &&& 5 <= m.len() <= 27
            &&& all_digits(m.drop_last())
            &&& m.last() != spec_digit_char(esr_check(m.drop_last()))
            &&& !esr_valid(m)
        }),
{
    let m = n.update(n.len() - 1, k);
    lemma_state_range(n.drop_last());
    assert(m.drop_last() =~= n.drop_last());
    assert(m.last() == k);
    assert(forall|i: int| 0 <= i < m.len() - 1 ==>
        #[trigger] m[i] == n.drop_last()[i]);
    assert(forall|i: int| 0 <= i < m.len() ==> #[trigger] m[i] != ' ') by {
        assert(forall|i: int| 0 <= i < m.len() - 1 ==>
            spec_is_digit(#[trigger] m[i]));
    }
    lemma_normalize_fixed(m);
}

} // verus!
