//! The ISO 11649 (SCOR) creditor reference: `RF`, two check digits, and an
//! alphanumeric body, checked with the ISO 7064 MOD 97-10 scheme.
//!
//! Two modes are offered: a generative constructor that turns arbitrary
//! text into a valid reference and never fails, and a strict validator
//! that checks an existing reference string.

use vstd::prelude::*;

verus! {

use crate::chars::chars_to_string;
use crate::chars::spec_digit_char;
use crate::chars::spec_is_digit;
use crate::chars::digit_char;
use crate::chars::str_to_chars;
use vstd::arithmetic::div_mod::lemma_fundamental_div_mod;
use vstd::arithmetic::div_mod::lemma_mod_multiples_vanish;

/// Failure cases of the strict validator.
#[derive(Debug, Clone, Copy, PartialEq, Eq, Structural)]
pub enum Iso11649Error {
    InvalidLength,
    InvalidFormat,
    InvalidCharacters,
    InvalidChecksum,
}

/// What `deunicode::deunicode` returns: a function of the input characters
/// alone.
pub uninterp spec fn deunicoded(s: Seq<char>) -> Seq<char>;

/// Relies on deunicode::deunicode: transliterates any text to ASCII. The
/// result depends on the input characters alone; it is always ASCII; an
/// input made only of characters strictly below the delete character
/// (0x7F) is returned unchanged, by the function's ASCII fast path; an
/// empty input gives an empty result. (Delete and the other control
/// characters are themselves transliterated, so full-ASCII identity does
/// not hold.)
#[verifier::external_body]
fn deunicode_str(s: &str) -> (r: String)
    ensures
        r@ == deunicoded(s@),
        forall|i: int| 0 <= i < r@.len() ==> (#[trigger] r@[i]) as u32 <= 127,
        (forall|i: int| 0 <= i < s@.len() ==> (#[trigger] s@[i]) as u32 <= 126) ==> r@ == s@,
        s@.len() == 0 ==> r@.len() == 0,
{
    deunicode::deunicode(s)
}

/// ASCII upper-casing of a single character; anything but `'a'..='z'` is
/// left unchanged.
pub open spec fn spec_upper(c: char) -> char {
    if 'a' <= c && c <= 'z' {
        (((c as u32) - 32) as u8) as char
    } else {
        c
    }
}

/// A digit or an upper-case ASCII letter: the characters a normalized
/// reference body may hold.
pub open spec fn spec_is_base36_upper(c: char) -> bool {
    spec_is_digit(c) || ('A' <= c && c <= 'Z')
}

/// Upper-case the input and keep only digits and letters.
pub open spec fn iso_normalize(s: Seq<char>) -> Seq<char>
    decreases s.len(),
{
    if s.len() == 0 {
        Seq::empty()
    } else {
        iso_normalize(s.drop_last()) + (if spec_is_base36_upper(spec_upper(s.last())) {
            seq![spec_upper(s.last())]
        } else {
            Seq::<char>::empty()
        })
    }
}

/// The normalized body of arbitrary text: ASCII transliteration, then
/// upper-casing, then dropping everything but digits and letters.
pub open spec fn iso_body(s: Seq<char>) -> Seq<char> {
    iso_normalize(deunicoded(s))
}

/// The body truncated to at most 21 characters.
pub open spec fn iso_take21(s: Seq<char>) -> Seq<char> {
    if s.len() <= 21 {
        s
    } else {
        s.take(21)
    }
}

/// The base-36 value of a character: digits map to themselves, letters of
/// either case to 10..=35. Other characters are given value 0; they never
/// occur where this function is applied.
pub open spec fn spec_b36_val(c: char) -> int {
    if spec_is_digit(c) {
        c as int - '0' as int
    } else if 'A' <= c && c <= 'Z' {
        c as int - 'A' as int + 10
    } else if 'a' <= c && c <= 'z' {
        c as int - 'a' as int + 10
    } else {
        0
    }
}

/// The decimal digits of one base-36 value: one digit below ten, else two.
pub open spec fn val_digits(v: int) -> Seq<int> {
    if v < 10 {
        seq![v]
    } else {
        seq![v / 10, v % 10]
    }
}

/// The decimal digit string of a base-36 character string: each character
/// contributes the decimal digits of its value, in order.
pub open spec fn dec_digits(s: Seq<char>) -> Seq<int>
    decreases s.len(),
{
    if s.len() == 0 {
        Seq::empty()
    } else {
        dec_digits(s.drop_last()) + val_digits(spec_b36_val(s.last()))
    }
}

/// The decimal number denoted by a digit string.
pub open spec fn dec_number(ds: Seq<int>) -> int
    decreases ds.len(),
{
    if ds.len() == 0 {
        0
    } else {
        dec_number(ds.drop_last()) * 10 + ds.last()
    }
}

/// The decimal number denoted by a digit string, modulo 97, folded one
/// digit at a time.
pub open spec fn num_mod97(ds: Seq<int>) -> int
    decreases ds.len(),
{
    if ds.len() == 0 {
        0
    } else {
        (num_mod97(ds.drop_last()) * 10 + ds.last()) % 97
    }
}

/// The check value of a body: `98 - (number of body ++ "RF00") mod 97`.
pub open spec fn iso_check(b: Seq<char>) -> int {
    98 - num_mod97(dec_digits(b + seq!['R', 'F', '0', '0']))
}

/// The generated reference for a body: `RF`, the two check digits, then
/// the body.
pub open spec fn iso_generated(b: Seq<char>) -> Seq<char> {
    seq!['R', 'F', spec_digit_char(iso_check(b) / 10), spec_digit_char(iso_check(b) % 10)] + b
}

/// The punctuation the strict validator removes before checking.
pub open spec fn spec_is_punct(c: char) -> bool {
    c == ' ' || c == '-' || c == '.' || c == ',' || c == '/' || c == ':'
}

/// The input with punctuation removed.
pub open spec fn strip_punct(s: Seq<char>) -> Seq<char>
    decreases s.len(),
{
    if s.len() == 0 {
        Seq::empty()
    } else if spec_is_punct(s.last()) {
        strip_punct(s.drop_last())
    } else {
        strip_punct(s.drop_last()).push(s.last())
    }
}

/// An ASCII alphanumeric character, either case.
pub open spec fn spec_is_alnum(c: char) -> bool {
    spec_is_digit(c) || ('A' <= c && c <= 'Z') || ('a' <= c && c <= 'z')
}

/// The rearrangement the MOD 97-10 check uses: the body moved before the
/// `RF` prefix and the check digits.
pub open spec fn iso_rearranged(t: Seq<char>) -> Seq<char> {
    t.skip(4) + t.take(4)
}

/// A reference string the strict validator accepts: after punctuation is
/// removed, 5 to 25 characters, starting `RF`, all alphanumeric, and the
/// rearranged string denotes a number congruent to 1 modulo 97.
pub open spec fn iso_strict_ok(s: Seq<char>) -> bool {
    let t = strip_punct(s);
    &&& 5 <= t.len() <= 25
    &&& t[0] == 'R' && t[1] == 'F'
    &&& forall|i: int| 0 <= i < t.len() ==> spec_is_alnum(#[trigger] t[i])
    &&& num_mod97(dec_digits(iso_rearranged(t))) == 1
}

/// An ISO 11649 creditor reference in the making: arbitrary text reduced
/// to its normalized alphanumeric body.
#[derive(Debug)]
pub struct Iso11649 {
    original: String,
}

impl Clone for Iso11649 {
    fn clone(&self) -> (r: Self)
        ensures
            r@ == self@,
    {
        proof {
            use_type_invariant(&*self);
        }
        Iso11649 { original: self.original.clone() }
    }
}

impl View for Iso11649 {
    type V = Seq<char>;

    closed spec fn view(&self) -> Seq<char> {
        self.original@
    }
}

impl Iso11649 {
    /// The stored body holds digits and upper-case letters only.
    #[verifier::type_invariant]
    pub closed spec fn wf(&self) -> bool {
        forall|i: int| 0 <= i < self@.len() ==> spec_is_base36_upper(#[trigger] self@[i])
    }

    /// The reference this value generates: the normalized body truncated
    /// to 21 characters behind `RF` and its two check digits.
    pub open spec fn generated(&self) -> Seq<char> {
        iso_generated(iso_take21(self@))
    }

    /// Reduce arbitrary text to a reference body: transliterate to ASCII,
    /// upper-case, and keep only digits and letters. Never fails.
    pub fn new(any_utf8_text: &str) -> (r: Self)
        ensures
            r@ == iso_body(any_utf8_text@),
    {
        let d = deunicode_str(any_utf8_text);
        let cs = str_to_chars(d.as_str());
        let mut body: Vec<char> = Vec::new();
        let mut i: usize = 0;
        while i < cs.len()
            invariant
                0 <= i <= cs@.len(),
                body@ == iso_normalize(cs@.take(i as int)),
                forall|j: int| 0 <= j < body@.len() ==>
                    spec_is_base36_upper(#[trigger] body@[j]),
            decreases cs.len() - i,
        {
            proof {
                assert(cs@.take(i + 1).drop_last() =~= cs@.take(i as int));
                assert(cs@.take(i + 1).last() == cs@[i as int]);
            }
            let u = upper_char(cs[i]);
            if is_base36_upper(u) {
                body.push(u);
            }
            i = i + 1;
        }
        proof {
            assert(cs@.take(cs@.len() as int) =~= cs@);
        }
        Iso11649 { original: chars_to_string(&body) }
    }

    /// The normalized body, untruncated.
    pub fn original(&self) -> (r: String)
        ensures
            r@ == self@,
    {
        self.original.clone()
    }

    /// The normalized body as the generative pipeline sees it; on a value
    /// built by [`Iso11649::new`] this is the stored body unchanged, since
    /// transliterating an ASCII alphanumeric string is the identity.
    pub fn without_checksum(&self) -> (r: String)
        ensures
            r@ == self@,
    {
        proof {
            use_type_invariant(&*self);
        }
        let d = deunicode_str(self.original.as_str());
        let cs = str_to_chars(d.as_str());
        let mut out: Vec<char> = Vec::new();
        let mut i: usize = 0;
        while i < cs.len()
            invariant
                0 <= i <= cs@.len(),
                cs@ == self@,
                forall|j: int| 0 <= j < cs@.len() ==>
                    spec_is_base36_upper(#[trigger] cs@[j]),
                out@ == cs@.take(i as int),
            decreases cs.len() - i,
        {
            out.push(upper_char(cs[i]));
            proof {
                assert(out@ =~= cs@.take(i + 1));
            }
            i = i + 1;
        }
        proof {
            assert(out@ =~= cs@);
        }
        chars_to_string(&out)
    }

    /// The full generated reference: `RF`, two check digits computed with
    /// the MOD 97-10 scheme, and the body truncated to 21 characters.
    /// Never fails.
    pub fn with_checksum(&self) -> (r: String)
        ensures
            r@ == self.generated(),
    {
        proof {
            use_type_invariant(&*self);
        }
        let cs = str_to_chars(self.original.as_str());
        let mut b: Vec<char> = Vec::new();
        let mut i: usize = 0;
        while i < cs.len() && i < 21
            invariant
                0 <= i <= cs@.len(),
                i <= 21,
                b@ == cs@.take(i as int),
            decreases cs.len() - i,
        {
            b.push(cs[i]);
            proof {
                assert(b@ =~= cs@.take(i + 1));
            }
            i = i + 1;
        }
        proof {
            if cs@.len() <= 21 {
                assert(b@ =~= cs@);
            }
            assert(b@ == iso_take21(self@));
        }
        let mut t: Vec<char> = Vec::new();
        let mut j: usize = 0;
        while j < b.len()
            invariant
                0 <= j <= b@.len(),
                t@ == b@.take(j as int),
            decreases b.len() - j,
        {
            t.push(b[j]);
            proof {
                assert(t@ =~= b@.take(j + 1));
            }
            j = j + 1;
        }
        t.push('R');
        t.push('F');
        t.push('0');
        t.push('0');
        proof {
            assert(b@.take(b@.len() as int) =~= b@);
            assert(t@ =~= b@ + seq!['R', 'F', '0', '0']);
        }
        let m = mod97_of(&t);
        let check = 98 - m;
        let mut out: Vec<char> = Vec::new();
        out.push('R');
        out.push('F');
        out.push(digit_char(check / 10));
        out.push(digit_char(check % 10));
        let mut k: usize = 0;
        let ghost head = out@;
        while k < b.len()
            invariant
                0 <= k <= b@.len(),
                out@ == head + b@.take(k as int),
            decreases b.len() - k,
        {
            out.push(b[k]);
            proof {
                assert(out@ =~= head + b@.take(k + 1));
            }
            k = k + 1;
        }
        proof {
            assert(b@.take(b@.len() as int) =~= b@);
            assert(out@ =~= iso_generated(iso_take21(self@)));
        }
        chars_to_string(&out)
    }

    /// Strict validation of an existing reference string: remove
    /// punctuation, check the length, the `RF` prefix, the characters,
    /// and the modulo-97 congruence. Each error names the first rule the
    /// input breaks, in that order.
    #[verifier::loop_isolation(false)]
    pub fn validate(reference: &str) -> (r: Result<(), Iso11649Error>)
        ensures
            ({
                let t = strip_punct(reference@);
                let len_ok = 5 <= t.len() <= 25;
                let rf_ok = len_ok && t[0] == 'R' && t[1] == 'F';
                let chars_ok = forall|i: int| 0 <= i < t.len() ==>
                    spec_is_alnum(#[trigger] t[i]);
                match r {
                    Ok(()) => iso_strict_ok(reference@),
                    Err(Iso11649Error::InvalidLength) => !len_ok,
                    Err(Iso11649Error::InvalidFormat) => len_ok && !(t[0] == 'R' && t[1] == 'F'),
                    Err(Iso11649Error::InvalidCharacters) => rf_ok && !chars_ok,
                    Err(Iso11649Error::InvalidChecksum) => {
                        &&& rf_ok
                        &&& chars_ok
                        &&& num_mod97(dec_digits(iso_rearranged(t))) != 1
                    },
                }
            }),
    {
        let cs = str_to_chars(reference);
        let mut t: Vec<char> = Vec::new();
        let mut i: usize = 0;
        while i < cs.len()
            invariant
                0 <= i <= cs@.len(),
                cs@ == reference@,
                t@ == strip_punct(cs@.take(i as int)),
            decreases cs.len() - i,
        {
            proof {
                assert(cs@.take(i + 1).drop_last() =~= cs@.take(i as int));
                assert(cs@.take(i + 1).last() == cs@[i as int]);
            }
            let c = cs[i];
            if !(c == ' ' || c == '-' || c == '.' || c == ',' || c == '/' || c == ':') {
                t.push(c);
            }
            i = i + 1;
        }
        proof {
            assert(cs@.take(cs@.len() as int) =~= cs@);
        }
        if t.len() < 5 || t.len() > 25 {
            return Err(Iso11649Error::InvalidLength);
        }
        if !(t[0] == 'R' && t[1] == 'F') {
            return Err(Iso11649Error::InvalidFormat);
        }
        let mut j: usize = 0;
        while j < t.len()
            invariant
                0 <= j <= t@.len(),
                forall|q: int| 0 <= q < j ==> spec_is_alnum(#[trigger] t@[q]),
            decreases t.len() - j,
        {
            let c = t[j];
            if !(('0' <= c && c <= '9') || ('A' <= c && c <= 'Z') || ('a' <= c && c <= 'z')) {
                proof {
                    assert(!spec_is_alnum(t@[j as int]));
                }
                return Err(Iso11649Error::InvalidCharacters);
            }
            j = j + 1;
        }
        let mut re: Vec<char> = Vec::new();
        let mut p: usize = 4;
        while p < t.len()
            invariant
                4 <= p <= t@.len(),
                t@.len() >= 5,
                re@ == t@.subrange(4, p as int),
            decreases t.len() - p,
        {
            re.push(t[p]);
            proof {
                assert(re@ =~= t@.subrange(4, p + 1));
            }
            p = p + 1;
        }
        let mut q: usize = 0;
        let ghost tail = re@;
        while q < 4
            invariant
                0 <= q <= 4,
                t@.len() >= 5,
                re@ == tail + t@.take(q as int),
            decreases 4 - q,
        {
            re.push(t[q]);
            proof {
                assert(re@ =~= tail + t@.take(q + 1));
            }
            q = q + 1;
        }
        proof {
            assert(t@.subrange(4, t@.len() as int) =~= t@.skip(4));
            assert(re@ =~= iso_rearranged(t@));
        }
        let m = mod97_of(&re);
        if m == 1 {
            Ok(())
        } else {
            Err(Iso11649Error::InvalidChecksum)
        }
    }
}

/// ASCII upper-casing of one character.
fn upper_char(c: char) -> (r: char)
    ensures
        r == spec_upper(c),
{
    if 'a' <= c && c <= 'z' {
        (((c as u32) - 32) as u8) as char
    } else {
        c
    }
}

/// Whether the character is a digit or an upper-case ASCII letter.
fn is_base36_upper(c: char) -> (r: bool)
    ensures
        r == spec_is_base36_upper(c),
{
    ('0' <= c && c <= '9') || ('A' <= c && c <= 'Z')
}

/// The base-36 value of a character.
fn b36_val(c: char) -> (r: u32)
    ensures
        r == spec_b36_val(c),
        r <= 35,
{
    if '0' <= c && c <= '9' {
        c as u32 - '0' as u32
    } else if 'A' <= c && c <= 'Z' {
        c as u32 - 'A' as u32 + 10
    } else if 'a' <= c && c <= 'z' {
        c as u32 - 'a' as u32 + 10
    } else {
        0
    }
}

/// The number denoted by the base-36 characters of `t`, modulo 97.
fn mod97_of(t: &Vec<char>) -> (m: u32)
    ensures
        m == num_mod97(dec_digits(t@)),
        m <= 96,
{
    let mut m: u32 = 0;
    let mut i: usize = 0;
    proof {
        assert(dec_digits(t@.take(0)) =~= Seq::<int>::empty());
    }
    while i < t.len()
        invariant
            0 <= i <= t@.len(),
            m <= 96,
            m == num_mod97(dec_digits(t@.take(i as int))),
        decreases t.len() - i,
    {
        let v = b36_val(t[i]);
        let ghost ds = dec_digits(t@.take(i as int));
        proof {
            assert(t@.take(i + 1).drop_last() =~= t@.take(i as int));
            assert(t@.take(i + 1).last() == t@[i as int]);
        }
        if v < 10 {
            proof {
                let nds = ds + seq![v as int];
                assert(nds.drop_last() =~= ds);
                assert(nds.last() == v as int);
                assert(dec_digits(t@.take(i + 1)) =~= nds);
                assert(num_mod97(nds) == (num_mod97(ds) * 10 + v as int) % 97);
            }
            m = (m * 10 + v) % 97;
        } else {
            proof {
                let mid = ds + seq![v as int / 10];
                let nds = ds + val_digits(v as int);
                assert(mid.drop_last() =~= ds);
                assert(mid.last() == v as int / 10);
                assert(nds.drop_last() =~= mid);
                assert(nds.last() == v as int % 10);
                assert(dec_digits(t@.take(i + 1)) =~= nds);
                assert(num_mod97(mid) == (num_mod97(ds) * 10 + v as int / 10) % 97);
                assert(num_mod97(nds) == (num_mod97(mid) * 10 + v as int % 10) % 97);
            }
            m = (m * 10 + v / 10) % 97;
            m = (m * 10 + v % 10) % 97;
        }
        i = i + 1;
    }
    proof {
        assert(t@.take(t@.len() as int) =~= t@);
    }
    m
}

/// The folded modulo value is the number's remainder: folding digit by
/// digit agrees with taking the whole decimal number modulo 97.
proof fn lemma_num_mod97_is_mod(ds: Seq<int>)
    ensures
        num_mod97(ds) == dec_number(ds) % 97,
    decreases ds.len(),
{
    if ds.len() > 0 {
        lemma_num_mod97_is_mod(ds.drop_last());
        let a = dec_number(ds.drop_last());
        let d = ds.last();
        lemma_mod_step(a, d);
    }
}

/// Reducing the accumulator modulo 97 before a fold step does not change
/// the step's result.
proof fn lemma_mod_step(a: int, d: int)
    ensures
        ((a % 97) * 10 + d) % 97 == (a * 10 + d) % 97,
{
    lemma_fundamental_div_mod(a, 97);
    assert(a * 10 == 97 * (10 * (a / 97)) + (a % 97) * 10) by (nonlinear_arith)
        requires a == 97 * (a / 97) + a % 97;
    lemma_mod_multiples_vanish(10 * (a / 97), (a % 97) * 10 + d, 97);
}

/// Decimal digits distribute over concatenation of character strings.
proof fn lemma_dec_digits_concat(x: Seq<char>, y: Seq<char>)
    ensures
        dec_digits(x + y) == dec_digits(x) + dec_digits(y),
    decreases y.len(),
{
    if y.len() == 0 {
        assert(x + y =~= x);
        assert(dec_digits(x) + dec_digits(y) =~= dec_digits(x));
    } else {
        lemma_dec_digits_concat(x, y.drop_last());
        assert((x + y).drop_last() =~= x + y.drop_last());
        assert((x + y).last() == y.last());
        assert(dec_digits(x + y) =~= dec_digits(x) + dec_digits(y));
    }
}

/// The check value of any body lies between 2 and 98, so its two decimal
/// digits exist.
pub proof fn lemma_iso_check_range(b: Seq<char>)
    ensures
        2 <= iso_check(b) <= 98,
{
    let ds = dec_digits(b + seq!['R', 'F', '0', '0']);
    if ds.len() == 0 {
    } else {
    }
}

/// Strings without punctuation are unchanged by punctuation stripping.
proof fn lemma_strip_punct_none(s: Seq<char>)
    requires
        forall|i: int| 0 <= i < s.len() ==> !spec_is_punct(#[trigger] s[i]),
    ensures
        strip_punct(s) == s,
    decreases s.len(),
{
    if s.len() > 0 {
        lemma_strip_punct_none(s.drop_last());
        assert(strip_punct(s) =~= s.drop_last().push(s.last()));
        assert(s.drop_last().push(s.last()) =~= s);
    }
}

/// The number denoted by a digit string extended by `k` further digits.
proof fn lemma_dec_number_snoc(ds: Seq<int>, d: int)
    ensures
        dec_number(ds.push(d)) == dec_number(ds) * 10 + d,
{
    assert(ds.push(d).drop_last() =~= ds);
    assert(ds.push(d).last() == d);
}

/// The law of the generative mode: for every nonempty normalized body of
/// at most 21 digits and upper-case letters, the generated reference
/// passes strict validation — its punctuation-free form is itself, it is
/// 5 to 25 alphanumeric characters starting `RF`, and the rearranged
/// string is congruent to 1 modulo 97.
pub proof fn lemma_generated_validates(b: Seq<char>)
    requires
        1 <= b.len() <= 21,
        forall|i: int| 0 <= i < b.len() ==> spec_is_base36_upper(#[trigger] b[i]),
    ensures
        iso_strict_ok(iso_generated(b)),
        strip_punct(iso_generated(b)) == iso_generated(b),
{
    let k = iso_check(b);
    lemma_iso_check_range(b);
    let c1 = spec_digit_char(k / 10);
    let c2 = spec_digit_char(k % 10);
    let g = iso_generated(b);
    assert(g.len() == 4 + b.len());
    assert(g[0] == 'R' && g[1] == 'F' && g[2] == c1 && g[3] == c2);
    assert(spec_is_digit(c1) && spec_is_digit(c2));
    assert forall|i: int| 0 <= i < g.len() implies !spec_is_punct(g[i])
        && spec_is_alnum(g[i]) by {
        if i >= 4 {
            assert(g[i] == b[i - 4]);
        }
    }
    lemma_strip_punct_none(g);

    // the rearranged string is the body followed by RF and the two check
    // digits
    let re = iso_rearranged(g);
    assert(re =~= b + seq!['R', 'F', c1, c2]);

    // digit strings of both suffixes, attached to the body's digits
    let suffix0 = seq!['R', 'F', '0', '0'];
    let suffixk = seq!['R', 'F', c1, c2];
    lemma_dec_digits_concat(b, suffix0);
    lemma_dec_digits_concat(b, suffixk);
    let d = dec_digits(b);
    assert(spec_b36_val('R') == 27 && spec_b36_val('F') == 15);
    assert(spec_b36_val('0') == 0);
    assert(spec_b36_val(c1) == k / 10 && spec_b36_val(c2) == k % 10);
    lemma_dec_digits_four(suffix0);
    lemma_dec_digits_four(suffixk);
    assert(dec_digits(suffix0) =~= seq![2, 7, 1, 5, 0, 0]);
    assert(dec_digits(suffixk) =~= seq![2, 7, 1, 5, k / 10, k % 10]);

    // both full numbers, expanded over the common prefix
    let f = dec_number(d);
    lemma_dec_number_tail(d, seq![2, 7, 1, 5, 0, 0]);
    lemma_dec_number_tail(d, seq![2, 7, 1, 5, k / 10, k % 10]);
    let n0 = dec_number(d + seq![2, 7, 1, 5, 0, 0]);
    let nk = dec_number(d + seq![2, 7, 1, 5, k / 10, k % 10]);
    assert(n0 == ((((((f * 10 + 2) * 10 + 7) * 10 + 1) * 10 + 5) * 10 + 0) * 10 + 0));
    assert(nk == ((((((f * 10 + 2) * 10 + 7) * 10 + 1) * 10 + 5) * 10 + k / 10) * 10 + k % 10));
    assert(k == 10 * (k / 10) + k % 10) by {
        lemma_fundamental_div_mod(k, 10);
    }
    assert(nk == n0 + k);

    // modulo 97 the generated number is congruent to 98, hence to 1
    lemma_num_mod97_is_mod(dec_digits(b + suffix0));
    lemma_num_mod97_is_mod(dec_digits(re));
    assert(dec_digits(re) == d + seq![2, 7, 1, 5, k / 10, k % 10]);
    let m = n0 % 97;
    assert(k == 98 - m);
    lemma_fundamental_div_mod(n0, 97);
    assert(nk == 97 * (n0 / 97) + 98);
    lemma_mod_multiples_vanish(n0 / 97, 98, 97);
    assert(nk % 97 == 98int % 97);
    assert(num_mod97(dec_digits(re)) == 1);
}

/// Every character of a normalized body is a digit or an upper-case
/// letter, whatever text it came from: together with the validation law
/// above, every generated reference whose body is nonempty passes the
/// strict validator.
pub proof fn lemma_body_chars(s: Seq<char>)
    ensures
        forall|i: int| 0 <= i < iso_body(s).len() ==>
            spec_is_base36_upper(#[trigger] iso_body(s)[i]),
{
    lemma_normalize_chars(deunicoded(s));
}

/// Normalization only keeps digits and upper-case letters.
proof fn lemma_normalize_chars(d: Seq<char>)
    ensures
        forall|i: int| 0 <= i < iso_normalize(d).len() ==>
            spec_is_base36_upper(#[trigger] iso_normalize(d)[i]),
    decreases d.len(),
{
    if d.len() > 0 {
        lemma_normalize_chars(d.drop_last());
        let pre = iso_normalize(d.drop_last());
        let u = spec_upper(d.last());
        assert forall|i: int| 0 <= i < iso_normalize(d).len() implies
            spec_is_base36_upper(iso_normalize(d)[i]) by {
            if spec_is_base36_upper(u) {
                assert(iso_normalize(d) == pre + seq![u]);
                if i < pre.len() {
                    assert(iso_normalize(d)[i] == pre[i]);
                } else {
                    assert(iso_normalize(d)[i] == u);
                }
            } else {
                assert(iso_normalize(d) == pre + Seq::<char>::empty());
                assert(iso_normalize(d) =~= pre);
            }
        }
    }
}

/// Expand the decimal digits of a four-character string.
proof fn lemma_dec_digits_four(s: Seq<char>)
    requires
        s.len() == 4,
    ensures
        dec_digits(s) == val_digits(spec_b36_val(s[0])) + val_digits(spec_b36_val(s[1]))
            + val_digits(spec_b36_val(s[2])) + val_digits(spec_b36_val(s[3])),
{
    let s3 = s.drop_last();
    let s2 = s3.drop_last();
    let s1 = s2.drop_last();
    let s0 = s1.drop_last();
    assert(s0 =~= Seq::<char>::empty());
    assert(s1.last() == s[0] && s2.last() == s[1] && s3.last() == s[2] && s.last() == s[3]);
    assert(dec_digits(s0) =~= Seq::<int>::empty());
    assert(dec_digits(s1) == dec_digits(s0) + val_digits(spec_b36_val(s[0])));
    assert(dec_digits(s2) == dec_digits(s1) + val_digits(spec_b36_val(s[1])));
    assert(dec_digits(s3) == dec_digits(s2) + val_digits(spec_b36_val(s[2])));
    assert(dec_digits(s) == dec_digits(s3) + val_digits(spec_b36_val(s[3])));
    assert(dec_digits(s) =~= val_digits(spec_b36_val(s[0])) + val_digits(spec_b36_val(s[1]))
        + val_digits(spec_b36_val(s[2])) + val_digits(spec_b36_val(s[3])));
}

/// Expand the decimal number of a digit string extended by six digits.
proof fn lemma_dec_number_tail(d: Seq<int>, t: Seq<int>)
    requires
        t.len() == 6,
    ensures
        dec_number(d + t) == (((((dec_number(d) * 10 + t[0]) * 10 + t[1]) * 10 + t[2]) * 10
            + t[3]) * 10 + t[4]) * 10 + t[5],
{
    let e5 = (d + t).drop_last();
    let e4 = e5.drop_last();
    let e3 = e4.drop_last();
    let e2 = e3.drop_last();
    let e1 = e2.drop_last();
    let e0 = e1.drop_last();
    assert(e0 =~= d);
    assert((d + t).last() == t[5]);
    assert(e5.last() == t[4]);
    assert(e4.last() == t[3]);
    assert(e3.last() == t[2]);
    assert(e2.last() == t[1]);
    assert(e1.last() == t[0]);
    assert(dec_number(e1) == dec_number(e0) * 10 + t[0]);
    assert(dec_number(e2) == dec_number(e1) * 10 + t[1]);
    assert(dec_number(e3) == dec_number(e2) * 10 + t[2]);
    assert(dec_number(e4) == dec_number(e3) * 10 + t[3]);
    assert(dec_number(e5) == dec_number(e4) * 10 + t[4]);
    assert(dec_number(d + t) == dec_number(e5) * 10 + t[5]);
}

} // verus!
