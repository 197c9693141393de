//! Fluent accumulation of Swico S1 fields, validated on completion.

use vstd::prelude::*;

verus! {

use crate::billing_infos::swico::set_total_len;
use crate::billing_infos::swico::set_wf;
use crate::billing_infos::swico::spec_insert;
use crate::billing_infos::swico::lemma_insert_wf;
use crate::billing_infos::swico::StructuredSet;
use crate::billing_infos::swico::Swico;
use crate::billing_infos::swico::SwicoComponent;
use crate::billing_infos::swico::SwicoError;
use crate::billing_infos::swico::syntax::fault_matches;
use crate::billing_infos::swico::syntax::spec_validate_fault;
use crate::billing_infos::swico::syntax::Version;
use crate::billing_infos::utils::TotalLenght;
use crate::billing_infos::BillingInfos;
use crate::chars::chars_to_string;
use crate::chars::spec_digit_char;
use crate::chars::digit_char;
use vstd::arithmetic::div_mod::lemma_fundamental_div_mod;
use vstd::arithmetic::div_mod::lemma_mod_multiples_vanish;
use vstd::string::StringExecFns;

/// Whether a year of the Gregorian calendar is a leap year.
pub open spec fn spec_is_leap_year(y: int) -> bool {
    y % 4 == 0 && (y % 100 != 0 || y % 400 == 0)
}

/// Days in a month of the Gregorian calendar.
pub open spec fn spec_greg_days(y: int, m: int) -> int {
    if m == 1 || m == 3 || m == 5 || m == 7 || m == 8 || m == 10 || m == 12 {
        31
    } else if m == 4 || m == 6 || m == 9 || m == 11 {
        30
    } else if spec_is_leap_year(y) {
        29
    } else {
        28
    }
}

/// A valid Gregorian calendar date.
pub open spec fn spec_date_wf(y: int, m: int, d: int) -> bool {
    1 <= m <= 12 && 1 <= d <= spec_greg_days(y, m)
}

/// A calendar date, validated at construction.
#[derive(Debug, Clone, Copy)]
pub struct Date {
    year: u16,
    month: u8,
    day: u8,
}

impl Date {
    /// The date's validity, available to contracts.
    pub open spec fn wf(&self) -> bool {
        spec_date_wf(self.spec_year(), self.spec_month(), self.spec_day())
    }

    pub closed spec fn spec_year(&self) -> int {
        self.year as int
    }

    pub closed spec fn spec_month(&self) -> int {
        self.month as int
    }

    pub closed spec fn spec_day(&self) -> int {
        self.day as int
    }

    /// A date from its parts; `None` when no such day exists in the
    /// Gregorian calendar.
    pub fn new(year: u16, month: u8, day: u8) -> (r: Option<Date>)
        ensures
            match r {
                Some(d) => {
                    &&& spec_date_wf(year as int, month as int, day as int)
                    &&& d.spec_year() == year
                    &&& d.spec_month() == month
                    &&& d.spec_day() == day
                    &&& d.wf()
                },
                None => !spec_date_wf(year as int, month as int, day as int),
            },
    {
        let dim: u8 = if month == 1 || month == 3 || month == 5 || month == 7 || month == 8
            || month == 10 || month == 12 {
            31
        } else if month == 4 || month == 6 || month == 9 || month == 11 {
            30
        } else if year % 4 == 0 && (year % 100 != 0 || year % 400 == 0) {
            29
        } else {
            28
        };
        if 1 <= month && month <= 12 && 1 <= day && day <= dim {
            Some(Date { year, month, day })
        } else {
            None
        }
    }
}

/// The six-character `YYMMDD` form of a date.
pub open spec fn spec_format_date(y: int, m: int, d: int) -> Seq<char> {
    seq![
        spec_digit_char(y % 100 / 10),
        spec_digit_char(y % 100 % 10),
        spec_digit_char(m / 10),
        spec_digit_char(m % 10),
        spec_digit_char(d / 10),
        spec_digit_char(d % 10),
    ]
}

/// Format a date as `YYMMDD`.
fn format_date(date: &Date) -> (r: Vec<char>)
    requires
        date.wf(),
    ensures
        r@ == spec_format_date(date.spec_year(), date.spec_month(), date.spec_day()),
{
    let yy: u16 = date.year % 100;
    let mut r: Vec<char> = Vec::new();
    r.push(digit_char((yy / 10) as u32));
    r.push(digit_char((yy % 10) as u32));
    r.push(digit_char((date.month / 10) as u32));
    r.push(digit_char((date.month % 10) as u32));
    r.push(digit_char((date.day / 10) as u32));
    r.push(digit_char((date.day % 10) as u32));
    proof {
        assert(r@ =~= spec_format_date(date.spec_year(), date.spec_month(), date.spec_day()));
    }
    r
}

/// A formatted valid date always passes the validator's six-character
/// date rule: the two-digit-year window agrees with the Gregorian
/// calendar on every day it can express.
pub proof fn lemma_format_date_valid(y: int, m: int, d: int)
    requires
        0 <= y <= 65535,
        spec_date_wf(y, m, d),
    ensures
        crate::billing_infos::swico::syntax::spec_date6_ok(spec_format_date(y, m, d)),
{
    let s = spec_format_date(y, m, d);
    let yy = y % 100;
    assert(0 <= yy <= 99 && 0 <= m <= 99 && 0 <= d <= 99);
    assert(forall|i: int| 0 <= i < s.len() ==> crate::chars::spec_is_digit(#[trigger] s[i]));
    lemma_fundamental_div_mod(yy, 10);
    lemma_fundamental_div_mod(m, 10);
    lemma_fundamental_div_mod(d, 10);
    assert(10 * crate::chars::spec_digit_val(s[0]) + crate::chars::spec_digit_val(s[1]) == yy);
    assert(10 * crate::chars::spec_digit_val(s[2]) + crate::chars::spec_digit_val(s[3]) == m);
    assert(10 * crate::chars::spec_digit_val(s[4]) + crate::chars::spec_digit_val(s[5]) == d);
    // a year and its two-digit form agree modulo four
    assert(y == 100 * (y / 100) + yy) by {
        lemma_fundamental_div_mod(y, 100);
    }
    assert(yy % 4 == y % 4) by {
        lemma_mod_multiples_vanish(25 * (y / 100), yy, 4);
        assert(4 * (25 * (y / 100)) + yy == y) by (nonlinear_arith)
            requires y == 100 * (y / 100) + yy;
    }
    if spec_is_leap_year(y) {
        assert(y % 4 == 0);
    }
    assert(d <= crate::billing_infos::swico::syntax::spec_days_in_month(yy, m));
}

/// The fluent builder of a Swico S1 field set: each call records one
/// field, a later call for the same field replacing the earlier value;
/// `build` validates the set and wraps it as billing information.
#[derive(Debug, Clone)]
pub struct S1Builder {
    structured_set: StructuredSet,
}

impl View for S1Builder {
    type V = Seq<(SwicoComponent, Seq<char>)>;

    closed spec fn view(&self) -> Seq<(SwicoComponent, Seq<char>)> {
        self.structured_set@
    }
}

impl S1Builder {
    /// An empty builder.
    pub fn new() -> (r: Self)
        ensures
            r@ == Seq::<(SwicoComponent, Seq<char>)>::empty(),
    {
        S1Builder { structured_set: StructuredSet::new() }
    }

    /// Record the free-text message.
    pub fn add_unstructured(self, text: &str) -> (r: Self)
        ensures
            r@ == spec_insert(self@, SwicoComponent::Unstructured, text@),
    {
        self.with_field(SwicoComponent::Unstructured, String::from_str(text))
    }

    /// Record the invoice reference.
    pub fn invoice_ref(self, text: &str) -> (r: Self)
        ensures
            r@ == spec_insert(self@, SwicoComponent::InvoiceRef, text@),
    {
        self.with_field(SwicoComponent::InvoiceRef, String::from_str(text))
    }

    /// Record the document date as raw `YYMMDD` text.
    pub fn doc_date(self, text: &str) -> (r: Self)
        ensures
            r@ == spec_insert(self@, SwicoComponent::DocDate, text@),
    {
        self.with_field(SwicoComponent::DocDate, String::from_str(text))
    }

    /// Record the document date from a calendar date.
    pub fn doc_date_naive(self, date: Date) -> (r: Self)
        requires
            date.wf(),
        ensures
            r@ == spec_insert(self@, SwicoComponent::DocDate,
                spec_format_date(date.spec_year(), date.spec_month(), date.spec_day())),
    {
        let text = chars_to_string(&format_date(&date));
        self.with_field(SwicoComponent::DocDate, text)
    }

    /// Record the customer reference.
    pub fn client_ref(self, text: &str) -> (r: Self)
        ensures
            r@ == spec_insert(self@, SwicoComponent::ClientRef, text@),
    {
        self.with_field(SwicoComponent::ClientRef, String::from_str(text))
    }

    /// Record the VAT number.
    pub fn vat_num(self, text: &str) -> (r: Self)
        ensures
            r@ == spec_insert(self@, SwicoComponent::VatNum, text@),
    {
        self.with_field(SwicoComponent::VatNum, String::from_str(text))
    }

    /// Record the VAT date or date range as raw text.
    pub fn vat_date(self, text: &str) -> (r: Self)
        ensures
            r@ == spec_insert(self@, SwicoComponent::VatDate, text@),
    {
        self.with_field(SwicoComponent::VatDate, String::from_str(text))
    }

    /// Record the VAT date from one calendar date, or a range from two.
    pub fn vat_date_naive(self, start: Date, end: Option<Date>) -> (r: Self)
        requires
            start.wf(),
            end is Some ==> end.unwrap().wf(),
        ensures
            ({
                let st = spec_format_date(start.spec_year(), start.spec_month(),
                    start.spec_day());
                let text = match end {
                    Some(e) => st + spec_format_date(e.spec_year(), e.spec_month(),
                        e.spec_day()),
                    None => st,
                };
                r@ == spec_insert(self@, SwicoComponent::VatDate, text)
            }),
    {
        let mut text = format_date(&start);
        match end {
            Some(e) => {
                let mut tail = format_date(&e);
                text.append(&mut tail);
            },
            None => {},
        }
        self.with_field(SwicoComponent::VatDate, chars_to_string(&text))
    }

    /// Record the VAT details.
    pub fn vat_details(self, text: &str) -> (r: Self)
        ensures
            r@ == spec_insert(self@, SwicoComponent::VatDetails, text@),
    {
        self.with_field(SwicoComponent::VatDetails, String::from_str(text))
    }

    /// Record the VAT on imports.
    pub fn vat_import(self, text: &str) -> (r: Self)
        ensures
            r@ == spec_insert(self@, SwicoComponent::VatImport, text@),
    {
        self.with_field(SwicoComponent::VatImport, String::from_str(text))
    }

    /// Record the payment conditions.
    pub fn conditions(self, text: &str) -> (r: Self)
        ensures
            r@ == spec_insert(self@, SwicoComponent::Conditions, text@),
    {
        self.with_field(SwicoComponent::Conditions, String::from_str(text))
    }

    /// Record one field.
    fn with_field(self, c: SwicoComponent, v: String) -> (r: Self)
        ensures
            r@ == spec_insert(self@, c, v@),
    {
        let mut set = self.structured_set;
        set.insert(c, v);
        S1Builder { structured_set: set }
    }

    /// Close the builder: inject the `S1` prefix when more than one field
    /// is present, refuse a set whose values together exceed 140
    /// characters, validate every field, and wrap the set as billing
    /// information with no standalone override.
    pub fn build(self) -> (r: Result<BillingInfos, SwicoError>)
        requires
            set_wf(self@),
        ensures
            ({
                let s1 = if self@.len() > 1 {
                    spec_insert(self@, SwicoComponent::Prefix, seq!['S', '1'])
                } else {
                    self@
                };
                match r {
                    Ok(b) => {
                        &&& set_total_len(s1) <= 140
                        &&& spec_validate_fault(s1) is None
                        &&& b.emitter_entries() == Option::Some(s1)
                        &&& b.unstructured_override() is None
                        &&& set_wf(s1)
                    },
                    Err(SwicoError::TooLong(n)) => {
                        &&& set_total_len(s1) > 140
                        &&& (set_total_len(s1) <= usize::MAX as int ==> n == set_total_len(s1))
                    },
                    Err(SwicoError::FromSyntaxValidator(e)) => {
                        &&& set_total_len(s1) <= 140
                        &&& fault_matches(e, spec_validate_fault(s1))
                    },
                    Err(SwicoError::FromSyntaxParser(_)) => false,
                }
            }),
    {
        let mut set = self.structured_set;
        if set.len() > 1 {
            let mut s1: Vec<char> = Vec::new();
            s1.push('S');
            s1.push('1');
            proof {
                assert(s1@ =~= seq!['S', '1']);
            }
            set.insert(SwicoComponent::Prefix, chars_to_string(&s1));
            proof {
                lemma_insert_wf(self@, SwicoComponent::Prefix, seq!['S', '1']);
            }
        }
        let max_len = set.tot_len();
        if max_len > 140 {
            return Err(SwicoError::TooLong(max_len));
        }
        match Version::S1(set).validate_syntax() {
            Ok(vers) => {
                Ok(BillingInfos::from_emitter(Swico { version: Some(vers) }))
            },
            Err(e) => Err(SwicoError::FromSyntaxValidator(e)),
        }
    }
}

} // verus!
