//! Validation and encoding of Swiss payment references and billing
//! information: the ESR (QRR) modulo-10 reference, the ISO 11649 (SCOR)
//! creditor reference, and the Swico S1 structured micro-format with its
//! parser, validator, builder and display folding.

use vstd::prelude::*;

pub mod billing_infos;
mod chars;
pub mod esr;
pub mod iso11649;
pub mod label;
pub mod render;

verus! {

use crate::chars::chars_to_string;
use crate::chars::str_to_chars;
use vstd::string::StringExecFns;

/// The reference slot of a payment document: an ESR (QRR) number, an
/// ISO 11649 (SCOR) reference, or nothing.
#[derive(Debug, Clone)]
pub enum Reference {
    Qrr(esr::Esr),
    Scor(iso11649::Iso11649),
    Absent,
}

impl Reference {
    /// The two data lines this reference contributes to the encoded
    /// payment payload: the scheme tag and the reference itself.
    pub fn data_list(&self) -> (r: Vec<String>)
        ensures
            r@.len() == 2,
            match self {
                Reference::Qrr(e) => r@[0]@ == "QRR"@ && r@[1]@ == e@,
                Reference::Scor(s) => r@[0]@ == "SCOR"@ && r@[1]@ == s.generated(),
                Reference::Absent => r@[0]@ == "NON"@ && r@[1]@ == Seq::<char>::empty(),
            },
    {
        let mut r: Vec<String> = Vec::new();
        match self {
            Reference::Qrr(e) => {
                r.push(String::from_str("QRR"));
                r.push(e.to_raw());
            },
            Reference::Scor(s) => {
                r.push(String::from_str("SCOR"));
                r.push(s.with_checksum());
            },
            Reference::Absent => {
                r.push(String::from_str("NON"));
                r.push(String::new());
            },
        }
        r
    }
}

/// The currency of a bill.
#[derive(Debug, Clone, Copy, PartialEq, Eq, Structural)]
pub enum Currency {
    SwissFranc,
    Euro,
}

impl Currency {
    /// The three-letter currency code used in the encoded payload.
    pub fn code(&self) -> (r: String)
        ensures
            self is SwissFranc ==> r@ == "CHF"@,
            self is Euro ==> r@ == "EUR"@,
    {
        match self {
            Currency::SwissFranc => String::from_str("CHF"),
            Currency::Euro => String::from_str("EUR"),
        }
    }
}

/// The view of a string split into groups of four characters separated by
/// single spaces.
pub open spec fn spec_chunked(s: Seq<char>) -> Seq<char>
    decreases s.len(),
{
    if s.len() <= 4 {
        s
    } else {
        s.take(4) + seq![' '] + spec_chunked(s.skip(4))
    }
}

/// Render a reference in display form: groups of four characters
/// separated by spaces.
pub fn chunked(unchunked: &str) -> (r: String)
    ensures
        r@ == spec_chunked(unchunked@),
{
    let cs = str_to_chars(unchunked);
    let mut out: Vec<char> = Vec::new();
    let mut i: usize = 0;
    proof {
        assert(cs@.skip(0) =~= cs@);
    }
    while i < cs.len()
        invariant
            0 <= i <= cs@.len(),
            cs@ == unchunked@,
            out@ + spec_chunked(cs@.skip(i as int)) == spec_chunked(cs@),
        decreases cs.len() - i,
    {
        let ghost pre = out@;
        let ghost rest = cs@.skip(i as int);
        let stop = if cs.len() - i < 4 {
            cs.len()
        } else {
            i + 4
        };
        let mut j: usize = i;
        while j < stop
            invariant
                i <= j <= stop <= cs@.len(),
                out@ == pre + cs@.subrange(i as int, j as int),
            decreases stop - j,
        {
            out.push(cs[j]);
            proof {
                assert(out@ =~= pre + cs@.subrange(i as int, j + 1));
            }
            j = j + 1;
        }
        if stop < cs.len() {
            out.push(' ');
            proof {
                // rest is longer than four characters, so one full group and
                // a separator were emitted
                assert(rest.take(4) =~= cs@.subrange(i as int, stop as int));
                assert(rest.skip(4) =~= cs@.skip(stop as int));
                assert(out@ =~= pre + cs@.subrange(i as int, stop as int) + seq![' ']);
                assert(out@ + spec_chunked(cs@.skip(stop as int))
                    =~= pre + spec_chunked(rest));
            }
        } else {
            proof {
                // the final, possibly short, group: no separator
                assert(cs@.subrange(i as int, stop as int) =~= rest);
                assert(spec_chunked(rest) == rest);
                assert(cs@.skip(stop as int) =~= Seq::<char>::empty());
                assert(out@ + spec_chunked(cs@.skip(stop as int)) =~= pre + rest);
            }
        }
        i = stop;
    }
    proof {
        assert(cs@.skip(i as int) =~= Seq::<char>::empty());
        assert(out@ =~= spec_chunked(cs@));
    }
    chars_to_string(&out)
}

} // verus!
