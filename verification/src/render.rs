//! The selection types a renderer of payment documents works with: which
//! part of a bill is drawn, and which parts a drawing pass covers.

use vstd::prelude::*;

verus! {

/// One part of a payment document.
#[derive(Debug, Clone, Copy, PartialEq, Eq, Structural)]
pub enum Part {
    Receipt,
    Payment,
}

/// Which parts a rendering pass should draw.
#[derive(Debug, Clone, Copy)]
pub enum What {
    OnlyReceipt,
    OnlyPayment,
    ReceiptAndPayment,
}

impl What {
    /// The parts to draw, in drawing order.
    pub fn parts(&self) -> (r: Vec<Part>)
        ensures
            match self {
                What::OnlyReceipt => r@ == seq![Part::Receipt],
                What::OnlyPayment => r@ == seq![Part::Payment],
                What::ReceiptAndPayment => r@ == seq![Part::Receipt, Part::Payment],
            },
    {
        let mut r: Vec<Part> = Vec::new();
        match self {
            What::OnlyReceipt => {
                r.push(Part::Receipt);
                proof {
                    assert(r@ =~= seq![Part::Receipt]);
                }
            },
            What::OnlyPayment => {
                r.push(Part::Payment);
                proof {
                    assert(r@ =~= seq![Part::Payment]);
                }
            },
            What::ReceiptAndPayment => {
                r.push(Part::Receipt);
                r.push(Part::Payment);
                proof {
                    assert(r@ =~= seq![Part::Receipt, Part::Payment]);
                }
            },
        }
        r
    }
}

} // verus!
