//! Failure cases of the Swico S1 machinery as a whole.

use vstd::prelude::*;

verus! {

use crate::billing_infos::swico::parser::SyntaxParserError;
use crate::billing_infos::swico::syntax::SyntaxValidatorError;

/// What can go wrong while parsing or building Swico billing
/// information.
#[derive(Debug, Clone)]
pub enum SwicoError {
    /// The combined character count of all fields exceeds 140.
    TooLong(usize),
    /// The raw text could not be split into fields.
    FromSyntaxParser(SyntaxParserError),
    /// A field broke its format rule.
    FromSyntaxValidator(SyntaxValidatorError),
}

} // verus!
