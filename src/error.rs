use vstd::prelude::*;

verus! {

/// The errors that abort a run: a malformed record or a broken start-up.
///
/// Business rejections (insufficient funds, disputes of unknown
/// transactions, input on a locked account) are not errors.
#[derive(Debug, PartialEq, Eq)]
pub enum EngineError {
    /// No input path was given on the command line.
    NoInputArgument,
    /// The record's type is none of the five known kinds; holds the raw text.
    InvalidRawTransactionType(String),
    /// A deposit came without an amount.
    NoAmountInDeposit,
    /// A withdrawal came without an amount.
    NoAmountInWitdrawal,
    /// Applying the record would take a balance outside the representable range.
    AmountOutOfRange,
}

/// The text that describes each error.
pub open spec fn message_of(e: EngineError) -> Seq<char> {
    match e {
        EngineError::NoInputArgument => "Path to input file not given as argument"@,
        EngineError::InvalidRawTransactionType(_) => "Transaction has an invalid type"@,
        EngineError::NoAmountInDeposit => "Amount can't be None in deposit transaction"@,
        EngineError::NoAmountInWitdrawal => "Amount can't be None in withdrawal transaction"@,
        EngineError::AmountOutOfRange => "Balance would leave the representable range"@,
    }
}

impl EngineError {
    /// A short human-readable description of the error.
    pub fn message(&self) -> (r: String)
        ensures
            r@ == message_of(*self),
    {
        match self {
            EngineError::NoInputArgument => "Path to input file not given as argument".to_owned(),
            EngineError::InvalidRawTransactionType(_) => "Transaction has an invalid type".to_owned(),
            EngineError::NoAmountInDeposit => "Amount can't be None in deposit transaction".to_owned(),
            EngineError::NoAmountInWitdrawal => "Amount can't be None in withdrawal transaction".to_owned(),
            EngineError::AmountOutOfRange => "Balance would leave the representable range".to_owned(),
        }
    }
}

} // verus!
