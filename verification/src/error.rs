//! The ledger's error taxonomy.
//!
//! Malformed address or amount text and invalid metadata reject the call
//! before any write; a stored amount of the wrong width is corruption;
//! the two domain failures carry the operands the caller needs to report.

use vstd::prelude::*;

verus! {

#[derive(Clone, Copy, Debug, PartialEq, Eq, Structural)]
pub enum Error {
    /// Token name is not 3 to 30 UTF-8 bytes long.
    InvalidName,
    /// Ticker symbol is not 3 to 6 ASCII uppercase letters.
    InvalidSymbol,
    /// More than 18 fractional digits requested.
    InvalidDecimals,
    /// Address text is not 40 hexadecimal digits.
    InvalidAddress,
    /// Amount text is not a base-10 number that fits in 128 bits.
    InvalidAmount,
    /// A stored amount was found with a width other than 16 bytes.
    CorruptedState,
    /// A transfer asked for more than the sender holds.
    InsufficientFunds { balance: u128, required: u128 },
    /// A delegated transfer asked for more than the owner granted.
    InsufficientAllowance { allowance: u128, required: u128 },
    /// Crediting the recipient or summing the seed balances left 128 bits.
    AmountOverflow,
}

} // verus!
