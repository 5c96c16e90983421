//! A verified margin-lending core: an indexed-interest ledger of deposit
//! and borrow positions per asset, a flash-loan envelope that lets an
//! account borrow, act and repay atomically under a solvency gate, and a
//! composer that splices an external exchange's untrusted instructions
//! into that envelope.
//!
//! Everything here works on plain values. Network transport, wire
//! serialization and transaction submission live with the embedding
//! client; the ledger arithmetic, the position lifecycle, the settlement
//! rules and the instruction splicing are specified and proved here.

use vstd::prelude::*;

pub mod codec;
pub mod compose;
pub mod fixnum;
pub mod flash_loan;
pub mod ledger;
pub mod mint_info;
pub mod numstr;
pub mod position;

verus! {

/// Errors surfaced by the margin-lending core.
#[derive(Clone, Copy, Debug, PartialEq, Eq, Structural)]
pub enum MarginError {
    /// A swap was requested between an asset and itself.
    DistinctAssetViolation,
    /// The account has no free position slot left.
    AccountFull,
    /// A fixed-point computation left the representable range,
    /// or a numeric string could not be parsed.
    ArithmeticOverflow,
    /// The action provider returned a malformed or all-setup instruction list.
    ProviderMisuse,
    /// A supplied account list does not match the registered banks.
    InvalidBankList,
    /// An asset name does not fit the fixed-width record field.
    NameTooLong,
}

} // verus!
