use vstd::prelude::*;

verus! {

/// Every failure the engine can report.
///
/// Setup failures (`ZeroOwners`, `WrongQuorum`) abort initialization;
/// `Unauthorized` rejects any caller outside the admin set; the remaining
/// variants are protocol failures that leave all state unchanged.
#[derive(Debug, PartialEq, Eq)]
pub enum ContractError {
    /// The caller is not in the admin set.
    Unauthorized {},
    /// The requested quorum is zero or exceeds the number of owners.
    WrongQuorum { quorum: u32, owners: u32 },
    /// An empty owner set was given at initialization.
    ZeroOwners,
    /// No transaction carries the given id.
    NonExistentTx(u32),
    /// The caller has already approved the transaction with the given id.
    AlreadySigned(u32),
    /// The transaction has fewer confirmations than the quorum requires.
    NotEnoughSignatures { quorum: u32, num_signed: u32 },
}

} // verus!
