use vstd::prelude::*;

use crate::state::{Coin, PendingTransactions, Transaction};

verus! {

/// Initialization request: the owners that control the fund and how many of
/// them must approve a transaction before it may be released.
pub struct InstantiateMsg {
    pub owners: Vec<String>,
    pub quorum: u32,
}

/// The three mutating requests, one variant each.
pub enum ExecuteMsg {
    CreateTransaction { to: String, coins: Vec<Coin> },
    SignTransactions { tx_id: u32 },
    ExecuteTransaction { tx_id: u32 },
}

/// The three read-only requests, one variant each.
pub enum QueryMsg {
    ListPending {},
    ListAdmins {},
    ListSigned { admin: String, tx_id: u32 },
}

/// Whether a given admin has approved a given transaction; absence of a
/// record reads as `false`.
#[derive(Debug, PartialEq, Eq)]
pub struct ListSignedResp {
    pub signed: bool,
}

/// The configured admin set, in initialization order.
pub struct ListAdminsResp {
    pub admins: Vec<String>,
}

/// Every transaction proposed so far, with current confirmation counts.
pub struct ListPendingResp {
    pub transactions: PendingTransactions,
}

/// Answer to a query, one variant per request.
pub enum QueryResponse {
    Pending(ListPendingResp),
    Admins(ListAdminsResp),
    Signed(ListSignedResp),
}

/// The instruction a released transaction produces. The engine never moves
/// funds itself: the surrounding host is expected to carry this out.
#[derive(Debug, PartialEq, Eq)]
pub struct TransferInstruction {
    pub to_address: String,
    pub amount: Vec<Coin>,
}

/// Outcome of a successful mutating request.
#[derive(Debug)]
pub enum Response {
    /// A snapshot of the newly proposed transaction, id included.
    Proposed { tx: Transaction },
    /// An approval was recorded; the counter is queryable separately.
    Signed {},
    /// The transaction met its quorum; the instruction is ready to carry out.
    Released { instruction: TransferInstruction },
}

} // verus!
