use vstd::prelude::*;

use crate::error::ContractError;
use crate::msg::{ExecuteMsg, InstantiateMsg, ListAdminsResp, ListPendingResp, ListSignedResp,
    QueryMsg, QueryResponse, Response, TransferInstruction};
use crate::state::lemma_approver_count;
use crate::state::lemma_approvers_absent;
use crate::state::lemma_approvers_after_record;
use crate::state::tx_eq;
use crate::state::{Approval, ApprovalEngine, ApprovalTracker, Coin, Ledger, PendingTransactions,
    Transaction};

verus! {

/// What initialization promises: an empty owner set is rejected first, then a
/// quorum of zero or above the owner count; otherwise the engine starts with
/// the given ledger, no transactions and no approvals.
pub open spec fn instantiate_post(
    msg: InstantiateMsg,
    r: Result<ApprovalEngine, ContractError>,
) -> bool {
    if msg.owners@.len() == 0 {
        r == Err::<ApprovalEngine, ContractError>(ContractError::ZeroOwners)
    } else if msg.quorum == 0 || msg.quorum > msg.owners@.len() {
        r == Err::<ApprovalEngine, ContractError>(
            ContractError::WrongQuorum { quorum: msg.quorum, owners: msg.owners@.len() as u32 },
        )
    } else {
        match r {
            Ok(e) => {
                &&& e.ledger.admins == msg.owners
                &&& e.ledger.quorum == msg.quorum
                &&& e.txs@.len() == 0
                &&& e.approvals.records@.len() == 0
            },
            Err(_) => false,
        }
    }
}

/// Sets the engine up. Initialization succeeds exactly when the owner set is
/// non-empty and the quorum lies between 1 and the number of owners.
pub fn instantiate(msg: InstantiateMsg) -> (r: Result<ApprovalEngine, ContractError>)
    requires
        msg.owners@.len() <= u32::MAX,
    ensures
        instantiate_post(msg, r),
        r is Ok <==> 0 < msg.owners@.len() && 1 <= msg.quorum <= msg.owners@.len(),
        r matches Ok(e) ==> e.wf(),
{
    if msg.owners.len() == 0 {
        return Err(ContractError::ZeroOwners);
    }
    let owners_count = msg.owners.len() as u32;
    if msg.quorum == 0 || msg.quorum > owners_count {
        return Err(ContractError::WrongQuorum { quorum: msg.quorum, owners: owners_count });
    }
    let engine = ApprovalEngine {
        ledger: Ledger { admins: msg.owners, quorum: msg.quorum },
        txs: PendingTransactions::new(Vec::new()),
        approvals: ApprovalTracker::new(),
    };
    Ok(engine)
}

/// What proposing promises. A sender outside the admin set is turned away
/// with `Unauthorized` and nothing changes. For an admin, the registry gains
/// one transaction carrying the next sequential id, the proposed destination
/// and amounts, and one confirmation — the proposer's own, which the tracker
/// records at the same time. The result is a snapshot of the stored
/// transaction.
pub open spec fn create_tx_post(
    e0: ApprovalEngine,
    e1: ApprovalEngine,
    sender: String,
    to: String,
    coins: Vec<Coin>,
    r: Result<Response, ContractError>,
) -> bool {
    if !e0.ledger.spec_is_admin(sender@) {
        e1 == e0 && r == Err::<Response, ContractError>(ContractError::Unauthorized {})
    } else {
        let id = e0.txs@.len() as u32;
        let stored = Transaction { to, coins, id, num_confirmations: 1u32 };
        &&& e1.ledger == e0.ledger
        &&& e1.txs@ == e0.txs@.push(stored)
        &&& e1.approvals.records@ == e0.approvals.records@.push(
            (Approval { admin: sender, tx_id: id }),
        )
        &&& match r {
            Ok(resp) => resp matches Response::Proposed { tx } && tx_eq(tx, stored),
            Err(_) => false,
        }
    }
}

/// Stores a new transaction proposed by `sender`. The proposer approves
/// implicitly: the new transaction starts with one confirmation and the
/// tracker holds the proposer's record, so a later `sign_tx` by the proposer
/// is rejected as already signed.
pub fn create_tx(
    engine: &mut ApprovalEngine,
    sender: &String,
    to: String,
    coins: Vec<Coin>,
) -> (r: Result<Response, ContractError>)
    requires
        old(engine).wf(),
        old(engine).txs@.len() < u32::MAX,
    ensures
        final(engine).wf(),
        create_tx_post(*old(engine), *final(engine), *sender, to, coins, r),
        old(engine).ledger.spec_is_admin(sender@) ==> {
            let id = old(engine).txs@.len() as u32;
            &&& final(engine).txs@[id as int].num_confirmations == 1
            &&& final(engine).approvals.spec_has_approved(sender@, id)
        },
{
    if !engine.ledger.is_admin(sender) {
        return Err(ContractError::Unauthorized {});
    }
    let id = engine.txs.next_id();
    let mut tx = Transaction::new(to, id, coins);
    tx.num_confirmations = 1;
    let snapshot = tx.snapshot();
    proof {
        // No record can name the fresh id: every record points below it.
        assert(!old(engine).approvals.spec_has_approved(sender@, id));
    }
    engine.txs.push(tx);
    engine.approvals.record_approval(sender.clone(), id);
    proof {
        let e0 = *old(engine);
        let e1 = *engine;
        let rec = (Approval { admin: *sender, tx_id: id });
        lemma_approvers_absent(e0.approvals, id);
        lemma_approvers_after_record(e0.approvals, e1.approvals, rec);
        assert(e1.approvals.approvers(id) == e0.approvals.approvers(id).insert(sender@));
        assert(e1.approvals.approvers(id).len() == 1);
        assert(e1.txs.wf());
        assert(e1.approvals.wf()) by {
            assert forall|i: int, j: int| 0 <= i < j < e1.approvals.records@.len() implies !((
            #[trigger] e1.approvals.records@[i]).admin@ == (
            #[trigger] e1.approvals.records@[j]).admin@ && e1.approvals.records@[i].tx_id
                == e1.approvals.records@[j].tx_id) by {
                if j == e0.approvals.records@.len() {
                    // The new record's id is fresh, so it collides with none.
                    assert(e1.approvals.records@[i] == e0.approvals.records@[i]);
                    assert(e0.approvals.records@[i].tx_id < id);
                } else {
                    assert(e1.approvals.records@[i] == e0.approvals.records@[i]);
                    assert(e1.approvals.records@[j] == e0.approvals.records@[j]);
                }
            };
        };
        assert forall|i: int| 0 <= i < e1.txs@.len() implies (
        #[trigger] e1.txs@[i]).num_confirmations == e1.approvals.approvers(
            e1.txs@[i].id,
        ).len() by {
            if i < e0.txs@.len() {
                assert(e1.txs@[i] == e0.txs@[i]);
                assert(e1.txs@[i].id == i as u32);
                assert(e1.approvals.approvers(e1.txs@[i].id) == e0.approvals.approvers(
                    e1.txs@[i].id,
                ));
            }
        };
        assert(e1.wf());
    }
    Ok(Response::Proposed { tx: snapshot })
}

/// What approving promises. In order: a non-admin sender is turned away; an
/// admin that already approved `tx_id` (the proposer included) gets
/// `AlreadySigned` back; an id no transaction carries gets `NonExistentTx`.
/// Each of those leaves the state untouched. Otherwise the tracker gains the
/// sender's record and the transaction's counter grows by exactly one, in
/// lockstep.
pub open spec fn sign_tx_post(
    e0: ApprovalEngine,
    e1: ApprovalEngine,
    sender: String,
    tx_id: u32,
    r: Result<Response, ContractError>,
) -> bool {
    if !e0.ledger.spec_is_admin(sender@) {
        e1 == e0 && r == Err::<Response, ContractError>(ContractError::Unauthorized {})
    } else if e0.approvals.spec_has_approved(sender@, tx_id) {
        e1 == e0 && r == Err::<Response, ContractError>(ContractError::AlreadySigned(tx_id))
    } else if e0.txs@.len() <= tx_id {
        e1 == e0 && r == Err::<Response, ContractError>(ContractError::NonExistentTx(tx_id))
    } else {
        let tx = e0.txs@[tx_id as int];
        &&& e1.ledger == e0.ledger
        &&& e1.txs@ == e0.txs@.update(
            tx_id as int,
            (Transaction {
                to: tx.to,
                coins: tx.coins,
                id: tx.id,
                num_confirmations: (tx.num_confirmations + 1) as u32,
            }),
        )
        &&& e1.approvals.records@ == e0.approvals.records@.push(
            (Approval { admin: sender, tx_id }),
        )
        &&& r == Ok::<Response, ContractError>(Response::Signed {})
    }
}

/// Records `sender`'s approval of the transaction with id `tx_id` and adds
/// one confirmation to it. The tracker is the single source of truth against
/// double counting: a second call by the same admin fails and changes
/// nothing.
pub fn sign_tx(engine: &mut ApprovalEngine, sender: &String, tx_id: u32) -> (r: Result<
    Response,
    ContractError,
>)
    requires
        old(engine).wf(),
    ensures
        final(engine).wf(),
        sign_tx_post(*old(engine), *final(engine), *sender, tx_id, r),
{
    if !engine.ledger.is_admin(sender) {
        return Err(ContractError::Unauthorized {});
    }
    if engine.approvals.has_approved(sender, tx_id) {
        return Err(ContractError::AlreadySigned(tx_id));
    }
    let found = engine.txs.find(tx_id).is_some();
    if !found {
        proof {
            // Ids are sequential, so a missing id lies at or above the count.
            assert forall|i: int| 0 <= i < engine.txs@.len() implies (
            #[trigger] engine.txs@[i]).id != tx_id by {
                assert(engine.txs@[i].id == i as u32);
            };
        }
        return Err(ContractError::NonExistentTx(tx_id));
    }
    proof {
        let i = choose|i: int|
            0 <= i < engine.txs@.len() && (#[trigger] engine.txs@[i]).id == tx_id;
        assert(tx_id < engine.txs@.len());
    }
    engine.approvals.record_approval(sender.clone(), tx_id);
    proof {
        let e0 = *old(engine);
        let t1 = engine.approvals;
        let rec = (Approval { admin: *sender, tx_id });
        lemma_approvers_after_record(e0.approvals, t1, rec);
        lemma_approver_count(e0.approvals, e0.ledger, tx_id);
        lemma_approver_count(t1, e0.ledger, tx_id);
        // The sender was not yet an approver, so the set grew by one and is
        // still no larger than the admin set; the old counter is therefore
        // strictly below it.
        assert(t1.approvers(tx_id) == e0.approvals.approvers(tx_id).insert(sender@));
        assert(t1.approvers(tx_id).len() == e0.approvals.approvers(tx_id).len() + 1);
        assert(e0.txs@[tx_id as int].num_confirmations < u32::MAX);
        assert forall|i: int|
            0 <= i < engine.txs@.len() && (#[trigger] engine.txs@[i]).id == tx_id implies
        engine.txs@[i].num_confirmations < u32::MAX by {
            assert(engine.txs@[i].id == i as u32);
        };
    }
    let inc = engine.txs.increment_confirmations(tx_id);
    match inc {
        Ok(_) => {
            proof {
                let e0 = *old(engine);
                let e1 = *engine;
                let rec = (Approval { admin: *sender, tx_id });
                let j = choose|j: int|
                    0 <= j < e0.txs@.len() && (#[trigger] e0.txs@[j]).id == tx_id && (forall|
                        k: int,
                    | 0 <= k < j ==> e0.txs@[k].id != tx_id) && e1.txs@ == e0.txs@.update(
                        j,
                        (Transaction {
                            to: e0.txs@[j].to,
                            coins: e0.txs@[j].coins,
                            id: e0.txs@[j].id,
                            num_confirmations: (e0.txs@[j].num_confirmations + 1) as u32,
                        }),
                    );
                assert(j == tx_id as int);
                lemma_approvers_after_record(e0.approvals, e1.approvals, rec);
                assert(e1.txs.wf()) by {
                    assert forall|i: int| 0 <= i < e1.txs@.len() implies (
                    #[trigger] e1.txs@[i]).id == i as u32 by {
                        if i != j {
                            assert(e1.txs@[i] == e0.txs@[i]);
                        }
                    };
                };
                assert(e1.approvals.wf()) by {
                    assert forall|a: int, b: int|
                        0 <= a < b < e1.approvals.records@.len() implies !((
                    #[trigger] e1.approvals.records@[a]).admin@ == (
                    #[trigger] e1.approvals.records@[b]).admin@ && e1.approvals.records@[a].tx_id
                        == e1.approvals.records@[b].tx_id) by {
                        if b == e0.approvals.records@.len() {
                            assert(e1.approvals.records@[a] == e0.approvals.records@[a]);
                            // A colliding old record would mean the sender had
                            // already approved this transaction.
                            assert(e1.approvals.records@[b].admin@ == sender@);
                        } else {
                            assert(e1.approvals.records@[a] == e0.approvals.records@[a]);
                            assert(e1.approvals.records@[b] == e0.approvals.records@[b]);
                        }
                    };
                };
                assert forall|i: int| 0 <= i < e1.txs@.len() implies (
                #[trigger] e1.txs@[i]).num_confirmations == e1.approvals.approvers(
                    e1.txs@[i].id,
                ).len() by {
                    if i != j {
                        assert(e1.txs@[i] == e0.txs@[i]);
                        assert(e1.txs@[i].id == i as u32);
                        assert(e1.approvals.approvers(e1.txs@[i].id) == e0.approvals.approvers(
                            e0.txs@[i].id,
                        ));
                    } else {
                        assert(e1.txs@[i].id == tx_id);
                    }
                };
                assert(e1.wf());
            }
            Ok(Response::Signed {})
        },
        Err(e) => {
            proof {
                assert(false);
            }
            Err(e)
        },
    }
}

/// What releasing promises. Release mutates nothing: it re-checks
/// releasability against the current counter every time it is called, so a
/// transaction that met its quorum can be released again. A non-admin sender
/// is turned away; a missing id gets `NonExistentTx`; a counter below the
/// quorum gets `NotEnoughSignatures` back, with both figures; otherwise the
/// result carries the transfer instruction for the stored destination and
/// amounts.
pub open spec fn execute_tx_post(
    e: ApprovalEngine,
    sender: String,
    tx_id: u32,
    r: Result<Response, ContractError>,
) -> bool {
    if !e.ledger.spec_is_admin(sender@) {
        r == Err::<Response, ContractError>(ContractError::Unauthorized {})
    } else if e.txs@.len() <= tx_id {
        r == Err::<Response, ContractError>(ContractError::NonExistentTx(tx_id))
    } else {
        let tx = e.txs@[tx_id as int];
        if tx.num_confirmations < e.ledger.quorum {
            r == Err::<Response, ContractError>(
                ContractError::NotEnoughSignatures {
                    quorum: e.ledger.quorum,
                    num_signed: tx.num_confirmations,
                },
            )
        } else {
            match r {
                Ok(resp) => resp matches Response::Released { instruction }
                    && instruction.to_address == tx.to && instruction.amount@ == tx.coins@,
                Err(_) => false,
            }
        }
    }
}

/// Decides whether the transaction with id `tx_id` may be released, and if
/// so produces the transfer instruction. Succeeds exactly when the sender is
/// an admin, the transaction exists, and its confirmations have reached the
/// quorum; it fails with `NotEnoughSignatures` whenever they have not.
pub fn execute_tx(engine: &ApprovalEngine, sender: &String, tx_id: u32) -> (r: Result<
    Response,
    ContractError,
>)
    requires
        engine.wf(),
    ensures
        execute_tx_post(*engine, *sender, tx_id, r),
{
    if !engine.ledger.is_admin(sender) {
        return Err(ContractError::Unauthorized {});
    }
    let found = engine.txs.find(tx_id);
    match found {
        None => Err(ContractError::NonExistentTx(tx_id)),
        Some(tx) => {
            proof {
                let i = choose|i: int|
                    0 <= i < engine.txs@.len() && (#[trigger] engine.txs@[i]).id == tx_id && *tx
                        == engine.txs@[i];
                assert(i == tx_id as int);
            }
            if engine.ledger.quorum > tx.num_confirmations {
                Err(
                    ContractError::NotEnoughSignatures {
                        quorum: engine.ledger.quorum,
                        num_signed: tx.num_confirmations,
                    },
                )
            } else {
                let s = tx.snapshot();
                Ok(
                    Response::Released {
                        instruction: TransferInstruction { to_address: s.to, amount: s.coins },
                    },
                )
            }
        },
    }
}

/// Dispatches one authenticated mutating request to the operation it names.
/// The sender must be an admin for any of the three; the check happens
/// before any operation-specific work.
pub fn execute(engine: &mut ApprovalEngine, sender: &String, msg: ExecuteMsg) -> (r: Result<
    Response,
    ContractError,
>)
    requires
        old(engine).wf(),
        msg matches ExecuteMsg::CreateTransaction { .. } ==> old(engine).txs@.len() < u32::MAX,
    ensures
        final(engine).wf(),
        (match msg {
            ExecuteMsg::CreateTransaction { to, coins } => create_tx_post(
                *old(engine),
                *final(engine),
                *sender,
                to,
                coins,
                r,
            ),
            ExecuteMsg::SignTransactions { tx_id } => sign_tx_post(
                *old(engine),
                *final(engine),
                *sender,
                tx_id,
                r,
            ),
            ExecuteMsg::ExecuteTransaction { tx_id } => *final(engine) == *old(engine)
                && execute_tx_post(*old(engine), *sender, tx_id, r),
        }),
{
    let auth = is_admin(engine, sender);
    match auth {
        Err(e) => Err(e),
        Ok(_) => match msg {
            ExecuteMsg::CreateTransaction { to, coins } => create_tx(engine, sender, to, coins),
            ExecuteMsg::SignTransactions { tx_id } => sign_tx(engine, sender, tx_id),
            ExecuteMsg::ExecuteTransaction { tx_id } => execute_tx(engine, sender, tx_id),
        },
    }
}

/// Authorization check shared by every mutating operation: `Ok` exactly when
/// the sender is one of the configured admins.
pub fn is_admin(engine: &ApprovalEngine, sender: &String) -> (r: Result<(), ContractError>)
    ensures
        r is Ok <==> engine.ledger.spec_is_admin(sender@),
        r is Err ==> r == Err::<(), ContractError>(ContractError::Unauthorized {}),
{
    if engine.ledger.is_admin(sender) {
        Ok(())
    } else {
        Err(ContractError::Unauthorized {})
    }
}

/// Reports whether `admin` has approved the transaction with id `tx_id`.
/// Absence of a record reads as `false`, never as an error.
pub fn list_signed(engine: &ApprovalEngine, admin: &String, tx_id: u32) -> (r: ListSignedResp)
    ensures
        r.signed == engine.approvals.spec_has_approved(admin@, tx_id),
{
    ListSignedResp { signed: engine.approvals.has_approved(admin, tx_id) }
}

/// The configured admin set, in initialization order.
pub fn list_admins(engine: &ApprovalEngine) -> (r: ListAdminsResp)
    ensures
        r.admins@ == engine.ledger.admins@,
{
    let mut admins: Vec<String> = Vec::new();
    let mut i: usize = 0;
    while i < engine.ledger.admins.len()
        invariant
            i <= engine.ledger.admins@.len(),
            admins@ == engine.ledger.admins@.subrange(0, i as int),
        decreases engine.ledger.admins@.len() - i,
    {
        admins.push(engine.ledger.admins[i].clone());
        proof {
            assert(admins@ =~= engine.ledger.admins@.subrange(0, i + 1));
        }
        i += 1;
    }
    proof {
        assert(admins@ =~= engine.ledger.admins@);
    }
    ListAdminsResp { admins }
}

/// Every transaction proposed so far, with its current confirmation count.
/// Released transactions stay listed: the registry never deletes.
pub fn list_pending(engine: &ApprovalEngine) -> (r: ListPendingResp)
    ensures
        r.transactions@.len() == engine.txs@.len(),
        forall|i: int|
            0 <= i < engine.txs@.len() ==> tx_eq(
                #[trigger] r.transactions@[i],
                engine.txs@[i],
            ),
{
    let mut txs: Vec<Transaction> = Vec::new();
    let mut i: usize = 0;
    while i < engine.txs.0.len()
        invariant
            i <= engine.txs@.len(),
            txs@.len() == i,
            forall|j: int| 0 <= j < i ==> tx_eq(#[trigger] txs@[j], engine.txs@[j]),
        decreases engine.txs@.len() - i,
    {
        txs.push(engine.txs.0[i].snapshot());
        i += 1;
    }
    ListPendingResp { transactions: PendingTransactions::new(txs) }
}

/// Dispatches one read-only request. Queries need no authorization and
/// never fail.
pub fn query(engine: &ApprovalEngine, msg: QueryMsg) -> (r: QueryResponse)
    ensures
        (match msg {
            QueryMsg::ListPending {  } => r matches QueryResponse::Pending(p)
                && p.transactions@.len() == engine.txs@.len() && (forall|i: int|
                0 <= i < engine.txs@.len() ==> tx_eq(
                    #[trigger] p.transactions@[i],
                    engine.txs@[i],
                )),
            QueryMsg::ListAdmins {  } => r matches QueryResponse::Admins(a) && a.admins@
                == engine.ledger.admins@,
            QueryMsg::ListSigned { admin, tx_id } => r matches QueryResponse::Signed(s)
                && s.signed == engine.approvals.spec_has_approved(admin@, tx_id),
        }),
{
    match msg {
        QueryMsg::ListPending {  } => QueryResponse::Pending(list_pending(engine)),
        QueryMsg::ListAdmins {  } => QueryResponse::Admins(list_admins(engine)),
        QueryMsg::ListSigned { admin, tx_id } => QueryResponse::Signed(
            list_signed(engine, &admin, tx_id),
        ),
    }
}

/// Law: a sender outside the admin set can change nothing. Whichever of the
/// three operations it asked for, the call fails with `Unauthorized` and the
/// state is exactly what it was.
pub proof fn lemma_unauthorized_unchanged(
    e0: ApprovalEngine,
    e1: ApprovalEngine,
    sender: String,
    msg: ExecuteMsg,
    r: Result<Response, ContractError>,
)
    requires
        !e0.ledger.spec_is_admin(sender@),
        match msg {
            ExecuteMsg::CreateTransaction { to, coins } => create_tx_post(
                e0,
                e1,
                sender,
                to,
                coins,
                r,
            ),
            ExecuteMsg::SignTransactions { tx_id } => sign_tx_post(e0, e1, sender, tx_id, r),
            ExecuteMsg::ExecuteTransaction { tx_id } => e1 == e0 && execute_tx_post(
                e0,
                sender,
                tx_id,
                r,
            ),
        },
    ensures
        e1 == e0,
        r == Err::<Response, ContractError>(ContractError::Unauthorized {}),
{
}

/// Law: the same admin cannot be counted twice. After one successful
/// approval of `tx_id`, which raised the counter by exactly one, a second
/// attempt by the same admin fails with `AlreadySigned` and leaves the state
/// exactly as the first call left it.
pub proof fn lemma_sign_twice_rejected(
    e0: ApprovalEngine,
    e1: ApprovalEngine,
    e2: ApprovalEngine,
    sender: String,
    tx_id: u32,
    r1: Result<Response, ContractError>,
    r2: Result<Response, ContractError>,
)
    requires
        e0.wf(),
        sign_tx_post(e0, e1, sender, tx_id, r1),
        r1 is Ok,
        sign_tx_post(e1, e2, sender, tx_id, r2),
    ensures
        tx_id < e0.txs@.len(),
        e1.txs@[tx_id as int].num_confirmations == e0.txs@[tx_id as int].num_confirmations + 1,
        r2 == Err::<Response, ContractError>(ContractError::AlreadySigned(tx_id)),
        e2 == e1,
{
    let n = e0.approvals.records@.len() as int;
    assert(e1.approvals.records@[n].admin@ == sender@ && e1.approvals.records@[n].tx_id == tx_id);
    assert(e1.approvals.spec_has_approved(sender@, tx_id));
    // The first call could not have overflowed the counter: the approver set
    // had grown to at most the admin set, so the old counter was strictly
    // below the admin count.
    let rec = (Approval { admin: sender, tx_id });
    lemma_approvers_after_record(e0.approvals, e1.approvals, rec);
    lemma_approver_count(e0.approvals, e0.ledger, tx_id);
    lemma_approver_count(e1.approvals, e0.ledger, tx_id);
    assert(e1.approvals.approvers(tx_id).len() == e0.approvals.approvers(tx_id).len() + 1);
    assert(e0.txs@[tx_id as int].num_confirmations < u32::MAX);
}

/// Law: what `propose` stored is retrievable by the id it returned. The
/// transaction at that id carries the proposed destination and amounts
/// unchanged, and no other stored transaction carries the same id, so any
/// lookup by id yields exactly this transaction.
pub proof fn lemma_propose_round_trip(
    e0: ApprovalEngine,
    e1: ApprovalEngine,
    sender: String,
    to: String,
    coins: Vec<Coin>,
    r: Result<Response, ContractError>,
)
    requires
        e0.wf(),
        e0.txs@.len() < u32::MAX,
        e0.ledger.spec_is_admin(sender@),
        create_tx_post(e0, e1, sender, to, coins, r),
    ensures
        ({
            let id = e0.txs@.len() as u32;
            &&& id < e1.txs@.len()
            &&& e1.txs@[id as int].id == id
            &&& e1.txs@[id as int].to == to
            &&& e1.txs@[id as int].coins@ == coins@
            &&& forall|j: int|
                0 <= j < e1.txs@.len() && j != id ==> (#[trigger] e1.txs@[j]).id != id
        }),
{
    let id = e0.txs@.len() as u32;
    assert forall|j: int| 0 <= j < e1.txs@.len() && j != id implies (#[trigger] e1.txs@[j]).id
        != id by {
        if j < e0.txs@.len() {
            assert(e1.txs@[j] == e0.txs@[j]);
            assert(e0.txs@[j].id == j as u32);
        }
    };
}

} // verus!
