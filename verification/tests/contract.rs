use multisig::contract::{create_tx, execute, execute_tx, instantiate, is_admin, list_admins,
    list_pending, list_signed, query, sign_tx};
use multisig::error::ContractError;
use multisig::msg::{ExecuteMsg, InstantiateMsg, QueryMsg, QueryResponse, Response,
    TransferInstruction};
use multisig::state::{ApprovalEngine, Coin, Transaction};

fn coin(amount: u128, denom: &str) -> Coin {
    Coin { denom: String::from(denom), amount }
}

fn owner(name: &str) -> String {
    String::from(name)
}

fn instantiate_contract() -> ApprovalEngine {
    instantiate(InstantiateMsg {
        owners: vec![owner("owner1"), owner("owner2"), owner("owner3")],
        quorum: 2,
    })
    .unwrap()
}

fn pending_at(engine: &ApprovalEngine, at: usize) -> Transaction {
    match query(engine, QueryMsg::ListPending {}) {
        QueryResponse::Pending(resp) => resp.transactions.index(at).unwrap().snapshot(),
        _ => panic!("wrong response variant"),
    }
}

fn signed_by(engine: &ApprovalEngine, admin: &str, tx_id: u32) -> bool {
    match query(
        engine,
        QueryMsg::ListSigned { admin: owner(admin), tx_id },
    ) {
        QueryResponse::Signed(resp) => resp.signed,
        _ => panic!("wrong response variant"),
    }
}

#[test]
fn test_instantiate() {
    let engine = instantiate_contract();

    let resp = list_admins(&engine);
    assert_eq!(
        resp.admins,
        vec![owner("owner1"), owner("owner2"), owner("owner3")]
    );
}

#[test]
fn test_propose_unauthorized() {
    let mut engine = instantiate_contract();

    let msg = ExecuteMsg::CreateTransaction {
        to: owner("owner"),
        coins: vec![coin(5, "atom")],
    };
    let err = execute(&mut engine, &owner("unathorized"), msg).unwrap_err();
    assert_eq!(err, ContractError::Unauthorized {});
}

#[test]
fn test_propose() {
    let mut engine = instantiate_contract();

    let msg = ExecuteMsg::CreateTransaction {
        to: owner("owner"),
        coins: vec![coin(5, "atom")],
    };
    execute(&mut engine, &owner("owner1"), msg).unwrap();

    let mut tx = Transaction::new(owner("owner"), 0, vec![coin(5, "atom")]);
    tx.num_confirmations = 1;
    assert_eq!(tx, pending_at(&engine, 0));
}

#[test]
fn test_sign_after_already_signed() {
    let mut engine = instantiate_contract();

    let msg = ExecuteMsg::CreateTransaction {
        to: owner("owner"),
        coins: vec![coin(5, "atom")],
    };
    execute(&mut engine, &owner("owner1"), msg).unwrap();

    let msg = ExecuteMsg::SignTransactions { tx_id: 0 };
    let err = execute(&mut engine, &owner("owner1"), msg).unwrap_err();
    assert_eq!(err, ContractError::AlreadySigned(0));
}

#[test]
fn test_sign() {
    let mut engine = instantiate_contract();

    let msg = ExecuteMsg::CreateTransaction {
        to: owner("owner"),
        coins: vec![coin(5, "atom")],
    };
    execute(&mut engine, &owner("owner1"), msg).unwrap();

    let msg = ExecuteMsg::SignTransactions { tx_id: 0 };
    execute(&mut engine, &owner("owner2"), msg).unwrap();
    let msg = ExecuteMsg::SignTransactions { tx_id: 0 };
    execute(&mut engine, &owner("owner3"), msg).unwrap();

    let resp_owner1 = signed_by(&engine, "owner2", 0);
    let resp_owner2 = signed_by(&engine, "owner2", 0);
    let resp_owner3 = signed_by(&engine, "owner3", 0);

    assert_eq!(resp_owner1, true);
    assert_eq!(resp_owner2, true);
    assert_eq!(resp_owner3, true);

    assert_eq!(pending_at(&engine, 0).num_confirmations, 3);
}

#[test]
fn test_execute_under_quorum() {
    let mut engine = instantiate_contract();

    let msg = ExecuteMsg::CreateTransaction {
        to: owner("owner"),
        coins: vec![coin(5, "atom")],
    };
    execute(&mut engine, &owner("owner1"), msg).unwrap();

    let msg = ExecuteMsg::ExecuteTransaction { tx_id: 0 };
    let err = execute(&mut engine, &owner("owner1"), msg).unwrap_err();
    assert_eq!(
        err,
        ContractError::NotEnoughSignatures { quorum: 2, num_signed: 1 }
    );
}

#[test]
fn test_execute() {
    let mut engine = instantiate_contract();

    let msg = ExecuteMsg::CreateTransaction {
        to: owner("owner"),
        coins: vec![coin(5, "atom")],
    };
    execute(&mut engine, &owner("owner1"), msg).unwrap();

    let msg = ExecuteMsg::SignTransactions { tx_id: 0 };
    execute(&mut engine, &owner("owner2"), msg).unwrap();
    let msg = ExecuteMsg::SignTransactions { tx_id: 0 };
    execute(&mut engine, &owner("owner3"), msg).unwrap();

    assert_eq!(signed_by(&engine, "owner2", 0), true);
    assert_eq!(signed_by(&engine, "owner3", 0), true);

    let msg = ExecuteMsg::ExecuteTransaction { tx_id: 0 };
    let resp = execute(&mut engine, &owner("owner3"), msg).unwrap();
    match resp {
        Response::Released { instruction } => {
            assert_eq!(
                instruction,
                TransferInstruction {
                    to_address: owner("owner"),
                    amount: vec![coin(5, "atom")],
                }
            );
        }
        _ => panic!("wrong response variant"),
    }
}

#[test]
fn instantiate_rejects_empty_owner_set() {
    let err = instantiate(InstantiateMsg { owners: vec![], quorum: 1 }).unwrap_err();
    assert_eq!(err, ContractError::ZeroOwners);
}

#[test]
fn instantiate_rejects_zero_quorum() {
    let err =
        instantiate(InstantiateMsg { owners: vec![owner("owner1")], quorum: 0 }).unwrap_err();
    assert_eq!(err, ContractError::WrongQuorum { quorum: 0, owners: 1 });
}

#[test]
fn instantiate_rejects_quorum_above_owner_count() {
    let err = instantiate(InstantiateMsg {
        owners: vec![owner("owner1"), owner("owner2"), owner("owner3")],
        quorum: 4,
    })
    .unwrap_err();
    assert_eq!(err, ContractError::WrongQuorum { quorum: 4, owners: 3 });
}

#[test]
fn instantiate_accepts_quorum_equal_to_owner_count() {
    let engine = instantiate(InstantiateMsg {
        owners: vec![owner("owner1"), owner("owner2")],
        quorum: 2,
    })
    .unwrap();
    assert_eq!(list_admins(&engine).admins.len(), 2);
}

#[test]
fn unauthorized_sender_changes_nothing() {
    let mut engine = instantiate_contract();
    let msg = ExecuteMsg::CreateTransaction {
        to: owner("owner"),
        coins: vec![coin(5, "atom")],
    };
    execute(&mut engine, &owner("owner1"), msg).unwrap();

    let intruder = owner("outsider");
    assert!(is_admin(&engine, &intruder).is_err());

    let err = sign_tx(&mut engine, &intruder, 0).unwrap_err();
    assert_eq!(err, ContractError::Unauthorized {});
    let err = execute_tx(&engine, &intruder, 0).unwrap_err();
    assert_eq!(err, ContractError::Unauthorized {});
    let err = create_tx(&mut engine, &intruder, owner("owner"), vec![coin(1, "atom")])
        .unwrap_err();
    assert_eq!(err, ContractError::Unauthorized {});

    // Still exactly one transaction, with its counter untouched, and no
    // approval recorded for the intruder.
    let resp = list_pending(&engine);
    assert!(resp.transactions.index(1).is_none());
    assert_eq!(pending_at(&engine, 0).num_confirmations, 1);
    assert_eq!(list_signed(&engine, &intruder, 0).signed, false);
}

#[test]
fn proposer_gets_implicit_approval() {
    let mut engine = instantiate_contract();
    let proposer = owner("owner2");
    let resp =
        create_tx(&mut engine, &proposer, owner("owner"), vec![coin(5, "atom")]).unwrap();
    match resp {
        Response::Proposed { tx } => {
            assert_eq!(tx.id, 0);
            assert_eq!(tx.num_confirmations, 1);
        }
        _ => panic!("wrong response variant"),
    }
    assert_eq!(signed_by(&engine, "owner2", 0), true);
}

#[test]
fn second_sign_leaves_confirmations_unchanged() {
    let mut engine = instantiate_contract();
    create_tx(&mut engine, &owner("owner1"), owner("owner"), vec![coin(5, "atom")]).unwrap();

    sign_tx(&mut engine, &owner("owner2"), 0).unwrap();
    assert_eq!(pending_at(&engine, 0).num_confirmations, 2);

    let err = sign_tx(&mut engine, &owner("owner2"), 0).unwrap_err();
    assert_eq!(err, ContractError::AlreadySigned(0));
    assert_eq!(pending_at(&engine, 0).num_confirmations, 2);
}

#[test]
fn sign_nonexistent_transaction() {
    let mut engine = instantiate_contract();
    let err = sign_tx(&mut engine, &owner("owner1"), 5).unwrap_err();
    assert_eq!(err, ContractError::NonExistentTx(5));
}

#[test]
fn execute_nonexistent_transaction() {
    let engine = instantiate_contract();
    let err = execute_tx(&engine, &owner("owner1"), 7).unwrap_err();
    assert_eq!(err, ContractError::NonExistentTx(7));
}

#[test]
fn propose_round_trip_by_id() {
    let mut engine = instantiate_contract();
    create_tx(&mut engine, &owner("owner1"), owner("alice"), vec![coin(3, "atom")]).unwrap();
    let resp =
        create_tx(&mut engine, &owner("owner2"), owner("bob"), vec![coin(9, "osmo")]).unwrap();
    let id = match resp {
        Response::Proposed { tx } => tx.id,
        _ => panic!("wrong response variant"),
    };
    assert_eq!(id, 1);

    let stored = pending_at(&engine, id as usize);
    assert_eq!(stored.id, 1);
    assert_eq!(stored.to, owner("bob"));
    assert_eq!(stored.coins, vec![coin(9, "osmo")]);
}

#[test]
fn quorum_scenario_with_release_then_late_sign() {
    let mut engine = instantiate(InstantiateMsg {
        owners: vec![owner("x"), owner("y"), owner("z")],
        quorum: 2,
    })
    .unwrap();

    let resp = create_tx(&mut engine, &owner("x"), owner("r"), vec![coin(5, "atom")]).unwrap();
    match resp {
        Response::Proposed { tx } => {
            assert_eq!(tx.id, 0);
            assert_eq!(tx.num_confirmations, 1);
        }
        _ => panic!("wrong response variant"),
    }

    sign_tx(&mut engine, &owner("y"), 0).unwrap();
    assert_eq!(pending_at(&engine, 0).num_confirmations, 2);

    // Any admin may release once the quorum is met.
    let resp = execute_tx(&engine, &owner("z"), 0).unwrap();
    match resp {
        Response::Released { instruction } => {
            assert_eq!(
                instruction,
                TransferInstruction { to_address: owner("r"), amount: vec![coin(5, "atom")] }
            );
        }
        _ => panic!("wrong response variant"),
    }

    // Releasing marks nothing: a late approval still succeeds.
    sign_tx(&mut engine, &owner("z"), 0).unwrap();
    assert_eq!(pending_at(&engine, 0).num_confirmations, 3);

    // And the transaction can be released again.
    assert!(execute_tx(&engine, &owner("x"), 0).is_ok());
}

#[test]
fn single_admin_releases_without_separate_approval() {
    let mut engine =
        instantiate(InstantiateMsg { owners: vec![owner("x")], quorum: 1 }).unwrap();
    create_tx(&mut engine, &owner("x"), owner("r"), vec![coin(2, "atom")]).unwrap();
    let resp = execute_tx(&engine, &owner("x"), 0).unwrap();
    match resp {
        Response::Released { instruction } => {
            assert_eq!(instruction.to_address, owner("r"));
            assert_eq!(instruction.amount, vec![coin(2, "atom")]);
        }
        _ => panic!("wrong response variant"),
    }
}

#[test]
fn check_wf_accepts_engine_states_and_rejects_corruption() {
    let mut engine = instantiate_contract();
    assert!(engine.check_wf());
    create_tx(&mut engine, &owner("owner1"), owner("owner"), vec![coin(5, "atom")]).unwrap();
    sign_tx(&mut engine, &owner("owner2"), 0).unwrap();
    assert!(engine.check_wf());

    // Inflating a counter breaks the pairing with the approval records.
    engine.txs.0[0].num_confirmations = 5;
    assert!(!engine.check_wf());
}
