use mockchain_ledger::diff::Diff;
use mockchain_ledger::ledger::Ledger;
use mockchain_ledger::types::{
    Address, Error, Output, SignedTransaction, Transaction, TransactionId, UtxoPointer, Value,
    Witness,
};
use mockchain_ledger::utxo_map::UtxoMap;

fn make_address(u: u8) -> Address {
    Address { key: [u; 32] }
}

fn tx_id(u: u8) -> TransactionId {
    TransactionId { hash: [u; 32] }
}

fn witness(u: u8) -> Witness {
    Witness { signature: [u; 64] }
}

fn single(p: UtxoPointer, o: Output) -> UtxoMap {
    let mut m = UtxoMap::new();
    m.insert(p, o);
    m
}

#[test]
pub fn tx_no_witness() {
    let user1_address = make_address(0);
    let tx0_id = tx_id(0);
    let value = Value(42000);
    let utxo0 = UtxoPointer { transaction_id: tx0_id, output_index: 0, value: value };
    let ledger = Ledger::new(single(utxo0, Output(user1_address, Value(1))));
    let tx = Transaction { inputs: vec![utxo0], outputs: vec![Output(user1_address, Value(1))] };
    let signed_tx = SignedTransaction { transaction: tx, witnesses: vec![] };
    assert_eq!(
        Err(Error::NotEnoughSignatures(1, 0)),
        ledger.diff_transaction(&signed_tx, &tx_id(1), &vec![false])
    )
}

#[test]
pub fn tx_wrong_witness() {
    let user0_address = make_address(0);
    let tx0_id = tx_id(0);
    let value = Value(42000);
    let utxo0 = UtxoPointer { transaction_id: tx0_id, output_index: 0, value: value };
    let ledger = Ledger::new(single(utxo0, Output(user0_address, value)));
    let output0 = Output(user0_address, value);
    let tx = Transaction { inputs: vec![utxo0], outputs: vec![output0] };
    // signed with another key: it does not verify against the owner
    let witness = witness(1);
    let signed_tx = SignedTransaction { transaction: tx, witnesses: vec![witness] };
    assert_eq!(
        Err(Error::InvalidSignature(utxo0, output0, witness)),
        ledger.diff_transaction(&signed_tx, &tx_id(1), &vec![false])
    )
}

#[test]
fn cant_loose_money() {
    let user1_address = make_address(0);
    let tx0_id = tx_id(0);
    let value = Value(42000);
    let utxo0 = UtxoPointer { transaction_id: tx0_id, output_index: 0, value: value };
    let ledger = Ledger::new(single(utxo0, Output(user1_address, Value(10))));
    let output0 = Output(user1_address, Value(9));
    let tx = Transaction { inputs: vec![utxo0], outputs: vec![output0] };
    let signed_tx = SignedTransaction { transaction: tx, witnesses: vec![witness(0)] };
    assert_eq!(
        Err(Error::TransactionSumIsNonZero(10, 9)),
        ledger.diff_transaction(&signed_tx, &tx_id(1), &vec![true])
    )
}

#[test]
fn balanced_transaction_validates_and_applies() {
    let owner = make_address(0);
    let utxo0 = UtxoPointer::new(tx_id(0), 0, Value(1));
    let mut ledger = Ledger::new(single(utxo0, Output(owner, Value(1))));
    let new_owner = make_address(2);
    let tx = Transaction { inputs: vec![utxo0], outputs: vec![Output(new_owner, Value(1))] };
    let signed_tx = SignedTransaction { transaction: tx, witnesses: vec![witness(0)] };
    let id = tx_id(7);
    let diff = ledger.diff_transaction(&signed_tx, &id, &vec![true]).unwrap();
    let created_ref = UtxoPointer::new(id, 0, Value(1));
    assert_eq!(diff.spent_outputs().len(), 1);
    assert_eq!(diff.spent_outputs().get(&utxo0), Some(Output(owner, Value(1))));
    assert_eq!(diff.new_unspent_outputs().len(), 1);
    assert_eq!(diff.new_unspent_outputs().get(&created_ref), Some(Output(new_owner, Value(1))));
    // validation leaves the state untouched
    assert_eq!(ledger.unspent_outputs.len(), 1);
    assert!(ledger.unspent_outputs.contains_key(&utxo0));
    assert_eq!(ledger.apply(diff), Ok(()));
    assert!(!ledger.unspent_outputs.contains_key(&utxo0));
    assert_eq!(ledger.unspent_outputs.len(), 1);
    assert_eq!(ledger.unspent_outputs.get(&created_ref), Some(Output(new_owner, Value(1))));
}

#[test]
fn created_references_follow_output_positions() {
    let owner = make_address(0);
    let utxo0 = UtxoPointer::new(tx_id(0), 3, Value(30));
    let ledger = Ledger::new(single(utxo0, Output(owner, Value(30))));
    let tx = Transaction {
        inputs: vec![utxo0],
        outputs: vec![Output(owner, Value(10)), Output(owner, Value(20))],
    };
    let signed_tx = SignedTransaction { transaction: tx, witnesses: vec![witness(0), witness(9)] };
    let id = tx_id(5);
    let diff = ledger.diff_transaction(&signed_tx, &id, &vec![true]).unwrap();
    let created = diff.new_unspent_outputs();
    assert_eq!(created.len(), 2);
    assert_eq!(created.get(&UtxoPointer::new(id, 0, Value(10))), Some(Output(owner, Value(10))));
    assert_eq!(created.get(&UtxoPointer::new(id, 1, Value(20))), Some(Output(owner, Value(20))));
    assert_eq!(created.get(&UtxoPointer::new(id, 1, Value(10))), None);
}

#[test]
fn unknown_input_does_not_resolve() {
    let owner = make_address(0);
    let utxo0 = UtxoPointer::new(tx_id(0), 0, Value(5));
    let other = UtxoPointer::new(tx_id(0), 1, Value(5));
    let ledger = Ledger::new(single(utxo0, Output(owner, Value(5))));
    let tx = Transaction { inputs: vec![other], outputs: vec![Output(owner, Value(5))] };
    let signed_tx = SignedTransaction { transaction: tx, witnesses: vec![witness(0)] };
    assert_eq!(
        Err(Error::InputDoesNotResolve(other)),
        ledger.diff_transaction(&signed_tx, &tx_id(1), &vec![true])
    );
    assert_eq!(ledger.input(&other), Err(Error::InputDoesNotResolve(other)));
    assert_eq!(ledger.input(&utxo0), Ok(Output(owner, Value(5))));
}

#[test]
fn reference_claiming_another_value_is_another_key() {
    let owner = make_address(0);
    let utxo0 = UtxoPointer::new(tx_id(0), 0, Value(5));
    let claimed = UtxoPointer::new(tx_id(0), 0, Value(6));
    let ledger = Ledger::new(single(utxo0, Output(owner, Value(5))));
    assert_eq!(ledger.input(&claimed), Err(Error::InputDoesNotResolve(claimed)));
}

#[test]
fn same_input_twice_is_double_spend() {
    let owner = make_address(0);
    let utxo0 = UtxoPointer::new(tx_id(0), 0, Value(5));
    let ledger = Ledger::new(single(utxo0, Output(owner, Value(5))));
    let tx = Transaction { inputs: vec![utxo0, utxo0], outputs: vec![Output(owner, Value(10))] };
    let signed_tx = SignedTransaction { transaction: tx, witnesses: vec![witness(0), witness(0)] };
    assert_eq!(
        Err(Error::DoubleSpend(utxo0, Output(owner, Value(5)))),
        ledger.diff_transaction(&signed_tx, &tx_id(1), &vec![true, true])
    );
}

#[test]
fn extra_witnesses_are_tolerated() {
    let owner = make_address(0);
    let utxo0 = UtxoPointer::new(tx_id(0), 0, Value(5));
    let ledger = Ledger::new(single(utxo0, Output(owner, Value(5))));
    let tx = Transaction { inputs: vec![utxo0], outputs: vec![Output(owner, Value(5))] };
    let signed_tx =
        SignedTransaction { transaction: tx, witnesses: vec![witness(0), witness(1), witness(2)] };
    assert!(ledger.diff_transaction(&signed_tx, &tx_id(1), &vec![true]).is_ok());
}

#[test]
fn first_failing_input_decides_the_error() {
    let owner = make_address(0);
    let utxo0 = UtxoPointer::new(tx_id(0), 0, Value(5));
    let missing = UtxoPointer::new(tx_id(0), 9, Value(5));
    let ledger = Ledger::new(single(utxo0, Output(owner, Value(5))));
    let tx = Transaction { inputs: vec![utxo0, missing], outputs: vec![] };
    let signed_tx = SignedTransaction { transaction: tx, witnesses: vec![witness(3), witness(0)] };
    assert_eq!(
        Err(Error::InvalidSignature(utxo0, Output(owner, Value(5)), witness(3))),
        ledger.diff_transaction(&signed_tx, &tx_id(1), &vec![false, true])
    );
}

#[test]
fn apply_missing_spent_fails_and_leaves_state() {
    let owner = make_address(0);
    let utxo0 = UtxoPointer::new(tx_id(0), 0, Value(5));
    let absent = UtxoPointer::new(tx_id(3), 0, Value(5));
    let mut ledger = Ledger::new(single(utxo0, Output(owner, Value(5))));
    let fresh = UtxoPointer::new(tx_id(4), 0, Value(5));
    let diff = Diff::new(single(absent, Output(owner, Value(5))), single(fresh, Output(owner, Value(5))));
    assert_eq!(ledger.apply(diff), Err(Error::InputDoesNotResolve(absent)));
    assert_eq!(ledger.unspent_outputs, single(utxo0, Output(owner, Value(5))));
}

#[test]
fn apply_existing_created_fails_and_leaves_state() {
    let owner = make_address(0);
    let utxo0 = UtxoPointer::new(tx_id(0), 0, Value(5));
    let mut ledger = Ledger::new(single(utxo0, Output(owner, Value(5))));
    let diff = Diff::new(UtxoMap::new(), single(utxo0, Output(make_address(1), Value(5))));
    assert_eq!(
        ledger.apply(diff),
        Err(Error::InputWasAlreadySet(utxo0, Output(owner, Value(5)), Output(make_address(1), Value(5))))
    );
    assert_eq!(ledger.unspent_outputs, single(utxo0, Output(owner, Value(5))));
}

#[test]
fn apply_then_inverse_restores_state() {
    let owner = make_address(0);
    let utxo0 = UtxoPointer::new(tx_id(0), 0, Value(5));
    let fresh = UtxoPointer::new(tx_id(4), 0, Value(5));
    let mut ledger = Ledger::new(single(utxo0, Output(owner, Value(5))));
    let make = || Diff::new(single(utxo0, Output(owner, Value(5))), single(fresh, Output(owner, Value(5))));
    assert_eq!(ledger.apply(make()), Ok(()));
    assert_eq!(ledger.unspent_outputs, single(fresh, Output(owner, Value(5))));
    assert_eq!(ledger.apply(make().inverse()), Ok(()));
    assert_eq!(ledger.unspent_outputs, single(utxo0, Output(owner, Value(5))));
}
