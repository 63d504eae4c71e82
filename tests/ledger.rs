use near_mock_vm::ledger::{Action, Ledger};

#[test]
fn receipts_get_consecutive_indices() {
    let mut ledger = Ledger::new();
    let first = ledger.create_receipt(vec![], b"charli.near".to_vec());
    assert_eq!(first, 0);
    let second = ledger.create_receipt(vec![first], b"bob.near".to_vec());
    assert_eq!(second, 1);
    assert_eq!(ledger.len(), 2);
    assert_eq!(ledger.receipts[1].receipt_indices, vec![0]);
    assert_eq!(ledger.receipts[1].receiver_id, b"bob.near".to_vec());
}

#[test]
fn actions_append_in_order() {
    let mut ledger = Ledger::new();
    let r = ledger.create_receipt(vec![], b"charli.near".to_vec());
    ledger.append_action(r, Action::CreateAccount);
    ledger.append_action(r, Action::Transfer { deposit: 100000 });
    assert_eq!(ledger.receipts[0].actions.len(), 2);
    assert!(matches!(ledger.receipts[0].actions[0], Action::CreateAccount));
    assert!(matches!(ledger.receipts[0].actions[1], Action::Transfer { deposit: 100000 }));
}

#[test]
fn ledger_copy_is_independent() {
    let mut ledger = Ledger::new();
    let r = ledger.create_receipt(vec![], b"a".to_vec());
    let copy = ledger.copy();
    ledger.append_action(r, Action::CreateAccount);
    assert_eq!(copy.receipts[0].actions.len(), 0);
    assert_eq!(ledger.receipts[0].actions.len(), 1);
}
