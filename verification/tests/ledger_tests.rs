//! Tests of the account ledger. Monetary values are fixed-point decimals
//! stored as counts of minor units: 1_000_000 minor units stand for 100.0
//! currency units at four decimal places.

use ledger::{Account, Error, Transaction, TransactionKind};

#[test]
fn single_deposit() {
    let transactions = vec![Transaction {
        client: 1,
        transaction_id: 1,
        kind: TransactionKind::Deposit { amount: 1_000_000 },
    }];

    let accounts = Account::from_transactions(transactions).unwrap();
    assert_eq!(accounts.len(), 1);

    let account = &accounts[0];
    assert_eq!(account.client, 1);
    assert_eq!(account.total, 1_000_000);
    assert_eq!(account.available, 1_000_000);
    assert_eq!(account.held, 0);
    assert!(!account.locked);
}

#[test]
fn deposit_and_withdrawal() {
    let transactions = vec![
        Transaction {
            client: 1,
            transaction_id: 1,
            kind: TransactionKind::Deposit { amount: 1_000_000 },
        },
        Transaction {
            client: 1,
            transaction_id: 2,
            kind: TransactionKind::Withdrawal { amount: 300_000 },
        },
    ];

    let accounts = Account::from_transactions(transactions).unwrap();
    let account = &accounts[0];

    assert_eq!(account.total, 700_000);
    assert_eq!(account.available, 700_000);
    assert_eq!(account.held, 0);
    assert!(!account.locked);
}

#[test]
fn withdrawal_exceeds_balance() {
    let transactions = vec![
        Transaction {
            client: 1,
            transaction_id: 1,
            kind: TransactionKind::Deposit { amount: 500_000 },
        },
        Transaction {
            client: 1,
            transaction_id: 2,
            kind: TransactionKind::Withdrawal { amount: 1_000_000 },
        },
    ];

    let result = Account::from_transactions(transactions);
    let error = result.unwrap_err();

    assert!(matches!(
        error,
        Error::NoAvailableFundsToWithdraw { client: 1 }
    ));
}

#[test]
fn dispute_transaction() {
    let transactions = vec![
        Transaction {
            client: 1,
            transaction_id: 1,
            kind: TransactionKind::Deposit { amount: 1_000_000 },
        },
        Transaction {
            client: 1,
            transaction_id: 2,
            kind: TransactionKind::Deposit { amount: 500_000 },
        },
        Transaction {
            client: 1,
            transaction_id: 1,
            kind: TransactionKind::Dispute,
        },
    ];

    let accounts = Account::from_transactions(transactions).unwrap();
    let account = &accounts[0];

    assert_eq!(account.total, 1_500_000);
    assert_eq!(account.available, 500_000);
    assert_eq!(account.held, 1_000_000);
    assert!(!account.locked);
}

#[test]
fn dispute_and_resolve() {
    let transactions = vec![
        Transaction {
            client: 1,
            transaction_id: 1,
            kind: TransactionKind::Deposit { amount: 1_000_000 },
        },
        Transaction {
            client: 1,
            transaction_id: 1,
            kind: TransactionKind::Dispute,
        },
        Transaction {
            client: 1,
            transaction_id: 1,
            kind: TransactionKind::Resolve,
        },
    ];

    let accounts = Account::from_transactions(transactions).unwrap();
    let account = &accounts[0];

    assert_eq!(account.total, 1_000_000);
    assert_eq!(account.available, 1_000_000);
    assert_eq!(account.held, 0);
    assert!(!account.locked);
}

#[test]
fn dispute_and_chargeback() {
    let transactions = vec![
        Transaction {
            client: 1,
            transaction_id: 1,
            kind: TransactionKind::Deposit { amount: 1_000_000 },
        },
        Transaction {
            client: 1,
            transaction_id: 2,
            kind: TransactionKind::Deposit { amount: 500_000 },
        },
        Transaction {
            client: 1,
            transaction_id: 1,
            kind: TransactionKind::Dispute,
        },
        Transaction {
            client: 1,
            transaction_id: 1,
            kind: TransactionKind::Chargeback,
        },
    ];

    let accounts = Account::from_transactions(transactions).unwrap();
    let account = &accounts[0];

    assert_eq!(account.total, 1_500_000);
    assert_eq!(account.available, 500_000);
    assert_eq!(account.held, 1_000_000);
    assert!(account.locked);
}

#[test]
fn dispute_withdrawal() {
    let transactions = vec![
        Transaction {
            client: 1,
            transaction_id: 1,
            kind: TransactionKind::Deposit { amount: 1_000_000 },
        },
        Transaction {
            client: 1,
            transaction_id: 2,
            kind: TransactionKind::Withdrawal { amount: 300_000 },
        },
        Transaction {
            client: 1,
            transaction_id: 2,
            kind: TransactionKind::Dispute,
        },
    ];

    let accounts = Account::from_transactions(transactions).unwrap();
    let account = &accounts[0];

    assert_eq!(account.total, 1_000_000);
    assert_eq!(account.available, 1_000_000);
    assert_eq!(account.held, 300_000);
    assert!(!account.locked);
}

#[test]
fn dispute_and_resolve_withdrawal() {
    let transactions = vec![
        Transaction {
            client: 1,
            transaction_id: 1,
            kind: TransactionKind::Deposit { amount: 1_000_000 },
        },
        Transaction {
            client: 1,
            transaction_id: 2,
            kind: TransactionKind::Withdrawal { amount: 300_000 },
        },
        Transaction {
            client: 1,
            transaction_id: 2,
            kind: TransactionKind::Dispute,
        },
        Transaction {
            client: 1,
            transaction_id: 2,
            kind: TransactionKind::Resolve,
        },
    ];

    let accounts = Account::from_transactions(transactions).unwrap();
    let account = &accounts[0];

    assert_eq!(account.total, 1_000_000);
    assert_eq!(account.available, 1_000_000);
    assert_eq!(account.held, 0);
    assert!(!account.locked);
}

#[test]
fn dispute_nonexistent_transaction() {
    let transactions = vec![
        Transaction {
            client: 1,
            transaction_id: 1,
            kind: TransactionKind::Deposit { amount: 1_000_000 },
        },
        Transaction {
            client: 1,
            transaction_id: 999,
            kind: TransactionKind::Dispute,
        },
    ];

    let accounts = Account::from_transactions(transactions).unwrap();
    let account = &accounts[0];

    assert_eq!(account.total, 1_000_000);
    assert_eq!(account.available, 1_000_000);
    assert_eq!(account.held, 0);
    assert!(!account.locked);
}

#[test]
fn multiple_clients() {
    let transactions = vec![
        Transaction {
            client: 1,
            transaction_id: 1,
            kind: TransactionKind::Deposit { amount: 1_000_000 },
        },
        Transaction {
            client: 2,
            transaction_id: 2,
            kind: TransactionKind::Deposit { amount: 2_000_000 },
        },
        Transaction {
            client: 1,
            transaction_id: 3,
            kind: TransactionKind::Withdrawal { amount: 200_000 },
        },
        Transaction {
            client: 2,
            transaction_id: 2,
            kind: TransactionKind::Dispute,
        },
    ];

    let mut accounts = Account::from_transactions(transactions).unwrap();
    accounts.sort_by_key(|a| a.client);

    assert_eq!(accounts.len(), 2);

    // Client 1
    assert_eq!(accounts[0].client, 1);
    assert_eq!(accounts[0].total, 800_000);
    assert_eq!(accounts[0].available, 800_000);
    assert_eq!(accounts[0].held, 0);
    assert!(!accounts[0].locked);

    // Client 2
    assert_eq!(accounts[1].client, 2);
    assert_eq!(accounts[1].total, 2_000_000);
    assert_eq!(accounts[1].available, 0);
    assert_eq!(accounts[1].held, 2_000_000);
    assert!(!accounts[1].locked);
}

#[test]
fn only_disputes_and_resolves() {
    let transactions = vec![
        Transaction {
            client: 1,
            transaction_id: 1,
            kind: TransactionKind::Dispute,
        },
        Transaction {
            client: 1,
            transaction_id: 2,
            kind: TransactionKind::Resolve,
        },
        Transaction {
            client: 1,
            transaction_id: 3,
            kind: TransactionKind::Chargeback,
        },
    ];

    let accounts = Account::from_transactions(transactions).unwrap();
    let account = &accounts[0];

    assert_eq!(account.total, 0);
    assert_eq!(account.available, 0);
    assert_eq!(account.held, 0);
    assert!(account.locked);
}

#[test]
fn complex_scenario() {
    let transactions = vec![
        Transaction {
            client: 1,
            transaction_id: 1,
            kind: TransactionKind::Deposit { amount: 10_000_000 },
        },
        Transaction {
            client: 1,
            transaction_id: 2,
            kind: TransactionKind::Deposit { amount: 5_000_000 },
        },
        Transaction {
            client: 1,
            transaction_id: 3,
            kind: TransactionKind::Withdrawal { amount: 2_000_000 },
        },
        Transaction {
            client: 1,
            transaction_id: 1,
            kind: TransactionKind::Dispute,
        },
        Transaction {
            client: 1,
            transaction_id: 4,
            kind: TransactionKind::Deposit { amount: 1_000_000 },
        },
        Transaction {
            client: 1,
            transaction_id: 1,
            kind: TransactionKind::Resolve,
        },
        Transaction {
            client: 1,
            transaction_id: 3,
            kind: TransactionKind::Dispute,
        },
    ];

    let accounts = Account::from_transactions(transactions).unwrap();
    let account = &accounts[0];

    assert_eq!(account.total, 16_000_000);
    assert_eq!(account.available, 16_000_000);
    assert_eq!(account.held, 2_000_000);
    assert!(!account.locked);
}

#[test]
fn precision_handling() {
    let transactions = vec![
        Transaction {
            client: 1,
            transaction_id: 1,
            kind: TransactionKind::Deposit { amount: 1_001_234 },
        },
        Transaction {
            client: 1,
            transaction_id: 2,
            kind: TransactionKind::Withdrawal { amount: 505_678 },
        },
    ];

    let accounts = Account::from_transactions(transactions).unwrap();
    let account = &accounts[0];

    assert_eq!(account.total, 495_556);
    assert_eq!(account.available, 495_556);
}

#[test]
fn multiple_disputes_same_transaction() {
    let transactions = vec![
        Transaction {
            client: 1,
            transaction_id: 1,
            kind: TransactionKind::Deposit { amount: 1_000_000 },
        },
        Transaction {
            client: 1,
            transaction_id: 1,
            kind: TransactionKind::Dispute,
        },
        Transaction {
            client: 1,
            transaction_id: 1,
            kind: TransactionKind::Dispute,
        },
    ];

    let accounts = Account::from_transactions(transactions).unwrap();
    let account = &accounts[0];

    assert_eq!(account.total, 1_000_000);
    assert_eq!(account.available, 0);
    assert_eq!(account.held, 1_000_000);
    assert!(!account.locked);
}

#[test]
fn empty_batch() {
    let accounts = Account::from_transactions(Vec::new()).unwrap();
    assert_eq!(accounts.len(), 0);
}

#[test]
fn zero_amount_deposit() {
    let transactions = vec![Transaction {
        client: 1,
        transaction_id: 1,
        kind: TransactionKind::Deposit { amount: 0 },
    }];

    let accounts = Account::from_transactions(transactions).unwrap();
    let account = &accounts[0];

    assert_eq!(account.client, 1);
    assert_eq!(account.total, 0);
    assert_eq!(account.available, 0);
    assert_eq!(account.held, 0);
    assert!(!account.locked);
}

#[test]
fn cross_client_reference_ignored() {
    let transactions = vec![
        Transaction {
            client: 1,
            transaction_id: 1,
            kind: TransactionKind::Deposit { amount: 1_000_000 },
        },
        Transaction {
            client: 2,
            transaction_id: 1,
            kind: TransactionKind::Dispute,
        },
    ];

    let mut accounts = Account::from_transactions(transactions).unwrap();
    accounts.sort_by_key(|a| a.client);
    assert_eq!(accounts.len(), 2);

    assert_eq!(accounts[0].client, 1);
    assert_eq!(accounts[0].total, 1_000_000);
    assert_eq!(accounts[0].available, 1_000_000);
    assert_eq!(accounts[0].held, 0);

    assert_eq!(accounts[1].client, 2);
    assert_eq!(accounts[1].total, 0);
    assert_eq!(accounts[1].available, 0);
    assert_eq!(accounts[1].held, 0);
    assert!(!accounts[1].locked);
}

#[test]
fn error_names_first_negative_client() {
    let transactions = vec![
        Transaction {
            client: 1,
            transaction_id: 1,
            kind: TransactionKind::Deposit { amount: 1_000_000 },
        },
        Transaction {
            client: 2,
            transaction_id: 2,
            kind: TransactionKind::Deposit { amount: 500_000 },
        },
        Transaction {
            client: 2,
            transaction_id: 3,
            kind: TransactionKind::Withdrawal { amount: 1_000_000 },
        },
    ];

    let error = Account::from_transactions(transactions).unwrap_err();
    assert!(matches!(
        error,
        Error::NoAvailableFundsToWithdraw { client: 2 }
    ));
}

#[test]
fn resolve_without_dispute_applies_unguarded() {
    let transactions = vec![
        Transaction {
            client: 1,
            transaction_id: 1,
            kind: TransactionKind::Deposit { amount: 1_000_000 },
        },
        Transaction {
            client: 1,
            transaction_id: 1,
            kind: TransactionKind::Resolve,
        },
    ];

    let accounts = Account::from_transactions(transactions).unwrap();
    let account = &accounts[0];

    // There is no guard: a resolve always applies its sign branch, even
    // with no dispute before it.
    assert_eq!(account.total, 1_000_000);
    assert_eq!(account.available, 2_000_000);
    assert_eq!(account.held, -1_000_000);
    assert!(!account.locked);
}

#[test]
fn largest_amount_dispute() {
    let transactions = vec![
        Transaction {
            client: 1,
            transaction_id: 1,
            kind: TransactionKind::Deposit { amount: u64::MAX },
        },
        Transaction {
            client: 1,
            transaction_id: 1,
            kind: TransactionKind::Dispute,
        },
    ];

    let accounts = Account::from_transactions(transactions).unwrap();
    let account = &accounts[0];

    assert_eq!(account.total, u64::MAX as i128);
    assert_eq!(account.available, 0);
    assert_eq!(account.held, u64::MAX as i128);
    assert!(!account.locked);
}
