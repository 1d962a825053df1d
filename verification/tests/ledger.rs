use krypto::ledger::{apply_transactions, genesis_balances, VerifyError};
use krypto::transaction::Transaction;
use krypto::{GENESIS_BALANCE, NUM_ACCOUNTS};

#[test]
fn genesis_funds_every_account() {
    let b = genesis_balances();
    assert_eq!(b.len(), NUM_ACCOUNTS as usize);
    for i in 0..NUM_ACCOUNTS {
        assert_eq!(b.get(&i), Some(&GENESIS_BALANCE));
    }
}

#[test]
fn transfers_move_tokens_and_conserve_supply() {
    let b = genesis_balances();
    let txs = vec![
        Transaction { from: 0, to: 1, amount: 500 },
        Transaction { from: 1, to: 2, amount: 1_000_500 },
        Transaction { from: 3, to: 0, amount: 0 },
    ];
    let after = apply_transactions(&b, &txs).unwrap();
    assert_eq!(after.get(&0), Some(&999_500));
    assert_eq!(after.get(&1), Some(&0));
    assert_eq!(after.get(&2), Some(&2_000_500));
    assert_eq!(after.get(&3), Some(&1_000_000));
    let total: u64 = after.values().sum();
    assert_eq!(total, 4 * GENESIS_BALANCE);
}

#[test]
fn transfer_between_unknown_or_equal_accounts_fails() {
    let b = genesis_balances();
    let r = apply_transactions(&b, &vec![Transaction { from: 4, to: 0, amount: 1 }]);
    assert_eq!(r.err(), Some(VerifyError::InvalidAccounts { from: 4, to: 0 }));
    let r = apply_transactions(&b, &vec![Transaction { from: 2, to: 2, amount: 1 }]);
    assert_eq!(r.err(), Some(VerifyError::InvalidAccounts { from: 2, to: 2 }));
}

#[test]
fn overdraft_fails_with_the_running_balance() {
    let b = genesis_balances();
    let txs = vec![
        Transaction { from: 0, to: 1, amount: 999_999 },
        Transaction { from: 0, to: 2, amount: 2 },
    ];
    let r = apply_transactions(&b, &txs);
    assert_eq!(r.err(), Some(VerifyError::InsufficientBalance { balance: 1, amount: 2 }));
}

#[test]
fn first_failure_wins() {
    let b = genesis_balances();
    let txs = vec![
        Transaction { from: 0, to: 1, amount: 2_000_000 },
        Transaction { from: 9, to: 9, amount: 1 },
    ];
    let r = apply_transactions(&b, &txs);
    assert_eq!(
        r.err(),
        Some(VerifyError::InsufficientBalance { balance: 1_000_000, amount: 2_000_000 })
    );
}
