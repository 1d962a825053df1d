//! Account balances and the simulation of a block's transfers against them.

use crate::transaction::Transaction;
use crate::{GENESIS_BALANCE, NUM_ACCOUNTS};
use std::collections::HashMap;
use vstd::prelude::*;

verus! {

broadcast use vstd::std_specs::hash::group_hash_axioms;

/// Why a block was found invalid.
#[derive(Clone, Copy, Debug, PartialEq, Eq, Structural)]
pub enum VerifyError {
    /// The bytes do not decode to a block.
    DecodeFailed,
    /// The block was made for another view than the one being verified.
    ViewMismatch { block: u64, expected: u64 },
    /// The block names another parent than the one being verified.
    ParentMismatch,
    /// A transfer names an unknown account, or the same account twice.
    InvalidAccounts { from: u8, to: u8 },
    /// A transfer moves more than the source account holds.
    InsufficientBalance { balance: u64, amount: u64 },
    /// The block's digest is not the announced one.
    DigestMismatch,
}

/// The balance of account `a`, zero for an account the map does not hold.
pub open spec fn balance_of(balances: Map<u8, u64>, a: u8) -> u64 {
    if balances.contains_key(a) {
        balances[a]
    } else {
        0
    }
}

/// The balances at genesis: every account `0..NUM_ACCOUNTS` holds
/// `GENESIS_BALANCE`.
pub open spec fn genesis_balance_map() -> Map<u8, u64> {
    Map::new(|a: u8| a < NUM_ACCOUNTS, |a: u8| GENESIS_BALANCE)
}

/// Every account `0..NUM_ACCOUNTS` has an entry.
pub open spec fn holds_all_accounts(balances: Map<u8, u64>) -> bool {
    forall|a: u8| a < NUM_ACCOUNTS ==> #[trigger] balances.contains_key(a)
}

/// The sum of the balances of the accounts `0..n`.
pub open spec fn supply_of_first(balances: Map<u8, u64>, n: nat) -> int
    decreases n,
{
    if n == 0 {
        0
    } else {
        supply_of_first(balances, (n - 1) as nat) + balance_of(balances, (n - 1) as u8)
    }
}

/// The sum of the balances of the accounts `0..NUM_ACCOUNTS`.
pub open spec fn total_supply(balances: Map<u8, u64>) -> int {
    supply_of_first(balances, NUM_ACCOUNTS as nat)
}

/// Setting the balance of account `a` changes the sum over `0..n` by the
/// difference when `a` is among those accounts, and not at all otherwise.
pub proof fn lemma_supply_insert(balances: Map<u8, u64>, a: u8, v: u64, n: nat)
    requires
        n <= 256,
    ensures
        supply_of_first(balances.insert(a, v), n) == supply_of_first(balances, n) + (if a < n {
            v - balance_of(balances, a)
        } else {
            0
        }),
    decreases n,
{
    if n > 0 {
        lemma_supply_insert(balances, a, v, (n - 1) as nat);
    }
}

/// Every partial sum is at least zero, and the balances of two distinct
/// accounts among `0..n` add up to at most the sum over `0..n`.
pub proof fn lemma_supply_bounds(balances: Map<u8, u64>, a: u8, c: u8, n: nat)
    requires
        n <= 256,
        a < n,
        c < n,
        a != c,
    ensures
        balance_of(balances, a) + balance_of(balances, c) <= supply_of_first(balances, n),
    decreases n,
{
    lemma_supply_nonnegative(balances, (n - 1) as nat);
    if a == n - 1 {
        lemma_supply_single(balances, c, (n - 1) as nat);
    } else if c == n - 1 {
        lemma_supply_single(balances, a, (n - 1) as nat);
    } else {
        lemma_supply_bounds(balances, a, c, (n - 1) as nat);
    }
}

/// The balance of one account among `0..n` is at most the sum over `0..n`.
pub proof fn lemma_supply_single(balances: Map<u8, u64>, a: u8, n: nat)
    requires
        n <= 256,
        a < n,
    ensures
        balance_of(balances, a) <= supply_of_first(balances, n),
    decreases n,
{
    lemma_supply_nonnegative(balances, (n - 1) as nat);
    if a != n - 1 {
        lemma_supply_single(balances, a, (n - 1) as nat);
    }
}

/// A sum of balances is at least zero.
pub proof fn lemma_supply_nonnegative(balances: Map<u8, u64>, n: nat)
    ensures
        supply_of_first(balances, n) >= 0,
    decreases n,
{
    if n > 0 {
        lemma_supply_nonnegative(balances, (n - 1) as nat);
    }
}

/// At genesis the sum over the first `n` accounts is `n` genesis balances.
pub proof fn lemma_genesis_supply(n: nat)
    requires
        n <= NUM_ACCOUNTS,
    ensures
        supply_of_first(genesis_balance_map(), n) == n * GENESIS_BALANCE,
    decreases n,
{
    if n > 0 {
        lemma_genesis_supply((n - 1) as nat);
        assert(genesis_balance_map().contains_key((n - 1) as u8));
    }
}

/// Applying one transfer: the accounts must be distinct known accounts and
/// the source must hold the amount; then the amount moves from the source to
/// the destination.
pub open spec fn apply_transaction(balances: Map<u8, u64>, tx: Transaction) -> Result<
    Map<u8, u64>,
    VerifyError,
> {
    if tx.from >= NUM_ACCOUNTS || tx.to >= NUM_ACCOUNTS || tx.from == tx.to {
        Err(VerifyError::InvalidAccounts { from: tx.from, to: tx.to })
    } else if balance_of(balances, tx.from) < tx.amount {
        Err(VerifyError::InsufficientBalance { balance: balance_of(balances, tx.from), amount: tx.amount })
    } else {
        let debited = balances.insert(tx.from, (balance_of(balances, tx.from) - tx.amount) as u64);
        Ok(debited.insert(tx.to, (balance_of(debited, tx.to) + tx.amount) as u64))
    }
}

/// Applying the transfers in order, stopping at the first that fails.
pub open spec fn simulate(balances: Map<u8, u64>, txs: Seq<Transaction>) -> Result<
    Map<u8, u64>,
    VerifyError,
>
    decreases txs.len(),
{
    if txs.len() == 0 {
        Ok(balances)
    } else {
        match simulate(balances, txs.drop_last()) {
            Ok(b) => apply_transaction(b, txs.last()),
            Err(e) => Err(e),
        }
    }
}

/// Law: a transfer applies exactly when its two accounts are distinct known
/// accounts and the source holds at least the amount; an unknown or
/// repeated account is reported before a short balance.
pub proof fn lemma_transfer_outcome(balances: Map<u8, u64>, tx: Transaction)
    ensures
        apply_transaction(balances, tx) is Ok <==> (tx.from < NUM_ACCOUNTS && tx.to < NUM_ACCOUNTS
            && tx.from != tx.to && balance_of(balances, tx.from) >= tx.amount),
        !(tx.from < NUM_ACCOUNTS && tx.to < NUM_ACCOUNTS && tx.from != tx.to) ==> apply_transaction(
            balances,
            tx,
        ) == Err::<Map<u8, u64>, VerifyError>(
            VerifyError::InvalidAccounts { from: tx.from, to: tx.to },
        ),
        (tx.from < NUM_ACCOUNTS && tx.to < NUM_ACCOUNTS && tx.from != tx.to && balance_of(
            balances,
            tx.from,
        ) < tx.amount) ==> apply_transaction(balances, tx) == Err::<Map<u8, u64>, VerifyError>(
            VerifyError::InsufficientBalance {
                balance: balance_of(balances, tx.from),
                amount: tx.amount,
            },
        ),
{
}

/// A transfer that applies keeps every account present and the total supply
/// unchanged, and changes only its two accounts.
pub proof fn lemma_transaction_conserves_supply(balances: Map<u8, u64>, tx: Transaction)
    requires
        holds_all_accounts(balances),
        total_supply(balances) <= u64::MAX,
        apply_transaction(balances, tx) is Ok,
    ensures
        ({
            let after = apply_transaction(balances, tx).unwrap();
            &&& holds_all_accounts(after)
            &&& total_supply(after) == total_supply(balances)
            &&& balance_of(after, tx.from) == balance_of(balances, tx.from) - tx.amount
            &&& balance_of(after, tx.to) == balance_of(balances, tx.to) + tx.amount
            &&& forall|a: u8|
                a != tx.from && a != tx.to ==> #[trigger] balance_of(after, a) == balance_of(
                    balances,
                    a,
                )
        }),
{
    let n = NUM_ACCOUNTS as nat;
    let debited_balance = (balance_of(balances, tx.from) - tx.amount) as u64;
    let debited = balances.insert(tx.from, debited_balance);
    lemma_supply_bounds(balances, tx.from, tx.to, n);
    assert(balance_of(debited, tx.to) == balance_of(balances, tx.to));
    let credited_balance = (balance_of(debited, tx.to) + tx.amount) as u64;
    lemma_supply_insert(balances, tx.from, debited_balance, n);
    lemma_supply_insert(debited, tx.to, credited_balance, n);
}

/// Simulating a block's transfers, when it succeeds, leaves the total supply
/// unchanged.
pub proof fn lemma_simulation_conserves_supply(balances: Map<u8, u64>, txs: Seq<Transaction>)
    requires
        holds_all_accounts(balances),
        total_supply(balances) <= u64::MAX,
        simulate(balances, txs) is Ok,
    ensures
        holds_all_accounts(simulate(balances, txs).unwrap()),
        total_supply(simulate(balances, txs).unwrap()) == total_supply(balances),
    decreases txs.len(),
{
    if txs.len() > 0 {
        lemma_simulation_conserves_supply(balances, txs.drop_last());
        let b = simulate(balances, txs.drop_last()).unwrap();
        lemma_transaction_conserves_supply(b, txs.last());
    }
}

/// The genesis balances.
pub fn genesis_balances() -> (balances: HashMap<u8, u64>)
    ensures
        balances@ == genesis_balance_map(),
{
    let mut balances: HashMap<u8, u64> = HashMap::new();
    for i in 0..NUM_ACCOUNTS
        invariant
            balances@ == Map::new(|a: u8| a < i, |a: u8| GENESIS_BALANCE),
    {
        balances.insert(i, GENESIS_BALANCE);
        assert(balances@ =~= Map::new(|a: u8| a < i + 1, |a: u8| GENESIS_BALANCE));
    }
    assert(balances@ =~= genesis_balance_map());
    balances
}

/// Applies `transactions` in order to a copy of `balances`, returning the
/// resulting balances or the first failure.
pub fn apply_transactions(balances: &HashMap<u8, u64>, transactions: &Vec<Transaction>) -> (res:
    Result<HashMap<u8, u64>, VerifyError>)
    requires
        holds_all_accounts(balances@),
        total_supply(balances@) <= u64::MAX,
    ensures
        match res {
            Ok(after) => simulate(balances@, transactions@) == Ok::<Map<u8, u64>, VerifyError>(
                after@,
            ),
            Err(e) => simulate(balances@, transactions@) == Err::<Map<u8, u64>, VerifyError>(e),
        },
{
    let mut sim = balances.clone();
    let n = transactions.len();
    for i in 0..n
        invariant
            n == transactions@.len(),
            holds_all_accounts(balances@),
            total_supply(balances@) <= u64::MAX,
            simulate(balances@, transactions@.take(i as int)) == Ok::<Map<u8, u64>, VerifyError>(
                sim@,
            ),
            holds_all_accounts(sim@),
            total_supply(sim@) == total_supply(balances@),
    {
        let tx = transactions[i];
        assert(transactions@.take(i + 1).drop_last() =~= transactions@.take(i as int));
        assert(transactions@.take(i + 1).last() == tx);
        if tx.from >= NUM_ACCOUNTS || tx.to >= NUM_ACCOUNTS || tx.from == tx.to {
            proof {
                lemma_simulate_stays_failed(balances@, transactions@, (i + 1) as int);
            }
            return Err(VerifyError::InvalidAccounts { from: tx.from, to: tx.to });
        }
        let bal: u64 = match sim.get(&tx.from) {
            Some(v) => *v,
            None => 0,
        };
        if bal < tx.amount {
            proof {
                lemma_simulate_stays_failed(balances@, transactions@, (i + 1) as int);
            }
            return Err(VerifyError::InsufficientBalance { balance: bal, amount: tx.amount });
        }
        proof {
            lemma_transaction_conserves_supply(sim@, tx);
        }
        sim.insert(tx.from, bal - tx.amount);
        let to_bal: u64 = match sim.get(&tx.to) {
            Some(v) => *v,
            None => 0,
        };
        sim.insert(tx.to, to_bal + tx.amount);
    }
    assert(transactions@.take(n as int) =~= transactions@);
    Ok(sim)
}

/// Once the simulation of a prefix fails, the simulation of every longer
/// prefix fails with the same error.
pub proof fn lemma_simulate_stays_failed(balances: Map<u8, u64>, txs: Seq<Transaction>, k: int)
    requires
        0 <= k <= txs.len(),
        simulate(balances, txs.take(k)) is Err,
    ensures
        simulate(balances, txs) == simulate(balances, txs.take(k)),
    decreases txs.len() - k,
{
    if k < txs.len() {
        assert(txs.take(k + 1).drop_last() =~= txs.take(k));
        lemma_simulate_stays_failed(balances, txs, k + 1);
    } else {
        assert(txs.take(k) =~= txs);
    }
}

} // verus!
