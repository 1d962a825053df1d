//! Deciding whether a block's content is valid for a consensus context.

use crate::block::{block_bytes, block_digest, parse_block, Block, BlockModel};
use crate::hashing::{digests_equal, sha256_of};
use crate::ledger::{
    apply_transactions, holds_all_accounts, simulate, total_supply,
    VerifyError,
};
use crate::transaction::Transaction;
use crate::NUM_ACCOUNTS;
use std::collections::HashMap;
use vstd::prelude::*;

verus! {

/// The verdict on `data` as the content of the block announced under
/// `digest` for consensus view `view` on top of `parent`, against the
/// committed `balances`. Checked in order: the bytes decode to a block, its
/// view and parent are the expected ones, its transfers apply one after the
/// other, and its digest is the announced one.
pub open spec fn verify_outcome(
    balances: Map<u8, u64>,
    view: u64,
    parent: Seq<u8>,
    digest: Seq<u8>,
    data: Seq<u8>,
) -> Result<BlockModel, VerifyError> {
    match parse_block(data) {
        None => Err(VerifyError::DecodeFailed),
        Some(b) => {
            if b.view != view {
                Err(VerifyError::ViewMismatch { block: b.view, expected: view })
            } else if b.parent != parent {
                Err(VerifyError::ParentMismatch)
            } else {
                match simulate(balances, b.transactions) {
                    Err(e) => Err(e),
                    Ok(_) => {
                        if block_digest(b) != digest {
                            Err(VerifyError::DigestMismatch)
                        } else {
                            Ok(b)
                        }
                    },
                }
            }
        },
    }
}

/// The content of a verdict.
pub open spec fn verdict_view(verdict: Result<Block, VerifyError>) -> Result<BlockModel, VerifyError> {
    match verdict {
        Ok(b) => Ok(b@),
        Err(e) => Err(e),
    }
}

/// A transfer between two distinct known accounts.
pub open spec fn transfer_between_accounts(tx: Transaction) -> bool {
    tx.from < NUM_ACCOUNTS && tx.to < NUM_ACCOUNTS && tx.from != tx.to
}

/// A simulation that succeeds only applied transfers between distinct known
/// accounts.
pub proof fn lemma_simulated_transfers_valid(balances: Map<u8, u64>, txs: Seq<Transaction>)
    requires
        simulate(balances, txs) is Ok,
    ensures
        forall|i: int| 0 <= i < txs.len() ==> transfer_between_accounts(#[trigger] txs[i]),
    decreases txs.len(),
{
    if txs.len() > 0 {
        lemma_simulated_transfers_valid(balances, txs.drop_last());
        assert forall|i: int| 0 <= i < txs.len() implies transfer_between_accounts(
            #[trigger] txs[i],
        ) by {
            if i < txs.len() - 1 {
                assert(txs[i] == txs.drop_last()[i]);
            }
        }
    }
}

/// Law: an accepted block is the block that the bytes decode to; it was made
/// for the requested view on the requested parent, its digest (the SHA-256 of
/// its whole encoding) is the announced one, and each of its transfers is
/// between two distinct known accounts.
pub proof fn lemma_accepted_block(
    balances: Map<u8, u64>,
    view: u64,
    parent: Seq<u8>,
    digest: Seq<u8>,
    data: Seq<u8>,
)
    ensures
        verify_outcome(balances, view, parent, digest, data) matches Ok(b) ==> {
            &&& parse_block(data) == Some(b)
            &&& b.view == view
            &&& b.parent == parent
            &&& sha256_of(block_bytes(b)) == digest
            &&& forall|i: int|
                0 <= i < b.transactions.len() ==> transfer_between_accounts(
                    #[trigger] b.transactions[i],
                )
            &&& simulate(balances, b.transactions) is Ok
        },
{
    if let Some(b) = parse_block(data) {
        if simulate(balances, b.transactions) is Ok {
            lemma_simulated_transfers_valid(balances, b.transactions);
        }
    }
}

/// Law: the bytes are rejected when they do not decode, when the block was
/// made for another view (whatever the order of the two views) or on
/// another parent, when one of its transfers is not between two distinct
/// known accounts, and when the SHA-256 of its encoding is not the announced
/// digest; the first two failures are reported as such.
pub proof fn lemma_rejected_block(
    balances: Map<u8, u64>,
    view: u64,
    parent: Seq<u8>,
    digest: Seq<u8>,
    data: Seq<u8>,
)
    ensures
        parse_block(data) is None ==> verify_outcome(balances, view, parent, digest, data) == Err::<
            BlockModel,
            VerifyError,
        >(VerifyError::DecodeFailed),
        parse_block(data) matches Some(b) ==> {
            let outcome = verify_outcome(balances, view, parent, digest, data);
            &&& b.view != view ==> outcome == Err::<BlockModel, VerifyError>(
                VerifyError::ViewMismatch { block: b.view, expected: view },
            )
            &&& b.view == view && b.parent != parent ==> outcome == Err::<BlockModel, VerifyError>(
                VerifyError::ParentMismatch,
            )
            &&& (exists|i: int|
                0 <= i < b.transactions.len() && !transfer_between_accounts(
                    #[trigger] b.transactions[i],
                )) ==> outcome is Err
            &&& sha256_of(block_bytes(b)) != digest ==> outcome is Err
        },
{
    lemma_accepted_block(balances, view, parent, digest, data);
}

/// Checks `data` as the content of the block announced under `digest` for
/// view `view` on top of `parent`, against `balances`; returns the decoded
/// block or the first failed check.
pub fn check_block(
    balances: &HashMap<u8, u64>,
    view: u64,
    parent: &[u8; 32],
    digest: &[u8; 32],
    data: &[u8],
) -> (res: Result<Block, VerifyError>)
    requires
        holds_all_accounts(balances@),
        total_supply(balances@) <= u64::MAX,
    ensures
        verdict_view(res) == verify_outcome(balances@, view, parent@, digest@, data@),
        res matches Ok(b) ==> {
            &&& b.view == view
            &&& b.parent@ == parent@
            &&& parse_block(data@) == Some(b@)
            &&& sha256_of(block_bytes(b@)) == digest@
        },
{
    let block = match Block::decode(data) {
        Some(b) => b,
        None => {
            return Err(VerifyError::DecodeFailed);
        },
    };
    if block.view != view {
        return Err(VerifyError::ViewMismatch { block: block.view, expected: view });
    }
    if !digests_equal(&block.parent, parent) {
        return Err(VerifyError::ParentMismatch);
    }
    match apply_transactions(balances, &block.transactions) {
        Ok(_) => {},
        Err(e) => {
            return Err(e);
        },
    }
    let actual = block.hash();
    if !digests_equal(&actual, digest) {
        return Err(VerifyError::DigestMismatch);
    }
    Ok(block)
}

} // verus!
