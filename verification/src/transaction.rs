//! A token transfer between two accounts and its fixed-size wire format.

use vstd::bytes::*;
use vstd::prelude::*;

verus! {

/// A simple token transfer between two accounts.
#[derive(Clone, Copy, Debug, PartialEq, Eq, Structural)]
pub struct Transaction {
    /// Source account index (0..NUM_ACCOUNTS).
    pub from: u8,
    /// Destination account index (0..NUM_ACCOUNTS).
    pub to: u8,
    /// Token amount.
    pub amount: u64,
}

/// The encoding of a transaction: `from`, `to`, then `amount` in little endian.
pub open spec fn transaction_bytes(tx: Transaction) -> Seq<u8> {
    seq![tx.from, tx.to] + spec_u64_to_le_bytes(tx.amount)
}

/// What decoding yields on `data`: `None` when fewer than ten bytes are
/// given, otherwise the transaction read from the first ten bytes.
pub open spec fn parse_transaction(data: Seq<u8>) -> Option<Transaction> {
    if data.len() < 10 {
        None
    } else {
        Some(
            Transaction {
                from: data[0],
                to: data[1],
                amount: spec_u64_from_le_bytes(data.subrange(2, 10)),
            },
        )
    }
}

impl Transaction {
    /// Encoded size of a transaction: from (1) + to (1) + amount (8).
    pub const SIZE: usize = 10;

    /// Appends the encoding of this transaction to `buf`.
    pub fn encode_into(&self, buf: &mut Vec<u8>)
        ensures
            final(buf)@ == old(buf)@ + transaction_bytes(*self),
    {
        buf.push(self.from);
        buf.push(self.to);
        let amount = u64_to_le_bytes(self.amount);
        buf.extend_from_slice(amount.as_slice());
        assert(final(buf)@ =~= old(buf)@ + transaction_bytes(*self));
    }

    /// Decodes a transaction from the first `SIZE` bytes of `data`; the rest
    /// of `data` is ignored.
    pub fn decode(data: &[u8]) -> (res: Option<Self>)
        ensures
            res == parse_transaction(data@),
    {
        if data.len() < Self::SIZE {
            return None;
        }
        let amount_bytes = &data[2..10];
        assert(amount_bytes@ =~= data@.subrange(2, 10));
        Some(Transaction { from: data[0], to: data[1], amount: u64_from_le_bytes(amount_bytes) })
    }
}

/// Law: a transaction takes ten bytes: the source account, the destination
/// account, then the amount in little endian.
pub proof fn lemma_transaction_layout(tx: Transaction)
    ensures
        transaction_bytes(tx).len() == 10,
        transaction_bytes(tx)[0] == tx.from,
        transaction_bytes(tx)[1] == tx.to,
        transaction_bytes(tx).subrange(2, 10) == spec_u64_to_le_bytes(tx.amount),
{
    lemma_auto_spec_u64_to_from_le_bytes();
    assert(transaction_bytes(tx).subrange(2, 10) =~= spec_u64_to_le_bytes(tx.amount));
}

/// Decoding gives back what encoding wrote, whatever follows it.
pub proof fn lemma_transaction_roundtrip(tx: Transaction, rest: Seq<u8>)
    ensures
        transaction_bytes(tx).len() == Transaction::SIZE,
        parse_transaction(transaction_bytes(tx) + rest) == Some(tx),
{
    lemma_auto_spec_u64_to_from_le_bytes();
    let data = transaction_bytes(tx) + rest;
    assert(data.subrange(2, 10) =~= spec_u64_to_le_bytes(tx.amount));
}

/// A transaction that decodes from `data` encodes back to the first
/// `SIZE` bytes of `data`.
pub proof fn lemma_transaction_canonical(data: Seq<u8>)
    requires
        parse_transaction(data) is Some,
    ensures
        transaction_bytes(parse_transaction(data).unwrap()) == data.take(10),
{
    lemma_auto_spec_u64_to_from_le_bytes();
    let tx = parse_transaction(data).unwrap();
    assert(spec_u64_to_le_bytes(spec_u64_from_le_bytes(data.subrange(2, 10))) == data.subrange(2, 10));
    assert(transaction_bytes(tx) =~= data.take(10));
}

} // verus!
