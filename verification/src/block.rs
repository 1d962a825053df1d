//! Blocks: an ordered list of transfers proposed for one consensus view,
//! with their wire format and digest.

use crate::hashing::{sha256, sha256_of};
use crate::transaction::{
    lemma_transaction_canonical, lemma_transaction_layout, lemma_transaction_roundtrip, parse_transaction, transaction_bytes,
    Transaction,
};
use vstd::bytes::*;
use vstd::prelude::*;

verus! {

/// Size of the fixed block header: view (8) + parent digest (32) + count (4).
pub const HEADER_SIZE: usize = 44;

/// A block containing an ordered list of token transfers.
#[derive(Clone, Debug, PartialEq, Eq)]
pub struct Block {
    /// Consensus view number this block was proposed for.
    pub view: u64,
    /// Digest of the parent block.
    pub parent: [u8; 32],
    /// Ordered list of transactions.
    pub transactions: Vec<Transaction>,
}

/// The mathematical content of a block.
pub struct BlockModel {
    pub view: u64,
    pub parent: Seq<u8>,
    pub transactions: Seq<Transaction>,
}

impl View for Block {
    type V = BlockModel;

    open spec fn view(&self) -> BlockModel {
        BlockModel { view: self.view, parent: self.parent@, transactions: self.transactions@ }
    }
}

/// The concatenated encodings of `txs`, in order.
pub open spec fn transactions_bytes(txs: Seq<Transaction>) -> Seq<u8>
    decreases txs.len(),
{
    if txs.len() == 0 {
        Seq::empty()
    } else {
        transactions_bytes(txs.drop_last()) + transaction_bytes(txs.last())
    }
}

/// The encoding of a block: view (8, little endian), parent (32),
/// transaction count (4, little endian, the count taken modulo 2^32),
/// then each transaction (10 each).
pub open spec fn block_bytes(b: BlockModel) -> Seq<u8> {
    spec_u64_to_le_bytes(b.view) + b.parent + spec_u32_to_le_bytes(b.transactions.len() as u32)
        + transactions_bytes(b.transactions)
}

/// The transaction count that a block header in `data` announces.
pub open spec fn announced_count(data: Seq<u8>) -> nat {
    spec_u32_from_le_bytes(data.subrange(40, 44)) as nat
}

/// What decoding yields on `data`: `None` when the header is cut short or
/// fewer bytes follow it than the announced transactions need; otherwise the
/// block read from the header and the announced number of transactions.
/// Bytes after the last transaction are ignored.
pub open spec fn parse_block(data: Seq<u8>) -> Option<BlockModel> {
    if data.len() < 44 {
        None
    } else if data.len() < 44 + 10 * announced_count(data) {
        None
    } else {
        Some(
            BlockModel {
                view: spec_u64_from_le_bytes(data.subrange(0, 8)),
                parent: data.subrange(8, 40),
                transactions: Seq::new(
                    announced_count(data),
                    |i: int| parse_transaction(data.subrange(44 + 10 * i, 54 + 10 * i)).unwrap(),
                ),
            },
        )
    }
}

/// The digest of a block: SHA-256 over its encoding.
pub open spec fn block_digest(b: BlockModel) -> Seq<u8> {
    sha256_of(block_bytes(b))
}

/// The encoded transactions take ten bytes each, and the `i`-th ten bytes
/// hold the `i`-th transaction.
pub proof fn lemma_transactions_bytes(txs: Seq<Transaction>)
    ensures
        transactions_bytes(txs).len() == 10 * txs.len(),
        forall|i: int|
            0 <= i < txs.len() ==> #[trigger] transactions_bytes(txs).subrange(10 * i, 10 * i + 10)
                == transaction_bytes(txs[i]),
    decreases txs.len(),
{
    if txs.len() > 0 {
        let init = txs.drop_last();
        lemma_transactions_bytes(init);
        lemma_transaction_roundtrip(txs.last(), Seq::empty());
        let all = transactions_bytes(txs);
        assert forall|i: int| 0 <= i < txs.len() implies #[trigger] all.subrange(10 * i, 10 * i + 10)
            == transaction_bytes(txs[i]) by {
            if i < init.len() {
                assert(all.subrange(10 * i, 10 * i + 10) =~= transactions_bytes(init).subrange(
                    10 * i,
                    10 * i + 10,
                ));
            } else {
                assert(all.subrange(10 * i, 10 * i + 10) =~= transaction_bytes(txs.last()));
            }
        }
    }
}

/// Decoding gives back what encoding wrote, whatever follows it, as long as
/// the transaction count fits the four-byte count field.
pub proof fn lemma_block_roundtrip(b: BlockModel, rest: Seq<u8>)
    requires
        b.parent.len() == 32,
        b.transactions.len() <= u32::MAX,
    ensures
        block_bytes(b).len() == 44 + 10 * b.transactions.len(),
        parse_block(block_bytes(b) + rest) == Some(b),
{
    lemma_auto_spec_u64_to_from_le_bytes();
    lemma_auto_spec_u32_to_from_le_bytes();
    lemma_transactions_bytes(b.transactions);
    let n = b.transactions.len();
    let data = block_bytes(b) + rest;
    assert(data.subrange(0, 8) =~= spec_u64_to_le_bytes(b.view));
    assert(data.subrange(8, 40) =~= b.parent);
    assert(data.subrange(40, 44) =~= spec_u32_to_le_bytes(n as u32));
    assert(announced_count(data) == n);
    let parsed = parse_block(data).unwrap();
    assert forall|i: int| 0 <= i < n implies #[trigger] parsed.transactions[i] == b.transactions[i] by {
        let tb = transactions_bytes(b.transactions);
        assert(data.subrange(44 + 10 * i, 54 + 10 * i) =~= tb.subrange(10 * i, 10 * i + 10));
        lemma_transaction_roundtrip(b.transactions[i], Seq::empty());
        assert(transaction_bytes(b.transactions[i]) + Seq::<u8>::empty() =~= transaction_bytes(
            b.transactions[i],
        ));
    }
    assert(parsed.transactions =~= b.transactions);
}

/// A block that decodes from `data` encodes back to the bytes it was read
/// from.
pub proof fn lemma_block_canonical(data: Seq<u8>)
    requires
        parse_block(data) is Some,
    ensures
        parse_block(data).unwrap().transactions.len() <= u32::MAX,
        block_bytes(parse_block(data).unwrap()) == data.take(
            44 + 10 * parse_block(data).unwrap().transactions.len() as int,
        ),
{
    lemma_auto_spec_u64_to_from_le_bytes();
    lemma_auto_spec_u32_to_from_le_bytes();
    let b = parse_block(data).unwrap();
    let n = announced_count(data);
    assert(spec_u64_to_le_bytes(spec_u64_from_le_bytes(data.subrange(0, 8))) == data.subrange(0, 8));
    assert(spec_u32_to_le_bytes(spec_u32_from_le_bytes(data.subrange(40, 44))) == data.subrange(
        40,
        44,
    ));
    lemma_transactions_bytes(b.transactions);
    let tb = transactions_bytes(b.transactions);
    assert forall|k: int| 0 <= k < 10 * n implies #[trigger] tb[k] == data[44 + k] by {
        let i = k / 10;
        assert(0 <= i < n);
        assert(10 * i <= k < 10 * i + 10);
        let chunk = data.subrange(44 + 10 * i, 54 + 10 * i);
        lemma_transaction_canonical(chunk);
        assert(chunk.take(10) =~= chunk);
        assert(tb.subrange(10 * i, 10 * i + 10)[k - 10 * i] == tb[k]);
    }
    assert(tb =~= data.subrange(44, 44 + 10 * n as int));
    assert(block_bytes(b) =~= data.take(44 + 10 * n as int));
}

/// Law: the layout of a block's encoding: the view (8 bytes, little
/// endian), the parent digest (32 bytes), the transaction count (4 bytes,
/// little endian), then each transaction in order, ten bytes each: source,
/// destination, amount (8 bytes, little endian).
pub proof fn lemma_block_layout(b: BlockModel)
    requires
        b.parent.len() == 32,
    ensures
        block_bytes(b).len() == 44 + 10 * b.transactions.len(),
        block_bytes(b).subrange(0, 8) == spec_u64_to_le_bytes(b.view),
        block_bytes(b).subrange(8, 40) == b.parent,
        block_bytes(b).subrange(40, 44) == spec_u32_to_le_bytes(b.transactions.len() as u32),
        forall|i: int|
            #![trigger b.transactions[i]]
            0 <= i < b.transactions.len() ==> {
                &&& block_bytes(b)[44 + 10 * i] == b.transactions[i].from
                &&& block_bytes(b)[45 + 10 * i] == b.transactions[i].to
                &&& block_bytes(b).subrange(46 + 10 * i, 54 + 10 * i) == spec_u64_to_le_bytes(
                    b.transactions[i].amount,
                )
            },
{
    lemma_auto_spec_u64_to_from_le_bytes();
    lemma_auto_spec_u32_to_from_le_bytes();
    lemma_transactions_bytes(b.transactions);
    let bytes = block_bytes(b);
    let tb = transactions_bytes(b.transactions);
    assert(bytes.subrange(0, 8) =~= spec_u64_to_le_bytes(b.view));
    assert(bytes.subrange(8, 40) =~= b.parent);
    assert(bytes.subrange(40, 44) =~= spec_u32_to_le_bytes(b.transactions.len() as u32));
    assert forall|i: int|
        #![trigger b.transactions[i]]
        0 <= i < b.transactions.len() implies {
        &&& bytes[44 + 10 * i] == b.transactions[i].from
        &&& bytes[45 + 10 * i] == b.transactions[i].to
        &&& bytes.subrange(46 + 10 * i, 54 + 10 * i) == spec_u64_to_le_bytes(
            b.transactions[i].amount,
        )
    } by {
        let chunk = tb.subrange(10 * i, 10 * i + 10);
        lemma_transaction_layout(b.transactions[i]);
        assert(bytes[44 + 10 * i] == chunk[0]);
        assert(bytes[45 + 10 * i] == chunk[1]);
        assert(bytes.subrange(46 + 10 * i, 54 + 10 * i) =~= chunk.subrange(2, 10));
    }
}

/// Law: the digest of every block, whatever its number of transactions, is
/// the SHA-256 of its whole encoding; and two different blocks (with a
/// 32-byte parent and a transaction count that fits the count field) have
/// different encodings, so every field and every transaction enters what is
/// hashed.
pub proof fn lemma_digest_covers_block(b1: BlockModel, b2: BlockModel)
    requires
        b1.parent.len() == 32,
        b2.parent.len() == 32,
        b1.transactions.len() <= u32::MAX,
        b2.transactions.len() <= u32::MAX,
    ensures
        block_digest(b1) == sha256_of(block_bytes(b1)),
        block_bytes(b1) == block_bytes(b2) ==> b1 == b2,
        block_bytes(b1).len() == 44 + 10 * b1.transactions.len(),
{
    lemma_block_roundtrip(b1, Seq::empty());
    lemma_block_roundtrip(b2, Seq::empty());
    assert(block_bytes(b1) + Seq::<u8>::empty() =~= block_bytes(b1));
    assert(block_bytes(b2) + Seq::<u8>::empty() =~= block_bytes(b2));
}

impl Block {
    /// Encodes this block.
    pub fn encode_bytes(&self) -> (buf: Vec<u8>)
        ensures
            buf@ == block_bytes(self@),
    {
        let mut buf: Vec<u8> = Vec::new();
        let view_bytes = u64_to_le_bytes(self.view);
        buf.extend_from_slice(view_bytes.as_slice());
        buf.extend_from_slice(self.parent.as_slice());
        let count: u32 = #[verifier::truncate] (self.transactions.len() as u32);
        let count_bytes = u32_to_le_bytes(count);
        buf.extend_from_slice(count_bytes.as_slice());
        let ghost header = buf@;
        let n = self.transactions.len();
        for i in 0..n
            invariant
                n == self.transactions@.len(),
                buf@ == header + transactions_bytes(self.transactions@.take(i as int)),
        {
            assert(self.transactions@.take(i + 1).drop_last() =~= self.transactions@.take(i as int));
            self.transactions[i].encode_into(&mut buf);
            assert(buf@ =~= header + transactions_bytes(self.transactions@.take(i + 1)));
        }
        assert(self.transactions@.take(n as int) =~= self.transactions@);
        assert(buf@ =~= block_bytes(self@));
        buf
    }

    /// Decodes a block from the front of `data`.
    pub fn decode(data: &[u8]) -> (res: Option<Self>)
        ensures
            match res {
                Some(b) => parse_block(data@) == Some(b@),
                None => parse_block(data@) is None,
            },
    {
        if data.len() < HEADER_SIZE {
            return None;
        }
        let view = u64_from_le_bytes(&data[0..8]);
        let mut parent = [0u8; 32];
        for i in 0..32
            invariant
                data@.len() >= 44,
                forall|k: int| 0 <= k < i ==> parent@[k] == data@[8 + k],
        {
            parent[i] = data[8 + i];
        }
        let tx_count = u32_from_le_bytes(&data[40..44]);
        let needed: u64 = 44 + (tx_count as u64) * 10;
        if (data.len() as u64) < needed {
            return None;
        }
        let mut offset: usize = HEADER_SIZE;
        let count = tx_count as usize;
        let mut transactions: Vec<Transaction> = Vec::with_capacity(count);
        let ghost expected = parse_block(data@).unwrap();
        for i in 0..count
            invariant
                count == announced_count(data@),
                data@.len() >= 44 + 10 * count,
                offset == 44 + 10 * i,
                expected == parse_block(data@).unwrap(),
                transactions@ =~= expected.transactions.take(i as int),
        {
            match Transaction::decode(&data[offset..data.len()]) {
                Some(tx) => {
                    assert(data@.subrange(offset as int, data@.len() as int).subrange(2, 10)
                        =~= data@.subrange(44 + 10 * i, 54 + 10 * i).subrange(2, 10));
                    transactions.push(tx);
                },
                None => {
                    return None;
                },
            }
            offset = offset + Transaction::SIZE;
        }
        assert(parent@ =~= data@.subrange(8, 40));
        assert(expected.transactions.take(count as int) =~= expected.transactions);
        Some(Block { view, parent, transactions })
    }

    /// The digest of this block: SHA-256 over its encoding.
    pub fn hash(&self) -> (digest: [u8; 32])
        ensures
            digest@ == block_digest(self@),
            digest@ == sha256_of(block_bytes(self@)),
    {
        let bytes = self.encode_bytes();
        sha256(bytes.as_slice())
    }
}

} // verus!
