use krypto::block::Block;
use krypto::transaction::Transaction;

fn sample_block(n: usize) -> Block {
    let mut transactions = Vec::new();
    for i in 0..n {
        transactions.push(Transaction {
            from: (i % 4) as u8,
            to: ((i + 1) % 4) as u8,
            amount: 1000 + i as u64,
        });
    }
    Block { view: 0x0102030405060708, parent: [7u8; 32], transactions }
}

#[test]
fn transaction_encoding_is_from_to_amount_le() {
    let tx = Transaction { from: 1, to: 2, amount: 0x0102030405060708 };
    let mut buf = vec![0xaa];
    tx.encode_into(&mut buf);
    assert_eq!(buf, vec![0xaa, 1, 2, 8, 7, 6, 5, 4, 3, 2, 1]);
    assert_eq!(Transaction::SIZE, 10);
}

#[test]
fn transaction_roundtrip() {
    let tx = Transaction { from: 3, to: 0, amount: u64::MAX };
    let mut buf = Vec::new();
    tx.encode_into(&mut buf);
    assert_eq!(Transaction::decode(&buf), Some(tx));
    buf.extend_from_slice(&[9, 9, 9]);
    assert_eq!(Transaction::decode(&buf), Some(tx));
}

#[test]
fn transaction_decode_short_input() {
    assert_eq!(Transaction::decode(&[1, 2, 3, 4, 5, 6, 7, 8, 9]), None);
    assert_eq!(Transaction::decode(&[]), None);
    assert_eq!(
        Transaction::decode(&[5, 6, 1, 0, 0, 0, 0, 0, 0, 0]),
        Some(Transaction { from: 5, to: 6, amount: 1 })
    );
}

#[test]
fn block_encoding_layout() {
    let b = sample_block(2);
    let bytes = b.encode_bytes();
    assert_eq!(bytes.len(), 44 + 2 * 10);
    assert_eq!(&bytes[0..8], &[8, 7, 6, 5, 4, 3, 2, 1]);
    assert_eq!(&bytes[8..40], &[7u8; 32]);
    assert_eq!(&bytes[40..44], &[2, 0, 0, 0]);
    assert_eq!(&bytes[44..54], &[0, 1, 0xe8, 3, 0, 0, 0, 0, 0, 0]);
    assert_eq!(&bytes[54..64], &[1, 2, 0xe9, 3, 0, 0, 0, 0, 0, 0]);
}

#[test]
fn block_roundtrip() {
    for n in [0usize, 1, 5] {
        let b = sample_block(n);
        let mut bytes = b.encode_bytes();
        assert_eq!(Block::decode(&bytes), Some(b.clone()));
        bytes.extend_from_slice(&[1, 2, 3]);
        assert_eq!(Block::decode(&bytes), Some(b));
    }
}

#[test]
fn block_decode_rejects_short_header() {
    let bytes = sample_block(0).encode_bytes();
    assert_eq!(Block::decode(&bytes[..43]), None);
    assert_eq!(Block::decode(&[]), None);
}

#[test]
fn block_decode_rejects_missing_transactions() {
    let bytes = sample_block(3).encode_bytes();
    assert_eq!(Block::decode(&bytes[..bytes.len() - 1]), None);
    let mut huge = sample_block(0).encode_bytes();
    huge[40..44].copy_from_slice(&u32::MAX.to_le_bytes());
    assert_eq!(Block::decode(&huge), None);
}

#[test]
fn block_hash_is_sha256_of_encoding() {
    let b = Block {
        view: 1,
        parent: [0u8; 32],
        transactions: vec![Transaction { from: 1, to: 2, amount: 1 }],
    };
    let expected = "016fec599fcba237f3f1d1994c8a3874ddcd4c791f01de010d4e2a878bee09e1";
    let digest = b.hash();
    let hex: String = digest.iter().map(|x| format!("{:02x}", x)).collect();
    assert_eq!(hex, expected);
}
