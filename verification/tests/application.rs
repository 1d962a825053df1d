use krypto::application::{Application, VerifyReply};
use krypto::block::Block;
use krypto::ledger::VerifyError;
use krypto::transaction::Transaction;

fn hex(d: &[u8; 32]) -> String {
    d.iter().map(|x| format!("{:02x}", x)).collect()
}

#[test]
fn genesis_digest_matches_documented_value() {
    let a: Application<u32> = Application::new(0);
    let b: Application<u32> = Application::new(3);
    let expected = "136a721b2e0a740757b86600774f20a151da8644a61991a6d24fe46fba44c442";
    assert_eq!(hex(&a.do_genesis(0)), expected);
    assert_eq!(a.do_genesis(0), b.do_genesis(0));
    assert_ne!(a.do_genesis(0), a.do_genesis(1));
}

#[test]
fn proposal_sends_one_token_to_next_validator() {
    let mut app: Application<u32> = Application::new(3);
    let p = app.do_propose(7, [5u8; 32]);
    assert_eq!(p.block.view, 7);
    assert_eq!(p.block.parent, [5u8; 32]);
    assert_eq!(p.block.transactions, vec![Transaction { from: 3, to: 0, amount: 1 }]);
    assert_eq!(p.digest, p.block.hash());
    let mut app1: Application<u32> = Application::new(1);
    let p1 = app1.do_propose(1, [0u8; 32]);
    assert_eq!(p1.block.transactions, vec![Transaction { from: 1, to: 2, amount: 1 }]);
    assert_eq!(hex(&p1.digest), "016fec599fcba237f3f1d1994c8a3874ddcd4c791f01de010d4e2a878bee09e1");
}

#[test]
fn proposed_block_verifies_elsewhere() {
    let mut proposer: Application<u32> = Application::new(1);
    let p = proposer.do_propose(4, [9u8; 32]);
    let data = proposer.do_broadcast(&p.digest).expect("pending block");
    let verifier: Application<u32> = Application::new(2);
    let verdict = verifier.do_verify(4, &[9u8; 32], &p.digest, &data);
    assert_eq!(verdict, Ok(p.block.clone()));
    assert_eq!(proposer.do_broadcast(&p.digest), None);
}

#[test]
fn verification_failures() {
    let mut proposer: Application<u32> = Application::new(0);
    let p = proposer.do_propose(4, [9u8; 32]);
    let data = p.block.encode_bytes();
    let v: Application<u32> = Application::new(1);
    assert_eq!(v.do_verify(4, &[9u8; 32], &p.digest, &data[..10]), Err(VerifyError::DecodeFailed));
    assert_eq!(
        v.do_verify(5, &[9u8; 32], &p.digest, &data),
        Err(VerifyError::ViewMismatch { block: 4, expected: 5 })
    );
    assert_eq!(v.do_verify(4, &[8u8; 32], &p.digest, &data), Err(VerifyError::ParentMismatch));
    assert_eq!(v.do_verify(4, &[9u8; 32], &[0u8; 32], &data), Err(VerifyError::DigestMismatch));
    let bad = Block {
        view: 4,
        parent: [9u8; 32],
        transactions: vec![Transaction { from: 0, to: 1, amount: 2_000_000 }],
    };
    assert_eq!(
        v.do_verify(4, &[9u8; 32], &bad.hash(), &bad.encode_bytes()),
        Err(VerifyError::InsufficientBalance { balance: 1_000_000, amount: 2_000_000 })
    );
    let bad = Block {
        view: 4,
        parent: [9u8; 32],
        transactions: vec![Transaction { from: 0, to: 7, amount: 1 }],
    };
    assert_eq!(
        v.do_verify(4, &[9u8; 32], &bad.hash(), &bad.encode_bytes()),
        Err(VerifyError::InvalidAccounts { from: 0, to: 7 })
    );
    assert!(v.do_certify());
}

#[test]
fn own_pending_block_is_answered_at_once() {
    let mut app: Application<u32> = Application::new(2);
    let p = app.do_propose(3, [1u8; 32]);
    match app.handle_verify_request(3, [1u8; 32], p.digest, 77) {
        VerifyReply::Answered { handle, verdict } => {
            assert_eq!(handle, 77);
            assert_eq!(verdict, Ok(p.block.clone()));
        }
        VerifyReply::Waiting => panic!("pending block should be known"),
    }
}

#[test]
fn unknown_block_waits_until_relayed() {
    let mut proposer: Application<u32> = Application::new(0);
    let p = proposer.do_propose(2, [4u8; 32]);
    let data = proposer.do_broadcast(&p.digest).unwrap();

    let mut app: Application<u32> = Application::new(1);
    assert!(matches!(app.handle_verify_request(2, [4u8; 32], p.digest, 1), VerifyReply::Waiting));
    assert!(matches!(app.handle_verify_request(3, [4u8; 32], p.digest, 2), VerifyReply::Waiting));
    assert!(matches!(app.handle_verify_request(2, [4u8; 32], [0u8; 32], 3), VerifyReply::Waiting));

    let answers = app.handle_relayed_block(p.digest, data.clone());
    assert_eq!(answers.len(), 2);
    assert_eq!(answers[0].0, 1);
    assert_eq!(answers[0].1, Ok(p.block.clone()));
    assert_eq!(answers[1].0, 2);
    assert_eq!(answers[1].1, Err(VerifyError::ViewMismatch { block: 2, expected: 3 }));

    // Nothing waits for it any more; a later request is answered at once.
    assert!(app.handle_relayed_block(p.digest, data).is_empty());
    match app.handle_verify_request(2, [4u8; 32], p.digest, 4) {
        VerifyReply::Answered { handle, verdict } => {
            assert_eq!(handle, 4);
            assert_eq!(verdict, Ok(p.block));
        }
        VerifyReply::Waiting => panic!("relayed block should be known"),
    }
}

#[test]
fn relayed_content_takes_precedence_over_pending() {
    let mut app: Application<u32> = Application::new(0);
    let p = app.do_propose(1, [0u8; 32]);
    app.handle_relayed_block(p.digest, vec![1, 2, 3]);
    match app.handle_verify_request(1, [0u8; 32], p.digest, 5) {
        VerifyReply::Answered { verdict, .. } => assert_eq!(verdict, Err(VerifyError::DecodeFailed)),
        VerifyReply::Waiting => panic!("content is known"),
    }
}

#[test]
fn broadcast_of_unknown_block_sends_nothing() {
    let mut app: Application<u32> = Application::new(0);
    assert_eq!(app.do_broadcast(&[3u8; 32]), None);
    assert_eq!(app.my_index(), 0);
}
