//! The state machine of the application actor: the committed balances, the
//! blocks it proposed and has not yet broadcast, the blocks other validators
//! relayed to it, and the verification requests that wait for a block.
//! The surrounding program feeds it the consensus engine's requests and the
//! relayed blocks, and carries out the replies it returns.

use crate::block::{
    block_bytes, block_digest, lemma_block_roundtrip, parse_block, Block, BlockModel,
};
use crate::genesis::{genesis_accounts_bytes, genesis_digest, genesis_preimage, genesis_tag};
use crate::hashing::{digests_equal, sha256, sha256_of};
use crate::ledger::{
    apply_transaction, balance_of, genesis_balance_map, genesis_balances, holds_all_accounts,
    lemma_genesis_supply, simulate, total_supply, VerifyError,
};
use crate::store::BlockStore;
use crate::transaction::Transaction;
use crate::validation::{check_block, verdict_view, verify_outcome};
use crate::{GENESIS_BALANCE, NUM_ACCOUNTS};
use std::collections::HashMap;
use vstd::bytes::u64_to_le_bytes;
use vstd::prelude::*;

verus! {

broadcast use vstd::std_specs::hash::group_hash_axioms;

/// A verification request that waits for its block's content to arrive.
pub struct Waiter<W> {
    /// Digest of the awaited block.
    pub digest: [u8; 32],
    /// Consensus view the block must carry.
    pub view: u64,
    /// Parent digest the block must carry.
    pub parent: [u8; 32],
    /// The requester's handle for the answer.
    pub handle: W,
}

/// The state of the application actor, `W` being the requesters' handles.
pub struct Application<W> {
    my_index: u8,
    balances: HashMap<u8, u64>,
    pending: BlockStore,
    seen: BlockStore,
    waiters: Vec<Waiter<W>>,
}

/// The mathematical content of the application state.
pub struct AppModel<W> {
    /// This validator's index, the sending account of its proposals.
    pub my_index: u8,
    /// Committed account balances.
    pub balances: Map<u8, u64>,
    /// Blocks this validator proposed and has not broadcast, by digest.
    pub pending: Map<Seq<u8>, Seq<u8>>,
    /// Blocks received from other validators, by digest.
    pub seen: Map<Seq<u8>, Seq<u8>>,
    /// Requests waiting for a block, in arrival order.
    pub waiters: Seq<Waiter<W>>,
}

impl<W> View for Application<W> {
    type V = AppModel<W>;

    closed spec fn view(&self) -> AppModel<W> {
        AppModel {
            my_index: self.my_index,
            balances: self.balances@,
            pending: self.pending@,
            seen: self.seen@,
            waiters: self.waiters@,
        }
    }
}

/// The answer to a verification request.
pub enum VerifyReply<W> {
    /// The block's content was at hand: the requester and the verdict.
    Answered { handle: W, verdict: Result<Block, VerifyError> },
    /// The block's content has not arrived; the request waits for it.
    Waiting,
}

/// A block proposed by this validator, with its digest.
pub struct Proposal {
    pub block: Block,
    pub digest: [u8; 32],
}

/// The block that validator `my_index` proposes for `view` on top of
/// `parent`: one transfer of one token to the next account.
pub open spec fn proposed_block(my_index: u8, view: u64, parent: Seq<u8>) -> BlockModel {
    BlockModel {
        view,
        parent,
        transactions: seq![
            Transaction {
                from: my_index,
                to: ((my_index + 1) % (NUM_ACCOUNTS as int)) as u8,
                amount: 1,
            },
        ],
    }
}

/// A waiter waits for the block with digest `d`.
pub open spec fn awaits<W>(d: Seq<u8>) -> spec_fn(Waiter<W>) -> bool {
    |w: Waiter<W>| w.digest@ == d
}

/// A waiter waits for another block than `d`.
pub open spec fn awaits_other<W>(d: Seq<u8>) -> spec_fn(Waiter<W>) -> bool {
    |w: Waiter<W>| w.digest@ != d
}

/// The waiters that wait for the block with digest `d`, in arrival order.
pub open spec fn waiting_for<W>(waiters: Seq<Waiter<W>>, d: Seq<u8>) -> Seq<Waiter<W>> {
    waiters.filter(awaits(d))
}

/// The waiters that wait for another block than `d`, in arrival order.
pub open spec fn waiting_for_others<W>(waiters: Seq<Waiter<W>>, d: Seq<u8>) -> Seq<Waiter<W>> {
    waiters.filter(awaits_other(d))
}

/// The content a verification request for `payload` is checked against
/// right away: a relayed block first, else one of this validator's own
/// pending blocks; none if neither is known.
pub open spec fn known_content<W>(m: AppModel<W>, payload: Seq<u8>) -> Option<Seq<u8>> {
    if m.seen.contains_key(payload) {
        Some(m.seen[payload])
    } else if m.pending.contains_key(payload) {
        Some(m.pending[payload])
    } else {
        None
    }
}

/// The answers owed when the block `d` with content `data` arrives: each
/// waiter for `d`, in arrival order, with the verdict on `data`.
pub open spec fn relay_answers<W>(m: AppModel<W>, d: Seq<u8>, data: Seq<u8>) -> Seq<
    (W, Result<BlockModel, VerifyError>),
> {
    waiting_for(m.waiters, d).map_values(answer_on(m.balances, d, data))
}

/// The answer to waiter `w` once the block `d` arrives with content `data`.
pub open spec fn answer_on<W>(balances: Map<u8, u64>, d: Seq<u8>, data: Seq<u8>) -> spec_fn(
    Waiter<W>,
) -> (W, Result<BlockModel, VerifyError>) {
    |w: Waiter<W>| (w.handle, verify_outcome(balances, w.view, w.parent@, d, data))
}

/// The content of a list of answers.
pub open spec fn answers_view<W>(answers: Seq<(W, Result<Block, VerifyError>)>) -> Seq<
    (W, Result<BlockModel, VerifyError>),
> {
    answers.map_values(|a: (W, Result<Block, VerifyError>)| (a.0, verdict_view(a.1)))
}

/// The state after the block `d` with content `data` arrives: the content is
/// recorded and the waiters for `d` are released.
pub open spec fn after_relay<W>(m: AppModel<W>, d: Seq<u8>, data: Seq<u8>) -> AppModel<W> {
    AppModel {
        seen: m.seen.insert(d, data),
        waiters: waiting_for_others(m.waiters, d),
        ..m
    }
}

/// An event that the actor handles: a request of the consensus engine, or a
/// block's content relayed by another validator.
pub enum Event<W> {
    /// Build a block for `view` on top of `parent`.
    Propose { view: u64, parent: [u8; 32] },
    /// Verify the block `payload` for `view` on top of `parent`, answering
    /// through `handle`.
    Verify { view: u64, parent: [u8; 32], payload: [u8; 32], handle: W },
    /// Certify a notarized block.
    Certify,
    /// Send this validator's block `payload` to the others.
    Broadcast { payload: [u8; 32] },
    /// The content `data` of the block `digest` arrived from the relay.
    Relay { digest: [u8; 32], data: Seq<u8> },
}

/// The state after this validator proposes for `view` on top of `parent`:
/// the block's encoding is pending under its digest.
pub open spec fn after_propose<W>(m: AppModel<W>, view: u64, parent: Seq<u8>) -> AppModel<W> {
    let b = proposed_block(m.my_index, view, parent);
    AppModel { pending: m.pending.insert(block_digest(b), block_bytes(b)), ..m }
}

/// The state after a verification request: unchanged when the content is
/// known, otherwise the request waits.
pub open spec fn after_request<W>(
    m: AppModel<W>,
    view: u64,
    parent: [u8; 32],
    payload: [u8; 32],
    handle: W,
) -> AppModel<W> {
    if known_content(m, payload@) is Some {
        m
    } else {
        AppModel {
            waiters: m.waiters.push(Waiter { digest: payload, view, parent, handle }),
            ..m
        }
    }
}

/// The answers a verification request gets at once: the verdict on the
/// known content, or none while the content is unknown.
pub open spec fn request_answers<W>(
    m: AppModel<W>,
    view: u64,
    parent: [u8; 32],
    payload: [u8; 32],
    handle: W,
) -> Seq<(W, Result<BlockModel, VerifyError>)> {
    match known_content(m, payload@) {
        Some(content) => seq![
            (handle, verify_outcome(m.balances, view, parent@, payload@, content)),
        ],
        None => Seq::empty(),
    }
}

/// The state after this validator's block `payload` is taken out for
/// broadcasting.
pub open spec fn after_broadcast<W>(m: AppModel<W>, payload: Seq<u8>) -> AppModel<W> {
    AppModel { pending: m.pending.remove(payload), ..m }
}

/// The state after handling `e`.
pub open spec fn step<W>(m: AppModel<W>, e: Event<W>) -> AppModel<W> {
    match e {
        Event::Propose { view, parent } => after_propose(m, view, parent@),
        Event::Verify { view, parent, payload, handle } => after_request(
            m,
            view,
            parent,
            payload,
            handle,
        ),
        Event::Certify => m,
        Event::Broadcast { payload } => after_broadcast(m, payload@),
        Event::Relay { digest, data } => after_relay(m, digest@, data),
    }
}

/// The answers to verification requests that handling `e` gives.
pub open spec fn step_answers<W>(m: AppModel<W>, e: Event<W>) -> Seq<
    (W, Result<BlockModel, VerifyError>),
> {
    match e {
        Event::Verify { view, parent, payload, handle } => request_answers(
            m,
            view,
            parent,
            payload,
            handle,
        ),
        Event::Relay { digest, data } => relay_answers(m, digest@, data),
        _ => Seq::empty(),
    }
}

/// The answers that a reply carries.
pub open spec fn reply_answers<W>(reply: VerifyReply<W>) -> Seq<
    (W, Result<BlockModel, VerifyError>),
> {
    match reply {
        VerifyReply::Answered { handle, verdict } => seq![(handle, verdict_view(verdict))],
        VerifyReply::Waiting => Seq::empty(),
    }
}

/// The state that `new` builds for validator `my_index`.
pub open spec fn initial_model<W>(my_index: u8) -> AppModel<W> {
    AppModel {
        my_index,
        balances: genesis_balance_map(),
        pending: Map::empty(),
        seen: Map::empty(),
        waiters: Seq::empty(),
    }
}

/// The committed balances are the genesis balances; they are all present
/// and their sum fits a `u64`.
pub proof fn lemma_genesis_balances_wf()
    ensures
        holds_all_accounts(genesis_balance_map()),
        total_supply(genesis_balance_map()) == 4 * GENESIS_BALANCE,
        total_supply(genesis_balance_map()) <= u64::MAX,
{
    lemma_genesis_supply(NUM_ACCOUNTS as nat);
}

/// A filter keeps nothing that its complement kept.
proof fn lemma_filters_disjoint<W>(waiters: Seq<Waiter<W>>, d: Seq<u8>)
    ensures
        waiting_for(waiting_for_others(waiters, d), d).len() == 0,
    decreases waiters.len(),
{
    reveal_with_fuel(Seq::filter, 1);
    if waiters.len() > 0 {
        let init = waiters.drop_last();
        lemma_filters_disjoint(init, d);
        let others = waiting_for_others(waiters, d);
        if waiters.last().digest@ != d {
            assert(others.drop_last() =~= waiting_for_others(init, d));
            assert(others.last() == waiters.last());
        } else {
            assert(others =~= waiting_for_others(init, d));
        }
    }
}

/// The block a validator with a genesis account proposes passes
/// verification: it decodes from its encoding, carries the view and parent
/// it was made for, its transfer applies to the genesis balances, and its
/// digest is the one announced with it.
pub proof fn lemma_proposed_block_verifies(my_index: u8, view: u64, parent: Seq<u8>)
    requires
        my_index < NUM_ACCOUNTS,
        parent.len() == 32,
    ensures
        ({
            let b = proposed_block(my_index, view, parent);
            verify_outcome(genesis_balance_map(), view, parent, block_digest(b), block_bytes(b))
                == Ok::<BlockModel, VerifyError>(b)
        }),
{
    let b = proposed_block(my_index, view, parent);
    lemma_block_roundtrip(b, Seq::empty());
    assert(block_bytes(b) + Seq::<u8>::empty() =~= block_bytes(b));
    lemma_genesis_balances_wf();
    let tx = b.transactions[0];
    assert(b.transactions.drop_last() =~= Seq::<Transaction>::empty());
    assert(balance_of(genesis_balance_map(), tx.from) == GENESIS_BALANCE);
    assert(apply_transaction(genesis_balance_map(), tx) is Ok);
    assert(simulate(genesis_balance_map(), b.transactions.drop_last()) == Ok::<
        Map<u8, u64>,
        VerifyError,
    >(genesis_balance_map()));
    assert(simulate(genesis_balance_map(), b.transactions) is Ok);
}

/// What a validator proposes is what it broadcasts: after its proposal is
/// recorded, taking the pending block out under the proposal's digest gives
/// the block's encoding, which decodes to the proposed block; the block is
/// then no longer pending, so a second broadcast sends nothing.
pub proof fn lemma_broadcast_sends_proposal<W>(m: AppModel<W>, view: u64, parent: Seq<u8>)
    requires
        parent.len() == 32,
    ensures
        ({
            let b = proposed_block(m.my_index, view, parent);
            let d = block_digest(b);
            let proposed = AppModel { pending: m.pending.insert(d, block_bytes(b)), ..m };
            &&& proposed.pending.contains_key(d)
            &&& parse_block(proposed.pending[d]) == Some(b)
            &&& !proposed.pending.remove(d).contains_key(d)
        }),
{
    let b = proposed_block(m.my_index, view, parent);
    lemma_block_roundtrip(b, Seq::empty());
    assert(block_bytes(b) + Seq::<u8>::empty() =~= block_bytes(b));
}

/// A request for this validator's own pending proposal is answered at once,
/// and accepted, when no other content was relayed under its digest.
pub proof fn lemma_own_proposal_accepted<W>(m: AppModel<W>, view: u64, parent: Seq<u8>)
    requires
        m.balances == genesis_balance_map(),
        m.my_index < NUM_ACCOUNTS,
        parent.len() == 32,
        !m.seen.contains_key(block_digest(proposed_block(m.my_index, view, parent))),
    ensures
        ({
            let b = proposed_block(m.my_index, view, parent);
            let d = block_digest(b);
            let proposed = AppModel { pending: m.pending.insert(d, block_bytes(b)), ..m };
            &&& known_content(proposed, d) == Some(block_bytes(b))
            &&& verify_outcome(proposed.balances, view, parent, d, block_bytes(b)) == Ok::<
                BlockModel,
                VerifyError,
            >(b)
        }),
{
    lemma_proposed_block_verifies(m.my_index, view, parent);
}

/// A request that had to wait is answered when its block arrives, with the
/// verdict that an immediate check of the arrived content gives; after the
/// arrival nothing waits for that block any more, and a new request for it
/// is answered at once with the same verdict.
pub proof fn lemma_waiting_request_answered<W>(
    m: AppModel<W>,
    view: u64,
    parent: [u8; 32],
    payload: [u8; 32],
    handle: W,
    data: Seq<u8>,
)
    requires
        known_content(m, payload@) is None,
    ensures
        ({
            let waiting = AppModel {
                waiters: m.waiters.push(Waiter { digest: payload, view, parent, handle }),
                ..m
            };
            let answers = relay_answers(waiting, payload@, data);
            let after = after_relay(waiting, payload@, data);
            &&& answers.len() >= 1
            &&& answers.last() == (handle, verify_outcome(m.balances, view, parent@, payload@, data))
            &&& waiting_for(after.waiters, payload@).len() == 0
            &&& known_content(after, payload@) == Some(data)
        }),
{
    reveal_with_fuel(Seq::filter, 1);
    let w = Waiter { digest: payload, view, parent, handle };
    let ws = m.waiters.push(w);
    assert(ws.drop_last() =~= m.waiters);
    assert(waiting_for(ws, payload@) =~= waiting_for(m.waiters, payload@).push(w));
    lemma_filters_disjoint(ws, payload@);
}

/// Law: the block a validator proposes holds one transfer of one token from
/// its own account to the account of the next validator, the last one
/// sending to the first.
pub proof fn lemma_proposal_goes_to_next_account(my_index: u8, view: u64, parent: Seq<u8>)
    requires
        my_index < NUM_ACCOUNTS,
    ensures
        ({
            let txs = proposed_block(my_index, view, parent).transactions;
            &&& txs.len() == 1
            &&& txs[0].from == my_index
            &&& txs[0].amount == 1
            &&& my_index + 1 < NUM_ACCOUNTS ==> txs[0].to == my_index + 1
            &&& my_index + 1 == NUM_ACCOUNTS ==> txs[0].to == 0
            &&& proposed_block(my_index, view, parent).view == view
            &&& proposed_block(my_index, view, parent).parent == parent
        }),
{
}

/// Law: a relayed block's content is always recorded, whether or not a
/// request waits for it; a request for that block made afterwards is
/// answered at once with the verdict on that content.
pub proof fn lemma_relayed_content_known<W>(
    m: AppModel<W>,
    digest: [u8; 32],
    data: Seq<u8>,
    view: u64,
    parent: [u8; 32],
    handle: W,
)
    ensures
        after_relay(m, digest@, data).seen == m.seen.insert(digest@, data),
        known_content(after_relay(m, digest@, data), digest@) == Some(data),
        request_answers(after_relay(m, digest@, data), view, parent, digest, handle) == seq![
            (handle, verify_outcome(m.balances, view, parent@, digest@, data)),
        ],
        after_request(after_relay(m, digest@, data), view, parent, digest, handle) == after_relay(
            m,
            digest@,
            data,
        ),
{
}

impl<W> Application<W> {
    /// The state's invariant: the committed balances are the genesis
    /// balances (they are not updated after genesis) and both block stores
    /// are well formed.
    pub closed spec fn wf(&self) -> bool {
        &&& self.balances@ == genesis_balance_map()
        &&& self.pending.wf()
        &&& self.seen.wf()
    }

    /// A fresh state for validator `my_index`: genesis balances, no blocks,
    /// no waiting requests.
    pub fn new(my_index: u8) -> (app: Self)
        ensures
            app.wf(),
            app@.my_index == my_index,
            app@.balances == genesis_balance_map(),
            app@.pending == Map::<Seq<u8>, Seq<u8>>::empty(),
            app@.seen == Map::<Seq<u8>, Seq<u8>>::empty(),
            app@.waiters == Seq::<Waiter<W>>::empty(),
            app@ == initial_model::<W>(my_index),
    {
        Application {
            my_index,
            balances: genesis_balances(),
            pending: BlockStore::new(),
            seen: BlockStore::new(),
            waiters: Vec::new(),
        }
    }

    /// This validator's index.
    pub fn my_index(&self) -> (i: u8)
        ensures
            i == self@.my_index,
    {
        self.my_index
    }

    /// The genesis digest: a hash of the initial state, the same for every
    /// validator.
    pub fn do_genesis(&self, epoch: u64) -> (digest: [u8; 32])
        ensures
            digest@ == genesis_digest(epoch),
    {
        let mut buf: Vec<u8> = vec![
            107u8, 114, 121, 112, 116, 111, 95, 103, 101, 110, 101, 115, 105, 115, 95, 118, 49,
        ];
        assert(buf@ =~= genesis_tag());
        let epoch_bytes = u64_to_le_bytes(epoch);
        buf.extend_from_slice(epoch_bytes.as_slice());
        let ghost prefix = buf@;
        for i in 0..NUM_ACCOUNTS
            invariant
                buf@ == prefix + genesis_accounts_bytes(i as nat),
        {
            buf.push(i);
            let balance_bytes = u64_to_le_bytes(GENESIS_BALANCE);
            buf.extend_from_slice(balance_bytes.as_slice());
            assert(buf@ =~= prefix + genesis_accounts_bytes((i + 1) as nat));
        }
        assert(buf@ =~= genesis_preimage(epoch));
        sha256(buf.as_slice())
    }

    /// Builds this validator's block for `view` on top of `parent`, keeps its
    /// encoding among the pending blocks under its digest, and returns it.
    pub fn do_propose(&mut self, view: u64, parent: [u8; 32]) -> (proposal: Proposal)
        requires
            old(self).wf(),
            old(self)@.my_index < u8::MAX,
        ensures
            final(self).wf(),
            proposal.block@ == proposed_block(old(self)@.my_index, view, parent@),
            proposal.digest@ == block_digest(proposal.block@),
            final(self)@ == (AppModel {
                pending: old(self)@.pending.insert(proposal.digest@, block_bytes(proposal.block@)),
                ..old(self)@
            }),
            final(self)@ == step(old(self)@, (Event::Propose { view, parent })),
            proposal.block.view == view,
            proposal.block.parent@ == parent@,
            proposal.block.transactions@ == seq![
                Transaction {
                    from: old(self)@.my_index,
                    to: ((old(self)@.my_index + 1) % (NUM_ACCOUNTS as int)) as u8,
                    amount: 1,
                },
            ],
            old(self)@.my_index + 1 < NUM_ACCOUNTS ==> proposal.block.transactions@[0].to
                == old(self)@.my_index + 1,
            old(self)@.my_index + 1 == NUM_ACCOUNTS ==> proposal.block.transactions@[0].to == 0,
            proposal.digest@ == sha256_of(block_bytes(proposal.block@)),
            final(self)@.pending == old(self)@.pending.insert(
                proposal.digest@,
                block_bytes(proposal.block@),
            ),
            final(self)@.seen == old(self)@.seen,
            final(self)@.waiters == old(self)@.waiters,
    {
        let to = (self.my_index + 1) % NUM_ACCOUNTS;
        let block = Block {
            view,
            parent,
            transactions: vec![Transaction { from: self.my_index, to, amount: 1 }],
        };
        let encoded = block.encode_bytes();
        let digest = block.hash();
        self.pending.insert(digest, encoded);
        assert(block@.transactions =~= proposed_block(old(self)@.my_index, view, parent@).transactions);
        Proposal { block, digest }
    }

    /// Checks `data` as the content of the block announced under `digest`
    /// for `view` on top of `parent`, against the committed balances.
    pub fn do_verify(&self, view: u64, parent: &[u8; 32], digest: &[u8; 32], data: &[u8]) -> (verdict:
        Result<Block, VerifyError>)
        requires
            self.wf(),
        ensures
            verdict_view(verdict) == verify_outcome(self@.balances, view, parent@, digest@, data@),
            verdict matches Ok(b) ==> {
                &&& b.view == view
                &&& b.parent@ == parent@
                &&& parse_block(data@) == Some(b@)
                &&& sha256_of(block_bytes(b@)) == digest@
            },
    {
        proof {
            lemma_genesis_balances_wf();
        }
        check_block(&self.balances, view, parent, digest, data)
    }

    /// Certification of a notarized block: always granted.
    pub fn do_certify(&self) -> (certified: bool)
        ensures
            certified,
    {
        true
    }

    /// Takes this validator's pending block `payload` out, for broadcasting
    /// to the other validators; none if it is not pending.
    pub fn do_broadcast(&mut self, payload: &[u8; 32]) -> (data: Option<Vec<u8>>)
        requires
            old(self).wf(),
        ensures
            final(self).wf(),
            final(self)@ == (AppModel { pending: old(self)@.pending.remove(payload@), ..old(self)@ }),
            match data {
                Some(d) => old(self)@.pending.contains_key(payload@) && d@ == old(self)@.pending[payload@],
                None => !old(self)@.pending.contains_key(payload@),
            },
            final(self)@ == step(old(self)@, (Event::Broadcast { payload: *payload })),
    {
        self.pending.remove(payload)
    }

    /// A verification request from the consensus engine for the block
    /// `payload` at `view` on top of `parent`. When the block's content is
    /// known (relayed, or this validator's own pending block) the request is
    /// answered at once; otherwise it waits for the content.
    pub fn handle_verify_request(
        &mut self,
        view: u64,
        parent: [u8; 32],
        payload: [u8; 32],
        handle: W,
    ) -> (reply: VerifyReply<W>)
        requires
            old(self).wf(),
        ensures
            final(self).wf(),
            match known_content(old(self)@, payload@) {
                Some(content) => {
                    &&& final(self)@ == old(self)@
                    &&& reply matches VerifyReply::Answered { handle: h, verdict }
                    &&& h == handle
                    &&& verdict_view(verdict) == verify_outcome(
                        old(self)@.balances,
                        view,
                        parent@,
                        payload@,
                        content,
                    )
                },
                None => {
                    &&& reply is Waiting
                    &&& final(self)@ == (AppModel {
                        waiters: old(self)@.waiters.push(Waiter { digest: payload, view, parent, handle }),
                        ..old(self)@
                    })
                },
            },
            final(self)@ == step(old(self)@, (Event::Verify { view, parent, payload, handle })),
            reply_answers(reply) == step_answers(
                old(self)@,
                (Event::Verify { view, parent, payload, handle }),
            ),
    {
        let data = match self.seen.get(&payload) {
            Some(d) => Some(d),
            None => self.pending.get(&payload),
        };
        match data {
            Some(d) => {
                let verdict = self.do_verify(view, &parent, &payload, d.as_slice());
                VerifyReply::Answered { handle, verdict }
            },
            None => {
                self.waiters.push(Waiter { digest: payload, view, parent, handle });
                VerifyReply::Waiting
            },
        }
    }

    /// A block's content relayed by another validator: it is recorded, and
    /// every request waiting for it is answered, in arrival order.
    pub fn handle_relayed_block(&mut self, digest: [u8; 32], data: Vec<u8>) -> (answers: Vec<
        (W, Result<Block, VerifyError>),
    >)
        requires
            old(self).wf(),
        ensures
            final(self).wf(),
            final(self)@ == after_relay(old(self)@, digest@, data@),
            answers_view(answers@) == relay_answers(old(self)@, digest@, data@),
            final(self)@ == step(old(self)@, (Event::Relay { digest, data: data@ })),
            final(self)@.seen == old(self)@.seen.insert(digest@, data@),
            final(self)@.pending == old(self)@.pending,
            forall|i: int|
                0 <= i < final(self)@.waiters.len() ==> #[trigger] final(self)@.waiters[i].digest@
                    != digest@,
            answers_view(answers@) == step_answers(
                old(self)@,
                (Event::Relay { digest, data: data@ }),
            ),
    {
        let ghost before = self@;
        let mut queue: Vec<Waiter<W>> = Vec::new();
        std::mem::swap(&mut queue, &mut self.waiters);
        let ghost all = queue@;
        let mut answers: Vec<(W, Result<Block, VerifyError>)> = Vec::new();
        let mut remaining: Vec<Waiter<W>> = Vec::new();
        let n = queue.len();
        let mut i: usize = 0;
        while i < n
            invariant
                self.wf(),
                self.balances@ == before.balances,
                all == before.waiters,
                n == all.len(),
                i <= n,
                queue@ == all.skip(i as int),
                remaining@ == waiting_for_others(all.take(i as int), digest@),
                answers_view(answers@) == waiting_for(all.take(i as int), digest@).map_values(
                    |w: Waiter<W>|
                        (
                            w.handle,
                            verify_outcome(before.balances, w.view, w.parent@, digest@, data@),
                        ),
                ),
            decreases n - i,
        {
            let w = queue.remove(0);
            let ghost wg = w;
            assert(wg == all[i as int]);
            proof {
                reveal_with_fuel(Seq::filter, 1);
                assert(all.take(i + 1).drop_last() =~= all.take(i as int));
            }
            let Waiter { digest: wd, view: wv, parent: wp, handle: wh } = w;
            if digests_equal(&wd, &digest) {
                let verdict = self.do_verify(wv, &wp, &digest, data.as_slice());
                let ghost old_answers = answers@;
                answers.push((wh, verdict));
                proof {
                    assert(answers_view(answers@) =~= answers_view(old_answers).push(
                        (wh, verdict_view(verdict)),
                    ));
                    assert(waiting_for(all.take(i + 1), digest@) =~= waiting_for(
                        all.take(i as int),
                        digest@,
                    ).push(wg));
                }
            } else {
                remaining.push(Waiter { digest: wd, view: wv, parent: wp, handle: wh });
                proof {
                    assert(waiting_for_others(all.take(i + 1), digest@) =~= waiting_for_others(
                        all.take(i as int),
                        digest@,
                    ).push(wg));
                }
            }
            i = i + 1;
            assert(queue@ =~= all.skip(i as int));
        }
        assert(all.take(n as int) =~= all);
        self.waiters = remaining;
        self.seen.insert(digest, data);
        answers
    }
}

} // verus!
