# krypto

The state machine of a small layer-1 node that runs Simplex BFT consensus
(commonware) among a few validators: account balances, token-transfer
transactions and blocks, their wire format and SHA-256 digests, the rules
that decide whether a proposed block is valid, and the actor state that
answers the consensus engine's propose / verify / certify / broadcast
requests.

- `src/` is verified with Verus:
  - `transaction.rs`, `block.rs`: encoding and decoding, with round-trip laws;
  - `hashing.rs`: SHA-256 through `commonware-cryptography`;
  - `genesis.rs`: the genesis preimage and digest;
  - `ledger.rs`: balances and the simulation of a block's transfers
    (total supply is conserved);
  - `validation.rs`: the verdict on a block for a consensus context;
  - `store.rs`: blocks kept by digest;
  - `application.rs`: the actor's state machine and its laws;
  - `history.rs`: what holds after any sequence of handled events (the
    state invariant, and that each verification request is answered once).
- `app/` is the program: the simulated network and the consensus engines,
  which (as in the original program) run commonware's mock application;
  `app/state_machine.rs` holds the async actor that drives the verified
  state machine, which the program does not start yet.
- `tests/` runs the library on concrete inputs.
