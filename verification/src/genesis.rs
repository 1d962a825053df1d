//! The genesis state and its digest.

use crate::hashing::sha256_of;
use crate::{GENESIS_BALANCE, NUM_ACCOUNTS};
use vstd::bytes::{lemma_auto_spec_u64_to_from_le_bytes, spec_u64_from_le_bytes, spec_u64_to_le_bytes};
use vstd::prelude::*;

verus! {

/// The domain tag that starts the genesis preimage: the ASCII text
/// `krypto_genesis_v1`.
pub open spec fn genesis_tag() -> Seq<u8> {
    seq![107u8, 114, 121, 112, 116, 111, 95, 103, 101, 110, 101, 115, 105, 115, 95, 118, 49]
}

/// The entries `(account index, balance)` of the first `n` genesis
/// accounts: the index (1 byte) then the balance (8 bytes, little endian).
pub open spec fn genesis_accounts_bytes(n: nat) -> Seq<u8>
    decreases n,
{
    if n == 0 {
        Seq::empty()
    } else {
        genesis_accounts_bytes((n - 1) as nat) + seq![(n - 1) as u8] + spec_u64_to_le_bytes(
            GENESIS_BALANCE,
        )
    }
}

/// What is hashed for the genesis digest of `epoch`:
/// tag || epoch (little endian) || (account index || balance)*.
pub open spec fn genesis_preimage(epoch: u64) -> Seq<u8> {
    genesis_tag() + spec_u64_to_le_bytes(epoch) + genesis_accounts_bytes(NUM_ACCOUNTS as nat)
}

/// The genesis digest of `epoch`.
pub open spec fn genesis_digest(epoch: u64) -> Seq<u8> {
    sha256_of(genesis_preimage(epoch))
}

/// The account entries take nine bytes each, the `i`-th holding the index
/// `i` and the genesis balance.
pub proof fn lemma_genesis_accounts_bytes(n: nat)
    requires
        n <= 256,
    ensures
        genesis_accounts_bytes(n).len() == 9 * n,
        forall|i: int|
            #![trigger genesis_accounts_bytes(n)[9 * i]]
            0 <= i < n ==> {
                &&& genesis_accounts_bytes(n)[9 * i] == i as u8
                &&& genesis_accounts_bytes(n).subrange(9 * i + 1, 9 * i + 9)
                    == spec_u64_to_le_bytes(GENESIS_BALANCE)
            },
    decreases n,
{
    lemma_auto_spec_u64_to_from_le_bytes();
    if n > 0 {
        let prev = genesis_accounts_bytes((n - 1) as nat);
        lemma_genesis_accounts_bytes((n - 1) as nat);
        let all = genesis_accounts_bytes(n);
        assert forall|i: int| #![trigger all[9 * i]] 0 <= i < n implies {
            &&& all[9 * i] == i as u8
            &&& all.subrange(9 * i + 1, 9 * i + 9) == spec_u64_to_le_bytes(GENESIS_BALANCE)
        } by {
            if i < n - 1 {
                assert(all[9 * i] == prev[9 * i]);
                assert(all.subrange(9 * i + 1, 9 * i + 9) =~= prev.subrange(9 * i + 1, 9 * i + 9));
            } else {
                assert(all.subrange(9 * i + 1, 9 * i + 9) =~= spec_u64_to_le_bytes(
                    GENESIS_BALANCE,
                ));
            }
        }
    }
}

/// The entry of account `i` in the genesis preimage of `epoch`.
pub open spec fn genesis_entry(epoch: u64, i: int) -> Seq<u8> {
    genesis_preimage(epoch).subrange(25 + 9 * i, 34 + 9 * i)
}

/// Law: the genesis preimage is the tag `krypto_genesis_v1` (17 bytes), the
/// epoch (8 bytes, little endian), then for each account `i` in
/// `0..NUM_ACCOUNTS` its index (1 byte) and the genesis balance (8 bytes,
/// little endian); different epochs have different preimages.
pub proof fn lemma_genesis_layout(epoch: u64, other: u64)
    ensures
        genesis_preimage(epoch).len() == 17 + 8 + 9 * NUM_ACCOUNTS,
        genesis_preimage(epoch).subrange(0, 17) == seq![
            107u8, 114, 121, 112, 116, 111, 95, 103, 101, 110, 101, 115, 105, 115, 95, 118, 49,
        ],
        genesis_preimage(epoch).subrange(17, 25) == spec_u64_to_le_bytes(epoch),
        forall|i: int|
            0 <= i < NUM_ACCOUNTS ==> #[trigger] genesis_entry(epoch, i) == seq![i as u8]
                + spec_u64_to_le_bytes(GENESIS_BALANCE),
        other != epoch ==> genesis_preimage(other) != genesis_preimage(epoch),
{
    lemma_auto_spec_u64_to_from_le_bytes();
    lemma_genesis_accounts_bytes(NUM_ACCOUNTS as nat);
    let pre = genesis_preimage(epoch);
    let acc = genesis_accounts_bytes(NUM_ACCOUNTS as nat);
    assert(pre.subrange(0, 17) =~= genesis_tag());
    assert(pre.subrange(17, 25) =~= spec_u64_to_le_bytes(epoch));
    assert forall|i: int| 0 <= i < NUM_ACCOUNTS implies #[trigger] genesis_entry(epoch, i)
        == seq![i as u8] + spec_u64_to_le_bytes(GENESIS_BALANCE) by {
        assert(pre[25 + 9 * i] == acc[9 * i]);
        assert(pre.subrange(26 + 9 * i, 34 + 9 * i) =~= acc.subrange(9 * i + 1, 9 * i + 9));
        assert(genesis_entry(epoch, i) =~= seq![acc[9 * i]] + acc.subrange(9 * i + 1, 9 * i + 9));
    }
    if other != epoch {
        let op = genesis_preimage(other);
        assert(op.subrange(17, 25) =~= spec_u64_to_le_bytes(other));
        if op == pre {
            assert(spec_u64_to_le_bytes(other) == spec_u64_to_le_bytes(epoch));
            assert(spec_u64_from_le_bytes(spec_u64_to_le_bytes(other)) == other);
        }
    }
}

} // verus!
