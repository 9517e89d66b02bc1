//! The address under which the consensus engine knows a validator.

use crate::keys::{ConsensusAddress, ConsensusKey};
use sha2::{Digest, Sha256};
use vstd::prelude::*;

verus! {

/// The SHA-256 digest of a byte string.
pub uninterp spec fn sha256(data: Seq<u8>) -> Seq<u8>;

/// Calls `Sha256::digest` of the `sha2` crate on the 32 bytes of a key. The
/// contract claims that the 32 bytes returned are the SHA-256 digest of the
/// input, which is a function of the input alone.
#[verifier::external_body]
fn sha256_digest(data: &[u8; 32]) -> (digest: [u8; 32])
    ensures
        digest@ == sha256(data@),
{
    Sha256::digest(data).into()
}

/// The address made of the first 20 bytes of a digest.
pub fn address_of_digest(digest: &[u8; 32]) -> (address: ConsensusAddress)
    ensures
        address.0@ == digest@.take(20),
{
    let mut bytes: [u8; 20] = [0u8; 20];
    let mut i: usize = 0;
    while i < 20
        invariant
            i <= 20,
            forall|j: int| 0 <= j < i ==> bytes@[j] == digest@[j],
        decreases 20 - i,
    {
        bytes[i] = digest[i];
        i = i + 1;
    }
    assert(bytes@ =~= digest@.take(20));
    ConsensusAddress(bytes)
}

/// Translates a consensus key to the address that votes and evidence carry:
/// the first 20 bytes of the SHA-256 digest of the key.
pub fn validator_address(ck: &ConsensusKey) -> (address: ConsensusAddress)
    ensures
        address == spec_validator_address(*ck),
        address.0@ == sha256(ck.0@).take(20),
{
    let digest = sha256_digest(&ck.0);
    let address = address_of_digest(&digest);
    proof {
        assert(address.0 =~= spec_validator_address(*ck).0);
    }
    address
}

/// The address of a consensus key.
pub open spec fn spec_validator_address(ck: ConsensusKey) -> ConsensusAddress {
    choose|address: ConsensusAddress| address.0@ == sha256(ck.0@).take(20)
}

} // verus!
