use vstd::bytes::spec_u64_from_le_bytes;
use vstd::prelude::*;

use crate::identity::Identity;

verus! {

/// The 64-bit value that the oracle SDK derives from 32 random bytes: bytes
/// 0, 4, 8, ..., 28 read as a little-endian integer, so that every part of the
/// random value contributes.
pub open spec fn derive_uint(randomness: Seq<u8>) -> u64 {
    spec_u64_from_le_bytes(
        seq![
            randomness[0], randomness[4], randomness[8], randomness[12],
            randomness[16], randomness[20], randomness[24], randomness[28],
        ],
    )
}

/// Address of the oracle's signing identity,
/// `9irBy75QS2BN81FUgXuHcjqceJJRuc9oDkAe8TKVvvAw`, as bytes.
pub open spec fn oracle_identity_key() -> Seq<u8> {
    seq![
        129u8, 149, 237, 71, 27, 236, 243, 116, 219, 84, 34, 221, 119, 231, 249, 254,
        170, 194, 114, 165, 249, 93, 38, 97, 146, 155, 47, 105, 113, 22, 94, 252,
    ]
}

/// Relies on `ephemeral_vrf_sdk::rnd::random_u64`, which builds its result
/// with `u64::from_le_bytes` from bytes 0, 4, 8, ..., 28 of its argument.
#[verifier::external_body]
pub(crate) fn random_u64(randomness: &[u8; 32]) -> (r: u64)
    ensures
        r == derive_uint(randomness@),
{
    ephemeral_vrf_sdk::rnd::random_u64(randomness)
}

/// Relies on `ephemeral_vrf_sdk::consts::VRF_PROGRAM_IDENTITY`, the identity
/// that signs the oracle's callbacks, declared there as
/// `pubkey!("9irBy75QS2BN81FUgXuHcjqceJJRuc9oDkAe8TKVvvAw")`.
#[verifier::external_body]
pub(crate) fn oracle_identity() -> (r: Identity)
    ensures
        r.key() == oracle_identity_key(),
{
    Identity { bytes: ephemeral_vrf_sdk::consts::VRF_PROGRAM_IDENTITY.to_bytes() }
}

} // verus!
