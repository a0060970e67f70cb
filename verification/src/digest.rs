//! The blake3 key derivation every minted identifier and content address
//! is computed with.
use vstd::prelude::*;

verus! {

/// The 32-byte blake3 key derived from `material` under the context string
/// `context`.
pub uninterp spec fn derived_key(context: Seq<char>, material: Seq<u8>) -> Seq<u8>;

/// `blake3::derive_key`: the 32-byte key blake3 derives from the key
/// material under the context string. Trusted to be a function of those two
/// arguments alone; its value is left to blake3.
#[verifier::external_body]
pub(crate) fn derive_key(context: &str, material: &[u8]) -> (r: [u8; 32])
    ensures
        r@ == derived_key(context@, material@),
{
    blake3::derive_key(context, material)
}

} // verus!
