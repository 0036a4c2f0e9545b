//! Endpoint ids: the public keys by which nodes are known.

use vstd::prelude::*;

verus! {

/// A public key, as two big-endian halves.
pub type EndpointId = (u128, u128);

/// The endpoint id that a text denotes.
pub uninterp spec fn endpoint_of(text: Seq<char>) -> Option<(u128, u128)>;

/// `iroh_base::PublicKey`'s `FromStr` reads a key in hex or in base32, and `as_bytes`
/// gives its 32 bytes; a text that is no key has no id.
#[verifier::external_body]
pub(crate) fn parse_endpoint(text: &str) -> (r: Option<(u128, u128)>)
    ensures
        r == endpoint_of(text@),
{
    let key = text.parse::<iroh_base::PublicKey>().ok()?;
    let (hi, lo) = key.as_bytes().split_at(16);
    let hi = u128::from_be_bytes(hi.try_into().ok()?);
    let lo = u128::from_be_bytes(lo.try_into().ok()?);
    Some((hi, lo))
}

} // verus!
