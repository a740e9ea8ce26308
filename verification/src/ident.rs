//! Fresh volume identifiers.

use crate::types::VolumeId;
use vstd::prelude::*;

verus! {

/// Whether `bits` are the bits of a random UUID: version 4 in the four bits
/// from bit 76, the variant of RFC 9562 in the two bits from bit 62.
pub open spec fn is_random_uuid(bits: u128) -> bool {
    bits & 0x0000_0000_0000_f000_c000_0000_0000_0000 == 0x0000_0000_0000_4000_8000_0000_0000_0000
}

/// Draws a random UUID with `uuid::Uuid::new_v4` and gives its bits as
/// `Uuid::as_u128` packs them.
///
/// Not proved: that the version and variant bits are set as `is_random_uuid`
/// says, which `new_v4` does by masking.  The other 122 bits come from the
/// operating system's random number generator and nothing is claimed of them,
/// least of all that two draws differ.  `new_v4` panics if the generator
/// fails.
#[verifier::external_body]
fn random_uuid_bits() -> (bits: u128)
    ensures
        is_random_uuid(bits),
{
    uuid::Uuid::new_v4().as_u128()
}

impl Default for VolumeId {
    /// A random identifier.
    fn default() -> (id: VolumeId)
        ensures
            is_random_uuid(id.0),
    {
        VolumeId(random_uuid_bits())
    }
}

} // verus!
