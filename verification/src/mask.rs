//! Subnet masks of IPv4 prefix lengths.

use vstd::prelude::*;

verus! {

/// The longest prefix an IPv4 address has.
pub const MAX_PREFIX: u8 = 32;

/// The 32-bit network mask of a prefix length: zero for the empty prefix,
/// else the complement of the `32 - prefix` low bits.
pub open spec fn mask_bits(prefix: u8) -> u32
    recommends
        prefix <= 32,
{
    if prefix == 0 {
        0u32
    } else {
        !(((1u32 << ((32 - prefix) as u32)) - 1) as u32)
    }
}

/// The mask of a prefix has exactly its `prefix` highest bits set: counted
/// from the top, bit `i` is set if and only if `i < prefix`.
pub proof fn lemma_mask_top_bits(prefix: u8, i: u32)
    requires
        prefix <= 32,
        i < 32,
    ensures
        ((mask_bits(prefix) >> ((31 - i) as u32)) & 1 == 1) <==> i < prefix,
{
    let p: u32 = prefix as u32;
    let m: u32 = mask_bits(prefix);
    assert(((m >> ((31 - i) as u32)) & 1 == 1) <==> i < p) by (bit_vector)
        requires
            p <= 32,
            i < 32,
            m == (if p == 0 {
                0u32
            } else {
                !(((1u32 << ((32 - p) as u32)) - 1) as u32)
            }),
    ;
}

/// Computes the network mask of `prefix`, or `None` when `prefix` exceeds 32.
pub fn prefix_mask(prefix: u8) -> (mask: Option<u32>)
    ensures
        prefix <= 32 ==> mask == Some(mask_bits(prefix)),
        prefix > 32 ==> mask is None,
{
    if prefix > MAX_PREFIX {
        return None;
    }
    if prefix == 0 {
        Some(0u32)
    } else {
        let shift: u32 = (32 - prefix) as u32;
        assert((1u32 << shift) >= 1) by (bit_vector)
            requires
                shift < 32,
        ;
        Some(!((1u32 << shift) - 1))
    }
}

} // verus!
