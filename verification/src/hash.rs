//! Address hashes: sixteen opaque bytes that name a destination.

use vstd::prelude::*;

verus! {

/// Sixteen opaque bytes that name a destination. Two hashes are the same
/// destination exactly when all their bytes agree.
pub type AddressHash = [u8; 16];

/// Whether two hashes hold the same sixteen bytes.
pub fn same_hash(a: &AddressHash, b: &AddressHash) -> (r: bool)
    ensures
        r == (*a == *b),
        r == (a@ == b@),
{
    let mut i: usize = 0;
    while i < 16
        invariant
            0 <= i <= 16,
            forall|j: int| 0 <= j < i ==> a@[j] == b@[j],
        decreases 16 - i,
    {
        if a[i] != b[i] {
            return false;
        }
        i += 1;
    }
    assert(a@ =~= b@);
    assert(*a =~= *b);
    true
}

} // verus!
