//! Account addresses.

use vstd::prelude::*;

verus! {

/// Number of bytes in an account address.
pub const PUBKEY_BYTES: usize = 32;

/// The address of an account.
pub type Pubkey = [u8; 32];

/// Compares two addresses byte by byte.
pub fn pubkey_eq(a: &Pubkey, b: &Pubkey) -> (equal: bool)
    ensures
        equal == (*a == *b),
{
    let mut i: usize = 0;
    while i < PUBKEY_BYTES
        invariant
            i <= PUBKEY_BYTES,
            forall|j: int| 0 <= j < i ==> a@[j] == b@[j],
        decreases PUBKEY_BYTES - i,
    {
        if a[i] != b[i] {
            return false;
        }
        i = i + 1;
    }
    assert(*a =~= *b);
    true
}

} // verus!
