use vstd::prelude::*;

use zeroize::Zeroize;

verus! {

/// Relies on zeroize::Zeroize for Vec<u8>: the buffer's bytes are
/// overwritten with zeros in a way the compiler will not elide, and the
/// vector is then emptied.
#[verifier::external_body]
pub(crate) fn wipe_vec(v: &mut Vec<u8>)
    ensures
        final(v)@.len() == 0,
{
    v.zeroize();
}

} // verus!
