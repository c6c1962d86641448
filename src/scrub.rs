//! Overwriting plaintext buffers.

use vstd::prelude::*;
use zeroize::Zeroize;

verus! {

/// Relies on zeroize's `Zeroize for String`: the bytes and the spare
/// capacity are overwritten with zeros and the string is left empty.
#[verifier::external_body]
pub(crate) fn scrub(s: &mut String)
    ensures
        final(s)@.len() == 0,
{
    s.zeroize();
}

} // verus!
