//! Random bytes from the operating system.

use vstd::prelude::*;
use rand::rngs::OsRng;
use rand::TryRngCore;

verus! {

/// The error of the operating system's random source.
#[verifier::external_type_specification]
#[verifier::external_body]
pub struct ExOsError(rand::rand_core::OsError);

/// Calls `OsRng::try_fill_bytes` of `rand` on a fresh buffer of `N` bytes and
/// hands out the buffer if the source filled it. Nothing is claimed of the
/// bytes, nor of when the source fails: two draws need not agree.
#[verifier::external_body]
pub(crate) fn os_random<const N: usize>() -> (r: Result<[u8; N], rand::rand_core::OsError>) {
    let mut bytes = [0u8; N];
    match OsRng.try_fill_bytes(&mut bytes) {
        Ok(()) => Ok(bytes),
        Err(e) => Err(e),
    }
}

} // verus!
