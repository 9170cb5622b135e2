//! A small client-side toolkit: a base64 codec with an exact output-size
//! formula, the lifecycle rules of a secure-transport client session, and a
//! reader for the key/value settings file that names the server to talk to.
use vstd::prelude::*;

pub mod base64;
pub mod config;
pub mod tls;

verus! {

/// Overwrites every byte of `bytes` with zero.
///
/// Meant for buffers that held secret material: call it right after the
/// last use of the secret and before the storage is released.
pub fn wipe(bytes: &mut [u8])
    ensures
        final(bytes)@.len() == old(bytes)@.len(),
        forall|i: int| 0 <= i < final(bytes)@.len() ==> final(bytes)@[i] == 0u8,
{
    let n: usize = bytes.len();
    let mut i: usize = 0;
    while i < n
        invariant
            i <= n,
            n == bytes@.len(),
            bytes@.len() == old(bytes)@.len(),
            forall|k: int| 0 <= k < i ==> bytes@[k] == 0u8,
        decreases n - i,
    {
        bytes[i] = 0;
        i += 1;
    }
}

} // verus!
