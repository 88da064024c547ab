//! The operating system's random source.
use vstd::prelude::*;

verus! {

/// The failure of the operating system's random source.
#[verifier::external_type_specification]
#[verifier::external_body]
pub struct ExRandomError(getrandom::Error);

/// Fills `len` bytes with `getrandom::getrandom`, the operating system's
/// random source. What is claimed is the number of bytes; the bytes
/// themselves are random, so nothing is claimed of them.
#[verifier::external_body]
pub(crate) fn random_bytes(len: usize) -> (r: Result<Vec<u8>, getrandom::Error>)
    ensures
        r matches Ok(bytes) ==> bytes@.len() == len,
{
    let mut bytes = vec![0_u8; len];
    getrandom::getrandom(&mut bytes)?;
    Ok(bytes)
}

} // verus!
