//! Random choice of the next shape. The draw itself comes from an
//! outside generator; only the reduction to a catalog index is verified.

use vstd::prelude::*;
use crate::catalog::CATALOG_SIZE;

verus! {

/// Relies on rand::random: one value of the asked type, drawn from the
/// thread-local generator. Nothing is promised of the result.
pub assume_specification<T>[ rand::random::<T> ]() -> (r: T)
    where
        rand::distributions::Standard: rand::distributions::Distribution<T>,
;

/// The shape index for the next spawn: a random draw reduced to the
/// live catalog size, so every index below `CATALOG_SIZE` can come out
/// whatever the generator returned.
pub fn random_shape_index() -> (idx: usize)
    ensures
        idx < CATALOG_SIZE,
{
    let r: u32 = rand::random::<u32>();
    (r as usize) % CATALOG_SIZE
}

} // verus!
