//! Moves between fixed-size arrays and vectors.
//!
//! These are the only trusted items of the crate: `std` moves the elements
//! across, and the contracts say that the sequence of elements is unchanged.

use vstd::prelude::*;

verus! {

/// Relies on std's `impl From<[T; N]> for Vec<T>`: it moves the array's
/// elements into a vector, in order.
#[verifier::external_body]
pub(crate) fn array_into_vec<T, const N: usize>(a: [T; N]) -> (v: Vec<T>)
    ensures
        v@ == a@,
{
    Vec::from(a)
}

/// Relies on std's `impl TryFrom<Vec<T>> for [T; N]`: it moves the vector's
/// elements into an array when the length is exactly `N`, and gives the
/// vector back unchanged otherwise.
#[verifier::external_body]
pub(crate) fn vec_into_array<T, const N: usize>(v: Vec<T>) -> (r: Result<[T; N], Vec<T>>)
    ensures
        match r {
            Ok(a) => a@ == v@,
            Err(w) => w@ == v@ && v@.len() != N,
        },
{
    <[T; N]>::try_from(v)
}

} // verus!
