//! Arrays of a fixed length as tuples of their elements: how an array of any
//! length `N` is taken apart into the `N` elements that are written, and put
//! together again from the elements that were read.

use vstd::prelude::*;

verus! {

/// Returned where fewer elements were read than the array has.
#[derive(Clone, Copy, Debug, PartialEq, Eq, Structural)]
pub struct InvalidLength {
    /// The length of the array that was asked for.
    pub len: usize,
}

/// The conversion of std from `Vec<T>` to `[T; N]` (`TryFrom`): it gives the
/// whole contents of the vector as an array where the vector has exactly `N`
/// elements, and fails where it has any other number.
#[verifier::external_body]
fn into_array<T, const N: usize>(elements: Vec<T>) -> (array: Option<[T; N]>)
    ensures
        array is Some <==> elements@.len() == N,
        array matches Some(a) ==> a@ == elements@,
{
    <[T; N]>::try_from(elements).ok()
}

/// The elements of `data` that make up its tuple: all `N` of them, in the
/// order of the array.
pub fn serialize<T, const N: usize>(data: &[T; N]) -> (elements: Vec<&T>)
    ensures
        elements@.len() == N,
        forall|i: int| 0 <= i < N ==> *(#[trigger] elements@[i]) == data@[i],
{
    let mut elements: Vec<&T> = Vec::new();
    let mut i: usize = 0;
    while i < N
        invariant
            i <= N,
            elements@.len() == i,
            forall|j: int| 0 <= j < i ==> *(#[trigger] elements@[j]) == data@[j],
        decreases N - i,
    {
        elements.push(&data[i]);
        i = i + 1;
    }
    elements
}

/// The array made of the first `N` of the elements that were read, in their
/// order. With fewer than `N` elements there is no array, and the error names
/// the length `N` that was asked for.
pub fn deserialize<T, const N: usize>(elements: Vec<T>) -> (result: Result<[T; N], InvalidLength>)
    ensures
        elements@.len() >= N ==> (result matches Ok(array) && array@ == elements@.take(N as int)),
        elements@.len() < N ==> result == Err::<[T; N], InvalidLength>(InvalidLength { len: N }),
{
    if elements.len() < N {
        return Err(InvalidLength { len: N });
    }
    let mut elements = elements;
    elements.truncate(N);
    match into_array(elements) {
        Some(array) => Ok(array),
        None => Err(InvalidLength { len: N }),
    }
}

} // verus!
