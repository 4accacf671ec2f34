use vstd::prelude::*;

verus! {

/// Relies on rand::random for one uniformly drawn `isize`; nothing is known
/// of the value.
#[verifier::external_body]
fn random_isize() -> isize {
    rand::random::<isize>()
}

/// The vector `0, 1, ..., length - 1`.
pub fn generate_vec(length: usize) -> (v: Vec<usize>)
    ensures
        v@.len() == length,
        forall|i: int| 0 <= i < length ==> v@[i] == i,
{
    let mut v: Vec<usize> = Vec::with_capacity(length);
    let mut i: usize = 0;
    while i < length
        invariant
            i <= length,
            v@.len() == i,
            forall|k: int| 0 <= k < i ==> v@[k] == k,
        decreases length - i,
    {
        v.push(i);
        i = i + 1;
    }
    v
}

/// A vector of `length` random integers, each drawn on its own.
pub fn generate_random_vec(length: usize) -> (v: Vec<isize>)
    ensures
        v@.len() == length,
{
    let mut v: Vec<isize> = Vec::with_capacity(length);
    let mut i: usize = 0;
    while i < length
        invariant
            i <= length,
            v@.len() == i,
        decreases length - i,
    {
        v.push(random_isize());
        i = i + 1;
    }
    v
}

} // verus!
