//! Small helpers shared across the crate.
use vstd::prelude::*;

verus! {

/// One list followed by another.
pub fn merge<T>(first: Vec<T>, second: Vec<T>) -> (r: Vec<T>)
    ensures
        r@ == first@ + second@,
{
    let mut r = first;
    let mut s = second;
    r.append(&mut s);
    r
}

} // verus!
