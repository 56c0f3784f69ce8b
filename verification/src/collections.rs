use vstd::prelude::*;

pub mod key;
pub mod sorted_linear_map;
pub mod arena;

verus! {

/// The elements of `v` in the opposite order.
pub fn reversed<T>(v: Vec<T>) -> (r: Vec<T>)
    ensures
        r@.len() == v@.len(),
        forall|j: int| 0 <= j < v@.len() ==> r@[j] == v@[v@.len() - 1 - j],
{
    let ghost orig = v@;
    let mut v = v;
    let mut r: Vec<T> = Vec::new();
    while v.len() > 0
        invariant
            v@.len() + r@.len() == orig.len(),
            forall|j: int| 0 <= j < v@.len() ==> v@[j] == orig[j],
            forall|j: int| 0 <= j < r@.len() ==> r@[j] == orig[orig.len() - 1 - j],
        decreases v@.len(),
    {
        match v.pop() {
            Some(x) => r.push(x),
            None => {},
        }
    }
    r
}

} // verus!
