//! Small helpers.

use vstd::prelude::*;

verus! {

/// Empties `vec` and hands back an empty vector for elements of another
/// type or lifetime.
pub fn vec_change_lifetime_move<T1, T2>(vec: Vec<T1>) -> (r: Vec<T2>)
    ensures
        r@ == Seq::<T2>::empty(),
{
    let mut vec = vec;
    vec.clear();
    Vec::new()
}

} // verus!
