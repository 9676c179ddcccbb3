//! A pool of handles that are costly to make and cheap to keep.

use vstd::prelude::*;

verus! {

/// The idle handles of a pool, and the factory that makes a new one where
/// none is idle. A handle that is taken leaves the pool and comes back with
/// `enqueue`; the pool itself never drops one.
#[verifier::reject_recursive_types(T)]
#[verifier::reject_recursive_types(F)]
pub struct Pool<T, F: Fn() -> T> {
    items: Vec<T>,
    new_item: F,
}

impl<T, F: Fn() -> T> Pool<T, F> {
    /// The idle handles, the one taken next last.
    pub closed spec fn idle(&self) -> Seq<T> {
        self.items@
    }

    /// The factory of the pool.
    pub closed spec fn factory(&self) -> F {
        self.new_item
    }

    /// A pool without handles.
    pub fn new(new_item: F) -> (r: Self)
        ensures
            r.idle() == Seq::<T>::empty(),
            r.factory() == new_item,
    {
        Pool { items: Vec::new(), new_item }
    }

    /// Takes a handle out of the pool: the one that came back last, or a
    /// new one from the factory where none is idle.
    pub fn get_item(&mut self) -> (item: T)
        requires
            call_requires(old(self).factory(), ()),
        ensures
            final(self).factory() == old(self).factory(),
            old(self).idle().len() > 0 ==> item == old(self).idle().last() && final(self).idle()
                == old(self).idle().drop_last(),
            old(self).idle().len() == 0 ==> call_ensures(old(self).factory(), (), item)
                && final(self).idle() == old(self).idle(),
    {
        match self.items.pop() {
            Some(item) => item,
            None => (self.new_item)(),
        }
    }

    /// Puts a handle into the pool.
    pub fn enqueue(&mut self, item: T)
        ensures
            final(self).factory() == old(self).factory(),
            final(self).idle() == old(self).idle().push(item),
    {
        self.items.push(item);
    }

    /// The number of idle handles.
    pub fn num_idle(&self) -> (n: usize)
        ensures
            n == self.idle().len(),
    {
        self.items.len()
    }
}

} // verus!
