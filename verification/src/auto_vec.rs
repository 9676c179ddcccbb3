//! A vector that grows to whatever index is written.

use vstd::prelude::*;

verus! {

/// A vector that reads as `fill` wherever nothing was stored, and that
/// extends itself with `fill` up to an index that is written.
#[derive(Debug)]
pub struct AutoVec<T> {
    fill: T,
    vec: Vec<T>,
}

/// `stored`, filled up with `fill` to the length `len` where it is shorter.
pub open spec fn filled_to<T>(stored: Seq<T>, fill: T, len: int) -> Seq<T> {
    if stored.len() >= len {
        stored
    } else {
        stored + Seq::new((len - stored.len()) as nat, |i: int| fill)
    }
}

/// `num_traits::SaturatingAdd::saturating_add` on two `u8`: the sum, or 255
/// where the sum is larger. The crate hands the call on to
/// `u8::saturating_add`.
#[verifier::external_body]
fn saturating_add_u8(a: u8, b: u8) -> (sum: u8)
    ensures
        sum == if a + b > u8::MAX {
            u8::MAX as int
        } else {
            a + b
        },
{
    num_traits::SaturatingAdd::saturating_add(&a, &b)
}

impl<T: Clone + Copy> AutoVec<T> {
    /// The value that unwritten places hold.
    pub closed spec fn fill(&self) -> T {
        self.fill
    }

    /// The places that exist so far.
    pub closed spec fn view(&self) -> Seq<T> {
        self.vec@
    }

    /// What place `i` reads as.
    pub open spec fn get(&self, i: int) -> T {
        if 0 <= i < self@.len() {
            self@[i]
        } else {
            self.fill()
        }
    }

    /// An empty vector whose unwritten places read as `fill`.
    pub fn new(fill: T) -> (r: Self)
        ensures
            r@ == Seq::<T>::empty(),
            r.fill() == fill,
    {
        Self { fill, vec: Vec::new() }
    }

    /// Extends the vector with `fill` until place `i` exists.
    fn extend_to(&mut self, i: usize)
        requires
            i < usize::MAX,
        ensures
            final(self).fill() == old(self).fill(),
            final(self)@ == filled_to(old(self)@, old(self).fill(), i + 1),
    {
        while self.vec.len() <= i
            invariant
                self.fill == old(self).fill,
                self.vec@.len() <= i + 1 || self.vec@ == old(self).vec@,
                self.vec@.len() >= old(self).vec@.len(),
                self.vec@ =~= old(self).vec@ + Seq::new(
                    (self.vec@.len() - old(self).vec@.len()) as nat,
                    |k: int| old(self).fill,
                ),
            decreases i + 1 - self.vec@.len(),
        {
            let fill = self.fill;
            self.vec.push(fill);
        }
        proof {
            assert(self.vec@ =~= filled_to(old(self)@, old(self).fill(), i + 1));
        }
    }

    /// Writes `val` to place `i`, extending the vector up to it.
    pub fn set(&mut self, i: usize, val: T)
        requires
            i < usize::MAX,
        ensures
            final(self).fill() == old(self).fill(),
            final(self)@ == filled_to(old(self)@, old(self).fill(), i + 1).update(i as int, val),
    {
        self.extend_to(i);
        self.vec.set(i, val);
    }

    /// What place `i` reads as.
    pub fn get_copy(&self, i: usize) -> (r: T)
        ensures
            r == self.get(i as int),
    {
        if i < self.vec.len() {
            self.vec[i]
        } else {
            self.fill
        }
    }

    /// Place `i` for writing, after extending the vector up to it.
    pub fn get_mut(&mut self, i: usize) -> (r: &mut T)
        requires
            i < usize::MAX,
        ensures
            *r == old(self).get(i as int),
            final(self).fill() == old(self).fill(),
            final(self)@ == filled_to(old(self)@, old(self).fill(), i + 1).update(
                i as int,
                *final(r),
            ),
    {
        self.extend_to(i);
        &mut self.vec[i]
    }

    /// The number of places that exist.
    pub fn len(&self) -> (r: usize)
        ensures
            r == self@.len(),
    {
        self.vec.len()
    }
}

impl AutoVec<u8> {
    /// Adds one to place `i`, stopping at 255, and returns the new value.
    pub fn saturating_inc(&mut self, i: usize) -> (r: u8)
        requires
            i < usize::MAX,
        ensures
            r == if old(self).get(i as int) == u8::MAX {
                u8::MAX as int
            } else {
                old(self).get(i as int) + 1
            },
            final(self).fill() == old(self).fill(),
            final(self)@ == filled_to(old(self)@, old(self).fill(), i + 1).update(i as int, r),
    {
        let val = self.get_mut(i);
        let new_val = saturating_add_u8(*val, 1);
        *val = new_val;
        new_val
    }
}

} // verus!
