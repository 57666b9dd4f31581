//! A marker for values that have been validated.

use vstd::prelude::*;

verus! {

/// A value of which its maker says that it was validated. Nothing is
/// checked when one is made: to make one of a value that was not
/// validated is the maker's error.
#[derive(Debug, Clone)]
pub struct Valid<T>(T);

impl<T> Valid<T> {
    /// The value that is held.
    pub closed spec fn inner(self) -> T {
        self.0
    }

    /// Marks `v` as validated, without looking at it.
    pub fn assume_valid(v: T) -> (r: Self)
        ensures
            r.inner() == v,
    {
        Valid(v)
    }

    /// The value that was marked.
    pub fn into_inner(self) -> (r: T)
        ensures
            r == self.inner(),
    {
        self.0
    }

    /// A look at the value that was marked.
    pub fn get(&self) -> (r: &T)
        ensures
            *r == self.inner(),
    {
        &self.0
    }
}

impl<T> core::ops::Deref for Valid<T> {
    type Target = T;

    fn deref(&self) -> (r: &T)
        ensures
            *r == self.inner(),
    {
        &self.0
    }
}

impl<T> core::ops::DerefMut for Valid<T> {
    fn deref_mut(&mut self) -> (r: &mut T)
        ensures
            *r == old(self).inner(),
            final(self).inner() == *final(r),
    {
        &mut self.0
    }
}

} // verus!
