//! A value that is reached only by those who own it or have it for themselves.

use vstd::prelude::*;
use vstd::std_specs::convert::FromSpecImpl;

verus! {

/// Gives no access to the value through a shared reference.
#[derive(Debug)]
pub struct Exclusive<T> {
    inner: T,
}

impl<T> View for Exclusive<T> {
    type V = T;

    closed spec fn view(&self) -> T {
        self.inner
    }
}

impl<T> Exclusive<T> {
    /// Wraps a value.
    #[must_use]
    pub fn new(t: T) -> (r: Self)
        ensures
            r@ == t,
    {
        Self { inner: t }
    }

    /// Unwraps the value.
    #[must_use]
    pub fn into_inner(self) -> (t: T)
        ensures
            t == self@,
    {
        self.inner
    }

    /// Gives access to the value.
    #[must_use]
    pub fn get_mut(&mut self) -> (r: &mut T)
        ensures
            *r == old(self)@,
            final(self)@ == *final(r),
    {
        &mut self.inner
    }

    /// A wrapped value, as a plain expression.
    pub closed spec fn wrapping(t: T) -> Self {
        Exclusive { inner: t }
    }
}

impl<T> FromSpecImpl<T> for Exclusive<T> {
    open spec fn obeys_from_spec() -> bool {
        true
    }

    open spec fn from_spec(t: T) -> Self {
        Exclusive::wrapping(t)
    }
}

impl<T> From<T> for Exclusive<T> {
    fn from(t: T) -> (r: Self) {
        Self::new(t)
    }
}

/// What is wrapped comes out again.
pub proof fn law_exclusive_keeps_the_value<T>(t: T)
    ensures
        Exclusive::wrapping(t)@ == t,
{
}

} // verus!
