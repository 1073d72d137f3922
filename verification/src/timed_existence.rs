//! Two hooks around the taking of a lock and the time it is held. In this build they
//! measure nothing: the wrapper hands its object through and the timer runs its
//! closure.

use vstd::prelude::*;

verus! {

/// An object together with the reason it was taken hold of.
pub struct TimedExistence<T>(pub T);

impl<T> TimedExistence<T> {
    /// Wraps `object`.
    pub fn new(object: T, _reason: &'static str) -> (r: TimedExistence<T>)
        ensures
            r.0 == object,
    {
        TimedExistence(object)
    }

    /// The object.
    pub fn value(&self) -> (r: &T)
        ensures
            *r == self.0,
    {
        &self.0
    }

    /// The object, given back.
    pub fn into_inner(self) -> (r: T)
        ensures
            r == self.0,
    {
        self.0
    }
}

/// Runs `f` and returns what it returns.
pub fn timeit<R, F: FnOnce() -> R>(_name: &'static str, f: F) -> (r: R)
    requires
        f.requires(()),
    ensures
        f.ensures((), r),
{
    f()
}

} // verus!
