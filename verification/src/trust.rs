use vstd::prelude::*;

verus! {

/// A plain wrapper for a value that the protocol's discipline, rather
/// than the type system, keeps safe to hand between roles. The embedding
/// application decides what sharing it declares for its own copies; the
/// wrapper itself only carries the value.
#[derive(Clone)]
pub struct Trust<T> {
    inner: T,
}

impl<T> Trust<T> {
    /// The wrapped value.
    pub closed spec fn inner_spec(&self) -> T {
        self.inner
    }

    pub fn new(inner: T) -> (t: Trust<T>)
        ensures
            t.inner_spec() == inner,
    {
        Trust { inner }
    }

    /// Read access to the wrapped value (what dereferencing meant).
    pub fn get(&self) -> (r: &T)
        ensures
            r == self.inner_spec(),
    {
        &self.inner
    }

    /// Hands the wrapped value back out.
    pub fn into_inner(self) -> (r: T)
        ensures
            r == self.inner_spec(),
    {
        self.inner
    }
}

} // verus!
