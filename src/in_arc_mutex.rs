//! A lens adapter: holds a lens from `A` to `B` so that a user interface can
//! reach `B` through a shared, locked `A`. The locking itself belongs to the
//! interface layer; this type only carries the inner lens there and back.
use vstd::prelude::*;

verus! {

pub struct InArcMutex<L> {
    inner: L,
}

impl<L> InArcMutex<L> {
    /// The lens this adapter carries.
    pub closed spec fn lens(&self) -> L {
        self.inner
    }

    pub fn new(inner: L) -> (r: Self)
        ensures
            r.lens() == inner,
    {
        Self { inner }
    }

    /// The inner lens, by reference.
    pub fn inner(&self) -> (r: &L)
        ensures
            *r == self.lens(),
    {
        &self.inner
    }

    /// Gives the inner lens back.
    pub fn into_inner(self) -> (r: L)
        ensures
            r == self.lens(),
    {
        self.inner
    }
}

} // verus!
