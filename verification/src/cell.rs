use vstd::prelude::*;
use crate::manual_copy::{Dv, ManualCopy};
use crate::threads::THREADS;

verus! {

/// A tracked value's storage: one replica of `T` per role. Reads go
/// through the caller's own role index; this layer does not police the
/// one-writer discipline (the dirty ledger above it does).
pub struct TrustCell<T> {
    r0: T,
    r1: T,
    r2: T,
}

impl<T: DeepView> View for TrustCell<T> {
    type V = Seq<Dv<T>>;

    closed spec fn view(&self) -> Seq<Dv<T>> {
        seq![self.r0.deep_view(), self.r1.deep_view(), self.r2.deep_view()]
    }
}

impl<T> TrustCell<T> {
    pub fn new(a0: T, a1: T, a2: T) -> (c: Self) where T: DeepView
        ensures
            c@ == seq![a0.deep_view(), a1.deep_view(), a2.deep_view()],
            c@.len() == THREADS,
    {
        TrustCell { r0: a0, r1: a1, r2: a2 }
    }

    /// Read access to one role's replica.
    pub fn get(&self, i: usize) -> (r: &T) where T: DeepView
        requires
            i < THREADS,
        ensures
            r.deep_view() == self@[i as int],
    {
        if i == 0 {
            &self.r0
        } else if i == 1 {
            &self.r1
        } else {
            &self.r2
        }
    }

    /// Write access to one role's replica: unchecked here, the layers
    /// above enforce that only the mutation role's replica is written.
    pub fn to_mut(&mut self, i: usize) -> (r: &mut T) where T: DeepView
        requires
            i < THREADS,
        ensures
            r.deep_view() == old(self)@[i as int],
            final(self)@ == old(self)@.update(i as int, final(r).deep_view()),
    {
        if i == 0 {
            &mut self.r0
        } else if i == 1 {
            &mut self.r1
        } else {
            &mut self.r2
        }
    }
}

impl<T: ManualCopy> TrustCell<T> {
    /// Merges the `from` replica into the `to` replica under the type's
    /// merge protocol.
    pub fn inner_manual_copy(&mut self, from: usize, to: usize)
        requires
            from < THREADS,
            to < THREADS,
            from != to,
        ensures
            final(self)@ == old(self)@
                .update(to as int, T::merge_dst(old(self)@[to as int], old(self)@[from as int]))
                .update(from as int, T::merge_src(old(self)@[to as int], old(self)@[from as int])),
    {
        if from == 0 && to == 1 {
            self.r1.copy_from(&mut self.r0);
        } else if from == 0 && to == 2 {
            self.r2.copy_from(&mut self.r0);
        } else if from == 1 && to == 0 {
            self.r0.copy_from(&mut self.r1);
        } else if from == 1 && to == 2 {
            self.r2.copy_from(&mut self.r1);
        } else if from == 2 && to == 0 {
            self.r0.copy_from(&mut self.r2);
        } else {
            self.r1.copy_from(&mut self.r2);
        }
        assert(final(self)@ =~= old(self)@
            .update(to as int, T::merge_dst(old(self)@[to as int], old(self)@[from as int]))
            .update(from as int, T::merge_src(old(self)@[to as int], old(self)@[from as int])));
    }

    /// Runs the type's cleanup on the `to` replica.
    pub fn inner_manual_clear(&mut self, to: usize)
        requires
            to < THREADS,
        ensures
            final(self)@ == old(self)@.update(to as int, T::cleared(old(self)@[to as int])),
    {
        if to == 0 {
            self.r0.clear();
        } else if to == 1 {
            self.r1.clear();
        } else {
            self.r2.clear();
        }
        assert(final(self)@ =~= old(self)@.update(to as int, T::cleared(old(self)@[to as int])));
    }
}

} // verus!
