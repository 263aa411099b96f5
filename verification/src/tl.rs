use vstd::prelude::*;
use crate::cell::TrustCell;
use crate::manual_copy::ManualCopy;
use crate::sync::{mutate_spec, Ctx, CtxView, GetPtr, ProtocolError};
use crate::threads::{MUTATE_THREAD_INDEX, THREADS};

verus! {

/// Handle to one tracked value of a context. Copies of a handle share
/// the same identity, so every copy names the same replicas, ledger
/// entries and listener triggers.
#[derive(Clone, Copy, PartialEq, Eq, Structural, Debug)]
pub struct Tl {
    id: usize,
}

impl GetPtr for Tl {
    closed spec fn ptr_spec(&self) -> usize {
        self.id
    }

    fn get_ptr(&self) -> usize {
        self.id
    }
}

impl Tl {
    /// Tracks a new value: every role starts from its own exact copy of
    /// the seed.
    pub fn new<T: ManualCopy>(ctx: &mut Ctx<T>, value: T) -> (h: Tl)
        requires
            old(ctx).wf(),
        ensures
            h.ptr_spec() == old(ctx)@.cells.len(),
            final(ctx)@ == (CtxView {
                cells: old(ctx)@.cells.push(
                    seq![value.deep_view(), value.deep_view(), value.deep_view()],
                ),
                ..old(ctx)@
            }),
            final(ctx).wf(),
    {
        let t1 = value.duplicate();
        let t2 = value.duplicate();
        let cell = TrustCell::new(value, t1, t2);
        let id = ctx.add_cell(cell);
        Tl { id }
    }

    /// Tracks a new value with one explicitly chosen replica per role.
    pub fn new_advanced<T: ManualCopy>(ctx: &mut Ctx<T>, a0: T, a1: T, a2: T) -> (h: Tl)
        requires
            old(ctx).wf(),
        ensures
            h.ptr_spec() == old(ctx)@.cells.len(),
            final(ctx)@ == (CtxView {
                cells: old(ctx)@.cells.push(
                    seq![a0.deep_view(), a1.deep_view(), a2.deep_view()],
                ),
                ..old(ctx)@
            }),
            final(ctx).wf(),
    {
        let cell = TrustCell::new(a0, a1, a2);
        let id = ctx.add_cell(cell);
        Tl { id }
    }

    /// Reads the calling role's replica (what dereferencing the handle
    /// meant in a role's own thread).
    pub fn get<'a, T: ManualCopy>(&self, ctx: &'a Ctx<T>, role: usize) -> (r: &'a T)
        requires
            ctx.wf(),
            role < THREADS,
            self.ptr_spec() < ctx@.cells.len(),
        ensures
            r.deep_view() == ctx@.cells[self.ptr_spec() as int][role as int],
    {
        ctx.cell_get(self.id, role)
    }

    /// The guarded mutation entry point: records the mutation in the
    /// calling role's dirty ledger, then writes the value into the
    /// mutation role's replica. A second mutation in the same cycle, or
    /// a mutation of a value already fully propagated from another role,
    /// is rejected and leaves the context untouched.
    pub fn to_mut<T: ManualCopy>(&self, ctx: &mut Ctx<T>, caller: usize, value: T) -> (r: Result<
        (),
        ProtocolError,
    >)
        requires
            old(ctx).wf(),
            caller < THREADS,
            self.ptr_spec() < old(ctx)@.cells.len(),
        ensures
            r == mutate_spec::<T>(
                old(ctx)@,
                self.ptr_spec(),
                caller as int,
                value.deep_view(),
                true,
            ).1,
            final(ctx)@ == mutate_spec::<T>(
                old(ctx)@,
                self.ptr_spec(),
                caller as int,
                value.deep_view(),
                true,
            ).0,
            final(ctx).wf(),
    {
        match ctx.mark_dirty(self.id, caller, true) {
            Ok(()) => {
                ctx.set_replica(self.id, MUTATE_THREAD_INDEX, value);
                proof {
                    assert(ctx@ =~= mutate_spec::<T>(
                        old(ctx)@,
                        self.ptr_spec(),
                        caller as int,
                        value.deep_view(),
                        true,
                    ).0);
                }
                Ok(())
            },
            Err(e) => Err(e),
        }
    }

    /// The relaxed mutation entry point used by one-shot queues: a
    /// second mutation in the same cycle coalesces instead of failing;
    /// only mutation of a value already fully propagated from another
    /// role is rejected.
    pub fn to_mut_advanced<T: ManualCopy>(
        &self,
        ctx: &mut Ctx<T>,
        caller: usize,
        value: T,
    ) -> (r: Result<(), ProtocolError>)
        requires
            old(ctx).wf(),
            caller < THREADS,
            self.ptr_spec() < old(ctx)@.cells.len(),
        ensures
            r == mutate_spec::<T>(
                old(ctx)@,
                self.ptr_spec(),
                caller as int,
                value.deep_view(),
                false,
            ).1,
            final(ctx)@ == mutate_spec::<T>(
                old(ctx)@,
                self.ptr_spec(),
                caller as int,
                value.deep_view(),
                false,
            ).0,
            final(ctx).wf(),
    {
        match ctx.mark_dirty(self.id, caller, false) {
            Ok(()) => {
                ctx.set_replica(self.id, MUTATE_THREAD_INDEX, value);
                proof {
                    assert(ctx@ =~= mutate_spec::<T>(
                        old(ctx)@,
                        self.ptr_spec(),
                        caller as int,
                        value.deep_view(),
                        false,
                    ).0);
                }
                Ok(())
            },
            Err(e) => Err(e),
        }
    }
}

} // verus!
