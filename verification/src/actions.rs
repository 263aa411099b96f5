use vstd::prelude::*;
use crate::manual_copy::{Dv, ManualCopy};
use crate::sync::{mutate_spec, Ctx, CtxView, GetPtr, ProtocolError};
use crate::threads::{MUTATE_THREAD_INDEX, THREADS};
use crate::tl::Tl;

verus! {

/// The storage of a one-shot event queue: a batch of pending events.
/// Its merge protocol drains the source into the destination, and its
/// cleanup empties the replica, so an event is delivered once and then
/// gone.
pub struct Wrapper<T>(Vec<T>);

impl<T: DeepView> DeepView for Wrapper<T> {
    type V = Seq<Dv<T>>;

    closed spec fn deep_view(&self) -> Seq<Dv<T>> {
        self.0.deep_view()
    }
}

impl<T: ManualCopy> ManualCopy for Wrapper<T> {
    open spec fn merge_dst(dst: Seq<Dv<T>>, src: Seq<Dv<T>>) -> Seq<Dv<T>> {
        src
    }

    open spec fn merge_src(dst: Seq<Dv<T>>, src: Seq<Dv<T>>) -> Seq<Dv<T>> {
        Seq::empty()
    }

    open spec fn cleared(v: Seq<Dv<T>>) -> Seq<Dv<T>> {
        Seq::empty()
    }

    fn copy_from(&mut self, other: &mut Wrapper<T>) {
        self.0.clear();
        self.0.append(&mut other.0);
        proof {
            assert(self.deep_view() =~= old(other).deep_view());
            assert(other.deep_view() =~= Seq::<Dv<T>>::empty());
        }
    }

    fn clear(&mut self) {
        self.0.clear();
        proof {
            assert(self.deep_view() =~= Seq::<Dv<T>>::empty());
        }
    }

    fn duplicate(&self) -> Wrapper<T> {
        Wrapper(self.0.duplicate())
    }
}

/// An event/action queue built on the replicated-value primitive: firing
/// enqueues into the mutation role's replica, propagation delivers the
/// batch, and the post-notification cleanup drains it.
#[derive(Clone, Copy)]
pub struct Action {
    queue: Tl,
}

impl GetPtr for Action {
    closed spec fn ptr_spec(&self) -> usize {
        self.queue.ptr_spec()
    }

    fn get_ptr(&self) -> usize {
        self.queue.get_ptr()
    }
}

impl Action {
    /// A fresh queue: every role starts with no pending events.
    pub fn new<T: ManualCopy>(ctx: &mut Ctx<Wrapper<T>>) -> (a: Action)
        requires
            old(ctx).wf(),
        ensures
            a.ptr_spec() == old(ctx)@.cells.len(),
            final(ctx)@ == (CtxView {
                cells: old(ctx)@.cells.push(
                    seq![
                        Seq::<Dv<T>>::empty(),
                        Seq::<Dv<T>>::empty(),
                        Seq::<Dv<T>>::empty(),
                    ],
                ),
                ..old(ctx)@
            }),
            final(ctx).wf(),
    {
        let w0: Wrapper<T> = Wrapper(Vec::new());
        let w1: Wrapper<T> = Wrapper(Vec::new());
        let w2: Wrapper<T> = Wrapper(Vec::new());
        proof {
            assert(w0.deep_view() =~= Seq::<Dv<T>>::empty());
            assert(w1.deep_view() =~= Seq::<Dv<T>>::empty());
            assert(w2.deep_view() =~= Seq::<Dv<T>>::empty());
        }
        let queue = Tl::new_advanced(ctx, w0, w1, w2);
        proof {
            assert(seq![
                Seq::<Dv<T>>::empty(),
                Seq::<Dv<T>>::empty(),
                Seq::<Dv<T>>::empty(),
            ] =~= seq![w0.deep_view(), w1.deep_view(), w2.deep_view()]);
            assert(ctx@ =~= (CtxView {
                cells: old(ctx)@.cells.push(
                    seq![
                        Seq::<Dv<T>>::empty(),
                        Seq::<Dv<T>>::empty(),
                        Seq::<Dv<T>>::empty(),
                    ],
                ),
                ..old(ctx)@
            }));
        }
        Action { queue }
    }

    /// Enqueues one event: records the queue in the calling role's dirty
    /// ledger under the relaxed discipline (several fires per cycle
    /// coalesce) and appends the event to the mutation role's replica.
    pub fn fire<T: ManualCopy>(&self, ctx: &mut Ctx<Wrapper<T>>, caller: usize, a: T) -> (r:
        Result<(), ProtocolError>)
        requires
            old(ctx).wf(),
            caller < THREADS,
            self.ptr_spec() < old(ctx)@.cells.len(),
        ensures
            r == mutate_spec::<Wrapper<T>>(
                old(ctx)@,
                self.ptr_spec(),
                caller as int,
                old(ctx)@.cells[self.ptr_spec() as int][MUTATE_THREAD_INDEX as int].push(
                    a.deep_view(),
                ),
                false,
            ).1,
            final(ctx)@ == mutate_spec::<Wrapper<T>>(
                old(ctx)@,
                self.ptr_spec(),
                caller as int,
                old(ctx)@.cells[self.ptr_spec() as int][MUTATE_THREAD_INDEX as int].push(
                    a.deep_view(),
                ),
                false,
            ).0,
            final(ctx).wf(),
    {
        let id = self.queue.get_ptr();
        match ctx.mark_dirty(id, caller, false) {
            Ok(()) => {
                let mut q = ctx.replace_replica(id, MUTATE_THREAD_INDEX, Wrapper(Vec::new()));
                let ghost prevseq = q.deep_view();
                let ghost preq = q.0@;
                q.0.push(a);
                proof {
                    let target = prevseq.push(a.deep_view());
                    assert forall|i: int| 0 <= i < q.0@.len() implies q.0@[i].deep_view()
                        == target[i] by {
                        if i < preq.len() {
                            assert(q.0@[i] == preq[i]);
                            assert(prevseq[i] == preq[i].deep_view());
                        } else {
                            assert(q.0@[i] == a);
                        }
                    }
                    assert(q.deep_view() =~= target);
                }
                ctx.set_replica(id, MUTATE_THREAD_INDEX, q);
                proof {
                    assert(ctx@ =~~= mutate_spec::<Wrapper<T>>(
                        old(ctx)@,
                        self.ptr_spec(),
                        caller as int,
                        old(ctx)@.cells[self.ptr_spec() as int][MUTATE_THREAD_INDEX as int].push(
                            a.deep_view(),
                        ),
                        false,
                    ).0);
                }
                Ok(())
            },
            Err(e) => Err(e),
        }
    }

    /// Reads the calling role's batch of pending events.
    pub fn get<'a, T: ManualCopy>(&self, ctx: &'a Ctx<Wrapper<T>>, role: usize) -> (r: &'a Vec<T>)
        requires
            ctx.wf(),
            role < THREADS,
            self.ptr_spec() < ctx@.cells.len(),
        ensures
            r.deep_view() == ctx@.cells[self.ptr_spec() as int][role as int],
    {
        let w = ctx.cell_get(self.queue.get_ptr(), role);
        &w.0
    }
}

} // verus!
