use vstd::prelude::*;
use crate::manual_copy::{Dv, ManualCopy};
use crate::sync::{
    cells_after_clear, find_entry, fire_batch, fire_entry, fire_ptr, has_sendable,
    lemma_find_entry, mutate_spec, mutated_ledger, regs_below, register2_spec,
    retained_after_sync, sendable, sent_after_sync, sync_clear_spec, sync_from_spec, sync_to_spec,
    unregister_spec, without_listener, CtxView, DirtyEntry, GenState, ListenerEntry,
    ListenerHandle, ProtocolError,
};
use crate::threads::{MUTATE_THREAD_INDEX, THREADS};

verus! {

/// Read-your-own-writes: a mutation that the entry point accepts is
/// visible at once in the mutation role's replica — what `get` answers
/// for the mutation slot — before any sync call.
pub proof fn lemma_read_your_own_writes<T: ManualCopy>(
    c: CtxView<Dv<T>>,
    id: usize,
    caller: int,
    v: Dv<T>,
    strict: bool,
)
    requires
        c.wf(),
        0 <= caller < THREADS,
        id < c.cells.len(),
        mutate_spec::<T>(c, id, caller, v, strict).1 is Ok,
    ensures
        mutate_spec::<T>(c, id, caller, v, strict).0.cells[id as int][MUTATE_THREAD_INDEX as int]
            == v,
{
}

/// Isolation, part one: an accepted mutation writes only the mutation
/// role's replica; every other role's replica of every tracked value
/// reads as before.
pub proof fn lemma_mutation_isolated<T: ManualCopy>(
    c: CtxView<Dv<T>>,
    id: usize,
    caller: int,
    v: Dv<T>,
    strict: bool,
    obs: int,
    role: int,
)
    requires
        c.wf(),
        0 <= caller < THREADS,
        id < c.cells.len(),
        0 <= obs < c.cells.len(),
        0 <= role < THREADS,
        role != MUTATE_THREAD_INDEX,
    ensures
        mutate_spec::<T>(c, id, caller, v, strict).0.cells[obs][role] == c.cells[obs][role],
{
}

/// Isolation, part two: intra-role relaxation touches only the caller's
/// replica and the relayed-from replica, so a role outside the pair — in
/// particular role 0 while the compute side relaxes — reads as before.
pub proof fn lemma_relaxation_isolated<T: ManualCopy>(
    c: CtxView<Dv<T>>,
    caller: int,
    from: int,
    obs: int,
    role: int,
)
    requires
        c.wf(),
        0 <= caller < THREADS,
        0 <= from < THREADS,
        0 <= obs < c.cells.len(),
        0 <= role < THREADS,
        role != caller,
        role != from,
    ensures
        sync_from_spec::<T>(c, caller, from).cells[obs][role] == c.cells[obs][role],
{
}

/// The replicas after a cleanup pass keep their count.
pub proof fn lemma_cells_after_clear_len<T: ManualCopy>(
    cells: Seq<Seq<Dv<T>>>,
    l: Seq<DirtyEntry>,
    caller: int,
)
    requires
        0 <= caller < THREADS,
        forall|i: int| 0 <= i < cells.len() ==> (#[trigger] cells[i]).len() == THREADS,
    ensures
        cells_after_clear::<T>(cells, l, caller).len() == cells.len(),
        forall|i: int|
            0 <= i < cells.len() ==> (#[trigger] cells_after_clear::<T>(cells, l, caller)[i]).len()
                == cells[i].len(),
    decreases l.len(),
{
    if l.len() > 0 {
        lemma_cells_after_clear_len::<T>(cells, l.drop_last(), caller);
        let prev = cells_after_clear::<T>(cells, l.drop_last(), caller);
        let v = cells_after_clear::<T>(cells, l, caller);
        assert forall|i: int| 0 <= i < cells.len() implies (#[trigger] v[i]).len()
            == cells[i].len() by {
            assert(prev[i].len() == cells[i].len());
        }
    }
}

/// Isolation, part three: the cleanup pass touches only the caller's
/// replicas; every other role reads as before.
pub proof fn lemma_clear_isolated<T: ManualCopy>(c: CtxView<Dv<T>>, caller: int, obs: int, role: int)
    requires
        c.wf(),
        0 <= caller < THREADS,
        0 <= obs < c.cells.len(),
        0 <= role < THREADS,
        role != caller,
    ensures
        sync_clear_spec::<T>(c, caller).cells[obs][role] == c.cells[obs][role],
{
    lemma_cells_after_clear_isolated::<T>(c.cells, c.dirties[caller], caller, obs, role);
}

proof fn lemma_cells_after_clear_isolated<T: ManualCopy>(
    cells: Seq<Seq<Dv<T>>>,
    l: Seq<DirtyEntry>,
    caller: int,
    obs: int,
    role: int,
)
    requires
        0 <= obs < cells.len(),
        0 <= caller < THREADS,
        0 <= role < THREADS,
        role != caller,
        forall|i: int| 0 <= i < cells.len() ==> (#[trigger] cells[i]).len() == THREADS,
    ensures
        cells_after_clear::<T>(cells, l, caller)[obs][role] == cells[obs][role],
    decreases l.len(),
{
    if l.len() > 0 {
        lemma_cells_after_clear_len::<T>(cells, l.drop_last(), caller);
        lemma_cells_after_clear_isolated::<T>(cells, l.drop_last(), caller, obs, role);
    }
}

/// What completes the isolation story: the terminal sync is what makes a
/// mutation visible. For a tracked value with an entry still eligible
/// for propagation in the caller's ledger, `sync_to` merges the caller's
/// replica into the target role's replica under the type's merge
/// protocol (for plain values, an overwrite with the mutated value).
pub proof fn lemma_sync_to_delivers<T: ManualCopy>(c: CtxView<Dv<T>>, from: int, to: int, id: int)
    requires
        c.wf(),
        0 <= from < THREADS,
        0 <= to < THREADS,
        from != to,
        0 <= id < c.cells.len(),
        has_sendable(c.dirties[from], id),
    ensures
        sync_to_spec::<T>(c, from, to).cells[id][to] == T::merge_dst(
            c.cells[id][to],
            c.cells[id][from],
        ),
{
}

/// `find_entry` is pinned down by its characterization: any position
/// that carries the identity and has no earlier carrier is the one
/// `find_entry` answers.
pub proof fn lemma_find_entry_unique(l: Seq<DirtyEntry>, id: usize, i: int)
    requires
        0 <= i <= l.len(),
        i < l.len() ==> l[i].cell == id,
        forall|k: int| 0 <= k < i ==> (#[trigger] l[k]).cell != id,
        i == l.len() ==> forall|k: int| 0 <= k < l.len() ==> (#[trigger] l[k]).cell != id,
    ensures
        find_entry(l, id) == i,
{
    lemma_find_entry(l, id);
    let f = find_entry(l, id);
    if f < i {
        assert(l[f].cell == id);
    } else if f > i {
        assert(i < l.len());
        assert(l[i].cell != id);
    }
}

/// Double-mutation guard: once a mutation of a tracked value has been
/// accepted under the strict discipline, a second mutation of the same
/// value by the same role, with no sync in between, is rejected as a
/// protocol violation and changes nothing.
pub proof fn lemma_double_mutation_guard<T: ManualCopy>(
    c: CtxView<Dv<T>>,
    id: usize,
    caller: int,
    v: Dv<T>,
    w: Dv<T>,
)
    requires
        c.wf(),
        0 <= caller < THREADS,
        id < c.cells.len(),
        mutate_spec::<T>(c, id, caller, v, true).1 is Ok,
    ensures
        mutate_spec::<T>(mutate_spec::<T>(c, id, caller, v, true).0, id, caller, w, true).1
            == Err::<(), ProtocolError>(ProtocolError::DoubleMutation),
        mutate_spec::<T>(mutate_spec::<T>(c, id, caller, v, true).0, id, caller, w, true).0
            == mutate_spec::<T>(c, id, caller, v, true).0,
{
    let l = c.dirties[caller];
    lemma_find_entry(l, id);
    let i = find_entry(l, id);
    let l2 = mutated_ledger(l, id);
    let e = DirtyEntry { state: GenState::Mutated, cell: id };
    if i == l.len() {
        assert(l2 == l.push(e));
        assert(l2[i].cell == id);
        assert forall|k: int| 0 <= k < i implies (#[trigger] l2[k]).cell != id by {
            assert(l2[k] == l[k]);
        }
        lemma_find_entry_unique(l2, id, i);
    } else {
        assert(l2 == l.update(i, e));
        assert(l2[i].cell == id);
        assert forall|k: int| 0 <= k < i implies (#[trigger] l2[k]).cell != id by {
            assert(l2[k] == l[k]);
        }
        lemma_find_entry_unique(l2, id, i);
    }
    assert(mutate_spec::<T>(c, id, caller, v, true).0.dirties[caller] == l2);
}

/// A ledger with no provisionally dirty entry re-registers nothing.
pub proof fn lemma_retained_empty(l: Seq<DirtyEntry>)
    requires
        forall|k: int| 0 <= k < l.len() ==> (#[trigger] l[k]).state != GenState::Mutated,
    ensures
        retained_after_sync(l) == Seq::<DirtyEntry>::empty(),
    decreases l.len(),
{
    if l.len() > 0 {
        assert forall|k: int| 0 <= k < l.drop_last().len() implies (#[trigger] l.drop_last()[k]).state
            != GenState::Mutated by {
            assert(l.drop_last()[k] == l[k]);
        }
        lemma_retained_empty(l.drop_last());
    }
}

/// A ledger whose entries are all at or past the terminal state sends
/// nothing.
pub proof fn lemma_sent_empty(l: Seq<DirtyEntry>)
    requires
        forall|k: int| 0 <= k < l.len() ==> !sendable((#[trigger] l[k]).state),
    ensures
        sent_after_sync(l) == Seq::<DirtyEntry>::empty(),
    decreases l.len(),
{
    if l.len() > 0 {
        assert forall|k: int| 0 <= k < l.drop_last().len() implies !sendable(
            (#[trigger] l.drop_last()[k]).state,
        ) by {
            assert(l.drop_last()[k] == l[k]);
        }
        lemma_sent_empty(l.drop_last());
    }
}

/// Merge idempotence for terminal entries: when every entry of the
/// caller's ledger is already at or past the terminal state, `sync_to`
/// merges nothing, re-sends nothing, and only empties the caller's
/// ledger.
pub proof fn lemma_terminal_entries_dropped<T: ManualCopy>(c: CtxView<Dv<T>>, from: int, to: int)
    requires
        c.wf(),
        0 <= from < THREADS,
        0 <= to < THREADS,
        from != to,
        forall|k: int|
            0 <= k < c.dirties[from].len() ==> !sendable((#[trigger] c.dirties[from][k]).state),
    ensures
        sync_to_spec::<T>(c, from, to).cells == c.cells,
        sync_to_spec::<T>(c, from, to).dirties[to] == c.dirties[to],
        sync_to_spec::<T>(c, from, to).dirties[from] == Seq::<DirtyEntry>::empty(),
{
    let l = c.dirties[from];
    lemma_sent_empty(l);
    assert forall|k: int| 0 <= k < l.len() implies (#[trigger] l[k]).state != GenState::Mutated by {
        assert(!sendable(l[k].state));
    }
    lemma_retained_empty(l);
    assert forall|id: int| 0 <= id < c.cells.len() implies !has_sendable(l, id) by {
        if has_sendable(l, id) {
            let i = choose|i: int|
                0 <= i < l.len() && sendable((#[trigger] l[i]).state) && l[i].cell == id;
        }
    }
    assert(sync_to_spec::<T>(c, from, to).cells =~= c.cells);
    assert(sync_to_spec::<T>(c, from, to).dirties[to] =~= c.dirties[to]);
}

/// Merge idempotence, two calls: after a `sync_to` whose ledger held no
/// provisionally dirty entry (so nothing re-registered itself), a second
/// `sync_to` with no new mutation in between performs no merge and adds
/// nothing to the target ledger.
pub proof fn lemma_sync_to_twice<T: ManualCopy>(c: CtxView<Dv<T>>, from: int, to: int)
    requires
        c.wf(),
        0 <= from < THREADS,
        0 <= to < THREADS,
        from != to,
        forall|k: int|
            0 <= k < c.dirties[from].len() ==> (#[trigger] c.dirties[from][k]).state
                != GenState::Mutated,
    ensures
        sync_to_spec::<T>(sync_to_spec::<T>(c, from, to), from, to).cells == sync_to_spec::<T>(
            c,
            from,
            to,
        ).cells,
        sync_to_spec::<T>(sync_to_spec::<T>(c, from, to), from, to).dirties[to] == sync_to_spec::<
            T,
        >(c, from, to).dirties[to],
{
    let c1 = sync_to_spec::<T>(c, from, to);
    lemma_retained_empty(c.dirties[from]);
    assert(c1.dirties[from] == Seq::<DirtyEntry>::empty());
    lemma_sent_empty(c1.dirties[from]);
    assert forall|id: int| 0 <= id < c1.cells.len() implies !has_sendable(
        c1.dirties[from],
        id,
    ) by {
        if has_sendable(c1.dirties[from], id) {
            let i = choose|i: int|
                0 <= i < c1.dirties[from].len() && sendable(
                    (#[trigger] c1.dirties[from][i]).state,
                ) && c1.dirties[from][i].cell == id;
        }
    }
    assert(sync_to_spec::<T>(c1, from, to).cells =~= c1.cells);
    assert(sync_to_spec::<T>(c1, from, to).dirties[to] =~= c1.dirties[to]);
}

/// No registration id appears twice in a fire list.
pub open spec fn unique_regs(s: Seq<u64>) -> bool {
    forall|i: int, j: int| 0 <= i < j < s.len() ==> s[i] != s[j]
}

proof fn lemma_fire_ptr_unique(reg: Seq<ListenerEntry>, ptr: usize, acc: Seq<u64>)
    requires
        unique_regs(acc),
    ensures
        unique_regs(fire_ptr(reg, ptr, acc)),
    decreases reg.len(),
{
    if reg.len() > 0 {
        let acc1 = fire_entry(acc, reg[0], ptr);
        assert forall|i: int, j: int| 0 <= i < j < acc1.len() implies acc1[i] != acc1[j] by {
            if j == acc.len() {
                assert(!acc.contains(acc1[j]));
                assert(acc1[i] == acc[i]);
            }
        }
        lemma_fire_ptr_unique(reg.drop_first(), ptr, acc1);
    }
}

proof fn lemma_fire_batch_unique(reg: Seq<ListenerEntry>, d: Seq<usize>, acc: Seq<u64>)
    requires
        unique_regs(acc),
    ensures
        unique_regs(fire_batch(reg, d, acc)),
    decreases d.len(),
{
    if d.len() > 0 {
        lemma_fire_ptr_unique(reg, d[0], acc);
        lemma_fire_batch_unique(reg, d.drop_first(), fire_ptr(reg, d[0], acc));
    }
}

/// Listener single-fire dedup: one notify pass fires each registration
/// id at most once, even when the id is registered against several
/// identities of the batch.
pub proof fn lemma_notify_fires_once(reg: Seq<ListenerEntry>, d: Seq<usize>)
    ensures
        unique_regs(fire_batch(reg, d, Seq::<u64>::empty())),
{
    lemma_fire_batch_unique(reg, d, Seq::<u64>::empty());
}

/// A registration id fires for a batch exactly when the registry holds
/// an entry with that id whose watched identity is in the batch.
pub open spec fn registered_in(reg: Seq<ListenerEntry>, d: Seq<usize>, x: u64) -> bool {
    exists|j: int| 0 <= j < reg.len() && (#[trigger] reg[j]).reg == x && d.contains(reg[j].ptr)
}

proof fn lemma_fire_ptr_members(reg: Seq<ListenerEntry>, ptr: usize, acc: Seq<u64>, x: u64)
    ensures
        fire_ptr(reg, ptr, acc).contains(x) == (acc.contains(x) || exists|j: int|
            0 <= j < reg.len() && (#[trigger] reg[j]).reg == x && reg[j].ptr == ptr),
    decreases reg.len(),
{
    if reg.len() == 0 {
    } else {
        let acc1 = fire_entry(acc, reg[0], ptr);
        lemma_fire_ptr_members(reg.drop_first(), ptr, acc1, x);
        let rest = reg.drop_first();
        assert(acc1.contains(x) == (acc.contains(x) || (reg[0].ptr == ptr && reg[0].reg == x)))
            by {
            if acc1.contains(x) && !acc.contains(x) {
                let i = choose|i: int| 0 <= i < acc1.len() && acc1[i] == x;
            }
            if acc.contains(x) {
                let i = choose|i: int| 0 <= i < acc.len() && acc[i] == x;
                assert(acc1.contains(x)) by {
                    if reg[0].ptr == ptr && !acc.contains(reg[0].reg) {
                        assert(acc1[i] == x);
                    }
                }
            }
            if reg[0].ptr == ptr && reg[0].reg == x && !acc.contains(x) {
                assert(acc1.last() == x);
            }
        }
        assert((exists|j: int|
            0 <= j < reg.len() && (#[trigger] reg[j]).reg == x && reg[j].ptr == ptr) == ((
        reg[0].ptr == ptr && reg[0].reg == x) || exists|j: int|
            0 <= j < rest.len() && (#[trigger] rest[j]).reg == x && rest[j].ptr == ptr)) by {
            if exists|j: int| 0 <= j < reg.len() && (#[trigger] reg[j]).reg == x && reg[j].ptr
                == ptr {
                let j = choose|j: int|
                    0 <= j < reg.len() && (#[trigger] reg[j]).reg == x && reg[j].ptr == ptr;
                if j > 0 {
                    assert(rest[j - 1] == reg[j]);
                }
            }
            if exists|j: int| 0 <= j < rest.len() && (#[trigger] rest[j]).reg == x && rest[j].ptr
                == ptr {
                let j = choose|j: int|
                    0 <= j < rest.len() && (#[trigger] rest[j]).reg == x && rest[j].ptr == ptr;
                assert(reg[j + 1] == rest[j]);
            }
        }
    }
}

proof fn lemma_fire_batch_members(reg: Seq<ListenerEntry>, d: Seq<usize>, acc: Seq<u64>, x: u64)
    ensures
        fire_batch(reg, d, acc).contains(x) == (acc.contains(x) || registered_in(reg, d, x)),
    decreases d.len(),
{
    if d.len() == 0 {
        if registered_in(reg, d, x) {
            let j = choose|j: int|
                0 <= j < reg.len() && (#[trigger] reg[j]).reg == x && d.contains(reg[j].ptr);
        }
    } else {
        let acc1 = fire_ptr(reg, d[0], acc);
        lemma_fire_batch_members(reg, d.drop_first(), acc1, x);
        lemma_fire_ptr_members(reg, d[0], acc, x);
        let rest = d.drop_first();
        assert(registered_in(reg, d, x) == ((exists|j: int|
            0 <= j < reg.len() && (#[trigger] reg[j]).reg == x && reg[j].ptr == d[0])
            || registered_in(reg, rest, x))) by {
            if registered_in(reg, d, x) {
                let j = choose|j: int|
                    0 <= j < reg.len() && (#[trigger] reg[j]).reg == x && d.contains(reg[j].ptr);
                let i = choose|i: int| 0 <= i < d.len() && d[i] == reg[j].ptr;
                if i > 0 {
                    assert(rest[i - 1] == d[i]);
                    assert(rest.contains(reg[j].ptr));
                }
            }
            if exists|j: int| 0 <= j < reg.len() && (#[trigger] reg[j]).reg == x && reg[j].ptr
                == d[0] {
                let j = choose|j: int|
                    0 <= j < reg.len() && (#[trigger] reg[j]).reg == x && reg[j].ptr == d[0];
                assert(d.contains(reg[j].ptr));
            }
            if registered_in(reg, rest, x) {
                let j = choose|j: int|
                    0 <= j < reg.len() && (#[trigger] reg[j]).reg == x && rest.contains(
                        reg[j].ptr,
                    );
                let i = choose|i: int| 0 <= i < rest.len() && rest[i] == reg[j].ptr;
                assert(d[i + 1] == rest[i]);
                assert(d.contains(reg[j].ptr));
            }
        }
    }
}

/// Listener lifecycle, silencing direction: once no registry entry
/// carries a registration id, no notify pass fires it, whatever batch is
/// prepared.
pub proof fn lemma_silent_after_removal(reg: Seq<ListenerEntry>, d: Seq<usize>, x: u64)
    requires
        forall|j: int| 0 <= j < reg.len() ==> (#[trigger] reg[j]).reg != x,
    ensures
        !fire_batch(reg, d, Seq::<u64>::empty()).contains(x),
{
    lemma_fire_batch_members(reg, d, Seq::<u64>::empty(), x);
    if registered_in(reg, d, x) {
        let j = choose|j: int|
            0 <= j < reg.len() && (#[trigger] reg[j]).reg == x && d.contains(reg[j].ptr);
    }
}

/// Removing a pair that never occurs leaves a registry as it is.
pub proof fn lemma_without_listener_noop(l: Seq<ListenerEntry>, ptr: usize, reg: u64)
    requires
        forall|i: int| 0 <= i < l.len() ==> (#[trigger] l[i]).reg != reg,
    ensures
        without_listener(l, ptr, reg) == l,
    decreases l.len(),
{
    if l.len() > 0 {
        assert forall|i: int| 0 <= i < l.drop_last().len() implies (#[trigger] l.drop_last()[i]).reg
            != reg by {
            assert(l.drop_last()[i] == l[i]);
        }
        lemma_without_listener_noop(l.drop_last(), ptr, reg);
        assert(l.drop_last().push(l.last()) =~= l);
    }
}

/// Listener lifecycle: registering one callback against two triggers and
/// then releasing the returned owner restores every role's registry, so
/// the callback can never fire again (its id is fresh and ids are never
/// reused).
pub proof fn lemma_register_unregister_round_trip<V>(
    c: CtxView<V>,
    caller: int,
    ptr1: usize,
    ptr2: usize,
)
    requires
        c.wf(),
        0 <= caller < THREADS,
        c.next_reg < u64::MAX,
    ensures
        ({
            let handles = seq![
                (ListenerHandle { ptr: ptr1, reg: c.next_reg }),
                (ListenerHandle { ptr: ptr2, reg: c.next_reg }),
            ];
            unregister_spec(
                register2_spec(c, caller, ptr1, ptr2),
                caller,
                handles,
            ).listeners =~= c.listeners
        }),
{
    let reg = c.next_reg;
    let e1 = ListenerEntry { ptr: ptr1, reg };
    let e2 = ListenerEntry { ptr: ptr2, reg };
    let base = c.listeners[caller];
    let c1 = register2_spec(c, caller, ptr1, ptr2);
    let h1 = ListenerHandle { ptr: ptr1, reg };
    let h2 = ListenerHandle { ptr: ptr2, reg };
    let handles = seq![h1, h2];
    let l2 = base.push(e1).push(e2);
    assert(c1.listeners[caller] == l2);
    assert forall|i: int| 0 <= i < base.len() implies (#[trigger] base[i]).reg != reg by {
        assert(regs_below(base, c.next_reg));
    }
    lemma_without_listener_noop(base, ptr1, reg);
    lemma_without_listener_noop(base, ptr2, reg);
    assert(l2.drop_last() =~= base.push(e1));
    assert(l2.last() == e2);
    assert(base.push(e1).drop_last() =~= base);
    assert(base.push(e1).last() == e1);
    let w1 = without_listener(base.push(e1), ptr1, reg);
    assert(w1 == without_listener(base, ptr1, reg));
    assert(w1 == base);
    let after1 = without_listener(l2, ptr1, reg);
    let after2 = if ptr2 == ptr1 {
        assert(after1 == w1);
        without_listener(base, ptr2, reg)
    } else {
        assert(after1 == w1.push(e2));
        assert(base.push(e2).drop_last() =~= base);
        assert(base.push(e2).last() == e2);
        without_listener(base.push(e2), ptr2, reg)
    };
    assert(after2 == base);
    assert(handles.drop_last() =~= seq![h1]);
    assert(seq![h1].drop_last() =~= Seq::<ListenerHandle>::empty());
    assert(seq![h1].last() == h1);
    assert(handles.last() == h2);
    let u0 = unregister_spec(c1, caller, Seq::<ListenerHandle>::empty());
    assert(u0 == c1);
    let u1 = unregister_spec(c1, caller, handles.drop_last());
    assert(u1.listeners == c1.listeners.update(caller, after1));
    assert(u1.listeners[caller] == after1);
    let u2 = unregister_spec(c1, caller, handles);
    assert(u2.listeners == u1.listeners.update(
        caller,
        without_listener(u1.listeners[caller], ptr2, reg),
    ));
    assert(without_listener(after1, ptr2, reg) == base) by {
        if ptr2 == ptr1 {
        } else {
        }
    }
    assert(u2.listeners =~= c.listeners);
}

} // verus!
