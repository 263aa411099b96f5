use vstd::prelude::*;
use crate::cell::TrustCell;
use crate::manual_copy::{Dv, ManualCopy};
use crate::threads::{MUTATE_THREAD_INDEX, THREADS};

verus! {

/// Identity of a tracked value's storage, used to key dirty-ledger
/// entries and listener registrations.
pub trait GetPtr {
    /// The identity as a spec-level value.
    spec fn ptr_spec(&self) -> usize;

    fn get_ptr(&self) -> (r: usize)
        ensures
            r == self.ptr_spec(),
    ;
}

/// Lifecycle tag of a dirty-ledger entry, advanced by the sync/notify
/// protocol.
#[derive(Clone, Copy, PartialEq, Eq, Structural, Debug)]
pub enum GenState {
    /// Newly registered, not yet synced anywhere.
    Fresh,
    /// Mutated in the current cycle; eligible for propagation.
    Mutated,
    /// Propagated at least once this cycle.
    Propagated,
    /// Selected by notification preparation; about to fire listeners.
    Notifying,
    /// Fully propagated to the terminal role; excluded from resync.
    Terminal,
    /// Marked for post-notification cleanup.
    Clearing,
}

/// One dirty-ledger record: the identity of a mutated tracked value and
/// its generation state.
#[derive(Clone, Copy, PartialEq, Eq, Structural, Debug)]
pub struct DirtyEntry {
    pub state: GenState,
    pub cell: usize,
}

/// One listener registration: the identity of the watched storage and
/// the registration id shared by every trigger of one callback.
#[derive(Clone, Copy, PartialEq, Eq, Structural, Debug)]
pub struct ListenerEntry {
    pub ptr: usize,
    pub reg: u64,
}

/// One (trigger, registration id) pair held by a registration's owner.
#[derive(Clone, Copy, PartialEq, Eq, Structural, Debug)]
pub struct ListenerHandle {
    pub ptr: usize,
    pub reg: u64,
}

/// Owner of a registration: releasing it removes every registry entry
/// it put in place.
pub struct ListenerHandleRef {
    pub handles: Vec<ListenerHandle>,
    pub from: usize,
}

/// A rejected call into the mutation entry point: the protocol fails
/// loudly instead of racing.
#[derive(Clone, Copy, PartialEq, Eq, Structural, Debug)]
pub enum ProtocolError {
    /// A second mutation of the same tracked value without an
    /// intervening propagation.
    DoubleMutation,
    /// The value was already fully propagated this cycle from another
    /// role.
    AlreadyPropagated,
}

/// Mathematical value of a context: per-value replicas, per-role dirty
/// ledgers, per-role listener registries, and the next registration id.
#[verifier::ext_equal]
#[verifier::reject_recursive_types(V)]
pub ghost struct CtxView<V> {
    pub cells: Seq<Seq<V>>,
    pub dirties: Seq<Seq<DirtyEntry>>,
    pub listeners: Seq<Seq<ListenerEntry>>,
    pub next_reg: u64,
}

/// Whether an entry in this state is still propagated by `sync_to`
/// (everything before the terminal state).
pub open spec fn sendable(s: GenState) -> bool {
    s == GenState::Fresh || s == GenState::Mutated || s == GenState::Propagated
        || s == GenState::Notifying
}

/// Every entry names a tracked value of the context.
pub open spec fn ledger_in_range(l: Seq<DirtyEntry>, n: nat) -> bool {
    forall|i: int| 0 <= i < l.len() ==> (#[trigger] l[i]).cell < n
}

/// At most one entry per tracked value is still eligible for
/// propagation: a later entry for the same value is always at or past
/// the terminal state. (Relayed entries arrive terminal, so a ledger may
/// briefly hold such duplicates.)
pub open spec fn ledger_dup_ok(l: Seq<DirtyEntry>) -> bool {
    forall|i: int, j: int|
        0 <= i < j < l.len() && (#[trigger] l[i]).cell == (#[trigger] l[j]).cell
            ==> !sendable(l[j].state)
}

/// Registration ids already handed out are below the allocator's next id.
pub open spec fn regs_below(l: Seq<ListenerEntry>, b: u64) -> bool {
    forall|i: int| 0 <= i < l.len() ==> (#[trigger] l[i]).reg < b
}

impl<V> CtxView<V> {
    /// Well-formedness: one ledger and one registry per role, every
    /// tracked value holds one replica per role, ledgers point at
    /// existing values and keep the one-eligible-entry-per-value rule,
    /// and registration ids are fresh.
    pub open spec fn wf(self) -> bool {
        &&& self.dirties.len() == THREADS
        &&& self.listeners.len() == THREADS
        &&& forall|c: int| 0 <= c < self.cells.len() ==> (#[trigger] self.cells[c]).len() == THREADS
        &&& forall|r: int|
            0 <= r < THREADS ==> ledger_in_range(#[trigger] self.dirties[r], self.cells.len())
        &&& forall|r: int| 0 <= r < THREADS ==> ledger_dup_ok(#[trigger] self.dirties[r])
        &&& forall|r: int| 0 <= r < THREADS ==> regs_below(#[trigger] self.listeners[r], self.next_reg)
    }
}

/// A cell's replicas after one merge: the merge protocol propagates the
/// `from` replica into the `to` replica (the source may be drained).
pub open spec fn merged_cell<T: ManualCopy>(c: Seq<Dv<T>>, from: int, to: int) -> Seq<Dv<T>> {
    c.update(to, T::merge_dst(c[to], c[from])).update(from, T::merge_src(c[to], c[from]))
}

/// Index of the first ledger entry for the given identity, or `l.len()`
/// when there is none.
pub open spec fn find_entry(l: Seq<DirtyEntry>, id: usize) -> int
    decreases l.len(),
{
    if l.len() == 0 {
        0
    } else if l[0].cell == id {
        0
    } else {
        1 + find_entry(l.drop_first(), id)
    }
}

/// What the mutation entry point answers for the given ledger: a fresh
/// or re-validated entry succeeds; a second mutation in the same cycle
/// (under the strict discipline) and a mutation of a value already fully
/// propagated from another role fail loudly.
pub open spec fn mutate_result(l: Seq<DirtyEntry>, id: usize, strict: bool) -> Result<
    (),
    ProtocolError,
> {
    let i = find_entry(l, id);
    if i == l.len() {
        Ok(())
    } else if l[i].state == GenState::Mutated && strict {
        Err(ProtocolError::DoubleMutation)
    } else if l[i].state == GenState::Terminal {
        Err(ProtocolError::AlreadyPropagated)
    } else {
        Ok(())
    }
}

/// The ledger after a successful mutation: re-mutation coalesces into
/// the existing entry rather than duplicating it.
pub open spec fn mutated_ledger(l: Seq<DirtyEntry>, id: usize) -> Seq<DirtyEntry> {
    let i = find_entry(l, id);
    if i == l.len() {
        l.push(DirtyEntry { state: GenState::Mutated, cell: id })
    } else {
        l.update(i, DirtyEntry { state: GenState::Mutated, cell: id })
    }
}

/// The whole context after one call of the mutation entry point: on
/// success the caller's ledger records the mutation and the value lands
/// in the mutation role's replica; on failure nothing changes.
pub open spec fn mutate_spec<T: ManualCopy>(
    c: CtxView<Dv<T>>,
    id: usize,
    caller: int,
    v: Dv<T>,
    strict: bool,
) -> (CtxView<Dv<T>>, Result<(), ProtocolError>) {
    let r = mutate_result(c.dirties[caller], id, strict);
    if r is Err {
        (c, r)
    } else {
        (
            CtxView {
                cells: c.cells.update(
                    id as int,
                    c.cells[id as int].update(MUTATE_THREAD_INDEX as int, v),
                ),
                dirties: c.dirties.update(caller, mutated_ledger(c.dirties[caller], id)),
                ..c
            },
            r,
        )
    }
}

/// Some entry still eligible for propagation names this identity.
pub open spec fn has_sendable(l: Seq<DirtyEntry>, id: int) -> bool {
    exists|i: int| 0 <= i < l.len() && sendable((#[trigger] l[i]).state) && l[i].cell == id
}

/// Some provisionally dirty (freshly mutated) entry names this identity.
pub open spec fn has_mutated(l: Seq<DirtyEntry>, id: int) -> bool {
    exists|i: int|
        0 <= i < l.len() && (#[trigger] l[i]).state == GenState::Mutated && l[i].cell == id
}

/// What stays in the caller's ledger after `sync_to`: provisionally
/// dirty entries re-register themselves; everything else leaves.
pub open spec fn retained_after_sync(l: Seq<DirtyEntry>) -> Seq<DirtyEntry>
    decreases l.len(),
{
    if l.len() == 0 {
        Seq::empty()
    } else {
        let rest = retained_after_sync(l.drop_last());
        if l.last().state == GenState::Mutated {
            rest.push(l.last())
        } else {
            rest
        }
    }
}

/// What `sync_to` hands to the target role's ledger: every entry below
/// the terminal state, marked terminal; entries at or past it are
/// filtered out and not re-sent.
pub open spec fn sent_after_sync(l: Seq<DirtyEntry>) -> Seq<DirtyEntry>
    decreases l.len(),
{
    if l.len() == 0 {
        Seq::empty()
    } else {
        let rest = sent_after_sync(l.drop_last());
        if sendable(l.last().state) {
            rest.push(DirtyEntry { state: GenState::Terminal, cell: l.last().cell })
        } else {
            rest
        }
    }
}

/// The whole context after `sync_to(to)` called by `from`: each tracked
/// value with an eligible entry in the caller's ledger is merged into
/// the target role's replica, the caller keeps only re-registered
/// provisionally dirty entries, and the target ledger receives the
/// merged entries at the terminal state.
pub open spec fn sync_to_spec<T: ManualCopy>(c: CtxView<Dv<T>>, from: int, to: int) -> CtxView<
    Dv<T>,
> {
    CtxView {
        cells: Seq::new(
            c.cells.len(),
            |id: int|
                if has_sendable(c.dirties[from], id) {
                    merged_cell::<T>(c.cells[id], from, to)
                } else {
                    c.cells[id]
                },
        ),
        dirties: c.dirties.update(from, retained_after_sync(c.dirties[from])).update(
            to,
            c.dirties[to] + sent_after_sync(c.dirties[from]),
        ),
        ..c
    }
}

/// A ledger after `sync_from`: provisionally dirty entries advance to
/// the propagated state; everything else is untouched.
pub open spec fn relaxed_ledger(l: Seq<DirtyEntry>) -> Seq<DirtyEntry> {
    Seq::new(
        l.len(),
        |i: int|
            if l[i].state == GenState::Mutated {
                DirtyEntry { state: GenState::Propagated, cell: l[i].cell }
            } else {
                l[i]
            },
    )
}

/// The whole context after `sync_from(from)` called by `caller`: each
/// tracked value with a provisionally dirty entry in the caller's own
/// ledger is merged from the `from` replica into the caller's replica.
pub open spec fn sync_from_spec<T: ManualCopy>(c: CtxView<Dv<T>>, caller: int, from: int) -> CtxView<
    Dv<T>,
> {
    CtxView {
        cells: Seq::new(
            c.cells.len(),
            |id: int|
                if has_mutated(c.dirties[caller], id) {
                    merged_cell::<T>(c.cells[id], from, caller)
                } else {
                    c.cells[id]
                },
        ),
        dirties: c.dirties.update(caller, relaxed_ledger(c.dirties[caller])),
        ..c
    }
}

/// A ledger after notification preparation: propagated entries move to
/// the notifying state, terminal entries to the clearing state.
pub open spec fn prepared_ledger(l: Seq<DirtyEntry>) -> Seq<DirtyEntry> {
    Seq::new(
        l.len(),
        |i: int|
            if l[i].state == GenState::Propagated {
                DirtyEntry { state: GenState::Notifying, cell: l[i].cell }
            } else if l[i].state == GenState::Terminal {
                DirtyEntry { state: GenState::Clearing, cell: l[i].cell }
            } else {
                l[i]
            },
    )
}

/// The identities selected by notification preparation, in ledger order.
pub open spec fn prepared_ids(l: Seq<DirtyEntry>) -> Seq<usize>
    decreases l.len(),
{
    if l.len() == 0 {
        Seq::empty()
    } else {
        let rest = prepared_ids(l.drop_last());
        if l.last().state == GenState::Propagated || l.last().state == GenState::Terminal {
            rest.push(l.last().cell)
        } else {
            rest
        }
    }
}

/// A ledger after the cleanup pass: entries marked for clearing leave.
pub open spec fn cleared_ledger(l: Seq<DirtyEntry>) -> Seq<DirtyEntry>
    decreases l.len(),
{
    if l.len() == 0 {
        Seq::empty()
    } else {
        let rest = cleared_ledger(l.drop_last());
        if l.last().state == GenState::Clearing {
            rest
        } else {
            rest.push(l.last())
        }
    }
}

/// The replicas after the cleanup pass: walking the ledger in order,
/// each entry marked for clearing runs the type's cleanup on the
/// caller's replica of its tracked value.
pub open spec fn cells_after_clear<T: ManualCopy>(
    cells: Seq<Seq<Dv<T>>>,
    l: Seq<DirtyEntry>,
    caller: int,
) -> Seq<Seq<Dv<T>>>
    decreases l.len(),
{
    if l.len() == 0 {
        cells
    } else {
        let prev = cells_after_clear::<T>(cells, l.drop_last(), caller);
        let e = l.last();
        if e.state == GenState::Clearing && e.cell < prev.len() {
            prev.update(
                e.cell as int,
                prev[e.cell as int].update(caller, T::cleared(prev[e.cell as int][caller])),
            )
        } else {
            prev
        }
    }
}

/// The whole context after `sync_clear` called by `caller`.
pub open spec fn sync_clear_spec<T: ManualCopy>(c: CtxView<Dv<T>>, caller: int) -> CtxView<Dv<T>> {
    CtxView {
        cells: cells_after_clear::<T>(c.cells, c.dirties[caller], caller),
        dirties: c.dirties.update(caller, cleared_ledger(c.dirties[caller])),
        ..c
    }
}

/// The context after one listener registration against one trigger: a
/// fresh registration id keys the new entry.
pub open spec fn register_spec<V>(c: CtxView<V>, caller: int, ptr: usize) -> CtxView<V> {
    CtxView {
        listeners: c.listeners.update(
            caller,
            c.listeners[caller].push(ListenerEntry { ptr, reg: c.next_reg }),
        ),
        next_reg: (c.next_reg + 1) as u64,
        ..c
    }
}

/// The context after one listener registration against two triggers:
/// both entries share one fresh registration id, so the callback fires
/// once per notify pass even when both triggers are dirty.
pub open spec fn register2_spec<V>(c: CtxView<V>, caller: int, ptr1: usize, ptr2: usize) -> CtxView<
    V,
> {
    CtxView {
        listeners: c.listeners.update(
            caller,
            c.listeners[caller].push(ListenerEntry { ptr: ptr1, reg: c.next_reg }).push(
                ListenerEntry { ptr: ptr2, reg: c.next_reg },
            ),
        ),
        next_reg: (c.next_reg + 1) as u64,
        ..c
    }
}

/// A registry without the entries of one (trigger, registration id)
/// pair.
pub open spec fn without_listener(l: Seq<ListenerEntry>, ptr: usize, reg: u64) -> Seq<
    ListenerEntry,
>
    decreases l.len(),
{
    if l.len() == 0 {
        Seq::empty()
    } else {
        let rest = without_listener(l.drop_last(), ptr, reg);
        if l.last().ptr == ptr && l.last().reg == reg {
            rest
        } else {
            rest.push(l.last())
        }
    }
}

/// The context after a registration's owner releases it: every entry it
/// put in place leaves the registry of the role that created it.
pub open spec fn unregister_spec<V>(c: CtxView<V>, from: int, handles: Seq<ListenerHandle>) -> CtxView<
    V,
>
    decreases handles.len(),
{
    if handles.len() == 0 {
        c
    } else {
        let c1 = unregister_spec(c, from, handles.drop_last());
        let h = handles.last();
        CtxView {
            listeners: c1.listeners.update(
                from,
                without_listener(c1.listeners[from], h.ptr, h.reg),
            ),
            ..c1
        }
    }
}

/// A registration id joins the fire list only once.
pub open spec fn dedup_push(acc: Seq<u64>, x: u64) -> Seq<u64> {
    if acc.contains(x) {
        acc
    } else {
        acc.push(x)
    }
}

/// One registry entry's contribution to the fire list for one identity.
pub open spec fn fire_entry(acc: Seq<u64>, e: ListenerEntry, ptr: usize) -> Seq<u64> {
    if e.ptr == ptr {
        dedup_push(acc, e.reg)
    } else {
        acc
    }
}

/// The fire list after walking the whole registry for one identity.
pub open spec fn fire_ptr(reg: Seq<ListenerEntry>, ptr: usize, acc: Seq<u64>) -> Seq<u64>
    decreases reg.len(),
{
    if reg.len() == 0 {
        acc
    } else {
        fire_ptr(reg.drop_first(), ptr, fire_entry(acc, reg[0], ptr))
    }
}

/// The fire list for a batch of identities: the registration ids whose
/// callbacks fire, each exactly once, in first-encounter order.
pub open spec fn fire_batch(reg: Seq<ListenerEntry>, d: Seq<usize>, acc: Seq<u64>) -> Seq<u64>
    decreases d.len(),
{
    if d.len() == 0 {
        acc
    } else {
        fire_batch(reg, d.drop_first(), fire_ptr(reg, d[0], acc))
    }
}

/// Extending a prefix by one entry extends `has_sendable` by exactly
/// that entry's contribution.
pub proof fn lemma_has_sendable_step(l: Seq<DirtyEntry>, k: int, id: int)
    requires
        0 <= k < l.len(),
    ensures
        has_sendable(l.take(k + 1), id) == (has_sendable(l.take(k), id) || (sendable(l[k].state)
            && l[k].cell == id)),
{
    let a = l.take(k + 1);
    let b = l.take(k);
    if has_sendable(a, id) {
        let i = choose|i: int| 0 <= i < a.len() && sendable((#[trigger] a[i]).state) && a[i].cell
            == id;
        if i < k {
            assert(b[i] == a[i]);
            assert(has_sendable(b, id));
        } else {
            assert(a[k] == l[k]);
        }
    }
    if has_sendable(b, id) {
        let i = choose|i: int| 0 <= i < b.len() && sendable((#[trigger] b[i]).state) && b[i].cell
            == id;
        assert(a[i] == b[i]);
        assert(has_sendable(a, id));
    }
    if sendable(l[k].state) && l[k].cell == id {
        assert(a[k] == l[k]);
        assert(has_sendable(a, id));
    }
}

/// The same step fact for `has_mutated`.
pub proof fn lemma_has_mutated_step(l: Seq<DirtyEntry>, k: int, id: int)
    requires
        0 <= k < l.len(),
    ensures
        has_mutated(l.take(k + 1), id) == (has_mutated(l.take(k), id) || (l[k].state
            == GenState::Mutated && l[k].cell == id)),
{
    let a = l.take(k + 1);
    let b = l.take(k);
    if has_mutated(a, id) {
        let i = choose|i: int|
            0 <= i < a.len() && (#[trigger] a[i]).state == GenState::Mutated && a[i].cell == id;
        if i < k {
            assert(b[i] == a[i]);
            assert(has_mutated(b, id));
        } else {
            assert(a[k] == l[k]);
        }
    }
    if has_mutated(b, id) {
        let i = choose|i: int|
            0 <= i < b.len() && (#[trigger] b[i]).state == GenState::Mutated && b[i].cell == id;
        assert(a[i] == b[i]);
        assert(has_mutated(a, id));
    }
    if l[k].state == GenState::Mutated && l[k].cell == id {
        assert(a[k] == l[k]);
        assert(has_mutated(a, id));
    }
}

/// An entry eligible for propagation is the only entry of its identity
/// before its position (its duplicates, if any, sit after it, at or past
/// the terminal state).
pub proof fn lemma_sendable_is_first(l: Seq<DirtyEntry>, k: int)
    requires
        ledger_dup_ok(l),
        0 <= k < l.len(),
        sendable(l[k].state),
    ensures
        forall|i: int| 0 <= i < k ==> (#[trigger] l[i]).cell != l[k].cell,
        !has_sendable(l.take(k), l[k].cell as int),
{
    assert forall|i: int| 0 <= i < k implies (#[trigger] l[i]).cell != l[k].cell by {
        if l[i].cell == l[k].cell {
            assert(!sendable(l[k].state));
        }
    }
    if has_sendable(l.take(k), l[k].cell as int) {
        let i = choose|i: int|
            0 <= i < l.take(k).len() && sendable((#[trigger] l.take(k)[i]).state) && l.take(
                k,
            )[i].cell == l[k].cell as int;
        assert(l[i] == l.take(k)[i]);
    }
}

/// Everything `find_entry` guarantees: the result is a position in the
/// ledger (or its length), it carries the identity searched for, and no
/// earlier position does.
pub proof fn lemma_find_entry(l: Seq<DirtyEntry>, id: usize)
    ensures
        0 <= find_entry(l, id) <= l.len(),
        find_entry(l, id) < l.len() ==> l[find_entry(l, id)].cell == id,
        forall|k: int| 0 <= k < find_entry(l, id) ==> (#[trigger] l[k]).cell != id,
    decreases l.len(),
{
    if l.len() > 0 && l[0].cell != id {
        lemma_find_entry(l.drop_first(), id);
        assert forall|k: int| 0 <= k < find_entry(l, id) implies (#[trigger] l[k]).cell != id by {
            if k > 0 {
                assert(l.drop_first()[k - 1] == l[k]);
            }
        }
    }
}

/// The process-wide protocol state, held as an explicit context rather
/// than hidden statics: the dirty ledgers and listener registries of
/// every role, together with the storage of every tracked value created
/// against it. Built by `init_dirties`, released by `drop_dirties`, and
/// passed to every entry point.
pub struct Ctx<T> {
    cells: Vec<TrustCell<T>>,
    dirties: Vec<Vec<DirtyEntry>>,
    listeners: Vec<Vec<ListenerEntry>>,
    next_reg: u64,
}

impl<T: DeepView> View for Ctx<T> {
    type V = CtxView<Dv<T>>;

    closed spec fn view(&self) -> CtxView<Dv<T>> {
        CtxView {
            cells: Seq::new(self.cells@.len(), |i: int| self.cells@[i]@),
            dirties: Seq::new(self.dirties@.len(), |i: int| self.dirties@[i]@),
            listeners: Seq::new(self.listeners@.len(), |i: int| self.listeners@[i]@),
            next_reg: self.next_reg,
        }
    }
}

impl<T: DeepView> Ctx<T> {
    pub open spec fn wf(&self) -> bool {
        self@.wf()
    }
}

impl<T: ManualCopy> Ctx<T> {
    /// Registers a new tracked value and answers its identity.
    pub(crate) fn add_cell(&mut self, cell: TrustCell<T>) -> (id: usize)
        requires
            old(self).wf(),
            cell@.len() == THREADS,
        ensures
            final(self)@ == (CtxView { cells: old(self)@.cells.push(cell@), ..old(self)@ }),
            id == old(self)@.cells.len(),
            final(self).wf(),
    {
        let id = self.cells.len();
        self.cells.push(cell);
        proof {
            assert(self@.cells =~= old(self)@.cells.push(cell@));
            assert(self@ =~= (CtxView { cells: old(self)@.cells.push(cell@), ..old(self)@ }));
            assert forall|r: int| 0 <= r < THREADS implies ledger_in_range(
                #[trigger] self@.dirties[r],
                self@.cells.len(),
            ) by {
                assert(ledger_in_range(old(self)@.dirties[r], old(self)@.cells.len()));
            }
        }
        id
    }

    /// Read access to one replica of one tracked value.
    pub(crate) fn cell_get(&self, id: usize, role: usize) -> (r: &T)
        requires
            self.wf(),
            id < self@.cells.len(),
            role < THREADS,
        ensures
            r.deep_view() == self@.cells[id as int][role as int],
    {
        self.cells[id].get(role)
    }

    /// Overwrites one replica of one tracked value.
    pub(crate) fn set_replica(&mut self, id: usize, role: usize, value: T)
        requires
            old(self).wf(),
            id < old(self)@.cells.len(),
            role < THREADS,
        ensures
            final(self)@ == (CtxView {
                cells: old(self)@.cells.update(
                    id as int,
                    old(self)@.cells[id as int].update(role as int, value.deep_view()),
                ),
                ..old(self)@
            }),
            final(self).wf(),
    {
        let ghost v = value.deep_view();
        {
            let c = &mut self.cells[id];
            let slot = c.to_mut(role);
            *slot = value;
        }
        proof {
            assert(self@.cells =~= old(self)@.cells.update(
                id as int,
                old(self)@.cells[id as int].update(role as int, v),
            ));
            assert(self@ =~= (CtxView { cells: self@.cells, ..old(self)@ }));
        }
    }

    /// Merges the `from` replica of one tracked value into its `to`
    /// replica.
    pub(crate) fn merge_cell(&mut self, id: usize, from: usize, to: usize)
        requires
            old(self).wf(),
            id < old(self)@.cells.len(),
            from < THREADS,
            to < THREADS,
            from != to,
        ensures
            final(self)@ == (CtxView {
                cells: old(self)@.cells.update(
                    id as int,
                    merged_cell::<T>(old(self)@.cells[id as int], from as int, to as int),
                ),
                ..old(self)@
            }),
            final(self).wf(),
    {
        {
            let c = &mut self.cells[id];
            c.inner_manual_copy(from, to);
        }
        proof {
            assert(self@.cells =~= old(self)@.cells.update(
                id as int,
                merged_cell::<T>(old(self)@.cells[id as int], from as int, to as int),
            ));
            assert(self@ =~= (CtxView { cells: self@.cells, ..old(self)@ }));
        }
    }

    /// Swaps one replica of one tracked value for the given one and
    /// hands the previous replica out.
    pub(crate) fn replace_replica(&mut self, id: usize, role: usize, value: T) -> (prev: T)
        requires
            old(self).wf(),
            id < old(self)@.cells.len(),
            role < THREADS,
        ensures
            prev.deep_view() == old(self)@.cells[id as int][role as int],
            final(self)@ == (CtxView {
                cells: old(self)@.cells.update(
                    id as int,
                    old(self)@.cells[id as int].update(role as int, value.deep_view()),
                ),
                ..old(self)@
            }),
            final(self).wf(),
    {
        let mut value = value;
        let ghost v = value.deep_view();
        {
            let c = &mut self.cells[id];
            let slot = c.to_mut(role);
            core::mem::swap(slot, &mut value);
        }
        proof {
            assert(self@.cells =~= old(self)@.cells.update(
                id as int,
                old(self)@.cells[id as int].update(role as int, v),
            ));
            assert(self@ =~= (CtxView { cells: self@.cells, ..old(self)@ }));
        }
        value
    }

    /// Runs the type's cleanup on one replica of one tracked value.
    pub(crate) fn clear_cell(&mut self, id: usize, role: usize)
        requires
            old(self).wf(),
            id < old(self)@.cells.len(),
            role < THREADS,
        ensures
            final(self)@ == (CtxView {
                cells: old(self)@.cells.update(
                    id as int,
                    old(self)@.cells[id as int].update(
                        role as int,
                        T::cleared(old(self)@.cells[id as int][role as int]),
                    ),
                ),
                ..old(self)@
            }),
            final(self).wf(),
    {
        {
            let c = &mut self.cells[id];
            c.inner_manual_clear(role);
        }
        proof {
            assert(self@.cells =~= old(self)@.cells.update(
                id as int,
                old(self)@.cells[id as int].update(
                    role as int,
                    T::cleared(old(self)@.cells[id as int][role as int]),
                ),
            ));
            assert(self@ =~= (CtxView { cells: self@.cells, ..old(self)@ }));
        }
    }
}

impl<T: DeepView> Ctx<T> {
    /// Swaps one role's ledger out, leaving an empty one behind.
    pub(crate) fn take_ledger(&mut self, r: usize) -> (l: Vec<DirtyEntry>)
        requires
            old(self).wf(),
            r < THREADS,
        ensures
            l@ == old(self)@.dirties[r as int],
            final(self)@ == (CtxView {
                dirties: old(self)@.dirties.update(r as int, Seq::<DirtyEntry>::empty()),
                ..old(self)@
            }),
            final(self).wf(),
    {
        let l = self.dirties.remove(r);
        self.dirties.insert(r, Vec::new());
        proof {
            assert(self@.dirties =~= old(self)@.dirties.update(
                r as int,
                Seq::<DirtyEntry>::empty(),
            ));
            assert(self@ =~= (CtxView { dirties: self@.dirties, ..old(self)@ }));
        }
        l
    }

    /// Replaces one role's ledger.
    pub(crate) fn set_ledger(&mut self, r: usize, l: Vec<DirtyEntry>)
        requires
            old(self).wf(),
            r < THREADS,
            ledger_in_range(l@, old(self)@.cells.len()),
            ledger_dup_ok(l@),
        ensures
            final(self)@ == (CtxView {
                dirties: old(self)@.dirties.update(r as int, l@),
                ..old(self)@
            }),
            final(self).wf(),
    {
        let ghost lv = l@;
        let _dropped = self.dirties.remove(r);
        self.dirties.insert(r, l);
        proof {
            assert(self@.dirties =~= old(self)@.dirties.update(r as int, lv));
            assert(self@ =~= (CtxView { dirties: self@.dirties, ..old(self)@ }));
        }
    }

    /// Appends one entry to one role's ledger.
    pub(crate) fn push_entry(&mut self, r: usize, e: DirtyEntry)
        requires
            old(self).wf(),
            r < THREADS,
            e.cell < old(self)@.cells.len(),
            sendable(e.state) ==> forall|k: int|
                0 <= k < old(self)@.dirties[r as int].len() ==> (#[trigger] old(
                    self,
                )@.dirties[r as int][k]).cell != e.cell,
        ensures
            final(self)@ == (CtxView {
                dirties: old(self)@.dirties.update(
                    r as int,
                    old(self)@.dirties[r as int].push(e),
                ),
                ..old(self)@
            }),
            final(self).wf(),
    {
        let ghost oldl = self@.dirties[r as int];
        {
            let row = &mut self.dirties[r];
            row.push(e);
        }
        proof {
            assert(self@.dirties =~= old(self)@.dirties.update(r as int, oldl.push(e)));
            assert(self@ =~= (CtxView { dirties: self@.dirties, ..old(self)@ }));
            let newl = oldl.push(e);
            assert forall|i: int, j: int|
                0 <= i < j < newl.len() && (#[trigger] newl[i]).cell == (#[trigger] newl[j]).cell
                implies !sendable(newl[j].state) by {
                if j < oldl.len() {
                    assert(ledger_dup_ok(oldl));
                } else {
                    assert(newl[j] == e);
                }
            }
        }
    }

    /// Overwrites one entry of one role's ledger, keeping its identity.
    pub(crate) fn set_entry_state(&mut self, r: usize, i: usize, s: GenState)
        requires
            old(self).wf(),
            r < THREADS,
            i < old(self)@.dirties[r as int].len(),
            sendable(s) ==> forall|k: int|
                0 <= k < i ==> (#[trigger] old(self)@.dirties[r as int][k]).cell != old(
                    self,
                )@.dirties[r as int][i as int].cell,
        ensures
            final(self)@ == (CtxView {
                dirties: old(self)@.dirties.update(
                    r as int,
                    old(self)@.dirties[r as int].update(
                        i as int,
                        (DirtyEntry {
                            state: s,
                            cell: old(self)@.dirties[r as int][i as int].cell,
                        }),
                    ),
                ),
                ..old(self)@
            }),
            final(self).wf(),
    {
        let ghost oldl = self@.dirties[r as int];
        let cell = {
            let row = &self.dirties[r];
            row[i].cell
        };
        {
            let row = &mut self.dirties[r];
            let slot = &mut row[i];
            *slot = DirtyEntry { state: s, cell };
        }
        proof {
            let e = DirtyEntry { state: s, cell };
            let newl = oldl.update(i as int, e);
            assert(self@.dirties =~= old(self)@.dirties.update(r as int, newl));
            assert(self@ =~= (CtxView { dirties: self@.dirties, ..old(self)@ }));
            assert forall|a: int, b: int|
                0 <= a < b < newl.len() && (#[trigger] newl[a]).cell == (#[trigger] newl[b]).cell
                implies !sendable(newl[b].state) by {
                assert(ledger_dup_ok(oldl));
                assert(oldl[a].cell == newl[a].cell);
                assert(oldl[b].cell == newl[b].cell);
            }
        }
    }

    /// One entry of one role's ledger.
    pub(crate) fn entry_at(&self, r: usize, i: usize) -> (e: DirtyEntry)
        requires
            self.wf(),
            r < THREADS,
            i < self@.dirties[r as int].len(),
        ensures
            e == self@.dirties[r as int][i as int],
    {
        self.dirties[r][i]
    }

    /// Length of one role's ledger.
    pub(crate) fn ledger_len(&self, r: usize) -> (n: usize)
        requires
            self.wf(),
            r < THREADS,
        ensures
            n == self@.dirties[r as int].len(),
    {
        self.dirties[r].len()
    }

    /// Hands out a fresh registration id.
    pub(crate) fn alloc_reg(&mut self) -> (reg: u64)
        requires
            old(self).wf(),
            old(self)@.next_reg < u64::MAX,
        ensures
            reg == old(self)@.next_reg,
            final(self)@ == (CtxView { next_reg: (old(self)@.next_reg + 1) as u64, ..old(self)@ }),
            final(self).wf(),
    {
        let reg = self.next_reg;
        self.next_reg = self.next_reg + 1;
        proof {
            assert(self@ =~= (CtxView { next_reg: (old(self)@.next_reg + 1) as u64, ..old(self)@ }));
            assert forall|r: int| 0 <= r < THREADS implies regs_below(
                #[trigger] self@.listeners[r],
                self@.next_reg,
            ) by {
                assert(regs_below(old(self)@.listeners[r], old(self)@.next_reg));
            }
        }
        reg
    }

    /// Appends one entry to one role's listener registry.
    pub(crate) fn push_listener(&mut self, r: usize, e: ListenerEntry)
        requires
            old(self).wf(),
            r < THREADS,
            e.reg < old(self)@.next_reg,
        ensures
            final(self)@ == (CtxView {
                listeners: old(self)@.listeners.update(
                    r as int,
                    old(self)@.listeners[r as int].push(e),
                ),
                ..old(self)@
            }),
            final(self).wf(),
    {
        let ghost oldl = self@.listeners[r as int];
        {
            let row = &mut self.listeners[r];
            row.push(e);
        }
        proof {
            assert(self@.listeners =~= old(self)@.listeners.update(r as int, oldl.push(e)));
            assert(self@ =~= (CtxView { listeners: self@.listeners, ..old(self)@ }));
        }
    }

    /// Swaps one role's listener registry out, leaving an empty one.
    pub(crate) fn take_listeners(&mut self, r: usize) -> (l: Vec<ListenerEntry>)
        requires
            old(self).wf(),
            r < THREADS,
        ensures
            l@ == old(self)@.listeners[r as int],
            final(self)@ == (CtxView {
                listeners: old(self)@.listeners.update(r as int, Seq::<ListenerEntry>::empty()),
                ..old(self)@
            }),
            final(self).wf(),
    {
        let l = self.listeners.remove(r);
        self.listeners.insert(r, Vec::new());
        proof {
            assert(self@.listeners =~= old(self)@.listeners.update(
                r as int,
                Seq::<ListenerEntry>::empty(),
            ));
            assert(self@ =~= (CtxView { listeners: self@.listeners, ..old(self)@ }));
        }
        l
    }

    /// Replaces one role's listener registry.
    pub(crate) fn set_listeners(&mut self, r: usize, l: Vec<ListenerEntry>)
        requires
            old(self).wf(),
            r < THREADS,
            regs_below(l@, old(self)@.next_reg),
        ensures
            final(self)@ == (CtxView {
                listeners: old(self)@.listeners.update(r as int, l@),
                ..old(self)@
            }),
            final(self).wf(),
    {
        let ghost lv = l@;
        let _dropped = self.listeners.remove(r);
        self.listeners.insert(r, l);
        proof {
            assert(self@.listeners =~= old(self)@.listeners.update(r as int, lv));
            assert(self@ =~= (CtxView { listeners: self@.listeners, ..old(self)@ }));
        }
    }

    /// The ledger half of the mutation entry point: registers (or
    /// re-validates) a dirty entry for the given identity in the calling
    /// role's ledger, or rejects the call as a protocol violation.
    pub(crate) fn mark_dirty(&mut self, id: usize, caller: usize, strict: bool) -> (r: Result<
        (),
        ProtocolError,
    >)
        requires
            old(self).wf(),
            caller < THREADS,
            id < old(self)@.cells.len(),
        ensures
            r == mutate_result(old(self)@.dirties[caller as int], id, strict),
            r is Ok ==> final(self)@ == (CtxView {
                dirties: old(self)@.dirties.update(
                    caller as int,
                    mutated_ledger(old(self)@.dirties[caller as int], id),
                ),
                ..old(self)@
            }),
            r is Err ==> final(self)@ == old(self)@,
            final(self).wf(),
    {
        let ghost l = self@.dirties[caller as int];
        proof {
            lemma_find_entry(l, id);
        }
        let n = self.ledger_len(caller);
        let mut j: usize = 0;
        let mut idx: usize = n;
        while j < n
            invariant
                self.wf(),
                self@ == old(self)@,
                caller < THREADS,
                l == self@.dirties[caller as int],
                n == l.len(),
                0 <= j <= n,
                idx == n || (idx < j && l[idx as int].cell == id),
                idx == n ==> forall|k: int| 0 <= k < j ==> (#[trigger] l[k]).cell != id,
                idx < n ==> forall|k: int| 0 <= k < idx ==> (#[trigger] l[k]).cell != id,
            decreases n - j,
        {
            if idx == n {
                let e = self.entry_at(caller, j);
                if e.cell == id {
                    idx = j;
                }
            }
            j = j + 1;
        }
        proof {
            if idx < n {
                assert(find_entry(l, id) == idx);
            } else {
                assert(find_entry(l, id) == l.len());
            }
        }
        if idx == n {
            let e = DirtyEntry { state: GenState::Mutated, cell: id };
            self.push_entry(caller, e);
            proof {
                assert(mutated_ledger(l, id) =~= l.push(e));
            }
            Ok(())
        } else {
            let e = self.entry_at(caller, idx);
            if e.state == GenState::Mutated && strict {
                Err(ProtocolError::DoubleMutation)
            } else if e.state == GenState::Terminal {
                Err(ProtocolError::AlreadyPropagated)
            } else {
                self.set_entry_state(caller, idx, GenState::Mutated);
                proof {
                    assert(mutated_ledger(l, id) =~= l.update(
                        idx as int,
                        (DirtyEntry { state: GenState::Mutated, cell: id }),
                    ));
                }
                Ok(())
            }
        }
    }
}

/// Creates the per-role ledger and registry state. Nothing is tracked
/// yet: values enter the context when their handles are created.
pub fn init_dirties<T: DeepView>() -> (ctx: Ctx<T>)
    ensures
        ctx.wf(),
        ctx@.cells.len() == 0,
        forall|r: int| 0 <= r < THREADS ==> (#[trigger] ctx@.dirties[r]).len() == 0,
        forall|r: int| 0 <= r < THREADS ==> (#[trigger] ctx@.listeners[r]).len() == 0,
        ctx@.next_reg == 0,
{
    let mut dirties: Vec<Vec<DirtyEntry>> = Vec::new();
    dirties.push(Vec::new());
    dirties.push(Vec::new());
    dirties.push(Vec::new());
    let mut listeners: Vec<Vec<ListenerEntry>> = Vec::new();
    listeners.push(Vec::new());
    listeners.push(Vec::new());
    listeners.push(Vec::new());
    Ctx { cells: Vec::new(), dirties, listeners, next_reg: 0 }
}

/// Releases the context. Call it only after every role is done with its
/// handles; retained listener registrations die with it.
pub fn drop_dirties<T: DeepView>(ctx: Ctx<T>) {
}

/// True exactly when no role has pending dirty entries or live listener
/// registrations: the clean state expected at teardown.
pub fn ensure_empty_dirties<T: DeepView>(ctx: &Ctx<T>) -> (r: bool)
    requires
        ctx.wf(),
    ensures
        r == ((forall|i: int| 0 <= i < THREADS ==> (#[trigger] ctx@.dirties[i]).len() == 0)
            && (forall|i: int| 0 <= i < THREADS ==> (#[trigger] ctx@.listeners[i]).len() == 0)),
{
    let mut i: usize = 0;
    let mut all_empty = true;
    while i < THREADS
        invariant
            0 <= i <= THREADS,
            ctx.wf(),
            all_empty ==> forall|k: int| 0 <= k < i ==> (#[trigger] ctx@.dirties[k]).len() == 0,
            all_empty ==> forall|k: int| 0 <= k < i ==> (#[trigger] ctx@.listeners[k]).len() == 0,
            !all_empty ==> (exists|k: int| 0 <= k < i && (#[trigger] ctx@.dirties[k]).len() != 0)
                || (exists|k: int| 0 <= k < i && (#[trigger] ctx@.listeners[k]).len() != 0),
        decreases THREADS - i,
    {
        proof {
            assert(ctx@.dirties[i as int] == ctx.dirties@[i as int]@);
            assert(ctx@.listeners[i as int] == ctx.listeners@[i as int]@);
        }
        if ctx.dirties[i].len() != 0 || ctx.listeners[i].len() != 0 {
            all_empty = false;
        }
        i = i + 1;
    }
    all_empty
}

/// How many tracked values the context holds; a handle is valid for it
/// exactly when its identity lies below this count.
pub fn cell_count<T: DeepView>(ctx: &Ctx<T>) -> (n: usize)
    requires
        ctx.wf(),
    ensures
        n == ctx@.cells.len(),
{
    ctx.cells.len()
}

/// The next registration id the listener registry will hand out.
pub fn next_registration_id<T: DeepView>(ctx: &Ctx<T>) -> (n: u64)
    requires
        ctx.wf(),
    ensures
        n == ctx@.next_reg,
{
    ctx.next_reg
}

/// Read access to one role's dirty ledger.
pub fn get_dirties<T: DeepView>(ctx: &Ctx<T>, i: usize) -> (l: &Vec<DirtyEntry>)
    requires
        ctx.wf(),
        i < THREADS,
    ensures
        l@ == ctx@.dirties[i as int],
{
    &ctx.dirties[i]
}

/// Drains the `from` role's dirty ledger toward the `to` role: every
/// entry below the terminal state has its tracked value merged into the
/// `to` replica and is handed to the target ledger at the terminal
/// state; provisionally dirty entries also re-register themselves in the
/// caller's ledger; entries already at or past the terminal state are
/// dropped without being merged or re-sent.
pub fn sync_to<T: ManualCopy>(ctx: &mut Ctx<T>, from: usize, to: usize)
    requires
        old(ctx).wf(),
        from < THREADS,
        to < THREADS,
        from != to,
    ensures
        final(ctx)@ == sync_to_spec::<T>(old(ctx)@, from as int, to as int),
        final(ctx).wf(),
{
    let ghost c0 = ctx@;
    let work = ctx.take_ledger(from);
    let ghost l = work@;
    proof {
        assert(ledger_dup_ok(l));
        assert(ledger_in_range(l, c0.cells.len()));
    }
    let n = work.len();
    let mut retained: Vec<DirtyEntry> = Vec::new();
    let mut sent: Vec<DirtyEntry> = Vec::new();
    let mut k: usize = 0;
    while k < n
        invariant
            ctx.wf(),
            from < THREADS,
            to < THREADS,
            from != to,
            work@ == l,
            n == l.len(),
            0 <= k <= n,
            ledger_dup_ok(l),
            ledger_in_range(l, c0.cells.len()),
            ctx@.dirties == c0.dirties.update(from as int, Seq::<DirtyEntry>::empty()),
            ctx@.listeners == c0.listeners,
            ctx@.next_reg == c0.next_reg,
            ctx@.cells.len() == c0.cells.len(),
            forall|id: int|
                0 <= id < c0.cells.len() ==> #[trigger] ctx@.cells[id] == (if has_sendable(
                    l.take(k as int),
                    id,
                ) {
                    merged_cell::<T>(c0.cells[id], from as int, to as int)
                } else {
                    c0.cells[id]
                }),
            retained@ == retained_after_sync(l.take(k as int)),
            sent@ == sent_after_sync(l.take(k as int)),
            forall|a: int|
                0 <= a < retained@.len() ==> sendable((#[trigger] retained@[a]).state)
                    && retained@[a].cell < c0.cells.len() && has_sendable(
                    l.take(k as int),
                    retained@[a].cell as int,
                ),
            forall|a: int, b: int|
                0 <= a < b < retained@.len() ==> (#[trigger] retained@[a]).cell
                    != (#[trigger] retained@[b]).cell,
            forall|a: int|
                0 <= a < sent@.len() ==> (#[trigger] sent@[a]).state == GenState::Terminal
                    && sent@[a].cell < c0.cells.len(),
        decreases n - k,
    {
        let e = work[k];
        proof {
            assert(l.take(k + 1).drop_last() =~= l.take(k as int));
            assert(l.take(k + 1).last() == l[k as int]);
        }
        if e.state != GenState::Terminal && e.state != GenState::Clearing {
            proof {
                assert(sendable(e.state));
                lemma_sendable_is_first(l, k as int);
            }
            ctx.merge_cell(e.cell, from, to);
            if e.state == GenState::Mutated {
                retained.push(e);
            }
            sent.push(DirtyEntry { state: GenState::Terminal, cell: e.cell });
        } else {
            proof {
                assert(!sendable(e.state));
            }
        }
        proof {
            assert forall|id: int| 0 <= id < c0.cells.len() implies #[trigger] ctx@.cells[id] == (
            if has_sendable(l.take(k + 1), id) {
                merged_cell::<T>(c0.cells[id], from as int, to as int)
            } else {
                c0.cells[id]
            }) by {
                lemma_has_sendable_step(l, k as int, id);
            }
            assert forall|a: int|
                0 <= a < retained@.len() implies sendable((#[trigger] retained@[a]).state)
                && retained@[a].cell < c0.cells.len() && has_sendable(
                l.take(k + 1),
                retained@[a].cell as int,
            ) by {
                lemma_has_sendable_step(l, k as int, retained@[a].cell as int);
            }
        }
        k = k + 1;
    }
    proof {
        assert(l.take(n as int) =~= l);
    }
    ctx.set_ledger(from, retained);
    let mut tgt = ctx.take_ledger(to);
    let ghost old_to = c0.dirties[to as int];
    tgt.append(&mut sent);
    proof {
        assert forall|a: int, b: int|
            0 <= a < b < tgt@.len() && (#[trigger] tgt@[a]).cell == (#[trigger] tgt@[b]).cell
            implies !sendable(tgt@[b].state) by {
            if b < old_to.len() {
                assert(ledger_dup_ok(old_to));
                assert(tgt@[a] == old_to[a]);
                assert(tgt@[b] == old_to[b]);
            } else {
                assert(tgt@[b] == sent_after_sync(l)[b - old_to.len()]);
            }
        }
        assert forall|a: int| 0 <= a < tgt@.len() implies (#[trigger] tgt@[a]).cell
            < ctx@.cells.len() by {
            if a < old_to.len() {
                assert(ledger_in_range(old_to, c0.cells.len()));
                assert(tgt@[a] == old_to[a]);
            } else {
                assert(tgt@[a] == sent_after_sync(l)[a - old_to.len()]);
            }
        }
    }
    ctx.set_ledger(to, tgt);
    proof {
        assert(ctx@.dirties =~= sync_to_spec::<T>(c0, from as int, to as int).dirties);
        assert(ctx@.cells =~= sync_to_spec::<T>(c0, from as int, to as int).cells);
        assert(ctx@ =~= sync_to_spec::<T>(c0, from as int, to as int));
    }
}

/// Intra-role relaxation: for every provisionally dirty entry in the
/// caller's own ledger, merges the `from` replica into the caller's
/// replica and advances the entry to the propagated state. Used by the
/// mutation role to reconcile its pending writes without a handshake.
pub fn sync_from<T: ManualCopy>(ctx: &mut Ctx<T>, caller: usize, from: usize)
    requires
        old(ctx).wf(),
        caller < THREADS,
        from < THREADS,
        from != caller,
    ensures
        final(ctx)@ == sync_from_spec::<T>(old(ctx)@, caller as int, from as int),
        final(ctx).wf(),
{
    let ghost c0 = ctx@;
    let ghost l = c0.dirties[caller as int];
    proof {
        assert(ledger_dup_ok(l));
        assert(ledger_in_range(l, c0.cells.len()));
    }
    let n = ctx.ledger_len(caller);
    let mut k: usize = 0;
    while k < n
        invariant
            ctx.wf(),
            caller < THREADS,
            from < THREADS,
            from != caller,
            n == l.len(),
            0 <= k <= n,
            ledger_dup_ok(l),
            ledger_in_range(l, c0.cells.len()),
            ctx@.listeners == c0.listeners,
            ctx@.next_reg == c0.next_reg,
            ctx@.cells.len() == c0.cells.len(),
            ctx@.dirties.len() == THREADS,
            forall|r: int| 0 <= r < THREADS && r != caller ==> #[trigger] ctx@.dirties[r]
                == c0.dirties[r],
            ctx@.dirties[caller as int].len() == n,
            forall|j: int|
                0 <= j < n ==> #[trigger] ctx@.dirties[caller as int][j] == (if j < k
                    && l[j].state == GenState::Mutated {
                    DirtyEntry { state: GenState::Propagated, cell: l[j].cell }
                } else {
                    l[j]
                }),
            forall|id: int|
                0 <= id < c0.cells.len() ==> #[trigger] ctx@.cells[id] == (if has_mutated(
                    l.take(k as int),
                    id,
                ) {
                    merged_cell::<T>(c0.cells[id], from as int, caller as int)
                } else {
                    c0.cells[id]
                }),
        decreases n - k,
    {
        let ghost pre = ctx@;
        let e = ctx.entry_at(caller, k);
        proof {
            assert(e == l[k as int]);
        }
        if e.state == GenState::Mutated {
            proof {
                lemma_sendable_is_first(l, k as int);
            }
            ctx.merge_cell(e.cell, from, caller);
            proof {
                assert forall|j: int| 0 <= j < k implies (#[trigger] ctx@.dirties[caller as int][j]).cell
                    != e.cell by {
                    assert(ctx@.dirties[caller as int][j].cell == l[j].cell);
                }
            }
            ctx.set_entry_state(caller, k, GenState::Propagated);
        }
        proof {
            assert forall|id: int| 0 <= id < c0.cells.len() implies #[trigger] ctx@.cells[id] == (
            if has_mutated(l.take(k + 1), id) {
                merged_cell::<T>(c0.cells[id], from as int, caller as int)
            } else {
                c0.cells[id]
            }) by {
                lemma_has_mutated_step(l, k as int, id);
                if l[k as int].state == GenState::Mutated {
                    lemma_sendable_is_first(l, k as int);
                }
            }
        }
        k = k + 1;
    }
    proof {
        assert(l.take(n as int) =~= l);
        assert(ctx@.dirties[caller as int] =~= relaxed_ledger(l));
        assert(ctx@.dirties =~= c0.dirties.update(caller as int, relaxed_ledger(l)));
        assert(ctx@.cells =~= sync_from_spec::<T>(c0, caller as int, from as int).cells);
        assert(ctx@ =~= sync_from_spec::<T>(c0, caller as int, from as int));
    }
}

/// Notification preparation: scans the caller's ledger, advancing
/// propagated entries to the notifying state and terminal entries to the
/// clearing state, and answers the identities to notify, in ledger
/// order. The two-phase split keeps callbacks from observing the ledger
/// mid-scan.
pub fn prepare_peek_notify<T: ManualCopy>(ctx: &mut Ctx<T>, caller: usize) -> (d: Vec<usize>)
    requires
        old(ctx).wf(),
        caller < THREADS,
    ensures
        final(ctx)@ == (CtxView {
            dirties: old(ctx)@.dirties.update(
                caller as int,
                prepared_ledger(old(ctx)@.dirties[caller as int]),
            ),
            ..old(ctx)@
        }),
        d@ == prepared_ids(old(ctx)@.dirties[caller as int]),
        final(ctx).wf(),
{
    let ghost c0 = ctx@;
    let ghost l = c0.dirties[caller as int];
    proof {
        assert(ledger_dup_ok(l));
    }
    let n = ctx.ledger_len(caller);
    let mut d: Vec<usize> = Vec::new();
    let mut k: usize = 0;
    while k < n
        invariant
            ctx.wf(),
            caller < THREADS,
            n == l.len(),
            0 <= k <= n,
            ledger_dup_ok(l),
            ctx@.cells == c0.cells,
            ctx@.listeners == c0.listeners,
            ctx@.next_reg == c0.next_reg,
            ctx@.dirties.len() == THREADS,
            forall|r: int| 0 <= r < THREADS && r != caller ==> #[trigger] ctx@.dirties[r]
                == c0.dirties[r],
            ctx@.dirties[caller as int].len() == n,
            forall|j: int|
                0 <= j < n ==> #[trigger] ctx@.dirties[caller as int][j] == (if j < k {
                    prepared_ledger(l)[j]
                } else {
                    l[j]
                }),
            d@ == prepared_ids(l.take(k as int)),
        decreases n - k,
    {
        let e = ctx.entry_at(caller, k);
        proof {
            assert(e == l[k as int]);
            assert(l.take(k + 1).drop_last() =~= l.take(k as int));
            assert(l.take(k + 1).last() == l[k as int]);
        }
        if e.state == GenState::Propagated {
            proof {
                lemma_sendable_is_first(l, k as int);
                assert forall|j: int| 0 <= j < k implies (#[trigger] ctx@.dirties[caller as int][j]).cell
                    != e.cell by {
                    assert(ctx@.dirties[caller as int][j].cell == l[j].cell);
                }
            }
            ctx.set_entry_state(caller, k, GenState::Notifying);
            d.push(e.cell);
        } else if e.state == GenState::Terminal {
            ctx.set_entry_state(caller, k, GenState::Clearing);
            d.push(e.cell);
        }
        k = k + 1;
    }
    proof {
        assert(l.take(n as int) =~= l);
        assert(ctx@.dirties[caller as int] =~= prepared_ledger(l));
        assert(ctx@.dirties =~= c0.dirties.update(caller as int, prepared_ledger(l)));
        assert(ctx@ =~= (CtxView {
            dirties: c0.dirties.update(caller as int, prepared_ledger(l)),
            ..c0
        }));
    }
    d
}

/// The cleanup pass: every entry left in the clearing state after
/// notification has the type's cleanup run on the caller's replica of
/// its tracked value, and leaves the ledger.
pub fn sync_clear<T: ManualCopy>(ctx: &mut Ctx<T>, caller: usize)
    requires
        old(ctx).wf(),
        caller < THREADS,
    ensures
        final(ctx)@ == sync_clear_spec::<T>(old(ctx)@, caller as int),
        final(ctx).wf(),
{
    let ghost c0 = ctx@;
    let work = ctx.take_ledger(caller);
    let ghost l = work@;
    proof {
        assert(ledger_dup_ok(l));
        assert(ledger_in_range(l, c0.cells.len()));
    }
    let n = work.len();
    let mut kept: Vec<DirtyEntry> = Vec::new();
    let mut k: usize = 0;
    while k < n
        invariant
            ctx.wf(),
            caller < THREADS,
            work@ == l,
            n == l.len(),
            0 <= k <= n,
            ledger_dup_ok(l),
            ledger_in_range(l, c0.cells.len()),
            ctx@.dirties == c0.dirties.update(caller as int, Seq::<DirtyEntry>::empty()),
            ctx@.listeners == c0.listeners,
            ctx@.next_reg == c0.next_reg,
            ctx@.cells.len() == c0.cells.len(),
            ctx@.cells == cells_after_clear::<T>(c0.cells, l.take(k as int), caller as int),
            kept@ == cleared_ledger(l.take(k as int)),
            ledger_dup_ok(kept@),
            forall|a: int|
                0 <= a < kept@.len() ==> exists|j: int| 0 <= j < k && l[j] == #[trigger] kept@[a],
        decreases n - k,
    {
        let e = work[k];
        proof {
            assert(l.take(k + 1).drop_last() =~= l.take(k as int));
            assert(l.take(k + 1).last() == l[k as int]);
        }
        if e.state == GenState::Clearing {
            ctx.clear_cell(e.cell, caller);
        } else {
            kept.push(e);
        }
        proof {
            let ghost pre = kept@.drop_last();
            assert forall|a: int| 0 <= a < kept@.len() implies exists|j: int|
                0 <= j < k + 1 && l[j] == #[trigger] kept@[a] by {
                if a < kept@.len() - 1 || e.state == GenState::Clearing {
                    let j = choose|j: int| 0 <= j < k && l[j] == kept@[a];
                    assert(0 <= j < k + 1 && l[j] == kept@[a]);
                } else {
                    assert(l[k as int] == kept@[a]);
                }
            }
            assert forall|a: int, b: int|
                0 <= a < b < kept@.len() && (#[trigger] kept@[a]).cell
                    == (#[trigger] kept@[b]).cell implies !sendable(kept@[b].state) by {
                if e.state != GenState::Clearing && b == kept@.len() - 1 {
                    assert(kept@[b] == l[k as int]);
                    let j = choose|j: int| 0 <= j < k && l[j] == kept@[a];
                    assert(ledger_dup_ok(l));
                    assert(l[j].cell == l[k as int].cell ==> !sendable(l[k as int].state));
                }
            }
        }
        k = k + 1;
    }
    proof {
        assert(l.take(n as int) =~= l);
        assert forall|a: int| 0 <= a < kept@.len() implies (#[trigger] kept@[a]).cell
            < c0.cells.len() by {
            let ja = choose|j: int| 0 <= j < n && l[j] == kept@[a];
        }
    }
    ctx.set_ledger(caller, kept);
    proof {
        assert(ctx@.dirties =~= c0.dirties.update(caller as int, cleared_ledger(l)));
        assert(ctx@ =~= sync_clear_spec::<T>(c0, caller as int));
    }
}

/// Read access to one role's listener registry.
pub fn get_listeners<T: DeepView>(ctx: &Ctx<T>, i: usize) -> (l: &Vec<ListenerEntry>)
    requires
        ctx.wf(),
        i < THREADS,
    ensures
        l@ == ctx@.listeners[i as int],
{
    &ctx.listeners[i]
}

/// Registers one callback identity against one trigger under a fresh
/// registration id, in the calling role's registry. The caller invokes
/// the callback once right after registering, so a newly attached
/// listener observes current state; releasing the returned owner removes
/// the registration.
pub fn register_listener_1<T: DeepView, T1: GetPtr>(
    ctx: &mut Ctx<T>,
    caller: usize,
    t1: &T1,
) -> (h: ListenerHandleRef)
    requires
        old(ctx).wf(),
        caller < THREADS,
        old(ctx)@.next_reg < u64::MAX,
    ensures
        final(ctx)@ == register_spec(old(ctx)@, caller as int, t1.ptr_spec()),
        h.handles@ == seq![
            (ListenerHandle { ptr: t1.ptr_spec(), reg: old(ctx)@.next_reg }),
        ],
        h.from == caller,
        final(ctx).wf(),
{
    let reg = ctx.alloc_reg();
    let ptr1 = t1.get_ptr();
    ctx.push_listener(caller, ListenerEntry { ptr: ptr1, reg });
    proof {
        assert(ctx@ =~= register_spec(old(ctx)@, caller as int, t1.ptr_spec()));
    }
    let mut handles: Vec<ListenerHandle> = Vec::new();
    handles.push(ListenerHandle { ptr: ptr1, reg });
    ListenerHandleRef { handles, from: caller }
}

/// Registers one callback identity against two triggers under a single
/// fresh registration id, so that one notify pass fires the callback
/// once even when both triggers are dirty.
pub fn register_listener_2<T: DeepView, T1: GetPtr, T2: GetPtr>(
    ctx: &mut Ctx<T>,
    caller: usize,
    t1: &T1,
    t2: &T2,
) -> (h: ListenerHandleRef)
    requires
        old(ctx).wf(),
        caller < THREADS,
        old(ctx)@.next_reg < u64::MAX,
    ensures
        final(ctx)@ == register2_spec(old(ctx)@, caller as int, t1.ptr_spec(), t2.ptr_spec()),
        h.handles@ == seq![
            (ListenerHandle { ptr: t1.ptr_spec(), reg: old(ctx)@.next_reg }),
            (ListenerHandle { ptr: t2.ptr_spec(), reg: old(ctx)@.next_reg }),
        ],
        h.from == caller,
        final(ctx).wf(),
{
    let reg = ctx.alloc_reg();
    let ptr1 = t1.get_ptr();
    let ptr2 = t2.get_ptr();
    ctx.push_listener(caller, ListenerEntry { ptr: ptr1, reg });
    ctx.push_listener(caller, ListenerEntry { ptr: ptr2, reg });
    proof {
        assert(ctx@ =~= register2_spec(old(ctx)@, caller as int, t1.ptr_spec(), t2.ptr_spec()));
    }
    let mut handles: Vec<ListenerHandle> = Vec::new();
    handles.push(ListenerHandle { ptr: ptr1, reg });
    handles.push(ListenerHandle { ptr: ptr2, reg });
    ListenerHandleRef { handles, from: caller }
}

impl ListenerHandleRef {
    /// Releases the registration: every registry entry this owner put in
    /// place leaves the registry of the role that created it. Once
    /// released, the callback can never fire again.
    pub fn unregister<T: DeepView>(self, ctx: &mut Ctx<T>)
        requires
            old(ctx).wf(),
            self.from < THREADS,
        ensures
            final(ctx)@ == unregister_spec(old(ctx)@, self.from as int, self.handles@),
            final(ctx).wf(),
    {
        let ghost c0 = ctx@;
        let ghost hs = self.handles@;
        let nh = self.handles.len();
        let mut h: usize = 0;
        while h < nh
            invariant
                ctx.wf(),
                self.from < THREADS,
                nh == hs.len(),
                self.handles@ == hs,
                0 <= h <= nh,
                ctx@ == unregister_spec(c0, self.from as int, hs.take(h as int)),
            decreases nh - h,
        {
            let handle = self.handles[h];
            let ghost pre = ctx@;
            let row = ctx.take_listeners(self.from);
            let ghost rv = row@;
            let n = row.len();
            let mut kept: Vec<ListenerEntry> = Vec::new();
            let mut k: usize = 0;
            while k < n
                invariant
                    ctx.wf(),
                    self.from < THREADS,
                    row@ == rv,
                    n == rv.len(),
                    0 <= k <= n,
                    regs_below(rv, ctx@.next_reg),
                    ctx@ == (CtxView {
                        listeners: pre.listeners.update(
                            self.from as int,
                            Seq::<ListenerEntry>::empty(),
                        ),
                        ..pre
                    }),
                    kept@ == without_listener(rv.take(k as int), handle.ptr, handle.reg),
                    regs_below(kept@, ctx@.next_reg),
                decreases n - k,
            {
                let e = row[k];
                proof {
                    assert(rv.take(k + 1).drop_last() =~= rv.take(k as int));
                    assert(rv.take(k + 1).last() == rv[k as int]);
                }
                if !(e.ptr == handle.ptr && e.reg == handle.reg) {
                    kept.push(e);
                }
                k = k + 1;
            }
            proof {
                assert(rv.take(n as int) =~= rv);
            }
            ctx.set_listeners(self.from, kept);
            proof {
                assert(hs.take(h + 1).drop_last() =~= hs.take(h as int));
                assert(hs.take(h + 1).last() == hs[h as int]);
                assert(ctx@.listeners =~= pre.listeners.update(
                    self.from as int,
                    without_listener(pre.listeners[self.from as int], handle.ptr, handle.reg),
                ));
                assert(ctx@ =~= unregister_spec(c0, self.from as int, hs.take(h + 1)));
            }
            h = h + 1;
        }
        proof {
            assert(hs.take(nh as int) =~= hs);
        }
    }
}

/// Whether a registration id is already on the fire list.
fn fired_contains(fired: &Vec<u64>, x: u64) -> (r: bool)
    ensures
        r == fired@.contains(x),
{
    let n = fired.len();
    let mut i: usize = 0;
    while i < n
        invariant
            0 <= i <= n,
            n == fired@.len(),
            forall|j: int| 0 <= j < i ==> fired@[j] != x,
        decreases n - i,
    {
        if fired[i] == x {
            proof {
                assert(fired@[i as int] == x);
            }
            return true;
        }
        i = i + 1;
    }
    proof {
        if fired@.contains(x) {
            let j = choose|j: int| 0 <= j < fired@.len() && fired@[j] == x;
        }
    }
    false
}

/// The notify pass over a prepared batch: walks the identities in order
/// and answers the registration ids whose callbacks fire, deduplicated
/// by id, so one callback registered against several triggers in the
/// batch fires exactly once. The caller invokes each id's callback.
pub fn peek_notify<T: DeepView>(ctx: &Ctx<T>, caller: usize, d: &Vec<usize>) -> (fired: Vec<u64>)
    requires
        ctx.wf(),
        caller < THREADS,
    ensures
        fired@ == fire_batch(ctx@.listeners[caller as int], d@, Seq::<u64>::empty()),
{
    let ghost reg = ctx@.listeners[caller as int];
    let row = get_listeners(ctx, caller);
    let nd = d.len();
    let mut fired: Vec<u64> = Vec::new();
    let mut i: usize = 0;
    proof {
        assert(d@.skip(0) =~= d@);
    }
    while i < nd
        invariant
            ctx.wf(),
            caller < THREADS,
            row@ == reg,
            nd == d@.len(),
            0 <= i <= nd,
            fire_batch(reg, d@.skip(i as int), fired@) == fire_batch(
                reg,
                d@,
                Seq::<u64>::empty(),
            ),
        decreases nd - i,
    {
        let ptr = d[i];
        let ghost fired0 = fired@;
        proof {
            assert(d@.skip(i as int).drop_first() =~= d@.skip(i + 1));
            assert(d@.skip(i as int)[0] == d@[i as int]);
        }
        let nr = row.len();
        let mut k: usize = 0;
        proof {
            assert(reg.skip(0) =~= reg);
        }
        while k < nr
            invariant
                row@ == reg,
                nr == reg.len(),
                0 <= k <= nr,
                ptr == d@[i as int],
                fire_ptr(reg.skip(k as int), ptr, fired@) == fire_ptr(reg, ptr, fired0),
            decreases nr - k,
        {
            let e = row[k];
            proof {
                assert(reg.skip(k as int).drop_first() =~= reg.skip(k + 1));
                assert(reg.skip(k as int)[0] == reg[k as int]);
            }
            if e.ptr == ptr {
                if !fired_contains(&fired, e.reg) {
                    fired.push(e.reg);
                }
            }
            k = k + 1;
        }
        proof {
            assert(reg.skip(nr as int) =~= Seq::<ListenerEntry>::empty());
            assert(fire_ptr(reg, ptr, fired0) == fired@);
        }
        i = i + 1;
    }
    proof {
        assert(d@.skip(nd as int) =~= Seq::<usize>::empty());
    }
    fired
}

} // verus!
