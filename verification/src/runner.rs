use vstd::prelude::*;

verus! {

/// What the application's root state does once on the UI role before the
/// first tick.
pub trait UiSetup {
    fn setup_ui(&self);
}

/// What the application's root state does once on the compute role
/// before its loop starts.
pub trait ComputeSetup {
    fn setup_compute(&self);
}

/// The signals the compute role sends over the handshake channel: it is
/// quiescent and ready for the terminal sync, or it has just performed
/// it.
#[derive(Clone, Copy, PartialEq, Eq, Structural, Debug)]
pub enum SyncStatus {
    Idle,
    JustSync,
}

/// Whether the compute role's relaxation loop runs another round: it
/// keeps reconciling while the last notify pass still processed
/// something and the cycle budget is not exhausted.
pub fn relax_more(budget_ms: u64, elapsed_ms: u64, processed: usize) -> (b: bool)
    ensures
        b == (processed > 0 && elapsed_ms < budget_ms),
{
    processed > 0 && elapsed_ms < budget_ms
}

/// The UI-role tick's pacing and handshake decisions, kept apart from
/// the clocks and channels that act on them. One value lives across
/// ticks and carries whether the previous tick ended in a terminal sync.
pub struct Ticker {
    just_sync: bool,
    budget_ms: u64,
}

impl Ticker {
    /// Whether the previous tick ended with a terminal sync that the
    /// compute role has not yet been released from.
    pub closed spec fn just_sync_spec(&self) -> bool {
        self.just_sync
    }

    /// The fixed per-cycle wall-clock budget, in milliseconds.
    pub closed spec fn budget_spec(&self) -> u64 {
        self.budget_ms
    }

    pub fn new(budget_ms: u64) -> (t: Ticker)
        ensures
            !t.just_sync_spec(),
            t.budget_spec() == budget_ms,
    {
        Ticker { just_sync: false, budget_ms }
    }

    /// Consumes the pending-sync flag: true exactly once after each
    /// completed handshake, telling the tick to relay the synced state
    /// and release the compute role.
    pub fn take_just_sync(&mut self) -> (b: bool)
        ensures
            b == old(self).just_sync_spec(),
            !final(self).just_sync_spec(),
            final(self).budget_spec() == old(self).budget_spec(),
    {
        let b = self.just_sync;
        self.just_sync = false;
        b
    }

    /// Records that the compute role acknowledged the terminal sync.
    pub fn mark_synced(&mut self)
        ensures
            final(self).just_sync_spec(),
            final(self).budget_spec() == old(self).budget_spec(),
    {
        self.just_sync = true;
    }

    /// How long the tick may still block waiting for the compute role's
    /// readiness signal: the rest of the budget, or nothing when the
    /// budget is already spent (the tick then ends without a terminal
    /// sync; the next cycle retries).
    pub fn wait_budget(&self, ui_elapsed_ms: u64) -> (w: Option<u64>)
        ensures
            ui_elapsed_ms > self.budget_spec() ==> w is None,
            ui_elapsed_ms <= self.budget_spec() ==> w == Some(
                (self.budget_spec() - ui_elapsed_ms) as u64,
            ),
            w is Some ==> w.unwrap() <= self.budget_spec(),
    {
        if ui_elapsed_ms > self.budget_ms {
            None
        } else {
            Some(self.budget_ms - ui_elapsed_ms)
        }
    }

    /// How long the tick sleeps to pace the UI role: whatever remains of
    /// the cycle budget, never more than the budget itself.
    pub fn sleep_ms(&self, total_elapsed_ms: u64) -> (s: u64)
        ensures
            s == if total_elapsed_ms < self.budget_spec() {
                (self.budget_spec() - total_elapsed_ms) as int
            } else {
                0
            },
            s <= self.budget_spec(),
    {
        if total_elapsed_ms < self.budget_ms {
            self.budget_ms - total_elapsed_ms
        } else {
            0
        }
    }
}

} // verus!
