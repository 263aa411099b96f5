//! A state-sharing primitive for applications split into a small, fixed
//! number of cooperating roles (a UI role and one or more compute
//! roles). Instead of guarding one mutable location, each tracked value
//! keeps one replica per role; mutation always lands in the replica
//! reserved for the mutation role, and propagation to the other roles
//! happens only at explicit synchronization points driven by a per-role
//! dirty ledger and its generation state machine.

pub mod actions;
pub mod cell;
pub mod laws;
pub mod manual_copy;
pub mod runner;
pub mod sync;
pub mod threads;
pub mod tl;
pub mod trust;

pub use actions::{Action, Wrapper};
pub use cell::TrustCell;
pub use sync::{
    cell_count, drop_dirties, ensure_empty_dirties, get_dirties, get_listeners, init_dirties,
    next_registration_id, peek_notify,
    prepare_peek_notify, register_listener_1, register_listener_2, sync_clear, sync_from, sync_to,
    Ctx, CtxView, DirtyEntry, GenState, GetPtr, ListenerEntry, ListenerHandle, ListenerHandleRef,
    ProtocolError,
};
pub use manual_copy::{Dv, ManualCopy};
pub use runner::{relax_more, ComputeSetup, SyncStatus, Ticker, UiSetup};
pub use threads::{thread_index, THREADS, MUTATE_THREAD_INDEX};
pub use tl::Tl;
pub use trust::Trust;
