use tl_sync::{
    drop_dirties, ensure_empty_dirties, get_dirties, init_dirties, prepare_peek_notify,
    sync_clear, sync_from, sync_to, thread_index, GenState, ProtocolError, Tl,
};

#[test]
fn simple() {
    let mut ctx = init_dirties::<usize>();
    let role = thread_index("1_test");

    let a: Tl = Tl::new(&mut ctx, 1);
    assert!(*a.get(&ctx, 0) == 1);

    // What the named worker thread did, in order: mutate, observe its
    // own replica untouched, relax, observe the mutation.
    a.to_mut(&mut ctx, role, 22).unwrap();
    assert!(*a.get(&ctx, role) == 1);
    assert!(*a.get(&ctx, role) == 1);
    sync_from(&mut ctx, role, 2);
    assert!(*a.get(&ctx, role) == 22);

    // The main thread still reads the old value until the terminal sync.
    assert!(*a.get(&ctx, 0) == 1);
    sync_to(&mut ctx, role, 0);
    assert!(*a.get(&ctx, 0) == 22);
}

#[test]
fn isolation_until_sync() {
    let mut ctx = init_dirties::<u64>();
    let a: Tl = Tl::new(&mut ctx, 7);

    a.to_mut(&mut ctx, 1, 90).unwrap();
    assert_eq!(*a.get(&ctx, 0), 7);

    sync_from(&mut ctx, 1, 2);
    assert_eq!(*a.get(&ctx, 0), 7);
    assert_eq!(*a.get(&ctx, 1), 90);

    sync_to(&mut ctx, 1, 0);
    assert_eq!(*a.get(&ctx, 0), 90);
}

#[test]
fn double_mutation_fails() {
    let mut ctx = init_dirties::<u64>();
    let a: Tl = Tl::new(&mut ctx, 0);

    a.to_mut(&mut ctx, 1, 1).unwrap();
    let second = a.to_mut(&mut ctx, 1, 2);
    assert_eq!(second, Err(ProtocolError::DoubleMutation));

    // The rejected call changed nothing.
    assert_eq!(*a.get(&ctx, 2), 1);
    assert_eq!(get_dirties(&ctx, 1).len(), 1);
}

#[test]
fn mutation_after_terminal_propagation_fails() {
    let mut ctx = init_dirties::<u64>();
    let a: Tl = Tl::new(&mut ctx, 0);

    a.to_mut(&mut ctx, 1, 4).unwrap();
    sync_from(&mut ctx, 1, 2);
    sync_to(&mut ctx, 1, 0);

    // Role 0 now holds the relayed entry at the terminal state; a
    // mutation of the same value from role 0 in this cycle is rejected.
    assert_eq!(get_dirties(&ctx, 0).len(), 1);
    assert_eq!(get_dirties(&ctx, 0)[0].state, GenState::Terminal);
    let r = a.to_mut(&mut ctx, 0, 9);
    assert_eq!(r, Err(ProtocolError::AlreadyPropagated));
}

#[test]
fn terminal_entries_are_not_resynced() {
    let mut ctx = init_dirties::<u64>();
    let a: Tl = Tl::new(&mut ctx, 0);

    a.to_mut(&mut ctx, 1, 5).unwrap();
    sync_from(&mut ctx, 1, 2);
    sync_to(&mut ctx, 1, 0);
    assert_eq!(*a.get(&ctx, 0), 5);
    assert_eq!(get_dirties(&ctx, 1).len(), 0);
    assert_eq!(get_dirties(&ctx, 0).len(), 1);

    // A sync from role 0 drops the terminal entry without merging it
    // anywhere and without handing it on.
    sync_to(&mut ctx, 0, 1);
    assert_eq!(get_dirties(&ctx, 0).len(), 0);
    assert_eq!(get_dirties(&ctx, 1).len(), 0);
    assert_eq!(*a.get(&ctx, 0), 5);
    assert_eq!(*a.get(&ctx, 1), 5);
}

#[test]
fn counter_end_to_end() {
    let mut ctx = init_dirties::<u64>();
    let compute = thread_index("1_compute");
    assert_eq!(compute, 1);

    let counter: Tl = Tl::new(&mut ctx, 0);
    counter.to_mut(&mut ctx, compute, 5).unwrap();

    // Not visible to role 0 before the terminal sync.
    assert_eq!(*counter.get(&ctx, 0), 0);

    sync_from(&mut ctx, compute, 2);
    sync_to(&mut ctx, compute, 0);
    assert_eq!(*counter.get(&ctx, 0), 5);
}

#[test]
fn cycle_leaves_ledgers_empty() {
    let mut ctx = init_dirties::<u64>();
    let a: Tl = Tl::new(&mut ctx, 1);
    assert!(ensure_empty_dirties(&ctx));

    a.to_mut(&mut ctx, 1, 2).unwrap();
    assert!(!ensure_empty_dirties(&ctx));

    sync_from(&mut ctx, 1, 2);
    sync_to(&mut ctx, 1, 0);

    // Role 0 finishes the cycle: prepare, notify, clean up.
    let prepared = prepare_peek_notify(&mut ctx, 0);
    assert_eq!(prepared.len(), 1);
    sync_clear(&mut ctx, 0);
    assert!(ensure_empty_dirties(&ctx));
    drop_dirties(ctx);
}

#[test]
fn relaxation_advances_entry_state() {
    let mut ctx = init_dirties::<u64>();
    let a: Tl = Tl::new(&mut ctx, 0);

    a.to_mut(&mut ctx, 1, 3).unwrap();
    assert_eq!(get_dirties(&ctx, 1)[0].state, GenState::Mutated);
    sync_from(&mut ctx, 1, 2);
    assert_eq!(get_dirties(&ctx, 1)[0].state, GenState::Propagated);

    // Relaxing again is a no-op: the entry is no longer provisionally
    // dirty, so nothing merges and the state stays.
    a.to_mut(&mut ctx, 2, 8).unwrap();
    sync_from(&mut ctx, 1, 2);
    assert_eq!(get_dirties(&ctx, 1)[0].state, GenState::Propagated);
    assert_eq!(*a.get(&ctx, 1), 3);
}
