use tl_sync::{
    get_listeners, init_dirties, peek_notify, prepare_peek_notify, register_listener_1,
    register_listener_2, sync_from, sync_to, GetPtr, Tl,
};

#[test]
fn single_fire_dedup_across_two_triggers() {
    let mut ctx = init_dirties::<u64>();
    let a: Tl = Tl::new(&mut ctx, 0);
    let b: Tl = Tl::new(&mut ctx, 0);

    let handle = register_listener_2(&mut ctx, 0, &a, &b);
    assert_eq!(get_listeners(&ctx, 0).len(), 2);

    // Both triggers dirty in one batch: the shared registration id
    // fires exactly once.
    let batch = vec![a.get_ptr(), b.get_ptr()];
    let fired = peek_notify(&ctx, 0, &batch);
    assert_eq!(fired.len(), 1);

    handle.unregister(&mut ctx);
}

#[test]
fn listener_gone_after_unregister() {
    let mut ctx = init_dirties::<u64>();
    let a: Tl = Tl::new(&mut ctx, 0);

    let handle = register_listener_1(&mut ctx, 0, &a);
    assert_eq!(get_listeners(&ctx, 0).len(), 1);

    let batch = vec![a.get_ptr()];
    let fired = peek_notify(&ctx, 0, &batch);
    assert_eq!(fired.len(), 1);

    handle.unregister(&mut ctx);
    assert_eq!(get_listeners(&ctx, 0).len(), 0);
    let fired_after = peek_notify(&ctx, 0, &batch);
    assert_eq!(fired_after.len(), 0);
}

#[test]
fn unregister_removes_only_its_own_entries() {
    let mut ctx = init_dirties::<u64>();
    let a: Tl = Tl::new(&mut ctx, 0);

    let first = register_listener_1(&mut ctx, 0, &a);
    let second = register_listener_1(&mut ctx, 0, &a);
    assert_eq!(get_listeners(&ctx, 0).len(), 2);

    first.unregister(&mut ctx);
    assert_eq!(get_listeners(&ctx, 0).len(), 1);

    // The surviving registration still fires, once.
    let batch = vec![a.get_ptr()];
    let fired = peek_notify(&ctx, 0, &batch);
    assert_eq!(fired.len(), 1);

    second.unregister(&mut ctx);
    assert_eq!(get_listeners(&ctx, 0).len(), 0);
}

#[test]
fn notify_pass_over_prepared_batch() {
    let mut ctx = init_dirties::<u64>();
    let a: Tl = Tl::new(&mut ctx, 0);
    let b: Tl = Tl::new(&mut ctx, 0);
    let handle = register_listener_2(&mut ctx, 0, &a, &b);

    // Mutate both values on the compute side and relay them to role 0.
    a.to_mut(&mut ctx, 1, 10).unwrap();
    b.to_mut(&mut ctx, 1, 20).unwrap();
    sync_from(&mut ctx, 1, 2);
    sync_to(&mut ctx, 1, 0);

    // Role 0 prepares its ledger: both identities are selected, but the
    // shared callback identity fires once.
    let prepared = prepare_peek_notify(&mut ctx, 0);
    assert_eq!(prepared.len(), 2);
    let fired = peek_notify(&ctx, 0, &prepared);
    assert_eq!(fired.len(), 1);

    handle.unregister(&mut ctx);
}

#[test]
fn distinct_registrations_fire_separately() {
    let mut ctx = init_dirties::<u64>();
    let a: Tl = Tl::new(&mut ctx, 0);
    let b: Tl = Tl::new(&mut ctx, 0);

    let ha = register_listener_1(&mut ctx, 0, &a);
    let hb = register_listener_1(&mut ctx, 0, &b);

    let batch = vec![a.get_ptr(), b.get_ptr()];
    let fired = peek_notify(&ctx, 0, &batch);
    assert_eq!(fired.len(), 2);
    assert_ne!(fired[0], fired[1]);

    // Fired in first-encounter order of the batch.
    assert_eq!(fired[0], ha.handles[0].reg);
    assert_eq!(fired[1], hb.handles[0].reg);

    ha.unregister(&mut ctx);
    hb.unregister(&mut ctx);
}
