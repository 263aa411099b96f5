use tl_sync::{
    init_dirties, prepare_peek_notify, sync_clear, sync_from, sync_to, Action, ManualCopy,
    TrustCell, Trust,
};

#[test]
fn numeric_copy_from_overwrites() {
    let mut dst: u64 = 3;
    let mut src: u64 = 11;
    dst.copy_from(&mut src);
    assert_eq!(dst, 11);
    assert_eq!(src, 11);

    let mut d2: usize = 0;
    let mut s2: usize = 7;
    d2.copy_from(&mut s2);
    assert_eq!(d2, 7);

    let mut d3: isize = -4;
    let mut s3: isize = 4;
    d3.copy_from(&mut s3);
    assert_eq!(d3, 4);

    let mut d4: u8 = 1;
    let mut s4: u8 = 255;
    d4.copy_from(&mut s4);
    assert_eq!(d4, 255);
}

#[test]
fn string_copy_from_rewrites() {
    let mut dst = String::from("stale");
    let mut src = String::from("fresh");
    dst.copy_from(&mut src);
    assert_eq!(dst, "fresh");
    assert_eq!(src, "fresh");
}

#[test]
fn vector_copy_from_grows_and_shrinks() {
    let mut dst: Vec<u64> = vec![1, 2];
    let mut src: Vec<u64> = vec![9, 8, 7, 6];
    dst.copy_from(&mut src);
    assert_eq!(dst, vec![9, 8, 7, 6]);
    assert_eq!(src, vec![9, 8, 7, 6]);

    let mut dst2: Vec<u64> = vec![1, 2, 3, 4, 5];
    let mut src2: Vec<u64> = vec![10, 20];
    dst2.copy_from(&mut src2);
    assert_eq!(dst2, vec![10, 20]);
}

#[test]
fn option_and_pair_copy_from() {
    let mut dst: Option<u64> = Some(1);
    let mut src: Option<u64> = None;
    dst.copy_from(&mut src);
    assert_eq!(dst, None);

    let mut dst2: Option<u64> = None;
    let mut src2: Option<u64> = Some(42);
    dst2.copy_from(&mut src2);
    assert_eq!(dst2, Some(42));

    let mut pair: (u64, u64) = (0, 0);
    let mut other: (u64, u64) = (100, 50);
    pair.copy_from(&mut other);
    assert_eq!(pair, (100, 50));
}

#[test]
fn duplicate_is_exact() {
    let v: Vec<u64> = vec![5, 6, 7];
    assert_eq!(v.duplicate(), vec![5, 6, 7]);
    let s = String::from("abc");
    assert_eq!(s.duplicate(), "abc");
    let o: Option<u64> = Some(9);
    assert_eq!(o.duplicate(), Some(9));
}

#[test]
fn cell_replicas_are_independent() {
    let mut cell: TrustCell<u64> = TrustCell::new(1, 2, 3);
    assert_eq!(*cell.get(0), 1);
    assert_eq!(*cell.get(1), 2);
    assert_eq!(*cell.get(2), 3);

    *cell.to_mut(2) = 9;
    assert_eq!(*cell.get(2), 9);
    assert_eq!(*cell.get(0), 1);

    cell.inner_manual_copy(2, 0);
    assert_eq!(*cell.get(0), 9);
    assert_eq!(*cell.get(1), 2);
}

#[test]
fn event_queue_drains_through_the_cycle() {
    let mut ctx = init_dirties();
    let queue = Action::new::<u64>(&mut ctx);

    queue.fire(&mut ctx, 1, 100).unwrap();
    queue.fire(&mut ctx, 1, 200).unwrap();
    assert_eq!(queue.get(&ctx, 2), &vec![100, 200]);
    assert_eq!(queue.get(&ctx, 1), &Vec::<u64>::new());

    // Relaxation drains the mutation replica into the caller's replica.
    sync_from(&mut ctx, 1, 2);
    assert_eq!(queue.get(&ctx, 1), &vec![100, 200]);
    assert_eq!(queue.get(&ctx, 2), &Vec::<u64>::new());

    // The terminal sync delivers the batch to role 0; the cleanup pass
    // after notification drains the delivered one-shot batch.
    sync_to(&mut ctx, 1, 0);
    assert_eq!(queue.get(&ctx, 0), &vec![100, 200]);
    let prepared = prepare_peek_notify(&mut ctx, 0);
    assert_eq!(prepared.len(), 1);
    sync_clear(&mut ctx, 0);
    assert_eq!(queue.get(&ctx, 0), &Vec::<u64>::new());
}

#[test]
fn event_queue_rejects_foreign_fire_after_delivery() {
    let mut ctx = init_dirties();
    let queue = Action::new::<u64>(&mut ctx);

    queue.fire(&mut ctx, 1, 1).unwrap();
    // A second fire in the same cycle coalesces instead of failing.
    queue.fire(&mut ctx, 1, 2).unwrap();

    sync_from(&mut ctx, 1, 2);
    sync_to(&mut ctx, 1, 0);

    // Role 0 holds the delivered batch at the terminal state: firing
    // from role 0 before its cleanup is a protocol violation.
    let r = queue.fire(&mut ctx, 0, 3);
    assert!(r.is_err());
}

#[test]
fn trust_wraps_a_value() {
    let t = Trust::new(5u64);
    assert_eq!(*t.get(), 5);
    let u = t.clone();
    assert_eq!(u.into_inner(), 5);
}
