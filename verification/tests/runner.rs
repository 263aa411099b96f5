use tl_sync::{relax_more, thread_index, SyncStatus, Ticker};

#[test]
fn roles_follow_thread_names() {
    assert_eq!(thread_index("1_compute"), 1);
    assert_eq!(thread_index("1_test"), 1);
    assert_eq!(thread_index("2_relay"), 2);
    assert_eq!(thread_index("main"), 0);
    assert_eq!(thread_index("worker"), 0);
    assert_eq!(thread_index("9_other"), 0);
}

#[test]
fn tick_cadence_within_budget() {
    // A 15ms cycle budget against a compute role that finishes its
    // relaxation in 1ms: the tick never waits or sleeps past the budget,
    // and the readiness signal is consumed exactly once per tick.
    let mut ticker = Ticker::new(15);

    // First tick: nothing pending from a previous handshake.
    assert!(!ticker.take_just_sync());

    // Compute finished after 1ms and signalled readiness.
    assert_eq!(relax_more(15, 1, 0), false);
    let wait = ticker.wait_budget(1);
    assert_eq!(wait, Some(14));
    assert!(wait.unwrap() <= 15);

    // Handshake completed: compute acknowledged the terminal sync.
    ticker.mark_synced();
    assert_eq!(ticker.sleep_ms(2), 13);

    // Second tick: the pending flag reads true exactly once.
    assert!(ticker.take_just_sync());
    assert!(!ticker.take_just_sync());
}

#[test]
fn tick_skips_when_budget_spent() {
    let ticker = Ticker::new(15);
    assert_eq!(ticker.wait_budget(16), None);
    assert_eq!(ticker.wait_budget(15), Some(0));
    assert_eq!(ticker.sleep_ms(40), 0);
}

#[test]
fn relaxation_loop_decision() {
    // Keep relaxing while the last pass processed something and the
    // budget allows; stop on either condition.
    assert!(relax_more(15, 3, 2));
    assert!(!relax_more(15, 3, 0));
    assert!(!relax_more(15, 15, 2));
}

#[test]
fn handshake_signals_are_distinct() {
    assert_ne!(SyncStatus::Idle, SyncStatus::JustSync);
    assert_eq!(SyncStatus::Idle, SyncStatus::Idle);
}
