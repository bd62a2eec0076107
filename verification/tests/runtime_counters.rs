use shoehorn::runtime::RuntimeStats;

#[test]
fn task_numbers_strictly_increase() {
    let mut stats = RuntimeStats::default();
    assert!(stats.can_start());
    let a = stats.start_task();
    assert_eq!((a.id, a.active), (1, 1));
    let b = stats.start_task();
    assert_eq!((b.id, b.active), (2, 2));
    let end = stats.finish_task(a.id);
    assert_eq!((end.id, end.active), (1, 1));
    let c = stats.start_task();
    assert_eq!((c.id, c.active), (3, 2));
}

#[test]
fn totals_are_sums_and_wrap() {
    let mut stats = RuntimeStats::default();
    stats.add_tx_bytes(5);
    stats.add_tx_bytes(7);
    stats.add_rx_bytes(u64::MAX);
    stats.add_rx_bytes(3);
    let s = stats.snapshot();
    assert_eq!((s.active_tasks, s.tx_bytes, s.rx_bytes), (0, 12, 2));
}
