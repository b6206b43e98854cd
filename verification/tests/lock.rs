use umoja::lock::{is_stale, lock_file_name, on_contention, Contention, LockAge};

#[test]
fn an_abandoned_lock_is_broken_and_a_fresh_one_waited_for() {
    assert_eq!(on_contention(LockAge::Elapsed(31_000), 0), Contention::Break);
    assert_eq!(on_contention(LockAge::Unreadable, 0), Contention::Break);
    assert_eq!(on_contention(LockAge::Elapsed(1_000), 500), Contention::Wait);
    assert_eq!(on_contention(LockAge::InFuture, 500), Contention::Wait);
    assert_eq!(on_contention(LockAge::Elapsed(1_000), 10_001), Contention::GiveUp);
    assert!(!is_stale(LockAge::Elapsed(30_000)));
}

#[test]
fn the_lockfile_sits_beside_its_target() {
    assert_eq!(lock_file_name(Some("registry.json")), ".registry.json.lock");
    assert_eq!(lock_file_name(None), ".target.lock");
}
