use umoja::compaction::{records_to_fold, tokens_freed};

#[test]
fn recent_messages_are_kept_verbatim() {
    // 30 records plus the session-started line, minus the 12 kept recent.
    assert_eq!(records_to_fold(31, 12), 19);
}

#[test]
fn a_compaction_with_nothing_to_fold_frees_nothing() {
    let used: u64 = 50_000;
    let folded = records_to_fold(1, 12);
    assert_eq!(folded, 0);
    assert_eq!(used - tokens_freed(folded, used), 50_000);
}

#[test]
fn compacting_frees_half_of_what_the_window_held() {
    let folded = records_to_fold(51, 12);
    assert_eq!(folded, 39);
    assert_eq!(tokens_freed(folded, 180_000), 90_000);
    assert_eq!(records_to_fold(12, 12), 0);
}

#[test]
fn recording_frees_tokens_without_underflowing() {
    assert_eq!(umoja::compaction::after_compaction(1_000, 5_000, 0), (0, 1));
    assert_eq!(umoja::compaction::after_compaction(180_000, 90_000, 2), (90_000, 3));
}
