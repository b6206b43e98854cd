use std::collections::HashSet;

use umoja::ids::{radix36, sequential_id, time_ordered_id, IdGen, Ids, SeqIdGen, TimeOrderedIds};

#[test]
fn ids_are_unique_and_sort_chronologically() {
    let ids = TimeOrderedIds::new(0x5eed);
    let minted: Vec<String> = (0..1000).map(|_| ids.next("ses")).collect();
    let unique: HashSet<&String> = minted.iter().collect();
    assert_eq!(unique.len(), minted.len());

    let mut sorted = minted.clone();
    sorted.sort();
    assert_eq!(sorted.first(), minted.first());
}

#[test]
fn ids_carry_their_prefix() {
    assert!(TimeOrderedIds::new(1).next("job").starts_with("job-"));
}

#[test]
fn base36_counts_like_a_clock() {
    assert_eq!(radix36(0), "0");
    assert_eq!(radix36(35), "z");
    assert_eq!(radix36(36), "10");
    assert_eq!(radix36(1_296), "100");
}

#[test]
fn id_parts_are_fixed_width() {
    assert_eq!(time_ordered_id("ses", 36, 7, 0xa3ea), "ses-10-0007-a3f1");
    assert_eq!(time_ordered_id("job", 0, 12_345, 0xffff), "job-0-2345-3038");
    assert_eq!(sequential_id("msg", 1), "msg-000001");
    assert_eq!(sequential_id("msg", 1_234_567), "msg-1234567");
}

#[test]
fn sequential_ids_count_up() {
    let ids = SeqIdGen::default();
    assert_eq!(ids.next(Ids::SESSION), "ses-000001");
    assert_eq!(ids.next(Ids::JOB), "job-000002");
}
