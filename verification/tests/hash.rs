use umoja::hash::{digest, digest_u64};

#[test]
fn digests_are_stable_distinct_and_fixed_width() {
    assert_eq!(digest("same"), digest("same"));
    assert_ne!(digest("one"), digest("two"));
    assert_eq!(digest("").len(), 16);
    assert_eq!(digest(&"x".repeat(10_000)).len(), 16);
    assert_eq!(digest_u64("same"), digest_u64("same"));
}

#[test]
fn the_digest_is_fnv1a() {
    assert_eq!(digest_u64(""), 0xcbf2_9ce4_8422_2325);
    assert_eq!(digest(""), "cbf29ce484222325");
    assert_eq!(digest_u64("a"), 0xaf63_dc4c_8601_ec8c);
    assert_eq!(digest("a"), "af63dc4c8601ec8c");
}
