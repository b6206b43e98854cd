use umoja::output::{ago, clip, duration, table};

#[test]
fn a_table_aligns_its_columns() {
    let rendered = table(
        &["name", "status"],
        &[
            vec!["api-verifier".into(), "running".into()],
            vec!["x".into(), "idle".into()],
        ],
    );
    let lines: Vec<&str> = rendered.lines().collect();
    assert!(lines[0].starts_with("NAME"));
    assert!(lines[1].starts_with("api-verifier  running"));
    assert!(lines[2].starts_with("x             idle"));
}

#[test]
fn an_empty_table_renders_nothing() {
    assert!(table(&["a"], &[]).is_empty());
}

#[test]
fn clipping_flattens_and_truncates() {
    assert_eq!(clip("one\ntwo", 40), "one two");
    assert_eq!(clip("abcdefghij", 5), "abcd…");
}

#[test]
fn relative_times_read_as_english() {
    let now = chrono::Utc::now().timestamp();
    assert_eq!(ago(now, now), "just now");
    assert_eq!(ago(now - 3 * 60, now), "3m ago");
    assert_eq!(ago(now - 5 * 3_600, now), "5h ago");
    assert_eq!(ago(now + 10 * 60, now), "in 10m");
}

#[test]
fn durations_use_their_largest_unit() {
    assert_eq!(duration(59), "59s");
    assert_eq!(duration(60), "1m");
    assert_eq!(duration(7_199), "1h");
    assert_eq!(duration(172_800), "2d");
    assert_eq!(duration(-4), "-4s");
}

#[test]
fn a_whole_table_renders_exactly() {
    let rendered = table(
        &["id", "state"],
        &[vec!["a".into(), "ok".into()], vec!["bbb".into(), "failed".into()]],
    );
    assert_eq!(rendered, "ID   STATE\na    ok\nbbb  failed");
}
