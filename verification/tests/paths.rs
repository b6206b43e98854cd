use umoja::paths::{join, Paths};

#[test]
fn the_layout_hangs_off_one_root() {
    let p = Paths::new("/home/me/.prime/agent");
    assert_eq!(p.transcript("ses-1"), "/home/me/.prime/agent/sessions/ses-1.jsonl");
    assert_eq!(
        p.local_harness("ses-1"),
        "/home/me/.prime/agent/session-artifacts/ses-1/harness/harness_state.json"
    );
    assert_eq!(p.registry("jobs"), "/home/me/.prime/agent/registry/jobs.json");
    assert_eq!(p.daemon_dir(), "/home/me/.prime/agent/daemon");
    assert_eq!(p.kernel_socket("s"), "/home/me/.prime/agent/session-artifacts/s/kernel.sock");
}

#[test]
fn joining_behaves_like_a_path() {
    assert_eq!(join("/a/", "b"), "/a/b");
    assert_eq!(join("/a", "/abs"), "/abs");
    assert_eq!(join("", "b"), "b");
}
