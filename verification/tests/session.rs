use umoja::session::{Session, SessionStatus, Usage};

#[test]
fn child_usage_stays_separable() {
    let mut parent = Usage {
        input_tokens: 100,
        output_tokens: 50,
        turns: 1,
        attributed_child_tokens: 0,
    };
    parent.attribute_child(&Usage {
        input_tokens: 20,
        output_tokens: 10,
        turns: 1,
        attributed_child_tokens: 0,
    });
    assert_eq!(parent.total_tokens(), 180);
    assert_eq!(parent.own_tokens(), 150);
}

#[test]
fn names_normalise_to_addresses() {
    assert_eq!(Session::normalise_name("API Checker").unwrap(), "api-checker");
    assert_eq!(Session::normalise_name("  __weird__  ").unwrap(), "weird");
    assert_eq!(Session::normalise_name("a/b/c").unwrap(), "a-b-c");
}

#[test]
fn empty_names_are_rejected() {
    assert!(Session::normalise_name("   ").is_err());
    assert!(Session::normalise_name("///").is_err());
}

#[test]
fn overlong_names_are_rejected() {
    assert!(Session::normalise_name(&"a".repeat(64)).is_ok());
    assert!(Session::normalise_name(&"a".repeat(65)).is_err());
}

#[test]
fn absorbing_a_turn_adds_every_counter() {
    let mut usage = Usage::default();
    usage.absorb(&Usage {
        input_tokens: 7,
        output_tokens: 3,
        turns: 1,
        attributed_child_tokens: 99,
    });
    assert_eq!(usage.total_tokens(), 10);
    assert_eq!(usage.turns, 1);
    assert_eq!(usage.attributed_child_tokens, 0);
}

#[test]
fn live_sessions_are_running_or_idle() {
    assert!(SessionStatus::Running.is_live());
    assert!(SessionStatus::Idle.is_live());
    assert!(!SessionStatus::Completed.is_live());
    assert_eq!(SessionStatus::Cancelled.label(), "cancelled");
}

#[test]
fn a_session_is_found_by_its_id_and_an_orphan_by_none() {
    let mut a = session_named("ses-a", "alpha");
    let b = session_named("ses-b", "beta");
    a.status = SessionStatus::Idle;
    let rows = vec![a, b];
    assert_eq!(umoja::session::position_of(&rows, "ses-b"), Some(1));
    assert_eq!(umoja::session::position_of(&rows, "beta"), None);
    assert_eq!(umoja::session::position_of(&rows, "ses-gone"), None);
}

fn session_named(id: &str, name: &str) -> Session {
    Session {
        id: id.into(),
        name: name.into(),
        kind: umoja::session::SessionKind::Root,
        status: SessionStatus::Running,
        workdir: "/work".into(),
        runner: "opencode".into(),
        model: None,
        parent_id: None,
        depth: 0,
        created_at: 0,
        updated_at: 0,
        usage: Usage::default(),
        pid: None,
    }
}
