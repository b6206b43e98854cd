use umoja::harness::{
    EntryKind, HarnessEntry, HarnessScope, Refinement, RefinementOp, Snapshot,
};

fn now() -> i64 {
    chrono::DateTime::parse_from_rfc3339("2026-08-16T12:00:00Z").unwrap().timestamp()
}

fn entry() -> HarnessEntry {
    HarnessEntry::new(
        "ent-1",
        EntryKind::Memory,
        HarnessScope::Local,
        "Prefers Rust",
        "The user asked for a memory-safe language.",
        "Said so explicitly in the session.",
        now(),
    )
    .unwrap()
}

#[test]
fn entries_demand_evidence() {
    let bad = HarnessEntry::new(
        "ent-1",
        EntryKind::Memory,
        HarnessScope::Local,
        "thing",
        "body",
        "  ",
        now(),
    );
    assert!(bad.is_err());
}

#[test]
fn names_are_normalised() {
    assert_eq!(entry().name, "prefers-rust");
}

#[test]
fn refinements_must_be_shaped_like_their_operation() {
    let full = Snapshot {
        before: Some(entry()),
        after: Some(entry()),
    };
    assert!(Refinement::new(
        "ref-1",
        None,
        RefinementOp::Create,
        "add",
        "because",
        full.clone(),
        now()
    )
    .is_err());

    assert!(Refinement::new(
        "ref-1",
        None,
        RefinementOp::Delete,
        "remove",
        "because",
        full,
        now()
    )
    .is_err());

    assert!(Refinement::new(
        "ref-1",
        None,
        RefinementOp::Create,
        "add",
        "because",
        Snapshot {
            before: None,
            after: Some(entry())
        },
        now()
    )
    .is_ok());
}

#[test]
fn a_snapshot_inverts_cleanly() {
    let snapshot = Snapshot {
        before: None,
        after: Some(entry()),
    };
    let back = snapshot.inverted();
    assert!(back.after.is_none());
    assert!(back.before.is_some());
}

#[test]
fn inverting_twice_gives_the_snapshot_back() {
    let snapshot = Snapshot {
        before: None,
        after: Some(entry()),
    };
    assert_eq!(snapshot.inverted().inverted(), snapshot);
}

#[test]
fn every_operation_has_an_inverse_that_undoes_it() {
    for op in [RefinementOp::Create, RefinementOp::Update, RefinementOp::Delete] {
        let r = Refinement::new(
            "ref-1",
            None,
            op,
            "s",
            "e",
            Snapshot {
                before: if op == RefinementOp::Create { None } else { Some(entry()) },
                after: if op == RefinementOp::Delete { None } else { Some(entry()) },
            },
            now(),
        )
        .unwrap();
        let back = Refinement::new(
            "ref-2",
            None,
            r.inverse_op(),
            "undo",
            "rollback",
            r.snapshot.inverted(),
            now(),
        );
        assert!(back.is_ok());
        assert!(!r.is_reverted());
    }
    assert_eq!(RefinementOp::Create.label(), "create");
}

#[test]
fn kinds_and_scopes_read_their_spellings() {
    assert_eq!(EntryKind::parse("prompt note").unwrap(), EntryKind::PromptNote);
    assert_eq!(EntryKind::parse("Skill-Spec").unwrap(), EntryKind::SkillSpec);
    assert_eq!(EntryKind::parse("agent").unwrap(), EntryKind::SubagentSpec);
    assert!(EntryKind::parse("lesson").is_err());
    assert_eq!(HarnessScope::parse(" USER ").unwrap(), HarnessScope::Global);
    assert_eq!(HarnessScope::parse("project").unwrap(), HarnessScope::Local);
    assert!(HarnessScope::parse("planet").is_err());
    assert_eq!(EntryKind::SkillSpec.label(), "skill");
}

#[test]
fn a_headline_is_one_clipped_line() {
    let mut e = entry();
    assert_eq!(
        e.headline(),
        "[memory] prefers-rust: The user asked for a memory-safe language."
    );
    e.body = format!("  {}\nsecond line", "x".repeat(120));
    let line = e.headline();
    assert!(line.ends_with("..."));
    assert_eq!(line, format!("[memory] prefers-rust: {}...", "x".repeat(93)));
}

#[test]
fn entry_names_are_bounded() {
    assert!(HarnessEntry::normalise_name("!!!").is_err());
    assert!(HarnessEntry::normalise_name(&"n".repeat(65)).is_err());
    assert_eq!(HarnessEntry::normalise_name("Deploy  Steps").unwrap(), "deploy-steps");
}
