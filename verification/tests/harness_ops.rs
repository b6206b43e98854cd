use umoja::error::DomainError;
use umoja::harness::{EntryKind, HarnessEntry, HarnessScope, Refinement, RefinementOp};
use umoja::harness_ops::{
    forgotten, listing, prompt_block, remembered, rolled_back, supplemental_prompt, HarnessChange,
    Remember,
};

/// A store held in memory: the entries of one session, and the refinements
/// that recorded their changes.
#[derive(Default)]
struct Book {
    local: Vec<HarnessEntry>,
    global: Vec<HarnessEntry>,
    refinements: Vec<Refinement>,
    next: u32,
}

impl Book {
    fn fresh(&mut self, prefix: &str) -> String {
        self.next += 1;
        format!("{prefix}-{}", self.next)
    }

    fn rows(&mut self, scope: HarnessScope) -> &mut Vec<HarnessEntry> {
        match scope {
            HarnessScope::Local => &mut self.local,
            HarnessScope::Global => &mut self.global,
        }
    }

    fn get(&mut self, scope: HarnessScope, name: &str) -> Option<HarnessEntry> {
        self.rows(scope).iter().find(|e| e.name == name).cloned()
    }

    fn apply(&mut self, change: HarnessChange) {
        match change {
            HarnessChange::Put(e) => {
                let rows = self.rows(e.scope);
                rows.retain(|r| r.name != e.name);
                rows.push(e);
            }
            HarnessChange::Remove { scope, name } => self.rows(scope).retain(|r| r.name != name),
        }
    }

    fn list(&self) -> Vec<HarnessEntry> {
        let mut all = self.local.clone();
        all.extend(self.global.iter().cloned());
        all
    }

    fn remember(&mut self, request: Remember) -> Result<(HarnessEntry, Refinement), DomainError> {
        let name = HarnessEntry::normalise_name(&request.name)?;
        let existing = self.get(request.scope, &name);
        let entry_id = self.fresh("ent");
        let refinement_id = self.fresh("ref");
        let (entry, f) = remembered(request, existing, &entry_id, &refinement_id, now())?;
        self.apply(HarnessChange::Put(entry.clone()));
        self.refinements.push(f.clone());
        Ok((entry, f))
    }

    fn forget(&mut self, scope: HarnessScope, name: &str, evidence: &str) -> Refinement {
        let name = HarnessEntry::normalise_name(name).unwrap();
        let existing = self.get(scope, &name).unwrap();
        let id = self.fresh("ref");
        let f = forgotten(existing, Some("ses-1".into()), &id, evidence, now()).unwrap();
        self.apply(HarnessChange::Remove { scope, name });
        self.refinements.push(f.clone());
        f
    }

    fn rollback(&mut self, id: &str) -> Result<Refinement, DomainError> {
        let at = self.refinements.iter().position(|f| f.id == id).unwrap();
        let undo_id = self.fresh("ref");
        let original = self.refinements[at].clone();
        let (change, undo, stamped) =
            rolled_back(original, Some("ses-1".into()), &undo_id, now())?;
        self.apply(change);
        self.refinements[at] = stamped;
        self.refinements.push(undo.clone());
        Ok(undo)
    }
}

fn now() -> i64 {
    chrono::DateTime::parse_from_rfc3339("2026-08-16T12:00:00Z").unwrap().timestamp()
}

fn remember(name: &str, body: &str) -> Remember {
    Remember {
        session_id: Some("ses-1".into()),
        kind: EntryKind::Memory,
        scope: HarnessScope::Local,
        name: name.into(),
        body: body.into(),
        evidence: "the user said so".into(),
        outcome: None,
        tags: vec![],
    }
}

#[test]
fn writing_twice_updates_rather_than_duplicates() {
    let mut book = Book::default();
    let (_, first) = book.remember(remember("style", "prefers rust")).unwrap();
    assert_eq!(first.op, RefinementOp::Create);

    let (entry, second) = book.remember(remember("style", "prefers rust, no unsafe")).unwrap();
    assert_eq!(second.op, RefinementOp::Update);
    assert_eq!(entry.body, "prefers rust, no unsafe");
    assert_eq!(book.list().len(), 1);
}

#[test]
fn an_entry_without_evidence_is_refused() {
    let mut book = Book::default();
    let mut request = remember("style", "body");
    request.evidence = "   ".into();
    assert!(book.remember(request).is_err());
}

#[test]
fn rolling_back_a_create_removes_the_entry() {
    let mut book = Book::default();
    let (_, refinement) = book.remember(remember("style", "prefers rust")).unwrap();
    book.rollback(&refinement.id).unwrap();
    assert!(book.list().is_empty());
}

#[test]
fn rolling_back_an_update_restores_the_previous_body() {
    let mut book = Book::default();
    book.remember(remember("style", "first")).unwrap();
    let (_, update) = book.remember(remember("style", "second")).unwrap();
    book.rollback(&update.id).unwrap();

    let rows = book.list();
    assert_eq!(rows[0].body, "first");
}

#[test]
fn rolling_back_a_delete_puts_the_entry_back() {
    let mut book = Book::default();
    book.remember(remember("style", "prefers rust")).unwrap();
    let deletion = book.forget(HarnessScope::Local, "style", "no longer true");
    assert!(book.list().is_empty());

    book.rollback(&deletion.id).unwrap();
    assert_eq!(book.list()[0].body, "prefers rust");
}

#[test]
fn a_rollback_cannot_be_applied_twice() {
    let mut book = Book::default();
    let (_, refinement) = book.remember(remember("style", "prefers rust")).unwrap();
    book.rollback(&refinement.id).unwrap();
    assert!(book.rollback(&refinement.id).is_err());
}

#[test]
fn the_prompt_block_carries_headlines_not_bodies() {
    let mut book = Book::default();
    book.remember(remember(
        "style",
        "prefers rust\nand a great deal of further detail that must not appear",
    ))
    .unwrap();
    let block = prompt_block(book.list());
    assert!(block.contains("prefers rust"));
    assert!(!block.contains("must not appear"));
    assert!(block.starts_with("<harness>"));
}

#[test]
fn an_empty_harness_renders_nothing_at_all() {
    assert!(prompt_block(Vec::new()).is_empty());
}

#[test]
fn an_update_keeps_the_id_age_and_hits_of_the_entry() {
    let mut book = Book::default();
    let (first, _) = book.remember(remember("style", "first")).unwrap();
    let mut stored = book.get(HarnessScope::Local, "style").unwrap();
    stored.hits = 7;
    stored.created_at = now() - 100;
    let (second, f) =
        remembered(remember("Style", "second"), Some(stored), "ent-new", "ref-new", now())
            .unwrap();
    assert_eq!(second.id, first.id);
    assert_eq!(second.hits, 7);
    assert_eq!(second.created_at, now() - 100);
    assert_eq!(second.updated_at, now());
    assert_eq!(f.summary, "update memory 'style'");
    assert_eq!(f.snapshot.before.unwrap().body, "first");
    assert_eq!(f.snapshot.after.unwrap().body, "second");
}

#[test]
fn a_new_entry_takes_the_fresh_id_and_records_a_create() {
    let (entry, f) =
        remembered(remember("Tone Of Voice", "terse"), None, "ent-9", "ref-9", now()).unwrap();
    assert_eq!(entry.id, "ent-9");
    assert_eq!(entry.name, "tone-of-voice");
    assert_eq!(f.id, "ref-9");
    assert_eq!(f.summary, "create memory 'tone-of-voice'");
    assert_eq!(f.evidence, "the user said so");
    assert!(f.snapshot.before.is_none());
}

#[test]
fn a_bad_name_is_refused_before_anything_else() {
    let err = remembered(remember("!!!", "body"), None, "ent-1", "ref-1", now()).unwrap_err();
    assert!(matches!(err, DomainError::Invalid(_)));
}

#[test]
fn forgetting_records_a_delete_and_demands_evidence() {
    let (entry, _) =
        remembered(remember("style", "terse"), None, "ent-1", "ref-1", now()).unwrap();
    let f = forgotten(entry.clone(), None, "ref-2", "stale", now()).unwrap();
    assert_eq!(f.op, RefinementOp::Delete);
    assert_eq!(f.summary, "delete memory 'style'");
    assert!(f.snapshot.after.is_none());
    assert!(forgotten(entry, None, "ref-3", "  ", now()).is_err());
}

#[test]
fn a_second_rollback_names_the_first() {
    let (_, f) = remembered(remember("style", "terse"), None, "ent-1", "ref-1", now()).unwrap();
    let (change, undo, stamped) = rolled_back(f, None, "ref-2", now()).unwrap();
    assert!(matches!(change, HarnessChange::Remove { ref name, .. } if name == "style"));
    assert_eq!(undo.op, RefinementOp::Delete);
    assert_eq!(undo.summary, "rollback of ref-1: create memory 'style'");
    assert_eq!(undo.evidence, "undoing refinement ref-1");
    assert_eq!(stamped.reverted_by.as_deref(), Some("ref-2"));
    match rolled_back(stamped, None, "ref-3", now()) {
        Err(DomainError::Forbidden(m)) => assert_eq!(m, "ref-1 was already rolled back by ref-2"),
        other => panic!("expected a refusal, got {other:?}"),
    }
}

#[test]
fn listing_orders_by_kind_then_name_and_filters() {
    let mk = |kind, name: &str| {
        let mut r = remember(name, "body");
        r.kind = kind;
        remembered(r, None, "ent", "ref", now()).unwrap().0
    };
    let rows = vec![
        mk(EntryKind::SkillSpec, "zeta"),
        mk(EntryKind::Memory, "beta"),
        mk(EntryKind::PromptNote, "alpha"),
        mk(EntryKind::Memory, "alpha"),
    ];
    let listed = listing(rows.clone(), None);
    let names: Vec<(&str, &str)> =
        listed.iter().map(|e| (e.kind.label(), e.name.as_str())).collect();
    assert_eq!(
        names,
        vec![("memory", "alpha"), ("memory", "beta"), ("prompt-note", "alpha"), ("skill", "zeta")]
    );
    assert_eq!(listing(rows, Some(EntryKind::Memory)).len(), 2);
}

#[test]
fn the_prompt_block_groups_by_kind_in_a_fixed_order() {
    let mut note = remember("be-brief", "Keep answers short.");
    note.kind = EntryKind::PromptNote;
    let (n, _) = remembered(note, None, "ent-1", "ref-1", now()).unwrap();
    let (m, _) = remembered(remember("style", "prefers rust"), None, "ent-2", "ref-2", now())
        .unwrap();
    let block = prompt_block(vec![m, n]);
    assert_eq!(
        block,
        "<harness>\n  <prompt-note>\n    [prompt-note] be-brief: Keep answers short.\n  </prompt-note>\n  <memory>\n    [memory] style: prefers rust\n  </memory>\n</harness>"
    );
}

#[test]
fn the_supplemental_prompt_joins_what_is_not_blank() {
    assert_eq!(supplemental_prompt("<harness/>", "<skills/>", "goal"), "<harness/>\n\n<skills/>\n\ngoal");
    assert_eq!(supplemental_prompt("  ", "<skills/>", ""), "<skills/>");
    assert_eq!(supplemental_prompt("<harness/>", "\n", "goal"), "<harness/>\n\ngoal");
    assert_eq!(supplemental_prompt("", " ", "\t"), "");
}

#[test]
fn refinements_are_listed_newest_first_and_cut_at_the_limit() {
    let mut book = Book::default();
    book.remember(remember("one", "first")).unwrap();
    book.remember(remember("two", "second")).unwrap();
    book.remember(remember("three", "third")).unwrap();
    let ids: Vec<String> = umoja::harness_ops::newest_first(book.refinements.clone(), 2).into_iter().map(|r| r.id).collect();
    assert_eq!(ids, vec![book.refinements[2].id.clone(), book.refinements[1].id.clone()]);
    assert_eq!(umoja::harness_ops::newest_first(book.refinements.clone(), 10).len(), 3);
    assert!(umoja::harness_ops::newest_first(book.refinements.clone(), 0).is_empty());
}
