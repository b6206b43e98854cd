//! Writing to the harness: remembering, forgetting and rolling back.
//!
//! Two rules run through everything here:
//!
//! 1. **Nothing is written without evidence.** An entry or a refinement with
//!    an empty justification is refused, and nothing here invents one on the
//!    caller's behalf.
//! 2. **Every write is reversible.** Each change records a before/after
//!    snapshot, so a rollback is a mechanical inverse rather than a second
//!    guess at what the state used to be.
//!
//! The functions here decide; the caller reads and writes the store. Each
//! write is described by a [`HarnessChange`], and the store is modelled as a
//! map from (scope, name) to the entry kept there.
use vstd::prelude::*;

use crate::error::{DomainError, Result};
use crate::harness::{
    same_entry, same_slot, shape_error, EntryKind, HarnessEntry, HarnessScope, Refinement,
    RefinementOp, Snapshot,
};
use crate::skill::{text_at_most, text_le};
use crate::text::{
    glue, glue_onto, is_space, lemma_trim_plain, lemma_trim_twice, owned, push_str, same_text, trim,
    trimmed,
};

verus! {

/// A request to write one lesson into the harness.
#[derive(Debug, Clone)]
pub struct Remember {
    pub session_id: Option<String>,
    pub kind: EntryKind,
    pub scope: HarnessScope,
    pub name: String,
    pub body: String,
    pub evidence: String,
    pub outcome: Option<String>,
    pub tags: Vec<String>,
}

/// One write to the harness store.
#[derive(Debug, Clone)]
pub enum HarnessChange {
    /// Store the entry under its scope and name, replacing what was there.
    Put(HarnessEntry),
    /// Remove whatever is stored under this scope and name.
    Remove { scope: HarnessScope, name: String },
}

/// The store as a map from (scope, name) to the entry kept there.
pub open spec fn slot_of(
    book: Map<(HarnessScope, Seq<char>), HarnessEntry>,
    scope: HarnessScope,
    name: Seq<char>,
) -> Option<HarnessEntry> {
    if book.dom().contains((scope, name)) {
        Some(book[(scope, name)])
    } else {
        None
    }
}

/// Every entry is kept under its own scope and name.
pub open spec fn keyed(book: Map<(HarnessScope, Seq<char>), HarnessEntry>) -> bool {
    forall|k: (HarnessScope, Seq<char>)| #[trigger]
        book.dom().contains(k) ==> (book[k].scope, book[k].name@) == k
}

/// The store after one write.
pub open spec fn applied(
    book: Map<(HarnessScope, Seq<char>), HarnessEntry>,
    change: HarnessChange,
) -> Map<(HarnessScope, Seq<char>), HarnessEntry> {
    match change {
        HarnessChange::Put(e) => book.insert((e.scope, e.name@), e),
        HarnessChange::Remove { scope, name } => book.remove((scope, name@)),
    }
}

/// The summary a refinement of `op` on an entry is recorded under.
pub open spec fn change_summary(op: RefinementOp, kind: EntryKind, name: Seq<char>) -> Seq<char> {
    op.spec_label() + " "@ + kind.spec_label() + " '"@ + name + "'"@
}

/// Why a request to remember is refused, if it is: a name that does not
/// normalise, an empty body or empty evidence.
pub open spec fn remember_refused(request: Remember) -> bool {
    ||| HarnessEntry::spec_normalise(request.name@) is None
    ||| trim(request.body@).len() == 0
    ||| trim(request.evidence@).len() == 0
}

proof fn lemma_summary_is_trimmed(op: RefinementOp, kind: EntryKind, name: Seq<char>)
    ensures
        trim(change_summary(op, kind, name)) == change_summary(op, kind, name),
        change_summary(op, kind, name).len() > 0,
{
    let s = change_summary(op, kind, name);
    reveal_strlit("create");
    reveal_strlit("update");
    reveal_strlit("delete");
    reveal_strlit("'");
    assert(s[0] == op.spec_label()[0]);
    assert(s.last() == '\'');
    lemma_trim_plain(s);
}

fn summary_text(op: RefinementOp, kind: EntryKind, name: &str) -> (r: String)
    ensures
        r@ == change_summary(op, kind, name@),
{
    let mut s = owned(op.label());
    push_str(&mut s, " ");
    push_str(&mut s, kind.label());
    push_str(&mut s, " '");
    push_str(&mut s, name);
    push_str(&mut s, "'");
    s
}

/// Creates or updates an entry from `request`, with the refinement that
/// records the change.
///
/// `existing` is what the store holds under the request's scope and
/// normalised name. An update keeps the stored entry's id, creation time and
/// hit count; a new entry takes `fresh_id`. The store is then written with
/// `HarnessChange::Put` of the returned entry.
pub fn remembered(
    request: Remember,
    existing: Option<HarnessEntry>,
    fresh_id: &str,
    refinement_id: &str,
    now: i64,
) -> (r: Result<(HarnessEntry, Refinement)>)
    ensures
        match r {
            Ok((entry, f)) => {
                let op = if existing is Some {
                    RefinementOp::Update
                } else {
                    RefinementOp::Create
                };
                &&& !remember_refused(request)
                &&& HarnessEntry::spec_normalise(request.name@) == Some(entry.name@)
                &&& entry.id@ == (match existing {
                    Some(p) => p.id@,
                    None => fresh_id@,
                })
                &&& entry.kind == request.kind
                &&& entry.scope == request.scope
                &&& entry.body@ == trim(request.body@)
                &&& entry.evidence@ == trim(request.evidence@)
                &&& entry.outcome == request.outcome
                &&& entry.tags == request.tags
                &&& entry.created_at == (match existing {
                    Some(p) => p.created_at,
                    None => now,
                })
                &&& entry.hits == (match existing {
                    Some(p) => p.hits,
                    None => 0,
                })
                &&& entry.updated_at == now
                &&& f.id@ == refinement_id@
                &&& f.session_id == request.session_id
                &&& f.op == op
                &&& f.summary@ == change_summary(op, request.kind, entry.name@)
                &&& f.evidence@ == entry.evidence@
                &&& f.outcome is None
                &&& f.snapshot.before == existing
                &&& same_slot(f.snapshot.after, Some(entry))
                &&& f.created_at == now
                &&& f.reverted_by is None
            },
            Err(e) => e is Invalid && remember_refused(request),
        },
{
    let id = match &existing {
        Some(prior) => prior.id.clone(),
        None => owned(fresh_id),
    };
    let Remember { session_id, kind, scope, name, body, evidence, outcome, tags } = request;
    let mut entry = HarnessEntry::new(
        id.as_str(),
        kind,
        scope,
        name.as_str(),
        body.as_str(),
        evidence.as_str(),
        now,
    )?;
    entry.outcome = outcome;
    entry.tags = tags;
    match &existing {
        Some(prior) => {
            entry.created_at = prior.created_at;
            entry.hits = prior.hits;
        },
        None => {},
    }
    let op = if existing.is_some() {
        RefinementOp::Update
    } else {
        RefinementOp::Create
    };
    let summary = summary_text(op, kind, entry.name.as_str());
    proof {
        lemma_summary_is_trimmed(op, kind, entry.name@);
        lemma_trim_twice(evidence@);
    }
    let after = entry.duplicate();
    let snapshot = Snapshot { before: existing, after: Some(after) };
    let refinement = match Refinement::new(
        refinement_id,
        session_id,
        op,
        summary.as_str(),
        entry.evidence.as_str(),
        snapshot,
        now,
    ) {
        Ok(f) => f,
        Err(e) => {
            return Err(e);
        },
    };
    Ok((entry, refinement))
}

/// Records the removal of `existing`, the entry the store holds under the
/// scope and name being forgotten. The store is then written with
/// `HarnessChange::Remove` of that scope and name.
pub fn forgotten(
    existing: HarnessEntry,
    session_id: Option<String>,
    refinement_id: &str,
    evidence: &str,
    now: i64,
) -> (r: Result<Refinement>)
    ensures
        match r {
            Ok(f) => {
                &&& trim(evidence@).len() > 0
                &&& f.id@ == refinement_id@
                &&& f.session_id == session_id
                &&& f.op == RefinementOp::Delete
                &&& f.summary@ == change_summary(
                    RefinementOp::Delete,
                    existing.kind,
                    existing.name@,
                )
                &&& f.evidence@ == trim(evidence@)
                &&& f.outcome is None
                &&& same_slot(f.snapshot.before, Some(existing))
                &&& f.snapshot.after is None
                &&& f.created_at == now
                &&& f.reverted_by is None
            },
            Err(e) => e is Invalid && trim(evidence@).len() == 0,
        },
{
    let summary = summary_text(RefinementOp::Delete, existing.kind, existing.name.as_str());
    proof {
        lemma_summary_is_trimmed(RefinementOp::Delete, existing.kind, existing.name@);
    }
    let before = existing.duplicate();
    Refinement::new(
        refinement_id,
        session_id,
        RefinementOp::Delete,
        summary.as_str(),
        evidence,
        Snapshot { before: Some(before), after: None },
        now,
    )
}

/// The write that undoes a change with snapshot `s`: put the old entry back
/// where there was one, remove the new one where there was not.
pub open spec fn undoes(change: HarnessChange, s: Snapshot) -> bool {
    match s.before {
        Some(b) => change matches HarnessChange::Put(e) && same_entry(e, b),
        None => match s.after {
            Some(a) => change matches HarnessChange::Remove { scope, name } && scope == a.scope
                && name@ == a.name@,
            None => false,
        },
    }
}

/// The summary a rollback of `f` is recorded under.
pub open spec fn rollback_summary(f: Refinement) -> Seq<char> {
    "rollback of "@ + f.id@ + ": "@ + f.summary@
}

/// The evidence a rollback of `f` is recorded with.
pub open spec fn rollback_evidence(f: Refinement) -> Seq<char> {
    "undoing refinement "@ + f.id@
}

/// The message a second rollback of `f` is refused with.
pub open spec fn already_rolled_back(f: Refinement) -> Seq<char> {
    f.id@ + " was already rolled back by "@ + f.reverted_by->0@
}

/// Undoes `original` by applying its snapshot backwards.
///
/// Returns the write that restores the store, the refinement recording the
/// rollback, and `original` stamped with the id of that refinement. Nothing
/// is erased: the history of what was tried stays.
pub fn rolled_back(
    original: Refinement,
    session_id: Option<String>,
    undo_id: &str,
    now: i64,
) -> (r: Result<(HarnessChange, Refinement, Refinement)>)
    ensures
        match r {
            Ok((change, undo, stamped)) => {
                &&& original.reverted_by is None
                &&& undoes(change, original.snapshot)
                &&& undo.id@ == undo_id@
                &&& undo.session_id == session_id
                &&& undo.op == original.op.inverse()
                &&& undo.summary@ == trim(rollback_summary(original))
                &&& undo.evidence@ == trim(rollback_evidence(original))
                &&& undo.outcome is None
                &&& same_slot(undo.snapshot.before, original.snapshot.after)
                &&& same_slot(undo.snapshot.after, original.snapshot.before)
                &&& undo.created_at == now
                &&& undo.reverted_by is None
                &&& stamped == (Refinement { reverted_by: Some(undo.id), ..original })
            },
            Err(e) => {
                ||| original.reverted_by is Some && (e matches DomainError::Forbidden(m) && m@
                    == already_rolled_back(original))
                ||| original.reverted_by is None && e is Invalid && (
                original.snapshot.before is None && original.snapshot.after is None
                    || shape_error(
                    original.op.inverse(),
                    original.snapshot.after is Some,
                    original.snapshot.before is Some,
                ) is Some)
            },
        },
{
    proof {
        reveal_strlit("rollback of ");
        reveal_strlit("undoing refinement ");
    }
    match &original.reverted_by {
        Some(by) => {
            let mut m = owned(original.id.as_str());
            push_str(&mut m, " was already rolled back by ");
            push_str(&mut m, by.as_str());
            return Err(DomainError::Forbidden(m));
        },
        None => {},
    }
    let change = match (&original.snapshot.before, &original.snapshot.after) {
        (Some(b), _) => HarnessChange::Put(b.duplicate()),
        (None, Some(a)) => HarnessChange::Remove { scope: a.scope, name: a.name.clone() },
        (None, None) => {
            return Err(DomainError::invalid("that refinement has nothing to undo"));
        },
    };
    let inverse = original.snapshot.inverted();
    let mut summary = owned("rollback of ");
    push_str(&mut summary, original.id.as_str());
    push_str(&mut summary, ": ");
    push_str(&mut summary, original.summary.as_str());
    let mut evidence = owned("undoing refinement ");
    push_str(&mut evidence, original.id.as_str());
    proof {
        assert(summary@[0] == 'r');
        assert(evidence@[0] == 'u');
        assert(!is_space(summary@[0]));
        assert(!is_space(evidence@[0]));
        crate::text::lemma_trim_start_head(summary@);
        crate::text::lemma_trim_start_head(evidence@);
        assert(crate::text::trim_start(summary@) == summary@);
        assert(crate::text::trim_start(evidence@) == evidence@);
        crate::text::lemma_trim_end_prefix(summary@);
        crate::text::lemma_trim_end_prefix(evidence@);
    }
    let undo = match Refinement::new(
        undo_id,
        session_id,
        original.inverse_op(),
        summary.as_str(),
        evidence.as_str(),
        inverse,
        now,
    ) {
        Ok(f) => f,
        Err(e) => {
            return Err(e);
        },
    };
    let stamp = undo.id.clone();
    let mut stamped = original;
    stamped.reverted_by = Some(stamp);
    Ok((change, undo, stamped))
}

/// A refinement that has been rolled back refuses a second rollback.
pub open spec fn refuses_rollback(f: Refinement) -> bool {
    f.reverted_by is Some
}

/// A rollback cannot be applied twice: the refinement a rollback leaves
/// behind is stamped, and a stamped refinement refuses another rollback.
pub proof fn lemma_rollback_applies_once(original: Refinement, undo: Refinement, stamped: Refinement)
    requires
        stamped == (Refinement { reverted_by: Some(undo.id), ..original }),
    ensures
        refuses_rollback(stamped),
{
}

/// Every write is reversible: in a store whose entries are kept under their
/// own scope and name, remembering an entry and then applying the rollback of
/// the refinement that recorded it leaves every slot as it was.
pub proof fn lemma_remember_then_rollback(
    book: Map<(HarnessScope, Seq<char>), HarnessEntry>,
    entry: HarnessEntry,
    f: Refinement,
    undo: HarnessChange,
)
    requires
        keyed(book),
        f.snapshot.before == slot_of(book, entry.scope, entry.name@),
        same_slot(f.snapshot.after, Some(entry)),
        undoes(undo, f.snapshot),
    ensures
        forall|scope: HarnessScope, name: Seq<char>|
            same_slot(
                #[trigger] slot_of(applied(applied(book, HarnessChange::Put(entry)), undo), scope, name),
                slot_of(book, scope, name),
            ),
{
    let key = (entry.scope, entry.name@);
    if book.dom().contains(key) {
        assert(book[key].scope == entry.scope && book[key].name@ == entry.name@);
    }
}

/// Every write is reversible: in a store whose entries are kept under their
/// own scope and name, forgetting an entry and then applying the rollback of
/// the refinement that recorded it leaves every slot as it was.
pub proof fn lemma_forget_then_rollback(
    book: Map<(HarnessScope, Seq<char>), HarnessEntry>,
    existing: HarnessEntry,
    f: Refinement,
    undo: HarnessChange,
)
    requires
        keyed(book),
        slot_of(book, existing.scope, existing.name@) == Some(existing),
        same_slot(f.snapshot.before, Some(existing)),
        undoes(undo, f.snapshot),
    ensures
        forall|scope: HarnessScope, name: Seq<char>|
            same_slot(
                #[trigger] slot_of(
                    applied(
                        applied(
                            book,
                            HarnessChange::Remove { scope: existing.scope, name: existing.name },
                        ),
                        undo,
                    ),
                    scope,
                    name,
                ),
                slot_of(book, scope, name),
            ),
{
}

/// The entries of `s` of the wanted kind, in order; all of them when no kind
/// is wanted.
pub open spec fn of_kind(s: Seq<HarnessEntry>, kind: Option<EntryKind>) -> Seq<HarnessEntry>
    decreases s.len(),
{
    if s.len() == 0 {
        s
    } else {
        let rest = of_kind(s.drop_last(), kind);
        if kind is None || kind == Some(s.last().kind) {
            rest.push(s.last())
        } else {
            rest
        }
    }
}

/// Listing order: by kind label, then by name.
pub open spec fn listed_le(a: HarnessEntry, b: HarnessEntry) -> bool {
    if a.kind.spec_label() == b.kind.spec_label() {
        text_le(a.name@, b.name@)
    } else {
        text_le(a.kind.spec_label(), b.kind.spec_label())
    }
}

/// Where a stable insertion puts `x` into `t`: after every entry that is at
/// most `x`, counting from the end.
pub open spec fn listed_pos(t: Seq<HarnessEntry>, x: HarnessEntry) -> int
    decreases t.len(),
{
    if t.len() == 0 {
        0
    } else if listed_le(t.last(), x) {
        t.len() as int
    } else {
        listed_pos(t.drop_last(), x)
    }
}

/// The stable sort of `s` in listing order: entries with equal keys keep
/// their order in `s`.
pub open spec fn listed_sort(s: Seq<HarnessEntry>) -> Seq<HarnessEntry>
    decreases s.len(),
{
    if s.len() == 0 {
        s
    } else {
        let t = listed_sort(s.drop_last());
        t.insert(listed_pos(t, s.last()), s.last())
    }
}

/// What a listing of `rows` shows: the entries of the wanted kind, sorted.
pub open spec fn listing_of(rows: Seq<HarnessEntry>, kind: Option<EntryKind>) -> Seq<
    HarnessEntry,
> {
    listed_sort(of_kind(rows, kind))
}

proof fn lemma_listed_pos_bounds(t: Seq<HarnessEntry>, x: HarnessEntry)
    ensures
        0 <= listed_pos(t, x) <= t.len(),
    decreases t.len(),
{
    if t.len() > 0 {
        lemma_listed_pos_bounds(t.drop_last(), x);
    }
}

fn listed_at_most(a: &HarnessEntry, b: &HarnessEntry) -> (r: bool)
    ensures
        r == listed_le(*a, *b),
{
    let la = a.kind.label();
    let lb = b.kind.label();
    if same_text(la, lb) {
        text_at_most(a.name.as_str(), b.name.as_str())
    } else {
        text_at_most(la, lb)
    }
}

/// The rows of the wanted kind (all rows when `kind` is `None`), sorted by
/// kind label and then by name; rows with equal keys keep their order.
pub fn listing(rows: Vec<HarnessEntry>, kind: Option<EntryKind>) -> (r: Vec<HarnessEntry>)
    ensures
        r@ == listing_of(rows@, kind),
{
    let ghost orig = rows@;
    let n = rows.len();
    let mut rest = rows;
    let mut out: Vec<HarnessEntry> = Vec::new();
    let mut i: usize = 0;
    assert(orig.take(0) =~= Seq::<HarnessEntry>::empty());
    while rest.len() > 0
        invariant
            n == orig.len(),
            i + rest@.len() == n,
            rest@ == orig.skip(i as int),
            out@ == listed_sort(of_kind(orig.take(i as int), kind)),
        decreases rest@.len(),
    {
        let x = rest.remove(0);
        proof {
            assert(orig.take(i + 1).drop_last() =~= orig.take(i as int));
            assert(orig.take(i + 1).last() == x);
            assert(rest@ =~= orig.skip(i + 1));
        }
        let wanted = match kind {
            Some(k) => k == x.kind,
            None => true,
        };
        if wanted {
            proof {
                let f = of_kind(orig.take(i + 1), kind);
                assert(f == of_kind(orig.take(i as int), kind).push(x));
                assert(f.drop_last() =~= of_kind(orig.take(i as int), kind));
                lemma_listed_pos_bounds(out@, x);
            }
            let mut p = out.len();
            assert(out@.take(p as int) =~= out@);
            while p > 0 && !listed_at_most(&out[p - 1], &x)
                invariant
                    p <= out@.len(),
                    listed_pos(out@, x) == listed_pos(out@.take(p as int), x),
                decreases p,
            {
                assert(out@.take(p as int).drop_last() =~= out@.take(p - 1));
                p -= 1;
            }
            proof {
                if p > 0 {
                    assert(out@.take(p as int).last() == out@[p - 1]);
                }
            }
            out.insert(p, x);
        }
        i += 1;
    }
    assert(orig.take(n as int) =~= orig);
    out
}

/// Some entry of `s` is of `kind`.
pub open spec fn has_kind(s: Seq<HarnessEntry>, kind: EntryKind) -> bool
    decreases s.len(),
{
    s.len() > 0 && (s.last().kind == kind || has_kind(s.drop_last(), kind))
}

/// The headline lines of the entries of `s` that are of `kind`, in order.
pub open spec fn group_lines(s: Seq<HarnessEntry>, kind: EntryKind) -> Seq<char>
    decreases s.len(),
{
    if s.len() == 0 {
        Seq::empty()
    } else {
        let rest = group_lines(s.drop_last(), kind);
        if s.last().kind == kind {
            rest + "    "@ + s.last().spec_headline() + "\n"@
        } else {
            rest
        }
    }
}

/// The block for one kind: its headlines between an opening and a closing
/// tag, or nothing when no entry is of that kind.
pub open spec fn group_block(s: Seq<HarnessEntry>, kind: EntryKind) -> Seq<char> {
    if has_kind(s, kind) {
        "  <"@ + kind.spec_label() + ">\n"@ + group_lines(s, kind) + "  </"@ + kind.spec_label()
            + ">\n"@
    } else {
        Seq::empty()
    }
}

/// The harness as a prompt block: headlines only, grouped by kind in the
/// order prompt notes, memories, skills, subagents, and nothing at all when
/// there are no entries.
pub open spec fn harness_block(s: Seq<HarnessEntry>) -> Seq<char> {
    if s.len() == 0 {
        Seq::empty()
    } else {
        "<harness>\n"@ + group_block(s, EntryKind::PromptNote) + group_block(s, EntryKind::Memory)
            + group_block(s, EntryKind::SkillSpec) + group_block(s, EntryKind::SubagentSpec)
            + "</harness>"@
    }
}

fn push_group(out: &mut String, entries: &Vec<HarnessEntry>, kind: EntryKind)
    ensures
        final(out)@ == old(out)@ + group_block(entries@, kind),
{
    let mut lines = String::new();
    let mut found = false;
    let mut i: usize = 0;
    assert(entries@.take(0) =~= Seq::<HarnessEntry>::empty());
    while i < entries.len()
        invariant
            i <= entries.len(),
            lines@ == group_lines(entries@.take(i as int), kind),
            found == has_kind(entries@.take(i as int), kind),
        decreases entries.len() - i,
    {
        let e = &entries[i];
        proof {
            assert(entries@.take(i + 1).drop_last() =~= entries@.take(i as int));
            assert(entries@.take(i + 1).last() == *e);
        }
        if e.kind == kind {
            push_str(&mut lines, "    ");
            let h = e.headline();
            push_str(&mut lines, h.as_str());
            push_str(&mut lines, "\n");
            found = true;
        }
        i += 1;
    }
    assert(entries@.take(entries.len() as int) =~= entries@);
    if found {
        push_str(out, "  <");
        push_str(out, kind.label());
        push_str(out, ">\n");
        push_str(out, lines.as_str());
        push_str(out, "  </");
        push_str(out, kind.label());
        push_str(out, ">\n");
    }
}

/// Renders entries, in the order given, as a prompt block.
pub fn render_block(entries: &Vec<HarnessEntry>) -> (r: String)
    ensures
        r@ == harness_block(entries@),
{
    if entries.len() == 0 {
        return String::new();
    }
    let mut out = owned("<harness>\n");
    push_group(&mut out, entries, EntryKind::PromptNote);
    push_group(&mut out, entries, EntryKind::Memory);
    push_group(&mut out, entries, EntryKind::SkillSpec);
    push_group(&mut out, entries, EntryKind::SubagentSpec);
    push_str(&mut out, "</harness>");
    out
}

/// The harness held in `rows` as a prompt block: the rows listed, then
/// rendered. The base prompt is never touched; this is supplemental text a
/// caller appends.
pub fn prompt_block(rows: Vec<HarnessEntry>) -> (r: String)
    ensures
        r@ == harness_block(listing_of(rows@, None)),
{
    let listed = listing(rows, None);
    render_block(&listed)
}

/// The whole supplemental prompt: the harness block, the skills block and the
/// goal's continuation, those that are not blank, a blank line between each.
pub open spec fn supplemental(harness: Seq<char>, skills: Seq<char>, goal: Seq<char>) -> Seq<char> {
    let first = if trim(harness).len() > 0 {
        harness
    } else {
        Seq::<char>::empty()
    };
    let second = if trim(skills).len() > 0 {
        glue(first, "\n\n"@, skills)
    } else {
        first
    };
    if trim(goal).len() > 0 {
        glue(second, "\n\n"@, goal)
    } else {
        second
    }
}

/// One block a host can splice into its context, rather than three calls
/// and a decision about how to join them; see [`supplemental`].
pub fn supplemental_prompt(harness: &str, skills: &str, goal: &str) -> (r: String)
    ensures
        r@ == supplemental(harness@, skills@, goal@),
{
    let mut out = String::new();
    if trimmed(harness).len() > 0 {
        push_str(&mut out, harness);
    }
    if trimmed(skills).len() > 0 {
        glue_onto(&mut out, "\n\n", skills);
    }
    if trimmed(goal).len() > 0 {
        glue_onto(&mut out, "\n\n", goal);
    }
    out
}

/// The newest `limit` of `rows`, which are kept oldest first: the last
/// rows, newest first.
pub open spec fn newest(rows: Seq<Refinement>, limit: nat) -> Seq<Refinement> {
    let n = if limit < rows.len() {
        limit
    } else {
        rows.len()
    };
    Seq::new(n, |i: int| rows[rows.len() - 1 - i])
}

/// Lists refinements newest first, at most `limit` of them; see [`newest`].
pub fn newest_first(rows: Vec<Refinement>, limit: usize) -> (r: Vec<Refinement>)
    ensures
        r@ == newest(rows@, limit as nat),
{
    let ghost orig = rows@;
    let mut rest = rows;
    let mut out: Vec<Refinement> = Vec::new();
    while out.len() < limit && rest.len() > 0
        invariant
            out@.len() + rest@.len() == orig.len(),
            out@.len() <= limit,
            rest@ == orig.take(rest@.len() as int),
            forall|i: int| 0 <= i < out@.len() ==> #[trigger] out@[i] == orig[orig.len() - 1 - i],
        decreases rest@.len(),
    {
        let last = rest.pop().unwrap();
        proof {
            assert(last == orig[orig.len() - 1 - out@.len()]);
            assert(rest@ =~= orig.take(rest@.len() as int));
        }
        out.push(last);
    }
    assert(out@ =~= newest(orig, limit as nat));
    out
}

} // verus!
