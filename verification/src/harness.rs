//! The continual harness: durable, supplemental state that a session accretes.
//!
//! The rule that gives this module teeth: **the base system prompt is
//! immutable**. Refinement adds, updates and removes supplemental entries and
//! records a before/after snapshot for each change, so a bad lesson can be
//! undone rather than argued with.
use vstd::prelude::*;

use crate::error::{DomainError, Result};
use crate::text::{
    chars_of, find_char, find_in, is_text, keyword, lower, owned, push_chars, push_str,
    replace_char, replaced, slice_chars, slug, slug_of, string_of, trim, trim_bounds, trimmed,
};

verus! {

#[derive(Debug, Clone, Copy, PartialEq, Eq, Hash, Structural)]
pub enum EntryKind {
    /// A supplemental instruction added to the startup prompt.
    PromptNote,
    /// A durable fact about the user, the project or the world.
    Memory,
    /// A description of a reusable call: the contract, not the package.
    SkillSpec,
    /// A delegation role worth reusing: prompt, model, tools.
    SubagentSpec,
}

/// The normal form a kind is read in: trimmed, lower case, `-` and spaces as `_`.
pub open spec fn kind_key(text: Seq<char>) -> Seq<char> {
    replace_char(replace_char(lower(trim(text)), '-', '_'), ' ', '_')
}

impl EntryKind {
    /// The kind a normalised text names.
    pub open spec fn named(key: Seq<char>) -> Option<EntryKind> {
        if key == "prompt_note"@ || key == "note"@ || key == "prompt"@ {
            Some(EntryKind::PromptNote)
        } else if key == "memory"@ {
            Some(EntryKind::Memory)
        } else if key == "skill_spec"@ || key == "skill"@ {
            Some(EntryKind::SkillSpec)
        } else if key == "subagent_spec"@ || key == "subagent"@ || key == "agent"@ {
            Some(EntryKind::SubagentSpec)
        } else {
            None
        }
    }

    pub fn parse(text: &str) -> (r: Result<EntryKind>)
        ensures
            match r {
                Ok(k) => Self::named(kind_key(text@)) == Some(k),
                Err(e) => Self::named(kind_key(text@)) is None && e is Invalid,
            },
    {
        let k = keyword(text);
        let dashed = replaced(k.as_slice(), '-', '_');
        let key = replaced(dashed.as_slice(), ' ', '_');
        let key = key.as_slice();
        if is_text(key, "prompt_note") || is_text(key, "note") || is_text(key, "prompt") {
            Ok(EntryKind::PromptNote)
        } else if is_text(key, "memory") {
            Ok(EntryKind::Memory)
        } else if is_text(key, "skill_spec") || is_text(key, "skill") {
            Ok(EntryKind::SkillSpec)
        } else if is_text(key, "subagent_spec") || is_text(key, "subagent") || is_text(
            key,
            "agent",
        ) {
            Ok(EntryKind::SubagentSpec)
        } else {
            let mut m = owned("unknown harness kind '");
            push_chars(&mut m, key);
            push_str(&mut m, "'; expected prompt-note, memory, skill or subagent");
            Err(DomainError::Invalid(m))
        }
    }

    pub open spec fn spec_label(self) -> Seq<char> {
        match self {
            EntryKind::PromptNote => "prompt-note"@,
            EntryKind::Memory => "memory"@,
            EntryKind::SkillSpec => "skill"@,
            EntryKind::SubagentSpec => "subagent"@,
        }
    }

    pub fn label(self) -> (r: &'static str)
        ensures
            r@ == self.spec_label(),
    {
        match self {
            EntryKind::PromptNote => "prompt-note",
            EntryKind::Memory => "memory",
            EntryKind::SkillSpec => "skill",
            EntryKind::SubagentSpec => "subagent",
        }
    }
}

#[derive(Debug, Clone, Copy, PartialEq, Eq, Hash, Structural)]
pub enum HarnessScope {
    /// Belongs to one session's artifact directory. The default: most lessons
    /// are about this repository, not about the user.
    Local,
    /// Belongs to the machine, under the global harness directory. Rare, and
    /// deliberately harder to reach for.
    Global,
}

impl HarnessScope {
    /// The scope a trimmed, lower-cased text names.
    pub open spec fn named(key: Seq<char>) -> Option<HarnessScope> {
        if key == "local"@ || key == "session"@ || key == "project"@ {
            Some(HarnessScope::Local)
        } else if key == "global"@ || key == "user"@ {
            Some(HarnessScope::Global)
        } else {
            None
        }
    }

    pub fn parse(text: &str) -> (r: Result<HarnessScope>)
        ensures
            match r {
                Ok(s) => Self::named(lower(trim(text@))) == Some(s),
                Err(e) => Self::named(lower(trim(text@))) is None && e is Invalid,
            },
    {
        let k = keyword(text);
        let key = k.as_slice();
        if is_text(key, "local") || is_text(key, "session") || is_text(key, "project") {
            Ok(HarnessScope::Local)
        } else if is_text(key, "global") || is_text(key, "user") {
            Ok(HarnessScope::Global)
        } else {
            let mut m = owned("unknown scope '");
            push_chars(&mut m, key);
            push_str(&mut m, "'; expected local or global");
            Err(DomainError::Invalid(m))
        }
    }

    pub open spec fn spec_label(self) -> Seq<char> {
        match self {
            HarnessScope::Local => "local"@,
            HarnessScope::Global => "global"@,
        }
    }

    pub fn label(self) -> (r: &'static str)
        ensures
            r@ == self.spec_label(),
    {
        match self {
            HarnessScope::Local => "local",
            HarnessScope::Global => "global",
        }
    }
}

/// The longest name an entry may have.
pub const MAX_ENTRY_NAME_LEN: usize = 64;

/// The text before the first line break.
pub open spec fn before_newline(s: Seq<char>) -> Seq<char> {
    match find_char(s, '\n') {
        Some(i) => s.take(i),
        None => s,
    }
}

/// A line shown in a listing: at most 96 characters, longer ones cut to 93
/// and marked with `...`.
pub open spec fn clipped_line(s: Seq<char>) -> Seq<char> {
    if s.len() > 96 {
        s.take(93) + "..."@
    } else {
        s
    }
}

/// A copy of a list of strings.
pub fn copy_strings(v: &Vec<String>) -> (r: Vec<String>)
    ensures
        r@ == v@,
{
    let mut out: Vec<String> = Vec::new();
    let mut i: usize = 0;
    while i < v.len()
        invariant
            i <= v.len(),
            out@ == v@.take(i as int),
        decreases v.len() - i,
    {
        out.push(v[i].clone());
        i += 1;
        assert(out@ =~= v@.take(i as int));
    }
    assert(v@.take(v.len() as int) =~= v@);
    out
}

/// A copy of an optional string.
pub fn copy_text(v: &Option<String>) -> (r: Option<String>)
    ensures
        r == *v,
{
    match v {
        Some(s) => Some(s.clone()),
        None => None,
    }
}

/// One durable lesson. Instants are seconds since 1970-01-01T00:00:00Z.
#[derive(Debug, Clone, PartialEq, Eq)]
pub struct HarnessEntry {
    pub id: String,
    pub kind: EntryKind,
    pub scope: HarnessScope,
    /// Short, stable, human-addressable. Unique within (kind, scope).
    pub name: String,
    pub body: String,
    /// What in the trajectory justified writing this down. Required: an entry
    /// nobody can justify later is an entry nobody can safely delete.
    pub evidence: String,
    /// What should improve, and how it would be checked.
    pub outcome: Option<String>,
    pub tags: Vec<String>,
    pub created_at: i64,
    pub updated_at: i64,
    /// How many times this entry has been surfaced into a prompt. Cheap signal
    /// for pruning entries that never earn their tokens.
    pub hits: u64,
}

impl HarnessEntry {
    /// What `normalise_name` makes of `raw`, or `None` when it refuses it.
    pub open spec fn spec_normalise(raw: Seq<char>) -> Option<Seq<char>> {
        let name = slug(raw);
        if name.len() == 0 || name.len() > MAX_ENTRY_NAME_LEN {
            None
        } else {
            Some(name)
        }
    }

    pub fn normalise_name(raw: &str) -> (r: Result<String>)
        ensures
            match r {
                Ok(name) => Self::spec_normalise(raw@) == Some(name@),
                Err(e) => Self::spec_normalise(raw@) is None && e is Invalid,
            },
    {
        let name = slug_of(raw);
        if name.len() == 0 {
            return Err(DomainError::invalid("a harness entry needs a name"));
        }
        if name.len() > MAX_ENTRY_NAME_LEN {
            return Err(DomainError::invalid("harness names are 64 characters or less"));
        }
        Ok(string_of(name.as_slice()))
    }

    pub fn new(
        id: &str,
        kind: EntryKind,
        scope: HarnessScope,
        name: &str,
        body: &str,
        evidence: &str,
        now: i64,
    ) -> (r: Result<HarnessEntry>)
        ensures
            match r {
                Ok(e) => {
                    &&& Self::spec_normalise(name@) == Some(e.name@)
                    &&& trim(body@).len() > 0
                    &&& trim(evidence@).len() > 0
                    &&& e.id@ == id@
                    &&& e.kind == kind
                    &&& e.scope == scope
                    &&& e.body@ == trim(body@)
                    &&& e.evidence@ == trim(evidence@)
                    &&& e.outcome is None
                    &&& e.tags@.len() == 0
                    &&& e.created_at == now
                    &&& e.updated_at == now
                    &&& e.hits == 0
                },
                Err(e) => e is Invalid && (Self::spec_normalise(name@) is None || trim(body@).len()
                    == 0 || trim(evidence@).len() == 0),
            },
    {
        let name = Self::normalise_name(name)?;
        let b = trimmed(body);
        if b.len() == 0 {
            return Err(DomainError::invalid("a harness entry needs a body"));
        }
        let ev = trimmed(evidence);
        if ev.len() == 0 {
            return Err(
                DomainError::invalid(
                    "a harness entry needs evidence; say what in this session justified it",
                ),
            );
        }
        Ok(HarnessEntry {
            id: owned(id),
            kind,
            scope,
            name,
            body: string_of(b.as_slice()),
            evidence: string_of(ev.as_slice()),
            outcome: None,
            tags: Vec::new(),
            created_at: now,
            updated_at: now,
            hits: 0,
        })
    }

    pub open spec fn spec_headline(self) -> Seq<char> {
        "["@ + self.kind.spec_label() + "] "@ + self.name@ + ": "@ + clipped_line(
            trim(before_newline(self.body@)),
        )
    }

    /// The one-line form used when entries are listed into a prompt.
    pub fn headline(&self) -> (r: String)
        ensures
            r@ == self.spec_headline(),
    {
        let body = chars_of(self.body.as_str());
        let line = match find_in(body.as_slice(), '\n') {
            Some(i) => slice_chars(body.as_slice(), 0, i),
            None => body,
        };
        let (lo, hi) = trim_bounds(line.as_slice());
        let first = slice_chars(line.as_slice(), lo, hi);
        let mut out = owned("[");
        push_str(&mut out, self.kind.label());
        push_str(&mut out, "] ");
        push_str(&mut out, self.name.as_str());
        push_str(&mut out, ": ");
        if first.len() > 96 {
            let cut = slice_chars(first.as_slice(), 0, 93);
            push_chars(&mut out, cut.as_slice());
            push_str(&mut out, "...");
        } else {
            push_chars(&mut out, first.as_slice());
        }
        out
    }

    /// A copy of this entry.
    pub fn duplicate(&self) -> (r: Self)
        ensures
            same_entry(r, *self),
    {
        HarnessEntry {
            id: self.id.clone(),
            kind: self.kind,
            scope: self.scope,
            name: self.name.clone(),
            body: self.body.clone(),
            evidence: self.evidence.clone(),
            outcome: copy_text(&self.outcome),
            tags: copy_strings(&self.tags),
            created_at: self.created_at,
            updated_at: self.updated_at,
            hits: self.hits,
        }
    }
}

/// Two entries hold the same values, the tags compared as sequences.
pub open spec fn same_entry(a: HarnessEntry, b: HarnessEntry) -> bool {
    &&& a.id == b.id
    &&& a.kind == b.kind
    &&& a.scope == b.scope
    &&& a.name == b.name
    &&& a.body == b.body
    &&& a.evidence == b.evidence
    &&& a.outcome == b.outcome
    &&& a.tags@ == b.tags@
    &&& a.created_at == b.created_at
    &&& a.updated_at == b.updated_at
    &&& a.hits == b.hits
}

/// Both absent, or both present and the same.
pub open spec fn same_slot(a: Option<HarnessEntry>, b: Option<HarnessEntry>) -> bool {
    match (a, b) {
        (Some(x), Some(y)) => same_entry(x, y),
        (None, None) => true,
        _ => false,
    }
}

/// A copy of an optional entry.
pub fn copy_entry(v: &Option<HarnessEntry>) -> (r: Option<HarnessEntry>)
    ensures
        same_slot(r, *v),
{
    match v {
        Some(e) => Some(e.duplicate()),
        None => None,
    }
}

#[derive(Debug, Clone, Copy, PartialEq, Eq, Structural)]
pub enum RefinementOp {
    Create,
    Update,
    Delete,
}

impl RefinementOp {
    pub open spec fn spec_label(self) -> Seq<char> {
        match self {
            RefinementOp::Create => "create"@,
            RefinementOp::Update => "update"@,
            RefinementOp::Delete => "delete"@,
        }
    }

    pub fn label(self) -> (r: &'static str)
        ensures
            r@ == self.spec_label(),
    {
        match self {
            RefinementOp::Create => "create",
            RefinementOp::Update => "update",
            RefinementOp::Delete => "delete",
        }
    }

    /// The operation that undoes this one.
    pub open spec fn inverse(self) -> RefinementOp {
        match self {
            RefinementOp::Create => RefinementOp::Delete,
            RefinementOp::Delete => RefinementOp::Create,
            RefinementOp::Update => RefinementOp::Update,
        }
    }
}

/// The before/after pair that makes a refinement reversible.
#[derive(Debug, Clone, PartialEq, Eq)]
pub struct Snapshot {
    pub before: Option<HarnessEntry>,
    pub after: Option<HarnessEntry>,
}

impl Snapshot {
    pub open spec fn flipped(self) -> Snapshot {
        Snapshot { before: self.after, after: self.before }
    }

    /// Applying a refinement backwards is just swapping the two halves.
    pub fn inverted(&self) -> (r: Snapshot)
        ensures
            same_slot(r.before, self.after),
            same_slot(r.after, self.before),
    {
        Snapshot { before: copy_entry(&self.after), after: copy_entry(&self.before) }
    }
}

/// Why a snapshot does not fit an operation, or `None` when it does: a
/// create has no before and an after, an update both, a delete a before and
/// no after.
pub open spec fn shape_error(op: RefinementOp, has_before: bool, has_after: bool) -> Option<
    Seq<char>,
> {
    if op is Create && has_before {
        Some("a create refinement has no 'before'"@)
    } else if (op is Create || op is Update) && !has_after {
        Some("this refinement needs an 'after'"@)
    } else if (op is Update || op is Delete) && !has_before {
        Some("this refinement needs a 'before'"@)
    } else if op is Delete && has_after {
        Some("a delete refinement has no 'after'"@)
    } else {
        None
    }
}

/// One recorded change to the harness. Instants are seconds since
/// 1970-01-01T00:00:00Z.
#[derive(Debug, Clone, PartialEq, Eq)]
pub struct Refinement {
    pub id: String,
    pub session_id: Option<String>,
    pub op: RefinementOp,
    pub summary: String,
    pub evidence: String,
    pub outcome: Option<String>,
    pub snapshot: Snapshot,
    pub created_at: i64,
    /// Set when this refinement has been rolled back, naming the refinement
    /// that undid it. Rollbacks are recorded, never erased.
    pub reverted_by: Option<String>,
}

impl Refinement {
    pub fn new(
        id: &str,
        session_id: Option<String>,
        op: RefinementOp,
        summary: &str,
        evidence: &str,
        snapshot: Snapshot,
        now: i64,
    ) -> (r: Result<Refinement>)
        ensures
            match r {
                Ok(f) => {
                    &&& trim(summary@).len() > 0
                    &&& trim(evidence@).len() > 0
                    &&& shape_error(op, snapshot.before is Some, snapshot.after is Some) is None
                    &&& f.id@ == id@
                    &&& f.session_id == session_id
                    &&& f.op == op
                    &&& f.summary@ == trim(summary@)
                    &&& f.evidence@ == trim(evidence@)
                    &&& f.outcome is None
                    &&& f.snapshot == snapshot
                    &&& f.created_at == now
                    &&& f.reverted_by is None
                },
                Err(e) => e is Invalid && (trim(summary@).len() == 0 || trim(evidence@).len() == 0
                    || shape_error(op, snapshot.before is Some, snapshot.after is Some) is Some),
            },
    {
        let s = trimmed(summary);
        if s.len() == 0 {
            return Err(DomainError::invalid("a refinement needs a one-line summary"));
        }
        let ev = trimmed(evidence);
        if ev.len() == 0 {
            return Err(
                DomainError::invalid(
                    "a refinement needs evidence; an unjustified edit cannot be reviewed later",
                ),
            );
        }
        let has_before = snapshot.before.is_some();
        let has_after = snapshot.after.is_some();
        match op {
            RefinementOp::Create => {
                if has_before {
                    return Err(DomainError::invalid("a create refinement has no 'before'"));
                }
                if !has_after {
                    return Err(DomainError::invalid("this refinement needs an 'after'"));
                }
            },
            RefinementOp::Update => {
                if !has_after {
                    return Err(DomainError::invalid("this refinement needs an 'after'"));
                }
                if !has_before {
                    return Err(DomainError::invalid("this refinement needs a 'before'"));
                }
            },
            RefinementOp::Delete => {
                if !has_before {
                    return Err(DomainError::invalid("this refinement needs a 'before'"));
                }
                if has_after {
                    return Err(DomainError::invalid("a delete refinement has no 'after'"));
                }
            },
        }
        Ok(Refinement {
            id: owned(id),
            session_id,
            op,
            summary: string_of(s.as_slice()),
            evidence: string_of(ev.as_slice()),
            outcome: None,
            snapshot,
            created_at: now,
            reverted_by: None,
        })
    }

    pub fn is_reverted(&self) -> (r: bool)
        ensures
            r == (self.reverted_by is Some),
    {
        self.reverted_by.is_some()
    }

    /// The operation that undoes this one.
    pub fn inverse_op(&self) -> (r: RefinementOp)
        ensures
            r == self.op.inverse(),
    {
        match self.op {
            RefinementOp::Create => RefinementOp::Delete,
            RefinementOp::Delete => RefinementOp::Create,
            RefinementOp::Update => RefinementOp::Update,
        }
    }
}

/// Inverting a snapshot twice gives the snapshot back.
pub proof fn lemma_flip_twice(s: Snapshot)
    ensures
        s.flipped().flipped() == s,
{
}

/// Undoing an undo is the original operation.
pub proof fn lemma_inverse_twice(op: RefinementOp)
    ensures
        op.inverse().inverse() == op,
{
}

/// A rollback is always well-shaped: the inverted snapshot of a snapshot
/// that fits an operation fits the inverse operation.
pub proof fn lemma_rollback_is_well_shaped(op: RefinementOp, s: Snapshot)
    requires
        shape_error(op, s.before is Some, s.after is Some) is None,
    ensures
        shape_error(op.inverse(), s.flipped().before is Some, s.flipped().after is Some) is None,
{
}

} // verus!
