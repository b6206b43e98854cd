//! Reports an agent files about the tools it is using.
//!
//! An agent that hits a broken builtin, a misleading result, or a missing
//! capability has nowhere to put that knowledge: it works around the
//! problem, the session ends, and the next agent rediscovers it. A report is
//! the durable form of "this tool did the wrong thing", addressed to whoever
//! maintains the tool rather than to the user in the loop.
//!
//! What makes a report useful is not structure but *reproduction*, so the
//! invariants enforced here are the ones that separate an actionable report
//! from a shrug: it must say what was expected, and what happened instead.
use vstd::prelude::*;

use crate::error::{DomainError, Result};
use crate::message::utf8_len;
use crate::text::{
    is_space, is_text, is_upper, keyword, lemma_plain_keyword, lower, owned, push_chars, push_str,
    string_of, trim, trimmed,
};
use crate::time::{rfc3339_of, rfc3339_text, within_reach};

verus! {

/// What kind of trouble is being reported.
#[derive(Debug, Clone, Copy, PartialEq, Eq, Structural)]
pub enum ReportKind {
    /// A tool did something incorrect.
    Bug,
    /// A tool failed outright: a crash, a non-zero exit, a panic.
    Error,
    /// A tool worked, but cost far more effort than it should have.
    Friction,
    /// A capability that would have helped and does not exist.
    Idea,
}

impl ReportKind {
    /// The kind a trimmed, lower-cased text names.
    pub open spec fn named(key: Seq<char>) -> Option<ReportKind> {
        if key == "bug"@ {
            Some(ReportKind::Bug)
        } else if key == "error"@ || key == "crash"@ {
            Some(ReportKind::Error)
        } else if key == "friction"@ || key == "papercut"@ {
            Some(ReportKind::Friction)
        } else if key == "idea"@ || key == "feature"@ {
            Some(ReportKind::Idea)
        } else {
            None
        }
    }

    pub fn parse(text: &str) -> (r: Result<ReportKind>)
        ensures
            match r {
                Ok(k) => Self::named(lower(trim(text@))) == Some(k),
                Err(e) => Self::named(lower(trim(text@))) is None && e is Invalid,
            },
    {
        let k = keyword(text);
        let key = k.as_slice();
        if is_text(key, "bug") {
            Ok(ReportKind::Bug)
        } else if is_text(key, "error") || is_text(key, "crash") {
            Ok(ReportKind::Error)
        } else if is_text(key, "friction") || is_text(key, "papercut") {
            Ok(ReportKind::Friction)
        } else if is_text(key, "idea") || is_text(key, "feature") {
            Ok(ReportKind::Idea)
        } else {
            let mut m = owned("unknown report kind '");
            push_chars(&mut m, key);
            push_str(&mut m, "'; expected bug, error, friction or idea");
            Err(DomainError::Invalid(m))
        }
    }

    pub open spec fn spec_label(self) -> Seq<char> {
        match self {
            ReportKind::Bug => "bug"@,
            ReportKind::Error => "error"@,
            ReportKind::Friction => "friction"@,
            ReportKind::Idea => "idea"@,
        }
    }

    pub fn label(self) -> (r: &'static str)
        ensures
            r@ == self.spec_label(),
    {
        match self {
            ReportKind::Bug => "bug",
            ReportKind::Error => "error",
            ReportKind::Friction => "friction",
            ReportKind::Idea => "idea",
        }
    }
}

/// Every kind reads back from its own label.
pub proof fn lemma_kinds_round_trip(kind: ReportKind)
    ensures
        ReportKind::named(lower(trim(kind.spec_label()))) == Some(kind),
{
    reveal_strlit("bug");
    reveal_strlit("error");
    reveal_strlit("crash");
    reveal_strlit("friction");
    reveal_strlit("papercut");
    reveal_strlit("idea");
    reveal_strlit("feature");
    let s = kind.spec_label();
    assert forall|i: int| 0 <= i < s.len() implies !is_space(#[trigger] s[i]) && !is_upper(s[i]) by {
    }
    lemma_plain_keyword(s);
    assert("bug"@[0] != "error"@[0]);
    assert("bug"@[0] != "crash"@[0]);
    assert("error"@[0] != "friction"@[0]);
    assert("error"@[0] != "papercut"@[0]);
    assert("friction"@[0] != "idea"@[0]);
    assert("friction"@[0] != "feature"@[0] || "friction"@[1] != "feature"@[1]);
    assert("idea"@[0] != "bug"@[0]);
    assert("idea"@[0] != "crash"@[0]);
    assert("idea"@[0] != "papercut"@[0]);
    assert("idea"@[0] != "error"@[0]);
    assert("friction"@[0] != "bug"@[0]);
    assert("friction"@[0] != "crash"@[0]);
}

#[derive(Debug, Clone, Copy, PartialEq, Eq, Structural)]
pub enum ReportStatus {
    Open,
    Triaged,
    Resolved,
}

impl ReportStatus {
    pub open spec fn spec_label(self) -> Seq<char> {
        match self {
            ReportStatus::Open => "open"@,
            ReportStatus::Triaged => "triaged"@,
            ReportStatus::Resolved => "resolved"@,
        }
    }

    pub fn label(self) -> (r: &'static str)
        ensures
            r@ == self.spec_label(),
    {
        match self {
            ReportStatus::Open => "open",
            ReportStatus::Triaged => "triaged",
            ReportStatus::Resolved => "resolved",
        }
    }
}

/// The largest body worth keeping. A report is a pointer to a problem, not a
/// transcript of the session that found it.
pub const MAX_BODY_BYTES: usize = 16384;

/// The longest title, in bytes.
pub const MAX_TITLE_BYTES: usize = 200;

/// A report. `created_at` is in seconds since 1970-01-01T00:00:00Z.
#[derive(Debug, Clone, PartialEq, Eq)]
pub struct Report {
    pub id: String,
    pub kind: ReportKind,
    /// One line naming the problem.
    pub title: String,
    /// What was expected, what happened, and how to make it happen again.
    pub body: String,
    /// The builtin, command, or subsystem at fault, when it is known.
    pub component: Option<String>,
    /// Who filed it: the agent's own name, so a pattern across sessions is
    /// attributable.
    pub agent: String,
    pub session_id: Option<String>,
    pub status: ReportStatus,
    pub created_at: i64,
}

impl Report {
    pub fn new(
        id: &str,
        kind: ReportKind,
        title: &str,
        body: &str,
        component: Option<String>,
        agent: &str,
        session_id: Option<String>,
        now: i64,
    ) -> (r: Result<Report>)
        ensures
            match r {
                Ok(rep) => {
                    &&& trim(title@).len() > 0
                    &&& utf8_len(trim(title@)) <= MAX_TITLE_BYTES
                    &&& trim(body@).len() > 0
                    &&& utf8_len(trim(body@)) <= MAX_BODY_BYTES
                    &&& rep.id@ == id@
                    &&& rep.kind == kind
                    &&& rep.title@ == trim(title@)
                    &&& rep.body@ == trim(body@)
                    &&& rep.component == match component {
                        Some(c) => if trim(c@).len() == 0 {
                            None
                        } else {
                            Some(c)
                        },
                        None => None,
                    }
                    &&& rep.agent@ == agent@
                    &&& rep.session_id == session_id
                    &&& rep.status is Open
                    &&& rep.created_at == now
                },
                Err(e) => if trim(title@).len() == 0 || utf8_len(trim(title@)) > MAX_TITLE_BYTES
                    || trim(body@).len() == 0 {
                    e is Invalid
                } else {
                    &&& utf8_len(trim(body@)) > MAX_BODY_BYTES
                    &&& e matches DomainError::LimitReached { limit, reached, allowed }
                    &&& limit@ == "report body"@
                    &&& reached == utf8_len(trim(body@))
                    &&& allowed == MAX_BODY_BYTES
                },
            },
    {
        let t = trimmed(title);
        if t.len() == 0 {
            return Err(DomainError::invalid("a report needs a title"));
        }
        let title_text = string_of(t.as_slice());
        if title_text.as_str().len() > MAX_TITLE_BYTES {
            return Err(
                DomainError::invalid("a report title is one line; put the detail in the body"),
            );
        }
        let b = trimmed(body);
        if b.len() == 0 {
            return Err(
                DomainError::invalid(
                    "a report needs a body saying what was expected and what happened instead",
                ),
            );
        }
        let body_text = string_of(b.as_slice());
        let bytes = body_text.as_str().len();
        if bytes > MAX_BODY_BYTES {
            return Err(
                DomainError::LimitReached {
                    limit: owned("report body"),
                    reached: bytes as u64,
                    allowed: MAX_BODY_BYTES as u64,
                },
            );
        }
        let component = match component {
            Some(c) => if trimmed(c.as_str()).len() == 0 {
                None
            } else {
                Some(c)
            },
            None => None,
        };
        Ok(Report {
            id: owned(id),
            kind,
            title: title_text,
            body: body_text,
            component,
            agent: owned(agent),
            session_id,
            status: ReportStatus::Open,
            created_at: now,
        })
    }

    pub fn is_open(&self) -> (r: bool)
        ensures
            r == (self.status is Open || self.status is Triaged),
    {
        match self.status {
            ReportStatus::Open | ReportStatus::Triaged => true,
            _ => false,
        }
    }

    pub open spec fn spec_markdown(self) -> Seq<char> {
        let component = match self.component {
            Some(c) => c@,
            None => "unspecified"@,
        };
        let session = match self.session_id {
            Some(s) => s@,
            None => "-"@,
        };
        "## ["@ + self.kind.spec_label() + "] "@ + self.title@ + "\n\n- **id**: `"@ + self.id@
            + "`\n- **component**: `"@ + component + "`\n- **status**: "@
            + self.status.spec_label() + "\n- **filed by**: "@ + self.agent@ + " (session `"@
            + session + "`)\n- **when**: "@ + rfc3339_of(self.created_at as int) + "\n\n"@
            + self.body@ + "\n"@
    }

    /// The form a maintainer reads: a heading, the provenance, the body.
    pub fn to_markdown(&self) -> (r: String)
        requires
            within_reach(self.created_at as int),
        ensures
            r@ == self.spec_markdown(),
    {
        let mut m = owned("## [");
        push_str(&mut m, self.kind.label());
        push_str(&mut m, "] ");
        push_str(&mut m, self.title.as_str());
        push_str(&mut m, "\n\n- **id**: `");
        push_str(&mut m, self.id.as_str());
        push_str(&mut m, "`\n- **component**: `");
        match &self.component {
            Some(c) => push_str(&mut m, c.as_str()),
            None => push_str(&mut m, "unspecified"),
        }
        push_str(&mut m, "`\n- **status**: ");
        push_str(&mut m, self.status.label());
        push_str(&mut m, "\n- **filed by**: ");
        push_str(&mut m, self.agent.as_str());
        push_str(&mut m, " (session `");
        match &self.session_id {
            Some(s) => push_str(&mut m, s.as_str()),
            None => push_str(&mut m, "-"),
        }
        push_str(&mut m, "`)\n- **when**: ");
        let when = rfc3339_text(self.created_at);
        push_str(&mut m, when.as_str());
        push_str(&mut m, "\n\n");
        push_str(&mut m, self.body.as_str());
        push_str(&mut m, "\n");
        m
    }
}

} // verus!
