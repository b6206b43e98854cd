//! Context compaction.
//!
//! Compaction is not a completion signal. It summarises old messages and
//! keeps recent ones so a long task can continue: goals, heartbeats,
//! autonomous continuations and child sessions all survive it untouched.
use vstd::prelude::*;

verus! {

#[derive(Debug, Clone, Copy, PartialEq, Eq, Structural)]
pub enum CompactionTrigger {
    /// The context window was exceeded.
    Overflow,
    /// The configured fraction of the window was crossed.
    Threshold,
    /// Asked for explicitly.
    Manual,
}

impl CompactionTrigger {
    pub open spec fn spec_label(self) -> Seq<char> {
        match self {
            CompactionTrigger::Overflow => "overflow"@,
            CompactionTrigger::Threshold => "threshold"@,
            CompactionTrigger::Manual => "manual"@,
        }
    }

    pub fn label(self) -> (r: &'static str)
        ensures
            r@ == self.spec_label(),
    {
        match self {
            CompactionTrigger::Overflow => "overflow",
            CompactionTrigger::Threshold => "threshold",
            CompactionTrigger::Manual => "manual",
        }
    }
}

/// What a compaction will do, decided before anything is thrown away.
#[derive(Debug, Clone, PartialEq, Eq)]
pub struct CompactionPlan {
    pub session_id: String,
    pub trigger: CompactionTrigger,
    pub keep_recent_messages: u32,
    /// What the summary must preserve: "keep the failing tests and the
    /// remaining migration steps".
    pub instruction: Option<String>,
}

/// How many of `total` transcript records are folded into the summary when
/// the most recent `keep` are kept verbatim: all but those, or none.
pub fn records_to_fold(total: usize, keep: u32) -> (r: usize)
    ensures
        r == (if total >= keep {
            total - keep
        } else {
            0
        }),
{
    if total >= keep as usize {
        total - keep as usize
    } else {
        0
    }
}

/// The tokens a compaction frees from a window holding `used`: half of them
/// when something was folded, and none when nothing was. Freeing is
/// proportional to what was actually folded away.
pub fn tokens_freed(folded: usize, used: u64) -> (r: u64)
    ensures
        r == (if folded == 0 {
            0
        } else {
            used / 2
        }),
{
    if folded == 0 {
        0
    } else {
        used / 2
    }
}

/// The window and the count after a compaction that freed `freed` tokens
/// of the `used` ones: never fewer than none used, and one compaction more.
pub fn after_compaction(used: u64, freed: u64, compactions: u32) -> (r: (u64, u32))
    requires
        compactions < u32::MAX,
    ensures
        r.0 == (if freed >= used {
            0
        } else {
            used - freed
        }),
        r.1 == compactions + 1,
{
    let left = if freed >= used {
        0
    } else {
        used - freed
    };
    (left, compactions + 1)
}

} // verus!
