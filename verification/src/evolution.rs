//! Stagnation in an evolutionary search over candidates.
//!
//! Each attempt at a target either improves on the frontier or it does not.
//! The coordinator counts the attempts that did not, and once enough of them
//! have gone by it says so and suggests other directions, rather than letting
//! the search keep polishing the same idea. Scoring candidates, which is
//! floating-point work, happens outside this module; what is decided here is
//! integer bookkeeping.
use vstd::prelude::*;

use crate::text::owned;

verus! {

/// The fewest unimproved attempts that may ever count as stagnation.
pub const MIN_STAGNATION_THRESHOLD: u64 = 3;

/// Counts stagnation for one target.
#[derive(Debug, Clone, PartialEq, Eq)]
pub struct EvolutionCoordinator {
    pub target: String,
    /// Unimproved attempts in a row that count as stagnation; never below
    /// three.
    pub stagnation_threshold: u64,
}

/// What the coordinator makes of the attempts so far.
#[derive(Debug, Clone, PartialEq, Eq)]
pub struct Stagnation {
    /// Attempts that did not produce a new generation.
    pub consecutive_stagnations: u64,
    pub stagnation_detected: bool,
    /// Other directions to try, offered only once stagnation is detected.
    pub suggested_directions: Vec<String>,
}

/// The directions offered when a search has stagnated.
pub open spec fn redirections() -> Seq<Seq<char>> {
    seq![
        "Pivot hypothesis from loop unrolling to register allocation across warp groups"@,
        "Eliminate warp divergence by switching to speculative branchless execution with relaxed memory fences"@,
        "Overlap MMA tensor operations with output normalization and correction stages"@,
    ]
}

impl EvolutionCoordinator {
    pub fn new(target: &str, stagnation_threshold: u64) -> (r: Self)
        ensures
            r.target@ == target@,
            r.stagnation_threshold == if stagnation_threshold < MIN_STAGNATION_THRESHOLD {
                MIN_STAGNATION_THRESHOLD
            } else {
                stagnation_threshold
            },
    {
        let threshold = if stagnation_threshold < MIN_STAGNATION_THRESHOLD {
            MIN_STAGNATION_THRESHOLD
        } else {
            stagnation_threshold
        };
        EvolutionCoordinator { target: owned(target), stagnation_threshold: threshold }
    }

    /// After `attempts` attempts of which `successful_generations` improved
    /// the frontier: how many did not, and whether that is stagnation.
    pub fn assess(&self, attempts: u64, successful_generations: u64) -> (r: Stagnation)
        ensures
            r.consecutive_stagnations == (if attempts >= successful_generations {
                attempts - successful_generations
            } else {
                0
            }),
            r.stagnation_detected == (r.consecutive_stagnations >= self.stagnation_threshold),
            r.suggested_directions@.map_values(|s: String| s@) == (if r.stagnation_detected {
                redirections()
            } else {
                Seq::<Seq<char>>::empty()
            }),
    {
        let consecutive = attempts.saturating_sub(successful_generations);
        let detected = consecutive >= self.stagnation_threshold;
        let mut directions: Vec<String> = Vec::new();
        if detected {
            directions.push(
                owned("Pivot hypothesis from loop unrolling to register allocation across warp groups"),
            );
            directions.push(
                owned(
                    "Eliminate warp divergence by switching to speculative branchless execution with relaxed memory fences",
                ),
            );
            directions.push(
                owned("Overlap MMA tensor operations with output normalization and correction stages"),
            );
        }
        assert(directions@.map_values(|s: String| s@) =~= if detected {
            redirections()
        } else {
            Seq::<Seq<char>>::empty()
        });
        Stagnation {
            consecutive_stagnations: consecutive,
            stagnation_detected: detected,
            suggested_directions: directions,
        }
    }
}

/// Stagnation needs at least three unimproved attempts, whatever threshold
/// was asked for.
pub proof fn lemma_stagnation_needs_three(c: EvolutionCoordinator, s: Stagnation)
    requires
        c.stagnation_threshold >= MIN_STAGNATION_THRESHOLD,
        s.stagnation_detected == (s.consecutive_stagnations >= c.stagnation_threshold),
        s.stagnation_detected,
    ensures
        s.consecutive_stagnations >= 3,
{
}

} // verus!
