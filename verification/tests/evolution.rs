use umoja::evolution::EvolutionCoordinator;

/// Attempts scored on one maximised metric: an attempt improves the search
/// when it beats the best so far.
struct Search {
    coordinator: EvolutionCoordinator,
    best: Option<f64>,
    generations: u64,
}

impl Search {
    fn attempt(&mut self, attempts: u64, score: f64) -> (u64, bool, usize) {
        if self.best.is_none_or(|b| score > b) {
            self.best = Some(score);
            self.generations += 1;
        }
        let s = self.coordinator.assess(attempts, self.generations);
        (self.generations, s.stagnation_detected, s.suggested_directions.len())
    }
}

#[test]
fn test_stagnation_detection_and_supervisor_redirection() {
    let mut search = Search {
        coordinator: EvolutionCoordinator::new("attn_kernel.cu", 3),
        best: None,
        generations: 0,
    };
    let (generations, stagnated, _) = search.attempt(1, 1000.0);
    assert_eq!(generations, 1);
    assert!(!stagnated);

    search.attempt(2, 950.0);
    search.attempt(3, 980.0);
    let (_, stagnated, directions) = search.attempt(4, 990.0);
    assert!(stagnated);
    assert!(directions > 0);
}

#[test]
fn a_threshold_below_three_is_raised_to_three() {
    let c = EvolutionCoordinator::new("k", 1);
    assert_eq!(c.stagnation_threshold, 3);
    assert_eq!(c.target, "k");
    assert!(!c.assess(3, 1).stagnation_detected);
    let s = c.assess(4, 1);
    assert_eq!(s.consecutive_stagnations, 3);
    assert!(s.stagnation_detected);
    assert_eq!(s.suggested_directions.len(), 3);
    assert_eq!(EvolutionCoordinator::new("k", 10).stagnation_threshold, 10);
}

#[test]
fn more_generations_than_attempts_is_no_stagnation() {
    let s = EvolutionCoordinator::new("k", 3).assess(2, 5);
    assert_eq!(s.consecutive_stagnations, 0);
    assert!(!s.stagnation_detected);
    assert!(s.suggested_directions.is_empty());
}
