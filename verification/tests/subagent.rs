use umoja::error::DomainError;
use umoja::subagent::{settle_status, DepthPolicy, SubagentStatus};

#[test]
fn depth_one_allows_children_but_not_grandchildren() {
    let policy = DepthPolicy::default();
    assert_eq!(policy.child_depth(0).unwrap(), 1);
    assert!(policy.child_depth(1).is_err());
}

#[test]
fn raising_the_limit_allows_deeper_recursion() {
    let policy = DepthPolicy { max_depth: 3 };
    assert_eq!(policy.child_depth(2).unwrap(), 3);
    assert!(policy.child_depth(3).is_err());
}

#[test]
fn completed_children_stay_addressable() {
    assert!(SubagentStatus::Completed.is_addressable());
    assert!(!SubagentStatus::Completed.is_live());
    assert!(!SubagentStatus::Deleted.is_addressable());
}

#[test]
fn the_depth_refusal_says_how_to_go_deeper() {
    let err = DepthPolicy { max_depth: 1 }.child_depth(1).unwrap_err();
    assert_eq!(
        err.message(),
        "recursion depth 1 reached (max 1); raise max-depth to go deeper"
    );
}

#[test]
fn a_child_is_settled_with_one_of_three_finishing_words() {
    assert_eq!(settle_status("completed").unwrap(), SubagentStatus::Completed);
    assert_eq!(settle_status(" Done ").unwrap(), SubagentStatus::Completed);
    assert_eq!(settle_status("complete").unwrap(), SubagentStatus::Completed);
    assert_eq!(settle_status("ERROR").unwrap(), SubagentStatus::Failed);
    assert_eq!(settle_status("failed").unwrap(), SubagentStatus::Failed);
    assert_eq!(settle_status("canceled").unwrap(), SubagentStatus::Cancelled);
    assert_eq!(settle_status("Cancelled").unwrap(), SubagentStatus::Cancelled);
}

#[test]
fn any_other_settling_word_is_refused_by_name() {
    assert_eq!(
        settle_status(" Running ").unwrap_err(),
        DomainError::Invalid("unknown status 'running'; expected completed, failed or cancelled".to_string())
    );
}
