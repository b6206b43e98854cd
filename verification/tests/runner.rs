use umoja::runner::{RunOutcome, RunRequest};

#[test]
fn a_run_needs_a_prompt() {
    assert!(RunRequest::new("ses-1", "  \n ", "/tmp").is_err());
    assert!(RunRequest::new("ses-1", "do the thing", "/tmp").is_ok());
}

#[test]
fn a_request_is_built_up_step_by_step() {
    let req = RunRequest::new("ses-1", "  go  ", "/w")
        .unwrap()
        .with_model(Some("sonnet".into()))
        .with_system_prompt(Some("be brief".into()))
        .detached();
    assert_eq!(req.prompt, "go");
    assert_eq!(req.model.as_deref(), Some("sonnet"));
    assert_eq!(req.system_prompt.as_deref(), Some("be brief"));
    assert!(req.detached);
    assert_eq!(req.timeout_secs, 900);
}

#[test]
fn outcomes_say_how_the_run_went() {
    let d = RunOutcome::detached(42);
    assert!(d.ok);
    assert_eq!(d.pid, Some(42));
    let f = RunOutcome::failure("boom", Some(2));
    assert!(!f.ok);
    assert_eq!(f.exit_code, Some(2));
    assert_eq!(f.error.as_deref(), Some("boom"));
}
