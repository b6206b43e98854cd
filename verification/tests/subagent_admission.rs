use umoja::error::DomainError;
use umoja::session::{Session, SessionKind, SessionStatus, Usage};
use umoja::runner::{RunOutcome, RunRequest};
use umoja::subagent::{
    admission, admitted, call_result, call_status, child_request, children_of, launch_failed, settle_child,
    CallResult, DepthPolicy, Spawn, SpawnHandle, Subagent, SubagentStatus,
};

/// A harness that answers with its prompt, or fails as told.
fn run(request: &RunRequest, reply: &Option<RunOutcome>, available: bool) -> Result<RunOutcome, DomainError> {
    if !available {
        return Err(DomainError::Unsupported("runner 'opencode' is not installed".into()));
    }
    if let Some(r) = reply {
        return Ok(r.clone());
    }
    Ok(RunOutcome {
        ok: true,
        text: format!("ran: {}", request.prompt),
        usage: Usage { input_tokens: 10, output_tokens: 5, turns: 1, attributed_child_tokens: 0 },
        runner_session: None,
        exit_code: Some(0),
        error: None,
        pid: if request.detached { Some(42) } else { None },
        duration_ms: 3,
    })
}

fn now() -> i64 {
    chrono::DateTime::parse_from_rfc3339("2026-08-16T12:00:00Z").unwrap().timestamp()
}

/// Sessions and the child registry, held in memory.
struct Family {
    sessions: Vec<Session>,
    children: Vec<Subagent>,
    policy: DepthPolicy,
    next: u32,
}

impl Family {
    fn new(max_depth: u8) -> Family {
        let root = Session {
            id: "ses-root".into(),
            name: "root".into(),
            kind: SessionKind::Root,
            status: SessionStatus::Running,
            workdir: "/work".into(),
            runner: "opencode".into(),
            model: Some("sonnet".into()),
            parent_id: None,
            depth: 0,
            created_at: now(),
            updated_at: now(),
            usage: Usage::default(),
            pid: None,
        };
        Family { sessions: vec![root], children: vec![], policy: DepthPolicy { max_depth }, next: 0 }
    }

    fn session(&self, selector: &str) -> Session {
        self.sessions.iter().find(|s| s.matches_selector(selector)).unwrap().clone()
    }

    fn spawn(&mut self, parent: &str, name: &str) -> Result<SpawnHandle, DomainError> {
        let request = Spawn {
            parent_selector: parent.into(),
            prompt: "  check the API  ".into(),
            name: Some(name.into()),
            model: None,
            runner: None,
            system_prompt: None,
        };
        let parent = self.session(&request.parent_selector);
        self.next += 1;
        let child_id = format!("sub-{}", self.next);
        let (depth, name) = admission(&request, parent.depth, self.policy, &child_id)?;
        if self
            .children
            .iter()
            .any(|c| c.parent_session_id == parent.id && c.matches_selector(&name))
        {
            return Err(DomainError::conflict("subagent name", &name));
        }
        let session_id = format!("ses-{}", self.next);
        let (child, session) =
            admitted(&request, &parent, depth, &name, &child_id, &session_id, now());
        self.sessions.push(session);
        let handle = child.handle();
        self.children.push(child);
        Ok(handle)
    }

    fn call(
        &mut self,
        parent: &str,
        name: &str,
        reply: Option<RunOutcome>,
        available: bool,
    ) -> Result<(CallResult, RunRequest), DomainError> {
        self.spawn(parent, name)?;
        let at = self.children.iter().position(|c| c.name == name).unwrap();
        let workdir = self.session(&self.children[at].session_id).workdir.clone();
        let request = child_request(&self.children[at], &workdir, None, false, None)?;
        self.children[at].status = SubagentStatus::Running;
        let outcome = match run(&request, &reply, available) {
            Ok(o) => o,
            Err(e) => {
                launch_failed(&mut self.children[at], &e);
                return Err(e);
            }
        };
        if !outcome.ok {
            self.children[at].last_error = outcome.error.clone();
        }
        self.settle(name, call_status(outcome.ok), outcome.usage);
        let handle = self.children[at].handle();
        Ok((call_result(handle, outcome), request))
    }

    fn delete(&mut self, name: &str) -> Subagent {
        let at = self.children.iter().position(|c| c.name == name).unwrap();
        self.children[at].settle(SubagentStatus::Deleted, now());
        self.children[at].clone()
    }

    fn list(&self, parent: &str, include_deleted: bool) -> Vec<Subagent> {
        let parent_id = self.session(parent).id;
        children_of(self.children.clone(), &parent_id, include_deleted)
    }

    fn settle(&mut self, name: &str, status: SubagentStatus, usage: Usage) -> bool {
        let at = self.children.iter().position(|c| c.name == name).unwrap();
        let parent_at =
            self.sessions.iter().position(|s| s.id == self.children[at].parent_session_id).unwrap();
        let mut parent = self.sessions[parent_at].clone();
        let attributed = settle_child(&mut self.children[at], &mut parent, status, usage, now());
        self.sessions[parent_at] = parent;
        attributed
    }
}

#[test]
fn spawning_returns_an_admission_handle_not_an_answer() {
    let mut family = Family::new(1);
    let handle = family.spawn("root", "api-checker").unwrap();
    assert_eq!(handle.name, "api-checker");
    assert_eq!(handle.depth, 1);
    assert!(!handle.child_id.is_empty());
    assert_eq!(handle.session_dir, format!("/work/{}", handle.child_id));
}

#[test]
fn a_child_inherits_the_parents_model_and_runner() {
    let mut family = Family::new(1);
    let handle = family.spawn("root", "api-checker").unwrap();
    assert_eq!(handle.model, "sonnet");
    let child = family.children.iter().find(|c| c.name == "api-checker").unwrap();
    assert_eq!(child.runner, "opencode");
    assert_eq!(child.prompt, "check the API");
    assert_eq!(child.status, SubagentStatus::Admitted);
    let session = family.session(&handle.session_id);
    assert_eq!(session.kind, SessionKind::Child);
    assert_eq!(session.parent_id.as_deref(), Some("ses-root"));
    assert_eq!(session.workdir, "/work");
}

#[test]
fn depth_stops_grandchildren_before_anything_is_created() {
    let mut family = Family::new(1);
    family.spawn("root", "child").unwrap();
    let before = family.sessions.len();
    match family.spawn("child", "grandchild") {
        Err(DomainError::Forbidden(m)) => {
            assert_eq!(m, "recursion depth 1 reached (max 1); raise max-depth to go deeper")
        }
        other => panic!("expected a refusal, got {other:?}"),
    }
    assert_eq!(family.sessions.len(), before);
}

#[test]
fn raising_the_depth_allows_a_grandchild() {
    let mut family = Family::new(2);
    family.spawn("root", "child").unwrap();
    assert_eq!(family.spawn("child", "grandchild").unwrap().depth, 2);
}

#[test]
fn two_children_cannot_share_a_name() {
    let mut family = Family::new(1);
    family.spawn("root", "checker").unwrap();
    assert!(matches!(family.spawn("root", "checker"), Err(DomainError::Conflict { .. })));
}

#[test]
fn child_usage_is_attributed_to_the_parent_exactly_once() {
    let mut family = Family::new(1);
    family.spawn("root", "checker").unwrap();
    let usage = Usage { input_tokens: 100, output_tokens: 50, turns: 1, attributed_child_tokens: 0 };
    assert!(family.settle("checker", SubagentStatus::Completed, usage));
    assert!(!family.settle("checker", SubagentStatus::Completed, usage));

    let parent = family.session("root");
    assert_eq!(parent.usage.total_tokens(), 150);
    assert_eq!(parent.usage.own_tokens(), 0);
}

#[test]
fn completed_children_remain_addressable() {
    let mut family = Family::new(1);
    family.spawn("root", "checker").unwrap();
    family.settle("checker", SubagentStatus::Completed, Usage::default());
    let child = family.children.iter().find(|c| c.name == "checker").unwrap();
    assert!(child.status.is_addressable());
    assert!(child.usage_attributed);
}

#[test]
fn a_child_without_a_prompt_or_name_is_refused_or_named_by_its_id() {
    let request = Spawn {
        parent_selector: "root".into(),
        prompt: "   ".into(),
        name: None,
        model: Some("opus".into()),
        runner: Some("codex".into()),
        system_prompt: None,
    };
    match admission(&request, 0, DepthPolicy::default(), "sub-7") {
        Err(DomainError::Invalid(m)) => assert_eq!(m, "a subagent needs a prompt"),
        other => panic!("expected a refusal, got {other:?}"),
    }
    let request = Spawn { prompt: "go".into(), ..request };
    let (depth, name) = admission(&request, 0, DepthPolicy::default(), "SUB 7").unwrap();
    assert_eq!((depth, name.as_str()), (1, "sub-7"));
    let family = Family::new(1);
    let (child, session) =
        admitted(&request, &family.session("root"), 1, "sub-7", "sub-7", "ses-7", now());
    assert_eq!(child.model, "opus");
    assert_eq!(child.runner, "codex");
    assert_eq!(session.model.as_deref(), Some("opus"));
}

#[test]
fn a_call_waits_and_comes_back_with_the_answer() {
    let mut family = Family::new(1);
    let (result, request) = family.call("root", "checker", None, true).unwrap();
    assert!(result.ok);
    assert_eq!(result.text, "ran: check the API");
    assert!(!request.detached);
}

#[test]
fn a_call_settles_its_child_and_charges_the_parent_once() {
    let mut family = Family::new(1);
    family.call("root", "checker", None, true).unwrap();
    let child = family.children.iter().find(|c| c.name == "checker").unwrap();
    assert_eq!(child.status, SubagentStatus::Completed);
    assert!(child.usage_attributed);
    assert_eq!(family.session("root").usage.attributed_child_tokens, 15);
}

#[test]
fn a_child_that_ran_and_failed_says_so_rather_than_answering_emptily() {
    let mut family = Family::new(1);
    let (result, _) = family
        .call("root", "checker", Some(RunOutcome::failure("model refused", Some(1))), true)
        .unwrap();
    assert!(!result.ok);
    assert_eq!(result.error.as_deref(), Some("model refused"));
    let child = family.children.iter().find(|c| c.name == "checker").unwrap();
    assert_eq!(child.status, SubagentStatus::Failed);
    assert_eq!(child.last_error.as_deref(), Some("model refused"));
}

#[test]
fn a_call_obeys_the_same_depth_limit_as_a_spawn() {
    let mut family = Family::new(0);
    assert!(family.call("root", "checker", None, true).is_err());
    assert_eq!(family.sessions.len(), 1);
}

#[test]
fn a_child_that_fails_to_launch_is_recorded_not_forgotten() {
    let mut family = Family::new(1);
    assert!(family.call("root", "checker", None, false).is_err());
    let child = family.children.iter().find(|c| c.name == "checker").unwrap();
    assert_eq!(child.status, SubagentStatus::Failed);
    assert_eq!(child.last_error.as_deref(), Some("runner 'opencode' is not installed"));
}

#[test]
fn a_spawned_child_runs_detached_under_its_own_model() {
    let mut family = Family::new(1);
    family.spawn("root", "checker").unwrap();
    let child = family.children.iter().find(|c| c.name == "checker").unwrap().clone();
    let request = child_request(&child, "/work", Some("be brief".into()), true, Some(60)).unwrap();
    assert!(request.detached);
    assert_eq!(request.model.as_deref(), Some("sonnet"));
    assert_eq!(request.system_prompt.as_deref(), Some("be brief"));
    assert_eq!(request.timeout_secs, 60);
    assert_eq!(request.prompt, "check the API");
}

#[test]
fn a_deleted_child_keeps_its_transcript_but_loses_its_address() {
    let mut family = Family::new(1);
    family.spawn("root", "checker").unwrap();
    let deleted = family.delete("checker");

    assert_eq!(deleted.status, SubagentStatus::Deleted);
    assert!(!deleted.status.is_addressable());
    assert!(family.list("root", false).is_empty());
    assert_eq!(family.list("root", true).len(), 1);
}

#[test]
fn a_listing_shows_only_the_parents_own_children() {
    let mut family = Family::new(2);
    family.spawn("root", "first").unwrap();
    family.spawn("root", "second").unwrap();
    family.spawn("first", "grandchild").unwrap();
    let names: Vec<String> = family.list("root", false).into_iter().map(|c| c.name).collect();
    assert_eq!(names, vec!["first".to_string(), "second".to_string()]);
    assert_eq!(family.list("first", false).len(), 1);
}

#[test]
fn a_name_is_taken_only_among_the_same_parents_children() {
    let mut family = Family::new(2);
    family.spawn("root", "first").unwrap();
    family.spawn("first", "inner").unwrap();
    let root_id = family.session("root").id;
    let first_id = family.session("first").id;
    assert!(umoja::subagent::name_taken(&family.children, &root_id, "first"));
    assert!(!umoja::subagent::name_taken(&family.children, &root_id, "inner"));
    assert!(umoja::subagent::name_taken(&family.children, &first_id, "inner"));
    assert!(family.spawn("root", "first").is_err());
}
