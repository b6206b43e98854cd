//! Where everything lives on disk.
//!
//! ```text
//! <root>/
//!   sessions/<session-id>.jsonl        the transcript, append-only
//!   session-artifacts/<session-id>/
//!     kernel.sock                      the live namespace
//!     kernel-state.json                snapshot for revival
//!     harness/harness_state.json       session-local harness
//!     refinements.jsonl                the paper trail
//!   harness/harness_state.json         global harness
//!   registry/                          sessions, jobs, heartbeats, messages
//!   runtime/                           kernel bootstrap scripts
//! ```
use vstd::prelude::*;

use crate::text::{chars_of, owned, push_char, push_str};

verus! {

/// `part` joined onto `base` the way a Unix path is extended: an absolute
/// part replaces the base, and a separator is added only where one is missing.
pub open spec fn path_join(base: Seq<char>, part: Seq<char>) -> Seq<char> {
    if part.len() > 0 && part[0] == '/' {
        part
    } else if base.len() == 0 || base.last() == '/' {
        base + part
    } else {
        base + seq!['/'] + part
    }
}

/// Joins `part` onto `base`.
pub fn join(base: &str, part: &str) -> (r: String)
    ensures
        r@ == path_join(base@, part@),
{
    let p = chars_of(part);
    if p.len() > 0 && p[0] == '/' {
        return owned(part);
    }
    let b = chars_of(base);
    let mut out = owned(base);
    if !(b.len() == 0 || b[b.len() - 1] == '/') {
        push_char(&mut out, '/');
    }
    push_str(&mut out, part);
    out
}

/// The directory layout under one root.
#[derive(Debug, Clone, PartialEq, Eq)]
pub struct Paths {
    root: String,
}

impl Paths {
    pub closed spec fn spec_root(&self) -> Seq<char> {
        self.root@
    }

    pub open spec fn artifacts_of(&self, session_id: Seq<char>) -> Seq<char> {
        path_join(path_join(self.spec_root(), "session-artifacts"@), session_id)
    }

    /// The layout under `root`; nothing is created on disk.
    pub fn new(root: &str) -> (r: Paths)
        ensures
            r.spec_root() == root@,
    {
        Paths { root: owned(root) }
    }

    pub fn root(&self) -> (r: &str)
        ensures
            r@ == self.spec_root(),
    {
        self.root.as_str()
    }

    pub fn sessions_dir(&self) -> (r: String)
        ensures
            r@ == path_join(self.spec_root(), "sessions"@),
    {
        join(self.root.as_str(), "sessions")
    }

    pub fn transcript(&self, session_id: &str) -> (r: String)
        ensures
            r@ == path_join(path_join(self.spec_root(), "sessions"@), session_id@ + ".jsonl"@),
    {
        let mut file = owned(session_id);
        push_str(&mut file, ".jsonl");
        let dir = self.sessions_dir();
        join(dir.as_str(), file.as_str())
    }

    pub fn artifacts(&self, session_id: &str) -> (r: String)
        ensures
            r@ == self.artifacts_of(session_id@),
    {
        let dir = join(self.root.as_str(), "session-artifacts");
        join(dir.as_str(), session_id)
    }

    pub fn kernel_socket(&self, session_id: &str) -> (r: String)
        ensures
            r@ == path_join(self.artifacts_of(session_id@), "kernel.sock"@),
    {
        let dir = self.artifacts(session_id);
        join(dir.as_str(), "kernel.sock")
    }

    pub fn kernel_state(&self, session_id: &str) -> (r: String)
        ensures
            r@ == path_join(self.artifacts_of(session_id@), "kernel-state.json"@),
    {
        let dir = self.artifacts(session_id);
        join(dir.as_str(), "kernel-state.json")
    }

    pub fn kernel_log(&self, session_id: &str) -> (r: String)
        ensures
            r@ == path_join(self.artifacts_of(session_id@), "kernel.log"@),
    {
        let dir = self.artifacts(session_id);
        join(dir.as_str(), "kernel.log")
    }

    pub fn local_harness(&self, session_id: &str) -> (r: String)
        ensures
            r@ == path_join(
                path_join(self.artifacts_of(session_id@), "harness"@),
                "harness_state.json"@,
            ),
    {
        let dir = self.artifacts(session_id);
        let h = join(dir.as_str(), "harness");
        join(h.as_str(), "harness_state.json")
    }

    pub fn global_harness(&self) -> (r: String)
        ensures
            r@ == path_join(path_join(self.spec_root(), "harness"@), "harness_state.json"@),
    {
        let h = join(self.root.as_str(), "harness");
        join(h.as_str(), "harness_state.json")
    }

    pub fn local_refinements(&self, session_id: &str) -> (r: String)
        ensures
            r@ == path_join(self.artifacts_of(session_id@), "refinements.jsonl"@),
    {
        let dir = self.artifacts(session_id);
        join(dir.as_str(), "refinements.jsonl")
    }

    pub fn global_refinements(&self) -> (r: String)
        ensures
            r@ == path_join(path_join(self.spec_root(), "harness"@), "refinements.jsonl"@),
    {
        let h = join(self.root.as_str(), "harness");
        join(h.as_str(), "refinements.jsonl")
    }

    pub fn registry(&self, name: &str) -> (r: String)
        ensures
            r@ == path_join(path_join(self.spec_root(), "registry"@), name@ + ".json"@),
    {
        let mut file = owned(name);
        push_str(&mut file, ".json");
        let dir = join(self.root.as_str(), "registry");
        join(dir.as_str(), file.as_str())
    }

    pub fn runtime(&self, name: &str) -> (r: String)
        ensures
            r@ == path_join(path_join(self.spec_root(), "runtime"@), name@),
    {
        let dir = join(self.root.as_str(), "runtime");
        join(dir.as_str(), name)
    }

    pub fn daemon_dir(&self) -> (r: String)
        ensures
            r@ == path_join(self.spec_root(), "daemon"@),
    {
        join(self.root.as_str(), "daemon")
    }
}

} // verus!
