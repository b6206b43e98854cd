//! A cross-process advisory lock, decided.
//!
//! A one-shot command, a cron tick and a settling child can all write the
//! same registry file at once. Each write is taken under an exclusive-create
//! lockfile. A lockfile older than the stale limit is broken on the
//! assumption that its holder died: a stuck lock would block every later
//! command. The caller touches the file system; what to do when the lockfile
//! is already there is decided here.
use vstd::prelude::*;

use crate::text::{owned, push_str};

verus! {

/// A lockfile older than this, in milliseconds, is taken to be abandoned.
pub const STALE_AFTER_MS: u64 = 30_000;

/// How long, in milliseconds, a writer waits for a lock before giving up.
pub const WAIT_LIMIT_MS: u64 = 10_000;

/// How long, in milliseconds, a writer sleeps between attempts.
pub const RETRY_DELAY_MS: u64 = 20;

/// What is known of the age of a lockfile that is already there.
#[derive(Debug, Clone, Copy, PartialEq, Eq, Structural)]
pub enum LockAge {
    /// Its metadata could not be read: it is most likely gone already.
    Unreadable,
    /// It was modified after now, by a clock that disagrees with this one.
    InFuture,
    /// It was modified this many milliseconds ago.
    Elapsed(u64),
}

/// What a writer does when the lockfile is already there.
#[derive(Debug, Clone, Copy, PartialEq, Eq, Structural)]
pub enum Contention {
    /// Remove the abandoned lockfile and try again at once.
    Break,
    /// Stop waiting and fail.
    GiveUp,
    /// Sleep for the retry delay and try again.
    Wait,
}

/// An abandoned lockfile: unreadable, or older than the stale limit. One
/// from the future is not, since nothing says its holder died.
pub open spec fn spec_is_stale(age: LockAge) -> bool {
    match age {
        LockAge::Unreadable => true,
        LockAge::InFuture => false,
        LockAge::Elapsed(ms) => ms > STALE_AFTER_MS,
    }
}

pub fn is_stale(age: LockAge) -> (r: bool)
    ensures
        r == spec_is_stale(age),
{
    match age {
        LockAge::Unreadable => true,
        LockAge::InFuture => false,
        LockAge::Elapsed(ms) => ms > STALE_AFTER_MS,
    }
}

/// What to do about a lockfile of age `age` after waiting `waited_ms`: break
/// an abandoned one, give up once the wait limit is passed, wait otherwise.
pub open spec fn contention(age: LockAge, waited_ms: u64) -> Contention {
    if spec_is_stale(age) {
        Contention::Break
    } else if waited_ms > WAIT_LIMIT_MS {
        Contention::GiveUp
    } else {
        Contention::Wait
    }
}

pub fn on_contention(age: LockAge, waited_ms: u64) -> (r: Contention)
    ensures
        r == contention(age, waited_ms),
{
    if is_stale(age) {
        Contention::Break
    } else if waited_ms > WAIT_LIMIT_MS {
        Contention::GiveUp
    } else {
        Contention::Wait
    }
}

/// A live lock is never broken: only an abandoned one is, so a writer holding
/// a fresh lock is never overtaken by another.
pub proof fn lemma_fresh_locks_hold(ms: u64, waited_ms: u64)
    requires
        ms <= STALE_AFTER_MS,
    ensures
        contention(LockAge::Elapsed(ms), waited_ms) != Contention::Break,
{
}

/// The name of the lockfile beside a file called `file_name` (or `target`
/// when the path has no file name): hidden, with a `.lock` suffix.
pub fn lock_file_name(file_name: Option<&str>) -> (r: String)
    ensures
        r@ == "."@ + (match file_name {
            Some(n) => n@,
            None => "target"@,
        }) + ".lock"@,
{
    let mut s = owned(".");
    match file_name {
        Some(n) => push_str(&mut s, n),
        None => push_str(&mut s, "target"),
    }
    push_str(&mut s, ".lock");
    s
}

} // verus!
