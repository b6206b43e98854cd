//! Every way this system is allowed to fail, and what the command line makes
//! of each failure.
use vstd::prelude::*;

use crate::text::{decimal, decimal_text, owned, push_str};

verus! {

/// Every way this system is allowed to fail.
///
/// Adapters map their own errors (io, serde, exit codes) into these variants
/// at the boundary, so use cases never match on an `io::Error` and the command
/// line has a single exhaustive place to decide exit codes and phrasing.
#[derive(Debug, Clone, PartialEq, Eq)]
pub enum DomainError {
    /// The input was wrong in a way the caller can fix by typing something else.
    Invalid(String),
    /// The thing asked for is not there.
    NotFound { kind: String, id: String },
    /// The thing asked for is already there, and silently overwriting it would
    /// lose something.
    Conflict { kind: String, id: String },
    /// The request was well-formed but the current state forbids it.
    Forbidden(String),
    /// A limit deliberately configured by the user was reached.
    LimitReached { limit: String, reached: u64, allowed: u64 },
    /// The outside world failed: disk, process, network, interpreter.
    Adapter { context: String, detail: String },
    /// Stored state could not be understood.
    Parse { what: String, detail: String },
    /// A capability was asked for that this build or environment does not have.
    Unsupported(String),
}

pub type Result<T> = core::result::Result<T, DomainError>;

/// Exit code: the command ran and its answer was negative.
pub const EXIT_NEGATIVE: i32 = 1;
/// Exit code: autonomous mode wants another turn.
pub const EXIT_CONTINUE: i32 = 2;
/// Exit code: bad input.
pub const EXIT_USAGE: i32 = 64;
/// Exit code: the state forbids it.
pub const EXIT_FORBIDDEN: i32 = 65;
/// Exit code: something is not installed or not supported here.
pub const EXIT_UNSUPPORTED: i32 = 69;
/// Exit code: the world failed.
pub const EXIT_ADAPTER: i32 = 70;

impl DomainError {
    pub fn invalid(message: &str) -> (r: Self)
        ensures
            r matches DomainError::Invalid(m) && m@ == message@,
    {
        DomainError::Invalid(owned(message))
    }

    pub fn not_found(kind: &str, id: &str) -> (r: Self)
        ensures
            r matches DomainError::NotFound { kind: k, id: i } && k@ == kind@ && i@ == id@,
    {
        DomainError::NotFound { kind: owned(kind), id: owned(id) }
    }

    pub fn conflict(kind: &str, id: &str) -> (r: Self)
        ensures
            r matches DomainError::Conflict { kind: k, id: i } && k@ == kind@ && i@ == id@,
    {
        DomainError::Conflict { kind: owned(kind), id: owned(id) }
    }

    pub fn forbidden(message: &str) -> (r: Self)
        ensures
            r matches DomainError::Forbidden(m) && m@ == message@,
    {
        DomainError::Forbidden(owned(message))
    }

    pub fn adapter(context: &str, detail: &str) -> (r: Self)
        ensures
            r matches DomainError::Adapter { context: c, detail: d } && c@ == context@ && d@
                == detail@,
    {
        DomainError::Adapter { context: owned(context), detail: owned(detail) }
    }

    pub fn parse(what: &str, detail: &str) -> (r: Self)
        ensures
            r matches DomainError::Parse { what: w, detail: d } && w@ == what@ && d@ == detail@,
    {
        DomainError::Parse { what: owned(what), detail: owned(detail) }
    }

    /// True when retrying the identical command could plausibly work.
    pub fn is_transient(&self) -> (r: bool)
        ensures
            r == (self is Adapter),
    {
        match self {
            DomainError::Adapter { .. } => true,
            _ => false,
        }
    }

    /// The sentence a person reads for this error.
    pub open spec fn spec_message(&self) -> Seq<char> {
        match self {
            DomainError::Invalid(m) => m@,
            DomainError::NotFound { kind, id } => kind@ + " '"@ + id@ + "' not found"@,
            DomainError::Conflict { kind, id } => kind@ + " '"@ + id@ + "' already exists"@,
            DomainError::Forbidden(m) => m@,
            DomainError::LimitReached { limit, reached, allowed } => limit@ + " limit reached ("@
                + decimal(*reached as nat) + " of "@ + decimal(*allowed as nat) + ")"@,
            DomainError::Adapter { context, detail } => context@ + ": "@ + detail@,
            DomainError::Parse { what, detail } => "could not parse "@ + what@ + ": "@ + detail@,
            DomainError::Unsupported(m) => m@,
        }
    }

    /// The sentence a person reads for this error.
    pub fn message(&self) -> (r: String)
        ensures
            r@ == self.spec_message(),
    {
        match self {
            DomainError::Invalid(m) => m.clone(),
            DomainError::NotFound { kind, id } => {
                let mut s = kind.clone();
                push_str(&mut s, " '");
                push_str(&mut s, id.as_str());
                push_str(&mut s, "' not found");
                s
            },
            DomainError::Conflict { kind, id } => {
                let mut s = kind.clone();
                push_str(&mut s, " '");
                push_str(&mut s, id.as_str());
                push_str(&mut s, "' already exists");
                s
            },
            DomainError::Forbidden(m) => m.clone(),
            DomainError::LimitReached { limit, reached, allowed } => {
                let mut s = limit.clone();
                push_str(&mut s, " limit reached (");
                let a = decimal_text(*reached);
                push_str(&mut s, a.as_str());
                push_str(&mut s, " of ");
                let b = decimal_text(*allowed);
                push_str(&mut s, b.as_str());
                push_str(&mut s, ")");
                s
            },
            DomainError::Adapter { context, detail } => {
                let mut s = context.clone();
                push_str(&mut s, ": ");
                push_str(&mut s, detail.as_str());
                s
            },
            DomainError::Parse { what, detail } => {
                let mut s = owned("could not parse ");
                push_str(&mut s, what.as_str());
                push_str(&mut s, ": ");
                push_str(&mut s, detail.as_str());
                s
            },
            DomainError::Unsupported(m) => m.clone(),
        }
    }
}

/// The stable name a script sees for each kind of failure.
pub open spec fn spec_kind_of(error: DomainError) -> Seq<char> {
    match error {
        DomainError::Invalid(_) => "invalid"@,
        DomainError::NotFound { .. } => "not_found"@,
        DomainError::Conflict { .. } => "conflict"@,
        DomainError::Forbidden(_) => "forbidden"@,
        DomainError::LimitReached { .. } => "limit_reached"@,
        DomainError::Adapter { .. } => "adapter"@,
        DomainError::Parse { .. } => "parse"@,
        DomainError::Unsupported(_) => "unsupported"@,
    }
}

/// The stable name a script sees for each kind of failure.
pub fn kind_of(error: &DomainError) -> (r: &'static str)
    ensures
        r@ == spec_kind_of(*error),
{
    match error {
        DomainError::Invalid(_) => "invalid",
        DomainError::NotFound { .. } => "not_found",
        DomainError::Conflict { .. } => "conflict",
        DomainError::Forbidden(_) => "forbidden",
        DomainError::LimitReached { .. } => "limit_reached",
        DomainError::Adapter { .. } => "adapter",
        DomainError::Parse { .. } => "parse",
        DomainError::Unsupported(_) => "unsupported",
    }
}

pub open spec fn spec_code_for(error: DomainError) -> i32 {
    match error {
        DomainError::Invalid(_) | DomainError::NotFound { .. } | DomainError::Parse { .. } => {
            EXIT_USAGE
        },
        DomainError::Conflict { .. } | DomainError::Forbidden(_) | DomainError::LimitReached {
            ..
        } => EXIT_FORBIDDEN,
        DomainError::Unsupported(_) => EXIT_UNSUPPORTED,
        DomainError::Adapter { .. } => EXIT_ADAPTER,
    }
}

/// The process exit code for a failure, so a script can branch without parsing prose.
pub fn code_for(error: &DomainError) -> (r: i32)
    ensures
        r == spec_code_for(*error),
{
    match error {
        DomainError::Invalid(_) | DomainError::NotFound { .. } | DomainError::Parse { .. } => {
            EXIT_USAGE
        },
        DomainError::Conflict { .. } | DomainError::Forbidden(_) | DomainError::LimitReached {
            ..
        } => EXIT_FORBIDDEN,
        DomainError::Unsupported(_) => EXIT_UNSUPPORTED,
        DomainError::Adapter { .. } => EXIT_ADAPTER,
    }
}

} // verus!
