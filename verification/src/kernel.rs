//! The persistent execution namespace: prompt-as-a-variable.
//!
//! The whole point of this subsystem is a token argument: reading a 200MB log
//! into the conversation costs tokens proportional to its size; loading it
//! into a variable and printing `len(errors)` costs eleven. The kernel is what
//! makes the second option available across separate tool calls.
//!
//! This module describes the *contract* only. Whether the namespace is held
//! by a Python interpreter, a Node process or a shell is an adapter's problem.
use vstd::prelude::*;
use vstd::string::StringSliceAdditionalSpecFns;
use vstd::utf8::{decode_utf8, encode_utf8, is_char_boundary, valid_utf8};

use crate::error::{DomainError, Result};
use crate::text::{
    chars_of, decimal, decimal_text, glue, glue_onto, is_text, keyword, lower, owned, push_chars, push_str,
    string_of, trim, trim_end, trimmed, trimmed_end,
};

verus! {

#[derive(Debug, Clone, Copy, PartialEq, Eq, Hash, Structural)]
pub enum KernelLanguage {
    Python,
    Node,
    Shell,
}

impl KernelLanguage {
    /// The language a trimmed, lower-cased text names.
    pub open spec fn named(key: Seq<char>) -> Option<KernelLanguage> {
        if key == "python"@ || key == "python3"@ || key == "py"@ {
            Some(KernelLanguage::Python)
        } else if key == "node"@ || key == "js"@ || key == "javascript"@ {
            Some(KernelLanguage::Node)
        } else if key == "shell"@ || key == "sh"@ || key == "bash"@ {
            Some(KernelLanguage::Shell)
        } else {
            None
        }
    }

    pub fn parse(text: &str) -> (r: Result<KernelLanguage>)
        ensures
            match r {
                Ok(l) => Self::named(lower(trim(text@))) == Some(l),
                Err(e) => Self::named(lower(trim(text@))) is None && e is Invalid,
            },
    {
        let k = keyword(text);
        let key = k.as_slice();
        if is_text(key, "python") || is_text(key, "python3") || is_text(key, "py") {
            Ok(KernelLanguage::Python)
        } else if is_text(key, "node") || is_text(key, "js") || is_text(key, "javascript") {
            Ok(KernelLanguage::Node)
        } else if is_text(key, "shell") || is_text(key, "sh") || is_text(key, "bash") {
            Ok(KernelLanguage::Shell)
        } else {
            let mut m = owned("unknown kernel language '");
            push_chars(&mut m, key);
            push_str(&mut m, "'; expected python, node or shell");
            Err(DomainError::Invalid(m))
        }
    }

    pub open spec fn spec_label(self) -> Seq<char> {
        match self {
            KernelLanguage::Python => "python"@,
            KernelLanguage::Node => "node"@,
            KernelLanguage::Shell => "shell"@,
        }
    }

    pub fn label(self) -> (r: &'static str)
        ensures
            r@ == self.spec_label(),
    {
        match self {
            KernelLanguage::Python => "python",
            KernelLanguage::Node => "node",
            KernelLanguage::Shell => "shell",
        }
    }

    /// Shell "namespaces" are exported variables and a working directory,
    /// not a heap of live objects. Callers use this to warn rather than to
    /// pretend.
    pub fn holds_objects(self) -> (r: bool)
        ensures
            r == !(self is Shell),
    {
        match self {
            KernelLanguage::Shell => false,
            _ => true,
        }
    }
}

#[derive(Debug, Clone, Copy, PartialEq, Eq, Structural)]
pub enum KernelStatus {
    /// No process yet. Kernels start lazily, on first use.
    Cold,
    Ready,
    Busy,
    /// The process died; the next execution will rebuild it.
    Dead,
}

#[derive(Debug, Clone, Copy, PartialEq, Eq, Structural)]
pub enum Stream {
    Stdout,
    Stderr,
}

pub const DEFAULT_TIMEOUT_SECS: u64 = 120;

pub const DEFAULT_MAX_OUTPUT: usize = 16384;

/// One unit of code to run in the namespace.
#[derive(Debug, Clone, PartialEq, Eq)]
pub struct ExecRequest {
    pub session_id: String,
    pub code: String,
    pub timeout_secs: u64,
    /// Output beyond this is clipped, with a note saying how much was
    /// dropped. A kernel exists to keep large data *out* of context; a runaway
    /// `print` must not defeat that.
    pub max_output_bytes: usize,
}

impl ExecRequest {
    pub fn new(session_id: &str, code: &str) -> (r: Result<ExecRequest>)
        ensures
            match r {
                Ok(q) => {
                    &&& trim(code@).len() > 0
                    &&& q.session_id@ == session_id@
                    &&& q.code@ == code@
                    &&& q.timeout_secs == DEFAULT_TIMEOUT_SECS
                    &&& q.max_output_bytes == DEFAULT_MAX_OUTPUT
                },
                Err(e) => trim(code@).len() == 0 && e is Invalid,
            },
    {
        if trimmed(code).len() == 0 {
            return Err(DomainError::invalid("nothing to execute"));
        }
        Ok(ExecRequest {
            session_id: owned(session_id),
            code: owned(code),
            timeout_secs: DEFAULT_TIMEOUT_SECS,
            max_output_bytes: DEFAULT_MAX_OUTPUT,
        })
    }

    /// The request with a timeout of `secs`, at least one second.
    pub fn with_timeout(self, secs: u64) -> (r: ExecRequest)
        ensures
            r == (ExecRequest { timeout_secs: if secs < 1 { 1 } else { secs }, ..self }),
    {
        let mut r = self;
        r.timeout_secs = if secs < 1 { 1 } else { secs };
        r
    }

    /// The request with an output limit of `bytes`, at least 256.
    pub fn with_max_output(self, bytes: usize) -> (r: ExecRequest)
        ensures
            r == (ExecRequest { max_output_bytes: if bytes < 256 { 256 } else { bytes }, ..self }),
    {
        let mut r = self;
        r.max_output_bytes = if bytes < 256 { 256 } else { bytes };
        r
    }
}

#[derive(Debug, Clone, PartialEq, Eq)]
pub struct ExecOutcome {
    pub ok: bool,
    pub stdout: String,
    pub stderr: String,
    /// The repr of the final expression, when there was one.
    pub result: Option<String>,
    pub error: Option<String>,
    pub duration_ms: u64,
    /// Bytes dropped by the output clip, if any.
    pub truncated_bytes: usize,
    pub timed_out: bool,
}

/// The bytes of `s` as UTF-8.
pub open spec fn bytes_of(s: Seq<char>) -> Seq<u8> {
    encode_utf8(s)
}

/// The largest character boundary of `bytes` at or below `index`.
pub open spec fn boundary_at_or_below(bytes: Seq<u8>, index: int) -> int
    decreases index,
{
    if index <= 0 {
        0
    } else if is_char_boundary(bytes, index) {
        index
    } else {
        boundary_at_or_below(bytes, index - 1)
    }
}

/// The smallest character boundary of `bytes` at or above `index`, or
/// `index` itself once past the end.
pub open spec fn boundary_at_or_above(bytes: Seq<u8>, index: int) -> int
    decreases bytes.len() - index,
{
    if index >= bytes.len() {
        index
    } else if is_char_boundary(bytes, index) {
        index
    } else {
        boundary_at_or_above(bytes, index + 1)
    }
}

/// The bytes the head of a clip may keep: two thirds of the limit.
pub open spec fn head_budget(max_bytes: int) -> int {
    max_bytes * 2 / 3
}

/// The note that replaces what a clip drops.
pub open spec fn clip_note(dropped: nat) -> Seq<char> {
    "\n... ["@ + decimal(dropped) + " bytes clipped; run again printing a smaller slice] ...\n"@
}

/// Where a clip of `s` to `max_bytes` cuts: the end of the head and the
/// start of the tail, in bytes.
pub open spec fn clip_cuts(s: Seq<char>, max_bytes: int) -> (int, int) {
    let bytes = bytes_of(s);
    let head = head_budget(max_bytes);
    let tail = max_bytes - head;
    (boundary_at_or_below(bytes, head), boundary_at_or_above(bytes, bytes.len() - tail))
}

/// What `clip` makes of `s`: the text unchanged when it fits, otherwise its
/// head and tail around a note saying how many bytes were dropped.
pub open spec fn clipped(s: Seq<char>, max_bytes: int) -> (Seq<char>, nat) {
    let bytes = bytes_of(s);
    if bytes.len() <= max_bytes {
        (s, 0)
    } else {
        let (head_end, tail_start) = clip_cuts(s, max_bytes);
        let dropped = (tail_start - head_end) as nat;
        (
            decode_utf8(bytes.subrange(0, head_end)) + clip_note(dropped) + decode_utf8(
                bytes.subrange(tail_start, bytes.len() as int),
            ),
            dropped,
        )
    }
}

pub proof fn lemma_below_facts(bytes: Seq<u8>, index: int)
    requires
        valid_utf8(bytes),
        index <= bytes.len(),
    ensures
        0 <= boundary_at_or_below(bytes, index),
        index >= 0 ==> boundary_at_or_below(bytes, index) <= index,
        is_char_boundary(bytes, boundary_at_or_below(bytes, index)),
    decreases index,
{
    if index > 0 && !is_char_boundary(bytes, index) {
        lemma_below_facts(bytes, index - 1);
    }
}

pub proof fn lemma_above_facts(bytes: Seq<u8>, index: int)
    requires
        valid_utf8(bytes),
        0 <= index <= bytes.len(),
    ensures
        index <= boundary_at_or_above(bytes, index) <= bytes.len(),
        is_char_boundary(bytes, boundary_at_or_above(bytes, index)),
    decreases bytes.len() - index,
{
    vstd::utf8::is_char_boundary_start_end_of_seq(bytes);
    if index < bytes.len() && !is_char_boundary(bytes, index) {
        lemma_above_facts(bytes, index + 1);
    }
}

/// The largest character boundary of `text` at or below byte `index`.
pub fn floor_boundary(text: &str, index: usize) -> (r: usize)
    requires
        index <= bytes_of(text@).len(),
    ensures
        r == boundary_at_or_below(bytes_of(text@), index as int),
{
    let ghost bytes = bytes_of(text@);
    let mut i = index;
    assert(text.spec_bytes() == bytes);
    while i > 0 && !text.is_char_boundary(i)
        invariant
            i <= index,
            bytes == text.spec_bytes(),
            boundary_at_or_below(bytes, index as int) == boundary_at_or_below(bytes, i as int),
        decreases i,
    {
        i -= 1;
    }
    i
}

/// The smallest character boundary of `text` at or above byte `index`.
pub fn ceil_boundary(text: &str, index: usize) -> (r: usize)
    requires
        index <= bytes_of(text@).len(),
    ensures
        r == boundary_at_or_above(bytes_of(text@), index as int),
{
    let ghost bytes = bytes_of(text@);
    let n = text.as_bytes().len();
    assert(text.spec_bytes() == bytes);
    let mut i = index;
    while i < n && !text.is_char_boundary(i)
        invariant
            index <= i <= n,
            n == bytes.len(),
            bytes == text.spec_bytes(),
            boundary_at_or_above(bytes, index as int) == boundary_at_or_above(bytes, i as int),
        decreases n - i,
    {
        i += 1;
    }
    i
}

/// Clips `text` to `max_bytes`, keeping the head and the tail: a traceback's
/// first and last lines carry most of the meaning, and the middle of a dump
/// rarely does. Returns the text and how many bytes were dropped. Cuts fall
/// on character boundaries, so no character is ever split.
pub fn clip(text: &str, max_bytes: usize) -> (r: (String, usize))
    ensures
        (r.0@, r.1 as nat) == clipped(text@, max_bytes as int),
{
    let ghost bytes = bytes_of(text@);
    proof {
        vstd::utf8::encode_utf8_valid_utf8(text@);
        vstd::utf8::encode_utf8_decode_utf8(text@);
    }
    let n = text.as_bytes().len();
    assert(n == bytes.len());
    if n <= max_bytes {
        return (owned(text), 0);
    }
    let head_bytes = (max_bytes / 3) * 2 + ((max_bytes % 3) * 2) / 3;
    assert(head_bytes == head_budget(max_bytes as int)) by (nonlinear_arith)
        requires
            head_bytes == (max_bytes / 3) * 2 + ((max_bytes % 3) * 2) / 3,
    ;
    let tail_budget = max_bytes - head_bytes;
    let head_end = floor_boundary(text, head_bytes);
    let tail_start = ceil_boundary(text, n - tail_budget);
    proof {
        lemma_below_facts(bytes, head_bytes as int);
        lemma_above_facts(bytes, (n - tail_budget) as int);
    }
    let dropped = tail_start - head_end;
    let (head, _) = text.split_at(head_end);
    let (_, tail) = text.split_at(tail_start);
    proof {
        vstd::utf8::encode_utf8_decode_utf8(head@);
        vstd::utf8::encode_utf8_decode_utf8(tail@);
        assert(head@ == decode_utf8(bytes.subrange(0, head_end as int)));
        assert(tail@ == decode_utf8(bytes.subrange(tail_start as int, n as int)));
    }
    let mut out = owned(head);
    push_str(&mut out, "\n... [");
    let d = decimal_text(dropped as u64);
    push_str(&mut out, d.as_str());
    push_str(&mut out, " bytes clipped; run again printing a smaller slice] ...\n");
    push_str(&mut out, tail);
    (out, dropped)
}

/// A clip keeps no more than its limit of the original text, and drops
/// exactly the bytes between its cuts.
pub proof fn lemma_clip_keeps_within_budget(s: Seq<char>, max_bytes: int)
    requires
        0 <= max_bytes < bytes_of(s).len(),
    ensures
        ({
            let (head_end, tail_start) = clip_cuts(s, max_bytes);
            &&& 0 <= head_end <= tail_start <= bytes_of(s).len()
            &&& head_end + (bytes_of(s).len() - tail_start) <= max_bytes
            &&& clipped(s, max_bytes).1 == tail_start - head_end
        }),
{
    vstd::utf8::encode_utf8_valid_utf8(s);
    let bytes = bytes_of(s);
    let head = head_budget(max_bytes);
    assert(0 <= head <= max_bytes) by (nonlinear_arith)
        requires
            head == max_bytes * 2 / 3,
            0 <= max_bytes,
    ;
    lemma_below_facts(bytes, head);
    lemma_above_facts(bytes, bytes.len() - (max_bytes - head));
}

impl ExecOutcome {
    pub fn failure(error: &str, duration_ms: u64) -> (r: ExecOutcome)
        ensures
            !r.ok,
            r.stdout@.len() == 0,
            r.stderr@.len() == 0,
            r.result is None,
            r.error matches Some(e) && e@ == error@,
            r.duration_ms == duration_ms,
            r.truncated_bytes == 0,
            !r.timed_out,
    {
        ExecOutcome {
            ok: false,
            stdout: String::new(),
            stderr: String::new(),
            result: None,
            error: Some(owned(error)),
            duration_ms,
            truncated_bytes: 0,
            timed_out: false,
        }
    }

    /// Clips both streams, recording how many bytes were dropped in all.
    /// The note left in each stream says what was lost: silence would be
    /// worse than the truncation.
    pub fn clip(self, max_bytes: usize) -> (r: ExecOutcome)
        requires
            bytes_of(self.stdout@).len() + bytes_of(self.stderr@).len() <= usize::MAX,
        ensures
            r.stdout@ == clipped(self.stdout@, max_bytes as int).0,
            r.stderr@ == clipped(self.stderr@, max_bytes as int).0,
            r.truncated_bytes == clipped(self.stdout@, max_bytes as int).1 + clipped(
                self.stderr@,
                max_bytes as int,
            ).1,
            r.ok == self.ok,
            r.result == self.result,
            r.error == self.error,
            r.duration_ms == self.duration_ms,
            r.timed_out == self.timed_out,
    {
        let (stdout, dropped_out) = clip(self.stdout.as_str(), max_bytes);
        let (stderr, dropped_err) = clip(self.stderr.as_str(), max_bytes);
        proof {
            if bytes_of(self.stdout@).len() > max_bytes {
                lemma_clip_keeps_within_budget(self.stdout@, max_bytes as int);
            }
            if bytes_of(self.stderr@).len() > max_bytes {
                lemma_clip_keeps_within_budget(self.stderr@, max_bytes as int);
            }
        }
        ExecOutcome {
            ok: self.ok,
            stdout,
            stderr,
            result: self.result,
            error: self.error,
            duration_ms: self.duration_ms,
            truncated_bytes: dropped_out + dropped_err,
            timed_out: self.timed_out,
        }
    }
}

/// What an execution shows a reader: its output without trailing white
/// space, the value of its last expression, its error output, and its error,
/// one after another on lines of their own. Output that is all white space is
/// left out.
pub open spec fn exec_text_of(o: ExecOutcome) -> Seq<char> {
    let shown = if trim(o.stdout@).len() > 0 {
        trim_end(o.stdout@)
    } else {
        Seq::<char>::empty()
    };
    let with_result = match o.result {
        Some(value) => glue(shown, "\n"@, value@),
        None => shown,
    };
    let with_stderr = if trim(o.stderr@).len() > 0 {
        glue(with_result, "\n"@, trim_end(o.stderr@))
    } else {
        with_result
    };
    match o.error {
        Some(error) => glue(with_stderr, "\n"@, error@),
        None => with_stderr,
    }
}

/// The text a stream shows, when it is not all white space.
fn shown_stream(stream: &str) -> (r: Option<String>)
    ensures
        match r {
            Some(t) => trim(stream@).len() > 0 && t@ == trim_end(stream@),
            None => trim(stream@).len() == 0,
        },
{
    if trimmed(stream).len() == 0 {
        return None;
    }
    let chars = chars_of(stream);
    let kept = trimmed_end(chars.as_slice());
    Some(string_of(kept.as_slice()))
}

/// Renders an execution for a reader; see [`exec_text_of`].
pub fn exec_text(outcome: &ExecOutcome) -> (r: String)
    ensures
        r@ == exec_text_of(*outcome),
{
    let mut out = String::new();
    if let Some(text) = shown_stream(outcome.stdout.as_str()) {
        push_str(&mut out, text.as_str());
    }
    if let Some(value) = &outcome.result {
        glue_onto(&mut out, "\n", value.as_str());
    }
    if let Some(text) = shown_stream(outcome.stderr.as_str()) {
        glue_onto(&mut out, "\n", text.as_str());
    }
    if let Some(error) = &outcome.error {
        glue_onto(&mut out, "\n", error.as_str());
    }
    out
}

/// What a variable is, without its value.
///
/// `kernel vars` prints these rather than contents on purpose: seeing that
/// `rows` is a 4.2 million element list is the information that decides what
/// to do next, and printing the list would defeat the entire feature.
#[derive(Debug, Clone, PartialEq, Eq)]
pub struct VarSummary {
    pub name: String,
    pub value_type: String,
    /// `len()` where the value has one.
    pub length: Option<u64>,
    /// Approximate footprint in bytes.
    pub size_bytes: Option<u64>,
    /// A short, deliberately lossy preview.
    pub preview: Option<String>,
}

/// The size a variable is ranked by: its footprint, or nothing known as zero.
pub open spec fn size_rank(v: VarSummary) -> u64 {
    match v.size_bytes {
        Some(n) => n,
        None => 0,
    }
}

/// Ranking order of variables: the biggest first, then by name.
pub open spec fn var_le(a: VarSummary, b: VarSummary) -> bool {
    if size_rank(a) != size_rank(b) {
        size_rank(a) > size_rank(b)
    } else {
        crate::skill::text_le(a.name@, b.name@)
    }
}

/// Where a stable insertion puts `x` into `t`.
pub open spec fn var_pos(t: Seq<VarSummary>, x: VarSummary) -> int
    decreases t.len(),
{
    if t.len() == 0 {
        0
    } else if var_le(t.last(), x) {
        t.len() as int
    } else {
        var_pos(t.drop_last(), x)
    }
}

/// `s` sorted stably, biggest first and then by name.
pub open spec fn vars_sorted(s: Seq<VarSummary>) -> Seq<VarSummary>
    decreases s.len(),
{
    if s.len() == 0 {
        s
    } else {
        let t = vars_sorted(s.drop_last());
        t.insert(var_pos(t, s.last()), s.last())
    }
}

proof fn lemma_var_pos_bounds(t: Seq<VarSummary>, x: VarSummary)
    ensures
        0 <= var_pos(t, x) <= t.len(),
    decreases t.len(),
{
    if t.len() > 0 {
        lemma_var_pos_bounds(t.drop_last(), x);
    }
}

fn var_at_most(a: &VarSummary, b: &VarSummary) -> (r: bool)
    ensures
        r == var_le(*a, *b),
{
    let sa = match a.size_bytes {
        Some(n) => n,
        None => 0,
    };
    let sb = match b.size_bytes {
        Some(n) => n,
        None => 0,
    };
    if sa != sb {
        sa > sb
    } else {
        crate::skill::text_at_most(a.name.as_str(), b.name.as_str())
    }
}

/// Variables ordered biggest first, because the reason anybody lists them is
/// to find out what is eating memory or what is worth slicing.
pub fn vars_by_size(vars: Vec<VarSummary>) -> (r: Vec<VarSummary>)
    ensures
        r@ == vars_sorted(vars@),
{
    let ghost orig = vars@;
    let n = vars.len();
    let mut rest = vars;
    let mut out: Vec<VarSummary> = Vec::new();
    let mut i: usize = 0;
    while rest.len() > 0
        invariant
            n == orig.len(),
            i + rest@.len() == n,
            rest@ == orig.skip(i as int),
            out@ == vars_sorted(orig.take(i as int)),
        decreases rest@.len(),
    {
        let x = rest.remove(0);
        proof {
            assert(orig.take(i + 1).drop_last() =~= orig.take(i as int));
            assert(orig.take(i + 1).last() == x);
            assert(rest@ =~= orig.skip(i + 1));
            lemma_var_pos_bounds(out@, x);
        }
        let mut p = out.len();
        assert(out@.take(p as int) =~= out@);
        while p > 0 && !var_at_most(&out[p - 1], &x)
            invariant
                p <= out@.len(),
                var_pos(out@, x) == var_pos(out@.take(p as int), x),
            decreases p,
        {
            assert(out@.take(p as int).drop_last() =~= out@.take(p - 1));
            p -= 1;
        }
        proof {
            if p > 0 {
                assert(out@.take(p as int).last() == out@[p - 1]);
            }
        }
        out.insert(p, x);
        i += 1;
    }
    assert(orig.take(n as int) =~= orig);
    out
}

} // verus!
