//! Text handling for the shell kernel: quoting a value for a shell command
//! line, reading the environment a shell printed with `env -0`, and clipping
//! long values for display.
use vstd::prelude::*;
use vstd::string::StringSliceAdditionalSpecFns;
use vstd::utf8::{decode_utf8, valid_utf8};

use crate::frontmatter::{lookup, Field};
use crate::kernel::{bytes_of, VarSummary};
use crate::skill::{text_at_most, text_le};
use crate::search::{first_index, lemma_first_index_facts, lemma_first_index_scan};
use crate::text::{chars_of, decimal, decimal_text, owned, signed_decimal, signed_decimal_text, push_char, push_chars, push_str, same_text, slice_chars, split_once, split_once_in, string_of};

verus! {

/// The quoted body of `s`: every `'` written as `'\''`.
pub open spec fn quote_body(s: Seq<char>) -> Seq<char>
    decreases s.len(),
{
    if s.len() == 0 {
        Seq::empty()
    } else {
        quote_body(s.drop_last()) + if s.last() == '\'' {
            seq!['\'', '\\', '\'', '\'']
        } else {
            seq![s.last()]
        }
    }
}

/// `value` in single quotes, safe to paste into a shell command line.
pub fn shell_quote(value: &str) -> (r: String)
    ensures
        r@ == seq!['\''] + quote_body(value@) + seq!['\''],
{
    let v = chars_of(value);
    let mut out = String::new();
    push_char(&mut out, '\'');
    let mut i: usize = 0;
    assert(v@.take(0) =~= Seq::<char>::empty());
    while i < v.len()
        invariant
            i <= v@.len(),
            out@ == seq!['\''] + quote_body(v@.take(i as int)),
        decreases v@.len() - i,
    {
        assert(v@.take(i + 1).drop_last() =~= v@.take(i as int));
        let c = v[i];
        if c == '\'' {
            push_char(&mut out, '\'');
            push_char(&mut out, '\\');
            push_char(&mut out, '\'');
            push_char(&mut out, '\'');
        } else {
            push_char(&mut out, c);
        }
        i += 1;
        assert(out@ =~= seq!['\''] + quote_body(v@.take(i as int)));
    }
    assert(v@.take(i as int) =~= v@);
    push_char(&mut out, '\'');
    out
}

/// `s` with a trailing `...` once it is longer than `max` characters, cut to
/// `max` characters in all.
pub open spec fn dotted(s: Seq<char>, max: nat) -> Seq<char> {
    if s.len() <= max {
        s
    } else {
        s.take(max - 3) + "..."@
    }
}

/// Shortens a value for display.
pub fn clip(text: &str, max: usize) -> (r: String)
    requires
        text@.len() > max ==> max >= 3,
    ensures
        r@ == dotted(text@, max as nat),
{
    let v = chars_of(text);
    if v.len() <= max {
        return owned(text);
    }
    let head = slice_chars(v.as_slice(), 0, max - 3);
    assert(head@ == v@.take(max - 3));
    let mut out = string_of(head.as_slice());
    push_str(&mut out, "...");
    out
}

/// The text `String::from_utf8_lossy` reads from `bytes`: the bytes decoded,
/// each ill-formed sequence replaced by U+FFFD.
pub uninterp spec fn lossy_text(bytes: Seq<u8>) -> Seq<char>;

/// `String::from_utf8_lossy`. Well-formed UTF-8 comes back unchanged, as its
/// documentation says; how ill-formed sequences are replaced is left to it.
#[verifier::external_body]
fn lossy(bytes: &[u8]) -> (r: String)
    ensures
        r@ == lossy_text(bytes@),
        valid_utf8(bytes@) ==> r@ == decode_utf8(bytes@),
{
    String::from_utf8_lossy(bytes).into_owned()
}

/// The pieces of `bytes` between zero bytes, empty ones included.
pub open spec fn nul_split(bytes: Seq<u8>) -> Seq<Seq<u8>>
    decreases bytes.len(),
{
    if bytes.len() == 0 {
        seq![Seq::empty()]
    } else {
        let rest = nul_split(bytes.drop_last());
        if bytes.last() == 0 {
            rest.push(Seq::empty())
        } else {
            rest.update(rest.len() - 1, rest.last().push(bytes.last()))
        }
    }
}

proof fn lemma_nul_split_nonempty(bytes: Seq<u8>)
    ensures
        nul_split(bytes).len() >= 1,
    decreases bytes.len(),
{
    if bytes.len() > 0 {
        lemma_nul_split_nonempty(bytes.drop_last());
    }
}

/// The position of `key` in a list of fields with distinct keys.
pub open spec fn key_at(fields: Seq<Field>, key: Seq<char>) -> Option<int> {
    first_index(fields, |f: Field| f.0 == key)
}

/// `fields` with `key` set to `value`: replaced in place when present,
/// added at the end otherwise.
pub open spec fn set_field(fields: Seq<Field>, key: Seq<char>, value: Seq<char>) -> Seq<Field> {
    match key_at(fields, key) {
        Some(i) => fields.update(i, (key, value)),
        None => fields.push((key, value)),
    }
}

/// The variables read from the chunks, in the order their keys first
/// appear, each with the last value given for it.
pub open spec fn env_fields(chunks: Seq<Seq<u8>>) -> Seq<Field>
    decreases chunks.len(),
{
    if chunks.len() == 0 {
        Seq::empty()
    } else {
        let rest = env_fields(chunks.drop_last());
        let chunk = chunks.last();
        if chunk.len() == 0 {
            rest
        } else {
            match split_once(lossy_text(chunk), '=') {
                Some((k, v)) => set_field(rest, k, v),
                None => rest,
            }
        }
    }
}

/// The environment a shell printed with `env -0`.
#[derive(Debug, Clone, PartialEq, Eq)]
pub struct EnvMap {
    fields: Vec<(String, String)>,
}

impl EnvMap {
    pub closed spec fn spec_fields(&self) -> Seq<Field> {
        self.fields@.map_values(|f: (String, String)| (f.0@, f.1@))
    }

    /// The value of `key`.
    pub fn get(&self, key: &str) -> (r: Option<&String>)
        ensures
            match r {
                Some(v) => key_at(self.spec_fields(), key@) matches Some(i)
                    && self.spec_fields()[i].1 == v@,
                None => key_at(self.spec_fields(), key@) is None,
            },
    {
        let ghost p = |f: Field| f.0 == key@;
        let mut i: usize = 0;
        while i < self.fields.len()
            invariant
                i <= self.fields@.len(),
                p == (|f: Field| f.0 == key@),
                forall|k: int| 0 <= k < i ==> !p(#[trigger] self.spec_fields()[k]),
            decreases self.fields@.len() - i,
        {
            assert(self.spec_fields()[i as int] == (self.fields@[i as int].0@, self.fields@[i as int].1@));
            if same_text(self.fields[i].0.as_str(), key) {
                proof {
                    lemma_first_index_scan(self.spec_fields(), p, i as int);
                }
                return Some(&self.fields[i].1);
            }
            i += 1;
        }
        proof {
            lemma_first_index_scan(self.spec_fields(), p, i as int);
        }
        None
    }

    /// How many variables there are.
    pub fn len(&self) -> (r: usize)
        ensures
            r == self.spec_fields().len(),
    {
        self.fields.len()
    }

    /// The variables in the order their keys first appeared.
    pub fn pairs(&self) -> (r: &Vec<(String, String)>)
        ensures
            r@.map_values(|f: (String, String)| (f.0@, f.1@)) == self.spec_fields(),
    {
        &self.fields
    }

    fn set(&mut self, key: String, value: String)
        ensures
            final(self).spec_fields() == set_field(old(self).spec_fields(), key@, value@),
    {
        let ghost before = self.spec_fields();
        let ghost p = |f: Field| f.0 == key@;
        let mut i: usize = 0;
        while i < self.fields.len()
            invariant
                i <= self.fields@.len(),
                before == self.spec_fields(),
                before == old(self).spec_fields(),
                p == (|f: Field| f.0 == key@),
                forall|k: int| 0 <= k < i ==> !p(#[trigger] before[k]),
            decreases self.fields@.len() - i,
        {
            assert(before[i as int] == (self.fields@[i as int].0@, self.fields@[i as int].1@));
            if same_text(self.fields[i].0.as_str(), key.as_str()) {
                proof {
                    lemma_first_index_scan(before, p, i as int);
                }
                let ghost kv = (key@, value@);
                self.fields.set(i, (key, value));
                assert(self.spec_fields() =~= before.update(i as int, kv));
                return;
            }
            i += 1;
        }
        proof {
            lemma_first_index_scan(before, p, i as int);
        }
        let ghost kv = (key@, value@);
        self.fields.push((key, value));
        assert(self.spec_fields() =~= before.push(kv));
    }
}

/// Reads `KEY=value` pairs separated by zero bytes, as `env -0` prints
/// them. Empty chunks and chunks without `=` are skipped; a key given twice
/// keeps its last value.
pub fn parse_env0(bytes: &[u8]) -> (r: EnvMap)
    ensures
        r.spec_fields() == env_fields(nul_split(bytes@)),
{
    let mut map = EnvMap { fields: Vec::new() };
    assert(map.spec_fields() =~= Seq::<Field>::empty());
    let ghost chunks = nul_split(bytes@);
    let mut done: usize = 0;
    let mut start: usize = 0;
    let mut i: usize = 0;
    proof {
        lemma_nul_split_nonempty(bytes@.take(0));
        assert(bytes@.take(0) =~= Seq::<u8>::empty());
    }
    while i < bytes.len()
        invariant
            i <= bytes@.len(),
            start <= i,
            done <= i,
            nul_split(bytes@.take(i as int)).len() == done + 1,
            nul_split(bytes@.take(i as int))[done as int] == bytes@.subrange(start as int, i as int),
            map.spec_fields() == env_fields(nul_split(bytes@.take(i as int)).take(done as int)),
        decreases bytes@.len() - i,
    {
        let ghost before = nul_split(bytes@.take(i as int));
        assert(bytes@.take(i + 1).drop_last() =~= bytes@.take(i as int));
        if bytes[i] == 0 {
            let chunk = slice_bytes(bytes, start, i);
            let ghost piece = chunk@;
            if chunk.len() > 0 {
                let text = lossy(chunk.as_slice());
                let chars = chars_of(text.as_str());
                match split_once_in(chars.as_slice(), '=') {
                    Some((k, v)) => {
                        map.set(string_of(k.as_slice()), string_of(v.as_slice()));
                    },
                    None => {},
                }
            }
            proof {
                let after = nul_split(bytes@.take(i + 1));
                assert(after == before.push(Seq::empty()));
                assert(after.take(done + 1) =~= before);
                assert(before.take(done as int) =~= before.drop_last());
                assert(before.last() == piece);
            }
            done += 1;
            start = i + 1;
            proof {
                let after = nul_split(bytes@.take(i + 1));
                assert(bytes@.take(i + 1).subrange(start as int, i + 1) =~= Seq::<u8>::empty());
                assert(after[done as int] =~= bytes@.subrange(start as int, i + 1));
            }
        } else {
            proof {
                let after = nul_split(bytes@.take(i + 1));
                assert(after == before.update(before.len() - 1, before.last().push(bytes@[i as int])));
                assert(after.take(done as int) =~= before.take(done as int));
                assert(after[done as int] =~= bytes@.subrange(start as int, i + 1));
            }
        }
        i += 1;
    }
    assert(bytes@.take(i as int) =~= bytes@);
    let chunk = slice_bytes(bytes, start, i);
    let ghost piece = chunk@;
    if chunk.len() > 0 {
        let text = lossy(chunk.as_slice());
        let chars = chars_of(text.as_str());
        match split_once_in(chars.as_slice(), '=') {
            Some((k, v)) => {
                map.set(string_of(k.as_slice()), string_of(v.as_slice()));
            },
            None => {},
        }
    }
    proof {
        assert(chunks.take(done + 1) =~= chunks);
        assert(chunks.take(done + 1).drop_last() =~= chunks.take(done as int));
    }
    map
}

/// The bytes of `v` from `lo` up to `hi`.
fn slice_bytes(v: &[u8], lo: usize, hi: usize) -> (r: Vec<u8>)
    requires
        lo <= hi <= v@.len(),
    ensures
        r@ == v@.subrange(lo as int, hi as int),
{
    let mut out: Vec<u8> = Vec::new();
    let mut i = lo;
    while i < hi
        invariant
            lo <= i <= hi,
            hi <= v@.len(),
            out@ == v@.subrange(lo as int, i as int),
        decreases hi - i,
    {
        out.push(v[i]);
        i += 1;
        assert(out@ =~= v@.subrange(lo as int, i as int));
    }
    out
}

/// `value` in single quotes, as `shell_quote` writes it.
pub open spec fn quoted(value: Seq<char>) -> Seq<char> {
    seq!['\''] + quote_body(value) + seq!['\'']
}

/// The script one shell execution runs: start in the session's directory
/// (or `home` when it is gone), run the code, then capture the directory and
/// the exported environment it left behind, which become the next call's
/// starting state, and exit with the code's own status.
pub open spec fn exec_script_text(
    cwd: Seq<char>,
    home: Seq<char>,
    code: Seq<char>,
    pwd_file: Seq<char>,
    env_file: Seq<char>,
) -> Seq<char> {
    "cd "@ + quoted(cwd) + " 2>/dev/null || cd "@ + quoted(home) + "\n"@ + code
        + "\n__pa_status=$?\npwd > "@ + quoted(pwd_file) + "\nenv -0 > "@ + quoted(env_file)
        + "\nexit $__pa_status"@
}

pub fn exec_script(cwd: &str, home: &str, code: &str, pwd_file: &str, env_file: &str) -> (r:
    String)
    ensures
        r@ == exec_script_text(cwd@, home@, code@, pwd_file@, env_file@),
{
    let mut s = owned("cd ");
    let q = shell_quote(cwd);
    push_str(&mut s, q.as_str());
    push_str(&mut s, " 2>/dev/null || cd ");
    let q = shell_quote(home);
    push_str(&mut s, q.as_str());
    push_str(&mut s, "\n");
    push_str(&mut s, code);
    push_str(&mut s, "\n__pa_status=$?\npwd > ");
    let q = shell_quote(pwd_file);
    push_str(&mut s, q.as_str());
    push_str(&mut s, "\nenv -0 > ");
    let q = shell_quote(env_file);
    push_str(&mut s, q.as_str());
    push_str(&mut s, "\nexit $__pa_status");
    s
}

/// The exit status `timeout` gives a command it killed.
pub const TIMEOUT_EXIT: i32 = 124;

/// What a shell execution that ended with `code` reports as its error:
/// nothing when it succeeded, the limit when `timeout` killed it, its exit
/// status (or -1 when it had none) otherwise.
pub open spec fn exec_error_text(success: bool, code: Option<i32>, timeout_secs: u64) -> Option<
    Seq<char>,
> {
    if success {
        None
    } else if code == Some(TIMEOUT_EXIT) {
        Some("timed out after "@ + decimal(timeout_secs as nat) + "s"@)
    } else {
        Some(
            "exit "@ + signed_decimal(
                match code {
                    Some(c) => c as int,
                    None => -1,
                },
            ),
        )
    }
}

pub fn exec_error(success: bool, code: Option<i32>, timeout_secs: u64) -> (r: Option<String>)
    ensures
        match r {
            Some(m) => exec_error_text(success, code, timeout_secs) == Some(m@),
            None => exec_error_text(success, code, timeout_secs) is None,
        },
{
    if success {
        return None;
    }
    if code == Some(TIMEOUT_EXIT) {
        let mut m = owned("timed out after ");
        let t = decimal_text(timeout_secs);
        push_str(&mut m, t.as_str());
        push_str(&mut m, "s");
        return Some(m);
    }
    let c: i64 = match code {
        Some(c) => c as i64,
        None => -1,
    };
    let mut m = owned("exit ");
    let t = signed_decimal_text(c);
    push_str(&mut m, t.as_str());
    Some(m)
}

/// Variables the shell maintains itself, never reported as set by the user.
pub open spec fn shell_owned(key: Seq<char>) -> bool {
    key == "PWD"@ || key == "OLDPWD"@ || key == "SHLVL"@ || key == "_"@
}

/// The exports a session changed: those not inherited with the same value,
/// the shell's own left out, in order.
pub open spec fn changed_exports(exports: Seq<Field>, inherited: Seq<Field>) -> Seq<Field>
    decreases exports.len(),
{
    if exports.len() == 0 {
        Seq::empty()
    } else {
        let rest = changed_exports(exports.drop_last(), inherited);
        let (k, v) = exports.last();
        let same = match key_at(inherited, k) {
            Some(i) => inherited[i].1 == v,
            None => false,
        };
        if same || shell_owned(k) {
            rest
        } else {
            rest.push((k, v))
        }
    }
}

/// How an export is reported: its name, `export`, its length and size in
/// bytes, and a preview of at most 96 characters.
pub open spec fn export_summary(f: Field, v: VarSummary) -> bool {
    &&& v.name@ == f.0
    &&& v.value_type@ == "export"@
    &&& v.length == Some(bytes_of(f.1).len() as u64)
    &&& v.size_bytes == Some(bytes_of(f.1).len() as u64)
    &&& v.preview matches Some(p) && p@ == dotted(f.1, 96)
}

/// How the directory is reported: `PWD`, `cwd`, and the directory itself.
pub open spec fn cwd_summary(cwd: Seq<char>, v: VarSummary) -> bool {
    &&& v.name@ == "PWD"@
    &&& v.value_type@ == "cwd"@
    &&& v.length is None
    &&& v.size_bytes is None
    &&& v.preview matches Some(p) && p@ == cwd
}

fn is_shell_owned(key: &str) -> (r: bool)
    ensures
        r == shell_owned(key@),
{
    same_text(key, "PWD") || same_text(key, "OLDPWD") || same_text(key, "SHLVL") || same_text(
        key,
        "_",
    )
}

/// Where `f` goes among `t` in key order: after every field whose key is at
/// most its own.
pub open spec fn key_pos(t: Seq<Field>, f: Field) -> int
    decreases t.len(),
{
    if t.len() == 0 {
        0
    } else if text_le(t.last().0, f.0) {
        t.len() as int
    } else {
        key_pos(t.drop_last(), f)
    }
}

/// `s` in key order, fields of equal keys in the order given: the order a
/// map keyed by name lists them in.
pub open spec fn by_key(s: Seq<Field>) -> Seq<Field>
    decreases s.len(),
{
    if s.len() == 0 {
        s
    } else {
        let t = by_key(s.drop_last());
        t.insert(key_pos(t, s.last()), s.last())
    }
}

/// Where `x` goes among `t` in name order.
pub open spec fn name_pos(t: Seq<VarSummary>, x: VarSummary) -> int
    decreases t.len(),
{
    if t.len() == 0 {
        0
    } else if text_le(t.last().name@, x.name@) {
        t.len() as int
    } else {
        name_pos(t.drop_last(), x)
    }
}

/// `s` in name order, equal names in the order given.
pub open spec fn by_name(s: Seq<VarSummary>) -> Seq<VarSummary>
    decreases s.len(),
{
    if s.len() == 0 {
        s
    } else {
        let t = by_name(s.drop_last());
        t.insert(name_pos(t, s.last()), s.last())
    }
}

/// Summaries named as fields are keyed go in the same place.
proof fn lemma_pos_follows(u: Seq<Field>, t: Seq<VarSummary>, f: Field, x: VarSummary)
    requires
        u.len() == t.len(),
        forall|i: int| 0 <= i < t.len() ==> (#[trigger] t[i]).name@ == u[i].0,
        x.name@ == f.0,
    ensures
        name_pos(t, x) == key_pos(u, f),
        0 <= key_pos(u, f) <= u.len(),
    decreases t.len(),
{
    if t.len() > 0 {
        let t2 = t.drop_last();
        let u2 = u.drop_last();
        assert forall|i: int| 0 <= i < t2.len() implies (#[trigger] t2[i]).name@ == u2[i].0 by {
            assert(t2[i] == t[i]);
        }
        assert(t.last().name@ == u.last().0);
        lemma_pos_follows(u2, t2, f, x);
    }
}

/// Sorting summaries by name lists them as sorting their fields by key does.
proof fn lemma_by_name_follows(fields: Seq<Field>, listed: Seq<VarSummary>)
    requires
        listed.len() == fields.len(),
        forall|i: int| 0 <= i < fields.len() ==> export_summary(fields[i], #[trigger] listed[i]),
    ensures
        by_name(listed).len() == fields.len(),
        by_key(fields).len() == fields.len(),
        forall|i: int|
            0 <= i < fields.len() ==> export_summary(by_key(fields)[i], #[trigger] by_name(listed)[i]),
    decreases fields.len(),
{
    if fields.len() > 0 {
        let fd = fields.drop_last();
        let ld = listed.drop_last();
        assert forall|i: int| 0 <= i < fd.len() implies export_summary(fd[i], #[trigger] ld[i]) by {
            assert(ld[i] == listed[i]);
            assert(fd[i] == fields[i]);
        }
        lemma_by_name_follows(fd, ld);
        let t = by_name(ld);
        let u = by_key(fd);
        let f = fields.last();
        let x = listed.last();
        assert(export_summary(f, x));
        lemma_pos_follows(u, t, f, x);
        let p = key_pos(u, f);
        t.insert_ensures(p, x);
        u.insert_ensures(p, f);
        let t2 = t.insert(p, x);
        let u2 = u.insert(p, f);
        assert(by_name(listed) == t2);
        assert(by_key(fields) == u2);
        assert forall|i: int| 0 <= i < fields.len() implies export_summary(u2[i], #[trigger] t2[i]) by {
            if i < p {
                assert(t2[i] == t[i] && u2[i] == u[i]);
            } else if i > p {
                assert(t2[i] == t[i - 1] && u2[i] == u[i - 1]);
            }
        }
    }
}

/// The summaries in name order.
fn sort_by_name(vars: Vec<VarSummary>) -> (r: Vec<VarSummary>)
    ensures
        r@ == by_name(vars@),
{
    let ghost orig = vars@;
    let n = vars.len();
    let mut rest = vars;
    let mut out: Vec<VarSummary> = Vec::new();
    let mut i: usize = 0;
    while rest.len() > 0
        invariant
            n == orig.len(),
            i + rest@.len() == n,
            rest@ == orig.skip(i as int),
            out@ == by_name(orig.take(i as int)),
        decreases rest@.len(),
    {
        let x = rest.remove(0);
        proof {
            assert(orig.take(i + 1).drop_last() =~= orig.take(i as int));
            assert(orig.take(i + 1).last() == x);
            assert(rest@ =~= orig.skip(i + 1));
        }
        let mut p = out.len();
        assert(out@.take(p as int) =~= out@);
        while p > 0 && !text_at_most(out[p - 1].name.as_str(), x.name.as_str())
            invariant
                p <= out@.len(),
                name_pos(out@, x) == name_pos(out@.take(p as int), x),
            decreases p,
        {
            assert(out@.take(p as int).drop_last() =~= out@.take(p - 1));
            p -= 1;
        }
        proof {
            if p > 0 {
                assert(out@.take(p as int).last() == out@[p - 1]);
            }
        }
        out.insert(p, x);
        i += 1;
    }
    assert(orig.take(n as int) =~= orig);
    out
}

/// What a shell session has set: the directory first when it has one, then
/// each export it changed, in key order.
pub fn session_vars(exports: &EnvMap, inherited: &EnvMap, cwd: Option<String>) -> (r: Vec<
    VarSummary,
>)
    ensures
        ({
            let changed = by_key(changed_exports(exports.spec_fields(), inherited.spec_fields()));
            let skip: int = if cwd is Some {
                1
            } else {
                0
            };
            &&& r@.len() == changed.len() + skip
            &&& (cwd matches Some(c) ==> cwd_summary(c@, r@[0]))
            &&& forall|i: int| 0 <= i < changed.len() ==> export_summary(changed[i], #[trigger] r@[i + skip])
        }),
{
    let mut listed: Vec<VarSummary> = Vec::new();
    let pairs = exports.pairs();
    let ghost fields = exports.spec_fields();
    let ghost inh = inherited.spec_fields();
    let mut i: usize = 0;
    assert(fields.take(0) =~= Seq::<Field>::empty());
    while i < pairs.len()
        invariant
            i <= pairs@.len(),
            fields == exports.spec_fields(),
            inh == inherited.spec_fields(),
            pairs@.map_values(|f: (String, String)| (f.0@, f.1@)) == fields,
            listed@.len() == changed_exports(fields.take(i as int), inh).len(),
            forall|j: int|
                0 <= j < changed_exports(fields.take(i as int), inh).len() ==> export_summary(
                    changed_exports(fields.take(i as int), inh)[j],
                    #[trigger] listed@[j],
                ),
        decreases pairs@.len() - i,
    {
        let key = pairs[i].0.as_str();
        let value = pairs[i].1.as_str();
        proof {
            assert(fields[i as int] == (key@, value@));
            assert(fields.take(i + 1).drop_last() =~= fields.take(i as int));
            assert(fields.take(i + 1).last() == (key@, value@));
        }
        let same = match inherited.get(key) {
            Some(v) => same_text(v.as_str(), value),
            None => false,
        };
        if !same && !is_shell_owned(key) {
            let n = value.as_bytes().len();
            assert(value.spec_bytes() == bytes_of(value@));
            let ghost before = listed@;
            let ghost prev = changed_exports(fields.take(i as int), inh);
            listed.push(
                VarSummary {
                    name: owned(key),
                    value_type: owned("export"),
                    length: Some(n as u64),
                    size_bytes: Some(n as u64),
                    preview: Some(clip(value, 96)),
                },
            );
            proof {
                let now_changed = changed_exports(fields.take(i + 1), inh);
                assert(now_changed == prev.push((key@, value@)));
                assert forall|j: int| 0 <= j < now_changed.len() implies export_summary(
                    now_changed[j],
                    #[trigger] listed@[j],
                ) by {
                    if j < prev.len() {
                        assert(listed@[j] == before[j]);
                    }
                }
            }
        }
        i += 1;
    }
    assert(fields.take(pairs@.len() as int) =~= fields);
    let ghost changed = changed_exports(fields, inh);
    proof {
        lemma_by_name_follows(changed, listed@);
    }
    let mut out = sort_by_name(listed);
    match cwd {
        Some(c) => {
            let ghost sorted = out@;
            out.insert(
                0,
                VarSummary {
                    name: owned("PWD"),
                    value_type: owned("cwd"),
                    length: None,
                    size_bytes: None,
                    preview: Some(c),
                },
            );
            assert forall|j: int| 0 <= j < sorted.len() implies #[trigger] out@[j + 1] == sorted[j] by {}
        },
        None => {},
    }
    out
}

} // verus!
