//! Skill discovery, validation and precedence, per the Agent Skills standard.
//!
//! The standard is applied leniently: warn loudly, load anyway. A skill with a
//! bad name is still a skill somebody wrote; refusing it outright helps
//! nobody. The single hard failure is a missing description, because the
//! description is what decides when the skill loads: without it there is
//! nothing to route on.
use vstd::prelude::*;

use crate::error::{DomainError, Result};
use crate::search::{first_index, lemma_first_index_facts, lemma_first_index_scan};
use crate::text::{
    chars_of, decimal, decimal_text, owned, push_char, push_str, replace_char, replaced, same_text,
    string_of, trim, trimmed,
};

verus! {

#[derive(Debug, Clone, Copy, PartialEq, Eq, Structural)]
pub enum SkillKind {
    /// `SKILL.md` and whatever it references.
    Markdown,
    /// Also ships a package the kernel can import and call.
    Executable,
}

/// Where a skill came from. The order of this enum *is* the precedence
/// order: earlier wins.
#[derive(Debug, Clone, Copy, PartialEq, Eq, PartialOrd, Ord, Structural)]
pub enum SkillSource {
    /// Named explicitly on the command line. Always wins.
    Explicit,
    /// The skill directories of the project.
    Project,
    /// The skill directories in the home directory.
    Personal,
    /// Discovered inside a dependency.
    Package,
    /// Shipped with this binary. Lowest, so anything a user writes overrides it.
    Builtin,
}

impl SkillSource {
    /// Position in the precedence order, 0 for the strongest.
    pub open spec fn rank(self) -> int {
        match self {
            SkillSource::Explicit => 0,
            SkillSource::Project => 1,
            SkillSource::Personal => 2,
            SkillSource::Package => 3,
            SkillSource::Builtin => 4,
        }
    }

    pub fn precedence(self) -> (r: u8)
        ensures
            r == self.rank(),
    {
        match self {
            SkillSource::Explicit => 0,
            SkillSource::Project => 1,
            SkillSource::Personal => 2,
            SkillSource::Package => 3,
            SkillSource::Builtin => 4,
        }
    }

    pub open spec fn spec_label(self) -> Seq<char> {
        match self {
            SkillSource::Explicit => "explicit"@,
            SkillSource::Project => "project"@,
            SkillSource::Personal => "personal"@,
            SkillSource::Package => "package"@,
            SkillSource::Builtin => "builtin"@,
        }
    }

    pub fn label(self) -> (r: &'static str)
        ensures
            r@ == self.spec_label(),
    {
        match self {
            SkillSource::Explicit => "explicit",
            SkillSource::Project => "project",
            SkillSource::Personal => "personal",
            SkillSource::Package => "package",
            SkillSource::Builtin => "builtin",
        }
    }
}

pub const MAX_SKILL_NAME: usize = 64;

pub const MAX_SKILL_DESCRIPTION: usize = 1024;

pub const MAX_SKILL_COMPATIBILITY: usize = 500;

/// A parsed `SKILL.md`.
#[derive(Debug, Clone, PartialEq, Eq)]
pub struct SkillManifest {
    pub name: String,
    pub description: String,
    pub kind: SkillKind,
    pub source: SkillSource,
    pub path: String,
    pub license: Option<String>,
    pub compatibility: Option<String>,
    pub allowed_tools: Vec<String>,
    /// Hidden from the startup list; reachable only by explicit invocation.
    pub disable_model_invocation: bool,
    /// The import name for an executable skill: hyphens become underscores.
    pub import_name: Option<String>,
    pub warnings: Vec<String>,
}

impl SkillManifest {
    pub open spec fn spec_prompt_line(self) -> Seq<char> {
        "<skill name=\""@ + self.name@ + "\" source=\""@ + self.source.spec_label() + "\">"@
            + self.description@ + "</skill>"@
    }

    /// The XML line placed in a startup prompt. Only this, never the body,
    /// so a hundred installed skills cost a hundred lines, not a hundred files.
    pub fn prompt_line(&self) -> (r: String)
        ensures
            r@ == self.spec_prompt_line(),
    {
        let mut out = owned("<skill name=\"");
        push_str(&mut out, self.name.as_str());
        push_str(&mut out, "\" source=\"");
        push_str(&mut out, self.source.label());
        push_str(&mut out, "\">");
        push_str(&mut out, self.description.as_str());
        push_str(&mut out, "</skill>");
        out
    }

    /// The import name for an executable skill: hyphens become underscores.
    pub fn import_name_for(name: &str) -> (r: String)
        ensures
            r@ == replace_char(name@, '-', '_'),
    {
        let chars = chars_of(name);
        let out = replaced(chars.as_slice(), '-', '_');
        string_of(out.as_slice())
    }
}

/// A character the standard allows in a name.
pub open spec fn name_char_ok(c: char) -> bool {
    (97 <= (c as u32) <= 122) || (48 <= (c as u32) <= 57) || c == '-'
}

/// Two hyphens stand next to each other.
pub open spec fn has_double_hyphen(s: Seq<char>) -> bool {
    exists|i: int| 0 <= i < s.len() - 1 && #[trigger] s[i] == '-' && s[i + 1] == '-'
}

/// `list` with `w` added when `cond` holds.
pub open spec fn push_if(list: Seq<Seq<char>>, cond: bool, w: Seq<char>) -> Seq<Seq<char>> {
    if cond {
        list.push(w)
    } else {
        list
    }
}

/// The warnings `check` reports for a name, a trimmed description and a
/// directory, in the order it reports them.
pub open spec fn skill_warnings(name: Seq<char>, description: Seq<char>, directory: Option<Seq<char>>) -> Seq<
    Seq<char>,
> {
    let w0 = Seq::<Seq<char>>::empty();
    let w1 = push_if(
        w0,
        description.len() > MAX_SKILL_DESCRIPTION,
        "description is "@ + decimal(description.len()) + " characters; the standard allows 1024"@,
    );
    let w2 = push_if(w1, name.len() == 0, "skill has no name"@);
    let w3 = push_if(
        w2,
        name.len() > MAX_SKILL_NAME,
        "name is "@ + decimal(name.len()) + " characters; the standard allows 64"@,
    );
    let w4 = push_if(
        w3,
        exists|i: int| 0 <= i < name.len() && !name_char_ok(#[trigger] name[i]),
        "name '"@ + name + "' should use only lowercase letters, digits and hyphens"@,
    );
    let w5 = push_if(
        w4,
        name.len() > 0 && (name[0] == '-' || name.last() == '-'),
        "name '"@ + name + "' should not start or end with a hyphen"@,
    );
    let w6 = push_if(w5, has_double_hyphen(name), "name '"@ + name + "' has consecutive hyphens"@);
    match directory {
        Some(d) => push_if(
            w6,
            d.len() > 0 && d != name,
            "name '"@ + name + "' does not match its directory '"@ + d + "'"@,
        ),
        None => w6,
    }
}

/// The result of checking a manifest: what is wrong, and whether it is fatal.
#[derive(Debug, Clone, PartialEq, Eq)]
pub struct Validation {
    pub warnings: Vec<String>,
}

/// The views of a list of strings.
pub open spec fn texts(v: Seq<String>) -> Seq<Seq<char>> {
    v.map_values(|s: String| s@)
}

/// Pushes `s` and keeps the views in step.
fn push_text(list: &mut Vec<String>, s: String)
    ensures
        texts(final(list)@) == texts(old(list)@).push(s@),
{
    list.push(s);
    assert(texts(list@) =~= texts(old(list)@).push(s@));
}

/// The name as quoted in a warning, followed by `tail`.
fn name_warning(name: &str, tail: &str) -> (r: String)
    ensures
        r@ == "name '"@ + name@ + tail@,
{
    let mut m = owned("name '");
    push_str(&mut m, name);
    push_str(&mut m, tail);
    m
}

impl Validation {
    pub fn is_clean(&self) -> (r: bool)
        ensures
            r == (self.warnings@.len() == 0),
    {
        self.warnings.len() == 0
    }

    /// Validates name and description against the standard.
    ///
    /// Returns `Err` only for a missing description: the one condition that
    /// makes a skill unusable rather than merely non-conforming.
    pub fn check(name: &str, description: &str, directory: Option<&str>) -> (r: Result<Validation>)
        ensures
            match r {
                Ok(v) => trim(description@).len() > 0 && texts(v.warnings@) == skill_warnings(
                    name@,
                    trim(description@),
                    match directory {
                        Some(d) => Some(d@),
                        None => None,
                    },
                ),
                Err(e) => trim(description@).len() == 0 && e is Invalid,
            },
    {
        let desc = trimmed(description);
        if desc.len() == 0 {
            return Err(
                DomainError::invalid(
                    "a skill needs a description; it is what decides when the skill loads",
                ),
            );
        }
        let chars = chars_of(name);
        let mut warnings: Vec<String> = Vec::new();
        assert(texts(warnings@) =~= Seq::<Seq<char>>::empty());
        if desc.len() > MAX_SKILL_DESCRIPTION {
            let mut m = owned("description is ");
            let n = decimal_text(desc.len() as u64);
            push_str(&mut m, n.as_str());
            push_str(&mut m, " characters; the standard allows 1024");
            push_text(&mut warnings, m);
        }
        if chars.len() == 0 {
            push_text(&mut warnings, owned("skill has no name"));
        }
        if chars.len() > MAX_SKILL_NAME {
            let mut m = owned("name is ");
            let n = decimal_text(chars.len() as u64);
            push_str(&mut m, n.as_str());
            push_str(&mut m, " characters; the standard allows 64");
            push_text(&mut warnings, m);
        }
        let mut bad = false;
        let mut double = false;
        let mut i: usize = 0;
        while i < chars.len()
            invariant
                i <= chars.len(),
                bad == exists|k: int| 0 <= k < i && !name_char_ok(#[trigger] chars@[k]),
                double == exists|k: int|
                    0 <= k < i - 1 && #[trigger] chars@[k] == '-' && chars@[k + 1] == '-',
            decreases chars.len() - i,
        {
            let c = chars[i];
            let n = c as u32;
            let ok = (97 <= n && n <= 122) || (48 <= n && n <= 57) || c == '-';
            if !ok {
                bad = true;
            }
            if i > 0 && c == '-' && chars[i - 1] == '-' {
                double = true;
                assert(chars@[i - 1] == '-' && chars@[(i - 1) + 1] == '-');
            }
            proof {
                if !ok {
                    assert(!name_char_ok(chars@[i as int]));
                }
                if double {
                    let k = choose|k: int|
                        0 <= k < i + 1 - 1 && #[trigger] chars@[k] == '-' && chars@[k + 1] == '-';
                }
            }
            i += 1;
        }
        if bad {
            push_text(
                &mut warnings,
                name_warning(name, "' should use only lowercase letters, digits and hyphens"),
            );
        }
        if chars.len() > 0 && (chars[0] == '-' || chars[chars.len() - 1] == '-') {
            push_text(&mut warnings, name_warning(name, "' should not start or end with a hyphen"));
        }
        if double {
            push_text(&mut warnings, name_warning(name, "' has consecutive hyphens"));
        }
        match directory {
            Some(dir) => {
                let d = chars_of(dir);
                if d.len() > 0 && !same_text(dir, name) {
                    let mut m = name_warning(name, "' does not match its directory '");
                    push_str(&mut m, dir);
                    push_str(&mut m, "'");
                    push_text(&mut warnings, m);
                }
            },
            None => {},
        }
        Ok(Validation { warnings })
    }
}

/// Lexicographic order on characters by code point, the order `str`
/// comparison gives.
pub open spec fn text_le(a: Seq<char>, b: Seq<char>) -> bool
    decreases a.len(),
{
    if a.len() == 0 {
        true
    } else if b.len() == 0 {
        false
    } else if a[0] != b[0] {
        (a[0] as u32) < (b[0] as u32)
    } else {
        text_le(a.drop_first(), b.drop_first())
    }
}

pub proof fn lemma_text_le_total(a: Seq<char>, b: Seq<char>)
    ensures
        text_le(a, b) || text_le(b, a),
    decreases a.len(),
{
    if a.len() > 0 && b.len() > 0 {
        if a[0] == b[0] {
            lemma_text_le_total(a.drop_first(), b.drop_first());
        } else {
            vstd::utf8::char_u32_cast(a[0], a[0] as u32);
            vstd::utf8::char_u32_cast(b[0], b[0] as u32);
        }
    }
}

pub proof fn lemma_text_le_transitive(a: Seq<char>, b: Seq<char>, c: Seq<char>)
    requires
        text_le(a, b),
        text_le(b, c),
    ensures
        text_le(a, c),
    decreases a.len(),
{
    if a.len() > 0 && b.len() > 0 && c.len() > 0 && a[0] == b[0] && b[0] == c[0] {
        lemma_text_le_transitive(a.drop_first(), b.drop_first(), c.drop_first());
    }
}

pub proof fn lemma_text_le_antisymmetric(a: Seq<char>, b: Seq<char>)
    requires
        text_le(a, b),
        text_le(b, a),
    ensures
        a == b,
    decreases a.len(),
{
    if a.len() > 0 && b.len() > 0 {
        lemma_text_le_antisymmetric(a.drop_first(), b.drop_first());
        assert(a =~= seq![a[0]] + a.drop_first());
        assert(b =~= seq![b[0]] + b.drop_first());
    }
}

/// Compares two strings in `str` order.
pub fn text_at_most(a: &str, b: &str) -> (r: bool)
    ensures
        r == text_le(a@, b@),
{
    let x = chars_of(a);
    let y = chars_of(b);
    let mut i: usize = 0;
    assert(x@.skip(0) =~= x@);
    assert(y@.skip(0) =~= y@);
    while i < x.len() && i < y.len()
        invariant
            x@ == a@,
            y@ == b@,
            i <= x.len(),
            i <= y.len(),
            text_le(x@, y@) == text_le(x@.skip(i as int), y@.skip(i as int)),
        decreases x.len() - i,
    {
        assert(x@.skip(i as int)[0] == x@[i as int]);
        assert(y@.skip(i as int)[0] == y@[i as int]);
        if x[i] != y[i] {
            return (x[i] as u32) < (y[i] as u32);
        }
        assert(x@.skip(i as int).drop_first() =~= x@.skip(i + 1));
        assert(y@.skip(i as int).drop_first() =~= y@.skip(i + 1));
        i += 1;
    }
    assert(i == x.len() ==> x@.skip(i as int).len() == 0);
    i == x.len()
}

/// The order manifests are considered in: by source precedence then name
/// when `by_source`, by name alone otherwise.
pub open spec fn key_le(by_source: bool, a: SkillManifest, b: SkillManifest) -> bool {
    if by_source {
        a.source.rank() < b.source.rank() || (a.source.rank() == b.source.rank() && text_le(
            a.name@,
            b.name@,
        ))
    } else {
        text_le(a.name@, b.name@)
    }
}

pub proof fn lemma_key_le_total(by_source: bool, a: SkillManifest, b: SkillManifest)
    ensures
        key_le(by_source, a, b) || key_le(by_source, b, a),
{
    lemma_text_le_total(a.name@, b.name@);
}

pub proof fn lemma_key_le_transitive(
    by_source: bool,
    a: SkillManifest,
    b: SkillManifest,
    c: SkillManifest,
)
    requires
        key_le(by_source, a, b),
        key_le(by_source, b, c),
    ensures
        key_le(by_source, a, c),
{
    if text_le(a.name@, b.name@) && text_le(b.name@, c.name@) {
        lemma_text_le_transitive(a.name@, b.name@, c.name@);
    }
}

fn manifest_at_most(by_source: bool, a: &SkillManifest, b: &SkillManifest) -> (r: bool)
    ensures
        r == key_le(by_source, *a, *b),
{
    if by_source {
        let ra = a.source.precedence();
        let rb = b.source.precedence();
        ra < rb || (ra == rb && text_at_most(a.name.as_str(), b.name.as_str()))
    } else {
        text_at_most(a.name.as_str(), b.name.as_str())
    }
}

/// Where a stable insertion puts `x` into `t`: after every element that is
/// at most `x`, counting from the end.
pub open spec fn insert_pos(t: Seq<SkillManifest>, x: SkillManifest, by_source: bool) -> int
    decreases t.len(),
{
    if t.len() == 0 {
        0
    } else if key_le(by_source, t.last(), x) {
        t.len() as int
    } else {
        insert_pos(t.drop_last(), x, by_source)
    }
}

/// The stable sort of `s`: equal keys keep their order in `s`.
pub open spec fn sorted_by(s: Seq<SkillManifest>, by_source: bool) -> Seq<SkillManifest>
    decreases s.len(),
{
    if s.len() == 0 {
        s
    } else {
        let t = sorted_by(s.drop_last(), by_source);
        t.insert(insert_pos(t, s.last(), by_source), s.last())
    }
}

pub proof fn lemma_insert_pos_bounds(t: Seq<SkillManifest>, x: SkillManifest, by_source: bool)
    ensures
        0 <= insert_pos(t, x, by_source) <= t.len(),
    decreases t.len(),
{
    if t.len() > 0 {
        lemma_insert_pos_bounds(t.drop_last(), x, by_source);
    }
}

pub proof fn lemma_sorted_by_len(s: Seq<SkillManifest>, by_source: bool)
    ensures
        sorted_by(s, by_source).len() == s.len(),
    decreases s.len(),
{
    if s.len() > 0 {
        lemma_sorted_by_len(s.drop_last(), by_source);
        lemma_insert_pos_bounds(sorted_by(s.drop_last(), by_source), s.last(), by_source);
    }
}

/// Sorts manifests stably.
fn sort_manifests(v: Vec<SkillManifest>, by_source: bool) -> (r: Vec<SkillManifest>)
    ensures
        r@ == sorted_by(v@, by_source),
{
    let ghost orig = v@;
    let n = v.len();
    let mut rest = v;
    let mut out: Vec<SkillManifest> = Vec::new();
    let mut i: usize = 0;
    while rest.len() > 0
        invariant
            orig.len() <= usize::MAX,
            i + rest@.len() == orig.len(),
            rest@ == orig.skip(i as int),
            out@ == sorted_by(orig.take(i as int), by_source),
        decreases rest@.len(),
    {
        let x = rest.remove(0);
        proof {
            assert(orig.take(i + 1).drop_last() =~= orig.take(i as int));
            assert(orig.take(i + 1).last() == x);
            assert(rest@ =~= orig.skip(i + 1));
            lemma_insert_pos_bounds(out@, x, by_source);
        }
        let mut p = out.len();
        assert(out@.take(p as int) =~= out@);
        while p > 0 && !manifest_at_most(by_source, &out[p - 1], &x)
            invariant
                p <= out@.len(),
                insert_pos(out@, x, by_source) == insert_pos(out@.take(p as int), x, by_source),
            decreases p,
        {
            assert(out@.take(p as int).drop_last() =~= out@.take(p - 1));
            p -= 1;
        }
        proof {
            if p > 0 {
                assert(out@.take(p as int).last() == out@[p - 1]);
            }
        }
        out.insert(p, x);
        i += 1;
    }
    assert(orig.take(i as int) =~= orig);
    out
}

/// The note left when `loser` is dropped in favour of `winner`.
pub open spec fn collision_note(winner: SkillManifest, loser: SkillManifest) -> Seq<char> {
    if winner.source == loser.source {
        "two '"@ + loser.name@ + "' skills in "@ + loser.source.spec_label() + " scope; kept "@
            + winner.path@ + ", ignored "@ + loser.path@
    } else {
        "'"@ + loser.name@ + "' from "@ + winner.source.spec_label() + " overrides the "@
            + loser.source.spec_label() + " one at "@ + loser.path@
    }
}

/// The position of the kept manifest named `name`.
pub open spec fn named_in(kept: Seq<SkillManifest>, name: Seq<char>) -> Option<int> {
    first_index(kept, |k: SkillManifest| k.name@ == name)
}

/// Going through `s` in order: the first manifest of each name is kept, each
/// later one leaves a note.
pub open spec fn first_of_each(s: Seq<SkillManifest>) -> (Seq<SkillManifest>, Seq<Seq<char>>)
    decreases s.len(),
{
    if s.len() == 0 {
        (Seq::empty(), Seq::empty())
    } else {
        let (kept, notes) = first_of_each(s.drop_last());
        let m = s.last();
        match named_in(kept, m.name@) {
            Some(i) => (kept, notes.push(collision_note(kept[i], m))),
            None => (kept.push(m), notes),
        }
    }
}

/// What `resolve_collisions` returns for `manifests`.
pub open spec fn resolution(manifests: Seq<SkillManifest>) -> (Seq<SkillManifest>, Seq<Seq<char>>) {
    let (kept, notes) = first_of_each(sorted_by(manifests, true));
    (sorted_by(kept, false), notes)
}

/// The note `collision_note` describes, as text.
fn note_for(winner: &SkillManifest, loser: &SkillManifest) -> (r: String)
    ensures
        r@ == collision_note(*winner, *loser),
{
    if winner.source == loser.source {
        let mut m = owned("two '");
        push_str(&mut m, loser.name.as_str());
        push_str(&mut m, "' skills in ");
        push_str(&mut m, loser.source.label());
        push_str(&mut m, " scope; kept ");
        push_str(&mut m, winner.path.as_str());
        push_str(&mut m, ", ignored ");
        push_str(&mut m, loser.path.as_str());
        m
    } else {
        let mut m = owned("'");
        push_str(&mut m, loser.name.as_str());
        push_str(&mut m, "' from ");
        push_str(&mut m, winner.source.label());
        push_str(&mut m, " overrides the ");
        push_str(&mut m, loser.source.label());
        push_str(&mut m, " one at ");
        push_str(&mut m, loser.path.as_str());
        m
    }
}

fn find_named(kept: &Vec<SkillManifest>, name: &str) -> (r: Option<usize>)
    ensures
        match r {
            Some(i) => i < kept@.len() && named_in(kept@, name@) == Some(i as int),
            None => named_in(kept@, name@) is None,
        },
{
    let ghost p = |k: SkillManifest| k.name@ == name@;
    let mut i: usize = 0;
    while i < kept.len()
        invariant
            i <= kept@.len(),
            p == (|k: SkillManifest| k.name@ == name@),
            forall|k: int| 0 <= k < i ==> !p(#[trigger] kept@[k]),
        decreases kept@.len() - i,
    {
        if same_text(kept[i].name.as_str(), name) {
            proof {
                lemma_first_index_scan(kept@, p, i as int);
            }
            return Some(i);
        }
        i += 1;
    }
    proof {
        lemma_first_index_scan(kept@, p, i as int);
    }
    None
}

/// Resolves name collisions across sources.
///
/// Same source, same name: the first one found wins and the loser is
/// reported. Different sources: the higher-precedence source wins, because
/// that is the whole point of having precedence. The survivors come back in
/// name order.
pub fn resolve_collisions(manifests: Vec<SkillManifest>) -> (r: (Vec<SkillManifest>, Vec<String>))
    ensures
        (r.0@, texts(r.1@)) == resolution(manifests@),
{
    let sorted = sort_manifests(manifests, true);
    let ghost order = sorted@;
    let n = sorted.len();
    let mut rest = sorted;
    let mut kept: Vec<SkillManifest> = Vec::new();
    let mut notes: Vec<String> = Vec::new();
    let mut i: usize = 0;
    assert(texts(notes@) =~= Seq::<Seq<char>>::empty());
    while rest.len() > 0
        invariant
            order.len() <= usize::MAX,
            i + rest@.len() == order.len(),
            rest@ == order.skip(i as int),
            first_of_each(order.take(i as int)) == (kept@, texts(notes@)),
        decreases rest@.len(),
    {
        let m = rest.remove(0);
        proof {
            assert(order.take(i + 1).drop_last() =~= order.take(i as int));
            assert(order.take(i + 1).last() == m);
            assert(rest@ =~= order.skip(i + 1));
        }
        match find_named(&kept, m.name.as_str()) {
            Some(w) => {
                let note = note_for(&kept[w], &m);
                push_text(&mut notes, note);
            },
            None => {
                kept.push(m);
            },
        }
        i += 1;
    }
    assert(order.take(i as int) =~= order);
    (sort_manifests(kept, false), notes)
}

/// Every element is at most every later one.
pub open spec fn is_sorted(s: Seq<SkillManifest>, by_source: bool) -> bool {
    forall|i: int, j: int| 0 <= i < j < s.len() ==> key_le(by_source, #[trigger] s[i], #[trigger] s[j])
}

/// No two elements share a name.
pub open spec fn names_distinct(s: Seq<SkillManifest>) -> bool {
    forall|i: int, j: int| 0 <= i < j < s.len() ==> (#[trigger] s[i]).name@ != (#[trigger] s[j]).name@
}

pub proof fn lemma_insert_pos_facts(t: Seq<SkillManifest>, x: SkillManifest, by_source: bool)
    ensures
        0 <= insert_pos(t, x, by_source) <= t.len(),
        insert_pos(t, x, by_source) > 0 ==> key_le(by_source, t[insert_pos(t, x, by_source) - 1], x),
        forall|k: int|
            insert_pos(t, x, by_source) <= k < t.len() ==> !key_le(by_source, #[trigger] t[k], x),
    decreases t.len(),
{
    if t.len() > 0 && !key_le(by_source, t.last(), x) {
        lemma_insert_pos_facts(t.drop_last(), x, by_source);
        let p = insert_pos(t, x, by_source);
        assert forall|k: int| p <= k < t.len() implies !key_le(by_source, #[trigger] t[k], x) by {
            if k < t.len() - 1 {
                assert(t[k] == t.drop_last()[k]);
            }
        }
        if p > 0 {
            assert(t[p - 1] == t.drop_last()[p - 1]);
        }
    }
}

/// The stable sort orders its result.
pub proof fn lemma_sorted_by_sorted(s: Seq<SkillManifest>, by_source: bool)
    ensures
        is_sorted(sorted_by(s, by_source), by_source),
    decreases s.len(),
{
    if s.len() > 0 {
        lemma_sorted_by_sorted(s.drop_last(), by_source);
        let t = sorted_by(s.drop_last(), by_source);
        let x = s.last();
        let p = insert_pos(t, x, by_source);
        lemma_insert_pos_facts(t, x, by_source);
        t.insert_ensures(p, x);
        let r = t.insert(p, x);
        assert forall|i: int, j: int| 0 <= i < j < r.len() implies key_le(
            by_source,
            #[trigger] r[i],
            #[trigger] r[j],
        ) by {
            if j < p {
                assert(r[i] == t[i] && r[j] == t[j]);
            } else if j == p {
                assert(r[i] == t[i]);
                if i < p - 1 {
                    lemma_key_le_transitive(by_source, t[i], t[p - 1], x);
                }
            } else if i < p {
                assert(r[i] == t[i] && r[j] == t[j - 1]);
            } else if i == p {
                assert(r[j] == t[j - 1]);
                lemma_key_le_total(by_source, t[j - 1], x);
            } else {
                assert(r[i] == t[i - 1] && r[j] == t[j - 1]);
            }
        }
    }
}

/// The stable sort keeps exactly the elements it was given.
pub proof fn lemma_sorted_by_members(s: Seq<SkillManifest>, by_source: bool)
    ensures
        sorted_by(s, by_source).len() == s.len(),
        forall|y: SkillManifest| #[trigger] sorted_by(s, by_source).contains(y) <==> s.contains(y),
    decreases s.len(),
{
    if s.len() > 0 {
        lemma_sorted_by_members(s.drop_last(), by_source);
        let t = sorted_by(s.drop_last(), by_source);
        let x = s.last();
        let p = insert_pos(t, x, by_source);
        lemma_insert_pos_facts(t, x, by_source);
        t.insert_ensures(p, x);
        let r = t.insert(p, x);
        assert forall|y: SkillManifest| #[trigger] r.contains(y) <==> s.contains(y) by {
            if r.contains(y) {
                let k = choose|k: int| 0 <= k < r.len() && r[k] == y;
                if k < p {
                    assert(t[k] == y);
                    assert(t.contains(y));
                    let m = choose|m: int| 0 <= m < s.drop_last().len() && s.drop_last()[m] == y;
                    assert(s[m] == y);
                } else if k == p {
                    assert(s[s.len() - 1] == y);
                } else {
                    assert(t[k - 1] == y);
                    assert(t.contains(y));
                    let m = choose|m: int| 0 <= m < s.drop_last().len() && s.drop_last()[m] == y;
                    assert(s[m] == y);
                }
            }
            if s.contains(y) {
                let m = choose|m: int| 0 <= m < s.len() && s[m] == y;
                if m == s.len() - 1 {
                    assert(r[p] == y);
                } else {
                    assert(s.drop_last()[m] == y);
                    assert(s.drop_last().contains(y));
                    assert(t.contains(y));
                    let k = choose|k: int| 0 <= k < t.len() && t[k] == y;
                    if k < p {
                        assert(r[k] == y);
                    } else {
                        assert(r[k + 1] == y);
                    }
                }
            }
        }
    }
}

/// The stable sort keeps names distinct.
pub proof fn lemma_sorted_by_distinct(s: Seq<SkillManifest>, by_source: bool)
    requires
        names_distinct(s),
    ensures
        names_distinct(sorted_by(s, by_source)),
    decreases s.len(),
{
    if s.len() > 0 {
        let d = s.drop_last();
        assert(names_distinct(d)) by {
            assert forall|i: int, j: int| 0 <= i < j < d.len() implies (#[trigger] d[i]).name@
                != (#[trigger] d[j]).name@ by {
                assert(d[i] == s[i] && d[j] == s[j]);
            }
        }
        lemma_sorted_by_distinct(d, by_source);
        lemma_sorted_by_members(d, by_source);
        let t = sorted_by(d, by_source);
        let x = s.last();
        let p = insert_pos(t, x, by_source);
        lemma_insert_pos_facts(t, x, by_source);
        t.insert_ensures(p, x);
        let r = t.insert(p, x);
        assert forall|k: int| 0 <= k < t.len() implies (#[trigger] t[k]).name@ != x.name@ by {
            assert(t.contains(t[k]));
            assert(d.contains(t[k]));
            let m = choose|m: int| 0 <= m < d.len() && d[m] == t[k];
            assert(s[m] == t[k]);
        }
        assert forall|i: int, j: int| 0 <= i < j < r.len() implies (#[trigger] r[i]).name@
            != (#[trigger] r[j]).name@ by {
            if j < p {
                assert(r[i] == t[i] && r[j] == t[j]);
            } else if j == p {
                assert(r[i] == t[i]);
            } else if i < p {
                assert(r[i] == t[i] && r[j] == t[j - 1]);
            } else if i == p {
                assert(r[j] == t[j - 1]);
            } else {
                assert(r[i] == t[i - 1] && r[j] == t[j - 1]);
            }
        }
    }
}

/// `kept` holds an element found in `s` at or before position `j` with the
/// name of `s[j]`.
pub open spec fn kept_from_before(kept: Seq<SkillManifest>, s: Seq<SkillManifest>, j: int) -> bool {
    exists|i: int, m: int|
        #![trigger kept[i], s[m]]
        0 <= i < kept.len() && 0 <= m <= j && kept[i] == s[m] && kept[i].name@ == s[j].name@
}

/// What `first_of_each` keeps: elements of its input, one per name, and a
/// kept element for every name of the input, found at or before it.
pub proof fn lemma_first_of_each(s: Seq<SkillManifest>)
    ensures
        names_distinct(first_of_each(s).0),
        forall|y: SkillManifest| #[trigger] first_of_each(s).0.contains(y) ==> s.contains(y),
        forall|j: int| 0 <= j < s.len() ==> #[trigger] kept_from_before(first_of_each(s).0, s, j),
    decreases s.len(),
{
    if s.len() > 0 {
        let d = s.drop_last();
        lemma_first_of_each(d);
        let kept = first_of_each(d).0;
        let x = s.last();
        let p = |k: SkillManifest| k.name@ == x.name@;
        lemma_first_index_facts(kept, p);
        let out = first_of_each(s).0;
        assert forall|y: SkillManifest| #[trigger] out.contains(y) implies s.contains(y) by {
            if kept.contains(y) {
                let m = choose|m: int| 0 <= m < d.len() && d[m] == y;
                assert(s[m] == y);
            } else {
                assert(y == x);
                assert(s[s.len() - 1] == y);
            }
        }
        assert forall|j: int| 0 <= j < s.len() implies #[trigger] kept_from_before(out, s, j) by {
            if j < s.len() - 1 {
                assert(d[j] == s[j]);
                assert(kept_from_before(kept, d, j));
                let (i, m) = choose|i: int, m: int|
                    #![trigger kept[i], d[m]]
                    0 <= i < kept.len() && 0 <= m <= j && kept[i] == d[m] && kept[i].name@
                        == d[j].name@;
                assert(out[i] == kept[i]);
                assert(d[m] == s[m]);
                assert(out[i] == s[m]);
            } else {
                match named_in(kept, x.name@) {
                    Some(i) => {
                        assert(kept.contains(kept[i]));
                        let m = choose|m: int| 0 <= m < d.len() && d[m] == kept[i];
                        assert(s[m] == kept[i]);
                        assert(out[i] == kept[i]);
                        assert(out[i] == s[m]);
                    },
                    None => {
                        assert(out[kept.len() as int] == x);
                        assert(out[kept.len() as int] == s[s.len() - 1]);
                    },
                }
            }
        }
    }
}

/// Going through `s`, every manifest is either kept or leaves a note.
pub proof fn lemma_first_of_each_counts(s: Seq<SkillManifest>)
    ensures
        first_of_each(s).0.len() + first_of_each(s).1.len() == s.len(),
    decreases s.len(),
{
    if s.len() > 0 {
        lemma_first_of_each_counts(s.drop_last());
    }
}

/// Nothing is lost in resolving collisions: the skills kept and the notes
/// left together number the manifests offered.
pub proof fn lemma_resolution_counts(manifests: Seq<SkillManifest>)
    ensures
        resolution(manifests).0.len() + resolution(manifests).1.len() == manifests.len(),
{
    let order = sorted_by(manifests, true);
    lemma_sorted_by_members(manifests, true);
    lemma_first_of_each_counts(order);
    lemma_sorted_by_members(first_of_each(order).0, false);
}

/// Names in strictly ascending order: each before the next, none repeated.
pub open spec fn strictly_ascending(s: Seq<SkillManifest>) -> bool {
    forall|i: int, j: int|
        0 <= i < j < s.len() ==> text_le((#[trigger] s[i]).name@, (#[trigger] s[j]).name@) && s[i].name@
            != s[j].name@
}

/// Precedence: the manifests `resolve_collisions` keeps come back with their
/// names strictly ascending; each is one of the manifests offered; every
/// name offered is kept; and the one kept for a name comes from a source at
/// least as strong as any other offering that name, so a user's skill
/// overrides a builtin of the same name.
pub proof fn lemma_resolution_precedence(manifests: Seq<SkillManifest>)
    ensures
        strictly_ascending(resolution(manifests).0),
        forall|i: int|
            0 <= i < resolution(manifests).0.len() ==> manifests.contains(
                #[trigger] resolution(manifests).0[i],
            ),
        forall|j: int|
            0 <= j < manifests.len() ==> exists|i: int|
                0 <= i < resolution(manifests).0.len() && (#[trigger] resolution(manifests).0[i]).name@
                    == (#[trigger] manifests[j]).name@,
        forall|i: int, j: int|
            0 <= i < resolution(manifests).0.len() && 0 <= j < manifests.len() && (#[trigger] resolution(
                manifests,
            ).0[i]).name@ == (#[trigger] manifests[j]).name@ ==> resolution(manifests).0[i].source.rank()
                <= manifests[j].source.rank(),
{
    let order = sorted_by(manifests, true);
    lemma_sorted_by_sorted(manifests, true);
    lemma_sorted_by_members(manifests, true);
    lemma_first_of_each(order);
    let kept = first_of_each(order).0;
    let out = sorted_by(kept, false);
    lemma_sorted_by_distinct(kept, false);
    lemma_sorted_by_sorted(kept, false);
    lemma_sorted_by_members(kept, false);
    assert(resolution(manifests).0 == out);
    assert forall|j: int| 0 <= j < manifests.len() implies exists|i: int|
        0 <= i < out.len() && (#[trigger] out[i]).name@ == (#[trigger] manifests[j]).name@
            && out[i].source.rank() <= manifests[j].source.rank() by {
        assert(manifests.contains(manifests[j]));
        assert(order.contains(manifests[j]));
        let q = choose|q: int| 0 <= q < order.len() && order[q] == manifests[j];
        assert(kept_from_before(kept, order, q));
        let (i, m) = choose|i: int, m: int|
            #![trigger kept[i], order[m]]
            0 <= i < kept.len() && 0 <= m <= q && kept[i] == order[m] && kept[i].name@
                == order[q].name@;
        if m < q {
            assert(key_le(true, order[m], order[q]));
        }
        assert(kept.contains(kept[i]));
        assert(out.contains(kept[i]));
        let k = choose|k: int| 0 <= k < out.len() && out[k] == kept[i];
        assert(out[k].name@ == manifests[j].name@);
        assert(out[k].source.rank() <= manifests[j].source.rank());
    }
    assert forall|i: int| 0 <= i < out.len() implies manifests.contains(#[trigger] out[i]) by {
        assert(out.contains(out[i]));
        assert(kept.contains(out[i]));
        assert(order.contains(out[i]));
    }
    assert forall|i: int, j: int|
        0 <= i < out.len() && 0 <= j < manifests.len() && (#[trigger] out[i]).name@
            == (#[trigger] manifests[j]).name@ implies out[i].source.rank()
        <= manifests[j].source.rank() by {
        let k = choose|k: int|
            0 <= k < out.len() && out[k].name@ == manifests[j].name@ && out[k].source.rank()
                <= manifests[j].source.rank();
        if k != i {
            if k < i {
                assert(out[k].name@ != out[i].name@);
            } else {
                assert(out[i].name@ != out[k].name@);
            }
        }
    }
}


/// `s[p]` is the first element of `s` with its name and source.
pub open spec fn first_in_class(s: Seq<SkillManifest>, p: int) -> bool {
    &&& 0 <= p < s.len()
    &&& forall|j: int|
        #![trigger s[j]]
        0 <= j < p ==> !(s[j].name@ == s[p].name@ && s[j].source == s[p].source)
}

/// The sort by source keeps, for each name and source, the first such
/// element of its input first.
proof fn lemma_sorted_first_in_class(s: Seq<SkillManifest>, q: int)
    requires
        first_in_class(sorted_by(s, true), q),
    ensures
        exists|p: int| #[trigger] first_in_class(s, p) && s[p] == sorted_by(s, true)[q],
    decreases s.len(),
{
    let d = s.drop_last();
    let t = sorted_by(d, true);
    let x = s.last();
    let pos = insert_pos(t, x, true);
    lemma_insert_pos_facts(t, x, true);
    lemma_sorted_by_members(d, true);
    t.insert_ensures(pos, x);
    let r = t.insert(pos, x);
    assert(sorted_by(s, true) == r);
    if q == pos {
        assert forall|k: int| 0 <= k < t.len() implies !(t[k].name@ == x.name@ && t[k].source
            == x.source) by {
            if k < pos {
                assert(r[k] == t[k]);
            } else {
                lemma_text_le_total(x.name@, x.name@);
                assert(!key_le(true, t[k], x));
            }
        }
        let p = s.len() - 1;
        assert forall|j: int| #![trigger s[j]] 0 <= j < p implies !(s[j].name@ == s[p].name@
            && s[j].source == s[p].source) by {
            assert(d[j] == s[j]);
            assert(d.contains(s[j]));
            assert(t.contains(s[j]));
        }
        assert(first_in_class(s, p));
    } else if q < pos {
        assert(r[q] == t[q]);
        assert forall|j: int| #![trigger t[j]] 0 <= j < q implies !(t[j].name@ == t[q].name@
            && t[j].source == t[q].source) by {
            assert(r[j] == t[j]);
        }
        assert(first_in_class(t, q));
        lemma_sorted_first_in_class(d, q);
        let p = choose|p: int| #[trigger] first_in_class(d, p) && d[p] == t[q];
        assert forall|j: int| #![trigger s[j]] 0 <= j < p implies !(s[j].name@ == s[p].name@
            && s[j].source == s[p].source) by {
            assert(d[j] == s[j]);
        }
        assert(first_in_class(s, p));
    } else {
        assert(r[q] == t[q - 1]);
        assert forall|j: int| #![trigger t[j]] 0 <= j < q - 1 implies !(t[j].name@ == t[q
            - 1].name@ && t[j].source == t[q - 1].source) by {
            if j < pos {
                assert(r[j] == t[j]);
            } else {
                assert(r[j + 1] == t[j]);
            }
        }
        assert(first_in_class(t, q - 1));
        lemma_sorted_first_in_class(d, q - 1);
        let p = choose|p: int| #[trigger] first_in_class(d, p) && d[p] == t[q - 1];
        assert forall|j: int| #![trigger s[j]] 0 <= j < p implies !(s[j].name@ == s[p].name@
            && s[j].source == s[p].source) by {
            assert(d[j] == s[j]);
        }
        assert(first_in_class(s, p));
    }
}

/// Each element `first_of_each` keeps is the first of its name in the input.
proof fn lemma_first_of_each_first(s: Seq<SkillManifest>)
    ensures
        forall|i: int|
            0 <= i < first_of_each(s).0.len() ==> exists|q: int|
                0 <= q < s.len() && s[q] == #[trigger] first_of_each(s).0[i] && forall|k: int|
                    #![trigger s[k]]
                    0 <= k < q ==> s[k].name@ != s[q].name@,
    decreases s.len(),
{
    if s.len() > 0 {
        let d = s.drop_last();
        lemma_first_of_each_first(d);
        lemma_first_of_each(d);
        let kept = first_of_each(d).0;
        let x = s.last();
        let pn = |k: SkillManifest| k.name@ == x.name@;
        lemma_first_index_facts(kept, pn);
        let out = first_of_each(s).0;
        assert forall|i: int| 0 <= i < out.len() implies exists|q: int|
            0 <= q < s.len() && s[q] == #[trigger] out[i] && forall|k: int|
                #![trigger s[k]]
                0 <= k < q ==> s[k].name@ != s[q].name@ by {
            if i < kept.len() {
                assert(out[i] == kept[i]);
                let q = choose|q: int|
                    0 <= q < d.len() && d[q] == kept[i] && forall|k: int|
                        #![trigger d[k]]
                        0 <= k < q ==> d[k].name@ != d[q].name@;
                assert forall|k: int| #![trigger s[k]] 0 <= k < q implies s[k].name@ != s[q].name@ by {
                    assert(d[k] == s[k]);
                }
                assert(s[q] == d[q]);
            } else {
                let q = s.len() - 1;
                assert(out[i] == x);
                assert forall|k: int| #![trigger s[k]] 0 <= k < q implies s[k].name@ != s[q].name@ by {
                    assert(d[k] == s[k]);
                    assert(kept_from_before(kept, d, k));
                }
            }
        }
    }
}

/// `y` is the first manifest of `s` offered with its name and source.
pub open spec fn offered_first(s: Seq<SkillManifest>, y: SkillManifest) -> bool {
    exists|p: int| #[trigger] first_in_class(s, p) && s[p] == y
}

/// Among manifests of one source that share a name, the one kept is the
/// first offered: each manifest kept is an offered one, and no manifest of
/// its name and source was offered before it.
pub proof fn lemma_resolution_keeps_first(manifests: Seq<SkillManifest>)
    ensures
        forall|i: int|
            0 <= i < resolution(manifests).0.len() ==> offered_first(
                manifests,
                #[trigger] resolution(manifests).0[i],
            ),
{
    let order = sorted_by(manifests, true);
    lemma_first_of_each_first(order);
    let kept = first_of_each(order).0;
    let out = sorted_by(kept, false);
    lemma_sorted_by_members(kept, false);
    assert(resolution(manifests).0 == out);
    assert forall|i: int| 0 <= i < out.len() implies offered_first(manifests, #[trigger] out[i]) by {
        assert(out.contains(out[i]));
        assert(kept.contains(out[i]));
        let i2 = choose|i2: int| 0 <= i2 < kept.len() && kept[i2] == out[i];
        let q = choose|q: int|
            0 <= q < order.len() && order[q] == #[trigger] kept[i2] && forall|k: int|
                #![trigger order[k]]
                0 <= k < q ==> order[k].name@ != order[q].name@;
        assert(first_in_class(order, q));
        lemma_sorted_first_in_class(manifests, q);
    }
}


/// The precedence order is the documented one, strongest first: explicit,
/// project, personal, package, builtin.
pub proof fn lemma_precedence_order()
    ensures
        SkillSource::Explicit.rank() < SkillSource::Project.rank(),
        SkillSource::Project.rank() < SkillSource::Personal.rank(),
        SkillSource::Personal.rank() < SkillSource::Package.rank(),
        SkillSource::Package.rank() < SkillSource::Builtin.rank(),
{
}

/// No weaker source wins a name: when a name is offered from some source,
/// the skill kept for it comes from that source or one before it in the
/// order explicit, project, personal, package, builtin. So a project's skill
/// beats a personal one of the same name, and anything beats a builtin.
pub proof fn lemma_no_weaker_source_wins(manifests: Seq<SkillManifest>)
    ensures
        forall|i: int, j: int|
            0 <= i < resolution(manifests).0.len() && 0 <= j < manifests.len() && (#[trigger] resolution(
                manifests,
            ).0[i]).name@ == (#[trigger] manifests[j]).name@ ==> {
                let won = resolution(manifests).0[i].source;
                let offered = manifests[j].source;
                &&& offered is Explicit ==> won is Explicit
                &&& offered is Project ==> won is Explicit || won is Project
                &&& offered is Personal ==> won is Explicit || won is Project || won is Personal
                &&& offered is Package ==> !(won is Builtin)
            },
{
    lemma_resolution_precedence(manifests);
}

} // verus!
