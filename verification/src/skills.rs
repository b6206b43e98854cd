//! Skill discovery and progressive disclosure.
//!
//! Only descriptions go into the startup prompt; bodies load when a task
//! matches. That is the entire economics of the skills system: a hundred
//! installed skills should cost a hundred lines of context, not a hundred
//! files.
use vstd::prelude::*;

use crate::error::{DomainError, Result};
use crate::search::{first_index, lemma_first_index_scan};
use crate::skill::{named_in, resolution, resolve_collisions, texts, SkillManifest};
use crate::text::{owned, push_char, push_str, same_text};

verus! {

/// Finds and parses skills across every location, and loads their bodies.
/// Implemented by whatever holds the skills: a directory tree, a test double.
///
/// `discovered` and `loaded` name what an implementation answers: each
/// call's answer is one of them. By default every answer is possible; an
/// implementation may narrow that by defining them itself. The code built on a
/// catalog relies on no more than that, so it is verified for every answer an
/// implementation can give.
pub trait SkillCatalog {
    /// `found` is an answer the catalog gives when asked for the skills of
    /// `workdir`.
    open spec fn discovered(&self, workdir: Seq<char>, found: Result<Vec<SkillManifest>>) -> bool {
        true
    }

    /// `body` is an answer the catalog gives when asked for the body of
    /// `manifest`.
    open spec fn loaded(&self, manifest: SkillManifest, body: Result<String>) -> bool {
        true
    }

    fn discover(&self, workdir: &str) -> (r: Result<Vec<SkillManifest>>)
        ensures
            self.discovered(workdir@, r),
    ;

    fn load_body(&self, manifest: &SkillManifest) -> (r: Result<String>)
        ensures
            self.loaded(*manifest, r),
    ;
}

#[derive(Debug, Clone, PartialEq, Eq)]
pub struct SkillIndex {
    pub skills: Vec<SkillManifest>,
    /// Collisions and standard violations, reported rather than enforced.
    pub notes: Vec<String>,
}

/// One note per warning of each skill, `name: warning`, skill by skill.
pub open spec fn warning_notes(skills: Seq<SkillManifest>) -> Seq<Seq<char>>
    decreases skills.len(),
{
    if skills.len() == 0 {
        Seq::empty()
    } else {
        let s = skills.last();
        warning_notes(skills.drop_last()) + texts(s.warnings@).map_values(
            |w: Seq<char>| s.name@ + ": "@ + w,
        )
    }
}

/// The index built from what a catalog discovered: the resolved skills, and
/// the collision notes followed by the skills' own warnings.
pub open spec fn index_view(discovered: Seq<SkillManifest>) -> (Seq<SkillManifest>, Seq<Seq<char>>) {
    let (skills, notes) = resolution(discovered);
    (skills, notes + warning_notes(skills))
}

/// Builds the index from what a catalog discovered.
pub fn index_of(discovered: Vec<SkillManifest>) -> (r: SkillIndex)
    ensures
        (r.skills@, texts(r.notes@)) == index_view(discovered@),
{
    let (skills, notes) = resolve_collisions(discovered);
    let mut notes = notes;
    let ghost base = texts(notes@);
    let mut i: usize = 0;
    assert(base + warning_notes(skills@.take(0)) =~= base);
    while i < skills.len()
        invariant
            i <= skills@.len(),
            texts(notes@) == base + warning_notes(skills@.take(i as int)),
        decreases skills@.len() - i,
    {
        let skill = &skills[i];
        let ghost before = texts(notes@);
        let mut j: usize = 0;
        while j < skill.warnings.len()
            invariant
                j <= skill.warnings@.len(),
                texts(notes@) == before + texts(skill.warnings@.take(j as int)).map_values(
                    |w: Seq<char>| skill.name@ + ": "@ + w,
                ),
            decreases skill.warnings@.len() - j,
        {
            let mut m = owned(skill.name.as_str());
            push_str(&mut m, ": ");
            push_str(&mut m, skill.warnings[j].as_str());
            let ghost prior = notes@;
            notes.push(m);
            proof {
                assert(texts(notes@) =~= texts(prior).push(m@));
                assert(texts(skill.warnings@.take(j + 1)) =~= texts(skill.warnings@.take(j as int)).push(
                    skill.warnings@[j as int]@,
                ));
                assert(texts(skill.warnings@.take(j + 1)).map_values(
                    |w: Seq<char>| skill.name@ + ": "@ + w,
                ) =~= texts(skill.warnings@.take(j as int)).map_values(
                    |w: Seq<char>| skill.name@ + ": "@ + w,
                ).push(m@));
            }
            j += 1;
        }
        proof {
            assert(skill.warnings@.take(j as int) =~= skill.warnings@);
            assert(skills@.take(i + 1).drop_last() =~= skills@.take(i as int));
            assert(skills@.take(i + 1).last() == skills@[i as int]);
        }
        i += 1;
    }
    assert(skills@.take(i as int) =~= skills@);
    SkillIndex { skills, notes }
}

/// `r` is what taking the skill named `name` out of `skills` gives: the
/// first skill of that name, or a `NotFound` naming it.
pub open spec fn taken_from(skills: Seq<SkillManifest>, name: Seq<char>, r: Result<SkillManifest>) -> bool {
    match r {
        Ok(m) => named_in(skills, name) matches Some(i) && m == skills[i],
        Err(e) => named_in(skills, name) is None && (e matches DomainError::NotFound { kind, id }
            && kind@ == "skill"@ && id@ == name),
    }
}

/// The skill named `name` in `index`, taken out of it.
pub fn take_skill(index: SkillIndex, name: &str) -> (r: Result<SkillManifest>)
    ensures
        taken_from(index.skills@, name@, r),
{
    let mut skills = index.skills;
    let ghost p = |k: SkillManifest| k.name@ == name@;
    let mut i: usize = 0;
    while i < skills.len()
        invariant
            skills@ == index.skills@,
            i <= skills@.len(),
            p == (|k: SkillManifest| k.name@ == name@),
            forall|k: int| 0 <= k < i ==> !p(#[trigger] skills@[k]),
        decreases skills@.len() - i,
    {
        if same_text(skills[i].name.as_str(), name) {
            proof {
                lemma_first_index_scan(skills@, p, i as int);
            }
            return Ok(skills.remove(i));
        }
        i += 1;
    }
    proof {
        lemma_first_index_scan(skills@, p, i as int);
    }
    Err(DomainError::not_found("skill", name))
}

/// The skills that appear in a prompt: those not marked
/// `disable_model_invocation`, in order.
pub open spec fn visible(skills: Seq<SkillManifest>) -> Seq<SkillManifest> {
    skills.filter(|s: SkillManifest| !s.disable_model_invocation)
}

/// One indented line per skill.
pub open spec fn skill_lines(skills: Seq<SkillManifest>) -> Seq<char>
    decreases skills.len(),
{
    if skills.len() == 0 {
        Seq::empty()
    } else {
        skill_lines(skills.drop_last()) + "  "@ + skills.last().spec_prompt_line() + "\n"@
    }
}

/// The startup block for `skills`: empty when no skill is visible.
pub open spec fn prompt_block_text(skills: Seq<SkillManifest>) -> Seq<char> {
    let shown = visible(skills);
    if shown.len() == 0 {
        Seq::empty()
    } else {
        "<skills>\n"@ + skill_lines(shown) + "</skills>"@
    }
}

/// The startup block: one line per visible skill.
///
/// Skills marked `disable_model_invocation` are omitted: they exist, but only
/// an explicit call reaches them.
pub fn render_prompt_block(skills: &Vec<SkillManifest>) -> (r: String)
    ensures
        r@ == prompt_block_text(skills@),
{
    let mut lines = String::new();
    let mut count: usize = 0;
    let mut i: usize = 0;
    assert(skills@.take(0).filter(|s: SkillManifest| !s.disable_model_invocation) =~= Seq::<
        SkillManifest,
    >::empty());
    while i < skills.len()
        invariant
            i <= skills@.len(),
            count == visible(skills@.take(i as int)).len(),
            lines@ == skill_lines(visible(skills@.take(i as int))),
        decreases skills@.len() - i,
    {
        proof {
            assert(skills@.take(i + 1).drop_last() =~= skills@.take(i as int));
            skills@.take(i as int).lemma_filter_push(
                skills@[i as int],
                |s: SkillManifest| !s.disable_model_invocation,
            );
            assert(skills@.take(i + 1) =~= skills@.take(i as int).push(skills@[i as int]));
        }
        if !skills[i].disable_model_invocation {
            proof {
                let shown = visible(skills@.take(i as int));
                assert(shown.push(skills@[i as int]).drop_last() =~= shown);
            }
            let line = skills[i].prompt_line();
            push_str(&mut lines, "  ");
            push_str(&mut lines, line.as_str());
            push_str(&mut lines, "\n");
            count += 1;
        }
        i += 1;
    }
    assert(skills@.take(i as int) =~= skills@);
    if count == 0 {
        return String::new();
    }
    let mut out = owned("<skills>\n");
    push_str(&mut out, lines.as_str());
    push_str(&mut out, "</skills>");
    out
}

/// Skills from a catalog, resolved and rendered for prompts.
pub struct SkillService<C: SkillCatalog> {
    catalog: C,
}

impl<C: SkillCatalog> SkillService<C> {
    /// The catalog this service asks.
    pub closed spec fn catalog_of(&self) -> C {
        self.catalog
    }

    /// A service over `catalog`.
    pub fn new(catalog: C) -> (r: Self)
        ensures
            r.catalog_of() == catalog,
    {
        SkillService { catalog }
    }

    /// The resolved skills of `workdir`: the index of what the catalog
    /// discovered there, or the catalog's own error.
    pub fn index(&self, workdir: &str) -> (r: Result<SkillIndex>)
        ensures
            match r {
                Ok(ix) => exists|d: Vec<SkillManifest>|
                    #[trigger] self.catalog_of().discovered(workdir@, Ok(d)) && index_view(d@) == (
                        ix.skills@,
                        texts(ix.notes@),
                    ),
                Err(e) => self.catalog_of().discovered(workdir@, Err(e)),
            },
    {
        let discovered = self.catalog.discover(workdir)?;
        let ghost found = discovered;
        let ix = index_of(discovered);
        assert(self.catalog_of().discovered(workdir@, Ok(found)));
        Ok(ix)
    }

    /// `r` is what `get` can answer for `name` in `workdir`: the skill of that
    /// name taken from the index of what the catalog discovered, or the
    /// catalog's own error.
    pub open spec fn got(&self, workdir: Seq<char>, name: Seq<char>, r: Result<SkillManifest>) -> bool {
        ||| exists|d: Vec<SkillManifest>|
            #[trigger] self.catalog_of().discovered(workdir, Ok(d)) && taken_from(index_view(d@).0, name, r)
        ||| (r matches Err(e) && self.catalog_of().discovered(workdir, Err(e)))
    }

    /// The skill named `name`, visible or not.
    pub fn get(&self, workdir: &str, name: &str) -> (r: Result<SkillManifest>)
        ensures
            self.got(workdir@, name@, r),
            r matches Ok(m) ==> m.name@ == name@,
    {
        let index = self.index(workdir)?;
        let found = take_skill(index, name);
        proof {
            if found is Ok {
                crate::search::lemma_first_index_facts(
                    index.skills@,
                    |k: SkillManifest| k.name@ == name@,
                );
            }
        }
        found
    }

    /// The full instructions, loaded only when something actually matched:
    /// what the catalog loads for the skill `get` gives, or `get`'s error.
    pub fn body(&self, workdir: &str, name: &str) -> (r: Result<String>)
        ensures
            exists|g: Result<SkillManifest>|
                #[trigger] self.got(workdir@, name@, g) && match g {
                    Ok(m) => self.catalog_of().loaded(m, r),
                    Err(e) => r == Err::<String, DomainError>(e),
                },
    {
        let got = self.get(workdir, name);
        match got {
            Ok(manifest) => {
                let ghost m = manifest;
                let loaded = self.catalog.load_body(&manifest);
                assert(self.got(workdir@, name@, Ok(m)));
                loaded
            },
            Err(e) => {
                assert(self.got(workdir@, name@, Err(e)));
                Err(e)
            },
        }
    }

    /// The startup block, one line per visible skill, of the index of what
    /// the catalog discovered; or the catalog's own error.
    pub fn prompt_block(&self, workdir: &str) -> (r: Result<String>)
        ensures
            match r {
                Ok(text) => exists|d: Vec<SkillManifest>|
                    #[trigger] self.catalog_of().discovered(workdir@, Ok(d)) && prompt_block_text(
                        index_view(d@).0,
                    ) == text@,
                Err(e) => self.catalog_of().discovered(workdir@, Err(e)),
            },
    {
        let index = self.index(workdir)?;
        let text = render_prompt_block(&index.skills);
        proof {
            let d = choose|d: Vec<SkillManifest>|
                #[trigger] self.catalog_of().discovered(workdir@, Ok(d)) && index_view(d@) == (
                    index.skills@,
                    texts(index.notes@),
                );
            assert(prompt_block_text(index_view(d@).0) == text@);
        }
        Ok(text)
    }
}

} // verus!
