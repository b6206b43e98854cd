use std::cell::RefCell;

use umoja::error::{DomainError, Result};
use umoja::skill::{SkillKind, SkillManifest, SkillSource};
use umoja::skills::{SkillCatalog, SkillService};

#[derive(Default)]
struct MemSkills {
    manifests: RefCell<Vec<SkillManifest>>,
}

impl SkillCatalog for MemSkills {
    fn discover(&self, _workdir: &str) -> Result<Vec<SkillManifest>> {
        Ok(self.manifests.borrow().clone())
    }

    fn load_body(&self, manifest: &SkillManifest) -> Result<String> {
        Ok(format!("# {}\n\nbody", manifest.name))
    }
}

fn manifest(name: &str, source: SkillSource) -> SkillManifest {
    SkillManifest {
        name: name.into(),
        description: format!("{name} does a thing"),
        kind: SkillKind::Markdown,
        source,
        path: format!("/{}/{name}", source.label()),
        license: None,
        compatibility: None,
        allowed_tools: Vec::new(),
        disable_model_invocation: false,
        import_name: None,
        warnings: Vec::new(),
    }
}

fn fixture(manifests: Vec<SkillManifest>) -> SkillService<MemSkills> {
    let catalog = MemSkills::default();
    *catalog.manifests.borrow_mut() = manifests;
    SkillService::new(catalog)
}

#[test]
fn a_personal_skill_overrides_a_builtin_of_the_same_name() {
    let service = fixture(vec![
        manifest("websearch", SkillSource::Builtin),
        manifest("websearch", SkillSource::Personal),
    ]);
    let index = service.index("/work").unwrap();
    assert_eq!(index.skills.len(), 1);
    assert_eq!(index.skills[0].source, SkillSource::Personal);
    assert!(index.notes[0].contains("overrides"));
}

#[test]
fn the_prompt_block_carries_descriptions_not_bodies() {
    let service = fixture(vec![manifest("pdf-tools", SkillSource::Project)]);
    let block = service.prompt_block("/work").unwrap();
    assert!(block.contains("pdf-tools does a thing"));
    assert!(!block.contains("body"));
}

#[test]
fn hidden_skills_stay_out_of_the_prompt_but_remain_callable() {
    let mut hidden = manifest("secret-tool", SkillSource::Project);
    hidden.disable_model_invocation = true;
    let service = fixture(vec![hidden, manifest("visible", SkillSource::Project)]);

    let block = service.prompt_block("/work").unwrap();
    assert!(!block.contains("secret-tool"));
    assert!(block.contains("visible"));
    assert!(service.get("/work", "secret-tool").is_ok());
}

#[test]
fn bodies_load_only_when_asked_for() {
    let service = fixture(vec![manifest("pdf-tools", SkillSource::Project)]);
    assert!(service.body("/work", "pdf-tools").unwrap().contains("body"));
    assert!(service.body("/work", "nope").is_err());
}

#[test]
fn warnings_are_surfaced_without_dropping_the_skill() {
    let mut sloppy = manifest("Bad_Name", SkillSource::Project);
    sloppy.warnings = vec!["name should use lowercase".into()];
    let service = fixture(vec![sloppy]);

    let index = service.index("/work").unwrap();
    assert_eq!(index.skills.len(), 1);
    assert!(index.notes.iter().any(|note| note.contains("lowercase")));
}

#[test]
fn an_empty_catalog_renders_nothing() {
    assert!(fixture(vec![]).prompt_block("/work").unwrap().is_empty());
}

#[test]
fn the_prompt_block_is_one_indented_line_per_visible_skill() {
    let block = fixture(vec![manifest("a", SkillSource::Project)])
        .prompt_block("/work")
        .unwrap();
    assert_eq!(
        block,
        "<skills>\n  <skill name=\"a\" source=\"project\">a does a thing</skill>\n</skills>"
    );
}

#[test]
fn an_unknown_skill_is_not_found() {
    let err = fixture(vec![]).get("/work", "ghost").unwrap_err();
    assert!(matches!(err, DomainError::NotFound { .. }));
    assert_eq!(err.message(), "skill 'ghost' not found");
}
