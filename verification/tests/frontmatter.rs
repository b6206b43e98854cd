use umoja::frontmatter::{parse_frontmatter, read_manifest};
use umoja::skill::{SkillKind, SkillSource};

#[test]
fn frontmatter_reads_simple_and_folded_values() {
    let parsed = parse_frontmatter(
        "---\nname: pdf-tools\ndescription: >\n  Extracts text\n  and tables.\nlicense: MIT\n---\n# body",
    )
    .unwrap();
    assert_eq!(parsed.get("name").unwrap(), "pdf-tools");
    assert_eq!(parsed.get("description").unwrap(), "Extracts text and tables.");
    assert_eq!(parsed.get("license").unwrap(), "MIT");
}

#[test]
fn a_file_without_frontmatter_is_not_a_skill() {
    assert!(parse_frontmatter("# just a document").is_none());
}

#[test]
fn an_unclosed_block_is_not_frontmatter() {
    assert!(parse_frontmatter("---\nname: x\n").is_none());
}

#[test]
fn quotes_are_dropped_and_keys_lower_cased() {
    let parsed = parse_frontmatter("---\nName: \"quoted\"\nOther: 'single'\n---\n").unwrap();
    assert_eq!(parsed.get("name").unwrap(), "quoted");
    assert_eq!(parsed.get("other").unwrap(), "single");
    assert!(parsed.get("Name").is_none());
}

#[test]
fn a_manifest_is_read_from_its_file() {
    let text = "---\nname: web-search\ndescription: Searches the web.\nallowed-tools: Bash Read\ndisable-model-invocation: true\n---\n";
    let m = read_manifest(
        text,
        "/skills/web-search/SKILL.md",
        Some("SKILL.md"),
        Some("SKILL"),
        Some("web-search"),
        true,
        SkillSource::Project,
    )
    .unwrap();
    assert_eq!(m.name, "web-search");
    assert_eq!(m.kind, SkillKind::Executable);
    assert_eq!(m.import_name.as_deref(), Some("web_search"));
    assert_eq!(m.allowed_tools, vec!["Bash".to_string(), "Read".to_string()]);
    assert!(m.disable_model_invocation);
    assert!(m.warnings.is_empty());
}

#[test]
fn a_manifest_without_a_description_is_skipped() {
    let text = "---\nname: broken\n---\n# nothing\n";
    assert!(read_manifest(text, "/s/broken/SKILL.md", Some("SKILL.md"), Some("SKILL"), Some("broken"), false, SkillSource::Project).is_none());
}

#[test]
fn a_single_file_skill_is_named_by_its_file() {
    let text = "---\ndescription: Loose one.\n---\n";
    let m = read_manifest(text, "/s/loose.md", Some("loose.md"), Some("loose"), Some("s"), false, SkillSource::Personal).unwrap();
    assert_eq!(m.name, "loose");
    assert!(m.warnings.is_empty());
}

#[test]
fn a_name_that_disagrees_with_its_directory_warns_but_loads() {
    let text = "---\nname: other-name\ndescription: Does things.\n---\n";
    let m = read_manifest(text, "/s/actual-dir/SKILL.md", Some("SKILL.md"), Some("SKILL"), Some("actual-dir"), false, SkillSource::Project).unwrap();
    assert!(m.warnings.iter().any(|w| w.contains("does not match")));
}
