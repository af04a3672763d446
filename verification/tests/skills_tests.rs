use std::path::Path;
use std::sync::Arc;

use claw_skills::loader::parse_skill_markdown;
use claw_skills::skill::{split_frontmatter, FrontmatterSplit};
use claw_skills::{LoadError, Skill, SkillMetadata, SkillRegistry, SkillResolver, SkillTrigger};

fn yaml_strings(v: Option<&serde_yaml::Value>) -> Vec<String> {
    match v {
        Some(serde_yaml::Value::Sequence(items)) => items
            .iter()
            .map(|i| i.as_str().expect("a string").to_string())
            .collect(),
        _ => Vec::new(),
    }
}

fn yaml_trigger(v: &serde_yaml::Value) -> SkillTrigger {
    let kind = v.get("type").and_then(|t| t.as_str()).expect("a trigger type");
    match kind {
        "pattern" => SkillTrigger::PatternMatch {
            pattern: v.get("pattern").and_then(|p| p.as_str()).expect("a pattern").to_string(),
            case_insensitive: v.get("case_insensitive").and_then(|c| c.as_bool()).unwrap_or(false),
        },
        "command" => SkillTrigger::SlashCommand {
            command: v.get("command").and_then(|c| c.as_str()).expect("a command").to_string(),
            alias: yaml_strings(v.get("alias")),
        },
        "file_path" => SkillTrigger::FileGlob {
            glob: v.get("glob").and_then(|g| g.as_str()).expect("a glob").to_string(),
        },
        "keyword" => SkillTrigger::Keywords { keywords: yaml_strings(v.get("keywords")) },
        "manual" => SkillTrigger::ManualOnly,
        _ => panic!("unknown trigger type"),
    }
}

/// The skill metadata as YAML gives it.
fn decode_frontmatter(text: &str) -> Result<SkillMetadata, serde_yaml::Error> {
    let value: serde_yaml::Value = serde_yaml::from_str(text)?;
    let text_field = |key: &str| value.get(key).and_then(|v| v.as_str()).map(|s| s.to_string());
    let triggers = match value.get("triggers") {
        Some(serde_yaml::Value::Sequence(items)) => items.iter().map(yaml_trigger).collect(),
        _ => Vec::new(),
    };
    let metadata = SkillMetadata {
        version: text_field("version").unwrap_or_default(),
        author: text_field("author").unwrap_or_default(),
        priority: value.get("priority").and_then(|p| p.as_u64()).map(|p| p as u32).unwrap_or(5),
        tools: yaml_strings(value.get("tools")),
        denied_tools: yaml_strings(value.get("denied_tools")),
        context_files: yaml_strings(value.get("context_files")),
        triggers,
        tags: yaml_strings(value.get("tags")),
    };
    Ok(metadata)
}

fn parse_markdown_file(path: &Path, content: &str) -> Result<Option<Skill>, LoadError> {
    let stem = path.file_stem().and_then(|s| s.to_str()).map(|s| s.to_string());
    let fields = match split_frontmatter(content) {
        FrontmatterSplit::Found { frontmatter, .. } => Some(decode_frontmatter(&frontmatter)),
        _ => None,
    };
    parse_skill_markdown(path.to_str().unwrap(), stem.as_deref(), content, fields)
}

#[test]
fn parse_simple_skill() {
    let content = r#"---
name: test-skill
description: A test skill
priority: 10
---
This is the skill prompt.
"#;

    let skill = parse_markdown_file(Path::new("test.md"), content)
        .expect("parse should succeed")
        .expect("skill should exist");

    assert_eq!(skill.name, "test-skill");
    assert_eq!(skill.description, "A test skill");
    assert!(skill.prompt.contains("skill prompt"));
    assert_eq!(skill.metadata.priority, 10);
}

#[test]
fn parse_skill_with_tools() {
    let content = r#"---
name: file-reader
tools:
  - file_read
  - glob
  - grep
---
Read files and search.
"#;

    let skill = parse_markdown_file(Path::new("file_reader.md"), content)
        .expect("parse should succeed")
        .expect("skill should exist");

    assert!(skill.can_use_tool("file_read"));
    assert!(skill.can_use_tool("glob"));
    assert!(!skill.can_use_tool("bash")); // Not in allowed list
}

#[test]
fn parse_skill_with_denied_tools() {
    let content = r#"---
name: safe-reader
denied_tools:
  - bash
  - file_write
---
Only read, never write.
"#;

    let skill = parse_markdown_file(Path::new("safe.md"), content)
        .expect("parse should succeed")
        .expect("skill should exist");

    assert!(skill.can_use_tool("file_read")); // Allowed (not denied)
    assert!(!skill.can_use_tool("bash")); // Denied
    assert!(!skill.can_use_tool("file_write")); // Denied
}

#[test]
fn missing_frontmatter_returns_none() {
    let content = "Just some markdown without frontmatter.";

    let result = parse_markdown_file(Path::new("plain.md"), content).expect("parse should succeed");

    assert!(result.is_none());
}

fn make_test_skill(name: &str, triggers: Vec<SkillTrigger>, priority: u32) -> Skill {
    Skill {
        name: name.to_string(),
        description: "Test skill".to_string(),
        prompt: "Test prompt".to_string(),
        metadata: SkillMetadata { triggers, priority, ..Default::default() },
        source: None,
        enabled: true,
    }
}

#[test]
fn register_and_find_skill() {
    let mut registry = SkillRegistry::new();

    let skill = make_test_skill(
        "review",
        vec![SkillTrigger::SlashCommand {
            command: "/review".to_string(),
            alias: vec!["/r".to_string()],
        }],
        5,
    );

    registry.register(Arc::new(skill));

    assert!(registry.get("review").is_some());
    assert_eq!(registry.count(), 1);
}

#[test]
fn match_command_trigger() {
    let mut registry = SkillRegistry::new();

    let skill = make_test_skill(
        "commit",
        vec![SkillTrigger::SlashCommand { command: "/commit".to_string(), alias: vec![] }],
        8,
    );

    registry.register(Arc::new(skill));

    let matches = registry.find_matches("/commit");
    assert_eq!(matches.len(), 1);
    assert_eq!(matches[0].skill.name, "commit");
    assert_eq!(matches[0].score_halves as f32 / 2.0, 100.0);
}

#[test]
fn match_pattern_trigger() {
    let mut registry = SkillRegistry::new();

    let skill = make_test_skill(
        "code-helper",
        vec![SkillTrigger::PatternMatch {
            pattern: r"help\s+me\s+(.+)".to_string(),
            case_insensitive: true,
        }],
        7,
    );

    registry.register(Arc::new(skill));

    let matches = registry.find_matches("Help me debug this code");
    assert_eq!(matches.len(), 1);
    assert_eq!(matches[0].skill.name, "code-helper");
}

#[test]
fn match_keyword_trigger() {
    let mut registry = SkillRegistry::new();

    let skill = make_test_skill(
        "git-helper",
        vec![SkillTrigger::Keywords {
            keywords: vec!["git".to_string(), "commit".to_string(), "push".to_string()],
        }],
        6,
    );

    registry.register(Arc::new(skill));

    let matches = registry.find_matches("I need to git push my changes");
    assert_eq!(matches.len(), 1);
    assert_eq!(matches[0].skill.name, "git-helper");
}

#[test]
fn priority_ordering() {
    let mut registry = SkillRegistry::new();

    let low_skill = make_test_skill("low", vec![], 1);
    let high_skill = make_test_skill("high", vec![], 10);

    registry.register(Arc::new(low_skill));
    registry.register(Arc::new(high_skill));

    let list = registry.list();
    assert_eq!(list[0].name, "high"); // Higher priority first
    assert_eq!(list[1].name, "low");
}

#[test]
fn resolve_skill_no_deps() {
    let mut registry = SkillRegistry::new();
    registry.register(Arc::new(Skill::simple("base", "Base prompt")));

    let resolver = SkillResolver::new(Arc::new(registry), String::new());

    let resolved = resolver.resolve("base").expect("should resolve");
    assert_eq!(resolved.skill.name, "base");
    assert_eq!(resolved.combined_prompt, "Base prompt");
    assert!(resolved.dependencies.is_empty());
}

#[test]
fn expand_inline_reference() {
    let mut registry = SkillRegistry::new();
    registry.register(Arc::new(Skill::simple("helper", "Helper content here")));

    let resolver = SkillResolver::new(Arc::new(registry), String::new());

    let prompt = "Use @skill:helper to assist with the task.";
    let expanded = resolver.expand_prompt(prompt);

    assert!(expanded.contains("Helper content here"));
    assert!(!expanded.contains("@skill:helper"));
}

#[test]
fn expand_template_reference() {
    let mut registry = SkillRegistry::new();
    registry.register(Arc::new(Skill::simple("auditor", "Review guidelines")));

    let resolver = SkillResolver::new(Arc::new(registry), String::new());

    let prompt = "Apply {{skill:auditor}} when checking code.";
    let expanded = resolver.expand_prompt(prompt);

    assert!(expanded.contains("Review guidelines"));
    assert!(!expanded.contains("{{skill:auditor}}"));
}

#[test]
fn find_skill_references() {
    let registry = SkillRegistry::new();
    let resolver = SkillResolver::new(Arc::new(registry), String::new());

    let prompt = "Use @skill:helper and {{skill:auditor}} for this change.";
    let names = resolver.find_skill_references(prompt);

    assert_eq!(names.len(), 2);
    assert!(names.contains(&"helper".to_string()));
    assert!(names.contains(&"auditor".to_string()));
}
