use std::sync::Arc;

use claw_skills::activation::apply_skill_activation;
use claw_skills::cli::{
    byte_summary, decimal_string, parse_output_format, parse_permission, truncate, OutputFormat,
    PermissionChoice,
};
use claw_skills::loader::{parse_skill_markdown, sort_by_priority};
use claw_skills::message::{ContentBlock, Message, Role};
use claw_skills::provider::{
    parse_stop_reason, usage_from, ApiStreamEvent, BlockStart, ResponseContent, StopReason,
    StreamEvent, StreamState, TokenUsage,
};
use claw_skills::registry::f32_value;
use claw_skills::request::{
    build_request, map_content_block, response_from, role_of, ApiContent, ApiRole, ModelRequest,
    RequestContent, RequestMessage, ToolDefinition,
};
use claw_skills::skill::{
    default_enabled, default_priority, split_frontmatter, FrontmatterSplit, TriggerKind,
};
use claw_skills::text::{replace_all, sorted_unique, trim};
use claw_skills::{
    ActivationResult, LoadError, Skill, SkillActivator, SkillContext, SkillLoader, SkillMatch,
    SkillMetadata, SkillRegistry, SkillResolver, SkillTrigger, TriggerMatch,
};

fn skill_with(name: &str, triggers: Vec<SkillTrigger>, priority: u32) -> Skill {
    Skill {
        name: name.to_string(),
        description: format!("{} description", name),
        prompt: format!("{} prompt", name),
        metadata: SkillMetadata { triggers, priority, ..Default::default() },
        source: None,
        enabled: true,
    }
}

fn strings(items: &[&str]) -> Vec<String> {
    items.iter().map(|s| s.to_string()).collect()
}

fn empty_match() -> TriggerMatch {
    TriggerMatch {
        matched_text: String::new(),
        start: 0,
        end: 0,
        captures: vec![],
        trigger_kind: TriggerKind::Manual,
    }
}

// ---------------------------------------------------------------------------
// text
// ---------------------------------------------------------------------------

#[test]
fn trim_matches_std() {
    for s in ["  hi \n", "\u{3000}x\u{2028}", "", "   ", "a b", "\u{85}é\t"] {
        assert_eq!(trim(s), s.trim());
    }
}

#[test]
fn replace_all_matches_std() {
    let cases = [("aaa", "aa", "b"), ("{{x}}{{x}}", "{{x}}", "yy"), ("abc", "z", "q"), ("éaé", "é", "e")];
    for (s, from, to) in cases {
        assert_eq!(replace_all(s, from, to), s.replace(from, to));
    }
}

#[test]
fn sorted_unique_sorts_and_dedups() {
    let v = strings(&["grep", "bash", "grep", "ab", "bash"]);
    assert_eq!(sorted_unique(&v), strings(&["ab", "bash", "grep"]));
}

#[test]
fn keywords_match_in_any_case() {
    let s = skill_with("ger", vec![SkillTrigger::Keywords { keywords: strings(&["über"]) }], 5);
    let m = s.check_trigger("GiT ÜBER").expect("keyword matches after lowercasing");
    assert_eq!((m.start, m.end), (4, 9));
    let t = skill_with("up", vec![SkillTrigger::Keywords { keywords: strings(&["GIT"]) }], 5);
    assert!(t.check_trigger("git").is_some());
}

// ---------------------------------------------------------------------------
// skill
// ---------------------------------------------------------------------------

#[test]
fn defaults() {
    assert!(default_enabled());
    assert_eq!(default_priority(), 5);
    assert_eq!(SkillMetadata::default().priority, 0);
}

#[test]
fn command_trigger_reports_trimmed_input() {
    let s = skill_with(
        "review",
        vec![SkillTrigger::SlashCommand { command: "/review".into(), alias: strings(&["/r"]) }],
        5,
    );
    let m = s.check_trigger("  /r \n").expect("alias matches");
    assert_eq!(m.matched_text, "/r");
    assert_eq!(m.start, 0);
    assert_eq!(m.end, 6);
    assert_eq!(m.captures, strings(&["/r"]));
    assert_eq!(m.trigger_kind, TriggerKind::Command);
    assert!(s.check_trigger("/auditor").is_none());
}

#[test]
fn disabled_skill_never_triggers() {
    let mut s = skill_with(
        "review",
        vec![SkillTrigger::SlashCommand { command: "/review".into(), alias: vec![] }],
        5,
    );
    s.enabled = false;
    assert!(s.check_trigger("/review").is_none());
}

#[test]
fn pattern_trigger_reports_match_and_groups() {
    let s = skill_with(
        "helper",
        vec![SkillTrigger::PatternMatch { pattern: r"help\s+me\s+(\w+)(x)?".into(), case_insensitive: true }],
        5,
    );
    let m = s.check_trigger("Please HELP me debug").expect("pattern matches");
    assert_eq!(m.matched_text, "HELP me debug");
    assert_eq!(m.start, 7);
    assert_eq!(m.end, 20);
    assert_eq!(m.captures, strings(&["HELP me debug", "debug"]));
    assert_eq!(m.trigger_kind, TriggerKind::Pattern);
    // case sensitive: no match
    let t = skill_with(
        "helper",
        vec![SkillTrigger::PatternMatch { pattern: r"help".into(), case_insensitive: false }],
        5,
    );
    assert!(t.check_trigger("HELP").is_none());
    // an invalid pattern never matches
    let u = skill_with(
        "broken",
        vec![SkillTrigger::PatternMatch { pattern: "(".into(), case_insensitive: false }],
        5,
    );
    assert!(u.check_trigger("(").is_none());
}

#[test]
fn keyword_trigger_reports_byte_positions() {
    let s = skill_with(
        "git",
        vec![SkillTrigger::Keywords { keywords: strings(&["zzz", "GIT"]) }],
        5,
    );
    let input = "Über Git push";
    let m = s.check_trigger(input).expect("keyword matches");
    let pos = input.to_lowercase().find("git").unwrap();
    assert_eq!(m.matched_text, "GIT");
    assert_eq!(m.start, pos);
    assert_eq!(m.end, pos + 3);
    assert_eq!(m.captures, strings(&["GIT"]));
    assert_eq!(m.trigger_kind, TriggerKind::Keyword);
}

#[test]
fn first_firing_trigger_wins() {
    let s = skill_with(
        "multi",
        vec![
            SkillTrigger::ManualOnly,
            SkillTrigger::Keywords { keywords: strings(&["deploy"]) },
            SkillTrigger::PatternMatch { pattern: "deploy".into(), case_insensitive: false },
        ],
        5,
    );
    assert_eq!(s.check_trigger("deploy now").unwrap().trigger_kind, TriggerKind::Keyword);
}

#[test]
fn render_prompt_fills_placeholders() {
    let mut s = Skill::simple("r", "Hi {{who}}: {{trigger_input}} in {{cwd}}\n{{context_files}}");
    s.description = String::new();
    let ctx = SkillContext {
        session_id: "s".into(),
        cwd: "/work".into(),
        trigger_input: "/r".into(),
        trigger_match: empty_match(),
        context_contents: vec![("a.md".into(), "A".into()), ("b.md".into(), "B".into())],
        variables: vec![("who".into(), "you".into())],
    };
    assert_eq!(s.render_prompt(&ctx), "Hi you: /r in /work\n--- a.md ---\nA\n\n--- b.md ---\nB");
    let plain = Skill::simple("p", "no files");
    assert_eq!(plain.render_prompt(&ctx), "no files");
}

#[test]
fn split_frontmatter_cases() {
    match split_frontmatter("  ---\nname: x\n---\n\n body \n") {
        FrontmatterSplit::Found { frontmatter, body } => {
            assert_eq!(frontmatter, "\nname: x");
            assert_eq!(body, "body");
        }
        other => panic!("unexpected {:?}", other),
    }
    assert!(matches!(split_frontmatter("no frontmatter"), FrontmatterSplit::Missing));
    assert!(matches!(split_frontmatter("---\nname: x\n"), FrontmatterSplit::Unterminated));
}

#[test]
fn from_markdown_names_and_requirements() {
    let meta = |tags: &[&str]| SkillMetadata {
        tags: strings(tags),
        priority: 3,
        ..Default::default()
    };
    let content = "---\nname: greet\ndescription: Say hi\npriority: 3\n---\nHello {{trigger_input}}";
    let s = Skill::from_markdown(content, Some(meta(&[]))).expect("skill");
    assert_eq!(s.name, "greet");
    assert_eq!(s.description, "Say hi");
    assert_eq!(s.prompt, "Hello {{trigger_input}}");
    assert_eq!(s.metadata.priority, 3);
    assert!(s.enabled && s.source.is_none());
    // the name key on a later line
    let later = "---\npriority: 3\nname: greet\n---\nHello";
    let s1 = Skill::from_markdown(later, Some(meta(&[]))).expect("skill");
    assert_eq!((s1.name.as_str(), s1.prompt.as_str(), s1.description.as_str()), ("greet", "Hello", ""));
    // no name key
    let s2 = Skill::from_markdown("---\ntags: [a]\n---\nx", Some(meta(&["a"]))).unwrap();
    assert_eq!(s2.name, "unnamed-skill");
    // tags and an empty body
    assert!(Skill::from_markdown("---\ntags: [a]\n---\n", Some(meta(&["a"]))).is_some());
    // no tags and an empty body
    assert!(Skill::from_markdown("---\nname: e\n---\n", Some(meta(&[]))).is_none());
    // frontmatter that did not parse, or is missing
    assert!(Skill::from_markdown(content, None).is_none());
    assert!(Skill::from_markdown("no frontmatter", Some(meta(&["a"]))).is_none());
}

// ---------------------------------------------------------------------------
// registry
// ---------------------------------------------------------------------------

#[test]
fn register_same_name_replaces_skill() {
    let mut r = SkillRegistry::new();
    r.register(Arc::new(skill_with("a", vec![], 1)));
    r.register(Arc::new(skill_with("a", vec![], 9)));
    r.register(Arc::new(skill_with("b", vec![], 5)));
    assert_eq!(r.count(), 2);
    assert_eq!(r.get("a").unwrap().metadata.priority, 9);
    let names: Vec<(String, u32)> = r.list().iter().map(|s| (s.name.clone(), s.metadata.priority)).collect();
    assert_eq!(names, vec![("a".to_string(), 9), ("b".to_string(), 5)]);
    assert_eq!(r.list().len(), r.count());
    assert!(r.get("c").is_none());
    // a lower priority moves the replacement after the others
    r.register(Arc::new(skill_with("a", vec![], 2)));
    let names: Vec<(String, u32)> = r.list().iter().map(|s| (s.name.clone(), s.metadata.priority)).collect();
    assert_eq!(names, vec![("b".to_string(), 5), ("a".to_string(), 2)]);
}

#[test]
fn equal_priorities_keep_registration_order() {
    let mut r = SkillRegistry::default();
    for n in ["x", "y", "z"] {
        r.register(Arc::new(skill_with(n, vec![], 3)));
    }
    let names: Vec<String> = r.list().iter().map(|s| s.name.clone()).collect();
    assert_eq!(names, strings(&["x", "y", "z"]));
}

#[test]
fn disabled_skills_are_not_matched() {
    let mut r = SkillRegistry::new();
    r.register(Arc::new(skill_with(
        "k",
        vec![SkillTrigger::Keywords { keywords: strings(&["deploy"]) }],
        4,
    )));
    assert_eq!(r.find_matches("deploy it").len(), 1);
    assert!(r.set_enabled("k", false));
    assert!(!r.set_enabled("missing", false));
    assert!(!r.get("k").unwrap().enabled);
    assert!(!r.list()[0].enabled);
    assert!(r.find_matches("deploy it").is_empty());
    assert!(r.set_enabled("k", true));
    assert_eq!(r.find_matches("deploy it").len(), 1);
    let mut off = skill_with("off", vec![SkillTrigger::SlashCommand { command: "/off".into(), alias: vec![] }], 4);
    off.enabled = false;
    r.register(Arc::new(off));
    assert!(r.find_matches("/off").is_empty());
}

#[test]
fn scores_and_order_of_matches() {
    let mut r = SkillRegistry::new();
    r.register(Arc::new(skill_with(
        "cmd",
        vec![SkillTrigger::SlashCommand { command: "/go".into(), alias: vec![] }],
        1,
    )));
    r.register(Arc::new(skill_with(
        "pat",
        vec![SkillTrigger::PatternMatch { pattern: "go".into(), case_insensitive: false }],
        300,
    )));
    r.register(Arc::new(skill_with(
        "kw",
        vec![
            SkillTrigger::Keywords { keywords: strings(&["GO"]) },
            SkillTrigger::PatternMatch { pattern: "/".into(), case_insensitive: false },
        ],
        40,
    )));
    let m = r.find_matches("/go");
    let got: Vec<(String, u64)> = m.iter().map(|m| (m.skill.name.clone(), m.score_halves)).collect();
    assert_eq!(
        got,
        vec![("pat".to_string(), 600), ("cmd".to_string(), 200), ("kw".to_string(), 80)]
    );
    let kw = &m[2].trigger_match;
    assert_eq!(kw.trigger_kind, TriggerKind::Pattern);
    let best = r.find_best_match("/go").unwrap();
    assert_eq!(best.skill.name, "pat");
    assert!(r.find_best_match("nothing here").is_none());
}

#[test]
fn keyword_matches_are_case_insensitive_and_positioned() {
    let mut r = SkillRegistry::new();
    r.register(Arc::new(skill_with("kw", vec![SkillTrigger::Keywords { keywords: strings(&["Push"]) }], 6)));
    let m = r.find_matches("Ärger: PUSH");
    assert_eq!(m.len(), 1);
    let tm = &m[0].trigger_match;
    let pos = "Ärger: PUSH".to_lowercase().find("push").unwrap();
    assert_eq!(tm.matched_text, "push");
    assert_eq!((tm.start, tm.end), (pos, pos + 4));
    assert!(tm.captures.is_empty());
    assert_eq!(m[0].score_halves, 6);
}

#[test]
fn scores_follow_f32_rounding() {
    for p in [0u32, 7, 16_777_216, 16_777_217, 16_777_219, 33_554_435, 123_456_789, u32::MAX] {
        assert_eq!(f32_value(p), (p as f32) as u64);
    }
    let mut r = SkillRegistry::new();
    r.register(Arc::new(skill_with(
        "big",
        vec![SkillTrigger::PatternMatch { pattern: "x".into(), case_insensitive: false }],
        16_777_217,
    )));
    let m = r.find_matches("x");
    assert_eq!(m[0].score_halves as f64 / 2.0, (16_777_217u32 as f32) as f64);
}

#[test]
fn invalid_patterns_are_not_indexed() {
    let mut r = SkillRegistry::new();
    r.register(Arc::new(skill_with(
        "bad",
        vec![SkillTrigger::PatternMatch { pattern: "[".into(), case_insensitive: false }],
        5,
    )));
    assert!(r.find_matches("[").is_empty());
}

// ---------------------------------------------------------------------------
// resolver
// ---------------------------------------------------------------------------

#[test]
fn resolve_sorts_tools_and_expands_only_known_names() {
    let mut r = SkillRegistry::new();
    let mut s = Skill::simple("t", "T body");
    s.metadata.tools = strings(&["grep", "bash", "grep"]);
    r.register(Arc::new(s));
    let res = SkillResolver::new(Arc::new(r), String::new());
    assert_eq!(res.resolve("t").unwrap().combined_tools, strings(&["bash", "grep"]));
    assert!(res.resolve("u").is_none());
    assert_eq!(res.expand_prompt("see @skill:u and {{skill:t}}"), "see @skill:u and T body");
    assert_eq!(res.find_skill_references("@skill:b @skill:a {{skill:b}}"), strings(&["a", "b"]));
    assert_eq!(res.expand_prompt("plain"), "plain");
}

#[test]
fn expansion_replaces_whole_references_only() {
    let mut r = SkillRegistry::new();
    r.register(Arc::new(Skill::simple("help", "H")));
    let res = SkillResolver::new(Arc::new(r), String::new());
    assert_eq!(res.expand_prompt("@skill:help @skill:helper"), "H @skill:helper");
    assert_eq!(res.expand_prompt("@skill:help-x, @skill:help."), "@skill:help-x, H.");
    assert_eq!(res.expand_prompt("{{skill:help}}@skill:help"), "HH");
}

// ---------------------------------------------------------------------------
// loader
// ---------------------------------------------------------------------------

#[test]
fn loader_glob_patterns() {
    let l = SkillLoader::new("/skills");
    assert_eq!(l.glob_pattern(), "/skills/**/*.md");
    let l = l.recursive(false);
    assert_eq!(l.glob_pattern(), "/skills/*.md");
    assert_eq!(l.base_dir(), "/skills");
}

#[test]
fn loader_errors_and_names() {
    let unterminated = parse_skill_markdown("a.md", Some("a"), "---\nname: x", None);
    assert!(matches!(unterminated, Err(LoadError::MissingDelimiter { ref path }) if path == "a.md"));
    let bad_yaml: Result<serde_yaml::Value, serde_yaml::Error> = serde_yaml::from_str("a: [");
    let yaml_err = parse_skill_markdown("b.md", Some("b"), "---\na: [\n---\nx", Some(Err(bad_yaml.unwrap_err())));
    assert!(matches!(yaml_err, Err(LoadError::YamlParse { .. })));
    let no_name = parse_skill_markdown("", None, "---\nx: 1\n---\nbody", Some(Ok(SkillMetadata::default())));
    assert!(matches!(no_name, Err(LoadError::MissingName { .. })));
    let from_stem = parse_skill_markdown("dir/c.md", Some("c"), "---\nx: 1\n---\nbody", Some(Ok(SkillMetadata::default())))
        .unwrap()
        .unwrap();
    assert_eq!(from_stem.name, "c");
    assert_eq!(from_stem.description, "");
    assert_eq!(from_stem.source.as_deref(), Some("dir/c.md"));
    let named = parse_skill_markdown("d.md", Some("d"), "---\nname: n\n---\n", Some(Ok(SkillMetadata::default())))
        .unwrap()
        .unwrap();
    assert_eq!(named.name, "n");
    assert_eq!(named.prompt, "");
}

#[test]
fn loaded_skills_sort_by_priority() {
    let v = vec![skill_with("a", vec![], 1), skill_with("b", vec![], 7), skill_with("c", vec![], 1)];
    let names: Vec<String> = sort_by_priority(v).into_iter().map(|s| s.name).collect();
    assert_eq!(names, strings(&["b", "a", "c"]));
}

// ---------------------------------------------------------------------------
// activation
// ---------------------------------------------------------------------------

fn activation(system: &str, text: &str, files: &[(&str, &str)], av: &[&str], bl: &[&str]) -> ActivationResult {
    ActivationResult {
        system_prompt: system.to_string(),
        skill_message: Message::user(text),
        loaded_files: files.iter().map(|(p, c)| (p.to_string(), c.to_string())).collect(),
        available_tools: strings(av),
        blocked_tools: strings(bl),
    }
}

#[test]
fn context_paths_and_activation() {
    let mut s = Skill::simple("rev", "Review {{trigger_input}}\n{{context_files}}");
    s.description = "Reviews".into();
    s.metadata.context_files = strings(&["README.md", "/etc/style.md"]);
    s.metadata.tools = strings(&["grep"]);
    s.metadata.denied_tools = strings(&["bash"]);
    let reg = Arc::new(SkillRegistry::new());
    let act = SkillActivator::new(Arc::clone(&reg), "/work".into());
    assert_eq!(act.context_file_paths(&s), strings(&["/work/README.md", "/etc/style.md"]));
    let act_slash = SkillActivator::new(reg, "/work/".into());
    assert_eq!(act_slash.context_file_paths(&s)[0], "/work/README.md");
    let m = SkillMatch {
        skill: Arc::new(s),
        trigger_match: TriggerMatch { matched_text: "/rev".into(), ..empty_match() },
        score_halves: 200,
    };
    let r = act.activate(m, vec![("/work/README.md".into(), "readme".into())], "id".into());
    assert_eq!(r.system_prompt, "You are operating with the 'rev' skill enabled.\nReviews\n\n");
    assert_eq!(r.skill_message.role, Role::User);
    match &r.skill_message.content[..] {
        [ContentBlock::Text { text }] => assert_eq!(text, "Review /rev\n--- /work/README.md ---\nreadme"),
        other => panic!("unexpected {:?}", other),
    }
    assert_eq!(r.available_tools, strings(&["grep"]));
    assert_eq!(r.blocked_tools, strings(&["bash"]));
}

#[test]
fn batch_activation_combines() {
    let act = SkillActivator::new(Arc::new(SkillRegistry::new()), "/".into());
    let empty = act.activate_batch(vec![]);
    assert_eq!(empty.system_prompt, "");
    assert!(empty.available_tools.is_empty() && empty.blocked_tools.is_empty());
    let r = act.activate_batch(vec![
        activation("S1", "one", &[("p", "1"), ("q", "2")], &["read", "bash"], &[]),
        activation("S2", "two", &[("p", "3")], &["write", "read"], &["bash"]),
    ]);
    assert_eq!(r.system_prompt, "S1\nS2\n");
    match &r.skill_message.content[..] {
        [ContentBlock::Text { text }] => assert_eq!(text, "---\none\n\n---\ntwo\n\n"),
        other => panic!("unexpected {:?}", other),
    }
    let mut files = r.loaded_files.clone();
    files.sort();
    assert_eq!(files, vec![("p".to_string(), "3".to_string()), ("q".to_string(), "2".to_string())]);
    assert_eq!(r.available_tools, strings(&["read", "write"]));
    assert_eq!(r.blocked_tools, strings(&["bash"]));
}

#[test]
fn auto_activation_needs_confident_match() {
    let mut reg = SkillRegistry::new();
    reg.register(Arc::new(skill_with("kw", vec![SkillTrigger::Keywords { keywords: strings(&["lint"]) }], 99)));
    reg.register(Arc::new(skill_with("kw2", vec![SkillTrigger::Keywords { keywords: strings(&["fmt"]) }], 100)));
    let act = SkillActivator::new(Arc::new(reg), "/".into());
    assert!(act.should_auto_activate("lint this").is_none());
    assert_eq!(act.should_auto_activate("fmt this").unwrap().skill.name, "kw2");
    assert_eq!(act.prefetch("lint").len(), 1);
}

#[test]
fn checked_matching_variants() {
    let mut reg = SkillRegistry::new();
    reg.register(Arc::new(skill_with("kw", vec![SkillTrigger::Keywords { keywords: strings(&["lint"]) }], 100)));
    assert!(reg.keyword_offsets_fit_for("please lint"));
    let found = reg.try_find_matches("please lint").expect("offsets fit");
    assert_eq!(found.len(), 1);
    assert_eq!(found[0].skill.name, "kw");
    assert!(reg.try_find_matches("nothing").expect("offsets fit").is_empty());
    let s = skill_with("kw", vec![SkillTrigger::Keywords { keywords: strings(&["lint"]) }], 100);
    assert!(s.triggers_fit_for("lint"));
    let m = s.try_check_trigger("a lint").expect("offsets fit").expect("keyword fires");
    assert_eq!((m.start, m.end), (2, 6));
    assert!(s.try_check_trigger("other").expect("offsets fit").is_none());
    let act = SkillActivator::new(Arc::new(reg), "/".into());
    assert!(act.offsets_fit_for("lint"));
    assert_eq!(act.try_auto_activate("lint").expect("offsets fit").unwrap().skill.name, "kw");
    assert!(act.try_auto_activate("nope").expect("offsets fit").is_none());
}

#[test]
fn applying_an_activation() {
    let mut system = "base".to_string();
    let mut messages: Vec<Message> = vec![];
    apply_skill_activation(&mut system, &mut messages, activation("skill", "hello", &[], &[], &[]));
    assert_eq!(system, "skill\nbase");
    assert_eq!(messages.len(), 1);
    let empty = ActivationResult {
        system_prompt: String::new(),
        skill_message: Message { role: Role::User, content: vec![] },
        loaded_files: vec![],
        available_tools: vec![],
        blocked_tools: vec![],
    };
    apply_skill_activation(&mut system, &mut messages, empty);
    assert_eq!(system, "skill\nbase");
    assert_eq!(messages.len(), 1);
}

// ---------------------------------------------------------------------------
// provider
// ---------------------------------------------------------------------------

#[test]
fn stop_reasons() {
    assert_eq!(parse_stop_reason("end_turn"), StopReason::EndTurn);
    assert_eq!(parse_stop_reason("tool_use"), StopReason::ToolUse);
    assert_eq!(parse_stop_reason("max_tokens"), StopReason::MaxTokens);
    assert_eq!(parse_stop_reason("stop_sequence"), StopReason::StopSequence);
    assert_eq!(parse_stop_reason("other"), StopReason::EndTurn);
    let u = usage_from(TokenUsage { input_tokens: Some(3), output_tokens: None });
    assert_eq!((u.input_tokens, u.output_tokens), (3, 0));
}

#[test]
fn stream_accumulates_a_response() {
    let mut st = StreamState::new();
    assert!(st
        .step(ApiStreamEvent::MessageStart {
            id: "msg".into(),
            usage: Some(TokenUsage { input_tokens: Some(10), output_tokens: None }),
        })
        .is_none());
    match st.step(ApiStreamEvent::ContentBlockStart { index: 1, block: BlockStart::Text }) {
        Some(StreamEvent::ContentBlockStart { index: 1, content: ResponseContent::Text(t) }) => assert_eq!(t, ""),
        other => panic!("unexpected {:?}", other),
    }
    st.step(ApiStreamEvent::TextDelta { index: 1, text: "Hel".into() });
    st.step(ApiStreamEvent::TextDelta { index: 1, text: "lo".into() });
    st.step(ApiStreamEvent::ContentBlockStart {
        index: 2,
        block: BlockStart::ToolUse { id: "t1".into(), name: "grep".into() },
    });
    st.step(ApiStreamEvent::InputJsonDelta { index: 2, partial_json: "{\"q\":".into() });
    st.step(ApiStreamEvent::InputJsonDelta { index: 2, partial_json: "1}".into() });
    assert!(matches!(
        st.step(ApiStreamEvent::ContentBlockStop { index: 2 }),
        Some(StreamEvent::ContentBlockStop { index: 2 })
    ));
    assert!(st.step(ApiStreamEvent::ContentBlockStart { index: 3, block: BlockStart::Other }).is_none());
    st.step(ApiStreamEvent::MessageDelta {
        stop_reason: Some("tool_use".into()),
        usage: Some(TokenUsage { input_tokens: None, output_tokens: Some(5) }),
    });
    match st.step(ApiStreamEvent::MessageStop) {
        Some(StreamEvent::MessageDone { response }) => {
            assert_eq!(response.id, "msg");
            assert_eq!(response.stop_reason, Some(StopReason::ToolUse));
            assert_eq!((response.usage.input_tokens, response.usage.output_tokens), (10, 5));
            assert_eq!(response.content.len(), 3);
            assert!(matches!(&response.content[0], ResponseContent::Text(t) if t.is_empty()));
            assert!(matches!(&response.content[1], ResponseContent::Text(t) if t == "Hello"));
            match &response.content[2] {
                ResponseContent::ToolUse { id, name, input } => {
                    assert_eq!((id.as_str(), name.as_str()), ("t1", "grep"));
                    assert_eq!(input, &serde_json::from_str::<serde_json::Value>("{\"q\":1}").unwrap());
                }
                other => panic!("unexpected {:?}", other),
            }
        }
        other => panic!("unexpected {:?}", other),
    }
}

#[test]
fn stream_tool_input_without_json_stays_empty_object() {
    let mut st = StreamState::new();
    st.step(ApiStreamEvent::ContentBlockStart {
        index: 0,
        block: BlockStart::ToolUse { id: "t".into(), name: "ls".into() },
    });
    st.step(ApiStreamEvent::InputJsonDelta { index: 0, partial_json: "{\"n\":".into() });
    st.step(ApiStreamEvent::ContentBlockStop { index: 0 });
    match st.step(ApiStreamEvent::MessageStop) {
        Some(StreamEvent::MessageDone { response }) => match &response.content[0] {
            ResponseContent::ToolUse { input, .. } => {
                assert_eq!(input, &serde_json::Value::Object(serde_json::Map::new()))
            }
            other => panic!("unexpected {:?}", other),
        },
        other => panic!("unexpected {:?}", other),
    }
}

#[test]
fn request_for_the_api() {
    let json = |t: &str| serde_json::from_str::<serde_json::Value>(t).unwrap();
    let request = ModelRequest {
        model: "m1".into(),
        messages: vec![
            RequestMessage {
                role: "user".into(),
                content: vec![RequestContent::Text { text: "hi".into() }],
            },
            RequestMessage {
                role: "assistant".into(),
                content: vec![RequestContent::ToolUse { id: "t".into(), name: "grep".into(), input: json("{\"a\":2}") }],
            },
            RequestMessage {
                role: "system".into(),
                content: vec![
                    RequestContent::ToolResult { tool_use_id: "t".into(), content: "out".into(), is_error: None },
                    RequestContent::ToolResult { tool_use_id: "u".into(), content: "bad".into(), is_error: Some(true) },
                ],
            },
        ],
        max_tokens: 3_000_000_000,
        system: Some("sys".into()),
        tools: Some(vec![ToolDefinition { name: "grep".into(), description: "search".into(), input_schema: json("{}") }]),
    };
    let r = build_request(&request, true);
    assert_eq!(r.model, "m1");
    assert!(r.stream);
    assert_eq!(r.max_tokens, 3_000_000_000u32 as i32);
    assert_eq!(r.system.as_deref(), Some("sys"));
    let tools = r.tools.as_ref().unwrap();
    assert_eq!((tools[0].name.as_str(), tools[0].description.as_str()), ("grep", "search"));
    assert_eq!(tools[0].input_schema, json("{}"));
    assert_eq!(r.messages.len(), 3);
    assert_eq!(r.messages[0].role, ApiRole::User);
    assert!(matches!(&r.messages[0].content[..], [ApiContent::Text(t)] if t == "hi"));
    assert_eq!(r.messages[1].role, ApiRole::Assistant);
    match &r.messages[1].content[..] {
        [ApiContent::ToolUse { id, name, input }] => {
            assert_eq!((id.as_str(), name.as_str()), ("t", "grep"));
            assert_eq!(input, &json("{\"a\":2}"));
        }
        other => panic!("unexpected {:?}", other),
    }
    assert_eq!(r.messages[2].role, ApiRole::User);
    match &r.messages[2].content[..] {
        [ApiContent::ToolResult { tool_use_id: a, content: ca, is_error: ea }, ApiContent::ToolResult { tool_use_id: b, content: cb, is_error: eb }] => {
            assert_eq!((a.as_str(), ca.as_deref(), *ea), ("t", Some("out"), false));
            assert_eq!((b.as_str(), cb.as_deref(), *eb), ("u", Some("bad"), true));
        }
        other => panic!("unexpected {:?}", other),
    }
    assert_eq!(role_of("assistant"), ApiRole::Assistant);
    assert_eq!(role_of("Assistant"), ApiRole::User);
    let plain = build_request(&ModelRequest { model: "m".into(), messages: vec![], max_tokens: 5, system: None, tools: None }, false);
    assert!(!plain.stream && plain.system.is_none() && plain.tools.is_none() && plain.max_tokens == 5);
}

#[test]
fn complete_answer_to_response() {
    assert!(map_content_block(ApiContent::ToolResult { tool_use_id: "x".into(), content: None, is_error: false }).is_none());
    assert!(matches!(map_content_block(ApiContent::Text("a".into())), Some(ResponseContent::Text(t)) if t == "a"));
    let r = response_from(
        Some("id7".into()),
        Some(vec![
            ApiContent::Text("one".into()),
            ApiContent::ToolResult { tool_use_id: "x".into(), content: Some("r".into()), is_error: true },
            ApiContent::ToolUse { id: "t".into(), name: "ls".into(), input: serde_json::Value::Null },
        ]),
        Some("max_tokens".into()),
        Some(TokenUsage { input_tokens: Some(4), output_tokens: None }),
    );
    assert_eq!(r.id, "id7");
    assert_eq!(r.stop_reason, Some(StopReason::MaxTokens));
    assert_eq!((r.usage.input_tokens, r.usage.output_tokens), (4, 0));
    assert_eq!(r.content.len(), 2);
    assert!(matches!(&r.content[0], ResponseContent::Text(t) if t == "one"));
    assert!(matches!(&r.content[1], ResponseContent::ToolUse { id, name, .. } if id == "t" && name == "ls"));
    let empty = response_from(None, None, None, None);
    assert_eq!(empty.id, "");
    assert!(empty.content.is_empty() && empty.stop_reason.is_none());
    assert_eq!((empty.usage.input_tokens, empty.usage.output_tokens), (0, 0));
}

// ---------------------------------------------------------------------------
// cli
// ---------------------------------------------------------------------------

#[test]
fn option_values() {
    assert_eq!(parse_output_format("text"), Some(OutputFormat::Text));
    assert_eq!(parse_output_format("stream-json"), Some(OutputFormat::StreamJson));
    assert_eq!(parse_output_format("json"), Some(OutputFormat::Json));
    assert_eq!(parse_output_format("xml"), None);
    assert_eq!(parse_permission("deny"), (PermissionChoice::Deny, true));
    assert_eq!(parse_permission("interactive"), (PermissionChoice::Interactive, true));
    assert_eq!(parse_permission("auto"), (PermissionChoice::AutoApprove, true));
    assert_eq!(parse_permission("sometimes"), (PermissionChoice::AutoApprove, false));
}

#[test]
fn truncate_and_summaries() {
    assert_eq!(truncate("hello", 10), "hello");
    assert_eq!(truncate("hello", 3), "hel...");
    assert_eq!(truncate("héllo", 3), "hé...");
    assert_eq!(decimal_string(0), "0");
    assert_eq!(decimal_string(1234567890123), "1234567890123");
    for len in [0usize, 1, 1023, 1024, 1075, 1076, 1280, 1331, 1536, 1843, 10_240, 1_048_576, 123_456_789] {
        let s = "a".repeat(len);
        let expected = if len < 1024 { format!("{} bytes", len) } else { format!("{:.1} KB", len as f64 / 1024.0) };
        assert_eq!(byte_summary(&s), expected, "len {}", len);
    }
}
