//! The skill: a prompt with metadata, its triggers and their matching.
use vstd::prelude::*;

use crate::pattern::{
    compile_pattern, pattern_captures, pattern_find, regex_captures, regex_compiles, regex_find,
    Pattern,
};
use crate::text::{
    byte_len, byte_len_of, byte_offset, chars_of, contains, contains_str, find, find_chars,
    lowercase, owned, prefix_byte_len, replace, replace_all, starts_with,
    starts_with_str, str_eq, to_lowercase, trim, trimmed,
};

verus! {

#[verifier::external_type_specification]
#[verifier::external_body]
pub struct ExJsonValue(serde_json::Value);

/// `Clone::clone` of a JSON value (derived by `serde_json`: a deep copy,
/// so the same value).
#[verifier::external_body]
pub(crate) fn clone_json(v: &serde_json::Value) -> (r: serde_json::Value)
    ensures
        r == *v,
{
    v.clone()
}

/// A skill is a text-based agent extension defined in Markdown.
#[derive(Debug)]
pub struct Skill {
    /// Unique skill identifier.
    pub name: String,
    /// Human-readable description.
    pub description: String,
    /// The skill prompt template (Markdown body after frontmatter).
    pub prompt: String,
    /// Metadata from YAML frontmatter.
    pub metadata: SkillMetadata,
    /// Source file path (if loaded from disk).
    pub source: Option<String>,
    /// Whether this skill is currently enabled.
    pub enabled: bool,
}

/// Metadata extracted from YAML frontmatter.
#[derive(Debug)]
pub struct SkillMetadata {
    /// Version string for skill updates.
    pub version: String,
    /// Author information.
    pub author: String,
    /// Priority for skill ordering (higher = more important).
    pub priority: u32,
    /// Tools this skill is allowed to use; empty means all tools.
    pub tools: Vec<String>,
    /// Tools explicitly denied for this skill.
    pub denied_tools: Vec<String>,
    /// Files to prefetch when the skill activates.
    pub context_files: Vec<String>,
    /// Conditions that trigger this skill.
    pub triggers: Vec<SkillTrigger>,
    /// Tags for categorization and search.
    pub tags: Vec<String>,
}

/// Conditions that can activate a skill.
#[derive(Debug)]
pub enum SkillTrigger {
    /// Regex pattern match against user input.
    PatternMatch { pattern: String, case_insensitive: bool },
    /// Slash command trigger (e.g. `/review`).
    SlashCommand { command: String, alias: Vec<String> },
    /// File path trigger (activated when matching files exist).
    FileGlob { glob: String },
    /// Keyword presence in conversation.
    Keywords { keywords: Vec<String> },
    /// Manual activation only.
    ManualOnly,
    /// Custom condition evaluated by a plugin.
    CustomCondition { condition: String, params: Vec<(String, serde_json::Value)> },
}

/// Runtime context passed to an activated skill.
#[derive(Debug)]
pub struct SkillContext {
    /// The session ID.
    pub session_id: String,
    /// Working directory.
    pub cwd: String,
    /// The user input that triggered this skill.
    pub trigger_input: String,
    /// Matched trigger details.
    pub trigger_match: TriggerMatch,
    /// Preloaded context file contents, by path (a map: one entry per path,
    /// see `keys_distinct`).
    pub context_contents: Vec<(String, String)>,
    /// Additional variables for prompt interpolation (a map: one entry per
    /// name).
    pub variables: Vec<(String, String)>,
}

/// Details about how a trigger matched.
#[derive(Debug)]
pub struct TriggerMatch {
    /// Matched text or pattern.
    pub matched_text: String,
    /// Start position in input (bytes).
    pub start: usize,
    /// End position in input (bytes).
    pub end: usize,
    /// Captured groups (for regex patterns).
    pub captures: Vec<String>,
    /// The trigger kind that matched.
    pub trigger_kind: TriggerKind,
}

#[derive(Debug, Clone, Copy, PartialEq, Eq, Structural)]
pub enum TriggerKind {
    Command,
    Pattern,
    Keyword,
    Manual,
}

// ---------------------------------------------------------------------------
// Views
// ---------------------------------------------------------------------------

pub enum TriggerView {
    Pattern { pattern: Seq<char>, case_insensitive: bool },
    Command { command: Seq<char>, alias: Seq<Seq<char>> },
    FileGlob { glob: Seq<char> },
    Keywords { keywords: Seq<Seq<char>> },
    Manual,
    Custom { condition: Seq<char>, params: Seq<(Seq<char>, serde_json::Value)> },
}

pub struct MetadataView {
    pub version: Seq<char>,
    pub author: Seq<char>,
    pub priority: u32,
    pub tools: Seq<Seq<char>>,
    pub denied_tools: Seq<Seq<char>>,
    pub context_files: Seq<Seq<char>>,
    pub triggers: Seq<TriggerView>,
    pub tags: Seq<Seq<char>>,
}

pub struct SkillView {
    pub name: Seq<char>,
    pub description: Seq<char>,
    pub prompt: Seq<char>,
    pub metadata: MetadataView,
    pub source: Option<Seq<char>>,
    pub enabled: bool,
}

pub struct MatchView {
    pub text: Seq<char>,
    pub start: usize,
    pub end: usize,
    pub captures: Seq<Seq<char>>,
    pub kind: TriggerKind,
}

impl View for SkillTrigger {
    type V = TriggerView;

    open spec fn view(&self) -> TriggerView {
        match self {
            SkillTrigger::PatternMatch { pattern, case_insensitive } => TriggerView::Pattern {
                pattern: pattern@,
                case_insensitive: *case_insensitive,
            },
            SkillTrigger::SlashCommand { command, alias } => TriggerView::Command {
                command: command@,
                alias: alias.deep_view(),
            },
            SkillTrigger::FileGlob { glob } => TriggerView::FileGlob { glob: glob@ },
            SkillTrigger::Keywords { keywords } => TriggerView::Keywords {
                keywords: keywords.deep_view(),
            },
            SkillTrigger::ManualOnly => TriggerView::Manual,
            SkillTrigger::CustomCondition { condition, params } => TriggerView::Custom {
                condition: condition@,
                params: params_view(params@),
            },
        }
    }
}

/// Custom-condition parameters: each name with its JSON value.
pub open spec fn params_view(ps: Seq<(String, serde_json::Value)>) -> Seq<(Seq<char>, serde_json::Value)> {
    ps.map_values(|p: (String, serde_json::Value)| (p.0@, p.1))
}

pub open spec fn triggers_view(ts: Seq<SkillTrigger>) -> Seq<TriggerView> {
    ts.map_values(|t: SkillTrigger| t@)
}

impl View for SkillMetadata {
    type V = MetadataView;

    open spec fn view(&self) -> MetadataView {
        MetadataView {
            version: self.version@,
            author: self.author@,
            priority: self.priority,
            tools: self.tools.deep_view(),
            denied_tools: self.denied_tools.deep_view(),
            context_files: self.context_files.deep_view(),
            triggers: triggers_view(self.triggers@),
            tags: self.tags.deep_view(),
        }
    }
}

pub open spec fn option_view(o: Option<String>) -> Option<Seq<char>> {
    match o {
        Some(s) => Some(s@),
        None => None,
    }
}

impl View for Skill {
    type V = SkillView;

    open spec fn view(&self) -> SkillView {
        SkillView {
            name: self.name@,
            description: self.description@,
            prompt: self.prompt@,
            metadata: self.metadata@,
            source: option_view(self.source),
            enabled: self.enabled,
        }
    }
}

impl View for TriggerMatch {
    type V = MatchView;

    open spec fn view(&self) -> MatchView {
        MatchView {
            text: self.matched_text@,
            start: self.start,
            end: self.end,
            captures: self.captures.deep_view(),
            kind: self.trigger_kind,
        }
    }
}

// ---------------------------------------------------------------------------
// Specifications of matching and rendering
// ---------------------------------------------------------------------------

/// The default `priority` of a frontmatter that names none.
pub open spec fn spec_default_priority() -> u32 {
    5
}

/// A skill may use `tool`: it is not denied, and the allowed list is empty
/// or names it.
pub open spec fn may_use_tool(m: MetadataView, tool: Seq<char>) -> bool {
    &&& !m.denied_tools.contains(tool)
    &&& (m.tools.len() == 0 || m.tools.contains(tool))
}

/// What a slash command trigger reports for `input`.
pub open spec fn command_match(input: Seq<char>) -> MatchView {
    let t = trimmed(input);
    MatchView {
        text: t,
        start: 0,
        end: byte_len(input) as usize,
        captures: seq![t],
        kind: TriggerKind::Command,
    }
}

/// The source text of the regex for a pattern trigger.
pub open spec fn regex_source(pattern: Seq<char>, case_insensitive: bool) -> Seq<char> {
    if case_insensitive {
        seq!['(', '?', 'i', ')'] + pattern
    } else {
        pattern
    }
}

/// The texts of the groups that took part, in order.
pub open spec fn present_groups(gs: Seq<Option<Seq<char>>>) -> Seq<Seq<char>>
    decreases gs.len(),
{
    if gs.len() == 0 {
        Seq::empty()
    } else {
        let rest = present_groups(gs.drop_last());
        match gs.last() {
            Some(g) => rest.push(g),
            None => rest,
        }
    }
}

/// The captures reported for a regex match: none when there is no match.
pub open spec fn capture_texts(c: Option<Seq<Option<Seq<char>>>>) -> Seq<Seq<char>> {
    match c {
        Some(gs) => present_groups(gs),
        None => Seq::empty(),
    }
}

/// What a regex with source `source` reports for `input`.
pub open spec fn regex_match(source: Seq<char>, input: Seq<char>) -> Option<MatchView> {
    if !regex_compiles(source) {
        None
    } else {
        match regex_find(source, input) {
            None => None,
            Some(m) => Some(
                MatchView {
                    text: m.2,
                    start: m.0,
                    end: m.1,
                    captures: capture_texts(regex_captures(source, input)),
                    kind: TriggerKind::Pattern,
                },
            ),
        }
    }
}

/// The first keyword from index `j` on whose lowercase form occurs in
/// `lower`, with the byte position of that occurrence.
pub open spec fn keyword_match_from(kws: Seq<Seq<char>>, j: int, lower: Seq<char>) -> Option<MatchView>
    decreases kws.len() - j,
{
    if j < 0 || j >= kws.len() {
        None
    } else {
        match find(lower, lowercase(kws[j])) {
            Some(p) => Some(
                MatchView {
                    text: kws[j],
                    start: byte_offset(lower, p) as usize,
                    end: (byte_offset(lower, p) + byte_len(kws[j])) as usize,
                    captures: seq![kws[j]],
                    kind: TriggerKind::Keyword,
                },
            ),
            None => keyword_match_from(kws, j + 1, lower),
        }
    }
}

/// Byte positions of keyword matches fit in `usize` for this input.
pub open spec fn keywords_fit(kws: Seq<Seq<char>>, input: Seq<char>) -> bool {
    forall|j: int|
        0 <= j < kws.len() ==> byte_len(lowercase(input)) + byte_len(#[trigger] kws[j])
            <= usize::MAX
}

/// What one trigger reports for `input`, if it fires.
pub open spec fn trigger_fires(t: TriggerView, input: Seq<char>) -> Option<MatchView> {
    match t {
        TriggerView::Command { command, alias } => {
            let tr = trimmed(input);
            if tr == command || alias.contains(tr) {
                Some(command_match(input))
            } else {
                None
            }
        },
        TriggerView::Pattern { pattern, case_insensitive } => regex_match(
            regex_source(pattern, case_insensitive),
            input,
        ),
        TriggerView::Keywords { keywords } => keyword_match_from(keywords, 0, lowercase(input)),
        _ => None,
    }
}

/// The report of the first trigger from index `i` on that fires.
pub open spec fn first_trigger_from(ts: Seq<TriggerView>, i: int, input: Seq<char>) -> Option<MatchView>
    decreases ts.len() - i,
{
    if i < 0 || i >= ts.len() {
        None
    } else {
        match trigger_fires(ts[i], input) {
            Some(m) => Some(m),
            None => first_trigger_from(ts, i + 1, input),
        }
    }
}

/// What `check_trigger` reports for a skill and an input.
pub open spec fn spec_check_trigger(s: SkillView, input: Seq<char>) -> Option<MatchView> {
    if !s.enabled {
        None
    } else {
        first_trigger_from(s.metadata.triggers, 0, input)
    }
}

/// All keyword byte positions of the skill's triggers fit in `usize`.
pub open spec fn triggers_fit(ts: Seq<TriggerView>, input: Seq<char>) -> bool {
    forall|i: int|
        0 <= i < ts.len() ==> match #[trigger] ts[i] {
            TriggerView::Keywords { keywords } => keywords_fit(keywords, input),
            _ => true,
        }
}

/// `{{key}}`.
pub open spec fn placeholder(key: Seq<char>) -> Seq<char> {
    seq!['{', '{'] + key + seq!['}', '}']
}

/// Replaces `{{key}}` by its value for each variable, in order.
pub open spec fn substitute_vars(text: Seq<char>, vars: Seq<(Seq<char>, Seq<char>)>) -> Seq<char>
    decreases vars.len(),
{
    if vars.len() == 0 {
        text
    } else {
        let last = vars.last();
        replace(substitute_vars(text, vars.drop_last()), placeholder(last.0), last.1)
    }
}

/// `--- path ---\ncontent` for one context file.
pub open spec fn file_section(path: Seq<char>, content: Seq<char>) -> Seq<char> {
    seq!['-', '-', '-', ' '] + path + seq![' ', '-', '-', '-', '\n'] + content
}

/// The sections of the files, separated by blank lines.
pub open spec fn join_sections(files: Seq<(Seq<char>, Seq<char>)>) -> Seq<char>
    decreases files.len(),
{
    if files.len() == 0 {
        Seq::empty()
    } else if files.len() == 1 {
        file_section(files[0].0, files[0].1)
    } else {
        let last = files.last();
        join_sections(files.drop_last()) + seq!['\n', '\n'] + file_section(last.0, last.1)
    }
}

/// No key occurs twice: the pairs stand for a map.
pub open spec fn keys_distinct<K, V>(s: Seq<(K, V)>) -> bool {
    forall|i: int, j: int| 0 <= i < j < s.len() ==> (#[trigger] s[i]).0 != (#[trigger] s[j]).0
}

pub open spec fn pairs_view(v: Seq<(String, String)>) -> Seq<(Seq<char>, Seq<char>)> {
    v.map_values(|p: (String, String)| (p.0@, p.1@))
}

/// The rendered prompt: variables, then `{{trigger_input}}`, `{{cwd}}`, and
/// `{{context_files}}` when it occurs.
pub open spec fn spec_render(
    prompt: Seq<char>,
    vars: Seq<(Seq<char>, Seq<char>)>,
    trigger_input: Seq<char>,
    cwd: Seq<char>,
    files: Seq<(Seq<char>, Seq<char>)>,
) -> Seq<char> {
    let r1 = substitute_vars(prompt, vars);
    let r2 = replace(r1, "{{trigger_input}}"@, trigger_input);
    let r3 = replace(r2, "{{cwd}}"@, cwd);
    if contains(r3, "{{context_files}}"@) {
        replace(r3, "{{context_files}}"@, join_sections(files))
    } else {
        r3
    }
}

// ---------------------------------------------------------------------------
// Copies
// ---------------------------------------------------------------------------

/// A copy of a list of strings.
pub fn clone_strings(v: &Vec<String>) -> (r: Vec<String>)
    ensures
        r.deep_view() == v.deep_view(),
{
    let mut r: Vec<String> = Vec::new();
    for i in 0..v.len()
        invariant
            r.deep_view() == v.deep_view().take(i as int),
    {
        let ghost before = r.deep_view();
        let c = v[i].clone();
        r.push(c);
        assert(r.deep_view() =~= before.push(v@[i as int]@));
        assert(r.deep_view() =~= v.deep_view().take(i + 1));
    }
    assert(v.deep_view().take(v.len() as int) =~= v.deep_view());
    r
}

impl SkillTrigger {
    /// A copy of this trigger (custom-condition parameters are copied too).
    pub fn copy(&self) -> (r: SkillTrigger)
        ensures
            r@ == self@,
    {
        match self {
            SkillTrigger::PatternMatch { pattern, case_insensitive } => SkillTrigger::PatternMatch {
                pattern: pattern.clone(),
                case_insensitive: *case_insensitive,
            },
            SkillTrigger::SlashCommand { command, alias } => SkillTrigger::SlashCommand {
                command: command.clone(),
                alias: clone_strings(alias),
            },
            SkillTrigger::FileGlob { glob } => SkillTrigger::FileGlob { glob: glob.clone() },
            SkillTrigger::Keywords { keywords } => SkillTrigger::Keywords {
                keywords: clone_strings(keywords),
            },
            SkillTrigger::ManualOnly => SkillTrigger::ManualOnly,
            SkillTrigger::CustomCondition { condition, params } => {
                let mut ps: Vec<(String, serde_json::Value)> = Vec::new();
                for i in 0..params.len()
                    invariant
                        params_view(ps@) == params_view(params@).take(i as int),
                {
                    let ghost before = params_view(ps@);
                    ps.push((params[i].0.clone(), clone_json(&params[i].1)));
                    assert(params_view(ps@) =~= before.push(params_view(params@)[i as int]));
                    assert(params_view(params@).take(i + 1) =~= before.push(
                        params_view(params@)[i as int],
                    ));
                }
                assert(params_view(params@).take(params@.len() as int) =~= params_view(params@));
                SkillTrigger::CustomCondition { condition: condition.clone(), params: ps }
            },
        }
    }
}

impl SkillMetadata {
    /// A copy of this metadata.
    pub fn copy(&self) -> (r: SkillMetadata)
        ensures
            r@ == self@,
    {
        let mut triggers: Vec<SkillTrigger> = Vec::new();
        for i in 0..self.triggers.len()
            invariant
                triggers_view(triggers@) == triggers_view(self.triggers@).take(i as int),
        {
            let ghost before = triggers_view(triggers@);
            let t = self.triggers[i].copy();
            triggers.push(t);
            assert(triggers_view(triggers@) =~= before.push(self.triggers@[i as int]@));
            assert(triggers_view(triggers@) =~= triggers_view(self.triggers@).take(i + 1));
        }
        assert(triggers_view(self.triggers@).take(self.triggers@.len() as int) =~= triggers_view(
            self.triggers@,
        ));
        SkillMetadata {
            version: self.version.clone(),
            author: self.author.clone(),
            priority: self.priority,
            tools: clone_strings(&self.tools),
            denied_tools: clone_strings(&self.denied_tools),
            context_files: clone_strings(&self.context_files),
            triggers,
            tags: clone_strings(&self.tags),
        }
    }
}

impl Default for SkillMetadata {
    /// Empty metadata with priority 0.
    fn default() -> (r: SkillMetadata)
        ensures
            r@.version.len() == 0,
            r@.author.len() == 0,
            r@.priority == 0,
            r@.tools.len() == 0,
            r@.denied_tools.len() == 0,
            r@.context_files.len() == 0,
            r@.triggers.len() == 0,
            r@.tags.len() == 0,
    {
        SkillMetadata {
            version: String::new(),
            author: String::new(),
            priority: 0,
            tools: Vec::new(),
            denied_tools: Vec::new(),
            context_files: Vec::new(),
            triggers: Vec::new(),
            tags: Vec::new(),
        }
    }
}

/// The `enabled` value of a skill whose source does not say.
pub fn default_enabled() -> (r: bool)
    ensures
        r,
{
    true
}

/// The `priority` of a frontmatter that names none.
pub fn default_priority() -> (r: u32)
    ensures
        r == spec_default_priority(),
{
    5
}

impl TriggerMatch {
    /// A copy of this match.
    pub fn copy(&self) -> (r: TriggerMatch)
        ensures
            r@ == self@,
    {
        TriggerMatch {
            matched_text: self.matched_text.clone(),
            start: self.start,
            end: self.end,
            captures: clone_strings(&self.captures),
            trigger_kind: self.trigger_kind,
        }
    }
}

// ---------------------------------------------------------------------------
// Skill operations
// ---------------------------------------------------------------------------

/// Whether `tool` is one of `list`.
pub fn list_contains(list: &Vec<String>, tool: &str) -> (b: bool)
    ensures
        b == list.deep_view().contains(tool@),
{
    let n = list.len();
    for i in 0..n
        invariant
            n == list@.len(),
            forall|k: int| 0 <= k < i ==> list.deep_view()[k] != tool@,
    {
        if str_eq(list[i].as_str(), tool) {
            assert(list.deep_view()[i as int] == tool@);
            return true;
        }
    }
    false
}

/// The texts of the groups that took part.
fn present_group_texts(gs: &Vec<Option<String>>) -> (r: Vec<String>)
    ensures
        r.deep_view() == present_groups(gs@.map_values(|g: Option<String>| option_view(g))),
{
    let ghost gv = gs@.map_values(|g: Option<String>| option_view(g));
    let mut r: Vec<String> = Vec::new();
    for i in 0..gs.len()
        invariant
            gv == gs@.map_values(|g: Option<String>| option_view(g)),
            r.deep_view() == present_groups(gv.take(i as int)),
    {
        assert(gv.take(i + 1).drop_last() =~= gv.take(i as int));
        match &gs[i] {
            Some(g) => {
                r.push(g.clone());
                assert(r.deep_view() =~= present_groups(gv.take(i as int)).push(g@));
            },
            None => {},
        }
    }
    assert(gv.take(gs@.len() as int) =~= gv);
    r
}

/// The texts that the groups of the pattern's first match in `input`
/// captured (none when there is no match).
pub(crate) fn captured_texts(re: &Pattern, input: &str) -> (r: Vec<String>)
    ensures
        r.deep_view() == capture_texts(regex_captures(re@, input@)),
{
    let caps = match pattern_captures(re, input) {
        Some(gs) => {
            let r = present_group_texts(&gs);
            proof {
                let spec_gs = regex_captures(re@, input@)->0;
                assert(gs@.map_values(|g: Option<String>| option_view(g)) =~= spec_gs);
            }
            r
        },
        None => Vec::new(),
    };
    proof {
        if regex_captures(re@, input@) is None {
            assert(caps.deep_view() =~= Seq::<Seq<char>>::empty());
        }
    }
    caps
}

impl Skill {
    /// A minimal skill with just a name and a prompt.
    pub fn simple(name: &str, prompt: &str) -> (r: Skill)
        ensures
            r@.name == name@,
            r@.prompt == prompt@,
            r@.description.len() == 0,
            r@.metadata.priority == 0,
            r@.metadata.tools.len() == 0,
            r@.metadata.denied_tools.len() == 0,
            r@.metadata.context_files.len() == 0,
            r@.metadata.triggers.len() == 0,
            r@.metadata.tags.len() == 0,
            r@.metadata.version.len() == 0,
            r@.metadata.author.len() == 0,
            r@.source is None,
            r@.enabled,
    {
        Skill {
            name: owned(name),
            description: String::new(),
            prompt: owned(prompt),
            metadata: SkillMetadata::default(),
            source: None,
            enabled: true,
        }
    }

    /// A copy of this skill.
    pub fn copy(&self) -> (r: Skill)
        ensures
            r@ == self@,
    {
        Skill {
            name: self.name.clone(),
            description: self.description.clone(),
            prompt: self.prompt.clone(),
            metadata: self.metadata.copy(),
            source: match &self.source {
                Some(s) => Some(s.clone()),
                None => None,
            },
            enabled: self.enabled,
        }
    }

    /// Whether this skill can use the tool `tool_name`: denied tools always
    /// block; an empty allowed list allows every other tool.
    pub fn can_use_tool(&self, tool_name: &str) -> (b: bool)
        ensures
            b == may_use_tool(self@.metadata, tool_name@),
    {
        if list_contains(&self.metadata.denied_tools, tool_name) {
            return false;
        }
        if self.metadata.tools.len() == 0 {
            return true;
        }
        list_contains(&self.metadata.tools, tool_name)
    }

    /// What one trigger reports for `input`, if it fires.
    fn fire(t: &SkillTrigger, input: &str) -> (r: Option<TriggerMatch>)
        requires
            match t@ {
                TriggerView::Keywords { keywords } => keywords_fit(keywords, input@),
                _ => true,
            },
        ensures
            r matches Some(m) ==> trigger_fires(t@, input@) == Some(m@),
            r is None ==> trigger_fires(t@, input@) is None,
    {
        match t {
            SkillTrigger::SlashCommand { command, alias } => {
                let trimmed_input = trim(input);
                if str_eq(trimmed_input, command.as_str()) || list_contains(alias, trimmed_input) {
                    let m = TriggerMatch {
                        matched_text: owned(trimmed_input),
                        start: 0,
                        end: byte_len_of(input),
                        captures: vec![owned(trimmed_input)],
                        trigger_kind: TriggerKind::Command,
                    };
                    assert(m@.captures =~= seq![trimmed(input@)]);
                    Some(m)
                } else {
                    None
                }
            },
            SkillTrigger::PatternMatch { pattern, case_insensitive } => {
                let source = if *case_insensitive {
                    let mut s = String::new();
                    let prefix = "(?i)";
                    proof {
                        reveal_strlit("(?i)");
                    }
                    s.append(prefix);
                    s.append(pattern.as_str());
                    s
                } else {
                    pattern.clone()
                };
                assert(source@ =~= regex_source(pattern@, *case_insensitive));
                match compile_pattern(source.as_str()) {
                    None => None,
                    Some(re) => match pattern_find(&re, input) {
                        None => None,
                        Some((start, end, text)) => {
                            let caps = captured_texts(&re, input);
                            Some(
                                TriggerMatch {
                                    matched_text: text,
                                    start,
                                    end,
                                    captures: caps,
                                    trigger_kind: TriggerKind::Pattern,
                                },
                            )
                        },
                    },
                }
            },
            SkillTrigger::Keywords { keywords } => {
                assert(t@ == TriggerView::Keywords { keywords: keywords.deep_view() });
                let lower = to_lowercase(input);
                let lower_chars = chars_of(lower.as_str());
                let n = keywords.len();
                let mut j: usize = 0;
                while j < n
                    invariant
                        n == keywords@.len(),
                        j <= n,
                        t@ == (TriggerView::Keywords { keywords: keywords.deep_view() }),
                        lower@ == lowercase(input@),
                        lower_chars@ == lower@,
                        keywords_fit(keywords.deep_view(), input@),
                        keyword_match_from(keywords.deep_view(), 0, lower@) == keyword_match_from(
                            keywords.deep_view(),
                            j as int,
                            lower@,
                        ),
                    decreases n - j,
                {
                    let kw = &keywords[j];
                    assert(keywords.deep_view()[j as int] == kw@);
                    let kw_lower = to_lowercase(kw.as_str());
                    let kw_chars = chars_of(kw_lower.as_str());
                    match find_chars(&lower_chars, &kw_chars) {
                        Some(p) => {
                            proof {
                                lemma_prefix_byte_len(lower@, p as int);
                            }
                            let pos = prefix_byte_len(lower.as_str(), p);
                            let kw_len = byte_len_of(kw.as_str());
                            let m = TriggerMatch {
                                matched_text: kw.clone(),
                                start: pos,
                                end: pos + kw_len,
                                captures: vec![kw.clone()],
                                trigger_kind: TriggerKind::Keyword,
                            };
                            assert(m@.captures =~= seq![kw@]);
                            return Some(m);
                        },
                        None => {},
                    }
                    j = j + 1;
                }
                None
            },
            SkillTrigger::ManualOnly => None,
            SkillTrigger::FileGlob { .. } => None,
            SkillTrigger::CustomCondition { .. } => None,
        }
    }

    /// The first of this skill's triggers (in order) that fires for `input`,
    /// with what it matched; none for a disabled skill.
    pub fn check_trigger(&self, input: &str) -> (r: Option<TriggerMatch>)
        requires
            self@.enabled ==> triggers_fit(self@.metadata.triggers, input@),
        ensures
            r matches Some(m) ==> spec_check_trigger(self@, input@) == Some(m@),
            r is None ==> spec_check_trigger(self@, input@) is None,
    {
        if !self.enabled {
            return None;
        }
        let ghost ts = self@.metadata.triggers;
        assert(spec_check_trigger(self@, input@) == first_trigger_from(ts, 0, input@));
        let n = self.metadata.triggers.len();
        let mut i: usize = 0;
        while i < n
            invariant
                ts == self@.metadata.triggers,
                self@.enabled,
                spec_check_trigger(self@, input@) == first_trigger_from(ts, 0, input@),
                ts == triggers_view(self.metadata.triggers@),
                n == ts.len(),
                i <= n,
                triggers_fit(ts, input@),
                first_trigger_from(ts, 0, input@) == first_trigger_from(ts, i as int, input@),
            decreases n - i,
        {
            let t = &self.metadata.triggers[i];
            assert(ts[i as int] == t@);
            match Skill::fire(t, input) {
                Some(m) => {
                    assert(first_trigger_from(ts, i as int, input@) == Some(m@));
                    return Some(m);
                },
                None => {},
            }
            i = i + 1;
        }
        None
    }

    /// Whether the byte positions of this skill's keyword triggers in
    /// `input` fit in `usize`, as `check_trigger` needs.
    pub fn triggers_fit_for(&self, input: &str) -> (r: bool)
        ensures
            r == triggers_fit(self@.metadata.triggers, input@),
    {
        let lower = to_lowercase(input);
        let lb = byte_len_of(lower.as_str());
        let ghost ts = self@.metadata.triggers;
        let n = self.metadata.triggers.len();
        for i in 0..n
            invariant
                ts == self@.metadata.triggers,
                ts == triggers_view(self.metadata.triggers@),
                n == ts.len(),
                lb == byte_len(lowercase(input@)),
                forall|k: int|
                    0 <= k < i ==> match #[trigger] ts[k] {
                        TriggerView::Keywords { keywords } => keywords_fit(keywords, input@),
                        _ => true,
                    },
        {
            let t = &self.metadata.triggers[i];
            assert(ts[i as int] == t@);
            match t {
                SkillTrigger::Keywords { keywords } => {
                    let ghost kws = keywords.deep_view();
                    assert(ts[i as int] == (TriggerView::Keywords { keywords: kws }));
                    for j in 0..keywords.len()
                        invariant
                            kws == keywords.deep_view(),
                            ts == self@.metadata.triggers,
                            0 <= i < ts.len(),
                            ts[i as int] == (TriggerView::Keywords { keywords: kws }),
                            lb == byte_len(lowercase(input@)),
                            forall|m: int| 0 <= m < j ==> lb + byte_len(#[trigger] kws[m]) <= usize::MAX,
                    {
                        assert(kws[j as int] == keywords@[j as int]@);
                        let kb = byte_len_of(keywords[j].as_str());
                        if kb > usize::MAX - lb {
                            assert(!keywords_fit(kws, input@));
                            assert(!triggers_fit(ts, input@));
                            return false;
                        }
                    }
                },
                _ => {},
            }
        }
        true
    }

    /// What `check_trigger` gives for `input`, where the skill is disabled
    /// or the byte positions of its keyword triggers fit in `usize`; `None`
    /// where they do not.
    pub fn try_check_trigger(&self, input: &str) -> (r: Option<Option<TriggerMatch>>)
        ensures
            r is None <==> (self@.enabled && !triggers_fit(self@.metadata.triggers, input@)),
            r matches Some(Some(m)) ==> spec_check_trigger(self@, input@) == Some(m@),
            r matches Some(None) ==> spec_check_trigger(self@, input@) is None,
    {
        if !self.enabled || self.triggers_fit_for(input) {
            Some(self.check_trigger(input))
        } else {
            None
        }
    }

    /// The prompt with `{{name}}` variables, `{{trigger_input}}`, `{{cwd}}`
    /// and `{{context_files}}` filled in from the context.
    pub fn render_prompt(&self, ctx: &SkillContext) -> (r: String)
        ensures
            r@ == spec_render(
                self@.prompt,
                pairs_view(ctx.variables@),
                ctx.trigger_input@,
                ctx.cwd@,
                pairs_view(ctx.context_contents@),
            ),
    {
        let ghost vars = pairs_view(ctx.variables@);
        let mut result = self.prompt.clone();
        for i in 0..ctx.variables.len()
            invariant
                vars == pairs_view(ctx.variables@),
                result@ == substitute_vars(self@.prompt, vars.take(i as int)),
        {
            let (key, value) = &ctx.variables[i];
            let mut ph = String::new();
            let open_braces = "{{";
            let close_braces = "}}";
            proof {
                reveal_strlit("{{");
                reveal_strlit("}}");
            }
            ph.append(open_braces);
            ph.append(key.as_str());
            ph.append(close_braces);
            assert(ph@ =~= placeholder(key@));
            result = replace_all(result.as_str(), ph.as_str(), value.as_str());
            assert(vars.take(i + 1).drop_last() =~= vars.take(i as int));
        }
        assert(vars.take(ctx.variables@.len() as int) =~= vars);
        let ti = "{{trigger_input}}";
        let cw = "{{cwd}}";
        let cf = "{{context_files}}";
        proof {
            reveal_strlit("{{trigger_input}}");
            reveal_strlit("{{cwd}}");
            reveal_strlit("{{context_files}}");
        }
        result = replace_all(result.as_str(), ti, ctx.trigger_input.as_str());
        result = replace_all(result.as_str(), cw, ctx.cwd.as_str());
        if contains_str(result.as_str(), cf) {
            let files = join_file_sections(&ctx.context_contents);
            result = replace_all(result.as_str(), cf, files.as_str());
        }
        result
    }
}

/// Where the frontmatter of a Markdown text lies.
#[derive(Debug)]
pub enum FrontmatterSplit {
    /// The (trimmed) text does not begin with `---`.
    Missing,
    /// It begins with `---`, but no line `---` closes the frontmatter.
    Unterminated,
    /// The frontmatter between the delimiters, and the trimmed body after.
    Found { frontmatter: String, body: String },
}

pub enum SplitView {
    Missing,
    Unterminated,
    Found { frontmatter: Seq<char>, body: Seq<char> },
}

impl View for FrontmatterSplit {
    type V = SplitView;

    open spec fn view(&self) -> SplitView {
        match self {
            FrontmatterSplit::Missing => SplitView::Missing,
            FrontmatterSplit::Unterminated => SplitView::Unterminated,
            FrontmatterSplit::Found { frontmatter, body } => SplitView::Found {
                frontmatter: frontmatter@,
                body: body@,
            },
        }
    }
}

/// `---`.
pub open spec fn delimiter() -> Seq<char> {
    seq!['-', '-', '-']
}

/// A line feed followed by `---`.
pub open spec fn closing_delimiter() -> Seq<char> {
    seq!['\n', '-', '-', '-']
}

/// The frontmatter of `content`: after trimming, it must begin with `---`;
/// the frontmatter runs up to the first `\n---` after that, and the body is
/// the trimmed rest after that closing delimiter.
pub open spec fn spec_split(content: Seq<char>) -> SplitView {
    let c = trimmed(content);
    if !starts_with(c, delimiter()) {
        SplitView::Missing
    } else {
        match find(c.subrange(3, c.len() as int), closing_delimiter()) {
            None => SplitView::Unterminated,
            Some(p) => SplitView::Found {
                frontmatter: c.subrange(3, 3 + p),
                body: trimmed(c.subrange(3 + p + 4, c.len() as int)),
            },
        }
    }
}

/// Splits Markdown content into its YAML frontmatter and its body.
pub fn split_frontmatter(content: &str) -> (r: FrontmatterSplit)
    ensures
        r@ == spec_split(content@),
{
    let c = trim(content);
    let dashes = "---";
    let closing = "\n---";
    proof {
        reveal_strlit("---");
        reveal_strlit("\n---");
    }
    assert(dashes@ =~= delimiter());
    assert(closing@ =~= closing_delimiter());
    if !starts_with_str(c, dashes) {
        return FrontmatterSplit::Missing;
    }
    let cv = chars_of(c);
    let n = cv.len();
    let rest = c.substring_char(3, n);
    let rest_chars = chars_of(rest);
    let closing_chars = chars_of(closing);
    match find_chars(&rest_chars, &closing_chars) {
        None => FrontmatterSplit::Unterminated,
        Some(p) => {
            let frontmatter = owned(c.substring_char(3, 3 + p));
            let body = owned(trim(c.substring_char(3 + p + 4, n)));
            FrontmatterSplit::Found { frontmatter, body }
        },
    }
}

/// Name for the string that the YAML text `text` holds under the key `key`
/// (`serde_yaml::from_str::<serde_yaml::Value>`, then `Value::get` and
/// `Value::as_str`): none where the text is not YAML, not a mapping, or holds
/// no string under that key.
pub uninterp spec fn yaml_string(text: Seq<char>, key: Seq<char>) -> Option<Seq<char>>;

/// `serde_yaml::from_str::<serde_yaml::Value>` of `text`, `Value::get(key)`
/// and `Value::as_str`: the string under `key`, as the name `yaml_string` of
/// the text and the key.
#[verifier::external_body]
pub(crate) fn yaml_string_field(text: &str, key: &str) -> (r: Option<String>)
    ensures
        r is Some <==> yaml_string(text@, key@) is Some,
        r matches Some(v) ==> yaml_string(text@, key@) == Some(v@),
{
    match serde_yaml::from_str::<serde_yaml::Value>(text) {
        Ok(v) => v.get(key).and_then(|f| f.as_str()).map(|f| f.to_string()),
        Err(_) => None,
    }
}

/// The description a frontmatter gives: its `description` string, else empty.
pub open spec fn frontmatter_description(frontmatter: Seq<char>) -> Seq<char> {
    match yaml_string(frontmatter, "description"@) {
        Some(d) => d,
        None => Seq::empty(),
    }
}

/// The description of a frontmatter (see `frontmatter_description`).
pub(crate) fn description_of(frontmatter: &str) -> (r: String)
    ensures
        r@ == frontmatter_description(frontmatter@),
{
    match yaml_string_field(frontmatter, "description") {
        Some(d) => d,
        None => String::new(),
    }
}

impl Skill {
    /// A skill from Markdown with YAML frontmatter. `metadata` is what the
    /// frontmatter of `content` (as `split_frontmatter` finds it) parses to
    /// as skill metadata, `None` where it does not parse. There is no skill
    /// when the frontmatter is missing or unterminated, when it does not
    /// parse, or when the metadata has no tags and the body is empty. The
    /// name is the frontmatter's `name` string (else `unnamed-skill`), the
    /// description its `description` string (else empty), the prompt the
    /// body.
    pub fn from_markdown(content: &str, metadata: Option<SkillMetadata>) -> (r: Option<Skill>)
        ensures
            r is Some <==> (spec_split(content@) is Found && metadata is Some && !(
            metadata->0@.tags.len() == 0 && spec_split(content@)->body.len() == 0)),
            r matches Some(s) ==> {
                &&& s@.name == (match yaml_string(spec_split(content@)->frontmatter, "name"@) {
                    Some(n) => n,
                    None => "unnamed-skill"@,
                })
                &&& s@.description == frontmatter_description(spec_split(content@)->frontmatter)
                &&& s@.prompt == spec_split(content@)->body
                &&& s@.metadata == metadata->0@
                &&& s@.source is None
                &&& s@.enabled
            },
    {
        match split_frontmatter(content) {
            FrontmatterSplit::Found { frontmatter, body } => match metadata {
                None => None,
                Some(m) => {
                    if m.tags.len() == 0 && body.as_str().is_empty() {
                        None
                    } else {
                        let name = match yaml_string_field(frontmatter.as_str(), "name") {
                            Some(n) => n,
                            None => owned("unnamed-skill"),
                        };
                        let description = description_of(frontmatter.as_str());
                        Some(
                            Skill {
                                name,
                                description,
                                prompt: body,
                                metadata: m,
                                source: None,
                                enabled: true,
                            },
                        )
                    }
                },
            },
            _ => None,
        }
    }
}

/// The sections of the context files, separated by blank lines.
pub fn join_file_sections(files: &Vec<(String, String)>) -> (r: String)
    ensures
        r@ == join_sections(pairs_view(files@)),
{
    let ghost fv = pairs_view(files@);
    let mut out = String::new();
    let dashes_open = "--- ";
    let dashes_close = " ---\n";
    let blank = "\n\n";
    proof {
        reveal_strlit("--- ");
        reveal_strlit(" ---\n");
        reveal_strlit("\n\n");
    }
    for i in 0..files.len()
        invariant
            fv == pairs_view(files@),
            dashes_open@ == seq!['-', '-', '-', ' '],
            dashes_close@ == seq![' ', '-', '-', '-', '\n'],
            blank@ == seq!['\n', '\n'],
            out@ == join_sections(fv.take(i as int)),
    {
        let ghost before = out@;
        if i > 0 {
            out.append(blank);
        }
        out.append(dashes_open);
        out.append(files[i].0.as_str());
        out.append(dashes_close);
        out.append(files[i].1.as_str());
        assert(fv.take(i + 1).drop_last() =~= fv.take(i as int));
        if i == 0 {
            assert(out@ =~= join_sections(fv.take(1)));
        } else {
            assert(out@ =~= before + seq!['\n', '\n'] + file_section(fv[i as int].0, fv[i as int].1));
        }
    }
    assert(fv.take(files@.len() as int) =~= fv);
    out
}

/// The byte length of a prefix is at most that of the whole.
pub proof fn lemma_prefix_byte_len(s: Seq<char>, p: int)
    requires
        0 <= p <= s.len(),
    ensures
        byte_offset(s, p) <= byte_len(s),
{
    lemma_byte_len_concat(s.subrange(0, p), s.subrange(p, s.len() as int));
    assert(s.subrange(0, p) + s.subrange(p, s.len() as int) =~= s);
}

/// UTF-8 length is additive over concatenation.
pub proof fn lemma_byte_len_concat(a: Seq<char>, b: Seq<char>)
    ensures
        byte_len(a + b) == byte_len(a) + byte_len(b),
    decreases a.len(),
{
    if a.len() == 0 {
        assert(a + b =~= b);
    } else {
        lemma_byte_len_concat(a.drop_first(), b);
        assert((a + b).drop_first() =~= a.drop_first() + b);
        assert((a + b)[0] == a[0]);
    }
}

// ---------------------------------------------------------------------------
// Laws
// ---------------------------------------------------------------------------

/// A disabled skill never triggers, whatever the input; an enabled skill
/// without triggers never triggers either.
pub proof fn law_disabled_never_triggers(x: SkillView, input: Seq<char>)
    ensures
        !x.enabled ==> spec_check_trigger(x, input) is None,
        x.metadata.triggers.len() == 0 ==> spec_check_trigger(x, input) is None,
{
}

/// A slash-command trigger fires on an input whose trimmed text is its
/// command or one of its aliases: an enabled skill whose first trigger is
/// such a command reports that text, from byte 0 to the input's end, as a
/// command match with that text as its one capture.
pub proof fn law_command_trigger_fires(x: SkillView, input: Seq<char>)
    requires
        x.enabled,
        x.metadata.triggers.len() > 0,
        x.metadata.triggers[0] matches TriggerView::Command { command, alias } && (trimmed(input)
            == command || alias.contains(trimmed(input))),
    ensures
        spec_check_trigger(x, input) == Some(
            MatchView {
                text: trimmed(input),
                start: 0,
                end: byte_len(input) as usize,
                captures: seq![trimmed(input)],
                kind: TriggerKind::Command,
            },
        ),
{
}

/// Rendering substitutes the variables one by one, in order: rendering with
/// a first variable `(k, v)` is rendering the prompt in which every `{{k}}`
/// is replaced by `v`, with the remaining variables.
pub proof fn law_render_variables_in_order(
    prompt: Seq<char>,
    k: Seq<char>,
    v: Seq<char>,
    rest: Seq<(Seq<char>, Seq<char>)>,
    trigger_input: Seq<char>,
    cwd: Seq<char>,
    files: Seq<(Seq<char>, Seq<char>)>,
)
    ensures
        spec_render(prompt, seq![(k, v)] + rest, trigger_input, cwd, files) == spec_render(
            replace(prompt, seq!['{', '{'] + k + seq!['}', '}'], v),
            rest,
            trigger_input,
            cwd,
            files,
        ),
{
    lemma_substitute_first(prompt, k, v, rest);
}

proof fn lemma_substitute_first(
    text: Seq<char>,
    k: Seq<char>,
    v: Seq<char>,
    rest: Seq<(Seq<char>, Seq<char>)>,
)
    ensures
        substitute_vars(text, seq![(k, v)] + rest) == substitute_vars(
            replace(text, seq!['{', '{'] + k + seq!['}', '}'], v),
            rest,
        ),
    decreases rest.len(),
{
    let all = seq![(k, v)] + rest;
    assert(placeholder(k) =~= seq!['{', '{'] + k + seq!['}', '}']);
    if rest.len() == 0 {
        assert(all.drop_last() =~= Seq::<(Seq<char>, Seq<char>)>::empty());
        assert(all.last() == (k, v));
        assert(substitute_vars(text, all) == replace(
            substitute_vars(text, all.drop_last()),
            placeholder(k),
            v,
        ));
    } else {
        lemma_substitute_first(text, k, v, rest.drop_last());
        assert(all.drop_last() =~= seq![(k, v)] + rest.drop_last());
        assert(all.last() == rest.last());
    }
}

/// A denied tool is never usable; with no allowed list, every tool that is
/// not denied is.
pub proof fn law_denied_tools_block(x: SkillView, tool: Seq<char>)
    ensures
        x.metadata.denied_tools.contains(tool) ==> !may_use_tool(x.metadata, tool),
        x.metadata.tools.len() == 0 && !x.metadata.denied_tools.contains(tool) ==> may_use_tool(
            x.metadata,
            tool,
        ),
{
}

} // verus!
