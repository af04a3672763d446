//! The skill registry: stores skills, indexes their triggers, and matches
//! user input against them.
use std::sync::Arc;

use vstd::prelude::*;

use crate::order::{
    first_below, insert_desc, insert_desc_exec, lemma_insert_sorted, lemma_sort_desc, sort_desc,
    sorted_desc, stable_sort_desc, views, Keyed, KeyedExec,
};
use crate::pattern::{
    compile_pattern, pattern_captures, pattern_find, regex_captures, regex_compiles, regex_find,
    Pattern,
};
use crate::skill::{
    capture_texts, captured_texts, command_match, lemma_prefix_byte_len, option_view, regex_source,
    MatchView, Skill, SkillTrigger, SkillView, TriggerKind, TriggerMatch, TriggerView,
};
use crate::text::{
    byte_len, byte_len_of, byte_offset, chars_of, contains, find, find_chars, lowercase, owned,
    prefix_byte_len, starts_with, starts_with_str, str_eq, to_lowercase, trim, trimmed,
};

verus! {

/// `Arc::clone`: another pointer to the same allocation, so the same value.
#[verifier::external_body]
pub(crate) fn share<T>(a: &Arc<T>) -> (r: Arc<T>)
    ensures
        r == *a,
{
    Arc::clone(a)
}

/// A matched skill with activation context.
#[derive(Debug)]
pub struct SkillMatch {
    /// The matched skill.
    pub skill: Arc<Skill>,
    /// How the skill was matched.
    pub trigger_match: TriggerMatch,
    /// Match score in half points (higher = better match): the score is
    /// `score_halves / 2`.
    pub score_halves: u64,
}

pub struct CandView {
    pub skill: SkillView,
    pub m: MatchView,
    pub score: u64,
}

impl View for SkillMatch {
    type V = CandView;

    open spec fn view(&self) -> CandView {
        CandView { skill: self.skill@, m: self.trigger_match@, score: self.score_halves }
    }
}

impl Keyed for CandView {
    open spec fn key(&self) -> int {
        self.score as int
    }
}

impl Keyed for SkillView {
    open spec fn key(&self) -> int {
        self.metadata.priority as int
    }
}

impl KeyedExec for SkillMatch {
    fn key_exec(&self) -> (k: u64) {
        self.score_halves
    }
}

impl KeyedExec for Arc<Skill> {
    fn key_exec(&self) -> (k: u64) {
        self.metadata.priority as u64
    }
}

impl KeyedExec for Skill {
    fn key_exec(&self) -> (k: u64) {
        self.metadata.priority as u64
    }
}

/// Registry for all loaded skills.
pub struct SkillRegistry {
    /// All registered skills, one per name.
    skills: Vec<Arc<Skill>>,
    /// Skills sorted by priority.
    priority_order: Vec<Arc<Skill>>,
    /// Pattern triggers that compiled, with their skill.
    pattern_index: Vec<(Pattern, Arc<Skill>)>,
    /// Command triggers (commands and aliases), one per command.
    command_index: Vec<(String, Arc<Skill>)>,
    /// Keyword triggers by lowercase keyword, one entry per keyword.
    keyword_index: Vec<(String, Vec<Arc<Skill>>)>,
}

pub struct RegistryView {
    pub skills: Seq<SkillView>,
    pub order: Seq<SkillView>,
    pub patterns: Seq<(Seq<char>, SkillView)>,
    pub commands: Seq<(Seq<char>, SkillView)>,
    pub keywords: Seq<(Seq<char>, Seq<SkillView>)>,
}

pub open spec fn pattern_entries(s: Seq<(Pattern, Arc<Skill>)>) -> Seq<(Seq<char>, SkillView)> {
    s.map_values(|e: (Pattern, Arc<Skill>)| (e.0@, e.1@))
}

pub open spec fn command_entries(s: Seq<(String, Arc<Skill>)>) -> Seq<(Seq<char>, SkillView)> {
    s.map_values(|e: (String, Arc<Skill>)| (e.0@, e.1@))
}

pub open spec fn keyword_entries(s: Seq<(String, Vec<Arc<Skill>>)>) -> Seq<(Seq<char>, Seq<SkillView>)> {
    s.map_values(|e: (String, Vec<Arc<Skill>>)| (e.0@, views(e.1@)))
}

impl View for SkillRegistry {
    type V = RegistryView;

    closed spec fn view(&self) -> RegistryView {
        RegistryView {
            skills: views(self.skills@),
            order: views(self.priority_order@),
            patterns: pattern_entries(self.pattern_index@),
            commands: command_entries(self.command_index@),
            keywords: keyword_entries(self.keyword_index@),
        }
    }
}

// ---------------------------------------------------------------------------
// Specifications
// ---------------------------------------------------------------------------

/// Index of the first skill named `name`.
pub open spec fn find_name(s: Seq<SkillView>, name: Seq<char>) -> Option<int>
    decreases s.len(),
{
    if s.len() == 0 {
        None
    } else {
        match find_name(s.drop_last(), name) {
            Some(i) => Some(i),
            None => if s.last().name == name {
                Some(s.len() - 1)
            } else {
                None
            },
        }
    }
}

/// The skill registered under `name`.
pub open spec fn lookup_skill(s: Seq<SkillView>, name: Seq<char>) -> Option<SkillView> {
    match find_name(s, name) {
        Some(i) => Some(s[i]),
        None => None,
    }
}

/// `s` with the skill of the same name replaced by `x`, or `x` added.
pub open spec fn put_skill(s: Seq<SkillView>, x: SkillView) -> Seq<SkillView> {
    match find_name(s, x.name) {
        Some(i) => s.update(i, x),
        None => s.push(x),
    }
}

/// Index of the first entry with key `key`.
pub open spec fn find_key<V>(s: Seq<(Seq<char>, V)>, key: Seq<char>) -> Option<int>
    decreases s.len(),
{
    if s.len() == 0 {
        None
    } else {
        match find_key(s.drop_last(), key) {
            Some(i) => Some(i),
            None => if s.last().0 == key {
                Some(s.len() - 1)
            } else {
                None
            },
        }
    }
}

/// The skill for command `key`.
pub open spec fn lookup_command(s: Seq<(Seq<char>, SkillView)>, key: Seq<char>) -> Option<SkillView> {
    match find_key(s, key) {
        Some(i) => Some(s[i].1),
        None => None,
    }
}

/// `s` with command `key` mapped to `x`.
pub open spec fn put_command(s: Seq<(Seq<char>, SkillView)>, key: Seq<char>, x: SkillView) -> Seq<(Seq<char>, SkillView)> {
    match find_key(s, key) {
        Some(i) => s.update(i, (key, x)),
        None => s.push((key, x)),
    }
}

/// `s` with each of `keys`, in order, mapped to `x`.
pub open spec fn put_commands(s: Seq<(Seq<char>, SkillView)>, keys: Seq<Seq<char>>, x: SkillView) -> Seq<(Seq<char>, SkillView)>
    decreases keys.len(),
{
    if keys.len() == 0 {
        s
    } else {
        put_command(put_commands(s, keys.drop_last(), x), keys.last(), x)
    }
}

/// `s` with `x` appended to the skills of keyword `key`.
pub open spec fn add_keyword(s: Seq<(Seq<char>, Seq<SkillView>)>, key: Seq<char>, x: SkillView) -> Seq<(Seq<char>, Seq<SkillView>)> {
    match find_key(s, key) {
        Some(i) => s.update(i, (key, s[i].1.push(x))),
        None => s.push((key, seq![x])),
    }
}

/// `s` with `x` added under the lowercase form of each of `kws`, in order.
pub open spec fn add_keywords(s: Seq<(Seq<char>, Seq<SkillView>)>, kws: Seq<Seq<char>>, x: SkillView) -> Seq<(Seq<char>, Seq<SkillView>)>
    decreases kws.len(),
{
    if kws.len() == 0 {
        s
    } else {
        add_keyword(add_keywords(s, kws.drop_last(), x), lowercase(kws.last()), x)
    }
}

pub struct IndexView {
    pub patterns: Seq<(Seq<char>, SkillView)>,
    pub commands: Seq<(Seq<char>, SkillView)>,
    pub keywords: Seq<(Seq<char>, Seq<SkillView>)>,
}

/// The indexes after indexing one trigger of skill `x`.
pub open spec fn index_trigger(ix: IndexView, t: TriggerView, x: SkillView) -> IndexView {
    match t {
        TriggerView::Pattern { pattern, case_insensitive } => {
            let src = regex_source(pattern, case_insensitive);
            if regex_compiles(src) {
                IndexView { patterns: ix.patterns.push((src, x)), ..ix }
            } else {
                ix
            }
        },
        TriggerView::Command { command, alias } => IndexView {
            commands: put_commands(put_command(ix.commands, command, x), alias, x),
            ..ix
        },
        TriggerView::Keywords { keywords } => IndexView {
            keywords: add_keywords(ix.keywords, keywords, x),
            ..ix
        },
        _ => ix,
    }
}

/// The indexes after indexing the triggers `ts` of skill `x`, in order.
pub open spec fn index_triggers(ix: IndexView, ts: Seq<TriggerView>, x: SkillView) -> IndexView
    decreases ts.len(),
{
    if ts.len() == 0 {
        ix
    } else {
        index_trigger(index_triggers(ix, ts.drop_last(), x), ts.last(), x)
    }
}

/// `order` without its first skill named `name`.
pub open spec fn without_name(order: Seq<SkillView>, name: Seq<char>) -> Seq<SkillView> {
    match find_name(order, name) {
        Some(k) => order.remove(k),
        None => order,
    }
}

/// The registry after registering `x`: `x` replaces the skill of its name in
/// the main list and in the priority order, where it goes after every skill
/// of at least its priority.
pub open spec fn spec_register(r: RegistryView, x: SkillView) -> RegistryView {
    let ix = index_triggers(
        IndexView { patterns: r.patterns, commands: r.commands, keywords: r.keywords },
        x.metadata.triggers,
        x,
    );
    RegistryView {
        skills: put_skill(r.skills, x),
        order: insert_desc(without_name(r.order, x.name), x),
        patterns: ix.patterns,
        commands: ix.commands,
        keywords: ix.keywords,
    }
}

/// The value of `p as f32` (round to nearest, ties to even, 24-bit
/// significand), which is a whole number for every `u32`.
pub open spec fn f32_of(p: u32) -> u64 {
    if p < 0x100_0000 {
        p as u64
    } else if p < 0x200_0000 {
        round_to(p as u64, 2)
    } else if p < 0x400_0000 {
        round_to(p as u64, 4)
    } else if p < 0x800_0000 {
        round_to(p as u64, 8)
    } else if p < 0x1000_0000 {
        round_to(p as u64, 16)
    } else if p < 0x2000_0000 {
        round_to(p as u64, 32)
    } else if p < 0x4000_0000 {
        round_to(p as u64, 64)
    } else if p < 0x8000_0000 {
        round_to(p as u64, 128)
    } else {
        round_to(p as u64, 256)
    }
}

/// `p` rounded to a multiple of `d`, ties to an even multiple.
pub open spec fn round_to(p: u64, d: u64) -> u64 {
    let q = p / d;
    let r = p % d;
    if r * 2 > d || (r * 2 == d && q % 2 == 1) {
        ((q + 1) * d) as u64
    } else {
        (q * d) as u64
    }
}

/// The candidate for a command trigger.
pub open spec fn command_cands(r: RegistryView, input: Seq<char>) -> Seq<CandView> {
    let t = trimmed(input);
    if starts_with(t, seq!['/']) {
        match lookup_command(r.commands, t) {
            Some(x) => seq![CandView { skill: x, m: command_match(input), score: 200 }],
            None => Seq::empty(),
        }
    } else {
        Seq::empty()
    }
}

/// The candidate for one pattern index entry.
pub open spec fn pattern_cand(e: (Seq<char>, SkillView), input: Seq<char>) -> Seq<CandView> {
    match regex_find(e.0, input) {
        Some(m) => seq![
            CandView {
                skill: e.1,
                m: MatchView {
                    text: m.2,
                    start: m.0,
                    end: m.1,
                    captures: capture_texts(regex_captures(e.0, input)),
                    kind: TriggerKind::Pattern,
                },
                score: (2 * f32_of(e.1.metadata.priority)) as u64,
            },
        ],
        None => Seq::empty(),
    }
}

/// The candidates of the pattern index, in index order.
pub open spec fn pattern_cands(ps: Seq<(Seq<char>, SkillView)>, input: Seq<char>) -> Seq<CandView>
    decreases ps.len(),
{
    if ps.len() == 0 {
        Seq::empty()
    } else {
        pattern_cands(ps.drop_last(), input) + pattern_cand(ps.last(), input)
    }
}

/// A keyword candidate for skill `x`.
pub open spec fn keyword_cand(key: Seq<char>, pos: int, lower: Seq<char>, x: SkillView) -> CandView {
    CandView {
        skill: x,
        m: MatchView {
            text: key,
            start: byte_offset(lower, pos) as usize,
            end: (byte_offset(lower, pos) + byte_len(key)) as usize,
            captures: Seq::empty(),
            kind: TriggerKind::Keyword,
        },
        score: f32_of(x.metadata.priority),
    }
}

/// The candidates for the skills `xs` of a keyword found at `pos`.
pub open spec fn keyword_skill_cands(key: Seq<char>, pos: int, lower: Seq<char>, xs: Seq<SkillView>) -> Seq<CandView>
    decreases xs.len(),
{
    if xs.len() == 0 {
        Seq::empty()
    } else {
        keyword_skill_cands(key, pos, lower, xs.drop_last()).push(
            keyword_cand(key, pos, lower, xs.last()),
        )
    }
}

/// The candidates of one keyword index entry.
pub open spec fn keyword_entry_cands(e: (Seq<char>, Seq<SkillView>), lower: Seq<char>) -> Seq<CandView> {
    match find(lower, e.0) {
        Some(pos) => keyword_skill_cands(e.0, pos, lower, e.1),
        None => Seq::empty(),
    }
}

/// The candidates of the keyword index, in index order.
pub open spec fn keyword_cands(ks: Seq<(Seq<char>, Seq<SkillView>)>, lower: Seq<char>) -> Seq<CandView>
    decreases ks.len(),
{
    if ks.len() == 0 {
        Seq::empty()
    } else {
        keyword_cands(ks.drop_last(), lower) + keyword_entry_cands(ks.last(), lower)
    }
}

/// All candidates: the command first, then patterns, then keywords.
pub open spec fn candidates(r: RegistryView, input: Seq<char>) -> Seq<CandView> {
    command_cands(r, input) + pattern_cands(r.patterns, input) + keyword_cands(
        r.keywords,
        lowercase(input),
    )
}

/// Some candidate of `s` is for a skill named `name`.
pub open spec fn has_skill_named(s: Seq<CandView>, name: Seq<char>) -> bool {
    exists|i: int| 0 <= i < s.len() && (#[trigger] s[i]).skill.name == name
}

/// `s` keeping only the first candidate of each skill name.
pub open spec fn dedup_names(s: Seq<CandView>) -> Seq<CandView>
    decreases s.len(),
{
    if s.len() == 0 {
        s
    } else {
        let r = dedup_names(s.drop_last());
        if has_skill_named(r, s.last().skill.name) {
            r
        } else {
            r.push(s.last())
        }
    }
}

/// What `find_matches` returns: the candidates by score, highest first
/// (ties in candidate order), one per skill name.
pub open spec fn spec_find_matches(r: RegistryView, input: Seq<char>) -> Seq<CandView> {
    dedup_names(sort_desc(live_candidates(r, input)))
}

/// The skill of candidate `c` is registered under its name and enabled.
pub open spec fn is_live(r: RegistryView) -> spec_fn(CandView) -> bool {
    |c: CandView| lookup_skill(r.skills, c.skill.name) matches Some(x) && x.enabled
}

/// The candidates whose skill is registered and enabled: a disabled skill
/// is never matched.
pub open spec fn live_candidates(r: RegistryView, input: Seq<char>) -> Seq<CandView> {
    candidates(r, input).filter(is_live(r))
}

/// Keyword byte positions fit in `usize` for this input.
pub open spec fn keyword_offsets_fit(r: RegistryView, input: Seq<char>) -> bool {
    forall|i: int|
        0 <= i < r.keywords.len() ==> byte_len(lowercase(input)) + byte_len(
            (#[trigger] r.keywords[i]).0,
        ) <= usize::MAX
}

/// Some registered skill is named `name`.
pub open spec fn registered(skills: Seq<SkillView>, name: Seq<char>) -> bool {
    exists|k: int| 0 <= k < skills.len() && (#[trigger] skills[k]).name == name
}

/// Every skill that the indexes hold is registered in `t` under its name.
pub open spec fn index_registered(ix: IndexView, t: Seq<SkillView>) -> bool {
    &&& forall|i: int| 0 <= i < ix.patterns.len() ==> registered(t, (#[trigger] ix.patterns[i]).1.name)
    &&& forall|i: int| 0 <= i < ix.commands.len() ==> registered(t, (#[trigger] ix.commands[i]).1.name)
    &&& forall|i: int, j: int|
        0 <= i < ix.keywords.len() && 0 <= j < ix.keywords[i].1.len() ==> registered(
            t,
            (#[trigger] ix.keywords[i].1[j]).name,
        )
}

/// The registry holds one skill per name; its priority order is sorted by
/// priority and lists each registered skill once, as registered; and every
/// skill in its trigger indexes is registered under its name.
pub open spec fn consistent(r: RegistryView) -> bool {
    &&& forall|i: int, j: int|
        0 <= i < j < r.skills.len() ==> (#[trigger] r.skills[i]).name != (#[trigger] r.skills[j]).name
    &&& forall|i: int, j: int|
        0 <= i < j < r.order.len() ==> (#[trigger] r.order[i]).name != (#[trigger] r.order[j]).name
    &&& r.order.len() == r.skills.len()
    &&& sorted_desc(r.order)
    &&& forall|i: int|
        0 <= i < r.order.len() ==> lookup_skill(r.skills, (#[trigger] r.order[i]).name) == Some(
            r.order[i],
        )
    &&& forall|i: int| 0 <= i < r.skills.len() ==> registered(r.order, (#[trigger] r.skills[i]).name)
    &&& index_registered(
        IndexView { patterns: r.patterns, commands: r.commands, keywords: r.keywords },
        r.skills,
    )
}

/// The registry after `set_enabled(name, enabled)`.
pub open spec fn spec_set_enabled(r: RegistryView, name: Seq<char>, enabled: bool) -> RegistryView {
    match lookup_skill(r.skills, name) {
        None => r,
        Some(old) => {
            let new = SkillView { enabled, ..old };
            RegistryView {
                skills: r.skills.update(find_name(r.skills, name)->0, new),
                order: r.order.map_values(|x: SkillView| if x.name == name { new } else { x }),
                ..r
            }
        },
    }
}

// ---------------------------------------------------------------------------
// Lemmas
// ---------------------------------------------------------------------------

proof fn lemma_find_name(s: Seq<SkillView>, name: Seq<char>)
    ensures
        find_name(s, name) matches Some(i) ==> 0 <= i < s.len() && s[i].name == name && forall|
            k: int,
        | 0 <= k < i ==> (#[trigger] s[k]).name != name,
        find_name(s, name) is None ==> forall|k: int| 0 <= k < s.len() ==> (#[trigger] s[k]).name
            != name,
    decreases s.len(),
{
    if s.len() > 0 {
        lemma_find_name(s.drop_last(), name);
        assert forall|k: int| 0 <= k < s.len() - 1 implies s.drop_last()[k] == s[k] by {}
    }
}

pub(crate) proof fn lemma_find_key<V>(s: Seq<(Seq<char>, V)>, key: Seq<char>)
    ensures
        find_key(s, key) matches Some(i) ==> 0 <= i < s.len() && s[i].0 == key && forall|k: int|
            0 <= k < i ==> (#[trigger] s[k]).0 != key,
        find_key(s, key) is None ==> forall|k: int| 0 <= k < s.len() ==> (#[trigger] s[k]).0 != key,
    decreases s.len(),
{
    if s.len() > 0 {
        lemma_find_key(s.drop_last(), key);
        assert forall|k: int| 0 <= k < s.len() - 1 implies s.drop_last()[k] == s[k] by {}
    }
}

/// `find_name` is the first index with the name.
proof fn lemma_find_name_first(s: Seq<SkillView>, name: Seq<char>, i: int)
    requires
        0 <= i < s.len(),
        s[i].name == name,
        forall|k: int| 0 <= k < i ==> (#[trigger] s[k]).name != name,
    ensures
        find_name(s, name) == Some(i),
    decreases s.len(),
{
    if i < s.len() - 1 {
        lemma_find_name_first(s.drop_last(), name, i);
    } else {
        lemma_find_name(s.drop_last(), name);
    }
}

pub(crate) proof fn lemma_find_key_first<V>(s: Seq<(Seq<char>, V)>, key: Seq<char>, i: int)
    requires
        0 <= i < s.len(),
        s[i].0 == key,
        forall|k: int| 0 <= k < i ==> (#[trigger] s[k]).0 != key,
    ensures
        find_key(s, key) == Some(i),
    decreases s.len(),
{
    if i < s.len() - 1 {
        lemma_find_key_first(s.drop_last(), key, i);
    } else {
        lemma_find_key(s.drop_last(), key);
    }
}

proof fn lemma_find_name_none(s: Seq<SkillView>, name: Seq<char>)
    requires
        forall|k: int| 0 <= k < s.len() ==> (#[trigger] s[k]).name != name,
    ensures
        find_name(s, name) is None,
{
    lemma_find_name(s, name);
}

pub(crate) proof fn lemma_find_key_none<V>(s: Seq<(Seq<char>, V)>, key: Seq<char>)
    requires
        forall|k: int| 0 <= k < s.len() ==> (#[trigger] s[k]).0 != key,
    ensures
        find_key(s, key) is None,
{
    lemma_find_key(s, key);
}

// ---------------------------------------------------------------------------
// Executable helpers
// ---------------------------------------------------------------------------

/// Index of the first skill named `name`.
fn position_of_name(s: &Vec<Arc<Skill>>, name: &str) -> (r: Option<usize>)
    ensures
        r matches Some(i) ==> find_name(views(s@), name@) == Some(i as int) && i < s@.len(),
        r is None ==> find_name(views(s@), name@) is None,
{
    let ghost v = views(s@);
    let n = s.len();
    for i in 0..n
        invariant
            v == views(s@),
            n == s@.len(),
            forall|k: int| 0 <= k < i ==> (#[trigger] v[k]).name != name@,
    {
        assert(v[i as int] == s@[i as int]@);
        if str_eq(s[i].name.as_str(), name) {
            proof {
                lemma_find_name_first(v, name@, i as int);
            }
            return Some(i);
        }
    }
    proof {
        lemma_find_name_none(v, name@);
    }
    None
}

/// Index of the first command entry for `key`.
fn position_of_command(s: &Vec<(String, Arc<Skill>)>, key: &str) -> (r: Option<usize>)
    ensures
        r matches Some(i) ==> find_key(command_entries(s@), key@) == Some(i as int) && i < s@.len(),
        r is None ==> find_key(command_entries(s@), key@) is None,
{
    let ghost v = command_entries(s@);
    let n = s.len();
    for i in 0..n
        invariant
            v == command_entries(s@),
            n == s@.len(),
            forall|k: int| 0 <= k < i ==> (#[trigger] v[k]).0 != key@,
    {
        assert(v[i as int].0 == s@[i as int].0@);
        if str_eq(s[i].0.as_str(), key) {
            proof {
                lemma_find_key_first(v, key@, i as int);
            }
            return Some(i);
        }
    }
    proof {
        lemma_find_key_none(v, key@);
    }
    None
}

/// Index of the first keyword entry for `key`.
fn position_of_keyword(s: &Vec<(String, Vec<Arc<Skill>>)>, key: &str) -> (r: Option<usize>)
    ensures
        r matches Some(i) ==> find_key(keyword_entries(s@), key@) == Some(i as int) && i < s@.len(),
        r is None ==> find_key(keyword_entries(s@), key@) is None,
{
    let ghost v = keyword_entries(s@);
    let n = s.len();
    for i in 0..n
        invariant
            v == keyword_entries(s@),
            n == s@.len(),
            forall|k: int| 0 <= k < i ==> (#[trigger] v[k]).0 != key@,
    {
        assert(v[i as int].0 == s@[i as int].0@);
        if str_eq(s[i].0.as_str(), key) {
            proof {
                lemma_find_key_first(v, key@, i as int);
            }
            return Some(i);
        }
    }
    proof {
        lemma_find_key_none(v, key@);
    }
    None
}

/// The value of `p as f32`, as a whole number.
pub fn f32_value(p: u32) -> (r: u64)
    ensures
        r == f32_of(p),
{
    let x = p as u64;
    let d: u64 = if p < 0x100_0000 {
        1
    } else if p < 0x200_0000 {
        2
    } else if p < 0x400_0000 {
        4
    } else if p < 0x800_0000 {
        8
    } else if p < 0x1000_0000 {
        16
    } else if p < 0x2000_0000 {
        32
    } else if p < 0x4000_0000 {
        64
    } else if p < 0x8000_0000 {
        128
    } else {
        256
    };
    if d == 1 {
        return x;
    }
    let q = x / d;
    let r = x % d;
    assert(q <= 0x1_0000_0000);
    if r * 2 > d || (r * 2 == d && q % 2 == 1) {
        (q + 1) * d
    } else {
        q * d
    }
}

impl SkillRegistry {
    /// An empty registry.
    pub fn new() -> (r: SkillRegistry)
        ensures
            r@.skills.len() == 0,
            r@.order.len() == 0,
            r@.patterns.len() == 0,
            r@.commands.len() == 0,
            r@.keywords.len() == 0,
            consistent(r@),
    {
        let r = SkillRegistry {
            skills: Vec::new(),
            priority_order: Vec::new(),
            pattern_index: Vec::new(),
            command_index: Vec::new(),
            keyword_index: Vec::new(),
        };
        assert(r@.skills =~= Seq::<SkillView>::empty());
        r
    }

    /// Maps command `key` to `skill`.
    fn put_command_exec(&mut self, key: &str, skill: &Arc<Skill>)
        ensures
            command_entries(final(self).command_index@) == put_command(
                command_entries(old(self).command_index@),
                key@,
                skill@,
            ),
            final(self).skills == old(self).skills,
            final(self).priority_order == old(self).priority_order,
            final(self).pattern_index == old(self).pattern_index,
            final(self).keyword_index == old(self).keyword_index,
    {
        let ghost before = command_entries(self.command_index@);
        match position_of_command(&self.command_index, key) {
            Some(i) => {
                self.command_index.set(i, (owned(key), share(skill)));
                assert(command_entries(self.command_index@) =~= before.update(
                    i as int,
                    (key@, skill@),
                ));
            },
            None => {
                self.command_index.push((owned(key), share(skill)));
                assert(command_entries(self.command_index@) =~= before.push((key@, skill@)));
            },
        }
    }

    /// Adds `skill` under keyword `key`.
    fn add_keyword_exec(&mut self, key: String, skill: &Arc<Skill>)
        ensures
            keyword_entries(final(self).keyword_index@) == add_keyword(
                keyword_entries(old(self).keyword_index@),
                key@,
                skill@,
            ),
            final(self).skills == old(self).skills,
            final(self).priority_order == old(self).priority_order,
            final(self).pattern_index == old(self).pattern_index,
            final(self).command_index == old(self).command_index,
    {
        let ghost before = keyword_entries(self.keyword_index@);
        match position_of_keyword(&self.keyword_index, key.as_str()) {
            Some(i) => {
                let ghost old_idx = self.keyword_index@;
                proof {
                    lemma_find_key(before, key@);
                    assert(before[i as int].0 == old_idx[i as int].0@);
                }
                let (k, mut list) = self.keyword_index.remove(i);
                assert(k@ == key@);
                let ghost old_list = views(list@);
                let sh = share(skill);
                list.push(sh);
                assert(views(list@) =~= old_list.push(skill@));
                let ghost entry = (k, list);
                self.keyword_index.insert(i, (k, list));
                assert(self.keyword_index@ =~= old_idx.update(i as int, entry));
                assert(keyword_entries(self.keyword_index@) =~= before.update(
                    i as int,
                    (key@, before[i as int].1.push(skill@)),
                ));
            },
            None => {
                let list = vec![share(skill)];
                assert(views(list@) =~= seq![skill@]);
                self.keyword_index.push((key, list));
                assert(keyword_entries(self.keyword_index@) =~= before.push((key@, seq![skill@])));
            },
        }
    }

    /// Indexes one trigger of `skill`.
    fn index_trigger_exec(&mut self, t: &SkillTrigger, skill: &Arc<Skill>)
        ensures
            ({
                let ix = index_trigger(
                    IndexView {
                        patterns: old(self)@.patterns,
                        commands: old(self)@.commands,
                        keywords: old(self)@.keywords,
                    },
                    t@,
                    skill@,
                );
                &&& final(self)@.patterns == ix.patterns
                &&& final(self)@.commands == ix.commands
                &&& final(self)@.keywords == ix.keywords
            }),
            final(self).skills == old(self).skills,
            final(self).priority_order == old(self).priority_order,
    {
        match t {
            SkillTrigger::PatternMatch { pattern, case_insensitive } => {
                let source = if *case_insensitive {
                    let mut s = String::new();
                    let prefix = "(?i)";
                    proof {
                        reveal_strlit("(?i)");
                    }
                    s.append(prefix);
                    s.append(pattern.as_str());
                    s
                } else {
                    pattern.clone()
                };
                assert(source@ =~= regex_source(pattern@, *case_insensitive));
                match compile_pattern(source.as_str()) {
                    Some(re) => {
                        let ghost before = pattern_entries(self.pattern_index@);
                        self.pattern_index.push((re, share(skill)));
                        assert(pattern_entries(self.pattern_index@) =~= before.push(
                            (source@, skill@),
                        ));
                    },
                    None => {},
                }
            },
            SkillTrigger::SlashCommand { command, alias } => {
                self.put_command_exec(command.as_str(), skill);
                let ghost base = command_entries(self.command_index@);
                let ghost av = alias.deep_view();
                for k in 0..alias.len()
                    invariant
                        av == alias.deep_view(),
                        command_entries(self.command_index@) == put_commands(
                            base,
                            av.take(k as int),
                            skill@,
                        ),
                        self.skills == old(self).skills,
                        self.priority_order == old(self).priority_order,
                        self.pattern_index == old(self).pattern_index,
                        self.keyword_index == old(self).keyword_index,
                {
                    assert(av[k as int] == alias@[k as int]@);
                    self.put_command_exec(alias[k].as_str(), skill);
                    assert(av.take(k + 1).drop_last() =~= av.take(k as int));
                }
                assert(av.take(alias@.len() as int) =~= av);
            },
            SkillTrigger::Keywords { keywords } => {
                let ghost base = keyword_entries(self.keyword_index@);
                let ghost kv = keywords.deep_view();
                for k in 0..keywords.len()
                    invariant
                        kv == keywords.deep_view(),
                        keyword_entries(self.keyword_index@) == add_keywords(
                            base,
                            kv.take(k as int),
                            skill@,
                        ),
                        self.skills == old(self).skills,
                        self.priority_order == old(self).priority_order,
                        self.pattern_index == old(self).pattern_index,
                        self.command_index == old(self).command_index,
                {
                    assert(kv[k as int] == keywords@[k as int]@);
                    let lower = to_lowercase(keywords[k].as_str());
                    self.add_keyword_exec(lower, skill);
                    assert(kv.take(k + 1).drop_last() =~= kv.take(k as int));
                }
                assert(kv.take(keywords@.len() as int) =~= kv);
            },
            _ => {},
        }
    }

    /// Registers a skill: it replaces any skill of the same name in the main
    /// list and in the priority order (after every skill of at least its
    /// priority), and its triggers join the indexes.
    pub fn register(&mut self, skill: Arc<Skill>)
        ensures
            final(self)@ == spec_register(old(self)@, skill@),
            consistent(old(self)@) ==> consistent(final(self)@),
    {
        proof {
            if consistent(self@) {
                lemma_register_consistent(self@, skill@);
            }
        }
        // the main list
        let ghost skills_before = views(self.skills@);
        match position_of_name(&self.skills, skill.name.as_str()) {
            Some(i) => {
                self.skills.set(i, share(&skill));
                assert(views(self.skills@) =~= skills_before.update(i as int, skill@));
            },
            None => {
                self.skills.push(share(&skill));
                assert(views(self.skills@) =~= skills_before.push(skill@));
            },
        }
        // the priority order
        let ghost order_before = views(self.priority_order@);
        let mut order: Vec<Arc<Skill>> = Vec::new();
        std::mem::swap(&mut order, &mut self.priority_order);
        match position_of_name(&order, skill.name.as_str()) {
            Some(k) => {
                order.remove(k);
                assert(views(order@) =~= order_before.remove(k as int));
            },
            None => {},
        }
        assert(views(order@) == without_name(order_before, skill@.name));
        insert_desc_exec(&mut order, share(&skill));
        self.priority_order = order;
        // the trigger indexes
        let ghost ix0 = IndexView {
            patterns: self@.patterns,
            commands: self@.commands,
            keywords: self@.keywords,
        };
        let ghost ts = skill@.metadata.triggers;
        let ghost mid_skills = self.skills;
        let ghost mid_order = self.priority_order;
        let n = skill.metadata.triggers.len();
        for i in 0..n
            invariant
                n == ts.len(),
                ts == skill@.metadata.triggers,
                ts == crate::skill::triggers_view(skill.metadata.triggers@),
                self.skills == mid_skills,
                self.priority_order == mid_order,
                ({
                    let ix = index_triggers(ix0, ts.take(i as int), skill@);
                    &&& self@.patterns == ix.patterns
                    &&& self@.commands == ix.commands
                    &&& self@.keywords == ix.keywords
                }),
        {
            assert(ts[i as int] == skill.metadata.triggers@[i as int]@);
            self.index_trigger_exec(&skill.metadata.triggers[i], &skill);
            assert(ts.take(i + 1).drop_last() =~= ts.take(i as int));
        }
        assert(ts.take(n as int) =~= ts);
    }

    /// The skill registered under `name`.
    pub fn get(&self, name: &str) -> (r: Option<Arc<Skill>>)
        ensures
            r matches Some(s) ==> lookup_skill(self@.skills, name@) == Some(s@),
            r is None ==> lookup_skill(self@.skills, name@) is None,
    {
        match position_of_name(&self.skills, name) {
            Some(i) => Some(share(&self.skills[i])),
            None => None,
        }
    }

    /// All registered skills in priority order (highest first; registrations
    /// of equal priority in the order they were made).
    pub fn list(&self) -> (r: Vec<Arc<Skill>>)
        ensures
            views(r@) == self@.order,
    {
        let mut r: Vec<Arc<Skill>> = Vec::new();
        for i in 0..self.priority_order.len()
            invariant
                views(r@) == views(self.priority_order@).take(i as int),
        {
            let ghost before = views(r@);
            let x = share(&self.priority_order[i]);
            r.push(x);
            assert(views(r@) =~= before.push(self.priority_order@[i as int]@));
            assert(views(r@) =~= views(self.priority_order@).take(i + 1));
        }
        assert(views(self.priority_order@).take(self.priority_order@.len() as int) =~= views(
            self.priority_order@,
        ));
        r
    }

    /// Number of registered skills (one per name).
    pub fn count(&self) -> (r: usize)
        ensures
            r == self@.skills.len(),
    {
        self.skills.len()
    }

    /// Enables or disables the skill named `name` in the main list and in
    /// the priority order (the trigger indexes keep the skill as it was
    /// registered; `find_matches` goes by the main list, so a disabled skill
    /// is not matched). Returns whether such a skill exists.
    pub fn set_enabled(&mut self, name: &str, enabled: bool) -> (found: bool)
        ensures
            found == (lookup_skill(old(self)@.skills, name@) is Some),
            final(self)@ == spec_set_enabled(old(self)@, name@, enabled),
            consistent(old(self)@) ==> consistent(final(self)@),
    {
        proof {
            if consistent(self@) {
                lemma_set_enabled_consistent(self@, name@, enabled);
            }
        }
        let ghost before = self@;
        match position_of_name(&self.skills, name) {
            None => {
                assert(self@ == before);
                false
            },
            Some(i) => {
                let mut copy = self.skills[i].copy();
                copy.enabled = enabled;
                let new_arc = Arc::new(copy);
                let ghost new_view = new_arc@;
                assert(new_view == (SkillView { enabled, ..before.skills[i as int] }));
                self.skills.set(i, share(&new_arc));
                let n = self.priority_order.len();
                let ghost order0 = views(self.priority_order@);
                for k in 0..n
                    invariant
                        n == order0.len(),
                        views(self.priority_order@).len() == n,
                        new_arc@ == new_view,
                        forall|j: int|
                            0 <= j < k ==> views(self.priority_order@)[j] == (if order0[j].name
                                == name@ {
                                new_view
                            } else {
                                order0[j]
                            }),
                        forall|j: int| k <= j < n ==> views(self.priority_order@)[j] == order0[j],
                        views(self.skills@) == before.skills.update(i as int, new_view),
                        self.pattern_index == old(self).pattern_index,
                        self.command_index == old(self).command_index,
                        self.keyword_index == old(self).keyword_index,
                {
                    assert(views(self.priority_order@)[k as int] == self.priority_order@[k as int]@);
                    let ghost cur = views(self.priority_order@);
                    if str_eq(self.priority_order[k].name.as_str(), name) {
                        let x = share(&new_arc);
                        self.priority_order.set(k, x);
                    }
                    assert forall|j: int| 0 <= j < n implies views(self.priority_order@)[j] == (
                    if j == k {
                        if order0[j].name == name@ {
                            new_view
                        } else {
                            order0[j]
                        }
                    } else {
                        cur[j]
                    }) by {
                        assert(views(self.priority_order@)[j] == self.priority_order@[j]@);
                    }
                }
                assert(views(self.priority_order@) =~= order0.map_values(
                    |x: SkillView| if x.name == name@ { new_view } else { x },
                ));
                assert(views(self.skills@) =~= before.skills.update(i as int, new_view));
                true
            },
        }
    }
}

/// `v` keeping only the first match of each skill name.
fn dedup_by_name(v: Vec<SkillMatch>) -> (r: Vec<SkillMatch>)
    ensures
        views(r@) == dedup_names(views(v@)),
{
    let ghost orig = views(v@);
    let mut rest = v;
    let mut r: Vec<SkillMatch> = Vec::new();
    let ghost mut done: int = 0;
    while rest.len() > 0
        invariant
            0 <= done <= orig.len(),
            views(rest@) == orig.subrange(done, orig.len() as int),
            views(r@) == dedup_names(orig.take(done)),
        decreases rest.len(),
    {
        let ghost old_rest = rest@;
        assert(views(old_rest).len() == old_rest.len());
        assert(views(old_rest)[0] == orig[done]);
        let x = rest.remove(0);
        assert(x@ == orig[done]);
        assert(views(rest@) =~= orig.subrange(done + 1, orig.len() as int)) by {
            assert(rest@ =~= old_rest.subrange(1, old_rest.len() as int));
            assert forall|i: int| 0 <= i < rest@.len() implies views(rest@)[i] == orig[done + 1
                + i] by {
                assert(views(rest@)[i] == rest@[i]@);
                assert(rest@[i] == old_rest[i + 1]);
                assert(views(old_rest)[i + 1] == old_rest[i + 1]@);
            }
        }
        let ghost prev = views(r@);
        let mut seen = false;
        let mut k: usize = 0;
        while k < r.len()
            invariant
                views(r@) == prev,
                k <= r@.len(),
                seen == (exists|j: int| 0 <= j < k && (#[trigger] prev[j]).skill.name == x@.skill.name),
            decreases r@.len() - k,
        {
            assert(prev[k as int] == r@[k as int]@);
            if str_eq(r[k].skill.name.as_str(), x.skill.name.as_str()) {
                seen = true;
            }
            k = k + 1;
        }
        assert(orig.take(done + 1).drop_last() =~= orig.take(done));
        assert(orig.take(done + 1).last() == x@);
        if !seen {
            r.push(x);
            assert(views(r@) =~= prev.push(orig[done]));
        }
        proof {
            done = done + 1;
        }
    }
    assert(orig.take(done) =~= orig);
    r
}

impl SkillRegistry {
    /// The candidate of the command index for `input`, if any.
    fn command_candidate(&self, input: &str, cands: &mut Vec<SkillMatch>)
        requires
            old(cands)@.len() == 0,
        ensures
            views(final(cands)@) == command_cands(self@, input@),
    {
        let t = trim(input);
        let slash = "/";
        proof {
            reveal_strlit("/");
        }
        assert(slash@ =~= seq!['/']);
        if starts_with_str(t, slash) {
            match position_of_command(&self.command_index, t) {
                Some(i) => {
                    let tm = TriggerMatch {
                        matched_text: owned(t),
                        start: 0,
                        end: byte_len_of(input),
                        captures: vec![owned(t)],
                        trigger_kind: TriggerKind::Command,
                    };
                    assert(tm@.captures =~= seq![trimmed(input@)]);
                    let m = SkillMatch {
                        skill: share(&self.command_index[i].1),
                        trigger_match: tm,
                        score_halves: 200,
                    };
                    proof {
                        lemma_find_key(command_entries(self.command_index@), t@);
                    }
                    assert(m@.skill == command_entries(self.command_index@)[i as int].1);
                    cands.push(m);
                    assert(views(cands@) =~= command_cands(self@, input@));
                },
                None => {
                    assert(views(cands@) =~= command_cands(self@, input@));
                },
            }
        } else {
            assert(views(cands@) =~= command_cands(self@, input@));
        }
    }

    /// Appends the candidates of the pattern index for `input`.
    fn pattern_candidates(&self, input: &str, cands: &mut Vec<SkillMatch>)
        ensures
            views(final(cands)@) == views(old(cands)@) + pattern_cands(self@.patterns, input@),
    {
        let ghost base = views(cands@);
        let ghost ps = self@.patterns;
        let n = self.pattern_index.len();
        for i in 0..n
            invariant
                n == ps.len(),
                ps == pattern_entries(self.pattern_index@),
                views(cands@) == base + pattern_cands(ps.take(i as int), input@),
        {
            let re = &self.pattern_index[i].0;
            let sk = &self.pattern_index[i].1;
            assert(ps[i as int] == (re@, sk@));
            assert(ps.take(i + 1).drop_last() =~= ps.take(i as int));
            let ghost before = views(cands@);
            match pattern_find(re, input) {
                Some((start, end, text)) => {
                    let caps = captured_texts(re, input);
                    let p = f32_value(sk.metadata.priority);
                    let m = SkillMatch {
                        skill: share(sk),
                        trigger_match: TriggerMatch {
                            matched_text: text,
                            start,
                            end,
                            captures: caps,
                            trigger_kind: TriggerKind::Pattern,
                        },
                        score_halves: 2 * p,
                    };
                    cands.push(m);
                    assert(views(cands@) =~= before + pattern_cand(ps[i as int], input@));
                },
                None => {
                    assert(pattern_cand(ps[i as int], input@) =~= Seq::<CandView>::empty());
                    assert(views(cands@) =~= before + pattern_cand(ps[i as int], input@));
                },
            }
        }
        assert(ps.take(n as int) =~= ps);
    }

    /// Appends the candidates of the keyword index for `input`.
    fn keyword_candidates(&self, input: &str, cands: &mut Vec<SkillMatch>)
        requires
            keyword_offsets_fit(self@, input@),
        ensures
            views(final(cands)@) == views(old(cands)@) + keyword_cands(
                self@.keywords,
                lowercase(input@),
            ),
    {
        let ghost base = views(cands@);
        let ghost ks = self@.keywords;
        let lower = to_lowercase(input);
        let lower_chars = chars_of(lower.as_str());
        let n = self.keyword_index.len();
        for i in 0..n
            invariant
                n == ks.len(),
                ks == keyword_entries(self.keyword_index@),
                ks == self@.keywords,
                keyword_offsets_fit(self@, input@),
                lower@ == lowercase(input@),
                lower_chars@ == lower@,
                views(cands@) == base + keyword_cands(ks.take(i as int), lower@),
        {
            let key = &self.keyword_index[i].0;
            let list = &self.keyword_index[i].1;
            assert(ks[i as int] == (key@, views(list@)));
            assert(ks.take(i + 1).drop_last() =~= ks.take(i as int));
            let ghost before = views(cands@);
            let key_chars = chars_of(key.as_str());
            match find_chars(&lower_chars, &key_chars) {
                Some(p) => {
                    proof {
                        lemma_prefix_byte_len(lower@, p as int);
                    }
                    let pos = prefix_byte_len(lower.as_str(), p);
                    let key_len = byte_len_of(key.as_str());
                    assert(byte_len(lower@) + byte_len(ks[i as int].0) <= usize::MAX);
                    let ghost xs = views(list@);
                    for j in 0..list.len()
                        invariant
                            xs == views(list@),
                            pos == byte_offset(lower@, p as int) as usize,
                            byte_offset(lower@, p as int) + byte_len(key@) <= usize::MAX,
                            key_len == byte_len(key@) as usize,
                            views(cands@) == before + keyword_skill_cands(
                                key@,
                                p as int,
                                lower@,
                                xs.take(j as int),
                            ),
                    {
                        let sk = &list[j];
                        assert(xs[j as int] == sk@);
                        let score = f32_value(sk.metadata.priority);
                        let m = SkillMatch {
                            skill: share(sk),
                            trigger_match: TriggerMatch {
                                matched_text: key.clone(),
                                start: pos,
                                end: pos + key_len,
                                captures: Vec::new(),
                                trigger_kind: TriggerKind::Keyword,
                            },
                            score_halves: score,
                        };
                        assert(m@.m.captures =~= Seq::<Seq<char>>::empty());
                        let ghost mid = views(cands@);
                        cands.push(m);
                        assert(xs.take(j + 1).drop_last() =~= xs.take(j as int));
                        assert(views(cands@) =~= mid.push(
                            keyword_cand(key@, p as int, lower@, xs[j as int]),
                        ));
                    }
                    assert(xs.take(list@.len() as int) =~= xs);
                    assert(views(cands@) =~= before + keyword_entry_cands(ks[i as int], lower@));
                },
                None => {
                    assert(keyword_entry_cands(ks[i as int], lower@) =~= Seq::<CandView>::empty());
                    assert(views(cands@) =~= before + keyword_entry_cands(ks[i as int], lower@));
                },
            }
        }
        assert(ks.take(n as int) =~= ks);
    }

    /// The candidates whose skill is registered under its name and enabled.
    fn keep_live(&self, cands: Vec<SkillMatch>) -> (r: Vec<SkillMatch>)
        ensures
            views(r@) == views(cands@).filter(is_live(self@)),
    {
        let ghost cv = views(cands@);
        let ghost f = is_live(self@);
        let mut out: Vec<SkillMatch> = Vec::new();
        let mut rest = cands;
        let ghost mut k: int = 0;
        while rest.len() > 0
            invariant
                0 <= k <= cv.len(),
                views(rest@) == cv.skip(k),
                views(out@) == cv.take(k).filter(f),
                f == is_live(self@),
                cv.len() == k + rest@.len(),
            decreases rest.len(),
        {
            let ghost before = rest@;
            let c = rest.remove(0);
            proof {
                assert(cv.skip(k)[0] == c@);
                assert(cv[k] == c@);
                assert(views(rest@) =~= cv.skip(k + 1)) by {
                    assert forall|j: int| 0 <= j < rest@.len() implies #[trigger] views(rest@)[j]
                        == cv.skip(k + 1)[j] by {
                        assert(rest@[j] == before[j + 1]);
                        assert(views(before)[j + 1] == cv.skip(k)[j + 1]);
                    }
                }
                assert(cv.take(k + 1).drop_last() =~= cv.take(k));
                reveal_with_fuel(Seq::<_>::filter, 1);
            }
            let live = match position_of_name(&self.skills, c.skill.name.as_str()) {
                Some(i) => {
                    assert(views(self.skills@)[i as int] == self.skills@[i as int]@);
                    self.skills[i].enabled
                },
                None => false,
            };
            assert(live == f(c@));
            if live {
                let ghost o = views(out@);
                out.push(c);
                assert(views(out@) =~= o.push(cv[k]));
            } else {
                assert(views(out@) =~= cv.take(k + 1).filter(f));
            }
            proof {
                k = k + 1;
            }
        }
        assert(cv.take(k) =~= cv);
        out
    }

    /// The skills whose triggers match `input`, best first: a slash command
    /// (score 100), then pattern triggers (score = priority), then keyword
    /// triggers (score = priority / 2), in stable order of score, keeping
    /// only the first match of each skill name; skills that are disabled
    /// (as the registry holds them under their name) are not matched.
    pub fn find_matches(&self, input: &str) -> (r: Vec<SkillMatch>)
        requires
            keyword_offsets_fit(self@, input@),
        ensures
            views(r@) == spec_find_matches(self@, input@),
    {
        let mut cands: Vec<SkillMatch> = Vec::new();
        self.command_candidate(input, &mut cands);
        self.pattern_candidates(input, &mut cands);
        self.keyword_candidates(input, &mut cands);
        assert(views(cands@) =~= candidates(self@, input@));
        let live = self.keep_live(cands);
        let sorted = stable_sort_desc(live);
        dedup_by_name(sorted)
    }

    /// The best matching skill for `input`.
    pub fn find_best_match(&self, input: &str) -> (r: Option<SkillMatch>)
        requires
            keyword_offsets_fit(self@, input@),
        ensures
            r is None <==> spec_find_matches(self@, input@).len() == 0,
            r matches Some(m) ==> m@ == spec_find_matches(self@, input@)[0],
    {
        let mut all = self.find_matches(input);
        if all.len() == 0 {
            None
        } else {
            assert(all@[0]@ == views(all@)[0]);
            Some(all.remove(0))
        }
    }

    /// Whether the byte positions of the keyword triggers in `input` fit in
    /// `usize`, as `find_matches` needs.
    pub fn keyword_offsets_fit_for(&self, input: &str) -> (r: bool)
        ensures
            r == keyword_offsets_fit(self@, input@),
    {
        let lower = to_lowercase(input);
        let lb = byte_len_of(lower.as_str());
        let ghost ks = self@.keywords;
        let n = self.keyword_index.len();
        for i in 0..n
            invariant
                n == ks.len(),
                ks == keyword_entries(self.keyword_index@),
                ks == self@.keywords,
                lb == byte_len(lowercase(input@)),
                forall|k: int| 0 <= k < i ==> lb + byte_len((#[trigger] ks[k]).0) <= usize::MAX,
        {
            assert(ks[i as int].0 == self.keyword_index@[i as int].0@);
            let kb = byte_len_of(self.keyword_index[i].0.as_str());
            if kb > usize::MAX - lb {
                return false;
            }
        }
        true
    }

    /// The matches for `input`, as `find_matches` gives them, where the
    /// byte positions of its keyword triggers fit in `usize`; `None` where
    /// they do not.
    pub fn try_find_matches(&self, input: &str) -> (r: Option<Vec<SkillMatch>>)
        ensures
            r is None <==> !keyword_offsets_fit(self@, input@),
            r matches Some(v) ==> views(v@) == spec_find_matches(self@, input@),
    {
        if self.keyword_offsets_fit_for(input) {
            Some(self.find_matches(input))
        } else {
            None
        }
    }
}

impl Default for SkillRegistry {
    /// An empty registry.
    fn default() -> (r: SkillRegistry)
        ensures
            r@.skills.len() == 0,
            r@.order.len() == 0,
            r@.patterns.len() == 0,
            r@.commands.len() == 0,
            r@.keywords.len() == 0,
    {
        SkillRegistry::new()
    }
}

// ---------------------------------------------------------------------------
// Laws
// ---------------------------------------------------------------------------

/// After registering a skill, looking up its name gives that skill; every
/// other name gives what it gave before; the count of skills grows by one
/// exactly when the name was new.
pub proof fn law_register_then_get(r: RegistryView, x: SkillView, other: Seq<char>)
    requires
        other != x.name,
    ensures
        lookup_skill(spec_register(r, x).skills, x.name) == Some(x),
        lookup_skill(spec_register(r, x).skills, other) == lookup_skill(r.skills, other),
        spec_register(r, x).skills.len() == r.skills.len() + if lookup_skill(r.skills, x.name) is Some {
            0int
        } else {
            1int
        },
{
    let s = r.skills;
    let t = spec_register(r, x).skills;
    lemma_find_name(s, x.name);
    lemma_find_name(s, other);
    match find_name(s, x.name) {
        Some(i) => {
            assert(t == s.update(i, x));
            lemma_find_name_first(t, x.name, i);
            match find_name(s, other) {
                Some(j) => {
                    assert(t[j] == s[j]);
                    assert forall|k: int| 0 <= k < j implies (#[trigger] t[k]).name != other by {
                        if k != i {
                            assert(t[k] == s[k]);
                        }
                    }
                    lemma_find_name_first(t, other, j);
                },
                None => {
                    assert forall|k: int| 0 <= k < t.len() implies (#[trigger] t[k]).name
                        != other by {
                        if k != i {
                            assert(t[k] == s[k]);
                        }
                    }
                    lemma_find_name_none(t, other);
                },
            }
        },
        None => {
            assert(t == s.push(x));
            assert forall|k: int| 0 <= k < s.len() implies (#[trigger] t[k]).name != x.name by {
                assert(t[k] == s[k]);
            }
            lemma_find_name_first(t, x.name, s.len() as int);
            match find_name(s, other) {
                Some(j) => {
                    assert forall|k: int| 0 <= k < j implies (#[trigger] t[k]).name != other by {
                        assert(t[k] == s[k]);
                    }
                    assert(t[j] == s[j]);
                    lemma_find_name_first(t, other, j);
                },
                None => {
                    assert forall|k: int| 0 <= k < t.len() implies (#[trigger] t[k]).name
                        != other by {
                        if k < s.len() {
                            assert(t[k] == s[k]);
                        }
                    }
                    lemma_find_name_none(t, other);
                },
            }
        },
    }
}

/// Registering keeps a sorted priority order sorted by priority (highest
/// first): it holds the earlier skills but the one of the new skill's name,
/// and the new skill, placed after every skill of at least its priority and
/// before every skill of a lower one (so among equal priorities, in
/// registration order).
pub proof fn law_register_order(r: RegistryView, x: SkillView)
    requires
        sorted_desc(r.order),
    ensures
        sorted_desc(spec_register(r, x).order),
        spec_register(r, x).order.to_multiset() == without_name(r.order, x.name).to_multiset().insert(
            x,
        ),
        ({
            let o = spec_register(r, x).order;
            let p = first_below(without_name(r.order, x.name), x.key(), 0);
            &&& 0 <= p < o.len()
            &&& o[p] == x
            &&& forall|i: int| 0 <= i < p ==> (#[trigger] o[i]).key() >= x.key()
            &&& forall|i: int| p < i < o.len() ==> (#[trigger] o[i]).key() < x.key()
        }),
{
    let o1 = without_name(r.order, x.name);
    lemma_without_name_sorted(r.order, x.name);
    lemma_insert_sorted(o1, x);
    crate::order::lemma_first_below_bounds(o1, x.key(), 0);
    let p = first_below(o1, x.key(), 0);
    let o = spec_register(r, x).order;
    assert(o == o1.take(p).push(x) + o1.skip(p));
    assert forall|i: int| p < i < o.len() implies (#[trigger] o[i]).key() < x.key() by {
        assert(o[i] == o1[i - 1]);
        assert(o1[p].key() < x.key());
        if i - 1 > p {
            assert(o1[p].key() >= o1[i - 1].key());
        }
    }
    assert forall|i: int| 0 <= i < p implies (#[trigger] o[i]).key() >= x.key() by {
        assert(o[i] == o1[i]);
    }
}

/// Removing an entry keeps a sequence sorted.
proof fn lemma_without_name_sorted(o: Seq<SkillView>, name: Seq<char>)
    requires
        sorted_desc(o),
    ensures
        sorted_desc(without_name(o, name)),
{
    lemma_find_name(o, name);
    if let Some(k) = find_name(o, name) {
        let o1 = o.remove(k);
        assert forall|i: int, j: int| 0 <= i < j < o1.len() implies (#[trigger] o1[i]).key() >= (
        #[trigger] o1[j]).key() by {
            let a = if i < k { i } else { i + 1 };
            let b = if j < k { j } else { j + 1 };
            assert(o1[i] == o[a] && o1[j] == o[b]);
        }
    }
}

/// Deduplication keeps the order, keeps one candidate per name, and keeps
/// only candidates it was given.
proof fn lemma_dedup_names(s: Seq<CandView>)
    ensures
        forall|i: int| 0 <= i < dedup_names(s).len() ==> s.contains(#[trigger] dedup_names(s)[i]),
        forall|i: int, j: int|
            0 <= i < j < dedup_names(s).len() ==> (#[trigger] dedup_names(s)[i]).skill.name != (
            #[trigger] dedup_names(s)[j]).skill.name,
        sorted_desc(s) ==> sorted_desc(dedup_names(s)),
        forall|i: int| 0 <= i < s.len() ==> has_skill_named(dedup_names(s), (#[trigger] s[i]).skill.name),
    decreases s.len(),
{
    if s.len() > 0 {
        let p = s.drop_last();
        lemma_dedup_names(p);
        let r = dedup_names(p);
        assert forall|i: int| 0 <= i < r.len() implies s.contains(#[trigger] r[i]) by {
            let k = choose|k: int| 0 <= k < p.len() && p[k] == r[i];
            assert(s[k] == r[i]);
        }
        if sorted_desc(s) {
            assert(sorted_desc(p));
            assert forall|i: int| 0 <= i < r.len() implies (#[trigger] r[i]).key() >= s.last().key() by {
                let k = choose|k: int| 0 <= k < p.len() && p[k] == r[i];
                assert(s[k] == r[i]);
            }
        }
        if !has_skill_named(r, s.last().skill.name) {
            let d = r.push(s.last());
            assert(d == dedup_names(s));
            assert forall|i: int| 0 <= i < s.len() implies has_skill_named(d, (#[trigger] s[i]).skill.name) by {
                if i < p.len() {
                    assert(p[i] == s[i]);
                    let k = choose|k: int| 0 <= k < r.len() && (#[trigger] r[k]).skill.name == p[i].skill.name;
                    assert(d[k] == r[k]);
                } else {
                    assert(d[r.len() as int] == s.last());
                }
            }
        } else {
            assert forall|i: int| 0 <= i < s.len() implies has_skill_named(r, (#[trigger] s[i]).skill.name) by {
                if i < p.len() {
                    assert(p[i] == s[i]);
                }
            }
        }
    }
}

/// The matches are ordered by score, highest first; no skill name appears
/// twice; each is one of the candidates, for a skill that is registered
/// under its name and enabled; and every such candidate's skill is
/// represented by some match.
pub proof fn law_find_matches(r: RegistryView, input: Seq<char>)
    ensures
        sorted_desc(spec_find_matches(r, input)),
        forall|i: int, j: int|
            0 <= i < j < spec_find_matches(r, input).len() ==> (#[trigger] spec_find_matches(
                r,
                input,
            )[i]).skill.name != (#[trigger] spec_find_matches(r, input)[j]).skill.name,
        forall|i: int|
            0 <= i < spec_find_matches(r, input).len() ==> candidates(r, input).contains(
                #[trigger] spec_find_matches(r, input)[i],
            ),
        forall|i: int|
            0 <= i < spec_find_matches(r, input).len() ==> (lookup_skill(
                r.skills,
                (#[trigger] spec_find_matches(r, input)[i]).skill.name,
            ) matches Some(x) && x.enabled),
        forall|i: int|
            0 <= i < live_candidates(r, input).len() ==> has_skill_named(
                spec_find_matches(r, input),
                (#[trigger] live_candidates(r, input)[i]).skill.name,
            ),
{
    broadcast use vstd::seq_lib::group_filter_ensures;

    let all = candidates(r, input);
    let c = live_candidates(r, input);
    let s = sort_desc(c);
    lemma_sort_desc(c);
    lemma_dedup_names(s);
    assert forall|i: int| 0 <= i < dedup_names(s).len() implies c.contains(
        #[trigger] dedup_names(s)[i],
    ) by {
        assert(s.contains(dedup_names(s)[i]));
        assert(s.to_multiset().count(dedup_names(s)[i]) > 0) by {
            s.to_multiset_ensures();
        }
        c.to_multiset_ensures();
    }
    assert forall|i: int| 0 <= i < dedup_names(s).len() implies all.contains(
        #[trigger] dedup_names(s)[i],
    ) && (is_live(r))(dedup_names(s)[i]) by {
        assert(c.contains(dedup_names(s)[i]));
        let k = choose|k: int| 0 <= k < c.len() && c[k] == dedup_names(s)[i];
        assert((is_live(r))(c[k]));
        assert(c.contains(c[k]));
        all.lemma_filter_contains_rev(is_live(r), c[k]);
        assert(all.contains(c[k]));
    }
    assert forall|i: int| 0 <= i < c.len() implies has_skill_named(
        dedup_names(s),
        (#[trigger] c[i]).skill.name,
    ) by {
        c.to_multiset_ensures();
        s.to_multiset_ensures();
        assert(c.to_multiset().count(c[i]) > 0);
        let k = choose|k: int| 0 <= k < s.len() && s[k] == c[i];
        assert(s[k].skill.name == c[i].skill.name);
    }
}

/// After `set_enabled`, the skill under that name has the requested flag,
/// and the number of skills is unchanged.
pub proof fn law_set_enabled(r: RegistryView, name: Seq<char>, enabled: bool)
    ensures
        spec_set_enabled(r, name, enabled).skills.len() == r.skills.len(),
        lookup_skill(r.skills, name) is Some ==> lookup_skill(
            spec_set_enabled(r, name, enabled).skills,
            name,
        ) == Some(SkillView { enabled, ..lookup_skill(r.skills, name)->0 }),
{
    lemma_find_name(r.skills, name);
    if let Some(i) = find_name(r.skills, name) {
        let t = spec_set_enabled(r, name, enabled).skills;
        assert forall|k: int| 0 <= k < i implies (#[trigger] t[k]).name != name by {
            assert(t[k] == r.skills[k]);
        }
        lemma_find_name_first(t, name, i);
    }
}


/// An empty registry is consistent; registering a skill and enabling or
/// disabling one keep a registry consistent: one skill per name, a priority
/// order that lists each registered skill once (so `list()` is as long as
/// `count()`), and trigger indexes that hold only registered skills. After
/// registering `x`, `x` is the one entry of its name in the priority order.
pub proof fn law_registry_consistent(r: RegistryView, x: SkillView, name: Seq<char>, enabled: bool)
    ensures
        consistent(
            RegistryView {
                skills: Seq::empty(),
                order: Seq::empty(),
                patterns: Seq::empty(),
                commands: Seq::empty(),
                keywords: Seq::empty(),
            },
        ),
        consistent(r) ==> r.order.len() == r.skills.len(),
        consistent(r) ==> consistent(spec_register(r, x)),
        consistent(r) ==> (exists|k: int|
            0 <= k < spec_register(r, x).order.len() && spec_register(r, x).order[k] == x),
        consistent(r) ==> (forall|k: int|
            0 <= k < spec_register(r, x).order.len() && (#[trigger] spec_register(
                r,
                x,
            ).order[k]).name == x.name ==> spec_register(r, x).order[k] == x),
        consistent(r) ==> consistent(spec_set_enabled(r, name, enabled)),
{
    if consistent(r) {
        lemma_register_consistent(r, x);
        lemma_set_enabled_consistent(r, name, enabled);
    }
}

/// Looking a name up in `t` gives what it gives in `s`, where the two have
/// the same names in the same places.
proof fn lemma_find_name_same_names(s: Seq<SkillView>, t: Seq<SkillView>, n: Seq<char>)
    requires
        s.len() == t.len(),
        forall|i: int| 0 <= i < s.len() ==> (#[trigger] s[i]).name == t[i].name,
    ensures
        find_name(s, n) == find_name(t, n),
    decreases s.len(),
{
    if s.len() > 0 {
        lemma_find_name_same_names(s.drop_last(), t.drop_last(), n);
    }
}

#[verifier::spinoff_prover]
#[verifier::rlimit(60)]
proof fn lemma_register_consistent(r: RegistryView, x: SkillView)
    requires
        consistent(r),
    ensures
        consistent(spec_register(r, x)),
        ({
            let r2 = spec_register(r, x);
            &&& exists|k: int| 0 <= k < r2.order.len() && r2.order[k] == x
            &&& forall|k: int| 0 <= k < r2.order.len() && (#[trigger] r2.order[k]).name == x.name ==> r2.order[k] == x
        }),
{
    let s = r.skills;
    let t = put_skill(s, x);
    let o = r.order;
    let o1 = without_name(o, x.name);
    let p = first_below(o1, x.key(), 0);
    let o2 = insert_desc(o1, x);
    lemma_find_name(s, x.name);
    lemma_find_name(o, x.name);
    // lookups after the put
    assert(lookup_skill(t, x.name) == Some(x)) by {
        match find_name(s, x.name) {
            Some(m) => {
                assert forall|k: int| 0 <= k < m implies (#[trigger] t[k]).name != x.name by {
                    assert(t[k] == s[k]);
                }
                lemma_find_name_first(t, x.name, m);
            },
            None => {
                assert forall|k: int| 0 <= k < s.len() implies (#[trigger] t[k]).name != x.name by {
                    assert(t[k] == s[k]);
                }
                lemma_find_name_first(t, x.name, s.len() as int);
            },
        }
    }
    assert forall|n: Seq<char>| n != x.name implies lookup_skill(t, n) == lookup_skill(s, n) by {
        law_register_then_get(r, x, n);
    }
    assert forall|n: Seq<char>| registered(s, n) implies registered(t, n) by {
        let k = choose|k: int| 0 <= k < s.len() && (#[trigger] s[k]).name == n;
        assert(t[k].name == n);
    }
    // the order without the old entry of x's name
    let kk: int = match find_name(o, x.name) {
        Some(k) => k,
        None => o.len() as int,
    };
    assert(forall|i: int| 0 <= i < o.len() && i != kk ==> (#[trigger] o[i]).name != x.name) by {
        assert forall|i: int| 0 <= i < o.len() && i != kk implies (#[trigger] o[i]).name != x.name by {
            if find_name(o, x.name) is Some {
                if i < kk {
                } else {
                    assert(o[kk].name == x.name);
                }
            }
        }
    }
    assert(o1.len() == if kk < o.len() { o.len() - 1 } else { o.len() as int });
    assert forall|i: int| 0 <= i < o1.len() implies #[trigger] o1[i] == o[if i < kk { i } else { i + 1 }] by {}
    // lengths
    assert(o2.len() == t.len()) by {
        match find_name(s, x.name) {
            Some(m) => {
                assert(registered(o, s[m].name));
                let j = choose|j: int| 0 <= j < o.len() && (#[trigger] o[j]).name == s[m].name;
                assert(find_name(o, x.name) is Some);
            },
            None => {
                if find_name(o, x.name) is Some {
                    assert(lookup_skill(s, o[kk].name) == Some(o[kk]));
                }
            },
        }
        lemma_insert_sorted(o1, x);
    }
    crate::order::lemma_first_below_bounds(o1, x.key(), 0);
    assert(o2 == o1.take(p).push(x) + o1.skip(p));
    assert forall|i: int| 0 <= i < o2.len() implies #[trigger] o2[i] == (if i < p {
        o1[i]
    } else if i == p {
        x
    } else {
        o1[i - 1]
    }) by {}
    // names of o1 are not x's, and are distinct
    assert forall|i: int| 0 <= i < o1.len() implies (#[trigger] o1[i]).name != x.name by {
        let a = if i < kk { i } else { i + 1 };
        assert(o1[i] == o[a]);
    }
    // o2: one entry per name
    assert forall|i: int, j: int| 0 <= i < j < o2.len() implies (#[trigger] o2[i]).name != (
    #[trigger] o2[j]).name by {
        let ia = if i < p { i } else { i - 1 };
        let ja = if j < p { j } else { j - 1 };
        if i != p && j != p {
            let a = if ia < kk { ia } else { ia + 1 };
            let b = if ja < kk { ja } else { ja + 1 };
            assert(o2[i] == o[a] && o2[j] == o[b]);
        } else if i == p {
            assert(o2[j] == o1[ja]);
        } else {
            assert(o2[i] == o1[ia]);
        }
    }
    // o2: each entry as registered
    assert forall|i: int| 0 <= i < o2.len() implies lookup_skill(t, (#[trigger] o2[i]).name) == Some(
        o2[i],
    ) by {
        if i != p {
            let ia = if i < p { i } else { i - 1 };
            let a = if ia < kk { ia } else { ia + 1 };
            assert(o2[i] == o[a]);
            assert(lookup_skill(s, o[a].name) == Some(o[a]));
        }
    }
    // every registered name is in o2
    assert forall|i: int| 0 <= i < t.len() implies registered(o2, (#[trigger] t[i]).name) by {
        if t[i] == x {
            assert(o2[p] == x);
        } else {
            assert(t[i] == s[i]);
            assert(s[i].name != x.name) by {
                match find_name(s, x.name) {
                    Some(m) => {
                        assert(i != m);
                    },
                    None => {},
                }
            }
            assert(registered(o, s[i].name));
            let j = choose|j: int| 0 <= j < o.len() && (#[trigger] o[j]).name == s[i].name;
            assert(j != kk);
            let ja = if j < kk { j } else { j - 1 };
            assert(o1[ja] == o[j]);
            let jb = if ja < p { ja } else { ja + 1 };
            assert(o2[jb] == o1[ja]);
        }
    }
    law_register_order(r, x);
    // one skill per name in the main list
    assert forall|i: int, j: int| 0 <= i < j < t.len() implies (#[trigger] t[i]).name != (
    #[trigger] t[j]).name by {
        match find_name(s, x.name) {
            Some(m) => {
                assert(s[m].name == x.name);
                if i != m && j != m {
                    assert(t[i] == s[i] && t[j] == s[j]);
                } else if i == m {
                    assert(t[j] == s[j]);
                } else {
                    assert(t[i] == s[i]);
                }
            },
            None => {
                if j < s.len() {
                    assert(t[i] == s[i] && t[j] == s[j]);
                } else {
                    assert(t[i] == s[i]);
                }
            },
        }
    }
    // the indexes
    let ix0 = IndexView { patterns: r.patterns, commands: r.commands, keywords: r.keywords };
    assert(index_registered(ix0, t)) by {
        assert forall|i: int| 0 <= i < ix0.patterns.len() implies registered(
            t,
            (#[trigger] ix0.patterns[i]).1.name,
        ) by {
            assert(registered(s, ix0.patterns[i].1.name));
        }
        assert forall|i: int| 0 <= i < ix0.commands.len() implies registered(
            t,
            (#[trigger] ix0.commands[i]).1.name,
        ) by {
            assert(registered(s, ix0.commands[i].1.name));
        }
        assert forall|i: int, j: int|
            0 <= i < ix0.keywords.len() && 0 <= j < ix0.keywords[i].1.len() implies registered(
            t,
            (#[trigger] ix0.keywords[i].1[j]).name,
        ) by {
            assert(registered(s, ix0.keywords[i].1[j].name));
        }
    }
    lemma_index_triggers_registered(ix0, x.metadata.triggers, x, t);
    assert(o2[p] == x);
    assert forall|k: int| 0 <= k < o2.len() && (#[trigger] o2[k]).name == x.name implies o2[k] == x by {
        if k != p {
            assert(lookup_skill(t, o2[k].name) == Some(o2[k]));
        }
    }
}

#[verifier::spinoff_prover]
proof fn lemma_set_enabled_consistent(r: RegistryView, name: Seq<char>, enabled: bool)
    requires
        consistent(r),
    ensures
        consistent(spec_set_enabled(r, name, enabled)),
{
    lemma_find_name(r.skills, name);
    if let Some(m) = find_name(r.skills, name) {
        let s = r.skills;
        let o = r.order;
        let old = s[m];
        let new = SkillView { enabled, ..old };
        let t = s.update(m, new);
        let r2 = spec_set_enabled(r, name, enabled);
        assert(r2.skills == t);
        let o2 = r2.order;
        assert(forall|i: int| 0 <= i < o.len() ==> #[trigger] o2[i] == (if o[i].name == name {
            new
        } else {
            o[i]
        }));
        assert forall|n: Seq<char>| find_name(t, n) == find_name(s, n) by {
            lemma_find_name_same_names(s, t, n);
        }
        assert forall|n: Seq<char>| lookup_skill(t, n) == (if n == name {
            Some(new)
        } else {
            lookup_skill(s, n)
        }) by {
            lemma_find_name(s, n);
            if let Some(q) = find_name(s, n) {
                if n == name {
                    assert(q == m);
                } else {
                    assert(q != m);
                }
            }
        }
        assert forall|n: Seq<char>| registered(s, n) implies registered(t, n) by {
            let k = choose|k: int| 0 <= k < s.len() && (#[trigger] s[k]).name == n;
            assert(t[k].name == n);
        }
        assert forall|n: Seq<char>| registered(o, n) implies registered(o2, n) by {
            let k = choose|k: int| 0 <= k < o.len() && (#[trigger] o[k]).name == n;
            assert(o2[k].name == n);
        }
        assert forall|i: int, j: int| 0 <= i < j < t.len() implies (#[trigger] t[i]).name != (
        #[trigger] t[j]).name by {
            assert(t[i].name == s[i].name && t[j].name == s[j].name);
        }
        assert forall|i: int, j: int| 0 <= i < j < o2.len() implies (#[trigger] o2[i]).name != (
        #[trigger] o2[j]).name by {
            assert(o2[i].name == o[i].name && o2[j].name == o[j].name);
        }
        assert forall|i: int| 0 <= i < o2.len() implies lookup_skill(t, (#[trigger] o2[i]).name)
            == Some(o2[i]) by {
            assert(lookup_skill(s, o[i].name) == Some(o[i]));
        }
        assert forall|i: int| 0 <= i < o2.len() implies (#[trigger] o2[i]).key() == o[i].key() by {
            if o[i].name == name {
                assert(lookup_skill(s, o[i].name) == Some(o[i]));
            }
        }
        assert(sorted_desc(o2)) by {
            assert forall|i: int, j: int| 0 <= i < j < o2.len() implies (#[trigger] o2[i]).key()
                >= (#[trigger] o2[j]).key() by {
                assert(o2[i].key() == o[i].key() && o2[j].key() == o[j].key());
            }
        }
        assert forall|i: int| 0 <= i < t.len() implies registered(o2, (#[trigger] t[i]).name) by {
            assert(t[i].name == s[i].name);
            assert(registered(o, s[i].name));
        }
        assert forall|i: int| 0 <= i < r2.patterns.len() implies registered(
            t,
            (#[trigger] r2.patterns[i]).1.name,
        ) by {
            assert(registered(s, r.patterns[i].1.name));
        }
        assert forall|i: int| 0 <= i < r2.commands.len() implies registered(
            t,
            (#[trigger] r2.commands[i]).1.name,
        ) by {
            assert(registered(s, r.commands[i].1.name));
        }
        assert forall|i: int, j: int|
            0 <= i < r2.keywords.len() && 0 <= j < r2.keywords[i].1.len() implies registered(
            t,
            (#[trigger] r2.keywords[i].1[j]).name,
        ) by {
            assert(registered(s, r.keywords[i].1[j].name));
        }
    }
}

proof fn lemma_put_command_registered(
    c: Seq<(Seq<char>, SkillView)>,
    key: Seq<char>,
    x: SkillView,
    t: Seq<SkillView>,
)
    requires
        forall|i: int| 0 <= i < c.len() ==> registered(t, (#[trigger] c[i]).1.name),
        registered(t, x.name),
    ensures
        forall|i: int|
            0 <= i < put_command(c, key, x).len() ==> registered(
                t,
                (#[trigger] put_command(c, key, x)[i]).1.name,
            ),
{
    let d = put_command(c, key, x);
    lemma_find_key(c, key);
    assert forall|i: int| 0 <= i < d.len() implies registered(t, (#[trigger] d[i]).1.name) by {
        if i < c.len() && d[i] == c[i] {
        } else {
            assert(d[i].1 == x);
        }
    }
}

proof fn lemma_put_commands_registered(
    c: Seq<(Seq<char>, SkillView)>,
    keys: Seq<Seq<char>>,
    x: SkillView,
    t: Seq<SkillView>,
)
    requires
        forall|i: int| 0 <= i < c.len() ==> registered(t, (#[trigger] c[i]).1.name),
        registered(t, x.name),
    ensures
        forall|i: int|
            0 <= i < put_commands(c, keys, x).len() ==> registered(
                t,
                (#[trigger] put_commands(c, keys, x)[i]).1.name,
            ),
    decreases keys.len(),
{
    if keys.len() > 0 {
        lemma_put_commands_registered(c, keys.drop_last(), x, t);
        lemma_put_command_registered(put_commands(c, keys.drop_last(), x), keys.last(), x, t);
    }
}

proof fn lemma_add_keyword_registered(
    k: Seq<(Seq<char>, Seq<SkillView>)>,
    key: Seq<char>,
    x: SkillView,
    t: Seq<SkillView>,
)
    requires
        forall|i: int, j: int|
            0 <= i < k.len() && 0 <= j < k[i].1.len() ==> registered(t, (#[trigger] k[i].1[j]).name),
        registered(t, x.name),
    ensures
        forall|i: int, j: int|
            0 <= i < add_keyword(k, key, x).len() && 0 <= j < add_keyword(k, key, x)[i].1.len()
                ==> registered(t, (#[trigger] add_keyword(k, key, x)[i].1[j]).name),
{
    let d = add_keyword(k, key, x);
    lemma_find_key(k, key);
    assert forall|i: int, j: int| 0 <= i < d.len() && 0 <= j < d[i].1.len() implies registered(
        t,
        (#[trigger] d[i].1[j]).name,
    ) by {
        match find_key(k, key) {
            Some(m) => {
                if i == m {
                    if j < k[m].1.len() {
                        assert(d[i].1[j] == k[m].1[j]);
                    } else {
                        assert(d[i].1[j] == x);
                    }
                } else {
                    assert(d[i] == k[i]);
                }
            },
            None => {
                if i < k.len() {
                    assert(d[i] == k[i]);
                } else {
                    assert(d[i].1[j] == x);
                }
            },
        }
    }
}

proof fn lemma_add_keywords_registered(
    k: Seq<(Seq<char>, Seq<SkillView>)>,
    kws: Seq<Seq<char>>,
    x: SkillView,
    t: Seq<SkillView>,
)
    requires
        forall|i: int, j: int|
            0 <= i < k.len() && 0 <= j < k[i].1.len() ==> registered(t, (#[trigger] k[i].1[j]).name),
        registered(t, x.name),
    ensures
        forall|i: int, j: int|
            0 <= i < add_keywords(k, kws, x).len() && 0 <= j < add_keywords(k, kws, x)[i].1.len()
                ==> registered(t, (#[trigger] add_keywords(k, kws, x)[i].1[j]).name),
    decreases kws.len(),
{
    if kws.len() > 0 {
        lemma_add_keywords_registered(k, kws.drop_last(), x, t);
        lemma_add_keyword_registered(add_keywords(k, kws.drop_last(), x), lowercase(kws.last()), x, t);
    }
}

proof fn lemma_index_triggers_registered(ix: IndexView, ts: Seq<TriggerView>, x: SkillView, t: Seq<SkillView>)
    requires
        index_registered(ix, t),
        registered(t, x.name),
    ensures
        index_registered(index_triggers(ix, ts, x), t),
    decreases ts.len(),
{
    if ts.len() > 0 {
        lemma_index_triggers_registered(ix, ts.drop_last(), x, t);
        let a = index_triggers(ix, ts.drop_last(), x);
        let b = index_triggers(ix, ts, x);
        assert(b == index_trigger(a, ts.last(), x));
        match ts.last() {
            TriggerView::Pattern { pattern, case_insensitive } => {
                assert forall|i: int| 0 <= i < b.patterns.len() implies registered(
                    t,
                    (#[trigger] b.patterns[i]).1.name,
                ) by {
                    if i < a.patterns.len() {
                        assert(b.patterns[i] == a.patterns[i]);
                    } else {
                        assert(b.patterns[i].1 == x);
                    }
                }
            },
            TriggerView::Command { command, alias } => {
                lemma_put_command_registered(a.commands, command, x, t);
                lemma_put_commands_registered(put_command(a.commands, command, x), alias, x, t);
            },
            TriggerView::Keywords { keywords } => {
                lemma_add_keywords_registered(a.keywords, keywords, x, t);
            },
            _ => {},
        }
    }
}


/// After registering a skill, the command and every alias of each of its
/// slash-command triggers name it in the command index. So an input whose
/// trimmed text is one of them and starts with `/` gets a command candidate
/// for the skill with score 100 (200 half points), reporting that text from
/// byte 0 to the input's end; and when the skill is enabled, the matches
/// for that input include one for it.
pub proof fn law_register_commands(
    r: RegistryView,
    x: SkillView,
    j: int,
    key: Seq<char>,
    input: Seq<char>,
)
    requires
        0 <= j < x.metadata.triggers.len(),
        x.metadata.triggers[j] matches TriggerView::Command { command, alias } && (key == command
            || alias.contains(key)),
    ensures
        lookup_command(spec_register(r, x).commands, key) == Some(x),
        trimmed(input) == key && starts_with(key, seq!['/']) ==> command_cands(
            spec_register(r, x),
            input,
        ) == seq![
            CandView {
                skill: x,
                m: MatchView {
                    text: key,
                    start: 0,
                    end: byte_len(input) as usize,
                    captures: seq![key],
                    kind: TriggerKind::Command,
                },
                score: 200,
            },
        ],
        trimmed(input) == key && starts_with(key, seq!['/']) && x.enabled ==> has_skill_named(
            spec_find_matches(spec_register(r, x), input),
            x.name,
        ),
{
    let ix0 = IndexView { patterns: r.patterns, commands: r.commands, keywords: r.keywords };
    lemma_index_triggers_commands(ix0, x.metadata.triggers, x, key, j);
    let r2 = spec_register(r, x);
    if trimmed(input) == key && starts_with(key, seq!['/']) && x.enabled {
        broadcast use vstd::seq_lib::group_filter_ensures;

        lemma_put_skill_lookup(r.skills, x);
        let all = candidates(r2, input);
        let c = all[0];
        assert(c == command_cands(r2, input)[0]);
        assert((is_live(r2))(c));
        assert(live_candidates(r2, input).contains(c));
        let i = choose|i: int| 0 <= i < live_candidates(r2, input).len() && live_candidates(r2, input)[i] == c;
        law_find_matches(r2, input);
        assert(has_skill_named(spec_find_matches(r2, input), live_candidates(r2, input)[i].skill.name));
    }
}

/// Putting `x` in a list of skills makes it the skill of its name.
proof fn lemma_put_skill_lookup(s: Seq<SkillView>, x: SkillView)
    ensures
        lookup_skill(put_skill(s, x), x.name) == Some(x),
{
    let t = put_skill(s, x);
    lemma_find_name(s, x.name);
    match find_name(s, x.name) {
        Some(m) => {
            assert forall|k: int| 0 <= k < m implies (#[trigger] t[k]).name != x.name by {
                assert(t[k] == s[k]);
            }
            lemma_find_name_first(t, x.name, m);
        },
        None => {
            assert forall|k: int| 0 <= k < s.len() implies (#[trigger] t[k]).name != x.name by {
                assert(t[k] == s[k]);
            }
            lemma_find_name_first(t, x.name, s.len() as int);
        },
    }
}

/// Looking up a command after `put_command(s, k, x)`.
proof fn lemma_put_command_lookup(
    s: Seq<(Seq<char>, SkillView)>,
    k: Seq<char>,
    x: SkillView,
    q: Seq<char>,
)
    ensures
        lookup_command(put_command(s, k, x), q) == if q == k {
            Some(x)
        } else {
            lookup_command(s, q)
        },
{
    let t = put_command(s, k, x);
    lemma_find_key(s, k);
    lemma_find_key(s, q);
    match find_key(s, k) {
        Some(i) => {
            assert forall|m: int| 0 <= m < t.len() && m != i implies #[trigger] t[m] == s[m] by {}
            if q == k {
                assert forall|m: int| 0 <= m < i implies (#[trigger] t[m]).0 != q by {
                    assert(t[m] == s[m]);
                }
                lemma_find_key_first(t, q, i);
            } else {
                match find_key(s, q) {
                    Some(m) => {
                        assert(m != i);
                        assert forall|m2: int| 0 <= m2 < m implies (#[trigger] t[m2]).0 != q by {
                            if m2 != i {
                                assert(t[m2] == s[m2]);
                            }
                        }
                        assert(t[m] == s[m]);
                        lemma_find_key_first(t, q, m);
                    },
                    None => {
                        assert forall|m2: int| 0 <= m2 < t.len() implies (#[trigger] t[m2]).0 != q by {
                            if m2 != i {
                                assert(t[m2] == s[m2]);
                            }
                        }
                        lemma_find_key_none(t, q);
                    },
                }
            }
        },
        None => {
            if q == k {
                assert forall|m: int| 0 <= m < s.len() implies (#[trigger] t[m]).0 != q by {
                    assert(t[m] == s[m]);
                }
                lemma_find_key_first(t, q, s.len() as int);
            } else {
                match find_key(s, q) {
                    Some(m) => {
                        assert forall|m2: int| 0 <= m2 < m implies (#[trigger] t[m2]).0 != q by {
                            assert(t[m2] == s[m2]);
                        }
                        assert(t[m] == s[m]);
                        lemma_find_key_first(t, q, m);
                    },
                    None => {
                        assert forall|m2: int| 0 <= m2 < t.len() implies (#[trigger] t[m2]).0 != q by {
                            if m2 < s.len() {
                                assert(t[m2] == s[m2]);
                            }
                        }
                        lemma_find_key_none(t, q);
                    },
                }
            }
        },
    }
}

/// Looking up a command after `put_commands(s, keys, x)`.
proof fn lemma_put_commands_lookup(
    s: Seq<(Seq<char>, SkillView)>,
    keys: Seq<Seq<char>>,
    x: SkillView,
    q: Seq<char>,
)
    ensures
        lookup_command(put_commands(s, keys, x), q) == if keys.contains(q) {
            Some(x)
        } else {
            lookup_command(s, q)
        },
    decreases keys.len(),
{
    if keys.len() > 0 {
        lemma_put_commands_lookup(s, keys.drop_last(), x, q);
        lemma_put_command_lookup(put_commands(s, keys.drop_last(), x), keys.last(), x, q);
        assert(keys.contains(q) <==> (keys.drop_last().contains(q) || keys.last() == q)) by {
            if keys.contains(q) {
                let m = choose|m: int| 0 <= m < keys.len() && keys[m] == q;
                if m < keys.len() - 1 {
                    assert(keys.drop_last()[m] == q);
                }
            }
            if keys.drop_last().contains(q) {
                let m = choose|m: int| 0 <= m < keys.drop_last().len() && keys.drop_last()[m] == q;
                assert(keys[m] == q);
            }
            if keys.last() == q {
                assert(keys[keys.len() - 1] == q);
            }
        }
    }
}

/// Indexing the triggers of `x` maps every command and alias of its
/// slash-command triggers to `x`.
proof fn lemma_index_triggers_commands(
    ix: IndexView,
    ts: Seq<TriggerView>,
    x: SkillView,
    key: Seq<char>,
    j: int,
)
    requires
        0 <= j < ts.len(),
        ts[j] matches TriggerView::Command { command, alias } && (key == command || alias.contains(
            key,
        )),
    ensures
        lookup_command(index_triggers(ix, ts, x).commands, key) == Some(x),
    decreases ts.len(),
{
    let a = index_triggers(ix, ts.drop_last(), x);
    let b = index_triggers(ix, ts, x);
    assert(b == index_trigger(a, ts.last(), x));
    if j < ts.len() - 1 {
        assert(ts.drop_last()[j] == ts[j]);
        lemma_index_triggers_commands(ix, ts.drop_last(), x, key, j);
        match ts.last() {
            TriggerView::Command { command, alias } => {
                lemma_put_command_lookup(a.commands, command, x, key);
                lemma_put_commands_lookup(put_command(a.commands, command, x), alias, x, key);
            },
            _ => {},
        }
    } else {
        match ts.last() {
            TriggerView::Command { command, alias } => {
                lemma_put_command_lookup(a.commands, command, x, key);
                lemma_put_commands_lookup(put_command(a.commands, command, x), alias, x, key);
            },
            _ => {},
        }
    }
}

} // verus!
