//! Skill activation: the context a matched skill injects into a
//! conversation.
use std::sync::Arc;

use vstd::prelude::*;

use crate::message::{block_texts, ContentBlock, Message, Role};
use crate::order::views;
use crate::registry::{
    find_key, keyword_offsets_fit, share, spec_find_matches, CandView, SkillMatch, SkillRegistry,
};
use crate::skill::{
    clone_strings, keys_distinct, pairs_view, spec_render, Skill, SkillContext, SkillView,
};
use crate::text::{
    owned, sorted_unique, starts_with, starts_with_str, str_eq, strictly_sorted,
};

verus! {

/// Result of activating a skill.
#[derive(Debug)]
pub struct ActivationResult {
    /// The system prompt to prepend.
    pub system_prompt: String,
    /// User message containing the skill prompt.
    pub skill_message: Message,
    /// Context files that were loaded, by path.
    pub loaded_files: Vec<(String, String)>,
    /// Tools that should be available for this skill.
    pub available_tools: Vec<String>,
    /// Tools that should be blocked for this skill.
    pub blocked_tools: Vec<String>,
}

pub struct ActivationView {
    pub system: Seq<char>,
    pub role: Role,
    pub texts: Seq<Seq<char>>,
    pub files: Seq<(Seq<char>, Seq<char>)>,
    pub available: Seq<Seq<char>>,
    pub blocked: Seq<Seq<char>>,
}

impl View for ActivationResult {
    type V = ActivationView;

    open spec fn view(&self) -> ActivationView {
        ActivationView {
            system: self.system_prompt@,
            role: self.skill_message.role,
            texts: block_texts(self.skill_message.content@),
            files: pairs_view(self.loaded_files@),
            available: self.available_tools.deep_view(),
            blocked: self.blocked_tools.deep_view(),
        }
    }
}

/// Activates skills and prepares their context.
pub struct SkillActivator {
    /// Skill registry for lookup.
    registry: Arc<SkillRegistry>,
    /// Working directory for resolving context files.
    cwd: String,
}

// ---------------------------------------------------------------------------
// Specifications
// ---------------------------------------------------------------------------

/// The system prompt of an activated skill.
pub open spec fn system_prompt_for(x: SkillView) -> Seq<char> {
    "You are operating with the '"@ + x.name + "' skill enabled.\n"@ + x.description + "\n\n"@
}

/// `rel` resolved against `base` (`Path::join` on Unix): an absolute `rel`
/// stands alone; otherwise a separator is put between them where `base`
/// is not empty and does not end in one.
pub open spec fn join_path(base: Seq<char>, rel: Seq<char>) -> Seq<char> {
    if starts_with(rel, seq!['/']) {
        rel
    } else if base.len() > 0 && base.last() != '/' {
        base + seq!['/'] + rel
    } else {
        base + rel
    }
}

/// `files` with `path` mapped to `content` (replacing an earlier entry).
pub open spec fn put_file(files: Seq<(Seq<char>, Seq<char>)>, path: Seq<char>, content: Seq<char>) -> Seq<(Seq<char>, Seq<char>)> {
    match find_key(files, path) {
        Some(i) => files.update(i, (path, content)),
        None => files.push((path, content)),
    }
}

/// `files` with each of `more`, in order, put in.
pub open spec fn put_files(files: Seq<(Seq<char>, Seq<char>)>, more: Seq<(Seq<char>, Seq<char>)>) -> Seq<(Seq<char>, Seq<char>)>
    decreases more.len(),
{
    if more.len() == 0 {
        files
    } else {
        let last = more.last();
        put_file(put_files(files, more.drop_last()), last.0, last.1)
    }
}

/// The texts joined by line feeds.
pub open spec fn join_lines(texts: Seq<Seq<char>>) -> Seq<char>
    decreases texts.len(),
{
    if texts.len() == 0 {
        Seq::empty()
    } else if texts.len() == 1 {
        texts[0]
    } else {
        join_lines(texts.drop_last()) + seq!['\n'] + texts.last()
    }
}

/// The combined system prompt of several activations.
pub open spec fn batch_system(rs: Seq<ActivationView>) -> Seq<char>
    decreases rs.len(),
{
    if rs.len() == 0 {
        Seq::empty()
    } else {
        batch_system(rs.drop_last()) + rs.last().system + seq!['\n']
    }
}

/// The combined skill prompt of several activations.
pub open spec fn batch_prompt(rs: Seq<ActivationView>) -> Seq<char>
    decreases rs.len(),
{
    if rs.len() == 0 {
        Seq::empty()
    } else {
        batch_prompt(rs.drop_last()) + seq!['-', '-', '-', '\n'] + join_lines(rs.last().texts)
            + seq!['\n', '\n']
    }
}

/// The loaded files of several activations (later ones win).
pub open spec fn batch_files(rs: Seq<ActivationView>) -> Seq<(Seq<char>, Seq<char>)>
    decreases rs.len(),
{
    if rs.len() == 0 {
        Seq::empty()
    } else {
        put_files(batch_files(rs.drop_last()), rs.last().files)
    }
}

/// The available tools of several activations, all together.
pub open spec fn batch_available(rs: Seq<ActivationView>) -> Seq<Seq<char>>
    decreases rs.len(),
{
    if rs.len() == 0 {
        Seq::empty()
    } else {
        batch_available(rs.drop_last()) + rs.last().available
    }
}

/// The blocked tools of several activations, all together.
pub open spec fn batch_blocked(rs: Seq<ActivationView>) -> Seq<Seq<char>>
    decreases rs.len(),
{
    if rs.len() == 0 {
        Seq::empty()
    } else {
        batch_blocked(rs.drop_last()) + rs.last().blocked
    }
}

/// The first match whose score is at least 50 (100 half points).
pub open spec fn first_confident(ms: Seq<CandView>, i: int) -> Option<CandView>
    decreases ms.len() - i,
{
    if i < 0 || i >= ms.len() {
        None
    } else if ms[i].score >= 100 {
        Some(ms[i])
    } else {
        first_confident(ms, i + 1)
    }
}

// ---------------------------------------------------------------------------
// Executable functions
// ---------------------------------------------------------------------------

/// `files` with `path` mapped to `content`, replacing an earlier entry for
/// the same path.
pub fn put_file_exec(files: &mut Vec<(String, String)>, path: String, content: String)
    ensures
        pairs_view(final(files)@) == put_file(pairs_view(old(files)@), path@, content@),
{
    let ghost before = pairs_view(files@);
    let ghost pv = path@;
    let ghost cv = content@;
    let n = files.len();
    let mut i: usize = 0;
    while i < n
        invariant
            n == files@.len(),
            before == pairs_view(files@),
            pv == path@,
            cv == content@,
            before == pairs_view(old(files)@),
            i <= n,
            forall|k: int| 0 <= k < i ==> (#[trigger] before[k]).0 != path@,
        decreases n - i,
    {
        assert(before[i as int].0 == files@[i as int].0@);
        if str_eq(files[i].0.as_str(), path.as_str()) {
            proof {
                crate::registry::lemma_find_key_first(before, path@, i as int);
            }
            assert(find_key(before, pv) == Some(i as int));
            files.set(i, (path, content));
            assert(pairs_view(files@) =~= before.update(i as int, (pv, cv)));
            return;
        }
        i = i + 1;
    }
    proof {
        crate::registry::lemma_find_key_none(before, path@);
    }
    files.push((path, content));
    assert(pairs_view(files@) =~= before.push((pv, cv)));
}

/// The texts joined by line feeds.
fn join_texts(content: &Vec<ContentBlock>) -> (r: String)
    ensures
        r@ == join_lines(block_texts(content@)),
{
    let ghost ts = block_texts(content@);
    let mut out = String::new();
    let nl = "\n";
    proof {
        reveal_strlit("\n");
    }
    for i in 0..content.len()
        invariant
            ts == block_texts(content@),
            nl@ == seq!['\n'],
            out@ == join_lines(ts.take(i as int)),
    {
        let ghost before = out@;
        if i > 0 {
            out.append(nl);
        }
        match &content[i] {
            ContentBlock::Text { text } => {
                assert(ts[i as int] == text@);
                out.append(text.as_str());
            },
        }
        assert(ts.take(i + 1).drop_last() =~= ts.take(i as int));
        if i == 0 {
            assert(out@ =~= join_lines(ts.take(1)));
        } else {
            assert(out@ =~= before + seq!['\n'] + ts[i as int]);
        }
    }
    assert(ts.take(content@.len() as int) =~= ts);
    out
}

/// The elements of `items` that are not in `removed`, in order.
fn without(items: Vec<String>, removed: &Vec<String>) -> (r: Vec<String>)
    ensures
        r.deep_view() == items.deep_view().filter(|t: Seq<char>| !removed.deep_view().contains(t)),
{
    let ghost iv = items.deep_view();
    let ghost rv = removed.deep_view();
    let ghost keep = |t: Seq<char>| !rv.contains(t);
    let mut r: Vec<String> = Vec::new();
    for i in 0..items.len()
        invariant
            iv == items.deep_view(),
            rv == removed.deep_view(),
            keep == (|t: Seq<char>| !rv.contains(t)),
            r.deep_view() == iv.take(i as int).filter(keep),
    {
        assert(iv[i as int] == items@[i as int]@);
        assert(iv.take(i + 1).drop_last() =~= iv.take(i as int));
        reveal_with_fuel(Seq::<_>::filter, 1);
        let ghost before = r.deep_view();
        if !crate::skill::list_contains(removed, items[i].as_str()) {
            let c = items[i].clone();
            r.push(c);
            assert(r.deep_view() =~= before.push(iv[i as int]));
        }
    }
    assert(iv.take(items@.len() as int) =~= iv);
    r
}

impl SkillActivator {
    /// An activator over `registry`, resolving context files against `cwd`.
    pub fn new(registry: Arc<SkillRegistry>, cwd: String) -> (r: SkillActivator)
        ensures
            r.spec_cwd() == cwd@,
            r.spec_registry() == registry@,
    {
        SkillActivator { registry, cwd }
    }

    /// The working directory.
    pub closed spec fn spec_cwd(&self) -> Seq<char> {
        self.cwd@
    }

    /// The registry.
    pub closed spec fn spec_registry(&self) -> crate::registry::RegistryView {
        self.registry@
    }

    /// The working directory.
    pub fn cwd(&self) -> (r: &str)
        ensures
            r@ == self.spec_cwd(),
    {
        self.cwd.as_str()
    }

    /// The paths of the context files of `skill`: an absolute entry as it
    /// is, a relative one under the working directory.
    pub fn context_file_paths(&self, skill: &Skill) -> (r: Vec<String>)
        ensures
            r@.len() == skill@.metadata.context_files.len(),
            forall|i: int|
                0 <= i < r@.len() ==> (#[trigger] r@[i])@ == join_path(
                    self.spec_cwd(),
                    skill@.metadata.context_files[i],
                ),
    {
        let mut r: Vec<String> = Vec::new();
        let slash = "/";
        proof {
            reveal_strlit("/");
        }
        assert(slash@ =~= seq!['/']);
        let files = &skill.metadata.context_files;
        for i in 0..files.len()
            invariant
                slash@ == seq!['/'],
                files == &skill.metadata.context_files,
                r@.len() == i,
                forall|k: int|
                    0 <= k < i ==> (#[trigger] r@[k])@ == join_path(
                        self.spec_cwd(),
                        skill@.metadata.context_files[k],
                    ),
        {
            let spec = files[i].as_str();
            assert(skill@.metadata.context_files[i as int] == spec@);
            let path = if starts_with_str(spec, slash) {
                owned(spec)
            } else {
                let mut p = self.cwd.clone();
                let cv = crate::text::chars_of(self.cwd.as_str());
                if cv.len() > 0 && cv[cv.len() - 1] != '/' {
                    p.append(slash);
                }
                p.append(spec);
                p
            };
            r.push(path);
        }
        r
    }

    /// The activation of a matched skill, given the contents of its context
    /// files: its system prompt, its prompt rendered against the match
    /// (`{{trigger_input}}` is the matched text), and its allowed and denied
    /// tools. `session_id` identifies the session the skill runs in.
    pub fn activate(
        &self,
        match_: SkillMatch,
        loaded_files: Vec<(String, String)>,
        session_id: String,
    ) -> (r: ActivationResult)
        ensures
            r@.system == system_prompt_for(match_@.skill),
            r@.role == Role::User,
            r@.texts == seq![
                spec_render(
                    match_@.skill.prompt,
                    Seq::empty(),
                    match_@.m.text,
                    self.spec_cwd(),
                    pairs_view(loaded_files@),
                ),
            ],
            r@.files == pairs_view(loaded_files@),
            r@.available == match_@.skill.metadata.tools,
            r@.blocked == match_@.skill.metadata.denied_tools,
    {
        let skill = &match_.skill;
        let available_tools: Vec<String> = if skill.metadata.tools.len() == 0 {
            let v: Vec<String> = Vec::new();
            assert(v.deep_view() =~= skill@.metadata.tools);
            v
        } else {
            clone_strings(&skill.metadata.tools)
        };
        let blocked_tools = clone_strings(&skill.metadata.denied_tools);
        let mut contents: Vec<(String, String)> = Vec::new();
        for i in 0..loaded_files.len()
            invariant
                pairs_view(contents@) == pairs_view(loaded_files@).take(i as int),
        {
            let ghost before = pairs_view(contents@);
            let e = (loaded_files[i].0.clone(), loaded_files[i].1.clone());
            contents.push(e);
            assert(pairs_view(contents@) =~= before.push(pairs_view(loaded_files@)[i as int]));
            assert(pairs_view(contents@) =~= pairs_view(loaded_files@).take(i + 1));
        }
        assert(pairs_view(loaded_files@).take(loaded_files@.len() as int) =~= pairs_view(
            loaded_files@,
        ));
        let ctx = SkillContext {
            session_id,
            cwd: self.cwd.clone(),
            trigger_input: match_.trigger_match.matched_text.clone(),
            trigger_match: match_.trigger_match.copy(),
            context_contents: contents,
            variables: Vec::new(),
        };
        assert(pairs_view(ctx.variables@) =~= Seq::empty());
        let rendered = skill.render_prompt(&ctx);
        let skill_message = Message {
            role: Role::User,
            content: vec![ContentBlock::Text { text: rendered }],
        };
        assert(block_texts(skill_message.content@) =~= seq![rendered@]);
        let mut system_prompt = String::new();
        system_prompt.append("You are operating with the '");
        system_prompt.append(skill.name.as_str());
        system_prompt.append("' skill enabled.\n");
        system_prompt.append(skill.description.as_str());
        system_prompt.append("\n\n");
        ActivationResult {
            system_prompt,
            skill_message,
            loaded_files,
            available_tools,
            blocked_tools,
        }
    }

    /// The activation of several skills together: their system prompts, each
    /// followed by a line feed; their messages, each as `---` then its text
    /// and a blank line; their context files (a later file of the same path
    /// wins); their allowed tools and their denied tools, each sorted without
    /// repetition, with denied tools taken out of the allowed ones. No
    /// activations give an empty one with an empty user message.
    pub fn activate_batch(&self, activations: Vec<ActivationResult>) -> (r: ActivationResult)
        ensures
            activations@.len() == 0 ==> {
                &&& r@.system.len() == 0
                &&& r@.role == Role::User
                &&& r@.texts == seq![Seq::<char>::empty()]
                &&& r@.files.len() == 0
                &&& r@.available.len() == 0
                &&& r@.blocked.len() == 0
            },
            activations@.len() > 0 ==> {
                let rs = views(activations@);
                &&& r@.system == batch_system(rs)
                &&& r@.role == Role::User
                &&& r@.texts == seq![batch_prompt(rs)]
                &&& r@.files == batch_files(rs)
                &&& strictly_sorted(r@.blocked)
                &&& r@.blocked.to_set() == batch_blocked(rs).to_set()
                &&& strictly_sorted(r@.available)
                &&& r@.available.to_set() == batch_available(rs).to_set().difference(
                    batch_blocked(rs).to_set(),
                )
            },
    {
        if activations.len() == 0 {
            let r = ActivationResult {
                system_prompt: String::new(),
                skill_message: Message {
                    role: Role::User,
                    content: vec![ContentBlock::Text { text: String::new() }],
                },
                loaded_files: Vec::new(),
                available_tools: Vec::new(),
                blocked_tools: Vec::new(),
            };
            assert(r@.texts =~= seq![Seq::<char>::empty()]);
            return r;
        }
        let ghost rs = views(activations@);
        let mut combined_system = String::new();
        let mut combined_prompt = String::new();
        let mut all_files: Vec<(String, String)> = Vec::new();
        let mut all_available: Vec<String> = Vec::new();
        let mut all_blocked: Vec<String> = Vec::new();
        let nl = "\n";
        let rule = "---\n";
        let blank = "\n\n";
        proof {
            reveal_strlit("\n");
            reveal_strlit("---\n");
            reveal_strlit("\n\n");
        }
        for i in 0..activations.len()
            invariant
                rs == views(activations@),
                nl@ == seq!['\n'],
                rule@ == seq!['-', '-', '-', '\n'],
                blank@ == seq!['\n', '\n'],
                combined_system@ == batch_system(rs.take(i as int)),
                combined_prompt@ == batch_prompt(rs.take(i as int)),
                pairs_view(all_files@) == batch_files(rs.take(i as int)),
                all_available.deep_view() == batch_available(rs.take(i as int)),
                all_blocked.deep_view() == batch_blocked(rs.take(i as int)),
        {
            let a = &activations[i];
            assert(rs[i as int] == a@);
            assert(rs.take(i + 1).drop_last() =~= rs.take(i as int));
            combined_system.append(a.system_prompt.as_str());
            combined_system.append(nl);
            combined_prompt.append(rule);
            let text = join_texts(&a.skill_message.content);
            combined_prompt.append(text.as_str());
            combined_prompt.append(blank);
            // files
            let ghost files_before = pairs_view(all_files@);
            let fv = &a.loaded_files;
            for k in 0..fv.len()
                invariant
                    fv == &a.loaded_files,
                    pairs_view(all_files@) == put_files(files_before, pairs_view(fv@).take(k as int)),
            {
                put_file_exec(&mut all_files, fv[k].0.clone(), fv[k].1.clone());
                assert(pairs_view(fv@).take(k + 1).drop_last() =~= pairs_view(fv@).take(k as int));
            }
            assert(pairs_view(fv@).take(fv@.len() as int) =~= pairs_view(fv@));
            // tools
            let ghost av_before = all_available.deep_view();
            for k in 0..a.available_tools.len()
                invariant
                    all_available.deep_view() == av_before + a.available_tools.deep_view().take(k as int),
            {
                let ghost mid = all_available.deep_view();
                let t = a.available_tools[k].clone();
                all_available.push(t);
                assert(all_available.deep_view() =~= mid.push(a.available_tools.deep_view()[k as int]));
                assert(all_available.deep_view() =~= av_before + a.available_tools.deep_view().take(k + 1));
            }
            assert(a.available_tools.deep_view().take(a.available_tools@.len() as int) =~= a.available_tools.deep_view());
            let ghost bl_before = all_blocked.deep_view();
            for k in 0..a.blocked_tools.len()
                invariant
                    all_blocked.deep_view() == bl_before + a.blocked_tools.deep_view().take(k as int),
            {
                let ghost mid = all_blocked.deep_view();
                let t = a.blocked_tools[k].clone();
                all_blocked.push(t);
                assert(all_blocked.deep_view() =~= mid.push(a.blocked_tools.deep_view()[k as int]));
                assert(all_blocked.deep_view() =~= bl_before + a.blocked_tools.deep_view().take(k + 1));
            }
            assert(a.blocked_tools.deep_view().take(a.blocked_tools@.len() as int) =~= a.blocked_tools.deep_view());
        }
        assert(rs.take(activations@.len() as int) =~= rs);
        let blocked = sorted_unique(&all_blocked);
        let available_all = sorted_unique(&all_available);
        let available = without(available_all, &blocked);
        proof {
            let av = available_all.deep_view();
            let bv = blocked.deep_view();
            let f = av.filter(|t: Seq<char>| !bv.contains(t));
            broadcast use vstd::seq_lib::group_filter_ensures;
            assert forall|i: int, j: int| 0 <= i < j < f.len() implies crate::text::lex_lt(
                #[trigger] f[i],
                #[trigger] f[j],
            ) by {
                lemma_filter_sorted(av, |t: Seq<char>| !bv.contains(t), i, j);
            }
            assert(f.to_set() =~= batch_available(rs).to_set().difference(batch_blocked(rs).to_set())) by {
                assert forall|t| f.to_set().contains(t) implies batch_available(rs).to_set().difference(batch_blocked(rs).to_set()).contains(t) by {
                    assert(f.contains(t));
                    av.lemma_filter_contains_rev(|t: Seq<char>| !bv.contains(t), t);
                    assert(av.contains(t));
                    assert(av.to_set().contains(t));
                    assert(!bv.contains(t));
                    if bv.to_set().contains(t) {
                        assert(bv.contains(t));
                    }
                }
                assert forall|t| batch_available(rs).to_set().difference(batch_blocked(rs).to_set()).contains(t) implies f.to_set().contains(t) by {
                    assert(av.to_set().contains(t));
                    assert(av.contains(t));
                    let k = choose|k: int| 0 <= k < av.len() && av[k] == t;
                    if bv.contains(t) {
                        assert(bv.to_set().contains(t));
                    }
                    assert(f.contains(t));
                }
            }
        }
        let skill_message = Message {
            role: Role::User,
            content: vec![ContentBlock::Text { text: combined_prompt }],
        };
        assert(block_texts(skill_message.content@) =~= seq![batch_prompt(rs)]);
        ActivationResult {
            system_prompt: combined_system,
            skill_message,
            loaded_files: all_files,
            available_tools: available,
            blocked_tools: blocked,
        }
    }

    /// The skills that match `input`, best first (see `find_matches`).
    pub fn prefetch(&self, input: &str) -> (r: Vec<SkillMatch>)
        requires
            keyword_offsets_fit(self.spec_registry(), input@),
        ensures
            views(r@) == spec_find_matches(self.spec_registry(), input@),
    {
        self.registry.find_matches(input)
    }

    /// Whether the byte positions of keyword triggers in `input` fit in
    /// `usize`, as `prefetch` and `should_auto_activate` need.
    pub fn offsets_fit_for(&self, input: &str) -> (r: bool)
        ensures
            r == keyword_offsets_fit(self.spec_registry(), input@),
    {
        self.registry.keyword_offsets_fit_for(input)
    }

    /// What `should_auto_activate` gives for `input`, where the byte
    /// positions of keyword triggers in it fit in `usize`; `None` where they
    /// do not.
    pub fn try_auto_activate(&self, input: &str) -> (r: Option<Option<SkillMatch>>)
        ensures
            r is None <==> !keyword_offsets_fit(self.spec_registry(), input@),
            r matches Some(None) ==> first_confident(
                spec_find_matches(self.spec_registry(), input@),
                0,
            ) is None,
            r matches Some(Some(m)) ==> first_confident(
                spec_find_matches(self.spec_registry(), input@),
                0,
            ) == Some(m@),
    {
        if self.offsets_fit_for(input) {
            Some(self.should_auto_activate(input))
        } else {
            None
        }
    }

    /// The best match with a score of at least 50, if any: only such
    /// confident matches activate a skill by themselves.
    pub fn should_auto_activate(&self, input: &str) -> (r: Option<SkillMatch>)
        requires
            keyword_offsets_fit(self.spec_registry(), input@),
        ensures
            r is None <==> first_confident(spec_find_matches(self.spec_registry(), input@), 0) is None,
            r matches Some(m) ==> first_confident(spec_find_matches(self.spec_registry(), input@), 0)
                == Some(m@),
    {
        let mut matches = self.registry.find_matches(input);
        let ghost ms = views(matches@);
        let n = matches.len();
        let mut i: usize = 0;
        while i < n
            invariant
                n == matches@.len(),
                ms == views(matches@),
                ms == spec_find_matches(self.spec_registry(), input@),
                i <= n,
                first_confident(ms, 0) == first_confident(ms, i as int),
            decreases n - i,
        {
            assert(ms[i as int] == matches@[i as int]@);
            if matches[i].score_halves >= 100 {
                return Some(matches.remove(i));
            }
            i = i + 1;
        }
        None
    }
}

/// Filtering keeps the relative order of what it keeps.
proof fn lemma_filter_sorted(s: Seq<Seq<char>>, keep: spec_fn(Seq<char>) -> bool, i: int, j: int)
    requires
        strictly_sorted(s),
        0 <= i < j < s.filter(keep).len(),
    ensures
        crate::text::lex_lt(s.filter(keep)[i], s.filter(keep)[j]),
    decreases s.len(),
{
    reveal_with_fuel(Seq::<_>::filter, 1);
    let p = s.drop_last();
    assert(strictly_sorted(p)) by {
        assert forall|a: int, b: int| 0 <= a < b < p.len() implies crate::text::lex_lt(
            #[trigger] p[a],
            #[trigger] p[b],
        ) by {
            assert(p[a] == s[a] && p[b] == s[b]);
        }
    }
    let pf = p.filter(keep);
    if keep(s.last()) {
        assert(s.filter(keep) == pf.push(s.last()));
        if j < pf.len() {
            lemma_filter_sorted(p, keep, i, j);
        } else {
            broadcast use vstd::seq_lib::group_filter_ensures;
            assert(pf.contains(pf[i]));
            p.lemma_filter_contains_rev(keep, pf[i]);
            let k = choose|k: int| 0 <= k < p.len() && p[k] == pf[i];
            assert(s[k] == pf[i]);
            assert(crate::text::lex_lt(s[k], s[s.len() - 1]));
        }
    } else {
        lemma_filter_sorted(p, keep, i, j);
    }
}

/// Applies an activation to a session's system prompt and messages: a
/// non-empty skill system prompt goes before the current one (a line feed
/// between), and a skill message with content joins the conversation.
pub fn apply_skill_activation(
    system_prompt: &mut String,
    messages: &mut Vec<Message>,
    result: ActivationResult,
)
    ensures
        final(system_prompt)@ == if result.system_prompt@.len() > 0 {
            result.system_prompt@ + seq!['\n'] + old(system_prompt)@
        } else {
            old(system_prompt)@
        },
        final(messages)@ == if result.skill_message.content@.len() > 0 {
            old(messages)@.push(result.skill_message)
        } else {
            old(messages)@
        },
{
    if !result.system_prompt.as_str().is_empty() {
        let mut s = result.system_prompt.clone();
        let nl = "\n";
        proof {
            reveal_strlit("\n");
        }
        s.append(nl);
        s.append(system_prompt.as_str());
        *system_prompt = s;
    }
    if result.skill_message.content.len() > 0 {
        messages.push(result.skill_message);
    }
}

// ---------------------------------------------------------------------------
// Laws
// ---------------------------------------------------------------------------

/// A combined activation never offers a tool that it blocks.
pub proof fn law_batch_tools_disjoint(r: ActivationView, rs: Seq<ActivationView>)
    requires
        r.blocked.to_set() == batch_blocked(rs).to_set(),
        r.available.to_set() == batch_available(rs).to_set().difference(batch_blocked(rs).to_set()),
    ensures
        forall|t: Seq<char>| r.available.contains(t) ==> !r.blocked.contains(t),
{
    assert forall|t: Seq<char>| r.available.contains(t) implies !r.blocked.contains(t) by {
        assert(r.available.to_set().contains(t));
        if r.blocked.contains(t) {
            assert(r.blocked.to_set().contains(t));
        }
    }
}


/// Putting files in keeps their paths distinct, so the files of a combined
/// activation never repeat a path.
pub proof fn law_files_keep_paths_distinct(
    files: Seq<(Seq<char>, Seq<char>)>,
    more: Seq<(Seq<char>, Seq<char>)>,
    rs: Seq<ActivationView>,
)
    ensures
        keys_distinct(files) ==> keys_distinct(put_files(files, more)),
        keys_distinct(batch_files(rs)),
    decreases rs.len(),
{
    if keys_distinct(files) {
        lemma_put_files_distinct(files, more);
    }
    if rs.len() > 0 {
        law_files_keep_paths_distinct(files, more, rs.drop_last());
        lemma_put_files_distinct(batch_files(rs.drop_last()), rs.last().files);
    }
}

proof fn lemma_put_files_distinct(files: Seq<(Seq<char>, Seq<char>)>, more: Seq<(Seq<char>, Seq<char>)>)
    requires
        keys_distinct(files),
    ensures
        keys_distinct(put_files(files, more)),
    decreases more.len(),
{
    if more.len() > 0 {
        lemma_put_files_distinct(files, more.drop_last());
        lemma_put_file_distinct(put_files(files, more.drop_last()), more.last().0, more.last().1);
    }
}

proof fn lemma_put_file_distinct(files: Seq<(Seq<char>, Seq<char>)>, path: Seq<char>, content: Seq<char>)
    requires
        keys_distinct(files),
    ensures
        keys_distinct(put_file(files, path, content)),
{
    crate::registry::lemma_find_key(files, path);
    let t = put_file(files, path, content);
    assert forall|i: int, j: int| 0 <= i < j < t.len() implies (#[trigger] t[i]).0 != (
    #[trigger] t[j]).0 by {
        if j < files.len() {
            assert(t[i].0 == files[i].0 && t[j].0 == files[j].0);
        } else {
            assert(t[i] == files[i]);
        }
    }
}

} // verus!
