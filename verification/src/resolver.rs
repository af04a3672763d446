//! Skill resolver: resolves skill references in prompts.
use std::sync::Arc;

use vstd::prelude::*;

use crate::order::views;
use crate::pattern::{compile_pattern, pattern_group_all, regex_compiles, regex_group_all};
use crate::registry::{lookup_skill, share, SkillRegistry};
use crate::skill::{option_view, Skill, SkillView};
use crate::text::{
    chars_of, occurs_at, occurs_at_exec, owned, replace, replace_all, sorted_unique, strictly_sorted,
};

verus! {

/// A resolved skill with all dependencies loaded.
#[derive(Debug)]
pub struct ResolvedSkill {
    /// The skill definition.
    pub skill: Arc<Skill>,
    /// Skills that this skill depends on (imports).
    pub dependencies: Vec<Arc<Skill>>,
    /// All combined prompts from skill and dependencies.
    pub combined_prompt: String,
    /// All combined tools from skill and dependencies.
    pub combined_tools: Vec<String>,
}

/// Resolves skill references and dependencies.
pub struct SkillResolver {
    /// Skill registry for lookup.
    registry: Arc<SkillRegistry>,
    /// Base directory for relative skill imports.
    base_dir: String,
}

/// `--- name ---\nprompt\n\n` for one dependency.
pub open spec fn dependency_section(d: SkillView) -> Seq<char> {
    seq!['-', '-', '-', ' '] + d.name + seq![' ', '-', '-', '-', '\n'] + d.prompt + seq!['\n', '\n']
}

/// The dependency sections, in order.
pub open spec fn dependency_sections(ds: Seq<SkillView>) -> Seq<char>
    decreases ds.len(),
{
    if ds.len() == 0 {
        Seq::empty()
    } else {
        dependency_sections(ds.drop_last()) + dependency_section(ds.last())
    }
}

/// The tools of the skill followed by those of each dependency.
pub open spec fn all_tools(x: SkillView, ds: Seq<SkillView>) -> Seq<Seq<char>>
    decreases ds.len(),
{
    if ds.len() == 0 {
        x.metadata.tools
    } else {
        all_tools(x, ds.drop_last()) + ds.last().metadata.tools
    }
}

/// `@skill:`.
pub open spec fn inline_prefix() -> Seq<char> {
    seq!['@', 's', 'k', 'i', 'l', 'l', ':']
}

/// `{{skill:`.
pub open spec fn template_prefix() -> Seq<char> {
    seq!['{', '{', 's', 'k', 'i', 'l', 'l', ':']
}

/// The texts of the groups that took part, in order.
pub open spec fn somes(gs: Seq<Option<Seq<char>>>) -> Seq<Seq<char>>
    decreases gs.len(),
{
    if gs.len() == 0 {
        Seq::empty()
    } else {
        match gs.last() {
            Some(g) => somes(gs.drop_last()).push(g),
            None => somes(gs.drop_last()),
        }
    }
}

/// The names that the reference regex with source `src` finds in `prompt`.
pub open spec fn names_found(src: Seq<char>, prompt: Seq<char>) -> Seq<Seq<char>> {
    if regex_compiles(src) {
        somes(regex_group_all(src, prompt, 1))
    } else {
        Seq::empty()
    }
}

/// The names referenced in `prompt` with `@skill:name` or `{{skill:name}}`.
pub open spec fn referenced_names(prompt: Seq<char>) -> Set<Seq<char>> {
    (names_found("@skill:([a-zA-Z0-9_-]+)"@, prompt) + names_found(
        "\\{\\{skill:([a-zA-Z0-9_-]+)\\}\\}"@,
        prompt,
    )).to_set()
}

/// A character that can continue a skill name: `[a-zA-Z0-9_-]`.
pub open spec fn is_name_char(c: char) -> bool {
    ('a' <= c && c <= 'z') || ('A' <= c && c <= 'Z') || ('0' <= c && c <= '9') || c == '_' || c
        == '-'
}

/// `from` occurs at `i` in `s` and no name character follows it there, so
/// it is a whole reference and not the start of a longer one.
pub open spec fn reference_at(s: Seq<char>, from: Seq<char>, i: int) -> bool {
    &&& occurs_at(s, from, i)
    &&& (i + from.len() == s.len() || !is_name_char(s[i + from.len()]))
}

/// `s` from `i` on, each whole reference `from` (left to right, not
/// overlapping) replaced by `to`.
pub open spec fn replace_refs_from(s: Seq<char>, from: Seq<char>, to: Seq<char>, i: int) -> Seq<char>
    decreases s.len() - i,
{
    if i < 0 || i >= s.len() || from.len() == 0 {
        if 0 <= i <= s.len() {
            s.subrange(i, s.len() as int)
        } else {
            Seq::empty()
        }
    } else if reference_at(s, from, i) {
        to + replace_refs_from(s, from, to, i + from.len())
    } else {
        seq![s[i]] + replace_refs_from(s, from, to, i + 1)
    }
}

/// `s` with each whole reference `from` replaced by `to`.
pub open spec fn replace_refs(s: Seq<char>, from: Seq<char>, to: Seq<char>) -> Seq<char> {
    replace_refs_from(s, from, to, 0)
}

/// `text` with both reference forms of each of `names` (in order) replaced
/// by the prompt of the skill of that name, where one is registered.
pub open spec fn expand_names(
    text: Seq<char>,
    names: Seq<Seq<char>>,
    skills: Seq<SkillView>,
) -> Seq<char>
    decreases names.len(),
{
    if names.len() == 0 {
        text
    } else {
        let before = expand_names(text, names.drop_last(), skills);
        let name = names.last();
        match lookup_skill(skills, name) {
            Some(x) => replace(
                replace_refs(before, inline_prefix() + name, x.prompt),
                template_prefix() + name + seq!['}', '}'],
                x.prompt,
            ),
            None => before,
        }
    }
}

/// Whether `c` can continue a skill name.
fn name_char(c: char) -> (b: bool)
    ensures
        b == is_name_char(c),
{
    ('a' <= c && c <= 'z') || ('A' <= c && c <= 'Z') || ('0' <= c && c <= '9') || c == '_' || c
        == '-'
}

/// `s` with each whole reference `from` replaced by `to`.
fn replace_refs_exec(s: &str, from: &str, to: &str) -> (r: String)
    requires
        from@.len() > 0,
    ensures
        r@ == replace_refs(s@, from@, to@),
{
    let v = chars_of(s);
    let f = chars_of(from);
    let n = v.len();
    let m = f.len();
    let mut out = String::new();
    let mut last: usize = 0;
    let mut i: usize = 0;
    while i < n
        invariant
            v@ == s@,
            f@ == from@,
            n == s@.len(),
            m == from@.len(),
            m > 0,
            last <= i <= n,
            out@ + s@.subrange(last as int, i as int) + replace_refs_from(s@, from@, to@, i as int)
                == replace_refs(s@, from@, to@),
        decreases n - i,
    {
        let whole = occurs_at_exec(&v, &f, i) && (m == n - i || !name_char(v[i + m]));
        if whole {
            let seg = s.substring_char(last, i);
            out.append(seg);
            out.append(to);
            assert(replace_refs_from(s@, from@, to@, i as int) == to@ + replace_refs_from(
                s@,
                from@,
                to@,
                i + m,
            ));
            assert(s@.subrange((i + m) as int, (i + m) as int) =~= Seq::<char>::empty());
            assert(out@ + s@.subrange((i + m) as int, (i + m) as int) + replace_refs_from(
                s@,
                from@,
                to@,
                (i + m) as int,
            ) =~= out@ + replace_refs_from(s@, from@, to@, (i + m) as int));
            i = i + m;
            last = i;
        } else {
            assert(replace_refs_from(s@, from@, to@, i as int) == seq![s@[i as int]]
                + replace_refs_from(s@, from@, to@, i + 1));
            assert(s@.subrange(last as int, i as int) + seq![s@[i as int]] =~= s@.subrange(
                last as int,
                i + 1,
            ));
            i = i + 1;
        }
    }
    let seg = s.substring_char(last, n);
    out.append(seg);
    assert(replace_refs_from(s@, from@, to@, n as int) =~= Seq::<char>::empty());
    out
}

/// The group texts that took part.
fn present(gs: Vec<Option<String>>) -> (r: Vec<String>)
    ensures
        r.deep_view() == somes(gs@.map_values(|g: Option<String>| option_view(g))),
{
    let ghost gv = gs@.map_values(|g: Option<String>| option_view(g));
    let mut r: Vec<String> = Vec::new();
    for i in 0..gs.len()
        invariant
            gv == gs@.map_values(|g: Option<String>| option_view(g)),
            r.deep_view() == somes(gv.take(i as int)),
    {
        assert(gv.take(i + 1).drop_last() =~= gv.take(i as int));
        match &gs[i] {
            Some(g) => {
                let ghost before = r.deep_view();
                let c = g.clone();
                r.push(c);
                assert(r.deep_view() =~= before.push(g@));
            },
            None => {},
        }
    }
    assert(gv.take(gs@.len() as int) =~= gv);
    r
}

/// The names the reference regex `src` finds in `prompt`.
fn find_names(src: &str, prompt: &str) -> (r: Vec<String>)
    ensures
        r.deep_view() == names_found(src@, prompt@),
{
    match compile_pattern(src) {
        Some(re) => {
            let gs = pattern_group_all(&re, prompt, 1);
            proof {
                assert(gs@.map_values(|g: Option<String>| option_view(g)) =~= regex_group_all(
                    src@,
                    prompt@,
                    1,
                ));
            }
            present(gs)
        },
        None => {
            let r: Vec<String> = Vec::new();
            assert(r.deep_view() =~= Seq::<Seq<char>>::empty());
            r
        },
    }
}

impl SkillResolver {
    /// A resolver over `registry`.
    pub fn new(registry: Arc<SkillRegistry>, base_dir: String) -> (r: SkillResolver)
        ensures
            r.skills() == registry@.skills,
    {
        SkillResolver { registry, base_dir }
    }

    /// The view of the registry this resolver looks skills up in.
    pub closed spec fn skills(&self) -> Seq<SkillView> {
        self.registry@.skills
    }

    /// The skill `skill` with its dependencies `dependencies`: their
    /// prompts (each under a `--- name ---` heading) before its own, and all
    /// their tools, sorted and without repetition.
    fn resolve_with_deps(skill: Arc<Skill>, dependencies: Vec<Arc<Skill>>) -> (r: ResolvedSkill)
        ensures
            r.skill@ == skill@,
            views(r.dependencies@) == views(dependencies@),
            r.combined_prompt@ == dependency_sections(views(dependencies@)) + skill@.prompt,
            strictly_sorted(r.combined_tools.deep_view()),
            r.combined_tools.deep_view().to_set() == all_tools(skill@, views(dependencies@)).to_set(),
    {
        let ghost ds = views(dependencies@);
        let mut combined_prompt = String::new();
        let open_dashes = "--- ";
        let close_dashes = " ---\n";
        let blank = "\n\n";
        proof {
            reveal_strlit("--- ");
            reveal_strlit(" ---\n");
            reveal_strlit("\n\n");
        }
        for i in 0..dependencies.len()
            invariant
                ds == views(dependencies@),
                open_dashes@ == seq!['-', '-', '-', ' '],
                close_dashes@ == seq![' ', '-', '-', '-', '\n'],
                blank@ == seq!['\n', '\n'],
                combined_prompt@ == dependency_sections(ds.take(i as int)),
        {
            let dep = &dependencies[i];
            assert(ds[i as int] == dep@);
            combined_prompt.append(open_dashes);
            combined_prompt.append(dep.name.as_str());
            combined_prompt.append(close_dashes);
            combined_prompt.append(dep.prompt.as_str());
            combined_prompt.append(blank);
            assert(ds.take(i + 1).drop_last() =~= ds.take(i as int));
            assert(combined_prompt@ =~= dependency_sections(ds.take(i + 1)));
        }
        assert(ds.take(dependencies@.len() as int) =~= ds);
        combined_prompt.append(skill.prompt.as_str());
        let mut tools = crate::skill::clone_strings(&skill.metadata.tools);
        for i in 0..dependencies.len()
            invariant
                ds == views(dependencies@),
                tools.deep_view() == all_tools(skill@, ds.take(i as int)),
        {
            let dep = &dependencies[i];
            assert(ds[i as int] == dep@);
            let ghost before = tools.deep_view();
            for k in 0..dep.metadata.tools.len()
                invariant
                    tools.deep_view() == before + dep@.metadata.tools.take(k as int),
            {
                let ghost mid = tools.deep_view();
                let t = dep.metadata.tools[k].clone();
                tools.push(t);
                assert(tools.deep_view() =~= mid.push(dep@.metadata.tools[k as int]));
                assert(tools.deep_view() =~= before + dep@.metadata.tools.take(k + 1));
            }
            assert(dep@.metadata.tools.take(dep.metadata.tools@.len() as int)
                =~= dep@.metadata.tools);
            assert(ds.take(i + 1).drop_last() =~= ds.take(i as int));
        }
        assert(ds.take(dependencies@.len() as int) =~= ds);
        let combined_tools = sorted_unique(&tools);
        ResolvedSkill { skill, dependencies, combined_prompt, combined_tools }
    }

    /// The skill named `name` with its dependencies (skills have no imports,
    /// so there are none): its prompt and its tools, sorted and without
    /// repetition; none when no skill has that name.
    pub fn resolve(&self, name: &str) -> (r: Option<ResolvedSkill>)
        ensures
            r is Some <==> lookup_skill(self.skills(), name@) is Some,
            r matches Some(res) ==> {
                &&& Some(res.skill@) == lookup_skill(self.skills(), name@)
                &&& res.dependencies@.len() == 0
                &&& res.combined_prompt@ == res.skill@.prompt
                &&& strictly_sorted(res.combined_tools.deep_view())
                &&& res.combined_tools.deep_view().to_set() == res.skill@.metadata.tools.to_set()
            },
    {
        match self.registry.get(name) {
            None => None,
            Some(skill) => {
                // Imports would come from the skill's metadata; there are none.
                let dependencies: Vec<Arc<Skill>> = Vec::new();
                assert(views(dependencies@) =~= Seq::<SkillView>::empty());
                let res = SkillResolver::resolve_with_deps(skill, dependencies);
                assert(dependency_sections(Seq::<SkillView>::empty()) + res.skill@.prompt
                    =~= res.skill@.prompt);
                Some(res)
            },
        }
    }

    /// The skill names referenced in `prompt` as `@skill:name` or
    /// `{{skill:name}}`, sorted and without repetition.
    pub fn find_skill_references(&self, prompt: &str) -> (r: Vec<String>)
        ensures
            strictly_sorted(r.deep_view()),
            r.deep_view().to_set() == referenced_names(prompt@),
    {
        let inline = find_names("@skill:([a-zA-Z0-9_-]+)", prompt);
        let template = find_names("\\{\\{skill:([a-zA-Z0-9_-]+)\\}\\}", prompt);
        let mut names = inline;
        let ghost first = names.deep_view();
        for i in 0..template.len()
            invariant
                names.deep_view() == first + template.deep_view().take(i as int),
        {
            let ghost mid = names.deep_view();
            let t = template[i].clone();
            names.push(t);
            assert(names.deep_view() =~= mid.push(template.deep_view()[i as int]));
            assert(names.deep_view() =~= first + template.deep_view().take(i + 1));
        }
        assert(template.deep_view().take(template@.len() as int) =~= template.deep_view());
        sorted_unique(&names)
    }

    /// `prompt` with each reference (`@skill:name`, `{{skill:name}}`) to a
    /// registered skill replaced by that skill's resolved prompt, name by
    /// name in sorted order; `@skill:name` only where the whole name matches,
    /// so references to other names stay as they are.
    pub fn expand_prompt(&self, prompt: &str) -> (r: String)
        ensures
            exists|names: Seq<Seq<char>>|
                strictly_sorted(names) && names.to_set() == referenced_names(prompt@) && r@
                    == expand_names(prompt@, names, self.skills()),
    {
        let mut result = owned(prompt);
        let names = self.find_skill_references(prompt);
        let ghost nv = names.deep_view();
        let at_skill = "@skill:";
        let open_skill = "{{skill:";
        let close = "}}";
        proof {
            reveal_strlit("@skill:");
            reveal_strlit("{{skill:");
            reveal_strlit("}}");
        }
        for i in 0..names.len()
            invariant
                nv == names.deep_view(),
                at_skill@ == inline_prefix(),
                open_skill@ == template_prefix(),
                close@ == seq!['}', '}'],
                result@ == expand_names(prompt@, nv.take(i as int), self.skills()),
        {
            let name = &names[i];
            assert(nv[i as int] == name@);
            assert(nv.take(i + 1).drop_last() =~= nv.take(i as int));
            match self.resolve(name.as_str()) {
                Some(resolved) => {
                    let mut inline_pattern = String::new();
                    inline_pattern.append(at_skill);
                    inline_pattern.append(name.as_str());
                    result = replace_refs_exec(
                        result.as_str(),
                        inline_pattern.as_str(),
                        resolved.combined_prompt.as_str(),
                    );
                    let mut template_pattern = String::new();
                    template_pattern.append(open_skill);
                    template_pattern.append(name.as_str());
                    template_pattern.append(close);
                    result = replace_all(
                        result.as_str(),
                        template_pattern.as_str(),
                        resolved.combined_prompt.as_str(),
                    );
                },
                None => {},
            }
        }
        assert(nv.take(names@.len() as int) =~= nv);
        assert(strictly_sorted(nv) && nv.to_set() == referenced_names(prompt@) && result@
            == expand_names(prompt@, nv, self.skills()));
        result
    }
}

// ---------------------------------------------------------------------------
// Laws
// ---------------------------------------------------------------------------

/// A prompt that references no skill is left as it is by expansion.
pub proof fn law_expand_without_references(prompt: Seq<char>, names: Seq<Seq<char>>, skills: Seq<SkillView>)
    requires
        names.to_set() == referenced_names(prompt),
        referenced_names(prompt) == Set::<Seq<char>>::empty(),
    ensures
        expand_names(prompt, names, skills) == prompt,
{
    if names.len() > 0 {
        assert(names.to_set().contains(names[0]));
    }
}

/// A name that is not registered leaves the text as it is.
pub proof fn law_expand_unknown_names(text: Seq<char>, names: Seq<Seq<char>>, skills: Seq<SkillView>)
    requires
        forall|i: int| 0 <= i < names.len() ==> lookup_skill(skills, #[trigger] names[i]) is None,
    ensures
        expand_names(text, names, skills) == text,
    decreases names.len(),
{
    if names.len() > 0 {
        law_expand_unknown_names(text, names.drop_last(), skills);
        assert(lookup_skill(skills, names[names.len() - 1]) is None);
    }
}


/// Expanding a list of names expands the first name and then the rest: a
/// registered first name has each whole reference `@skill:name` and each
/// `{{skill:name}}` replaced by its prompt before the other names are
/// expanded; an unregistered one changes nothing. So every referenced,
/// registered name is expanded, not just one.
pub proof fn law_expand_names_one_by_one(
    text: Seq<char>,
    n: Seq<char>,
    rest: Seq<Seq<char>>,
    skills: Seq<SkillView>,
)
    ensures
        expand_names(text, seq![n] + rest, skills) == expand_names(
            match lookup_skill(skills, n) {
                Some(x) => replace(
                    replace_refs(text, seq!['@', 's', 'k', 'i', 'l', 'l', ':'] + n, x.prompt),
                    seq!['{', '{', 's', 'k', 'i', 'l', 'l', ':'] + n + seq!['}', '}'],
                    x.prompt,
                ),
                None => text,
            },
            rest,
            skills,
        ),
    decreases rest.len(),
{
    let all = seq![n] + rest;
    assert(inline_prefix() =~= seq!['@', 's', 'k', 'i', 'l', 'l', ':']);
    assert(template_prefix() =~= seq!['{', '{', 's', 'k', 'i', 'l', 'l', ':']);
    if rest.len() == 0 {
        assert(all.drop_last() =~= Seq::<Seq<char>>::empty());
        assert(all.last() == n);
        assert(inline_prefix() + n =~= seq!['@', 's', 'k', 'i', 'l', 'l', ':'] + n);
        assert(template_prefix() + n + seq!['}', '}'] =~= seq!['{', '{', 's', 'k', 'i', 'l', 'l', ':']
            + n + seq!['}', '}']);
        assert(expand_names(text, all.drop_last(), skills) == text);
        reveal_with_fuel(expand_names, 2);
    } else {
        law_expand_names_one_by_one(text, n, rest.drop_last(), skills);
        assert(all.drop_last() =~= seq![n] + rest.drop_last());
        assert(all.last() == rest.last());
    }
}

} // verus!
