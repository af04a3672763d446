//! Skill loader: skills from Markdown files with YAML frontmatter.
use vstd::prelude::*;

use crate::order::{sort_desc, stable_sort_desc, views};
use crate::skill::{
    description_of, frontmatter_description, spec_split, split_frontmatter, yaml_string,
    yaml_string_field, FrontmatterSplit, Skill, SkillMetadata, SplitView,
};
use crate::text::owned;

verus! {

#[verifier::external_type_specification]
#[verifier::external_body]
pub struct ExIoError(std::io::Error);

#[verifier::external_type_specification]
#[verifier::external_body]
pub struct ExYamlError(serde_yaml::Error);

#[verifier::external_type_specification]
#[verifier::external_body]
pub struct ExGlobPatternError(glob::PatternError);

/// Errors that can occur while loading skills.
#[derive(Debug)]
#[allow(inconsistent_fields)]
pub enum LoadError {
    /// Reading `path` failed.
    Io { path: String, source: std::io::Error },
    /// The frontmatter of `path` is not valid YAML for skill metadata.
    YamlParse { path: String, source: serde_yaml::Error },
    /// The frontmatter of `path` has no closing delimiter.
    MissingDelimiter { path: String },
    /// Neither the frontmatter nor the file name of `path` gives a name.
    MissingName { path: String },
    /// The glob pattern for the skill files is invalid.
    GlobPattern { source: glob::PatternError },
}

/// Loads skills from a directory.
#[derive(Debug)]
pub struct SkillLoader {
    /// Base directory for skill files.
    base_dir: String,
    /// Whether to recurse into subdirectories.
    recursive: bool,
}

/// `/**/*.md`.
pub open spec fn recursive_suffix() -> Seq<char> {
    seq!['/', '*', '*', '/', '*', '.', 'm', 'd']
}

/// `/*.md`.
pub open spec fn flat_suffix() -> Seq<char> {
    seq!['/', '*', '.', 'm', 'd']
}

impl SkillLoader {
    /// The directory this loader reads.
    pub closed spec fn spec_base_dir(&self) -> Seq<char> {
        self.base_dir@
    }

    /// Whether this loader descends into subdirectories.
    pub closed spec fn spec_recursive(&self) -> bool {
        self.recursive
    }

    /// A loader for `base_dir`, recursing into subdirectories.
    pub fn new(base_dir: &str) -> (r: SkillLoader)
        ensures
            r.spec_base_dir() == base_dir@,
            r.spec_recursive(),
    {
        SkillLoader { base_dir: owned(base_dir), recursive: true }
    }

    /// This loader, recursing into subdirectories or not.
    pub fn recursive(self, yes: bool) -> (r: SkillLoader)
        ensures
            r.spec_base_dir() == self.spec_base_dir(),
            r.spec_recursive() == yes,
    {
        SkillLoader { base_dir: self.base_dir, recursive: yes }
    }

    /// The directory this loader reads.
    pub fn base_dir(&self) -> (r: &str)
        ensures
            r@ == self.spec_base_dir(),
    {
        self.base_dir.as_str()
    }

    /// The glob pattern for the skill files: `<dir>/**/*.md` when
    /// recursing, else `<dir>/*.md`.
    pub fn glob_pattern(&self) -> (r: String)
        ensures
            r@ == self.spec_base_dir() + if self.spec_recursive() {
                recursive_suffix()
            } else {
                flat_suffix()
            },
    {
        let mut r = self.base_dir.clone();
        if self.recursive {
            let suffix = "/**/*.md";
            proof {
                reveal_strlit("/**/*.md");
            }
            r.append(suffix);
        } else {
            let suffix = "/*.md";
            proof {
                reveal_strlit("/*.md");
            }
            r.append(suffix);
        }
        r
    }
}

/// The loaded skills by priority, highest first (skills of equal priority
/// keep the order in which they were found).
pub fn sort_by_priority(skills: Vec<Skill>) -> (r: Vec<Skill>)
    ensures
        views(r@) == sort_desc(views(skills@)),
{
    stable_sort_desc(skills)
}

/// A skill from the Markdown `content` of the file at `path`.
/// `metadata` is what the frontmatter (as `split_frontmatter` finds it)
/// parses to as skill metadata; `file_stem` is the file name of `path`
/// without extension. Content without frontmatter gives no skill; an
/// unclosed frontmatter, a frontmatter that does not parse, and a file with
/// no name are errors. The name is the frontmatter's `name` string, else the
/// file stem; the description its `description` string, else empty.
pub fn parse_skill_markdown(
    path: &str,
    file_stem: Option<&str>,
    content: &str,
    metadata: Option<Result<SkillMetadata, serde_yaml::Error>>,
) -> (r: Result<Option<Skill>, LoadError>)
    requires
        spec_split(content@) is Found ==> metadata is Some,
    ensures
        spec_split(content@) is Missing <==> r matches Ok(None),
        spec_split(content@) is Unterminated <==> r matches Err(LoadError::MissingDelimiter { .. }),
        r matches Err(LoadError::MissingDelimiter { path: p }) ==> p@ == path@,
        spec_split(content@) is Found && metadata->0 is Err <==> r matches Err(
            LoadError::YamlParse { .. },
        ),
        r matches Err(LoadError::YamlParse { path: p, .. }) ==> p@ == path@,
        (spec_split(content@) is Found && metadata->0 is Ok && yaml_string(
            spec_split(content@)->frontmatter,
            "name"@,
        ) is None && file_stem is None) <==> r matches Err(LoadError::MissingName { .. }),
        r matches Err(LoadError::MissingName { path: p }) ==> p@ == path@,
        r is Err ==> !(r matches Err(LoadError::Io { .. })) && !(r matches Err(
            LoadError::GlobPattern { .. },
        )),
        r matches Ok(Some(s)) ==> {
            &&& spec_split(content@) matches SplitView::Found { frontmatter, body }
            &&& metadata matches Some(Ok(m))
            &&& s@.name == (match yaml_string(frontmatter, "name"@) {
                Some(n) => n,
                None => file_stem->0@,
            })
            &&& s@.description == frontmatter_description(frontmatter)
            &&& s@.prompt == body
            &&& s@.metadata == m@
            &&& s@.source == Some(path@)
            &&& s@.enabled
        },
{
    match split_frontmatter(content) {
        FrontmatterSplit::Missing => Ok(None),
        FrontmatterSplit::Unterminated => Err(LoadError::MissingDelimiter { path: owned(path) }),
        FrontmatterSplit::Found { frontmatter, body } => {
            // a found frontmatter always comes with what it parses to
            let metadata = match metadata {
                Some(m) => m,
                None => vstd::pervasive::unreached(),
            };
            match metadata {
                Err(e) => Err(LoadError::YamlParse { path: owned(path), source: e }),
                Ok(m) => {
                    let name = match yaml_string_field(frontmatter.as_str(), "name") {
                        Some(n) => n,
                        None => match file_stem {
                            Some(stem) => owned(stem),
                            None => {
                                return Err(LoadError::MissingName { path: owned(path) });
                            },
                        },
                    };
                    let description = description_of(frontmatter.as_str());
                    Ok(
                        Some(
                            Skill {
                                name,
                                description,
                                prompt: body,
                                metadata: m,
                                source: Some(owned(path)),
                                enabled: true,
                            },
                        ),
                    )
                },
            }
        },
    }
}

} // verus!
