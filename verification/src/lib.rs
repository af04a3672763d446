//! Skills: text-based agent extensions written as Markdown with a YAML
//! frontmatter, their registry, matching, resolution and activation; with
//! the model provider's requests, responses and stream accumulation, and
//! the decisions of the command-line front end.
use vstd::prelude::*;

pub mod text;
pub mod pattern;
pub mod skill;
pub mod order;
pub mod registry;
pub mod resolver;
pub mod loader;
pub mod message;
pub mod activation;
pub mod provider;
pub mod request;
pub mod cli;

pub use skill::{Skill, SkillContext, SkillMetadata, SkillTrigger, TriggerKind, TriggerMatch};
pub use loader::{LoadError, SkillLoader};
pub use registry::{SkillMatch, SkillRegistry};
pub use activation::{ActivationResult, SkillActivator};
pub use resolver::{ResolvedSkill, SkillResolver};

verus! {

} // verus!
