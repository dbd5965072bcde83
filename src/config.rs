//! The rule model: what a user declares, consulted in list order.

use std::collections::HashMap;
use vstd::prelude::*;

verus! {

/// What to do when a destination already exists.
#[derive(Clone, Copy, Debug, PartialEq, Eq, Structural)]
pub enum ConflictStrategy {
    /// Probe `stem (i).ext` names until a free one is found.
    Rename,
    /// Replace the existing file.
    Overwrite,
    /// Leave the source where it is.
    Skip,
}

impl Default for ConflictStrategy {
    fn default() -> (r: Self)
        ensures
            r == ConflictStrategy::Rename,
    {
        ConflictStrategy::Rename
    }
}

/// One classification rule. Any of its predicates (`mime`, `file_type`,
/// `extensions`, `regex`, `ai_prompt`) suffices to match, after which the
/// `min_size` and `max_age` filters must also pass.
#[derive(Debug)]
pub struct Rule {
    pub name: String,
    pub extensions: Option<Vec<String>>,
    pub regex: Option<String>,
    pub ai_prompt: Option<String>,
    pub ai_rename_prompt: Option<String>,
    pub ai_extract: Option<HashMap<String, String>>,
    pub target: String,
    pub min_size: Option<u64>,
    pub max_age: Option<String>,
    pub mime: Option<String>,
    /// A semantic preset: `image`, `video`, `audio` or `document`.
    pub file_type: Option<String>,
    pub conflict: Option<ConflictStrategy>,
}

impl Default for Rule {
    fn default() -> (r: Self)
        ensures
            r.name@.len() == 0,
            r.target@.len() == 0,
            r.extensions is None,
            r.regex is None,
            r.ai_prompt is None,
            r.ai_rename_prompt is None,
            r.ai_extract is None,
            r.min_size is None,
            r.max_age is None,
            r.mime is None,
            r.file_type is None,
            r.conflict is None,
    {
        Rule {
            name: String::new(),
            extensions: None,
            regex: None,
            ai_prompt: None,
            ai_rename_prompt: None,
            ai_extract: None,
            target: String::new(),
            min_size: None,
            max_age: None,
            mime: None,
            file_type: None,
            conflict: None,
        }
    }
}

impl Rule {
    /// The conflict policy in force for this rule; `Rename` unless stated.
    pub open spec fn policy(&self) -> ConflictStrategy {
        match self.conflict {
            Some(c) => c,
            None => ConflictStrategy::Rename,
        }
    }

    /// The conflict policy in force for this rule; `Rename` unless stated.
    pub fn conflict_policy(&self) -> (r: ConflictStrategy)
        ensures
            r == self.policy(),
    {
        match self.conflict {
            Some(c) => c,
            None => ConflictStrategy::Rename,
        }
    }
}

/// The loaded configuration: the ordered rules and the oracle endpoint.
#[derive(Debug)]
pub struct Config {
    pub rules: Vec<Rule>,
    pub ai_api_base: String,
    pub ai_model: String,
}

impl Default for Config {
    fn default() -> (r: Self)
        ensures
            r.rules@.len() == 0,
            r.ai_api_base@.len() == 0,
            r.ai_model@.len() == 0,
    {
        Config { rules: Vec::new(), ai_api_base: String::new(), ai_model: String::new() }
    }
}

/// The oracle endpoint used when a configuration names none.
pub fn default_api_base() -> (r: String)
    ensures
        r@ == "http://localhost:11434/v1"@,
{
    "http://localhost:11434/v1".to_owned()
}

/// The oracle model used when a configuration names none.
pub fn default_model() -> (r: String)
    ensures
        r@ == "qwen2:0.5b"@,
{
    "qwen2:0.5b".to_owned()
}

} // verus!
