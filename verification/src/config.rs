//! How a model profile treats the roles of messages.
use crate::ordered::TextMap;
use vstd::prelude::*;

verus! {

/// Where in the new messages a rule applies.
#[derive(Debug, Clone, Copy, PartialEq, Eq, Structural)]
pub enum When {
    Always,
    /// The first message.
    Leading,
    /// Any message but the first.
    Inline,
}

/// What a rule does with a message.
#[derive(Debug, Clone, Copy, PartialEq, Eq, Structural)]
pub enum Action {
    Accept,
    Drop,
    Reject,
    Rewrite,
}

/// A rule for the messages of a role.
#[derive(Debug, PartialEq)]
pub struct RoleRule {
    pub when: Option<When>,
    pub action: Action,
    pub target_role: Option<String>,
    pub tag: Option<String>,
    pub tag_attributes: TextMap<String>,
}

/// The rules of a model profile by role, and the roles whose neighbouring
/// messages become one. The rules of `*` are for roles without rules of their
/// own.
#[derive(Debug, PartialEq)]
pub struct RolesConfig {
    pub rules: TextMap<Vec<RoleRule>>,
    pub merge_adjacent: Vec<String>,
}

/// The rules for a role: its own, or else those of `*`.
pub open spec fn role_rules(config: RolesConfig, role: Seq<char>) -> Option<Seq<RoleRule>> {
    if config.rules@.contains_key(role) {
        Some(config.rules@[role]@)
    } else if config.rules@.contains_key("*"@) {
        Some(config.rules@["*"@]@)
    } else {
        None
    }
}

impl RolesConfig {
    /// The rules for a role: its own, or else those of `*`.
    pub fn rules_for(&self, role: &str) -> (rules: Option<&Vec<RoleRule>>)
        ensures
            match rules {
                Some(rules) => role_rules(*self, role@) == Some(rules@),
                None => role_rules(*self, role@) is None,
            },
    {
        match self.rules.get(role) {
            Some(rules) => Some(rules),
            None => self.rules.get("*"),
        }
    }
}

} // verus!
