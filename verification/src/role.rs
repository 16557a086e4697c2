//! Speaker roles and the fixed table of names under which each is accepted.

use crate::error::IngestError;
use vstd::prelude::*;

verus! {

/// Who uttered a message.
#[derive(Clone, Copy, Debug, PartialEq, Eq, Structural)]
pub enum Role {
    System,
    User,
    Assistant,
    Function,
}

/// The role that a name stands for, if any. Names are case-sensitive.
pub open spec fn role_of(name: Seq<char>) -> Option<Role> {
    if name == "System"@ || name == "system"@ {
        Some(Role::System)
    } else if name == "User"@ || name == "human"@ || name == "user"@ {
        Some(Role::User)
    } else if name == "Assistant"@ || name == "gpt"@ || name == "bing"@ || name == "chatgpt"@
        || name == "bard"@ || name == "assistant"@ {
        Some(Role::Assistant)
    } else if name == "Function"@ {
        Some(Role::Function)
    } else {
        None
    }
}

/// The name under which a role is written out.
pub open spec fn role_name(role: Role) -> Seq<char> {
    match role {
        Role::System => "System"@,
        Role::User => "User"@,
        Role::Assistant => "Assistant"@,
        Role::Function => "Function"@,
    }
}

/// A role that is written out is read back as itself.
pub proof fn lemma_role_name_is_read_back(role: Role)
    ensures
        role_of(role_name(role)) == Some(role),
{
    reveal_strlit("System");
    reveal_strlit("system");
    reveal_strlit("User");
    reveal_strlit("human");
    reveal_strlit("user");
    reveal_strlit("Assistant");
    reveal_strlit("gpt");
    reveal_strlit("bing");
    reveal_strlit("chatgpt");
    reveal_strlit("bard");
    reveal_strlit("assistant");
    reveal_strlit("Function");
    assert("System"@[0] == 'S');
    assert("system"@[0] == 's');
    assert("User"@[0] == 'U');
    assert("human"@[0] == 'h');
    assert("user"@[0] == 'u');
    assert("Assistant"@[0] == 'A');
    assert("Function"@[0] == 'F');
}

impl Role {
    /// The name under which this role is written out.
    pub fn name(&self) -> (name: &'static str)
        ensures
            name@ == role_name(*self),
    {
        match self {
            Role::System => "System",
            Role::User => "User",
            Role::Assistant => "Assistant",
            Role::Function => "Function",
        }
    }
}

/// Reads a role from one of its names.
pub fn parse_role(raw: &str) -> (parsed: Result<Role, IngestError>)
    ensures
        parsed == match role_of(raw@) {
            Some(role) => Ok::<Role, IngestError>(role),
            None => Err::<Role, IngestError>(IngestError::UnknownRoleAlias),
        },
{
    if raw.eq("System") || raw.eq("system") {
        Ok(Role::System)
    } else if raw.eq("User") || raw.eq("human") || raw.eq("user") {
        Ok(Role::User)
    } else if raw.eq("Assistant") || raw.eq("gpt") || raw.eq("bing") || raw.eq("chatgpt")
        || raw.eq("bard") || raw.eq("assistant") {
        Ok(Role::Assistant)
    } else if raw.eq("Function") {
        Ok(Role::Function)
    } else {
        Err(IngestError::UnknownRoleAlias)
    }
}

} // verus!
