//! Categories of stored memories.

use vstd::prelude::*;

verus! {

/// How a memory is organised.
#[derive(Debug, Clone, PartialEq, Eq)]
pub enum MemoryCategory {
    /// Long-term facts, preferences, decisions.
    Core,
    /// Daily session logs.
    Daily,
    /// Conversation context.
    Conversation,
    /// A category named by the user.
    Custom(String),
}

impl MemoryCategory {
    pub open spec fn name_spec(&self) -> Seq<char> {
        match self {
            MemoryCategory::Core => "core"@,
            MemoryCategory::Daily => "daily"@,
            MemoryCategory::Conversation => "conversation"@,
            MemoryCategory::Custom(n) => n@,
        }
    }

    /// The category's name: `core`, `daily`, `conversation`, or the custom
    /// name itself.
    pub fn to_string(&self) -> (r: String)
        ensures
            r@ == self.name_spec(),
    {
        match self {
            MemoryCategory::Core => String::from_str("core"),
            MemoryCategory::Daily => String::from_str("daily"),
            MemoryCategory::Conversation => String::from_str("conversation"),
            MemoryCategory::Custom(n) => n.clone(),
        }
    }
}

} // verus!
