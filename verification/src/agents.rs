//! Who a request is made for.
use vstd::prelude::*;

verus! {

/// Whose rights are checked.
#[derive(Clone, Debug)]
pub enum ForAgent {
    /// All rights: nothing is checked.
    Sudo,
    /// The rights that everybody has.
    Public,
    /// The rights of the agent with this address.
    AgentSubject(String),
}

impl ForAgent {
    /// A copy that says the same.
    pub fn copy(&self) -> (r: ForAgent)
        ensures
            r == *self,
    {
        match self {
            ForAgent::Sudo => ForAgent::Sudo,
            ForAgent::Public => ForAgent::Public,
            ForAgent::AgentSubject(subject) => ForAgent::AgentSubject(subject.clone()),
        }
    }
}

} // verus!
