//! What the provider tells of an instance, and which instance a query
//! resolves to.

use vstd::prelude::*;
use crate::failure::Failure;

verus! {

/// The power state of an instance, as the provider reports it.
#[derive(Clone, Copy, Debug, PartialEq, Eq, Structural)]
pub enum PowerState {
    Pending,
    Running,
    ShuttingDown,
    Terminated,
    Stopping,
    Stopped,
    /// A state that the provider did not name, or one that is not known here.
    Unknown,
}

/// What was seen of one instance at one moment. It is fetched anew for each
/// poll and never kept beyond it.
#[derive(Clone, Debug, PartialEq, Eq)]
pub struct InstanceDescriptor {
    /// The provider's identity of the instance.
    pub instance_id: String,
    pub power_state: PowerState,
    /// The address of the instance, once the provider has assigned one.
    pub assigned_address: Option<String>,
}

/// How the instance is looked up.
#[derive(Clone, Debug, PartialEq, Eq)]
pub enum Resolution {
    /// By the identity that a section of the configuration carries.
    ByToken(String),
    /// By the value of its name tag.
    ByTag(String),
}

impl Resolution {
    /// A second copy of the query.
    pub fn duplicate(&self) -> (r: Resolution)
        ensures
            r == *self,
    {
        match self {
            Resolution::ByToken(token) => Resolution::ByToken(token.clone()),
            Resolution::ByTag(name) => Resolution::ByTag(name.clone()),
        }
    }
}

/// The instance that a run of matches resolves to: the first one. Which of
/// several matches comes first is the provider's choice, and nothing here
/// chooses between them.
pub open spec fn resolved(matches: Seq<InstanceDescriptor>) -> Result<InstanceDescriptor, Failure> {
    if matches.len() == 0 {
        Err(Failure::InstanceNotFound)
    } else {
        Ok(matches[0])
    }
}

/// Picks the instance among the provider's matches: the first, or
/// `InstanceNotFound` where there is none.
pub fn first_match(matches: Vec<InstanceDescriptor>) -> (r: Result<InstanceDescriptor, Failure>)
    ensures
        r == resolved(matches@),
{
    let mut rest = matches;
    if rest.len() == 0 {
        Err(Failure::InstanceNotFound)
    } else {
        Ok(rest.remove(0))
    }
}

} // verus!
