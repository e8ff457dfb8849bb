//! Local application endpoints.

use crate::eid::clone_eid;
use bp7::EndpointID;
use vstd::prelude::*;

verus! {

/// A local application that receives bundles under an endpoint identifier.
#[derive(Debug)]
pub struct ApplicationAgent {
    /// The endpoint identifier the application is reached under.
    pub eid: EndpointID,
}

impl ApplicationAgent {
    /// An agent for the application reached under `eid`.
    pub fn with(eid: EndpointID) -> (agent: ApplicationAgent)
        ensures
            agent.eid == eid,
    {
        ApplicationAgent { eid }
    }

    /// The endpoint identifier the application is reached under.
    pub fn eid(&self) -> (eid: &EndpointID)
        ensures
            *eid == self.eid,
    {
        &self.eid
    }
}

impl Clone for ApplicationAgent {
    fn clone(&self) -> (copy: Self)
        ensures
            copy == *self,
    {
        ApplicationAgent { eid: clone_eid(&self.eid) }
    }
}

/// The endpoint identifiers of a sequence of agents, in order.
pub open spec fn agent_eids(agents: Seq<ApplicationAgent>) -> Seq<EndpointID> {
    agents.map_values(|agent: ApplicationAgent| agent.eid)
}

} // verus!
