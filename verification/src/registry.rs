//! The node registry: the local application endpoints, the advertised
//! services and the routing agent of a node.

use crate::application_agent::{agent_eids, ApplicationAgent};
use crate::eid::{first_position, is_first_at, lemma_first_position, same_eid};
use crate::routing::{EpidemicRoutingAgent, Holding, RoutingAgentsEnum};
use crate::store::BundleStore;
use bp7::EndpointID;
use std::collections::HashMap;
use vstd::prelude::*;
use vstd::string::to_string_from_display_ensures;

verus! {

/// The agents after `agent` asked to be registered: it is added behind the
/// others unless its endpoint identifier is registered already.
pub open spec fn registered(agents: Seq<ApplicationAgent>, agent: ApplicationAgent) -> Seq<
    ApplicationAgent,
> {
    if agent_eids(agents).contains(agent.eid) {
        agents
    } else {
        agents.push(agent)
    }
}

/// The agents after the endpoint identifier `eid` was unregistered: the
/// first agent registered under it is gone, if there was one.
pub open spec fn unregistered(agents: Seq<ApplicationAgent>, eid: EndpointID) -> Seq<
    ApplicationAgent,
> {
    match first_position(agent_eids(agents), eid) {
        Some(i) => agents.remove(i),
        None => agents,
    }
}

/// The registry of a node.
#[derive(Debug)]
pub struct DtnCore {
    /// The registered application agents, in order of registration.
    pub endpoints: Vec<ApplicationAgent>,
    /// The advertised services: service number and description.
    pub service_list: HashMap<u8, String>,
    /// The routing strategy of the node.
    pub routing_agent: RoutingAgentsEnum,
}

impl DtnCore {
    /// No endpoint identifier is registered twice.
    pub open spec fn wf(self) -> bool {
        agent_eids(self.endpoints@).no_duplicates()
    }

    /// A registry without agents and services, with epidemic routing.
    pub fn new() -> (core: DtnCore)
        ensures
            core.endpoints@ == Seq::<ApplicationAgent>::empty(),
            core.service_list@ == Map::<u8, String>::empty(),
            core.routing_agent matches RoutingAgentsEnum::Epidemic(agent) && agent.history@
                == Seq::<Holding>::empty(),
            core.wf(),
    {
        DtnCore {
            endpoints: Vec::new(),
            service_list: HashMap::new(),
            routing_agent: RoutingAgentsEnum::Epidemic(EpidemicRoutingAgent::new()),
        }
    }

    /// Index of the first agent registered under `eid`.
    fn position(&self, eid: &EndpointID) -> (found: Option<usize>)
        ensures
            match found {
                Some(i) => first_position(agent_eids(self.endpoints@), *eid) == Some(i as int),
                None => first_position(agent_eids(self.endpoints@), *eid) is None,
            },
    {
        let mut i: usize = 0;
        while i < self.endpoints.len()
            invariant
                i <= self.endpoints.len(),
                forall|j: int| 0 <= j < i ==> agent_eids(self.endpoints@)[j] != *eid,
            decreases self.endpoints.len() - i,
        {
            if same_eid(eid, self.endpoints[i].eid()) {
                proof {
                    assert(is_first_at(agent_eids(self.endpoints@), *eid, i as int));
                    lemma_first_position(agent_eids(self.endpoints@), *eid);
                }
                return Some(i);
            }
            i = i + 1;
        }
        proof {
            lemma_first_position(agent_eids(self.endpoints@), *eid);
            assert(!agent_eids(self.endpoints@).contains(*eid));
        }
        None
    }

    /// Registers an application agent. Nothing changes when an agent is
    /// registered under the same endpoint identifier already.
    pub fn register_application_agent(&mut self, aa: ApplicationAgent)
        ensures
            final(self).endpoints@ == registered(old(self).endpoints@, aa),
            final(self).service_list == old(self).service_list,
            final(self).routing_agent == old(self).routing_agent,
            old(self).wf() ==> final(self).wf(),
    {
        if !self.is_in_endpoints(aa.eid()) {
            proof {
                assert(agent_eids(self.endpoints@.push(aa)) =~= agent_eids(self.endpoints@).push(
                    aa.eid,
                ));
            }
            self.endpoints.push(aa);
        }
    }

    /// Removes the first agent registered under the endpoint identifier of
    /// `aa`. Nothing changes when there is none.
    pub fn unregister_application_agent(&mut self, aa: ApplicationAgent)
        ensures
            final(self).endpoints@ == unregistered(old(self).endpoints@, aa.eid),
            !agent_eids(old(self).endpoints@).contains(aa.eid) ==> final(self).endpoints@ == old(
                self,
            ).endpoints@,
            forall|i: int|
                is_first_at(agent_eids(old(self).endpoints@), aa.eid, i) ==> final(self).endpoints@
                    == old(self).endpoints@.remove(i),
            final(self).service_list == old(self).service_list,
            final(self).routing_agent == old(self).routing_agent,
            old(self).wf() ==> final(self).wf(),
    {
        proof {
            lemma_first_position(agent_eids(self.endpoints@), aa.eid);
        }
        if let Some(i) = self.position(aa.eid()) {
            proof {
                lemma_remove_keeps_distinct(self.endpoints@, i as int);
            }
            self.endpoints.remove(i);
        }
    }

    /// The registered endpoint identifiers as text, in order of
    /// registration.
    pub fn eids(&self) -> (texts: Vec<String>)
        ensures
            texts.len() == self.endpoints.len(),
            forall|i: int|
                0 <= i < texts.len() ==> to_string_from_display_ensures::<EndpointID>(
                    &self.endpoints[i].eid,
                    #[trigger] texts[i],
                ),
    {
        let mut texts: Vec<String> = Vec::new();
        let mut i: usize = 0;
        while i < self.endpoints.len()
            invariant
                i <= self.endpoints.len(),
                texts.len() == i,
                forall|j: int|
                    0 <= j < i ==> to_string_from_display_ensures::<EndpointID>(
                        &self.endpoints[j].eid,
                        #[trigger] texts[j],
                    ),
            decreases self.endpoints.len() - i,
        {
            texts.push(self.endpoints[i].eid().to_string());
            i = i + 1;
        }
        texts
    }

    /// The identifiers of all bundles, as the store lists them at the time
    /// of the call.
    pub fn bundle_ids<S: BundleStore>(&self, store: &S) -> (ids: Vec<String>)
        ensures
            call_ensures(S::all_ids, (store,), ids),
    {
        store.all_ids()
    }

    /// The number of bundles, as the store counts them at the time of the
    /// call.
    pub fn bundle_count<S: BundleStore>(&self, store: &S) -> (n: usize)
        ensures
            exists|count: u64| #[trigger] call_ensures(S::count, (store,), count) && n == count as usize,
    {
        store.count() as usize
    }

    /// The names of all bundles, which are their identifiers, as the store
    /// lists them at the time of the call.
    pub fn bundle_names<S: BundleStore>(&self, store: &S) -> (names: Vec<String>)
        ensures
            call_ensures(S::all_ids, (store,), names),
    {
        store.all_ids()
    }

    /// Whether an agent is registered under `eid`.
    pub fn is_in_endpoints(&self, eid: &EndpointID) -> (present: bool)
        ensures
            present == agent_eids(self.endpoints@).contains(*eid),
    {
        proof {
            lemma_first_position(agent_eids(self.endpoints@), *eid);
        }
        self.position(eid).is_some()
    }

    /// The first agent registered under `eid`, if there is one.
    pub fn get_endpoint(&self, eid: &EndpointID) -> (agent: Option<&ApplicationAgent>)
        ensures
            match first_position(agent_eids(self.endpoints@), *eid) {
                Some(i) => agent == Some(&self.endpoints[i]),
                None => agent is None,
            },
            agent is Some <==> agent_eids(self.endpoints@).contains(*eid),
    {
        proof {
            lemma_first_position(agent_eids(self.endpoints@), *eid);
        }
        match self.position(eid) {
            Some(i) => Some(&self.endpoints[i]),
            None => None,
        }
    }

    /// The first agent registered under `eid`, if there is one, for
    /// changing it in place. The registry holds the changed agent at the
    /// same position afterwards; everything else stays as it is.
    pub fn get_endpoint_mut(&mut self, eid: &EndpointID) -> (agent: Option<&mut ApplicationAgent>)
        ensures
            match first_position(agent_eids(old(self).endpoints@), *eid) {
                Some(i) => agent matches Some(found) && *found == old(self).endpoints[i]
                    && final(self).endpoints@ == old(self).endpoints@.update(i, *final(found)),
                None => agent is None && final(self).endpoints@ == old(self).endpoints@,
            },
            agent is Some <==> agent_eids(old(self).endpoints@).contains(*eid),
            final(self).service_list == old(self).service_list,
            final(self).routing_agent == old(self).routing_agent,
    {
        proof {
            lemma_first_position(agent_eids(self.endpoints@), *eid);
        }
        match self.position(eid) {
            Some(i) => Some(&mut self.endpoints[i]),
            None => None,
        }
    }
}

impl Default for DtnCore {
    fn default() -> (core: Self)
        ensures
            core.endpoints@ == Seq::<ApplicationAgent>::empty(),
            core.service_list@ == Map::<u8, String>::empty(),
            core.routing_agent matches RoutingAgentsEnum::Epidemic(agent) && agent.history@
                == Seq::<Holding>::empty(),
            core.wf(),
    {
        DtnCore::new()
    }
}

/// Taking an agent out does not register any endpoint identifier twice.
proof fn lemma_remove_keeps_distinct(agents: Seq<ApplicationAgent>, i: int)
    requires
        0 <= i < agents.len(),
    ensures
        agent_eids(agents).no_duplicates() ==> agent_eids(agents.remove(i)).no_duplicates(),
        agent_eids(agents.remove(i)) == agent_eids(agents).remove(i),
{
    let eids = agent_eids(agents);
    assert(agent_eids(agents.remove(i)) =~= eids.remove(i));
    if eids.no_duplicates() {
        assert forall|a: int, b: int| 0 <= a < b < eids.remove(i).len() implies eids.remove(i)[a]
            != eids.remove(i)[b] by {
            let a0 = if a < i { a } else { a + 1 };
            let b0 = if b < i { b } else { b + 1 };
            assert(eids[a0] != eids[b0]);
        }
    }
}

/// Registering twice under the same endpoint identifier leaves the registry
/// as the first registration left it, with exactly one agent under that
/// identifier.
pub proof fn lemma_registration_is_idempotent(
    agents: Seq<ApplicationAgent>,
    first: ApplicationAgent,
    second: ApplicationAgent,
)
    requires
        agent_eids(agents).no_duplicates(),
        first.eid == second.eid,
    ensures
        registered(registered(agents, first), second) == registered(agents, first),
        agent_eids(registered(agents, first)).no_duplicates(),
        agent_eids(registered(agents, first)).to_multiset().count(first.eid) == 1,
{
    let once = registered(agents, first);
    if !agent_eids(agents).contains(first.eid) {
        assert(agent_eids(once) =~= agent_eids(agents).push(first.eid));
    }
    assert(agent_eids(once).contains(first.eid)) by {
        if agent_eids(agents).contains(first.eid) {
        } else {
            assert(agent_eids(once)[agents.len() as int] == first.eid);
        }
    }
    agent_eids(once).lemma_multiset_has_no_duplicates();
    broadcast use vstd::seq_lib::group_to_multiset_ensures;
}

/// Unregistering an endpoint identifier that is not registered leaves the
/// registry unchanged.
pub proof fn lemma_unregister_absent_is_noop(agents: Seq<ApplicationAgent>, eid: EndpointID)
    requires
        !agent_eids(agents).contains(eid),
    ensures
        unregistered(agents, eid) == agents,
{
    lemma_first_position(agent_eids(agents), eid);
}

} // verus!
