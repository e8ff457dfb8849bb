use bp7::EndpointID;
use dtn_core::{ApplicationAgent, BundlePack, BundleStore, DtnCore, DtnStatistics, RoutingAgentsEnum};

fn eid(text: &str) -> EndpointID {
    EndpointID::try_from(text).expect("valid endpoint id")
}

fn agent(text: &str) -> ApplicationAgent {
    ApplicationAgent::with(eid(text))
}

struct CountingStore {
    ids: Vec<String>,
    count: u64,
}

impl BundleStore for CountingStore {
    fn forwarding(&self) -> Vec<String> {
        Vec::new()
    }

    fn get_metadata(&self, _id: &String) -> Option<BundlePack> {
        None
    }

    fn count(&self) -> u64 {
        self.count
    }

    fn all_ids(&self) -> Vec<String> {
        self.ids.clone()
    }
}

#[test]
fn statistics_start_at_zero() {
    let s = DtnStatistics::new();
    assert_eq!((s.incoming, s.dups, s.outgoing, s.delivered, s.broken), (0, 0, 0, 0, 0));
    let d = DtnStatistics::default();
    assert_eq!((d.incoming, d.dups, d.outgoing, d.delivered, d.broken), (0, 0, 0, 0, 0));
}

#[test]
fn statistics_clone_keeps_counters() {
    let s = DtnStatistics { incoming: 1, dups: 2, outgoing: 3, delivered: 4, broken: 5 };
    let c = s.clone();
    assert_eq!((c.incoming, c.dups, c.outgoing, c.delivered, c.broken), (1, 2, 3, 4, 5));
}

#[test]
fn new_registry_is_empty_with_epidemic_routing() {
    let core = DtnCore::new();
    assert!(core.endpoints.is_empty());
    assert!(core.service_list.is_empty());
    match &core.routing_agent {
        RoutingAgentsEnum::Epidemic(agent) => assert!(agent.history.is_empty()),
        RoutingAgentsEnum::Flooding(_) => panic!("epidemic routing expected"),
    }
    let core = DtnCore::default();
    assert!(core.endpoints.is_empty());
    assert!(matches!(core.routing_agent, RoutingAgentsEnum::Epidemic(_)));
}

#[test]
fn agent_exposes_its_eid() {
    let a = agent("dtn://node1/inbox");
    assert_eq!(a.eid(), &eid("dtn://node1/inbox"));
    assert_eq!(a.clone().eid, eid("dtn://node1/inbox"));
}

#[test]
fn register_appends_new_agents() {
    let mut core = DtnCore::new();
    core.register_application_agent(agent("dtn://node1/inbox"));
    core.register_application_agent(agent("dtn://node1/outbox"));
    core.register_application_agent(agent("ipn:1.7"));
    assert_eq!(core.eids(), vec!["dtn://node1/inbox", "dtn://node1/outbox", "ipn:1.7"]);
}

#[test]
fn register_same_eid_twice_keeps_one_entry() {
    let mut core = DtnCore::new();
    core.register_application_agent(agent("dtn://node1/inbox"));
    core.register_application_agent(agent("dtn://node1/other"));
    core.register_application_agent(agent("dtn://node1/inbox"));
    assert_eq!(core.endpoints.len(), 2);
    assert_eq!(core.eids(), vec!["dtn://node1/inbox", "dtn://node1/other"]);
    let same = core.endpoints.iter().filter(|a| a.eid == eid("dtn://node1/inbox")).count();
    assert_eq!(same, 1);
}

#[test]
fn unregister_removes_the_agent() {
    let mut core = DtnCore::new();
    core.register_application_agent(agent("dtn://node1/a"));
    core.register_application_agent(agent("dtn://node1/b"));
    core.register_application_agent(agent("dtn://node1/c"));
    core.unregister_application_agent(agent("dtn://node1/b"));
    assert_eq!(core.eids(), vec!["dtn://node1/a", "dtn://node1/c"]);
    assert!(!core.is_in_endpoints(&eid("dtn://node1/b")));
}

#[test]
fn unregister_removes_only_the_first_of_equal_entries() {
    let mut core = DtnCore::new();
    core.endpoints.push(agent("dtn://node1/a"));
    core.endpoints.push(agent("dtn://node1/b"));
    core.endpoints.push(agent("dtn://node1/a"));
    core.unregister_application_agent(agent("dtn://node1/a"));
    assert_eq!(core.eids(), vec!["dtn://node1/b", "dtn://node1/a"]);
}

#[test]
fn unregister_absent_eid_changes_nothing() {
    let mut core = DtnCore::new();
    core.unregister_application_agent(agent("dtn://node1/a"));
    assert!(core.endpoints.is_empty());
    core.register_application_agent(agent("dtn://node1/a"));
    core.register_application_agent(agent("dtn://node1/b"));
    core.unregister_application_agent(agent("dtn://node1/c"));
    core.unregister_application_agent(agent("dtn://node2/a"));
    assert_eq!(core.eids(), vec!["dtn://node1/a", "dtn://node1/b"]);
}

#[test]
fn register_after_unregister_adds_again() {
    let mut core = DtnCore::new();
    core.register_application_agent(agent("dtn://node1/a"));
    core.unregister_application_agent(agent("dtn://node1/a"));
    core.register_application_agent(agent("dtn://node1/a"));
    assert_eq!(core.eids(), vec!["dtn://node1/a"]);
}

#[test]
fn is_in_endpoints_compares_by_equality() {
    let mut core = DtnCore::new();
    assert!(!core.is_in_endpoints(&eid("dtn://node1/a")));
    core.register_application_agent(agent("dtn://node1/a"));
    core.register_application_agent(agent("ipn:2.3"));
    assert!(core.is_in_endpoints(&eid("dtn://node1/a")));
    assert!(core.is_in_endpoints(&EndpointID::with_ipn(2, 3).expect("valid")));
    assert!(!core.is_in_endpoints(&eid("dtn://node1/A")));
    assert!(!core.is_in_endpoints(&eid("ipn:2.4")));
    assert!(!core.is_in_endpoints(&EndpointID::none()));
}

#[test]
fn get_endpoint_finds_by_eid() {
    let mut core = DtnCore::new();
    core.register_application_agent(agent("dtn://node1/a"));
    core.register_application_agent(agent("dtn://node1/b"));
    let found = core.get_endpoint(&eid("dtn://node1/b")).expect("registered");
    assert_eq!(found.eid, eid("dtn://node1/b"));
    assert!(std::ptr::eq(found, &core.endpoints[1]));
    assert!(core.get_endpoint(&eid("dtn://node1/c")).is_none());
}

#[test]
fn get_endpoint_mut_changes_the_agent_in_place() {
    let mut core = DtnCore::new();
    core.register_application_agent(agent("dtn://node1/a"));
    core.register_application_agent(agent("dtn://node1/b"));
    assert!(core.get_endpoint_mut(&eid("dtn://node1/c")).is_none());
    {
        let found = core.get_endpoint_mut(&eid("dtn://node1/b")).expect("registered");
        assert_eq!(found.eid, eid("dtn://node1/b"));
        found.eid = eid("dtn://node1/renamed");
    }
    assert_eq!(core.eids(), vec!["dtn://node1/a", "dtn://node1/renamed"]);
}

#[test]
fn eids_of_empty_registry() {
    assert!(DtnCore::new().eids().is_empty());
}

#[test]
fn eids_are_written_as_the_endpoint_ids_display_them() {
    let mut core = DtnCore::new();
    core.register_application_agent(ApplicationAgent::with(EndpointID::none()));
    core.register_application_agent(ApplicationAgent::with(EndpointID::with_ipn(23, 42).expect("valid")));
    core.register_application_agent(ApplicationAgent::with(EndpointID::with_dtn("node7/mail").expect("valid")));
    assert_eq!(core.eids(), vec!["dtn:none", "ipn:23.42", "dtn://node7/mail"]);
}

#[test]
fn bundle_projections_ask_the_store() {
    let core = DtnCore::new();
    let mut store = CountingStore { ids: vec!["b1".to_string(), "b2".to_string()], count: 2 };
    assert_eq!(core.bundle_ids(&store), vec!["b1", "b2"]);
    assert_eq!(core.bundle_names(&store), vec!["b1", "b2"]);
    assert_eq!(core.bundle_count(&store), 2);
    store.ids.push("b3".to_string());
    store.count = 3;
    assert_eq!(core.bundle_ids(&store), vec!["b1", "b2", "b3"]);
    assert_eq!(core.bundle_names(&store), vec!["b1", "b2", "b3"]);
    assert_eq!(core.bundle_count(&store), 3);
}
