//! Forwarding scheduler and peer-lifecycle manager of a delay-tolerant
//! networking node.
//!
//! The node keeps bundles until a suitable neighbour becomes reachable. This
//! crate holds the decisions around that: which neighbours are still
//! considered alive, which application endpoints are registered locally, when
//! a forwarding pass is worth running, and in which order the pending bundles
//! are attempted.

pub mod application_agent;
pub mod bundlepack;
pub mod eid;
pub mod peer;
pub mod registry;
pub mod routing;
pub mod scheduler;
pub mod statistics;
pub mod store;

pub use application_agent::ApplicationAgent;
pub use bundlepack::BundlePack;
pub use peer::{process_peers, DtnPeer, PeerTable, PeerType};
pub use registry::DtnCore;
pub use routing::{EpidemicRoutingAgent, FloodingRoutingAgent, Holding, RoutingAgentsEnum};
pub use scheduler::{
    fetch_metadata, forwarding_batch, process_bundles, ForwardingPass, SchedulerState,
    MAX_SKIPS_BEFORE_RETRANSMISSION,
};
pub use statistics::DtnStatistics;
pub use store::BundleStore;
