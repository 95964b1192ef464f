//! Clusters and broker nodes as registered with the placement service.
use vstd::prelude::*;

verus! {

/// The kind of service a cluster runs.
#[derive(Clone, Copy, Debug, PartialEq, Eq, Structural)]
pub enum ClusterType {
    PlacementCenter,
    MqttBrokerServer,
    JournalServer,
}

/// A registered cluster.
pub struct ClusterInfo {
    pub cluster_name: Vec<u8>,
    pub cluster_type: ClusterType,
}

impl View for ClusterInfo {
    type V = (Seq<u8>, ClusterType);

    open spec fn view(&self) -> (Seq<u8>, ClusterType) {
        (self.cluster_name@, self.cluster_type)
    }
}

/// A registered broker node.
pub struct BrokerNode {
    pub cluster_name: Vec<u8>,
    pub node_id: u64,
    pub node_inner_addr: Vec<u8>,
    pub extend: Vec<u8>,
}

} // verus!
