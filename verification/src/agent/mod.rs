//! Node agent (DaemonSet). On every node it
//!
//! * discovers USB devices and publishes them as `UsbDevice` objects ([`discovery`]),
//! * exports locally plugged devices to other nodes over the pod network ([`exporter`]),
//! * attaches leased devices to VMs running on this node ([`attacher`]).

pub mod attacher;
pub mod attempt;
pub mod discovery;
pub mod exporter;
pub mod laws;
pub mod pattern;
pub mod publish;
pub mod scan_laws;
pub mod session_laws;
pub mod status_laws;

use vstd::prelude::*;

pub use pattern::{
    form_error, is_published, parse_patterns, side_error, DevicePattern,
};

verus! {

/// How the agent of a node is configured.
#[derive(Debug)]
pub struct AgentConfig {
    pub node: String,
    pub pod_name: String,
    /// Pod IP advertised to other agents.
    pub pod_ip: String,
    /// Port on which sessions are accepted.
    pub listen_port: u16,
    /// Hubs are published too.
    pub include_hubs: bool,
    /// Devices that are never published.
    pub ignore: Vec<DevicePattern>,
    pub scan_interval_secs: u64,
    pub heartbeat_secs: u64,
    pub lost_after_secs: u64,
}

impl Clone for AgentConfig {
    fn clone(&self) -> (r: Self)
        ensures
            r.node == self.node,
            r.pod_name == self.pod_name,
            r.pod_ip == self.pod_ip,
            r.listen_port == self.listen_port,
            r.include_hubs == self.include_hubs,
            r.ignore@ == self.ignore@,
            r.scan_interval_secs == self.scan_interval_secs,
            r.heartbeat_secs == self.heartbeat_secs,
            r.lost_after_secs == self.lost_after_secs,
    {
        let mut ignore: Vec<DevicePattern> = Vec::new();
        for i in 0..self.ignore.len()
            invariant
                ignore@ == self.ignore@.take(i as int),
        {
            ignore.push(self.ignore[i].clone());
            assert(ignore@ =~= self.ignore@.take(i + 1));
        }
        assert(ignore@ =~= self.ignore@);
        AgentConfig {
            node: self.node.clone(),
            pod_name: self.pod_name.clone(),
            pod_ip: self.pod_ip.clone(),
            listen_port: self.listen_port,
            include_hubs: self.include_hubs,
            ignore,
            scan_interval_secs: self.scan_interval_secs,
            heartbeat_secs: self.heartbeat_secs,
            lost_after_secs: self.lost_after_secs,
        }
    }
}

} // verus!
