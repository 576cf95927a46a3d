//! Settings of a gossip node. Time spans are in milliseconds.

use vstd::prelude::*;

verus! {

/// Settings of a gossip node, fixed once the node runs.
#[derive(Debug, Clone)]
pub struct GossipConfig {
    /// Time between heartbeats.
    pub heartbeat_interval: u64,
    /// Time between gossip rounds; no round is driven by it yet.
    pub gossip_interval: u64,
    /// Silence after which a peer counts as offline.
    pub offline_timeout: u64,
    /// Number of live peers to gossip with per round.
    pub fanout: usize,
    /// Port to listen on for gossip.
    pub gossip_port: u16,
    /// Hops that a message originated here may travel.
    pub message_ttl: u8,
    /// Prefix for node names.
    pub prefix: String,
    /// IPv4 address to listen on for gossip.
    pub ip_address: String,
    /// Node name.
    pub node_name: String,
}

impl Default for GossipConfig {
    /// Heartbeats every second, gossip rounds every two, peers offline after
    /// ten seconds of silence, fanout 4, port 42069, three hops.
    fn default() -> (config: GossipConfig)
        ensures
            config.heartbeat_interval == 1000,
            config.gossip_interval == 2000,
            config.offline_timeout == 10000,
            config.fanout == 4,
            config.gossip_port == 42069,
            config.message_ttl == 3,
            config.prefix@ == "ht"@,
            config.ip_address@ == "127.0.0.1"@,
            config.node_name@ == ""@,
    {
        GossipConfig {
            gossip_port: 42069,
            heartbeat_interval: 1000,
            gossip_interval: 2000,
            offline_timeout: 10000,
            fanout: 4,
            message_ttl: 3,
            prefix: "ht".to_owned(),
            ip_address: "127.0.0.1".to_owned(),
            node_name: "".to_owned(),
        }
    }
}

} // verus!
