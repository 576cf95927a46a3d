//! A gossip-style membership and dissemination engine.
//!
//! The crate holds the protocol's rules as verified code: the wire codec, the
//! peer table with its liveness tracking, the fanout selection and the
//! decisions of the heartbeat and receive paths. Sockets, timers and tasks are
//! left to the embedding program, which performs the datagram writes that the
//! functions here plan.

pub mod address;
pub mod buffer;
pub mod config;
pub mod constants;
pub mod error;
pub mod fanout;
pub mod message;
pub mod node;
pub mod peers;
pub mod protocol;
pub mod retry;
pub mod seeds;
pub mod text;
pub mod util;

pub use config::GossipConfig;

use vstd::prelude::*;
use vstd::utf8::encode_utf8;
use crate::address::{Address, ipv4_of, parse_ipv4};
use crate::error::GossipError;
use crate::node::{Node, NodeStatus};
use crate::peers::installed;
use crate::protocol::GossipProtocol;
use crate::util::{hash_node_name, name_hash};

verus! {

/// Sets a node up from its settings: its identifier is the hash of its name,
/// its address the configured IPv4 address and gossip port, and its table
/// holds the seed peers. Fails if the configured address is no IPv4 address
/// in dotted-quad form; the error carries the address as configured.
pub fn start(gossip_config: GossipConfig, seed_peers: Vec<Node>) -> (started: Result<
    GossipProtocol,
    GossipError,
>)
    ensures
        match started {
            Ok(node) => {
                &&& node.wf()
                &&& node.config() == gossip_config
                &&& node.local_node().id == name_hash(gossip_config.node_name@)
                &&& ipv4_of(encode_utf8(gossip_config.ip_address@)) == Some(
                    node.local_node().addr.ip,
                )
                &&& node.local_node().addr.port == gossip_config.gossip_port
                &&& node.local_node().status == NodeStatus::Online
                &&& node.peers()@ == installed(seed_peers@)
            },
            Err(e) => {
                &&& ipv4_of(encode_utf8(gossip_config.ip_address@)) is None
                &&& e matches GossipError::IpAddressError(text)
                &&& text@ == gossip_config.ip_address@
            },
        },
{
    let ip = match parse_ipv4(gossip_config.ip_address.as_str().as_bytes()) {
        Some(ip) => ip,
        None => {
            return Err(GossipError::IpAddressError(gossip_config.ip_address.clone()));
        },
    };
    let local = Node::new(
        hash_node_name(gossip_config.node_name.as_str()),
        Address { ip, port: gossip_config.gossip_port },
    );
    Ok(GossipProtocol::new(gossip_config, local, seed_peers))
}

} // verus!
