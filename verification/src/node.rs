//! Peer records and the liveness rule.
//!
//! Timestamps and time spans are counts of milliseconds; timestamps are taken
//! from the system clock as milliseconds since the Unix epoch.

use vstd::prelude::*;

pub use crate::address::{Address, Ipv4};

verus! {

/// Whether a peer is believed reachable.
#[derive(Clone, Copy, Debug, PartialEq, Eq, Structural)]
pub enum NodeStatus {
    Online,
    Offline,
}

/// A peer as this node knows it.
#[derive(Clone, Copy, Debug)]
pub struct Node {
    pub id: u32,
    pub addr: Address,
    pub status: NodeStatus,
    /// When the peer was last heard from.
    pub last_heartbeat: u64,
}

/// Time that has passed at `now` since `since`; zero if `since` lies ahead.
pub open spec fn elapsed(since: u64, now: u64) -> nat {
    if now >= since {
        (now - since) as nat
    } else {
        0
    }
}

/// The liveness rule, said of live peers: a peer is live at `now` exactly when
/// it is marked online and no more than `timeout` has passed since it was
/// last heard from.
pub proof fn lemma_live_rule(node: Node, timeout: u64, now: u64)
    ensures
        node.live_at(timeout, now) <==> node.status == NodeStatus::Online && elapsed(
            node.last_heartbeat,
            now,
        ) <= timeout,
{
}

/// `SystemTime::now`, as milliseconds since the Unix epoch (zero for a clock
/// set before it). Nothing is claimed of the value.
#[verifier::external_body]
fn unix_millis() -> u64 {
    match std::time::SystemTime::now().duration_since(std::time::UNIX_EPOCH) {
        Ok(since_epoch) => since_epoch.as_millis() as u64,
        Err(_) => 0,
    }
}

impl Node {
    /// The record of a peer first heard from at `now`.
    pub open spec fn fresh(id: u32, addr: Address, now: u64) -> Node {
        Node { id, addr, status: NodeStatus::Online, last_heartbeat: now }
    }

    /// The record after a sign of life at `now`.
    pub open spec fn touched(self, now: u64) -> Node {
        Node { status: NodeStatus::Online, last_heartbeat: now, ..self }
    }

    /// The record once the peer is given up as unreachable.
    pub open spec fn retired(self) -> Node {
        Node { status: NodeStatus::Offline, ..self }
    }

    /// The liveness rule: a peer is offline at `now` if it is marked so, or if
    /// more than `timeout` has passed since it was last heard from.
    pub open spec fn offline_at(self, timeout: u64, now: u64) -> bool {
        self.status == NodeStatus::Offline || elapsed(self.last_heartbeat, now) > timeout
    }

    /// A peer is live when it is not offline.
    pub open spec fn live_at(self, timeout: u64, now: u64) -> bool {
        !self.offline_at(timeout, now)
    }

    /// A peer first heard from now, by the system clock.
    pub fn new(id: u32, addr: Address) -> (node: Node)
        ensures
            exists|now: u64| node == Node::fresh(id, addr, now),
            node.id == id,
            node.addr == addr,
            node.status == NodeStatus::Online,
    {
        Node::new_at(id, addr, unix_millis())
    }

    /// A peer first heard from at `now`.
    pub fn new_at(id: u32, addr: Address, now: u64) -> (node: Node)
        ensures
            node == Node::fresh(id, addr, now),
    {
        Node { id, addr, status: NodeStatus::Online, last_heartbeat: now }
    }

    /// Whether the peer counts as offline now, by the system clock. The answer
    /// is that of [`Node::is_offline_at`] for the time that the clock showed.
    pub fn is_offline(&self, timeout: u64) -> (offline: bool)
        ensures
            exists|now: u64| offline == self.offline_at(timeout, now),
            self.status == NodeStatus::Offline ==> offline,
    {
        let now: u64 = unix_millis();
        self.is_offline_at(timeout, now)
    }

    /// Whether the peer counts as offline at `now`.
    pub fn is_offline_at(&self, timeout: u64, now: u64) -> (offline: bool)
        ensures
            offline == self.offline_at(timeout, now),
    {
        match self.status {
            NodeStatus::Offline => true,
            NodeStatus::Online => now >= self.last_heartbeat && now - self.last_heartbeat > timeout,
        }
    }

    /// Whether the peer counts as live at `now`.
    pub fn is_live_at(&self, timeout: u64, now: u64) -> (live: bool)
        ensures
            live == self.live_at(timeout, now),
    {
        !self.is_offline_at(timeout, now)
    }

    /// Records a sign of life now, by the system clock: the peer is online
    /// again whatever it was before.
    pub fn update_heartbeat(&mut self)
        ensures
            exists|now: u64| *final(self) == old(self).touched(now),
    {
        let now: u64 = unix_millis();
        self.update_heartbeat_at(now);
    }

    /// Records a sign of life at `now`.
    pub fn update_heartbeat_at(&mut self, now: u64)
        ensures
            *final(self) == old(self).touched(now),
    {
        self.last_heartbeat = now;
        self.status = NodeStatus::Online;
    }
}

impl PartialEq for Node {
    /// Two records name the same peer when identifier and address agree.
    fn eq(&self, other: &Self) -> (same: bool) {
        self.id == other.id && self.addr == other.addr
    }
}

impl Eq for Node {}

impl vstd::std_specs::cmp::PartialEqSpecImpl for Node {
    open spec fn obeys_eq_spec() -> bool {
        true
    }

    open spec fn eq_spec(&self, other: &Self) -> bool {
        self.id == other.id && self.addr == other.addr
    }
}

} // verus!
