//! The protocol driver: what a node does on a heartbeat tick and on an
//! inbound datagram.
//!
//! The driver owns the node's settings, its own record, the peer table and the
//! random source. It performs no I/O: each step takes the event (a tick, a
//! datagram with its source, the time) and hands back the datagrams to write.
//! The embedding program runs the timers and sockets around these steps.

use rand::rngs::StdRng;
use vstd::prelude::*;
use crate::buffer::{Buffer, buffer_bytes};
use crate::config::GossipConfig;
use crate::constants::MAX_PAYLOAD_SIZE;
use crate::error::{CodecError, GossipError};
use crate::fanout::{
    draw_round, ids_of, is_draw, is_round, lemma_picked_is_round, live_share, os_rng, round_size,
    seeded_rng,
};
use crate::message::{
    GossipMessage, HEARTBEAT, MessageView, fits, heartbeat_view, lemma_heartbeat_fits,
    lemma_round_trip, parse, wire_form, wire_len,
};
use crate::node::{Address, Node};
use crate::peers::{PeerTable, installed, learned, live_ids, offline_ids, swept, touched};

verus! {

/// One datagram to write: the encoded message and the peer it goes to.
#[derive(Debug, PartialEq, Eq)]
pub struct Datagram {
    /// Identifier of the destination.
    pub peer: u32,
    /// Where to send the bytes.
    pub addr: Address,
    /// The encoded message.
    pub bytes: Buffer,
}

/// Why a datagram was dropped before it reached the protocol.
#[derive(Debug, Clone, Copy, PartialEq, Eq, Structural)]
pub enum DropReason {
    /// The datagram held no byte.
    Empty,
    /// The datagram was longer than [`MAX_PAYLOAD_SIZE`].
    Oversize,
    /// The datagram did not decode.
    Malformed(CodecError),
}

/// Where the handling of an inbound datagram ended.
#[derive(Debug, Clone, Copy, PartialEq, Eq, Structural)]
pub enum Outcome {
    /// The datagram was dropped; nothing changed.
    Dropped(DropReason),
    /// The message was taken in, and its time to live ended here.
    Expired,
    /// The message was taken in and a gossip round was made for it.
    Forwarded,
}

/// What the node does in answer to an inbound datagram.
#[derive(Debug)]
pub struct Reaction {
    pub outcome: Outcome,
    /// The message to hand to the application, if it is one for it.
    pub delivery: Option<GossipMessage>,
    /// The datagrams to write, in this order.
    pub outbound: Vec<Datagram>,
}

/// The identifiers given, as a set.
pub open spec fn barred(first: Option<u32>, second: Option<u32>) -> Set<u32> {
    Set::new(|id: u32| first == Some(id) || second == Some(id))
}

/// The destinations of `out`, in order.
pub open spec fn targets(out: Seq<Datagram>) -> Seq<u32> {
    Seq::new(out.len(), |i: int| out[i].peer)
}

/// Every datagram of `out` goes to the address that `peers` holds for its
/// destination and carries the bytes `wire`.
pub open spec fn carries(out: Seq<Datagram>, peers: Map<u32, Node>, wire: Seq<u8>) -> bool {
    forall|i: int|
        0 <= i < out.len() ==> {
            &&& peers.contains_key((#[trigger] out[i]).peer)
            &&& out[i].addr == peers[out[i].peer].addr
            &&& buffer_bytes(out[i].bytes) == wire
        }
}

/// What is checked of a datagram before the protocol sees it: it is neither
/// empty nor too long, and it decodes.
pub open spec fn admitted(datagram: Seq<u8>) -> Result<MessageView, DropReason> {
    if datagram.len() == 0 {
        Err(DropReason::Empty)
    } else if datagram.len() > MAX_PAYLOAD_SIZE {
        Err(DropReason::Oversize)
    } else {
        match parse(datagram) {
            Ok(m) => Ok(m),
            Err(e) => Err(DropReason::Malformed(e)),
        }
    }
}

/// The peer table after a message from `m.from_id` arrived from `src`: the
/// sender is known, and a heartbeat is a sign of life from it.
pub open spec fn taken_in(peers: Map<u32, Node>, m: MessageView, src: Address, now: u64) -> Map<
    u32,
    Node,
> {
    let known = learned(peers, m.from_id, src, now);
    if m.msg_type == HEARTBEAT@ {
        touched(known, m.from_id, now)
    } else {
        known
    }
}

/// The message as the next hop sees it: one hop less to live.
pub open spec fn next_hop(m: MessageView) -> MessageView {
    MessageView { ttl: (m.ttl - 1) as u8, ..m }
}

/// Traffic from other peers leaves a peer's record as it is.
pub proof fn lemma_other_traffic_keeps_record(
    peers: Map<u32, Node>,
    m: MessageView,
    src: Address,
    now: u64,
    id: u32,
)
    requires
        peers.contains_key(id),
        m.from_id != id,
    ensures
        taken_in(peers, m, src, now).contains_key(id),
        taken_in(peers, m, src, now)[id] == peers[id],
{
}

/// A heartbeat makes its sender a live peer: after it the sender is known,
/// online and last heard from at the time of arrival.
pub proof fn lemma_heartbeat_revives(peers: Map<u32, Node>, m: MessageView, src: Address, now: u64)
    requires
        m.msg_type == HEARTBEAT@,
    ensures
        taken_in(peers, m, src, now).contains_key(m.from_id),
        taken_in(peers, m, src, now)[m.from_id].status == crate::node::NodeStatus::Online,
        taken_in(peers, m, src, now)[m.from_id].last_heartbeat == now,
        !peers.contains_key(m.from_id) ==> taken_in(peers, m, src, now)[m.from_id] == Node::fresh(
            m.from_id,
            src,
            now,
        ),
{
}

/// The state of a gossip node.
pub struct GossipProtocol {
    config: GossipConfig,
    local_node: Node,
    peers: PeerTable,
    rng: StdRng,
}

impl GossipProtocol {
    /// The settings, in contracts.
    pub closed spec fn spec_config(&self) -> &GossipConfig {
        &self.config
    }

    /// This node's own record, in contracts.
    pub closed spec fn spec_local_node(&self) -> &Node {
        &self.local_node
    }

    /// The peer table, in contracts.
    pub closed spec fn spec_peers(&self) -> &PeerTable {
        &self.peers
    }

    /// The driver's invariant: the peer table is well formed and applies the
    /// configured offline timeout.
    pub open spec fn wf(&self) -> bool {
        self.peers().wf() && self.peers().timeout() == self.config().offline_timeout
    }

    /// Settings, own record and peer table are those of `other`.
    pub open spec fn same_state(&self, other: &Self) -> bool {
        &&& self.config() == other.config()
        &&& self.local_node() == other.local_node()
        &&& self.peers() == other.peers()
    }

    /// Settings and own record are those of `other`.
    pub open spec fn same_node(&self, other: &Self) -> bool {
        &&& self.config() == other.config()
        &&& self.local_node() == other.local_node()
        &&& self.peers().timeout() == other.peers().timeout()
    }

    /// Peers that a round may reach as live destinations: live at `now`, not
    /// this node, not the excluded peer.
    pub open spec fn live_candidates(&self, exclude_id: Option<u32>, now: u64) -> Set<u32> {
        live_ids(
            self.peers()@,
            self.config().offline_timeout,
            now,
            barred(Some(self.local_node().id), exclude_id),
        )
    }

    /// Peers that a round may probe: offline at `now`, not the excluded peer.
    pub open spec fn offline_candidates(&self, exclude_id: Option<u32>, now: u64) -> Set<u32> {
        offline_ids(self.peers()@, self.config().offline_timeout, now, barred(None, exclude_id))
    }

    /// Number of destinations of a round at `now`.
    pub open spec fn round_size(&self, exclude_id: Option<u32>, now: u64) -> nat {
        round_size(
            self.live_candidates(exclude_id, now),
            self.offline_candidates(exclude_id, now),
            self.config().fanout as nat,
        )
    }

    /// `ids` are the destinations of a round at `now`.
    pub open spec fn is_round(&self, ids: Seq<u32>, exclude_id: Option<u32>, now: u64) -> bool {
        is_round(
            ids,
            self.live_candidates(exclude_id, now),
            self.offline_candidates(exclude_id, now),
            self.config().fanout as nat,
        )
    }

    /// `out` is a round at `now` that carries `m` to each destination.
    pub open spec fn is_plan(
        &self,
        out: Seq<Datagram>,
        m: MessageView,
        exclude_id: Option<u32>,
        now: u64,
    ) -> bool {
        self.is_round(targets(out), exclude_id, now) && carries(out, self.peers()@, wire_form(m))
    }

    /// `out` is what forwarding `m` at `now` emits: nothing for a message
    /// whose time to live ends here, else a round that carries the message
    /// with one hop less and leaves out the originator. A message too large
    /// to encode is not sent.
    pub open spec fn is_forwarding(&self, out: Seq<Datagram>, m: MessageView, now: u64) -> bool {
        if m.ttl <= 1 || !fits(m) {
            out.len() == 0
        } else {
            self.is_plan(out, next_hop(m), Some(m.from_id), now)
        }
    }

    /// `post` and `reaction` are what handling `m` from `src` at `now` makes
    /// of the state `self`.
    pub open spec fn handles(
        &self,
        post: &Self,
        reaction: Reaction,
        m: MessageView,
        src: Address,
        now: u64,
    ) -> bool {
        &&& post.wf()
        &&& post.same_node(self)
        &&& post.peers()@ == taken_in(self.peers()@, m, src, now)
        &&& if m.msg_type == HEARTBEAT@ {
            reaction.delivery is None
        } else {
            reaction.delivery matches Some(delivered) && delivered@ == m
        }
        &&& reaction.outcome == (if m.ttl <= 1 {
            Outcome::Expired
        } else {
            Outcome::Forwarded
        })
        &&& post.is_forwarding(reaction.outbound@, m, now)
    }

    /// Loop suppression: a round reaches neither the excluded peer nor, among
    /// its live destinations, this node itself. The rescue probe goes to an
    /// offline peer other than the excluded one; it is this node's own
    /// identifier only if the table holds an offline record under it.
    pub proof fn lemma_round_avoids(&self, ids: Seq<u32>, exclude_id: Option<u32>, now: u64)
        requires
            self.is_round(ids, exclude_id, now),
        ensures
            forall|i: int| 0 <= i < ids.len() ==> exclude_id != Some(ids[i]),
            forall|i: int|
                0 <= i < live_share(
                    self.live_candidates(exclude_id, now).len(),
                    self.config().fanout as nat,
                ) ==> ids[i] != self.local_node().id,
            !self.offline_candidates(exclude_id, now).contains(self.local_node().id) ==> forall|
                i: int,
            |
                0 <= i < ids.len() ==> ids[i] != self.local_node().id,
    {
        let live = self.live_candidates(exclude_id, now);
        let offline = self.offline_candidates(exclude_id, now);
        let k = live_share(live.len(), self.config().fanout as nat) as int;
        assert forall|i: int| 0 <= i < ids.len() implies exclude_id != Some(ids[i]) by {
            if i < k {
                assert(live.contains(ids[i]));
            } else {
                assert(offline.contains(ids[k]));
            }
        }
        assert forall|i: int| 0 <= i < k implies ids[i] != self.local_node().id by {
            assert(live.contains(ids[i]));
        }
    }

    /// With at least `fanout` live candidates, a round has exactly `fanout`
    /// live destinations, no peer twice, and at most one destination more:
    /// the rescue probe, which goes to an offline peer.
    pub proof fn lemma_full_round(&self, ids: Seq<u32>, exclude_id: Option<u32>, now: u64)
        requires
            self.is_round(ids, exclude_id, now),
            self.live_candidates(exclude_id, now).len() >= self.config().fanout,
        ensures
            self.config().fanout <= ids.len() <= self.config().fanout + 1,
            forall|i: int|
                0 <= i < self.config().fanout ==> self.live_candidates(exclude_id, now).contains(
                    ids[i],
                ),
            forall|i: int, j: int| 0 <= i < j < self.config().fanout ==> ids[i] != ids[j],
            ids.len() == self.config().fanout + 1 ==> self.offline_candidates(
                exclude_id,
                now,
            ).contains(ids[self.config().fanout as int]),
    {
    }

    /// A peer that has been silent for longer than the offline timeout is no
    /// live candidate of any round.
    pub proof fn lemma_silence_ends_liveness(&self, id: u32, exclude_id: Option<u32>, now: u64)
        requires
            self.peers()@.contains_key(id),
            crate::node::elapsed(self.peers()@[id].last_heartbeat, now)
                > self.config().offline_timeout,
        ensures
            !self.live_candidates(exclude_id, now).contains(id),
    {
    }

    /// What is forwarded is the message received, with its originator kept and
    /// one hop less to live: that is what every datagram of the round decodes
    /// to.
    pub proof fn lemma_forwarding_keeps_origin(
        &self,
        out: Seq<Datagram>,
        m: MessageView,
        now: u64,
        i: int,
    )
        requires
            self.is_forwarding(out, m, now),
            0 <= i < out.len(),
        ensures
            m.ttl > 1,
            parse(buffer_bytes(out[i].bytes)) == Ok::<MessageView, CodecError>(next_hop(m)),
            next_hop(m).from_id == m.from_id,
            next_hop(m).ttl == m.ttl - 1,
            out[i].peer != m.from_id,
    {
        assert(wire_len(next_hop(m)) == wire_len(m));
        lemma_round_trip(next_hop(m));
        self.lemma_round_avoids(targets(out), Some(m.from_id), now);
        assert(targets(out)[i] == out[i].peer);
    }

    /// A message that arrives with no hop left, or with its last, is not
    /// passed on: forwarding it emits nothing.
    pub proof fn lemma_expired_is_not_forwarded(&self, out: Seq<Datagram>, m: MessageView, now: u64)
        requires
            self.is_forwarding(out, m, now),
            m.ttl <= 1,
        ensures
            out.len() == 0,
    {
    }

    /// The settings.
    #[verifier::when_used_as_spec(spec_config)]
    pub fn config(&self) -> (config: &GossipConfig)
        ensures
            config == self.spec_config(),
    {
        &self.config
    }

    /// This node's own record.
    #[verifier::when_used_as_spec(spec_local_node)]
    pub fn local_node(&self) -> (node: &Node)
        ensures
            node == self.spec_local_node(),
    {
        &self.local_node
    }

    /// The peer table.
    #[verifier::when_used_as_spec(spec_peers)]
    pub fn peers(&self) -> (peers: &PeerTable)
        ensures
            peers == self.spec_peers(),
    {
        &self.peers
    }

    /// A node with the seed peers installed in its table and a random source
    /// seeded by the operating system. Where the system has no entropy to
    /// give, the source is seeded with the node's identifier.
    pub fn new(config: GossipConfig, local_node: Node, seed_peers: Vec<Node>) -> (node: Self)
        ensures
            node.wf(),
            node.config() == config,
            node.local_node() == local_node,
            node.peers()@ == installed(seed_peers@),
    {
        let rng = match os_rng() {
            Some(rng) => rng,
            None => seeded_rng(local_node.id as u64),
        };
        let peers = PeerTable::from_seeds(&seed_peers, config.offline_timeout);
        GossipProtocol { config, local_node, peers, rng }
    }

    /// A node with the seed peers installed in its table and a random source
    /// whose draws are fixed by `seed`.
    pub fn with_seed(config: GossipConfig, local_node: Node, seed_peers: Vec<Node>, seed: u64) -> (node:
        Self)
        ensures
            node.wf(),
            node.config() == config,
            node.local_node() == local_node,
            node.peers()@ == installed(seed_peers@),
    {
        let peers = PeerTable::from_seeds(&seed_peers, config.offline_timeout);
        GossipProtocol { config, local_node, peers, rng: seeded_rng(seed) }
    }

    /// Draws the destinations of a round at `now`: a random sample of the live
    /// peers other than this node and `exclude_id`, as many as the fanout
    /// allows, then one of the offline peers other than `exclude_id` if there
    /// is any. Only the random source changes.
    pub fn select_peers(&mut self, exclude_id: Option<u32>, now: u64) -> (chosen: Vec<Node>)
        requires
            old(self).wf(),
        ensures
            final(self).same_state(old(self)),
            old(self).is_round(ids_of(chosen@), exclude_id, now),
            forall|i: int|
                0 <= i < chosen@.len() ==> old(self).peers()@.contains_key(
                    (#[trigger] chosen@[i]).id,
                ) && old(self).peers()@[chosen@[i].id] == chosen@[i],
    {
        let mut not_live: Vec<u32> = Vec::new();
        not_live.push(self.local_node.id);
        let mut not_offline: Vec<u32> = Vec::new();
        match exclude_id {
            Some(id) => {
                not_live.push(id);
                not_offline.push(id);
            },
            None => {},
        }
        proof {
            assert(not_live@.to_set() =~= barred(Some(self.local_node.id), exclude_id)) by {
                assert(not_live@[0] == self.local_node.id);
                if exclude_id is Some {
                    assert(not_live@[1] == exclude_id->0);
                }
            }
            assert(not_offline@.to_set() =~= barred(None, exclude_id)) by {
                if exclude_id is Some {
                    assert(not_offline@[0] == exclude_id->0);
                }
            }
        }
        let live = self.peers.snapshot_live(not_live.as_slice(), now);
        let offline = self.peers.snapshot_offline(not_offline.as_slice(), now);
        let chosen = draw_round(&mut self.rng, &live, &offline, self.config.fanout);
        proof {
            let (live_picks, rescue_picks) = choose|live_picks: Seq<usize>, rescue_picks: Seq<usize>|
                is_draw(
                    chosen@,
                    live@,
                    offline@,
                    self.config.fanout as nat,
                    live_picks,
                    rescue_picks,
                );
            lemma_picked_is_round(
                self.peers@,
                live@,
                old(self).live_candidates(exclude_id, now),
                live_picks,
                offline@,
                old(self).offline_candidates(exclude_id, now),
                rescue_picks,
                self.config.fanout as nat,
            );
            let k = live_share(live@.len(), self.config.fanout as nat) as int;
            assert forall|i: int| 0 <= i < chosen@.len() implies old(self).peers()@.contains_key(
                (#[trigger] chosen@[i]).id,
            ) by {
                assert(ids_of(chosen@)[i] == chosen@[i].id);
                if i < k {
                    assert(old(self).live_candidates(exclude_id, now).contains(ids_of(chosen@)[i]));
                } else {
                    assert(i == k);
                    assert(old(self).offline_candidates(exclude_id, now).contains(
                        ids_of(chosen@)[k],
                    ));
                }
            }
        }
        chosen
    }

    /// The addresses of a round at `now`, drawn as [`Self::select_peers`]
    /// draws its destinations.
    pub fn gossip_addresses(&mut self, exclude_id: Option<u32>, now: u64) -> (addresses: Vec<
        Address,
    >)
        requires
            old(self).wf(),
        ensures
            final(self).same_state(old(self)),
            exists|ids: Seq<u32>|
                #[trigger] old(self).is_round(ids, exclude_id, now) && addresses@.len() == ids.len()
                    && forall|i: int|
                    0 <= i < ids.len() ==> old(self).peers()@.contains_key(ids[i]) && addresses@[i]
                        == old(self).peers()@[ids[i]].addr,
    {
        let chosen = self.select_peers(exclude_id, now);
        let mut addresses: Vec<Address> = Vec::new();
        let mut i: usize = 0;
        while i < chosen.len()
            invariant
                i <= chosen.len(),
                addresses@.len() == i,
                forall|j: int| 0 <= j < i ==> addresses@[j] == chosen@[j].addr,
            decreases chosen.len() - i,
        {
            addresses.push(chosen[i].addr);
            i += 1;
        }
        proof {
            let ids = ids_of(chosen@);
            assert(old(self).is_round(ids, exclude_id, now));
            assert forall|i: int| 0 <= i < ids.len() implies old(self).peers()@.contains_key(ids[i])
                && addresses@[i] == old(self).peers()@[ids[i]].addr by {
                assert(ids[i] == chosen@[i].id);
            }
        }
        addresses
    }

    /// Plans one gossip round for `msg` at `now`: the message is encoded once
    /// for each destination that [`Self::select_peers`] draws. The round
    /// fails, with nothing to send, exactly when there is a destination and
    /// the message does not fit in a datagram.
    pub fn gossip(&mut self, msg: &GossipMessage, exclude_id: Option<u32>, now: u64) -> (sent: Result<
        Vec<Datagram>,
        GossipError,
    >)
        requires
            old(self).wf(),
        ensures
            final(self).same_state(old(self)),
            sent is Err <==> old(self).round_size(exclude_id, now) > 0 && !fits(msg@),
            sent matches Ok(out) ==> old(self).is_plan(out@, msg@, exclude_id, now),
            sent matches Err(e) ==> e == GossipError::Serialization(CodecError::BufferFull),
    {
        let chosen = self.select_peers(exclude_id, now);
        let mut out: Vec<Datagram> = Vec::new();
        let mut i: usize = 0;
        while i < chosen.len()
            invariant
                i <= chosen.len(),
                self.same_state(old(self)),
                old(self).is_round(ids_of(chosen@), exclude_id, now),
                forall|j: int|
                    0 <= j < chosen@.len() ==> {
                        &&& old(self).peers()@.contains_key((#[trigger] chosen@[j]).id)
                        &&& old(self).peers()@[chosen@[j].id] == chosen@[j]
                    },
                out@.len() == i,
                i > 0 ==> fits(msg@),
                forall|j: int|
                    0 <= j < i ==> {
                        &&& (#[trigger] out@[j]).peer == chosen@[j].id
                        &&& out@[j].addr == chosen@[j].addr
                        &&& buffer_bytes(out@[j].bytes) == wire_form(msg@)
                    },
            decreases chosen.len() - i,
        {
            let peer = chosen[i];
            match msg.serialize() {
                Ok(bytes) => {
                    out.push(Datagram { peer: peer.id, addr: peer.addr, bytes });
                },
                Err(e) => {
                    return Err(GossipError::Serialization(e));
                },
            }
            i += 1;
        }
        proof {
            assert(targets(out@) =~= ids_of(chosen@));
            assert forall|j: int| 0 <= j < out@.len() implies {
                &&& old(self).peers()@.contains_key((#[trigger] out@[j]).peer)
                &&& out@[j].addr == old(self).peers()@[out@[j].peer].addr
                &&& buffer_bytes(out@[j].bytes) == wire_form(msg@)
            } by {
                assert(old(self).peers()@[chosen@[j].id] == chosen@[j]);
            }
        }
        Ok(out)
    }

    /// Plans the heartbeat round of a tick at `now`: a heartbeat of this node
    /// with the configured time to live, to a round that excludes nobody.
    pub fn heartbeat(&mut self, now: u64) -> (out: Vec<Datagram>)
        requires
            old(self).wf(),
        ensures
            final(self).same_state(old(self)),
            old(self).is_plan(
                out@,
                heartbeat_view(old(self).local_node().id, old(self).config().message_ttl),
                None,
                now,
            ),
    {
        let msg = GossipMessage::heartbeat(self.local_node.id, Some(self.config.message_ttl));
        proof {
            lemma_heartbeat_fits(self.local_node.id, self.config.message_ttl);
        }
        match self.gossip(&msg, None, now) {
            Ok(out) => out,
            Err(_) => Vec::new(),
        }
    }

    /// Passes a received message on at `now`. A message with at most one hop
    /// left ends here and nothing is sent. Otherwise the message goes, with
    /// one hop less, to a round that leaves out its originator.
    pub fn forward(&mut self, msg: &GossipMessage, now: u64) -> (out: Vec<Datagram>)
        requires
            old(self).wf(),
        ensures
            final(self).same_state(old(self)),
            old(self).is_forwarding(out@, msg@, now),
    {
        if msg.ttl <= 1 {
            return Vec::new();
        }
        let mut hop = msg.clone();
        hop.ttl = msg.ttl - 1;
        proof {
            assert(hop@ =~= next_hop(msg@));
            assert(wire_len(hop@) == wire_len(msg@));
        }
        match self.gossip(&hop, Some(msg.from_id), now) {
            Ok(out) => {
                proof {
                    if !fits(msg@) {
                        assert(old(self).round_size(Some(msg.from_id), now) == 0);
                        assert(targets(out@).len() == 0);
                    }
                }
                out
            },
            Err(_) => Vec::new(),
        }
    }

    /// Takes in a decoded message that arrived from `src` at `now`: the sender
    /// enters the peer table if it is new, a heartbeat refreshes it, any other
    /// message is handed back for the application, and the message is
    /// forwarded.
    pub fn handle_message(&mut self, msg: GossipMessage, src: Address, now: u64) -> (reaction:
        Reaction)
        requires
            old(self).wf(),
        ensures
            old(self).handles(final(self), reaction, msg@, src, now),
    {
        self.peers.learn(msg.from_id, src, now);
        let heartbeat = msg.is_heartbeat();
        if heartbeat {
            self.peers.touch(msg.from_id, now);
        }
        let outbound = self.forward(&msg, now);
        let outcome = if msg.ttl <= 1 {
            Outcome::Expired
        } else {
            Outcome::Forwarded
        };
        let delivery = if heartbeat {
            None
        } else {
            Some(msg)
        };
        Reaction { outcome, delivery, outbound }
    }

    /// Handles one inbound datagram that arrived from `src` at `now`. An
    /// empty, an oversized and a malformed datagram are dropped and change
    /// nothing; any other is decoded and handled as
    /// [`Self::handle_message`] does.
    pub fn receive(&mut self, datagram: &[u8], src: Address, now: u64) -> (reaction: Reaction)
        requires
            old(self).wf(),
        ensures
            match admitted(datagram@) {
                Ok(m) => old(self).handles(final(self), reaction, m, src, now),
                Err(reason) => {
                    &&& *final(self) == *old(self)
                    &&& reaction.outcome == Outcome::Dropped(reason)
                    &&& reaction.delivery is None
                    &&& reaction.outbound@.len() == 0
                },
            },
    {
        if datagram.len() == 0 {
            return Reaction {
                outcome: Outcome::Dropped(DropReason::Empty),
                delivery: None,
                outbound: Vec::new(),
            };
        }
        if datagram.len() > MAX_PAYLOAD_SIZE {
            return Reaction {
                outcome: Outcome::Dropped(DropReason::Oversize),
                delivery: None,
                outbound: Vec::new(),
            };
        }
        match GossipMessage::deserialize(datagram) {
            Ok(msg) => self.handle_message(msg, src, now),
            Err(e) => Reaction {
                outcome: Outcome::Dropped(DropReason::Malformed(e)),
                delivery: None,
                outbound: Vec::new(),
            },
        }
    }

    /// Sweeps the peer table at `now`: every peer that has been silent for
    /// more than the offline timeout is marked offline.
    pub fn mark_stale_offline(&mut self, now: u64)
        requires
            old(self).wf(),
        ensures
            final(self).wf(),
            final(self).same_node(old(self)),
            final(self).peers()@ == swept(old(self).peers()@, old(self).config().offline_timeout, now),
    {
        self.peers.mark_stale_offline(now);
    }
}

} // verus!
