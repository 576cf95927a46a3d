//! The peer table: what this node knows of the others.
//!
//! The table maps a node identifier to the record of that peer. Its model is a
//! `Map<u32, Node>`; the functions at the head of this file say, on that
//! model, what each operation does. Peers are never removed: one that fell
//! silent stays known, so that it can be probed and can come back.

use std::collections::HashMap;
use vstd::prelude::*;
use vstd::std_specs::iter::IteratorSpec;
use crate::node::{Address, Node, NodeStatus, elapsed};

verus! {

broadcast use vstd::std_specs::hash::group_hash_axioms;

/// Every record is filed under its own identifier.
pub open spec fn keyed_by_id(peers: Map<u32, Node>) -> bool {
    forall|id: u32| peers.contains_key(id) ==> (#[trigger] peers[id]).id == id
}

/// The table after `id` was heard from at `addr`: a new sender enters it, a
/// known one stays as it was.
pub open spec fn learned(peers: Map<u32, Node>, id: u32, addr: Address, now: u64) -> Map<
    u32,
    Node,
> {
    if peers.contains_key(id) {
        peers
    } else {
        peers.insert(id, Node::fresh(id, addr, now))
    }
}

/// The table after a sign of life from `id`: a known peer is online and was
/// last heard from at `now`; an unknown one changes nothing.
pub open spec fn touched(peers: Map<u32, Node>, id: u32, now: u64) -> Map<u32, Node> {
    if peers.contains_key(id) {
        peers.insert(id, peers[id].touched(now))
    } else {
        peers
    }
}

/// The table after `node` replaces what was known of its identifier, as a
/// record that was heard from at `now`.
pub open spec fn upserted(peers: Map<u32, Node>, node: Node, now: u64) -> Map<u32, Node> {
    peers.insert(node.id, node.touched(now))
}

/// The table after a sweep at `now`: peers silent for more than `timeout` are
/// offline, the others are as they were.
pub open spec fn swept(peers: Map<u32, Node>, timeout: u64, now: u64) -> Map<u32, Node> {
    Map::new(
        |id: u32| peers.contains_key(id),
        |id: u32|
            if elapsed(peers[id].last_heartbeat, now) > timeout {
                peers[id].retired()
            } else {
                peers[id]
            },
    )
}

/// The table that holds the records of `seeds`, a later record replacing an
/// earlier one with the same identifier.
pub open spec fn installed(seeds: Seq<Node>) -> Map<u32, Node>
    decreases seeds.len(),
{
    if seeds.len() == 0 {
        Map::empty()
    } else {
        installed(seeds.drop_last()).insert(seeds.last().id, seeds.last())
    }
}

/// Identifiers of the peers that are live at `now`, without the excluded ones.
pub open spec fn live_ids(peers: Map<u32, Node>, timeout: u64, now: u64, excluded: Set<u32>) -> Set<
    u32,
> {
    Set::new(
        |id: u32|
            peers.contains_key(id) && peers[id].live_at(timeout, now) && !excluded.contains(id),
    )
}

/// Identifiers of the peers that are offline at `now`, without the excluded
/// ones.
pub open spec fn offline_ids(
    peers: Map<u32, Node>,
    timeout: u64,
    now: u64,
    excluded: Set<u32>,
) -> Set<u32> {
    Set::new(
        |id: u32|
            peers.contains_key(id) && peers[id].offline_at(timeout, now) && !excluded.contains(id),
    )
}

/// `out` lists the records that `peers` holds for `ids`: each of them once,
/// in some order, and nothing else.
pub open spec fn lists(out: Seq<Node>, peers: Map<u32, Node>, ids: Set<u32>) -> bool {
    &&& out.len() == ids.len()
    &&& forall|i: int|
        0 <= i < out.len() ==> ids.contains(#[trigger] out[i].id) && peers[out[i].id] == out[i]
    &&& forall|i: int, j: int| 0 <= i < j < out.len() ==> out[i].id != out[j].id
    &&& forall|id: u32| ids.contains(id) ==> exists|i: int| 0 <= i < out.len() && out[i].id == id
}

/// Installing seeds files every record under its own identifier, in a finite
/// table.
pub proof fn lemma_installed_keyed(seeds: Seq<Node>)
    ensures
        keyed_by_id(installed(seeds)),
        installed(seeds).dom().finite(),
    decreases seeds.len(),
{
    if seeds.len() > 0 {
        lemma_installed_keyed(seeds.drop_last());
    }
}

/// No operation forgets a peer: whoever is known stays known, under the same
/// identifier and at the same place in the table.
pub proof fn lemma_peers_stay_known(
    peers: Map<u32, Node>,
    id: u32,
    other: u32,
    addr: Address,
    node: Node,
    timeout: u64,
    now: u64,
)
    requires
        peers.contains_key(id),
    ensures
        learned(peers, other, addr, now).contains_key(id),
        touched(peers, other, now).contains_key(id),
        upserted(peers, node, now).contains_key(id),
        swept(peers, timeout, now).contains_key(id),
        keyed_by_id(peers) ==> keyed_by_id(learned(peers, other, addr, now)) && keyed_by_id(
            touched(peers, other, now),
        ) && keyed_by_id(upserted(peers, node, now)) && keyed_by_id(swept(peers, timeout, now)),
{
}

/// A peer that has been silent for longer than the timeout is not live at
/// `now`, so no listing of the live peers holds it.
pub proof fn lemma_silent_peer_not_listed(
    peers: Map<u32, Node>,
    timeout: u64,
    now: u64,
    excluded: Set<u32>,
    out: Seq<Node>,
    id: u32,
)
    requires
        peers.contains_key(id),
        elapsed(peers[id].last_heartbeat, now) > timeout,
        lists(out, peers, live_ids(peers, timeout, now, excluded)),
    ensures
        !live_ids(peers, timeout, now, excluded).contains(id),
        forall|i: int| 0 <= i < out.len() ==> out[i].id != id,
{
}

/// A sweep leaves every live peer as it is, and what it marks offline was
/// offline by the liveness rule already: it changes no answer of that rule.
pub proof fn lemma_sweep_keeps_liveness(peers: Map<u32, Node>, timeout: u64, now: u64, id: u32)
    requires
        peers.contains_key(id),
    ensures
        swept(peers, timeout, now).contains_key(id),
        swept(peers, timeout, now)[id].offline_at(timeout, now) == peers[id].offline_at(timeout, now),
        peers[id].live_at(timeout, now) ==> swept(peers, timeout, now)[id] == peers[id],
        elapsed(peers[id].last_heartbeat, now) > timeout ==> swept(peers, timeout, now)[id].status
            == NodeStatus::Offline,
{
}

/// A list of records without repeated identifiers that covers `ids` exactly
/// is as long as `ids` is large.
proof fn lemma_listing_len(out: Seq<Node>, ids: Set<u32>)
    requires
        forall|i: int| 0 <= i < out.len() ==> ids.contains(#[trigger] out[i].id),
        forall|i: int, j: int| 0 <= i < j < out.len() ==> out[i].id != out[j].id,
        forall|id: u32| ids.contains(id) ==> exists|i: int| 0 <= i < out.len() && out[i].id == id,
    ensures
        out.len() == ids.len(),
        ids.finite(),
{
    let keys = out.map_values(|n: Node| n.id);
    assert forall|i: int, j: int| 0 <= i < keys.len() && 0 <= j < keys.len() && i != j implies keys[i]
        != keys[j] by {
        if i < j {
            assert(out[i].id != out[j].id);
        } else {
            assert(out[j].id != out[i].id);
        }
    }
    keys.unique_seq_to_set();
    assert forall|id: u32| keys.to_set().contains(id) == ids.contains(id) by {
        if ids.contains(id) {
            let i = choose|i: int| 0 <= i < out.len() && out[i].id == id;
            assert(keys[i] == id);
        }
        if keys.to_set().contains(id) {
            let i = choose|i: int| 0 <= i < keys.len() && keys[i] == id;
            assert(ids.contains(out[i].id));
        }
    }
    assert(keys.to_set() =~= ids);
}

/// The keys of `nodes`, each once, in the order in which the map hands them
/// out.
fn key_list(nodes: &HashMap<u32, Node>) -> (keys: Vec<u32>)
    ensures
        keys@.no_duplicates(),
        keys@.to_set() == nodes@.dom(),
{
    let mut keys: Vec<u32> = Vec::new();
    let ghost handed_out = vstd::std_specs::hash::spec_keys_iter(nodes).remaining();
    for key in it: nodes.keys()
        invariant
            it.seq() == handed_out,
            keys@.len() == it.index(),
            forall|i: int| 0 <= i < keys@.len() ==> keys@[i] == *handed_out[i],
    {
        keys.push(*key);
    }
    proof {
        assert(keys@ =~= handed_out.unref());
        assert forall|i: int, j: int| 0 <= i < j < keys@.len() implies keys@[i] != keys@[j] by {
            assert(handed_out[i] != handed_out[j]);
        }
    }
    keys
}

/// Whether `id` occurs in `ids`.
fn occurs(ids: &[u32], id: u32) -> (found: bool)
    ensures
        found == ids@.to_set().contains(id),
{
    let mut i: usize = 0;
    while i < ids.len()
        invariant
            i <= ids.len(),
            forall|j: int| 0 <= j < i ==> ids@[j] != id,
        decreases ids.len() - i,
    {
        if ids[i] == id {
            return true;
        }
        i += 1;
    }
    false
}

/// What this node knows of its peers.
pub struct PeerTable {
    nodes: HashMap<u32, Node>,
    offline_timeout: u64,
}

impl View for PeerTable {
    type V = Map<u32, Node>;

    closed spec fn view(&self) -> Map<u32, Node> {
        self.nodes@
    }
}

impl PeerTable {
    /// Silence after which a peer counts as offline.
    pub closed spec fn timeout(&self) -> u64 {
        self.offline_timeout
    }

    /// The table's invariant: finitely many records, each filed under its own
    /// identifier.
    pub open spec fn wf(&self) -> bool {
        keyed_by_id(self@) && self@.dom().finite()
    }

    /// A table that knows no peer.
    pub fn new(offline_timeout: u64) -> (table: PeerTable)
        ensures
            table.wf(),
            table@ == Map::<u32, Node>::empty(),
            table.timeout() == offline_timeout,
    {
        PeerTable { nodes: HashMap::new(), offline_timeout }
    }

    /// A table that holds the seed peers, a later seed replacing an earlier
    /// one with the same identifier.
    pub fn from_seeds(seeds: &Vec<Node>, offline_timeout: u64) -> (table: PeerTable)
        ensures
            table.wf(),
            table@ == installed(seeds@),
            table.timeout() == offline_timeout,
    {
        let mut nodes: HashMap<u32, Node> = HashMap::new();
        let mut i: usize = 0;
        while i < seeds.len()
            invariant
                i <= seeds.len(),
                nodes@ == installed(seeds@.take(i as int)),
            decreases seeds.len() - i,
        {
            proof {
                assert(seeds@.take(i + 1).drop_last() =~= seeds@.take(i as int));
            }
            let seed = seeds[i];
            nodes.insert(seed.id, seed);
            i += 1;
        }
        proof {
            assert(seeds@.take(i as int) =~= seeds@);
            lemma_installed_keyed(seeds@);
        }
        PeerTable { nodes, offline_timeout }
    }

    /// Number of peers known.
    pub fn len(&self) -> (n: usize)
        ensures
            n == self@.dom().len(),
    {
        self.nodes.len()
    }

    /// The record of peer `id`, if it is known.
    pub fn get(&self, id: u32) -> (found: Option<Node>)
        ensures
            found == (if self@.contains_key(id) {
                Some(self@[id])
            } else {
                None
            }),
    {
        match self.nodes.get(&id) {
            Some(node) => Some(*node),
            None => None,
        }
    }

    /// Notes that `id` was heard from at `addr`: an unknown sender enters the
    /// table as an online peer last heard from at `now`; a known one is left
    /// as it is.
    pub fn learn(&mut self, id: u32, addr: Address, now: u64)
        requires
            old(self).wf(),
        ensures
            final(self).wf(),
            final(self)@ == learned(old(self)@, id, addr, now),
            final(self).timeout() == old(self).timeout(),
    {
        if !self.nodes.contains_key(&id) {
            self.nodes.insert(id, Node::new_at(id, addr, now));
        }
    }

    /// Records a sign of life from `id` at `now`: the peer is online and was
    /// last heard from at `now`. Nothing changes if `id` is unknown.
    pub fn touch(&mut self, id: u32, now: u64)
        requires
            old(self).wf(),
        ensures
            final(self).wf(),
            final(self)@ == touched(old(self)@, id, now),
            final(self).timeout() == old(self).timeout(),
    {
        let known = self.get(id);
        match known {
            Some(node) => {
                let mut node = node;
                node.update_heartbeat_at(now);
                self.nodes.insert(id, node);
            },
            None => {},
        }
    }

    /// Replaces what is known of `node.id` by `node`, taken as heard from at
    /// `now`: the record has the node's address, is online and was last heard
    /// from at `now`.
    pub fn upsert(&mut self, node: Node, now: u64)
        requires
            old(self).wf(),
        ensures
            final(self).wf(),
            final(self)@ == upserted(old(self)@, node, now),
            final(self).timeout() == old(self).timeout(),
    {
        let mut node = node;
        node.update_heartbeat_at(now);
        self.nodes.insert(node.id, node);
    }

    /// The records for which `want_live` says how they fare at `now`, without
    /// those in `exclude_ids`.
    fn snapshot(&self, want_live: bool, exclude_ids: &[u32], now: u64) -> (out: Vec<Node>)
        requires
            self.wf(),
        ensures
            lists(
                out@,
                self@,
                if want_live {
                    live_ids(self@, self.timeout(), now, exclude_ids@.to_set())
                } else {
                    offline_ids(self@, self.timeout(), now, exclude_ids@.to_set())
                },
            ),
    {
        let ghost ids = if want_live {
            live_ids(self@, self.timeout(), now, exclude_ids@.to_set())
        } else {
            offline_ids(self@, self.timeout(), now, exclude_ids@.to_set())
        };
        let keys = key_list(&self.nodes);
        let mut out: Vec<Node> = Vec::new();
        let mut i: usize = 0;
        while i < keys.len()
            invariant
                i <= keys.len(),
                self.wf(),
                keys@.no_duplicates(),
                keys@.to_set() == self@.dom(),
                ids == (if want_live {
                    live_ids(self@, self.timeout(), now, exclude_ids@.to_set())
                } else {
                    offline_ids(self@, self.timeout(), now, exclude_ids@.to_set())
                }),
                forall|j: int|
                    0 <= j < out@.len() ==> ids.contains(#[trigger] out@[j].id) && self@[out@[j].id]
                        == out@[j],
                forall|j: int|
                    0 <= j < out@.len() ==> exists|k: int|
                        0 <= k < i && keys@[k] == (#[trigger] out@[j]).id,
                forall|j: int, k: int| 0 <= j < k < out@.len() ==> out@[j].id != out@[k].id,
                forall|k: int|
                    0 <= k < i && ids.contains(#[trigger] keys@[k]) ==> exists|j: int|
                        0 <= j < out@.len() && out@[j].id == keys@[k],
            decreases keys.len() - i,
        {
            let key = keys[i];
            assert(keys@.to_set().contains(key));
            let found = self.get(key);
            match found {
                Some(node) => {
                    if node.is_live_at(self.offline_timeout, now) == want_live && !occurs(
                        exclude_ids,
                        key,
                    ) {
                        let ghost before = out@;
                        out.push(node);
                        proof {
                            assert(node.id == key);
                            assert forall|j: int| 0 <= j < out@.len() implies exists|k: int|
                                0 <= k < i + 1 && keys@[k] == (#[trigger] out@[j]).id by {
                                if j < before.len() {
                                    let k = choose|k: int|
                                        0 <= k < i && keys@[k] == before[j].id;
                                    assert(keys@[k] == out@[j].id);
                                } else {
                                    assert(keys@[i as int] == out@[j].id);
                                }
                            }
                            assert forall|j: int, k: int| 0 <= j < k < out@.len() implies out@[j].id
                                != out@[k].id by {
                                if k == before.len() {
                                    let at = choose|at: int|
                                        0 <= at < i && keys@[at] == before[j].id;
                                    assert(keys@[at] != keys@[i as int]);
                                }
                            }
                            assert forall|k: int|
                                0 <= k < i + 1 && ids.contains(
                                    #[trigger] keys@[k],
                                ) implies exists|j: int|
                                0 <= j < out@.len() && out@[j].id == keys@[k] by {
                                if k < i {
                                    let j = choose|j: int|
                                        0 <= j < before.len() && before[j].id == keys@[k];
                                    assert(out@[j].id == keys@[k]);
                                } else {
                                    assert(out@[before.len() as int].id == keys@[k]);
                                }
                            }
                        }
                    }
                },
                None => {},
            }
            i += 1;
        }
        proof {
            assert forall|id: u32| ids.contains(id) implies exists|j: int|
                0 <= j < out@.len() && out@[j].id == id by {
                assert(keys@.to_set().contains(id));
                let k = choose|k: int| 0 <= k < keys@.len() && keys@[k] == id;
                assert(ids.contains(keys@[k]));
            }
            lemma_listing_len(out@, ids);
        }
        out
    }

    /// The peers that are live at `now`, each once and in no particular
    /// order, without those named in `exclude_ids`.
    pub fn snapshot_live(&self, exclude_ids: &[u32], now: u64) -> (out: Vec<Node>)
        requires
            self.wf(),
        ensures
            lists(out@, self@, live_ids(self@, self.timeout(), now, exclude_ids@.to_set())),
    {
        self.snapshot(true, exclude_ids, now)
    }

    /// The peers that are offline at `now`, each once and in no particular
    /// order, without those named in `exclude_ids`.
    pub fn snapshot_offline(&self, exclude_ids: &[u32], now: u64) -> (out: Vec<Node>)
        requires
            self.wf(),
        ensures
            lists(out@, self@, offline_ids(self@, self.timeout(), now, exclude_ids@.to_set())),
    {
        self.snapshot(false, exclude_ids, now)
    }

    /// Sweeps the table at `now`: every peer that has been silent for more
    /// than the offline timeout is marked offline.
    pub fn mark_stale_offline(&mut self, now: u64)
        requires
            old(self).wf(),
        ensures
            final(self).wf(),
            final(self)@ == swept(old(self)@, old(self).timeout(), now),
            final(self).timeout() == old(self).timeout(),
    {
        let keys = key_list(&self.nodes);
        let mut i: usize = 0;
        while i < keys.len()
            invariant
                i <= keys.len(),
                keys@.no_duplicates(),
                keys@.to_set() == old(self)@.dom(),
                self@.dom() == old(self)@.dom(),
                self.offline_timeout == old(self).offline_timeout,
                forall|k: int|
                    0 <= k < i ==> self@[#[trigger] keys@[k]] == swept(
                        old(self)@,
                        old(self).timeout(),
                        now,
                    )[keys@[k]],
                forall|k: int|
                    i <= k < keys@.len() ==> self@[#[trigger] keys@[k]] == old(self)@[keys@[k]],
            decreases keys.len() - i,
        {
            let key = keys[i];
            assert(keys@.to_set().contains(key));
            let found = self.get(key);
            match found {
                Some(node) => {
                    if now >= node.last_heartbeat && now - node.last_heartbeat
                        > self.offline_timeout {
                        let mut node = node;
                        node.status = NodeStatus::Offline;
                        self.nodes.insert(key, node);
                        assert(self@.dom() =~= old(self)@.dom());
                    }
                },
                None => {},
            }
            i += 1;
        }
        proof {
            let goal = swept(old(self)@, old(self).timeout(), now);
            assert forall|id: u32| self@.contains_key(id) implies self@[id] == goal[id] by {
                assert(keys@.to_set().contains(id));
                let k = choose|k: int| 0 <= k < keys@.len() && keys@[k] == id;
                assert(self@[keys@[k]] == goal[keys@[k]]);
            }
            assert(self@ =~= goal);
        }
    }
}

} // verus!
