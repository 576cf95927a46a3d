//! Choosing the destinations of a gossip round.
//!
//! A round goes to a random sample of the live candidates, as many as the
//! fanout allows, and to one offline candidate if there is any: the rescue
//! probe, by which a peer that was given up is noticed when it comes back.
//! The random draws are made by the rand crate; what is done with them is
//! stated here for every draw that it can make.

use rand::rngs::StdRng;
use vstd::prelude::*;
use crate::node::Node;

verus! {

/// Makes `rand::rngs::StdRng` known to the verifier, as a type that it cannot
/// look into.
#[verifier::external_type_specification]
#[verifier::external_body]
pub struct ExStdRng(StdRng);

/// `SeedableRng::seed_from_u64` for `StdRng`: a generator whose draws are
/// fixed by `seed`.
#[verifier::external_body]
pub(crate) fn seeded_rng(seed: u64) -> StdRng {
    rand::SeedableRng::seed_from_u64(seed)
}

/// `SeedableRng::try_from_os_rng` for `StdRng`: a generator seeded by the
/// operating system, or nothing where the system gives no entropy.
#[verifier::external_body]
pub(crate) fn os_rng() -> Option<StdRng> {
    <StdRng as rand::SeedableRng>::try_from_os_rng().ok()
}

/// `rand::seq::index::sample`: `amount` distinct positions below `length`, in
/// random order. The call panics where `amount` exceeds `length`, which the
/// precondition rules out.
#[verifier::external_body]
pub(crate) fn sample_indices(rng: &mut StdRng, length: usize, amount: usize) -> (picks: Vec<usize>)
    requires
        amount <= length,
    ensures
        is_sample(picks@, length as nat, amount as nat),
{
    rand::seq::index::sample(rng, length, amount).into_vec()
}

/// `picks` are `amount` distinct positions below `length`.
pub open spec fn is_sample(picks: Seq<usize>, length: nat, amount: nat) -> bool {
    &&& picks.len() == amount
    &&& forall|i: int| 0 <= i < picks.len() ==> picks[i] < length
    &&& forall|i: int, j: int| 0 <= i < j < picks.len() ==> picks[i] != picks[j]
}

/// The records of `pool` at the positions `picks`, in the order of `picks`.
pub open spec fn picked(pool: Seq<Node>, picks: Seq<usize>) -> Seq<Node> {
    Seq::new(picks.len(), |i: int| pool[picks[i] as int])
}

/// Number of live destinations of a round: all candidates, or as many as the
/// fanout allows.
pub open spec fn live_share(candidates: nat, fanout: nat) -> nat {
    if candidates <= fanout {
        candidates
    } else {
        fanout
    }
}

/// Number of rescue probes of a round: one if any peer is offline.
pub open spec fn rescue_share(candidates: nat) -> nat {
    if candidates > 0 {
        1
    } else {
        0
    }
}

/// Number of destinations of a round.
pub open spec fn round_size(live: Set<u32>, offline: Set<u32>, fanout: nat) -> nat {
    live_share(live.len(), fanout) + rescue_share(offline.len())
}

/// `ids` are the destinations of a round drawn from the live candidates
/// `live` and the offline candidates `offline`: first the live share, no peer
/// twice, then the rescue probe if there is one.
pub open spec fn is_round(ids: Seq<u32>, live: Set<u32>, offline: Set<u32>, fanout: nat) -> bool {
    let k = live_share(live.len(), fanout) as int;
    &&& ids.len() == round_size(live, offline, fanout)
    &&& forall|i: int| 0 <= i < k ==> live.contains(#[trigger] ids[i])
    &&& forall|i: int, j: int| 0 <= i < j < k ==> ids[i] != ids[j]
    &&& ids.len() > k ==> offline.contains(ids[k])
}

/// The identifiers of `nodes`, in order.
pub open spec fn ids_of(nodes: Seq<Node>) -> Seq<u32> {
    Seq::new(nodes.len(), |i: int| nodes[i].id)
}

/// The records of `pool` at the positions `picks`.
pub fn pick(pool: &Vec<Node>, picks: &Vec<usize>) -> (chosen: Vec<Node>)
    requires
        forall|i: int| 0 <= i < picks@.len() ==> picks@[i] < pool@.len(),
    ensures
        chosen@ == picked(pool@, picks@),
{
    let mut chosen: Vec<Node> = Vec::new();
    let mut i: usize = 0;
    while i < picks.len()
        invariant
            i <= picks.len(),
            forall|j: int| 0 <= j < picks@.len() ==> picks@[j] < pool@.len(),
            chosen@.len() == i,
            forall|j: int| 0 <= j < i ==> chosen@[j] == pool@[picks@[j] as int],
        decreases picks.len() - i,
    {
        chosen.push(pool[picks[i]]);
        i += 1;
    }
    assert(chosen@ =~= picked(pool@, picks@));
    chosen
}

/// The destinations that the draws `live_picks` and `rescue_picks` stand for:
/// the picked live candidates, then the picked offline candidates.
pub fn choose_destinations(
    live: &Vec<Node>,
    live_picks: &Vec<usize>,
    offline: &Vec<Node>,
    rescue_picks: &Vec<usize>,
) -> (chosen: Vec<Node>)
    requires
        forall|i: int| 0 <= i < live_picks@.len() ==> live_picks@[i] < live@.len(),
        forall|i: int| 0 <= i < rescue_picks@.len() ==> rescue_picks@[i] < offline@.len(),
    ensures
        chosen@ == picked(live@, live_picks@) + picked(offline@, rescue_picks@),
{
    let mut chosen = pick(live, live_picks);
    let mut rescue = pick(offline, rescue_picks);
    chosen.append(&mut rescue);
    chosen
}

/// `chosen` is what the draws `live_picks` and `rescue_picks` make of the
/// candidates: the live ones picked by a sample of the live share, then the
/// offline ones picked by a sample of the rescue share.
pub open spec fn is_draw(
    chosen: Seq<Node>,
    live: Seq<Node>,
    offline: Seq<Node>,
    fanout: nat,
    live_picks: Seq<usize>,
    rescue_picks: Seq<usize>,
) -> bool {
    &&& is_sample(live_picks, live.len(), live_share(live.len(), fanout))
    &&& is_sample(rescue_picks, offline.len(), rescue_share(offline.len()))
    &&& chosen == picked(live, live_picks) + picked(offline, rescue_picks)
}

/// Draws the destinations of a round from the live candidates `live` and the
/// offline candidates `offline`: a sample of the live ones, `fanout` of them
/// or all if there are fewer, followed by one offline candidate if there is
/// any. Whatever is drawn, the result is a draw in the sense of [`is_draw`].
pub fn draw_round(rng: &mut StdRng, live: &Vec<Node>, offline: &Vec<Node>, fanout: usize) -> (chosen:
    Vec<Node>)
    ensures
        exists|live_picks: Seq<usize>, rescue_picks: Seq<usize>|
            is_draw(chosen@, live@, offline@, fanout as nat, live_picks, rescue_picks),
{
    let share: usize = if live.len() <= fanout {
        live.len()
    } else {
        fanout
    };
    let live_picks = sample_indices(rng, live.len(), share);
    let rescue: usize = if offline.len() > 0 {
        1
    } else {
        0
    };
    let rescue_picks = sample_indices(rng, offline.len(), rescue);
    let chosen = choose_destinations(live, &live_picks, offline, &rescue_picks);
    assert(is_draw(chosen@, live@, offline@, fanout as nat, live_picks@, rescue_picks@));
    chosen
}

/// Destinations picked by samples from lists of the candidates make a round.
pub proof fn lemma_picked_is_round(
    peers: Map<u32, Node>,
    live: Seq<Node>,
    live_set: Set<u32>,
    live_picks: Seq<usize>,
    offline: Seq<Node>,
    offline_set: Set<u32>,
    rescue_picks: Seq<usize>,
    fanout: nat,
)
    requires
        crate::peers::lists(live, peers, live_set),
        crate::peers::lists(offline, peers, offline_set),
        is_sample(live_picks, live.len(), live_share(live.len(), fanout)),
        is_sample(rescue_picks, offline.len(), rescue_share(offline.len())),
    ensures
        ({
            let chosen = picked(live, live_picks) + picked(offline, rescue_picks);
            &&& is_round(ids_of(chosen), live_set, offline_set, fanout)
            &&& forall|i: int| 0 <= i < chosen.len() ==> peers[(#[trigger] chosen[i]).id] == chosen[i]
        }),
{
    let chosen = picked(live, live_picks) + picked(offline, rescue_picks);
    let ids = ids_of(chosen);
    let k = live_share(live_set.len(), fanout) as int;
    assert(chosen.len() == k + rescue_share(offline_set.len()));
    assert forall|i: int| 0 <= i < k implies live_set.contains(#[trigger] ids[i]) by {
        assert(chosen[i] == live[live_picks[i] as int]);
        assert(live_set.contains(live[live_picks[i] as int].id));
    }
    assert forall|i: int, j: int| 0 <= i < j < k implies ids[i] != ids[j] by {
        let a = live_picks[i] as int;
        let b = live_picks[j] as int;
        assert(chosen[i] == live[a] && chosen[j] == live[b]);
        if a < b {
            assert(live[a].id != live[b].id);
        } else {
            assert(live[b].id != live[a].id);
        }
    }
    if ids.len() > k {
        assert(chosen[k] == offline[rescue_picks[0] as int]);
        assert(offline_set.contains(offline[rescue_picks[0] as int].id));
    }
    assert forall|i: int| 0 <= i < chosen.len() implies peers[(#[trigger] chosen[i]).id]
        == chosen[i] by {
        if i < k {
            assert(chosen[i] == live[live_picks[i] as int]);
            assert(live_set.contains(live[live_picks[i] as int].id));
        } else {
            assert(chosen[i] == offline[rescue_picks[i - k] as int]);
            assert(offline_set.contains(offline[rescue_picks[i - k] as int].id));
        }
    }
}

} // verus!
