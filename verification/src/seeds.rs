//! Seed peers from the device list of an overlay network.
//!
//! The nodes of one cluster carry names that begin with the cluster's prefix
//! and a hyphen. A device with such a name, whose first address holds an IPv4
//! address, is a seed peer: its identifier is the hash of its name, and it is
//! expected to listen on the default gossip port.

use vstd::prelude::*;
use vstd::utf8::encode_utf8;
use crate::address::{Address, ipv4_of};
use crate::node::Node;
use crate::util::{address_text, extract_ipv4, hash_node_name, name_hash};

verus! {

/// What discovery reports of a device: its name and its addresses, each an
/// address string as a transport gives it.
#[derive(Debug, Clone, PartialEq, Eq)]
pub struct Device {
    pub hostname: String,
    pub addresses: Vec<String>,
}

/// The port on which a discovered peer is expected to listen.
pub const SEED_PORT: u16 = 42069;

/// Whether `text` begins with `prefix`.
pub open spec fn starts_with(text: Seq<u8>, prefix: Seq<u8>) -> bool {
    prefix.len() <= text.len() && text.subrange(0, prefix.len() as int) == prefix
}

/// The bytes with which the names of a cluster's nodes begin: the prefix and
/// a hyphen.
pub open spec fn name_prefix(prefix: Seq<char>) -> Seq<u8> {
    encode_utf8(prefix) + seq![45u8]
}

/// The seed peer that a device stands for at `now`, if it is one.
pub open spec fn seed_of(prefix: Seq<char>, device: Device, now: u64) -> Option<Node> {
    if !starts_with(encode_utf8(device.hostname@), name_prefix(prefix)) || device.addresses@.len()
        == 0 {
        None
    } else {
        match ipv4_of(address_text(device.addresses@[0]@)) {
            Some(ip) => Some(
                Node::fresh(name_hash(device.hostname@), Address { ip, port: SEED_PORT }, now),
            ),
            None => None,
        }
    }
}

/// The seed peers among `devices`, in the order of the devices.
pub open spec fn seeds_of(prefix: Seq<char>, devices: Seq<Device>, now: u64) -> Seq<Node>
    decreases devices.len(),
{
    if devices.len() == 0 {
        Seq::empty()
    } else {
        let earlier = seeds_of(prefix, devices.drop_last(), now);
        match seed_of(prefix, devices.last(), now) {
            Some(seed) => earlier.push(seed),
            None => earlier,
        }
    }
}

/// Whether `name` begins with `prefix` and a hyphen.
fn has_name_prefix(name: &str, prefix: &str) -> (yes: bool)
    ensures
        yes == starts_with(encode_utf8(name@), name_prefix(prefix@)),
{
    let text = name.as_bytes();
    let head = prefix.as_bytes();
    if text.len() <= head.len() {
        return false;
    }
    let mut i: usize = 0;
    while i < head.len()
        invariant
            i <= head.len() < text.len(),
            text@ == encode_utf8(name@),
            head@ == encode_utf8(prefix@),
            forall|j: int| 0 <= j < i ==> text@[j] == head@[j],
        decreases head.len() - i,
    {
        if text[i] != head[i] {
            proof {
                let wanted = name_prefix(prefix@);
                if starts_with(text@, wanted) {
                    assert(text@.subrange(0, wanted.len() as int)[i as int] == wanted[i as int]);
                }
            }
            return false;
        }
        i += 1;
    }
    let yes: bool = text[head.len()] == 45;
    proof {
        let wanted = name_prefix(prefix@);
        if yes {
            assert(text@.subrange(0, wanted.len() as int) =~= wanted);
        } else if starts_with(text@, wanted) {
            assert(text@.subrange(0, wanted.len() as int)[head@.len() as int] == wanted[head@.len() as int]);
        }
    }
    yes
}

/// The seed peer that `device` stands for, taken as first heard from at
/// `now`; none if its name does not begin with `prefix` and a hyphen, if it
/// has no address, or if its first address holds no IPv4 address.
pub fn seed_peer(prefix: &str, device: &Device, now: u64) -> (seed: Option<Node>)
    ensures
        seed == seed_of(prefix@, *device, now),
{
    if !has_name_prefix(device.hostname.as_str(), prefix) || device.addresses.len() == 0 {
        return None;
    }
    match extract_ipv4(device.addresses[0].as_str()) {
        Ok(ip) => Some(
            Node::new_at(
                hash_node_name(device.hostname.as_str()),
                Address { ip, port: SEED_PORT },
                now,
            ),
        ),
        Err(_) => None,
    }
}

/// The seed peers among `devices`, in the order of the devices, each taken as
/// first heard from at `now`.
pub fn seed_peers(prefix: &str, devices: &Vec<Device>, now: u64) -> (seeds: Vec<Node>)
    ensures
        seeds@ == seeds_of(prefix@, devices@, now),
{
    let mut seeds: Vec<Node> = Vec::new();
    let mut i: usize = 0;
    while i < devices.len()
        invariant
            i <= devices.len(),
            seeds@ == seeds_of(prefix@, devices@.take(i as int), now),
        decreases devices.len() - i,
    {
        proof {
            assert(devices@.take(i + 1).drop_last() =~= devices@.take(i as int));
        }
        match seed_peer(prefix, &devices[i], now) {
            Some(seed) => seeds.push(seed),
            None => {},
        }
        i += 1;
    }
    proof {
        assert(devices@.take(i as int) =~= devices@);
    }
    seeds
}

} // verus!
