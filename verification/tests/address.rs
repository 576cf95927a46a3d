use gossip::address::{parse_ipv4, Address, Ipv4};
use gossip::node::{Node, NodeStatus};
use gossip::seeds::{seed_peer, seed_peers, Device, SEED_PORT};

#[test]
fn address_text_is_dotted_quad_and_port() {
    assert_eq!(Address::new(10, 0, 0, 2, 42069).to_text(), "10.0.0.2:42069");
    assert_eq!(Address::new(0, 0, 0, 0, 0).to_text(), "0.0.0.0:0");
    assert_eq!(Address::new(255, 255, 255, 255, 65535).to_text(), "255.255.255.255:65535");
    assert_eq!(Address::new(127, 0, 0, 1, 80).to_text(), "127.0.0.1:80");
    assert_eq!(Address::new(1, 20, 109, 200, 9).to_text(), "1.20.109.200:9");
    assert_eq!(Address::new(100, 99, 10, 9, 10000).to_text(), "100.99.10.9:10000");
    assert_eq!(Address::new(192, 168, 1, 1, 1009).to_text(), "192.168.1.1:1009");
}

#[test]
fn address_text_writes_every_number_in_decimal() {
    for (i, port) in [0u16, 1, 9, 10, 99, 100, 999, 1000, 9999, 10000, 42069, 65535].iter().enumerate() {
        for v in 0..=255u8 {
            let addr = Address::new(v, (i * 20) as u8, 255 - v, v / 2, *port);
            let expected = format!("{}.{}.{}.{}:{}", v, i * 20, 255 - v, v / 2, port);
            assert_eq!(addr.to_text(), expected);
        }
    }
}

#[test]
fn the_text_of_an_address_parses_back() {
    for v in 0..=255u8 {
        let addr = Address::new(v, 255 - v, v / 3, v.wrapping_mul(7), 4000);
        let text = addr.to_text();
        let quad = text.strip_suffix(":4000").unwrap();
        assert_eq!(parse_ipv4(quad.as_bytes()), Some(addr.ip));
    }
}

#[test]
fn leading_zeros_signs_and_short_forms_are_refused() {
    let refused = [
        "01.2.3.4", "1.2.3.04", "00.0.0.0", "256.255.255.255", "127.1", "0x1.2.3.4",
        "1.2.3.-4", "1.2.3.+4", "::ffff:1.2.3.4", "10.000.0.1", "10.0.0.001", "1.1.1.1a",
    ];
    for text in refused {
        assert_eq!(parse_ipv4(text.as_bytes()), None, "{:?}", text);
    }
    assert_eq!(parse_ipv4(b"10.0.0.1"), Some(Ipv4 { a: 10, b: 0, c: 0, d: 1 }));
    assert_eq!(parse_ipv4(b"10.100.0.1"), Some(Ipv4 { a: 10, b: 100, c: 0, d: 1 }));
}

fn device(hostname: &str, addresses: &[&str]) -> Device {
    Device {
        hostname: hostname.to_string(),
        addresses: addresses.iter().map(|a| a.to_string()).collect(),
    }
}

#[test]
fn a_device_of_the_cluster_is_a_seed() {
    let seed =
        seed_peer("ht", &device("ht-happy-apes-run-abcde", &["100.64.0.7", "fd7a::7"]), 500).unwrap();
    assert_eq!(seed.id, 2207);
    assert_eq!(seed.addr, Address::new(100, 64, 0, 7, 42069));
    assert_eq!(seed.status, NodeStatus::Online);
    assert_eq!(seed.last_heartbeat, 500);
    assert_eq!(SEED_PORT, 42069);
    // the first address may be a list itself, with white space
    let seed = seed_peer("ht", &device("ht-x", &[" 10.1.2.3 ,fd7a::1"]), 0).unwrap();
    assert_eq!(seed.addr.ip, Ipv4 { a: 10, b: 1, c: 2, d: 3 });
}

#[test]
fn other_devices_are_no_seeds() {
    // another prefix
    assert!(seed_peer("ht", &device("laptop", &["100.64.0.7"]), 0).is_none());
    assert!(seed_peer("ht", &device("xht-a", &["100.64.0.7"]), 0).is_none());
    // the prefix without the hyphen
    assert!(seed_peer("ht", &device("ht", &["100.64.0.7"]), 0).is_none());
    assert!(seed_peer("ht", &device("htx-a", &["100.64.0.7"]), 0).is_none());
    assert!(seed_peer("ht", &device("h", &["100.64.0.7"]), 0).is_none());
    assert!(seed_peer("ht", &device("", &["100.64.0.7"]), 0).is_none());
    // no address, or none that holds an IPv4 address first
    assert!(seed_peer("ht", &device("ht-a", &[]), 0).is_none());
    assert!(seed_peer("ht", &device("ht-a", &["fd7a::7", "100.64.0.7"]), 0).is_none());
    assert!(seed_peer("ht", &device("ht-a", &[""]), 0).is_none());
    // the name that is the prefix and a hyphen alone is a node's name
    assert!(seed_peer("ht", &device("ht-", &["100.64.0.7"]), 0).is_some());
    // an empty prefix asks for a leading hyphen
    assert!(seed_peer("", &device("-a", &["100.64.0.7"]), 0).is_some());
    assert!(seed_peer("", &device("a", &["100.64.0.7"]), 0).is_none());
}

#[test]
fn seeds_keep_the_order_of_the_devices() {
    let devices = vec![
        device("ht-b", &["10.0.0.2"]),
        device("printer", &["10.0.0.9"]),
        device("ht-a", &["10.0.0.1"]),
        device("ht-c", &["not an address"]),
        device("ht-d", &["10.0.0.4"]),
    ];
    let seeds: Vec<Node> = seed_peers("ht", &devices, 77);
    let found: Vec<(u32, u8, u64)> =
        seeds.iter().map(|n| (n.id, n.addr.ip.d, n.last_heartbeat)).collect();
    let id = |name: &str| name.bytes().map(|b| b as u32).sum::<u32>();
    assert_eq!(found, vec![(id("ht-b"), 2, 77), (id("ht-a"), 1, 77), (id("ht-d"), 4, 77)]);
    assert!(seed_peers("ht", &Vec::new(), 0).is_empty());
}
