use gossip::error::GossipError;
use gossip::node::{Address, Ipv4, NodeStatus};
use gossip::address::parse_ipv4;
use gossip::util::{compose_id, extract_ipv4, hash_node_name, make_id, ALPHABET, SUFFIX_LEN};
use gossip::{start, GossipConfig};

fn ip(a: u8, b: u8, c: u8, d: u8) -> Ipv4 {
    Ipv4 { a, b, c, d }
}

#[test]
fn hash_sums_the_bytes_of_the_name() {
    assert_eq!(hash_node_name(""), 0);
    assert_eq!(hash_node_name("a"), 97);
    assert_eq!(hash_node_name("ab"), 195);
    assert_eq!(hash_node_name("ba"), 195);
    assert_eq!(hash_node_name("ht-happy-apes-run-abcde"), 2207);
    // two bytes in UTF-8: 0xC3 0xA9
    assert_eq!(hash_node_name("\u{e9}"), 0xC3 + 0xA9);
}

#[test]
fn hash_wraps_around() {
    // each character is 0xC3 0xBF in UTF-8, 386 in sum; 386 * 11_126_860 = 2^32 + 664
    let name = "\u{ff}".repeat(11_126_860);
    assert_eq!(hash_node_name(&name), 664);
}

#[test]
fn dotted_quads_parse() {
    assert_eq!(parse_ipv4(b"0.0.0.0"), Some(ip(0, 0, 0, 0)));
    assert_eq!(parse_ipv4(b"127.0.0.1"), Some(ip(127, 0, 0, 1)));
    assert_eq!(parse_ipv4(b"255.255.255.255"), Some(ip(255, 255, 255, 255)));
    assert_eq!(parse_ipv4(b"10.20.30.40"), Some(ip(10, 20, 30, 40)));
    assert_eq!(parse_ipv4(b"1.22.133.9"), Some(ip(1, 22, 133, 9)));
    assert_eq!(parse_ipv4(b"100.64.0.1"), Some(ip(100, 64, 0, 1)));
    assert_eq!(parse_ipv4(b"199.200.249.250"), Some(ip(199, 200, 249, 250)));
}

#[test]
fn what_is_no_dotted_quad_does_not_parse() {
    let wrong: Vec<&[u8]> = vec![
        b"",
        b".",
        b"...",
        b"1",
        b"1.2.3",
        b"1.2.3.",
        b".1.2.3",
        b"1.2.3.4.",
        b"1.2.3.4.5",
        b"1..2.3",
        b"256.0.0.1",
        b"1.2.3.256",
        b"1.2.3.999",
        b"1.2.3.1000",
        b"1.2.3.0255",
        b"01.2.3.4",
        b"1.02.3.4",
        b"1.2.3.00",
        b"1.2.3.4 ",
        b" 1.2.3.4",
        b"1.2.3.4\n",
        b"1,2,3,4",
        b"a.b.c.d",
        b"1.2.3.x",
        b"-1.2.3.4",
        b"+1.2.3.4",
        b"1.2.3.4/8",
        b"1.2.3.4:80",
        b"fd7a:115c:a1e0::1",
        b"::1",
        b"0x7f.0.0.1",
        b"\xef\xbc\x91.2.3.4",
    ];
    for text in wrong {
        assert_eq!(parse_ipv4(text), None, "{:?}", text);
    }
}

#[test]
fn every_octet_value_parses_in_every_place() {
    for v in 0..=255u8 {
        assert_eq!(parse_ipv4(format!("{}.0.0.0", v).as_bytes()), Some(ip(v, 0, 0, 0)));
        assert_eq!(parse_ipv4(format!("9.{}.77.200", v).as_bytes()), Some(ip(9, v, 77, 200)));
        assert_eq!(parse_ipv4(format!("9.8.{}.7", v).as_bytes()), Some(ip(9, 8, v, 7)));
        assert_eq!(parse_ipv4(format!("255.255.255.{}", v).as_bytes()), Some(ip(255, 255, 255, v)));
    }
}

#[test]
fn the_first_entry_of_an_address_list_is_taken() {
    assert_eq!(extract_ipv4("100.64.0.1"), Ok(ip(100, 64, 0, 1)));
    assert_eq!(extract_ipv4("100.64.0.1,fd7a:115c:a1e0::1"), Ok(ip(100, 64, 0, 1)));
    assert_eq!(extract_ipv4("10.0.0.2,10.0.0.3,10.0.0.4"), Ok(ip(10, 0, 0, 2)));
    assert_eq!(extract_ipv4("10.0.0.2,"), Ok(ip(10, 0, 0, 2)));
    assert_eq!(extract_ipv4("10.0.0.2,garbage"), Ok(ip(10, 0, 0, 2)));
}

#[test]
fn white_space_round_the_first_entry_is_dropped() {
    assert_eq!(extract_ipv4(" 10.0.0.2 "), Ok(ip(10, 0, 0, 2)));
    assert_eq!(extract_ipv4("\t10.0.0.2\r\n"), Ok(ip(10, 0, 0, 2)));
    assert_eq!(extract_ipv4("  10.0.0.2  , 10.0.0.3"), Ok(ip(10, 0, 0, 2)));
    assert_eq!(extract_ipv4("\u{a0}10.0.0.2\u{3000}"), Ok(ip(10, 0, 0, 2)));
    assert_eq!(extract_ipv4("\u{2003}10.0.0.2\u{85}\u{2028}"), Ok(ip(10, 0, 0, 2)));
    // white space inside the address is not dropped
    assert!(extract_ipv4("10.0. 0.2").is_err());
    // a zero-width space is no white space
    assert!(extract_ipv4("\u{200b}10.0.0.2").is_err());
}

#[test]
fn the_error_carries_the_first_entry() {
    assert_eq!(extract_ipv4(""), Err(GossipError::IpAddressError("".to_string())));
    assert_eq!(extract_ipv4(",10.0.0.2"), Err(GossipError::IpAddressError("".to_string())));
    assert_eq!(
        extract_ipv4(" nonsense ,10.0.0.2"),
        Err(GossipError::IpAddressError(" nonsense ".to_string()))
    );
    assert_eq!(
        extract_ipv4("fd7a:115c:a1e0::1,100.64.0.1"),
        Err(GossipError::IpAddressError("fd7a:115c:a1e0::1".to_string()))
    );
    assert_eq!(
        extract_ipv4("300.1.1.1"),
        Err(GossipError::IpAddressError("300.1.1.1".to_string()))
    );
}

#[test]
fn node_names_are_joined_and_lowered() {
    assert_eq!(compose_id("HT", "Afraid-Apes-Run", "abcde"), "ht-afraid-apes-run-abcde");
    assert_eq!(compose_id("ht", "x", "y"), "ht-x-y");
    assert_eq!(compose_id("", "", ""), "--");
    assert_eq!(compose_id("\u{c9}T\u{c9}", "\u{c4}", "Z"), "\u{e9}t\u{e9}-\u{e4}-z");
}

#[test]
fn minted_names_have_prefix_words_and_five_letters() {
    assert_eq!(SUFFIX_LEN, 5);
    assert_eq!(ALPHABET.len(), 26);
    for _ in 0..50 {
        let id = make_id("HT");
        assert!(id.starts_with("ht-"), "{}", id);
        assert_eq!(id, id.to_lowercase());
        let parts: Vec<&str> = id.split('-').collect();
        // prefix, adjective, noun, verb, random letters
        assert_eq!(parts.len(), 5, "{}", id);
        for word in &parts[1..4] {
            assert!(!word.is_empty());
            assert!(word.chars().all(|c| c.is_ascii_lowercase()), "{}", id);
        }
        let suffix = parts[4];
        assert_eq!(suffix.chars().count(), 5, "{}", id);
        assert!(suffix.chars().all(|c| ALPHABET.contains(&c)), "{}", id);
    }
}

#[test]
fn minted_names_differ() {
    let a = make_id("ht");
    let b = make_id("ht");
    let c = make_id("ht");
    assert!(a != b || b != c);
}

#[test]
fn start_builds_the_local_node_from_the_settings() {
    let mut config = GossipConfig::default();
    config.node_name = "ht-happy-apes-run-abcde".to_string();
    config.ip_address = "100.64.0.7".to_string();
    config.gossip_port = 4000;
    let seeds = vec![
        gossip::node::Node::new_at(1, Address::new(10, 0, 0, 1, 4000), 5),
        gossip::node::Node::new_at(2, Address::new(10, 0, 0, 2, 4000), 6),
    ];
    let node = start(config, seeds).unwrap();
    assert_eq!(node.local_node().id, 2207);
    assert_eq!(node.local_node().addr, Address::new(100, 64, 0, 7, 4000));
    assert_eq!(node.local_node().status, NodeStatus::Online);
    assert_eq!(node.config().node_name, "ht-happy-apes-run-abcde");
    assert_eq!(node.config().fanout, 4);
    assert_eq!(node.peers().len(), 2);
    assert_eq!(node.peers().get(2).unwrap().addr, Address::new(10, 0, 0, 2, 4000));
    assert_eq!(node.peers().get(2).unwrap().last_heartbeat, 6);
}

#[test]
fn start_with_the_default_settings() {
    let node = start(GossipConfig::default(), Vec::new()).unwrap();
    assert_eq!(node.local_node().id, 0);
    assert_eq!(node.local_node().addr, Address::new(127, 0, 0, 1, 42069));
    assert_eq!(node.peers().len(), 0);
}

#[test]
fn start_refuses_an_address_that_is_no_ipv4() {
    let mut config = GossipConfig::default();
    config.ip_address = "localhost".to_string();
    match start(config, Vec::new()) {
        Err(e) => assert_eq!(e, GossipError::IpAddressError("localhost".to_string())),
        Ok(_) => panic!("an invalid address was accepted"),
    }
    let mut config = GossipConfig::default();
    config.ip_address = " 127.0.0.1".to_string();
    assert!(start(config, Vec::new()).is_err());
    let mut config = GossipConfig::default();
    config.ip_address = "::1".to_string();
    assert!(start(config, Vec::new()).is_err());
}
