use bencode::util::ByteString;
use bencode::Bencode;
use p2pspider::dht::{new_dht, Announce, Node, Outcome, PeerAddr, RustDHT};
use std::collections::BTreeMap;

fn dict(entries: Vec<(&str, Bencode)>) -> Bencode {
    let mut m = BTreeMap::new();
    for (k, v) in entries {
        m.insert(ByteString::from_str(k), v);
    }
    Bencode::Dict(m)
}

fn bytes(s: &[u8]) -> Bencode {
    Bencode::ByteString(s.to_vec())
}

fn get(b: &Bencode, key: &str) -> Option<Bencode> {
    match b {
        Bencode::Dict(m) => m.get(&ByteString::from_str(key)).cloned(),
        _ => None,
    }
}

fn local() -> Vec<u8> {
    (100u8..120).collect()
}

fn engine() -> RustDHT {
    new_dht().local_id(local()).secret("tmp-secret".to_string())
}

fn loopback(port: u16) -> PeerAddr {
    PeerAddr { ip: "127.0.0.1".to_string(), port }
}

fn announce_peer(token: &[u8], extra: Vec<(&str, Bencode)>) -> Vec<u8> {
    let mut a = vec![
        ("id", bytes(&[0x11; 20])),
        ("info_hash", bytes(&[0x22; 20])),
        ("token", bytes(token)),
    ];
    a.extend(extra);
    dict(vec![
        ("t", bytes(b"bb")),
        ("y", bytes(b"q")),
        ("q", bytes(b"announce_peer")),
        ("a", dict(a)),
    ])
    .to_bytes()
    .unwrap()
}

fn expect_announce(out: Outcome) -> Announce {
    match out {
        Outcome::Announce(a) => a,
        _ => panic!("no announce"),
    }
}

const TOKEN: &[u8] = b"a0396ee072b6d448a62c5614103ef013548085a7";

#[test]
fn new_engine_has_the_defaults() {
    let dht = new_dht();
    assert_eq!(dht.pause_millis(), 100);
    assert_eq!(dht.id().len(), 20);
    assert_eq!(dht.bind_address(), "0.0.0.0:34254");
    let seeds = dht.start();
    let addrs: Vec<&str> = seeds.iter().map(|n| n.addr.as_str()).collect();
    assert_eq!(
        addrs,
        vec![
            "router.bittorrent.com:6881",
            "dht.transmissionbt.com:6881",
            "router.utorrent.com:6881"
        ]
    );
    assert_eq!(
        dht.gen_token(&loopback(1)),
        "5f94a4b02f7f4f0fe52a218e96b8b6f2b6693330"
    );
}

#[test]
fn friends_per_second_become_a_pause() {
    assert_eq!(new_dht().max_friends_per_sec(50).pause_millis(), 20);
    assert_eq!(new_dht().max_friends_per_sec(0).pause_millis(), 100);
    assert_eq!(new_dht().max_friends_per_sec(1).pause_millis(), 1000);
    assert_eq!(new_dht().max_friends_per_sec(3).pause_millis(), 333);
    assert_eq!(new_dht().max_friends_per_sec(1000).pause_millis(), 1);
    assert_eq!(new_dht().max_friends_per_sec(5000).pause_millis(), 1);
    assert_eq!(new_dht().max_friends_per_sec(-4).pause_millis(), 1000);
}

#[test]
fn settings_are_taken_over() {
    let dht = new_dht()
        .local_id(local())
        .secret("s".to_string())
        .bind_addr("127.0.0.1:0".to_string())
        .bootstraps(vec!["127.0.0.1:6881".to_string()]);
    assert_eq!(dht.id(), &local());
    assert_eq!(dht.bind_address(), "127.0.0.1:0");
    assert_eq!(dht.pause_millis(), 100);
    assert_eq!(dht.gen_token(&loopback(1)), "9f4d5042b7e43e909b55d283b28f1711dc3e7830");
    let seeds = dht.start();
    assert_eq!(seeds.len(), 1);
    assert_eq!(seeds[0].addr, "127.0.0.1:6881");
    assert_eq!(seeds[0].id.len(), 20);
}

#[test]
fn bootstrap_fan_out() {
    let dht = engine().bootstraps(vec!["127.0.0.1:6881".to_string()]);
    let seeds = dht.start();
    assert_eq!(seeds.len(), 1);
    let datagram = dht.find_node(&seeds[0]).unwrap();
    let msg = bencode::from_buffer(&datagram).unwrap();
    assert_eq!(get(&msg, "y"), Some(bytes(b"q")));
    assert_eq!(get(&msg, "q"), Some(bytes(b"find_node")));
    let a = get(&msg, "a").unwrap();
    match (get(&a, "id"), get(&a, "target"), get(&msg, "t")) {
        (Some(Bencode::ByteString(id)), Some(Bencode::ByteString(target)), Some(Bencode::ByteString(t))) => {
            assert_eq!(id.len(), 20);
            assert_eq!(&id[..10], &seeds[0].id[..10]);
            assert_eq!(&id[10..20], &local()[..10]);
            assert_eq!(target.len(), 20);
            assert_eq!(t.len(), 2);
        }
        _ => panic!("missing fields"),
    }
}

#[test]
fn find_node_query_is_exact() {
    let dht = engine();
    let to = Node { addr: "10.0.0.1:100".to_string(), id: vec![b'A'; 20] };
    let datagram = dht.find_node_with(&to, vec![b'T'; 20], b"xy".to_vec()).unwrap();
    assert_eq!(
        datagram,
        b"d1:ad2:id20:AAAAAAAAAAdefghijklm6:target20:TTTTTTTTTTTTTTTTTTTTe1:q9:find_node1:t2:xy1:y1:qe"
            .to_vec()
    );
    let short = Node { addr: "10.0.0.1:100".to_string(), id: vec![1; 9] };
    assert_eq!(dht.find_node_with(&short, vec![0; 20], vec![0; 2]), None);
    assert_eq!(dht.find_node(&short), None);
}

#[test]
fn get_peers_reply() {
    let mut dht = engine();
    let query = dict(vec![
        ("t", bytes(b"aa")),
        ("y", bytes(b"q")),
        ("q", bytes(b"get_peers")),
        ("a", dict(vec![("id", bytes(&[0x11; 20])), ("info_hash", bytes(&[0x22; 20]))])),
    ])
    .to_bytes()
    .unwrap();
    let reply = match dht.on_message(&query, &loopback(4000)) {
        Outcome::Reply(bytes) => bencode::from_buffer(&bytes).unwrap(),
        _ => panic!("no reply"),
    };
    assert_eq!(get(&reply, "t"), Some(bytes(b"aa")));
    assert_eq!(get(&reply, "y"), Some(bytes(b"r")));
    let r = get(&reply, "r").unwrap();
    assert_eq!(get(&r, "nodes"), Some(bytes(b"")));
    assert_eq!(get(&r, "token"), Some(bytes(TOKEN)));
    let mut id = vec![0x11u8; 10];
    id.extend_from_slice(&local()[..10]);
    assert_eq!(get(&r, "id"), Some(bytes(&id)));
}

#[test]
fn get_peers_without_what_it_needs_is_dropped() {
    let mut dht = engine();
    let no_t = dict(vec![
        ("y", bytes(b"q")),
        ("q", bytes(b"get_peers")),
        ("a", dict(vec![("id", bytes(&[0x11; 20]))])),
    ]);
    assert!(matches!(dht.on_value(&no_t, &loopback(1)), Outcome::Ignore));
    let no_a = dict(vec![("t", bytes(b"aa")), ("y", bytes(b"q")), ("q", bytes(b"get_peers"))]);
    assert!(matches!(dht.on_value(&no_a, &loopback(1)), Outcome::Ignore));
    let short_id = dict(vec![
        ("t", bytes(b"aa")),
        ("y", bytes(b"q")),
        ("q", bytes(b"get_peers")),
        ("a", dict(vec![("id", bytes(&[0x11; 9]))])),
    ]);
    assert!(matches!(dht.on_value(&short_id, &loopback(1)), Outcome::Ignore));
    assert_eq!(dht.on_get_peers_query(&short_id, &loopback(1)), None);
}

#[test]
fn token_validation() {
    let mut dht = engine();
    let from = loopback(4000);
    let wrong = announce_peer(b"0000000000000000000000000000000000000000", vec![]);
    assert!(matches!(dht.on_message(&wrong, &from), Outcome::Ignore));
    let implied = announce_peer(
        TOKEN,
        vec![("implied_port", Bencode::Number(1)), ("port", Bencode::Number(7000))],
    );
    let a = expect_announce(dht.on_message(&implied, &from));
    assert_eq!(a.peer.port, 4000);
    assert_eq!(a.peer.ip, "127.0.0.1");
    assert_eq!(a.from.port, 4000);
    assert_eq!(a.info_hash, vec![0x22; 20]);
    assert_eq!(a.info_hash_hex, "2222222222222222222222222222222222222222");
    let explicit = announce_peer(
        TOKEN,
        vec![("implied_port", Bencode::Number(0)), ("port", Bencode::Number(7000))],
    );
    let a = expect_announce(dht.on_message(&explicit, &from));
    assert_eq!(a.peer.port, 7000);
    assert_eq!(a.from.port, 4000);
}

#[test]
fn announce_port_falls_back_to_the_source_port() {
    let mut dht = engine();
    let from = loopback(4000);
    let no_implied = announce_peer(TOKEN, vec![("port", Bencode::Number(7000))]);
    assert_eq!(expect_announce(dht.on_message(&no_implied, &from)).peer.port, 4000);
    let no_port = announce_peer(TOKEN, vec![("implied_port", Bencode::Number(0))]);
    assert_eq!(expect_announce(dht.on_message(&no_port, &from)).peer.port, 4000);
    let text_port = announce_peer(
        TOKEN,
        vec![("implied_port", Bencode::Number(0)), ("port", bytes(b"7000"))],
    );
    assert_eq!(expect_announce(dht.on_message(&text_port, &from)).peer.port, 4000);
    let wide = announce_peer(
        TOKEN,
        vec![("implied_port", Bencode::Number(0)), ("port", Bencode::Number(65536 + 80))],
    );
    assert_eq!(expect_announce(dht.on_message(&wide, &from)).peer.port, 80);
    let negative = announce_peer(
        TOKEN,
        vec![("implied_port", Bencode::Number(0)), ("port", Bencode::Number(-1))],
    );
    assert_eq!(expect_announce(dht.on_message(&negative, &from)).peer.port, 65535);
}

#[test]
fn announce_needs_a_token_and_a_full_info_hash() {
    let mut dht = engine();
    let from = loopback(4000);
    let other_ip = PeerAddr { ip: "10.0.0.7".to_string(), port: 4000 };
    let good = announce_peer(TOKEN, vec![]);
    assert!(matches!(dht.on_message(&good, &other_ip), Outcome::Ignore));
    assert!(matches!(dht.on_message(&good, &from), Outcome::Announce(_)));
    let short_hash = dict(vec![
        ("y", bytes(b"q")),
        ("q", bytes(b"announce_peer")),
        ("a", dict(vec![("info_hash", bytes(&[0x22; 19])), ("token", bytes(TOKEN))])),
    ]);
    assert!(matches!(dht.on_value(&short_hash, &from), Outcome::Ignore));
    let no_hash = dict(vec![
        ("y", bytes(b"q")),
        ("q", bytes(b"announce_peer")),
        ("a", dict(vec![("token", bytes(TOKEN))])),
    ]);
    assert!(matches!(dht.on_value(&no_hash, &from), Outcome::Ignore));
    let no_t = dict(vec![
        ("y", bytes(b"q")),
        ("q", bytes(b"announce_peer")),
        ("a", dict(vec![("info_hash", bytes(&[0x22; 20])), ("token", bytes(TOKEN))])),
    ]);
    assert!(matches!(dht.on_value(&no_t, &from), Outcome::Announce(_)));
    assert!(dht.on_announce_peer_query(&no_hash, &from).is_none());
}

#[test]
fn tokens_are_stable_and_tell_addresses_apart() {
    let dht = engine();
    let a = dht.gen_token(&loopback(1));
    assert_eq!(a, dht.gen_token(&loopback(2)));
    assert_eq!(a.as_bytes(), TOKEN);
    let b = dht.gen_token(&PeerAddr { ip: "10.0.0.7".to_string(), port: 1 });
    assert_eq!(b, "0f158357b7099a37179072c326afd8d8554e72e7");
    assert_ne!(a, b);
    assert!(dht.is_token_available(TOKEN, &loopback(9)));
    assert!(!dht.is_token_available(b"", &loopback(9)));
    assert!(!dht.is_token_available(&TOKEN[..39], &loopback(9)));
}

#[test]
fn other_datagrams_are_dropped() {
    let mut dht = engine();
    let from = loopback(1);
    assert!(matches!(dht.on_message(b"", &from), Outcome::Ignore));
    assert!(matches!(dht.on_message(b"garbage", &from), Outcome::Ignore));
    assert!(matches!(dht.on_message(b"d1:y1:q", &from), Outcome::Ignore));
    assert!(matches!(dht.on_message(b"i1e", &from), Outcome::Ignore));
    assert!(matches!(dht.on_message(b"de", &from), Outcome::Ignore));
    for name in ["ping", "find_node", "vote"] {
        let q = dict(vec![
            ("t", bytes(b"aa")),
            ("y", bytes(b"q")),
            ("q", bytes(name.as_bytes())),
            ("a", dict(vec![("id", bytes(&[0x11; 20]))])),
        ]);
        assert!(matches!(dht.on_value(&q, &from), Outcome::Ignore));
    }
    let no_nodes = dict(vec![("y", bytes(b"r")), ("r", dict(vec![("id", bytes(&[1; 20]))]))]);
    assert!(matches!(dht.on_value(&no_nodes, &from), Outcome::Ignore));
    let number_y = dict(vec![("y", Bencode::Number(1))]);
    assert!(matches!(dht.on_value(&number_y, &from), Outcome::Ignore));
}

fn two_nodes() -> Vec<u8> {
    let mut list = vec![0xaa; 20];
    list.extend_from_slice(&[10, 0, 0, 1, 0, 100]);
    list.extend_from_slice(&[0xbb; 20]);
    list.extend_from_slice(&[10, 0, 0, 2, 0, 200]);
    list
}

#[test]
fn compact_nodes_ingestion() {
    let mut dht = engine();
    let response = dict(vec![
        ("t", bytes(b"aa")),
        ("y", bytes(b"r")),
        ("r", dict(vec![("id", bytes(&[1; 20])), ("nodes", bytes(&two_nodes()))])),
    ])
    .to_bytes()
    .unwrap();
    let friends = match dht.on_message(&response, &loopback(6881)) {
        Outcome::Friends(list) => list,
        _ => panic!("no friends"),
    };
    assert!(!friends.is_empty() && friends.len() <= 2);
    assert_eq!(friends[0].addr, "10.0.0.1:100");
    assert_eq!(friends[0].id, vec![0xaa; 20]);
    if friends.len() == 2 {
        assert_eq!(friends[1].addr, "10.0.0.2:200");
    }
    let probe = bencode::from_buffer(&dht.find_node(&friends[0]).unwrap()).unwrap();
    let a = get(&probe, "a").unwrap();
    let mut id = vec![0xaau8; 10];
    id.extend_from_slice(&local()[..10]);
    assert_eq!(get(&a, "id"), Some(bytes(&id)));
}

#[test]
fn errors_with_nodes_are_taken_as_responses() {
    let mut dht = engine();
    let response = dict(vec![
        ("y", bytes(b"e")),
        ("r", dict(vec![("nodes", bytes(&two_nodes()[..26]))])),
    ]);
    match dht.on_value(&response, &loopback(6881)) {
        Outcome::Friends(list) => {
            assert_eq!(list.len(), 1);
            assert_eq!(list[0].addr, "10.0.0.1:100");
        }
        _ => panic!("no friends"),
    }
    let ragged = dict(vec![
        ("y", bytes(b"r")),
        ("r", dict(vec![("nodes", bytes(&two_nodes()[..27]))])),
    ]);
    match dht.on_value(&ragged, &loopback(6881)) {
        Outcome::Friends(list) => assert!(list.is_empty()),
        _ => panic!("no friends"),
    }
}

#[test]
fn rate_gate_drops_what_comes_too_soon() {
    let mut dht = new_dht().max_friends_per_sec(10);
    assert!(!dht.let_through(99));
    assert!(dht.let_through(100));
    assert!(!dht.let_through(100));
    assert!(!dht.let_through(199));
    assert!(!dht.let_through(50));
    assert!(dht.let_through(200));
    assert!(dht.let_through(1_000_000));
    assert!(!dht.let_through(1_000_099));
    assert!(dht.let_through(1_000_100));
}

#[test]
fn gate_keeps_the_order_of_what_it_lets_through() {
    let mut dht = new_dht().max_friends_per_sec(1000);
    let nodes: Vec<Node> = (0u8..5)
        .map(|i| Node { addr: format!("10.0.0.{}:1", i), id: vec![i; 20] })
        .collect();
    let passed = dht.gate(&nodes);
    assert!(!passed.is_empty());
    let mut at = 0;
    for p in passed.iter() {
        while nodes[at].addr != p.addr {
            at += 1;
        }
        assert_eq!(nodes[at].id, p.id);
        at += 1;
    }
}
