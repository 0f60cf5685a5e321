use encrypter::peer::{Connection, Peer, PeerError, PeerSet, RemoteAddr};

fn addr(port: u16) -> RemoteAddr {
    RemoteAddr { host: 0x0000_0000_0000_0000_0000_ffff_7f00_0001, port }
}

fn stream(handle: u64, port: u16) -> Connection {
    Connection { handle, remote: Some(addr(port)) }
}

fn peer(id: &str, handle: u64, port: u16, key: u8) -> Peer {
    Peer::new(id.to_string(), stream(handle, port), [key; 32])
}

fn ids(set: &PeerSet) -> Vec<String> {
    set.values().iter().map(|p| p.peer_id.clone()).collect()
}

/// Every listed peer is found under its own address, and taking all of
/// them out by their addresses leaves nothing.
fn indices_agree(set: &mut PeerSet) -> bool {
    let listed: Vec<Peer> = set.values().clone();
    for p in &listed {
        let at = match p.get_addr() {
            Ok(at) => at,
            Err(_) => return false,
        };
        match set.remove_by_ip(&at) {
            Some(found) if found == *p => {}
            _ => return false,
        }
        if set.find_by_id(&p.peer_id).is_some() {
            return false;
        }
    }
    let emptied = set.values().is_empty();
    for p in listed {
        set.insert(p).unwrap();
    }
    emptied
}

#[test]
fn new_directory_is_empty() {
    let set = PeerSet::new();
    assert!(set.values().is_empty());
    assert!(set.iter().is_empty());
    assert_eq!(set.find_by_id("alice"), None);
}

#[test]
fn get_addr_gives_the_remote_address_or_fails() {
    assert_eq!(peer("a", 1, 4000, 1).get_addr(), Ok(addr(4000)));
    let lost = Peer::new("a".to_string(), Connection { handle: 1, remote: None }, [0; 32]);
    assert_eq!(lost.get_addr(), Err(PeerError::NoAddress));
}

#[test]
fn insert_lists_the_peer_under_both_keys() {
    let mut set = PeerSet::new();
    assert_eq!(set.insert(peer("alice", 1, 4000, 1)), Ok(()));
    assert_eq!(set.insert(peer("bob", 2, 4001, 2)), Ok(()));
    assert_eq!(ids(&set), vec!["alice", "bob"]);
    assert_eq!(set.find_by_id("bob"), Some(&peer("bob", 2, 4001, 2)));
    assert_eq!(set.find_by_id("carol"), None);
    let pairs = set.iter();
    assert_eq!(pairs.len(), 2);
    assert_eq!(pairs[0].0, "alice");
    assert_eq!(pairs[1].1.public_key, [2; 32]);
    assert!(indices_agree(&mut set));
    assert_eq!(set.remove_by_ip(&addr(4000)), Some(peer("alice", 1, 4000, 1)));
    assert_eq!(ids(&set), vec!["bob"]);
}

#[test]
fn insert_refuses_a_peer_without_an_address() {
    let mut set = PeerSet::new();
    set.insert(peer("alice", 1, 4000, 1)).unwrap();
    let lost = Peer::new("bob".to_string(), Connection { handle: 2, remote: None }, [2; 32]);
    assert_eq!(set.insert(lost), Err(PeerError::NoAddress));
    assert_eq!(ids(&set), vec!["alice"]);
}

#[test]
fn remove_by_id_takes_both_entries_out() {
    let mut set = PeerSet::new();
    set.insert(peer("a", 1, 4000, 1)).unwrap();
    set.insert(peer("b", 2, 4001, 2)).unwrap();
    set.insert(peer("c", 3, 4002, 3)).unwrap();
    assert_eq!(set.remove_by_id("b"), Some(peer("b", 2, 4001, 2)));
    assert_eq!(ids(&set), vec!["a", "c"]);
    assert_eq!(set.find_by_id("b"), None);
    assert_eq!(set.remove_by_ip(&addr(4001)), None);
    assert_eq!(set.remove_by_id("b"), None);
    assert_eq!(ids(&set), vec!["a", "c"]);
    assert!(indices_agree(&mut set));
}

#[test]
fn remove_by_ip_takes_both_entries_out() {
    let mut set = PeerSet::new();
    set.insert(peer("a", 1, 4000, 1)).unwrap();
    set.insert(peer("b", 2, 4001, 2)).unwrap();
    assert_eq!(set.remove_by_ip(&addr(4000)), Some(peer("a", 1, 4000, 1)));
    assert_eq!(ids(&set), vec!["b"]);
    assert_eq!(set.remove_by_ip(&addr(4000)), None);
    assert_eq!(set.remove_by_ip(&addr(9)), None);
    assert_eq!(set.remove_by_id("a"), None);
    assert_eq!(ids(&set), vec!["b"]);
}

#[test]
fn a_peer_that_is_listed_again_elsewhere_leaves_its_old_address() {
    let mut set = PeerSet::new();
    set.insert(peer("alice", 1, 4000, 1)).unwrap();
    set.insert(peer("bob", 2, 4001, 2)).unwrap();
    assert_eq!(set.insert(peer("alice", 3, 4002, 9)), Ok(()));
    assert_eq!(ids(&set), vec!["bob", "alice"]);
    assert_eq!(set.iter().len(), 2);
    assert_eq!(set.find_by_id("alice"), Some(&peer("alice", 3, 4002, 9)));
    assert!(indices_agree(&mut set));
    // her first address names nobody any more: when it ends, nothing happens
    assert_eq!(set.remove_by_ip(&addr(4000)), None);
    assert_eq!(ids(&set), vec!["bob", "alice"]);
    // her second address names her
    assert_eq!(set.remove_by_ip(&addr(4002)), Some(peer("alice", 3, 4002, 9)));
    assert_eq!(ids(&set), vec!["bob"]);
    assert!(indices_agree(&mut set));
}

#[test]
fn the_same_peer_listed_again_keeps_the_indices_in_agreement() {
    let mut set = PeerSet::new();
    set.insert(peer("alice", 1, 4000, 1)).unwrap();
    set.insert(peer("bob", 2, 4001, 2)).unwrap();
    set.insert(peer("alice", 1, 4000, 7)).unwrap();
    assert_eq!(ids(&set), vec!["bob", "alice"]);
    assert_eq!(set.find_by_id("alice").unwrap().public_key, [7; 32]);
    assert!(indices_agree(&mut set));
    assert_eq!(set.remove_by_id("alice"), Some(peer("alice", 1, 4000, 7)));
    assert_eq!(set.remove_by_ip(&addr(4000)), None);
    assert!(indices_agree(&mut set));
}

#[test]
fn a_second_identity_on_the_same_address_takes_the_place_of_the_first() {
    let mut set = PeerSet::new();
    set.insert(peer("alice", 1, 4000, 1)).unwrap();
    set.insert(peer("bob", 2, 4001, 2)).unwrap();
    set.insert(peer("eve", 1, 4000, 5)).unwrap();
    assert_eq!(ids(&set), vec!["bob", "eve"]);
    assert_eq!(set.find_by_id("alice"), None);
    assert!(indices_agree(&mut set));
    assert_eq!(set.remove_by_ip(&addr(4000)), Some(peer("eve", 1, 4000, 5)));
    assert_eq!(ids(&set), vec!["bob"]);
}

#[test]
fn a_peer_that_takes_an_identity_and_an_address_replaces_both_owners() {
    let mut set = PeerSet::new();
    set.insert(peer("alice", 1, 4000, 1)).unwrap();
    set.insert(peer("bob", 2, 4001, 2)).unwrap();
    set.insert(peer("carol", 3, 4002, 3)).unwrap();
    // alice comes back over bob's address
    set.insert(peer("alice", 2, 4001, 9)).unwrap();
    assert_eq!(ids(&set), vec!["carol", "alice"]);
    assert!(indices_agree(&mut set));
    assert_eq!(set.remove_by_ip(&addr(4000)), None);
    assert_eq!(set.remove_by_id("bob"), None);
    assert_eq!(set.remove_by_ip(&addr(4001)), Some(peer("alice", 2, 4001, 9)));
    assert_eq!(ids(&set), vec!["carol"]);
}

#[test]
fn addresses_differ_by_host_and_by_port() {
    let mut set = PeerSet::new();
    set.insert(Peer::new(
        "a".to_string(),
        Connection { handle: 1, remote: Some(RemoteAddr { host: 1, port: 80 }) },
        [1; 32],
    ))
    .unwrap();
    assert_eq!(set.remove_by_ip(&RemoteAddr { host: 2, port: 80 }), None);
    assert_eq!(set.remove_by_ip(&RemoteAddr { host: 1, port: 81 }), None);
    assert!(set.remove_by_ip(&RemoteAddr { host: 1, port: 80 }).is_some());
}
