use jitstreamer_eb::netid::{device_ipv6_segments, find_matching_peer, PeerInfo};

#[test]
fn device_address_comes_from_the_digest() {
    // SHA-256 of "abc" begins ba 78 16 bf 8f 01 cf ea, so the interface half
    // of the address carries exactly those bytes.
    let segments = device_ipv6_segments(&"abc".to_string());
    assert_eq!(
        segments,
        vec![0xfd00, 0, 0, 0, 0xba78, 0x16bf, 0x8f01, 0xcfea]
    );
}

#[test]
fn device_address_is_stable_and_device_specific() {
    let a1 = device_ipv6_segments(&"00008110-000A3D643C98801E".to_string());
    let a2 = device_ipv6_segments(&"00008110-000A3D643C98801E".to_string());
    let b = device_ipv6_segments(&"00008110-000A3D643C98801F".to_string());
    assert_eq!(a1, a2);
    assert_ne!(a1, b);
    assert_eq!(a1[0], 0xfd00);
    assert_eq!(&a1[1..4], &[0, 0, 0]);
}

fn peer(ip: &str, key: &str) -> PeerInfo {
    PeerInfo {
        first_allowed_ip: ip.to_string(),
        public_key: key.to_string(),
    }
}

#[test]
fn empty_address_matches_no_peer() {
    let peers = vec![peer("", "k0"), peer("fd00::1", "k1")];
    assert!(find_matching_peer(&peers, &String::new()).is_none());
}

#[test]
fn last_matching_peer_wins() {
    let peers = vec![
        peer("fd00::1", "k1"),
        peer("fd00::2", "k2"),
        peer("fd00::1", "k3"),
    ];
    let found = find_matching_peer(&peers, &"fd00::1".to_string());
    assert_eq!(found.as_deref(), Some("k3"));
}

#[test]
fn unknown_address_matches_no_peer() {
    let peers = vec![peer("fd00::1", "k1")];
    assert!(find_matching_peer(&peers, &"fd00::9".to_string()).is_none());
}
