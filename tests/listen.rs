use cosmoline::discovery::{advertisement, ADVERTISE_INTERVAL_SECS, DISCOVERY_PORT};
use cosmoline::{Address, DatagramError, Handshake, Heard, Ipv4, Listener, PacketError, Peer, Protocol, PublicKey};

fn key(seed: u8) -> PublicKey {
    let secret = ed25519_dalek::SecretKey::from_bytes(&[seed; 32]).unwrap();
    let public: ed25519_dalek::PublicKey = (&secret).into();
    PublicKey::from_bytes(&public.to_bytes()).unwrap()
}

fn addr(a: u8, port: u16) -> Address {
    Address::new(Protocol::Net, Ipv4 { a, b: 0, c: 0, d: 1 }, port, Handshake::Shs)
}

#[test]
fn same_packet_twice_emits_once() {
    let packet = Peer::new(vec![addr(10, 8008)], key(1)).to_discovery_packet();
    let mut l = Listener::new();
    assert!(matches!(l.on_packet(&packet), Heard::New(_)));
    assert!(matches!(l.on_packet(&packet), Heard::Repeat));
    assert_eq!(l.seen_count(), 1);
}

#[test]
fn address_order_is_structural() {
    let p1 = Peer::new(vec![addr(10, 1), addr(11, 2)], key(1));
    let p2 = Peer::new(vec![addr(11, 2), addr(10, 1)], key(1));
    let mut l = Listener::new();
    match l.on_datagram(p1.to_discovery_packet().as_bytes()) {
        Heard::New(p) => assert_eq!(p, p1),
        other => panic!("{:?}", other),
    }
    match l.on_datagram(p2.to_discovery_packet().as_bytes()) {
        Heard::New(p) => assert_eq!(p, p2),
        other => panic!("{:?}", other),
    }
    assert_eq!(l.seen_count(), 2);
    assert!(l.has_seen(&p1) && l.has_seen(&p2));
}

#[test]
fn malformed_datagrams_are_dropped() {
    let mut l = Listener::new();
    assert!(matches!(l.on_datagram(&[0xff, 0xfe]), Heard::Rejected(DatagramError::NotText)));
    assert!(matches!(
        l.on_datagram(b"bogus:::::"),
        Heard::Rejected(DatagramError::Packet(PacketError::MalformedAddress(_)))
    ));
    assert_eq!(l.seen_count(), 0);
}

#[test]
fn listener_continues_after_rejection() {
    let packet = Peer::new(vec![addr(10, 8008)], key(4)).to_discovery_packet();
    let mut l = Listener::new();
    assert!(matches!(l.on_packet("ftp:1.2.3.4:80~shs:x"), Heard::Rejected(_)));
    assert!(matches!(l.on_packet(&packet), Heard::New(_)));
}

#[test]
fn advertisement_needs_an_address() {
    assert!(advertisement(&key(1), &vec![]).is_none());
    let text = advertisement(&key(1), &vec![addr(1, 8023)]).unwrap();
    assert_eq!(text, Peer::new(vec![addr(1, 8023)], key(1)).to_discovery_packet());
}

#[test]
fn well_known_port_and_interval() {
    assert_eq!(DISCOVERY_PORT, 8008);
    assert_eq!(ADVERTISE_INTERVAL_SECS, 1);
}
