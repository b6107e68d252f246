use cosmoline::{Address, AddressError, Handshake, Ipv4, PacketError, Peer, Protocol, PublicKey};

fn key_bytes(seed: u8) -> Vec<u8> {
    let secret = ed25519_dalek::SecretKey::from_bytes(&[seed; 32]).unwrap();
    let public: ed25519_dalek::PublicKey = (&secret).into();
    public.to_bytes().to_vec()
}

fn key(seed: u8) -> PublicKey {
    PublicKey::from_bytes(&key_bytes(seed)).unwrap()
}

fn b64(seed: u8) -> String {
    base64::encode(key_bytes(seed))
}

fn addr(p: Protocol, a: u8, b: u8, c: u8, d: u8, port: u16, h: Handshake) -> Address {
    Address::new(p, Ipv4 { a, b, c, d }, port, h)
}

#[test]
fn example_vector_encodes_exactly() {
    let peer = Peer::new(vec![addr(Protocol::Net, 1, 2, 3, 4, 8023, Handshake::Shs)], key(1));
    let packet = peer.to_discovery_packet();
    assert_eq!(packet, format!("net:1.2.3.4:8023~shs:{}", b64(1)));
    let back = Peer::from_discovery_packet(&packet).unwrap();
    assert_eq!(back, peer);
}

#[test]
fn example_vector_decodes() {
    let text = format!("net:1.2.3.4:8023~shs:{}", b64(1));
    let peer = Peer::from_discovery_packet(&text).unwrap();
    assert_eq!(peer.addresses().len(), 1);
    assert_eq!(peer.addresses()[0], addr(Protocol::Net, 1, 2, 3, 4, 8023, Handshake::Shs));
    assert_eq!(peer.key().to_bytes(), key_bytes(1));
}

#[test]
fn round_trip_many_addresses() {
    let peer = Peer::new(
        vec![
            addr(Protocol::Net, 192, 168, 0, 10, 8008, Handshake::Shs),
            addr(Protocol::Ws, 10, 0, 0, 1, 0, Handshake::Shs2),
            addr(Protocol::Wss, 255, 255, 255, 255, 65535, Handshake::Shs),
            addr(Protocol::Net, 0, 0, 0, 0, 1, Handshake::Shs2),
        ],
        key(2),
    );
    let packet = peer.to_discovery_packet();
    assert_eq!(packet.matches(';').count(), 3);
    let back = Peer::from_discovery_packet(&packet).unwrap();
    assert_eq!(back, peer);
}

#[test]
fn two_segments_encode_with_repeated_key() {
    let peer = Peer::new(
        vec![
            addr(Protocol::Net, 1, 2, 3, 4, 8023, Handshake::Shs),
            addr(Protocol::Wss, 5, 6, 7, 8, 443, Handshake::Shs2),
        ],
        key(3),
    );
    let k = b64(3);
    assert_eq!(
        peer.to_discovery_packet(),
        format!("net:1.2.3.4:8023~shs:{};wss:5.6.7.8:443~shs2:{}", k, k)
    );
}

#[test]
fn bogus_segment_is_malformed() {
    let r = Peer::from_discovery_packet("bogus:::::");
    assert!(matches!(r, Err(PacketError::MalformedAddress(_))));
}

#[test]
fn empty_packet_is_rejected() {
    assert_eq!(Peer::from_discovery_packet("").unwrap_err(), PacketError::Empty);
}

#[test]
fn different_keys_mismatch() {
    let text = format!("net:1.2.3.4:8023~shs:{};net:1.2.3.5:8023~shs:{}", b64(1), b64(2));
    assert_eq!(Peer::from_discovery_packet(&text).unwrap_err(), PacketError::KeyMismatch);
}

#[test]
fn unknown_protocol_is_rejected() {
    let text = format!("ftp:1.2.3.4:80~shs:{}", b64(1));
    assert_eq!(
        Peer::from_discovery_packet(&text).unwrap_err(),
        PacketError::MalformedAddress(AddressError::UnknownProtocol)
    );
}

#[test]
fn unknown_handshake_is_rejected() {
    let text = format!("net:1.2.3.4:80~telepathy:{}", b64(1));
    assert_eq!(
        Peer::from_discovery_packet(&text).unwrap_err(),
        PacketError::MalformedAddress(AddressError::UnknownHandshake)
    );
}

#[test]
fn bad_host_is_rejected() {
    for host in ["1.2.3", "1.2.3.256", "01.2.3.4", "a.b.c.d", "1..3.4", "1.2.3.4.5"] {
        let text = format!("net:{}:80~shs:{}", host, b64(1));
        assert_eq!(
            Peer::from_discovery_packet(&text).unwrap_err(),
            PacketError::MalformedAddress(AddressError::BadHost),
            "{}",
            host
        );
    }
}

#[test]
fn bad_port_is_rejected() {
    for port in ["65536", "", "8o", "123456", "-1"] {
        let text = format!("net:1.2.3.4:{}~shs:{}", port, b64(1));
        assert_eq!(
            Peer::from_discovery_packet(&text).unwrap_err(),
            PacketError::MalformedAddress(AddressError::BadPort),
            "{}",
            port
        );
    }
}

#[test]
fn largest_port_is_accepted() {
    let text = format!("net:1.2.3.4:65535~shs:{}", b64(1));
    let peer = Peer::from_discovery_packet(&text).unwrap();
    assert_eq!(peer.addresses()[0].port, 65535);
}

#[test]
fn missing_fields_are_rejected() {
    for seg in ["net:1.2.3.4:80", "net:1.2.3.4~shs:x", "net:1.2.3.4:80~shs", "net~a~b:c"] {
        assert_eq!(
            Peer::from_discovery_packet(seg).unwrap_err(),
            PacketError::MalformedAddress(AddressError::FieldCount),
            "{}",
            seg
        );
    }
}

#[test]
fn bad_key_text_is_rejected() {
    assert_eq!(
        Peer::from_discovery_packet("net:1.2.3.4:80~shs:!!!").unwrap_err(),
        PacketError::InvalidKeyEncoding
    );
    let short = base64::encode([1u8; 16]);
    let text = format!("net:1.2.3.4:80~shs:{}", short);
    assert_eq!(Peer::from_discovery_packet(&text).unwrap_err(), PacketError::InvalidKeyEncoding);
}

#[test]
fn key_base64_round_trip() {
    let k = key(5);
    let text = k.to_base64();
    assert_eq!(text, b64(5));
    assert_eq!(PublicKey::from_base64(&text).unwrap(), k);
    assert!(PublicKey::from_base64("not base64").is_none());
}

#[test]
fn key_bytes_must_be_thirty_two() {
    assert!(PublicKey::from_bytes(&[0u8; 31]).is_none());
    assert!(PublicKey::from_bytes(&key_bytes(9)).is_some());
}

#[test]
fn key_bytes_must_be_a_curve_point() {
    let mut off_curve = [0u8; 32];
    off_curve[0] = 2;
    assert!(PublicKey::from_bytes(&off_curve).is_none());
    let text = format!("net:1.2.3.4:80~shs:{}", base64::encode(off_curve));
    assert_eq!(Peer::from_discovery_packet(&text).unwrap_err(), PacketError::InvalidKeyEncoding);
}

#[test]
fn address_text_round_trip() {
    let a = addr(Protocol::Ws, 127, 0, 0, 1, 8080, Handshake::Shs2);
    assert_eq!(a.encode(), "ws:127.0.0.1:8080~shs2");
    assert_eq!(Address::decode("ws:127.0.0.1:8080~shs2").unwrap(), a);
    assert_eq!(Address::decode("wss:1.2.3.4:1~shs").unwrap().protocol, Protocol::Wss);
    assert_eq!(Address::decode("udp:1.2.3.4:1~shs").unwrap_err(), AddressError::UnknownProtocol);
}

#[test]
fn port_with_leading_zeros_reads_as_number() {
    let text = format!("net:1.2.3.4:00080~shs:{}", b64(1));
    let peer = Peer::from_discovery_packet(&text).unwrap();
    assert_eq!(peer.addresses()[0].port, 80);
}
