//! A peer descriptor (an identity and the addresses it is reached at) and the
//! discovery packet that describes it: one `<address>:<base64 key>` segment
//! per address, joined with `;`.
use crate::address::{
    address_text, endpoint_of, endpoint_text, handshake_of, handshake_token, host_text,
    lemma_address_text, lemma_host, lemma_port, parse_endpoint, parse_handshake, protocol_token,
    push_address, Address, AddressError, Handshake, Protocol,
};
use crate::decimal::dec;
use crate::key::{base64_text, is_base64_char, key_of, valid_key, PublicKey};
use crate::text::{
    chars_of, free_of, join, lemma_join2, lemma_join_free, lemma_split_join,
    lemma_split_nonempty, push_char, push_chars, split, split_chars, views,
};
use vstd::prelude::*;

verus! {

/// Why a discovery packet describes no peer.
#[derive(Clone, Copy, Debug, PartialEq, Eq, Structural)]
pub enum PacketError {
    /// The packet holds no text at all.
    Empty,
    /// A segment holds no well-formed address.
    MalformedAddress(AddressError),
    /// A segment's key is no base64 text of a valid public key.
    InvalidKeyEncoding,
    /// Two segments name different keys.
    KeyMismatch,
}

/// What a peer descriptor stands for.
pub struct PeerView {
    pub addresses: Seq<Address>,
    pub key: Seq<u8>,
}

/// A peer: its public key and the addresses it can be reached at, in order.
#[derive(Debug)]
pub struct Peer {
    addresses: Vec<Address>,
    key: PublicKey,
}

/// A descriptor that can be built: at least one address and a valid key.
pub open spec fn constructible(v: PeerView) -> bool {
    v.addresses.len() >= 1 && valid_key(v.key)
}

/// `t` is a base64 text of the key `k`.
pub open spec fn key_text_of(t: Seq<char>, k: Seq<u8>) -> bool {
    &&& key_of(t) == Some(k)
    &&& forall|i: int| 0 <= i < t.len() ==> is_base64_char(#[trigger] t[i])
}

/// `<address>:<key text>`
pub open spec fn segment_text(a: Address, key_text: Seq<char>) -> Seq<char> {
    address_text(a).push(':') + key_text
}

pub open spec fn segments(addresses: Seq<Address>, key_text: Seq<char>) -> Seq<Seq<char>> {
    Seq::new(addresses.len(), |i: int| segment_text(addresses[i], key_text))
}

/// The packet that announces the addresses, each with the key text.
pub open spec fn packet_text(addresses: Seq<Address>, key_text: Seq<char>) -> Seq<char> {
    join(segments(addresses, key_text), ';')
}

/// The address and key text of `<endpoint>~<handshake>:<key text>`.
pub open spec fn segment_of(s: Seq<char>) -> Result<(Address, Seq<char>), AddressError> {
    let parts = split(s, '~');
    if parts.len() != 2 {
        Err(AddressError::FieldCount)
    } else {
        match endpoint_of(parts[0]) {
            Err(e) => Err(e),
            Ok((p, h, n)) => {
                let tail = split(parts[1], ':');
                if tail.len() != 2 {
                    Err(AddressError::FieldCount)
                } else {
                    match handshake_of(tail[0]) {
                        None => Err(AddressError::UnknownHandshake),
                        Some(s) => Ok(
                            (Address { protocol: p, host: h, port: n, handshake: s }, tail[1]),
                        ),
                    }
                }
            },
        }
    }
}

/// The address and key of one segment.
pub open spec fn segment_result(s: Seq<char>) -> Result<(Address, Seq<u8>), PacketError> {
    match segment_of(s) {
        Err(e) => Err(PacketError::MalformedAddress(e)),
        Ok((a, t)) => match key_of(t) {
            None => Err(PacketError::InvalidKeyEncoding),
            Some(k) => Ok((a, k)),
        },
    }
}

/// The descriptor that the first `n` segments give, read from left to right:
/// the first failure decides.
pub open spec fn decode_prefix(segs: Seq<Seq<char>>, n: nat) -> Result<PeerView, PacketError>
    decreases n,
{
    if n == 0 {
        Ok(PeerView { addresses: Seq::empty(), key: Seq::empty() })
    } else {
        match decode_prefix(segs, (n - 1) as nat) {
            Err(e) => Err(e),
            Ok(v) => match segment_result(segs[n - 1]) {
                Err(e) => Err(e),
                Ok((a, k)) => if n > 1 && k != v.key {
                    Err(PacketError::KeyMismatch)
                } else {
                    Ok(PeerView { addresses: v.addresses.push(a), key: k })
                },
            },
        }
    }
}

/// The descriptor that a discovery packet describes.
pub open spec fn packet_of(t: Seq<char>) -> Result<PeerView, PacketError> {
    if t.len() == 0 {
        Err(PacketError::Empty)
    } else {
        decode_prefix(split(t, ';'), split(t, ';').len())
    }
}

proof fn lemma_prefix_error(segs: Seq<Seq<char>>, n: nat, m: nat)
    requires
        n <= m,
        decode_prefix(segs, n) is Err,
    ensures
        decode_prefix(segs, m) == decode_prefix(segs, n),
    decreases m,
{
    if m > n {
        lemma_prefix_error(segs, n, (m - 1) as nat);
    }
}

/// A segment reads back as its address and key text.
proof fn lemma_segment(a: Address, t: Seq<char>)
    requires
        free_of(t, ':'),
        free_of(t, '~'),
        free_of(t, ';'),
    ensures
        segment_of(segment_text(a, t)) == Ok::<(Address, Seq<char>), AddressError>((a, t)),
        free_of(segment_text(a, t), ';'),
{
    lemma_address_text(a);
    let e = endpoint_text(a);
    let h = handshake_token(a.handshake);
    lemma_join2(h, t, ':');
    let ht = join(seq![h, t], ':');
    lemma_join2(e, ht, '~');
    assert(segment_text(a, t) == join(seq![e, ht], '~'));
    lemma_join_free(seq![h, t], ':', '~');
    lemma_split_join(seq![e, ht], '~');
    lemma_split_join(seq![h, t], ':');
    lemma_join_free(seq![e, ht], '~', ';');
}

proof fn lemma_base64_free(t: Seq<char>)
    requires
        forall|i: int| 0 <= i < t.len() ==> is_base64_char(#[trigger] t[i]),
    ensures
        free_of(t, ':'),
        free_of(t, '~'),
        free_of(t, ';'),
{
    assert forall|i: int| 0 <= i < t.len() implies t[i] != ':' && t[i] != '~' && t[i] != ';' by {
        assert(is_base64_char(t[i]));
    }
}

/// Decoding the packet of a constructible descriptor gives the descriptor back.
pub proof fn lemma_round_trip(v: PeerView, key_text: Seq<char>)
    requires
        constructible(v),
        key_text_of(key_text, v.key),
    ensures
        packet_of(packet_text(v.addresses, key_text)) == Ok::<PeerView, PacketError>(v),
{
    lemma_base64_free(key_text);
    let segs = segments(v.addresses, key_text);
    assert forall|i: int| 0 <= i < segs.len() implies free_of(#[trigger] segs[i], ';') by {
        lemma_segment(v.addresses[i], key_text);
    }
    lemma_split_join(segs, ';');
    let t = packet_text(v.addresses, key_text);
    assert(t.len() > 0) by {
        if t.len() == 0 {
            assert(split(t, ';') == seq![Seq::<char>::empty()]);
            lemma_segment(v.addresses[0], key_text);
            assert(segs[0] == Seq::<char>::empty());
            assert(address_text(v.addresses[0]).push(':').len() > 0);
        }
    }
    lemma_decode_segments(v, key_text, segs.len());
    assert(v.addresses.take(segs.len() as int) == v.addresses);
}

proof fn lemma_decode_segments(v: PeerView, key_text: Seq<char>, n: nat)
    requires
        constructible(v),
        key_text_of(key_text, v.key),
        n <= v.addresses.len(),
    ensures
        decode_prefix(segments(v.addresses, key_text), n) == Ok::<PeerView, PacketError>(
            PeerView {
                addresses: v.addresses.take(n as int),
                key: if n == 0 {
                    Seq::empty()
                } else {
                    v.key
                },
            },
        ),
    decreases n,
{
    if n == 0 {
        assert(v.addresses.take(0) =~= Seq::<Address>::empty());
    } else {
        lemma_decode_segments(v, key_text, (n - 1) as nat);
        lemma_base64_free(key_text);
        let a = v.addresses[n - 1];
        lemma_segment(a, key_text);
        assert(segments(v.addresses, key_text)[n - 1] == segment_text(a, key_text));
        assert(segment_result(segment_text(a, key_text)) == Ok::<(Address, Seq<u8>), PacketError>(
            (a, v.key),
        ));
        assert(v.addresses.take(n - 1).push(a) =~= v.addresses.take(n as int));
    }
}

/// A packet of two segments whose keys differ is refused for the mismatch,
/// whatever the two addresses are.
pub proof fn lemma_key_mismatch(
    a1: Address,
    a2: Address,
    t1: Seq<char>,
    t2: Seq<char>,
    k1: Seq<u8>,
    k2: Seq<u8>,
)
    requires
        key_text_of(t1, k1),
        key_text_of(t2, k2),
        k1 != k2,
    ensures
        packet_of(join(seq![segment_text(a1, t1), segment_text(a2, t2)], ';')) == Err::<
            PeerView,
            PacketError,
        >(PacketError::KeyMismatch),
{
    lemma_base64_free(t1);
    lemma_base64_free(t2);
    lemma_segment(a1, t1);
    lemma_segment(a2, t2);
    let segs = seq![segment_text(a1, t1), segment_text(a2, t2)];
    assert forall|i: int| 0 <= i < segs.len() implies free_of(#[trigger] segs[i], ';') by {}
    lemma_split_join(segs, ';');
    let t = join(segs, ';');
    lemma_join2(segment_text(a1, t1), segment_text(a2, t2), ';');
    assert(t.len() > 0);
    assert(decode_prefix(segs, 1) == Ok::<PeerView, PacketError>(
        PeerView { addresses: seq![a1], key: k1 },
    )) by {
        assert(segs[0] == segment_text(a1, t1));
        assert(decode_prefix(segs, 0) == Ok::<PeerView, PacketError>(
            PeerView { addresses: Seq::empty(), key: Seq::empty() },
        ));
        assert(segment_result(segs[0]) == Ok::<(Address, Seq<u8>), PacketError>((a1, k1)));
        assert(Seq::<Address>::empty().push(a1) =~= seq![a1]);
    }
    assert(segs[1] == segment_text(a2, t2));
    assert(segment_result(segs[1]) == Ok::<(Address, Seq<u8>), PacketError>((a2, k2)));
}

/// How `<e>~<h>:<t>` splits, when no part holds a separator.
proof fn lemma_segment_parts(e: Seq<char>, h: Seq<char>, t: Seq<char>)
    requires
        free_of(e, '~'),
        free_of(e, ';'),
        free_of(h, '~'),
        free_of(h, ':'),
        free_of(h, ';'),
        free_of(t, '~'),
        free_of(t, ':'),
        free_of(t, ';'),
    ensures
        split(e.push('~') + h.push(':') + t, '~') == seq![e, h.push(':') + t],
        split(h.push(':') + t, ':') == seq![h, t],
        free_of(e.push('~') + h.push(':') + t, ';'),
        split(e.push('~') + h.push(':') + t, ';') == seq![e.push('~') + h.push(':') + t],
{
    lemma_join2(h, t, ':');
    lemma_join_free(seq![h, t], ':', '~');
    lemma_join_free(seq![h, t], ':', ';');
    lemma_split_join(seq![h, t], ':');
    let ht = h.push(':') + t;
    lemma_join2(e, ht, '~');
    assert(e.push('~') + h.push(':') + t == e.push('~') + ht);
    lemma_split_join(seq![e, ht], '~');
    lemma_join_free(seq![e, ht], '~', ';');
    lemma_split_join(seq![e.push('~') + ht], ';');
}

/// A packet of one segment gives what that segment gives.
proof fn lemma_one_segment(s: Seq<char>)
    requires
        s.len() > 0,
        split(s, ';') == seq![s],
    ensures
        packet_of(s) == match segment_result(s) {
            Err(e) => Err(e),
            Ok((a, k)) => Ok(PeerView { addresses: seq![a], key: k }),
        },
{
    let segs = split(s, ';');
    assert(decode_prefix(segs, 0) == Ok::<PeerView, PacketError>(
        PeerView { addresses: Seq::empty(), key: Seq::empty() },
    ));
    assert forall|a: Address| Seq::<Address>::empty().push(a) =~= seq![a] by {}
}

/// A segment whose protocol is `ftp` is refused as an unknown protocol,
/// whatever its host, port, handshake and key.
pub proof fn lemma_unknown_protocol(a: Address, t: Seq<char>, k: Seq<u8>)
    requires
        key_text_of(t, k),
    ensures
        packet_of(
            join(seq![seq!['f', 't', 'p'], host_text(a.host), dec(a.port as nat)], ':').push('~')
                + handshake_token(a.handshake).push(':') + t,
        ) == Err::<PeerView, PacketError>(
            PacketError::MalformedAddress(AddressError::UnknownProtocol),
        ),
{
    let ftp = seq!['f', 't', 'p'];
    let fields = seq![ftp, host_text(a.host), dec(a.port as nat)];
    let e = join(fields, ':');
    let h = handshake_token(a.handshake);
    lemma_host(a.host);
    lemma_port(a.port);
    lemma_address_text(a);
    lemma_base64_free(t);
    assert(free_of(ftp, ':') && free_of(ftp, '~') && free_of(ftp, ';'));
    lemma_split_join(fields, ':');
    lemma_join_free(fields, ':', '~');
    lemma_join_free(fields, ':', ';');
    lemma_segment_parts(e, h, t);
    let s = e.push('~') + h.push(':') + t;
    assert(s.len() > 0);
    lemma_one_segment(s);
    assert(ftp != protocol_token(Protocol::Net) && ftp != protocol_token(Protocol::Ws)
        && ftp != protocol_token(Protocol::Wss)) by {
        assert(ftp[0] != protocol_token(Protocol::Net)[0]);
        assert(ftp[0] != protocol_token(Protocol::Ws)[0]);
        assert(ftp[0] != protocol_token(Protocol::Wss)[0]);
    }
}

/// A segment whose handshake is `telepathy` is refused as an unknown
/// handshake, whatever its endpoint and key.
pub proof fn lemma_unknown_handshake(a: Address, t: Seq<char>, k: Seq<u8>)
    requires
        key_text_of(t, k),
    ensures
        packet_of(
            endpoint_text(a).push('~') + seq!['t', 'e', 'l', 'e', 'p', 'a', 't', 'h', 'y'].push(':')
                + t,
        ) == Err::<PeerView, PacketError>(
            PacketError::MalformedAddress(AddressError::UnknownHandshake),
        ),
{
    let h = seq!['t', 'e', 'l', 'e', 'p', 'a', 't', 'h', 'y'];
    let e = endpoint_text(a);
    lemma_address_text(a);
    lemma_base64_free(t);
    assert(free_of(h, ':') && free_of(h, '~') && free_of(h, ';'));
    lemma_segment_parts(e, h, t);
    let s = e.push('~') + h.push(':') + t;
    assert(s.len() > 0);
    lemma_one_segment(s);
    assert(h != handshake_token(Handshake::Shs) && h != handshake_token(
        Handshake::Shs2,
    )) by {
        assert(h[0] != handshake_token(Handshake::Shs)[0]);
        assert(h[0] != handshake_token(Handshake::Shs2)[0]);
    }
}

/// Reads the address and key text of one segment.
fn parse_segment(s: &Vec<char>) -> (r: Result<(Address, Vec<char>), AddressError>)
    ensures
        r matches Ok((a, t)) ==> segment_of(s@) == Ok::<(Address, Seq<char>), AddressError>(
            (a, t@),
        ),
        r matches Err(e) ==> segment_of(s@) == Err::<(Address, Seq<char>), AddressError>(e),
{
    let parts = split_chars(s, '~');
    if parts.len() != 2 {
        return Err(AddressError::FieldCount);
    }
    assert(parts[0]@ == split(s@, '~')[0]);
    assert(parts[1]@ == split(s@, '~')[1]);
    let (p, h, n) = match parse_endpoint(&parts[0]) {
        Err(e) => return Err(e),
        Ok(x) => x,
    };
    let tail = split_chars(&parts[1], ':');
    if tail.len() != 2 {
        return Err(AddressError::FieldCount);
    }
    assert(tail[0]@ == split(parts[1]@, ':')[0]);
    assert(tail[1]@ == split(parts[1]@, ':')[1]);
    match parse_handshake(&tail[0]) {
        None => Err(AddressError::UnknownHandshake),
        Some(hs) => {
            let a = Address { protocol: p, host: h, port: n, handshake: hs };
            let mut tail = tail;
            let t = tail.pop().unwrap();
            Ok((a, t))
        },
    }
}

impl View for Peer {
    type V = PeerView;

    closed spec fn view(&self) -> PeerView {
        PeerView { addresses: self.addresses@, key: self.key@ }
    }
}

impl Peer {
    #[verifier::type_invariant]
    spec fn inv(&self) -> bool {
        self.addresses.len() >= 1
    }

    /// The peer reached at `addresses` (at least one) under `key`.
    pub fn new(addresses: Vec<Address>, key: PublicKey) -> (r: Peer)
        requires
            addresses.len() >= 1,
        ensures
            r@ == (PeerView { addresses: addresses@, key: key@ }),
    {
        Peer { addresses, key }
    }

    pub fn addresses(&self) -> (r: &Vec<Address>)
        ensures
            r@ == self@.addresses,
            r@.len() >= 1,
    {
        proof {
            use_type_invariant(self);
        }
        &self.addresses
    }

    pub fn key(&self) -> (r: &PublicKey)
        ensures
            r@ == self@.key,
    {
        &self.key
    }

    /// The discovery packet that announces this peer. It reads back as the
    /// same peer.
    pub fn to_discovery_packet(&self) -> (r: String)
        ensures
            r@ == packet_text(self@.addresses, base64_text(self@.key)),
            constructible(self@),
            packet_of(r@) == Ok::<PeerView, PacketError>(self@),
    {
        proof {
            use_type_invariant(self);
        }
        let key_text = self.key.to_base64();
        let kt = chars_of(key_text.as_str());
        let ghost segs = segments(self@.addresses, kt@);
        let mut out = String::new();
        let mut i: usize = 0;
        while i < self.addresses.len()
            invariant
                segs == segments(self@.addresses, kt@),
                self.addresses@ == self@.addresses,
                i <= self.addresses.len(),
                out@ == join(segs.take(i as int), ';'),
            decreases self.addresses.len() - i,
        {
            let ghost before = out@;
            if i > 0 {
                push_char(&mut out, ';');
            }
            push_address(&mut out, &self.addresses[i]);
            push_char(&mut out, ':');
            push_chars(&mut out, &kt);
            proof {
                let t = segs.take(i as int + 1);
                assert(t.drop_last() =~= segs.take(i as int));
                assert(t.last() == segs[i as int]);
                if i == 0 {
                    assert(before =~= Seq::<char>::empty());
                    assert(out@ =~= segs[0]);
                    assert(t =~= seq![segs[0]]);
                } else {
                    assert(out@ =~= before.push(';') + segs[i as int]);
                }
            }
            i = i + 1;
        }
        proof {
            assert(segs.take(self.addresses.len() as int) =~= segs);
            lemma_round_trip(self@, kt@);
        }
        out
    }

    /// The peer that a discovery packet describes, or why it describes none.
    pub fn from_discovery_packet(packet: &str) -> (r: Result<Peer, PacketError>)
        ensures
            r matches Ok(p) ==> packet_of(packet@) == Ok::<PeerView, PacketError>(p@),
            r matches Err(e) ==> packet_of(packet@) == Err::<PeerView, PacketError>(e),
    {
        let chars = chars_of(packet);
        if chars.len() == 0 {
            return Err(PacketError::Empty);
        }
        let segs = split_chars(&chars, ';');
        let ghost sv = views(segs@);
        proof {
            lemma_split_nonempty(chars@, ';');
        }
        let mut addresses: Vec<Address> = Vec::new();
        let mut key: Option<PublicKey> = None;
        let mut i: usize = 0;
        while i < segs.len()
            invariant
                sv == views(segs@),
                sv == split(chars@, ';'),
                chars@ == packet@,
                chars@.len() > 0,
                segs.len() >= 1,
                i <= segs.len(),
                (i == 0) == (key is None),
                i > 0 ==> addresses@.len() >= 1,
                decode_prefix(sv, i as nat) == Ok::<PeerView, PacketError>(
                    PeerView {
                        addresses: addresses@,
                        key: match key {
                            Some(k) => k@,
                            None => Seq::empty(),
                        },
                    },
                ),
            decreases segs.len() - i,
        {
            assert(segs[i as int]@ == sv[i as int]);
            let (a, t) = match parse_segment(&segs[i]) {
                Err(e) => {
                    proof {
                        lemma_prefix_error(sv, i as nat + 1, sv.len());
                    }
                    return Err(PacketError::MalformedAddress(e));
                },
                Ok(x) => x,
            };
            let k = match PublicKey::from_base64_chars(&t) {
                None => {
                    proof {
                        lemma_prefix_error(sv, i as nat + 1, sv.len());
                    }
                    return Err(PacketError::InvalidKeyEncoding);
                },
                Some(k) => k,
            };
            match &key {
                Some(k0) => {
                    if !k0.same(&k) {
                        proof {
                            lemma_prefix_error(sv, i as nat + 1, sv.len());
                        }
                        return Err(PacketError::KeyMismatch);
                    }
                },
                None => {},
            }
            addresses.push(a);
            key = Some(k);
            i = i + 1;
        }
        Ok(Peer { addresses, key: key.unwrap() })
    }
}

impl Clone for Peer {
    fn clone(&self) -> (r: Peer)
        ensures
            r@ == self@,
    {
        proof {
            use_type_invariant(self);
        }
        Peer { addresses: self.addresses.clone(), key: self.key.clone() }
    }
}

/// The two lists hold the same addresses in the same order.
fn same_addresses(a: &Vec<Address>, b: &Vec<Address>) -> (r: bool)
    ensures
        r == (a@ == b@),
{
    if a.len() != b.len() {
        return false;
    }
    let mut i: usize = 0;
    while i < a.len()
        invariant
            a.len() == b.len(),
            i <= a.len(),
            forall|j: int| 0 <= j < i ==> a@[j] == b@[j],
        decreases a.len() - i,
    {
        if a[i] != b[i] {
            assert(a@[i as int] != b@[i as int]);
            return false;
        }
        i = i + 1;
    }
    assert(a@ =~= b@);
    true
}

impl Peer {
    /// The two descriptors have the same addresses, in the same order, and
    /// the same key.
    pub fn same(&self, other: &Peer) -> (r: bool)
        ensures
            r == (self@ == other@),
    {
        same_addresses(&self.addresses, &other.addresses) && self.key.same(&other.key)
    }
}

impl PartialEq for Peer {
    fn eq(&self, other: &Peer) -> (r: bool) {
        self.same(other)
    }
}

impl vstd::std_specs::cmp::PartialEqSpecImpl for Peer {
    open spec fn obeys_eq_spec() -> bool {
        true
    }

    open spec fn eq_spec(&self, other: &Peer) -> bool {
        self@ == other@
    }
}

impl Eq for Peer {}

} // verus!
