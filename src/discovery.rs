//! The decisions of the discovery transceiver: what to announce, and what to
//! do with each received datagram, given the peers already forwarded.
use crate::address::Address;
use crate::key::{base64_text, PublicKey};
use crate::peer::{packet_of, packet_text, PacketError, Peer, PeerView};
use vstd::prelude::*;

verus! {

/// The UDP port that the listener binds and that announcements go to.
pub const DISCOVERY_PORT: u16 = 8008;

/// Seconds between two announcements.
pub const ADVERTISE_INTERVAL_SECS: u64 = 1;

/// Why a datagram was dropped.
#[derive(Clone, Copy, Debug, PartialEq, Eq, Structural)]
pub enum DatagramError {
    /// The payload is not UTF-8 text.
    NotText,
    /// The text is no discovery packet.
    Packet(PacketError),
}

/// What became of one datagram.
#[derive(Debug)]
pub enum Heard {
    /// A peer not seen before: hand it to the consumer.
    New(Peer),
    /// A peer already forwarded: drop it silently.
    Repeat,
    /// No peer: report the error and drop the datagram.
    Rejected(DatagramError),
}

/// The peers forwarded so far, each once, in the order they first came.
pub struct Listener {
    seen: Vec<Peer>,
}

/// The peer that the text announces, if it is new to `seen`.
pub open spec fn emitted(seen: Seq<PeerView>, text: Seq<char>) -> Option<PeerView> {
    match packet_of(text) {
        Ok(v) => if seen.contains(v) {
            None
        } else {
            Some(v)
        },
        Err(_) => None,
    }
}

/// The seen peers after the text is received.
pub open spec fn seen_after(seen: Seq<PeerView>, text: Seq<char>) -> Seq<PeerView> {
    match emitted(seen, text) {
        Some(v) => seen.push(v),
        None => seen,
    }
}

/// Relies on std::str::from_utf8: the text that the bytes encode, if they
/// are valid UTF-8.
#[verifier::external_body]
fn utf8_text(bytes: &[u8]) -> (r: Option<&str>)
    ensures
        r is Some <==> vstd::utf8::valid_utf8(bytes@),
        r matches Some(s) ==> s@ == vstd::utf8::decode_utf8(bytes@),
{
    std::str::from_utf8(bytes).ok()
}

impl View for Listener {
    type V = Seq<PeerView>;

    closed spec fn view(&self) -> Seq<PeerView> {
        Seq::new(self.seen@.len(), |i: int| self.seen@[i]@)
    }
}

impl Listener {
    /// A listener that has seen no peer.
    pub fn new() -> (r: Listener)
        ensures
            r@ == Seq::<PeerView>::empty(),
    {
        let r = Listener { seen: Vec::new() };
        assert(r@ =~= Seq::<PeerView>::empty());
        r
    }

    /// How many peers have been forwarded.
    pub fn seen_count(&self) -> (r: usize)
        ensures
            r == self@.len(),
    {
        self.seen.len()
    }

    /// The peer has been forwarded already.
    pub fn has_seen(&self, peer: &Peer) -> (r: bool)
        ensures
            r == self@.contains(peer@),
    {
        let mut i: usize = 0;
        while i < self.seen.len()
            invariant
                i <= self.seen.len(),
                forall|j: int| 0 <= j < i ==> self@[j] != peer@,
            decreases self.seen.len() - i,
        {
            if self.seen[i].same(peer) {
                assert(self@[i as int] == peer@);
                return true;
            }
            i = i + 1;
        }
        proof {
            if self@.contains(peer@) {
                let j = choose|j: int| 0 <= j < self@.len() && self@[j] == peer@;
                assert(self@[j] != peer@);
            }
        }
        false
    }

    /// Handles one received packet text: a peer not seen before is recorded
    /// and handed back once; a repeat and a malformed packet are dropped.
    pub fn on_packet(&mut self, packet: &str) -> (r: Heard)
        ensures
            final(self)@ == seen_after(old(self)@, packet@),
            r matches Heard::New(p) ==> emitted(old(self)@, packet@) == Some(p@),
            emitted(old(self)@, packet@) is Some ==> r is New,
            r is Repeat <==> (packet_of(packet@) matches Ok(v) && old(self)@.contains(v)),
            r matches Heard::Rejected(e) ==> (packet_of(packet@) matches Err(pe) && e
                == DatagramError::Packet(pe)),
            packet_of(packet@) is Err ==> r is Rejected,
    {
        match Peer::from_discovery_packet(packet) {
            Err(e) => Heard::Rejected(DatagramError::Packet(e)),
            Ok(p) => {
                if self.has_seen(&p) {
                    Heard::Repeat
                } else {
                    let ghost old_view = self@;
                    self.seen.push(p.clone());
                    assert(self@ =~= old_view.push(p@));
                    Heard::New(p)
                }
            },
        }
    }

    /// Handles one received datagram: its payload must be UTF-8 text, which
    /// is then handled as a packet.
    pub fn on_datagram(&mut self, payload: &[u8]) -> (r: Heard)
        ensures
            !vstd::utf8::valid_utf8(payload@) ==> (r == Heard::Rejected(DatagramError::NotText)
                && final(self)@ == old(self)@),
            vstd::utf8::valid_utf8(payload@) ==> ({
                let text = vstd::utf8::decode_utf8(payload@);
                &&& final(self)@ == seen_after(old(self)@, text)
                &&& r matches Heard::New(p) ==> emitted(old(self)@, text) == Some(p@)
                &&& emitted(old(self)@, text) is Some ==> r is New
                &&& r is Repeat <==> (packet_of(text) matches Ok(v) && old(self)@.contains(v))
                &&& r matches Heard::Rejected(e) ==> (packet_of(text) matches Err(pe) && e
                    == DatagramError::Packet(pe))
                &&& packet_of(text) is Err ==> r is Rejected
            }),
    {
        match utf8_text(payload) {
            None => Heard::Rejected(DatagramError::NotText),
            Some(text) => self.on_packet(text),
        }
    }
}

/// The packet that announces this node: its key at each of its addresses;
/// nothing while it knows no address of its own.
pub fn advertisement(key: &PublicKey, addresses: &Vec<Address>) -> (r: Option<String>)
    ensures
        r is None <==> addresses@.len() == 0,
        r matches Some(t) ==> t@ == packet_text(addresses@, base64_text(key@)),
        r matches Some(t) ==> packet_of(t@) == Ok::<PeerView, PacketError>(
            PeerView { addresses: addresses@, key: key@ },
        ),
{
    if addresses.len() == 0 {
        None
    } else {
        let me = Peer::new(addresses.clone(), key.clone());
        Some(me.to_discovery_packet())
    }
}

/// Receiving the same packet twice in a row forwards it at most once: the
/// second time nothing new is emitted and the seen peers stay as they are.
pub proof fn lemma_repeat_is_silent(seen: Seq<PeerView>, text: Seq<char>)
    ensures
        emitted(seen_after(seen, text), text) is None,
        seen_after(seen_after(seen, text), text) == seen_after(seen, text),
{
    if let Ok(v) = packet_of(text) {
        if !seen.contains(v) {
            assert(seen.push(v)[seen.len() as int] == v);
        }
    }
}

/// Two packets that describe the same key at the same addresses in another
/// order are two peers: each is forwarded once.
pub proof fn lemma_order_is_structural(
    seen: Seq<PeerView>,
    t1: Seq<char>,
    t2: Seq<char>,
    v1: PeerView,
    v2: PeerView,
)
    requires
        packet_of(t1) == Ok::<PeerView, PacketError>(v1),
        packet_of(t2) == Ok::<PeerView, PacketError>(v2),
        v1.key == v2.key,
        v1.addresses.to_multiset() == v2.addresses.to_multiset(),
        v1.addresses != v2.addresses,
        !seen.contains(v1),
        !seen.contains(v2),
    ensures
        emitted(seen, t1) == Some(v1),
        emitted(seen_after(seen, t1), t2) == Some(v2),
        seen_after(seen_after(seen, t1), t2) == seen.push(v1).push(v2),
{
    if seen.push(v1).contains(v2) {
        let j = choose|j: int| 0 <= j < seen.push(v1).len() && seen.push(v1)[j] == v2;
        if j < seen.len() {
            assert(seen[j] == v2);
        }
    }
}

} // verus!
