//! One reachable endpoint of a peer, and its text form
//! `<protocol>:<host>:<port>~<handshake>`.
use crate::decimal::{
    all_digits, dec, lemma_dec, lemma_digits_free, parse_digits, pow10, push_decimal, value,
};
use crate::text::{
    free_of, join, lemma_join2, lemma_join3, lemma_join4, lemma_join_free, lemma_split_join,
    push_char, split, split_chars,
};
use vstd::prelude::*;

verus! {

/// How the endpoint is reached.
#[derive(Clone, Copy, Debug, PartialEq, Eq, Structural)]
pub enum Protocol {
    Net,
    Ws,
    Wss,
}

/// The handshake that a connector must use at the endpoint.
#[derive(Clone, Copy, Debug, PartialEq, Eq, Structural)]
pub enum Handshake {
    Shs,
    Shs2,
}

/// An IPv4 address, by its four octets.
#[derive(Clone, Copy, Debug, PartialEq, Eq, Structural)]
pub struct Ipv4 {
    pub a: u8,
    pub b: u8,
    pub c: u8,
    pub d: u8,
}

/// A reachable endpoint: transport, host, port and handshake.
#[derive(Clone, Copy, Debug, PartialEq, Eq, Structural)]
pub struct Address {
    pub protocol: Protocol,
    pub host: Ipv4,
    pub port: u16,
    pub handshake: Handshake,
}

impl Address {
    pub fn new(protocol: Protocol, host: Ipv4, port: u16, handshake: Handshake) -> (r: Address)
        ensures
            r == (Address { protocol, host, port, handshake }),
    {
        Address { protocol, host, port, handshake }
    }

    /// The text form `<protocol>:<host>:<port>~<handshake>`.
    pub fn encode(&self) -> (r: String)
        ensures
            r@ == address_text(*self),
            address_of(r@) == Ok::<Address, AddressError>(*self),
    {
        let mut out = String::new();
        push_address(&mut out, self);
        proof {
            assert(out@ =~= address_text(*self));
            lemma_address_round_trip(*self);
        }
        out
    }

    /// The address that the text form describes, or why it describes none.
    pub fn decode(text: &str) -> (r: Result<Address, AddressError>)
        ensures
            r == address_of(text@),
    {
        let chars = crate::text::chars_of(text);
        parse_address(&chars)
    }
}

/// Why a piece of text is no address.
#[derive(Clone, Copy, Debug, PartialEq, Eq, Structural)]
pub enum AddressError {
    /// The separators do not cut the text into the fields that an address has.
    FieldCount,
    UnknownProtocol,
    BadHost,
    BadPort,
    UnknownHandshake,
}

pub open spec fn protocol_token(p: Protocol) -> Seq<char> {
    match p {
        Protocol::Net => seq!['n', 'e', 't'],
        Protocol::Ws => seq!['w', 's'],
        Protocol::Wss => seq!['w', 's', 's'],
    }
}

pub open spec fn handshake_token(h: Handshake) -> Seq<char> {
    match h {
        Handshake::Shs => seq!['s', 'h', 's'],
        Handshake::Shs2 => seq!['s', 'h', 's', '2'],
    }
}

pub open spec fn protocol_of(t: Seq<char>) -> Option<Protocol> {
    if t == protocol_token(Protocol::Net) {
        Some(Protocol::Net)
    } else if t == protocol_token(Protocol::Ws) {
        Some(Protocol::Ws)
    } else if t == protocol_token(Protocol::Wss) {
        Some(Protocol::Wss)
    } else {
        None
    }
}

pub open spec fn handshake_of(t: Seq<char>) -> Option<Handshake> {
    if t == handshake_token(Handshake::Shs) {
        Some(Handshake::Shs)
    } else if t == handshake_token(Handshake::Shs2) {
        Some(Handshake::Shs2)
    } else {
        None
    }
}

/// Dotted-decimal form of the host.
pub open spec fn host_text(h: Ipv4) -> Seq<char> {
    join(seq![dec(h.a as nat), dec(h.b as nat), dec(h.c as nat), dec(h.d as nat)], '.')
}

/// `<protocol>:<host>:<port>`
pub open spec fn endpoint_text(a: Address) -> Seq<char> {
    join(seq![protocol_token(a.protocol), host_text(a.host), dec(a.port as nat)], ':')
}

/// `<protocol>:<host>:<port>~<handshake>`
pub open spec fn address_text(a: Address) -> Seq<char> {
    join(seq![endpoint_text(a), handshake_token(a.handshake)], '~')
}

/// An octet: one to three digits, no leading zero, at most 255.
pub open spec fn octet_of(t: Seq<char>) -> Option<u8> {
    if 1 <= t.len() <= 3 && all_digits(t) && (t.len() > 1 ==> t[0] != '0') && value(t) <= 255 {
        Some(value(t) as u8)
    } else {
        None
    }
}

/// A port: one to five digits, at most 65535.
pub open spec fn port_of(t: Seq<char>) -> Option<u16> {
    if 1 <= t.len() <= 5 && all_digits(t) && value(t) <= 65535 {
        Some(value(t) as u16)
    } else {
        None
    }
}

/// Four octets separated by dots.
pub open spec fn host_of(t: Seq<char>) -> Option<Ipv4> {
    let parts = split(t, '.');
    if parts.len() == 4 && octet_of(parts[0]) is Some && octet_of(parts[1]) is Some
        && octet_of(parts[2]) is Some && octet_of(parts[3]) is Some {
        Some(
            Ipv4 {
                a: octet_of(parts[0])->0,
                b: octet_of(parts[1])->0,
                c: octet_of(parts[2])->0,
                d: octet_of(parts[3])->0,
            },
        )
    } else {
        None
    }
}

/// Protocol, host and port from `<protocol>:<host>:<port>`, checked in that order.
pub open spec fn endpoint_of(t: Seq<char>) -> Result<(Protocol, Ipv4, u16), AddressError> {
    let f = split(t, ':');
    if f.len() != 3 {
        Err(AddressError::FieldCount)
    } else if protocol_of(f[0]) is None {
        Err(AddressError::UnknownProtocol)
    } else if host_of(f[1]) is None {
        Err(AddressError::BadHost)
    } else if port_of(f[2]) is None {
        Err(AddressError::BadPort)
    } else {
        Ok((protocol_of(f[0])->0, host_of(f[1])->0, port_of(f[2])->0))
    }
}

/// The address that `<endpoint>~<handshake>` describes.
pub open spec fn address_of(t: Seq<char>) -> Result<Address, AddressError> {
    let parts = split(t, '~');
    if parts.len() != 2 {
        Err(AddressError::FieldCount)
    } else {
        match endpoint_of(parts[0]) {
            Err(e) => Err(e),
            Ok((p, h, n)) => match handshake_of(parts[1]) {
                None => Err(AddressError::UnknownHandshake),
                Some(s) => Ok(Address { protocol: p, host: h, port: n, handshake: s }),
            },
        }
    }
}

/// `v` holds exactly the characters of `w`.
fn same_chars(v: &Vec<char>, w: &[char]) -> (r: bool)
    ensures
        r == (v@ == w@),
{
    if v.len() != w.len() {
        return false;
    }
    let mut i: usize = 0;
    while i < v.len()
        invariant
            v.len() == w@.len(),
            i <= v.len(),
            forall|j: int| 0 <= j < i ==> v@[j] == w@[j],
        decreases v.len() - i,
    {
        if v[i] != w[i] {
            return false;
        }
        i = i + 1;
    }
    assert(v@ =~= w@);
    true
}

fn parse_protocol(t: &Vec<char>) -> (r: Option<Protocol>)
    ensures
        r == protocol_of(t@),
{
    if same_chars(t, &['n', 'e', 't']) {
        Some(Protocol::Net)
    } else if same_chars(t, &['w', 's']) {
        Some(Protocol::Ws)
    } else if same_chars(t, &['w', 's', 's']) {
        Some(Protocol::Wss)
    } else {
        None
    }
}

pub(crate) fn parse_handshake(t: &Vec<char>) -> (r: Option<Handshake>)
    ensures
        r == handshake_of(t@),
{
    if same_chars(t, &['s', 'h', 's']) {
        Some(Handshake::Shs)
    } else if same_chars(t, &['s', 'h', 's', '2']) {
        Some(Handshake::Shs2)
    } else {
        None
    }
}

fn parse_octet(t: &Vec<char>) -> (r: Option<u8>)
    ensures
        r == octet_of(t@),
{
    match parse_digits(t, 3) {
        None => None,
        Some(n) => {
            if t.len() > 1 && t[0] == '0' {
                None
            } else if n > 255 {
                None
            } else {
                Some(n as u8)
            }
        },
    }
}

fn parse_port(t: &Vec<char>) -> (r: Option<u16>)
    ensures
        r == port_of(t@),
{
    match parse_digits(t, 5) {
        None => None,
        Some(n) => {
            if n > 65535 {
                None
            } else {
                Some(n as u16)
            }
        },
    }
}

fn parse_host(t: &Vec<char>) -> (r: Option<Ipv4>)
    ensures
        r == host_of(t@),
{
    let parts = split_chars(t, '.');
    if parts.len() != 4 {
        return None;
    }
    assert(parts[0]@ == split(t@, '.')[0]);
    assert(parts[1]@ == split(t@, '.')[1]);
    assert(parts[2]@ == split(t@, '.')[2]);
    assert(parts[3]@ == split(t@, '.')[3]);
    match (parse_octet(&parts[0]), parse_octet(&parts[1]), parse_octet(&parts[2]), parse_octet(&parts[3])) {
        (Some(a), Some(b), Some(c), Some(d)) => Some(Ipv4 { a, b, c, d }),
        _ => None,
    }
}

pub(crate) fn parse_endpoint(t: &Vec<char>) -> (r: Result<(Protocol, Ipv4, u16), AddressError>)
    ensures
        r == endpoint_of(t@),
{
    let f = split_chars(t, ':');
    if f.len() != 3 {
        return Err(AddressError::FieldCount);
    }
    assert(f[0]@ == split(t@, ':')[0]);
    assert(f[1]@ == split(t@, ':')[1]);
    assert(f[2]@ == split(t@, ':')[2]);
    let p = match parse_protocol(&f[0]) {
        None => return Err(AddressError::UnknownProtocol),
        Some(p) => p,
    };
    let h = match parse_host(&f[1]) {
        None => return Err(AddressError::BadHost),
        Some(h) => h,
    };
    let n = match parse_port(&f[2]) {
        None => return Err(AddressError::BadPort),
        Some(n) => n,
    };
    Ok((p, h, n))
}

/// Reads an address from the characters of `<endpoint>~<handshake>`.
pub fn parse_address(t: &Vec<char>) -> (r: Result<Address, AddressError>)
    ensures
        r == address_of(t@),
{
    let parts = split_chars(t, '~');
    if parts.len() != 2 {
        return Err(AddressError::FieldCount);
    }
    assert(parts[0]@ == split(t@, '~')[0]);
    assert(parts[1]@ == split(t@, '~')[1]);
    let (p, h, n) = match parse_endpoint(&parts[0]) {
        Err(e) => return Err(e),
        Ok(x) => x,
    };
    match parse_handshake(&parts[1]) {
        None => Err(AddressError::UnknownHandshake),
        Some(s) => Ok(Address { protocol: p, host: h, port: n, handshake: s }),
    }
}

/// Appends the characters of `w`.
fn push_token(out: &mut String, w: &[char])
    ensures
        final(out)@ == old(out)@ + w@,
{
    let mut i: usize = 0;
    while i < w.len()
        invariant
            i <= w@.len(),
            out@ == old(out)@ + w@.take(i as int),
        decreases w@.len() - i,
    {
        push_char(out, w[i]);
        assert(w@.take(i as int + 1) == w@.take(i as int).push(w@[i as int]));
        i = i + 1;
    }
    assert(w@.take(w@.len() as int) == w@);
}

fn push_protocol(out: &mut String, p: Protocol)
    ensures
        final(out)@ == old(out)@ + protocol_token(p),
{
    match p {
        Protocol::Net => push_token(out, &['n', 'e', 't']),
        Protocol::Ws => push_token(out, &['w', 's']),
        Protocol::Wss => push_token(out, &['w', 's', 's']),
    }
}

fn push_handshake(out: &mut String, h: Handshake)
    ensures
        final(out)@ == old(out)@ + handshake_token(h),
{
    match h {
        Handshake::Shs => push_token(out, &['s', 'h', 's']),
        Handshake::Shs2 => push_token(out, &['s', 'h', 's', '2']),
    }
}

/// Appends the text form of `a`.
pub fn push_address(out: &mut String, a: &Address)
    ensures
        final(out)@ == old(out)@ + address_text(*a),
{
    let ghost o = out@;
    push_protocol(out, a.protocol);
    push_char(out, ':');
    push_decimal(out, a.host.a as u32);
    push_char(out, '.');
    push_decimal(out, a.host.b as u32);
    push_char(out, '.');
    push_decimal(out, a.host.c as u32);
    push_char(out, '.');
    push_decimal(out, a.host.d as u32);
    push_char(out, ':');
    push_decimal(out, a.port as u32);
    push_char(out, '~');
    push_handshake(out, a.handshake);
    proof {
        let h = a.host;
        lemma_join4(dec(h.a as nat), dec(h.b as nat), dec(h.c as nat), dec(h.d as nat), '.');
        lemma_join3(protocol_token(a.protocol), host_text(h), dec(a.port as nat), ':');
        lemma_join2(endpoint_text(*a), handshake_token(a.handshake), '~');
        assert(out@ =~= o + address_text(*a));
    }
}

proof fn lemma_octet(n: u8)
    ensures
        octet_of(dec(n as nat)) == Some(n),
        free_of(dec(n as nat), '.'),
        free_of(dec(n as nat), ':'),
        free_of(dec(n as nat), '~'),
        free_of(dec(n as nat), ';'),
{
    lemma_dec(n as nat);
    reveal_with_fuel(pow10, 4);
    assert(n < pow10(3));
    lemma_digits_free(dec(n as nat), '.');
    lemma_digits_free(dec(n as nat), ':');
    lemma_digits_free(dec(n as nat), '~');
    lemma_digits_free(dec(n as nat), ';');
}

pub(crate) proof fn lemma_port(n: u16)
    ensures
        port_of(dec(n as nat)) == Some(n),
        free_of(dec(n as nat), ':'),
        free_of(dec(n as nat), '~'),
        free_of(dec(n as nat), ';'),
{
    lemma_dec(n as nat);
    reveal_with_fuel(pow10, 6);
    assert(n < pow10(5));
    lemma_digits_free(dec(n as nat), ':');
    lemma_digits_free(dec(n as nat), '~');
    lemma_digits_free(dec(n as nat), ';');
}

/// The host's text reads back as the host, and holds no separator of the
/// wider formats.
pub proof fn lemma_host(h: Ipv4)
    ensures
        host_of(host_text(h)) == Some(h),
        free_of(host_text(h), ':'),
        free_of(host_text(h), '~'),
        free_of(host_text(h), ';'),
{
    let parts = seq![dec(h.a as nat), dec(h.b as nat), dec(h.c as nat), dec(h.d as nat)];
    lemma_octet(h.a);
    lemma_octet(h.b);
    lemma_octet(h.c);
    lemma_octet(h.d);
    lemma_split_join(parts, '.');
    lemma_join_free(parts, '.', ':');
    lemma_join_free(parts, '.', '~');
    lemma_join_free(parts, '.', ';');
}

/// The text form of an address holds no `;`, no `:` after its `~`, and a
/// single `~`; its endpoint part holds no `~`.
pub proof fn lemma_address_text(a: Address)
    ensures
        free_of(endpoint_text(a), '~'),
        free_of(endpoint_text(a), ';'),
        free_of(handshake_token(a.handshake), '~'),
        free_of(handshake_token(a.handshake), ':'),
        free_of(handshake_token(a.handshake), ';'),
        address_text(a) == endpoint_text(a).push('~') + handshake_token(a.handshake),
        endpoint_of(endpoint_text(a)) == Ok::<(Protocol, Ipv4, u16), AddressError>(
            (a.protocol, a.host, a.port),
        ),
        handshake_of(handshake_token(a.handshake)) == Some(a.handshake),
{
    let p = protocol_token(a.protocol);
    let fields = seq![p, host_text(a.host), dec(a.port as nat)];
    lemma_host(a.host);
    lemma_port(a.port);
    assert(free_of(p, ':') && free_of(p, '~') && free_of(p, ';'));
    lemma_split_join(fields, ':');
    lemma_join_free(fields, ':', '~');
    lemma_join_free(fields, ':', ';');
    lemma_join2(endpoint_text(a), handshake_token(a.handshake), '~');
    assert(protocol_of(p) == Some(a.protocol));
}

/// Reading the text form of an address gives the address back.
pub proof fn lemma_address_round_trip(a: Address)
    ensures
        address_of(address_text(a)) == Ok::<Address, AddressError>(a),
{
    lemma_address_text(a);
    lemma_split_join(seq![endpoint_text(a), handshake_token(a.handshake)], '~');
}

} // verus!
