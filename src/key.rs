//! The public key that identifies a peer, and its base64 text form.
use vstd::prelude::*;

verus! {

/// The standard base64 text of the bytes (padded with `=`).
pub uninterp spec fn base64_text(bytes: Seq<u8>) -> Seq<char>;

/// The bytes that a standard base64 text stands for, if it stands for any.
pub uninterp spec fn base64_bytes(text: Seq<char>) -> Option<Seq<u8>>;

/// The bytes are the compressed form of a point of the ed25519 curve.
pub uninterp spec fn ed25519_point(bytes: Seq<u8>) -> bool;

/// A character of the standard base64 alphabet, or the padding `=`.
pub open spec fn is_base64_char(c: char) -> bool {
    ('A' <= c && c <= 'Z') || ('a' <= c && c <= 'z') || ('0' <= c && c <= '9') || c == '+' || c
        == '/' || c == '='
}

/// Thirty-two bytes that encode a curve point: an ed25519 public key.
pub open spec fn valid_key(bytes: Seq<u8>) -> bool {
    bytes.len() == 32 && ed25519_point(bytes)
}

/// The key that a base64 text stands for, if it stands for a valid one.
pub open spec fn key_of(text: Seq<char>) -> Option<Seq<u8>> {
    match base64_bytes(text) {
        Some(b) => if valid_key(b) {
            Some(b)
        } else {
            None
        },
        None => None,
    }
}

/// Relies on base64::encode: the standard, padded base64 text of the bytes,
/// written in the standard alphabet, which base64::decode reads back as the
/// same bytes.
#[verifier::external_body]
pub(crate) fn encode_base64(bytes: &[u8]) -> (r: String)
    ensures
        r@ == base64_text(bytes@),
        base64_bytes(r@) == Some(bytes@),
        forall|i: int| 0 <= i < r@.len() ==> is_base64_char(#[trigger] r@[i]),
{
    base64::encode(bytes)
}

/// Relies on base64::decode: the bytes that a standard base64 text stands
/// for, if it is one.
#[verifier::external_body]
pub(crate) fn decode_base64(text: &Vec<char>) -> (r: Option<Vec<u8>>)
    ensures
        r is Some <==> base64_bytes(text@) is Some,
        r matches Some(v) ==> base64_bytes(text@) == Some(v@),
{
    let s: String = text.iter().collect();
    base64::decode(s).ok()
}

/// Relies on ed25519_dalek::PublicKey::from_bytes: it accepts exactly the
/// 32-byte compressed forms of curve points.
#[verifier::external_body]
fn is_ed25519_key(bytes: &[u8]) -> (r: bool)
    ensures
        r == (bytes@.len() == 32 && ed25519_point(bytes@)),
{
    ed25519_dalek::PublicKey::from_bytes(bytes).is_ok()
}

/// An ed25519 public key, held as its 32 bytes.
#[derive(Debug)]
pub struct PublicKey {
    bytes: Vec<u8>,
}

impl View for PublicKey {
    type V = Seq<u8>;

    closed spec fn view(&self) -> Seq<u8> {
        self.bytes@
    }
}

impl PublicKey {
    #[verifier::type_invariant]
    spec fn inv(&self) -> bool {
        valid_key(self.bytes@)
    }

    /// The key whose bytes these are, if they encode one.
    pub fn from_bytes(bytes: &[u8]) -> (r: Option<PublicKey>)
        ensures
            r is Some <==> valid_key(bytes@),
            r matches Some(k) ==> k@ == bytes@,
    {
        if is_ed25519_key(bytes) {
            Some(PublicKey { bytes: vstd::slice::slice_to_vec(bytes) })
        } else {
            None
        }
    }

    pub fn to_bytes(&self) -> (r: Vec<u8>)
        ensures
            r@ == self@,
            valid_key(self@),
    {
        proof {
            use_type_invariant(self);
        }
        self.bytes.clone()
    }

    /// The base64 text of the key's bytes.
    pub fn to_base64(&self) -> (r: String)
        ensures
            r@ == base64_text(self@),
            forall|i: int| 0 <= i < r@.len() ==> is_base64_char(#[trigger] r@[i]),
            key_of(r@) == Some(self@),
    {
        proof {
            use_type_invariant(self);
        }
        encode_base64(self.bytes.as_slice())
    }

    /// The key that the base64 characters stand for, if they stand for a valid one.
    pub fn from_base64_chars(text: &Vec<char>) -> (r: Option<PublicKey>)
        ensures
            r is Some <==> key_of(text@) is Some,
            r matches Some(k) ==> key_of(text@) == Some(k@),
    {
        match decode_base64(text) {
            None => None,
            Some(b) => PublicKey::from_bytes(b.as_slice()),
        }
    }

    /// The key that the base64 text stands for, if it stands for a valid one.
    pub fn from_base64(text: &str) -> (r: Option<PublicKey>)
        ensures
            r is Some <==> key_of(text@) is Some,
            r matches Some(k) ==> key_of(text@) == Some(k@),
    {
        let chars = crate::text::chars_of(text);
        PublicKey::from_base64_chars(&chars)
    }

    /// The two keys have the same bytes.
    pub fn same(&self, other: &PublicKey) -> (r: bool)
        ensures
            r == (self@ == other@),
    {
        let a = &self.bytes;
        let b = &other.bytes;
        if a.len() != b.len() {
            return false;
        }
        let mut i: usize = 0;
        while i < a.len()
            invariant
                a@ == self@,
                b@ == other@,
                a.len() == b.len(),
                i <= a.len(),
                forall|j: int| 0 <= j < i ==> a@[j] == b@[j],
            decreases a.len() - i,
        {
            if a[i] != b[i] {
                assert(a@[i as int] != b@[i as int]);
                return false;
            }
            i = i + 1;
        }
        assert(a@ =~= b@);
        true
    }
}

impl Clone for PublicKey {
    fn clone(&self) -> (r: PublicKey)
        ensures
            r@ == self@,
    {
        proof {
            use_type_invariant(self);
        }
        PublicKey { bytes: self.bytes.clone() }
    }
}

impl PartialEq for PublicKey {
    fn eq(&self, other: &PublicKey) -> (r: bool) {
        self.same(other)
    }
}

impl vstd::std_specs::cmp::PartialEqSpecImpl for PublicKey {
    open spec fn obeys_eq_spec() -> bool {
        true
    }

    open spec fn eq_spec(&self, other: &PublicKey) -> bool {
        self@ == other@
    }
}

impl Eq for PublicKey {}

} // verus!
