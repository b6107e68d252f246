//! The fields of the file that holds a node's key pair: the curve name, the
//! public key, the private key and the node's id, each as base64 text with an
//! `.ed25519` suffix.
use crate::key::{base64_bytes, base64_text, decode_base64, encode_base64, key_of, PublicKey};
use crate::text::{chars_of, push_char, push_chars};
use vstd::prelude::*;

verus! {

/// A line comment of the key file: the blanks before a `#` and the rest of
/// the line.
pub const COMMENT_PATTERN: &'static str = "\\s*#[^\\n]*";

/// The characters of the comment pattern.
pub open spec fn comment_pattern() -> Seq<char> {
    seq!['\\', 's', '*', '#', '[', '^', '\\', 'n', ']', '*']
}

#[verifier::external_type_specification]
#[verifier::external_body]
pub struct ExJsonValue(json::JsonValue);

/// The string members of a JSON value, by key; none where it is no object.
pub uninterp spec fn json_texts(v: json::JsonValue) -> Map<Seq<char>, Seq<char>>;

/// The JSON value is an object.
pub uninterp spec fn json_is_object(v: json::JsonValue) -> bool;

/// The string members of the JSON document that the text holds, if it holds one.
pub uninterp spec fn json_parsed_texts(text: Seq<char>) -> Option<Map<Seq<char>, Seq<char>>>;

/// The regex engine accepts the pattern.
pub uninterp spec fn regex_compiles(pattern: Seq<char>) -> bool;

/// The text with every match of the pattern removed.
pub uninterp spec fn matches_removed(pattern: Seq<char>, text: Seq<char>) -> Seq<char>;

/// Relies on regex::Regex::new, then Regex::replace_all: the text with
/// every match of the pattern replaced by nothing, if the engine accepts the
/// pattern.
#[verifier::external_body]
fn remove_pattern(pattern: &str, text: &str) -> (r: Option<String>)
    ensures
        r is Some <==> regex_compiles(pattern@),
        r matches Some(s) ==> s@ == matches_removed(pattern@, text@),
{
    match regex::Regex::new(pattern) {
        Ok(re) => Some(re.replace_all(text, "").into_owned()),
        Err(_) => None,
    }
}

/// Relies on json::parse: the JSON document that the text holds, if any.
#[verifier::external_body]
fn parse_json(text: &str) -> (r: Option<json::JsonValue>)
    ensures
        r is Some <==> json_parsed_texts(text@) is Some,
        r matches Some(v) ==> json_parsed_texts(text@) == Some(json_texts(v)),
{
    json::parse(text).ok()
}

/// Relies on JsonValue's index by key and JsonValue::as_str: the text stored
/// under the key of an object, if it is a string (null where there is none).
#[verifier::external_body]
fn json_string<'a>(obj: &'a json::JsonValue, key: &str) -> (r: Option<&'a str>)
    ensures
        text_opt(r) == member(json_texts(*obj), key@),
{
    obj[key].as_str()
}

/// Relies on json::JsonValue::new_object: an empty JSON object.
#[verifier::external_body]
fn json_object() -> (r: json::JsonValue)
    ensures
        json_is_object(r),
        json_texts(r) == no_members(),
{
    json::JsonValue::new_object()
}

/// Relies on json::JsonValue::insert: an object stores the text under the
/// key, in place of what the key held; any other value is left as it is and
/// refuses.
#[verifier::external_body]
fn json_insert(obj: &mut json::JsonValue, key: &str, value: &str) -> (r: bool)
    ensures
        r == json_is_object(*old(obj)),
        json_is_object(*final(obj)) == json_is_object(*old(obj)),
        json_is_object(*old(obj)) ==> json_texts(*final(obj)) == json_texts(*old(obj)).insert(
            key@,
            value@,
        ),
        !json_is_object(*old(obj)) ==> *final(obj) == *old(obj),
{
    obj.insert(key, value).is_ok()
}

/// The members of an empty object.
pub open spec fn no_members() -> Map<Seq<char>, Seq<char>> {
    Map::empty()
}

/// Stripping the suffix from text that ends with it gives the text before it.
pub proof fn lemma_strip_suffix(t: Seq<char>)
    ensures
        strip_suffix(t + key_suffix(), key_suffix()) == Some(t),
{
    let s = t + key_suffix();
    assert(s.subrange(s.len() - key_suffix().len(), s.len() as int) =~= key_suffix());
    assert(s.take(s.len() - key_suffix().len()) =~= t);
}

/// The text under the key, if there is one.
pub open spec fn member(m: Map<Seq<char>, Seq<char>>, key: Seq<char>) -> Option<Seq<char>> {
    if m.contains_key(key) {
        Some(m[key])
    } else {
        None
    }
}

/// The 32 bytes of an ed25519 secret key.
#[derive(Debug)]
pub struct SecretKey {
    bytes: Vec<u8>,
}

impl View for SecretKey {
    type V = Seq<u8>;

    closed spec fn view(&self) -> Seq<u8> {
        self.bytes@
    }
}

impl SecretKey {
    #[verifier::type_invariant]
    spec fn inv(&self) -> bool {
        self.bytes@.len() == 32
    }

    /// The secret key whose bytes these are, if there are 32 of them.
    pub fn from_bytes(bytes: &[u8]) -> (r: Option<SecretKey>)
        ensures
            r is Some <==> bytes@.len() == 32,
            r matches Some(k) ==> k@ == bytes@,
    {
        if bytes.len() == 32 {
            Some(SecretKey { bytes: vstd::slice::slice_to_vec(bytes) })
        } else {
            None
        }
    }

    pub fn to_bytes(&self) -> (r: Vec<u8>)
        ensures
            r@ == self@,
            r@.len() == 32,
    {
        proof {
            use_type_invariant(self);
        }
        self.bytes.clone()
    }
}

/// A node's identity: its public key and the matching secret key.
#[derive(Debug)]
pub struct Keypair {
    pub public: PublicKey,
    pub secret: SecretKey,
}

/// The texts stored in the key file.
#[derive(Debug)]
pub struct KeyFields {
    pub curve: String,
    pub public: String,
    pub private: String,
    pub id: String,
}

/// Why the key file gives no key pair.
#[derive(Clone, Copy, Debug, PartialEq, Eq, Structural)]
pub enum KeyFileError {
    /// The regex engine refused the comment pattern.
    CommentPattern,
    /// Once its comments are removed, the text is no JSON document.
    NotJson,
    MissingField,
    WrongCurve,
    BadPublic,
    BadPrivate,
}

pub open spec fn curve_name() -> Seq<char> {
    seq!['e', 'd', '2', '5', '5', '1', '9']
}

/// `.ed25519`
pub open spec fn key_suffix() -> Seq<char> {
    seq!['.'] + curve_name()
}

/// `s` without the suffix `suf`, if it ends with it.
pub open spec fn strip_suffix(s: Seq<char>, suf: Seq<char>) -> Option<Seq<char>> {
    if s.len() >= suf.len() && s.subrange(s.len() - suf.len(), s.len() as int) == suf {
        Some(s.take(s.len() - suf.len()))
    } else {
        None
    }
}

/// The public and secret key bytes that the file's fields give, checked in
/// the order curve, public key, private key.
pub open spec fn keypair_of(
    curve: Option<Seq<char>>,
    public: Option<Seq<char>>,
    private: Option<Seq<char>>,
) -> Result<(Seq<u8>, Seq<u8>), KeyFileError> {
    if curve is None || public is None || private is None {
        Err(KeyFileError::MissingField)
    } else if curve->0 != curve_name() {
        Err(KeyFileError::WrongCurve)
    } else {
        match strip_suffix(public->0, key_suffix()) {
            None => Err(KeyFileError::BadPublic),
            Some(pt) => match key_of(pt) {
                None => Err(KeyFileError::BadPublic),
                Some(pk) => match strip_suffix(private->0, key_suffix()) {
                    None => Err(KeyFileError::BadPrivate),
                    Some(st) => match base64_bytes(st) {
                        Some(sb) => if sb.len() >= 32 {
                            Ok((pk, sb.take(32)))
                        } else {
                            Err(KeyFileError::BadPrivate)
                        },
                        None => Err(KeyFileError::BadPrivate),
                    },
                },
            },
        }
    }
}

/// The characters of the text, if there is one.
pub open spec fn text_opt(s: Option<&str>) -> Option<Seq<char>> {
    match s {
        Some(t) => Some(t@),
        None => None,
    }
}

fn push_curve_name(out: &mut String)
    ensures
        final(out)@ == old(out)@ + curve_name(),
{
    let ghost o = out@;
    push_char(out, 'e');
    push_char(out, 'd');
    push_char(out, '2');
    push_char(out, '5');
    push_char(out, '5');
    push_char(out, '1');
    push_char(out, '9');
    assert(out@ =~= o + curve_name());
}

fn push_suffix(out: &mut String)
    ensures
        final(out)@ == old(out)@ + key_suffix(),
{
    let ghost o = out@;
    push_char(out, '.');
    push_curve_name(out);
    assert(out@ =~= o + key_suffix());
}

/// The characters of `s` before the suffix `.ed25519`, if it ends with it.
fn without_suffix(s: &str) -> (r: Option<Vec<char>>)
    ensures
        r is Some <==> strip_suffix(s@, key_suffix()) is Some,
        r matches Some(t) ==> strip_suffix(s@, key_suffix()) == Some(t@),
{
    let c = chars_of(s);
    let suffix = ['.', 'e', 'd', '2', '5', '5', '1', '9'];
    assert(suffix@ =~= key_suffix());
    if c.len() < 8 {
        return None;
    }
    let start = c.len() - 8;
    let mut i: usize = 0;
    while i < 8
        invariant
            c@ == s@,
            start == c.len() - 8,
            i <= 8,
            suffix@ == key_suffix(),
            forall|j: int| 0 <= j < i ==> c@[start + j] == suffix@[j],
        decreases 8 - i,
    {
        if c[start + i] != suffix[i] {
            assert(c@.subrange(start as int, c.len() as int)[i as int] != key_suffix()[i as int]);
            return None;
        }
        i = i + 1;
    }
    assert(c@.subrange(start as int, c.len() as int) =~= key_suffix());
    let mut t: Vec<char> = Vec::new();
    let mut k: usize = 0;
    while k < start
        invariant
            c@ == s@,
            start == c.len() - 8,
            k <= start,
            t@ == c@.take(k as int),
        decreases start - k,
    {
        t.push(c[k]);
        assert(c@.take(k as int + 1) == c@.take(k as int).push(c@[k as int]));
        k = k + 1;
    }
    Some(t)
}

impl Keypair {
    /// The texts of the key file: the curve name, the public key and the
    /// secret key followed by the public key, each in base64 with the
    /// suffix `.ed25519`, and the id `@<public>.ed25519`.
    pub fn to_fields(&self) -> (r: KeyFields)
        ensures
            r.curve@ == curve_name(),
            r.public@ == base64_text(self.public@) + key_suffix(),
            r.private@ == base64_text(self.secret@ + self.public@) + key_suffix(),
            r.id@ == seq!['@'] + base64_text(self.public@) + key_suffix(),
            keypair_of(Some(r.curve@), Some(r.public@), Some(r.private@)) == Ok::<
                (Seq<u8>, Seq<u8>),
                KeyFileError,
            >((self.public@, self.secret@)),
    {
        let pb = self.public.to_bytes();
        let mut both = self.secret.to_bytes();
        let mut pb2 = pb.clone();
        both.append(&mut pb2);
        let pub_b64 = chars_of(encode_base64(pb.as_slice()).as_str());
        let priv_b64 = chars_of(encode_base64(both.as_slice()).as_str());

        let mut curve = String::new();
        push_curve_name(&mut curve);
        assert(curve@ =~= curve_name());

        let mut public = String::new();
        push_chars(&mut public, &pub_b64);
        push_suffix(&mut public);

        let mut private = String::new();
        push_chars(&mut private, &priv_b64);
        push_suffix(&mut private);

        let mut id = String::new();
        push_char(&mut id, '@');
        push_chars(&mut id, &pub_b64);
        push_suffix(&mut id);
        assert(id@ =~= seq!['@'] + base64_text(self.public@) + key_suffix());
        assert(public@ =~= base64_text(self.public@) + key_suffix());
        assert(private@ =~= base64_text(self.secret@ + self.public@) + key_suffix());
        proof {
            lemma_strip_suffix(base64_text(self.public@));
            lemma_strip_suffix(base64_text(self.secret@ + self.public@));
            assert((self.secret@ + self.public@).take(32) =~= self.secret@);
        }
        KeyFields { curve, public, private, id }
    }

    /// The key pair that the key file's texts give, or why they give none.
    /// The secret key is the first 32 bytes of the private text.
    pub fn from_fields(curve: Option<&str>, public: Option<&str>, private: Option<&str>) -> (r:
        Result<Keypair, KeyFileError>)
        ensures
            r matches Ok(kp) ==> keypair_of(
                text_opt(curve),
                text_opt(public),
                text_opt(private),
            ) == Ok::<(Seq<u8>, Seq<u8>), KeyFileError>((kp.public@, kp.secret@)),
            r matches Err(e) ==> keypair_of(
                text_opt(curve),
                text_opt(public),
                text_opt(private),
            ) == Err::<(Seq<u8>, Seq<u8>), KeyFileError>(e),
    {
        let (c, p, s) = match (curve, public, private) {
            (Some(c), Some(p), Some(s)) => (c, p, s),
            _ => return Err(KeyFileError::MissingField),
        };
        let cc = chars_of(c);
        let name = ['e', 'd', '2', '5', '5', '1', '9'];
        assert(name@ =~= curve_name());
        if cc.len() != 7 {
            return Err(KeyFileError::WrongCurve);
        }
        let mut i: usize = 0;
        while i < 7
            invariant
                cc@ == c@,
                curve == Some(c),
                public == Some(p),
                private == Some(s),
                cc.len() == 7,
                name@ == curve_name(),
                i <= 7,
                forall|j: int| 0 <= j < i ==> cc@[j] == name@[j],
            decreases 7 - i,
        {
            if cc[i] != name[i] {
                assert(cc@[i as int] != curve_name()[i as int]);
                return Err(KeyFileError::WrongCurve);
            }
            i = i + 1;
        }
        assert(cc@ =~= curve_name());
        let pt = match without_suffix(p) {
            None => return Err(KeyFileError::BadPublic),
            Some(t) => t,
        };
        let pk = match PublicKey::from_base64_chars(&pt) {
            None => return Err(KeyFileError::BadPublic),
            Some(k) => k,
        };
        let st = match without_suffix(s) {
            None => return Err(KeyFileError::BadPrivate),
            Some(t) => t,
        };
        let sb = match decode_base64(&st) {
            None => return Err(KeyFileError::BadPrivate),
            Some(b) => b,
        };
        if sb.len() < 32 {
            return Err(KeyFileError::BadPrivate);
        }
        let mut first: Vec<u8> = Vec::new();
        let mut k: usize = 0;
        while k < 32
            invariant
                sb.len() >= 32,
                k <= 32,
                first@ == sb@.take(k as int),
            decreases 32 - k,
        {
            first.push(sb[k]);
            assert(sb@.take(k as int + 1) == sb@.take(k as int).push(sb@[k as int]));
            k = k + 1;
        }
        match SecretKey::from_bytes(first.as_slice()) {
            Some(sk) => Ok(Keypair { public: pk, secret: sk }),
            None => Err(KeyFileError::BadPrivate),
        }
    }
}

pub open spec fn curve_key() -> Seq<char> {
    seq!['c', 'u', 'r', 'v', 'e']
}

pub open spec fn public_key() -> Seq<char> {
    seq!['p', 'u', 'b', 'l', 'i', 'c']
}

pub open spec fn private_key() -> Seq<char> {
    seq!['p', 'r', 'i', 'v', 'a', 't', 'e']
}

pub open spec fn id_key() -> Seq<char> {
    seq!['i', 'd']
}

/// The key pair that a JSON object's string members give.
pub open spec fn keypair_of_members(m: Map<Seq<char>, Seq<char>>) -> Result<
    (Seq<u8>, Seq<u8>),
    KeyFileError,
> {
    keypair_of(member(m, curve_key()), member(m, public_key()), member(m, private_key()))
}

/// The key pair that a key file's text gives: comments removed, the rest
/// read as JSON, and its members read.
pub open spec fn key_file_of(text: Seq<char>) -> Result<(Seq<u8>, Seq<u8>), KeyFileError> {
    if !regex_compiles(comment_pattern()) {
        Err(KeyFileError::CommentPattern)
    } else {
        match json_parsed_texts(matches_removed(comment_pattern(), text)) {
            None => Err(KeyFileError::NotJson),
            Some(m) => keypair_of_members(m),
        }
    }
}

impl Keypair {
    /// The key file's JSON object: `curve`, `public`, `private` and `id`,
    /// holding the texts of `to_fields`.
    pub fn to_json(&self) -> (r: json::JsonValue)
        ensures
            json_is_object(r),
            json_texts(r) == no_members().insert(curve_key(), curve_name()).insert(public_key(), base64_text(self.public@) + key_suffix()).insert(
                private_key(),
                base64_text(self.secret@ + self.public@) + key_suffix(),
            ).insert(id_key(), seq!['@'] + base64_text(self.public@) + key_suffix()),
            keypair_of_members(json_texts(r)) == Ok::<(Seq<u8>, Seq<u8>), KeyFileError>(
                (self.public@, self.secret@),
            ),
    {
        let f = self.to_fields();
        let mut obj = json_object();
        proof {
            reveal_strlit("curve");
            reveal_strlit("public");
            reveal_strlit("private");
            reveal_strlit("id");
            assert("curve"@ =~= curve_key());
            assert("public"@ =~= public_key());
            assert("private"@ =~= private_key());
            assert("id"@ =~= id_key());
        }
        json_insert(&mut obj, "curve", f.curve.as_str());
        json_insert(&mut obj, "public", f.public.as_str());
        json_insert(&mut obj, "private", f.private.as_str());
        json_insert(&mut obj, "id", f.id.as_str());
        proof {
            let m = json_texts(obj);
            assert(curve_key() != public_key() && curve_key() != private_key() && curve_key()
                != id_key()) by {
                assert(curve_key()[0] != public_key()[0]);
                assert(curve_key()[0] != private_key()[0]);
                assert(curve_key()[0] != id_key()[0]);
            }
            assert(public_key() != private_key() && public_key() != id_key()) by {
                assert(public_key()[1] != private_key()[1]);
                assert(public_key()[0] != id_key()[0]);
            }
            assert(private_key() != id_key()) by {
                assert(private_key()[0] != id_key()[0]);
            }
            assert(member(m, curve_key()) == Some(f.curve@));
            assert(member(m, public_key()) == Some(f.public@));
            assert(member(m, private_key()) == Some(f.private@));
        }
        obj
    }

    /// The key pair of a JSON object's string members `curve`, `public` and
    /// `private`, read as by `from_fields`.
    pub fn from_json(obj: &json::JsonValue) -> (r: Result<Keypair, KeyFileError>)
        ensures
            r matches Ok(kp) ==> keypair_of_members(json_texts(*obj)) == Ok::<
                (Seq<u8>, Seq<u8>),
                KeyFileError,
            >((kp.public@, kp.secret@)),
            r matches Err(e) ==> keypair_of_members(json_texts(*obj)) == Err::<
                (Seq<u8>, Seq<u8>),
                KeyFileError,
            >(e),
    {
        proof {
            reveal_strlit("curve");
            reveal_strlit("public");
            reveal_strlit("private");
            assert("curve"@ =~= curve_key());
            assert("public"@ =~= public_key());
            assert("private"@ =~= private_key());
        }
        let curve = json_string(obj, "curve");
        let public = json_string(obj, "public");
        let private = json_string(obj, "private");
        Keypair::from_fields(curve, public, private)
    }

    /// The key pair of a key file's text: `#` comments are removed, the rest
    /// is read as a JSON document, and its members as by `from_json`.
    pub fn from_key_file(text: &str) -> (r: Result<Keypair, KeyFileError>)
        ensures
            r matches Ok(kp) ==> key_file_of(text@) == Ok::<(Seq<u8>, Seq<u8>), KeyFileError>(
                (kp.public@, kp.secret@),
            ),
            r matches Err(e) ==> key_file_of(text@) == Err::<(Seq<u8>, Seq<u8>), KeyFileError>(e),
    {
        proof {
            reveal_strlit("\\s*#[^\\n]*");
            assert(COMMENT_PATTERN@ =~= comment_pattern());
        }
        let cleaned = match remove_pattern(COMMENT_PATTERN, text) {
            Some(c) => c,
            None => return Err(KeyFileError::CommentPattern),
        };
        match parse_json(cleaned.as_str()) {
            Some(obj) => Keypair::from_json(&obj),
            None => Err(KeyFileError::NotJson),
        }
    }
}

} // verus!
