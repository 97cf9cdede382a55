//! Keys, signatures and encodings of the approval gate.

use crate::privileged::crypto;
use crate::text;
use base64::Engine;
use ed25519_dalek::{Signer, Verifier};
use rand::RngCore;
use std::collections::BTreeMap;
use vstd::prelude::*;
use vstd::slice::slice_subrange;
use vstd::utf8::{decode_utf8, valid_utf8};

verus! {

// ---------- the outside functions ----------

/// The Ed25519 public key of a secret.
pub uninterp spec fn ed25519_public_of(secret: Seq<u8>) -> Seq<u8>;

/// Whether 32 bytes are an Ed25519 public key.
pub uninterp spec fn ed25519_key_valid(public: Seq<u8>) -> bool;

/// The Ed25519 signature of a message under a secret.
pub uninterp spec fn ed25519_signature(secret: Seq<u8>, message: Seq<u8>) -> Seq<u8>;

/// Whether a signature of a message holds under a public key.
pub uninterp spec fn ed25519_verifies(
    public: Seq<u8>,
    message: Seq<u8>,
    signature: Seq<u8>,
) -> bool;

/// `ed25519_dalek::SigningKey::from_bytes` and `verifying_key`: a function of
/// the secret, and a valid public key.
#[verifier::external_body]
pub(crate) fn signing_public(secret: &[u8; 32]) -> (r: [u8; 32])
    ensures
        r@ == ed25519_public_of(secret@),
        ed25519_key_valid(r@),
{
    ed25519_dalek::SigningKey::from_bytes(secret).verifying_key().to_bytes()
}

/// `ed25519_dalek::SigningKey::sign`: a function of the secret and the
/// message. The signature holds under the public key of the secret.
#[verifier::external_body]
pub(crate) fn sign(secret: &[u8; 32], message: &[u8]) -> (r: Vec<u8>)
    ensures
        r@ == ed25519_signature(secret@, message@),
        ed25519_verifies(ed25519_public_of(secret@), message@, r@),
{
    ed25519_dalek::SigningKey::from_bytes(secret).sign(message).to_bytes().to_vec()
}

/// `ed25519_dalek::VerifyingKey::from_bytes`: whether it accepts, a function
/// of the bytes.
#[verifier::external_body]
pub(crate) fn key_is_valid(public: &[u8; 32]) -> (r: bool)
    ensures
        r == ed25519_key_valid(public@),
{
    ed25519_dalek::VerifyingKey::from_bytes(public).is_ok()
}

/// `ed25519_dalek::VerifyingKey::verify`, on a signature that
/// `Signature::from_slice` takes: a function of the key, the message and the
/// signature. Only signatures of 64 bytes under a valid key hold.
#[verifier::external_body]
pub(crate) fn verifies(public: &[u8; 32], message: &[u8], signature: &[u8]) -> (r: bool)
    ensures
        r == ed25519_verifies(public@, message@, signature@),
        r ==> signature@.len() == 64 && ed25519_key_valid(public@),
{
    let key = ed25519_dalek::VerifyingKey::from_bytes(public);
    let parsed = ed25519_dalek::Signature::from_slice(signature);
    key.and_then(|k| parsed.and_then(|s| k.verify(message, &s))).is_ok()
}

/// `try_fill_bytes` of `rand::rngs::OsRng` on 32 bytes: nothing is promised of
/// them, nor that the operating system gives any.
#[verifier::external_body]
pub(crate) fn random_bytes() -> (r: Option<[u8; 32]>) {
    let mut bytes = [0u8; 32];
    rand::rngs::OsRng.try_fill_bytes(&mut bytes).ok().map(|_| bytes)
}

/// The bytes that a base64 text with padding stands for, if it is one.
pub uninterp spec fn base64_decoded(encoded: Seq<char>) -> Option<Seq<u8>>;

/// `base64`'s standard engine decoding a text: a function of the text.
#[verifier::external_body]
pub(crate) fn base64_decode(encoded: &str) -> (r: Option<Vec<u8>>)
    ensures
        opt_bytes(r) == base64_decoded(encoded@),
{
    base64::engine::general_purpose::STANDARD.decode(encoded).ok()
}

/// The base64 text without padding of some bytes.
pub uninterp spec fn base64_unpadded(bytes: Seq<u8>) -> Seq<char>;

/// `base64`'s standard engine without padding encoding some bytes: a function
/// of the bytes.
#[verifier::external_body]
pub(crate) fn base64_encode_unpadded(bytes: &[u8]) -> (r: String)
    ensures
        r@ == base64_unpadded(bytes@),
{
    base64::engine::general_purpose::STANDARD_NO_PAD.encode(bytes)
}

/// The entries of a JSON object from texts to texts, in the order of their
/// keys, if a text is one.
pub uninterp spec fn keyring_entries(raw: Seq<char>) -> Option<Seq<(Seq<char>, Seq<char>)>>;

/// `serde_json::from_str` into a map from texts to texts, walked in the order
/// of its keys: a function of the text. No key comes twice.
#[verifier::external_body]
pub(crate) fn parse_keyring(raw: &str) -> (r: Option<Vec<(String, String)>>)
    ensures
        opt_pairs(r) == keyring_entries(raw@),
        r is Some ==> distinct_keys(pairs(r->0@)),
{
    let map: Result<BTreeMap<String, String>, serde_json::Error> = serde_json::from_str(raw);
    map.ok().map(|m| m.into_iter().collect())
}

/// The JSON text of a map from texts to texts, as bytes.
pub uninterp spec fn keyring_json(entries: Seq<(Seq<char>, Seq<char>)>) -> Seq<u8>;

/// `serde_json::to_vec_pretty` of a map from texts to texts: a function of the
/// entries. Writing such a map into memory does not fail, and reading it back
/// gives the same entries.
#[verifier::external_body]
pub(crate) fn write_keyring(entries: &Vec<(String, String)>) -> (r: Option<Vec<u8>>)
    requires
        distinct_keys(pairs(entries@)),
    ensures
        r is Some && r->0@ == keyring_json(pairs(entries@)) && valid_utf8(r->0@),
        r is Some && (match keyring_entries(decode_utf8(r->0@)) {
            Some(back) => forall|e: (Seq<char>, Seq<char>)| #[trigger]
                back.contains(e) <==> pairs(entries@).contains(e),
            None => false,
        }),
{
    let map: BTreeMap<&String, &String> = entries.iter().map(|e| (&e.0, &e.1)).collect();
    serde_json::to_vec_pretty(&map).ok()
}

// ---------- views ----------

pub open spec fn opt_bytes(o: Option<Vec<u8>>) -> Option<Seq<u8>> {
    match o {
        Some(v) => Some(v@),
        None => None,
    }
}

pub open spec fn pairs(v: Seq<(String, String)>) -> Seq<(Seq<char>, Seq<char>)> {
    v.map_values(|e: (String, String)| (e.0@, e.1@))
}

pub open spec fn opt_pairs(o: Option<Vec<(String, String)>>) -> Option<
    Seq<(Seq<char>, Seq<char>)>,
> {
    match o {
        Some(v) => Some(pairs(v@)),
        None => None,
    }
}

pub open spec fn distinct_keys(entries: Seq<(Seq<char>, Seq<char>)>) -> bool {
    forall|i: int, j: int|
        0 <= i < j < entries.len() ==> (#[trigger] entries[i]).0 != (#[trigger] entries[j]).0
}

pub open spec fn key_outcome(r: Result<[u8; 32], String>) -> Result<Seq<u8>, Seq<char>> {
    match r {
        Ok(k) => Ok(k@),
        Err(e) => Err(e@),
    }
}

// ---------- keys ----------

/// Takes exactly 32 bytes as a key.
pub fn key_of(bytes: &[u8]) -> (r: Option<[u8; 32]>)
    ensures
        match r {
            Some(k) => bytes@.len() == 32 && k@ == bytes@,
            None => bytes@.len() != 32,
        },
{
    if bytes.len() != 32 {
        return None;
    }
    let mut key = [0u8;32];
    let mut i: usize = 0;
    while i < 32
        invariant
            i <= 32,
            bytes@.len() == 32,
            forall|j: int| 0 <= j < i ==> key@[j] == bytes@[j],
        decreases 32 - i,
    {
        key[i] = bytes[i];
        i += 1;
    }
    assert(key@ =~= bytes@);
    Some(key)
}

/// The key in a key file: exactly 32 bytes.
pub fn stored_key(path: &str, bytes: &[u8]) -> (r: Result<[u8; 32], String>)
    ensures
        key_outcome(r) == (if bytes@.len() == 32 {
            Ok(bytes@)
        } else {
            Err(path@ + " must contain exactly 32 bytes"@)
        }),
{
    match key_of(bytes) {
        Some(key) => Ok(key),
        None => Err(text::join2(path, " must contain exactly 32 bytes")),
    }
}

/// A key, and whether it is new and still has to be written to its file.
#[derive(Debug)]
pub struct LoadedKey {
    pub key: [u8; 32],
    pub fresh: bool,
}

/// What is said where the operating system gives no random bytes.
pub open spec fn no_randomness() -> Seq<char> {
    "operating system randomness is unavailable"@
}

/// Says that the operating system gives no random bytes.
pub(crate) fn randomness_failed() -> (r: String)
    ensures
        r@ == no_randomness(),
{
    text::owned("operating system randomness is unavailable")
}

/// The key in a key file, or the bytes that were drawn where the file could
/// not be read.
pub fn key_or_drawn(path: &str, stored: Option<&[u8]>, drawn: Option<[u8; 32]>) -> (r: Result<
    LoadedKey,
    String,
>)
    ensures
        match stored {
            Some(bytes) => match r {
                Ok(k) => bytes@.len() == 32 && k.key@ == bytes@ && !k.fresh,
                Err(e) => bytes@.len() != 32 && e@ == path@ + " must contain exactly 32 bytes"@,
            },
            None => match drawn {
                Some(key) => r is Ok && r->Ok_0.fresh && r->Ok_0.key@ == key@,
                None => r is Err && r->Err_0@ == no_randomness(),
            },
        },
{
    match stored {
        Some(bytes) => match stored_key(path, bytes) {
            Ok(key) => Ok(LoadedKey { key, fresh: false }),
            Err(e) => Err(e),
        },
        None => match drawn {
            Some(key) => Ok(LoadedKey { key, fresh: true }),
            None => Err(randomness_failed()),
        },
    }
}

/// The key in a key file, or a new one from the operating system where the
/// file could not be read. Nothing is promised of a new key but that it is the
/// one that was drawn.
pub fn load_or_create_key(path: &str, stored: Option<&[u8]>) -> (r: Result<LoadedKey, String>)
    ensures
        match stored {
            Some(bytes) => match r {
                Ok(k) => bytes@.len() == 32 && k.key@ == bytes@ && !k.fresh,
                Err(e) => bytes@.len() != 32 && e@ == path@ + " must contain exactly 32 bytes"@,
            },
            None => match r {
                Ok(k) => k.fresh,
                Err(e) => e@ == no_randomness(),
            },
        },
{
    let drawn = if stored.is_some() {
        None
    } else {
        random_bytes()
    };
    key_or_drawn(path, stored, drawn)
}

/// One lower-case hexadecimal digit.
pub open spec fn hex_char(n: int) -> char {
    if n < 10 {
        (48 + n) as u8 as char
    } else {
        (87 + n) as u8 as char
    }
}

/// Two lower-case hexadecimal digits for each byte.
pub open spec fn hex_of(bytes: Seq<u8>) -> Seq<char>
    decreases bytes.len(),
{
    if bytes.len() == 0 {
        Seq::empty()
    } else {
        hex_of(bytes.drop_last()).push(hex_char(bytes.last() as int / 16)).push(
            hex_char(bytes.last() as int % 16),
        )
    }
}

fn hex_digit_char(n: u8) -> (r: char)
    requires
        n < 16,
    ensures
        r == hex_char(n as int),
{
    if n < 10 {
        (48 + n) as char
    } else {
        (87 + n) as char
    }
}

/// The hexadecimal text of some bytes.
pub fn hex(bytes: &[u8]) -> (r: String)
    ensures
        r@ == hex_of(bytes@),
{
    let mut r = String::new();
    let mut i: usize = 0;
    while i < bytes.len()
        invariant
            i <= bytes@.len(),
            r@ == hex_of(bytes@.take(i as int)),
        decreases bytes@.len() - i,
    {
        let b = bytes[i];
        r.push(hex_digit_char(b / 16));
        r.push(hex_digit_char(b % 16));
        i += 1;
        assert(bytes@.take(i as int).drop_last() =~= bytes@.take(i - 1));
    }
    assert(bytes@.take(i as int) =~= bytes@);
    r
}

/// What a host calls itself: the first half of its public key, in hexadecimal.
pub open spec fn host_name(public: Seq<u8>) -> Seq<char> {
    hex_of(public.take(16))
}

/// The name of the host with a public key.
pub fn host_id(public: &[u8; 32]) -> (r: String)
    ensures
        r@ == host_name(public@),
{
    let half = slice_subrange(public.as_slice(), 0, 16);
    assert(half@ =~= public@.take(16));
    hex(half)
}

/// The fingerprint of a digest, as it is shown to an operator.
pub fn fingerprint_text(encoded: &str) -> (r: String)
    ensures
        r@ == "SHA256:"@ + encoded@,
{
    text::join2("SHA256:", encoded)
}

/// The fingerprint of a host's public key.
pub fn host_fingerprint(public: &[u8; 32]) -> (r: String)
    ensures
        r@ == "SHA256:"@ + base64_unpadded(crypto::sha256_of(public@)),
{
    let digest = crypto::sha256(public.as_slice());
    fingerprint_text(base64_encode_unpadded(digest.as_slice()).as_str())
}

// ---------- laws ----------

/// Every byte is two lower-case hexadecimal digits, the more significant first.
pub proof fn law_bytes_are_spelled_in_hex(bytes: &[u8], r: String, i: int)
    requires
        call_ensures(hex, (bytes,), r),
    ensures
        r@.len() == 2 * bytes@.len(),
        0 <= i < bytes@.len() ==> r@[2 * i] == "0123456789abcdef"@[bytes@[i] as int / 16] && r@[2
            * i + 1] == "0123456789abcdef"@[bytes@[i] as int % 16],
{
    lemma_hex(bytes@, i);
}

proof fn lemma_hex(bytes: Seq<u8>, i: int)
    ensures
        hex_of(bytes).len() == 2 * bytes.len(),
        0 <= i < bytes.len() ==> hex_of(bytes)[2 * i] == "0123456789abcdef"@[bytes[i] as int / 16]
            && hex_of(bytes)[2 * i + 1] == "0123456789abcdef"@[bytes[i] as int % 16],
    decreases bytes.len(),
{
    reveal_strlit("0123456789abcdef");
    if bytes.len() > 0 {
        let front = bytes.drop_last();
        lemma_hex(front, i);
        if i == front.len() {
            let b = bytes[i] as int;
            lemma_hex_char(b / 16);
            lemma_hex_char(b % 16);
        }
    }
}

proof fn lemma_hex_char(n: int)
    requires
        0 <= n < 16,
    ensures
        hex_char(n) == "0123456789abcdef"@[n],
{
    reveal_strlit("0123456789abcdef");
    let s = "0123456789abcdef"@;
    assert(s[0] == '0' && s[1] == '1' && s[2] == '2' && s[3] == '3' && s[4] == '4' && s[5] == '5'
        && s[6] == '6' && s[7] == '7' && s[8] == '8' && s[9] == '9' && s[10] == 'a' && s[11] == 'b'
        && s[12] == 'c' && s[13] == 'd' && s[14] == 'e' && s[15] == 'f');
}

/// A host is named after the first sixteen bytes of its key, and after all of
/// them.
pub proof fn law_hosts_are_named_after_their_key(
    a: &[u8; 32],
    b: &[u8; 32],
    x: String,
    y: String,
)
    requires
        call_ensures(host_id, (a,), x),
        call_ensures(host_id, (b,), y),
    ensures
        x@.len() == 32,
        x@ == y@ <==> a@.subrange(0, 16) == b@.subrange(0, 16),
{
    let p = a@.take(16);
    let q = b@.take(16);
    lemma_hex(p, 0);
    assert(a@.subrange(0, 16) =~= p && b@.subrange(0, 16) =~= q);
    if x@ == y@ {
        assert forall|i: int| 0 <= i < 16 implies p[i] == q[i] by {
            lemma_hex(p, i);
            lemma_hex(q, i);
            lemma_hex_apart(p[i] as int / 16, q[i] as int / 16);
            lemma_hex_apart(p[i] as int % 16, q[i] as int % 16);
        }
        assert(p =~= q);
    }
}

proof fn lemma_hex_apart(m: int, n: int)
    requires
        0 <= m < 16,
        0 <= n < 16,
        "0123456789abcdef"@[m] == "0123456789abcdef"@[n],
    ensures
        m == n,
{
    reveal_strlit("0123456789abcdef");
    let s = "0123456789abcdef"@;
    assert(s[0] == '0' && s[1] == '1' && s[2] == '2' && s[3] == '3' && s[4] == '4' && s[5] == '5'
        && s[6] == '6' && s[7] == '7' && s[8] == '8' && s[9] == '9' && s[10] == 'a' && s[11] == 'b'
        && s[12] == 'c' && s[13] == 'd' && s[14] == 'e' && s[15] == 'f');
}

/// A key file holds a key where it holds 32 bytes, and then exactly that key; a
/// key is drawn only where there is no file.
pub proof fn law_keys_are_loaded_whole(
    path: &str,
    stored: Option<&[u8]>,
    drawn: Option<[u8; 32]>,
    r: Result<LoadedKey, String>,
)
    requires
        call_ensures(key_or_drawn, (path, stored, drawn), r),
    ensures
        stored is Some ==> (r is Ok <==> stored->0@.len() == 32),
        stored is Some && r is Ok ==> r->Ok_0.key@ == stored->0@ && !r->Ok_0.fresh,
        stored is Some && r is Err ==> r->Err_0@ == path@ + " must contain exactly 32 bytes"@,
        stored is None ==> (r is Ok <==> drawn is Some),
        stored is None && r is Ok ==> r->Ok_0.key@ == drawn->0@ && r->Ok_0.fresh,
        stored is None && r is Err ==> r->Err_0@ == "operating system randomness is unavailable"@,
{
}

/// A fingerprint is shown as one of SHA-256.
pub proof fn law_fingerprints_name_their_digest(encoded: &str, r: String)
    requires
        call_ensures(fingerprint_text, (encoded,), r),
    ensures
        r@ == "SHA256:"@ + encoded@,
{
}

/// A stored key is loaded as it is; a new one is marked as new.
pub proof fn law_stored_keys_are_not_replaced(
    path: &str,
    stored: Option<&[u8]>,
    r: Result<LoadedKey, String>,
)
    requires
        call_ensures(load_or_create_key, (path, stored), r),
    ensures
        stored is Some && stored->0@.len() == 32 ==> r is Ok && r->Ok_0.key@ == stored->0@
            && !r->Ok_0.fresh,
        stored is Some && stored->0@.len() != 32 ==> r is Err,
        stored is None && r is Ok ==> r->Ok_0.fresh,
{
}

/// The fingerprint of a host is the encoded digest of its whole key.
pub proof fn law_fingerprints_are_of_the_key(public: &[u8; 32], r: String)
    requires
        call_ensures(host_fingerprint, (public,), r),
    ensures
        r@ == "SHA256:"@ + base64_unpadded(crypto::sha256_of(public@)),
{
}

}
