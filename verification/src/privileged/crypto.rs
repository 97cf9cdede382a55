//! The encrypted transport between a client and the host broker. A relay in
//! the middle sees ciphertext only, and can neither replay nor reorder frames.

use crate::text;
use chacha20poly1305::aead::{Aead, Payload};
use chacha20poly1305::KeyInit;
use sha2::Digest;
use vstd::prelude::*;
use vstd::utf8::encode_utf8;

verus! {

// ---------- the outside functions ----------

/// What SHA-256 makes of some bytes.
pub uninterp spec fn sha256_of(data: Seq<u8>) -> Seq<u8>;

/// `sha2::Sha256::digest`: a function of the bytes alone, 32 bytes long.
#[verifier::external_body]
pub(crate) fn sha256(data: &[u8]) -> (r: [u8; 32])
    ensures
        r@ == sha256_of(data@),
{
    sha2::Sha256::digest(data).into()
}

/// The 32 bytes that HKDF over SHA-256 expands from a salt, a secret and a label.
pub uninterp spec fn hkdf_key(salt: Seq<u8>, secret: Seq<u8>, label: Seq<u8>) -> Seq<u8>;

/// `hkdf::Hkdf::<Sha256>::new` and `expand` into 32 bytes: a function of the
/// salt, the secret and the label. It succeeds, as 32 bytes are within the
/// limit of 255 hash lengths that `expand` checks.
#[verifier::external_body]
fn hkdf_expand(salt: &[u8; 32], secret: &[u8; 32], label: &[u8]) -> (r: Option<[u8; 32]>)
    ensures
        r is Some && r->0@ == hkdf_key(salt@, secret@, label@),
{
    let mut key = [0u8; 32];
    let done = hkdf::Hkdf::<sha2::Sha256>::new(Some(salt), secret).expand(label, &mut key);
    done.ok().map(|_| key)
}

/// The X25519 public key of a secret.
pub uninterp spec fn x25519_public_of(secret: Seq<u8>) -> Seq<u8>;

/// The secret that X25519 agrees on, from one side's secret and the other
/// side's public key.
pub uninterp spec fn x25519_agreed(secret: Seq<u8>, public: Seq<u8>) -> Seq<u8>;

/// `x25519_dalek::PublicKey::from(&StaticSecret)`: a function of the secret.
#[verifier::external_body]
pub(crate) fn x25519_public(secret: &[u8; 32]) -> (r: [u8; 32])
    ensures
        r@ == x25519_public_of(secret@),
{
    x25519_dalek::PublicKey::from(&x25519_dalek::StaticSecret::from(*secret)).to_bytes()
}

/// `x25519_dalek::StaticSecret::diffie_hellman`: a function of the secret and
/// the public key. Where the public key belongs to another secret, that one
/// agrees on the same bytes with the public key of this one.
#[verifier::external_body]
fn x25519_agree(secret: &[u8; 32], public: &[u8; 32]) -> (r: [u8; 32])
    ensures
        r@ == x25519_agreed(secret@, public@),
        forall|other: Seq<u8>|
            other.len() == 32 && #[trigger] x25519_public_of(other) == public@ ==> r@
                == x25519_agreed(other, x25519_public_of(secret@)),
{
    let theirs = x25519_dalek::PublicKey::from(*public);
    x25519_dalek::StaticSecret::from(*secret).diffie_hellman(&theirs).to_bytes()
}

/// What ChaCha20-Poly1305 makes of a message under a key, a nonce and
/// associated data.
pub uninterp spec fn sealed_bytes(
    key: Seq<u8>,
    nonce: Seq<u8>,
    aad: Seq<u8>,
    message: Seq<u8>,
) -> Seq<u8>;

/// The message that ChaCha20-Poly1305 finds in some bytes, if they
/// authenticate under the key, the nonce and the associated data.
pub uninterp spec fn opened_bytes(
    key: Seq<u8>,
    nonce: Seq<u8>,
    aad: Seq<u8>,
    sealed: Seq<u8>,
) -> Option<Seq<u8>>;

/// Message lengths that one key stream covers.
pub open spec fn sealable(len: int) -> bool {
    len <= 64 * 0xffff_fffe
}

/// Message lengths that are refused outright.
pub open spec fn oversized(len: int) -> bool {
    len >= 64 * 0xffff_ffff
}

/// `ChaCha20Poly1305::encrypt`: a function of the key, the nonce, the
/// associated data and the message, 16 bytes longer than the message. It fails
/// exactly on an oversized message; on the few lengths between the two bounds
/// its key stream runs out. What it gives opens again to the message.
#[verifier::external_body]
fn seal(key: &[u8; 32], nonce: &[u8; 12], aad: &[u8], message: &[u8]) -> (r: Option<Vec<u8>>)
    requires
        sealable(message@.len() as int) || oversized(message@.len() as int),
    ensures
        match r {
            Some(data) => {
                &&& sealable(message@.len() as int)
                &&& data@ == sealed_bytes(key@, nonce@, aad@, message@)
                &&& data@.len() == message@.len() + 16
                &&& opened_bytes(key@, nonce@, aad@, data@) == Some(message@)
            },
            None => oversized(message@.len() as int),
        },
{
    let cipher = chacha20poly1305::ChaCha20Poly1305::new(key.into());
    cipher.encrypt(nonce.into(), Payload { msg: message, aad }).ok()
}

/// `ChaCha20Poly1305::decrypt`: a function of the key, the nonce, the
/// associated data and the bytes. What it accepts is exactly what sealing the
/// message it returns gives; bytes shorter than the tag are refused.
#[verifier::external_body]
fn open(key: &[u8; 32], nonce: &[u8; 12], aad: &[u8], sealed: &[u8]) -> (r: Option<Vec<u8>>)
    requires
        sealable(sealed@.len() - 16) || oversized(sealed@.len() - 16),
    ensures
        match r {
            Some(message) => {
                &&& opened_bytes(key@, nonce@, aad@, sealed@) == Some(message@)
                &&& sealed@ == sealed_bytes(key@, nonce@, aad@, message@)
                &&& sealed@.len() == message@.len() + 16
            },
            None => opened_bytes(key@, nonce@, aad@, sealed@) is None,
        },
{
    let cipher = chacha20poly1305::ChaCha20Poly1305::new(key.into());
    cipher.decrypt(nonce.into(), Payload { msg: sealed, aad }).ok()
}

// ---------- the transport ----------

/// One end of the transport: a key and a counter for each direction, bound to
/// one request.
pub struct Transport {
    send_key: [u8; 32],
    receive_key: [u8; 32],
    send_counter: u64,
    receive_counter: u64,
    request_id: String,
}

/// What one end of the transport knows.
#[verifier::ext_equal]
pub struct TransportState {
    pub send_key: Seq<u8>,
    pub receive_key: Seq<u8>,
    pub sent: u64,
    pub received: u64,
    pub request_id: Seq<char>,
}

impl View for Transport {
    type V = TransportState;

    closed spec fn view(&self) -> TransportState {
        TransportState {
            send_key: self.send_key@,
            receive_key: self.receive_key@,
            sent: self.send_counter,
            received: self.receive_counter,
            request_id: self.request_id@,
        }
    }
}

/// The key for frames from the client to the host.
pub open spec fn client_to_host_key(agreed: Seq<u8>, manifest: Seq<u8>) -> Seq<u8> {
    hkdf_key(sha256_of(manifest), agreed, encode_utf8("shellfleet-root-client-to-host-v1"@))
}

/// The key for frames from the host to the client.
pub open spec fn host_to_client_key(agreed: Seq<u8>, manifest: Seq<u8>) -> Seq<u8> {
    hkdf_key(sha256_of(manifest), agreed, encode_utf8("shellfleet-root-host-to-client-v1"@))
}

/// A fresh client end over an agreed secret.
pub open spec fn client_end(
    agreed: Seq<u8>,
    manifest: Seq<u8>,
    request_id: Seq<char>,
) -> TransportState {
    TransportState {
        send_key: client_to_host_key(agreed, manifest),
        receive_key: host_to_client_key(agreed, manifest),
        sent: 0,
        received: 0,
        request_id,
    }
}

/// The other end of the same transport: keys and counters change sides.
pub open spec fn mirror(t: TransportState) -> TransportState {
    TransportState {
        send_key: t.receive_key,
        receive_key: t.send_key,
        sent: t.received,
        received: t.sent,
        request_id: t.request_id,
    }
}

/// The nonce of the frame with a given counter: four zero bytes, then the
/// counter, most significant byte first.
pub open spec fn nonce_of(counter: u64) -> Seq<u8> {
    seq![
        0u8,
        0u8,
        0u8,
        0u8,
        ((counter >> 56) & 0xff) as u8,
        ((counter >> 48) & 0xff) as u8,
        ((counter >> 40) & 0xff) as u8,
        ((counter >> 32) & 0xff) as u8,
        ((counter >> 24) & 0xff) as u8,
        ((counter >> 16) & 0xff) as u8,
        ((counter >> 8) & 0xff) as u8,
        (counter & 0xff) as u8,
    ]
}

/// The frame that an end sends next for a message.
pub open spec fn next_frame(t: TransportState, message: Seq<u8>) -> Seq<u8> {
    sealed_bytes(t.send_key, nonce_of(t.sent), encode_utf8(t.request_id), message)
}

/// What an end makes of a frame with a claimed counter.
pub open spec fn received_frame(t: TransportState, counter: u64, frame: Seq<u8>) -> Result<
    Seq<u8>,
    Seq<char>,
> {
    if counter != t.received {
        Err("root transport frame replay or reordering detected"@)
    } else {
        match opened_bytes(t.receive_key, nonce_of(counter), encode_utf8(t.request_id), frame) {
            None => Err("root transport authentication failed"@),
            Some(message) => if t.received == u64::MAX {
                Err("root transport counter exhausted"@)
            } else {
                Ok(message)
            },
        }
    }
}

pub open spec fn bytes_outcome(r: Result<Vec<u8>, String>) -> Result<Seq<u8>, Seq<char>> {
    match r {
        Ok(v) => Ok(v@),
        Err(e) => Err(e@),
    }
}

impl Transport {
    fn derive(agreed: &[u8; 32], manifest: &[u8], request_id: &str, client: bool) -> (r: Result<
        Self,
        String,
    >)
        ensures
            r matches Ok(t) && t@ == (if client {
                client_end(agreed@, manifest@, request_id@)
            } else {
                mirror(client_end(agreed@, manifest@, request_id@))
            }),
    {
        let salt = sha256(manifest);
        let client_to_host = hkdf_expand(
            &salt,
            agreed,
            "shellfleet-root-client-to-host-v1".as_bytes(),
        );
        let host_to_client = hkdf_expand(
            &salt,
            agreed,
            "shellfleet-root-host-to-client-v1".as_bytes(),
        );
        match (client_to_host, host_to_client) {
            (Some(up), Some(down)) => {
                if client {
                    Ok(
                        Transport {
                            send_key: up,
                            receive_key: down,
                            send_counter: 0,
                            receive_counter: 0,
                            request_id: text::owned(request_id),
                        },
                    )
                } else {
                    Ok(
                        Transport {
                            send_key: down,
                            receive_key: up,
                            send_counter: 0,
                            receive_counter: 0,
                            request_id: text::owned(request_id),
                        },
                    )
                }
            },
            _ => Err(text::owned("transport key derivation failed")),
        }
    }

    /// The broker's end, from its secret and the client's public key. A client
    /// that holds the secret of that public key derives the mirror image.
    pub fn broker(
        secret: &[u8; 32],
        client_public: [u8; 32],
        manifest: &[u8],
        request_id: &str,
    ) -> (r: Result<Self, String>)
        ensures
            r matches Ok(t) && t@ == mirror(
                client_end(x25519_agreed(secret@, client_public@), manifest@, request_id@),
            ) && (forall|c: Seq<u8>|
                c.len() == 32 && #[trigger] x25519_public_of(c) == client_public@ ==> mirror(t@)
                    == client_end(
                    x25519_agreed(c, x25519_public_of(secret@)),
                    manifest@,
                    request_id@,
                )),
    {
        let agreed = x25519_agree(secret, &client_public);
        Self::derive(&agreed, manifest, request_id, false)
    }

    /// The client's end, from its secret and the broker's public key. A broker
    /// that holds the secret of that public key derives the mirror image.
    pub fn client(
        secret: &[u8; 32],
        broker_public: [u8; 32],
        manifest: &[u8],
        request_id: &str,
    ) -> (r: Result<Self, String>)
        ensures
            r matches Ok(t) && t@ == client_end(
                x25519_agreed(secret@, broker_public@),
                manifest@,
                request_id@,
            ) && (forall|b: Seq<u8>|
                b.len() == 32 && #[trigger] x25519_public_of(b) == broker_public@ ==> t@
                    == client_end(
                    x25519_agreed(b, x25519_public_of(secret@)),
                    manifest@,
                    request_id@,
                )),
    {
        let agreed = x25519_agree(secret, &broker_public);
        Self::derive(&agreed, manifest, request_id, true)
    }

    fn nonce(counter: u64) -> (r: [u8; 12])
        ensures
            r@ == nonce_of(counter),
    {
        let r = [
            0u8,
            0u8,
            0u8,
            0u8,
            ((counter >> 56) & 0xff) as u8,
            ((counter >> 48) & 0xff) as u8,
            ((counter >> 40) & 0xff) as u8,
            ((counter >> 32) & 0xff) as u8,
            ((counter >> 24) & 0xff) as u8,
            ((counter >> 16) & 0xff) as u8,
            ((counter >> 8) & 0xff) as u8,
            (counter & 0xff) as u8,
        ];
        assert(r@ =~= nonce_of(counter));
        r
    }

    /// Seals the next frame: its counter and its bytes. A failure changes
    /// nothing.
    pub fn encrypt(&mut self, plaintext: &[u8]) -> (r: Result<(u64, Vec<u8>), String>)
        requires
            sealable(plaintext@.len() as int) || oversized(plaintext@.len() as int),
        ensures
            match r {
                Ok(frame) => {
                    &&& sealable(plaintext@.len() as int)
                    &&& old(self)@.sent < u64::MAX
                    &&& frame.0 == old(self)@.sent
                    &&& frame.1@ == next_frame(old(self)@, plaintext@)
                    &&& frame.1@.len() == plaintext@.len() + 16
                    &&& opened_bytes(
                        old(self)@.send_key,
                        nonce_of(frame.0),
                        encode_utf8(old(self)@.request_id),
                        frame.1@,
                    ) == Some(plaintext@)
                    &&& final(self)@ == (TransportState {
                        sent: (old(self)@.sent + 1) as u64,
                        ..old(self)@
                    })
                },
                Err(e) => {
                    &&& final(self)@ == old(self)@
                    &&& oversized(plaintext@.len() as int) ==> e@
                        == "root transport encryption failed"@
                    &&& !oversized(plaintext@.len() as int) ==> old(self)@.sent == u64::MAX && e@
                        == "root transport counter exhausted"@
                },
            },
    {
        let counter = self.send_counter;
        let nonce = Self::nonce(counter);
        match seal(&self.send_key, &nonce, self.request_id.as_str().as_bytes(), plaintext) {
            None => Err(text::owned("root transport encryption failed")),
            Some(data) => match self.send_counter.checked_add(1) {
                None => Err(text::owned("root transport counter exhausted")),
                Some(next) => {
                    self.send_counter = next;
                    Ok((counter, data))
                },
            },
        }
    }

    /// Opens a frame. Only the frame with the next counter is accepted, and
    /// only where it authenticates; a refused frame changes nothing.
    pub fn decrypt(&mut self, counter: u64, ciphertext: &[u8]) -> (r: Result<Vec<u8>, String>)
        requires
            sealable(ciphertext@.len() - 16) || oversized(ciphertext@.len() - 16),
        ensures
            bytes_outcome(r) == received_frame(old(self)@, counter, ciphertext@),
            r is Ok ==> final(self)@ == (TransportState {
                received: (old(self)@.received + 1) as u64,
                ..old(self)@
            }),
            r is Err ==> final(self)@ == old(self)@,
            r matches Ok(message) ==> ciphertext@ == sealed_bytes(
                old(self)@.receive_key,
                nonce_of(counter),
                encode_utf8(old(self)@.request_id),
                message@,
            ),
    {
        if counter != self.receive_counter {
            return Err(text::owned("root transport frame replay or reordering detected"));
        }
        let nonce = Self::nonce(counter);
        match open(&self.receive_key, &nonce, self.request_id.as_str().as_bytes(), ciphertext) {
            None => Err(text::owned("root transport authentication failed")),
            Some(plaintext) => match self.receive_counter.checked_add(1) {
                None => Err(text::owned("root transport counter exhausted")),
                Some(next) => {
                    self.receive_counter = next;
                    Ok(plaintext)
                },
            },
        }
    }
}

// ---------- laws ----------

/// A frame that one end sealed, and that opens to the message as sealing
/// promises, is accepted by the other end and gives the message back; then the
/// two ends are in step again.
pub proof fn law_frame_arrives(sender: TransportState, message: Seq<u8>)
    requires
        sender.sent < u64::MAX,
        opened_bytes(
            sender.send_key,
            nonce_of(sender.sent),
            encode_utf8(sender.request_id),
            next_frame(sender, message),
        ) == Some(message),
    ensures
        received_frame(mirror(sender), sender.sent, next_frame(sender, message)) == Ok::<
            Seq<u8>,
            Seq<char>,
        >(message),
        mirror(TransportState { sent: (sender.sent + 1) as u64, ..sender }) == (TransportState {
            received: (mirror(sender).received + 1) as u64,
            ..mirror(sender)
        }),
{
}

/// A frame is accepted at most once: once an end has accepted the frame with
/// some counter, it refuses every frame with that counter or an earlier one.
pub proof fn law_no_frame_is_accepted_twice(
    receiver: TransportState,
    counter: u64,
    frame: Seq<u8>,
    later: TransportState,
    replayed: u64,
    bytes: Seq<u8>,
)
    requires
        received_frame(receiver, counter, frame) is Ok,
        later.received > receiver.received,
        replayed <= counter,
    ensures
        received_frame(later, replayed, bytes) is Err,
{
}

/// The messages that an end gives back, when it is handed some frames one
/// after the other, up to the first that it refuses.
pub open spec fn received_all(
    receiver: TransportState,
    frames: Seq<(u64, Seq<u8>)>,
) -> Seq<Seq<u8>>
    decreases frames.len(),
{
    if frames.len() == 0 {
        Seq::empty()
    } else {
        match received_frame(receiver, frames[0].0, frames[0].1) {
            Err(_) => Seq::empty(),
            Ok(message) => seq![message] + received_all(
                TransportState { received: (receiver.received + 1) as u64, ..receiver },
                frames.skip(1),
            ),
        }
    }
}

/// The frames that an end seals for some messages, one after the other.
pub open spec fn sealed_all(sender: TransportState, messages: Seq<Seq<u8>>) -> Seq<(u64, Seq<u8>)>
    decreases messages.len(),
{
    if messages.len() == 0 {
        Seq::empty()
    } else {
        seq![(sender.sent, next_frame(sender, messages[0]))] + sealed_all(
            TransportState { sent: (sender.sent + 1) as u64, ..sender },
            messages.skip(1),
        )
    }
}

/// Whether every frame of some messages opens to its message, as sealing
/// promises.
pub open spec fn all_open(sender: TransportState, messages: Seq<Seq<u8>>) -> bool
    decreases messages.len(),
{
    messages.len() == 0 || (opened_bytes(
        sender.send_key,
        nonce_of(sender.sent),
        encode_utf8(sender.request_id),
        next_frame(sender, messages[0]),
    ) == Some(messages[0]) && all_open(
        TransportState { sent: (sender.sent + 1) as u64, ..sender },
        messages.skip(1),
    ))
}

/// A whole conversation arrives: what one end sealed, handed over in order,
/// the other end gives back message by message.
pub proof fn law_conversation_arrives(sender: TransportState, messages: Seq<Seq<u8>>)
    requires
        sender.sent + messages.len() <= u64::MAX,
        all_open(sender, messages),
    ensures
        received_all(mirror(sender), sealed_all(sender, messages)) == messages,
    decreases messages.len(),
{
    if messages.len() > 0 {
        let next = TransportState { sent: (sender.sent + 1) as u64, ..sender };
        law_frame_arrives(sender, messages[0]);
        law_conversation_arrives(next, messages.skip(1));
        let frames = sealed_all(sender, messages);
        assert(frames[0] == (sender.sent, next_frame(sender, messages[0])));
        assert(frames.skip(1) =~= sealed_all(next, messages.skip(1)));
        assert(seq![messages[0]] + messages.skip(1) =~= messages);
    } else {
        assert(received_all(mirror(sender), sealed_all(sender, messages)) =~= messages);
    }
}

/// A relay cannot reorder, drop or repeat frames unnoticed: an end accepts no
/// frame but the next one.
pub proof fn law_only_the_next_frame_is_accepted(
    receiver: TransportState,
    counter: u64,
    frame: Seq<u8>,
)
    requires
        received_frame(receiver, counter, frame) is Ok,
    ensures
        counter == receiver.received,
        opened_bytes(
            receiver.receive_key,
            nonce_of(counter),
            encode_utf8(receiver.request_id),
            frame,
        ) == Some(received_frame(receiver, counter, frame)->Ok_0),
{
}

/// No two frames of one direction share a nonce.
pub proof fn law_nonces_never_repeat(a: u64, b: u64)
    ensures
        nonce_of(a) == nonce_of(b) ==> a == b,
{
    if nonce_of(a) == nonce_of(b) {
        let x = nonce_of(a);
        let y = nonce_of(b);
        assert(x[4] == y[4] && x[5] == y[5] && x[6] == y[6] && x[7] == y[7]);
        assert(x[8] == y[8] && x[9] == y[9] && x[10] == y[10] && x[11] == y[11]);
        assert(a == b) by (bit_vector)
            requires
                ((a >> 56) & 0xff) as u8 == ((b >> 56) & 0xff) as u8,
                ((a >> 48) & 0xff) as u8 == ((b >> 48) & 0xff) as u8,
                ((a >> 40) & 0xff) as u8 == ((b >> 40) & 0xff) as u8,
                ((a >> 32) & 0xff) as u8 == ((b >> 32) & 0xff) as u8,
                ((a >> 24) & 0xff) as u8 == ((b >> 24) & 0xff) as u8,
                ((a >> 16) & 0xff) as u8 == ((b >> 16) & 0xff) as u8,
                ((a >> 8) & 0xff) as u8 == ((b >> 8) & 0xff) as u8,
                (a & 0xff) as u8 == (b & 0xff) as u8;
    }
}

/// Each end seals and opens with the keys of its direction, counts from zero,
/// and keeps to its request.
pub proof fn law_ends_have_their_own_keys(
    secret: &[u8; 32],
    public: [u8; 32],
    manifest: &[u8],
    request_id: &str,
    broker: Result<Transport, String>,
    client: Result<Transport, String>,
)
    requires
        call_ensures(Transport::broker, (secret, public, manifest, request_id), broker),
        call_ensures(Transport::client, (secret, public, manifest, request_id), client),
    ensures
        broker is Ok && client is Ok,
        ({
            let agreed = x25519_agreed(secret@, public@);
            let salt = sha256_of(manifest@);
            let up = hkdf_key(salt, agreed, encode_utf8("shellfleet-root-client-to-host-v1"@));
            let down = hkdf_key(salt, agreed, encode_utf8("shellfleet-root-host-to-client-v1"@));
            &&& client->Ok_0@.send_key == up && client->Ok_0@.receive_key == down
            &&& broker->Ok_0@.send_key == down && broker->Ok_0@.receive_key == up
            &&& client->Ok_0@.sent == 0 && client->Ok_0@.received == 0
            &&& broker->Ok_0@.sent == 0 && broker->Ok_0@.received == 0
            &&& client->Ok_0@.request_id == request_id@ && broker->Ok_0@.request_id == request_id@
        }),
{
}

/// The two ends of one request understand each other: what the client seals
/// first, the broker opens first, and the same the other way.
pub proof fn law_the_ends_understand_each_other(
    broker_secret: &[u8; 32],
    client_secret: &[u8; 32],
    broker_public: [u8; 32],
    client_public: [u8; 32],
    manifest: &[u8],
    request_id: &str,
    client: Result<Transport, String>,
    broker: Result<Transport, String>,
    c: &mut Transport,
    b: &mut Transport,
    message: &[u8],
    frame: Result<(u64, Vec<u8>), String>,
    counter: u64,
    bytes: &[u8],
    got: Result<Vec<u8>, String>,
)
    requires
        broker_public@ == x25519_public_of(broker_secret@),
        client_public@ == x25519_public_of(client_secret@),
        call_ensures(
            Transport::client,
            (client_secret, broker_public, manifest, request_id),
            client,
        ),
        call_ensures(
            Transport::broker,
            (broker_secret, client_public, manifest, request_id),
            broker,
        ),
        client is Ok && broker is Ok,
        old(c)@ == client->Ok_0@ && old(b)@ == broker->Ok_0@ || old(c)@ == broker->Ok_0@ && old(
            b,
        )@ == client->Ok_0@,
        call_ensures(Transport::encrypt, (c, message), frame),
        frame is Ok,
        counter == frame->Ok_0.0,
        bytes@ == frame->Ok_0.1@,
        call_ensures(Transport::decrypt, (b, counter, bytes), got),
    ensures
        got is Ok && got->Ok_0@ == message@,
{
    assert(client_secret@.len() == 32);
    assert(mirror(broker->Ok_0@) == client_end(
        x25519_agreed(client_secret@, x25519_public_of(broker_secret@)),
        manifest@,
        request_id@,
    ));
    assert(mirror(broker->Ok_0@) == client->Ok_0@);
    assert(mirror(client->Ok_0@) == broker->Ok_0@);
    assert(old(b)@ == mirror(old(c)@));
    assert(next_frame(old(c)@, message@) == bytes@);
    law_frame_arrives(old(c)@, message@);
}

/// A frame that arrives out of its turn is refused, and changes nothing.
pub proof fn law_frames_out_of_turn_are_refused(
    t: &mut Transport,
    counter: u64,
    bytes: &[u8],
    r: Result<Vec<u8>, String>,
)
    requires
        call_ensures(Transport::decrypt, (t, counter, bytes), r),
        counter != old(t)@.received,
    ensures
        r is Err && r->Err_0@ == "root transport frame replay or reordering detected"@,
        final(t)@ == old(t)@,
{
}

/// The nonce of a frame is four zero bytes and its counter, the most
/// significant byte first.
pub proof fn law_nonces_spell_the_counter(c: u64)
    ensures
        nonce_of(c).len() == 12,
        nonce_of(c)[0] == 0 && nonce_of(c)[1] == 0 && nonce_of(c)[2] == 0 && nonce_of(c)[3] == 0,
        nonce_of(c)[11] == c % 256,
        nonce_of(c)[10] == c / 0x100 % 256,
        nonce_of(c)[9] == c / 0x1_0000 % 256,
        nonce_of(c)[8] == c / 0x100_0000 % 256,
        nonce_of(c)[7] == c / 0x1_0000_0000 % 256,
        nonce_of(c)[6] == c / 0x100_0000_0000 % 256,
        nonce_of(c)[5] == c / 0x1_0000_0000_0000 % 256,
        nonce_of(c)[4] == c / 0x100_0000_0000_0000 % 256,
{
    assert((c & 0xff) as u8 == c % 256 && ((c >> 8) & 0xff) as u8 == c / 0x100 % 256 && ((c >> 16)
        & 0xff) as u8 == c / 0x1_0000 % 256 && ((c >> 24) & 0xff) as u8 == c / 0x100_0000 % 256
        && ((c >> 32) & 0xff) as u8 == c / 0x1_0000_0000 % 256 && ((c >> 40) & 0xff) as u8 == c
        / 0x100_0000_0000 % 256 && ((c >> 48) & 0xff) as u8 == c / 0x1_0000_0000_0000 % 256 && ((c
        >> 56) & 0xff) as u8 == c / 0x100_0000_0000_0000 % 256) by (bit_vector);
}

/// A frame is sealed under the key of its direction, the nonce of its counter
/// and the id of its request; and only such a frame is opened.
pub proof fn law_frames_are_bound_to_their_place(
    a: &mut Transport,
    message: &[u8],
    sealed: Result<(u64, Vec<u8>), String>,
    b: &mut Transport,
    counter: u64,
    bytes: &[u8],
    opened: Result<Vec<u8>, String>,
)
    requires
        call_ensures(Transport::encrypt, (a, message), sealed),
        call_ensures(Transport::decrypt, (b, counter, bytes), opened),
    ensures
        sealed matches Ok(frame) ==> frame.0 == old(a)@.sent && frame.1@ == sealed_bytes(
            old(a)@.send_key,
            nonce_of(frame.0),
            encode_utf8(old(a)@.request_id),
            message@,
        ) && final(a)@.sent == old(a)@.sent + 1,
        sealed is Err ==> final(a)@ == old(a)@,
        opened matches Ok(m) ==> counter == old(b)@.received && bytes@ == sealed_bytes(
            old(b)@.receive_key,
            nonce_of(counter),
            encode_utf8(old(b)@.request_id),
            m@,
        ) && final(b)@.received == old(b)@.received + 1,
        opened is Err ==> final(b)@ == old(b)@,
{
}

/// A frame that is not sealed or opened says why: what cannot be encrypted or
/// authenticated is told before a counter that has run out.
pub proof fn law_failed_frames_say_why(
    a: &mut Transport,
    message: &[u8],
    sealed: Result<(u64, Vec<u8>), String>,
    b: &mut Transport,
    bytes: &[u8],
    opened: Result<Vec<u8>, String>,
)
    requires
        call_ensures(Transport::encrypt, (a, message), sealed),
        call_ensures(Transport::decrypt, (b, old(b)@.received, bytes), opened),
    ensures
        sealed matches Err(e) ==> e@ == (if oversized(message@.len() as int) {
            "root transport encryption failed"@
        } else {
            "root transport counter exhausted"@
        }),
        opened matches Err(e) ==> e@ == (if opened_bytes(
            old(b)@.receive_key,
            nonce_of(old(b)@.received),
            encode_utf8(old(b)@.request_id),
            bytes@,
        ) is None {
            "root transport authentication failed"@
        } else {
            "root transport counter exhausted"@
        }),
{
}

}
