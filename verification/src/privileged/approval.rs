//! Signed, single-use approvals of privileged operations. The broker answers a
//! request with a signed manifest; an enrolled approver signs the same bytes;
//! the stored request is then consumed, once.

use crate::privileged::crypto;
use crate::privileged::identity;
use crate::privileged::policy;
use crate::privileged::policy::{OperationView, Tier};
use crate::privileged::protocol;
use crate::privileged::protocol::{
    ClientFrameView, ManifestView, SignedTrustedManifest, SignedView, TrustedClientFrame,
    TrustedManifest,
};
use crate::text;
use vstd::prelude::*;
use vstd::utf8::{decode_utf8, valid_utf8};

verus! {

/// The broker's own keys, and what follows from them.
pub struct GateState {
    pub host_signing: [u8; 32],
    pub transport_secret: [u8; 32],
    pub host_id: String,
    /// The version of the protocol that this broker speaks.
    pub protocol_version: u32,
}

impl GateState {
    /// The host's name belongs to its signing key.
    pub open spec fn well_formed(self) -> bool {
        self.host_id@ == identity::host_name(identity::ed25519_public_of(self.host_signing@))
    }

    /// The key that the host signs with, as others know it.
    pub open spec fn public(self) -> Seq<u8> {
        identity::ed25519_public_of(self.host_signing@)
    }

    /// The broker with two keys.
    pub fn from_keys(host_signing: [u8; 32], transport_secret: [u8; 32], protocol_version: u32)
        -> (r: GateState)
        ensures
            r.well_formed(),
            r.host_signing == host_signing,
            r.transport_secret == transport_secret,
            r.protocol_version == protocol_version,
    {
        let public = identity::signing_public(&host_signing);
        GateState {
            host_signing,
            transport_secret,
            host_id: identity::host_id(&public),
            protocol_version,
        }
    }

    /// The host's public signing key.
    pub fn host_public(&self) -> (r: [u8; 32])
        ensures
            r@ == self.public(),
    {
        identity::signing_public(&self.host_signing)
    }

    /// The broker's public transport key.
    pub fn transport_public(&self) -> (r: [u8; 32])
        ensures
            r@ == crypto::x25519_public_of(self.transport_secret@),
    {
        crypto::x25519_public(&self.transport_secret)
    }
}

// ---------- the challenge ----------

/// Whether a request id is well formed: 8 to 128 letters, digits, `.`, `_`, `-`.
pub open spec fn request_id_ok(id: Seq<char>) -> bool {
    8 <= text::byte_len(id) <= 128 && text::alnum_or(id, "._-"@)
}

/// Checks a request id.
pub fn validate_request_id(id: &str) -> (r: Result<(), String>)
    ensures
        text::outcome(r) == (if request_id_ok(id@) {
            Ok(())
        } else {
            Err("invalid trusted request id"@)
        }),
{
    let n = text::byte_length(id);
    if n >= 8 && n <= 128 && text::only_alnum_or(id, "._-") {
        Ok(())
    } else {
        Err(text::owned("invalid trusted request id"))
    }
}

/// Why a first frame is refused, if it is.
pub open spec fn start_refused(start: ClientFrameView) -> Option<Seq<char>> {
    match start {
        ClientFrameView::Start { request_id, operation, client_ephemeral_public } =>
            if !request_id_ok(request_id) {
            Some("invalid trusted request id"@)
        } else {
            match policy::classified(operation) {
                Ok(_) => None,
                Err(e) => Some(e),
            }
        },
        _ => Some("first trusted frame must be Start"@),
    }
}

/// How long an approval of an operation is asked for, in seconds.
pub open spec fn requested_ttl(operation: OperationView) -> int {
    match operation {
        OperationView::RootCommand { program, args, timeout_secs } => timeout_secs + 60,
        OperationView::RootPty { shell, ttl_secs, cols, rows } => ttl_secs as int,
    }
}

/// A number of seconds, held between a minute and an hour.
pub open spec fn clamped_ttl(seconds: int) -> int {
    if seconds < 60 {
        60
    } else if seconds > 3600 {
        3600
    } else {
        seconds
    }
}

/// The manifest that answers a first frame.
pub open spec fn manifest_for(
    state: GateState,
    start: ClientFrameView,
    nonce: Seq<u8>,
    now: i64,
    policy_version: Seq<char>,
) -> ManifestView {
    ManifestView {
        version: state.protocol_version,
        request_id: start->Start_request_id,
        host_id: state.host_id@,
        operation: start->Start_operation,
        client_ephemeral_public: start->Start_client_ephemeral_public,
        broker_transport_public: crypto::x25519_public_of(state.transport_secret@),
        nonce,
        created_at: now,
        expires_at: (now + clamped_ttl(requested_ttl(start->Start_operation))) as i64,
        policy_version,
    }
}

pub open spec fn manifest_outcome(r: Result<TrustedManifest, String>) -> Result<
    ManifestView,
    Seq<char>,
> {
    match r {
        Ok(m) => Ok(m@),
        Err(e) => Err(e@),
    }
}

/// Checks a first frame.
pub fn check_start(start: &TrustedClientFrame) -> (r: Result<(), String>)
    ensures
        text::outcome(r) == (match start_refused(start@) {
            Some(e) => Err(e),
            None => Ok(()),
        }),
{
    match start {
        TrustedClientFrame::Start { request_id, operation, .. } => {
            if let Err(e) = validate_request_id(request_id.as_str()) {
                return Err(e);
            }
            match policy::classify(operation) {
                Ok(_) => Ok(()),
                Err(e) => Err(e),
            }
        },
        _ => Err(text::owned("first trusted frame must be Start")),
    }
}

impl GateState {
    /// Answers a first frame with a manifest around a given nonce.
    pub fn challenge_with_nonce(
        &self,
        start: &TrustedClientFrame,
        nonce: [u8; 32],
        now: i64,
        policy_version: &str,
    ) -> (r: Result<TrustedManifest, String>)
        requires
            now <= i64::MAX - 3600,
        ensures
            manifest_outcome(r) == (match start_refused(start@) {
                Some(e) => Err(e),
                None => Ok(manifest_for(*self, start@, nonce@, now, policy_version@)),
            }),
    {
        if let Err(e) = check_start(start) {
            return Err(e);
        }
        match start {
            TrustedClientFrame::Start { request_id, operation, client_ephemeral_public } => {
                let wanted: i64 = match operation {
                    policy::TrustedOperation::RootCommand { timeout_secs, .. } => *timeout_secs
                        as i64 + 60,
                    policy::TrustedOperation::RootPty { ttl_secs, .. } => *ttl_secs as i64,
                };
                let ttl: i64 = if wanted < 60 {
                    60
                } else if wanted > 3600 {
                    3600
                } else {
                    wanted
                };
                let broker_transport_public = self.transport_public();
                Ok(
                    TrustedManifest {
                        version: self.protocol_version,
                        request_id: text::owned(request_id.as_str()),
                        host_id: text::owned(self.host_id.as_str()),
                        operation: policy::copy_operation(operation),
                        client_ephemeral_public: *client_ephemeral_public,
                        broker_transport_public,
                        nonce,
                        created_at: now,
                        expires_at: now + ttl,
                        policy_version: text::owned(policy_version),
                    },
                )
            },
            _ => Err(text::owned("first trusted frame must be Start")),
        }
    }

    /// Answers a first frame with a manifest around the nonce that was drawn,
    /// if one was.
    pub fn challenge_with_draw(
        &self,
        start: &TrustedClientFrame,
        drawn: Option<[u8; 32]>,
        now: i64,
        policy_version: &str,
    ) -> (r: Result<TrustedManifest, String>)
        requires
            now <= i64::MAX - 3600,
        ensures
            manifest_outcome(r) == (match start_refused(start@) {
                Some(e) => Err(e),
                None => match drawn {
                    Some(nonce) => Ok(manifest_for(*self, start@, nonce@, now, policy_version@)),
                    None => Err(identity::no_randomness()),
                },
            }),
    {
        match drawn {
            Some(nonce) => self.challenge_with_nonce(start, nonce, now, policy_version),
            None => match check_start(start) {
                Ok(_) => Err(identity::randomness_failed()),
                Err(e) => Err(e),
            },
        }
    }

    /// Answers a first frame with a manifest around a fresh nonce. The
    /// operating system may give none.
    pub fn challenge(&self, start: &TrustedClientFrame, now: i64, policy_version: &str) -> (r:
        Result<TrustedManifest, String>)
        requires
            now <= i64::MAX - 3600,
        ensures
            match r {
                Ok(m) => start_refused(start@) is None && m@ == manifest_for(
                    *self,
                    start@,
                    m@.nonce,
                    now,
                    policy_version@,
                ),
                Err(e) => match start_refused(start@) {
                    Some(refused) => e@ == refused,
                    None => e@ == identity::no_randomness(),
                },
            },
    {
        self.challenge_with_draw(start, identity::random_bytes(), now, policy_version)
    }

    /// Signs a manifest, given its canonical bytes.
    pub fn sign_challenge(&self, manifest: TrustedManifest, canonical: &[u8]) -> (r:
        SignedTrustedManifest)
        ensures
            r@ == signed_by(*self, manifest@, canonical@),
            identity::ed25519_verifies(self.public(), canonical@, r@.signature),
    {
        let signature = identity::sign(&self.host_signing, canonical);
        SignedTrustedManifest { manifest, host_identity_public: self.host_public(), signature }
    }
}

/// A manifest with the signature of a broker over some canonical bytes.
pub open spec fn signed_by(state: GateState, manifest: ManifestView, canonical: Seq<u8>)
    -> SignedView {
    SignedView {
        manifest,
        host_identity_public: state.public(),
        signature: identity::ed25519_signature(state.host_signing@, canonical),
    }
}

// ---------- the keyring ----------

pub open spec fn keys_of(v: Seq<(String, [u8; 32])>) -> Seq<(Seq<char>, Seq<u8>)> {
    v.map_values(|e: (String, [u8; 32])| (e.0@, e.1@))
}

pub open spec fn keys_outcome(r: Result<Vec<(String, [u8; 32])>, String>) -> Result<
    Seq<(Seq<char>, Seq<u8>)>,
    Seq<char>,
> {
    match r {
        Ok(v) => Ok(keys_of(v@)),
        Err(e) => Err(e@),
    }
}

/// What an entry's decoded value is worth as a key.
pub open spec fn key_checked(decoded: Option<Seq<u8>>) -> Result<Seq<u8>, Seq<char>> {
    match decoded {
        None => Err("invalid approver key encoding"@),
        Some(bytes) => if bytes.len() == 32 {
            Ok(bytes)
        } else {
            Err("approver public keys must be 32 bytes"@)
        },
    }
}

/// The keys of a list of entries, or the first thing that is wrong with one.
pub open spec fn keys_read(entries: Seq<(Seq<char>, Seq<char>)>) -> Result<
    Seq<(Seq<char>, Seq<u8>)>,
    Seq<char>,
>
    decreases entries.len(),
{
    if entries.len() == 0 {
        Ok(Seq::empty())
    } else {
        match keys_read(entries.drop_last()) {
            Err(e) => Err(e),
            Ok(keys) => match key_checked(identity::base64_decoded(entries.last().1)) {
                Err(e) => Err(e),
                Ok(key) => Ok(keys.push((entries.last().0, key))),
            },
        }
    }
}

/// The keyring in a parsed file.
pub open spec fn keyring_read(entries: Option<Seq<(Seq<char>, Seq<char>)>>) -> Result<
    Seq<(Seq<char>, Seq<u8>)>,
    Seq<char>,
> {
    match entries {
        None => Err("invalid approver keyring JSON"@),
        Some(list) => if list.len() == 0 {
            Err("approver keyring is empty"@)
        } else {
            keys_read(list)
        },
    }
}

/// Checks an entry's decoded value.
pub fn check_key(decoded: Option<Vec<u8>>) -> (r: Result<[u8; 32], String>)
    ensures
        identity::key_outcome(r) == key_checked(identity::opt_bytes(decoded)),
{
    match decoded {
        None => Err(text::owned("invalid approver key encoding")),
        Some(bytes) => match identity::key_of(bytes.as_slice()) {
            Some(key) => Ok(key),
            None => Err(text::owned("approver public keys must be 32 bytes")),
        },
    }
}

proof fn lemma_keys_error(entries: Seq<(Seq<char>, Seq<char>)>, n: int)
    requires
        0 <= n <= entries.len(),
        keys_read(entries.take(n)) is Err,
    ensures
        keys_read(entries) == keys_read(entries.take(n)),
    decreases entries.len() - n,
{
    if n == entries.len() {
        assert(entries.take(n) =~= entries);
    } else {
        assert(entries.take(n + 1).drop_last() =~= entries.take(n));
        lemma_keys_error(entries, n + 1);
    }
}

/// The keyring in the entries of a file.
pub fn decode_keyring(entries: &Option<Vec<(String, String)>>) -> (r: Result<
    Vec<(String, [u8; 32])>,
    String,
>)
    ensures
        keys_outcome(r) == keyring_read(identity::opt_pairs(*entries)),
{
    match entries {
        None => Err(text::owned("invalid approver keyring JSON")),
        Some(list) => {
            if list.len() == 0 {
                return Err(text::owned("approver keyring is empty"));
            }
            let ghost all = identity::pairs(list@);
            let mut keys: Vec<(String, [u8; 32])> = Vec::new();
            let mut i: usize = 0;
            assert(keys_of(keys@) =~= Seq::empty());
            while i < list.len()
                invariant
                    i <= list@.len(),
                    list@.len() > 0,
                    *entries == Some(*list),
                    all == identity::pairs(list@),
                    keys_read(all.take(i as int)) == Ok::<Seq<(Seq<char>, Seq<u8>)>, Seq<char>>(
                        keys_of(keys@),
                    ),
                decreases list@.len() - i,
            {
                let decoded = identity::base64_decode(list[i].1.as_str());
                assert(all.take(i + 1).drop_last() =~= all.take(i as int));
                assert(all.take(i + 1).last() == (list@[i as int].0@, list@[i as int].1@));
                match check_key(decoded) {
                    Err(e) => {
                        proof {
                            lemma_keys_error(all, i + 1);
                        }
                        return Err(e);
                    },
                    Ok(key) => {
                        let ghost before = keys@;
                        keys.push((text::owned(list[i].0.as_str()), key));
                        assert(keys_of(keys@) =~= keys_of(before).push(
                            (list@[i as int].0@, key@),
                        ));
                    },
                }
                i += 1;
            }
            assert(all.take(i as int) =~= all);
            Ok(keys)
        },
    }
}

/// The keyring in the text of a file.
pub fn load_approvers(raw: &str) -> (r: Result<Vec<(String, [u8; 32])>, String>)
    ensures
        keys_outcome(r) == keyring_read(identity::keyring_entries(raw@)),
{
    let entries = identity::parse_keyring(raw);
    decode_keyring(&entries)
}

/// Whether a keyring holds a key.
pub open spec fn enrolled(keys: Seq<(Seq<char>, Seq<u8>)>, key: Seq<u8>) -> bool {
    exists|i: int| 0 <= i < keys.len() && (#[trigger] keys[i]).1 == key
}

/// Looks for a key in a keyring.
pub fn is_enrolled(keys: &[(String, [u8; 32])], key: &[u8; 32]) -> (r: bool)
    ensures
        r == enrolled(keys_of(keys@), key@),
{
    let mut i: usize = 0;
    while i < keys.len()
        invariant
            i <= keys@.len(),
            forall|j: int| 0 <= j < i ==> (#[trigger] keys_of(keys@)[j]).1 != key@,
        decreases keys@.len() - i,
    {
        if text::same_bytes(keys[i].1.as_slice(), key.as_slice()) {
            assert(keys_of(keys@)[i as int].1 == key@);
            return true;
        }
        i += 1;
    }
    false
}

// ---------- the approval ----------

/// Whether a manifest is out of date, or not for this broker and policy.
pub open spec fn stale(
    state: GateState,
    signed: SignedView,
    policy_version: Seq<char>,
    now: i64,
) -> bool {
    ||| signed.manifest.version != state.protocol_version
    ||| signed.manifest.host_id != state.host_id@
    ||| signed.host_identity_public != state.public()
    ||| signed.manifest.expires_at < now
    ||| signed.manifest.policy_version != policy_version
}

/// What the signatures and the keyring amount to.
pub open spec fn signatures_judged(
    host_signed: bool,
    enrolment: Result<bool, Seq<char>>,
    key_valid: bool,
    approver_signed: bool,
) -> Result<(), Seq<char>> {
    if !host_signed {
        Err("invalid host manifest signature"@)
    } else {
        match enrolment {
            Err(e) => Err(e),
            Ok(false) => Err("approver key is not enrolled on this host"@),
            Ok(true) => if !key_valid {
                Err("invalid approver public key"@)
            } else if !approver_signed {
                Err("invalid approver signature"@)
            } else {
                Ok(())
            },
        }
    }
}

/// Whether a keyring file enrols a key.
pub open spec fn enrolment(keyring: Result<Seq<char>, Seq<char>>, key: Seq<u8>) -> Result<
    bool,
    Seq<char>,
> {
    match keyring {
        Err(e) => Err(e),
        Ok(raw) => match keyring_read(identity::keyring_entries(raw)) {
            Err(e) => Err(e),
            Ok(keys) => Ok(enrolled(keys, key)),
        },
    }
}

/// What an approval of a signed manifest amounts to, before the stored request
/// is looked at.
pub open spec fn approved(
    state: GateState,
    signed: SignedView,
    canonical: Result<Seq<u8>, Seq<char>>,
    keyring: Result<Seq<char>, Seq<char>>,
    approver_public: Seq<u8>,
    approver_signature: Seq<u8>,
    policy_version: Seq<char>,
    now: i64,
) -> Result<(), Seq<char>> {
    if stale(state, signed, policy_version, now) {
        Err("trusted manifest is stale or belongs to another host/policy"@)
    } else {
        match policy::classified(signed.manifest.operation) {
            Err(e) => Err(e),
            Ok(_) => match canonical {
                Err(e) => Err(e),
                Ok(bytes) => signatures_judged(
                    identity::ed25519_verifies(state.public(), bytes, signed.signature),
                    enrolment(keyring, approver_public),
                    identity::ed25519_key_valid(approver_public),
                    identity::ed25519_verifies(approver_public, bytes, approver_signature),
                ),
            },
        }
    }
}

/// Judges the signatures and the keyring.
pub fn judge_signatures(
    host_signed: bool,
    enrolment: Result<bool, String>,
    key_valid: bool,
    approver_signed: bool,
) -> (r: Result<(), String>)
    ensures
        text::outcome(r) == signatures_judged(
            host_signed,
            text::outcome(enrolment),
            key_valid,
            approver_signed,
        ),
{
    if !host_signed {
        return Err(text::owned("invalid host manifest signature"));
    }
    match enrolment {
        Err(e) => Err(e),
        Ok(found) => if !found {
            Err(text::owned("approver key is not enrolled on this host"))
        } else if !key_valid {
            Err(text::owned("invalid approver public key"))
        } else if !approver_signed {
            Err(text::owned("invalid approver signature"))
        } else {
            Ok(())
        },
    }
}

fn find_enrolment(keyring: &Result<String, String>, key: &[u8; 32]) -> (r: Result<bool, String>)
    ensures
        text::outcome(r) == enrolment(text::text_outcome(*keyring), key@),
{
    match keyring {
        Err(e) => Err(text::owned(e.as_str())),
        Ok(raw) => match load_approvers(raw.as_str()) {
            Err(e) => Err(e),
            Ok(keys) => Ok(is_enrolled(keys.as_slice(), key)),
        },
    }
}

impl GateState {
    /// Tests a signed manifest for staleness.
    pub fn is_stale(&self, signed: &SignedTrustedManifest, policy_version: &str, now: i64) -> (r:
        bool)
        ensures
            r == stale(*self, signed@, policy_version@, now),
    {
        let public = self.host_public();
        signed.manifest.version != self.protocol_version || !text::same(
            signed.manifest.host_id.as_str(),
            self.host_id.as_str(),
        ) || !text::same_bytes(signed.host_identity_public.as_slice(), public.as_slice())
            || signed.manifest.expires_at < now || !text::same(
            signed.manifest.policy_version.as_str(),
            policy_version,
        )
    }

    /// Checks an approval of a signed manifest, up to the stored request.
    pub fn approve(
        &self,
        signed: &SignedTrustedManifest,
        canonical: &Result<Vec<u8>, String>,
        keyring: &Result<String, String>,
        approver_public: &[u8; 32],
        approver_signature: &[u8],
        policy_version: &str,
        now: i64,
    ) -> (r: Result<(), String>)
        ensures
            text::outcome(r) == approved(
                *self,
                signed@,
                crypto::bytes_outcome(*canonical),
                text::text_outcome(*keyring),
                approver_public@,
                approver_signature@,
                policy_version@,
                now,
            ),
    {
        if self.is_stale(signed, policy_version, now) {
            return Err(text::owned("trusted manifest is stale or belongs to another host/policy"));
        }
        if let Err(e) = policy::classify(&signed.manifest.operation) {
            return Err(e);
        }
        match canonical {
            Err(e) => Err(text::owned(e.as_str())),
            Ok(bytes) => {
                let public = self.host_public();
                judge_signatures(
                    identity::verifies(&public, bytes.as_slice(), signed.signature.as_slice()),
                    find_enrolment(keyring, approver_public),
                    identity::key_is_valid(approver_public),
                    identity::verifies(approver_public, bytes.as_slice(), approver_signature),
                )
            },
        }
    }
}

// ---------- the stored request ----------

/// A request as the database holds it.
#[derive(Debug)]
pub struct StoredRequest {
    pub manifest: Vec<u8>,
    pub status: String,
    pub expires_at: i64,
}

/// A stored request with its bytes spelled out.
pub struct StoredView {
    pub manifest: Seq<u8>,
    pub status: Seq<char>,
    pub expires_at: i64,
}

impl View for StoredRequest {
    type V = StoredView;

    open spec fn view(&self) -> StoredView {
        StoredView {
            manifest: self.manifest@,
            status: self.status@,
            expires_at: self.expires_at,
        }
    }
}

/// The request that the broker stores with a challenge.
pub open spec fn pending(canonical: Seq<u8>, expires_at: i64) -> StoredView {
    StoredView { manifest: canonical, status: "pending"@, expires_at }
}

/// What consuming makes of a stored request.
pub open spec fn consumed(row: StoredView) -> StoredView {
    StoredView { status: "consumed"@, ..row }
}

/// Whether a stored request lets an approval through.
pub open spec fn stored_judged(row: Option<StoredView>, canonical: Seq<u8>, now: i64) -> Result<
    (),
    Seq<char>,
> {
    match row {
        None => Err("trusted request is unknown"@),
        Some(row) => if row.manifest != canonical || row.status != "pending"@ || row.expires_at
            < now {
            Err("trusted approval was altered, expired, or already consumed"@)
        } else {
            Ok(())
        },
    }
}

/// The request to store with a challenge.
pub fn pending_request(canonical: &[u8], expires_at: i64) -> (r: StoredRequest)
    ensures
        r@ == pending(canonical@, expires_at),
{
    StoredRequest { manifest: text::copy_bytes(canonical), status: text::owned("pending"), expires_at }
}

/// Judges the stored request that an approval is for.
pub fn judge_stored(row: &Option<StoredRequest>, canonical: &[u8], now: i64) -> (r: Result<
    (),
    String,
>)
    ensures
        text::outcome(r) == stored_judged(
            match *row {
                Some(s) => Some(s@),
                None => None,
            },
            canonical@,
            now,
        ),
{
    match row {
        None => Err(text::owned("trusted request is unknown")),
        Some(s) => if !text::same_bytes(s.manifest.as_slice(), canonical) || !text::same(
            s.status.as_str(),
            "pending",
        ) || s.expires_at < now {
            Err(text::owned("trusted approval was altered, expired, or already consumed"))
        } else {
            Ok(())
        },
    }
}

/// Judges how many pending requests an approval consumed: exactly one counts.
pub fn judge_consumed(changed: usize) -> (r: Result<(), String>)
    ensures
        text::outcome(r) == (if changed == 1 {
            Ok(())
        } else {
            Err("trusted approval was already consumed"@)
        }),
{
    if changed == 1 {
        Ok(())
    } else {
        Err(text::owned("trusted approval was already consumed"))
    }
}

// ---------- enrolment ----------

/// Whether an approver's name is well formed.
pub open spec fn approver_id_ok(id: Seq<char>) -> bool {
    0 < text::byte_len(id) <= 64 && text::alnum_or(id, "._-"@)
}

/// Why an enrolment is refused, if it is, from what its parts came to.
pub open spec fn enrolment_refused(
    is_root: bool,
    id: Seq<char>,
    decoded: Option<Seq<u8>>,
    key_valid: bool,
) -> Option<Seq<char>> {
    if !is_root {
        Some("approver enrollment must run as local root"@)
    } else if !approver_id_ok(id) {
        Some("invalid approver id"@)
    } else if decoded is None {
        Some("invalid approver public-key encoding"@)
    } else if decoded->0.len() != 32 {
        Some("approver public key must be exactly 32 bytes"@)
    } else if !key_valid {
        Some("approver public key is not valid Ed25519"@)
    } else {
        None
    }
}

/// The entries of the keyring file that is there, or none.
pub open spec fn present_entries(existing: Option<Seq<char>>) -> Seq<(Seq<char>, Seq<char>)> {
    match existing {
        None => Seq::empty(),
        Some(raw) => match identity::keyring_entries(raw) {
            None => Seq::empty(),
            Some(entries) => entries,
        },
    }
}

/// Checks the parts of an enrolment.
pub fn check_enrolment(is_root: bool, id: &str, decoded: &Option<Vec<u8>>, key_valid: bool) -> (r:
    Result<(), String>)
    ensures
        text::outcome(r) == (match enrolment_refused(
            is_root,
            id@,
            identity::opt_bytes(*decoded),
            key_valid,
        ) {
            Some(e) => Err(e),
            None => Ok(()),
        }),
{
    if !is_root {
        return Err(text::owned("approver enrollment must run as local root"));
    }
    let n = text::byte_length(id);
    if n == 0 || n > 64 || !text::only_alnum_or(id, "._-") {
        return Err(text::owned("invalid approver id"));
    }
    match decoded {
        None => Err(text::owned("invalid approver public-key encoding")),
        Some(bytes) => if bytes.len() != 32 {
            Err(text::owned("approver public key must be exactly 32 bytes"))
        } else if !key_valid {
            Err(text::owned("approver public key is not valid Ed25519"))
        } else {
            Ok(())
        },
    }
}

/// Whether a list of entries is another one with one key's value set.
pub open spec fn entry_set(
    after: Seq<(Seq<char>, Seq<char>)>,
    before: Seq<(Seq<char>, Seq<char>)>,
    id: Seq<char>,
    value: Seq<char>,
) -> bool {
    forall|e: (Seq<char>, Seq<char>)| #[trigger]
        after.contains(e) <==> e == (id, value) || (e.0 != id && before.contains(e))
}

/// Sets one key's value in a list of entries.
pub fn set_entry(entries: &[(String, String)], id: &str, value: &str) -> (r: Vec<(String, String)>)
    requires
        identity::distinct_keys(identity::pairs(entries@)),
    ensures
        identity::distinct_keys(identity::pairs(r@)),
        entry_set(identity::pairs(r@), identity::pairs(entries@), id@, value@),
{
    let ghost before = identity::pairs(entries@);
    let mut r: Vec<(String, String)> = Vec::new();
    let mut i: usize = 0;
    while i < entries.len()
        invariant
            i <= entries@.len(),
            before == identity::pairs(entries@),
            identity::distinct_keys(before),
            identity::distinct_keys(identity::pairs(r@)),
            forall|k: int|
                0 <= k < r@.len() ==> (#[trigger] identity::pairs(r@)[k]).0 != id@
                    && before.take(i as int).contains(identity::pairs(r@)[k]),
            forall|j: int|
                0 <= j < i && (#[trigger] before[j]).0 != id@ ==> identity::pairs(r@).contains(
                    before[j],
                ),
        decreases entries@.len() - i,
    {
        let ghost old_pairs = identity::pairs(r@);
        let ghost item = before[i as int];
        assert(item == (entries@[i as int].0@, entries@[i as int].1@));
        let ghost took = before.take(i as int);
        assert(before.take(i + 1) =~= took.push(item));
        assert forall|e: (Seq<char>, Seq<char>)| took.contains(e) implies before.take(
            i + 1,
        ).contains(e) by {
            let k = choose|k: int| 0 <= k < took.len() && took[k] == e;
            assert(before.take(i + 1)[k] == e);
        }
        if !text::same(entries[i].0.as_str(), id) {
            r.push((text::owned(entries[i].0.as_str()), text::owned(entries[i].1.as_str())));
            proof {
                let new_pairs = identity::pairs(r@);
                assert(new_pairs =~= old_pairs.push(item));
                assert forall|a: int, b: int| 0 <= a < b < new_pairs.len() implies (
                #[trigger] new_pairs[a]).0 != (#[trigger] new_pairs[b]).0 by {
                    if b == old_pairs.len() {
                        assert(took.contains(old_pairs[a]));
                        let k = choose|k: int| 0 <= k < took.len() && took[k] == old_pairs[a];
                        assert(before[k].0 != before[i as int].0);
                    } else {
                        assert(old_pairs[a].0 != old_pairs[b].0);
                    }
                }
                assert forall|k: int| 0 <= k < r@.len() implies (#[trigger] new_pairs[k]).0 != id@
                    && before.take(i + 1).contains(new_pairs[k]) by {
                    if k < old_pairs.len() {
                        assert(took.contains(old_pairs[k]));
                    } else {
                        assert(before.take(i + 1)[i as int] == item);
                    }
                }
                assert forall|j: int| 0 <= j < i + 1 && (#[trigger] before[j]).0 != id@ implies
                    new_pairs.contains(before[j]) by {
                    if j < i {
                        assert(old_pairs.contains(before[j]));
                        let k = choose|k: int|
                            0 <= k < old_pairs.len() && old_pairs[k] == before[j];
                        assert(new_pairs[k] == before[j]);
                    } else {
                        assert(new_pairs[old_pairs.len() as int] == before[j]);
                    }
                }
            }
        }
        i += 1;
    }
    let ghost kept = identity::pairs(r@);
    r.push((text::owned(id), text::owned(value)));
    proof {
        let done = identity::pairs(r@);
        assert(before.take(i as int) =~= before);
        assert(done =~= kept.push((id@, value@)));
        assert forall|e: (Seq<char>, Seq<char>)| #[trigger] done.contains(e) <==> e == (
            id@,
            value@,
        ) || (e.0 != id@ && before.contains(e)) by {
            if done.contains(e) {
                let k = choose|k: int| 0 <= k < done.len() && done[k] == e;
                if k < kept.len() {
                    assert(kept[k] == e);
                }
            }
            if e == (id@, value@) {
                assert(done[kept.len() as int] == e);
            }
            if e.0 != id@ && before.contains(e) {
                let j = choose|j: int| 0 <= j < before.len() && before[j] == e;
                assert(kept.contains(before[j]));
                let k = choose|k: int| 0 <= k < kept.len() && kept[k] == e;
                assert(done[k] == e);
            }
        }
    }
    r
}

/// Enrols an approver: the keyring file to write, from the one that is there.
/// It is the JSON of the entries with this one set, and reads back as they.
pub fn enroll_approver(is_root: bool, id: &str, encoded: &str, existing: Option<&str>) -> (r:
    Result<Vec<u8>, String>)
    ensures
        ({
            let decoded = identity::base64_decoded(encoded@);
            let refused = enrolment_refused(
                is_root,
                id@,
                decoded,
                identity::ed25519_key_valid(decoded->0),
            );
            match r {
                Err(e) => refused == Some(e@),
                Ok(bytes) => {
                    let before = present_entries(
                        match existing {
                            Some(raw) => Some(raw@),
                            None => None,
                        },
                    );
                    &&& refused is None
                    &&& valid_utf8(bytes@)
                    &&& exists|entries: Seq<(Seq<char>, Seq<char>)>| #[trigger]
                        identity::keyring_json(entries) == bytes@ && identity::distinct_keys(
                            entries,
                        ) && entry_set(entries, before, id@, encoded@)
                    &&& identity::keyring_entries(decode_utf8(bytes@)) matches Some(entries)
                        && entry_set(entries, before, id@, encoded@)
                },
            }
        }),
{
    let decoded = identity::base64_decode(encoded);
    let key_valid = match &decoded {
        None => false,
        Some(bytes) => match identity::key_of(bytes.as_slice()) {
            None => false,
            Some(key) => identity::key_is_valid(&key),
        },
    };
    if let Err(e) = check_enrolment(is_root, id, &decoded, key_valid) {
        return Err(e);
    }
    let present: Vec<(String, String)> = match existing {
        None => Vec::new(),
        Some(raw) => match identity::parse_keyring(raw) {
            None => Vec::new(),
            Some(entries) => entries,
        },
    };
    assert(identity::pairs(present@) =~= present_entries(
        match existing {
            Some(raw) => Some(raw@),
            None => None,
        },
    ));
    let entries = set_entry(present.as_slice(), id, encoded);
    match identity::write_keyring(&entries) {
        Some(bytes) => {
            assert(identity::keyring_json(identity::pairs(entries@)) == bytes@);
            Ok(bytes)
        },
        None => Err(text::owned("approver keyring could not be written")),
    }
}

// ---------- laws ----------

/// An approval is good once: after it has consumed the stored request, no
/// approval of any bytes at any time gets through on that request.
pub proof fn law_approval_is_single_use(
    row: StoredView,
    canonical: Seq<u8>,
    now: i64,
    again: Seq<u8>,
    later: i64,
)
    requires
        stored_judged(Some(row), canonical, now) is Ok,
    ensures
        stored_judged(Some(consumed(row)), again, later) is Err,
{
    reveal_strlit("pending");
    reveal_strlit("consumed");
    assert("pending"@.len() != "consumed"@.len());
}

/// What an approval comes to together with the row that is stored: the manifest
/// that was approved.
pub open spec fn granted(
    state: GateState,
    signed: SignedView,
    canonical: Result<Seq<u8>, Seq<char>>,
    keyring: Result<Seq<char>, Seq<char>>,
    approver_public: Seq<u8>,
    approver_signature: Seq<u8>,
    policy_version: Seq<char>,
    now: i64,
    row: Option<StoredView>,
) -> Result<ManifestView, Seq<char>> {
    match approved(
        state,
        signed,
        canonical,
        keyring,
        approver_public,
        approver_signature,
        policy_version,
        now,
    ) {
        Err(e) => Err(e),
        Ok(_) => match stored_judged(row, canonical->Ok_0, now) {
            Err(e) => Err(e),
            Ok(_) => Ok(signed.manifest),
        },
    }
}

/// An approval of a challenge is good for exactly one use: it gives the
/// challenged manifest, and once the row is consumed, approving the same
/// challenge again is refused, at any time, with any keyring, and by a broker
/// that was started anew as well.
pub proof fn law_a_challenge_is_approved_once(
    state: GateState,
    signed: SignedView,
    canonical: Result<Seq<u8>, Seq<char>>,
    keyring: Result<Seq<char>, Seq<char>>,
    approver_public: Seq<u8>,
    approver_signature: Seq<u8>,
    policy_version: Seq<char>,
    now: i64,
    row: StoredView,
    anew: GateState,
    keyring_then: Result<Seq<char>, Seq<char>>,
    policy_then: Seq<char>,
    later: i64,
)
    requires
        granted(
            state,
            signed,
            canonical,
            keyring,
            approver_public,
            approver_signature,
            policy_version,
            now,
            Some(row),
        ) is Ok,
    ensures
        granted(
            state,
            signed,
            canonical,
            keyring,
            approver_public,
            approver_signature,
            policy_version,
            now,
            Some(row),
        )->Ok_0 == signed.manifest,
        granted(
            anew,
            signed,
            canonical,
            keyring_then,
            approver_public,
            approver_signature,
            policy_then,
            later,
            Some(consumed(row)),
        ) is Err,
{
    law_approval_is_single_use(row, canonical->Ok_0, now, canonical->Ok_0, later);
}

/// An approval is exact: on a stored challenge, only the very bytes that were
/// stored get through, and only until the challenge expires.
pub proof fn law_approval_is_exact(
    canonical: Seq<u8>,
    expires_at: i64,
    presented: Seq<u8>,
    now: i64,
)
    ensures
        stored_judged(Some(pending(canonical, expires_at)), presented, now) is Ok <==> presented
            == canonical && now <= expires_at,
{
}

/// A challenge can be approved: what this broker signed in answer to a first
/// frame, an enrolled approver with a good signature over the same bytes gets
/// through, under the same policy and until the manifest expires.
pub proof fn law_challenge_can_be_approved(
    state: GateState,
    start: ClientFrameView,
    nonce: Seq<u8>,
    now: i64,
    policy_version: Seq<char>,
    canonical: Seq<u8>,
    keyring: Seq<char>,
    approver_public: Seq<u8>,
    approver_signature: Seq<u8>,
    later: i64,
)
    requires
        start_refused(start) is None,
        later <= manifest_for(state, start, nonce, now, policy_version).expires_at,
        identity::ed25519_verifies(
            state.public(),
            canonical,
            identity::ed25519_signature(state.host_signing@, canonical),
        ),
        enrolment(Ok(keyring), approver_public) == Ok::<bool, Seq<char>>(true),
        identity::ed25519_key_valid(approver_public),
        identity::ed25519_verifies(approver_public, canonical, approver_signature),
    ensures
        approved(
            state,
            signed_by(
                state,
                manifest_for(state, start, nonce, now, policy_version),
                canonical,
            ),
            Ok(canonical),
            Ok(keyring),
            approver_public,
            approver_signature,
            policy_version,
            later,
        ) is Ok,
{
}

/// No approval without an enrolled key and its signature over the bytes.
pub proof fn law_approval_needs_an_enrolled_signature(
    state: GateState,
    signed: SignedView,
    canonical: Result<Seq<u8>, Seq<char>>,
    keyring: Result<Seq<char>, Seq<char>>,
    approver_public: Seq<u8>,
    approver_signature: Seq<u8>,
    policy_version: Seq<char>,
    now: i64,
)
    requires
        approved(
            state,
            signed,
            canonical,
            keyring,
            approver_public,
            approver_signature,
            policy_version,
            now,
        ) is Ok,
    ensures
        canonical is Ok,
        identity::ed25519_verifies(state.public(), canonical->Ok_0, signed.signature),
        identity::ed25519_verifies(approver_public, canonical->Ok_0, approver_signature),
        enrolment(keyring, approver_public) == Ok::<bool, Seq<char>>(true),
        policy::classified(signed.manifest.operation) == Ok::<Tier, Seq<char>>(Tier::Two),
        now <= signed.manifest.expires_at,
{
}

/// A challenge is open for at least a minute and at most an hour.
pub proof fn law_challenge_lifetime(
    state: GateState,
    start: ClientFrameView,
    nonce: Seq<u8>,
    now: i64,
    policy_version: Seq<char>,
)
    requires
        now <= i64::MAX - 3600,
    ensures
        now + 60 <= manifest_for(state, start, nonce, now, policy_version).expires_at <= now
            + 3600,
{
}

proof fn lemma_keys_read(entries: Seq<(Seq<char>, Seq<char>)>)
    requires
        forall|i: int|
            0 <= i < entries.len() ==> key_checked(
                identity::base64_decoded((#[trigger] entries[i]).1),
            ) is Ok,
    ensures
        keys_read(entries) is Ok,
        keys_read(entries)->Ok_0.len() == entries.len(),
        forall|i: int|
            0 <= i < entries.len() ==> (#[trigger] keys_read(entries)->Ok_0[i]).1 == key_checked(
                identity::base64_decoded(entries[i].1),
            )->Ok_0,
    decreases entries.len(),
{
    if entries.len() > 0 {
        let front = entries.drop_last();
        assert forall|i: int| 0 <= i < front.len() implies key_checked(
            identity::base64_decoded((#[trigger] front[i]).1),
        ) is Ok by {
            assert(front[i] == entries[i]);
        }
        lemma_keys_read(front);
        assert(entries[entries.len() - 1] == entries.last());
        assert forall|i: int| 0 <= i < entries.len() implies (
        #[trigger] keys_read(entries)->Ok_0[i]).1 == key_checked(
            identity::base64_decoded(entries[i].1),
        )->Ok_0 by {
            if i < front.len() {
                assert(keys_read(front)->Ok_0[i] == keys_read(entries)->Ok_0[i]);
            }
        }
    }
}

/// An approver who was enrolled is found: in the keyring file that enrolling
/// wrote, the key is enrolled, as long as the entries of the others can be
/// read.
pub proof fn law_an_enrolled_key_is_found(
    raw: Seq<char>,
    entries: Seq<(Seq<char>, Seq<char>)>,
    before: Seq<(Seq<char>, Seq<char>)>,
    id: Seq<char>,
    encoded: Seq<char>,
)
    requires
        identity::keyring_entries(raw) == Some(entries),
        entry_set(entries, before, id, encoded),
        key_checked(identity::base64_decoded(encoded)) is Ok,
        forall|e: (Seq<char>, Seq<char>)| #[trigger]
            before.contains(e) && e.0 != id ==> key_checked(
                identity::base64_decoded(e.1),
            ) is Ok,
    ensures
        enrolment(Ok(raw), identity::base64_decoded(encoded)->0) == Ok::<bool, Seq<char>>(true),
{
    let mine = (id, encoded);
    assert(entries.contains(mine));
    assert forall|i: int| 0 <= i < entries.len() implies key_checked(
        identity::base64_decoded((#[trigger] entries[i]).1),
    ) is Ok by {
        assert(entries.contains(entries[i]));
    }
    lemma_keys_read(entries);
    let k = choose|k: int| 0 <= k < entries.len() && entries[k] == mine;
    assert(keys_read(entries)->Ok_0[k].1 == identity::base64_decoded(encoded)->0);
}

/// Enrolling again under a name replaces the key: no other key stays under it,
/// and nobody else's entry changes.
pub proof fn law_enrolling_replaces(
    entries: Seq<(Seq<char>, Seq<char>)>,
    before: Seq<(Seq<char>, Seq<char>)>,
    id: Seq<char>,
    encoded: Seq<char>,
    other: (Seq<char>, Seq<char>),
)
    requires
        entry_set(entries, before, id, encoded),
    ensures
        other.0 == id ==> (entries.contains(other) <==> other.1 == encoded),
        other.0 != id ==> (entries.contains(other) <==> before.contains(other)),
{
}

/// A request id is 8 to 128 bytes of letters, digits, dots, underscores and
/// dashes.
pub proof fn law_request_ids_are_checked(id: &str, r: Result<(), String>)
    requires
        call_ensures(validate_request_id, (id,), r),
    ensures
        r is Ok <==> 8 <= text::byte_len(id@) <= 128 && forall|i: int|
            0 <= i < id@.len() ==> text::is_alnum(#[trigger] id@[i]) || id@[i] == '.' || id@[i]
                == '_' || id@[i] == '-',
        r matches Err(e) ==> e@ == "invalid trusted request id"@,
{
    reveal_strlit("._-");
    let s = "._-"@;
    assert(s[0] == '.' && s[1] == '_' && s[2] == '-' && s.len() == 3);
}

/// A first frame is answered where it is a start with a fit id and an operation
/// within the policy.
pub proof fn law_fit_starts_are_answered(
    request_id: String,
    operation: policy::TrustedOperation,
    client_ephemeral_public: [u8; 32],
    r: Result<(), String>,
    tier: Result<Tier, String>,
)
    requires
        call_ensures(
            check_start,
            (&TrustedClientFrame::Start { request_id, operation, client_ephemeral_public },),
            r,
        ),
        call_ensures(policy::classify, (&operation,), tier),
    ensures
        r is Ok <==> request_id_ok(request_id@) && tier is Ok,
        request_id_ok(request_id@) && r is Err ==> r->Err_0@ == tier->Err_0@,
{
}

/// The manifest that answers a start names this host, the operation, the keys,
/// the nonce and the policy, and is good from now on for the time that the
/// operation takes: for a command its timeout and a minute, for a terminal its
/// time to live, at most an hour.
pub proof fn law_manifests_answer_the_start(
    state: &GateState,
    request_id: String,
    operation: policy::TrustedOperation,
    client_ephemeral_public: [u8; 32],
    nonce: [u8; 32],
    now: i64,
    policy_version: &str,
    r: Result<TrustedManifest, String>,
)
    requires
        call_ensures(
            GateState::challenge_with_nonce,
            (
                state,
                &TrustedClientFrame::Start { request_id, operation, client_ephemeral_public },
                nonce,
                now,
                policy_version,
            ),
            r,
        ),
        now <= i64::MAX - 3600,
    ensures
        r is Ok <==> request_id_ok(request_id@) && policy::classified(operation@) is Ok,
        r matches Ok(m) ==> {
            &&& m.version == state.protocol_version
            &&& m.request_id@ == request_id@
            &&& m.host_id@ == state.host_id@
            &&& m.operation@ == operation@
            &&& m.client_ephemeral_public@ == client_ephemeral_public@
            &&& m.broker_transport_public@ == crypto::x25519_public_of(state.transport_secret@)
            &&& m.nonce@ == nonce@
            &&& m.created_at == now
            &&& m.policy_version@ == policy_version@
            &&& (operation matches policy::TrustedOperation::RootCommand {
                program,
                args,
                timeout_secs,
            } ==> m.expires_at == now + (if timeout_secs + 60 > 3600 {
                3600
            } else {
                timeout_secs + 60
            }))
            &&& (operation matches policy::TrustedOperation::RootPty {
                shell,
                ttl_secs,
                cols,
                rows,
            } ==> m.expires_at == now + ttl_secs)
        },
{
    if let Ok(m) = r {
        let v = m@;
        assert(v.version == m.version && v.request_id == m.request_id@ && v.host_id == m.host_id@
            && v.operation == m.operation@ && v.client_ephemeral_public
            == m.client_ephemeral_public@ && v.broker_transport_public
            == m.broker_transport_public@ && v.nonce == m.nonce@ && v.created_at == m.created_at
            && v.expires_at == m.expires_at && v.policy_version == m.policy_version@);
    }
}

/// Without a nonce there is no manifest.
pub proof fn law_no_nonce_no_manifest(
    state: &GateState,
    start: &TrustedClientFrame,
    now: i64,
    policy_version: &str,
    r: Result<TrustedManifest, String>,
)
    requires
        call_ensures(
            GateState::challenge_with_draw,
            (state, start, None::<[u8; 32]>, now, policy_version),
            r,
        ),
        now <= i64::MAX - 3600,
    ensures
        r is Err,
        start_refused(start@) is None ==> r->Err_0@
            == "operating system randomness is unavailable"@,
{
}

/// A signed challenge holds the manifest as it is, this host's key, and a
/// signature of the bytes that holds under it.
pub proof fn law_challenges_bear_the_signature(
    state: &GateState,
    manifest: TrustedManifest,
    canonical: &[u8],
    r: SignedTrustedManifest,
)
    requires
        call_ensures(GateState::sign_challenge, (state, manifest, canonical), r),
    ensures
        r.manifest@ == manifest@,
        r.host_identity_public@ == identity::ed25519_public_of(state.host_signing@),
        r.signature@ == identity::ed25519_signature(state.host_signing@, canonical@),
        identity::ed25519_verifies(
            identity::ed25519_public_of(state.host_signing@),
            canonical@,
            r.signature@,
        ),
{
    assert(r@.manifest == r.manifest@ && r@.host_identity_public == r.host_identity_public@
        && r@.signature == r.signature@);
}

/// A key of the keyring is one that decodes to 32 bytes.
pub proof fn law_keyring_keys_are_checked(decoded: Option<Vec<u8>>, r: Result<[u8; 32], String>)
    requires
        call_ensures(check_key, (decoded,), r),
    ensures
        r is Ok <==> decoded is Some && decoded->0@.len() == 32,
        r matches Ok(key) ==> key@ == decoded->0@,
        decoded is None ==> r->Err_0@ == "invalid approver key encoding"@,
        decoded is Some && decoded->0@.len() != 32 ==> r->Err_0@
            == "approver public keys must be 32 bytes"@,
{
}

/// A keyring is read whole: every entry keeps its name and its key, and one
/// that is no key spoils it all.
pub proof fn law_keyrings_are_read_whole(
    entries: &Option<Vec<(String, String)>>,
    r: Result<Vec<(String, [u8; 32])>, String>,
    i: int,
)
    requires
        call_ensures(decode_keyring, (entries,), r),
    ensures
        *entries is None ==> r is Err && r->Err_0@ == "invalid approver keyring JSON"@,
        *entries matches Some(list) ==> (list@.len() == 0 ==> r is Err && r->Err_0@
            == "approver keyring is empty"@),
        *entries matches Some(list) ==> (r matches Ok(keys) ==> keys@.len() == list@.len() && (0
            <= i < list@.len() ==> keys@[i].0@ == list@[i].0@ && identity::base64_decoded(
            list@[i].1@,
        ) == Some(keys@[i].1@))),
{
    if let Some(list) = *entries {
        if let Ok(keys) = r {
            lemma_keys_read_each(identity::pairs(list@), i);
            assert(keys_of(keys@).len() == keys@.len());
            if 0 <= i < list@.len() {
                assert(keys_of(keys@)[i] == (keys@[i].0@, keys@[i].1@));
                assert(identity::pairs(list@)[i] == (list@[i].0@, list@[i].1@));
            }
        }
    }
}

proof fn lemma_keys_read_each(entries: Seq<(Seq<char>, Seq<char>)>, i: int)
    requires
        keys_read(entries) is Ok,
    ensures
        keys_read(entries)->Ok_0.len() == entries.len(),
        0 <= i < entries.len() ==> keys_read(entries)->Ok_0[i].0 == entries[i].0
            && identity::base64_decoded(entries[i].1) == Some(keys_read(entries)->Ok_0[i].1),
    decreases entries.len(),
{
    if entries.len() > 0 {
        let front = entries.drop_last();
        lemma_keys_read_each(front, i);
        if 0 <= i < front.len() {
            assert(front[i] == entries[i]);
        } else if i == front.len() {
            assert(entries[i] == entries.last());
        }
    }
}

/// A key is enrolled where the keyring holds it, under whatever name.
pub proof fn law_enrolled_keys_are_found(keys: &[(String, [u8; 32])], key: &[u8; 32], r: bool)
    requires
        call_ensures(is_enrolled, (keys, key), r),
    ensures
        r <==> exists|i: int| 0 <= i < keys@.len() && (#[trigger] keys@[i]).1@ == key@,
{
    let k = keys_of(keys@);
    if r {
        let i = choose|i: int| 0 <= i < k.len() && (#[trigger] k[i]).1 == key@;
        assert(keys@[i].1@ == key@);
    }
    if exists|i: int| 0 <= i < keys@.len() && (#[trigger] keys@[i]).1@ == key@ {
        let i = choose|i: int| 0 <= i < keys@.len() && (#[trigger] keys@[i]).1@ == key@;
        assert(k[i].1 == key@);
    }
}

/// A manifest is stale where it is of another protocol, host, key or policy, or
/// where its time has passed, and else it is not.
pub proof fn law_stale_manifests_are_seen(
    state: &GateState,
    signed: &SignedTrustedManifest,
    policy_version: &str,
    now: i64,
    r: bool,
)
    requires
        call_ensures(GateState::is_stale, (state, signed, policy_version, now), r),
    ensures
        !r <==> signed.manifest.version == state.protocol_version && signed.manifest.host_id@
            == state.host_id@ && signed.host_identity_public@ == identity::ed25519_public_of(
            state.host_signing@,
        ) && now <= signed.manifest.expires_at && signed.manifest.policy_version@
            == policy_version@,
{
    let v = signed@;
    assert(v.manifest == signed.manifest@ && v.host_identity_public
        == signed.host_identity_public@);
    let m = signed.manifest@;
    assert(m.version == signed.manifest.version && m.host_id == signed.manifest.host_id@
        && m.expires_at == signed.manifest.expires_at && m.policy_version
        == signed.manifest.policy_version@);
}

/// An approval needs the host's signature, an enrolled and valid key, and the
/// approver's signature: all of them, and nothing more.
pub proof fn law_every_signature_counts(
    host_signed: bool,
    enrolment: Result<bool, String>,
    key_valid: bool,
    approver_signed: bool,
    r: Result<(), String>,
)
    requires
        call_ensures(judge_signatures, (host_signed, enrolment, key_valid, approver_signed), r),
    ensures
        r is Ok <==> host_signed && (enrolment is Ok && enrolment->Ok_0) && key_valid
            && approver_signed,
        !host_signed ==> r->Err_0@ == "invalid host manifest signature"@,
        host_signed && enrolment is Ok && !enrolment->Ok_0 ==> r->Err_0@
            == "approver key is not enrolled on this host"@,
        host_signed && enrolment is Ok && enrolment->Ok_0 && !key_valid ==> r->Err_0@
            == "invalid approver public key"@,
        host_signed && enrolment is Ok && enrolment->Ok_0 && key_valid && !approver_signed
            ==> r->Err_0@ == "invalid approver signature"@,
{
}

/// An approval passes where the manifest is not stale, its operation is within
/// the policy, it could be encoded, both signatures hold over those bytes, and
/// the approver is enrolled.
pub proof fn law_approvals_are_judged(
    state: &GateState,
    signed: &SignedTrustedManifest,
    canonical: &Result<Vec<u8>, String>,
    keyring: &Result<String, String>,
    approver_public: &[u8; 32],
    approver_signature: &[u8],
    policy_version: &str,
    now: i64,
    is_stale: bool,
    tier: Result<Tier, String>,
    r: Result<(), String>,
)
    requires
        call_ensures(
            GateState::approve,
            (
                state,
                signed,
                canonical,
                keyring,
                approver_public,
                approver_signature,
                policy_version,
                now,
            ),
            r,
        ),
        call_ensures(GateState::is_stale, (state, signed, policy_version, now), is_stale),
        call_ensures(policy::classify, (&signed.manifest.operation,), tier),
    ensures
        r is Ok <==> !is_stale && tier is Ok && *canonical is Ok && identity::ed25519_verifies(
            identity::ed25519_public_of(state.host_signing@),
            (*canonical)->Ok_0@,
            signed.signature@,
        ) && *keyring is Ok && enrolment(Ok((*keyring)->Ok_0@), approver_public@) == Ok::<
            bool,
            Seq<char>,
        >(true) && identity::ed25519_key_valid(approver_public@) && identity::ed25519_verifies(
            approver_public@,
            (*canonical)->Ok_0@,
            approver_signature@,
        ),
{
    let v = signed@;
    assert(v.manifest == signed.manifest@ && v.signature == signed.signature@);
    assert(v.manifest.operation == signed.manifest.operation@);
}

/// A request is stored as pending, with its bytes and its time, and lets an
/// approval through where the bytes are the same, it is still pending and its
/// time has not passed.
pub proof fn law_stored_requests_are_judged(
    row: &Option<StoredRequest>,
    canonical: &[u8],
    now: i64,
    r: Result<(), String>,
    expires_at: i64,
    stored: StoredRequest,
)
    requires
        call_ensures(judge_stored, (row, canonical, now), r),
        call_ensures(pending_request, (canonical, expires_at), stored),
    ensures
        r is Ok <==> *row is Some && (*row)->0.manifest@ == canonical@ && (*row)->0.status@
            == "pending"@ && now <= (*row)->0.expires_at,
        *row is None ==> r is Err && r->Err_0@ == "trusted request is unknown"@,
        stored.manifest@ == canonical@ && stored.status@ == "pending"@ && stored.expires_at
            == expires_at,
{
    assert(stored@.manifest == stored.manifest@ && stored@.status == stored.status@
        && stored@.expires_at == stored.expires_at);
    if let Some(s) = *row {
        assert(s@.manifest == s.manifest@ && s@.status == s.status@ && s@.expires_at
            == s.expires_at);
    }
}

/// An approval counts where it consumed exactly one request.
pub proof fn law_one_request_is_consumed(changed: usize, r: Result<(), String>)
    requires
        call_ensures(judge_consumed, (changed,), r),
    ensures
        r is Ok <==> changed == 1,
        r matches Err(e) ==> e@ == "trusted approval was already consumed"@,
{
}

/// An approver is enrolled by root alone, under a fit name, with a valid key of
/// 32 bytes.
pub proof fn law_enrolments_are_checked(
    is_root: bool,
    id: &str,
    decoded: &Option<Vec<u8>>,
    key_valid: bool,
    r: Result<(), String>,
)
    requires
        call_ensures(check_enrolment, (is_root, id, decoded, key_valid), r),
    ensures
        r is Ok <==> is_root && id@.len() > 0 && text::byte_len(id@) <= 64 && (forall|i: int|
            0 <= i < id@.len() ==> text::is_alnum(#[trigger] id@[i]) || id@[i] == '.' || id@[i]
                == '_' || id@[i] == '-') && *decoded is Some && (*decoded)->0@.len() == 32
            && key_valid,
        !is_root ==> r->Err_0@ == "approver enrollment must run as local root"@,
{
    reveal_strlit("._-");
    let s = "._-"@;
    assert(s[0] == '.' && s[1] == '_' && s[2] == '-' && s.len() == 3);
    text::lemma_no_bytes(id@);
}

/// Setting an entry gives it its value, and changes no other.
pub proof fn law_entries_are_set(
    entries: &[(String, String)],
    id: &str,
    value: &str,
    r: Vec<(String, String)>,
    name: Seq<char>,
    other: Seq<char>,
)
    requires
        call_ensures(set_entry, (entries, id, value), r),
    ensures
        identity::pairs(r@).contains((id@, value@)),
        name == id@ && other != value@ ==> !identity::pairs(r@).contains((name, other)),
        name != id@ ==> (identity::pairs(r@).contains((name, other)) <==> identity::pairs(
            entries@,
        ).contains((name, other))),
{
}

/// A broker's name belongs to its signing key, and its keys are those it was
/// given.
pub proof fn law_brokers_keep_their_keys(
    host_signing: [u8; 32],
    transport_secret: [u8; 32],
    protocol_version: u32,
    r: GateState,
)
    requires
        call_ensures(GateState::from_keys, (host_signing, transport_secret, protocol_version), r),
    ensures
        r.host_signing == host_signing,
        r.transport_secret == transport_secret,
        r.protocol_version == protocol_version,
        r.host_id@ == identity::hex_of(
            identity::ed25519_public_of(host_signing@).subrange(0, 16),
        ),
{
    let p = identity::ed25519_public_of(host_signing@);
    assert(p.take(16) =~= p.subrange(0, 16));
}

/// Enrolling writes a keyring in which the name has the new key and every other
/// entry is as it was; it writes nothing where the enrolment is refused.
pub proof fn law_enrolling_writes_the_keyring(
    is_root: bool,
    id: &str,
    encoded: &str,
    existing: Option<&str>,
    r: Result<Vec<u8>, String>,
    other: Seq<char>,
    value: Seq<char>,
)
    requires
        call_ensures(enroll_approver, (is_root, id, encoded, existing), r),
    ensures
        !is_root ==> r is Err && r->Err_0@ == "approver enrollment must run as local root"@,
        r is Ok ==> is_root && approver_id_ok(id@) && identity::base64_decoded(encoded@) is Some
            && identity::base64_decoded(encoded@)->0.len() == 32 && identity::ed25519_key_valid(
            identity::base64_decoded(encoded@)->0,
        ),
        r is Ok ==> (identity::keyring_entries(decode_utf8(r->Ok_0@)) matches Some(entries)
            && entries.contains((id@, encoded@)) && (other != id@ ==> (entries.contains(
            (other, value),
        ) <==> present_entries(
            match existing {
                Some(raw) => Some(raw@),
                None => None,
            },
        ).contains((other, value))))),
{
}

/// A keyring file is read as its entries are, and a fresh challenge is the
/// answer to its start around some nonce.
pub proof fn law_fresh_challenges_answer_the_start(
    state: &GateState,
    start: &TrustedClientFrame,
    now: i64,
    policy_version: &str,
    r: Result<TrustedManifest, String>,
)
    requires
        call_ensures(GateState::challenge, (state, start, now, policy_version), r),
        now <= i64::MAX - 3600,
        *start is Start,
    ensures
        r matches Ok(m) ==> m.request_id@ == (*start)->Start_request_id@ && m.operation@
            == (*start)->Start_operation@ && m.host_id@ == state.host_id@ && m.created_at == now
            && m.policy_version@ == policy_version@ && m.client_ephemeral_public@
            == (*start)->Start_client_ephemeral_public@ && now < m.expires_at <= now + 3600,
        start_refused(start@) is Some ==> r is Err,
{
    if let Ok(m) = r {
        let v = m@;
        assert(v.request_id == m.request_id@ && v.host_id == m.host_id@ && v.operation
            == m.operation@ && v.client_ephemeral_public == m.client_ephemeral_public@
            && v.created_at == m.created_at && v.expires_at == m.expires_at && v.policy_version
            == m.policy_version@);
    }
}

/// The keys that are made known are those of the broker's own secrets: one signs
/// for the host, the other agrees on a transport.
pub proof fn law_published_keys_are_the_brokers(
    state: &GateState,
    signing: [u8; 32],
    transport: [u8; 32],
)
    requires
        call_ensures(GateState::host_public, (state,), signing),
        call_ensures(GateState::transport_public, (state,), transport),
    ensures
        signing@ == identity::ed25519_public_of(state.host_signing@),
        transport@ == crypto::x25519_public_of(state.transport_secret@),
{
}

/// A stored request that does not match is refused in the same words, whether it
/// was altered, expired or consumed; a stale manifest is refused as such.
pub proof fn law_refusals_do_not_tell_requests_apart(
    row: &Option<StoredRequest>,
    bytes: &[u8],
    now: i64,
    r: Result<(), String>,
    state: &GateState,
    signed: &SignedTrustedManifest,
    canonical: &Result<Vec<u8>, String>,
    keyring: &Result<String, String>,
    approver_public: &[u8; 32],
    approver_signature: &[u8],
    policy_version: &str,
    approved: Result<(), String>,
)
    requires
        call_ensures(judge_stored, (row, bytes, now), r),
        call_ensures(GateState::is_stale, (state, signed, policy_version, now), true),
        call_ensures(
            GateState::approve,
            (
                state,
                signed,
                canonical,
                keyring,
                approver_public,
                approver_signature,
                policy_version,
                now,
            ),
            approved,
        ),
    ensures
        *row is Some && r is Err ==> r->Err_0@
            == "trusted approval was altered, expired, or already consumed"@,
        approved is Err && approved->Err_0@
            == "trusted manifest is stale or belongs to another host/policy"@,
{
}

}
