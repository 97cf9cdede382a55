//! What travels between a client and the approval gate.

use crate::privileged::policy;
use crate::privileged::policy::{OperationView, TrustedOperation};
use crate::text;
use vstd::prelude::*;

verus! {

/// What the broker proposes and an approver signs: one operation, for one host,
/// one client key and one nonce, until a moment in time.
#[derive(Debug)]
pub struct TrustedManifest {
    pub version: u32,
    pub request_id: String,
    pub host_id: String,
    pub operation: TrustedOperation,
    pub client_ephemeral_public: [u8; 32],
    pub broker_transport_public: [u8; 32],
    pub nonce: [u8; 32],
    pub created_at: i64,
    pub expires_at: i64,
    pub policy_version: String,
}

/// A manifest with its texts and keys spelled out.
#[verifier::ext_equal]
pub struct ManifestView {
    pub version: u32,
    pub request_id: Seq<char>,
    pub host_id: Seq<char>,
    pub operation: OperationView,
    pub client_ephemeral_public: Seq<u8>,
    pub broker_transport_public: Seq<u8>,
    pub nonce: Seq<u8>,
    pub created_at: i64,
    pub expires_at: i64,
    pub policy_version: Seq<char>,
}

impl View for TrustedManifest {
    type V = ManifestView;

    open spec fn view(&self) -> ManifestView {
        ManifestView {
            version: self.version,
            request_id: self.request_id@,
            host_id: self.host_id@,
            operation: self.operation@,
            client_ephemeral_public: self.client_ephemeral_public@,
            broker_transport_public: self.broker_transport_public@,
            nonce: self.nonce@,
            created_at: self.created_at,
            expires_at: self.expires_at,
            policy_version: self.policy_version@,
        }
    }
}

/// A manifest with the host's signature over it.
#[derive(Debug)]
pub struct SignedTrustedManifest {
    pub manifest: TrustedManifest,
    pub host_identity_public: [u8; 32],
    pub signature: Vec<u8>,
}

/// A signed manifest with its keys spelled out.
#[verifier::ext_equal]
pub struct SignedView {
    pub manifest: ManifestView,
    pub host_identity_public: Seq<u8>,
    pub signature: Seq<u8>,
}

impl View for SignedTrustedManifest {
    type V = SignedView;

    open spec fn view(&self) -> SignedView {
        SignedView {
            manifest: self.manifest@,
            host_identity_public: self.host_identity_public@,
            signature: self.signature@,
        }
    }
}

/// What a client sends.
#[derive(Debug)]
pub enum TrustedClientFrame {
    Start { request_id: String, operation: TrustedOperation, client_ephemeral_public: [u8; 32] },
    Approve {
        signed_manifest: SignedTrustedManifest,
        approver_public: [u8; 32],
        approver_signature: Vec<u8>,
    },
    Ciphertext { counter: u64, data: Vec<u8> },
    Resize { cols: u16, rows: u16 },
    Close,
}

/// A client frame with its texts and bytes spelled out.
pub enum ClientFrameView {
    Start { request_id: Seq<char>, operation: OperationView, client_ephemeral_public: Seq<u8> },
    Approve { signed_manifest: SignedView, approver_public: Seq<u8>, approver_signature: Seq<u8> },
    Ciphertext { counter: u64, data: Seq<u8> },
    Resize { cols: u16, rows: u16 },
    Close,
}

impl View for TrustedClientFrame {
    type V = ClientFrameView;

    open spec fn view(&self) -> ClientFrameView {
        match self {
            TrustedClientFrame::Start { request_id, operation, client_ephemeral_public } =>
                ClientFrameView::Start {
                request_id: request_id@,
                operation: operation@,
                client_ephemeral_public: client_ephemeral_public@,
            },
            TrustedClientFrame::Approve {
                signed_manifest,
                approver_public,
                approver_signature,
            } => ClientFrameView::Approve {
                signed_manifest: signed_manifest@,
                approver_public: approver_public@,
                approver_signature: approver_signature@,
            },
            TrustedClientFrame::Ciphertext { counter, data } => ClientFrameView::Ciphertext {
                counter: *counter,
                data: data@,
            },
            TrustedClientFrame::Resize { cols, rows } => ClientFrameView::Resize {
                cols: *cols,
                rows: *rows,
            },
            TrustedClientFrame::Close => ClientFrameView::Close,
        }
    }
}

/// What the broker answers.
#[derive(Debug)]
pub enum TrustedHostFrame {
    Challenge(SignedTrustedManifest),
    Ciphertext { counter: u64, data: Vec<u8> },
    Closed,
    Error { message: String },
}

/// What the two ends say to each other inside the encrypted transport.
#[derive(Debug)]
pub enum TrustedPlaintext {
    Output { stream: String, data: Vec<u8> },
    Exit { code: i32, message: String },
}

/// A plaintext with its texts and bytes spelled out.
#[verifier::ext_equal]
pub enum PlaintextView {
    Output { stream: Seq<char>, data: Seq<u8> },
    Exit { code: i32, message: Seq<char> },
}

impl View for TrustedPlaintext {
    type V = PlaintextView;

    open spec fn view(&self) -> PlaintextView {
        match self {
            TrustedPlaintext::Output { stream, data } => PlaintextView::Output {
                stream: stream@,
                data: data@,
            },
            TrustedPlaintext::Exit { code, message } => PlaintextView::Exit {
                code: *code,
                message: message@,
            },
        }
    }
}

pub open spec fn plaintexts(v: Seq<TrustedPlaintext>) -> Seq<PlaintextView> {
    v.map_values(|p: TrustedPlaintext| p@)
}

/// Tests two signed manifests for equality.
pub fn same_signed(a: &SignedTrustedManifest, b: &SignedTrustedManifest) -> (r: bool)
    ensures
        r == (a@ == b@),
{
    let m = &a.manifest;
    let n = &b.manifest;
    let heads = m.version == n.version && m.created_at == n.created_at && m.expires_at
        == n.expires_at && text::same(m.request_id.as_str(), n.request_id.as_str()) && text::same(
        m.host_id.as_str(),
        n.host_id.as_str(),
    ) && text::same(m.policy_version.as_str(), n.policy_version.as_str());
    let keys = text::same_bytes(
        m.client_ephemeral_public.as_slice(),
        n.client_ephemeral_public.as_slice(),
    ) && text::same_bytes(
        m.broker_transport_public.as_slice(),
        n.broker_transport_public.as_slice(),
    ) && text::same_bytes(m.nonce.as_slice(), n.nonce.as_slice()) && text::same_bytes(
        a.host_identity_public.as_slice(),
        b.host_identity_public.as_slice(),
    ) && text::same_bytes(a.signature.as_slice(), b.signature.as_slice());
    heads && keys && policy::same_operation(&m.operation, &n.operation)
}

// ---------- laws ----------

/// Two signed manifests are the same where every field of them is.
pub proof fn law_signed_manifests_are_compared_whole(
    a: &SignedTrustedManifest,
    b: &SignedTrustedManifest,
    r: bool,
)
    requires
        call_ensures(same_signed, (a, b), r),
    ensures
        r <==> a.signature@ == b.signature@ && a.host_identity_public@ == b.host_identity_public@
            && a.manifest.version == b.manifest.version && a.manifest.request_id@
            == b.manifest.request_id@ && a.manifest.host_id@ == b.manifest.host_id@
            && a.manifest.operation@ == b.manifest.operation@
            && a.manifest.client_ephemeral_public@ == b.manifest.client_ephemeral_public@
            && a.manifest.broker_transport_public@ == b.manifest.broker_transport_public@
            && a.manifest.nonce@ == b.manifest.nonce@ && a.manifest.created_at
            == b.manifest.created_at && a.manifest.expires_at == b.manifest.expires_at
            && a.manifest.policy_version@ == b.manifest.policy_version@,
{
}

}
