//! The agent's side of the approval gate: it relays frames and understands
//! only when a conversation is over.

use crate::privileged::protocol::TrustedHostFrame;
use crate::text;
use vstd::prelude::*;

verus! {

/// Where the approval gate listens: what was configured, else the default.
pub fn gate_socket(configured: Option<&str>) -> (r: String)
    ensures
        r@ == (match configured {
            Some(path) => path@,
            None => "/run/shellfleet/approval-gate.sock"@,
        }),
{
    match configured {
        Some(path) => text::owned(path),
        None => text::owned("/run/shellfleet/approval-gate.sock"),
    }
}

/// Checks a payload before it is relayed to the broker.
pub fn check_payload(payload: &[u8], max: u32) -> (r: Result<(), String>)
    ensures
        text::outcome(r) == (if 0 < payload@.len() <= max {
            Ok(())
        } else {
            Err("trusted relay payload size is invalid"@)
        }),
{
    if payload.len() == 0 || payload.len() > max as usize {
        Err(text::owned("trusted relay payload size is invalid"))
    } else {
        Ok(())
    }
}

/// What the agent tells the control plane of a frame from the broker.
#[derive(Debug)]
pub struct RelayReply {
    pub request_id: String,
    pub complete: bool,
    pub payload: Vec<u8>,
}

/// Whether a frame ends the conversation: a goodbye or an error, where it
/// could be decoded.
pub open spec fn ends_conversation(frame: Option<TrustedHostFrame>) -> bool {
    frame matches Some(f) && (f is Closed || f is Error)
}

/// Relays what the broker sent, and marks the end of the conversation.
pub fn relay_frame(request_id: &str, frame: &Option<TrustedHostFrame>, payload: Vec<u8>) -> (r:
    RelayReply)
    ensures
        r.request_id@ == request_id@,
        r.complete == ends_conversation(*frame),
        r.payload == payload,
{
    let complete = match frame {
        Some(TrustedHostFrame::Closed) => true,
        Some(TrustedHostFrame::Error { .. }) => true,
        _ => false,
    };
    RelayReply { request_id: text::owned(request_id), complete, payload }
}

/// Reports a broken connection: the encoded error where there is one, and the
/// conversation is over.
pub fn relay_failure(request_id: &str, encoded_error: Option<Vec<u8>>) -> (r: RelayReply)
    ensures
        r.request_id@ == request_id@,
        r.complete,
        match encoded_error {
            Some(payload) => r.payload == payload,
            None => r.payload@.len() == 0,
        },
{
    let payload = match encoded_error {
        Some(payload) => payload,
        None => Vec::new(),
    };
    RelayReply { request_id: text::owned(request_id), complete: true, payload }
}

// ---------- laws ----------

/// The broker is looked for where it was configured, else in the usual place.
pub proof fn law_the_socket_is_found(configured: Option<&str>, r: String)
    requires
        call_ensures(gate_socket, (configured,), r),
    ensures
        configured is Some ==> r@ == configured->0@,
        configured is None ==> r@ == "/run/shellfleet/approval-gate.sock"@,
{
}

/// A payload is relayed where it holds something and is within the bound.
pub proof fn law_payloads_are_bounded(payload: &[u8], max: u32, r: Result<(), String>)
    requires
        call_ensures(check_payload, (payload, max), r),
    ensures
        r is Ok <==> 0 < payload@.len() <= max,
        r matches Err(e) ==> e@ == "trusted relay payload size is invalid"@,
{
}

/// Frames are relayed as they are, under their request; a goodbye or an error
/// ends the conversation, and nothing else does.
pub proof fn law_frames_are_relayed(
    request_id: &str,
    frame: &Option<TrustedHostFrame>,
    payload: Vec<u8>,
    r: RelayReply,
)
    requires
        call_ensures(relay_frame, (request_id, frame, payload), r),
    ensures
        r.request_id@ == request_id@,
        r.payload == payload,
        r.complete <==> *frame is Some && ((*frame)->0 is Closed || (*frame)->0 is Error),
{
}

/// A broken connection ends the conversation, with the error where it could be
/// encoded.
pub proof fn law_broken_connections_are_told(
    request_id: &str,
    encoded_error: Option<Vec<u8>>,
    r: RelayReply,
)
    requires
        call_ensures(relay_failure, (request_id, encoded_error), r),
    ensures
        r.request_id@ == request_id@,
        r.complete,
        encoded_error is Some ==> r.payload == encoded_error->0,
        encoded_error is None ==> r.payload@.len() == 0,
{
}

}
