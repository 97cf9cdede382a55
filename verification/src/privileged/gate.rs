//! The conversation of the approval gate with one client: what it makes of
//! each frame, and what an approved operation reports.

use crate::output;
use crate::privileged::approval::GateState;
use crate::privileged::crypto;
use crate::privileged::crypto::{Transport, TransportState};
use crate::privileged::protocol;
use crate::privileged::protocol::{
    ClientFrameView, PlaintextView, SignedTrustedManifest, SignedView, TrustedClientFrame,
    TrustedHostFrame, TrustedManifest, TrustedPlaintext,
};
use crate::text;
use vstd::prelude::*;
use vstd::utf8::encode_utf8;

verus! {

/// How much output of a command is reported, both streams together.
pub const MAX_COMMAND_OUTPUT: usize = 8388608;

/// An approval as the client sent it.
#[derive(Debug)]
pub struct Approval {
    pub signed_manifest: SignedTrustedManifest,
    pub approver_public: [u8; 32],
    pub approver_signature: Vec<u8>,
}

/// Takes the frame after the challenge: an approval of that very challenge.
pub fn expect_approval(frame: TrustedClientFrame, challenge: &SignedTrustedManifest) -> (r: Result<
    Approval,
    String,
>)
    ensures
        match frame@ {
            ClientFrameView::Approve { signed_manifest, approver_public, approver_signature } =>
                if signed_manifest != challenge@ {
                r matches Err(e) && e@ == "approved manifest differs from broker challenge"@
            } else {
                r matches Ok(a) && a.signed_manifest@ == signed_manifest && a.approver_public@
                    == approver_public && a.approver_signature@ == approver_signature
            },
            _ => r matches Err(e) && e@ == "expected signed approval"@,
        },
{
    match frame {
        TrustedClientFrame::Approve { signed_manifest, approver_public, approver_signature } => {
            if !protocol::same_signed(&signed_manifest, challenge) {
                return Err(text::owned("approved manifest differs from broker challenge"));
            }
            Ok(Approval { signed_manifest, approver_public, approver_signature })
        },
        _ => Err(text::owned("expected signed approval")),
    }
}

/// Opens the broker's end of the transport for an approved manifest. The
/// client that made the request derives the mirror image from the broker's
/// public key.
pub fn open_transport(state: &GateState, manifest: &TrustedManifest, canonical: &[u8]) -> (r:
    Result<Transport, String>)
    ensures
        r matches Ok(t) && t@ == crypto::mirror(
            crypto::client_end(
                crypto::x25519_agreed(
                    state.transport_secret@,
                    manifest@.client_ephemeral_public,
                ),
                canonical@,
                manifest@.request_id,
            ),
        ) && (forall|c: Seq<u8>|
            c.len() == 32 && #[trigger] crypto::x25519_public_of(c)
                == manifest@.client_ephemeral_public ==> crypto::mirror(t@) == crypto::client_end(
                crypto::x25519_agreed(
                    c,
                    crypto::x25519_public_of(state.transport_secret@),
                ),
                canonical@,
                manifest@.request_id,
            )),
{
    Transport::broker(
        &state.transport_secret,
        manifest.client_ephemeral_public,
        canonical,
        manifest.request_id.as_str(),
    )
}

/// Seals an encoded plaintext into the next host frame.
pub fn seal_reply(transport: &mut Transport, encoded: &[u8]) -> (r: Result<
    TrustedHostFrame,
    String,
>)
    requires
        crypto::sealable(encoded@.len() as int) || crypto::oversized(encoded@.len() as int),
    ensures
        match r {
            Ok(frame) => {
                &&& crypto::sealable(encoded@.len() as int) && old(transport)@.sent < u64::MAX
                &&& frame matches TrustedHostFrame::Ciphertext { counter, data } && counter
                    == old(transport)@.sent && data@ == crypto::next_frame(
                    old(transport)@,
                    encoded@,
                ) && crypto::opened_bytes(
                    old(transport)@.send_key,
                    crypto::nonce_of(counter),
                    encode_utf8(old(transport)@.request_id),
                    data@,
                ) == Some(encoded@)
                &&& final(transport)@ == (TransportState {
                    sent: (old(transport)@.sent + 1) as u64,
                    ..old(transport)@
                })
            },
            Err(e) => {
                &&& final(transport)@ == old(transport)@
                &&& e@ == (if crypto::oversized(encoded@.len() as int) {
                    "root transport encryption failed"@
                } else {
                    "root transport counter exhausted"@
                })
                &&& crypto::oversized(encoded@.len() as int) || old(transport)@.sent == u64::MAX
            },
        },
{
    match transport.encrypt(encoded) {
        Ok(frame) => {
            let (counter, data) = frame;
            Ok(TrustedHostFrame::Ciphertext { counter, data })
        },
        Err(e) => Err(e),
    }
}

// ---------- a command ----------

/// How an approved command ended.
#[derive(Debug)]
pub enum CommandEnd {
    TimedOut,
    SpawnFailed(String),
    Done { stdout: Vec<u8>, stderr: Vec<u8>, code: Option<i32> },
}

/// What is kept of the standard output.
pub open spec fn kept_stdout(stdout: Seq<u8>) -> Seq<u8> {
    output::capped(stdout, MAX_COMMAND_OUTPUT as int)
}

/// What is kept of the standard error: the room that the output left.
pub open spec fn kept_stderr(stdout: Seq<u8>, stderr: Seq<u8>) -> Seq<u8> {
    output::capped(stderr, MAX_COMMAND_OUTPUT - kept_stdout(stdout).len())
}

/// The report of a stream: nothing where it is empty.
pub open spec fn stream_report(stream: Seq<char>, data: Seq<u8>) -> Seq<PlaintextView> {
    if data.len() == 0 {
        Seq::empty()
    } else {
        seq![PlaintextView::Output { stream, data }]
    }
}

/// The report of a command that ran to its end.
pub open spec fn command_reported(stdout: Seq<u8>, stderr: Seq<u8>, code: Option<i32>) -> Seq<
    PlaintextView,
> {
    stream_report("stdout"@, kept_stdout(stdout)) + stream_report(
        "stderr"@,
        kept_stderr(stdout, stderr),
    ) + seq![
        PlaintextView::Exit {
            code: match code {
                Some(c) => c,
                None => (-1) as i32,
            },
            message: "root command complete"@,
        },
    ]
}

/// What the client is told, inside the transport, of an approved command.
pub fn command_report(end: CommandEnd) -> (r: Result<Vec<TrustedPlaintext>, String>)
    ensures
        match end {
            CommandEnd::TimedOut => r matches Err(e) && e@ == "approved root command timed out"@,
            CommandEnd::SpawnFailed(error) => r matches Err(e) && e@
                == "spawn approved root command: "@ + error@,
            CommandEnd::Done { stdout, stderr, code } => r matches Ok(v) && protocol::plaintexts(
                v@,
            ) == command_reported(stdout@, stderr@, code),
        },
{
    match end {
        CommandEnd::TimedOut => Err(text::owned("approved root command timed out")),
        CommandEnd::SpawnFailed(error) => Err(
            text::join2("spawn approved root command: ", error.as_str()),
        ),
        CommandEnd::Done { stdout, stderr, code } => {
            let out = output::cap_bytes(stdout, MAX_COMMAND_OUTPUT);
            let room: usize = MAX_COMMAND_OUTPUT - out.len();
            let err = output::cap_bytes(stderr, room);
            let mut report: Vec<TrustedPlaintext> = Vec::new();
            if out.len() > 0 {
                report.push(TrustedPlaintext::Output { stream: text::owned("stdout"), data: out });
            }
            if err.len() > 0 {
                report.push(TrustedPlaintext::Output { stream: text::owned("stderr"), data: err });
            }
            let code: i32 = match code {
                Some(c) => c,
                None => -1,
            };
            report.push(TrustedPlaintext::Exit { code, message: text::owned("root command complete") });
            assert(protocol::plaintexts(report@) =~= command_reported(
                end->Done_stdout@,
                end->Done_stderr@,
                end->code,
            ));
            Ok(report)
        },
    }
}

// ---------- a terminal ----------

/// What happens while an approved terminal is open.
#[derive(Debug)]
pub enum PtyEvent {
    Deadline,
    Output(Vec<u8>),
    OutputEnded,
    ReadFailed,
    Undecodable(String),
    Frame(TrustedClientFrame),
}

/// What the broker does about it.
#[derive(Debug)]
pub enum PtyAction {
    /// Report the output, inside the transport.
    Send(TrustedPlaintext),
    /// Type the bytes into the terminal.
    Write(Vec<u8>),
    Resize { cols: u16, rows: u16 },
    /// Kill the shell and say goodbye.
    Finish,
    /// Give up with an error.
    Fail(String),
}

/// Whether the terminal's next action is the right one for an event.
pub open spec fn pty_stepped(before: TransportState, event: PtyEvent, action: PtyAction) -> bool {
    match event {
        PtyEvent::Deadline | PtyEvent::OutputEnded | PtyEvent::ReadFailed => action is Finish,
        PtyEvent::Output(data) => action matches PtyAction::Send(p) && p@
            == (PlaintextView::Output { stream: "pty"@, data: data@ }),
        PtyEvent::Undecodable(error) => action matches PtyAction::Fail(e) && e@ == error@,
        PtyEvent::Frame(frame) => match frame {
            TrustedClientFrame::Ciphertext { counter, data } => match crypto::received_frame(
                before,
                counter,
                data@,
            ) {
                Ok(plaintext) => action matches PtyAction::Write(w) && w@ == plaintext,
                Err(error) => action matches PtyAction::Fail(e) && e@ == error,
            },
            TrustedClientFrame::Resize { cols, rows } => action == (PtyAction::Resize {
                cols,
                rows,
            }),
            TrustedClientFrame::Close => action is Finish,
            _ => action matches PtyAction::Fail(e) && e@ == "unexpected frame in active root PTY"@,
        },
    }
}

/// What the transport is after an event: only an accepted frame moves it on.
pub open spec fn pty_transport(before: TransportState, event: PtyEvent) -> TransportState {
    match event {
        PtyEvent::Frame(TrustedClientFrame::Ciphertext { counter, data }) =>
            if crypto::received_frame(before, counter, data@) is Ok {
            TransportState { received: (before.received + 1) as u64, ..before }
        } else {
            before
        },
        _ => before,
    }
}

/// Whether the key stream covers a frame, or the frame is refused outright.
pub open spec fn pty_event_fits(event: PtyEvent) -> bool {
    event matches PtyEvent::Frame(TrustedClientFrame::Ciphertext { counter, data })
        ==> crypto::sealable(data@.len() - 16) || crypto::oversized(data@.len() - 16)
}

/// Decides what an open terminal does about an event.
pub fn pty_step(transport: &mut Transport, event: PtyEvent) -> (r: PtyAction)
    requires
        pty_event_fits(event),
    ensures
        pty_stepped(old(transport)@, event, r),
        final(transport)@ == pty_transport(old(transport)@, event),
{
    match event {
        PtyEvent::Deadline | PtyEvent::OutputEnded | PtyEvent::ReadFailed => PtyAction::Finish,
        PtyEvent::Output(data) => PtyAction::Send(
            TrustedPlaintext::Output { stream: text::owned("pty"), data },
        ),
        PtyEvent::Undecodable(error) => PtyAction::Fail(error),
        PtyEvent::Frame(frame) => match frame {
            TrustedClientFrame::Ciphertext { counter, data } => match transport.decrypt(
                counter,
                data.as_slice(),
            ) {
                Ok(plaintext) => PtyAction::Write(plaintext),
                Err(error) => PtyAction::Fail(error),
            },
            TrustedClientFrame::Resize { cols, rows } => PtyAction::Resize { cols, rows },
            TrustedClientFrame::Close => PtyAction::Finish,
            _ => PtyAction::Fail(text::owned("unexpected frame in active root PTY")),
        },
    }
}

/// The last word on a terminal.
pub fn pty_exit() -> (r: TrustedPlaintext)
    ensures
        r@ == (PlaintextView::Exit { code: 0, message: "root PTY closed"@ }),
{
    TrustedPlaintext::Exit { code: 0, message: text::owned("root PTY closed") }
}

// ---------- laws ----------

/// The bytes of output in a report.
pub open spec fn reported_bytes(report: Seq<PlaintextView>) -> nat
    decreases report.len(),
{
    if report.len() == 0 {
        0
    } else {
        reported_bytes(report.drop_last()) + match report.last() {
            PlaintextView::Output { stream, data } => data.len(),
            PlaintextView::Exit { code, message } => 0,
        }
    }
}

/// A report never holds more output than the cap, and ends with the exit.
pub proof fn law_command_report_is_capped(stdout: Seq<u8>, stderr: Seq<u8>, code: Option<i32>)
    ensures
        reported_bytes(command_reported(stdout, stderr, code)) <= MAX_COMMAND_OUTPUT,
        command_reported(stdout, stderr, code).last() is Exit,
{
    let report = command_reported(stdout, stderr, code);
    let a = stream_report("stdout"@, kept_stdout(stdout));
    let b = stream_report("stderr"@, kept_stderr(stdout, stderr));
    assert(report.drop_last() =~= a + b);
    assert(reported_bytes(report) == reported_bytes(a + b));
    assert(reported_bytes(a) <= kept_stdout(stdout).len()) by {
        if a.len() > 0 {
            assert(a.drop_last() =~= Seq::empty());
            assert(reported_bytes(a.drop_last()) == 0);
        }
    }
    if b.len() > 0 {
        assert((a + b).drop_last() =~= a);
    } else {
        assert(a + b =~= a);
    }
}

/// Nothing is typed into a terminal but what a frame held that the client
/// sealed for exactly this place in the conversation.
pub proof fn law_only_authentic_input_is_typed(
    before: TransportState,
    event: PtyEvent,
    action: PtyAction,
)
    requires
        pty_stepped(before, event, action),
        action is Write,
    ensures
        event matches PtyEvent::Frame(TrustedClientFrame::Ciphertext { counter, data })
            && counter == before.received && crypto::opened_bytes(
            before.receive_key,
            crypto::nonce_of(counter),
            encode_utf8(before.request_id),
            data@,
        ) == Some(action->Write_0@),
{
}

/// The exit code of a command is the last thing that is reported of it.
pub proof fn law_the_exit_code_is_reported(
    stdout: Vec<u8>,
    stderr: Vec<u8>,
    code: Option<i32>,
    r: Result<Vec<TrustedPlaintext>, String>,
)
    requires
        call_ensures(command_report, (CommandEnd::Done { stdout, stderr, code },), r),
    ensures
        r is Ok,
        r->Ok_0@.len() > 0,
        r->Ok_0@.last() matches TrustedPlaintext::Exit { code: told, message } && (code matches
            Some(c) ==> told == c) && (code is None ==> told == -1),
{
    let v = r->Ok_0@;
    assert(protocol::plaintexts(v).last() == v.last()@);
}

/// What a command wrote within the cap is reported stream by stream and byte
/// for byte; an empty stream is not reported.
pub proof fn law_both_streams_are_reported(
    stdout: Vec<u8>,
    stderr: Vec<u8>,
    code: Option<i32>,
    r: Result<Vec<TrustedPlaintext>, String>,
)
    requires
        call_ensures(command_report, (CommandEnd::Done { stdout, stderr, code },), r),
        stdout@.len() + stderr@.len() <= 8 * 1024 * 1024,
    ensures
        r is Ok,
        stdout@.len() > 0 ==> (r->Ok_0@[0] matches TrustedPlaintext::Output { stream, data }
            && stream@ == "stdout"@ && data@ == stdout@),
        stderr@.len() > 0 && r->Ok_0@.len() >= 2 ==> (r->Ok_0@[r->Ok_0@.len() - 2]
            matches TrustedPlaintext::Output { stream, data } && stream@ == "stderr"@ && data@
            == stderr@),
        r->Ok_0@.len() == 1 + (if stdout@.len() > 0 {
            1int
        } else {
            0
        }) + (if stderr@.len() > 0 {
            1int
        } else {
            0
        }),
        r->Ok_0@.last() matches TrustedPlaintext::Exit { code: told, message } && message@
            == "root command complete"@,
{
    let v = r->Ok_0@;
    let p = protocol::plaintexts(v);
    assert(p.len() == v.len());
    assert(p.last() == v.last()@);
    assert(kept_stdout(stdout@) =~= stdout@);
    assert(kept_stderr(stdout@, stderr@) =~= stderr@);
    assert(p[0] == v[0]@);
    if v.len() >= 2 {
        assert(p[v.len() - 2] == v[v.len() - 2]@);
    }
}

/// More output than the cap is cut at its end: the output is kept before the
/// errors.
pub proof fn law_output_is_kept_before_errors(
    stdout: Vec<u8>,
    stderr: Vec<u8>,
    code: Option<i32>,
    r: Result<Vec<TrustedPlaintext>, String>,
)
    requires
        call_ensures(command_report, (CommandEnd::Done { stdout, stderr, code },), r),
        stdout@.len() >= 8 * 1024 * 1024,
    ensures
        r is Ok,
        r->Ok_0@.len() == 2,
        r->Ok_0@[0] matches TrustedPlaintext::Output { stream, data } && stream@ == "stdout"@
            && data@ == stdout@.subrange(0, 8388608),
{
    let v = r->Ok_0@;
    let p = protocol::plaintexts(v);
    assert(p.len() == v.len());
    assert(p[0] == v[0]@);
    assert(kept_stdout(stdout@) =~= stdout@.subrange(0, 8388608));
    assert(kept_stderr(stdout@, stderr@).len() == 0);
}

/// A command that did not end by itself is told as that.
pub proof fn law_commands_that_failed_are_told(
    error: String,
    late: Result<Vec<TrustedPlaintext>, String>,
    unstarted: Result<Vec<TrustedPlaintext>, String>,
)
    requires
        call_ensures(command_report, (CommandEnd::TimedOut,), late),
        call_ensures(command_report, (CommandEnd::SpawnFailed(error),), unstarted),
    ensures
        late is Err && late->Err_0@ == "approved root command timed out"@,
        unstarted is Err && unstarted->Err_0@ == "spawn approved root command: "@ + error@,
{
}

/// An approval is taken as it was sent, where it is one of that very challenge.
pub proof fn law_approvals_are_taken_as_sent(
    signed_manifest: SignedTrustedManifest,
    approver_public: [u8; 32],
    approver_signature: Vec<u8>,
    challenge: &SignedTrustedManifest,
    r: Result<Approval, String>,
)
    requires
        call_ensures(
            expect_approval,
            (
                TrustedClientFrame::Approve {
                    signed_manifest,
                    approver_public,
                    approver_signature,
                },
                challenge,
            ),
            r,
        ),
    ensures
        r is Ok <==> signed_manifest@ == challenge@,
        r matches Ok(a) ==> a.signed_manifest@ == signed_manifest@ && a.approver_public@
            == approver_public@ && a.approver_signature@ == approver_signature@,
        r matches Err(e) ==> e@ == "approved manifest differs from broker challenge"@,
{
}

/// Nothing but an approval answers a challenge.
pub proof fn law_only_approvals_answer_a_challenge(
    frame: TrustedClientFrame,
    challenge: &SignedTrustedManifest,
    r: Result<Approval, String>,
)
    requires
        call_ensures(expect_approval, (frame, challenge), r),
        frame !is Approve,
    ensures
        r is Err && r->Err_0@ == "expected signed approval"@,
{
}

/// A terminal shows its output, takes the size it is given, and ends when its
/// time is up, its shell is gone or the client says so.
pub proof fn law_terminals_do_as_told(t: &mut Transport, event: PtyEvent, r: PtyAction)
    requires
        call_ensures(pty_step, (t, event), r),
    ensures
        event is Deadline || event is OutputEnded || event is ReadFailed ==> r is Finish,
        event matches PtyEvent::Output(data) ==> (r
            matches PtyAction::Send(TrustedPlaintext::Output { stream, data: shown }) && stream@
            == "pty"@ && shown@ == data@),
        event matches PtyEvent::Undecodable(e) ==> (r matches PtyAction::Fail(told) && told@ == e@),
        event matches PtyEvent::Frame(TrustedClientFrame::Resize { cols, rows }) ==> (r
            matches PtyAction::Resize { cols: c, rows: h } && c == cols && h == rows),
        event matches PtyEvent::Frame(frame) ==> (frame is Close ==> r is Finish),
        event matches PtyEvent::Frame(frame) ==> (frame is Start || frame is Approve ==> r is Fail),
        event matches PtyEvent::Frame(frame) ==> (frame is Ciphertext ==> r is Write || r is Fail),
        event !is Frame ==> final(t)@ == old(t)@,
{
}

/// A terminal's last word is an exit without error.
pub proof fn law_terminals_say_goodbye(r: TrustedPlaintext)
    requires
        call_ensures(pty_exit, (), r),
    ensures
        r matches TrustedPlaintext::Exit { code, message } && code == 0 && message@
            == "root PTY closed"@,
{
}

/// What is sealed for the client opens, at the other end, to what was to be
/// said.
pub proof fn law_replies_open_at_the_client(
    t: &mut Transport,
    encoded: &[u8],
    r: Result<TrustedHostFrame, String>,
)
    requires
        call_ensures(seal_reply, (t, encoded), r),
        r is Ok,
    ensures
        r->Ok_0 matches TrustedHostFrame::Ciphertext { counter, data } && crypto::received_frame(
            crypto::mirror(old(t)@),
            counter,
            data@,
        ) == Ok::<Seq<u8>, Seq<char>>(encoded@),
        final(t)@.sent == old(t)@.sent + 1,
{
}

/// The broker's end for an approved manifest is keyed by its own secret, the
/// client's key and the very bytes that were approved.
pub proof fn law_transports_are_keyed_by_the_approval(
    state: &GateState,
    manifest: &TrustedManifest,
    canonical: &[u8],
    r: Result<Transport, String>,
)
    requires
        call_ensures(open_transport, (state, manifest, canonical), r),
    ensures
        r is Ok,
        ({
            let agreed = crypto::x25519_agreed(
                state.transport_secret@,
                manifest.client_ephemeral_public@,
            );
            let salt = crypto::sha256_of(canonical@);
            &&& r->Ok_0@.send_key == crypto::hkdf_key(
                salt,
                agreed,
                encode_utf8("shellfleet-root-host-to-client-v1"@),
            )
            &&& r->Ok_0@.receive_key == crypto::hkdf_key(
                salt,
                agreed,
                encode_utf8("shellfleet-root-client-to-host-v1"@),
            )
            &&& r->Ok_0@.request_id == manifest.request_id@
            &&& r->Ok_0@.sent == 0 && r->Ok_0@.received == 0
        }),
{
    assert(manifest@.client_ephemeral_public == manifest.client_ephemeral_public@);
    assert(manifest@.request_id == manifest.request_id@);
}

}
