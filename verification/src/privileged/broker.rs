//! The way of a request through the approval gate: from the first frame to the
//! operation that runs, or to the refusal.

use crate::privileged::approval;
use crate::privileged::approval::{GateState, StoredRequest, StoredView};
use crate::privileged::crypto;
use crate::privileged::crypto::Transport;
use crate::privileged::gate;
use crate::privileged::gate::Approval;
use crate::privileged::identity;
use crate::privileged::policy;
use crate::privileged::policy::TrustedOperation;
use crate::privileged::protocol::{
    ClientFrameView, SignedTrustedManifest, TrustedClientFrame, TrustedManifest,
};
use crate::text;
use vstd::prelude::*;

verus! {

/// How far a request has come, which says what is to be done next.
pub enum Broker {
    /// Read the first frame.
    Listening,
    /// Encode the manifest.
    Encoding { manifest: TrustedManifest },
    /// Store the request under its id.
    Storing { challenge: SignedTrustedManifest, row: StoredRequest },
    /// Send the challenge and read the next frame.
    Challenged { challenge: SignedTrustedManifest },
    /// Encode the approved manifest and read the keyring.
    Checking { approval: Approval },
    /// Look the stored request up.
    LookingUp { manifest: TrustedManifest, canonical: Vec<u8>, now: i64 },
    /// Mark the stored request as consumed, if it is still pending.
    Consuming { manifest: TrustedManifest, canonical: Vec<u8>, now: i64 },
    /// Carry the operation out and report through the transport.
    Running { operation: TrustedOperation, transport: Transport },
    /// Hang up, after telling the client why if there is something to tell.
    Refused { told: Option<String>, error: String },
}

/// What came of it.
#[derive(Debug)]
pub enum BrokerEvent {
    Start { frame: TrustedClientFrame, now: i64, policy_version: String },
    Encoded(Vec<u8>),
    Stored,
    NotStored,
    Reply(TrustedClientFrame),
    Evidence {
        canonical: Result<Vec<u8>, String>,
        keyring: Result<String, String>,
        now: i64,
        policy_version: String,
    },
    Row(Option<StoredRequest>),
    /// How many pending requests became consumed.
    Consumed(usize),
    /// Something outside went wrong.
    Failed(String),
}

/// Whether an event can come of what is being done for a request.
pub open spec fn expects(broker: Broker, event: BrokerEvent) -> bool {
    match broker {
        Broker::Listening => event is Failed || (event matches BrokerEvent::Start {
            frame,
            now,
            policy_version,
        } && now <= i64::MAX - 3600),
        Broker::Encoding { manifest } => event is Failed || event is Encoded,
        Broker::Storing { challenge, row } => event is Failed || event is Stored
            || event is NotStored,
        Broker::Challenged { challenge } => event is Failed || event is Reply,
        Broker::Checking { approval } => event is Evidence,
        Broker::LookingUp { manifest, canonical, now } => event is Failed || event is Row,
        Broker::Consuming { manifest, canonical, now } => event is Failed || event is Consumed,
        Broker::Running { operation, transport } => false,
        Broker::Refused { told, error } => false,
    }
}

/// Whether a request is refused with an error that the client is not told.
pub open spec fn refused(after: Broker, error: Seq<char>) -> bool {
    after matches Broker::Refused { told, error: e } && told is None && e@ == error
}

/// Whether a request is refused with an error that the client is told.
pub open spec fn turned_away(after: Broker, error: Seq<char>) -> bool {
    after matches Broker::Refused { told, error: e } && text::opt_text(told) == Some(error) && e@
        == error
}

/// Whether a first frame is answered as it should be, with the nonce that was
/// drawn for it, if one was.
pub open spec fn started_with(
    state: GateState,
    frame: ClientFrameView,
    drawn: Option<Seq<u8>>,
    now: i64,
    policy_version: Seq<char>,
    after: Broker,
) -> bool {
    match approval::start_refused(frame) {
        Some(e) => refused(after, e),
        None => match drawn {
            Some(nonce) => after matches Broker::Encoding { manifest } && manifest@
                == approval::manifest_for(state, frame, nonce, now, policy_version),
            None => refused(after, identity::no_randomness()),
        },
    }
}

/// Whether a first frame is answered as it should be, whatever was drawn.
pub open spec fn started(
    state: GateState,
    frame: ClientFrameView,
    now: i64,
    policy_version: Seq<char>,
    after: Broker,
) -> bool {
    let drawn = match after {
        Broker::Encoding { manifest } => Some(manifest@.nonce),
        _ => None,
    };
    started_with(state, frame, drawn, now, policy_version, after)
}

/// Whether the answer to a challenge is taken as it should be: nothing but an
/// approval of that very challenge goes on.
pub open spec fn answered(challenge: SignedTrustedManifest, frame: ClientFrameView, after: Broker)
    -> bool {
    match frame {
        ClientFrameView::Approve { signed_manifest, approver_public, approver_signature } =>
            if signed_manifest != challenge@ {
            turned_away(after, "approved manifest differs from broker challenge"@)
        } else {
            after matches Broker::Checking { approval } && approval.signed_manifest@
                == signed_manifest && approval.approver_public@ == approver_public
                && approval.approver_signature@ == approver_signature
        },
        _ => turned_away(after, "expected signed approval"@),
    }
}

/// What an approval amounts to, given the evidence.
pub open spec fn judged(
    state: GateState,
    approval: Approval,
    canonical: Result<Vec<u8>, String>,
    keyring: Result<String, String>,
    now: i64,
    policy_version: Seq<char>,
) -> Result<(), Seq<char>> {
    approval::approved(
        state,
        approval.signed_manifest@,
        crypto::bytes_outcome(canonical),
        text::text_outcome(keyring),
        approval.approver_public@,
        approval.approver_signature@,
        policy_version,
        now,
    )
}

/// Whether the broker's end of the transport is open for a manifest.
pub open spec fn opened(
    state: GateState,
    manifest: TrustedManifest,
    canonical: Seq<u8>,
    transport: Transport,
) -> bool {
    transport@ == crypto::mirror(
        crypto::client_end(
            crypto::x25519_agreed(state.transport_secret@, manifest@.client_ephemeral_public),
            canonical,
            manifest@.request_id,
        ),
    )
}

/// Whether a request goes on as it should.
pub open spec fn stepped(state: GateState, before: Broker, event: BrokerEvent, after: Broker)
    -> bool {
    match (before, event) {
        (_, BrokerEvent::Failed(e)) => refused(after, e@),
        (Broker::Listening, BrokerEvent::Start { frame, now, policy_version }) => started(
            state,
            frame@,
            now,
            policy_version@,
            after,
        ),
        (Broker::Encoding { manifest }, BrokerEvent::Encoded(canonical)) => after matches
            Broker::Storing { challenge, row } && challenge@ == approval::signed_by(
            state,
            manifest@,
            canonical@,
        ) && row@ == approval::pending(canonical@, manifest@.expires_at),
        (Broker::Storing { challenge, row }, BrokerEvent::Stored) => after
            == (Broker::Challenged { challenge }),
        (Broker::Storing { challenge, row }, BrokerEvent::NotStored) => refused(
            after,
            "request id already exists or approval database failed"@,
        ),
        (Broker::Challenged { challenge }, BrokerEvent::Reply(frame)) => answered(
            challenge,
            frame@,
            after,
        ),
        (
            Broker::Checking { approval },
            BrokerEvent::Evidence { canonical, keyring, now, policy_version },
        ) => match judged(state, approval, canonical, keyring, now, policy_version@) {
            Err(e) => refused(after, e),
            Ok(_) => after == (Broker::LookingUp {
                manifest: approval.signed_manifest.manifest,
                canonical: canonical->Ok_0,
                now,
            }),
        },
        (Broker::LookingUp { manifest, canonical, now }, BrokerEvent::Row(row)) =>
            match approval::stored_judged(
            match row {
                Some(row) => Some(row@),
                None => None,
            },
            canonical@,
            now,
        ) {
            Err(e) => refused(after, e),
            Ok(_) => after == (Broker::Consuming { manifest, canonical, now }),
        },
        (Broker::Consuming { manifest, canonical, now }, BrokerEvent::Consumed(changed)) =>
            if changed != 1 {
            refused(after, "trusted approval was already consumed"@)
        } else {
            after matches Broker::Running { operation, transport } && operation
                == manifest.operation && opened(state, manifest, canonical@, transport)
        },
        _ => true,
    }
}

fn refuse(error: String) -> (r: Broker)
    ensures
        refused(r, error@),
{
    Broker::Refused { told: None, error }
}

fn turn_away(error: String) -> (r: Broker)
    ensures
        turned_away(r, error@),
{
    let told = Some(text::owned(error.as_str()));
    Broker::Refused { told, error }
}

/// Answers a first frame, with the nonce that was drawn for it, if one was.
pub fn answer_start(
    state: &GateState,
    frame: &TrustedClientFrame,
    drawn: Option<[u8; 32]>,
    now: i64,
    policy_version: &str,
) -> (r: Broker)
    requires
        now <= i64::MAX - 3600,
    ensures
        started_with(
            *state,
            frame@,
            match drawn {
                Some(nonce) => Some(nonce@),
                None => None,
            },
            now,
            policy_version@,
            r,
        ),
{
    match state.challenge_with_draw(frame, drawn, now, policy_version) {
        Ok(manifest) => Broker::Encoding { manifest },
        Err(e) => refuse(e),
    }
}

impl Broker {
    /// Takes a request one step on. A first frame gets a fresh nonce.
    pub fn step(self, state: &GateState, event: BrokerEvent) -> (r: Broker)
        requires
            expects(self, event),
        ensures
            stepped(*state, self, event, r),
    {
        match (self, event) {
            (_, BrokerEvent::Failed(e)) => refuse(e),
            (Broker::Listening, BrokerEvent::Start { frame, now, policy_version }) => {
                let drawn = identity::random_bytes();
                answer_start(state, &frame, drawn, now, policy_version.as_str())
            },
            (Broker::Encoding { manifest }, BrokerEvent::Encoded(canonical)) => {
                let row = approval::pending_request(canonical.as_slice(), manifest.expires_at);
                let challenge = state.sign_challenge(manifest, canonical.as_slice());
                Broker::Storing { challenge, row }
            },
            (Broker::Storing { challenge, row }, BrokerEvent::Stored) => Broker::Challenged {
                challenge,
            },
            (Broker::Storing { challenge, row }, BrokerEvent::NotStored) => refuse(
                text::owned("request id already exists or approval database failed"),
            ),
            (Broker::Challenged { challenge }, BrokerEvent::Reply(frame)) => {
                match gate::expect_approval(frame, &challenge) {
                    Ok(approval) => Broker::Checking { approval },
                    Err(e) => turn_away(e),
                }
            },
            (
                Broker::Checking { approval },
                BrokerEvent::Evidence { canonical, keyring, now, policy_version },
            ) => {
                if let Err(e) = state.approve(
                    &approval.signed_manifest,
                    &canonical,
                    &keyring,
                    &approval.approver_public,
                    approval.approver_signature.as_slice(),
                    policy_version.as_str(),
                    now,
                ) {
                    return refuse(e);
                }
                match canonical {
                    Ok(bytes) => Broker::LookingUp {
                        manifest: approval.signed_manifest.manifest,
                        canonical: bytes,
                        now,
                    },
                    Err(e) => refuse(e),
                }
            },
            (Broker::LookingUp { manifest, canonical, now }, BrokerEvent::Row(row)) => {
                match approval::judge_stored(&row, canonical.as_slice(), now) {
                    Ok(_) => Broker::Consuming { manifest, canonical, now },
                    Err(e) => refuse(e),
                }
            },
            (Broker::Consuming { manifest, canonical, now }, BrokerEvent::Consumed(changed)) => {
                if let Err(e) = approval::judge_consumed(changed) {
                    return refuse(e);
                }
                match gate::open_transport(state, &manifest, canonical.as_slice()) {
                    Ok(transport) => Broker::Running { operation: manifest.operation, transport },
                    Err(e) => refuse(e),
                }
            },
            (broker, _) => broker,
        }
    }
}

// ---------- laws ----------

/// Whether some states and events are a course that a request can take.
pub open spec fn course(state: GateState, states: Seq<Broker>, events: Seq<BrokerEvent>) -> bool {
    &&& states.len() == events.len() + 1
    &&& states[0] is Listening
    &&& forall|i: int|
        0 <= i < events.len() ==> #[trigger] expects(states[i], events[i]) && stepped(
            state,
            states[i],
            events[i],
            states[i + 1],
        )
}

/// Nothing runs but what was asked for, challenged, approved and consumed:
/// where an operation runs, it is the one in the challenge that this broker
/// signed and stored, it is within the policy, the approval is for that very
/// challenge and bears an enrolled key's signature over its bytes, the stored
/// request was still pending with the same bytes, and it was consumed once.
pub proof fn law_nothing_runs_unapproved(
    state: GateState,
    states: Seq<Broker>,
    events: Seq<BrokerEvent>,
)
    requires
        course(state, states, events),
        states.last() is Running,
    ensures
        events.len() == 7,
        events[0] is Start,
        approval::start_refused(events[0]->Start_frame@) is None,
        states[3] is Challenged,
        states[3]->Challenged_challenge@.manifest.operation
            == events[0]->Start_frame@->Start_operation,
        states[4] is Checking,
        states[4]->approval.signed_manifest@ == states[3]->Challenged_challenge@,
        events[4] is Evidence,
        judged(
            state,
            states[4]->approval,
            events[4]->canonical,
            events[4]->keyring,
            events[4]->Evidence_now,
            events[4]->Evidence_policy_version@,
        ) is Ok,
        events[4]->canonical is Ok,
        events[5] matches BrokerEvent::Row(Some(row)) && row@.status == "pending"@
            && row@.manifest == events[4]->canonical->Ok_0@ && events[4]->Evidence_now
            <= row@.expires_at,
        events[6] == BrokerEvent::Consumed(1),
        states[7]->operation@ == events[0]->Start_frame@->Start_operation,
        policy::classified(states[7]->operation@) is Ok,
{
    assert(events.len() >= 1) by {
        if events.len() == 0 {
            assert(states.last() == states[0]);
        }
    }
    let n = events.len() as int;
    assert(expects(states[0], events[0]));
    lemma_goes_on(state, states, events, 1);
    assert(expects(states[1], events[1]));
    lemma_goes_on(state, states, events, 2);
    assert(expects(states[2], events[2]));
    lemma_goes_on(state, states, events, 3);
    assert(expects(states[3], events[3]));
    lemma_goes_on(state, states, events, 4);
    assert(expects(states[4], events[4]));
    lemma_goes_on(state, states, events, 5);
    assert(expects(states[5], events[5]));
    lemma_goes_on(state, states, events, 6);
    assert(expects(states[6], events[6]));
    assert(states[7] is Running || states[7] is Refused);
    if n > 7 {
        assert(expects(states[7], events[7]));
    }
}

/// A course that ends in an operation does not end, and meets no refusal, in a
/// state before it.
proof fn lemma_goes_on(state: GateState, states: Seq<Broker>, events: Seq<BrokerEvent>, i: int)
    requires
        course(state, states, events),
        states.last() is Running,
        0 <= i <= events.len(),
        !(states[i] is Running),
    ensures
        i < events.len(),
        !(states[i] is Refused),
        !(events[i] is Failed),
{
    if i == events.len() {
        assert(states.last() == states[i]);
    } else {
        assert(expects(states[i], events[i]));
        if events[i] is Failed {
            assert(states[i + 1] is Refused);
            if i + 1 < events.len() {
                assert(expects(states[i + 1], events[i + 1]));
            } else {
                assert(states.last() == states[i + 1]);
            }
        }
    }
}

/// A request that names an operation outside the policy gets no challenge.
pub proof fn law_no_challenge_outside_the_policy(
    state: GateState,
    frame: TrustedClientFrame,
    now: i64,
    policy_version: String,
    after: Broker,
)
    requires
        frame@ matches ClientFrameView::Start {
            request_id,
            operation,
            client_ephemeral_public,
        } && policy::classified(operation) is Err,
        stepped(
            state,
            Broker::Listening,
            BrokerEvent::Start { frame, now, policy_version },
            after,
        ),
    ensures
        after is Refused,
{
}

/// A request whose stored row was consumed before never runs, whatever is
/// presented with it.
pub proof fn law_a_consumed_request_never_runs(
    state: GateState,
    states: Seq<Broker>,
    events: Seq<BrokerEvent>,
    at: int,
    row: StoredView,
)
    requires
        course(state, states, events),
        0 <= at < events.len(),
        events[at] matches BrokerEvent::Row(Some(found)) && found@ == approval::consumed(row),
    ensures
        !(states.last() is Running),
{
    if states.last() is Running {
        law_nothing_runs_unapproved(state, states, events);
        lemma_row_comes_fifth(state, states, events, at);
        reveal_strlit("pending");
        reveal_strlit("consumed");
        assert("pending"@.len() != "consumed"@.len());
    }
}

/// On a course that ends in an operation, the stored row is looked up once.
proof fn lemma_row_comes_fifth(
    state: GateState,
    states: Seq<Broker>,
    events: Seq<BrokerEvent>,
    at: int,
)
    requires
        course(state, states, events),
        states.last() is Running,
        0 <= at < events.len(),
        events[at] is Row,
    ensures
        at == 5,
{
    law_nothing_runs_unapproved(state, states, events);
    assert(expects(states[at], events[at]));
    assert(states[at] is LookingUp);
    assert(expects(states[0], events[0]));
    assert(expects(states[1], events[1]));
    assert(expects(states[2], events[2]));
    assert(expects(states[3], events[3]));
    assert(expects(states[4], events[4]));
    assert(expects(states[5], events[5]));
    assert(expects(states[6], events[6]));
}

/// One request to a broker, from the first frame on. Brokers may differ from
/// course to course: one may have been started anew.
pub struct Course {
    pub state: GateState,
    pub states: Seq<Broker>,
    pub events: Seq<BrokerEvent>,
}

impl Course {
    /// Whether the operation of the course runs.
    pub open spec fn runs(self) -> bool {
        self.states.last() is Running
    }
}

/// What a course leaves of the row that the database held: it is consumed
/// where the operation runs.
pub open spec fn left_by(row: StoredView, course: Course) -> StoredView {
    if course.runs() {
        approval::consumed(row)
    } else {
        row
    }
}

/// The row that the database holds after some courses.
pub open spec fn row_after(row: StoredView, courses: Seq<Course>) -> StoredView
    decreases courses.len(),
{
    if courses.len() == 0 {
        row
    } else {
        left_by(row_after(row, courses.drop_last()), courses.last())
    }
}

/// Whether some courses, one after the other, all look one stored row up: each
/// finds what the ones before have left.
pub open spec fn share_a_row(row: StoredView, courses: Seq<Course>) -> bool {
    forall|i: int|
        0 <= i < courses.len() ==> course(
            (#[trigger] courses[i]).state,
            courses[i].states,
            courses[i].events,
        ) && (forall|at: int|
            0 <= at < courses[i].events.len() && (#[trigger] courses[i].events[at] matches
                BrokerEvent::Row(Some(found))) ==> courses[i].events[at]->Row_0->0@ == row_after(
                row,
                courses.take(i),
            ))
}

proof fn lemma_stays_consumed(row: StoredView, courses: Seq<Course>, i: int, j: int)
    requires
        0 <= i < j <= courses.len(),
        courses[i].runs(),
    ensures
        row_after(row, courses.take(j)).status == "consumed"@,
    decreases j - i,
{
    assert(courses.take(j).drop_last() =~= courses.take(j - 1));
    assert(courses.take(j).last() == courses[j - 1]);
    if j > i + 1 {
        lemma_stays_consumed(row, courses, i, j - 1);
    }
}

/// An approval is good for exactly one use: of all the requests, to this broker
/// or to one that was started anew, that look one stored row up, at most one
/// runs. What it runs is what was challenged.
pub proof fn law_an_approval_runs_once(row: StoredView, courses: Seq<Course>, i: int, j: int)
    requires
        share_a_row(row, courses),
        0 <= i < j < courses.len(),
        courses[i].runs(),
    ensures
        !courses[j].runs(),
        courses[i].states[6] is Consuming,
        courses[i].states[6]->Consuming_manifest@
            == courses[i].states[3]->Challenged_challenge@.manifest,
        courses[i].states[7]->operation == courses[i].states[6]->Consuming_manifest.operation,
{
    let first = courses[i];
    law_nothing_runs_unapproved(first.state, first.states, first.events);
    assert(expects(first.states[3], first.events[3]));
    assert(expects(first.states[4], first.events[4]));
    assert(expects(first.states[5], first.events[5]));
    assert(expects(first.states[6], first.events[6]));
    let second = courses[j];
    if second.runs() {
        law_nothing_runs_unapproved(second.state, second.states, second.events);
        lemma_stays_consumed(row, courses, i, j);
        assert(second.events[5] is Row);
        assert(second.events[5]->Row_0->0@ == row_after(row, courses.take(j)));
        reveal_strlit("pending");
        reveal_strlit("consumed");
        assert("pending"@.len() != "consumed"@.len());
    }
}

/// A failure outside ends a request, with its words, and tells the client
/// nothing.
pub proof fn law_failures_end_a_request(
    broker: Broker,
    state: &GateState,
    e: String,
    r: Broker,
)
    requires
        call_ensures(Broker::step, (broker, state, BrokerEvent::Failed(e)), r),
    ensures
        r matches Broker::Refused { told, error } && told is None && error@ == e@,
{
}

/// A first frame is answered with a manifest around the nonce that was drawn;
/// what is refused is refused for its reason.
pub proof fn law_starts_are_answered(
    state: &GateState,
    frame: &TrustedClientFrame,
    nonce: [u8; 32],
    now: i64,
    policy_version: &str,
    r: Broker,
    manifest: Result<TrustedManifest, String>,
)
    requires
        call_ensures(answer_start, (state, frame, Some(nonce), now, policy_version), r),
        call_ensures(
            GateState::challenge_with_nonce,
            (state, frame, nonce, now, policy_version),
            manifest,
        ),
        now <= i64::MAX - 3600,
    ensures
        manifest matches Ok(m) ==> (r matches Broker::Encoding { manifest: n } && n@ == m@),
        manifest matches Err(e) ==> (r matches Broker::Refused { told, error } && told is None
            && error@ == e@),
{
}

/// An encoded manifest is signed by this host and stored as pending, with the
/// same bytes and the same time.
pub proof fn law_challenges_are_stored(
    state: &GateState,
    manifest: TrustedManifest,
    canonical: Vec<u8>,
    r: Broker,
)
    requires
        call_ensures(
            Broker::step,
            (Broker::Encoding { manifest }, state, BrokerEvent::Encoded(canonical)),
            r,
        ),
    ensures
        r matches Broker::Storing { challenge, row } && challenge.manifest@ == manifest@
            && challenge.host_identity_public@ == identity::ed25519_public_of(state.host_signing@)
            && challenge.signature@ == identity::ed25519_signature(
            state.host_signing@,
            canonical@,
        ) && row.manifest@ == canonical@ && row.status@ == "pending"@ && row.expires_at
            == manifest.expires_at,
{
    if let Broker::Storing { challenge, row } = r {
        assert(challenge@.manifest == challenge.manifest@ && challenge@.host_identity_public
            == challenge.host_identity_public@ && challenge@.signature == challenge.signature@);
        assert(row@.manifest == row.manifest@ && row@.status == row.status@ && row@.expires_at
            == row.expires_at);
        assert(manifest@.expires_at == manifest.expires_at);
    }
}

/// A stored challenge is sent; one that could not be stored is not.
pub proof fn law_only_stored_challenges_are_sent(
    state: &GateState,
    challenge: SignedTrustedManifest,
    row: StoredRequest,
    sent: Broker,
    unsent: Broker,
)
    requires
        call_ensures(
            Broker::step,
            (Broker::Storing { challenge, row }, state, BrokerEvent::Stored),
            sent,
        ),
        call_ensures(
            Broker::step,
            (Broker::Storing { challenge, row }, state, BrokerEvent::NotStored),
            unsent,
        ),
    ensures
        sent matches Broker::Challenged { challenge: c } && c == challenge,
        unsent matches Broker::Refused { told, error } && told is None && error@
            == "request id already exists or approval database failed"@,
{
}

/// The approval of a challenge goes on to be checked as it was sent; any other
/// answer is turned away, and the client is told.
pub proof fn law_answers_are_checked_or_turned_away(
    state: &GateState,
    challenge: SignedTrustedManifest,
    frame: TrustedClientFrame,
    r: Broker,
)
    requires
        call_ensures(
            Broker::step,
            (Broker::Challenged { challenge }, state, BrokerEvent::Reply(frame)),
            r,
        ),
    ensures
        frame matches TrustedClientFrame::Approve {
            signed_manifest,
            approver_public,
            approver_signature,
        } ==> (signed_manifest@ == challenge@ ==> (r matches Broker::Checking { approval }
            && approval.signed_manifest@ == signed_manifest@ && approval.approver_public@
            == approver_public@ && approval.approver_signature@ == approver_signature@)),
        frame matches TrustedClientFrame::Approve {
            signed_manifest,
            approver_public,
            approver_signature,
        } ==> (signed_manifest@ != challenge@ ==> r is Refused),
        frame !is Approve ==> r is Refused,
        r matches Broker::Refused { told, error } ==> told is Some && told->0@ == error@,
{
}

/// A checked approval is looked up with the bytes and the time it was checked
/// with; a failed one is refused.
pub proof fn law_checked_approvals_are_looked_up(
    state: &GateState,
    approval: Approval,
    canonical: Result<Vec<u8>, String>,
    keyring: Result<String, String>,
    now: i64,
    policy_version: String,
    r: Broker,
)
    requires
        call_ensures(
            Broker::step,
            (
                Broker::Checking { approval },
                state,
                BrokerEvent::Evidence { canonical, keyring, now, policy_version },
            ),
            r,
        ),
    ensures
        judged(*state, approval, canonical, keyring, now, policy_version@) is Ok ==> (r
            matches Broker::LookingUp { manifest, canonical: c, now: n } && manifest
            == approval.signed_manifest.manifest && canonical is Ok && c == canonical->Ok_0 && n
            == now),
        judged(*state, approval, canonical, keyring, now, policy_version@) matches Err(e) ==> (r
            matches Broker::Refused { told, error } && told is None && error@ == e),
{
}

/// A stored request is consumed only where it is still pending, with the very
/// bytes, in time; and the operation runs only where exactly one was consumed.
pub proof fn law_requests_are_consumed_before_they_run(
    state: &GateState,
    manifest: TrustedManifest,
    canonical: Vec<u8>,
    now: i64,
    row: Option<StoredRequest>,
    changed: usize,
    looked: Broker,
    ran: Broker,
)
    requires
        call_ensures(
            Broker::step,
            (
                Broker::LookingUp { manifest, canonical, now },
                state,
                BrokerEvent::Row(row),
            ),
            looked,
        ),
        call_ensures(
            Broker::step,
            (
                Broker::Consuming { manifest, canonical, now },
                state,
                BrokerEvent::Consumed(changed),
            ),
            ran,
        ),
    ensures
        looked is Consuming <==> row is Some && row->0.manifest@ == canonical@ && row->0.status@
            == "pending"@ && now <= row->0.expires_at,
        looked is Consuming || looked is Refused,
        looked matches Broker::Consuming { manifest: m, canonical: c, now: n } ==> m == manifest
            && c == canonical && n == now,
        ran is Running <==> changed == 1,
        ran is Running || ran is Refused,
        ran matches Broker::Running { operation, transport } ==> operation == manifest.operation
            && transport@.request_id == manifest.request_id@,
{
    if let Some(s) = row {
        assert(s@.manifest == s.manifest@ && s@.status == s.status@ && s@.expires_at
            == s.expires_at);
    }
    assert(manifest@.request_id == manifest.request_id@);
}

/// A running operation speaks through the transport that was opened for its
/// manifest and its bytes.
pub proof fn law_running_operations_speak_in_private(
    state: &GateState,
    manifest: TrustedManifest,
    canonical: Vec<u8>,
    now: i64,
    r: Broker,
    opened: Result<Transport, String>,
    bytes: &[u8],
)
    requires
        call_ensures(
            Broker::step,
            (
                Broker::Consuming { manifest, canonical, now },
                state,
                BrokerEvent::Consumed(1),
            ),
            r,
        ),
        bytes@ == canonical@,
        call_ensures(gate::open_transport, (state, &manifest, bytes), opened),
    ensures
        opened is Ok,
        r matches Broker::Running { operation, transport } && transport@ == opened->Ok_0@,
{
}

}
