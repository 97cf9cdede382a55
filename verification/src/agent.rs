//! The agent itself: how it gets its token, what it says it can do, and where
//! the input of terminals goes.

use crate::docker::SwarmRole;
use crate::registry::Registry;
use crate::text;
use vstd::prelude::*;

verus! {

/// Why a message to the control plane was not accepted.
#[derive(Debug, Clone, Copy, PartialEq, Eq, Structural)]
pub enum OutgoingSendError {
    /// The bounded queue is full: dropping the message is safer than letting
    /// work pile up in memory.
    Full,
    /// The writer has stopped and takes no more messages.
    Closed,
}

// ---------- the token ----------

/// A token as a file holds it: trimmed, and none where nothing is left.
pub open spec fn token_in(contents: Option<Seq<char>>) -> Option<Seq<char>> {
    match contents {
        Some(c) => if text::trimmed(c).len() == 0 {
            None
        } else {
            Some(text::trimmed(c))
        },
        None => None,
    }
}

fn read_token(contents: Option<&str>) -> (r: Option<String>)
    ensures
        text::opt_text(r) == token_in(
            match contents {
                Some(c) => Some(c@),
                None => None,
            },
        ),
{
    match contents {
        Some(c) => {
            let t = text::trim(c);
            if t.as_str().is_empty() {
                None
            } else {
                Some(t)
            }
        },
        None => None,
    }
}

/// The token that is stored: in the usual place, else in the working directory.
pub fn stored_token(primary: Option<&str>, fallback: Option<&str>) -> (r: Option<String>)
    ensures
        ({
            let first = token_in(
                match primary {
                    Some(c) => Some(c@),
                    None => None,
                },
            );
            let second = token_in(
                match fallback {
                    Some(c) => Some(c@),
                    None => None,
                },
            );
            text::opt_text(r) == (if first is Some {
                first
            } else {
                second
            })
        }),
{
    match read_token(primary) {
        Some(t) => Some(t),
        None => read_token(fallback),
    }
}

/// What the server answered to a poll for the token.
#[derive(Debug)]
pub enum TokenReply {
    Token(String),
    Error(String),
    /// The server was not reached, or its answer could not be read.
    Unreadable,
}

/// What follows from it.
#[derive(Debug)]
pub enum PollStep {
    /// Ask again after a while.
    Wait,
    /// Store the token and go on.
    Done(String),
    /// Give up, with these words.
    GiveUp(String),
}

/// Decides what follows from an answer to a poll.
pub fn poll_step(reply: TokenReply) -> (r: PollStep)
    ensures
        match reply {
            TokenReply::Token(token) => r == PollStep::Done(token),
            TokenReply::Error(error) => if error@ == "authorization_pending"@ {
                r is Wait
            } else {
                r matches PollStep::GiveUp(e) && e@ == "Authorization failed: "@ + error@
            },
            TokenReply::Unreadable => r is Wait,
        },
{
    match reply {
        TokenReply::Token(token) => PollStep::Done(token),
        TokenReply::Error(error) => if text::same(error.as_str(), "authorization_pending") {
            PollStep::Wait
        } else {
            PollStep::GiveUp(text::join2("Authorization failed: ", error.as_str()))
        },
        TokenReply::Unreadable => PollStep::Wait,
    }
}

/// Where a step of the device authorization is asked for.
pub fn device_url(api_url: &str, step: &str) -> (r: String)
    ensures
        r@ == api_url@ + "/api/device/"@ + step@,
{
    text::join3(api_url, "/api/device/", step)
}

/// The header that carries the token.
pub fn bearer(token: &str) -> (r: String)
    ensures
        r@ == "Bearer "@ + token@,
{
    text::join2("Bearer ", token)
}

// ---------- capabilities ----------

/// What the agent says it can do.
pub open spec fn able(systemd: bool, docker: bool, role: SwarmRole, k8s: bool) -> Seq<Seq<char>> {
    let a = if systemd {
        seq!["systemd"@]
    } else {
        Seq::empty()
    };
    let b = if docker {
        a.push("docker"@)
    } else {
        a
    };
    let c = if docker && role != SwarmRole::NotInSwarm {
        b.push("swarm"@)
    } else {
        b
    };
    if k8s {
        c.push("k8s"@)
    } else {
        c
    }
}

/// What the agent says it can do, from what its probes found.
pub fn capabilities(systemd: bool, docker: bool, role: SwarmRole, k8s: bool) -> (r: Vec<String>)
    ensures
        text::texts(r@) == able(systemd, docker, role, k8s),
{
    broadcast use text::lemma_texts_push;

    let mut r: Vec<String> = Vec::new();
    assert(text::texts(r@) =~= Seq::empty());
    if systemd {
        r.push(text::owned("systemd"));
        assert(text::texts(r@) =~= seq!["systemd"@]);
    }
    if docker {
        r.push(text::owned("docker"));
        if role != SwarmRole::NotInSwarm {
            r.push(text::owned("swarm"));
        }
    }
    if k8s {
        r.push(text::owned("k8s"));
    }
    r
}

/// Takes fresh capabilities over, and says whether they are news.
pub fn update_capabilities(current: &mut Vec<String>, fresh: Vec<String>) -> (r: bool)
    ensures
        r == (text::texts(old(current)@) != text::texts(fresh@)),
        text::texts(final(current)@) == text::texts(fresh@),
{
    if text::same_texts(current.as_slice(), fresh.as_slice()) {
        false
    } else {
        *current = fresh;
        true
    }
}

// ---------- the connection ----------

/// Whether the connection has been silent for so long that it must be dead:
/// more than 75 seconds.
pub fn is_idle(silent_nanos: u128) -> (r: bool)
    ensures
        r == (silent_nanos > 75_000_000_000),
{
    silent_nanos > 75_000_000_000
}

// ---------- answers ----------

/// Lets a request through on a manager of a swarm only.
pub fn require_manager(role: SwarmRole) -> (r: Result<(), String>)
    ensures
        text::outcome(r) == (if role == SwarmRole::Manager {
            Ok(())
        } else {
            Err("not a swarm manager"@)
        }),
{
    if role == SwarmRole::Manager {
        Ok(())
    } else {
        Err(text::owned("not a swarm manager"))
    }
}

/// A list as it is answered.
#[derive(Debug)]
pub struct Listing<T> {
    pub available: bool,
    pub items: Vec<T>,
    pub error: Option<String>,
}

/// Answers with a list, or with an empty one and what went wrong.
pub fn listing<T>(r: Result<Vec<T>, String>) -> (l: Listing<T>)
    ensures
        match r {
            Ok(items) => l.available && l.items == items && l.error is None,
            Err(e) => !l.available && l.items@.len() == 0 && l.error == Some(e),
        },
{
    match r {
        Ok(items) => Listing { available: true, items, error: None },
        Err(e) => Listing { available: false, items: Vec::new(), error: Some(e) },
    }
}

/// The first of two errors.
pub fn first_error(a: Option<String>, b: Option<String>) -> (r: Option<String>)
    ensures
        r == (if a is Some {
            a
        } else {
            b
        }),
{
    match a {
        Some(e) => Some(e),
        None => b,
    }
}

// ---------- terminals ----------

/// The terminals that are open: shells of the host, shells in pods, and at
/// most one shell in a container.
pub struct Sessions<T, K> {
    host: Registry<T>,
    pods: Registry<K>,
    container: Option<T>,
}

/// The terminals that are open.
pub struct SessionsView<T, K> {
    pub host: Map<Seq<char>, T>,
    pub pods: Map<Seq<char>, K>,
    pub container: Option<T>,
}

impl<T, K> View for Sessions<T, K> {
    type V = SessionsView<T, K>;

    closed spec fn view(&self) -> SessionsView<T, K> {
        SessionsView { host: self.host@, pods: self.pods@, container: self.container }
    }
}

/// What is done about a request for a shell of the host.
#[derive(Debug, Clone, Copy, PartialEq, Eq, Structural)]
pub enum StartTerminal {
    /// Without a name there is no shell.
    NoName,
    /// The shell is open already and stays as it is.
    Open,
    /// Open one.
    Spawn,
}

/// Where the input of a terminal goes.
pub enum Target<'a, T, K> {
    Container(&'a T),
    Host(&'a T),
    Pod(&'a K),
    Nobody,
}

/// Where the input of a terminal goes: without a name to the container, with
/// one to the host's shell of that name, else to the pod's.
pub open spec fn routed<'a, T, K>(s: SessionsView<T, K>, id: Seq<char>, t: Target<'a, T, K>) -> bool {
    if id.len() == 0 {
        match s.container {
            Some(c) => t matches Target::Container(x) && *x == c,
            None => t is Nobody,
        }
    } else if s.host.contains_key(id) {
        t matches Target::Host(x) && *x == s.host[id]
    } else if s.pods.contains_key(id) {
        t matches Target::Pod(x) && *x == s.pods[id]
    } else {
        t is Nobody
    }
}

impl<T, K> Sessions<T, K> {
    /// No name comes twice among the shells of the host, nor among those in
    /// pods.
    pub closed spec fn well_formed(&self) -> bool {
        self.host.well_formed() && self.pods.well_formed()
    }

    /// No terminals yet.
    pub fn new() -> (r: Self)
        ensures
            r.well_formed(),
            r@.host == Map::<Seq<char>, T>::empty(),
            r@.pods == Map::<Seq<char>, K>::empty(),
            r@.container is None,
    {
        Sessions { host: Registry::new(), pods: Registry::new(), container: None }
    }

    /// Decides on a request for a shell of the host.
    pub fn start(&self, id: &str) -> (r: StartTerminal)
        requires
            self.well_formed(),
        ensures
            r == (if id@.len() == 0 {
                StartTerminal::NoName
            } else if self@.host.contains_key(id@) {
                StartTerminal::Open
            } else {
                StartTerminal::Spawn
            }),
    {
        if id.is_empty() {
            StartTerminal::NoName
        } else if self.host.get(id).is_some() {
            StartTerminal::Open
        } else {
            StartTerminal::Spawn
        }
    }

    /// Takes up a shell of the host.
    pub fn opened(&mut self, id: &str, session: T) -> (r: Option<T>)
        requires
            old(self).well_formed(),
        ensures
            final(self).well_formed(),
            final(self)@ == (SessionsView {
                host: old(self)@.host.insert(id@, session),
                ..old(self)@
            }),
            match r {
                Some(t) => old(self)@.host.contains_key(id@) && t == old(self)@.host[id@],
                None => !old(self)@.host.contains_key(id@),
            },
    {
        self.host.insert(id, session)
    }

    /// Lets go of the shell in a pod that a request for the same name
    /// supersedes.
    pub fn supersede_pod(&mut self, id: &str) -> (r: Option<K>)
        requires
            old(self).well_formed(),
        ensures
            final(self).well_formed(),
            final(self)@ == (SessionsView { pods: old(self)@.pods.remove(id@), ..old(self)@ }),
            match r {
                Some(k) => old(self)@.pods.contains_key(id@) && k == old(self)@.pods[id@],
                None => !old(self)@.pods.contains_key(id@),
            },
    {
        self.pods.remove(id)
    }

    /// Takes up a shell in a pod.
    pub fn opened_pod(&mut self, id: &str, session: K) -> (r: Option<K>)
        requires
            old(self).well_formed(),
        ensures
            final(self).well_formed(),
            final(self)@ == (SessionsView {
                pods: old(self)@.pods.insert(id@, session),
                ..old(self)@
            }),
            match r {
                Some(k) => old(self)@.pods.contains_key(id@) && k == old(self)@.pods[id@],
                None => !old(self)@.pods.contains_key(id@),
            },
    {
        self.pods.insert(id, session)
    }

    /// Lets go of the shells of a name, the host's and the pod's.
    pub fn stop(&mut self, id: &str) -> (r: (Option<T>, Option<K>))
        requires
            old(self).well_formed(),
        ensures
            final(self).well_formed(),
            final(self)@ == (SessionsView {
                host: old(self)@.host.remove(id@),
                pods: old(self)@.pods.remove(id@),
                ..old(self)@
            }),
            match r.0 {
                Some(t) => old(self)@.host.contains_key(id@) && t == old(self)@.host[id@],
                None => !old(self)@.host.contains_key(id@),
            },
            match r.1 {
                Some(k) => old(self)@.pods.contains_key(id@) && k == old(self)@.pods[id@],
                None => !old(self)@.pods.contains_key(id@),
            },
    {
        let host = self.host.remove(id);
        let pod = self.pods.remove(id);
        (host, pod)
    }

    /// Puts another shell, or none, in the place of the one in a container.
    pub fn replace_container(&mut self, session: Option<T>) -> (r: Option<T>)
        requires
            old(self).well_formed(),
        ensures
            final(self).well_formed(),
            final(self)@ == (SessionsView { container: session, ..old(self)@ }),
            r == old(self)@.container,
    {
        let mut other = session;
        std::mem::swap(&mut self.container, &mut other);
        other
    }

    /// Finds where the input of a terminal goes.
    pub fn route<'a>(&'a self, id: &str) -> (r: Target<'a, T, K>)
        requires
            self.well_formed(),
        ensures
            routed(self@, id@, r),
    {
        if id.is_empty() {
            return match &self.container {
                Some(s) => Target::Container(s),
                None => Target::Nobody,
            };
        }
        match self.host.get(id) {
            Some(s) => Target::Host(s),
            None => match self.pods.get(id) {
                Some(s) => Target::Pod(s),
                None => Target::Nobody,
            },
        }
    }
}

// ---------- laws ----------

/// Where a shell of the host and one in a pod share a name, the host's gets
/// the input.
pub proof fn law_the_host_wins<'a, T, K>(
    s: SessionsView<T, K>,
    id: Seq<char>,
    t: Target<'a, T, K>,
)
    requires
        id.len() > 0,
        s.host.contains_key(id),
        routed(s, id, t),
    ensures
        t matches Target::Host(x) && *x == s.host[id],
{
}

/// Once the shells of a name are stopped, no input under that name goes
/// anywhere.
pub proof fn law_stopped_terminals_get_nothing<'a, T, K>(
    s: SessionsView<T, K>,
    id: Seq<char>,
    t: Target<'a, T, K>,
)
    requires
        id.len() > 0,
        routed(
            SessionsView { host: s.host.remove(id), pods: s.pods.remove(id), ..s },
            id,
            t,
        ),
    ensures
        t is Nobody,
{
}

/// A swarm is claimed only together with Docker.
pub proof fn law_no_swarm_without_docker(systemd: bool, role: SwarmRole, k8s: bool)
    ensures
        !able(systemd, false, role, k8s).contains("swarm"@),
{
    reveal_strlit("systemd");
    reveal_strlit("swarm");
    reveal_strlit("k8s");
    assert("systemd"@.len() != "swarm"@.len());
    assert("k8s"@.len() != "swarm"@.len());
}

/// The token is that of the usual place where one is there, else that of the
/// working directory, each without the white space around it.
pub proof fn law_tokens_are_found(primary: Option<&str>, fallback: Option<&str>, r: Option<String>)
    requires
        call_ensures(stored_token, (primary, fallback), r),
    ensures
        primary is Some && text::trimmed(primary->0@).len() > 0 ==> r is Some && r->0@
            == text::trimmed(primary->0@),
        !(primary is Some && text::trimmed(primary->0@).len() > 0) && fallback is Some
            && text::trimmed(fallback->0@).len() > 0 ==> r is Some && r->0@ == text::trimmed(
            fallback->0@,
        ),
        !(primary is Some && text::trimmed(primary->0@).len() > 0) && !(fallback is Some
            && text::trimmed(fallback->0@).len() > 0) ==> r is None,
{
}

/// A token ends the polling; a pending authorization, or an answer that cannot
/// be read, is polled again; any other error ends it.
pub proof fn law_polls_go_on_while_pending(reply: TokenReply, r: PollStep)
    requires
        call_ensures(poll_step, (reply,), r),
    ensures
        reply matches TokenReply::Token(t) ==> r == PollStep::Done(t),
        r is Wait <==> reply is Unreadable || reply is Error && reply->Error_0@
            == "authorization_pending"@,
        reply matches TokenReply::Error(e) ==> (e@ != "authorization_pending"@ ==> (r
            matches PollStep::GiveUp(m) && m@ == "Authorization failed: "@ + e@)),
{
}

/// Requests go to the step of the device authorization, with the token in their
/// header.
pub proof fn law_requests_carry_the_token(
    api_url: &str,
    step: &str,
    token: &str,
    url: String,
    header: String,
)
    requires
        call_ensures(device_url, (api_url, step), url),
        call_ensures(bearer, (token,), header),
    ensures
        url@ == api_url@ + "/api/device/"@ + step@,
        header@ == "Bearer "@ + token@,
{
}

/// The agent claims exactly what its probes found, in a fixed order.
pub proof fn law_capabilities_are_those_found(
    systemd: bool,
    docker: bool,
    role: SwarmRole,
    k8s: bool,
    r: Vec<String>,
)
    requires
        call_ensures(capabilities, (systemd, docker, role, k8s), r),
    ensures
        text::texts(r@) == (if systemd {
            seq!["systemd"@]
        } else {
            Seq::empty()
        }) + (if docker {
            seq!["docker"@]
        } else {
            Seq::empty()
        }) + (if docker && role != SwarmRole::NotInSwarm {
            seq!["swarm"@]
        } else {
            Seq::empty()
        }) + (if k8s {
            seq!["k8s"@]
        } else {
            Seq::empty()
        }),
{
}

/// Fresh capabilities are taken over, and are news where they differ.
pub proof fn law_capabilities_are_taken_over(
    current: &mut Vec<String>,
    fresh: Vec<String>,
    r: bool,
)
    requires
        call_ensures(update_capabilities, (current, fresh), r),
    ensures
        text::texts(final(current)@) == text::texts(fresh@),
        r <==> text::texts(old(current)@) != text::texts(fresh@),
{
}

/// A connection is dead after more than 75 seconds of silence, and not before.
pub proof fn law_silence_ends_a_connection(silent_nanos: u128, r: bool)
    requires
        call_ensures(is_idle, (silent_nanos,), r),
    ensures
        r <==> silent_nanos > 75 * 1_000_000_000,
{
}

/// Only a manager of a swarm is let through.
pub proof fn law_only_managers_pass(role: SwarmRole, r: Result<(), String>)
    requires
        call_ensures(require_manager, (role,), r),
    ensures
        r is Ok <==> role == SwarmRole::Manager,
        r matches Err(e) ==> e@ == "not a swarm manager"@,
{
}

/// A list is answered as it is; a failure is answered as a list that is not
/// available, with the reason.
pub proof fn law_lists_are_answered<T>(r: Result<Vec<T>, String>, l: Listing<T>)
    requires
        call_ensures(listing::<T>, (r,), l),
    ensures
        l.available <==> r is Ok,
        r matches Ok(items) ==> l.items == items && l.error is None,
        r matches Err(e) ==> l.items@.len() == 0 && l.error == Some(e),
{
}

/// Of two errors the first is told.
pub proof fn law_the_first_error_is_told(a: Option<String>, b: Option<String>, r: Option<String>)
    requires
        call_ensures(first_error, (a, b), r),
    ensures
        a is Some ==> r == a,
        a is None ==> r == b,
{
}

/// A shell is opened under a name that is free, and none without a name.
pub proof fn law_shells_open_once<T, K>(s: &Sessions<T, K>, id: &str, r: StartTerminal)
    requires
        s.well_formed(),
        call_ensures(Sessions::<T, K>::start, (s, id), r),
    ensures
        id@.len() == 0 <==> r == StartTerminal::NoName,
        r == StartTerminal::Spawn <==> id@.len() > 0 && !s@.host.contains_key(id@),
        r == StartTerminal::Open <==> id@.len() > 0 && s@.host.contains_key(id@),
{
}

/// Input goes to the shell of its name: in a pod where the host has none of
/// that name, and to the container where there is no name.
pub proof fn law_input_reaches_its_shell<'a, T, K>(
    s: &'a Sessions<T, K>,
    id: &str,
    r: Target<'a, T, K>,
)
    requires
        s.well_formed(),
        call_ensures(Sessions::<T, K>::route, (s, id), r),
    ensures
        id@.len() > 0 && s@.host.contains_key(id@) ==> (r matches Target::Host(x) && *x
            == s@.host[id@]),
        id@.len() > 0 && !s@.host.contains_key(id@) && s@.pods.contains_key(id@) ==> (r
            matches Target::Pod(x) && *x == s@.pods[id@]),
        id@.len() > 0 && !s@.host.contains_key(id@) && !s@.pods.contains_key(id@) ==> r is Nobody,
        id@.len() == 0 && s@.container is Some ==> (r matches Target::Container(x) && *x
            == s@.container->0),
        id@.len() == 0 && s@.container is None ==> r is Nobody,
{
}

/// A shell that was taken up gets the input under its name.
pub proof fn law_opened_shells_get_their_input<'a, T, K>(
    s: &mut Sessions<T, K>,
    id: &str,
    session: T,
    superseded: Option<T>,
    after: &'a Sessions<T, K>,
    r: Target<'a, T, K>,
)
    requires
        id@.len() > 0,
        call_ensures(Sessions::<T, K>::opened, (s, id, session), superseded),
        *after == *final(s),
        call_ensures(Sessions::<T, K>::route, (after, id), r),
    ensures
        r matches Target::Host(x) && *x == session,
        superseded is Some <==> old(s)@.host.contains_key(id@),
        final(s)@.pods == old(s)@.pods,
        final(s)@.container == old(s)@.container,
{
}

/// A shell in a pod gets the input under its name, where the host has none of
/// that name.
pub proof fn law_opened_pods_get_their_input<'a, T, K>(
    s: &mut Sessions<T, K>,
    id: &str,
    session: K,
    superseded: Option<K>,
    after: &'a Sessions<T, K>,
    r: Target<'a, T, K>,
)
    requires
        id@.len() > 0,
        !old(s)@.host.contains_key(id@),
        call_ensures(Sessions::<T, K>::opened_pod, (s, id, session), superseded),
        *after == *final(s),
        call_ensures(Sessions::<T, K>::route, (after, id), r),
    ensures
        r matches Target::Pod(x) && *x == session,
        final(s)@.host == old(s)@.host,
        final(s)@.container == old(s)@.container,
{
}

/// What is stopped is handed back, and gets no input any more.
pub proof fn law_stopped_shells_are_handed_back<'a, T, K>(
    s: &mut Sessions<T, K>,
    id: &str,
    stopped: (Option<T>, Option<K>),
    after: &'a Sessions<T, K>,
    r: Target<'a, T, K>,
)
    requires
        id@.len() > 0,
        call_ensures(Sessions::<T, K>::stop, (s, id), stopped),
        *after == *final(s),
        call_ensures(Sessions::<T, K>::route, (after, id), r),
    ensures
        r is Nobody,
        stopped.0 is Some <==> old(s)@.host.contains_key(id@),
        stopped.0 matches Some(t) ==> t == old(s)@.host[id@],
        stopped.1 is Some <==> old(s)@.pods.contains_key(id@),
        stopped.1 matches Some(k) ==> k == old(s)@.pods[id@],
        final(s)@.container == old(s)@.container,
{
}

/// The shell in a container is the last one that was put there, and the one
/// before it is handed back.
pub proof fn law_one_container_at_a_time<'a, T, K>(
    s: &mut Sessions<T, K>,
    id: &str,
    session: Option<T>,
    before: Option<T>,
    after: &'a Sessions<T, K>,
    r: Target<'a, T, K>,
)
    requires
        id@.len() == 0,
        call_ensures(Sessions::<T, K>::replace_container, (s, session), before),
        *after == *final(s),
        call_ensures(Sessions::<T, K>::route, (after, id), r),
    ensures
        before == old(s)@.container,
        session matches Some(t) ==> (r matches Target::Container(x) && *x == t),
        session is None ==> r is Nobody,
{
}

/// A shell in a pod that is superseded is handed back and gets nothing more; all
/// other shells stay.
pub proof fn law_superseded_pods_are_handed_back<T, K>(
    s: &mut Sessions<T, K>,
    id: &str,
    r: Option<K>,
    other: Seq<char>,
)
    requires
        call_ensures(Sessions::<T, K>::supersede_pod, (s, id), r),
        other != id@,
    ensures
        r is Some <==> old(s)@.pods.contains_key(id@),
        r matches Some(k) ==> k == old(s)@.pods[id@],
        !final(s)@.pods.contains_key(id@),
        final(s)@.pods.contains_key(other) <==> old(s)@.pods.contains_key(other),
        old(s)@.pods.contains_key(other) ==> final(s)@.pods[other] == old(s)@.pods[other],
        final(s)@.host == old(s)@.host,
        final(s)@.container == old(s)@.container,
{
}

}
