//! Health probes: what a probe may run, what its outcome means, when it is
//! reported, and which probes run at all.

use crate::output;
use crate::output::CommandOutput;
use crate::registry::Registry;
use crate::text;
use vstd::prelude::*;
use vstd::utf8::encode_utf8;

verus! {

/// How much of a response body is read.
pub const HTTP_BODY_CAP: usize = 1048576;

/// What a probe finds.
#[derive(Debug, Clone, Copy, PartialEq, Eq, Structural)]
pub enum HealthProbeState {
    Green,
    Red,
}

/// A finding with what is said about it.
#[derive(Debug)]
pub struct Verdict {
    pub state: HealthProbeState,
    pub detail: String,
}

/// A finding with its text spelled out.
#[verifier::ext_equal]
pub struct VerdictView {
    pub state: HealthProbeState,
    pub detail: Seq<char>,
}

impl View for Verdict {
    type V = VerdictView;

    open spec fn view(&self) -> VerdictView {
        VerdictView { state: self.state, detail: self.detail@ }
    }
}

pub open spec fn red(detail: Seq<char>) -> VerdictView {
    VerdictView { state: HealthProbeState::Red, detail }
}

pub open spec fn green(detail: Seq<char>) -> VerdictView {
    VerdictView { state: HealthProbeState::Green, detail }
}

fn red_verdict(detail: String) -> (r: Verdict)
    ensures
        r@ == red(detail@),
{
    Verdict { state: HealthProbeState::Red, detail }
}

fn green_verdict(detail: String) -> (r: Verdict)
    ensures
        r@ == green(detail@),
{
    Verdict { state: HealthProbeState::Green, detail }
}

/// A failure before there was anything to judge: the stage, and what it said.
pub fn failed_at(stage: &str, error: &str) -> (r: Verdict)
    ensures
        r@ == red(stage@ + ": "@ + error@),
{
    red_verdict(text::join3(stage, ": ", error))
}

/// A probe that took too long.
pub fn timed_out(seconds: u64) -> (r: Verdict)
    ensures
        r@ == red("timeout after "@ + text::decimal(seconds as nat) + "s"@),
{
    red_verdict(text::join3("timeout after ", text::decimal_text(seconds).as_str(), "s"))
}

// ---------- HTTP ----------

/// Adds a chunk to a body, within the cap.
pub fn append_body_chunk(body: &mut Vec<u8>, chunk: &[u8]) -> (r: Result<(), ()>)
    ensures
        old(body)@.len() + chunk@.len() <= HTTP_BODY_CAP ==> r is Ok && final(body)@ == old(
            body,
        )@ + chunk@,
        old(body)@.len() + chunk@.len() > HTTP_BODY_CAP ==> r is Err && final(body)@ == old(
            body,
        )@,
{
    if body.len() > HTTP_BODY_CAP || chunk.len() > HTTP_BODY_CAP - body.len() {
        return Err(());
    }
    let mut copy = text::copy_bytes(chunk);
    body.append(&mut copy);
    Ok(())
}

/// The verdict on a body over the cap.
pub fn body_too_large() -> (r: Verdict)
    ensures
        r@ == red("response body exceeds "@ + text::decimal(HTTP_BODY_CAP as nat) + " bytes"@),
{
    red_verdict(
        text::join3("response body exceeds ", text::decimal_text(HTTP_BODY_CAP as u64).as_str(), " bytes"),
    )
}

/// Whether a status is the one that is expected: any success without one.
pub open spec fn status_ok(status: u16, expected: Option<u16>) -> bool {
    match expected {
        Some(want) => status == want,
        None => 200 <= status < 300,
    }
}

/// Judges a status: nothing where it is as expected.
pub fn judge_status(status: u16, expected: Option<u16>) -> (r: Option<Verdict>)
    ensures
        match r {
            None => status_ok(status, expected),
            Some(v) => !status_ok(status, expected) && v@ == red(
                "unexpected status "@ + text::decimal(status as nat),
            ),
        },
{
    let ok = match expected {
        Some(want) => status == want,
        None => status >= 200 && status < 300,
    };
    if ok {
        None
    } else {
        Some(red_verdict(text::join2("unexpected status ", text::decimal_text(status as u64).as_str())))
    }
}

/// The verdict on an expected status, and on the body where one is expected.
pub open spec fn http_judged(
    status: u16,
    wanted: Option<Seq<char>>,
    body: Seq<char>,
    quoted: Seq<char>,
) -> VerdictView {
    if wanted is Some && !text::occurs(wanted->0, body) {
        red("body missing "@ + quoted + " (status "@ + text::decimal(status as nat) + ")"@)
    } else {
        green("ok ("@ + text::decimal(status as nat) + ")"@)
    }
}

/// Judges a body that has been read as text; `quoted` is the wanted text in
/// quotes.
pub fn judge_body(status: u16, wanted: Option<&str>, body: &str, quoted: &str) -> (r: Verdict)
    ensures
        r@ == http_judged(
            status,
            match wanted {
                Some(w) => Some(w@),
                None => None,
            },
            body@,
            quoted@,
        ),
{
    if let Some(wanted) = wanted {
        if !text::contains_text(body, wanted) {
            return red_verdict(
                text::join5(
                    "body missing ",
                    quoted,
                    " (status ",
                    text::decimal_text(status as u64).as_str(),
                    ")",
                ),
            );
        }
    }
    green_verdict(text::join3("ok (", text::decimal_text(status as u64).as_str(), ")"))
}

/// Judges the bytes of a response with an expected status.
pub fn judge_response(status: u16, wanted: Option<&str>, bytes: &[u8]) -> (r: Verdict)
    ensures
        r@ == (match wanted {
            Some(w) => http_judged(
                status,
                Some(w@),
                output::lossy_text(bytes@),
                output::quoted_text(w@),
            ),
            None => http_judged(status, None, Seq::empty(), Seq::empty()),
        }),
{
    match wanted {
        Some(w) => {
            let body = output::decode_output(bytes);
            judge_body(status, wanted, body.as_str(), output::quoted(w).as_str())
        },
        None => judge_body(status, None, "", ""),
    }
}

// ---------- TCP ----------

/// The verdict on a connection that was made.
pub fn connected() -> (r: Verdict)
    ensures
        r@ == green("ok"@),
{
    green_verdict(text::owned("ok"))
}

// ---------- scripts ----------

/// Whether a script is named by a bare file name.
pub open spec fn script_ok(target: Seq<char>) -> bool {
    &&& target.len() > 0
    &&& !target.contains('/')
    &&& !target.contains('\\')
    &&& !text::occurs(".."@, target)
}

/// The refusal of a script, around its quoted name.
pub open spec fn script_refused(quoted: Seq<char>) -> Seq<char> {
    "invalid exec target "@ + quoted + " (must be a filename in /etc/shellfleet/probes.d/)"@
}

/// Words the refusal of a script.
pub fn refuse_script(quoted: &str) -> (r: Verdict)
    ensures
        r@ == red(script_refused(quoted@)),
{
    red_verdict(
        text::join3(
            "invalid exec target ",
            quoted,
            " (must be a filename in /etc/shellfleet/probes.d/)",
        ),
    )
}

/// The path of a script, from its name: always a file in the probes directory.
pub fn script_path(target: &str) -> (r: Result<String, Verdict>)
    ensures
        match r {
            Ok(path) => script_ok(text::trimmed(target@)) && path@ == "/etc/shellfleet/probes.d/"@
                + text::trimmed(target@),
            Err(v) => !script_ok(text::trimmed(target@)) && v@ == red(
                script_refused(output::quoted_text(text::trimmed(target@))),
            ),
        },
{
    let target = text::trim(target);
    let t = target.as_str();
    if t.is_empty() || text::contains_char(t, '/') || text::contains_char(t, '\\') || text::contains_text(t, "..") {
        return Err(refuse_script(output::quoted(t).as_str()));
    }
    Ok(text::join2("/etc/shellfleet/probes.d/", t))
}

/// The verdict on a script that is not there.
pub fn script_missing(path: &str) -> (r: Verdict)
    ensures
        r@ == red("script not found: "@ + path@),
{
    red_verdict(text::join2("script not found: ", path))
}

/// Whether a text is the name of a variable.
pub open spec fn variable_name(key: Seq<char>) -> bool {
    &&& key.len() > 0
    &&& forall|i: int| 0 <= i < key.len() ==> #[trigger] key[i] == '_' || text::is_alnum(key[i])
    &&& key[0] == '_' || text::is_alpha(key[0])
}

/// The variables that steer an interpreter.
pub open spec fn steering() -> Seq<Seq<char>> {
    seq![
        "PATH"@,
        "BASH_ENV"@,
        "ENV"@,
        "CDPATH"@,
        "GLOBIGNORE"@,
        "SHELLOPTS"@,
        "BASHOPTS"@,
        "PYTHONHOME"@,
        "PYTHONPATH"@,
        "PYTHONSTARTUP"@,
        "PERL5LIB"@,
        "PERL5OPT"@,
        "RUBYLIB"@,
        "RUBYOPT"@,
        "NODE_OPTIONS"@,
        "JAVA_TOOL_OPTIONS"@,
        "JDK_JAVA_OPTIONS"@,
    ]
}

/// Whether a variable may be set for a script: a proper name that steers
/// neither an interpreter nor a dynamic loader.
pub open spec fn safe_key(key: Seq<char>) -> bool {
    &&& variable_name(key)
    &&& !steering().contains(key)
    &&& !"LD_"@.is_prefix_of(key)
    &&& !"DYLD_"@.is_prefix_of(key)
}

fn steering_list() -> (r: Vec<String>)
    ensures
        text::texts(r@) == steering(),
{
    let mut r: Vec<String> = Vec::new();
    r.push(text::owned("PATH"));
    r.push(text::owned("BASH_ENV"));
    r.push(text::owned("ENV"));
    r.push(text::owned("CDPATH"));
    r.push(text::owned("GLOBIGNORE"));
    r.push(text::owned("SHELLOPTS"));
    r.push(text::owned("BASHOPTS"));
    r.push(text::owned("PYTHONHOME"));
    r.push(text::owned("PYTHONPATH"));
    r.push(text::owned("PYTHONSTARTUP"));
    r.push(text::owned("PERL5LIB"));
    r.push(text::owned("PERL5OPT"));
    r.push(text::owned("RUBYLIB"));
    r.push(text::owned("RUBYOPT"));
    r.push(text::owned("NODE_OPTIONS"));
    r.push(text::owned("JAVA_TOOL_OPTIONS"));
    r.push(text::owned("JDK_JAVA_OPTIONS"));
    assert(text::texts(r@) =~= steering());
    r
}

fn is_variable_name(key: &str) -> (r: bool)
    ensures
        r == variable_name(key@),
{
    let v = text::to_chars(key);
    if v.len() == 0 || (v[0] != '_' && !text::alpha(v[0])) {
        return false;
    }
    let mut i: usize = 0;
    while i < v.len()
        invariant
            i <= v@.len(),
            v@ == key@,
            forall|j: int| 0 <= j < i ==> #[trigger] key@[j] == '_' || text::is_alnum(key@[j]),
        decreases v@.len() - i,
    {
        if v[i] != '_' && !text::alnum(v[i]) {
            assert(!(key@[i as int] == '_' || text::is_alnum(key@[i as int])));
            return false;
        }
        i += 1;
    }
    true
}

/// Tests whether a variable may be set for a script.
pub fn is_safe_probe_env_key(key: &str) -> (r: bool)
    ensures
        r == safe_key(key@),
{
    is_variable_name(key) && !text::listed(steering_list().as_slice(), key) && !text::starts_with(key, "LD_")
        && !text::starts_with(key, "DYLD_")
}

pub open spec fn variables(v: Seq<(String, String)>) -> Seq<(Seq<char>, Seq<char>)> {
    v.map_values(|e: (String, String)| (e.0@, e.1@))
}

/// The variables that a script gets: a fixed path, then the safe ones of the
/// probe, in their order.
pub open spec fn vetted(env: Seq<Seq<char>>) -> Seq<(Seq<char>, Seq<char>)>
    decreases env.len(),
{
    if env.len() == 0 {
        seq![
            (
                "PATH"@,
                "/usr/local/sbin:/usr/local/bin:/usr/sbin:/usr/bin:/sbin:/bin"@,
            ),
        ]
    } else {
        let front = vetted(env.drop_last());
        let (key, value) = text::halves(env.last(), '=');
        if value is Some && safe_key(key) {
            front.push((key, value->0))
        } else {
            front
        }
    }
}

/// The variables that a script gets. Malformed and unsafe ones are left out.
pub fn probe_environment(env: &[String]) -> (r: Vec<(String, String)>)
    ensures
        variables(r@) == vetted(text::texts(env@)),
{
    let mut r: Vec<(String, String)> = Vec::new();
    r.push(
        (text::owned("PATH"), text::owned("/usr/local/sbin:/usr/local/bin:/usr/sbin:/usr/bin:/sbin:/bin")),
    );
    let mut i: usize = 0;
    assert(variables(r@) =~= vetted(text::texts(env@).take(0)));
    while i < env.len()
        invariant
            i <= env@.len(),
            variables(r@) == vetted(text::texts(env@).take(i as int)),
        decreases env@.len() - i,
    {
        assert(text::texts(env@).take(i + 1).drop_last() =~= text::texts(env@).take(i as int));
        assert(text::texts(env@).take(i + 1).last() == env@[i as int]@);
        let (key, value) = text::split_first(env[i].as_str(), '=');
        let ghost before = r@;
        if let Some(value) = value {
            if is_safe_probe_env_key(key.as_str()) {
                r.push((key, value));
                assert(variables(r@) =~= variables(before).push((key@, value@)));
            }
        }
        i += 1;
    }
    assert(text::texts(env@).take(i as int) =~= text::texts(env@));
    r
}

/// The first line of some.
pub open spec fn first_line(rows: Seq<Seq<char>>) -> Seq<char> {
    if rows.len() == 0 {
        Seq::empty()
    } else {
        rows[0]
    }
}

/// The verdict on a script that ran.
pub open spec fn script_judged(out: output::OutputView) -> VerdictView {
    let said = text::shortened(text::first_said(text::lines(out.stdout)), 200);
    if out.success {
        green(
            if said.len() == 0 {
                "ok"@
            } else {
                said
            },
        )
    } else {
        red(
            "exit "@ + text::signed_decimal(
                match out.code {
                    Some(code) => code as int,
                    None => -1,
                },
            ) + " "@ + (if said.len() > 0 {
                said
            } else {
                text::shortened(first_line(text::lines(out.stderr)), 200)
            }),
        )
    }
}

/// Judges a script that ran.
pub fn judge_script(out: &CommandOutput) -> (r: Verdict)
    ensures
        r@ == script_judged(out@),
{
    let said = text::shorten(text::first_said_line(out.stdout.as_str()).as_str(), 200);
    if out.success {
        if said.as_str().is_empty() {
            return green_verdict(text::owned("ok"));
        }
        return green_verdict(said);
    }
    let code: i64 = match out.code {
        Some(code) => code as i64,
        None => -1,
    };
    let detail = if !said.as_str().is_empty() {
        said
    } else {
        let rows = text::split_lines(out.stderr.as_str());
        assert(text::texts(rows@).len() == rows@.len());
        let first = if rows.len() == 0 {
            String::new()
        } else {
            assert(text::texts(rows@)[0] == rows@[0]@);
            text::owned(rows[0].as_str())
        };
        assert(first@ =~= first_line(text::lines(out.stderr@)));
        text::shorten(first.as_str(), 200)
    };
    red_verdict(text::join4("exit ", text::signed_text(code).as_str(), " ", detail.as_str()))
}

// ---------- timing and reporting ----------

/// Between probes, and for a probe: at least a second.
pub fn at_least_a_second(seconds: u32) -> (r: u64)
    ensures
        r == (if seconds < 1 {
            1
        } else {
            seconds as int
        }),
{
    if seconds < 1 {
        1
    } else {
        seconds as u64
    }
}

/// The sum of some bytes.
pub open spec fn byte_sum(bytes: Seq<u8>) -> nat
    decreases bytes.len(),
{
    if bytes.len() == 0 {
        0
    } else {
        byte_sum(bytes.drop_last()) + bytes.last() as nat
    }
}

/// How long a new probe waits first, in milliseconds, so that not all probes
/// of a host fire at once. It depends on the probe's name only.
pub fn jitter_ms(id: &str) -> (r: u64)
    ensures
        r == (byte_sum(encode_utf8(id@)) % 0x1_0000_0000_0000_0000) % 5000,
{
    let bytes = id.as_bytes();
    let mut sum: u64 = 0;
    let mut i: usize = 0;
    while i < bytes.len()
        invariant
            i <= bytes@.len(),
            sum as nat == byte_sum(bytes@.take(i as int)) % 0x1_0000_0000_0000_0000,
        decreases bytes@.len() - i,
    {
        sum = sum.wrapping_add(bytes[i] as u64);
        i += 1;
        assert(bytes@.take(i as int).drop_last() =~= bytes@.take(i - 1));
    }
    assert(bytes@.take(i as int) =~= bytes@);
    sum % 5000
}

/// A duration in milliseconds, held to what a report can carry.
pub fn latency_ms(elapsed: u128) -> (r: u32)
    ensures
        r == (if elapsed > u32::MAX {
            u32::MAX as int
        } else {
            elapsed as int
        }),
{
    if elapsed > 0xffff_ffff {
        0xffff_ffff
    } else {
        elapsed as u32
    }
}

/// What a probe last reported.
#[derive(Debug)]
pub struct ProbeMemory {
    pub last: Option<HealthProbeState>,
}

impl ProbeMemory {
    /// A probe that has reported nothing yet.
    pub fn new() -> (r: Self)
        ensures
            r.last is None,
    {
        ProbeMemory { last: None }
    }

    /// Takes a sample, and says whether it is reported: the first one, and
    /// every change.
    pub fn sample(&mut self, state: HealthProbeState) -> (r: bool)
        ensures
            r == (old(self).last != Some(state)),
            final(self).last == Some(state),
    {
        let changed = match self.last {
            Some(last) => last != state,
            None => true,
        };
        self.last = Some(state);
        changed
    }
}

/// What is reported of a run of samples: the first one, and every change.
pub open spec fn reported(samples: Seq<HealthProbeState>) -> Seq<HealthProbeState>
    decreases samples.len(),
{
    if samples.len() == 0 {
        Seq::empty()
    } else {
        let front = samples.drop_last();
        if front.len() > 0 && front.last() == samples.last() {
            reported(front)
        } else {
            reported(front).push(samples.last())
        }
    }
}

// ---------- the set of probes ----------

/// A probe that the control plane asks for, with the signature of everything
/// about it, where it has one.
#[derive(Debug)]
pub struct ProbeRequest {
    pub id: String,
    pub signature: Option<String>,
}

/// A request with its texts spelled out.
pub struct RequestView {
    pub id: Seq<char>,
    pub signature: Option<Seq<char>>,
}

impl View for ProbeRequest {
    type V = RequestView;

    open spec fn view(&self) -> RequestView {
        RequestView { id: self.id@, signature: text::opt_text(self.signature) }
    }
}

pub open spec fn requests(v: Seq<ProbeRequest>) -> Seq<RequestView> {
    v.map_values(|p: ProbeRequest| p@)
}

/// What is done to bring the running probes in line, in this order.
#[derive(Debug)]
pub enum ProbeAction {
    /// Stop the probe with this name.
    Stop(String),
    /// Start the probe at this place in the list.
    Start(usize),
}

/// An action with its text spelled out.
#[verifier::ext_equal]
pub enum ActionView {
    Stop(Seq<char>),
    Start(int),
}

impl View for ProbeAction {
    type V = ActionView;

    open spec fn view(&self) -> ActionView {
        match self {
            ProbeAction::Stop(id) => ActionView::Stop(id@),
            ProbeAction::Start(i) => ActionView::Start(*i as int),
        }
    }
}

pub open spec fn actions(v: Seq<ProbeAction>) -> Seq<ActionView> {
    v.map_values(|a: ProbeAction| a@)
}

/// The probes that run, by name, with their signatures.
pub struct HealthProbes {
    tasks: Registry<String>,
}

impl View for HealthProbes {
    type V = Map<Seq<char>, Seq<char>>;

    closed spec fn view(&self) -> Map<Seq<char>, Seq<char>> {
        self.tasks@.map_values(|s: String| s@)
    }
}

/// The names that a list of requests asks for.
pub open spec fn asked(requests: Seq<RequestView>) -> Set<Seq<char>>
    decreases requests.len(),
{
    if requests.len() == 0 {
        Set::empty()
    } else {
        let front = asked(requests.drop_last());
        if requests.last().signature is Some {
            front.insert(requests.last().id)
        } else {
            front
        }
    }
}

/// Whether a probe already runs as it is asked for.
pub open spec fn runs_as(running: Map<Seq<char>, Seq<char>>, p: RequestView) -> bool {
    running.contains_key(p.id) && Some(running[p.id]) == p.signature
}

/// The probes that run once a list of requests has been gone through, those
/// that nobody asked for included.
pub open spec fn started(running: Map<Seq<char>, Seq<char>>, requests: Seq<RequestView>) -> Map<
    Seq<char>,
    Seq<char>,
>
    decreases requests.len(),
{
    if requests.len() == 0 {
        running
    } else {
        let front = started(running, requests.drop_last());
        match requests.last().signature {
            Some(signature) => front.insert(requests.last().id, signature),
            None => front,
        }
    }
}

/// What is done while a list of requests is gone through: a probe that changed
/// is stopped and started again, a new one is started.
pub open spec fn steps(running: Map<Seq<char>, Seq<char>>, requests: Seq<RequestView>) -> Seq<
    ActionView,
>
    decreases requests.len(),
{
    if requests.len() == 0 {
        Seq::empty()
    } else {
        let before = requests.drop_last();
        let p = requests.last();
        let front = steps(running, before);
        let now = started(running, before);
        if p.signature is None || runs_as(now, p) {
            front
        } else if now.contains_key(p.id) {
            front.push(ActionView::Stop(p.id)).push(
                ActionView::Start(requests.len() - 1),
            )
        } else {
            front.push(ActionView::Start(requests.len() - 1))
        }
    }
}

/// The probes that run after a sync.
pub open spec fn synced(running: Map<Seq<char>, Seq<char>>, requests: Seq<RequestView>) -> Map<
    Seq<char>,
    Seq<char>,
> {
    started(running, requests).restrict(asked(requests))
}

impl HealthProbes {
    /// No probe runs twice.
    pub closed spec fn well_formed(&self) -> bool {
        self.tasks.well_formed()
    }

    /// No probes yet.
    pub fn new() -> (r: Self)
        ensures
            r.well_formed(),
            r@ == Map::<Seq<char>, Seq<char>>::empty(),
    {
        let r = HealthProbes { tasks: Registry::new() };
        assert(r@ =~= Map::<Seq<char>, Seq<char>>::empty());
        r
    }

    fn consider(&mut self, probes: &[ProbeRequest], i: usize, todo: &mut Vec<ProbeAction>)
        requires
            old(self).well_formed(),
            i < probes@.len(),
        ensures
            final(self).well_formed(),
            ({
                let p = probes@[i as int]@;
                let now = old(self)@;
                &&& final(self)@ == (match p.signature {
                    Some(signature) => now.insert(p.id, signature),
                    None => now,
                })
                &&& actions(final(todo)@) == (if p.signature is None || runs_as(now, p) {
                    actions(old(todo)@)
                } else if now.contains_key(p.id) {
                    actions(old(todo)@).push(ActionView::Stop(p.id)).push(
                        ActionView::Start(i as int),
                    )
                } else {
                    actions(old(todo)@).push(ActionView::Start(i as int))
                })
            }),
    {
        let ghost before = self@;
        let ghost first = todo@;
        let id = probes[i].id.as_str();
        if let Some(signature) = &probes[i].signature {
            let same_signature = match self.tasks.get(id) {
                Some(running) => text::same(running.as_str(), signature.as_str()),
                None => false,
            };
            if same_signature {
                assert(before.insert(id@, signature@) =~= before);
                return;
            }
            let superseded = self.tasks.insert(id, text::owned(signature.as_str()));
            assert(self@ =~= before.insert(id@, signature@));
            if superseded.is_some() {
                todo.push(ProbeAction::Stop(text::owned(id)));
                assert(actions(todo@) =~= actions(first).push(ActionView::Stop(id@)));
            }
            let ghost second = todo@;
            todo.push(ProbeAction::Start(i));
            assert(actions(todo@) =~= actions(second).push(ActionView::Start(i as int)));
        }
    }

    /// Brings the running probes in line with a list of requests, and says
    /// what is to be done for it: the steps for the list, then one stop for each
    /// probe that nobody asked for.
    pub fn sync(&mut self, probes: &[ProbeRequest]) -> (r: Vec<ProbeAction>)
        requires
            old(self).well_formed(),
        ensures
            final(self).well_formed(),
            final(self)@ == synced(old(self)@, requests(probes@)),
            ({
                let first = steps(old(self)@, requests(probes@));
                &&& first.len() <= r@.len()
                &&& actions(r@).take(first.len() as int) == first
                &&& forall|a: ActionView| #[trigger]
                    actions(r@).skip(first.len() as int).contains(a) <==> a is Stop && started(
                        old(self)@,
                        requests(probes@),
                    ).contains_key(a->Stop_0) && !asked(requests(probes@)).contains(a->Stop_0)
                &&& actions(r@).skip(first.len() as int).no_duplicates()
            }),
    {
        broadcast use text::lemma_texts_push;

        let ghost before = self@;
        let ghost all = requests(probes@);
        let mut todo: Vec<ProbeAction> = Vec::new();
        let mut keep: Vec<String> = Vec::new();
        let mut i: usize = 0;
        proof {
            assert(all.take(0) =~= Seq::empty());
            assert(actions(todo@) =~= Seq::empty());
            assert(text::texts(keep@) =~= Seq::empty());
        }
        while i < probes.len()
            invariant
                i <= probes@.len(),
                all == requests(probes@),
                self.well_formed(),
                self@ == started(before, all.take(i as int)),
                actions(todo@) == steps(before, all.take(i as int)),
                forall|k: Seq<char>| #[trigger]
                    text::texts(keep@).contains(k) <==> asked(all.take(i as int)).contains(k),
            decreases probes@.len() - i,
        {
            let ghost kept = text::texts(keep@);
            let ghost now = all.take(i + 1);
            assert(now.drop_last() =~= all.take(i as int));
            assert(now.last() == probes@[i as int]@);
            if probes[i].signature.is_some() {
                keep.push(text::owned(probes[i].id.as_str()));
                assert(text::texts(keep@) == kept.push(probes@[i as int].id@));
            }
            self.consider(probes, i, &mut todo);
            assert forall|k: Seq<char>| #[trigger] text::texts(keep@).contains(k) <==> asked(
                now,
            ).contains(k) by {
                if kept.contains(k) {
                    let j = choose|j: int| 0 <= j < kept.len() && kept[j] == k;
                    assert(text::texts(keep@)[j] == k);
                }
                if text::texts(keep@).contains(k) {
                    let j = choose|j: int| 0 <= j < text::texts(keep@).len() && text::texts(keep@)[j] == k;
                    if j < kept.len() {
                        assert(kept[j] == k);
                    }
                }
                if probes@[i as int].signature is Some && k == probes@[i as int].id@ {
                    assert(text::texts(keep@)[kept.len() as int] == k);
                }
            }
            i += 1;
        }
        assert(all.take(i as int) =~= all);
        let ghost full = self@;
        let ghost listed_names = asked(all);
        let ghost first = actions(todo@);
        let names = self.tasks.names();
        let mut k: usize = 0;
        assert(actions(todo@).take(first.len() as int) =~= first);
        assert(actions(todo@).skip(first.len() as int) =~= Seq::empty());
        while k < names.len()
            invariant
                k <= names@.len(),
                self.well_formed(),
                forall|n: Seq<char>| #[trigger]
                    text::texts(keep@).contains(n) <==> listed_names.contains(n),
                forall|n: Seq<char>| #[trigger]
                    text::texts(names@).contains(n) <==> full.contains_key(n),
                forall|n: Seq<char>|
                    #![trigger self@.contains_key(n)]
                    self@.contains_key(n) <==> full.contains_key(n) && (listed_names.contains(n)
                        || !text::texts(names@).take(k as int).contains(n)),
                forall|n: Seq<char>| #[trigger] self@.contains_key(n) ==> self@[n] == full[n],
                first.len() <= todo@.len(),
                actions(todo@).take(first.len() as int) == first,
                forall|a: ActionView| #[trigger]
                    actions(todo@).skip(first.len() as int).contains(a) <==> a is Stop && text::texts(
                        names@,
                    ).take(k as int).contains(a->Stop_0) && !listed_names.contains(a->Stop_0),
                text::texts(names@).no_duplicates(),
                actions(todo@).skip(first.len() as int).no_duplicates(),
            decreases names@.len() - k,
        {
            let ghost names_view = text::texts(names@);
            let ghost name = names@[k as int]@;
            let ghost running = self@;
            let ghost listing = actions(todo@);
            assert(names_view[k as int] == name);
            let ghost took = names_view.take(k as int);
            let ghost seen = names_view.take(k + 1);
            assert(seen =~= took.push(name));
            assert forall|n: Seq<char>| #[trigger] seen.contains(n) <==> n == name
                || took.contains(n) by {
                if took.contains(n) {
                    let j = choose|j: int| 0 <= j < took.len() && took[j] == n;
                    assert(seen[j] == n);
                }
                if seen.contains(n) {
                    let j = choose|j: int|
                        0 <= j < seen.len() && seen[j] == n;
                    if j < k {
                        assert(took[j] == n);
                    }
                }
                assert(seen[k as int] == name);
            }
            if !text::listed(keep.as_slice(), names[k].as_str()) {
                let dropped = self.tasks.remove(names[k].as_str());
                assert(self@ =~= running.remove(name));
                todo.push(ProbeAction::Stop(text::owned(names[k].as_str())));
                proof {
                    let n = first.len() as int;
                    let longer = actions(todo@);
                    assert(longer =~= listing.push(ActionView::Stop(name)));
                    assert(longer.take(n) =~= listing.take(n));
                    assert(longer.skip(n) =~= listing.skip(n).push(ActionView::Stop(name)));
                    assert(!took.contains(name)) by {
                        if took.contains(name) {
                            let j = choose|j: int| 0 <= j < took.len() && took[j] == name;
                            assert(names_view[j] == names_view[k as int]);
                        }
                    }
                    assert(!listing.skip(n).contains(ActionView::Stop(name)));
                    assert(longer.skip(n).no_duplicates());
                    assert forall|a: ActionView| #[trigger] longer.skip(n).contains(a) <==> a
                        is Stop && names_view.take(k + 1).contains(a->Stop_0)
                        && !listed_names.contains(a->Stop_0) by {
                        if listing.skip(n).contains(a) {
                            let j = choose|j: int|
                                0 <= j < listing.skip(n).len() && listing.skip(n)[j] == a;
                            assert(longer.skip(n)[j] == a);
                        }
                        if longer.skip(n).contains(a) {
                            let j = choose|j: int|
                                0 <= j < longer.skip(n).len() && longer.skip(n)[j] == a;
                            if j < listing.skip(n).len() {
                                assert(listing.skip(n)[j] == a);
                            }
                        }
                        assert(longer.skip(n)[listing.skip(n).len() as int] == ActionView::Stop(
                            name,
                        ));
                    }
                }
            }
            k += 1;
        }
        proof {
            assert(text::texts(names@).take(k as int) =~= text::texts(names@));
            assert(self@ =~= full.restrict(listed_names));
        }
        todo
    }
}

// ---------- laws ----------

proof fn lemma_asked_run(running: Map<Seq<char>, Seq<char>>, requests: Seq<RequestView>)
    ensures
        asked(requests).subset_of(started(running, requests).dom()),
    decreases requests.len(),
{
    if requests.len() > 0 {
        lemma_asked_run(running, requests.drop_last());
    }
}

/// After a sync exactly the probes run that were asked for.
pub proof fn law_sync_runs_what_was_asked(
    running: Map<Seq<char>, Seq<char>>,
    requests: Seq<RequestView>,
)
    ensures
        synced(running, requests).dom() == asked(requests),
{
    lemma_asked_run(running, requests);
    assert(synced(running, requests).dom() =~= asked(requests));
}

/// After a sync each probe runs as it was last asked for.
pub proof fn law_sync_runs_the_last_request(
    running: Map<Seq<char>, Seq<char>>,
    requests: Seq<RequestView>,
    i: int,
)
    requires
        0 <= i < requests.len(),
        requests[i].signature is Some,
        forall|j: int| i < j < requests.len() ==> (#[trigger] requests[j]).id != requests[i].id,
    ensures
        synced(running, requests).contains_key(requests[i].id),
        Some(synced(running, requests)[requests[i].id]) == requests[i].signature,
{
    lemma_last_request(running, requests, i);
}

proof fn lemma_last_request(
    running: Map<Seq<char>, Seq<char>>,
    requests: Seq<RequestView>,
    i: int,
)
    requires
        0 <= i < requests.len(),
        requests[i].signature is Some,
        forall|j: int| i < j < requests.len() ==> (#[trigger] requests[j]).id != requests[i].id,
    ensures
        asked(requests).contains(requests[i].id),
        started(running, requests).contains_key(requests[i].id),
        Some(started(running, requests)[requests[i].id]) == requests[i].signature,
    decreases requests.len(),
{
    if i < requests.len() - 1 {
        let front = requests.drop_last();
        assert(front[i] == requests[i]);
        assert forall|j: int| i < j < front.len() implies (#[trigger] front[j]).id != front[i].id by {
            assert(requests[j].id != requests[i].id);
        }
        lemma_last_request(running, front, i);
        assert(requests[requests.len() - 1].id != requests[i].id);
    }
}

/// A sync that asks for what already runs touches nothing of it.
pub proof fn law_unchanged_probes_are_left_alone(
    running: Map<Seq<char>, Seq<char>>,
    requests: Seq<RequestView>,
)
    requires
        forall|i: int| 0 <= i < requests.len() ==> runs_as(running, #[trigger] requests[i]),
    ensures
        steps(running, requests).len() == 0,
        started(running, requests) == running,
    decreases requests.len(),
{
    if requests.len() > 0 {
        let front = requests.drop_last();
        let p = requests.last();
        assert forall|i: int| 0 <= i < front.len() implies runs_as(
            running,
            #[trigger] front[i],
        ) by {
            assert(front[i] == requests[i]);
        }
        law_unchanged_probes_are_left_alone(running, front);
        assert(runs_as(running, requests[requests.len() - 1]));
        assert(running.insert(p.id, running[p.id]) =~= running);
    }
}

/// No two reports in a row say the same, and the last report is the last
/// sample.
pub proof fn law_reports_are_changes(samples: Seq<HealthProbeState>)
    ensures
        samples.len() > 0 ==> reported(samples).len() > 0 && reported(samples).last()
            == samples.last(),
        forall|i: int|
            0 < i < reported(samples).len() ==> #[trigger] reported(samples)[i] != reported(
                samples,
            )[i - 1],
    decreases samples.len(),
{
    if samples.len() > 0 {
        let front = samples.drop_last();
        law_reports_are_changes(front);
        assert(front.len() == 0 ==> reported(front).len() == 0);
        assert forall|i: int| 0 < i < reported(samples).len() implies #[trigger] reported(
            samples,
        )[i] != reported(samples)[i - 1] by {
            if i < reported(front).len() {
                assert(reported(front)[i] != reported(front)[i - 1]);
            }
        }
    }
}

/// No variable of a probe steers an interpreter or a loader, and none changes
/// the search path.
pub proof fn law_probe_environment_is_safe(env: Seq<Seq<char>>, i: int)
    requires
        0 <= i < vetted(env).len(),
    ensures
        vetted(env)[0] == (
            "PATH"@,
            "/usr/local/sbin:/usr/local/bin:/usr/sbin:/usr/bin:/sbin:/bin"@,
        ),
        i > 0 ==> safe_key(vetted(env)[i].0) && vetted(env)[i].0 != "PATH"@,
    decreases env.len(),
{
    if env.len() > 0 {
        let front = vetted(env.drop_last());
        lemma_vetted_some(env.drop_last());
        law_probe_environment_is_safe(env.drop_last(), 0);
        if i < front.len() {
            law_probe_environment_is_safe(env.drop_last(), i);
        }
        if i > 0 {
            assert(steering()[0] == "PATH"@);
            assert(steering().contains("PATH"@));
        }
    }
}

proof fn lemma_vetted_some(env: Seq<Seq<char>>)
    ensures
        vetted(env).len() > 0,
    decreases env.len(),
{
    if env.len() > 0 {
        lemma_vetted_some(env.drop_last());
    }
}

/// Without an expected status exactly the successes pass, from 200 through 299;
/// with one, exactly that one. Any other status is red and named.
pub proof fn law_statuses_are_judged(status: u16, expected: Option<u16>, r: Option<Verdict>)
    requires
        call_ensures(judge_status, (status, expected), r),
    ensures
        expected is None ==> (r is None <==> status / 100 == 2),
        expected matches Some(want) ==> (r is None <==> status == want),
        r matches Some(v) ==> v.state == HealthProbeState::Red && v.detail@
            == "unexpected status "@ + text::decimal(status as nat),
{
    if let Some(v) = r {
        assert(v@.state == v.state && v@.detail == v.detail@);
    }
}

/// A response is green where nothing is looked for in its body, or where what is
/// looked for stands somewhere in it; else it is red.
pub proof fn law_bodies_are_judged(status: u16, wanted: Option<&str>, bytes: &[u8], r: Verdict)
    requires
        call_ensures(judge_response, (status, wanted, bytes), r),
    ensures
        wanted is None ==> r.state == HealthProbeState::Green,
        wanted matches Some(w) ==> (r.state == HealthProbeState::Green <==> exists|at: int|
            0 <= at && at + w@.len() <= output::lossy_text(bytes@).len()
                && #[trigger] output::lossy_text(bytes@).subrange(at, at + w@.len()) == w@),
        r.state == HealthProbeState::Green ==> r.detail@ == "ok ("@ + text::decimal(status as nat)
            + ")"@,
        r.state == HealthProbeState::Red ==> wanted is Some && r.detail@ == "body missing "@
            + output::quoted_text(wanted->0@) + " (status "@ + text::decimal(status as nat) + ")"@,
{
    assert(r@.state == r.state && r@.detail == r.detail@);
    if let Some(w) = wanted {
        let body = output::lossy_text(bytes@);
        text::lemma_find_bound(body, w@);
        if text::occurs(w@, body) {
            let k = text::find_at(body, w@)->0 as int;
            assert(body.subrange(k, k + w@.len()) == w@);
        }
        if exists|at: int|
            0 <= at && at + w@.len() <= body.len() && #[trigger] body.subrange(at, at + w@.len())
                == w@ {
            let at = choose|at: int|
                0 <= at && at + w@.len() <= body.len() && #[trigger] body.subrange(
                    at,
                    at + w@.len(),
                ) == w@;
            text::law_finding(body, w@, at);
        }
    }
}

/// A script that exits well is green and any other is red. What it says first
/// is shown; of a failed script the exit code stands before that, and where it
/// says nothing, the first line of its complaints.
pub proof fn law_scripts_are_judged(out: &CommandOutput, r: Verdict)
    requires
        call_ensures(judge_script, (out,), r),
    ensures
        r.state == HealthProbeState::Green <==> out.success,
        ({
            let said = text::shortened(text::first_said(text::lines(out.stdout@)), 200);
            let complained = text::shortened(text::nth(text::lines(out.stderr@), 0), 200);
            let code = match out.code {
                Some(c) => c as int,
                None => -1,
            };
            &&& out.success && said.len() > 0 ==> r.detail@ == said
            &&& out.success && said.len() == 0 ==> r.detail@ == "ok"@
            &&& !out.success && said.len() > 0 ==> r.detail@ == "exit "@ + text::signed_decimal(
                code,
            ) + " "@ + said
            &&& !out.success && said.len() == 0 ==> r.detail@ == "exit "@ + text::signed_decimal(
                code,
            ) + " "@ + complained
        }),
{
    assert(r@.state == r.state && r@.detail == r.detail@);
    assert(out@.stdout == out.stdout@ && out@.stderr == out.stderr@ && out@.success == out.success
        && out@.code == out.code);
}

/// What a script says first is the first of its lines that is not blank.
pub proof fn law_blank_lines_are_passed_over(rows: Seq<Seq<char>>, i: int)
    requires
        0 <= i < rows.len(),
        text::trimmed(rows[i]).len() > 0,
        forall|j: int| 0 <= j < i ==> text::trimmed(#[trigger] rows[j]).len() == 0,
    ensures
        text::first_said(rows) == rows[i],
    decreases rows.len(),
{
    if i > 0 {
        let rest = rows.skip(1);
        assert(rest[i - 1] == rows[i]);
        assert(text::trimmed(rows[0]).len() == 0);
        assert forall|j: int| 0 <= j < i - 1 implies text::trimmed(#[trigger] rest[j]).len()
            == 0 by {
            assert(rest[j] == rows[j + 1]);
        }
        law_blank_lines_are_passed_over(rest, i - 1);
    }
}

/// Only a bare file name is a script: nothing with a slash, a backslash or two
/// dots in a row, and not nothing. Its file is in the probes directory.
pub proof fn law_scripts_stay_in_their_directory(target: &str, r: Result<String, Verdict>)
    requires
        call_ensures(script_path, (target,), r),
    ensures
        ({
            let name = text::trimmed(target@);
            &&& r is Ok <==> name.len() > 0 && !name.contains('/') && !name.contains('\\')
                && forall|i: int|
                0 <= i < name.len() - 1 ==> !(#[trigger] name[i] == '.' && name[i + 1] == '.')
            &&& r matches Ok(path) ==> path@ == "/etc/shellfleet/probes.d/"@ + name
            &&& r matches Err(v) ==> v.state == HealthProbeState::Red
        }),
{
    let name = text::trimmed(target@);
    reveal_strlit("..");
    assert(".."@ =~= seq!['.', '.']);
    text::lemma_find_bound(name, ".."@);
    if text::occurs(".."@, name) {
        let k = text::find_at(name, ".."@)->0 as int;
        assert(".."@[0] == name[k]);
        assert(".."@[1] == name[k + 1]);
    }
    if exists|i: int| 0 <= i < name.len() - 1 && #[trigger] name[i] == '.' && name[i + 1] == '.' {
        let i = choose|i: int|
            0 <= i < name.len() - 1 && #[trigger] name[i] == '.' && name[i + 1] == '.';
        assert(name.subrange(i, i + 2) =~= ".."@);
        text::law_finding(name, ".."@, i);
    }
    if let Err(v) = r {
        assert(v@.state == v.state);
    }
}

/// A connection that was made is green; everything that kept a probe from being
/// judged is red, and says what it was.
pub proof fn law_failures_are_red(
    stage: &str,
    error: &str,
    seconds: u64,
    failed: Verdict,
    late: Verdict,
    missing: Verdict,
    made: Verdict,
    large: Verdict,
)
    requires
        call_ensures(failed_at, (stage, error), failed),
        call_ensures(timed_out, (seconds,), late),
        call_ensures(script_missing, (stage,), missing),
        call_ensures(connected, (), made),
        call_ensures(body_too_large, (), large),
    ensures
        failed.state == HealthProbeState::Red && failed.detail@ == stage@ + ": "@ + error@,
        late.state == HealthProbeState::Red && late.detail@ == "timeout after "@ + text::decimal(
            seconds as nat,
        ) + "s"@,
        missing.state == HealthProbeState::Red && missing.detail@ == "script not found: "@ + stage@,
        made.state == HealthProbeState::Green && made.detail@ == "ok"@,
        large.state == HealthProbeState::Red && large.detail@ == "response body exceeds "@
            + text::decimal(1048576) + " bytes"@,
{
    assert(failed@.state == failed.state && failed@.detail == failed.detail@);
    assert(late@.state == late.state && late@.detail == late.detail@);
    assert(missing@.state == missing.state && missing@.detail == missing.detail@);
    assert(made@.state == made.state && made@.detail == made.detail@);
    assert(large@.state == large.state && large@.detail == large.detail@);
}

/// No probe may set a variable that steers the loader, a shell or a language
/// runtime, nor the search path.
pub proof fn law_steering_variables_are_refused(key: &str, r: bool)
    requires
        call_ensures(is_safe_probe_env_key, (key,), r),
    ensures
        "LD_"@.is_prefix_of(key@) || "DYLD_"@.is_prefix_of(key@) ==> !r,
        key@ == "PATH"@ || key@ == "BASH_ENV"@ || key@ == "ENV"@ || key@ == "CDPATH"@ || key@
            == "GLOBIGNORE"@ || key@ == "SHELLOPTS"@ || key@ == "BASHOPTS"@ ==> !r,
        key@ == "PYTHONHOME"@ || key@ == "PYTHONPATH"@ || key@ == "PYTHONSTARTUP"@ || key@
            == "PERL5LIB"@ || key@ == "PERL5OPT"@ || key@ == "RUBYLIB"@ || key@ == "RUBYOPT"@
            ==> !r,
        key@ == "NODE_OPTIONS"@ || key@ == "JAVA_TOOL_OPTIONS"@ || key@ == "JDK_JAVA_OPTIONS"@
            ==> !r,
        key@.len() == 0 ==> !r,
{
    let s = steering();
    assert(s[0] == "PATH"@ && s[1] == "BASH_ENV"@ && s[2] == "ENV"@ && s[3] == "CDPATH"@ && s[4]
        == "GLOBIGNORE"@ && s[5] == "SHELLOPTS"@ && s[6] == "BASHOPTS"@ && s[7] == "PYTHONHOME"@
        && s[8] == "PYTHONPATH"@ && s[9] == "PYTHONSTARTUP"@ && s[10] == "PERL5LIB"@ && s[11]
        == "PERL5OPT"@ && s[12] == "RUBYLIB"@ && s[13] == "RUBYOPT"@ && s[14] == "NODE_OPTIONS"@
        && s[15] == "JAVA_TOOL_OPTIONS"@ && s[16] == "JDK_JAVA_OPTIONS"@);
}

/// Any other name of a variable may be set: it is made of letters, digits and
/// underscores, and does not start with a digit.
pub proof fn law_ordinary_variables_may_be_set(key: &str, r: bool)
    requires
        call_ensures(is_safe_probe_env_key, (key,), r),
        key@.len() > 0,
        !text::is_digit(key@[0]),
        forall|i: int|
            0 <= i < key@.len() ==> #[trigger] key@[i] == '_' || text::is_alnum(key@[i]),
        !"LD_"@.is_prefix_of(key@),
        !"DYLD_"@.is_prefix_of(key@),
    ensures
        key@ != "PATH"@ && key@ != "BASH_ENV"@ && key@ != "ENV"@ && key@ != "CDPATH"@ && key@
            != "GLOBIGNORE"@ && key@ != "SHELLOPTS"@ && key@ != "BASHOPTS"@ && key@
            != "PYTHONHOME"@ && key@ != "PYTHONPATH"@ && key@ != "PYTHONSTARTUP"@ && key@
            != "PERL5LIB"@ && key@ != "PERL5OPT"@ && key@ != "RUBYLIB"@ && key@ != "RUBYOPT"@
            && key@ != "NODE_OPTIONS"@ && key@ != "JAVA_TOOL_OPTIONS"@ && key@
            != "JDK_JAVA_OPTIONS"@ ==> r,
{
    if steering().contains(key@) {
        let i = choose|i: int| 0 <= i < steering().len() && steering()[i] == key@;
        assert(steering()[i] == key@);
    }
}

/// A probe's own variable, of a name that may be set, reaches its script with
/// its value, whatever the value holds.
pub proof fn law_variables_reach_the_script(
    env: &[String],
    r: Vec<(String, String)>,
    i: int,
    key: Seq<char>,
    value: Seq<char>,
)
    requires
        call_ensures(probe_environment, (env,), r),
        0 <= i < env@.len(),
        env@[i]@ == key + seq!['='] + value,
        !key.contains('='),
        safe_key(key),
    ensures
        exists|k: int| 0 < k < r@.len() && (#[trigger] r@[k]).0@ == key && r@[k].1@ == value,
        r@.len() > 0,
        r@[0].0@ == "PATH"@,
        r@[0].1@ == "/usr/local/sbin:/usr/local/bin:/usr/sbin:/usr/bin:/sbin:/bin"@,
{
    let all = text::texts(env@);
    assert(all[i] == key + seq!['='] + value);
    text::law_first_separator(key, '=', value);
    lemma_vetted_holds(all, i, key, value);
    let v = vetted(all);
    let k = choose|k: int| 0 < k < v.len() && #[trigger] v[k] == (key, value);
    assert(variables(r@)[k] == (r@[k].0@, r@[k].1@));
    lemma_vetted_some(all);
    law_probe_environment_is_safe(all, 0);
    assert(variables(r@)[0] == (r@[0].0@, r@[0].1@));
}

proof fn lemma_vetted_holds(env: Seq<Seq<char>>, i: int, key: Seq<char>, value: Seq<char>)
    requires
        0 <= i < env.len(),
        text::halves(env[i], '=') == (key, Some(value)),
        safe_key(key),
    ensures
        exists|k: int| 0 < k < vetted(env).len() && #[trigger] vetted(env)[k] == (key, value),
    decreases env.len(),
{
    let front = env.drop_last();
    lemma_vetted_some(front);
    if i < front.len() {
        assert(front[i] == env[i]);
        lemma_vetted_holds(front, i, key, value);
        let k = choose|k: int|
            0 < k < vetted(front).len() && #[trigger] vetted(front)[k] == (key, value);
        assert(vetted(env)[k] == (key, value));
    } else {
        assert(vetted(env)[vetted(front).len() as int] == (key, value));
    }
}

/// Nothing reaches a script but what its probe says: every variable besides the
/// search path is one of the probe's own pairs.
pub proof fn law_nothing_else_reaches_the_script(
    env: &[String],
    r: Vec<(String, String)>,
    k: int,
)
    requires
        call_ensures(probe_environment, (env,), r),
        0 < k < r@.len(),
    ensures
        exists|i: int|
            0 <= i < env@.len() && (#[trigger] env@[i])@ == r@[k].0@ + seq!['='] + r@[k].1@,
{
    let all = text::texts(env@);
    assert(variables(r@)[k] == (r@[k].0@, r@[k].1@));
    lemma_vetted_from(all, k);
    let i = choose|i: int|
        0 <= i < all.len() && #[trigger] all[i] == vetted(all)[k].0 + seq!['='] + vetted(all)[k].1;
    assert(env@[i]@ == all[i]);
}

proof fn lemma_vetted_from(env: Seq<Seq<char>>, k: int)
    requires
        0 < k < vetted(env).len(),
    ensures
        exists|i: int|
            0 <= i < env.len() && #[trigger] env[i] == vetted(env)[k].0 + seq!['=']
                + vetted(env)[k].1,
    decreases env.len(),
{
    if env.len() > 0 {
        let front = env.drop_last();
        let f = vetted(front);
        if k < f.len() {
            lemma_vetted_from(front, k);
            let i = choose|i: int|
                0 <= i < front.len() && #[trigger] front[i] == f[k].0 + seq!['='] + f[k].1;
            assert(env[i] == front[i]);
        } else {
            let s = env.last();
            text::lemma_first_at(s, '=');
            let n = text::first_at(s, '=') as int;
            assert(s =~= s.take(n) + seq!['='] + s.skip(n + 1));
            assert(env[env.len() - 1] == s);
        }
    }
}

/// What some actions make of the running probes: a stop ends the probe of that
/// name, a start runs the request at that place.
pub open spec fn acted(
    running: Map<Seq<char>, Seq<char>>,
    requests: Seq<RequestView>,
    todo: Seq<ActionView>,
) -> Map<Seq<char>, Seq<char>>
    decreases todo.len(),
{
    if todo.len() == 0 {
        running
    } else {
        let before = acted(running, requests, todo.drop_last());
        match todo.last() {
            ActionView::Stop(id) => before.remove(id),
            ActionView::Start(i) => before.insert(requests[i].id, requests[i].signature->0),
        }
    }
}

/// Carrying the steps for a list of requests out leaves each of them running as
/// it was asked for, and every step has its place: what is stopped runs, and
/// what is started does not, so that nothing ever runs twice.
#[verifier::rlimit(60)]
#[verifier::spinoff_prover]
pub proof fn law_steps_do_what_is_asked(
    running: Map<Seq<char>, Seq<char>>,
    all: Seq<RequestView>,
)
    ensures
        acted(running, all, steps(running, all)) == started(running, all),
        forall|k: int|
            0 <= k < steps(running, all).len() ==> match #[trigger] steps(running, all)[k] {
                ActionView::Stop(id) => acted(
                    running,
                    all,
                    steps(running, all).take(k),
                ).contains_key(id),
                ActionView::Start(i) => 0 <= i < all.len() && all[i].signature is Some && !acted(
                    running,
                    all,
                    steps(running, all).take(k),
                ).contains_key(all[i].id),
            },
    decreases all.len(),
{
    if all.len() > 0 {
        let front = all.drop_last();
        let p = all.last();
        let a = steps(running, front);
        let now = started(running, front);
        law_steps_do_what_is_asked(running, front);
        lemma_acted_same(running, front, all, a);
        let s = steps(running, all);
        assert(s.take(a.len() as int) =~= a);
        assert forall|k: int| 0 <= k < s.len() implies match #[trigger] s[k] {
            ActionView::Stop(id) => acted(running, all, s.take(k)).contains_key(id),
            ActionView::Start(i) => 0 <= i < all.len() && all[i].signature is Some && !acted(
                running,
                all,
                s.take(k),
            ).contains_key(all[i].id),
        } by {
            if k < a.len() {
                assert(s[k] == a[k]);
                assert(s.take(k) =~= a.take(k));
                lemma_take_in_range(running, front, k);
                lemma_acted_same(running, front, all, a.take(k));
                if let ActionView::Start(i) = a[k] {
                    assert(all[i] == front[i]);
                }
            } else if k == a.len() {
                assert(s.take(k) =~= a);
                assert(all[all.len() - 1] == p);
            } else {
                let b = a.push(ActionView::Stop(p.id));
                assert(s.take(k) =~= b);
                assert(b.drop_last() =~= a);
                assert(all[all.len() - 1] == p);
            }
        }
        if p.signature is None || runs_as(now, p) {
            if p.signature is Some {
                assert(now.insert(p.id, p.signature->0) =~= now);
            }
        } else if now.contains_key(p.id) {
            let b = a.push(ActionView::Stop(p.id));
            let c = b.push(ActionView::Start(all.len() - 1));
            assert(c.drop_last() =~= b);
            assert(b.drop_last() =~= a);
            assert(all[all.len() - 1] == p);
            assert(now.remove(p.id).insert(p.id, p.signature->0) =~= now.insert(
                p.id,
                p.signature->0,
            ));
        } else {
            let c = a.push(ActionView::Start(all.len() - 1));
            assert(c.drop_last() =~= a);
            assert(all[all.len() - 1] == p);
        }
    }
}

/// Every start of the steps for a list names a place in the list.
proof fn lemma_steps_in_range(running: Map<Seq<char>, Seq<char>>, all: Seq<RequestView>)
    ensures
        forall|k: int|
            0 <= k < steps(running, all).len() ==> (#[trigger] steps(running, all)[k] matches
                ActionView::Start(i) ==> 0 <= i < all.len()),
    decreases all.len(),
{
    if all.len() > 0 {
        let front = all.drop_last();
        lemma_steps_in_range(running, front);
        let a = steps(running, front);
        let s = steps(running, all);
        assert forall|k: int| 0 <= k < s.len() implies (#[trigger] s[k] matches ActionView::Start(
            i,
        ) ==> 0 <= i < all.len()) by {
            if k < a.len() {
                assert(s[k] == a[k]);
            }
        }
    }
}

proof fn lemma_take_in_range(
    running: Map<Seq<char>, Seq<char>>,
    all: Seq<RequestView>,
    n: int,
)
    requires
        0 <= n <= steps(running, all).len(),
    ensures
        forall|k: int|
            0 <= k < steps(running, all).take(n).len() ==> (#[trigger] steps(running, all).take(
                n,
            )[k] matches ActionView::Start(i) ==> 0 <= i < all.len()),
{
    lemma_steps_in_range(running, all);
    assert forall|k: int| 0 <= k < steps(running, all).take(n).len() implies (
    #[trigger] steps(running, all).take(n)[k] matches ActionView::Start(i) ==> 0 <= i
        < all.len()) by {
        assert(steps(running, all)[k] == steps(running, all).take(n)[k]);
    }
}

/// Actions on a longer list with the same front come to the same.
proof fn lemma_acted_same(
    running: Map<Seq<char>, Seq<char>>,
    front: Seq<RequestView>,
    all: Seq<RequestView>,
    todo: Seq<ActionView>,
)
    requires
        all.len() >= front.len(),
        forall|i: int| 0 <= i < front.len() ==> front[i] == all[i],
        forall|k: int|
            0 <= k < todo.len() ==> (#[trigger] todo[k] matches ActionView::Start(i) ==> 0 <= i
                < front.len()),
    ensures
        acted(running, front, todo) == acted(running, all, todo),
    decreases todo.len(),
{
    if todo.len() > 0 {
        let t = todo.drop_last();
        assert forall|k: int| 0 <= k < t.len() implies (#[trigger] t[k] matches ActionView::Start(
            i,
        ) ==> 0 <= i < front.len()) by {
            assert(todo[k] == t[k]);
        }
        lemma_acted_same(running, front, all, t);
        assert(todo[todo.len() - 1] == todo.last());
    }
}

/// Times are held to what a probe can use: no shorter than a second, and a
/// latency no longer than a report can carry.
pub proof fn law_times_are_held_in_bounds(seconds: u32, elapsed: u128, a: u64, b: u32)
    requires
        call_ensures(at_least_a_second, (seconds,), a),
        call_ensures(latency_ms, (elapsed,), b),
    ensures
        a >= 1,
        seconds >= 1 ==> a == seconds,
        elapsed <= u32::MAX ==> b == elapsed,
        elapsed > u32::MAX ==> b == u32::MAX,
{
}

/// A body is collected chunk by chunk, up to a mebibyte; a chunk that goes over
/// it is refused, and changes nothing.
pub proof fn law_bodies_are_collected(body: &mut Vec<u8>, chunk: &[u8], r: Result<(), ()>)
    requires
        call_ensures(append_body_chunk, (body, chunk), r),
    ensures
        r is Ok <==> old(body)@.len() + chunk@.len() <= 1024 * 1024,
        r is Ok ==> final(body)@ == old(body)@ + chunk@,
        r is Err ==> final(body)@ == old(body)@,
{
}

/// A new probe waits for less than five seconds, by the sum of the bytes of its
/// name.
pub proof fn law_first_waits_are_spread(id: &str, r: u64)
    requires
        call_ensures(jitter_ms, (id,), r),
        byte_sum(encode_utf8(id@)) <= u64::MAX,
    ensures
        r < 5000,
        r == encode_utf8(id@).fold_left(0int, |sum: int, b: u8| sum + b) % 5000,
{
    lemma_byte_sum(encode_utf8(id@));
}

proof fn lemma_byte_sum(bytes: Seq<u8>)
    ensures
        byte_sum(bytes) == bytes.fold_left(0int, |sum: int, b: u8| sum + b),
    decreases bytes.len(),
{
    reveal_with_fuel(Seq::fold_left, 2);
    if bytes.len() > 0 {
        lemma_byte_sum(bytes.drop_last());
    }
}

/// A sample is reported where it differs from the one before it, the first one
/// always; and it is remembered.
pub proof fn law_changes_are_reported(m: &mut ProbeMemory, state: HealthProbeState, r: bool)
    requires
        call_ensures(ProbeMemory::sample, (m, state), r),
    ensures
        r <==> old(m).last is None || old(m).last->0 != state,
        final(m).last == Some(state),
{
}

proof fn lemma_not_asked(running: Map<Seq<char>, Seq<char>>, all: Seq<RequestView>, id: Seq<char>)
    requires
        forall|j: int| 0 <= j < all.len() ==> (#[trigger] all[j]).id != id,
    ensures
        !asked(all).contains(id),
        started(running, all).contains_key(id) <==> running.contains_key(id),
    decreases all.len(),
{
    if all.len() > 0 {
        let front = all.drop_last();
        assert forall|j: int| 0 <= j < front.len() implies (#[trigger] front[j]).id != id by {
            assert(all[j].id != id);
        }
        lemma_not_asked(running, front, id);
        assert(all[all.len() - 1].id != id);
    }
}

/// After a sync a probe runs as it was last asked for, and one that nobody asks
/// for does not run: where it ran, it is stopped.
pub proof fn law_probes_follow_the_requests(
    p: &mut HealthProbes,
    probes: &[ProbeRequest],
    r: Vec<ProbeAction>,
    i: int,
    id: Seq<char>,
)
    requires
        call_ensures(HealthProbes::sync, (p, probes), r),
        0 <= i < probes@.len(),
        probes@[i].signature is Some,
        forall|j: int| i < j < probes@.len() ==> (#[trigger] probes@[j]).id@ != probes@[i].id@,
        forall|j: int| 0 <= j < probes@.len() ==> (#[trigger] probes@[j]).id@ != id,
    ensures
        final(p)@.contains_key(probes@[i].id@),
        final(p)@[probes@[i].id@] == probes@[i].signature->0@,
        !final(p)@.contains_key(id),
        old(p)@.contains_key(id) ==> actions(r@).contains(ActionView::Stop(id)),
{
    let all = requests(probes@);
    assert(all[i] == probes@[i]@);
    assert forall|j: int| i < j < all.len() implies (#[trigger] all[j]).id != all[i].id by {
        assert(all[j] == probes@[j]@);
        assert(probes@[j].id@ != probes@[i].id@);
    }
    assert forall|j: int| 0 <= j < all.len() implies (#[trigger] all[j]).id != id by {
        assert(all[j] == probes@[j]@);
        assert(probes@[j].id@ != id);
    }
    law_sync_runs_the_last_request(old(p)@, all, i);
    lemma_not_asked(old(p)@, all, id);
    if old(p)@.contains_key(id) {
        let n = steps(old(p)@, all).len() as int;
        let rest = actions(r@).skip(n);
        assert(rest.contains(ActionView::Stop(id)));
        let k = choose|k: int| 0 <= k < rest.len() && rest[k] == ActionView::Stop(id);
        assert(actions(r@)[n + k] == ActionView::Stop(id));
    }
}

/// A refused script is told by its trimmed name, in quotes.
pub proof fn law_refused_scripts_are_quoted(
    target: &str,
    r: Result<String, Verdict>,
    quoted: &str,
    worded: Verdict,
)
    requires
        call_ensures(script_path, (target,), r),
        call_ensures(refuse_script, (quoted,), worded),
    ensures
        r matches Err(v) ==> v.detail@ == "invalid exec target "@ + output::quoted_text(
            text::trimmed(target@),
        ) + " (must be a filename in /etc/shellfleet/probes.d/)"@,
        worded.state == HealthProbeState::Red,
        worded.detail@ == "invalid exec target "@ + quoted@
            + " (must be a filename in /etc/shellfleet/probes.d/)"@,
{
    assert(worded@.state == worded.state);
    assert(worded@.detail == worded.detail@);
    if let Err(v) = r {
        assert(v@.detail == v.detail@);
    }
}

}
