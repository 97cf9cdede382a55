//! Docker: what may be asked of it, the arguments for it, and what is read
//! back from what it prints.

use crate::argv;
use crate::deploy;
use crate::json;
use crate::json::{Json, JsonView};
use crate::output;
use crate::output::CommandOutput;
use crate::text;
use vstd::prelude::*;
use vstd::slice::slice_subrange;

verus! {

/// How much of what Docker prints is kept.
pub const DOCKER_LOG_CAP: usize = 8000;

// ---------- references ----------

/// Whether a text starts with a letter or a digit.
pub open spec fn starts_plain(s: Seq<char>) -> bool {
    s.len() > 0 && text::is_alnum(s[0])
}

fn begins_plain(s: &str) -> (r: bool)
    ensures
        r == starts_plain(s@),
{
    let v = text::to_chars(s);
    v.len() > 0 && text::alnum(v[0])
}

/// What is wrong with a reference to an object, if anything is.
pub open spec fn object_refused(value: Seq<char>) -> Option<Seq<char>> {
    if text::byte_len(value) == 0 || text::byte_len(value) > 255 {
        Some("docker object reference must be 1..=255 characters"@)
    } else if !starts_plain(value) || !text::alnum_or(value, "._-:"@) {
        Some("invalid docker object reference"@)
    } else {
        None
    }
}

/// What is wrong with a reference to an image, if anything is.
pub open spec fn image_refused(value: Seq<char>) -> Option<Seq<char>> {
    if text::byte_len(value) == 0 || text::byte_len(value) > 512 {
        Some("docker image reference must be 1..=512 characters"@)
    } else if !starts_plain(value) || !text::alnum_or(value, "._-:/@+"@) {
        Some("invalid docker image reference"@)
    } else {
        None
    }
}

/// What is wrong with a network driver, if anything is.
pub open spec fn driver_refused(value: Seq<char>) -> Option<Seq<char>> {
    match object_refused(value) {
        Some(_) => Some("invalid docker network driver"@),
        None => None,
    }
}

/// A character of a subnet.
pub open spec fn subnet_char(c: char) -> bool {
    text::is_hex(c) || c == '.' || c == ':' || c == '/'
}

/// What is wrong with a subnet, if anything is.
pub open spec fn subnet_refused(value: Seq<char>) -> Option<Seq<char>> {
    if text::byte_len(value) == 0 || text::byte_len(value) > 128 || !text::is_hex(value[0]) || exists|i: int|
        0 <= i < value.len() && !subnet_char(#[trigger] value[i]) {
        Some("invalid docker network subnet"@)
    } else {
        None
    }
}

pub open spec fn unless(refused: Option<Seq<char>>) -> Result<(), Seq<char>> {
    match refused {
        Some(e) => Err(e),
        None => Ok(()),
    }
}

/// Checks a reference to an object.
pub fn validate_object_ref(value: &str) -> (r: Result<(), String>)
    ensures
        text::outcome(r) == unless(object_refused(value@)),
{
    let n = text::byte_length(value);
    if n == 0 || n > 255 {
        return Err(text::owned("docker object reference must be 1..=255 characters"));
    }
    if !begins_plain(value) || !text::only_alnum_or(value, "._-:") {
        return Err(text::owned("invalid docker object reference"));
    }
    Ok(())
}

/// Checks a reference to an image.
pub fn validate_image_ref(value: &str) -> (r: Result<(), String>)
    ensures
        text::outcome(r) == unless(image_refused(value@)),
{
    let n = text::byte_length(value);
    if n == 0 || n > 512 {
        return Err(text::owned("docker image reference must be 1..=512 characters"));
    }
    if !begins_plain(value) || !text::only_alnum_or(value, "._-:/@+") {
        return Err(text::owned("invalid docker image reference"));
    }
    Ok(())
}

/// Checks a network driver.
pub fn validate_network_driver(value: &str) -> (r: Result<(), String>)
    ensures
        text::outcome(r) == unless(driver_refused(value@)),
{
    match validate_object_ref(value) {
        Ok(_) => Ok(()),
        Err(_) => Err(text::owned("invalid docker network driver")),
    }
}

/// Checks a subnet.
pub fn validate_subnet(value: &str) -> (r: Result<(), String>)
    ensures
        text::outcome(r) == unless(subnet_refused(value@)),
{
    let n = text::byte_length(value);
    let v = text::to_chars(value);
    if n == 0 || n > 128 {
        return Err(text::owned("invalid docker network subnet"));
    }
    if v.len() == 0 {
        assert(value@ =~= Seq::empty());
        assert(text::byte_len(value@) == 0);
        return Err(text::owned("invalid docker network subnet"));
    }
    if !text::hex_digit(v[0]) {
        return Err(text::owned("invalid docker network subnet"));
    }
    let mut i: usize = 0;
    while i < v.len()
        invariant
            i <= v@.len(),
            v@ == value@,
            forall|j: int| 0 <= j < i ==> subnet_char(#[trigger] value@[j]),
        decreases v@.len() - i,
    {
        let c = v[i];
        if !text::hex_digit(c) && c != '.' && c != ':' && c != '/' {
            assert(!subnet_char(value@[i as int]));
            return Err(text::owned("invalid docker network subnet"));
        }
        i += 1;
    }
    Ok(())
}

// ---------- arguments ----------

/// What can be done to a container.
#[derive(Debug, Clone, Copy, PartialEq, Eq, Structural)]
pub enum DockerContainerAction {
    Start,
    Stop,
    Restart,
    Remove,
}

/// What can be done to a service.
#[derive(Debug, Clone, Copy, PartialEq, Eq, Structural)]
pub enum SwarmAction {
    Scale(u64),
    ForceUpdate,
    Remove,
}

/// Arguments, unless something is wrong with what they are about.
pub open spec fn planned(refused: Option<Seq<char>>, args: Seq<Seq<char>>) -> Result<
    Seq<Seq<char>>,
    Seq<char>,
> {
    match refused {
        Some(e) => Err(e),
        None => Ok(args),
    }
}

/// The arguments of an action on a container.
pub open spec fn container_args(id: Seq<char>, action: DockerContainerAction) -> Seq<Seq<char>> {
    match action {
        DockerContainerAction::Start => seq!["start"@, id],
        DockerContainerAction::Stop => seq!["stop"@, id],
        DockerContainerAction::Restart => seq!["restart"@, id],
        DockerContainerAction::Remove => seq!["rm"@, "-f"@, id],
    }
}

/// Plans an action on a container.
pub fn plan_container_action(id: &str, action: DockerContainerAction) -> (r: Result<
    Vec<String>,
    String,
>)
    ensures
        text::list_outcome(r) == planned(object_refused(id@), container_args(id@, action)),
{
    if let Err(e) = validate_object_ref(id) {
        return Err(e);
    }
    Ok(
        match action {
            DockerContainerAction::Start => argv::list2("start", id),
            DockerContainerAction::Stop => argv::list2("stop", id),
            DockerContainerAction::Restart => argv::list2("restart", id),
            DockerContainerAction::Remove => argv::list3("rm", "-f", id),
        },
    )
}

/// The arguments of an action on a service.
pub open spec fn swarm_args(name: Seq<char>, action: SwarmAction) -> Seq<Seq<char>> {
    match action {
        SwarmAction::Scale(n) => seq!["service"@, "scale"@, name + "="@ + text::decimal(n as nat)],
        SwarmAction::ForceUpdate => seq!["service"@, "update"@, "--force"@, name],
        SwarmAction::Remove => seq!["service"@, "rm"@, name],
    }
}

/// Plans an action on a service.
pub fn plan_swarm_action(name: &str, action: SwarmAction) -> (r: Result<Vec<String>, String>)
    ensures
        text::list_outcome(r) == planned(object_refused(name@), swarm_args(name@, action)),
{
    if let Err(e) = validate_object_ref(name) {
        return Err(e);
    }
    Ok(
        match action {
            SwarmAction::Scale(n) => {
                let target = text::join3(name, "=", text::decimal_text(n).as_str());
                argv::list3("service", "scale", target.as_str())
            },
            SwarmAction::ForceUpdate => argv::list4("service", "update", "--force", name),
            SwarmAction::Remove => argv::list3("service", "rm", name),
        },
    )
}

/// What is asked about, or done to, one object.
#[derive(Debug, Clone, Copy, PartialEq, Eq, Structural)]
pub enum ObjectRequest {
    ServiceTasks,
    ServiceInspect,
    NetworkInspect,
    NetworkRemove,
    VolumeInspect,
    VolumeRemove { force: bool },
    StackServices,
    StackTasks,
    StackRemove,
    StackDeploy { prune: bool },
}

/// The arguments of a request about one object.
pub open spec fn object_args(name: Seq<char>, request: ObjectRequest) -> Seq<Seq<char>> {
    match request {
        ObjectRequest::ServiceTasks => seq!["service"@, "ps"@, name, "--format"@].push(
            "{{json .}}"@,
        ).push("--no-trunc"@),
        ObjectRequest::ServiceInspect => seq!["service"@, "inspect"@, name],
        ObjectRequest::NetworkInspect => seq!["network"@, "inspect"@, name],
        ObjectRequest::NetworkRemove => seq!["network"@, "rm"@, name],
        ObjectRequest::VolumeInspect => seq!["volume"@, "inspect"@, name],
        ObjectRequest::VolumeRemove { force } => argv::with_option(
            seq!["volume"@, "rm"@],
            force,
            "--force"@,
        ).push(name),
        ObjectRequest::StackServices => seq![
            "stack"@,
            "services"@,
            "--format"@,
            "{{json .}}"@,
        ].push(name),
        ObjectRequest::StackTasks => seq!["stack"@, "ps"@, "--no-trunc"@, "--format"@].push(
            "{{json .}}"@,
        ).push(name),
        ObjectRequest::StackRemove => seq!["stack"@, "rm"@, name],
        ObjectRequest::StackDeploy { prune } => argv::with_option(
            seq!["stack"@, "deploy"@, "--compose-file"@, "-"@].push("--with-registry-auth"@),
            prune,
            "--prune"@,
        ).push(name),
    }
}

/// Plans a request about one object.
pub fn plan_object(name: &str, request: ObjectRequest) -> (r: Result<Vec<String>, String>)
    ensures
        text::list_outcome(r) == planned(object_refused(name@), object_args(name@, request)),
{
    broadcast use text::lemma_texts_push;

    if let Err(e) = validate_object_ref(name) {
        return Err(e);
    }
    Ok(
        match request {
            ObjectRequest::ServiceTasks => {
                let mut a = argv::list4("service", "ps", name, "--format");
                a.push(text::owned("{{json .}}"));
                a.push(text::owned("--no-trunc"));
                a
            },
            ObjectRequest::ServiceInspect => argv::list3("service", "inspect", name),
            ObjectRequest::NetworkInspect => argv::list3("network", "inspect", name),
            ObjectRequest::NetworkRemove => argv::list3("network", "rm", name),
            ObjectRequest::VolumeInspect => argv::list3("volume", "inspect", name),
            ObjectRequest::VolumeRemove { force } => {
                let mut a = argv::list2("volume", "rm");
                argv::push_option(&mut a, force, "--force");
                a.push(text::owned(name));
                a
            },
            ObjectRequest::StackServices => {
                let mut a = argv::list4("stack", "services", "--format", "{{json .}}");
                a.push(text::owned(name));
                a
            },
            ObjectRequest::StackTasks => {
                let mut a = argv::list4("stack", "ps", "--no-trunc", "--format");
                a.push(text::owned("{{json .}}"));
                a.push(text::owned(name));
                a
            },
            ObjectRequest::StackRemove => argv::list3("stack", "rm", name),
            ObjectRequest::StackDeploy { prune } => {
                let mut a = argv::list4("stack", "deploy", "--compose-file", "-");
                a.push(text::owned("--with-registry-auth"));
                argv::push_option(&mut a, prune, "--prune");
                a.push(text::owned(name));
                a
            },
        },
    )
}

/// Plans the removal of an image.
pub fn plan_remove_image(id: &str, force: bool) -> (r: Result<Vec<String>, String>)
    ensures
        text::list_outcome(r) == planned(
            image_refused(id@),
            argv::with_option(seq!["rmi"@], force, "--force"@).push(id@),
        ),
{
    broadcast use text::lemma_texts_push;

    if let Err(e) = validate_image_ref(id) {
        return Err(e);
    }
    let mut a = argv::list1("rmi");
    argv::push_option(&mut a, force, "--force");
    a.push(text::owned(id));
    Ok(a)
}

/// Plans the pull of an image.
pub fn plan_pull_image(reference: &str) -> (r: Result<Vec<String>, String>)
    ensures
        text::list_outcome(r) == planned(image_refused(reference@), seq!["pull"@, reference@]),
{
    if let Err(e) = validate_image_ref(reference) {
        return Err(e);
    }
    Ok(argv::list2("pull", reference))
}

/// A network to create.
#[derive(Debug)]
pub struct NetworkSpec {
    pub name: String,
    pub driver: String,
    pub subnet: Option<String>,
    pub attachable: bool,
    pub internal: bool,
}

/// The subnet, unless it is empty.
pub open spec fn subnet_of(subnet: Option<Seq<char>>) -> Option<Seq<char>> {
    match subnet {
        Some(s) => if s.len() == 0 {
            None
        } else {
            Some(s)
        },
        None => None,
    }
}

/// What is wrong with a network, if anything is.
pub open spec fn network_refused(spec: NetworkSpec) -> Option<Seq<char>> {
    match object_refused(spec.name@) {
        Some(e) => Some(e),
        None => match driver_refused(spec.driver@) {
            Some(e) => Some(e),
            None => match subnet_of(text::opt_text(spec.subnet)) {
                Some(s) => subnet_refused(s),
                None => None,
            },
        },
    }
}

/// The arguments that create a network.
pub open spec fn network_args(spec: NetworkSpec) -> Seq<Seq<char>> {
    let a = seq!["network"@, "create"@, "--driver"@, spec.driver@];
    let a = match subnet_of(text::opt_text(spec.subnet)) {
        Some(s) => a.push("--subnet"@).push(s),
        None => a,
    };
    let a = argv::with_option(a, spec.attachable, "--attachable"@);
    argv::with_option(a, spec.internal, "--internal"@).push(spec.name@)
}

/// Plans the creation of a network.
pub fn plan_create_network(spec: &NetworkSpec) -> (r: Result<Vec<String>, String>)
    ensures
        text::list_outcome(r) == planned(network_refused(*spec), network_args(*spec)),
{
    broadcast use text::lemma_texts_push;

    if let Err(e) = validate_object_ref(spec.name.as_str()) {
        return Err(e);
    }
    if let Err(e) = validate_network_driver(spec.driver.as_str()) {
        return Err(e);
    }
    let mut a = argv::list4("network", "create", "--driver", spec.driver.as_str());
    if let Some(s) = &spec.subnet {
        if !s.as_str().is_empty() {
            if let Err(e) = validate_subnet(s.as_str()) {
                return Err(e);
            }
            argv::push_pair(&mut a, "--subnet", s.as_str());
        }
    }
    argv::push_option(&mut a, spec.attachable, "--attachable");
    argv::push_option(&mut a, spec.internal, "--internal");
    a.push(text::owned(spec.name.as_str()));
    Ok(a)
}

/// The arguments that prune the system.
pub fn system_prune_argv(volumes: bool) -> (r: Vec<String>)
    ensures
        text::texts(r@) == argv::with_option(seq!["system"@, "prune"@, "-af"@], volumes, "--volumes"@),
{
    let mut a = argv::list3("system", "prune", "-af");
    argv::push_option(&mut a, volumes, "--volumes");
    a
}

// ---------- reports ----------

/// What became of a request.
#[derive(Debug)]
pub struct DockerReport {
    pub success: bool,
    pub log: String,
    pub error: Option<String>,
}

/// A report with its texts spelled out.
#[verifier::ext_equal]
pub struct ReportView {
    pub success: bool,
    pub log: Seq<char>,
    pub error: Option<Seq<char>>,
}

impl View for DockerReport {
    type V = ReportView;

    open spec fn view(&self) -> ReportView {
        ReportView { success: self.success, log: self.log@, error: text::opt_text(self.error) }
    }
}

pub open spec fn opt_report(o: Option<DockerReport>) -> Option<ReportView> {
    match o {
        Some(r) => Some(r@),
        None => None,
    }
}

/// A request that did not get as far as running.
pub fn not_run(stage: &str, error: &str) -> (r: DockerReport)
    ensures
        r@ == (ReportView {
            success: false,
            log: Seq::empty(),
            error: Some(stage@ + error@),
        }),
{
    let log = String::new();
    assert(log@ =~= Seq::empty());
    DockerReport { success: false, log, error: Some(text::join2(stage, error)) }
}

/// The report on a request whose output is shown as it is.
pub fn finish_action(out: &CommandOutput) -> (r: DockerReport)
    ensures
        r@ == (ReportView {
            success: out@.success,
            log: deploy::both_streams(out@.stdout, out@.stderr),
            error: if out@.success {
                None
            } else {
                Some("exit code "@ + text::code_words(out@.code))
            },
        }),
{
    let log = deploy::collect_log(out.stdout.as_str(), out.stderr.as_str());
    let error = if out.success {
        None
    } else {
        Some(text::join2("exit code ", text::code_text(out.code).as_str()))
    };
    DockerReport { success: out.success, log, error }
}

/// The report on an inspection: what was printed, and what went wrong.
pub fn finish_inspect(out: &CommandOutput) -> (r: DockerReport)
    ensures
        r@ == (ReportView {
            success: out@.success,
            log: out@.stdout,
            error: if out@.success {
                None
            } else {
                Some(text::trimmed(out@.stderr))
            },
        }),
{
    let error = if out.success {
        None
    } else {
        Some(text::trim(out.stderr.as_str()))
    };
    DockerReport { success: out.success, log: text::owned(out.stdout.as_str()), error }
}

/// Both streams, with a heading between them.
pub open spec fn streams_headed(stdout: Seq<char>, stderr: Seq<char>) -> Seq<char> {
    if stderr.len() == 0 {
        stdout
    } else if stdout.len() == 0 {
        stderr
    } else {
        stdout + "\n--- stderr ---\n"@ + stderr
    }
}

/// Both streams, cut down. Nothing where they cannot be cut at a character.
pub open spec fn combined(out: output::OutputView) -> Option<Seq<char>> {
    output::cut_down(streams_headed(out.stdout, out.stderr), DOCKER_LOG_CAP as nat)
}

/// Puts both streams together, cut down.
pub fn combine_stdout_stderr(out: &CommandOutput) -> (r: Option<String>)
    ensures
        text::opt_text(r) == combined(out@),
{
    let both = if out.stderr.as_str().is_empty() {
        text::owned(out.stdout.as_str())
    } else if out.stdout.as_str().is_empty() {
        text::owned(out.stderr.as_str())
    } else {
        text::join3(out.stdout.as_str(), "\n--- stderr ---\n", out.stderr.as_str())
    };
    output::try_truncate(both.as_str(), DOCKER_LOG_CAP)
}

/// The report on a request whose output is cut down. Nothing where it cannot
/// be cut at a character.
pub open spec fn finished(what: Seq<char>, out: output::OutputView) -> Option<ReportView> {
    match combined(out) {
        None => None,
        Some(log) => Some(
            ReportView {
                success: out.success,
                log,
                error: if out.success {
                    None
                } else {
                    Some(what + " exit "@ + text::code_words(out.code))
                },
            },
        ),
    }
}

/// Reports on a request, such as `docker rmi`.
pub fn finish(what: &str, out: &CommandOutput) -> (r: Option<DockerReport>)
    ensures
        opt_report(r) == finished(what@, out@),
{
    match combine_stdout_stderr(out) {
        None => None,
        Some(log) => {
            let error = if out.success {
                None
            } else {
                Some(text::join3(what, " exit ", text::code_text(out.code).as_str()))
            };
            Some(DockerReport { success: out.success, log, error })
        },
    }
}

/// What became of a network that was to be created.
#[derive(Debug)]
pub struct NetworkReport {
    pub id: Option<String>,
    pub report: DockerReport,
}

/// Reports on the creation of a network: its id is what was printed.
pub fn finish_create_network(out: &CommandOutput) -> (r: Option<NetworkReport>)
    ensures
        match r {
            Some(n) => Some(n.report@) == finished("docker network create"@, out@) && text::opt_text(n.id)
                == (if out@.success {
                Some(text::trimmed(out@.stdout))
            } else {
                None
            }),
            None => finished("docker network create"@, out@) is None,
        },
{
    match finish("docker network create", out) {
        None => None,
        Some(report) => {
            let id = if out.success {
                Some(text::trim(out.stdout.as_str()))
            } else {
                None
            };
            Some(NetworkReport { id, report })
        },
    }
}

// ---------- lists ----------

/// The lines that are not blank, as they stand or trimmed.
pub open spec fn full_lines(rows: Seq<Seq<char>>, trim: bool) -> Seq<Seq<char>>
    decreases rows.len(),
{
    if rows.len() == 0 {
        Seq::empty()
    } else {
        let front = full_lines(rows.drop_last(), trim);
        let row = text::trimmed(rows.last());
        if row.len() == 0 {
            front
        } else if trim {
            front.push(row)
        } else {
            front.push(rows.last())
        }
    }
}

/// The rows that a listing printed, one JSON text each, or what it complained
/// about.
pub fn listed_rows(out: &CommandOutput, trim_rows: bool) -> (r: Result<Vec<String>, String>)
    ensures
        text::list_outcome(r) == (if out@.success {
            Ok(full_lines(text::lines(out@.stdout), trim_rows))
        } else {
            Err(text::trimmed(out@.stderr))
        }),
{
    broadcast use text::lemma_texts_push;

    if !out.success {
        return Err(text::trim(out.stderr.as_str()));
    }
    let rows = text::split_lines(out.stdout.as_str());
    let mut r: Vec<String> = Vec::new();
    let mut i: usize = 0;
    assert(text::texts(r@) =~= full_lines(text::texts(rows@).take(0), trim_rows));
    while i < rows.len()
        invariant
            i <= rows@.len(),
            text::texts(r@) == full_lines(text::texts(rows@).take(i as int), trim_rows),
        decreases rows@.len() - i,
    {
        assert(text::texts(rows@).take(i + 1).drop_last() =~= text::texts(rows@).take(i as int));
        assert(text::texts(rows@).take(i + 1).last() == rows@[i as int]@);
        let row = text::trim(rows[i].as_str());
        if !row.as_str().is_empty() {
            if trim_rows {
                r.push(row);
            } else {
                r.push(text::owned(rows[i].as_str()));
            }
        }
        i += 1;
    }
    assert(text::texts(rows@).take(i as int) =~= text::texts(rows@));
    Ok(r)
}

/// The id of a container as it is shown.
pub fn container_id(id: &str) -> (r: String)
    ensures
        r@ == text::shortened(id@, 12),
{
    text::shorten(id, 12)
}

/// The id of an image as it is shown: without the name of the digest.
pub fn image_id(id: &str) -> (r: String)
    ensures
        r@ == (match text::after_prefix(id@, "sha256:"@) {
            Some(rest) => rest,
            None => id@,
        }),
{
    match text::strip_prefix(id, "sha256:") {
        Some(rest) => rest,
        None => text::owned(id),
    }
}

/// When an image was made: how long ago, where that is known.
pub fn image_created(since: &str, at: &str) -> (r: String)
    ensures
        r@ == (if since@.len() == 0 {
            at@
        } else {
            since@
        }),
{
    if since.is_empty() {
        text::owned(at)
    } else {
        text::owned(since)
    }
}

/// Reads a switch as Docker prints it.
pub fn flag(s: &str) -> (r: bool)
    ensures
        r == (s@ == "true"@ || s@ == "True"@ || s@ == "1"@),
{
    text::same(s, "true") || text::same(s, "True") || text::same(s, "1")
}

/// Reads a count as Docker prints it; what is no number counts as none.
pub fn count_of(s: &str) -> (r: u32)
    ensures
        r == (match text::read_unsigned(s@, u32::MAX as nat) {
            Some(n) => n,
            None => 0,
        }),
{
    match text::parse_u32(s) {
        Some(n) => n,
        None => 0,
    }
}

/// A percentage without its sign, ready to be read as a number.
pub fn percentage(s: &str) -> (r: String)
    ensures
        r@ == text::trimmed(text::strip_back(s@, '%')),
{
    text::trim(text::trim_end_char(s, '%').as_str())
}

/// The two sides of a pair of sizes, such as `1.2kB / 3.4kB`.
pub fn pair_parts(s: &str) -> (r: (String, String))
    ensures
        r.0@ == text::trimmed(text::nth(text::split(s@, '/'), 0)),
        r.1@ == text::trimmed(text::nth(text::split(s@, '/'), 1)),
{
    let parts = text::split_text(s, '/');
    (
        text::trim(text::field(parts.as_slice(), 0).as_str()),
        text::trim(text::field(parts.as_slice(), 1).as_str()),
    )
}

// ---------- sizes ----------

/// A size as Docker prints it: a number, and what it is multiplied by.
#[derive(Debug)]
pub struct SizeParts {
    pub number: String,
    pub multiplier: u64,
}

/// A character of a number.
pub open spec fn number_char(c: char) -> bool {
    text::is_digit(c) || c == '.'
}

/// How many characters a number takes at the front of a text.
pub open spec fn number_len(s: Seq<char>) -> nat
    decreases s.len(),
{
    if s.len() == 0 || !number_char(s[0]) {
        0
    } else {
        1 + number_len(s.skip(1))
    }
}

/// What a unit multiplies by.
pub open spec fn multiplier(unit: Seq<char>) -> Option<u64> {
    let u = text::lower(text::trimmed(unit));
    if u.len() == 0 || u == "b"@ {
        Some(1)
    } else if u == "kb"@ {
        Some(1000)
    } else if u == "mb"@ {
        Some(1000000)
    } else if u == "gb"@ {
        Some(1000000000)
    } else if u == "tb"@ {
        Some(1000000000000)
    } else if u == "kib"@ {
        Some(1024)
    } else if u == "mib"@ {
        Some(1048576)
    } else if u == "gib"@ {
        Some(1073741824)
    } else {
        None
    }
}

fn unit_multiplier(unit: &str) -> (r: Option<u64>)
    ensures
        r == multiplier(unit@),
{
    let u = text::to_lower(text::trim(unit).as_str());
    let u = u.as_str();
    if u.is_empty() || text::same(u, "b") {
        Some(1)
    } else if text::same(u, "kb") {
        Some(1000)
    } else if text::same(u, "mb") {
        Some(1000000)
    } else if text::same(u, "gb") {
        Some(1000000000)
    } else if text::same(u, "tb") {
        Some(1000000000000)
    } else if text::same(u, "kib") {
        Some(1024)
    } else if text::same(u, "mib") {
        Some(1048576)
    } else if text::same(u, "gib") {
        Some(1073741824)
    } else {
        None
    }
}

/// Whether a size is taken apart as it should be.
pub open spec fn size_read(s: Seq<char>, r: Option<SizeParts>) -> bool {
    let t = text::trimmed(s);
    let n = number_len(t) as int;
    match r {
        Some(p) => {
            &&& t.len() > 0
            &&& p.number@ == t.take(n)
            &&& multiplier(t.skip(n)) == Some(p.multiplier)
        },
        None => t.len() == 0 || multiplier(t.skip(n)) is None,
    }
}

/// Takes a size apart, such as `12.3MB`. Nothing where it is blank or its unit
/// is unknown.
pub fn size_parts(s: &str) -> (r: Option<SizeParts>)
    ensures
        size_read(s@, r),
{
    let t = text::trim(s);
    let v = text::to_chars(t.as_str());
    if v.len() == 0 {
        return None;
    }
    let mut i: usize = 0;
    assert(v@.skip(0) =~= v@);
    while i < v.len() && (text::digit(v[i]) || v[i] == '.')
        invariant
            i <= v@.len(),
            number_len(v@) == i + number_len(v@.skip(i as int)),
        decreases v@.len() - i,
    {
        assert(v@.skip(i as int).skip(1) =~= v@.skip(i + 1));
        i += 1;
    }
    let head = slice_subrange(v.as_slice(), 0, i);
    let tail = slice_subrange(v.as_slice(), i, v.len());
    assert(head@ =~= v@.take(i as int));
    assert(tail@ =~= v@.skip(i as int));
    match unit_multiplier(text::from_chars(tail).as_str()) {
        Some(multiplier) => Some(SizeParts { number: text::from_chars(head), multiplier }),
        None => None,
    }
}

// ---------- the swarm ----------

/// What a host is in a swarm.
#[derive(Debug, Clone, Copy, PartialEq, Eq, Structural)]
pub enum SwarmRole {
    NotInSwarm,
    Manager,
    Worker,
}

/// What Docker says of the swarm.
#[derive(Debug)]
pub struct SwarmInfo {
    pub local_node_state: String,
    pub control_available: bool,
}

/// What a host is in a swarm, from what Docker says of it, if anything.
pub fn swarm_role(info: &Option<SwarmInfo>) -> (r: SwarmRole)
    ensures
        r == (match *info {
            Some(s) => if s.local_node_state@ != "active"@ {
                SwarmRole::NotInSwarm
            } else if s.control_available {
                SwarmRole::Manager
            } else {
                SwarmRole::Worker
            },
            None => SwarmRole::NotInSwarm,
        }),
{
    match info {
        Some(s) => if !text::same(s.local_node_state.as_str(), "active") {
            SwarmRole::NotInSwarm
        } else if s.control_available {
            SwarmRole::Manager
        } else {
            SwarmRole::Worker
        },
        None => SwarmRole::NotInSwarm,
    }
}

/// A service, summed up.
#[derive(Debug)]
pub struct SwarmServiceSpecSummary {
    pub image: String,
    pub image_digest: String,
    pub mode: String,
    pub replicas: Option<u32>,
    pub created_at: String,
    pub updated_at: String,
    pub env: Vec<String>,
    pub mounts: Vec<String>,
    pub networks: Vec<String>,
    pub constraints: Vec<String>,
    pub published_ports: Vec<String>,
}

/// A summary with its texts spelled out.
#[verifier::ext_equal]
pub struct SummaryView {
    pub image: Seq<char>,
    pub image_digest: Seq<char>,
    pub mode: Seq<char>,
    pub replicas: Option<u32>,
    pub created_at: Seq<char>,
    pub updated_at: Seq<char>,
    pub env: Seq<Seq<char>>,
    pub mounts: Seq<Seq<char>>,
    pub networks: Seq<Seq<char>>,
    pub constraints: Seq<Seq<char>>,
    pub published_ports: Seq<Seq<char>>,
}

impl View for SwarmServiceSpecSummary {
    type V = SummaryView;

    open spec fn view(&self) -> SummaryView {
        SummaryView {
            image: self.image@,
            image_digest: self.image_digest@,
            mode: self.mode@,
            replicas: self.replicas,
            created_at: self.created_at@,
            updated_at: self.updated_at@,
            env: text::texts(self.env@),
            mounts: text::texts(self.mounts@),
            networks: text::texts(self.networks@),
            constraints: text::texts(self.constraints@),
            published_ports: text::texts(self.published_ports@),
        }
    }
}

pub open spec fn summary_outcome(r: Result<SwarmServiceSpecSummary, String>) -> Result<
    SummaryView,
    Seq<char>,
> {
    match r {
        Ok(s) => Ok(s@),
        Err(e) => Err(e@),
    }
}

/// An image and its digest, apart.
pub open spec fn image_split(image: Seq<char>) -> (Seq<char>, Seq<char>) {
    match text::find_at(image, "@sha256:"@) {
        Some(at) => (
            image.take(at as int),
            "sha256:"@ + image.skip((at + "@sha256:"@.len()) as int),
        ),
        None => (image, Seq::empty()),
    }
}

/// The mode of a service, and how many replicas it is to have. A number of
/// replicas is kept to 32 bits.
pub open spec fn mode_read(mode: Option<JsonView>) -> (Seq<char>, Option<u32>) {
    if json::member(mode, "Replicated"@) is Some {
        (
            "replicated"@,
            match json::as_number(
                json::member(json::member(mode, "Replicated"@), "Replicas"@),
            ) {
                Some(n) => Some((n % 0x1_0000_0000) as u32),
                None => None,
            },
        )
    } else if json::member(mode, "Global"@) is Some {
        ("global"@, None)
    } else {
        ("unknown"@, None)
    }
}

/// The texts among some values.
pub open spec fn texts_among(v: Seq<JsonView>) -> Seq<Seq<char>>
    decreases v.len(),
{
    if v.len() == 0 {
        Seq::empty()
    } else {
        match json::as_text(Some(v.last())) {
            Some(s) => texts_among(v.drop_last()).push(s),
            None => texts_among(v.drop_last()),
        }
    }
}

/// The targets among some values.
pub open spec fn targets_among(v: Seq<JsonView>) -> Seq<Seq<char>>
    decreases v.len(),
{
    if v.len() == 0 {
        Seq::empty()
    } else {
        match json::as_text(json::member(Some(v.last()), "Target"@)) {
            Some(s) => targets_among(v.drop_last()).push(s),
            None => targets_among(v.drop_last()),
        }
    }
}

/// A mount, in words.
pub open spec fn mount_words(m: JsonView) -> Seq<char> {
    "type="@ + json::text_or(json::member(Some(m), "Type"@), "?"@) + ",source="@ + json::text_or(
        json::member(Some(m), "Source"@),
        ""@,
    ) + ",target="@ + json::text_or(json::member(Some(m), "Target"@), ""@)
}

pub open spec fn mounts_among(v: Seq<JsonView>) -> Seq<Seq<char>>
    decreases v.len(),
{
    if v.len() == 0 {
        Seq::empty()
    } else {
        mounts_among(v.drop_last()).push(mount_words(v.last()))
    }
}

pub open spec fn number_or_zero(j: Option<JsonView>) -> nat {
    match json::as_number(j) {
        Some(n) => n as nat,
        None => 0,
    }
}

/// A published port, in words.
pub open spec fn port_words(p: JsonView) -> Seq<char> {
    text::decimal(number_or_zero(json::member(Some(p), "PublishedPort"@))) + ":"@ + text::decimal(
        number_or_zero(json::member(Some(p), "TargetPort"@)),
    ) + "/"@ + json::text_or(json::member(Some(p), "Protocol"@), "tcp"@)
}

pub open spec fn ports_among(v: Seq<JsonView>) -> Seq<Seq<char>>
    decreases v.len(),
{
    if v.len() == 0 {
        Seq::empty()
    } else {
        ports_among(v.drop_last()).push(port_words(v.last()))
    }
}

/// The summary of a service, from what an inspection of it printed.
pub open spec fn summed_up(value: JsonView) -> Result<SummaryView, Seq<char>> {
    let all = json::elements(Some(value));
    if all.len() == 0 {
        Err("empty inspect array"@)
    } else {
        let inspect = Some(all[0]);
        let spec = json::member(inspect, "Spec"@);
        let task = json::member(spec, "TaskTemplate"@);
        let container = json::member(task, "ContainerSpec"@);
        let image = image_split(json::text_or(json::member(container, "Image"@), ""@));
        let mode = mode_read(json::member(spec, "Mode"@));
        Ok(
            SummaryView {
                image: image.0,
                image_digest: image.1,
                mode: mode.0,
                replicas: mode.1,
                created_at: json::text_or(json::member(inspect, "CreatedAt"@), ""@),
                updated_at: json::text_or(json::member(inspect, "UpdatedAt"@), ""@),
                env: texts_among(json::elements(json::member(container, "Env"@))),
                mounts: mounts_among(json::elements(json::member(container, "Mounts"@))),
                networks: targets_among(json::elements(json::member(task, "Networks"@))),
                constraints: texts_among(
                    json::elements(
                        json::member(json::member(task, "Placement"@), "Constraints"@),
                    ),
                ),
                published_ports: ports_among(
                    json::elements(
                        json::member(json::member(spec, "EndpointSpec"@), "Ports"@),
                    ),
                ),
            },
        )
    }
}

fn split_image(image: &str) -> (r: (String, String))
    ensures
        (r.0@, r.1@) == image_split(image@),
{
    let v = text::to_chars(image);
    let p = text::to_chars("@sha256:");
    let n = v.len();
    match text::find(v.as_slice(), p.as_slice()) {
        Some(at) => {
            let head = slice_subrange(v.as_slice(), 0, at);
            let tail = slice_subrange(v.as_slice(), at + p.len(), n);
            assert(head@ =~= image@.take(at as int));
            assert(tail@ =~= image@.skip((at + p@.len()) as int));
            (text::from_chars(head), text::join2("sha256:", text::from_chars(tail).as_str()))
        },
        None => {
            let none = String::new();
            assert(none@ =~= Seq::empty());
            (text::owned(image), none)
        },
    }
}

fn read_mode(mode: Option<&Json>) -> (r: (String, Option<u32>))
    ensures
        (r.0@, r.1) == mode_read(json::opt_json(mode)),
{
    let replicated = json::get(mode, "Replicated");
    if replicated.is_some() {
        let replicas = match json::number_of(json::get(replicated, "Replicas")) {
            Some(n) => Some((n % 0x1_0000_0000) as u32),
            None => None,
        };
        (text::owned("replicated"), replicas)
    } else if json::get(mode, "Global").is_some() {
        (text::owned("global"), None)
    } else {
        (text::owned("unknown"), None)
    }
}

fn list_texts(j: Option<&Json>) -> (r: Vec<String>)
    ensures
        text::texts(r@) == texts_among(json::elements(json::opt_json(j))),
{
    broadcast use text::lemma_texts_push;

    let ghost all = json::elements(json::opt_json(j));
    let n = json::count(j);
    let mut r: Vec<String> = Vec::new();
    let mut i: usize = 0;
    assert(text::texts(r@) =~= texts_among(all.take(0)));
    while i < n
        invariant
            i <= n,
            n == all.len(),
            all == json::elements(json::opt_json(j)),
            text::texts(r@) == texts_among(all.take(i as int)),
        decreases n - i,
    {
        assert(all.take(i + 1).drop_last() =~= all.take(i as int));
        if let Some(s) = json::text_of(json::element(j, i)) {
            r.push(s);
        }
        i += 1;
    }
    assert(all.take(i as int) =~= all);
    r
}

fn list_targets(j: Option<&Json>) -> (r: Vec<String>)
    ensures
        text::texts(r@) == targets_among(json::elements(json::opt_json(j))),
{
    broadcast use text::lemma_texts_push;

    let ghost all = json::elements(json::opt_json(j));
    let n = json::count(j);
    let mut r: Vec<String> = Vec::new();
    let mut i: usize = 0;
    assert(text::texts(r@) =~= targets_among(all.take(0)));
    while i < n
        invariant
            i <= n,
            n == all.len(),
            all == json::elements(json::opt_json(j)),
            text::texts(r@) == targets_among(all.take(i as int)),
        decreases n - i,
    {
        assert(all.take(i + 1).drop_last() =~= all.take(i as int));
        if let Some(s) = json::text_of(json::get(json::element(j, i), "Target")) {
            r.push(s);
        }
        i += 1;
    }
    assert(all.take(i as int) =~= all);
    r
}

fn list_mounts(j: Option<&Json>) -> (r: Vec<String>)
    ensures
        text::texts(r@) == mounts_among(json::elements(json::opt_json(j))),
{
    broadcast use text::lemma_texts_push;

    let ghost all = json::elements(json::opt_json(j));
    let n = json::count(j);
    let mut r: Vec<String> = Vec::new();
    let mut i: usize = 0;
    assert(text::texts(r@) =~= mounts_among(all.take(0)));
    while i < n
        invariant
            i <= n,
            n == all.len(),
            all == json::elements(json::opt_json(j)),
            text::texts(r@) == mounts_among(all.take(i as int)),
        decreases n - i,
    {
        assert(all.take(i + 1).drop_last() =~= all.take(i as int));
        let m = json::element(j, i);
        let mut words = text::join5(
            "type=",
            json::text_else(json::get(m, "Type"), "?").as_str(),
            ",source=",
            json::text_else(json::get(m, "Source"), "").as_str(),
            ",target=",
        );
        words.append(json::text_else(json::get(m, "Target"), "").as_str());
        r.push(words);
        i += 1;
    }
    assert(all.take(i as int) =~= all);
    r
}

fn number_else_zero(j: Option<&Json>) -> (r: u64)
    ensures
        r == number_or_zero(json::opt_json(j)),
{
    match json::number_of(j) {
        Some(n) => n,
        None => 0,
    }
}

fn list_ports(j: Option<&Json>) -> (r: Vec<String>)
    ensures
        text::texts(r@) == ports_among(json::elements(json::opt_json(j))),
{
    broadcast use text::lemma_texts_push;

    let ghost all = json::elements(json::opt_json(j));
    let n = json::count(j);
    let mut r: Vec<String> = Vec::new();
    let mut i: usize = 0;
    assert(text::texts(r@) =~= ports_among(all.take(0)));
    while i < n
        invariant
            i <= n,
            n == all.len(),
            all == json::elements(json::opt_json(j)),
            text::texts(r@) == ports_among(all.take(i as int)),
        decreases n - i,
    {
        assert(all.take(i + 1).drop_last() =~= all.take(i as int));
        let p = json::element(j, i);
        let published = text::decimal_text(number_else_zero(json::get(p, "PublishedPort")));
        let target = text::decimal_text(number_else_zero(json::get(p, "TargetPort")));
        let protocol = json::text_else(json::get(p, "Protocol"), "tcp");
        r.push(text::join5(published.as_str(), ":", target.as_str(), "/", protocol.as_str()));
        i += 1;
    }
    assert(all.take(i as int) =~= all);
    r
}

/// Sums a service up, from the JSON that an inspection of it printed.
pub fn summarize(value: &Json) -> (r: Result<SwarmServiceSpecSummary, String>)
    ensures
        summary_outcome(r) == summed_up(value@),
{
    let value = Some(value);
    if json::count(value) == 0 {
        return Err(text::owned("empty inspect array"));
    }
    let inspect = json::element(value, 0);
    let spec = json::get(inspect, "Spec");
    let task = json::get(spec, "TaskTemplate");
    let container = json::get(task, "ContainerSpec");
    let whole = json::text_else(json::get(container, "Image"), "");
    let (image, image_digest) = split_image(whole.as_str());
    let (mode, replicas) = read_mode(json::get(spec, "Mode"));
    Ok(
        SwarmServiceSpecSummary {
            image,
            image_digest,
            mode,
            replicas,
            created_at: json::text_else(json::get(inspect, "CreatedAt"), ""),
            updated_at: json::text_else(json::get(inspect, "UpdatedAt"), ""),
            env: list_texts(json::get(container, "Env")),
            mounts: list_mounts(json::get(container, "Mounts")),
            networks: list_targets(json::get(task, "Networks")),
            constraints: list_texts(json::get(json::get(task, "Placement"), "Constraints")),
            published_ports: list_ports(json::get(json::get(spec, "EndpointSpec"), "Ports")),
        },
    )
}

/// Sums a service up, from what an inspection of it printed.
pub fn service_inspect(out: &CommandOutput) -> (r: Result<SwarmServiceSpecSummary, String>)
    ensures
        summary_outcome(r) == (if !out@.success {
            Err(text::trimmed(out@.stderr))
        } else {
            match json::json_parsed(out@.stdout) {
                Err(e) => Err("parse inspect json: "@ + e),
                Ok(value) => summed_up(value),
            }
        }),
{
    if !out.success {
        return Err(text::trim(out.stderr.as_str()));
    }
    match json::parse_json(out.stdout.as_str()) {
        Err(e) => Err(text::join2("parse inspect json: ", e.as_str())),
        Ok(value) => summarize(&value),
    }
}

// ---------- laws ----------

/// No reference that gets through can be taken for an option: whatever object,
/// image, driver or subnet is named, it starts with a letter or a digit.
pub proof fn law_no_reference_is_an_option(value: Seq<char>)
    ensures
        object_refused(value) is None ==> starts_plain(value) && !text::begins(value, '-'),
        image_refused(value) is None ==> starts_plain(value) && !text::begins(value, '-'),
        driver_refused(value) is None ==> starts_plain(value) && !text::begins(value, '-'),
        subnet_refused(value) is None ==> value.len() > 0 && text::is_hex(value[0])
            && !text::begins(value, '-'),
{
    if value.len() == 0 {
        assert(value =~= Seq::empty());
        assert(text::byte_len(value) == 0);
    }
}

/// A reference ends where it ends: none that gets through holds a blank, a
/// quote or anything else that a shell would read as more than one word.
pub proof fn law_references_are_one_word(value: Seq<char>, i: int)
    requires
        object_refused(value) is None || image_refused(value) is None,
        0 <= i < value.len(),
    ensures
        text::is_alnum(value[i]) || "._-:/@+"@.contains(value[i]),
{
    reveal_strlit("._-:");
    reveal_strlit("._-:/@+");
    if !text::is_alnum(value[i]) && object_refused(value) is None {
        let c = value[i];
        assert("._-:"@.contains(c));
        let k = choose|k: int| 0 <= k < "._-:"@.len() && "._-:"@[k] == c;
        assert("._-:/@+"@[k] == c);
    }
}

/// What is asked of a container is what Docker is told: the verb of the request
/// and the container, and to remove one also that it may be running.
pub proof fn law_containers_get_what_was_asked(
    id: &str,
    action: DockerContainerAction,
    r: Result<Vec<String>, String>,
)
    requires
        call_ensures(plan_container_action, (id, action), r),
    ensures
        r is Ok ==> text::texts(r->Ok_0@) == (match action {
            DockerContainerAction::Start => seq!["start"@, id@],
            DockerContainerAction::Stop => seq!["stop"@, id@],
            DockerContainerAction::Restart => seq!["restart"@, id@],
            DockerContainerAction::Remove => seq!["rm"@, "-f"@, id@],
        }),
{
}

/// A reference to an object or an image is checked by its length, its first
/// character and its signs, and by nothing else.
pub proof fn law_references_are_checked(
    value: &str,
    object: Result<(), String>,
    image: Result<(), String>,
    driver: Result<(), String>,
    subnet: Result<(), String>,
)
    requires
        call_ensures(validate_object_ref, (value,), object),
        call_ensures(validate_image_ref, (value,), image),
        call_ensures(validate_network_driver, (value,), driver),
        call_ensures(validate_subnet, (value,), subnet),
    ensures
        object is Ok <==> value@.len() > 0 && text::byte_len(value@) <= 255 && text::is_alnum(
            value@[0],
        ) && forall|i: int|
            0 <= i < value@.len() ==> text::is_alnum(#[trigger] value@[i]) || value@[i] == '.'
                || value@[i] == '_' || value@[i] == '-' || value@[i] == ':',
        image is Ok <==> value@.len() > 0 && text::byte_len(value@) <= 512 && text::is_alnum(
            value@[0],
        ) && forall|i: int|
            0 <= i < value@.len() ==> text::is_alnum(#[trigger] value@[i]) || value@[i] == '.'
                || value@[i] == '_' || value@[i] == '-' || value@[i] == ':' || value@[i] == '/'
                || value@[i] == '@' || value@[i] == '+',
        driver is Ok <==> object is Ok,
        subnet is Ok <==> value@.len() > 0 && text::byte_len(value@) <= 128 && text::is_hex(
            value@[0],
        ) && forall|i: int|
            0 <= i < value@.len() ==> text::is_hex(#[trigger] value@[i]) || value@[i] == '.'
                || value@[i] == ':' || value@[i] == '/',
{
    reveal_strlit("._-:");
    reveal_strlit("._-:/@+");
    let a = "._-:"@;
    let b = "._-:/@+"@;
    assert(a[0] == '.' && a[1] == '_' && a[2] == '-' && a[3] == ':' && a.len() == 4);
    assert(b[0] == '.' && b[1] == '_' && b[2] == '-' && b[3] == ':' && b[4] == '/' && b[5] == '@'
        && b[6] == '+' && b.len() == 7);
    text::lemma_no_bytes(value@);
    let v = value@;
    if forall|i: int|
        0 <= i < v.len() ==> text::is_hex(#[trigger] v[i]) || v[i] == '.' || v[i] == ':' || v[i]
            == '/' {
        assert forall|i: int| 0 <= i < v.len() implies subnet_char(#[trigger] v[i]) by {}
    } else {
        let i = choose|i: int|
            0 <= i < v.len() && !(text::is_hex(#[trigger] v[i]) || v[i] == '.' || v[i] == ':'
                || v[i] == '/');
        assert(!subnet_char(v[i]));
    }
}

/// What is asked of a container, of a service or of another object is planned
/// where its reference passes, and only there.
pub proof fn law_fit_references_are_planned(
    id: &str,
    action: DockerContainerAction,
    change: SwarmAction,
    request: ObjectRequest,
    valid: Result<(), String>,
    a: Result<Vec<String>, String>,
    b: Result<Vec<String>, String>,
    c: Result<Vec<String>, String>,
)
    requires
        call_ensures(validate_object_ref, (id,), valid),
        call_ensures(plan_container_action, (id, action), a),
        call_ensures(plan_swarm_action, (id, change), b),
        call_ensures(plan_object, (id, request), c),
    ensures
        a is Ok <==> valid is Ok,
        b is Ok <==> valid is Ok,
        c is Ok <==> valid is Ok,
        valid matches Err(e) ==> a->Err_0@ == e@ && b->Err_0@ == e@ && c->Err_0@ == e@,
{
}

/// A service is scaled, updated or removed as asked.
pub proof fn law_services_get_what_was_asked(
    name: &str,
    action: SwarmAction,
    r: Result<Vec<String>, String>,
)
    requires
        call_ensures(plan_swarm_action, (name, action), r),
    ensures
        r is Ok ==> text::texts(r->Ok_0@) == (match action {
            SwarmAction::Scale(n) => seq![
                "service"@,
                "scale"@,
                name@ + "="@ + text::decimal(n as nat),
            ],
            SwarmAction::ForceUpdate => seq!["service"@, "update"@, "--force"@, name@],
            SwarmAction::Remove => seq!["service"@, "rm"@, name@],
        }),
{
}

/// Docker is told what was asked of an object, and of which.
pub proof fn law_objects_get_what_was_asked(
    name: &str,
    request: ObjectRequest,
    r: Result<Vec<String>, String>,
)
    requires
        call_ensures(plan_object, (name, request), r),
    ensures
        r is Ok ==> text::texts(r->Ok_0@) == (match request {
            ObjectRequest::ServiceTasks => seq![
                "service"@,
                "ps"@,
                name@,
                "--format"@,
                "{{json .}}"@,
                "--no-trunc"@,
            ],
            ObjectRequest::ServiceInspect => seq!["service"@, "inspect"@, name@],
            ObjectRequest::NetworkInspect => seq!["network"@, "inspect"@, name@],
            ObjectRequest::NetworkRemove => seq!["network"@, "rm"@, name@],
            ObjectRequest::VolumeInspect => seq!["volume"@, "inspect"@, name@],
            ObjectRequest::VolumeRemove { force } => if force {
                seq!["volume"@, "rm"@, "--force"@, name@]
            } else {
                seq!["volume"@, "rm"@, name@]
            },
            ObjectRequest::StackServices => seq![
                "stack"@,
                "services"@,
                "--format"@,
                "{{json .}}"@,
                name@,
            ],
            ObjectRequest::StackTasks => seq![
                "stack"@,
                "ps"@,
                "--no-trunc"@,
                "--format"@,
                "{{json .}}"@,
                name@,
            ],
            ObjectRequest::StackRemove => seq!["stack"@, "rm"@, name@],
            ObjectRequest::StackDeploy { prune } => if prune {
                seq![
                    "stack"@,
                    "deploy"@,
                    "--compose-file"@,
                    "-"@,
                    "--with-registry-auth"@,
                    "--prune"@,
                    name@,
                ]
            } else {
                seq!["stack"@, "deploy"@, "--compose-file"@, "-"@, "--with-registry-auth"@, name@]
            },
        }),
{
}

/// An image is removed or pulled as asked, where its reference passes.
pub proof fn law_images_get_what_was_asked(
    id: &str,
    force: bool,
    valid: Result<(), String>,
    removed: Result<Vec<String>, String>,
    pulled: Result<Vec<String>, String>,
)
    requires
        call_ensures(validate_image_ref, (id,), valid),
        call_ensures(plan_remove_image, (id, force), removed),
        call_ensures(plan_pull_image, (id,), pulled),
    ensures
        removed is Ok <==> valid is Ok,
        pulled is Ok <==> valid is Ok,
        removed is Ok && force ==> text::texts(removed->Ok_0@) == seq!["rmi"@, "--force"@, id@],
        removed is Ok && !force ==> text::texts(removed->Ok_0@) == seq!["rmi"@, id@],
        pulled is Ok ==> text::texts(pulled->Ok_0@) == seq!["pull"@, id@],
{
}

/// A network is created with the driver, the subnet and the switches that were
/// given, under its name.
pub proof fn law_networks_get_what_was_asked(spec: &NetworkSpec, r: Result<Vec<String>, String>)
    requires
        call_ensures(plan_create_network, (spec,), r),
    ensures
        r is Ok <==> object_refused(spec.name@) is None && object_refused(spec.driver@) is None && (
        spec.subnet is Some && spec.subnet->0@.len() > 0 ==> subnet_refused(spec.subnet->0@)
            is None),
        r is Ok ==> text::texts(r->Ok_0@) == seq![
            "network"@,
            "create"@,
            "--driver"@,
            spec.driver@,
        ] + (if spec.subnet is Some && spec.subnet->0@.len() > 0 {
            seq!["--subnet"@, spec.subnet->0@]
        } else {
            Seq::empty()
        }) + (if spec.attachable {
            seq!["--attachable"@]
        } else {
            Seq::empty()
        }) + (if spec.internal {
            seq!["--internal"@]
        } else {
            Seq::empty()
        }) + seq![spec.name@],
{
}

/// A prune of the system takes the volumes only where that was asked.
pub proof fn law_prunes_spare_volumes(volumes: bool, r: Vec<String>)
    requires
        call_ensures(system_prune_argv, (volumes,), r),
    ensures
        volumes ==> text::texts(r@) == seq!["system"@, "prune"@, "-af"@, "--volumes"@],
        !volumes ==> text::texts(r@) == seq!["system"@, "prune"@, "-af"@],
{
}

/// A request is reported as it ended, with what Docker printed.
pub proof fn law_requests_are_reported(
    what: &str,
    out: &CommandOutput,
    action: DockerReport,
    inspect: DockerReport,
    other: Option<DockerReport>,
)
    requires
        call_ensures(finish_action, (out,), action),
        call_ensures(finish_inspect, (out,), inspect),
        call_ensures(finish, (what, out), other),
    ensures
        action.success == out.success && inspect.success == out.success,
        action.error is None <==> out.success,
        inspect.error is None <==> out.success,
        !out.success ==> action.error->0@ == "exit code "@ + text::code_words(out.code)
            && inspect.error->0@ == text::trimmed(out.stderr@),
        inspect.log@ == out.stdout@,
        out.stderr@.len() == 0 ==> action.log@ == out.stdout@,
        out.stdout@.len() == 0 ==> action.log@ == out.stderr@,
        out.stdout@.len() > 0 && out.stderr@.len() > 0 ==> action.log@ == out.stdout@ + "\n"@
            + out.stderr@,
        other matches Some(r) ==> r.success == out.success && (r.error is None <==> out.success),
        other matches Some(r) ==> (!out.success ==> r.error->0@ == what@ + " exit "@
            + text::code_words(out.code)),
{
    assert(out@.success == out.success && out@.code == out.code && out@.stdout == out.stdout@
        && out@.stderr == out.stderr@);
    assert(action@.success == action.success && action@.log == action.log@ && action@.error
        == text::opt_text(action.error));
    assert(inspect@.success == inspect.success && inspect@.log == inspect.log@ && inspect@.error
        == text::opt_text(inspect.error));
    if let Some(r) = other {
        assert(opt_report(other) == Some(r@));
        assert(r@.success == r.success && r@.error == text::opt_text(r.error));
    }
}

/// What Docker printed is there in full where it is short, its errors under a
/// heading.
pub proof fn law_short_output_is_whole(out: &CommandOutput, r: Option<String>)
    requires
        call_ensures(combine_stdout_stderr, (out,), r),
    ensures
        out.stderr@.len() == 0 && text::byte_len(out.stdout@) <= 8000 ==> r is Some && r->0@
            == out.stdout@,
        out.stdout@.len() == 0 && text::byte_len(out.stderr@) <= 8000 ==> r is Some && r->0@
            == out.stderr@,
        out.stdout@.len() > 0 && out.stderr@.len() > 0 && text::byte_len(
            out.stdout@ + "\n--- stderr ---\n"@ + out.stderr@,
        ) <= 8000 ==> r is Some && r->0@ == out.stdout@ + "\n--- stderr ---\n"@ + out.stderr@,
{
    assert(out@.stdout == out.stdout@ && out@.stderr == out.stderr@);
    if out.stdout@.len() == 0 && out.stderr@.len() == 0 {
        assert(out.stdout@ =~= out.stderr@);
    }
}

/// A network that was created has the id that Docker printed; one that was not
/// has none.
pub proof fn law_created_networks_have_an_id(out: &CommandOutput, r: Option<NetworkReport>)
    requires
        call_ensures(finish_create_network, (out,), r),
    ensures
        r matches Some(n) ==> n.report.success == out.success,
        r matches Some(n) ==> (out.success ==> n.id is Some && n.id->0@ == text::trimmed(
            out.stdout@,
        )),
        r matches Some(n) ==> (!out.success ==> n.id is None && text::opt_text(n.report.error)
            == Some("docker network create exit "@ + text::code_words(out.code))),
{
    assert(out@.success == out.success && out@.code == out.code && out@.stdout == out.stdout@);
    if let Some(n) = r {
        assert(n.report@.success == n.report.success && n.report@.error == text::opt_text(
            n.report.error,
        ));
        reveal_strlit("docker network create");
        reveal_strlit(" exit ");
        reveal_strlit("docker network create exit ");
        assert("docker network create"@ + " exit "@ =~= "docker network create exit "@);
    }
}

/// A request that did not run is reported with the stage that it failed at.
pub proof fn law_nothing_run_says_why(stage: &str, error: &str, r: DockerReport)
    requires
        call_ensures(not_run, (stage, error), r),
    ensures
        !r.success,
        text::opt_text(r.error) == Some(stage@ + error@),
        r.log@.len() == 0,
{
    assert(r@.success == r.success && r@.log == r.log@ && r@.error == text::opt_text(r.error));
}

proof fn lemma_full_lines(rows: Seq<Seq<char>>)
    ensures
        full_lines(rows, false) == rows.filter(|row: Seq<char>| text::trimmed(row).len() > 0),
        full_lines(rows, true) == rows.map_values(|row: Seq<char>| text::trimmed(row)).filter(
            |row: Seq<char>| row.len() > 0,
        ),
    decreases rows.len(),
{
    reveal(Seq::filter);
    let trim = |row: Seq<char>| text::trimmed(row);
    let full = |row: Seq<char>| row.len() > 0;
    let said = |row: Seq<char>| text::trimmed(row).len() > 0;
    let all = rows.map_values(trim);
    if rows.len() > 0 {
        let front = rows.drop_last();
        lemma_full_lines(front);
        assert(all.drop_last() =~= front.map_values(trim));
        assert(all.last() == text::trimmed(rows.last()));
    }
    assert(full_lines(rows, false) =~= rows.filter(said));
    assert(full_lines(rows, true) =~= all.filter(full));
}

/// A listing gives every line that is not blank, in order; where it failed, the
/// complaint.
pub proof fn law_listings_give_every_line(
    out: &CommandOutput,
    trim_rows: bool,
    r: Result<Vec<String>, String>,
)
    requires
        call_ensures(listed_rows, (out, trim_rows), r),
    ensures
        r is Ok <==> out.success,
        r matches Err(e) ==> e@ == text::trimmed(out.stderr@),
        r matches Ok(v) ==> (!trim_rows ==> text::texts(v@) == text::lines(out.stdout@).filter(
            |row: Seq<char>| text::trimmed(row).len() > 0,
        )),
        r matches Ok(v) ==> (trim_rows ==> text::texts(v@) == text::lines(out.stdout@).map_values(
            |row: Seq<char>| text::trimmed(row),
        ).filter(|row: Seq<char>| row.len() > 0)),
{
    assert(out@.success == out.success && out@.stdout == out.stdout@ && out@.stderr
        == out.stderr@);
    lemma_full_lines(text::lines(out.stdout@));
}

/// Ids are shown short or without the name of their digest, and the age of an
/// image as far as it is known.
pub proof fn law_ids_and_ages_are_shown(
    id: &str,
    digest: Seq<char>,
    since: &str,
    at: &str,
    container: String,
    image: String,
    created: String,
)
    requires
        call_ensures(container_id, (id,), container),
        call_ensures(image_id, (id,), image),
        call_ensures(image_created, (since, at), created),
    ensures
        id@.len() >= 12 ==> container@ == id@.subrange(0, 12),
        id@.len() < 12 ==> container@ == id@,
        id@ == "sha256:"@ + digest ==> image@ == digest,
        !"sha256:"@.is_prefix_of(id@) ==> image@ == id@,
        since@.len() > 0 ==> created@ == since@,
        since@.len() == 0 ==> created@ == at@,
{
    text::law_shortening(id@, 12);
    if id@.len() >= 12 {
        assert(container@ =~= id@.subrange(0, 12));
    }
    if id@ == "sha256:"@ + digest {
        let p = "sha256:"@;
        assert(id@.subrange(0, p.len() as int) =~= p);
        assert(id@.skip(p.len() as int) =~= digest);
    }
}

/// A switch is on where Docker prints it so; a count is the number printed.
pub proof fn law_switches_and_counts_are_read(s: &str, n: u32, on: bool, count: u32)
    requires
        call_ensures(flag, (s,), on),
        call_ensures(count_of, (s,), count),
    ensures
        on <==> s@ == "true"@ || s@ == "True"@ || s@ == "1"@,
        s@ == text::decimal(n as nat) ==> count == n,
        text::read_unsigned(s@, u32::MAX as nat) is None ==> count == 0,
{
    text::law_decimal_reads_back(n as nat, u32::MAX as nat);
}

/// A pair of sizes falls apart at the slash, the first size before it and the
/// second behind it.
pub proof fn law_pairs_fall_apart(s: &str, a: Seq<char>, b: Seq<char>, r: (String, String))
    requires
        call_ensures(pair_parts, (s,), r),
        s@ == a + seq!['/'] + b,
        !a.contains('/'),
        !b.contains('/'),
    ensures
        r.0@ == text::trimmed(a),
        r.1@ == text::trimmed(b),
{
    text::lemma_split_between(a, b, '/');
    text::law_text_without_separator_is_one_piece(a, '/');
    text::law_text_without_separator_is_one_piece(b, '/');
    assert(seq![a] + seq![b] =~= seq![a, b]);
}

/// Each unit multiplies as it should, whatever its case and the blanks around
/// it; another unit is none.
pub proof fn law_units_multiply(unit: Seq<char>)
    ensures
        ({
            let u = text::lower(text::trimmed(unit));
            &&& multiplier(unit) == Some(1u64) <==> u.len() == 0 || u == "b"@
            &&& multiplier(unit) == Some(1000u64) <==> u == "kb"@
            &&& multiplier(unit) == Some(1000000u64) <==> u == "mb"@
            &&& multiplier(unit) == Some(1000000000u64) <==> u == "gb"@
            &&& multiplier(unit) == Some(1000000000000u64) <==> u == "tb"@
            &&& multiplier(unit) == Some(1024u64) <==> u == "kib"@
            &&& multiplier(unit) == Some(1048576u64) <==> u == "mib"@
            &&& multiplier(unit) == Some(1073741824u64) <==> u == "gib"@
        }),
{
    reveal_strlit("b");
    reveal_strlit("kb");
    reveal_strlit("mb");
    reveal_strlit("gb");
    reveal_strlit("tb");
    reveal_strlit("kib");
    reveal_strlit("mib");
    reveal_strlit("gib");
    assert("b"@.len() == 1 && "kb"@.len() == 2 && "kib"@.len() == 3);
    assert("kb"@[0] == 'k' && "mb"@[0] == 'm' && "gb"@[0] == 'g' && "tb"@[0] == 't');
    assert("kib"@[0] == 'k' && "mib"@[0] == 'm' && "gib"@[0] == 'g');
    assert("mb"@.len() == 2 && "gb"@.len() == 2 && "tb"@.len() == 2 && "mib"@.len() == 3
        && "gib"@.len() == 3);
}

/// A size is the digits and points at its front, and the unit behind them.
pub proof fn law_sizes_are_taken_apart(
    s: &str,
    number: Seq<char>,
    unit: Seq<char>,
    r: Option<SizeParts>,
)
    requires
        call_ensures(size_parts, (s,), r),
        text::trimmed(s@) == number + unit,
        number.len() + unit.len() > 0,
        forall|i: int|
            0 <= i < number.len() ==> text::is_digit(#[trigger] number[i]) || number[i] == '.',
        unit.len() > 0 ==> !text::is_digit(unit[0]) && unit[0] != '.',
    ensures
        r is Some <==> multiplier(unit) is Some,
        r matches Some(p) ==> p.number@ == number && multiplier(unit) == Some(p.multiplier),
{
    lemma_number_len(number, unit);
    let t = number + unit;
    assert(t.take(number.len() as int) =~= number);
    assert(t.skip(number.len() as int) =~= unit);
}

proof fn lemma_number_len(number: Seq<char>, unit: Seq<char>)
    requires
        forall|i: int|
            0 <= i < number.len() ==> text::is_digit(#[trigger] number[i]) || number[i] == '.',
        unit.len() > 0 ==> !text::is_digit(unit[0]) && unit[0] != '.',
    ensures
        number_len(number + unit) == number.len(),
    decreases number.len(),
{
    let t = number + unit;
    if number.len() == 0 {
        assert(t =~= unit);
    } else {
        let rest = number.skip(1);
        assert forall|i: int| 0 <= i < rest.len() implies text::is_digit(#[trigger] rest[i])
            || rest[i] == '.' by {
            assert(rest[i] == number[i + 1]);
        }
        lemma_number_len(rest, unit);
        assert(t[0] == number[0]);
        assert(t.skip(1) =~= rest + unit);
    }
}

/// A host is in a swarm where Docker calls its node active, and a manager where
/// it can control the swarm.
pub proof fn law_swarm_roles_are_told(info: &Option<SwarmInfo>, r: SwarmRole)
    requires
        call_ensures(swarm_role, (info,), r),
    ensures
        r == SwarmRole::NotInSwarm <==> *info is None || (*info)->0.local_node_state@
            != "active"@,
        r == SwarmRole::Manager <==> *info is Some && (*info)->0.local_node_state@ == "active"@
            && (*info)->0.control_available,
        r == SwarmRole::Worker <==> *info is Some && (*info)->0.local_node_state@ == "active"@
            && !(*info)->0.control_available,
{
}

/// An image and its digest fall apart at the digest; without one the image is
/// all there is.
pub proof fn law_digests_fall_off(image: Seq<char>, digest: Seq<char>)
    requires
        !image.contains('@'),
    ensures
        image_split(image + "@sha256:"@ + digest) == (image, "sha256:"@ + digest),
        image_split(image) == (image, Seq::<char>::empty()),
{
    let p = "@sha256:"@;
    let s = image + p + digest;
    lemma_digest_found(image, digest);
    assert(s.take(image.len() as int) =~= image);
    assert(s.skip((image.len() + p.len()) as int) =~= digest);
    lemma_no_digest(image);
}

proof fn lemma_digest_found(image: Seq<char>, digest: Seq<char>)
    requires
        !image.contains('@'),
    ensures
        text::find_at(image + "@sha256:"@ + digest, "@sha256:"@) == Some(image.len()),
{
    let p = "@sha256:"@;
    let s = image + p + digest;
    assert(p.len() > 0 && p[0] == '@') by {
        reveal_strlit("@sha256:");
    }
    let rest = s.skip(image.len() as int);
    assert(rest =~= p + digest);
    assert(rest.subrange(0, p.len() as int) =~= p);
    assert forall|j: int| 0 <= j < image.len() implies s[j] != p[0] by {
        assert(s[j] == image[j]);
        assert(image.contains(image[j]));
    }
    text::law_found_at_its_first_character(s, p, image.len());
}

proof fn lemma_no_digest(image: Seq<char>)
    requires
        !image.contains('@'),
    ensures
        text::find_at(image, "@sha256:"@) is None,
{
    let p = "@sha256:"@;
    assert(p.len() > 0 && p[0] == '@') by {
        reveal_strlit("@sha256:");
    }
    assert forall|j: int| 0 <= j < image.len() implies image[j] != p[0] by {
        assert(image.contains(image[j]));
    }
    text::law_found_at_its_first_character(image, p, image.len());
}

/// The texts, targets, mounts and ports of a service are all told, in order.
pub proof fn law_lists_of_a_service_are_whole(v: Seq<JsonView>)
    ensures
        texts_among(v) == v.map_values(|j: JsonView| json::as_text(Some(j))).filter(
            |t: Option<Seq<char>>| t is Some,
        ).map_values(|t: Option<Seq<char>>| t->0),
        targets_among(v) == v.map_values(
            |j: JsonView| json::as_text(json::member(Some(j), "Target"@)),
        ).filter(|t: Option<Seq<char>>| t is Some).map_values(|t: Option<Seq<char>>| t->0),
        mounts_among(v) == v.map_values(|j: JsonView| mount_words(j)),
        ports_among(v) == v.map_values(|j: JsonView| port_words(j)),
    decreases v.len(),
{
    reveal(Seq::filter);
    let f = |j: JsonView| json::as_text(Some(j));
    let g = |j: JsonView| json::as_text(json::member(Some(j), "Target"@));
    let some = |t: Option<Seq<char>>| t is Some;
    let out = |t: Option<Seq<char>>| t->0;
    if v.len() > 0 {
        let front = v.drop_last();
        law_lists_of_a_service_are_whole(front);
        assert(v.map_values(f).drop_last() =~= front.map_values(f));
        assert(v.map_values(g).drop_last() =~= front.map_values(g));
        assert(v.map_values(f).last() == f(v.last()));
        assert(v.map_values(g).last() == g(v.last()));
        if f(v.last()) is Some {
            assert(v.map_values(f).filter(some) =~= front.map_values(f).filter(some).push(
                f(v.last()),
            ));
        }
        if g(v.last()) is Some {
            assert(v.map_values(g).filter(some) =~= front.map_values(g).filter(some).push(
                g(v.last()),
            ));
        }
    }
    assert(texts_among(v) =~= v.map_values(f).filter(some).map_values(out));
    assert(targets_among(v) =~= v.map_values(g).filter(some).map_values(out));
    assert(mounts_among(v) =~= v.map_values(|j: JsonView| mount_words(j)));
    assert(ports_among(v) =~= v.map_values(|j: JsonView| port_words(j)));
}

/// A summary of a service holds what the inspection says, each field from its
/// own place.
pub proof fn law_services_are_summed_up(
    value: &Json,
    r: Result<SwarmServiceSpecSummary, String>,
)
    requires
        call_ensures(summarize, (value,), r),
    ensures
        r is Ok <==> json::elements(Some(value@)).len() > 0,
        r matches Ok(s) ==> ({
            let top = Some(json::elements(Some(value@))[0]);
            let spec = json::member(top, "Spec"@);
            let task = json::member(spec, "TaskTemplate"@);
            let container = json::member(task, "ContainerSpec"@);
            let mode = json::member(spec, "Mode"@);
            &&& (s.image@, s.image_digest@) == image_split(
                json::text_or(json::member(container, "Image"@), ""@),
            )
            &&& s.created_at@ == json::text_or(json::member(top, "CreatedAt"@), ""@)
            &&& s.updated_at@ == json::text_or(json::member(top, "UpdatedAt"@), ""@)
            &&& text::texts(s.env@) == texts_among(
                json::elements(json::member(container, "Env"@)),
            )
            &&& text::texts(s.mounts@) == mounts_among(
                json::elements(json::member(container, "Mounts"@)),
            )
            &&& text::texts(s.networks@) == targets_among(
                json::elements(json::member(task, "Networks"@)),
            )
            &&& text::texts(s.constraints@) == texts_among(
                json::elements(json::member(json::member(task, "Placement"@), "Constraints"@)),
            )
            &&& text::texts(s.published_ports@) == ports_among(
                json::elements(json::member(json::member(spec, "EndpointSpec"@), "Ports"@)),
            )
            &&& json::member(mode, "Replicated"@) is Some ==> s.mode@ == "replicated"@
            &&& json::member(mode, "Replicated"@) is None ==> s.replicas is None && s.mode@ == (
            if json::member(mode, "Global"@) is Some {
                "global"@
            } else {
                "unknown"@
            })
        }),
{
    if let Ok(s) = r {
        let v = s@;
        assert(summary_outcome(r) == Ok::<SummaryView, Seq<char>>(v));
        assert(v.image == s.image@ && v.image_digest == s.image_digest@ && v.mode == s.mode@
            && v.replicas == s.replicas && v.created_at == s.created_at@ && v.updated_at
            == s.updated_at@);
    }
}

/// A service is to have the replicas that its mode counts.
pub proof fn law_replicas_are_counted(mode: Option<JsonView>, n: u32)
    ensures
        json::member(mode, "Replicated"@) is Some && json::as_number(
            json::member(json::member(mode, "Replicated"@), "Replicas"@),
        ) == Some(n as u64) ==> mode_read(mode) == ("replicated"@, Some(n)),
{
}

/// A port is told with where it is published, its target and its protocol; what
/// is missing counts as zero, and as `tcp`.
pub proof fn law_ports_are_worded(j: JsonView, from: u64, to: u64, protocol: Seq<char>)
    ensures
        ({
            let published = json::as_number(json::member(Some(j), "PublishedPort"@));
            let target = json::as_number(json::member(Some(j), "TargetPort"@));
            let by = json::as_text(json::member(Some(j), "Protocol"@));
            (published == Some(from) || published is None && from == 0) && (target == Some(to)
                || target is None && to == 0) && (by == Some(protocol) || by is None && protocol
                == "tcp"@) ==> port_words(j) == text::decimal(from as nat) + ":"@ + text::decimal(
                to as nat,
            ) + "/"@ + protocol
        }),
{
}

/// A mount is told with its type, its source and its target; a missing type is
/// a question mark, and the others are blank.
pub proof fn law_mounts_are_worded(
    j: JsonView,
    kind: Seq<char>,
    source: Seq<char>,
    target: Seq<char>,
)
    ensures
        ({
            let a = json::as_text(json::member(Some(j), "Type"@));
            let b = json::as_text(json::member(Some(j), "Source"@));
            let c = json::as_text(json::member(Some(j), "Target"@));
            (a == Some(kind) || a is None && kind == "?"@) && (b == Some(source) || b is None
                && source == ""@) && (c == Some(target) || c is None && target == ""@)
                ==> mount_words(j) == "type="@ + kind + ",source="@ + source + ",target="@ + target
        }),
{
}

/// A failed inspection is told as Docker tells it.
pub proof fn law_failed_inspections_are_told(
    out: &CommandOutput,
    r: Result<SwarmServiceSpecSummary, String>,
)
    requires
        call_ensures(service_inspect, (out,), r),
    ensures
        !out.success ==> r is Err && r->Err_0@ == text::trimmed(out.stderr@),
        out.success && json::json_parsed(out.stdout@) is Err ==> r is Err && r->Err_0@
            == "parse inspect json: "@ + json::json_parsed(out.stdout@)->Err_0,
        out.success && json::json_parsed(out.stdout@) is Ok && json::elements(
            Some(json::json_parsed(out.stdout@)->Ok_0),
        ).len() > 0 ==> r is Ok,
{
    assert(out@.success == out.success && out@.stdout == out.stdout@ && out@.stderr
        == out.stderr@);
}

/// Longer output is cut down to its last eight thousand bytes.
pub proof fn law_long_output_is_cut(out: &CommandOutput, r: Option<String>)
    requires
        call_ensures(combine_stdout_stderr, (out,), r),
        out.stderr@.len() == 0,
        text::byte_len(out.stdout@) > 8000,
        r is Some,
    ensures
        exists|k: int|
            0 <= k <= out.stdout@.len() && text::byte_len(#[trigger] out.stdout@.skip(k)) == 8000
                && r->0@ == "…["@ + text::decimal((text::byte_len(out.stdout@) - 8000) as nat)
                + " bytes truncated]…\n"@ + out.stdout@.skip(k),
{
    assert(out@.stdout == out.stdout@ && out@.stderr == out.stderr@);
    output::law_cut_logs_are_exact(out.stdout@, 8000);
}

/// A percentage is told without its sign, and without blanks around it.
pub proof fn law_percentages_lose_their_sign(s: &str, number: Seq<char>, signs: nat, r: String)
    requires
        call_ensures(percentage, (s,), r),
        number.len() > 0,
        number[0] != '%',
        number.last() != '%',
        s@ == number + Seq::new(signs, |i: int| '%'),
    ensures
        r@ == text::trimmed(number),
{
    text::law_stripping_a_character(number, '%', signs);
}

/// A refused reference says whether it is its length or its spelling that is
/// wrong, and of what it is a reference.
pub proof fn law_refused_references_say_why(
    value: &str,
    object: Result<(), String>,
    image: Result<(), String>,
    driver: Result<(), String>,
    subnet: Result<(), String>,
)
    requires
        call_ensures(validate_object_ref, (value,), object),
        call_ensures(validate_image_ref, (value,), image),
        call_ensures(validate_network_driver, (value,), driver),
        call_ensures(validate_subnet, (value,), subnet),
    ensures
        object matches Err(e) ==> e@ == (if 0 < text::byte_len(value@) <= 255 {
            "invalid docker object reference"@
        } else {
            "docker object reference must be 1..=255 characters"@
        }),
        image matches Err(e) ==> e@ == (if 0 < text::byte_len(value@) <= 512 {
            "invalid docker image reference"@
        } else {
            "docker image reference must be 1..=512 characters"@
        }),
        driver matches Err(e) ==> e@ == "invalid docker network driver"@,
        subnet matches Err(e) ==> e@ == "invalid docker network subnet"@,
{
}

}
