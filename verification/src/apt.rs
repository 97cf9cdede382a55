//! Package upgrades: reading the list of upgradable packages, and running an
//! upgrade in a transient unit that outlives the agent.

use crate::output;
use crate::output::CommandOutput;
use crate::text;
use vstd::prelude::*;
use vstd::slice::slice_subrange;

verus! {

/// How much of an upgrade's log is kept.
pub const APT_LOG_CAP: usize = 16000;

/// How much of each stream of a refresh is shown.
pub const REFRESH_LOG_CAP: usize = 4000;

// ---------- the list of packages ----------

/// A package that can be upgraded.
#[derive(Debug)]
pub struct AptUpgradable {
    pub name: String,
    pub current_version: String,
    pub new_version: String,
    pub source: String,
}

/// A package with its texts spelled out.
#[verifier::ext_equal]
pub struct UpgradableView {
    pub name: Seq<char>,
    pub current_version: Seq<char>,
    pub new_version: Seq<char>,
    pub source: Seq<char>,
}

impl View for AptUpgradable {
    type V = UpgradableView;

    open spec fn view(&self) -> UpgradableView {
        UpgradableView {
            name: self.name@,
            current_version: self.current_version@,
            new_version: self.new_version@,
            source: self.source@,
        }
    }
}

pub open spec fn packages(v: Seq<AptUpgradable>) -> Seq<UpgradableView> {
    v.map_values(|p: AptUpgradable| p@)
}

/// Whether a line is no package: blank, the heading or a warning.
pub open spec fn skipped(line: Seq<char>) -> bool {
    line.len() == 0 || "Listing"@.is_prefix_of(line) || "WARNING"@.is_prefix_of(line)
}

/// The version that is installed, from the words behind the architecture.
pub open spec fn installed(rest: Seq<char>) -> Seq<char> {
    match text::find_at(rest, "upgradable from: "@) {
        Some(at) => text::trimmed(
            text::strip_back(rest.skip((at + "upgradable from: "@.len()) as int), ']'),
        ),
        None => Seq::empty(),
    }
}

/// The package on a line: `name/source new-version arch [upgradable from:
/// old-version]`.
pub open spec fn line_package(line: Seq<char>) -> Option<UpgradableView> {
    let fields = text::words(line);
    if skipped(line) || fields.len() < 2 {
        None
    } else {
        let (name, source) = text::halves(fields[0], '/');
        if name.len() == 0 {
            None
        } else {
            Some(
                UpgradableView {
                    name,
                    current_version: installed(
                        text::joined(
                            if fields.len() > 3 {
                                fields.skip(3)
                            } else {
                                Seq::empty()
                            },
                            " "@,
                        ),
                    ),
                    new_version: fields[1],
                    source: match source {
                        Some(s) => s,
                        None => Seq::empty(),
                    },
                },
            )
        }
    }
}

/// The packages on some lines.
pub open spec fn line_packages(rows: Seq<Seq<char>>) -> Seq<UpgradableView>
    decreases rows.len(),
{
    if rows.len() == 0 {
        Seq::empty()
    } else {
        match line_package(rows.last()) {
            Some(p) => line_packages(rows.drop_last()).push(p),
            None => line_packages(rows.drop_last()),
        }
    }
}

fn installed_version(rest: &str) -> (r: String)
    ensures
        r@ == installed(rest@),
{
    let v = text::to_chars(rest);
    let p = text::to_chars("upgradable from: ");
    let n = v.len();
    match text::find(v.as_slice(), p.as_slice()) {
        Some(at) => {
            let tail = slice_subrange(v.as_slice(), at + p.len(), n);
            assert(tail@ =~= rest@.skip((at + p@.len()) as int));
            text::trim(text::from_chars(text::drop_char(tail, ']')).as_str())
        },
        None => {
            let r = String::new();
            assert(r@ =~= Seq::empty());
            r
        },
    }
}

fn read_package(line: &str) -> (r: Option<AptUpgradable>)
    ensures
        line_package(line@) == (match r {
            Some(p) => Some(p@),
            None => None,
        }),
{
    if line.is_empty() || text::starts_with(line, "Listing") || text::starts_with(line, "WARNING") {
        return None;
    }
    let fields = text::split_words(line);
    assert(text::texts(fields@).len() == fields@.len());
    if fields.len() < 2 {
        return None;
    }
    assert(text::texts(fields@)[0] == fields@[0]@);
    assert(text::texts(fields@)[1] == fields@[1]@);
    let (name, source) = text::split_first(fields[0].as_str(), '/');
    if name.as_str().is_empty() {
        return None;
    }
    let rest = if fields.len() > 3 {
        let tail = slice_subrange(fields.as_slice(), 3, fields.len());
        assert(text::texts(tail@) =~= text::texts(fields@).skip(3));
        text::join(tail, " ")
    } else {
        let none: Vec<String> = Vec::new();
        assert(text::texts(none@) =~= Seq::empty());
        text::join(none.as_slice(), " ")
    };
    let source = match source {
        Some(s) => s,
        None => {
            let s = String::new();
            assert(s@ =~= Seq::empty());
            s
        },
    };
    Some(
        AptUpgradable {
            name,
            current_version: installed_version(rest.as_str()),
            new_version: text::owned(fields[1].as_str()),
            source,
        },
    )
}

/// Reads the list of upgradable packages.
pub fn parse_apt_list(stdout: &str) -> (r: Vec<AptUpgradable>)
    ensures
        packages(r@) == line_packages(text::lines(stdout@)),
{
    let rows = text::split_lines(stdout);
    let mut r: Vec<AptUpgradable> = Vec::new();
    let mut i: usize = 0;
    assert(packages(r@) =~= line_packages(text::texts(rows@).take(0)));
    while i < rows.len()
        invariant
            i <= rows@.len(),
            packages(r@) == line_packages(text::texts(rows@).take(i as int)),
        decreases rows@.len() - i,
    {
        assert(text::texts(rows@).take(i + 1).drop_last() =~= text::texts(rows@).take(i as int));
        assert(text::texts(rows@).take(i + 1).last() == rows@[i as int]@);
        let ghost before = r@;
        if let Some(p) = read_package(rows[i].as_str()) {
            r.push(p);
            assert(packages(r@) =~= packages(before).push(p@));
        }
        i += 1;
    }
    assert(text::texts(rows@).take(i as int) =~= text::texts(rows@));
    r
}

/// What listing the upgradable packages came to.
pub fn list_upgradable(out: &CommandOutput) -> (r: Result<Vec<AptUpgradable>, String>)
    ensures
        match r {
            Ok(v) => out@.success && packages(v@) == line_packages(text::lines(out@.stdout)),
            Err(e) => !out@.success && e@ == text::trimmed(out@.stderr),
        },
{
    if out.success {
        Ok(parse_apt_list(out.stdout.as_str()))
    } else {
        Err(text::trim(out.stderr.as_str()))
    }
}

/// When the list of packages was last refreshed: the first of some time stamps
/// that is there.
pub fn last_apt_update_secs(stamps: &[Option<u64>]) -> (r: u64)
    ensures
        r == first_stamp(stamps@),
{
    let mut i: usize = 0;
    assert(stamps@.skip(0) =~= stamps@);
    while i < stamps.len()
        invariant
            i <= stamps@.len(),
            first_stamp(stamps@) == first_stamp(stamps@.skip(i as int)),
        decreases stamps@.len() - i,
    {
        assert(stamps@.skip(i as int)[0] == stamps@[i as int]);
        if let Some(seconds) = stamps[i] {
            return seconds;
        }
        assert(stamps@.skip(i as int).skip(1) =~= stamps@.skip(i + 1));
        i += 1;
    }
    0
}

/// The first of some time stamps that is there.
pub open spec fn first_stamp(stamps: Seq<Option<u64>>) -> u64
    decreases stamps.len(),
{
    if stamps.len() == 0 {
        0
    } else {
        match stamps[0] {
            Some(seconds) => seconds,
            None => first_stamp(stamps.skip(1)),
        }
    }
}

// ---------- reports ----------

/// What became of a refresh or an upgrade.
#[derive(Debug)]
pub struct AptReport {
    pub success: bool,
    pub log: String,
    pub error: Option<String>,
}

/// A report with its texts spelled out.
#[verifier::ext_equal]
pub struct ReportView {
    pub success: bool,
    pub log: Seq<char>,
    pub error: Option<Seq<char>>,
}

impl View for AptReport {
    type V = ReportView;

    open spec fn view(&self) -> ReportView {
        ReportView { success: self.success, log: self.log@, error: text::opt_text(self.error) }
    }
}

pub open spec fn opt_report(o: Option<AptReport>) -> Option<ReportView> {
    match o {
        Some(r) => Some(r@),
        None => None,
    }
}

/// The last bytes of a log, as text, where it can be cut at a character.
pub fn truncate_log(bytes: &[u8], limit: usize) -> (r: Option<String>)
    ensures
        text::opt_text(r) == output::cut_down(output::lossy_text(bytes@), limit as nat),
{
    output::try_truncate(output::decode_output(bytes).as_str(), limit)
}

/// The report on a refresh. Nothing where a stream cannot be cut at a
/// character.
pub open spec fn refreshed(out: output::OutputView) -> Option<ReportView> {
    match (
        output::cut_down(out.stdout, REFRESH_LOG_CAP as nat),
        output::cut_down(out.stderr, REFRESH_LOG_CAP as nat),
    ) {
        (Some(a), Some(b)) => Some(
            ReportView {
                success: out.success,
                log: a + output::section("\n--- stderr ---\n"@, b),
                error: if out.success {
                    None
                } else {
                    Some("exit code "@ + text::code_words(out.code))
                },
            },
        ),
        _ => None,
    }
}

/// Reports on a refresh.
pub fn finish_refresh(out: &CommandOutput) -> (r: Option<AptReport>)
    ensures
        opt_report(r) == refreshed(out@),
{
    let a = output::try_truncate(out.stdout.as_str(), REFRESH_LOG_CAP);
    let b = output::try_truncate(out.stderr.as_str(), REFRESH_LOG_CAP);
    match (a, b) {
        (Some(a), Some(b)) => {
            let mut log = a;
            output::push_section(&mut log, "\n--- stderr ---\n", b.as_str());
            let error = if out.success {
                None
            } else {
                Some(text::join2("exit code ", text::code_text(out.code).as_str()))
            };
            Some(AptReport { success: out.success, log, error })
        },
        _ => None,
    }
}

// ---------- starting an upgrade ----------

/// An upgrade under way, as it is written down.
#[derive(Debug, Clone)]
pub struct AptRunState {
    pub package: Option<String>,
    pub started_at: u64,
    pub log: String,
    pub bytes_written: usize,
    /// The transient unit that does the work; none where an agent that knew no
    /// such units wrote the state.
    pub unit_name: Option<String>,
    pub log_path: Option<String>,
    pub result_path: Option<String>,
    pub script_path: Option<String>,
}

/// An upgrade under way with its texts spelled out.
#[verifier::ext_equal]
pub struct RunView {
    pub package: Option<Seq<char>>,
    pub started_at: u64,
    pub log: Seq<char>,
    pub bytes_written: nat,
    pub unit_name: Option<Seq<char>>,
    pub log_path: Option<Seq<char>>,
    pub result_path: Option<Seq<char>>,
    pub script_path: Option<Seq<char>>,
}

impl View for AptRunState {
    type V = RunView;

    open spec fn view(&self) -> RunView {
        RunView {
            package: text::opt_text(self.package),
            started_at: self.started_at,
            log: self.log@,
            bytes_written: self.bytes_written as nat,
            unit_name: text::opt_text(self.unit_name),
            log_path: text::opt_text(self.log_path),
            result_path: text::opt_text(self.result_path),
            script_path: text::opt_text(self.script_path),
        }
    }
}

/// What is wrong with the name of a package, if anything is.
pub open spec fn package_refused(package: Seq<char>) -> Option<Seq<char>> {
    if package.len() == 0 {
        Some("empty package name"@)
    } else if text::begins(package, '-') || text::finishes(package, '-') {
        Some("package name must not start or end with '-'"@)
    } else if !text::alnum_or(package, ".+-:~"@) {
        Some("package name contains unsupported characters"@)
    } else {
        None
    }
}

/// Checks the name of a package.
pub fn validate_package_arg(package: &str) -> (r: Result<(), String>)
    ensures
        text::outcome(r) == (match package_refused(package@) {
            Some(e) => Err(e),
            None => Ok(()),
        }),
{
    if package.is_empty() {
        return Err(text::owned("empty package name"));
    }
    if text::starts_with_char(package, '-') || text::ends_with_char(package, '-') {
        return Err(text::owned("package name must not start or end with '-'"));
    }
    if text::only_alnum_or(package, ".+-:~") {
        Ok(())
    } else {
        Err(text::owned("package name contains unsupported characters"))
    }
}

/// The script in front of the log's path.
pub const SCRIPT_HEAD: &'static str = r#"#!/bin/sh
set -u

MODE="$1"
PKG="${2:-}"
LOG_FILE=""#;

/// The script between the two paths.
pub const SCRIPT_MIDDLE: &'static str = r#""
RESULT_FILE=""#;

/// The script behind the result's path.
pub const SCRIPT_BODY: &'static str = r#""

export DEBIAN_FRONTEND=noninteractive
export LC_ALL=C

umask 077
mkdir -p "$(dirname "$LOG_FILE")" "$(dirname "$RESULT_FILE")"

{
    echo "[shellfleet] apt upgrade unit started at $(date -Is)"
    echo "[shellfleet] mode=$MODE package=${PKG:-<all>}"

    if [ "$MODE" = "package" ]; then
        apt-get -y install --only-upgrade "$PKG"
    else
        apt-get -y upgrade
    fi
    rc=$?

    if [ "$rc" -ne 0 ]; then
        echo "[shellfleet] apt-get exited $rc; attempting automatic dpkg/apt recovery"
        dpkg --configure -a
        dpkg_rc=$?
        apt-get -y -f install
        fix_rc=$?
        if [ "$dpkg_rc" -eq 0 ] && [ "$fix_rc" -eq 0 ]; then
            rc=0
            echo "[shellfleet] automatic dpkg/apt recovery completed"
        else
            echo "[shellfleet] automatic recovery failed: dpkg=$dpkg_rc apt_fix=$fix_rc"
        fi
    fi

    if [ "$rc" -eq 0 ]; then
        printf 'success\n' > "$RESULT_FILE"
    else
        printf 'failed:%s\n' "$rc" > "$RESULT_FILE"
    fi
    echo "[shellfleet] apt upgrade unit finished with rc=$rc at $(date -Is)"
    exit "$rc"
} > "$LOG_FILE" 2>&1
"#;

/// The script that runs an upgrade, repairs an interrupted one, and leaves its
/// log and its result in two files.
pub open spec fn script_text(log_path: Seq<char>, result_path: Seq<char>) -> Seq<char> {
    SCRIPT_HEAD@ + log_path + SCRIPT_MIDDLE@ + result_path + SCRIPT_BODY@
}

/// The script that runs an upgrade.
pub fn upgrade_script(log_path: &str, result_path: &str) -> (r: String)
    ensures
        r@ == script_text(log_path@, result_path@),
{
    text::join5(SCRIPT_HEAD, log_path, SCRIPT_MIDDLE, result_path, SCRIPT_BODY)
}

/// What tells one run from another.
pub open spec fn run_id(started_at: u64, pid: u32) -> Seq<char> {
    text::decimal(started_at as nat) + "-"@ + text::decimal(pid as nat)
}

/// A file of a run.
pub open spec fn run_file(id: Seq<char>, ending: Seq<char>) -> Seq<char> {
    "/var/lib/shellfleet/apt-run-"@ + id + ending
}

/// A new run.
pub open spec fn new_run(package: Option<Seq<char>>, started_at: u64, pid: u32) -> RunView {
    let id = run_id(started_at, pid);
    let unit = "shellfleet-apt-"@ + id + ".service"@;
    let log = "[shellfleet] starting apt in detached systemd unit "@ + unit + "\n"@;
    RunView {
        package,
        started_at,
        log,
        bytes_written: text::byte_len(log),
        unit_name: Some(unit),
        log_path: Some(run_file(id, ".log"@)),
        result_path: Some(run_file(id, ".result"@)),
        script_path: Some(run_file(id, ".sh"@)),
    }
}

/// The arguments for `systemd-run`.
pub open spec fn run_args(run: RunView) -> Seq<Seq<char>> {
    let head = seq![
        "--unit"@,
        run.unit_name->0,
        "--description"@,
        "shellfleet apt upgrade"@,
        "--property=Restart=no"@,
        "--property=TimeoutStartSec=0"@,
        "--no-block"@,
        "/bin/sh"@,
        run.script_path->0,
    ];
    match run.package {
        Some(package) => head.push("package"@).push(package),
        None => head.push("all"@),
    }
}

/// An upgrade that is about to start.
#[derive(Debug)]
pub struct AptStart {
    pub state: AptRunState,
    /// What the wrapper file holds.
    pub script: String,
    /// The arguments for `systemd-run`.
    pub argv: Vec<String>,
}

/// Plans an upgrade of one package, or of all of them.
pub fn plan_upgrade(package: Option<String>, started_at: u64, pid: u32) -> (r: Result<
    AptStart,
    String,
>)
    ensures
        match r {
            Ok(start) => {
                &&& package is Some ==> package_refused(package->0@) is None
                &&& start.state@ == new_run(text::opt_text(package), started_at, pid)
                &&& start.script@ == script_text(
                    start.state@.log_path->0,
                    start.state@.result_path->0,
                )
                &&& text::texts(start.argv@) == run_args(start.state@)
            },
            Err(e) => package is Some && package_refused(package->0@) == Some(e@),
        },
{
    broadcast use text::lemma_texts_push;

    if let Some(p) = &package {
        if let Err(e) = validate_package_arg(p.as_str()) {
            return Err(e);
        }
    }
    let id = text::join3(
        text::decimal_text(started_at).as_str(),
        "-",
        text::decimal_text(pid as u64).as_str(),
    );
    let unit = text::join3("shellfleet-apt-", id.as_str(), ".service");
    let log_path = text::join3("/var/lib/shellfleet/apt-run-", id.as_str(), ".log");
    let result_path = text::join3("/var/lib/shellfleet/apt-run-", id.as_str(), ".result");
    let script_path = text::join3("/var/lib/shellfleet/apt-run-", id.as_str(), ".sh");
    let script = upgrade_script(log_path.as_str(), result_path.as_str());
    let log = text::join3(
        "[shellfleet] starting apt in detached systemd unit ",
        unit.as_str(),
        "\n",
    );
    let mut argv: Vec<String> = Vec::new();
    argv.push(text::owned("--unit"));
    argv.push(text::owned(unit.as_str()));
    argv.push(text::owned("--description"));
    argv.push(text::owned("shellfleet apt upgrade"));
    argv.push(text::owned("--property=Restart=no"));
    argv.push(text::owned("--property=TimeoutStartSec=0"));
    argv.push(text::owned("--no-block"));
    argv.push(text::owned("/bin/sh"));
    argv.push(text::owned(script_path.as_str()));
    assert(text::texts(argv@) =~= seq![
        "--unit"@,
        unit@,
        "--description"@,
        "shellfleet apt upgrade"@,
        "--property=Restart=no"@,
        "--property=TimeoutStartSec=0"@,
        "--no-block"@,
        "/bin/sh"@,
        script_path@,
    ]);
    match &package {
        Some(p) => {
            argv.push(text::owned("package"));
            argv.push(text::owned(p.as_str()));
        },
        None => {
            argv.push(text::owned("all"));
        },
    }
    let bytes_written = text::byte_length(log.as_str());
    let state = AptRunState {
        package,
        started_at,
        log,
        bytes_written,
        unit_name: Some(unit),
        log_path: Some(log_path),
        result_path: Some(result_path),
        script_path: Some(script_path),
    };
    Ok(AptStart { state, script, argv })
}

/// What starting the unit came to.
pub fn judge_start(out: &CommandOutput) -> (r: Result<(), String>)
    ensures
        text::outcome(r) == (if out@.success {
            Ok(())
        } else {
            Err(
                "systemd-run failed: "@ + (if text::trimmed(out@.stderr).len() > 0 {
                    text::trimmed(out@.stderr)
                } else {
                    text::trimmed(out@.stdout)
                }),
            )
        }),
{
    if out.success {
        return Ok(());
    }
    let mut said = text::trim(out.stderr.as_str());
    if said.as_str().is_empty() {
        said = text::trim(out.stdout.as_str());
    }
    Err(text::join2("systemd-run failed: ", said.as_str()))
}

// ---------- watching an upgrade ----------

/// The file that a run leaves its result in, or the report on a run that
/// leaves none.
pub fn watched_file(state: &AptRunState) -> (r: Result<String, AptReport>)
    ensures
        match r {
            Ok(path) => state@.result_path == Some(path@),
            Err(report) => state@.result_path is None && report@ == (ReportView {
                success: false,
                log: if state@.log.len() == 0 {
                    "[shellfleet] older agent left an apt run marker without a detached unit\n"@
                } else {
                    state@.log
                },
                error: Some(
                    "older agent interrupted apt before detached execution was available"@,
                ),
            }),
        },
{
    match &state.result_path {
        Some(path) => Ok(text::owned(path.as_str())),
        None => {
            let log = if state.log.as_str().is_empty() {
                text::owned(
                    "[shellfleet] older agent left an apt run marker without a detached unit\n",
                )
            } else {
                text::owned(state.log.as_str())
            };
            Err(
                AptReport {
                    success: false,
                    log,
                    error: Some(
                        text::owned(
                            "older agent interrupted apt before detached execution was available",
                        ),
                    ),
                },
            )
        },
    }
}

/// Takes the log that a run has written so far into its state, where it can be
/// cut at a character.
pub fn take_log(state: &mut AptRunState, bytes: &[u8]) -> (r: bool)
    ensures
        ({
            let cut = output::cut_down(output::lossy_text(bytes@), APT_LOG_CAP as nat);
            &&& r == (cut is Some)
            &&& r ==> final(state)@ == (RunView {
                log: cut->0,
                bytes_written: text::byte_len(cut->0),
                ..old(state)@
            })
            &&& !r ==> final(state)@ == old(state)@
        }),
{
    match truncate_log(bytes, APT_LOG_CAP) {
        Some(log) => {
            state.bytes_written = text::byte_length(log.as_str());
            state.log = log;
            true
        },
        None => false,
    }
}

/// The report on a run that left its result.
pub open spec fn result_judged(log: Seq<char>, result: Seq<char>) -> ReportView {
    let success = text::trimmed(result) == "success"@;
    ReportView {
        success,
        log: if log.len() == 0 {
            "[shellfleet] apt unit completed with no captured log\n"@
        } else {
            log
        },
        error: if success {
            None
        } else {
            Some("apt unit "@ + text::trimmed(result))
        },
    }
}

/// Reports on a run that left its result.
pub fn judge_result(state: &AptRunState, result: &str) -> (r: AptReport)
    ensures
        r@ == result_judged(state@.log, result@),
{
    let said = text::trim(result);
    let log = if state.log.as_str().is_empty() {
        text::owned("[shellfleet] apt unit completed with no captured log\n")
    } else {
        text::owned(state.log.as_str())
    };
    if text::same(said.as_str(), "success") {
        AptReport { success: true, log, error: None }
    } else {
        AptReport { success: false, log, error: Some(text::join2("apt unit ", said.as_str())) }
    }
}

/// What systemd says of a unit.
#[derive(Debug)]
pub struct UnitState {
    pub load: String,
    pub active: String,
    pub result: String,
}

/// What systemd says of a unit, spelled out.
#[verifier::ext_equal]
pub struct UnitView {
    pub load: Seq<char>,
    pub active: Seq<char>,
    pub result: Seq<char>,
}

impl View for UnitState {
    type V = UnitView;

    open spec fn view(&self) -> UnitView {
        UnitView { load: self.load@, active: self.active@, result: self.result@ }
    }
}

/// What one more line says of a unit.
pub open spec fn unit_line(unit: UnitView, line: Seq<char>) -> UnitView {
    match text::after_prefix(line, "LoadState="@) {
        Some(v) => UnitView { load: v, ..unit },
        None => match text::after_prefix(line, "ActiveState="@) {
            Some(v) => UnitView { active: v, ..unit },
            None => match text::after_prefix(line, "Result="@) {
                Some(v) => UnitView { result: v, ..unit },
                None => unit,
            },
        },
    }
}

/// What some lines say of a unit.
pub open spec fn unit_lines(rows: Seq<Seq<char>>) -> UnitView
    decreases rows.len(),
{
    if rows.len() == 0 {
        UnitView { load: Seq::empty(), active: Seq::empty(), result: Seq::empty() }
    } else {
        unit_line(unit_lines(rows.drop_last()), rows.last())
    }
}

/// Reads what systemd says of a unit: nothing where the question failed.
pub fn read_unit_state(out: &CommandOutput) -> (r: Option<UnitState>)
    ensures
        match r {
            Some(unit) => out@.success && unit@ == unit_lines(text::lines(out@.stdout)),
            None => !out@.success,
        },
{
    if !out.success {
        return None;
    }
    let rows = text::split_lines(out.stdout.as_str());
    let mut unit = UnitState { load: String::new(), active: String::new(), result: String::new() };
    let mut i: usize = 0;
    assert(unit@ =~= unit_lines(text::texts(rows@).take(0)));
    while i < rows.len()
        invariant
            i <= rows@.len(),
            unit@ == unit_lines(text::texts(rows@).take(i as int)),
        decreases rows@.len() - i,
    {
        assert(text::texts(rows@).take(i + 1).drop_last() =~= text::texts(rows@).take(i as int));
        assert(text::texts(rows@).take(i + 1).last() == rows@[i as int]@);
        let line = rows[i].as_str();
        if let Some(v) = text::strip_prefix(line, "LoadState=") {
            unit.load = v;
        } else if let Some(v) = text::strip_prefix(line, "ActiveState=") {
            unit.active = v;
        } else if let Some(v) = text::strip_prefix(line, "Result=") {
            unit.result = v;
        }
        i += 1;
    }
    assert(text::texts(rows@).take(i as int) =~= text::texts(rows@));
    Some(unit)
}

/// Whether a unit is gone without having left a result.
pub open spec fn unit_gone(unit: UnitView) -> bool {
    unit.load == "not-found"@ || (unit.active == "failed"@ && unit.result != "success"@)
}

/// The report on a unit that is gone without a result.
pub open spec fn gone_report(log: Seq<char>, unit: UnitView) -> ReportView {
    ReportView {
        success: false,
        log: log + "\n[shellfleet] apt transient unit ended unexpectedly: load="@ + unit.load
            + " active="@ + unit.active + " result="@ + unit.result + "\n"@,
        error: Some("apt transient unit ended before writing a result"@),
    }
}

/// Judges a unit of which no result is there yet: nothing while it may still
/// come.
pub fn judge_unit(state: &AptRunState, unit: &UnitState) -> (r: Option<AptReport>)
    ensures
        opt_report(r) == (if unit_gone(unit@) {
            Some(gone_report(state@.log, unit@))
        } else {
            None
        }),
{
    let gone = text::same(unit.load.as_str(), "not-found") || (text::same(unit.active.as_str(), "failed")
        && !text::same(unit.result.as_str(), "success"));
    if !gone {
        return None;
    }
    let mut log = text::join5(
        state.log.as_str(),
        "\n[shellfleet] apt transient unit ended unexpectedly: load=",
        unit.load.as_str(),
        " active=",
        unit.active.as_str(),
    );
    log.append(" result=");
    log.append(unit.result.as_str());
    log.append("\n");
    Some(
        AptReport {
            success: false,
            log,
            error: Some(text::owned("apt transient unit ended before writing a result")),
        },
    )
}

/// What is to be done while a run is watched.
#[derive(Debug)]
pub enum WatchAction {
    ReadLog(String),
    /// Write the state down.
    Save,
    ReadResult(String),
    AskUnit(String),
    /// Wait for the next tick.
    Wait,
    /// Remove the files and the written state, and report.
    Finish { report: AptReport, files: Vec<String> },
}

/// What is to be done, with its texts spelled out.
#[verifier::ext_equal]
pub enum WatchActionView {
    ReadLog(Seq<char>),
    Save,
    ReadResult(Seq<char>),
    AskUnit(Seq<char>),
    Wait,
    Finish { report: ReportView, files: Seq<Seq<char>> },
}

impl View for WatchAction {
    type V = WatchActionView;

    open spec fn view(&self) -> WatchActionView {
        match self {
            WatchAction::ReadLog(path) => WatchActionView::ReadLog(path@),
            WatchAction::Save => WatchActionView::Save,
            WatchAction::ReadResult(path) => WatchActionView::ReadResult(path@),
            WatchAction::AskUnit(unit) => WatchActionView::AskUnit(unit@),
            WatchAction::Wait => WatchActionView::Wait,
            WatchAction::Finish { report, files } => WatchActionView::Finish {
                report: report@,
                files: text::texts(files@),
            },
        }
    }
}

/// What came of it.
#[derive(Debug)]
pub enum WatchEvent {
    Tick,
    LogRead(Vec<u8>),
    NoLog,
    Saved,
    ResultRead(String),
    NoResult,
    UnitRead(UnitState),
    NoUnit,
}

/// The files of a run that are there to be removed.
pub open spec fn files_of(run: RunView) -> Seq<Seq<char>> {
    one_file(run.log_path) + one_file(run.script_path) + one_file(run.result_path)
}

pub open spec fn one_file(path: Option<Seq<char>>) -> Seq<Seq<char>> {
    match path {
        Some(path) => seq![path],
        None => Seq::empty(),
    }
}

/// The next step of watching a run, and the run as it is then known: a result
/// is looked for before the unit is asked after, and the log is read before
/// either. Nothing where the log cannot be cut at a character.
pub open spec fn watched(run: RunView, result_path: Seq<char>, event: WatchEvent) -> Option<
    (RunView, WatchActionView),
> {
    match event {
        WatchEvent::Tick => Some(
            (
                run,
                match run.log_path {
                    Some(path) => WatchActionView::ReadLog(path),
                    None => WatchActionView::ReadResult(result_path),
                },
            ),
        ),
        WatchEvent::LogRead(bytes) => match output::cut_down(
            output::lossy_text(bytes@),
            APT_LOG_CAP as nat,
        ) {
            Some(log) => Some(
                (
                    RunView { log, bytes_written: text::byte_len(log), ..run },
                    WatchActionView::Save,
                ),
            ),
            None => None,
        },
        WatchEvent::NoLog => Some((run, WatchActionView::ReadResult(result_path))),
        WatchEvent::Saved => Some((run, WatchActionView::ReadResult(result_path))),
        WatchEvent::ResultRead(result) => Some(
            (
                run,
                WatchActionView::Finish {
                    report: result_judged(run.log, result@),
                    files: files_of(run),
                },
            ),
        ),
        WatchEvent::NoResult => Some(
            (
                run,
                match run.unit_name {
                    Some(unit) => WatchActionView::AskUnit(unit),
                    None => WatchActionView::Wait,
                },
            ),
        ),
        WatchEvent::UnitRead(unit) => Some(
            (
                run,
                if unit_gone(unit@) {
                    WatchActionView::Finish {
                        report: gone_report(run.log, unit@),
                        files: files_of(run),
                    }
                } else {
                    WatchActionView::Wait
                },
            ),
        ),
        WatchEvent::NoUnit => Some((run, WatchActionView::Wait)),
    }
}

fn push_file(files: &mut Vec<String>, path: &Option<String>)
    ensures
        text::texts(final(files)@) == text::texts(old(files)@) + one_file(text::opt_text(*path)),
{
    let ghost before = files@;
    if let Some(path) = path {
        files.push(text::owned(path.as_str()));
        assert(text::texts(files@) =~= text::texts(before) + one_file(Some(path@)));
    } else {
        assert(text::texts(before) + one_file(None) =~= text::texts(before));
    }
}

/// Lists the files of a run that are there to be removed.
pub fn run_files(state: &AptRunState) -> (r: Vec<String>)
    ensures
        text::texts(r@) == files_of(state@),
{
    let mut files: Vec<String> = Vec::new();
    assert(text::texts(files@) =~= Seq::empty());
    push_file(&mut files, &state.log_path);
    assert(text::texts(files@) =~= one_file(state@.log_path));
    push_file(&mut files, &state.script_path);
    push_file(&mut files, &state.result_path);
    files
}

/// Takes the watching of a run one step on.
pub fn watch(state: &mut AptRunState, result_path: &str, event: WatchEvent) -> (r: Option<
    WatchAction,
>)
    ensures
        match r {
            Some(action) => watched(old(state)@, result_path@, event) == Some(
                (final(state)@, action@),
            ),
            None => watched(old(state)@, result_path@, event) is None && final(state)@ == old(
                state,
            )@,
        },
{
    match event {
        WatchEvent::Tick => match &state.log_path {
            Some(path) => Some(WatchAction::ReadLog(text::owned(path.as_str()))),
            None => Some(WatchAction::ReadResult(text::owned(result_path))),
        },
        WatchEvent::LogRead(bytes) => if take_log(state, bytes.as_slice()) {
            Some(WatchAction::Save)
        } else {
            None
        },
        WatchEvent::NoLog => Some(WatchAction::ReadResult(text::owned(result_path))),
        WatchEvent::Saved => Some(WatchAction::ReadResult(text::owned(result_path))),
        WatchEvent::ResultRead(result) => Some(
            WatchAction::Finish {
                report: judge_result(state, result.as_str()),
                files: run_files(state),
            },
        ),
        WatchEvent::NoResult => match &state.unit_name {
            Some(unit) => Some(WatchAction::AskUnit(text::owned(unit.as_str()))),
            None => Some(WatchAction::Wait),
        },
        WatchEvent::UnitRead(unit) => match judge_unit(state, &unit) {
            Some(report) => Some(WatchAction::Finish { report, files: run_files(state) }),
            None => Some(WatchAction::Wait),
        },
        WatchEvent::NoUnit => Some(WatchAction::Wait),
    }
}

// ---------- laws ----------

/// A package that gets into an argument list is a name: it cannot be taken for
/// an option, and it cannot ask for a removal.
pub proof fn law_package_is_no_option(package: Seq<char>)
    requires
        package_refused(package) is None,
    ensures
        package.len() > 0,
        package[0] != '-',
        package.last() != '-',
        text::alnum_or(package, ".+-:~"@),
{
}

/// A unit that has left no result and is neither lost nor failed is waited for.
pub proof fn law_a_running_unit_is_waited_for(unit: UnitView)
    requires
        unit.load == "loaded"@,
        unit.active == "active"@,
    ensures
        !unit_gone(unit),
{
    reveal_strlit("loaded");
    reveal_strlit("not-found");
    reveal_strlit("active");
    reveal_strlit("failed");
    assert("loaded"@.len() != "not-found"@.len());
    assert("active"@[0] == 'a' && "failed"@[0] == 'f');
}

/// An upgrade is never reported as done but by its own result: a unit that
/// vanished counts as failed, and a state is dropped only with a report.
pub proof fn law_only_a_result_is_success(run: RunView, result_path: Seq<char>, event: WatchEvent)
    requires
        watched(run, result_path, event) is Some,
        (watched(run, result_path, event)->0).1 is Finish,
    ensures
        (watched(run, result_path, event)->0).1->report.success <==> (event matches
            WatchEvent::ResultRead(result) && text::trimmed(result@) == "success"@),
        (watched(run, result_path, event)->0).1->report.success <==> (watched(
            run,
            result_path,
            event,
        )->0).1->report.error is None,
{
}

/// A line of the list names the package before the first slash, its source
/// behind it, then the new version, the architecture, and the version that is
/// installed.
pub proof fn law_lines_name_packages(
    name: Seq<char>,
    source: Seq<char>,
    version: Seq<char>,
    arch: Seq<char>,
    old_version: Seq<char>,
)
    requires
        name.len() > 0,
        version.len() > 0,
        arch.len() > 0,
        old_version.len() > 0,
        !name.contains('/'),
        old_version.last() != ']',
        forall|i: int| 0 <= i < name.len() ==> !text::is_space(#[trigger] name[i]),
        forall|i: int| 0 <= i < source.len() ==> !text::is_space(#[trigger] source[i]),
        forall|i: int| 0 <= i < version.len() ==> !text::is_space(#[trigger] version[i]),
        forall|i: int| 0 <= i < arch.len() ==> !text::is_space(#[trigger] arch[i]),
        forall|i: int| 0 <= i < old_version.len() ==> !text::is_space(#[trigger] old_version[i]),
        !"Listing"@.is_prefix_of(
            name + seq!['/'] + source + seq![' '] + (version + seq![' '] + (arch + seq![' '] + (
            "[upgradable"@ + seq![' '] + ("from:"@ + seq![' '] + (old_version + seq![']']))))),
        ),
        !"WARNING"@.is_prefix_of(
            name + seq!['/'] + source + seq![' '] + (version + seq![' '] + (arch + seq![' '] + (
            "[upgradable"@ + seq![' '] + ("from:"@ + seq![' '] + (old_version + seq![']']))))),
        ),
    ensures
        line_package(
            name + seq!['/'] + source + seq![' '] + (version + seq![' '] + (arch + seq![' '] + (
            "[upgradable"@ + seq![' '] + ("from:"@ + seq![' '] + (old_version + seq![']']))))),
        ) == Some(
            UpgradableView {
                name,
                current_version: old_version,
                new_version: version,
                source,
            },
        ),
{
    let head = name + seq!['/'] + source;
    let up = "[upgradable"@;
    let from = "from:"@;
    let end = old_version + seq![']'];
    assert(head[0] == name[0]);
    let l5 = from + seq![' '] + end;
    let l4 = up + seq![' '] + l5;
    let l3 = arch + seq![' '] + l4;
    let l2 = version + seq![' '] + l3;
    let line = head + seq![' '] + l2;
    lemma_note_words(old_version);
    assert(text::words(line) == seq![head] + (seq![version] + (seq![arch] + text::words(l4)))) by {
        text::law_words(head, ' ', l2);
        text::law_words(version, ' ', l3);
        text::law_words(arch, ' ', l4);
    }
    let fields = text::words(line);
    let tail = seq![up, from, end];
    assert(fields.len() == 6 && fields[0] == head && fields[1] == version);
    assert(fields.skip(3) =~= tail);
    text::law_first_separator(name, '/', source);
    lemma_note_joined(end);
    lemma_note_read(old_version);
}

proof fn lemma_note_words(old_version: Seq<char>)
    requires
        old_version.len() > 0,
        forall|i: int| 0 <= i < old_version.len() ==> !text::is_space(#[trigger] old_version[i]),
    ensures
        text::words(
            "[upgradable"@ + seq![' '] + ("from:"@ + seq![' '] + (old_version + seq![']'])),
        ) == seq!["[upgradable"@, "from:"@, old_version + seq![']']],
{
    let up = "[upgradable"@;
    let from = "from:"@;
    let end = old_version + seq![']'];
    reveal_strlit("[upgradable");
    reveal_strlit("from:");
    assert forall|i: int| 0 <= i < end.len() implies !text::is_space(#[trigger] end[i]) by {
        if i < old_version.len() {
            assert(end[i] == old_version[i]);
        }
    }
    text::law_words(up, ' ', from + seq![' '] + end);
    text::law_words(from, ' ', end);
    text::law_words(end, ' ', Seq::empty());
    assert(seq![up] + (seq![from] + seq![end]) =~= seq![up, from, end]);
}

proof fn lemma_note_joined(end: Seq<char>)
    ensures
        text::joined(seq!["[upgradable"@, "from:"@, end], " "@) == "[upgradable from: "@ + end,
{
    let up = "[upgradable"@;
    let from = "from:"@;
    reveal_strlit("[upgradable");
    reveal_strlit("from:");
    reveal_strlit(" ");
    reveal_strlit("[upgradable from: ");
    let tail = seq![up, from, end];
    assert(tail.drop_last() =~= seq![up, from]);
    assert(seq![up, from].drop_last() =~= seq![up]);
    assert(text::joined(seq![up], " "@) == up);
    assert(text::joined(seq![up, from], " "@) == up + " "@ + from);
    assert(text::joined(tail, " "@) == up + " "@ + from + " "@ + end);
    assert(up + " "@ + from + " "@ =~= "[upgradable from: "@);
}

proof fn lemma_note_read(old_version: Seq<char>)
    requires
        old_version.len() > 0,
        old_version.last() != ']',
        forall|i: int| 0 <= i < old_version.len() ==> !text::is_space(#[trigger] old_version[i]),
    ensures
        installed("[upgradable from: "@ + (old_version + seq![']'])) == old_version,
{
    reveal_strlit("upgradable from: ");
    reveal_strlit("[upgradable from: ");
    let end = old_version + seq![']'];
    let rest = "[upgradable from: "@ + end;
    let p = "upgradable from: "@;
    assert(p[0] == 'u' && rest[0] == '[');
    assert(rest.skip(1).subrange(0, p.len() as int) =~= p);
    text::law_found_at_its_first_character(rest, p, 1);
    let at: nat = 1;
    assert(rest.skip((at + p.len()) as int) =~= end);
    assert(end.drop_last() =~= old_version);
    assert(text::strip_back(end, ']') == text::strip_back(old_version, ']'));
    assert(text::strip_back(old_version, ']') == old_version);
    assert(text::trim_front(old_version) == old_version);
    assert(!text::is_space(old_version[old_version.len() - 1]));
    assert(text::trim_back(old_version) == old_version);
}

/// Every line that names a package is one of the packages, in the order of the
/// lines.
pub proof fn law_package_lists_are_read_whole(rows: Seq<Seq<char>>)
    ensures
        line_packages(rows) == rows.map_values(|row: Seq<char>| line_package(row)).filter(
            |p: Option<UpgradableView>| p is Some,
        ).map_values(|p: Option<UpgradableView>| p->0),
    decreases rows.len(),
{
    reveal(Seq::filter);
    let read = |row: Seq<char>| line_package(row);
    let some = |p: Option<UpgradableView>| p is Some;
    let all = rows.map_values(read);
    if rows.len() > 0 {
        let front = rows.drop_last();
        law_package_lists_are_read_whole(front);
        assert(all.drop_last() =~= front.map_values(read));
        assert(all.last() == line_package(rows.last()));
        if all.last() is Some {
            assert(all.filter(some) =~= front.map_values(read).filter(some).push(all.last()));
        }
    }
    assert(line_packages(rows) =~= all.filter(some).map_values(
        |p: Option<UpgradableView>| p->0,
    ));
}

/// The list is read where `apt` exited well, field by field; else there is its
/// error.
pub proof fn law_upgradable_packages_are_listed(
    out: &CommandOutput,
    r: Result<Vec<AptUpgradable>, String>,
    i: int,
)
    requires
        call_ensures(list_upgradable, (out,), r),
    ensures
        r is Ok <==> out.success,
        r matches Err(e) ==> e@ == text::trimmed(out.stderr@),
        r matches Ok(v) ==> v@.len() == line_packages(text::lines(out.stdout@)).len() && (0 <= i
            < v@.len() ==> v@[i].name@ == line_packages(text::lines(out.stdout@))[i].name
            && v@[i].source@ == line_packages(text::lines(out.stdout@))[i].source
            && v@[i].new_version@ == line_packages(text::lines(out.stdout@))[i].new_version
            && v@[i].current_version@ == line_packages(
            text::lines(out.stdout@),
        )[i].current_version),
{
    assert(out@.success == out.success && out@.stdout == out.stdout@ && out@.stderr
        == out.stderr@);
    if let Ok(v) = r {
        assert(packages(v@).len() == v@.len());
        if 0 <= i < v@.len() {
            assert(packages(v@)[i] == v@[i]@);
        }
    }
}

/// The list was refreshed when the first stamp that is there says so, and never
/// where there is none.
pub proof fn law_the_first_stamp_counts(stamps: &[Option<u64>], r: u64, k: int)
    requires
        call_ensures(last_apt_update_secs, (stamps,), r),
        0 <= k <= stamps@.len(),
        forall|i: int| 0 <= i < k ==> (#[trigger] stamps@[i]) is None,
    ensures
        k < stamps@.len() && stamps@[k] is Some ==> r == stamps@[k]->0,
        k == stamps@.len() ==> r == 0,
{
    lemma_first_stamp(stamps@, k);
}

proof fn lemma_first_stamp(stamps: Seq<Option<u64>>, k: int)
    requires
        0 <= k <= stamps.len(),
        forall|i: int| 0 <= i < k ==> (#[trigger] stamps[i]) is None,
    ensures
        k < stamps.len() && stamps[k] is Some ==> first_stamp(stamps) == stamps[k]->0,
        k == stamps.len() ==> first_stamp(stamps) == 0,
    decreases stamps.len(),
{
    if k > 0 {
        let rest = stamps.skip(1);
        assert(stamps[0] is None);
        assert forall|i: int| 0 <= i < k - 1 implies (#[trigger] rest[i]) is None by {
            assert(stamps[i + 1] is None);
        }
        lemma_first_stamp(rest, k - 1);
    }
}

/// A refresh is reported as it ended, with both streams.
pub proof fn law_refreshes_are_reported(out: &CommandOutput, r: Option<AptReport>)
    requires
        call_ensures(finish_refresh, (out,), r),
    ensures
        text::byte_len(out.stdout@) <= 4000 && text::byte_len(out.stderr@) <= 4000 ==> r is Some,
        r is Some ==> r->0.success == out.success,
        r is Some && out.success ==> r->0.error is None,
        r is Some && !out.success ==> text::opt_text(r->0.error) == Some(
            "exit code "@ + text::code_words(out.code),
        ),
        r is Some && text::byte_len(out.stdout@) <= 4000 && out.stderr@.len() == 0 ==> r->0.log@
            == out.stdout@,
        r is Some && text::byte_len(out.stdout@) <= 4000 && text::byte_len(out.stderr@) <= 4000
            && out.stderr@.len() > 0 ==> r->0.log@ == out.stdout@ + ("\n--- stderr ---\n"@
            + out.stderr@),
{
    assert(out@.success == out.success && out@.code == out.code && out@.stdout == out.stdout@
        && out@.stderr == out.stderr@);
    text::lemma_no_bytes(out.stderr@);
    if let Some(report) = r {
        assert(opt_report(r) == Some(report@));
        assert(report@.success == report.success && report@.log == report.log@ && report@.error
            == text::opt_text(report.error));
    }
}

/// The name of a package is made of letters, digits and a few signs, and has no
/// dash at either end.
pub proof fn law_package_names_are_checked(package: &str, r: Result<(), String>)
    requires
        call_ensures(validate_package_arg, (package,), r),
    ensures
        r is Ok <==> package@.len() > 0 && package@[0] != '-' && package@.last() != '-'
            && forall|i: int|
            0 <= i < package@.len() ==> text::is_alnum(#[trigger] package@[i]) || package@[i] == '.'
                || package@[i] == '+' || package@[i] == '-' || package@[i] == ':' || package@[i]
                == '~',
        package@.len() == 0 ==> r is Err && r->Err_0@ == "empty package name"@,
{
    reveal_strlit(".+-:~");
    let s = ".+-:~"@;
    assert(s[0] == '.' && s[1] == '+' && s[2] == '-' && s[3] == ':' && s[4] == '~' && s.len()
        == 5);
}

/// An upgrade runs in a unit of its own, on files of its own, for the package
/// that was asked for or for all of them.
pub proof fn law_upgrades_run_as_asked(
    package: Option<String>,
    started_at: u64,
    pid: u32,
    r: Result<AptStart, String>,
)
    requires
        call_ensures(plan_upgrade, (package, started_at, pid), r),
    ensures
        package is None ==> r is Ok,
        r matches Ok(start) ==> ({
            let id = text::decimal(started_at as nat) + "-"@ + text::decimal(pid as nat);
            let files = "/var/lib/shellfleet/apt-run-"@ + id;
            &&& text::opt_text(start.state.package) == text::opt_text(package)
            &&& start.state.started_at == started_at
            &&& text::opt_text(start.state.unit_name) == Some(
                "shellfleet-apt-"@ + id + ".service"@,
            )
            &&& text::opt_text(start.state.log_path) == Some(files + ".log"@)
            &&& text::opt_text(start.state.result_path) == Some(files + ".result"@)
            &&& text::opt_text(start.state.script_path) == Some(files + ".sh"@)
            &&& start.state.bytes_written == text::byte_len(start.state.log@)
            &&& start.script@ == SCRIPT_HEAD@ + (files + ".log"@) + SCRIPT_MIDDLE@ + (files
                + ".result"@) + SCRIPT_BODY@
            &&& text::texts(start.argv@) == seq![
                "--unit"@,
                "shellfleet-apt-"@ + id + ".service"@,
                "--description"@,
                "shellfleet apt upgrade"@,
                "--property=Restart=no"@,
                "--property=TimeoutStartSec=0"@,
                "--no-block"@,
                "/bin/sh"@,
                files + ".sh"@,
            ] + (match package {
                Some(p) => seq!["package"@, p@],
                None => seq!["all"@],
            })
        }),
{
    if let Ok(start) = r {
        assert(start.state@.package == text::opt_text(start.state.package));
        assert(start.state@.unit_name == text::opt_text(start.state.unit_name));
        assert(start.state@.log_path == text::opt_text(start.state.log_path));
        assert(start.state@.result_path == text::opt_text(start.state.result_path));
        assert(start.state@.script_path == text::opt_text(start.state.script_path));
    }
}

/// Two upgrades that began at different seconds, or in different processes, do
/// not share a unit.
pub proof fn law_runs_do_not_collide(a: u64, p: u32, b: u64, q: u32)
    requires
        run_id(a, p) == run_id(b, q),
    ensures
        a == b,
        p == q,
{
    reveal_strlit("-");
    let x = text::decimal(a as nat);
    let y = text::decimal(b as nat);
    text::law_decimal_reads_back(a as nat, u64::MAX as nat);
    text::law_decimal_reads_back(b as nat, u64::MAX as nat);
    text::law_decimal_reads_back(p as nat, u64::MAX as nat);
    text::law_decimal_reads_back(q as nat, u64::MAX as nat);
    assert("-"@ =~= seq!['-']);
    assert(!x.contains('-')) by {
        if x.contains('-') {
            let k = choose|k: int| 0 <= k < x.len() && x[k] == '-';
            assert(text::is_digit(x[k]));
        }
    }
    assert(!y.contains('-')) by {
        if y.contains('-') {
            let k = choose|k: int| 0 <= k < y.len() && y[k] == '-';
            assert(text::is_digit(y[k]));
        }
    }
    text::law_first_separator(x, '-', text::decimal(p as nat));
    text::law_first_separator(y, '-', text::decimal(q as nat));
}

/// The start of a unit is judged by `systemd-run`, and its words are told.
pub proof fn law_starts_are_judged(out: &CommandOutput, r: Result<(), String>)
    requires
        call_ensures(judge_start, (out,), r),
    ensures
        r is Ok <==> out.success,
        r matches Err(e) ==> (text::trimmed(out.stderr@).len() > 0 ==> e@
            == "systemd-run failed: "@ + text::trimmed(out.stderr@)),
        r matches Err(e) ==> (text::trimmed(out.stderr@).len() == 0 ==> e@
            == "systemd-run failed: "@ + text::trimmed(out.stdout@)),
{
    assert(out@.success == out.success && out@.stdout == out.stdout@ && out@.stderr
        == out.stderr@);
}

/// A run is watched by the file of its result; one without is reported as
/// interrupted, and keeps its log.
pub proof fn law_runs_are_watched_by_their_result(
    state: &AptRunState,
    r: Result<String, AptReport>,
)
    requires
        call_ensures(watched_file, (state,), r),
    ensures
        r is Ok <==> state.result_path is Some,
        r matches Ok(path) ==> path@ == state.result_path->0@,
        r matches Err(report) ==> !report.success && report.error is Some && (state.log@.len()
            > 0 ==> report.log@ == state.log@),
{
    assert(state@.result_path == text::opt_text(state.result_path));
    if let Err(report) = r {
        assert(report@.success == report.success && report@.log == report.log@ && report@.error
            == text::opt_text(report.error));
    }
}

/// A run succeeded where its result says `success`, and failed with what it
/// says else; its log is told.
pub proof fn law_results_are_judged(state: &AptRunState, result: &str, r: AptReport)
    requires
        call_ensures(judge_result, (state, result), r),
    ensures
        r.success <==> text::trimmed(result@) == "success"@,
        r.success ==> r.error is None,
        !r.success ==> text::opt_text(r.error) == Some("apt unit "@ + text::trimmed(result@)),
        state.log@.len() > 0 ==> r.log@ == state.log@,
{
    assert(r@.success == r.success && r@.log == r.log@ && r@.error == text::opt_text(r.error));
}

/// A unit is lost where systemd does not know it, or calls it failed without
/// calling its result a success.
pub proof fn law_lost_units_are_told(state: &AptRunState, unit: &UnitState, r: Option<AptReport>)
    requires
        call_ensures(judge_unit, (state, unit), r),
    ensures
        r is Some <==> unit.load@ == "not-found"@ || unit.active@ == "failed"@ && unit.result@
            != "success"@,
        r is Some ==> !r->0.success && text::opt_text(r->0.error) == Some(
            "apt transient unit ended before writing a result"@,
        ) && state.log@.is_prefix_of(r->0.log@),
{
    assert(unit@.load == unit.load@ && unit@.active == unit.active@ && unit@.result
        == unit.result@);
    if let Some(report) = r {
        assert(opt_report(r) == Some(report@));
        assert(report@.success == report.success && report@.log == report.log@ && report@.error
            == text::opt_text(report.error));
        let log = state@.log;
        assert(report.log@.subrange(0, log.len() as int) =~= log);
    }
}

/// A line of what systemd says of a unit sets the state that it names, and no
/// other.
pub proof fn law_unit_lines_set_their_state(unit: UnitView, value: Seq<char>)
    ensures
        unit_line(unit, "LoadState="@ + value) == (UnitView { load: value, ..unit }),
        unit_line(unit, "ActiveState="@ + value) == (UnitView { active: value, ..unit }),
        unit_line(unit, "Result="@ + value) == (UnitView { result: value, ..unit }),
{
    reveal_strlit("LoadState=");
    reveal_strlit("ActiveState=");
    reveal_strlit("Result=");
    let l = "LoadState="@;
    let a = "ActiveState="@;
    let r = "Result="@;
    assert(l[0] == 'L' && a[0] == 'A' && r[0] == 'R');
    assert((l + value).subrange(0, l.len() as int) =~= l);
    assert((l + value).skip(l.len() as int) =~= value);
    assert((a + value).subrange(0, a.len() as int) =~= a);
    assert((a + value).skip(a.len() as int) =~= value);
    assert((r + value).subrange(0, r.len() as int) =~= r);
    assert((r + value).skip(r.len() as int) =~= value);
    assert((a + value)[0] == 'A' && (r + value)[0] == 'R');
    assert(!l.is_prefix_of(a + value)) by {
        if l.is_prefix_of(a + value) {
            assert(l[0] == (a + value).subrange(0, l.len() as int)[0]);
        }
    }
    assert(!l.is_prefix_of(r + value)) by {
        if l.is_prefix_of(r + value) {
            assert(l[0] == (r + value).subrange(0, l.len() as int)[0]);
        }
    }
    assert(!a.is_prefix_of(r + value)) by {
        if a.is_prefix_of(r + value) {
            assert(a[0] == (r + value).subrange(0, a.len() as int)[0]);
        }
    }
}

/// What one more line says is added to what the lines before it said; where the
/// question failed nothing is known.
pub proof fn law_unit_states_are_read(
    out: &CommandOutput,
    r: Option<UnitState>,
    rows: Seq<Seq<char>>,
    row: Seq<char>,
)
    requires
        call_ensures(read_unit_state, (out,), r),
    ensures
        r is Some <==> out.success,
        r matches Some(unit) ==> unit.load@ == unit_lines(text::lines(out.stdout@)).load
            && unit.active@ == unit_lines(text::lines(out.stdout@)).active && unit.result@
            == unit_lines(text::lines(out.stdout@)).result,
        unit_lines(rows.push(row)) == unit_line(unit_lines(rows), row),
{
    assert(out@.success == out.success && out@.stdout == out.stdout@);
    assert(rows.push(row).drop_last() =~= rows);
}

/// While a run is watched its log is read first and written down, then its
/// result is looked for, then its unit is asked after; a result ends the
/// watching, and the files of the run go.
pub proof fn law_runs_are_watched_in_order(
    state: &mut AptRunState,
    result_path: &str,
    event: WatchEvent,
    r: Option<WatchAction>,
)
    requires
        call_ensures(watch, (state, result_path, event), r),
        r is Some,
    ensures
        event is Tick ==> (match old(state).log_path {
            Some(path) => r->0 matches WatchAction::ReadLog(p) && p@ == path@,
            None => r->0 matches WatchAction::ReadResult(p) && p@ == result_path@,
        }),
        event matches WatchEvent::LogRead(bytes) ==> r->0 is Save,
        event is NoLog || event is Saved ==> (r->0 matches WatchAction::ReadResult(p) && p@
            == result_path@),
        event is NoResult ==> (match old(state).unit_name {
            Some(unit) => r->0 matches WatchAction::AskUnit(u) && u@ == unit@,
            None => r->0 is Wait,
        }),
        event is NoUnit ==> r->0 is Wait,
        event matches WatchEvent::ResultRead(result) ==> (r->0 matches WatchAction::Finish {
            report,
            files,
        } && (report.success <==> text::trimmed(result@) == "success"@)),
        event matches WatchEvent::UnitRead(unit) ==> (r->0 is Finish <==> unit.load@
            == "not-found"@ || unit.active@ == "failed"@ && unit.result@ != "success"@),
        event !is LogRead ==> final(state)@ == old(state)@,
{
    let action = r->0;
    let s = *old(state);
    assert(s@.log_path == text::opt_text(s.log_path));
    assert(s@.unit_name == text::opt_text(s.unit_name));
    if let WatchAction::Finish { report, files } = action {
        assert(action@ == WatchActionView::Finish { report: report@, files: text::texts(files@) });
        assert(report@.success == report.success);
    }
}

/// The log of a run is kept whole where it is short, and its length with it.
pub proof fn law_logs_are_taken(state: &mut AptRunState, bytes: &[u8], r: bool)
    requires
        call_ensures(take_log, (state, bytes), r),
    ensures
        text::byte_len(output::lossy_text(bytes@)) <= 16000 ==> r && final(state).log@
            == output::lossy_text(bytes@),
        r ==> final(state).bytes_written == text::byte_len(final(state).log@),
        !r ==> final(state)@ == old(state)@,
{
    let s = *final(state);
    assert(s@.log == s.log@ && s@.bytes_written == s.bytes_written);
}

/// The files of a run are its log, its script and its result, as far as there
/// are any.
pub proof fn law_run_files_are_all_removed(state: &AptRunState, r: Vec<String>)
    requires
        call_ensures(run_files, (state,), r),
    ensures
        state.log_path matches Some(p) ==> text::texts(r@).contains(p@),
        state.script_path matches Some(p) ==> text::texts(r@).contains(p@),
        state.result_path matches Some(p) ==> text::texts(r@).contains(p@),
        r@.len() <= 3,
{
    assert(state@.log_path == text::opt_text(state.log_path));
    assert(state@.script_path == text::opt_text(state.script_path));
    assert(state@.result_path == text::opt_text(state.result_path));
    let t = text::texts(r@);
    assert(t.len() == r@.len());
    let a = one_file(state@.log_path);
    let b = one_file(state@.script_path);
    let c = one_file(state@.result_path);
    if state.log_path is Some {
        assert(t[0] == state.log_path->0@);
    }
    if state.script_path is Some {
        assert(t[a.len() as int] == state.script_path->0@);
    }
    if state.result_path is Some {
        assert(t[(a.len() + b.len()) as int] == state.result_path->0@);
    }
}

/// The longer log of a run is cut down to its last sixteen thousand bytes, and
/// a longer stream of a refresh to its last four thousand.
pub proof fn law_long_logs_are_cut(
    state: &mut AptRunState,
    bytes: &[u8],
    taken: bool,
    out: &CommandOutput,
    r: Option<AptReport>,
)
    requires
        call_ensures(take_log, (state, bytes), taken),
        call_ensures(finish_refresh, (out,), r),
    ensures
        text::byte_len(output::lossy_text(bytes@)) > 16000 && taken ==> exists|k: int|
            0 <= k <= output::lossy_text(bytes@).len() && text::byte_len(
                #[trigger] output::lossy_text(bytes@).skip(k),
            ) == 16000 && final(state).log@ == "…["@ + text::decimal(
                (text::byte_len(output::lossy_text(bytes@)) - 16000) as nat,
            ) + " bytes truncated]…\n"@ + output::lossy_text(bytes@).skip(k),
        text::byte_len(out.stdout@) > 4000 && out.stderr@.len() == 0 && r is Some ==> exists|k: int|
            0 <= k <= out.stdout@.len() && text::byte_len(#[trigger] out.stdout@.skip(k)) == 4000
                && r->0.log@ == "…["@ + text::decimal((text::byte_len(out.stdout@) - 4000) as nat)
                + " bytes truncated]…\n"@ + out.stdout@.skip(k),
{
    let log = output::lossy_text(bytes@);
    output::law_cut_logs_are_exact(log, 16000);
    let s = *final(state);
    assert(s@.log == s.log@);
    assert(out@.stdout == out.stdout@ && out@.stderr == out.stderr@);
    output::law_cut_logs_are_exact(out.stdout@, 4000);
    output::law_cut_logs_are_exact(out.stderr@, 4000);
    text::lemma_no_bytes(out.stderr@);
    if let Some(report) = r {
        assert(opt_report(r) == Some(report@));
        assert(report@.log == report.log@);
        if out.stderr@.len() == 0 {
            let a = output::cut_down(out.stdout@, 4000)->0;
            assert(report.log@ =~= a);
        }
    }
}

/// A run that is over leaves no file behind: all of its own are removed.
pub proof fn law_finished_runs_leave_no_files(
    state: &mut AptRunState,
    result_path: &str,
    event: WatchEvent,
    r: Option<WatchAction>,
)
    requires
        call_ensures(watch, (state, result_path, event), r),
        r is Some,
        r->0 is Finish,
    ensures
        old(state).log_path matches Some(p) ==> text::texts(r->0->files@).contains(p@),
        old(state).script_path matches Some(p) ==> text::texts(r->0->files@).contains(p@),
        old(state).result_path matches Some(p) ==> text::texts(r->0->files@).contains(p@),
        text::texts(r->0->files@).len() <= 3,
{
    let action = r->0;
    let s = *old(state);
    let t = text::texts(action->files@);
    assert(action@ == WatchActionView::Finish { report: action->report@, files: t });
    assert(t == files_of(s@));
    assert(s@.log_path == text::opt_text(s.log_path));
    assert(s@.script_path == text::opt_text(s.script_path));
    assert(s@.result_path == text::opt_text(s.result_path));
    let a = one_file(s@.log_path);
    let b = one_file(s@.script_path);
    if s.log_path is Some {
        assert(t[0] == s.log_path->0@);
    }
    if s.script_path is Some {
        assert(t[a.len() as int] == s.script_path->0@);
    }
    if s.result_path is Some {
        assert(t[(a.len() + b.len()) as int] == s.result_path->0@);
    }
}

/// A refused package name says whether a dash or another character is wrong.
pub proof fn law_refused_names_say_why(package: &str, r: Result<(), String>)
    requires
        call_ensures(validate_package_arg, (package,), r),
        package@.len() > 0,
    ensures
        r matches Err(e) ==> e@ == (if package@[0] == '-' || package@.last() == '-' {
            "package name must not start or end with '-'"@
        } else {
            "package name contains unsupported characters"@
        }),
{
}

/// The log of a lost run ends with the state of its unit.
pub proof fn law_lost_runs_tell_their_state(
    state: &AptRunState,
    unit: &UnitState,
    r: Option<AptReport>,
)
    requires
        call_ensures(judge_unit, (state, unit), r),
    ensures
        r matches Some(report) ==> report.log@ == state.log@
            + "\n[shellfleet] apt transient unit ended unexpectedly: load="@ + unit.load@
            + " active="@ + unit.active@ + " result="@ + unit.result@ + "\n"@,
{
    if let Some(report) = r {
        assert(opt_report(r) == Some(report@));
        assert(report@.log == report.log@);
    }
}

/// A run without a log is told in words of its own.
pub proof fn law_silent_runs_are_told(
    state: &AptRunState,
    result: &str,
    judged: AptReport,
    file: Result<String, AptReport>,
)
    requires
        call_ensures(judge_result, (state, result), judged),
        call_ensures(watched_file, (state,), file),
        state.log@.len() == 0,
    ensures
        judged.log@ == "[shellfleet] apt unit completed with no captured log\n"@,
        file matches Err(report) ==> report.log@
            == "[shellfleet] older agent left an apt run marker without a detached unit\n"@
            && text::opt_text(report.error) == Some(
            "older agent interrupted apt before detached execution was available"@,
        ),
{
    assert(judged@.log == judged.log@);
    if let Err(report) = file {
        assert(report@.log == report.log@ && report@.error == text::opt_text(report.error));
    }
}

}
