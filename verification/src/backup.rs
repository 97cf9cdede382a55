//! Filesystem backups: archives of the requested paths at a local or an S3
//! destination, the list of those archives, and restores into a chosen root.

use crate::output;
use crate::output::CommandOutput;
use crate::paths;
use crate::text;
use vstd::prelude::*;
use vstd::utf8::encode_utf8;

verus! {

/// How much of a log is kept.
pub const LOG_CAP: usize = 8000;

/// Files of at least this size go up in parts.
pub const MULTIPART_THRESHOLD: u64 = 67108864;

/// The size of a part.
pub const MULTIPART_CHUNK: usize = 16777216;

/// How much a restore reads from S3 unless configured otherwise.
pub const S3_RESTORE_MAX_BYTES_DEFAULT: u64 = 53687091200;

// ---------- destinations ----------

/// Where archives go.
#[derive(Debug, Clone)]
pub enum Dest {
    Local(String),
    S3 { bucket: String, prefix: String },
}

/// A destination with its texts spelled out.
#[verifier::ext_equal]
pub enum DestView {
    Local(Seq<char>),
    S3 { bucket: Seq<char>, prefix: Seq<char> },
}

impl View for Dest {
    type V = DestView;

    open spec fn view(&self) -> DestView {
        match self {
            Dest::Local(path) => DestView::Local(path@),
            Dest::S3 { bucket, prefix } => DestView::S3 { bucket: bucket@, prefix: prefix@ },
        }
    }
}

pub open spec fn dest_outcome(r: Result<Dest, String>) -> Result<DestView, Seq<char>> {
    match r {
        Ok(d) => Ok(d@),
        Err(e) => Err(e@),
    }
}

/// Bucket and key of what follows `s3://`.
pub open spec fn s3_parts(rest: Seq<char>) -> (Seq<char>, Seq<char>) {
    let h = text::halves(rest, '/');
    (
        h.0,
        match h.1 {
            Some(key) => key,
            None => Seq::empty(),
        },
    )
}

/// The refusal of a scheme, around the quoted destination.
pub open spec fn unsupported(quoted: Seq<char>) -> Seq<char> {
    "unsupported destination scheme "@ + quoted
        + " — supported: local path, file://…, s3://bucket/prefix"@
}

/// What a destination means.
pub open spec fn dest_parsed(dest: Seq<char>) -> Result<DestView, Seq<char>> {
    let d = text::trimmed(dest);
    if d.len() == 0 {
        Err("dest is empty"@)
    } else {
        match text::after_prefix(d, "s3://"@) {
            Some(rest) => {
                let (bucket, prefix) = s3_parts(rest);
                if bucket.len() == 0 {
                    Err("s3 dest must include a bucket"@)
                } else {
                    Ok(DestView::S3 { bucket, prefix: text::strip_back(prefix, '/') })
                }
            },
            None => match text::after_prefix(d, "file://"@) {
                Some(rest) => Ok(DestView::Local(rest)),
                None => if text::occurs("://"@, d) {
                    Err(unsupported(output::quoted_text(d)))
                } else {
                    Ok(DestView::Local(d))
                },
            },
        }
    }
}

fn split_s3(rest: &str) -> (r: (String, String))
    ensures
        (r.0@, r.1@) == s3_parts(rest@),
{
    let (bucket, key) = text::split_first(rest, '/');
    match key {
        Some(key) => (bucket, key),
        None => (bucket, String::new()),
    }
}

/// Words the refusal of a scheme.
pub fn unsupported_scheme(quoted: &str) -> (r: String)
    ensures
        r@ == unsupported(quoted@),
{
    text::join3(
        "unsupported destination scheme ",
        quoted,
        " — supported: local path, file://…, s3://bucket/prefix",
    )
}

/// Parses a destination.
pub fn parse_dest(dest: &str) -> (r: Result<Dest, String>)
    ensures
        dest_outcome(r) == dest_parsed(dest@),
{
    let d = text::trim(dest);
    let t = d.as_str();
    if t.is_empty() {
        return Err(text::owned("dest is empty"));
    }
    if let Some(rest) = text::strip_prefix(t, "s3://") {
        let (bucket, prefix) = split_s3(rest.as_str());
        if bucket.as_str().is_empty() {
            return Err(text::owned("s3 dest must include a bucket"));
        }
        return Ok(Dest::S3 { bucket, prefix: text::trim_end_char(prefix.as_str(), '/') });
    }
    if let Some(rest) = text::strip_prefix(t, "file://") {
        return Ok(Dest::Local(rest));
    }
    if text::contains_text(t, "://") {
        return Err(unsupported_scheme(output::quoted(t).as_str()));
    }
    Ok(Dest::Local(text::owned(t)))
}

// ---------- the allow-list ----------

/// The configured roots: the non-empty pieces between colons.
pub open spec fn roots_listed(pieces: Seq<Seq<char>>) -> Seq<Seq<char>>
    decreases pieces.len(),
{
    if pieces.len() == 0 {
        Seq::empty()
    } else {
        let front = roots_listed(pieces.drop_last());
        let root = text::trimmed(pieces.last());
        if root.len() == 0 {
            front
        } else {
            front.push(root)
        }
    }
}

/// The roots that backups are confined to without configuration.
pub open spec fn default_roots() -> Seq<Seq<char>> {
    seq!["/var/lib/shellfleet"@, "/var/backups/shellfleet"@]
}

/// The roots that backups are confined to.
pub open spec fn roots_configured(raw: Option<Seq<char>>) -> Seq<Seq<char>> {
    match raw {
        Some(raw) => {
            let listed = roots_listed(text::split(raw, ':'));
            if listed.len() == 0 {
                default_roots()
            } else {
                listed
            }
        },
        None => default_roots(),
    }
}

/// The roots that backups are confined to, from the configured list.
pub fn configured_backup_roots(raw: Option<&str>) -> (r: Vec<String>)
    ensures
        text::texts(r@) == roots_configured(
            match raw {
                Some(raw) => Some(raw@),
                None => None,
            },
        ),
{
    broadcast use text::lemma_texts_push;

    let mut roots: Vec<String> = Vec::new();
    if let Some(raw) = raw {
        let pieces = text::split_text(raw, ':');
        let mut i: usize = 0;
        assert(text::texts(roots@) =~= roots_listed(text::texts(pieces@).take(0)));
        while i < pieces.len()
            invariant
                i <= pieces@.len(),
                text::texts(roots@) == roots_listed(text::texts(pieces@).take(i as int)),
            decreases pieces@.len() - i,
        {
            let root = text::trim(pieces[i].as_str());
            if !root.as_str().is_empty() {
                roots.push(root);
            }
            i += 1;
            assert(text::texts(pieces@).take(i as int).drop_last() =~= text::texts(pieces@).take(i - 1));
            assert(text::texts(pieces@).take(i as int).last() == pieces@[i - 1]@);
        }
        assert(text::texts(pieces@).take(i as int) =~= text::texts(pieces@));
    }
    if roots.len() == 0 {
        let mut defaults: Vec<String> = Vec::new();
        defaults.push(text::owned("/var/lib/shellfleet"));
        defaults.push(text::owned("/var/backups/shellfleet"));
        assert(text::texts(defaults@) =~= default_roots());
        return defaults;
    }
    roots
}

/// The roots that backups are confined to, or none where the operator lifted
/// the restriction.
pub fn backup_roots(unrestricted: Option<&str>, raw: Option<&str>) -> (r: Option<Vec<String>>)
    ensures
        match r {
            None => unrestricted is Some && unrestricted->0@ == "1"@,
            Some(roots) => !(unrestricted is Some && unrestricted->0@ == "1"@) && text::texts(roots@)
                == roots_configured(
                match raw {
                    Some(raw) => Some(raw@),
                    None => None,
                },
            ),
        },
{
    if let Some(value) = unrestricted {
        if text::same(value, "1") {
            return None;
        }
    }
    Some(configured_backup_roots(raw))
}

/// A root with what the filesystem resolved it to, if it did.
#[derive(Debug)]
pub struct Root {
    pub path: String,
    pub canonical: Option<Vec<u8>>,
}

/// Whether a path is under one of some roots as they are written.
pub open spec fn written_within(path: Seq<u8>, roots: Seq<Root>) -> bool {
    exists|i: int| 0 <= i < roots.len() && paths::under(path, encode_utf8(#[trigger] roots[i].path@))
}

/// Where a root really is: what the filesystem resolved it to, else what its
/// spelling comes to.
pub open spec fn real_root(root: Root) -> Seq<Seq<u8>> {
    match root.canonical {
        Some(canonical) => paths::normal(canonical@),
        None => paths::normal(encode_utf8(root.path@)),
    }
}

/// Whether a resolved path is under one of some roots as they really are.
pub open spec fn really_within(canonical: Seq<u8>, roots: Seq<Root>) -> bool {
    exists|i: int|
        0 <= i < roots.len() && #[trigger] real_root(roots[i]).is_prefix_of(
            paths::normal(canonical),
        )
}

/// Whether a path lives under one of some roots: as written, and, where it
/// exists, as the filesystem resolved it.
pub open spec fn confined(path: Seq<char>, canonical: Option<Seq<u8>>, roots: Seq<Root>) -> bool {
    written_within(encode_utf8(path), roots) && (canonical matches Some(c) ==> really_within(
        c,
        roots,
    ))
}

/// Tests whether a path lives under one of some roots.
pub fn within_roots(path: &str, canonical: Option<&[u8]>, roots: &[Root]) -> (r: bool)
    ensures
        r == confined(
            path@,
            match canonical {
                Some(c) => Some(c@),
                None => None,
            },
            roots@,
        ),
{
    let mut written = false;
    let mut i: usize = 0;
    while i < roots.len() && !written
        invariant
            i <= roots@.len(),
            written ==> written_within(encode_utf8(path@), roots@),
            !written ==> forall|j: int|
                0 <= j < i ==> !paths::under(
                    encode_utf8(path@),
                    encode_utf8(#[trigger] roots@[j].path@),
                ),
        decreases roots@.len() - i,
    {
        if paths::is_under(path.as_bytes(), roots[i].path.as_str().as_bytes()) {
            assert(paths::under(encode_utf8(path@), encode_utf8(roots@[i as int].path@)));
            written = true;
        }
        i += 1;
    }
    if !written {
        return false;
    }
    match canonical {
        None => true,
        Some(c) => {
            let mut k: usize = 0;
            while k < roots.len()
                invariant
                    k <= roots@.len(),
                    written_within(encode_utf8(path@), roots@),
                    canonical == Some(c),
                    forall|j: int|
                        0 <= j < k ==> !#[trigger] real_root(roots@[j]).is_prefix_of(
                            paths::normal(c@),
                        ),
                decreases roots@.len() - k,
            {
                let inside = match &roots[k].canonical {
                    Some(place) => paths::is_under(c, place.as_slice()),
                    None => paths::is_under(c, roots[k].path.as_str().as_bytes()),
                };
                if inside {
                    assert(real_root(roots@[k as int]).is_prefix_of(paths::normal(c@)));
                    return true;
                }
                k += 1;
            }
            false
        },
    }
}

/// How much a restore may read from S3, from the configured value.
pub fn s3_restore_max_bytes(raw: Option<&str>) -> (r: u64)
    ensures
        r == (match raw {
            Some(raw) => match text::read_unsigned(raw@, u64::MAX as nat) {
                Some(n) => n as u64,
                None => S3_RESTORE_MAX_BYTES_DEFAULT,
            },
            None => S3_RESTORE_MAX_BYTES_DEFAULT,
        }),
{
    match raw {
        Some(raw) => match text::parse_u64(raw) {
            Some(n) => n,
            None => S3_RESTORE_MAX_BYTES_DEFAULT,
        },
        None => S3_RESTORE_MAX_BYTES_DEFAULT,
    }
}

// ---------- planning a backup ----------

/// How a backup is made.
#[derive(Debug, Clone, Copy, PartialEq, Eq, Structural)]
pub enum BackupMode {
    Tar,
    Restic,
}

/// A requested path with what the filesystem says of it.
#[derive(Debug)]
pub struct Source {
    pub path: String,
    pub exists: bool,
    pub canonical: Option<Vec<u8>>,
}

/// What a backup will do.
#[derive(Debug)]
pub struct BackupPlan {
    pub dest: Dest,
    /// The paths that go into the archive.
    pub existing: Vec<String>,
    /// The log so far.
    pub log: String,
}

/// A plan with its texts spelled out.
#[verifier::ext_equal]
pub struct PlanView {
    pub dest: DestView,
    pub existing: Seq<Seq<char>>,
    pub log: Seq<char>,
}

impl View for BackupPlan {
    type V = PlanView;

    open spec fn view(&self) -> PlanView {
        PlanView { dest: self.dest@, existing: text::texts(self.existing@), log: self.log@ }
    }
}

pub open spec fn plan_outcome(r: Result<BackupPlan, String>) -> Result<PlanView, Seq<char>> {
    match r {
        Ok(p) => Ok(p@),
        Err(e) => Err(e@),
    }
}

pub open spec fn canonical_view(c: Option<Vec<u8>>) -> Option<Seq<u8>> {
    match c {
        Some(v) => Some(v@),
        None => None,
    }
}

/// The requested paths that exist.
pub open spec fn present(sources: Seq<Source>) -> Seq<Seq<char>>
    decreases sources.len(),
{
    if sources.len() == 0 {
        Seq::empty()
    } else if sources.last().exists {
        present(sources.drop_last()).push(sources.last().path@)
    } else {
        present(sources.drop_last())
    }
}

/// The existing paths that lie outside the roots.
pub open spec fn strays(sources: Seq<Source>, roots: Seq<Root>) -> Seq<Seq<char>>
    decreases sources.len(),
{
    if sources.len() == 0 {
        Seq::empty()
    } else {
        let front = strays(sources.drop_last(), roots);
        let s = sources.last();
        if s.exists && !confined(s.path@, canonical_view(s.canonical), roots) {
            front.push(s.path@)
        } else {
            front
        }
    }
}

/// The missing paths, each with a blank behind it.
pub open spec fn missing(sources: Seq<Source>) -> Seq<char>
    decreases sources.len(),
{
    if sources.len() == 0 {
        Seq::empty()
    } else if sources.last().exists {
        missing(sources.drop_last())
    } else {
        missing(sources.drop_last()) + sources.last().path@ + seq![' ']
    }
}

/// The log before the archive is made: a warning where a path is missing.
pub open spec fn opening_log(sources: Seq<Source>) -> Seq<char> {
    if present(sources).len() == sources.len() {
        Seq::empty()
    } else {
        "WARN: skipping missing path(s): "@ + missing(sources) + seq!['\n']
    }
}

/// The plan of a backup, or why there is none.
pub open spec fn backup_planned(
    sources: Seq<Source>,
    dest: Seq<char>,
    mode: BackupMode,
    roots: Option<Seq<Root>>,
) -> Result<PlanView, Seq<char>> {
    if mode == BackupMode::Restic {
        Err("restic mode is not implemented in this agent build"@)
    } else {
        match dest_parsed(dest) {
            Err(e) => Err(e),
            Ok(dest) => if sources.len() == 0 {
                Err("paths is empty"@)
            } else if present(sources).len() == 0 {
                Err("no requested paths exist on this host"@)
            } else if roots is Some && strays(sources, roots->0).len() > 0 {
                Err(
                    "path(s) outside SHELLFLEET_BACKUP_ROOTS allow-list: "@ + text::joined(
                        strays(sources, roots->0),
                        ", "@,
                    ),
                )
            } else {
                Ok(PlanView { dest, existing: present(sources), log: opening_log(sources) })
            },
        }
    }
}

fn list_present(sources: &[Source]) -> (r: Vec<String>)
    ensures
        text::texts(r@) == present(sources@),
{
    broadcast use text::lemma_texts_push;

    let mut r: Vec<String> = Vec::new();
    let mut i: usize = 0;
    assert(text::texts(r@) =~= present(sources@.take(0)));
    while i < sources.len()
        invariant
            i <= sources@.len(),
            text::texts(r@) == present(sources@.take(i as int)),
        decreases sources@.len() - i,
    {
        if sources[i].exists {
            r.push(text::owned(sources[i].path.as_str()));
        }
        i += 1;
        assert(sources@.take(i as int).drop_last() =~= sources@.take(i - 1));
    }
    assert(sources@.take(i as int) =~= sources@);
    r
}

fn list_strays(sources: &[Source], roots: &[Root]) -> (r: Vec<String>)
    ensures
        text::texts(r@) == strays(sources@, roots@),
{
    broadcast use text::lemma_texts_push;

    let mut r: Vec<String> = Vec::new();
    let mut i: usize = 0;
    assert(text::texts(r@) =~= strays(sources@.take(0), roots@));
    while i < sources.len()
        invariant
            i <= sources@.len(),
            text::texts(r@) == strays(sources@.take(i as int), roots@),
        decreases sources@.len() - i,
    {
        if sources[i].exists {
            let inside = match &sources[i].canonical {
                Some(c) => within_roots(sources[i].path.as_str(), Some(c.as_slice()), roots),
                None => within_roots(sources[i].path.as_str(), None, roots),
            };
            if !inside {
                r.push(text::owned(sources[i].path.as_str()));
            }
        }
        i += 1;
        assert(sources@.take(i as int).drop_last() =~= sources@.take(i - 1));
    }
    assert(sources@.take(i as int) =~= sources@);
    r
}

fn list_missing(sources: &[Source]) -> (r: String)
    ensures
        r@ == missing(sources@),
{
    let mut r = String::new();
    let mut i: usize = 0;
    assert(r@ =~= missing(sources@.take(0)));
    while i < sources.len()
        invariant
            i <= sources@.len(),
            r@ == missing(sources@.take(i as int)),
        decreases sources@.len() - i,
    {
        if !sources[i].exists {
            let ghost before = r@;
            r.append(sources[i].path.as_str());
            r.push(' ');
            assert(r@ =~= before + sources@[i as int].path@ + seq![' ']);
        }
        i += 1;
        assert(sources@.take(i as int).drop_last() =~= sources@.take(i - 1));
    }
    assert(sources@.take(i as int) =~= sources@);
    r
}

/// Plans a backup of the requested paths.
pub fn plan_backup(sources: &[Source], dest: &str, mode: BackupMode, roots: Option<&[Root]>) -> (r:
    Result<BackupPlan, String>)
    ensures
        plan_outcome(r) == backup_planned(
            sources@,
            dest@,
            mode,
            match roots {
                Some(roots) => Some(roots@),
                None => None,
            },
        ),
{
    if mode == BackupMode::Restic {
        return Err(text::owned("restic mode is not implemented in this agent build"));
    }
    let dest = match parse_dest(dest) {
        Ok(dest) => dest,
        Err(e) => return Err(e),
    };
    if sources.len() == 0 {
        return Err(text::owned("paths is empty"));
    }
    let existing = list_present(sources);
    assert(text::texts(existing@).len() == existing@.len());
    if existing.len() == 0 {
        return Err(text::owned("no requested paths exist on this host"));
    }
    if let Some(roots) = roots {
        let bad = list_strays(sources, roots);
        assert(text::texts(bad@).len() == bad@.len());
        if bad.len() > 0 {
            let list = text::join(bad.as_slice(), ", ");
            return Err(
                text::join2("path(s) outside SHELLFLEET_BACKUP_ROOTS allow-list: ", list.as_str()),
            );
        }
    }
    let mut log = String::new();
    if existing.len() != sources.len() {
        log = text::join2("WARN: skipping missing path(s): ", list_missing(sources).as_str());
        let ghost before = log@;
        log.push('\n');
        assert(log@ =~= before + seq!['\n']);
    } else {
        assert(log@ =~= Seq::empty());
    }
    Ok(BackupPlan { dest, existing, log })
}

// ---------- making the archive ----------

/// The name of an archive.
pub open spec fn archive_named(name: Seq<char>, seconds: u64) -> Seq<char> {
    name + "-"@ + text::decimal(seconds as nat) + ".tar.gz"@
}

/// The name of an archive made at some second.
pub fn archive_name(name: &str, seconds: u64) -> (r: String)
    ensures
        r@ == archive_named(name@, seconds),
{
    text::join4(name, "-", text::decimal_text(seconds).as_str(), ".tar.gz")
}

/// A name inside a directory: an absolute name stands for itself.
pub open spec fn path_in(dir: Seq<char>, name: Seq<char>) -> Seq<char> {
    if text::begins(name, '/') {
        name
    } else if dir.len() == 0 || text::finishes(dir, '/') {
        dir + name
    } else {
        dir + "/"@ + name
    }
}

/// Puts a name inside a directory.
pub fn path_join(dir: &str, name: &str) -> (r: String)
    ensures
        r@ == path_in(dir@, name@),
{
    if text::starts_with_char(name, '/') {
        text::owned(name)
    } else if dir.is_empty() || text::ends_with_char(dir, '/') {
        text::join2(dir, name)
    } else {
        text::join3(dir, "/", name)
    }
}

/// The arguments with which `tar` makes an archive.
pub open spec fn create_args(archive: Seq<char>, existing: Seq<Seq<char>>) -> Seq<Seq<char>> {
    seq!["--ignore-failed-read"@, "-czf"@, archive] + existing
}

/// The arguments with which `tar` makes an archive.
pub fn create_argv(archive: &str, existing: &[String]) -> (r: Vec<String>)
    ensures
        text::texts(r@) == create_args(archive@, text::texts(existing@)),
{
    let mut r: Vec<String> = Vec::new();
    r.push(text::owned("--ignore-failed-read"));
    r.push(text::owned("-czf"));
    r.push(text::owned(archive));
    assert(text::texts(r@) =~= seq!["--ignore-failed-read"@, "-czf"@, archive@]);
    let ghost head = r@;
    let mut rest = text::copy_texts(existing);
    let ghost tail = rest@;
    r.append(&mut rest);
    assert(text::texts(r@) =~= text::texts(head) + text::texts(tail));
    r
}

/// How a backup ended.
#[derive(Debug)]
pub struct BackupReport {
    pub success: bool,
    pub archive_uri: String,
    pub bytes: u64,
    pub log: String,
    pub error: Option<String>,
}

/// A report with its texts spelled out.
#[verifier::ext_equal]
pub struct ReportView {
    pub success: bool,
    pub archive_uri: Seq<char>,
    pub bytes: u64,
    pub log: Seq<char>,
    pub error: Option<Seq<char>>,
}

impl View for BackupReport {
    type V = ReportView;

    open spec fn view(&self) -> ReportView {
        ReportView {
            success: self.success,
            archive_uri: self.archive_uri@,
            bytes: self.bytes,
            log: self.log@,
            error: text::opt_text(self.error),
        }
    }
}

pub open spec fn opt_report(o: Option<BackupReport>) -> Option<ReportView> {
    match o {
        Some(r) => Some(r@),
        None => None,
    }
}

/// The report of a backup that failed.
pub open spec fn failed(log: Seq<char>, error: Seq<char>) -> ReportView {
    ReportView { success: false, archive_uri: Seq::empty(), bytes: 0, log, error: Some(error) }
}

/// Reports a backup that failed.
pub fn failed_backup(log: &str, error: &str) -> (r: BackupReport)
    ensures
        r@ == failed(log@, error@),
{
    let r = BackupReport {
        success: false,
        archive_uri: String::new(),
        bytes: 0,
        log: text::owned(log),
        error: Some(text::owned(error)),
    };
    assert(r@ =~= failed(log@, error@));
    r
}

/// The line that a finished archive leaves in the log.
pub open spec fn wrote_line(uri: Seq<char>, bytes: u64) -> Seq<char> {
    "wrote "@ + uri + " ("@ + text::decimal(bytes as nat) + " bytes)\n"@
}

/// What a finished archive adds to the log and to the report. Nothing where
/// the log cannot be cut at a character.
pub open spec fn finished(log: Seq<char>, uri: Seq<char>, bytes: u64) -> Option<ReportView> {
    match output::cut_down(log + wrote_line(uri, bytes), LOG_CAP as nat) {
        None => None,
        Some(log) => Some(
            ReportView { success: true, archive_uri: uri, bytes, log, error: None },
        ),
    }
}

fn finish(log: String, uri: &str, bytes: u64) -> (r: Option<BackupReport>)
    ensures
        opt_report(r) == finished(log@, uri@, bytes),
{
    let mut log = log;
    let line = text::join5("wrote ", uri, " (", text::decimal_text(bytes).as_str(), " bytes)\n");
    log.append(line.as_str());
    match output::try_truncate(log.as_str(), LOG_CAP) {
        None => None,
        Some(log) => Some(
            BackupReport { success: true, archive_uri: text::owned(uri), bytes, log, error: None },
        ),
    }
}

/// What the exit of a child process is called in an error.
pub open spec fn tar_exit(code: Option<i32>) -> Seq<char> {
    "tar exit "@ + text::code_words(code)
}

/// The log with the output of `tar` in it.
pub open spec fn log_with(log: Seq<char>, stdout: Seq<char>, heading: Seq<char>, stderr: Seq<char>)
    -> Seq<char> {
    log + output::section(Seq::empty(), stdout) + output::section(heading, stderr)
}

/// The report of a local backup, once `tar` has exited. Nothing where the log
/// cannot be cut at a character.
pub open spec fn local_finished(
    log: Seq<char>,
    tar: output::OutputView,
    archive: Seq<char>,
    bytes: u64,
) -> Option<ReportView> {
    match output::cut_down(
        log_with(log, tar.stdout, "--- stderr ---\n"@, tar.stderr),
        LOG_CAP as nat,
    ) {
        None => None,
        Some(log) => if !tar.success {
            Some(failed(log, tar_exit(tar.code)))
        } else {
            finished(log, archive, bytes)
        },
    }
}

/// Reports a local backup, once `tar` has exited.
pub fn finish_local(log: String, tar: &CommandOutput, archive: &str, bytes: u64) -> (r: Option<
    BackupReport,
>)
    ensures
        opt_report(r) == local_finished(log@, tar@, archive@, bytes),
{
    let mut log = log;
    output::push_section(&mut log, "", tar.stdout.as_str());
    proof {
        reveal_strlit("");
        assert(""@ =~= Seq::<char>::empty());
    }
    output::push_section(&mut log, "--- stderr ---\n", tar.stderr.as_str());
    match output::try_truncate(log.as_str(), LOG_CAP) {
        None => None,
        Some(log) => if !tar.success {
            let error = text::join2("tar exit ", text::code_text(tar.code).as_str());
            Some(failed_backup(log.as_str(), error.as_str()))
        } else {
            finish(log, archive, bytes)
        },
    }
}

/// The key of an archive in its bucket.
pub open spec fn key_in(prefix: Seq<char>, name: Seq<char>) -> Seq<char> {
    if prefix.len() == 0 {
        name
    } else {
        prefix + "/"@ + name
    }
}

/// The key of an archive in its bucket.
pub fn s3_key(prefix: &str, name: &str) -> (r: String)
    ensures
        r@ == key_in(prefix@, name@),
{
    if prefix.is_empty() {
        text::owned(name)
    } else {
        text::join3(prefix, "/", name)
    }
}

/// The address of a key in a bucket.
pub open spec fn uri_of(bucket: Seq<char>, key: Seq<char>) -> Seq<char> {
    "s3://"@ + bucket + "/"@ + key
}

/// The address of a key in a bucket.
pub fn s3_uri(bucket: &str, key: &str) -> (r: String)
    ensures
        r@ == uri_of(bucket@, key@),
{
    text::join4("s3://", bucket, "/", key)
}

/// How an archive goes up.
#[derive(Debug)]
pub enum Upload {
    /// `tar` failed: there is nothing to send.
    Stop(BackupReport),
    /// In one request.
    Single { log: String },
    /// In parts.
    Multipart { log: String },
}

/// How an archive goes up, with its texts spelled out.
#[verifier::ext_equal]
pub enum UploadView {
    Stop(ReportView),
    Single { log: Seq<char> },
    Multipart { log: Seq<char> },
}

impl View for Upload {
    type V = UploadView;

    open spec fn view(&self) -> UploadView {
        match self {
            Upload::Stop(report) => UploadView::Stop(report@),
            Upload::Single { log } => UploadView::Single { log: log@ },
            Upload::Multipart { log } => UploadView::Multipart { log: log@ },
        }
    }
}

pub open spec fn opt_upload(o: Option<Upload>) -> Option<UploadView> {
    match o {
        Some(u) => Some(u@),
        None => None,
    }
}

/// How an archive goes up once `tar` has exited. Nothing where the log cannot
/// be cut at a character.
pub open spec fn upload_planned(log: Seq<char>, tar: output::OutputView, bytes: u64) -> Option<
    UploadView,
> {
    match output::cut_down(
        log + output::section("--- tar stderr ---\n"@, tar.stderr),
        LOG_CAP as nat,
    ) {
        None => None,
        Some(log) => Some(
            if !tar.success {
                UploadView::Stop(failed(log, tar_exit(tar.code)))
            } else if bytes >= MULTIPART_THRESHOLD {
                UploadView::Multipart {
                    log: log + ("uploading "@ + text::decimal(bytes as nat) + " bytes via multipart ("@
                        + text::decimal(MULTIPART_CHUNK as nat) + "-byte chunks)\n"@),
                }
            } else {
                UploadView::Single {
                    log: log + ("uploading "@ + text::decimal(bytes as nat)
                        + " bytes via PutObject\n"@),
                }
            },
        ),
    }
}

/// Decides how an archive goes up once `tar` has exited.
pub fn plan_upload(log: String, tar: &CommandOutput, bytes: u64) -> (r: Option<Upload>)
    ensures
        opt_upload(r) == upload_planned(log@, tar@, bytes),
{
    let mut log = log;
    output::push_section(&mut log, "--- tar stderr ---\n", tar.stderr.as_str());
    match output::try_truncate(log.as_str(), LOG_CAP) {
        None => None,
        Some(log) => {
            if !tar.success {
                let error = text::join2("tar exit ", text::code_text(tar.code).as_str());
                return Some(Upload::Stop(failed_backup(log.as_str(), error.as_str())));
            }
            let mut log = log;
            let size = text::decimal_text(bytes);
            if bytes >= MULTIPART_THRESHOLD {
                let chunk = text::decimal_text(MULTIPART_CHUNK as u64);
                let line = text::join5(
                    "uploading ",
                    size.as_str(),
                    " bytes via multipart (",
                    chunk.as_str(),
                    "-byte chunks)\n",
                );
                log.append(line.as_str());
                Some(Upload::Multipart { log })
            } else {
                let line = text::join3("uploading ", size.as_str(), " bytes via PutObject\n");
                log.append(line.as_str());
                Some(Upload::Single { log })
            }
        },
    }
}

/// The report of an S3 backup, once the upload has ended. Nothing where the
/// log cannot be cut at a character.
pub open spec fn upload_finished(
    log: Seq<char>,
    uri: Seq<char>,
    uploaded: Result<u64, Seq<char>>,
) -> Option<ReportView> {
    match uploaded {
        Ok(bytes) => finished(log, uri, bytes),
        Err(e) => match output::cut_down(log, LOG_CAP as nat) {
            None => None,
            Some(log) => Some(failed(log, e)),
        },
    }
}

/// Reports an S3 backup, once the upload has ended.
pub fn finish_upload(log: String, uri: &str, uploaded: &Result<u64, String>) -> (r: Option<
    BackupReport,
>)
    ensures
        opt_report(r) == upload_finished(log@, uri@, text::outcome(*uploaded)),
{
    match uploaded {
        Ok(bytes) => finish(log, uri, *bytes),
        Err(e) => match output::try_truncate(log.as_str(), LOG_CAP) {
            None => None,
            Some(log) => Some(failed_backup(log.as_str(), e.as_str())),
        },
    }
}

// ---------- uploading in parts ----------

/// A part that has gone up.
#[derive(Debug)]
pub struct Part {
    pub number: i32,
    pub e_tag: Option<String>,
}

/// What an upload in parts does next.
#[derive(Debug, Clone, Copy, PartialEq, Eq, Structural)]
pub enum PartStep {
    /// Read on, behind the bytes that are already there.
    Read { filled: usize },
    /// Send the bytes that are there as the next part.
    Send { number: i32, filled: usize },
    /// The file has ended: complete the upload.
    Complete,
}

/// The progress of an upload in parts.
pub struct PartsUpload {
    parts: Vec<Part>,
    filled: usize,
    total: u64,
}

impl PartsUpload {
    /// The parts that have gone up.
    pub closed spec fn parts(&self) -> Seq<Part> {
        self.parts@
    }

    /// The bytes that wait in the buffer.
    pub closed spec fn filled(&self) -> nat {
        self.filled as nat
    }

    /// The bytes that have gone up.
    pub closed spec fn total(&self) -> nat {
        self.total as nat
    }

    /// Parts are numbered from one without gaps, and none is empty or larger
    /// than a chunk.
    pub open spec fn well_formed(&self) -> bool {
        &&& self.filled() <= MULTIPART_CHUNK
        &&& self.parts().len() < i32::MAX
        &&& self.parts().len() <= self.total() <= self.parts().len() * MULTIPART_CHUNK
        &&& forall|i: int|
            0 <= i < self.parts().len() ==> (#[trigger] self.parts()[i]).number == i + 1
    }

    /// An upload of which nothing has gone up yet.
    pub fn new() -> (r: Self)
        ensures
            r.well_formed(),
            r.parts().len() == 0,
            r.filled() == 0,
            r.total() == 0,
    {
        PartsUpload { parts: Vec::new(), filled: 0, total: 0 }
    }

    /// Takes note of a read into the free end of the buffer; a read of nothing
    /// is the end of the file.
    pub fn read(&mut self, n: usize) -> (r: PartStep)
        requires
            old(self).well_formed(),
            n <= MULTIPART_CHUNK - old(self).filled(),
        ensures
            final(self).well_formed(),
            final(self).parts() == old(self).parts(),
            final(self).total() == old(self).total(),
            final(self).filled() == old(self).filled() + n,
            r == (if n > 0 && final(self).filled() < MULTIPART_CHUNK {
                PartStep::Read { filled: final(self).filled() as usize }
            } else if final(self).filled() > 0 {
                PartStep::Send {
                    number: (final(self).parts().len() + 1) as i32,
                    filled: final(self).filled() as usize,
                }
            } else {
                PartStep::Complete
            }),
    {
        self.filled = self.filled + n;
        if n > 0 && self.filled < MULTIPART_CHUNK {
            PartStep::Read { filled: self.filled }
        } else if self.filled > 0 {
            PartStep::Send { number: self.parts.len() as i32 + 1, filled: self.filled }
        } else {
            PartStep::Complete
        }
    }

    /// Takes note that the buffer has gone up as a part, and empties it.
    pub fn sent(&mut self, e_tag: Option<String>)
        requires
            old(self).well_formed(),
            old(self).filled() > 0,
            old(self).parts().len() < i32::MAX - 1,
        ensures
            final(self).well_formed(),
            final(self).parts() == old(self).parts().push(
                Part { number: (old(self).parts().len() + 1) as i32, e_tag },
            ),
            final(self).total() == old(self).total() + old(self).filled(),
            final(self).filled() == 0,
    {
        let number: i32 = self.parts.len() as i32 + 1;
        self.parts.push(Part { number, e_tag });
        self.total = self.total + self.filled as u64;
        self.filled = 0;
    }

    /// The parts and how many bytes they hold, for completing the upload.
    pub fn done(self) -> (r: (Vec<Part>, u64))
        ensures
            r.0@ == self.parts(),
            r.1 == self.total(),
    {
        (self.parts, self.total)
    }
}

/// Words the failure of a part.
pub fn part_failed(number: i32, error: &str) -> (r: String)
    ensures
        r@ == "UploadPart#"@ + text::signed_decimal(number as int) + ": "@ + error@,
{
    text::join4("UploadPart#", text::signed_text(number as i64).as_str(), ": ", error)
}

// ---------- listing archives ----------

/// An archive at a destination.
#[derive(Debug)]
pub struct BackupArchive {
    pub name: String,
    pub uri: String,
    pub bytes: u64,
    pub mtime: i64,
}

/// An archive with its texts spelled out.
#[verifier::ext_equal]
pub struct ArchiveView {
    pub name: Seq<char>,
    pub uri: Seq<char>,
    pub bytes: u64,
    pub mtime: i64,
}

impl View for BackupArchive {
    type V = ArchiveView;

    open spec fn view(&self) -> ArchiveView {
        ArchiveView { name: self.name@, uri: self.uri@, bytes: self.bytes, mtime: self.mtime }
    }
}

pub open spec fn archives(v: Seq<BackupArchive>) -> Seq<ArchiveView> {
    v.map_values(|a: BackupArchive| a@)
}

/// A directory entry: its name where that is UTF-8, its path, and its size and
/// age where they could be read.
#[derive(Debug)]
pub struct LocalEntry {
    pub name: Option<String>,
    pub path: String,
    pub meta: Option<LocalMeta>,
}

/// Size and age of a file.
#[derive(Debug, Clone, Copy)]
pub struct LocalMeta {
    pub bytes: u64,
    pub mtime: Option<i64>,
}

/// The archive that a directory entry is, if it is one.
pub open spec fn entry_archive(entry: LocalEntry) -> Option<ArchiveView> {
    match (entry.name, entry.meta) {
        (Some(name), Some(meta)) => if ".tar.gz"@.is_suffix_of(name@) {
            Some(
                ArchiveView {
                    name: name@,
                    uri: entry.path@,
                    bytes: meta.bytes,
                    mtime: match meta.mtime {
                        Some(t) => t,
                        None => 0,
                    },
                },
            )
        } else {
            None
        },
        _ => None,
    }
}

/// The archives among some directory entries.
pub open spec fn local_found(entries: Seq<LocalEntry>) -> Seq<ArchiveView>
    decreases entries.len(),
{
    if entries.len() == 0 {
        Seq::empty()
    } else {
        match entry_archive(entries.last()) {
            Some(a) => local_found(entries.drop_last()).push(a),
            None => local_found(entries.drop_last()),
        }
    }
}

/// An object in a bucket, as far as its fields are there.
#[derive(Debug)]
pub struct S3Object {
    pub key: Option<String>,
    pub size: Option<i64>,
    pub modified: Option<i64>,
}

/// The archive that an object is, if it is one.
pub open spec fn object_archive(bucket: Seq<char>, object: S3Object) -> Option<ArchiveView> {
    match object.key {
        Some(key) => if ".tar.gz"@.is_suffix_of(key@) {
            Some(
                ArchiveView {
                    name: text::after_last(key@, '/'),
                    uri: uri_of(bucket, key@),
                    bytes: match object.size {
                        Some(n) => if n > 0 {
                            n as u64
                        } else {
                            0
                        },
                        None => 0,
                    },
                    mtime: match object.modified {
                        Some(t) => t,
                        None => 0,
                    },
                },
            )
        } else {
            None
        },
        None => None,
    }
}

/// The archives among some objects of a bucket.
pub open spec fn s3_found(bucket: Seq<char>, objects: Seq<S3Object>) -> Seq<ArchiveView>
    decreases objects.len(),
{
    if objects.len() == 0 {
        Seq::empty()
    } else {
        match object_archive(bucket, objects.last()) {
            Some(a) => s3_found(bucket, objects.drop_last()).push(a),
            None => s3_found(bucket, objects.drop_last()),
        }
    }
}

/// Whether archives come newest first.
pub open spec fn newest_first(v: Seq<ArchiveView>) -> bool {
    forall|i: int, j: int| 0 <= i <= j < v.len() ==> v[i].mtime >= v[j].mtime
}

/// The archives of one age, in their order.
pub open spec fn of_age(v: Seq<ArchiveView>, mtime: i64) -> Seq<ArchiveView>
    decreases v.len(),
{
    if v.len() == 0 {
        Seq::empty()
    } else if v.last().mtime == mtime {
        of_age(v.drop_last(), mtime).push(v.last())
    } else {
        of_age(v.drop_last(), mtime)
    }
}

/// Whether a list is another one, newest first: the same archives of each age,
/// in the same order among themselves.
pub open spec fn sorted_from(sorted: Seq<ArchiveView>, v: Seq<ArchiveView>) -> bool {
    newest_first(sorted) && sorted.len() == v.len() && forall|t: i64| #[trigger]
        of_age(sorted, t) == of_age(v, t)
}

proof fn lemma_insert(v: Seq<ArchiveView>, x: ArchiveView, k: int)
    requires
        newest_first(v),
        0 <= k <= v.len(),
        k == 0 || v[k - 1].mtime >= x.mtime,
        forall|j: int| k <= j < v.len() ==> v[j].mtime < x.mtime,
    ensures
        newest_first(v.insert(k, x)),
        forall|t: i64| #[trigger] of_age(v.insert(k, x), t) == of_age(v.push(x), t),
    decreases v.len(),
{
    let w = v.insert(k, x);
    assert(newest_first(w)) by {
        assert forall|i: int, j: int| 0 <= i <= j < w.len() implies w[i].mtime >= w[j].mtime by {
            if i < k {
                assert(w[i] == v[i]);
            }
            if j > k {
                assert(w[j] == v[j - 1]);
            }
            if i > k {
                assert(w[i] == v[i - 1]);
            }
            if j < k {
                assert(w[j] == v[j]);
            }
        }
    }
    if k == v.len() {
        assert(w =~= v.push(x));
    } else {
        let u = v.drop_last();
        assert(newest_first(u));
        lemma_insert(u, x, k);
        assert(w.drop_last() =~= u.insert(k, x));
        assert(w.last() == v.last());
        assert forall|t: i64| #[trigger] of_age(w, t) == of_age(v.push(x), t) by {
            assert(v.push(x).drop_last() =~= v);
            assert(u.push(x).drop_last() =~= u);
            assert(of_age(u.insert(k, x), t) == of_age(u.push(x), t));
            assert(v.last().mtime < x.mtime);
            assert(of_age(v.push(x), t) == (if x.mtime == t {
                of_age(v, t).push(x)
            } else {
                of_age(v, t)
            }));
            assert(of_age(u.push(x), t) == (if x.mtime == t {
                of_age(u, t).push(x)
            } else {
                of_age(u, t)
            }));
        }
    }
}

fn copy_archive(a: &BackupArchive) -> (r: BackupArchive)
    ensures
        r@ == a@,
{
    BackupArchive {
        name: text::owned(a.name.as_str()),
        uri: text::owned(a.uri.as_str()),
        bytes: a.bytes,
        mtime: a.mtime,
    }
}

/// Sorts archives newest first, and leaves those of one age in their order.
pub fn sort_newest_first(v: &[BackupArchive]) -> (r: Vec<BackupArchive>)
    ensures
        sorted_from(archives(r@), archives(v@)),
{
    let mut r: Vec<BackupArchive> = Vec::new();
    let ghost all = archives(v@);
    let mut i: usize = 0;
    assert(archives(r@) =~= all.take(0));
    while i < v.len()
        invariant
            i <= v@.len(),
            all == archives(v@),
            sorted_from(archives(r@), all.take(i as int)),
        decreases v@.len() - i,
    {
        let ghost before = archives(r@);
        let mut k: usize = r.len();
        while k > 0 && r[k - 1].mtime < v[i].mtime
            invariant
                k <= r@.len(),
                i < v@.len(),
                forall|j: int| k <= j < r@.len() ==> r@[j].mtime < v@[i as int].mtime,
            decreases k,
        {
            k = k - 1;
        }
        let item = copy_archive(&v[i]);
        proof {
            assert forall|j: int| k <= j < before.len() implies before[j].mtime < item@.mtime by {
                assert(before[j] == r@[j]@);
            }
            if k > 0 {
                assert(before[k - 1] == r@[k - 1]@);
            }
            lemma_insert(before, item@, k as int);
        }
        r.insert(k, item);
        proof {
            assert(archives(r@) =~= before.insert(k as int, item@));
            let now = all.take(i + 1);
            assert(now.drop_last() =~= all.take(i as int));
            assert(now.last() == item@);
            assert forall|t: i64| #[trigger] of_age(archives(r@), t) == of_age(now, t) by {
                assert(before.push(item@).drop_last() =~= before);
                assert(of_age(before, t) == of_age(all.take(i as int), t));
                assert(of_age(before.insert(k as int, item@), t) == of_age(
                    before.push(item@),
                    t,
                ));
            }
        }
        i += 1;
    }
    assert(all.take(i as int) =~= all);
    r
}

fn take_entry(entry: &LocalEntry) -> (r: Option<BackupArchive>)
    ensures
        entry_archive(*entry) == (match r {
            Some(a) => Some(a@),
            None => None,
        }),
{
    match (&entry.name, &entry.meta) {
        (Some(name), Some(meta)) => if text::ends_with(name.as_str(), ".tar.gz") {
            let mtime: i64 = match meta.mtime {
                Some(t) => t,
                None => 0,
            };
            Some(
                BackupArchive {
                    name: text::owned(name.as_str()),
                    uri: text::owned(entry.path.as_str()),
                    bytes: meta.bytes,
                    mtime,
                },
            )
        } else {
            None
        },
        _ => None,
    }
}

/// The archives in a directory, newest first.
pub fn local_archives(entries: &[LocalEntry]) -> (r: Vec<BackupArchive>)
    ensures
        sorted_from(archives(r@), local_found(entries@)),
{
    let mut found: Vec<BackupArchive> = Vec::new();
    let mut i: usize = 0;
    assert(archives(found@) =~= local_found(entries@.take(0)));
    while i < entries.len()
        invariant
            i <= entries@.len(),
            archives(found@) == local_found(entries@.take(i as int)),
        decreases entries@.len() - i,
    {
        let ghost before = found@;
        assert(entries@.take(i + 1).drop_last() =~= entries@.take(i as int));
        if let Some(a) = take_entry(&entries[i]) {
            found.push(a);
            assert(archives(found@) =~= archives(before).push(a@));
        }
        i += 1;
    }
    assert(entries@.take(i as int) =~= entries@);
    sort_newest_first(found.as_slice())
}

fn take_object(bucket: &str, object: &S3Object) -> (r: Option<BackupArchive>)
    ensures
        object_archive(bucket@, *object) == (match r {
            Some(a) => Some(a@),
            None => None,
        }),
{
    match &object.key {
        Some(key) => if text::ends_with(key.as_str(), ".tar.gz") {
            let bytes: u64 = match object.size {
                Some(n) => if n > 0 {
                    n as u64
                } else {
                    0
                },
                None => 0,
            };
            let mtime: i64 = match object.modified {
                Some(t) => t,
                None => 0,
            };
            Some(
                BackupArchive {
                    name: text::last_part(key.as_str(), '/'),
                    uri: s3_uri(bucket, key.as_str()),
                    bytes,
                    mtime,
                },
            )
        } else {
            None
        },
        None => None,
    }
}

/// Adds the archives on a page of objects to those of the pages before.
pub fn add_page(found: &mut Vec<BackupArchive>, bucket: &str, objects: &[S3Object])
    ensures
        archives(final(found)@) == archives(old(found)@) + s3_found(bucket@, objects@),
{
    let ghost first = archives(found@);
    let mut i: usize = 0;
    assert(first + s3_found(bucket@, objects@.take(0)) =~= first);
    while i < objects.len()
        invariant
            i <= objects@.len(),
            archives(found@) == first + s3_found(bucket@, objects@.take(i as int)),
        decreases objects@.len() - i,
    {
        let ghost before = found@;
        assert(objects@.take(i + 1).drop_last() =~= objects@.take(i as int));
        if let Some(a) = take_object(bucket, &objects[i]) {
            found.push(a);
            assert(archives(found@) =~= archives(before).push(a@));
            assert(archives(found@) =~= first + s3_found(
                bucket@,
                objects@.take(i as int),
            ).push(a@));
        }
        i += 1;
    }
    assert(objects@.take(i as int) =~= objects@);
}

/// What the objects of a listing are asked for: those under the prefix.
pub fn list_prefix(prefix: &str) -> (r: Option<String>)
    ensures
        text::opt_text(r) == (if prefix@.len() == 0 {
            None
        } else {
            Some(prefix@ + "/"@)
        }),
{
    if prefix.is_empty() {
        None
    } else {
        Some(text::join2(prefix, "/"))
    }
}

/// The token of the page to ask for next, if there is one.
pub fn next_page(truncated: Option<bool>, token: Option<String>) -> (r: Option<String>)
    ensures
        r == (if truncated == Some(true) {
            token
        } else {
            None
        }),
{
    match truncated {
        Some(more) => if more {
            token
        } else {
            None
        },
        None => None,
    }
}

// ---------- restoring ----------

/// The refusal of a restore root, around the quoted root.
pub open spec fn outside(quoted: Seq<char>) -> Seq<char> {
    "restore dest_root "@ + quoted + " is outside the SHELLFLEET_BACKUP_ROOTS allow-list"@
}

/// Words the refusal of a restore root.
pub fn outside_roots(quoted: &str) -> (r: String)
    ensures
        r@ == outside(quoted@),
{
    text::join3(
        "restore dest_root ",
        quoted,
        " is outside the SHELLFLEET_BACKUP_ROOTS allow-list",
    )
}

/// The root that a restore goes into, or why it may not.
pub open spec fn restore_root_checked(
    dest_root: Seq<char>,
    canonical: Option<Seq<u8>>,
    roots: Option<Seq<Root>>,
) -> Result<Seq<char>, Seq<char>> {
    let root = text::trimmed(dest_root);
    if root.len() == 0 {
        Err("dest_root is empty"@)
    } else if roots is Some && !confined(root, canonical, roots->0) {
        Err(outside(output::quoted_text(root)))
    } else {
        Ok(root)
    }
}

/// Checks the root that a restore goes into. What the filesystem resolved it
/// to is that of the trimmed root.
pub fn check_restore_root(dest_root: &str, canonical: Option<&[u8]>, roots: Option<&[Root]>) -> (r:
    Result<String, String>)
    ensures
        text::text_outcome(r) == restore_root_checked(
            dest_root@,
            match canonical {
                Some(c) => Some(c@),
                None => None,
            },
            match roots {
                Some(roots) => Some(roots@),
                None => None,
            },
        ),
{
    let root = text::trim(dest_root);
    if root.as_str().is_empty() {
        return Err(text::owned("dest_root is empty"));
    }
    if let Some(roots) = roots {
        if !within_roots(root.as_str(), canonical, roots) {
            return Err(outside_roots(output::quoted(root.as_str()).as_str()));
        }
    }
    Ok(root)
}

/// Where an archive is read from.
#[derive(Debug)]
pub enum RestoreSource {
    S3 { bucket: String, key: String },
    Local(String),
}

/// A source with its texts spelled out.
#[verifier::ext_equal]
pub enum SourceView {
    S3 { bucket: Seq<char>, key: Seq<char> },
    Local(Seq<char>),
}

impl View for RestoreSource {
    type V = SourceView;

    open spec fn view(&self) -> SourceView {
        match self {
            RestoreSource::S3 { bucket, key } => SourceView::S3 { bucket: bucket@, key: key@ },
            RestoreSource::Local(path) => SourceView::Local(path@),
        }
    }
}

pub open spec fn source_outcome(r: Result<RestoreSource, String>) -> Result<
    SourceView,
    Seq<char>,
> {
    match r {
        Ok(s) => Ok(s@),
        Err(e) => Err(e@),
    }
}

/// Where an archive is read from, by its address.
pub open spec fn source_parsed(uri: Seq<char>) -> Result<SourceView, Seq<char>> {
    match text::after_prefix(uri, "s3://"@) {
        Some(rest) => {
            let (bucket, key) = s3_parts(rest);
            if bucket.len() == 0 || key.len() == 0 {
                Err("malformed archive URI: s3://"@ + rest)
            } else {
                Ok(SourceView::S3 { bucket, key })
            }
        },
        None => Ok(
            SourceView::Local(
                match text::after_prefix(uri, "file://"@) {
                    Some(path) => path,
                    None => uri,
                },
            ),
        ),
    }
}

/// Parses the address of an archive.
pub fn restore_source(uri: &str) -> (r: Result<RestoreSource, String>)
    ensures
        source_outcome(r) == source_parsed(uri@),
{
    if let Some(rest) = text::strip_prefix(uri, "s3://") {
        let (bucket, key) = split_s3(rest.as_str());
        if bucket.as_str().is_empty() || key.as_str().is_empty() {
            return Err(text::join2("malformed archive URI: s3://", rest.as_str()));
        }
        return Ok(RestoreSource::S3 { bucket, key });
    }
    match text::strip_prefix(uri, "file://") {
        Some(path) => Ok(RestoreSource::Local(path)),
        None => Ok(RestoreSource::Local(text::owned(uri))),
    }
}

/// The arguments with which `tar` extracts an archive: absolute names, parent
/// components, owners and modes of the members are not honoured.
pub open spec fn extract_args(archive: Seq<char>, root: Seq<char>) -> Seq<Seq<char>> {
    seq![
        "-xzf"@,
        archive,
        "-C"@,
        root,
        "--no-absolute-names"@,
        "--exclude=../*"@,
        "--exclude=*/../*"@,
        "--no-same-owner"@,
        "--no-same-permissions"@,
    ]
}

/// The arguments with which `tar` extracts an archive; `-` reads it from the
/// standard input.
pub fn extract_argv(archive: &str, root: &str) -> (r: Vec<String>)
    ensures
        text::texts(r@) == extract_args(archive@, root@),
{
    let mut r: Vec<String> = Vec::new();
    r.push(text::owned("-xzf"));
    r.push(text::owned(archive));
    r.push(text::owned("-C"));
    r.push(text::owned(root));
    r.push(text::owned("--no-absolute-names"));
    r.push(text::owned("--exclude=../*"));
    r.push(text::owned("--exclude=*/../*"));
    r.push(text::owned("--no-same-owner"));
    r.push(text::owned("--no-same-permissions"));
    assert(text::texts(r@) =~= extract_args(archive@, root@));
    r
}

/// The number of bytes that a restore has read, against its limit.
#[derive(Debug, Clone, Copy)]
pub struct RestoreMeter {
    pub total: u64,
    pub max: u64,
}

impl RestoreMeter {
    /// Counts a chunk, before it is handed to `tar`.
    pub fn take(&mut self, len: u64) -> (r: Result<(), String>)
        ensures
            final(self).max == old(self).max,
            final(self).total == (if old(self).total + len > u64::MAX {
                u64::MAX as int
            } else {
                old(self).total + len
            }),
            text::outcome(r) == (if final(self).total > old(self).max {
                Err(
                    "S3 GetObject body exceeded SHELLFLEET_S3_RESTORE_MAX_BYTES ("@ + text::decimal(
                        old(self).max as nat,
                    ) + " bytes); aborting restore"@,
                )
            } else {
                Ok(())
            }),
    {
        self.total = match self.total.checked_add(len) {
            Some(total) => total,
            None => u64::MAX,
        };
        if self.total > self.max {
            return Err(
                text::join3(
                    "S3 GetObject body exceeded SHELLFLEET_S3_RESTORE_MAX_BYTES (",
                    text::decimal_text(self.max).as_str(),
                    " bytes); aborting restore",
                ),
            );
        }
        Ok(())
    }
}

/// How a restore ended.
#[derive(Debug)]
pub struct RestoreReport {
    pub success: bool,
    pub log: String,
    pub error: Option<String>,
}

/// A restore's end with its texts spelled out.
#[verifier::ext_equal]
pub struct RestoreView {
    pub success: bool,
    pub log: Seq<char>,
    pub error: Option<Seq<char>>,
}

impl View for RestoreReport {
    type V = RestoreView;

    open spec fn view(&self) -> RestoreView {
        RestoreView { success: self.success, log: self.log@, error: text::opt_text(self.error) }
    }
}

pub open spec fn opt_restore(o: Option<RestoreReport>) -> Option<RestoreView> {
    match o {
        Some(r) => Some(r@),
        None => None,
    }
}

/// The archive as the log calls it.
pub open spec fn source_shown(source: SourceView) -> Seq<char> {
    match source {
        SourceView::S3 { bucket, key } => uri_of(bucket, key),
        SourceView::Local(path) => path,
    }
}

/// The report of a restore, once `tar` has exited. What `tar` printed is shown
/// for a local archive only. Nothing where the log cannot be cut at a
/// character.
pub open spec fn restore_finished(
    source: SourceView,
    root: Seq<char>,
    tar: output::OutputView,
) -> Option<RestoreView> {
    let printed = if source is Local {
        tar.stdout
    } else {
        Seq::empty()
    };
    match output::cut_down(
        log_with(Seq::empty(), printed, "--- tar stderr ---\n"@, tar.stderr),
        LOG_CAP as nat,
    ) {
        None => None,
        Some(log) => if !tar.success {
            Some(RestoreView { success: false, log, error: Some(tar_exit(tar.code)) })
        } else {
            match output::cut_down(
                log + ("restored "@ + source_shown(source) + " into "@ + root + "\n"@),
                LOG_CAP as nat,
            ) {
                None => None,
                Some(log) => Some(RestoreView { success: true, log, error: None }),
            }
        },
    }
}

/// Reports a restore, once `tar` has exited.
pub fn finish_restore(source: &RestoreSource, root: &str, tar: &CommandOutput) -> (r: Option<
    RestoreReport,
>)
    ensures
        opt_restore(r) == restore_finished(source@, root@, tar@),
{
    let mut log = String::new();
    let shown = match source {
        RestoreSource::S3 { bucket, key } => {
            output::push_section(&mut log, "", "");
            s3_uri(bucket.as_str(), key.as_str())
        },
        RestoreSource::Local(path) => {
            output::push_section(&mut log, "", tar.stdout.as_str());
            text::owned(path.as_str())
        },
    };
    proof {
        reveal_strlit("");
        assert(""@ =~= Seq::<char>::empty());
    }
    output::push_section(&mut log, "--- tar stderr ---\n", tar.stderr.as_str());
    assert(log@ == log_with(
        Seq::empty(),
        if source@ is Local {
            tar@.stdout
        } else {
            Seq::empty()
        },
        "--- tar stderr ---\n"@,
        tar@.stderr,
    ));
    match output::try_truncate(log.as_str(), LOG_CAP) {
        None => None,
        Some(log) => {
            if !tar.success {
                let error = text::join2("tar exit ", text::code_text(tar.code).as_str());
                return Some(RestoreReport { success: false, log, error: Some(error) });
            }
            let mut log = log;
            let line = text::join5("restored ", shown.as_str(), " into ", root, "\n");
            log.append(line.as_str());
            match output::try_truncate(log.as_str(), LOG_CAP) {
                None => None,
                Some(log) => Some(RestoreReport { success: true, log, error: None }),
            }
        },
    }
}

// ---------- laws ----------

/// A path that a backup takes is under one of the roots, however it is
/// spelled: no `..` leads out of them.
pub proof fn law_planned_paths_are_confined(
    sources: Seq<Source>,
    dest: Seq<char>,
    mode: BackupMode,
    roots: Seq<Root>,
    i: int,
)
    requires
        backup_planned(sources, dest, mode, Some(roots)) is Ok,
        0 <= i < sources.len(),
        sources[i].exists,
    ensures
        confined(sources[i].path@, canonical_view(sources[i].canonical), roots),
        exists|k: int|
            0 <= k < roots.len() && paths::under(
                encode_utf8(sources[i].path@),
                encode_utf8(#[trigger] roots[k].path@),
            ),
{
    lemma_no_strays(sources, roots, i);
}

proof fn lemma_no_strays(sources: Seq<Source>, roots: Seq<Root>, i: int)
    requires
        strays(sources, roots).len() == 0,
        0 <= i < sources.len(),
        sources[i].exists,
    ensures
        confined(sources[i].path@, canonical_view(sources[i].canonical), roots),
    decreases sources.len(),
{
    if i < sources.len() - 1 {
        lemma_no_strays(sources.drop_last(), roots, i);
    }
}

/// A restore goes nowhere but under one of the roots, as written and, where
/// the place exists, as the filesystem resolved it.
pub proof fn law_restore_is_confined(
    dest_root: Seq<char>,
    canonical: Option<Seq<u8>>,
    roots: Seq<Root>,
)
    requires
        restore_root_checked(dest_root, canonical, Some(roots)) is Ok,
    ensures
        written_within(encode_utf8(text::trimmed(dest_root)), roots),
        canonical matches Some(c) ==> really_within(c, roots),
{
}

/// Without configuration backups are confined to the agent's own state; no
/// configured list lifts the confinement.
pub proof fn law_there_is_always_a_root(raw: Option<Seq<char>>)
    ensures
        roots_configured(raw).len() > 0,
        roots_configured(None) == default_roots(),
{
}

/// The address of an archive in a bucket reads back as that bucket and key.
pub proof fn law_s3_uri_round_trip(bucket: Seq<char>, key: Seq<char>)
    requires
        bucket.len() > 0,
        !bucket.contains('/'),
        key.len() > 0,
    ensures
        source_parsed(uri_of(bucket, key)) == Ok::<SourceView, Seq<char>>(
            SourceView::S3 { bucket, key },
        ),
{
    reveal_strlit("/");
    let rest = bucket + "/"@ + key;
    let uri = uri_of(bucket, key);
    assert(uri =~= "s3://"@ + rest);
    assert(uri.subrange(0, "s3://"@.len() as int) =~= "s3://"@);
    assert(uri.skip("s3://"@.len() as int) =~= rest);
    text::lemma_first_at(rest, '/');
    assert(rest[bucket.len() as int] == '/');
    let n = text::first_at(rest, '/');
    assert(n == bucket.len()) by {
        if n < bucket.len() {
            assert(bucket[n as int] == rest[n as int]);
            assert(bucket.contains(bucket[n as int]));
        }
    }
    assert(rest.take(n as int) =~= bucket);
    assert(rest.skip(n as int + 1) =~= key);
}

/// A sorted list holds what the unsorted one holds, each as often.
pub proof fn law_sorting_loses_nothing(sorted: Seq<ArchiveView>, v: Seq<ArchiveView>)
    requires
        sorted_from(sorted, v),
    ensures
        sorted.to_multiset() == v.to_multiset(),
{
    assert forall|a: ArchiveView| #[trigger] sorted.to_multiset().count(a)
        == v.to_multiset().count(a) by {
        lemma_of_age(sorted, a);
        lemma_of_age(v, a);
        assert(of_age(sorted, a.mtime) == of_age(v, a.mtime));
    }
    assert(sorted.to_multiset() =~= v.to_multiset());
}

/// An archive comes as often among those of its age as in the whole list.
proof fn lemma_of_age(v: Seq<ArchiveView>, a: ArchiveView)
    ensures
        v.to_multiset().count(a) == of_age(v, a.mtime).to_multiset().count(a),
    decreases v.len(),
{
    broadcast use vstd::seq_lib::group_to_multiset_ensures;

    if v.len() > 0 {
        let u = v.drop_last();
        lemma_of_age(u, a);
        assert(v =~= u.push(v.last()));
    } else {
        assert(v =~= of_age(v, a.mtime));
    }
}

/// The paths of the sources that exist, as the standard notions of a filter and
/// a map put it.
pub open spec fn paths_that_exist(sources: Seq<Source>) -> Seq<Seq<char>> {
    sources.filter(|s: Source| s.exists).map_values(|s: Source| s.path@)
}

/// The paths that exist, one by one in the order of the request.
pub proof fn law_present_paths(sources: Seq<Source>)
    ensures
        present(sources) == sources.filter(|s: Source| s.exists).map_values(|s: Source| s.path@),
    decreases sources.len(),
{
    reveal(Seq::filter);
    let pick = |s: Source| s.exists;
    if sources.len() > 0 {
        law_present_paths(sources.drop_last());
        let front = sources.drop_last().filter(pick);
        if sources.last().exists {
            assert(sources.filter(pick) =~= front.push(sources.last()));
        }
        assert(present(sources) =~= paths_that_exist(sources));
    } else {
        assert(present(sources) =~= paths_that_exist(sources));
    }
}

proof fn lemma_kept(sources: Seq<Source>, i: int)
    requires
        0 <= i < sources.len(),
        sources[i].exists,
    ensures
        paths_that_exist(sources).contains(sources[i].path@),
{
    let pick = |s: Source| s.exists;
    broadcast use vstd::seq_lib::group_filter_ensures;

    let kept = sources.filter(pick);
    assert(kept.contains(sources[i]));
    let k = choose|k: int| 0 <= k < kept.len() && kept[k] == sources[i];
    assert(paths_that_exist(sources)[k] == sources[i].path@);
}

/// A planned backup takes every requested path that exists, in the order of the
/// request and nothing else; it goes where it was told to; and it is silent
/// where nothing is missing.
pub proof fn law_backups_take_every_path_that_exists(
    sources: &[Source],
    dest: &str,
    mode: BackupMode,
    roots: Option<&[Root]>,
    r: Result<BackupPlan, String>,
)
    requires
        call_ensures(plan_backup, (sources, dest, mode, roots), r),
        r is Ok,
    ensures
        text::texts(r->Ok_0.existing@) == sources@.filter(|s: Source| s.exists).map_values(
            |s: Source| s.path@,
        ),
        forall|i: int|
            0 <= i < sources@.len() && (#[trigger] sources@[i]).exists ==> text::texts(
                r->Ok_0.existing@,
            ).contains(sources@[i].path@),
        (forall|i: int| 0 <= i < sources@.len() ==> (#[trigger] sources@[i]).exists) ==> text::texts(
            r->Ok_0.existing@,
        ).len() == sources@.len() && r->Ok_0.log@.len() == 0,
        dest_outcome(Ok(r->Ok_0.dest)) == dest_parsed(dest@),
        mode == BackupMode::Tar,
        text::texts(r->Ok_0.existing@).len() > 0,
{
    let plan = r->Ok_0;
    assert(plan@.existing == text::texts(plan.existing@) && plan@.log == plan.log@ && plan@.dest
        == plan.dest@);
    law_present_paths(sources@);
    assert forall|i: int| 0 <= i < sources@.len() && (#[trigger] sources@[i]).exists implies text::texts(
        plan.existing@,
    ).contains(sources@[i].path@) by {
        lemma_kept(sources@, i);
    }
    if forall|i: int| 0 <= i < sources@.len() ==> (#[trigger] sources@[i]).exists {
        lemma_all_present(sources@);
    }
}

proof fn lemma_all_present(sources: Seq<Source>)
    requires
        forall|i: int| 0 <= i < sources.len() ==> (#[trigger] sources[i]).exists,
    ensures
        present(sources).len() == sources.len(),
    decreases sources.len(),
{
    if sources.len() > 0 {
        let front = sources.drop_last();
        assert forall|i: int| 0 <= i < front.len() implies (#[trigger] front[i]).exists by {
            assert(front[i] == sources[i]);
        }
        lemma_all_present(front);
        assert(sources[sources.len() - 1].exists);
    }
}

/// A backup is planned wherever it can be made: as a tar archive, at a
/// destination that makes sense, of paths of which one exists and none that
/// exists lies outside the roots.
pub proof fn law_possible_backups_are_planned(
    sources: &[Source],
    dest: &str,
    roots: Option<&[Root]>,
    r: Result<BackupPlan, String>,
    i: int,
)
    requires
        call_ensures(plan_backup, (sources, dest, BackupMode::Tar, roots), r),
        dest_parsed(dest@) is Ok,
        0 <= i < sources@.len(),
        sources@[i].exists,
        roots matches Some(list) ==> forall|k: int|
            0 <= k < sources@.len() && (#[trigger] sources@[k]).exists ==> confined(
                sources@[k].path@,
                canonical_view(sources@[k].canonical),
                list@,
            ),
    ensures
        r is Ok,
{
    law_present_paths(sources@);
    lemma_kept(sources@, i);
    if let Some(list) = roots {
        lemma_none_strays(sources@, list@);
    }
}

proof fn lemma_none_strays(sources: Seq<Source>, roots: Seq<Root>)
    requires
        forall|k: int|
            0 <= k < sources.len() && (#[trigger] sources[k]).exists ==> confined(
                sources[k].path@,
                canonical_view(sources[k].canonical),
                roots,
            ),
    ensures
        strays(sources, roots).len() == 0,
    decreases sources.len(),
{
    if sources.len() > 0 {
        let front = sources.drop_last();
        assert forall|k: int| 0 <= k < front.len() && (#[trigger] front[k]).exists implies confined(
            front[k].path@,
            canonical_view(front[k].canonical),
            roots,
        ) by {
            assert(front[k] == sources[k]);
        }
        lemma_none_strays(front, roots);
        assert(sources[sources.len() - 1] == sources.last());
    }
}

/// A path that exists and lies outside the roots stops the backup, and is named.
pub proof fn law_strays_stop_a_backup(
    sources: &[Source],
    dest: &str,
    roots: &[Root],
    r: Result<BackupPlan, String>,
    i: int,
)
    requires
        call_ensures(plan_backup, (sources, dest, BackupMode::Tar, Some(roots)), r),
        0 <= i < sources@.len(),
        sources@[i].exists,
        !confined(sources@[i].path@, canonical_view(sources@[i].canonical), roots@),
    ensures
        r is Err,
{
    if r is Ok {
        lemma_no_strays(sources@, roots@, i);
    }
}

/// Every missing path is named in the warning, one after the other.
pub proof fn law_missing_paths_are_named(sources: Seq<Source>, s: Source)
    ensures
        missing(sources.push(s)) == (if s.exists {
            missing(sources)
        } else {
            missing(sources) + s.path@ + seq![' ']
        }),
        missing(Seq::<Source>::empty()).len() == 0,
        !s.exists ==> opening_log(seq![s]) == "WARN: skipping missing path(s): "@ + (s.path@ + seq![
            ' ',
        ]) + seq!['\n'],
{
    assert(sources.push(s).drop_last() =~= sources);
    if !s.exists {
        let none = Seq::<Source>::empty();
        assert(seq![s].drop_last() =~= none);
        assert(missing(none).len() == 0 && present(none).len() == 0);
        assert(seq![s].last() == s);
        assert(missing(seq![s]) =~= s.path@ + seq![' ']);
        assert(present(seq![s]).len() == 0);
    }
}

/// `s3://` names a bucket and a prefix, whose slashes at the end do not count.
pub proof fn law_s3_destinations(
    dest: &str,
    bucket: Seq<char>,
    prefix: Seq<char>,
    r: Result<Dest, String>,
)
    requires
        call_ensures(parse_dest, (dest,), r),
        text::trimmed(dest@) == "s3://"@ + bucket + "/"@ + prefix,
        !bucket.contains('/'),
    ensures
        bucket.len() == 0 ==> r is Err && r->Err_0@ == "s3 dest must include a bucket"@,
        bucket.len() > 0 ==> (r matches Ok(Dest::S3 { bucket: b, prefix: p }) && b@ == bucket && p@
            == text::strip_back(prefix, '/')),
{
    reveal_strlit("/");
    reveal_strlit("s3://");
    let d = text::trimmed(dest@);
    let rest = bucket + "/"@ + prefix;
    assert(d =~= "s3://"@ + rest);
    assert(d.subrange(0, "s3://"@.len() as int) =~= "s3://"@);
    assert(d.skip("s3://"@.len() as int) =~= rest);
    assert("/"@ =~= seq!['/']);
    text::law_first_separator(bucket, '/', prefix);
    if r is Ok {
        assert(dest_outcome(r) == Ok::<DestView, Seq<char>>(r->Ok_0@));
    }
}

/// A plain path is a local directory, with or without `file://` before it.
pub proof fn law_local_destinations(dest: &str, path: Seq<char>, r: Result<Dest, String>)
    requires
        call_ensures(parse_dest, (dest,), r),
        path.len() > 0,
    ensures
        text::trimmed(dest@) == "file://"@ + path ==> (r matches Ok(Dest::Local(p)) && p@ == path),
        text::trimmed(dest@) == path && path[0] == '/' && !text::occurs("://"@, path) ==> (r matches
            Ok(Dest::Local(p)) && p@ == path),
        text::trimmed(dest@).len() == 0 ==> r is Err && r->Err_0@ == "dest is empty"@,
{
    reveal_strlit("s3://");
    reveal_strlit("file://");
    let d = text::trimmed(dest@);
    if d == "file://"@ + path {
        assert(d[0] == 'f');
        assert("s3://"@[0] == 's');
        assert(!"s3://"@.is_prefix_of(d)) by {
            if "s3://"@.is_prefix_of(d) {
                assert("s3://"@ == d.subrange(0, 5));
                assert("s3://"@[0] == d[0]);
            }
        }
        assert(d.subrange(0, "file://"@.len() as int) =~= "file://"@);
        assert(d.skip("file://"@.len() as int) =~= path);
    }
    if d == path && path[0] == '/' {
        assert(!"s3://"@.is_prefix_of(d)) by {
            if "s3://"@.is_prefix_of(d) {
                assert("s3://"@ == d.subrange(0, 5));
                assert("s3://"@[0] == d[0]);
            }
        }
        assert(!"file://"@.is_prefix_of(d)) by {
            if "file://"@.is_prefix_of(d) {
                assert("file://"@ == d.subrange(0, 7));
                assert("file://"@[0] == d[0]);
            }
        }
    }
}

proof fn lemma_roots_listed(pieces: Seq<Seq<char>>)
    ensures
        roots_listed(pieces) == pieces.map_values(|p: Seq<char>| text::trimmed(p)).filter(
            |p: Seq<char>| p.len() > 0,
        ),
    decreases pieces.len(),
{
    reveal(Seq::filter);
    let all = pieces.map_values(|p: Seq<char>| text::trimmed(p));
    let full = |p: Seq<char>| p.len() > 0;
    if pieces.len() > 0 {
        let front = pieces.drop_last();
        lemma_roots_listed(front);
        assert(all.drop_last() =~= front.map_values(|p: Seq<char>| text::trimmed(p)));
        assert(all.last() == text::trimmed(pieces.last()));
        assert(roots_listed(pieces) =~= all.filter(full));
    } else {
        assert(roots_listed(pieces) =~= all.filter(full));
    }
}

/// The roots are the pieces of the list between its colons, trimmed, those that
/// are not blank; without a list, or with a blank one, they are the two of the
/// agent's own state. The restriction is lifted by the value `1` alone.
pub proof fn law_roots_are_configured(
    unrestricted: Option<&str>,
    raw: Option<&str>,
    r: Option<Vec<String>>,
)
    requires
        call_ensures(backup_roots, (unrestricted, raw), r),
    ensures
        r is None <==> unrestricted is Some && unrestricted->0@ == "1"@,
        r is Some && raw is None ==> text::texts(r->0@) == seq![
            "/var/lib/shellfleet"@,
            "/var/backups/shellfleet"@,
        ],
        r is Some && raw is Some ==> ({
            let listed = text::split(raw->0@, ':').map_values(
                |p: Seq<char>| text::trimmed(p),
            ).filter(|p: Seq<char>| p.len() > 0);
            text::texts(r->0@) == (if listed.len() == 0 {
                seq!["/var/lib/shellfleet"@, "/var/backups/shellfleet"@]
            } else {
                listed
            })
        }),
{
    if let Some(raw) = raw {
        lemma_roots_listed(text::split(raw@, ':'));
    }
}

/// A path is within the roots where its spelling leads under one of them and,
/// if it exists, the place it resolves to is under one of them as well.
pub proof fn law_roots_confine(
    path: &str,
    canonical: Option<&[u8]>,
    roots: &[Root],
    r: bool,
)
    requires
        call_ensures(within_roots, (path, canonical, roots), r),
    ensures
        r ==> exists|i: int|
            0 <= i < roots@.len() && paths::under(
                encode_utf8(path@),
                encode_utf8(#[trigger] roots@[i].path@),
            ),
        canonical is None ==> (r <==> exists|i: int|
            0 <= i < roots@.len() && paths::under(
                encode_utf8(path@),
                encode_utf8(#[trigger] roots@[i].path@),
            )),
        r && canonical is Some ==> exists|i: int|
            0 <= i < roots@.len() && paths::normal(
                match (#[trigger] roots@[i]).canonical {
                    Some(c) => c@,
                    None => encode_utf8(roots@[i].path@),
                },
            ).is_prefix_of(paths::normal(canonical->0@)),
{
    if r && canonical is Some {
        let c = canonical->0@;
        let i = choose|i: int|
            0 <= i < roots@.len() && #[trigger] real_root(roots@[i]).is_prefix_of(
                paths::normal(c),
            );
        assert(real_root(roots@[i]).is_prefix_of(paths::normal(c)));
    }
}

/// An archive is named after the backup and the second it was made in.
pub proof fn law_archives_are_named(name: &str, seconds: u64, r: String)
    requires
        call_ensures(archive_name, (name, seconds), r),
    ensures
        r@ == name@ + "-"@ + text::decimal(seconds as nat) + ".tar.gz"@,
{
}

/// `tar` is told to make the archive of all the paths, each as its own argument
/// and in their order.
pub proof fn law_tar_gets_every_path(archive: &str, existing: &[String], r: Vec<String>, i: int)
    requires
        call_ensures(create_argv, (archive, existing), r),
    ensures
        text::texts(r@) == seq!["--ignore-failed-read"@, "-czf"@, archive@] + text::texts(
            existing@,
        ),
        r@.len() == existing@.len() + 3,
        0 <= i < existing@.len() ==> r@[i + 3]@ == existing@[i]@,
{
    assert(text::texts(r@).len() == r@.len());
    if 0 <= i < existing@.len() {
        assert(text::texts(r@)[i + 3] == r@[i + 3]@);
        assert(text::texts(existing@)[i] == existing@[i]@);
    }
}

/// `tar` extracts the archive into the root, and honours no absolute names, no
/// way up, and neither the owners nor the modes of the members.
pub proof fn law_tar_extracts_safely(archive: &str, root: &str, r: Vec<String>)
    requires
        call_ensures(extract_argv, (archive, root), r),
    ensures
        text::texts(r@) == seq![
            "-xzf"@,
            archive@,
            "-C"@,
            root@,
            "--no-absolute-names"@,
            "--exclude=../*"@,
            "--exclude=*/../*"@,
            "--no-same-owner"@,
            "--no-same-permissions"@,
        ],
{
}

/// A name is put below a directory with one slash between them.
pub proof fn law_names_are_put_below(dir: &str, name: &str, r: String)
    requires
        call_ensures(path_join, (dir, name), r),
        dir@.len() > 0,
        name@.len() > 0,
        name@[0] != '/',
    ensures
        dir@.last() == '/' ==> r@ == dir@ + name@,
        dir@.last() != '/' ==> r@ == dir@ + "/"@ + name@,
{
}

/// The key of an archive is its name below the prefix, and its address is that
/// of the key in the bucket.
pub proof fn law_keys_and_addresses(prefix: &str, name: &str, bucket: &str, k: String, u: String)
    requires
        call_ensures(s3_key, (prefix, name), k),
        call_ensures(s3_uri, (bucket, name), u),
    ensures
        prefix@.len() == 0 ==> k@ == name@,
        prefix@.len() > 0 ==> k@ == prefix@ + "/"@ + name@,
        u@ == "s3://"@ + bucket@ + "/"@ + name@,
{
}

/// A restore may read what was configured, or 50 GiB.
pub proof fn law_restores_have_a_limit(raw: Option<&str>, n: u64, r: u64)
    requires
        call_ensures(s3_restore_max_bytes, (raw,), r),
    ensures
        raw is None ==> r == 50 * 1024 * 1024 * 1024,
        raw is Some && raw->0@ == text::decimal(n as nat) ==> r == n,
        raw is Some && text::read_unsigned(raw->0@, u64::MAX as nat) is None ==> r == 50 * 1024
            * 1024 * 1024,
{
    text::law_decimal_reads_back(n as nat, u64::MAX as nat);
}

/// Archives of 64 MiB and more go up in parts, smaller ones in one request; of
/// a failed `tar` nothing goes up.
pub proof fn law_uploads_go_by_size(
    log: String,
    tar: &CommandOutput,
    bytes: u64,
    r: Option<Upload>,
)
    requires
        call_ensures(plan_upload, (log, tar, bytes), r),
        r is Some,
    ensures
        r->0 is Stop <==> !tar.success,
        tar.success ==> (r->0 is Multipart <==> bytes >= 64 * 1024 * 1024),
        r->0 matches Upload::Stop(report) ==> !report.success && report.archive_uri@.len() == 0
            && text::opt_text(report.error) == Some("tar exit "@ + text::code_words(tar.code)),
{
    assert(tar@.success == tar.success && tar@.code == tar.code);
    assert(opt_upload(r) == Some(r->0@));
    if let Upload::Stop(report) = r->0 {
        assert(report@.success == report.success && report@.archive_uri == report.archive_uri@
            && report@.error == text::opt_text(report.error));
    }
}

/// The report of a local backup: where `tar` exited well, it names the archive
/// and its size; else it names neither, and gives the exit.
pub proof fn law_local_backups_are_reported(
    log: String,
    tar: &CommandOutput,
    archive: &str,
    bytes: u64,
    r: Option<BackupReport>,
)
    requires
        call_ensures(finish_local, (log, tar, archive, bytes), r),
        r is Some,
    ensures
        r->0.success == tar.success,
        tar.success ==> r->0.archive_uri@ == archive@ && r->0.bytes == bytes && r->0.error is None,
        !tar.success ==> r->0.archive_uri@.len() == 0 && r->0.bytes == 0 && text::opt_text(
            r->0.error,
        ) == Some("tar exit "@ + text::code_words(tar.code)),
        tar.success && log@.len() == 0 && tar.stdout@.len() == 0 && tar.stderr@.len() == 0
            && text::byte_len("wrote "@ + archive@ + " ("@ + text::decimal(bytes as nat)
            + " bytes)\n"@) <= 8000 ==> r->0.log@ == "wrote "@ + archive@ + " ("@ + text::decimal(
            bytes as nat,
        ) + " bytes)\n"@,
{
    let report = r->0;
    assert(tar@.success == tar.success && tar@.code == tar.code && tar@.stdout == tar.stdout@
        && tar@.stderr == tar.stderr@);
    assert(opt_report(r) == Some(report@));
    assert(report@.success == report.success && report@.archive_uri == report.archive_uri@
        && report@.bytes == report.bytes && report@.error == text::opt_text(report.error)
        && report@.log == report.log@);
    if log@.len() == 0 && tar.stdout@.len() == 0 && tar.stderr@.len() == 0 {
        let none = Seq::<char>::empty();
        assert(log_with(log@, tar@.stdout, "--- stderr ---\n"@, tar@.stderr) =~= none);
        let line = wrote_line(archive@, bytes);
        assert(none + line =~= line);
        assert(text::byte_len(none) == 0);
    }
}

/// What `tar` printed is in the log of a backup, the errors under a heading.
pub proof fn law_backup_logs_show_what_tar_said(
    log: Seq<char>,
    stdout: Seq<char>,
    heading: Seq<char>,
    stderr: Seq<char>,
)
    ensures
        stdout.len() > 0 && stderr.len() > 0 ==> log_with(log, stdout, heading, stderr) == log
            + stdout + heading + stderr,
        stderr.len() == 0 ==> log_with(log, stdout, heading, stderr) == log + stdout,
        stdout.len() == 0 && stderr.len() > 0 ==> log_with(log, stdout, heading, stderr) == log
            + heading + stderr,
{
    let none = Seq::<char>::empty();
    assert(none + stdout =~= stdout);
    assert(log + none =~= log);
    assert(log + stdout + (heading + stderr) =~= log + stdout + heading + stderr);
    assert(log + (heading + stderr) =~= log + heading + stderr);
    if stdout.len() == 0 {
        assert(log + stdout =~= log);
    }
    assert(log_with(log, stdout, heading, stderr) =~= log + output::section(none, stdout)
        + output::section(heading, stderr));
    if stderr.len() == 0 {
        assert(log + output::section(none, stdout) + none =~= log + stdout);
    }
}

/// The report of an upload: the bytes that went up, at the address they went
/// to; or the failure.
pub proof fn law_uploads_are_reported(
    log: String,
    uri: &str,
    uploaded: &Result<u64, String>,
    r: Option<BackupReport>,
)
    requires
        call_ensures(finish_upload, (log, uri, uploaded), r),
        r is Some,
    ensures
        r->0.success <==> *uploaded is Ok,
        *uploaded matches Ok(bytes) ==> r->0.bytes == bytes && r->0.archive_uri@ == uri@
            && r->0.error is None,
        *uploaded matches Err(e) ==> r->0.bytes == 0 && r->0.archive_uri@.len() == 0
            && text::opt_text(r->0.error) == Some(e@),
{
    let report = r->0;
    assert(opt_report(r) == Some(report@));
    assert(report@.success == report.success && report@.archive_uri == report.archive_uri@
        && report@.bytes == report.bytes && report@.error == text::opt_text(report.error));
}

/// A local archive is a file whose name ends in `.tar.gz`, with its own name,
/// path, size and age; any other entry is none.
pub proof fn law_local_archives(entry: LocalEntry)
    ensures
        entry_archive(entry) is Some <==> entry.name is Some && entry.meta is Some
            && ".tar.gz"@.is_suffix_of(entry.name->0@),
        entry_archive(entry) matches Some(a) ==> a.name == entry.name->0@ && a.uri == entry.path@
            && a.bytes == entry.meta->0.bytes && (entry.meta->0.mtime matches Some(t) ==> a.mtime
            == t) && (entry.meta->0.mtime is None ==> a.mtime == 0),
{
}

/// An archive in a bucket is an object whose key ends in `.tar.gz`: its name is
/// what follows the last slash, and a size below nothing counts as nothing.
pub proof fn law_bucket_archives(bucket: Seq<char>, object: S3Object)
    ensures
        object_archive(bucket, object) is Some <==> object.key is Some && ".tar.gz"@.is_suffix_of(
            object.key->0@,
        ),
        object_archive(bucket, object) matches Some(a) ==> a.uri == "s3://"@ + bucket + "/"@
            + object.key->0@ && a.name == text::after_last(object.key->0@, '/') && (
        object.size matches Some(n) ==> a.bytes == (if n > 0 {
            n as int
        } else {
            0
        })) && (object.size is None ==> a.bytes == 0) && (object.modified matches Some(t) ==> a.mtime
            == t) && (object.modified is None ==> a.mtime == 0),
{
}

/// Every archive of a directory is in its list, and nothing else is; the newest
/// stand first.
pub proof fn law_directories_are_listed(entries: &[LocalEntry], r: Vec<BackupArchive>, i: int)
    requires
        call_ensures(local_archives, (entries,), r),
    ensures
        archives(r@).to_multiset() == local_found(entries@).to_multiset(),
        0 <= i < entries@.len() && entry_archive(entries@[i]) is Some ==> archives(r@).contains(
            entry_archive(entries@[i])->0,
        ),
        forall|a: int, b: int|
            0 <= a <= b < r@.len() ==> (#[trigger] r@[a]).mtime >= (#[trigger] r@[b]).mtime,
{
    law_sorting_loses_nothing(archives(r@), local_found(entries@));
    if 0 <= i < entries@.len() && entry_archive(entries@[i]) is Some {
        lemma_local_found(entries@, i);
        broadcast use vstd::seq_lib::group_to_multiset_ensures;

        let a = entry_archive(entries@[i])->0;
        assert(local_found(entries@).to_multiset().count(a) > 0);
        assert(archives(r@).to_multiset().count(a) > 0);
    }
    assert forall|a: int, b: int| 0 <= a <= b < r@.len() implies (#[trigger] r@[a]).mtime >= (
    #[trigger] r@[b]).mtime by {
        assert(archives(r@)[a].mtime == r@[a].mtime);
        assert(archives(r@)[b].mtime == r@[b].mtime);
    }
}

proof fn lemma_local_found(entries: Seq<LocalEntry>, i: int)
    requires
        0 <= i < entries.len(),
        entry_archive(entries[i]) is Some,
    ensures
        local_found(entries).contains(entry_archive(entries[i])->0),
    decreases entries.len(),
{
    let front = entries.drop_last();
    let a = entry_archive(entries[i])->0;
    let f = local_found(front);
    if i < front.len() {
        assert(front[i] == entries[i]);
        lemma_local_found(front, i);
        let k = choose|k: int| 0 <= k < f.len() && f[k] == a;
        assert(local_found(entries)[k] == a);
    } else {
        assert(local_found(entries)[f.len() as int] == a);
    }
}

/// Every archive among some objects is found.
pub proof fn law_objects_are_found(bucket: Seq<char>, objects: Seq<S3Object>, i: int)
    requires
        0 <= i < objects.len(),
        object_archive(bucket, objects[i]) is Some,
    ensures
        s3_found(bucket, objects).contains(object_archive(bucket, objects[i])->0),
        s3_found(bucket, objects).len() <= objects.len(),
    decreases objects.len(),
{
    let front = objects.drop_last();
    let a = object_archive(bucket, objects[i])->0;
    let f = s3_found(bucket, front);
    lemma_s3_found_len(bucket, front);
    if i < front.len() {
        assert(front[i] == objects[i]);
        law_objects_are_found(bucket, front, i);
        let k = choose|k: int| 0 <= k < f.len() && f[k] == a;
        assert(s3_found(bucket, objects)[k] == a);
    } else {
        assert(s3_found(bucket, objects)[f.len() as int] == a);
    }
}

proof fn lemma_s3_found_len(bucket: Seq<char>, objects: Seq<S3Object>)
    ensures
        s3_found(bucket, objects).len() <= objects.len(),
    decreases objects.len(),
{
    if objects.len() > 0 {
        lemma_s3_found_len(bucket, objects.drop_last());
    }
}

/// A listing goes on for as long as there is more and the service says where.
pub proof fn law_listings_go_on(truncated: Option<bool>, token: Option<String>, r: Option<String>)
    requires
        call_ensures(next_page, (truncated, token), r),
    ensures
        r is Some <==> truncated == Some(true) && token is Some,
        r is Some ==> r == token,
{
}

/// A restore goes into the trimmed root, where that is not blank and within the
/// roots, if there are any.
pub proof fn law_restore_roots_are_checked(
    dest_root: &str,
    canonical: Option<&[u8]>,
    roots: Option<&[Root]>,
    r: Result<String, String>,
)
    requires
        call_ensures(check_restore_root, (dest_root, canonical, roots), r),
    ensures
        r matches Ok(root) ==> root@ == text::trimmed(dest_root@) && root@.len() > 0,
        text::trimmed(dest_root@).len() == 0 ==> r is Err && r->Err_0@ == "dest_root is empty"@,
        roots is None && text::trimmed(dest_root@).len() > 0 ==> r is Ok,
{
}

/// An address of an archive names a key in a bucket, or a file.
pub proof fn law_archive_addresses(
    uri: &str,
    bucket: Seq<char>,
    key: Seq<char>,
    r: Result<RestoreSource, String>,
)
    requires
        call_ensures(restore_source, (uri,), r),
        !bucket.contains('/'),
        bucket.len() > 0,
        key.len() > 0,
    ensures
        uri@ == "s3://"@ + bucket + "/"@ + key ==> (r matches Ok(RestoreSource::S3 {
            bucket: b,
            key: k,
        }) && b@ == bucket && k@ == key),
        uri@ == "file://"@ + key ==> (r matches Ok(RestoreSource::Local(p)) && p@ == key),
        uri@ == key && key[0] == '/' ==> (r matches Ok(RestoreSource::Local(p)) && p@ == key),
{
    if r is Ok {
        assert(source_outcome(r) == Ok::<SourceView, Seq<char>>(r->Ok_0@));
    }
    reveal_strlit("s3://");
    reveal_strlit("file://");
    if uri@ == "s3://"@ + bucket + "/"@ + key {
        law_s3_uri_round_trip(bucket, key);
    }
    if uri@ == "file://"@ + key {
        assert(!"s3://"@.is_prefix_of(uri@)) by {
            if "s3://"@.is_prefix_of(uri@) {
                assert("s3://"@ == uri@.subrange(0, 5));
                assert("s3://"@[0] == uri@[0]);
                assert(uri@[0] == 'f');
            }
        }
        assert(uri@.subrange(0, "file://"@.len() as int) =~= "file://"@);
        assert(uri@.skip("file://"@.len() as int) =~= key);
    }
    if uri@ == key && key[0] == '/' {
        assert(!"s3://"@.is_prefix_of(uri@)) by {
            if "s3://"@.is_prefix_of(uri@) {
                assert("s3://"@ == uri@.subrange(0, 5));
                assert("s3://"@[0] == uri@[0]);
            }
        }
        assert(!"file://"@.is_prefix_of(uri@)) by {
            if "file://"@.is_prefix_of(uri@) {
                assert("file://"@ == uri@.subrange(0, 7));
                assert("file://"@[0] == uri@[0]);
            }
        }
    }
}

/// A restore succeeds where `tar` exited well, and else says how it exited.
pub proof fn law_restores_are_reported(
    source: &RestoreSource,
    root: &str,
    tar: &CommandOutput,
    r: Option<RestoreReport>,
)
    requires
        call_ensures(finish_restore, (source, root, tar), r),
        r is Some,
    ensures
        r->0.success == tar.success,
        tar.success ==> r->0.error is None,
        !tar.success ==> text::opt_text(r->0.error) == Some("tar exit "@ + text::code_words(
            tar.code,
        )),
{
    let report = r->0;
    assert(tar@.success == tar.success && tar@.code == tar.code);
    assert(opt_restore(r) == Some(report@));
    assert(report@.success == report.success && report@.error == text::opt_text(report.error));
}

/// A failed part is named by its number.
pub proof fn law_failed_parts_are_named(number: i32, error: &str, r: String)
    requires
        call_ensures(part_failed, (number, error), r),
    ensures
        r@ == "UploadPart#"@ + text::signed_decimal(number as int) + ": "@ + error@,
{
}

/// A part is full at 16 MiB, and goes up under the next number; at the end of
/// the file what is there goes up, and then the upload is complete.
pub proof fn law_parts_are_filled(p: &mut PartsUpload, n: usize, r: PartStep)
    requires
        old(p).well_formed(),
        n <= 16 * 1024 * 1024 - old(p).filled(),
        call_ensures(PartsUpload::read, (p, n), r),
    ensures
        final(p).filled() == old(p).filled() + n,
        final(p).parts() == old(p).parts(),
        final(p).total() == old(p).total(),
        r is Read <==> n > 0 && old(p).filled() + n < 16 * 1024 * 1024,
        r is Send <==> old(p).filled() + n > 0 && (n == 0 || old(p).filled() + n == 16 * 1024
            * 1024),
        r is Complete <==> n == 0 && old(p).filled() == 0,
        r matches PartStep::Send { number, filled } ==> number == old(p).parts().len() + 1 && filled
            == old(p).filled() + n,
        r matches PartStep::Read { filled } ==> filled == old(p).filled() + n,
{
}

/// A part that is up is counted, with its number, its tag and its bytes.
pub proof fn law_sent_parts_are_counted(p: &mut PartsUpload, e_tag: Option<String>)
    requires
        old(p).well_formed(),
        old(p).parts().len() < i32::MAX - 1,
        call_ensures(PartsUpload::sent, (p, e_tag), ()),
    ensures
        final(p).parts().len() == old(p).parts().len() + 1,
        final(p).parts().last().number == old(p).parts().len() + 1,
        final(p).parts().last().e_tag == e_tag,
        final(p).parts().drop_last() == old(p).parts(),
        final(p).total() == old(p).total() + old(p).filled(),
        final(p).filled() == 0,
{
    assert(final(p).parts().drop_last() =~= old(p).parts());
}

/// A finished upload gives all its parts and all its bytes.
pub proof fn law_finished_uploads_give_everything(p: PartsUpload, r: (Vec<Part>, u64))
    requires
        call_ensures(PartsUpload::done, (p,), r),
    ensures
        r.0@ == p.parts(),
        r.1 == p.total(),
{
}

/// What a restore has read is added up, and more than the limit is refused.
pub proof fn law_restores_are_metered(m: &mut RestoreMeter, len: u64, r: Result<(), String>)
    requires
        call_ensures(RestoreMeter::take, (m, len), r),
    ensures
        old(m).total + len <= u64::MAX ==> final(m).total == old(m).total + len && (r is Ok
            <==> old(m).total + len <= old(m).max),
        final(m).max == old(m).max,
        r matches Err(e) ==> e@ == "S3 GetObject body exceeded SHELLFLEET_S3_RESTORE_MAX_BYTES ("@
            + text::decimal(old(m).max as nat) + " bytes); aborting restore"@,
{
}

/// A list of archives is sorted with the newest first, and loses none.
pub proof fn law_archives_are_sorted(v: &[BackupArchive], r: Vec<BackupArchive>)
    requires
        call_ensures(sort_newest_first, (v,), r),
    ensures
        forall|a: int, b: int|
            0 <= a <= b < r@.len() ==> (#[trigger] r@[a]).mtime >= (#[trigger] r@[b]).mtime,
        archives(r@).to_multiset() == archives(v@).to_multiset(),
{
    law_sorting_loses_nothing(archives(r@), archives(v@));
    assert forall|a: int, b: int| 0 <= a <= b < r@.len() implies (#[trigger] r@[a]).mtime >= (
    #[trigger] r@[b]).mtime by {
        assert(archives(r@)[a].mtime == r@[a].mtime);
        assert(archives(r@)[b].mtime == r@[b].mtime);
    }
}

/// A page adds its archives behind those of the pages before it.
pub proof fn law_pages_are_added(
    found: &mut Vec<BackupArchive>,
    bucket: &str,
    objects: &[S3Object],
)
    requires
        call_ensures(add_page, (found, bucket, objects), ()),
    ensures
        archives(final(found)@) == archives(old(found)@) + objects@.map_values(
            |o: S3Object| object_archive(bucket@, o),
        ).filter(|a: Option<ArchiveView>| a is Some).map_values(|a: Option<ArchiveView>| a->0),
{
    lemma_s3_found_is_filtered(bucket@, objects@);
}

proof fn lemma_s3_found_is_filtered(bucket: Seq<char>, objects: Seq<S3Object>)
    ensures
        s3_found(bucket, objects) == objects.map_values(
            |o: S3Object| object_archive(bucket, o),
        ).filter(|a: Option<ArchiveView>| a is Some).map_values(|a: Option<ArchiveView>| a->0),
    decreases objects.len(),
{
    reveal(Seq::filter);
    let read = |o: S3Object| object_archive(bucket, o);
    let some = |a: Option<ArchiveView>| a is Some;
    let out = |a: Option<ArchiveView>| a->0;
    let all = objects.map_values(read);
    if objects.len() > 0 {
        let front = objects.drop_last();
        lemma_s3_found_is_filtered(bucket, front);
        assert(all.drop_last() =~= front.map_values(read));
        assert(all.last() == object_archive(bucket, objects.last()));
        if all.last() is Some {
            assert(all.filter(some) =~= front.map_values(read).filter(some).push(all.last()));
        }
    }
    assert(s3_found(bucket, objects) =~= all.filter(some).map_values(out));
}

/// The archives of a directory are those of its entries, in their order.
pub proof fn law_entries_are_archives(entries: Seq<LocalEntry>)
    ensures
        local_found(entries) == entries.map_values(|e: LocalEntry| entry_archive(e)).filter(
            |a: Option<ArchiveView>| a is Some,
        ).map_values(|a: Option<ArchiveView>| a->0),
    decreases entries.len(),
{
    reveal(Seq::filter);
    let read = |e: LocalEntry| entry_archive(e);
    let some = |a: Option<ArchiveView>| a is Some;
    let out = |a: Option<ArchiveView>| a->0;
    let all = entries.map_values(read);
    if entries.len() > 0 {
        let front = entries.drop_last();
        law_entries_are_archives(front);
        assert(all.drop_last() =~= front.map_values(read));
        assert(all.last() == entry_archive(entries.last()));
        if all.last() is Some {
            assert(all.filter(some) =~= front.map_values(read).filter(some).push(all.last()));
        }
    }
    assert(local_found(entries) =~= all.filter(some).map_values(out));
}

/// Keys are listed below the prefix as a directory, all of them where there is
/// no prefix.
pub proof fn law_keys_are_listed_below_the_prefix(prefix: &str, r: Option<String>)
    requires
        call_ensures(list_prefix, (prefix,), r),
    ensures
        prefix@.len() == 0 ==> r is None,
        prefix@.len() > 0 ==> r is Some && r->0@ == prefix@ + "/"@,
{
}

/// A backup that failed is reported with its log and the reason, and claims no
/// archive.
pub proof fn law_failed_backups_are_reported(log: &str, error: &str, r: BackupReport)
    requires
        call_ensures(failed_backup, (log, error), r),
    ensures
        !r.success,
        r.log@ == log@,
        text::opt_text(r.error) == Some(error@),
        r.bytes == 0,
        r.archive_uri@.len() == 0,
{
    assert(r@.success == r.success && r@.log == r.log@ && r@.error == text::opt_text(r.error)
        && r@.bytes == r.bytes && r@.archive_uri == r.archive_uri@);
}

/// The log of a backup that failed is kept whole up to eight thousand bytes,
/// and of a longer one the last eight thousand are.
pub proof fn law_failed_backups_keep_their_log(
    log: String,
    tar: &CommandOutput,
    archive: &str,
    bytes: u64,
    r: Option<BackupReport>,
)
    requires
        call_ensures(finish_local, (log, tar, archive, bytes), r),
        !tar.success,
    ensures
        ({
            let whole = log_with(log@, tar.stdout@, "--- stderr ---\n"@, tar.stderr@);
            &&& text::byte_len(whole) <= 8000 ==> r is Some && r->0.log@ == whole
            &&& text::byte_len(whole) > 8000 && r is Some ==> exists|k: int|
                0 <= k <= whole.len() && text::byte_len(#[trigger] whole.skip(k)) == 8000
                    && r->0.log@ == "…["@ + text::decimal((text::byte_len(whole) - 8000) as nat)
                    + " bytes truncated]…\n"@ + whole.skip(k)
        }),
{
    assert(tar@.success == tar.success && tar@.stdout == tar.stdout@ && tar@.stderr
        == tar.stderr@);
    let whole = log_with(log@, tar.stdout@, "--- stderr ---\n"@, tar.stderr@);
    output::law_cut_logs_are_exact(whole, 8000);
    if let Some(report) = r {
        assert(opt_report(r) == Some(report@));
        assert(report@.log == report.log@);
    }
}

/// A path whose spelling leads under one root, and whose real place is under
/// one as well, is within the roots.
pub proof fn law_roots_admit(
    path: &str,
    canonical: Option<&[u8]>,
    roots: &[Root],
    r: bool,
    i: int,
    j: int,
)
    requires
        call_ensures(within_roots, (path, canonical, roots), r),
        0 <= i < roots@.len(),
        paths::under(encode_utf8(path@), encode_utf8(roots@[i].path@)),
        0 <= j < roots@.len(),
        canonical matches Some(c) ==> paths::normal(
            match roots@[j].canonical {
                Some(place) => place@,
                None => encode_utf8(roots@[j].path@),
            },
        ).is_prefix_of(paths::normal(c@)),
    ensures
        r,
{
    assert(written_within(encode_utf8(path@), roots@));
    if let Some(c) = canonical {
        assert(real_root(roots@[j]).is_prefix_of(paths::normal(c@)));
    }
}

/// A backup that is not planned says why: the mode first, then the destination,
/// then the paths.
pub proof fn law_refused_backups_say_why(
    sources: &[Source],
    dest: &str,
    mode: BackupMode,
    roots: Option<&[Root]>,
    r: Result<BackupPlan, String>,
)
    requires
        call_ensures(plan_backup, (sources, dest, mode, roots), r),
    ensures
        mode == BackupMode::Restic ==> r is Err && r->Err_0@
            == "restic mode is not implemented in this agent build"@,
        mode == BackupMode::Tar ==> (dest_parsed(dest@) matches Err(e) ==> r is Err && r->Err_0@
            == e),
        mode == BackupMode::Tar && dest_parsed(dest@) is Ok && sources@.len() == 0 ==> r is Err
            && r->Err_0@ == "paths is empty"@,
        mode == BackupMode::Tar && dest_parsed(dest@) is Ok && sources@.len() > 0 && (forall|i: int|
            0 <= i < sources@.len() ==> !(#[trigger] sources@[i]).exists) ==> r is Err && r->Err_0@
            == "no requested paths exist on this host"@,
{
    if forall|i: int| 0 <= i < sources@.len() ==> !(#[trigger] sources@[i]).exists {
        lemma_none_present(sources@);
    }
}

proof fn lemma_none_present(sources: Seq<Source>)
    requires
        forall|i: int| 0 <= i < sources.len() ==> !(#[trigger] sources[i]).exists,
    ensures
        present(sources).len() == 0,
    decreases sources.len(),
{
    if sources.len() > 0 {
        let front = sources.drop_last();
        assert forall|i: int| 0 <= i < front.len() implies !(#[trigger] front[i]).exists by {
            assert(front[i] == sources[i]);
        }
        lemma_none_present(front);
        assert(!sources[sources.len() - 1].exists);
    }
}

/// The paths that are outside the roots are those that exist and are not
/// confined to them, in the order of the request.
pub proof fn law_strays_are_all_named(sources: Seq<Source>, roots: Seq<Root>)
    ensures
        strays(sources, roots) == sources.filter(
            |s: Source| s.exists && !confined(s.path@, canonical_view(s.canonical), roots),
        ).map_values(|s: Source| s.path@),
    decreases sources.len(),
{
    reveal(Seq::filter);
    let goes = |s: Source| s.exists && !confined(s.path@, canonical_view(s.canonical), roots);
    let name = |s: Source| s.path@;
    if sources.len() > 0 {
        let front = sources.drop_last();
        law_strays_are_all_named(front, roots);
        if goes(sources.last()) {
            assert(sources.filter(goes) =~= front.filter(goes).push(sources.last()));
        } else {
            assert(sources.filter(goes) =~= front.filter(goes));
        }
    }
    assert(strays(sources, roots) =~= sources.filter(goes).map_values(name));
}

/// The log of an upload says how much goes up, and how.
pub proof fn law_uploads_are_logged(
    log: String,
    tar: &CommandOutput,
    bytes: u64,
    r: Option<Upload>,
)
    requires
        call_ensures(plan_upload, (log, tar, bytes), r),
        tar.success,
        tar.stderr@.len() == 0,
        text::byte_len(log@) <= 8000,
    ensures
        bytes < 64 * 1024 * 1024 ==> (r matches Some(Upload::Single { log: l }) && l@ == log@ + (
        "uploading "@ + text::decimal(bytes as nat) + " bytes via PutObject\n"@)),
        bytes >= 64 * 1024 * 1024 ==> (r matches Some(Upload::Multipart { log: l }) && l@ == log@ + (
        "uploading "@ + text::decimal(bytes as nat) + " bytes via multipart ("@ + text::decimal(
            16777216,
        ) + "-byte chunks)\n"@)),
{
    assert(tar@.success == tar.success && tar@.stderr == tar.stderr@);
    assert(output::section("--- tar stderr ---\n"@, tar.stderr@) =~= Seq::empty());
    assert(log@ + output::section("--- tar stderr ---\n"@, tar.stderr@) =~= log@);
    assert(r is Some);
    assert(opt_upload(r) == Some(r->0@));
}

/// The log of a restore says what was restored, and where.
pub proof fn law_restores_are_logged(
    source: &RestoreSource,
    root: &str,
    tar: &CommandOutput,
    r: Option<RestoreReport>,
)
    requires
        call_ensures(finish_restore, (source, root, tar), r),
        tar.success,
        tar.stdout@.len() == 0,
        tar.stderr@.len() == 0,
        r is Some,
    ensures
        *source matches RestoreSource::Local(path) ==> ({
            let line = "restored "@ + path@ + " into "@ + root@ + "\n"@;
            text::byte_len(line) <= 8000 ==> r->0.log@ == line
        }),
        *source matches RestoreSource::S3 { bucket, key } ==> ({
            let line = "restored "@ + ("s3://"@ + bucket@ + "/"@ + key@) + " into "@ + root@
                + "\n"@;
            text::byte_len(line) <= 8000 ==> r->0.log@ == line
        }),
{
    let report = r->0;
    assert(tar@.success == tar.success && tar@.stdout == tar.stdout@ && tar@.stderr
        == tar.stderr@);
    assert(opt_restore(r) == Some(report@));
    assert(report@.log == report.log@);
    let none = Seq::<char>::empty();
    let printed = if source@ is Local {
        tar@.stdout
    } else {
        none
    };
    assert(log_with(none, printed, "--- tar stderr ---\n"@, tar@.stderr) =~= none);
    assert(text::byte_len(none) == 0);
    let line = "restored "@ + source_shown(source@) + " into "@ + root@ + "\n"@;
    assert(none + line =~= line);
}

/// A restore root that is not within the roots is refused, and the refusal
/// quotes it; one that is within them is taken.
pub proof fn law_restore_roots_are_judged_by_the_roots(
    dest_root: &str,
    canonical: Option<&[u8]>,
    roots: &[Root],
    r: Result<String, String>,
    path: &str,
    within: bool,
    worded: String,
    quoted: &str,
)
    requires
        call_ensures(check_restore_root, (dest_root, canonical, Some(roots)), r),
        path@ == text::trimmed(dest_root@),
        path@.len() > 0,
        call_ensures(within_roots, (path, canonical, roots), within),
        call_ensures(outside_roots, (quoted,), worded),
    ensures
        r is Ok <==> within,
        r matches Err(e) ==> e@ == "restore dest_root "@ + output::quoted_text(path@)
            + " is outside the SHELLFLEET_BACKUP_ROOTS allow-list"@,
        worded@ == "restore dest_root "@ + quoted@
            + " is outside the SHELLFLEET_BACKUP_ROOTS allow-list"@,
{
}

/// A destination of another scheme is refused, and the refusal quotes it.
pub proof fn law_other_schemes_are_refused(
    dest: &str,
    r: Result<Dest, String>,
    worded: String,
    quoted: &str,
)
    requires
        call_ensures(parse_dest, (dest,), r),
        call_ensures(unsupported_scheme, (quoted,), worded),
    ensures
        ({
            let d = text::trimmed(dest@);
            text::occurs("://"@, d) && !"s3://"@.is_prefix_of(d) && !"file://"@.is_prefix_of(d)
                && d.len() > 0 ==> r is Err && r->Err_0@ == "unsupported destination scheme "@
                + output::quoted_text(d)
                + " — supported: local path, file://…, s3://bucket/prefix"@
        }),
        worded@ == "unsupported destination scheme "@ + quoted@
            + " — supported: local path, file://…, s3://bucket/prefix"@,
{
    let d = text::trimmed(dest@);
    assert("s3://"@.is_prefix_of(d) <==> text::after_prefix(d, "s3://"@) is Some);
    assert("file://"@.is_prefix_of(d) <==> text::after_prefix(d, "file://"@) is Some);
}

}
