//! The course of a backup, of an upload in parts, of a restore and of a list of
//! archives: what is done next, from what came of what was done before.

use crate::backup;
use crate::backup::{
    BackupArchive, BackupMode, BackupReport, Dest, DestView, LocalEntry, Part, PartStep,
    PartsUpload, ReportView, RestoreMeter, RestoreReport, RestoreSource, RestoreView, Root,
    S3Object, Source, SourceView, Upload, UploadView, MULTIPART_CHUNK,
};
use crate::output::CommandOutput;
use crate::text;
use vstd::prelude::*;

verus! {

// ---------- a backup ----------

/// A backup under way.
#[derive(Debug)]
pub enum BackupRun {
    /// The directory is being made.
    Directory { dir: String, name: String, existing: Vec<String>, log: String },
    /// The archive is being written where it stays.
    Archive { archive: String, log: String },
    /// A temporary file is being made.
    Temporary { bucket: String, key: String, existing: Vec<String>, log: String },
    /// The archive is being written to the temporary file.
    Packing { bucket: String, key: String, log: String },
    /// The temporary file is going up.
    Uploading { bucket: String, key: String, log: String },
    Over,
}

/// A backup under way, with its texts spelled out.
#[verifier::ext_equal]
pub enum BackupRunView {
    Directory { dir: Seq<char>, name: Seq<char>, existing: Seq<Seq<char>>, log: Seq<char> },
    Archive { archive: Seq<char>, log: Seq<char> },
    Temporary { bucket: Seq<char>, key: Seq<char>, existing: Seq<Seq<char>>, log: Seq<char> },
    Packing { bucket: Seq<char>, key: Seq<char>, log: Seq<char> },
    Uploading { bucket: Seq<char>, key: Seq<char>, log: Seq<char> },
    Over,
}

impl View for BackupRun {
    type V = BackupRunView;

    open spec fn view(&self) -> BackupRunView {
        match self {
            BackupRun::Directory { dir, name, existing, log } => BackupRunView::Directory {
                dir: dir@,
                name: name@,
                existing: text::texts(existing@),
                log: log@,
            },
            BackupRun::Archive { archive, log } => BackupRunView::Archive {
                archive: archive@,
                log: log@,
            },
            BackupRun::Temporary { bucket, key, existing, log } => BackupRunView::Temporary {
                bucket: bucket@,
                key: key@,
                existing: text::texts(existing@),
                log: log@,
            },
            BackupRun::Packing { bucket, key, log } => BackupRunView::Packing {
                bucket: bucket@,
                key: key@,
                log: log@,
            },
            BackupRun::Uploading { bucket, key, log } => BackupRunView::Uploading {
                bucket: bucket@,
                key: key@,
                log: log@,
            },
            BackupRun::Over => BackupRunView::Over,
        }
    }
}

/// What is to be done for a backup.
#[derive(Debug)]
pub enum BackupAction {
    MakeDirectory(String),
    /// Run `tar`; the archive's size is asked for when it is done.
    Tar { archive: String, argv: Vec<String> },
    MakeTemporary,
    Upload { bucket: String, key: String, in_parts: bool },
    Finish(BackupReport),
}

/// What is to be done, with its texts spelled out.
#[verifier::ext_equal]
pub enum BackupActionView {
    MakeDirectory(Seq<char>),
    Tar { archive: Seq<char>, argv: Seq<Seq<char>> },
    MakeTemporary,
    Upload { bucket: Seq<char>, key: Seq<char>, in_parts: bool },
    Finish(ReportView),
}

impl View for BackupAction {
    type V = BackupActionView;

    open spec fn view(&self) -> BackupActionView {
        match self {
            BackupAction::MakeDirectory(dir) => BackupActionView::MakeDirectory(dir@),
            BackupAction::Tar { archive, argv } => BackupActionView::Tar {
                archive: archive@,
                argv: text::texts(argv@),
            },
            BackupAction::MakeTemporary => BackupActionView::MakeTemporary,
            BackupAction::Upload { bucket, key, in_parts } => BackupActionView::Upload {
                bucket: bucket@,
                key: key@,
                in_parts: *in_parts,
            },
            BackupAction::Finish(report) => BackupActionView::Finish(report@),
        }
    }
}

/// What came of it.
#[derive(Debug)]
pub enum BackupEvent {
    DirectoryMade,
    DirectoryFailed(String),
    TarRan { output: CommandOutput, bytes: u64 },
    TarFailed(String),
    TemporaryMade(String),
    TemporaryFailed(String),
    Uploaded(u64),
    UploadFailed(String),
}

/// Whether an event can come of what a backup is doing.
pub open spec fn backup_expects(run: BackupRunView, event: BackupEvent) -> bool {
    match run {
        BackupRunView::Directory { dir, name, existing, log } => event is DirectoryMade
            || event is DirectoryFailed,
        BackupRunView::Archive { archive, log } => event is TarRan || event is TarFailed,
        BackupRunView::Temporary { bucket, key, existing, log } => event is TemporaryMade
            || event is TemporaryFailed,
        BackupRunView::Packing { bucket, key, log } => event is TarRan || event is TarFailed,
        BackupRunView::Uploading { bucket, key, log } => event is Uploaded
            || event is UploadFailed,
        BackupRunView::Over => false,
    }
}

/// The end of a backup.
pub open spec fn backup_over(report: ReportView) -> (BackupRunView, BackupActionView) {
    (BackupRunView::Over, BackupActionView::Finish(report))
}

/// The end of a backup, where its log could be cut at a character.
pub open spec fn backup_ends(report: Option<ReportView>) -> Option<
    (BackupRunView, BackupActionView),
> {
    match report {
        Some(r) => Some(backup_over(r)),
        None => None,
    }
}

/// The first step of a backup.
pub open spec fn backup_begun(
    name: Seq<char>,
    seconds: u64,
    sources: Seq<Source>,
    dest: Seq<char>,
    mode: BackupMode,
    roots: Option<Seq<Root>>,
) -> (BackupRunView, BackupActionView) {
    match backup::backup_planned(sources, dest, mode, roots) {
        Err(e) => backup_over(backup::failed(Seq::empty(), e)),
        Ok(plan) => {
            let archive = backup::archive_named(name, seconds);
            match plan.dest {
                DestView::Local(dir) => (
                    BackupRunView::Directory {
                        dir,
                        name: archive,
                        existing: plan.existing,
                        log: plan.log,
                    },
                    BackupActionView::MakeDirectory(dir),
                ),
                DestView::S3 { bucket, prefix } => (
                    BackupRunView::Temporary {
                        bucket,
                        key: backup::key_in(prefix, archive),
                        existing: plan.existing,
                        log: plan.log,
                    },
                    BackupActionView::MakeTemporary,
                ),
            }
        },
    }
}

/// The next step of a backup. Nothing where the log cannot be cut at a
/// character.
pub open spec fn backup_stepped(run: BackupRunView, event: BackupEvent) -> Option<
    (BackupRunView, BackupActionView),
> {
    match run {
        BackupRunView::Directory { dir, name, existing, log } => match event {
            BackupEvent::DirectoryFailed(e) => Some(
                backup_over(backup::failed(log, "mkdir "@ + dir + ": "@ + e@)),
            ),
            _ => {
                let archive = backup::path_in(dir, name);
                Some(
                    (
                        BackupRunView::Archive { archive, log },
                        BackupActionView::Tar {
                            archive,
                            argv: backup::create_args(archive, existing),
                        },
                    ),
                )
            },
        },
        BackupRunView::Archive { archive, log } => match event {
            BackupEvent::TarRan { output, bytes } => backup_ends(
                backup::local_finished(log, output@, archive, bytes),
            ),
            BackupEvent::TarFailed(e) => Some(
                backup_over(backup::failed(log, "spawn tar: "@ + e@)),
            ),
            _ => None,
        },
        BackupRunView::Temporary { bucket, key, existing, log } => match event {
            BackupEvent::TemporaryMade(path) => Some(
                (
                    BackupRunView::Packing { bucket, key, log },
                    BackupActionView::Tar {
                        archive: path@,
                        argv: backup::create_args(path@, existing),
                    },
                ),
            ),
            BackupEvent::TemporaryFailed(e) => Some(
                backup_over(backup::failed(log, "tempfile: "@ + e@)),
            ),
            _ => None,
        },
        BackupRunView::Packing { bucket, key, log } => match event {
            BackupEvent::TarRan { output, bytes } => match backup::upload_planned(
                log,
                output@,
                bytes,
            ) {
                None => None,
                Some(UploadView::Stop(report)) => Some(backup_over(report)),
                Some(UploadView::Single { log }) => Some(
                    (
                        BackupRunView::Uploading { bucket, key, log },
                        BackupActionView::Upload { bucket, key, in_parts: false },
                    ),
                ),
                Some(UploadView::Multipart { log }) => Some(
                    (
                        BackupRunView::Uploading { bucket, key, log },
                        BackupActionView::Upload { bucket, key, in_parts: true },
                    ),
                ),
            },
            BackupEvent::TarFailed(e) => Some(
                backup_over(backup::failed(log, "spawn tar: "@ + e@)),
            ),
            _ => None,
        },
        BackupRunView::Uploading { bucket, key, log } => match event {
            BackupEvent::Uploaded(bytes) => backup_ends(
                backup::upload_finished(log, backup::uri_of(bucket, key), Ok(bytes)),
            ),
            BackupEvent::UploadFailed(e) => backup_ends(
                backup::upload_finished(log, backup::uri_of(bucket, key), Err(e@)),
            ),
            _ => None,
        },
        BackupRunView::Over => None,
    }
}

pub open spec fn backup_pair(o: Option<(BackupRun, BackupAction)>) -> Option<
    (BackupRunView, BackupActionView),
> {
    match o {
        Some(p) => Some((p.0@, p.1@)),
        None => None,
    }
}

fn over(report: BackupReport) -> (r: (BackupRun, BackupAction))
    ensures
        (r.0@, r.1@) == backup_over(report@),
{
    (BackupRun::Over, BackupAction::Finish(report))
}

/// Begins a backup.
pub fn begin_backup(
    name: &str,
    seconds: u64,
    sources: &[Source],
    dest: &str,
    mode: BackupMode,
    roots: Option<&[Root]>,
) -> (r: (BackupRun, BackupAction))
    ensures
        (r.0@, r.1@) == backup_begun(
            name@,
            seconds,
            sources@,
            dest@,
            mode,
            match roots {
                Some(roots) => Some(roots@),
                None => None,
            },
        ),
{
    match backup::plan_backup(sources, dest, mode, roots) {
        Err(e) => {
            proof {
                reveal_strlit("");
                assert(""@ =~= Seq::<char>::empty());
            }
            over(backup::failed_backup("", e.as_str()))
        },
        Ok(plan) => {
            let archive = backup::archive_name(name, seconds);
            match plan.dest {
                Dest::Local(dir) => {
                    let action = BackupAction::MakeDirectory(text::owned(dir.as_str()));
                    let run = BackupRun::Directory {
                        dir,
                        name: archive,
                        existing: plan.existing,
                        log: plan.log,
                    };
                    (run, action)
                },
                Dest::S3 { bucket, prefix } => {
                    let key = backup::s3_key(prefix.as_str(), archive.as_str());
                    let run = BackupRun::Temporary {
                        bucket,
                        key,
                        existing: plan.existing,
                        log: plan.log,
                    };
                    (run, BackupAction::MakeTemporary)
                },
            }
        },
    }
}

impl BackupRun {
    /// Takes a backup one step on.
    pub fn step(self, event: BackupEvent) -> (r: Option<(BackupRun, BackupAction)>)
        requires
            backup_expects(self@, event),
        ensures
            backup_pair(r) == backup_stepped(self@, event),
    {
        match self {
            BackupRun::Directory { dir, name, existing, log } => match event {
                BackupEvent::DirectoryFailed(e) => {
                    let error = text::join4("mkdir ", dir.as_str(), ": ", e.as_str());
                    Some(over(backup::failed_backup(log.as_str(), error.as_str())))
                },
                _ => {
                    let archive = backup::path_join(dir.as_str(), name.as_str());
                    let argv = backup::create_argv(archive.as_str(), existing.as_slice());
                    let action = BackupAction::Tar { archive: text::owned(archive.as_str()), argv };
                    Some((BackupRun::Archive { archive, log }, action))
                },
            },
            BackupRun::Archive { archive, log } => match event {
                BackupEvent::TarRan { output, bytes } => match backup::finish_local(
                    log,
                    &output,
                    archive.as_str(),
                    bytes,
                ) {
                    Some(report) => Some(over(report)),
                    None => None,
                },
                BackupEvent::TarFailed(e) => {
                    let error = text::join2("spawn tar: ", e.as_str());
                    Some(over(backup::failed_backup(log.as_str(), error.as_str())))
                },
                _ => None,
            },
            BackupRun::Temporary { bucket, key, existing, log } => match event {
                BackupEvent::TemporaryMade(path) => {
                    let argv = backup::create_argv(path.as_str(), existing.as_slice());
                    let action = BackupAction::Tar { archive: path, argv };
                    Some((BackupRun::Packing { bucket, key, log }, action))
                },
                BackupEvent::TemporaryFailed(e) => {
                    let error = text::join2("tempfile: ", e.as_str());
                    Some(over(backup::failed_backup(log.as_str(), error.as_str())))
                },
                _ => None,
            },
            BackupRun::Packing { bucket, key, log } => match event {
                BackupEvent::TarRan { output, bytes } => {
                    let (in_parts, log) = match backup::plan_upload(log, &output, bytes) {
                        None => return None,
                        Some(Upload::Stop(report)) => return Some(over(report)),
                        Some(Upload::Single { log }) => (false, log),
                        Some(Upload::Multipart { log }) => (true, log),
                    };
                    let action = BackupAction::Upload {
                        bucket: text::owned(bucket.as_str()),
                        key: text::owned(key.as_str()),
                        in_parts,
                    };
                    Some((BackupRun::Uploading { bucket, key, log }, action))
                },
                BackupEvent::TarFailed(e) => {
                    let error = text::join2("spawn tar: ", e.as_str());
                    Some(over(backup::failed_backup(log.as_str(), error.as_str())))
                },
                _ => None,
            },
            BackupRun::Uploading { bucket, key, log } => {
                let uri = backup::s3_uri(bucket.as_str(), key.as_str());
                let uploaded: Result<u64, String> = match event {
                    BackupEvent::Uploaded(bytes) => Ok(bytes),
                    BackupEvent::UploadFailed(e) => Err(e),
                    _ => return None,
                };
                match backup::finish_upload(log, uri.as_str(), &uploaded) {
                    Some(report) => Some(over(report)),
                    None => None,
                }
            },
            BackupRun::Over => None,
        }
    }
}

// ---------- a restore ----------

/// A restore under way.
#[derive(Debug)]
pub enum RestoreRun {
    /// The root is being made.
    Directory { root: String, uri: String },
    /// The archive is being asked for.
    Getting { bucket: String, key: String, root: String },
    /// `tar` is being started.
    Starting { bucket: String, key: String, root: String },
    /// The archive is being fed to `tar`.
    Feeding { bucket: String, key: String, root: String, meter: RestoreMeter },
    /// The local archive is being looked for.
    Looking { path: String, root: String },
    /// `tar` is being waited for.
    Extracting { source: RestoreSource, root: String },
    Over,
}

/// A restore under way, with its texts spelled out.
#[verifier::ext_equal]
pub enum RestoreRunView {
    Directory { root: Seq<char>, uri: Seq<char> },
    Getting { bucket: Seq<char>, key: Seq<char>, root: Seq<char> },
    Starting { bucket: Seq<char>, key: Seq<char>, root: Seq<char> },
    Feeding { bucket: Seq<char>, key: Seq<char>, root: Seq<char>, total: u64, max: u64 },
    Looking { path: Seq<char>, root: Seq<char> },
    Extracting { source: SourceView, root: Seq<char> },
    Over,
}

impl View for RestoreRun {
    type V = RestoreRunView;

    open spec fn view(&self) -> RestoreRunView {
        match self {
            RestoreRun::Directory { root, uri } => RestoreRunView::Directory {
                root: root@,
                uri: uri@,
            },
            RestoreRun::Getting { bucket, key, root } => RestoreRunView::Getting {
                bucket: bucket@,
                key: key@,
                root: root@,
            },
            RestoreRun::Starting { bucket, key, root } => RestoreRunView::Starting {
                bucket: bucket@,
                key: key@,
                root: root@,
            },
            RestoreRun::Feeding { bucket, key, root, meter } => RestoreRunView::Feeding {
                bucket: bucket@,
                key: key@,
                root: root@,
                total: meter.total,
                max: meter.max,
            },
            RestoreRun::Looking { path, root } => RestoreRunView::Looking {
                path: path@,
                root: root@,
            },
            RestoreRun::Extracting { source, root } => RestoreRunView::Extracting {
                source: source@,
                root: root@,
            },
            RestoreRun::Over => RestoreRunView::Over,
        }
    }
}

/// What is to be done for a restore.
#[derive(Debug)]
pub enum RestoreAction {
    MakeDirectory(String),
    GetObject { bucket: String, key: String },
    /// Start `tar` with its input piped.
    StartTar(Vec<String>),
    /// Read the next piece of the archive.
    Read,
    /// Write the piece that was read to `tar`.
    Feed,
    /// Close the input of `tar` and wait for it.
    Await,
    /// Close the input of `tar`, kill it, and report.
    Kill(RestoreReport),
    LookFor(String),
    /// Run `tar` to its end.
    RunTar(Vec<String>),
    Finish(RestoreReport),
}

/// What is to be done, with its texts spelled out.
#[verifier::ext_equal]
pub enum RestoreActionView {
    MakeDirectory(Seq<char>),
    GetObject { bucket: Seq<char>, key: Seq<char> },
    StartTar(Seq<Seq<char>>),
    Read,
    Feed,
    Await,
    Kill(RestoreView),
    LookFor(Seq<char>),
    RunTar(Seq<Seq<char>>),
    Finish(RestoreView),
}

impl View for RestoreAction {
    type V = RestoreActionView;

    open spec fn view(&self) -> RestoreActionView {
        match self {
            RestoreAction::MakeDirectory(dir) => RestoreActionView::MakeDirectory(dir@),
            RestoreAction::GetObject { bucket, key } => RestoreActionView::GetObject {
                bucket: bucket@,
                key: key@,
            },
            RestoreAction::StartTar(argv) => RestoreActionView::StartTar(text::texts(argv@)),
            RestoreAction::Read => RestoreActionView::Read,
            RestoreAction::Feed => RestoreActionView::Feed,
            RestoreAction::Await => RestoreActionView::Await,
            RestoreAction::Kill(report) => RestoreActionView::Kill(report@),
            RestoreAction::LookFor(path) => RestoreActionView::LookFor(path@),
            RestoreAction::RunTar(argv) => RestoreActionView::RunTar(text::texts(argv@)),
            RestoreAction::Finish(report) => RestoreActionView::Finish(report@),
        }
    }
}

/// What came of it.
#[derive(Debug)]
pub enum RestoreEvent {
    DirectoryMade,
    DirectoryFailed(String),
    ObjectFound,
    ObjectFailed(String),
    TarStarted,
    TarFailed(String),
    InputMissing,
    /// A piece of the archive, of that many bytes.
    Piece(u64),
    Fed,
    FeedFailed(String),
    ArchiveEnded,
    ArchiveFailed(String),
    Found(bool),
    TarRan(CommandOutput),
    WaitFailed(String),
}

/// Whether an event can come of what a restore is doing.
pub open spec fn restore_expects(run: RestoreRunView, event: RestoreEvent) -> bool {
    match run {
        RestoreRunView::Directory { root, uri } => event is DirectoryMade
            || event is DirectoryFailed,
        RestoreRunView::Getting { bucket, key, root } => event is ObjectFound
            || event is ObjectFailed,
        RestoreRunView::Starting { bucket, key, root } => event is TarStarted
            || event is TarFailed || event is InputMissing,
        RestoreRunView::Feeding { bucket, key, root, total, max } => event is Piece
            || event is Fed || event is FeedFailed || event is ArchiveEnded
            || event is ArchiveFailed,
        RestoreRunView::Looking { path, root } => event is Found,
        RestoreRunView::Extracting { source, root } => match source {
            SourceView::S3 { bucket, key } => event is TarRan || event is WaitFailed,
            SourceView::Local(path) => event is TarRan || event is TarFailed,
        },
        RestoreRunView::Over => false,
    }
}

/// A restore that failed before `tar` said anything.
pub open spec fn unrestored(error: Seq<char>) -> RestoreView {
    RestoreView { success: false, log: Seq::empty(), error: Some(error) }
}

/// The end of a restore.
pub open spec fn restore_over(report: RestoreView) -> (RestoreRunView, RestoreActionView) {
    (RestoreRunView::Over, RestoreActionView::Finish(report))
}

/// The end of a restore while `tar` runs.
pub open spec fn restore_killed(error: Seq<char>) -> (RestoreRunView, RestoreActionView) {
    (RestoreRunView::Over, RestoreActionView::Kill(unrestored(error)))
}

/// The first step of a restore.
pub open spec fn restore_begun(
    uri: Seq<char>,
    dest_root: Seq<char>,
    canonical: Option<Seq<u8>>,
    roots: Option<Seq<Root>>,
) -> (RestoreRunView, RestoreActionView) {
    match backup::restore_root_checked(dest_root, canonical, roots) {
        Err(e) => restore_over(unrestored(e)),
        Ok(root) => (
            RestoreRunView::Directory { root, uri },
            RestoreActionView::MakeDirectory(root),
        ),
    }
}

/// What a piece of an archive does to a restore.
pub open spec fn piece_taken(
    bucket: Seq<char>,
    key: Seq<char>,
    root: Seq<char>,
    total: u64,
    max: u64,
    len: u64,
) -> (RestoreRunView, RestoreActionView) {
    let sum = if total + len > u64::MAX {
        u64::MAX
    } else {
        (total + len) as u64
    };
    if sum > max {
        restore_killed(
            "S3 GetObject body exceeded SHELLFLEET_S3_RESTORE_MAX_BYTES ("@ + text::decimal(max as nat)
                + " bytes); aborting restore"@,
        )
    } else {
        (
            RestoreRunView::Feeding { bucket, key, root, total: sum, max },
            RestoreActionView::Feed,
        )
    }
}

/// The next step of a restore, where `max` is how much may be read from S3.
/// Nothing where the log cannot be cut at a character.
pub open spec fn restore_stepped(run: RestoreRunView, event: RestoreEvent, max: u64) -> Option<
    (RestoreRunView, RestoreActionView),
> {
    match run {
        RestoreRunView::Directory { root, uri } => match event {
            RestoreEvent::DirectoryFailed(e) => Some(
                restore_over(unrestored("mkdir "@ + root + ": "@ + e@)),
            ),
            _ => Some(
                match backup::source_parsed(uri) {
                    Err(e) => restore_over(unrestored(e)),
                    Ok(SourceView::S3 { bucket, key }) => (
                        RestoreRunView::Getting { bucket, key, root },
                        RestoreActionView::GetObject { bucket, key },
                    ),
                    Ok(SourceView::Local(path)) => (
                        RestoreRunView::Looking { path, root },
                        RestoreActionView::LookFor(path),
                    ),
                },
            ),
        },
        RestoreRunView::Getting { bucket, key, root } => match event {
            RestoreEvent::ObjectFailed(e) => Some(
                restore_over(unrestored("GetObject: "@ + e@)),
            ),
            _ => Some(
                (
                    RestoreRunView::Starting { bucket, key, root },
                    RestoreActionView::StartTar(backup::extract_args("-"@, root)),
                ),
            ),
        },
        RestoreRunView::Starting { bucket, key, root } => match event {
            RestoreEvent::TarFailed(e) => Some(restore_over(unrestored("spawn tar: "@ + e@))),
            RestoreEvent::InputMissing => Some(restore_over(unrestored("tar stdin not piped"@))),
            _ => Some(
                (
                    RestoreRunView::Feeding { bucket, key, root, total: 0, max },
                    RestoreActionView::Read,
                ),
            ),
        },
        RestoreRunView::Feeding { bucket, key, root, total, max } => match event {
            RestoreEvent::Piece(len) => Some(piece_taken(bucket, key, root, total, max, len)),
            RestoreEvent::Fed => Some((run, RestoreActionView::Read)),
            RestoreEvent::FeedFailed(e) => Some(restore_killed("tar stdin write: "@ + e@)),
            RestoreEvent::ArchiveFailed(e) => Some(restore_killed("S3 body read: "@ + e@)),
            _ => Some(
                (
                    RestoreRunView::Extracting { source: SourceView::S3 { bucket, key }, root },
                    RestoreActionView::Await,
                ),
            ),
        },
        RestoreRunView::Looking { path, root } => match event {
            RestoreEvent::Found(true) => Some(
                (
                    RestoreRunView::Extracting { source: SourceView::Local(path), root },
                    RestoreActionView::RunTar(backup::extract_args(path, root)),
                ),
            ),
            _ => Some(restore_over(unrestored("archive not found: "@ + path))),
        },
        RestoreRunView::Extracting { source, root } => match event {
            RestoreEvent::TarRan(output) => match backup::restore_finished(
                source,
                root,
                output@,
            ) {
                Some(report) => Some(restore_over(report)),
                None => None,
            },
            RestoreEvent::TarFailed(e) => Some(restore_over(unrestored("spawn tar: "@ + e@))),
            RestoreEvent::WaitFailed(e) => Some(restore_over(unrestored("tar wait: "@ + e@))),
            _ => None,
        },
        RestoreRunView::Over => None,
    }
}

pub open spec fn restore_pair(o: Option<(RestoreRun, RestoreAction)>) -> Option<
    (RestoreRunView, RestoreActionView),
> {
    match o {
        Some(p) => Some((p.0@, p.1@)),
        None => None,
    }
}

fn unrestored_report(error: String) -> (r: RestoreReport)
    ensures
        r@ == unrestored(error@),
{
    let log = String::new();
    assert(log@ =~= Seq::empty());
    RestoreReport { success: false, log, error: Some(error) }
}

fn give_up(error: String) -> (r: (RestoreRun, RestoreAction))
    ensures
        (r.0@, r.1@) == restore_over(unrestored(error@)),
{
    (RestoreRun::Over, RestoreAction::Finish(unrestored_report(error)))
}

fn kill(error: String) -> (r: (RestoreRun, RestoreAction))
    ensures
        (r.0@, r.1@) == restore_killed(error@),
{
    (RestoreRun::Over, RestoreAction::Kill(unrestored_report(error)))
}

/// Begins a restore. What the filesystem resolved the root to is that of the
/// trimmed root.
pub fn begin_restore(
    uri: &str,
    dest_root: &str,
    canonical: Option<&[u8]>,
    roots: Option<&[Root]>,
) -> (r: (RestoreRun, RestoreAction))
    ensures
        (r.0@, r.1@) == restore_begun(
            uri@,
            dest_root@,
            match canonical {
                Some(c) => Some(c@),
                None => None,
            },
            match roots {
                Some(roots) => Some(roots@),
                None => None,
            },
        ),
{
    match backup::check_restore_root(dest_root, canonical, roots) {
        Err(e) => give_up(e),
        Ok(root) => {
            let action = RestoreAction::MakeDirectory(text::owned(root.as_str()));
            (RestoreRun::Directory { root, uri: text::owned(uri) }, action)
        },
    }
}

impl RestoreRun {
    /// Takes a restore one step on; `max` is how much may be read from S3.
    pub fn step(self, event: RestoreEvent, max: u64) -> (r: Option<(RestoreRun, RestoreAction)>)
        requires
            restore_expects(self@, event),
        ensures
            restore_pair(r) == restore_stepped(self@, event, max),
    {
        match self {
            RestoreRun::Directory { root, uri } => match event {
                RestoreEvent::DirectoryFailed(e) => Some(
                    give_up(text::join4("mkdir ", root.as_str(), ": ", e.as_str())),
                ),
                _ => Some(
                    match backup::restore_source(uri.as_str()) {
                        Err(e) => give_up(e),
                        Ok(RestoreSource::S3 { bucket, key }) => {
                            let action = RestoreAction::GetObject {
                                bucket: text::owned(bucket.as_str()),
                                key: text::owned(key.as_str()),
                            };
                            (RestoreRun::Getting { bucket, key, root }, action)
                        },
                        Ok(RestoreSource::Local(path)) => {
                            let action = RestoreAction::LookFor(text::owned(path.as_str()));
                            (RestoreRun::Looking { path, root }, action)
                        },
                    },
                ),
            },
            RestoreRun::Getting { bucket, key, root } => match event {
                RestoreEvent::ObjectFailed(e) => Some(give_up(text::join2("GetObject: ", e.as_str()))),
                _ => {
                    let action = RestoreAction::StartTar(
                        backup::extract_argv("-", root.as_str()),
                    );
                    Some((RestoreRun::Starting { bucket, key, root }, action))
                },
            },
            RestoreRun::Starting { bucket, key, root } => match event {
                RestoreEvent::TarFailed(e) => Some(give_up(text::join2("spawn tar: ", e.as_str()))),
                RestoreEvent::InputMissing => Some(give_up(text::owned("tar stdin not piped"))),
                _ => {
                    let meter = RestoreMeter { total: 0, max };
                    Some((RestoreRun::Feeding { bucket, key, root, meter }, RestoreAction::Read))
                },
            },
            RestoreRun::Feeding { bucket, key, root, meter } => match event {
                RestoreEvent::Piece(len) => {
                    let mut meter = meter;
                    match meter.take(len) {
                        Ok(_) => Some(
                            (
                                RestoreRun::Feeding { bucket, key, root, meter },
                                RestoreAction::Feed,
                            ),
                        ),
                        Err(e) => Some(kill(e)),
                    }
                },
                RestoreEvent::Fed => Some(
                    (RestoreRun::Feeding { bucket, key, root, meter }, RestoreAction::Read),
                ),
                RestoreEvent::FeedFailed(e) => Some(kill(text::join2("tar stdin write: ", e.as_str()))),
                RestoreEvent::ArchiveFailed(e) => Some(kill(text::join2("S3 body read: ", e.as_str()))),
                _ => {
                    let source = RestoreSource::S3 { bucket, key };
                    Some((RestoreRun::Extracting { source, root }, RestoreAction::Await))
                },
            },
            RestoreRun::Looking { path, root } => match event {
                RestoreEvent::Found(true) => {
                    let argv = backup::extract_argv(path.as_str(), root.as_str());
                    let source = RestoreSource::Local(path);
                    Some((RestoreRun::Extracting { source, root }, RestoreAction::RunTar(argv)))
                },
                _ => Some(give_up(text::join2("archive not found: ", path.as_str()))),
            },
            RestoreRun::Extracting { source, root } => match event {
                RestoreEvent::TarRan(output) => match backup::finish_restore(
                    &source,
                    root.as_str(),
                    &output,
                ) {
                    Some(report) => Some((RestoreRun::Over, RestoreAction::Finish(report))),
                    None => None,
                },
                RestoreEvent::TarFailed(e) => Some(give_up(text::join2("spawn tar: ", e.as_str()))),
                RestoreEvent::WaitFailed(e) => Some(give_up(text::join2("tar wait: ", e.as_str()))),
                _ => None,
            },
            RestoreRun::Over => None,
        }
    }
}

// ---------- a list of archives ----------

/// A list of archives in the making.
#[derive(Debug)]
pub enum ListRun {
    /// The directory is being read.
    Directory,
    /// The pages of a bucket are being read; what the pages so far held.
    Pages { bucket: String, prefix: String, found: Vec<BackupArchive> },
    Over,
}

/// What is to be done for a list of archives.
#[derive(Debug)]
pub enum ListAction {
    ReadDirectory(String),
    GetPage { bucket: String, prefix: Option<String>, token: Option<String> },
    Finish(ListReport),
}

/// A list of archives, or why there is none.
#[derive(Debug)]
pub struct ListReport {
    pub success: bool,
    pub archives: Vec<BackupArchive>,
    pub error: Option<String>,
}

/// What came of it.
#[derive(Debug)]
pub enum ListEvent {
    NoDirectory,
    DirectoryFailed(String),
    Entries(Vec<LocalEntry>),
    Page { objects: Vec<S3Object>, truncated: Option<bool>, token: Option<String> },
    PageFailed(String),
}

/// Whether an event can come of what a list is doing.
pub open spec fn list_expects(run: ListRun, event: ListEvent) -> bool {
    match run {
        ListRun::Directory => event is NoDirectory || event is DirectoryFailed
            || event is Entries,
        ListRun::Pages { bucket, prefix, found } => event is Page || event is PageFailed,
        ListRun::Over => false,
    }
}

/// Whether a list ended with an error.
pub open spec fn list_failed(next: (ListRun, ListAction), error: Seq<char>) -> bool {
    &&& next.0 is Over
    &&& next.1 matches ListAction::Finish(report)
    &&& !report.success
    &&& report.archives@.len() == 0
    &&& text::opt_text(report.error) == Some(error)
}

/// Whether a list ended with some archives, newest first.
pub open spec fn list_finished(
    next: (ListRun, ListAction),
    found: Seq<backup::ArchiveView>,
) -> bool {
    &&& next.0 is Over
    &&& next.1 matches ListAction::Finish(report)
    &&& report.success
    &&& backup::sorted_from(backup::archives(report.archives@), found)
    &&& report.error is None
}

/// Whether a page of a bucket is asked for next, with what was found so far.
pub open spec fn page_asked(
    next: (ListRun, ListAction),
    bucket: Seq<char>,
    prefix: Seq<char>,
    found: Seq<backup::ArchiveView>,
    token: Option<Seq<char>>,
) -> bool {
    &&& next.0 matches ListRun::Pages { bucket: b, prefix: p, found: f }
    &&& b@ == bucket && p@ == prefix && backup::archives(f@) == found
    &&& next.1 matches ListAction::GetPage { bucket: asked, prefix: under, token: from }
    &&& asked@ == bucket
    &&& text::opt_text(under) == (if prefix.len() == 0 {
        None
    } else {
        Some(prefix + "/"@)
    })
    &&& text::opt_text(from) == token
}

/// Whether a list of archives begins as it should.
pub open spec fn list_begun(dest: Seq<char>, next: (ListRun, ListAction)) -> bool {
    match backup::dest_parsed(dest) {
        Err(e) => list_failed(next, e),
        Ok(DestView::Local(dir)) => next.0 is Directory && (next.1 matches
            ListAction::ReadDirectory(d) && d@ == dir),
        Ok(DestView::S3 { bucket, prefix }) => page_asked(
            next,
            bucket,
            prefix,
            Seq::empty(),
            None,
        ),
    }
}

/// Whether a list of archives goes on as it should: a directory that is not
/// there holds no archives, and pages are read for as long as there are more.
pub open spec fn list_stepped(run: ListRun, event: ListEvent, next: (ListRun, ListAction)) -> bool {
    match (run, event) {
        (ListRun::Directory, ListEvent::NoDirectory) => list_finished(next, Seq::empty()),
        (ListRun::Directory, ListEvent::DirectoryFailed(e)) => list_failed(
            next,
            "read_dir: "@ + e@,
        ),
        (ListRun::Directory, ListEvent::Entries(entries)) => list_finished(
            next,
            backup::local_found(entries@),
        ),
        (ListRun::Pages { bucket, prefix, found }, ListEvent::PageFailed(e)) => list_failed(
            next,
            "ListObjectsV2: "@ + e@,
        ),
        (
            ListRun::Pages { bucket, prefix, found },
            ListEvent::Page { objects, truncated, token },
        ) => {
            let all = backup::archives(found@) + backup::s3_found(bucket@, objects@);
            if truncated == Some(true) && token is Some {
                page_asked(next, bucket@, prefix@, all, text::opt_text(token))
            } else {
                list_finished(next, all)
            }
        },
        _ => true,
    }
}

fn list_error(error: String) -> (r: (ListRun, ListAction))
    ensures
        list_failed(r, error@),
{
    let report = ListReport { success: false, archives: Vec::new(), error: Some(error) };
    (ListRun::Over, ListAction::Finish(report))
}

fn list_result(archives: Vec<BackupArchive>) -> (r: (ListRun, ListAction))
    ensures
        forall|found: Seq<backup::ArchiveView>|
            backup::sorted_from(backup::archives(archives@), found) ==> list_finished(r, found),
{
    let report = ListReport { success: true, archives, error: None };
    (ListRun::Over, ListAction::Finish(report))
}

fn ask_page(bucket: String, prefix: String, found: Vec<BackupArchive>, token: Option<String>) -> (r:
    (ListRun, ListAction))
    ensures
        page_asked(r, bucket@, prefix@, backup::archives(found@), text::opt_text(token)),
{
    let action = ListAction::GetPage {
        bucket: text::owned(bucket.as_str()),
        prefix: backup::list_prefix(prefix.as_str()),
        token,
    };
    (ListRun::Pages { bucket, prefix, found }, action)
}

/// Begins a list of the archives at a destination.
pub fn begin_list(dest: &str) -> (r: (ListRun, ListAction))
    ensures
        list_begun(dest@, r),
{
    match backup::parse_dest(dest) {
        Err(e) => list_error(e),
        Ok(Dest::Local(dir)) => (ListRun::Directory, ListAction::ReadDirectory(dir)),
        Ok(Dest::S3 { bucket, prefix }) => {
            let found: Vec<BackupArchive> = Vec::new();
            assert(backup::archives(found@) =~= Seq::empty());
            ask_page(bucket, prefix, found, None)
        },
    }
}

impl ListRun {
    /// Takes a list of archives one step on.
    pub fn step(self, event: ListEvent) -> (r: (ListRun, ListAction))
        requires
            list_expects(self, event),
        ensures
            list_stepped(self, event, r),
    {
        match (self, event) {
            (ListRun::Directory, ListEvent::DirectoryFailed(e)) => list_error(
                text::join2("read_dir: ", e.as_str()),
            ),
            (ListRun::Directory, ListEvent::Entries(entries)) => list_result(
                backup::local_archives(entries.as_slice()),
            ),
            (ListRun::Pages { bucket, prefix, found }, ListEvent::PageFailed(e)) => list_error(
                text::join2("ListObjectsV2: ", e.as_str()),
            ),
            (
                ListRun::Pages { bucket, prefix, found },
                ListEvent::Page { objects, truncated, token },
            ) => {
                let mut found = found;
                backup::add_page(&mut found, bucket.as_str(), objects.as_slice());
                match backup::next_page(truncated, token) {
                    Some(token) => ask_page(bucket, prefix, found, Some(token)),
                    None => list_result(backup::sort_newest_first(found.as_slice())),
                }
            },
            _ => {
                let archives: Vec<BackupArchive> = Vec::new();
                assert(backup::archives(archives@) =~= Seq::empty());
                list_result(archives)
            },
        }
    }
}

// ---------- an upload in parts ----------

/// An upload in parts under way.
pub enum MultipartRun {
    /// The upload is being opened.
    Creating { path: String },
    /// The file is being opened.
    Opening { path: String, upload_id: String },
    /// The next part is being read.
    Reading { path: String, upload_id: String, parts: PartsUpload },
    /// A part is going up.
    Sending { path: String, upload_id: String, parts: PartsUpload, number: i32 },
    /// The upload is being completed.
    Completing { upload_id: String, total: u64 },
    /// The upload is being given up.
    Aborting { upload_id: String, error: String },
    Over,
}

/// What is to be done for an upload in parts.
#[derive(Debug)]
pub enum MultipartAction {
    Create,
    OpenFile(String),
    /// Read on, behind the bytes that are already there.
    Read { filled: usize },
    /// Send the bytes that are there as a part.
    Send { upload_id: String, number: i32, filled: usize },
    Complete { upload_id: String, parts: Vec<Part> },
    Abort { upload_id: String },
    Finish(Result<u64, String>),
}

/// What came of it.
#[derive(Debug)]
pub enum MultipartEvent {
    /// The upload is open, with an id if the service gave one.
    Created(Option<String>),
    CreateFailed(String),
    FileOpened,
    OpenFailed(String),
    /// So many bytes were read; none at the end of the file.
    Read(usize),
    ReadFailed(String),
    /// The part is up, with its tag if the service gave one.
    PartSent(Option<String>),
    PartFailed(String),
    Completed,
    CompleteFailed(String),
    /// The upload is given up, or could not be.
    Aborted,
}

impl MultipartRun {
    /// Parts are counted as they should be, and a part that goes up has bytes.
    pub open spec fn well_formed(&self) -> bool {
        match self {
            MultipartRun::Reading { path, upload_id, parts } => parts.well_formed()
                && parts.filled() < MULTIPART_CHUNK,
            MultipartRun::Sending { path, upload_id, parts, number } => parts.well_formed()
                && parts.filled() > 0 && *number == parts.parts().len() + 1,
            _ => true,
        }
    }
}

/// Whether an event can come of what an upload in parts is doing. No file has
/// so many parts that their numbers run out.
pub open spec fn multipart_expects(run: MultipartRun, event: MultipartEvent) -> bool {
    match run {
        MultipartRun::Creating { path } => event is Created || event is CreateFailed,
        MultipartRun::Opening { path, upload_id } => event is FileOpened || event is OpenFailed,
        MultipartRun::Reading { path, upload_id, parts } => event is ReadFailed || (event matches
            MultipartEvent::Read(n) && n <= MULTIPART_CHUNK - parts.filled()),
        MultipartRun::Sending { path, upload_id, parts, number } => event is PartFailed || (event
            is PartSent && number < i32::MAX),
        MultipartRun::Completing { upload_id, total } => event is Completed
            || event is CompleteFailed,
        MultipartRun::Aborting { upload_id, error } => event is Aborted,
        MultipartRun::Over => false,
    }
}

/// Whether an upload in parts is over, with some outcome.
pub open spec fn upload_over(
    next: (MultipartRun, MultipartAction),
    outcome: Result<u64, Seq<char>>,
) -> bool {
    next.0 is Over && (next.1 matches MultipartAction::Finish(r) && text::outcome(r) == outcome)
}

/// Whether an upload is given up for some reason.
pub open spec fn given_up(
    next: (MultipartRun, MultipartAction),
    upload_id: Seq<char>,
    reason: Seq<char>,
) -> bool {
    &&& next.0 matches MultipartRun::Aborting { upload_id: id, error }
    &&& id@ == upload_id && error@ == reason
    &&& next.1 matches MultipartAction::Abort { upload_id: aborted }
    &&& aborted@ == upload_id
}

/// Whether an upload reads on: what is in the buffer, and what has gone up.
pub open spec fn reads_on(
    next: (MultipartRun, MultipartAction),
    path: Seq<char>,
    upload_id: Seq<char>,
    sent: Seq<Part>,
    total: nat,
    filled: nat,
) -> bool {
    &&& next.0 matches MultipartRun::Reading { path: p, upload_id: id, parts }
    &&& p@ == path && id@ == upload_id
    &&& parts.parts() == sent && parts.total() == total && parts.filled() == filled
    &&& next.1 matches MultipartAction::Read { filled: f } && f == filled
}

/// Whether what was read is dealt with as it should be: a full buffer, or the
/// last bytes of the file, go up as the next part; at the end of the file the
/// upload is completed.
pub open spec fn read_seen(
    path: Seq<char>,
    upload_id: Seq<char>,
    parts: PartsUpload,
    n: usize,
    next: (MultipartRun, MultipartAction),
) -> bool {
    let filled = (parts.filled() + n) as nat;
    let number = parts.parts().len() + 1;
    if n > 0 && filled < MULTIPART_CHUNK {
        reads_on(next, path, upload_id, parts.parts(), parts.total(), filled)
    } else if filled > 0 {
        &&& next.0 matches MultipartRun::Sending { path: p, upload_id: id, parts: q, number: k }
        &&& p@ == path && id@ == upload_id && k == number
        &&& q.parts() == parts.parts() && q.total() == parts.total() && q.filled() == filled
        &&& next.1 matches MultipartAction::Send { upload_id: to, number: m, filled: f }
        &&& to@ == upload_id && m == number && f == filled
    } else {
        &&& next.0 matches MultipartRun::Completing { upload_id: id, total }
        &&& id@ == upload_id && total == parts.total()
        &&& next.1 matches MultipartAction::Complete { upload_id: of, parts: sent }
        &&& of@ == upload_id && sent@ == parts.parts()
    }
}

/// How a failure of the file or of a part is worded.
pub open spec fn failure(run: MultipartRun, event: MultipartEvent) -> Seq<char> {
    match (run, event) {
        (MultipartRun::Opening { path, upload_id }, MultipartEvent::OpenFailed(e)) => "open "@
            + path@ + ": "@ + e@,
        (MultipartRun::Reading { path, upload_id, parts }, MultipartEvent::ReadFailed(e)) =>
            "read "@ + path@ + ": "@ + e@,
        (
            MultipartRun::Sending { path, upload_id, parts, number },
            MultipartEvent::PartFailed(e),
        ) => "UploadPart#"@ + text::signed_decimal(number as int) + ": "@ + e@,
        _ => Seq::empty(),
    }
}

/// Whether an upload in parts goes on as it should: once it is open, a failure
/// of the file or of a part gives it up.
pub open spec fn multipart_stepped(
    run: MultipartRun,
    event: MultipartEvent,
    next: (MultipartRun, MultipartAction),
) -> bool {
    match (run, event) {
        (MultipartRun::Creating { path }, MultipartEvent::CreateFailed(e)) => upload_over(
            next,
            Err("CreateMultipartUpload: "@ + e@),
        ),
        (MultipartRun::Creating { path }, MultipartEvent::Created(None)) => upload_over(
            next,
            Err("CreateMultipartUpload returned no upload_id"@),
        ),
        (MultipartRun::Creating { path }, MultipartEvent::Created(Some(id))) => {
            &&& next.0 == (MultipartRun::Opening { path, upload_id: id })
            &&& next.1 matches MultipartAction::OpenFile(p) && p@ == path@
        },
        (MultipartRun::Opening { path, upload_id }, MultipartEvent::OpenFailed(e)) => given_up(
            next,
            upload_id@,
            failure(run, event),
        ),
        (MultipartRun::Opening { path, upload_id }, MultipartEvent::FileOpened) => reads_on(
            next,
            path@,
            upload_id@,
            Seq::empty(),
            0,
            0,
        ),
        (MultipartRun::Reading { path, upload_id, parts }, MultipartEvent::ReadFailed(e)) =>
            given_up(next, upload_id@, failure(run, event)),
        (MultipartRun::Reading { path, upload_id, parts }, MultipartEvent::Read(n)) => read_seen(
            path@,
            upload_id@,
            parts,
            n,
            next,
        ),
        (
            MultipartRun::Sending { path, upload_id, parts, number },
            MultipartEvent::PartFailed(e),
        ) => given_up(next, upload_id@, failure(run, event)),
        (
            MultipartRun::Sending { path, upload_id, parts, number },
            MultipartEvent::PartSent(e_tag),
        ) => reads_on(
            next,
            path@,
            upload_id@,
            parts.parts().push(Part { number, e_tag }),
            parts.total() + parts.filled(),
            0,
        ),
        (MultipartRun::Completing { upload_id, total }, MultipartEvent::Completed) => upload_over(
            next,
            Ok(total),
        ),
        (MultipartRun::Completing { upload_id, total }, MultipartEvent::CompleteFailed(e)) =>
            upload_over(next, Err("CompleteMultipartUpload: "@ + e@)),
        (MultipartRun::Aborting { upload_id, error }, MultipartEvent::Aborted) => upload_over(
            next,
            Err(error@),
        ),
        _ => true,
    }
}

fn end_upload(outcome: Result<u64, String>) -> (r: (MultipartRun, MultipartAction))
    ensures
        upload_over(r, text::outcome(outcome)),
{
    (MultipartRun::Over, MultipartAction::Finish(outcome))
}

fn give_up_upload(upload_id: String, error: String) -> (r: (MultipartRun, MultipartAction))
    ensures
        given_up(r, upload_id@, error@),
{
    let action = MultipartAction::Abort { upload_id: text::owned(upload_id.as_str()) };
    (MultipartRun::Aborting { upload_id, error }, action)
}

/// Begins an upload of a file in parts.
pub fn begin_multipart(path: &str) -> (r: (MultipartRun, MultipartAction))
    ensures
        r.0.well_formed(),
        r.0 matches MultipartRun::Creating { path: p } && p@ == path@,
        r.1 is Create,
{
    (MultipartRun::Creating { path: text::owned(path) }, MultipartAction::Create)
}

impl MultipartRun {
    /// Takes an upload in parts one step on.
    pub fn step(self, event: MultipartEvent) -> (r: (MultipartRun, MultipartAction))
        requires
            self.well_formed(),
            multipart_expects(self, event),
        ensures
            r.0.well_formed(),
            multipart_stepped(self, event, r),
    {
        match (self, event) {
            (MultipartRun::Creating { path }, MultipartEvent::Created(Some(upload_id))) => {
                let action = MultipartAction::OpenFile(text::owned(path.as_str()));
                (MultipartRun::Opening { path, upload_id }, action)
            },
            (MultipartRun::Creating { path }, MultipartEvent::Created(None)) => end_upload(
                Err(text::owned("CreateMultipartUpload returned no upload_id")),
            ),
            (MultipartRun::Creating { path }, MultipartEvent::CreateFailed(e)) => end_upload(
                Err(text::join2("CreateMultipartUpload: ", e.as_str())),
            ),
            (MultipartRun::Opening { path, upload_id }, MultipartEvent::FileOpened) => {
                let parts = PartsUpload::new();
                assert(parts.parts() =~= Seq::empty());
                (
                    MultipartRun::Reading { path, upload_id, parts },
                    MultipartAction::Read { filled: 0 },
                )
            },
            (MultipartRun::Opening { path, upload_id }, MultipartEvent::OpenFailed(e)) => {
                let error = text::join4("open ", path.as_str(), ": ", e.as_str());
                give_up_upload(upload_id, error)
            },
            (MultipartRun::Reading { path, upload_id, parts }, MultipartEvent::Read(n)) => {
                let mut parts = parts;
                match parts.read(n) {
                    PartStep::Read { filled } => (
                        MultipartRun::Reading { path, upload_id, parts },
                        MultipartAction::Read { filled },
                    ),
                    PartStep::Send { number, filled } => {
                        let action = MultipartAction::Send {
                            upload_id: text::owned(upload_id.as_str()),
                            number,
                            filled,
                        };
                        (MultipartRun::Sending { path, upload_id, parts, number }, action)
                    },
                    PartStep::Complete => {
                        let (sent, total) = parts.done();
                        let action = MultipartAction::Complete {
                            upload_id: text::owned(upload_id.as_str()),
                            parts: sent,
                        };
                        (MultipartRun::Completing { upload_id, total }, action)
                    },
                }
            },
            (MultipartRun::Reading { path, upload_id, parts }, MultipartEvent::ReadFailed(e)) => {
                let error = text::join4("read ", path.as_str(), ": ", e.as_str());
                give_up_upload(upload_id, error)
            },
            (
                MultipartRun::Sending { path, upload_id, parts, number },
                MultipartEvent::PartSent(e_tag),
            ) => {
                let mut parts = parts;
                parts.sent(e_tag);
                (
                    MultipartRun::Reading { path, upload_id, parts },
                    MultipartAction::Read { filled: 0 },
                )
            },
            (
                MultipartRun::Sending { path, upload_id, parts, number },
                MultipartEvent::PartFailed(e),
            ) => give_up_upload(upload_id, backup::part_failed(number, e.as_str())),
            (MultipartRun::Completing { upload_id, total }, MultipartEvent::Completed) =>
                end_upload(Ok(total)),
            (MultipartRun::Completing { upload_id, total }, MultipartEvent::CompleteFailed(e)) =>
                end_upload(Err(text::join2("CompleteMultipartUpload: ", e.as_str()))),
            (MultipartRun::Aborting { upload_id, error }, MultipartEvent::Aborted) => end_upload(
                Err(error),
            ),
            (run, _) => (run, MultipartAction::Create),
        }
    }
}

// ---------- laws ----------

/// A backup that reports success has seen `tar` exit well, and has everything
/// where it belongs: on disk at once, or in the bucket after an upload.
pub proof fn law_backup_succeeds_only_with_an_archive(run: BackupRunView, event: BackupEvent)
    requires
        backup_stepped(run, event) is Some,
        (backup_stepped(run, event)->0).1 is Finish,
        (backup_stepped(run, event)->0).1->Finish_0.success,
    ensures
        run is Archive || run is Uploading,
        run is Archive ==> event is TarRan && event->TarRan_output@.success,
        run is Uploading ==> event is Uploaded,
        (backup_stepped(run, event)->0).1->Finish_0.error is None,
{
}

/// A backup that reports failure names no archive and counts no bytes.
pub proof fn law_failed_backup_claims_nothing(run: BackupRunView, event: BackupEvent)
    requires
        backup_stepped(run, event) is Some,
        (backup_stepped(run, event)->0).1 is Finish,
        !(backup_stepped(run, event)->0).1->Finish_0.success,
    ensures
        (backup_stepped(run, event)->0).1->Finish_0.archive_uri.len() == 0,
        (backup_stepped(run, event)->0).1->Finish_0.bytes == 0,
        (backup_stepped(run, event)->0).1->Finish_0.error is Some,
{
}

/// How many more events a backup can see.
pub open spec fn steps_left(run: BackupRunView) -> nat {
    match run {
        BackupRunView::Temporary { bucket, key, existing, log } => 3,
        BackupRunView::Directory { dir, name, existing, log } => 2,
        BackupRunView::Packing { bucket, key, log } => 2,
        BackupRunView::Archive { archive, log } => 1,
        BackupRunView::Uploading { bucket, key, log } => 1,
        BackupRunView::Over => 0,
    }
}

/// A backup always comes to an end: each step leaves fewer to go, and the last
/// one reports.
pub proof fn law_backup_ends(run: BackupRunView, event: BackupEvent)
    requires
        backup_expects(run, event),
        backup_stepped(run, event) is Some,
    ensures
        steps_left((backup_stepped(run, event)->0).0) < steps_left(run),
        (backup_stepped(run, event)->0).0 is Over <==> (backup_stepped(run, event)->0).1 is Finish,
{
}

/// A restore starts `tar` on its own root and no other, and hands it no piece
/// that goes over the limit.
pub proof fn law_restore_stays_in_its_root_and_limit(
    run: RestoreRunView,
    event: RestoreEvent,
    max: u64,
)
    requires
        restore_expects(run, event),
        restore_stepped(run, event, max) is Some,
    ensures
        (restore_stepped(run, event, max)->0).1 matches RestoreActionView::StartTar(argv) ==> run
            is Getting && argv == backup::extract_args("-"@, run->Getting_root),
        (restore_stepped(run, event, max)->0).1 matches RestoreActionView::RunTar(argv) ==> run
            is Looking && argv == backup::extract_args(run->path, run->Looking_root),
        (restore_stepped(run, event, max)->0).1 is Feed ==> run is Feeding && event is Piece
            && (run->total + event->Piece_0 <= run->max || run->max == u64::MAX),
{
}

/// Where a backup stands after some events, where each could come of what it
/// was doing.
pub open spec fn backup_after(run: BackupRunView, events: Seq<BackupEvent>) -> Option<
    BackupRunView,
>
    decreases events.len(),
{
    if events.len() == 0 {
        Some(run)
    } else {
        match backup_after(run, events.drop_last()) {
            Some(last) => if backup_expects(last, events.last()) {
                match backup_stepped(last, events.last()) {
                    Some(next) => Some(next.0),
                    None => None,
                }
            } else {
                None
            },
            None => None,
        }
    }
}

/// Whether `tar` exited well somewhere among some events.
pub open spec fn packed(events: Seq<BackupEvent>) -> bool {
    exists|i: int|
        0 <= i < events.len() && (#[trigger] events[i] matches BackupEvent::TarRan { output, bytes }
            && output@.success)
}

/// Nothing goes up to a bucket before `tar` has exited well: what is uploaded
/// is a whole archive.
pub proof fn law_only_whole_archives_go_up(run: BackupRunView, events: Seq<BackupEvent>)
    requires
        run is Directory || run is Temporary,
        backup_after(run, events) is Some,
        backup_after(run, events)->0 is Uploading,
    ensures
        packed(events),
    decreases events.len(),
{
    let before = events.drop_last();
    let last = backup_after(run, before)->0;
    if last is Uploading {
        law_only_whole_archives_go_up(run, before);
        let i = choose|i: int|
            0 <= i < before.len() && (#[trigger] before[i] matches BackupEvent::TarRan {
                output,
                bytes,
            } && output@.success);
        assert(events[i] == before[i]);
    } else {
        assert(events[events.len() - 1] == events.last());
    }
}

/// Where a restore stands after some events, where each could come of what it
/// was doing.
pub open spec fn restore_after(run: RestoreRunView, events: Seq<RestoreEvent>, max: u64) -> Option<
    RestoreRunView,
>
    decreases events.len(),
{
    if events.len() == 0 {
        Some(run)
    } else {
        match restore_after(run, events.drop_last(), max) {
            Some(last) => if restore_expects(last, events.last()) {
                match restore_stepped(last, events.last(), max) {
                    Some(next) => Some(next.0),
                    None => None,
                }
            } else {
                None
            },
            None => None,
        }
    }
}

/// How many bytes a restore has handed to `tar` after some events.
pub open spec fn fed(run: RestoreRunView, events: Seq<RestoreEvent>, max: u64) -> nat
    decreases events.len(),
{
    if events.len() == 0 {
        0
    } else {
        let before = fed(run, events.drop_last(), max);
        match (restore_after(run, events.drop_last(), max), events.last()) {
            (Some(last), RestoreEvent::Piece(len)) => match restore_stepped(
                last,
                events.last(),
                max,
            ) {
                Some((next, RestoreActionView::Feed)) => before + len as nat,
                _ => before,
            },
            _ => before,
        }
    }
}

proof fn lemma_fed(run: RestoreRunView, events: Seq<RestoreEvent>, max: u64)
    requires
        run is Directory,
        max < u64::MAX,
        restore_after(run, events, max) is Some,
    ensures
        fed(run, events, max) <= max,
        restore_after(run, events, max)->0 matches RestoreRunView::Feeding {
            bucket,
            key,
            root,
            total,
            max: limit,
        } ==> limit == max && total == fed(run, events, max),
        restore_after(run, events, max)->0 is Starting ==> fed(run, events, max) == 0,
        restore_after(run, events, max)->0 is Getting ==> fed(run, events, max) == 0,
        restore_after(run, events, max)->0 is Directory ==> fed(run, events, max) == 0,
    decreases events.len(),
{
    if events.len() > 0 {
        lemma_fed(run, events.drop_last(), max);
    }
}

/// Over a whole restore `tar` is never handed more bytes than the limit,
/// however the archive arrives. (A limit of `u64::MAX` is none.)
pub proof fn law_restore_is_bounded(run: RestoreRunView, events: Seq<RestoreEvent>, max: u64)
    requires
        run is Directory,
        max < u64::MAX,
        restore_after(run, events, max) is Some,
    ensures
        fed(run, events, max) <= max,
{
    lemma_fed(run, events, max);
}

/// The root that a restore goes into, while it is under way.
pub open spec fn root_of(run: RestoreRunView) -> Option<Seq<char>> {
    match run {
        RestoreRunView::Directory { root, uri } => Some(root),
        RestoreRunView::Getting { bucket, key, root } => Some(root),
        RestoreRunView::Starting { bucket, key, root } => Some(root),
        RestoreRunView::Feeding { bucket, key, root, total, max } => Some(root),
        RestoreRunView::Looking { path, root } => Some(root),
        RestoreRunView::Extracting { source, root } => Some(root),
        RestoreRunView::Over => None,
    }
}

/// Whatever happens on the way, a restore keeps to the root that was checked
/// when it began, which is under one of the roots that are allowed.
pub proof fn law_restore_keeps_to_the_checked_root(
    uri: Seq<char>,
    dest_root: Seq<char>,
    canonical: Option<Seq<u8>>,
    roots: Seq<Root>,
    events: Seq<RestoreEvent>,
    max: u64,
)
    requires
        restore_begun(uri, dest_root, canonical, Some(roots)).0 is Directory,
        restore_after(
            restore_begun(uri, dest_root, canonical, Some(roots)).0,
            events,
            max,
        ) is Some,
    ensures
        ({
            let after = restore_after(
                restore_begun(uri, dest_root, canonical, Some(roots)).0,
                events,
                max,
            )->0;
            &&& after is Over || root_of(after) == Some(text::trimmed(dest_root))
            &&& backup::confined(text::trimmed(dest_root), canonical, roots)
        }),
    decreases events.len(),
{
    if events.len() > 0 {
        law_restore_keeps_to_the_checked_root(
            uri,
            dest_root,
            canonical,
            roots,
            events.drop_last(),
            max,
        );
    }
}

/// The id of an upload that is open.
pub open spec fn open_upload(run: MultipartRun) -> Option<Seq<char>> {
    match run {
        MultipartRun::Opening { path, upload_id } => Some(upload_id@),
        MultipartRun::Reading { path, upload_id, parts } => Some(upload_id@),
        MultipartRun::Sending { path, upload_id, parts, number } => Some(upload_id@),
        MultipartRun::Completing { upload_id, total } => Some(upload_id@),
        MultipartRun::Aborting { upload_id, error } => Some(upload_id@),
        _ => None,
    }
}

/// Whether an event is a failure of the file or of a part.
pub open spec fn fails(event: MultipartEvent) -> bool {
    event is OpenFailed || event is ReadFailed || event is PartFailed
}

/// Whether some steps and events are a course that an upload in parts can
/// take, from its opening on.
pub open spec fn multipart_course(
    steps: Seq<(MultipartRun, MultipartAction)>,
    events: Seq<MultipartEvent>,
) -> bool {
    &&& steps.len() == events.len() + 1
    &&& steps[0].0 is Creating
    &&& forall|i: int|
        0 <= i < events.len() ==> #[trigger] multipart_expects(steps[i].0, events[i])
            && multipart_stepped(steps[i].0, events[i], steps[i + 1])
}

proof fn lemma_upload_keeps_its_id(
    steps: Seq<(MultipartRun, MultipartAction)>,
    events: Seq<MultipartEvent>,
    id: Seq<char>,
    i: int,
)
    requires
        multipart_course(steps, events),
        events.len() > 0,
        events[0] matches MultipartEvent::Created(Some(given)) && given@ == id,
        1 <= i <= events.len(),
    ensures
        steps[i].0 is Over || open_upload(steps[i].0) == Some(id),
    decreases i,
{
    assert(multipart_expects(steps[i - 1].0, events[i - 1]));
    if i > 1 {
        lemma_upload_keeps_its_id(steps, events, id, i - 1);
    }
}

/// No upload is left half finished: once it is open under some id, a failure of
/// the file or of a part is answered by giving up the upload of that id, and
/// what is reported then is that failure and no success.
pub proof fn law_failed_parts_abort_the_upload(
    steps: Seq<(MultipartRun, MultipartAction)>,
    events: Seq<MultipartEvent>,
    id: Seq<char>,
    i: int,
)
    requires
        multipart_course(steps, events),
        0 < i < events.len(),
        events[0] matches MultipartEvent::Created(Some(given)) && given@ == id,
        fails(events[i]),
    ensures
        steps[i + 1].1 matches MultipartAction::Abort { upload_id } && upload_id@ == id,
        steps[i + 1].0 is Aborting,
        i + 1 < events.len() ==> events[i + 1] is Aborted && i + 2 == events.len()
            && upload_over(steps[i + 2], Err(failure(steps[i].0, events[i]))),
{
    assert(multipart_expects(steps[i].0, events[i]));
    lemma_upload_keeps_its_id(steps, events, id, i);
    lemma_upload_keeps_its_id(steps, events, id, i + 1);
    if i + 1 < events.len() {
        assert(multipart_expects(steps[i + 1].0, events[i + 1]));
        if i + 2 < events.len() {
            assert(multipart_expects(steps[i + 2].0, events[i + 2]));
        }
    }
}

/// An upload that is reported as done has been completed, and nothing was
/// given up on the way.
pub proof fn law_only_completed_uploads_are_done(
    steps: Seq<(MultipartRun, MultipartAction)>,
    events: Seq<MultipartEvent>,
    bytes: u64,
)
    requires
        multipart_course(steps, events),
        events.len() > 0,
        upload_over(steps.last(), Ok(bytes)),
    ensures
        events.last() is Completed,
        forall|i: int| 0 <= i < events.len() ==> !fails(#[trigger] events[i]),
{
    let n = events.len() as int;
    assert(multipart_expects(steps[n - 1].0, events[n - 1]));
    assert(steps.last() == steps[n]);
    assert forall|i: int| 0 <= i < events.len() implies !fails(#[trigger] events[i]) by {
        if fails(events[i]) {
            assert(multipart_expects(steps[i].0, events[i]));
            if i + 1 < n {
                assert(multipart_expects(steps[i + 1].0, events[i + 1]));
                if i + 2 < n {
                    assert(multipart_expects(steps[i + 2].0, events[i + 2]));
                }
            }
        }
    }
}

/// A backup begins with what was asked for: all the paths that exist, an
/// archive named after the backup and the second, and the directory or the
/// bucket and the key below the prefix of the destination.
pub proof fn law_backups_begin_as_asked(
    name: &str,
    seconds: u64,
    sources: &[Source],
    dest: &str,
    mode: BackupMode,
    roots: Option<&[Root]>,
    r: (BackupRun, BackupAction),
)
    requires
        call_ensures(begin_backup, (name, seconds, sources, dest, mode, roots), r),
    ensures
        r.1 matches BackupAction::Finish(report) ==> !report.success && report.error is Some
            && report.bytes == 0 && report.archive_uri@.len() == 0 && r.0 is Over,
        r.1 is Finish || r.1 is MakeDirectory || r.1 is MakeTemporary,
        backup::dest_parsed(dest@) matches Ok(DestView::Local(dir)) ==> (r.1 !is Finish ==> (r.1
            matches BackupAction::MakeDirectory(d) && d@ == dir && (r.0
            matches BackupRun::Directory { dir: to, name: n, existing, log } && to@ == dir && n@
            == name@ + "-"@ + text::decimal(seconds as nat) + ".tar.gz"@ && text::texts(existing@)
            == sources@.filter(|s: Source| s.exists).map_values(|s: Source| s.path@)))),
        backup::dest_parsed(dest@) matches Ok(DestView::S3 { bucket, prefix }) ==> (r.1
            !is Finish ==> (r.1 is MakeTemporary && (r.0 matches BackupRun::Temporary {
            bucket: b,
            key,
            existing,
            log,
        } && b@ == bucket && key@ == (if prefix.len() == 0 {
            name@ + "-"@ + text::decimal(seconds as nat) + ".tar.gz"@
        } else {
            prefix + "/"@ + (name@ + "-"@ + text::decimal(seconds as nat) + ".tar.gz"@)
        }) && text::texts(existing@) == sources@.filter(|s: Source| s.exists).map_values(
            |s: Source| s.path@,
        )))),
{
    backup::law_present_paths(sources@);
    match r.0 {
        BackupRun::Directory { dir, name: n, existing, log } => {
            assert(r.0@ == BackupRunView::Directory {
                dir: dir@,
                name: n@,
                existing: text::texts(existing@),
                log: log@,
            });
        },
        BackupRun::Temporary { bucket, key, existing, log } => {
            assert(r.0@ == BackupRunView::Temporary {
                bucket: bucket@,
                key: key@,
                existing: text::texts(existing@),
                log: log@,
            });
        },
        _ => {},
    }
    if let BackupAction::Finish(report) = r.1 {
        assert(r.1@ == BackupActionView::Finish(report@));
        assert(report@.success == report.success && report@.bytes == report.bytes
            && report@.archive_uri == report.archive_uri@ && report@.error == text::opt_text(
            report.error,
        ));
    }
}

/// `tar` is run on every path of the plan, on the archive in the directory that
/// was made or on the temporary file.
pub proof fn law_backups_are_packed(
    run: BackupRun,
    event: BackupEvent,
    r: Option<(BackupRun, BackupAction)>,
)
    requires
        call_ensures(BackupRun::step, (run, event), r),
        run is Directory && event is DirectoryMade || run is Temporary && event is TemporaryMade,
    ensures
        r is Some,
        run matches BackupRun::Directory { dir, name, existing, log } ==> ((r->0).1
            matches BackupAction::Tar { archive, argv } && archive@ == backup::path_in(
            dir@,
            name@,
        ) && text::texts(argv@) == seq!["--ignore-failed-read"@, "-czf"@, archive@] + text::texts(
            existing@,
        ) && ((r->0).0 matches BackupRun::Archive { archive: a, log: l } && a@ == archive@ && l@
            == log@)),
        run matches BackupRun::Temporary { bucket, key, existing, log } ==> ((r->0).1
            matches BackupAction::Tar { archive, argv } && archive@ == event->TemporaryMade_0@
            && text::texts(argv@) == seq!["--ignore-failed-read"@, "-czf"@, archive@]
            + text::texts(existing@) && ((r->0).0 matches BackupRun::Packing {
            bucket: b,
            key: k,
            log: l,
        } && b@ == bucket@ && k@ == key@ && l@ == log@)),
{
    assert(r is Some);
    let next = r->0;
    assert(backup_pair(r) == Some((next.0@, next.1@)));
    match run {
        BackupRun::Directory { dir, name, existing, log } => {
            assert(run@ == BackupRunView::Directory {
                dir: dir@,
                name: name@,
                existing: text::texts(existing@),
                log: log@,
            });
        },
        BackupRun::Temporary { bucket, key, existing, log } => {
            assert(run@ == BackupRunView::Temporary {
                bucket: bucket@,
                key: key@,
                existing: text::texts(existing@),
                log: log@,
            });
        },
        _ => {},
    }
}

/// A packed archive goes up to the bucket and the key of the plan, in parts
/// where it is large; and what is reported in the end is the address of that
/// key and the bytes that went up.
pub proof fn law_packed_archives_go_up(
    run: BackupRun,
    event: BackupEvent,
    r: Option<(BackupRun, BackupAction)>,
)
    requires
        call_ensures(BackupRun::step, (run, event), r),
        r is Some,
    ensures
        run matches BackupRun::Packing { bucket, key, log } ==> (event
            matches BackupEvent::TarRan { output, bytes } ==> (output.success ==> ((r->0).1
            matches BackupAction::Upload { bucket: b, key: k, in_parts } && b@ == bucket@ && k@
            == key@ && in_parts == (bytes >= 64 * 1024 * 1024) && ((r->0).0
            matches BackupRun::Uploading { bucket: c, key: h, log: l } && c@ == bucket@ && h@
            == key@)))),
        run matches BackupRun::Packing { bucket, key, log } ==> (event
            matches BackupEvent::TarRan { output, bytes } ==> (!output.success ==> ((r->0).1
            matches BackupAction::Finish(report) && !report.success && text::opt_text(report.error)
            == Some("tar exit "@ + text::code_words(output.code))))),
        run matches BackupRun::Uploading { bucket, key, log } ==> (event
            matches BackupEvent::Uploaded(bytes) ==> ((r->0).1
            matches BackupAction::Finish(report) && report.success && report.bytes == bytes
            && report.archive_uri@ == "s3://"@ + bucket@ + "/"@ + key@ && report.error is None)),
        run matches BackupRun::Uploading { bucket, key, log } ==> (event
            matches BackupEvent::UploadFailed(e) ==> ((r->0).1
            matches BackupAction::Finish(report) && !report.success && text::opt_text(report.error)
            == Some(e@))),
        run matches BackupRun::Archive { archive, log } ==> (event
            matches BackupEvent::TarRan { output, bytes } ==> ((r->0).1
            matches BackupAction::Finish(report) && report.success == output.success && (
        output.success ==> report.archive_uri@ == archive@ && report.bytes == bytes))),
{
    let next = r->0;
    assert(backup_pair(r) == Some((next.0@, next.1@)));
    if let BackupAction::Finish(report) = next.1 {
        assert(next.1@ == BackupActionView::Finish(report@));
        assert(report@.success == report.success && report@.bytes == report.bytes
            && report@.archive_uri == report.archive_uri@ && report@.error == text::opt_text(
            report.error,
        ));
    }
    if let BackupEvent::TarRan { output, bytes } = event {
        assert(output@.success == output.success && output@.code == output.code);
    }
}

/// A backup that cannot go on says at which step, and why.
pub proof fn law_failed_backups_say_where(
    run: BackupRun,
    event: BackupEvent,
    r: Option<(BackupRun, BackupAction)>,
)
    requires
        call_ensures(BackupRun::step, (run, event), r),
        backup_expects(run@, event),
        event is DirectoryFailed || event is TarFailed || event is TemporaryFailed,
    ensures
        r is Some,
        (r->0).1 matches BackupAction::Finish(report) && !report.success && (event
            matches BackupEvent::DirectoryFailed(e) ==> text::opt_text(report.error) == Some(
            "mkdir "@ + run->dir@ + ": "@ + e@,
        )) && (event matches BackupEvent::TarFailed(e) ==> text::opt_text(report.error) == Some(
            "spawn tar: "@ + e@,
        )) && (event matches BackupEvent::TemporaryFailed(e) ==> text::opt_text(report.error)
            == Some("tempfile: "@ + e@)),
{
    let next = r->0;
    assert(backup_pair(r) == Some((next.0@, next.1@)));
    if let BackupAction::Finish(report) = next.1 {
        assert(next.1@ == BackupActionView::Finish(report@));
        assert(report@.success == report.success && report@.error == text::opt_text(report.error));
    }
}

/// A restore begins with its trimmed root, or says why it does not.
pub proof fn law_restores_begin_as_asked(
    uri: &str,
    dest_root: &str,
    canonical: Option<&[u8]>,
    roots: Option<&[Root]>,
    r: (RestoreRun, RestoreAction),
)
    requires
        call_ensures(begin_restore, (uri, dest_root, canonical, roots), r),
    ensures
        r.1 is MakeDirectory || r.1 is Finish,
        r.1 matches RestoreAction::MakeDirectory(d) ==> (d@ == text::trimmed(dest_root@) && d@.len()
            > 0 && (r.0 matches RestoreRun::Directory { root, uri: u } && root@ == d@ && u@ == uri@)),
        r.1 matches RestoreAction::Finish(report) ==> !report.success && report.error is Some,
        text::trimmed(dest_root@).len() > 0 && roots is None ==> r.1 is MakeDirectory,
{
    if let RestoreAction::Finish(report) = r.1 {
        assert(r.1@ == RestoreActionView::Finish(report@));
        assert(report@.success == report.success && report@.error == text::opt_text(report.error));
    }
}

/// A restore fetches the object that its address names and hands its bytes to a
/// `tar` that extracts into the root; a local archive is extracted where it is
/// found.
pub proof fn law_restores_extract_what_was_asked(
    run: RestoreRun,
    event: RestoreEvent,
    max: u64,
    r: Option<(RestoreRun, RestoreAction)>,
)
    requires
        call_ensures(RestoreRun::step, (run, event, max), r),
        r is Some,
    ensures
        run matches RestoreRun::Directory { root, uri } ==> (event is DirectoryMade ==> (
        backup::source_parsed(uri@) matches Ok(SourceView::S3 { bucket, key }) ==> ((r->0).1
            matches RestoreAction::GetObject { bucket: b, key: k } && b@ == bucket && k@ == key
            && ((r->0).0 matches RestoreRun::Getting { bucket: c, key: h, root: to } && c@ == bucket
            && h@ == key && to@ == root@)))),
        run matches RestoreRun::Directory { root, uri } ==> (event is DirectoryMade ==> (
        backup::source_parsed(uri@) matches Ok(SourceView::Local(path)) ==> ((r->0).1
            matches RestoreAction::LookFor(p) && p@ == path && ((r->0).0
            matches RestoreRun::Looking { path: q, root: to } && q@ == path && to@ == root@)))),
        run matches RestoreRun::Getting { bucket, key, root } ==> (event is ObjectFound ==> ((
        r->0).1 matches RestoreAction::StartTar(argv) && text::texts(argv@) == seq![
            "-xzf"@,
            "-"@,
            "-C"@,
            root@,
            "--no-absolute-names"@,
            "--exclude=../*"@,
            "--exclude=*/../*"@,
            "--no-same-owner"@,
            "--no-same-permissions"@,
        ] && ((r->0).0 matches RestoreRun::Starting { bucket: b, key: k, root: to } && b@ == bucket@
            && k@ == key@ && to@ == root@))),
        run matches RestoreRun::Starting { bucket, key, root } ==> (event is TarStarted ==> ((
        r->0).1 is Read && ((r->0).0 matches RestoreRun::Feeding {
            bucket: b,
            key: k,
            root: to,
            meter,
        } && b@ == bucket@ && k@ == key@ && to@ == root@ && meter.total == 0 && meter.max == max))),
        run matches RestoreRun::Looking { path, root } ==> (event is Found ==> (if event->Found_0 {
            (r->0).1 matches RestoreAction::RunTar(argv) && text::texts(argv@) == seq![
                "-xzf"@,
                path@,
                "-C"@,
                root@,
                "--no-absolute-names"@,
                "--exclude=../*"@,
                "--exclude=*/../*"@,
                "--no-same-owner"@,
                "--no-same-permissions"@,
            ]
        } else {
            (r->0).1 matches RestoreAction::Finish(report) && !report.success && text::opt_text(
                report.error,
            ) == Some("archive not found: "@ + path@)
        })),
{
    let next = r->0;
    assert(restore_pair(r) == Some((next.0@, next.1@)));
    if let RestoreAction::Finish(report) = next.1 {
        assert(next.1@ == RestoreActionView::Finish(report@));
        assert(report@.success == report.success && report@.error == text::opt_text(report.error));
    }
}

/// Every piece of the archive within the limit is handed to `tar`, and counted;
/// a piece over the limit ends the restore; and at the end of the archive `tar`
/// is waited for.
pub proof fn law_restores_feed_every_piece(
    run: RestoreRun,
    event: RestoreEvent,
    max: u64,
    r: Option<(RestoreRun, RestoreAction)>,
)
    requires
        call_ensures(RestoreRun::step, (run, event, max), r),
        r is Some,
        run is Feeding,
    ensures
        event matches RestoreEvent::Piece(n) ==> (run->meter.total + n <= run->meter.max ==> ((
        r->0).1 is Feed && (r->0).0 is Feeding && (r->0).0->meter.total == run->meter.total + n && (
        r->0).0->meter.max == run->meter.max)),
        event matches RestoreEvent::Piece(n) ==> (run->meter.total + n > run->meter.max
            && run->meter.max < u64::MAX ==> ((r->0).1 matches RestoreAction::Kill(report)
            && !report.success && (r->0).0 is Over)),
        event is Fed ==> (r->0).1 is Read && (r->0).0@ == run@,
        event is ArchiveEnded ==> (r->0).1 is Await && (r->0).0 is Extracting,
        event matches RestoreEvent::FeedFailed(e) ==> ((r->0).1 matches RestoreAction::Kill(report)
            && !report.success && text::opt_text(report.error) == Some("tar stdin write: "@ + e@)),
        event matches RestoreEvent::ArchiveFailed(e) ==> ((r->0).1
            matches RestoreAction::Kill(report) && !report.success && text::opt_text(report.error)
            == Some("S3 body read: "@ + e@)),
{
    let next = r->0;
    assert(restore_pair(r) == Some((next.0@, next.1@)));
    if let RestoreAction::Kill(report) = next.1 {
        assert(next.1@ == RestoreActionView::Kill(report@));
        assert(report@.success == report.success && report@.error == text::opt_text(report.error));
    }
}

/// A restore succeeds where `tar` exited well, and only there.
pub proof fn law_restores_end_with_tar(
    run: RestoreRun,
    event: RestoreEvent,
    max: u64,
    r: Option<(RestoreRun, RestoreAction)>,
)
    requires
        call_ensures(RestoreRun::step, (run, event, max), r),
        r is Some,
    ensures
        run is Extracting ==> (event matches RestoreEvent::TarRan(output) ==> ((r->0).1
            matches RestoreAction::Finish(report) && report.success == output.success)),
        (r->0).1 matches RestoreAction::Finish(report) ==> (report.success ==> run is Extracting
            && event is TarRan),
        event matches RestoreEvent::ObjectFailed(e) ==> (run is Getting ==> ((r->0).1
            matches RestoreAction::Finish(report) && text::opt_text(report.error) == Some(
            "GetObject: "@ + e@,
        ))),
        event matches RestoreEvent::WaitFailed(e) ==> (run is Extracting ==> ((r->0).1
            matches RestoreAction::Finish(report) && text::opt_text(report.error) == Some(
            "tar wait: "@ + e@,
        ))),
{
    let next = r->0;
    assert(restore_pair(r) == Some((next.0@, next.1@)));
    if let RestoreAction::Finish(report) = next.1 {
        assert(next.1@ == RestoreActionView::Finish(report@));
        assert(report@.success == report.success && report@.error == text::opt_text(report.error));
    }
    if let RestoreEvent::TarRan(output) = event {
        assert(output@.success == output.success);
    }
}

/// A list of archives holds what the pages so far and this one hold; it is
/// asked for the next page while the service says that there is one.
pub proof fn law_lists_hold_every_page(
    run: ListRun,
    event: ListEvent,
    r: (ListRun, ListAction),
)
    requires
        call_ensures(ListRun::step, (run, event), r),
        run is Pages,
        event is Page,
    ensures
        event->truncated == Some(true) && event->token is Some ==> (r.1
            matches ListAction::GetPage { bucket, prefix, token } && bucket@ == run->bucket@
            && token is Some && token->0@ == event->token->0@ && (r.0 matches ListRun::Pages {
            bucket: b,
            prefix: p,
            found,
        } && backup::archives(found@) == backup::archives(run->found@) + backup::s3_found(
            run->bucket@,
            event->objects@,
        ))),
        !(event->truncated == Some(true) && event->token is Some) ==> (r.1
            matches ListAction::Finish(report) && report.success && report.error is None
            && backup::archives(report.archives@).to_multiset() == (backup::archives(run->found@)
            + backup::s3_found(run->bucket@, event->objects@)).to_multiset()),
{
    let all = backup::archives(run->found@) + backup::s3_found(run->bucket@, event->objects@);
    if !(event->truncated == Some(true) && event->token is Some) {
        assert(list_finished(r, all));
        if let ListAction::Finish(report) = r.1 {
            backup::law_sorting_loses_nothing(backup::archives(report.archives@), all);
        }
    }
}

/// A directory that is not there holds no archives; one that is holds those
/// that were found in it; and a failure is reported as one.
pub proof fn law_directories_give_their_archives(
    run: ListRun,
    event: ListEvent,
    r: (ListRun, ListAction),
)
    requires
        call_ensures(ListRun::step, (run, event), r),
        list_expects(run, event),
    ensures
        event is NoDirectory ==> (r.1 matches ListAction::Finish(report) && report.success
            && report.archives@.len() == 0),
        event matches ListEvent::Entries(entries) ==> (r.1 matches ListAction::Finish(report)
            && report.success && backup::archives(report.archives@).to_multiset()
            == backup::local_found(entries@).to_multiset()),
        event matches ListEvent::DirectoryFailed(e) ==> (r.1 matches ListAction::Finish(report)
            && !report.success && text::opt_text(report.error) == Some("read_dir: "@ + e@)),
        event matches ListEvent::PageFailed(e) ==> (r.1 matches ListAction::Finish(report)
            && !report.success && text::opt_text(report.error) == Some("ListObjectsV2: "@ + e@)),
{
    if let ListAction::Finish(report) = r.1 {
        let listed = backup::archives(report.archives@);
        if event is NoDirectory {
            assert(list_finished(r, Seq::empty()));
            backup::law_sorting_loses_nothing(listed, Seq::empty());
            broadcast use vstd::seq_lib::group_to_multiset_ensures;

            assert(listed.len() == 0);
        }
        if let ListEvent::Entries(entries) = event {
            assert(list_finished(r, backup::local_found(entries@)));
            backup::law_sorting_loses_nothing(listed, backup::local_found(entries@));
        }
    }
}

/// A list begins at the directory, or at the first page of the bucket below the
/// prefix.
pub proof fn law_lists_begin_at_the_destination(dest: &str, r: (ListRun, ListAction))
    requires
        call_ensures(begin_list, (dest,), r),
    ensures
        backup::dest_parsed(dest@) matches Ok(DestView::Local(dir)) ==> (r.1
            matches ListAction::ReadDirectory(d) && d@ == dir && r.0 is Directory),
        backup::dest_parsed(dest@) matches Ok(DestView::S3 { bucket, prefix }) ==> (r.1
            matches ListAction::GetPage { bucket: b, prefix: p, token } && b@ == bucket && token
            is None && text::opt_text(p) == (if prefix.len() == 0 {
            None::<Seq<char>>
        } else {
            Some(prefix + "/"@)
        }) && (r.0 matches ListRun::Pages { bucket: c, prefix: q, found } && c@ == bucket && q@
            == prefix && found@.len() == 0)),
        backup::dest_parsed(dest@) matches Err(e) ==> (r.1 matches ListAction::Finish(report)
            && !report.success && text::opt_text(report.error) == Some(e)),
{
    if let ListRun::Pages { bucket, prefix, found } = r.0 {
        assert(backup::archives(found@).len() == found@.len());
    }
}

/// A part goes up when the buffer is full or the file is at its end, under the
/// number after that of the part before it; what went up is completed under
/// those numbers and tags, and its bytes are all counted.
pub proof fn law_parts_go_up_in_order(
    run: MultipartRun,
    event: MultipartEvent,
    r: (MultipartRun, MultipartAction),
)
    requires
        call_ensures(MultipartRun::step, (run, event), r),
        run.well_formed(),
        multipart_expects(run, event),
    ensures
        run matches MultipartRun::Reading { path, upload_id, parts } ==> (event
            matches MultipartEvent::Read(n) ==> (n > 0 && parts.filled() + n < 16 * 1024 * 1024 ==> (
        r.1 matches MultipartAction::Read { filled } && filled == parts.filled() + n))),
        run matches MultipartRun::Reading { path, upload_id, parts } ==> (event
            matches MultipartEvent::Read(n) ==> (parts.filled() + n > 0 && (n == 0
            || parts.filled() + n == 16 * 1024 * 1024) ==> (r.1 matches MultipartAction::Send {
            upload_id: id,
            number,
            filled,
        } && id@ == upload_id@ && number == parts.parts().len() + 1 && filled == parts.filled()
            + n))),
        run matches MultipartRun::Reading { path, upload_id, parts } ==> (event
            matches MultipartEvent::Read(n) ==> (n == 0 && parts.filled() == 0 ==> (r.1
            matches MultipartAction::Complete { upload_id: id, parts: sent } && id@ == upload_id@
            && sent@ == parts.parts() && (r.0 matches MultipartRun::Completing {
            upload_id: of,
            total,
        } && of@ == upload_id@ && total == parts.total())))),
        run matches MultipartRun::Sending { path, upload_id, parts, number } ==> (event
            matches MultipartEvent::PartSent(tag) ==> (r.0 matches MultipartRun::Reading {
            path: p,
            upload_id: id,
            parts: q,
        } && id@ == upload_id@ && q.parts() == parts.parts().push(Part { number, e_tag: tag })
            && q.total() == parts.total() + parts.filled() && q.filled() == 0 && (r.1
            matches MultipartAction::Read { filled } && filled == 0))),
        run matches MultipartRun::Completing { upload_id, total } ==> (event is Completed ==> (r.1
            matches MultipartAction::Finish(Ok(bytes)) && bytes == total)),
        run matches MultipartRun::Aborting { upload_id, error } ==> (event is Aborted ==> (r.1
            matches MultipartAction::Finish(Err(e)) && e@ == error@)),
{
}

/// An upload in parts begins by being opened, for its own file.
pub proof fn law_uploads_begin_by_being_opened(
    path: &str,
    r: (MultipartRun, MultipartAction),
)
    requires
        call_ensures(begin_multipart, (path,), r),
    ensures
        r.0 matches MultipartRun::Creating { path: p } && p@ == path@,
        r.1 is Create,
{
}

/// An upload is open once the service gave it an id; then its file is opened
/// and read from the start.
pub proof fn law_uploads_are_opened(
    run: MultipartRun,
    event: MultipartEvent,
    r: (MultipartRun, MultipartAction),
)
    requires
        call_ensures(MultipartRun::step, (run, event), r),
    ensures
        run matches MultipartRun::Creating { path } ==> (event
            matches MultipartEvent::Created(Some(id)) ==> (r.1
            matches MultipartAction::OpenFile(p) && p@ == path@ && (r.0
            matches MultipartRun::Opening { path: q, upload_id } && q@ == path@ && upload_id@
            == id@))),
        run is Creating ==> (event matches MultipartEvent::Created(None) ==> (r.1
            matches MultipartAction::Finish(Err(e)) && e@
            == "CreateMultipartUpload returned no upload_id"@)),
        run is Creating ==> (event matches MultipartEvent::CreateFailed(why) ==> (r.1
            matches MultipartAction::Finish(Err(e)) && e@ == "CreateMultipartUpload: "@ + why@)),
        run matches MultipartRun::Opening { path, upload_id } ==> (event is FileOpened ==> (r.1
            matches MultipartAction::Read { filled } && filled == 0 && (r.0
            matches MultipartRun::Reading { path: q, upload_id: id, parts } && q@ == path@ && id@
            == upload_id@ && parts.parts().len() == 0 && parts.total() == 0 && parts.filled()
            == 0))),
        run matches MultipartRun::Opening { path, upload_id } ==> (event
            matches MultipartEvent::OpenFailed(why) ==> (r.1 matches MultipartAction::Abort {
            upload_id: id,
        } && id@ == upload_id@ && (r.0 matches MultipartRun::Aborting { upload_id: of, error }
            && error@ == "open "@ + path@ + ": "@ + why@))),
        run matches MultipartRun::Reading { path, upload_id, parts } ==> (event
            matches MultipartEvent::ReadFailed(why) ==> (r.1 matches MultipartAction::Abort {
            upload_id: id,
        } && id@ == upload_id@ && (r.0 matches MultipartRun::Aborting { upload_id: of, error }
            && error@ == "read "@ + path@ + ": "@ + why@))),
        run matches MultipartRun::Sending { path, upload_id, parts, number } ==> (event
            matches MultipartEvent::PartFailed(why) ==> (r.1 matches MultipartAction::Abort {
            upload_id: id,
        } && id@ == upload_id@ && (r.0 matches MultipartRun::Aborting { upload_id: of, error }
            && error@ == "UploadPart#"@ + text::signed_decimal(number as int) + ": "@ + why@))),
        run is Completing ==> (event matches MultipartEvent::CompleteFailed(why) ==> (r.1
            matches MultipartAction::Finish(Err(e)) && e@ == "CompleteMultipartUpload: "@ + why@)),
{
}

}
