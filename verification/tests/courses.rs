use base64::Engine;
use ed25519_dalek::Signer;
use shellfleet_agent::apt::{run_files, watch, AptRunState, UnitState, WatchAction, WatchEvent};
use shellfleet_agent::backup::{
    BackupMode, BackupReport, LocalEntry, LocalMeta, RestoreReport, Root, S3Object, Source,
    MULTIPART_CHUNK, MULTIPART_THRESHOLD,
};
use shellfleet_agent::backup_run::{
    begin_backup, begin_list, begin_multipart, begin_restore, BackupAction, BackupEvent, BackupRun,
    ListAction, ListEvent, ListReport, MultipartAction, MultipartEvent, MultipartRun,
    RestoreAction, RestoreEvent, RestoreRun,
};
use shellfleet_agent::exec::{
    begin as begin_exec, ExecEvent, ExecResult, ExecRun, ReaderEnd, WaitEnd,
};
use shellfleet_agent::output::CommandOutput;
use shellfleet_agent::privileged::approval::{GateState, StoredRequest};
use shellfleet_agent::privileged::broker::{answer_start, Broker, BrokerEvent};
use shellfleet_agent::privileged::policy::TrustedOperation;
use shellfleet_agent::privileged::protocol::{SignedTrustedManifest, TrustedClientFrame};
use shellfleet_agent::prune::end_preview;

fn output(stdout: &str, stderr: &str, code: i32) -> CommandOutput {
    CommandOutput {
        stdout: stdout.to_string(),
        stderr: stderr.to_string(),
        success: code == 0,
        code: Some(code),
    }
}

fn source(path: &str) -> Source {
    Source { path: path.to_string(), exists: true, canonical: None }
}

// ---------- backups ----------

fn begin(dest: &str) -> (BackupRun, BackupAction) {
    begin_backup("db", 1700000000, &[source("/srv/db")], dest, BackupMode::Tar, None)
}

fn reported(action: BackupAction) -> BackupReport {
    match action {
        BackupAction::Finish(report) => report,
        other => panic!("{other:?}"),
    }
}

#[test]
fn a_local_backup_goes_to_its_directory() {
    let (run, action) = begin("/backups");
    match action {
        BackupAction::MakeDirectory(dir) => assert_eq!(dir, "/backups"),
        other => panic!("{other:?}"),
    }
    let (run, action) = run.step(BackupEvent::DirectoryMade).unwrap();
    match action {
        BackupAction::Tar { archive, argv } => {
            assert_eq!(archive, "/backups/db-1700000000.tar.gz");
            assert_eq!(argv, ["--ignore-failed-read", "-czf", archive.as_str(), "/srv/db"]);
        }
        other => panic!("{other:?}"),
    }
    let ran = BackupEvent::TarRan { output: output("", "", 0), bytes: 42 };
    let (run, action) = run.step(ran).unwrap();
    assert!(matches!(run, BackupRun::Over));
    let report = reported(action);
    assert!(report.success);
    assert_eq!(report.archive_uri, "/backups/db-1700000000.tar.gz");
    assert_eq!(report.bytes, 42);
    assert_eq!(report.log, "wrote /backups/db-1700000000.tar.gz (42 bytes)\n");
}

#[test]
fn a_local_backup_says_what_failed() {
    let (run, _) = begin("/backups");
    let (_, action) = run.step(BackupEvent::DirectoryFailed("denied".into())).unwrap();
    assert_eq!(reported(action).error.unwrap(), "mkdir /backups: denied");

    let (run, _) = begin("/backups");
    let (run, _) = run.step(BackupEvent::DirectoryMade).unwrap();
    let (_, action) = run.step(BackupEvent::TarFailed("missing".into())).unwrap();
    assert_eq!(reported(action).error.unwrap(), "spawn tar: missing");

    let (run, _) = begin("/backups");
    let (run, _) = run.step(BackupEvent::DirectoryMade).unwrap();
    let ran = BackupEvent::TarRan { output: output("", "broken", 2), bytes: 7 };
    let (_, action) = run.step(ran).unwrap();
    let report = reported(action);
    assert!(!report.success);
    assert_eq!(report.archive_uri, "");
    assert_eq!(report.bytes, 0);
    assert_eq!(report.error.unwrap(), "tar exit Some(2)");
}

#[test]
fn a_backup_that_may_not_start_ends_at_once() {
    let (run, action) =
        begin_backup("db", 1, &[source("/srv/db")], "/backups", BackupMode::Restic, None);
    assert!(matches!(run, BackupRun::Over));
    assert_eq!(
        reported(action).error.unwrap(),
        "restic mode is not implemented in this agent build"
    );
    let roots = [Root { path: "/var/lib/shellfleet".into(), canonical: None }];
    let (_, action) = begin_backup(
        "db",
        1,
        &[source("/etc/shadow")],
        "/backups",
        BackupMode::Tar,
        Some(&roots),
    );
    assert_eq!(
        reported(action).error.unwrap(),
        "path(s) outside SHELLFLEET_BACKUP_ROOTS allow-list: /etc/shadow"
    );
}

#[test]
fn an_s3_backup_goes_through_a_temporary_file() {
    let (run, action) = begin("s3://bucket/daily/");
    assert!(matches!(action, BackupAction::MakeTemporary));
    let (run, action) = run.step(BackupEvent::TemporaryMade("/tmp/a".into())).unwrap();
    match action {
        BackupAction::Tar { archive, argv } => {
            assert_eq!(archive, "/tmp/a");
            assert_eq!(argv, ["--ignore-failed-read", "-czf", "/tmp/a", "/srv/db"]);
        }
        other => panic!("{other:?}"),
    }
    let ran = BackupEvent::TarRan { output: output("", "", 0), bytes: MULTIPART_THRESHOLD };
    let (run, action) = run.step(ran).unwrap();
    match action {
        BackupAction::Upload { bucket, key, in_parts } => {
            assert_eq!(bucket, "bucket");
            assert_eq!(key, "daily/db-1700000000.tar.gz");
            assert!(in_parts);
        }
        other => panic!("{other:?}"),
    }
    let (_, action) = run.step(BackupEvent::Uploaded(9)).unwrap();
    let report = reported(action);
    assert!(report.success);
    assert_eq!(report.archive_uri, "s3://bucket/daily/db-1700000000.tar.gz");
    assert_eq!(report.bytes, 9);
}

#[test]
fn an_s3_backup_says_what_failed() {
    let (run, _) = begin("s3://bucket");
    let (_, action) = run.step(BackupEvent::TemporaryFailed("full".into())).unwrap();
    assert_eq!(reported(action).error.unwrap(), "tempfile: full");

    let (run, _) = begin("s3://bucket");
    let (run, _) = run.step(BackupEvent::TemporaryMade("/tmp/a".into())).unwrap();
    let ran = BackupEvent::TarRan { output: output("", "bad", 2), bytes: 1 };
    let (_, action) = run.step(ran).unwrap();
    assert_eq!(reported(action).error.unwrap(), "tar exit Some(2)");

    let (run, _) = begin("s3://bucket");
    let (run, _) = run.step(BackupEvent::TemporaryMade("/tmp/a".into())).unwrap();
    let ran = BackupEvent::TarRan { output: output("", "", 0), bytes: 1 };
    let (run, action) = run.step(ran).unwrap();
    assert!(matches!(action, BackupAction::Upload { in_parts: false, .. }));
    let (_, action) = run.step(BackupEvent::UploadFailed("PutObject: no".into())).unwrap();
    let report = reported(action);
    assert_eq!(report.error.unwrap(), "PutObject: no");
    assert_eq!(report.log, "uploading 1 bytes via PutObject\n");
}

// ---------- restores ----------

fn restored(action: RestoreAction) -> RestoreReport {
    match action {
        RestoreAction::Finish(report) | RestoreAction::Kill(report) => report,
        other => panic!("{other:?}"),
    }
}

fn feeding(max: u64) -> RestoreRun {
    let (run, action) = begin_restore("s3://bucket/a/b.tar.gz", " /srv/out ", None, None);
    match action {
        RestoreAction::MakeDirectory(dir) => assert_eq!(dir, "/srv/out"),
        other => panic!("{other:?}"),
    }
    let (run, action) = run.step(RestoreEvent::DirectoryMade, max).unwrap();
    match action {
        RestoreAction::GetObject { bucket, key } => {
            assert_eq!(bucket, "bucket");
            assert_eq!(key, "a/b.tar.gz");
        }
        other => panic!("{other:?}"),
    }
    let (run, action) = run.step(RestoreEvent::ObjectFound, max).unwrap();
    match action {
        RestoreAction::StartTar(argv) => {
            assert_eq!(argv[..4], ["-xzf", "-", "-C", "/srv/out"]);
        }
        other => panic!("{other:?}"),
    }
    let (run, action) = run.step(RestoreEvent::TarStarted, max).unwrap();
    assert!(matches!(action, RestoreAction::Read));
    run
}

#[test]
fn an_s3_restore_feeds_tar_within_the_limit() {
    let run = feeding(10);
    let (run, action) = run.step(RestoreEvent::Piece(10), 10).unwrap();
    assert!(matches!(action, RestoreAction::Feed));
    let (run, action) = run.step(RestoreEvent::Fed, 10).unwrap();
    assert!(matches!(action, RestoreAction::Read));
    let (run, action) = run.step(RestoreEvent::ArchiveEnded, 10).unwrap();
    assert!(matches!(action, RestoreAction::Await));
    let (run, action) = run.step(RestoreEvent::TarRan(output("x", "", 0)), 10).unwrap();
    assert!(matches!(run, RestoreRun::Over));
    let report = restored(action);
    assert!(report.success);
    assert_eq!(report.log, "restored s3://bucket/a/b.tar.gz into /srv/out\n");

    let run = feeding(10);
    let (run, _) = run.step(RestoreEvent::Piece(6), 10).unwrap();
    let (run, _) = run.step(RestoreEvent::Fed, 10).unwrap();
    let (_, action) = run.step(RestoreEvent::Piece(5), 10).unwrap();
    assert!(matches!(action, RestoreAction::Kill(_)));
    assert_eq!(
        restored(action).error.unwrap(),
        "S3 GetObject body exceeded SHELLFLEET_S3_RESTORE_MAX_BYTES (10 bytes); aborting restore"
    );
}

#[test]
fn a_restore_says_what_failed() {
    let (_, action) = feeding(10).step(RestoreEvent::FeedFailed("pipe".into()), 10).unwrap();
    assert!(matches!(action, RestoreAction::Kill(_)));
    assert_eq!(restored(action).error.unwrap(), "tar stdin write: pipe");
    let (_, action) = feeding(10).step(RestoreEvent::ArchiveFailed("gone".into()), 10).unwrap();
    assert_eq!(restored(action).error.unwrap(), "S3 body read: gone");
    let (run, _) = feeding(10).step(RestoreEvent::ArchiveEnded, 10).unwrap();
    let (_, action) = run.step(RestoreEvent::WaitFailed("lost".into()), 10).unwrap();
    assert_eq!(restored(action).error.unwrap(), "tar wait: lost");

    let (_, action) = begin_restore("/a.tar.gz", "  ", None, None);
    assert_eq!(restored(action).error.unwrap(), "dest_root is empty");
    let (run, _) = begin_restore("/a.tar.gz", "/out", None, None);
    let (_, action) = run.step(RestoreEvent::DirectoryFailed("denied".into()), 1).unwrap();
    assert_eq!(restored(action).error.unwrap(), "mkdir /out: denied");
    let (run, _) = begin_restore("s3://bucket", "/out", None, None);
    let (_, action) = run.step(RestoreEvent::DirectoryMade, 1).unwrap();
    assert_eq!(restored(action).error.unwrap(), "malformed archive URI: s3://bucket");
    let (run, _) = begin_restore("s3://bucket/k", "/out", None, None);
    let (run, _) = run.step(RestoreEvent::DirectoryMade, 1).unwrap();
    let (_, action) = run.step(RestoreEvent::ObjectFailed("404".into()), 1).unwrap();
    assert_eq!(restored(action).error.unwrap(), "GetObject: 404");
    let (run, _) = begin_restore("s3://bucket/k", "/out", None, None);
    let (run, _) = run.step(RestoreEvent::DirectoryMade, 1).unwrap();
    let (run, _) = run.step(RestoreEvent::ObjectFound, 1).unwrap();
    let (_, action) = run.step(RestoreEvent::InputMissing, 1).unwrap();
    assert_eq!(restored(action).error.unwrap(), "tar stdin not piped");
}

#[test]
fn a_local_restore_looks_for_its_archive() {
    let begin = || {
        let (run, _) = begin_restore("file:///a.tar.gz", "/out", None, None);
        let (run, action) = run.step(RestoreEvent::DirectoryMade, 1).unwrap();
        match action {
            RestoreAction::LookFor(path) => assert_eq!(path, "/a.tar.gz"),
            other => panic!("{other:?}"),
        }
        run
    };
    let (_, action) = begin().step(RestoreEvent::Found(false), 1).unwrap();
    assert_eq!(restored(action).error.unwrap(), "archive not found: /a.tar.gz");
    let (run, action) = begin().step(RestoreEvent::Found(true), 1).unwrap();
    match action {
        RestoreAction::RunTar(argv) => assert_eq!(argv[..4], ["-xzf", "/a.tar.gz", "-C", "/out"]),
        other => panic!("{other:?}"),
    }
    let (_, action) = run.step(RestoreEvent::TarRan(output("", "", 1)), 1).unwrap();
    assert_eq!(restored(action).error.unwrap(), "tar exit Some(1)");
    let (run, _) = begin().step(RestoreEvent::Found(true), 1).unwrap();
    let (_, action) = run.step(RestoreEvent::TarFailed("missing".into()), 1).unwrap();
    assert_eq!(restored(action).error.unwrap(), "spawn tar: missing");
}

// ---------- lists ----------

fn listed(action: ListAction) -> ListReport {
    match action {
        ListAction::Finish(report) => report,
        other => panic!("{other:?}"),
    }
}

#[test]
fn directories_are_listed() {
    let (run, action) = begin_list("/backups");
    match action {
        ListAction::ReadDirectory(dir) => assert_eq!(dir, "/backups"),
        other => panic!("{other:?}"),
    }
    let entry = |name: &str, mtime: i64| LocalEntry {
        name: Some(name.to_string()),
        path: format!("/backups/{name}"),
        meta: Some(LocalMeta { bytes: 3, mtime: Some(mtime) }),
    };
    let entries = vec![entry("a.tar.gz", 1), entry("note.txt", 9), entry("b.tar.gz", 2)];
    let (_, action) = run.step(ListEvent::Entries(entries));
    let report = listed(action);
    assert!(report.success);
    let names: Vec<&str> = report.archives.iter().map(|a| a.name.as_str()).collect();
    assert_eq!(names, ["b.tar.gz", "a.tar.gz"]);

    let (run, _) = begin_list("/backups");
    let report = listed(run.step(ListEvent::NoDirectory).1);
    assert!(report.success && report.archives.is_empty());
    let (run, _) = begin_list("/backups");
    let report = listed(run.step(ListEvent::DirectoryFailed("denied".into())).1);
    assert!(!report.success);
    assert_eq!(report.error.unwrap(), "read_dir: denied");
    let report = listed(begin_list(" ").1);
    assert_eq!(report.error.unwrap(), "dest is empty");
}

#[test]
fn buckets_are_listed_page_by_page() {
    let object = |key: &str, t: i64| S3Object {
        key: Some(key.to_string()),
        size: Some(5),
        modified: Some(t),
    };
    let (run, action) = begin_list("s3://bucket/daily");
    match action {
        ListAction::GetPage { bucket, prefix, token } => {
            assert_eq!(bucket, "bucket");
            assert_eq!(prefix.unwrap(), "daily/");
            assert!(token.is_none());
        }
        other => panic!("{other:?}"),
    }
    let (run, action) = run.step(ListEvent::Page {
        objects: vec![object("daily/a.tar.gz", 1)],
        truncated: Some(true),
        token: Some("next".into()),
    });
    match action {
        ListAction::GetPage { token, .. } => assert_eq!(token.unwrap(), "next"),
        other => panic!("{other:?}"),
    }
    let (_, action) = run.step(ListEvent::Page {
        objects: vec![object("daily/b.tar.gz", 2)],
        truncated: Some(false),
        token: None,
    });
    let uris: Vec<String> = listed(action).archives.into_iter().map(|a| a.uri).collect();
    assert_eq!(uris, ["s3://bucket/daily/b.tar.gz", "s3://bucket/daily/a.tar.gz"]);
    let (run, _) = begin_list("s3://bucket");
    let report = listed(run.step(ListEvent::PageFailed("denied".into())).1);
    assert_eq!(report.error.unwrap(), "ListObjectsV2: denied");
}

// ---------- upgrades ----------

fn apt_run() -> AptRunState {
    AptRunState {
        package: None,
        started_at: 1,
        log: "start\n".into(),
        bytes_written: 6,
        unit_name: Some("u.service".into()),
        log_path: Some("/l".into()),
        result_path: Some("/r".into()),
        script_path: Some("/s".into()),
    }
}

#[test]
fn an_upgrade_is_watched_in_order() {
    let mut state = apt_run();
    let step = |state: &mut AptRunState, event: WatchEvent| watch(state, "/r", event).unwrap();
    assert!(matches!(step(&mut state, WatchEvent::Tick), WatchAction::ReadLog(p) if p == "/l"));
    let read = WatchEvent::LogRead(b"working".to_vec());
    assert!(matches!(step(&mut state, read), WatchAction::Save));
    assert_eq!(state.log, "working");
    assert_eq!(state.bytes_written, 7);
    assert!(matches!(step(&mut state, WatchEvent::Saved), WatchAction::ReadResult(p) if p == "/r"));
    assert!(matches!(step(&mut state, WatchEvent::NoLog), WatchAction::ReadResult(_)));
    assert!(
        matches!(step(&mut state, WatchEvent::NoResult), WatchAction::AskUnit(u) if u == "u.service")
    );
    assert!(matches!(step(&mut state, WatchEvent::NoUnit), WatchAction::Wait));
    let active = UnitState { load: "loaded".into(), active: "active".into(), result: "".into() };
    assert!(matches!(step(&mut state, WatchEvent::UnitRead(active)), WatchAction::Wait));
    match step(&mut state, WatchEvent::ResultRead("success\n".into())) {
        WatchAction::Finish { report, files } => {
            assert!(report.success);
            assert_eq!(report.log, "working");
            assert_eq!(files, ["/l", "/s", "/r"]);
        }
        other => panic!("{other:?}"),
    }
    let gone = UnitState { load: "not-found".into(), active: "".into(), result: "".into() };
    match step(&mut state, WatchEvent::UnitRead(gone)) {
        WatchAction::Finish { report, .. } => {
            assert!(!report.success);
            assert_eq!(report.error.unwrap(), "apt transient unit ended before writing a result");
        }
        other => panic!("{other:?}"),
    }
    let mut bare = apt_run();
    bare.log_path = None;
    bare.unit_name = None;
    assert!(matches!(step(&mut bare, WatchEvent::Tick), WatchAction::ReadResult(_)));
    assert!(matches!(step(&mut bare, WatchEvent::NoResult), WatchAction::Wait));
    assert_eq!(run_files(&bare), ["/s", "/r"]);
}

#[test]
fn a_log_that_splits_a_character_stops_the_watch() {
    let mut state = apt_run();
    let mut bytes = "é".as_bytes().to_vec();
    bytes.extend(vec![b'x'; 15_999]);
    assert!(watch(&mut state, "/r", WatchEvent::LogRead(bytes)).is_none());
    assert_eq!(state.log, "start\n");
}

#[test]
fn a_preview_ends_where_docker_complains() {
    assert!(end_preview(&output("{}", "", 0)).is_none());
    let outcome = end_preview(&output("", " no daemon\n", 1)).unwrap();
    assert!(!outcome.success);
    assert_eq!(outcome.error.unwrap(), "no daemon");
}

// ---------- approvals ----------

const CANONICAL: &[u8] = b"the canonical bytes";

fn gate() -> GateState {
    GateState::from_keys([1; 32], [2; 32], 1)
}

fn start(program: &str) -> BrokerEvent {
    BrokerEvent::Start {
        frame: TrustedClientFrame::Start {
            request_id: "request-123".into(),
            operation: TrustedOperation::RootCommand {
                program: program.into(),
                args: vec![],
                timeout_secs: 10,
            },
            client_ephemeral_public: [3; 32],
        },
        now: 100,
        policy_version: "p".into(),
    }
}

fn copy(signed: &SignedTrustedManifest) -> SignedTrustedManifest {
    let again = gate().challenge_with_nonce(
        &match start("/usr/bin/id") {
            BrokerEvent::Start { frame, .. } => frame,
            other => panic!("{other:?}"),
        },
        signed.manifest.nonce,
        100,
        "p",
    );
    gate().sign_challenge(again.unwrap(), CANONICAL)
}

fn challenged(state: &GateState) -> (Broker, SignedTrustedManifest, StoredRequest) {
    let broker = Broker::Listening.step(state, start("/usr/bin/id"));
    assert!(matches!(broker, Broker::Encoding { .. }));
    let broker = broker.step(state, BrokerEvent::Encoded(CANONICAL.to_vec()));
    let (signed, row) = match &broker {
        Broker::Storing { challenge, row } => {
            assert_eq!(row.status, "pending");
            assert_eq!(row.manifest, CANONICAL);
            assert_eq!(row.expires_at, 170);
            (
                copy(challenge),
                StoredRequest {
                    manifest: row.manifest.clone(),
                    status: row.status.clone(),
                    expires_at: row.expires_at,
                },
            )
        }
        _ => panic!("not stored"),
    };
    let broker = broker.step(state, BrokerEvent::Stored);
    assert!(matches!(broker, Broker::Challenged { .. }));
    (broker, signed, row)
}

fn error_of(broker: Broker) -> (Option<String>, String) {
    match broker {
        Broker::Refused { told, error } => (told, error),
        _ => panic!("not refused"),
    }
}

fn evidence(key: &[u8; 32], now: i64) -> BrokerEvent {
    let encoded = base64::engine::general_purpose::STANDARD.encode(key);
    BrokerEvent::Evidence {
        canonical: Ok(CANONICAL.to_vec()),
        keyring: Ok(format!(r#"{{"operator":"{encoded}"}}"#)),
        now,
        policy_version: "p".into(),
    }
}

fn checking(state: &GateState) -> (Broker, [u8; 32], StoredRequest) {
    let approver = ed25519_dalek::SigningKey::from_bytes(&[9; 32]);
    let approver_public = approver.verifying_key().to_bytes();
    let (broker, signed, row) = challenged(state);
    let broker = broker.step(
        state,
        BrokerEvent::Reply(TrustedClientFrame::Approve {
            signed_manifest: signed,
            approver_public,
            approver_signature: approver.sign(CANONICAL).to_bytes().to_vec(),
        }),
    );
    assert!(matches!(broker, Broker::Checking { .. }));
    (broker, approver_public, row)
}

#[test]
fn an_approved_request_runs_once() {
    let state = gate();
    let (broker, key, row) = checking(&state);
    let broker = broker.step(&state, evidence(&key, 101));
    assert!(matches!(broker, Broker::LookingUp { now: 101, .. }));
    let broker = broker.step(&state, BrokerEvent::Row(Some(row)));
    assert!(matches!(broker, Broker::Consuming { .. }));
    let broker = broker.step(&state, BrokerEvent::Consumed(1));
    match broker {
        Broker::Running { operation: TrustedOperation::RootCommand { program, .. }, .. } => {
            assert_eq!(program, "/usr/bin/id")
        }
        _ => panic!("not running"),
    }

    let (broker, key, mut row) = checking(&state);
    row.status = "consumed".into();
    let broker = broker.step(&state, evidence(&key, 102));
    let broker = broker.step(&state, BrokerEvent::Row(Some(row)));
    assert_eq!(
        error_of(broker).1,
        "trusted approval was altered, expired, or already consumed"
    );

    let (broker, key, row) = checking(&state);
    let broker = broker.step(&state, evidence(&key, 102));
    let broker = broker.step(&state, BrokerEvent::Row(Some(row)));
    let broker = broker.step(&state, BrokerEvent::Consumed(0));
    assert_eq!(error_of(broker).1, "trusted approval was already consumed");
}

#[test]
fn requests_are_refused_on_the_way() {
    let state = gate();
    let broker = Broker::Listening.step(&state, start("id"));
    assert_eq!(
        error_of(broker),
        (None, "root command program must be a bounded absolute path".into())
    );
    let broker = Broker::Listening.step(&state, BrokerEvent::Failed("gone".into()));
    assert_eq!(error_of(broker), (None, "gone".into()));

    let broker = Broker::Listening.step(&state, start("/usr/bin/id"));
    let broker = broker.step(&state, BrokerEvent::Encoded(CANONICAL.to_vec()));
    let broker = broker.step(&state, BrokerEvent::NotStored);
    assert_eq!(
        error_of(broker),
        (None, "request id already exists or approval database failed".into())
    );

    let (broker, _, _) = challenged(&state);
    let broker = broker.step(&state, BrokerEvent::Reply(TrustedClientFrame::Close));
    let words = "expected signed approval".to_string();
    assert_eq!(error_of(broker), (Some(words.clone()), words));

    let (broker, mut signed, _) = challenged(&state);
    signed.manifest.expires_at += 1;
    let broker = broker.step(
        &state,
        BrokerEvent::Reply(TrustedClientFrame::Approve {
            signed_manifest: signed,
            approver_public: [0; 32],
            approver_signature: vec![],
        }),
    );
    let words = "approved manifest differs from broker challenge".to_string();
    assert_eq!(error_of(broker), (Some(words.clone()), words));

    let (broker, _, _) = checking(&state);
    let stranger = ed25519_dalek::SigningKey::from_bytes(&[5; 32]).verifying_key().to_bytes();
    let broker = broker.step(&state, evidence(&stranger, 101));
    assert_eq!(
        error_of(broker),
        (None, "approver key is not enrolled on this host".into())
    );

    let (broker, key, _) = checking(&state);
    let broker = broker.step(&state, evidence(&key, 101));
    let broker = broker.step(&state, BrokerEvent::Row(None));
    assert_eq!(error_of(broker), (None, "trusted request is unknown".into()));
}

#[test]
fn first_frames_are_answered_with_what_was_drawn() {
    let state = gate();
    let frame = match start("/usr/bin/id") {
        BrokerEvent::Start { frame, .. } => frame,
        other => panic!("{other:?}"),
    };
    match answer_start(&state, &frame, Some([7; 32]), 100, "p") {
        Broker::Encoding { manifest } => assert_eq!(manifest.nonce, [7; 32]),
        _ => panic!("refused"),
    }
    assert_eq!(
        error_of(answer_start(&state, &frame, None, 100, "p")),
        (None, "operating system randomness is unavailable".into())
    );
}

#[test]
fn a_consumed_request_does_not_run_on_a_broker_started_anew() {
    let state = gate();
    let (broker, key, row) = checking(&state);
    let consumed = StoredRequest {
        manifest: row.manifest.clone(),
        status: "consumed".into(),
        expires_at: row.expires_at,
    };
    let broker = broker.step(&state, evidence(&key, 101));
    let broker = broker.step(&state, BrokerEvent::Row(Some(row)));
    assert!(matches!(broker.step(&state, BrokerEvent::Consumed(1)), Broker::Running { .. }));
    let again = gate();
    let (broker, key, _) = checking(&again);
    let broker = broker.step(&again, evidence(&key, 102));
    let broker = broker.step(&again, BrokerEvent::Row(Some(consumed)));
    assert!(matches!(broker, Broker::Refused { .. }));
}

// ---------- uploads in parts ----------

fn opened() -> (MultipartRun, MultipartAction) {
    let (run, action) = begin_multipart("/tmp/a");
    assert!(matches!(action, MultipartAction::Create));
    let (run, action) = run.step(MultipartEvent::Created(Some("u1".into())));
    assert!(matches!(action, MultipartAction::OpenFile(p) if p == "/tmp/a"));
    run.step(MultipartEvent::FileOpened)
}

fn aborted(step: (MultipartRun, MultipartAction)) -> String {
    let (run, action) = step;
    assert!(matches!(action, MultipartAction::Abort { upload_id } if upload_id == "u1"));
    uploaded(run.step(MultipartEvent::Aborted)).unwrap_err()
}

fn uploaded(step: (MultipartRun, MultipartAction)) -> Result<u64, String> {
    assert!(matches!(step.0, MultipartRun::Over));
    match step.1 {
        MultipartAction::Finish(outcome) => outcome,
        other => panic!("{other:?}"),
    }
}

#[test]
fn parts_go_up_one_after_the_other() {
    let (run, action) = opened();
    assert!(matches!(action, MultipartAction::Read { filled: 0 }));
    let (run, action) = run.step(MultipartEvent::Read(10));
    assert!(matches!(action, MultipartAction::Read { filled: 10 }));
    let (run, action) = run.step(MultipartEvent::Read(MULTIPART_CHUNK - 10));
    match action {
        MultipartAction::Send { upload_id, number, filled } => {
            assert_eq!((upload_id.as_str(), number, filled), ("u1", 1, MULTIPART_CHUNK))
        }
        other => panic!("{other:?}"),
    }
    let (run, action) = run.step(MultipartEvent::PartSent(Some("t1".into())));
    assert!(matches!(action, MultipartAction::Read { filled: 0 }));
    let (run, _) = run.step(MultipartEvent::Read(5));
    let (run, action) = run.step(MultipartEvent::Read(0));
    assert!(matches!(action, MultipartAction::Send { number: 2, filled: 5, .. }));
    let (run, _) = run.step(MultipartEvent::PartSent(None));
    let (run, action) = run.step(MultipartEvent::Read(0));
    match action {
        MultipartAction::Complete { upload_id, parts } => {
            assert_eq!(upload_id, "u1");
            assert_eq!(parts.len(), 2);
            assert_eq!((parts[0].number, parts[0].e_tag.as_deref()), (1, Some("t1")));
            assert_eq!((parts[1].number, parts[1].e_tag.as_deref()), (2, None));
        }
        other => panic!("{other:?}"),
    }
    let done = run.step(MultipartEvent::Completed);
    assert_eq!(uploaded(done), Ok(MULTIPART_CHUNK as u64 + 5));
}

#[test]
fn failed_uploads_are_given_up() {
    let (run, _) = begin_multipart("/tmp/a");
    let failed = run.step(MultipartEvent::CreateFailed("denied".into()));
    assert_eq!(uploaded(failed), Err("CreateMultipartUpload: denied".to_string()));
    let (run, _) = begin_multipart("/tmp/a");
    let failed = run.step(MultipartEvent::Created(None));
    assert_eq!(
        uploaded(failed),
        Err("CreateMultipartUpload returned no upload_id".to_string())
    );
    let (run, _) = begin_multipart("/tmp/a");
    let (run, _) = run.step(MultipartEvent::Created(Some("u1".into())));
    assert_eq!(aborted(run.step(MultipartEvent::OpenFailed("gone".into()))), "open /tmp/a: gone");
    let (run, _) = opened();
    assert_eq!(aborted(run.step(MultipartEvent::ReadFailed("io".into()))), "read /tmp/a: io");
    let (run, _) = opened();
    let (run, _) = run.step(MultipartEvent::Read(MULTIPART_CHUNK));
    assert_eq!(aborted(run.step(MultipartEvent::PartFailed("503".into()))), "UploadPart#1: 503");
    let (run, _) = opened();
    let (run, action) = run.step(MultipartEvent::Read(0));
    assert!(matches!(action, MultipartAction::Complete { .. }));
    let failed = run.step(MultipartEvent::CompleteFailed("503".into()));
    assert_eq!(uploaded(failed), Err("CompleteMultipartUpload: 503".to_string()));
}

// ---------- commands ----------

const ALLOW: Option<&str> = Some(r#"["uptime"]"#);

fn exec_over(run: ExecRun) -> ExecResult {
    match run {
        ExecRun::Over { result } => result,
        other => panic!("{other:?}"),
    }
}

fn collected(stdout: &str, limited: bool) -> ExecEvent {
    ExecEvent::Collected {
        stdout: vec![stdout.as_bytes().to_vec()],
        stderr: vec![],
        cap: 4,
        limited,
        duration_ms: 12,
    }
}

#[test]
fn a_listed_command_runs_to_its_end() {
    let run = begin_exec(ALLOW, "uptime", 0);
    match &run {
        ExecRun::Starting { argv, timeout_secs } => {
            assert_eq!(*argv, ["-c", "uptime"]);
            assert_eq!(*timeout_secs, 1);
        }
        other => panic!("{other:?}"),
    }
    let run = run.step(ExecEvent::Started);
    assert!(matches!(run, ExecRun::Waiting { timeout_secs: 1 }));
    let run = run.step(ExecEvent::Ended(WaitEnd::Exited(Some(3))));
    let run = run.step(ExecEvent::ErrEnded(ReaderEnd::Done));
    assert!(matches!(run, ExecRun::Reading { out: None, err: Some(_), .. }));
    let run = run.step(ExecEvent::OutEnded(ReaderEnd::Done));
    assert!(matches!(run, ExecRun::Collecting { .. }));
    let result = exec_over(run.step(collected("abcdef", false)));
    assert_eq!(result.exit_code, 3);
    assert_eq!(result.stdout, "abcd");
    assert_eq!(result.duration_ms, 12);
    assert!(!result.timed_out && !result.truncated && result.error.is_none());
}

#[test]
fn an_overrunning_command_is_killed() {
    let run = begin_exec(ALLOW, "uptime", 9999);
    assert!(matches!(run, ExecRun::Starting { timeout_secs: 3600, .. }));
    let run = run.step(ExecEvent::Started);
    let run = run.step(ExecEvent::Ended(WaitEnd::Deadline));
    assert!(matches!(run, ExecRun::Killing { .. }));
    let run = run.step(ExecEvent::Killed);
    let run = run.step(ExecEvent::OutEnded(ReaderEnd::ReadFailed("io".into())));
    let run = run.step(ExecEvent::GraceOver);
    assert!(matches!(run, ExecRun::Aborting { out: Some(_), err: None, .. }));
    let run = run.step(ExecEvent::Aborted);
    let result = exec_over(run.step(collected("", false)));
    assert_eq!(result.exit_code, -1);
    assert!(result.timed_out && result.truncated);
    assert_eq!(result.error.unwrap(), "reader: io");
}

#[test]
fn commands_that_do_not_start_are_over() {
    let result = exec_over(begin_exec(ALLOW, "uptime; id", 5));
    assert_eq!(result.error.unwrap(), "command blocked by agent execution allow-list");
    let result = exec_over(begin_exec(None, "uptime", 5));
    assert_eq!(result.error.unwrap(), "SHELLFLEET_EXEC_ALLOW_JSON is not configured");
    let run = begin_exec(ALLOW, " uptime ", 5);
    let failed = ExecEvent::StartFailed { error: "no shell".into(), duration_ms: 2 };
    let result = exec_over(run.step(failed));
    assert_eq!(result.error.unwrap(), "spawn failed: no shell");
    assert_eq!(result.duration_ms, 2);
}
