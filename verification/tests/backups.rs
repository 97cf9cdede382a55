use shellfleet_agent::backup::{
    add_page, archive_name, backup_roots, check_restore_root, configured_backup_roots, create_argv,
    extract_argv, finish_local, finish_restore, finish_upload, list_prefix, local_archives,
    next_page, parse_dest, part_failed, path_join, plan_backup, plan_upload, restore_source,
    s3_key, s3_restore_max_bytes, s3_uri, sort_newest_first, within_roots, BackupArchive,
    BackupMode, Dest, LocalEntry, LocalMeta, PartStep, PartsUpload, RestoreMeter, RestoreSource,
    Root, S3Object, Source, Upload, MULTIPART_CHUNK, MULTIPART_THRESHOLD,
    S3_RESTORE_MAX_BYTES_DEFAULT,
};
use shellfleet_agent::output::CommandOutput;
use shellfleet_agent::paths::{is_under, normalize_lexical};

fn root(path: &str) -> Root {
    Root {
        path: path.to_string(),
        canonical: None,
    }
}

fn source(path: &str, exists: bool) -> Source {
    Source {
        path: path.to_string(),
        exists,
        canonical: None,
    }
}

fn output(stdout: &str, stderr: &str, code: i32) -> CommandOutput {
    CommandOutput {
        stdout: stdout.to_string(),
        stderr: stderr.to_string(),
        success: code == 0,
        code: Some(code),
    }
}

fn archive(name: &str, mtime: i64) -> BackupArchive {
    BackupArchive {
        name: name.to_string(),
        uri: name.to_string(),
        bytes: 1,
        mtime,
    }
}

#[test]
fn normalize_resolves_dotdot() {
    assert_eq!(normalize_lexical(b"/srv/data/../etc"), b"/srv/etc");
    assert_eq!(normalize_lexical(b"/a/./b"), b"/a/b");
}

#[test]
fn normalize_agrees_with_the_standard_library() {
    for p in [
        "", ".", "..", "/", "//", "/..", "a", "./a", "a/..", "a/../..", "/a//b/", "a/./../b/c/..",
        "/../../x", "//a/b/../..",
    ] {
        let mut out = std::path::PathBuf::new();
        for comp in std::path::Path::new(p).components() {
            match comp {
                std::path::Component::ParentDir => {
                    out.pop();
                }
                std::path::Component::CurDir => {}
                other => out.push(other.as_os_str()),
            }
        }
        let ours = normalize_lexical(p.as_bytes());
        assert_eq!(ours, out.to_str().unwrap().as_bytes(), "{p}");
        assert_eq!(normalize_lexical(&ours), ours, "{p}");
    }
}

#[test]
fn under_goes_by_components() {
    assert!(is_under(b"/srv/backups/db", b"/srv/backups"));
    assert!(!is_under(b"/srv/backups2", b"/srv/backups"));
    assert!(is_under(b"/a/b", b"/"));
    assert!(is_under(b"x/y", b""));
}

#[test]
fn within_roots_allows_inside() {
    let roots = vec![root("/srv/backups")];
    assert!(within_roots("/srv/backups/db", None, &roots));
    assert!(within_roots("/srv/backups", None, &roots));
}

#[test]
fn within_roots_rejects_outside_and_traversal() {
    let roots = vec![root("/srv/backups")];
    assert!(!within_roots("/etc/shadow", None, &roots));
    // `..` escape out of an allowed root must be denied.
    assert!(!within_roots("/srv/backups/../../etc", None, &roots));
}

#[test]
fn within_roots_follows_links() {
    let roots = vec![root("/srv/backups")];
    assert!(!within_roots("/srv/backups/link", Some(b"/etc"), &roots));
    assert!(within_roots(
        "/srv/backups/link",
        Some(b"/srv/backups/real"),
        &roots
    ));
    let moved = vec![Root {
        path: "/srv/backups".to_string(),
        canonical: Some(b"/mnt/backups".to_vec()),
    }];
    assert!(within_roots("/srv/backups/a", Some(b"/mnt/backups/a"), &moved));
    assert!(!within_roots("/srv/backups/a", Some(b"/srv/backups/a"), &moved));
}

#[test]
fn backup_roots_are_restrictive_without_configuration() {
    assert_eq!(
        configured_backup_roots(None),
        vec!["/var/lib/shellfleet", "/var/backups/shellfleet"]
    );
}

#[test]
fn configured_roots_replace_the_defaults() {
    assert_eq!(configured_backup_roots(Some(" /a : :/b")), vec!["/a", "/b"]);
    assert_eq!(configured_backup_roots(Some(" : ")).len(), 2);
    assert!(backup_roots(Some("1"), None).is_none());
    assert_eq!(backup_roots(Some("yes"), Some("/x")).unwrap(), vec!["/x"]);
}

#[test]
fn parse_dest_round_trips() {
    assert!(matches!(parse_dest("/var/x"), Ok(Dest::Local(_))));
    assert!(matches!(parse_dest("file:///var/x"), Ok(Dest::Local(_))));
    assert!(matches!(
        parse_dest("s3://bucket/prefix"),
        Ok(Dest::S3 { .. })
    ));
    assert!(parse_dest("s3://").is_err());
    assert!(parse_dest("ftp://x").is_err());
}

#[test]
fn destinations_are_taken_apart() {
    match parse_dest(" s3://bucket/a/b// ").unwrap() {
        Dest::S3 { bucket, prefix } => {
            assert_eq!((bucket.as_str(), prefix.as_str()), ("bucket", "a/b"));
        }
        Dest::Local(_) => panic!("not local"),
    }
    match parse_dest("file:///var/x").unwrap() {
        Dest::Local(path) => assert_eq!(path, "/var/x"),
        Dest::S3 { .. } => panic!("not s3"),
    }
    assert_eq!(parse_dest("  ").unwrap_err(), "dest is empty");
    assert_eq!(
        parse_dest("s3:///x").unwrap_err(),
        "s3 dest must include a bucket"
    );
    assert_eq!(
        parse_dest("ftp://\"x").unwrap_err(),
        "unsupported destination scheme \"ftp://\\\"x\" — supported: local path, file://…, s3://bucket/prefix"
    );
}

#[test]
fn plans_say_why_not() {
    let roots = vec![root("/srv")];
    let some = vec![source("/srv/a", true)];
    let fail = |sources: &[Source], dest: &str, mode: BackupMode| {
        plan_backup(sources, dest, mode, Some(&roots)).unwrap_err()
    };
    assert_eq!(
        fail(&some, "/d", BackupMode::Restic),
        "restic mode is not implemented in this agent build"
    );
    assert_eq!(fail(&some, "", BackupMode::Tar), "dest is empty");
    assert_eq!(fail(&[], "/d", BackupMode::Tar), "paths is empty");
    assert_eq!(
        fail(&[source("/srv/a", false)], "/d", BackupMode::Tar),
        "no requested paths exist on this host"
    );
    assert_eq!(
        fail(
            &[source("/etc", true), source("/srv/a", true), source("/srv/../x", true)],
            "/d",
            BackupMode::Tar
        ),
        "path(s) outside SHELLFLEET_BACKUP_ROOTS allow-list: /etc, /srv/../x"
    );
}

#[test]
fn plans_warn_of_missing_paths() {
    let sources = vec![source("/a", true), source("/b", false), source("/c", false)];
    let plan = plan_backup(&sources, "/d", BackupMode::Tar, None).unwrap();
    assert_eq!(plan.existing, vec!["/a"]);
    assert_eq!(plan.log, "WARN: skipping missing path(s): /b /c \n");
    let plan = plan_backup(&sources[..1], "/d", BackupMode::Tar, None).unwrap();
    assert_eq!(plan.log, "");
}

#[test]
fn archives_are_named_and_placed() {
    assert_eq!(archive_name("etc", 1700000000), "etc-1700000000.tar.gz");
    assert_eq!(path_join("/d", "x"), "/d/x");
    assert_eq!(path_join("/d/", "x"), "/d/x");
    assert_eq!(path_join("", "x"), "x");
    assert_eq!(path_join("/d", "/x"), "/x");
    assert_eq!(s3_key("", "x"), "x");
    assert_eq!(s3_key("p/q", "x"), "p/q/x");
    assert_eq!(s3_uri("b", "k"), "s3://b/k");
    assert_eq!(
        create_argv("/d/x", &["/a".to_string()]),
        ["--ignore-failed-read", "-czf", "/d/x", "/a"]
    );
}

#[test]
fn local_backups_report() {
    let ok = finish_local("w\n".to_string(), &output("o", "e", 0), "/d/x", 12).unwrap();
    assert!(ok.success);
    assert_eq!(ok.archive_uri, "/d/x");
    assert_eq!(ok.bytes, 12);
    assert_eq!(ok.log, "w\no--- stderr ---\newrote /d/x (12 bytes)\n");
    assert_eq!(ok.error, None);
    let bad = finish_local(String::new(), &output("", "", 2), "/d/x", 12).unwrap();
    assert!(!bad.success);
    assert_eq!(bad.archive_uri, "");
    assert_eq!(bad.error.unwrap(), "tar exit Some(2)");
    // 7999 bytes of two-byte characters and one more: no cut at a character.
    let wide = "é".repeat(4001);
    assert!(finish_local(String::new(), &output(&wide, "x", 0), "/d", 0).is_none());
}

#[test]
fn uploads_are_planned_by_size() {
    let small = plan_upload(String::new(), &output("", "", 0), 5).unwrap();
    match small {
        Upload::Single { log } => assert_eq!(log, "uploading 5 bytes via PutObject\n"),
        _ => panic!("small files go up at once"),
    }
    let large = plan_upload(String::new(), &output("", "", 0), MULTIPART_THRESHOLD).unwrap();
    match large {
        Upload::Multipart { log } => assert_eq!(
            log,
            "uploading 67108864 bytes via multipart (16777216-byte chunks)\n"
        ),
        _ => panic!("large files go up in parts"),
    }
    match plan_upload(String::new(), &output("", "no", 1), 5).unwrap() {
        Upload::Stop(report) => {
            assert_eq!(report.log, "--- tar stderr ---\nno");
            assert_eq!(report.error.unwrap(), "tar exit Some(1)");
        }
        _ => panic!("tar failed"),
    }
    let done = finish_upload("l\n".to_string(), "s3://b/k", &Ok(7)).unwrap();
    assert_eq!(done.log, "l\nwrote s3://b/k (7 bytes)\n");
    let lost = finish_upload("l\n".to_string(), "s3://b/k", &Err("e".to_string())).unwrap();
    assert_eq!((lost.success, lost.error.as_deref()), (false, Some("e")));
}

#[test]
fn parts_are_numbered_and_counted() {
    let mut up = PartsUpload::new();
    assert_eq!(up.read(10), PartStep::Read { filled: 10 });
    assert_eq!(
        up.read(MULTIPART_CHUNK - 10),
        PartStep::Send {
            number: 1,
            filled: MULTIPART_CHUNK
        }
    );
    up.sent(Some("t1".to_string()));
    assert_eq!(up.read(3), PartStep::Read { filled: 3 });
    assert_eq!(up.read(0), PartStep::Send { number: 2, filled: 3 });
    up.sent(None);
    assert_eq!(up.read(0), PartStep::Complete);
    let (parts, total) = up.done();
    assert_eq!(total, MULTIPART_CHUNK as u64 + 3);
    assert_eq!(parts.len(), 2);
    assert_eq!(parts[0].e_tag.as_deref(), Some("t1"));
    assert_eq!(parts[1].number, 2);
    assert_eq!(part_failed(2, "x"), "UploadPart#2: x");
}

#[test]
fn archives_come_newest_first_and_keep_their_order() {
    let list = vec![archive("a", 1), archive("b", 5), archive("c", 1), archive("d", 5)];
    let names: Vec<String> = sort_newest_first(&list).into_iter().map(|a| a.name).collect();
    assert_eq!(names, ["b", "d", "a", "c"]);
}

#[test]
fn only_archives_are_listed() {
    let entry = |name: Option<&str>, meta: Option<LocalMeta>| LocalEntry {
        name: name.map(String::from),
        path: format!("/d/{}", name.unwrap_or("?")),
        meta,
    };
    let meta = |mtime: Option<i64>| Some(LocalMeta { bytes: 3, mtime });
    let list = local_archives(&[
        entry(Some("a.tar.gz"), meta(None)),
        entry(Some("b.txt"), meta(Some(9))),
        entry(Some("c.tar.gz"), None),
        entry(None, meta(Some(9))),
        entry(Some("d.tar.gz"), meta(Some(7))),
    ]);
    assert_eq!(list.len(), 2);
    assert_eq!((list[0].name.as_str(), list[0].uri.as_str()), ("d.tar.gz", "/d/d.tar.gz"));
    assert_eq!((list[1].name.as_str(), list[1].mtime), ("a.tar.gz", 0));

    let mut found = Vec::new();
    add_page(
        &mut found,
        "bkt",
        &[
            S3Object {
                key: Some("p/x.tar.gz".to_string()),
                size: Some(-4),
                modified: Some(2),
            },
            S3Object {
                key: None,
                size: None,
                modified: None,
            },
            S3Object {
                key: Some("p/y.zip".to_string()),
                size: None,
                modified: None,
            },
        ],
    );
    assert_eq!(found.len(), 1);
    assert_eq!(found[0].name, "x.tar.gz");
    assert_eq!(found[0].uri, "s3://bkt/p/x.tar.gz");
    assert_eq!(found[0].bytes, 0);
}

#[test]
fn pages_follow_each_other() {
    assert_eq!(list_prefix(""), None);
    assert_eq!(list_prefix("p").unwrap(), "p/");
    let token = Some("t".to_string());
    assert_eq!(next_page(Some(true), token.clone()), token);
    assert_eq!(next_page(Some(false), token.clone()), None);
    assert_eq!(next_page(None, token), None);
    assert_eq!(next_page(Some(true), None), None);
}

#[test]
fn restores_are_confined_and_explained() {
    let roots = vec![root("/srv")];
    assert_eq!(
        check_restore_root("  ", None, Some(&roots)).unwrap_err(),
        "dest_root is empty"
    );
    assert_eq!(
        check_restore_root(" /etc ", None, Some(&roots)).unwrap_err(),
        "restore dest_root \"/etc\" is outside the SHELLFLEET_BACKUP_ROOTS allow-list"
    );
    assert_eq!(check_restore_root(" /srv/x ", None, Some(&roots)).unwrap(), "/srv/x");
    assert_eq!(check_restore_root("/etc", None, None).unwrap(), "/etc");
}

#[test]
fn archive_addresses_read_back() {
    match restore_source(&s3_uri("b", "k/l.tar.gz")).unwrap() {
        RestoreSource::S3 { bucket, key } => {
            assert_eq!((bucket.as_str(), key.as_str()), ("b", "k/l.tar.gz"));
        }
        RestoreSource::Local(_) => panic!("not local"),
    }
    match restore_source("file:///x").unwrap() {
        RestoreSource::Local(path) => assert_eq!(path, "/x"),
        RestoreSource::S3 { .. } => panic!("not s3"),
    }
    assert_eq!(
        restore_source("s3://b/").unwrap_err(),
        "malformed archive URI: s3://b/"
    );
    assert_eq!(extract_argv("-", "/r")[..4], ["-xzf", "-", "-C", "/r"]);
    assert_eq!(extract_argv("-", "/r").len(), 9);
}

#[test]
fn restores_stop_at_their_limit() {
    let mut meter = RestoreMeter { total: 0, max: 10 };
    assert!(meter.take(10).is_ok());
    assert_eq!(
        meter.take(1).unwrap_err(),
        "S3 GetObject body exceeded SHELLFLEET_S3_RESTORE_MAX_BYTES (10 bytes); aborting restore"
    );
    let mut full = RestoreMeter {
        total: u64::MAX,
        max: u64::MAX,
    };
    assert!(full.take(5).is_ok());
    assert_eq!(s3_restore_max_bytes(None), S3_RESTORE_MAX_BYTES_DEFAULT);
    assert_eq!(s3_restore_max_bytes(Some("x")), 50 * 1024 * 1024 * 1024);
    assert_eq!(s3_restore_max_bytes(Some("17")), 17);
}

#[test]
fn restores_report() {
    let s3 = RestoreSource::S3 {
        bucket: "b".to_string(),
        key: "k".to_string(),
    };
    let done = finish_restore(&s3, "/r", &output("hidden", "e", 0)).unwrap();
    assert_eq!(done.log, "--- tar stderr ---\nerestored s3://b/k into /r\n");
    let local = RestoreSource::Local("/a".to_string());
    let bad = finish_restore(&local, "/r", &output("shown", "", 3)).unwrap();
    assert_eq!(bad.log, "shown");
    assert_eq!(bad.error.unwrap(), "tar exit Some(3)");
}
