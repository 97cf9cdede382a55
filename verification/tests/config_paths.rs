use shellfleet_agent::config::{check, check_read, check_write, write_target, PathError, Resolution};

#[test]
fn rejects_relative() {
    assert!(matches!(check("etc/passwd"), Err(PathError::NotAbsolute)));
}

#[test]
fn rejects_dotdot_climb() {
    // /etc/../etc/shadow resolves to /etc/shadow (deny).
    assert!(matches!(
        check("/etc/../etc/shadow"),
        Err(PathError::BlockedByDenyList(_))
    ));
    // /etc/../../etc resolves to /etc (allow).
    assert!(check("/etc/../../etc/").is_ok());
}

#[test]
fn blocks_shadow_family() {
    for p in [
        "/etc/shadow",
        "/etc/shadow-",
        "/etc/shadow.bak",
        "/etc/gshadow",
        "/etc/sudoers",
        "/etc/sudoers.d/x",
    ] {
        assert!(
            matches!(check(p), Err(PathError::BlockedByDenyList(_))),
            "should block {p}"
        );
    }
}

#[test]
fn blocks_ssh() {
    assert!(matches!(
        check("/etc/ssh/sshd_config"),
        Err(PathError::BlockedByDenyList(_))
    ));
    assert!(matches!(
        check("/root/.ssh/authorized_keys"),
        Err(PathError::BlockedByDenyList(_))
    ));
}

#[test]
fn blocks_agent_token() {
    assert!(matches!(
        check("/etc/shellfleet/agent-token.txt"),
        Err(PathError::BlockedByDenyList(_))
    ));
}

#[test]
fn blocks_proc_sys_dev() {
    for p in [
        "/proc/self/environ",
        "/sys/class/net/eth0/address",
        "/dev/sda",
    ] {
        assert!(matches!(check(p), Err(PathError::BlockedByDenyList(_))));
    }
}

#[test]
fn allows_typical_config_paths() {
    for p in [
        "/etc/nginx/nginx.conf",
        "/etc/hostname",
        "/opt/myapp/config.toml",
        "/usr/local/etc/foo",
        "/var/log/syslog",
        "/srv/data/notes.txt",
    ] {
        assert!(check(p).is_ok(), "should allow {p}");
    }
}

#[test]
fn empty_and_unlisted_paths_are_refused() {
    assert!(matches!(check(""), Err(PathError::Empty)));
    assert!(matches!(check("/tmp/x"), Err(PathError::OutsideAllowList)));
}

#[test]
fn refusals_have_words() {
    assert_eq!(PathError::NotAbsolute.to_text(), "path must be absolute");
    assert_eq!(
        check("/etc/shadow").unwrap_err().to_text(),
        check("/etc/./shadow").unwrap_err().to_text()
    );
}

#[test]
fn checked_paths_check_again_to_themselves() {
    let once = check("/etc/nginx/../nginx/./nginx.conf").unwrap();
    assert_eq!(once, "/etc/nginx/nginx.conf");
    assert_eq!(check(&once).unwrap(), once);
}

#[test]
fn a_link_out_of_the_allowed_tree_is_not_read() {
    let linked = Resolution::Found("/etc/shadow".to_string());
    assert!(matches!(
        check_read("/etc/nginx/link", &linked),
        Err(PathError::BlockedByDenyList(_))
    ));
    let inside = Resolution::Found("/etc/nginx/real.conf".to_string());
    assert_eq!(
        check_read("/etc/nginx/link", &inside).unwrap(),
        "/etc/nginx/real.conf"
    );
    let lost = Resolution::Failed("No such file".to_string());
    assert!(matches!(
        check_read("/etc/nginx/link", &lost),
        Err(PathError::ResolveFailed(_))
    ));
    assert!(matches!(
        check_read("/etc/nginx/link", &Resolution::NotUtf8),
        Err(PathError::InvalidUtf8)
    ));
}

#[test]
fn a_write_goes_into_the_resolved_directory() {
    let (dir, name) = write_target("/etc/nginx/a.conf").unwrap();
    assert_eq!((dir.as_str(), name.as_str()), ("/etc/nginx", "a.conf"));
    let found = Resolution::Found("/etc/nginx".to_string());
    let (dir, name) = check_write("/etc/nginx/a.conf", &found).unwrap();
    assert_eq!((dir.as_str(), name.as_str()), ("/etc/nginx", "a.conf"));
    let away = Resolution::Found("/root/.ssh".to_string());
    assert!(check_write("/etc/nginx/a.conf", &away).is_err());
    let linked = Resolution::Found("/etc".to_string());
    assert_eq!(
        check_write("/opt/link/shadow", &linked).unwrap_err().to_text(),
        "path matches deny-list: /etc/shadow (parent resolved from /opt/link/shadow)"
    );
    assert!(check_write("/opt/link/hosts", &linked).is_ok());
    let parent = Resolution::Found("/etc/ssh".to_string());
    assert_eq!(
        check_write("/opt/link/x", &parent).unwrap_err().to_text(),
        "path matches deny-list: /etc/ssh/ (parent resolved from /opt/link/x)"
    );
}

#[test]
fn spelling_does_not_matter() {
    let plain = check("/etc/nginx/a.conf").unwrap();
    for path in ["/etc//nginx/a.conf", "/etc/./nginx/a.conf", "/etc/x/../nginx/a.conf"] {
        assert_eq!(check(path).unwrap(), plain);
        assert_eq!(write_target(path).unwrap(), write_target("/etc/nginx/a.conf").unwrap());
    }
    for path in ["/etc//shadow", "/etc/./shadow", "/opt/../etc/shadow", "//etc/shadow"] {
        assert_eq!(
            check(path).unwrap_err().to_text(),
            check("/etc/shadow").unwrap_err().to_text()
        );
    }
    assert_eq!(check("/etc/nginx//").unwrap(), check("/etc/nginx/").unwrap());
}
