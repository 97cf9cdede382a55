use shellfleet_agent::deploy::{
    collect_log, finish_container, finish_service, not_created, plan_container, plan_service,
    split_command, ContainerSpec, ServiceSpec,
};
use shellfleet_agent::exec::{
    assemble, blocked_result, command_allowed, concatenate, enabled, gate, must_kill,
    parse_command_allowlist, spawn_failed, take_allowlist, timeout_secs, Budget, ReadStep,
    ReaderEnd, WaitEnd,
};
use shellfleet_agent::output::CommandOutput;

fn output(stdout: &str, stderr: &str, code: i32) -> CommandOutput {
    CommandOutput {
        stdout: stdout.to_string(),
        stderr: stderr.to_string(),
        success: code == 0,
        code: Some(code),
    }
}

fn strings(v: &[&str]) -> Vec<String> {
    v.iter().map(|s| s.to_string()).collect()
}

#[test]
fn execution_allowlist_is_required_and_must_be_valid_json() {
    assert!(parse_command_allowlist(None).is_err());
    assert!(parse_command_allowlist(Some("")).is_err());
    assert!(parse_command_allowlist(Some("not-json")).is_err());
    assert!(parse_command_allowlist(Some("[]")).is_err());
}

#[test]
fn execution_allowlist_matches_only_complete_commands() {
    let allow = parse_command_allowlist(Some(r#"["uptime","systemctl restart nginx"]"#)).unwrap();

    assert!(command_allowed("uptime", &allow));
    assert!(command_allowed("  systemctl restart nginx  ", &allow));
    assert!(!command_allowed("uptime; id", &allow));
    assert!(!command_allowed("systemctl restart nginx; id", &allow));
    assert!(!command_allowed("systemctl restart sshd", &allow));
}

#[test]
fn allowlist_errors_are_told_apart() {
    assert_eq!(
        parse_command_allowlist(Some("  ")).unwrap_err(),
        "SHELLFLEET_EXEC_ALLOW_JSON is not configured"
    );
    assert_eq!(
        parse_command_allowlist(Some("[\" \"]")).unwrap_err(),
        "SHELLFLEET_EXEC_ALLOW_JSON must contain at least one command"
    );
    assert_eq!(
        parse_command_allowlist(Some("7")).unwrap_err(),
        "SHELLFLEET_EXEC_ALLOW_JSON must be a JSON array of strings: invalid type: integer `7`, expected a sequence at line 1 column 1"
    );
    assert_eq!(
        take_allowlist(&Err("e".to_string())).unwrap_err(),
        "SHELLFLEET_EXEC_ALLOW_JSON must be a JSON array of strings: e"
    );
    assert_eq!(
        take_allowlist(&Ok(strings(&[" a ", "", "b"]))).unwrap(),
        strings(&["a", "b"])
    );
    assert!(!enabled(None));
    assert!(enabled(Some("[\"id\"]")));
}

#[test]
fn commands_are_let_through_or_blocked() {
    assert!(gate(Some("[\"id\"]"), " id ").is_none());
    let blocked = gate(Some("[\"id\"]"), "id; id").unwrap();
    assert_eq!(blocked.exit_code, -1);
    assert_eq!(
        blocked.error.unwrap(),
        "command blocked by agent execution allow-list"
    );
    assert!(gate(None, "id").unwrap().error.unwrap().ends_with("not configured"));
    assert!(gate(Some("[\"id\"]"), "  ").is_some());
    assert_eq!(blocked_result("x".to_string()).duration_ms, 0);
    let spawn = spawn_failed("enoent", 12);
    assert_eq!((spawn.error.as_deref(), spawn.duration_ms), (Some("spawn failed: enoent"), 12));
}

#[test]
fn timeouts_are_held_between_a_second_and_an_hour() {
    assert_eq!(timeout_secs(0), 1);
    assert_eq!(timeout_secs(59), 59);
    assert_eq!(timeout_secs(u64::MAX), 3600);
}

#[test]
fn the_budget_covers_both_streams() {
    let mut b = Budget { left: 10 };
    assert_eq!(b.read(6), ReadStep::Keep);
    assert_eq!(b.read(6), ReadStep::Last(4));
    assert_eq!(b.read(1), ReadStep::Last(0));
    assert_eq!(b.read(0), ReadStep::End);
}

#[test]
fn chunks_are_put_together_up_to_the_cap() {
    let chunks = vec![b"ab".to_vec(), b"cd".to_vec(), b"ef".to_vec()];
    assert_eq!(concatenate(&chunks, 100), "abcdef");
    assert_eq!(concatenate(&chunks, 3), "abc");
    assert_eq!(concatenate(&chunks, 0), "");
    assert_eq!(concatenate(&[b"\xc3".to_vec(), b"\xa9".to_vec()], 9), "é");
}

#[test]
fn results_are_assembled() {
    let done = assemble(
        &WaitEnd::Exited(Some(3)),
        &ReaderEnd::Done,
        &ReaderEnd::Done,
        "o".to_string(),
        "e".to_string(),
        false,
        5,
    );
    assert_eq!(done.exit_code, 3);
    assert!(!done.truncated && !done.timed_out && done.error.is_none());
    let late = assemble(
        &WaitEnd::Deadline,
        &ReaderEnd::ReadFailed("a".to_string()),
        &ReaderEnd::JoinFailed("b".to_string()),
        String::new(),
        String::new(),
        false,
        5,
    );
    assert_eq!(late.exit_code, -1);
    assert!(late.truncated && late.timed_out);
    assert_eq!(late.error.unwrap(), "stdout: reader: a, stderr: join: b");
    let cut = assemble(
        &WaitEnd::Limit,
        &ReaderEnd::Aborted,
        &ReaderEnd::Done,
        String::new(),
        String::new(),
        false,
        5,
    );
    assert!(cut.truncated && cut.error.is_none());
    assert!(must_kill(&WaitEnd::Limit) && must_kill(&WaitEnd::Deadline));
    assert!(!must_kill(&WaitEnd::Exited(None)));
}

#[test]
fn command_lines_are_split_like_a_shell_does() {
    assert_eq!(split_command("  a  b\tc "), strings(&["a", "b", "c"]));
    assert_eq!(split_command("'a b' \"c 'd\""), strings(&["a b", "c 'd"]));
    assert_eq!(split_command("a\\ b\\\\"), strings(&["a b\\"]));
    assert_eq!(split_command("x'y'z"), strings(&["xyz"]));
    assert!(split_command("'' \"\"").is_empty());
    assert_eq!(split_command("a \\i\\f"), strings(&["a", "if"]));
}

fn container() -> ContainerSpec {
    ContainerSpec {
        image: "nginx".to_string(),
        name: Some(" web ".to_string()),
        ports: strings(&["80:80", " "]),
        env: strings(&["A=1"]),
        volumes: strings(&["/a:/b"]),
        restart_policy: Some("always".to_string()),
        network: Some("net".to_string()),
        pull: true,
        detached: true,
        command: Some("sh -c 'echo hi'".to_string()),
    }
}

#[test]
fn containers_are_planned() {
    let mut spec = container();
    assert_eq!(
        plan_container(&spec).unwrap(),
        strings(&[
            "run", "-d", "--name", "web", "-p", "80:80", "-e", "A=1", "-v", "/a:/b", "--restart",
            "always", "--network", "net", "--pull", "always", "nginx", "sh", "-c", "echo hi",
        ])
    );
    spec.restart_policy = Some(" no ".to_string());
    assert!(!plan_container(&spec).unwrap().contains(&"--restart".to_string()));
    spec.image = "  ".to_string();
    assert_eq!(plan_container(&spec).unwrap_err(), "image is required");
}

#[test]
fn services_are_planned() {
    let mut spec = ServiceSpec {
        image: "nginx".to_string(),
        name: " web ".to_string(),
        mode: None,
        replicas: Some(3),
        ports: strings(&["80"]),
        env: Vec::new(),
        mounts: strings(&["m"]),
        constraints: strings(&["c"]),
        networks: strings(&["n"]),
        restart_condition: Some("any".to_string()),
        command: None,
    };
    assert_eq!(
        plan_service(&spec).unwrap(),
        strings(&[
            "service", "create", "--detach=true", "--name", "web", "--replicas", "3", "--publish",
            "80", "--mount", "m", "--constraint", "c", "--network", "n", "--restart-condition",
            "any", "nginx",
        ])
    );
    spec.mode = Some("global".to_string());
    let args = plan_service(&spec).unwrap();
    assert!(args.contains(&"--mode".to_string()) && !args.contains(&"--replicas".to_string()));
    spec.name = String::new();
    assert_eq!(plan_service(&spec).unwrap_err(), "name is required");
}

#[test]
fn creations_report() {
    let c = finish_container(&output("pulling\n abc123 \n", "", 0));
    assert_eq!(c.id.as_deref(), Some("abc123"));
    let s = finish_service(&output("\n  svc1 \noverall progress\n", "w", 0));
    assert_eq!(s.id.as_deref(), Some("svc1"));
    assert_eq!(s.log, "\n  svc1 \noverall progress\n\nw");
    let bad = finish_container(&output("abc", "no", 125));
    assert_eq!((bad.id, bad.error.as_deref()), (None, Some("exit code Some(125)")));
    assert_eq!(finish_service(&output("", "", 0)).id, None);
    assert_eq!(collect_log("", "e"), "e");
    assert_eq!(not_created("x").error.as_deref(), Some("x"));
}
