use shellfleet_agent::agent::{
    bearer, capabilities, device_url, first_error, is_idle, listing, poll_step, require_manager,
    stored_token, update_capabilities, OutgoingSendError, PollStep, Sessions, StartTerminal,
    Target, TokenReply,
};
use shellfleet_agent::apt::{
    finish_refresh, judge_result, judge_start, judge_unit, last_apt_update_secs, list_upgradable,
    parse_apt_list, plan_upgrade, read_unit_state, take_log, truncate_log, upgrade_script,
    validate_package_arg, watched_file, AptRunState, UnitState,
};
use shellfleet_agent::docker::SwarmRole;
use shellfleet_agent::journal;
use shellfleet_agent::journal_stream::{build_argv, is_safe_since, JournalStreams, StreamArgs};
use shellfleet_agent::k8s_exec::{banner, exec_command, ExecArgs};
use shellfleet_agent::k8s_logs::{end_error, tail_lines, K8sLogStreams, PodLogEnd};
use shellfleet_agent::logs::{self, LogStreams};
use shellfleet_agent::output::CommandOutput;
use shellfleet_agent::systemd::{finish_control, list_services, plan_control, read_plain, UnitRow};
use shellfleet_agent::terminal::{pick_login_shell, plan_docker_exec, TerminalSession};

fn output(stdout: &str, stderr: &str, code: i32) -> CommandOutput {
    CommandOutput {
        stdout: stdout.to_string(),
        stderr: stderr.to_string(),
        success: code == 0,
        code: Some(code),
    }
}

fn strings(v: &[&str]) -> Vec<String> {
    v.iter().map(|s| s.to_string()).collect()
}

#[test]
fn accepts_debian_package_name_characters() {
    assert!(validate_package_arg("linux-image-6.8.0-40-generic").is_ok());
    assert!(validate_package_arg("libc6:amd64").is_ok());
    assert!(validate_package_arg("shellfleet-agent").is_ok());
}

#[test]
fn rejects_option_or_shell_like_package_names() {
    assert!(validate_package_arg("-oDpkg::Options::=--force").is_err());
    assert!(validate_package_arg("pkg;reboot").is_err());
    assert!(validate_package_arg("").is_err());
    assert!(validate_package_arg("curl-").is_err());
}

#[test]
fn package_errors_are_told_apart() {
    assert_eq!(validate_package_arg("").unwrap_err(), "empty package name");
    assert_eq!(
        validate_package_arg("curl-").unwrap_err(),
        "package name must not start or end with '-'"
    );
    assert_eq!(
        validate_package_arg("a b").unwrap_err(),
        "package name contains unsupported characters"
    );
}

#[test]
fn generated_wrapper_runs_automatic_dpkg_recovery() {
    let text = upgrade_script("/tmp/apt-run.log", "/tmp/apt-run.result");

    assert!(text.contains("apt-get -y upgrade"));
    assert!(text.contains("apt-get -y install --only-upgrade"));
    assert!(text.contains("dpkg --configure -a"));
    assert!(text.contains("apt-get -y -f install"));
    assert!(text.contains("printf 'success\\n'"));
    assert!(text.contains("printf 'failed:%s\\n'"));

    assert!(text.starts_with("#!/bin/sh\nset -u\n"));
    assert!(text.contains("\nLOG_FILE=\"/tmp/apt-run.log\"\nRESULT_FILE=\"/tmp/apt-run.result\"\n"));
    assert!(text.contains("\nPKG=\"${2:-}\"\n"));
    assert!(text.ends_with("\n} > \"$LOG_FILE\" 2>&1\n"));
}

#[test]
fn package_lists_are_read() {
    let list = parse_apt_list(
        "Listing... Done\n\nshellfleet-agent/now 1.1.0-ci amd64 [upgradable from: 1.0.0]\nWARNING: x y\ncurl/stable,now 8.1 amd64\nlonely\n/src 1 a\n",
    );
    assert_eq!(list.len(), 2);
    assert_eq!(list[0].name, "shellfleet-agent");
    assert_eq!(list[0].source, "now");
    assert_eq!(list[0].new_version, "1.1.0-ci");
    assert_eq!(list[0].current_version, "1.0.0");
    assert_eq!(list[1].source, "stable,now");
    assert_eq!(list[1].current_version, "");
    assert_eq!(list_upgradable(&output("", " no \n", 1)).unwrap_err(), "no");
    assert_eq!(list_upgradable(&output("a/b 1 c", "", 0)).unwrap().len(), 1);
}

#[test]
fn refreshes_report() {
    let r = finish_refresh(&output("got", "warn", 100)).unwrap();
    assert_eq!(r.log, "got\n--- stderr ---\nwarn");
    assert_eq!(r.error.unwrap(), "exit code Some(100)");
    let long = "x".repeat(4001);
    let r = finish_refresh(&output(&long, "", 0)).unwrap();
    assert!(r.log.starts_with("…[1 bytes truncated]…\nxxx"));
    assert!(truncate_log("é".repeat(3).as_bytes(), 1).is_none());
    assert_eq!(truncate_log(b"a\xff", 10).unwrap(), "a\u{fffd}");
    assert_eq!(last_apt_update_secs(&[None, Some(7)]), 7);
    assert_eq!(last_apt_update_secs(&[None, None]), 0);
}

#[test]
fn upgrades_are_planned() {
    let start = plan_upgrade(Some("curl".to_string()), 1700, 42).unwrap();
    assert_eq!(
        start.argv,
        strings(&[
            "--unit",
            "shellfleet-apt-1700-42.service",
            "--description",
            "shellfleet apt upgrade",
            "--property=Restart=no",
            "--property=TimeoutStartSec=0",
            "--no-block",
            "/bin/sh",
            "/var/lib/shellfleet/apt-run-1700-42.sh",
            "package",
            "curl",
        ])
    );
    assert_eq!(start.state.bytes_written, start.state.log.len());
    assert_eq!(
        start.state.result_path.as_deref(),
        Some("/var/lib/shellfleet/apt-run-1700-42.result")
    );
    assert!(start.script.contains("/var/lib/shellfleet/apt-run-1700-42.log"));
    let all = plan_upgrade(None, 1, 2).unwrap();
    assert_eq!(all.argv.last().map(String::as_str), Some("all"));
    assert!(plan_upgrade(Some("-x".to_string()), 1, 2).is_err());
    assert!(judge_start(&output("", "", 0)).is_ok());
    assert_eq!(
        judge_start(&output(" busy ", " ", 1)).unwrap_err(),
        "systemd-run failed: busy"
    );
}

fn run() -> AptRunState {
    plan_upgrade(None, 5, 6).unwrap().state
}

#[test]
fn upgrades_are_watched() {
    let mut state = run();
    assert!(watched_file(&state).unwrap().ends_with(".result"));
    assert!(take_log(&mut state, b"hello"));
    assert_eq!((state.log.as_str(), state.bytes_written), ("hello", 5));
    let done = judge_result(&state, " success\n");
    assert!(done.success && done.error.is_none() && done.log == "hello");
    let failed = judge_result(&state, "failed:100\n");
    assert_eq!(failed.error.unwrap(), "apt unit failed:100");
    state.log = String::new();
    assert_eq!(
        judge_result(&state, "success").log,
        "[shellfleet] apt unit completed with no captured log\n"
    );
    state.result_path = None;
    let old = watched_file(&state).unwrap_err();
    assert_eq!(
        old.error.unwrap(),
        "older agent interrupted apt before detached execution was available"
    );
}

#[test]
fn units_are_judged() {
    let unit = read_unit_state(&output(
        "LoadState=loaded\nActiveState=failed\nResult=exit-code\nOther=1\n",
        "",
        0,
    ))
    .unwrap();
    assert_eq!((unit.load.as_str(), unit.active.as_str()), ("loaded", "failed"));
    let report = judge_unit(&run(), &unit).unwrap();
    assert!(report.log.ends_with(
        "\n[shellfleet] apt transient unit ended unexpectedly: load=loaded active=failed result=exit-code\n"
    ));
    assert!(read_unit_state(&output("", "", 1)).is_none());
    let alive = UnitState {
        load: "loaded".to_string(),
        active: "active".to_string(),
        result: "success".to_string(),
    };
    assert!(judge_unit(&run(), &alive).is_none());
    let lost = UnitState {
        load: "not-found".to_string(),
        active: "inactive".to_string(),
        result: "success".to_string(),
    };
    assert!(judge_unit(&run(), &lost).is_some());
}

#[test]
fn plain_service_lists_are_read() {
    let list = read_plain(
        "ssh.service loaded active running OpenSSH server \n● bad.service not-found inactive dead bad\nUNIT LOAD\n\n",
    );
    assert_eq!(list.len(), 2);
    assert_eq!(list[0].name, "ssh.service");
    assert_eq!(list[0].active_state, "active");
    assert_eq!(list[0].status, "running");
    assert_eq!(list[0].description, "OpenSSH server");
    assert_eq!(list[1].name, "bad.service");
    let padded = output("ssh.service  loaded active running OpenSSH server\n", "", 0);
    let list = list_services(false, &None, &padded).unwrap();
    assert_eq!(list.len(), 1);
    assert_eq!(list[0].name, "ssh.service");
    assert_eq!(list[0].active_state, "active");
    assert_eq!(list[0].status, "running");
    assert_eq!(list[0].description, "OpenSSH server");
    let list = read_plain("  a.timer    loaded   failed     dead   A  timer  \n");
    assert_eq!(list[0].active_state, "failed");
    assert_eq!(list[0].status, "dead");
    assert_eq!(list[0].description, "A  timer");
    let row = UnitRow {
        unit: Some("a.service".to_string()),
        active: Some("active".to_string()),
        sub: None,
        description: None,
    };
    let none = UnitRow {
        unit: None,
        active: None,
        sub: None,
        description: None,
    };
    let rows = Some(vec![row, none]);
    let list = list_services(true, &rows, &output("", "x", 1)).unwrap();
    assert_eq!((list.len(), list[0].status.as_str()), (1, ""));
    assert_eq!(list_services(false, &rows, &output("", "x", 1)).unwrap_err(), "x");
    assert_eq!(list_services(true, &None, &output("b.service", "", 0)).unwrap().len(), 1);
}

#[test]
fn services_are_controlled() {
    assert_eq!(
        plan_control("nginx", "restart").unwrap(),
        strings(&["restart", "nginx"])
    );
    assert_eq!(plan_control("nginx", "kill").unwrap_err(), "invalid action: kill");
    assert_eq!(plan_control("--now", "stop").unwrap_err(), "invalid unit name: --now");
    assert!(finish_control(&output("", "", 0)).is_ok());
    assert_eq!(finish_control(&output("", " no \n", 1)).unwrap_err(), "no");
}

#[test]
fn shells_are_picked() {
    let shell = pick_login_shell(Some("/bin/zsh"), &strings(&["/bin/zsh", "/bin/bash"]));
    assert_eq!((shell.program.as_str(), shell.args.as_slice()), ("/bin/zsh", &["-l".to_string()][..]));
    let shell = pick_login_shell(Some("/bin/zsh"), &strings(&["/usr/bin/bash", "/bin/sh"]));
    assert_eq!(shell.program, "/usr/bin/bash");
    let shell = pick_login_shell(Some(""), &strings(&["", "/usr/bin/sh"]));
    assert_eq!((shell.program.as_str(), shell.args[0].as_str()), ("/usr/bin/sh", "-i"));
    let shell = pick_login_shell(None, &[]);
    assert_eq!((shell.program.as_str(), shell.args[0].as_str()), ("bash", "-l"));
}

#[test]
fn container_terminals_are_planned() {
    assert_eq!(
        plan_docker_exec("web", "").unwrap(),
        strings(&["exec", "-it", "web", "sh"])
    );
    assert_eq!(plan_docker_exec("--privileged", "sh").unwrap_err(), "invalid container id");
    assert_eq!(
        plan_docker_exec("a b", "sh").unwrap_err(),
        "container id has disallowed characters"
    );
    assert_eq!(plan_docker_exec("web", "-c").unwrap_err(), "invalid shell");
    assert_eq!(plan_docker_exec("web", "sh;id").unwrap_err(), "invalid shell");
}

fn stream() -> StreamArgs {
    StreamArgs {
        stream_id: "s".to_string(),
        units: strings(&["a.service", "b"]),
        priority: Some("err".to_string()),
        since: Some("1 hour ago".to_string()),
        grep: Some("x|y".to_string()),
        identifier: Some("kernel".to_string()),
        lines: 99999,
        follow: true,
    }
}

#[test]
fn journal_filters_become_arguments() {
    assert_eq!(
        build_argv(&stream()).unwrap(),
        strings(&[
            "--no-pager",
            "--output=short-iso",
            "--follow",
            "--lines=10000",
            "-u",
            "a.service",
            "-u",
            "b",
            "-p",
            "err",
            "-t",
            "kernel",
            "--since",
            "1 hour ago",
            "-g",
            "x|y",
        ])
    );
}

#[test]
fn journal_filters_are_refused() {
    let mut args = stream();
    args.units.push("--user".to_string());
    assert_eq!(build_argv(&args).unwrap_err(), "invalid unit name: --user");
    let mut args = stream();
    args.priority = Some("loud".to_string());
    assert_eq!(build_argv(&args).unwrap_err(), "invalid priority: loud");
    let mut args = stream();
    args.identifier = Some("a b".to_string());
    assert_eq!(build_argv(&args).unwrap_err(), "invalid identifier: a b");
    let mut args = stream();
    args.since = Some("; rm -rf /".to_string());
    assert_eq!(build_argv(&args).unwrap_err(), "invalid since value: ; rm -rf /");
    let mut args = stream();
    args.grep = Some("-e".to_string());
    assert_eq!(build_argv(&args).unwrap_err(), "invalid grep pattern");
    args.grep = Some("é".repeat(257));
    assert_eq!(build_argv(&args).unwrap_err(), "invalid grep pattern");
    args.grep = Some(String::new());
    assert_eq!(build_argv(&args).unwrap_err(), "invalid grep pattern");
    for length in [200, 256] {
        let pattern = "é".repeat(length);
        let args = StreamArgs {
            stream_id: "s".to_string(),
            units: vec![],
            priority: None,
            since: None,
            grep: Some(pattern.clone()),
            identifier: None,
            lines: 10,
            follow: false,
        };
        assert_eq!(
            build_argv(&args).unwrap(),
            ["--no-pager", "--output=short-iso", "--lines=10", "-g", pattern.as_str()]
        );
    }
    assert!(!is_safe_since(&"1".repeat(65)));
}

#[test]
fn single_streams_are_planned() {
    assert_eq!(
        journal::plan("nginx", 5, false).unwrap(),
        strings(&["--no-pager", "--output=short-iso", "--lines=5", "-u", "nginx"])
    );
    assert_eq!(journal::plan("-u", 5, false).unwrap_err(), "invalid unit name");
    assert_eq!(
        logs::plan("web", u32::MAX, true).unwrap(),
        strings(&["logs", "--follow", "--tail=10000", "web"])
    );
    assert_eq!(logs::plan("we:b", 1, true).unwrap_err(), "invalid container id");
}

#[test]
fn streams_supersede_each_other() {
    let mut streams: JournalStreams<u8> = JournalStreams::new();
    assert_eq!(streams.start("s", 1), None);
    assert_eq!(streams.start("s", 2), Some(1));
    assert_eq!(streams.stop("s"), Some(2));
    assert_eq!(streams.stop("s"), None);
    let mut units: journal::JournalStreams<u8> = journal::JournalStreams::new();
    assert_eq!(units.start("u", 1), None);
    assert_eq!(units.stop("u"), Some(1));
    let mut pods: K8sLogStreams<u8> = K8sLogStreams::new();
    assert_eq!(pods.start("p", 1), None);
    assert_eq!(pods.stop("p"), Some(1));
    let mut containers: LogStreams<u8> = LogStreams::new();
    assert_eq!(containers.start("c", 1), None);
    assert_eq!(containers.start("d", 2), None);
    assert_eq!(containers.stop("x"), None);
    let mut all = containers.shutdown();
    all.sort();
    assert_eq!(all, [1, 2]);
    assert!(containers.shutdown().is_empty());
}

#[test]
fn pods_are_logged_and_entered() {
    assert_eq!(tail_lines(5), Some(5));
    assert_eq!(tail_lines(0), None);
    assert_eq!(tail_lines(-1), None);
    assert_eq!(end_error(&PodLogEnd::Finished), None);
    let e = "e".to_string();
    assert_eq!(end_error(&PodLogEnd::NoClient(e.clone())).unwrap(), "kube client: e");
    assert_eq!(end_error(&PodLogEnd::NoStream(e.clone())).unwrap(), "log_stream: e");
    assert_eq!(end_error(&PodLogEnd::Broken(e)).unwrap(), "stream: e");
    let mut args = ExecArgs {
        session_id: "s".to_string(),
        namespace: "n".to_string(),
        pod_name: "p".to_string(),
        container: None,
        command: Vec::new(),
    };
    assert_eq!(exec_command(&args), ["/bin/sh"]);
    args.command = strings(&["bash", "-l"]);
    assert_eq!(exec_command(&args), ["bash", "-l"]);
    assert_eq!(banner(None), "\r\n\u{1b}[2m[ session ended ]\u{1b}[0m\r\n");
    assert_eq!(
        banner(Some("no sh")),
        "\r\n\u{1b}[31m[ exec failed: no sh ]\u{1b}[0m\r\n"
    );
}

#[test]
fn tokens_are_found_and_polled_for() {
    assert_eq!(stored_token(Some(" a\n"), Some("b")).unwrap(), "a");
    assert_eq!(stored_token(Some(" "), Some("b ")).unwrap(), "b");
    assert_eq!(stored_token(None, None), None);
    assert!(matches!(
        poll_step(TokenReply::Error("authorization_pending".to_string())),
        PollStep::Wait
    ));
    assert!(matches!(poll_step(TokenReply::Unreadable), PollStep::Wait));
    match poll_step(TokenReply::Error("denied".to_string())) {
        PollStep::GiveUp(e) => assert_eq!(e, "Authorization failed: denied"),
        _ => panic!("must give up"),
    }
    match poll_step(TokenReply::Token("t".to_string())) {
        PollStep::Done(t) => assert_eq!(bearer(&t), "Bearer t"),
        _ => panic!("must be done"),
    }
    assert_eq!(device_url("https://x", "token"), "https://x/api/device/token");
}

#[test]
fn capabilities_follow_the_probes() {
    assert_eq!(
        capabilities(true, true, SwarmRole::Worker, true),
        ["systemd", "docker", "swarm", "k8s"]
    );
    assert_eq!(capabilities(false, false, SwarmRole::Manager, false), [""; 0]);
    let mut current = capabilities(true, false, SwarmRole::NotInSwarm, false);
    assert!(!update_capabilities(&mut current, strings(&["systemd"])));
    assert!(update_capabilities(&mut current, strings(&["docker"])));
    assert_eq!(current, ["docker"]);
}

#[test]
fn answers_are_shaped() {
    assert!(require_manager(SwarmRole::Manager).is_ok());
    assert_eq!(require_manager(SwarmRole::Worker).unwrap_err(), "not a swarm manager");
    let l = listing::<u8>(Err("e".to_string()));
    assert!(!l.available && l.items.is_empty() && l.error.as_deref() == Some("e"));
    let l = listing(Ok(vec![1]));
    assert!(l.available && l.items == [1] && l.error.is_none());
    assert_eq!(first_error(None, Some("b".to_string())).unwrap(), "b");
    assert_eq!(first_error(Some("a".to_string()), None).unwrap(), "a");
    assert!(!is_idle(75_000_000_000) && is_idle(75_000_000_001));
    assert_ne!(OutgoingSendError::Full, OutgoingSendError::Closed);
}

#[test]
fn terminals_are_routed() {
    let mut s: Sessions<TerminalSession<u8, u8>, char> = Sessions::new();
    let shell = |n: u8| TerminalSession {
        tx_resize: n,
        tx_input: n,
    };
    assert_eq!(s.start(""), StartTerminal::NoName);
    assert_eq!(s.start("x"), StartTerminal::Spawn);
    assert!(s.opened("x", shell(1)).is_none());
    assert_eq!(s.start("x"), StartTerminal::Open);
    assert!(s.opened_pod("x", 'p').is_none());
    assert!(s.opened_pod("y", 'q').is_none());
    assert!(matches!(s.route("x"), Target::Host(t) if t.tx_input == 1));
    assert!(matches!(s.route("y"), Target::Pod('q')));
    assert!(matches!(s.route(""), Target::Nobody));
    assert!(s.replace_container(Some(shell(2))).is_none());
    assert!(matches!(s.route(""), Target::Container(t) if t.tx_resize == 2));
    assert_eq!(s.supersede_pod("y"), Some('q'));
    let (host, pod) = s.stop("x");
    assert!(host.is_some() && pod == Some('p'));
    assert!(matches!(s.route("x"), Target::Nobody));
    assert!(s.replace_container(None).is_some());
}
