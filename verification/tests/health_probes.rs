use shellfleet_agent::health::{
    append_body_chunk, at_least_a_second, body_too_large, connected, failed_at,
    is_safe_probe_env_key, jitter_ms, judge_body, judge_response, judge_script, judge_status,
    latency_ms, probe_environment, script_missing, script_path, timed_out, HealthProbeState,
    HealthProbes, ProbeAction, ProbeMemory, ProbeRequest, HTTP_BODY_CAP,
};
use shellfleet_agent::output::CommandOutput;

#[test]
fn probe_environment_rejects_execution_controls() {
    for key in [
        "LD_PRELOAD",
        "LD_LIBRARY_PATH",
        "PATH",
        "BASH_ENV",
        "PYTHONPATH",
        "NODE_OPTIONS",
    ] {
        assert!(!is_safe_probe_env_key(key), "{key} must be rejected");
    }
    assert!(is_safe_probe_env_key("CHECK_INTERVAL"));
    assert!(!is_safe_probe_env_key("1INVALID"));
}

#[test]
fn response_body_cap_rejects_oversized_chunks() {
    let mut body = Vec::new();
    assert!(append_body_chunk(&mut body, &[1; 512]).is_ok());
    assert!(append_body_chunk(&mut body, &vec![2; HTTP_BODY_CAP]).is_err());
    assert!(body.len() <= HTTP_BODY_CAP);
}

#[test]
fn bodies_may_fill_the_cap_exactly() {
    let mut body = vec![0; HTTP_BODY_CAP - 2];
    assert!(append_body_chunk(&mut body, &[1, 2]).is_ok());
    assert!(append_body_chunk(&mut body, &[3]).is_err());
    assert!(append_body_chunk(&mut body, &[]).is_ok());
    assert_eq!(body.len(), HTTP_BODY_CAP);
    assert_eq!(body_too_large().detail, "response body exceeds 1048576 bytes");
}

#[test]
fn variables_are_vetted_in_order() {
    let env: Vec<String> = ["A=1", "B", "LD_X=2", "DYLD_Y=3", "C=x=y", "PATH=/evil", "=z"]
        .iter()
        .map(|s| s.to_string())
        .collect();
    let vars = probe_environment(&env);
    assert_eq!(vars[0].0, "PATH");
    assert_eq!(
        vars[0].1,
        "/usr/local/sbin:/usr/local/bin:/usr/sbin:/usr/bin:/sbin:/bin"
    );
    let rest: Vec<(&str, &str)> = vars[1..].iter().map(|v| (v.0.as_str(), v.1.as_str())).collect();
    assert_eq!(rest, [("A", "1"), ("C", "x=y")]);
}

#[test]
fn statuses_and_bodies_are_judged() {
    assert!(judge_status(204, None).is_none());
    assert!(judge_status(404, Some(404)).is_none());
    assert_eq!(judge_status(301, None).unwrap().detail, "unexpected status 301");
    assert_eq!(judge_status(200, Some(201)).unwrap().detail, "unexpected status 200");
    let ok = judge_response(200, Some("alive"), b"still alive\xff");
    assert_eq!((ok.state, ok.detail.as_str()), (HealthProbeState::Green, "ok (200)"));
    let bad = judge_response(200, Some("a\"b"), b"nothing");
    assert_eq!(bad.state, HealthProbeState::Red);
    assert_eq!(bad.detail, "body missing \"a\\\"b\" (status 200)");
    assert_eq!(judge_response(200, None, b"").detail, "ok (200)");
    assert_eq!(
        judge_body(200, Some("x"), "y", "[x]").detail,
        "body missing [x] (status 200)"
    );
}

#[test]
fn failures_are_red() {
    assert_eq!(failed_at("connect", "refused").detail, "connect: refused");
    assert_eq!(timed_out(5).detail, "timeout after 5s");
    assert_eq!(timed_out(5).state, HealthProbeState::Red);
    assert_eq!(connected().detail, "ok");
    assert_eq!(connected().state, HealthProbeState::Green);
}

#[test]
fn scripts_are_bare_names() {
    assert_eq!(
        script_path(" disk.sh ").unwrap(),
        "/etc/shellfleet/probes.d/disk.sh"
    );
    for target in ["", "a/b", "a\\b", "..", "x..y"] {
        let v = script_path(target).unwrap_err();
        assert_eq!(v.state, HealthProbeState::Red);
        assert_eq!(
            v.detail,
            format!("invalid exec target {target:?} (must be a filename in /etc/shellfleet/probes.d/)")
        );
    }
    assert_eq!(script_missing("/p").detail, "script not found: /p");
}

fn ran(stdout: &str, stderr: &str, success: bool, code: Option<i32>) -> CommandOutput {
    CommandOutput {
        stdout: stdout.to_string(),
        stderr: stderr.to_string(),
        success,
        code,
    }
}

#[test]
fn scripts_are_judged_by_their_first_line() {
    assert_eq!(judge_script(&ran("\n \n fine \nmore", "", true, Some(0))).detail, " fine ");
    assert_eq!(judge_script(&ran("", "x", true, Some(0))).detail, "ok");
    let bad = judge_script(&ran("", "why\nmore", false, None));
    assert_eq!((bad.state, bad.detail.as_str()), (HealthProbeState::Red, "exit -1 why"));
    let long = "é".repeat(300);
    assert_eq!(
        judge_script(&ran(&long, "", false, Some(2))).detail,
        format!("exit 2 {}", "é".repeat(200))
    );
}

#[test]
fn timing_is_held_in_bounds() {
    assert_eq!(at_least_a_second(0), 1);
    assert_eq!(at_least_a_second(30), 30);
    assert_eq!(jitter_ms(""), 0);
    assert_eq!(jitter_ms("ab"), 195);
    assert_eq!(jitter_ms(&"\u{7f}".repeat(100)), 12700 % 5000);
    assert_eq!(latency_ms(17), 17);
    assert_eq!(latency_ms(u128::MAX), u32::MAX);
}

#[test]
fn only_changes_are_reported() {
    let mut memory = ProbeMemory::new();
    let samples = [
        HealthProbeState::Red,
        HealthProbeState::Red,
        HealthProbeState::Green,
        HealthProbeState::Green,
        HealthProbeState::Red,
    ];
    let sent: Vec<bool> = samples.iter().map(|s| memory.sample(*s)).collect();
    assert_eq!(sent, [true, false, true, false, true]);
}

fn request(id: &str, signature: Option<&str>) -> ProbeRequest {
    ProbeRequest {
        id: id.to_string(),
        signature: signature.map(String::from),
    }
}

fn shown(actions: &[ProbeAction]) -> Vec<String> {
    actions
        .iter()
        .map(|a| match a {
            ProbeAction::Stop(id) => format!("stop {id}"),
            ProbeAction::Start(i) => format!("start {i}"),
        })
        .collect()
}

#[test]
fn a_sync_starts_stops_and_leaves_alone() {
    let mut probes = HealthProbes::new();
    let first = [request("a", Some("1")), request("b", Some("1")), request("c", None)];
    assert_eq!(shown(&probes.sync(&first)), ["start 0", "start 1"]);
    assert!(probes.sync(&first).is_empty());
    let second = [request("b", Some("2")), request("d", Some("1"))];
    assert_eq!(
        shown(&probes.sync(&second)),
        ["stop b", "start 0", "start 1", "stop a"]
    );
    let doubled = [request("d", Some("1")), request("d", Some("9"))];
    assert_eq!(
        shown(&probes.sync(&doubled)),
        ["stop d", "start 1", "stop b"]
    );
    assert_eq!(shown(&probes.sync(&[])), ["stop d"]);
    probes.sync(&[request("x", Some("1")), request("y", Some("1")), request("z", Some("1"))]);
    let mut stops = shown(&probes.sync(&[request("y", Some("1"))]));
    stops.sort();
    assert_eq!(stops, ["stop x", "stop z"]);
}
