use base64::Engine;
use ed25519_dalek::Signer;
use shellfleet_agent::privileged::approval::{
    enroll_approver, judge_consumed, judge_stored, load_approvers, pending_request,
    validate_request_id, GateState, StoredRequest,
};
use shellfleet_agent::privileged::client::{
    check_payload, gate_socket, relay_failure, relay_frame,
};
use shellfleet_agent::privileged::crypto::Transport;
use shellfleet_agent::privileged::framing::{frame_length, read_frame, write_frame, FrameRead};
use shellfleet_agent::privileged::gate::{
    command_report, expect_approval, open_transport, pty_exit, pty_step, seal_reply, CommandEnd,
    PtyAction, PtyEvent, MAX_COMMAND_OUTPUT,
};
use shellfleet_agent::privileged::identity::{
    hex, host_fingerprint, key_of, key_or_drawn, load_or_create_key, stored_key,
};
use shellfleet_agent::privileged::peer::{accept_peer, configured_agent_uid};
use shellfleet_agent::privileged::policy::{classify, policy_version, Tier, TrustedOperation};
use shellfleet_agent::privileged::protocol::{
    SignedTrustedManifest, TrustedClientFrame, TrustedHostFrame, TrustedPlaintext,
};
use x25519_dalek::{PublicKey, StaticSecret};

const MAX: u32 = 1 << 20;

fn public(secret: [u8; 32]) -> [u8; 32] {
    PublicKey::from(&StaticSecret::from(secret)).to_bytes()
}

fn ends() -> (Transport, Transport) {
    let broker = Transport::broker(&[7; 32], public([8; 32]), b"manifest", "request").unwrap();
    let client = Transport::client(&[8; 32], public([7; 32]), b"manifest", "request").unwrap();
    (broker, client)
}

#[test]
fn relay_sees_only_ciphertext_and_cannot_replay_or_tamper() {
    let (mut broker, mut client) = ends();
    let marker = b"KNOWN-ROOT-PLAINTEXT";
    let (counter, ciphertext) = client.encrypt(marker).unwrap();
    assert!(!ciphertext.windows(marker.len()).any(|window| window == marker));
    assert_eq!(broker.decrypt(counter, &ciphertext).unwrap(), marker);
    assert!(broker.decrypt(counter, &ciphertext).is_err());
}

#[test]
fn refused_frames_change_nothing() {
    let (mut broker, mut client) = ends();
    let (zero, first) = client.encrypt(b"one").unwrap();
    let (one, second) = client.encrypt(b"two").unwrap();
    assert_eq!((zero, one), (0, 1));
    assert_eq!(
        broker.decrypt(one, &second).unwrap_err(),
        "root transport frame replay or reordering detected"
    );
    let mut tampered = first.clone();
    tampered[0] ^= 1;
    assert_eq!(
        broker.decrypt(zero, &tampered).unwrap_err(),
        "root transport authentication failed"
    );
    assert_eq!(
        broker.decrypt(zero, b"short").unwrap_err(),
        "root transport authentication failed"
    );
    assert_eq!(broker.decrypt(zero, &first).unwrap(), b"one");
    assert_eq!(broker.decrypt(one, &second).unwrap(), b"two");
    // The other direction has its own key and its own counter.
    let (counter, back) = broker.encrypt(b"three").unwrap();
    assert_eq!(counter, 0);
    assert_eq!(client.decrypt(counter, &back).unwrap(), b"three");
}

#[test]
fn transports_are_bound_to_request_and_manifest() {
    let (_, mut client) = ends();
    let (counter, data) = client.encrypt(b"x").unwrap();
    let mut other = Transport::broker(&[7; 32], public([8; 32]), b"manifest", "another").unwrap();
    assert!(other.decrypt(counter, &data).is_err());
    let mut other = Transport::broker(&[7; 32], public([8; 32]), b"other", "request").unwrap();
    assert!(other.decrypt(counter, &data).is_err());
}

#[test]
fn framing_roundtrip_and_oversize_rejection() {
    let frame = write_frame(b"hello", MAX).unwrap();
    assert_eq!(frame, b"\x00\x00\x00\x05hello");
    match read_frame(&frame, MAX) {
        FrameRead::Body(body, used) => assert_eq!((body.as_slice(), used), (&b"hello"[..], 9)),
        _ => panic!("a whole frame"),
    }

    let mut encoded = (MAX + 1).to_be_bytes().to_vec();
    encoded.push(0);
    assert!(matches!(read_frame(&encoded, MAX), FrameRead::Invalid(_)));

    assert!(matches!(read_frame(&frame[..8], MAX), FrameRead::Short));
    assert!(matches!(read_frame(&[0, 0], MAX), FrameRead::Short));
    assert!(matches!(read_frame(&[0, 0, 0, 0], MAX), FrameRead::Invalid(_)));
    assert_eq!(write_frame(b"", MAX).unwrap_err(), "invalid trusted frame length");
    assert!(write_frame(b"abc", 2).is_err());
    assert_eq!(frame_length(&[0, 1, 0, 2], MAX).unwrap(), 65538);
    assert!(write_frame(&vec![1; 70_000], MAX).unwrap().starts_with(&[0, 1, 0x11, 0x70]));
}

#[test]
fn every_supported_root_operation_is_tier_two_and_bounded() {
    assert_eq!(
        classify(&TrustedOperation::RootPty {
            shell: "/bin/bash".into(),
            ttl_secs: 600,
            cols: 80,
            rows: 24,
        }),
        Ok(Tier::Two)
    );
    assert!(classify(&TrustedOperation::RootCommand {
        program: "sh".into(),
        args: vec![],
        timeout_secs: 10,
    })
    .is_err());
}

fn command(program: &str, args: Vec<String>, timeout_secs: u32) -> TrustedOperation {
    TrustedOperation::RootCommand {
        program: program.to_string(),
        args,
        timeout_secs,
    }
}

#[test]
fn policy_limits_are_told_apart() {
    let err = |o: &TrustedOperation| classify(o).unwrap_err();
    assert_eq!(
        err(&command("/b\0", vec![], 1)),
        "root command program must be a bounded absolute path"
    );
    assert_eq!(
        err(&command("/b", vec!["x".repeat(16385)], 1)),
        "root command arguments exceed policy limits"
    );
    assert_eq!(
        err(&command("/b", vec![String::new(); 257], 1)),
        "root command arguments exceed policy limits"
    );
    assert_eq!(
        err(&command("/b", vec![], 3601)),
        "root command timeout is outside policy limits"
    );
    assert!(classify(&command("/b", vec!["x".repeat(16384); 256], 3600)).is_ok());
    let pty = |shell: &str, ttl_secs: u32, cols: u16| TrustedOperation::RootPty {
        shell: shell.to_string(),
        ttl_secs,
        cols,
        rows: 1,
    };
    assert_eq!(err(&pty("/bin/zsh", 60, 1)), "root PTY shell is not locally allowed");
    assert_eq!(err(&pty("/bin/sh", 59, 1)), "root PTY limits are invalid");
    assert_eq!(err(&pty("/bin/sh", 60, 0)), "root PTY limits are invalid");
    assert_eq!(policy_version(None), "builtin-v1");
    assert_eq!(policy_version(Some("v9")), "v9");
}

fn gate() -> GateState {
    GateState::from_keys([1; 32], [2; 32], 1)
}

fn start(id: &str) -> TrustedClientFrame {
    TrustedClientFrame::Start {
        request_id: id.to_string(),
        operation: command("/usr/bin/id", vec![], 10),
        client_ephemeral_public: [3; 32],
    }
}

fn keyring(key: &[u8]) -> String {
    let encoded = base64::engine::general_purpose::STANDARD.encode(key);
    format!(r#"{{"operator":"{encoded}"}}"#)
}

#[test]
fn signed_approval_is_exact_single_use_and_persistent() {
    let approver = ed25519_dalek::SigningKey::from_bytes(&[9; 32]);
    let approver_public = approver.verifying_key().to_bytes();
    let keys: Result<String, String> = Ok(keyring(&approver_public));
    let state = gate();
    let manifest = state.challenge(&start("request-123"), 100, "builtin-v1").unwrap();
    let canonical = b"the canonical bytes".to_vec();
    let expires = manifest.expires_at;
    let challenge = state.sign_challenge(manifest, &canonical);
    let signature = approver.sign(&canonical).to_bytes();
    let mut row = Some(pending_request(&canonical, expires));
    let bytes: Result<Vec<u8>, String> = Ok(canonical.clone());
    assert!(state
        .approve(&challenge, &bytes, &keys, &approver_public, &signature, "builtin-v1", 101)
        .is_ok());
    assert!(judge_stored(&row, &canonical, 101).is_ok());
    assert!(judge_consumed(1).is_ok());
    if let Some(r) = &mut row {
        r.status = "consumed".to_string();
    }
    assert!(judge_stored(&row, &canonical, 102).is_err());
}

#[test]
fn approvals_are_refused() {
    let approver = ed25519_dalek::SigningKey::from_bytes(&[9; 32]);
    let approver_public = approver.verifying_key().to_bytes();
    let keys: Result<String, String> = Ok(keyring(&approver_public));
    let state = gate();
    let canonical = b"bytes".to_vec();
    let signature = approver.sign(&canonical).to_bytes();
    let challenge = || {
        let m = state.challenge_with_nonce(&start("request-123"), [4; 32], 100, "p").unwrap();
        state.sign_challenge(m, &canonical)
    };
    let bytes: Result<Vec<u8>, String> = Ok(canonical.clone());
    let refuse = |signed: &SignedTrustedManifest,
                  keys: &Result<String, String>,
                  key: &[u8; 32],
                  signature: &[u8],
                  policy: &str,
                  now: i64| {
        state
            .approve(signed, &bytes, keys, key, signature, policy, now)
            .unwrap_err()
    };
    let stale = "trusted manifest is stale or belongs to another host/policy";
    let good = challenge();
    assert_eq!(good.manifest.expires_at, 170);
    assert_eq!(refuse(&good, &keys, &approver_public, &signature, "p", 171), stale);
    assert_eq!(refuse(&good, &keys, &approver_public, &signature, "q", 101), stale);
    let mut other = challenge();
    other.host_identity_public = [0; 32];
    assert_eq!(refuse(&other, &keys, &approver_public, &signature, "p", 101), stale);
    let mut forged = challenge();
    forged.signature[0] ^= 1;
    assert_eq!(
        refuse(&forged, &keys, &approver_public, &signature, "p", 101),
        "invalid host manifest signature"
    );
    assert_eq!(
        refuse(&good, &Ok(keyring(&[5; 32])), &approver_public, &signature, "p", 101),
        "approver key is not enrolled on this host"
    );
    assert_eq!(
        refuse(&good, &Err("unreadable".to_string()), &approver_public, &signature, "p", 101),
        "unreadable"
    );
    assert_eq!(
        refuse(&good, &keys, &approver_public, &[0; 64], "p", 101),
        "invalid approver signature"
    );
    assert_eq!(
        refuse(&good, &keys, &approver_public, &[0; 3], "p", 101),
        "invalid approver signature"
    );
    // Enrolled, but not a point of the curve.
    let mut no_point = [0u8; 32];
    no_point[0] = 2;
    assert_eq!(
        refuse(&good, &Ok(keyring(&no_point)), &no_point, &signature, "p", 101),
        "invalid approver public key"
    );
    let broken: Result<Vec<u8>, String> = Err("not canonical".to_string());
    assert_eq!(
        state
            .approve(&good, &broken, &keys, &approver_public, &signature, "p", 101)
            .unwrap_err(),
        "not canonical"
    );
}

#[test]
fn challenges_are_checked_and_timed() {
    let state = gate();
    assert_eq!(
        state.challenge(&start("short"), 1, "p").unwrap_err(),
        "invalid trusted request id"
    );
    assert_eq!(
        state.challenge(&TrustedClientFrame::Close, 1, "p").unwrap_err(),
        "first trusted frame must be Start"
    );
    assert!(validate_request_id("request_1.2-3").is_ok());
    assert!(validate_request_id(&"a".repeat(129)).is_err());
    assert!(validate_request_id("request 1").is_err());
    let m = state.challenge_with_nonce(&start("request-123"), [4; 32], 1000, "p").unwrap();
    assert_eq!(m.nonce, [4; 32]);
    assert_eq!((m.created_at, m.expires_at), (1000, 1070));
    assert_eq!(m.broker_transport_public, public([2; 32]));
    let long = TrustedClientFrame::Start {
        request_id: "request-123".to_string(),
        operation: command("/usr/bin/id", vec![], 3600),
        client_ephemeral_public: [3; 32],
    };
    assert_eq!(state.challenge(&long, 0, "p").unwrap().expires_at, 3600);
    assert_eq!(
        state.challenge_with_draw(&long, None, 0, "p").unwrap_err(),
        "operating system randomness is unavailable"
    );
    assert_eq!(
        state.challenge_with_draw(&start("short"), None, 0, "p").unwrap_err(),
        "invalid trusted request id"
    );
    assert_eq!(state.challenge_with_draw(&long, Some([6; 32]), 0, "p").unwrap().nonce, [6; 32]);
    let a = state.challenge(&long, 0, "p").unwrap().nonce;
    let b = state.challenge(&long, 0, "p").unwrap().nonce;
    assert_ne!(a, b);
}

#[test]
fn stored_requests_are_judged() {
    let row = |status: &str| {
        Some(StoredRequest {
            manifest: b"m".to_vec(),
            status: status.to_string(),
            expires_at: 10,
        })
    };
    assert!(judge_stored(&row("pending"), b"m", 10).is_ok());
    let altered = "trusted approval was altered, expired, or already consumed";
    assert_eq!(judge_stored(&row("pending"), b"n", 10).unwrap_err(), altered);
    assert_eq!(judge_stored(&row("pending"), b"m", 11).unwrap_err(), altered);
    assert_eq!(judge_stored(&row("consumed"), b"m", 10).unwrap_err(), altered);
    assert_eq!(judge_stored(&None, b"m", 10).unwrap_err(), "trusted request is unknown");
    assert_eq!(
        judge_consumed(0).unwrap_err(),
        "trusted approval was already consumed"
    );
}

#[test]
fn keyrings_are_read() {
    let keys = load_approvers(&keyring(&[5; 32])).unwrap();
    assert_eq!((keys[0].0.as_str(), keys[0].1), ("operator", [5; 32]));
    assert_eq!(load_approvers("x").unwrap_err(), "invalid approver keyring JSON");
    assert_eq!(load_approvers("{}").unwrap_err(), "approver keyring is empty");
    assert_eq!(
        load_approvers(r#"{"a":"?"}"#).unwrap_err(),
        "invalid approver key encoding"
    );
    assert_eq!(
        load_approvers(&keyring(&[5; 31])).unwrap_err(),
        "approver public keys must be 32 bytes"
    );
}

#[test]
fn approvers_are_enrolled() {
    let key = ed25519_dalek::SigningKey::from_bytes(&[9; 32]).verifying_key().to_bytes();
    let encoded = base64::engine::general_purpose::STANDARD.encode(key);
    let old = r#"{"zoe":"old","ann":"kept"}"#;
    let written = enroll_approver(true, "zoe", &encoded, Some(old)).unwrap();
    assert_eq!(
        String::from_utf8(written).unwrap(),
        format!("{{\n  \"ann\": \"kept\",\n  \"zoe\": \"{encoded}\"\n}}")
    );
    let fresh = enroll_approver(true, "zoe", &encoded, Some("broken")).unwrap();
    assert_eq!(
        String::from_utf8(fresh).unwrap(),
        format!("{{\n  \"zoe\": \"{encoded}\"\n}}")
    );
    let err = |root: bool, id: &str, key: &str| enroll_approver(root, id, key, None).unwrap_err();
    assert_eq!(
        err(false, "zoe", &encoded),
        "approver enrollment must run as local root"
    );
    assert_eq!(err(true, "z e", &encoded), "invalid approver id");
    assert_eq!(err(true, &"z".repeat(65), &encoded), "invalid approver id");
    assert_eq!(err(true, "zoe", "?"), "invalid approver public-key encoding");
    assert_eq!(
        err(true, "zoe", "AAAA"),
        "approver public key must be exactly 32 bytes"
    );
    let mut no_point = [0u8; 32];
    no_point[0] = 2;
    let encoded = base64::engine::general_purpose::STANDARD.encode(no_point);
    assert_eq!(
        err(true, "zoe", &encoded),
        "approver public key is not valid Ed25519"
    );
}

#[test]
fn keys_and_names() {
    assert_eq!(hex(&[0, 15, 16, 255]), "000f10ff");
    assert_eq!(gate().host_id.len(), 32);
    assert_eq!(gate().host_id, hex(&gate().host_public()[..16]));
    assert_eq!(
        host_fingerprint(&[0; 32]),
        "SHA256:Zmh6rfhivXdsj8GLjp+OIAiXFIVu4jOzkCpZHQ1fKSU"
    );
    assert!(key_of(&[1; 31]).is_none());
    assert_eq!(stored_key("/k", &[1; 32]).unwrap(), [1; 32]);
    assert_eq!(stored_key("/k", &[]).unwrap_err(), "/k must contain exactly 32 bytes");
    assert!(!load_or_create_key("/k", Some(&[1; 32])).unwrap().fresh);
    let drawn = key_or_drawn("/k", None, Some([5; 32])).unwrap();
    assert!(drawn.fresh && drawn.key == [5; 32]);
    let kept = key_or_drawn("/k", Some(&[1; 32]), Some([5; 32])).unwrap();
    assert!(!kept.fresh && kept.key == [1; 32]);
    assert_eq!(
        key_or_drawn("/k", Some(&[1; 31]), None).unwrap_err(),
        "/k must contain exactly 32 bytes"
    );
    let none = "operating system randomness is unavailable";
    assert_eq!(key_or_drawn("/k", None, None).unwrap_err(), none);
    let a = load_or_create_key("/k", None).unwrap();
    let b = load_or_create_key("/k", None).unwrap();
    assert!(a.fresh && b.fresh && a.key != b.key);
}

#[test]
fn approvals_are_expected() {
    let state = gate();
    let challenge = || {
        let m = state.challenge_with_nonce(&start("request-123"), [4; 32], 100, "p").unwrap();
        state.sign_challenge(m, b"c")
    };
    let frame = |signed: SignedTrustedManifest| TrustedClientFrame::Approve {
        signed_manifest: signed,
        approver_public: [6; 32],
        approver_signature: vec![1],
    };
    let a = expect_approval(frame(challenge()), &challenge()).unwrap();
    assert_eq!((a.approver_public, a.approver_signature), ([6; 32], vec![1]));
    let mut changed = challenge();
    changed.manifest.expires_at += 1;
    assert_eq!(
        expect_approval(frame(changed), &challenge()).unwrap_err(),
        "approved manifest differs from broker challenge"
    );
    assert_eq!(
        expect_approval(TrustedClientFrame::Close, &challenge()).unwrap_err(),
        "expected signed approval"
    );
}

#[test]
fn an_approved_terminal_runs_over_the_transport() {
    let state = gate();
    let frame = TrustedClientFrame::Start {
        request_id: "request-123".to_string(),
        operation: command("/usr/bin/id", vec![], 10),
        client_ephemeral_public: public([8; 32]),
    };
    let m = state.challenge(&frame, 100, "p").unwrap();
    let mut broker = open_transport(&state, &m, b"c").unwrap();
    let mut client =
        Transport::client(&[8; 32], m.broker_transport_public, b"c", "request-123").unwrap();
    let (counter, data) = client.encrypt(b"ls\n").unwrap();
    let again = data.clone();
    match pty_step(&mut broker, PtyEvent::Frame(TrustedClientFrame::Ciphertext { counter, data })) {
        PtyAction::Write(typed) => assert_eq!(typed, b"ls\n"),
        _ => panic!("must be typed"),
    }
    match pty_step(
        &mut broker,
        PtyEvent::Frame(TrustedClientFrame::Ciphertext { counter, data: again }),
    ) {
        PtyAction::Fail(e) => assert_eq!(e, "root transport frame replay or reordering detected"),
        _ => panic!("must fail"),
    }
    match seal_reply(&mut broker, b"out").unwrap() {
        TrustedHostFrame::Ciphertext { counter, data } => {
            assert_eq!(client.decrypt(counter, &data).unwrap(), b"out");
        }
        _ => panic!("must be sealed"),
    }
    assert!(matches!(pty_step(&mut broker, PtyEvent::Deadline), PtyAction::Finish));
    assert!(matches!(
        pty_step(&mut broker, PtyEvent::Frame(TrustedClientFrame::Close)),
        PtyAction::Finish
    ));
    assert!(matches!(
        pty_step(&mut broker, PtyEvent::Frame(TrustedClientFrame::Resize { cols: 3, rows: 4 })),
        PtyAction::Resize { cols: 3, rows: 4 }
    ));
    match pty_step(&mut broker, PtyEvent::Frame(start("request-123"))) {
        PtyAction::Fail(e) => assert_eq!(e, "unexpected frame in active root PTY"),
        _ => panic!("must fail"),
    }
    match pty_step(&mut broker, PtyEvent::Output(b"x".to_vec())) {
        PtyAction::Send(TrustedPlaintext::Output { stream, data }) => {
            assert_eq!((stream.as_str(), data), ("pty", b"x".to_vec()));
        }
        _ => panic!("must be sent"),
    }
    match pty_exit() {
        TrustedPlaintext::Exit { code, message } => {
            assert_eq!((code, message.as_str()), (0, "root PTY closed"));
        }
        _ => panic!("must be an exit"),
    }
}

#[test]
fn commands_report_within_the_cap() {
    let report = command_report(CommandEnd::Done {
        stdout: vec![1; MAX_COMMAND_OUTPUT - 1],
        stderr: vec![2; 5],
        code: None,
    })
    .unwrap();
    let sizes: Vec<usize> = report
        .iter()
        .map(|p| match p {
            TrustedPlaintext::Output { data, .. } => data.len(),
            TrustedPlaintext::Exit { .. } => 0,
        })
        .collect();
    assert_eq!(sizes, [MAX_COMMAND_OUTPUT - 1, 1, 0]);
    assert!(matches!(report[2], TrustedPlaintext::Exit { code: -1, .. }));
    let quiet = command_report(CommandEnd::Done {
        stdout: vec![],
        stderr: vec![],
        code: Some(4),
    })
    .unwrap();
    assert_eq!(quiet.len(), 1);
    assert_eq!(
        command_report(CommandEnd::TimedOut).unwrap_err(),
        "approved root command timed out"
    );
    assert_eq!(
        command_report(CommandEnd::SpawnFailed("x".to_string())).unwrap_err(),
        "spawn approved root command: x"
    );
}

#[test]
fn peers_are_checked() {
    let passwd: Result<String, String> =
        Ok("root:x:0:0\nshellfleet:x\nshellfleet:x:991:991:::\nshellfleet:x:7:7\n".to_string());
    assert_eq!(configured_agent_uid(None, &passwd).unwrap(), 991);
    assert_eq!(configured_agent_uid(Some("12"), &passwd).unwrap(), 12);
    assert_eq!(
        configured_agent_uid(Some("x"), &passwd).unwrap_err(),
        "invalid SHELLFLEET_AGENT_UID"
    );
    assert_eq!(
        configured_agent_uid(None, &Ok(String::new())).unwrap_err(),
        "shellfleet service user does not exist"
    );
    assert_eq!(configured_agent_uid(None, &Err("e".to_string())).unwrap_err(), "e");
    assert!(accept_peer(5, 5).is_ok());
    assert_eq!(
        accept_peer(5, 6).unwrap_err(),
        "approval-gate peer uid 5 is not agent uid 6"
    );
}

#[test]
fn the_relay_knows_the_end() {
    assert!(check_payload(b"x", 1).is_ok());
    assert_eq!(
        check_payload(b"", 1).unwrap_err(),
        "trusted relay payload size is invalid"
    );
    assert!(check_payload(b"xy", 1).is_err());
    assert_eq!(gate_socket(None), "/run/shellfleet/approval-gate.sock");
    assert_eq!(gate_socket(Some("/s")), "/s");
    let r = relay_frame("id", &Some(TrustedHostFrame::Closed), vec![1]);
    assert!(r.complete && r.payload == [1] && r.request_id == "id");
    let error = TrustedHostFrame::Error {
        message: "m".to_string(),
    };
    assert!(relay_frame("id", &Some(error), vec![]).complete);
    let data = TrustedHostFrame::Ciphertext {
        counter: 0,
        data: vec![],
    };
    assert!(!relay_frame("id", &Some(data), vec![]).complete);
    assert!(!relay_frame("id", &None, vec![]).complete);
    assert!(relay_failure("id", None).complete);
    assert_eq!(relay_failure("id", Some(vec![3])).payload, [3]);
}
