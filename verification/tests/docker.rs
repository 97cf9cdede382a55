use shellfleet_agent::docker::{
    combine_stdout_stderr, container_id, count_of, finish, finish_action, finish_create_network,
    finish_inspect, flag, image_created, image_id, listed_rows, not_run, pair_parts, percentage,
    plan_container_action, plan_create_network, plan_object, plan_pull_image, plan_remove_image,
    plan_swarm_action, service_inspect, size_parts, summarize, swarm_role, system_prune_argv,
    validate_image_ref, validate_network_driver, validate_object_ref, validate_subnet,
    DockerContainerAction, NetworkSpec, ObjectRequest, SwarmAction, SwarmInfo, SwarmRole,
};
use shellfleet_agent::docker_lists::{
    container_stats, list_containers, list_images, list_networks, list_stacks, list_volumes,
    parse_pair, ContainerRow, ImageRow, NetworkRow, StackRow, StatsRow, VolumeRow,
};
use shellfleet_agent::json::{parse_json, Json};
use shellfleet_agent::output::CommandOutput;
use shellfleet_agent::prune::{
    preview, read_prune, read_volumes_pruned, settle, DfContainer, DfImage, DfVolume, PruneOutcome,
};

fn output(stdout: &str, stderr: &str, code: i32) -> CommandOutput {
    CommandOutput {
        stdout: stdout.to_string(),
        stderr: stderr.to_string(),
        success: code == 0,
        code: Some(code),
    }
}

fn strings(v: &[&str]) -> Vec<String> {
    v.iter().map(|s| s.to_string()).collect()
}

#[test]
fn docker_object_references_reject_flags_and_unsafe_characters() {
    for value in [
        "",
        "--help",
        "-f",
        "name with space",
        "name\nnext",
        "name/child",
    ] {
        assert!(validate_object_ref(value).is_err(), "accepted {value:?}");
    }
    for value in ["abc123", "container-name", "stack_service", "sha256:abcd"] {
        assert!(validate_object_ref(value).is_ok(), "rejected {value:?}");
    }
}

#[test]
fn docker_image_references_reject_flags_and_accept_registry_paths() {
    for value in ["", "--privileged", "image with space", "repo/image\n--pull"] {
        assert!(validate_image_ref(value).is_err(), "accepted {value:?}");
    }
    for value in [
        "nginx:latest",
        "registry.example:5000/team/image:v1",
        "alpine@sha256:abcdef",
    ] {
        assert!(validate_image_ref(value).is_ok(), "rejected {value:?}");
    }
}

#[test]
fn docker_network_values_reject_option_injection() {
    assert!(validate_network_driver("--help").is_err());
    assert!(validate_subnet("--subnet=0.0.0.0/0").is_err());
    assert!(validate_network_driver("overlay").is_ok());
    assert!(validate_subnet("10.20.0.0/16").is_ok());
    assert!(validate_subnet("2001:db8::/64").is_ok());
}

#[test]
fn docker_operations_reject_injected_options_before_spawn() {
    let error = plan_container_action("--help", DockerContainerAction::Start).unwrap_err();
    assert!(error.contains("invalid docker object"));

    let error = plan_pull_image("--privileged").unwrap_err();
    assert!(error.contains("image reference"));

    let error = plan_create_network(&NetworkSpec {
        name: "safe".to_string(),
        driver: "bridge".to_string(),
        subnet: Some("--subnet=0.0.0.0/0".to_string()),
        attachable: false,
        internal: false,
    })
    .unwrap_err();
    assert!(error.contains("network subnet"));
}

#[test]
fn references_are_bounded() {
    assert!(validate_object_ref(&"a".repeat(255)).is_ok());
    assert_eq!(
        validate_object_ref(&"a".repeat(256)).unwrap_err(),
        "docker object reference must be 1..=255 characters"
    );
    assert_eq!(
        validate_image_ref(&"a".repeat(513)).unwrap_err(),
        "docker image reference must be 1..=512 characters"
    );
    assert_eq!(
        validate_network_driver("").unwrap_err(),
        "invalid docker network driver"
    );
    assert!(validate_subnet(&"1".repeat(129)).is_err());
    assert!(validate_subnet(":1").is_err());
}

#[test]
fn requests_become_arguments() {
    assert_eq!(
        plan_container_action("c", DockerContainerAction::Remove).unwrap(),
        strings(&["rm", "-f", "c"])
    );
    assert_eq!(
        plan_swarm_action("s", SwarmAction::Scale(3)).unwrap(),
        strings(&["service", "scale", "s=3"])
    );
    assert_eq!(
        plan_swarm_action("s", SwarmAction::ForceUpdate).unwrap(),
        strings(&["service", "update", "--force", "s"])
    );
    assert_eq!(
        plan_object("n", ObjectRequest::StackDeploy { prune: true }).unwrap(),
        strings(&[
            "stack", "deploy", "--compose-file", "-", "--with-registry-auth", "--prune", "n",
        ])
    );
    assert_eq!(
        plan_object("n", ObjectRequest::ServiceTasks).unwrap(),
        strings(&["service", "ps", "n", "--format", "{{json .}}", "--no-trunc"])
    );
    assert_eq!(
        plan_object("n", ObjectRequest::VolumeRemove { force: false }).unwrap(),
        strings(&["volume", "rm", "n"])
    );
    assert!(plan_object("-n", ObjectRequest::StackRemove).is_err());
    assert_eq!(
        plan_remove_image("i", true).unwrap(),
        strings(&["rmi", "--force", "i"])
    );
    assert_eq!(
        plan_create_network(&NetworkSpec {
            name: "net".to_string(),
            driver: "overlay".to_string(),
            subnet: Some("10.0.0.0/8".to_string()),
            attachable: true,
            internal: true,
        })
        .unwrap(),
        strings(&[
            "network", "create", "--driver", "overlay", "--subnet", "10.0.0.0/8", "--attachable",
            "--internal", "net",
        ])
    );
    assert_eq!(
        system_prune_argv(true),
        strings(&["system", "prune", "-af", "--volumes"])
    );
}

#[test]
fn reports_are_made() {
    let r = finish_action(&output("o", "e", 1));
    assert_eq!((r.log.as_str(), r.error.as_deref()), ("o\ne", Some("exit code Some(1)")));
    let r = finish("docker rmi", &output("o", "e", 1)).unwrap();
    assert_eq!(r.log, "o\n--- stderr ---\ne");
    assert_eq!(r.error.unwrap(), "docker rmi exit Some(1)");
    let r = finish_inspect(&output("{}", " bad ", 1));
    assert_eq!((r.log.as_str(), r.error.as_deref()), ("{}", Some("bad")));
    let n = finish_create_network(&output(" id \n", "", 0)).unwrap();
    assert_eq!(n.id.as_deref(), Some("id"));
    let n = finish_create_network(&output("x", "", 1)).unwrap();
    assert_eq!(n.id, None);
    assert_eq!(not_run("spawn: ", "e").error.unwrap(), "spawn: e");
    assert_eq!(combine_stdout_stderr(&output("", "e", 1)).unwrap(), "e");
    let long = "x".repeat(8001);
    assert!(combine_stdout_stderr(&output(&long, "", 0)).unwrap().starts_with('…'));
    assert!(combine_stdout_stderr(&output(&"é".repeat(4000), "!!", 0)).is_some());
    assert!(combine_stdout_stderr(&output(&"é".repeat(5000), "!", 0)).is_none());
}

#[test]
fn listings_are_read() {
    let rows = listed_rows(&output(" {a} \n\n{b}\n", "", 0), true).unwrap();
    assert_eq!(rows, ["{a}", "{b}"]);
    let rows = listed_rows(&output(" {a} \n\n{b}\n", "", 0), false).unwrap();
    assert_eq!(rows, [" {a} ", "{b}"]);
    assert_eq!(listed_rows(&output("", " no ", 1), true).unwrap_err(), "no");
    assert_eq!(container_id("0123456789abcdef"), "0123456789ab");
    assert_eq!(image_id("sha256:ab"), "ab");
    assert_eq!(image_id("ab"), "ab");
    assert_eq!(image_created("", "at"), "at");
    assert_eq!(image_created("2 days", "at"), "2 days");
    assert!(flag("true") && flag("True") && flag("1") && !flag("TRUE"));
    assert_eq!((count_of("12"), count_of("x")), (12, 0));
    assert_eq!(percentage(" 12.5%% "), "12.5%%");
    assert_eq!(percentage("12.5%"), "12.5");
    let (a, b) = pair_parts("1.2kB / 3MB");
    assert_eq!((a.as_str(), b.as_str()), ("1.2kB", "3MB"));
    assert_eq!(pair_parts("5B").1, "");
}

#[test]
fn sizes_are_taken_apart() {
    let p = size_parts(" 12.3MB ").unwrap();
    assert_eq!((p.number.as_str(), p.multiplier), ("12.3", 1_000_000));
    for (unit, factor) in [
        ("", 1),
        ("B", 1),
        ("kB", 1000),
        ("GB", 1_000_000_000),
        ("TB", 1_000_000_000_000),
        ("KiB", 1024),
        ("MiB", 1 << 20),
        ("GiB", 1 << 30),
    ] {
        assert_eq!(size_parts(&format!("1{unit}")).unwrap().multiplier, factor);
    }
    assert!(size_parts("").is_none());
    assert!(size_parts("1 parsec").is_none());
    assert_eq!(size_parts("MB").unwrap().number, "");
}

#[test]
fn roles_in_a_swarm() {
    let info = |state: &str, control: bool| {
        Some(SwarmInfo {
            local_node_state: state.to_string(),
            control_available: control,
        })
    };
    assert_eq!(swarm_role(&info("active", true)), SwarmRole::Manager);
    assert_eq!(swarm_role(&info("active", false)), SwarmRole::Worker);
    assert_eq!(swarm_role(&info("inactive", true)), SwarmRole::NotInSwarm);
    assert_eq!(swarm_role(&None), SwarmRole::NotInSwarm);
}

#[test]
fn services_are_summed_up() {
    let raw = r#"[{"CreatedAt":"c","UpdatedAt":"u","Spec":{
        "Mode":{"Replicated":{"Replicas":4294967298}},
        "EndpointSpec":{"Ports":[{"TargetPort":80,"PublishedPort":8080},{"Protocol":"udp"}]},
        "TaskTemplate":{
            "Networks":[{"Target":"n1"},{"x":1}],
            "Placement":{"Constraints":["k==v",7]},
            "ContainerSpec":{
                "Image":"repo/name:tag@sha256:beef",
                "Env":["A=1",null,"B=2"],
                "Mounts":[{"Type":"bind","Source":"/a","Target":"/b"},{}]}}}}]"#;
    let s = service_inspect(&output(raw, "", 0)).unwrap();
    assert_eq!((s.image.as_str(), s.image_digest.as_str()), ("repo/name:tag", "sha256:beef"));
    assert_eq!((s.mode.as_str(), s.replicas), ("replicated", Some(2)));
    assert_eq!((s.created_at.as_str(), s.updated_at.as_str()), ("c", "u"));
    assert_eq!(s.env, ["A=1", "B=2"]);
    assert_eq!(s.mounts, ["type=bind,source=/a,target=/b", "type=?,source=,target="]);
    assert_eq!(s.networks, ["n1"]);
    assert_eq!(s.constraints, ["k==v"]);
    assert_eq!(s.published_ports, ["8080:80/tcp", "0:0/udp"]);

    assert_eq!(service_inspect(&output("[]", "", 0)).unwrap_err(), "empty inspect array");
    assert_eq!(service_inspect(&output("", " gone ", 1)).unwrap_err(), "gone");
    assert_eq!(
        service_inspect(&output("x", "", 0)).unwrap_err(),
        "parse inspect json: expected value at line 1 column 1"
    );
    let bare = summarize(&Json::Array(vec![Json::Null])).unwrap();
    assert_eq!((bare.mode.as_str(), bare.image.as_str()), ("unknown", ""));
    let global = service_inspect(&output(r#"[{"Spec":{"Mode":{"Global":{}}}}]"#, "", 0)).unwrap();
    assert_eq!((global.mode.as_str(), global.replicas), ("global", None));
    assert!(summarize(&Json::Object(Vec::new())).is_err());
}

#[test]
fn prunes_are_previewed() {
    let image = |id: &str, containers: &str, bytes: u64| DfImage {
        id: id.to_string(),
        containers: containers.to_string(),
        bytes,
    };
    let container = |id: &str, state: &str| DfContainer {
        id: id.to_string(),
        state: state.to_string(),
        bytes: 10,
    };
    let volume = |name: &str, links: &str| DfVolume {
        name: name.to_string(),
        links: links.to_string(),
        bytes: 100,
    };
    let images = [image("i1", "0", 1), image("i2", "2", 1), image("i3", "N/A", 1)];
    let containers = [container("c1", "exited"), container("c2", "running"), container("c3", "dead")];
    let volumes = [volume("v1", "0"), volume("v2", "1")];
    let p = preview(&images, &containers, &volumes, true).unwrap();
    assert!(p.success);
    assert_eq!(p.images_removed, ["i1", "i3"]);
    assert_eq!(p.containers_removed, ["c1", "c3"]);
    assert_eq!(p.volumes_removed, ["v1"]);
    assert_eq!(p.reclaimed_bytes, 122);
    assert_eq!(p.log, "preview: 2 container(s), 2 image(s), 1 volume(s) — ~122 bytes\n");
    let p = preview(&images, &containers, &volumes, false).unwrap();
    assert!(p.volumes_removed.is_empty());
    assert!(preview(&[image("a", "0", u64::MAX), image("b", "0", 1)], &[], &[], false).is_none());
    let failed = PruneOutcome::failed("spawn: e");
    assert!(!failed.success && failed.error.as_deref() == Some("spawn: e"));
}

#[test]
fn prunes_are_read() {
    let log = "Deleted Containers:\nc1\n\nDeleted Images:\nuntagged: a\n deleted: b\n\nDeleted Networks:\nn1\nDeleted Volumes:\nv1\n\nTotal reclaimed space: 1.2MB\nafter\n";
    let read = read_prune(&output(log, "", 0)).unwrap();
    assert_eq!(read.reclaimed.as_deref(), Some("1.2MB"));
    let o = settle(read, 1_200_000);
    assert_eq!(o.containers_removed, ["c1"]);
    assert_eq!(o.images_removed, ["untagged: a", "deleted: b"]);
    assert_eq!(o.networks_removed, ["n1"]);
    assert_eq!(o.volumes_removed, ["v1"]);
    assert_eq!(o.reclaimed_bytes, 1_200_000);
    assert_eq!(o.log, log);
    let o = settle(read_prune(&output("", "no", 1)).unwrap(), 5);
    assert_eq!(o.error.as_deref(), Some("docker system prune exit Some(1)"));
    assert_eq!(o.reclaimed_bytes, 0);

    let v = read_volumes_pruned(&output("Deleted Volumes:\nv1\n\nv2\nTotal reclaimed space: 3B\nx", "", 0)).unwrap();
    assert_eq!(v.removed, ["v1", "v2"]);
    assert_eq!(v.reclaimed.as_deref(), Some("3B"));
    let v = read_volumes_pruned(&output("Deleted Volumes:\nv1", "", 2)).unwrap();
    assert!(v.removed.is_empty() && !v.success);
    assert_eq!(v.error.as_deref(), Some("docker volume prune exit Some(2)"));
}

#[test]
fn lists_show_their_rows_in_order_and_pass_over_the_unreadable() {
    let row = |id: &str| ContainerRow {
        id: id.to_string(),
        names: "web".to_string(),
        image: "nginx".to_string(),
        state: "running".to_string(),
        status: "Up".to_string(),
        ports: String::new(),
    };
    let shown = list_containers(vec![Some(row("0123456789abcdef")), None, Some(row("b"))]);
    let ids: Vec<&str> = shown.iter().map(|c| c.id.as_str()).collect();
    assert_eq!(ids, ["0123456789ab", "b"]);
    assert_eq!(shown[0].image, "nginx");
    assert!(list_containers(vec![None]).is_empty());

    let images = list_images(vec![Some(ImageRow {
        id: "sha256:abc".to_string(),
        repository: "nginx".to_string(),
        tag: "1".to_string(),
        size: "12.3MB".to_string(),
        created_since: String::new(),
        created_at: "then".to_string(),
    })]);
    assert_eq!(images[0].id, "abc");
    assert_eq!(images[0].created, "then");
    let size = images[0].size.as_ref().unwrap();
    assert_eq!((size.number.as_str(), size.multiplier), ("12.3", 1_000_000));

    let networks = list_networks(vec![Some(NetworkRow {
        id: "n".to_string(),
        name: "web".to_string(),
        driver: "bridge".to_string(),
        scope: "local".to_string(),
        created_at: "then".to_string(),
        ipv6: "true".to_string(),
        internal: "false".to_string(),
        attachable: "1".to_string(),
    })]);
    assert!(networks[0].ipv6 && !networks[0].internal && networks[0].attachable);

    let volumes = list_volumes(vec![Some(VolumeRow {
        name: "v".to_string(),
        driver: "local".to_string(),
        mountpoint: "/m".to_string(),
        size: "N/A".to_string(),
        labels: "a=b".to_string(),
    })]);
    assert!(volumes[0].size.is_none());
    assert_eq!(volumes[0].created, "");

    let stack = |services: &str| {
        list_stacks(vec![Some(StackRow {
            name: "s".to_string(),
            services: services.to_string(),
            orchestrator: "Swarm".to_string(),
        })])[0]
            .services
    };
    assert_eq!((stack("3"), stack("x")), (3, 0));
}

#[test]
fn container_use_is_taken_apart() {
    let used = container_stats(vec![Some(StatsRow {
        id: "c".to_string(),
        name: "web".to_string(),
        cpu_perc: "12.34%".to_string(),
        mem_usage: "123.4MiB / 1.5GiB".to_string(),
        net_io: "1kB / 2kB".to_string(),
        block_io: "--".to_string(),
        pids: "7".to_string(),
    })]);
    assert_eq!(used[0].cpu, "12.34");
    assert_eq!(used[0].pids, 7);
    let right = used[0].memory.right.as_ref().unwrap();
    assert_eq!((right.number.as_str(), right.multiplier), ("1.5", 1 << 30));
    let pair = parse_pair("1kB / 2kB");
    assert_eq!(pair.left.unwrap().number, "1");
    assert_eq!(pair.right.unwrap().multiplier, 1000);
    assert!(used[0].blocks.left.is_none() && used[0].blocks.right.is_none());
}

#[test]
fn json_is_read_as_a_tree() {
    match parse_json(r#"{"a":[1,-2,"x",true,null]}"#).unwrap() {
        Json::Object(entries) => {
            assert_eq!(entries[0].0, "a");
            match &entries[0].1 {
                Json::Array(v) => {
                    assert!(matches!(v[0], Json::Number(Some(1))));
                    assert!(matches!(v[1], Json::Number(None)));
                    assert!(matches!(&v[2], Json::Text(s) if s == "x"));
                    assert!(matches!(v[3], Json::Bool(true)));
                    assert!(matches!(v[4], Json::Null));
                }
                other => panic!("{other:?}"),
            }
        }
        other => panic!("{other:?}"),
    }
    assert!(parse_json("{").is_err());
}
