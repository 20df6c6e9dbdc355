use hokori::json::{Json, parse_json};
use hokori::providers::docker::{
    DockerProvider, build_cache_findings, container_findings, context_host, context_name,
    docker_build_reclaimable, docker_df,
    engine_error, executed as docker_executed, image_findings, network_counts, network_findings,
    network_inspect_args, parse_networks, plan_action as plan_docker, remote_context, scan_output,
    volume_findings, whole_output,
};
use hokori::providers::vms::{
    Machine, colima_findings, executed as vm_executed, is_container_engine_vm, lima_findings,
    multipass_findings, orbstack_findings, plan_action as plan_vm, probe as probe_vms, read_colima,
    read_lima, read_multipass, read_orbstack, revalidate as revalidate_vms, scan_findings,
};
use hokori::providers::{
    Capability, ProviderSettings, Revalidation, ScanProfile, evidence_value,
};
use hokori::report::{Finding, FindingState, SizeAccuracy};
use hokori::rules::Safety;

const MIB: u64 = 1 << 20;

fn texts(list: &[&str]) -> Vec<String> {
    list.iter().map(|s| s.to_string()).collect()
}

fn settings() -> ProviderSettings {
    ProviderSettings {
        profile: ScanProfile::Quick,
        min_age_days: 30,
        min_size_bytes: MIB,
        enabled: None,
    }
}

fn json(text: &str) -> Json {
    parse_json(text).unwrap()
}

fn evidence(finding: &Finding, label: &str) -> String {
    evidence_value(finding, label).unwrap()
}

fn machine(name: &str, status: &str, physical: u64, age: Option<u64>) -> Machine {
    Machine {
        name: name.to_string(),
        status: status.to_string(),
        directory: format!("/vms/{name}"),
        configured: 100 * MIB,
        physical,
        age,
    }
}

#[test]
fn machine_listings_are_read() {
    let lima = read_lima(
        "{\"name\":\"dev\",\"status\":\"Stopped\",\"dir\":\"/l/dev\",\"disk\":7}\nnot json\n{\"name\":\"Docker\"}\n{\"status\":\"Running\"}",
    );
    assert_eq!(lima.len(), 1);
    assert_eq!(lima[0].name, "dev");
    assert_eq!(lima[0].directory, "/l/dev");
    assert_eq!(lima[0].configured, 7);

    let home = Some("/Users/me".to_string());
    let orbs = read_orbstack("[{\"name\":\"u\",\"state\":\"RUNNING\"},{\"name\":\"\"}]", &home);
    assert_eq!(orbs.len(), 1);
    assert_eq!(orbs[0].status, "Running");
    assert_eq!(orbs[0].directory, "/Users/me/.orbstack/u");
    assert_eq!(orbs[0].configured, 0);
    assert!(read_orbstack("{}", &home).is_empty());
    assert!(read_orbstack("no json", &home).is_empty());

    let profiles = "{\"profiles\":[{\"profile\":\"p\",\"status\":\"Stopped\",\"disk\":9}]}";
    let colima = read_colima(profiles, &home);
    assert_eq!(colima[0].name, "p");
    assert_eq!(colima[0].directory, "/Users/me/.colima/p");
    assert_eq!(colima[0].configured, 9);
    assert_eq!(read_colima("[{\"name\":\"q\"}]", &None)[0].directory, "");

    let passes = read_multipass("{\"list\":[{\"name\":\"m\",\"state\":\"Stopped\",\"disk\":\"2GiB\"}]}");
    assert_eq!(passes[0].configured, 2 << 30);
    assert_eq!(passes[0].directory, "");
    assert!(is_container_engine_vm("Rancher-Desktop"));
    assert!(!is_container_engine_vm("podman-two"));
}

#[test]
fn stopped_machines_promise_what_they_take_on_the_host() {
    let findings = lima_findings(&vec![machine("dev", "Stopped", 5 * MIB, Some(40))], &settings());
    let finding = &findings[0];
    assert_eq!(finding.rule_id, "stopped-virtual-machine");
    assert_eq!(finding.stable_id, "provider:virtual-machines:stopped-virtual-machine:Lima:dev");
    assert_eq!(finding.safety, Safety::Risky);
    assert_eq!(finding.bytes, 5 * MIB);
    assert_eq!(finding.size.logical, 100 * MIB);
    assert_eq!(finding.size.reclaimable, 5 * MIB);
    assert_eq!(finding.size.accuracy, SizeAccuracy::Exact);
    assert!(finding.manual_only && !finding.report_only && !finding.recent);
    assert_eq!(evidence(finding, "Storage directory"), "/vms/dev");
    assert_eq!(evidence(finding, "Physical host bytes"), "5242880");
    let action = finding.native_action.as_ref().unwrap();
    assert_eq!(action.action_id, "lima-delete");
    assert_eq!(action.preview, texts(&["limactl", "delete", "--yes", "dev"]));
    assert!(action.irreversible && action.strong_confirmation);

    let (policy, args) = plan_vm(finding).ok().unwrap();
    assert_eq!(policy.id, "lima-delete");
    assert_eq!(args, texts(&["delete", "--yes", "Lima:dev"]));
    assert_eq!(vm_executed(finding).unwrap().freed_bytes, 5 * MIB);
}

#[test]
fn running_and_unknown_machines_are_protected() {
    for (status, reason) in [
        ("RUNNING", "The virtual machine is running and cannot be considered reclaimable."),
        (
            "Broken",
            "The virtual machine manager did not report a safely deletable stopped state.",
        ),
    ] {
        let findings = colima_findings(&vec![machine("x", status, MIB, None)], &settings());
        let finding = &findings[0];
        assert_eq!(finding.rule_id, "running-virtual-machine");
        assert_eq!(finding.safety, Safety::Protected);
        assert_eq!(finding.bytes, 0);
        assert_eq!(finding.size.reclaimable, 0);
        assert!(finding.report_only && finding.native_action.is_none());
        assert_eq!(finding.reason, reason);
        assert!(plan_vm(finding).is_err());
    }
}

#[test]
fn young_and_small_machines_of_lima_are_left_out() {
    let young = |physical: u64| machine("y", "stopped", physical, Some(3));
    assert!(lima_findings(&vec![young(MIB - 1)], &settings()).is_empty());
    let kept = lima_findings(&vec![young(MIB)], &settings());
    assert!(kept[0].recent);
    assert_eq!(kept[0].state, FindingState::Recent);
    assert_eq!(lima_findings(&vec![machine("r", "running", 0, Some(3))], &settings()).len(), 1);
    assert_eq!(orbstack_findings(&vec![young(1)], &settings()).len(), 1);
}

#[test]
fn every_manager_has_its_commands() {
    let stopped = || vec![machine("v", "suspended", 0, None)];
    let all = scan_findings(&stopped(), &stopped(), &stopped(), &stopped(), &settings());
    let actions: Vec<String> =
        all.iter().map(|f| f.native_action.as_ref().unwrap().action_id.clone()).collect();
    assert_eq!(
        actions,
        texts(&["lima-delete", "orbstack-delete", "colima-delete", "multipass-delete"])
    );
    assert_eq!(all[1].size.accuracy, SizeAccuracy::Unknown);
    let planned: Vec<Vec<String>> = all.iter().map(|f| plan_vm(f).ok().unwrap().1).collect();
    assert_eq!(planned[1], texts(&["delete", "--force", "OrbStack:v"]));
    assert_eq!(planned[2], texts(&["delete", "--force", "--profile", "Colima:v"]));
    assert_eq!(planned[3], texts(&["delete", "--purge", "Multipass:v"]));

    assert!(matches!(revalidate_vms(&all, &all[0]), Revalidation::Valid));
    match revalidate_vms(&Vec::new(), &all[0]) {
        Revalidation::Changed(m) => assert_eq!(m, "Virtual machine state changed since the scan."),
        _ => panic!("a machine that is gone has changed"),
    }
    assert_eq!(multipass_findings(&Vec::new(), &settings()).len(), 0);
    assert!(matches!(probe_vms(false, true, false, false), Capability::Available));
    assert!(matches!(probe_vms(false, false, false, false), Capability::Unavailable(_)));
}

#[test]
fn unused_images_are_reported() {
    let root = json(
        "{\"Images\":[
            {\"ID\":\"sha256:0123456789abcdef\",\"Repository\":\"<none>\",\"Tag\":\"<none>\",\"UniqueSize\":\"2MB\",\"SharedSize\":\"1MB\",\"Size\":\"3MB\",\"CreatedSince\":\"3 days ago\",\"Containers\":\"0\"},
            {\"ID\":\"i2\",\"Repository\":\"app\",\"Tag\":\"1\",\"UniqueSize\":\"4MB\",\"CreatedSince\":\"2 years ago\"},
            {\"ID\":\"i3\",\"UniqueSize\":\"9MB\",\"Containers\":\"2\"},
            {\"ID\":\"i4\",\"UniqueSize\":\"1kB\"},
            {\"UniqueSize\":\"9MB\"}
        ]}",
    );
    let findings = image_findings(&root, &settings());
    assert_eq!(findings.len(), 2);
    assert_eq!(findings[0].rule_id, "docker-dangling-image");
    assert_eq!(findings[0].safety, Safety::Safe);
    assert_eq!(evidence(&findings[0], "Image ID"), "0123456789ab");
    assert_eq!(findings[0].size.physical, 3 * MIB);
    assert_eq!(findings[0].age_days, Some(3));
    assert!(findings[0].recent);
    assert!(!findings[0].native_action.as_ref().unwrap().strong_confirmation);
    assert_eq!(findings[1].rule_id, "docker-unused-image");
    assert_eq!(findings[1].safety, Safety::Review);
    assert_eq!(findings[1].age_days, Some(730));
    assert!(findings[1].native_action.as_ref().unwrap().strong_confirmation);
    let (policy, args) = plan_docker(&findings[1]).ok().unwrap();
    assert_eq!(policy.id, "docker-image-rm");
    assert_eq!(args, texts(&["image", "rm", "i2"]));
    assert_eq!(docker_executed(&findings[1]).unwrap().message, "Docker action remove-image completed.");
}

#[test]
fn stopped_containers_name_their_project() {
    let root = json(
        "{\"Containers\":[
            {\"ID\":\"c1\",\"State\":\"exited\",\"Names\":\"web\",\"Size\":\"5MB\",\"Labels\":\"a=b, com.docker.compose.project=shop\"},
            {\"ID\":\"c2\",\"State\":\"Restarting\",\"Size\":\"5MB\"},
            {\"ID\":\"c3\",\"State\":\"exited\",\"Size\":\"1B\"}
        ]}",
    );
    let findings = container_findings(&root, &settings());
    assert_eq!(findings.len(), 1);
    assert_eq!(evidence(&findings[0], "Compose project"), "shop");
    assert_eq!(evidence(&findings[0], "State"), "exited");
    let (_, args) = plan_docker(&findings[0]).ok().unwrap();
    assert_eq!(args, texts(&["container", "rm", "c1"]));
}

#[test]
fn named_volumes_are_manual() {
    let hex = "0123456789abcdef0123456789abcdef0123456789abcdef";
    let root = json(&format!(
        "{{\"Volumes\":[
            {{\"Name\":\"{hex}\",\"Links\":\"0\",\"Size\":\"2MB\"}},
            {{\"Name\":\"db\",\"Links\":\"0\",\"Size\":\"2MB\"}},
            {{\"Name\":\"used\",\"Links\":\"1\",\"Size\":\"2MB\"}}
        ]}}"
    ));
    let findings = volume_findings(&root, &settings());
    assert_eq!(findings.len(), 2);
    assert!(!findings[0].manual_only);
    assert_eq!(evidence(&findings[0], "Ownership"), "anonymous volume");
    assert!(findings[1].manual_only);
    assert_eq!(evidence(&findings[1], "Ownership"), "named or Compose-managed volume");
    assert_eq!(evidence(&findings[1], "Compose project"), "none");
}

#[test]
fn the_build_cache_is_split_by_age() {
    let root = json(
        "{\"BuildCache\":[
            {\"Size\":\"30MB\",\"LastUsedSince\":\"2 months ago\"},
            {\"Size\":\"10MB\",\"LastUsedAt\":\"3 days ago\"},
            {\"Size\":\"50MB\",\"InUse\":\"true\"},
            {\"Size\":\"50MB\",\"Reclaimable\":\"false\"}
        ]}",
    );
    let findings = build_cache_findings(&root, &settings(), 20 * MIB);
    assert_eq!(findings.len(), 2);
    assert_eq!(findings[0].rule_id, "docker-stale-build-cache");
    assert_eq!(findings[0].bytes, 15 * MIB);
    assert_eq!(findings[0].size.shared, 15 * MIB);
    assert_eq!(findings[0].size.accuracy, SizeAccuracy::Estimated);
    assert_eq!(findings[1].bytes, 5 * MIB);
    assert!(findings[1].report_only && findings[1].recent);
    let (policy, args) = plan_docker(&findings[0]).ok().unwrap();
    assert_eq!(policy.id, "docker-builder-prune");
    assert_eq!(args, texts(&["builder", "prune", "--force", "--filter", "until=720h"]));
    assert!(build_cache_findings(&root, &settings(), 0).is_empty());

    let summary = "{\"Type\":\"Images\",\"Reclaimable\":\"1GB\"}\n{\"Type\":\"Build Cache\",\"Reclaimable\":\"20MB (50%)\"}";
    assert_eq!(docker_build_reclaimable(summary), 20 * MIB);
    assert_eq!(docker_build_reclaimable("{\"Type\":\"Images\"}"), 0);
}

#[test]
fn unattached_networks_are_reported() {
    let networks = parse_networks(
        "{\"ID\":\"n1\",\"Name\":\"shop\",\"Driver\":\"bridge\"}\n{\"ID\":\"n2\",\"Name\":\"busy\"}\n{\"Name\":\"nameless\"}",
    );
    assert_eq!(
        network_inspect_args(&networks),
        texts(&["network", "inspect", "--format", "{{len .Containers}}", "n1", "n2", ""])
    );
    let counts = network_counts("0\n3\nx\n0\n");
    assert_eq!(counts, vec![0, 3, 0]);
    let findings = network_findings(&networks, &counts);
    assert_eq!(findings.len(), 1);
    assert_eq!(findings[0].stable_id, "provider:docker:docker-unused-network:n1");
    assert_eq!(findings[0].bytes, 0);
    assert_eq!(evidence(&findings[0], "Driver"), "bridge");
}

#[test]
fn the_engine_of_docker_may_be_out_of_reach() {
    assert_eq!(DockerProvider.metadata().id, "docker");
    assert_eq!(remote_context("local", "unix:///var/run/docker.sock"), None);
    assert_eq!(remote_context("local", ""), None);
    assert_eq!(
        remote_context("prod", "tcp://host:2375").unwrap(),
        "Active Docker context `prod` is remote (tcp://host:2375); remote storage is not scanned by default."
    );
    assert!(matches!(engine_error("Permission Denied while"), Capability::PermissionDenied(_)));
    match engine_error("down") {
        Capability::Unavailable(m) => assert_eq!(
            m,
            "Docker engine is not reachable; it was not started automatically. down"
        ),
        _ => panic!("an engine that is down is unavailable"),
    }
    assert!(scan_output("no json", None, &settings()).is_err());
    assert_eq!(scan_output(" {} ", None, &settings()).ok().unwrap().len(), 0);
    assert_eq!(whole_output(&docker_df(), "x".to_string(), false), Ok("x".to_string()));
    assert_eq!(
        whole_output(&docker_df(), "x".to_string(), true),
        Err("docker-system-df output exceeded the safety limit".to_string())
    );
}

#[test]
fn docker_contexts_are_read() {
    assert_eq!(context_name(" desktop-linux\n").as_deref(), Some("desktop-linux"));
    assert_eq!(context_name(" \n"), None);
    assert_eq!(context_host("\"unix:///var/run/docker.sock\"\n"), "unix:///var/run/docker.sock");
    assert_eq!(context_host("\"\"\n"), "");
}
