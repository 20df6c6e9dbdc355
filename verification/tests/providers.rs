use hokori::json::{Json, parse_json};
use hokori::providers::ai_assets::{AiAssetsProvider, hf_repo_id, ollama_running_models};
use hokori::providers::android::{android_home, normalize_relative};
use hokori::providers::app_leftovers::{
    bundle_id_from_plist, left_over, owned_by_installed_app, plausible_bundle_id,
};
use hokori::providers::command::{
    BoundedOutput, CommandMode, Poll, RunRefusal, check_command, failure_message, poll_step,
    resolve_candidate, safe_absolute_path, safe_token, stop_message,
};
use hokori::providers::docker::{
    build_cache_findings, compose_project, container_findings, docker_image_rm, docker_info,
    image_findings, plan_action as plan_docker, remote_context, scan_output, short_id,
    volume_findings,
};
use hokori::providers::duplicates::{
    Candidate, copies_to_remove, distinct_files, duplicate_finding, groups_by_hash, groups_by_size,
};
use hokori::providers::git::{
    Worktree, WorktreeFacts, lfs_hashes, parse_counts, parse_worktrees, worktree_findings,
};
use hokori::providers::homebrew::{
    FormulaReceipt, Keepers, Rack, contains_bytes, dependency_analysis, disagreements,
    normalize_name, pinned_formulae,
};
use hokori::providers::registry::{
    ProviderRegistry, Route, is_cancelled, remaining, worker_count,
};
use hokori::providers::session::{provider_enabled, scan_finished, scan_probed, unstarted_statuses};
use hokori::providers::stale_files::{Stamp, latest_age_days};
use hokori::providers::tool_cache_gc::definitions;
use hokori::providers::toolchains::{
    rust_toolchain_channel, rustup_installed, version_matches,
};
use hokori::providers::vms::read_lima;
use hokori::providers::xcode::extract_uuids;
use hokori::providers::{
    Capability, ProviderFinding, ProviderSettings, ProviderState, Revalidation, ScanProfile,
    age_from_human, age_from_iso8601, evidence_value, parse_human_bytes, revalidate_against,
};
use hokori::report::Finding;
use hokori::rules::Safety;

fn texts(list: &[&str]) -> Vec<String> {
    list.iter().map(|s| s.to_string()).collect()
}

fn settings() -> ProviderSettings {
    ProviderSettings {
        profile: ScanProfile::Quick,
        min_age_days: 30,
        min_size_bytes: 1 << 20,
        enabled: None,
    }
}

fn field(key: &str, value: &str) -> (String, Json) {
    (key.to_string(), Json::Text(value.to_string()))
}

fn owned_finding() -> Finding {
    ProviderFinding::object(AiAssetsProvider.metadata(), "r", "c", "o", "label", Safety::Safe, 10)
        .evidence("key", "value")
        .build()
}

#[test]
fn image_savings_use_unique_not_shared_bytes() {
    let image = Json::Object(vec![
        field("Containers", "0"),
        field("ID", "sha256:abc"),
        field("Repository", "local"),
        field("Tag", "test"),
        field("UniqueSize", "25MB"),
        field("SharedSize", "75MB"),
        field("Size", "100MB"),
        field("CreatedSince", "2 months ago"),
    ]);
    let root = Json::Object(vec![("Images".to_string(), Json::Array(vec![image]))]);
    let findings = image_findings(&root, &settings());
    assert_eq!(findings[0].bytes, 25 * 1024 * 1024);
    assert_eq!(findings[0].size.shared, 75 * 1024 * 1024);
}

#[test]
fn parses_nul_delimited_worktree_porcelain() {
    let data = b"worktree /repo\0HEAD abc\0branch refs/heads/main\0\0worktree /tmp/missing\0HEAD def\0prunable gone\0\0";
    let worktrees = parse_worktrees(data);
    assert_eq!(worktrees.len(), 2);
    assert_eq!(worktrees[0].branch.as_deref(), Some("refs/heads/main"));
    assert_eq!(worktrees[1].prunable.as_deref(), Some("gone"));
}

fn receipt(name: &str, requested: bool, dependencies: &[&str]) -> FormulaReceipt {
    FormulaReceipt {
        full_name: name.to_string(),
        version: "1.0".to_string(),
        path: format!("/{name}/INSTALL_RECEIPT.json"),
        keg_path: format!("/{name}/1.0"),
        requested: Some(requested),
        poured_from_bottle: true,
        dependencies: texts(dependencies),
        aliases: Vec::new(),
        modified: 0,
    }
}

fn rack(name: &str, receipt: FormulaReceipt) -> Rack {
    Rack { name: name.to_string(), receipts: vec![receipt] }
}

fn no_keepers() -> Keepers {
    Keepers { casks: Vec::new(), pinned: Vec::new(), linked: Vec::new(), excluded: Vec::new() }
}

#[test]
fn complete_receipt_graph_protects_untrusted_tap_dependencies() {
    let receipts = vec![
        rack("krunkit", receipt("krunkit", true, &["libkrun"])),
        rack("libkrun", receipt("libkrun", false, &["libepoxy"])),
        rack("libepoxy", receipt("libepoxy", false, &[])),
    ];
    let graph = dependency_analysis(&receipts, &no_keepers());
    assert!(graph.reachable.contains(&"libepoxy".to_string()));
    assert!(!graph.unreachable.contains(&"libepoxy".to_string()));
}

#[test]
fn aliases_keep_renamed_formulae_reachable() {
    let mut renamed = receipt("new-name", false, &["leaf"]);
    renamed.aliases.push("old-name".to_string());
    let receipts = vec![
        rack("root", receipt("root", true, &["old-name"])),
        rack("new-name", renamed),
        rack("leaf", receipt("leaf", false, &[])),
    ];
    let graph = dependency_analysis(&receipts, &no_keepers());
    assert!(graph.reachable.contains(&"new-name".to_string()));
    assert!(graph.reachable.contains(&"leaf".to_string()));
}

#[test]
fn unused_formulae_are_found_unless_kept() {
    let racks = || {
        vec![
            rack("tool", receipt("tool", true, &[])),
            rack("lib", receipt("lib", false, &["deep"])),
            rack("deep", receipt("deep", false, &[])),
        ]
    };
    let graph = dependency_analysis(&racks(), &no_keepers());
    assert_eq!(graph.unreachable, texts(&["deep", "lib"]));
    let mut kept = no_keepers();
    kept.pinned = texts(&["lib"]);
    assert!(dependency_analysis(&racks(), &kept).unreachable.is_empty());
    let mut cask = no_keepers();
    cask.casks = texts(&["deep"]);
    assert_eq!(dependency_analysis(&racks(), &cask).unreachable, texts(&["lib"]));
    assert_eq!(normalize_name("user/tap/lib"), "lib");
    assert_eq!(pinned_formulae("a\nuser/tap/b\n"), texts(&["a", "b"]));
    assert!(contains_bytes(b"abcabd", b"abd"));
    assert!(!contains_bytes(b"abc", b"abd"));
    assert_eq!(
        disagreements("Would autoremove 1 unneeded formula:\nlib", &texts(&["lib"])),
        texts(&["lib"])
    );
}

#[test]
fn dry_run_uuid_parser_ignores_unrelated_tokens() {
    let ids = extract_uuids("Would delete D945E812-4FB8-4260-B022-EC2FC3A01A7C\nNo 1234-5678");
    assert!(ids.contains(&"D945E812-4FB8-4260-B022-EC2FC3A01A7C".to_string()));
    assert_eq!(ids.len(), 1);
}

#[test]
fn commands_are_checked_against_their_form() {
    let remove = docker_image_rm();
    let args = |list: &[&str]| texts(list);
    assert!(remove.accepts(&args(&["image", "rm", "sha256:abc"])));
    assert!(!remove.accepts(&args(&["image", "rm", "--force"])));
    assert!(matches!(
        check_command(&remove, &args(&["image", "rm", "a"]), CommandMode::ReadOnly, false),
        Err(RunRefusal::MutatingInDiscovery)
    ));
    assert!(matches!(
        check_command(&docker_info(), &args(&[]), CommandMode::Mutation, false),
        Err(RunRefusal::NotAnAction)
    ));
    assert!(matches!(
        check_command(&remove, &args(&["image"]), CommandMode::Mutation, false),
        Err(RunRefusal::Arguments)
    ));
    assert!(matches!(
        check_command(&remove, &args(&["image", "rm", "a"]), CommandMode::Mutation, true),
        Err(RunRefusal::Cancelled)
    ));
    assert!(check_command(&remove, &args(&["image", "rm", "a"]), CommandMode::Mutation, false).is_ok());
    assert!(RunRefusal::Arguments.message(&remove).contains(remove.id));
    assert!(safe_token("abc-1.2:x"));
    assert!(!safe_token("-x"));
    assert!(safe_token("a b"));
    assert!(!safe_token("a\nb"));
    assert!(!safe_token(".."));
    assert!(safe_absolute_path("/a/b"));
    assert!(!safe_absolute_path("a/b"));
}

#[test]
fn children_are_stopped_in_time() {
    assert_eq!(poll_step(true, true, true), Poll::Finished);
    assert_eq!(poll_step(false, true, true), Poll::StopCancelled);
    assert_eq!(poll_step(false, false, true), Poll::StopTimedOut);
    assert_eq!(poll_step(false, false, false), Poll::Wait);
    let policy = docker_info();
    let late = stop_message(&policy, Poll::StopTimedOut, 50);
    assert!(late.is_some_and(|m| m.contains("timed out")));
    let stopped = stop_message(&policy, Poll::StopCancelled, 50);
    assert!(stopped.is_some_and(|m| m.contains("cancelled")));
    assert_eq!(stop_message(&policy, Poll::Wait, 50), None);
    assert!(failure_message(&policy, "first\nsecond").contains("first"));
}

#[test]
fn output_keeps_a_bounded_head() {
    let mut out = BoundedOutput::new();
    out.read_bounded(b"abc", 5);
    assert!(!out.truncated);
    out.read_bounded(b"defg", 5);
    assert_eq!(out.bytes, b"abcde");
    assert!(out.truncated);
}

#[test]
fn programs_are_looked_for_in_fixed_places() {
    let places = resolve_candidate("brew", &texts(&["/usr/bin"]), Some("/h"));
    assert!(places.contains(&"/usr/bin/brew".to_string()));
    assert_eq!(resolve_candidate("/opt/x", &Vec::new(), None), texts(&["/opt/x"]));
}

#[test]
fn sizes_and_ages_are_read() {
    assert_eq!(parse_human_bytes("1.5GB"), Some(3 << 29));
    assert_eq!(parse_human_bytes("1,024 kB"), Some(1 << 20));
    assert_eq!(parse_human_bytes("N/A"), None);
    assert_eq!(parse_human_bytes("3 furlongs"), None);
    assert_eq!(age_from_human("2 months ago"), Some(60));
    assert_eq!(age_from_human("5 hours ago"), Some(0));
    assert_eq!(age_from_human("soon"), None);
    assert_eq!(age_from_iso8601("1970-01-02T00:00:00Z", 86_400 * 10), Some(9));
    assert_eq!(age_from_iso8601("2000-03-01", 951_868_800 + 86_400), Some(1));
    assert_eq!(age_from_iso8601("no date", 0), None);
}

#[test]
fn findings_are_checked_again() {
    let f = owned_finding();
    assert_eq!(evidence_value(&f, "key").as_deref(), Some("value"));
    assert_eq!(evidence_value(&f, "other"), None);
    let same = vec![owned_finding()];
    assert!(matches!(revalidate_against(&same, &f, "gone"), Revalidation::Valid));
    let verdict = revalidate_against(&Vec::new(), &f, "it changed");
    assert!(!matches!(verdict, Revalidation::Valid));
    assert_eq!(verdict.obstacle().as_deref(), Some("it changed"));
}

#[test]
fn the_standard_providers_are_found_by_their_ids() {
    let r = ProviderRegistry::standard();
    assert_eq!(r.providers.len(), 13);
    for i in 0..13 {
        assert_eq!(r.provider(r.providers[i].id), Some(i));
    }
    assert_eq!(r.provider("nobody"), None);
    let mut s = settings();
    assert!(r.eligible(&s).len() <= 13);
    s.enabled = Some(texts(&["docker"]));
    s.profile = ScanProfile::Deep;
    let only = r.eligible(&s);
    assert_eq!(only.len(), 1);
    assert_eq!(only[0].id, "docker");
    assert_eq!(r.statuses_for(&s).len(), 1);
    assert!(provider_enabled(only[0], &s));
    assert_eq!(worker_count(2), 2);
    assert_eq!(worker_count(13), 3);
}

#[test]
fn findings_go_back_to_their_providers() {
    let r = ProviderRegistry::standard();
    let mut f = owned_finding();
    assert!(matches!(r.route(&f), Route::Provider(0)));
    assert_eq!(r.execute(&f), Ok(0));
    assert!(matches!(r.revalidate(&f), Ok(None)));
    let none = ProviderRegistry::empty();
    assert_eq!(none.execute(&f), Err("provider ai-assets is not registered".to_string()));
    f.provider = None;
    assert_eq!(r.execute(&f), Err("finding is not provider-owned".to_string()));
    assert!(matches!(r.revalidate(&f), Ok(Some(Revalidation::Valid))));
}

#[test]
fn scans_end_in_a_state() {
    let m = AiAssetsProvider.metadata();
    let (ready, handed) = scan_finished(m, Ok(vec![owned_finding()]), false, 5);
    assert_eq!(ready.state, ProviderState::Ready);
    assert_eq!(ready.message, "Found 0 cleanup candidates; 1 finding total.");
    assert_eq!(handed.len(), 1);
    let (cancelled, handed) = scan_finished(m, Ok(vec![owned_finding()]), true, 5);
    assert_eq!(cancelled.state, ProviderState::Cancelled);
    assert!(handed.is_empty());
    let state = |message: &str| scan_finished(m, Err(message.to_string()), false, 5).0.state;
    assert_eq!(state("x timed out"), ProviderState::TimedOut);
    assert_eq!(state("operation not permitted"), ProviderState::PermissionDenied);
    assert_eq!(state("broken"), ProviderState::Failed);
    let gone = scan_probed(m, Capability::Unavailable("no tool".to_string()), false, 1);
    assert!(gone.is_some_and(|s| s.state == ProviderState::Unavailable));
    assert!(scan_probed(m, Capability::Available, false, 1).is_none());
    assert_eq!(unstarted_statuses(&vec![m], &Vec::new()).len(), 1);
    assert!(unstarted_statuses(&vec![m], &texts(&["ai-assets"])).is_empty());
    assert!(is_cancelled(false, 5, 5));
    assert!(!is_cancelled(false, 4, 5));
    assert_eq!(remaining(4, 10, 100), 6);
    assert_eq!(remaining(4, 10, 3), 3);
    assert_eq!(remaining(11, 10, 3), 0);
}

#[test]
fn running_containers_stay() {
    let container = |state: &str| {
        Json::Object(vec![
            field("ID", "0123456789abcdef"),
            field("Names", "web"),
            field("State", state),
            field("Size", "20MB"),
            field("CreatedAt", "2020-01-01 00:00:00 +0000 UTC"),
            field("RunningFor", "2 months ago"),
        ])
    };
    let root = |state: &str| {
        Json::Object(vec![("Containers".to_string(), Json::Array(vec![container(state)]))])
    };
    for f in container_findings(&root("running"), &settings()) {
        assert!(f.safety == Safety::Protected || f.report_only || f.native_action.is_none());
    }
    assert_eq!(container_findings(&root("exited"), &settings()).len(), 1);
    assert_eq!(short_id("sha256:0123456789abcdef"), "0123456789ab");
    assert_eq!(compose_project("a=b,com.docker.compose.project=shop"), "shop");
    assert_eq!(compose_project(""), "none");
    assert!(remote_context("far", "ssh://host").is_some());
    assert!(remote_context("default", "unix:///var/run/docker.sock").is_none());
    assert!(volume_findings(&root("running"), &settings()).is_empty());
    assert!(build_cache_findings(&root("running"), &settings(), 0).is_empty());
    assert!(scan_output("not json", None, &settings()).is_err());
    assert!(plan_docker(&owned_finding()).is_err());
}

#[test]
fn worktrees_with_local_work_are_protected() {
    let tree = |path: &str, branch: Option<&str>| Worktree {
        path: path.to_string(),
        head: "abc".to_string(),
        branch: branch.map(|s| s.to_string()),
        detached: false,
        locked: None,
        prunable: None,
    };
    let trees = vec![tree("/repo", Some("refs/heads/main")), tree("/wt", Some("refs/heads/x"))];
    let facts = |status: &str| {
        vec![WorktreeFacts {
            is_dir: true,
            cancelled: false,
            last_commit: Some("0".to_string()),
            bytes: 50 << 20,
            status: Some(status.to_string()),
            upstream: Some("origin/x".to_string()),
            counts: Some("0\t0".to_string()),
        }]
    };
    let dirty = worktree_findings(&trees, "", &facts(" M file"), &settings(), 86_400 * 1000);
    assert!(dirty.iter().all(|f| f.native_action.is_none() || f.safety == Safety::Protected));
    let clean = worktree_findings(&trees, "", &facts(""), &settings(), 86_400 * 1000);
    assert_eq!(clean.len(), 1);
    assert!(clean[0].native_action.is_some());
    assert_eq!(parse_counts("3\t4"), Some((3, 4)));
    assert_eq!(parse_counts("x"), None);
    let hash = "a".repeat(64);
    assert_eq!(lfs_hashes(&format!(" * {hash} \n * short\n{hash}")), vec![hash]);
}

fn candidate(path: &str, identity: u64) -> Candidate {
    Candidate {
        path: path.to_string(),
        logical: 100 << 20,
        physical: 100 << 20,
        identity: Some((1, identity)),
    }
}

#[test]
fn one_copy_is_kept() {
    assert_eq!(groups_by_size(&vec![5, 7, 5]), [vec![0, 2]]);
    assert_eq!(groups_by_hash(&vec![Some(vec![1]), None, Some(vec![1])]), [vec![0, 2]]);
    let files = vec![candidate("/a", 1), candidate("/b", 1), candidate("/c", 2)];
    let distinct = distinct_files(&files);
    assert_eq!(distinct.len(), 2);
    assert!(duplicate_finding(&vec![1, 2], &distinct, false).is_some());
    assert_eq!(copies_to_remove(&texts(&["/a", "/c"]), "/a"), texts(&["/c"]));
}

#[test]
fn leftovers_belong_to_no_app() {
    let installed = texts(&["com.acme.app"]);
    assert!(owned_by_installed_app("com.acme.app.helper", &installed));
    assert!(!left_over("com.acme.app", &installed, &Vec::new()));
    assert!(left_over("com.other.thing", &installed, &Vec::new()));
    assert!(plausible_bundle_id("com.other.thing"));
    assert!(!plausible_bundle_id("readme"));
    let text = b"<?xml version=\"1.0\"?><plist version=\"1.0\"><dict><key>CFBundleIdentifier</key><string>com.x.y</string></dict></plist>";
    assert_eq!(bundle_id_from_plist(text).as_deref(), Some("com.x.y"));
    assert_eq!(bundle_id_from_plist(b"?"), None);
}

#[test]
fn tools_are_understood() {
    assert_eq!(rust_toolchain_channel("[toolchain]\nchannel = \"1.80\"").as_deref(), Some("1.80"));
    assert_eq!(rust_toolchain_channel("nightly\n").as_deref(), Some("nightly"));
    assert!(version_matches("3.11", "3.11.4"));
    assert!(!version_matches("3.1", "3.11.4"));
    assert_eq!(rustup_installed("stable-x (default)\nnightly-x\n").len(), 2);
    assert_eq!(hf_repo_id("models--org--name").as_deref(), Some("model/org/name"));
    assert_eq!(hf_repo_id("other"), None);
    assert!(ollama_running_models("NAME ID\nllama3:latest abc\n").contains(&"llama3:latest".to_string()));
    assert_eq!(android_home(Some("/sdk"), None, None).as_deref(), Some("/sdk"));
    assert_eq!(normalize_relative("/a//b/"), "a//b");
    assert!(!definitions(Some("/h")).is_empty());
    assert_eq!(latest_age_days(Stamp::Unknown, Stamp::Ago(3 * 86_400), 10 * 86_400), 3);
    let vms = read_lima(r#"{"name":"default","status":"Running","dir":"/l","disk":5}"#);
    assert_eq!(vms.len(), 1);
    assert_eq!(vms[0].status, "Running");
    assert!(parse_json("[]").is_some_and(|j| j.as_array().is_some()));
}
