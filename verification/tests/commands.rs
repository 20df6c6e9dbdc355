use hokori::providers::command::CommandPolicy;
use hokori::providers::homebrew::BrewStep;
use hokori::providers::tool_cache_gc::definitions;
use hokori::providers::xcode::XcodeStep;
use hokori::providers::{
    ScanProfile, ai_assets, android, docker, git, homebrew, native_gc, toolchains, vms, xcode,
};
use hokori::report::{
    Confidence, Evidence, Finding, FindingSize, FindingState, FindingTarget, ProviderAction,
};
use hokori::rules::Safety;
use hokori::taxonomy::category_info;

fn acting(action: &str, object: &str) -> Finding {
    let info = category_info("test");
    Finding {
        stable_id: "test".to_string(),
        rule_id: "test".to_string(),
        category: "test".to_string(),
        section: info.section,
        subgroup: info.subgroup,
        safety: Safety::Review,
        target: FindingTarget::Filesystem { path: "/h/x".to_string() },
        path: "/h/x".to_string(),
        bytes: 1,
        size: FindingSize::exact_physical(1),
        files: 1,
        dirs: 0,
        age_days: None,
        recent: false,
        report_only: false,
        in_use: false,
        manual_only: true,
        confidence: Confidence::High,
        state: FindingState::Candidate,
        provider: None,
        reason: String::new(),
        evidence: vec![
            Evidence { label: "Repository".to_string(), value: "/h/repo".to_string() },
            Evidence { label: "Cache".to_string(), value: "/h/cache".to_string() },
        ],
        native_action: Some(ProviderAction {
            provider_id: "test".to_string(),
            action_id: action.to_string(),
            object_id: object.to_string(),
            preview: Vec::new(),
            irreversible: true,
            strong_confirmation: true,
        }),
        supersedes: Vec::new(),
        description: None,
        impact: None,
        recommendation: None,
        clean_via: Vec::new(),
        member_paths: Vec::new(),
    }
}

/// A command runs the tool, changes things, is local, and is one that its policy
/// accepts.
fn runs(command: (CommandPolicy, Vec<String>), tool: &str, line: &str) {
    let (policy, args) = command;
    assert!(!policy.executables.is_empty());
    for program in policy.executables {
        assert_eq!(program.rsplit('/').next(), Some(tool), "{}", policy.id);
    }
    assert!(policy.mutating && !policy.network, "{}", policy.id);
    assert_eq!(args.join(" "), line);
    assert!(policy.accepts(&args), "{}", policy.id);
}

#[test]
fn assets_are_removed_by_their_tools() {
    let plan = |action: &str, object: &str| ai_assets::plan_action(&acting(action, object)).ok().unwrap();
    runs(plan("hf-prune-detached", "x"), "hf", "cache prune --cache-dir /h/cache --yes");
    runs(plan("hf-remove-repository", "m"), "hf", "cache rm m --cache-dir /h/cache --yes");
    runs(plan("ollama-remove-model", "m"), "ollama", "rm m");
    let plan = |action: &str, object: &str| android::plan_action(&acting(action, object)).ok().unwrap();
    runs(plan("delete-avd", "pixel"), "avdmanager", "delete avd --name pixel");
    runs(plan("uninstall-system-image", "images;x"), "sdkmanager", "--uninstall images;x");
}

#[test]
fn machines_are_removed_by_their_tools() {
    let plan = |action: &str, object: &str| docker::plan_action(&acting(action, object)).ok().unwrap();
    runs(plan("remove-image", "i"), "docker", "image rm i");
    runs(plan("remove-container", "c"), "docker", "container rm c");
    runs(plan("remove-volume", "v"), "docker", "volume rm v");
    runs(plan("remove-network", "n"), "docker", "network rm n");
    runs(
        plan("prune-build-cache", "older-than-30-days"),
        "docker",
        "builder prune --force --filter until=720h",
    );
    let (policy, args) = plan("remove-image", "i");
    assert!(!plan("remove-volume", "v").0.accepts(&args));
    assert!(!policy.accepts(&vec!["image".to_string(), "rm".to_string(), "-f".to_string()]));
    let plan = |action: &str, object: &str| vms::plan_action(&acting(action, object)).ok().unwrap();
    runs(plan("lima-delete", "m"), "limactl", "delete --yes m");
    runs(plan("colima-delete", "m"), "colima", "delete --force --profile m");
    runs(plan("multipass-delete", "m"), "multipass", "delete --purge m");
    runs(plan("orbstack-delete", "m"), "orbctl", "delete --force m");
}

#[test]
fn repositories_are_pruned_by_git() {
    let plan = |action: &str, object: &str| git::plan_action(&acting(action, object)).ok().unwrap();
    runs(plan("remove-worktree", "/h/w"), "git", "-C /h/repo worktree remove -- /h/w");
    runs(plan("prune-worktree-metadata", "x"), "git", "-C /h/repo worktree prune --verbose");
    runs(plan("prune-lfs", "x"), "git", "-C /h/repo lfs prune");
    runs(plan("maintenance", "x"), "git", "-C /h/repo maintenance run --auto");
    let (policy, args) = plan("prune-lfs-verified", "x");
    assert!(policy.mutating && policy.network && policy.accepts(&args));
    let (policy, args) = git::lfs_preview("/h/repo", ScanProfile::Deep);
    assert!(!policy.mutating && policy.network && policy.accepts(&args));
    let (policy, args) = git::lfs_preview("/h/repo", ScanProfile::Quick);
    assert!(!policy.mutating && !policy.network && policy.accepts(&args));
}

#[test]
fn packages_are_removed_by_their_tools() {
    let brew = |action: &str| match homebrew::plan_action(&acting(action, "wget")).ok().unwrap() {
        BrewStep::Command(policy, args) => (policy, args),
        BrewStep::Remove(_) => panic!("no command"),
    };
    runs(brew("cleanup-formula"), "brew", "cleanup wget");
    runs(brew("uninstall-formula"), "brew", "uninstall --formula wget");
    let plan = |action: &str| native_gc::plan_action(&acting(action, "x")).ok().unwrap();
    runs(plan("conda-clean"), "conda", "clean --all --yes");
    runs(plan("nix-gc"), "nix", "store gc");
    runs(plan("macports-reclaim"), "port", "-N reclaim");
    let plan = |action: &str, object: &str| toolchains::plan_action(&acting(action, object)).ok().unwrap();
    runs(plan("mise-uninstall", "node@1"), "mise", "uninstall --yes node@1");
    runs(plan("mise-prune-configs", "x"), "mise", "prune --configs --yes");
    runs(plan("rustup-uninstall", "nightly"), "rustup", "toolchain uninstall nightly");
    runs(plan("pyenv-uninstall", "3.1"), "pyenv", "uninstall -f 3.1");
    runs(plan("rbenv-uninstall", "3.1"), "rbenv", "uninstall -f 3.1");
    runs(plan("asdf-uninstall", "node@1"), "asdf", "uninstall node 1");
    runs(plan("fvm-remove", "3"), "fvm", "remove 3");
    let simulators = |action: &str| match xcode::plan_action(&acting(action, "id"), &None).ok().unwrap() {
        XcodeStep::Command(policy, args) => (policy, args),
        XcodeStep::Remove(_) => panic!("no command"),
    };
    runs(simulators("delete-device"), "xcrun", "simctl delete id");
    runs(simulators("delete-runtime"), "xcrun", "simctl runtime delete id");
    runs(simulators("remove-dyld-cache"), "xcrun", "simctl runtime dyld_shared_cache remove id");
    runs(simulators("swift-purge-cache"), "swift", "package purge-cache");
}

#[test]
fn caches_are_pruned_by_their_tools() {
    let caches = definitions(Some("/h"));
    let tools = ["uv", "pnpm", "pip", "pod", "go", "go", "dotnet"];
    assert_eq!(caches.len(), tools.len());
    for (cache, tool) in caches.iter().zip(tools) {
        assert_eq!(cache.policy.executables[0], tool);
        assert!(cache.policy.mutating && !cache.policy.network);
        assert!(cache.policy.accepts(&cache.args));
    }
    assert!(!caches[0].policy.accepts(&caches[1].args));
}
