use hokori::providers::git::{
    Repository, Worktree, WorktreeFacts, command_args, command_text, common_git_dir,
    epoch_age_days, executed as git_executed, lfs_findings, lfs_preview, linked_git_dir,
    linked_worktrees, main_repositories, object_path, plan_action as plan_git, prunable_count,
    recheck_worktree, repository_maintenance_findings, repository_work, upstream_name,
    worktree_findings,
};
use hokori::providers::homebrew::{
    BrewLayout, BrewStep, CacheFiles, CacheStep, FormulaReceipt, KegFile, Rack, RackFiles, TapHead,
    active_keg_version, active_receipt, cache_descends, cache_findings, cache_step,
    cleanup_exclusions, contains_bytes, current_formula_names, dependency_findings, dependents,
    disagreement_finding, disagreements, discover_layout, executed as brew_executed,
    has_old_versions, head_reference, is_searched, keepme_paths, link_text, links_descend,
    old_downloads, old_keg_finding, old_versions, plan_action as plan_brew, read_cask_dependencies,
    read_formula_receipts, read_git_head, recheck as recheck_brew, tap_head,
};
use hokori::providers::native_gc::{
    conda_findings, executed as gc_executed, macports_findings, nix_findings,
    plan_action as plan_gc, preview_text, probe as probe_gc, recursive_path_count, recursive_size,
    scan_findings as scan_gc,
};
use hokori::providers::tool_cache_gc::{
    CacheFacts, definitions, executed as cache_executed, plan_action as plan_cache,
    revalidate as revalidate_cache, scan_findings as scan_caches,
};
use hokori::json::{Json, parse_json};
use hokori::providers::{
    Capability, ProviderSettings, Revalidation, ScanProfile, evidence_value,
};
use hokori::report::{Confidence, Finding, FindingState, SizeAccuracy};
use hokori::rules::Safety;

const MIB: u64 = 1 << 20;

fn texts(list: &[&str]) -> Vec<String> {
    list.iter().map(|s| s.to_string()).collect()
}

fn settings(profile: ScanProfile) -> ProviderSettings {
    ProviderSettings { profile, min_age_days: 30, min_size_bytes: MIB, enabled: None }
}

fn quick() -> ProviderSettings {
    settings(ScanProfile::Quick)
}

fn evidence(finding: &Finding, label: &str) -> String {
    evidence_value(finding, label).unwrap()
}

fn json(text: &str) -> Json {
    parse_json(text).unwrap()
}

// ---- git ----

fn tree(path: &str, branch: Option<&str>) -> Worktree {
    Worktree {
        path: path.to_string(),
        head: "0123456789abcdef".to_string(),
        branch: branch.map(|s| s.to_string()),
        detached: branch.is_none(),
        locked: None,
        prunable: None,
    }
}

fn facts() -> WorktreeFacts {
    WorktreeFacts {
        is_dir: true,
        cancelled: false,
        last_commit: Some("0".to_string()),
        bytes: 2 * MIB,
        status: Some(String::new()),
        upstream: Some("origin/x\n".to_string()),
        counts: Some("5\t0".to_string()),
    }
}

fn found(worktree: Worktree, known: WorktreeFacts) -> Vec<Finding> {
    let trees = vec![tree("/code/repo", Some("refs/heads/main")), worktree];
    worktree_findings(&trees, "", &vec![known], &quick(), 40 * 86_400)
}

#[test]
fn clean_old_worktrees_are_offered() {
    let findings = found(tree("/wt/x", Some("refs/heads/x")), facts());
    assert_eq!(findings.len(), 1);
    let finding = &findings[0];
    assert_eq!(finding.stable_id, "provider:git:git-stale-worktree:/wt/x");
    assert_eq!(finding.safety, Safety::Review);
    assert_eq!(finding.bytes, 2 * MIB);
    assert_eq!(finding.age_days, Some(40));
    assert!(finding.manual_only && !finding.report_only);
    assert_eq!(evidence(finding, "HEAD"), "0123456789ab");
    assert_eq!(evidence(finding, "Upstream"), "origin/x");
    assert_eq!(evidence(finding, "Ahead/behind"), "0 ahead, 5 behind");
    let (policy, args) = plan_git(finding).ok().unwrap();
    assert_eq!(policy.id, "git-worktree-remove");
    assert_eq!(args, texts(&["-C", "/code/repo", "worktree", "remove", "--", "/wt/x"]));
    assert_eq!(git_executed(finding).unwrap().message, "Git action remove-worktree completed.");

    assert!(matches!(recheck_worktree(finding, true, ""), Ok(None)));
    assert!(matches!(recheck_worktree(finding, false, ""), Ok(Some(Revalidation::Gone(_)))));
    assert!(matches!(recheck_worktree(finding, true, "?? a"), Ok(Some(Revalidation::Blocked(_)))));
}

#[test]
fn local_work_is_never_offered() {
    let mut dirty = facts();
    dirty.status = Some("?? new".to_string());
    let mut unreadable = facts();
    unreadable.status = None;
    let mut ahead = facts();
    ahead.counts = Some("0 3".to_string());
    let mut homeless = facts();
    homeless.upstream = Some("\n".to_string());
    homeless.counts = None;
    let branch = || tree("/wt/x", Some("refs/heads/x"));
    for (worktree, known, reason) in [
        (branch(), dirty, "The worktree is old but contains uncommitted or untracked files."),
        (branch(), unreadable, "The worktree is old but contains uncommitted or untracked files."),
        (branch(), ahead, "The worktree branch contains commits not present in its upstream."),
        (branch(), homeless, "The worktree is old but its branch has no configured upstream."),
        (
            tree("/wt/x", None),
            facts(),
            "The worktree is old and detached, so branch ownership is ambiguous.",
        ),
    ] {
        let findings = found(worktree, known);
        assert_eq!(findings[0].rule_id, "git-protected-stale-worktree");
        assert_eq!(findings[0].safety, Safety::Protected);
        assert_eq!(findings[0].bytes, 0);
        assert!(findings[0].native_action.is_none() && findings[0].report_only);
        assert_eq!(findings[0].reason, reason);
    }
}

#[test]
fn young_small_and_locked_worktrees_are_left_out() {
    let branch = || tree("/wt/x", Some("refs/heads/x"));
    let mut locked = branch();
    locked.locked = Some(String::new());
    let mut young = facts();
    young.last_commit = Some((39 * 86_400).to_string());
    let mut undated = facts();
    undated.last_commit = None;
    let mut small = facts();
    small.bytes = MIB - 1;
    let mut gone = facts();
    gone.is_dir = false;
    let mut cancelled = facts();
    cancelled.cancelled = true;
    assert!(found(locked, facts()).is_empty());
    for known in [young, undated, small, gone, cancelled] {
        assert!(found(branch(), known).is_empty());
    }
}

#[test]
fn missing_worktrees_are_pruned() {
    let mut missing = tree("/gone", Some("refs/heads/g"));
    missing.prunable = Some("gitdir file points to non-existent location".to_string());
    let trees = vec![tree("/code/repo", Some("refs/heads/main")), missing];
    assert_eq!(prunable_count(&trees), 1);
    assert!(linked_worktrees(&trees).is_empty());
    let findings =
        worktree_findings(&trees, "Removing worktrees/g\nmore", &Vec::new(), &quick(), 0);
    assert_eq!(findings.len(), 1);
    assert_eq!(findings[0].rule_id, "git-prunable-worktree-metadata");
    assert_eq!(evidence(&findings[0], "Git preview"), "Removing worktrees/g");
    assert_eq!(evidence(&findings[0], "Records"), "1");
    let (_, args) = plan_git(&findings[0]).ok().unwrap();
    assert_eq!(args, texts(&["-C", "/code/repo", "worktree", "prune", "--verbose"]));
    let silent = worktree_findings(&trees, "", &Vec::new(), &quick(), 0);
    assert_eq!(evidence(&silent[0], "Git preview"), "stale metadata confirmed");
}

#[test]
fn repositories_are_told_apart_by_their_data() {
    let at = |path: &str, common: Option<&str>| Repository {
        path: path.to_string(),
        common: common.map(|s| s.to_string()),
    };
    let known = vec![
        at("/b", Some("/b/.git")),
        at("/b-linked", Some("/b/.git")),
        at("/a", Some("/a/.git")),
        at("/none", None),
    ];
    assert_eq!(main_repositories(&known), texts(&["/a", "/b"]));
    assert_eq!(
        linked_git_dir("/w", " gitdir: /r/.git/worktrees/w\n").as_deref(),
        Some("/r/.git/worktrees/w")
    );
    assert_eq!(linked_git_dir("/w", "gitdir: ../r").as_deref(), Some("/w/../r"));
    assert_eq!(linked_git_dir("/w", "other"), None);
    assert_eq!(common_git_dir("/r/.git/worktrees/w").as_deref(), Some("/r/.git"));
    assert_eq!(common_git_dir("/r/.git/modules/m").as_deref(), Some("/r/.git/modules/m"));
    let work = repository_work(ScanProfile::Deep, true, false, 100 * MIB);
    assert!(work.worktrees && !work.lfs && work.maintenance);
    assert!(!repository_work(ScanProfile::Quick, true, true, 100 * MIB).maintenance);
    assert!(!repository_work(ScanProfile::Deep, true, true, 100 * MIB - 1).maintenance);
    assert_eq!(command_args("/r", &["status"]), texts(&["-C", "/r", "status"]));
    assert_eq!(command_text("", "warned\n\n"), "warned");
    assert_eq!(command_text("out\n", "warned"), "out");
    assert_eq!(upstream_name(&Some(" origin/x ".to_string())).as_deref(), Some("origin/x"));
    assert_eq!(upstream_name(&Some(" ".to_string())), None);
    assert_eq!(epoch_age_days(86_400, 3 * 86_400), 2);
    assert_eq!(epoch_age_days(86_401, 86_400), 0);
}

#[test]
fn prunable_lfs_objects_are_reported() {
    let hash = "ab".repeat(32);
    assert_eq!(object_path("/o", &hash), format!("/o/ab/ab/{hash}"));
    let hashes = vec![hash];
    let findings = lfs_findings("/code/repo", &hashes, 3 * MIB, &quick());
    assert_eq!(findings[0].rule_id, "git-lfs-prunable-objects");
    assert_eq!(evidence(&findings[0], "Objects"), "1");
    let (policy, args) = plan_git(&findings[0]).ok().unwrap();
    assert_eq!(policy.id, "git-lfs-prune");
    assert_eq!(args, texts(&["-C", "/code/repo", "lfs", "prune"]));
    let deep = lfs_findings("/code/repo", &hashes, 3 * MIB, &settings(ScanProfile::Deep));
    let (policy, args) = plan_git(&deep[0]).ok().unwrap();
    assert_eq!(policy.id, "git-lfs-prune-verify");
    assert_eq!(args, texts(&["-C", "/code/repo", "lfs", "prune", "--verify-remote"]));
    assert!(lfs_findings("/code/repo", &hashes, MIB - 1, &quick()).is_empty());
    assert!(lfs_findings("/code/repo", &Vec::new(), 3 * MIB, &quick()).is_empty());
    let (policy, args) = lfs_preview("/r", ScanProfile::Deep);
    assert_eq!(policy.id, "git-lfs-prune-verify-preview");
    assert_eq!(
        args,
        texts(&["-C", "/r", "lfs", "prune", "--dry-run", "--verbose", "--verify-remote"])
    );
}

#[test]
fn loose_objects_recommend_maintenance() {
    let printed = "count: 2000\nsize: 8.00 MiB\nin-pack: 9\n";
    let findings = repository_maintenance_findings("/code/repo", printed, &quick());
    assert_eq!(findings[0].bytes, 4 * MIB);
    assert_eq!(findings[0].size.accuracy, SizeAccuracy::Estimated);
    assert_eq!(evidence(&findings[0], "Loose size"), "8.00 MiB");
    let (_, args) = plan_git(&findings[0]).ok().unwrap();
    assert_eq!(args, texts(&["-C", "/code/repo", "maintenance", "run", "--auto"]));
    let few = "count: 999\nsize: 8.00 MiB\n";
    assert!(repository_maintenance_findings("/code/repo", few, &quick()).is_empty());
}

// ---- Homebrew ----

fn layout() -> BrewLayout {
    discover_layout("/opt/homebrew\n", "/h/Library/Caches/Homebrew\n", "Homebrew 4.1\nx", "arm64")
        .ok()
        .unwrap()
}

fn receipt(name: &str, version: &str, dependencies: &[&str], modified: u64) -> FormulaReceipt {
    FormulaReceipt {
        full_name: name.to_string(),
        version: version.to_string(),
        path: format!("/c/{name}/{version}/INSTALL_RECEIPT.json"),
        keg_path: format!("/c/{name}/{version}"),
        requested: Some(false),
        poured_from_bottle: true,
        dependencies: texts(dependencies),
        aliases: Vec::new(),
        modified,
    }
}

#[test]
fn the_layout_of_homebrew_is_absolute() {
    let known = layout();
    assert_eq!(known.cellar, "/opt/homebrew/Cellar");
    assert_eq!(known.caskroom, "/opt/homebrew/Caskroom");
    assert_eq!(known.version, "Homebrew 4.1");
    assert_eq!(discover_layout("/p", "/c", "", "x").ok().unwrap().version, "Homebrew");
    assert_eq!(
        discover_layout("opt", "/c", "", "x").err().unwrap(),
        "Homebrew returned an invalid prefix"
    );
    assert_eq!(
        discover_layout("/p", "", "", "x").err().unwrap(),
        "Homebrew returned an invalid cache path"
    );
}

#[test]
fn receipts_are_read() {
    let keg = |version: &str, contents: &str| KegFile {
        version: version.to_string(),
        is_dir: true,
        path: format!("/c/jq/{version}/INSTALL_RECEIPT.json"),
        keg_path: format!("/c/jq/{version}"),
        contents: Some(contents.to_string()),
        modified: 7,
    };
    let files = vec![RackFiles {
        name: "jq".to_string(),
        is_dir: true,
        cancelled: false,
        kegs: vec![
            keg(
                "1.7",
                "{\"source\":{\"tap\":\"me/tap\"},\"runtime_dependencies\":[{\"full_name\":\"me/tap/onig\"}],\"aliases\":[\"a/b\"],\"installed_on_request\":true,\"poured_from_bottle\":true}",
            ),
            keg("1.6", "{}"),
            keg("1.5", "broken"),
        ],
    }];
    let racks = read_formula_receipts(&files);
    assert_eq!(racks.len(), 1);
    assert_eq!(racks[0].receipts.len(), 2);
    let first = &racks[0].receipts[0];
    assert_eq!(first.full_name, "me/tap/jq");
    assert_eq!(first.dependencies, texts(&["onig"]));
    assert_eq!(first.aliases, texts(&["b"]));
    assert_eq!(first.requested, Some(true));
    let second = &racks[0].receipts[1];
    assert_eq!(second.full_name, "jq");
    assert_eq!(second.requested, None);
    assert!(!second.poured_from_bottle);

    let cask = "{\"runtime_dependencies\":{\"formula\":[{\"full_name\":\"x/y/openssl\"},{}]}}";
    assert_eq!(
        read_cask_dependencies(&vec![Some(cask.to_string()), None, Some("no".to_string())]),
        texts(&["openssl"])
    );
    assert_eq!(cleanup_exclusions(" a/b , ,c"), texts(&["b", "c"]));
}

#[test]
fn old_kegs_stand_beside_the_active_one() {
    let rack = Rack {
        name: "jq".to_string(),
        receipts: vec![
            receipt("me/tap/jq", "1.5", &[], 1),
            receipt("me/tap/jq", "1.6", &[], 9),
            receipt("me/tap/jq", "1.7", &[], 3),
        ],
    };
    assert_eq!(active_receipt(&rack.receipts), Some(1));
    assert_eq!(active_keg_version(&rack, Some("../Cellar/jq/1.7")).as_deref(), Some("1.7"));
    assert_eq!(active_keg_version(&rack, None).as_deref(), Some("1.6"));
    assert!(has_old_versions(&rack, &Vec::new()));
    assert!(!has_old_versions(&rack, &texts(&["jq"])));
    let active = Some("1.7".to_string());
    let old = old_versions(&rack.receipts, &vec![true, false, false], &active);
    assert_eq!(old.len(), 1);
    assert_eq!(old[0].version, "1.6");
    let finding = old_keg_finding(&layout(), &rack, &active, &old, 2 * MIB, &quick()).unwrap();
    assert_eq!(finding.stable_id, "provider:homebrew:homebrew-old-kegs:me/tap/jq");
    assert_eq!(finding.member_paths, texts(&["/c/me/tap/jq/1.6"]));
    assert_eq!(evidence(&finding, "Active version"), "1.7");
    assert_eq!(evidence(&finding, "Old versions"), "1.6");
    assert!(finding.manual_only);
    match plan_brew(&finding).ok().unwrap() {
        BrewStep::Command(policy, args) => {
            assert_eq!(policy.id, "homebrew-cleanup-formula");
            assert_eq!(args, texts(&["cleanup", "me/tap/jq"]));
        }
        BrewStep::Remove(_) => panic!("a formula is cleaned by Homebrew"),
    }
    assert_eq!(
        brew_executed(&finding, 0).unwrap().message,
        "Cleaned old Homebrew kegs for me/tap/jq."
    );
    assert!(old_keg_finding(&layout(), &rack, &active, &old, MIB - 1, &quick()).is_none());
    assert!(old_keg_finding(&layout(), &rack, &active, &Vec::new(), 2 * MIB, &quick()).is_none());
    assert_eq!(keepme_paths(" /a \n\n/b"), texts(&["/a", "/b"]));
}

#[test]
fn unused_dependencies_are_offered() {
    let racks = vec![Rack { name: "leaf".to_string(), receipts: vec![receipt("leaf", "2", &[], 1)] }];
    let names = texts(&["leaf", "unknown"]);
    let findings = dependency_findings(&names, &vec![5, 6], &layout(), &racks);
    assert_eq!(findings.len(), 1);
    assert_eq!(findings[0].rule_id, "homebrew-unused-dependency");
    assert_eq!(findings[0].bytes, 5);
    assert_eq!(findings[0].confidence, Confidence::High);
    assert_eq!(evidence(&findings[0], "Installed version"), "2");
    assert!(matches!(
        recheck_brew(&findings[0], "/cache", &Vec::new(), &findings),
        Ok(Revalidation::Valid)
    ));
    match recheck_brew(&findings[0], "/cache", &Vec::new(), &Vec::new()) {
        Ok(Revalidation::Changed(m)) => assert_eq!(
            m,
            "Homebrew metadata changed and this object is no longer a candidate."
        ),
        _ => panic!("a formula that is used again has changed"),
    }
}

#[test]
fn disagreements_name_what_still_depends() {
    let printed = "==> Would autoremove 2\nWarning: x\nme/tap/onig\ntwo words\n\nfree\n";
    assert_eq!(disagreements(printed, &texts(&["onig", "jq"])), texts(&["onig"]));
    let racks = vec![
        Rack { name: "jq".to_string(), receipts: vec![receipt("jq", "1", &["onig"], 1)] },
        Rack { name: "rg".to_string(), receipts: vec![receipt("rg", "1", &[], 1)] },
    ];
    assert_eq!(dependents(&racks, "onig"), texts(&["jq"]));
    let known = current_formula_names(Some("{\"formulae\":[{\"name\":\"rg\"},{}]}"));
    assert_eq!(known, texts(&["rg"]));
    assert!(current_formula_names(None).is_empty());
    let finding = disagreement_finding(&layout(), "onig", &racks, &known, &texts(&["jq"]));
    assert_eq!(finding.safety, Safety::Protected);
    assert!(finding.native_action.is_none());
    assert_eq!(evidence(&finding, "Receipt dependents"), "jq");
    assert_eq!(evidence(&finding, "Current metadata omissions"), "jq");
    assert_eq!(evidence(&finding, "Binary linkage"), "jq");
    let lonely = disagreement_finding(&layout(), "rg", &racks, &known, &Vec::new());
    assert_eq!(evidence(&lonely, "Receipt dependents"), "none");
    assert_eq!(evidence(&lonely, "Binary linkage"), "not observed");
    assert_eq!(link_text("/opt/homebrew", "onig"), "/opt/homebrew/opt/onig/");
    assert!(contains_bytes(b"xx/opt/y", b"/opt/"));
    assert!(links_descend(8, 499) && !links_descend(9, 0) && !links_descend(0, 500));
    assert!(is_searched(32 * MIB) && !is_searched(32 * MIB + 1));
}

#[test]
fn cache_files_are_sorted_out() {
    let step = |path: &str, name: &str, link: bool, dir: bool, age: u64| {
        cache_step("/cache", path, name, link, dir, age)
    };
    assert!(matches!(step("/cache/a", "a", false, false, 119), CacheStep::Skip));
    assert!(matches!(step("/cache/a", "a", false, false, 120), CacheStep::Old));
    assert!(matches!(step("/cache/A.INCOMPLETE", "A.INCOMPLETE", false, false, 0), CacheStep::Incomplete));
    assert!(matches!(step("/cache/d", "d", false, true, 200), CacheStep::Enter));
    assert!(matches!(step("/cache/l", "l", true, false, 200), CacheStep::Skip));
    assert!(matches!(step("/other/a", "a", false, false, 200), CacheStep::Skip));
    assert!(cache_descends(12, false) && !cache_descends(13, false) && !cache_descends(0, true));
    assert_eq!(old_downloads(&texts(&["/a", "/b"]), &texts(&["/b"])), texts(&["/a"]));

    let files = |list: &[&str], bytes: u64| CacheFiles { paths: texts(list), bytes };
    let findings = cache_findings(
        &layout(),
        files(&["/cache/p.incomplete"], 3),
        files(&[], 0),
        files(&["/cache/s"], 4),
        &texts(&["ruby brew upgrade"]),
    );
    assert_eq!(findings.len(), 2);
    assert_eq!(findings[0].rule_id, "homebrew-incomplete-downloads");
    assert_eq!(findings[0].bytes, 3);
    assert_eq!(findings[0].state, FindingState::InUse);
    assert!(findings[0].manual_only && findings[0].in_use);
    assert_eq!(findings[0].supersedes, texts(&["homebrew-cache"]));
    assert_eq!(findings[1].rule_id, "homebrew-stale-api-metadata");
    match plan_brew(&findings[1]).ok().unwrap() {
        BrewStep::Remove(paths) => assert_eq!(paths, texts(&["/cache/s"])),
        BrewStep::Command(_, _) => panic!("cache files are removed one by one"),
    }
    let there = vec![true];
    assert!(matches!(
        recheck_brew(&findings[1], "/cache", &there, &Vec::new()),
        Ok(Revalidation::Valid)
    ));
    assert!(matches!(
        recheck_brew(&findings[1], "/elsewhere", &there, &Vec::new()),
        Ok(Revalidation::Blocked(_))
    ));
    match recheck_brew(&findings[1], "/cache", &vec![false], &Vec::new()) {
        Ok(Revalidation::Changed(m)) => assert_eq!(m, "/cache/s no longer exists."),
        _ => panic!("a file that is gone has changed"),
    }
}

#[test]
fn taps_have_heads() {
    let heads = vec![TapHead {
        organization: "me".to_string(),
        repository: "homebrew-tap".to_string(),
        head: "abc".to_string(),
    }];
    assert_eq!(tap_head(&heads, "me", "tap").as_deref(), Some("abc"));
    assert_eq!(tap_head(&heads, "me", "other"), None);
    assert_eq!(head_reference("ref: refs/heads/main\n").as_deref(), Some("refs/heads/main"));
    assert_eq!(read_git_head("abc\n", None, None).as_deref(), Some("abc"));
    assert_eq!(read_git_head("ref: r/m", Some("def\n"), None).as_deref(), Some("def"));
    assert_eq!(
        read_git_head("ref: r/m", None, Some("# packed\n111 r/x\n222 r/m\n")).as_deref(),
        Some("222")
    );
    assert_eq!(read_git_head("ref: r/m", None, None), None);
}

// ---- garbage collectors ----

#[test]
fn previews_add_up() {
    let tree = json("{\"packages\":{\"total_size\":\"2 MB\",\"paths\":[\"/a\",\"/b\"]},\"logs\":[{\"size\":5},{\"size\":7}]}");
    assert_eq!(recursive_size(&tree), Some(2 * MIB));
    assert_eq!(recursive_path_count(&tree), Some(4));
    let findings = conda_findings("{\"total_size\":3145728,\"paths\":[\"/a\"]}", &quick()).unwrap();
    assert_eq!(findings[0].bytes, 3 * MIB);
    assert_eq!(findings[0].safety, Safety::Review);
    assert_eq!(evidence(&findings[0], "Objects"), "1");
    assert!(conda_findings("{\"size\":1}", &quick()).unwrap().is_empty());
    assert!(conda_findings("broken", &quick()).unwrap().is_empty());
    let (policy, args) = plan_gc(&findings[0]).ok().unwrap();
    assert_eq!(policy.id, "conda-clean");
    assert_eq!(args, texts(&["clean", "--all", "--yes"]));
    assert_eq!(gc_executed(&findings[0]).unwrap().message, "conda clean --all --yes completed.");
}

#[test]
fn nix_previews_may_be_plain_text() {
    let printed = "would delete /nix/store/a\nwould free 2MB of x 9MB\n";
    let findings = nix_findings(printed, &quick()).unwrap();
    assert_eq!(findings[0].bytes, 2 * MIB);
    assert_eq!(evidence(&findings[0], "Store paths"), "1");
    assert_eq!(findings[0].safety, Safety::Safe);
    let listed = nix_findings("[\"/nix/store/a\",\"/nix/store/b\"]", &quick()).unwrap();
    assert_eq!(evidence(&listed[0], "Store paths"), "2");
    assert!(nix_findings("", &quick()).unwrap().is_empty());
}

#[test]
fn macports_takes_the_largest_size() {
    let findings = macports_findings("a 3MB\nb 5MB\n");
    assert_eq!(findings[0].bytes, 5 * MIB);
    assert_eq!(findings[0].size.accuracy, SizeAccuracy::Estimated);
    assert_eq!(evidence(&findings[0], "Preview"), "a 3MB | b 5MB");
    assert!(macports_findings("Nothing to RECLAIM").is_empty());
    assert!(macports_findings(" \n").is_empty());
    let all = scan_gc(None, None, Some("x 1MB"), &quick()).unwrap();
    assert_eq!(all.len(), 1);
    assert_eq!(preview_text(String::new(), "e".to_string()), "e");
    assert!(matches!(probe_gc(false, false, true), Capability::Available));
    match probe_gc(false, false, false) {
        Capability::Unavailable(m) => assert_eq!(m, "Conda, Nix, and MacPorts are not installed."),
        _ => panic!("nothing is installed"),
    }
}

#[test]
fn tool_caches_are_cleaned_by_their_tools() {
    let caches = definitions(Some("/h"));
    let ids: Vec<&str> = caches.iter().map(|c| c.object_id).collect();
    assert_eq!(
        ids,
        vec![
            "uv-cache",
            "pnpm-store",
            "pip-cache",
            "cocoapods-cache",
            "go-build-cache",
            "go-module-cache",
            "nuget-cache"
        ]
    );
    assert!(definitions(None).is_empty());
    let known = |path: &str, bytes: u64| CacheFacts {
        installed: true,
        existing: texts(&[path]),
        bytes,
    };
    let mut facts: Vec<CacheFacts> = caches.iter().map(|c| known(&c.paths[0], 2 * MIB)).collect();
    facts[2].installed = false;
    facts[4].existing.clear();
    facts[5].bytes = MIB - 1;
    let findings = scan_caches(&caches, &facts, &texts(&["/usr/bin/pnpm install"]), &quick());
    let rules: Vec<&str> = findings.iter().map(|f| f.rule_id.as_str()).collect();
    assert_eq!(
        rules,
        vec!["uv-native-prune", "pnpm-native-prune", "cocoapods-native-clean", "nuget-native-clean"]
    );
    assert_eq!(findings[0].bytes, 0);
    assert_eq!(findings[0].size.logical, 2 * MIB);
    assert_eq!(findings[0].size.accuracy, SizeAccuracy::Unknown);
    assert!(!findings[0].manual_only);
    assert!(findings[1].in_use && findings[1].manual_only);
    assert_eq!(findings[2].bytes, 2 * MIB);
    assert!(findings[2].manual_only && !findings[2].in_use);
    assert_eq!(plan_cache(&findings[2], &caches), Ok(3));
    assert!(matches!(revalidate_cache(&findings, &findings[0]), Revalidation::Valid));
    match revalidate_cache(&findings, &findings[1]) {
        Revalidation::Changed(m) => {
            assert_eq!(m, "The cache changed, disappeared, or is now in use.");
        }
        _ => panic!("a cache in use is left alone"),
    }
    let done = cache_executed(&caches[3], 9, 4);
    assert_eq!(done.freed_bytes, 5);
    assert_eq!(done.message, "CocoaPods download cache completed.");
    assert_eq!(cache_executed(&caches[3], 4, 9).freed_bytes, 0);
}
