use hokori::json::{Json, parse_json};
use hokori::providers::app_leftovers::{
    LibraryDirectory, NamedPath, PathCheck, allowed_leftover_path, application_places,
    apps_descend, bundle_paths, candidate_bundles, executed as leftovers_executed, has_extension,
    launch_service_label, left_over, leftover_candidates, leftover_finding, leftover_places,
    plausible_bundle_id, probe as probe_leftovers, receipt_id, recheck as recheck_leftovers,
    service_places,
};
use hokori::providers::xcode::{
    RuntimeSets, Stored, XcodeStep, allowed_xcode_path, archive_findings, archive_label,
    booted_runtime_identifiers, derived_data_project, derived_findings, descends,
    dyld_cache_findings, dyld_places, executed as xcode_executed, is_xcarchive, known_paths,
    orphaned_image, orphaned_runtime_storage_findings, orphaned_volume, plan_action as plan_xcode,
    platform_label, preferred_runtime_builds, probe as probe_xcode, read_inventory,
    recheck_running, runtime_findings, runtime_images, runtime_label, runtime_preview_args,
    support_findings, swift_findings, swift_paths, unavailable_device_findings,
    unavailable_devices, xcode_storage_findings,
};
use hokori::providers::{
    Capability, ProviderSettings, Revalidation, ScanProfile, evidence_value,
};
use hokori::report::{Confidence, Finding, SizeAccuracy};
use hokori::rules::Safety;

const MIB: u64 = 1 << 20;
const DERIVED: &str = "/h/Library/Developer/Xcode/DerivedData";

fn texts(list: &[&str]) -> Vec<String> {
    list.iter().map(|s| s.to_string()).collect()
}

fn settings() -> ProviderSettings {
    ProviderSettings {
        profile: ScanProfile::Quick,
        min_age_days: 30,
        min_size_bytes: MIB,
        enabled: None,
    }
}

fn evidence(finding: &Finding, label: &str) -> String {
    evidence_value(finding, label).unwrap()
}

fn json(text: &str) -> Json {
    parse_json(text).unwrap()
}

fn plist(body: &str) -> Vec<u8> {
    format!("<?xml version=\"1.0\"?><plist version=\"1.0\"><dict>{body}</dict></plist>").into_bytes()
}

fn stored(path: &str, age: Option<u64>, bytes: u64) -> Stored {
    Stored { path: path.to_string(), is_dir: true, age, bytes, info: None }
}

// ---- Xcode ----

#[test]
fn build_data_are_named_after_their_project() {
    let info = plist("<key>WorkspacePath</key><string>/code/Shop.xcworkspace</string>");
    assert_eq!(derived_data_project(&Some(info.clone())).as_deref(), Some("Shop"));
    assert_eq!(derived_data_project(&Some(b"?".to_vec())), None);
    assert_eq!(derived_data_project(&None), None);
    let mut named = stored(&format!("{DERIVED}/Shop-abc"), Some(7), 2 * MIB);
    named.info = Some(info);
    let items = vec![
        named,
        stored(&format!("{DERIVED}/Other-def"), Some(9), 2 * MIB),
        stored(&format!("{DERIVED}/young"), Some(6), 2 * MIB),
        stored(&format!("{DERIVED}/small"), Some(9), 1),
        stored(&format!("{DERIVED}/undated"), None, 2 * MIB),
    ];
    let findings = derived_findings(&items, false, &settings());
    assert_eq!(findings.len(), 2);
    assert_eq!(findings[0].rule_id, "xcode-derived-data");
    assert_eq!(evidence(&findings[0], "Project"), "Shop");
    assert_eq!(evidence(&findings[1], "Project"), "Other-def");
    assert_eq!(findings[0].path, format!("{DERIVED}/Shop-abc"));
    assert!(!findings[0].manual_only);
    match plan_xcode(&findings[0], &Some("/h".to_string())).ok().unwrap() {
        XcodeStep::Remove(path) => assert_eq!(path, format!("{DERIVED}/Shop-abc")),
        XcodeStep::Command(_, _) => panic!("build data are removed"),
    }
    assert_eq!(plan_xcode(&findings[0], &None).err().unwrap(), "home directory unavailable");
    assert_eq!(
        plan_xcode(&findings[0], &Some("/other".to_string())).err().unwrap(),
        "Xcode path is outside the allowed storage roots"
    );

    let busy = derived_findings(&items, true, &settings());
    assert!(busy.iter().all(|f| f.in_use && f.manual_only));
    let running = texts(&["/Applications/Xcode.app/Contents/MacOS/Xcode"]);
    match recheck_running(&findings[0], &running) {
        Some(Revalidation::Blocked(m)) => {
            assert_eq!(m, "Xcode is now running; close it before removing developer data.");
        }
        _ => panic!("a running Xcode keeps its data"),
    }
    assert!(recheck_running(&findings[0], &Vec::new()).is_none());
}

#[test]
fn archives_are_kept_for_two_months() {
    let info = plist(
        "<key>ApplicationProperties</key><dict><key>CFBundleName</key><string>Shop</string><key>CFBundleShortVersionString</key><string>2.1</string></dict>",
    );
    assert_eq!(archive_label(&Some(info.clone())).as_deref(), Some("Shop 2.1 archive"));
    let bare = plist("<key>ApplicationProperties</key><dict></dict>");
    assert_eq!(
        archive_label(&Some(bare)).as_deref(),
        Some("Xcode archive unknown version archive")
    );
    assert_eq!(archive_label(&Some(plist(""))), None);
    let items = vec![stored("/a/x.xcarchive", Some(60), 2 * MIB), stored("/a/y", Some(59), 2 * MIB)];
    let findings = archive_findings(&items, &settings());
    assert_eq!(findings.len(), 1);
    assert_eq!(findings[0].safety, Safety::Review);
    assert!(findings[0].manual_only);
    assert!(findings[0].native_action.as_ref().unwrap().strong_confirmation);
    assert!(is_xcarchive("/a/x.xcarchive") && !is_xcarchive("/a/x"));
    assert!(descends(3, 19_999) && !descends(4, 0) && !descends(0, 20_000));
    let support = support_findings(&vec![stored("/s/17.0 (21A)", Some(30), 2 * MIB)], &settings());
    assert_eq!(support[0].rule_id, "xcode-device-support");
    assert!(support_findings(&vec![stored("/s/x", Some(29), 2 * MIB)], &settings()).is_empty());
}

#[test]
fn the_swift_cache_is_purged() {
    assert_eq!(
        swift_paths("/h"),
        texts(&[
            "/h/.swiftpm/cache",
            "/h/Library/Caches/org.swift.swiftpm",
            "/h/Library/org.swift.swiftpm/cache"
        ])
    );
    let findings = swift_findings(3 * MIB, texts(&["/h/.swiftpm/cache"]), true, &settings());
    assert_eq!(findings[0].bytes, 3 * MIB);
    match plan_xcode(&findings[0], &None).ok().unwrap() {
        XcodeStep::Command(policy, args) => {
            assert_eq!(policy.id, "swift-package-purge-cache");
            assert_eq!(args, texts(&["package", "purge-cache"]));
        }
        XcodeStep::Remove(_) => panic!("the cache is purged by Swift"),
    }
    assert!(matches!(
        recheck_running(&findings[0], &texts(&["swift package resolve"])),
        Some(Revalidation::Blocked(_))
    ));
    assert!(swift_findings(3 * MIB, Vec::new(), false, &settings())[0].report_only);
    assert!(swift_findings(1, Vec::new(), true, &settings()).is_empty());
    let all = xcode_storage_findings(
        &Vec::new(),
        &vec![stored(&format!("{DERIVED}/a"), Some(40), 2 * MIB)],
        &vec![stored("/a/x.xcarchive", Some(70), 2 * MIB)],
        &Vec::new(),
        (2 * MIB, Vec::new(), true),
        &settings(),
    );
    let rules: Vec<&str> = all.iter().map(|f| f.rule_id.as_str()).collect();
    assert_eq!(rules, vec!["xcode-derived-data", "xcode-archive", "swiftpm-native-cache"]);
}

const DEVICES: &str = "{\"devices\":{
    \"com.apple.CoreSimulator.SimRuntime.iOS-17-0\":[{\"udid\":\"D1\",\"name\":\"iPhone\",\"state\":\"Booted\",\"isAvailable\":true}],
    \"com.apple.CoreSimulator.SimRuntime.iOS-15-0\":[{\"udid\":\"D2\",\"name\":\"Old\",\"state\":\"Shutdown\",\"isAvailable\":false,\"dataPath\":\"/d2\"},{\"isAvailable\":false}]
}}";

const RUNTIMES: &str = "{
    \"R1\":{\"deletable\":true,\"state\":\"Ready\",\"build\":\"21A\",\"runtimeIdentifier\":\"com.apple.CoreSimulator.SimRuntime.iOS-17-0\",\"path\":\"/i/1\"},
    \"R2\":{\"deletable\":true,\"state\":\"Ready\",\"build\":\"19A\",\"version\":\"15.0\",\"platformIdentifier\":\"com.apple.platform.iphonesimulator\",\"sizeBytes\":7,\"path\":\"/i/2\",\"lastUsedAt\":\"1970-01-02T00:00:00Z\"},
    \"R3\":{\"deletable\":true,\"state\":\"Unusable\",\"build\":\"18A\",\"path\":\"/i/3\"},
    \"R4\":{\"deletable\":false,\"state\":\"Unusable\",\"build\":\"17A\",\"path\":\"/i/4\"},
    \"R5\":{\"deletable\":true,\"state\":\"Ready\",\"build\":\"chosen\",\"path\":\"/i/5\"},
    \"R6\":{\"deletable\":true,\"state\":\"Ready\",\"build\":\"16A\",\"path\":\"/i/6\"}
}";

fn sets(outdated: &[&str], unused: &[&str]) -> RuntimeSets {
    RuntimeSets {
        booted: booted_runtime_identifiers(&json(DEVICES)),
        preferred: preferred_runtime_builds(&json("{\"a\":{\"chosenRuntimeBuild\":\"chosen\"},\"b\":{}}")),
        outdated: texts(outdated),
        unusable: Vec::new(),
        unused: texts(unused),
    }
}

#[test]
fn unavailable_simulators_are_deleted() {
    let devices = unavailable_devices(&json(DEVICES));
    assert_eq!(devices.len(), 1);
    assert_eq!(devices[0].data_path, "/d2");
    let findings = unavailable_device_findings(&devices, &vec![9]);
    assert_eq!(findings[0].bytes, 9);
    assert_eq!(findings[0].safety, Safety::Safe);
    assert_eq!(evidence(&findings[0], "Runtime"), "iOS 15 0");
    match plan_xcode(&findings[0], &None).ok().unwrap() {
        XcodeStep::Command(policy, args) => {
            assert_eq!(policy.id, "simctl-delete-device");
            assert_eq!(args, texts(&["simctl", "delete", "D2"]));
        }
        XcodeStep::Remove(_) => panic!("a simulator is deleted by its tool"),
    }
    assert_eq!(
        xcode_executed(&findings[0]).unwrap().message,
        "Simulator action delete-device completed."
    );
    assert_eq!(runtime_label("plain"), "plain");
    assert_eq!(platform_label("com.apple.platform.watchsimulator"), "watchOS");
    assert_eq!(platform_label("x"), "Simulator");
}

#[test]
fn needed_runtimes_stay() {
    let runtimes = json(RUNTIMES);
    assert_eq!(runtime_images(&runtimes), texts(&["/i/1", "/i/2", "/i/3", "/i/4", "/i/5", "/i/6"]));
    let physical = vec![1, 2, 3, 4, 5, 6];
    let now = 86_400 * 41;
    let findings = runtime_findings(&runtimes, &physical, &sets(&["R6"], &[]), &settings(), now);
    let rules: Vec<&str> = findings.iter().map(|f| f.rule_id.as_str()).collect();
    assert_eq!(
        rules,
        vec!["xcode-unused-runtime", "xcode-unusable-runtime", "xcode-outdated-runtime"]
    );
    assert_eq!(findings[0].bytes, 7);
    assert_eq!(findings[0].size.physical, 2);
    assert_eq!(findings[0].size.accuracy, SizeAccuracy::Estimated);
    assert_eq!(findings[0].age_days, Some(40));
    assert_eq!(evidence(&findings[0], "Last used"), "1970-01-02T00:00:00Z");
    assert_eq!(findings[1].bytes, 3);
    assert_eq!(findings[1].safety, Safety::Safe);
    assert_eq!(evidence(&findings[1], "Last used"), "unknown");
    assert!(findings.iter().all(|f| f.manual_only));
    let early = runtime_findings(&runtimes, &physical, &sets(&[], &["R6"]), &settings(), 86_400 * 2);
    let rules: Vec<&str> = early.iter().map(|f| f.rule_id.as_str()).collect();
    assert_eq!(rules, vec!["xcode-unusable-runtime", "xcode-unused-runtime"]);
}

#[test]
fn shared_caches_of_idle_runtimes_are_reported() {
    let runtimes = json(RUNTIMES);
    let large = Some(100 * MIB);
    let bytes = vec![large, large, large, large, large, Some(100 * MIB - 1)];
    let findings = dyld_cache_findings(&runtimes, &bytes, &sets(&[], &[]));
    assert_eq!(findings.len(), 1);
    assert_eq!(findings[0].rule_id, "xcode-runtime-dyld-cache");
    assert_eq!(evidence(&findings[0], "Build"), "19A");
    match plan_xcode(&findings[0], &None).ok().unwrap() {
        XcodeStep::Command(_, args) => assert_eq!(
            args,
            texts(&["simctl", "runtime", "dyld_shared_cache", "remove", "R2"])
        ),
        XcodeStep::Remove(_) => panic!("the cache is removed by its tool"),
    }
    assert_eq!(
        dyld_places("/b"),
        texts(&[
            "/b/Contents/Resources/RuntimeRoot/System/Library/dyld",
            "/b/System/Library/dyld"
        ])
    );
}

#[test]
fn storage_without_a_runtime_is_only_reported() {
    let known = known_paths(&json("{\"a\":{\"path\":\"/i/1\",\"mountPath\":\"/v/1/x\",\"runtimeBundlePath\":\"\"}}"));
    assert_eq!(known, texts(&["/i/1", "/v/1/x"]));
    assert!(orphaned_image("/i/2", true, Some(30), &known, &settings()));
    assert!(!orphaned_image("/i/1", true, Some(30), &known, &settings()));
    assert!(!orphaned_image("/i/2", false, Some(30), &known, &settings()));
    assert!(!orphaned_image("/i/2", true, Some(29), &known, &settings()));
    assert!(!orphaned_volume("/v/1", true, Some(30), &known, &settings()));
    assert!(orphaned_volume("/v/2", true, Some(30), &known, &settings()));
    let findings =
        orphaned_runtime_storage_findings(&texts(&["/i/2", "/i/3"]), &vec![MIB, 1], &settings());
    assert_eq!(findings.len(), 1);
    assert_eq!(findings[0].bytes, MIB);
    assert_eq!(findings[0].safety, Safety::Protected);
    assert!(findings[0].report_only && findings[0].native_action.is_none());
}

#[test]
fn the_simulators_are_asked() {
    assert_eq!(
        read_inventory("?", "{}", None).err().unwrap(),
        "invalid simctl device JSON"
    );
    assert_eq!(
        read_inventory("{}", "?", None).err().unwrap(),
        "invalid simctl runtime JSON"
    );
    assert!(read_inventory("{}", "{}", Some("?")).is_ok());
    assert_eq!(
        runtime_preview_args("--notUsedSinceDays", Some(30)),
        texts(&["simctl", "runtime", "delete", "--notUsedSinceDays", "30", "--dry-run"])
    );
    assert_eq!(
        runtime_preview_args("--outdated", None),
        texts(&["simctl", "runtime", "delete", "--outdated", "--dry-run"])
    );
    assert!(allowed_xcode_path("/h", "/h/Library/Developer/Xcode/Archives/x"));
    assert!(!allowed_xcode_path("/h", "/h/Library/Developer/Xcode/UserData"));
    assert!(matches!(probe_xcode(false, true, None), Capability::Available));
    assert!(matches!(probe_xcode(true, false, None), Capability::Available));
    match probe_xcode(false, false, None) {
        Capability::Unavailable(m) => assert_eq!(m, "Xcode and SwiftPM storage were not found."),
        _ => panic!("nothing to look at"),
    }
    match probe_xcode(true, true, Some("down")) {
        Capability::Unavailable(m) => assert_eq!(m, "CoreSimulator is unavailable. down"),
        _ => panic!("the simulators do not answer"),
    }
}

// ---- leftovers ----

fn directory(suffix: Option<&str>, paths: &[&str]) -> LibraryDirectory {
    LibraryDirectory {
        suffix: suffix.map(|s| s.to_string()),
        entries: paths
            .iter()
            .map(|path| NamedPath {
                name: path.rsplit('/').next().unwrap().to_string(),
                path: path.to_string(),
            })
            .collect(),
    }
}

#[test]
fn leftovers_are_gathered_by_bundle() {
    let candidates = leftover_candidates(&vec![
        directory(None, &["/h/Library/Caches/com.acme.app", "/h/Library/Caches/readme"]),
        directory(Some(".plist"), &["/h/Library/Preferences/com.acme.app.plist"]),
    ]);
    assert_eq!(candidate_bundles(&candidates), texts(&["com.acme.app"]));
    let paths = bundle_paths(&candidates, "com.acme.app");
    assert_eq!(
        paths,
        texts(&["/h/Library/Caches/com.acme.app", "/h/Library/Preferences/com.acme.app.plist"])
    );
    let finding =
        leftover_finding("/h", "com.acme.app", paths, &vec![Some(50), Some(40)], 2 * MIB, &settings())
            .unwrap();
    assert_eq!(finding.safety, Safety::Risky);
    assert_eq!(finding.confidence, Confidence::High);
    assert_eq!(finding.age_days, Some(40));
    assert!(finding.manual_only && !finding.recent);
    assert_eq!(evidence(&finding, "Locations"), "2");

    let one = |path: &str, age: u64| {
        leftover_finding("/h", "com.acme.app", texts(&[path]), &vec![Some(age)], 2 * MIB, &settings())
            .unwrap()
    };
    assert_eq!(one("/h/Library/Logs/com.acme.app", 40).confidence, Confidence::Low);
    assert_eq!(one("/h/Library/Containers/com.acme.app", 40).confidence, Confidence::High);
    assert!(one("/h/Library/Logs/com.acme.app", 3).recent);
    assert!(leftover_finding("/h", "b", Vec::new(), &Vec::new(), 2 * MIB, &settings()).is_none());
    assert!(
        leftover_finding("/h", "b", texts(&["/x"]), &vec![None], MIB - 1, &settings()).is_none()
    );
    assert!(!left_over("com.apple.mail", &Vec::new(), &Vec::new()));
    assert!(!left_over("com.acme.agent", &Vec::new(), &texts(&["com.acme.agent"])));
    assert!(!plausible_bundle_id("group.com.acme.app") && !plausible_bundle_id("com.acme"));
    assert!(!plausible_bundle_id("com.acme.my app"));
}

#[test]
fn leftovers_are_checked_before_they_go() {
    let paths = texts(&["/h/Library/Logs/com.acme.app"]);
    let finding =
        leftover_finding("/h", "com.acme.app", paths, &vec![None], 2 * MIB, &settings()).unwrap();
    let check = |exists: bool, is_symlink: bool| vec![PathCheck { exists, is_symlink }];
    let says = |home: Option<&str>, installed: &[&str], checks: &Vec<PathCheck>| {
        recheck_leftovers(home, &finding, &texts(installed), checks).ok().unwrap()
    };
    assert!(matches!(says(Some("/h"), &[], &check(true, false)), Revalidation::Valid));
    match says(Some("/h"), &["com.acme.app"], &check(true, false)) {
        Revalidation::Blocked(m) => {
            assert_eq!(m, "An installed app now owns this bundle identifier.");
        }
        _ => panic!("an installed app keeps its files"),
    }
    match says(Some("/h"), &[], &check(false, false)) {
        Revalidation::Changed(m) => {
            assert_eq!(m, "/h/Library/Logs/com.acme.app no longer exists.");
        }
        _ => panic!("a path that is gone has changed"),
    }
    match says(Some("/h"), &[], &check(true, true)) {
        Revalidation::Blocked(m) => assert_eq!(m, "/h/Library/Logs/com.acme.app is a symlink."),
        _ => panic!("links are left alone"),
    }
    assert!(matches!(says(Some("/other"), &[], &check(true, false)), Revalidation::Blocked(_)));
    match says(None, &[], &check(true, false)) {
        Revalidation::Blocked(m) => assert_eq!(m, "Home directory is unavailable."),
        _ => panic!("nothing goes without a home"),
    }
    assert_eq!(leftovers_executed(&finding, 1).message, "App leftover paths removed.");
    assert!(allowed_leftover_path("/h", "/h/Library/WebKit/x"));
    assert!(!allowed_leftover_path("/h", "/h/Documents/x"));
}

#[test]
fn installed_applications_are_known() {
    let service = plist("<key>Label</key><string>com.acme.agent</string>");
    assert_eq!(launch_service_label(&service).as_deref(), Some("com.acme.agent"));
    assert_eq!(launch_service_label(&plist("<key>Label</key><true/>")), None);
    let receipt = plist("<key>PackageIdentifier</key><string>com.acme.pkg</string>");
    assert_eq!(receipt_id(&receipt).as_deref(), Some("com.acme.pkg"));
    assert!(has_extension("/Applications/A.app", "app") && !has_extension("/a.app/x", "app"));
    assert!(apps_descend(8, 19_999) && !apps_descend(9, 0) && !apps_descend(0, 20_000));
    assert_eq!(
        application_places("/h"),
        texts(&[
            "/Applications",
            "/System/Applications",
            "/System/Library/CoreServices",
            "/h/Applications"
        ])
    );
    assert_eq!(
        service_places("/h"),
        texts(&["/h/Library/LaunchAgents", "/Library/LaunchAgents", "/Library/LaunchDaemons"])
    );
    assert_eq!(leftover_places().len(), 9);
    assert!(matches!(probe_leftovers(true), Capability::Available));
    assert!(matches!(probe_leftovers(false), Capability::Unavailable(_)));
}
