use hokori::providers::ai_assets::{
    HfRepository, HfRevision, ManifestFile, asset_roots, detached_blobs, executed as ai_executed,
    hf_repo_id, hub_places, huggingface_findings, ollama_findings, ollama_running_models,
    plan_action as plan_ai, probe as probe_ai, read_ollama_models, revalidate as revalidate_ai,
};
use hokori::providers::android::{
    Avd, AvdFacts, android_home, avd_data_path, avd_findings, executed as android_executed,
    image_path, images_descend, is_definition, normalize_relative, plan_action as plan_android,
    probe as probe_android, read_avd, revalidate as revalidate_android, system_image_findings,
};
use hokori::providers::{
    Capability, ProviderSettings, Revalidation, ScanProfile, evidence_value,
};
use hokori::report::{Confidence, Finding};
use hokori::rules::Safety;

const MIB: u64 = 1 << 20;

fn texts(list: &[&str]) -> Vec<String> {
    list.iter().map(|s| s.to_string()).collect()
}

fn settings(profile: ScanProfile) -> ProviderSettings {
    ProviderSettings { profile, min_age_days: 30, min_size_bytes: MIB, enabled: None }
}

fn quick() -> ProviderSettings {
    settings(ScanProfile::Quick)
}

fn evidence(finding: &Finding, label: &str) -> String {
    evidence_value(finding, label).unwrap()
}

fn avd(name: &str, image: Option<&str>, age: Option<u64>) -> Avd {
    Avd {
        name: name.to_string(),
        ini_path: format!("/avd/{name}.ini"),
        data_path: format!("/avd/{name}.avd"),
        image: image.map(|s| s.to_string()),
        target: None,
        age,
    }
}

fn facts(data_is_dir: bool, image_is_dir: bool, bytes: u64) -> AvdFacts {
    AvdFacts { data_is_dir, image_is_dir, bytes }
}

#[test]
fn emulator_definitions_are_read() {
    assert!(is_definition("/avd/Pixel.ini"));
    assert!(!is_definition("/avd/Pixel.avd"));
    let definition = Some("path = /data/Pixel \ntarget=android-34\n".to_string());
    assert_eq!(
        avd_data_path("/avd", "/avd/Pixel.ini", &definition).as_deref(),
        Some("/data/Pixel")
    );
    assert_eq!(
        avd_data_path("/avd", "/avd/Pixel.ini", &None).as_deref(),
        Some("/avd/Pixel.avd")
    );
    let config = Some("image.sysdir.1=system-images/android-34/google/arm64//\n".to_string());
    let read = read_avd("/avd", "/avd/Pixel.ini", &definition, &config, Some(4)).unwrap();
    assert_eq!(read.name, "Pixel");
    assert_eq!(read.data_path, "/data/Pixel");
    assert_eq!(read.image.as_deref(), Some("system-images/android-34/google/arm64"));
    assert_eq!(read.target.as_deref(), Some("android-34"));
    assert_eq!(read.age, Some(4));
    assert_eq!(
        image_path(&read, Some("/sdk")).as_deref(),
        Some("/sdk/system-images/android-34/google/arm64")
    );
    assert_eq!(image_path(&read, None), None);
    let other = Some("target=android-30".to_string());
    let read = read_avd("/avd", "/avd/P.ini", &None, &other, None).unwrap();
    assert_eq!(read.target.as_deref(), Some("android-30"));
    assert_eq!(read.image, None);
}

#[test]
fn stale_and_broken_emulators_are_reported() {
    let avds = vec![
        avd("old", None, Some(40)),
        avd("young", None, Some(2)),
        avd("broken", Some("gone"), Some(2)),
        avd("small", None, Some(40)),
    ];
    let known = vec![
        facts(true, false, 3 * MIB),
        facts(true, false, 3 * MIB),
        facts(true, false, 0),
        facts(true, false, 5),
    ];
    let findings = avd_findings(&avds, &known, true, &Vec::new(), true, &quick());
    assert_eq!(findings.len(), 2);
    assert_eq!(findings[0].rule_id, "android-stale-avd");
    assert_eq!(findings[0].safety, Safety::Risky);
    assert_eq!(findings[0].confidence, Confidence::High);
    assert_eq!(findings[0].bytes, 3 * MIB);
    assert!(findings[0].manual_only);
    assert_eq!(evidence(&findings[0], "System image"), "unknown");
    assert_eq!(evidence(&findings[0], "Definition"), "/avd/old.ini");
    assert_eq!(findings[1].rule_id, "android-invalid-avd");
    assert_eq!(findings[1].safety, Safety::Review);
    assert_eq!(findings[1].confidence, Confidence::Exact);
    let (policy, args) = plan_android(&findings[0]).ok().unwrap();
    assert_eq!(policy.id, "android-delete-avd");
    assert_eq!(args, texts(&["delete", "avd", "--name", "old"]));
    assert_eq!(android_executed(&findings[0]).unwrap().message, "Removed Android object old.");

    // Without the tool nothing can be done, and without an SDK no image is missed.
    let reported = avd_findings(&avds, &known, false, &Vec::new(), false, &quick());
    assert_eq!(reported.len(), 1);
    assert!(reported[0].report_only && reported[0].native_action.is_none());
}

#[test]
fn running_emulators_are_protected() {
    let avds = vec![avd("old", None, Some(40))];
    let known = vec![facts(true, false, 3 * MIB)];
    for command in ["/sdk/emulator @old", "/sdk/emulator -avd old"] {
        let findings = avd_findings(&avds, &known, true, &texts(&[command]), true, &quick());
        assert_eq!(findings[0].rule_id, "android-running-stale-avd");
        assert_eq!(findings[0].safety, Safety::Protected);
        assert_eq!(findings[0].bytes, 0);
        assert!(findings[0].report_only && findings[0].native_action.is_none());
    }
    let other = avd_findings(&avds, &known, true, &texts(&["/bin/cat @old"]), true, &quick());
    assert_eq!(other[0].safety, Safety::Risky);
}

#[test]
fn unreferenced_system_images_are_reported() {
    let images = texts(&[
        "/sdk/system-images/android-34/google/arm64",
        "/sdk/system-images/android-30/default/x86",
        "/elsewhere/image",
        "/sdk/system-images/small",
    ]);
    let bytes = vec![2 * MIB, 4 * MIB, 4 * MIB, 1];
    let avds = vec![avd("p", Some("/system-images/android-34/google/arm64/"), Some(1))];
    let findings = system_image_findings(&images, &bytes, "/sdk", &avds, true, &quick());
    assert_eq!(findings.len(), 1);
    assert_eq!(findings[0].rule_id, "android-unreferenced-system-image");
    assert_eq!(evidence(&findings[0], "SDK package"), "system-images;android-30;default;x86");
    assert!(findings[0].manual_only);
    let (policy, args) = plan_android(&findings[0]).ok().unwrap();
    assert_eq!(policy.id, "android-uninstall-sdk-package");
    assert_eq!(args, texts(&["--uninstall", "system-images;android-30;default;x86"]));

    let deep = settings(ScanProfile::Deep);
    let findings = system_image_findings(&images, &bytes, "/sdk", &avds, false, &deep);
    assert_eq!(findings.len(), 2);
    assert_eq!(findings[0].rule_id, "android-referenced-system-image");
    assert_eq!(findings[0].safety, Safety::Protected);
    assert_eq!(findings[0].bytes, 0);
    assert_eq!(evidence(&findings[0], "AVDs"), "p");
    assert!(findings[1].report_only);
    assert!(matches!(revalidate_android(&findings, &findings[1]), Revalidation::Valid));
    assert!(matches!(revalidate_android(&Vec::new(), &findings[1]), Revalidation::Changed(_)));
    assert!(images_descend(5, 9_999) && !images_descend(6, 0) && !images_descend(0, 10_000));
    assert_eq!(normalize_relative("//a/b/"), "a/b");
}

#[test]
fn the_sdk_is_looked_for_where_the_environment_says() {
    assert_eq!(android_home(Some("/r"), Some("/s"), Some("/h")).as_deref(), Some("/r"));
    assert_eq!(android_home(None, Some("/s"), Some("/h")).as_deref(), Some("/s"));
    assert_eq!(
        android_home(None, None, Some("/h")).as_deref(),
        Some("/h/Library/Android/sdk")
    );
    assert_eq!(android_home(None, None, None), None);
    assert!(matches!(probe_android(false, true), Capability::Available));
    match probe_android(false, false) {
        Capability::Unavailable(m) => {
            assert_eq!(m, "Android SDK and AVD storage were not found.");
        }
        _ => panic!("nothing to look at"),
    }
}

fn revision(hash: &str, blobs: &[&str]) -> HfRevision {
    HfRevision {
        hash: hash.to_string(),
        path: format!("/hub/{hash}"),
        is_dir: true,
        blobs: texts(blobs),
    }
}

fn repository(name: &str, refs: &[&str], revisions: Vec<HfRevision>, bytes: u64) -> HfRepository {
    HfRepository {
        name: name.to_string(),
        path: format!("/hub/{name}"),
        is_dir: true,
        cancelled: false,
        refs: texts(refs),
        revisions,
        bytes,
        age: Some(40),
    }
}

#[test]
fn detached_revisions_spare_retained_blobs() {
    let repos = vec![
        repository("models--org--m", &["a"], vec![revision("a", &["/b/1"]), revision("b", &["/b/1", "/b/2"])], 5),
        repository("datasets--d", &[], vec![revision("c", &["/b/3"])], 6 * MIB),
        repository("version.txt", &[], vec![revision("d", &["/b/4"])], 6 * MIB),
    ];
    let mut blobs = detached_blobs(&repos);
    blobs.sort();
    assert_eq!(blobs, texts(&["/b/2", "/b/3"]));

    let findings = huggingface_findings("/hub", &repos, 2 * MIB, true, true, &quick());
    assert_eq!(findings.len(), 2);
    assert_eq!(findings[0].rule_id, "huggingface-stale-repository");
    assert_eq!(evidence(&findings[0], "Repository"), "dataset/d");
    assert_eq!(findings[0].bytes, 6 * MIB);
    assert!(findings[0].manual_only);
    assert_eq!(findings[1].rule_id, "huggingface-detached-revisions");
    assert_eq!(findings[1].safety, Safety::Safe);
    assert_eq!(findings[1].bytes, 2 * MIB);
    assert_eq!(findings[1].member_paths, texts(&["/hub/b", "/hub/c"]));
    assert_eq!(evidence(&findings[1], "Repositories"), "model/org/m (1), dataset/d (1)");
    let (policy, args) = plan_ai(&findings[0]).ok().unwrap();
    assert_eq!(policy.id, "hf-cache-remove");
    assert_eq!(args, texts(&["cache", "rm", "dataset/d", "--cache-dir", "/hub", "--yes"]));
    let (_, args) = plan_ai(&findings[1]).ok().unwrap();
    assert_eq!(args, texts(&["cache", "prune", "--cache-dir", "/hub", "--yes"]));

    let reported = huggingface_findings("/hub", &repos, MIB, false, false, &quick());
    assert!(reported.iter().all(|f| f.report_only && f.native_action.is_none()));
    assert_eq!(huggingface_findings("/hub", &repos, MIB - 1, true, true, &quick()).len(), 1);
    assert_eq!(hf_repo_id("spaces--a--b").as_deref(), Some("space/a/b"));
    assert_eq!(hf_repo_id("other--a"), None);
}

#[test]
fn references_are_read_without_white_space() {
    let repos = vec![repository(
        "models--m",
        &["abc\n", " \n", "\tdef  "],
        vec![revision("abc", &["/b/1"]), revision("def", &["/b/2"]), revision("ghi", &["/b/3"])],
        0,
    )];
    assert_eq!(detached_blobs(&repos), texts(&["/b/3"]));
    let findings = huggingface_findings("/hub", &repos, 2 * MIB, true, true, &quick());
    assert_eq!(findings.len(), 1);
    assert_eq!(findings[0].member_paths, texts(&["/hub/ghi"]));
}

#[test]
fn a_cache_that_is_no_directory_ends_the_search() {
    let mut stop = repository("models--x", &[], Vec::new(), 0);
    stop.is_dir = false;
    let repos = vec![stop, repository("models--y", &[], Vec::new(), 6 * MIB)];
    assert!(huggingface_findings("/hub", &repos, 0, true, true, &quick()).is_empty());
}

fn manifest(path: &str, contents: &str, age: u64) -> ManifestFile {
    ManifestFile {
        path: path.to_string(),
        contents: Some(contents.to_string()),
        age: Some(age),
    }
}

#[test]
fn models_promise_what_they_do_not_share() {
    let files = vec![
        manifest(
            "/o/manifests/registry/library/llama/8b",
            "{\"config\":{\"digest\":\"sha256:c\"},\"layers\":[{\"digest\":\"sha256:s\"},{\"digest\":\"sha256:u\"}]}",
            40,
        ),
        manifest("/o/manifests/tiny", "{\"layers\":[{\"digest\":\"sha256:s\"}]}", 40),
        manifest("/o/manifests/registry/library/bad/1", "no json", 40),
    ];
    let models = read_ollama_models(&files, "/o");
    assert_eq!(models.len(), 2);
    assert_eq!(models[0].name, "library/llama:8b");
    assert_eq!(models[1].name, "tiny");
    assert_eq!(models[0].blobs, texts(&["/o/blobs/sha256-c", "/o/blobs/sha256-s", "/o/blobs/sha256-u"]));

    let sizes = vec![vec![MIB, 8 * MIB, 2 * MIB], vec![8 * MIB]];
    let findings = ollama_findings(&models, &sizes, &Vec::new(), true, &quick()).unwrap();
    assert_eq!(findings.len(), 1);
    assert_eq!(findings[0].bytes, 3 * MIB);
    assert_eq!(findings[0].size.shared, 8 * MIB);
    assert_eq!(findings[0].size.physical, 11 * MIB);
    assert_eq!(evidence(&findings[0], "Shared blob bytes"), "8388608");
    let (policy, args) = plan_ai(&findings[0]).ok().unwrap();
    assert_eq!(policy.id, "ollama-remove");
    assert_eq!(args, texts(&["rm", "library/llama:8b"]));
    assert!(ai_executed(&findings[0]).is_some());

    let running = texts(&["library/llama:8b"]);
    let findings = ollama_findings(&models, &sizes, &running, true, &quick()).unwrap();
    assert_eq!(findings[0].safety, Safety::Protected);
    assert_eq!(findings[0].bytes, 0);
    assert!(findings[0].native_action.is_none());
    assert!(matches!(revalidate_ai(&findings, &findings[0]), Revalidation::Valid));
    assert_eq!(
        ollama_running_models("NAME ID\nllama:8b abc 5GB\n\nx:1 d"),
        texts(&["llama:8b", "x:1"])
    );
}

#[test]
fn models_are_looked_for_in_known_places() {
    let places = asset_roots(Some("/h"));
    assert!(places.contains(&"/h/.ollama/models".to_string()));
    assert!(places.contains(&"/h/Library/Application Support/nomic.ai/GPT4All".to_string()));
    assert!(asset_roots(None).is_empty());
    assert_eq!(
        hub_places(Some("/hf"), Some("/h")),
        texts(&["/hf/hub", "/h/.cache/huggingface/hub"])
    );
    assert!(matches!(probe_ai(false, false, true), Capability::Available));
    assert!(matches!(probe_ai(false, false, false), Capability::Unavailable(_)));
}
