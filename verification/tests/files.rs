use hokori::providers::duplicates::{
    Candidate, CopyCheck, DuplicateGroup, SearchStep, distinct_files, duplicate_finding,
    duplicate_findings, duplicate_places, executed, lies_in_roots, recheck, search_goes_on,
    search_step, several, size_floor, user_roots,
};
use hokori::providers::stale_files::{
    FileCheck, LargeFile, SearchStep as StaleStep, Stamp, executed as stale_executed, file_of,
    latest_age_days, recheck as recheck_stale, search_goes_on as stale_goes_on,
    search_step as stale_step, stale_finding, stale_places, timestamp,
};
use hokori::providers::{ProviderSettings, Revalidation, ScanProfile, evidence_value, total_of};
use hokori::report::{Finding, ProviderAction, SizeAccuracy};
use hokori::rules::Safety;

const MIB: u64 = 1 << 20;

fn texts(list: &[&str]) -> Vec<String> {
    list.iter().map(|s| s.to_string()).collect()
}

fn settings() -> ProviderSettings {
    ProviderSettings {
        profile: ScanProfile::Deep,
        min_age_days: 30,
        min_size_bytes: MIB,
        enabled: None,
    }
}

fn evidence(finding: &Finding, label: &str) -> String {
    evidence_value(finding, label).unwrap()
}

fn copy(path: &str, identity: u64, physical: u64) -> Candidate {
    Candidate {
        path: path.to_string(),
        logical: 2 * MIB,
        physical,
        identity: Some((1, identity)),
    }
}

fn group(first: u8, files: Vec<Candidate>) -> DuplicateGroup {
    let hash: Vec<u8> = (0..32).map(|i| first.wrapping_add(i)).collect();
    DuplicateGroup { hash, files, apfs: false }
}

#[test]
fn hard_links_are_no_duplicates() {
    let linked = || vec![copy("/a", 1, 9 * MIB), copy("/b", 1, 9 * MIB)];
    assert_eq!(distinct_files(&linked()).len(), 1);
    assert!(duplicate_finding(&vec![0; 32], &linked(), false).is_none());
    let groups = vec![
        group(0, linked()),
        group(10, vec![copy("/c", 2, MIB), copy("/d", 3, 2 * MIB)]),
        group(20, vec![copy("/e", 4, 3 * MIB), copy("/f", 5, 3 * MIB), copy("/g", 5, 3 * MIB)]),
    ];
    assert_eq!(several(&groups).len(), 2);
    let findings = duplicate_findings(&groups).unwrap();
    assert_eq!(findings.len(), 2);
    assert_eq!(findings[0].member_paths, texts(&["/e", "/f"]));
    assert_eq!(findings[0].bytes, 3 * MIB);
    assert_eq!(findings[1].member_paths, texts(&["/c", "/d"]));
    assert_eq!(findings[1].bytes, 2 * MIB);
    assert_eq!(findings[1].size.physical, 3 * MIB);
    assert_eq!(findings[1].size.logical, 4 * MIB);
    assert_eq!(findings[1].size.accuracy, SizeAccuracy::Estimated);
    assert_eq!(evidence(&findings[1], "SHA-256 prefix"), "0a0b0c0d0e0f1011");
    assert!(findings.iter().all(|f| f.report_only && f.native_action.is_none()));
    let full = vec![group(0, vec![copy("/a", 1, u64::MAX), copy("/b", 2, 1)])];
    assert!(duplicate_findings(&full).is_none());
}

#[test]
fn at_most_two_hundred_groups_are_reported() {
    let groups: Vec<DuplicateGroup> = (0..201u64)
        .map(|i| {
            let at = |name: &str, id: u64| copy(&format!("/{name}/{i}"), id, i + 1);
            group(i as u8, vec![at("x", 2 * i), at("y", 2 * i + 1)])
        })
        .collect();
    let findings = duplicate_findings(&groups).unwrap();
    assert_eq!(findings.len(), 200);
    assert_eq!(findings[0].bytes, 201);
    assert_eq!(findings[199].bytes, 2);
}

#[test]
fn copies_are_compared_again() {
    let mut finding =
        duplicate_finding(&vec![7; 32], &vec![copy("/r/a", 1, MIB), copy("/r/b", 2, MIB)], true)
            .unwrap();
    let roots = texts(&["/r"]);
    let check = |regular: bool, byte: u8| CopyCheck { regular, hash: Ok(vec![byte]) };
    let same = || vec![check(true, 1), check(true, 1)];
    match recheck(&finding, &same(), &roots) {
        Ok(Revalidation::Blocked(m)) => assert_eq!(
            m,
            "Duplicate deletion requires choosing a retained copy in the TUI."
        ),
        _ => panic!("a copy has to be chosen"),
    }
    let choice = |action: &str, kept: &str| {
        Some(ProviderAction {
            provider_id: "duplicates".to_string(),
            action_id: action.to_string(),
            object_id: kept.to_string(),
            preview: Vec::new(),
            irreversible: false,
            strong_confirmation: true,
        })
    };
    finding.native_action = choice("delete-duplicate-copies", "/r/b");
    assert!(matches!(recheck(&finding, &same(), &roots), Ok(Revalidation::Valid)));
    match recheck(&finding, &vec![check(true, 1), check(true, 2)], &roots) {
        Ok(Revalidation::Changed(m)) => {
            assert_eq!(m, "The files no longer have identical content.");
        }
        _ => panic!("the copies differ"),
    }
    match recheck(&finding, &vec![check(false, 1), check(true, 1)], &roots) {
        Ok(Revalidation::Changed(m)) => assert_eq!(m, "/r/a changed or disappeared."),
        _ => panic!("a copy is gone"),
    }
    let unreadable = vec![CopyCheck { regular: true, hash: Err("denied".to_string()) }, check(true, 1)];
    assert_eq!(recheck(&finding, &unreadable, &roots).err().unwrap(), "denied");
    match recheck(&finding, &same(), &texts(&["/other"])) {
        Ok(Revalidation::Blocked(m)) => assert_eq!(m, "/r/a is outside the scan roots."),
        _ => panic!("only what was scanned goes"),
    }
    finding.native_action = choice("delete-duplicate-copies", "/r/c");
    match recheck(&finding, &same(), &roots) {
        Ok(Revalidation::Blocked(m)) => {
            assert_eq!(m, "The retained copy is not part of this duplicate group.");
        }
        _ => panic!("a stranger cannot be kept"),
    }
    finding.native_action = choice("other", "/r/b");
    match recheck(&finding, &same(), &roots) {
        Ok(Revalidation::Blocked(m)) => assert_eq!(m, "Unknown duplicate action."),
        _ => panic!("the action is unknown"),
    }
    assert_eq!(executed("/r/b", 1, 5).message, "Kept /r/b; removed 1 duplicate copies.");
    assert!(lies_in_roots("/r/a", &roots) && !lies_in_roots("/rest", &roots));
}

#[test]
fn places_of_the_user_are_searched() {
    let (roots, existing) = user_roots(Some("/h"), &texts(&["/h"]), &texts(&["Movies"]));
    assert_eq!(roots, texts(&["/h/Movies"]));
    assert!(existing);
    let (roots, existing) = user_roots(Some("/h"), &texts(&["/d"]), &texts(&["Movies"]));
    assert_eq!(roots, texts(&["/d"]));
    assert!(!existing);
    assert_eq!(duplicate_places().len(), 9);
    assert_eq!(stale_places(), texts(&["Desktop", "Documents", "Downloads", "Movies"]));
    assert_eq!(size_floor(&settings()), 10 * MIB);
    let step = |name: &str, link: bool, dir: bool, len: u64| {
        search_step(name, link, dir, !dir && !link, len, MIB)
    };
    assert!(matches!(step("a", false, false, MIB), SearchStep::Keep));
    assert!(matches!(step("a", false, false, MIB - 1), SearchStep::Skip));
    assert!(matches!(step("a", true, false, MIB), SearchStep::Skip));
    assert!(matches!(step("src", false, true, 0), SearchStep::Enter));
    assert!(matches!(step("Pods", false, true, 0), SearchStep::Skip));
    assert!(search_goes_on(16, 19_999, false));
    assert!(!search_goes_on(17, 0, false) && !search_goes_on(0, 20_000, false));
    assert!(!search_goes_on(0, 0, true));
    assert_eq!(total_of(&vec![1, 2, 3]), Some(6));
    assert_eq!(total_of(&vec![u64::MAX, 1]), None);
}

#[test]
fn large_files_grow_stale() {
    let large = |age: u64| LargeFile {
        path: "/h/Movies/film.mov".to_string(),
        bytes: 600 * MIB,
        age,
        accessed: Some(5),
        modified: None,
    };
    assert!(stale_finding(&large(179), &settings()).is_none());
    let finding = stale_finding(&large(180), &settings()).unwrap();
    assert_eq!(finding.safety, Safety::Risky);
    assert_eq!(finding.bytes, 600 * MIB);
    assert!(finding.manual_only);
    assert_eq!(evidence(&finding, "Last accessed"), "Unix 5");
    assert_eq!(evidence(&finding, "Last modified"), "unknown");
    assert_eq!(file_of(&finding).ok().as_deref(), Some("/h/Movies/film.mov"));
    let roots = texts(&["/h/Movies"]);
    let says = |exists: bool, regular: bool, age: u64, roots: &Vec<String>| {
        let check = FileCheck { exists, regular, age };
        recheck_stale("/h/Movies/film.mov", roots, check, &settings())
    };
    assert!(matches!(says(true, true, 180, &roots), Revalidation::Valid));
    match says(true, true, 179, &roots) {
        Revalidation::Changed(m) => {
            assert_eq!(m, "The file has been accessed or modified recently.");
        }
        _ => panic!("the file was used"),
    }
    match says(false, false, 0, &roots) {
        Revalidation::Gone(m) => assert_eq!(m, "The file no longer exists."),
        _ => panic!("the file is gone"),
    }
    match says(true, false, 180, &roots) {
        Revalidation::Blocked(m) => assert_eq!(m, "The path is no longer a regular file."),
        _ => panic!("the file became something else"),
    }
    match says(true, true, 180, &texts(&["/x"])) {
        Revalidation::Blocked(m) => {
            assert_eq!(m, "The file is outside the configured user-file roots.");
        }
        _ => panic!("only user files go"),
    }
    assert_eq!(stale_executed("/f", 3).message, "Removed stale file /f.");
    assert_eq!(timestamp(Some(12)), "Unix 12");
}

#[test]
fn large_files_are_searched_for() {
    let step = |name: &str, dir: bool, git: bool, len: u64| {
        stale_step(name, false, dir, !dir, git, len, &settings())
    };
    assert!(matches!(step("f", false, false, 500 * MIB), StaleStep::Examine));
    assert!(matches!(step("f", false, false, 500 * MIB - 1), StaleStep::Skip));
    assert!(matches!(step("f.icloud", false, false, 500 * MIB), StaleStep::Skip));
    assert!(matches!(step("d", true, false, 0), StaleStep::Enter));
    assert!(matches!(step("d", true, true, 0), StaleStep::Skip));
    assert!(matches!(step("P.photoslibrary", true, false, 0), StaleStep::Skip));
    assert!(matches!(step("MobileSync", true, false, 0), StaleStep::Skip));
    assert!(stale_goes_on(10, 4_999, false));
    assert!(!stale_goes_on(11, 0, false) && !stale_goes_on(0, 5_000, false));
    let day = 86_400;
    assert_eq!(latest_age_days(Stamp::Ago(5 * day), Stamp::Ago(9 * day), 100 * day), 5);
    assert_eq!(latest_age_days(Stamp::Ahead, Stamp::Ago(9 * day), 100 * day), 0);
    assert_eq!(latest_age_days(Stamp::Unknown, Stamp::Unknown, 100 * day), 100);
}

#[test]
fn names_of_one_file_count_once() {
    let most = u64::MAX - 1;
    let group = vec![copy("/r/a", 1, most), copy("/r/b", 1, most), copy("/r/c", 2, 1)];
    let finding = duplicate_finding(&vec![7; 32], &group, false).unwrap();
    assert_eq!(finding.size.physical, u64::MAX);
    assert_eq!(finding.bytes, most);
    assert_eq!(finding.member_paths, texts(&["/r/a", "/r/c"]));
}
