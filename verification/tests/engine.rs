use hokori::compiler::{CompileError, Engine, expand_home};
use hokori::engine::{
    Delivery, RootHit, ScanEvent, age_days, cancelled_after, claim_roots, deliver,
    expansion_goes_on, glob_level, is_glob_part, literal_level, lowered_commands, make_finding, root_parts,
    targeted_finding,
};
use hokori::report::{Confidence, Finding, FindingSize, FindingState, FindingTarget};
use hokori::rules::{RuleDef, Safety};
use hokori::taxonomy::category_info;
use hokori::walk::SubtreeStats;

fn test_finding() -> Finding {
    let info = category_info("test");
    Finding {
        stable_id: "test".to_string(),
        rule_id: "test".to_string(),
        category: "test".to_string(),
        section: info.section,
        subgroup: info.subgroup,
        safety: Safety::Safe,
        target: FindingTarget::Filesystem { path: "/tmp/test".to_string() },
        path: "/tmp/test".to_string(),
        bytes: 1,
        size: FindingSize::exact_physical(1),
        files: 1,
        dirs: 0,
        age_days: None,
        recent: false,
        report_only: false,
        in_use: false,
        manual_only: false,
        confidence: Confidence::High,
        state: FindingState::Candidate,
        provider: None,
        reason: String::new(),
        evidence: Vec::new(),
        native_action: None,
        supersedes: Vec::new(),
        description: None,
        impact: None,
        recommendation: None,
        clean_via: Vec::new(),
        member_paths: Vec::new(),
    }
}

fn rule(id: &str, category: &str, safety: Safety) -> RuleDef {
    RuleDef {
        id: id.to_string(),
        category: category.to_string(),
        safety,
        description: None,
        impact: None,
        recommendation: None,
        roots: Vec::new(),
        directory_only: false,
        dir_names: Vec::new(),
        file_names: Vec::new(),
        file_suffixes: Vec::new(),
        path_globs: Vec::new(),
        require_sibling_any: Vec::new(),
        exclude_ancestors: Vec::new(),
        process_names: Vec::new(),
        min_age_days: None,
        min_size: None,
        min_file_size: None,
        clean_via: Vec::new(),
        report_only: false,
        manual_only: false,
    }
}

fn texts(list: &[&str]) -> Vec<String> {
    list.iter().map(|s| s.to_string()).collect()
}

fn compiled(defs: Vec<RuleDef>) -> Engine {
    match Engine::compile(defs, &Vec::new(), None, false) {
        Ok(engine) => engine,
        Err(error) => panic!("{}", error.message()),
    }
}

fn refused(defs: Vec<RuleDef>, protect: &[&str]) -> CompileError {
    match Engine::compile(defs, &texts(protect), None, false) {
        Ok(_) => panic!("the rules were accepted"),
        Err(error) => error,
    }
}

const NOTHING: SubtreeStats = SubtreeStats { bytes: 0, files: 0, dirs: 0, newest_mtime: 0 };

#[test]
fn streaming_transfers_finding_instead_of_retaining_a_copy() {
    let Delivery::Send(ScanEvent::Found(finding)) = deliver(test_finding(), true) else {
        panic!("expected finding event");
    };
    assert_eq!(finding.rule_id, "test");
    assert!(!matches!(deliver(test_finding(), true), Delivery::Keep(_)));
}

#[test]
fn batch_mode_keeps_the_finding() {
    let Delivery::Keep(finding) = deliver(test_finding(), false) else {
        panic!("expected the finding itself");
    };
    assert_eq!(finding.rule_id, "test");
}

#[test]
fn running_process_marks_rule_manual_only() {
    let mut def = rule("cursor-cache", "ide-cache", Safety::Safe);
    def.roots = texts(&["/tmp/cursor-cache"]);
    def.process_names = texts(&["/Cursor.app/"]);
    let engine = compiled(vec![def]);
    let running = vec!["/Applications/Cursor.app/Contents/MacOS/Cursor".to_lowercase()];
    let finding =
        make_finding(&engine.rules[0], "/tmp/cursor-cache", NOTHING, 0, 0, &running);
    assert!(finding.in_use);
    assert!(finding.manual_only);
}

#[test]
fn compiles_per_file_size_floor() {
    let mut def = rule("large-dumps", "diagnostic", Safety::Review);
    def.file_suffixes = texts(&[".hprof"]);
    def.min_file_size = Some("10MB".to_string());
    let engine = compiled(vec![def]);
    assert_eq!(engine.rules[0].min_file_size_bytes, 10 << 20);
}

#[test]
fn a_lost_interface_cancels() {
    assert!(cancelled_after(false, false));
    assert!(cancelled_after(true, true));
    assert!(!cancelled_after(false, true));
}

#[test]
fn ages_are_whole_days() {
    assert_eq!(age_days(10 * 86_400 + 5, 86_400), Some(9));
    assert_eq!(age_days(0, 0), None);
    assert_eq!(age_days(100, -5), None);
    assert_eq!(age_days(100, 200), Some(0));
}

#[test]
fn names_are_matched_in_lower_case() {
    let mut def = rule("r", "c", Safety::Safe);
    def.process_names = texts(&["ÄPP"]);
    def.dir_names = texts(&["x"]);
    let engine = compiled(vec![def]);
    assert_eq!(engine.rules[0].process_names_lower, texts(&["äpp"]));
}

#[test]
fn recent_findings_are_marked() {
    let mut def = rule("r", "project-artifact", Safety::Safe);
    def.dir_names = texts(&["target"]);
    def.min_age_days = Some(7);
    let engine = compiled(vec![def]);
    let now = 100 * 86_400;
    let young = make_finding(&engine.rules[0], "/p/target", NOTHING, now - 86_400, now, &Vec::new());
    assert!(young.recent);
    assert_eq!(young.age_days, Some(1));
    assert_eq!(young.stable_id, "path:r:/p/target");
    let aged = make_finding(&engine.rules[0], "/p/target", NOTHING, now - 8 * 86_400, now, &Vec::new());
    assert!(!aged.recent);
    assert!(!aged.in_use);
}

#[test]
fn roots_expand_level_by_level() {
    assert_eq!(root_parts("/a/*/c"), texts(&["a", "*", "c"]));
    assert!(is_glob_part("c*"));
    assert!(!is_glob_part("c"));
    let bases = texts(&["/a", "/b"]);
    assert_eq!(literal_level(&bases, &vec![true, false], "c"), texts(&["/a/c"]));
    let listings = vec![texts(&["one", "two"]), texts(&["other"])];
    assert_eq!(glob_level(&bases, "o*", &listings), Some(texts(&["/a/one", "/b/other"])));
    assert_eq!(glob_level(&bases, "[", &listings), None);
    assert!(expansion_goes_on(49_999));
    assert!(!expansion_goes_on(50_001));
}

#[test]
fn the_longest_pattern_owns_a_root() {
    let mut short = rule("short", "c", Safety::Safe);
    short.roots = texts(&["/x/*"]);
    let mut long = rule("long", "c", Safety::Safe);
    long.roots = texts(&["/x/special"]);
    let engine = compiled(vec![short, long]);
    let hit = |rule: usize, pattern: &str| RootHit {
        rule,
        pattern: pattern.to_string(),
        path: "/x/special".to_string(),
        is_dir: true,
    };
    let owners = claim_roots(&engine, &vec![hit(0, "/x/*"), hit(1, "/x/special")]);
    assert_eq!(owners.len(), 1);
    assert_eq!(owners[0].rule, 1);
    assert_eq!(owners[0].path, "/x/special");
}

#[test]
fn directory_only_roots_pass_over_files() {
    let mut def = rule("tools", "c", Safety::Safe);
    def.roots = texts(&["/t/*"]);
    def.directory_only = true;
    let engine = compiled(vec![def]);
    let hit = |path: &str, is_dir: bool| RootHit {
        rule: 0,
        pattern: "/t/*".to_string(),
        path: path.to_string(),
        is_dir,
    };
    let owners = claim_roots(&engine, &vec![hit("/t/tool", true), hit("/t/.lock", false)]);
    assert_eq!(owners.len(), 1);
    assert_eq!(owners[0].path, "/t/tool");
}

#[test]
fn protected_roots_have_no_owner() {
    let mut def = rule("r", "c", Safety::Safe);
    def.roots = texts(&["/x/*"]);
    let engine = match Engine::compile(vec![def], &texts(&["/x/keep"]), None, false) {
        Ok(engine) => engine,
        Err(error) => panic!("{}", error.message()),
    };
    let hit = |path: &str| RootHit {
        rule: 0,
        pattern: "/x/*".to_string(),
        path: path.to_string(),
        is_dir: true,
    };
    let owners = claim_roots(&engine, &vec![hit("/x/keep"), hit("/x/go")]);
    assert_eq!(owners.len(), 1);
    assert_eq!(owners[0].path, "/x/go");
}

#[test]
fn small_roots_and_links_are_not_reported() {
    let mut def = rule("r", "c", Safety::Safe);
    def.roots = texts(&["/x"]);
    def.min_size = Some("10".to_string());
    let engine = compiled(vec![def]);
    let full = SubtreeStats { bytes: 10, files: 1, dirs: 0, newest_mtime: 5 };
    assert!(targeted_finding(&engine.rules[0], "/x", false, NOTHING, 10, &Vec::new()).is_none());
    assert!(targeted_finding(&engine.rules[0], "/x", false, full, 10, &Vec::new()).is_some());
    assert!(targeted_finding(&engine.rules[0], "/x", true, full, 10, &Vec::new()).is_none());
}

#[test]
fn home_is_expanded() {
    assert_eq!(expand_home("~/Library", Some("/Users/me")), "/Users/me/Library");
    assert_eq!(expand_home("/abs", Some("/Users/me")), "/abs");
    assert_eq!(expand_home("~/Library", None), "~/Library");
}

#[test]
fn protection_and_user_globs_hold() {
    let mut def = rule("keep", "c", Safety::Protected);
    def.path_globs = texts(&["/safe/**"]);
    let engine = match Engine::compile(vec![def], &texts(&["~/mine/**"]), Some("/h"), false) {
        Ok(engine) => engine,
        Err(error) => panic!("{}", error.message()),
    };
    assert!(engine.is_protected("/h/mine/x"));
    assert!(!engine.is_protected("/h/other"));
}

#[test]
fn case_counts_unless_folded() {
    let defs = || {
        let mut def = rule("r", "c", Safety::Safe);
        def.dir_names = vec!["x".to_string()];
        vec![def]
    };
    let exact = match Engine::compile(defs(), &texts(&["/KEEP/*"]), None, false) {
        Ok(engine) => engine,
        Err(error) => panic!("{}", error.message()),
    };
    assert!(!exact.is_protected("/keep/a"));
    let folded = match Engine::compile(defs(), &texts(&["/KEEP/*"]), None, true) {
        Ok(engine) => engine,
        Err(error) => panic!("{}", error.message()),
    };
    assert!(folded.is_protected("/keep/a"));
}

#[test]
fn bad_rules_are_told_apart() {
    let mut many = rule("many", "c", Safety::Safe);
    many.dir_names = texts(&["x"]);
    many.exclude_ancestors = (0..65).map(|i| format!("a{i}")).collect();
    assert!(matches!(refused(vec![many], &[]), CompileError::TooManyAncestors));

    let mut glob = rule("glob", "c", Safety::Safe);
    glob.path_globs = texts(&["["]);
    assert!(matches!(refused(vec![glob], &[]), CompileError::InvalidGlob(_)));

    let mut size = rule("size", "c", Safety::Safe);
    size.dir_names = texts(&["x"]);
    size.min_size = Some("12 parsecs".to_string());
    assert!(matches!(refused(vec![size], &[]), CompileError::BadSize(_)));

    assert!(matches!(refused(Vec::new(), &["["]), CompileError::InvalidGlob(_)));
}

#[test]
fn ancestors_have_bits() {
    let mut def = rule("r", "c", Safety::Safe);
    def.dir_names = texts(&["x"]);
    def.exclude_ancestors = texts(&["Vendor", "third"]);
    let engine = compiled(vec![def]);
    assert_eq!(engine.ancestor_bit("vendor") | engine.ancestor_bit("third"), engine.rules[0].exclude_mask);
    assert_eq!(engine.ancestor_bit("other"), 0);
}

#[test]
fn commands_are_compared_in_lower_case() {
    let commands = vec!["/Applications/Xcode.app/Xcode".to_string(), "GO Build".to_string()];
    assert_eq!(lowered_commands(&commands), ["/applications/xcode.app/xcode", "go build"]);
}
