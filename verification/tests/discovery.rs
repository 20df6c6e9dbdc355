use hokori::compiler::Engine;
use hokori::discovery::{
    FileAcc, Gathered, Place, Step, aggregate_finding, cachedir_tag_valid, claim_finding,
    claims_as_cache, ignored_finding, is_reference_marker, is_repo_root, protected_basename,
    skip_descent, tagged_finding, valid_names, visit_directory,
};
use hokori::gitignore::GitIgnoreStack;
use hokori::rules::{RuleDef, Safety};
use hokori::walk::{Entry, InodeDedupe, SubtreeStats};

fn texts(list: &[&str]) -> Vec<String> {
    list.iter().map(|s| s.to_string()).collect()
}

fn rule(id: &str) -> RuleDef {
    RuleDef {
        id: id.to_string(),
        category: "project-artifact".to_string(),
        safety: Safety::Safe,
        description: None,
        impact: None,
        recommendation: None,
        roots: Vec::new(),
        directory_only: false,
        dir_names: Vec::new(),
        file_names: Vec::new(),
        file_suffixes: Vec::new(),
        path_globs: Vec::new(),
        require_sibling_any: Vec::new(),
        exclude_ancestors: Vec::new(),
        process_names: Vec::new(),
        min_age_days: None,
        min_size: None,
        min_file_size: None,
        clean_via: Vec::new(),
        report_only: false,
        manual_only: false,
    }
}

fn engine() -> Engine {
    let mut modules = rule("modules");
    modules.dir_names = texts(&["node_modules"]);
    modules.require_sibling_any = texts(&["package.json"]);
    modules.exclude_ancestors = texts(&["vendor"]);
    let mut logs = rule("logs");
    logs.file_suffixes = texts(&[".log"]);
    logs.min_file_size = Some("5".to_string());
    let mut exact = rule("exact");
    exact.file_names = texts(&[".DS_Store"]);
    match Engine::compile(vec![modules, logs, exact], &texts(&["/r/kept"]), None, false) {
        Ok(e) => e,
        Err(e) => panic!("{}", e.message()),
    }
}

fn file(name: &str, bytes: u64, ino: u64) -> Entry {
    Entry { name: name.to_string(), is_dir: false, bytes, mtime: 50, dev: 1, ino }
}

fn dir(name: &str) -> Entry {
    Entry { name: name.to_string(), is_dir: true, bytes: 0, mtime: 60, dev: 1, ino: 0 }
}

struct Seen {
    steps: Vec<Step>,
    bytes: u64,
    gathered: Gathered,
}

fn visit(engine: &Engine, entries: Vec<Entry>, mask: u64, stack: Option<&GitIgnoreStack>) -> Seen {
    assert!(valid_names(&entries));
    let none = Vec::new();
    let place = Place {
        engine,
        dir: "/r",
        entries: &entries,
        ancestor_mask: mask,
        stack,
        skip: &none,
        mounts: &none,
        now: 100,
    };
    let mut dedupe = InodeDedupe::new();
    let gathered = Gathered::new(engine.rules.len());
    let mut seen = Seen { steps: Vec::new(), bytes: 0, gathered };
    let mut next = 0;
    while next < entries.len() {
        let visit = visit_directory(&place, next, &mut dedupe, &mut seen.gathered);
        assert!(next < visit.next && visit.next <= entries.len());
        next = visit.next;
        seen.steps.extend(visit.steps);
        seen.bytes += visit.bytes;
    }
    seen
}

fn claims(seen: &Seen) -> Vec<String> {
    seen.steps
        .iter()
        .filter_map(|s| match s {
            Step::Claim { child, .. } => Some(child.clone()),
            _ => None,
        })
        .collect()
}

fn descends(seen: &Seen) -> Vec<String> {
    seen.steps
        .iter()
        .filter_map(|s| match s {
            Step::Descend { child, .. } => Some(child.clone()),
            _ => None,
        })
        .collect()
}

#[test]
fn directories_are_claimed_with_their_siblings() {
    let e = engine();
    let seen = visit(&e, vec![dir("node_modules"), file("package.json", 1, 1), dir("src")], 0, None);
    assert_eq!(claims(&seen), texts(&["/r/node_modules"]));
    assert_eq!(descends(&seen), texts(&["/r/src"]));
    let alone = visit(&e, vec![dir("node_modules")], 0, None);
    assert!(claims(&alone).is_empty());
}

#[test]
fn excluded_ancestors_keep_directories() {
    let e = engine();
    let mask = e.ancestor_bit("vendor");
    let entries = || vec![dir("node_modules"), file("package.json", 1, 1)];
    assert!(claims(&visit(&e, entries(), mask, None)).is_empty());
    assert_eq!(claims(&visit(&e, entries(), 0, None)).len(), 1);
}

#[test]
fn protected_directories_are_left_alone() {
    let e = engine();
    let seen = visit(&e, vec![dir("kept"), dir("other")], 0, None);
    assert_eq!(descends(&seen), texts(&["/r/other"]));
}

#[test]
fn files_are_gathered_by_rule() {
    let e = engine();
    let seen = visit(
        &e,
        vec![
            file("a.LOG", 10, 1),
            file("b.log", 10, 5),
            file("again.log", 10, 5),
            file("small.log", 4, 2),
            file(".DS_Store", 3, 3),
            file("other", 7, 4),
        ],
        0,
        None,
    );
    assert_eq!(seen.gathered.accs[1].count, 2);
    assert_eq!(seen.gathered.accs[1].bytes, 20);
    assert_eq!(seen.gathered.accs[2].bytes, 3);
    assert_eq!(seen.gathered.accs[2].paths, texts(&["/r/.DS_Store"]));
    assert_eq!(seen.bytes, 34);
}

#[test]
fn ignored_directories_are_told() {
    let e = engine();
    let stack = GitIgnoreStack::for_repo("/r", &Vec::new(), &Some(texts(&["out/"])));
    let seen = visit(&e, vec![dir("out"), dir("src")], 0, Some(&stack));
    assert!(seen.steps.iter().any(|s| matches!(s, Step::Ignored { child } if child == "/r/out")));
    assert_eq!(descends(&seen), texts(&["/r/src"]));
}

#[test]
fn names_have_meanings() {
    assert!(is_repo_root(&vec![dir(".git")]));
    assert!(!is_repo_root(&vec![dir("src")]));
    assert!(skip_descent(".git"));
    assert!(!skip_descent("src"));
    assert!(protected_basename(".ssh"));
    assert!(!protected_basename("cache"));
    assert!(is_reference_marker(".tool-versions"));
    assert!(!is_reference_marker("README"));
    assert!(!valid_names(&vec![file("a/b", 1, 1)]));
}

#[test]
fn cache_tags_are_recognised() {
    let tag = b"Signature: 8a477f597d28d172789f06886806bc55\n# text";
    assert!(cachedir_tag_valid(tag));
    assert!(!cachedir_tag_valid(b"Signature: 8a477f597d28d172789f06886806bc5"));
    let e = engine();
    let entries = vec![file("CACHEDIR.TAG", 1, 1)];
    let none = Vec::new();
    let place = Place {
        engine: &e,
        dir: "/r/c",
        entries: &entries,
        ancestor_mask: 0,
        stack: None,
        skip: &none,
        mounts: &none,
        now: 100,
    };
    assert!(claims_as_cache(&place, Some(tag.as_slice())));
    assert!(!claims_as_cache(&place, Some(b"no".as_slice())));
    assert!(!claims_as_cache(&place, None));
}

#[test]
fn found_directories_become_findings() {
    let e = engine();
    let stats = SubtreeStats { bytes: 5 << 20, files: 2, dirs: 1, newest_mtime: 50 };
    let Some(claimed) = claim_finding(&e.rules[0], "/r/node_modules", stats, 50, 100, &Vec::new()) else {
        panic!("a finding was expected");
    };
    assert_eq!(claimed.bytes, 5 << 20);
    assert_eq!(claimed.rule_id, "modules");
    let Some(tagged) = tagged_finding("/r/c", stats, 100) else { panic!("a finding was expected") };
    assert_eq!(tagged.path, "/r/c");
    let Some(ignored) = ignored_finding("/r/out", stats, 100) else { panic!("a finding was expected") };
    assert!(ignored.manual_only);
}

#[test]
fn gathered_files_become_one_finding() {
    let e = engine();
    let acc = FileAcc {
        bytes: 30,
        count: 2,
        newest_mtime: 50,
        truncated: false,
        paths: texts(&["/r/a.log", "/r/b.log"]),
    };
    let Some(f) = aggregate_finding(&e.rules[1], acc, "/r", 100, &Vec::new()) else {
        panic!("a finding was expected");
    };
    assert_eq!(f.files, 2);
    assert_eq!(f.member_paths, texts(&["/r/a.log", "/r/b.log"]));
    let cut = FileAcc { bytes: 30, count: 2, newest_mtime: 50, truncated: true, paths: texts(&["/r/a.log"]) };
    let Some(f) = aggregate_finding(&e.rules[1], cut, "/r", 100, &Vec::new()) else {
        panic!("a finding was expected");
    };
    assert!(f.report_only);
    let none = FileAcc { bytes: 0, count: 0, newest_mtime: 0, truncated: false, paths: Vec::new() };
    assert!(aggregate_finding(&e.rules[1], none, "/r", 100, &Vec::new()).is_none());
}

#[test]
fn claimed_directories_are_sized_in_their_turn() {
    let e = engine();
    let none = Vec::new();
    let entries = vec![
        file("a.log", 10, 1),
        dir("src"),
        dir("node_modules"),
        file("b.log", 10, 5),
        file("package.json", 1, 2),
    ];
    let place = Place {
        engine: &e,
        dir: "/r",
        entries: &entries,
        ancestor_mask: 0,
        stack: None,
        skip: &none,
        mounts: &none,
        now: 100,
    };
    let mut dedupe = InodeDedupe::new();
    let mut gathered = Gathered::new(e.rules.len());
    let first = visit_directory(&place, 0, &mut dedupe, &mut gathered);
    assert_eq!((first.next, first.files, first.bytes), (3, 1, 10));
    assert_eq!(first.steps.len(), 2);
    assert!(matches!(&first.steps[1], Step::Claim { child, .. } if child == "/r/node_modules"));
    assert_eq!(gathered.accs[1].count, 1);

    // The claimed directory holds another name of `b.log`, and is sized first.
    assert_eq!(dedupe.dedup(1, 5, 10), 10);
    let rest = visit_directory(&place, first.next, &mut dedupe, &mut gathered);
    assert_eq!((rest.next, rest.files, rest.bytes), (5, 2, 1));
    assert!(rest.steps.is_empty());
    assert_eq!(gathered.accs[1].count, 1);
}
