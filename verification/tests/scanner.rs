use hokori::config::{
    RuleAction, RuleContext, RuleDef, RuleFile, RuleKind, RulesetDef, RulesetFile, SampleStrategy,
    default_action, filter_rules, find_ruleset, include_paths, load_ruleset,
};
use hokori::globs::SetError;
use hokori::matcher::{MatcherError, RuleMatcher, expand_pattern};
use hokori::scanner::{
    GitIgnoreConfig, GitVerdict, Known, SampleMatch, SampleMode, SamplePath, ScanEntry, ScanOptions,
    ScanState, Scanner, SeenFiles, add_git_ignored_sample, add_sample_first_mode,
    ancestor_with_any_file, base_path, build_largest_paths, build_largest_samples,
    context_allows, context_parent_dir, dirent_names, file_size, git_verdict, grown_buffer, sample_path_for,
    visit_entry, wanted,
};
use hokori::sizes::percent_floor;

fn texts(list: &[&str]) -> Vec<String> {
    list.iter().map(|s| s.to_string()).collect()
}

fn rule(id: &str, action: RuleAction, patterns: &[&str]) -> RuleDef {
    RuleDef {
        id: id.to_string(),
        kind: RuleKind::Cache,
        action,
        patterns: texts(patterns),
        group: None,
        context: None,
        notes: None,
        priority: None,
    }
}

fn context() -> RuleContext {
    RuleContext {
        parent_anchor_any: Vec::new(),
        require_parent_any: Vec::new(),
        require_parent_none: Vec::new(),
        exclude_ancestor_any: Vec::new(),
        require_ancestor_files_any: Vec::new(),
        ancestor_depth: None,
        sample_ancestor_files_any: Vec::new(),
        sample_ancestor_depth: None,
        sample_parent_any: Vec::new(),
        sample_strategy: None,
    }
}

fn matcher(rules: Vec<RuleDef>) -> RuleMatcher {
    match RuleMatcher::new(&rules, Some("/home/me"), false) {
        Ok(m) => m,
        Err(e) => panic!("{}", e.message()),
    }
}

fn with_context(c: RuleContext) -> RuleMatcher {
    let mut r = rule("r", RuleAction::Cleanable, &["/**"]);
    r.context = Some(c);
    matcher(vec![r])
}

fn refused(rules: Vec<RuleDef>) -> MatcherError {
    match RuleMatcher::new(&rules, None, false) {
        Ok(_) => panic!("the rules were accepted"),
        Err(e) => e,
    }
}

fn nothing() -> Known {
    Known { listing: None, files: Vec::new() }
}

fn files(list: &[&str]) -> Known {
    Known { listing: None, files: texts(list) }
}

#[test]
fn the_heaviest_rule_decides() {
    let m = matcher(vec![
        rule("low", RuleAction::Cleanable, &["/x/**"]),
        rule("first", RuleAction::Caution, &["/x/a/*"]),
        rule("second", RuleAction::Caution, &["/x/a/*"]),
    ]);
    assert_eq!(m.len(), 3);
    let hit = m.match_path("/x/a/f").map(|r| r.rule_index);
    assert_eq!(hit, Some(1));
    assert_eq!(m.rule_id(1), "first");
    assert!(matches!(m.rule_action(1), RuleAction::Caution));
    assert!(matches!(m.rule_kind(1), RuleKind::Cache));
    assert!(m.rule_context(1).is_none());
    assert_eq!(m.match_path("/x/b/c/d").map(|r| r.rule_index), Some(0));
    assert!(m.match_path("/y").is_none());
}

#[test]
fn a_set_priority_overrides_the_action() {
    let mut heavy = rule("heavy", RuleAction::Cleanable, &["/x/*"]);
    heavy.priority = Some(10_000);
    let m = matcher(vec![rule("keep", RuleAction::Protect, &["/x/*"]), heavy]);
    assert_eq!(m.match_path("/x/f").map(|r| r.rule_index), Some(1));
    assert!(RuleAction::Protect.priority() > RuleAction::Cleanable.priority());
    assert!(matches!(default_action(), RuleAction::Cleanable));
}

#[test]
fn one_star_stays_in_its_directory() {
    let m = matcher(vec![rule("r", RuleAction::Cleanable, &["~/a/*"])]);
    assert!(m.match_path("/home/me/a/b").is_some());
    assert!(m.match_path("/home/me/a/b/c").is_none());
    assert_eq!(expand_pattern("~/a\\b", Some("/h")), "/h/a/b");
    assert_eq!(expand_pattern("~/a", None), "~/a");
}

#[test]
fn rules_that_do_not_compile_are_told_apart() {
    let e = refused(vec![rule("r", RuleAction::Cleanable, &["["])]);
    assert!(matches!(e, MatcherError::Pattern(_)));
    assert_eq!(e.message(), "invalid glob pattern: [");
    let mut r = rule("ctx", RuleAction::Cleanable, &["/a"]);
    let mut c = context();
    c.require_parent_any = texts(&["["]);
    r.context = Some(c);
    let e = refused(vec![r]);
    assert_eq!(e.message(), "failed to build context for rule ctx");
    assert!(matches!(e, MatcherError::Context(_, SetError::Pattern(_))));
}

#[test]
fn an_empty_context_asks_for_nothing() {
    let m = with_context(context());
    assert!(m.rule_context(0).is_none());
    let w = wanted(&m, "/a/b");
    assert!(w.listing.is_none());
    assert!(w.files.is_empty());
}

#[test]
fn contexts_look_at_the_parent() {
    let mut c = context();
    c.require_parent_any = texts(&["package.json"]);
    c.require_parent_none = texts(&["keep"]);
    let m = with_context(c);
    let Some(c) = m.rule_context(0) else { panic!("a context was expected") };
    assert_eq!(wanted(&m, "/p/node_modules").listing.as_deref(), Some("/p"));
    let listed = |names: &[&str]| Known { listing: Some(texts(names)), files: Vec::new() };
    assert!(context_allows(c, "/p/node_modules", &listed(&["package.json"])));
    assert!(!context_allows(c, "/p/node_modules", &listed(&["other"])));
    assert!(!context_allows(c, "/p/node_modules", &listed(&["package.json", "keep"])));
    assert!(!context_allows(c, "/p/node_modules", &nothing()));
}

#[test]
fn the_anchor_furthest_up_decides() {
    let mut c = context();
    c.parent_anchor_any = texts(&["cache"]);
    c.require_parent_any = texts(&["x"]);
    let m = with_context(c);
    let Some(c) = m.rule_context(0) else { panic!("a context was expected") };
    assert_eq!(context_parent_dir(c, "/a/cache/b/cache/f").as_deref(), Some("/a"));
    assert_eq!(context_parent_dir(c, "/a/b"), None);
}

#[test]
fn excluded_ancestors_forbid() {
    let mut c = context();
    c.exclude_ancestor_any = texts(&["vendor*"]);
    let m = with_context(c);
    let Some(c) = m.rule_context(0) else { panic!("a context was expected") };
    assert!(!context_allows(c, "/a/vendor1/b", &nothing()));
    assert!(context_allows(c, "/a/b", &nothing()));
}

#[test]
fn required_files_are_looked_for_upwards() {
    let mut c = context();
    c.require_ancestor_files_any = texts(&["Cargo.toml"]);
    c.ancestor_depth = Some(2);
    let m = with_context(c);
    assert_eq!(wanted(&m, "/a/b/c/d").files, texts(&["/a/b/c/Cargo.toml", "/a/b/Cargo.toml"]));
    let Some(c) = m.rule_context(0) else { panic!("a context was expected") };
    assert!(context_allows(c, "/a/b/c/d", &files(&["/a/b/Cargo.toml"])));
    assert!(!context_allows(c, "/a/b/c/d", &files(&["/a/Cargo.toml"])));
    let names = texts(&["x"]);
    assert_eq!(
        ancestor_with_any_file("/a/b/c", &names, 0, &texts(&["/a/b/x", "/a/x"])).as_deref(),
        Some("/a/b")
    );
    assert_eq!(ancestor_with_any_file("/a/b/c", &names, 0, &texts(&["/a/x"])), None);
}

#[test]
fn samples_are_shown_at_their_roots() {
    let mut c = context();
    c.sample_strategy = Some(SampleStrategy::ChromiumProfile);
    let m = with_context(c);
    let shown = |path: &str, k: &Known| sample_path_for(m.rule_context(0), path, k);
    assert_eq!(shown("/d/Chrome/Default/Cache/f", &nothing()), "/d/Chrome");
    assert_eq!(shown("/d/Profile 2/Cache", &nothing()), "/d");
    assert_eq!(
        shown("/d/Chrome/Default/Cache/f", &files(&["/d/Chrome/Default/Local State"])),
        "/d/Chrome/Default"
    );
    assert_eq!(shown("/d/x", &nothing()), "/d/x");

    let mut c = context();
    c.sample_strategy = Some(SampleStrategy::MacosLibraryApp);
    let m = with_context(c);
    let shown = |path: &str| sample_path_for(m.rule_context(0), path, &nothing());
    assert_eq!(shown("/L/Caches/app/x/y"), "/L/Caches/app");
    assert_eq!(shown("/L/Containers/c/Data/Caches/app/x"), "/L/Containers/c");
    assert_eq!(shown("/L/Safari/a/b"), "/L/Safari");

    let mut c = context();
    c.sample_ancestor_files_any = texts(&["marker"]);
    c.sample_parent_any = texts(&["pkg"]);
    let m = with_context(c);
    assert_eq!(
        sample_path_for(m.rule_context(0), "/a/pkg/b/c", &files(&["/a/pkg/b/marker"])),
        "/a/pkg/b"
    );
    assert_eq!(sample_path_for(m.rule_context(0), "/a/pkg/b/c", &nothing()), "/a/pkg");
    assert_eq!(sample_path_for(None, "/a", &nothing()), "/a");
}

fn sample(path: &str, rule_index: usize) -> SampleMatch {
    SampleMatch { path: path.to_string(), bytes: 0, rule_index }
}

#[test]
fn samples_stay_apart_and_few() {
    let mut s = add_sample_first_mode(Vec::new(), sample("/a/b", 0), 2);
    s = add_sample_first_mode(s, sample("/a/b/c", 0), 2);
    assert_eq!(s.len(), 1);
    s = add_sample_first_mode(s, sample("/a/b/c", 1), 2);
    assert_eq!(s.len(), 2);
    s = add_sample_first_mode(s, sample("/a", 0), 2);
    let shown: Vec<(&str, usize)> = s.iter().map(|x| (x.path.as_str(), x.rule_index)).collect();
    assert_eq!(shown, [("/a/b/c", 1), ("/a", 0)]);
    s = add_sample_first_mode(s, sample("/z", 0), 2);
    assert_eq!(s.len(), 2);
    assert!(add_sample_first_mode(Vec::new(), sample("/a", 0), 0).is_empty());
}

fn held(path: &str, bytes: u64) -> SamplePath {
    SamplePath { path: path.to_string(), bytes }
}

#[test]
fn ignored_samples_stay_apart() {
    let mut s = add_git_ignored_sample(Vec::new(), held("/a/b", 1), 5);
    s = add_git_ignored_sample(s, held("/a/c", 1), 5);
    s = add_git_ignored_sample(s, held("/a", 1), 5);
    assert_eq!(s.len(), 1);
    assert_eq!(s[0].path, "/a");
}

#[test]
fn the_largest_paths_come_first() {
    let list = || vec![held("/s", 1), held("/b", 9), held("/a", 9), held("/a/x", 8), held("/m", 5)];
    let shown = |max: usize, percent: Option<u8>| {
        build_largest_paths(list(), max, percent)
            .into_iter()
            .map(|p| p.path)
            .collect::<Vec<_>>()
    };
    assert_eq!(shown(10, None), texts(&["/a", "/b", "/m", "/s"]));
    assert_eq!(shown(2, None), texts(&["/a", "/b"]));
    assert_eq!(shown(10, Some(0)), texts(&["/a", "/b", "/m", "/s"]));
    assert_eq!(shown(10, Some(20)), texts(&["/a", "/b", "/m"]));
    assert_eq!(shown(10, Some(40)), texts(&["/a", "/b"]));
    assert!(shown(10, Some(100)).is_empty());
    assert!(shown(0, None).is_empty());
    let all = build_largest_samples(&vec![vec![held("/q", 1)], Vec::new(), list()], 1, None);
    let pairs: Vec<(&str, usize, u64)> =
        all.iter().map(|x| (x.path.as_str(), x.rule_index, x.bytes)).collect();
    assert_eq!(pairs, [("/q", 0, 1), ("/a", 2, 9)]);
}

#[test]
fn percentages_fall_as_double_precision_takes_them() {
    for percent in 1..100u8 {
        for count in (0..3000u64).chain([1 << 40, (1 << 53) + 1, 12_345_678_901]) {
            let expected = ((count as f64) * (percent as f64 / 100.0)).floor() as u128;
            assert_eq!(percent_floor(count, percent), expected, "{count} {percent}");
        }
    }
}

fn options(mode: SampleMode) -> ScanOptions {
    ScanOptions {
        max_samples: 3,
        threads: None,
        windows_dedupe_hardlinks: false,
        gitignore: Some(GitIgnoreConfig { prune: true }),
        sample_mode: mode,
        sample_bottom_percent: None,
    }
}

fn met(name: &str, is_dir: bool, bytes: u64, key: u128) -> ScanEntry {
    ScanEntry { name: name.to_string(), is_dir, is_reparse: false, bytes, key }
}

#[test]
fn entries_are_recorded() {
    let scanner = Scanner::new(
        matcher(vec![rule("logs", RuleAction::Cleanable, &["**/*.log"])]),
        options(SampleMode::First),
    );
    let mut state = scanner.start();
    let mut seen = SeenFiles::new();
    let m = &scanner.matcher;
    let ignored = |protected: bool| {
        Some(GitVerdict { ignored: true, protected, topmost: "/p/out".to_string() })
    };
    let mut visit = |e: ScanEntry, git: Option<GitVerdict>| {
        visit_entry(&mut state, &mut seen, m, "/p", &e, &git, true, &nothing())
            .map(|v| (v.matched, v.descend))
    };
    assert_eq!(visit(met("a.log", false, 10, 1), None), Some((Some(0), false)));
    assert_eq!(visit(met("b.log", false, 10, 1), None), Some((Some(0), false)));
    assert_eq!(visit(met(".git", true, 0, 0), None), None);
    assert_eq!(visit(met("src", true, 0, 0), None), Some((None, true)));
    assert_eq!(visit(met("out", true, 0, 0), ignored(false)), Some((None, false)));
    assert_eq!(visit(met("kept", true, 0, 0), ignored(true)), Some((None, true)));
    assert_eq!(visit(met("x.o", false, 5, 9), ignored(false)), Some((None, false)));
    assert!(state.room_left());
    let r = state.finish();
    assert_eq!((r.totals[0].bytes, r.totals[0].file_count, r.totals[0].dir_count), (10, 2, 0));
    assert_eq!(r.samples.len(), 2);
    let Some(g) = r.git_ignored else { panic!("totals were expected") };
    assert_eq!((g.bytes, g.file_count, g.dir_count), (5, 1, 1));
    assert_eq!(r.git_ignored_samples.len(), 1);
    assert_eq!(r.git_ignored_samples[0].path, "/p/out");
}

#[test]
fn links_are_not_entered() {
    let m = matcher(Vec::new());
    let mut state = ScanState::new(0, 1, false, SampleMode::First, None);
    let mut seen = SeenFiles::new();
    let mut e = met("d", true, 0, 0);
    e.is_reparse = true;
    let Some(v) = visit_entry(&mut state, &mut seen, &m, "/p", &e, &None, false, &nothing()) else {
        panic!("the entry is looked at");
    };
    assert!(!v.descend);
    assert!(state.finish().git_ignored.is_none());
}

#[test]
fn the_largest_samples_add_up() {
    let scanner = Scanner::new(
        matcher(vec![rule("all", RuleAction::Cleanable, &["/**"])]),
        options(SampleMode::Largest),
    );
    let mut state = scanner.start();
    assert_eq!(state.record_match(&scanner.matcher, "/a", 5, false, &nothing()), Some(0));
    assert_eq!(state.record_match(&scanner.matcher, "/b", 7, false, &nothing()), Some(0));
    assert_eq!(state.record_match(&scanner.matcher, "/a", 5, false, &nothing()), Some(0));
    let r = state.finish();
    let pairs: Vec<(&str, u64)> = r.samples.iter().map(|s| (s.path.as_str(), s.bytes)).collect();
    assert_eq!(pairs, [("/a", 10), ("/b", 7)]);
}

#[test]
fn files_with_one_key_count_once() {
    let mut seen = SeenFiles::new();
    assert_eq!(seen.check_and_add_inode(7, 3), 3);
    assert_eq!(seen.check_and_add_inode(7, 3), 0);
    assert_eq!(seen.check_and_add_inode(0, 3), 3);
    assert_eq!(seen.check_and_add_inode(0, 3), 3);
    assert_eq!(file_size(2, 5), 1024);
    assert_eq!(file_size(0, 5), 5);
    assert_eq!(file_size(u64::MAX, 5), u64::MAX);
}

#[test]
fn threads_are_limited() {
    let mut scanner = Scanner::new(matcher(Vec::new()), options(SampleMode::First));
    assert_eq!(scanner.threads(8, 256), 8);
    assert_eq!(scanner.threads(1000, 256), 256);
    scanner.options.threads = Some(3);
    assert_eq!(scanner.threads(8, 256), 3);
    assert_eq!(grown_buffer(Some(libc::EINVAL), 512), Some(1024));
    assert_eq!(grown_buffer(Some(libc::EINVAL), usize::MAX), Some(usize::MAX));
    assert_eq!(grown_buffer(Some(libc::ERANGE), 512), None);
    assert_eq!(base_path("/a"), "/a/");
    assert_eq!(base_path("/"), "/");
    assert_eq!(base_path(""), "/");
}

fn dirent(name: &[u8], padding: usize) -> Vec<u8> {
    let length = 19 + name.len() + 1 + padding;
    let mut r = vec![9u8; 16];
    r.extend((length as u16).to_le_bytes());
    r.push(8);
    r.extend(name);
    r.extend(vec![0; padding + 1]);
    r
}

#[test]
fn directory_records_are_read() {
    let mut buf = dirent(b".", 4);
    buf.extend(dirent(b"..", 0));
    buf.extend(dirent("ä".as_bytes(), 3));
    buf.extend(dirent(&[0xff, 0xfe], 1));
    buf.extend(dirent(b"", 1));
    buf.extend(dirent(b"last", 0));
    assert_eq!(dirent_names(&buf), texts(&["ä", "last"]));
    buf.extend(vec![0u8; 40]);
    assert_eq!(dirent_names(&buf), texts(&["ä", "last"]));
    assert!(dirent_names(&[]).is_empty());
    assert!(dirent_names(&dirent(b"cut", 0)[..20]).is_empty());
}

fn sets() -> RulesetFile {
    RulesetFile {
        rulesets: vec![RulesetDef {
            name: "all".to_string(),
            includes: texts(&["a.toml", "/abs/b.toml"]),
            disabled: texts(&["off"]),
            disabled_groups: texts(&["old"]),
        }],
    }
}

#[test]
fn rulesets_are_put_together() {
    let grouped = |id: &str, group: Option<&str>| {
        let mut r = rule(id, RuleAction::Cleanable, &["/x"]);
        r.group = group.map(|s| s.to_string());
        r
    };
    let first = RuleFile { rules: vec![grouped("a", None), grouped("off", None)] };
    let second = RuleFile { rules: vec![grouped("b", Some("old")), grouped("c", Some("new"))] };
    let Ok(rules) = load_ruleset(&sets(), "all", vec![first, second], &texts(&["a"]), &Vec::new())
    else {
        panic!("the set is there");
    };
    let ids: Vec<&str> = rules.iter().map(|r| r.id.as_str()).collect();
    assert_eq!(ids, ["c"]);
    assert_eq!(find_ruleset(&sets(), "all"), Ok(0));
    assert!(find_ruleset(&sets(), "none").is_err());
    assert_eq!(
        include_paths("/etc/h/rulesets.toml", &sets().rulesets[0]),
        texts(&["/etc/h/a.toml", "/abs/b.toml"])
    );
    let left = filter_rules(vec![grouped("x", Some("g"))], &Vec::new(), &texts(&["g"]));
    assert!(left.is_empty());
}

#[test]
fn ignored_directories_hold_ignored_entries() {
    let alone = git_verdict("/r/a", &None, true);
    assert!(alone.ignored && !alone.protected);
    assert_eq!(alone.topmost, "/r/a");
    assert!(!git_verdict("/r/a", &None, false).ignored);
    let inside = git_verdict("/r/a/b", &Some("/r/a".to_string()), false);
    assert!(inside.ignored);
    assert_eq!(inside.topmost, "/r/a");
}
