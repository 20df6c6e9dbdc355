use hokori::action::{
    Consent, ExecSummary, PathKind, PlanOptions, Refusal, SafetyArg, build_plan, confirm,
    confirm_prompt, deletion_targets, is_sensitive, journal_entry, journal_path, mode_name, plan_lines,
    plan_positions, plan_total, settle, validate_for_deletion,
};
use hokori::cli::{cleaned_line, home_dir, resolve_roots, rule_line};
use hokori::compiler::Engine;
use hokori::execution::{Event, Orders, Run, Step};
use hokori::providers::Revalidation;
use hokori::report::{
    Confidence, Evidence, Finding, FindingSize, FindingState, FindingTarget, Progress,
    ProviderAction, Report, category_groups, category_lines, display_path,
    finding_text, totals_line,
};
use hokori::rules::{
    RuleDef, RuleError, RuleFile, Safety, SizeError, UserConfig, apply_user_config, combine_rules,
    parse_size, validate,
};
use hokori::selection::{
    AccuracyFilter, Filters, Intent, Key, Notice, Overlay, auto_selectable, bulk_message,
    category_id, category_mark, checked_bytes, confirm_message, count_selected, finding_id,
    finding_mark, finding_notes, lower_age, needs_strong, next_min_size, on_key, picked, raise_age,
    result_message, select_all, selectable, selected_category, selected_finding, toggle,
    toggle_category, visible, without_picked, without_superseded, worth_showing,
};
use hokori::taxonomy::category_info;

fn texts(list: &[&str]) -> Vec<String> {
    list.iter().map(|s| s.to_string()).collect()
}

fn finding(id: &str, category: &str, safety: Safety, bytes: u64) -> Finding {
    let info = category_info(category);
    Finding {
        stable_id: id.to_string(),
        rule_id: id.to_string(),
        category: category.to_string(),
        section: info.section,
        subgroup: info.subgroup,
        safety,
        target: FindingTarget::Filesystem { path: format!("/home/me/{id}") },
        path: format!("/home/me/{id}"),
        bytes,
        size: FindingSize::exact_physical(bytes),
        files: 1,
        dirs: 0,
        age_days: Some(40),
        recent: false,
        report_only: false,
        in_use: false,
        manual_only: false,
        confidence: Confidence::High,
        state: FindingState::Candidate,
        provider: None,
        reason: String::new(),
        evidence: Vec::new(),
        native_action: None,
        supersedes: Vec::new(),
        description: None,
        impact: None,
        recommendation: None,
        clean_via: Vec::new(),
        member_paths: Vec::new(),
    }
}

fn options(safety: SafetyArg) -> PlanOptions {
    PlanOptions {
        safety,
        categories: Vec::new(),
        rules: Vec::new(),
        min_age_days: None,
        limit: None,
        include_recent: false,
    }
}

fn planned(findings: &[Finding], o: &PlanOptions) -> Vec<String> {
    build_plan(findings, o).iter().map(|f| f.rule_id.clone()).collect()
}

#[test]
fn plans_take_the_allowed_tiers_largest_first() {
    let all = vec![
        finding("a", "app-cache", Safety::Safe, 1),
        finding("b", "app-cache", Safety::Review, 5),
        finding("c", "log", Safety::Risky, 3),
        finding("d", "log", Safety::Safe, 9),
        finding("e", "log", Safety::Protected, 100),
    ];
    assert_eq!(planned(&all, &options(SafetyArg::Safe)), ["d", "a"]);
    assert_eq!(planned(&all, &options(SafetyArg::Review)), ["d", "b", "a"]);
    assert_eq!(planned(&all, &options(SafetyArg::Risky)), ["d", "b", "c", "a"]);
    let mut o = options(SafetyArg::Risky);
    o.categories = texts(&["app-cache"]);
    assert_eq!(planned(&all, &o), ["b", "a"]);
    o.rules = texts(&["a"]);
    assert_eq!(planned(&all, &o), ["a"]);
    let mut o = options(SafetyArg::Risky);
    o.limit = Some(2);
    assert_eq!(planned(&all, &o), ["d", "b"]);
    assert_eq!(plan_positions(&all, &options(SafetyArg::Safe)), [3, 0]);
}

#[test]
fn plans_leave_recent_and_reported_findings_alone() {
    let mut recent = finding("r", "log", Safety::Safe, 1);
    recent.recent = true;
    let mut told = finding("t", "log", Safety::Safe, 1);
    told.report_only = true;
    let all = vec![recent, told];
    assert!(planned(&all, &options(SafetyArg::Safe)).is_empty());
    let mut o = options(SafetyArg::Safe);
    o.include_recent = true;
    assert_eq!(planned(&all, &o), ["r"]);
    o.min_age_days = Some(41);
    assert!(planned(&all, &o).is_empty());
}

#[test]
fn plans_are_shown() {
    let all = vec![finding("a", "log", Safety::Safe, 2048)];
    let plan = build_plan(&all, &options(SafetyArg::Safe));
    assert_eq!(plan_total(&plan), Some(2048));
    let lines = plan_lines(&plan, 2048, Some("/home/me"), false);
    assert_eq!(lines[0], "Would delete (dry run):");
    assert_eq!(lines[lines.len() - 2], "Total: 2.0 KB");
    assert_eq!(plan_lines(&plan, 2048, None, true)[0], "Will delete:");
    assert_eq!(plan_lines(&Vec::new(), 0, None, true), ["Nothing matches the plan filters."]);
    assert!(confirm_prompt(2048, 1).contains("2.0 KB"));
}

#[test]
fn consent_is_asked_for() {
    assert_eq!(confirm(0, true, None), Consent::Empty);
    assert_eq!(confirm(1, true, None), Consent::Given);
    assert_eq!(confirm(1, false, None), Consent::Ask);
    assert_eq!(confirm(1, false, Some(" delete \n")), Consent::Given);
    assert_eq!(confirm(1, false, Some("y")), Consent::Aborted);
}

fn engine(protect: &[&str]) -> Engine {
    match Engine::compile(Vec::new(), &texts(protect), Some("/home/me"), false) {
        Ok(e) => e,
        Err(e) => panic!("{}", e.message()),
    }
}

fn refusal(path: &str, kind: PathKind) -> Option<Refusal> {
    validate_for_deletion(path, kind, &engine(&["~/docs/**"]), "/home/me").err()
}

#[test]
fn the_funnel_refuses() {
    assert!(matches!(refusal("a/b/c/d", PathKind::Other), Some(Refusal::Relative)));
    assert!(matches!(refusal("/home/me/a/b", PathKind::Absent), Some(Refusal::Vanished)));
    assert!(matches!(refusal("/home/me/a/b", PathKind::Symlink), Some(Refusal::Symlink)));
    assert!(matches!(refusal("/tmp/a", PathKind::Other), Some(Refusal::Shallow)));
    assert!(matches!(refusal("/usr/lib/x/y", PathKind::Other), Some(Refusal::OutsideUserSpace)));
    assert!(matches!(refusal("/home/me/Library/Caches", PathKind::Other), Some(Refusal::Container(_))));
    assert!(matches!(refusal("/home/me/docs/x", PathKind::Other), Some(Refusal::Protected)));
    assert!(refusal("/home/me/Library/Caches/app", PathKind::Other).is_none());
    assert!(refusal("/private/tmp/a/b", PathKind::Other).is_none());
    let deep = validate_for_deletion("/a/b/me", PathKind::Other, &engine(&[]), "/a/b/me").err();
    assert!(matches!(deep, Some(Refusal::Home)));
    assert_eq!(Refusal::Shallow.message(), "refusing shallow path (depth < 4)");
    assert_eq!(Refusal::Container("Library".to_string()).message(), "refusing container directory Library");
}

#[test]
fn grouped_findings_list_their_targets() {
    let mut group = finding("g", "log", Safety::Safe, 1);
    group.member_paths = texts(&["/home/me/x/1", "/home/me/x/2"]);
    assert_eq!(deletion_targets(&group), texts(&["/home/me/x/1", "/home/me/x/2"]));
    assert_eq!(deletion_targets(&finding("a", "log", Safety::Safe, 1)), texts(&["/home/me/a"]));
}

#[test]
fn attempts_are_accounted_for() {
    let mut s = ExecSummary { deleted: 0, failed: 0, freed_bytes: 0, errors: Vec::new() };
    s.account(&texts(&["/home/me/a"]), &vec![None], 10, "/home/me");
    s.account(&texts(&["/home/me/b", "/home/me/c"]), &vec![None, Some("busy".to_string())], 10, "/home/me");
    assert_eq!((s.deleted, s.failed, s.freed_bytes), (2, 1, 10));
    assert_eq!(s.errors, texts(&["~/c: busy"]));
    assert_eq!(settle(Some("x".to_string()), true), None);
    assert_eq!(settle(Some("x".to_string()), false), Some("x".to_string()));
}

fn native(id: &str) -> Finding {
    let mut f = finding(id, "log", Safety::Review, 100);
    f.native_action = Some(ProviderAction {
        provider_id: "docker".to_string(),
        action_id: "remove".to_string(),
        object_id: "image".to_string(),
        preview: Vec::new(),
        irreversible: true,
        strong_confirmation: true,
    });
    f
}

/// Carries out findings, with an answer for every step, and tells what was done.
fn carried_out(
    findings: &[Finding],
    permanently: bool,
    answer: &dyn Fn(&Step) -> Event,
) -> (Vec<String>, ExecSummary) {
    let items: Vec<&Finding> = findings.iter().collect();
    let compiled = engine(&["~/docs/**"]);
    let orders = Orders { items: &items, engine: &compiled, home: "/home/me", permanently };
    let mut told = Vec::new();
    let mut run = Run::new();
    let mut event = Event::Begin;
    loop {
        let (next, step) = run.advance(&orders, event, 7);
        run = next;
        told.push(match &step {
            Step::Inspect(p) => format!("inspect {p}"),
            Step::Delete(p, permanently) => format!("delete {p} {permanently}"),
            Step::Confirm(p) => format!("confirm {p}"),
            Step::Recheck(i) => format!("recheck {i}"),
            Step::Act(i, permanently) => format!("act {i} {permanently}"),
            Step::Record(e) => {
                format!("record {} {} {} {} {}", e.ts, e.path, e.mode, e.result, e.freed_bytes)
            }
            Step::Done => "done".to_string(),
        });
        if let Step::Done = step {
            return (told, run.into_summary());
        }
        event = answer(&step);
    }
}

fn smoothly(step: &Step) -> Event {
    match step {
        Step::Inspect(_) => Event::Found(PathKind::Other),
        Step::Delete(_, _) => Event::Deleted(None),
        Step::Confirm(_) => Event::Seen(true),
        Step::Recheck(_) => Event::Rechecked(Ok(Revalidation::Valid)),
        Step::Act(_, _) => Event::Acted(Ok(60)),
        _ => Event::Recorded,
    }
}

#[test]
fn runs_delete_what_passes_the_funnel() {
    let mut group = finding("g", "log", Safety::Safe, 10);
    group.member_paths = texts(&["/home/me/x/1", "/home/me/docs/2"]);
    let mut reported = finding("r", "log", Safety::Safe, 1000);
    reported.report_only = true;
    let findings = [reported, group, finding("p", "log", Safety::Protected, 1000), finding("b/c", "log", Safety::Safe, 5)];
    let answer = |step: &Step| match step {
        Step::Confirm(p) if p.contains("docs") => Event::Seen(false),
        other => smoothly(other),
    };
    let (told, summary) = carried_out(&findings, false, &answer);
    assert_eq!(
        told,
        texts(&[
            "inspect /home/me/x/1",
            "delete /home/me/x/1 false",
            "confirm /home/me/x/1",
            "record 7 /home/me/x/1 trash ok 10",
            "inspect /home/me/docs/2",
            "confirm /home/me/docs/2",
            "record 7 /home/me/docs/2 trash error 0",
            "inspect /home/me/b/c",
            "delete /home/me/b/c false",
            "confirm /home/me/b/c",
            "record 7 /home/me/b/c trash ok 5",
            "done",
        ])
    );
    assert_eq!((summary.deleted, summary.failed, summary.freed_bytes), (2, 1, 5));
    assert_eq!(summary.errors, texts(&["~/docs/2: protected by rules/config"]));
}

#[test]
fn runs_count_what_is_gone_as_deleted() {
    let findings = [finding("a/b", "log", Safety::Safe, 5)];
    let answer = |step: &Step| match step {
        Step::Delete(_, _) => Event::Deleted(Some("busy".to_string())),
        other => smoothly(other),
    };
    let (told, summary) = carried_out(&findings, true, &answer);
    assert_eq!(told[1], "delete /home/me/a/b true");
    assert_eq!(told[3], "record 7 /home/me/a/b delete ok 5");
    assert_eq!((summary.deleted, summary.failed, summary.freed_bytes), (1, 0, 5));
}

#[test]
fn runs_recheck_native_actions() {
    let findings = [native("one"), native("two"), native("three"), native("four")];
    let answer = |step: &Step| match step {
        Step::Recheck(1) => Event::Rechecked(Ok(Revalidation::Changed("moved on".to_string()))),
        Step::Recheck(2) => Event::Rechecked(Err("no provider".to_string())),
        Step::Act(3, _) => Event::Acted(Err("failed".to_string())),
        other => smoothly(other),
    };
    let (told, summary) = carried_out(&findings, false, &answer);
    assert_eq!(
        told,
        texts(&[
            "recheck 0",
            "act 0 false",
            "record 7 /home/me/one native ok 60",
            "recheck 1",
            "record 7 /home/me/two native error 0",
            "recheck 2",
            "record 7 /home/me/three native error 0",
            "recheck 3",
            "act 3 false",
            "record 7 /home/me/four native error 0",
            "done",
        ])
    );
    assert_eq!((summary.deleted, summary.failed, summary.freed_bytes), (1, 3, 60));
    assert_eq!(summary.errors, texts(&["two: moved on", "three: no provider", "four: failed"]));
}

#[test]
fn empty_runs_are_done_at_once() {
    let (told, summary) = carried_out(&[], false, &smoothly);
    assert_eq!(told, texts(&["done"]));
    assert_eq!((summary.deleted, summary.failed, summary.freed_bytes), (0, 0, 0));
}

#[test]
fn the_journal_withholds_what_is_sensitive() {
    let mut f = finding("a", "log", Safety::Safe, 10);
    f.evidence = vec![
        Evidence { label: "Access Token".to_string(), value: "abc".to_string() },
        Evidence { label: "path".to_string(), value: "/x".to_string() },
    ];
    let e = journal_entry(5, &f, "/home/me/a", mode_name(false), false, 10);
    assert_eq!(e.evidence[0].label, "Access Token");
    assert_eq!(e.evidence[0].value, "[redacted]");
    assert!(is_sensitive("PASSWORD") && is_sensitive("API key") && is_sensitive("Client secret"));
    assert!(!is_sensitive("Repository") && !is_sensitive("Cache") && !is_sensitive(""));
    assert_eq!(e.evidence[1].value, "/x");
    assert_eq!((e.ts, e.bytes, e.freed_bytes), (5, 10, 10));
    assert_eq!(e.result, "ok");
    let failed = journal_entry(5, &f, "/home/me/a", mode_name(true), true, 10);
    assert_eq!((failed.freed_bytes, failed.result.as_str()), (0, "error"));
    assert_ne!(mode_name(true), mode_name(false));
    assert_eq!(journal_path("/home/me"), "/home/me/.local/state/hokori/journal.jsonl");
}

#[test]
fn bulk_selection_is_safe_only() {
    let mut recent = finding("r", "log", Safety::Safe, 1);
    recent.recent = true;
    let mut manual = finding("m", "log", Safety::Safe, 1);
    manual.manual_only = true;
    let all = vec![
        finding("a", "log", Safety::Safe, 4),
        finding("b", "log", Safety::Review, 1),
        recent,
        manual,
    ];
    assert_eq!(select_all(&all), [true, false, false, false]);
    assert!(auto_selectable(&all[0]) && !auto_selectable(&all[1]));
    assert!(selectable(&all[1]));
    let mut checked = vec![false; 4];
    toggle_category(&all, &mut checked, "log");
    assert_eq!(checked, [true, false, false, false]);
    toggle_category(&all, &mut checked, "log");
    assert_eq!(checked, [false; 4]);
    assert!(matches!(toggle(&all, &mut checked, 3), Notice::ManualOnly));
    assert!(matches!(toggle(&all, &mut checked, 2), Notice::Recent));
    assert!(matches!(toggle(&all, &mut checked, 0), Notice::Nothing));
    assert_eq!(checked, [true, false, true, true]);
    assert_eq!(count_selected(&checked), 3);
    assert_eq!(checked_bytes(&all, &checked), 6);
    assert_eq!(picked(&all, &checked), [0, 2, 3]);
    let left = without_picked(all, &checked);
    assert_eq!(left.len(), 1);
    assert_eq!(left[0].rule_id, "b");
}

#[test]
fn protected_findings_cannot_be_selected() {
    let all = vec![finding("p", "log", Safety::Protected, 4)];
    let mut checked = vec![false];
    let notice = toggle(&all, &mut checked, 0);
    assert_eq!(notice.message(), "Not deletable: protected or report-only.");
    assert_eq!(checked, [false]);
}

#[test]
fn strong_confirmation_needs_shift() {
    assert_eq!(on_key(Overlay::Confirm, Key::Char('y'), false, 1, false), Intent::Execute);
    assert_eq!(on_key(Overlay::Confirm, Key::Char('y'), false, 1, true), Intent::Dismiss);
    assert_eq!(on_key(Overlay::Confirm, Key::Char('Y'), false, 1, true), Intent::Execute);
    assert_eq!(on_key(Overlay::Message, Key::Char('q'), false, 1, false), Intent::Dismiss);
    assert_eq!(on_key(Overlay::Nothing, Key::Esc, false, 1, false), Intent::Quit);
    assert_eq!(on_key(Overlay::Nothing, Key::Char('c'), true, 0, false), Intent::Quit);
    let mut f = finding("a", "log", Safety::Safe, 1);
    assert!(!needs_strong(&[f.clone()], &vec![true], false));
    assert!(needs_strong(&[f.clone()], &vec![true], true));
    f.native_action = Some(ProviderAction {
        provider_id: "docker".to_string(),
        action_id: "x".to_string(),
        object_id: "y".to_string(),
        preview: Vec::new(),
        irreversible: true,
        strong_confirmation: true,
    });
    assert!(needs_strong(&[f], &vec![true], false));
}

#[test]
fn the_interface_has_its_words() {
    assert_eq!(bulk_message(2), "Selected 2 safe items (recent skipped; space picks others by hand).");
    assert!(confirm_message(true, 1024, 1, true).starts_with("PERMANENTLY DELETE 1.0 KB across 1 items?"));
    assert!(confirm_message(false, 1024, 1, false).starts_with("move to Trash"));
    assert_eq!(
        result_message(1024, 2, 1, Some("busy")),
        "Freed 1.0 KB — 2 deleted, 1 failed.\nFirst error: busy"
    );
    let mut f = finding("a", "log", Safety::Safe, 1);
    f.files = 3;
    f.recent = true;
    assert_eq!(finding_notes(&f), " ·recent ·3 files");
    assert_eq!(selected_finding(finding_id(7).as_str()), Some(7));
    assert_eq!(selected_category(category_id("log").as_str()).as_deref(), Some("log"));
    assert_eq!(selected_finding(category_id("log").as_str()), None);
    assert_ne!(category_mark(0, 2), category_mark(2, 2));
    assert_ne!(finding_mark(&f, true), finding_mark(&f, false));
    assert!(raise_age(30) > 30);
    assert!(lower_age(30) < 30);
    assert_ne!(next_min_size(1 << 20), 1 << 20);
}

#[test]
fn filters_hide() {
    let mut f = finding("a", "log", Safety::Safe, 5 << 20);
    let show = |show_recent: bool, accuracy: AccuracyFilter| Filters { provider: None, accuracy, show_recent };
    assert!(visible(&f, &show(true, AccuracyFilter::All)));
    f.recent = true;
    assert!(!visible(&f, &show(false, AccuracyFilter::All)));
    assert!(!visible(&f, &show(true, AccuracyFilter::Estimated)));
    assert!(visible(&f, &show(true, AccuracyFilter::Exact)));
    assert!(worth_showing(&f));
    let left = without_superseded(
        vec![finding("old", "log", Safety::Safe, 1), finding("new", "log", Safety::Safe, 1)],
        &texts(&["old"]),
    );
    assert_eq!(left.len(), 1);
    assert_eq!(left[0].rule_id, "new");
}

#[test]
fn totals_count_by_tier() {
    let mut recent = finding("r", "log", Safety::Safe, 10);
    recent.recent = true;
    let mut told = finding("t", "log", Safety::Risky, 20);
    told.report_only = true;
    let all = vec![
        finding("a", "log", Safety::Safe, 1),
        finding("b", "log", Safety::Review, 2),
        finding("c", "log", Safety::Risky, 4),
        recent,
        told,
    ];
    let t = Report::compute_totals(&all);
    assert_eq!((t.safe_bytes, t.review_bytes, t.risky_bytes), (1, 2, 4));
    assert_eq!((t.report_only_bytes, t.recent_bytes), (20, 10));
    assert_eq!(
        totals_line(&t),
        "Totals: safe=1 B  review=2 B  risky=4 B  report-only=20 B  skipped-recent=10 B"
    );
    let huge = vec![
        finding("a", "log", Safety::Safe, u64::MAX),
        finding("b", "log", Safety::Safe, 1),
    ];
    assert!(Report::checked_totals(&huge).is_none());
}

#[test]
fn reports_group_by_category() {
    let all = vec![
        finding("a", "log", Safety::Safe, 1),
        finding("b", "cache", Safety::Safe, 9),
        finding("c", "log", Safety::Review, 4),
    ];
    let Some(groups) = category_groups(&all) else { panic!("the sums fit") };
    let names: Vec<(&str, u64)> = groups.iter().map(|g| (g.category.as_str(), g.total)).collect();
    assert_eq!(names, [("cache", 9), ("log", 5)]);
    let lines = category_lines(&all, &groups[1], Some("/home/me"), false);
    assert_eq!(lines[1], "log  —  5 B");
    assert_eq!(lines[2], finding_text(&all[2], Some("/home/me")));
    assert_eq!(lines[2], "        4 B  review    40d  ~/c");
    assert_eq!(display_path("/home/me/x", Some("/home/me")), "~/x");
    assert_eq!(display_path("/etc", Some("/home/me")), "/etc");
}

#[test]
fn long_categories_are_cut() {
    let all: Vec<Finding> =
        (0..15).map(|i| finding(&format!("f{i}"), "log", Safety::Safe, 1024)).collect();
    let Some(groups) = category_groups(&all) else { panic!("the sums fit") };
    let lines = category_lines(&all, &groups[0], None, false);
    assert_eq!(lines.len(), 2 + 12 + 1);
    assert_eq!(lines[14], "     3.0 KB  … 3 more (use --verbose)");
    assert_eq!(category_lines(&all, &groups[0], None, true).len(), 2 + 15);
}

#[test]
fn progress_adds_up() {
    let mut p = Progress::new();
    p.add(1, 2, 3);
    p.add(10, 20, 30);
    assert_eq!(p.snapshot(), (11, 22, 33));
}

fn rule(id: &str) -> RuleDef {
    RuleDef {
        id: id.to_string(),
        category: "app-cache".to_string(),
        safety: Safety::Safe,
        description: None,
        impact: None,
        recommendation: None,
        roots: Vec::new(),
        directory_only: false,
        dir_names: texts(&["x"]),
        file_names: Vec::new(),
        file_suffixes: Vec::new(),
        path_globs: Vec::new(),
        require_sibling_any: Vec::new(),
        exclude_ancestors: Vec::new(),
        process_names: Vec::new(),
        min_age_days: None,
        min_size: None,
        min_file_size: None,
        clean_via: Vec::new(),
        report_only: false,
        manual_only: false,
    }
}

#[test]
fn rules_are_validated() {
    assert!(validate(&vec![rule("a"), rule("b")]).is_ok());
    assert!(matches!(validate(&vec![rule("a"), rule("a")]), Err(RuleError::Duplicate(_))));
    assert_eq!(RuleError::Duplicate("a".to_string()).message(), "duplicate rule id: a");
    let mut idle = rule("idle");
    idle.dir_names = Vec::new();
    assert!(matches!(validate(&vec![idle]), Err(RuleError::NoTrigger(_))));
    let mut size = rule("size");
    size.min_size = Some("many".to_string());
    assert!(matches!(validate(&vec![size]), Err(RuleError::BadSize(_, SizeError::BadNumber))));
    assert!(matches!(parse_size("1 parsec"), Err(SizeError::UnknownUnit(_))));
    let files = vec![RuleFile { rules: vec![rule("a")] }, RuleFile { rules: vec![rule("b")] }];
    assert_eq!(combine_rules(files).map(|r| r.len()).unwrap_or(0), 2);
    let twice = vec![RuleFile { rules: vec![rule("a")] }, RuleFile { rules: vec![rule("a")] }];
    assert!(combine_rules(twice).is_err());
}

#[test]
fn users_disable_and_age_rules() {
    let mut aged = rule("b");
    aged.min_age_days = Some(3);
    let mut rules = vec![rule("a"), aged, rule("c")];
    let config = UserConfig {
        protect: Vec::new(),
        disable_rules: texts(&["a"]),
        min_age_days: Some(9),
    };
    apply_user_config(&mut rules, &config);
    let ids: Vec<&str> = rules.iter().map(|r| r.id.as_str()).collect();
    assert_eq!(ids, ["b", "c"]);
}

#[test]
fn the_command_line_has_its_lines() {
    let mut r = rule("npm-cache");
    r.report_only = true;
    assert_eq!(
        rule_line(&r),
        format!("{:<28} {:<24} {:<9} discovery (report only)", "npm-cache", "app-cache", "safe")
    );
    r.roots = texts(&["/x"]);
    r.report_only = false;
    assert!(rule_line(&r).ends_with(" targeted"));
    assert_eq!(home_dir(Some("/h"), Some("/p")).as_deref(), Some("/h"));
    assert_eq!(home_dir(Some(""), Some("/p")).as_deref(), Some("/p"));
    assert_eq!(home_dir(None, Some("")), None);
    assert_eq!(resolve_roots(&texts(&["/a"]), None), Ok(texts(&["/a"])));
    assert_eq!(resolve_roots(&Vec::new(), Some("/h")), Ok(texts(&["/h"])));
    assert_eq!(
        resolve_roots(&Vec::new(), None),
        Err("no --root given and $HOME is unset".to_string())
    );
    assert_eq!(
        cleaned_line(1024, 2, 3),
        "Freed 1.0 KB (2 items deleted, 3 skipped/failed). Journal: ~/.local/state/hokori/journal.jsonl"
    );
}
