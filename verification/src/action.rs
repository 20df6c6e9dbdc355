//! The action engine: build a deletion plan from findings, show it (dry-run is
//! the default and only implicit mode), and decide what may be deleted through a
//! single validation funnel. Every attempt is accounted for and journaled.

use crate::compiler::Engine;
use crate::paths;
use crate::paths::{absolute, below, component_count, equal_paths, under};
use crate::report::{
    Evidence, EvidenceModel, Finding, FindingModel, count_note, display_path, files_note, human_bytes,
    shown_path,
};
use crate::rules::{Safety, safety_label};
use crate::seqs::{
    find_some, group_views, law_found_is_made, lemma_find_none, lemma_find_step, view_of, views,
};
use crate::sizes::{capped_sum, human, plus};
use crate::sorting;
use crate::sorting::{is_ranking, ranks_before};
use crate::text;
use crate::text::{digits, same};
use vstd::prelude::*;

verus! {

broadcast use group_views;

// ---- plans ----

/// The highest safety tier that a plan includes.
#[derive(Debug, Clone, Copy, PartialEq, Eq, Structural)]
pub enum SafetyArg {
    Safe,
    Review,
    Risky,
}

/// Whether a tier includes findings of a safety.
pub open spec fn tier_allows(tier: SafetyArg, safety: Safety) -> bool {
    match tier {
        SafetyArg::Safe => safety == Safety::Safe,
        SafetyArg::Review => safety == Safety::Safe || safety == Safety::Review,
        SafetyArg::Risky => safety == Safety::Safe || safety == Safety::Review || safety
            == Safety::Risky,
    }
}

impl SafetyArg {
    /// Whether the tier includes findings of a safety.
    pub fn allows(self, safety: Safety) -> (r: bool)
        ensures
            r == tier_allows(self, safety),
    {
        match self {
            SafetyArg::Safe => safety == Safety::Safe,
            SafetyArg::Review => safety == Safety::Safe || safety == Safety::Review,
            SafetyArg::Risky => safety == Safety::Safe || safety == Safety::Review || safety
                == Safety::Risky,
        }
    }
}

/// What a plan is made of.
pub struct PlanOptions {
    pub safety: SafetyArg,
    pub categories: Vec<String>,
    pub rules: Vec<String>,
    pub min_age_days: Option<u64>,
    pub limit: Option<usize>,
    /// Include findings the rules flagged as recently-used (off by default).
    pub include_recent: bool,
}

/// Whether a finding enters a plan. Findings for manual choice stay out unless
/// their rule is named; where rules or categories are named, others stay out.
pub open spec fn plannable(f: Finding, o: PlanOptions) -> bool {
    &&& !f.report_only
    &&& f.manual_only ==> views(o.rules@).contains(f.rule_id@)
    &&& f.recent ==> o.include_recent
    &&& tier_allows(o.safety, f.safety)
    &&& o.categories@.len() > 0 ==> views(o.categories@).contains(f.category@)
    &&& o.rules@.len() > 0 ==> views(o.rules@).contains(f.rule_id@)
    &&& match (o.min_age_days, f.age_days) {
        (Some(min), Some(age)) => age >= min,
        _ => true,
    }
}

fn is_plannable(f: &Finding, o: &PlanOptions) -> (r: bool)
    ensures
        r == plannable(*f, *o),
{
    if f.report_only {
        return false;
    }
    if f.manual_only && !text::among(f.rule_id.as_str(), &o.rules) {
        return false;
    }
    if f.recent && !o.include_recent {
        return false;
    }
    if !o.safety.allows(f.safety) {
        return false;
    }
    if o.categories.len() > 0 && !text::among(f.category.as_str(), &o.categories) {
        return false;
    }
    if o.rules.len() > 0 && !text::among(f.rule_id.as_str(), &o.rules) {
        return false;
    }
    match (o.min_age_days, f.age_days) {
        (Some(min), Some(age)) => age >= min,
        _ => true,
    }
}

/// The bytes of some findings.
pub open spec fn bytes_of(findings: Seq<Finding>) -> Seq<u64> {
    findings.map_values(|f: Finding| f.bytes)
}

/// Whether a plan has reached its limit.
pub open spec fn full(o: PlanOptions, len: nat) -> bool {
    match o.limit {
        Some(n) => len >= n,
        None => false,
    }
}

/// Whether `p` lists the findings that enter a plan, largest first and equal ones
/// in their order, as many as the limit lets in.
pub open spec fn is_plan(findings: Seq<Finding>, o: PlanOptions, p: Seq<usize>) -> bool {
    &&& forall|i: int|
    0 <= i < p.len() ==> (#[trigger] p[i]) < findings.len() && plannable(
        findings[p[i] as int],
        o,
    )
    &&& forall|i: int, j: int|
    0 <= i < j < p.len() ==> ranks_before(
        bytes_of(findings),
        #[trigger] p[i],
        #[trigger] p[j],
    )
    &&& o.limit matches Some(n) ==> p.len() <= n
    &&& forall|k: usize|
    k < findings.len() && plannable(findings[k as int], o) && !(#[trigger] p.contains(k)) ==> full(
        o,
        p.len(),
    ) && forall|i: int|
    0 <= i < p.len() ==> ranks_before(bytes_of(findings), #[trigger] p[i], k)
}

/// The positions of the findings of a plan.
pub fn plan_positions(findings: &[Finding], options: &PlanOptions) -> (r: Vec<usize>)
    ensures
        is_plan(findings@, *options, r@),
{
    let ghost keys = bytes_of(findings@);
    let mut sizes: Vec<u64> = Vec::new();
    let mut i: usize = 0;
    let n: usize = findings.len();
    while i < n
        invariant
            i <= n,
            n == findings@.len(),
            sizes@ == bytes_of(findings@).take(i as int),
        decreases n - i,
    {
        sizes.push(findings[i].bytes);
        assert(sizes@ =~= bytes_of(findings@).take(i + 1));
        i += 1;
    }
    assert(sizes@ =~= keys);
    let order = sorting::ranking(&sizes);
    let ghost ranked = order@;
    let mut r: Vec<usize> = Vec::new();
    let mut k: usize = 0;
    let m: usize = order.len();
    while k < m
        invariant
            k <= m,
            m == order@.len(),
            ranked == order@,
            n == findings@.len(),
            keys == bytes_of(findings@),
            is_ranking(keys, ranked),
            ranked.len() == n,
            forall|i: int|
            0 <= i < r@.len() ==> (#[trigger] r@[i]) < n && plannable(
                findings@[r@[i] as int],
                *options,
            ) && ranked.take(k as int).contains(r@[i]),
            forall|i: int, j: int|
            0 <= i < j < r@.len() ==> ranks_before(keys, #[trigger] r@[i], #[trigger] r@[j]),
            options.limit matches Some(l) ==> r@.len() <= l,
            forall|j: int|
            0 <= j < k && plannable(findings@[#[trigger] ranked[j] as int], *options) ==> r@.contains(
                ranked[j],
            ) || (full(*options, r@.len()) && forall|i: int|
                0 <= i < r@.len() ==> ranks_before(keys, #[trigger] r@[i], ranked[j])),
        decreases m - k,
    {
        let at = order[k];
        let ghost before = r@;
        let room = match options.limit {
            Some(l) => r.len() < l,
            None => true,
        };
        assert(at == ranked[k as int]);
        assert forall|i: int| 0 <= i < before.len() implies ranks_before(
            keys,
            #[trigger] before[i],
            at,
        ) by {
            let t = ranked.take(k as int);
            let j = choose|j: int| 0 <= j < t.len() && t[j] == before[i];
            assert(ranked[j] == before[i] && j < k);
            assert(ranks_before(keys, ranked[j], ranked[k as int]));
        }
        if is_plannable(&findings[at], options) && room {
            r.push(at);
            assert(r@[before.len() as int] == at);
        }
        proof {
            let t1 = ranked.take(k + 1);
            assert forall|i: int| 0 <= i < r@.len() implies t1.contains(#[trigger] r@[i]) by {
                if i < before.len() {
                    let t = ranked.take(k as int);
                    let j = choose|j: int| 0 <= j < t.len() && t[j] == before[i];
                    assert(t1[j] == before[i]);
                } else {
                    assert(t1[k as int] == at);
                }
            }
            assert forall|j: int| 0 <= j < k + 1 && plannable(
                findings@[#[trigger] ranked[j] as int],
                *options,
            ) implies r@.contains(ranked[j]) || (full(*options, r@.len()) && forall|i: int|
                0 <= i < r@.len() ==> ranks_before(keys, #[trigger] r@[i], ranked[j])) by {
                if j < k {
                    if before.contains(ranked[j]) {
                        let i = choose|i: int| 0 <= i < before.len() && before[i] == ranked[j];
                        assert(r@[i] == ranked[j]);
                    } else {
                        assert(full(*options, before.len()));
                        assert(r@ == before);
                    }
                } else if room {
                    assert(r@.contains(ranked[j]));
                } else {
                    assert(r@ == before);
                }
            }
        }
        k += 1;
    }
    proof {
        assert forall|q: usize|
        q < findings@.len() && plannable(findings@[q as int], *options) && !(#[trigger] r@.contains(
                q,
        )) implies full(*options, r@.len()) && forall|i: int|
        0 <= i < r@.len() ==> ranks_before(bytes_of(findings@), #[trigger] r@[i], q) by {
            assert(ranked.contains(q));
            let j = choose|j: int| 0 <= j < ranked.len() && ranked[j] == q;
            assert(ranked[j] == q);
        }
    }
    r
}

/// Whether items are the findings at some positions.
pub open spec fn items_at(findings: Seq<Finding>, p: Seq<usize>, items: Seq<&Finding>) -> bool {
    items.len() == p.len() && forall|i: int|
    0 <= i < p.len() ==> *(#[trigger] items[i]) == findings[p[i] as int]
}

/// The findings of a plan, largest first.
pub fn build_plan<'a>(findings: &'a [Finding], options: &PlanOptions) -> (r: Vec<&'a Finding>)
    ensures
        exists|p: Seq<usize>|
        #[trigger] is_plan(findings@, *options, p) && items_at(findings@, p, r@),
{
    let p = plan_positions(findings, options);
    let mut r: Vec<&'a Finding> = Vec::new();
    let mut i: usize = 0;
    while i < p.len()
        invariant
            i <= p@.len(),
            r@.len() == i,
            is_plan(findings@, *options, p@),
            forall|j: int| 0 <= j < i ==> *(#[trigger] r@[j]) == findings@[p@[j] as int],
        decreases p@.len() - i,
    {
        r.push(&findings[p[i]]);
        i += 1;
    }
    assert(items_at(findings@, p@, r@));
    r
}

// ---- showing a plan ----

/// The lines for one item of a plan.
pub open spec fn item_lines(f: FindingModel, home: Option<Seq<char>>) -> Seq<Seq<char>> {
    let first = "  "@ + text::pad_left(human(f.bytes as nat), 9) + "  ["@ + f.rule_id + "/"@ + safety_label(
        f.safety,
    ) + "]  "@ + shown_path(f.path, home) + count_note(f.files);
    let native = if f.clean_via.len() > 0 {
        seq!["             prefer tool-native cleanup: "@ + text::joined(f.clean_via, " "@)]
    } else {
        Seq::empty()
    };
    let impact = match f.impact {
        Some(i) => seq!["             impact: "@ + i],
        None => Seq::empty(),
    };
    seq![first] + native + impact
}

fn show_item(f: &Finding, home: Option<&str>) -> (r: Vec<String>)
    ensures
        views(r@) == item_lines(f@, text::shown(home)),
{
    let mut r: Vec<String> = Vec::new();
    let first = "  ".to_owned().concat(text::right_aligned(human_bytes(f.bytes).as_str(), 9).as_str()).concat(
        "  [",
    ).concat(f.rule_id.as_str()).concat("/").concat(f.safety.label()).concat("]  ").concat(
        display_path(f.path.as_str(), home).as_str(),
    ).concat(files_note(f.files).as_str());
    r.push(first);
    assert(f@.clean_via.len() == f.clean_via@.len());
    if f.clean_via.len() > 0 {
        r.push(
            "             prefer tool-native cleanup: ".to_owned().concat(
                text::join(&f.clean_via, " ").as_str(),
            ),
        );
    }
    if let Some(i) = &f.impact {
        r.push("             impact: ".to_owned().concat(i.as_str()));
    }
    assert(views(r@) =~= item_lines(f@, text::shown(home)));
    r
}

/// The lines for the items of a plan.
pub open spec fn all_item_lines(items: Seq<&Finding>, home: Option<Seq<char>>) -> Seq<Seq<char>>
    decreases items.len(),
{
    if items.len() == 0 {
        Seq::empty()
    } else {
        all_item_lines(items.drop_last(), home) + item_lines(items.last()@, home)
    }
}

/// The lines that show a plan. `total` is what its items take together.
pub open spec fn shown_plan(
    items: Seq<&Finding>,
    total: u64,
    home: Option<Seq<char>>,
    apply: bool,
) -> Seq<Seq<char>> {
    if items.len() == 0 {
        seq!["Nothing matches the plan filters."@]
    } else {
        let head = if apply {
            "Will delete:"@
        } else {
            "Would delete (dry run):"@
        };
        let foot = seq![Seq::<char>::empty(), "Total: "@ + human(total as nat)];
        let note = if apply {
            Seq::empty()
        } else {
            seq!["Dry run — nothing was deleted. Re-run with --apply to execute."@]
        };
        seq![head] + all_item_lines(items, home) + foot + note
    }
}

/// The lines that show a plan. `total` is what its items take together.
pub fn plan_lines(items: &Vec<&Finding>, total: u64, home: Option<&str>, apply: bool) -> (r: Vec<
    String,
    >)
    ensures
        views(r@) == shown_plan(items@, total, text::shown(home), apply),
{
    let ghost h = text::shown(home);
    let mut r: Vec<String> = Vec::new();
    if items.len() == 0 {
        r.push("Nothing matches the plan filters.".to_owned());
        assert(views(r@) =~= shown_plan(items@, total, h, apply));
        return r;
    }
    let head: &str = if apply {
        "Will delete:"
    } else {
        "Would delete (dry run):"
    };
    r.push(head.to_owned());
    let mut i: usize = 0;
    assert(items@.take(0) =~= Seq::<&Finding>::empty());
    assert(views(r@) =~= seq![head@] + all_item_lines(items@.take(0), h));
    while i < items.len()
        invariant
            i <= items@.len(),
            h == text::shown(home),
            views(r@) == seq![head@] + all_item_lines(items@.take(i as int), h),
        decreases items@.len() - i,
    {
        let ghost before = views(r@);
        assert(items@.take(i + 1).drop_last() =~= items@.take(i as int));
        let mut lines = show_item(items[i], home);
        r.append(&mut lines);
        assert(views(r@) =~= seq![head@] + (all_item_lines(items@.take(i as int), h) + item_lines(
                    items@[i as int]@,
                    h,
        )));
        i += 1;
    }
    assert(items@.take(i as int) =~= items@);
    let ghost upto = views(r@);
    r.push(String::new());
    r.push("Total: ".to_owned().concat(human_bytes(total).as_str()));
    if !apply {
        r.push("Dry run — nothing was deleted. Re-run with --apply to execute.".to_owned());
    }
    assert(views(r@) =~= shown_plan(items@, total, h, apply));
    r
}

/// The bytes of the items of a plan.
pub open spec fn item_sum(items: Seq<&Finding>) -> nat
    decreases items.len(),
{
    if items.len() == 0 {
        0
    } else {
        item_sum(items.drop_last()) + items.last().bytes as nat
    }
}

proof fn lemma_item_sum(items: Seq<&Finding>, i: int)
    requires
        0 <= i <= items.len(),
    ensures
        item_sum(items.take(i)) <= item_sum(items),
    decreases items.len(),
{
    if i == items.len() {
        assert(items.take(i) =~= items);
    } else {
        lemma_item_sum(items.drop_last(), i);
        assert(items.drop_last().take(i) =~= items.take(i));
    }
}

/// The bytes of the items of a plan; nothing where they do not fit in 64 bits.
pub fn plan_total(items: &Vec<&Finding>) -> (r: Option<u64>)
    ensures
        match r {
            Some(n) => n == item_sum(items@),
            None => item_sum(items@) > u64::MAX,
        },
{
    let mut sum: u64 = 0;
    let mut i: usize = 0;
    assert(items@.take(0) =~= Seq::<&Finding>::empty());
    while i < items.len()
        invariant
            i <= items@.len(),
            sum == item_sum(items@.take(i as int)),
        decreases items@.len() - i,
    {
        proof {
            assert(items@.take(i + 1).drop_last() =~= items@.take(i as int));
            lemma_item_sum(items@, i + 1);
        }
        if sum > u64::MAX - items[i].bytes {
            return None;
        }
        sum += items[i].bytes;
        i += 1;
    }
    assert(items@.take(i as int) =~= items@);
    Some(sum)
}

// ---- confirmation ----

/// What is asked before a plan is carried out.
pub fn confirm_prompt(total: u64, items: usize) -> (r: String)
    ensures
        r@ == "Type 'delete' to move "@ + human(total as nat) + " across "@ + digits(items as nat)
            + " items to the Trash: "@,
{
    "Type 'delete' to move ".to_owned().concat(human_bytes(total).as_str()).concat(" across ").concat(
        text::decimal(items as u64).as_str(),
    ).concat(" items to the Trash: ")
}

/// Whether a plan may be carried out.
#[derive(Debug, Clone, Copy, PartialEq, Eq, Structural)]
pub enum Consent {
    Given,
    /// The plan is empty.
    Empty,
    /// The answer was another.
    Aborted,
    /// The user has to be asked.
    Ask,
}

/// Whether a plan may be carried out: it is not empty, and the user said so, in
/// advance or by the answer `delete`.
pub fn confirm(items: usize, yes: bool, answer: Option<&str>) -> (r: Consent)
    ensures
        r == if items == 0 {
            Consent::Empty
        } else if yes {
            Consent::Given
        } else {
            match answer {
                None => Consent::Ask,
                Some(a) => if text::trimmed(a@) == "delete"@ {
                    Consent::Given
                } else {
                    Consent::Aborted
                },
            }
        },
{
    if items == 0 {
        Consent::Empty
    } else if yes {
        Consent::Given
    } else {
        match answer {
            None => Consent::Ask,
            Some(a) => if same(text::trim(a).as_str(), "delete") {
                Consent::Given
            } else {
                Consent::Aborted
            },
        }
    }
}

// ---- the funnel ----

/// Why a path is not deleted.
#[derive(Debug, Clone)]
pub enum Refusal {
    Relative,
    Vanished,
    Symlink,
    Shallow,
    OutsideUserSpace,
    Home,
    Container(String),
    Protected,
}

#[verifier::ext_equal]
pub enum RefusalModel {
    Relative,
    Vanished,
    Symlink,
    Shallow,
    OutsideUserSpace,
    Home,
    Container(Seq<char>),
    Protected,
}

impl View for Refusal {
    type V = RefusalModel;

    open spec fn view(&self) -> RefusalModel {
        match *self {
            Refusal::Relative => RefusalModel::Relative,
            Refusal::Vanished => RefusalModel::Vanished,
            Refusal::Symlink => RefusalModel::Symlink,
            Refusal::Shallow => RefusalModel::Shallow,
            Refusal::OutsideUserSpace => RefusalModel::OutsideUserSpace,
            Refusal::Home => RefusalModel::Home,
            Refusal::Container(c) => RefusalModel::Container(c@),
            Refusal::Protected => RefusalModel::Protected,
        }
    }
}

/// What is said of a path that is not deleted.
pub open spec fn refusal_text(r: RefusalModel) -> Seq<char> {
    match r {
        RefusalModel::Relative => "refusing relative path"@,
        RefusalModel::Vanished => "path vanished"@,
        RefusalModel::Symlink => "refusing symlink"@,
        RefusalModel::Shallow => "refusing shallow path (depth < 4)"@,
        RefusalModel::OutsideUserSpace => "outside user space"@,
        RefusalModel::Home => "refusing $HOME itself"@,
        RefusalModel::Container(c) => "refusing container directory "@ + c,
        RefusalModel::Protected => "protected by rules/config"@,
    }
}

impl Refusal {
    /// What is said of a path that is not deleted.
    pub fn message(&self) -> (r: String)
        ensures
            r@ == refusal_text(self@),
    {
        match self {
            Refusal::Relative => "refusing relative path".to_owned(),
            Refusal::Vanished => "path vanished".to_owned(),
            Refusal::Symlink => "refusing symlink".to_owned(),
            Refusal::Shallow => "refusing shallow path (depth < 4)".to_owned(),
            Refusal::OutsideUserSpace => "outside user space".to_owned(),
            Refusal::Home => "refusing $HOME itself".to_owned(),
            Refusal::Container(c) => "refusing container directory ".to_owned().concat(c.as_str()),
            Refusal::Protected => "protected by rules/config".to_owned(),
        }
    }
}

/// What stands at a path, links not followed.
#[derive(Debug, Clone, Copy, PartialEq, Eq, Structural)]
pub enum PathKind {
    Absent,
    Symlink,
    Other,
}

/// The well-known directories of a home directory that are never deleted
/// themselves (their children may be).
pub open spec fn containers() -> Seq<Seq<char>> {
    seq![
        "Library"@,
        "Library/Caches"@,
        "Library/Logs"@,
        "Library/Application Support"@,
        "Library/Containers"@,
        "Library/Group Containers"@,
        "Library/Developer"@,
        "Library/Preferences"@,
        "Documents"@,
        "Desktop"@,
        "Downloads"@,
        "Pictures"@,
        "Movies"@,
        "Music"@,
    ]
}

fn container_names() -> (r: Vec<String>)
    ensures
        views(r@) == containers(),
{
    let mut r: Vec<String> = Vec::new();
    r.push("Library".to_owned());
    r.push("Library/Caches".to_owned());
    r.push("Library/Logs".to_owned());
    r.push("Library/Application Support".to_owned());
    r.push("Library/Containers".to_owned());
    r.push("Library/Group Containers".to_owned());
    r.push("Library/Developer".to_owned());
    r.push("Library/Preferences".to_owned());
    r.push("Documents".to_owned());
    r.push("Desktop".to_owned());
    r.push("Downloads".to_owned());
    r.push("Pictures".to_owned());
    r.push("Movies".to_owned());
    r.push("Music".to_owned());
    assert(views(r@) =~= containers());
    r
}

/// The container that a path is.
pub open spec fn if_container(path: Seq<char>, home: Seq<char>) -> spec_fn(Seq<char>) -> Option<
Seq<char>,
> {
    |c: Seq<char>|
    if equal_paths(path, below(home, c)) {
        Some(c)
    } else {
        None
    }
}

/// Whether a path lies where a user keeps data.
pub open spec fn in_user_space(path: Seq<char>, home: Seq<char>) -> bool {
    under(path, home) || under(path, "/tmp"@) || under(path, "/private/tmp"@) || under(
        path,
        "/private/var/folders"@,
    )
}

/// Why a path is not deleted, where it is not.
pub open spec fn refused(path: Seq<char>, kind: PathKind, engine: Engine, home: Seq<char>) -> Option<
RefusalModel,
> {
    if !absolute(path) {
        Some(RefusalModel::Relative)
    } else if kind == PathKind::Absent {
        Some(RefusalModel::Vanished)
    } else if kind == PathKind::Symlink {
        Some(RefusalModel::Symlink)
    } else if component_count(path) < 4 {
        Some(RefusalModel::Shallow)
    } else if !in_user_space(path, home) {
        Some(RefusalModel::OutsideUserSpace)
    } else if equal_paths(path, home) {
        Some(RefusalModel::Home)
    } else if find_some(containers(), if_container(path, home)) is Some {
        Some(RefusalModel::Container(find_some(containers(), if_container(path, home))->0))
    } else if engine.protects(path) {
        Some(RefusalModel::Protected)
    } else {
        None
    }
}

fn find_container(path: &str, home: &str) -> (r: Option<String>)
    ensures
        view_of(r) == find_some(containers(), if_container(path@, home@)),
{
    let names = container_names();
    let ghost all = containers();
    let ghost f = if_container(path@, home@);
    assert(all.skip(0) =~= all);
    let mut i: usize = 0;
    while i < names.len()
        invariant
            i <= names@.len(),
            all == views(names@),
            all == containers(),
            f == if_container(path@, home@),
            find_some(all, f) == find_some(all.skip(i as int), f),
        decreases names@.len() - i,
    {
        proof {
            lemma_find_step(all, i as int, f);
        }
        assert(all[i as int] == names@[i as int]@);
        let full = paths::join(home, names[i].as_str());
        if paths::same_path(path, full.as_str()) {
            return Some(names[i].clone());
        }
        i += 1;
    }
    proof {
        lemma_find_none(all.skip(i as int), f);
    }
    None
}

/// The single validation funnel. Every deletion passes through here; rules never
/// get to bypass it. `kind` is what stands at the path.
pub fn validate_for_deletion(path: &str, kind: PathKind, engine: &Engine, home: &str) -> (r: Result<
    (),
    Refusal,
    >)
    ensures
        match refused(path@, kind, *engine, home@) {
            Some(m) => r matches Err(e) && e@ == m,
            None => r is Ok,
        },
{
    if !paths::is_absolute(path) {
        return Err(Refusal::Relative);
    }
    match kind {
        PathKind::Absent => {
            return Err(Refusal::Vanished);
        },
        PathKind::Symlink => {
            return Err(Refusal::Symlink);
        },
        PathKind::Other => {},
    }
    if paths::fewer_components(path, 4) {
        return Err(Refusal::Shallow);
    }
    let allowed = paths::starts_with(path, home) || paths::starts_with(path, "/tmp")
        || paths::starts_with(path, "/private/tmp") || paths::starts_with(path, "/private/var/folders");
    if !allowed {
        return Err(Refusal::OutsideUserSpace);
    }
    if paths::same_path(path, home) {
        return Err(Refusal::Home);
    }
    if let Some(c) = find_container(path, home) {
        return Err(Refusal::Container(c));
    }
    if engine.is_protected(path) {
        return Err(Refusal::Protected);
    }
    Ok(())
}

// ---- execution ----

/// How a plan is carried out.
pub struct ExecOptions {
    pub permanently: bool,
}

/// Whether a finding may be acted on at all.
pub open spec fn actionable(f: FindingModel) -> bool {
    !f.report_only && f.safety != Safety::Protected
}

/// The paths that are deleted for a finding: its members, or else its own path;
/// none for what is protected or only reported.
pub open spec fn targets(f: FindingModel) -> Seq<Seq<char>> {
    if !actionable(f) {
        Seq::empty()
    } else if f.member_paths.len() == 0 {
        seq![f.path]
    } else {
        f.member_paths
    }
}

/// The paths that are deleted for a finding.
pub fn deletion_targets(f: &Finding) -> (r: Vec<String>)
    ensures
        views(r@) == targets(f@),
{
    assert(f@.member_paths.len() == f.member_paths@.len());
    if f.report_only || f.safety == Safety::Protected {
        let r: Vec<String> = Vec::new();
        assert(views(r@) =~= Seq::<Seq<char>>::empty());
        r
    } else if f.member_paths.len() == 0 {
        text::texts1(f.path.as_str())
    } else {
        text::copy_texts(&f.member_paths)
    }
}

/// What came of an attempt to delete a path: some deletions report an error and
/// still remove the file, so that a path that is gone counts as deleted.
pub fn settle(error: Option<String>, gone: bool) -> (r: Option<String>)
    ensures
        r == if gone {
            None
        } else {
            error
        },
{
    if gone {
        None
    } else {
        error
    }
}

/// What carrying out a plan came to.
pub struct ExecSummary {
    pub deleted: u64,
    pub failed: u64,
    pub freed_bytes: u64,
    /// The first errors.
    pub errors: Vec<String>,
}

#[verifier::ext_equal]
pub struct SummaryModel {
    pub deleted: u64,
    pub failed: u64,
    pub freed_bytes: u64,
    pub errors: Seq<Seq<char>>,
}

impl View for ExecSummary {
    type V = SummaryModel;

    open spec fn view(&self) -> SummaryModel {
        SummaryModel {
            deleted: self.deleted,
            failed: self.failed,
            freed_bytes: self.freed_bytes,
            errors: views(self.errors@),
        }
    }
}

/// Before anything was done.
pub open spec fn nothing_done() -> SummaryModel {
    SummaryModel { deleted: 0, failed: 0, freed_bytes: 0, errors: Seq::empty() }
}

impl Default for ExecSummary {
    fn default() -> (r: Self)
        ensures
            r@ == nothing_done(),
    {
        let r = ExecSummary { deleted: 0, failed: 0, freed_bytes: 0, errors: Vec::new() };
        assert(r@ =~= nothing_done());
        r
    }
}

/// The most errors that are kept.
pub const ERROR_LIMIT: usize = 20;

/// What it comes to with one more attempt.
pub open spec fn attempted(
    s: SummaryModel,
    target: Seq<char>,
    error: Option<Seq<char>>,
    home: Seq<char>,
) -> SummaryModel {
    match error {
        None => SummaryModel { deleted: capped_sum(s.deleted, 1), ..s },
        Some(e) => SummaryModel {
            failed: capped_sum(s.failed, 1),
            errors: if s.errors.len() < ERROR_LIMIT {
                s.errors.push(shown_path(target, Some(home)) + ": "@ + e)
            } else {
                s.errors
            },
            ..s
        },
    }
}

/// What it comes to with the first `n` attempts for a finding.
pub open spec fn all_attempted(
    s: SummaryModel,
    targets: Seq<Seq<char>>,
    errors: Seq<Option<Seq<char>>>,
    home: Seq<char>,
    n: int,
) -> SummaryModel
    decreases n,
{
    if n <= 0 {
        s
    } else {
        attempted(all_attempted(s, targets, errors, home, n - 1), targets[n - 1], errors[n - 1], home)
    }
}

/// What it comes to with one more finding: its bytes are freed where nothing
/// failed.
pub open spec fn accounted(
    s: SummaryModel,
    targets: Seq<Seq<char>>,
    errors: Seq<Option<Seq<char>>>,
    bytes: u64,
    home: Seq<char>,
) -> SummaryModel {
    let all = all_attempted(s, targets, errors, home, targets.len() as int);
    if forall|i: int| 0 <= i < errors.len() ==> (#[trigger] errors[i]) is None {
        SummaryModel { freed_bytes: capped_sum(all.freed_bytes, bytes), ..all }
    } else {
        all
    }
}

/// Some errors, as text.
pub open spec fn error_texts(errors: Seq<Option<String>>) -> Seq<Option<Seq<char>>> {
    errors.map_values(|e: Option<String>| view_of(e))
}

impl ExecSummary {
    /// Takes note of an attempt.
    pub fn attempt(&mut self, target: &str, error: &Option<String>, home: &str)
        ensures
            final(self)@ == attempted(old(self)@, target@, view_of(*error), home@),
    {
        let ghost before = self@;
        assert(before.errors.len() == self.errors@.len());
        match error {
            None => {
                self.deleted = plus(self.deleted, 1);
            },
            Some(e) => {
                self.failed = plus(self.failed, 1);
                if self.errors.len() < ERROR_LIMIT {
                    let line = display_path(target, Some(home)).concat(": ").concat(e.as_str());
                    self.errors.push(line);
                }
            },
        }
        assert(self@ =~= attempted(before, target@, view_of(*error), home@));
    }

    /// Takes note of what came of a finding: of each path that was to be deleted,
    /// the error, if any.
    pub fn account(&mut self, targets: &Vec<String>, errors: &Vec<Option<String>>, bytes: u64, home: &str)
        requires
            targets@.len() == errors@.len(),
        ensures
            final(self)@ == accounted(
                old(self)@,
                views(targets@),
                error_texts(errors@),
                bytes,
                home@,
            ),
    {
        let ghost start = self@;
        let ghost ts = views(targets@);
        let ghost es = error_texts(errors@);
        let mut clean = true;
        let mut i: usize = 0;
        while i < targets.len()
            invariant
                i <= targets@.len(),
                targets@.len() == errors@.len(),
                ts == views(targets@),
                es == error_texts(errors@),
                self@ == all_attempted(start, ts, es, home@, i as int),
                clean == (forall|j: int| 0 <= j < i ==> (#[trigger] es[j]) is None),
            decreases targets@.len() - i,
        {
            assert(es[i as int] == view_of(errors@[i as int]));
            assert(ts[i as int] == targets@[i as int]@);
            self.attempt(targets[i].as_str(), &errors[i], home);
            if errors[i].is_some() {
                clean = false;
                assert(es[i as int] is Some);
            }
            i += 1;
        }
        if clean {
            self.freed_bytes = plus(self.freed_bytes, bytes);
        }
        assert(self@ =~= accounted(start, ts, es, bytes, home@));
    }
}

// ---- the journal ----

/// One attempt, as the journal records it.
pub struct JournalEntry {
    pub ts: u64,
    pub path: String,
    pub rule_id: String,
    pub provider: Option<String>,
    pub object: Option<String>,
    pub action: Option<String>,
    pub evidence: Vec<Evidence>,
    /// The bytes that the action was expected to free.
    pub bytes: u64,
    /// The bytes that it freed, as reported.
    pub freed_bytes: u64,
    pub mode: String,
    pub result: String,
}

#[verifier::ext_equal]
pub struct JournalModel {
    pub ts: u64,
    pub path: Seq<char>,
    pub rule_id: Seq<char>,
    pub provider: Option<Seq<char>>,
    pub object: Option<Seq<char>>,
    pub action: Option<Seq<char>>,
    pub evidence: Seq<EvidenceModel>,
    pub bytes: u64,
    pub freed_bytes: u64,
    pub mode: Seq<char>,
    pub result: Seq<char>,
}

impl View for JournalEntry {
    type V = JournalModel;

    open spec fn view(&self) -> JournalModel {
        JournalModel {
            ts: self.ts,
            path: self.path@,
            rule_id: self.rule_id@,
            provider: view_of(self.provider),
            object: view_of(self.object),
            action: view_of(self.action),
            evidence: views(self.evidence@),
            bytes: self.bytes,
            freed_bytes: self.freed_bytes,
            mode: self.mode@,
            result: self.result@,
        }
    }
}

/// What the labels of sensitive evidence speak of, in lower case.
pub open spec fn sensitive_words() -> Seq<Seq<char>> {
    seq![
        "token"@,
        "secret"@,
        "password"@,
        "passphrase"@,
        "credential"@,
        "api key"@,
        "private key"@,
    ]
}

/// Whether evidence of a label is not to be written down: the label speaks of
/// something secret, in upper or lower case.
pub open spec fn sensitive(label: Seq<char>) -> bool {
    exists|i: int|
    0 <= i < sensitive_words().len() && text::occurs(
        text::lowered(label),
        #[trigger] sensitive_words()[i],
    )
}

/// What the labels of sensitive evidence speak of, in lower case.
pub fn sensitive_labels() -> (r: Vec<String>)
    ensures
        views(r@) == sensitive_words(),
{
    text::texts7(
        "token",
        "secret",
        "password",
        "passphrase",
        "credential",
        "api key",
        "private key",
    )
}

/// Whether evidence of a label is not to be written down.
pub fn is_sensitive(label: &str) -> (r: bool)
    ensures
        r == sensitive(label@),
{
    let words = sensitive_labels();
    let ghost all = sensitive_words();
    let low = text::to_ascii_lowercase(label);
    let mut i: usize = 0;
    while i < words.len()
        invariant
            i <= words@.len(),
            all == views(words@),
            all == sensitive_words(),
            low@ == text::lowered(label@),
            forall|j: int| 0 <= j < i ==> !text::occurs(low@, #[trigger] all[j]),
        decreases words@.len() - i,
    {
        assert(all[i as int] == words@[i as int]@);
        if text::contains(low.as_str(), words[i].as_str()) {
            return true;
        }
        i += 1;
    }
    false
}

/// A piece of evidence, with its value withheld where its label is sensitive.
pub open spec fn withheld() -> spec_fn(EvidenceModel) -> EvidenceModel {
    |e: EvidenceModel|
    if sensitive(e.label) {
        EvidenceModel { label: e.label, value: "[redacted]"@ }
    } else {
        e
    }
}

fn redact(evidence: &Vec<Evidence>) -> (r: Vec<Evidence>)
    ensures
        views(r@) == views(evidence@).map_values(withheld()),
{
    let ghost all = views(evidence@);
    let ghost f = withheld();
    let mut r: Vec<Evidence> = Vec::new();
    let mut i: usize = 0;
    while i < evidence.len()
        invariant
            i <= evidence@.len(),
            all == views(evidence@),
            f == withheld(),
            views(r@) == all.take(i as int).map_values(f),
        decreases evidence@.len() - i,
    {
        assert(all[i as int] == evidence@[i as int]@);
        let value = if is_sensitive(evidence[i].label.as_str()) {
            "[redacted]".to_owned()
        } else {
            evidence[i].value.clone()
        };
        let e = Evidence { label: evidence[i].label.clone(), value };
        assert(e@ =~= f(all[i as int]));
        r.push(e);
        assert(views(r@) =~= all.take(i + 1).map_values(f));
        i += 1;
    }
    assert(all.take(i as int) =~= all);
    r
}

/// The mode of an attempt on a path.
pub open spec fn mode_of(permanently: bool) -> Seq<char> {
    if permanently {
        "delete"@
    } else {
        "trash"@
    }
}

/// The journal's record of an attempt.
pub open spec fn journal_of(
    ts: u64,
    f: FindingModel,
    path: Seq<char>,
    mode: Seq<char>,
    failed: bool,
    freed: u64,
) -> JournalModel {
    JournalModel {
        ts,
        path,
        rule_id: f.rule_id,
        provider: match f.provider {
            Some(p) => Some(p.id),
            None => None,
        },
        object: match f.native_action {
            Some(a) => Some(a.object_id),
            None => None,
        },
        action: match f.native_action {
            Some(a) => Some(a.action_id),
            None => None,
        },
        evidence: f.evidence.map_values(withheld()),
        bytes: f.bytes,
        freed_bytes: if failed {
            0
        } else {
            freed
        },
        mode,
        result: if failed {
            "error"@
        } else {
            "ok"@
        },
    }
}

/// The journal's record of an attempt.
pub fn journal_entry(
    ts: u64,
    finding: &Finding,
    path: &str,
    mode: &str,
    failed: bool,
    freed: u64,
) -> (r: JournalEntry)
    ensures
        r@ == journal_of(ts, finding@, path@, mode@, failed, freed),
{
    let provider = match &finding.provider {
        Some(p) => Some(p.id.clone()),
        None => None,
    };
    let (object, action) = match &finding.native_action {
        Some(a) => (Some(a.object_id.clone()), Some(a.action_id.clone())),
        None => (None, None),
    };
    let result: &str = if failed {
        "error"
    } else {
        "ok"
    };
    let r = JournalEntry {
        ts,
        path: path.to_owned(),
        rule_id: finding.rule_id.clone(),
        provider,
        object,
        action,
        evidence: redact(&finding.evidence),
        bytes: finding.bytes,
        freed_bytes: if failed {
            0
        } else {
            freed
        },
        mode: mode.to_owned(),
        result: result.to_owned(),
    };
    assert(r@ =~= journal_of(ts, finding@, path@, mode@, failed, freed));
    r
}

/// The mode of an attempt on a path.
pub fn mode_name(permanently: bool) -> (r: &'static str)
    ensures
        r@ == mode_of(permanently),
{
    if permanently {
        "delete"
    } else {
        "trash"
    }
}

/// Where the journal is kept, below the home directory.
pub fn journal_path(home: &str) -> (r: String)
    ensures
        r@ == below(home@, ".local/state/hokori/journal.jsonl"@),
{
    paths::join(home, ".local/state/hokori/journal.jsonl")
}

// ---- laws ----

/// Protected and report-only findings never enter a plan, nor do recent or
/// manual ones unless they were asked for.
pub proof fn law_plans_are_cautious(f: Finding, o: PlanOptions)
    requires
        plannable(f, o),
    ensures
        !f.report_only,
        f.safety != Safety::Protected,
        f.recent ==> o.include_recent,
        f.manual_only ==> views(o.rules@).contains(f.rule_id@),
{
}

/// Without options a plan holds safe findings only.
pub proof fn law_default_plan_is_safe(f: Finding, o: PlanOptions)
    requires
        o.safety == SafetyArg::Safe,
        plannable(f, o),
    ensures
        f.safety == Safety::Safe,
{
}

/// A higher tier includes what a lower one does.
pub proof fn law_tiers_grow(s: Safety)
    ensures
        tier_allows(SafetyArg::Safe, s) ==> tier_allows(SafetyArg::Review, s),
        tier_allows(SafetyArg::Review, s) ==> tier_allows(SafetyArg::Risky, s),
        !tier_allows(SafetyArg::Risky, Safety::Protected),
{
}

/// There is one plan for findings and options.
pub proof fn law_plan_is_unique(findings: Seq<Finding>, o: PlanOptions, a: Seq<usize>, b: Seq<usize>)
    requires
        is_plan(findings, o, a),
        is_plan(findings, o, b),
        findings.len() <= usize::MAX,
    ensures
        a == b,
{
    lemma_plan_prefix(findings, o, a, b);
    lemma_plan_prefix(findings, o, b, a);
    assert(a =~= b);
}

/// As far as both go, two plans are the same, and none goes farther.
proof fn lemma_plan_prefix(findings: Seq<Finding>, o: PlanOptions, a: Seq<usize>, b: Seq<usize>)
    requires
        is_plan(findings, o, a),
        is_plan(findings, o, b),
    ensures
        a.len() <= b.len(),
        forall|i: int| 0 <= i < a.len() ==> a[i] == b[i],
{
    let keys = bytes_of(findings);
    assert forall|i: int| 0 <= i < a.len() implies i < b.len() && #[trigger] a[i] == b[i] by {
        lemma_plan_at(findings, o, a, b, i);
    }
    if a.len() > b.len() {
        assert(a[a.len() - 1] == b[a.len() - 1]);
        lemma_plan_at(findings, o, a, b, a.len() - 1);
    }
}

proof fn lemma_plan_at(
    findings: Seq<Finding>,
    o: PlanOptions,
    a: Seq<usize>,
    b: Seq<usize>,
    i: int,
)
    requires
        is_plan(findings, o, a),
        is_plan(findings, o, b),
        0 <= i < a.len(),
    ensures
        i < b.len(),
        a[i] == b[i],
    decreases i,
{
    let keys = bytes_of(findings);
    assert forall|j: int| 0 <= j < i implies j < b.len() && #[trigger] a[j] == b[j] by {
        lemma_plan_at(findings, o, a, b, j);
    }
    if i > 0 {
        assert(a[i - 1] == b[i - 1]);
    }
    let x = a[i];
    if !b.contains(x) {
        assert(full(o, b.len()));
        assert(b.len() > i);
        let y = b[i];
        assert(ranks_before(keys, y, x));
        if a.contains(y) {
            let k = choose|k: int| 0 <= k < a.len() && a[k] == y;
            if k < i {
                assert(a[k] == b[k]);
                assert(ranks_before(keys, b[k], b[i]));
            } else if k > i {
                assert(ranks_before(keys, a[i], a[k]));
            }
        } else {
            assert(ranks_before(keys, a[i], y));
        }
    } else {
        let m = choose|m: int| 0 <= m < b.len() && b[m] == x;
        if m < i {
            assert(a[m] == b[m]);
            assert(ranks_before(keys, a[m], a[i]));
        } else if m > i {
            let y = b[i];
            assert(ranks_before(keys, b[i], b[m]));
            if a.contains(y) {
                let k = choose|k: int| 0 <= k < a.len() && a[k] == y;
                if k < i {
                    assert(a[k] == b[k]);
                    assert(ranks_before(keys, b[k], b[i]));
                } else if k > i {
                    assert(ranks_before(keys, a[i], a[k]));
                }
            } else {
                assert(ranks_before(keys, a[i], y));
            }
        }
    }
}

/// What passes the funnel is an absolute path, at least four components deep,
/// where a user keeps data, neither the home directory nor one of its well-known
/// directories, no link and not protected.
pub proof fn law_funnel(path: Seq<char>, kind: PathKind, engine: Engine, home: Seq<char>)
    requires
        refused(path, kind, engine, home) is None,
    ensures
        absolute(path),
        kind == PathKind::Other,
        component_count(path) >= 4,
        in_user_space(path, home),
        !equal_paths(path, home),
        !engine.protects(path),
        forall|i: int|
        0 <= i < containers().len() ==> !equal_paths(path, below(home, #[trigger] containers()[i])),
{
    let f = if_container(path, home);
    assert forall|i: int| 0 <= i < containers().len() implies !equal_paths(
        path,
        below(home, #[trigger] containers()[i]),
    ) by {
        lemma_none_found(containers(), f, i);
    }
}

proof fn lemma_none_found<A, B>(s: Seq<A>, f: spec_fn(A) -> Option<B>, i: int)
    requires
        find_some(s, f) is None,
        0 <= i < s.len(),
    ensures
        f(s[i]) is None,
    decreases s.len(),
{
    if i > 0 {
        lemma_none_found(s.skip(1), f, i - 1);
        assert(s.skip(1)[i - 1] == s[i]);
    }
}

/// Nothing is deleted for what is protected or only reported.
pub proof fn law_protected_has_no_targets(f: FindingModel)
    requires
        f.report_only || f.safety == Safety::Protected,
    ensures
        targets(f).len() == 0,
{
}

/// Every attempt is counted once, as deleted or as failed, and no more errors
/// are kept than the limit.
pub proof fn law_attempts_are_counted(
    s: SummaryModel,
    target: Seq<char>,
    error: Option<Seq<char>>,
    home: Seq<char>,
)
    requires
        s.deleted < u64::MAX,
        s.failed < u64::MAX,
        s.errors.len() <= ERROR_LIMIT,
    ensures
        attempted(s, target, error, home).deleted + attempted(s, target, error, home).failed == s.deleted
            + s.failed + 1,
        attempted(s, target, error, home).errors.len() <= ERROR_LIMIT,
        attempted(s, target, error, home).freed_bytes == s.freed_bytes,
{
}

/// Where one path of a finding could not be deleted, its bytes do not count as
/// freed.
pub proof fn law_failures_free_nothing(
    s: SummaryModel,
    targets: Seq<Seq<char>>,
    errors: Seq<Option<Seq<char>>>,
    bytes: u64,
    home: Seq<char>,
    i: int,
)
    requires
        targets.len() == errors.len(),
        0 <= i < errors.len(),
        errors[i] is Some,
    ensures
        accounted(s, targets, errors, bytes, home).freed_bytes == s.freed_bytes,
{
    lemma_attempts_free_nothing(s, targets, errors, home, targets.len() as int);
}

proof fn lemma_attempts_free_nothing(
    s: SummaryModel,
    targets: Seq<Seq<char>>,
    errors: Seq<Option<Seq<char>>>,
    home: Seq<char>,
    n: int,
)
    ensures
        all_attempted(s, targets, errors, home, n).freed_bytes == s.freed_bytes,
    decreases n,
{
    if n > 0 {
        lemma_attempts_free_nothing(s, targets, errors, home, n - 1);
    }
}

/// The values of sensitive evidence are not written down, and all other evidence
/// is written down as it stands.
pub proof fn law_sensitive_values_are_withheld(
    ts: u64,
    f: FindingModel,
    path: Seq<char>,
    mode: Seq<char>,
    failed: bool,
    freed: u64,
    i: int,
)
    requires
        0 <= i < f.evidence.len(),
    ensures
        journal_of(ts, f, path, mode, failed, freed).evidence.len() == f.evidence.len(),
        journal_of(ts, f, path, mode, failed, freed).evidence[i].label == f.evidence[i].label,
        journal_of(ts, f, path, mode, failed, freed).evidence[i].value == if sensitive(
            f.evidence[i].label,
        ) {
            "[redacted]"@
        } else {
            f.evidence[i].value
        },
{
}

/// What the funnel is for: a path that is absolute, stands there as no link, is at
/// least four components deep, lies below the home directory or a temporary
/// directory, is neither the home directory nor one of its well-known directories
/// and is not protected may be deleted.
pub proof fn law_ordinary_paths_pass(path: Seq<char>, kind: PathKind, engine: Engine, home: Seq<char>)
    requires
        path.len() > 0,
        path[0] == '/',
        kind == PathKind::Other,
        component_count(path) >= 4,
        under(path, home) || under(path, "/tmp"@) || under(path, "/private/tmp"@) || under(
            path,
            "/private/var/folders"@,
        ),
        !equal_paths(path, home),
        forall|i: int|
        0 <= i < containers().len() ==> !equal_paths(path, below(home, #[trigger] containers()[i])),
        !engine.protects(path),
    ensures
        refused(path, kind, engine, home) is None,
{
    lemma_find_none(containers(), if_container(path, home));
}

/// A refusal names what is wrong with the path.
pub proof fn law_refusals_have_their_reason(
    path: Seq<char>,
    kind: PathKind,
    engine: Engine,
    home: Seq<char>,
)
    ensures
        match refused(path, kind, engine, home) {
            None => true,
            Some(RefusalModel::Relative) => path.len() == 0 || path[0] != '/',
            Some(RefusalModel::Vanished) => kind == PathKind::Absent,
            Some(RefusalModel::Symlink) => kind == PathKind::Symlink,
            Some(RefusalModel::Shallow) => component_count(path) < 4,
            Some(RefusalModel::OutsideUserSpace) => !under(path, home) && !under(path, "/tmp"@)
                && !under(path, "/private/tmp"@) && !under(path, "/private/var/folders"@),
            Some(RefusalModel::Home) => equal_paths(path, home),
            Some(RefusalModel::Container(c)) => containers().contains(c) && equal_paths(
                path,
                below(home, c),
            ),
            Some(RefusalModel::Protected) => engine.protects(path),
        },
{
    law_found_is_made(containers(), if_container(path, home));
}

/// The well-known directories of a home directory.
pub open spec fn is_well_known(name: Seq<char>) -> bool {
    ||| name == "Library"@
    ||| name == "Library/Caches"@
    ||| name == "Library/Logs"@
    ||| name == "Library/Application Support"@
    ||| name == "Library/Containers"@
    ||| name == "Library/Group Containers"@
    ||| name == "Library/Developer"@
    ||| name == "Library/Preferences"@
    ||| name == "Documents"@
    ||| name == "Desktop"@
    ||| name == "Downloads"@
    ||| name == "Pictures"@
    ||| name == "Movies"@
    ||| name == "Music"@
}

/// No well-known directory of the home directory passes the funnel, and no other
/// directory is taken for one.
pub proof fn law_well_known_directories_stay(
    path: Seq<char>,
    name: Seq<char>,
    kind: PathKind,
    engine: Engine,
    home: Seq<char>,
)
    ensures
        is_well_known(name) && equal_paths(path, below(home, name)) ==> refused(path, kind, engine, home) is Some,
        containers().contains(name) ==> is_well_known(name),
{
    if is_well_known(name) && equal_paths(path, below(home, name)) {
        let c = containers();
        assert(c[0] == "Library"@ && c[1] == "Library/Caches"@ && c[2] == "Library/Logs"@ && c[3]
            == "Library/Application Support"@ && c[4] == "Library/Containers"@ && c[5]
            == "Library/Group Containers"@ && c[6] == "Library/Developer"@ && c[7]
            == "Library/Preferences"@ && c[8] == "Documents"@ && c[9] == "Desktop"@ && c[10]
            == "Downloads"@ && c[11] == "Pictures"@ && c[12] == "Movies"@ && c[13] == "Music"@);
        let i = choose|i: int| 0 <= i < c.len() && #[trigger] c[i] == name;
        law_found_is_made(c, if_container(path, home));
        assert(if_container(path, home)(c[i]) is Some);
    }
}

/// A plan holds every finding that nothing keeps out of it: one that is not only
/// reported, of an allowed tier, not recent, not for the user's own hand, of the
/// categories and rules that were asked for, and old enough.
pub proof fn law_plans_take_what_is_allowed(findings: Seq<Finding>, o: PlanOptions, p: Seq<usize>, k: usize)
    requires
        is_plan(findings, o, p),
        o.limit is None,
        k < findings.len(),
        !findings[k as int].report_only,
        !findings[k as int].manual_only || views(o.rules@).contains(findings[k as int].rule_id@),
        !findings[k as int].recent || o.include_recent,
        findings[k as int].safety == Safety::Safe || (findings[k as int].safety == Safety::Review
            && o.safety != SafetyArg::Safe) || (findings[k as int].safety == Safety::Risky && o.safety
            == SafetyArg::Risky),
        o.categories@.len() == 0 || views(o.categories@).contains(findings[k as int].category@),
        o.rules@.len() == 0 || views(o.rules@).contains(findings[k as int].rule_id@),
        o.min_age_days is None || findings[k as int].age_days is None || findings[k as int].age_days->0
            >= o.min_age_days->0,
    ensures
        p.contains(k),
{
}

/// What a plan holds was asked for: by category, by rule and by age; of a tier no
/// higher than the one that was named; and nothing that is only reported.
pub proof fn law_plans_take_nothing_else(findings: Seq<Finding>, o: PlanOptions, p: Seq<usize>, i: int)
    requires
        is_plan(findings, o, p),
        0 <= i < p.len(),
    ensures
        p[i] < findings.len(),
        ({
            let f = findings[p[i] as int];
            &&& !f.report_only
            &&& f.safety != Safety::Protected
            &&& f.safety == Safety::Risky ==> o.safety == SafetyArg::Risky
            &&& f.safety == Safety::Review ==> o.safety != SafetyArg::Safe
            &&& f.recent ==> o.include_recent
            &&& f.manual_only ==> views(o.rules@).contains(f.rule_id@)
            &&& o.categories@.len() > 0 ==> views(o.categories@).contains(f.category@)
            &&& o.rules@.len() > 0 ==> views(o.rules@).contains(f.rule_id@)
            &&& o.min_age_days is Some && f.age_days is Some ==> f.age_days->0 >= o.min_age_days->0
        }),
{
}

/// A plan is in the order of size, holds nothing twice and no more than its limit;
/// what the limit keeps out is no larger than what it holds.
pub proof fn law_plans_take_the_largest(findings: Seq<Finding>, o: PlanOptions, p: Seq<usize>)
    requires
        is_plan(findings, o, p),
    ensures
        forall|i: int, j: int|
        #![trigger p[i], p[j]]
        0 <= i < j < p.len() ==> findings[p[i] as int].bytes >= findings[p[j] as int].bytes && p[i] != p[j],
        o.limit is Some ==> p.len() <= o.limit->0,
        forall|k: usize, i: int|
        #![trigger p.contains(k), p[i]]
        k < findings.len() && plannable(findings[k as int], o) && !p.contains(k) && 0 <= i < p.len()
            ==> o.limit is Some && p.len() == o.limit->0 && findings[p[i] as int].bytes
            >= findings[k as int].bytes,
{
    let keys = bytes_of(findings);
    assert forall|i: int, j: int|
    #![trigger p[i], p[j]]
    0 <= i < j < p.len() implies findings[p[i] as int].bytes >= findings[p[j] as int].bytes && p[i]
        != p[j] by {
        assert(ranks_before(keys, p[i], p[j]));
        assert(p[i] < findings.len() && p[j] < findings.len());
        assert(keys[p[i] as int] == findings[p[i] as int].bytes && keys[p[j] as int] == findings[p[j] as int].bytes);
    }
    assert forall|k: usize, i: int|
    #![trigger p.contains(k), p[i]]
    k < findings.len() && plannable(findings[k as int], o) && !p.contains(k) && 0 <= i < p.len()
        implies o.limit is Some && p.len() == o.limit->0 && findings[p[i] as int].bytes
        >= findings[k as int].bytes by {
        assert(full(o, p.len()));
        assert(ranks_before(keys, p[i], k));
        assert(p[i] < findings.len());
        assert(keys[p[i] as int] == findings[p[i] as int].bytes && keys[k as int] == findings[k as int].bytes);
    }
}

/// The bytes of two lists of items are those of each together, and the bytes of
/// one item are its own.
pub proof fn law_totals_add(a: Seq<&Finding>, b: Seq<&Finding>, f: &Finding)
    ensures
        item_sum(a + b) == item_sum(a) + item_sum(b),
        item_sum(seq![f]) == f.bytes,
    decreases b.len(),
{
    reveal_with_fuel(item_sum, 2);
    assert(seq![f].drop_last() =~= Seq::<&Finding>::empty());
    assert(seq![f].last() == f);
    if b.len() == 0 {
        assert(a + b =~= a);
    } else {
        law_totals_add(a, b.drop_last(), f);
        assert((a + b).drop_last() =~= a + b.drop_last());
        assert((a + b).last() == b.last());
    }
}

/// What is deleted for a finding that may be acted on: its members where it has
/// any, or else its own path.
pub proof fn law_findings_have_targets(f: FindingModel)
    requires
        !f.report_only,
        f.safety != Safety::Protected,
    ensures
        targets(f).len() > 0,
        f.member_paths.len() > 0 ==> targets(f) == f.member_paths,
        f.member_paths.len() == 0 ==> targets(f).len() == 1 && targets(f)[0] == f.path,
{
}

/// Where every path of a finding was deleted, its bytes count as freed, and each
/// path as deleted.
pub proof fn law_success_frees_the_bytes(
    s: SummaryModel,
    targets: Seq<Seq<char>>,
    errors: Seq<Option<Seq<char>>>,
    bytes: u64,
    home: Seq<char>,
)
    requires
        targets.len() == errors.len(),
        forall|i: int| 0 <= i < errors.len() ==> (#[trigger] errors[i]) is None,
        s.deleted + targets.len() <= u64::MAX,
        s.freed_bytes + bytes <= u64::MAX,
    ensures
        accounted(s, targets, errors, bytes, home).freed_bytes == s.freed_bytes + bytes,
        accounted(s, targets, errors, bytes, home).deleted == s.deleted + targets.len(),
        accounted(s, targets, errors, bytes, home).failed == s.failed,
        accounted(s, targets, errors, bytes, home).errors == s.errors,
{
    lemma_all_deleted(s, targets, errors, home, targets.len() as int);
}

proof fn lemma_all_deleted(
    s: SummaryModel,
    targets: Seq<Seq<char>>,
    errors: Seq<Option<Seq<char>>>,
    home: Seq<char>,
    n: int,
)
    requires
        0 <= n <= targets.len(),
        targets.len() == errors.len(),
        forall|i: int| 0 <= i < errors.len() ==> (#[trigger] errors[i]) is None,
        s.deleted + targets.len() <= u64::MAX,
    ensures
        all_attempted(s, targets, errors, home, n).deleted == s.deleted + n,
        all_attempted(s, targets, errors, home, n).failed == s.failed,
        all_attempted(s, targets, errors, home, n).errors == s.errors,
        all_attempted(s, targets, errors, home, n).freed_bytes == s.freed_bytes,
    decreases n,
{
    if n > 0 {
        lemma_all_deleted(s, targets, errors, home, n - 1);
        assert(errors[n - 1] is None);
    }
}

/// An attempt that failed is counted as failed and told, as far as there is room.
pub proof fn law_failures_are_told(s: SummaryModel, target: Seq<char>, error: Seq<char>, home: Seq<char>)
    requires
        s.failed < u64::MAX,
        s.errors.len() < 20,
    ensures
        attempted(s, target, Some(error), home).failed == s.failed + 1,
        attempted(s, target, Some(error), home).deleted == s.deleted,
        attempted(s, target, Some(error), home).errors.len() == s.errors.len() + 1,
        text::ends(attempted(s, target, Some(error), home).errors.last(), error),
{
    let line = shown_path(target, Some(home)) + ": "@ + error;
    assert(line.subrange(line.len() - error.len(), line.len() as int) =~= error);
}

/// The journal tells what was tried: the path, the rule, the bytes that were
/// expected, whether it worked, and what was freed.
pub proof fn law_journal_tells_what_was_tried(
    ts: u64,
    f: FindingModel,
    path: Seq<char>,
    mode: Seq<char>,
    failed: bool,
    freed: u64,
)
    ensures
        ({
            let e = journal_of(ts, f, path, mode, failed, freed);
            &&& e.ts == ts
            &&& e.path == path
            &&& e.mode == mode
            &&& e.rule_id == f.rule_id
            &&& e.bytes == f.bytes
            &&& e.result == if failed { "error"@ } else { "ok"@ }
            &&& e.freed_bytes == if failed { 0 } else { freed }
            &&& f.provider matches Some(p) ==> e.provider == Some(p.id)
            &&& f.native_action matches Some(a) ==> e.object == Some(a.object_id) && e.action == Some(a.action_id)
        }),
        mode_of(true) == "delete"@,
        mode_of(false) == "trash"@,
{
}

proof fn lemma_freed_is_kept(
    s: SummaryModel,
    targets: Seq<Seq<char>>,
    errors: Seq<Option<Seq<char>>>,
    home: Seq<char>,
    n: int,
)
    ensures
        all_attempted(s, targets, errors, home, n).freed_bytes == s.freed_bytes,
    decreases n,
{
    if n > 0 {
        lemma_freed_is_kept(s, targets, errors, home, n - 1);
    }
}

/// Where one path of a finding failed, nothing of it counts as freed.
pub proof fn law_a_failure_frees_nothing(
    s: SummaryModel,
    targets: Seq<Seq<char>>,
    errors: Seq<Option<Seq<char>>>,
    bytes: u64,
    home: Seq<char>,
    i: int,
)
    requires
        0 <= i < errors.len(),
        errors[i] is Some,
    ensures
        accounted(s, targets, errors, bytes, home).freed_bytes == s.freed_bytes,
{
    lemma_freed_is_kept(s, targets, errors, home, targets.len() as int);
}

} // verus!
