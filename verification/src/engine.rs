//! What the scans say of what they find, and the targeted scan: the anchored
//! roots of the rules are expanded and sized directly, so that nothing is walked
//! that is not already known.

use crate::compiler::{CompiledRule, Engine};
use crate::globs;
use crate::globs::{any_hit, is_glob, set_builds};
use crate::paths;
use crate::paths::{below, equal_paths};
use crate::providers::ProviderStatus;
use crate::report::{
    Confidence, Finding, FindingModel, FindingSize, FindingState, FindingTarget, TargetModel,
    whole_size,
};
use crate::seqs;
use crate::seqs::{
    collect_some, flatten_map, group_views, lemma_collect_step, lemma_flatten_step, paired, view_of,
    views,
};
use crate::taxonomy::{category_info, category_row};
use crate::text;
use crate::text::{lower_case, same};
use crate::walk::SubtreeStats;
use vstd::prelude::*;
use vstd::utf8::encode_utf8;

verus! {

broadcast use group_views;

// ---- delivery ----

/// What a scan tells the interface while it runs.
pub enum ScanEvent {
    Found(Box<Finding>),
    Phase(&'static str),
    ProviderStatus(ProviderStatus),
    Done,
}

/// Where a finding goes.
pub enum Delivery {
    /// It is kept by the scan.
    Keep(Finding),
    /// It is handed on.
    Send(ScanEvent),
}

/// Batch mode keeps the finding; streaming mode transfers it to the queue of
/// the interface, so that the scan never retains a copy.
pub fn deliver(finding: Finding, streaming: bool) -> (r: Delivery)
    ensures
        match r {
            Delivery::Keep(f) => !streaming && f == finding,
            Delivery::Send(ScanEvent::Found(f)) => streaming && *f == finding,
            _ => false,
        },
{
    if streaming {
        Delivery::Send(ScanEvent::Found(Box::new(finding)))
    } else {
        Delivery::Keep(finding)
    }
}

/// Whether a scan is cancelled once an event was sent: the interface is gone
/// where it does not take it.
pub fn cancelled_after(cancelled: bool, delivered: bool) -> (r: bool)
    ensures
        r == (cancelled || !delivered),
{
    cancelled || !delivered
}

// ---- findings ----

/// Days between a time and now; unknown without a time.
pub open spec fn days_since(now: i64, mtime: i64) -> Option<u64> {
    if mtime <= 0 {
        None
    } else if now < mtime {
        Some(0)
    } else {
        Some(((now - mtime) / 86_400) as u64)
    }
}

/// Days between a time and now; unknown without a time.
pub fn age_days(now: i64, mtime: i64) -> (r: Option<u64>)
    ensures
        r == days_since(now, mtime),
{
    if mtime <= 0 {
        None
    } else if now < mtime {
        Some(0)
    } else {
        Some(((now - mtime) as u64) / 86_400)
    }
}

/// Whether something is younger than a gate.
pub open spec fn younger(now: i64, mtime: i64, gate: i64) -> bool {
    now - mtime < gate
}

fn is_younger(now: i64, mtime: i64, gate: i64) -> (r: bool)
    ensures
        r == younger(now, mtime, gate),
{
    (now as i128) - (mtime as i128) < gate as i128
}

/// Whether one of some commands mentions one of some names.
pub open spec fn mentioned(names: Seq<Seq<char>>, commands: Seq<Seq<char>>) -> bool {
    exists|i: int, j: int|
    0 <= i < names.len() && 0 <= j < commands.len() && text::occurs(
        #[trigger] commands[j],
        #[trigger] names[i],
    )
}

fn mentions(name: &str, commands: &Vec<String>) -> (r: bool)
    ensures
        r == (exists|j: int|
            0 <= j < commands@.len() && text::occurs(#[trigger] views(commands@)[j], name@)),
{
    let ghost all = views(commands@);
    let mut i: usize = 0;
    while i < commands.len()
        invariant
            i <= commands@.len(),
            all == views(commands@),
            forall|j: int| 0 <= j < i ==> !text::occurs(#[trigger] all[j], name@),
        decreases commands@.len() - i,
    {
        assert(all[i as int] == commands@[i as int]@);
        if text::contains(commands[i].as_str(), name) {
            return true;
        }
        i += 1;
    }
    false
}

fn any_mentioned(names: &Vec<String>, commands: &Vec<String>) -> (r: bool)
    ensures
        r == mentioned(views(names@), views(commands@)),
{
    let ghost ns = views(names@);
    let ghost cs = views(commands@);
    let mut i: usize = 0;
    while i < names.len()
        invariant
            i <= names@.len(),
            ns == views(names@),
            cs == views(commands@),
            forall|k: int, j: int|
            0 <= k < i && 0 <= j < cs.len() ==> !text::occurs(#[trigger] cs[j], #[trigger] ns[k]),
        decreases names@.len() - i,
    {
        assert(ns[i as int] == names@[i as int]@);
        if mentions(names[i].as_str(), commands) {
            proof {
                let j = choose|j: int|
                0 <= j < commands@.len() && text::occurs(#[trigger] cs[j], ns[i as int]);
                assert(text::occurs(cs[j], ns[i as int]));
            }
            return true;
        }
        i += 1;
    }
    false
}

/// Whether a running process uses what a rule finds.
pub open spec fn rule_in_use(rule: CompiledRule, commands: Seq<Seq<char>>) -> bool {
    mentioned(views(rule.process_names_lower@), commands)
}

/// Whether what a rule finds is younger than the rule asks for.
pub open spec fn rule_recent(rule: CompiledRule, mtime: i64, now: i64) -> bool {
    rule.min_age_secs > 0 && mtime > 0 && younger(now, mtime, rule.min_age_secs)
}

/// What is said of something that a rule found.
pub open spec fn rule_finding(
    rule: CompiledRule,
    path: Seq<char>,
    stats: SubtreeStats,
    mtime: i64,
    now: i64,
    commands: Seq<Seq<char>>,
) -> FindingModel {
    let d = rule.def;
    let in_use = rule_in_use(rule, commands);
    let recent = rule_recent(rule, mtime, now);
    FindingModel {
        stable_id: "path:"@ + d.id@ + ":"@ + path,
        rule_id: d.id@,
        category: d.category@,
        section: category_row(d.category@).section,
        subgroup: category_row(d.category@).subgroup,
        safety: d.safety,
        target: TargetModel::Filesystem { path },
        path,
        bytes: stats.bytes,
        size: whole_size(stats.bytes),
        files: stats.files,
        dirs: stats.dirs,
        age_days: days_since(now, mtime),
        recent,
        report_only: d.report_only,
        in_use,
        manual_only: d.manual_only || in_use,
        confidence: Confidence::High,
        state: if in_use {
            FindingState::InUse
        } else if recent {
            FindingState::Recent
        } else {
            FindingState::Candidate
        },
        provider: None,
        reason: Seq::empty(),
        evidence: Seq::empty(),
        native_action: None,
        supersedes: Seq::empty(),
        description: view_of(d.description),
        impact: view_of(d.impact),
        recommendation: view_of(d.recommendation),
        clean_via: views(d.clean_via@),
        member_paths: Seq::empty(),
    }
}

/// Some commands in lower case, in which rules name processes.
pub fn lowered_commands(commands: &Vec<String>) -> (r: Vec<String>)
    ensures
        views(r@) == views(commands@).map_values(|c: Seq<char>| lower_case(c)),
{
    let ghost all = views(commands@);
    let mut out: Vec<String> = Vec::new();
    let mut i: usize = 0;
    while i < commands.len()
        invariant
            i <= commands@.len(),
            all == views(commands@),
            views(out@) == all.take(i as int).map_values(|c: Seq<char>| lower_case(c)),
        decreases commands@.len() - i,
    {
        assert(all[i as int] == commands@[i as int]@);
        out.push(text::to_lowercase(commands[i].as_str()));
        assert(views(out@) =~= all.take(i + 1).map_values(|c: Seq<char>| lower_case(c)));
        i += 1;
    }
    assert(all.take(i as int) =~= all);
    out
}

/// What is said of something that a rule found. `effective_mtime` is the last
/// sign of use, `running_commands` are in lower case.
pub fn make_finding(
    rule: &CompiledRule,
    path: &str,
    stats: SubtreeStats,
    effective_mtime: i64,
    now: i64,
    running_commands: &Vec<String>,
) -> (r: Finding)
    ensures
        r@ == rule_finding(*rule, path@, stats, effective_mtime, now, views(running_commands@)),
{
    let recent = rule.min_age_secs > 0 && effective_mtime > 0 && is_younger(
        now,
        effective_mtime,
        rule.min_age_secs,
    );
    let in_use = any_mentioned(&rule.process_names_lower, running_commands);
    let category = category_info(rule.def.category.as_str());
    let state = if in_use {
        FindingState::InUse
    } else if recent {
        FindingState::Recent
    } else {
        FindingState::Candidate
    };
    let r = Finding {
        stable_id: "path:".to_owned().concat(rule.def.id.as_str()).concat(":").concat(path),
        rule_id: rule.def.id.clone(),
        category: rule.def.category.clone(),
        section: category.section,
        subgroup: category.subgroup,
        safety: rule.def.safety,
        target: FindingTarget::Filesystem { path: path.to_owned() },
        path: path.to_owned(),
        bytes: stats.bytes,
        size: FindingSize::exact_physical(stats.bytes),
        files: stats.files,
        dirs: stats.dirs,
        age_days: age_days(now, effective_mtime),
        recent,
        report_only: rule.def.report_only,
        in_use,
        manual_only: rule.def.manual_only || in_use,
        confidence: Confidence::High,
        state,
        provider: None,
        reason: String::new(),
        evidence: Vec::new(),
        native_action: None,
        supersedes: Vec::new(),
        description: text::copy_opt(&rule.def.description),
        impact: text::copy_opt(&rule.def.impact),
        recommendation: text::copy_opt(&rule.def.recommendation),
        clean_via: text::copy_texts(&rule.def.clean_via),
        member_paths: Vec::new(),
    };
    assert(r@ =~= rule_finding(
            *rule,
            path@,
            stats,
            effective_mtime,
            now,
            views(running_commands@),
    ));
    r
}

// ---- roots ----

/// A part of a root pattern that names something.
pub open spec fn if_step() -> spec_fn(Seq<char>) -> Option<Seq<char>> {
    |p: Seq<char>|
    if p == "."@ || p == ".."@ {
        None
    } else {
        Some(p)
    }
}

/// The parts of a root pattern, from the top down.
pub open spec fn root_steps(pattern: Seq<char>) -> Seq<Seq<char>> {
    collect_some(paths::parts(pattern), if_step())
}

fn step_of(p: &str) -> (r: Option<String>)
    ensures
        view_of(r) == if_step()(p@),
{
    if same(p, ".") || same(p, "..") {
        None
    } else {
        Some(p.to_owned())
    }
}

/// The parts of a root pattern, from the top down. The expansion starts with
/// `/` and takes one part at a time.
pub fn root_parts(pattern: &str) -> (r: Vec<String>)
    ensures
        views(r@) == root_steps(pattern@),
{
    let l = paths::components(pattern);
    let ghost all = views(l@);
    let ghost f = if_step();
    let mut out: Vec<String> = Vec::new();
    let limit: usize = l.len();
    let mut i: usize = 0;
    assert(views(out@) =~= collect_some(all.take(0), f));
    while i < limit
        invariant
            i <= limit <= l@.len(),
            all == views(l@),
            f == if_step(),
            views(out@) == collect_some(all.take(i as int), f),
        decreases limit - i,
    {
        proof {
            lemma_collect_step(all, i as int, f);
        }
        assert(all[i as int] == l@[i as int]@);
        if let Some(x) = step_of(l[i].as_str()) {
            out.push(x);
        }
        i += 1;
    }
    assert(all.take(limit as int) =~= all);
    out
}

/// Whether a part of a pattern is expanded by a listing.
pub fn is_glob_part(part: &str) -> (r: bool)
    ensures
        r == (part@.contains('*') || part@.contains('?') || part@.contains('[')),
{
    text::has_char(part, '*') || text::has_char(part, '?') || text::has_char(part, '[')
}

/// A path with one more part, where it exists.
pub open spec fn if_there(part: Seq<char>) -> spec_fn((Seq<char>, bool)) -> Option<Seq<char>> {
    |x: (Seq<char>, bool)|
    if x.1 {
        Some(below(x.0, part))
    } else {
        None
    }
}

fn there_at(base: &str, there: bool, part: &str) -> (r: Option<String>)
    ensures
        view_of(r) == if_there(part@)((base@, there)),
{
    if there {
        Some(paths::join(base, part))
    } else {
        None
    }
}

/// The paths with one more part; `there` says of each whether it exists.
pub fn literal_level(current: &Vec<String>, there: &Vec<bool>, part: &str) -> (r: Vec<String>)
    ensures
        views(r@) == collect_some(paired(views(current@), there@), if_there(part@)),
{
    let ghost f = if_there(part@);
    let ghost pairs = paired(views(current@), there@);
    let mut out: Vec<String> = Vec::new();

    let n: usize = current.len();
    let limit: usize = if n < there.len() {
        n
    } else {
        there.len()
    };
    let mut i: usize = 0;
    while i < limit
        invariant
            i <= limit,
            limit <= there@.len(),
            limit == pairs.len(),
            limit <= current@.len(),
            pairs == paired(views(current@), there@),
            f == if_there(part@),
            views(out@) == collect_some(pairs.take(i as int), f),
        decreases limit - i,
    {
        proof {
            lemma_collect_step(pairs, i as int, f);
        }
        assert(pairs[i as int] == (current@[i as int]@, there@[i as int]));
        if let Some(x) = there_at(current[i].as_str(), there[i], part) {
            out.push(x);
        }
        i += 1;
    }
    assert(pairs.take(i as int) =~= pairs);
    out
}

/// The names of a listing that a pattern matches, taken from a path.
pub open spec fn names_hit(part: Seq<char>, base: Seq<char>) -> spec_fn(Seq<char>) -> Option<
Seq<char>,
> {
    |name: Seq<char>|
    if globs::hits((part, false, true), name) {
        Some(below(base, name))
    } else {
        None
    }
}

/// What a pattern expands to below a path, with the names that are listed there.
pub open spec fn level_hits(part: Seq<char>) -> spec_fn((Seq<char>, Seq<Seq<char>>)) -> Seq<Seq<char>> {
    |x: (Seq<char>, Seq<Seq<char>>)| collect_some(x.1, names_hit(part, x.0))
}

/// Whether a part of a pattern can be used for matching.
pub open spec fn usable(part: Seq<char>) -> bool {
    is_glob(part, false, true) && set_builds(seq![(part, false, true)])
}

fn name_hit(name: &str, set: &globset::GlobSet, base: &str, Ghost(part): Ghost<Seq<char>>) -> (r: Option<
    String,
    >)
    requires
        globs::held(*set) == seq![(part, false, true)],
    ensures
        view_of(r) == names_hit(part, base@)(name@),
{
    let ghost held = globs::held(*set);
    proof {
        assert(held[0] == (part, false, true));
        if any_hit(held, name@) {
            let i = choose|i: int| 0 <= i < held.len() && globs::hits(#[trigger] held[i], name@);
            assert(held[i] == (part, false, true));
        }
        if globs::hits((part, false, true), name@) {
            assert(globs::hits(held[0], name@));
        }
    }
    if globs::is_match(set, name) {
        Some(paths::join(base, name))
    } else {
        None
    }
}

fn base_hits(
    base: &str,
    names: &Vec<String>,
    set: &globset::GlobSet,
    Ghost(part): Ghost<Seq<char>>,
) -> (r: Vec<String>)
    requires
        globs::held(*set) == seq![(part, false, true)],
    ensures
        views(r@) == level_hits(part)((base@, views(names@))),
{
    let ghost all = views(names@);
    let ghost f = names_hit(part, base@);
    let mut out: Vec<String> = Vec::new();
    let mut i: usize = 0;
    assert(views(out@) =~= collect_some(all.take(0), f));
    while i < names.len()
        invariant
            i <= names@.len(),
            all == views(names@),
            f == names_hit(part, base@),
            globs::held(*set) == seq![(part, false, true)],
            views(out@) == collect_some(all.take(i as int), f),
        decreases names@.len() - i,
    {
        proof {
            lemma_collect_step(all, i as int, f);
        }
        assert(all[i as int] == names@[i as int]@);
        if let Some(x) = name_hit(names[i].as_str(), set, base, Ghost(part)) {
            out.push(x);
        }
        i += 1;
    }
    assert(all.take(i as int) =~= all);
    out
}

/// Lists of names, as text.
pub open spec fn listings_of(s: Seq<Vec<String>>) -> Seq<Seq<Seq<char>>> {
    s.map_values(|v: Vec<String>| views(v@))
}

/// The paths that a pattern expands to, one level down; `listings` are the names
/// below each. Nothing where the pattern cannot be used: the level is then left
/// out.
pub fn glob_level(current: &Vec<String>, part: &str, listings: &Vec<Vec<String>>) -> (r: Option<
    Vec<String>,
    >)
    ensures
        match r {
            Some(v) => usable(part@) && views(v@) == flatten_map(
                paired(views(current@), listings_of(listings@)),
                level_hits(part@),
            ),
            None => !usable(part@),
        },
{
    let set = match globs::name_set(part) {
        Some(s) => s,
        None => {
            return None;
        },
    };
    let ghost all = paired(views(current@), listings_of(listings@));
    let ghost f = level_hits(part@);
    let mut out: Vec<String> = Vec::new();
    let limit: usize = if current.len() < listings.len() {
        current.len()
    } else {
        listings.len()
    };
    let mut i: usize = 0;
    assert(views(out@) =~= flatten_map(all.take(0), f));
    while i < limit
        invariant
            i <= limit,
            limit <= current@.len(),
            limit <= listings@.len(),
            limit == all.len(),
            all == paired(views(current@), listings_of(listings@)),
            f == level_hits(part@),
            globs::held(set) == seq![(part@, false, true)],
            views(out@) == flatten_map(all.take(i as int), f),
        decreases limit - i,
    {
        proof {
            lemma_flatten_step(all, i as int, f);
        }
        assert(all[i as int] == (current@[i as int]@, views(listings@[i as int]@)));
        let mut more = base_hits(current[i].as_str(), &listings[i], &set, Ghost(part@));
        out.append(&mut more);
        i += 1;
    }
    assert(all.take(i as int) =~= all);
    Some(out)
}

/// The most paths from which the expansion goes on.
pub const EXPANSION_LIMIT: usize = 50_000;

/// Whether the expansion of a root goes on: there is something to expand, and
/// not too much of it.
pub fn expansion_goes_on(paths: usize) -> (r: bool)
    ensures
        r == (0 < paths <= EXPANSION_LIMIT),
{
    0 < paths && paths <= EXPANSION_LIMIT
}

// ---- owners ----

/// A path that a root pattern of a rule expanded to.
pub struct RootHit {
    pub rule: usize,
    pub pattern: String,
    pub path: String,
    /// Whether it is a directory itself.
    pub is_dir: bool,
}

#[verifier::ext_equal]
pub struct RootHitModel {
    pub rule: usize,
    pub pattern: Seq<char>,
    pub path: Seq<char>,
    pub is_dir: bool,
}

impl View for RootHit {
    type V = RootHitModel;

    open spec fn view(&self) -> RootHitModel {
        RootHitModel {
            rule: self.rule,
            pattern: self.pattern@,
            path: self.path@,
            is_dir: self.is_dir,
        }
    }
}

/// A path with the rule that it belongs to.
pub struct Owner {
    pub path: String,
    pub rule: usize,
    pub specificity: usize,
}

#[verifier::ext_equal]
pub struct OwnerModel {
    pub path: Seq<char>,
    pub rule: usize,
    pub specificity: usize,
}

impl View for Owner {
    type V = OwnerModel;

    open spec fn view(&self) -> OwnerModel {
        OwnerModel {
            path: self.path@,
            rule: self.rule,
            specificity: self.specificity,
        }
    }
}

/// How specific a pattern is.
pub open spec fn specificity(pattern: Seq<char>) -> usize {
    encode_utf8(pattern).len() as usize
}

/// Whether a path may be claimed for a rule.
pub open spec fn claimable(engine: Engine, h: RootHitModel) -> bool {
    (engine.rules@[h.rule as int].def.directory_only ==> h.is_dir) && !engine.protects(h.path)
}

/// The position of a path among those that have an owner.
pub open spec fn owner_at(owners: Seq<OwnerModel>, path: Seq<char>) -> Option<int>
    decreases owners.len(),
{
    if owners.len() == 0 {
        None
    } else if equal_paths(owners.last().path, path) {
        Some(owners.len() - 1)
    } else {
        owner_at(owners.drop_last(), path)
    }
}

/// The owners once one more path was claimed: the rule with the longer pattern
/// has it, the earlier one of two that are as long.
pub open spec fn claimed_by(owners: Seq<OwnerModel>, h: RootHitModel) -> Seq<OwnerModel> {
    let mine = OwnerModel { path: h.path, rule: h.rule, specificity: specificity(h.pattern) };
    match owner_at(owners, h.path) {
        Some(i) => if owners[i].specificity >= mine.specificity {
            owners
        } else {
            owners.update(i, OwnerModel { path: owners[i].path, ..mine })
        },
        None => owners.push(mine),
    }
}

/// The owners of all paths that may be claimed.
pub open spec fn owners_of(engine: Engine, found: Seq<RootHitModel>) -> Seq<OwnerModel>
    decreases found.len(),
{
    if found.len() == 0 {
        Seq::empty()
    } else {
        let rest = owners_of(engine, found.drop_last());
        if claimable(engine, found.last()) {
            claimed_by(rest, found.last())
        } else {
            rest
        }
    }
}

fn find_owner(owners: &Vec<Owner>, path: &str) -> (r: Option<usize>)
    ensures
        match (r, owner_at(views(owners@), path@)) {
            (Some(i), Some(k)) => i == k && i < owners@.len(),
            (None, None) => true,
            _ => false,
        },
{
    let ghost all = views(owners@);
    let mut n: usize = owners.len();
    assert(all.take(n as int) =~= all);
    while n > 0
        invariant
            n <= owners@.len(),
            all == views(owners@),
            owner_at(all, path@) == owner_at(all.take(n as int), path@),
        decreases n,
    {
        assert(all.take(n as int).drop_last() =~= all.take(n - 1));
        assert(all.take(n as int).last() == owners@[n - 1]@);
        if paths::same_path(owners[n - 1].path.as_str(), path) {
            return Some(n - 1);
        }
        n -= 1;
    }
    None
}

/// The owners of the paths that the roots expanded to. On duplicate paths the
/// rule with the longer (more specific) pattern wins.
pub fn claim_roots(engine: &Engine, found: &Vec<RootHit>) -> (r: Vec<Owner>)
    requires
        forall|i: int| 0 <= i < found@.len() ==> (#[trigger] found@[i]).rule < engine.rules@.len(),
    ensures
        views(r@) == owners_of(*engine, views(found@)),
{
    let ghost all = views(found@);
    let mut owners: Vec<Owner> = Vec::new();
    let mut i: usize = 0;
    assert(views(owners@) =~= owners_of(*engine, all.take(0)));
    while i < found.len()
        invariant
            i <= found@.len(),
            all == views(found@),
            forall|k: int| 0 <= k < found@.len() ==> (#[trigger] found@[k]).rule < engine.rules@.len(),
            views(owners@) == owners_of(*engine, all.take(i as int)),
        decreases found@.len() - i,
    {
        assert(all.take(i + 1).drop_last() =~= all.take(i as int));
        assert(all[i as int] == found@[i as int]@);
        let h = &found[i];
        let ghost before = views(owners@);
        if (!engine.rules[h.rule].def.directory_only || h.is_dir) && !engine.is_protected(
            h.path.as_str(),
        ) {
            let specificity = h.pattern.as_str().len();
            match find_owner(&owners, h.path.as_str()) {
                Some(k) => {
                    assert(before[k as int] == owners@[k as int]@);
                    if owners[k].specificity < specificity {
                        let o = Owner { path: owners[k].path.clone(), rule: h.rule, specificity };
                        let ghost m = o@;
                        owners.set(k, o);
                        assert(views(owners@) =~= before.update(k as int, m));
                    }
                },
                None => {
                    owners.push(Owner { path: h.path.clone(), rule: h.rule, specificity });
                },
            }
        }
        i += 1;
    }
    assert(all.take(i as int) =~= all);
    owners
}

/// The finding for a path that has an owner, where it is large enough for the
/// rule and no link.
pub open spec fn targeted_row(
    rule: CompiledRule,
    path: Seq<char>,
    is_symlink: bool,
    stats: SubtreeStats,
    now: i64,
    commands: Seq<Seq<char>>,
) -> Option<FindingModel> {
    if is_symlink || stats.bytes < rule.min_size_bytes {
        None
    } else {
        Some(rule_finding(rule, path, stats, stats.newest_mtime, now, commands))
    }
}

/// The finding for a path that has an owner. `stats` are those of the subtree
/// without the paths that others own, or those of the file.
pub fn targeted_finding(
    rule: &CompiledRule,
    path: &str,
    is_symlink: bool,
    stats: SubtreeStats,
    now: i64,
    running_commands: &Vec<String>,
) -> (r: Option<Finding>)
    ensures
        view_of(r) == targeted_row(*rule, path@, is_symlink, stats, now, views(running_commands@)),
{
    if is_symlink || stats.bytes < rule.min_size_bytes {
        None
    } else {
        Some(make_finding(rule, path, stats, stats.newest_mtime, now, running_commands))
    }
}

// ---- laws ----

/// What a running process uses is never selected in bulk.
pub proof fn law_in_use_is_manual(
    rule: CompiledRule,
    path: Seq<char>,
    stats: SubtreeStats,
    mtime: i64,
    now: i64,
    commands: Seq<Seq<char>>,
)
    requires
        rule_in_use(rule, commands),
    ensures
        rule_finding(rule, path, stats, mtime, now, commands).in_use,
        rule_finding(rule, path, stats, mtime, now, commands).manual_only,
        rule_finding(rule, path, stats, mtime, now, commands).state == FindingState::InUse,
{
}

/// What is found keeps the safety that its rule gives it, and is reported only
/// where the rule says so.
pub proof fn law_rules_decide_safety(
    rule: CompiledRule,
    path: Seq<char>,
    stats: SubtreeStats,
    mtime: i64,
    now: i64,
    commands: Seq<Seq<char>>,
)
    ensures
        rule_finding(rule, path, stats, mtime, now, commands).safety == rule.def.safety,
        rule_finding(rule, path, stats, mtime, now, commands).report_only == rule.def.report_only,
        rule.def.manual_only ==> rule_finding(rule, path, stats, mtime, now, commands).manual_only,
{
}

/// No path that is protected has an owner, nor has one that is no directory for
/// a rule that asks for directories.
pub proof fn law_protected_roots_have_no_owner(engine: Engine, found: Seq<RootHitModel>, i: int)
    requires
        0 <= i < owners_of(engine, found).len(),
    ensures
        exists|k: int|
        0 <= k < found.len() && claimable(engine, #[trigger] found[k]) && found[k].rule
            == owners_of(engine, found)[i].rule && equal_paths(
            owners_of(engine, found)[i].path,
            found[k].path,
        ),
    decreases found.len(),
{
    let front = found.drop_last();
    let rest = owners_of(engine, front);
    let all = owners_of(engine, found);
    let h = found.last();
    if claimable(engine, h) {
        lemma_owner_at(rest, h.path);
        let own = match owner_at(rest, h.path) {
            Some(j) => rest[j].specificity < specificity(h.pattern) && i == j,
            None => i == rest.len(),
        };
        if own {
            assert(claimable(engine, found[found.len() - 1]));
        } else {
            assert(all[i] == rest[i]);
            law_protected_roots_have_no_owner(engine, front, i);
            let k = choose|k: int|
            0 <= k < front.len() && claimable(engine, #[trigger] front[k]) && front[k].rule
                == rest[i].rule && equal_paths(rest[i].path, front[k].path);
            assert(found[k] == front[k]);
        }
    } else {
        law_protected_roots_have_no_owner(engine, front, i);
        let k = choose|k: int|
        0 <= k < front.len() && claimable(engine, #[trigger] front[k]) && front[k].rule
            == rest[i].rule && equal_paths(rest[i].path, front[k].path);
        assert(found[k] == front[k]);
    }
}

proof fn lemma_owner_at(owners: Seq<OwnerModel>, path: Seq<char>)
    ensures
        match owner_at(owners, path) {
            Some(i) => 0 <= i < owners.len() && equal_paths(owners[i].path, path),
            None => forall|i: int| 0 <= i < owners.len() ==> !equal_paths(#[trigger] owners[i].path, path),
        },
    decreases owners.len(),
{
    if owners.len() > 0 && !equal_paths(owners.last().path, path) {
        lemma_owner_at(owners.drop_last(), path);
        if owner_at(owners, path) is None {
            assert forall|i: int| 0 <= i < owners.len() implies !equal_paths(
                #[trigger] owners[i].path,
                path,
            ) by {
                if i < owners.len() - 1 {
                    assert(owners.drop_last()[i] == owners[i]);
                }
            }
        }
    }
}

/// No path has two owners, and the owner's pattern is at least as long as that of
/// any rule that could have claimed the path.
pub proof fn law_longest_pattern_owns(engine: Engine, found: Seq<RootHitModel>)
    ensures
        forall|i: int, j: int|
        0 <= i < j < owners_of(engine, found).len() ==> !equal_paths(
            #[trigger] owners_of(engine, found)[i].path,
            #[trigger] owners_of(engine, found)[j].path,
        ),
        forall|k: int|
        0 <= k < found.len() && claimable(engine, #[trigger] found[k]) ==> has_owner(
            owners_of(engine, found),
            found[k],
        ),
    decreases found.len(),
{
    let all = owners_of(engine, found);
    if found.len() > 0 {
        let front = found.drop_last();
        let rest = owners_of(engine, front);
        let h = found.last();
        law_longest_pattern_owns(engine, front);
        lemma_owner_at(rest, h.path);
        assert forall|k: int| 0 <= k < found.len() && claimable(
            engine,
            #[trigger] found[k],
        ) implies has_owner(all, found[k]) by {
            if k < front.len() {
                assert(front[k] == found[k]);
                let i = choose|i: int|
                0 <= i < rest.len() && equal_paths((#[trigger] rest[i]).path, found[k].path)
                    && rest[i].specificity >= specificity(found[k].pattern);
                assert(all[i].path == rest[i].path && all[i].specificity >= rest[i].specificity);
            } else {
                match owner_at(rest, h.path) {
                    Some(i) => {
                        assert(equal_paths(all[i].path, h.path));
                    },
                    None => {
                        assert(all[rest.len() as int].path == h.path);
                    },
                }
            }
        }
    }
}

/// Whether a path has an owner whose pattern is at least as long.
pub open spec fn has_owner(owners: Seq<OwnerModel>, h: RootHitModel) -> bool {
    exists|i: int|
    0 <= i < owners.len() && equal_paths((#[trigger] owners[i]).path, h.path)
        && owners[i].specificity >= specificity(h.pattern)
}

/// Where a path is reported, its age is that of the newest file below it, in whole
/// days, and it is recent exactly where the rule has an age gate that the time since
/// that file was written does not reach.
pub proof fn law_targeted_age_is_of_the_newest_file(
    rule: CompiledRule,
    path: Seq<char>,
    is_symlink: bool,
    stats: SubtreeStats,
    now: i64,
    commands: Seq<Seq<char>>,
)
    ensures
        match targeted_row(rule, path, is_symlink, stats, now, commands) {
            Some(f) => {
                &&& f.recent <==> rule.min_age_secs > 0 && stats.newest_mtime > 0 && now
                    - stats.newest_mtime < rule.min_age_secs
                &&& stats.newest_mtime <= 0 ==> f.age_days is None
                &&& stats.newest_mtime > 0 ==> f.age_days is Some
                &&& 0 < stats.newest_mtime <= now ==> f.age_days->0 * 86_400 <= now - stats.newest_mtime
                    < (f.age_days->0 + 1) * 86_400
                &&& stats.newest_mtime > now ==> stats.newest_mtime <= 0 || f.age_days == Some(0u64)
            },
            None => true,
        },
{
}

/// A path is reported exactly where it is no link and holds at least what the rule
/// asks for; what is reported is the path and what stands below it.
pub proof fn law_targeted_paths_are_reported(
    rule: CompiledRule,
    path: Seq<char>,
    is_symlink: bool,
    stats: SubtreeStats,
    now: i64,
    commands: Seq<Seq<char>>,
)
    ensures
        targeted_row(rule, path, is_symlink, stats, now, commands) is Some <==> !is_symlink
            && stats.bytes >= rule.min_size_bytes,
        match targeted_row(rule, path, is_symlink, stats, now, commands) {
            Some(f) => {
                &&& f.path == path
                &&& f.bytes == stats.bytes
                &&& f.files == stats.files
                &&& f.dirs == stats.dirs
                &&& f.rule_id == rule.def.id@
                &&& f.category == rule.def.category@
                &&& f.safety == rule.def.safety
                &&& f.report_only == rule.def.report_only
                &&& f.member_paths.len() == 0
            },
            None => true,
        },
{
}

/// A time that lies later is never older: ages fall as times rise, and rise with
/// the clock.
pub proof fn law_ages_follow_the_clock(now: i64, later: i64, old: i64, new: i64)
    requires
        0 < old <= new,
        now <= later,
    ensures
        days_since(now, old)->0 >= days_since(now, new)->0,
        days_since(later, old)->0 >= days_since(now, old)->0,
        old + 86_400 <= now ==> days_since(now, old)->0 >= 1,
        old <= now < old + 86_400 ==> days_since(now, old) == Some(0u64),
{
}

/// A rule is in use exactly where a running command holds the name of one of its
/// processes.
pub proof fn law_running_rules_are_in_use(
    rule: CompiledRule,
    commands: Seq<Seq<char>>,
    i: int,
    j: int,
    before: Seq<char>,
    after: Seq<char>,
)
    requires
        0 <= i < rule.process_names_lower@.len(),
        0 <= j < commands.len(),
    ensures
        commands[j] == before + rule.process_names_lower@[i]@ + after ==> rule_in_use(rule, commands),
        (forall|a: int, b: int|
            0 <= a < rule.process_names_lower@.len() && 0 <= b < commands.len() ==> !text::occurs(
                #[trigger] commands[b],
                #[trigger] rule.process_names_lower@[a]@,
            )) ==> !rule_in_use(rule, commands),
{
    let name = rule.process_names_lower@[i]@;
    assert(views(rule.process_names_lower@)[i] == name);
    if commands[j] == before + name + after {
        text::law_texts_occur(before, name, after, name);
        assert(text::occurs(commands[j], views(rule.process_names_lower@)[i]));
    }
    if forall|a: int, b: int|
        0 <= a < rule.process_names_lower@.len() && 0 <= b < commands.len() ==> !text::occurs(
            #[trigger] commands[b],
            #[trigger] rule.process_names_lower@[a]@,
        ) {
        assert forall|a: int, b: int|
        0 <= a < rule.process_names_lower@.len() && 0 <= b < commands.len() implies !text::occurs(
            #[trigger] commands[b],
            #[trigger] views(rule.process_names_lower@)[a],
        ) by {
            assert(views(rule.process_names_lower@)[a] == rule.process_names_lower@[a]@);
        }
    }
}

/// The steps of a root are its components, without those that stay or lead up.
pub proof fn law_roots_have_steps(pattern: Seq<char>, x: Seq<char>)
    ensures
        root_steps(pattern).contains(x) <==> paths::parts(pattern).contains(x) && x != "."@ && x != ".."@,
{
    let s = paths::parts(pattern);
    seqs::law_collected_is_made(s, if_step(), x);
    if s.contains(x) && x != "."@ && x != ".."@ {
        let i = choose|i: int| 0 <= i < s.len() && s[i] == x;
        assert(if_step()(s[i]) == Some(x));
    }
    if root_steps(pattern).contains(x) {
        let i = choose|i: int| 0 <= i < s.len() && if_step()(#[trigger] s[i]) == Some(x);
        assert(s[i] == x);
    }
}

/// A pattern of a root leads to exactly the listed names that it hits, each below the
/// directory that was listed; a plain name leads to exactly the places that are there.
pub proof fn law_roots_lead_below(
    part: Seq<char>,
    base: Seq<char>,
    names: Seq<Seq<char>>,
    bases: Seq<(Seq<char>, bool)>,
    x: Seq<char>,
)
    ensures
        level_hits(part)((base, names)).contains(x) <==> exists|i: int|
        0 <= i < names.len() && globs::hits((part, false, true), #[trigger] names[i]) && x == below(
            base,
            names[i],
        ),
        collect_some(bases, if_there(part)).contains(x) <==> exists|i: int|
        0 <= i < bases.len() && (#[trigger] bases[i]).1 && x == below(bases[i].0, part),
{
    seqs::law_collected_is_made(names, names_hit(part, base), x);
    seqs::law_collected_is_made(bases, if_there(part), x);
    let f = names_hit(part, base);
    let g = if_there(part);
    if exists|i: int|
        0 <= i < names.len() && globs::hits((part, false, true), #[trigger] names[i]) && x == below(
            base,
            names[i],
        ) {
        let i = choose|i: int|
        0 <= i < names.len() && globs::hits((part, false, true), #[trigger] names[i]) && x == below(
            base,
            names[i],
        );
        assert(f(names[i]) == Some(x));
    }
    if exists|i: int| 0 <= i < names.len() && f(#[trigger] names[i]) == Some(x) {
        let i = choose|i: int| 0 <= i < names.len() && f(#[trigger] names[i]) == Some(x);
        assert(globs::hits((part, false, true), names[i]) && x == below(base, names[i]));
    }
    if exists|i: int| 0 <= i < bases.len() && (#[trigger] bases[i]).1 && x == below(bases[i].0, part) {
        let i = choose|i: int| 0 <= i < bases.len() && (#[trigger] bases[i]).1 && x == below(bases[i].0, part);
        assert(g(bases[i]) == Some(x));
    }
    if exists|i: int| 0 <= i < bases.len() && g(#[trigger] bases[i]) == Some(x) {
        let i = choose|i: int| 0 <= i < bases.len() && g(#[trigger] bases[i]) == Some(x);
        assert(bases[i].1 && x == below(bases[i].0, part));
    }
}

} // verus!
