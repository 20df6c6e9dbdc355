//! The discovery scan: one walk over user space. Directories are matched by
//! basename and, on a hit, the subtree is claimed: sized, never matched inside.
//! Gitignored directories and tagged caches are claimed by built-in detectors.
//! Files hit exact-name and suffix tables and residual globs, and are reported as
//! one finding per rule.

use crate::compiler::{CompiledRule, Engine, bit_of, pairs};
use crate::engine::{age_days, days_since, make_finding, rule_finding, younger};
use crate::gitignore::{GitIgnoreStack, all_strip, entry_name, ignores, law_entries_strip};
use crate::globs;
use crate::globs::{any_hit, any_name_hit, held, hit_positions, hits};
use crate::paths;
use crate::paths::{below, equal_paths};
use crate::report::{
    Confidence, Finding, FindingModel, FindingSize, FindingState, FindingTarget, TargetModel,
    whole_size,
};
use crate::rules::Safety;
use crate::seqs::{find_some, group_views, lemma_find_none, lemma_find_step, view_of, views};
use crate::sizes::{capped_sum, plus};
use crate::sorting;
use crate::taxonomy::{category_info, category_row};
use crate::text;
use crate::text::{digits, lower_case, same};
use crate::walk::{
    Entry, EntryModel, InodeDedupe, SubtreeStats, after_count, counted, is_listed, later, path_listed,
};
use globset::GlobSet;
use vstd::prelude::*;

verus! {

broadcast use group_views;

// ---- names ----

/// Directory basenames that are never worth descending into, independent of
/// rules. Cloud placeholders would all fault in metadata.
pub open spec fn never_entered(name_lower: Seq<char>) -> bool {
    name_lower == ".git"@ || name_lower == ".trash"@ || name_lower == "mobile documents"@ || name_lower == "cloudstorage"@ || name_lower == ".documentrevisions-v100"@
}

/// Directory basenames that are never worth descending into, independent of
/// rules. Cloud placeholders would all fault in metadata.
pub fn skip_descent(name_lower: &str) -> (r: bool)
    ensures
        r == never_entered(name_lower@),
{
    same(name_lower, ".git") || same(name_lower, ".trash") || same(name_lower, "mobile documents") || same(name_lower, "cloudstorage") || same(name_lower, ".documentrevisions-v100")
}

/// Names that must never be claimed even when gitignored.
pub open spec fn never_claimed(lower: Seq<char>) -> bool {
    lower == ".ssh"@ || lower == ".aws"@ || lower == ".gnupg"@ || lower == ".kube"@ || lower == ".config"@ || lower == ".env"@ || lower == "secrets"@ || lower == ".secrets"@
}

/// Names that must never be claimed even when gitignored.
pub fn protected_basename(lower: &str) -> (r: bool)
    ensures
        r == never_claimed(lower@),
{
    same(lower, ".ssh") || same(lower, ".aws") || same(lower, ".gnupg") || same(lower, ".kube") || same(lower, ".config") || same(lower, ".env") || same(lower, "secrets") || same(lower, ".secrets")
}

/// Files that say which versions of tools a project needs.
pub open spec fn marks_reference(name: Seq<char>) -> bool {
    name == "rust-toolchain.toml"@ || name == "rust-toolchain"@ || name == ".python-version"@ || name == ".nvmrc"@ || name == ".ruby-version"@ || name == ".tool-versions"@ || name == ".sdkmanrc"@ || name == ".fvmrc"@ || name == "fvm_config.json"@
}

/// Files that say which versions of tools a project needs.
pub fn is_reference_marker(name: &str) -> (r: bool)
    ensures
        r == marks_reference(name@),
{
    same(name, "rust-toolchain.toml") || same(name, "rust-toolchain") || same(name, ".python-version") || same(name, ".nvmrc") || same(name, ".ruby-version") || same(name, ".tool-versions") || same(name, ".sdkmanrc") || same(name, ".fvmrc") || same(name, "fvm_config.json")
}

/// What a valid tag begins with.
pub open spec fn tag_signature() -> Seq<char> {
    "Signature: 8a477f597d28d172789f06886806bc55"@
}

/// Whether the contents of a tag are valid; each byte of the signature stands
/// for one character.
pub open spec fn tag_valid(content: Seq<u8>) -> bool {
    &&& content.len() >= tag_signature().len()
    &&& forall|i: int|
    0 <= i < tag_signature().len() ==> content[i] as u32 == (#[trigger] tag_signature()[i]) as u32
}

/// Whether the contents of a tag are valid.
pub fn cachedir_tag_valid(content: &[u8]) -> (r: bool)
    ensures
        r == tag_valid(content@),
{
    let v = text::chars_of("Signature: 8a477f597d28d172789f06886806bc55");
    if content.len() < v.len() {
        return false;
    }
    let mut i: usize = 0;
    while i < v.len()
        invariant
            i <= v@.len(),
            v@.len() <= content@.len(),
            v@ == tag_signature(),
            forall|j: int|
            0 <= j < i ==> content@[j] as u32 == (#[trigger] tag_signature()[j]) as u32,
        decreases v@.len() - i,
    {
        if content[i] as u32 != v[i] as u32 {
            return false;
        }
        i += 1;
    }
    true
}

/// Whether a listing shows a file, or a directory, of a name.
pub open spec fn lists(entries: Seq<EntryModel>, name: Seq<char>, is_dir: bool) -> bool {
    exists|i: int|
    0 <= i < entries.len() && (#[trigger] entries[i]).is_dir == is_dir && entries[i].name == name
}

fn shows(entries: &Vec<Entry>, name: &str, is_dir: bool) -> (r: bool)
    ensures
        r == lists(views(entries@), name@, is_dir),
{
    let ghost all = views(entries@);
    let mut i: usize = 0;
    while i < entries.len()
        invariant
            i <= entries@.len(),
            all == views(entries@),
            forall|j: int| 0 <= j < i ==> !((#[trigger] all[j]).is_dir == is_dir && all[j].name == name@),
        decreases entries@.len() - i,
    {
        assert(all[i as int] == entries@[i as int]@);
        if entries[i].is_dir == is_dir && same(entries[i].name.as_str(), name) {
            return true;
        }
        i += 1;
    }
    false
}

/// Whether a listing is that of the root of a repository, with its data beside it
/// or bare.
pub open spec fn lists_repository(entries: Seq<EntryModel>) -> bool {
    lists(entries, ".git"@, true) || lists(entries, ".git"@, false) || (lists(entries, "HEAD"@, false)
        && lists(entries, "objects"@, true) && lists(entries, "refs"@, true))
}

/// Whether a directory is the root of a repository, with its data beside it or
/// bare.
pub fn is_repo_root(entries: &Vec<Entry>) -> (r: bool)
    ensures
        r == lists_repository(views(entries@)),
{
    shows(entries, ".git", true) || shows(entries, ".git", false) || (shows(entries, "HEAD", false)
        && shows(entries, "objects", true) && shows(entries, "refs", true))
}

// ---- one directory ----

/// A directory that is visited.
pub struct Place<'a> {
    pub engine: &'a Engine,
    pub dir: &'a str,
    pub entries: &'a Vec<Entry>,
    /// The bits of the directory names on the way down.
    pub ancestor_mask: u64,
    /// The ignore rules that apply here.
    pub stack: Option<&'a GitIgnoreStack>,
    /// Targeted roots: already counted, never claimed again.
    pub skip: &'a Vec<String>,
    /// Mounted filesystems below the requested roots.
    pub mounts: &'a Vec<String>,
    pub now: i64,
}

/// What happens to a directory that is met.
pub enum Step {
    /// It is sized for a rule. `activity` is the newest time of the directory
    /// itself and of the siblings that mark it.
    Claim { child: String, rule: usize, activity: i64 },
    /// It is ignored by a repository, and sized.
    Ignored { child: String },
    /// It is visited in turn.
    Descend { child: String, mask: u64 },
}

#[verifier::ext_equal]
pub enum StepModel {
    Claim { child: Seq<char>, rule: usize, activity: i64 },
    Ignored { child: Seq<char> },
    Descend { child: Seq<char>, mask: u64 },
}

impl View for Step {
    type V = StepModel;

    open spec fn view(&self) -> StepModel {
        match *self {
            Step::Claim { child, rule, activity } => StepModel::Claim { child: child@, rule, activity },
            Step::Ignored { child } => StepModel::Ignored { child: child@ },
            Step::Descend { child, mask } => StepModel::Descend { child: child@, mask },
        }
    }
}

/// The names of some entries.
pub open spec fn names_of(entries: Seq<EntryModel>) -> Seq<Seq<char>> {
    entries.map_values(|e: EntryModel| e.name)
}

/// Whether the names of a listing are names of entries.
pub open spec fn names_fit(entries: Seq<EntryModel>) -> bool {
    forall|i: int| 0 <= i < entries.len() ==> entry_name((#[trigger] entries[i]).name)
}

/// Whether the names of a listing are names of entries: not empty, and without a
/// slash.
pub fn valid_names(entries: &Vec<Entry>) -> (r: bool)
    ensures
        r == names_fit(views(entries@)),
{
    let ghost all = views(entries@);
    let mut i: usize = 0;
    while i < entries.len()
        invariant
            i <= entries@.len(),
            all == views(entries@),
            forall|j: int| 0 <= j < i ==> entry_name((#[trigger] all[j]).name),
        decreases entries@.len() - i,
    {
        assert(all[i as int] == entries@[i as int]@);
        let name = entries[i].name.as_str();
        if name.is_empty() || text::has_char(name, '/') {
            assert(!entry_name(all[i as int].name));
            return false;
        }
        i += 1;
    }
    true
}

/// Whether a rule may claim a directory: no excluded ancestor, and a sibling of
/// those that it asks for.
pub open spec fn rule_allows(rule: CompiledRule, mask: u64, siblings: Seq<Seq<char>>) -> bool {
    &&& rule.exclude_mask & mask == 0
    &&& match rule.sibling_any {
        Some(s) => any_name_hit(held(s), siblings),
        None => true,
    }
}

/// Whether one of some globs matches the name of an entry.
fn has_marker(globs: &GlobSet, entries: &Vec<Entry>) -> (r: bool)
    ensures
        r == any_name_hit(held(*globs), names_of(views(entries@))),
{
    let ghost names = names_of(views(entries@));
    let mut i: usize = 0;
    while i < entries.len()
        invariant
            i <= entries@.len(),
            names == names_of(views(entries@)),
            forall|j: int| 0 <= j < i ==> !any_hit(held(*globs), #[trigger] names[j]),
        decreases entries@.len() - i,
    {
        assert(names[i as int] == entries@[i as int].name@);
        if globs::is_match(globs, entries[i].name.as_str()) {
            return true;
        }
        i += 1;
    }
    false
}

fn allows(rule: &CompiledRule, mask: u64, entries: &Vec<Entry>) -> (r: bool)
    ensures
        r == rule_allows(*rule, mask, names_of(views(entries@))),
{
    if rule.exclude_mask & mask != 0 {
        return false;
    }
    match &rule.sibling_any {
        Some(s) => has_marker(s, entries),
        None => true,
    }
}

/// A rule that claims a directory of a name.
pub open spec fn if_claims(
    engine: Engine,
    lower: Seq<char>,
    mask: u64,
    siblings: Seq<Seq<char>>,
) -> spec_fn((Seq<char>, usize)) -> Option<usize> {
    |x: (Seq<char>, usize)|
    if x.0 == lower && rule_allows(engine.rules@[x.1 as int], mask, siblings) {
        Some(x.1)
    } else {
        None
    }
}

/// The rule that claims a directory.
fn claiming_rule(engine: &Engine, lower: &str, mask: u64, entries: &Vec<Entry>) -> (r: Option<usize>)
    requires
        engine.wf(),
    ensures
        r == find_some(pairs(engine.dir_names@), if_claims(*engine, lower@, mask, names_of(views(entries@)))),
{
    let ghost all = pairs(engine.dir_names@);
    let ghost f = if_claims(*engine, lower@, mask, names_of(views(entries@)));
    assert(all.skip(0) =~= all);
    let mut i: usize = 0;
    while i < engine.dir_names.len()
        invariant
            i <= engine.dir_names@.len(),
            all == pairs(engine.dir_names@),
            f == if_claims(*engine, lower@, mask, names_of(views(entries@))),
            engine.wf(),
            find_some(all, f) == find_some(all.skip(i as int), f),
        decreases engine.dir_names@.len() - i,
    {
        proof {
            lemma_find_step(all, i as int, f);
        }
        assert(all[i as int] == (engine.dir_names@[i as int].0@, engine.dir_names@[i as int].1));
        if same(engine.dir_names[i].0.as_str(), lower) && allows(
            &engine.rules[engine.dir_names[i].1],
            mask,
            entries,
        ) {
            return Some(engine.dir_names[i].1);
        }
        i += 1;
    }
    proof {
        lemma_find_none(all.skip(i as int), f);
    }
    None
}

/// The newest time of the siblings that mark a directory for a rule, and of the
/// directory itself.
pub open spec fn activity_of(rule: CompiledRule, entries: Seq<EntryModel>, own: i64) -> i64
    decreases entries.len(),
{
    if entries.len() == 0 {
        own
    } else {
        let rest = activity_of(rule, entries.drop_last(), own);
        let e = entries.last();
        match rule.sibling_any {
            Some(s) => if !e.is_dir && any_hit(held(s), e.name) {
                later(rest, e.mtime)
            } else {
                rest
            },
            None => rest,
        }
    }
}

fn activity(rule: &CompiledRule, entries: &Vec<Entry>, own: i64) -> (r: i64)
    ensures
        r == activity_of(*rule, views(entries@), own),
{
    let ghost all = views(entries@);
    let mut newest: i64 = own;
    let mut i: usize = 0;
    assert(all.take(0) =~= Seq::<EntryModel>::empty());
    while i < entries.len()
        invariant
            i <= entries@.len(),
            all == views(entries@),
            newest == activity_of(*rule, all.take(i as int), own),
        decreases entries@.len() - i,
    {
        assert(all.take(i + 1).drop_last() =~= all.take(i as int));
        assert(all[i as int] == entries@[i as int]@);
        if let Some(s) = &rule.sibling_any {
            if !entries[i].is_dir && globs::is_match(s, entries[i].name.as_str()) {
                assert(any_hit(held(*s), all[i as int].name));
                if entries[i].mtime > newest {
                    newest = entries[i].mtime;
                }
            } else {
                assert(entries@[i as int].is_dir || !any_hit(held(*s), all[i as int].name));
            }
        }
        i += 1;
    }
    assert(all.take(i as int) =~= all);
    newest
}

impl<'a> Place<'a> {
    /// Whether a visit can be made: the engine, the ignore rules and the names
    /// are in order.
    pub open spec fn wf(&self) -> bool {
        &&& self.engine.wf()
        &&& names_fit(views(self.entries@))
        &&& self.stack matches Some(s) ==> s.wf() && all_strip(s@, self.dir@)
    }

    /// Whether the directory lies in space that applications manage: built-in
    /// detectors never claim there.
    pub open spec fn in_app_space(&self) -> bool {
        self.ancestor_mask & bit_of(views(self.engine.ancestor_names@), "library"@) != 0
    }

    /// The rule that claims a directory.
    pub open spec fn claimant(&self, e: EntryModel) -> Option<usize> {
        find_some(
            pairs(self.engine.dir_names@),
            if_claims(
                *self.engine,
                lower_case(e.name),
                self.ancestor_mask,
                names_of(views(self.entries@)),
            ),
        )
    }

    /// Whether a directory is ignored by a repository.
    pub open spec fn is_ignored_here(&self, child: Seq<char>) -> bool {
        self.stack matches Some(s) && ignores(s@, child, true)
    }

    /// Whether a directory is left alone.
    pub open spec fn left_alone(&self, e: EntryModel) -> bool {
        let child = below(self.dir@, e.name);
        ||| never_entered(lower_case(e.name))
        ||| path_listed(child, views(self.skip@))
        ||| path_listed(child, views(self.mounts@))
        ||| self.engine.protects(child)
    }

    /// What happens to a directory that is met.
    pub open spec fn dir_step(&self, e: EntryModel) -> Option<StepModel> {
        let child = below(self.dir@, e.name);
        let lower = lower_case(e.name);
        if self.left_alone(e) {
            None
        } else if self.claimant(e) is Some {
            let rule = self.claimant(e)->0;
            Some(
                StepModel::Claim {
                    child,
                    rule,
                    activity: activity_of(
                        self.engine.rules@[rule as int],
                        views(self.entries@),
                        e.mtime,
                    ),
                },
            )
        } else if self.is_ignored_here(child) && !self.in_app_space() && !never_claimed(lower) {
            Some(StepModel::Ignored { child })
        } else {
            Some(
                StepModel::Descend {
                    child,
                    mask: self.ancestor_mask | bit_of(views(self.engine.ancestor_names@), lower),
                },
            )
        }
    }
}

/// What happens to a directory that is met.
fn directory_step(p: &Place, e: &Entry) -> (r: Option<Step>)
    requires
        p.wf(),
        entry_name(e.name@),
    ensures
        view_of(r) == p.dir_step(e@),
        r matches Some(Step::Claim { child, rule, activity }) ==> rule < p.engine.rules@.len(),
{
    let lower = text::to_lowercase(e.name.as_str());
    let child = paths::join(p.dir, e.name.as_str());
    if skip_descent(lower.as_str()) || is_listed(child.as_str(), p.skip) || is_listed(
        child.as_str(),
        p.mounts,
    ) || p.engine.is_protected(child.as_str()) {
        return None;
    }
    if let Some(rule) = claiming_rule(p.engine, lower.as_str(), p.ancestor_mask, p.entries) {
        proof {
            lemma_claimant_exists(
                *p.engine,
                lower@,
                p.ancestor_mask,
                names_of(views(p.entries@)),
            );
        }
        let activity = activity(&p.engine.rules[rule], p.entries, e.mtime);
        return Some(Step::Claim { child, rule, activity });
    }
    let app_space = p.ancestor_mask & p.engine.ancestor_bit("library") != 0;
    if let Some(s) = p.stack {
        proof {
            assert forall|i: int| 0 <= i < s@.len() implies crate::gitignore::strips(
                child@,
                (#[trigger] s@[i]).root,
            ) by {
                law_entries_strip(p.dir@, e.name@, s@[i].root);
            }
        }
        if !app_space && s.is_ignored(child.as_str(), true) && !protected_basename(lower.as_str()) {
            return Some(Step::Ignored { child });
        }
    }
    let mask = p.ancestor_mask | p.engine.ancestor_bit(lower.as_str());
    Some(Step::Descend { child, mask })
}

proof fn lemma_claimant_exists(engine: Engine, lower: Seq<char>, mask: u64, siblings: Seq<Seq<char>>)
    requires
        engine.wf(),
    ensures
        find_some(pairs(engine.dir_names@), if_claims(engine, lower, mask, siblings)) matches Some(r)
            ==> r < engine.rules@.len() && rule_allows(engine.rules@[r as int], mask, siblings),
{
    let t = pairs(engine.dir_names@);
    let f = if_claims(engine, lower, mask, siblings);
    if find_some(t, f) is Some {
        lemma_found(t, f);
        let i = choose|i: int| 0 <= i < t.len() && f(#[trigger] t[i]) == find_some(t, f);
        assert(t[i].1 == engine.dir_names@[i].1);
    }
}

proof fn lemma_found<A, B>(s: Seq<A>, f: spec_fn(A) -> Option<B>)
    requires
        find_some(s, f) is Some,
    ensures
        exists|i: int| 0 <= i < s.len() && f(#[trigger] s[i]) == find_some(s, f),
    decreases s.len(),
{
    if f(s[0]) is None {
        lemma_found(s.skip(1), f);
        let i = choose|i: int|
        0 <= i < s.skip(1).len() && f(#[trigger] s.skip(1)[i]) == find_some(s.skip(1), f);
        assert(s[i + 1] == s.skip(1)[i]);
    } else {
        assert(f(s[0]) == find_some(s, f));
    }
}

// ---- files ----

/// A rule that counts files of a name.
pub open spec fn if_named_so(lower: Seq<char>) -> spec_fn((Seq<char>, usize)) -> Option<usize> {
    |x: (Seq<char>, usize)|
    if x.0 == lower {
        Some(x.1)
    } else {
        None
    }
}

/// A rule that counts files of a suffix.
pub open spec fn if_ends_so(lower: Seq<char>) -> spec_fn((Seq<char>, usize)) -> Option<usize> {
    |x: (Seq<char>, usize)|
    if text::ends(lower, x.0) {
        Some(x.1)
    } else {
        None
    }
}

/// The first rule for a name.
fn named_rule(t: &Vec<(String, usize)>, lower: &str) -> (r: Option<usize>)
    ensures
        r == find_some(pairs(t@), if_named_so(lower@)),
{
    let ghost all = pairs(t@);
    let ghost f = if_named_so(lower@);
    assert(all.skip(0) =~= all);
    let mut i: usize = 0;
    while i < t.len()
        invariant
            i <= t@.len(),
            all == pairs(t@),
            f == if_named_so(lower@),
            find_some(all, f) == find_some(all.skip(i as int), f),
        decreases t@.len() - i,
    {
        proof {
            lemma_find_step(all, i as int, f);
        }
        assert(all[i as int] == (t@[i as int].0@, t@[i as int].1));
        if same(t[i].0.as_str(), lower) {
            return Some(t[i].1);
        }
        i += 1;
    }
    proof {
        lemma_find_none(all.skip(i as int), f);
    }
    None
}

/// The first rule for a suffix of a name.
fn suffix_rule(t: &Vec<(String, usize)>, lower: &str) -> (r: Option<usize>)
    ensures
        r == find_some(pairs(t@), if_ends_so(lower@)),
{
    let ghost all = pairs(t@);
    let ghost f = if_ends_so(lower@);
    assert(all.skip(0) =~= all);
    let mut i: usize = 0;
    while i < t.len()
        invariant
            i <= t@.len(),
            all == pairs(t@),
            f == if_ends_so(lower@),
            find_some(all, f) == find_some(all.skip(i as int), f),
        decreases t@.len() - i,
    {
        proof {
            lemma_find_step(all, i as int, f);
        }
        assert(all[i as int] == (t@[i as int].0@, t@[i as int].1));
        if text::ends_with(lower, t[i].0.as_str()) {
            return Some(t[i].1);
        }
        i += 1;
    }
    proof {
        lemma_find_none(all.skip(i as int), f);
    }
    None
}

/// The rule of the first path glob that matches.
pub open spec fn glob_rule(engine: Engine, full: Seq<char>) -> Option<usize> {
    let found = hit_positions(held(engine.path_globs), full);
    if found.len() > 0 {
        Some(engine.path_glob_rules@[found[0] as int])
    } else {
        None
    }
}

/// The rule that counts a file: by its exact name, else by a suffix, else by a
/// path glob.
pub open spec fn file_rule(engine: Engine, lower: Seq<char>, full: Seq<char>) -> Option<usize> {
    let named = find_some(pairs(engine.file_names@), if_named_so(lower));
    let ended = find_some(pairs(engine.file_suffixes@), if_ends_so(lower));
    if named is Some {
        named
    } else if ended is Some {
        ended
    } else {
        glob_rule(engine, full)
    }
}

proof fn lemma_positions(globs: Seq<(Seq<char>, bool, bool)>, path: Seq<char>)
    requires
        globs.len() <= usize::MAX,
    ensures
        forall|i: int|
        0 <= i < hit_positions(globs, path).len() ==> (#[trigger] hit_positions(globs, path)[i])
        < globs.len(),
    decreases globs.len(),
{
    if globs.len() > 0 {
        lemma_positions(globs.drop_last(), path);
        let rest = hit_positions(globs.drop_last(), path);
        assert forall|i: int| 0 <= i < hit_positions(globs, path).len() implies (
            #[trigger] hit_positions(globs, path)[i]) < globs.len() by {
            if i < rest.len() {
                assert(hit_positions(globs, path)[i] == rest[i]);
            }
        }
    }
}

/// The rule that counts a file.
fn matching_rule(engine: &Engine, lower: &str, full: &str) -> (r: Option<usize>)
    requires
        engine.wf(),
    ensures
        r == file_rule(*engine, lower@, full@),
        r matches Some(i) ==> i < engine.rules@.len(),
{
    proof {
        let a = pairs(engine.file_names@);
        if find_some(a, if_named_so(lower@)) is Some {
            lemma_found(a, if_named_so(lower@));
            let i = choose|i: int|
            0 <= i < a.len() && if_named_so(lower@)(#[trigger] a[i]) == find_some(
                a,
                if_named_so(lower@),
            );
            assert(a[i].1 == engine.file_names@[i].1);
        }
        let b = pairs(engine.file_suffixes@);
        if find_some(b, if_ends_so(lower@)) is Some {
            lemma_found(b, if_ends_so(lower@));
            let i = choose|i: int|
            0 <= i < b.len() && if_ends_so(lower@)(#[trigger] b[i]) == find_some(
                b,
                if_ends_so(lower@),
            );
            assert(b[i].1 == engine.file_suffixes@[i].1);
        }
    }
    if let Some(i) = named_rule(&engine.file_names, lower) {
        return Some(i);
    }
    if let Some(i) = suffix_rule(&engine.file_suffixes, lower) {
        return Some(i);
    }
    let n: usize = engine.path_glob_rules.len();
    let found = globs::matches(&engine.path_globs, full);
    proof {
        lemma_positions(held(engine.path_globs), full@);
    }
    if found.len() > 0 {
        assert(found@[0] < held(engine.path_globs).len());
        assert(found@[0] < n);
        Some(engine.path_glob_rules[found[0]])
    } else {
        None
    }
}

/// Whether a rule counts a file that it matches: large and old enough, and not
/// protected.
pub open spec fn file_counts(
    engine: Engine,
    rule: CompiledRule,
    full: Seq<char>,
    bytes: u64,
    mtime: i64,
    now: i64,
) -> bool {
    &&& bytes >= rule.min_file_size_bytes
    &&& !engine.protects(full)
    &&& !(rule.min_age_secs > 0 && younger(now, mtime, rule.min_age_secs))
}

/// The most paths that are kept of the files of one rule.
pub const MAX_MEMBER_PATHS: usize = 50_000;

/// The most reference files that are noted.
pub const MAX_REFERENCE_FILES: usize = 20_000;

/// The files of one rule.
pub struct FileAcc {
    pub bytes: u64,
    pub count: u64,
    pub newest_mtime: i64,
    pub truncated: bool,
    pub paths: Vec<String>,
}

#[verifier::ext_equal]
pub struct FileAccModel {
    pub bytes: u64,
    pub count: u64,
    pub newest_mtime: i64,
    pub truncated: bool,
    pub paths: Seq<Seq<char>>,
}

impl View for FileAcc {
    type V = FileAccModel;

    open spec fn view(&self) -> FileAccModel {
        FileAccModel {
            bytes: self.bytes,
            count: self.count,
            newest_mtime: self.newest_mtime,
            truncated: self.truncated,
            paths: views(self.paths@),
        }
    }
}

/// No files.
pub open spec fn no_files() -> FileAccModel {
    FileAccModel { bytes: 0, count: 0, newest_mtime: 0, truncated: false, paths: Seq::empty() }
}

/// The files of a rule with one more.
pub open spec fn with_file(a: FileAccModel, full: Seq<char>, bytes: u64, mtime: i64) -> FileAccModel {
    FileAccModel {
        bytes: a.bytes.wrapping_add(bytes),
        count: a.count.wrapping_add(1),
        newest_mtime: later(a.newest_mtime, mtime),
        truncated: a.truncated || a.paths.len() >= MAX_MEMBER_PATHS,
        paths: if a.paths.len() < MAX_MEMBER_PATHS {
            a.paths.push(full)
        } else {
            a.paths
        },
    }
}

impl FileAcc {
    fn new() -> (r: Self)
        ensures
            r@ == no_files(),
    {
        let r = FileAcc {
            bytes: 0,
            count: 0,
            newest_mtime: 0,
            truncated: false,
            paths: Vec::new(),
        };
        assert(r@ =~= no_files());
        r
    }

    fn add_file(&mut self, full: String, bytes: u64, mtime: i64)
        ensures
            final(self)@ == with_file(old(self)@, full@, bytes, mtime),
    {
        let ghost before = self@;
        assert(before.paths.len() == self.paths@.len());
        self.bytes = self.bytes.wrapping_add(bytes);
        self.count = self.count.wrapping_add(1);
        if mtime > self.newest_mtime {
            self.newest_mtime = mtime;
        }
        if self.paths.len() < MAX_MEMBER_PATHS {
            self.paths.push(full);
        } else {
            self.truncated = true;
        }
        assert(self@ =~= with_file(before, full@, bytes, mtime));
    }
}

/// What the walk has gathered of files.
pub struct Gathered {
    /// For each rule, its files.
    pub accs: Vec<FileAcc>,
    pub reference_files: Vec<String>,
}

impl Gathered {
    /// Nothing yet, for some rules.
    pub fn new(rules: usize) -> (r: Self)
        ensures
            r.accs@.len() == rules,
            forall|i: int| 0 <= i < rules ==> (#[trigger] views(r.accs@)[i]) == no_files(),
            r.reference_files@.len() == 0,
    {
        let mut accs: Vec<FileAcc> = Vec::new();
        let mut i: usize = 0;
        while i < rules
            invariant
                i <= rules,
                accs@.len() == i,
                forall|j: int| 0 <= j < i ==> (#[trigger] views(accs@)[j]) == no_files(),
            decreases rules - i,
        {
            accs.push(FileAcc::new());
            i += 1;
        }
        Gathered { accs, reference_files: Vec::new() }
    }
}

/// A visit, as far as it has come.
#[verifier::ext_equal]
pub struct VisitModel {
    pub steps: Seq<StepModel>,
    pub files: nat,
    /// The bytes of the files, as far as they fit in 64 bits.
    pub bytes: u64,
    pub seen: Seq<Seq<u128>>,
    pub accs: Seq<FileAccModel>,
    pub reference_files: Seq<Seq<char>>,
}

impl<'a> Place<'a> {
    /// The files of the rules once one more file was met.
    pub open spec fn counted_files(
        &self,
        accs: Seq<FileAccModel>,
        e: EntryModel,
        bytes: u64,
    ) -> Seq<FileAccModel> {
        let full = below(self.dir@, e.name);
        match file_rule(*self.engine, lower_case(e.name), full) {
            Some(r) => if file_counts(
                *self.engine,
                self.engine.rules@[r as int],
                full,
                bytes,
                e.mtime,
                self.now,
            ) {
                accs.update(r as int, with_file(accs[r as int], full, bytes, e.mtime))
            } else {
                accs
            },
            None => accs,
        }
    }

    /// A visit once one more entry was met.
    pub open spec fn met(&self, v: VisitModel, e: EntryModel) -> VisitModel {
        if e.is_dir {
            match self.dir_step(e) {
                Some(s) => VisitModel { steps: v.steps.push(s), ..v },
                None => v,
            }
        } else {
            let bytes = counted(v.seen, e.dev, e.ino, e.bytes);
            VisitModel {
                steps: v.steps,
                files: v.files + 1,
                bytes: capped_sum(v.bytes, bytes),
                seen: after_count(v.seen, e.dev, e.ino),
                accs: self.counted_files(v.accs, e, bytes),
                reference_files: if marks_reference(e.name) && v.reference_files.len()
                < MAX_REFERENCE_FILES {
                    v.reference_files.push(below(self.dir@, e.name))
                } else {
                    v.reference_files
                },
            }
        }
    }

    /// A visit once the entries from one place up to another were met.
    pub open spec fn visited(&self, start: VisitModel, from: int, to: int) -> VisitModel
        decreases to - from,
    {
        if to <= from {
            start
        } else {
            self.met(self.visited(start, from, to - 1), views(self.entries@)[to - 1])
        }
    }

    /// Whether an entry is a directory that is sized before the visit goes on.
    pub open spec fn is_sized(&self, e: EntryModel) -> bool {
        e.is_dir && (self.dir_step(e) matches Some(s) && !(s is Descend))
    }

    /// Where a visit from a place on stops: behind the first directory that is
    /// sized, or at the end.
    pub open spec fn stop_after(&self, from: int) -> int
        decreases self.entries@.len() - from,
    {
        if from >= self.entries@.len() {
            self.entries@.len() as int
        } else if self.is_sized(views(self.entries@)[from]) {
            from + 1
        } else {
            self.stop_after(from + 1)
        }
    }
}

/// What comes of a visit: what happens to the directories that were met, and
/// what the files add up to.
pub struct Visit {
    pub steps: Vec<Step>,
    pub files: u64,
    pub bytes: u64,
    /// Where the visit goes on, once the directory of the last step was sized.
    pub next: usize,
}

/// How a visit starts.
pub open spec fn visit_start(
    seen: Seq<Seq<u128>>,
    accs: Seq<FileAccModel>,
    reference_files: Seq<Seq<char>>,
) -> VisitModel {
    VisitModel { steps: Seq::empty(), files: 0, bytes: 0, seen, accs, reference_files }
}

/// Counts a file for the rule that matches it.
fn count_file(p: &Place, e: &Entry, bytes: u64, gathered: &mut Gathered)
    requires
        p.wf(),
        old(gathered).accs@.len() == p.engine.rules@.len(),
    ensures
        views(final(gathered).accs@) == p.counted_files(views(old(gathered).accs@), e@, bytes),
        final(gathered).accs@.len() == old(gathered).accs@.len(),
        final(gathered).reference_files@ == old(gathered).reference_files@,
{
    let ghost before = views(gathered.accs@);
    let lower = text::to_lowercase(e.name.as_str());
    let full = paths::join(p.dir, e.name.as_str());
    if let Some(rule) = matching_rule(p.engine, lower.as_str(), full.as_str()) {
        let c = &p.engine.rules[rule];
        if bytes < c.min_file_size_bytes || p.engine.is_protected(full.as_str()) {
            return;
        }
        let young = c.min_age_secs > 0 && (p.now as i128) - (e.mtime as i128) < c.min_age_secs as i128;
        if young {
            return;
        }
        let ghost name = full@;
        assert(before[rule as int] == gathered.accs@[rule as int]@);
        gathered.accs[rule].add_file(full, bytes, e.mtime);
        assert(views(gathered.accs@) =~= before.update(
                rule as int,
                with_file(before[rule as int], name, bytes, e.mtime),
        ));
    }
}

/// Visits a directory from one of its entries on: decides what happens to each
/// directory in it, and counts its files. A directory that is sized takes its
/// files out of what is counted behind it, so the visit stops there; it goes on
/// at `next`.
pub fn visit_directory(p: &Place, from: usize, dedupe: &mut InodeDedupe, gathered: &mut Gathered) -> (r:
    Visit)
    requires
        p.wf(),
        from <= p.entries@.len(),
        old(dedupe).wf(),
        old(gathered).accs@.len() == p.engine.rules@.len(),
    ensures
        final(dedupe).wf(),
        final(gathered).accs@.len() == p.engine.rules@.len(),
        forall|i: int|
        0 <= i < r.steps@.len() ==> ((#[trigger] r.steps@[i]) matches Step::Claim {
                child,
                rule,
                activity,
            } ==> rule < p.engine.rules@.len()),
        r.next == p.stop_after(from as int),
        r.next <= p.entries@.len(),
        ({
                let end = p.visited(
                    visit_start(
                        old(dedupe)@,
                        views(old(gathered).accs@),
                        views(old(gathered).reference_files@),
                    ),
                    from as int,
                    r.next as int,
                );
                &&& views(r.steps@) == end.steps
                &&& r.files == end.files
                &&& r.bytes == end.bytes
                &&& final(dedupe)@ == end.seen
                &&& views(final(gathered).accs@) == end.accs
                &&& views(final(gathered).reference_files@) == end.reference_files
        }),
{
    let ghost start = visit_start(
        dedupe@,
        views(gathered.accs@),
        views(gathered.reference_files@),
    );
    let ghost all = views(p.entries@);
    let mut steps: Vec<Step> = Vec::new();
    let mut files: u64 = 0;
    let mut bytes: u64 = 0;
    let n: usize = p.entries.len();
    let mut i: usize = from;
    let mut stopped = false;
    assert(views(steps@) =~= start.steps);
    while i < n && !stopped
        invariant
            from <= i <= n,
            n == p.entries@.len(),
            p.wf(),
            all == views(p.entries@),
            dedupe.wf(),
            gathered.accs@.len() == p.engine.rules@.len(),
            forall|k: int|
            0 <= k < steps@.len() ==> ((#[trigger] steps@[k]) matches Step::Claim {
                    child,
                    rule,
                    activity,
                } ==> rule < p.engine.rules@.len()),
            stopped ==> p.stop_after(from as int) == i,
            !stopped ==> p.stop_after(from as int) == p.stop_after(i as int),
            views(steps@) == p.visited(start, from as int, i as int).steps,
            files == p.visited(start, from as int, i as int).files,
            files <= i - from,
            bytes == p.visited(start, from as int, i as int).bytes,
            dedupe@ == p.visited(start, from as int, i as int).seen,
            views(gathered.accs@) == p.visited(start, from as int, i as int).accs,
            views(gathered.reference_files@) == p.visited(start, from as int, i as int).reference_files,
        decreases n - i,
    {
        let ghost v = p.visited(start, from as int, i as int);
        let e = &p.entries[i];
        assert(all[i as int] == e@);
        assert(entry_name(all[i as int].name));
        assert(p.visited(start, from as int, i + 1) == p.met(v, e@));
        if e.is_dir {
            if let Some(s) = directory_step(p, e) {
                stopped = match &s {
                    Step::Descend { .. } => false,
                    _ => true,
                };
                steps.push(s);
            }
        } else {
            let counts = dedupe.dedup(e.dev, e.ino, e.bytes);
            files += 1;
            bytes = plus(bytes, counts);
            assert(views(gathered.reference_files@).len() == gathered.reference_files@.len());
            let noted = is_reference_marker(e.name.as_str()) && gathered.reference_files.len()
            < MAX_REFERENCE_FILES;
            count_file(p, e, counts, gathered);
            if noted {
                gathered.reference_files.push(paths::join(p.dir, e.name.as_str()));
            }
        }
        i += 1;
    }
    Visit { steps, files, bytes, next: i }
}

// ---- findings ----

/// The finding for a directory that a rule claims, where it is large enough.
pub open spec fn claim_row(
    rule: CompiledRule,
    child: Seq<char>,
    stats: SubtreeStats,
    activity: i64,
    now: i64,
    commands: Seq<Seq<char>>,
) -> Option<FindingModel> {
    if stats.bytes < rule.min_size_bytes {
        None
    } else {
        Some(rule_finding(rule, child, stats, later(stats.newest_mtime, activity), now, commands))
    }
}

/// The finding for a directory that a rule claims. Its age is that of the newest
/// of its content, itself and the siblings that mark it.
pub fn claim_finding(
    rule: &CompiledRule,
    child: &str,
    stats: SubtreeStats,
    activity: i64,
    now: i64,
    running_commands: &Vec<String>,
) -> (r: Option<Finding>)
    ensures
        view_of(r) == claim_row(*rule, child@, stats, activity, now, views(running_commands@)),
{
    if stats.bytes < rule.min_size_bytes {
        return None;
    }
    let effective: i64 = if stats.newest_mtime >= activity {
        stats.newest_mtime
    } else {
        activity
    };
    Some(make_finding(rule, child, stats, effective, now, running_commands))
}

/// What built-in detectors say of a directory.
pub struct Wording {
    pub rule_id: &'static str,
    pub category: &'static str,
    pub safety: Safety,
    pub description: &'static str,
    pub impact: &'static str,
    pub recommendation: &'static str,
}

/// What a built-in detector finds: never selected in bulk.
pub open spec fn builtin(w: Wording, path: Seq<char>, stats: SubtreeStats, now: i64) -> FindingModel {
    FindingModel {
        stable_id: "path:"@ + w.rule_id@ + ":"@ + path,
        rule_id: w.rule_id@,
        category: w.category@,
        section: category_row(w.category@).section,
        subgroup: category_row(w.category@).subgroup,
        safety: w.safety,
        target: TargetModel::Filesystem { path },
        path,
        bytes: stats.bytes,
        size: whole_size(stats.bytes),
        files: stats.files,
        dirs: stats.dirs,
        age_days: days_since(now, stats.newest_mtime),
        recent: false,
        report_only: false,
        in_use: false,
        manual_only: true,
        confidence: Confidence::Medium,
        state: FindingState::Candidate,
        provider: None,
        reason: Seq::empty(),
        evidence: Seq::empty(),
        native_action: None,
        supersedes: Seq::empty(),
        description: Some(w.description@),
        impact: Some(w.impact@),
        recommendation: Some(w.recommendation@),
        clean_via: Seq::empty(),
        member_paths: Seq::empty(),
    }
}

fn builtin_finding(w: &Wording, path: &str, stats: SubtreeStats, now: i64) -> (r: Finding)
    ensures
        r@ == builtin(*w, path@, stats, now),
{
    let info = category_info(w.category);
    let r = Finding {
        stable_id: "path:".to_owned().concat(w.rule_id).concat(":").concat(path),
        rule_id: w.rule_id.to_owned(),
        category: w.category.to_owned(),
        section: info.section,
        subgroup: info.subgroup,
        safety: w.safety,
        target: FindingTarget::Filesystem { path: path.to_owned() },
        path: path.to_owned(),
        bytes: stats.bytes,
        size: FindingSize::exact_physical(stats.bytes),
        files: stats.files,
        dirs: stats.dirs,
        age_days: age_days(now, stats.newest_mtime),
        recent: false,
        report_only: false,
        in_use: false,
        manual_only: true,
        confidence: Confidence::Medium,
        state: FindingState::Candidate,
        provider: None,
        reason: String::new(),
        evidence: Vec::new(),
        native_action: None,
        supersedes: Vec::new(),
        description: Some(w.description.to_owned()),
        impact: Some(w.impact.to_owned()),
        recommendation: Some(w.recommendation.to_owned()),
        clean_via: Vec::new(),
        member_paths: Vec::new(),
    };
    assert(r@ =~= builtin(*w, path@, stats, now));
    r
}

/// The least that a built-in detector reports.
pub const BUILTIN_FLOOR: u64 = 1_048_576;

/// What is said of a tagged cache.
pub open spec fn tagged_wording(w: Wording) -> bool {
    &&& w.rule_id@ == "cachedir-tag"@
    &&& w.category@ == "tagged-cache"@
    &&& w.safety == Safety::Review
    &&& w.description@ == "The directory contains a valid CACHEDIR.TAG. This marks data that should not need backup, but it does not identify the owner or guarantee that raw deletion is the correct cleanup method."@
    &&& w.impact@ == "The owner may need to rebuild or redownload the contents. Some tools also place this tag in persistent installed environments."@
    &&& w.recommendation@ == "Review the full path and identify the owning tool. Prefer its native prune or uninstall command; this finding is never bulk-selected."@
}

/// The finding for a tagged cache, where it is large enough.
pub fn tagged_finding(path: &str, stats: SubtreeStats, now: i64) -> (r: Option<Finding>)
    ensures
        match r {
            Some(f) => stats.bytes >= BUILTIN_FLOOR && exists|w: Wording|
            #[trigger] tagged_wording(w) && f@ == builtin(w, path@, stats, now),
            None => stats.bytes < BUILTIN_FLOOR,
        },
{
    if stats.bytes < BUILTIN_FLOOR {
        return None;
    }
    let w = Wording {
        rule_id: "cachedir-tag",
        category: "tagged-cache",
        safety: Safety::Review,
        description: "The directory contains a valid CACHEDIR.TAG. This marks data that should not need backup, but it does not identify the owner or guarantee that raw deletion is the correct cleanup method.",
        impact: "The owner may need to rebuild or redownload the contents. Some tools also place this tag in persistent installed environments.",
        recommendation: "Review the full path and identify the owning tool. Prefer its native prune or uninstall command; this finding is never bulk-selected.",
    };
    assert(tagged_wording(w));
    Some(builtin_finding(&w, path, stats, now))
}

/// What is said of a directory that a repository ignores.
pub open spec fn ignored_wording(w: Wording) -> bool {
    &&& w.rule_id@ == "gitignored"@
    &&& w.category@ == "gitignored (pick by hand)"@
    &&& w.safety == Safety::Risky
    &&& w.description@ == "This directory is ignored by a repository's Git rules. It could be generated output, dependencies, an SDK, a local database, or untracked user data."@
    &&& w.impact@ == "Deleting it removes the complete ignored directory and anything stored inside it."@
    &&& w.recommendation@ == "Inspect the full path and project context. Select one finding at a time only when you know the directory is reproducible."@
}

/// The finding for a directory that a repository ignores, where it is large
/// enough. Ignored is not junk: it also covers vendored source, databases and
/// session history, so it is picked by hand only.
pub fn ignored_finding(path: &str, stats: SubtreeStats, now: i64) -> (r: Option<Finding>)
    ensures
        match r {
            Some(f) => stats.bytes >= BUILTIN_FLOOR && exists|w: Wording|
            #[trigger] ignored_wording(w) && f@ == builtin(w, path@, stats, now),
            None => stats.bytes < BUILTIN_FLOOR,
        },
{
    if stats.bytes < BUILTIN_FLOOR {
        return None;
    }
    let w = Wording {
        rule_id: "gitignored",
        category: "gitignored (pick by hand)",
        safety: Safety::Risky,
        description: "This directory is ignored by a repository's Git rules. It could be generated output, dependencies, an SDK, a local database, or untracked user data.",
        impact: "Deleting it removes the complete ignored directory and anything stored inside it.",
        recommendation: "Inspect the full path and project context. Select one finding at a time only when you know the directory is reproducible.",
    };
    assert(ignored_wording(w));
    Some(builtin_finding(&w, path, stats, now))
}

/// Whether a tag makes the walk claim a directory as a cache.
pub fn claims_as_cache(p: &Place, tag: Option<&[u8]>) -> (r: bool)
    requires
        p.wf(),
    ensures
        r == (!p.in_app_space() && lists(views(p.entries@), "CACHEDIR.TAG"@, false) && (tag matches Some(t) && tag_valid(
                    t@,
        ))),
{
    let app_space = p.ancestor_mask & p.engine.ancestor_bit("library") != 0;
    match tag {
        Some(t) => !app_space && shows(p.entries, "CACHEDIR.TAG", false) && cachedir_tag_valid(t),
        None => false,
    }
}

// ---- files of a rule, as one finding ----

/// Whether the files of a rule are reported: there are some, and they are large
/// enough together.
pub open spec fn reported(rule: CompiledRule, a: FileAccModel) -> bool {
    a.count > 0 && a.bytes >= rule.min_size_bytes
}

/// What is said where not all paths were kept.
pub open spec fn truncation_note(count: u64, kept: nat) -> Seq<char> {
    "matched "@ + digits(count as nat) + " files; only the first "@ + digits(kept)
        + " paths were retained, so this aggregate is report-only to keep scan memory bounded"@
}

/// What is said of the files of a rule, with their paths in order. A list of
/// paths that is not complete is never acted on.
pub open spec fn aggregate(
    rule: CompiledRule,
    a: FileAccModel,
    root: Seq<char>,
    now: i64,
    commands: Seq<Seq<char>>,
    members: Seq<Seq<char>>,
) -> FindingModel {
    let f = rule_finding(
        rule,
        root,
        SubtreeStats { bytes: a.bytes, files: a.count, dirs: 0, newest_mtime: a.newest_mtime },
        a.newest_mtime,
        now,
        commands,
    );
    FindingModel {
        report_only: f.report_only || a.truncated,
        impact: if a.truncated {
            Some(truncation_note(a.count, members.len()))
        } else {
            f.impact
        },
        member_paths: members,
        ..f
    }
}

/// Whether a finding is the one for the files of a rule.
pub open spec fn is_aggregate(
    f: FindingModel,
    rule: CompiledRule,
    a: FileAccModel,
    root: Seq<char>,
    now: i64,
    commands: Seq<Seq<char>>,
) -> bool {
    &&& sorting::paths_in_order(f.member_paths)
    &&& f.member_paths.to_multiset() == a.paths.to_multiset()
    &&& f == aggregate(rule, a, root, now, commands, f.member_paths)
}

/// The finding for the files of a rule.
pub fn aggregate_finding(
    rule: &CompiledRule,
    acc: FileAcc,
    root: &str,
    now: i64,
    running_commands: &Vec<String>,
) -> (r: Option<Finding>)
    ensures
        match r {
            Some(f) => reported(*rule, acc@) && is_aggregate(
                f@,
                *rule,
                acc@,
                root@,
                now,
                views(running_commands@),
            ),
            None => !reported(*rule, acc@),
        },
{
    if acc.count == 0 || acc.bytes < rule.min_size_bytes {
        return None;
    }
    let ghost a = acc@;
    let stats = SubtreeStats {
        bytes: acc.bytes,
        files: acc.count,
        dirs: 0,
        newest_mtime: acc.newest_mtime,
    };
    let (count, truncated, newest) = (acc.count, acc.truncated, acc.newest_mtime);
    let members = sorting::sort_paths(acc.paths);
    let mut f = make_finding(rule, root, stats, newest, now, running_commands);
    if truncated {
        f.report_only = true;
        f.impact = Some(
            "matched ".to_owned().concat(text::decimal(count).as_str()).concat(
                " files; only the first ",
            ).concat(text::decimal(members.len() as u64).as_str()).concat(
                " paths were retained, so this aggregate is report-only to keep scan memory bounded",
            ),
        );
    }
    assert(views(members@).len() == members@.len());
    f.member_paths = members;
    assert(f@ =~= aggregate(*rule, a, root@, now, views(running_commands@), f@.member_paths));
    Some(f)
}

// ---- laws ----

/// A visit stops at every directory that is sized: none lies before the last entry
/// that it met.
pub proof fn law_sized_directories_stop_a_visit(p: Place, from: int, k: int)
    requires
        0 <= from <= k < p.stop_after(from) - 1,
    ensures
        !p.is_sized(views(p.entries@)[k]),
        from < p.stop_after(from) <= p.entries@.len(),
    decreases p.entries@.len() - from,
{
    if !p.is_sized(views(p.entries@)[from]) {
        if from < k {
            law_sized_directories_stop_a_visit(p, from + 1, k);
        }
        lemma_stop_after(p, from + 1);
    }
}

proof fn lemma_stop_after(p: Place, from: int)
    requires
        0 <= from <= p.entries@.len(),
    ensures
        from <= p.stop_after(from) <= p.entries@.len(),
        from < p.entries@.len() ==> from < p.stop_after(from),
    decreases p.entries@.len() - from,
{
    if from < p.entries@.len() && !p.is_sized(views(p.entries@)[from]) {
        lemma_stop_after(p, from + 1);
    }
}

/// A visit that is not at its end goes on, and never beyond the last entry.
pub proof fn law_visits_go_on(p: Place, from: int)
    requires
        0 <= from < p.entries@.len(),
    ensures
        from < p.stop_after(from) <= p.entries@.len(),
{
    lemma_stop_after(p, from);
}

/// A visit in two parts comes to the same as one in one part.
pub proof fn law_visits_join(p: Place, start: VisitModel, a: int, b: int, c: int)
    requires
        a <= b <= c,
    ensures
        p.visited(p.visited(start, a, b), b, c) == p.visited(start, a, c),
    decreases c - b,
{
    if b < c {
        law_visits_join(p, start, a, b, c - 1);
    }
}

/// A directory that is protected, already counted or a mount of its own is
/// neither claimed nor entered.
pub proof fn law_left_alone_is_not_touched(p: Place<'_>, e: EntryModel)
    requires
        p.left_alone(e),
    ensures
        p.dir_step(e) is None,
{
}

/// Below a directory that a rule excludes, the rule claims nothing.
pub proof fn law_excluded_ancestors_block(p: Place<'_>, e: EntryModel)
    requires
        p.wf(),
    ensures
        p.dir_step(e) matches Some(StepModel::Claim { child, rule, activity }) ==> {
            &&& rule < p.engine.rules@.len()
            &&& p.engine.rules@[rule as int].exclude_mask & p.ancestor_mask == 0
        },
{
    lemma_claimant_exists(
        *p.engine,
        lower_case(e.name),
        p.ancestor_mask,
        names_of(views(p.entries@)),
    );
}

/// Credentials and configuration are never claimed for being ignored, and nothing
/// is in the space of applications.
pub proof fn law_secrets_are_not_claimed(p: Place<'_>, e: EntryModel)
    requires
        never_claimed(lower_case(e.name)) || p.in_app_space(),
    ensures
        !(p.dir_step(e) is Some && p.dir_step(e)->0 is Ignored),
{
}

/// What built-in detectors find is never selected in bulk, and can still be
/// picked by hand.
pub proof fn law_builtin_is_manual(w: Wording, path: Seq<char>, stats: SubtreeStats, now: i64)
    ensures
        builtin(w, path, stats, now).manual_only,
        !builtin(w, path, stats, now).report_only,
{
}

/// No more paths are kept than the limit, and a list that was cut is never acted
/// on.
pub proof fn law_member_paths_are_bounded(a: FileAccModel, full: Seq<char>, bytes: u64, mtime: i64)
    requires
        a.paths.len() <= MAX_MEMBER_PATHS,
    ensures
        with_file(a, full, bytes, mtime).paths.len() <= MAX_MEMBER_PATHS,
        with_file(a, full, bytes, mtime).paths == a.paths ==> with_file(a, full, bytes, mtime).truncated,
        a.truncated ==> with_file(a, full, bytes, mtime).truncated,
{
    if a.paths.len() < MAX_MEMBER_PATHS {
        assert(a.paths.push(full).len() == a.paths.len() + 1);
    }
}

/// A finding whose list of paths was cut is reported only.
pub proof fn law_cut_lists_are_reported_only(
    f: FindingModel,
    rule: CompiledRule,
    a: FileAccModel,
    root: Seq<char>,
    now: i64,
    commands: Seq<Seq<char>>,
)
    requires
        a.truncated,
        is_aggregate(f, rule, a, root, now, commands),
    ensures
        f.report_only,
{
}

proof fn lemma_file_rule_exists(engine: Engine, lower: Seq<char>, full: Seq<char>)
    requires
        engine.wf(),
    ensures
        file_rule(engine, lower, full) matches Some(i) ==> i < engine.rules@.len(),
{
    let a = pairs(engine.file_names@);
    let b = pairs(engine.file_suffixes@);
    crate::seqs::law_found_is_made(a, if_named_so(lower));
    crate::seqs::law_found_is_made(b, if_ends_so(lower));
    assert(engine.path_glob_rules.len() == engine.path_glob_rules@.len());
    lemma_positions(held(engine.path_globs), full);
    if let Some(r) = find_some(a, if_named_so(lower)) {
        let i = choose|i: int| 0 <= i < a.len() && if_named_so(lower)(#[trigger] a[i]) == Some(r);
        assert(a[i].1 == engine.file_names@[i].1);
    } else if let Some(r) = find_some(b, if_ends_so(lower)) {
        let i = choose|i: int| 0 <= i < b.len() && if_ends_so(lower)(#[trigger] b[i]) == Some(r);
        assert(b[i].1 == engine.file_suffixes@[i].1);
    } else {
        let found = hit_positions(held(engine.path_globs), full);
        if found.len() > 0 {
            assert(found[0] < held(engine.path_globs).len());
        }
    }
}

proof fn lemma_paths_grow(p: Place, start: VisitModel, from: int, to: int, r: int)
    requires
        from <= to,
        0 <= r < start.accs.len(),
        p.wf(),
        start.accs.len() == p.engine.rules@.len(),
    ensures
        p.visited(start, from, to).accs.len() == start.accs.len(),
        start.accs[r].paths.is_prefix_of(p.visited(start, from, to).accs[r].paths),
        start.accs[r].truncated ==> p.visited(start, from, to).accs[r].truncated,
    decreases to - from,
{
    if from < to {
        let e = views(p.entries@)[to - 1];
        lemma_paths_grow(p, start, from, to - 1, r);
        lemma_file_rule_exists(*p.engine, lower_case(e.name), below(p.dir@, e.name));
    }
}

/// Every path that a visit adds to the files of a rule is that of a file that was
/// met, that the rule matches, that is large enough, not protected and, where the
/// rule has an age gate, at least that old.
pub proof fn law_counted_files_are_old_enough(
    p: Place,
    start: VisitModel,
    from: int,
    to: int,
    r: int,
    i: int,
)
    requires
        0 <= from <= to <= p.entries@.len(),
        0 <= r < start.accs.len(),
        p.wf(),
        start.accs.len() == p.engine.rules@.len(),
        start.accs[r].paths.len() <= i < p.visited(start, from, to).accs[r].paths.len(),
    ensures
        exists|k: int|
        {
            &&& from <= k < to
            &&& !(#[trigger] views(p.entries@)[k]).is_dir
            &&& p.visited(start, from, to).accs[r].paths[i] == below(p.dir@, views(p.entries@)[k].name)
            &&& file_rule(
                *p.engine,
                lower_case(views(p.entries@)[k].name),
                below(p.dir@, views(p.entries@)[k].name),
            ) == Some(r as usize)
            &&& counted(
                p.visited(start, from, k).seen,
                views(p.entries@)[k].dev,
                views(p.entries@)[k].ino,
                views(p.entries@)[k].bytes,
            ) >= p.engine.rules@[r].min_file_size_bytes
            &&& !p.engine.protects(below(p.dir@, views(p.entries@)[k].name))
            &&& p.engine.rules@[r].min_age_secs > 0 ==> p.now - views(p.entries@)[k].mtime
                >= p.engine.rules@[r].min_age_secs
        },
    decreases to - from,
{
    let before = p.visited(start, from, to - 1);
    let e = views(p.entries@)[to - 1];
    assert(p.engine.rules.len() == p.engine.rules@.len());
    lemma_paths_grow(p, start, from, to - 1, r);
    if i < before.accs[r].paths.len() {
        law_counted_files_are_old_enough(p, start, from, to - 1, r, i);
        law_visits_join(p, start, from, to - 1, to);
        lemma_paths_grow(p, before, to - 1, to, r);
        assert(before.accs[r].paths[i] == p.visited(start, from, to).accs[r].paths[i]);
    } else {
        assert(p.visited(start, from, to) == p.met(before, e));
        lemma_file_rule_exists(*p.engine, lower_case(e.name), below(p.dir@, e.name));
    }
}

/// No file that is younger than the age gate of a rule is ever added to its files:
/// where every file of a name is too young, no path of that name is added.
pub proof fn law_young_files_are_left(p: Place, start: VisitModel, from: int, to: int, r: int, path: Seq<char>)
    requires
        0 <= from <= to <= p.entries@.len(),
        0 <= r < start.accs.len(),
        p.wf(),
        start.accs.len() == p.engine.rules@.len(),
        p.engine.rules@[r].min_age_secs > 0,
        !start.accs[r].paths.contains(path),
        forall|k: int|
        from <= k < to && below(p.dir@, (#[trigger] views(p.entries@)[k]).name) == path ==> p.now
            - views(p.entries@)[k].mtime < p.engine.rules@[r].min_age_secs,
    ensures
        !p.visited(start, from, to).accs[r].paths.contains(path),
{
    let end = p.visited(start, from, to).accs[r].paths;
    lemma_paths_grow(p, start, from, to, r);
    if end.contains(path) {
        let i = choose|i: int| 0 <= i < end.len() && end[i] == path;
        if i < start.accs[r].paths.len() {
            assert(start.accs[r].paths[i] == end[i]);
        } else {
            law_counted_files_are_old_enough(p, start, from, to, r, i);
        }
    }
}

/// A file that a rule matches, that is large enough, not protected and, where the
/// rule has an age gate, at least that old is added to the files of the rule; where
/// there is no room left for its path, the list is marked as cut.
pub proof fn law_old_files_are_counted(p: Place, start: VisitModel, from: int, to: int, k: int, r: int)
    requires
        0 <= from <= k < to <= p.entries@.len(),
        0 <= r < start.accs.len(),
        p.wf(),
        start.accs.len() == p.engine.rules@.len(),
        !views(p.entries@)[k].is_dir,
        file_rule(
            *p.engine,
            lower_case(views(p.entries@)[k].name),
            below(p.dir@, views(p.entries@)[k].name),
        ) == Some(r as usize),
        counted(
            p.visited(start, from, k).seen,
            views(p.entries@)[k].dev,
            views(p.entries@)[k].ino,
            views(p.entries@)[k].bytes,
        ) >= p.engine.rules@[r].min_file_size_bytes,
        !p.engine.protects(below(p.dir@, views(p.entries@)[k].name)),
        p.engine.rules@[r].min_age_secs <= 0 || p.now - views(p.entries@)[k].mtime
            >= p.engine.rules@[r].min_age_secs,
    ensures
        p.visited(start, from, to).accs[r].paths.contains(below(p.dir@, views(p.entries@)[k].name)) || (
        p.visited(start, from, to).accs[r].paths.len() >= 50_000 && p.visited(start, from, to).accs[r].truncated),
{
    let before = p.visited(start, from, k);
    let after = p.visited(start, from, k + 1);
    let end = p.visited(start, from, to);
    let full = below(p.dir@, views(p.entries@)[k].name);
    assert(p.engine.rules.len() == p.engine.rules@.len());
    lemma_paths_grow(p, start, from, k, r);
    assert(after == p.met(before, views(p.entries@)[k]));
    lemma_paths_grow(p, after, k + 1, to, r);
    law_visits_join(p, start, from, k + 1, to);
    if before.accs[r].paths.len() < MAX_MEMBER_PATHS {
        let at = before.accs[r].paths.len() as int;
        assert(after.accs[r].paths[at] == full);
        assert(end.accs[r].paths[at] == full);
    }
}

/// A file that a rule counts adds its bytes and itself to the rule's and moves the
/// newest time forward, never back; nothing of another rule changes.
pub proof fn law_counted_files_add_up(p: Place, v: VisitModel, e: EntryModel, r: int)
    requires
        0 <= r < v.accs.len(),
        p.wf(),
        v.accs.len() == p.engine.rules@.len(),
        v.accs[r].count < u64::MAX,
        v.accs[r].bytes + e.bytes <= u64::MAX,
    ensures
        ({
            let old_acc = v.accs[r];
            let new_acc = p.met(v, e).accs[r];
            ||| new_acc == old_acc
            ||| {
                &&& !e.is_dir
                &&& file_rule(*p.engine, lower_case(e.name), below(p.dir@, e.name)) == Some(r as usize)
                &&& new_acc.count == old_acc.count + 1
                &&& new_acc.bytes == old_acc.bytes + counted(v.seen, e.dev, e.ino, e.bytes)
                &&& new_acc.newest_mtime >= old_acc.newest_mtime
                &&& new_acc.newest_mtime >= e.mtime
                &&& new_acc.newest_mtime == old_acc.newest_mtime || new_acc.newest_mtime == e.mtime
                &&& old_acc.paths.len() < 50_000 ==> new_acc.paths == old_acc.paths.push(
                    below(p.dir@, e.name),
                ) && new_acc.truncated == old_acc.truncated
                &&& old_acc.paths.len() >= 50_000 ==> new_acc.paths == old_acc.paths && new_acc.truncated
            }
        }),
{
    lemma_file_rule_exists(*p.engine, lower_case(e.name), below(p.dir@, e.name));
}

/// Directories are no files and files no directories: a file adds no step, and a
/// directory nothing to the files, the bytes or what is noted of files.
pub proof fn law_directories_and_files_stay_apart(p: Place, v: VisitModel, e: EntryModel)
    ensures
        e.is_dir ==> p.met(v, e).files == v.files && p.met(v, e).bytes == v.bytes && p.met(v, e).accs
            == v.accs && p.met(v, e).seen == v.seen && p.met(v, e).reference_files == v.reference_files,
        !e.is_dir ==> p.met(v, e).steps == v.steps && p.met(v, e).files == v.files + 1,
        !e.is_dir && v.bytes + e.bytes <= u64::MAX ==> p.met(v, e).bytes == v.bytes + counted(
            v.seen,
            e.dev,
            e.ino,
            e.bytes,
        ),
{
}

/// A visit that meets no directory counts every entry as a file, one that meets no
/// file counts none.
pub proof fn law_every_file_is_met(p: Place, start: VisitModel, from: int, to: int)
    requires
        0 <= from <= to <= p.entries@.len(),
    ensures
        (forall|k: int| from <= k < to ==> !(#[trigger] views(p.entries@)[k]).is_dir) ==> p.visited(
            start,
            from,
            to,
        ).files == start.files + (to - from),
        (forall|k: int| from <= k < to ==> (#[trigger] views(p.entries@)[k]).is_dir) ==> p.visited(
            start,
            from,
            to,
        ).files == start.files,
    decreases to - from,
{
    if from < to {
        law_every_file_is_met(p, start, from, to - 1);
        assert(views(p.entries@)[to - 1].is_dir || !views(p.entries@)[to - 1].is_dir);
    }
}

proof fn lemma_steps_grow(p: Place, start: VisitModel, from: int, to: int)
    requires
        from <= to,
    ensures
        start.steps.is_prefix_of(p.visited(start, from, to).steps),
    decreases to - from,
{
    if from < to {
        lemma_steps_grow(p, start, from, to - 1);
    }
}

/// Something happens to every directory that is met and not left alone, and to
/// nothing else.
pub proof fn law_every_directory_is_dealt_with(p: Place, start: VisitModel, from: int, to: int, k: int)
    requires
        0 <= from <= k < to <= p.entries@.len(),
        views(p.entries@)[k].is_dir,
        p.dir_step(views(p.entries@)[k]) is Some,
    ensures
        p.visited(start, from, to).steps.contains(p.dir_step(views(p.entries@)[k])->0),
{
    let before = p.visited(start, from, k);
    let after = p.visited(start, from, k + 1);
    let end = p.visited(start, from, to);
    assert(after == p.met(before, views(p.entries@)[k]));
    lemma_steps_grow(p, after, k + 1, to);
    law_visits_join(p, start, from, k + 1, to);
    let at = before.steps.len() as int;
    assert(after.steps[at] == p.dir_step(views(p.entries@)[k])->0);
    assert(end.steps[at] == after.steps[at]);
}

/// Every step of a visit is that of a directory that was met.
pub proof fn law_steps_come_from_directories(p: Place, start: VisitModel, from: int, to: int, i: int)
    requires
        0 <= from <= to <= p.entries@.len(),
        start.steps.len() <= i < p.visited(start, from, to).steps.len(),
    ensures
        exists|k: int|
        from <= k < to && (#[trigger] views(p.entries@)[k]).is_dir && p.dir_step(views(p.entries@)[k])
            == Some(p.visited(start, from, to).steps[i]),
    decreases to - from,
{
    let before = p.visited(start, from, to - 1);
    lemma_steps_grow(p, start, from, to - 1);
    if i < before.steps.len() {
        law_steps_come_from_directories(p, start, from, to - 1, i);
    } else {
        assert(p.visited(start, from, to) == p.met(before, views(p.entries@)[to - 1]));
    }
}

/// A directory is left alone exactly where it is one of those that are never entered,
/// one of the targeted or mounted ones, or protected.
pub proof fn law_untouched_directories(p: Place, e: EntryModel)
    ensures
        p.dir_step(e) is None <==> {
            ||| lower_case(e.name) == ".git"@
            ||| lower_case(e.name) == ".trash"@
            ||| lower_case(e.name) == "mobile documents"@
            ||| lower_case(e.name) == "cloudstorage"@
            ||| lower_case(e.name) == ".documentrevisions-v100"@
            ||| exists|i: int|
                0 <= i < p.skip@.len() && equal_paths(
                    below(p.dir@, e.name),
                    #[trigger] views(p.skip@)[i],
                )
            ||| exists|i: int|
                0 <= i < p.mounts@.len() && equal_paths(
                    below(p.dir@, e.name),
                    #[trigger] views(p.mounts@)[i],
                )
            ||| p.engine.protects(below(p.dir@, e.name))
        },
{
}

/// Each step is that of the directory itself, by its path below the one that is
/// visited.
pub proof fn law_steps_name_the_child(p: Place, e: EntryModel)
    ensures
        match p.dir_step(e) {
            Some(StepModel::Claim { child, rule, activity }) => child == below(p.dir@, e.name),
            Some(StepModel::Ignored { child }) => child == below(p.dir@, e.name),
            Some(StepModel::Descend { child, mask }) => {
                &&& child == below(p.dir@, e.name)
                &&& mask & p.ancestor_mask == p.ancestor_mask
            },
            None => true,
        },
{
    let a = p.ancestor_mask;
    let b = bit_of(views(p.engine.ancestor_names@), lower_case(e.name));
    assert((a | b) & a == a) by (bit_vector);
}

/// A directory is claimed by the first rule for its name that no ancestor excludes
/// and that the siblings satisfy.
pub proof fn law_first_rule_claims(p: Place, e: EntryModel, i: int)
    requires
        !p.left_alone(e),
        0 <= i < p.engine.dir_names@.len(),
        p.engine.dir_names@[i].0@ == lower_case(e.name),
        p.engine.rules@[p.engine.dir_names@[i].1 as int].exclude_mask & p.ancestor_mask == 0,
        p.engine.rules@[p.engine.dir_names@[i].1 as int].sibling_any matches Some(s) ==> exists|k: int|
        0 <= k < p.entries@.len() && any_hit(held(s), (#[trigger] views(p.entries@)[k]).name),
        forall|j: int|
        0 <= j < i && (#[trigger] p.engine.dir_names@[j]).0@ == lower_case(e.name)
            ==> p.engine.rules@[p.engine.dir_names@[j].1 as int].exclude_mask & p.ancestor_mask != 0,
    ensures
        match p.dir_step(e) {
            Some(StepModel::Claim { child, rule, activity }) => rule == p.engine.dir_names@[i].1,
            _ => false,
        },
{
    let t = pairs(p.engine.dir_names@);
    let names = names_of(views(p.entries@));
    let f = if_claims(*p.engine, lower_case(e.name), p.ancestor_mask, names);
    let rule = p.engine.rules@[p.engine.dir_names@[i].1 as int];
    assert(t[i] == (p.engine.dir_names@[i].0@, p.engine.dir_names@[i].1));
    if let Some(s) = rule.sibling_any {
        let k = choose|k: int|
        0 <= k < p.entries@.len() && any_hit(held(s), (#[trigger] views(p.entries@)[k]).name);
        assert(names[k] == views(p.entries@)[k].name);
    }
    assert forall|j: int| 0 <= j < i implies f(#[trigger] t[j]) is None by {
        assert(t[j] == (p.engine.dir_names@[j].0@, p.engine.dir_names@[j].1));
    }
    crate::seqs::law_first_is_found(t, f, i);
}

/// What is claimed has the name of its rule, and a sibling that the rule asks for.
pub proof fn law_claims_have_their_rule(p: Place, e: EntryModel)
    ensures
        match p.dir_step(e) {
            Some(StepModel::Claim { child, rule, activity }) => {
                &&& exists|i: int|
                    0 <= i < p.engine.dir_names@.len() && (#[trigger] p.engine.dir_names@[i]).0@
                        == lower_case(e.name) && p.engine.dir_names@[i].1 == rule
                &&& p.engine.rules@[rule as int].exclude_mask & p.ancestor_mask == 0
                &&& p.engine.rules@[rule as int].sibling_any matches Some(s) ==> exists|k: int|
                    0 <= k < p.entries@.len() && any_hit(held(s), (#[trigger] views(p.entries@)[k]).name)
            },
            _ => true,
        },
{
    let t = pairs(p.engine.dir_names@);
    let names = names_of(views(p.entries@));
    let f = if_claims(*p.engine, lower_case(e.name), p.ancestor_mask, names);
    crate::seqs::law_found_is_made(t, f);
    if let Some(StepModel::Claim { child, rule, activity }) = p.dir_step(e) {
        let i = choose|i: int| 0 <= i < t.len() && f(#[trigger] t[i]) == Some(rule);
        assert(t[i] == (p.engine.dir_names@[i].0@, p.engine.dir_names@[i].1));
        if let Some(s) = p.engine.rules@[rule as int].sibling_any {
            assert(any_name_hit(held(s), names));
            let k = choose|k: int| 0 <= k < names.len() && any_hit(held(s), #[trigger] names[k]);
            assert(views(p.entries@)[k].name == names[k]);
        }
    }
}

/// A directory that no rule claims is reported as ignored exactly where the
/// repository ignores it, outside the space of applications, unless it is one of
/// those that hold credentials or configuration.
pub proof fn law_ignored_directories(p: Place, e: EntryModel)
    requires
        !p.left_alone(e),
        forall|i: int|
        0 <= i < p.engine.dir_names@.len() ==> (#[trigger] p.engine.dir_names@[i]).0@ != lower_case(e.name),
    ensures
        p.dir_step(e)->0 is Ignored <==> p.is_ignored_here(below(p.dir@, e.name)) && !p.in_app_space()
            && lower_case(e.name) != ".ssh"@ && lower_case(e.name) != ".aws"@ && lower_case(e.name)
            != ".gnupg"@ && lower_case(e.name) != ".kube"@ && lower_case(e.name) != ".config"@
            && lower_case(e.name) != ".env"@ && lower_case(e.name) != "secrets"@ && lower_case(e.name)
            != ".secrets"@,
        p.dir_step(e)->0 is Ignored || p.dir_step(e)->0 is Descend,
{
    let t = pairs(p.engine.dir_names@);
    let f = if_claims(*p.engine, lower_case(e.name), p.ancestor_mask, names_of(views(p.entries@)));
    assert forall|i: int| 0 <= i < t.len() implies f(#[trigger] t[i]) is None by {
        assert(t[i] == (p.engine.dir_names@[i].0@, p.engine.dir_names@[i].1));
    }
    lemma_find_none(t, f);
}

/// The activity of a claimed directory is the latest of its own time and the times of
/// the files beside it that mark it.
pub proof fn law_activity_is_the_latest(rule: CompiledRule, entries: Seq<EntryModel>, own: i64)
    ensures
        activity_of(rule, entries, own) >= own,
        forall|k: int|
        0 <= k < entries.len() && !(#[trigger] entries[k]).is_dir && (rule.sibling_any matches Some(s)
            && any_hit(held(s), entries[k].name)) ==> activity_of(rule, entries, own) >= entries[k].mtime,
        activity_of(rule, entries, own) == own || exists|k: int|
        0 <= k < entries.len() && !(#[trigger] entries[k]).is_dir && (rule.sibling_any matches Some(s)
            && any_hit(held(s), entries[k].name)) && activity_of(rule, entries, own) == entries[k].mtime,
    decreases entries.len(),
{
    if entries.len() > 0 {
        law_activity_is_the_latest(rule, entries.drop_last(), own);
        let rest = entries.drop_last();
        assert forall|k: int|
        0 <= k < entries.len() && !(#[trigger] entries[k]).is_dir && (rule.sibling_any matches Some(s)
            && any_hit(held(s), entries[k].name)) implies activity_of(rule, entries, own)
            >= entries[k].mtime by {
            if k < rest.len() {
                assert(rest[k] == entries[k]);
            }
        }
        let a = activity_of(rule, rest, own);
        if a != own {
            let k = choose|k: int|
            0 <= k < rest.len() && !(#[trigger] rest[k]).is_dir && (rule.sibling_any matches Some(s)
                && any_hit(held(s), rest[k].name)) && a == rest[k].mtime;
            assert(entries[k] == rest[k]);
        }
        assert(entries[entries.len() - 1] == entries.last());
    }
}

/// A file of an exact name belongs to the first rule for that name, whatever else
/// matches it.
pub proof fn law_exact_names_come_first(engine: Engine, lower: Seq<char>, full: Seq<char>, i: int)
    requires
        0 <= i < engine.file_names@.len(),
        engine.file_names@[i].0@ == lower,
        forall|j: int| 0 <= j < i ==> (#[trigger] engine.file_names@[j]).0@ != lower,
    ensures
        file_rule(engine, lower, full) == Some(engine.file_names@[i].1),
{
    let t = pairs(engine.file_names@);
    assert(t[i] == (engine.file_names@[i].0@, engine.file_names@[i].1));
    assert forall|j: int| 0 <= j < i implies if_named_so(lower)(#[trigger] t[j]) is None by {
        assert(t[j] == (engine.file_names@[j].0@, engine.file_names@[j].1));
    }
    crate::seqs::law_first_is_found(t, if_named_so(lower), i);
}

/// A file that no rule names belongs to the first rule with a suffix of its name.
pub proof fn law_suffixes_come_next(engine: Engine, lower: Seq<char>, full: Seq<char>, i: int, head: Seq<char>)
    requires
        forall|j: int|
        0 <= j < engine.file_names@.len() ==> (#[trigger] engine.file_names@[j]).0@ != lower,
        0 <= i < engine.file_suffixes@.len(),
        lower == head + engine.file_suffixes@[i].0@,
        forall|j: int|
        0 <= j < i ==> !text::ends(lower, (#[trigger] engine.file_suffixes@[j]).0@),
    ensures
        file_rule(engine, lower, full) == Some(engine.file_suffixes@[i].1),
{
    let n = pairs(engine.file_names@);
    assert forall|j: int| 0 <= j < n.len() implies if_named_so(lower)(#[trigger] n[j]) is None by {
        assert(n[j] == (engine.file_names@[j].0@, engine.file_names@[j].1));
    }
    lemma_find_none(n, if_named_so(lower));
    let t = pairs(engine.file_suffixes@);
    let s = engine.file_suffixes@[i].0@;
    assert(t[i] == (s, engine.file_suffixes@[i].1));
    assert(lower.subrange(lower.len() - s.len(), lower.len() as int) =~= s);
    assert forall|j: int| 0 <= j < i implies if_ends_so(lower)(#[trigger] t[j]) is None by {
        assert(t[j] == (engine.file_suffixes@[j].0@, engine.file_suffixes@[j].1));
    }
    crate::seqs::law_first_is_found(t, if_ends_so(lower), i);
}

/// A file that no rule names and no suffix fits belongs to the rule of the first
/// pattern that its path matches; where none matches, to no rule.
pub proof fn law_patterns_come_last(engine: Engine, lower: Seq<char>, full: Seq<char>)
    requires
        forall|j: int|
        0 <= j < engine.file_names@.len() ==> (#[trigger] engine.file_names@[j]).0@ != lower,
        forall|j: int|
        0 <= j < engine.file_suffixes@.len() ==> !text::ends(
            lower,
            (#[trigger] engine.file_suffixes@[j]).0@,
        ),
        held(engine.path_globs).len() <= usize::MAX,
    ensures
        match file_rule(engine, lower, full) {
            Some(r) => exists|i: int|
            0 <= i < held(engine.path_globs).len() && hits(#[trigger] held(engine.path_globs)[i], full)
                && engine.path_glob_rules@[i] == r && forall|j: int|
            0 <= j < i ==> !hits(#[trigger] held(engine.path_globs)[j], full),
            None => forall|i: int|
            0 <= i < held(engine.path_globs).len() ==> !hits(#[trigger] held(engine.path_globs)[i], full),
        },
{
    let n = pairs(engine.file_names@);
    assert forall|j: int| 0 <= j < n.len() implies if_named_so(lower)(#[trigger] n[j]) is None by {
        assert(n[j] == (engine.file_names@[j].0@, engine.file_names@[j].1));
    }
    lemma_find_none(n, if_named_so(lower));
    let t = pairs(engine.file_suffixes@);
    assert forall|j: int| 0 <= j < t.len() implies if_ends_so(lower)(#[trigger] t[j]) is None by {
        assert(t[j] == (engine.file_suffixes@[j].0@, engine.file_suffixes@[j].1));
    }
    lemma_find_none(t, if_ends_so(lower));
    crate::globs::law_first_hit_comes_first(held(engine.path_globs), full);
    let found = crate::globs::hit_positions(held(engine.path_globs), full);
    if found.len() > 0 {
        assert(hits(held(engine.path_globs)[found[0] as int], full));
    }
}

/// A claimed directory is reported exactly where it holds what its rule asks for; its
/// age is that of the latest of its files and its activity, and it is recent exactly
/// where the rule has an age gate that the time since is short of.
pub proof fn law_claims_are_reported(
    rule: CompiledRule,
    child: Seq<char>,
    stats: SubtreeStats,
    activity: i64,
    now: i64,
    commands: Seq<Seq<char>>,
)
    ensures
        claim_row(rule, child, stats, activity, now, commands) is Some <==> stats.bytes >= rule.min_size_bytes,
        match claim_row(rule, child, stats, activity, now, commands) {
            Some(f) => {
                &&& f.path == child
                &&& f.bytes == stats.bytes
                &&& f.files == stats.files
                &&& f.rule_id == rule.def.id@
                &&& f.recent <==> rule.min_age_secs > 0 && (stats.newest_mtime > 0 || activity > 0) && (
                now - stats.newest_mtime < rule.min_age_secs || now - activity < rule.min_age_secs)
                &&& stats.newest_mtime <= 0 && activity <= 0 ==> f.age_days is None
                &&& 0 < stats.newest_mtime <= now && activity <= stats.newest_mtime ==> f.age_days is Some
                    && f.age_days->0 * 86_400 <= now - stats.newest_mtime < (f.age_days->0 + 1) * 86_400
                &&& 0 < activity <= now && stats.newest_mtime <= activity ==> f.age_days is Some
                    && f.age_days->0 * 86_400 <= now - activity < (f.age_days->0 + 1) * 86_400
            },
            None => true,
        },
{
}

/// The files of a rule are reported together exactly where there are any and they
/// hold what the rule asks for.
pub proof fn law_files_are_reported_together(
    f: FindingModel,
    rule: CompiledRule,
    a: FileAccModel,
    root: Seq<char>,
    now: i64,
    commands: Seq<Seq<char>>,
)
    ensures
        reported(rule, a) <==> a.count >= 1 && a.bytes >= rule.min_size_bytes,
        is_aggregate(f, rule, a, root, now, commands) ==> {
            &&& f.path == root
            &&& f.bytes == a.bytes
            &&& f.files == a.count
            &&& f.rule_id == rule.def.id@
            &&& f.report_only <==> rule.def.report_only || a.truncated
            &&& f.recent <==> rule.min_age_secs > 0 && a.newest_mtime > 0 && now - a.newest_mtime
                < rule.min_age_secs
            &&& f.member_paths.to_multiset() == a.paths.to_multiset()
        },
{
}

/// A repository is told by its metadata, or by the three things that a bare one
/// holds.
pub proof fn law_repositories_are_told(entries: Seq<EntryModel>, i: int, j: int, k: int)
    requires
        0 <= i < entries.len(),
        0 <= j < entries.len(),
        0 <= k < entries.len(),
    ensures
        entries[i].name == ".git"@ ==> lists_repository(entries),
        entries[i].name == "HEAD"@ && !entries[i].is_dir && entries[j].name == "objects"@
            && entries[j].is_dir && entries[k].name == "refs"@ && entries[k].is_dir ==> lists_repository(
            entries,
        ),
{
}

/// What is told as a repository holds metadata or all that a bare one holds.
pub proof fn law_repositories_hold_metadata(entries: Seq<EntryModel>)
    requires
        lists_repository(entries),
        forall|i: int| 0 <= i < entries.len() ==> (#[trigger] entries[i]).name != ".git"@,
    ensures
        exists|i: int| 0 <= i < entries.len() && (#[trigger] entries[i]).name == "HEAD"@ && !entries[i].is_dir,
        exists|i: int| 0 <= i < entries.len() && (#[trigger] entries[i]).name == "objects"@ && entries[i].is_dir,
        exists|i: int| 0 <= i < entries.len() && (#[trigger] entries[i]).name == "refs"@ && entries[i].is_dir,
{
}

/// The files that name a version are noted, as far as there is room, and no others.
pub proof fn law_reference_files_are_noted(p: Place, v: VisitModel, e: EntryModel)
    requires
        !e.is_dir,
    ensures
        p.met(v, e).reference_files == v.reference_files.push(below(p.dir@, e.name))
            || p.met(v, e).reference_files == v.reference_files,
        p.met(v, e).reference_files.len() > v.reference_files.len() <==> v.reference_files.len() < 20_000 && (
        e.name == "rust-toolchain.toml"@ || e.name == "rust-toolchain"@ || e.name == ".python-version"@
            || e.name == ".nvmrc"@ || e.name == ".ruby-version"@ || e.name == ".tool-versions"@ || e.name
            == ".sdkmanrc"@ || e.name == ".fvmrc"@ || e.name == "fvm_config.json"@),
{
}

/// A cache tag is valid exactly where it begins with the signature, whatever follows.
pub proof fn law_tags_begin_with_the_signature(content: Seq<u8>, more: Seq<u8>)
    ensures
        tag_valid(content) ==> tag_valid(content + more) && content.len() >= 43,
        content.len() == 43 && (forall|i: int|
            0 <= i < 43 ==> content[i] as u32 == (
            #[trigger] "Signature: 8a477f597d28d172789f06886806bc55"@[i]) as u32) ==> tag_valid(content),
{
    reveal_strlit("Signature: 8a477f597d28d172789f06886806bc55");
}

/// What the built-in detectors find is sized from one mebibyte on.
pub proof fn law_builtin_floor_is_a_mebibyte()
    ensures
        BUILTIN_FLOOR == 1024 * 1024,
{
}

/// What only a tag marks is for review, and what a repository ignores is risky.
pub proof fn law_builtin_findings_are_not_safe(w: Wording)
    ensures
        tagged_wording(w) ==> w.safety == Safety::Review && w.category@ == "tagged-cache"@,
        ignored_wording(w) ==> w.safety == Safety::Risky && w.category@ == "gitignored (pick by hand)"@,
{
}

/// A visit begins with nothing found, and with what was seen and gathered before.
pub proof fn law_visits_begin_with_nothing(seen: Seq<Seq<u128>>, accs: Seq<FileAccModel>, files: Seq<Seq<char>>)
    ensures
        visit_start(seen, accs, files).steps.len() == 0,
        visit_start(seen, accs, files).files == 0,
        visit_start(seen, accs, files).bytes == 0,
        visit_start(seen, accs, files).seen == seen,
        visit_start(seen, accs, files).accs == accs,
        visit_start(seen, accs, files).reference_files == files,
{
}

} // verus!
