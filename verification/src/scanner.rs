//! Scans by rule sets: what each rule adds up to, and the paths that stand for
//! it.

use crate::config::SampleStrategy;
use crate::globs;
use crate::globs::{any_hit, any_name_hit, held};
use crate::matcher::{CompiledContext, CompiledRule, RuleMatcher, best_rule, lemma_best_rule};
use crate::paths;
use crate::paths::{ancestors, below, equal_paths, last_name, parent_of, under};
use crate::seqs;
use crate::seqs::{
    at_most, collect_some, find_some, flatten_map, group_views, if_stays, keep, lemma_collect_step,
    lemma_find_step, lemma_flatten_step, paired, view_of, views,
};
use crate::sizes::{capped_sum, percent_floor, percent_of, plus};
use crate::sorting;
use crate::sorting::{is_ranking, law_ranking_unique, path_before};
use crate::text;
use crate::text::same;
use crate::walk::{little, utf8_text};
use globset::GlobSet;
use std::collections::HashSet;
use vstd::prelude::*;
use vstd::utf8::{decode_utf8, valid_utf8};

verus! {

broadcast use group_views;

/// How a scan is to run.
#[derive(Debug, Clone)]
pub struct ScanOptions {
    pub max_samples: usize,
    pub threads: Option<usize>,
    pub windows_dedupe_hardlinks: bool,
    pub gitignore: Option<GitIgnoreConfig>,
    pub sample_mode: SampleMode,
    pub sample_bottom_percent: Option<u8>,
}

/// What a scan does with what git ignores.
#[derive(Debug, Clone, Copy)]
pub struct GitIgnoreConfig {
    /// Whether ignored directories are left alone.
    pub prune: bool,
}

/// Which paths stand for a rule.
#[derive(Debug, Clone, Copy, PartialEq, Eq, Structural)]
pub enum SampleMode {
    First,
    Largest,
}

/// What the files that match a rule add up to.
#[derive(Debug, Clone, Copy)]
pub struct RuleTotals {
    pub bytes: u64,
    pub file_count: u64,
    pub dir_count: u64,
}

/// A path that stands for a rule.
#[derive(Debug, Clone)]
pub struct SampleMatch {
    pub path: String,
    pub bytes: u64,
    pub rule_index: usize,
}

/// A path with what it holds.
#[derive(Debug, Clone)]
pub struct SamplePath {
    pub path: String,
    pub bytes: u64,
}

/// What a scan came to.
pub struct ScanResult {
    pub totals: Vec<RuleTotals>,
    pub samples: Vec<SampleMatch>,
    pub git_ignored: Option<GitIgnoredTotals>,
    pub git_ignored_samples: Vec<SamplePath>,
}

/// What the files that git ignores add up to.
#[derive(Debug, Clone, Copy)]
pub struct GitIgnoredTotals {
    pub bytes: u64,
    pub file_count: u64,
    pub dir_count: u64,
}

#[verifier::ext_equal]
pub struct SampleModel {
    pub path: Seq<char>,
    pub bytes: u64,
    pub rule_index: int,
}

impl View for SampleMatch {
    type V = SampleModel;

    open spec fn view(&self) -> SampleModel {
        SampleModel { path: self.path@, bytes: self.bytes, rule_index: self.rule_index as int }
    }
}

#[verifier::ext_equal]
pub struct PathModel {
    pub path: Seq<char>,
    pub bytes: u64,
}

impl View for SamplePath {
    type V = PathModel;

    open spec fn view(&self) -> PathModel {
        PathModel { path: self.path@, bytes: self.bytes }
    }
}

/// No files at all.
pub open spec fn no_totals() -> RuleTotals {
    RuleTotals { bytes: 0, file_count: 0, dir_count: 0 }
}

/// Nothing that git ignores.
pub open spec fn nothing_ignored() -> GitIgnoredTotals {
    GitIgnoredTotals { bytes: 0, file_count: 0, dir_count: 0 }
}

// ---- what is asked of the places around a path ----

/// What marks a path on the way up.
pub enum Mark<'a> {
    /// Its name matches one of the patterns.
    Globs(&'a GlobSet),
    /// It is a browser's profile.
    Profile,
    /// It lies in a folder that holds one folder for each application.
    App,
    /// It belongs to the system's browser.
    Web,
}

/// Whether a name is that of a browser's profile.
pub open spec fn profile_name(n: Seq<char>) -> bool {
    n == "Default"@ || n == "Profile"@ || n == "Partitions"@ || n == "DesktopProfile"@ || n == "EBWebView"@ || "Profile "@.is_prefix_of(n) || "WV2Profile"@.is_prefix_of(n)
}

/// Whether a folder of this name holds one folder for each application.
pub open spec fn app_folder(n: Seq<char>) -> bool {
    n == "Caches"@ || n == "Application Support"@ || n == "Logs"@ || n == "HTTPStorages"@ || n == "Containers"@ || n == "Group Containers"@ || n == "Daemon Containers"@
}

/// Whether a path is marked.
pub open spec fn marked(m: Mark, path: Seq<char>) -> bool {
    match m {
        Mark::Globs(s) => last_name(path) matches Some(n) && any_hit(held(*s), n),
        Mark::Profile => last_name(path) matches Some(n) && profile_name(n),
        Mark::App => parent_of(path) matches Some(p) && last_name(p) matches Some(n) && app_folder(n),
        Mark::Web => last_name(path) matches Some(n) && (n == "Safari"@ || n == "WebKit"@),
    }
}

fn is_marked(m: &Mark, path: &str) -> (r: bool)
    ensures
        r == marked(*m, path@),
{
    match m {
        Mark::Globs(s) => match paths::file_name(path) {
            Some(n) => globs::is_match(s, n.as_str()),
            None => false,
        },
        Mark::Profile => match paths::file_name(path) {
            Some(n) => same(n.as_str(), "Default") || same(n.as_str(), "Profile") || same(n.as_str(), "Partitions") || same(n.as_str(), "DesktopProfile") || same(n.as_str(), "EBWebView") || text::starts_with(n.as_str(), "Profile ")
                || text::starts_with(n.as_str(), "WV2Profile"),
            None => false,
        },
        Mark::App => match paths::parent(path) {
            Some(p) => match paths::file_name(p.as_str()) {
                Some(n) => same(n.as_str(), "Caches") || same(n.as_str(), "Application Support") || same(n.as_str(), "Logs") || same(n.as_str(), "HTTPStorages") || same(n.as_str(), "Containers") || same(n.as_str(), "Group Containers") || same(n.as_str(), "Daemon Containers"),
                None => false,
            },
            None => false,
        },
        Mark::Web => match paths::file_name(path) {
            Some(n) => same(n.as_str(), "Safari") || same(n.as_str(), "WebKit"),
            None => false,
        },
    }
}

/// The last path of a list that is marked.
pub open spec fn topmost(list: Seq<Seq<char>>, m: Mark) -> Option<Seq<char>>
    decreases list.len(),
{
    if list.len() == 0 {
        None
    } else if marked(m, list.last()) {
        Some(list.last())
    } else {
        topmost(list.drop_last(), m)
    }
}

/// The marked path that is furthest up, the path itself included.
fn topmost_path(path: &str, m: &Mark) -> (r: Option<String>)
    ensures
        view_of(r) == topmost(ancestors(path@), *m),
{
    let list = paths::ancestor_paths(path);
    let ghost all = views(list@);
    let mut i: usize = list.len();
    assert(all.take(i as int) =~= all);
    while i > 0
        invariant
            i <= list@.len(),
            all == views(list@),
            all == ancestors(path@),
            topmost(all, *m) == topmost(all.take(i as int), *m),
        decreases i,
    {
        assert(all[i - 1] == list@[i - 1]@);
        assert(all.take(i as int).last() == all[i - 1]);
        assert(all.take(i as int).drop_last() =~= all.take(i - 1));
        if is_marked(m, list[i - 1].as_str()) {
            return Some(list[i - 1].clone());
        }
        i -= 1;
    }
    None
}

/// A path that is marked.
pub open spec fn if_marked<'a>(m: Mark<'a>) -> spec_fn(Seq<char>) -> Option<Seq<char>> {
    |p: Seq<char>|
    if marked(m, p) {
        Some(p)
    } else {
        None
    }
}

/// The marked path that is nearest, the path itself first.
fn nearest_path(path: &str, m: &Mark) -> (r: Option<String>)
    ensures
        view_of(r) == find_some(ancestors(path@), if_marked(*m)),
{
    let list = paths::ancestor_paths(path);
    let ghost all = views(list@);
    let ghost f = if_marked(*m);
    let mut i: usize = 0;
    assert(all.skip(0) =~= all);
    while i < list.len()
        invariant
            i <= list@.len(),
            all == views(list@),
            all == ancestors(path@),
            f == if_marked(*m),
            find_some(all, f) == find_some(all.skip(i as int), f),
        decreases list@.len() - i,
    {
        proof {
            lemma_find_step(all, i as int, f);
            assert(all[i as int] == list@[i as int]@);
        }
        if is_marked(m, list[i].as_str()) {
            return Some(list[i].clone());
        }
        i += 1;
    }
    assert(all.skip(i as int) =~= Seq::<Seq<char>>::empty());
    None
}

/// The directories that a path lies in, as many as are looked at: one at least.
pub open spec fn levels(path: Seq<char>, depth: usize) -> Seq<Seq<char>> {
    at_most(
        ancestors(path).skip(1),
        if depth == 0 {
            1
        } else {
            depth as int
        },
    )
}

fn levels_of(path: &str, depth: usize) -> (r: Vec<String>)
    ensures
        views(r@) == levels(path@, depth),
{
    let list = paths::ancestor_paths(path);
    let ghost all = views(list@);
    let limit: usize = if depth == 0 {
        1
    } else {
        depth
    };
    let mut r: Vec<String> = Vec::new();
    let mut i: usize = 1;
    let ghost up = all.skip(1);
    proof {
        reveal_with_fuel(ancestors, 1);
        assert(all.len() >= 1);
        assert(views(r@) =~= up.take(0));
    }
    while i < list.len() && i - 1 < limit
        invariant
            1 <= i <= list@.len(),
            i - 1 <= limit,
            all == views(list@),
            up == all.skip(1),
            views(r@) == up.take(i - 1),
        decreases list@.len() - i,
    {
        assert(all[i as int] == list@[i as int]@);
        assert(up[i - 1] == all[i as int]);
        assert(up.take(i as int) =~= up.take(i - 1).push(up[i - 1]));
        r.push(list[i].clone());
        i += 1;
    }
    assert(views(r@) =~= at_most(up, limit as int));
    r
}

/// The paths of some names in a directory.
pub open spec fn names_in(names: Seq<Seq<char>>) -> spec_fn(Seq<char>) -> Seq<Seq<char>> {
    |dir: Seq<char>| names.map_values(|n: Seq<char>| below(dir, n))
}

/// The directory itself, where one of the names is a file in it.
pub open spec fn if_holds(names: Seq<Seq<char>>, files: Seq<Seq<char>>) -> spec_fn(Seq<char>) -> Option<
Seq<char>,
> {
    |dir: Seq<char>|
    if exists|i: int| 0 <= i < names.len() && files.contains(below(dir, #[trigger] names[i])) {
        Some(dir)
    } else {
        None
    }
}

/// The nearest directory above a path that holds a file of one of the names.
pub open spec fn holder(
    path: Seq<char>,
    names: Seq<Seq<char>>,
    depth: usize,
    files: Seq<Seq<char>>,
) -> Option<Seq<char>> {
    find_some(levels(path, depth), if_holds(names, files))
}

fn holds_any(dir: &str, names: &Vec<String>, files: &Vec<String>) -> (r: bool)
    ensures
        r == (if_holds(views(names@), views(files@))(dir@) is Some),
{
    let ghost all = views(names@);
    let ghost known = views(files@);
    let mut i: usize = 0;
    while i < names.len()
        invariant
            i <= names@.len(),
            all == views(names@),
            known == views(files@),
            forall|j: int| 0 <= j < i ==> !known.contains(below(dir@, #[trigger] all[j])),
        decreases names@.len() - i,
    {
        assert(all[i as int] == names@[i as int]@);
        let p = paths::join(dir, names[i].as_str());
        if text::among(p.as_str(), files) {
            return true;
        }
        i += 1;
    }
    false
}

/// The nearest directory above a path that holds a file of one of the names, by
/// the files that are known to exist.
pub fn ancestor_with_any_file(path: &str, names: &Vec<String>, max_depth: usize, files: &Vec<String>) -> (r:
    Option<String>)
    ensures
        view_of(r) == holder(path@, views(names@), max_depth, views(files@)),
{
    let list = levels_of(path, max_depth);
    let ghost all = views(list@);
    let ghost f = if_holds(views(names@), views(files@));
    let mut i: usize = 0;
    assert(all.skip(0) =~= all);
    while i < list.len()
        invariant
            i <= list@.len(),
            all == views(list@),
            all == levels(path@, max_depth),
            f == if_holds(views(names@), views(files@)),
            find_some(all, f) == find_some(all.skip(i as int), f),
        decreases list@.len() - i,
    {
        proof {
            lemma_find_step(all, i as int, f);
            assert(all[i as int] == list@[i as int]@);
        }
        if holds_any(list[i].as_str(), names, files) {
            return Some(list[i].clone());
        }
        i += 1;
    }
    assert(all.skip(i as int) =~= Seq::<Seq<char>>::empty());
    None
}

/// What is known of the places around a path: the names in the directory that
/// its context asks for, and the files that exist of those it asks for.
pub struct Known {
    pub listing: Option<Vec<String>>,
    pub files: Vec<String>,
}

#[verifier::ext_equal]
pub struct KnownModel {
    pub listing: Option<Seq<Seq<char>>>,
    pub files: Seq<Seq<char>>,
}

impl View for Known {
    type V = KnownModel;

    open spec fn view(&self) -> KnownModel {
        KnownModel {
            listing: match self.listing {
                Some(l) => Some(views(l@)),
                None => None,
            },
            files: views(self.files@),
        }
    }
}

/// The file that marks the top of a browser's data.
pub open spec fn local_state() -> Seq<Seq<char>> {
    seq!["Local State"@]
}

/// The directory whose listing a context is about: that of the path, or that of
/// the anchor furthest up.
pub open spec fn context_parent(c: CompiledContext, path: Seq<char>) -> Option<Seq<char>> {
    match c.parent_anchor_any {
        Some(s) => match topmost(ancestors(path), Mark::Globs(&s)) {
            Some(a) => parent_of(a),
            None => None,
        },
        None => parent_of(path),
    }
}

/// The directory whose listing a context is about.
pub fn context_parent_dir(context: &CompiledContext, path: &str) -> (r: Option<String>)
    ensures
        view_of(r) == context_parent(*context, path@),
{
    match &context.parent_anchor_any {
        Some(s) => match topmost_path(path, &Mark::Globs(s)) {
            Some(a) => paths::parent(a.as_str()),
            None => None,
        },
        None => paths::parent(path),
    }
}

/// What a scan has to find out before it can tell whether a rule holds of a path.
pub struct Wanted {
    /// The directory to list.
    pub listing: Option<String>,
    /// The paths to look up: which of them are files.
    pub files: Vec<String>,
}

/// The directory to list for a context.
pub open spec fn wanted_listing(c: CompiledContext, path: Seq<char>) -> Option<Seq<char>> {
    if c.require_parent_any is Some || c.require_parent_none is Some {
        context_parent(c, path)
    } else {
        None
    }
}

/// The paths to look up for a context.
pub open spec fn wanted_files(c: CompiledContext, path: Seq<char>) -> Seq<Seq<char>> {
    flatten_map(
        levels(path, c.ancestor_depth),
        names_in(views(c.require_ancestor_files_any@)),
    ) + flatten_map(
        levels(path, c.sample_ancestor_depth),
        names_in(views(c.sample_ancestor_files_any@)),
    ) + if c.sample_strategy == Some(SampleStrategy::ChromiumProfile) {
        flatten_map(levels(path, 8), names_in(local_state()))
    } else {
        Seq::empty()
    }
}

fn names_around(path: &str, names: &Vec<String>, depth: usize, out: &mut Vec<String>)
    ensures
        views(final(out)@) == views(old(out)@) + flatten_map(levels(path@, depth), names_in(views(names@))),
{
    let list = levels_of(path, depth);
    let ghost all = views(list@);
    let ghost f = names_in(views(names@));
    let ghost before = views(out@);
    let mut i: usize = 0;
    assert(all.take(0) =~= Seq::<Seq<char>>::empty());
    assert(views(out@) =~= before + flatten_map(all.take(0), f));
    while i < list.len()
        invariant
            i <= list@.len(),
            all == views(list@),
            f == names_in(views(names@)),
            views(out@) == before + flatten_map(all.take(i as int), f),
        decreases list@.len() - i,
    {
        let ghost so_far = views(out@);
        let ghost wanted = views(names@);
        let mut j: usize = 0;
        assert(views(out@) =~= so_far + f(all[i as int]).take(0));
        while j < names.len()
            invariant
                i < list@.len(),
                j <= names@.len(),
                all == views(list@),
                wanted == views(names@),
                f == names_in(wanted),
                views(out@) == so_far + f(all[i as int]).take(j as int),
            decreases names@.len() - j,
        {
            assert(all[i as int] == list@[i as int]@);
            assert(wanted[j as int] == names@[j as int]@);
            let ghost g = f(all[i as int]);
            out.push(paths::join(list[i].as_str(), names[j].as_str()));
            assert(g[j as int] == below(all[i as int], wanted[j as int]));
            assert(views(out@) =~= so_far + g.take(j + 1));
            j += 1;
        }
        proof {
            let g = f(all[i as int]);
            assert(g.take(j as int) =~= g);
            lemma_flatten_step(all, i as int, f);
            assert((before + flatten_map(all.take(i as int), f)) + g =~= before + (flatten_map(
                        all.take(i as int),
                        f,
                    ) + g));
        }
        i += 1;
    }
    assert(all.take(i as int) =~= all);
}

/// What has to be known before a path can be recorded: what the context of the
/// rule that it matches asks for.
pub fn wanted(matcher: &RuleMatcher, path: &str) -> (r: Wanted)
    ensures
        match best_rule(matcher.rules@, path@, matcher.rules@.len() as int) {
            Some(i) => match matcher.rules@[i].context {
                Some(c) => view_of(r.listing) == wanted_listing(c, path@) && views(r.files@)
                    == wanted_files(c, path@),
                None => r.listing is None && r.files@.len() == 0,
            },
            None => r.listing is None && r.files@.len() == 0,
        },
{
    let mut files: Vec<String> = Vec::new();
    let mut listing: Option<String> = None;
    assert(views(files@) =~= Seq::<Seq<char>>::empty());
    if let Some(m) = matcher.match_path(path) {
        if let Some(c) = matcher.rule_context(m.rule_index) {
            if c.require_parent_any.is_some() || c.require_parent_none.is_some() {
                listing = context_parent_dir(c, path);
            }
            names_around(path, &c.require_ancestor_files_any, c.ancestor_depth, &mut files);
            names_around(path, &c.sample_ancestor_files_any, c.sample_ancestor_depth, &mut files);
            let chromium = match c.sample_strategy {
                Some(SampleStrategy::ChromiumProfile) => true,
                _ => false,
            };
            if chromium {
                let mark = text::texts1("Local State");
                names_around(path, &mark, 8, &mut files);
            }
            assert(views(files@) =~= wanted_files(*c, path@));
        }
    }
    Wanted { listing, files }
}

// ---- contexts ----

/// Whether a context lets a rule match a path.
pub open spec fn allows(c: CompiledContext, path: Seq<char>, k: KnownModel) -> bool {
    &&& c.exclude_ancestor_any matches Some(s) ==> topmost(ancestors(path), Mark::Globs(&s)) is None
    &&& c.require_parent_any matches Some(s) ==> context_parent(c, path) is Some && (k.listing matches Some(l)
            && any_name_hit(held(s), l))
    &&& c.require_parent_none matches Some(s) ==> !(context_parent(c, path) is Some && (
            k.listing matches Some(l) && any_name_hit(held(s), l)))
    &&& c.require_ancestor_files_any@.len() > 0 ==> holder(
        path,
        views(c.require_ancestor_files_any@),
        c.ancestor_depth,
        k.files,
    ) is Some
}

/// Whether a context lets a rule match a path.
pub fn context_allows(context: &CompiledContext, path: &str, known: &Known) -> (r: bool)
    ensures
        r == allows(*context, path@, known@),
{
    if let Some(s) = &context.exclude_ancestor_any {
        if topmost_path(path, &Mark::Globs(s)).is_some() {
            return false;
        }
    }
    let parent = context_parent_dir(context, path);
    if let Some(s) = &context.require_parent_any {
        let found = match (&parent, &known.listing) {
            (Some(_), Some(l)) => globs::matches_any(s, l),
            _ => false,
        };
        if !found {
            return false;
        }
    }
    if let Some(s) = &context.require_parent_none {
        let found = match (&parent, &known.listing) {
            (Some(_), Some(l)) => globs::matches_any(s, l),
            _ => false,
        };
        if found {
            return false;
        }
    }
    if context.require_ancestor_files_any.len() > 0 {
        if ancestor_with_any_file(
            path,
            &context.require_ancestor_files_any,
            context.ancestor_depth,
            &known.files,
        ).is_none() {
            return false;
        }
    }
    true
}

/// Where a strategy says that a path is shown.
pub open spec fn strategy_root(s: SampleStrategy, path: Seq<char>, k: KnownModel) -> Option<Seq<char>> {
    match s {
        SampleStrategy::ChromiumProfile => match holder(path, local_state(), 8, k.files) {
            Some(d) => Some(d),
            None => match topmost(ancestors(path), Mark::Profile) {
                Some(a) => parent_of(a),
                None => None,
            },
        },
        SampleStrategy::MacosLibraryApp => match topmost(ancestors(path), Mark::App) {
            Some(a) => Some(a),
            None => find_some(ancestors(path), if_marked(Mark::Web)),
        },
    }
}

fn sample_root(s: SampleStrategy, path: &str, known: &Known) -> (r: Option<String>)
    ensures
        view_of(r) == strategy_root(s, path@, known@),
{
    match s {
        SampleStrategy::ChromiumProfile => {
            let mark = text::texts1("Local State");
            assert(views(mark@) =~= local_state());
            match ancestor_with_any_file(path, &mark, 8, &known.files) {
                Some(d) => Some(d),
                None => match topmost_path(path, &Mark::Profile) {
                    Some(a) => paths::parent(a.as_str()),
                    None => None,
                },
            }
        },
        SampleStrategy::MacosLibraryApp => match topmost_path(path, &Mark::App) {
            Some(a) => Some(a),
            None => nearest_path(path, &Mark::Web),
        },
    }
}

/// The path under which a path is shown: where the strategy says, then at the
/// nearest directory that holds one of the files, then at the marked directory
/// furthest up, else as it is.
pub open spec fn sample_of(c: Option<CompiledContext>, path: Seq<char>, k: KnownModel) -> Seq<char> {
    match c {
        None => path,
        Some(c) => {
            let by_strategy = match c.sample_strategy {
                Some(s) => strategy_root(s, path, k),
                None => None,
            };
            let by_file = if c.sample_ancestor_files_any@.len() > 0 {
                holder(path, views(c.sample_ancestor_files_any@), c.sample_ancestor_depth, k.files)
            } else {
                None
            };
            let by_name = match c.sample_parent_any {
                Some(s) => topmost(ancestors(path), Mark::Globs(&s)),
                None => None,
            };
            match by_strategy {
                Some(p) => p,
                None => match by_file {
                    Some(p) => p,
                    None => match by_name {
                        Some(p) => p,
                        None => path,
                    },
                },
            }
        },
    }
}

/// The path under which a path is shown.
pub fn sample_path_for(context: Option<&CompiledContext>, path: &str, known: &Known) -> (r: String)
    ensures
        r@ == sample_of(
            match context {
                Some(c) => Some(*c),
                None => None,
            },
            path@,
            known@,
        ),
{
    if let Some(c) = context {
        if let Some(s) = c.sample_strategy {
            if let Some(p) = sample_root(s, path, known) {
                return p;
            }
        }
        if c.sample_ancestor_files_any.len() > 0 {
            if let Some(p) = ancestor_with_any_file(
                path,
                &c.sample_ancestor_files_any,
                c.sample_ancestor_depth,
                &known.files,
            ) {
                return p;
            }
        }
        if let Some(s) = &c.sample_parent_any {
            if let Some(p) = topmost_path(path, &Mark::Globs(s)) {
                return p;
            }
        }
    }
    path.to_owned()
}

// ---- samples ----

/// Whether one of the samples of a rule covers a path.
pub open spec fn covered(samples: Seq<SampleModel>, path: Seq<char>, rule_index: int) -> bool {
    exists|i: int|
    0 <= i < samples.len() && (#[trigger] samples[i]).rule_index == rule_index && under(
        path,
        samples[i].path,
    )
}

/// A sample that a path of a rule does not cover.
pub open spec fn if_outside(path: Seq<char>, rule_index: int) -> spec_fn(SampleModel) -> Option<
SampleModel,
> {
    |s: SampleModel|
    if s.rule_index == rule_index && under(s.path, path) {
        None
    } else {
        Some(s)
    }
}

/// The samples with one more: it takes the place of those that it covers, and is
/// left out where it is covered itself or there are enough.
pub open spec fn with_sample(samples: Seq<SampleModel>, s: SampleModel, max: int) -> Seq<SampleModel> {
    let kept = collect_some(samples, if_outside(s.path, s.rule_index));
    if max == 0 || covered(samples, s.path, s.rule_index) {
        samples
    } else if kept.len() >= max {
        kept
    } else {
        kept.push(s)
    }
}

proof fn lemma_kept_samples(samples: Seq<SampleMatch>, stays: Seq<bool>, path: Seq<char>, rule_index: int, n: int)
    requires
        samples.len() == stays.len(),
        0 <= n <= samples.len(),
        forall|i: int|
        0 <= i < samples.len() ==> #[trigger] stays[i] == !(samples[i].rule_index == rule_index
                && under(samples[i].path@, path)),
    ensures
        views(collect_some(paired(samples, stays).take(n), if_stays::<SampleMatch>())) == collect_some(
            views(samples).take(n),
            if_outside(path, rule_index),
        ),
    decreases n,
{
    let p = paired(samples, stays);
    let v = views(samples);
    if n > 0 {
        lemma_kept_samples(samples, stays, path, rule_index, n - 1);
        lemma_collect_step(p, n - 1, if_stays::<SampleMatch>());
        lemma_collect_step(v, n - 1, if_outside(path, rule_index));
        assert(p[n - 1] == (samples[n - 1], stays[n - 1]));
        assert(v[n - 1] == samples[n - 1]@);
    } else {
        assert(p.take(0) =~= Seq::<(SampleMatch, bool)>::empty());
        assert(v.take(0) =~= Seq::<SampleModel>::empty());
        assert(views(Seq::<SampleMatch>::empty()) =~= Seq::<SampleModel>::empty());
    }
}

/// Adds a sample to those of the first paths.
pub fn add_sample_first_mode(samples: Vec<SampleMatch>, sample: SampleMatch, max_samples: usize) -> (r: Vec<
    SampleMatch,
    >)
    ensures
        views(r@) == with_sample(views(samples@), sample@, max_samples as int),
{
    if max_samples == 0 {
        return samples;
    }
    let ghost all = views(samples@);
    let rule_index: usize = sample.rule_index;
    let mut stays: Vec<bool> = Vec::new();
    let mut i: usize = 0;
    while i < samples.len()
        invariant
            i <= samples@.len(),
            all == views(samples@),
            rule_index == sample.rule_index,
            stays@.len() == i,
            forall|j: int|
            0 <= j < i ==> !((#[trigger] all[j]).rule_index == rule_index && under(sample.path@, all[j].path)),
            forall|j: int|
            0 <= j < i ==> #[trigger] stays@[j] == !(samples@[j].rule_index == rule_index && under(
                    samples@[j].path@,
                    sample.path@,
            )),
            max_samples > 0,
        decreases samples@.len() - i,
    {
        assert(all[i as int] == samples@[i as int]@);
        let own = samples[i].rule_index == rule_index;
        if own && paths::starts_with(sample.path.as_str(), samples[i].path.as_str()) {
            assert(covered(all, sample.path@, rule_index as int));
            return samples;
        }
        stays.push(!(own && paths::starts_with(samples[i].path.as_str(), sample.path.as_str())));
        i += 1;
    }
    proof {
        lemma_kept_samples(samples@, stays@, sample.path@, rule_index as int, samples@.len() as int);
        assert(paired(samples@, stays@).take(samples@.len() as int) =~= paired(samples@, stays@));
        assert(all.take(samples@.len() as int) =~= all);
    }
    let mut kept = keep(samples, &stays);
    if kept.len() < max_samples {
        kept.push(sample);
    }
    kept
}

/// Whether one of the paths covers a path.
pub open spec fn path_covered(samples: Seq<PathModel>, path: Seq<char>) -> bool {
    exists|i: int| 0 <= i < samples.len() && under(path, (#[trigger] samples[i]).path)
}

/// A sample that a path does not cover.
pub open spec fn if_path_outside(path: Seq<char>) -> spec_fn(PathModel) -> Option<PathModel> {
    |s: PathModel|
    if under(s.path, path) {
        None
    } else {
        Some(s)
    }
}

/// The samples with one more: it takes the place of those that it covers, and is
/// left out where it is covered itself or there are enough.
pub open spec fn with_path(samples: Seq<PathModel>, s: PathModel, max: int) -> Seq<PathModel> {
    let kept = collect_some(samples, if_path_outside(s.path));
    if max == 0 || path_covered(samples, s.path) {
        samples
    } else if kept.len() >= max {
        kept
    } else {
        kept.push(s)
    }
}

proof fn lemma_kept_paths(samples: Seq<SamplePath>, stays: Seq<bool>, path: Seq<char>, n: int)
    requires
        samples.len() == stays.len(),
        0 <= n <= samples.len(),
        forall|i: int|
        0 <= i < samples.len() ==> #[trigger] stays[i] == !under(samples[i].path@, path),
    ensures
        views(collect_some(paired(samples, stays).take(n), if_stays::<SamplePath>())) == collect_some(
            views(samples).take(n),
            if_path_outside(path),
        ),
    decreases n,
{
    let p = paired(samples, stays);
    let v = views(samples);
    if n > 0 {
        lemma_kept_paths(samples, stays, path, n - 1);
        lemma_collect_step(p, n - 1, if_stays::<SamplePath>());
        lemma_collect_step(v, n - 1, if_path_outside(path));
        assert(p[n - 1] == (samples[n - 1], stays[n - 1]));
        assert(v[n - 1] == samples[n - 1]@);
    } else {
        assert(p.take(0) =~= Seq::<(SamplePath, bool)>::empty());
        assert(v.take(0) =~= Seq::<PathModel>::empty());
        assert(views(Seq::<SamplePath>::empty()) =~= Seq::<PathModel>::empty());
    }
}

/// Adds a sample to those that git ignores.
pub fn add_git_ignored_sample(samples: Vec<SamplePath>, sample: SamplePath, max_samples: usize) -> (r: Vec<
    SamplePath,
    >)
    ensures
        views(r@) == with_path(views(samples@), sample@, max_samples as int),
{
    if max_samples == 0 {
        return samples;
    }
    let ghost all = views(samples@);
    let mut stays: Vec<bool> = Vec::new();
    let mut i: usize = 0;
    while i < samples.len()
        invariant
            i <= samples@.len(),
            all == views(samples@),
            stays@.len() == i,
            forall|j: int| 0 <= j < i ==> !under(sample.path@, (#[trigger] all[j]).path),
            forall|j: int|
            0 <= j < i ==> #[trigger] stays@[j] == !under(samples@[j].path@, sample.path@),
            max_samples > 0,
        decreases samples@.len() - i,
    {
        assert(all[i as int] == samples@[i as int]@);
        if paths::starts_with(sample.path.as_str(), samples[i].path.as_str()) {
            assert(path_covered(all, sample.path@));
            return samples;
        }
        stays.push(!paths::starts_with(samples[i].path.as_str(), sample.path.as_str()));
        i += 1;
    }
    proof {
        lemma_kept_paths(samples@, stays@, sample.path@, samples@.len() as int);
        assert(paired(samples@, stays@).take(samples@.len() as int) =~= paired(samples@, stays@));
        assert(all.take(samples@.len() as int) =~= all);
    }
    let mut kept = keep(samples, &stays);
    if kept.len() < max_samples {
        kept.push(sample);
    }
    kept
}

// ---- the largest paths ----

/// Where a list holds a path, if it does.
pub open spec fn place_of(list: Seq<PathModel>, path: Seq<char>) -> int
    decreases list.len(),
{
    if list.len() == 0 {
        0
    } else if equal_paths(list[0].path, path) {
        0
    } else {
        1 + place_of(list.skip(1), path)
    }
}

/// A list of paths in which a path holds so many bytes more.
pub open spec fn with_bytes(list: Seq<PathModel>, path: Seq<char>, bytes: u64) -> Seq<PathModel> {
    let i = place_of(list, path);
    if i < list.len() {
        list.update(i, PathModel { path: list[i].path, bytes: capped_sum(list[i].bytes, bytes) })
    } else {
        list.push(PathModel { path, bytes })
    }
}

fn find_place(list: &Vec<SamplePath>, path: &str) -> (r: usize)
    ensures
        r == place_of(views(list@), path@),
        r <= list@.len(),
{
    let ghost all = views(list@);
    let mut i: usize = 0;
    assert(all.skip(0) =~= all);
    while i < list.len()
        invariant
            i <= list@.len(),
            all == views(list@),
            place_of(all, path@) == i + place_of(all.skip(i as int), path@),
        decreases list@.len() - i,
    {
        assert(all[i as int] == list@[i as int]@);
        assert(all.skip(i as int)[0] == all[i as int]);
        assert(all.skip(i as int).skip(1) =~= all.skip(i + 1));
        if paths::same_path(list[i].path.as_str(), path) {
            return i;
        }
        i += 1;
    }
    i
}

fn add_bytes(list: &mut Vec<SamplePath>, path: String, bytes: u64)
    ensures
        views(final(list)@) == with_bytes(views(old(list)@), path@, bytes),
{
    let ghost before = list@;
    let ghost all = views(list@);
    let i = find_place(list, path.as_str());
    let ghost text = path@;
    if i < list.len() {
        assert(all[i as int] == before[i as int]@);
        let sum = plus(list[i].bytes, bytes);
        let key = list[i].path.clone();
        list.set(i, SamplePath { path: key, bytes: sum });
        assert(views(list@) =~= with_bytes(all, text, bytes));
    } else {
        list.push(SamplePath { path, bytes });
        assert(views(list@) =~= with_bytes(all, text, bytes));
    }
}

/// Numbers that rank paths by size, the smallest first.
pub open spec fn small_first(list: Seq<PathModel>) -> Seq<u64> {
    list.map_values(|p: PathModel| (u64::MAX - p.bytes) as u64)
}

/// The positions of paths, the smallest path first, equal ones in their order.
pub open spec fn by_size(list: Seq<PathModel>) -> Seq<usize> {
    choose|r: Seq<usize>| is_ranking(small_first(list), r)
}

/// The paths that are left once the smallest, by a percentage, are gone.
pub open spec fn above_bottom(list: Seq<PathModel>, percent: Option<u8>) -> Seq<PathModel> {
    match percent {
        None => list,
        Some(p) => if p == 0 {
            list
        } else if p >= 100 || percent_of(list.len(), p as nat) >= list.len() {
            Seq::empty()
        } else {
            by_size(list).skip(percent_of(list.len(), p as nat) as int).map_values(|i: usize| list[i as int])
        },
    }
}

fn drop_smallest(list: Vec<SamplePath>, percent: Option<u8>) -> (r: Vec<SamplePath>)
    ensures
        views(r@) == above_bottom(views(list@), percent),
{
    let ghost all = views(list@);
    let p: u8 = match percent {
        None => 0,
        Some(p) => p,
    };
    if p == 0 {
        return list;
    }
    if p >= 100 {
        let r: Vec<SamplePath> = Vec::new();
        assert(views(r@) =~= Seq::<PathModel>::empty());
        return r;
    }
    let n: usize = list.len();
    let d: u128 = percent_floor(n as u64, p);
    if d >= n as u128 {
        let r: Vec<SamplePath> = Vec::new();
        assert(views(r@) =~= Seq::<PathModel>::empty());
        return r;
    }
    let mut keys: Vec<u64> = Vec::new();
    let mut i: usize = 0;
    while i < n
        invariant
            i <= n,
            n == list@.len(),
            all == views(list@),
            keys@ == small_first(all).take(i as int),
        decreases n - i,
    {
        assert(all[i as int] == list@[i as int]@);
        keys.push(u64::MAX - list[i].bytes);
        assert(keys@ =~= small_first(all).take(i + 1));
        i += 1;
    }
    assert(keys@ =~= small_first(all));
    let order = sorting::ranking(&keys);
    proof {
        law_ranking_unique(small_first(all), order@, by_size(all));
    }
    let first: usize = d as usize;
    let ghost f = |i: usize| all[i as int];
    let mut r: Vec<SamplePath> = Vec::new();
    let mut k: usize = first;
    assert(views(r@) =~= order@.subrange(first as int, first as int).map_values(f));
    while k < n
        invariant
            first <= k <= n,
            n == list@.len(),
            n == order@.len(),
            all == views(list@),
            is_ranking(small_first(all), order@),
            f == (|i: usize| all[i as int]),
            views(r@) == order@.subrange(first as int, k as int).map_values(f),
        decreases n - k,
    {
        let at: usize = order[k];
        assert(at < small_first(all).len());
        assert(all[at as int] == list@[at as int]@);
        r.push(SamplePath { path: list[at].path.clone(), bytes: list[at].bytes });
        assert(r@.last()@ =~= all[at as int]);
        assert(views(r@) =~= order@.subrange(first as int, k + 1).map_values(f));
        k += 1;
    }
    assert(order@.subrange(first as int, n as int) =~= order@.skip(first as int));
    assert(order@.skip(first as int).map_values(f) =~= above_bottom(all, percent));
    r
}

/// Whether a path comes before another: the larger first, equal ones by path.
pub open spec fn larger(a: PathModel, b: PathModel) -> bool {
    a.bytes > b.bytes || (a.bytes == b.bytes && path_before(a.path, b.path))
}

/// Whether paths stand in the order of their size.
pub open spec fn largest_first(s: Seq<PathModel>) -> bool {
    forall|i: int, j: int| 0 <= i < j < s.len() ==> !larger(#[trigger] s[j], #[trigger] s[i])
}

fn is_larger(a: &SamplePath, b: &SamplePath) -> (r: bool)
    ensures
        r == larger(a@, b@),
{
    a.bytes > b.bytes || (a.bytes == b.bytes && sorting::path_comes_first(a.path.as_str(), b.path.as_str()))
}

proof fn lemma_larger(a: PathModel, b: PathModel, c: PathModel)
    ensures
        !larger(a, a),
        larger(a, b) && larger(b, c) ==> larger(a, c),
{
    sorting::lemma_path_before(a.path, b.path, c.path);
}

fn insert_by_size(list: &mut Vec<SamplePath>, item: SamplePath)
    requires
        largest_first(views(old(list)@)),
    ensures
        largest_first(views(final(list)@)),
        views(final(list)@).to_multiset() == views(old(list)@).to_multiset().insert(item@),
{
    broadcast use vstd::seq_lib::group_to_multiset_ensures;

    let ghost before = views(list@);
    let mut i: usize = 0;
    while i < list.len() && !is_larger(&item, &list[i])
        invariant
            i <= list@.len(),
            before == views(list@),
            forall|j: int| 0 <= j < i ==> !larger(item@, #[trigger] before[j]),
        decreases list@.len() - i,
    {
        assert(before[i as int] == list@[i as int]@);
        i += 1;
    }
    assert(i < list@.len() ==> before[i as int] == list@[i as int]@);
    let ghost new = item@;
    let ghost old_list = list@;
    list.insert(i, item);
    let ghost after = views(list@);
    proof {
        assert(after =~= before.insert(i as int, new)) by {
            assert forall|k: int| 0 <= k < after.len() implies after[k] == before.insert(i as int, new)[k] by {
                assert(after[k] == list@[k]@);
                if k < i {
                    assert(list@[k] == old_list[k]);
                } else if k > i {
                    assert(list@[k] == old_list[k - 1]);
                }
            }
        }
        assert forall|a: int, b: int| 0 <= a < b < after.len() implies !larger(
            #[trigger] after[b],
            #[trigger] after[a],
        ) by {
            let x = if a < i {
                a
            } else {
                a - 1
            };
            let y = if b < i {
                b
            } else {
                b - 1
            };
            if a == i {
                lemma_larger(before[y], new, before[i as int]);
                lemma_larger(new, before[i as int], new);
                lemma_larger(before[i as int], before[i as int], before[i as int]);
            } else if b != i {
                assert(!larger(before[y], before[x]));
            }
        }
        vstd::seq_lib::to_multiset_insert(before, i as int, new);
    }
}

fn sort_by_size(list: Vec<SamplePath>) -> (r: Vec<SamplePath>)
    ensures
        largest_first(views(r@)),
        views(r@).to_multiset() == views(list@).to_multiset(),
{
    let ghost all = views(list@);
    let mut out: Vec<SamplePath> = Vec::new();
    let mut i: usize = 0;
    assert(views(out@) =~= all.take(0));
    while i < list.len()
        invariant
            i <= list@.len(),
            all == views(list@),
            largest_first(views(out@)),
            views(out@).to_multiset() == all.take(i as int).to_multiset(),
        decreases list@.len() - i,
    {
        broadcast use vstd::seq_lib::group_to_multiset_ensures;

        assert(all[i as int] == list@[i as int]@);
        assert(all.take(i + 1) =~= all.take(i as int).push(all[i as int]));
        let item = SamplePath { path: list[i].path.clone(), bytes: list[i].bytes };
        assert(item@ =~= all[i as int]);
        insert_by_size(&mut out, item);
        i += 1;
    }
    assert(all.take(i as int) =~= all);
    out
}

/// The first paths that none of those taken before them covers, up to a number.
pub open spec fn picked(s: Seq<PathModel>, max: int) -> Seq<PathModel>
    decreases s.len(),
{
    if s.len() == 0 {
        Seq::empty()
    } else {
        let rest = picked(s.drop_last(), max);
        if rest.len() >= max || path_covered(rest, s.last().path) {
            rest
        } else {
            rest.push(s.last())
        }
    }
}

/// Whether `r` shows the largest of the paths: those that are left once the
/// smallest are gone, the largest first, none within one that is shown.
pub open spec fn shows_largest(list: Seq<PathModel>, percent: Option<u8>, max: int, r: Seq<PathModel>) -> bool {
    exists|p: Seq<PathModel>| #[trigger]
    largest_first(p) && p.to_multiset() == above_bottom(list, percent).to_multiset() && r == picked(p, max)
}

fn is_covered(samples: &Vec<SamplePath>, path: &str) -> (r: bool)
    ensures
        r == path_covered(views(samples@), path@),
{
    let ghost all = views(samples@);
    let mut i: usize = 0;
    while i < samples.len()
        invariant
            i <= samples@.len(),
            all == views(samples@),
            forall|j: int| 0 <= j < i ==> !under(path@, (#[trigger] all[j]).path),
        decreases samples@.len() - i,
    {
        assert(all[i as int] == samples@[i as int]@);
        if paths::starts_with(path, samples[i].path.as_str()) {
            assert(path_covered(all, path@));
            return true;
        }
        i += 1;
    }
    false
}

/// The largest of some paths.
pub fn build_largest_paths(sample_bytes: Vec<SamplePath>, max_samples: usize, bottom_percent: Option<u8>) -> (r:
    Vec<SamplePath>)
    ensures
        shows_largest(views(sample_bytes@), bottom_percent, max_samples as int, views(r@)),
{
    let ghost all = views(sample_bytes@);
    let left = drop_smallest(sample_bytes, bottom_percent);
    let sorted = sort_by_size(left);
    let ghost p = views(sorted@);
    let mut out: Vec<SamplePath> = Vec::new();
    let mut i: usize = 0;
    assert(views(out@) =~= picked(p.take(0), max_samples as int));
    while i < sorted.len()
        invariant
            i <= sorted@.len(),
            p == views(sorted@),
            views(out@) == picked(p.take(i as int), max_samples as int),
        decreases sorted@.len() - i,
    {
        assert(p.take(i + 1).drop_last() =~= p.take(i as int));
        assert(p[i as int] == sorted@[i as int]@);
        if out.len() < max_samples && !is_covered(&out, sorted[i].path.as_str()) {
            let item = SamplePath { path: sorted[i].path.clone(), bytes: sorted[i].bytes };
            assert(item@ =~= p[i as int]);
            out.push(item);
        }
        i += 1;
    }
    assert(p.take(i as int) =~= p);
    assert(largest_first(p));
    out
}

/// Samples of a rule, one for each path.
pub open spec fn tagged(s: Seq<PathModel>, rule_index: int) -> Seq<SampleModel> {
    s.map_values(|p: PathModel| SampleModel { path: p.path, bytes: p.bytes, rule_index })
}

/// The paths of each rule, one rule behind the other.
pub open spec fn joined(lists: Seq<Seq<PathModel>>) -> Seq<SampleModel>
    decreases lists.len(),
{
    if lists.len() == 0 {
        Seq::empty()
    } else {
        joined(lists.drop_last()) + tagged(lists.last(), lists.len() - 1)
    }
}

/// Whether each list shows the largest paths of its rule.
pub open spec fn each_largest(
    sums: Seq<Seq<PathModel>>,
    percent: Option<u8>,
    max: int,
    lists: Seq<Seq<PathModel>>,
) -> bool {
    lists.len() == sums.len() && forall|i: int|
    0 <= i < sums.len() ==> shows_largest(sums[i], percent, max, #[trigger] lists[i])
}

/// Whether `r` shows the largest paths of each rule, rule by rule.
pub open spec fn shows_rules(
    sums: Seq<Seq<PathModel>>,
    percent: Option<u8>,
    max: int,
    r: Seq<SampleModel>,
) -> bool {
    exists|lists: Seq<Seq<PathModel>>| #[trigger]
    each_largest(sums, percent, max, lists) && r == joined(lists)
}

/// The lists of paths of each rule.
pub open spec fn sums_of(s: Seq<Vec<SamplePath>>) -> Seq<Seq<PathModel>> {
    s.map_values(|l: Vec<SamplePath>| views(l@))
}

/// The largest paths of each rule, rule by rule.
pub fn build_largest_samples(
    sample_bytes: &Vec<Vec<SamplePath>>,
    max_samples: usize,
    bottom_percent: Option<u8>,
) -> (r: Vec<SampleMatch>)
    ensures
        shows_rules(sums_of(sample_bytes@), bottom_percent, max_samples as int, views(r@)),
{
    let ghost sums = sums_of(sample_bytes@);
    let ghost max = max_samples as int;
    let ghost mut lists: Seq<Seq<PathModel>> = Seq::empty();
    let mut out: Vec<SampleMatch> = Vec::new();
    let mut i: usize = 0;
    assert(sums.take(0) =~= Seq::<Seq<PathModel>>::empty());
    assert(views(out@) =~= joined(lists));
    while i < sample_bytes.len()
        invariant
            i <= sample_bytes@.len(),
            sums == sums_of(sample_bytes@),
            max == max_samples,
            each_largest(sums.take(i as int), bottom_percent, max, lists),
            views(out@) == joined(lists),
        decreases sample_bytes@.len() - i,
    {
        let ghost head = views(out@);
        let list = copy_paths(&sample_bytes[i]);
        let own = build_largest_paths(list, max_samples, bottom_percent);
        let ghost shown = views(own@);
        assert(sums[i as int] == views(list@));
        let mut j: usize = 0;
        assert(tagged(shown, i as int).take(0) =~= Seq::<SampleModel>::empty());
        assert(views(out@) =~= head + tagged(shown, i as int).take(0));
        while j < own.len()
            invariant
                j <= own@.len(),
                shown == views(own@),
                views(out@) == head + tagged(shown, i as int).take(j as int),
            decreases own@.len() - j,
        {
            assert(shown[j as int] == own@[j as int]@);
            let item = SampleMatch { path: own[j].path.clone(), bytes: own[j].bytes, rule_index: i };
            assert(item@ =~= tagged(shown, i as int)[j as int]);
            out.push(item);
            assert(views(out@) =~= head + tagged(shown, i as int).take(j + 1));
            j += 1;
        }
        assert(tagged(shown, i as int).take(j as int) =~= tagged(shown, i as int));
        proof {
            let more = lists.push(shown);
            assert(more.drop_last() =~= lists);
            assert forall|k: int| 0 <= k <= i implies shows_largest(
                sums.take(i + 1)[k],
                bottom_percent,
                max,
                #[trigger] more[k],
            ) by {
                if k < i {
                    assert(shows_largest(sums.take(i as int)[k], bottom_percent, max, lists[k]));
                }
            }
            lists = more;
        }
        i += 1;
    }
    assert(sums.take(i as int) =~= sums);
    out
}

fn copy_paths(list: &Vec<SamplePath>) -> (r: Vec<SamplePath>)
    ensures
        views(r@) == views(list@),
{
    let mut r: Vec<SamplePath> = Vec::new();
    let mut i: usize = 0;
    while i < list.len()
        invariant
            i <= list@.len(),
            views(r@) == views(list@).take(i as int),
        decreases list@.len() - i,
    {
        let item = SamplePath { path: list[i].path.clone(), bytes: list[i].bytes };
        assert(item@ =~= views(list@)[i as int]);
        r.push(item);
        assert(views(r@) =~= views(list@).take(i + 1));
        i += 1;
    }
    assert(views(list@).take(i as int) =~= views(list@));
    r
}

// ---- the state of a scan ----

/// What a scan has found so far.
pub struct ScanState {
    pub totals: Vec<RuleTotals>,
    pub samples: Vec<SampleMatch>,
    pub max_samples: usize,
    pub sample_mode: SampleMode,
    pub sample_bottom_percent: Option<u8>,
    pub sample_bytes: Vec<Vec<SamplePath>>,
    pub git_ignored: GitIgnoredTotals,
    pub git_ignored_samples: Vec<SamplePath>,
    pub git_ignored_sample_bytes: Vec<SamplePath>,
    pub gitignore_enabled: bool,
}

#[verifier::ext_equal]
pub struct ScanModel {
    pub totals: Seq<RuleTotals>,
    pub samples: Seq<SampleModel>,
    pub max_samples: int,
    pub sample_mode: SampleMode,
    pub sample_bottom_percent: Option<u8>,
    pub sample_bytes: Seq<Seq<PathModel>>,
    pub git_ignored: GitIgnoredTotals,
    pub git_ignored_samples: Seq<PathModel>,
    pub git_ignored_sample_bytes: Seq<PathModel>,
    pub gitignore_enabled: bool,
}

impl View for ScanState {
    type V = ScanModel;

    open spec fn view(&self) -> ScanModel {
        ScanModel {
            totals: self.totals@,
            samples: views(self.samples@),
            max_samples: self.max_samples as int,
            sample_mode: self.sample_mode,
            sample_bottom_percent: self.sample_bottom_percent,
            sample_bytes: sums_of(self.sample_bytes@),
            git_ignored: self.git_ignored,
            git_ignored_samples: views(self.git_ignored_samples@),
            git_ignored_sample_bytes: views(self.git_ignored_sample_bytes@),
            gitignore_enabled: self.gitignore_enabled,
        }
    }
}

/// A scan that has found nothing yet.
pub open spec fn fresh(
    rules: nat,
    max_samples: int,
    gitignore_enabled: bool,
    mode: SampleMode,
    percent: Option<u8>,
) -> ScanModel {
    ScanModel {
        totals: Seq::new(rules, |i: int| no_totals()),
        samples: Seq::empty(),
        max_samples,
        sample_mode: mode,
        sample_bottom_percent: percent,
        sample_bytes: Seq::new(rules, |i: int| Seq::<PathModel>::empty()),
        git_ignored: nothing_ignored(),
        git_ignored_samples: Seq::empty(),
        git_ignored_sample_bytes: Seq::empty(),
        gitignore_enabled,
    }
}

/// Whether a state has a place for each of so many rules.
pub open spec fn serves(s: ScanModel, rules: nat) -> bool {
    s.totals.len() == rules && s.sample_bytes.len() == rules
}

/// Whether one more of everything can still be counted.
pub open spec fn has_room(s: ScanModel) -> bool {
    &&& forall|i: int|
    0 <= i < s.totals.len() ==> (#[trigger] s.totals[i]).file_count < u64::MAX
        && s.totals[i].dir_count < u64::MAX
    &&& s.git_ignored.file_count < u64::MAX
    &&& s.git_ignored.dir_count < u64::MAX
}

/// Totals with one more file or directory.
pub open spec fn one_more(t: RuleTotals, bytes: u64, is_dir: bool) -> RuleTotals {
    if is_dir {
        RuleTotals { bytes: t.bytes, file_count: t.file_count, dir_count: (t.dir_count + 1) as u64 }
    } else {
        RuleTotals {
            bytes: capped_sum(t.bytes, bytes),
            file_count: (t.file_count + 1) as u64,
            dir_count: t.dir_count,
        }
    }
}

/// The rule that a path counts for: the one that it matches, where its context
/// allows it.
pub open spec fn matched_rule(rules: Seq<CompiledRule>, path: Seq<char>, k: KnownModel) -> Option<int> {
    match best_rule(rules, path, rules.len() as int) {
        Some(i) => match rules[i].context {
            Some(c) => if allows(c, path, k) {
                Some(i)
            } else {
                None
            },
            None => Some(i),
        },
        None => None,
    }
}

/// The state once a path was recorded.
pub open spec fn after_match(
    s: ScanModel,
    rules: Seq<CompiledRule>,
    path: Seq<char>,
    bytes: u64,
    is_dir: bool,
    k: KnownModel,
) -> ScanModel {
    match matched_rule(rules, path, k) {
        None => s,
        Some(i) => {
            let shown = sample_of(rules[i].context, path, k);
            ScanModel {
                totals: s.totals.update(i, one_more(s.totals[i], bytes, is_dir)),
                samples: if s.sample_mode == SampleMode::First {
                    with_sample(
                        s.samples,
                        SampleModel { path: shown, bytes: 0, rule_index: i },
                        s.max_samples,
                    )
                } else {
                    s.samples
                },
                sample_bytes: if s.sample_mode == SampleMode::Largest {
                    s.sample_bytes.update(i, with_bytes(s.sample_bytes[i], shown, bytes))
                } else {
                    s.sample_bytes
                },
                ..s
            }
        },
    }
}

/// The state once something that git ignores was recorded.
pub open spec fn after_ignored(s: ScanModel, path: Seq<char>, bytes: u64, is_dir: bool) -> ScanModel {
    if !s.gitignore_enabled {
        s
    } else {
        ScanModel {
            git_ignored: if is_dir {
                GitIgnoredTotals { dir_count: (s.git_ignored.dir_count + 1) as u64, ..s.git_ignored }
            } else {
                GitIgnoredTotals {
                    bytes: capped_sum(s.git_ignored.bytes, bytes),
                    file_count: (s.git_ignored.file_count + 1) as u64,
                    ..s.git_ignored
                }
            },
            git_ignored_samples: if s.sample_mode == SampleMode::First {
                with_path(s.git_ignored_samples, PathModel { path, bytes }, s.max_samples)
            } else {
                s.git_ignored_samples
            },
            git_ignored_sample_bytes: if s.sample_mode == SampleMode::Largest {
                with_bytes(s.git_ignored_sample_bytes, path, bytes)
            } else {
                s.git_ignored_sample_bytes
            },
            ..s
        }
    }
}

/// Whether a result is what a state comes to.
pub open spec fn comes_to(s: ScanModel, r: ScanResult) -> bool {
    &&& r.totals@ == s.totals
    &&& if s.sample_mode == SampleMode::Largest {
        &&& shows_rules(s.sample_bytes, s.sample_bottom_percent, s.max_samples, views(r.samples@))
        &&& shows_largest(
            s.git_ignored_sample_bytes,
            s.sample_bottom_percent,
            s.max_samples,
            views(r.git_ignored_samples@),
        )
    } else {
        &&& views(r.samples@) == s.samples
        &&& views(r.git_ignored_samples@) == s.git_ignored_samples
    }
    &&& r.git_ignored == if s.gitignore_enabled {
        Some(s.git_ignored)
    } else {
        None
    }
}

impl ScanState {
    /// A scan that has found nothing yet.
    pub fn new(
        rule_len: usize,
        max_samples: usize,
        gitignore_enabled: bool,
        sample_mode: SampleMode,
        sample_bottom_percent: Option<u8>,
    ) -> (r: Self)
        ensures
            r@ == fresh(
                rule_len as nat,
                max_samples as int,
                gitignore_enabled,
                sample_mode,
                sample_bottom_percent,
            ),
            serves(r@, rule_len as nat),
            has_room(r@),
    {
        let mut totals: Vec<RuleTotals> = Vec::new();
        let mut sample_bytes: Vec<Vec<SamplePath>> = Vec::new();
        let mut i: usize = 0;
        while i < rule_len
            invariant
                i <= rule_len,
                totals@ == Seq::new(i as nat, |j: int| no_totals()),
                sample_bytes@.len() == i,
                forall|j: int| 0 <= j < i ==> (#[trigger] sample_bytes@[j])@.len() == 0,
            decreases rule_len - i,
        {
            totals.push(RuleTotals { bytes: 0, file_count: 0, dir_count: 0 });
            assert(totals@ =~= Seq::new((i + 1) as nat, |j: int| no_totals()));
            sample_bytes.push(Vec::new());
            i += 1;
        }
        let r = ScanState {
            totals,
            samples: Vec::new(),
            max_samples,
            sample_mode,
            sample_bottom_percent,
            sample_bytes,
            git_ignored: GitIgnoredTotals { bytes: 0, file_count: 0, dir_count: 0 },
            git_ignored_samples: Vec::new(),
            git_ignored_sample_bytes: Vec::new(),
            gitignore_enabled,
        };
        proof {
            assert forall|j: int| 0 <= j < rule_len implies #[trigger] sums_of(r.sample_bytes@)[j] == Seq::<
            PathModel,
            >::empty() by {
                assert(r.sample_bytes@[j]@.len() == 0);
                assert(views(r.sample_bytes@[j]@) =~= Seq::<PathModel>::empty());
            }
            assert(r@.sample_bytes =~= Seq::new(rule_len as nat, |i: int| Seq::<PathModel>::empty()));
            assert(r@.samples =~= Seq::<SampleModel>::empty());
            assert(r@.git_ignored_samples =~= Seq::<PathModel>::empty());
            assert(r@.git_ignored_sample_bytes =~= Seq::<PathModel>::empty());
        }
        r
    }

    /// Whether one more of everything can still be counted.
    pub fn room_left(&self) -> (r: bool)
        ensures
            r == has_room(self@),
    {
        let mut i: usize = 0;
        while i < self.totals.len()
            invariant
                i <= self.totals@.len(),
                forall|j: int|
                0 <= j < i ==> (#[trigger] self.totals@[j]).file_count < u64::MAX
                    && self.totals@[j].dir_count < u64::MAX,
            decreases self.totals@.len() - i,
        {
            if self.totals[i].file_count == u64::MAX || self.totals[i].dir_count == u64::MAX {
                assert(!(self@.totals[i as int].file_count < u64::MAX && self@.totals[i as int].dir_count
                        < u64::MAX));
                return false;
            }
            i += 1;
        }
        self.git_ignored.file_count < u64::MAX && self.git_ignored.dir_count < u64::MAX
    }

    /// Records a path with the rule that it matches, and tells the rule.
    pub fn record_match(
        &mut self,
        matcher: &RuleMatcher,
        path: &str,
        bytes: u64,
        is_dir: bool,
        known: &Known,
    ) -> (r: Option<usize>)
        requires
            serves(old(self)@, matcher.rules@.len()),
            has_room(old(self)@),
        ensures
            serves(final(self)@, matcher.rules@.len()),
            final(self)@ == after_match(old(self)@, matcher.rules@, path@, bytes, is_dir, known@),
            match (r, matched_rule(matcher.rules@, path@, known@)) {
                (Some(a), Some(b)) => a == b && a < matcher.rules@.len(),
                (None, None) => true,
                _ => false,
            },
    {
        let i: usize = match matcher.match_path(path) {
            Some(m) => m.rule_index,
            None => {
                return None;
            },
        };
        let context = matcher.rule_context(i);
        if let Some(c) = context {
            if !context_allows(c, path, known) {
                return None;
            }
        }
        let ghost before = self@;
        let ghost sums = self.sample_bytes@;
        let t = self.totals[i];
        assert(before.totals[i as int] == t);
        let more = if is_dir {
            RuleTotals { bytes: t.bytes, file_count: t.file_count, dir_count: t.dir_count + 1 }
        } else {
            RuleTotals {
                bytes: plus(t.bytes, bytes),
                file_count: t.file_count + 1,
                dir_count: t.dir_count,
            }
        };
        self.totals.set(i, more);
        let shown = sample_path_for(context, path, known);
        let ghost text = shown@;
        match self.sample_mode {
            SampleMode::First => {
                let mut samples: Vec<SampleMatch> = Vec::new();
                std::mem::swap(&mut samples, &mut self.samples);
                let sample = SampleMatch { path: shown, bytes: 0, rule_index: i };
                assert(sample@ =~= (SampleModel { path: text, bytes: 0, rule_index: i as int }));
                self.samples = add_sample_first_mode(samples, sample, self.max_samples);
            },
            SampleMode::Largest => {
                assert(before.sample_bytes[i as int] == views(sums[i as int]@));
                add_bytes(&mut self.sample_bytes[i], shown, bytes);
                assert(self@.sample_bytes =~= before.sample_bytes.update(
                        i as int,
                        with_bytes(before.sample_bytes[i as int], text, bytes),
                ));
            },
        }
        assert(self@ =~= after_match(before, matcher.rules@, path@, bytes, is_dir, known@));
        Some(i)
    }

    /// Records something that git ignores.
    pub fn record_git_ignored(&mut self, path: String, bytes: u64, is_dir: bool)
        requires
            has_room(old(self)@),
        ensures
            final(self)@ == after_ignored(old(self)@, path@, bytes, is_dir),
            final(self).totals == old(self).totals,
            final(self).sample_bytes == old(self).sample_bytes,
    {
        if !self.gitignore_enabled {
            return;
        }
        let ghost before = self@;
        let ghost text = path@;
        if is_dir {
            self.git_ignored.dir_count = self.git_ignored.dir_count + 1;
        } else {
            self.git_ignored.file_count = self.git_ignored.file_count + 1;
            self.git_ignored.bytes = plus(self.git_ignored.bytes, bytes);
        }
        match self.sample_mode {
            SampleMode::First => {
                let mut samples: Vec<SamplePath> = Vec::new();
                std::mem::swap(&mut samples, &mut self.git_ignored_samples);
                let sample = SamplePath { path, bytes };
                assert(sample@ =~= (PathModel { path: text, bytes }));
                self.git_ignored_samples = add_git_ignored_sample(samples, sample, self.max_samples);
            },
            SampleMode::Largest => {
                add_bytes(&mut self.git_ignored_sample_bytes, path, bytes);
            },
        }
        assert(self@ =~= after_ignored(before, text, bytes, is_dir));
    }

    /// What the scan comes to.
    pub fn finish(self) -> (r: ScanResult)
        ensures
            comes_to(self@, r),
    {
        let git_ignored = if self.gitignore_enabled {
            Some(self.git_ignored)
        } else {
            None
        };
        match self.sample_mode {
            SampleMode::Largest => {
                let samples = build_largest_samples(
                    &self.sample_bytes,
                    self.max_samples,
                    self.sample_bottom_percent,
                );
                let git_ignored_samples = build_largest_paths(
                    self.git_ignored_sample_bytes,
                    self.max_samples,
                    self.sample_bottom_percent,
                );
                ScanResult { totals: self.totals, samples, git_ignored, git_ignored_samples }
            },
            SampleMode::First => ScanResult {
                totals: self.totals,
                samples: self.samples,
                git_ignored,
                git_ignored_samples: self.git_ignored_samples,
            },
        }
    }
}

/// Rules, and how to scan by them.
pub struct Scanner {
    pub matcher: RuleMatcher,
    pub options: ScanOptions,
}

impl Scanner {
    pub fn new(matcher: RuleMatcher, options: ScanOptions) -> (r: Self)
        ensures
            r.matcher == matcher,
            r.options == options,
    {
        Scanner { matcher, options }
    }

    /// The state that a scan starts from.
    pub fn start(&self) -> (r: ScanState)
        ensures
            r@ == fresh(
                self.matcher.rules@.len(),
                self.options.max_samples as int,
                self.options.gitignore is Some,
                self.options.sample_mode,
                self.options.sample_bottom_percent,
            ),
            serves(r@, self.matcher.rules@.len()),
            has_room(r@),
    {
        ScanState::new(
            self.matcher.len(),
            self.options.max_samples,
            self.options.gitignore.is_some(),
            self.options.sample_mode,
            self.options.sample_bottom_percent,
        )
    }

    /// The number of threads to scan with: as many as are asked for, or as there
    /// are, up to a limit.
    pub fn threads(&self, available: usize, limit: usize) -> (r: usize)
        ensures
            r == match self.options.threads {
                Some(n) => if n < limit {
                    n
                } else {
                    limit
                },
                None => if available < limit {
                    available
                } else {
                    limit
                },
            },
    {
        let n: usize = match self.options.threads {
            Some(n) => n,
            None => available,
        };
        if n < limit {
            n
        } else {
            limit
        }
    }
}

// ---- the entries of a directory ----

/// Remembers which files were counted.
pub struct SeenFiles {
    seen: HashSet<u128>,
}

impl View for SeenFiles {
    type V = Set<u128>;

    closed spec fn view(&self) -> Set<u128> {
        self.seen@
    }
}

/// What a file counts for: nothing where it was counted already. Files without a
/// key always count.
pub open spec fn counts_for(seen: Set<u128>, key: u128, bytes: u64) -> u64 {
    if key != 0 && seen.contains(key) {
        0
    } else {
        bytes
    }
}

/// The files that were counted, with one more.
pub open spec fn after_file(seen: Set<u128>, key: u128) -> Set<u128> {
    if key == 0 {
        seen
    } else {
        seen.insert(key)
    }
}

impl SeenFiles {
    pub fn new() -> (r: Self)
        ensures
            r@ == Set::<u128>::empty(),
    {
        SeenFiles { seen: HashSet::new() }
    }

    /// Returns `bytes` the first time a key is seen, 0 after.
    pub fn check_and_add_inode(&mut self, key: u128, bytes: u64) -> (r: u64)
        ensures
            r == counts_for(old(self)@, key, bytes),
            final(self)@ == after_file(old(self)@, key),
    {
        broadcast use vstd::std_specs::hash::group_hash_axioms;

        if key == 0 {
            return bytes;
        }
        if self.seen.insert(key) {
            bytes
        } else {
            assert(self.seen@ =~= after_file(old(self)@, key));
            0
        }
    }
}

/// The bytes that a file takes: its blocks, or its length where it has none.
pub fn file_size(blocks: u64, size: u64) -> (r: u64)
    ensures
        r == if blocks == 0 {
            size
        } else if blocks * 512 > u64::MAX {
            u64::MAX
        } else {
            (blocks * 512) as u64
        },
{
    if blocks == 0 {
        size
    } else if blocks > u64::MAX / 512 {
        u64::MAX
    } else {
        blocks * 512
    }
}

/// A directory as the start of the paths of what it holds.
pub open spec fn base_of(dir: Seq<char>) -> Seq<char> {
    if dir.len() > 0 && dir.last() == '/' {
        dir
    } else {
        dir + "/"@
    }
}

/// A directory as the start of the paths of what it holds.
pub fn base_path(dir: &str) -> (r: String)
    ensures
        r@ == base_of(dir@),
{
    proof {
        reveal_strlit("/");
    }
    if text::ends_with(dir, "/") {
        assert(dir@.len() > 0 && dir@.last() == '/') by {
            assert(dir@.subrange(dir@.len() - 1, dir@.len() as int)[0] == "/"@[0]);
        }
        dir.to_owned()
    } else {
        proof {
            if dir@.len() > 0 && dir@.last() == '/' {
                assert(dir@.subrange(dir@.len() - 1, dir@.len() as int) =~= "/"@);
            }
        }
        dir.to_owned().concat("/")
    }
}

/// An entry of a directory, as a scan meets it.
pub struct ScanEntry {
    pub name: String,
    pub is_dir: bool,
    /// Whether the entry leads elsewhere.
    pub is_reparse: bool,
    /// What it takes, where it is no directory.
    pub bytes: u64,
    /// What tells it from other files; 0 where nothing does.
    pub key: u128,
}

/// What git says of an entry.
pub struct GitVerdict {
    pub ignored: bool,
    pub protected: bool,
    /// The path furthest up that is ignored along with it.
    pub topmost: String,
}

/// What git says of an entry: it is ignored where its own rules say so, and where
/// it lies in a directory that is ignored, with the directory furthest up.
pub fn git_verdict(path: &str, above: &Option<String>, ignored_here: bool) -> (r: GitVerdict)
    ensures
        r.ignored == (*above is Some || ignored_here),
        !r.protected,
        r.topmost@ == match *above {
            Some(top) => top@,
            None => path@,
        },
{
    match above {
        Some(top) => GitVerdict { ignored: true, protected: false, topmost: top.clone() },
        None => GitVerdict { ignored: ignored_here, protected: false, topmost: path.to_owned() },
    }
}

/// What became of an entry.
pub struct Visited {
    pub matched: Option<usize>,
    /// Whether the scan goes into it.
    pub descend: bool,
}

/// The path of an entry.
pub open spec fn entry_path(dir: Seq<char>, e: ScanEntry) -> Seq<char> {
    base_of(dir) + e.name@
}

/// What an entry adds.
pub open spec fn entry_bytes(seen: Set<u128>, e: ScanEntry) -> u64 {
    if e.is_dir {
        0
    } else {
        counts_for(seen, e.key, e.bytes)
    }
}

/// Whether an entry counts as ignored: git ignores it and nothing protects it.
pub open spec fn counts_as_ignored(git: Option<GitVerdict>) -> bool {
    git matches Some(v) && v.ignored && !v.protected
}

/// The state once an entry was met. Git's own directory is passed over; what git
/// ignores and no rule matches is recorded as ignored.
pub open spec fn after_entry(
    s: ScanModel,
    seen: Set<u128>,
    rules: Seq<CompiledRule>,
    dir: Seq<char>,
    e: ScanEntry,
    git: Option<GitVerdict>,
    k: KnownModel,
) -> ScanModel {
    let path = entry_path(dir, e);
    let bytes = entry_bytes(seen, e);
    let matched = after_match(s, rules, path, bytes, e.is_dir, k);
    if e.name@ == ".git"@ {
        s
    } else if counts_as_ignored(git) && matched_rule(rules, path, k) is None {
        after_ignored(matched, git->0.topmost@, bytes, e.is_dir)
    } else {
        matched
    }
}

/// Meets an entry of a directory. `prune` says whether ignored directories are
/// left alone; `None` stands for an entry that is passed over.
pub fn visit_entry(
    state: &mut ScanState,
    seen: &mut SeenFiles,
    matcher: &RuleMatcher,
    dir: &str,
    entry: &ScanEntry,
    git: &Option<GitVerdict>,
    prune: bool,
    known: &Known,
) -> (r: Option<Visited>)
    requires
        serves(old(state)@, matcher.rules@.len()),
        has_room(old(state)@),
    ensures
        serves(final(state)@, matcher.rules@.len()),
        final(state)@ == after_entry(
            old(state)@,
            old(seen)@,
            matcher.rules@,
            dir@,
            *entry,
            *git,
            known@,
        ),
        final(seen)@ == if entry.name@ == ".git"@ || entry.is_dir {
            old(seen)@
        } else {
            after_file(old(seen)@, entry.key)
        },
        match r {
            None => entry.name@ == ".git"@,
            Some(v) => {
                &&& entry.name@ != ".git"@
                &&& match (v.matched, matched_rule(matcher.rules@, entry_path(dir@, *entry), known@)) {
                    (Some(a), Some(b)) => a == b,
                    (None, None) => true,
                    _ => false,
                }
                &&& v.descend == (entry.is_dir && !entry.is_reparse && !(prune && counts_as_ignored(*git)))
            },
        },
{
    if same(entry.name.as_str(), ".git") {
        return None;
    }
    let path = base_path(dir).concat(entry.name.as_str());
    let bytes: u64 = if entry.is_dir {
        0
    } else {
        seen.check_and_add_inode(entry.key, entry.bytes)
    };
    let ignored = match git {
        Some(v) => v.ignored && !v.protected,
        None => false,
    };
    let matched = state.record_match(matcher, path.as_str(), bytes, entry.is_dir, known);
    if ignored && matched.is_none() {
        if let Some(v) = git {
            state.record_git_ignored(v.topmost.clone(), bytes, entry.is_dir);
        }
    }
    Some(Visited { matched, descend: entry.is_dir && !entry.is_reparse && !(prune && ignored) })
}

// ---- raw directory records ----

/// The error number for an argument that was refused.
pub const EINVAL: i32 = 22;

/// The length of the buffer to try next, where trying again can help.
pub fn grown_buffer(errno: Option<i32>, current: usize) -> (r: Option<usize>)
    ensures
        r == if errno == Some(EINVAL) {
            Some(
                if 2 * current > usize::MAX {
                    usize::MAX
                } else {
                    (2 * current) as usize
                },
            )
        } else {
            None
        },
{
    let refused = match errno {
        Some(n) => n == EINVAL,
        None => false,
    };
    if !refused {
        None
    } else if current > usize::MAX / 2 {
        Some(usize::MAX)
    } else {
        Some(2 * current)
    }
}

/// Where the next zero byte stands, or the end.
pub open spec fn next_zero(buf: Seq<u8>, at: int) -> int
    decreases buf.len() - at,
{
    if at >= buf.len() {
        buf.len() as int
    } else if buf[at] == 0 {
        at
    } else {
        next_zero(buf, at + 1)
    }
}

/// The name in a record, where it is one to look at.
pub open spec fn record_name(bytes: Seq<u8>) -> Seq<Seq<char>> {
    if bytes.len() == 0 || !valid_utf8(bytes) || decode_utf8(bytes) == "."@ || decode_utf8(bytes) == ".."@ {
        Seq::empty()
    } else {
        seq![decode_utf8(bytes)]
    }
}

/// The names in the records from a place on. A record starts with 16 bytes that
/// do not matter here, its own length in two, a kind in one, and its name, which
/// ends in a zero byte.
pub open spec fn names_from(buf: Seq<u8>, at: int) -> Seq<Seq<char>>
    decreases (if at < buf.len() { buf.len() - at } else { 0 }),
{
    if at < 0 || at + 19 > buf.len() {
        Seq::empty()
    } else {
        let length = little(buf.subrange(at + 16, at + 18)) as int;
        let end = next_zero(buf, at + 19);
        if length <= 0 || end >= buf.len() {
            Seq::empty()
        } else {
            record_name(buf.subrange(at + 19, end)) + names_from(buf, at + length)
        }
    }
}

/// The names in the records of a directory listing.
pub fn dirent_names(buf: &[u8]) -> (r: Vec<String>)
    ensures
        views(r@) == names_from(buf@, 0),
{
    let n: usize = buf.len();
    let mut r: Vec<String> = Vec::new();
    let mut at: usize = 0;
    assert(views(r@) + names_from(buf@, 0) =~= names_from(buf@, 0));
    while n >= 19 && at <= n - 19
        invariant
            n == buf@.len(),
            views(r@) + names_from(buf@, at as int) == names_from(buf@, 0),
        decreases n + 65536 - at,
    {
        let length: usize = buf[at + 16] as usize + 256 * (buf[at + 17] as usize);
        proof {
            let s = buf@.subrange(at + 16, at + 18);
            reveal_with_fuel(little, 3);
            assert(s.skip(1)[0] == s[1]);
            assert(s.skip(1).skip(1) =~= Seq::<u8>::empty());
            assert(length == little(s));
        }
        let mut end: usize = at + 19;
        while end < n && buf[end] != 0
            invariant
                at + 19 <= end <= n,
                n == buf@.len(),
                next_zero(buf@, at + 19) == next_zero(buf@, end as int),
            decreases n - end,
        {
            end += 1;
        }
        if length == 0 || end >= n {
            assert(names_from(buf@, at as int) =~= Seq::<Seq<char>>::empty());
            assert(views(r@) =~= names_from(buf@, 0));
            return r;
        }
        let bytes = vstd::slice::slice_subrange(buf, at + 19, end);
        let ghost before = views(r@);
        let ghost own = record_name(bytes@);
        let ghost rest = names_from(buf@, at + length);
        if end > at + 19 {
            if let Some(name) = utf8_text(bytes) {
                if !same(name.as_str(), ".") && !same(name.as_str(), "..") {
                    r.push(name);
                }
            }
        }
        assert(views(r@) =~= before + own);
        assert((before + own) + rest =~= before + (own + rest));
        if length > usize::MAX - at {
            assert(rest =~= Seq::<Seq<char>>::empty());
            assert(views(r@) + rest =~= views(r@));
            return r;
        }
        at += length;
    }
    assert(names_from(buf@, at as int) =~= Seq::<Seq<char>>::empty());
    assert(views(r@) + Seq::<Seq<char>>::empty() =~= views(r@));
    r
}

// ---- laws ----

/// Whether no sample of a rule lies within another of the same rule.
pub open spec fn apart(samples: Seq<SampleModel>) -> bool {
    forall|i: int, j: int|
    0 <= i < samples.len() && 0 <= j < samples.len() && i != j && (#[trigger] samples[i]).rule_index
        == (#[trigger] samples[j]).rule_index ==> !under(samples[i].path, samples[j].path)
}

/// Adding a sample keeps the samples of each rule apart: none lies within another.
pub proof fn law_samples_stay_apart(samples: Seq<SampleModel>, s: SampleModel, max: int)
    requires
        apart(samples),
    ensures
        apart(with_sample(samples, s, max)),
{
    let f = if_outside(s.path, s.rule_index);
    let kept = collect_some(samples, f);
    lemma_kept_apart(samples, s.path, s.rule_index);
    assert forall|j: int| 0 <= j < kept.len() implies samples.contains(#[trigger] kept[j]) && f(kept[j])
    is Some by {
        crate::seqs::lemma_collect_origin(samples, f, j);
        let i = choose|i: int| 0 <= i < samples.len() && f(#[trigger] samples[i]) == Some(kept[j]);
        assert(samples[i] == kept[j]);
    }
    if max != 0 && !covered(samples, s.path, s.rule_index) && kept.len() < max {
        let all = kept.push(s);
        assert forall|i: int, j: int|
        0 <= i < all.len() && 0 <= j < all.len() && i != j && (#[trigger] all[i]).rule_index == (
            #[trigger] all[j]).rule_index implies !under(all[i].path, all[j].path) by {
            if i == kept.len() {
                assert(samples.contains(kept[j]));
                let k = choose|k: int| 0 <= k < samples.len() && samples[k] == kept[j];
                if under(s.path, kept[j].path) {
                    assert(covered(samples, s.path, s.rule_index));
                }
            } else if j == kept.len() {
                assert(f(kept[i]) is Some);
            } else {
                assert(kept[i] == all[i] && kept[j] == all[j]);
            }
        }
    }
}

proof fn lemma_kept_apart(samples: Seq<SampleModel>, path: Seq<char>, rule_index: int)
    requires
        apart(samples),
    ensures
        apart(collect_some(samples, if_outside(path, rule_index))),
    decreases samples.len(),
{
    let f = if_outside(path, rule_index);
    if samples.len() > 0 {
        let rest = samples.drop_last();
        assert(apart(rest)) by {
            assert forall|i: int, j: int|
            0 <= i < rest.len() && 0 <= j < rest.len() && i != j && (#[trigger] rest[i]).rule_index == (
                #[trigger] rest[j]).rule_index implies !under(rest[i].path, rest[j].path) by {
                assert(rest[i] == samples[i] && rest[j] == samples[j]);
            }
        }
        lemma_kept_apart(rest, path, rule_index);
        let kept = collect_some(rest, f);
        let all = collect_some(samples, f);
        let last = samples.last();
        assert forall|i: int, j: int|
        0 <= i < all.len() && 0 <= j < all.len() && i != j && (#[trigger] all[i]).rule_index == (
            #[trigger] all[j]).rule_index implies !under(all[i].path, all[j].path) by {
            let a = if i < kept.len() {
                crate::seqs::lemma_collect_origin(rest, f, i);
                choose|a: int| 0 <= a < rest.len() && f(#[trigger] rest[a]) == Some(kept[i])
            } else {
                samples.len() - 1
            };
            let b = if j < kept.len() {
                crate::seqs::lemma_collect_origin(rest, f, j);
                choose|b: int| 0 <= b < rest.len() && f(#[trigger] rest[b]) == Some(kept[j])
            } else {
                samples.len() - 1
            };
            if i < kept.len() && j < kept.len() {
                assert(kept[i] == all[i] && kept[j] == all[j]);
            } else {
                assert(samples[a] == all[i] && samples[b] == all[j]);
            }
        }
    }
}

/// There are never more samples than asked for.
pub proof fn law_samples_stay_few(samples: Seq<SampleModel>, s: SampleModel, max: int)
    requires
        samples.len() <= max,
    ensures
        with_sample(samples, s, max).len() <= max,
{
    crate::seqs::lemma_collect_len(samples, if_outside(s.path, s.rule_index));
}

/// Of the largest paths no more are shown than asked for, and none within one
/// that is shown before it.
pub proof fn law_largest_are_few_and_apart(s: Seq<PathModel>, max: int)
    requires
        max >= 0,
    ensures
        picked(s, max).len() <= max,
        forall|i: int, j: int|
        0 <= i < j < picked(s, max).len() ==> !under(
            (#[trigger] picked(s, max)[j]).path,
            (#[trigger] picked(s, max)[i]).path,
        ),
    decreases s.len(),
{
    if s.len() > 0 {
        law_largest_are_few_and_apart(s.drop_last(), max);
        let rest = picked(s.drop_last(), max);
        let all = picked(s, max);
        assert forall|i: int, j: int| 0 <= i < j < all.len() implies !under(
            (#[trigger] all[j]).path,
            (#[trigger] all[i]).path,
        ) by {
            assert(all[i] == rest[i]);
            if j < rest.len() {
                assert(all[j] == rest[j]);
            }
        }
    }
}

proof fn lemma_part_order_total(a: Seq<char>, b: Seq<char>)
    ensures
        a == b || sorting::part_before(a, b) || sorting::part_before(b, a),
{
    sorting::lemma_text_before_total(a, b);
}

proof fn lemma_parts_order_total(a: Seq<Seq<char>>, b: Seq<Seq<char>>)
    ensures
        a == b || sorting::parts_before(a, b) || sorting::parts_before(b, a),
    decreases a.len(),
{
    if a.len() > 0 && b.len() > 0 {
        if a[0] == b[0] {
            lemma_parts_order_total(a.skip(1), b.skip(1));
            if a.skip(1) == b.skip(1) {
                assert(a =~= b) by {
                    assert forall|i: int| 0 <= i < a.len() implies a[i] == b[i] by {
                        if i > 0 {
                            assert(a[i] == a.skip(1)[i - 1]);
                            assert(b[i] == b.skip(1)[i - 1]);
                        }
                    }
                    assert(a.skip(1).len() == b.skip(1).len());
                }
            }
        } else {
            lemma_part_order_total(a[0], b[0]);
        }
    } else if a.len() == 0 && b.len() == 0 {
        assert(a =~= b);
    }
}

/// Whether a list holds no path twice.
pub open spec fn distinct_paths(s: Seq<PathModel>) -> bool {
    forall|i: int, j: int|
    0 <= i < s.len() && 0 <= j < s.len() && i != j ==> !equal_paths(
        (#[trigger] s[i]).path,
        (#[trigger] s[j]).path,
    )
}

/// Different paths have one order by size only.
pub proof fn law_size_order_is_unique(p: Seq<PathModel>, q: Seq<PathModel>)
    requires
        largest_first(p),
        largest_first(q),
        distinct_paths(p),
        p.to_multiset() == q.to_multiset(),
    ensures
        p == q,
    decreases p.len(),
{
    broadcast use vstd::seq_lib::group_to_multiset_ensures;

    assert(p.len() == p.to_multiset().len());
    assert(q.len() == q.to_multiset().len());
    if p.len() == 0 {
        assert(p =~= q);
    } else {
        let x = p.last();
        let y = q.last();
        assert(p[p.len() - 1] == x);
        assert(q[q.len() - 1] == y);
        assert(p.contains(x));
        assert(q.contains(y));
        assert(q.to_multiset().count(x) > 0);
        assert(p.to_multiset().count(y) > 0);
        assert(q.contains(x));
        assert(p.contains(y));
        let k = choose|k: int| 0 <= k < q.len() && q[k] == x;
        let j = choose|j: int| 0 <= j < p.len() && p[j] == y;
        if x != y {
            assert(!larger(q[q.len() - 1], q[k]));
            assert(!larger(p[p.len() - 1], p[j]));
            assert(!equal_paths(p[p.len() - 1].path, p[j].path));
            lemma_parts_order_total(paths::parts(x.path), paths::parts(y.path));
            assert(false);
        }
        assert(p =~= p.drop_last().push(x));
        assert(q =~= q.drop_last().push(x));
        assert(p.drop_last().to_multiset() =~= q.drop_last().to_multiset()) by {
            assert(p.to_multiset() =~= p.drop_last().to_multiset().insert(x));
            assert(q.to_multiset() =~= q.drop_last().to_multiset().insert(x));
            assert(p.drop_last().to_multiset() =~= p.to_multiset().remove(x));
            assert(q.drop_last().to_multiset() =~= q.to_multiset().remove(x));
        }
        assert forall|a: int, b: int| 0 <= a < b < p.drop_last().len() implies !larger(
            #[trigger] p.drop_last()[b],
            #[trigger] p.drop_last()[a],
        ) by {
            assert(p.drop_last()[a] == p[a] && p.drop_last()[b] == p[b]);
        }
        assert forall|a: int, b: int| 0 <= a < b < q.drop_last().len() implies !larger(
            #[trigger] q.drop_last()[b],
            #[trigger] q.drop_last()[a],
        ) by {
            assert(q.drop_last()[a] == q[a] && q.drop_last()[b] == q[b]);
        }
        assert(distinct_paths(p.drop_last())) by {
            assert forall|a: int, b: int|
            0 <= a < p.drop_last().len() && 0 <= b < p.drop_last().len() && a != b implies !equal_paths(
                (#[trigger] p.drop_last()[a]).path,
                (#[trigger] p.drop_last()[b]).path,
            ) by {
                assert(p.drop_last()[a] == p[a] && p.drop_last()[b] == p[b]);
            }
        }
        law_size_order_is_unique(p.drop_last(), q.drop_last());
    }
}

/// A path counts for one rule at most: the totals of the others stay.
pub proof fn law_one_rule_counts(
    s: ScanModel,
    rules: Seq<CompiledRule>,
    path: Seq<char>,
    bytes: u64,
    is_dir: bool,
    k: KnownModel,
    i: int,
)
    requires
        serves(s, rules.len()),
        0 <= i < rules.len(),
        matched_rule(rules, path, k) != Some(i),
    ensures
        after_match(s, rules, path, bytes, is_dir, k).totals[i] == s.totals[i],
{
    lemma_best_rule(rules, path, rules.len() as int);
}

/// A file is counted once: what has been seen adds nothing.
pub proof fn law_files_count_once(seen: Set<u128>, key: u128, bytes: u64)
    requires
        key != 0,
    ensures
        counts_for(after_file(seen, key), key, bytes) == 0,
        !seen.contains(key) ==> counts_for(seen, key, bytes) == bytes,
{
}

/// A file adds its bytes and itself to the totals of its rule, a directory only
/// itself.
pub proof fn law_totals_add_up(
    s: ScanModel,
    rules: Seq<CompiledRule>,
    path: Seq<char>,
    bytes: u64,
    is_dir: bool,
    k: KnownModel,
    i: int,
)
    requires
        serves(s, rules.len()),
        has_room(s),
        matched_rule(rules, path, k) == Some(i),
        s.totals[i].bytes + bytes <= u64::MAX,
    ensures
        ({
            let after = after_match(s, rules, path, bytes, is_dir, k).totals[i];
            &&& is_dir ==> after.dir_count == s.totals[i].dir_count + 1 && after.file_count
                == s.totals[i].file_count && after.bytes == s.totals[i].bytes
            &&& !is_dir ==> after.file_count == s.totals[i].file_count + 1 && after.dir_count
                == s.totals[i].dir_count && after.bytes == s.totals[i].bytes + bytes
        }),
{
    lemma_best_rule(rules, path, rules.len() as int);
}

/// What a repository ignores is counted exactly where that was asked for.
pub proof fn law_ignored_totals_add_up(s: ScanModel, path: Seq<char>, bytes: u64, is_dir: bool)
    requires
        has_room(s),
        s.git_ignored.bytes + bytes <= u64::MAX,
    ensures
        !s.gitignore_enabled ==> after_ignored(s, path, bytes, is_dir) == s,
        s.gitignore_enabled ==> {
            let after = after_ignored(s, path, bytes, is_dir).git_ignored;
            &&& is_dir ==> after.dir_count == s.git_ignored.dir_count + 1 && after.file_count
                == s.git_ignored.file_count && after.bytes == s.git_ignored.bytes
            &&& !is_dir ==> after.file_count == s.git_ignored.file_count + 1 && after.dir_count
                == s.git_ignored.dir_count && after.bytes == s.git_ignored.bytes + bytes
        },
        after_ignored(s, path, bytes, is_dir).totals == s.totals,
{
}

/// A rule matches a path exactly where it is the heaviest that does and nothing about
/// the place speaks against it.
pub proof fn law_context_decides(
    rules: Seq<CompiledRule>,
    path: Seq<char>,
    k: KnownModel,
    i: int,
)
    requires
        0 <= i < rules.len(),
        best_rule(rules, path, rules.len() as int) == Some(i),
    ensures
        rules[i].context is None ==> matched_rule(rules, path, k) == Some(i),
        rules[i].context is Some ==> (matched_rule(rules, path, k) == Some(i) <==> allows(
            rules[i].context->0,
            path,
            k,
        )) && (matched_rule(rules, path, k) is Some ==> matched_rule(rules, path, k) == Some(i)),
{
}

/// A place without any demand allows every path; each demand that is not met keeps
/// the path out.
pub proof fn law_demands_must_be_met(c: CompiledContext, path: Seq<char>, k: KnownModel)
    ensures
        c.exclude_ancestor_any is None && c.require_parent_any is None && c.require_parent_none is None
            && c.require_ancestor_files_any@.len() == 0 ==> allows(c, path, k),
        c.exclude_ancestor_any is Some && topmost(
            ancestors(path),
            Mark::Globs(&c.exclude_ancestor_any->0),
        ) is Some ==> !allows(c, path, k),
        c.require_parent_any is Some && !(k.listing is Some && any_name_hit(
            held(c.require_parent_any->0),
            k.listing->0,
        )) ==> !allows(c, path, k),
        c.require_parent_none is Some && context_parent(c, path) is Some && k.listing is Some
            && any_name_hit(held(c.require_parent_none->0), k.listing->0) ==> !allows(c, path, k),
        c.require_ancestor_files_any@.len() > 0 && k.files.len() == 0 ==> !allows(c, path, k),
{
    if k.files.len() == 0 {
        let names = views(c.require_ancestor_files_any@);
        let f = if_holds(names, k.files);
        assert forall|d: Seq<char>| #[trigger] f(d) is None by {
            assert forall|i: int| 0 <= i < names.len() implies !k.files.contains(
                below(d, #[trigger] names[i]),
            ) by {}
        }
        crate::seqs::lemma_find_none(levels(path, c.ancestor_depth), f);
    }
}

/// What is found furthest up is marked, and nothing above it is; where nothing is
/// found, nothing is marked.
pub proof fn law_topmost_is_furthest_up(list: Seq<Seq<char>>, m: Mark)
    ensures
        match topmost(list, m) {
            Some(p) => exists|i: int|
            0 <= i < list.len() && #[trigger] list[i] == p && marked(m, p) && forall|j: int|
            i < j < list.len() ==> !marked(m, #[trigger] list[j]),
            None => forall|j: int| 0 <= j < list.len() ==> !marked(m, #[trigger] list[j]),
        },
    decreases list.len(),
{
    if list.len() > 0 {
        let less = list.drop_last();
        if marked(m, list.last()) {
            assert(list[list.len() - 1] == list.last());
        } else {
            law_topmost_is_furthest_up(less, m);
            match topmost(list, m) {
                Some(p) => {
                    let i = choose|i: int|
                    0 <= i < less.len() && #[trigger] less[i] == p && marked(m, p) && forall|j: int|
                    i < j < less.len() ==> !marked(m, #[trigger] less[j]);
                    assert(list[i] == less[i]);
                    assert forall|j: int| i < j < list.len() implies !marked(m, #[trigger] list[j]) by {
                        if j < less.len() {
                            assert(list[j] == less[j]);
                        }
                    }
                },
                None => {
                    assert forall|j: int| 0 <= j < list.len() implies !marked(m, #[trigger] list[j]) by {
                        if j < less.len() {
                            assert(list[j] == less[j]);
                        }
                    }
                },
            }
        }
    }
}

/// Samples are shown by strategy first, then by a file above, then by a name above,
/// and else by the path itself.
pub proof fn law_samples_have_their_place(c: CompiledContext, path: Seq<char>, k: KnownModel)
    ensures
        c.sample_strategy is None && c.sample_ancestor_files_any@.len() == 0 && c.sample_parent_any is None
            ==> sample_of(Some(c), path, k) == path,
        sample_of(None, path, k) == path,
        c.sample_strategy is Some && strategy_root(c.sample_strategy->0, path, k) is Some ==> sample_of(
            Some(c),
            path,
            k,
        ) == strategy_root(c.sample_strategy->0, path, k)->0,
        c.sample_strategy is None && c.sample_ancestor_files_any@.len() > 0 && holder(
            path,
            views(c.sample_ancestor_files_any@),
            c.sample_ancestor_depth,
            k.files,
        ) is Some ==> sample_of(Some(c), path, k) == holder(
            path,
            views(c.sample_ancestor_files_any@),
            c.sample_ancestor_depth,
            k.files,
        )->0,
{
}

/// A new sample that no other of its rule covers takes the place of those that it
/// covers, and is shown while there is room; all others stay.
pub proof fn law_new_samples_are_shown(samples: Seq<SampleModel>, s: SampleModel, max: int, other: SampleModel)
    requires
        max > 0,
        forall|i: int|
        0 <= i < samples.len() && (#[trigger] samples[i]).rule_index == s.rule_index ==> !under(
            s.path,
            samples[i].path,
        ),
    ensures
        samples.len() < max ==> with_sample(samples, s, max).contains(s),
        samples.contains(other) && !(other.rule_index == s.rule_index && under(other.path, s.path))
            ==> with_sample(samples, s, max).contains(other),
        other != s && with_sample(samples, s, max).contains(other) ==> samples.contains(other) && !(
        other.rule_index == s.rule_index && under(other.path, s.path)),
{
    let f = if_outside(s.path, s.rule_index);
    let kept = collect_some(samples, f);
    let all = with_sample(samples, s, max);
    crate::seqs::lemma_collect_len(samples, f);
    crate::seqs::law_collected_is_made(samples, f, other);
    if samples.len() < max {
        assert(all == kept.push(s));
        assert(all[kept.len() as int] == s);
    }
    if samples.contains(other) && !(other.rule_index == s.rule_index && under(other.path, s.path)) {
        let i = choose|i: int| 0 <= i < samples.len() && samples[i] == other;
        assert(f(samples[i]) == Some(other));
        let j = choose|j: int| 0 <= j < kept.len() && kept[j] == other;
        assert(all[j] == other);
    }
    if other != s && all.contains(other) {
        let j = choose|j: int| 0 <= j < all.len() && all[j] == other;
        if j < kept.len() {
            assert(kept[j] == other);
            assert(kept.contains(other));
            let i = choose|i: int| 0 <= i < samples.len() && f(#[trigger] samples[i]) == Some(other);
            assert(samples[i] == other);
        }
    }
}

/// A sample that another of its rule covers changes nothing, nor does any where none
/// is asked for.
pub proof fn law_covered_samples_change_nothing(samples: Seq<SampleModel>, s: SampleModel, max: int, i: int)
    ensures
        0 <= i < samples.len() && samples[i].rule_index == s.rule_index && under(s.path, samples[i].path)
            ==> with_sample(samples, s, max) == samples,
        max == 0 ==> with_sample(samples, s, max) == samples,
{
}

proof fn lemma_place_of(list: Seq<PathModel>, path: Seq<char>)
    ensures
        0 <= place_of(list, path) <= list.len(),
        place_of(list, path) < list.len() ==> equal_paths(list[place_of(list, path)].path, path),
        forall|j: int| 0 <= j < place_of(list, path) ==> !equal_paths((#[trigger] list[j]).path, path),
    decreases list.len(),
{
    if list.len() > 0 && !equal_paths(list[0].path, path) {
        let rest = list.skip(1);
        lemma_place_of(rest, path);
        let p = place_of(rest, path);
        assert forall|j: int| 0 <= j < p + 1 implies !equal_paths((#[trigger] list[j]).path, path) by {
            if j > 0 {
                assert(rest[j - 1] == list[j]);
            }
        }
        if p < rest.len() {
            assert(rest[p] == list[p + 1]);
        }
    }
}

/// The bytes of a path add to those that were counted for it; a new path starts with
/// its own; nothing else changes.
pub proof fn law_bytes_gather_by_path(list: Seq<PathModel>, path: Seq<char>, bytes: u64, i: int)
    ensures
        0 <= i < list.len() && !equal_paths(list[i].path, path) ==> with_bytes(list, path, bytes)[i]
            == list[i],
        (forall|j: int| 0 <= j < list.len() ==> !equal_paths((#[trigger] list[j]).path, path))
            ==> with_bytes(list, path, bytes) == list.push(PathModel { path, bytes }),
        0 <= i < list.len() && equal_paths(list[i].path, path) && (forall|j: int|
            0 <= j < i ==> !equal_paths((#[trigger] list[j]).path, path)) && list[i].bytes + bytes
            <= u64::MAX ==> with_bytes(list, path, bytes).len() == list.len() && with_bytes(
            list,
            path,
            bytes,
        )[i].bytes == list[i].bytes + bytes,
{
    lemma_place_of(list, path);
    let p = place_of(list, path);
    if p < list.len() {
        assert(equal_paths(list[p].path, path));
    }
    if 0 <= i < list.len() && equal_paths(list[i].path, path) && (forall|j: int|
        0 <= j < i ==> !equal_paths((#[trigger] list[j]).path, path)) {
        if p < i {
            assert(!equal_paths(list[p].path, path));
        }
        if i < p {
            assert(!equal_paths(list[i].path, path));
        }
    }
}

/// The first path of the order is always shown where any is, and one that no path
/// before it covers is shown while there is room.
pub proof fn law_largest_paths_are_shown(s: Seq<PathModel>, p: PathModel, max: int)
    requires
        max > 0,
    ensures
        s.len() > 0 ==> picked(s, max).len() > 0 && picked(s, max)[0] == s[0],
        picked(s, max).len() < max && (forall|i: int|
            0 <= i < picked(s, max).len() ==> !under(p.path, (#[trigger] picked(s, max)[i]).path)) ==> picked(
            s.push(p),
            max,
        ) == picked(s, max).push(p),
        (exists|i: int| 0 <= i < picked(s, max).len() && under(p.path, (#[trigger] picked(s, max)[i]).path))
            ==> picked(s.push(p), max) == picked(s, max),
    decreases s.len(),
{
    assert(s.push(p).drop_last() =~= s);
    if s.len() > 0 {
        law_largest_paths_are_shown(s.drop_last(), p, max);
        if s.drop_last().len() > 0 {
            assert(s.drop_last()[0] == s[0]);
        } else {
            assert(s.last() == s[0]);
        }
    }
}

/// Where nothing is to be left out, nothing is; where all is, nothing is left.
pub proof fn law_bottom_is_cut(list: Seq<PathModel>, p: u8)
    ensures
        above_bottom(list, None) == list,
        above_bottom(list, Some(0)) == list,
        p >= 100 ==> above_bottom(list, Some(p)).len() == 0,
{
}

/// The data of a repository itself is passed over, and only what the repository
/// ignores and no rule matches is counted as ignored.
pub proof fn law_repository_data_is_passed_over(
    s: ScanModel,
    seen: Set<u128>,
    rules: Seq<CompiledRule>,
    dir: Seq<char>,
    e: ScanEntry,
    git: Option<GitVerdict>,
    k: KnownModel,
)
    ensures
        e.name@ == ".git"@ ==> after_entry(s, seen, rules, dir, e, git, k) == s,
        e.name@ != ".git"@ && !(git is Some && git->0.ignored && !git->0.protected) ==> after_entry(
            s,
            seen,
            rules,
            dir,
            e,
            git,
            k,
        ).git_ignored == s.git_ignored,
        matched_rule(rules, entry_path(dir, e), k) is Some ==> after_entry(s, seen, rules, dir, e, git, k).git_ignored
            == s.git_ignored,
{
}

/// A scan ends with what it has counted, and tells what was ignored exactly where that
/// was asked for. Samples that are not chosen by size are told as they were met.
pub proof fn law_scans_end_with_what_was_counted(s: ScanModel, r: ScanResult)
    requires
        comes_to(s, r),
    ensures
        r.totals@ == s.totals,
        r.git_ignored is Some <==> s.gitignore_enabled,
        r.git_ignored matches Some(g) ==> g == s.git_ignored,
        s.sample_mode != SampleMode::Largest ==> views(r.samples@) == s.samples && views(r.git_ignored_samples@)
            == s.git_ignored_samples,
{
}

/// The samples by size come from the paths that were gathered, the largest of them
/// first, and no more than asked for.
pub proof fn law_samples_by_size(list: Seq<PathModel>, max: int, r: Seq<PathModel>)
    requires
        max > 0,
        shows_largest(list, None, max, r),
    ensures
        r.len() <= max,
        list.len() > 0 ==> r.len() > 0 && list.contains(r[0]) && forall|i: int|
        0 <= i < list.len() ==> (#[trigger] list[i]).bytes <= r[0].bytes,
{
    let p = choose|p: Seq<PathModel>| #[trigger]
    largest_first(p) && p.to_multiset() == above_bottom(list, None).to_multiset() && r == picked(p, max);
    law_largest_are_few_and_apart(p, max);
    broadcast use vstd::seq_lib::group_to_multiset_ensures;
    if list.len() > 0 {
        assert(p.len() == p.to_multiset().len());
        assert(list.len() == list.to_multiset().len());
        law_largest_paths_are_shown(p, p[0], max);
        assert(p.contains(p[0]));
        assert(list.to_multiset().count(p[0]) > 0);
        assert(list.contains(p[0]));
        assert forall|i: int| 0 <= i < list.len() implies (#[trigger] list[i]).bytes <= r[0].bytes by {
            assert(list.contains(list[i]));
            assert(p.to_multiset().count(list[i]) > 0);
            assert(p.contains(list[i]));
            let k = choose|k: int| 0 <= k < p.len() && p[k] == list[i];
            if k > 0 {
                assert(!larger(p[k], p[0]));
            }
        }
    }
}

/// Of paths that are ranked by size, the smallest are left out and the others stay:
/// none that stays is smaller than one that is left out.
pub proof fn law_the_smallest_are_left_out(list: Seq<PathModel>, p: u8, r: Seq<usize>, i: int, j: int)
    requires
        is_ranking(small_first(list), r),
        0 < p < 100,
        0 <= i < percent_of(list.len(), p as nat) <= j < list.len(),
    ensures
        above_bottom(list, Some(p)).len() == list.len() - percent_of(list.len(), p as nat),
        above_bottom(list, Some(p))[j - percent_of(list.len(), p as nat)] == list[r[j] as int],
        list[r[i] as int].bytes <= list[r[j] as int].bytes,
{
    let keys = small_first(list);
    law_ranking_unique(keys, by_size(list), r);
    assert(by_size(list) == r);
    let n = percent_of(list.len(), p as nat) as int;
    assert(r.skip(n)[j - n] == r[j]);
    assert(sorting::ranks_before(keys, r[i], r[j]));
    assert(keys[r[i] as int] == (u64::MAX - list[r[i] as int].bytes) as u64);
    assert(keys[r[j] as int] == (u64::MAX - list[r[j] as int].bytes) as u64);
}

/// A context looks for its files in the directories around a path, up to the depth
/// that it gives, and for the state of a browser only where that is asked for.
pub proof fn law_files_are_looked_for_around(c: CompiledContext, path: Seq<char>, i: int, k: int)
    requires
        0 <= i < levels(path, c.ancestor_depth).len(),
        0 <= k < c.require_ancestor_files_any@.len(),
    ensures
        wanted_files(c, path).contains(
            below(levels(path, c.ancestor_depth)[i], c.require_ancestor_files_any@[k]@),
        ),
{
    let l = levels(path, c.ancestor_depth);
    let names = views(c.require_ancestor_files_any@);
    let f = names_in(names);
    let x = below(l[i], c.require_ancestor_files_any@[k]@);
    assert(names[k] == c.require_ancestor_files_any@[k]@);
    assert(f(l[i])[k] == x);
    assert(f(l[i]).contains(x));
    seqs::law_flattened_is_made(l, f, x);
    let a = flatten_map(l, f);
    let w = wanted_files(c, path);
    let q = choose|q: int| 0 <= q < a.len() && a[q] == x;
    assert(w[q] == x);
}

/// A listing is wanted exactly where the context says what must or must not stand in
/// it.
pub proof fn law_listings_are_wanted_for_demands(c: CompiledContext, path: Seq<char>)
    ensures
        c.require_parent_any is None && c.require_parent_none is None ==> wanted_listing(c, path) is None,
        c.require_parent_any is Some ==> wanted_listing(c, path) == context_parent(c, path),
        c.require_parent_none is Some ==> wanted_listing(c, path) == context_parent(c, path),
        c.parent_anchor_any is None ==> context_parent(c, path) == parent_of(path),
{
}

/// A scan begins with nothing counted.
pub proof fn law_scans_begin_with_nothing(rules: nat, max: int, ignore: bool, mode: SampleMode, percent: Option<u8>, i: int)
    requires
        0 <= i < rules,
    ensures
        fresh(rules, max, ignore, mode, percent).totals.len() == rules,
        fresh(rules, max, ignore, mode, percent).totals[i].bytes == 0,
        fresh(rules, max, ignore, mode, percent).totals[i].file_count == 0,
        fresh(rules, max, ignore, mode, percent).totals[i].dir_count == 0,
        fresh(rules, max, ignore, mode, percent).samples.len() == 0,
        fresh(rules, max, ignore, mode, percent).sample_bytes.len() == rules,
        fresh(rules, max, ignore, mode, percent).sample_bytes[i].len() == 0,
        fresh(rules, max, ignore, mode, percent).git_ignored.bytes == 0,
        fresh(rules, max, ignore, mode, percent).git_ignored.file_count == 0,
        fresh(rules, max, ignore, mode, percent).git_ignored.dir_count == 0,
        fresh(rules, max, ignore, mode, percent).git_ignored_samples.len() == 0,
        fresh(rules, max, ignore, mode, percent).gitignore_enabled == ignore,
        fresh(rules, max, ignore, mode, percent).sample_mode == mode,
        fresh(rules, max, ignore, mode, percent).sample_bottom_percent == percent,
        fresh(rules, max, ignore, mode, percent).max_samples == max,
{
}

proof fn lemma_zero_shifted(a: Seq<u8>, b: Seq<u8>, at: int)
    requires
        0 <= at <= b.len(),
    ensures
        next_zero(a + b, a.len() + at) == a.len() + next_zero(b, at),
        at <= next_zero(b, at) <= b.len(),
    decreases b.len() - at,
{
    if at < b.len() && b[at] != 0 {
        lemma_zero_shifted(a, b, at + 1);
    }
}

proof fn lemma_names_shifted(a: Seq<u8>, b: Seq<u8>, at: int)
    requires
        0 <= at,
    ensures
        names_from(a + b, a.len() + at) == names_from(b, at),
    decreases (if at < b.len() { b.len() - at } else { 0 }),
{
    let s = a + b;
    let k = a.len() + at;
    if at + 19 <= b.len() {
        assert(s.subrange(k + 16, k + 18) =~= b.subrange(at + 16, at + 18));
        lemma_zero_shifted(a, b, at + 19);
        let length = little(b.subrange(at + 16, at + 18)) as int;
        let end = next_zero(b, at + 19);
        if length > 0 && end < b.len() {
            assert(s.subrange(k + 19, a.len() + end) =~= b.subrange(at + 19, end));
            lemma_names_shifted(a, b, at + length);
            assert(k + length == a.len() + (at + length));
        }
    }
}

proof fn lemma_zero_found(s: Seq<u8>, from: int, end: int)
    requires
        0 <= from <= end < s.len(),
        s[end] == 0,
        forall|i: int| from <= i < end ==> #[trigger] s[i] != 0,
    ensures
        next_zero(s, from) == end,
    decreases end - from,
{
    if from < end {
        lemma_zero_found(s, from + 1, end);
    }
}

/// The records of a directory stand one behind the other, each as long as it says: the
/// name that ends before the first zero byte comes before the names of the others, but
/// for the directory itself, its parent and what is no text.
pub proof fn law_names_follow_each_other(first: Seq<u8>, others: Seq<u8>, end: int)
    requires
        19 <= end < first.len(),
        little(first.subrange(16, 18)) == first.len(),
        first[end] == 0,
        forall|i: int| 19 <= i < end ==> #[trigger] first[i] != 0,
    ensures
        end > 19 && valid_utf8(first.subrange(19, end)) && decode_utf8(first.subrange(19, end)) != "."@
            && decode_utf8(first.subrange(19, end)) != ".."@ ==> names_from(first + others, 0) == seq![
            decode_utf8(first.subrange(19, end)),
        ] + names_from(others, 0),
        end == 19 || !valid_utf8(first.subrange(19, end)) || decode_utf8(first.subrange(19, end)) == "."@
            || decode_utf8(first.subrange(19, end)) == ".."@ ==> names_from(first + others, 0) == names_from(
            others,
            0,
        ),
{
    let s = first + others;
    assert(s.subrange(16, 18) =~= first.subrange(16, 18));
    lemma_zero_found(s, 19, end);
    assert(s.subrange(19, end) =~= first.subrange(19, end));
    lemma_names_shifted(first, others, 0);
    assert(Seq::<Seq<char>>::empty() + names_from(others, 0) =~= names_from(others, 0));
}

/// What a rule matches becomes a sample of its own where the first are asked for, and
/// adds its bytes where the largest are; other samples stay.
pub proof fn law_matches_become_samples(
    s: ScanModel,
    rules: Seq<CompiledRule>,
    path: Seq<char>,
    bytes: u64,
    is_dir: bool,
    k: KnownModel,
    i: int,
    j: int,
)
    requires
        serves(s, rules.len()),
        matched_rule(rules, path, k) == Some(i),
        0 <= j < s.sample_bytes.len(),
    ensures
        s.sample_mode != SampleMode::First ==> after_match(s, rules, path, bytes, is_dir, k).samples == s.samples,
        s.sample_mode == SampleMode::First ==> after_match(s, rules, path, bytes, is_dir, k).samples == with_sample(
            s.samples,
            SampleModel { path: sample_of(rules[i].context, path, k), bytes: 0, rule_index: i },
            s.max_samples,
        ),
        s.sample_mode != SampleMode::Largest ==> after_match(s, rules, path, bytes, is_dir, k).sample_bytes
            == s.sample_bytes,
        j != i ==> after_match(s, rules, path, bytes, is_dir, k).sample_bytes[j] == s.sample_bytes[j],
        s.sample_mode == SampleMode::Largest ==> after_match(s, rules, path, bytes, is_dir, k).sample_bytes.len()
            == s.sample_bytes.len(),
        s.sample_mode == SampleMode::Largest && j == i ==> after_match(
            s,
            rules,
            path,
            bytes,
            is_dir,
            k,
        ).sample_bytes[j] == with_bytes(s.sample_bytes[j], sample_of(rules[i].context, path, k), bytes),
        after_match(s, rules, path, bytes, is_dir, k).git_ignored == s.git_ignored,
        after_match(s, rules, path, bytes, is_dir, k).git_ignored_samples == s.git_ignored_samples,
        after_match(s, rules, path, bytes, is_dir, k).max_samples == s.max_samples,
{
    lemma_best_rule(rules, path, rules.len() as int);
}

/// What marks a profile of a browser, the folder of an application and the browser of
/// the system are their names.
pub proof fn law_marks_are_names(path: Seq<char>, p: Seq<char>, n: Seq<char>)
    ensures
        last_name(path) == Some(n) ==> (marked(Mark::Web, path) <==> n == "Safari"@ || n == "WebKit"@),
        last_name(path) == Some(n) ==> (marked(Mark::Profile, path) <==> n == "Default"@ || n == "Profile"@ || n
            == "Partitions"@ || n == "DesktopProfile"@ || n == "EBWebView"@ || "Profile "@.is_prefix_of(n)
            || "WV2Profile"@.is_prefix_of(n)),
        parent_of(path) == Some(p) && last_name(p) == Some(n) ==> (marked(Mark::App, path) <==> n == "Caches"@ || n
            == "Application Support"@ || n == "Logs"@ || n == "HTTPStorages"@ || n == "Containers"@ || n
            == "Group Containers"@ || n == "Daemon Containers"@),
        parent_of(path) is None ==> !marked(Mark::App, path),
{
}

/// A directory begins the paths of what it holds with one slash.
pub proof fn law_directories_begin_paths(dir: Seq<char>)
    requires
        dir.len() > 0,
        dir.last() != '/',
    ensures
        base_of(dir) == dir + "/"@,
        base_of(dir + "/"@) == dir + "/"@,
{
    reveal_strlit("/");
}

} // verus!
