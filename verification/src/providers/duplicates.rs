//! Files with the same content.

use crate::paths;
use crate::paths::{equal_paths, under};
use crate::report::{Confidence, Finding, FindingModel, FindingSize, SizeAccuracy};
use crate::rules::Safety;
use crate::seqs::{at_most, collect_some, group_views, lemma_collect_step, view_of, views};
use crate::sizes::{human, human_bytes};
use crate::sorting;
use crate::taxonomy::{Section, Subgroup};
use crate::text;
use crate::text::{digits, same};
use vstd::prelude::*;

use super::{
    Capability, Draft, MetadataModel, ProviderExecution, ProviderFinding, ProviderMetadata,
    ProviderSettings, Revalidation, RevalidationModel, ScanCost, available_if, capped_product, draft,
    is_available_if, times,
};

verus! {

broadcast use group_views;

pub struct DuplicateProvider;

/// What the provider is.
pub open spec fn duplicates() -> MetadataModel {
    MetadataModel {
        id: "duplicates"@,
        name: "Exact duplicate files"@,
        section: Section::Analysis,
        subgroup: Subgroup::Duplicates,
        cost: ScanCost::Slow,
        quick: false,
        deep: true,
        network_in_deep_scan: false,
        supersedes_rules: Seq::empty(),
    }
}

fn metadata() -> (r: ProviderMetadata)
    ensures
        r@ == duplicates(),
{
    let r = ProviderMetadata {
        id: "duplicates",
        name: "Exact duplicate files",
        section: Section::Analysis,
        subgroup: Subgroup::Duplicates,
        cost: ScanCost::Slow,
        quick: false,
        deep: true,
        network_in_deep_scan: false,
        supersedes_rules: &[],
    };
    assert(r@.supersedes_rules =~= duplicates().supersedes_rules);
    r
}

impl DuplicateProvider {
    pub fn metadata(&self) -> (r: ProviderMetadata)
        ensures
            r@ == duplicates(),
    {
        metadata()
    }
}

/// Whether there is a directory to look at.
pub fn probe(roots: bool) -> (r: Capability)
    ensures
        is_available_if(r, roots, "No duplicate-analysis roots are available."@),
{
    available_if(roots, "No duplicate-analysis roots are available.")
}

// ---- where to look ----

/// The directories of the user, for a home directory that is scanned whole.
pub open spec fn below_home(home: Seq<char>, names: Seq<Seq<char>>) -> Seq<Seq<char>> {
    names.map_values(|n: Seq<char>| paths::below(home, n))
}

/// Where files of the user are looked at: the roots of the scan, or the usual
/// directories where the home directory is the only root.
pub open spec fn places(
    home: Option<Seq<char>>,
    roots: Seq<Seq<char>>,
    names: Seq<Seq<char>>,
) -> Seq<Seq<char>> {
    match home {
        Some(h) => if roots.len() == 1 && equal_paths(roots[0], h) {
            below_home(h, names)
        } else {
            roots
        },
        None => roots,
    }
}

/// Where files of the user are looked at. The second part says whether only
/// directories that exist count.
pub fn user_roots(home: Option<&str>, roots: &Vec<String>, names: &Vec<String>) -> (r: (
        Vec<String>,
        bool,
))
    ensures
        views(r.0@) == places(text::shown(home), views(roots@), views(names@)),
        r.1 == (home is Some && roots@.len() == 1 && equal_paths(roots@[0]@, home->0@)),
{
    if let Some(h) = home {
        if roots.len() == 1 {
            assert(views(roots@)[0] == roots@[0]@);
            if paths::same_path(roots[0].as_str(), h) {
                let ghost all = views(names@);
                let mut out: Vec<String> = Vec::new();
                let mut i: usize = 0;
                while i < names.len()
                    invariant
                        i <= names@.len(),
                        all == views(names@),
                        views(out@) == below_home(h@, all.take(i as int)),
                    decreases names@.len() - i,
                {
                    assert(all[i as int] == names@[i as int]@);
                    out.push(paths::join(h, names[i].as_str()));
                    assert(views(out@) =~= below_home(h@, all.take(i + 1)));
                    i += 1;
                }
                assert(all.take(i as int) =~= all);
                return (out, true);
            }
        }
    }
    (text::copy_texts(roots), false)
}

/// The directories of a home directory in which duplicates are looked for.
pub fn duplicate_places() -> (r: Vec<String>)
    ensures
        views(r@) == seq![
            "Desktop"@,
            "Documents"@,
            "Downloads"@,
            "Movies"@,
            "Music"@,
            "Pictures"@,
            "Development"@,
            "Developer"@,
            "Projects"@,
        ],
{
    let r = vec![
        "Desktop".to_owned(),
        "Documents".to_owned(),
        "Downloads".to_owned(),
        "Movies".to_owned(),
        "Music".to_owned(),
        "Pictures".to_owned(),
        "Development".to_owned(),
        "Developer".to_owned(),
        "Projects".to_owned(),
    ];
    assert(views(r@) =~= seq![
            "Desktop"@,
            "Documents"@,
            "Downloads"@,
            "Movies"@,
            "Music"@,
            "Pictures"@,
            "Development"@,
            "Developer"@,
            "Projects"@,
    ]);
    r
}

/// The size from which a file is looked at: the setting, ten megabytes at
/// least.
pub fn size_floor(settings: &ProviderSettings) -> (r: u64)
    ensures
        settings.min_size_bytes > 10 * 1024 * 1024 ==> r == settings.min_size_bytes,
        settings.min_size_bytes <= 10 * 1024 * 1024 ==> r == 10 * 1024 * 1024,
{
    if settings.min_size_bytes > 0xa0_0000 {
        settings.min_size_bytes
    } else {
        0xa0_0000
    }
}

/// Whether the search goes on into a directory, with so many files found.
pub fn search_goes_on(depth: usize, found: usize, cancelled: bool) -> (r: bool)
    ensures
        r == (depth <= 16 && found < 20_000 && !cancelled),
{
    depth <= 16 && found < 20_000 && !cancelled
}

/// Directories that the search does not enter.
pub open spec fn is_passed_over(name: Seq<char>) -> bool {
    ||| name == ".git"@
    ||| name == "node_modules"@
    ||| name == "target"@
    ||| name == ".venv"@
    ||| name == "venv"@
    ||| name == "vendor"@
    ||| name == ".gradle"@
    ||| name == ".next"@
    ||| name == "dist"@
    ||| name == "build"@
    ||| name == "DerivedData"@
    ||| name == "Pods"@
    ||| name == ".Trash"@
}

/// What the search does with an entry.
#[derive(Debug, Clone, Copy, PartialEq, Eq, Structural)]
pub enum SearchStep {
    /// It may have a duplicate.
    Keep,
    /// It is searched in turn.
    Enter,
    Skip,
}

/// What the search does with an entry.
pub open spec fn search_choice(
    name: Seq<char>,
    is_symlink: bool,
    is_dir: bool,
    is_file: bool,
    len: u64,
    floor: u64,
) -> SearchStep {
    if is_symlink {
        SearchStep::Skip
    } else if is_dir {
        if is_passed_over(name) {
            SearchStep::Skip
        } else {
            SearchStep::Enter
        }
    } else if is_file && len >= floor {
        SearchStep::Keep
    } else {
        SearchStep::Skip
    }
}

/// What the search does with an entry: links are never followed, small files
/// never looked at.
pub fn search_step(
    name: &str,
    is_symlink: bool,
    is_dir: bool,
    is_file: bool,
    len: u64,
    floor: u64,
) -> (r: SearchStep)
    ensures
        r == search_choice(name@, is_symlink, is_dir, is_file, len, floor),
{
    if is_symlink {
        SearchStep::Skip
    } else if is_dir {
        if same(name, ".git") || same(name, "node_modules") || same(name, "target") || same(name, ".venv") || same(name, "venv") || same(name, "vendor") || same(name, ".gradle") || same(name, ".next") || same(name, "dist") || same(name, "build") || same(name, "DerivedData") || same(name, "Pods") || same(name, ".Trash") {
            SearchStep::Skip
        } else {
            SearchStep::Enter
        }
    } else if is_file && len >= floor {
        SearchStep::Keep
    } else {
        SearchStep::Skip
    }
}

// ---- groups ----

/// Whether a key is there, and for the first time.
pub open spec fn is_first<K>(keys: Seq<Option<K>>, i: int) -> bool {
    keys[i] is Some && forall|j: int| 0 <= j < i ==> #[trigger] keys[j] != keys[i]
}

/// The positions of a list.
pub open spec fn positions(n: nat) -> Seq<int> {
    Seq::new(n, |i: int| i)
}

pub open spec fn if_same<K>(keys: Seq<Option<K>>, i: int) -> spec_fn(int) -> Option<int> {
    |j: int|
    if keys[j] == keys[i] {
        Some(j)
    } else {
        None
    }
}

/// The positions with the same key as position `i`.
pub open spec fn group_at<K>(keys: Seq<Option<K>>, i: int) -> Seq<int> {
    collect_some(positions(keys.len()), if_same(keys, i))
}

pub open spec fn if_group<K>(keys: Seq<Option<K>>) -> spec_fn(int) -> Option<Seq<int>> {
    |i: int|
    if is_first(keys, i) && group_at(keys, i).len() > 1 {
        Some(group_at(keys, i))
    } else {
        None
    }
}

/// The groups of at least two positions with the same key, in the order in
/// which they begin.
pub open spec fn groups_of<K>(keys: Seq<Option<K>>) -> Seq<Seq<int>> {
    collect_some(positions(keys.len()), if_group(keys))
}

/// Positions, as mathematical numbers.
pub open spec fn as_positions(g: Seq<usize>) -> Seq<int> {
    g.map_values(|k: usize| k as int)
}

pub open spec fn group_positions(r: Seq<Vec<usize>>) -> Seq<Seq<int>> {
    r.map_values(|g: Vec<usize>| as_positions(g@))
}

/// Sizes as keys: every file has one.
pub open spec fn size_keys(sizes: Seq<u64>) -> Seq<Option<u64>> {
    sizes.map_values(|s: u64| Some(s))
}

/// Digests as keys: a file that could not be read has none.
pub open spec fn hash_keys(hashes: Seq<Option<Vec<u8>>>) -> Seq<Option<Seq<u8>>> {
    hashes.map_values(|h: Option<Vec<u8>>| view_of(h))
}

fn same_bytes(a: &Vec<u8>, b: &Vec<u8>) -> (r: bool)
    ensures
        r == (a@ == b@),
{
    if a.len() != b.len() {
        return false;
    }
    let mut i: usize = 0;
    while i < a.len()
        invariant
            i <= a@.len(),
            a@.len() == b@.len(),
            forall|j: int| 0 <= j < i ==> a@[j] == b@[j],
        decreases a@.len() - i,
    {
        if a[i] != b[i] {
            return false;
        }
        i += 1;
    }
    assert(a@ =~= b@);
    true
}

fn same_hash(a: &Option<Vec<u8>>, b: &Option<Vec<u8>>) -> (r: bool)
    ensures
        r == (view_of(*a) == view_of(*b)),
{
    match (a, b) {
        (Some(x), Some(y)) => same_bytes(x, y),
        (None, None) => true,
        _ => false,
    }
}

fn size_first(sizes: &Vec<u64>, i: usize) -> (r: bool)
    requires
        i < sizes@.len(),
    ensures
        r == is_first(size_keys(sizes@), i as int),
{
    let ghost keys = size_keys(sizes@);

    let mut j: usize = 0;
    while j < i
        invariant
            j <= i < sizes@.len(),
            keys == size_keys(sizes@),
            keys[i as int] is Some,
            forall|k: int| 0 <= k < j ==> #[trigger] keys[k] != keys[i as int],
        decreases i - j,
    {
        if sizes[j] == sizes[i] {
            assert(keys[j as int] == keys[i as int]);
            return false;
        }
        j += 1;
    }
    true
}

fn size_group(sizes: &Vec<u64>, i: usize) -> (r: Vec<usize>)
    requires
        i < sizes@.len(),
    ensures
        as_positions(r@) == group_at(size_keys(sizes@), i as int),
{
    let ghost keys = size_keys(sizes@);
    let ghost all = positions(keys.len());
    let ghost f = if_same(keys, i as int);
    let mut out: Vec<usize> = Vec::new();
    let mut j: usize = 0;
    assert(as_positions(out@) =~= collect_some(all.take(0), f));
    while j < sizes.len()
        invariant
            i < sizes@.len(),
            j <= sizes@.len(),
            keys == size_keys(sizes@),
            all == positions(keys.len()),
            f == if_same(keys, i as int),
            as_positions(out@) == collect_some(all.take(j as int), f),
        decreases sizes@.len() - j,
    {
        proof {
            lemma_collect_step(all, j as int, f);
        }
        if sizes[j] == sizes[i] {
            let ghost before = as_positions(out@);
            out.push(j);
            assert(as_positions(out@) =~= before.push(j as int));
        }
        j += 1;
    }
    assert(all.take(j as int) =~= all);
    out
}

/// The groups of at least two files of the same size.
pub fn groups_by_size(sizes: &Vec<u64>) -> (r: Vec<Vec<usize>>)
    ensures
        group_positions(r@) == groups_of(size_keys(sizes@)),
{
    let ghost keys = size_keys(sizes@);
    let ghost all = positions(keys.len());
    let ghost f = if_group(keys);
    let mut out: Vec<Vec<usize>> = Vec::new();
    let mut i: usize = 0;
    assert(group_positions(out@) =~= collect_some(all.take(0), f));
    while i < sizes.len()
        invariant
            i <= sizes@.len(),
            keys == size_keys(sizes@),
            all == positions(keys.len()),
            f == if_group(keys),
            group_positions(out@) == collect_some(all.take(i as int), f),
        decreases sizes@.len() - i,
    {
        proof {
            lemma_collect_step(all, i as int, f);
        }
        if size_first(sizes, i) {
            let g = size_group(sizes, i);
            assert(as_positions(g@).len() == g@.len());
            if g.len() > 1 {
                let ghost before = group_positions(out@);
                out.push(g);
                assert(group_positions(out@) =~= before.push(as_positions(g@)));
            }
        }
        i += 1;
    }
    assert(all.take(i as int) =~= all);
    out
}

fn hash_first(hashes: &Vec<Option<Vec<u8>>>, i: usize) -> (r: bool)
    requires
        i < hashes@.len(),
    ensures
        r == is_first(hash_keys(hashes@), i as int),
{
    let ghost keys = hash_keys(hashes@);
    if hashes[i].is_none() {
        return false;
    }
    let mut j: usize = 0;
    while j < i
        invariant
            j <= i < hashes@.len(),
            keys == hash_keys(hashes@),
            keys[i as int] is Some,
            forall|k: int| 0 <= k < j ==> #[trigger] keys[k] != keys[i as int],
        decreases i - j,
    {
        if same_hash(&hashes[j], &hashes[i]) {
            assert(keys[j as int] == keys[i as int]);
            return false;
        }
        j += 1;
    }
    true
}

fn hash_group(hashes: &Vec<Option<Vec<u8>>>, i: usize) -> (r: Vec<usize>)
    requires
        i < hashes@.len(),
    ensures
        as_positions(r@) == group_at(hash_keys(hashes@), i as int),
{
    let ghost keys = hash_keys(hashes@);
    let ghost all = positions(keys.len());
    let ghost f = if_same(keys, i as int);
    let mut out: Vec<usize> = Vec::new();
    let mut j: usize = 0;
    assert(as_positions(out@) =~= collect_some(all.take(0), f));
    while j < hashes.len()
        invariant
            i < hashes@.len(),
            j <= hashes@.len(),
            keys == hash_keys(hashes@),
            all == positions(keys.len()),
            f == if_same(keys, i as int),
            as_positions(out@) == collect_some(all.take(j as int), f),
        decreases hashes@.len() - j,
    {
        proof {
            lemma_collect_step(all, j as int, f);
        }
        if same_hash(&hashes[j], &hashes[i]) {
            let ghost before = as_positions(out@);
            out.push(j);
            assert(as_positions(out@) =~= before.push(j as int));
        }
        j += 1;
    }
    assert(all.take(j as int) =~= all);
    out
}

/// The groups of at least two files of the same digest.
pub fn groups_by_hash(hashes: &Vec<Option<Vec<u8>>>) -> (r: Vec<Vec<usize>>)
    ensures
        group_positions(r@) == groups_of(hash_keys(hashes@)),
{
    let ghost keys = hash_keys(hashes@);
    let ghost all = positions(keys.len());
    let ghost f = if_group(keys);
    let mut out: Vec<Vec<usize>> = Vec::new();
    let mut i: usize = 0;
    assert(group_positions(out@) =~= collect_some(all.take(0), f));
    while i < hashes.len()
        invariant
            i <= hashes@.len(),
            keys == hash_keys(hashes@),
            all == positions(keys.len()),
            f == if_group(keys),
            group_positions(out@) == collect_some(all.take(i as int), f),
        decreases hashes@.len() - i,
    {
        proof {
            lemma_collect_step(all, i as int, f);
        }
        if hash_first(hashes, i) {
            let g = hash_group(hashes, i);
            assert(as_positions(g@).len() == g@.len());
            if g.len() > 1 {
                let ghost before = group_positions(out@);
                out.push(g);
                assert(group_positions(out@) =~= before.push(as_positions(g@)));
            }
        }
        i += 1;
    }
    assert(all.take(i as int) =~= all);
    out
}

// ---- files ----

/// A file that may have a duplicate.
pub struct Candidate {
    pub path: String,
    pub logical: u64,
    pub physical: u64,
    /// The device and number of the file, by which two names of it are told.
    pub identity: Option<(u64, u64)>,
}

#[verifier::ext_equal]
pub struct CandidateModel {
    pub path: Seq<char>,
    pub logical: u64,
    pub physical: u64,
    pub identity: Option<(u64, u64)>,
}

impl View for Candidate {
    type V = CandidateModel;

    open spec fn view(&self) -> CandidateModel {
        CandidateModel {
            path: self.path@,
            logical: self.logical,
            physical: self.physical,
            identity: self.identity,
        }
    }
}

/// Whether a file with this identity is among some files.
pub open spec fn has_identity(s: Seq<CandidateModel>, id: (u64, u64)) -> bool {
    exists|i: int| 0 <= i < s.len() && (#[trigger] s[i]).identity == Some(id)
}

/// The files of a group without further names of the same file.
pub open spec fn distinct(group: Seq<CandidateModel>) -> Seq<CandidateModel>
    decreases group.len(),
{
    if group.len() == 0 {
        Seq::empty()
    } else {
        let rest = distinct(group.drop_last());
        match group.last().identity {
            Some(id) => if has_identity(rest, id) {
                rest
            } else {
                rest.push(group.last())
            },
            None => rest.push(group.last()),
        }
    }
}

fn copy_candidate(c: &Candidate) -> (r: Candidate)
    ensures
        r@ == c@,
{
    Candidate {
        path: c.path.clone(),
        logical: c.logical,
        physical: c.physical,
        identity: c.identity,
    }
}

fn identity_among(list: &Vec<Candidate>, id: (u64, u64)) -> (r: bool)
    ensures
        r == has_identity(views(list@), id),
{
    let ghost all = views(list@);
    let mut i: usize = 0;
    while i < list.len()
        invariant
            i <= list@.len(),
            all == views(list@),
            forall|j: int| 0 <= j < i ==> (#[trigger] all[j]).identity != Some(id),
        decreases list@.len() - i,
    {
        assert(all[i as int] == list@[i as int]@);
        if let Some(other) = list[i].identity {
            if other.0 == id.0 && other.1 == id.1 {
                return true;
            }
        }
        i += 1;
    }
    false
}

/// The files of a group without further names of the same file.
pub fn distinct_files(group: &Vec<Candidate>) -> (r: Vec<Candidate>)
    ensures
        views(r@) == distinct(views(group@)),
{
    let ghost all = views(group@);
    let mut out: Vec<Candidate> = Vec::new();
    let mut i: usize = 0;
    assert(views(out@) =~= distinct(all.take(0)));
    while i < group.len()
        invariant
            i <= group@.len(),
            all == views(group@),
            views(out@) == distinct(all.take(i as int)),
        decreases group@.len() - i,
    {
        assert(all.take(i + 1).drop_last() =~= all.take(i as int));
        assert(all[i as int] == group@[i as int]@);
        let repeated = match group[i].identity {
            Some(id) => identity_among(&out, id),
            None => false,
        };
        if !repeated {
            out.push(copy_candidate(&group[i]));
        }
        i += 1;
    }
    assert(all.take(i as int) =~= all);
    out
}

/// The bytes that some files take.
pub open spec fn physical_sum(s: Seq<CandidateModel>) -> nat
    decreases s.len(),
{
    if s.len() == 0 {
        0
    } else {
        physical_sum(s.drop_last()) + s.last().physical as nat
    }
}

/// The bytes of the smallest of some files; nothing where there are none.
pub open spec fn smallest(s: Seq<CandidateModel>) -> u64
    decreases s.len(),
{
    if s.len() == 0 {
        0
    } else if s.len() == 1 {
        s[0].physical
    } else {
        let rest = smallest(s.drop_last());
        if s.last().physical < rest {
            s.last().physical
        } else {
            rest
        }
    }
}

proof fn lemma_sum_grows(s: Seq<CandidateModel>, i: int)
    requires
        0 <= i <= s.len(),
    ensures
        physical_sum(s.take(i)) <= physical_sum(s),
    decreases s.len() - i,
{
    if i < s.len() {
        lemma_sum_grows(s, i + 1);
        assert(s.take(i + 1).drop_last() =~= s.take(i));
    } else {
        assert(s.take(i) =~= s);
    }
}

proof fn lemma_distinct_sum(s: Seq<CandidateModel>)
    ensures
        physical_sum(distinct(s)) <= physical_sum(s),
    decreases s.len(),
{
    if s.len() > 0 {
        lemma_distinct_sum(s.drop_last());
        let rest = distinct(s.drop_last());
        assert(rest.push(s.last()).drop_last() =~= rest);
    }
}

proof fn lemma_smallest(s: Seq<CandidateModel>)
    ensures
        smallest(s) <= physical_sum(s),
    decreases s.len(),
{
    if s.len() > 1 {
        lemma_smallest(s.drop_last());
    } else if s.len() == 1 {
        assert(s.drop_last() =~= Seq::<CandidateModel>::empty());
    }
}

/// The bytes that some files take, where they fit 64 bits.
fn bytes_of(group: &Vec<Candidate>) -> (r: Option<u64>)
    ensures
        match r {
            Some(n) => n == physical_sum(views(group@)),
            None => physical_sum(views(group@)) > u64::MAX,
        },
{
    let ghost all = views(group@);
    let mut total: u64 = 0;
    let mut i: usize = 0;
    while i < group.len()
        invariant
            i <= group@.len(),
            all == views(group@),
            total == physical_sum(all.take(i as int)),
        decreases group@.len() - i,
    {
        proof {
            lemma_sum_grows(all, i + 1);
        }
        assert(all.take(i + 1).drop_last() =~= all.take(i as int));
        assert(all[i as int] == group@[i as int]@);
        total = match total.checked_add(group[i].physical) {
            Some(n) => n,
            None => {
                return None;
            },
        };
        i += 1;
    }
    assert(all.take(i as int) =~= all);
    Some(total)
}

fn smallest_of(group: &Vec<Candidate>) -> (r: u64)
    ensures
        r == smallest(views(group@)),
{
    let ghost all = views(group@);
    if group.len() == 0 {
        return 0;
    }
    assert(all[0] == group@[0]@);
    let mut least: u64 = group[0].physical;
    let mut i: usize = 1;
    assert(all.take(1)[0] == all[0]);
    while i < group.len()
        invariant
            1 <= i <= group@.len(),
            all == views(group@),
            least == smallest(all.take(i as int)),
        decreases group@.len() - i,
    {
        assert(all.take(i + 1).drop_last() =~= all.take(i as int));
        assert(all[i as int] == group@[i as int]@);
        if group[i].physical < least {
            least = group[i].physical;
        }
        i += 1;
    }
    assert(all.take(i as int) =~= all);
    least
}

// ---- findings ----

/// A hexadecimal digit.
pub open spec fn hex_digit(n: int) -> char {
    if n < 10 {
        (n + 48) as char
    } else {
        (n + 87) as char
    }
}

/// Bytes in hexadecimal digits.
pub open spec fn hex(bytes: Seq<u8>) -> Seq<char>
    decreases bytes.len(),
{
    if bytes.len() == 0 {
        Seq::empty()
    } else {
        hex(bytes.drop_last()) + seq![
            hex_digit(bytes.last() as int / 16),
            hex_digit(bytes.last() as int % 16),
        ]
    }
}

fn digit_of(n: u8) -> (r: char)
    requires
        n < 16,
    ensures
        r == hex_digit(n as int),
{
    if n < 10 {
        (n + 48) as char
    } else {
        (n + 87) as char
    }
}

fn hex_text(bytes: &Vec<u8>, n: usize) -> (r: String)
    requires
        n <= bytes@.len(),
    ensures
        r@ == hex(bytes@.take(n as int)),
{
    let mut r = String::new();
    let mut i: usize = 0;
    assert(r@ =~= hex(bytes@.take(0)));
    while i < n
        invariant
            i <= n <= bytes@.len(),
            r@ == hex(bytes@.take(i as int)),
        decreases n - i,
    {
        assert(bytes@.take(i + 1).drop_last() =~= bytes@.take(i as int));
        let ghost before = r@;
        let b: u8 = bytes[i];
        r.push(digit_of(b / 16));
        r.push(digit_of(b % 16));
        assert(r@ =~= before + seq![hex_digit(b as int / 16), hex_digit(b as int % 16)]);
        i += 1;
    }
    r
}

/// The bytes that go where the smallest of some files stays.
pub open spec fn savings(files: Seq<CandidateModel>) -> u64 {
    (physical_sum(files) - smallest(files)) as u64
}

/// What is said of files with the same content.
pub open spec fn duplicate_draft(hash: Seq<u8>, files: Seq<CandidateModel>, apfs: bool) -> Draft {
    let id = hex(at_most(hash, 8));
    let potential = savings(files);
    draft(
        duplicates(),
        "exact-duplicate-files"@,
        "large-old-files"@,
        id,
        digits(files.len()) + " exact copies of a "@ + human(files[0].logical as nat) + " file"@,
        Safety::Risky,
        potential,
    )
        .grouped_paths(files.map_values(|c: CandidateModel| c.path))
        .size(
        FindingSize {
            logical: capped_product(files[0].logical, files.len() as u64),
            physical: physical_sum(files) as u64,
            unique: potential,
            shared: 0,
            reclaimable: potential,
            accuracy: SizeAccuracy::Estimated,
        },
    )
        .manual()
        .report_only()
        .confidence(Confidence::Exact)
        .reason(
        "All files have the same logical length and complete SHA-256 content hash."@,
    )
        .evidence("SHA-256 prefix"@, id)
        .evidence(
        "Storage estimate"@,
        if apfs {
            "APFS detected; clone-shared extents may make actual savings lower."@
        } else {
            "Allocated bytes of all but one retained copy."@
        },
    )
        .copy(
        "Byte-for-byte duplicate files at different paths."@,
        "Deleting the wrong copy may remove the version referenced by a project, library, or application."@,
        "Choose which copy to retain. Hokori will not auto-delete duplicate groups."@,
    )
}

/// The finding for a group of files with the same content, where at least two
/// are different files.
pub open spec fn duplicate_row(
    hash: Seq<u8>,
    group: Seq<CandidateModel>,
    apfs: bool,
) -> Option<FindingModel> {
    if distinct(group).len() < 2 {
        None
    } else {
        Some(duplicate_draft(hash, distinct(group), apfs).build())
    }
}

fn copy_paths(files: &Vec<Candidate>) -> (r: Vec<String>)
    ensures
        views(r@) == views(files@).map_values(|c: CandidateModel| c.path),
{
    let ghost all = views(files@);
    let mut out: Vec<String> = Vec::new();
    let mut i: usize = 0;
    while i < files.len()
        invariant
            i <= files@.len(),
            all == views(files@),
            views(out@) == all.take(i as int).map_values(|c: CandidateModel| c.path),
        decreases files@.len() - i,
    {
        assert(all[i as int] == files@[i as int]@);
        out.push(files[i].path.clone());
        assert(views(out@) =~= all.take(i + 1).map_values(|c: CandidateModel| c.path));
        i += 1;
    }
    assert(all.take(i as int) =~= all);
    out
}

/// The finding for a group of files with the same content.
pub fn duplicate_finding(hash: &Vec<u8>, group: &Vec<Candidate>, apfs: bool) -> (r: Option<Finding>)
    requires
        physical_sum(distinct(views(group@))) <= u64::MAX,
    ensures
        view_of(r) == duplicate_row(hash@, views(group@), apfs),
{
    let files = distinct_files(group);
    let n: usize = files.len();
    let ghost fs = distinct(views(group@));
    assert(fs.len() == n);
    if n < 2 {
        return None;
    }
    proof {
        lemma_smallest(fs);
    }
    assert(fs[0] == files@[0]@);
    let logical: u64 = files[0].logical;
    let physical: u64 = match bytes_of(&files) {
        Some(b) => b,
        None => 0,
    };
    let potential: u64 = physical - smallest_of(&files);
    let shown: usize = if hash.len() > 8 {
        8
    } else {
        hash.len()
    };
    let prefix = hex_text(hash, shown);
    assert(hash@.take(shown as int) =~= at_most(hash@, 8));
    let copies = copy_paths(&files);
    Some(ProviderFinding::object(
            metadata(),
            "exact-duplicate-files",
            "large-old-files",
            prefix.as_str(),
            text::decimal(n as u64).concat(" exact copies of a ").concat(
                human_bytes(logical).as_str(),
            ).concat(" file").as_str(),
            Safety::Risky,
            potential,
        )
            .grouped_paths(copies)
            .size(
            FindingSize {
                logical: times(logical, n as u64),
                physical: physical,
                unique: potential,
                shared: 0,
                reclaimable: potential,
                accuracy: SizeAccuracy::Estimated,
            },
        )
            .manual()
            .report_only()
            .confidence(Confidence::Exact)
            .reason(
            "All files have the same logical length and complete SHA-256 content hash.",
        )
            .evidence("SHA-256 prefix", prefix.as_str())
            .evidence(
            "Storage estimate",
            if apfs {
                "APFS detected; clone-shared extents may make actual savings lower."
            } else {
                "Allocated bytes of all but one retained copy."
            },
        )
            .copy(
            "Byte-for-byte duplicate files at different paths.",
            "Deleting the wrong copy may remove the version referenced by a project, library, or application.",
            "Choose which copy to retain. Hokori will not auto-delete duplicate groups.",
        )
            .build())
}

/// Files with the same content.
pub struct DuplicateGroup {
    pub hash: Vec<u8>,
    pub files: Vec<Candidate>,
    /// Whether the first file lies on a file system that may share what its
    /// copies take.
    pub apfs: bool,
}

#[verifier::ext_equal]
pub struct DuplicateGroupModel {
    pub hash: Seq<u8>,
    pub files: Seq<CandidateModel>,
    pub apfs: bool,
}

impl View for DuplicateGroup {
    type V = DuplicateGroupModel;

    open spec fn view(&self) -> DuplicateGroupModel {
        DuplicateGroupModel { hash: self.hash@, files: views(self.files@), apfs: self.apfs }
    }
}

/// Whether what each group takes fits 64 bits.
pub open spec fn groups_fit(groups: Seq<DuplicateGroupModel>) -> bool {
    forall|i: int|
    0 <= i < groups.len() ==> physical_sum((#[trigger] groups[i]).files) <= u64::MAX
}

/// What each group takes.
pub open spec fn group_sizes(groups: Seq<DuplicateGroupModel>) -> Seq<u64> {
    groups.map_values(|g: DuplicateGroupModel| physical_sum(g.files) as u64)
}

/// The finding for the group at a position.
pub open spec fn row_at(groups: Seq<DuplicateGroupModel>) -> spec_fn(usize) -> Option<FindingModel> {
    |k: usize|
    duplicate_row(groups[k as int].hash, groups[k as int].files, groups[k as int].apfs)
}

/// The most groups that are reported.
pub const GROUP_LIMIT: usize = 200;

/// Whether findings are those of the groups that take most, largest first.
pub open spec fn reports_largest(groups: Seq<DuplicateGroupModel>, found: Seq<FindingModel>) -> bool {
    exists|order: Seq<usize>| #[trigger]
    sorting::is_ranking(group_sizes(groups), order) && found == collect_some(
        at_most(order, GROUP_LIMIT as int),
        row_at(groups),
    )
}

fn sizes_of(groups: &Vec<DuplicateGroup>) -> (r: Option<Vec<u64>>)
    ensures
        match r {
            Some(v) => groups_fit(views(groups@)) && v@ == group_sizes(views(groups@)),
            None => !groups_fit(views(groups@)),
        },
{
    let ghost all = views(groups@);
    let mut out: Vec<u64> = Vec::new();
    let mut i: usize = 0;
    while i < groups.len()
        invariant
            i <= groups@.len(),
            all == views(groups@),
            out@.len() == i,
            forall|j: int| 0 <= j < i ==> physical_sum((#[trigger] all[j]).files) <= u64::MAX,
            forall|j: int| 0 <= j < i ==> #[trigger] out@[j] == physical_sum(all[j].files) as u64,
        decreases groups@.len() - i,
    {
        assert(all[i as int] == groups@[i as int]@);
        match bytes_of(&groups[i].files) {
            Some(n) => {
                out.push(n);
            },
            None => {
                assert(physical_sum(all[i as int].files) > u64::MAX);
                return None;
            },
        }
        i += 1;
    }
    assert(out@ =~= group_sizes(all));
    Some(out)
}

fn largest_findings(groups: &Vec<DuplicateGroup>) -> (r: Option<Vec<Finding>>)
    ensures
        match r {
            Some(v) => groups_fit(views(groups@)) && reports_largest(views(groups@), views(v@)),
            None => !groups_fit(views(groups@)),
        },
{
    let ghost all = views(groups@);
    let keys = match sizes_of(groups) {
        Some(k) => k,
        None => {
            return None;
        },
    };
    let order = sorting::ranking(&keys);
    let ghost f = row_at(all);
    let limit: usize = if order.len() > GROUP_LIMIT {
        GROUP_LIMIT
    } else {
        order.len()
    };
    let mut out: Vec<Finding> = Vec::new();
    let mut i: usize = 0;
    assert(views(out@) =~= collect_some(order@.take(0), f));
    while i < limit
        invariant
            i <= limit <= order@.len(),
            all == views(groups@),
            groups_fit(all),
            f == row_at(all),
            forall|k: int| 0 <= k < order@.len() ==> (#[trigger] order@[k]) < groups@.len(),
            views(out@) == collect_some(order@.take(i as int), f),
        decreases limit - i,
    {
        proof {
            lemma_collect_step(order@, i as int, f);
        }
        let k: usize = order[i];
        assert(all[k as int] == groups@[k as int]@);
        proof {
            lemma_distinct_sum(all[k as int].files);
        }
        if let Some(x) = duplicate_finding(&groups[k].hash, &groups[k].files, groups[k].apfs) {
            out.push(x);
        }
        i += 1;
    }
    assert(order@.take(limit as int) =~= at_most(order@, GROUP_LIMIT as int));
    assert(sorting::is_ranking(group_sizes(all), order@));
    Some(out)
}

/// The group, where it holds more than one file.
pub open spec fn if_several() -> spec_fn(DuplicateGroupModel) -> Option<DuplicateGroupModel> {
    |g: DuplicateGroupModel|
    if distinct(g.files).len() > 1 {
        Some(g)
    } else {
        None
    }
}

fn copy_group(g: &DuplicateGroup) -> (r: DuplicateGroup)
    ensures
        r@ == g@,
{
    let mut files: Vec<Candidate> = Vec::new();
    let n: usize = g.files.len();
    let mut i: usize = 0;
    while i < n
        invariant
            i <= n,
            n == g.files@.len(),
            files@.len() == i,
            forall|j: int| 0 <= j < i ==> (#[trigger] files@[j])@ == g.files@[j]@,
        decreases n - i,
    {
        files.push(copy_candidate(&g.files[i]));
        i += 1;
    }
    let hash = g.hash.clone();
    assert(views(files@) =~= views(g.files@));
    assert(hash@ =~= g.hash@);
    DuplicateGroup { hash, files, apfs: g.apfs }
}

/// The groups that hold more than one file.
pub fn several(groups: &Vec<DuplicateGroup>) -> (r: Vec<DuplicateGroup>)
    ensures
        views(r@) == collect_some(views(groups@), if_several()),
{
    let ghost all = views(groups@);
    let ghost f = if_several();
    let mut out: Vec<DuplicateGroup> = Vec::new();
    let n: usize = groups.len();
    let mut i: usize = 0;
    assert(views(out@) =~= collect_some(all.take(0), f));
    while i < n
        invariant
            i <= n,
            n == groups@.len(),
            all == views(groups@),
            f == if_several(),
            views(out@) == collect_some(all.take(i as int), f),
        decreases n - i,
    {
        proof {
            lemma_collect_step(all, i as int, f);
        }
        assert(all[i as int] == groups@[i as int]@);
        if distinct_files(&groups[i].files).len() > 1 {
            out.push(copy_group(&groups[i]));
        }
        i += 1;
    }
    assert(all.take(i as int) =~= all);
    out
}

/// The findings for the groups of more than one file that take most, largest
/// first; nothing where what such a group takes is beyond 64 bits.
pub fn duplicate_findings(groups: &Vec<DuplicateGroup>) -> (r: Option<Vec<Finding>>)
    ensures
        match r {
            Some(v) => groups_fit(collect_some(views(groups@), if_several())) && reports_largest(
                collect_some(views(groups@), if_several()),
                views(v@),
            ),
            None => !groups_fit(collect_some(views(groups@), if_several())),
        },
{
    largest_findings(&several(groups))
}

// ---- removal ----

/// What the disk says of a copy before the others are removed.
pub struct CopyCheck {
    /// It is there, and neither a link nor anything but a file.
    pub regular: bool,
    /// The digest of its content, or why it could not be read.
    pub hash: Result<Vec<u8>, String>,
}

/// A second look: what it says, or why it failed.
pub enum Recheck {
    Says(RevalidationModel),
    Fails(Seq<char>),
}

/// Whether a path lies in one of some directories.
pub open spec fn in_roots(path: Seq<char>, roots: Seq<Seq<char>>) -> bool {
    exists|i: int| 0 <= i < roots.len() && under(path, #[trigger] roots[i])
}

pub fn lies_in_roots(path: &str, roots: &Vec<String>) -> (r: bool)
    ensures
        r == in_roots(path@, views(roots@)),
{
    let ghost all = views(roots@);
    let mut i: usize = 0;
    while i < roots.len()
        invariant
            i <= roots@.len(),
            all == views(roots@),
            forall|j: int| 0 <= j < i ==> !under(path@, #[trigger] all[j]),
        decreases roots@.len() - i,
    {
        assert(all[i as int] == roots@[i as int]@);
        if paths::starts_with(path, roots[i].as_str()) {
            return true;
        }
        i += 1;
    }
    false
}

/// What the copies from position `i` on say, after one with digest `seen`: the
/// first that lies outside, has changed, cannot be read or differs decides.
pub open spec fn copies_say(
    copies: Seq<Seq<char>>,
    checks: Seq<CopyCheck>,
    roots: Seq<Seq<char>>,
    i: int,
    seen: Option<Seq<u8>>,
) -> Recheck
    decreases copies.len() - i,
{
    if i < 0 || i >= copies.len() || i >= checks.len() {
        Recheck::Says(RevalidationModel::Valid)
    } else if !in_roots(copies[i], roots) {
        Recheck::Says(RevalidationModel::Blocked(copies[i] + " is outside the scan roots."@))
    } else if !checks[i].regular {
        Recheck::Says(RevalidationModel::Changed(copies[i] + " changed or disappeared."@))
    } else {
        match checks[i].hash {
            Err(e) => Recheck::Fails(e@),
            Ok(h) => if seen is Some && seen->0 != h@ {
                Recheck::Says(
                    RevalidationModel::Changed("The files no longer have identical content."@),
                )
            } else {
                copies_say(copies, checks, roots, i + 1, Some(h@))
            },
        }
    }
}

/// What a second look at copies says.
pub open spec fn rechecked(
    finding: FindingModel,
    checks: Seq<CopyCheck>,
    roots: Seq<Seq<char>>,
) -> Recheck {
    match finding.native_action {
        None => Recheck::Says(
            RevalidationModel::Blocked(
                "Duplicate deletion requires choosing a retained copy in the TUI."@,
            ),
        ),
        Some(a) => if a.action_id != "delete-duplicate-copies"@ {
            Recheck::Says(RevalidationModel::Blocked("Unknown duplicate action."@))
        } else if !(exists|i: int|
            0 <= i < finding.member_paths.len() && equal_paths(
                a.object_id,
                #[trigger] finding.member_paths[i],
        )) {
            Recheck::Says(
                RevalidationModel::Blocked(
                    "The retained copy is not part of this duplicate group."@,
                ),
            )
        } else {
            copies_say(finding.member_paths, checks, roots, 0, None)
        },
    }
}

pub open spec fn recheck_of(r: Result<Revalidation, String>) -> Recheck {
    match r {
        Ok(v) => Recheck::Says(v@),
        Err(e) => Recheck::Fails(e@),
    }
}

fn holds_path(list: &Vec<String>, path: &str) -> (r: bool)
    ensures
        r == exists|i: int|
        0 <= i < views(list@).len() && equal_paths(path@, #[trigger] views(list@)[i]),
{
    let ghost all = views(list@);
    let found = paths::among_paths(path, list);
    proof {
        if found {
            let i = choose|i: int| 0 <= i < list@.len() && equal_paths(path@, #[trigger] list@[i]@);
            assert(equal_paths(path@, all[i]));
        }
        if exists|i: int| 0 <= i < all.len() && equal_paths(path@, #[trigger] all[i]) {
            let i = choose|i: int| 0 <= i < all.len() && equal_paths(path@, #[trigger] all[i]);
            assert(equal_paths(path@, list@[i]@));
        }
    }
    found
}

/// A second look at copies before all but one are removed; `checks` says what
/// the disk says of each.
pub fn recheck(finding: &Finding, checks: &Vec<CopyCheck>, roots: &Vec<String>) -> (r: Result<
    Revalidation,
    String,
    >)
    ensures
        recheck_of(r) == rechecked(finding@, checks@, views(roots@)),
{
    let a = match &finding.native_action {
        Some(a) => a,
        None => {
            return Ok(
                Revalidation::Blocked(
                    "Duplicate deletion requires choosing a retained copy in the TUI.".to_owned(),
                ),
            );
        },
    };
    if !same(a.action_id.as_str(), "delete-duplicate-copies") {
        return Ok(Revalidation::Blocked("Unknown duplicate action.".to_owned()));
    }
    if !holds_path(&finding.member_paths, a.object_id.as_str()) {
        return Ok(
            Revalidation::Blocked(
                "The retained copy is not part of this duplicate group.".to_owned(),
            ),
        );
    }
    check_copies(&finding.member_paths, checks, roots)
}

fn check_copies(copies: &Vec<String>, checks: &Vec<CopyCheck>, roots: &Vec<String>) -> (r: Result<
    Revalidation,
    String,
    >)
    ensures
        recheck_of(r) == copies_say(views(copies@), checks@, views(roots@), 0, None),
{
    let ghost all = views(copies@);
    let ghost mut seen = None::<Seq<u8>>;
    let mut i: usize = 0;
    while i < copies.len() && i < checks.len()
        invariant
            i <= copies@.len(),
            i <= checks@.len(),
            all == views(copies@),
            i == 0 ==> seen is None,
            i > 0 ==> (checks@[i - 1].hash matches Ok(h) && seen == Some(h@)),
            copies_say(all, checks@, views(roots@), 0, None) == copies_say(
                all,
                checks@,
                views(roots@),
                i as int,
                seen,
            ),
        decreases copies@.len() - i,
    {
        assert(all[i as int] == copies@[i as int]@);
        let path = copies[i].as_str();
        if !lies_in_roots(path, roots) {
            return Ok(
                Revalidation::Blocked(path.to_owned().concat(" is outside the scan roots.")),
            );
        }
        if !checks[i].regular {
            return Ok(Revalidation::Changed(path.to_owned().concat(" changed or disappeared.")));
        }
        match &checks[i].hash {
            Err(e) => {
                return Err(e.clone());
            },
            Ok(h) => {
                if i > 0 {
                    if let Ok(before) = &checks[i - 1].hash {
                        if !same_bytes(before, h) {
                            return Ok(
                                Revalidation::Changed(
                                    "The files no longer have identical content.".to_owned(),
                                ),
                            );
                        }
                    }
                }
                proof {
                    seen = Some(h@);
                }
            },
        }
        i += 1;
    }
    Ok(Revalidation::Valid)
}

/// A copy that goes.
pub open spec fn if_not_kept(kept: Seq<char>) -> spec_fn(Seq<char>) -> Option<Seq<char>> {
    |p: Seq<char>|
    if equal_paths(p, kept) {
        None
    } else {
        Some(p)
    }
}

fn goes(path: &str, kept: &str) -> (r: Option<String>)
    ensures
        view_of(r) == if_not_kept(kept@)(path@),
{
    if paths::same_path(path, kept) {
        None
    } else {
        Some(path.to_owned())
    }
}

/// The copies that go: all but the one that is kept.
pub fn copies_to_remove(copies: &Vec<String>, kept: &str) -> (r: Vec<String>)
    ensures
        views(r@) == collect_some(views(copies@), if_not_kept(kept@)),
{
    let ghost all = views(copies@);
    let ghost f = if_not_kept(kept@);
    let mut out: Vec<String> = Vec::new();
    let limit: usize = copies.len();
    let mut i: usize = 0;
    assert(views(out@) =~= collect_some(all.take(0), f));
    while i < limit
        invariant
            i <= limit <= copies@.len(),
            all == views(copies@),
            f == if_not_kept(kept@),
            views(out@) == collect_some(all.take(i as int), f),
        decreases limit - i,
    {
        proof {
            lemma_collect_step(all, i as int, f);
        }
        assert(all[i as int] == copies@[i as int]@);
        if let Some(x) = goes(copies[i].as_str(), kept) {
            out.push(x);
        }
        i += 1;
    }
    assert(all.take(limit as int) =~= all);
    out
}

/// What is reported once `deleted` copies have been removed.
pub fn executed(kept: &str, deleted: u64, freed: u64) -> (r: ProviderExecution)
    ensures
        r.deleted == deleted,
        r.freed_bytes == freed,
        r.message@ == "Kept "@ + kept@ + "; removed "@ + digits(deleted as nat)
            + " duplicate copies."@,
{
    ProviderExecution {
        deleted,
        freed_bytes: freed,
        message: "Kept ".to_owned().concat(kept).concat("; removed ").concat(
            text::decimal(deleted).as_str(),
        ).concat(" duplicate copies."),
    }
}

// ---- laws ----

/// The kept copy is never among those that go.
pub proof fn law_kept_copy_stays(copies: Seq<Seq<char>>, kept: Seq<char>, i: int)
    requires
        0 <= i < collect_some(copies, if_not_kept(kept)).len(),
    ensures
        !equal_paths(collect_some(copies, if_not_kept(kept))[i], kept),
    decreases copies.len(),
{
    let rest = collect_some(copies.drop_last(), if_not_kept(kept));
    if i < rest.len() {
        law_kept_copy_stays(copies.drop_last(), kept, i);
    }
}

/// A group promises no more than all its files but one take, and is only
/// reported until a copy to keep is chosen.
pub proof fn law_one_copy_is_kept(hash: Seq<u8>, group: Seq<CandidateModel>, apfs: bool)
    requires
        physical_sum(distinct(group)) <= u64::MAX,
    ensures
        match duplicate_row(hash, group, apfs) {
            Some(f) => f.report_only && f.manual_only && f.native_action is None && f.bytes
                + smallest(distinct(group)) == physical_sum(distinct(group)),
            None => true,
        },
{
    lemma_smallest(distinct(group));
}

/// Two names of one file are never taken for two copies.
pub proof fn law_hard_links_are_one_file(group: Seq<CandidateModel>, i: int, j: int)
    requires
        0 <= i < j < distinct(group).len(),
    ensures
        distinct(group)[i].identity is Some ==> distinct(group)[i].identity
        != distinct(group)[j].identity,
    decreases group.len(),
{
    let rest = distinct(group.drop_last());
    if j < rest.len() {
        law_hard_links_are_one_file(group.drop_last(), i, j);
    } else {
        assert(distinct(group)[i] == rest[i]);
    }
}

proof fn lemma_together<K>(keys: Seq<Option<K>>, i: int, j: int)
    requires
        0 <= i < keys.len(),
        0 <= j < keys.len(),
    ensures
        group_at(keys, i).contains(j) <==> keys[j] == keys[i],
{
    let all = positions(keys.len());
    crate::seqs::law_collected_is_made(all, if_same(keys, i), j);
    assert(all[j] == j);
}

proof fn lemma_group_members<K>(keys: Seq<Option<K>>, i: int)
    requires
        0 <= i < keys.len(),
    ensures
        forall|a: int|
        0 <= a < group_at(keys, i).len() ==> 0 <= #[trigger] group_at(keys, i)[a] < keys.len()
            && keys[group_at(keys, i)[a]] == keys[i],
        forall|a: int, b: int|
        #![trigger group_at(keys, i)[a], group_at(keys, i)[b]]
        0 <= a < b < group_at(keys, i).len() ==> group_at(keys, i)[a] < group_at(keys, i)[b],
{
    let all = positions(keys.len());
    let f = if_same(keys, i);
    let g = group_at(keys, i);
    assert forall|a: int| 0 <= a < g.len() implies 0 <= #[trigger] g[a] < keys.len() && keys[g[a]]
        == keys[i] by {
        crate::seqs::lemma_collect_origin(all, f, a);
        let m = choose|m: int| 0 <= m < all.len() && f(#[trigger] all[m]) == Some(g[a]);
        assert(all[m] == m);
    }
    assert forall|a: int, b: int|
    #![trigger g[a], g[b]]
    0 <= a < b < g.len() implies g[a] < g[b] by {
        crate::seqs::law_collecting_keeps_order(all, f, a, b);
        let (x, y) = choose|x: int, y: int|
        #![trigger all[x], all[y]]
        0 <= x < y < all.len() && f(all[x]) == Some(g[a]) && f(all[y]) == Some(g[b]);
        assert(all[x] == x && all[y] == y);
    }
}

/// Whether two positions stand in one group.
pub open spec fn stand_together(groups: Seq<Seq<int>>, a: int, b: int) -> bool {
    exists|g: int| 0 <= g < groups.len() && (#[trigger] groups[g]).contains(a) && groups[g].contains(b)
}

proof fn lemma_first_of<K>(keys: Seq<Option<K>>, a: int) -> (i: int)
    requires
        0 <= a < keys.len(),
        keys[a] is Some,
    ensures
        0 <= i <= a,
        is_first(keys, i),
        keys[i] == keys[a],
    decreases a,
{
    if is_first(keys, a) {
        a
    } else {
        let j = choose|j: int| 0 <= j < a && #[trigger] keys[j] == keys[a];
        lemma_first_of(keys, j)
    }
}

/// Any two positions with the same key stand in one group, however many others share
/// it.
pub proof fn law_equal_keys_stand_together<K>(keys: Seq<Option<K>>, a: int, b: int)
    requires
        0 <= a < keys.len(),
        0 <= b < keys.len(),
        a != b,
        keys[a] is Some,
        keys[a] == keys[b],
    ensures
        stand_together(groups_of(keys), a, b),
{
    let all = positions(keys.len());
    let i = lemma_first_of(keys, a);
    let own = group_at(keys, i);
    lemma_together(keys, i, a);
    lemma_together(keys, i, b);
    let x = choose|x: int| 0 <= x < own.len() && own[x] == a;
    let y = choose|y: int| 0 <= y < own.len() && own[y] == b;
    assert(x != y);
    assert(all[i] == i);
    crate::seqs::law_collected_is_made(all, if_group(keys), own);
    let g = choose|g: int| 0 <= g < groups_of(keys).len() && groups_of(keys)[g] == own;
    assert(groups_of(keys)[g].contains(a) && groups_of(keys)[g].contains(b));
}

/// The positions of a group all have a key, and the same one; there are at least two,
/// none of them twice.
pub proof fn law_groups_share_a_key<K>(keys: Seq<Option<K>>, g: int)
    requires
        0 <= g < groups_of(keys).len(),
    ensures
        groups_of(keys)[g].len() >= 2,
        forall|a: int|
        0 <= a < groups_of(keys)[g].len() ==> 0 <= #[trigger] groups_of(keys)[g][a] < keys.len()
            && keys[groups_of(keys)[g][a]] is Some,
        forall|a: int, b: int|
        #![trigger groups_of(keys)[g][a], groups_of(keys)[g][b]]
        0 <= a < b < groups_of(keys)[g].len() ==> groups_of(keys)[g][a] < groups_of(keys)[g][b]
            && keys[groups_of(keys)[g][a]] == keys[groups_of(keys)[g][b]],
{
    let all = positions(keys.len());
    crate::seqs::lemma_collect_origin(all, if_group(keys), g);
    let i = choose|i: int|
    0 <= i < all.len() && if_group(keys)(#[trigger] all[i]) == Some(groups_of(keys)[g]);
    assert(all[i] == i);
    lemma_group_members(keys, i);
}

/// No position stands in two groups.
pub proof fn law_groups_are_apart<K>(keys: Seq<Option<K>>, g: int, h: int, a: int)
    requires
        0 <= g < groups_of(keys).len(),
        0 <= h < groups_of(keys).len(),
        groups_of(keys)[g].contains(a),
        groups_of(keys)[h].contains(a),
    ensures
        g == h,
{
    let all = positions(keys.len());
    let f = if_group(keys);
    if g != h {
        let (x, y) = if g < h {
            (g, h)
        } else {
            (h, g)
        };
        crate::seqs::law_collecting_keeps_order(all, f, x, y);
        let (i, j) = choose|i: int, j: int|
        #![trigger all[i], all[j]]
        0 <= i < j < all.len() && f(all[i]) == Some(groups_of(keys)[x]) && f(all[j]) == Some(
            groups_of(keys)[y],
        );
        assert(all[i] == i && all[j] == j);
        lemma_group_members(keys, i);
        lemma_group_members(keys, j);
        let p = choose|p: int| 0 <= p < groups_of(keys)[x].len() && groups_of(keys)[x][p] == a;
        let q = choose|q: int| 0 <= q < groups_of(keys)[y].len() && groups_of(keys)[y][q] == a;
        assert(keys[group_at(keys, i)[p]] == keys[i]);
        assert(keys[group_at(keys, j)[q]] == keys[j]);
        assert(keys[i] == keys[j]);
    }
}

/// Files of one size are looked at together, and only those: any two stand in one
/// group, and in no other.
pub proof fn law_files_of_one_size_stand_together(sizes: Seq<u64>, a: int, b: int)
    requires
        0 <= a < sizes.len(),
        0 <= b < sizes.len(),
        a != b,
    ensures
        stand_together(groups_of(size_keys(sizes)), a, b) <==> sizes[a] == sizes[b],
{
    let keys = size_keys(sizes);
    if sizes[a] == sizes[b] {
        law_equal_keys_stand_together(keys, a, b);
    }
    if stand_together(groups_of(keys), a, b) {
        let g = choose|g: int|
        0 <= g < groups_of(keys).len() && (#[trigger] groups_of(keys)[g]).contains(a)
            && groups_of(keys)[g].contains(b);
        lemma_share(keys, g, a, b);
    }
}

proof fn lemma_share<K>(keys: Seq<Option<K>>, g: int, a: int, b: int)
    requires
        0 <= g < groups_of(keys).len(),
        groups_of(keys)[g].contains(a),
        groups_of(keys)[g].contains(b),
    ensures
        keys[a] == keys[b],
        keys[a] is Some,
{
    law_groups_share_a_key(keys, g);
    let p = choose|p: int| 0 <= p < groups_of(keys)[g].len() && groups_of(keys)[g][p] == a;
    let q = choose|q: int| 0 <= q < groups_of(keys)[g].len() && groups_of(keys)[g][q] == b;
    if p < q {
        assert(keys[groups_of(keys)[g][p]] == keys[groups_of(keys)[g][q]]);
    } else if q < p {
        assert(keys[groups_of(keys)[g][q]] == keys[groups_of(keys)[g][p]]);
    }
}

/// Files of one digest are copies of each other, and only those: any two stand in
/// one group; a file without a digest stands in none.
pub proof fn law_files_of_one_digest_stand_together(hashes: Seq<Option<Vec<u8>>>, a: int, b: int)
    requires
        0 <= a < hashes.len(),
        0 <= b < hashes.len(),
        a != b,
    ensures
        stand_together(groups_of(hash_keys(hashes)), a, b) <==> hashes[a] is Some && hashes[b] is Some
            && hashes[a]->0@ == hashes[b]->0@,
{
    let keys = hash_keys(hashes);
    if hashes[a] is Some && hashes[b] is Some && hashes[a]->0@ == hashes[b]->0@ {
        law_equal_keys_stand_together(keys, a, b);
    }
    if stand_together(groups_of(keys), a, b) {
        let g = choose|g: int|
        0 <= g < groups_of(keys).len() && (#[trigger] groups_of(keys)[g]).contains(a)
            && groups_of(keys)[g].contains(b);
        lemma_share(keys, g, a, b);
    }
}

/// A file is kept exactly where it is a file, no link and large enough; a directory
/// is searched exactly where it is none of those that hold generated files.
pub proof fn law_large_files_are_kept(
    name: Seq<char>,
    is_symlink: bool,
    is_dir: bool,
    is_file: bool,
    len: u64,
    floor: u64,
)
    ensures
        search_choice(name, is_symlink, is_dir, is_file, len, floor) == SearchStep::Keep <==> !is_symlink
            && !is_dir && is_file && len >= floor,
        search_choice(name, is_symlink, is_dir, is_file, len, floor) == SearchStep::Enter <==> !is_symlink
            && is_dir && name != ".git"@ && name != "node_modules"@ && name != "target"@ && name != ".venv"@
            && name != "venv"@ && name != "vendor"@ && name != ".gradle"@ && name != ".next"@ && name
            != "dist"@ && name != "build"@ && name != "DerivedData"@ && name != "Pods"@ && name != ".Trash"@,
{
}

/// Of the names of one file one stays, and every file that cannot be told from others
/// stays; nothing else is there.
pub proof fn law_every_file_is_there(group: Seq<CandidateModel>, i: int)
    requires
        0 <= i < group.len(),
    ensures
        group[i].identity is None ==> distinct(group).contains(group[i]),
        group[i].identity is Some ==> has_identity(distinct(group), group[i].identity->0),
        forall|j: int| 0 <= j < distinct(group).len() ==> group.contains(#[trigger] distinct(group)[j]),
    decreases group.len(),
{
    let less = group.drop_last();
    let rest = distinct(less);
    let all = distinct(group);
    let last = group.last();
    assert(group[group.len() - 1] == last);
    let pushed = all == rest.push(last);
    assert(pushed || all == rest);
    if pushed {
        assert(all[rest.len() as int] == last);
    }
    assert forall|j: int| 0 <= j < rest.len() implies #[trigger] all[j] == rest[j] by {}
    if less.len() > 0 {
        let k = if i < less.len() {
            i
        } else {
            0
        };
        law_every_file_is_there(less, k);
        assert(less[k] == group[k]);
        assert forall|j: int| 0 <= j < all.len() implies group.contains(#[trigger] all[j]) by {
            if j < rest.len() {
                assert(less.contains(rest[j]));
                let m = choose|m: int| 0 <= m < less.len() && less[m] == rest[j];
                assert(group[m] == rest[j]);
            }
        }
        if i < less.len() {
            if group[i].identity is None {
                let j = choose|j: int| 0 <= j < rest.len() && rest[j] == group[i];
                assert(all[j] == group[i]);
            } else {
                let id = group[i].identity->0;
                let j = choose|j: int| 0 <= j < rest.len() && (#[trigger] rest[j]).identity == Some(id);
                assert(all[j].identity == Some(id));
            }
        }
    } else {
        assert(rest.len() == 0);
    }
    if i == less.len() {
        if last.identity is Some {
            let id = last.identity->0;
            if has_identity(rest, id) {
                let j = choose|j: int| 0 <= j < rest.len() && (#[trigger] rest[j]).identity == Some(id);
                assert(all[j].identity == Some(id));
            } else {
                assert(all[rest.len() as int].identity == Some(id));
            }
        }
    }
}

/// The smallest copy takes no more than any, and as much as one of them; sums are
/// those of all.
pub proof fn law_smallest_copy(s: Seq<CandidateModel>, c: CandidateModel)
    requires
        s.len() > 0,
    ensures
        forall|i: int| 0 <= i < s.len() ==> smallest(s) <= (#[trigger] s[i]).physical,
        exists|i: int| 0 <= i < s.len() && smallest(s) == (#[trigger] s[i]).physical,
        physical_sum(s.push(c)) == physical_sum(s) + c.physical,
    decreases s.len(),
{
    assert(s.push(c).drop_last() =~= s);
    if s.len() > 1 {
        let less = s.drop_last();
        law_smallest_copy(less, c);
        assert forall|i: int| 0 <= i < less.len() implies #[trigger] s[i] == less[i] by {}
        assert(s[s.len() - 1] == s.last());
        let i = choose|i: int| 0 <= i < less.len() && smallest(less) == (#[trigger] less[i]).physical;
        assert(s[i] == less[i]);
    } else {
        assert(s[0].physical == smallest(s));
    }
}

/// Two files that are not one and the same are reported as copies; names of one file
/// alone are not.
pub proof fn law_copies_are_reported(hash: Seq<u8>, group: Seq<CandidateModel>, apfs: bool, i: int, j: int)
    requires
        0 <= i < j < group.len(),
    ensures
        group[i].identity is Some && group[j].identity is Some && group[i].identity != group[j].identity
            ==> duplicate_row(hash, group, apfs) is Some,
        group[i].identity is None && group[j].identity is Some ==> duplicate_row(hash, group, apfs) is Some,
        (forall|k: int| 0 <= k < group.len() ==> (#[trigger] group[k]).identity == group[0].identity)
            && group[0].identity is Some ==> duplicate_row(hash, group, apfs) is None,
{
    let d = distinct(group);
    law_every_file_is_there(group, i);
    law_every_file_is_there(group, j);
    if group[j].identity is Some {
        let y = choose|y: int| 0 <= y < d.len() && (#[trigger] d[y]).identity == group[j].identity;
        if group[i].identity is Some && group[i].identity != group[j].identity {
            let x = choose|x: int| 0 <= x < d.len() && (#[trigger] d[x]).identity == group[i].identity;
            assert(x != y);
        }
        if group[i].identity is None {
            let x = choose|x: int| 0 <= x < d.len() && d[x] == group[i];
            assert(x != y);
        }
    }
    if (forall|k: int| 0 <= k < group.len() ==> (#[trigger] group[k]).identity == group[0].identity)
        && group[0].identity is Some && d.len() >= 2 {
        assert(group.contains(d[0]) && group.contains(d[1]));
        let a = choose|a: int| 0 <= a < group.len() && group[a] == d[0];
        let b = choose|b: int| 0 <= b < group.len() && group[b] == d[1];
        assert(group[a].identity == group[0].identity && group[b].identity == group[0].identity);
        law_hard_links_are_one_file(group, 0, 1);
    }
}

/// Up to 200 groups of copies are all reported.
pub proof fn law_groups_are_reported(groups: Seq<DuplicateGroupModel>, found: Seq<FindingModel>, g: int)
    requires
        reports_largest(groups, found),
        groups.len() <= 200,
        0 <= g < groups.len(),
        distinct(groups[g].files).len() >= 2,
    ensures
        found.contains(duplicate_row(groups[g].hash, groups[g].files, groups[g].apfs)->0),
{
    let order = choose|order: Seq<usize>| #[trigger]
    sorting::is_ranking(group_sizes(groups), order) && found == collect_some(
        at_most(order, GROUP_LIMIT as int),
        row_at(groups),
    );
    assert(order.len() == groups.len());
    assert(at_most(order, GROUP_LIMIT as int) =~= order);
    let k = g as usize;
    assert(order.contains(k));
    let i = choose|i: int| 0 <= i < order.len() && order[i] == k;
    let row = duplicate_row(groups[g].hash, groups[g].files, groups[g].apfs)->0;
    assert(row_at(groups)(order[i]) == Some(row));
    crate::seqs::law_collected_is_made(order, row_at(groups), row);
}

proof fn lemma_copies_say(
    copies: Seq<Seq<char>>,
    checks: Seq<CopyCheck>,
    roots: Seq<Seq<char>>,
    i: int,
    seen: Option<Seq<u8>>,
)
    requires
        copies.len() == checks.len(),
        0 <= i <= copies.len(),
    ensures
        copies_say(copies, checks, roots, i, seen) == Recheck::Says(RevalidationModel::Valid) <==> {
            &&& forall|k: int|
                i <= k < copies.len() ==> in_roots(#[trigger] copies[k], roots) && checks[k].regular
                    && checks[k].hash is Ok
            &&& forall|k: int|
                i <= k < copies.len() && seen is Some ==> (#[trigger] checks[k]).hash->Ok_0@ == seen->0
            &&& forall|k: int|
                i <= k < copies.len() ==> (#[trigger] checks[k]).hash->Ok_0@ == checks[i].hash->Ok_0@
        },
    decreases copies.len() - i,
{
    if i < copies.len() {
        if in_roots(copies[i], roots) && checks[i].regular && checks[i].hash is Ok {
            let h = checks[i].hash->Ok_0@;
            lemma_copies_say(copies, checks, roots, i + 1, Some(h));
            let next = copies_say(copies, checks, roots, i + 1, Some(h));
            if copies_say(copies, checks, roots, i, seen) == Recheck::Says(RevalidationModel::Valid) {
                assert(next == Recheck::Says(RevalidationModel::Valid));
                assert forall|k: int| i <= k < copies.len() implies (#[trigger] checks[k]).hash->Ok_0@ == h by {
                    if k > i {
                        assert(checks[k].hash->Ok_0@ == h);
                    }
                }
                assert forall|k: int| i <= k < copies.len() implies in_roots(#[trigger] copies[k], roots)
                    && checks[k].regular && checks[k].hash is Ok by {}
            }
            if (forall|k: int|
                i <= k < copies.len() ==> in_roots(#[trigger] copies[k], roots) && checks[k].regular
                    && checks[k].hash is Ok) && (forall|k: int|
                i <= k < copies.len() && seen is Some ==> (#[trigger] checks[k]).hash->Ok_0@ == seen->0) && (
            forall|k: int|
                i <= k < copies.len() ==> (#[trigger] checks[k]).hash->Ok_0@ == checks[i].hash->Ok_0@) {
                assert(checks[i].hash->Ok_0@ == h);
                assert forall|k: int| i + 1 <= k < copies.len() implies (#[trigger] checks[k]).hash->Ok_0@
                    == checks[i + 1].hash->Ok_0@ by {
                    assert(checks[i + 1].hash->Ok_0@ == h);
                    assert(checks[k].hash->Ok_0@ == h);
                }
                assert(next == Recheck::Says(RevalidationModel::Valid));
            }
        } else {
            assert(copies_say(copies, checks, roots, i, seen) != Recheck::Says(RevalidationModel::Valid));
        }
    }
}

/// Copies may go exactly where all of them lie in the roots, are files and still have
/// the same content, and the one that is kept is one of them.
pub proof fn law_copies_may_go(finding: FindingModel, checks: Seq<CopyCheck>, roots: Seq<Seq<char>>)
    requires
        checks.len() == finding.member_paths.len(),
    ensures
        rechecked(finding, checks, roots) == Recheck::Says(RevalidationModel::Valid) <==> {
            &&& finding.native_action is Some
            &&& finding.native_action->0.action_id == "delete-duplicate-copies"@
            &&& exists|i: int|
                0 <= i < finding.member_paths.len() && equal_paths(
                    finding.native_action->0.object_id,
                    #[trigger] finding.member_paths[i],
                )
            &&& forall|k: int|
                0 <= k < checks.len() ==> in_roots(#[trigger] finding.member_paths[k], roots)
                    && checks[k].regular && checks[k].hash is Ok
            &&& forall|k: int|
                0 <= k < checks.len() ==> (#[trigger] checks[k]).hash->Ok_0@ == checks[0].hash->Ok_0@
        },
{
    let copies = finding.member_paths;
    lemma_copies_say(copies, checks, roots, 0, None);
    if let Some(a) = finding.native_action {
        if a.action_id == "delete-duplicate-copies"@ && (exists|i: int|
            0 <= i < copies.len() && equal_paths(a.object_id, #[trigger] copies[i])) {
            assert(rechecked(finding, checks, roots) == copies_say(copies, checks, roots, 0, None));
        } else {
            assert(rechecked(finding, checks, roots) != Recheck::Says(RevalidationModel::Valid));
        }
    }
}

/// All copies but the one that is kept are removed.
pub proof fn law_other_copies_go(copies: Seq<Seq<char>>, kept: Seq<char>, p: Seq<char>)
    ensures
        collect_some(copies, if_not_kept(kept)).contains(p) <==> copies.contains(p) && !equal_paths(p, kept),
{
    crate::seqs::law_collected_is_made(copies, if_not_kept(kept), p);
    if copies.contains(p) {
        let i = choose|i: int| 0 <= i < copies.len() && copies[i] == p;
        assert(!equal_paths(p, kept) ==> if_not_kept(kept)(copies[i]) == Some(p));
    }
}

/// Where only the home directory is to be searched, its usual places are; otherwise
/// exactly what was asked for is.
pub proof fn law_places_are_those_asked_for(home: Seq<char>, roots: Seq<Seq<char>>, names: Seq<Seq<char>>, i: int)
    ensures
        roots.len() != 1 ==> places(Some(home), roots, names) == roots,
        roots.len() == 1 && !equal_paths(roots[0], home) ==> places(Some(home), roots, names) == roots,
        places(None, roots, names) == roots,
        roots.len() == 1 && equal_paths(roots[0], home) ==> places(Some(home), roots, names).len() == names.len(),
        roots.len() == 1 && equal_paths(roots[0], home) && 0 <= i < names.len() ==> places(
            Some(home),
            roots,
            names,
        )[i] == paths::below(home, names[i]),
{
}

/// A group is told of only where it holds more than one file.
pub proof fn law_single_files_are_no_duplicates(g: DuplicateGroupModel)
    ensures
        if_several()(g) is Some <==> distinct(g.files).len() >= 2,
        if_several()(g) matches Some(h) ==> h == g,
{
}

/// Each byte is written in two hexadecimal digits, the higher first, with small letters.
pub proof fn law_bytes_are_two_digits(bytes: Seq<u8>, b: u8, n: int)
    ensures
        hex(Seq::empty()).len() == 0,
        hex(bytes.push(b)) == hex(bytes) + seq![hex_digit(b as int / 16), hex_digit(b as int % 16)],
        0 <= n < 10 ==> hex_digit(n) as int == '0' as int + n,
        10 <= n < 16 ==> hex_digit(n) as int == 'a' as int + (n - 10),
{
    assert(bytes.push(b).drop_last() =~= bytes);
}

} // verus!
