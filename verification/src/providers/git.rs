//! Git worktrees, LFS objects and loose objects that Git itself can give up.

use crate::paths;
use crate::paths::{equal_paths, name_of};
use crate::report::{Confidence, Finding, FindingModel};
use crate::rules::Safety;
use crate::seqs::{
    at_most, collect_some, group_views, lemma_collect_origin, lemma_collect_step, paired, view_of,
    views,
};
use crate::sorting;
use crate::taxonomy::{Section, Subgroup};
use crate::text;
use crate::text::{digits, same};
use vstd::prelude::*;

use super::command::{
    Arg, ArgRule, CommandPolicy, admits, first_line, first_line_or, is_policy, is_token,
};
use super::docker::{all_hex, only_hex, twelve};
use super::{
    Capability, Draft, MetadataModel, ProviderExecution, ProviderFinding, ProviderMetadata,
    ProviderSettings, Revalidation, RevalidationModel, ScanCost, ScanProfile, available_if,
    completed, draft, evidence_at, evidence_value, is_available_if, parse_human_bytes,
    printed_bytes, revalidate_against, revalidated,
};

verus! {

broadcast use group_views;

pub struct GitProvider;

/// What the provider is.
pub open spec fn git() -> MetadataModel {
    MetadataModel {
        id: "git"@,
        name: "Git repositories"@,
        section: Section::Developer,
        subgroup: Subgroup::Repositories,
        cost: ScanCost::Moderate,
        quick: true,
        deep: true,
        network_in_deep_scan: true,
        supersedes_rules: Seq::empty(),
    }
}

fn metadata() -> (r: ProviderMetadata)
    ensures
        r@ == git(),
{
    let r = ProviderMetadata {
        id: "git",
        name: "Git repositories",
        section: Section::Developer,
        subgroup: Subgroup::Repositories,
        cost: ScanCost::Moderate,
        quick: true,
        deep: true,
        network_in_deep_scan: true,
        supersedes_rules: &[],
    };
    assert(r@.supersedes_rules =~= git().supersedes_rules);
    r
}

impl GitProvider {
    pub fn metadata(&self) -> (r: ProviderMetadata)
        ensures
            r@ == git(),
    {
        metadata()
    }
}

// ---- commands ----

pub open spec fn git_executables() -> Seq<&'static str> {
    seq!["/usr/bin/git", "/opt/homebrew/bin/git", "git"]
}

/// The command `git -C <path> worktree list --porcelain -z`.
pub fn worktree_list() -> (r: CommandPolicy)
    ensures
        is_policy(
            r,
            "git-worktree-list"@,
            git_executables(),
            false,
            false,
            seq![Arg::Is("-C"), Arg::AbsolutePath, Arg::Is("worktree"), Arg::Is("list"), Arg::Is("--porcelain"), Arg::Is("-z")],
        ),
{
    let r = CommandPolicy {
        id: "git-worktree-list",
        executables: &["/usr/bin/git", "/opt/homebrew/bin/git", "git"],
        mutating: false,
        network: false,
        args: ArgRule::Form(&[Arg::Is("-C"), Arg::AbsolutePath, Arg::Is("worktree"), Arg::Is("list"), Arg::Is("--porcelain"), Arg::Is("-z")]),
    };
    assert(r.executables@ =~= git_executables());
    r
}

/// The command `git -C <path> worktree prune --dry-run --verbose`.
pub fn worktree_prune_preview() -> (r: CommandPolicy)
    ensures
        is_policy(
            r,
            "git-worktree-prune-preview"@,
            git_executables(),
            false,
            false,
            seq![Arg::Is("-C"), Arg::AbsolutePath, Arg::Is("worktree"), Arg::Is("prune"), Arg::Is("--dry-run"), Arg::Is("--verbose")],
        ),
{
    let r = CommandPolicy {
        id: "git-worktree-prune-preview",
        executables: &["/usr/bin/git", "/opt/homebrew/bin/git", "git"],
        mutating: false,
        network: false,
        args: ArgRule::Form(&[Arg::Is("-C"), Arg::AbsolutePath, Arg::Is("worktree"), Arg::Is("prune"), Arg::Is("--dry-run"), Arg::Is("--verbose")]),
    };
    assert(r.executables@ =~= git_executables());
    r
}

/// The command `git -C <path> status --porcelain=v1 -z --untracked-files=all`.
pub fn git_status() -> (r: CommandPolicy)
    ensures
        is_policy(
            r,
            "git-status"@,
            git_executables(),
            false,
            false,
            seq![Arg::Is("-C"), Arg::AbsolutePath, Arg::Is("status"), Arg::Is("--porcelain=v1"), Arg::Is("-z"), Arg::Is("--untracked-files=all")],
        ),
{
    let r = CommandPolicy {
        id: "git-status",
        executables: &["/usr/bin/git", "/opt/homebrew/bin/git", "git"],
        mutating: false,
        network: false,
        args: ArgRule::Form(&[Arg::Is("-C"), Arg::AbsolutePath, Arg::Is("status"), Arg::Is("--porcelain=v1"), Arg::Is("-z"), Arg::Is("--untracked-files=all")]),
    };
    assert(r.executables@ =~= git_executables());
    r
}

/// The command `git -C <path> log -1 --format=%ct`.
pub fn git_last_commit() -> (r: CommandPolicy)
    ensures
        is_policy(
            r,
            "git-last-commit"@,
            git_executables(),
            false,
            false,
            seq![Arg::Is("-C"), Arg::AbsolutePath, Arg::Is("log"), Arg::Is("-1"), Arg::Is("--format=%ct")],
        ),
{
    let r = CommandPolicy {
        id: "git-last-commit",
        executables: &["/usr/bin/git", "/opt/homebrew/bin/git", "git"],
        mutating: false,
        network: false,
        args: ArgRule::Form(&[Arg::Is("-C"), Arg::AbsolutePath, Arg::Is("log"), Arg::Is("-1"), Arg::Is("--format=%ct")]),
    };
    assert(r.executables@ =~= git_executables());
    r
}

/// The command `git -C <path> rev-parse --abbrev-ref --symbolic-full-name @{u}`.
pub fn git_upstream() -> (r: CommandPolicy)
    ensures
        is_policy(
            r,
            "git-upstream"@,
            git_executables(),
            false,
            false,
            seq![Arg::Is("-C"), Arg::AbsolutePath, Arg::Is("rev-parse"), Arg::Is("--abbrev-ref"), Arg::Is("--symbolic-full-name"), Arg::Is("@{u}")],
        ),
{
    let r = CommandPolicy {
        id: "git-upstream",
        executables: &["/usr/bin/git", "/opt/homebrew/bin/git", "git"],
        mutating: false,
        network: false,
        args: ArgRule::Form(&[Arg::Is("-C"), Arg::AbsolutePath, Arg::Is("rev-parse"), Arg::Is("--abbrev-ref"), Arg::Is("--symbolic-full-name"), Arg::Is("@{u}")]),
    };
    assert(r.executables@ =~= git_executables());
    r
}

/// The command `git -C <path> rev-list --left-right --count <name> --`.
pub fn git_rev_counts() -> (r: CommandPolicy)
    ensures
        is_policy(
            r,
            "git-rev-counts"@,
            git_executables(),
            false,
            false,
            seq![Arg::Is("-C"), Arg::AbsolutePath, Arg::Is("rev-list"), Arg::Is("--left-right"), Arg::Is("--count"), Arg::Token, Arg::Is("--")],
        ),
{
    let r = CommandPolicy {
        id: "git-rev-counts",
        executables: &["/usr/bin/git", "/opt/homebrew/bin/git", "git"],
        mutating: false,
        network: false,
        args: ArgRule::Form(&[Arg::Is("-C"), Arg::AbsolutePath, Arg::Is("rev-list"), Arg::Is("--left-right"), Arg::Is("--count"), Arg::Token, Arg::Is("--")]),
    };
    assert(r.executables@ =~= git_executables());
    r
}

/// The command `git -C <path> count-objects -vH`.
pub fn git_count_objects() -> (r: CommandPolicy)
    ensures
        is_policy(
            r,
            "git-count-objects"@,
            git_executables(),
            false,
            false,
            seq![Arg::Is("-C"), Arg::AbsolutePath, Arg::Is("count-objects"), Arg::Is("-vH")],
        ),
{
    let r = CommandPolicy {
        id: "git-count-objects",
        executables: &["/usr/bin/git", "/opt/homebrew/bin/git", "git"],
        mutating: false,
        network: false,
        args: ArgRule::Form(&[Arg::Is("-C"), Arg::AbsolutePath, Arg::Is("count-objects"), Arg::Is("-vH")]),
    };
    assert(r.executables@ =~= git_executables());
    r
}

/// The command `git -C <path> lfs prune --dry-run --verbose`.
pub fn git_lfs_prune_preview() -> (r: CommandPolicy)
    ensures
        is_policy(
            r,
            "git-lfs-prune-preview"@,
            git_executables(),
            false,
            false,
            seq![Arg::Is("-C"), Arg::AbsolutePath, Arg::Is("lfs"), Arg::Is("prune"), Arg::Is("--dry-run"), Arg::Is("--verbose")],
        ),
{
    let r = CommandPolicy {
        id: "git-lfs-prune-preview",
        executables: &["/usr/bin/git", "/opt/homebrew/bin/git", "git"],
        mutating: false,
        network: false,
        args: ArgRule::Form(&[Arg::Is("-C"), Arg::AbsolutePath, Arg::Is("lfs"), Arg::Is("prune"), Arg::Is("--dry-run"), Arg::Is("--verbose")]),
    };
    assert(r.executables@ =~= git_executables());
    r
}

/// The command `git -C <path> lfs prune --dry-run --verbose --verify-remote`.
pub fn git_lfs_prune_verify_preview() -> (r: CommandPolicy)
    ensures
        is_policy(
            r,
            "git-lfs-prune-verify-preview"@,
            git_executables(),
            false,
            true,
            seq![Arg::Is("-C"), Arg::AbsolutePath, Arg::Is("lfs"), Arg::Is("prune"), Arg::Is("--dry-run"), Arg::Is("--verbose"), Arg::Is("--verify-remote")],
        ),
{
    let r = CommandPolicy {
        id: "git-lfs-prune-verify-preview",
        executables: &["/usr/bin/git", "/opt/homebrew/bin/git", "git"],
        mutating: false,
        network: true,
        args: ArgRule::Form(&[Arg::Is("-C"), Arg::AbsolutePath, Arg::Is("lfs"), Arg::Is("prune"), Arg::Is("--dry-run"), Arg::Is("--verbose"), Arg::Is("--verify-remote")]),
    };
    assert(r.executables@ =~= git_executables());
    r
}

/// The command `git -C <path> worktree remove -- <path>`.
pub fn worktree_remove() -> (r: CommandPolicy)
    ensures
        is_policy(
            r,
            "git-worktree-remove"@,
            git_executables(),
            true,
            false,
            seq![Arg::Is("-C"), Arg::AbsolutePath, Arg::Is("worktree"), Arg::Is("remove"), Arg::Is("--"), Arg::AbsolutePath],
        ),
{
    let r = CommandPolicy {
        id: "git-worktree-remove",
        executables: &["/usr/bin/git", "/opt/homebrew/bin/git", "git"],
        mutating: true,
        network: false,
        args: ArgRule::Form(&[Arg::Is("-C"), Arg::AbsolutePath, Arg::Is("worktree"), Arg::Is("remove"), Arg::Is("--"), Arg::AbsolutePath]),
    };
    assert(r.executables@ =~= git_executables());
    r
}

/// The command `git -C <path> worktree prune --verbose`.
pub fn worktree_prune() -> (r: CommandPolicy)
    ensures
        is_policy(
            r,
            "git-worktree-prune"@,
            git_executables(),
            true,
            false,
            seq![Arg::Is("-C"), Arg::AbsolutePath, Arg::Is("worktree"), Arg::Is("prune"), Arg::Is("--verbose")],
        ),
{
    let r = CommandPolicy {
        id: "git-worktree-prune",
        executables: &["/usr/bin/git", "/opt/homebrew/bin/git", "git"],
        mutating: true,
        network: false,
        args: ArgRule::Form(&[Arg::Is("-C"), Arg::AbsolutePath, Arg::Is("worktree"), Arg::Is("prune"), Arg::Is("--verbose")]),
    };
    assert(r.executables@ =~= git_executables());
    r
}

/// The command `git -C <path> lfs prune`.
pub fn git_lfs_prune() -> (r: CommandPolicy)
    ensures
        is_policy(
            r,
            "git-lfs-prune"@,
            git_executables(),
            true,
            false,
            seq![Arg::Is("-C"), Arg::AbsolutePath, Arg::Is("lfs"), Arg::Is("prune")],
        ),
{
    let r = CommandPolicy {
        id: "git-lfs-prune",
        executables: &["/usr/bin/git", "/opt/homebrew/bin/git", "git"],
        mutating: true,
        network: false,
        args: ArgRule::Form(&[Arg::Is("-C"), Arg::AbsolutePath, Arg::Is("lfs"), Arg::Is("prune")]),
    };
    assert(r.executables@ =~= git_executables());
    r
}

/// The command `git -C <path> lfs prune --verify-remote`.
pub fn git_lfs_prune_verify() -> (r: CommandPolicy)
    ensures
        is_policy(
            r,
            "git-lfs-prune-verify"@,
            git_executables(),
            true,
            true,
            seq![Arg::Is("-C"), Arg::AbsolutePath, Arg::Is("lfs"), Arg::Is("prune"), Arg::Is("--verify-remote")],
        ),
{
    let r = CommandPolicy {
        id: "git-lfs-prune-verify",
        executables: &["/usr/bin/git", "/opt/homebrew/bin/git", "git"],
        mutating: true,
        network: true,
        args: ArgRule::Form(&[Arg::Is("-C"), Arg::AbsolutePath, Arg::Is("lfs"), Arg::Is("prune"), Arg::Is("--verify-remote")]),
    };
    assert(r.executables@ =~= git_executables());
    r
}

/// The command `git -C <path> maintenance run --auto`.
pub fn git_maintenance() -> (r: CommandPolicy)
    ensures
        is_policy(
            r,
            "git-maintenance"@,
            git_executables(),
            true,
            false,
            seq![Arg::Is("-C"), Arg::AbsolutePath, Arg::Is("maintenance"), Arg::Is("run"), Arg::Is("--auto")],
        ),
{
    let r = CommandPolicy {
        id: "git-maintenance",
        executables: &["/usr/bin/git", "/opt/homebrew/bin/git", "git"],
        mutating: true,
        network: false,
        args: ArgRule::Form(&[Arg::Is("-C"), Arg::AbsolutePath, Arg::Is("maintenance"), Arg::Is("run"), Arg::Is("--auto")]),
    };
    assert(r.executables@ =~= git_executables());
    r
}

/// Whether Git is installed.
pub fn probe(installed: bool) -> (r: Capability)
    ensures
        is_available_if(r, installed, "Git is not installed."@),
{
    available_if(installed, "Git is not installed.")
}

/// The arguments of a Git command in a repository.
pub fn command_args(repository: &str, tail: &[&str]) -> (r: Vec<String>)
    ensures
        views(r@) == seq!["-C"@, repository@] + tail@.map_values(|s: &str| s@),
{
    let mut r = text::texts2("-C", repository);
    let mut more = text::owned(tail);
    r.append(&mut more);
    r
}

/// What a Git command printed: its output, or its messages where it printed
/// nothing, without the line ends at the end.
pub fn command_text(stdout: &str, stderr: &str) -> (r: String)
    ensures
        r@ == text::trim_end_of(
            if stdout@.len() == 0 {
                stderr@
            } else {
                stdout@
            },
            '\n',
        ),
{
    if stdout.is_empty() {
        text::trim_end_matches(stderr, '\n')
    } else {
        text::trim_end_matches(stdout, '\n')
    }
}

// ---- repositories ----

/// A repository and the Git directory that it shares with its worktrees.
pub struct Repository {
    pub path: String,
    pub common: Option<String>,
}

#[verifier::ext_equal]
pub struct RepositoryModel {
    pub path: Seq<char>,
    pub common: Option<Seq<char>>,
}

impl View for Repository {
    type V = RepositoryModel;

    open spec fn view(&self) -> RepositoryModel {
        RepositoryModel { path: self.path@, common: view_of(self.common) }
    }
}

/// Whether one of some repositories has this Git directory.
pub open spec fn seen(s: Seq<RepositoryModel>, common: Seq<char>) -> bool {
    exists|i: int|
    0 <= i < s.len() && (#[trigger] s[i]).common is Some && equal_paths(common, s[i].common->0)
}

/// The first repository of each Git directory.
pub open spec fn firsts(s: Seq<RepositoryModel>) -> Seq<Seq<char>>
    decreases s.len(),
{
    if s.len() == 0 {
        Seq::empty()
    } else {
        let rest = firsts(s.drop_last());
        match s.last().common {
            Some(c) => if seen(s.drop_last(), c) {
                rest
            } else {
                rest.push(s.last().path)
            },
            None => rest,
        }
    }
}

/// One repository for each Git directory, in the order of the paths.
pub fn main_repositories(repositories: &Vec<Repository>) -> (r: Vec<String>)
    ensures
        sorting::paths_in_order(views(r@)),
        views(r@).to_multiset() == firsts(views(repositories@)).to_multiset(),
{
    let ghost all = views(repositories@);
    let mut commons: Vec<String> = Vec::new();
    let mut mains: Vec<String> = Vec::new();
    assert(views(mains@) =~= firsts(all.take(0)));
    let mut i: usize = 0;
    while i < repositories.len()
        invariant
            i <= repositories@.len(),
            all == views(repositories@),
            views(mains@) == firsts(all.take(i as int)),
            forall|c: Seq<char>|
            #[trigger] seen(all.take(i as int), c) == exists|k: int|
            0 <= k < commons@.len() && equal_paths(c, #[trigger] commons@[k]@),
        decreases repositories@.len() - i,
    {
        let ghost before = all.take(i as int);
        assert(all.take(i + 1).drop_last() =~= before);
        assert(all[i as int] == repositories@[i as int]@);
        let ghost held = commons@;
        if let Some(common) = &repositories[i].common {
            assert(all[i as int].common == Some(common@));
            assert(seen(before, common@) == exists|k: int|
                0 <= k < commons@.len() && equal_paths(common@, #[trigger] commons@[k]@));
            if !paths::among_paths(common.as_str(), &commons) {
                mains.push(repositories[i].path.clone());
            }
            commons.push(common.clone());
        }
        proof {
            assert forall|c: Seq<char>| #[trigger] seen(all.take(i + 1), c) == exists|k: int|
            0 <= k < commons@.len() && equal_paths(c, #[trigger] commons@[k]@) by {
                lemma_seen_step(all, i as int, c);
                let here = exists|k: int|
                0 <= k < commons@.len() && equal_paths(c, #[trigger] commons@[k]@);
                let there = exists|k: int| 0 <= k < held.len() && equal_paths(c, #[trigger] held[k]@);
                assert(seen(before, c) == there);
                if there {
                    let k = choose|k: int| 0 <= k < held.len() && equal_paths(c, #[trigger] held[k]@);
                    assert(commons@[k] == held[k]);
                }
                if here {
                    let k = choose|k: int|
                    0 <= k < commons@.len() && equal_paths(c, #[trigger] commons@[k]@);
                    if k < held.len() {
                        assert(held[k] == commons@[k]);
                    }
                }
                if all[i as int].common is Some {
                    assert(commons@[held.len() as int]@ == all[i as int].common->0);
                }
            }
        }
        i += 1;
    }
    assert(all.take(i as int) =~= all);
    sorting::sort_paths(mains)
}

proof fn lemma_seen_step(s: Seq<RepositoryModel>, i: int, c: Seq<char>)
    requires
        0 <= i < s.len(),
    ensures
        seen(s.take(i + 1), c) == (seen(s.take(i), c) || (s[i].common is Some && equal_paths(
                    c,
                    s[i].common->0,
        ))),
{
    let a = s.take(i + 1);
    let b = s.take(i);
    if seen(a, c) {
        let k = choose|k: int|
        0 <= k < a.len() && (#[trigger] a[k]).common is Some && equal_paths(c, a[k].common->0);
        if k < i {
            assert(b[k] == a[k]);
        }
    }
    if seen(b, c) {
        let k = choose|k: int|
        0 <= k < b.len() && (#[trigger] b[k]).common is Some && equal_paths(c, b[k].common->0);
        assert(a[k] == b[k]);
    }
    assert(a[i] == s[i]);
}

/// The directory that a `.git` file of a repository names.
pub open spec fn named_git_dir(repository: Seq<char>, contents: Seq<char>) -> Option<Seq<char>> {
    match text::without_prefix(text::trimmed(contents), "gitdir:"@) {
        Some(rest) => Some(paths::below(repository, text::trimmed(rest))),
        None => None,
    }
}

pub fn linked_git_dir(repository: &str, contents: &str) -> (r: Option<String>)
    ensures
        view_of(r) == named_git_dir(repository@, contents@),
{
    match text::strip_prefix(text::trim(contents).as_str(), "gitdir:") {
        Some(rest) => Some(paths::join(repository, text::trim(rest.as_str()).as_str())),
        None => None,
    }
}

/// The Git directory that a linked one belongs to: the one above `worktrees`,
/// or the directory itself.
pub open spec fn shared_git_dir(git_dir: Seq<char>) -> Option<Seq<char>> {
    match paths::parent_of(git_dir) {
        Some(p) => if paths::last_name(p) == Some("worktrees"@) {
            paths::parent_of(p)
        } else {
            Some(git_dir)
        },
        None => None,
    }
}

pub fn common_git_dir(git_dir: &str) -> (r: Option<String>)
    ensures
        view_of(r) == shared_git_dir(git_dir@),
{
    match paths::parent(git_dir) {
        Some(p) => {
            let in_worktrees = match paths::file_name(p.as_str()) {
                Some(n) => same(n.as_str(), "worktrees"),
                None => false,
            };
            if in_worktrees {
                paths::parent(p.as_str())
            } else {
                Some(git_dir.to_owned())
            }
        },
        None => None,
    }
}

/// The packed bytes from which loose objects are worth a look.
pub const PACKED_FLOOR: u64 = 0x640_0000;

/// The most repositories that are looked at.
pub const REPOSITORY_LIMIT: usize = 100;

/// What is looked at in a repository.
#[derive(Debug, Clone, Copy, PartialEq, Eq, Structural)]
pub struct RepositoryWork {
    pub worktrees: bool,
    pub lfs: bool,
    pub maintenance: bool,
}

/// What is looked at in a repository: its worktrees and LFS objects where it
/// has such, its loose objects in a deep scan of a large repository.
pub fn repository_work(
    profile: ScanProfile,
    has_worktrees: bool,
    has_lfs: bool,
    packed: u64,
) -> (r: RepositoryWork)
    ensures
        r.worktrees == has_worktrees,
        r.lfs == has_lfs,
        r.maintenance == (profile == ScanProfile::Deep && packed >= 100 * 1024 * 1024),
{
    RepositoryWork {
        worktrees: has_worktrees,
        lfs: has_lfs,
        maintenance: profile == ScanProfile::Deep && packed >= PACKED_FLOOR,
    }
}

// ---- the list of worktrees ----

/// A worktree as Git lists it.
pub struct Worktree {
    pub path: String,
    pub head: String,
    pub branch: Option<String>,
    pub detached: bool,
    pub locked: Option<String>,
    pub prunable: Option<String>,
}

#[verifier::ext_equal]
pub struct WorktreeModel {
    pub path: Seq<char>,
    pub head: Seq<char>,
    pub branch: Option<Seq<char>>,
    pub detached: bool,
    pub locked: Option<Seq<char>>,
    pub prunable: Option<Seq<char>>,
}

impl View for Worktree {
    type V = WorktreeModel;

    open spec fn view(&self) -> WorktreeModel {
        WorktreeModel {
            path: self.path@,
            head: self.head@,
            branch: view_of(self.branch),
            detached: self.detached,
            locked: view_of(self.locked),
            prunable: view_of(self.prunable),
        }
    }
}

/// The fields between zero bytes.
pub open spec fn byte_fields(b: Seq<u8>) -> Seq<Seq<u8>>
    decreases b.len(),
{
    if b.len() == 0 {
        seq![Seq::empty()]
    } else {
        let rest = byte_fields(b.drop_last());
        if b.last() == 0 {
            rest.push(Seq::empty())
        } else {
            rest.drop_last().push(rest.last().push(b.last()))
        }
    }
}

proof fn lemma_fields_nonempty(b: Seq<u8>)
    ensures
        byte_fields(b).len() > 0,
    decreases b.len(),
{
    if b.len() > 0 {
        lemma_fields_nonempty(b.drop_last());
    }
}

fn split_fields(bytes: &[u8]) -> (r: Vec<Vec<u8>>)
    ensures
        views(r@) == byte_fields(bytes@),
{
    let mut done: Vec<Vec<u8>> = Vec::new();
    let mut cur: Vec<u8> = Vec::new();
    let mut i: usize = 0;
    assert(views(done@).push(cur@) =~= byte_fields(bytes@.take(0)));
    while i < bytes.len()
        invariant
            i <= bytes@.len(),
            views(done@).push(cur@) == byte_fields(bytes@.take(i as int)),
        decreases bytes@.len() - i,
    {
        let ghost before = byte_fields(bytes@.take(i as int));
        assert(bytes@.take(i + 1).drop_last() =~= bytes@.take(i as int));
        assert(before.drop_last() =~= views(done@));
        if bytes[i] == 0 {
            done.push(cur);
            cur = Vec::new();
            assert(cur@ =~= Seq::<u8>::empty());
        } else {
            cur.push(bytes[i]);
        }
        i += 1;
    }
    assert(bytes@.take(i as int) =~= bytes@);
    done.push(cur);
    done
}

/// A worktree of which only the path is known.
pub open spec fn new_worktree(path: Seq<char>) -> WorktreeModel {
    WorktreeModel {
        path,
        head: Seq::empty(),
        branch: None,
        detached: false,
        locked: None,
        prunable: None,
    }
}

/// What a field says of a worktree.
pub open spec fn with_field(w: WorktreeModel, field: Seq<char>) -> WorktreeModel {
    if let Some(head) = text::without_prefix(field, "HEAD "@) {
        WorktreeModel { head, ..w }
    } else if let Some(branch) = text::without_prefix(field, "branch "@) {
        WorktreeModel { branch: Some(branch), ..w }
    } else if field == "detached"@ {
        WorktreeModel { detached: true, ..w }
    } else if let Some(why) = text::without_prefix(field, "locked"@) {
        WorktreeModel { locked: Some(text::trimmed(why)), ..w }
    } else if let Some(why) = text::without_prefix(field, "prunable"@) {
        WorktreeModel { prunable: Some(text::trimmed(why)), ..w }
    } else {
        w
    }
}

/// The worktrees that are complete, and the one that is being read.
pub struct Reading {
    pub complete: Seq<WorktreeModel>,
    pub current: Option<WorktreeModel>,
}

impl Reading {
    /// Nothing is being read any more.
    pub open spec fn ended(self) -> Seq<WorktreeModel> {
        match self.current {
            Some(w) => self.complete.push(w),
            None => self.complete,
        }
    }

    /// An empty field ends a worktree, `worktree` begins one, any other field
    /// says something of the current one.
    pub open spec fn after(self, field: Seq<u8>) -> Reading {
        let t = text::lossy_text(field);
        if field.len() == 0 {
            Reading { complete: self.ended(), current: None }
        } else if let Some(path) = text::without_prefix(t, "worktree "@) {
            Reading { complete: self.ended(), current: Some(new_worktree(path)) }
        } else if let Some(w) = self.current {
            Reading { complete: self.complete, current: Some(with_field(w, t)) }
        } else {
            self
        }
    }
}

pub open spec fn reading(fields: Seq<Seq<u8>>) -> Reading
    decreases fields.len(),
{
    if fields.len() == 0 {
        Reading { complete: Seq::empty(), current: None }
    } else {
        reading(fields.drop_last()).after(fields.last())
    }
}

/// The worktrees in Git's list.
pub open spec fn worktrees_in(bytes: Seq<u8>) -> Seq<WorktreeModel> {
    reading(byte_fields(bytes)).ended()
}

fn apply_field(w: Worktree, field: &str) -> (r: Worktree)
    ensures
        r@ == with_field(w@, field@),
{
    let mut w = w;
    if let Some(head) = text::strip_prefix(field, "HEAD ") {
        w.head = head;
    } else if let Some(branch) = text::strip_prefix(field, "branch ") {
        w.branch = Some(branch);
    } else if same(field, "detached") {
        w.detached = true;
    } else if let Some(why) = text::strip_prefix(field, "locked") {
        w.locked = Some(text::trim(why.as_str()));
    } else if let Some(why) = text::strip_prefix(field, "prunable") {
        w.prunable = Some(text::trim(why.as_str()));
    }
    w
}

/// The worktrees in Git's list, whose fields end in zero bytes.
pub fn parse_worktrees(bytes: &[u8]) -> (r: Vec<Worktree>)
    ensures
        views(r@) == worktrees_in(bytes@),
{
    let fields = split_fields(bytes);
    let ghost all = views(fields@);
    let mut complete: Vec<Worktree> = Vec::new();
    let mut current: Option<Worktree> = None;
    let mut i: usize = 0;
    assert(views(complete@) =~= Seq::<WorktreeModel>::empty());
    assert(reading(all.take(0)).complete =~= Seq::<WorktreeModel>::empty());
    while i < fields.len()
        invariant
            i <= fields@.len(),
            all == views(fields@),
            views(complete@) == reading(all.take(i as int)).complete,
            view_of(current) == reading(all.take(i as int)).current,
        decreases fields@.len() - i,
    {
        assert(all.take(i + 1).drop_last() =~= all.take(i as int));
        assert(all[i as int] == fields@[i as int]@);
        if fields[i].len() == 0 {
            if let Some(w) = current {
                complete.push(w);
            }
            current = None;
        } else {
            let field = text::from_utf8_lossy(fields[i].as_slice());
            if let Some(path) = text::strip_prefix(field.as_str(), "worktree ") {
                if let Some(w) = current {
                    complete.push(w);
                }
                let w = Worktree {
                    path,
                    head: String::new(),
                    branch: None,
                    detached: false,
                    locked: None,
                    prunable: None,
                };
                assert(w@.head =~= Seq::<char>::empty());
                current = Some(w);
            } else {
                current = match current {
                    Some(w) => Some(apply_field(w, field.as_str())),
                    None => None,
                };
            }
        }
        i += 1;
    }
    assert(all.take(i as int) =~= all);
    if let Some(w) = current {
        complete.push(w);
    }
    complete
}

// ---- worktrees ----

pub open spec fn if_prunable() -> spec_fn(WorktreeModel) -> Option<WorktreeModel> {
    |w: WorktreeModel|
    if w.prunable is Some {
        Some(w)
    } else {
        None
    }
}

/// How many worktrees Git would prune.
pub fn prunable_count(worktrees: &Vec<Worktree>) -> (r: usize)
    ensures
        r == collect_some(views(worktrees@), if_prunable()).len(),
{
    let ghost all = views(worktrees@);
    let mut n: usize = 0;
    let mut i: usize = 0;
    let limit: usize = worktrees.len();
    while i < limit
        invariant
            i <= limit,
            limit == worktrees@.len(),
            n <= i,
            all == views(worktrees@),
            n == collect_some(all.take(i as int), if_prunable()).len(),
        decreases limit - i,
    {
        proof {
            lemma_collect_step(all, i as int, if_prunable());
        }
        assert(all[i as int] == worktrees@[i as int]@);
        if worktrees[i].prunable.is_some() {
            n += 1;
        }
        i += 1;
    }
    assert(all.take(i as int) =~= all);
    n
}

/// The finding for records of worktrees that are gone.
pub open spec fn prunable_draft(main: Seq<char>, records: nat, preview: Seq<char>) -> Draft {
    draft(
        git(),
        "git-prunable-worktree-metadata"@,
        "project-junk"@,
        main,
        name_of(main) + ": stale worktree metadata"@,
        Safety::Safe,
        0,
    )
        .reason(
        "Git reports linked-worktree records whose directories no longer exist."@,
    )
        .evidence("Repository"@, main)
        .evidence("Records"@, digits(records))
        .evidence(
        "Git preview"@,
        first_line_or(preview, "stale metadata confirmed"@),
    )
        .copy(
        "Administrative records for linked worktrees that are already missing."@,
        "Only stale metadata under the repository's Git directory is removed."@,
        "Safe to prune through Git's own worktree command."@,
    )
        .action(
        "prune-worktree-metadata"@,
        seq!["git"@, "-C"@, main, "worktree"@, "prune"@, "--verbose"@],
        true,
        false,
    )
}

fn prunable_finding(main: &str, records: usize, preview: &str) -> (r: Finding)
    ensures
        r@ == prunable_draft(main@, records as nat, preview@).build(),
{
    ProviderFinding::object(
        metadata(),
        "git-prunable-worktree-metadata",
        "project-junk",
        main,
        paths::name_or_empty(main).as_str().to_owned().concat(": stale worktree metadata").as_str(),
        Safety::Safe,
        0,
    )
        .reason(
        "Git reports linked-worktree records whose directories no longer exist.",
    )
        .evidence("Repository", main)
        .evidence("Records", text::decimal(records as u64).as_str())
        .evidence(
        "Git preview",
        first_line(preview, "stale metadata confirmed").as_str(),
    )
        .copy(
        "Administrative records for linked worktrees that are already missing.",
        "Only stale metadata under the repository's Git directory is removed.",
        "Safe to prune through Git's own worktree command.",
    )
        .action(
        "prune-worktree-metadata",
        text::texts6("git", "-C", main, "worktree", "prune", "--verbose"),
        true,
        false,
    )
        .build()
}

/// The most linked worktrees that are looked at.
pub const WORKTREE_LIMIT: usize = 200;

/// A linked worktree whose directory Git knows to be there.
pub open spec fn if_linked(main: Seq<char>) -> spec_fn(WorktreeModel) -> Option<WorktreeModel> {
    |w: WorktreeModel|
    if !equal_paths(w.path, main) && w.prunable is None {
        Some(w)
    } else {
        None
    }
}

/// The linked worktrees that are looked at; the first of the list is the main
/// one.
pub open spec fn linked(worktrees: Seq<WorktreeModel>) -> Seq<WorktreeModel> {
    if worktrees.len() == 0 {
        Seq::empty()
    } else {
        at_most(collect_some(worktrees, if_linked(worktrees[0].path)), WORKTREE_LIMIT as int)
    }
}

fn copy_worktree(w: &Worktree) -> (r: Worktree)
    ensures
        r@ == w@,
{
    Worktree {
        path: w.path.clone(),
        head: w.head.clone(),
        branch: text::copy_opt(&w.branch),
        detached: w.detached,
        locked: text::copy_opt(&w.locked),
        prunable: text::copy_opt(&w.prunable),
    }
}

/// The linked worktrees that are looked at.
pub fn linked_worktrees(worktrees: &Vec<Worktree>) -> (r: Vec<Worktree>)
    ensures
        views(r@) == linked(views(worktrees@)),
{
    let mut out: Vec<Worktree> = Vec::new();
    if worktrees.len() == 0 {
        return out;
    }
    let ghost all = views(worktrees@);
    let main = worktrees[0].path.as_str();
    assert(all[0].path == main@);
    let ghost f = if_linked(main@);
    let mut i: usize = 0;
    while i < worktrees.len()
        invariant
            i <= worktrees@.len(),
            all == views(worktrees@),
            f == if_linked(main@),
            views(out@) == collect_some(all.take(i as int), f),
        decreases worktrees@.len() - i,
    {
        proof {
            lemma_collect_step(all, i as int, f);
        }
        assert(all[i as int] == worktrees@[i as int]@);
        if !paths::same_path(worktrees[i].path.as_str(), main) && worktrees[i].prunable.is_none() {
            out.push(copy_worktree(&worktrees[i]));
        }
        i += 1;
    }
    assert(all.take(i as int) =~= all);
    if out.len() > WORKTREE_LIMIT {
        out.truncate(WORKTREE_LIMIT);
    }
    assert(views(out@) =~= linked(all));
    out
}

/// What was found out about a linked worktree. Texts are what commands printed;
/// nothing stands for a command that failed.
pub struct WorktreeFacts {
    pub is_dir: bool,
    pub cancelled: bool,
    pub last_commit: Option<String>,
    pub bytes: u64,
    pub status: Option<String>,
    pub upstream: Option<String>,
    pub counts: Option<String>,
}

#[verifier::ext_equal]
pub struct FactsModel {
    pub is_dir: bool,
    pub cancelled: bool,
    pub last_commit: Option<Seq<char>>,
    pub bytes: u64,
    pub status: Option<Seq<char>>,
    pub upstream: Option<Seq<char>>,
    pub counts: Option<Seq<char>>,
}

impl View for WorktreeFacts {
    type V = FactsModel;

    open spec fn view(&self) -> FactsModel {
        FactsModel {
            is_dir: self.is_dir,
            cancelled: self.cancelled,
            last_commit: view_of(self.last_commit),
            bytes: self.bytes,
            status: view_of(self.status),
            upstream: view_of(self.upstream),
            counts: view_of(self.counts),
        }
    }
}

/// The days between a moment and now; none for a moment to come.
pub open spec fn days_since(epoch: u64, now: u64) -> u64 {
    if now >= epoch {
        ((now - epoch) / 86_400) as u64
    } else {
        0
    }
}

pub fn epoch_age_days(epoch: u64, now: u64) -> (r: u64)
    ensures
        r == days_since(epoch, now),
{
    if now >= epoch {
        (now - epoch) / 86_400
    } else {
        0
    }
}

/// The days since the last commit; none where Git does not say.
pub open spec fn commit_age(printed: Option<Seq<char>>, now: u64) -> u64 {
    match printed {
        Some(t) => match text::unsigned(text::trimmed(t)) {
            Some(epoch) => days_since(epoch, now),
            None => 0,
        },
        None => 0,
    }
}

/// The days since the last commit; none where Git does not say.
pub fn last_commit_age(printed: &Option<String>, now: u64) -> (r: u64)
    ensures
        r == commit_age(view_of(*printed), now),
{
    match printed {
        Some(t) => match text::parse_u64(text::trim(t.as_str()).as_str()) {
            Some(epoch) => epoch_age_days(epoch, now),
            None => 0,
        },
        None => 0,
    }
}

/// Whether a worktree has changes, or its state is not known.
pub open spec fn is_dirty(status: Option<Seq<char>>) -> bool {
    status is None || status->0.len() > 0
}

/// The upstream of the branch, where there is one.
pub open spec fn upstream_of(printed: Option<Seq<char>>) -> Option<Seq<char>> {
    match printed {
        Some(t) => if text::trimmed(t).len() > 0 {
            Some(text::trimmed(t))
        } else {
            None
        },
        None => None,
    }
}

pub fn upstream_name(printed: &Option<String>) -> (r: Option<String>)
    ensures
        view_of(r) == upstream_of(view_of(*printed)),
{
    match printed {
        Some(t) => {
            let name = text::trim(t.as_str());
            if name.as_str().is_empty() {
                None
            } else {
                Some(name)
            }
        },
        None => None,
    }
}

/// The commits behind and ahead, as Git prints them.
pub open spec fn counts_in(printed: Seq<char>) -> Option<(u64, u64)> {
    let w = text::words(printed);
    if w.len() >= 2 && text::unsigned(w[0]) is Some && text::unsigned(w[1]) is Some {
        Some((text::unsigned(w[0])->0, text::unsigned(w[1])->0))
    } else {
        None
    }
}

pub fn parse_counts(value: &str) -> (r: Option<(u64, u64)>)
    ensures
        r == counts_in(value@),
{
    let w = text::split_whitespace(value);
    if w.len() < 2 {
        return None;
    }
    assert(views(w@)[0] == w@[0]@ && views(w@)[1] == w@[1]@);
    match (text::parse_u64(w[0].as_str()), text::parse_u64(w[1].as_str())) {
        (Some(behind), Some(ahead)) => Some((behind, ahead)),
        _ => None,
    }
}

/// The commits behind and ahead of the upstream, where both are known.
pub open spec fn known_counts(facts: FactsModel) -> Option<(u64, u64)> {
    if upstream_of(facts.upstream) is Some && facts.counts is Some {
        counts_in(facts.counts->0)
    } else {
        None
    }
}

/// The commits that the upstream does not have.
pub open spec fn ahead_of(counts: Option<(u64, u64)>) -> u64 {
    match counts {
        Some((_, ahead)) => ahead,
        None => 0,
    }
}

/// A worktree is protected unless it is clean, on a branch with a known
/// upstream, and has no commit that the upstream lacks.
pub open spec fn holds_local_work(w: WorktreeModel, facts: FactsModel) -> bool {
    ||| is_dirty(facts.status)
    ||| w.detached
    ||| upstream_of(facts.upstream) is None
    ||| known_counts(facts) is None
    ||| ahead_of(known_counts(facts)) > 0
}

/// The branch of a worktree, or what stands in for it.
pub open spec fn branch_of(w: WorktreeModel) -> Seq<char> {
    match w.branch {
        Some(b) => b,
        None => if w.detached {
            "detached HEAD"@
        } else {
            "unknown"@
        },
    }
}

/// The counts, in words.
pub open spec fn counts_text(counts: Option<(u64, u64)>) -> Seq<char> {
    match counts {
        Some((behind, ahead)) => digits(ahead as nat) + " ahead, "@ + digits(behind as nat)
            + " behind"@,
        None => "unknown"@,
    }
}

/// Whether a worktree is looked at further: it is there and not locked.
pub open spec fn is_examined(w: WorktreeModel, facts: FactsModel) -> bool {
    facts.is_dir && w.locked is None && !facts.cancelled
}

pub open spec fn upstream_or_none(facts: FactsModel) -> Seq<char> {
    match upstream_of(facts.upstream) {
        Some(u) => u,
        None => "none"@,
    }
}

/// What is said of an old worktree before the action is added.
pub open spec fn worktree_draft(
    main: Seq<char>,
    w: WorktreeModel,
    facts: FactsModel,
    age: u64,
) -> Draft {
    draft(
        git(),
        if holds_local_work(w, facts) {
            "git-protected-stale-worktree"@
        } else {
            "git-stale-worktree"@
        },
        "project-junk"@,
        w.path,
        name_of(w.path) + ": "@ + text::without_leading(branch_of(w), "refs/heads/"@),
        if holds_local_work(w, facts) {
            Safety::Protected
        } else {
            Safety::Review
        },
        facts.bytes,
    )
        .age(Some(age), false)
        .manual()
        .confidence(Confidence::High)
        .reason(
        if is_dirty(facts.status) {
            "The worktree is old but contains uncommitted or untracked files."@
        } else {
            if w.detached {
                "The worktree is old and detached, so branch ownership is ambiguous."@
            } else {
                if upstream_of(facts.upstream) is None {
                    "The worktree is old but its branch has no configured upstream."@
                } else {
                    if ahead_of(known_counts(facts)) > 0 {
                        "The worktree branch contains commits not present in its upstream."@
                    } else {
                        "The worktree is clean, old, and has no commits ahead of its upstream."@
                    }
                }
            }
        },
    )
        .evidence("Repository"@, main)
        .evidence("Worktree"@, w.path)
        .evidence("Branch"@, branch_of(w))
        .evidence("HEAD"@, at_most(w.head, 12))
        .evidence("Age"@, digits(age as nat) + " days"@)
        .evidence("Upstream"@, upstream_or_none(facts))
        .evidence("Ahead/behind"@, counts_text(known_counts(facts)))
        .copy(
        "A linked Git worktree that has not received a commit in the configured age window."@,
        "Removing the worktree deletes its checked-out files; the branch and commits remain in the repository."@,
        if holds_local_work(w, facts) {
            "Hokori will not remove this worktree because its local state cannot be proven disposable."@
        } else {
            "Review the branch and path. Hokori rechecks dirtiness and upstream state before using `git worktree remove`."@
        },
    )
}

/// The finding for a linked worktree that is old and large enough.
pub open spec fn worktree_row(
    main: Seq<char>,
    settings: ProviderSettings,
    now: u64,
) -> spec_fn((WorktreeModel, FactsModel)) -> Option<FindingModel> {
    |x: (WorktreeModel, FactsModel)|
    {
        let (w, facts) = x;
        let age = commit_age(facts.last_commit, now);
        if !is_examined(w, facts) || age < settings.min_age_days || facts.bytes
        < settings.min_size_bytes {
            None
        } else if holds_local_work(w, facts) {
            Some(worktree_draft(main, w, facts, age).protected().build())
        } else {
            Some(worktree_draft(main, w, facts, age)
                    .action(
                    "remove-worktree"@,
                    seq!["git"@, "-C"@, main, "worktree"@, "remove"@, "--"@, w.path],
                    true,
                    true,
                )
                    .build())
        }
    }
}

fn worktree_finding(
    main: &str,
    w: &Worktree,
    facts: &WorktreeFacts,
    settings: &ProviderSettings,
    now: u64,
) -> (r: Option<Finding>)
    ensures
        view_of(r) == worktree_row(main@, *settings, now)((w@, facts@)),
{
    if !facts.is_dir || w.locked.is_some() || facts.cancelled {
        return None;
    }
    let age: u64 = last_commit_age(&facts.last_commit, now);
    if age < settings.min_age_days || facts.bytes < settings.min_size_bytes {
        return None;
    }
    let dirty = match &facts.status {
        Some(t) => !t.as_str().is_empty(),
        None => true,
    };
    let upstream = upstream_name(&facts.upstream);
    let counts: Option<(u64, u64)> = match (&upstream, &facts.counts) {
        (Some(_), Some(t)) => parse_counts(t.as_str()),
        _ => None,
    };
    let ahead: u64 = match counts {
        Some((_, ahead)) => ahead,
        None => 0,
    };
    let protected = dirty || w.detached || upstream.is_none() || counts.is_none() || ahead > 0;
    let branch: &str = match &w.branch {
        Some(b) => b.as_str(),
        None => if w.detached {
            "detached HEAD"
        } else {
            "unknown"
        },
    };
    let shown_upstream: &str = match &upstream {
        Some(u) => u.as_str(),
        None => "none",
    };
    let shown_counts = match counts {
        Some((behind, ahead)) => text::decimal(ahead).concat(" ahead, ").concat(
            text::decimal(behind).as_str(),
        ).concat(" behind"),
        None => "unknown".to_owned(),
    };
    let builder = ProviderFinding::object(
        metadata(),
        if protected {
            "git-protected-stale-worktree"
        } else {
            "git-stale-worktree"
        },
        "project-junk",
        w.path.as_str(),
        paths::name_or_empty(w.path.as_str()).as_str().to_owned().concat(": ").concat(text::strip_leading(branch, "refs/heads/").as_str()).as_str(),
        if protected {
            Safety::Protected
        } else {
            Safety::Review
        },
        facts.bytes,
    )
        .age(Some(age), false)
        .manual()
        .confidence(Confidence::High)
        .reason(
        if dirty {
            "The worktree is old but contains uncommitted or untracked files."
        } else {
            if w.detached {
                "The worktree is old and detached, so branch ownership is ambiguous."
            } else {
                if upstream.is_none() {
                    "The worktree is old but its branch has no configured upstream."
                } else {
                    if ahead > 0 {
                        "The worktree branch contains commits not present in its upstream."
                    } else {
                        "The worktree is clean, old, and has no commits ahead of its upstream."
                    }
                }
            }
        },
    )
        .evidence("Repository", main)
        .evidence("Worktree", w.path.as_str())
        .evidence("Branch", branch)
        .evidence("HEAD", twelve(w.head.as_str()).as_str())
        .evidence("Age", text::decimal(age).concat(" days").as_str())
        .evidence("Upstream", shown_upstream)
        .evidence("Ahead/behind", shown_counts.as_str())
        .copy(
        "A linked Git worktree that has not received a commit in the configured age window.",
        "Removing the worktree deletes its checked-out files; the branch and commits remain in the repository.",
        if protected {
            "Hokori will not remove this worktree because its local state cannot be proven disposable."
        } else {
            "Review the branch and path. Hokori rechecks dirtiness and upstream state before using `git worktree remove`."
        },
    );
    if protected {
        Some(builder.protected().build())
    } else {
        Some(builder
                .action(
                "remove-worktree",
                text::texts7("git", "-C", main, "worktree", "remove", "--", w.path.as_str()),
                true,
                true,
            )
                .build())
    }
}

/// The findings for the worktrees of a repository: the records that Git would
/// prune, and each linked worktree with what was found out about it.
pub open spec fn worktree_rows(
    worktrees: Seq<WorktreeModel>,
    preview: Seq<char>,
    facts: Seq<FactsModel>,
    settings: ProviderSettings,
    now: u64,
) -> Seq<FindingModel> {
    if worktrees.len() == 0 {
        Seq::empty()
    } else {
        let main = worktrees[0].path;
        let records = collect_some(worktrees, if_prunable()).len();
        (if records > 0 {
                seq![prunable_draft(main, records, preview).build()]
            } else {
                Seq::empty()
        }) + collect_some(paired(linked(worktrees), facts), worktree_row(main, settings, now))
    }
}

/// The findings for the worktrees of a repository. `facts` holds what was found
/// out about each of the linked ones.
pub fn worktree_findings(
    worktrees: &Vec<Worktree>,
    preview: &str,
    facts: &Vec<WorktreeFacts>,
    settings: &ProviderSettings,
    now: u64,
) -> (r: Vec<Finding>)
    ensures
        views(r@) == worktree_rows(views(worktrees@), preview@, views(facts@), *settings, now),
{
    let mut out: Vec<Finding> = Vec::new();
    if worktrees.len() == 0 {
        return out;
    }
    let main = worktrees[0].path.as_str();
    let ghost all = views(worktrees@);
    assert(all[0].path == main@);
    let records: usize = prunable_count(worktrees);
    let ghost mut first = Seq::<FindingModel>::empty();
    if records > 0 {
        out.push(prunable_finding(main, records, preview));
        proof {
            first = seq![prunable_draft(main@, records as nat, preview@).build()];
        }
        assert(views(out@) =~= first);
    }
    let trees = linked_worktrees(worktrees);
    let ghost f = worktree_row(main@, *settings, now);
    let ghost pairs = paired(views(trees@), views(facts@));
    let limit: usize = if trees.len() < facts.len() {
        trees.len()
    } else {
        facts.len()
    };
    let mut i: usize = 0;
    assert(first + collect_some(pairs.take(0), f) =~= first);
    while i < limit
        invariant
            i <= limit,
            limit <= trees@.len(),
            limit <= facts@.len(),
            pairs == paired(views(trees@), views(facts@)),
            pairs.len() == limit,
            f == worktree_row(main@, *settings, now),
            views(out@) == first + collect_some(pairs.take(i as int), f),
        decreases limit - i,
    {
        proof {
            lemma_collect_step(pairs, i as int, f);
        }
        assert(pairs[i as int] == (trees@[i as int]@, facts@[i as int]@));
        if let Some(finding) = worktree_finding(main, &trees[i], &facts[i], settings, now) {
            let ghost before = collect_some(pairs.take(i as int), f);
            out.push(finding);
            assert((first + before).push(finding@) =~= first + before.push(finding@));
        }
        i += 1;
    }
    assert(pairs.take(i as int) =~= pairs);
    out
}

// ---- LFS objects ----

/// The most objects that a preview is read for.
pub const HASH_LIMIT: usize = 20_000;

/// The object that a line of the preview lists.
pub open spec fn listed_hash() -> spec_fn(Seq<char>) -> Option<Seq<char>> {
    |line: Seq<char>|
    match text::without_prefix(text::trimmed(line), "*"@) {
        Some(rest) => if text::trimmed(rest).len() >= 32 && all_hex(text::trimmed(rest)) {
            Some(text::trimmed(rest))
        } else {
            None
        },
        None => None,
    }
}

/// The objects that a preview lists.
pub open spec fn hashes_in(output: Seq<char>) -> Seq<Seq<char>> {
    at_most(collect_some(text::lines_of(output), listed_hash()), HASH_LIMIT as int)
}

fn hash_of_line(line: &str) -> (r: Option<String>)
    ensures
        view_of(r) == listed_hash()(line@),
{
    match text::strip_prefix(text::trim(line).as_str(), "*") {
        Some(rest) => {
            let hash = text::trim(rest.as_str());
            if hash.as_str().unicode_len() >= 32 && only_hex(hash.as_str()) {
                Some(hash)
            } else {
                None
            }
        },
        None => None,
    }
}

pub fn lfs_hashes(output: &str) -> (r: Vec<String>)
    ensures
        views(r@) == hashes_in(output@),
{
    let l = text::lines(output);
    let ghost all = text::lines_of(output@);
    let ghost f = listed_hash();
    let mut out: Vec<String> = Vec::new();
    let mut i: usize = 0;
    while i < l.len()
        invariant
            i <= l@.len(),
            all == views(l@),
            f == listed_hash(),
            views(out@) == collect_some(all.take(i as int), f),
        decreases l@.len() - i,
    {
        proof {
            lemma_collect_step(all, i as int, f);
        }
        assert(all[i as int] == l@[i as int]@);
        if let Some(hash) = hash_of_line(l[i].as_str()) {
            out.push(hash);
        }
        i += 1;
    }
    assert(all.take(i as int) =~= all);
    if out.len() > HASH_LIMIT {
        out.truncate(HASH_LIMIT);
    }
    assert(views(out@) =~= hashes_in(output@));
    out
}

/// Where an object lies below the directory of objects.
pub fn object_path(objects: &str, hash: &str) -> (r: String)
    requires
        hash@.len() >= 4,
    ensures
        r@ == paths::below(
            paths::below(paths::below(objects@, hash@.subrange(0, 2)), hash@.subrange(2, 4)),
            hash@,
        ),
{
    let v = text::chars_of(hash);
    let a = text::text_of(&v, 0, 2);
    let b = text::text_of(&v, 2, 4);
    paths::join(
        paths::join(paths::join(objects, a.as_str()).as_str(), b.as_str()).as_str(),
        hash,
    )
}

/// The objects of a preview have long names.
pub proof fn law_hashes_are_long(output: Seq<char>, i: int)
    requires
        0 <= i < hashes_in(output).len(),
    ensures
        hashes_in(output)[i].len() >= 32,
        all_hex(hashes_in(output)[i]),
{
    lemma_collect_origin(text::lines_of(output), listed_hash(), i);
}

/// The preview that lists what Git LFS can prune; a deep scan has the remote
/// asked for its copies.
pub fn lfs_preview(repository: &str, profile: ScanProfile) -> (r: (CommandPolicy, Vec<String>))
    ensures
        profile == ScanProfile::Deep ==> is_policy(
            r.0,
            "git-lfs-prune-verify-preview"@,
            git_executables(),
            false,
            true,
            seq![Arg::Is("-C"), Arg::AbsolutePath, Arg::Is("lfs"), Arg::Is("prune"), Arg::Is("--dry-run"), Arg::Is("--verbose"), Arg::Is("--verify-remote")],
        ) && views(r.1@)
            == seq!["-C"@, repository@, "lfs"@, "prune"@, "--dry-run"@, "--verbose"@, "--verify-remote"@],
        profile == ScanProfile::Quick ==> is_policy(
            r.0,
            "git-lfs-prune-preview"@,
            git_executables(),
            false,
            false,
            seq![Arg::Is("-C"), Arg::AbsolutePath, Arg::Is("lfs"), Arg::Is("prune"), Arg::Is("--dry-run"), Arg::Is("--verbose")],
        ) && views(r.1@)
            == seq!["-C"@, repository@, "lfs"@, "prune"@, "--dry-run"@, "--verbose"@],
        is_token(repository@) && paths::absolute(repository@) ==> admits(r.0.args@, views(r.1@)),
{
    match profile {
        ScanProfile::Deep => (
            git_lfs_prune_verify_preview(),
            text::texts7("-C", repository, "lfs", "prune", "--dry-run", "--verbose", "--verify-remote"),
        ),
        ScanProfile::Quick => (
            git_lfs_prune_preview(),
            text::texts6("-C", repository, "lfs", "prune", "--dry-run", "--verbose"),
        ),
    }
}

/// The finding for objects that Git LFS would prune.
pub open spec fn lfs_draft(
    repository: Seq<char>,
    objects: nat,
    bytes: u64,
    settings: ProviderSettings,
) -> Draft {
    draft(
        git(),
        "git-lfs-prunable-objects"@,
        "project-artifact"@,
        repository,
        name_of(repository) + ": prunable Git LFS objects"@,
        Safety::Safe,
        bytes,
    )
        .reason(
        if settings.profile == ScanProfile::Deep {
            "Git LFS verified the candidate objects against the configured remote."@
        } else {
            "Git LFS reports these objects as old, unused, and not uniquely unpushed."@
        },
    )
        .evidence("Repository"@, repository)
        .evidence("Objects"@, digits(objects))
        .copy(
        "Local Git LFS object copies that are not needed by current, recent, stashed, unpushed, or other-worktree references."@,
        "The objects must be downloaded again if an old commit needs them."@,
        "Deep scan additionally asks the remote to verify reachable copies before cleanup."@,
    )
        .action(
        if settings.profile == ScanProfile::Deep {
            "prune-lfs-verified"@
        } else {
            "prune-lfs"@
        },
        if settings.profile == ScanProfile::Deep {
            seq!["git"@, "-C"@, repository, "lfs"@, "prune"@, "--verify-remote"@]
        } else {
            seq!["git"@, "-C"@, repository, "lfs"@, "prune"@]
        },
        true,
        false,
    )
}

pub open spec fn lfs_rows(
    repository: Seq<char>,
    objects: nat,
    bytes: u64,
    settings: ProviderSettings,
) -> Seq<FindingModel> {
    if objects == 0 || bytes < settings.min_size_bytes {
        Seq::empty()
    } else {
        seq![lfs_draft(repository, objects, bytes, settings).build()]
    }
}

/// The finding for the objects of a preview, which take `bytes` on disk.
pub fn lfs_findings(
    repository: &str,
    hashes: &Vec<String>,
    bytes: u64,
    settings: &ProviderSettings,
) -> (r: Vec<Finding>)
    ensures
        views(r@) == lfs_rows(repository@, hashes@.len(), bytes, *settings),
{
    let mut out: Vec<Finding> = Vec::new();
    let objects: usize = hashes.len();
    if objects == 0 || bytes < settings.min_size_bytes {
        return out;
    }
    let deep = settings.profile == ScanProfile::Deep;
    let finding = ProviderFinding::object(
        metadata(),
        "git-lfs-prunable-objects",
        "project-artifact",
        repository,
        paths::name_or_empty(repository).as_str().to_owned().concat(": prunable Git LFS objects").as_str(),
        Safety::Safe,
        bytes,
    )
        .reason(
        if deep {
            "Git LFS verified the candidate objects against the configured remote."
        } else {
            "Git LFS reports these objects as old, unused, and not uniquely unpushed."
        },
    )
        .evidence("Repository", repository)
        .evidence("Objects", text::decimal(objects as u64).as_str())
        .copy(
        "Local Git LFS object copies that are not needed by current, recent, stashed, unpushed, or other-worktree references.",
        "The objects must be downloaded again if an old commit needs them.",
        "Deep scan additionally asks the remote to verify reachable copies before cleanup.",
    )
        .action(
        if deep {
            "prune-lfs-verified"
        } else {
            "prune-lfs"
        },
        if deep {
            text::texts6("git", "-C", repository, "lfs", "prune", "--verify-remote")
        } else {
            text::texts5("git", "-C", repository, "lfs", "prune")
        },
        true,
        false,
    )
        .build();
    out.push(finding);
    assert(views(out@) =~= lfs_rows(repository@, objects as nat, bytes, *settings));
    out
}

// ---- loose objects ----

/// The value that the last line with a key gives it, behind a separator.
pub open spec fn printed_value(lines: Seq<Seq<char>>, sep: char, key: Seq<char>) -> Option<
Seq<char>,
>
    decreases lines.len(),
{
    if lines.len() == 0 {
        None
    } else {
        match text::halves(lines.last(), sep) {
            Some((k, v)) => if text::trimmed(k) == key {
                Some(text::trimmed(v))
            } else {
                printed_value(lines.drop_last(), sep, key)
            },
            None => printed_value(lines.drop_last(), sep, key),
        }
    }
}

pub fn value_of(lines: &Vec<String>, sep: char, key: &str) -> (r: Option<String>)
    ensures
        view_of(r) == printed_value(views(lines@), sep, key@),
{
    let ghost all = views(lines@);
    let mut n: usize = lines.len();
    assert(all.take(n as int) =~= all);
    while n > 0
        invariant
            n <= lines@.len(),
            all == views(lines@),
            printed_value(all, sep, key@) == printed_value(all.take(n as int), sep, key@),
        decreases n,
    {
        assert(all.take(n as int).drop_last() =~= all.take(n - 1));
        assert(all.take(n as int).last() == lines@[n - 1]@);
        if let Some((k, v)) = text::split_once(lines[n - 1].as_str(), sep) {
            if same(text::trim(k.as_str()).as_str(), key) {
                return Some(text::trim(v.as_str()));
            }
        }
        n -= 1;
    }
    None
}

pub open spec fn loose_count(output: Seq<char>) -> u64 {
    match printed_value(text::lines_of(output), ':', "count"@) {
        Some(v) => match text::unsigned(v) {
            Some(n) => n,
            None => 0,
        },
        None => 0,
    }
}

pub open spec fn loose_size(output: Seq<char>) -> u64 {
    match printed_value(text::lines_of(output), ':', "size"@) {
        Some(v) => match printed_bytes(v) {
            Some(n) => n,
            None => 0,
        },
        None => 0,
    }
}

pub open spec fn shown_size(output: Seq<char>) -> Seq<char> {
    match printed_value(text::lines_of(output), ':', "size"@) {
        Some(v) => v,
        None => "unknown"@,
    }
}

/// The finding for a repository with many loose objects.
pub open spec fn maintenance_draft(repository: Seq<char>, output: Seq<char>) -> Draft {
    draft(
        git(),
        "git-maintenance-recommended"@,
        "project-artifact"@,
        repository,
        name_of(repository) + ": loose Git objects"@,
        Safety::Safe,
        (loose_size(output) / 2) as u64,
    )
        .estimated()
        .reason(
        "The repository contains enough loose objects for normal Git maintenance to help."@,
    )
        .evidence("Repository"@, repository)
        .evidence("Loose objects"@, digits(loose_count(output) as nat))
        .evidence("Loose size"@, shown_size(output))
        .copy(
        "Loose Git objects that Git can pack during ordinary maintenance."@,
        "Git rewrites internal object storage without changing commits or working files."@,
        "Hokori runs `git maintenance run --auto`; it never uses aggressive immediate pruning."@,
    )
        .action(
        "maintenance"@,
        seq!["git"@, "-C"@, repository, "maintenance"@, "run"@, "--auto"@],
        true,
        false,
    )
}

pub open spec fn maintenance_rows(
    repository: Seq<char>,
    output: Seq<char>,
    settings: ProviderSettings,
) -> Seq<FindingModel> {
    if loose_count(output) < 1_000 || loose_size(output) < settings.min_size_bytes {
        Seq::empty()
    } else {
        seq![maintenance_draft(repository, output).build()]
    }
}

/// The finding for a repository with at least a thousand loose objects.
pub fn repository_maintenance_findings(
    repository: &str,
    output: &str,
    settings: &ProviderSettings,
) -> (r: Vec<Finding>)
    ensures
        views(r@) == maintenance_rows(repository@, output@, *settings),
{
    let mut out: Vec<Finding> = Vec::new();
    let l = text::lines(output);
    let loose_count: u64 = match value_of(&l, ':', "count") {
        Some(v) => match text::parse_u64(v.as_str()) {
            Some(n) => n,
            None => 0,
        },
        None => 0,
    };
    let size = value_of(&l, ':', "size");
    let loose_size: u64 = match &size {
        Some(v) => match parse_human_bytes(v.as_str()) {
            Some(n) => n,
            None => 0,
        },
        None => 0,
    };
    if loose_count < 1_000 || loose_size < settings.min_size_bytes {
        return out;
    }
    let shown: &str = match &size {
        Some(v) => v.as_str(),
        None => "unknown",
    };
    let finding = ProviderFinding::object(
        metadata(),
        "git-maintenance-recommended",
        "project-artifact",
        repository,
        paths::name_or_empty(repository).as_str().to_owned().concat(": loose Git objects").as_str(),
        Safety::Safe,
        loose_size / 2,
    )
        .estimated()
        .reason(
        "The repository contains enough loose objects for normal Git maintenance to help.",
    )
        .evidence("Repository", repository)
        .evidence("Loose objects", text::decimal(loose_count).as_str())
        .evidence("Loose size", shown)
        .copy(
        "Loose Git objects that Git can pack during ordinary maintenance.",
        "Git rewrites internal object storage without changing commits or working files.",
        "Hokori runs `git maintenance run --auto`; it never uses aggressive immediate pruning.",
    )
        .action(
        "maintenance",
        text::texts6("git", "-C", repository, "maintenance", "run", "--auto"),
        true,
        false,
    )
        .build();
    out.push(finding);
    assert(views(out@) =~= maintenance_rows(repository@, output@, *settings));
    out
}

// ---- actions ----

/// What stands in the way of removing a worktree, before the repository is
/// scanned again: that it is gone, or that it has changes.
pub open spec fn worktree_obstacle(
    action: Seq<char>,
    is_dir: bool,
    status: Seq<char>,
) -> Option<RevalidationModel> {
    if action != "remove-worktree"@ {
        None
    } else if !is_dir {
        Some(RevalidationModel::Gone("The worktree no longer exists."@))
    } else if status.len() > 0 {
        Some(
            RevalidationModel::Blocked(
                "The worktree now contains uncommitted or untracked files."@,
            ),
        )
    } else {
        None
    }
}

/// A second look at the worktree of a finding: `status` is what Git prints of
/// its changes.
pub fn recheck_worktree(finding: &Finding, is_dir: bool, status: &str) -> (r: Result<
    Option<Revalidation>,
    String,
    >)
    ensures
        match finding.native_action {
            None => r matches Err(e) && e@ == "Git action missing"@,
            Some(a) => r matches Ok(v) && view_of(v) == worktree_obstacle(
                a.action_id@,
                is_dir,
                status@,
            ),
        },
{
    match &finding.native_action {
        None => Err("Git action missing".to_owned()),
        Some(a) => if !same(a.action_id.as_str(), "remove-worktree") {
            Ok(None)
        } else if !is_dir {
            Ok(Some(Revalidation::Gone("The worktree no longer exists.".to_owned())))
        } else if !status.is_empty() {
            Ok(
                Some(
                    Revalidation::Blocked(
                        "The worktree now contains uncommitted or untracked files.".to_owned(),
                    ),
                ),
            )
        } else {
            Ok(None)
        },
    }
}

/// The finding stands where a fresh scan finds it again.
pub fn revalidate(refreshed: &Vec<Finding>, finding: &Finding) -> (r: Revalidation)
    ensures
        r@ == revalidated(refreshed@, finding.stable_id@, "Repository state changed and this action is no longer eligible."@),
{
    revalidate_against(refreshed, finding, "Repository state changed and this action is no longer eligible.")
}

/// Whether a command is the one for an action in a repository.
pub open spec fn action_command(
    action: Seq<char>,
    object: Seq<char>,
    repository: Seq<char>,
    p: CommandPolicy,
    args: Seq<Seq<char>>,
) -> bool {
    if action == "remove-worktree"@ {
        is_policy(
            p,
            "git-worktree-remove"@,
            git_executables(),
            true,
            false,
            seq![Arg::Is("-C"), Arg::AbsolutePath, Arg::Is("worktree"), Arg::Is("remove"), Arg::Is("--"), Arg::AbsolutePath],
        ) && args == seq!["-C"@, repository, "worktree"@, "remove"@, "--"@, object]
    } else if action == "prune-worktree-metadata"@ {
        is_policy(
            p,
            "git-worktree-prune"@,
            git_executables(),
            true,
            false,
            seq![Arg::Is("-C"), Arg::AbsolutePath, Arg::Is("worktree"), Arg::Is("prune"), Arg::Is("--verbose")],
        ) && args == seq!["-C"@, repository, "worktree"@, "prune"@, "--verbose"@]
    } else if action == "prune-lfs"@ {
        is_policy(
            p,
            "git-lfs-prune"@,
            git_executables(),
            true,
            false,
            seq![Arg::Is("-C"), Arg::AbsolutePath, Arg::Is("lfs"), Arg::Is("prune")],
        ) && args == seq!["-C"@, repository, "lfs"@, "prune"@]
    } else if action == "prune-lfs-verified"@ {
        is_policy(
            p,
            "git-lfs-prune-verify"@,
            git_executables(),
            true,
            true,
            seq![Arg::Is("-C"), Arg::AbsolutePath, Arg::Is("lfs"), Arg::Is("prune"), Arg::Is("--verify-remote")],
        ) && args == seq!["-C"@, repository, "lfs"@, "prune"@, "--verify-remote"@]
    } else if action == "maintenance"@ {
        is_policy(
            p,
            "git-maintenance"@,
            git_executables(),
            true,
            false,
            seq![Arg::Is("-C"), Arg::AbsolutePath, Arg::Is("maintenance"), Arg::Is("run"), Arg::Is("--auto")],
        ) && args == seq!["-C"@, repository, "maintenance"@, "run"@, "--auto"@]
    } else {
        false
    }
}

/// The actions that the provider knows.
pub open spec fn known_action(action: Seq<char>) -> bool {
    action == "remove-worktree"@
        || action == "prune-worktree-metadata"@
        || action == "prune-lfs"@
        || action == "prune-lfs-verified"@
        || action == "maintenance"@
}

/// What keeps a command from being found.
pub open spec fn action_error(finding: FindingModel) -> Option<Seq<char>> {
    match finding.native_action {
        None => Some("Git action missing"@),
        Some(a) => if evidence_at(finding.evidence, "Repository"@) is None {
            Some("repository evidence missing"@)
        } else if !known_action(a.action_id) {
            Some("unknown Git action "@ + a.action_id)
        } else {
            None
        },
    }
}

/// The command that carries out the action of a finding.
pub fn plan_action(finding: &Finding) -> (r: Result<(CommandPolicy, Vec<String>), String>)
    ensures
        match r {
            Ok(c) => action_error(finding@) is None && action_command(
                finding@.native_action->0.action_id,
                finding@.native_action->0.object_id,
                evidence_at(finding@.evidence, "Repository"@)->0,
                c.0,
                views(c.1@),
            ),
            Err(e) => action_error(finding@) == Some(e@),
        },
{
    match &finding.native_action {
        None => Err("Git action missing".to_owned()),
        Some(a) => {
            let repo = match evidence_value(finding, "Repository") {
                Some(path) => path,
                None => {
                    return Err("repository evidence missing".to_owned());
                },
            };
            let repository = repo.as_str();
            let id = a.action_id.as_str();
            let object = a.object_id.as_str();
            if same(id, "remove-worktree") {
                Ok((worktree_remove(), text::texts6("-C", repository, "worktree", "remove", "--", object)))
            } else if same(id, "prune-worktree-metadata") {
                Ok((worktree_prune(), text::texts5("-C", repository, "worktree", "prune", "--verbose")))
            } else if same(id, "prune-lfs") {
                Ok((git_lfs_prune(), text::texts4("-C", repository, "lfs", "prune")))
            } else if same(id, "prune-lfs-verified") {
                Ok((git_lfs_prune_verify(), text::texts5("-C", repository, "lfs", "prune", "--verify-remote")))
            } else if same(id, "maintenance") {
                Ok((git_maintenance(), text::texts5("-C", repository, "maintenance", "run", "--auto")))
            } else {
                Err("unknown Git action ".to_owned().concat(id))
            }
        },
    }
}

/// What a finding's action is reported to have done, once it has run.
pub fn executed(finding: &Finding) -> (r: Option<ProviderExecution>)
    ensures
        match (finding.native_action, r) {
            (None, None) => true,
            (Some(a), Some(e)) => e.deleted == 1 && e.freed_bytes == finding.bytes && e.message@
                == "Git action "@ + a.action_id@ + " completed."@,
            _ => false,
        },
{
    match &finding.native_action {
        Some(a) => Some(completed(
                finding,
                "Git action ".to_owned().concat(a.action_id.as_str()).concat(" completed."),
        )),
        None => None,
    }
}

// ---- laws ----

/// Local work is never offered for removal: a worktree with changes, without a
/// branch or an upstream, or with commits that the upstream lacks carries no
/// action and promises nothing.
pub proof fn law_local_work_is_protected(
    main: Seq<char>,
    settings: ProviderSettings,
    now: u64,
    w: WorktreeModel,
    facts: FactsModel,
)
    requires
        holds_local_work(w, facts),
    ensures
        match worktree_row(main, settings, now)((w, facts)) {
            Some(f) => f.native_action is None && f.bytes == 0 && f.report_only && f.safety
                == Safety::Protected,
            None => true,
        },
{
}

/// A worktree that is offered for removal is unlocked, old, clean and fully
/// pushed, and is never for bulk selection.
pub proof fn law_offered_worktrees_are_disposable(
    main: Seq<char>,
    settings: ProviderSettings,
    now: u64,
    w: WorktreeModel,
    facts: FactsModel,
)
    ensures
        match worktree_row(main, settings, now)((w, facts)) {
            Some(f) => f.native_action is Some ==> w.locked is None && commit_age(
                facts.last_commit,
                now,
            ) >= settings.min_age_days && facts.status == Some(Seq::<char>::empty()) && !w.detached
                && ahead_of(known_counts(facts)) == 0 && known_counts(facts) is Some && f.manual_only,
            None => true,
        },
{
    if facts.status is Some && facts.status->0.len() == 0 {
        assert(facts.status->0 =~= Seq::<char>::empty());
    }
}

/// The main worktree is never among those that are looked at.
pub proof fn law_main_worktree_stays(worktrees: Seq<WorktreeModel>, i: int)
    requires
        0 <= i < linked(worktrees).len(),
    ensures
        !equal_paths(linked(worktrees)[i].path, worktrees[0].path),
{
    lemma_collect_origin(worktrees, if_linked(worktrees[0].path), i);
}

/// A command for an action is one that its own policy accepts, where the repository,
/// and a worktree that is removed, are paths that can be handed to a tool.
pub proof fn law_planned_commands_are_admitted(
    action: Seq<char>,
    object: Seq<char>,
    repository: Seq<char>,
    p: CommandPolicy,
    args: Seq<Seq<char>>,
)
    requires
        action_command(action, object, repository, p, args),
        is_token(repository),
        paths::absolute(repository),
        action == "remove-worktree"@ ==> is_token(object) && paths::absolute(object),
    ensures
        admits(p.args@, args),
{
}

/// A worktree is reported exactly where it is there, neither locked nor cut short, and
/// at least as old and as large as was asked for. It may be removed exactly where it
/// is clean, on a branch with an upstream, and has no commit that the upstream lacks.
pub proof fn law_worktrees_are_reported(
    main: Seq<char>,
    settings: ProviderSettings,
    now: u64,
    w: WorktreeModel,
    facts: FactsModel,
)
    ensures
        worktree_row(main, settings, now)((w, facts)) is Some <==> facts.is_dir && w.locked is None
            && !facts.cancelled && commit_age(facts.last_commit, now) >= settings.min_age_days
            && facts.bytes >= settings.min_size_bytes,
        worktree_row(main, settings, now)((w, facts)) matches Some(f) ==> {
            let counts = known_counts(facts);
            let disposable = facts.status is Some && facts.status->0.len() == 0 && !w.detached && upstream_of(
                facts.upstream,
            ) is Some && (counts matches Some((behind, ahead)) && ahead == 0);
            &&& disposable <==> f.native_action is Some
            &&& disposable <==> !f.report_only
            &&& disposable ==> f.bytes == facts.bytes && f.safety == Safety::Review
                && f.native_action->0.object_id == w.path
            &&& f.manual_only
        },
{
}

/// The age of a worktree is that of its last commit in whole days; one that cannot be
/// read is young.
pub proof fn law_commit_ages(epoch: u64, now: u64, printed: Option<Seq<char>>)
    ensures
        epoch <= now ==> days_since(epoch, now) * 86_400 <= now - epoch < (days_since(epoch, now) + 1) * 86_400,
        epoch > now ==> days_since(epoch, now) == 0,
        printed is None ==> commit_age(printed, now) == 0,
        printed is Some && text::unsigned(text::trimmed(printed->0)) is Some ==> commit_age(printed, now)
            == days_since(text::unsigned(text::trimmed(printed->0))->0, now),
{
}

/// Every worktree but the main one and those that are gone is looked at, up to 200 of
/// them.
pub proof fn law_linked_worktrees_are_looked_at(worktrees: Seq<WorktreeModel>, w: WorktreeModel)
    requires
        worktrees.len() > 0,
        worktrees.len() <= 200,
    ensures
        linked(worktrees).contains(w) <==> worktrees.contains(w) && !equal_paths(w.path, worktrees[0].path)
            && w.prunable is None,
{
    let f = if_linked(worktrees[0].path);
    crate::seqs::lemma_collect_len(worktrees, f);
    crate::seqs::law_collected_is_made(worktrees, f, w);
    assert(linked(worktrees) =~= collect_some(worktrees, f));
    if worktrees.contains(w) {
        let i = choose|i: int| 0 <= i < worktrees.len() && worktrees[i] == w;
        assert(!equal_paths(w.path, worktrees[0].path) && w.prunable is None ==> f(worktrees[i]) == Some(w));
    }
}

/// Records of worktrees that are gone are reported exactly where there are any.
pub proof fn law_gone_worktrees_are_reported(
    worktrees: Seq<WorktreeModel>,
    preview: Seq<char>,
    settings: ProviderSettings,
    now: u64,
)
    requires
        worktrees.len() > 0,
    ensures
        worktree_rows(worktrees, preview, Seq::empty(), settings, now).len() == 1 <==> exists|i: int|
        0 <= i < worktrees.len() && (#[trigger] worktrees[i]).prunable is Some,
        worktree_rows(worktrees, preview, Seq::empty(), settings, now).len() <= 1,
{
    let f = if_prunable();
    let gone = collect_some(worktrees, f);
    let none = paired(linked(worktrees), Seq::<FactsModel>::empty());
    assert(none.len() == 0);
    assert(collect_some(none, worktree_row(worktrees[0].path, settings, now)).len() == 0);
    if gone.len() > 0 {
        crate::seqs::lemma_collect_origin(worktrees, f, 0);
        let i = choose|i: int| 0 <= i < worktrees.len() && f(#[trigger] worktrees[i]) == Some(gone[0]);
        assert(worktrees[i].prunable is Some);
    }
    if exists|i: int| 0 <= i < worktrees.len() && (#[trigger] worktrees[i]).prunable is Some {
        let i = choose|i: int| 0 <= i < worktrees.len() && (#[trigger] worktrees[i]).prunable is Some;
        crate::seqs::lemma_collected(worktrees, f, i);
    }
}

/// A repository that several worktrees share is looked at once: the first of them
/// stands for it.
pub proof fn law_repositories_are_looked_at_once(s: Seq<RepositoryModel>, r: RepositoryModel)
    ensures
        r.common is None ==> firsts(s.push(r)) == firsts(s),
        r.common is Some && (forall|i: int|
            0 <= i < s.len() && (#[trigger] s[i]).common is Some ==> !equal_paths(
                r.common->0,
                s[i].common->0,
            )) ==> firsts(s.push(r)) == firsts(s).push(r.path),
        r.common is Some && (exists|i: int|
            0 <= i < s.len() && (#[trigger] s[i]).common is Some && equal_paths(
                r.common->0,
                s[i].common->0,
            )) ==> firsts(s.push(r)) == firsts(s),
        firsts(Seq::empty()).len() == 0,
{
    assert(s.push(r).drop_last() =~= s);
}

/// Objects of LFS are reported exactly where there are any and they hold what was
/// asked for; a deep scan has the remote asked first.
pub proof fn law_lfs_objects_are_reported(
    repository: Seq<char>,
    objects: nat,
    bytes: u64,
    settings: ProviderSettings,
)
    ensures
        lfs_rows(repository, objects, bytes, settings).len() == 1 <==> objects > 0 && bytes
            >= settings.min_size_bytes,
        lfs_rows(repository, objects, bytes, settings).len() == 0 <==> objects == 0 || bytes
            < settings.min_size_bytes,
        objects > 0 && bytes >= settings.min_size_bytes ==> {
            let f = lfs_rows(repository, objects, bytes, settings)[0];
            &&& f.bytes == bytes
            &&& f.native_action is Some
            &&& f.native_action->0.action_id == if settings.profile == ScanProfile::Deep {
                "prune-lfs-verified"@
            } else {
                "prune-lfs"@
            }
        },
{
}

/// Maintenance is advised exactly from a thousand loose objects on that hold what was
/// asked for, and promises half of what they take.
pub proof fn law_maintenance_is_advised(repository: Seq<char>, output: Seq<char>, settings: ProviderSettings)
    ensures
        maintenance_rows(repository, output, settings).len() == 1 <==> loose_count(output) >= 1_000
            && loose_size(output) >= settings.min_size_bytes,
        maintenance_rows(repository, output, settings).len() <= 1,
        maintenance_rows(repository, output, settings).len() == 1 ==> 2 * maintenance_rows(
            repository,
            output,
            settings,
        )[0].bytes <= loose_size(output) < 2 * (maintenance_rows(repository, output, settings)[0].bytes + 1),
{
}

/// A worktree may still be removed exactly where it is there and clean.
pub proof fn law_worktrees_are_looked_at_again(is_dir: bool, status: Seq<char>, action: Seq<char>)
    ensures
        worktree_obstacle("remove-worktree"@, is_dir, status) is None <==> is_dir && status.len() == 0,
        action != "remove-worktree"@ ==> worktree_obstacle(action, is_dir, status) is None,
{
}

/// A field of a record is read by its name; a name that is not known changes nothing.
pub proof fn law_records_are_read_by_name(w: WorktreeModel, v: Seq<char>)
    ensures
        with_field(w, "HEAD "@ + v).head == v,
        with_field(w, "HEAD "@ + v).path == w.path,
        with_field(w, "branch "@ + v).branch == Some(v),
        with_field(w, "locked"@ + v).locked == Some(text::trimmed(v)),
        with_field(w, "prunable"@ + v).prunable == Some(text::trimmed(v)),
        with_field(w, "detached"@).detached,
{
    reveal_strlit("HEAD ");
    reveal_strlit("branch ");
    reveal_strlit("locked");
    reveal_strlit("prunable");
    reveal_strlit("detached");
    text::law_prefixes_come_off("HEAD "@, v, v);
    text::law_prefixes_come_off("branch "@, v, v);
    text::law_prefixes_come_off("locked"@, v, v);
    text::law_prefixes_come_off("prunable"@, v, v);
    let b = "branch "@ + v;
    let l = "locked"@ + v;
    let p = "prunable"@ + v;
    let d = "detached"@;
    assert(b[0] == 'b' && l[0] == 'l' && p[0] == 'p' && d[0] == 'd');
    assert(!text::begins(b, "HEAD "@)) by {
        if text::begins(b, "HEAD "@) {
            assert(b.subrange(0, 5)[0] == "HEAD "@[0]);
        }
    }
    assert(!text::begins(l, "HEAD "@) && !text::begins(l, "branch "@)) by {
        if text::begins(l, "HEAD "@) {
            assert(l.subrange(0, 5)[0] == "HEAD "@[0]);
        }
        if text::begins(l, "branch "@) {
            assert(l.subrange(0, 7)[0] == "branch "@[0]);
        }
    }
    assert(!text::begins(p, "HEAD "@) && !text::begins(p, "branch "@) && !text::begins(p, "locked"@)) by {
        if text::begins(p, "HEAD "@) {
            assert(p.subrange(0, 5)[0] == "HEAD "@[0]);
        }
        if text::begins(p, "branch "@) {
            assert(p.subrange(0, 7)[0] == "branch "@[0]);
        }
        if text::begins(p, "locked"@) {
            assert(p.subrange(0, 6)[0] == "locked"@[0]);
        }
    }
    assert(!text::begins(d, "HEAD "@) && !text::begins(d, "branch "@)) by {
        if text::begins(d, "HEAD "@) {
            assert(d.subrange(0, 5)[0] == "HEAD "@[0]);
        }
        if text::begins(d, "branch "@) {
            assert(d.subrange(0, 7)[0] == "branch "@[0]);
        }
    }
    assert(l != d && p != d);
}

/// An empty field ends a record, a path begins the next one, and every record that was
/// begun is read.
pub proof fn law_records_are_all_read(r: Reading, field: Seq<u8>)
    ensures
        r.current is None ==> r.ended() == r.complete,
        r.current is Some ==> r.ended() == r.complete.push(r.current->0),
        field.len() == 0 ==> r.after(field).current is None && r.after(field).complete == r.ended(),
        field.len() > 0 && text::without_prefix(text::lossy_text(field), "worktree "@) is Some ==> r.after(
            field,
        ).complete == r.ended() && r.after(field).current is Some && r.after(field).current->0.path
            == text::without_prefix(text::lossy_text(field), "worktree "@)->0,
        r.after(field).ended().len() >= r.ended().len(),
{
}

/// A file that stands for the data of a worktree leads to the place behind `gitdir:`,
/// below the worktree; the data that worktrees share stands above their own.
pub proof fn law_worktrees_name_their_data(
    repository: Seq<char>,
    contents: Seq<char>,
    rest: Seq<char>,
    shared: Seq<char>,
    p: Seq<char>,
    git_dir: Seq<char>,
)
    ensures
        text::trimmed(contents) == "gitdir:"@ + rest ==> named_git_dir(repository, contents) == Some(
            paths::below(repository, text::trimmed(rest)),
        ),
        !text::begins(text::trimmed(contents), "gitdir:"@) ==> named_git_dir(repository, contents) is None,
        paths::parent_of(git_dir) == Some(p) && paths::last_name(p) == Some("worktrees"@) ==> shared_git_dir(git_dir)
            == paths::parent_of(p),
        paths::parent_of(git_dir) == Some(p) && paths::last_name(p) != Some("worktrees"@) ==> shared_git_dir(git_dir)
            == Some(git_dir),
        paths::parent_of(git_dir) is None ==> shared_git_dir(git_dir) is None,
{
    text::law_prefixes_come_off("gitdir:"@, rest, text::trimmed(contents));
}

/// The fields of what Git prints are what stands between zero bytes: they hold no zero
/// byte, and one more byte goes on with the last or ends it.
pub proof fn law_fields_stand_between_zeros(b: Seq<u8>, c: u8)
    ensures
        byte_fields(Seq::empty()) == seq![Seq::<u8>::empty()],
        c == 0 ==> byte_fields(b.push(c)) == byte_fields(b).push(Seq::empty()),
        c != 0 ==> byte_fields(b.push(c)).len() == byte_fields(b).len() && byte_fields(b.push(c)).last()
            == byte_fields(b).last().push(c) && byte_fields(b.push(c)).drop_last() == byte_fields(b).drop_last(),
        byte_fields(b).len() > 0,
        forall|i: int, j: int|
        0 <= i < byte_fields(b).len() && 0 <= j < byte_fields(b)[i].len() ==> #[trigger] byte_fields(b)[i][j] != 0,
    decreases b.len(),
{
    assert(b.push(c).drop_last() =~= b);
    lemma_fields(b);
    assert(byte_fields(b.push(c)).drop_last() =~= byte_fields(b).drop_last() || c == 0);
}

proof fn lemma_fields(b: Seq<u8>)
    ensures
        byte_fields(b).len() > 0,
        forall|i: int, j: int|
        0 <= i < byte_fields(b).len() && 0 <= j < byte_fields(b)[i].len() ==> #[trigger] byte_fields(b)[i][j] != 0,
    decreases b.len(),
{
    if b.len() > 0 {
        lemma_fields(b.drop_last());
        let rest = byte_fields(b.drop_last());
        let all = byte_fields(b);
        assert forall|i: int, j: int| 0 <= i < all.len() && 0 <= j < all[i].len() implies #[trigger] all[i][j]
            != 0 by {
            if i < rest.len() - 1 {
                assert(all[i] == rest[i]);
                assert(rest[i][j] != 0);
            } else if b.last() == 0 {
                if i == rest.len() - 1 {
                    assert(all[i] == rest[i]);
                    assert(rest[i][j] != 0);
                }
            } else {
                assert(all[i] == rest.last().push(b.last()));
                if j < rest.last().len() {
                    assert(rest[rest.len() - 1][j] != 0);
                }
            }
        }
    }
}

/// A value is printed behind its name: the last line that names it tells it.
pub proof fn law_last_line_of_a_name_tells(lines: Seq<Seq<char>>, line: Seq<char>, sep: char, key: Seq<char>)
    ensures
        printed_value(Seq::empty(), sep, key) is None,
        text::halves(line, sep) matches Some((k, v)) ==> {
            &&& text::trimmed(k) == key ==> printed_value(lines.push(line), sep, key) == Some(text::trimmed(v))
            &&& text::trimmed(k) != key ==> printed_value(lines.push(line), sep, key) == printed_value(
                lines,
                sep,
                key,
            )
        },
        text::halves(line, sep) is None ==> printed_value(lines.push(line), sep, key) == printed_value(
            lines,
            sep,
            key,
        ),
{
    assert(lines.push(line).drop_last() =~= lines);
}

/// An action is carried out by the command of its tool that does just this, to the
/// object that it names.
pub proof fn law_actions_run_their_command(action: Seq<char>, object: Seq<char>, repository: Seq<char>, p: CommandPolicy, args: Seq<Seq<char>>)
    requires
        action_command(action, object, repository, p, args),
    ensures
        p@.mutating,
        ({
            ||| action == "remove-worktree"@ && p@.executables.last()@ == "git"@ && args == seq!["-C"@, repository, "worktree"@, "remove"@, "--"@, object]
            ||| action == "prune-worktree-metadata"@ && p@.executables.last()@ == "git"@ && args == seq!["-C"@, repository, "worktree"@, "prune"@, "--verbose"@]
            ||| action == "prune-lfs"@ && p@.executables.last()@ == "git"@ && args == seq!["-C"@, repository, "lfs"@, "prune"@]
            ||| action == "prune-lfs-verified"@ && p@.executables.last()@ == "git"@ && args == seq!["-C"@, repository, "lfs"@, "prune"@, "--verify-remote"@]
            ||| action == "maintenance"@ && p@.executables.last()@ == "git"@ && args == seq!["-C"@, repository, "maintenance"@, "run"@, "--auto"@]
        }),
{
}

/// An action is carried out exactly where it is known and the finding tells the
/// repository.
pub proof fn law_known_actions_are_carried_out(finding: FindingModel)
    ensures
        action_error(finding) is None <==> (finding.native_action matches Some(a) && evidence_at(
            finding.evidence,
            "Repository"@,
        ) is Some && (a.action_id == "remove-worktree"@ || a.action_id == "prune-worktree-metadata"@ || a.action_id
            == "prune-lfs"@ || a.action_id == "prune-lfs-verified"@ || a.action_id == "maintenance"@)),
{
}

} // verus!
