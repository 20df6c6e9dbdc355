//! Models and datasets of Hugging Face and Ollama that are no longer used.

use crate::json::{Json, JsonModel, item_models, json_document, parse_json};
use crate::paths;
use crate::paths::{absolute, equal_paths};
use crate::report::{Confidence, Finding, FindingModel, FindingSize, SizeAccuracy};
use crate::rules::Safety;
use crate::seqs::{
    at_most, collect_some, flatten_map, group_views, lemma_collect_step, lemma_flatten_step,
    view_of, views,
};
use crate::sizes::capped_sum;
use crate::taxonomy::{Section, Subgroup};
use crate::text;
use crate::text::{digits, same};
use vstd::prelude::*;

use super::command::{Arg, ArgRule, CommandPolicy, admits, is_policy, is_token};
use super::toolchains::{first_word, word_of};
use super::{
    Capability, Draft, MetadataModel, ProviderExecution, ProviderFinding, ProviderMetadata,
    ProviderSettings, Revalidation, ScanCost, aged, available_if, completed, draft, evidence_at,
    evidence_value, is_aged, is_available_if, revalidate_against, revalidated,
};

verus! {

broadcast use group_views;

pub struct AiAssetsProvider;

/// What the provider is.
pub open spec fn ai_assets() -> MetadataModel {
    MetadataModel {
        id: "ai-assets"@,
        name: "AI models and datasets"@,
        section: Section::Developer,
        subgroup: Subgroup::AiAssets,
        cost: ScanCost::Moderate,
        quick: true,
        deep: true,
        network_in_deep_scan: false,
        supersedes_rules: seq!["huggingface-cache"@, "ollama-models"@],
    }
}

fn metadata() -> (r: ProviderMetadata)
    ensures
        r@ == ai_assets(),
{
    let r = ProviderMetadata {
        id: "ai-assets",
        name: "AI models and datasets",
        section: Section::Developer,
        subgroup: Subgroup::AiAssets,
        cost: ScanCost::Moderate,
        quick: true,
        deep: true,
        network_in_deep_scan: false,
        supersedes_rules: &["huggingface-cache", "ollama-models"],
    };
    assert(r@.supersedes_rules =~= ai_assets().supersedes_rules);
    r
}

impl AiAssetsProvider {
    pub fn metadata(&self) -> (r: ProviderMetadata)
        ensures
            r@ == ai_assets(),
    {
        metadata()
    }
}

// ---- commands ----

pub open spec fn hf_executables() -> Seq<&'static str> {
    seq!["/opt/homebrew/bin/hf", "hf"]
}

pub open spec fn ollama_executables() -> Seq<&'static str> {
    seq!["/Applications/Ollama.app/Contents/Resources/ollama", "/usr/local/bin/ollama", "/opt/homebrew/bin/ollama", "ollama"]
}

/// The command `hf cache prune --dry-run --cache-dir <path> --yes`.
pub fn hf_prune_preview() -> (r: CommandPolicy)
    ensures
        is_policy(
            r,
            "hf-cache-prune-preview"@,
            hf_executables(),
            false,
            false,
            seq![Arg::Is("cache"), Arg::Is("prune"), Arg::Is("--dry-run"), Arg::Is("--cache-dir"), Arg::AbsolutePath, Arg::Is("--yes")],
        ),
{
    let r = CommandPolicy {
        id: "hf-cache-prune-preview",
        executables: &["/opt/homebrew/bin/hf", "hf"],
        mutating: false,
        network: false,
        args: ArgRule::Form(&[Arg::Is("cache"), Arg::Is("prune"), Arg::Is("--dry-run"), Arg::Is("--cache-dir"), Arg::AbsolutePath, Arg::Is("--yes")]),
    };
    assert(r.executables@ =~= hf_executables());
    r
}

/// The command `hf cache prune --cache-dir <path> --yes`.
pub fn hf_prune() -> (r: CommandPolicy)
    ensures
        is_policy(
            r,
            "hf-cache-prune"@,
            hf_executables(),
            true,
            false,
            seq![Arg::Is("cache"), Arg::Is("prune"), Arg::Is("--cache-dir"), Arg::AbsolutePath, Arg::Is("--yes")],
        ),
{
    let r = CommandPolicy {
        id: "hf-cache-prune",
        executables: &["/opt/homebrew/bin/hf", "hf"],
        mutating: true,
        network: false,
        args: ArgRule::Form(&[Arg::Is("cache"), Arg::Is("prune"), Arg::Is("--cache-dir"), Arg::AbsolutePath, Arg::Is("--yes")]),
    };
    assert(r.executables@ =~= hf_executables());
    r
}

/// The command `hf cache rm <name> --cache-dir <path> --yes`.
pub fn hf_remove() -> (r: CommandPolicy)
    ensures
        is_policy(
            r,
            "hf-cache-remove"@,
            hf_executables(),
            true,
            false,
            seq![Arg::Is("cache"), Arg::Is("rm"), Arg::Token, Arg::Is("--cache-dir"), Arg::AbsolutePath, Arg::Is("--yes")],
        ),
{
    let r = CommandPolicy {
        id: "hf-cache-remove",
        executables: &["/opt/homebrew/bin/hf", "hf"],
        mutating: true,
        network: false,
        args: ArgRule::Form(&[Arg::Is("cache"), Arg::Is("rm"), Arg::Token, Arg::Is("--cache-dir"), Arg::AbsolutePath, Arg::Is("--yes")]),
    };
    assert(r.executables@ =~= hf_executables());
    r
}

/// The command `ollama ps`.
pub fn ollama_ps() -> (r: CommandPolicy)
    ensures
        is_policy(
            r,
            "ollama-ps"@,
            ollama_executables(),
            false,
            false,
            seq![Arg::Is("ps")],
        ),
{
    let r = CommandPolicy {
        id: "ollama-ps",
        executables: &["/Applications/Ollama.app/Contents/Resources/ollama", "/usr/local/bin/ollama", "/opt/homebrew/bin/ollama", "ollama"],
        mutating: false,
        network: false,
        args: ArgRule::Form(&[Arg::Is("ps")]),
    };
    assert(r.executables@ =~= ollama_executables());
    assert(r.args->Form_0@ =~= seq![Arg::Is("ps")]);
    r
}

/// The command `ollama rm <name>`.
pub fn ollama_remove() -> (r: CommandPolicy)
    ensures
        is_policy(
            r,
            "ollama-remove"@,
            ollama_executables(),
            true,
            false,
            seq![Arg::Is("rm"), Arg::Token],
        ),
{
    let r = CommandPolicy {
        id: "ollama-remove",
        executables: &["/Applications/Ollama.app/Contents/Resources/ollama", "/usr/local/bin/ollama", "/opt/homebrew/bin/ollama", "ollama"],
        mutating: true,
        network: false,
        args: ArgRule::Form(&[Arg::Is("rm"), Arg::Token]),
    };
    assert(r.executables@ =~= ollama_executables());
    r
}

/// Whether there is a store of models, or a command of one.
pub fn probe(stored: bool, hf: bool, ollama: bool) -> (r: Capability)
    ensures
        is_available_if(r, stored || hf || ollama, "No supported local AI asset store was found."@),
{
    available_if(stored || hf || ollama, "No supported local AI asset store was found.")
}

/// Where models are kept below the home directory.
pub open spec fn store_places(home: Seq<char>) -> Seq<Seq<char>> {
    seq![
        paths::below(home, ".cache/huggingface"@),
        paths::below(home, ".ollama/models"@),
        paths::below(home, ".cache/lm-studio"@),
        paths::below(home, ".lmstudio/models"@),
        paths::below(home, "Library/Application Support/nomic.ai/GPT4All"@),
    ]
}

pub fn asset_roots(home: Option<&str>) -> (r: Vec<String>)
    ensures
        views(r@) == match home {
            Some(h) => store_places(h@),
            None => Seq::empty(),
        },
{
    match home {
        Some(h) => {
            let r = vec![
                paths::join(h, ".cache/huggingface"),
                paths::join(h, ".ollama/models"),
                paths::join(h, ".cache/lm-studio"),
                paths::join(h, ".lmstudio/models"),
                paths::join(h, "Library/Application Support/nomic.ai/GPT4All"),
            ];
            assert(views(r@) =~= store_places(h@));
            r
        },
        None => Vec::new(),
    }
}

/// Where the hub of Hugging Face may lie; the first of these that is a
/// directory counts.
pub fn hub_places(hf_home: Option<&str>, home: Option<&str>) -> (r: Vec<String>)
    ensures
        views(r@) == (match hf_home {
                Some(h) => seq![paths::below(h@, "hub"@)],
                None => Seq::empty(),
        }) + (match home {
                Some(h) => seq![paths::below(h@, ".cache/huggingface/hub"@)],
                None => Seq::empty(),
        }),
{
    let mut r: Vec<String> = Vec::new();
    let ghost mut want = Seq::<Seq<char>>::empty();
    if let Some(h) = hf_home {
        r.push(paths::join(h, "hub"));
        proof {
            want = seq![paths::below(h@, "hub"@)];
        }
    }
    assert(views(r@) =~= want);
    if let Some(h) = home {
        r.push(paths::join(h, ".cache/huggingface/hub"));
        assert(views(r@) =~= want + seq![paths::below(h@, ".cache/huggingface/hub"@)]);
    } else {
        assert(want + Seq::<Seq<char>>::empty() =~= want);
    }
    r
}

/// Whether the search for references goes on into a directory.
pub fn refs_descend(depth: usize) -> (r: bool)
    ensures
        r == (depth <= 8),
{
    depth <= 8
}

/// Whether the search for the contents of a revision goes on into a directory.
pub fn blobs_descend(depth: usize) -> (r: bool)
    ensures
        r == (depth <= 32),
{
    depth <= 32
}

/// Whether the search for manifests goes on into a directory.
pub fn manifests_descend(depth: usize, found: usize) -> (r: bool)
    ensures
        r == (depth <= 8 && found < 20_000),
{
    depth <= 8 && found < 20_000
}

// ---- Hugging Face ----

/// A revision of a cached repository.
pub struct HfRevision {
    pub hash: String,
    pub path: String,
    pub is_dir: bool,
    /// The files that the revision leads to.
    pub blobs: Vec<String>,
}

#[verifier::ext_equal]
pub struct HfRevisionModel {
    pub hash: Seq<char>,
    pub path: Seq<char>,
    pub is_dir: bool,
    pub blobs: Seq<Seq<char>>,
}

impl View for HfRevision {
    type V = HfRevisionModel;

    open spec fn view(&self) -> HfRevisionModel {
        HfRevisionModel {
            hash: self.hash@,
            path: self.path@,
            is_dir: self.is_dir,
            blobs: views(self.blobs@),
        }
    }
}

/// A cached repository.
pub struct HfRepository {
    /// The name of its directory.
    pub name: String,
    pub path: String,
    pub is_dir: bool,
    /// Whether the work was cancelled when it was reached.
    pub cancelled: bool,
    /// What the files of its references hold.
    pub refs: Vec<String>,
    pub revisions: Vec<HfRevision>,
    pub bytes: u64,
    pub age: Option<u64>,
}

#[verifier::ext_equal]
pub struct HfRepositoryModel {
    pub name: Seq<char>,
    pub path: Seq<char>,
    pub is_dir: bool,
    pub cancelled: bool,
    pub refs: Seq<Seq<char>>,
    pub revisions: Seq<HfRevisionModel>,
    pub bytes: u64,
    pub age: Option<u64>,
}

impl View for HfRepository {
    type V = HfRepositoryModel;

    open spec fn view(&self) -> HfRepositoryModel {
        HfRepositoryModel {
            name: self.name@,
            path: self.path@,
            is_dir: self.is_dir,
            cancelled: self.cancelled,
            refs: views(self.refs@),
            revisions: views(self.revisions@),
            bytes: self.bytes,
            age: self.age,
        }
    }
}

/// The kind of repository that the name of a directory begins with.
pub open spec fn repository_kind(prefix: Seq<char>) -> Option<Seq<char>> {
    if prefix == "models"@ {
        Some("model"@)
    } else if prefix == "datasets"@ {
        Some("dataset"@)
    } else if prefix == "spaces"@ {
        Some("space"@)
    } else {
        None
    }
}

/// The repository that a directory of the hub holds.
pub open spec fn repository_id(directory: Seq<char>) -> Option<Seq<char>> {
    match text::halves_at(directory, "--"@) {
        Some((prefix, name)) => match repository_kind(prefix) {
            Some(kind) => Some(kind + "/"@ + text::replaced_text(name, "--"@, "/"@)),
            None => None,
        },
        None => None,
    }
}

/// The repository that a directory of the hub holds.
pub fn hf_repo_id(directory: &str) -> (r: Option<String>)
    ensures
        view_of(r) == repository_id(directory@),
{
    proof {
        reveal_strlit("--");
        assert("--"@.len() == 2);
    }
    match text::split_once_at(directory, "--") {
        Some((prefix, name)) => {
            let p = prefix.as_str();
            let kind: &str = if same(p, "models") {
                "model"
            } else if same(p, "datasets") {
                "dataset"
            } else if same(p, "spaces") {
                "space"
            } else {
                return None;
            };
            Some(
                kind.to_owned().concat("/").concat(
                    text::replace_text(name.as_str(), "--", "/").as_str(),
                ),
            )
        },
        None => None,
    }
}

/// The most repositories that are looked at.
pub const REPOSITORY_LIMIT: usize = 10_000;

/// The most revisions of a repository that are looked at.
pub const REVISION_LIMIT: usize = 20_000;

/// How many repositories are looked at: up to the first that is no directory,
/// or at which the work was cancelled.
pub open spec fn reached(repos: Seq<HfRepositoryModel>) -> nat
    decreases repos.len(),
{
    if repos.len() == 0 || repos[0].cancelled || !repos[0].is_dir {
        0
    } else {
        1 + reached(repos.skip(1))
    }
}

/// The repositories that are looked at.
pub open spec fn examined(repos: Seq<HfRepositoryModel>) -> Seq<HfRepositoryModel> {
    let s = at_most(repos, REPOSITORY_LIMIT as int);
    s.take(reached(s) as int)
}

proof fn lemma_reached(repos: Seq<HfRepositoryModel>, n: int)
    requires
        0 <= n <= repos.len(),
        forall|i: int| 0 <= i < n ==> !(#[trigger] repos[i]).cancelled && repos[i].is_dir,
        n == repos.len() || repos[n].cancelled || !repos[n].is_dir,
    ensures
        reached(repos) == n,
    decreases n,
{
    if n > 0 {
        let t = repos.skip(1);
        assert(!repos[0].cancelled && repos[0].is_dir);
        assert forall|i: int| 0 <= i < n - 1 implies !(#[trigger] t[i]).cancelled && t[i].is_dir by {
            assert(t[i] == repos[i + 1]);
        }
        if n < repos.len() {
            assert(t[n - 1] == repos[n]);
        }
        lemma_reached(t, n - 1);
    }
}

fn reached_count(repos: &Vec<HfRepository>) -> (r: usize)
    ensures
        r <= repos@.len(),
        views(repos@).take(r as int) == examined(views(repos@)),
{
    let ghost all = views(repos@);
    let ghost s = at_most(all, REPOSITORY_LIMIT as int);
    let limit: usize = if repos.len() > REPOSITORY_LIMIT {
        REPOSITORY_LIMIT
    } else {
        repos.len()
    };
    let mut i: usize = 0;
    while i < limit && !repos[i].cancelled && repos[i].is_dir
        invariant
            i <= limit <= repos@.len(),
            all == views(repos@),
            s == at_most(all, REPOSITORY_LIMIT as int),
            s.len() == limit,
            forall|j: int| 0 <= j < i ==> !(#[trigger] s[j]).cancelled && s[j].is_dir,
        decreases limit - i,
    {
        assert(s[i as int] == repos@[i as int]@);
        i += 1;
    }
    proof {
        if i < limit {
            assert(s[i as int] == repos@[i as int]@);
        }
        lemma_reached(s, i as int);
        assert(all.take(i as int) =~= s.take(i as int));
    }
    i
}

/// Whether a reference names a revision. The file of a reference holds the
/// revision with white space around it; one that holds nothing else names none.
pub open spec fn is_referenced(refs: Seq<Seq<char>>, hash: Seq<char>) -> bool {
    hash.len() > 0 && exists|i: int| 0 <= i < refs.len() && text::trimmed(#[trigger] refs[i]) == hash
}

fn named_by_reference(refs: &Vec<String>, hash: &str) -> (r: bool)
    ensures
        r == is_referenced(views(refs@), hash@),
{
    if hash.is_empty() {
        return false;
    }
    let ghost all = views(refs@);
    let mut i: usize = 0;
    while i < refs.len()
        invariant
            i <= refs@.len(),
            all == views(refs@),
            hash@.len() > 0,
            forall|j: int| 0 <= j < i ==> text::trimmed(#[trigger] all[j]) != hash@,
        decreases refs@.len() - i,
    {
        assert(all[i as int] == refs@[i as int]@);
        if same(text::trim(refs[i].as_str()).as_str(), hash) {
            return true;
        }
        i += 1;
    }
    false
}

/// A revision that no reference names.
pub open spec fn is_detached(refs: Seq<Seq<char>>, v: HfRevisionModel) -> bool {
    v.is_dir && !is_referenced(refs, v.hash)
}

pub open spec fn detached_revision(refs: Seq<Seq<char>>) -> spec_fn(HfRevisionModel) -> Option<
Seq<char>,
> {
    |v: HfRevisionModel|
    if is_detached(refs, v) {
        Some(v.path)
    } else {
        None
    }
}

/// The revisions of a repository that no reference names.
pub open spec fn detached_of(r: HfRepositoryModel) -> Seq<Seq<char>> {
    if repository_id(r.name) is Some {
        collect_some(at_most(r.revisions, REVISION_LIMIT as int), detached_revision(r.refs))
    } else {
        Seq::empty()
    }
}

fn detached_path(v: &HfRevision, refs: &Vec<String>) -> (r: Option<String>)
    ensures
        view_of(r) == detached_revision(views(refs@))(v@),
{
    if v.is_dir && !named_by_reference(refs, v.hash.as_str()) {
        Some(v.path.clone())
    } else {
        None
    }
}

fn detached_paths_of(revisions: &Vec<HfRevision>, refs: &Vec<String>) -> (r: Vec<String>)
    ensures
        views(r@) == collect_some(at_most(views(revisions@), REVISION_LIMIT as int), detached_revision(views(refs@))),
{
    let ghost all = views(revisions@);
    let ghost f = detached_revision(views(refs@));
    let mut out: Vec<String> = Vec::new();
    let limit: usize = if revisions.len() > REVISION_LIMIT {
        REVISION_LIMIT
    } else {
        revisions.len()
    };
    let mut i: usize = 0;
    assert(views(out@) =~= collect_some(all.take(0), f));
    while i < limit
        invariant
            i <= limit <= revisions@.len(),
            all == views(revisions@),
            f == detached_revision(views(refs@)),
            views(out@) == collect_some(all.take(i as int), f),
        decreases limit - i,
    {
        proof {
            lemma_collect_step(all, i as int, f);
        }
        assert(all[i as int] == revisions@[i as int]@);
        if let Some(x) = detached_path(&revisions[i], refs) {
            out.push(x);
        }
        i += 1;
    }
    assert(all.take(limit as int) =~= at_most(all, REVISION_LIMIT as int));
    out
}

fn detached_in(r: &HfRepository) -> (p: Vec<String>)
    ensures
        views(p@) == detached_of(r@),
{
    match hf_repo_id(r.name.as_str()) {
        Some(_) => detached_paths_of(&r.revisions, &r.refs),
        None => Vec::new(),
    }
}

pub open spec fn detached_paths() -> spec_fn(HfRepositoryModel) -> Seq<Seq<char>> {
    |r: HfRepositoryModel| detached_of(r)
}

/// The files of the revisions that a reference names, or of those that none
/// names.
pub open spec fn blobs_of_revision(refs: Seq<Seq<char>>, detached: bool) -> spec_fn(
    HfRevisionModel,
) -> Seq<Seq<char>> {
    |v: HfRevisionModel|
    if v.is_dir && is_detached(refs, v) == detached {
        v.blobs
    } else {
        Seq::empty()
    }
}

pub open spec fn blobs_of_repository(detached: bool) -> spec_fn(HfRepositoryModel) -> Seq<Seq<char>> {
    |r: HfRepositoryModel|
    if repository_id(r.name) is Some {
        flatten_map(
            at_most(r.revisions, REVISION_LIMIT as int),
            blobs_of_revision(r.refs, detached),
        )
    } else {
        Seq::empty()
    }
}

fn revision_blobs(v: &HfRevision, refs: &Vec<String>, detached: bool) -> (r: Vec<String>)
    ensures
        views(r@) == blobs_of_revision(views(refs@), detached)(v@),
{
    if v.is_dir && !named_by_reference(refs, v.hash.as_str()) == detached {
        text::copy_texts(&v.blobs)
    } else {
        Vec::new()
    }
}

fn revisions_blobs(revisions: &Vec<HfRevision>, refs: &Vec<String>, detached: bool) -> (r: Vec<String>)
    ensures
        views(r@) == flatten_map(at_most(views(revisions@), REVISION_LIMIT as int), blobs_of_revision(views(refs@), detached)),
{
    let ghost all = views(revisions@);
    let ghost f = blobs_of_revision(views(refs@), detached);
    let mut out: Vec<String> = Vec::new();
    let limit: usize = if revisions.len() > REVISION_LIMIT {
        REVISION_LIMIT
    } else {
        revisions.len()
    };
    let mut i: usize = 0;
    assert(views(out@) =~= flatten_map(all.take(0), f));
    while i < limit
        invariant
            i <= limit <= revisions@.len(),
            all == views(revisions@),
            f == blobs_of_revision(views(refs@), detached),
            views(out@) == flatten_map(all.take(i as int), f),
        decreases limit - i,
    {
        proof {
            lemma_flatten_step(all, i as int, f);
        }
        assert(all[i as int] == revisions@[i as int]@);
        let mut more = revision_blobs(&revisions[i], refs, detached);
        out.append(&mut more);
        i += 1;
    }
    assert(all.take(limit as int) =~= at_most(all, REVISION_LIMIT as int));
    out
}

fn repository_blobs(r: &HfRepository, detached: bool) -> (b: Vec<String>)
    ensures
        views(b@) == blobs_of_repository(detached)(r@),
{
    match hf_repo_id(r.name.as_str()) {
        Some(_) => revisions_blobs(&r.revisions, &r.refs, detached),
        None => Vec::new(),
    }
}

fn all_blobs(repos: &Vec<HfRepository>, detached: bool) -> (r: Vec<String>)
    ensures
        views(r@) == flatten_map(examined(views(repos@)), blobs_of_repository(detached)),
{
    let limit: usize = reached_count(repos);
    let ghost all = views(repos@);
    let ghost f = blobs_of_repository(detached);
    let mut out: Vec<String> = Vec::new();
    let mut i: usize = 0;
    assert(views(out@) =~= flatten_map(all.take(0), f));
    while i < limit
        invariant
            i <= limit <= repos@.len(),
            all == views(repos@),
            f == blobs_of_repository(detached),
            views(out@) == flatten_map(all.take(i as int), f),
        decreases limit - i,
    {
        proof {
            lemma_flatten_step(all, i as int, f);
        }
        assert(all[i as int] == repos@[i as int]@);
        let mut more = repository_blobs(&repos[i], detached);
        out.append(&mut more);
        i += 1;
    }
    out
}

/// Whether a path is among some paths.
pub open spec fn has_path(s: Seq<Seq<char>>, p: Seq<char>) -> bool {
    exists|i: int| 0 <= i < s.len() && equal_paths(p, #[trigger] s[i])
}

/// Paths once each, without those in `excluded`.
pub open spec fn distinct_outside(s: Seq<Seq<char>>, excluded: Seq<Seq<char>>) -> Seq<Seq<char>>
    decreases s.len(),
{
    if s.len() == 0 {
        Seq::empty()
    } else {
        let rest = distinct_outside(s.drop_last(), excluded);
        if has_path(excluded, s.last()) || has_path(rest, s.last()) {
            rest
        } else {
            rest.push(s.last())
        }
    }
}

fn among_them(p: &str, list: &Vec<String>) -> (r: bool)
    ensures
        r == has_path(views(list@), p@),
{
    let ghost all = views(list@);
    let found = paths::among_paths(p, list);
    proof {
        if found {
            let i = choose|i: int| 0 <= i < list@.len() && equal_paths(p@, #[trigger] list@[i]@);
            assert(equal_paths(p@, all[i]));
        }
        if has_path(all, p@) {
            let i = choose|i: int| 0 <= i < all.len() && equal_paths(p@, #[trigger] all[i]);
            assert(equal_paths(p@, list@[i]@));
        }
    }
    found
}

fn distinct(s: &Vec<String>, excluded: &Vec<String>) -> (r: Vec<String>)
    ensures
        views(r@) == distinct_outside(views(s@), views(excluded@)),
{
    let ghost all = views(s@);
    let mut out: Vec<String> = Vec::new();
    let mut i: usize = 0;
    assert(views(out@) =~= distinct_outside(all.take(0), views(excluded@)));
    while i < s.len()
        invariant
            i <= s@.len(),
            all == views(s@),
            views(out@) == distinct_outside(all.take(i as int), views(excluded@)),
        decreases s@.len() - i,
    {
        assert(all.take(i + 1).drop_last() =~= all.take(i as int));
        assert(all[i as int] == s@[i as int]@);
        if !among_them(s[i].as_str(), excluded) && !among_them(s[i].as_str(), &out) {
            out.push(s[i].clone());
        }
        i += 1;
    }
    assert(all.take(i as int) =~= all);
    out
}

/// The files that only revisions without a reference lead to, each once.
pub open spec fn freed_blobs(repos: Seq<HfRepositoryModel>) -> Seq<Seq<char>> {
    distinct_outside(
        flatten_map(examined(repos), blobs_of_repository(true)),
        flatten_map(examined(repos), blobs_of_repository(false)),
    )
}

/// The files that only revisions without a reference lead to, each once.
pub fn detached_blobs(repos: &Vec<HfRepository>) -> (r: Vec<String>)
    ensures
        views(r@) == freed_blobs(views(repos@)),
{
    let loose = all_blobs(repos, true);
    let kept = all_blobs(repos, false);
    distinct(&loose, &kept)
}

/// What is said of a repository that is old.
pub open spec fn stale_draft(hub: Seq<char>, id: Seq<char>, r: HfRepositoryModel) -> Draft {
    draft(
        ai_assets(),
        "huggingface-stale-repository"@,
        "ai-models"@,
        id,
        "Hugging Face "@ + id,
        Safety::Review,
        r.bytes,
    )
        .manual()
        .age(r.age, false)
        .confidence(Confidence::High)
        .reason(
        "This cached repository has not changed inside the configured age window."@,
    )
        .evidence("Cache"@, hub)
        .evidence("Repository"@, id)
        .copy(
        "A locally cached Hugging Face model, dataset, or Space with all retained revisions."@,
        "The repository must be downloaded again, and local modifications inside the cache are lost."@,
        "Review the repository name and remote availability before removal."@,
    )
}

/// The finding for a repository that is old and large enough: offered where the
/// cache manager is there to remove it.
pub open spec fn stale_row(hub: Seq<char>, remove: bool, settings: ProviderSettings) -> spec_fn(
    HfRepositoryModel,
) -> Option<FindingModel> {
    |r: HfRepositoryModel|
    match repository_id(r.name) {
        Some(id) => if r.bytes < settings.min_size_bytes || !aged(r.age, settings.min_age_days) {
            None
        } else if remove {
            Some(stale_draft(hub, id, r)
                    .action(
                    "hf-remove-repository"@,
                    seq!["hf"@, "cache"@, "rm"@, id, "--cache-dir"@, hub, "--yes"@],
                    true,
                    true,
                )
                    .build())
        } else {
            Some(stale_draft(hub, id, r).report_only().build())
        },
        None => None,
    }
}

fn stale_finding(r: &HfRepository, hub: &str, remove: bool, settings: &ProviderSettings) -> (f:
    Option<Finding>)
    ensures
        view_of(f) == stale_row(hub@, remove, *settings)(r@),
{
    let name = match hf_repo_id(r.name.as_str()) {
        Some(n) => n,
        None => {
            return None;
        },
    };
    let id = name.as_str();
    if r.bytes < settings.min_size_bytes || !is_aged(r.age, settings.min_age_days) {
        return None;
    }
    let builder = ProviderFinding::object(
        metadata(),
        "huggingface-stale-repository",
        "ai-models",
        id,
        "Hugging Face ".to_owned().concat(id).as_str(),
        Safety::Review,
        r.bytes,
    )
        .manual()
        .age(r.age, false)
        .confidence(Confidence::High)
        .reason(
        "This cached repository has not changed inside the configured age window.",
    )
        .evidence("Cache", hub)
        .evidence("Repository", id)
        .copy(
        "A locally cached Hugging Face model, dataset, or Space with all retained revisions.",
        "The repository must be downloaded again, and local modifications inside the cache are lost.",
        "Review the repository name and remote availability before removal.",
    );
    Some(
        if remove {
            builder
                .action(
                "hf-remove-repository",
                text::texts7("hf", "cache", "rm", id, "--cache-dir", hub, "--yes"),
                true,
                true,
            )
                .build()
        } else {
            builder.report_only().build()
        },
    )
}

/// A repository with how many of its revisions no reference names.
pub open spec fn detached_label() -> spec_fn(HfRepositoryModel) -> Option<Seq<char>> {
    |r: HfRepositoryModel|
    if detached_of(r).len() > 0 {
        Some(repository_id(r.name)->0 + " ("@ + digits(detached_of(r).len()) + ")"@)
    } else {
        None
    }
}

fn label_detached(r: &HfRepository) -> (l: Option<String>)
    ensures
        view_of(l) == detached_label()(r@),
{
    match hf_repo_id(r.name.as_str()) {
        Some(id) => {
            let loose = detached_paths_of(&r.revisions, &r.refs);
            let n: usize = loose.len();
            assert(views(loose@).len() == n);
            if n > 0 {
                Some(id.concat(" (").concat(text::decimal(n as u64).as_str()).concat(")"))
            } else {
                None
            }
        },
        None => None,
    }
}

/// What is said of revisions that no reference names.
pub open spec fn detached_draft(
    hub: Seq<char>,
    loose: Seq<Seq<char>>,
    labels: Seq<Seq<char>>,
    bytes: u64,
) -> Draft {
    draft(
        ai_assets(),
        "huggingface-detached-revisions"@,
        "ai-ml-cache"@,
        "detached-revisions"@,
        "Detached Hugging Face revisions"@,
        Safety::Safe,
        bytes,
    )
        .grouped_paths(loose)
        .size(
        FindingSize {
            logical: bytes,
            physical: bytes,
            unique: bytes,
            shared: 0,
            reclaimable: bytes,
            accuracy: SizeAccuracy::Exact,
        },
    )
        .reason(
        "These snapshot revisions are not referenced by any local Hugging Face ref."@,
    )
        .evidence("Cache"@, hub)
        .evidence("Repositories"@, text::joined(labels, ", "@))
        .copy(
        "Detached cached revisions whose blobs are not needed by any retained revision."@,
        "A detached revision must be downloaded again if referenced explicitly later."@,
        "Safe to prune through Hugging Face's cache manager."@,
    )
}

pub open spec fn detached_rows(
    hub: Seq<char>,
    loose: Seq<Seq<char>>,
    labels: Seq<Seq<char>>,
    bytes: u64,
    prune: bool,
    settings: ProviderSettings,
) -> Seq<FindingModel> {
    if loose.len() == 0 || bytes < settings.min_size_bytes {
        Seq::empty()
    } else if prune {
        seq![detached_draft(hub, loose, labels, bytes)
                .action(
                "hf-prune-detached"@,
                seq!["hf"@, "cache"@, "prune"@, "--cache-dir"@, hub, "--yes"@],
                true,
                false,
            )
                .build()]
    } else {
        seq![detached_draft(hub, loose, labels, bytes).report_only().build()]
    }
}

fn detached_findings(
    hub: &str,
    loose: Vec<String>,
    labels: &Vec<String>,
    bytes: u64,
    prune: bool,
    settings: &ProviderSettings,
) -> (r: Vec<Finding>)
    ensures
        views(r@) == detached_rows(hub@, views(loose@), views(labels@), bytes, prune, *settings),
{
    let ghost there = views(loose@);
    let mut out: Vec<Finding> = Vec::new();
    if loose.len() == 0 || bytes < settings.min_size_bytes {
        return out;
    }
    let builder = ProviderFinding::object(
        metadata(),
        "huggingface-detached-revisions",
        "ai-ml-cache",
        "detached-revisions",
        "Detached Hugging Face revisions",
        Safety::Safe,
        bytes,
    )
        .grouped_paths(loose)
        .size(
        FindingSize {
            logical: bytes,
            physical: bytes,
            unique: bytes,
            shared: 0,
            reclaimable: bytes,
            accuracy: SizeAccuracy::Exact,
        },
    )
        .reason(
        "These snapshot revisions are not referenced by any local Hugging Face ref.",
    )
        .evidence("Cache", hub)
        .evidence("Repositories", text::join(labels, ", ").as_str())
        .copy(
        "Detached cached revisions whose blobs are not needed by any retained revision.",
        "A detached revision must be downloaded again if referenced explicitly later.",
        "Safe to prune through Hugging Face's cache manager.",
    );
    let finding = if prune {
        builder
            .action(
            "hf-prune-detached",
            text::texts6("hf", "cache", "prune", "--cache-dir", hub, "--yes"),
            true,
            false,
        )
            .build()
    } else {
        builder.report_only().build()
    };
    out.push(finding);
    assert(views(out@) =~= detached_rows(
            hub@,
            there,
            views(labels@),
            bytes,
            prune,
            *settings,
    ));
    out
}

/// The findings for the hub of Hugging Face: the repositories that are old, then
/// the revisions that no reference names, whose own files take `bytes`.
pub open spec fn hub_rows(
    hub: Seq<char>,
    repos: Seq<HfRepositoryModel>,
    bytes: u64,
    remove: bool,
    prune: bool,
    settings: ProviderSettings,
) -> Seq<FindingModel> {
    let s = examined(repos);
    collect_some(s, stale_row(hub, remove, settings)) + detached_rows(
        hub,
        flatten_map(s, detached_paths()),
        collect_some(s, detached_label()),
        bytes,
        prune,
        settings,
    )
}

/// The findings for the hub of Hugging Face. `bytes` is what the files that only
/// detached revisions lead to take.
pub fn huggingface_findings(
    hub: &str,
    repos: &Vec<HfRepository>,
    bytes: u64,
    remove: bool,
    prune: bool,
    settings: &ProviderSettings,
) -> (r: Vec<Finding>)
    ensures
        views(r@) == hub_rows(hub@, views(repos@), bytes, remove, prune, *settings),
{
    let limit: usize = reached_count(repos);
    let ghost all = views(repos@);
    let ghost f = stale_row(hub@, remove, *settings);
    let mut out: Vec<Finding> = Vec::new();
    let mut loose: Vec<String> = Vec::new();
    let mut labels: Vec<String> = Vec::new();
    let mut i: usize = 0;
    assert(views(out@) =~= collect_some(all.take(0), f));
    assert(views(loose@) =~= flatten_map(all.take(0), detached_paths()));
    assert(views(labels@) =~= collect_some(all.take(0), detached_label()));
    while i < limit
        invariant
            i <= limit <= repos@.len(),
            all == views(repos@),
            f == stale_row(hub@, remove, *settings),
            views(out@) == collect_some(all.take(i as int), f),
            views(loose@) == flatten_map(all.take(i as int), detached_paths()),
            views(labels@) == collect_some(all.take(i as int), detached_label()),
        decreases limit - i,
    {
        proof {
            lemma_collect_step(all, i as int, f);
            lemma_flatten_step(all, i as int, detached_paths());
            lemma_collect_step(all, i as int, detached_label());
        }
        assert(all[i as int] == repos@[i as int]@);
        let mut more = detached_in(&repos[i]);
        loose.append(&mut more);
        if let Some(l) = label_detached(&repos[i]) {
            labels.push(l);
        }
        if let Some(x) = stale_finding(&repos[i], hub, remove, settings) {
            out.push(x);
        }
        i += 1;
    }
    let mut last = detached_findings(hub, loose, &labels, bytes, prune, settings);
    out.append(&mut last);
    out
}

// ---- Ollama ----

/// A manifest of a model, with its text where it could be read.
pub struct ManifestFile {
    pub path: String,
    pub contents: Option<String>,
    pub age: Option<u64>,
}

#[verifier::ext_equal]
pub struct ManifestFileModel {
    pub path: Seq<char>,
    pub contents: Option<Seq<char>>,
    pub age: Option<u64>,
}

impl View for ManifestFile {
    type V = ManifestFileModel;

    open spec fn view(&self) -> ManifestFileModel {
        ManifestFileModel {
            path: self.path@,
            contents: view_of(self.contents),
            age: self.age,
        }
    }
}

/// An installed model.
pub struct OllamaModel {
    pub name: String,
    pub manifest: String,
    pub blobs: Vec<String>,
    pub age: Option<u64>,
}

#[verifier::ext_equal]
pub struct OllamaModelModel {
    pub name: Seq<char>,
    pub manifest: Seq<char>,
    pub blobs: Seq<Seq<char>>,
    pub age: Option<u64>,
}

impl View for OllamaModel {
    type V = OllamaModelModel;

    open spec fn view(&self) -> OllamaModelModel {
        OllamaModelModel {
            name: self.name@,
            manifest: self.manifest@,
            blobs: views(self.blobs@),
            age: self.age,
        }
    }
}

/// Where a layer lies.
pub open spec fn blob_path(root: Seq<char>, digest: Seq<char>) -> Seq<char> {
    paths::below(paths::below(root, "blobs"@), text::replaced(digest, ':', "-"@))
}

pub open spec fn layer_blob(root: Seq<char>) -> spec_fn(JsonModel) -> Option<Seq<char>> {
    |l: JsonModel|
    match l.text_at("digest"@) {
        Some(d) => Some(blob_path(root, d)),
        None => None,
    }
}

/// The files that a manifest names: its configuration and its layers, each
/// once.
pub open spec fn manifest_blobs(root: Seq<char>, doc: JsonModel) -> Seq<Seq<char>> {
    let config = match doc.get("config"@) {
        Some(c) => match c.text_at("digest"@) {
            Some(d) => seq![blob_path(root, d)],
            None => Seq::empty(),
        },
        None => Seq::empty(),
    };
    distinct_outside(
        config + collect_some(doc.items_at("layers"@), layer_blob(root)),
        Seq::empty(),
    )
}

/// The name of the model whose manifest lies at a relative path.
pub open spec fn model_name(relative: Seq<char>) -> Seq<char> {
    let p = paths::parts(relative);
    if p.len() >= 3 {
        p[p.len() - 3] + "/"@ + p[p.len() - 2] + ":"@ + p[p.len() - 1]
    } else {
        text::replaced(relative, '/', ":"@)
    }
}

/// The model of a manifest that has been read.
pub open spec fn model_of(root: Seq<char>, path: Seq<char>, age: Option<u64>, doc: JsonModel) -> Option<
OllamaModelModel,
> {
    match paths::relative_to(path, paths::below(root, "manifests"@)) {
        Some(relative) => Some(
            OllamaModelModel {
                name: model_name(relative),
                manifest: path,
                blobs: manifest_blobs(root, doc),
                age,
            },
        ),
        None => None,
    }
}

/// The model of a manifest.
pub open spec fn manifest_model(root: Seq<char>) -> spec_fn(ManifestFileModel) -> Option<
OllamaModelModel,
> {
    |m: ManifestFileModel|
    match m.contents {
        Some(c) => match json_document(c) {
            Some(d) => model_of(root, m.path, m.age, d),
            None => None,
        },
        None => None,
    }
}

fn digest_path(root: &str, digest: &str) -> (r: String)
    ensures
        r@ == blob_path(root@, digest@),
{
    paths::join(
        paths::join(root, "blobs").as_str(),
        text::replace(digest, ':', "-").as_str(),
    )
}

fn layer_path(l: &Json, root: &str) -> (r: Option<String>)
    ensures
        view_of(r) == layer_blob(root@)(l@),
{
    match l.text("digest") {
        Some(d) => Some(digest_path(root, d.as_str())),
        None => None,
    }
}

fn layer_paths(layers: &Vec<Json>, root: &str) -> (r: Vec<String>)
    ensures
        views(r@) == collect_some(item_models(layers@), layer_blob(root@)),
{
    let ghost all = item_models(layers@);
    let ghost f = layer_blob(root@);
    let mut out: Vec<String> = Vec::new();
    let limit: usize = layers.len();
    let mut i: usize = 0;
    assert(views(out@) =~= collect_some(all.take(0), f));
    while i < limit
        invariant
            i <= limit <= layers@.len(),
            all == item_models(layers@),
            f == layer_blob(root@),
            views(out@) == collect_some(all.take(i as int), f),
        decreases limit - i,
    {
        proof {
            lemma_collect_step(all, i as int, f);
        }
        assert(all[i as int] == layers@[i as int]@);
        if let Some(x) = layer_path(&layers[i], root) {
            out.push(x);
        }
        i += 1;
    }
    assert(all.take(limit as int) =~= all);
    out
}

/// The files that a manifest names, each once.
pub fn blobs_of_manifest(doc: &Json, root: &str) -> (r: Vec<String>)
    ensures
        views(r@) == manifest_blobs(root@, doc@),
{
    let mut named: Vec<String> = Vec::new();
    let ghost mut config = Seq::<Seq<char>>::empty();
    if let Some(c) = doc.get("config") {
        if let Some(d) = c.text("digest") {
            named.push(digest_path(root, d.as_str()));
            proof {
                config = seq![blob_path(root@, d@)];
            }
        }
    }
    assert(views(named@) =~= config);
    if let Some(layers) = doc.array("layers") {
        let mut more = layer_paths(layers, root);
        named.append(&mut more);
    } else {
        assert(config + collect_some(doc@.items_at("layers"@), layer_blob(root@)) =~= config);
    }
    let none: Vec<String> = Vec::new();
    assert(views(none@) =~= Seq::<Seq<char>>::empty());
    distinct(&named, &none)
}

fn name_of_model(relative: &str) -> (r: String)
    ensures
        r@ == model_name(relative@),
{
    let p = paths::components(relative);
    let n: usize = p.len();
    if n >= 3 {
        assert(views(p@)[n - 3] == p@[n - 3]@ && views(p@)[n - 2] == p@[n - 2]@ && views(p@)[n - 1]
                == p@[n - 1]@);
        p[n - 3].clone().concat("/").concat(p[n - 2].as_str()).concat(":").concat(p[n - 1].as_str())
    } else {
        text::replace(relative, '/', ":")
    }
}

/// The model of a manifest that has been read.
pub fn manifest_to_model(root: &str, path: &str, age: Option<u64>, doc: &Json) -> (r: Option<
    OllamaModel,
    >)
    ensures
        view_of(r) == model_of(root@, path@, age, doc@),
{
    match paths::strip_prefix(path, paths::join(root, "manifests").as_str()) {
        Some(relative) => Some(
            OllamaModel {
                name: name_of_model(relative.as_str()),
                manifest: path.to_owned(),
                blobs: blobs_of_manifest(doc, root),
                age,
            },
        ),
        None => None,
    }
}

fn read_manifest(m: &ManifestFile, root: &str) -> (r: Option<OllamaModel>)
    ensures
        view_of(r) == manifest_model(root@)(m@),
{
    match &m.contents {
        Some(c) => match parse_json(c.as_str()) {
            Some(d) => manifest_to_model(root, m.path.as_str(), m.age, &d),
            None => None,
        },
        None => None,
    }
}

/// The models whose manifests lie below `root`.
pub fn read_ollama_models(files: &Vec<ManifestFile>, root: &str) -> (r: Vec<OllamaModel>)
    ensures
        views(r@) == collect_some(views(files@), manifest_model(root@)),
{
    let ghost all = views(files@);
    let ghost f = manifest_model(root@);
    let mut out: Vec<OllamaModel> = Vec::new();
    let limit: usize = files.len();
    let mut i: usize = 0;
    assert(views(out@) =~= collect_some(all.take(0), f));
    while i < limit
        invariant
            i <= limit <= files@.len(),
            all == views(files@),
            f == manifest_model(root@),
            views(out@) == collect_some(all.take(i as int), f),
        decreases limit - i,
    {
        proof {
            lemma_collect_step(all, i as int, f);
        }
        assert(all[i as int] == files@[i as int]@);
        if let Some(x) = read_manifest(&files[i], root) {
            out.push(x);
        }
        i += 1;
    }
    assert(all.take(limit as int) =~= all);
    out
}

/// The models that run, as their list says below its heading.
pub open spec fn running_in(output: Seq<char>) -> Seq<Seq<char>> {
    let l = text::lines_of(output);
    collect_some(
        if l.len() > 0 {
            l.skip(1)
        } else {
            l
        },
        first_word(),
    )
}

pub fn ollama_running_models(output: &str) -> (r: Vec<String>)
    ensures
        views(r@) == running_in(output@),
{
    let l = text::lines(output);
    let ghost lines = views(l@);
    let ghost f = first_word();
    let mut out: Vec<String> = Vec::new();
    if l.len() == 0 {
        assert(collect_some(lines, f) =~= Seq::<Seq<char>>::empty());
        return out;
    }
    let ghost all = lines.skip(1);
    let n: usize = l.len();
    let mut i: usize = 1;
    assert(views(out@) =~= collect_some(all.take(0), f));
    while i < n
        invariant
            1 <= i <= n,
            n == l@.len(),
            lines == views(l@),
            all == lines.skip(1),
            f == first_word(),
            views(out@) == collect_some(all.take(i - 1), f),
        decreases n - i,
    {
        proof {
            lemma_collect_step(all, i - 1, f);
        }
        assert(all[i - 1] == l@[i as int]@);
        if let Some(w) = word_of(l[i].as_str()) {
            out.push(w);
        }
        i += 1;
    }
    assert(all.take(n - 1) =~= all);
    out
}

/// Whether another model has the file too.
pub open spec fn is_shared(models: Seq<OllamaModelModel>, i: int, blob: Seq<char>) -> bool {
    exists|j: int| 0 <= j < models.len() && j != i && has_path((#[trigger] models[j]).blobs, blob)
}

fn shared_blob(models: &Vec<OllamaModel>, i: usize, blob: &str) -> (r: bool)
    ensures
        r == is_shared(views(models@), i as int, blob@),
{
    let ghost all = views(models@);
    let mut j: usize = 0;
    while j < models.len()
        invariant
            j <= models@.len(),
            all == views(models@),
            forall|k: int| 0 <= k < j && k != i ==> !has_path((#[trigger] all[k]).blobs, blob@),
        decreases models@.len() - j,
    {
        assert(all[j as int] == models@[j as int]@);
        if j != i && among_them(blob, &models[j].blobs) {
            return true;
        }
        j += 1;
    }
    false
}

/// The bytes of the first `n` files of a model that it shares, or that it has
/// for itself.
pub open spec fn share_of(
    models: Seq<OllamaModelModel>,
    sizes: Seq<u64>,
    i: int,
    shared: bool,
    n: nat,
) -> nat
    decreases n,
{
    if n == 0 || n > sizes.len() || n > models[i].blobs.len() {
        0
    } else {
        share_of(models, sizes, i, shared, (n - 1) as nat) + if is_shared(
            models,
            i,
            models[i].blobs[n - 1],
        ) == shared {
            sizes[n - 1] as nat
        } else {
            0
        }
    }
}

/// The bytes that a model shares, or has for itself; `sizes` says what each of
/// its files takes.
pub open spec fn bytes_of(
    models: Seq<OllamaModelModel>,
    sizes: Seq<u64>,
    i: int,
    shared: bool,
) -> nat {
    share_of(
        models,
        sizes,
        i,
        shared,
        if sizes.len() < models[i].blobs.len() {
            sizes.len()
        } else {
            models[i].blobs.len()
        },
    )
}

proof fn lemma_share_grows(
    models: Seq<OllamaModelModel>,
    sizes: Seq<u64>,
    i: int,
    shared: bool,
    a: nat,
    b: nat,
)
    requires
        a <= b <= sizes.len(),
        b <= models[i].blobs.len(),
    ensures
        share_of(models, sizes, i, shared, a) <= share_of(models, sizes, i, shared, b),
    decreases b,
{
    if a < b {
        lemma_share_grows(models, sizes, i, shared, a, (b - 1) as nat);
    }
}

/// The bytes that a model shares, or has for itself, where they fit 64 bits.
fn share(models: &Vec<OllamaModel>, sizes: &Vec<u64>, i: usize, shared: bool) -> (r: Option<u64>)
    requires
        i < models@.len(),
    ensures
        match r {
            Some(n) => n == bytes_of(views(models@), sizes@, i as int, shared),
            None => bytes_of(views(models@), sizes@, i as int, shared) > u64::MAX,
        },
{
    let ghost all = views(models@);
    let blobs = &models[i].blobs;
    assert(all[i as int].blobs == views(blobs@));
    let limit: usize = if sizes.len() < blobs.len() {
        sizes.len()
    } else {
        blobs.len()
    };
    let mut total: u64 = 0;
    let mut k: usize = 0;
    while k < limit
        invariant
            i < models@.len(),
            k <= limit,
            limit <= sizes@.len(),
            limit <= blobs@.len(),
            limit == sizes@.len() || limit == blobs@.len(),
            all == views(models@),
            all[i as int].blobs == views(blobs@),
            total == share_of(all, sizes@, i as int, shared, k as nat),
        decreases limit - k,
    {
        proof {
            lemma_share_grows(all, sizes@, i as int, shared, (k + 1) as nat, limit as nat);
        }
        assert(views(blobs@)[k as int] == blobs@[k as int]@);
        if shared_blob(models, i, blobs[k].as_str()) == shared {
            total = match total.checked_add(sizes[k]) {
                Some(n) => n,
                None => {
                    return None;
                },
            };
        }
        k += 1;
    }
    Some(total)
}

/// What is said of an installed model.
pub open spec fn model_draft(m: OllamaModelModel, unique: u64, shared: u64, running: bool) -> Draft {
    draft(
        ai_assets(),
        "ollama-stale-model"@,
        "ai-models"@,
        m.name,
        "Ollama "@ + m.name,
        if running {
            Safety::Protected
        } else {
            Safety::Review
        },
        unique,
    )
        .size(
        FindingSize {
            logical: capped_sum(unique, shared),
            physical: capped_sum(unique, shared),
            unique: unique,
            shared: shared,
            reclaimable: unique,
            accuracy: SizeAccuracy::Exact,
        },
    )
        .age(m.age, false)
        .manual()
        .confidence(Confidence::High)
        .reason(
        if running {
            "Ollama currently reports this model as loaded."@
        } else {
            "The model manifest is older than the configured age threshold."@
        },
    )
        .evidence("Manifest"@, m.manifest)
        .evidence("Shared blob bytes"@, digits(shared as nat))
        .copy(
        "A locally installed Ollama model and the blob layers unique to it."@,
        "The model must be downloaded again before it can run."@,
        if running {
            "Stop the running model before removal."@
        } else {
            "Remove through Ollama so its manifest and shared layers remain consistent."@
        },
    )
}

/// The finding for a model that is old and large enough: protected while it
/// runs, offered where Ollama is there to remove it.
pub open spec fn model_finding(
    m: OllamaModelModel,
    unique: u64,
    shared: u64,
    running: bool,
    remove: bool,
    settings: ProviderSettings,
) -> Option<FindingModel> {
    if unique < settings.min_size_bytes || !aged(m.age, settings.min_age_days) {
        None
    } else if running {
        Some(model_draft(m, unique, shared, running).protected().build())
    } else if remove {
        Some(model_draft(m, unique, shared, running)
                .action("ollama-remove-model"@, seq!["ollama"@, "rm"@, m.name], true, true)
                .build())
    } else {
        Some(model_draft(m, unique, shared, running).report_only().build())
    }
}

fn ollama_finding(
    m: &OllamaModel,
    unique: u64,
    shared: u64,
    running: bool,
    remove: bool,
    settings: &ProviderSettings,
) -> (r: Option<Finding>)
    ensures
        view_of(r) == model_finding(m@, unique, shared, running, remove, *settings),
{
    if unique < settings.min_size_bytes || !is_aged(m.age, settings.min_age_days) {
        return None;
    }
    let builder = ProviderFinding::object(
        metadata(),
        "ollama-stale-model",
        "ai-models",
        m.name.as_str(),
        "Ollama ".to_owned().concat(m.name.as_str()).as_str(),
        if running {
            Safety::Protected
        } else {
            Safety::Review
        },
        unique,
    )
        .size(
        FindingSize {
            logical: unique.saturating_add(shared),
            physical: unique.saturating_add(shared),
            unique: unique,
            shared: shared,
            reclaimable: unique,
            accuracy: SizeAccuracy::Exact,
        },
    )
        .age(m.age, false)
        .manual()
        .confidence(Confidence::High)
        .reason(
        if running {
            "Ollama currently reports this model as loaded."
        } else {
            "The model manifest is older than the configured age threshold."
        },
    )
        .evidence("Manifest", m.manifest.as_str())
        .evidence("Shared blob bytes", text::decimal(shared).as_str())
        .copy(
        "A locally installed Ollama model and the blob layers unique to it.",
        "The model must be downloaded again before it can run.",
        if running {
            "Stop the running model before removal."
        } else {
            "Remove through Ollama so its manifest and shared layers remain consistent."
        },
    );
    Some(
        if running {
            builder.protected().build()
        } else if remove {
            builder
                .action("ollama-remove-model", text::texts3("ollama", "rm", m.name.as_str()), true, true)
                .build()
        } else {
            builder.report_only().build()
        },
    )
}

/// The findings for the first `n` models.
pub open spec fn ollama_rows(
    models: Seq<OllamaModelModel>,
    sizes: Seq<Seq<u64>>,
    running: Seq<Seq<char>>,
    remove: bool,
    settings: ProviderSettings,
    n: nat,
) -> Seq<FindingModel>
    decreases n,
{
    if n == 0 || n > models.len() {
        Seq::empty()
    } else {
        let rest = ollama_rows(models, sizes, running, remove, settings, (n - 1) as nat);
        match model_finding(
            models[n - 1],
            bytes_of(models, sizes[n - 1], n - 1, false) as u64,
            bytes_of(models, sizes[n - 1], n - 1, true) as u64,
            running.contains(models[n - 1].name),
            remove,
            settings,
        ) {
            Some(f) => rest.push(f),
            None => rest,
        }
    }
}

/// Whether the bytes of every model fit 64 bits.
pub open spec fn sizes_fit(models: Seq<OllamaModelModel>, sizes: Seq<Seq<u64>>) -> bool {
    forall|i: int, shared: bool|
    0 <= i < models.len() ==> #[trigger] bytes_of(models, sizes[i], i, shared) <= u64::MAX
}

/// The findings for the installed models; `sizes` says for each model what each
/// of its files takes. Nothing where the sizes of a model are beyond 64 bits.
pub fn ollama_findings(
    models: &Vec<OllamaModel>,
    sizes: &Vec<Vec<u64>>,
    running: &Vec<String>,
    remove: bool,
    settings: &ProviderSettings,
) -> (r: Option<Vec<Finding>>)
    requires
        sizes@.len() == models@.len(),
    ensures
        match r {
            Some(v) => sizes_fit(views(models@), views(sizes@)) && views(v@) == ollama_rows(
                views(models@),
                views(sizes@),
                views(running@),
                remove,
                *settings,
                models@.len(),
            ),
            None => !sizes_fit(views(models@), views(sizes@)),
        },
{
    let ghost all = views(models@);
    let ghost all_sizes = views(sizes@);
    let mut out: Vec<Finding> = Vec::new();
    let mut i: usize = 0;
    assert(views(out@) =~= Seq::<FindingModel>::empty());
    while i < models.len()
        invariant
            i <= models@.len(),
            sizes@.len() == models@.len(),
            all == views(models@),
            all_sizes == views(sizes@),
            forall|j: int, shared: bool|
            0 <= j < i ==> #[trigger] bytes_of(all, all_sizes[j], j, shared) <= u64::MAX,
            views(out@) == ollama_rows(all, all_sizes, views(running@), remove, *settings, i as nat),
        decreases models@.len() - i,
    {
        assert(all[i as int] == models@[i as int]@);
        assert(all_sizes[i as int] == sizes@[i as int]@);
        let unique: u64 = match share(models, &sizes[i], i, false) {
            Some(n) => n,
            None => {
                return None;
            },
        };
        let shared: u64 = match share(models, &sizes[i], i, true) {
            Some(n) => n,
            None => {
                return None;
            },
        };
        let is_running = text::among(models[i].name.as_str(), running);
        if let Some(f) = ollama_finding(&models[i], unique, shared, is_running, remove, settings) {
            out.push(f);
        }
        i += 1;
    }
    Some(out)
}

// ---- actions ----

/// Whether a command is the one for an action on an object in a cache.
pub open spec fn action_command(
    action: Seq<char>,
    object: Seq<char>,
    cache: Option<Seq<char>>,
    p: CommandPolicy,
    args: Seq<Seq<char>>,
) -> bool {
    if action == "hf-prune-detached"@ {
        cache is Some && is_policy(
            p,
            "hf-cache-prune"@,
            hf_executables(),
            true,
            false,
            seq![Arg::Is("cache"), Arg::Is("prune"), Arg::Is("--cache-dir"), Arg::AbsolutePath, Arg::Is("--yes")],
        ) && args == seq![
            "cache"@,
            "prune"@,
            "--cache-dir"@,
            cache->0,
            "--yes"@,
        ]
    } else if action == "hf-remove-repository"@ {
        cache is Some && is_policy(
            p,
            "hf-cache-remove"@,
            hf_executables(),
            true,
            false,
            seq![Arg::Is("cache"), Arg::Is("rm"), Arg::Token, Arg::Is("--cache-dir"), Arg::AbsolutePath, Arg::Is("--yes")],
        ) && args == seq![
            "cache"@,
            "rm"@,
            object,
            "--cache-dir"@,
            cache->0,
            "--yes"@,
        ]
    } else {
        action == "ollama-remove-model"@ && is_policy(
            p,
            "ollama-remove"@,
            ollama_executables(),
            true,
            false,
            seq![Arg::Is("rm"), Arg::Token],
        ) && args == seq!["rm"@, object]
    }
}

/// What keeps a command from being found.
pub open spec fn action_error(finding: FindingModel) -> Option<Seq<char>> {
    match finding.native_action {
        None => Some("AI asset action missing"@),
        Some(a) => if a.action_id == "ollama-remove-model"@ {
            None
        } else if a.action_id == "hf-prune-detached"@ || a.action_id == "hf-remove-repository"@ {
            if evidence_at(finding.evidence, "Cache"@) is None {
                Some("HF cache path missing"@)
            } else {
                None
            }
        } else {
            Some("unknown AI asset action "@ + a.action_id)
        },
    }
}

/// The command that carries out the action of a finding.
pub fn plan_action(finding: &Finding) -> (r: Result<(CommandPolicy, Vec<String>), String>)
    ensures
        match r {
            Ok(c) => action_error(finding@) is None && action_command(
                finding@.native_action->0.action_id,
                finding@.native_action->0.object_id,
                evidence_at(finding@.evidence, "Cache"@),
                c.0,
                views(c.1@),
            ),
            Err(e) => action_error(finding@) == Some(e@),
        },
{
    proof {
        reveal_strlit("hf-prune-detached");
        reveal_strlit("hf-remove-repository");
        reveal_strlit("ollama-remove-model");
        assert("hf-prune-detached"@[0] == 'h');
        assert("hf-remove-repository"@[0] == 'h');
        assert("ollama-remove-model"@[0] == 'o');
    }
    match &finding.native_action {
        None => Err("AI asset action missing".to_owned()),
        Some(a) => {
            let id = a.action_id.as_str();
            let object = a.object_id.as_str();
            let cache = evidence_value(finding, "Cache");
            if same(id, "hf-prune-detached") {
                match cache {
                    Some(c) => Ok(
                        (
                            hf_prune(),
                            text::texts5("cache", "prune", "--cache-dir", c.as_str(), "--yes"),
                        ),
                    ),
                    None => Err("HF cache path missing".to_owned()),
                }
            } else if same(id, "hf-remove-repository") {
                match cache {
                    Some(c) => Ok(
                        (
                            hf_remove(),
                            text::texts6("cache", "rm", object, "--cache-dir", c.as_str(), "--yes"),
                        ),
                    ),
                    None => Err("HF cache path missing".to_owned()),
                }
            } else if same(id, "ollama-remove-model") {
                Ok((ollama_remove(), text::texts2("rm", object)))
            } else {
                Err("unknown AI asset action ".to_owned().concat(id))
            }
        },
    }
}

/// The finding stands where a fresh scan finds it again.
pub fn revalidate(refreshed: &Vec<Finding>, finding: &Finding) -> (r: Revalidation)
    ensures
        r@ == revalidated(refreshed@, finding.stable_id@, "Model references or running state changed since the scan."@),
{
    revalidate_against(refreshed, finding, "Model references or running state changed since the scan.")
}

/// What a finding's action is reported to have done, once it has run.
pub fn executed(finding: &Finding) -> (r: Option<ProviderExecution>)
    ensures
        match (finding.native_action, r) {
            (None, None) => true,
            (Some(a), Some(e)) => e.deleted == 1 && e.freed_bytes == finding.bytes && e.message@
                == "Removed AI asset "@ + a.object_id@ + "."@,
            _ => false,
        },
{
    match &finding.native_action {
        Some(a) => Some(completed(
                finding,
                "Removed AI asset ".to_owned().concat(a.object_id.as_str()).concat("."),
        )),
        None => None,
    }
}

// ---- laws ----

/// A revision that a reference names is not detached, whatever white space stands
/// around its name.
pub proof fn law_referenced_revisions_stay(refs: Seq<Seq<char>>, v: HfRevisionModel, i: int)
    requires
        0 <= i < refs.len(),
        v.hash.len() > 0,
        text::trimmed(refs[i]) == v.hash,
    ensures
        !is_detached(refs, v),
        detached_revision(refs)(v) is None,
{
}

/// A file that a referenced revision leads to is never counted as freed.
pub proof fn law_retained_blobs_are_kept(repos: Seq<HfRepositoryModel>, i: int)
    requires
        0 <= i < freed_blobs(repos).len(),
    ensures
        !has_path(
            flatten_map(examined(repos), blobs_of_repository(false)),
            freed_blobs(repos)[i],
        ),
{
    lemma_outside(
        flatten_map(examined(repos), blobs_of_repository(true)),
        flatten_map(examined(repos), blobs_of_repository(false)),
        i,
    );
}

proof fn lemma_outside(s: Seq<Seq<char>>, excluded: Seq<Seq<char>>, i: int)
    requires
        0 <= i < distinct_outside(s, excluded).len(),
    ensures
        !has_path(excluded, distinct_outside(s, excluded)[i]),
    decreases s.len(),
{
    let rest = distinct_outside(s.drop_last(), excluded);
    if i < rest.len() {
        lemma_outside(s.drop_last(), excluded, i);
    }
}

/// A model that runs is protected; one that does not is never for bulk
/// selection, and promises no byte that it shares.
pub proof fn law_models_are_manual(
    m: OllamaModelModel,
    unique: u64,
    shared: u64,
    running: bool,
    remove: bool,
    settings: ProviderSettings,
)
    ensures
        match model_finding(m, unique, shared, running, remove, settings) {
            Some(f) => f.manual_only && f.bytes <= unique && (running ==> f.native_action is None
                    && f.bytes == 0),
            None => true,
        },
{
}

/// A command for an action is one that its own policy accepts, where the object is a
/// name that can be handed to a tool, and the cache such a path.
pub proof fn law_planned_commands_are_admitted(
    action: Seq<char>,
    object: Seq<char>,
    cache: Option<Seq<char>>,
    p: CommandPolicy,
    args: Seq<Seq<char>>,
)
    requires
        action_command(action, object, cache, p, args),
        is_token(object),
        cache matches Some(c) ==> is_token(c) && absolute(c),
    ensures
        admits(p.args@, args),
{
}

/// A revision is detached exactly where it is there and no reference holds its hash.
pub proof fn law_detached_revisions_have_no_reference(refs: Seq<Seq<char>>, v: HfRevisionModel)
    requires
        v.hash.len() > 0,
    ensures
        is_detached(refs, v) <==> v.is_dir && forall|i: int|
        0 <= i < refs.len() ==> text::trimmed(#[trigger] refs[i]) != v.hash,
        detached_revision(refs)(v) == if is_detached(refs, v) {
            Some(v.path)
        } else {
            None
        },
{
}

proof fn lemma_distinct_outside(s: Seq<Seq<char>>, excluded: Seq<Seq<char>>)
    ensures
        forall|i: int|
        0 <= i < s.len() && !has_path(excluded, #[trigger] s[i]) ==> has_path(
            distinct_outside(s, excluded),
            s[i],
        ),
        forall|j: int|
        0 <= j < distinct_outside(s, excluded).len() ==> s.contains(
            #[trigger] distinct_outside(s, excluded)[j],
        ) && !has_path(excluded, distinct_outside(s, excluded)[j]),
        forall|i: int, j: int|
        #![trigger distinct_outside(s, excluded)[i], distinct_outside(s, excluded)[j]]
        0 <= i < j < distinct_outside(s, excluded).len() ==> !equal_paths(
            distinct_outside(s, excluded)[j],
            distinct_outside(s, excluded)[i],
        ),
    decreases s.len(),
{
    if s.len() > 0 {
        let less = s.drop_last();
        let rest = distinct_outside(less, excluded);
        let all = distinct_outside(s, excluded);
        let last = s.last();
        lemma_distinct_outside(less, excluded);
        assert(s[s.len() - 1] == last);
        assert(all == rest || all == rest.push(last));
        assert forall|j: int| 0 <= j < rest.len() implies #[trigger] all[j] == rest[j] by {}
        assert forall|i: int| 0 <= i < s.len() && !has_path(excluded, #[trigger] s[i]) implies has_path(
            all,
            s[i],
        ) by {
            if i < less.len() {
                assert(less[i] == s[i]);
                let k = choose|k: int| 0 <= k < rest.len() && equal_paths(s[i], #[trigger] rest[k]);
                assert(equal_paths(s[i], all[k]));
            } else if has_path(rest, last) {
                let k = choose|k: int| 0 <= k < rest.len() && equal_paths(last, #[trigger] rest[k]);
                assert(equal_paths(last, all[k]));
            } else {
                assert(equal_paths(last, all[rest.len() as int]));
            }
        }
        assert forall|j: int| 0 <= j < all.len() implies s.contains(#[trigger] all[j]) && !has_path(
            excluded,
            all[j],
        ) by {
            if j < rest.len() {
                assert(less.contains(rest[j]));
                let k = choose|k: int| 0 <= k < less.len() && less[k] == rest[j];
                assert(s[k] == rest[j]);
            }
        }
        assert forall|i: int, j: int|
        #![trigger all[i], all[j]]
        0 <= i < j < all.len() implies !equal_paths(all[j], all[i]) by {
            assert(all[i] == rest[i]);
            if j < rest.len() {
                assert(all[j] == rest[j]);
            } else {
                assert(!has_path(rest, last));
            }
        }
    }
}

/// What detached revisions alone need is freed, all of it and each file once; what a
/// kept revision needs stays.
pub proof fn law_detached_files_are_freed(repos: Seq<HfRepositoryModel>, i: int, j: int)
    ensures
        ({
            let loose = flatten_map(examined(repos), blobs_of_repository(true));
            let kept = flatten_map(examined(repos), blobs_of_repository(false));
            let freed = freed_blobs(repos);
            &&& 0 <= i < loose.len() && !has_path(kept, loose[i]) ==> has_path(freed, loose[i])
            &&& 0 <= i < freed.len() ==> loose.contains(freed[i]) && !has_path(kept, freed[i])
            &&& 0 <= i < j < freed.len() ==> !equal_paths(freed[j], freed[i])
        }),
{
    let loose = flatten_map(examined(repos), blobs_of_repository(true));
    let kept = flatten_map(examined(repos), blobs_of_repository(false));
    lemma_distinct_outside(loose, kept);
    let freed = freed_blobs(repos);
    if 0 <= i < j < freed.len() {
        assert(!equal_paths(freed[j], freed[i]));
    }
}

/// A repository is reported exactly where its name is one of a repository, it is old
/// enough and it holds what was asked for; it is never selected in bulk.
pub proof fn law_old_repositories_are_reported(
    hub: Seq<char>,
    remove: bool,
    settings: ProviderSettings,
    r: HfRepositoryModel,
)
    ensures
        stale_row(hub, remove, settings)(r) is Some <==> repository_id(r.name) is Some && r.bytes
            >= settings.min_size_bytes && r.age is Some && r.age->0 >= settings.min_age_days,
        stale_row(hub, remove, settings)(r) matches Some(f) ==> f.bytes == r.bytes && f.manual_only && (
        f.native_action is Some <==> remove) && (f.report_only <==> !remove),
{
}

/// Detached revisions are reported exactly where there are any and they hold what was
/// asked for.
pub proof fn law_detached_revisions_are_reported(
    hub: Seq<char>,
    loose: Seq<Seq<char>>,
    labels: Seq<Seq<char>>,
    bytes: u64,
    prune: bool,
    settings: ProviderSettings,
)
    ensures
        detached_rows(hub, loose, labels, bytes, prune, settings).len() == if loose.len() > 0 && bytes
            >= settings.min_size_bytes {
            1int
        } else {
            0
        },
        loose.len() > 0 && bytes >= settings.min_size_bytes ==> {
            let f = detached_rows(hub, loose, labels, bytes, prune, settings)[0];
            &&& f.bytes == bytes
            &&& f.native_action is Some <==> prune
            &&& f.report_only <==> !prune
            &&& f.safety == Safety::Safe
        },
{
}

/// A model is reported exactly where it is old enough and what it alone takes is what
/// was asked for; one that is loaded is protected, and only its own tool removes it.
pub proof fn law_old_models_are_reported(
    m: OllamaModelModel,
    unique: u64,
    shared: u64,
    running: bool,
    remove: bool,
    settings: ProviderSettings,
)
    ensures
        model_finding(m, unique, shared, running, remove, settings) is Some <==> unique
            >= settings.min_size_bytes && m.age is Some && m.age->0 >= settings.min_age_days,
        model_finding(m, unique, shared, running, remove, settings) matches Some(f) ==> {
            &&& f.native_action is Some <==> !running && remove
            &&& running ==> f.bytes == 0 && f.safety == Safety::Protected
            &&& !running ==> f.bytes == unique && f.safety == Safety::Review
            &&& f.size.shared == shared
        },
{
}

proof fn lemma_shares(models: Seq<OllamaModelModel>, sizes: Seq<u64>, i: int, n: nat)
    requires
        n <= sizes.len(),
        n <= models[i].blobs.len(),
    ensures
        share_of(models, sizes, i, false, n) + share_of(models, sizes, i, true, n) == super::sum_of(
            sizes.take(n as int),
        ),
    decreases n,
{
    if n > 0 {
        lemma_shares(models, sizes, i, (n - 1) as nat);
        assert(sizes.take(n as int).drop_last() =~= sizes.take(n - 1));
        assert(sizes.take(n as int).last() == sizes[n - 1]);
    }
}

/// What a model takes alone and what it shares make up all that it takes; a file is
/// shared exactly where another model has it too.
pub proof fn law_shares_make_the_whole(models: Seq<OllamaModelModel>, sizes: Seq<u64>, i: int, blob: Seq<char>)
    requires
        0 <= i < models.len(),
        sizes.len() == models[i].blobs.len(),
    ensures
        bytes_of(models, sizes, i, false) + bytes_of(models, sizes, i, true) == super::sum_of(sizes),
        is_shared(models, i, blob) <==> exists|j: int, k: int|
        #![trigger models[j].blobs[k]]
        0 <= j < models.len() && j != i && 0 <= k < models[j].blobs.len() && equal_paths(
            blob,
            models[j].blobs[k],
        ),
{
    lemma_shares(models, sizes, i, sizes.len());
    assert(sizes.take(sizes.len() as int) =~= sizes);
    if is_shared(models, i, blob) {
        let j = choose|j: int| 0 <= j < models.len() && j != i && has_path((#[trigger] models[j]).blobs, blob);
        let k = choose|k: int| 0 <= k < models[j].blobs.len() && equal_paths(blob, #[trigger] models[j].blobs[k]);
        assert(equal_paths(blob, models[j].blobs[k]));
    }
    if exists|j: int, k: int|
        #![trigger models[j].blobs[k]]
        0 <= j < models.len() && j != i && 0 <= k < models[j].blobs.len() && equal_paths(
            blob,
            models[j].blobs[k],
        ) {
        let (j, k) = choose|j: int, k: int|
        #![trigger models[j].blobs[k]]
        0 <= j < models.len() && j != i && 0 <= k < models[j].blobs.len() && equal_paths(
            blob,
            models[j].blobs[k],
        );
        assert(has_path(models[j].blobs, blob));
    }
}

/// Every model that is to be reported is.
pub proof fn law_every_model_is_reported(
    models: Seq<OllamaModelModel>,
    sizes: Seq<Seq<u64>>,
    running: Seq<Seq<char>>,
    remove: bool,
    settings: ProviderSettings,
    n: nat,
    i: int,
)
    requires
        0 <= i < n <= models.len(),
    ensures
        model_finding(
            models[i],
            bytes_of(models, sizes[i], i, false) as u64,
            bytes_of(models, sizes[i], i, true) as u64,
            running.contains(models[i].name),
            remove,
            settings,
        ) matches Some(f) ==> ollama_rows(models, sizes, running, remove, settings, n).contains(f),
    decreases n,
{
    let all = ollama_rows(models, sizes, running, remove, settings, n);
    let rest = ollama_rows(models, sizes, running, remove, settings, (n - 1) as nat);
    if let Some(f) = model_finding(
        models[i],
        bytes_of(models, sizes[i], i, false) as u64,
        bytes_of(models, sizes[i], i, true) as u64,
        running.contains(models[i].name),
        remove,
        settings,
    ) {
        if i == n - 1 {
            assert(all == rest.push(f));
            assert(all[rest.len() as int] == f);
        } else {
            law_every_model_is_reported(models, sizes, running, remove, settings, (n - 1) as nat, i);
            let k = choose|k: int| 0 <= k < rest.len() && rest[k] == f;
            assert(all[k] == f);
        }
    }
}

/// The three kinds of repositories, and no others.
pub proof fn law_kinds_of_repositories(prefix: Seq<char>)
    ensures
        repository_kind(prefix) is Some <==> prefix == "models"@ || prefix == "datasets"@ || prefix
            == "spaces"@,
        prefix == "models"@ ==> repository_kind(prefix) == Some("model"@),
{
}

/// A model is named by the last three components of its manifest, and its files are
/// those that the manifest lists, each once, below the store.
pub proof fn law_manifests_tell_their_model(
    root: Seq<char>,
    path: Seq<char>,
    age: Option<u64>,
    doc: JsonModel,
    relative: Seq<char>,
)
    requires
        paths::relative_to(path, paths::below(root, "manifests"@)) == Some(relative),
    ensures
        model_of(root, path, age, doc) matches Some(m) && {
            &&& m.manifest == path
            &&& m.age == age
            &&& m.blobs == manifest_blobs(root, doc)
            &&& (paths::parts(relative).len() == 3 ==> m.name == paths::parts(relative)[0] + "/"@ + paths::parts(
                relative,
            )[1] + ":"@ + paths::parts(relative)[2])
            &&& (paths::parts(relative).len() < 3 ==> m.name == text::replaced(relative, '/', ":"@))
        },
{
}

/// A manifest that lies elsewhere, or cannot be read, is no model.
pub proof fn law_models_lie_among_manifests(root: Seq<char>, m: ManifestFileModel)
    ensures
        manifest_model(root)(m) is Some ==> paths::relative_to(m.path, paths::below(root, "manifests"@)) is Some
            && (m.contents matches Some(c) && json_document(c) is Some),
        m.contents is None ==> manifest_model(root)(m) is None,
{
}

proof fn lemma_each_once(s: Seq<Seq<char>>, x: Seq<char>)
    requires
        s.contains(x),
    ensures
        has_path(distinct_outside(s, Seq::empty()), x),
    decreases s.len(),
{
    let rest = distinct_outside(s.drop_last(), Seq::empty());
    let all = distinct_outside(s, Seq::empty());
    let i = choose|i: int| 0 <= i < s.len() && s[i] == x;
    if i < s.len() - 1 {
        assert(s.drop_last()[i] == x);
        lemma_each_once(s.drop_last(), x);
        let j = choose|j: int| 0 <= j < rest.len() && paths::equal_paths(#[trigger] rest[j], x);
        assert(all[j] == rest[j]);
    } else if !has_path(rest, x) {
        assert(all == rest.push(x));
        assert(paths::equal_paths(all[all.len() - 1], x));
    }
}

/// The files of a manifest are the digests of its configuration and of its layers, with
/// dashes for colons, among the blobs of the store.
pub proof fn law_layers_are_files(root: Seq<char>, doc: JsonModel, i: int, digest: Seq<char>)
    ensures
        0 <= i < doc.items_at("layers"@).len() && doc.items_at("layers"@)[i].text_at("digest"@) == Some(digest)
            ==> has_path(
            manifest_blobs(root, doc),
            paths::below(paths::below(root, "blobs"@), text::replaced(digest, ':', "-"@)),
        ),
        doc.get("config"@) matches Some(c) ==> (c.text_at("digest"@) == Some(digest) ==> has_path(
            manifest_blobs(root, doc),
            paths::below(paths::below(root, "blobs"@), text::replaced(digest, ':', "-"@)),
        )),
{
    let x = blob_path(root, digest);
    let l = doc.items_at("layers"@);
    let config = match doc.get("config"@) {
        Some(c) => match c.text_at("digest"@) {
            Some(d) => seq![blob_path(root, d)],
            None => Seq::empty(),
        },
        None => Seq::empty(),
    };
    let layers = collect_some(l, layer_blob(root));
    crate::seqs::law_collected_is_made(l, layer_blob(root), x);
    if 0 <= i < l.len() && l[i].text_at("digest"@) == Some(digest) {
        assert(layer_blob(root)(l[i]) == Some(x));
        let k = choose|k: int| 0 <= k < layers.len() && layers[k] == x;
        assert((config + layers)[config.len() + k] == x);
        lemma_each_once(config + layers, x);
    }
    if let Some(c) = doc.get("config"@) {
        if c.text_at("digest"@) == Some(digest) {
            assert((config + layers)[0] == x);
            lemma_each_once(config + layers, x);
        }
    }
}

/// Running models are the first words of the lines below the heading.
pub proof fn law_running_models_stand_below_the_heading(output: Seq<char>, x: Seq<char>, i: int)
    ensures
        1 <= i < text::lines_of(output).len() && first_word()(text::lines_of(output)[i]) == Some(x)
            ==> running_in(output).contains(x),
        running_in(output).contains(x) ==> exists|j: int|
        1 <= j < text::lines_of(output).len() && first_word()(#[trigger] text::lines_of(output)[j]) == Some(x),
{
    let l = text::lines_of(output);
    if l.len() > 0 {
        crate::seqs::law_collected_is_made(l.skip(1), first_word(), x);
        if 1 <= i < l.len() {
            assert(l.skip(1)[i - 1] == l[i]);
        }
        if running_in(output).contains(x) {
            let k = choose|k: int| 0 <= k < l.skip(1).len() && first_word()(#[trigger] l.skip(1)[k]) == Some(x);
            assert(l[k + 1] == l.skip(1)[k]);
        }
    }
}

/// Revisions are detached only in repositories whose kind is known.
pub proof fn law_detached_revisions_are_of_known_repositories(r: HfRepositoryModel, x: Seq<char>)
    ensures
        repository_id(r.name) is None ==> detached_of(r).len() == 0 && detached_label()(r) is None,
        detached_of(r).contains(x) ==> exists|i: int|
        0 <= i < at_most(r.revisions, REVISION_LIMIT as int).len() && detached_revision(r.refs)(
            #[trigger] at_most(r.revisions, REVISION_LIMIT as int)[i],
        ) == Some(x),
        detached_label()(r) is Some <==> detached_of(r).len() > 0,
{
    crate::seqs::law_collected_is_made(at_most(r.revisions, REVISION_LIMIT as int), detached_revision(r.refs), x);
}

/// An action is carried out by the command of its tool that does just this, to the
/// object that it names.
pub proof fn law_actions_run_their_command(action: Seq<char>, object: Seq<char>, cache: Option<Seq<char>>, p: CommandPolicy, args: Seq<Seq<char>>)
    requires
        action_command(action, object, cache, p, args),
    ensures
        p@.mutating,
        ({
            ||| action == "hf-prune-detached"@ && p@.executables.last()@ == "hf"@ && cache is Some && args == seq!["cache"@, "prune"@, "--cache-dir"@, cache->0, "--yes"@]
            ||| action == "hf-remove-repository"@ && p@.executables.last()@ == "hf"@ && cache is Some && args == seq!["cache"@, "rm"@, object, "--cache-dir"@, cache->0, "--yes"@]
            ||| action == "ollama-remove-model"@ && p@.executables.last()@ == "ollama"@ && args == seq!["rm"@, object]
        }),
{
}

/// An action is carried out exactly where it removes a model, or cleans a cache that the
/// finding tells.
pub proof fn law_known_actions_are_carried_out(finding: FindingModel)
    ensures
        action_error(finding) is None <==> (finding.native_action matches Some(a) && (a.action_id
            == "ollama-remove-model"@ || (evidence_at(finding.evidence, "Cache"@) is Some && (a.action_id
            == "hf-prune-detached"@ || a.action_id == "hf-remove-repository"@)))),
{
}

} // verus!
