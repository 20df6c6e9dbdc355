//! Caches of package managers that their own commands can prune.

use crate::paths;
use crate::report::{Confidence, Finding, FindingModel, FindingSize, SizeAccuracy};
use crate::rules::Safety;
use crate::seqs::{collect_some, group_views, lemma_collect_step, paired, view_of, views};
use crate::taxonomy::{Section, Subgroup};
use crate::text;
use crate::text::same;
use vstd::prelude::*;

use super::command::{Arg, ArgRule, ArgRuleModel, CommandPolicy, PolicyModel, admits, is_policy};
use super::docker::excess;
use super::{
    Capability, Draft, MetadataModel, ProviderExecution, ProviderFinding, ProviderMetadata,
    ProviderSettings, Revalidation, RevalidationModel, ScanCost, available_if, draft,
    is_available_if,
};

verus! {

broadcast use group_views;

pub struct ToolCacheGcProvider;

/// What the provider is.
pub open spec fn tool_cache_gc() -> MetadataModel {
    MetadataModel {
        id: "tool-cache-gc"@,
        name: "Package-manager cache pruning"@,
        section: Section::Developer,
        subgroup: Subgroup::Packages,
        cost: ScanCost::Fast,
        quick: true,
        deep: true,
        network_in_deep_scan: false,
        supersedes_rules: seq!["uv-cache"@, "pnpm-store"@, "pip-cache"@, "cocoapods-cache"@, "go-build-cache"@, "go-module-cache"@, "nuget-cache"@],
    }
}

fn metadata() -> (r: ProviderMetadata)
    ensures
        r@ == tool_cache_gc(),
{
    let r = ProviderMetadata {
        id: "tool-cache-gc",
        name: "Package-manager cache pruning",
        section: Section::Developer,
        subgroup: Subgroup::Packages,
        cost: ScanCost::Fast,
        quick: true,
        deep: true,
        network_in_deep_scan: false,
        supersedes_rules: &["uv-cache", "pnpm-store", "pip-cache", "cocoapods-cache", "go-build-cache", "go-module-cache", "nuget-cache"],
    };
    assert(r@.supersedes_rules =~= tool_cache_gc().supersedes_rules);
    r
}

impl ToolCacheGcProvider {
    pub fn metadata(&self) -> (r: ProviderMetadata)
        ensures
            r@ == tool_cache_gc(),
    {
        metadata()
    }
}

// ---- commands ----

pub open spec fn uv_executables() -> Seq<&'static str> {
    seq!["uv"]
}

pub open spec fn pnpm_executables() -> Seq<&'static str> {
    seq!["pnpm"]
}

pub open spec fn pip_executables() -> Seq<&'static str> {
    seq!["pip"]
}

pub open spec fn pod_executables() -> Seq<&'static str> {
    seq!["pod"]
}

pub open spec fn go_executables() -> Seq<&'static str> {
    seq!["go"]
}

pub open spec fn dotnet_executables() -> Seq<&'static str> {
    seq!["dotnet"]
}

/// The command `uv cache prune`.
pub fn uv_prune() -> (r: CommandPolicy)
    ensures
        is_policy(
            r,
            "uv-cache-prune"@,
            uv_executables(),
            true,
            false,
            seq![Arg::Is("cache"), Arg::Is("prune")],
        ),
{
    let r = CommandPolicy {
        id: "uv-cache-prune",
        executables: &["uv"],
        mutating: true,
        network: false,
        args: ArgRule::Form(&[Arg::Is("cache"), Arg::Is("prune")]),
    };
    assert(r.executables@ =~= uv_executables());
    r
}

/// The command `pnpm store prune`.
pub fn pnpm_prune() -> (r: CommandPolicy)
    ensures
        is_policy(
            r,
            "pnpm-store-prune"@,
            pnpm_executables(),
            true,
            false,
            seq![Arg::Is("store"), Arg::Is("prune")],
        ),
{
    let r = CommandPolicy {
        id: "pnpm-store-prune",
        executables: &["pnpm"],
        mutating: true,
        network: false,
        args: ArgRule::Form(&[Arg::Is("store"), Arg::Is("prune")]),
    };
    assert(r.executables@ =~= pnpm_executables());
    r
}

/// The command `pip cache purge`.
pub fn pip_purge() -> (r: CommandPolicy)
    ensures
        is_policy(
            r,
            "pip-cache-purge"@,
            pip_executables(),
            true,
            false,
            seq![Arg::Is("cache"), Arg::Is("purge")],
        ),
{
    let r = CommandPolicy {
        id: "pip-cache-purge",
        executables: &["pip"],
        mutating: true,
        network: false,
        args: ArgRule::Form(&[Arg::Is("cache"), Arg::Is("purge")]),
    };
    assert(r.executables@ =~= pip_executables());
    r
}

/// The command `pod cache clean --all`.
pub fn pod_clean() -> (r: CommandPolicy)
    ensures
        is_policy(
            r,
            "pod-cache-clean"@,
            pod_executables(),
            true,
            false,
            seq![Arg::Is("cache"), Arg::Is("clean"), Arg::Is("--all")],
        ),
{
    let r = CommandPolicy {
        id: "pod-cache-clean",
        executables: &["pod"],
        mutating: true,
        network: false,
        args: ArgRule::Form(&[Arg::Is("cache"), Arg::Is("clean"), Arg::Is("--all")]),
    };
    assert(r.executables@ =~= pod_executables());
    r
}

/// The command `go clean -cache -testcache`.
pub fn go_build_clean() -> (r: CommandPolicy)
    ensures
        is_policy(
            r,
            "go-build-cache-clean"@,
            go_executables(),
            true,
            false,
            seq![Arg::Is("clean"), Arg::Is("-cache"), Arg::Is("-testcache")],
        ),
{
    let r = CommandPolicy {
        id: "go-build-cache-clean",
        executables: &["go"],
        mutating: true,
        network: false,
        args: ArgRule::Form(&[Arg::Is("clean"), Arg::Is("-cache"), Arg::Is("-testcache")]),
    };
    assert(r.executables@ =~= go_executables());
    r
}

/// The command `go clean -modcache`.
pub fn go_module_clean() -> (r: CommandPolicy)
    ensures
        is_policy(
            r,
            "go-module-cache-clean"@,
            go_executables(),
            true,
            false,
            seq![Arg::Is("clean"), Arg::Is("-modcache")],
        ),
{
    let r = CommandPolicy {
        id: "go-module-cache-clean",
        executables: &["go"],
        mutating: true,
        network: false,
        args: ArgRule::Form(&[Arg::Is("clean"), Arg::Is("-modcache")]),
    };
    assert(r.executables@ =~= go_executables());
    r
}

/// The command `dotnet nuget locals all --clear`.
pub fn nuget_clean() -> (r: CommandPolicy)
    ensures
        is_policy(
            r,
            "nuget-cache-clean"@,
            dotnet_executables(),
            true,
            false,
            seq![Arg::Is("nuget"), Arg::Is("locals"), Arg::Is("all"), Arg::Is("--clear")],
        ),
{
    let r = CommandPolicy {
        id: "nuget-cache-clean",
        executables: &["dotnet"],
        mutating: true,
        network: false,
        args: ArgRule::Form(&[Arg::Is("nuget"), Arg::Is("locals"), Arg::Is("all"), Arg::Is("--clear")]),
    };
    assert(r.executables@ =~= dotnet_executables());
    r
}

/// Whether one of the package managers is installed.
pub fn probe(installed: bool) -> (r: Capability)
    ensures
        is_available_if(r, installed, "No supported native cache manager is installed."@),
{
    available_if(installed, "No supported native cache manager is installed.")
}

// ---- the caches ----

/// A cache and the command that prunes it.
pub struct CacheDefinition {
    pub rule_id: &'static str,
    pub object_id: &'static str,
    pub label: &'static str,
    pub safety: Safety,
    pub paths: Vec<String>,
    pub policy: CommandPolicy,
    pub args: Vec<String>,
    /// The command removes only what nothing refers to.
    pub prune_only: bool,
    /// What a running command holds while the cache is in use.
    pub process_markers: Vec<String>,
}

#[verifier::ext_equal]
pub struct CacheDefinitionModel {
    pub rule_id: Seq<char>,
    pub object_id: Seq<char>,
    pub label: Seq<char>,
    pub safety: Safety,
    pub paths: Seq<Seq<char>>,
    pub policy: PolicyModel,
    pub args: Seq<Seq<char>>,
    pub prune_only: bool,
    pub process_markers: Seq<Seq<char>>,
}

impl View for CacheDefinition {
    type V = CacheDefinitionModel;

    open spec fn view(&self) -> CacheDefinitionModel {
        CacheDefinitionModel {
            rule_id: self.rule_id@,
            object_id: self.object_id@,
            label: self.label@,
            safety: self.safety,
            paths: views(self.paths@),
            policy: self.policy@,
            args: views(self.args@),
            prune_only: self.prune_only,
            process_markers: views(self.process_markers@),
        }
    }
}

pub open spec fn uv_cache_model(home: Seq<char>) -> CacheDefinitionModel {
    CacheDefinitionModel {
        rule_id: "uv-native-prune"@,
        object_id: "uv-cache"@,
        label: "uv unreachable cache objects"@,
        safety: Safety::Safe,
        paths: seq![paths::below(home, ".cache/uv"@)],
        policy: PolicyModel {
            id: "uv-cache-prune"@,
            executables: uv_executables(),
            mutating: true,
            network: false,
            args: ArgRuleModel::Form(seq![Arg::Is("cache"), Arg::Is("prune")]),
        },
        args: seq!["cache"@, "prune"@],
        prune_only: true,
        process_markers: seq!["uv "@, "/.cache/uv/"@],
    }
}

fn uv_cache(home: &str) -> (r: CacheDefinition)
    ensures
        r@ == uv_cache_model(home@),
{
    CacheDefinition {
        rule_id: "uv-native-prune",
        object_id: "uv-cache",
        label: "uv unreachable cache objects",
        safety: Safety::Safe,
        paths: text::texts1(paths::join(home, ".cache/uv").as_str()),
        policy: uv_prune(),
        args: text::texts2("cache", "prune"),
        prune_only: true,
        process_markers: text::texts2("uv ", "/.cache/uv/"),
    }
}

pub open spec fn pnpm_store_model(home: Seq<char>) -> CacheDefinitionModel {
    CacheDefinitionModel {
        rule_id: "pnpm-native-prune"@,
        object_id: "pnpm-store"@,
        label: "pnpm unreferenced store packages"@,
        safety: Safety::Safe,
        paths: seq![paths::below(home, "Library/pnpm/store"@), paths::below(home, ".local/share/pnpm/store"@)],
        policy: PolicyModel {
            id: "pnpm-store-prune"@,
            executables: pnpm_executables(),
            mutating: true,
            network: false,
            args: ArgRuleModel::Form(seq![Arg::Is("store"), Arg::Is("prune")]),
        },
        args: seq!["store"@, "prune"@],
        prune_only: true,
        process_markers: seq!["pnpm "@],
    }
}

fn pnpm_store(home: &str) -> (r: CacheDefinition)
    ensures
        r@ == pnpm_store_model(home@),
{
    CacheDefinition {
        rule_id: "pnpm-native-prune",
        object_id: "pnpm-store",
        label: "pnpm unreferenced store packages",
        safety: Safety::Safe,
        paths: text::texts2(paths::join(home, "Library/pnpm/store").as_str(), paths::join(home, ".local/share/pnpm/store").as_str()),
        policy: pnpm_prune(),
        args: text::texts2("store", "prune"),
        prune_only: true,
        process_markers: text::texts1("pnpm "),
    }
}

pub open spec fn pip_cache_model(home: Seq<char>) -> CacheDefinitionModel {
    CacheDefinitionModel {
        rule_id: "pip-native-purge"@,
        object_id: "pip-cache"@,
        label: "pip download and wheel cache"@,
        safety: Safety::Safe,
        paths: seq![paths::below(home, ".cache/pip"@), paths::below(home, "Library/Caches/pip"@)],
        policy: PolicyModel {
            id: "pip-cache-purge"@,
            executables: pip_executables(),
            mutating: true,
            network: false,
            args: ArgRuleModel::Form(seq![Arg::Is("cache"), Arg::Is("purge")]),
        },
        args: seq!["cache"@, "purge"@],
        prune_only: false,
        process_markers: seq!["pip install"@, "pip download"@],
    }
}

fn pip_cache(home: &str) -> (r: CacheDefinition)
    ensures
        r@ == pip_cache_model(home@),
{
    CacheDefinition {
        rule_id: "pip-native-purge",
        object_id: "pip-cache",
        label: "pip download and wheel cache",
        safety: Safety::Safe,
        paths: text::texts2(paths::join(home, ".cache/pip").as_str(), paths::join(home, "Library/Caches/pip").as_str()),
        policy: pip_purge(),
        args: text::texts2("cache", "purge"),
        prune_only: false,
        process_markers: text::texts2("pip install", "pip download"),
    }
}

pub open spec fn cocoapods_cache_model(home: Seq<char>) -> CacheDefinitionModel {
    CacheDefinitionModel {
        rule_id: "cocoapods-native-clean"@,
        object_id: "cocoapods-cache"@,
        label: "CocoaPods download cache"@,
        safety: Safety::Review,
        paths: seq![paths::below(home, "Library/Caches/CocoaPods"@)],
        policy: PolicyModel {
            id: "pod-cache-clean"@,
            executables: pod_executables(),
            mutating: true,
            network: false,
            args: ArgRuleModel::Form(seq![Arg::Is("cache"), Arg::Is("clean"), Arg::Is("--all")]),
        },
        args: seq!["cache"@, "clean"@, "--all"@],
        prune_only: false,
        process_markers: seq!["pod install"@, "pod update"@],
    }
}

fn cocoapods_cache(home: &str) -> (r: CacheDefinition)
    ensures
        r@ == cocoapods_cache_model(home@),
{
    CacheDefinition {
        rule_id: "cocoapods-native-clean",
        object_id: "cocoapods-cache",
        label: "CocoaPods download cache",
        safety: Safety::Review,
        paths: text::texts1(paths::join(home, "Library/Caches/CocoaPods").as_str()),
        policy: pod_clean(),
        args: text::texts3("cache", "clean", "--all"),
        prune_only: false,
        process_markers: text::texts2("pod install", "pod update"),
    }
}

pub open spec fn go_build_cache_model(home: Seq<char>) -> CacheDefinitionModel {
    CacheDefinitionModel {
        rule_id: "go-native-build-clean"@,
        object_id: "go-build-cache"@,
        label: "Go build and test cache"@,
        safety: Safety::Safe,
        paths: seq![paths::below(home, "Library/Caches/go-build"@)],
        policy: PolicyModel {
            id: "go-build-cache-clean"@,
            executables: go_executables(),
            mutating: true,
            network: false,
            args: ArgRuleModel::Form(seq![Arg::Is("clean"), Arg::Is("-cache"), Arg::Is("-testcache")]),
        },
        args: seq!["clean"@, "-cache"@, "-testcache"@],
        prune_only: false,
        process_markers: seq!["go build"@, "go test"@],
    }
}

fn go_build_cache(home: &str) -> (r: CacheDefinition)
    ensures
        r@ == go_build_cache_model(home@),
{
    CacheDefinition {
        rule_id: "go-native-build-clean",
        object_id: "go-build-cache",
        label: "Go build and test cache",
        safety: Safety::Safe,
        paths: text::texts1(paths::join(home, "Library/Caches/go-build").as_str()),
        policy: go_build_clean(),
        args: text::texts3("clean", "-cache", "-testcache"),
        prune_only: false,
        process_markers: text::texts2("go build", "go test"),
    }
}

pub open spec fn go_module_cache_model(home: Seq<char>) -> CacheDefinitionModel {
    CacheDefinitionModel {
        rule_id: "go-native-module-clean"@,
        object_id: "go-module-cache"@,
        label: "Go module download cache"@,
        safety: Safety::Review,
        paths: seq![paths::below(home, "go/pkg/mod"@)],
        policy: PolicyModel {
            id: "go-module-cache-clean"@,
            executables: go_executables(),
            mutating: true,
            network: false,
            args: ArgRuleModel::Form(seq![Arg::Is("clean"), Arg::Is("-modcache")]),
        },
        args: seq!["clean"@, "-modcache"@],
        prune_only: false,
        process_markers: seq!["go build"@, "go test"@, "go mod"@],
    }
}

fn go_module_cache(home: &str) -> (r: CacheDefinition)
    ensures
        r@ == go_module_cache_model(home@),
{
    CacheDefinition {
        rule_id: "go-native-module-clean",
        object_id: "go-module-cache",
        label: "Go module download cache",
        safety: Safety::Review,
        paths: text::texts1(paths::join(home, "go/pkg/mod").as_str()),
        policy: go_module_clean(),
        args: text::texts2("clean", "-modcache"),
        prune_only: false,
        process_markers: text::texts3("go build", "go test", "go mod"),
    }
}

pub open spec fn nuget_cache_model(home: Seq<char>) -> CacheDefinitionModel {
    CacheDefinitionModel {
        rule_id: "nuget-native-clean"@,
        object_id: "nuget-cache"@,
        label: "NuGet global packages and HTTP caches"@,
        safety: Safety::Review,
        paths: seq![paths::below(home, ".nuget/packages"@), paths::below(home, "Library/Caches/NuGet"@)],
        policy: PolicyModel {
            id: "nuget-cache-clean"@,
            executables: dotnet_executables(),
            mutating: true,
            network: false,
            args: ArgRuleModel::Form(seq![Arg::Is("nuget"), Arg::Is("locals"), Arg::Is("all"), Arg::Is("--clear")]),
        },
        args: seq!["nuget"@, "locals"@, "all"@, "--clear"@],
        prune_only: false,
        process_markers: seq!["dotnet "@, "msbuild"@],
    }
}

fn nuget_cache(home: &str) -> (r: CacheDefinition)
    ensures
        r@ == nuget_cache_model(home@),
{
    CacheDefinition {
        rule_id: "nuget-native-clean",
        object_id: "nuget-cache",
        label: "NuGet global packages and HTTP caches",
        safety: Safety::Review,
        paths: text::texts2(paths::join(home, ".nuget/packages").as_str(), paths::join(home, "Library/Caches/NuGet").as_str()),
        policy: nuget_clean(),
        args: text::texts4("nuget", "locals", "all", "--clear"),
        prune_only: false,
        process_markers: text::texts2("dotnet ", "msbuild"),
    }
}

/// The caches below a home directory.
pub open spec fn caches(home: Seq<char>) -> Seq<CacheDefinitionModel> {
    seq![
        uv_cache_model(home),
        pnpm_store_model(home),
        pip_cache_model(home),
        cocoapods_cache_model(home),
        go_build_cache_model(home),
        go_module_cache_model(home),
        nuget_cache_model(home),
    ]
}

/// The caches that are known; none without a home directory.
pub fn definitions(home: Option<&str>) -> (r: Vec<CacheDefinition>)
    ensures
        views(r@) == match home {
            Some(h) => caches(h@),
            None => Seq::empty(),
        },
{
    match home {
        Some(h) => {
            let r = vec![
                uv_cache(h),
                pnpm_store(h),
                pip_cache(h),
                cocoapods_cache(h),
                go_build_cache(h),
                go_module_cache(h),
                nuget_cache(h),
            ];
            assert(views(r@) =~= caches(h@));
            r
        },
        None => Vec::new(),
    }
}

/// What is known of a cache.
pub struct CacheFacts {
    /// Whether its manager is installed.
    pub installed: bool,
    /// Those of its paths that exist.
    pub existing: Vec<String>,
    /// What they take together.
    pub bytes: u64,
}

#[verifier::ext_equal]
pub struct CacheFactsModel {
    pub installed: bool,
    pub existing: Seq<Seq<char>>,
    pub bytes: u64,
}

impl View for CacheFacts {
    type V = CacheFactsModel;

    open spec fn view(&self) -> CacheFactsModel {
        CacheFactsModel {
            installed: self.installed,
            existing: views(self.existing@),
            bytes: self.bytes,
        }
    }
}

/// Whether one of some commands holds one of some markers.
pub open spec fn any_marked(markers: Seq<Seq<char>>, commands: Seq<Seq<char>>) -> bool {
    exists|i: int, j: int|
    0 <= i < markers.len() && 0 <= j < commands.len() && text::occurs(
        #[trigger] commands[j],
        #[trigger] markers[i],
    )
}

fn marked(markers: &Vec<String>, commands: &Vec<String>) -> (r: bool)
    ensures
        r == any_marked(views(markers@), views(commands@)),
{
    let ghost ms = views(markers@);
    let ghost cs = views(commands@);
    let mut i: usize = 0;
    while i < markers.len()
        invariant
            i <= markers@.len(),
            ms == views(markers@),
            cs == views(commands@),
            forall|a: int, b: int|
            0 <= a < i && 0 <= b < cs.len() ==> !text::occurs(#[trigger] cs[b], #[trigger] ms[a]),
        decreases markers@.len() - i,
    {
        assert(ms[i as int] == markers@[i as int]@);
        let mut j: usize = 0;
        while j < commands.len()
            invariant
                i < markers@.len(),
                j <= commands@.len(),
                ms == views(markers@),
                cs == views(commands@),
                ms[i as int] == markers@[i as int]@,
                forall|b: int| 0 <= b < j ==> !text::occurs(#[trigger] cs[b], ms[i as int]),
            decreases commands@.len() - j,
        {
            assert(cs[j as int] == commands@[j as int]@);
            if text::contains(commands[j].as_str(), markers[i].as_str()) {
                return true;
            }
            j += 1;
        }
        i += 1;
    }
    false
}

/// The name of the tool that a policy runs.
pub open spec fn tool_of(p: PolicyModel) -> Seq<char> {
    if p.executables.len() > 0 {
        p.executables[0]@
    } else {
        "tool"@
    }
}

/// What is said of a cache before its size and state are.
pub open spec fn cache_draft(d: CacheDefinitionModel, facts: CacheFactsModel) -> Draft {
    draft(
        tool_cache_gc(),
        d.rule_id,
        "package-manager-cache"@,
        d.object_id,
        d.label,
        d.safety,
        facts.bytes,
    )
        .grouped_paths(facts.existing)
        .confidence(
        if d.prune_only {
            Confidence::High
        } else {
            Confidence::Exact
        },
    )
        .reason(
        if d.prune_only {
            "The owning tool can prune objects it considers unreachable; displayed bytes are the store size before pruning."@
        } else {
            "The owning tool exposes an explicit command to clear this cache."@
        },
    )
        .copy(
        "A package-manager cache managed by the named tool."@,
        "Packages or build artifacts are downloaded or rebuilt when needed again."@,
        "Use the native command so the tool preserves its own metadata and shared-store invariants."@,
    )
        .action(d.policy.id, seq![tool_of(d.policy)] + d.args, true, d.safety != Safety::Safe)
}

/// Of a cache that is only pruned nothing is promised: how much goes is known
/// to its manager alone.
pub open spec fn sized_draft(d: CacheDefinitionModel, facts: CacheFactsModel) -> Draft {
    if d.prune_only {
        cache_draft(d, facts).size(
            FindingSize {
                logical: facts.bytes,
                physical: facts.bytes,
                unique: 0,
                shared: 0,
                reclaimable: 0,
                accuracy: SizeAccuracy::Unknown,
            },
        )
    } else {
        cache_draft(d, facts)
    }
}

/// The finding for a cache whose manager is installed, and that is there and
/// large enough.
pub open spec fn cache_row(commands: Seq<Seq<char>>, settings: ProviderSettings) -> spec_fn(
    (CacheDefinitionModel, CacheFactsModel),
) -> Option<FindingModel> {
    |x: (CacheDefinitionModel, CacheFactsModel)|
    {
        let (d, facts) = x;
        if !facts.installed || facts.existing.len() == 0 || facts.bytes < settings.min_size_bytes {
            None
        } else if any_marked(d.process_markers, commands) {
            Some(sized_draft(d, facts).in_use().build())
        } else if d.safety == Safety::Safe {
            Some(sized_draft(d, facts).build())
        } else {
            Some(sized_draft(d, facts).manual().build())
        }
    }
}

fn cache_finding(
    d: &CacheDefinition,
    facts: &CacheFacts,
    commands: &Vec<String>,
    settings: &ProviderSettings,
) -> (r: Option<Finding>)
    ensures
        view_of(r) == cache_row(views(commands@), *settings)((d@, facts@)),
{
    if !facts.installed || facts.existing.len() == 0 || facts.bytes < settings.min_size_bytes {
        return None;
    }
    let in_use = marked(&d.process_markers, commands);
    let safe = match d.safety {
        Safety::Safe => true,
        _ => false,
    };
    let tool: &str = if d.policy.executables.len() > 0 {
        d.policy.executables[0]
    } else {
        "tool"
    };
    let mut preview = text::texts1(tool);
    let mut more = text::copy_texts(&d.args);
    preview.append(&mut more);
    let builder = ProviderFinding::object(
        metadata(),
        d.rule_id,
        "package-manager-cache",
        d.object_id,
        d.label,
        d.safety,
        facts.bytes,
    )
        .grouped_paths(text::copy_texts(&facts.existing))
        .confidence(
        if d.prune_only {
            Confidence::High
        } else {
            Confidence::Exact
        },
    )
        .reason(
        if d.prune_only {
            "The owning tool can prune objects it considers unreachable; displayed bytes are the store size before pruning."
        } else {
            "The owning tool exposes an explicit command to clear this cache."
        },
    )
        .copy(
        "A package-manager cache managed by the named tool.",
        "Packages or build artifacts are downloaded or rebuilt when needed again.",
        "Use the native command so the tool preserves its own metadata and shared-store invariants.",
    )
        .action(d.policy.id, preview, true, !safe);
    let sized = if d.prune_only {
        builder.size(
            FindingSize {
                logical: facts.bytes,
                physical: facts.bytes,
                unique: 0,
                shared: 0,
                reclaimable: 0,
                accuracy: SizeAccuracy::Unknown,
            },
        )
    } else {
        builder
    };
    Some(
        if in_use {
            sized.in_use().build()
        } else if safe {
            sized.build()
        } else {
            sized.manual().build()
        },
    )
}

/// The findings for caches; `facts` holds what is known of each.
pub fn scan_findings(caches: &Vec<CacheDefinition>, facts: &Vec<CacheFacts>, commands: &Vec<String>, settings: &ProviderSettings) -> (r: Vec<Finding>)
    ensures
        views(r@) == collect_some(paired(views(caches@), views(facts@)), cache_row(views(commands@), *settings)),
{
    let ghost f = cache_row(views(commands@), *settings);
    let ghost pairs = paired(views(caches@), views(facts@));
    let mut out: Vec<Finding> = Vec::new();

    let n: usize = caches.len();
    let limit: usize = if n < facts.len() {
        n
    } else {
        facts.len()
    };
    let mut i: usize = 0;
    while i < limit
        invariant
            i <= limit,
            limit <= facts@.len(),
            limit == pairs.len(),
            limit <= caches@.len(),
            pairs == paired(views(caches@), views(facts@)),
            f == cache_row(views(commands@), *settings),
            views(out@) == collect_some(pairs.take(i as int), f),
        decreases limit - i,
    {
        proof {
            lemma_collect_step(pairs, i as int, f);
        }
        assert(pairs[i as int] == (caches@[i as int]@, facts@[i as int]@));
        if let Some(x) = cache_finding(&caches[i], &facts[i], commands, settings) {
            out.push(x);
        }
        i += 1;
    }
    assert(pairs.take(i as int) =~= pairs);
    out
}

// ---- actions ----

/// Whether a fresh scan finds the cache again, and not in use.
pub open spec fn still_idle(found: Seq<Finding>, stable_id: Seq<char>) -> bool {
    exists|i: int|
    0 <= i < found.len() && (#[trigger] found[i]).stable_id@ == stable_id && !found[i].in_use
}

/// The finding stands where a fresh scan finds the cache again, and not in use.
pub fn revalidate(refreshed: &Vec<Finding>, finding: &Finding) -> (r: Revalidation)
    ensures
        r@ == if still_idle(refreshed@, finding.stable_id@) {
            RevalidationModel::Valid
        } else {
            RevalidationModel::Changed("The cache changed, disappeared, or is now in use."@)
        },
{
    let mut i: usize = 0;
    while i < refreshed.len()
        invariant
            i <= refreshed@.len(),
            forall|j: int|
            0 <= j < i ==> !((#[trigger] refreshed@[j]).stable_id@ == finding.stable_id@
                    && !refreshed@[j].in_use),
        decreases refreshed@.len() - i,
    {
        if same(refreshed[i].stable_id.as_str(), finding.stable_id.as_str()) && !refreshed[i].in_use {
            return Revalidation::Valid;
        }
        i += 1;
    }
    Revalidation::Changed("The cache changed, disappeared, or is now in use.".to_owned())
}

/// Whether a cache is the one that an action prunes, and the first such.
pub open spec fn is_chosen(caches: Seq<CacheDefinitionModel>, i: int, action: Seq<char>) -> bool {
    &&& 0 <= i < caches.len()
    &&& caches[i].policy.id == action
    &&& forall|j: int| 0 <= j < i ==> (#[trigger] caches[j]).policy.id != action
}

/// The position of the cache that the action of a finding prunes.
pub fn plan_action(finding: &Finding, caches: &Vec<CacheDefinition>) -> (r: Result<usize, String>)
    ensures
        match finding.native_action {
            None => r matches Err(e) && e@ == "native cache action missing"@,
            Some(a) => match r {
                Ok(i) => is_chosen(views(caches@), i as int, a.action_id@),
                Err(e) => e@ == "native cache definition missing"@ && forall|j: int|
                0 <= j < caches@.len() ==> (#[trigger] views(caches@)[j]).policy.id
                != a.action_id@,
            },
        },
{
    let a = match &finding.native_action {
        Some(a) => a,
        None => {
            return Err("native cache action missing".to_owned());
        },
    };
    let ghost all = views(caches@);
    let mut i: usize = 0;
    while i < caches.len()
        invariant
            i <= caches@.len(),
            all == views(caches@),
            finding.native_action == Some(*a),
            forall|j: int| 0 <= j < i ==> (#[trigger] all[j]).policy.id != a.action_id@,
        decreases caches@.len() - i,
    {
        assert(all[i as int] == caches@[i as int]@);
        if same(caches[i].policy.id, a.action_id.as_str()) {
            return Ok(i);
        }
        i += 1;
    }
    Err("native cache definition missing".to_owned())
}

/// What is reported once a cache that took `before` bytes takes `after`.
pub fn executed(cache: &CacheDefinition, before: u64, after: u64) -> (r: ProviderExecution)
    ensures
        r.deleted == 1,
        r.freed_bytes == excess(before, after),
        r.message@ == cache@.label + " completed."@,
{
    ProviderExecution {
        deleted: 1,
        freed_bytes: before.saturating_sub(after),
        message: cache.label.to_owned().concat(" completed."),
    }
}

// ---- laws ----

/// A cache in use is never for bulk selection, and one that is only pruned
/// promises nothing.
pub proof fn law_caches_in_use_are_manual(
    commands: Seq<Seq<char>>,
    settings: ProviderSettings,
    d: CacheDefinitionModel,
    facts: CacheFactsModel,
)
    ensures
        match cache_row(commands, settings)((d, facts)) {
            Some(f) => (any_marked(d.process_markers, commands) ==> f.in_use && f.manual_only) && (
                d.prune_only ==> f.bytes == 0),
            None => true,
        },
{
}

/// No two caches share a command, so an action names one cache.
pub proof fn law_caches_are_told_apart(home: Seq<char>, i: int, j: int)
    requires
        0 <= i < j < caches(home).len(),
    ensures
        caches(home)[i].policy.id != caches(home)[j].policy.id,
{
    reveal_strlit("uv-cache-prune");
    reveal_strlit("pnpm-store-prune");
    reveal_strlit("pip-cache-purge");
    reveal_strlit("pod-cache-clean");
    reveal_strlit("go-build-cache-clean");
    reveal_strlit("go-module-cache-clean");
    reveal_strlit("nuget-cache-clean");
    assert("uv-cache-prune"@.len() == 14);
    assert("uv-cache-prune"@[1] == 'v');
    assert("pnpm-store-prune"@.len() == 16);
    assert("pnpm-store-prune"@[1] == 'n');
    assert("pip-cache-purge"@.len() == 15);
    assert("pip-cache-purge"@[1] == 'i');
    assert("pod-cache-clean"@.len() == 15);
    assert("pod-cache-clean"@[1] == 'o');
    assert("go-build-cache-clean"@.len() == 20);
    assert("go-build-cache-clean"@[1] == 'o');
    assert("go-module-cache-clean"@.len() == 21);
    assert("go-module-cache-clean"@[1] == 'o');
    assert("nuget-cache-clean"@.len() == 17);
    assert("nuget-cache-clean"@[1] == 'u');
}

/// The command of every cache is one that its own policy accepts, and changes things.
pub proof fn law_planned_commands_are_admitted(home: Seq<char>, i: int)
    requires
        0 <= i < caches(home).len(),
    ensures
        admits(caches(home)[i].policy.args, caches(home)[i].args),
        caches(home)[i].policy.mutating,
{
}

/// A cache is reported exactly where its manager is installed, any of its paths is
/// there and they hold what was asked for; it can be selected in bulk exactly where it
/// is safe and nothing that uses it runs.
pub proof fn law_caches_are_reported(
    commands: Seq<Seq<char>>,
    settings: ProviderSettings,
    d: CacheDefinitionModel,
    facts: CacheFactsModel,
)
    ensures
        cache_row(commands, settings)((d, facts)) is Some <==> facts.installed && facts.existing.len() > 0
            && facts.bytes >= settings.min_size_bytes,
        cache_row(commands, settings)((d, facts)) matches Some(f) ==> {
            let used = exists|i: int, j: int|
            0 <= i < d.process_markers.len() && 0 <= j < commands.len() && text::occurs(
                #[trigger] commands[j],
                #[trigger] d.process_markers[i],
            );
            &&& f.in_use <==> used
            &&& f.manual_only <==> used || d.safety != Safety::Safe
            &&& f.bytes == if d.prune_only {
                0
            } else {
                facts.bytes
            }
            &&& f.safety == d.safety
            &&& f.native_action is Some && f.native_action->0.action_id == d.policy.id
            &&& super::target_paths(f.target) == facts.existing
        },
{
}

/// An action cleans the first cache that it names, and only while a scan still finds
/// the cache and nothing uses it.
pub proof fn law_first_cache_is_chosen(caches: Seq<CacheDefinitionModel>, i: int, j: int, action: Seq<char>)
    requires
        is_chosen(caches, i, action),
    ensures
        caches[i].policy.id == action,
        0 <= j < caches.len() && caches[j].policy.id == action ==> i <= j,
{
}

/// A cache is still idle exactly where it is found again, not in use.
pub proof fn law_idle_caches_are_found_again(found: Seq<Finding>, id: Seq<char>, i: int)
    ensures
        0 <= i < found.len() && found[i].stable_id@ == id && !found[i].in_use ==> still_idle(found, id),
        (forall|j: int| 0 <= j < found.len() ==> (#[trigger] found[j]).stable_id@ != id || found[j].in_use)
            ==> !still_idle(found, id),
{
}

} // verus!
