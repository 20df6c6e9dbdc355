//! Storage of Xcode, its simulators and the Swift package manager.

use crate::json::{
    Json, JsonModel, entry_models, item_models, json_document, parse_json, parse_plist,
    plist_document,
};
use crate::paths;
use crate::paths::{equal_paths, name_of, under};
use crate::report::{Confidence, Finding, FindingModel, FindingSize, SizeAccuracy};
use crate::rules::Safety;
use crate::seqs::{
    at_most, collect_some, flatten_map, group_views, lemma_collect_step,
    lemma_flatten_step, lemma_views_concat, paired, view_of, views,
};
use crate::sorting;
use crate::taxonomy::{Section, Subgroup};
use crate::text;
use crate::text::{digits, same};
use vstd::prelude::*;

use super::command::{Arg, ArgRule, CommandPolicy, admits, is_policy, is_token};
use super::docker::is_hex;
use super::{
    Capability, Draft, MetadataModel, ProviderExecution, ProviderFinding, ProviderMetadata,
    ProviderSettings, Revalidation, RevalidationModel, ScanCost, age_from_iso8601, aged, completed, draft,
    is_aged, iso_age, revalidate_against, revalidated,
};

verus! {

broadcast use group_views;

pub struct XcodeProvider;

/// What the provider is.
pub open spec fn xcode() -> MetadataModel {
    MetadataModel {
        id: "xcode-simulators"@,
        name: "Xcode Simulators"@,
        section: Section::Developer,
        subgroup: Subgroup::AppleMobile,
        cost: ScanCost::Fast,
        quick: true,
        deep: true,
        network_in_deep_scan: false,
        supersedes_rules: seq!["coresimulator-caches"@, "xcode-derived-data"@, "xcode-archives"@, "xcode-device-support"@, "swiftpm-cache"@],
    }
}

fn metadata() -> (r: ProviderMetadata)
    ensures
        r@ == xcode(),
{
    let r = ProviderMetadata {
        id: "xcode-simulators",
        name: "Xcode Simulators",
        section: Section::Developer,
        subgroup: Subgroup::AppleMobile,
        cost: ScanCost::Fast,
        quick: true,
        deep: true,
        network_in_deep_scan: false,
        supersedes_rules: &["coresimulator-caches", "xcode-derived-data", "xcode-archives", "xcode-device-support", "swiftpm-cache"],
    };
    assert(r@.supersedes_rules =~= xcode().supersedes_rules);
    r
}

impl XcodeProvider {
    pub fn metadata(&self) -> (r: ProviderMetadata)
        ensures
            r@ == xcode(),
    {
        metadata()
    }
}

// ---- commands ----

pub open spec fn xcrun_executables() -> Seq<&'static str> {
    seq!["/usr/bin/xcrun", "xcrun"]
}

pub open spec fn swift_executables() -> Seq<&'static str> {
    seq!["/usr/bin/swift", "swift"]
}

/// The command `xcrun simctl list devices --json`.
pub fn simctl_devices() -> (r: CommandPolicy)
    ensures
        is_policy(
            r,
            "simctl-devices"@,
            xcrun_executables(),
            false,
            false,
            seq![Arg::Is("simctl"), Arg::Is("list"), Arg::Is("devices"), Arg::Is("--json")],
        ),
{
    let r = CommandPolicy {
        id: "simctl-devices",
        executables: &["/usr/bin/xcrun", "xcrun"],
        mutating: false,
        network: false,
        args: ArgRule::Form(&[Arg::Is("simctl"), Arg::Is("list"), Arg::Is("devices"), Arg::Is("--json")]),
    };
    assert(r.executables@ =~= xcrun_executables());
    r
}

/// The command `xcrun simctl runtime list --json`.
pub fn simctl_runtimes() -> (r: CommandPolicy)
    ensures
        is_policy(
            r,
            "simctl-runtimes"@,
            xcrun_executables(),
            false,
            false,
            seq![Arg::Is("simctl"), Arg::Is("runtime"), Arg::Is("list"), Arg::Is("--json")],
        ),
{
    let r = CommandPolicy {
        id: "simctl-runtimes",
        executables: &["/usr/bin/xcrun", "xcrun"],
        mutating: false,
        network: false,
        args: ArgRule::Form(&[Arg::Is("simctl"), Arg::Is("runtime"), Arg::Is("list"), Arg::Is("--json")]),
    };
    assert(r.executables@ =~= xcrun_executables());
    r
}

/// The command `xcrun simctl runtime match list --json`.
pub fn simctl_matches() -> (r: CommandPolicy)
    ensures
        is_policy(
            r,
            "simctl-runtime-matches"@,
            xcrun_executables(),
            false,
            false,
            seq![Arg::Is("simctl"), Arg::Is("runtime"), Arg::Is("match"), Arg::Is("list"), Arg::Is("--json")],
        ),
{
    let r = CommandPolicy {
        id: "simctl-runtime-matches",
        executables: &["/usr/bin/xcrun", "xcrun"],
        mutating: false,
        network: false,
        args: ArgRule::Form(&[Arg::Is("simctl"), Arg::Is("runtime"), Arg::Is("match"), Arg::Is("list"), Arg::Is("--json")]),
    };
    assert(r.executables@ =~= xcrun_executables());
    r
}

/// The commands that preview which runtimes `simctl runtime delete` would take.
pub fn simctl_runtime_preview() -> (r: CommandPolicy)
    ensures
        r.id@ == "simctl-runtime-delete-preview"@,
        r.executables@ == xcrun_executables(),
        !r.mutating,
        !r.network,
        r.args == ArgRule::RuntimePreview,
{
    let r = CommandPolicy {
        id: "simctl-runtime-delete-preview",
        executables: &["/usr/bin/xcrun", "xcrun"],
        mutating: false,
        network: false,
        args: ArgRule::RuntimePreview,
    };
    assert(r.executables@ =~= xcrun_executables());
    r
}

/// The command `xcrun simctl delete <name>`.
pub fn simctl_delete_device() -> (r: CommandPolicy)
    ensures
        is_policy(
            r,
            "simctl-delete-device"@,
            xcrun_executables(),
            true,
            false,
            seq![Arg::Is("simctl"), Arg::Is("delete"), Arg::Token],
        ),
{
    let r = CommandPolicy {
        id: "simctl-delete-device",
        executables: &["/usr/bin/xcrun", "xcrun"],
        mutating: true,
        network: false,
        args: ArgRule::Form(&[Arg::Is("simctl"), Arg::Is("delete"), Arg::Token]),
    };
    assert(r.executables@ =~= xcrun_executables());
    r
}

/// The command `xcrun simctl runtime delete <name>`.
pub fn simctl_delete_runtime() -> (r: CommandPolicy)
    ensures
        is_policy(
            r,
            "simctl-delete-runtime"@,
            xcrun_executables(),
            true,
            false,
            seq![Arg::Is("simctl"), Arg::Is("runtime"), Arg::Is("delete"), Arg::Token],
        ),
{
    let r = CommandPolicy {
        id: "simctl-delete-runtime",
        executables: &["/usr/bin/xcrun", "xcrun"],
        mutating: true,
        network: false,
        args: ArgRule::Form(&[Arg::Is("simctl"), Arg::Is("runtime"), Arg::Is("delete"), Arg::Token]),
    };
    assert(r.executables@ =~= xcrun_executables());
    r
}

/// The command `xcrun simctl runtime dyld_shared_cache remove <name>`.
pub fn simctl_remove_dyld() -> (r: CommandPolicy)
    ensures
        is_policy(
            r,
            "simctl-remove-dyld-cache"@,
            xcrun_executables(),
            true,
            false,
            seq![Arg::Is("simctl"), Arg::Is("runtime"), Arg::Is("dyld_shared_cache"), Arg::Is("remove"), Arg::Token],
        ),
{
    let r = CommandPolicy {
        id: "simctl-remove-dyld-cache",
        executables: &["/usr/bin/xcrun", "xcrun"],
        mutating: true,
        network: false,
        args: ArgRule::Form(&[Arg::Is("simctl"), Arg::Is("runtime"), Arg::Is("dyld_shared_cache"), Arg::Is("remove"), Arg::Token]),
    };
    assert(r.executables@ =~= xcrun_executables());
    r
}

/// The command `swift package purge-cache`.
pub fn swift_purge_cache() -> (r: CommandPolicy)
    ensures
        is_policy(
            r,
            "swift-package-purge-cache"@,
            swift_executables(),
            true,
            false,
            seq![Arg::Is("package"), Arg::Is("purge-cache")],
        ),
{
    let r = CommandPolicy {
        id: "swift-package-purge-cache",
        executables: &["/usr/bin/swift", "swift"],
        mutating: true,
        network: false,
        args: ArgRule::Form(&[Arg::Is("package"), Arg::Is("purge-cache")]),
    };
    assert(r.executables@ =~= swift_executables());
    r
}

/// The arguments of a preview of runtime deletion.
pub fn runtime_preview_args(selector: &str, days: Option<u64>) -> (r: Vec<String>)
    ensures
        views(r@) == match days {
            Some(n) => seq![
                "simctl"@,
                "runtime"@,
                "delete"@,
                selector@,
                digits(n as nat),
                "--dry-run"@,
            ],
            None => seq!["simctl"@, "runtime"@, "delete"@, selector@, "--dry-run"@],
        },
{
    match days {
        Some(n) => text::texts6(
            "simctl",
            "runtime",
            "delete",
            selector,
            text::decimal(n).as_str(),
            "--dry-run",
        ),
        None => text::texts5("simctl", "runtime", "delete", selector, "--dry-run"),
    }
}

/// Whether the provider can work: there is storage to look at, and the
/// simulator service answers where it is installed. `failure` is what asking it
/// failed with.
pub fn probe(simctl: bool, storage: bool, failure: Option<&str>) -> (r: Capability)
    ensures
        if !simctl && !storage {
            r matches Capability::Unavailable(m) && m@ == "Xcode and SwiftPM storage were not found."@
        } else if simctl && failure is Some {
            r matches Capability::Unavailable(m) && m@ == "CoreSimulator is unavailable. "@
                + failure->0@
        } else {
            r is Available
        },
{
    if !simctl && !storage {
        return Capability::Unavailable("Xcode and SwiftPM storage were not found.".to_owned());
    }
    match failure {
        Some(e) => if simctl {
            Capability::Unavailable("CoreSimulator is unavailable. ".to_owned().concat(e))
        } else {
            Capability::Available
        },
        None => Capability::Available,
    }
}

// ---- directories of Xcode ----

/// A directory of Xcode as it stands on disk, with its information file.
pub struct Stored {
    pub path: String,
    pub is_dir: bool,
    pub age: Option<u64>,
    pub bytes: u64,
    pub info: Option<Vec<u8>>,
}

#[verifier::ext_equal]
pub struct StoredModel {
    pub path: Seq<char>,
    pub is_dir: bool,
    pub age: Option<u64>,
    pub bytes: u64,
    pub info: Option<Seq<u8>>,
}

impl View for Stored {
    type V = StoredModel;

    open spec fn view(&self) -> StoredModel {
        StoredModel {
            path: self.path@,
            is_dir: self.is_dir,
            age: self.age,
            bytes: self.bytes,
            info: view_of(self.info),
        }
    }
}

/// Whether a command of Xcode runs.
pub open spec fn xcode_runs(commands: Seq<Seq<char>>) -> bool {
    exists|i: int| 0 <= i < commands.len() && text::occurs(#[trigger] commands[i], "/Xcode.app/"@)
}

/// Whether a command with these words runs.
pub fn any_contains(commands: &Vec<String>, needle: &str) -> (r: bool)
    ensures
        r == exists|i: int|
        0 <= i < commands@.len() && text::occurs(#[trigger] views(commands@)[i], needle@),
{
    let ghost all = views(commands@);
    let mut i: usize = 0;
    while i < commands.len()
        invariant
            i <= commands@.len(),
            all == views(commands@),
            forall|j: int| 0 <= j < i ==> !text::occurs(#[trigger] all[j], needle@),
        decreases commands@.len() - i,
    {
        assert(all[i as int] == commands@[i as int]@);
        if text::contains(commands[i].as_str(), needle) {
            return true;
        }
        i += 1;
    }
    false
}

/// The project that the information file of build data names.
pub open spec fn project_in(info: Option<Seq<u8>>) -> Option<Seq<char>> {
    match info {
        Some(b) => match plist_document(b) {
            Some(d) => match d.text_at("WorkspacePath"@) {
                Some(w) => paths::stem_of(w),
                None => None,
            },
            None => None,
        },
        None => None,
    }
}

/// The project that the information file of build data names.
pub fn derived_data_project(info: &Option<Vec<u8>>) -> (r: Option<String>)
    ensures
        view_of(r) == project_in(view_of(*info)),
{
    match info {
        Some(b) => match parse_plist(b.as_slice()) {
            Some(d) => match d.text("WorkspacePath") {
                Some(w) => paths::file_stem(w.as_str()),
                None => None,
            },
            None => None,
        },
        None => None,
    }
}

/// What is said of build data.
pub open spec fn derived_draft(s: StoredModel, project: Seq<char>) -> Draft {
    draft(
        xcode(),
        "xcode-derived-data"@,
        "dev-cache"@,
        s.path,
        project + " DerivedData"@,
        Safety::Safe,
        s.bytes,
    )
        .filesystem_path(s.path)
        .age(s.age, false)
        .reason(
        "This Xcode build/index directory is outside the recent-use window."@,
    )
        .evidence("Project"@, project)
        .copy(
        "Xcode indexes, intermediates, logs, and build products for one project or workspace."@,
        "Xcode rebuilds the data; the next build and index can be slow."@,
        "Safe after Xcode and related build processes are closed."@,
    )
        .action(
        "trash-xcode-path"@,
        seq!["move DerivedData path to Trash"@],
        false,
        false,
    )
}

/// The days after which build data are old: a quarter of the setting, a week
/// at least.
pub open spec fn derived_floor(min_age: u64) -> u64 {
    if min_age / 4 > 7 {
        (min_age / 4) as u64
    } else {
        7
    }
}

/// The finding for build data that are old and large enough.
pub open spec fn derived_row(running: bool, settings: ProviderSettings) -> spec_fn(
    StoredModel,
) -> Option<FindingModel> {
    |s: StoredModel|
    if !s.is_dir || !aged(s.age, derived_floor(settings.min_age_days)) || s.bytes
    < settings.min_size_bytes {
        None
    } else {
        let d = derived_draft(
            s,
            match project_in(s.info) {
                Some(p) => p,
                None => name_of(s.path),
            },
        );
        Some(
            if running {
                d.in_use().build()
            } else {
                d.build()
            },
        )
    }
}

fn derived_finding(s: &Stored, running: bool, settings: &ProviderSettings) -> (r: Option<Finding>)
    ensures
        view_of(r) == derived_row(running, *settings)(s@),
{
    let quarter: u64 = settings.min_age_days / 4;
    let floor: u64 = if quarter > 7 {
        quarter
    } else {
        7
    };
    if !s.is_dir || !is_aged(s.age, floor) || s.bytes < settings.min_size_bytes {
        return None;
    }
    let name = match derived_data_project(&s.info) {
        Some(p) => p,
        None => paths::name_or_empty(s.path.as_str()),
    };
    let project = name.as_str();
    let builder = ProviderFinding::object(
        metadata(),
        "xcode-derived-data",
        "dev-cache",
        s.path.as_str(),
        project.to_owned().concat(" DerivedData").as_str(),
        Safety::Safe,
        s.bytes,
    )
        .filesystem_path(s.path.as_str())
        .age(s.age, false)
        .reason(
        "This Xcode build/index directory is outside the recent-use window.",
    )
        .evidence("Project", project)
        .copy(
        "Xcode indexes, intermediates, logs, and build products for one project or workspace.",
        "Xcode rebuilds the data; the next build and index can be slow.",
        "Safe after Xcode and related build processes are closed.",
    )
        .action(
        "trash-xcode-path",
        text::texts1("move DerivedData path to Trash"),
        false,
        false,
    );
    Some(
        if running {
            builder.in_use().build()
        } else {
            builder.build()
        },
    )
}

/// The most directories of build data that are looked at.
pub const DERIVED_LIMIT: usize = 20_000;

/// The findings for build data.
pub fn derived_findings(items: &Vec<Stored>, running: bool, settings: &ProviderSettings) -> (r: Vec<Finding>)
    ensures
        views(r@) == collect_some(at_most(views(items@), DERIVED_LIMIT as int), derived_row(running, *settings)),
{
    let ghost f = derived_row(running, *settings);
    let ghost all = views(items@);
    let mut out: Vec<Finding> = Vec::new();
    let limit: usize = if items.len() > DERIVED_LIMIT {
        DERIVED_LIMIT
    } else {
        items.len()
    };
    let mut i: usize = 0;
    while i < limit
        invariant
            i <= limit <= items@.len(),
            all == views(items@),
            f == derived_row(running, *settings),
            views(out@) == collect_some(all.take(i as int), f),
        decreases limit - i,
    {
        proof {
            lemma_collect_step(all, i as int, f);
        }
        assert(all[i as int] == items@[i as int]@);
        if let Some(x) = derived_finding(&items[i], running, settings) {
            out.push(x);
        }
        i += 1;
    }
    assert(all.take(limit as int) =~= at_most(all, DERIVED_LIMIT as int));
    out
}

/// The text of one entry, or of another where the first is not there; a default
/// where what is there is no text.
pub open spec fn text_of_either(
    v: JsonModel,
    first: Seq<char>,
    second: Seq<char>,
    otherwise: Seq<char>,
) -> Seq<char> {
    let found = match v.get(first) {
        Some(x) => Some(x),
        None => v.get(second),
    };
    match found {
        Some(x) => match x.as_text() {
            Some(t) => t,
            None => otherwise,
        },
        None => otherwise,
    }
}

/// The label that the information file of an archive gives it.
pub open spec fn label_in(info: Option<Seq<u8>>) -> Option<Seq<char>> {
    match info {
        Some(b) => match plist_document(b) {
            Some(d) => match d.get("ApplicationProperties"@) {
                Some(p) => if p is Object {
                    Some(
                        text_of_either(
                            p,
                            "CFBundleDisplayName"@,
                            "CFBundleName"@,
                            "Xcode archive"@,
                        ) + " "@ + match p.text_at("CFBundleShortVersionString"@) {
                            Some(v) => v,
                            None => "unknown version"@,
                        } + " archive"@,
                    )
                } else {
                    None
                },
                None => None,
            },
            None => None,
        },
        None => None,
    }
}

/// The label that the information file of an archive gives it.
pub fn archive_label(info: &Option<Vec<u8>>) -> (r: Option<String>)
    ensures
        view_of(r) == label_in(view_of(*info)),
{
    let b = match info {
        Some(b) => b,
        None => {
            return None;
        },
    };
    let d = match parse_plist(b.as_slice()) {
        Some(d) => d,
        None => {
            return None;
        },
    };
    match d.get("ApplicationProperties") {
        Some(p) => {
            if p.as_object().is_none() {
                return None;
            }
            let found = match p.get("CFBundleDisplayName") {
                Some(x) => Some(x),
                None => p.get("CFBundleName"),
            };
            let name: &str = match found {
                Some(x) => match x.as_str() {
                    Some(t) => t,
                    None => "Xcode archive",
                },
                None => "Xcode archive",
            };
            let version = match p.text("CFBundleShortVersionString") {
                Some(v) => v,
                None => "unknown version".to_owned(),
            };
            Some(name.to_owned().concat(" ").concat(version.as_str()).concat(" archive"))
        },
        None => None,
    }
}

/// Whether the search for archives goes on into a directory.
pub fn descends(depth: usize, found: usize) -> (r: bool)
    ensures
        r == (depth <= 3 && found < 20_000),
{
    depth <= 3 && found < 20_000
}

/// Whether a directory is an archive.
pub fn is_xcarchive(path: &str) -> (r: bool)
    ensures
        r == (paths::extension_of(path@) == Some("xcarchive"@)),
{
    match paths::extension(path) {
        Some(e) => same(e.as_str(), "xcarchive"),
        None => false,
    }
}

/// What is said of an archive.
pub open spec fn archive_draft(s: StoredModel, label: Seq<char>) -> Draft {
    draft(
        xcode(),
        "xcode-archive"@,
        "dev-cache"@,
        s.path,
        label,
        Safety::Review,
        s.bytes,
    )
        .filesystem_path(s.path)
        .age(s.age, false)
        .manual()
        .reason(
        "This Xcode archive is older than the archive retention threshold."@,
    )
        .copy(
        "An archived application build containing dSYMs, signing metadata, and exportable products."@,
        "Deleting it can prevent symbolication or re-export of a shipped build."@,
        "Keep archives for released versions unless dSYMs and exported artifacts are stored elsewhere."@,
    )
        .action(
        "trash-xcode-path"@,
        seq!["move Xcode archive to Trash"@],
        false,
        true,
    )
}

/// The days after which an archive is old: the setting, sixty at least.
pub open spec fn archive_floor(min_age: u64) -> u64 {
    if min_age > 60 {
        min_age
    } else {
        60
    }
}

/// The finding for an archive that is old and large enough.
pub open spec fn archive_row(settings: ProviderSettings) -> spec_fn(StoredModel) -> Option<
FindingModel,
> {
    |s: StoredModel|
    if !aged(s.age, archive_floor(settings.min_age_days)) || s.bytes
    < settings.min_size_bytes {
        None
    } else {
        Some(
            archive_draft(
                s,
                match label_in(s.info) {
                    Some(l) => l,
                    None => name_of(s.path),
                },
            ).build(),
        )
    }
}

fn archive_finding(s: &Stored, settings: &ProviderSettings) -> (r: Option<Finding>)
    ensures
        view_of(r) == archive_row(*settings)(s@),
{
    let floor: u64 = if settings.min_age_days > 60 {
        settings.min_age_days
    } else {
        60
    };
    if !is_aged(s.age, floor) || s.bytes < settings.min_size_bytes {
        return None;
    }
    let name = match archive_label(&s.info) {
        Some(l) => l,
        None => paths::name_or_empty(s.path.as_str()),
    };
    let label = name.as_str();
    Some(ProviderFinding::object(
            metadata(),
            "xcode-archive",
            "dev-cache",
            s.path.as_str(),
            label,
            Safety::Review,
            s.bytes,
        )
            .filesystem_path(s.path.as_str())
            .age(s.age, false)
            .manual()
            .reason(
            "This Xcode archive is older than the archive retention threshold.",
        )
            .copy(
            "An archived application build containing dSYMs, signing metadata, and exportable products.",
            "Deleting it can prevent symbolication or re-export of a shipped build.",
            "Keep archives for released versions unless dSYMs and exported artifacts are stored elsewhere.",
        )
            .action(
            "trash-xcode-path",
            text::texts1("move Xcode archive to Trash"),
            false,
            true,
        )
            .build())
}

/// The findings for archives.
pub fn archive_findings(items: &Vec<Stored>, settings: &ProviderSettings) -> (r: Vec<Finding>)
    ensures
        views(r@) == collect_some(views(items@), archive_row(*settings)),
{
    let ghost f = archive_row(*settings);
    let ghost all = views(items@);
    let mut out: Vec<Finding> = Vec::new();
    let limit: usize = items.len();
    let mut i: usize = 0;
    while i < limit
        invariant
            i <= limit <= items@.len(),
            all == views(items@),
            f == archive_row(*settings),
            views(out@) == collect_some(all.take(i as int), f),
        decreases limit - i,
    {
        proof {
            lemma_collect_step(all, i as int, f);
        }
        assert(all[i as int] == items@[i as int]@);
        if let Some(x) = archive_finding(&items[i], settings) {
            out.push(x);
        }
        i += 1;
    }
    assert(all.take(limit as int) =~= all);
    out
}

/// What is said of device support files.
pub open spec fn support_draft(s: StoredModel) -> Draft {
    draft(
        xcode(),
        "xcode-device-support"@,
        "dev-cache"@,
        s.path,
        "iOS DeviceSupport "@ + name_of(s.path),
        Safety::Review,
        s.bytes,
    )
        .filesystem_path(s.path)
        .age(s.age, false)
        .manual()
        .reason(
        "This extracted device-support version is outside the age threshold."@,
    )
        .copy(
        "Symbols and support files extracted when a physical iOS device connects to Xcode."@,
        "Xcode recreates the directory on the next connection to that OS build."@,
        "Review versions used by current physical devices before removal."@,
    )
        .action(
        "trash-xcode-path"@,
        seq!["move DeviceSupport version to Trash"@],
        false,
        true,
    )
}

/// The finding for device support files that are old and large enough.
pub open spec fn support_row(settings: ProviderSettings) -> spec_fn(StoredModel) -> Option<
FindingModel,
> {
    |s: StoredModel|
    if !s.is_dir || !aged(s.age, settings.min_age_days) || s.bytes
    < settings.min_size_bytes {
        None
    } else {
        Some(support_draft(s).build())
    }
}

fn support_finding(s: &Stored, settings: &ProviderSettings) -> (r: Option<Finding>)
    ensures
        view_of(r) == support_row(*settings)(s@),
{
    if !s.is_dir || !is_aged(s.age, settings.min_age_days) || s.bytes < settings.min_size_bytes {
        return None;
    }
    Some(ProviderFinding::object(
            metadata(),
            "xcode-device-support",
            "dev-cache",
            s.path.as_str(),
            "iOS DeviceSupport ".to_owned().concat(paths::name_or_empty(s.path.as_str()).as_str()).as_str(),
            Safety::Review,
            s.bytes,
        )
            .filesystem_path(s.path.as_str())
            .age(s.age, false)
            .manual()
            .reason(
            "This extracted device-support version is outside the age threshold.",
        )
            .copy(
            "Symbols and support files extracted when a physical iOS device connects to Xcode.",
            "Xcode recreates the directory on the next connection to that OS build.",
            "Review versions used by current physical devices before removal.",
        )
            .action(
            "trash-xcode-path",
            text::texts1("move DeviceSupport version to Trash"),
            false,
            true,
        )
            .build())
}

/// The most versions of device support that are looked at.
pub const SUPPORT_LIMIT: usize = 5_000;

/// The findings for device support files.
pub fn support_findings(items: &Vec<Stored>, settings: &ProviderSettings) -> (r: Vec<Finding>)
    ensures
        views(r@) == collect_some(at_most(views(items@), SUPPORT_LIMIT as int), support_row(*settings)),
{
    let ghost f = support_row(*settings);
    let ghost all = views(items@);
    let mut out: Vec<Finding> = Vec::new();
    let limit: usize = if items.len() > SUPPORT_LIMIT {
        SUPPORT_LIMIT
    } else {
        items.len()
    };
    let mut i: usize = 0;
    while i < limit
        invariant
            i <= limit <= items@.len(),
            all == views(items@),
            f == support_row(*settings),
            views(out@) == collect_some(all.take(i as int), f),
        decreases limit - i,
    {
        proof {
            lemma_collect_step(all, i as int, f);
        }
        assert(all[i as int] == items@[i as int]@);
        if let Some(x) = support_finding(&items[i], settings) {
            out.push(x);
        }
        i += 1;
    }
    assert(all.take(limit as int) =~= at_most(all, SUPPORT_LIMIT as int));
    out
}

/// Where the Swift package manager keeps its caches.
pub open spec fn swift_places(home: Seq<char>) -> Seq<Seq<char>> {
    seq![
        paths::below(home, ".swiftpm/cache"@),
        paths::below(home, "Library/Caches/org.swift.swiftpm"@),
        paths::below(home, "Library/org.swift.swiftpm/cache"@),
    ]
}

pub fn swift_paths(home: &str) -> (r: Vec<String>)
    ensures
        views(r@) == swift_places(home@),
{
    let r = vec![
        paths::join(home, ".swiftpm/cache"),
        paths::join(home, "Library/Caches/org.swift.swiftpm"),
        paths::join(home, "Library/org.swift.swiftpm/cache"),
    ];
    assert(views(r@) =~= swift_places(home@));
    r
}

/// What is said of the caches of the Swift package manager.
pub open spec fn swift_draft(bytes: u64, existing: Seq<Seq<char>>) -> Draft {
    draft(
        xcode(),
        "swiftpm-native-cache"@,
        "package-manager-cache"@,
        "global-repository-cache"@,
        "SwiftPM global repository cache"@,
        Safety::Safe,
        bytes,
    )
        .grouped_paths(existing)
        .reason("SwiftPM owns these global repository and metadata caches."@)
        .copy(
        "Swift Package Manager's global repository and dependency cache."@,
        "Packages are fetched again during the next dependency resolution."@,
        "Prefer SwiftPM's native purge-cache command."@,
    )
}

/// The finding for the caches of the Swift package manager: they are offered
/// where its own command is there to purge them.
pub open spec fn swift_rows(
    bytes: u64,
    existing: Seq<Seq<char>>,
    purge: bool,
    settings: ProviderSettings,
) -> Seq<FindingModel> {
    if bytes < settings.min_size_bytes {
        Seq::empty()
    } else if purge {
        seq![swift_draft(bytes, existing)
                .action(
                "swift-purge-cache"@,
                seq!["swift"@, "package"@, "purge-cache"@],
                true,
                false,
            )
                .build()]
    } else {
        seq![swift_draft(bytes, existing).report_only().build()]
    }
}

/// The finding for the caches that exist, which take `bytes` together.
pub fn swift_findings(
    bytes: u64,
    existing: Vec<String>,
    purge: bool,
    settings: &ProviderSettings,
) -> (r: Vec<Finding>)
    ensures
        views(r@) == swift_rows(bytes, views(existing@), purge, *settings),
{
    let ghost there = views(existing@);
    let mut out: Vec<Finding> = Vec::new();
    if bytes < settings.min_size_bytes {
        return out;
    }
    let builder = ProviderFinding::object(
        metadata(),
        "swiftpm-native-cache",
        "package-manager-cache",
        "global-repository-cache",
        "SwiftPM global repository cache",
        Safety::Safe,
        bytes,
    )
        .grouped_paths(existing)
        .reason("SwiftPM owns these global repository and metadata caches.")
        .copy(
        "Swift Package Manager's global repository and dependency cache.",
        "Packages are fetched again during the next dependency resolution.",
        "Prefer SwiftPM's native purge-cache command.",
    );
    let finding = if purge {
        builder
            .action(
            "swift-purge-cache",
            text::texts3("swift", "package", "purge-cache"),
            true,
            false,
        )
            .build()
    } else {
        builder.report_only().build()
    };
    out.push(finding);
    assert(views(out@) =~= swift_rows(bytes, there, purge, *settings));
    out
}

/// What is found in the directories of Xcode and of the package manager.
pub open spec fn storage_rows(
    running: Seq<Seq<char>>,
    derived: Seq<StoredModel>,
    archives: Seq<StoredModel>,
    support: Seq<StoredModel>,
    settings: ProviderSettings,
) -> Seq<FindingModel> {
    collect_some(
        at_most(derived, DERIVED_LIMIT as int),
        derived_row(xcode_runs(running), settings),
    ) + collect_some(archives, archive_row(settings)) + collect_some(
        at_most(support, SUPPORT_LIMIT as int),
        support_row(settings),
    )
}

/// What is found in the directories of Xcode and of the package manager, in the
/// order in which they are looked at.
pub fn xcode_storage_findings(
    running: &Vec<String>,
    derived: &Vec<Stored>,
    archives: &Vec<Stored>,
    support: &Vec<Stored>,
    swift: (u64, Vec<String>, bool),
    settings: &ProviderSettings,
) -> (r: Vec<Finding>)
    ensures
        views(r@) == storage_rows(
            views(running@),
            views(derived@),
            views(archives@),
            views(support@),
            *settings,
        ) + swift_rows(swift.0, views(swift.1@), swift.2, *settings),
{
    let xcode_running = any_contains(running, "/Xcode.app/");
    let mut r = derived_findings(derived, xcode_running, settings);
    let mut a = archive_findings(archives, settings);
    let mut b = support_findings(support, settings);
    let mut c = swift_findings(swift.0, swift.1, swift.2, settings);
    r.append(&mut a);
    r.append(&mut b);
    r.append(&mut c);
    r
}

// ---- the simulator service ----

/// What the simulator service lists.
pub struct Inventory {
    pub devices: Json,
    pub runtimes: Json,
    pub matches: Json,
}

/// Reads the lists of the simulator service. A list of matches that is missing
/// or broken counts as empty.
pub fn read_inventory(devices: &str, runtimes: &str, matches: Option<&str>) -> (r: Result<
    Inventory,
    String,
    >)
    ensures
        match (r, json_document(devices@), json_document(runtimes@)) {
            (Ok(i), Some(d), Some(t)) => i.devices@ == d && i.runtimes@ == t && i.matches@ == match json_document(
                match matches {
                    Some(m) => m@,
                    None => "{}"@,
                },
            ) {
                Some(m) => m,
                None => JsonModel::Null,
            },
            (Err(e), None, _) => e@ == "invalid simctl device JSON"@,
            (Err(e), Some(_), None) => e@ == "invalid simctl runtime JSON"@,
            _ => false,
        },
{
    let d = match parse_json(devices) {
        Some(d) => d,
        None => {
            return Err("invalid simctl device JSON".to_owned());
        },
    };
    let t = match parse_json(runtimes) {
        Some(t) => t,
        None => {
            return Err("invalid simctl runtime JSON".to_owned());
        },
    };
    let listed = match matches {
        Some(m) => parse_json(m),
        None => parse_json("{}"),
    };
    let m = match listed {
        Some(m) => m,
        None => Json::Null,
    };
    Ok(Inventory { devices: d, runtimes: t, matches: m })
}

/// The entries of the list of devices: a runtime and its devices each.
pub open spec fn device_entries(devices: JsonModel) -> Seq<(Seq<char>, JsonModel)> {
    match devices.get("devices"@) {
        Some(d) => d.entries(),
        None => Seq::empty(),
    }
}

/// Whether one of some devices is booted.
pub open spec fn any_booted(devices: Seq<JsonModel>) -> bool {
    exists|i: int|
    0 <= i < devices.len() && (#[trigger] devices[i]).text_or_empty("state"@) == "Booted"@
}

pub open spec fn if_booted() -> spec_fn((Seq<char>, JsonModel)) -> Option<Seq<char>> {
    |e: (Seq<char>, JsonModel)|
    if any_booted(e.1.items()) {
        Some(e.0)
    } else {
        None
    }
}

/// The runtimes of which a device is booted.
pub open spec fn booted_in(devices: JsonModel) -> Seq<Seq<char>> {
    collect_some(device_entries(devices), if_booted())
}

fn has_booted(v: &Json) -> (r: bool)
    ensures
        r == any_booted(v@.items()),
{
    match v.as_array() {
        Some(items) => {
            let ghost all = item_models(items@);
            let mut i: usize = 0;
            while i < items.len()
                invariant
                    i <= items@.len(),
                    all == item_models(items@),
                    all == v@.items(),
                    forall|j: int|
                    0 <= j < i ==> (#[trigger] all[j]).text_or_empty("state"@) != "Booted"@,
                decreases items@.len() - i,
            {
                assert(all[i as int] == items@[i as int]@);
                if same(items[i].string("state").as_str(), "Booted") {
                    return true;
                }
                i += 1;
            }
            false
        },
        None => false,
    }
}

/// The runtimes of which a device is booted.
pub fn booted_runtime_identifiers(devices: &Json) -> (r: Vec<String>)
    ensures
        views(r@) == booted_in(devices@),
{
    let ghost f = if_booted();
    let mut out: Vec<String> = Vec::new();
    assert(views(out@) =~= Seq::<Seq<char>>::empty());
    if let Some(d) = devices.get("devices") {
        if let Some(entries) = d.as_object() {
            let ghost all = entry_models(entries@);
            let mut i: usize = 0;
            while i < entries.len()
                invariant
                    i <= entries@.len(),
                    all == entry_models(entries@),
                    f == if_booted(),
                    views(out@) == collect_some(all.take(i as int), f),
                decreases entries@.len() - i,
            {
                proof {
                    lemma_collect_step(all, i as int, f);
                }
                assert(all[i as int] == (entries@[i as int].0@, entries@[i as int].1@));
                if has_booted(&entries[i].1) {
                    out.push(entries[i].0.clone());
                }
                i += 1;
            }
            assert(all.take(i as int) =~= all);
        }
    }
    out
}

pub open spec fn chosen_build() -> spec_fn((Seq<char>, JsonModel)) -> Option<Seq<char>> {
    |e: (Seq<char>, JsonModel)| e.1.text_at("chosenRuntimeBuild"@)
}

/// The runtime builds that the installed tools choose.
pub open spec fn preferred_in(matches: JsonModel) -> Seq<Seq<char>> {
    collect_some(matches.entries(), chosen_build())
}

/// The runtime builds that the installed tools choose.
pub fn preferred_runtime_builds(matches: &Json) -> (r: Vec<String>)
    ensures
        views(r@) == preferred_in(matches@),
{
    let ghost f = chosen_build();
    let mut out: Vec<String> = Vec::new();
    assert(views(out@) =~= Seq::<Seq<char>>::empty());
    if let Some(entries) = matches.as_object() {
        let ghost all = entry_models(entries@);
        let mut i: usize = 0;
        while i < entries.len()
            invariant
                i <= entries@.len(),
                all == entry_models(entries@),
                f == chosen_build(),
                views(out@) == collect_some(all.take(i as int), f),
            decreases entries@.len() - i,
        {
            proof {
                lemma_collect_step(all, i as int, f);
            }
            assert(all[i as int] == (entries@[i as int].0@, entries@[i as int].1@));
            if let Some(build) = entries[i].1.text("chosenRuntimeBuild") {
                out.push(build);
            }
            i += 1;
        }
        assert(all.take(i as int) =~= all);
    }
    out
}

// ---- what a preview names ----

/// Where a text is cut into words that may be identifiers.
pub open spec fn not_in_uuid() -> spec_fn(char) -> bool {
    |c: char| !is_hex(c) && c != '-'
}

/// Whether a position of an identifier holds a dash.
pub open spec fn dash_place(i: int) -> bool {
    i == 8 || i == 13 || i == 18 || i == 23
}

/// Whether a word is an identifier.
pub open spec fn is_uuid(t: Seq<char>) -> bool {
    &&& t.len() == 36
    &&& forall|i: int|
    0 <= i < t.len() ==> if dash_place(i) {
        #[trigger] t[i] == '-'
    } else {
        is_hex(t[i])
    }
}

pub open spec fn if_uuid() -> spec_fn(Seq<char>) -> Option<Seq<char>> {
    |t: Seq<char>|
    if is_uuid(t) {
        Some(text::uppered(t))
    } else {
        None
    }
}

/// The identifiers in a text, in upper case.
pub open spec fn uuids_in(output: Seq<char>) -> Seq<Seq<char>> {
    collect_some(text::pieces(output, not_in_uuid()), if_uuid())
}

fn hex_char(c: char) -> (r: bool)
    ensures
        r == is_hex(c),
{
    ('0' <= c && c <= '9') || ('a' <= c && c <= 'f') || ('A' <= c && c <= 'F')
}

fn uuid_token(token: &str) -> (r: bool)
    ensures
        r == is_uuid(token@),
{
    let v = text::chars_of(token);
    if v.len() != 36 {
        return false;
    }
    let mut i: usize = 0;
    while i < v.len()
        invariant
            i <= v@.len(),
            v@ == token@,
            v@.len() == 36,
            forall|j: int|
            0 <= j < i ==> if dash_place(j) {
                #[trigger] v@[j] == '-'
            } else {
                is_hex(v@[j])
            },
        decreases v@.len() - i,
    {
        let fits = if i == 8 || i == 13 || i == 18 || i == 23 {
            v[i] == '-'
        } else {
            hex_char(v[i])
        };
        if !fits {
            assert(!(if dash_place(i as int) {
                        token@[i as int] == '-'
                    } else {
                        is_hex(token@[i as int])
            }));
            return false;
        }
        i += 1;
    }
    true
}

fn uuid_words(output: &str) -> (r: Vec<String>)
    ensures
        views(r@) == text::pieces(output@, not_in_uuid()),
{
    let v = text::chars_of(output);
    let ghost cut = not_in_uuid();
    let mut done: Vec<String> = Vec::new();
    let mut last = String::new();
    let mut i: usize = 0;
    assert(v@.take(0) =~= Seq::<char>::empty());
    assert(views(done@).push(last@) =~= text::pieces(v@.take(0), cut));
    while i < v.len()
        invariant
            i <= v@.len(),
            cut == not_in_uuid(),
            views(done@).push(last@) == text::pieces(v@.take(i as int), cut),
        decreases v@.len() - i,
    {
        proof {
            text::lemma_pieces_step(v@, i as int, cut);
        }
        let ghost before = views(done@).push(last@);
        let c: char = v[i];
        if !hex_char(c) && c != '-' {
            done.push(last);
            last = String::new();
            assert(last@ =~= Seq::<char>::empty());
        } else {
            last.push(c);
            assert(views(done@).push(last@) =~= text::extend_last(before, v@[i as int]));
        }
        i += 1;
    }
    assert(v@.take(v@.len() as int) =~= output@);
    done.push(last);
    done
}

/// The identifiers in a text, in upper case, each once and in order.
pub fn extract_uuids(output: &str) -> (r: Vec<String>)
    ensures
        sorting::ascending(views(r@)),
        views(r@).to_set() == uuids_in(output@).to_set(),
{
    let w = uuid_words(output);
    let ghost all = views(w@);
    let ghost f = if_uuid();
    let mut out: Vec<String> = Vec::new();
    let mut i: usize = 0;
    assert(views(out@).to_set() =~= collect_some(all.take(0), f).to_set());
    while i < w.len()
        invariant
            i <= w@.len(),
            all == views(w@),
            f == if_uuid(),
            sorting::ascending(views(out@)),
            views(out@).to_set() == collect_some(all.take(i as int), f).to_set(),
        decreases w@.len() - i,
    {
        proof {
            lemma_collect_step(all, i as int, f);
        }
        assert(all[i as int] == w@[i as int]@);
        if uuid_token(w[i].as_str()) {
            let ghost before = collect_some(all.take(i as int), f);
            let id = text::to_ascii_uppercase(w[i].as_str());
            proof {
                lemma_push_set(before, id@);
            }
            sorting::insert_sorted(&mut out, id);
        }
        i += 1;
    }
    assert(all.take(i as int) =~= all);
    out
}

proof fn lemma_push_set(s: Seq<Seq<char>>, x: Seq<char>)
    ensures
        s.push(x).to_set() == s.to_set().insert(x),
{
    assert forall|y: Seq<char>| s.push(x).to_set().contains(y) == s.to_set().insert(x).contains(
        y,
    ) by {
        if s.contains(y) {
            let k = choose|k: int| 0 <= k < s.len() && s[k] == y;
            assert(s.push(x)[k] == y);
        }
        if s.push(x).contains(y) {
            let k = choose|k: int| 0 <= k < s.push(x).len() && s.push(x)[k] == y;
            if k < s.len() {
                assert(s[k] == y);
            }
        }
        assert(s.push(x)[s.len() as int] == x);
    }
    assert(s.push(x).to_set() =~= s.to_set().insert(x));
}

// ---- labels ----

/// A runtime identifier, in words.
pub open spec fn runtime_name(identifier: Seq<char>) -> Seq<char> {
    text::replaced(text::pieces(identifier, text::is_char('.')).last(), '-', " "@)
}

pub fn runtime_label(identifier: &str) -> (r: String)
    ensures
        r@ == runtime_name(identifier@),
{
    let p = text::split(identifier, '.');
    let n: usize = p.len();
    assert(views(p@).last() == p@[n - 1]@);
    text::replace(p[n - 1].as_str(), '-', " ")
}

/// The platform of a runtime.
pub open spec fn platform_name(identifier: Seq<char>) -> Seq<char> {
    if text::occurs(identifier, "iphone"@) {
        "iOS"@
    } else if text::occurs(identifier, "appletv"@) {
        "tvOS"@
    } else if text::occurs(identifier, "watch"@) {
        "watchOS"@
    } else if text::occurs(identifier, "xros"@) {
        "visionOS"@
    } else {
        "Simulator"@
    }
}

pub fn platform_label(identifier: &str) -> (r: &'static str)
    ensures
        r@ == platform_name(identifier@),
{
    if text::contains(identifier, "iphone") {
        "iOS"
    } else if text::contains(identifier, "appletv") {
        "tvOS"
    } else if text::contains(identifier, "watch") {
        "watchOS"
    } else if text::contains(identifier, "xros") {
        "visionOS"
    } else {
        "Simulator"
    }
}

// ---- devices ----

/// A simulator device that the selected tools cannot use.
pub struct Device {
    pub runtime: String,
    pub udid: String,
    pub name: String,
    pub state: String,
    pub data_path: String,
}

#[verifier::ext_equal]
pub struct DeviceModel {
    pub runtime: Seq<char>,
    pub udid: Seq<char>,
    pub name: Seq<char>,
    pub state: Seq<char>,
    pub data_path: Seq<char>,
}

impl View for Device {
    type V = DeviceModel;

    open spec fn view(&self) -> DeviceModel {
        DeviceModel {
            runtime: self.runtime@,
            udid: self.udid@,
            name: self.name@,
            state: self.state@,
            data_path: self.data_path@,
        }
    }
}

/// A device of a runtime, where it is marked as unavailable and has an id.
pub open spec fn if_unavailable(runtime: Seq<char>) -> spec_fn(JsonModel) -> Option<DeviceModel> {
    |d: JsonModel|
    if d.bool_at("isAvailable"@) == Some(false) && d.text_or_empty("udid"@).len() > 0 {
        Some(
            DeviceModel {
                runtime,
                udid: d.text_or_empty("udid"@),
                name: d.text_or_empty("name"@),
                state: d.text_or_empty("state"@),
                data_path: d.text_or_empty("dataPath"@),
            },
        )
    } else {
        None
    }
}

pub open spec fn unavailable_of_entry() -> spec_fn((Seq<char>, JsonModel)) -> Seq<DeviceModel> {
    |e: (Seq<char>, JsonModel)| collect_some(e.1.items(), if_unavailable(e.0))
}

/// The devices that the selected tools cannot use.
pub open spec fn unavailable_in(devices: JsonModel) -> Seq<DeviceModel> {
    flatten_map(device_entries(devices), unavailable_of_entry())
}

fn unavailable_device(d: &Json, runtime: &str) -> (r: Option<Device>)
    ensures
        view_of(r) == if_unavailable(runtime@)(d@),
{
    let marked = match d.bool("isAvailable") {
        Some(b) => !b,
        None => false,
    };
    let udid = d.string("udid");
    if !marked || udid.as_str().is_empty() {
        return None;
    }
    Some(
        Device {
            runtime: runtime.to_owned(),
            udid,
            name: d.string("name"),
            state: d.string("state"),
            data_path: d.string("dataPath"),
        },
    )
}

fn unavailable_of(v: &Json, runtime: &str) -> (r: Vec<Device>)
    ensures
        views(r@) == collect_some(v@.items(), if_unavailable(runtime@)),
{
    let ghost f = if_unavailable(runtime@);
    let mut out: Vec<Device> = Vec::new();
    assert(views(out@) =~= Seq::<DeviceModel>::empty());
    if let Some(items) = v.as_array() {
        let ghost all = item_models(items@);
        let mut i: usize = 0;
        while i < items.len()
            invariant
                i <= items@.len(),
                all == item_models(items@),
                f == if_unavailable(runtime@),
                views(out@) == collect_some(all.take(i as int), f),
            decreases items@.len() - i,
        {
            proof {
                lemma_collect_step(all, i as int, f);
            }
            assert(all[i as int] == items@[i as int]@);
            if let Some(d) = unavailable_device(&items[i], runtime) {
                out.push(d);
            }
            i += 1;
        }
        assert(all.take(i as int) =~= all);
    }
    out
}

/// The devices that the selected tools cannot use.
pub fn unavailable_devices(devices: &Json) -> (r: Vec<Device>)
    ensures
        views(r@) == unavailable_in(devices@),
{
    let ghost f = unavailable_of_entry();
    let mut out: Vec<Device> = Vec::new();
    assert(views(out@) =~= Seq::<DeviceModel>::empty());
    if let Some(d) = devices.get("devices") {
        if let Some(entries) = d.as_object() {
            let ghost all = entry_models(entries@);
            let mut i: usize = 0;
            while i < entries.len()
                invariant
                    i <= entries@.len(),
                    all == entry_models(entries@),
                    f == unavailable_of_entry(),
                    views(out@) == flatten_map(all.take(i as int), f),
                decreases entries@.len() - i,
            {
                proof {
                    lemma_flatten_step(all, i as int, f);
                }
                assert(all[i as int] == (entries@[i as int].0@, entries@[i as int].1@));
                let mut more = unavailable_of(&entries[i].1, entries[i].0.as_str());
                proof {
                    lemma_views_concat(out@, more@);
                }
                out.append(&mut more);
                i += 1;
            }
            assert(all.take(i as int) =~= all);
        }
    }
    out
}

/// What is said of an unavailable device, which takes `bytes`.
pub open spec fn device_draft(d: DeviceModel, bytes: u64) -> Draft {
    draft(
        xcode(),
        "xcode-unavailable-simulator"@,
        "simulator-runtime"@,
        d.udid,
        d.name + " ("@ + runtime_name(d.runtime) + ")"@,
        Safety::Safe,
        bytes,
    )
        .reason(
        "The selected Xcode SDK no longer supports this simulator device."@,
    )
        .evidence("UDID"@, d.udid)
        .evidence("Runtime"@, runtime_name(d.runtime))
        .evidence("State"@, d.state)
        .copy(
        "A simulator device whose runtime is unavailable to the current Xcode installation."@,
        "The simulator's installed apps and local test data are deleted."@,
        "Safe when the unavailable device is no longer needed for migration or forensic debugging."@,
    )
        .action(
        "delete-device"@,
        seq!["xcrun"@, "simctl"@, "delete"@, d.udid],
        true,
        false,
    )
}

pub open spec fn device_row() -> spec_fn((DeviceModel, u64)) -> Option<FindingModel> {
    |x: (DeviceModel, u64)| Some(device_draft(x.0, x.1).build())
}

fn device_finding(d: &Device, bytes: u64) -> (r: Option<Finding>)
    ensures
        view_of(r) == device_row()((d@, bytes)),
{
    let runtime = runtime_label(d.runtime.as_str());
    Some(ProviderFinding::object(
            metadata(),
            "xcode-unavailable-simulator",
            "simulator-runtime",
            d.udid.as_str(),
            d.name.as_str().to_owned().concat(" (").concat(runtime.as_str()).concat(")").as_str(),
            Safety::Safe,
            bytes,
        )
            .reason(
            "The selected Xcode SDK no longer supports this simulator device.",
        )
            .evidence("UDID", d.udid.as_str())
            .evidence("Runtime", runtime.as_str())
            .evidence("State", d.state.as_str())
            .copy(
            "A simulator device whose runtime is unavailable to the current Xcode installation.",
            "The simulator's installed apps and local test data are deleted.",
            "Safe when the unavailable device is no longer needed for migration or forensic debugging.",
        )
            .action(
            "delete-device",
            text::texts4("xcrun", "simctl", "delete", d.udid.as_str()),
            true,
            false,
        )
            .build())
}

/// The findings for unavailable devices; `bytes` says what the data of each take.
pub fn unavailable_device_findings(devices: &Vec<Device>, bytes: &Vec<u64>) -> (r: Vec<Finding>)
    ensures
        views(r@) == collect_some(paired(views(devices@), bytes@), device_row()),
{
    let ghost f = device_row();
    let ghost pairs = paired(views(devices@), bytes@);
    let mut out: Vec<Finding> = Vec::new();

    let n: usize = devices.len();
    let limit: usize = if n < bytes.len() {
        n
    } else {
        bytes.len()
    };
    let mut i: usize = 0;
    while i < limit
        invariant
            i <= limit,
            limit <= bytes@.len(),
            limit == pairs.len(),
            limit <= devices@.len(),
            pairs == paired(views(devices@), bytes@),
            f == device_row(),
            views(out@) == collect_some(pairs.take(i as int), f),
        decreases limit - i,
    {
        proof {
            lemma_collect_step(pairs, i as int, f);
        }
        assert(pairs[i as int] == (devices@[i as int]@, bytes@[i as int]));
        if let Some(x) = device_finding(&devices[i], bytes[i]) {
            out.push(x);
        }
        i += 1;
    }
    assert(pairs.take(i as int) =~= pairs);
    out
}

// ---- runtimes ----

/// What the service says of runtimes beside its list of them.
pub struct RuntimeSets {
    /// The runtimes of which a device is booted.
    pub booted: Vec<String>,
    /// The builds that the installed tools choose.
    pub preferred: Vec<String>,
    pub outdated: Vec<String>,
    pub unusable: Vec<String>,
    pub unused: Vec<String>,
}

#[verifier::ext_equal]
pub struct RuntimeSetsModel {
    pub booted: Seq<Seq<char>>,
    pub preferred: Seq<Seq<char>>,
    pub outdated: Seq<Seq<char>>,
    pub unusable: Seq<Seq<char>>,
    pub unused: Seq<Seq<char>>,
}

impl View for RuntimeSets {
    type V = RuntimeSetsModel;

    open spec fn view(&self) -> RuntimeSetsModel {
        RuntimeSetsModel {
            booted: views(self.booted@),
            preferred: views(self.preferred@),
            outdated: views(self.outdated@),
            unusable: views(self.unusable@),
            unused: views(self.unused@),
        }
    }
}

/// Whether a runtime is needed: a device of it is booted, or the installed
/// tools choose its build.
pub open spec fn is_needed(v: JsonModel, sets: RuntimeSetsModel) -> bool {
    sets.booted.contains(v.text_or_empty("runtimeIdentifier"@)) || sets.preferred.contains(
        v.text_or_empty("build"@),
    )
}

fn needed(v: &Json, sets: &RuntimeSets) -> (r: bool)
    ensures
        r == is_needed(v@, sets@),
{
    text::among(v.string("runtimeIdentifier").as_str(), &sets.booted) || text::among(
        v.string("build").as_str(),
        &sets.preferred,
    )
}

pub open spec fn larger(a: u64, b: u64) -> u64 {
    if a > b {
        a
    } else {
        b
    }
}

pub open spec fn runtime_rule(unusable: bool, outdated: bool) -> Seq<char> {
    if unusable {
        "xcode-unusable-runtime"@
    } else if outdated {
        "xcode-outdated-runtime"@
    } else {
        "xcode-unused-runtime"@
    }
}

pub open spec fn runtime_reason(unusable: bool, outdated: bool) -> Seq<char> {
    if unusable {
        "CoreSimulator marks this runtime unusable."@
    } else if outdated {
        "A newer runtime build exists for the same platform version."@
    } else {
        "CoreSimulator reports that this runtime has not been used inside the configured age window."@
    }
}

pub open spec fn last_used_text(v: JsonModel) -> Seq<char> {
    if v.text_or_empty("lastUsedAt"@).len() == 0 {
        "unknown"@
    } else {
        v.text_or_empty("lastUsedAt"@)
    }
}

/// What is said of a runtime, whose image takes `physical` bytes.
pub open spec fn runtime_draft(
    id: Seq<char>,
    v: JsonModel,
    physical: u64,
    age: Option<u64>,
    unusable: bool,
    outdated: bool,
) -> Draft {
    let reported = match v.u64_at("sizeBytes"@) {
        Some(n) => n,
        None => 0,
    };
    draft(
        xcode(),
        runtime_rule(unusable, outdated),
        "simulator-runtime"@,
        id,
        platform_name(v.text_or_empty("platformIdentifier"@)) + " "@ + v.text_or_empty("version"@) + " ("@ + v.text_or_empty("build"@) + ")"@,
        if unusable {
            Safety::Safe
        } else {
            Safety::Review
        },
        larger(reported, physical),
    )
        .size(
        FindingSize {
            logical: reported,
            physical: physical,
            unique: larger(reported, physical),
            shared: 0,
            reclaimable: larger(reported, physical),
            accuracy: SizeAccuracy::Estimated,
        },
    )
        .age(age, false)
        .manual()
        .confidence(Confidence::High)
        .reason(runtime_reason(unusable, outdated))
        .evidence("Runtime ID"@, id)
        .evidence("Build"@, v.text_or_empty("build"@))
        .evidence("State"@, v.text_or_empty("state"@))
        .evidence("Last used"@, last_used_text(v))
        .copy(
        "A downloadable simulator runtime image managed by CoreSimulator."@,
        "The runtime must be downloaded again before simulators using that OS version can boot."@,
        "Review installed projects and test requirements. Hokori uses `simctl runtime delete`, never raw file deletion."@,
    )
        .action(
        "delete-runtime"@,
        seq!["xcrun"@, "simctl"@, "runtime"@, "delete"@, id],
        true,
        true,
    )
}

/// Whether the service cannot use a runtime.
pub open spec fn is_unusable(id: Seq<char>, v: JsonModel, sets: RuntimeSetsModel) -> bool {
    sets.unusable.contains(id) || v.text_or_empty("state"@) != "Ready"@
}

/// The finding for a runtime that may be deleted, is not needed, and is
/// unusable, outdated or unused.
pub open spec fn runtime_row(
    sets: RuntimeSetsModel,
    settings: ProviderSettings,
    now: u64,
) -> spec_fn(((Seq<char>, JsonModel), u64)) -> Option<FindingModel> {
    |x: ((Seq<char>, JsonModel), u64)|
    {
        let id = x.0.0;
        let v = x.0.1;
        let age = iso_age(v.text_or_empty("lastUsedAt"@), now);
        let unusable = is_unusable(id, v, sets);
        let outdated = sets.outdated.contains(id);
        let unused = sets.unused.contains(id) || aged(age, settings.min_age_days);
        if v.bool_at("deletable"@) != Some(true) || is_needed(v, sets) || (!unusable && !outdated
                && !unused) {
            None
        } else {
            Some(runtime_draft(id, v, x.1, age, unusable, outdated).build())
        }
    }
}

fn runtime_finding(
    id: &str,
    v: &Json,
    physical: u64,
    sets: &RuntimeSets,
    settings: &ProviderSettings,
    now: u64,
) -> (r: Option<Finding>)
    ensures
        view_of(r) == runtime_row(sets@, *settings, now)(((id@, v@), physical)),
{
    let deletable = match v.bool("deletable") {
        Some(b) => b,
        None => false,
    };
    if !deletable || needed(v, sets) {
        return None;
    }
    let state = v.string("state");
    let build = v.string("build");
    let last_used = v.string("lastUsedAt");
    let age = age_from_iso8601(last_used.as_str(), now);
    let unusable = text::among(id, &sets.unusable) || !same(state.as_str(), "Ready");
    let outdated = text::among(id, &sets.outdated);
    let unused = text::among(id, &sets.unused) || is_aged(age, settings.min_age_days);
    if !unusable && !outdated && !unused {
        return None;
    }
    let reported: u64 = match v.u64("sizeBytes") {
        Some(n) => n,
        None => 0,
    };
    let most: u64 = if reported > physical {
        reported
    } else {
        physical
    };
    let rule: &str = if unusable {
        "xcode-unusable-runtime"
    } else if outdated {
        "xcode-outdated-runtime"
    } else {
        "xcode-unused-runtime"
    };
    let reason: &str = if unusable {
        "CoreSimulator marks this runtime unusable."
    } else if outdated {
        "A newer runtime build exists for the same platform version."
    } else {
        "CoreSimulator reports that this runtime has not been used inside the configured age window."
    };
    let shown: &str = if last_used.as_str().is_empty() {
        "unknown"
    } else {
        last_used.as_str()
    };
    Some(ProviderFinding::object(
            metadata(),
            rule,
            "simulator-runtime",
            id,
            platform_label(v.string("platformIdentifier").as_str()).to_owned().concat(" ").concat(v.string("version").as_str()).concat(" (").concat(build.as_str()).concat(")").as_str(),
            if unusable {
                Safety::Safe
            } else {
                Safety::Review
            },
            most,
        )
            .size(
            FindingSize {
                logical: reported,
                physical: physical,
                unique: most,
                shared: 0,
                reclaimable: most,
                accuracy: SizeAccuracy::Estimated,
            },
        )
            .age(age, false)
            .manual()
            .confidence(Confidence::High)
            .reason(reason)
            .evidence("Runtime ID", id)
            .evidence("Build", build.as_str())
            .evidence("State", state.as_str())
            .evidence("Last used", shown)
            .copy(
            "A downloadable simulator runtime image managed by CoreSimulator.",
            "The runtime must be downloaded again before simulators using that OS version can boot.",
            "Review installed projects and test requirements. Hokori uses `simctl runtime delete`, never raw file deletion.",
        )
            .action(
            "delete-runtime",
            text::texts5("xcrun", "simctl", "runtime", "delete", id),
            true,
            true,
        )
            .build())
}

/// The paths of the images of runtimes, in the order of the list.
pub open spec fn image_path() -> spec_fn((Seq<char>, JsonModel)) -> Option<Seq<char>> {
    |e: (Seq<char>, JsonModel)| Some(e.1.text_or_empty("path"@))
}

/// The findings for runtimes; `physical` says what the image of each takes.
pub fn runtime_findings(
    runtimes: &Json,
    physical: &Vec<u64>,
    sets: &RuntimeSets,
    settings: &ProviderSettings,
    now: u64,
) -> (r: Vec<Finding>)
    ensures
        views(r@) == collect_some(
            paired(runtimes@.entries(), physical@),
            runtime_row(sets@, *settings, now),
        ),
{
    let ghost f = runtime_row(sets@, *settings, now);
    let mut out: Vec<Finding> = Vec::new();
    assert(views(out@) =~= Seq::<FindingModel>::empty());
    if let Some(entries) = runtimes.as_object() {
        let ghost all = entry_models(entries@);
        let ghost pairs = paired(all, physical@);
        let limit: usize = if entries.len() < physical.len() {
            entries.len()
        } else {
            physical.len()
        };
        let mut i: usize = 0;
        while i < limit
            invariant
                i <= limit,
                limit <= entries@.len(),
                limit <= physical@.len(),
                limit == pairs.len(),
                all == entry_models(entries@),
                pairs == paired(all, physical@),
                f == runtime_row(sets@, *settings, now),
                views(out@) == collect_some(pairs.take(i as int), f),
            decreases limit - i,
        {
            proof {
                lemma_collect_step(pairs, i as int, f);
            }
            assert(pairs[i as int] == ((entries@[i as int].0@, entries@[i as int].1@), physical@[i as int]));
            if let Some(x) = runtime_finding(
                entries[i].0.as_str(),
                &entries[i].1,
                physical[i],
                sets,
                settings,
                now,
            ) {
                out.push(x);
            }
            i += 1;
        }
        assert(pairs.take(i as int) =~= pairs);
    } else {
        assert(paired(runtimes@.entries(), physical@) =~= Seq::empty());
    }
    out
}

/// The images of runtimes, whose sizes are to be looked up.
pub fn runtime_images(runtimes: &Json) -> (r: Vec<String>)
    ensures
        views(r@) == collect_some(runtimes@.entries(), image_path()),
{
    let ghost f = image_path();
    let mut out: Vec<String> = Vec::new();
    assert(views(out@) =~= Seq::<Seq<char>>::empty());
    if let Some(entries) = runtimes.as_object() {
        let ghost all = entry_models(entries@);
        let mut i: usize = 0;
        while i < entries.len()
            invariant
                i <= entries@.len(),
                all == entry_models(entries@),
                f == image_path(),
                views(out@) == collect_some(all.take(i as int), f),
            decreases entries@.len() - i,
        {
            proof {
                lemma_collect_step(all, i as int, f);
            }
            assert(all[i as int] == (entries@[i as int].0@, entries@[i as int].1@));
            out.push(entries[i].1.string("path"));
            i += 1;
        }
        assert(all.take(i as int) =~= all);
    }
    out
}

// ---- generated caches of runtimes ----

/// Where the cache of a runtime may lie; the first of these that is a directory
/// counts.
pub fn dyld_places(bundle: &str) -> (r: Vec<String>)
    ensures
        views(r@) == seq![
            paths::below(bundle@, "Contents/Resources/RuntimeRoot/System/Library/dyld"@),
            paths::below(bundle@, "System/Library/dyld"@),
        ],
{
    let r = vec![
        paths::join(bundle, "Contents/Resources/RuntimeRoot/System/Library/dyld"),
        paths::join(bundle, "System/Library/dyld"),
    ];
    assert(views(r@) =~= seq![
            paths::below(bundle@, "Contents/Resources/RuntimeRoot/System/Library/dyld"@),
            paths::below(bundle@, "System/Library/dyld"@),
    ]);
    r
}

/// What is said of the cache of a runtime.
pub open spec fn dyld_draft(id: Seq<char>, v: JsonModel, bytes: u64) -> Draft {
    draft(
        xcode(),
        "xcode-runtime-dyld-cache"@,
        "simulator-runtime"@,
        id,
        platform_name(v.text_or_empty("platformIdentifier"@)) + " "@ + v.text_or_empty("version"@) + " dyld cache"@,
        Safety::Review,
        bytes,
    )
        .manual()
        .reason(
        "A generated dyld shared cache is present for this retained runtime."@,
    )
        .evidence("Build"@, v.text_or_empty("build"@))
        .copy(
        "A generated simulator dyld shared cache used to speed application launch."@,
        "CoreSimulator must rebuild the cache before the next simulator launch."@,
        "Remove only when disk pressure is high and no simulator using this runtime is booted."@,
    )
        .action(
        "remove-dyld-cache"@,
        seq!["xcrun"@, "simctl"@, "runtime"@, "dyld_shared_cache"@, "remove"@, id],
        true,
        true,
    )
}

/// The bytes from which the cache of a runtime is worth a finding.
pub const DYLD_FLOOR: u64 = 0x640_0000;

/// The finding for the cache of a runtime that is ready and not needed; `bytes`
/// is what the cache takes where there is one.
pub open spec fn dyld_row(sets: RuntimeSetsModel) -> spec_fn(
    ((Seq<char>, JsonModel), Option<u64>),
) -> Option<FindingModel> {
    |x: ((Seq<char>, JsonModel), Option<u64>)|
    {
        let v = x.0.1;
        if v.text_or_empty("state"@) != "Ready"@ || is_needed(v, sets) || x.1 is None || x.1->0
        < 100 * 1024 * 1024 {
            None
        } else {
            Some(dyld_draft(x.0.0, v, x.1->0).build())
        }
    }
}

fn dyld_finding(id: &str, v: &Json, size: Option<u64>, sets: &RuntimeSets) -> (r: Option<Finding>)
    ensures
        view_of(r) == dyld_row(sets@)(((id@, v@), size)),
{
    if !same(v.string("state").as_str(), "Ready") || needed(v, sets) {
        return None;
    }
    let bytes: u64 = match size {
        Some(n) => n,
        None => {
            return None;
        },
    };
    if bytes < DYLD_FLOOR {
        return None;
    }
    Some(ProviderFinding::object(
            metadata(),
            "xcode-runtime-dyld-cache",
            "simulator-runtime",
            id,
            platform_label(v.string("platformIdentifier").as_str()).to_owned().concat(" ").concat(v.string("version").as_str()).concat(" dyld cache").as_str(),
            Safety::Review,
            bytes,
        )
            .manual()
            .reason(
            "A generated dyld shared cache is present for this retained runtime.",
        )
            .evidence("Build", v.string("build").as_str())
            .copy(
            "A generated simulator dyld shared cache used to speed application launch.",
            "CoreSimulator must rebuild the cache before the next simulator launch.",
            "Remove only when disk pressure is high and no simulator using this runtime is booted.",
        )
            .action(
            "remove-dyld-cache",
            text::texts6("xcrun", "simctl", "runtime", "dyld_shared_cache", "remove", id),
            true,
            true,
        )
            .build())
}

/// The findings for the caches of runtimes; `bytes` says what that of each
/// takes, where it has one.
pub fn dyld_cache_findings(runtimes: &Json, bytes: &Vec<Option<u64>>, sets: &RuntimeSets) -> (r:
    Vec<Finding>)
    ensures
        views(r@) == collect_some(paired(runtimes@.entries(), bytes@), dyld_row(sets@)),
{
    let ghost f = dyld_row(sets@);
    let mut out: Vec<Finding> = Vec::new();
    assert(views(out@) =~= Seq::<FindingModel>::empty());
    if let Some(entries) = runtimes.as_object() {
        let ghost all = entry_models(entries@);
        let ghost pairs = paired(all, bytes@);
        let limit: usize = if entries.len() < bytes.len() {
            entries.len()
        } else {
            bytes.len()
        };
        let mut i: usize = 0;
        while i < limit
            invariant
                i <= limit,
                limit <= entries@.len(),
                limit <= bytes@.len(),
                limit == pairs.len(),
                all == entry_models(entries@),
                pairs == paired(all, bytes@),
                f == dyld_row(sets@),
                views(out@) == collect_some(pairs.take(i as int), f),
            decreases limit - i,
        {
            proof {
                lemma_collect_step(pairs, i as int, f);
            }
            assert(pairs[i as int] == ((entries@[i as int].0@, entries@[i as int].1@), bytes@[i as int]));
            if let Some(x) = dyld_finding(entries[i].0.as_str(), &entries[i].1, bytes[i], sets) {
                out.push(x);
            }
            i += 1;
        }
        assert(pairs.take(i as int) =~= pairs);
    } else {
        assert(paired(runtimes@.entries(), bytes@) =~= Seq::empty());
    }
    out
}

// ---- storage that no runtime refers to ----

/// The paths that a runtime refers to.
pub open spec fn paths_of_runtime() -> spec_fn((Seq<char>, JsonModel)) -> Seq<Seq<char>> {
    |e: (Seq<char>, JsonModel)|
    text::nonempty(
        seq![
            e.1.text_or_empty("path"@),
            e.1.text_or_empty("mountPath"@),
            e.1.text_or_empty("runtimeBundlePath"@),
        ],
    )
}

/// The paths that the listed runtimes refer to.
pub open spec fn known_in(runtimes: JsonModel) -> Seq<Seq<char>> {
    flatten_map(runtimes.entries(), paths_of_runtime())
}

fn runtime_paths(v: &Json) -> (r: Vec<String>)
    ensures
        forall|k: Seq<char>| views(r@) == #[trigger] paths_of_runtime()((k, v@)),
{
    let a = v.string("path");
    let b = v.string("mountPath");
    let c = v.string("runtimeBundlePath");
    let ghost s = seq![a@, b@, c@];
    let mut out: Vec<String> = Vec::new();
    proof {
        reveal_with_fuel(collect_some, 4);
        assert(s.drop_last() =~= seq![a@, b@]);
        assert(s.drop_last().drop_last() =~= seq![a@]);
        assert(s.drop_last().drop_last().drop_last() =~= Seq::<Seq<char>>::empty());
    }
    assert(views(out@) =~= Seq::<Seq<char>>::empty());
    if !a.as_str().is_empty() {
        out.push(a);
    }
    if !b.as_str().is_empty() {
        out.push(b);
    }
    if !c.as_str().is_empty() {
        out.push(c);
    }
    assert(views(out@) =~= text::nonempty(s));
    out
}

/// The paths that the listed runtimes refer to.
pub fn known_paths(runtimes: &Json) -> (r: Vec<String>)
    ensures
        views(r@) == known_in(runtimes@),
{
    let ghost f = paths_of_runtime();
    let mut out: Vec<String> = Vec::new();
    assert(views(out@) =~= Seq::<Seq<char>>::empty());
    if let Some(entries) = runtimes.as_object() {
        let ghost all = entry_models(entries@);
        let mut i: usize = 0;
        while i < entries.len()
            invariant
                i <= entries@.len(),
                all == entry_models(entries@),
                f == paths_of_runtime(),
                views(out@) == flatten_map(all.take(i as int), f),
            decreases entries@.len() - i,
        {
            proof {
                lemma_flatten_step(all, i as int, f);
            }
            assert(all[i as int] == (entries@[i as int].0@, entries@[i as int].1@));
            let mut more = runtime_paths(&entries[i].1);
            assert(views(more@) == f((entries@[i as int].0@, entries@[i as int].1@)));
            proof {
                lemma_views_concat(out@, more@);
            }
            out.append(&mut more);
            i += 1;
        }
        assert(all.take(i as int) =~= all);
    }
    out
}

/// Whether an image is one that a runtime refers to.
pub open spec fn registered_image(path: Seq<char>, known: Seq<Seq<char>>) -> bool {
    exists|i: int| 0 <= i < known.len() && equal_paths(path, #[trigger] known[i])
}

/// Whether a volume holds, or lies in, what a runtime refers to.
pub open spec fn registered_volume(path: Seq<char>, known: Seq<Seq<char>>) -> bool {
    exists|i: int|
    0 <= i < known.len() && (under(#[trigger] known[i], path) || under(path, known[i]))
}

/// An image that is an old file and that no runtime refers to.
pub fn orphaned_image(
    path: &str,
    is_file: bool,
    age: Option<u64>,
    known: &Vec<String>,
    settings: &ProviderSettings,
) -> (r: bool)
    ensures
        r == (is_file && !registered_image(path@, views(known@)) && aged(
                age,
                settings.min_age_days,
        )),
{
    let ghost all = views(known@);
    proof {
        assert forall|i: int| 0 <= i < known@.len() implies #[trigger] known@[i]@ == all[i] by {}
        let a = exists|i: int| 0 <= i < known@.len() && equal_paths(path@, #[trigger] known@[i]@);
        if a {
            let i = choose|i: int| 0 <= i < known@.len() && equal_paths(path@, #[trigger] known@[i]@);
            assert(equal_paths(path@, all[i]));
        }
        if registered_image(path@, all) {
            let i = choose|i: int| 0 <= i < all.len() && equal_paths(path@, #[trigger] all[i]);
            assert(equal_paths(path@, known@[i]@));
        }
    }
    is_file && !paths::among_paths(path, known) && is_aged(age, settings.min_age_days)
}

/// A volume that is an old directory and that no runtime refers to.
pub fn orphaned_volume(
    path: &str,
    is_dir: bool,
    age: Option<u64>,
    known: &Vec<String>,
    settings: &ProviderSettings,
) -> (r: bool)
    ensures
        r == (is_dir && !registered_volume(path@, views(known@)) && aged(
                age,
                settings.min_age_days,
        )),
{
    let ghost all = views(known@);
    let mut i: usize = 0;
    while i < known.len()
        invariant
            i <= known@.len(),
            all == views(known@),
            forall|j: int|
            0 <= j < i ==> !under(#[trigger] all[j], path@) && !under(path@, all[j]),
        decreases known@.len() - i,
    {
        assert(all[i as int] == known@[i as int]@);
        if paths::starts_with(known[i].as_str(), path) || paths::starts_with(
            path,
            known[i].as_str(),
        ) {
            return false;
        }
        i += 1;
    }
    is_dir && is_aged(age, settings.min_age_days)
}

/// What is said of storage that no runtime refers to.
pub open spec fn orphan_draft(path: Seq<char>, bytes: u64) -> Draft {
    draft(
        xcode(),
        "xcode-orphaned-runtime-storage"@,
        "simulator-runtime"@,
        path,
        "Unregistered CoreSimulator storage "@ + name_of(path),
        Safety::Protected,
        bytes,
    )
        .filesystem_path(path)
        .manual()
        .report_only()
        .confidence(Confidence::High)
        .reason(
        "No runtime returned by `simctl runtime list` references this image or mounted volume."@,
    )
        .evidence("Path"@, path)
        .copy(
        "A CoreSimulator image or mounted runtime volume not registered in the current runtime inventory."@,
        "Raw deletion could damage a runtime being staged or managed by another Xcode installation."@,
        "Report-only. Inspect with `simctl runtime scan-and-mount` and Xcode settings before taking action."@,
    )
}

/// The finding for unregistered storage that is large enough.
pub open spec fn orphan_row(settings: ProviderSettings) -> spec_fn((Seq<char>, u64)) -> Option<
FindingModel,
> {
    |x: (Seq<char>, u64)|
    if x.1 < settings.min_size_bytes {
        None
    } else {
        Some(orphan_draft(x.0, x.1).build())
    }
}

fn orphan_finding(path: &str, bytes: u64, settings: &ProviderSettings) -> (r: Option<Finding>)
    ensures
        view_of(r) == orphan_row(*settings)((path@, bytes)),
{
    if bytes < settings.min_size_bytes {
        return None;
    }
    Some(ProviderFinding::object(
            metadata(),
            "xcode-orphaned-runtime-storage",
            "simulator-runtime",
            path,
            "Unregistered CoreSimulator storage ".to_owned().concat(paths::name_or_empty(path).as_str()).as_str(),
            Safety::Protected,
            bytes,
        )
            .filesystem_path(path)
            .manual()
            .report_only()
            .confidence(Confidence::High)
            .reason(
            "No runtime returned by `simctl runtime list` references this image or mounted volume.",
        )
            .evidence("Path", path)
            .copy(
            "A CoreSimulator image or mounted runtime volume not registered in the current runtime inventory.",
            "Raw deletion could damage a runtime being staged or managed by another Xcode installation.",
            "Report-only. Inspect with `simctl runtime scan-and-mount` and Xcode settings before taking action.",
        )
            .build())
}

/// The findings for unregistered storage; `bytes` says what each takes.
pub fn orphaned_runtime_storage_findings(candidates: &Vec<String>, bytes: &Vec<u64>, settings: &ProviderSettings) -> (r: Vec<Finding>)
    ensures
        views(r@) == collect_some(paired(views(candidates@), bytes@), orphan_row(*settings)),
{
    let ghost f = orphan_row(*settings);
    let ghost pairs = paired(views(candidates@), bytes@);
    let mut out: Vec<Finding> = Vec::new();

    let n: usize = candidates.len();
    let limit: usize = if n < bytes.len() {
        n
    } else {
        bytes.len()
    };
    let mut i: usize = 0;
    while i < limit
        invariant
            i <= limit,
            limit <= bytes@.len(),
            limit == pairs.len(),
            limit <= candidates@.len(),
            pairs == paired(views(candidates@), bytes@),
            f == orphan_row(*settings),
            views(out@) == collect_some(pairs.take(i as int), f),
        decreases limit - i,
    {
        proof {
            lemma_collect_step(pairs, i as int, f);
        }
        assert(pairs[i as int] == (candidates@[i as int]@, bytes@[i as int]));
        if let Some(x) = orphan_finding(candidates[i].as_str(), bytes[i], settings) {
            out.push(x);
        }
        i += 1;
    }
    assert(pairs.take(i as int) =~= pairs);
    out
}

// ---- actions ----

/// What stands in the way of an action while other programs run.
pub open spec fn running_obstacle(action: Option<Seq<char>>, running: Seq<Seq<char>>) -> Option<
RevalidationModel,
> {
    match action {
        Some(a) => if a == "trash-xcode-path"@ && xcode_runs(running) {
            Some(
                RevalidationModel::Blocked(
                    "Xcode is now running; close it before removing developer data."@,
                ),
            )
        } else if a == "swift-purge-cache"@ && exists|i: int|
        0 <= i < running.len() && text::occurs(#[trigger] running[i], "swift package"@) {
            Some(RevalidationModel::Blocked("A Swift package command is currently running."@))
        } else {
            None
        },
        None => None,
    }
}

/// A second look at the running programs before an action.
pub fn recheck_running(finding: &Finding, running: &Vec<String>) -> (r: Option<Revalidation>)
    ensures
        view_of(r) == running_obstacle(
            match finding.native_action {
                Some(a) => Some(a.action_id@),
                None => None,
            },
            views(running@),
        ),
{
    if let Some(a) = &finding.native_action {
        let id = a.action_id.as_str();
        if same(id, "trash-xcode-path") && any_contains(running, "/Xcode.app/") {
            return Some(
                Revalidation::Blocked(
                    "Xcode is now running; close it before removing developer data.".to_owned(),
                ),
            );
        }
        if same(id, "swift-purge-cache") && any_contains(running, "swift package") {
            return Some(
                Revalidation::Blocked("A Swift package command is currently running.".to_owned()),
            );
        }
    }
    None
}

/// The finding stands where a fresh scan finds it again.
pub fn revalidate(refreshed: &Vec<Finding>, finding: &Finding) -> (r: Revalidation)
    ensures
        r@ == revalidated(refreshed@, finding.stable_id@, "Simulator state changed and this object is no longer eligible."@),
{
    revalidate_against(refreshed, finding, "Simulator state changed and this object is no longer eligible.")
}

/// Whether a path lies in one of the directories that may be trashed.
pub open spec fn is_allowed(home: Seq<char>, path: Seq<char>) -> bool {
    ||| under(path, paths::below(home, "Library/Developer/Xcode/DerivedData"@))
    ||| under(path, paths::below(home, "Library/Developer/Xcode/Archives"@))
    ||| under(path, paths::below(home, "Library/Developer/Xcode/iOS DeviceSupport"@))
}

pub fn allowed_xcode_path(home: &str, path: &str) -> (r: bool)
    ensures
        r == is_allowed(home@, path@),
{
    paths::starts_with(path, paths::join(home, "Library/Developer/Xcode/DerivedData").as_str())
        || paths::starts_with(path, paths::join(home, "Library/Developer/Xcode/Archives").as_str())
        || paths::starts_with(
        path,
        paths::join(home, "Library/Developer/Xcode/iOS DeviceSupport").as_str(),
    )
}

/// How an action is carried out.
pub enum XcodeStep {
    /// By a command.
    Command(CommandPolicy, Vec<String>),
    /// By removing a path.
    Remove(String),
}

/// Whether a command is the one for an action on an object.
pub open spec fn action_command(
    action: Seq<char>,
    object: Seq<char>,
    p: CommandPolicy,
    args: Seq<Seq<char>>,
) -> bool {
    if action == "delete-device"@ {
        is_policy(
            p,
            "simctl-delete-device"@,
            xcrun_executables(),
            true,
            false,
            seq![Arg::Is("simctl"), Arg::Is("delete"), Arg::Token],
        ) && args == seq!["simctl"@, "delete"@, object]
    } else if action == "delete-runtime"@ {
        is_policy(
            p,
            "simctl-delete-runtime"@,
            xcrun_executables(),
            true,
            false,
            seq![Arg::Is("simctl"), Arg::Is("runtime"), Arg::Is("delete"), Arg::Token],
        ) && args == seq!["simctl"@, "runtime"@, "delete"@, object]
    } else if action == "remove-dyld-cache"@ {
        is_policy(
            p,
            "simctl-remove-dyld-cache"@,
            xcrun_executables(),
            true,
            false,
            seq![Arg::Is("simctl"), Arg::Is("runtime"), Arg::Is("dyld_shared_cache"), Arg::Is("remove"), Arg::Token],
        ) && args == seq![
            "simctl"@,
            "runtime"@,
            "dyld_shared_cache"@,
            "remove"@,
            object,
        ]
    } else {
        action == "swift-purge-cache"@ && is_policy(
            p,
            "swift-package-purge-cache"@,
            swift_executables(),
            true,
            false,
            seq![Arg::Is("package"), Arg::Is("purge-cache")],
        ) && args == seq![
            "package"@,
            "purge-cache"@,
        ]
    }
}

/// What keeps an action from being carried out.
pub open spec fn action_error(action: Option<(Seq<char>, Seq<char>)>, home: Option<Seq<char>>) -> Option<
Seq<char>,
> {
    match action {
        None => Some("Simulator action missing"@),
        Some((id, object)) => if id == "delete-device"@ || id == "delete-runtime"@ || id
            == "remove-dyld-cache"@ || id == "swift-purge-cache"@ {
            None
        } else if id == "trash-xcode-path"@ {
            match home {
                None => Some("home directory unavailable"@),
                Some(h) => if is_allowed(h, object) {
                    None
                } else {
                    Some("Xcode path is outside the allowed storage roots"@)
                },
            }
        } else {
            Some("unknown Simulator action "@ + id)
        },
    }
}

pub open spec fn action_of(finding: Finding) -> Option<(Seq<char>, Seq<char>)> {
    match finding.native_action {
        Some(a) => Some((a.action_id@, a.object_id@)),
        None => None,
    }
}

/// How the action of a finding is carried out.
pub fn plan_action(finding: &Finding, home: &Option<String>) -> (r: Result<XcodeStep, String>)
    ensures
        match r {
            Ok(XcodeStep::Command(p, args)) => action_error(action_of(*finding), view_of(*home)) is None
                && action_command(
                finding@.native_action->0.action_id,
                finding@.native_action->0.object_id,
                p,
                views(args@),
            ),
            Ok(XcodeStep::Remove(path)) => action_error(action_of(*finding), view_of(*home)) is None
                && action_of(*finding) == Some(("trash-xcode-path"@, path@)) && *home is Some
                && is_allowed(home->0@, path@),
            Err(e) => action_error(action_of(*finding), view_of(*home)) == Some(e@),
        },
{
    proof {
        reveal_strlit("trash-xcode-path");
        reveal_strlit("delete-device");
        reveal_strlit("delete-runtime");
        reveal_strlit("remove-dyld-cache");
        reveal_strlit("swift-purge-cache");
        assert("trash-xcode-path"@[0] == 't');
        assert("delete-device"@[0] == 'd');
        assert("delete-runtime"@[0] == 'd');
        assert("remove-dyld-cache"@[0] == 'r');
        assert("swift-purge-cache"@[0] == 's');
    }
    match &finding.native_action {
        None => Err("Simulator action missing".to_owned()),
        Some(a) => {
            let id = a.action_id.as_str();
            let object = a.object_id.as_str();
            if same(id, "delete-device") {
                Ok(XcodeStep::Command(simctl_delete_device(), text::texts3("simctl", "delete", object)))
            } else if same(id, "delete-runtime") {
                Ok(
                    XcodeStep::Command(
                        simctl_delete_runtime(),
                        text::texts4("simctl", "runtime", "delete", object),
                    ),
                )
            } else if same(id, "remove-dyld-cache") {
                Ok(
                    XcodeStep::Command(
                        simctl_remove_dyld(),
                        text::texts5("simctl", "runtime", "dyld_shared_cache", "remove", object),
                    ),
                )
            } else if same(id, "swift-purge-cache") {
                Ok(XcodeStep::Command(swift_purge_cache(), text::texts2("package", "purge-cache")))
            } else if same(id, "trash-xcode-path") {
                match home {
                    None => Err("home directory unavailable".to_owned()),
                    Some(h) => if allowed_xcode_path(h.as_str(), object) {
                        Ok(XcodeStep::Remove(object.to_owned()))
                    } else {
                        Err("Xcode path is outside the allowed storage roots".to_owned())
                    },
                }
            } else {
                Err("unknown Simulator action ".to_owned().concat(id))
            }
        },
    }
}

/// What a finding's action is reported to have done, once it has run.
pub fn executed(finding: &Finding) -> (r: Option<ProviderExecution>)
    ensures
        match (finding.native_action, r) {
            (None, None) => true,
            (Some(a), Some(e)) => e.deleted == 1 && e.freed_bytes == finding.bytes && e.message@ == (
                if a.action_id@ == "trash-xcode-path"@ {
                    "Removed "@ + a.object_id@ + "."@
                } else {
                    "Simulator action "@ + a.action_id@ + " completed."@
            }),
            _ => false,
        },
{
    match &finding.native_action {
        Some(a) => {
            let message = if same(a.action_id.as_str(), "trash-xcode-path") {
                "Removed ".to_owned().concat(a.object_id.as_str()).concat(".")
            } else {
                "Simulator action ".to_owned().concat(a.action_id.as_str()).concat(" completed.")
            };
            Some(completed(finding, message))
        },
        None => None,
    }
}

// ---- laws ----

/// A runtime of which a device is booted, or whose build the installed tools
/// choose, is never offered, nor is its cache.
pub proof fn law_needed_runtimes_stay(
    sets: RuntimeSetsModel,
    settings: ProviderSettings,
    now: u64,
    id: Seq<char>,
    v: JsonModel,
    physical: u64,
    cache: Option<u64>,
)
    requires
        is_needed(v, sets),
    ensures
        runtime_row(sets, settings, now)(((id, v), physical)) is None,
        dyld_row(sets)(((id, v), cache)) is None,
{
}

/// Storage that no runtime refers to is reported and never acted on.
pub proof fn law_orphans_are_report_only(path: Seq<char>, bytes: u64)
    ensures
        orphan_draft(path, bytes).build().report_only,
        orphan_draft(path, bytes).build().native_action is None,
        orphan_draft(path, bytes).build().safety == Safety::Protected,
{
}

/// While Xcode runs its build data are in use, and so never for bulk selection.
pub proof fn law_build_data_in_use(settings: ProviderSettings, s: StoredModel)
    ensures
        match derived_row(true, settings)(s) {
            Some(f) => f.in_use && f.manual_only,
            None => true,
        },
{
}

/// A command for an action is one that its own policy accepts, where an object that
/// it names is a name that can be handed to a tool.
pub proof fn law_planned_commands_are_admitted(
    action: Seq<char>,
    object: Seq<char>,
    p: CommandPolicy,
    args: Seq<Seq<char>>,
)
    requires
        action_command(action, object, p, args),
        action == "swift-purge-cache"@ || is_token(object),
    ensures
        admits(p.args@, args),
{
    reveal_strlit("swift-purge-cache");
    reveal_strlit("delete-device");
    reveal_strlit("delete-runtime");
    reveal_strlit("remove-dyld-cache");
    assert("swift-purge-cache"@[0] == 's');
    assert("delete-device"@[0] == 'd');
    assert("delete-runtime"@[0] == 'd');
    assert("remove-dyld-cache"@[0] == 'r');
}

/// Build data is reported exactly where it is a directory, at least a week and a
/// quarter of the age that was asked for old, and holds what was asked for.
pub proof fn law_old_build_data_is_reported(running: bool, settings: ProviderSettings, s: StoredModel)
    ensures
        derived_row(running, settings)(s) is Some <==> s.is_dir && s.age is Some && s.age->0 >= 7
            && s.age->0 >= settings.min_age_days / 4 && s.bytes >= settings.min_size_bytes,
        derived_row(running, settings)(s) matches Some(f) ==> f.bytes == s.bytes && f.path == s.path
            && f.age_days == s.age && (f.in_use <==> running) && (f.manual_only <==> running) && f.safety
            == Safety::Safe,
{
}

/// An archive is reported exactly where it is at least sixty days old and as old as
/// was asked for, and holds what was asked for; it is never selected in bulk.
pub proof fn law_old_archives_are_reported(settings: ProviderSettings, s: StoredModel)
    ensures
        archive_row(settings)(s) is Some <==> s.age is Some && s.age->0 >= 60 && s.age->0
            >= settings.min_age_days && s.bytes >= settings.min_size_bytes,
        archive_row(settings)(s) matches Some(f) ==> f.bytes == s.bytes && f.path == s.path && f.manual_only
            && f.safety == Safety::Review,
{
}

/// Device support is reported exactly where it is a directory, old enough and large
/// enough; it is never selected in bulk.
pub proof fn law_old_device_support_is_reported(settings: ProviderSettings, s: StoredModel)
    ensures
        support_row(settings)(s) is Some <==> s.is_dir && s.age is Some && s.age->0 >= settings.min_age_days
            && s.bytes >= settings.min_size_bytes,
        support_row(settings)(s) matches Some(f) ==> f.bytes == s.bytes && f.path == s.path && f.manual_only,
{
}

/// The cache of packages is reported exactly where it holds what was asked for, and
/// acted on only through its own tool.
pub proof fn law_package_cache_is_reported(
    bytes: u64,
    existing: Seq<Seq<char>>,
    purge: bool,
    settings: ProviderSettings,
)
    ensures
        swift_rows(bytes, existing, purge, settings).len() == if bytes >= settings.min_size_bytes {
            1int
        } else {
            0
        },
        bytes >= settings.min_size_bytes ==> {
            let f = swift_rows(bytes, existing, purge, settings)[0];
            &&& f.bytes == bytes
            &&& f.native_action is Some <==> purge
            &&& f.report_only <==> !purge
        },
{
}

/// A runtime is reported exactly where it can be deleted, nothing that runs or builds
/// needs it, and it is unusable, outdated, or not used as long as was asked for.
pub proof fn law_runtimes_are_reported(
    sets: RuntimeSetsModel,
    settings: ProviderSettings,
    now: u64,
    id: Seq<char>,
    v: JsonModel,
    physical: u64,
)
    ensures
        ({
            let age = iso_age(v.text_or_empty("lastUsedAt"@), now);
            let unusable = sets.unusable.contains(id) || v.text_or_empty("state"@) != "Ready"@;
            runtime_row(sets, settings, now)(((id, v), physical)) is Some <==> v.bool_at("deletable"@)
                == Some(true) && !sets.booted.contains(v.text_or_empty("runtimeIdentifier"@))
                && !sets.preferred.contains(v.text_or_empty("build"@)) && (unusable
                || sets.outdated.contains(id) || sets.unused.contains(id) || (age is Some && age->0
                >= settings.min_age_days))
        }),
        runtime_row(sets, settings, now)(((id, v), physical)) matches Some(f) ==> {
            let unusable = sets.unusable.contains(id) || v.text_or_empty("state"@) != "Ready"@;
            &&& f.bytes >= physical
            &&& f.manual_only
            &&& f.safety == if unusable {
                Safety::Safe
            } else {
                Safety::Review
            }
            &&& f.native_action is Some && f.native_action->0.object_id == id
        },
{
}

/// The cache of a runtime is reported exactly where the runtime is ready, nothing
/// needs it, and the cache holds 100 MiB.
pub proof fn law_runtime_caches_are_reported(
    sets: RuntimeSetsModel,
    id: Seq<char>,
    v: JsonModel,
    cache: Option<u64>,
)
    ensures
        dyld_row(sets)(((id, v), cache)) is Some <==> v.text_or_empty("state"@) == "Ready"@
            && !sets.booted.contains(v.text_or_empty("runtimeIdentifier"@)) && !sets.preferred.contains(
            v.text_or_empty("build"@),
        ) && cache is Some && cache->0 >= 104_857_600,
        dyld_row(sets)(((id, v), cache)) matches Some(f) ==> f.bytes == cache->0,
{
}

/// A runtime is needed where one of its devices is booted.
pub proof fn law_booted_runtimes_are_found(devices: JsonModel, i: int, k: int)
    requires
        0 <= i < device_entries(devices).len(),
        0 <= k < device_entries(devices)[i].1.items().len(),
        device_entries(devices)[i].1.items()[k].text_or_empty("state"@) == "Booted"@,
    ensures
        booted_in(devices).contains(device_entries(devices)[i].0),
{
    let all = device_entries(devices);
    crate::seqs::law_collected_is_made(all, if_booted(), all[i].0);
    assert(any_booted(all[i].1.items()));
    assert(if_booted()(all[i]) == Some(all[i].0));
}

/// The builds that the installed tools choose are all found.
pub proof fn law_chosen_builds_are_found(matches: JsonModel, i: int, build: Seq<char>)
    requires
        0 <= i < matches.entries().len(),
        matches.entries()[i].1.text_at("chosenRuntimeBuild"@) == Some(build),
    ensures
        preferred_in(matches).contains(build),
{
    crate::seqs::law_collected_is_made(matches.entries(), chosen_build(), build);
}

/// A device is taken for unavailable exactly where its tool says so and it has an id.
pub proof fn law_unavailable_devices(runtime: Seq<char>, d: JsonModel)
    ensures
        if_unavailable(runtime)(d) is Some <==> d.bool_at("isAvailable"@) == Some(false) && d.text_or_empty(
            "udid"@,
        ).len() > 0,
        if_unavailable(runtime)(d) matches Some(m) ==> m.udid == d.text_or_empty("udid"@) && m.runtime
            == runtime && m.data_path == d.text_or_empty("dataPath"@),
{
}

/// Storage that no runtime is known for is reported from the size that was asked for
/// on, and never acted on.
pub proof fn law_orphans_are_reported(settings: ProviderSettings, path: Seq<char>, bytes: u64)
    ensures
        orphan_row(settings)((path, bytes)) is Some <==> bytes >= settings.min_size_bytes,
        orphan_row(settings)((path, bytes)) matches Some(f) ==> f.report_only && f.native_action is None,
{
}

/// While Xcode runs its data stays, and while a package command runs the cache of
/// packages stays; nothing else is held up.
pub proof fn law_running_tools_hold_up(action: Seq<char>, running: Seq<Seq<char>>)
    ensures
        "trash-xcode-path"@ != "swift-purge-cache"@,
        running_obstacle(Some("trash-xcode-path"@), running) is Some <==> exists|i: int|
        0 <= i < running.len() && text::occurs(#[trigger] running[i], "/Xcode.app/"@),
        running_obstacle(Some("swift-purge-cache"@), running) is Some <==> exists|i: int|
        0 <= i < running.len() && text::occurs(#[trigger] running[i], "swift package"@),
        action != "trash-xcode-path"@ && action != "swift-purge-cache"@ ==> running_obstacle(
            Some(action),
            running,
        ) is None,
        running_obstacle(None, running) is None,
{
    reveal_strlit("trash-xcode-path");
    reveal_strlit("swift-purge-cache");
    assert("trash-xcode-path"@[0] == 't' && "swift-purge-cache"@[0] == 's');
}

/// Paths are removed only in the three places that Xcode keeps such data in.
pub proof fn law_places_of_xcode(home: Seq<char>, path: Seq<char>)
    ensures
        is_allowed(home, path) <==> under(path, paths::below(home, "Library/Developer/Xcode/DerivedData"@))
            || under(path, paths::below(home, "Library/Developer/Xcode/Archives"@)) || under(
            path,
            paths::below(home, "Library/Developer/Xcode/iOS DeviceSupport"@),
        ),
        action_error(Some(("trash-xcode-path"@, path)), Some(home)) is None ==> is_allowed(home, path),
{
    reveal_strlit("trash-xcode-path");
    reveal_strlit("delete-device");
    reveal_strlit("delete-runtime");
    reveal_strlit("remove-dyld-cache");
    reveal_strlit("swift-purge-cache");
    assert("trash-xcode-path"@[0] == 't' && "delete-device"@[0] == 'd' && "delete-runtime"@[0] == 'd'
        && "remove-dyld-cache"@[0] == 'r' && "swift-purge-cache"@[0] == 's');
}

/// An identifier of a device has thirty-six places, with dashes at four of them and
/// hexadecimal digits at the others; it is told in upper case.
pub proof fn law_identifiers_of_devices(t: Seq<char>, i: int)
    ensures
        is_uuid(t) ==> t.len() == 36 && t[8] == '-' && t[13] == '-' && t[18] == '-' && t[23] == '-',
        is_uuid(t) && 0 <= i < 36 && i != 8 && i != 13 && i != 18 && i != 23 ==> is_hex(t[i]),
        t.len() == 36 && t[8] == '-' && t[13] == '-' && t[18] == '-' && t[23] == '-' && (forall|j: int|
            0 <= j < 36 && j != 8 && j != 13 && j != 18 && j != 23 ==> is_hex(#[trigger] t[j])) ==> is_uuid(t),
        if_uuid()(t) is Some <==> is_uuid(t),
        if_uuid()(t) matches Some(u) ==> u == text::uppered(t),
{
}

/// The identifiers in an output stand between characters that are neither dashes nor
/// hexadecimal digits.
pub proof fn law_identifiers_are_found(output: Seq<char>, i: int, c: char)
    ensures
        0 <= i < text::pieces(output, not_in_uuid()).len() && is_uuid(text::pieces(output, not_in_uuid())[i])
            ==> uuids_in(output).contains(text::uppered(text::pieces(output, not_in_uuid())[i])),
        not_in_uuid()(c) <==> c != '-' && !('0' <= c && c <= '9') && !('a' <= c && c <= 'f') && !('A' <= c && c <= 'F'),
{
    let p = text::pieces(output, not_in_uuid());
    if 0 <= i < p.len() && is_uuid(p[i]) {
        let u = text::uppered(p[i]);
        crate::seqs::law_collected_is_made(p, if_uuid(), u);
        assert(if_uuid()(p[i]) == Some(u));
    }
}

/// An image of a runtime is known where its path is, and a volume where one of the
/// paths lies in it or it lies in one of them.
pub proof fn law_known_storage(path: Seq<char>, known: Seq<Seq<char>>, i: int)
    ensures
        0 <= i < known.len() && equal_paths(path, known[i]) ==> registered_image(path, known),
        0 <= i < known.len() && under(known[i], path) ==> registered_volume(path, known),
        0 <= i < known.len() && under(path, known[i]) ==> registered_volume(path, known),
        (forall|j: int| 0 <= j < known.len() ==> !equal_paths(path, #[trigger] known[j])) ==> !registered_image(
            path,
            known,
        ),
        (forall|j: int| 0 <= j < known.len() ==> !under(#[trigger] known[j], path) && !under(path, known[j]))
            ==> !registered_volume(path, known),
{
}

/// The paths that runtimes tell are known, but for those that they leave empty.
pub proof fn law_paths_of_runtimes_are_known(runtimes: JsonModel, i: int, p: Seq<char>)
    requires
        0 <= i < runtimes.entries().len(),
        p.len() > 0,
        p == runtimes.entries()[i].1.text_or_empty("path"@) || p == runtimes.entries()[i].1.text_or_empty(
            "mountPath"@,
        ) || p == runtimes.entries()[i].1.text_or_empty("runtimeBundlePath"@),
    ensures
        known_in(runtimes).contains(p),
        image_path()(runtimes.entries()[i]) == Some(runtimes.entries()[i].1.text_or_empty("path"@)),
{
    let e = runtimes.entries()[i];
    let s = seq![
        e.1.text_or_empty("path"@),
        e.1.text_or_empty("mountPath"@),
        e.1.text_or_empty("runtimeBundlePath"@),
    ];
    crate::seqs::law_collected_is_made(s, text::if_nonempty(), p);
    assert(text::if_nonempty()(s[0]) == Some(p) || text::if_nonempty()(s[1]) == Some(p) || text::if_nonempty()(
        s[2],
    ) == Some(p));
    assert(paths_of_runtime()(e).contains(p));
    crate::seqs::law_flattened_is_made(runtimes.entries(), paths_of_runtime(), p);
}

/// A device that cannot be used is safe to delete, by its identifier.
pub proof fn law_unavailable_devices_are_offered(d: DeviceModel, bytes: u64)
    ensures
        device_row()((d, bytes)) matches Some(f) && {
            &&& f.safety == Safety::Safe
            &&& !f.manual_only
            &&& f.bytes == bytes
            &&& f.native_action matches Some(a) && a.object_id == d.udid && a.action_id == "delete-device"@
        },
{
}

/// Each device of each runtime that cannot be used is found.
pub proof fn law_every_device_is_looked_at(devices: JsonModel, i: int, k: int, d: DeviceModel)
    requires
        0 <= i < device_entries(devices).len(),
        0 <= k < device_entries(devices)[i].1.items().len(),
        if_unavailable(device_entries(devices)[i].0)(device_entries(devices)[i].1.items()[k]) == Some(d),
    ensures
        unavailable_in(devices).contains(d),
{
    let e = device_entries(devices)[i];
    crate::seqs::law_collected_is_made(e.1.items(), if_unavailable(e.0), d);
    assert(unavailable_of_entry()(e).contains(d));
    crate::seqs::law_flattened_is_made(device_entries(devices), unavailable_of_entry(), d);
}

/// An action is carried out by the command of its tool that does just this, to the
/// object that it names.
pub proof fn law_actions_run_their_command(action: Seq<char>, object: Seq<char>, p: CommandPolicy, args: Seq<Seq<char>>)
    requires
        action_command(action, object, p, args),
    ensures
        p@.mutating,
        ({
            ||| action == "delete-device"@ && p@.executables.last()@ == "xcrun"@ && args == seq!["simctl"@, "delete"@, object]
            ||| action == "delete-runtime"@ && p@.executables.last()@ == "xcrun"@ && args == seq!["simctl"@, "runtime"@, "delete"@, object]
            ||| action == "remove-dyld-cache"@ && p@.executables.last()@ == "xcrun"@ && args == seq!["simctl"@, "runtime"@, "dyld_shared_cache"@, "remove"@, object]
            ||| action == "swift-purge-cache"@ && p@.executables.last()@ == "swift"@ && args == seq!["package"@, "purge-cache"@]
        }),
{
}

/// An action is carried out exactly where it is one of the commands that are known, or
/// removes a path that may be removed below a home directory that is known.
pub proof fn law_known_actions_are_carried_out(id: Seq<char>, object: Seq<char>, home: Option<Seq<char>>)
    ensures
        action_error(None, home) is Some,
        action_error(Some((id, object)), home) is None <==> id == "delete-device"@ || id == "delete-runtime"@ || id
            == "remove-dyld-cache"@ || id == "swift-purge-cache"@ || (id == "trash-xcode-path"@ && (home matches Some(h)
            && is_allowed(h, object))),
{
}

/// Archives are old from sixty days on, or from the age that was asked for where that
/// is more.
pub proof fn law_archives_are_kept_for_sixty_days(days: u64)
    ensures
        archive_floor(days) >= 60,
        archive_floor(days) >= days,
        archive_floor(days) == 60 || archive_floor(days) == days,
{
}

} // verus!
