//! Files of applications that are no longer installed.

use crate::json::{parse_plist, plist_document};
use crate::paths;
use crate::paths::under;
use crate::report::{Confidence, Finding, FindingModel};
use crate::rules::Safety;
use crate::seqs::{
    at_most, collect_some, find_some, flatten_map, group_views, lemma_collect_step, lemma_find_none,
    lemma_find_step, lemma_flatten_step, paired, view_of, views,
};
use crate::taxonomy::{Section, Subgroup};
use crate::text;
use crate::text::{digits, same};
use vstd::prelude::*;

use super::toolchains::{Reference, ReferenceModel, consumers, consumers_of};
use super::{
    Capability, Draft, MetadataModel, ProviderExecution, ProviderFinding, ProviderMetadata,
    ProviderSettings, Revalidation, RevalidationModel, ScanCost, available_if, draft,
    finding_paths, is_available_if, target_paths,
};

verus! {

broadcast use group_views;

pub struct AppLeftoversProvider;

/// What the provider is.
pub open spec fn app_leftovers() -> MetadataModel {
    MetadataModel {
        id: "app-leftovers"@,
        name: "Uninstalled app leftovers"@,
        section: Section::Analysis,
        subgroup: Subgroup::Leftovers,
        cost: ScanCost::Moderate,
        quick: false,
        deep: true,
        network_in_deep_scan: false,
        supersedes_rules: Seq::empty(),
    }
}

fn metadata() -> (r: ProviderMetadata)
    ensures
        r@ == app_leftovers(),
{
    let r = ProviderMetadata {
        id: "app-leftovers",
        name: "Uninstalled app leftovers",
        section: Section::Analysis,
        subgroup: Subgroup::Leftovers,
        cost: ScanCost::Moderate,
        quick: false,
        deep: true,
        network_in_deep_scan: false,
        supersedes_rules: &[],
    };
    assert(r@.supersedes_rules =~= app_leftovers().supersedes_rules);
    r
}

impl AppLeftoversProvider {
    pub fn metadata(&self) -> (r: ProviderMetadata)
        ensures
            r@ == app_leftovers(),
    {
        metadata()
    }
}

/// Whether there is a library directory to look at.
pub fn probe(library: bool) -> (r: Capability)
    ensures
        is_available_if(r, library, "The user Library directory is unavailable."@),
{
    available_if(library, "The user Library directory is unavailable.")
}

// ---- what is installed ----

/// The text of an entry of a property list.
pub open spec fn plist_entry(bytes: Seq<u8>, key: Seq<char>) -> Option<Seq<char>> {
    match plist_document(bytes) {
        Some(d) => d.text_at(key),
        None => None,
    }
}

fn plist_text(bytes: &[u8], key: &str) -> (r: Option<String>)
    ensures
        view_of(r) == plist_entry(bytes@, key@),
{
    match parse_plist(bytes) {
        Some(d) => d.text(key),
        None => None,
    }
}

/// The bundle that the information file of an application names.
pub fn bundle_id_from_plist(bytes: &[u8]) -> (r: Option<String>)
    ensures
        view_of(r) == plist_entry(bytes@, "CFBundleIdentifier"@),
{
    plist_text(bytes, "CFBundleIdentifier")
}

/// The label of a launch service.
pub fn launch_service_label(bytes: &[u8]) -> (r: Option<String>)
    ensures
        view_of(r) == plist_entry(bytes@, "Label"@),
{
    plist_text(bytes, "Label")
}

/// The package of an installation receipt.
pub fn receipt_id(bytes: &[u8]) -> (r: Option<String>)
    ensures
        view_of(r) == plist_entry(bytes@, "PackageIdentifier"@),
{
    plist_text(bytes, "PackageIdentifier")
}

/// Whether a path has an extension.
pub fn has_extension(path: &str, extension: &str) -> (r: bool)
    ensures
        r == (paths::extension_of(path@) == Some(extension@)),
{
    match paths::extension(path) {
        Some(e) => same(e.as_str(), extension),
        None => false,
    }
}

/// Whether the search for applications goes on into a directory.
pub fn apps_descend(depth: usize, found: usize) -> (r: bool)
    ensures
        r == (depth <= 8 && found < 20_000),
{
    depth <= 8 && found < 20_000
}

/// Where applications are installed.
pub fn application_places(home: &str) -> (r: Vec<String>)
    ensures
        views(r@) == seq![
            "/Applications"@,
            "/System/Applications"@,
            "/System/Library/CoreServices"@,
            paths::below(home@, "Applications"@),
        ],
{
    text::texts4(
        "/Applications",
        "/System/Applications",
        "/System/Library/CoreServices",
        paths::join(home, "Applications").as_str(),
    )
}

/// Where launch services are defined.
pub fn service_places(home: &str) -> (r: Vec<String>)
    ensures
        views(r@) == seq![
            paths::below(home@, "Library/LaunchAgents"@),
            "/Library/LaunchAgents"@,
            "/Library/LaunchDaemons"@,
        ],
{
    text::texts3(
        paths::join(home, "Library/LaunchAgents").as_str(),
        "/Library/LaunchAgents",
        "/Library/LaunchDaemons",
    )
}

/// Whether a bundle is an installed one, or part of one.
pub open spec fn owns(installed: Seq<char>, bundle: Seq<char>) -> bool {
    bundle == installed || match text::without_prefix(bundle, installed) {
        Some(rest) => text::begins(rest, "."@),
        None => false,
    }
}

/// Whether an installed application owns a bundle.
pub open spec fn is_owned(bundle: Seq<char>, installed: Seq<Seq<char>>) -> bool {
    exists|i: int| 0 <= i < installed.len() && owns(#[trigger] installed[i], bundle)
}

/// Whether an installed application owns a bundle.
pub fn owned_by_installed_app(bundle: &str, installed: &Vec<String>) -> (r: bool)
    ensures
        r == is_owned(bundle@, views(installed@)),
{
    let ghost all = views(installed@);
    let mut i: usize = 0;
    while i < installed.len()
        invariant
            i <= installed@.len(),
            all == views(installed@),
            forall|j: int| 0 <= j < i ==> !owns(#[trigger] all[j], bundle@),
        decreases installed@.len() - i,
    {
        assert(all[i as int] == installed@[i as int]@);
        let owner = installed[i].as_str();
        if same(bundle, owner) {
            return true;
        }
        if let Some(rest) = text::strip_prefix(bundle, owner) {
            if text::starts_with(rest.as_str(), ".") {
                return true;
            }
        }
        i += 1;
    }
    false
}

/// Whether the files of a bundle are left over: nothing installed owns it, no
/// launch service has its name, and it is not the system's own.
pub open spec fn is_leftover(
    bundle: Seq<char>,
    installed: Seq<Seq<char>>,
    services: Seq<Seq<char>>,
) -> bool {
    !is_owned(bundle, installed) && !services.contains(bundle) && !text::begins(
        bundle,
        "com.apple."@,
    )
}

pub fn left_over(bundle: &str, installed: &Vec<String>, services: &Vec<String>) -> (r: bool)
    ensures
        r == is_leftover(bundle@, views(installed@), views(services@)),
{
    !owned_by_installed_app(bundle, installed) && !text::among(bundle, services)
        && !text::starts_with(bundle, "com.apple.")
}

// ---- candidates ----

/// How often a character occurs.
pub open spec fn count_of(s: Seq<char>, c: char) -> nat
    decreases s.len(),
{
    if s.len() == 0 {
        0
    } else {
        count_of(s.drop_last(), c) + if s.last() == c {
            1nat
        } else {
            0
        }
    }
}

/// The characters of a bundle name.
pub open spec fn bundle_char(c: char) -> bool {
    ||| ('a' <= c && c <= 'z')
    ||| ('A' <= c && c <= 'Z')
    ||| ('0' <= c && c <= '9')
    ||| c == '.'
    ||| c == '-'
    ||| c == '_'
}

/// Whether a name can be that of a bundle.
pub open spec fn is_plausible(s: Seq<char>) -> bool {
    &&& count_of(s, '.') >= 2
    &&& s.len() <= 255
    &&& !text::begins(s, "group."@)
    &&& forall|i: int| 0 <= i < s.len() ==> bundle_char(#[trigger] s[i])
}

/// Whether a name can be that of a bundle.
pub fn plausible_bundle_id(value: &str) -> (r: bool)
    ensures
        r == is_plausible(value@),
{
    let v = text::chars_of(value);
    let n: usize = v.len();
    if n > 255 || text::starts_with(value, "group.") {
        return false;
    }
    let mut dots: usize = 0;
    let mut i: usize = 0;
    assert(v@.take(0) =~= Seq::<char>::empty());
    while i < n
        invariant
            i <= n,
            n == v@.len(),
            v@ == value@,
            dots <= i,
            dots == count_of(v@.take(i as int), '.'),
            forall|j: int| 0 <= j < i ==> bundle_char(#[trigger] v@[j]),
        decreases n - i,
    {
        assert(v@.take(i + 1).drop_last() =~= v@.take(i as int));
        let c: char = v[i];
        if !(('a' <= c && c <= 'z') || ('A' <= c && c <= 'Z') || ('0' <= c && c <= '9') || c == '.' || c
                == '-' || c == '_') {
            assert(!bundle_char(v@[i as int]));
            return false;
        }
        if c == '.' {
            dots += 1;
        }
        i += 1;
    }
    assert(v@.take(n as int) =~= value@);
    dots >= 2
}

/// An entry of a directory.
pub struct NamedPath {
    pub name: String,
    pub path: String,
}

#[verifier::ext_equal]
pub struct NamedPathModel {
    pub name: Seq<char>,
    pub path: Seq<char>,
}

impl View for NamedPath {
    type V = NamedPathModel;

    open spec fn view(&self) -> NamedPathModel {
        NamedPathModel {
            name: self.name@,
            path: self.path@,
        }
    }
}

/// A directory of the library.
pub struct LibraryDirectory {
    /// What the name of an entry has behind the bundle.
    pub suffix: Option<String>,
    pub entries: Vec<NamedPath>,
}

#[verifier::ext_equal]
pub struct LibraryDirectoryModel {
    pub suffix: Option<Seq<char>>,
    pub entries: Seq<NamedPathModel>,
}

impl View for LibraryDirectory {
    type V = LibraryDirectoryModel;

    open spec fn view(&self) -> LibraryDirectoryModel {
        LibraryDirectoryModel {
            suffix: view_of(self.suffix),
            entries: views(self.entries@),
        }
    }
}

/// The directories of the library that hold files of applications, with what
/// names there have behind the bundle.
pub open spec fn library_places() -> Seq<(Seq<char>, Option<Seq<char>>)> {
    seq![
        ("Caches"@, None),
        ("Containers"@, None),
        ("Application Scripts"@, None),
        ("HTTPStorages"@, None),
        ("WebKit"@, None),
        ("Logs"@, None),
        ("Application Support"@, None),
        ("Saved Application State"@, Some(".savedState"@)),
        ("Preferences"@, Some(".plist"@)),
    ]
}

/// The directories of the library that hold files of applications.
pub fn leftover_places() -> (r: Vec<(String, Option<String>)>)
    ensures
        r@.len() == library_places().len(),
        forall|i: int|
        0 <= i < r@.len() ==> (#[trigger] r@[i]).0@ == library_places()[i].0 && view_of(r@[i].1)
            == library_places()[i].1,
{
    vec![
        ("Caches".to_owned(), None),
        ("Containers".to_owned(), None),
        ("Application Scripts".to_owned(), None),
        ("HTTPStorages".to_owned(), None),
        ("WebKit".to_owned(), None),
        ("Logs".to_owned(), None),
        ("Application Support".to_owned(), None),
        ("Saved Application State".to_owned(), Some(".savedState".to_owned())),
        ("Preferences".to_owned(), Some(".plist".to_owned())),
    ]
}

/// The bundle that an entry of a directory belongs to.
pub open spec fn bundle_of(name: Seq<char>, suffix: Option<Seq<char>>) -> Seq<char> {
    match suffix {
        Some(s) => match text::without_suffix(name, s) {
            Some(rest) => rest,
            None => name,
        },
        None => name,
    }
}

pub open spec fn candidate_entry(suffix: Option<Seq<char>>) -> spec_fn(NamedPathModel) -> Option<
ReferenceModel,
> {
    |e: NamedPathModel|
    if is_plausible(bundle_of(e.name, suffix)) {
        Some(ReferenceModel { key: bundle_of(e.name, suffix), consumer: e.path })
    } else {
        None
    }
}

/// The most entries of a directory that are looked at.
pub const ENTRY_LIMIT: usize = 100_000;

pub open spec fn candidates_of() -> spec_fn(LibraryDirectoryModel) -> Seq<ReferenceModel> {
    |d: LibraryDirectoryModel|
    collect_some(at_most(d.entries, ENTRY_LIMIT as int), candidate_entry(d.suffix))
}

fn candidate_of(e: &NamedPath, suffix: &Option<String>) -> (r: Option<Reference>)
    ensures
        view_of(r) == candidate_entry(view_of(*suffix))(e@),
{
    let bundle = match suffix {
        Some(s) => match text::strip_suffix(e.name.as_str(), s.as_str()) {
            Some(rest) => rest,
            None => e.name.clone(),
        },
        None => e.name.clone(),
    };
    if plausible_bundle_id(bundle.as_str()) {
        Some(Reference { key: bundle, consumer: e.path.clone() })
    } else {
        None
    }
}

fn candidates_in(entries: &Vec<NamedPath>, suffix: &Option<String>) -> (r: Vec<Reference>)
    ensures
        views(r@) == collect_some(at_most(views(entries@), ENTRY_LIMIT as int), candidate_entry(view_of(*suffix))),
{
    let ghost all = views(entries@);
    let ghost f = candidate_entry(view_of(*suffix));
    let mut out: Vec<Reference> = Vec::new();
    let limit: usize = if entries.len() > ENTRY_LIMIT {
        ENTRY_LIMIT
    } else {
        entries.len()
    };
    let mut i: usize = 0;
    assert(views(out@) =~= collect_some(all.take(0), f));
    while i < limit
        invariant
            i <= limit <= entries@.len(),
            all == views(entries@),
            f == candidate_entry(view_of(*suffix)),
            views(out@) == collect_some(all.take(i as int), f),
        decreases limit - i,
    {
        proof {
            lemma_collect_step(all, i as int, f);
        }
        assert(all[i as int] == entries@[i as int]@);
        if let Some(x) = candidate_of(&entries[i], suffix) {
            out.push(x);
        }
        i += 1;
    }
    assert(all.take(limit as int) =~= at_most(all, ENTRY_LIMIT as int));
    out
}

/// The files that carry the name of a bundle, by bundle.
pub fn leftover_candidates(directories: &Vec<LibraryDirectory>) -> (r: Vec<Reference>)
    ensures
        views(r@) == flatten_map(views(directories@), candidates_of()),
{
    let ghost all = views(directories@);
    let ghost f = candidates_of();
    let mut out: Vec<Reference> = Vec::new();
    let limit: usize = directories.len();
    let mut i: usize = 0;
    assert(views(out@) =~= flatten_map(all.take(0), f));
    while i < limit
        invariant
            i <= limit <= directories@.len(),
            all == views(directories@),
            f == candidates_of(),
            views(out@) == flatten_map(all.take(i as int), f),
        decreases limit - i,
    {
        proof {
            lemma_flatten_step(all, i as int, f);
        }
        assert(all[i as int] == directories@[i as int]@);
        let mut more = candidates_in(&directories[i].entries, &directories[i].suffix);
        out.append(&mut more);
        i += 1;
    }
    assert(all.take(limit as int) =~= all);
    out
}

/// The bundles of some candidates, each once.
pub open spec fn bundles_in(candidates: Seq<ReferenceModel>, n: nat) -> Seq<Seq<char>>
    decreases n,
{
    if n == 0 || n > candidates.len() {
        Seq::empty()
    } else {
        let rest = bundles_in(candidates, (n - 1) as nat);
        if rest.contains(candidates[n - 1].key) {
            rest
        } else {
            rest.push(candidates[n - 1].key)
        }
    }
}

/// The bundles of some candidates, each once, in the order in which they occur.
pub fn candidate_bundles(candidates: &Vec<Reference>) -> (r: Vec<String>)
    ensures
        views(r@) == bundles_in(views(candidates@), candidates@.len()),
{
    let ghost all = views(candidates@);
    let mut out: Vec<String> = Vec::new();
    let mut i: usize = 0;
    assert(views(out@) =~= Seq::<Seq<char>>::empty());
    while i < candidates.len()
        invariant
            i <= candidates@.len(),
            all == views(candidates@),
            views(out@) == bundles_in(all, i as nat),
        decreases candidates@.len() - i,
    {
        assert(all[i as int] == candidates@[i as int]@);
        if !text::among(candidates[i].key.as_str(), &out) {
            out.push(candidates[i].key.clone());
        }
        i += 1;
    }
    out
}

/// The files of a bundle.
pub fn bundle_paths(candidates: &Vec<Reference>, bundle: &str) -> (r: Vec<String>)
    ensures
        views(r@) == consumers_of(views(candidates@), bundle@),
{
    consumers(candidates, bundle)
}

// ---- findings ----

/// The youngest of some ages.
pub open spec fn youngest(ages: Seq<Option<u64>>) -> Option<u64>
    decreases ages.len(),
{
    if ages.len() == 0 {
        None
    } else {
        match (youngest(ages.drop_last()), ages.last()) {
            (None, a) => a,
            (a, None) => a,
            (Some(a), Some(b)) => if b < a {
                Some(b)
            } else {
                Some(a)
            },
        }
    }
}

fn youngest_age(ages: &Vec<Option<u64>>) -> (r: Option<u64>)
    ensures
        r == youngest(ages@),
{
    let mut r: Option<u64> = None;
    let mut i: usize = 0;
    assert(ages@.take(0) =~= Seq::<Option<u64>>::empty());
    while i < ages.len()
        invariant
            i <= ages@.len(),
            r == youngest(ages@.take(i as int)),
        decreases ages@.len() - i,
    {
        assert(ages@.take(i + 1).drop_last() =~= ages@.take(i as int));
        r = match (r, ages[i]) {
            (None, a) => a,
            (a, None) => a,
            (Some(a), Some(b)) => if b < a {
                Some(b)
            } else {
                Some(a)
            },
        };
        i += 1;
    }
    assert(ages@.take(i as int) =~= ages@);
    r
}

/// Whether a path shows that it belonged to an application.
pub open spec fn is_scoped(home: Seq<char>, path: Seq<char>) -> bool {
    under(path, paths::below(home, "Library/Containers"@)) || under(
        path,
        paths::below(home, "Library/Application Scripts"@),
    )
}

/// Whether one of some paths shows that it belonged to an application.
pub open spec fn any_scoped(home: Seq<char>, existing: Seq<Seq<char>>) -> bool {
    exists|i: int| 0 <= i < existing.len() && is_scoped(home, #[trigger] existing[i])
}

fn scoped(home: &str, existing: &Vec<String>) -> (r: bool)
    ensures
        r == any_scoped(home@, views(existing@)),
{
    let ghost all = views(existing@);
    let containers = paths::join(home, "Library/Containers");
    let scripts = paths::join(home, "Library/Application Scripts");
    let mut i: usize = 0;
    while i < existing.len()
        invariant
            i <= existing@.len(),
            all == views(existing@),
            containers@ == paths::below(home@, "Library/Containers"@),
            scripts@ == paths::below(home@, "Library/Application Scripts"@),
            forall|j: int| 0 <= j < i ==> !is_scoped(home@, #[trigger] all[j]),
        decreases existing@.len() - i,
    {
        assert(all[i as int] == existing@[i as int]@);
        if paths::starts_with(existing[i].as_str(), containers.as_str()) || paths::starts_with(
            existing[i].as_str(),
            scripts.as_str(),
        ) {
            return true;
        }
        i += 1;
    }
    false
}

/// What is said of the files of a bundle.
pub open spec fn leftover_draft(
    bundle: Seq<char>,
    existing: Seq<Seq<char>>,
    bytes: u64,
    age: Option<u64>,
    strong: bool,
    min_age: u64,
) -> Draft {
    draft(
        app_leftovers(),
        "uninstalled-app-leftovers"@,
        "app-cache"@,
        bundle,
        bundle + " app leftovers"@,
        Safety::Risky,
        bytes,
    )
        .grouped_paths(existing)
        .age(age, age is Some && age->0 < min_age)
        .manual()
        .confidence(
        if strong {
            Confidence::High
        } else {
            Confidence::Low
        },
    )
        .reason(
        if strong {
            "No installed app or launch service owns this exact third-party bundle ID, and multiple or container-scoped paths remain."@
        } else {
            "No installed app owns this exact third-party bundle ID, but only one low-confidence path was found."@
        },
    )
        .evidence("Bundle ID"@, bundle)
        .evidence("Locations"@, digits(existing.len()))
        .copy(
        "Files whose names exactly match a third-party bundle identifier that is no longer installed."@,
        "The paths may contain preferences, caches, local databases, or user-created application data."@,
        "Review every path. App leftovers are never bulk-selected and are moved to Trash by default."@,
    )
        .action(
        "trash-leftovers"@,
        seq!["move exact leftover paths to Trash"@],
        false,
        true,
    )
}

/// The finding for the files of a bundle that exist, where they are large
/// enough.
pub open spec fn leftover_row(
    home: Seq<char>,
    bundle: Seq<char>,
    existing: Seq<Seq<char>>,
    ages: Seq<Option<u64>>,
    bytes: u64,
    settings: ProviderSettings,
) -> Option<FindingModel> {
    if existing.len() == 0 || bytes < settings.min_size_bytes {
        None
    } else {
        Some(
            leftover_draft(
                bundle,
                existing,
                bytes,
                youngest(ages),
                any_scoped(home, existing) || existing.len() >= 2,
                settings.min_age_days,
            ).build(),
        )
    }
}

/// The finding for the files of a bundle that exist, with their ages and what
/// they take together.
pub fn leftover_finding(
    home: &str,
    bundle: &str,
    existing: Vec<String>,
    ages: &Vec<Option<u64>>,
    bytes: u64,
    settings: &ProviderSettings,
) -> (r: Option<Finding>)
    ensures
        view_of(r) == leftover_row(home@, bundle@, views(existing@), ages@, bytes, *settings),
{
    let n: usize = existing.len();
    assert(views(existing@).len() == n);
    if n == 0 || bytes < settings.min_size_bytes {
        return None;
    }
    let strong = scoped(home, &existing) || n >= 2;
    let age = youngest_age(ages);
    let recent = match age {
        Some(a) => a < settings.min_age_days,
        None => false,
    };
    Some(ProviderFinding::object(
            metadata(),
            "uninstalled-app-leftovers",
            "app-cache",
            bundle,
            bundle.to_owned().concat(" app leftovers").as_str(),
            Safety::Risky,
            bytes,
        )
            .grouped_paths(existing)
            .age(age, recent)
            .manual()
            .confidence(
            if strong {
                Confidence::High
            } else {
                Confidence::Low
            },
        )
            .reason(
            if strong {
                "No installed app or launch service owns this exact third-party bundle ID, and multiple or container-scoped paths remain."
            } else {
                "No installed app owns this exact third-party bundle ID, but only one low-confidence path was found."
            },
        )
            .evidence("Bundle ID", bundle)
            .evidence("Locations", text::decimal(n as u64).as_str())
            .copy(
            "Files whose names exactly match a third-party bundle identifier that is no longer installed.",
            "The paths may contain preferences, caches, local databases, or user-created application data.",
            "Review every path. App leftovers are never bulk-selected and are moved to Trash by default.",
        )
            .action(
            "trash-leftovers",
            text::texts1("move exact leftover paths to Trash"),
            false,
            true,
        )
            .build())
}

// ---- removal ----

/// The places from which leftovers may be removed.
pub open spec fn is_allowed(home: Seq<char>, path: Seq<char>) -> bool {
    ||| under(path, paths::below(home, "Library/Caches"@))
    ||| under(path, paths::below(home, "Library/Containers"@))
    ||| under(path, paths::below(home, "Library/Application Scripts"@))
    ||| under(path, paths::below(home, "Library/HTTPStorages"@))
    ||| under(path, paths::below(home, "Library/WebKit"@))
    ||| under(path, paths::below(home, "Library/Logs"@))
    ||| under(path, paths::below(home, "Library/Application Support"@))
    ||| under(path, paths::below(home, "Library/Saved Application State"@))
    ||| under(path, paths::below(home, "Library/Preferences"@))
}

/// Whether a path lies where leftovers may be removed.
pub fn allowed_leftover_path(home: &str, path: &str) -> (r: bool)
    ensures
        r == is_allowed(home@, path@),
{
    paths::starts_with(path, paths::join(home, "Library/Caches").as_str())
        || paths::starts_with(path, paths::join(home, "Library/Containers").as_str())
        || paths::starts_with(path, paths::join(home, "Library/Application Scripts").as_str())
        || paths::starts_with(path, paths::join(home, "Library/HTTPStorages").as_str())
        || paths::starts_with(path, paths::join(home, "Library/WebKit").as_str())
        || paths::starts_with(path, paths::join(home, "Library/Logs").as_str())
        || paths::starts_with(path, paths::join(home, "Library/Application Support").as_str())
        || paths::starts_with(path, paths::join(home, "Library/Saved Application State").as_str())
        || paths::starts_with(path, paths::join(home, "Library/Preferences").as_str())
}

/// What the disk says of a path before it is removed.
#[derive(Debug, Clone, Copy)]
pub struct PathCheck {
    pub exists: bool,
    pub is_symlink: bool,
}

/// What keeps a path from being removed.
pub open spec fn path_obstacle(home: Seq<char>) -> spec_fn((Seq<char>, PathCheck)) -> Option<
RevalidationModel,
> {
    |x: (Seq<char>, PathCheck)|
    if !is_allowed(home, x.0) {
        Some(
            RevalidationModel::Blocked(x.0 + " is outside allowed app-leftover locations."@),
        )
    } else if !x.1.exists {
        Some(RevalidationModel::Changed(x.0 + " no longer exists."@))
    } else if x.1.is_symlink {
        Some(RevalidationModel::Blocked(x.0 + " is a symlink."@))
    } else {
        None
    }
}

fn path_blocked(path: &str, check: PathCheck, home: &str) -> (r: Option<Revalidation>)
    ensures
        view_of(r) == path_obstacle(home@)((path@, check)),
{
    if !allowed_leftover_path(home, path) {
        Some(
            Revalidation::Blocked(
                path.to_owned().concat(" is outside allowed app-leftover locations."),
            ),
        )
    } else if !check.exists {
        Some(Revalidation::Changed(path.to_owned().concat(" no longer exists.")))
    } else if check.is_symlink {
        Some(Revalidation::Blocked(path.to_owned().concat(" is a symlink.")))
    } else {
        None
    }
}

/// What a second look at leftovers says: the first thing that is wrong.
pub open spec fn rechecked(
    home: Option<Seq<char>>,
    finding: FindingModel,
    installed: Seq<Seq<char>>,
    checks: Seq<PathCheck>,
) -> Result<RevalidationModel, Seq<char>> {
    match home {
        None => Ok(RevalidationModel::Blocked("Home directory is unavailable."@)),
        Some(h) => match finding.native_action {
            None => Err("leftover bundle ID missing"@),
            Some(a) => if installed.contains(a.object_id) {
                Ok(
                    RevalidationModel::Blocked("An installed app now owns this bundle identifier."@),
                )
            } else {
                match find_some(paired(target_paths(finding.target), checks), path_obstacle(h)) {
                    Some(v) => Ok(v),
                    None => Ok(RevalidationModel::Valid),
                }
            },
        },
    }
}

/// A second look at leftovers before they are removed; `checks` says what the
/// disk says of each path of the finding.
pub fn recheck(
    home: Option<&str>,
    finding: &Finding,
    installed: &Vec<String>,
    checks: &Vec<PathCheck>,
) -> (r: Result<Revalidation, String>)
    ensures
        match r {
            Ok(v) => rechecked(text::shown(home), finding@, views(installed@), checks@) == Ok::<
            _,
            Seq<char>,
            >(v@),
            Err(e) => rechecked(text::shown(home), finding@, views(installed@), checks@) == Err::<
            RevalidationModel,
            _,
            >(e@),
        },
{
    let h = match home {
        Some(h) => h,
        None => {
            return Ok(Revalidation::Blocked("Home directory is unavailable.".to_owned()));
        },
    };
    let bundle = match &finding.native_action {
        Some(a) => a.object_id.as_str(),
        None => {
            return Err("leftover bundle ID missing".to_owned());
        },
    };
    if text::among(bundle, installed) {
        return Ok(
            Revalidation::Blocked("An installed app now owns this bundle identifier.".to_owned()),
        );
    }
    let list = finding_paths(finding);
    let ghost all = paired(views(list@), checks@);
    let ghost f = path_obstacle(h@);
    assert(all.skip(0) =~= all);
    let n: usize = if list.len() < checks.len() {
        list.len()
    } else {
        checks.len()
    };
    let mut i: usize = 0;
    while i < n
        invariant
            i <= n,
            n <= list@.len(),
            n <= checks@.len(),
            n == all.len(),
            all == paired(views(list@), checks@),
            views(list@) == target_paths(finding@.target),
            home == Some(h),
            finding.native_action is Some,
            bundle@ == finding@.native_action->0.object_id,
            !views(installed@).contains(bundle@),
            f == path_obstacle(h@),
            find_some(all, f) == find_some(all.skip(i as int), f),
        decreases n - i,
    {
        proof {
            lemma_find_step(all, i as int, f);
        }
        assert(all[i as int] == (list@[i as int]@, checks@[i as int]));
        if let Some(v) = path_blocked(list[i].as_str(), checks[i], h) {
            return Ok(v);
        }
        i += 1;
    }
    proof {
        lemma_find_none(all.skip(i as int), f);
    }
    Ok(Revalidation::Valid)
}

/// What is reported once `deleted` paths of a finding have been removed.
pub fn executed(finding: &Finding, deleted: u64) -> (r: ProviderExecution)
    ensures
        r.deleted == deleted,
        r.freed_bytes == finding.bytes,
        r.message@ == "App leftover paths removed."@,
{
    ProviderExecution {
        deleted,
        freed_bytes: finding.bytes,
        message: "App leftover paths removed.".to_owned(),
    }
}

// ---- laws ----

/// Leftovers are never for bulk selection.
pub proof fn law_leftovers_are_manual(
    home: Seq<char>,
    bundle: Seq<char>,
    existing: Seq<Seq<char>>,
    ages: Seq<Option<u64>>,
    bytes: u64,
    settings: ProviderSettings,
)
    ensures
        match leftover_row(home, bundle, existing, ages, bytes, settings) {
            Some(f) => f.manual_only,
            None => true,
        },
{
}

/// What is removed lies in the places of leftovers, is there, and is no link.
pub proof fn law_removal_stays_in_place(
    home: Seq<char>,
    finding: FindingModel,
    installed: Seq<Seq<char>>,
    checks: Seq<PathCheck>,
    i: int,
)
    requires
        rechecked(Some(home), finding, installed, checks) == Ok::<_, Seq<char>>(
            RevalidationModel::Valid,
        ),
        checks.len() == target_paths(finding.target).len(),
        0 <= i < checks.len(),
    ensures
        is_allowed(home, target_paths(finding.target)[i]),
        checks[i].exists,
        !checks[i].is_symlink,
{
    let all = paired(target_paths(finding.target), checks);
    let f = path_obstacle(home);
    lemma_nothing_found(all, f, i);
    assert(all[i] == (target_paths(finding.target)[i], checks[i]));
}

proof fn lemma_nothing_found<A>(s: Seq<A>, f: spec_fn(A) -> Option<RevalidationModel>, i: int)
    requires
        0 <= i < s.len(),
        match find_some(s, f) {
            Some(v) => v == RevalidationModel::Valid,
            None => true,
        },
        forall|x: A| #[trigger] f(x) != Some(RevalidationModel::Valid),
    ensures
        f(s[i]) is None,
    decreases s.len(),
{
    assert(f(s[0]) is None) by {
        assert(f(s[0]) != Some(RevalidationModel::Valid));
    }
    if i > 0 {
        assert(s.skip(1)[i - 1] == s[i]);
        lemma_nothing_found(s.skip(1), f, i - 1);
    }
}

/// An application owns its own identifier and those that follow it after a dot.
pub proof fn law_applications_own_their_parts(installed: Seq<char>, rest: Seq<char>, bundle: Seq<char>)
    ensures
        owns(installed, installed),
        owns(installed, installed + "."@ + rest),
        owns(installed, bundle) ==> bundle == installed || exists|tail: Seq<char>|
        bundle == #[trigger] (installed + "."@ + tail),
{
    let whole = installed + "."@ + rest;
    reveal_strlit(".");
    text::law_prefixes_come_off(installed, "."@ + rest, bundle);
    assert(whole =~= installed + ("."@ + rest));
    text::law_prefixes_come_off("."@, rest, "."@ + rest);
    if owns(installed, bundle) && bundle != installed {
        let after = text::without_prefix(bundle, installed)->0;
        text::law_prefixes_come_off("."@, rest, after);
        let tail = after.skip(1);
        assert(bundle =~= installed + "."@ + tail);
    }
}

/// A bundle is a leftover exactly where no installed application owns it, no service
/// has its name and it is none of the system's.
pub proof fn law_leftovers_have_no_owner(
    bundle: Seq<char>,
    installed: Seq<Seq<char>>,
    services: Seq<Seq<char>>,
)
    ensures
        is_leftover(bundle, installed, services) <==> (forall|i: int|
            0 <= i < installed.len() ==> !owns(#[trigger] installed[i], bundle)) && !services.contains(
            bundle,
        ) && !text::begins(bundle, "com.apple."@),
        installed.contains(bundle) ==> !is_leftover(bundle, installed, services),
{
    if installed.contains(bundle) {
        let i = choose|i: int| 0 <= i < installed.len() && installed[i] == bundle;
        assert(owns(installed[i], bundle));
    }
}

/// What is left of an application is reported exactly where something is there and it
/// holds what was asked for; it is recent where its newest part is younger than was
/// asked for.
pub proof fn law_leftovers_are_reported(
    home: Seq<char>,
    bundle: Seq<char>,
    existing: Seq<Seq<char>>,
    ages: Seq<Option<u64>>,
    bytes: u64,
    settings: ProviderSettings,
)
    ensures
        leftover_row(home, bundle, existing, ages, bytes, settings) is Some <==> existing.len() > 0 && bytes
            >= settings.min_size_bytes,
        leftover_row(home, bundle, existing, ages, bytes, settings) matches Some(f) ==> {
            &&& f.bytes == bytes
            &&& f.age_days == youngest(ages)
            &&& f.recent <==> youngest(ages) is Some && youngest(ages)->0 < settings.min_age_days
            &&& f.safety == Safety::Risky
            &&& !f.report_only
            &&& f.confidence == Confidence::High <==> existing.len() >= 2 || any_scoped(home, existing)
            &&& target_paths(f.target) == existing
        },
{
}

/// The youngest age is no larger than any that is known, and one of them.
pub proof fn law_youngest_is_least(ages: Seq<Option<u64>>)
    ensures
        match youngest(ages) {
            Some(a) => ages.contains(Some(a)) && forall|i: int|
            0 <= i < ages.len() && (#[trigger] ages[i]) is Some ==> a <= ages[i]->0,
            None => forall|i: int| 0 <= i < ages.len() ==> (#[trigger] ages[i]) is None,
        },
    decreases ages.len(),
{
    if ages.len() > 0 {
        let less = ages.drop_last();
        law_youngest_is_least(less);
        assert forall|i: int| 0 <= i < less.len() implies #[trigger] ages[i] == less[i] by {}
        assert(ages[ages.len() - 1] == ages.last());
        if let Some(a) = youngest(less) {
            let i = choose|i: int| 0 <= i < less.len() && less[i] == Some(a);
            assert(ages[i] == Some(a));
        }
    }
}

/// Each bundle that something was found of is looked at once.
pub proof fn law_bundles_are_looked_at_once(candidates: Seq<ReferenceModel>, n: nat, bundle: Seq<char>)
    requires
        n <= candidates.len(),
    ensures
        bundles_in(candidates, n).contains(bundle) <==> exists|i: int|
        0 <= i < n && (#[trigger] candidates[i]).key == bundle,
        bundles_in(candidates, n).no_duplicates(),
    decreases n,
{
    if n > 0 {
        let less = bundles_in(candidates, (n - 1) as nat);
        let all = bundles_in(candidates, n);
        let key = candidates[n - 1].key;
        law_bundles_are_looked_at_once(candidates, (n - 1) as nat, bundle);
        law_bundles_are_looked_at_once(candidates, (n - 1) as nat, key);
        if !less.contains(key) {
            assert(all == less.push(key));
            assert(all[less.len() as int] == key);
            if all.contains(bundle) {
                let i = choose|i: int| 0 <= i < all.len() && all[i] == bundle;
                if i < less.len() {
                    assert(less[i] == bundle);
                }
            }
            if less.contains(bundle) {
                let i = choose|i: int| 0 <= i < less.len() && less[i] == bundle;
                assert(all[i] == bundle);
            }
        }
    }
}

/// Leftovers may go where no installed application has their name, and each path lies
/// in its place, is there and is no link.
pub proof fn law_leftovers_may_go(
    home: Seq<char>,
    finding: FindingModel,
    installed: Seq<Seq<char>>,
    checks: Seq<PathCheck>,
)
    requires
        finding.native_action is Some,
        !installed.contains(finding.native_action->0.object_id),
        checks.len() == target_paths(finding.target).len(),
        forall|i: int|
        0 <= i < checks.len() ==> (#[trigger] checks[i]).exists && !checks[i].is_symlink && is_allowed(
            home,
            target_paths(finding.target)[i],
        ),
    ensures
        rechecked(Some(home), finding, installed, checks) == Ok::<_, Seq<char>>(RevalidationModel::Valid),
{
    let p = paired(target_paths(finding.target), checks);
    assert forall|i: int| 0 <= i < p.len() implies path_obstacle(home)(#[trigger] p[i]) is None by {
        assert(p[i] == (target_paths(finding.target)[i], checks[i]));
        assert(checks[i].exists);
    }
    crate::seqs::lemma_find_none(p, path_obstacle(home));
}

/// An installed application keeps its files.
pub proof fn law_installed_applications_keep_their_files(
    home: Seq<char>,
    finding: FindingModel,
    installed: Seq<Seq<char>>,
    checks: Seq<PathCheck>,
)
    requires
        finding.native_action is Some,
        installed.contains(finding.native_action->0.object_id),
    ensures
        rechecked(Some(home), finding, installed, checks) matches Ok(v) && v is Blocked,
{
}

/// The places in which leftovers are removed, and no others.
pub proof fn law_places_of_leftovers(home: Seq<char>, path: Seq<char>)
    ensures
        is_allowed(home, path) <==> under(path, paths::below(home, "Library/Caches"@)) || under(
            path,
            paths::below(home, "Library/Containers"@),
        ) || under(path, paths::below(home, "Library/Application Scripts"@)) || under(
            path,
            paths::below(home, "Library/HTTPStorages"@),
        ) || under(path, paths::below(home, "Library/WebKit"@)) || under(
            path,
            paths::below(home, "Library/Logs"@),
        ) || under(path, paths::below(home, "Library/Application Support"@)) || under(
            path,
            paths::below(home, "Library/Saved Application State"@),
        ) || under(path, paths::below(home, "Library/Preferences"@)),
{
}

/// What can be the identifier of an application has two dots or more, no more than 255
/// characters, none but letters, digits, dots, dashes and underscores, and is no group.
pub proof fn law_identifiers_are_plausible(s: Seq<char>, i: int)
    ensures
        is_plausible(s) ==> count_of(s, '.') >= 2 && s.len() <= 255 && !text::begins(s, "group."@),
        0 <= i < s.len() && (s[i] == ' ' || s[i] == '/' || s[i] == '~' || s[i] == '+' || s[i] == ':' || s[i] == '@'
            || s[i] == '[' || s[i] == '`' || s[i] == '{') ==> !is_plausible(s),
        count_of(s, '.') < 2 ==> !is_plausible(s),
        text::begins(s, "group."@) ==> !is_plausible(s),
        count_of(s, '.') >= 2 && s.len() <= 255 && !text::begins(s, "group."@) && (forall|j: int|
            0 <= j < s.len() ==> 'a' <= (#[trigger] s[j]) && s[j] <= 'z' || 'A' <= s[j] && s[j] <= 'Z' || '0' <= s[j]
                && s[j] <= '9' || s[j] == '.' || s[j] == '-' || s[j] == '_') ==> is_plausible(s),
{
}

/// Each place in a text counts where it holds the character, and no other does.
pub proof fn law_characters_are_counted(s: Seq<char>, c: char, d: char)
    ensures
        count_of(Seq::empty(), c) == 0,
        count_of(s.push(c), c) == count_of(s, c) + 1,
        d != c ==> count_of(s.push(d), c) == count_of(s, c),
{
    assert(s.push(c).drop_last() =~= s);
    assert(s.push(d).drop_last() =~= s);
}

/// An entry of a library directory is a candidate exactly where its name, without the
/// suffix of the directory, can be an identifier.
pub proof fn law_candidates_have_plausible_names(
    e: NamedPathModel,
    d: LibraryDirectoryModel,
    head: Seq<char>,
    suffix: Seq<char>,
    r: ReferenceModel,
)
    ensures
        candidate_entry(None)(e) is Some <==> is_plausible(e.name),
        candidate_entry(None)(e) matches Some(c) ==> c.key == e.name && c.consumer == e.path,
        e.name == head + suffix ==> (candidate_entry(Some(suffix))(e) is Some <==> is_plausible(head)),
        e.name == head + suffix ==> (candidate_entry(Some(suffix))(e) matches Some(c) ==> c.key == head
            && c.consumer == e.path),
        !text::ends(e.name, suffix) ==> candidate_entry(Some(suffix))(e) == candidate_entry(None)(e),
        candidates_of()(d).contains(r) <==> exists|i: int|
        0 <= i < at_most(d.entries, ENTRY_LIMIT as int).len() && candidate_entry(d.suffix)(
            #[trigger] at_most(d.entries, ENTRY_LIMIT as int)[i],
        ) == Some(r),
{
    text::law_suffixes_come_off(head, suffix, e.name);
    crate::seqs::law_collected_is_made(at_most(d.entries, ENTRY_LIMIT as int), candidate_entry(d.suffix), r);
}

/// What lies in the containers or the scripts of applications belonged to one, and
/// nothing else shows that.
pub proof fn law_containers_belong_to_applications(home: Seq<char>, path: Seq<char>)
    ensures
        under(path, paths::below(home, "Library/Containers"@)) ==> is_scoped(home, path),
        under(path, paths::below(home, "Library/Application Scripts"@)) ==> is_scoped(home, path),
        !under(path, paths::below(home, "Library/Containers"@)) && !under(
            path,
            paths::below(home, "Library/Application Scripts"@),
        ) ==> !is_scoped(home, path),
{
}

} // verus!
