//! Android emulators and system images that are no longer used.

use crate::paths;
use crate::report::{Confidence, Finding, FindingModel};
use crate::rules::Safety;
use crate::seqs::{collect_some, group_views, lemma_collect_step, paired, view_of, views};
use crate::taxonomy::{Section, Subgroup};
use crate::text;
use crate::text::same;
use vstd::prelude::*;

use super::command::{Arg, ArgRule, CommandPolicy, admits, is_policy, is_token};
use super::git::{printed_value, value_of};
use super::{
    Capability, Draft, MetadataModel, ProviderExecution, ProviderFinding, ProviderMetadata,
    ProviderSettings, Revalidation, ScanCost, ScanProfile, aged, available_if, completed, draft,
    is_aged, is_available_if, revalidate_against, revalidated,
};

verus! {

broadcast use group_views;

pub struct AndroidProvider;

/// What the provider is.
pub open spec fn android() -> MetadataModel {
    MetadataModel {
        id: "android"@,
        name: "Android SDK and emulators"@,
        section: Section::Developer,
        subgroup: Subgroup::AppleMobile,
        cost: ScanCost::Instant,
        quick: true,
        deep: true,
        network_in_deep_scan: false,
        supersedes_rules: Seq::empty(),
    }
}

fn metadata() -> (r: ProviderMetadata)
    ensures
        r@ == android(),
{
    let r = ProviderMetadata {
        id: "android",
        name: "Android SDK and emulators",
        section: Section::Developer,
        subgroup: Subgroup::AppleMobile,
        cost: ScanCost::Instant,
        quick: true,
        deep: true,
        network_in_deep_scan: false,
        supersedes_rules: &[],
    };
    assert(r@.supersedes_rules =~= android().supersedes_rules);
    r
}

impl AndroidProvider {
    pub fn metadata(&self) -> (r: ProviderMetadata)
        ensures
            r@ == android(),
    {
        metadata()
    }
}

// ---- commands ----

pub open spec fn avdmanager_executables() -> Seq<&'static str> {
    seq!["avdmanager"]
}

pub open spec fn sdkmanager_executables() -> Seq<&'static str> {
    seq!["sdkmanager"]
}

/// The command `avdmanager delete avd --name <name>`.
pub fn avd_delete() -> (r: CommandPolicy)
    ensures
        is_policy(
            r,
            "android-delete-avd"@,
            avdmanager_executables(),
            true,
            false,
            seq![Arg::Is("delete"), Arg::Is("avd"), Arg::Is("--name"), Arg::Token],
        ),
{
    let r = CommandPolicy {
        id: "android-delete-avd",
        executables: &["avdmanager"],
        mutating: true,
        network: false,
        args: ArgRule::Form(&[Arg::Is("delete"), Arg::Is("avd"), Arg::Is("--name"), Arg::Token]),
    };
    assert(r.executables@ =~= avdmanager_executables());
    r
}

/// The command `sdkmanager --uninstall <name>`.
pub fn sdk_uninstall() -> (r: CommandPolicy)
    ensures
        is_policy(
            r,
            "android-uninstall-sdk-package"@,
            sdkmanager_executables(),
            true,
            false,
            seq![Arg::Is("--uninstall"), Arg::Token],
        ),
{
    let r = CommandPolicy {
        id: "android-uninstall-sdk-package",
        executables: &["sdkmanager"],
        mutating: true,
        network: false,
        args: ArgRule::Form(&[Arg::Is("--uninstall"), Arg::Token]),
    };
    assert(r.executables@ =~= sdkmanager_executables());
    r
}

/// Whether there is an SDK or a store of emulators.
pub fn probe(sdk: bool, avds: bool) -> (r: Capability)
    ensures
        is_available_if(r, sdk || avds, "Android SDK and AVD storage were not found."@),
{
    available_if(sdk || avds, "Android SDK and AVD storage were not found.")
}

/// Where the SDK lies: where the environment says, or below the home directory.
pub open spec fn sdk_place(
    sdk_root: Option<Seq<char>>,
    android_home: Option<Seq<char>>,
    home: Option<Seq<char>>,
) -> Option<Seq<char>> {
    if sdk_root is Some {
        sdk_root
    } else if android_home is Some {
        android_home
    } else {
        match home {
            Some(h) => Some(paths::below(h, "Library/Android/sdk"@)),
            None => None,
        }
    }
}

/// Where the SDK lies: `root` and `set` are what `ANDROID_SDK_ROOT` and
/// `ANDROID_HOME` say.
pub fn android_home(root: Option<&str>, set: Option<&str>, home: Option<&str>) -> (r: Option<
    String,
    >)
    ensures
        view_of(r) == sdk_place(text::shown(root), text::shown(set), text::shown(home)),
{
    if let Some(s) = root {
        return Some(s.to_owned());
    }
    if let Some(a) = set {
        return Some(a.to_owned());
    }
    match home {
        Some(h) => Some(paths::join(h, "Library/Android/sdk")),
        None => None,
    }
}

// ---- emulators ----

/// Whether a file defines an emulator.
pub fn is_definition(path: &str) -> (r: bool)
    ensures
        r == (paths::extension_of(path@) == Some("ini"@)),
{
    match paths::extension(path) {
        Some(e) => same(e.as_str(), "ini"),
        None => false,
    }
}

/// A property in the text of a file; nothing where the file could not be read.
pub open spec fn property(contents: Option<Seq<char>>, key: Seq<char>) -> Option<Seq<char>> {
    match contents {
        Some(c) => printed_value(text::lines_of(c), '=', key),
        None => None,
    }
}

fn read_property(contents: &Option<String>, key: &str) -> (r: Option<String>)
    ensures
        view_of(r) == property(view_of(*contents), key@),
{
    match contents {
        Some(c) => value_of(&text::lines(c.as_str()), '=', key),
        None => None,
    }
}

/// Where the data of an emulator lie: where its definition says, or beside it.
pub open spec fn data_path_of(
    directory: Seq<char>,
    name: Seq<char>,
    definition: Option<Seq<char>>,
) -> Seq<char> {
    match property(definition, "path"@) {
        Some(p) => p,
        None => paths::below(directory, name + ".avd"@),
    }
}

/// Where the data of an emulator lie; nothing for a definition without a name.
pub fn avd_data_path(directory: &str, ini_path: &str, definition: &Option<String>) -> (r: Option<
    String,
    >)
    ensures
        view_of(r) == match paths::stem_of(ini_path@) {
            Some(name) => Some(data_path_of(directory@, name, view_of(*definition))),
            None => None,
        },
{
    match paths::file_stem(ini_path) {
        Some(name) => match read_property(definition, "path") {
            Some(p) => Some(p),
            None => Some(paths::join(directory, name.concat(".avd").as_str())),
        },
        None => None,
    }
}

/// An emulator.
pub struct Avd {
    pub name: String,
    pub ini_path: String,
    pub data_path: String,
    /// The system image, relative to the SDK.
    pub image: Option<String>,
    pub target: Option<String>,
    pub age: Option<u64>,
}

#[verifier::ext_equal]
pub struct AvdModel {
    pub name: Seq<char>,
    pub ini_path: Seq<char>,
    pub data_path: Seq<char>,
    pub image: Option<Seq<char>>,
    pub target: Option<Seq<char>>,
    pub age: Option<u64>,
}

impl View for Avd {
    type V = AvdModel;

    open spec fn view(&self) -> AvdModel {
        AvdModel {
            name: self.name@,
            ini_path: self.ini_path@,
            data_path: self.data_path@,
            image: view_of(self.image),
            target: view_of(self.target),
            age: self.age,
        }
    }
}

/// The emulator that a definition and its configuration describe.
pub open spec fn avd_of(
    directory: Seq<char>,
    ini_path: Seq<char>,
    definition: Option<Seq<char>>,
    config: Option<Seq<char>>,
    age: Option<u64>,
) -> Option<AvdModel> {
    match paths::stem_of(ini_path) {
        Some(name) => Some(
            AvdModel {
                name,
                ini_path,
                data_path: data_path_of(directory, name, definition),
                image: match property(config, "image.sysdir.1"@) {
                    Some(v) => Some(text::trim_end_of(v, '/')),
                    None => None,
                },
                target: match property(definition, "target"@) {
                    Some(t) => Some(t),
                    None => property(config, "target"@),
                },
                age,
            },
        ),
        None => None,
    }
}

/// The emulator that a definition and its configuration describe.
pub fn read_avd(
    directory: &str,
    ini_path: &str,
    definition: &Option<String>,
    config: &Option<String>,
    age: Option<u64>,
) -> (r: Option<Avd>)
    ensures
        view_of(r) == avd_of(directory@, ini_path@, view_of(*definition), view_of(*config), age),
{
    let name = match paths::file_stem(ini_path) {
        Some(n) => n,
        None => {
            return None;
        },
    };
    let data_path = match read_property(definition, "path") {
        Some(p) => p,
        None => paths::join(directory, name.clone().concat(".avd").as_str()),
    };
    let image = match read_property(config, "image.sysdir.1") {
        Some(v) => Some(text::trim_end_matches(v.as_str(), '/')),
        None => None,
    };
    let target = match read_property(definition, "target") {
        Some(t) => Some(t),
        None => read_property(config, "target"),
    };
    Some(Avd { name, ini_path: ini_path.to_owned(), data_path, image, target, age })
}

/// The most definitions that are read.
pub const AVD_LIMIT: usize = 10_000;

/// What the disk says of an emulator.
#[derive(Debug, Clone, Copy)]
pub struct AvdFacts {
    pub data_is_dir: bool,
    /// Whether the system image that it names is there.
    pub image_is_dir: bool,
    pub bytes: u64,
}

/// Where the system image of an emulator lies.
pub fn image_path(avd: &Avd, sdk: Option<&str>) -> (r: Option<String>)
    ensures
        view_of(r) == match (avd@.image, sdk) {
            (Some(relative), Some(s)) => Some(paths::below(s@, relative)),
            _ => None,
        },
{
    match (&avd.image, sdk) {
        (Some(relative), Some(s)) => Some(paths::join(s, relative.as_str())),
        _ => None,
    }
}

/// Whether the data or the system image of an emulator are missing.
pub open spec fn is_broken(avd: AvdModel, has_sdk: bool, facts: AvdFacts) -> bool {
    !facts.data_is_dir || (avd.image is Some && has_sdk && !facts.image_is_dir)
}

/// Whether a command runs an emulator.
pub open spec fn runs_avd(command: Seq<char>, name: Seq<char>) -> bool {
    text::occurs(command, "emulator"@) && (text::occurs(command, "@"@ + name) || text::occurs(
            command,
            "-avd "@ + name,
    ))
}

/// Whether an emulator runs.
pub open spec fn is_running(commands: Seq<Seq<char>>, name: Seq<char>) -> bool {
    exists|i: int| 0 <= i < commands.len() && runs_avd(#[trigger] commands[i], name)
}

fn running(commands: &Vec<String>, name: &str) -> (r: bool)
    ensures
        r == is_running(views(commands@), name@),
{
    let ghost all = views(commands@);
    let at = "@".to_owned().concat(name);
    let option = "-avd ".to_owned().concat(name);
    let mut i: usize = 0;
    while i < commands.len()
        invariant
            i <= commands@.len(),
            all == views(commands@),
            at@ == "@"@ + name@,
            option@ == "-avd "@ + name@,
            forall|j: int| 0 <= j < i ==> !runs_avd(#[trigger] all[j], name@),
        decreases commands@.len() - i,
    {
        assert(all[i as int] == commands@[i as int]@);
        let c = commands[i].as_str();
        if text::contains(c, "emulator") && (text::contains(c, at.as_str()) || text::contains(
                c,
                option.as_str(),
        )) {
            return true;
        }
        i += 1;
    }
    false
}

pub open spec fn known_or(t: Option<Seq<char>>) -> Seq<char> {
    match t {
        Some(x) => x,
        None => "unknown"@,
    }
}

/// What is said of an emulator.
pub open spec fn avd_draft(a: AvdModel, bytes: u64, invalid: bool, protected: bool) -> Draft {
    draft(
        android(),
        if invalid {
            "android-invalid-avd"@
        } else {
            if protected {
                "android-running-stale-avd"@
            } else {
                "android-stale-avd"@
            }
        },
        "android-emulator"@,
        a.name,
        "Android emulator "@ + a.name,
        if protected {
            Safety::Protected
        } else {
            if invalid {
                Safety::Review
            } else {
                Safety::Risky
            }
        },
        bytes,
    )
        .age(a.age, false)
        .manual()
        .confidence(
        if invalid {
            Confidence::Exact
        } else {
            Confidence::High
        },
    )
        .reason(
        if protected {
            "The AVD appears to be running and is protected."@
        } else {
            if invalid {
                "The AVD data directory or its configured system image is missing."@
            } else {
                "The AVD data directory has not changed inside the configured age window."@
            }
        },
    )
        .evidence("Definition"@, a.ini_path)
        .evidence("System image"@, known_or(a.image))
        .evidence("Target"@, known_or(a.target))
        .copy(
        "An Android Virtual Device containing installed apps, snapshots, accounts, and test data."@,
        "Deleting it permanently removes all emulator-local state."@,
        if protected {
            "Shut down the emulator before considering removal."@
        } else {
            "Review the AVD name and data before deleting it through avdmanager."@
        },
    )
}

/// The finding for an emulator that is broken, or old and large enough.
pub open spec fn avd_row(
    has_sdk: bool,
    commands: Seq<Seq<char>>,
    delete: bool,
    settings: ProviderSettings,
) -> spec_fn((AvdModel, AvdFacts)) -> Option<FindingModel> {
    |x: (AvdModel, AvdFacts)|
    {
        let (a, facts) = x;
        let invalid = is_broken(a, has_sdk, facts);
        let protected = is_running(commands, a.name);
        if !invalid && (!aged(a.age, settings.min_age_days) || facts.bytes
            < settings.min_size_bytes) {
            None
        } else if protected {
            Some(avd_draft(a, facts.bytes, invalid, protected).protected().build())
        } else if delete {
            Some(avd_draft(a, facts.bytes, invalid, protected)
                    .action(
                    "delete-avd"@,
                    seq!["avdmanager"@, "delete"@, "avd"@, "--name"@, a.name],
                    true,
                    true,
                )
                    .build())
        } else {
            Some(avd_draft(a, facts.bytes, invalid, protected).report_only().build())
        }
    }
}

fn avd_finding(
    a: &Avd,
    facts: AvdFacts,
    has_sdk: bool,
    commands: &Vec<String>,
    delete: bool,
    settings: &ProviderSettings,
) -> (r: Option<Finding>)
    ensures
        view_of(r) == avd_row(has_sdk, views(commands@), delete, *settings)((a@, facts)),
{
    let invalid = !facts.data_is_dir || (a.image.is_some() && has_sdk && !facts.image_is_dir);
    if !invalid && (!is_aged(a.age, settings.min_age_days) || facts.bytes
        < settings.min_size_bytes) {
        return None;
    }
    let protected = running(commands, a.name.as_str());
    let image: &str = match &a.image {
        Some(i) => i.as_str(),
        None => "unknown",
    };
    let target: &str = match &a.target {
        Some(t) => t.as_str(),
        None => "unknown",
    };
    let bytes: u64 = facts.bytes;
    let builder = ProviderFinding::object(
        metadata(),
        if invalid {
            "android-invalid-avd"
        } else {
            if protected {
                "android-running-stale-avd"
            } else {
                "android-stale-avd"
            }
        },
        "android-emulator",
        a.name.as_str(),
        "Android emulator ".to_owned().concat(a.name.as_str()).as_str(),
        if protected {
            Safety::Protected
        } else {
            if invalid {
                Safety::Review
            } else {
                Safety::Risky
            }
        },
        bytes,
    )
        .age(a.age, false)
        .manual()
        .confidence(
        if invalid {
            Confidence::Exact
        } else {
            Confidence::High
        },
    )
        .reason(
        if protected {
            "The AVD appears to be running and is protected."
        } else {
            if invalid {
                "The AVD data directory or its configured system image is missing."
            } else {
                "The AVD data directory has not changed inside the configured age window."
            }
        },
    )
        .evidence("Definition", a.ini_path.as_str())
        .evidence("System image", image)
        .evidence("Target", target)
        .copy(
        "An Android Virtual Device containing installed apps, snapshots, accounts, and test data.",
        "Deleting it permanently removes all emulator-local state.",
        if protected {
            "Shut down the emulator before considering removal."
        } else {
            "Review the AVD name and data before deleting it through avdmanager."
        },
    );
    Some(
        if protected {
            builder.protected().build()
        } else if delete {
            builder
                .action(
                "delete-avd",
                text::texts5("avdmanager", "delete", "avd", "--name", a.name.as_str()),
                true,
                true,
            )
                .build()
        } else {
            builder.report_only().build()
        },
    )
}

/// The findings for emulators; `facts` holds what the disk says of each.
pub fn avd_findings(avds: &Vec<Avd>, facts: &Vec<AvdFacts>, has_sdk: bool, commands: &Vec<String>, delete: bool, settings: &ProviderSettings) -> (r: Vec<Finding>)
    ensures
        views(r@) == collect_some(paired(views(avds@), facts@), avd_row(has_sdk, views(commands@), delete, *settings)),
{
    let ghost f = avd_row(has_sdk, views(commands@), delete, *settings);
    let ghost pairs = paired(views(avds@), facts@);
    let mut out: Vec<Finding> = Vec::new();

    let n: usize = avds.len();
    let limit: usize = if n < facts.len() {
        n
    } else {
        facts.len()
    };
    let mut i: usize = 0;
    while i < limit
        invariant
            i <= limit,
            limit <= facts@.len(),
            limit == pairs.len(),
            limit <= avds@.len(),
            pairs == paired(views(avds@), facts@),
            f == avd_row(has_sdk, views(commands@), delete, *settings),
            views(out@) == collect_some(pairs.take(i as int), f),
        decreases limit - i,
    {
        proof {
            lemma_collect_step(pairs, i as int, f);
        }
        assert(pairs[i as int] == (avds@[i as int]@, facts@[i as int]));
        if let Some(x) = avd_finding(&avds[i], facts[i], has_sdk, commands, delete, settings) {
            out.push(x);
        }
        i += 1;
    }
    assert(pairs.take(i as int) =~= pairs);
    out
}

// ---- system images ----

/// Whether the search for system images goes on into a directory.
pub fn images_descend(depth: usize, found: usize) -> (r: bool)
    ensures
        r == (depth <= 5 && found < 10_000),
{
    depth <= 5 && found < 10_000
}

/// A relative path without the separators around it.
pub open spec fn normal(s: Seq<char>) -> Seq<char> {
    text::trim_end_of(text::trim_start_of(s, '/'), '/')
}

pub fn normalize_relative(value: &str) -> (r: String)
    ensures
        r@ == normal(value@),
{
    text::trim_end_matches(text::trim_start_matches(value, '/').as_str(), '/')
}

/// The emulator, where it uses a system image.
pub open spec fn if_uses(image: Seq<char>) -> spec_fn(AvdModel) -> Option<Seq<char>> {
    |a: AvdModel|
    if a.image is Some && normal(a.image->0) == image {
        Some(a.name)
    } else {
        None
    }
}

/// The emulators that use a system image.
pub open spec fn users_of(avds: Seq<AvdModel>, image: Seq<char>) -> Seq<Seq<char>> {
    collect_some(avds, if_uses(image))
}

fn uses(a: &Avd, image: &str) -> (r: Option<String>)
    ensures
        view_of(r) == if_uses(image@)(a@),
{
    match &a.image {
        Some(i) => if same(normalize_relative(i.as_str()).as_str(), image) {
            Some(a.name.clone())
        } else {
            None
        },
        None => None,
    }
}

fn users(avds: &Vec<Avd>, image: &str) -> (r: Vec<String>)
    ensures
        views(r@) == collect_some(views(avds@), if_uses(image@)),
{
    let ghost all = views(avds@);
    let ghost f = if_uses(image@);
    let mut out: Vec<String> = Vec::new();
    let limit: usize = avds.len();
    let mut i: usize = 0;
    assert(views(out@) =~= collect_some(all.take(0), f));
    while i < limit
        invariant
            i <= limit <= avds@.len(),
            all == views(avds@),
            f == if_uses(image@),
            views(out@) == collect_some(all.take(i as int), f),
        decreases limit - i,
    {
        proof {
            lemma_collect_step(all, i as int, f);
        }
        assert(all[i as int] == avds@[i as int]@);
        if let Some(x) = uses(&avds[i], image) {
            out.push(x);
        }
        i += 1;
    }
    assert(all.take(limit as int) =~= all);
    out
}

/// What is said of a system image that an emulator uses.
pub open spec fn referenced_draft(
    image: Seq<char>,
    package: Seq<char>,
    used_by: Seq<Seq<char>>,
    bytes: u64,
) -> Draft {
    draft(
        android(),
        "android-referenced-system-image"@,
        "tool-cache"@,
        package,
        "Referenced Android image "@ + image,
        Safety::Protected,
        bytes,
    )
        .diagnostic()
        .protected()
        .confidence(Confidence::Exact)
        .reason("At least one configured AVD references this system image."@)
        .evidence("AVDs"@, text::joined(used_by, ", "@))
        .copy(
        "An installed Android emulator system image."@,
        "Removing it prevents the listed AVDs from booting."@,
        "Protected because Hokori found explicit AVD references."@,
    )
}

/// What is said of a system image that no emulator uses.
pub open spec fn unreferenced_draft(image: Seq<char>, package: Seq<char>, bytes: u64) -> Draft {
    draft(
        android(),
        "android-unreferenced-system-image"@,
        "tool-cache"@,
        package,
        "Unreferenced Android image "@ + image,
        Safety::Review,
        bytes,
    )
        .manual()
        .confidence(Confidence::Exact)
        .reason("No configured AVD references this installed system image."@)
        .evidence("SDK package"@, package)
        .copy(
        "A downloaded Android emulator system image not referenced by any configured AVD."@,
        "Creating an emulator for this platform requires downloading the image again."@,
        "Review platform requirements before uninstalling it through sdkmanager."@,
    )
}

/// The finding for a system image that is large enough: one in use is only
/// mentioned, and only by a deep scan.
pub open spec fn image_row(
    sdk: Seq<char>,
    avds: Seq<AvdModel>,
    uninstall: bool,
    settings: ProviderSettings,
) -> spec_fn((Seq<char>, u64)) -> Option<FindingModel> {
    |x: (Seq<char>, u64)|
    match paths::relative_to(x.0, sdk) {
        Some(relative) => {
            let image = normal(relative);
            let package = text::replaced(image, '/', ";"@);
            let used_by = users_of(avds, image);
            if x.1 < settings.min_size_bytes {
                None
            } else if used_by.len() > 0 {
                if settings.profile == ScanProfile::Deep {
                    Some(referenced_draft(image, package, used_by, x.1).build())
                } else {
                    None
                }
            } else if uninstall {
                Some(unreferenced_draft(image, package, x.1)
                        .action(
                        "uninstall-system-image"@,
                        seq!["sdkmanager"@, "--uninstall"@, package],
                        true,
                        true,
                    )
                        .build())
            } else {
                Some(unreferenced_draft(image, package, x.1).report_only().build())
            }
        },
        None => None,
    }
}

fn image_finding(
    path: &str,
    bytes: u64,
    sdk: &str,
    avds: &Vec<Avd>,
    uninstall: bool,
    settings: &ProviderSettings,
) -> (r: Option<Finding>)
    ensures
        view_of(r) == image_row(sdk@, views(avds@), uninstall, *settings)((path@, bytes)),
{
    let relative = match paths::strip_prefix(path, sdk) {
        Some(x) => x,
        None => {
            return None;
        },
    };
    if bytes < settings.min_size_bytes {
        return None;
    }
    let normalized = normalize_relative(relative.as_str());
    let image = normalized.as_str();
    let named = text::replace(image, '/', ";");
    let package = named.as_str();
    let used_by = users(avds, image);
    if used_by.len() > 0 {
        return match settings.profile {
            ScanProfile::Deep => Some(ProviderFinding::object(
                    metadata(),
                    "android-referenced-system-image",
                    "tool-cache",
                    package,
                    "Referenced Android image ".to_owned().concat(image).as_str(),
                    Safety::Protected,
                    bytes,
                )
                    .diagnostic()
                    .protected()
                    .confidence(Confidence::Exact)
                    .reason("At least one configured AVD references this system image.")
                    .evidence("AVDs", text::join(&used_by, ", ").as_str())
                    .copy(
                    "An installed Android emulator system image.",
                    "Removing it prevents the listed AVDs from booting.",
                    "Protected because Hokori found explicit AVD references.",
                )
                    .build()),
            ScanProfile::Quick => None,
        };
    }
    let builder = ProviderFinding::object(
        metadata(),
        "android-unreferenced-system-image",
        "tool-cache",
        package,
        "Unreferenced Android image ".to_owned().concat(image).as_str(),
        Safety::Review,
        bytes,
    )
        .manual()
        .confidence(Confidence::Exact)
        .reason("No configured AVD references this installed system image.")
        .evidence("SDK package", package)
        .copy(
        "A downloaded Android emulator system image not referenced by any configured AVD.",
        "Creating an emulator for this platform requires downloading the image again.",
        "Review platform requirements before uninstalling it through sdkmanager.",
    );
    Some(
        if uninstall {
            builder
                .action(
                "uninstall-system-image",
                text::texts3("sdkmanager", "--uninstall", package),
                true,
                true,
            )
                .build()
        } else {
            builder.report_only().build()
        },
    )
}

/// The findings for system images of an SDK; `bytes` says what each takes.
pub fn system_image_findings(images: &Vec<String>, bytes: &Vec<u64>, sdk: &str, avds: &Vec<Avd>, uninstall: bool, settings: &ProviderSettings) -> (r: Vec<Finding>)
    ensures
        views(r@) == collect_some(paired(views(images@), bytes@), image_row(sdk@, views(avds@), uninstall, *settings)),
{
    let ghost f = image_row(sdk@, views(avds@), uninstall, *settings);
    let ghost pairs = paired(views(images@), bytes@);
    let mut out: Vec<Finding> = Vec::new();

    let n: usize = images.len();
    let limit: usize = if n < bytes.len() {
        n
    } else {
        bytes.len()
    };
    let mut i: usize = 0;
    while i < limit
        invariant
            i <= limit,
            limit <= bytes@.len(),
            limit == pairs.len(),
            limit <= images@.len(),
            pairs == paired(views(images@), bytes@),
            f == image_row(sdk@, views(avds@), uninstall, *settings),
            views(out@) == collect_some(pairs.take(i as int), f),
        decreases limit - i,
    {
        proof {
            lemma_collect_step(pairs, i as int, f);
        }
        assert(pairs[i as int] == (images@[i as int]@, bytes@[i as int]));
        if let Some(x) = image_finding(images[i].as_str(), bytes[i], sdk, avds, uninstall, settings) {
            out.push(x);
        }
        i += 1;
    }
    assert(pairs.take(i as int) =~= pairs);
    out
}

// ---- actions ----

/// Whether a command is the one for an action on an object.
pub open spec fn action_command(
    action: Seq<char>,
    object: Seq<char>,
    p: CommandPolicy,
    args: Seq<Seq<char>>,
) -> bool {
    if action == "delete-avd"@ {
        is_policy(
            p,
            "android-delete-avd"@,
            avdmanager_executables(),
            true,
            false,
            seq![Arg::Is("delete"), Arg::Is("avd"), Arg::Is("--name"), Arg::Token],
        ) && args == seq!["delete"@, "avd"@, "--name"@, object]
    } else if action == "uninstall-system-image"@ {
        is_policy(
            p,
            "android-uninstall-sdk-package"@,
            sdkmanager_executables(),
            true,
            false,
            seq![Arg::Is("--uninstall"), Arg::Token],
        ) && args == seq!["--uninstall"@, object]
    } else {
        false
    }
}

/// The actions that the provider knows.
pub open spec fn known_action(action: Seq<char>) -> bool {
    action == "delete-avd"@
        || action == "uninstall-system-image"@
}

/// The command that carries out the action of a finding.
pub fn plan_action(finding: &Finding) -> (r: Result<(CommandPolicy, Vec<String>), String>)
    ensures
        match finding.native_action {
            None => r matches Err(e) && e@ == "Android action missing"@,
            Some(a) => match r {
                Ok(c) => known_action(a.action_id@) && action_command(
                    a.action_id@,
                    a.object_id@,
                    c.0,
                    views(c.1@),
                ),
                Err(e) => !known_action(a.action_id@) && e@ == "unknown Android action "@ + a.action_id@,
            },
        },
{
    match &finding.native_action {
        None => Err("Android action missing".to_owned()),
        Some(a) => {
            let id = a.action_id.as_str();
            let object = a.object_id.as_str();
            if same(id, "delete-avd") {
                Ok((avd_delete(), text::texts4("delete", "avd", "--name", object)))
            } else if same(id, "uninstall-system-image") {
                Ok((sdk_uninstall(), text::texts2("--uninstall", object)))
            } else {
                Err("unknown Android action ".to_owned().concat(id))
            }
        },
    }
}

/// The finding stands where a fresh scan finds it again.
pub fn revalidate(refreshed: &Vec<Finding>, finding: &Finding) -> (r: Revalidation)
    ensures
        r@ == revalidated(refreshed@, finding.stable_id@, "Android emulator or SDK references changed since the scan."@),
{
    revalidate_against(refreshed, finding, "Android emulator or SDK references changed since the scan.")
}

/// What a finding's action is reported to have done, once it has run.
pub fn executed(finding: &Finding) -> (r: Option<ProviderExecution>)
    ensures
        match (finding.native_action, r) {
            (None, None) => true,
            (Some(a), Some(e)) => e.deleted == 1 && e.freed_bytes == finding.bytes && e.message@
                == "Removed Android object "@ + a.object_id@ + "."@,
            _ => false,
        },
{
    match &finding.native_action {
        Some(a) => Some(completed(
                finding,
                "Removed Android object ".to_owned().concat(a.object_id.as_str()).concat("."),
        )),
        None => None,
    }
}

// ---- laws ----

/// An emulator that runs is protected, and every other one is for a decision of
/// its own.
pub proof fn law_running_emulators_stay(
    has_sdk: bool,
    commands: Seq<Seq<char>>,
    delete: bool,
    settings: ProviderSettings,
    a: AvdModel,
    facts: AvdFacts,
)
    ensures
        match avd_row(has_sdk, commands, delete, settings)((a, facts)) {
            Some(f) => f.manual_only && (is_running(commands, a.name) ==> f.native_action is None
                    && f.bytes == 0 && f.safety == Safety::Protected),
            None => true,
        },
{
}

/// A system image that an emulator uses is never offered.
pub proof fn law_used_images_stay(
    sdk: Seq<char>,
    avds: Seq<AvdModel>,
    uninstall: bool,
    settings: ProviderSettings,
    path: Seq<char>,
    bytes: u64,
)
    requires
        paths::relative_to(path, sdk) is Some,
        users_of(avds, normal(paths::relative_to(path, sdk)->0)).len() > 0,
    ensures
        match image_row(sdk, avds, uninstall, settings)((path, bytes)) {
            Some(f) => f.native_action is None && f.bytes == 0 && f.safety == Safety::Protected,
            None => true,
        },
{
}

/// A command for an action is one that its own policy accepts, where the object is a
/// name that can be handed to a tool.
pub proof fn law_planned_commands_are_admitted(
    action: Seq<char>,
    object: Seq<char>,
    p: CommandPolicy,
    args: Seq<Seq<char>>,
)
    requires
        action_command(action, object, p, args),
        is_token(object),
    ensures
        admits(p.args@, args),
{
}

/// An emulator is reported exactly where its data or its image is missing, or it is
/// old enough and holds what was asked for. One that runs is protected; one that does
/// not is deleted by its own tool alone.
pub proof fn law_emulators_are_reported(
    has_sdk: bool,
    commands: Seq<Seq<char>>,
    delete: bool,
    settings: ProviderSettings,
    a: AvdModel,
    facts: AvdFacts,
)
    ensures
        ({
            let broken = !facts.data_is_dir || (a.image is Some && has_sdk && !facts.image_is_dir);
            avd_row(has_sdk, commands, delete, settings)((a, facts)) is Some <==> broken || (a.age is Some
                && a.age->0 >= settings.min_age_days && facts.bytes >= settings.min_size_bytes)
        }),
        avd_row(has_sdk, commands, delete, settings)((a, facts)) matches Some(f) ==> {
            let running = is_running(commands, a.name);
            &&& f.native_action is Some <==> !running && delete
            &&& running ==> f.safety == Safety::Protected && f.bytes == 0
            &&& !running ==> f.bytes == facts.bytes && (f.report_only <==> !delete)
            &&& f.manual_only
        },
{
}

/// An emulator runs exactly where a command of the emulator names it.
pub proof fn law_running_emulators(commands: Seq<Seq<char>>, name: Seq<char>)
    ensures
        is_running(commands, name) <==> exists|i: int|
        0 <= i < commands.len() && text::occurs(#[trigger] commands[i], "emulator"@) && (text::occurs(
            commands[i],
            "@"@ + name,
        ) || text::occurs(commands[i], "-avd "@ + name)),
{
    if exists|i: int|
        0 <= i < commands.len() && text::occurs(#[trigger] commands[i], "emulator"@) && (text::occurs(
            commands[i],
            "@"@ + name,
        ) || text::occurs(commands[i], "-avd "@ + name)) {
        let i = choose|i: int|
        0 <= i < commands.len() && text::occurs(#[trigger] commands[i], "emulator"@) && (text::occurs(
            commands[i],
            "@"@ + name,
        ) || text::occurs(commands[i], "-avd "@ + name));
        assert(runs_avd(commands[i], name));
    }
}

/// A system image is offered for removal exactly where no emulator uses it and it
/// holds what was asked for; one that is used is shown by a deep scan alone.
pub proof fn law_unused_images_are_offered(
    sdk: Seq<char>,
    avds: Seq<AvdModel>,
    uninstall: bool,
    settings: ProviderSettings,
    path: Seq<char>,
    bytes: u64,
)
    requires
        paths::relative_to(path, sdk) is Some,
    ensures
        ({
            let image = normal(paths::relative_to(path, sdk)->0);
            let used = exists|i: int|
            0 <= i < avds.len() && (#[trigger] avds[i]).image is Some && normal(avds[i].image->0) == image;
            let row = image_row(sdk, avds, uninstall, settings)((path, bytes));
            &&& row is Some <==> bytes >= settings.min_size_bytes && (!used || settings.profile
                == ScanProfile::Deep)
            &&& row is Some && used ==> row->0.safety == Safety::Protected && row->0.native_action is None
                && row->0.bytes == 0
            &&& row is Some && !used ==> row->0.safety == Safety::Review && row->0.bytes == bytes
                && row->0.manual_only && (row->0.native_action is Some <==> uninstall)
        }),
{
    let image = normal(paths::relative_to(path, sdk)->0);
    let f = if_uses(image);
    let users = users_of(avds, image);
    if users.len() > 0 {
        crate::seqs::lemma_collect_origin(avds, f, 0);
        let i = choose|i: int| 0 <= i < avds.len() && f(#[trigger] avds[i]) == Some(users[0]);
        assert(avds[i].image is Some && normal(avds[i].image->0) == image);
    }
    if exists|i: int|
        0 <= i < avds.len() && (#[trigger] avds[i]).image is Some && normal(avds[i].image->0) == image {
        let i = choose|i: int|
        0 <= i < avds.len() && (#[trigger] avds[i]).image is Some && normal(avds[i].image->0) == image;
        crate::seqs::lemma_collected(avds, f, i);
    }
}

/// The SDK lies where the first of its variables says, or else in its place below the
/// home directory.
pub proof fn law_place_of_the_sdk(root: Option<Seq<char>>, set: Option<Seq<char>>, home: Option<Seq<char>>)
    ensures
        root is Some ==> sdk_place(root, set, home) == root,
        root is None && set is Some ==> sdk_place(root, set, home) == set,
        root is None && set is None && home is Some ==> sdk_place(root, set, home) == Some(
            paths::below(home->0, "Library/Android/sdk"@),
        ),
        root is None && set is None && home is None ==> sdk_place(root, set, home) is None,
{
}

/// An emulator is told by its definition: by the name of the file, by the path that it
/// gives or the usual one, and by the image and target of its settings.
pub proof fn law_emulators_are_told_by_their_files(
    directory: Seq<char>,
    ini: Seq<char>,
    name: Seq<char>,
    definition: Option<Seq<char>>,
    config: Option<Seq<char>>,
    age: Option<u64>,
    p: Seq<char>,
)
    requires
        paths::stem_of(ini) == Some(name),
    ensures
        avd_of(directory, ini, definition, config, age) matches Some(a) && {
            &&& a.name == name
            &&& a.ini_path == ini
            &&& a.age == age
            &&& (property(definition, "path"@) == Some(p) ==> a.data_path == p)
            &&& (property(definition, "path"@) is None ==> a.data_path == paths::below(directory, name + ".avd"@))
            &&& (property(config, "image.sysdir.1"@) == Some(p) ==> a.image == Some(text::trim_end_of(p, '/')))
            &&& (property(config, "image.sysdir.1"@) is None ==> a.image is None)
            &&& (property(definition, "target"@) == Some(p) ==> a.target == Some(p))
            &&& (property(definition, "target"@) is None ==> a.target == property(config, "target"@))
        },
        property(None, p) is None,
        definition matches Some(c) ==> property(definition, p) == printed_value(text::lines_of(c), '=', p),
{
}

/// An action is carried out by the command of its tool that does just this, to the
/// object that it names.
pub proof fn law_actions_run_their_command(action: Seq<char>, object: Seq<char>, p: CommandPolicy, args: Seq<Seq<char>>)
    requires
        action_command(action, object, p, args),
    ensures
        p@.mutating,
        ({
            ||| action == "delete-avd"@ && p@.executables.last()@ == "avdmanager"@ && args == seq!["delete"@, "avd"@, "--name"@, object]
            ||| action == "uninstall-system-image"@ && p@.executables.last()@ == "sdkmanager"@ && args == seq!["--uninstall"@, object]
        }),
{
}

/// The actions that are known delete an emulator or uninstall an image.
pub proof fn law_known_actions_are_carried_out(action: Seq<char>)
    ensures
        known_action(action) <==> action == "delete-avd"@ || action == "uninstall-system-image"@,
{
}

} // verus!
