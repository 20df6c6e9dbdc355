//! Large files of the user that have not been used for long.

use crate::paths;
use crate::report::{Confidence, Finding, FindingModel};
use crate::rules::Safety;
use crate::seqs::{group_views, view_of, views};
use crate::taxonomy::{Section, Subgroup};
use crate::text;
use crate::text::{digits, same};
use vstd::prelude::*;

use super::duplicates::{in_roots, lies_in_roots};
use super::{
    Capability, Draft, MetadataModel, ProviderExecution, ProviderFinding, ProviderMetadata,
    ProviderSettings, Revalidation, RevalidationModel, ScanCost, available_if, draft,
    is_available_if,
};

verus! {

broadcast use group_views;

pub struct StaleFilesProvider;

/// What the provider is.
pub open spec fn stale_files() -> MetadataModel {
    MetadataModel {
        id: "stale-files"@,
        name: "Large stale files"@,
        section: Section::Analysis,
        subgroup: Subgroup::Storage,
        cost: ScanCost::Slow,
        quick: false,
        deep: true,
        network_in_deep_scan: false,
        supersedes_rules: seq!["old-screen-recordings"@],
    }
}

fn metadata() -> (r: ProviderMetadata)
    ensures
        r@ == stale_files(),
{
    let r = ProviderMetadata {
        id: "stale-files",
        name: "Large stale files",
        section: Section::Analysis,
        subgroup: Subgroup::Storage,
        cost: ScanCost::Slow,
        quick: false,
        deep: true,
        network_in_deep_scan: false,
        supersedes_rules: &["old-screen-recordings"],
    };
    assert(r@.supersedes_rules =~= stale_files().supersedes_rules);
    r
}

impl StaleFilesProvider {
    pub fn metadata(&self) -> (r: ProviderMetadata)
        ensures
            r@ == stale_files(),
    {
        metadata()
    }
}

/// Whether there is a directory to look at.
pub fn probe(roots: bool) -> (r: Capability)
    ensures
        is_available_if(r, roots, "No user-file analysis roots are available."@),
{
    available_if(roots, "No user-file analysis roots are available.")
}

/// The directories of a home directory in which stale files are looked for.
pub fn stale_places() -> (r: Vec<String>)
    ensures
        views(r@) == seq!["Desktop"@, "Documents"@, "Downloads"@, "Movies"@],
{
    text::texts4("Desktop", "Documents", "Downloads", "Movies")
}

/// The days after which a file is stale: the setting, half a year at least.
pub open spec fn stale_days(min_age: u64) -> u64 {
    if min_age > 180 {
        min_age
    } else {
        180
    }
}

/// The size from which a file is looked at: the setting, half a gigabyte at
/// least.
pub open spec fn stale_bytes(min_size: u64) -> u64 {
    if min_size > 0x1f40_0000 {
        min_size
    } else {
        0x1f40_0000
    }
}

/// Whether the search goes on into a directory, with so many files found.
pub fn search_goes_on(depth: usize, found: usize, cancelled: bool) -> (r: bool)
    ensures
        r == (depth <= 10 && found < 5_000 && !cancelled),
{
    depth <= 10 && found < 5_000 && !cancelled
}

/// Directories that the search does not enter: libraries, backups, clouds and
/// repositories.
pub open spec fn is_passed_over(name: Seq<char>, has_git: bool) -> bool {
    ||| name == ".git"@
    ||| name == "node_modules"@
    ||| name == "target"@
    ||| name == "Library"@
    ||| name == "CloudStorage"@
    ||| name == "Mobile Documents"@
    ||| name == "Backups.backupdb"@
    ||| name == "MobileSync"@
    ||| text::ends(name, ".photoslibrary"@)
    ||| has_git
}

/// What the search does with an entry.
#[derive(Debug, Clone, Copy, PartialEq, Eq, Structural)]
pub enum SearchStep {
    /// It may be stale.
    Examine,
    /// It is searched in turn.
    Enter,
    Skip,
}

/// What the search does with an entry.
pub open spec fn search_choice(
    name: Seq<char>,
    is_symlink: bool,
    is_dir: bool,
    is_file: bool,
    has_git: bool,
    len: u64,
    min_size: u64,
) -> SearchStep {
    if is_symlink {
        SearchStep::Skip
    } else if is_dir {
        if is_passed_over(name, has_git) {
            SearchStep::Skip
        } else {
            SearchStep::Enter
        }
    } else if is_file && !text::ends(name, ".icloud"@) && len >= stale_bytes(min_size) {
        SearchStep::Examine
    } else {
        SearchStep::Skip
    }
}

/// What the search does with an entry: links and placeholders of a cloud are
/// never looked at.
pub fn search_step(
    name: &str,
    is_symlink: bool,
    is_dir: bool,
    is_file: bool,
    has_git: bool,
    len: u64,
    settings: &ProviderSettings,
) -> (r: SearchStep)
    ensures
        r == search_choice(name@, is_symlink, is_dir, is_file, has_git, len, settings.min_size_bytes),
{
    let floor: u64 = if settings.min_size_bytes > 0x1f40_0000 {
        settings.min_size_bytes
    } else {
        0x1f40_0000
    };
    if is_symlink {
        SearchStep::Skip
    } else if is_dir {
        if same(name, ".git") || same(name, "node_modules") || same(name, "target") || same(name, "Library") || same(name, "CloudStorage") || same(name, "Mobile Documents") || same(name, "Backups.backupdb") || same(name, "MobileSync") || text::ends_with(name, ".photoslibrary") || has_git {
            SearchStep::Skip
        } else {
            SearchStep::Enter
        }
    } else if is_file && !text::ends_with(name, ".icloud") && len >= floor {
        SearchStep::Examine
    } else {
        SearchStep::Skip
    }
}

// ---- ages ----

/// A time stamp of a file, against the present.
#[derive(Debug, Clone, Copy, PartialEq, Eq, Structural)]
pub enum Stamp {
    Unknown,
    /// It lies in the future.
    Ahead,
    /// It lies so many seconds back.
    Ago(u64),
}

/// The days since a file was last read or written; the later of the two
/// counts, and the beginning of time where neither is known.
pub open spec fn latest_age(accessed: Stamp, modified: Stamp, now: u64) -> u64 {
    match (accessed, modified) {
        (Stamp::Ahead, _) => 0,
        (_, Stamp::Ahead) => 0,
        (Stamp::Ago(a), Stamp::Ago(b)) => if a < b {
            (a / 86_400) as u64
        } else {
            (b / 86_400) as u64
        },
        (Stamp::Ago(a), Stamp::Unknown) => (a / 86_400) as u64,
        (Stamp::Unknown, Stamp::Ago(b)) => (b / 86_400) as u64,
        (Stamp::Unknown, Stamp::Unknown) => (now / 86_400) as u64,
    }
}

/// The days since a file was last read or written.
pub fn latest_age_days(accessed: Stamp, modified: Stamp, now: u64) -> (r: u64)
    ensures
        r == latest_age(accessed, modified, now),
{
    match (accessed, modified) {
        (Stamp::Ahead, _) => 0,
        (_, Stamp::Ahead) => 0,
        (Stamp::Ago(a), Stamp::Ago(b)) => if a < b {
            a / 86_400
        } else {
            b / 86_400
        },
        (Stamp::Ago(a), Stamp::Unknown) => a / 86_400,
        (Stamp::Unknown, Stamp::Ago(b)) => b / 86_400,
        (Stamp::Unknown, Stamp::Unknown) => now / 86_400,
    }
}

/// A moment in seconds since 1970, in words.
pub open spec fn moment_text(secs: Option<u64>) -> Seq<char> {
    match secs {
        Some(s) => "Unix "@ + digits(s as nat),
        None => "unknown"@,
    }
}

pub fn timestamp(secs: Option<u64>) -> (r: String)
    ensures
        r@ == moment_text(secs),
{
    match secs {
        Some(s) => "Unix ".to_owned().concat(text::decimal(s).as_str()),
        None => "unknown".to_owned(),
    }
}

// ---- findings ----

/// A large file.
pub struct LargeFile {
    pub path: String,
    pub bytes: u64,
    /// The days since it was last used.
    pub age: u64,
    /// When it was last read, in seconds since 1970.
    pub accessed: Option<u64>,
    pub modified: Option<u64>,
}

#[verifier::ext_equal]
pub struct LargeFileModel {
    pub path: Seq<char>,
    pub bytes: u64,
    pub age: u64,
    pub accessed: Option<u64>,
    pub modified: Option<u64>,
}

impl View for LargeFile {
    type V = LargeFileModel;

    open spec fn view(&self) -> LargeFileModel {
        LargeFileModel {
            path: self.path@,
            bytes: self.bytes,
            age: self.age,
            accessed: self.accessed,
            modified: self.modified,
        }
    }
}

/// What is said of a stale file.
pub open spec fn stale_draft(f: LargeFileModel) -> Draft {
    draft(
        stale_files(),
        "large-stale-file"@,
        "large-old-files"@,
        f.path,
        paths::name_of(f.path),
        Safety::Risky,
        f.bytes,
    )
        .filesystem_path(f.path)
        .age(Some(f.age), false)
        .manual()
        .confidence(Confidence::Exact)
        .reason(
        "Both the last-access and modification timestamps are outside the stale-file threshold."@,
    )
        .evidence("Last accessed"@, moment_text(f.accessed))
        .evidence("Last modified"@, moment_text(f.modified))
        .copy(
        "A very large regular file in a user-content directory that has not been accessed or modified recently."@,
        "The file may be unique user data and cannot be regenerated automatically."@,
        "Open or identify the file before selecting it. Cloud placeholders, backups, libraries, and project repositories are excluded."@,
    )
        .action("trash-stale-file"@, seq!["move file to Trash"@], false, true)
}

/// The finding for a large file that has not been used for long.
pub open spec fn stale_row(f: LargeFileModel, settings: ProviderSettings) -> Option<FindingModel> {
    if f.age < stale_days(settings.min_age_days) {
        None
    } else {
        Some(stale_draft(f).build())
    }
}

/// The finding for a large file that has not been used for long.
pub fn stale_finding(f: &LargeFile, settings: &ProviderSettings) -> (r: Option<Finding>)
    ensures
        view_of(r) == stale_row(f@, *settings),
{
    let days: u64 = if settings.min_age_days > 180 {
        settings.min_age_days
    } else {
        180
    };
    if f.age < days {
        return None;
    }
    Some(ProviderFinding::object(
            metadata(),
            "large-stale-file",
            "large-old-files",
            f.path.as_str(),
            paths::name_or_empty(f.path.as_str()).as_str(),
            Safety::Risky,
            f.bytes,
        )
            .filesystem_path(f.path.as_str())
            .age(Some(f.age), false)
            .manual()
            .confidence(Confidence::Exact)
            .reason(
            "Both the last-access and modification timestamps are outside the stale-file threshold.",
        )
            .evidence("Last accessed", timestamp(f.accessed).as_str())
            .evidence("Last modified", timestamp(f.modified).as_str())
            .copy(
            "A very large regular file in a user-content directory that has not been accessed or modified recently.",
            "The file may be unique user data and cannot be regenerated automatically.",
            "Open or identify the file before selecting it. Cloud placeholders, backups, libraries, and project repositories are excluded.",
        )
            .action("trash-stale-file", text::texts1("move file to Trash"), false, true)
            .build())
}

// ---- removal ----

/// What the disk says of a file before it is removed.
#[derive(Debug, Clone, Copy)]
pub struct FileCheck {
    pub exists: bool,
    /// It is a file, and no link.
    pub regular: bool,
    pub age: u64,
}

/// What a second look at a file says.
pub open spec fn rechecked(
    path: Seq<char>,
    roots: Seq<Seq<char>>,
    check: FileCheck,
    settings: ProviderSettings,
) -> RevalidationModel {
    if !in_roots(path, roots) {
        RevalidationModel::Blocked("The file is outside the configured user-file roots."@)
    } else if !check.exists {
        RevalidationModel::Gone("The file no longer exists."@)
    } else if !check.regular {
        RevalidationModel::Blocked("The path is no longer a regular file."@)
    } else if check.age < stale_days(settings.min_age_days) {
        RevalidationModel::Changed("The file has been accessed or modified recently."@)
    } else {
        RevalidationModel::Valid
    }
}

/// The file that the action of a finding removes.
pub fn file_of(finding: &Finding) -> (r: Result<String, String>)
    ensures
        match (finding.native_action, r) {
            (Some(a), Ok(p)) => p@ == a.object_id@,
            (None, Err(e)) => e@ == "stale-file action missing"@,
            _ => false,
        },
{
    match &finding.native_action {
        Some(a) => Ok(a.object_id.clone()),
        None => Err("stale-file action missing".to_owned()),
    }
}

/// A second look at a file before it is removed.
pub fn recheck(path: &str, roots: &Vec<String>, check: FileCheck, settings: &ProviderSettings) -> (r:
    Revalidation)
    ensures
        r@ == rechecked(path@, views(roots@), check, *settings),
{
    let days: u64 = if settings.min_age_days > 180 {
        settings.min_age_days
    } else {
        180
    };
    if !lies_in_roots(path, roots) {
        Revalidation::Blocked("The file is outside the configured user-file roots.".to_owned())
    } else if !check.exists {
        Revalidation::Gone("The file no longer exists.".to_owned())
    } else if !check.regular {
        Revalidation::Blocked("The path is no longer a regular file.".to_owned())
    } else if check.age < days {
        Revalidation::Changed("The file has been accessed or modified recently.".to_owned())
    } else {
        Revalidation::Valid
    }
}

/// What is reported once a file that took `bytes` has been removed.
pub fn executed(path: &str, bytes: u64) -> (r: ProviderExecution)
    ensures
        r.deleted == 1,
        r.freed_bytes == bytes,
        r.message@ == "Removed stale file "@ + path@ + "."@,
{
    ProviderExecution {
        deleted: 1,
        freed_bytes: bytes,
        message: "Removed stale file ".to_owned().concat(path).concat("."),
    }
}

// ---- laws ----

/// A file that was used within half a year is never found stale, and a stale
/// one is never for bulk selection.
pub proof fn law_recent_files_stay(f: LargeFileModel, settings: ProviderSettings)
    ensures
        f.age < 180 ==> stale_row(f, settings) is None,
        match stale_row(f, settings) {
            Some(x) => x.manual_only && x.safety == Safety::Risky,
            None => true,
        },
{
}

/// A file is looked at exactly where it is a file, no link and no placeholder, and
/// holds 500 MiB and what was asked for; links are never followed.
pub proof fn law_large_files_are_examined(
    name: Seq<char>,
    is_symlink: bool,
    is_dir: bool,
    is_file: bool,
    has_git: bool,
    len: u64,
    min_size: u64,
)
    ensures
        search_choice(name, is_symlink, is_dir, is_file, has_git, len, min_size) == SearchStep::Examine
            <==> !is_symlink && !is_dir && is_file && !text::ends(name, ".icloud"@) && len >= 500 * 1024
            * 1024 && len >= min_size,
        search_choice(name, is_symlink, is_dir, is_file, has_git, len, min_size) == SearchStep::Enter
            <==> !is_symlink && is_dir && !has_git && name != ".git"@ && name != "node_modules"@ && name
            != "target"@ && name != "Library"@ && name != "CloudStorage"@ && name != "Mobile Documents"@
            && name != "Backups.backupdb"@ && name != "MobileSync"@ && !text::ends(name, ".photoslibrary"@),
{
}

/// A file is reported exactly where it was last used 180 days ago or longer, and as
/// long ago as was asked for; it is reported with its own path and bytes.
pub proof fn law_old_files_are_reported(f: LargeFileModel, settings: ProviderSettings)
    ensures
        stale_row(f, settings) is Some <==> f.age >= 180 && f.age >= settings.min_age_days,
        stale_row(f, settings) matches Some(x) ==> x.path == f.path && x.bytes == f.bytes && x.age_days
            == Some(f.age) && !x.recent && !x.report_only,
{
}

/// The last use of a file is the later of reading and writing it, in whole days; one
/// that lies ahead is now.
pub proof fn law_last_use_is_the_later(a: u64, b: u64, now: u64, other: Stamp)
    ensures
        ({
            let days = latest_age(Stamp::Ago(a), Stamp::Ago(b), now);
            &&& days * 86_400 <= a
            &&& days * 86_400 <= b
            &&& a < (days + 1) * 86_400 || b < (days + 1) * 86_400
        }),
        latest_age(Stamp::Ahead, other, now) == 0,
        latest_age(other, Stamp::Ahead, now) == 0,
        latest_age(Stamp::Ago(a), Stamp::Unknown, now) == latest_age(Stamp::Ago(a), Stamp::Ago(a), now),
        latest_age(Stamp::Unknown, Stamp::Ago(b), now) == latest_age(Stamp::Ago(b), Stamp::Ago(b), now),
{
}

/// A file may go exactly where it still lies in the roots, is there as a file and is
/// still old.
pub proof fn law_files_are_looked_at_again(
    path: Seq<char>,
    roots: Seq<Seq<char>>,
    check: FileCheck,
    settings: ProviderSettings,
)
    ensures
        rechecked(path, roots, check, settings) == RevalidationModel::Valid <==> in_roots(path, roots)
            && check.exists && check.regular && check.age >= 180 && check.age >= settings.min_age_days,
{
}

} // verus!
