//! Stable product taxonomy shared by filesystem rules, native providers, and
//! every output surface. Rule categories remain precise; sections and groups
//! keep the interface navigable as coverage grows.

use crate::text::same;
use vstd::prelude::*;
use vstd::std_specs::cmp::PartialOrdSpec;

verus! {

#[derive(Debug, Clone, Copy, PartialEq, Eq, Hash, Ord, Structural)]
pub enum Section {
    QuickCleanup,
    Developer,
    Applications,
    System,
    Analysis,
}

/// The heading of a section.
pub open spec fn section_label(s: Section) -> Seq<char> {
    match s {
        Section::QuickCleanup => "Quick Cleanup"@,
        Section::Developer => "Developer"@,
        Section::Applications => "Applications"@,
        Section::System => "System"@,
        Section::Analysis => "Analysis"@,
    }
}

/// The place of a section among the others.
pub open spec fn section_order(s: Section) -> u8 {
    match s {
        Section::QuickCleanup => 0,
        Section::Developer => 1,
        Section::Applications => 2,
        Section::System => 3,
        Section::Analysis => 4,
    }
}

impl Section {
    /// The heading of the section.
    pub fn label(self) -> (r: &'static str)
        ensures
            r@ == section_label(self),
    {
        match self {
            Section::QuickCleanup => "Quick Cleanup",
            Section::Developer => "Developer",
            Section::Applications => "Applications",
            Section::System => "System",
            Section::Analysis => "Analysis",
        }
    }

    /// The place of the section among the others.
    pub fn order(self) -> (r: u8)
        ensures
            r == section_order(self),
    {
        match self {
            Section::QuickCleanup => 0,
            Section::Developer => 1,
            Section::Applications => 2,
            Section::System => 3,
            Section::Analysis => 4,
        }
    }
}

impl PartialOrd for Section {
    fn partial_cmp(&self, other: &Section) -> (r: Option<core::cmp::Ordering>) {
        let a: u8 = self.order();
        let b: u8 = other.order();
        if a < b {
            Some(core::cmp::Ordering::Less)
        } else if a == b {
            Some(core::cmp::Ordering::Equal)
        } else {
            Some(core::cmp::Ordering::Greater)
        }
    }
}

impl vstd::std_specs::cmp::PartialOrdSpecImpl for Section {
    open spec fn obeys_partial_cmp_spec() -> bool {
        true
    }

    open spec fn partial_cmp_spec(&self, other: &Section) -> Option<core::cmp::Ordering> {
        if section_order(*self) < section_order(*other) {
            Some(core::cmp::Ordering::Less)
        } else if section_order(*self) == section_order(*other) {
            Some(core::cmp::Ordering::Equal)
        } else {
            Some(core::cmp::Ordering::Greater)
        }
    }
}

/// The sections, in the order in which they are shown.
pub open spec fn sections() -> Seq<Section> {
    seq![
        Section::QuickCleanup,
        Section::Developer,
        Section::Applications,
        Section::System,
        Section::Analysis,
    ]
}

/// A section's number is its place in the order in which sections are shown.
pub proof fn law_sections_have_their_place(a: Section)
    ensures
        section_order(a) < sections().len(),
        sections()[section_order(a) as int] == a,
{
}

/// Sections compare by their places.
pub proof fn law_sections_compare_by_place(a: Section, b: Section)
    ensures
        (a.partial_cmp_spec(&b) == Some(core::cmp::Ordering::Less)) <==> section_order(a)
            < section_order(b),
        (a.partial_cmp_spec(&b) == Some(core::cmp::Ordering::Equal)) <==> a == b,
{
}

/// Every place is that of the section which is shown there.
pub proof fn law_places_number_the_sections(i: int)
    requires
        0 <= i < sections().len(),
    ensures
        section_order(sections()[i]) == i,
{
    assert(i == 0 || i == 1 || i == 2 || i == 3 || i == 4);
}

/// No two sections share a place.
pub proof fn law_section_order_injective(a: Section, b: Section)
    ensures
        section_order(a) == section_order(b) ==> a == b,
{
}

#[derive(Debug, Clone, Copy, PartialEq, Eq, Hash, PartialOrd, Ord, Structural)]
pub enum Subgroup {
    Recommended,
    Packages,
    ContainersVms,
    AppleMobile,
    Repositories,
    Toolchains,
    AiAssets,
    Ides,
    ProjectArtifacts,
    Browsers,
    Media,
    Communication,
    Cloud,
    AppCaches,
    Diagnostics,
    Storage,
    Duplicates,
    Leftovers,
}

/// The heading of a group.
pub open spec fn subgroup_label(s: Subgroup) -> Seq<char> {
    match s {
        Subgroup::Recommended => "Recommended"@,
        Subgroup::Packages => "Packages"@,
        Subgroup::ContainersVms => "Containers & VMs"@,
        Subgroup::AppleMobile => "Apple & Mobile"@,
        Subgroup::Repositories => "Repositories"@,
        Subgroup::Toolchains => "Toolchains"@,
        Subgroup::AiAssets => "AI Assets"@,
        Subgroup::Ides => "IDEs"@,
        Subgroup::ProjectArtifacts => "Project Artifacts"@,
        Subgroup::Browsers => "Browsers"@,
        Subgroup::Media => "Media"@,
        Subgroup::Communication => "Communication"@,
        Subgroup::Cloud => "Cloud"@,
        Subgroup::AppCaches => "App Caches"@,
        Subgroup::Diagnostics => "Diagnostics"@,
        Subgroup::Storage => "Storage"@,
        Subgroup::Duplicates => "Duplicates"@,
        Subgroup::Leftovers => "Leftovers"@,
    }
}

/// The mark shown beside the findings of a group.
pub open spec fn subgroup_icon(s: Subgroup) -> Seq<char> {
    match s {
        Subgroup::Recommended => "*"@,
        Subgroup::Packages => "P"@,
        Subgroup::ContainersVms => "V"@,
        Subgroup::AppleMobile => "A"@,
        Subgroup::Repositories => "G"@,
        Subgroup::Toolchains => "T"@,
        Subgroup::AiAssets => "M"@,
        Subgroup::Ides => "I"@,
        Subgroup::ProjectArtifacts => "B"@,
        Subgroup::Browsers => "W"@,
        Subgroup::Media => "C"@,
        Subgroup::Communication => "@"@,
        Subgroup::Cloud => "^"@,
        Subgroup::AppCaches => "C"@,
        Subgroup::Diagnostics => "!"@,
        Subgroup::Storage => "D"@,
        Subgroup::Duplicates => "="@,
        Subgroup::Leftovers => "?"@,
    }
}

impl Subgroup {
    /// The heading of the group.
    pub fn label(self) -> (r: &'static str)
        ensures
            r@ == subgroup_label(self),
    {
        match self {
            Subgroup::Recommended => "Recommended",
            Subgroup::Packages => "Packages",
            Subgroup::ContainersVms => "Containers & VMs",
            Subgroup::AppleMobile => "Apple & Mobile",
            Subgroup::Repositories => "Repositories",
            Subgroup::Toolchains => "Toolchains",
            Subgroup::AiAssets => "AI Assets",
            Subgroup::Ides => "IDEs",
            Subgroup::ProjectArtifacts => "Project Artifacts",
            Subgroup::Browsers => "Browsers",
            Subgroup::Media => "Media",
            Subgroup::Communication => "Communication",
            Subgroup::Cloud => "Cloud",
            Subgroup::AppCaches => "App Caches",
            Subgroup::Diagnostics => "Diagnostics",
            Subgroup::Storage => "Storage",
            Subgroup::Duplicates => "Duplicates",
            Subgroup::Leftovers => "Leftovers",
        }
    }

    fn icon(self) -> (r: &'static str)
        ensures
            r@ == subgroup_icon(self),
    {
        match self {
            Subgroup::Recommended => "*",
            Subgroup::Packages => "P",
            Subgroup::ContainersVms => "V",
            Subgroup::AppleMobile => "A",
            Subgroup::Repositories => "G",
            Subgroup::Toolchains => "T",
            Subgroup::AiAssets => "M",
            Subgroup::Ides => "I",
            Subgroup::ProjectArtifacts => "B",
            Subgroup::Browsers => "W",
            Subgroup::Media => "C",
            Subgroup::Communication => "@",
            Subgroup::Cloud => "^",
            Subgroup::AppCaches => "C",
            Subgroup::Diagnostics => "!",
            Subgroup::Storage => "D",
            Subgroup::Duplicates => "=",
            Subgroup::Leftovers => "?",
        }
    }
}

/// What the interface shows of a rule category.
#[derive(Debug, Clone, Copy)]
pub struct CategoryInfo<'a> {
    pub id: &'a str,
    pub label: &'static str,
    pub icon: &'static str,
    pub description: &'static str,
    pub section: Section,
    pub subgroup: Subgroup,
    pub order: u16,
}

/// One row of the category table.
#[verifier::ext_equal]
pub struct CategoryRow {
    pub label: Seq<char>,
    pub description: Seq<char>,
    pub section: Section,
    pub subgroup: Subgroup,
    pub order: u16,
}

/// The row of the category table for a category id.
pub open spec fn category_row(id: Seq<char>) -> CategoryRow {
    if id == "package-manager-cache"@ {
        CategoryRow {
            label: "Package caches"@,
            description: "Download and package stores owned by package managers."@,
            section: Section::Developer,
            subgroup: Subgroup::Packages,
            order: 100,
        }
    } else if id == "project-artifact"@ || id == "project-junk"@ || id == "gitignored (pick by hand)"@ {
        CategoryRow {
            label: "Project artifacts"@,
            description: "Generated dependencies, build products, and project-local caches."@,
            section: Section::Developer,
            subgroup: Subgroup::ProjectArtifacts,
            order: 110,
        }
    } else if id == "compiler-cache"@ || id == "dev-cache"@ || id == "tool-cache"@ {
        CategoryRow {
            label: "Developer caches"@,
            description: "Compiler and developer-tool data that can be regenerated."@,
            section: Section::Developer,
            subgroup: Subgroup::ProjectArtifacts,
            order: 120,
        }
    } else if id == "toolchain-cache"@ || id == "installed-tools"@ {
        CategoryRow {
            label: "Toolchains"@,
            description: "Installed language runtimes, SDKs, and their download caches."@,
            section: Section::Developer,
            subgroup: Subgroup::Toolchains,
            order: 130,
        }
    } else if id == "virtualization"@ || id == "virtualization-cache"@ {
        CategoryRow {
            label: "Containers & VMs"@,
            description: "Container engines, virtual machines, images, and build cache."@,
            section: Section::Developer,
            subgroup: Subgroup::ContainersVms,
            order: 140,
        }
    } else if id == "simulator-runtime"@ {
        CategoryRow {
            label: "Simulator runtimes"@,
            description: "Xcode simulator devices, runtime images, and generated runtime caches."@,
            section: Section::Developer,
            subgroup: Subgroup::AppleMobile,
            order: 141,
        }
    } else if id == "android-emulator"@ {
        CategoryRow {
            label: "Android emulators"@,
            description: "Android Virtual Devices and their installed system images."@,
            section: Section::Developer,
            subgroup: Subgroup::AppleMobile,
            order: 142,
        }
    } else if id == "ai-ml-cache"@ || id == "ai-models"@ {
        CategoryRow {
            label: "AI assets"@,
            description: "Downloaded models, datasets, revisions, and generated extensions."@,
            section: Section::Developer,
            subgroup: Subgroup::AiAssets,
            order: 150,
        }
    } else if id == "ide-cache"@ || id == "browser-binaries"@ {
        CategoryRow {
            label: "IDEs & test runtimes"@,
            description: "IDE indexes, runtime bundles, and downloaded test browsers."@,
            section: Section::Developer,
            subgroup: Subgroup::Ides,
            order: 160,
        }
    } else if id == "browser-cache"@ {
        CategoryRow {
            label: "Browsers"@,
            description: "Browser caches and offline web application data."@,
            section: Section::Applications,
            subgroup: Subgroup::Browsers,
            order: 200,
        }
    } else if id == "media-cache"@ || id == "creative-cache"@ || id == "game-cache"@ {
        CategoryRow {
            label: "Media & creative apps"@,
            description: "Generated media, artwork, game, and creative-application caches."@,
            section: Section::Applications,
            subgroup: Subgroup::Media,
            order: 210,
        }
    } else if id == "message-cache"@ || id == "communication-cache"@ {
        CategoryRow {
            label: "Communication"@,
            description: "Message previews and communication application caches."@,
            section: Section::Applications,
            subgroup: Subgroup::Communication,
            order: 220,
        }
    } else if id == "cloud-cache"@ || id == "cloud-sync-cache"@ {
        CategoryRow {
            label: "Cloud storage"@,
            description: "Cloud-client caches and offline copies."@,
            section: Section::Applications,
            subgroup: Subgroup::Cloud,
            order: 230,
        }
    } else if id == "app-cache"@ || id == "app-state"@ || id == "updater-cache"@ || id == "account-cache"@ || id == "ai-system-cache"@ || id == "maps-cache"@ {
        CategoryRow {
            label: "Application caches"@,
            description: "Application runtime, updater, account, and service caches."@,
            section: Section::Applications,
            subgroup: Subgroup::AppCaches,
            order: 240,
        }
    } else if id == "trash"@ || id == "logs"@ || id == "system-cache"@ || id == "finder-metadata"@ {
        CategoryRow {
            label: "System cleanup"@,
            description: "Trash, logs, metadata, and ordinary system-generated files."@,
            section: Section::QuickCleanup,
            subgroup: Subgroup::Recommended,
            order: 10,
        }
    } else if id == "installers"@ || id == "old-downloads"@ {
        CategoryRow {
            label: "Old downloads"@,
            description: "Old installers and archives that are often safe to discard."@,
            section: Section::QuickCleanup,
            subgroup: Subgroup::Recommended,
            order: 20,
        }
    } else if id == "backups"@ || id == "device-firmware"@ || id == "mail-attachments"@ {
        CategoryRow {
            label: "Apple storage"@,
            description: "Backups, device support, firmware, and downloaded attachments."@,
            section: Section::System,
            subgroup: Subgroup::AppleMobile,
            order: 300,
        }
    } else if id == "diagnostic-artifact"@ || id == "large-old-files"@ {
        CategoryRow {
            label: "Diagnostics & large files"@,
            description: "Crash data, heap dumps, and unusually large old files."@,
            section: Section::Analysis,
            subgroup: Subgroup::Diagnostics,
            order: 400,
        }
    } else if id == "tagged-cache"@ {
        CategoryRow {
            label: "Tagged caches"@,
            description: "Owner-declared cache directories requiring manual review."@,
            section: Section::Analysis,
            subgroup: Subgroup::Storage,
            order: 410,
        }
    } else {
        CategoryRow {
            label: "Other findings"@,
            description: "Findings that do not yet have a dedicated product category."@,
            section: Section::Analysis,
            subgroup: Subgroup::Storage,
            order: 999,
        }
    }
}

/// The section, group and wording under which a category is shown.
pub fn category_info<'a>(id: &'a str) -> (r: CategoryInfo<'a>)
    ensures
        r.id@ == id@,
        r.label@ == category_row(id@).label,
        r.description@ == category_row(id@).description,
        r.section == category_row(id@).section,
        r.subgroup == category_row(id@).subgroup,
        r.order == category_row(id@).order,
        r.icon@ == subgroup_icon(category_row(id@).subgroup),
{
    let (label, description, section, subgroup, order): (
        &'static str,
        &'static str,
        Section,
        Subgroup,
        u16,
    ) = if same(id, "package-manager-cache") {
        ("Package caches", "Download and package stores owned by package managers.", Section::Developer, Subgroup::Packages, 100)
    } else if same(id, "project-artifact") || same(id, "project-junk") || same(id, "gitignored (pick by hand)") {
        ("Project artifacts", "Generated dependencies, build products, and project-local caches.", Section::Developer, Subgroup::ProjectArtifacts, 110)
    } else if same(id, "compiler-cache") || same(id, "dev-cache") || same(id, "tool-cache") {
        ("Developer caches", "Compiler and developer-tool data that can be regenerated.", Section::Developer, Subgroup::ProjectArtifacts, 120)
    } else if same(id, "toolchain-cache") || same(id, "installed-tools") {
        ("Toolchains", "Installed language runtimes, SDKs, and their download caches.", Section::Developer, Subgroup::Toolchains, 130)
    } else if same(id, "virtualization") || same(id, "virtualization-cache") {
        ("Containers & VMs", "Container engines, virtual machines, images, and build cache.", Section::Developer, Subgroup::ContainersVms, 140)
    } else if same(id, "simulator-runtime") {
        ("Simulator runtimes", "Xcode simulator devices, runtime images, and generated runtime caches.", Section::Developer, Subgroup::AppleMobile, 141)
    } else if same(id, "android-emulator") {
        ("Android emulators", "Android Virtual Devices and their installed system images.", Section::Developer, Subgroup::AppleMobile, 142)
    } else if same(id, "ai-ml-cache") || same(id, "ai-models") {
        ("AI assets", "Downloaded models, datasets, revisions, and generated extensions.", Section::Developer, Subgroup::AiAssets, 150)
    } else if same(id, "ide-cache") || same(id, "browser-binaries") {
        ("IDEs & test runtimes", "IDE indexes, runtime bundles, and downloaded test browsers.", Section::Developer, Subgroup::Ides, 160)
    } else if same(id, "browser-cache") {
        ("Browsers", "Browser caches and offline web application data.", Section::Applications, Subgroup::Browsers, 200)
    } else if same(id, "media-cache") || same(id, "creative-cache") || same(id, "game-cache") {
        ("Media & creative apps", "Generated media, artwork, game, and creative-application caches.", Section::Applications, Subgroup::Media, 210)
    } else if same(id, "message-cache") || same(id, "communication-cache") {
        ("Communication", "Message previews and communication application caches.", Section::Applications, Subgroup::Communication, 220)
    } else if same(id, "cloud-cache") || same(id, "cloud-sync-cache") {
        ("Cloud storage", "Cloud-client caches and offline copies.", Section::Applications, Subgroup::Cloud, 230)
    } else if same(id, "app-cache") || same(id, "app-state") || same(id, "updater-cache") || same(id, "account-cache") || same(id, "ai-system-cache") || same(id, "maps-cache") {
        ("Application caches", "Application runtime, updater, account, and service caches.", Section::Applications, Subgroup::AppCaches, 240)
    } else if same(id, "trash") || same(id, "logs") || same(id, "system-cache") || same(id, "finder-metadata") {
        ("System cleanup", "Trash, logs, metadata, and ordinary system-generated files.", Section::QuickCleanup, Subgroup::Recommended, 10)
    } else if same(id, "installers") || same(id, "old-downloads") {
        ("Old downloads", "Old installers and archives that are often safe to discard.", Section::QuickCleanup, Subgroup::Recommended, 20)
    } else if same(id, "backups") || same(id, "device-firmware") || same(id, "mail-attachments") {
        ("Apple storage", "Backups, device support, firmware, and downloaded attachments.", Section::System, Subgroup::AppleMobile, 300)
    } else if same(id, "diagnostic-artifact") || same(id, "large-old-files") {
        ("Diagnostics & large files", "Crash data, heap dumps, and unusually large old files.", Section::Analysis, Subgroup::Diagnostics, 400)
    } else if same(id, "tagged-cache") {
        ("Tagged caches", "Owner-declared cache directories requiring manual review.", Section::Analysis, Subgroup::Storage, 410)
    } else {
        ("Other findings", "Findings that do not yet have a dedicated product category.", Section::Analysis, Subgroup::Storage, 999)
    };
    CategoryInfo { id, label, icon: subgroup.icon(), description, section, subgroup, order }
}

} // verus!
