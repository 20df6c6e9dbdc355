//! Virtual machines of Lima, OrbStack, Colima and Multipass that are stopped.

use crate::json::{Json, JsonModel, item_models, json_document, parse_json};
use crate::paths;
use crate::report::{Confidence, Finding, FindingModel, FindingSize, SizeAccuracy};
use crate::rules::Safety;
use crate::seqs::{collect_some, group_views, lemma_collect_step, view_of, views};
use crate::taxonomy::{Section, Subgroup};
use crate::text;
use crate::text::{digits, same};
use vstd::prelude::*;

use super::command::{Arg, ArgRule, CommandPolicy, admits, is_policy, is_token};
use super::{
    Capability, Draft, MetadataModel, ProviderExecution, ProviderFinding, ProviderMetadata,
    ProviderSettings, Revalidation, ScanCost, available_if, completed, draft, is_available_if,
    parse_human_bytes, printed_bytes, revalidate_against, revalidated,
};

verus! {

broadcast use group_views;

pub struct VmProvider;

/// What the provider is.
pub open spec fn virtual_machines() -> MetadataModel {
    MetadataModel {
        id: "virtual-machines"@,
        name: "Virtual machines"@,
        section: Section::Developer,
        subgroup: Subgroup::ContainersVms,
        cost: ScanCost::Fast,
        quick: true,
        deep: true,
        network_in_deep_scan: false,
        supersedes_rules: Seq::empty(),
    }
}

fn metadata() -> (r: ProviderMetadata)
    ensures
        r@ == virtual_machines(),
{
    let r = ProviderMetadata {
        id: "virtual-machines",
        name: "Virtual machines",
        section: Section::Developer,
        subgroup: Subgroup::ContainersVms,
        cost: ScanCost::Fast,
        quick: true,
        deep: true,
        network_in_deep_scan: false,
        supersedes_rules: &[],
    };
    assert(r@.supersedes_rules =~= virtual_machines().supersedes_rules);
    r
}

impl VmProvider {
    pub fn metadata(&self) -> (r: ProviderMetadata)
        ensures
            r@ == virtual_machines(),
    {
        metadata()
    }
}

// ---- commands ----

pub open spec fn lima_executables() -> Seq<&'static str> {
    seq!["/opt/homebrew/bin/limactl", "limactl"]
}

pub open spec fn orbstack_executables() -> Seq<&'static str> {
    seq!["/usr/local/bin/orbctl", "/opt/homebrew/bin/orbctl", "orbctl"]
}

pub open spec fn colima_executables() -> Seq<&'static str> {
    seq!["/opt/homebrew/bin/colima", "colima"]
}

pub open spec fn multipass_executables() -> Seq<&'static str> {
    seq!["/usr/local/bin/multipass", "multipass"]
}

/// The command `limactl list --format json`.
pub fn lima_list() -> (r: CommandPolicy)
    ensures
        is_policy(
            r,
            "lima-list"@,
            lima_executables(),
            false,
            false,
            seq![Arg::Is("list"), Arg::Is("--format"), Arg::Is("json")],
        ),
{
    let r = CommandPolicy {
        id: "lima-list",
        executables: &["/opt/homebrew/bin/limactl", "limactl"],
        mutating: false,
        network: false,
        args: ArgRule::Form(&[Arg::Is("list"), Arg::Is("--format"), Arg::Is("json")]),
    };
    assert(r.executables@ =~= lima_executables());
    r
}

/// The command `limactl delete --yes <name>`.
pub fn lima_delete() -> (r: CommandPolicy)
    ensures
        is_policy(
            r,
            "lima-delete"@,
            lima_executables(),
            true,
            false,
            seq![Arg::Is("delete"), Arg::Is("--yes"), Arg::Token],
        ),
{
    let r = CommandPolicy {
        id: "lima-delete",
        executables: &["/opt/homebrew/bin/limactl", "limactl"],
        mutating: true,
        network: false,
        args: ArgRule::Form(&[Arg::Is("delete"), Arg::Is("--yes"), Arg::Token]),
    };
    assert(r.executables@ =~= lima_executables());
    r
}

/// The command `orbctl list --format json`.
pub fn orbstack_list() -> (r: CommandPolicy)
    ensures
        is_policy(
            r,
            "orbstack-list"@,
            orbstack_executables(),
            false,
            false,
            seq![Arg::Is("list"), Arg::Is("--format"), Arg::Is("json")],
        ),
{
    let r = CommandPolicy {
        id: "orbstack-list",
        executables: &["/usr/local/bin/orbctl", "/opt/homebrew/bin/orbctl", "orbctl"],
        mutating: false,
        network: false,
        args: ArgRule::Form(&[Arg::Is("list"), Arg::Is("--format"), Arg::Is("json")]),
    };
    assert(r.executables@ =~= orbstack_executables());
    r
}

/// The command `orbctl delete --force <name>`.
pub fn orbstack_delete() -> (r: CommandPolicy)
    ensures
        is_policy(
            r,
            "orbstack-delete"@,
            orbstack_executables(),
            true,
            false,
            seq![Arg::Is("delete"), Arg::Is("--force"), Arg::Token],
        ),
{
    let r = CommandPolicy {
        id: "orbstack-delete",
        executables: &["/usr/local/bin/orbctl", "/opt/homebrew/bin/orbctl", "orbctl"],
        mutating: true,
        network: false,
        args: ArgRule::Form(&[Arg::Is("delete"), Arg::Is("--force"), Arg::Token]),
    };
    assert(r.executables@ =~= orbstack_executables());
    r
}

/// The command `colima list --json`.
pub fn colima_list() -> (r: CommandPolicy)
    ensures
        is_policy(
            r,
            "colima-list"@,
            colima_executables(),
            false,
            false,
            seq![Arg::Is("list"), Arg::Is("--json")],
        ),
{
    let r = CommandPolicy {
        id: "colima-list",
        executables: &["/opt/homebrew/bin/colima", "colima"],
        mutating: false,
        network: false,
        args: ArgRule::Form(&[Arg::Is("list"), Arg::Is("--json")]),
    };
    assert(r.executables@ =~= colima_executables());
    r
}

/// The command `colima delete --force --profile <name>`.
pub fn colima_delete() -> (r: CommandPolicy)
    ensures
        is_policy(
            r,
            "colima-delete"@,
            colima_executables(),
            true,
            false,
            seq![Arg::Is("delete"), Arg::Is("--force"), Arg::Is("--profile"), Arg::Token],
        ),
{
    let r = CommandPolicy {
        id: "colima-delete",
        executables: &["/opt/homebrew/bin/colima", "colima"],
        mutating: true,
        network: false,
        args: ArgRule::Form(&[Arg::Is("delete"), Arg::Is("--force"), Arg::Is("--profile"), Arg::Token]),
    };
    assert(r.executables@ =~= colima_executables());
    r
}

/// The command `multipass list --format json`.
pub fn multipass_list() -> (r: CommandPolicy)
    ensures
        is_policy(
            r,
            "multipass-list"@,
            multipass_executables(),
            false,
            false,
            seq![Arg::Is("list"), Arg::Is("--format"), Arg::Is("json")],
        ),
{
    let r = CommandPolicy {
        id: "multipass-list",
        executables: &["/usr/local/bin/multipass", "multipass"],
        mutating: false,
        network: false,
        args: ArgRule::Form(&[Arg::Is("list"), Arg::Is("--format"), Arg::Is("json")]),
    };
    assert(r.executables@ =~= multipass_executables());
    r
}

/// The command `multipass delete --purge <name>`.
pub fn multipass_delete() -> (r: CommandPolicy)
    ensures
        is_policy(
            r,
            "multipass-delete"@,
            multipass_executables(),
            true,
            false,
            seq![Arg::Is("delete"), Arg::Is("--purge"), Arg::Token],
        ),
{
    let r = CommandPolicy {
        id: "multipass-delete",
        executables: &["/usr/local/bin/multipass", "multipass"],
        mutating: true,
        network: false,
        args: ArgRule::Form(&[Arg::Is("delete"), Arg::Is("--purge"), Arg::Token]),
    };
    assert(r.executables@ =~= multipass_executables());
    r
}

/// Whether any of the managers is installed.
pub fn probe(lima: bool, orbstack: bool, colima: bool, multipass: bool) -> (r: Capability)
    ensures
        is_available_if(r, lima || orbstack || colima || multipass, "No supported virtual machine manager is installed."@),
{
    available_if(lima || orbstack || colima || multipass, "No supported virtual machine manager is installed.")
}

// ---- one machine ----

/// A virtual machine as its manager and the disk show it.
pub struct Machine {
    pub name: String,
    pub status: String,
    /// Where its storage lies; empty where the manager keeps that to itself.
    pub directory: String,
    /// The configured capacity of its disk.
    pub configured: u64,
    /// The bytes that it takes on the host.
    pub physical: u64,
    /// The days since its storage changed.
    pub age: Option<u64>,
}

/// A virtual machine, as text and numbers.
#[verifier::ext_equal]
pub struct MachineModel {
    pub name: Seq<char>,
    pub status: Seq<char>,
    pub directory: Seq<char>,
    pub configured: u64,
    pub physical: u64,
    pub age: Option<u64>,
}

impl View for Machine {
    type V = MachineModel;

    open spec fn view(&self) -> MachineModel {
        MachineModel {
            name: self.name@,
            status: self.status@,
            directory: self.directory@,
            configured: self.configured,
            physical: self.physical,
            age: self.age,
        }
    }
}

pub open spec fn is_running(status: Seq<char>) -> bool {
    text::lowered(status) == "running"@
}

pub open spec fn is_stopped(status: Seq<char>) -> bool {
    let s = text::lowered(status);
    s == "stopped"@ || s == "stop"@ || s == "suspended"@ || s == "suspend"@
}

/// A machine is protected while it runs, and while its manager does not say
/// that it is stopped.
pub open spec fn is_protected(status: Seq<char>) -> bool {
    is_running(status) || !is_stopped(status)
}

/// What is said of a machine before the action is added.
pub open spec fn machine_draft(min_age: u64, manager: Seq<char>, m: MachineModel) -> Draft {
    let protected = is_protected(m.status);
    draft(
        virtual_machines(),
        if protected {
            "running-virtual-machine"@
        } else {
            "stopped-virtual-machine"@
        },
        "virtualization"@,
        manager + ":"@ + m.name,
        manager + " VM "@ + m.name,
        if protected {
            Safety::Protected
        } else {
            Safety::Risky
        },
        if protected {
            0
        } else {
            m.physical
        },
    ).size(
        FindingSize {
            logical: m.configured,
            physical: m.physical,
            unique: m.physical,
            shared: 0,
            reclaimable: if protected {
                0
            } else {
                m.physical
            },
            accuracy: if m.physical > 0 {
                SizeAccuracy::Exact
            } else {
                SizeAccuracy::Unknown
            },
        },
    ).age(m.age, m.age is Some && m.age->0 < min_age).manual().confidence(Confidence::High).reason(
        if is_running(m.status) {
            "The virtual machine is running and cannot be considered reclaimable."@
        } else if !is_stopped(m.status) {
            "The virtual machine manager did not report a safely deletable stopped state."@
        } else {
            "The virtual machine is stopped; deleting it would reclaim its physical host storage."@
        },
    ).evidence("Manager"@, manager).evidence("Status"@, m.status).evidence(
        "Storage directory"@,
        if m.directory.len() == 0 {
            "manager-owned"@
        } else {
            m.directory
        },
    ).evidence("Configured capacity"@, digits(m.configured as nat)).evidence(
        "Physical host bytes"@,
        digits(m.physical as nat),
    ).copy(
        "A complete virtual machine disk, configuration, and guest-local data."@,
        "Deleting the machine permanently removes everything stored inside the guest."@,
        if is_running(m.status) {
            "Running machines are protected. Stop the VM before reviewing it."@
        } else if !is_stopped(m.status) {
            "The manager state is unknown, so Hokori will not offer deletion."@
        } else {
            "Review guest-local data and mounted host paths before deleting through the VM manager."@
        },
    )
}

/// The finding for a machine.
pub open spec fn machine_row(
    min_age: u64,
    manager: Seq<char>,
    m: MachineModel,
    action: Seq<char>,
    preview: Seq<Seq<char>>,
) -> FindingModel {
    if is_protected(m.status) {
        machine_draft(min_age, manager, m).protected().build()
    } else {
        machine_draft(min_age, manager, m).action(action, preview, true, true).build()
    }
}

/// The finding for a machine: offered where it is stopped, protected else.
pub fn vm_finding(
    settings: &ProviderSettings,
    manager: &str,
    machine: &Machine,
    action_id: &str,
    preview: Vec<String>,
) -> (r: Finding)
    ensures
        r@ == machine_row(
            settings.min_age_days,
            manager@,
            machine@,
            action_id@,
            views(preview@),
        ),
{
    let lower = text::to_ascii_lowercase(machine.status.as_str());
    let s = lower.as_str();
    let running = same(s, "running");
    let stopped = same(s, "stopped") || same(s, "stop") || same(s, "suspended") || same(
        s,
        "suspend",
    );
    let protected = running || !stopped;
    let recent = match machine.age {
        Some(a) => a < settings.min_age_days,
        None => false,
    };
    let physical: u64 = machine.physical;
    let builder = ProviderFinding::object(
        metadata(),
        if protected {
            "running-virtual-machine"
        } else {
            "stopped-virtual-machine"
        },
        "virtualization",
        manager.to_owned().concat(":").concat(machine.name.as_str()).as_str(),
        manager.to_owned().concat(" VM ").concat(machine.name.as_str()).as_str(),
        if protected {
            Safety::Protected
        } else {
            Safety::Risky
        },
        if protected {
            0
        } else {
            physical
        },
    ).size(
        FindingSize {
            logical: machine.configured,
            physical,
            unique: physical,
            shared: 0,
            reclaimable: if protected {
                0
            } else {
                physical
            },
            accuracy: if physical > 0 {
                SizeAccuracy::Exact
            } else {
                SizeAccuracy::Unknown
            },
        },
    ).age(machine.age, recent).manual().confidence(Confidence::High).reason(
        if running {
            "The virtual machine is running and cannot be considered reclaimable."
        } else if !stopped {
            "The virtual machine manager did not report a safely deletable stopped state."
        } else {
            "The virtual machine is stopped; deleting it would reclaim its physical host storage."
        },
    ).evidence("Manager", manager).evidence("Status", machine.status.as_str()).evidence(
        "Storage directory",
        if machine.directory.as_str().is_empty() {
            "manager-owned"
        } else {
            machine.directory.as_str()
        },
    ).evidence(
        "Configured capacity",
        text::decimal(machine.configured).as_str(),
    ).evidence("Physical host bytes", text::decimal(physical).as_str()).copy(
        "A complete virtual machine disk, configuration, and guest-local data.",
        "Deleting the machine permanently removes everything stored inside the guest.",
        if running {
            "Running machines are protected. Stop the VM before reviewing it."
        } else if !stopped {
            "The manager state is unknown, so Hokori will not offer deletion."
        } else {
            "Review guest-local data and mounted host paths before deleting through the VM manager."
        },
    );
    if protected {
        builder.protected().build()
    } else {
        builder.action(action_id, preview, true, true).build()
    }
}

// ---- what the managers list ----

/// The first of several entries that is a text; the empty text where none is.
pub open spec fn first_text(v: JsonModel, keys: Seq<Seq<char>>) -> Seq<char>
    decreases keys.len(),
{
    if keys.len() == 0 {
        Seq::empty()
    } else {
        match v.text_at(keys[0]) {
            Some(t) => t,
            None => first_text(v, keys.skip(1)),
        }
    }
}

fn first_string(v: &Json, a: &str, b: &str) -> (r: String)
    ensures
        r@ == first_text(v@, seq![a@, b@]),
{
    proof {
        reveal_with_fuel(first_text, 3);
        assert(seq![a@, b@].skip(1) =~= seq![b@]);
        assert(seq![b@].skip(1) =~= Seq::<Seq<char>>::empty());
    }
    match v.text(a) {
        Some(t) => t,
        None => match v.text(b) {
            Some(t) => t,
            None => String::new(),
        },
    }
}

/// Machines that belong to a container engine are not offered.
pub open spec fn engine_name(name: Seq<char>) -> bool {
    let n = text::lowered(name);
    n == "colima"@ || n == "docker"@ || n == "podman"@ || n == "rancher-desktop"@
}

pub fn is_container_engine_vm(name: &str) -> (r: bool)
    ensures
        r == engine_name(name@),
{
    let lower = text::to_ascii_lowercase(name);
    let n = lower.as_str();
    same(n, "colima") || same(n, "docker") || same(n, "podman") || same(n, "rancher-desktop")
}

/// A machine of which the disk is still to be looked at.
pub struct Listed {
    pub name: String,
    pub status: String,
    pub directory: String,
    pub configured: u64,
}

#[verifier::ext_equal]
pub struct ListedModel {
    pub name: Seq<char>,
    pub status: Seq<char>,
    pub directory: Seq<char>,
    pub configured: u64,
}

impl View for Listed {
    type V = ListedModel;

    open spec fn view(&self) -> ListedModel {
        ListedModel {
            name: self.name@,
            status: self.status@,
            directory: self.directory@,
            configured: self.configured,
        }
    }
}

pub open spec fn or_zero(n: Option<u64>) -> u64 {
    match n {
        Some(x) => x,
        None => 0,
    }
}

/// The machine in an entry of Lima's list.
pub open spec fn lima_entry() -> spec_fn(JsonModel) -> Option<ListedModel> {
    |m: JsonModel|
        {
            let name = m.text_or_empty("name"@);
            if name.len() == 0 || engine_name(name) {
                None
            } else {
                Some(
                    ListedModel {
                        name,
                        status: m.text_or_empty("status"@),
                        directory: m.text_or_empty("dir"@),
                        configured: or_zero(m.u64_at("disk"@)),
                    },
                )
            }
        }
}

fn lima_machine(m: &Json) -> (r: Option<Listed>)
    ensures
        view_of(r) == lima_entry()(m@),
{
    let name = m.string("name");
    if name.as_str().is_empty() || is_container_engine_vm(name.as_str()) {
        return None;
    }
    Some(
        Listed {
            name,
            status: m.string("status"),
            directory: m.string("dir"),
            configured: match m.u64("disk") {
                Some(n) => n,
                None => 0,
            },
        },
    )
}

/// Where a manager keeps a machine below the home directory.
pub open spec fn home_storage(home: Option<Seq<char>>, dir: Seq<char>, name: Seq<char>) -> Seq<
    char,
> {
    match home {
        Some(h) => paths::below(paths::below(h, dir), name),
        None => Seq::empty(),
    }
}

fn storage_of(home: &Option<String>, dir: &str, name: &str) -> (r: String)
    ensures
        r@ == home_storage(view_of(*home), dir@, name@),
{
    match home {
        Some(h) => paths::join(paths::join(h.as_str(), dir).as_str(), name),
        None => String::new(),
    }
}

/// The machine in an entry of OrbStack's list.
pub open spec fn orbstack_entry(home: Option<Seq<char>>) -> spec_fn(JsonModel) -> Option<
    ListedModel,
> {
    |m: JsonModel|
        {
            let name = m.text_or_empty("name"@);
            let status = first_text(m, seq!["status"@, "state"@]);
            if name.len() == 0 {
                None
            } else {
                Some(
                    ListedModel {
                        name,
                        status: if is_running(status) {
                            "Running"@
                        } else {
                            status
                        },
                        directory: home_storage(home, ".orbstack"@, name),
                        configured: 0,
                    },
                )
            }
        }
}

fn orbstack_machine(m: &Json, home: &Option<String>) -> (r: Option<Listed>)
    ensures
        view_of(r) == orbstack_entry(view_of(*home))(m@),
{
    let name = m.string("name");
    if name.as_str().is_empty() {
        return None;
    }
    let status = first_string(m, "status", "state");
    let running = same(text::to_ascii_lowercase(status.as_str()).as_str(), "running");
    let directory = storage_of(home, ".orbstack", name.as_str());
    Some(
        Listed {
            name,
            status: if running {
                "Running".to_owned()
            } else {
                status
            },
            directory,
            configured: 0,
        },
    )
}

/// The machine in an entry of Colima's list.
pub open spec fn colima_entry(home: Option<Seq<char>>) -> spec_fn(JsonModel) -> Option<
    ListedModel,
> {
    |m: JsonModel|
        {
            let name = first_text(m, seq!["name"@, "profile"@]);
            if name.len() == 0 {
                None
            } else {
                Some(
                    ListedModel {
                        name,
                        status: first_text(m, seq!["status"@, "state"@]),
                        directory: home_storage(home, ".colima"@, name),
                        configured: or_zero(m.u64_at("disk"@)),
                    },
                )
            }
        }
}

fn colima_machine(m: &Json, home: &Option<String>) -> (r: Option<Listed>)
    ensures
        view_of(r) == colima_entry(view_of(*home))(m@),
{
    let name = first_string(m, "name", "profile");
    if name.as_str().is_empty() {
        return None;
    }
    let directory = storage_of(home, ".colima", name.as_str());
    Some(
        Listed {
            name,
            status: first_string(m, "status", "state"),
            directory,
            configured: match m.u64("disk") {
                Some(n) => n,
                None => 0,
            },
        },
    )
}

/// The machine in an entry of Multipass's list.
pub open spec fn multipass_entry() -> spec_fn(JsonModel) -> Option<ListedModel> {
    |m: JsonModel|
        {
            let name = m.text_or_empty("name"@);
            if name.len() == 0 {
                None
            } else {
                Some(
                    ListedModel {
                        name,
                        status: m.text_or_empty("state"@),
                        directory: Seq::empty(),
                        configured: match m.text_at("disk"@) {
                            Some(t) => or_zero(printed_bytes(t)),
                            None => 0,
                        },
                    },
                )
            }
        }
}

fn multipass_machine(m: &Json) -> (r: Option<Listed>)
    ensures
        view_of(r) == multipass_entry()(m@),
{
    let name = m.string("name");
    if name.as_str().is_empty() {
        return None;
    }
    let configured: u64 = match m.text("disk") {
        Some(t) => match parse_human_bytes(t.as_str()) {
            Some(n) => n,
            None => 0,
        },
        None => 0,
    };
    let r = Listed { name, status: m.string("state"), directory: String::new(), configured };
    assert(r@.directory =~= Seq::<char>::empty());
    Some(r)
}

/// The machines in Lima's list that are not a container engine's.
pub fn lima_machines(items: &Vec<Json>) -> (r: Vec<Listed>)
    ensures
        views(r@) == collect_some(views(items@), lima_entry()),
{
    let ghost f = lima_entry();
    let ghost all = views(items@);
    let mut out: Vec<Listed> = Vec::new();
    let limit: usize = items.len();
    let mut i: usize = 0;
    while i < limit
        invariant
            i <= limit <= items@.len(),
            all == views(items@),
            f == lima_entry(),
            views(out@) == collect_some(all.take(i as int), f),
        decreases limit - i,
    {
        proof {
            lemma_collect_step(all, i as int, f);
        }
        assert(all[i as int] == items@[i as int]@);
        if let Some(x) = lima_machine(&items[i]) {
            out.push(x);
        }
        i += 1;
    }
    assert(all.take(limit as int) =~= all);
    out
}

/// The machines in OrbStack's list.
pub fn orbstack_machines(items: &Vec<Json>, home: &Option<String>) -> (r: Vec<Listed>)
    ensures
        views(r@) == collect_some(views(items@), orbstack_entry(view_of(*home))),
{
    let ghost f = orbstack_entry(view_of(*home));
    let ghost all = views(items@);
    let mut out: Vec<Listed> = Vec::new();
    let limit: usize = items.len();
    let mut i: usize = 0;
    while i < limit
        invariant
            i <= limit <= items@.len(),
            all == views(items@),
            f == orbstack_entry(view_of(*home)),
            views(out@) == collect_some(all.take(i as int), f),
        decreases limit - i,
    {
        proof {
            lemma_collect_step(all, i as int, f);
        }
        assert(all[i as int] == items@[i as int]@);
        if let Some(x) = orbstack_machine(&items[i], home) {
            out.push(x);
        }
        i += 1;
    }
    assert(all.take(limit as int) =~= all);
    out
}

/// The machines in Colima's list.
pub fn colima_machines(items: &Vec<Json>, home: &Option<String>) -> (r: Vec<Listed>)
    ensures
        views(r@) == collect_some(views(items@), colima_entry(view_of(*home))),
{
    let ghost f = colima_entry(view_of(*home));
    let ghost all = views(items@);
    let mut out: Vec<Listed> = Vec::new();
    let limit: usize = items.len();
    let mut i: usize = 0;
    while i < limit
        invariant
            i <= limit <= items@.len(),
            all == views(items@),
            f == colima_entry(view_of(*home)),
            views(out@) == collect_some(all.take(i as int), f),
        decreases limit - i,
    {
        proof {
            lemma_collect_step(all, i as int, f);
        }
        assert(all[i as int] == items@[i as int]@);
        if let Some(x) = colima_machine(&items[i], home) {
            out.push(x);
        }
        i += 1;
    }
    assert(all.take(limit as int) =~= all);
    out
}

/// The machines in Multipass's list.
pub fn multipass_machines(items: &Vec<Json>) -> (r: Vec<Listed>)
    ensures
        views(r@) == collect_some(views(items@), multipass_entry()),
{
    let ghost f = multipass_entry();
    let ghost all = views(items@);
    let mut out: Vec<Listed> = Vec::new();
    let limit: usize = items.len();
    let mut i: usize = 0;
    while i < limit
        invariant
            i <= limit <= items@.len(),
            all == views(items@),
            f == multipass_entry(),
            views(out@) == collect_some(all.take(i as int), f),
        decreases limit - i,
    {
        proof {
            lemma_collect_step(all, i as int, f);
        }
        assert(all[i as int] == items@[i as int]@);
        if let Some(x) = multipass_machine(&items[i]) {
            out.push(x);
        }
        i += 1;
    }
    assert(all.take(limit as int) =~= all);
    out
}

/// The entries of OrbStack's document.
pub open spec fn orbstack_items(doc: Option<JsonModel>) -> Seq<JsonModel> {
    match doc {
        Some(d) => d.items(),
        None => Seq::empty(),
    }
}

/// The entries of Colima's document: the list itself, or its profiles.
pub open spec fn colima_items(doc: Option<JsonModel>) -> Seq<JsonModel> {
    match doc {
        Some(d) => if d is Array {
            d.items()
        } else {
            d.items_at("profiles"@)
        },
        None => Seq::empty(),
    }
}

/// The entries of Multipass's document.
pub open spec fn multipass_items(doc: Option<JsonModel>) -> Seq<JsonModel> {
    match doc {
        Some(d) => d.items_at("list"@),
        None => Seq::empty(),
    }
}

/// The machines that Lima prints, one document per line.
pub fn read_lima(output: &str) -> (r: Vec<Listed>)
    ensures
        views(r@) == collect_some(
            collect_some(text::lines_of(output@), super::docker::parsed_line()),
            lima_entry(),
        ),
{
    let n: usize = text::lines(output).len();
    let docs = super::docker::parse_lines(output, n);
    lima_machines(&docs)
}

/// The machines that OrbStack prints.
pub fn read_orbstack(output: &str, home: &Option<String>) -> (r: Vec<Listed>)
    ensures
        views(r@) == collect_some(
            orbstack_items(json_document(output@)),
            orbstack_entry(view_of(*home)),
        ),
{
    if let Some(doc) = parse_json(output) {
        if let Some(items) = doc.as_array() {
            assert(views(items@) =~= item_models(items@));
            return orbstack_machines(items, home);
        }
    }
    Vec::new()
}

/// The machines that Colima prints.
pub fn read_colima(output: &str, home: &Option<String>) -> (r: Vec<Listed>)
    ensures
        views(r@) == collect_some(
            colima_items(json_document(output@)),
            colima_entry(view_of(*home)),
        ),
{
    if let Some(doc) = parse_json(output) {
        if let Some(items) = doc.as_array() {
            assert(views(items@) =~= item_models(items@));
            return colima_machines(items, home);
        }
        if let Some(items) = doc.array("profiles") {
            assert(views(items@) =~= item_models(items@));
            return colima_machines(items, home);
        }
    }
    Vec::new()
}

/// The machines that Multipass prints.
pub fn read_multipass(output: &str) -> (r: Vec<Listed>)
    ensures
        views(r@) == collect_some(multipass_items(json_document(output@)), multipass_entry()),
{
    if let Some(doc) = parse_json(output) {
        if let Some(items) = doc.array("list") {
            assert(views(items@) =~= item_models(items@));
            return multipass_machines(items);
        }
    }
    Vec::new()
}

// ---- findings ----

/// A stopped machine of Lima is passed over where it is recent and small.
pub open spec fn lima_row(settings: ProviderSettings) -> spec_fn(MachineModel) -> Option<
    FindingModel,
> {
    |m: MachineModel|
        if !is_running(m.status) && m.age is Some && m.age->0 < settings.min_age_days && m.physical
            < settings.min_size_bytes {
            None
        } else {
            Some(
                machine_row(
                    settings.min_age_days,
                    "Lima"@,
                    m,
                    "lima-delete"@,
                    seq!["limactl"@, "delete"@, "--yes"@, m.name],
                ),
            )
        }
}

fn lima_finding(m: &Machine, settings: &ProviderSettings) -> (r: Option<Finding>)
    ensures
        view_of(r) == lima_row(*settings)(m@),
{
    let running = same(text::to_ascii_lowercase(m.status.as_str()).as_str(), "running");
    let recent = match m.age {
        Some(a) => a < settings.min_age_days,
        None => false,
    };
    if !running && recent && m.physical < settings.min_size_bytes {
        return None;
    }
    Some(
        vm_finding(
            settings,
            "Lima",
            m,
            "lima-delete",
            text::texts4("limactl", "delete", "--yes", m.name.as_str()),
        ),
    )
}

pub open spec fn orbstack_row(settings: ProviderSettings) -> spec_fn(MachineModel) -> Option<
    FindingModel,
> {
    |m: MachineModel|
        Some(
            machine_row(
                settings.min_age_days,
                "OrbStack"@,
                m,
                "orbstack-delete"@,
                seq!["orbctl"@, "delete"@, "--force"@, m.name],
            ),
        )
}

fn orbstack_finding(m: &Machine, settings: &ProviderSettings) -> (r: Option<Finding>)
    ensures
        view_of(r) == orbstack_row(*settings)(m@),
{
    Some(
        vm_finding(
            settings,
            "OrbStack",
            m,
            "orbstack-delete",
            text::texts4("orbctl", "delete", "--force", m.name.as_str()),
        ),
    )
}

pub open spec fn colima_row(settings: ProviderSettings) -> spec_fn(MachineModel) -> Option<
    FindingModel,
> {
    |m: MachineModel|
        Some(
            machine_row(
                settings.min_age_days,
                "Colima"@,
                m,
                "colima-delete"@,
                seq!["colima"@, "delete"@, "--force"@, "--profile"@, m.name],
            ),
        )
}

fn colima_finding(m: &Machine, settings: &ProviderSettings) -> (r: Option<Finding>)
    ensures
        view_of(r) == colima_row(*settings)(m@),
{
    Some(
        vm_finding(
            settings,
            "Colima",
            m,
            "colima-delete",
            text::texts5("colima", "delete", "--force", "--profile", m.name.as_str()),
        ),
    )
}

pub open spec fn multipass_row(settings: ProviderSettings) -> spec_fn(MachineModel) -> Option<
    FindingModel,
> {
    |m: MachineModel|
        Some(
            machine_row(
                settings.min_age_days,
                "Multipass"@,
                m,
                "multipass-delete"@,
                seq!["multipass"@, "delete"@, "--purge"@, m.name],
            ),
        )
}

fn multipass_finding(m: &Machine, settings: &ProviderSettings) -> (r: Option<Finding>)
    ensures
        view_of(r) == multipass_row(*settings)(m@),
{
    Some(
        vm_finding(
            settings,
            "Multipass",
            m,
            "multipass-delete",
            text::texts4("multipass", "delete", "--purge", m.name.as_str()),
        ),
    )
}

/// The findings for Lima's machines.
pub fn lima_findings(items: &Vec<Machine>, settings: &ProviderSettings) -> (r: Vec<Finding>)
    ensures
        views(r@) == collect_some(views(items@), lima_row(*settings)),
{
    let ghost f = lima_row(*settings);
    let ghost all = views(items@);
    let mut out: Vec<Finding> = Vec::new();
    let limit: usize = items.len();
    let mut i: usize = 0;
    while i < limit
        invariant
            i <= limit <= items@.len(),
            all == views(items@),
            f == lima_row(*settings),
            views(out@) == collect_some(all.take(i as int), f),
        decreases limit - i,
    {
        proof {
            lemma_collect_step(all, i as int, f);
        }
        assert(all[i as int] == items@[i as int]@);
        if let Some(x) = lima_finding(&items[i], settings) {
            out.push(x);
        }
        i += 1;
    }
    assert(all.take(limit as int) =~= all);
    out
}

/// The findings for OrbStack's machines.
pub fn orbstack_findings(items: &Vec<Machine>, settings: &ProviderSettings) -> (r: Vec<Finding>)
    ensures
        views(r@) == collect_some(views(items@), orbstack_row(*settings)),
{
    let ghost f = orbstack_row(*settings);
    let ghost all = views(items@);
    let mut out: Vec<Finding> = Vec::new();
    let limit: usize = items.len();
    let mut i: usize = 0;
    while i < limit
        invariant
            i <= limit <= items@.len(),
            all == views(items@),
            f == orbstack_row(*settings),
            views(out@) == collect_some(all.take(i as int), f),
        decreases limit - i,
    {
        proof {
            lemma_collect_step(all, i as int, f);
        }
        assert(all[i as int] == items@[i as int]@);
        if let Some(x) = orbstack_finding(&items[i], settings) {
            out.push(x);
        }
        i += 1;
    }
    assert(all.take(limit as int) =~= all);
    out
}

/// The findings for Colima's machines.
pub fn colima_findings(items: &Vec<Machine>, settings: &ProviderSettings) -> (r: Vec<Finding>)
    ensures
        views(r@) == collect_some(views(items@), colima_row(*settings)),
{
    let ghost f = colima_row(*settings);
    let ghost all = views(items@);
    let mut out: Vec<Finding> = Vec::new();
    let limit: usize = items.len();
    let mut i: usize = 0;
    while i < limit
        invariant
            i <= limit <= items@.len(),
            all == views(items@),
            f == colima_row(*settings),
            views(out@) == collect_some(all.take(i as int), f),
        decreases limit - i,
    {
        proof {
            lemma_collect_step(all, i as int, f);
        }
        assert(all[i as int] == items@[i as int]@);
        if let Some(x) = colima_finding(&items[i], settings) {
            out.push(x);
        }
        i += 1;
    }
    assert(all.take(limit as int) =~= all);
    out
}

/// The findings for Multipass's machines.
pub fn multipass_findings(items: &Vec<Machine>, settings: &ProviderSettings) -> (r: Vec<Finding>)
    ensures
        views(r@) == collect_some(views(items@), multipass_row(*settings)),
{
    let ghost f = multipass_row(*settings);
    let ghost all = views(items@);
    let mut out: Vec<Finding> = Vec::new();
    let limit: usize = items.len();
    let mut i: usize = 0;
    while i < limit
        invariant
            i <= limit <= items@.len(),
            all == views(items@),
            f == multipass_row(*settings),
            views(out@) == collect_some(all.take(i as int), f),
        decreases limit - i,
    {
        proof {
            lemma_collect_step(all, i as int, f);
        }
        assert(all[i as int] == items@[i as int]@);
        if let Some(x) = multipass_finding(&items[i], settings) {
            out.push(x);
        }
        i += 1;
    }
    assert(all.take(limit as int) =~= all);
    out
}

/// The findings of all managers, in the order in which they are asked.
pub fn scan_findings(
    lima: &Vec<Machine>,
    orbstack: &Vec<Machine>,
    colima: &Vec<Machine>,
    multipass: &Vec<Machine>,
    settings: &ProviderSettings,
) -> (r: Vec<Finding>)
    ensures
        views(r@) == collect_some(views(lima@), lima_row(*settings)) + collect_some(
            views(orbstack@),
            orbstack_row(*settings),
        ) + collect_some(views(colima@), colima_row(*settings)) + collect_some(
            views(multipass@),
            multipass_row(*settings),
        ),
{
    let mut r = lima_findings(lima, settings);
    let mut a = orbstack_findings(orbstack, settings);
    let mut b = colima_findings(colima, settings);
    let mut c = multipass_findings(multipass, settings);
    r.append(&mut a);
    r.append(&mut b);
    r.append(&mut c);
    r
}

// ---- actions ----

/// Whether a command is the one for an action on an object.
pub open spec fn action_command(
    action: Seq<char>,
    object: Seq<char>,
    p: CommandPolicy,
    args: Seq<Seq<char>>,
) -> bool {
    if action == "lima-delete"@ {
        is_policy(
            p,
            "lima-delete"@,
            lima_executables(),
            true,
            false,
            seq![Arg::Is("delete"), Arg::Is("--yes"), Arg::Token],
        ) && args == seq!["delete"@, "--yes"@, object]
    } else if action == "orbstack-delete"@ {
        is_policy(
            p,
            "orbstack-delete"@,
            orbstack_executables(),
            true,
            false,
            seq![Arg::Is("delete"), Arg::Is("--force"), Arg::Token],
        ) && args == seq!["delete"@, "--force"@, object]
    } else if action == "colima-delete"@ {
        is_policy(
            p,
            "colima-delete"@,
            colima_executables(),
            true,
            false,
            seq![Arg::Is("delete"), Arg::Is("--force"), Arg::Is("--profile"), Arg::Token],
        ) && args == seq!["delete"@, "--force"@, "--profile"@, object]
    } else {
        action == "multipass-delete"@ && is_policy(
            p,
            "multipass-delete"@,
            multipass_executables(),
            true,
            false,
            seq![Arg::Is("delete"), Arg::Is("--purge"), Arg::Token],
        ) && args == seq![
            "delete"@,
            "--purge"@,
            object,
        ]
    }
}

pub open spec fn known_action(action: Seq<char>) -> bool {
    action == "lima-delete"@ || action == "orbstack-delete"@ || action == "colima-delete"@
        || action == "multipass-delete"@
}

/// The command that carries out the action of a finding.
pub fn plan_action(finding: &Finding) -> (r: Result<(CommandPolicy, Vec<String>), String>)
    ensures
        match finding.native_action {
            None => r matches Err(e) && e@ == "VM action missing"@,
            Some(a) => match r {
                Ok(c) => known_action(a.action_id@) && action_command(
                    a.action_id@,
                    a.object_id@,
                    c.0,
                    views(c.1@),
                ),
                Err(e) => !known_action(a.action_id@) && e@ == "unknown VM action "@
                    + a.action_id@,
            },
        },
{
    match &finding.native_action {
        None => Err("VM action missing".to_owned()),
        Some(a) => {
            let id = a.action_id.as_str();
            let object = a.object_id.as_str();
            if same(id, "lima-delete") {
                Ok((lima_delete(), text::texts3("delete", "--yes", object)))
            } else if same(id, "orbstack-delete") {
                Ok((orbstack_delete(), text::texts3("delete", "--force", object)))
            } else if same(id, "colima-delete") {
                Ok((colima_delete(), text::texts4("delete", "--force", "--profile", object)))
            } else if same(id, "multipass-delete") {
                Ok((multipass_delete(), text::texts3("delete", "--purge", object)))
            } else {
                Err("unknown VM action ".to_owned().concat(id))
            }
        },
    }
}

/// The finding stands where a fresh scan finds it again.
pub fn revalidate(refreshed: &Vec<Finding>, finding: &Finding) -> (r: Revalidation)
    ensures
        r@ == revalidated(refreshed@, finding.stable_id@, "Virtual machine state changed since the scan."@),
{
    revalidate_against(refreshed, finding, "Virtual machine state changed since the scan.")
}

/// What a finding's action is reported to have done, once it has run.
pub fn executed(finding: &Finding) -> (r: Option<ProviderExecution>)
    ensures
        match (finding.native_action, r) {
            (None, None) => true,
            (Some(a), Some(e)) => e.deleted == 1 && e.freed_bytes == finding.bytes && e.message@
                == "Deleted virtual machine "@ + a.object_id@ + "."@,
            _ => false,
        },
{
    match &finding.native_action {
        Some(a) => Some(completed(
                finding,
                "Deleted virtual machine ".to_owned().concat(a.object_id.as_str()).concat("."),
        )),
        None => None,
    }
}

// ---- laws ----

/// The configured capacity of a disk is never promised: a machine promises the
/// bytes that it takes on the host, and nothing unless it is stopped.
pub proof fn law_capacity_is_not_reclaimable(
    min_age: u64,
    manager: Seq<char>,
    m: MachineModel,
    action: Seq<char>,
    preview: Seq<Seq<char>>,
)
    ensures
        machine_row(min_age, manager, m, action, preview).bytes <= m.physical,
        !is_stopped(m.status) ==> machine_row(min_age, manager, m, action, preview).bytes == 0,
{
    lemma_running_is_not_stopped(m.status);
}

proof fn lemma_running_is_not_stopped(status: Seq<char>)
    ensures
        !(is_running(status) && is_stopped(status)),
{
    reveal_strlit("running");
    reveal_strlit("stopped");
    reveal_strlit("stop");
    reveal_strlit("suspended");
    reveal_strlit("suspend");
    assert("running"@[0] == 'r');
    assert("stopped"@[0] == 's');
    assert("stop"@[0] == 's');
    assert("suspended"@[0] == 's');
    assert("suspend"@[0] == 's');
}

/// A running machine carries no action and stays out of every plan.
pub proof fn law_running_machines_are_protected(
    min_age: u64,
    manager: Seq<char>,
    m: MachineModel,
    action: Seq<char>,
    preview: Seq<Seq<char>>,
)
    requires
        is_running(m.status),
    ensures
        machine_row(min_age, manager, m, action, preview).report_only,
        machine_row(min_age, manager, m, action, preview).native_action is None,
        machine_row(min_age, manager, m, action, preview).safety == Safety::Protected,
{
}

/// A command for an action is one that its own policy accepts, where the object is a
/// name that can be handed to a tool.
pub proof fn law_planned_commands_are_admitted(
    action: Seq<char>,
    object: Seq<char>,
    p: CommandPolicy,
    args: Seq<Seq<char>>,
)
    requires
        action_command(action, object, p, args),
        is_token(object),
    ensures
        admits(p.args@, args),
{
}

/// A machine is offered for deletion exactly where its manager says that it is
/// stopped or suspended; it is offered with the bytes that it takes on the host.
pub proof fn law_stopped_machines_are_offered(
    min_age: u64,
    manager: Seq<char>,
    m: MachineModel,
    action: Seq<char>,
    preview: Seq<Seq<char>>,
)
    ensures
        ({
            let f = machine_row(min_age, manager, m, action, preview);
            let s = text::lowered(m.status);
            let stopped = s == "stopped"@ || s == "stop"@ || s == "suspended"@ || s == "suspend"@;
            &&& stopped <==> f.native_action is Some
            &&& stopped <==> !f.report_only
            &&& stopped ==> f.bytes == m.physical && f.safety == Safety::Risky
            &&& !stopped ==> f.bytes == 0 && f.safety == Safety::Protected
            &&& f.manual_only
            &&& f.recent <==> m.age is Some && m.age->0 < min_age
            &&& f.age_days == m.age
        }),
{
    reveal_strlit("running");
    reveal_strlit("stopped");
    reveal_strlit("stop");
    reveal_strlit("suspended");
    reveal_strlit("suspend");
    assert("running"@[0] == 'r' && "stopped"@[0] == 's' && "suspend"@[0] == 's');
    assert("running"@.len() == 7 && "stop"@.len() == 4 && "suspended"@.len() == 9);
}

/// A machine that runs containers for another tool is not listed, and one without a
/// name neither.
pub proof fn law_engines_are_not_listed(m: JsonModel)
    ensures
        ({
            let name = m.text_or_empty("name"@);
            let n = text::lowered(name);
            lima_entry()(m) is None <==> name.len() == 0 || n == "colima"@ || n == "docker"@ || n
                == "podman"@ || n == "rancher-desktop"@
        }),
        lima_entry()(m) matches Some(e) ==> e.name == m.text_or_empty("name"@) && e.status
            == m.text_or_empty("status"@) && e.directory == m.text_or_empty("dir"@),
{
}

/// A machine of Lima is passed over exactly where it does not run, is both younger
/// and smaller than was asked for; those of the others are all reported.
pub proof fn law_small_young_machines_are_passed_over(m: MachineModel, settings: ProviderSettings)
    ensures
        lima_row(settings)(m) is None <==> text::lowered(m.status) != "running"@ && m.age is Some
            && m.age->0 < settings.min_age_days && m.physical < settings.min_size_bytes,
        orbstack_row(settings)(m) is Some,
        colima_row(settings)(m) is Some,
        multipass_row(settings)(m) is Some,
{
}

/// Of several names for one thing the first that is there tells it.
pub proof fn law_first_name_tells(v: JsonModel, key: Seq<char>, others: Seq<Seq<char>>)
    ensures
        v.text_at(key) matches Some(t) ==> first_text(v, seq![key] + others) == t,
        v.text_at(key) is None ==> first_text(v, seq![key] + others) == first_text(v, others),
        first_text(v, Seq::empty()).len() == 0,
{
    assert((seq![key] + others).skip(1) =~= others);
}

/// Machines have names: what has none is no machine. Each is told by the name, the
/// state and the disk that its tool prints.
pub proof fn law_machines_have_names(home: Option<Seq<char>>, m: JsonModel)
    ensures
        multipass_entry()(m) is Some <==> m.text_or_empty("name"@).len() > 0,
        multipass_entry()(m) matches Some(l) ==> l.name == m.text_or_empty("name"@) && l.status == m.text_or_empty(
            "state"@,
        ) && l.directory.len() == 0 && (m.text_at("disk"@) is None ==> l.configured == 0) && (m.text_at("disk"@) matches Some(
            t,
        ) ==> (printed_bytes(t) matches Some(n) ==> l.configured == n)),
        orbstack_entry(home)(m) is Some <==> m.text_or_empty("name"@).len() > 0,
        orbstack_entry(home)(m) matches Some(l) ==> l.name == m.text_or_empty("name"@) && l.configured == 0 && (
        home matches Some(h) ==> l.directory == paths::below(paths::below(h, ".orbstack"@), l.name)),
        colima_entry(home)(m) matches Some(l) ==> l.name.len() > 0 && (m.text_at("name"@) matches Some(n) ==> l.name
            == n) && (m.u64_at("disk"@) matches Some(n) ==> l.configured == n) && (home matches Some(h)
            ==> l.directory == paths::below(paths::below(h, ".colima"@), l.name)),
        m.text_at("name"@) matches Some(n) ==> (n.len() > 0 <==> colima_entry(home)(m) is Some),
        m.text_at("name"@) is None ==> (m.text_at("profile"@) matches Some(n) ==> (n.len() > 0 <==> colima_entry(
            home,
        )(m) is Some)),
        m.text_at("status"@) matches Some(s) ==> (colima_entry(home)(m) matches Some(l) ==> l.status == s),
        m.text_at("status"@) matches Some(s) ==> (orbstack_entry(home)(m) matches Some(l) ==> if is_running(s) {
            l.status == "Running"@
        } else {
            l.status == s
        }),
        home is None ==> (orbstack_entry(home)(m) matches Some(l) ==> l.directory.len() == 0),
{
    let k = seq!["name"@, "profile"@];
    assert(k.skip(1) =~= seq!["profile"@]);
    assert(k.skip(1).skip(1) =~= Seq::<Seq<char>>::empty());
    let s = seq!["status"@, "state"@];
    assert(s[0] == "status"@);
    reveal_with_fuel(first_text, 3);
}

/// The machines are the elements of what a tool prints, of the list of that name where
/// it prints an object.
pub proof fn law_machines_are_listed(doc: JsonModel)
    ensures
        multipass_items(Some(doc)) == doc.items_at("list"@),
        orbstack_items(Some(doc)) == doc.items(),
        doc is Array ==> colima_items(Some(doc)) == doc.items(),
        !(doc is Array) ==> colima_items(Some(doc)) == doc.items_at("profiles"@),
        multipass_items(None).len() == 0 && orbstack_items(None).len() == 0 && colima_items(None).len() == 0,
{
}

/// An action is carried out by the command of its tool that does just this, to the
/// object that it names.
pub proof fn law_actions_run_their_command(action: Seq<char>, object: Seq<char>, p: CommandPolicy, args: Seq<Seq<char>>)
    requires
        action_command(action, object, p, args),
    ensures
        p@.mutating,
        ({
            ||| action == "lima-delete"@ && p@.executables.last()@ == "limactl"@ && args == seq!["delete"@, "--yes"@, object]
            ||| action == "orbstack-delete"@ && p@.executables.last()@ == "orbctl"@ && args == seq!["delete"@, "--force"@, object]
            ||| action == "colima-delete"@ && p@.executables.last()@ == "colima"@ && args == seq!["delete"@, "--force"@, "--profile"@, object]
            ||| action == "multipass-delete"@ && p@.executables.last()@ == "multipass"@ && args == seq!["delete"@, "--purge"@, object]
        }),
{
}

/// The actions that are known delete a machine of one of the four tools.
pub proof fn law_known_actions_are_carried_out(action: Seq<char>)
    ensures
        known_action(action) <==> action == "lima-delete"@ || action == "orbstack-delete"@ || action == "colima-delete"@
            || action == "multipass-delete"@,
{
}

} // verus!
