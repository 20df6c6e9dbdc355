//! Language toolchains that no project refers to, and what is wrong with the
//! commands on the search path.

use crate::json::{
    Json, JsonModel, entry_models, item_models, json_document, parse_json, parse_toml,
    toml_document,
};
use crate::paths;
use crate::report::{Confidence, Finding, FindingModel};
use crate::rules::Safety;
use crate::seqs::{
    at_most, collect_some, find_some, flatten_map, group_views, lemma_collect_step,
    lemma_collected, lemma_find_step, lemma_flatten_step, paired, view_of, views,
};
use crate::taxonomy::{Section, Subgroup};
use crate::text;
use crate::text::{digits, same};
use vstd::prelude::*;

use super::command::{Arg, ArgRule, CommandPolicy, admits, is_policy, is_token};
use super::{
    Capability, Draft, MetadataModel, ProviderExecution, ProviderFinding, ProviderMetadata,
    ProviderSettings, Revalidation, ScanCost, available_if, completed, draft, is_available_if,
    revalidate_against, revalidated,
};

verus! {

broadcast use group_views;

pub struct ToolchainProvider;

/// What the provider is.
pub open spec fn toolchains() -> MetadataModel {
    MetadataModel {
        id: "toolchains"@,
        name: "Language toolchains"@,
        section: Section::Developer,
        subgroup: Subgroup::Toolchains,
        cost: ScanCost::Fast,
        quick: true,
        deep: true,
        network_in_deep_scan: false,
        supersedes_rules: Seq::empty(),
    }
}

fn metadata() -> (r: ProviderMetadata)
    ensures
        r@ == toolchains(),
{
    let r = ProviderMetadata {
        id: "toolchains",
        name: "Language toolchains",
        section: Section::Developer,
        subgroup: Subgroup::Toolchains,
        cost: ScanCost::Fast,
        quick: true,
        deep: true,
        network_in_deep_scan: false,
        supersedes_rules: &[],
    };
    assert(r@.supersedes_rules =~= toolchains().supersedes_rules);
    r
}

impl ToolchainProvider {
    pub fn metadata(&self) -> (r: ProviderMetadata)
        ensures
            r@ == toolchains(),
    {
        metadata()
    }
}

// ---- commands ----

pub open spec fn mise_executables() -> Seq<&'static str> {
    seq!["mise"]
}

pub open spec fn rustup_executables() -> Seq<&'static str> {
    seq!["rustup"]
}

pub open spec fn pyenv_executables() -> Seq<&'static str> {
    seq!["pyenv"]
}

pub open spec fn pipx_executables() -> Seq<&'static str> {
    seq!["pipx"]
}

pub open spec fn rbenv_executables() -> Seq<&'static str> {
    seq!["rbenv"]
}

pub open spec fn asdf_executables() -> Seq<&'static str> {
    seq!["asdf"]
}

pub open spec fn fvm_executables() -> Seq<&'static str> {
    seq!["fvm"]
}

/// The command `mise ls --prunable --json`.
pub fn mise_prunable() -> (r: CommandPolicy)
    ensures
        is_policy(
            r,
            "mise-prunable"@,
            mise_executables(),
            false,
            false,
            seq![Arg::Is("ls"), Arg::Is("--prunable"), Arg::Is("--json")],
        ),
{
    let r = CommandPolicy {
        id: "mise-prunable",
        executables: &["mise"],
        mutating: false,
        network: false,
        args: ArgRule::Form(&[Arg::Is("ls"), Arg::Is("--prunable"), Arg::Is("--json")]),
    };
    assert(r.executables@ =~= mise_executables());
    r
}

/// The command `mise uninstall --yes <name>`.
pub fn mise_uninstall() -> (r: CommandPolicy)
    ensures
        is_policy(
            r,
            "mise-uninstall"@,
            mise_executables(),
            true,
            false,
            seq![Arg::Is("uninstall"), Arg::Is("--yes"), Arg::Token],
        ),
{
    let r = CommandPolicy {
        id: "mise-uninstall",
        executables: &["mise"],
        mutating: true,
        network: false,
        args: ArgRule::Form(&[Arg::Is("uninstall"), Arg::Is("--yes"), Arg::Token]),
    };
    assert(r.executables@ =~= mise_executables());
    r
}

/// The command `mise prune --configs --yes`.
pub fn mise_prune_configs() -> (r: CommandPolicy)
    ensures
        is_policy(
            r,
            "mise-prune-configs"@,
            mise_executables(),
            true,
            false,
            seq![Arg::Is("prune"), Arg::Is("--configs"), Arg::Is("--yes")],
        ),
{
    let r = CommandPolicy {
        id: "mise-prune-configs",
        executables: &["mise"],
        mutating: true,
        network: false,
        args: ArgRule::Form(&[Arg::Is("prune"), Arg::Is("--configs"), Arg::Is("--yes")]),
    };
    assert(r.executables@ =~= mise_executables());
    r
}

/// The command `rustup toolchain list`.
pub fn rustup_list() -> (r: CommandPolicy)
    ensures
        is_policy(
            r,
            "rustup-list"@,
            rustup_executables(),
            false,
            false,
            seq![Arg::Is("toolchain"), Arg::Is("list")],
        ),
{
    let r = CommandPolicy {
        id: "rustup-list",
        executables: &["rustup"],
        mutating: false,
        network: false,
        args: ArgRule::Form(&[Arg::Is("toolchain"), Arg::Is("list")]),
    };
    assert(r.executables@ =~= rustup_executables());
    r
}

/// The command `rustup override list`.
pub fn rustup_overrides() -> (r: CommandPolicy)
    ensures
        is_policy(
            r,
            "rustup-overrides"@,
            rustup_executables(),
            false,
            false,
            seq![Arg::Is("override"), Arg::Is("list")],
        ),
{
    let r = CommandPolicy {
        id: "rustup-overrides",
        executables: &["rustup"],
        mutating: false,
        network: false,
        args: ArgRule::Form(&[Arg::Is("override"), Arg::Is("list")]),
    };
    assert(r.executables@ =~= rustup_executables());
    r
}

/// The command `rustup toolchain uninstall <name>`.
pub fn rustup_uninstall() -> (r: CommandPolicy)
    ensures
        is_policy(
            r,
            "rustup-uninstall"@,
            rustup_executables(),
            true,
            false,
            seq![Arg::Is("toolchain"), Arg::Is("uninstall"), Arg::Token],
        ),
{
    let r = CommandPolicy {
        id: "rustup-uninstall",
        executables: &["rustup"],
        mutating: true,
        network: false,
        args: ArgRule::Form(&[Arg::Is("toolchain"), Arg::Is("uninstall"), Arg::Token]),
    };
    assert(r.executables@ =~= rustup_executables());
    r
}

/// The command `pyenv versions --bare`.
pub fn pyenv_versions() -> (r: CommandPolicy)
    ensures
        is_policy(
            r,
            "pyenv-versions"@,
            pyenv_executables(),
            false,
            false,
            seq![Arg::Is("versions"), Arg::Is("--bare")],
        ),
{
    let r = CommandPolicy {
        id: "pyenv-versions",
        executables: &["pyenv"],
        mutating: false,
        network: false,
        args: ArgRule::Form(&[Arg::Is("versions"), Arg::Is("--bare")]),
    };
    assert(r.executables@ =~= pyenv_executables());
    r
}

/// The command `pyenv global`.
pub fn pyenv_global() -> (r: CommandPolicy)
    ensures
        is_policy(
            r,
            "pyenv-global"@,
            pyenv_executables(),
            false,
            false,
            seq![Arg::Is("global")],
        ),
{
    let r = CommandPolicy {
        id: "pyenv-global",
        executables: &["pyenv"],
        mutating: false,
        network: false,
        args: ArgRule::Form(&[Arg::Is("global")]),
    };
    assert(r.executables@ =~= pyenv_executables());
    assert(r.args->Form_0@ =~= seq![Arg::Is("global")]);
    r
}

/// The command `pyenv uninstall -f <name>`.
pub fn pyenv_uninstall() -> (r: CommandPolicy)
    ensures
        is_policy(
            r,
            "pyenv-uninstall"@,
            pyenv_executables(),
            true,
            false,
            seq![Arg::Is("uninstall"), Arg::Is("-f"), Arg::Token],
        ),
{
    let r = CommandPolicy {
        id: "pyenv-uninstall",
        executables: &["pyenv"],
        mutating: true,
        network: false,
        args: ArgRule::Form(&[Arg::Is("uninstall"), Arg::Is("-f"), Arg::Token]),
    };
    assert(r.executables@ =~= pyenv_executables());
    r
}

/// The command `pipx list --json`.
pub fn pipx_list() -> (r: CommandPolicy)
    ensures
        is_policy(
            r,
            "pipx-list"@,
            pipx_executables(),
            false,
            false,
            seq![Arg::Is("list"), Arg::Is("--json")],
        ),
{
    let r = CommandPolicy {
        id: "pipx-list",
        executables: &["pipx"],
        mutating: false,
        network: false,
        args: ArgRule::Form(&[Arg::Is("list"), Arg::Is("--json")]),
    };
    assert(r.executables@ =~= pipx_executables());
    r
}

/// The command `rbenv uninstall -f <name>`.
pub fn rbenv_uninstall() -> (r: CommandPolicy)
    ensures
        is_policy(
            r,
            "rbenv-uninstall"@,
            rbenv_executables(),
            true,
            false,
            seq![Arg::Is("uninstall"), Arg::Is("-f"), Arg::Token],
        ),
{
    let r = CommandPolicy {
        id: "rbenv-uninstall",
        executables: &["rbenv"],
        mutating: true,
        network: false,
        args: ArgRule::Form(&[Arg::Is("uninstall"), Arg::Is("-f"), Arg::Token]),
    };
    assert(r.executables@ =~= rbenv_executables());
    r
}

/// The command `asdf uninstall <name> <name>`.
pub fn asdf_uninstall() -> (r: CommandPolicy)
    ensures
        is_policy(
            r,
            "asdf-uninstall"@,
            asdf_executables(),
            true,
            false,
            seq![Arg::Is("uninstall"), Arg::Token, Arg::Token],
        ),
{
    let r = CommandPolicy {
        id: "asdf-uninstall",
        executables: &["asdf"],
        mutating: true,
        network: false,
        args: ArgRule::Form(&[Arg::Is("uninstall"), Arg::Token, Arg::Token]),
    };
    assert(r.executables@ =~= asdf_executables());
    r
}

/// The command `fvm remove <name>`.
pub fn fvm_remove() -> (r: CommandPolicy)
    ensures
        is_policy(
            r,
            "fvm-remove"@,
            fvm_executables(),
            true,
            false,
            seq![Arg::Is("remove"), Arg::Token],
        ),
{
    let r = CommandPolicy {
        id: "fvm-remove",
        executables: &["fvm"],
        mutating: true,
        network: false,
        args: ArgRule::Form(&[Arg::Is("remove"), Arg::Token]),
    };
    assert(r.executables@ =~= fvm_executables());
    r
}

/// Whether a manager is installed, or has left versions below the home directory.
pub fn probe(mise: bool, rustup: bool, pyenv: bool, other: bool) -> (r: Capability)
    ensures
        is_available_if(r, mise || rustup || pyenv || other, "No supported toolchain manager is installed."@),
{
    available_if(mise || rustup || pyenv || other, "No supported toolchain manager is installed.")
}

/// The places below the home directory where other managers keep versions.
pub fn other_managers() -> (r: Vec<String>)
    ensures
        views(r@) == seq![
            ".nvm/versions/node"@,
            ".rbenv/versions"@,
            ".asdf/installs"@,
            ".sdkman/candidates"@,
            ".fvm/versions"@,
        ],
{
    text::texts5(
        ".nvm/versions/node",
        ".rbenv/versions",
        ".asdf/installs",
        ".sdkman/candidates",
        ".fvm/versions",
    )
}

// ---- files that refer to versions ----

/// A file, with its text where it could be read.
pub struct TextFile {
    pub path: String,
    pub contents: Option<String>,
}

#[verifier::ext_equal]
pub struct TextFileModel {
    pub path: Seq<char>,
    pub contents: Option<Seq<char>>,
}

impl View for TextFile {
    type V = TextFileModel;

    open spec fn view(&self) -> TextFileModel {
        TextFileModel {
            path: self.path@,
            contents: view_of(self.contents),
        }
    }
}

/// A file whose name is one of some names.
pub open spec fn if_named(names: Seq<Seq<char>>) -> spec_fn(TextFileModel) -> Option<
TextFileModel,
> {
    |f: TextFileModel|
    if paths::last_name(f.path) is Some && names.contains(paths::last_name(f.path)->0) {
        Some(f)
    } else {
        None
    }
}

/// The files whose name is one of some names.
pub open spec fn named(files: Seq<TextFileModel>, names: Seq<Seq<char>>) -> Seq<TextFileModel> {
    collect_some(files, if_named(names))
}

fn copy_file(f: &TextFile) -> (r: TextFile)
    ensures
        r@ == f@,
{
    TextFile { path: f.path.clone(), contents: text::copy_opt(&f.contents) }
}

fn file_named(f: &TextFile, names: &Vec<String>) -> (r: Option<TextFile>)
    ensures
        view_of(r) == if_named(views(names@))(f@),
{
    match paths::file_name(f.path.as_str()) {
        Some(n) => if text::among(n.as_str(), names) {
            Some(copy_file(f))
        } else {
            None
        },
        None => None,
    }
}

/// The files whose name is one of some names.
pub fn reference_files_named(files: &Vec<TextFile>, names: &Vec<String>) -> (r: Vec<TextFile>)
    ensures
        views(r@) == collect_some(views(files@), if_named(views(names@))),
{
    let ghost all = views(files@);
    let ghost f = if_named(views(names@));
    let mut out: Vec<TextFile> = Vec::new();
    let limit: usize = files.len();
    let mut i: usize = 0;
    assert(views(out@) =~= collect_some(all.take(0), f));
    while i < limit
        invariant
            i <= limit <= files@.len(),
            all == views(files@),
            f == if_named(views(names@)),
            views(out@) == collect_some(all.take(i as int), f),
        decreases limit - i,
    {
        proof {
            lemma_collect_step(all, i as int, f);
        }
        assert(all[i as int] == files@[i as int]@);
        if let Some(x) = file_named(&files[i], names) {
            out.push(x);
        }
        i += 1;
    }
    assert(all.take(limit as int) =~= all);
    out
}

/// A line without space around it, where anything is left.
pub open spec fn trimmed_line() -> spec_fn(Seq<char>) -> Option<Seq<char>> {
    |l: Seq<char>|
    if text::trimmed(l).len() > 0 {
        Some(text::trimmed(l))
    } else {
        None
    }
}

/// The lines of a text that are not blank, without space around them.
pub open spec fn full_lines(s: Seq<char>) -> Seq<Seq<char>> {
    collect_some(text::lines_of(s), trimmed_line())
}

fn trim_line(l: &str) -> (r: Option<String>)
    ensures
        view_of(r) == trimmed_line()(l@),
{
    let t = text::trim(l);
    if t.as_str().is_empty() {
        None
    } else {
        Some(t)
    }
}

/// The lines of a text that are not blank.
pub fn trimmed_lines(s: &str) -> (r: Vec<String>)
    ensures
        views(r@) == collect_some(text::lines_of(s@), trimmed_line()),
{
    let l = text::lines(s);
    let ghost all = views(l@);
    let ghost f = trimmed_line();
    let mut out: Vec<String> = Vec::new();
    let limit: usize = l.len();
    let mut i: usize = 0;
    assert(views(out@) =~= collect_some(all.take(0), f));
    while i < limit
        invariant
            i <= limit <= l@.len(),
            all == views(l@),
            f == trimmed_line(),
            views(out@) == collect_some(all.take(i as int), f),
        decreases limit - i,
    {
        proof {
            lemma_collect_step(all, i as int, f);
        }
        assert(all[i as int] == l@[i as int]@);
        if let Some(x) = trim_line(l[i].as_str()) {
            out.push(x);
        }
        i += 1;
    }
    assert(all.take(limit as int) =~= all);
    out
}

/// Whether an installed version is one that was asked for: the same, or a more
/// exact one.
pub open spec fn version_fits(requested: Seq<char>, installed: Seq<char>) -> bool {
    requested == installed || match text::without_prefix(installed, requested) {
        Some(rest) => text::begins(rest, "."@),
        None => false,
    }
}

pub fn version_matches(requested: &str, installed: &str) -> (r: bool)
    ensures
        r == version_fits(requested@, installed@),
{
    same(requested, installed) || match text::strip_prefix(installed, requested) {
        Some(rest) => text::starts_with(rest.as_str(), "."),
        None => false,
    }
}

// ---- who refers to what ----

/// A reference to a version.
pub struct Reference {
    /// What is referred to.
    pub key: String,
    /// Who refers to it.
    pub consumer: String,
}

#[verifier::ext_equal]
pub struct ReferenceModel {
    pub key: Seq<char>,
    pub consumer: Seq<char>,
}

impl View for Reference {
    type V = ReferenceModel;

    open spec fn view(&self) -> ReferenceModel {
        ReferenceModel {
            key: self.key@,
            consumer: self.consumer@,
        }
    }
}

pub open spec fn if_key(key: Seq<char>) -> spec_fn(ReferenceModel) -> Option<Seq<char>> {
    |r: ReferenceModel|
    if r.key == key {
        Some(r.consumer)
    } else {
        None
    }
}

/// Those that refer to something, in the order in which they were found.
pub open spec fn consumers_of(references: Seq<ReferenceModel>, key: Seq<char>) -> Seq<Seq<char>> {
    collect_some(references, if_key(key))
}

fn consumer_if(r: &Reference, key: &str) -> (c: Option<String>)
    ensures
        view_of(c) == if_key(key@)(r@),
{
    if same(r.key.as_str(), key) {
        Some(r.consumer.clone())
    } else {
        None
    }
}

/// Those that refer to something.
pub fn consumers(references: &Vec<Reference>, key: &str) -> (r: Vec<String>)
    ensures
        views(r@) == collect_some(views(references@), if_key(key@)),
{
    let ghost all = views(references@);
    let ghost f = if_key(key@);
    let mut out: Vec<String> = Vec::new();
    let limit: usize = references.len();
    let mut i: usize = 0;
    assert(views(out@) =~= collect_some(all.take(0), f));
    while i < limit
        invariant
            i <= limit <= references@.len(),
            all == views(references@),
            f == if_key(key@),
            views(out@) == collect_some(all.take(i as int), f),
        decreases limit - i,
    {
        proof {
            lemma_collect_step(all, i as int, f);
        }
        assert(all[i as int] == references@[i as int]@);
        if let Some(x) = consumer_if(&references[i], key) {
            out.push(x);
        }
        i += 1;
    }
    assert(all.take(limit as int) =~= all);
    out
}

// ---- mise ----

/// A version that mise would prune.
pub struct MiseTool {
    pub tool: String,
    pub version: String,
    pub install_path: String,
}

#[verifier::ext_equal]
pub struct MiseToolModel {
    pub tool: Seq<char>,
    pub version: Seq<char>,
    pub install_path: Seq<char>,
}

impl View for MiseTool {
    type V = MiseToolModel;

    open spec fn view(&self) -> MiseToolModel {
        MiseToolModel {
            tool: self.tool@,
            version: self.version@,
            install_path: self.install_path@,
        }
    }
}

/// The version in an entry of the list of a tool.
pub open spec fn mise_version(tool: Seq<char>) -> spec_fn(JsonModel) -> Option<MiseToolModel> {
    |v: JsonModel|
    if v.text_or_empty("version"@).len() == 0 {
        None
    } else {
        Some(
            MiseToolModel {
                tool,
                version: v.text_or_empty("version"@),
                install_path: v.text_or_empty("install_path"@),
            },
        )
    }
}

/// The versions of a tool; at most a thousand entries are read.
pub open spec fn mise_entry() -> spec_fn((Seq<char>, JsonModel)) -> Seq<MiseToolModel> {
    |e: (Seq<char>, JsonModel)| collect_some(at_most(e.1.items(), 1_000), mise_version(e.0))
}

/// The versions that mise would prune.
pub open spec fn mise_in(doc: Option<JsonModel>) -> Seq<MiseToolModel> {
    match doc {
        Some(d) => flatten_map(d.entries(), mise_entry()),
        None => Seq::empty(),
    }
}

fn mise_tool(v: &Json, tool: &str) -> (r: Option<MiseTool>)
    ensures
        view_of(r) == mise_version(tool@)(v@),
{
    let version = v.string("version");
    if version.as_str().is_empty() {
        return None;
    }
    Some(MiseTool { tool: tool.to_owned(), version, install_path: v.string("install_path") })
}

fn mise_versions(items: &Vec<Json>, tool: &str) -> (r: Vec<MiseTool>)
    ensures
        views(r@) == collect_some(at_most(item_models(items@), 1000), mise_version(tool@)),
{
    let ghost all = item_models(items@);
    let ghost f = mise_version(tool@);
    let mut out: Vec<MiseTool> = Vec::new();
    let limit: usize = if items.len() > 1000 {
        1000
    } else {
        items.len()
    };
    let mut i: usize = 0;
    assert(views(out@) =~= collect_some(all.take(0), f));
    while i < limit
        invariant
            i <= limit <= items@.len(),
            all == item_models(items@),
            f == mise_version(tool@),
            views(out@) == collect_some(all.take(i as int), f),
        decreases limit - i,
    {
        proof {
            lemma_collect_step(all, i as int, f);
        }
        assert(all[i as int] == items@[i as int]@);
        if let Some(x) = mise_tool(&items[i], tool) {
            out.push(x);
        }
        i += 1;
    }
    assert(all.take(limit as int) =~= at_most(all, 1000));
    out
}

fn mise_of_entry(e: &(String, Json)) -> (r: Vec<MiseTool>)
    ensures
        views(r@) == mise_entry()((e.0@, e.1@)),
{
    match e.1.as_array() {
        Some(items) => mise_versions(items, e.0.as_str()),
        None => {
            let r: Vec<MiseTool> = Vec::new();
            assert(at_most(e.1@.items(), 1_000).len() == 0);
            r
        },
    }
}

fn mise_entries(entries: &Vec<(String, Json)>) -> (r: Vec<MiseTool>)
    ensures
        views(r@) == flatten_map(entry_models(entries@), mise_entry()),
{
    let ghost all = entry_models(entries@);
    let ghost f = mise_entry();
    let mut out: Vec<MiseTool> = Vec::new();
    let limit: usize = entries.len();
    let mut i: usize = 0;
    assert(views(out@) =~= flatten_map(all.take(0), f));
    while i < limit
        invariant
            i <= limit <= entries@.len(),
            all == entry_models(entries@),
            f == mise_entry(),
            views(out@) == flatten_map(all.take(i as int), f),
        decreases limit - i,
    {
        proof {
            lemma_flatten_step(all, i as int, f);
        }
        assert(all[i as int] == (entries@[i as int].0@, entries@[i as int].1@));
        let mut more = mise_of_entry(&entries[i]);
        out.append(&mut more);
        i += 1;
    }
    assert(all.take(limit as int) =~= all);
    out
}

/// The versions that mise would prune, from what it prints.
pub fn mise_tools(output: &str) -> (r: Vec<MiseTool>)
    ensures
        views(r@) == mise_in(json_document(output@)),
{
    if let Some(d) = parse_json(output) {
        if let Some(entries) = d.as_object() {
            return mise_entries(entries);
        }
    }
    Vec::new()
}

/// How mise names a version.
pub open spec fn mise_object(t: MiseToolModel) -> Seq<char> {
    t.tool + "@"@ + t.version
}

/// What is said of a version that mise would prune.
pub open spec fn mise_draft(t: MiseToolModel, bytes: u64) -> Draft {
    draft(
        toolchains(),
        "mise-prunable-tool"@,
        "installed-tools"@,
        mise_object(t),
        mise_object(t),
        Safety::Review,
        bytes,
    )
        .manual()
        .confidence(Confidence::Exact)
        .reason(
        "mise marks this installed version prunable from its tracked configuration graph."@,
    )
        .evidence("Manager"@, "mise"@)
        .evidence("Install path"@, t.install_path)
        .copy(
        "A mise-managed tool version no longer referenced by tracked configuration."@,
        "Projects that selected this version only through environment variables or one-off commands may need to reinstall it."@,
        "Use mise's native uninstall command after reviewing the version."@,
    )
        .action(
        "mise-uninstall"@,
        seq!["mise"@, "uninstall"@, "--yes"@, mise_object(t)],
        true,
        true,
    )
}

pub open spec fn mise_row() -> spec_fn((MiseToolModel, u64)) -> Option<FindingModel> {
    |x: (MiseToolModel, u64)| Some(mise_draft(x.0, x.1).build())
}

fn mise_finding(t: &MiseTool, bytes: u64) -> (r: Option<Finding>)
    ensures
        view_of(r) == mise_row()((t@, bytes)),
{
    let object = t.tool.clone().concat("@").concat(t.version.as_str());
    let id = object.as_str();
    Some(ProviderFinding::object(
            metadata(),
            "mise-prunable-tool",
            "installed-tools",
            id,
            id,
            Safety::Review,
            bytes,
        )
            .manual()
            .confidence(Confidence::Exact)
            .reason(
            "mise marks this installed version prunable from its tracked configuration graph.",
        )
            .evidence("Manager", "mise")
            .evidence("Install path", t.install_path.as_str())
            .copy(
            "A mise-managed tool version no longer referenced by tracked configuration.",
            "Projects that selected this version only through environment variables or one-off commands may need to reinstall it.",
            "Use mise's native uninstall command after reviewing the version.",
        )
            .action(
            "mise-uninstall",
            text::texts4("mise", "uninstall", "--yes", id),
            true,
            true,
        )
            .build())
}

/// The findings for versions that mise would prune; `bytes` says what each takes.
fn mise_tool_findings(tools: &Vec<MiseTool>, bytes: &Vec<u64>) -> (r: Vec<Finding>)
    ensures
        views(r@) == collect_some(paired(views(tools@), bytes@), mise_row()),
{
    let ghost f = mise_row();
    let ghost pairs = paired(views(tools@), bytes@);
    let mut out: Vec<Finding> = Vec::new();

    let n: usize = tools.len();
    let limit: usize = if n < bytes.len() {
        n
    } else {
        bytes.len()
    };
    let mut i: usize = 0;
    while i < limit
        invariant
            i <= limit,
            limit <= bytes@.len(),
            limit == pairs.len(),
            limit <= tools@.len(),
            pairs == paired(views(tools@), bytes@),
            f == mise_row(),
            views(out@) == collect_some(pairs.take(i as int), f),
        decreases limit - i,
    {
        proof {
            lemma_collect_step(pairs, i as int, f);
        }
        assert(pairs[i as int] == (tools@[i as int]@, bytes@[i as int]));
        if let Some(x) = mise_finding(&tools[i], bytes[i]) {
            out.push(x);
        }
        i += 1;
    }
    assert(pairs.take(i as int) =~= pairs);
    out
}

/// Whether a link leads nowhere.
pub fn is_broken_link(is_symlink: bool, exists: bool) -> (r: bool)
    ensures
        r == (is_symlink && !exists),
{
    is_symlink && !exists
}

/// What is said of links that lead nowhere.
pub open spec fn links_draft(broken: Seq<Seq<char>>) -> Draft {
    draft(
        toolchains(),
        "mise-stale-config-links"@,
        "toolchain-cache"@,
        "stale-config-links"@,
        "Stale mise tracked configuration links"@,
        Safety::Safe,
        0,
    )
        .grouped_paths(broken)
        .reason(
        "Tracked mise configuration symlinks point to files that no longer exist."@,
    )
        .copy(
        "Bookkeeping links used by mise to determine referenced tool versions."@,
        "Only broken tracked-configuration links are removed."@,
        "Safe to prune through mise."@,
    )
        .action(
        "mise-prune-configs"@,
        seq!["mise"@, "prune"@, "--configs"@, "--yes"@],
        true,
        false,
    )
}

pub open spec fn links_rows(broken: Seq<Seq<char>>) -> Seq<FindingModel> {
    if broken.len() == 0 {
        Seq::empty()
    } else {
        seq![links_draft(broken).build()]
    }
}

/// The findings of mise: the versions that it would prune, each taking `bytes`,
/// and the links to configurations that are gone.
pub fn mise_findings(tools: &Vec<MiseTool>, bytes: &Vec<u64>, broken: Vec<String>) -> (r: Vec<
    Finding,
    >)
    ensures
        views(r@) == collect_some(paired(views(tools@), bytes@), mise_row()) + links_rows(
            views(broken@),
        ),
{
    let ghost links = views(broken@);
    let mut out = mise_tool_findings(tools, bytes);
    let ghost first = views(out@);
    if broken.len() > 0 {
        let finding = ProviderFinding::object(
            metadata(),
            "mise-stale-config-links",
            "toolchain-cache",
            "stale-config-links",
            "Stale mise tracked configuration links",
            Safety::Safe,
            0,
        )
            .grouped_paths(broken)
            .reason(
            "Tracked mise configuration symlinks point to files that no longer exist.",
        )
            .copy(
            "Bookkeeping links used by mise to determine referenced tool versions.",
            "Only broken tracked-configuration links are removed.",
            "Safe to prune through mise.",
        )
            .action(
            "mise-prune-configs",
            text::texts4("mise", "prune", "--configs", "--yes"),
            true,
            false,
        )
            .build();
        out.push(finding);
    }
    assert(views(out@) =~= first + links_rows(links));
    out
}

// ---- rustup ----

/// The channel of an installed toolchain: its name without the machine.
pub open spec fn channel_of(installed: Seq<char>) -> Seq<char> {
    if let Some(c) = text::without_suffix(installed, "-aarch64-apple-darwin"@) {
        c
    } else if let Some(c) = text::without_suffix(installed, "-x86_64-apple-darwin"@) {
        c
    } else if let Some(c) = text::without_suffix(installed, "-x86_64-unknown-linux-gnu"@) {
        c
    } else if let Some(c) = text::without_suffix(installed, "-aarch64-unknown-linux-gnu"@) {
        c
    } else {
        installed
    }
}

pub fn rust_channel(installed: &str) -> (r: String)
    ensures
        r@ == channel_of(installed@),
{
    if let Some(c) = text::strip_suffix(installed, "-aarch64-apple-darwin") {
        return c;
    }
    if let Some(c) = text::strip_suffix(installed, "-x86_64-apple-darwin") {
        return c;
    }
    if let Some(c) = text::strip_suffix(installed, "-x86_64-unknown-linux-gnu") {
        return c;
    }
    if let Some(c) = text::strip_suffix(installed, "-aarch64-unknown-linux-gnu") {
        return c;
    }
    installed.to_owned()
}

/// The channel that a toolchain file names in its table.
pub open spec fn channel_entry(doc: Option<JsonModel>) -> Option<Seq<char>> {
    match doc {
        Some(d) => match d.get("toolchain"@) {
            Some(t) => t.text_at("channel"@),
            None => None,
        },
        None => None,
    }
}

/// A line that can name a channel: neither blank nor a heading.
pub open spec fn channel_line() -> spec_fn(Seq<char>) -> Option<Seq<char>> {
    |l: Seq<char>|
    if text::trimmed(l).len() > 0 && !text::begins(text::trimmed(l), "["@) {
        Some(text::trimmed(l))
    } else {
        None
    }
}

/// The channel that a toolchain file asks for: the entry of its table, or else
/// its first line that can name one.
pub open spec fn channel_in(contents: Seq<char>, doc: Option<JsonModel>) -> Option<Seq<char>> {
    match channel_entry(doc) {
        Some(c) => Some(c),
        None => find_some(text::lines_of(contents), channel_line()),
    }
}

fn first_channel_line(contents: &str) -> (r: Option<String>)
    ensures
        view_of(r) == find_some(text::lines_of(contents@), channel_line()),
{
    let l = text::lines(contents);
    let ghost all = text::lines_of(contents@);
    let ghost f = channel_line();
    assert(all.skip(0) =~= all);
    let mut i: usize = 0;
    while i < l.len()
        invariant
            i <= l@.len(),
            all == views(l@),
            all == text::lines_of(contents@),
            f == channel_line(),
            find_some(all, f) == find_some(all.skip(i as int), f),
        decreases l@.len() - i,
    {
        proof {
            lemma_find_step(all, i as int, f);
        }
        assert(all[i as int] == l@[i as int]@);
        let t = text::trim(l[i].as_str());
        if !t.as_str().is_empty() && !text::starts_with(t.as_str(), "[") {
            return Some(t);
        }
        i += 1;
    }
    None
}

/// The channel in a toolchain file of which the table has been read.
pub fn channel_of_file(contents: &str, doc: &Option<Json>) -> (r: Option<String>)
    ensures
        view_of(r) == channel_in(contents@, view_of(*doc)),
{
    if let Some(d) = doc {
        if let Some(t) = d.get("toolchain") {
            if let Some(c) = t.text("channel") {
                return Some(c);
            }
        }
    }
    first_channel_line(contents)
}

/// The channel that a toolchain file asks for.
pub fn rust_toolchain_channel(contents: &str) -> (r: Option<String>)
    ensures
        view_of(r) == channel_in(contents@, toml_document(contents@)),
{
    let doc = parse_toml(contents);
    channel_of_file(contents, &doc)
}

/// The first word of a line.
pub open spec fn first_word() -> spec_fn(Seq<char>) -> Option<Seq<char>> {
    |l: Seq<char>|
    if text::words(l).len() > 0 {
        Some(text::words(l)[0])
    } else {
        None
    }
}

pub fn word_of(l: &str) -> (r: Option<String>)
    ensures
        view_of(r) == first_word()(l@),
{
    let w = text::split_whitespace(l);
    if w.len() > 0 {
        assert(views(w@)[0] == w@[0]@);
        Some(w[0].clone())
    } else {
        None
    }
}

/// The toolchain that rustup marks as active or default.
pub open spec fn marked_toolchain() -> spec_fn(Seq<char>) -> Option<ReferenceModel> {
    |l: Seq<char>|
    if text::occurs(l, "(active"@) || text::occurs(l, "(default"@) {
        Some(
            ReferenceModel {
                key: channel_of(text::or_empty(first_word()(l))),
                consumer: "active/default rustup toolchain"@,
            },
        )
    } else {
        None
    }
}

/// The toolchain of an override.
pub open spec fn override_line() -> spec_fn(Seq<char>) -> Option<ReferenceModel> {
    |l: Seq<char>|
    if text::words(l).len() >= 2 {
        Some(
            ReferenceModel {
                key: channel_of(text::words(l)[1]),
                consumer: "rustup override at "@ + text::words(l)[0],
            },
        )
    } else {
        None
    }
}

/// The toolchain that a file asks for.
pub open spec fn toolchain_file() -> spec_fn(TextFileModel) -> Option<ReferenceModel> {
    |f: TextFileModel|
    match f.contents {
        Some(c) => match channel_in(c, toml_document(c)) {
            Some(key) => Some(ReferenceModel { key, consumer: f.path }),
            None => None,
        },
        None => None,
    }
}

/// Who refers to toolchains: rustup itself, its overrides, files of projects.
pub open spec fn rust_references(
    output: Seq<char>,
    overrides: Option<Seq<char>>,
    files: Seq<TextFileModel>,
) -> Seq<ReferenceModel> {
    collect_some(text::lines_of(output), marked_toolchain()) + (match overrides {
            Some(o) => collect_some(text::lines_of(o), override_line()),
            None => Seq::empty(),
    }) + collect_some(
        named(files, seq!["rust-toolchain.toml"@, "rust-toolchain"@]),
        toolchain_file(),
    )
}

fn marked(l: &str) -> (r: Option<Reference>)
    ensures
        view_of(r) == marked_toolchain()(l@),
{
    if text::contains(l, "(active") || text::contains(l, "(default") {
        let word = text::text_or_empty(word_of(l));
        Some(
            Reference {
                key: rust_channel(word.as_str()),
                consumer: "active/default rustup toolchain".to_owned(),
            },
        )
    } else {
        None
    }
}

fn overridden(l: &str) -> (r: Option<Reference>)
    ensures
        view_of(r) == override_line()(l@),
{
    let w = text::split_whitespace(l);
    if w.len() >= 2 {
        assert(views(w@)[0] == w@[0]@ && views(w@)[1] == w@[1]@);
        Some(
            Reference {
                key: rust_channel(w[1].as_str()),
                consumer: "rustup override at ".to_owned().concat(w[0].as_str()),
            },
        )
    } else {
        None
    }
}

fn asked_by(f: &TextFile) -> (r: Option<Reference>)
    ensures
        view_of(r) == toolchain_file()(f@),
{
    match &f.contents {
        Some(c) => match rust_toolchain_channel(c.as_str()) {
            Some(key) => Some(Reference { key, consumer: f.path.clone() }),
            None => None,
        },
        None => None,
    }
}

fn marked_toolchains(output: &str) -> (r: Vec<Reference>)
    ensures
        views(r@) == collect_some(text::lines_of(output@), marked_toolchain()),
{
    let l = text::lines(output);
    let ghost all = views(l@);
    let ghost f = marked_toolchain();
    let mut out: Vec<Reference> = Vec::new();
    let limit: usize = l.len();
    let mut i: usize = 0;
    assert(views(out@) =~= collect_some(all.take(0), f));
    while i < limit
        invariant
            i <= limit <= l@.len(),
            all == views(l@),
            f == marked_toolchain(),
            views(out@) == collect_some(all.take(i as int), f),
        decreases limit - i,
    {
        proof {
            lemma_collect_step(all, i as int, f);
        }
        assert(all[i as int] == l@[i as int]@);
        if let Some(x) = marked(l[i].as_str()) {
            out.push(x);
        }
        i += 1;
    }
    assert(all.take(limit as int) =~= all);
    out
}

fn override_lines(output: &str) -> (r: Vec<Reference>)
    ensures
        views(r@) == collect_some(text::lines_of(output@), override_line()),
{
    let l = text::lines(output);
    let ghost all = views(l@);
    let ghost f = override_line();
    let mut out: Vec<Reference> = Vec::new();
    let limit: usize = l.len();
    let mut i: usize = 0;
    assert(views(out@) =~= collect_some(all.take(0), f));
    while i < limit
        invariant
            i <= limit <= l@.len(),
            all == views(l@),
            f == override_line(),
            views(out@) == collect_some(all.take(i as int), f),
        decreases limit - i,
    {
        proof {
            lemma_collect_step(all, i as int, f);
        }
        assert(all[i as int] == l@[i as int]@);
        if let Some(x) = overridden(l[i].as_str()) {
            out.push(x);
        }
        i += 1;
    }
    assert(all.take(limit as int) =~= all);
    out
}

fn toolchain_files(files: &Vec<TextFile>) -> (r: Vec<Reference>)
    ensures
        views(r@) == collect_some(views(files@), toolchain_file()),
{
    let ghost all = views(files@);
    let ghost f = toolchain_file();
    let mut out: Vec<Reference> = Vec::new();
    let limit: usize = files.len();
    let mut i: usize = 0;
    assert(views(out@) =~= collect_some(all.take(0), f));
    while i < limit
        invariant
            i <= limit <= files@.len(),
            all == views(files@),
            f == toolchain_file(),
            views(out@) == collect_some(all.take(i as int), f),
        decreases limit - i,
    {
        proof {
            lemma_collect_step(all, i as int, f);
        }
        assert(all[i as int] == files@[i as int]@);
        if let Some(x) = asked_by(&files[i]) {
            out.push(x);
        }
        i += 1;
    }
    assert(all.take(limit as int) =~= all);
    out
}

/// Who refers to toolchains.
pub fn rustup_references(output: &str, overrides: Option<&str>, files: &Vec<TextFile>) -> (r: Vec<
    Reference,
    >)
    ensures
        views(r@) == rust_references(
            output@,
            match overrides {
                Some(o) => Some(o@),
                None => None,
            },
            views(files@),
        ),
{
    let mut r = marked_toolchains(output);
    let ghost a = views(r@);
    if let Some(o) = overrides {
        let mut more = override_lines(o);
        r.append(&mut more);
    } else {
        assert(a + Seq::<ReferenceModel>::empty() =~= a);
    }
    let names = text::texts2("rust-toolchain.toml", "rust-toolchain");
    let found = reference_files_named(files, &names);
    let mut more = toolchain_files(&found);
    r.append(&mut more);
    r
}

/// The toolchains that rustup lists.
pub fn rustup_installed(output: &str) -> (r: Vec<String>)
    ensures
        views(r@) == collect_some(text::lines_of(output@), first_word()),
{
    let l = text::lines(output);
    let ghost all = views(l@);
    let ghost f = first_word();
    let mut out: Vec<String> = Vec::new();
    let limit: usize = l.len();
    let mut i: usize = 0;
    assert(views(out@) =~= collect_some(all.take(0), f));
    while i < limit
        invariant
            i <= limit <= l@.len(),
            all == views(l@),
            f == first_word(),
            views(out@) == collect_some(all.take(i as int), f),
        decreases limit - i,
    {
        proof {
            lemma_collect_step(all, i as int, f);
        }
        assert(all[i as int] == l@[i as int]@);
        if let Some(x) = word_of(l[i].as_str()) {
            out.push(x);
        }
        i += 1;
    }
    assert(all.take(limit as int) =~= all);
    out
}

/// What is said of a version that something refers to.
pub open spec fn rust_referenced(name: Seq<char>, used_by: Seq<Seq<char>>, bytes: u64) -> Draft {
    draft(
        toolchains(),
        "rustup-referenced-toolchain"@,
        "installed-tools"@,
        name,
        "Rust "@ + name + " (referenced)"@,
        Safety::Protected,
        bytes,
    )
        .diagnostic()
        .protected()
        .confidence(Confidence::Exact)
        .reason(
        "This installed Rust toolchain is active or referenced by project configuration."@,
    )
        .evidence("Manager"@, "rustup"@)
        .evidence("References"@, text::joined(used_by, ", "@))
        .copy(
        "A Rust toolchain required by the current default, an override, or a discovered project."@,
        "Removing it would break the listed consumer until rustup downloads it again."@,
        "Protected because Hokori found an explicit consumer."@,
    )
}

/// What is said of a version that nothing refers to.
pub open spec fn rust_unreferenced(name: Seq<char>, root: Seq<char>, bytes: u64) -> Draft {
    draft(
        toolchains(),
        "rustup-unreferenced-toolchain"@,
        "installed-tools"@,
        name,
        "Rust "@ + name,
        Safety::Review,
        bytes,
    )
        .manual()
        .confidence(Confidence::High)
        .reason(
        "No default, active override, or discovered rust-toolchain file references this installed toolchain."@,
    )
        .evidence("Manager"@, "rustup"@)
        .evidence("Channel"@, channel_of(name))
        .evidence("Install path"@, paths::below(root, name))
        .copy(
        "A complete Rust compiler, standard library, components, and installed targets."@,
        "Projects that require this exact channel will trigger a new toolchain download."@,
        "Review external or non-repository consumers before using rustup's native uninstall command."@,
    )
        .action(
        "rustup-uninstall"@,
        seq!["rustup"@, "toolchain"@, "uninstall"@, name],
        true,
        true,
    )
}

/// The finding for an installed version that is large enough.
pub open spec fn rust_row(
    references: Seq<ReferenceModel>,
    root: Seq<char>,
    settings: ProviderSettings,
) -> spec_fn((Seq<char>, u64)) -> Option<FindingModel> {
    |x: (Seq<char>, u64)|
    {
        let used_by = consumers_of(references, channel_of(x.0));
        if x.1 < settings.min_size_bytes {
            None
        } else if used_by.len() > 0 {
            Some(rust_referenced(x.0, used_by, x.1).build())
        } else {
            Some(rust_unreferenced(x.0, root, x.1).build())
        }
    }
}

fn rust_finding(
    name: &str,
    bytes: u64,
    references: &Vec<Reference>,
    root: &str,
    settings: &ProviderSettings,
) -> (r: Option<Finding>)
    ensures
        view_of(r) == rust_row(views(references@), root@, *settings)((name@, bytes)),
{
    if bytes < settings.min_size_bytes {
        return None;
    }
    let channel = rust_channel(name);
    let used_by = consumers(references, channel.as_str());
    if used_by.len() > 0 {
        return Some(ProviderFinding::object(
                metadata(),
                "rustup-referenced-toolchain",
                "installed-tools",
                name,
                "Rust ".to_owned().concat(name).concat(" (referenced)").as_str(),
                Safety::Protected,
                bytes,
            )
                .diagnostic()
                .protected()
                .confidence(Confidence::Exact)
                .reason(
                "This installed Rust toolchain is active or referenced by project configuration.",
            )
                .evidence("Manager", "rustup")
                .evidence("References", text::join(&used_by, ", ").as_str())
                .copy(
                "A Rust toolchain required by the current default, an override, or a discovered project.",
                "Removing it would break the listed consumer until rustup downloads it again.",
                "Protected because Hokori found an explicit consumer.",
            )
                .build());
    }
    let path = paths::join(root, name);
    Some(ProviderFinding::object(
            metadata(),
            "rustup-unreferenced-toolchain",
            "installed-tools",
            name,
            "Rust ".to_owned().concat(name).as_str(),
            Safety::Review,
            bytes,
        )
            .manual()
            .confidence(Confidence::High)
            .reason(
            "No default, active override, or discovered rust-toolchain file references this installed toolchain.",
        )
            .evidence("Manager", "rustup")
            .evidence("Channel", channel.as_str())
            .evidence("Install path", path.as_str())
            .copy(
            "A complete Rust compiler, standard library, components, and installed targets.",
            "Projects that require this exact channel will trigger a new toolchain download.",
            "Review external or non-repository consumers before using rustup's native uninstall command.",
        )
            .action(
            "rustup-uninstall",
            text::texts4("rustup", "toolchain", "uninstall", name),
            true,
            true,
        )
            .build())
}

/// The findings for toolchains below `root`; `bytes` says what each takes.
pub fn rustup_findings(installed: &Vec<String>, bytes: &Vec<u64>, references: &Vec<Reference>, root: &str, settings: &ProviderSettings) -> (r: Vec<Finding>)
    ensures
        views(r@) == collect_some(paired(views(installed@), bytes@), rust_row(views(references@), root@, *settings)),
{
    let ghost f = rust_row(views(references@), root@, *settings);
    let ghost pairs = paired(views(installed@), bytes@);
    let mut out: Vec<Finding> = Vec::new();

    let n: usize = installed.len();
    let limit: usize = if n < bytes.len() {
        n
    } else {
        bytes.len()
    };
    let mut i: usize = 0;
    while i < limit
        invariant
            i <= limit,
            limit <= bytes@.len(),
            limit == pairs.len(),
            limit <= installed@.len(),
            pairs == paired(views(installed@), bytes@),
            f == rust_row(views(references@), root@, *settings),
            views(out@) == collect_some(pairs.take(i as int), f),
        decreases limit - i,
    {
        proof {
            lemma_collect_step(pairs, i as int, f);
        }
        assert(pairs[i as int] == (installed@[i as int]@, bytes@[i as int]));
        if let Some(x) = rust_finding(installed[i].as_str(), bytes[i], references, root, settings) {
            out.push(x);
        }
        i += 1;
    }
    assert(pairs.take(i as int) =~= pairs);
    out
}

// ---- pyenv ----

/// A version in the list of pyenv; environments of versions are left out.
pub open spec fn pyenv_line() -> spec_fn(Seq<char>) -> Option<Seq<char>> {
    |l: Seq<char>|
    if text::trimmed(l).len() > 0 && !text::trimmed(l).contains('/') {
        Some(text::trimmed(l))
    } else {
        None
    }
}

fn pyenv_version(l: &str) -> (r: Option<String>)
    ensures
        view_of(r) == pyenv_line()(l@),
{
    let t = text::trim(l);
    if t.as_str().is_empty() || text::has_char(t.as_str(), '/') {
        None
    } else {
        Some(t)
    }
}

/// The versions that pyenv lists.
pub fn pyenv_installed(output: &str) -> (r: Vec<String>)
    ensures
        views(r@) == collect_some(text::lines_of(output@), pyenv_line()),
{
    let l = text::lines(output);
    let ghost all = views(l@);
    let ghost f = pyenv_line();
    let mut out: Vec<String> = Vec::new();
    let limit: usize = l.len();
    let mut i: usize = 0;
    assert(views(out@) =~= collect_some(all.take(0), f));
    while i < limit
        invariant
            i <= limit <= l@.len(),
            all == views(l@),
            f == pyenv_line(),
            views(out@) == collect_some(all.take(i as int), f),
        decreases limit - i,
    {
        proof {
            lemma_collect_step(all, i as int, f);
        }
        assert(all[i as int] == l@[i as int]@);
        if let Some(x) = pyenv_version(l[i].as_str()) {
            out.push(x);
        }
        i += 1;
    }
    assert(all.take(limit as int) =~= all);
    out
}

/// An installed version that was asked for.
pub open spec fn if_requested(requested: Seq<char>, consumer: Seq<char>) -> spec_fn(Seq<char>) -> Option<
ReferenceModel,
> {
    |v: Seq<char>|
    if version_fits(requested, v) {
        Some(ReferenceModel { key: v, consumer })
    } else {
        None
    }
}

/// The installed versions that a request asks for.
pub open spec fn requested_by(installed: Seq<Seq<char>>, consumer: Seq<char>) -> spec_fn(
    Seq<char>,
) -> Seq<ReferenceModel> {
    |requested: Seq<char>| collect_some(installed, if_requested(requested, consumer))
}

/// The installed versions that the lines of a text ask for.
pub open spec fn lines_ask(installed: Seq<Seq<char>>, contents: Seq<char>, consumer: Seq<char>) -> Seq<
ReferenceModel,
> {
    flatten_map(full_lines(contents), requested_by(installed, consumer))
}

fn request_fits(requested: &str, consumer: &str, v: &String) -> (r: Option<Reference>)
    ensures
        view_of(r) == if_requested(requested@, consumer@)(v@),
{
    if version_matches(requested, v.as_str()) {
        Some(Reference { key: v.clone(), consumer: consumer.to_owned() })
    } else {
        None
    }
}

fn versions_asked(installed: &Vec<String>, requested: &str, consumer: &str) -> (r: Vec<Reference>)
    ensures
        views(r@) == collect_some(views(installed@), if_requested(requested@, consumer@)),
{
    let ghost all = views(installed@);
    let ghost f = if_requested(requested@, consumer@);
    let mut out: Vec<Reference> = Vec::new();
    let limit: usize = installed.len();
    let mut i: usize = 0;
    assert(views(out@) =~= collect_some(all.take(0), f));
    while i < limit
        invariant
            i <= limit <= installed@.len(),
            all == views(installed@),
            f == if_requested(requested@, consumer@),
            views(out@) == collect_some(all.take(i as int), f),
        decreases limit - i,
    {
        proof {
            lemma_collect_step(all, i as int, f);
        }
        assert(all[i as int] == installed@[i as int]@);
        if let Some(x) = request_fits(requested, consumer, &installed[i]) {
            out.push(x);
        }
        i += 1;
    }
    assert(all.take(limit as int) =~= all);
    out
}

fn all_requested(lines: &Vec<String>, installed: &Vec<String>, consumer: &str) -> (r: Vec<Reference>)
    ensures
        views(r@) == flatten_map(views(lines@), requested_by(views(installed@), consumer@)),
{
    let ghost all = views(lines@);
    let ghost f = requested_by(views(installed@), consumer@);
    let mut out: Vec<Reference> = Vec::new();
    let limit: usize = lines.len();
    let mut i: usize = 0;
    assert(views(out@) =~= flatten_map(all.take(0), f));
    while i < limit
        invariant
            i <= limit <= lines@.len(),
            all == views(lines@),
            f == requested_by(views(installed@), consumer@),
            views(out@) == flatten_map(all.take(i as int), f),
        decreases limit - i,
    {
        proof {
            lemma_flatten_step(all, i as int, f);
        }
        assert(all[i as int] == lines@[i as int]@);
        let mut more = versions_asked(installed, lines[i].as_str(), consumer);
        out.append(&mut more);
        i += 1;
    }
    assert(all.take(limit as int) =~= all);
    out
}

fn asked_by_lines(installed: &Vec<String>, contents: &str, consumer: &str) -> (r: Vec<Reference>)
    ensures
        views(r@) == lines_ask(views(installed@), contents@, consumer@),
{
    let l = trimmed_lines(contents);
    all_requested(&l, installed, consumer)
}

/// What a version file asks for.
pub open spec fn version_file(installed: Seq<Seq<char>>) -> spec_fn(TextFileModel) -> Seq<
ReferenceModel,
> {
    |f: TextFileModel|
    match f.contents {
        Some(c) => lines_ask(installed, c, f.path),
        None => Seq::empty(),
    }
}

fn asked_by_file(f: &TextFile, installed: &Vec<String>) -> (r: Vec<Reference>)
    ensures
        views(r@) == version_file(views(installed@))(f@),
{
    match &f.contents {
        Some(c) => asked_by_lines(installed, c.as_str(), f.path.as_str()),
        None => Vec::new(),
    }
}

fn asked_by_files(files: &Vec<TextFile>, installed: &Vec<String>) -> (r: Vec<Reference>)
    ensures
        views(r@) == flatten_map(views(files@), version_file(views(installed@))),
{
    let ghost all = views(files@);
    let ghost f = version_file(views(installed@));
    let mut out: Vec<Reference> = Vec::new();
    let limit: usize = files.len();
    let mut i: usize = 0;
    assert(views(out@) =~= flatten_map(all.take(0), f));
    while i < limit
        invariant
            i <= limit <= files@.len(),
            all == views(files@),
            f == version_file(views(installed@)),
            views(out@) == flatten_map(all.take(i as int), f),
        decreases limit - i,
    {
        proof {
            lemma_flatten_step(all, i as int, f);
        }
        assert(all[i as int] == files@[i as int]@);
        let mut more = asked_by_file(&files[i], installed);
        out.append(&mut more);
        i += 1;
    }
    assert(all.take(limit as int) =~= all);
    out
}

/// An installed version in which an interpreter lies.
pub open spec fn if_holds(path: Seq<char>, consumer: Seq<char>) -> spec_fn(Seq<char>) -> Option<
ReferenceModel,
> {
    |v: Seq<char>|
    if text::occurs(path, "/versions/"@ + v + "/"@) {
        Some(ReferenceModel { key: v, consumer })
    } else {
        None
    }
}

/// The interpreter of a tool of pipx.
pub open spec fn interpreter_of(data: JsonModel) -> Option<Seq<char>> {
    match data.get("metadata"@) {
        Some(m) => match m.get("source_interpreter"@) {
            Some(i) => i.text_at("__Path__"@),
            None => None,
        },
        None => None,
    }
}

/// The versions that a tool of pipx runs on.
pub open spec fn pipx_entry(installed: Seq<Seq<char>>) -> spec_fn((Seq<char>, JsonModel)) -> Seq<
ReferenceModel,
> {
    |e: (Seq<char>, JsonModel)|
    match interpreter_of(e.1) {
        Some(p) => collect_some(installed, if_holds(p, "pipx tool "@ + e.0)),
        None => Seq::empty(),
    }
}

/// The versions that the tools of pipx run on.
pub open spec fn pipx_asks(installed: Seq<Seq<char>>, doc: Option<JsonModel>) -> Seq<
ReferenceModel,
> {
    match doc {
        Some(d) => match d.get("venvs"@) {
            Some(v) => flatten_map(v.entries(), pipx_entry(installed)),
            None => Seq::empty(),
        },
        None => Seq::empty(),
    }
}

fn holds_interpreter(path: &str, consumer: &str, v: &String) -> (r: Option<Reference>)
    ensures
        view_of(r) == if_holds(path@, consumer@)(v@),
{
    let part = "/versions/".to_owned().concat(v.as_str()).concat("/");
    if text::contains(path, part.as_str()) {
        Some(Reference { key: v.clone(), consumer: consumer.to_owned() })
    } else {
        None
    }
}

fn holders(installed: &Vec<String>, path: &str, consumer: &str) -> (r: Vec<Reference>)
    ensures
        views(r@) == collect_some(views(installed@), if_holds(path@, consumer@)),
{
    let ghost all = views(installed@);
    let ghost f = if_holds(path@, consumer@);
    let mut out: Vec<Reference> = Vec::new();
    let limit: usize = installed.len();
    let mut i: usize = 0;
    assert(views(out@) =~= collect_some(all.take(0), f));
    while i < limit
        invariant
            i <= limit <= installed@.len(),
            all == views(installed@),
            f == if_holds(path@, consumer@),
            views(out@) == collect_some(all.take(i as int), f),
        decreases limit - i,
    {
        proof {
            lemma_collect_step(all, i as int, f);
        }
        assert(all[i as int] == installed@[i as int]@);
        if let Some(x) = holds_interpreter(path, consumer, &installed[i]) {
            out.push(x);
        }
        i += 1;
    }
    assert(all.take(limit as int) =~= all);
    out
}

fn pipx_tool(e: &(String, Json), installed: &Vec<String>) -> (r: Vec<Reference>)
    ensures
        views(r@) == pipx_entry(views(installed@))((e.0@, e.1@)),
{
    if let Some(m) = e.1.get("metadata") {
        if let Some(i) = m.get("source_interpreter") {
            if let Some(p) = i.text("__Path__") {
                let consumer = "pipx tool ".to_owned().concat(e.0.as_str());
                return holders(installed, p.as_str(), consumer.as_str());
            }
        }
    }
    Vec::new()
}

fn pipx_tools(entries: &Vec<(String, Json)>, installed: &Vec<String>) -> (r: Vec<Reference>)
    ensures
        views(r@) == flatten_map(entry_models(entries@), pipx_entry(views(installed@))),
{
    let ghost all = entry_models(entries@);
    let ghost f = pipx_entry(views(installed@));
    let mut out: Vec<Reference> = Vec::new();
    let limit: usize = entries.len();
    let mut i: usize = 0;
    assert(views(out@) =~= flatten_map(all.take(0), f));
    while i < limit
        invariant
            i <= limit <= entries@.len(),
            all == entry_models(entries@),
            f == pipx_entry(views(installed@)),
            views(out@) == flatten_map(all.take(i as int), f),
        decreases limit - i,
    {
        proof {
            lemma_flatten_step(all, i as int, f);
        }
        assert(all[i as int] == (entries@[i as int].0@, entries@[i as int].1@));
        let mut more = pipx_tool(&entries[i], installed);
        out.append(&mut more);
        i += 1;
    }
    assert(all.take(limit as int) =~= all);
    out
}

fn asked_by_pipx(installed: &Vec<String>, doc: &Option<Json>) -> (r: Vec<Reference>)
    ensures
        views(r@) == pipx_asks(views(installed@), view_of(*doc)),
{
    if let Some(d) = doc {
        if let Some(v) = d.get("venvs") {
            if let Some(entries) = v.as_object() {
                return pipx_tools(entries, installed);
            }
        }
    }
    Vec::new()
}

/// Whether a line of an environment's configuration names a version.
pub open spec fn names_version(line: Seq<char>, v: Seq<char>) -> bool {
    match text::without_prefix(line, "version ="@) {
        Some(rest) => version_fits(text::trimmed(rest), v),
        None => false,
    }
}

/// An installed version on which an environment is built.
pub open spec fn if_base(contents: Seq<char>, consumer: Seq<char>) -> spec_fn(Seq<char>) -> Option<
ReferenceModel,
> {
    |v: Seq<char>|
    if text::occurs(contents, "/versions/"@ + v) || exists|i: int|
    0 <= i < text::lines_of(contents).len() && names_version(
        #[trigger] text::lines_of(contents)[i],
        v,
    ) {
        Some(ReferenceModel { key: v, consumer })
    } else {
        None
    }
}

fn line_names(line: &str, v: &str) -> (r: bool)
    ensures
        r == names_version(line@, v@),
{
    match text::strip_prefix(line, "version =") {
        Some(rest) => version_matches(text::trim(rest.as_str()).as_str(), v),
        None => false,
    }
}

fn any_line_names(contents: &str, v: &str) -> (r: bool)
    ensures
        r == exists|i: int|
        0 <= i < text::lines_of(contents@).len() && names_version(
            #[trigger] text::lines_of(contents@)[i],
            v@,
        ),
{
    let l = text::lines(contents);
    let ghost all = text::lines_of(contents@);
    let mut i: usize = 0;
    while i < l.len()
        invariant
            i <= l@.len(),
            all == views(l@),
            all == text::lines_of(contents@),
            forall|j: int| 0 <= j < i ==> !names_version(#[trigger] all[j], v@),
        decreases l@.len() - i,
    {
        assert(all[i as int] == l@[i as int]@);
        if line_names(l[i].as_str(), v) {
            return true;
        }
        i += 1;
    }
    false
}

fn base_of(contents: &str, consumer: &str, v: &String) -> (r: Option<Reference>)
    ensures
        view_of(r) == if_base(contents@, consumer@)(v@),
{
    let part = "/versions/".to_owned().concat(v.as_str());
    if text::contains(contents, part.as_str()) || any_line_names(contents, v.as_str()) {
        Some(Reference { key: v.clone(), consumer: consumer.to_owned() })
    } else {
        None
    }
}

fn bases(installed: &Vec<String>, contents: &str, consumer: &str) -> (r: Vec<Reference>)
    ensures
        views(r@) == collect_some(views(installed@), if_base(contents@, consumer@)),
{
    let ghost all = views(installed@);
    let ghost f = if_base(contents@, consumer@);
    let mut out: Vec<Reference> = Vec::new();
    let limit: usize = installed.len();
    let mut i: usize = 0;
    assert(views(out@) =~= collect_some(all.take(0), f));
    while i < limit
        invariant
            i <= limit <= installed@.len(),
            all == views(installed@),
            f == if_base(contents@, consumer@),
            views(out@) == collect_some(all.take(i as int), f),
        decreases limit - i,
    {
        proof {
            lemma_collect_step(all, i as int, f);
        }
        assert(all[i as int] == installed@[i as int]@);
        if let Some(x) = base_of(contents, consumer, &installed[i]) {
            out.push(x);
        }
        i += 1;
    }
    assert(all.take(limit as int) =~= all);
    out
}

/// The versions on which an environment is built; its file is the
/// configuration in the directory of the environment.
pub open spec fn environment_asks(installed: Seq<Seq<char>>) -> spec_fn(TextFileModel) -> Seq<
ReferenceModel,
> {
    |e: TextFileModel|
    match e.contents {
        Some(c) => collect_some(
            installed,
            if_base(c, "pyenv virtualenv "@ + paths::name_of(e.path)),
        ),
        None => Seq::empty(),
    }
}

fn asked_by_environment(e: &TextFile, installed: &Vec<String>) -> (r: Vec<Reference>)
    ensures
        views(r@) == environment_asks(views(installed@))(e@),
{
    match &e.contents {
        Some(c) => {
            let consumer = "pyenv virtualenv ".to_owned().concat(
                paths::name_or_empty(e.path.as_str()).as_str(),
            );
            bases(installed, c.as_str(), consumer.as_str())
        },
        None => Vec::new(),
    }
}

/// The most environments that are read.
pub const ENVIRONMENT_LIMIT: usize = 5_000;

fn asked_by_environments(environments: &Vec<TextFile>, installed: &Vec<String>) -> (r: Vec<Reference>)
    ensures
        views(r@) == flatten_map(at_most(views(environments@), ENVIRONMENT_LIMIT as int), environment_asks(views(installed@))),
{
    let ghost all = views(environments@);
    let ghost f = environment_asks(views(installed@));
    let mut out: Vec<Reference> = Vec::new();
    let limit: usize = if environments.len() > ENVIRONMENT_LIMIT {
        ENVIRONMENT_LIMIT
    } else {
        environments.len()
    };
    let mut i: usize = 0;
    assert(views(out@) =~= flatten_map(all.take(0), f));
    while i < limit
        invariant
            i <= limit <= environments@.len(),
            all == views(environments@),
            f == environment_asks(views(installed@)),
            views(out@) == flatten_map(all.take(i as int), f),
        decreases limit - i,
    {
        proof {
            lemma_flatten_step(all, i as int, f);
        }
        assert(all[i as int] == environments@[i as int]@);
        let mut more = asked_by_environment(&environments[i], installed);
        out.append(&mut more);
        i += 1;
    }
    assert(all.take(limit as int) =~= at_most(all, ENVIRONMENT_LIMIT as int));
    out
}

/// Who refers to versions of Python: the global setting, files of projects,
/// tools of pipx and environments. An environment is given by its directory,
/// with the text of its configuration.
pub open spec fn python_references(
    installed: Seq<Seq<char>>,
    global: Option<Seq<char>>,
    files: Seq<TextFileModel>,
    pipx: Option<JsonModel>,
    environments: Seq<TextFileModel>,
) -> Seq<ReferenceModel> {
    (match global {
            Some(g) => lines_ask(installed, g, "pyenv global"@),
            None => Seq::empty(),
    }) + flatten_map(named(files, seq![".python-version"@]), version_file(installed)) + pipx_asks(
        installed,
        pipx,
    ) + flatten_map(at_most(environments, ENVIRONMENT_LIMIT as int), environment_asks(installed))
}

/// Who refers to versions of Python, where the list of pipx has been read.
pub fn python_references_of(
    installed: &Vec<String>,
    global: Option<&str>,
    files: &Vec<TextFile>,
    pipx: &Option<Json>,
    environments: &Vec<TextFile>,
) -> (r: Vec<Reference>)
    ensures
        views(r@) == python_references(
            views(installed@),
            match global {
                Some(g) => Some(g@),
                None => None,
            },
            views(files@),
            view_of(*pipx),
            views(environments@),
        ),
{
    let mut r: Vec<Reference> = match global {
        Some(g) => asked_by_lines(installed, g, "pyenv global"),
        None => Vec::new(),
    };
    let names = text::texts1(".python-version");
    let found = reference_files_named(files, &names);
    let mut a = asked_by_files(&found, installed);
    let mut b = asked_by_pipx(installed, pipx);
    let mut c = asked_by_environments(environments, installed);
    r.append(&mut a);
    r.append(&mut b);
    r.append(&mut c);
    r
}

/// Who refers to versions of Python; `pipx` is what the list of pipx prints.
pub fn pyenv_references(
    installed: &Vec<String>,
    global: Option<&str>,
    files: &Vec<TextFile>,
    pipx: Option<&str>,
    environments: &Vec<TextFile>,
) -> (r: Vec<Reference>)
    ensures
        views(r@) == python_references(
            views(installed@),
            match global {
                Some(g) => Some(g@),
                None => None,
            },
            views(files@),
            match pipx {
                Some(p) => json_document(p@),
                None => None,
            },
            views(environments@),
        ),
{
    let doc = match pipx {
        Some(p) => parse_json(p),
        None => None,
    };
    python_references_of(installed, global, files, &doc, environments)
}

/// What is said of a version that something refers to.
pub open spec fn python_referenced(name: Seq<char>, used_by: Seq<Seq<char>>, bytes: u64) -> Draft {
    draft(
        toolchains(),
        "pyenv-referenced-version"@,
        "installed-tools"@,
        name,
        "Python "@ + name + " (referenced)"@,
        Safety::Protected,
        bytes,
    )
        .diagnostic()
        .protected()
        .confidence(Confidence::Exact)
        .reason(
        "This Python version is referenced by pyenv configuration or an installed pipx tool."@,
    )
        .evidence("Manager"@, "pyenv"@)
        .evidence("References"@, text::joined(used_by, ", "@))
        .copy(
        "A pyenv-managed Python installation with explicit consumers."@,
        "Removing it would break the listed project or installed tool."@,
        "Protected because Hokori found an explicit consumer."@,
    )
}

/// What is said of a version that nothing refers to.
pub open spec fn python_unreferenced(name: Seq<char>, root: Seq<char>, bytes: u64) -> Draft {
    draft(
        toolchains(),
        "pyenv-unreferenced-version"@,
        "installed-tools"@,
        name,
        "Python "@ + name,
        Safety::Review,
        bytes,
    )
        .manual()
        .confidence(Confidence::High)
        .reason(
        "No pyenv global/local file or installed pipx environment references this Python version."@,
    )
        .evidence("Manager"@, "pyenv"@)
        .evidence("Install path"@, paths::below(root, name))
        .copy(
        "A complete pyenv-managed Python installation."@,
        "Scripts, virtual environments, or tools outside the scanned repositories may stop working."@,
        "Review non-project consumers before using pyenv's native uninstall command."@,
    )
        .action(
        "pyenv-uninstall"@,
        seq!["pyenv"@, "uninstall"@, "-f"@, name],
        true,
        true,
    )
}

/// The finding for an installed version that is large enough.
pub open spec fn python_row(
    references: Seq<ReferenceModel>,
    root: Seq<char>,
    settings: ProviderSettings,
) -> spec_fn((Seq<char>, u64)) -> Option<FindingModel> {
    |x: (Seq<char>, u64)|
    {
        let used_by = consumers_of(references, x.0);
        if x.1 < settings.min_size_bytes {
            None
        } else if used_by.len() > 0 {
            Some(python_referenced(x.0, used_by, x.1).build())
        } else {
            Some(python_unreferenced(x.0, root, x.1).build())
        }
    }
}

fn python_finding(
    name: &str,
    bytes: u64,
    references: &Vec<Reference>,
    root: &str,
    settings: &ProviderSettings,
) -> (r: Option<Finding>)
    ensures
        view_of(r) == python_row(views(references@), root@, *settings)((name@, bytes)),
{
    if bytes < settings.min_size_bytes {
        return None;
    }

    let used_by = consumers(references, name);
    if used_by.len() > 0 {
        return Some(ProviderFinding::object(
                metadata(),
                "pyenv-referenced-version",
                "installed-tools",
                name,
                "Python ".to_owned().concat(name).concat(" (referenced)").as_str(),
                Safety::Protected,
                bytes,
            )
                .diagnostic()
                .protected()
                .confidence(Confidence::Exact)
                .reason(
                "This Python version is referenced by pyenv configuration or an installed pipx tool.",
            )
                .evidence("Manager", "pyenv")
                .evidence("References", text::join(&used_by, ", ").as_str())
                .copy(
                "A pyenv-managed Python installation with explicit consumers.",
                "Removing it would break the listed project or installed tool.",
                "Protected because Hokori found an explicit consumer.",
            )
                .build());
    }
    let path = paths::join(root, name);
    Some(ProviderFinding::object(
            metadata(),
            "pyenv-unreferenced-version",
            "installed-tools",
            name,
            "Python ".to_owned().concat(name).as_str(),
            Safety::Review,
            bytes,
        )
            .manual()
            .confidence(Confidence::High)
            .reason(
            "No pyenv global/local file or installed pipx environment references this Python version.",
        )
            .evidence("Manager", "pyenv")
            .evidence("Install path", path.as_str())
            .copy(
            "A complete pyenv-managed Python installation.",
            "Scripts, virtual environments, or tools outside the scanned repositories may stop working.",
            "Review non-project consumers before using pyenv's native uninstall command.",
        )
            .action(
            "pyenv-uninstall",
            text::texts4("pyenv", "uninstall", "-f", name),
            true,
            true,
        )
            .build())
}

/// The findings for versions of Python below `root`; `bytes` says what each takes.
pub fn pyenv_findings(installed: &Vec<String>, bytes: &Vec<u64>, references: &Vec<Reference>, root: &str, settings: &ProviderSettings) -> (r: Vec<Finding>)
    ensures
        views(r@) == collect_some(paired(views(installed@), bytes@), python_row(views(references@), root@, *settings)),
{
    let ghost f = python_row(views(references@), root@, *settings);
    let ghost pairs = paired(views(installed@), bytes@);
    let mut out: Vec<Finding> = Vec::new();

    let n: usize = installed.len();
    let limit: usize = if n < bytes.len() {
        n
    } else {
        bytes.len()
    };
    let mut i: usize = 0;
    while i < limit
        invariant
            i <= limit,
            limit <= bytes@.len(),
            limit == pairs.len(),
            limit <= installed@.len(),
            pairs == paired(views(installed@), bytes@),
            f == python_row(views(references@), root@, *settings),
            views(out@) == collect_some(pairs.take(i as int), f),
        decreases limit - i,
    {
        proof {
            lemma_collect_step(pairs, i as int, f);
        }
        assert(pairs[i as int] == (installed@[i as int]@, bytes@[i as int]));
        if let Some(x) = python_finding(installed[i].as_str(), bytes[i], references, root, settings) {
            out.push(x);
        }
        i += 1;
    }
    assert(pairs.take(i as int) =~= pairs);
    out
}

// ---- other managers ----

/// A directory in which a manager keeps a version.
pub struct InstalledVersion {
    pub name: String,
    pub path: String,
    pub is_dir: bool,
    pub bytes: u64,
}

#[verifier::ext_equal]
pub struct InstalledVersionModel {
    pub name: Seq<char>,
    pub path: Seq<char>,
    pub is_dir: bool,
    pub bytes: u64,
}

impl View for InstalledVersion {
    type V = InstalledVersionModel;

    open spec fn view(&self) -> InstalledVersionModel {
        InstalledVersionModel {
            name: self.name@,
            path: self.path@,
            is_dir: self.is_dir,
            bytes: self.bytes,
        }
    }
}

/// What is said of a version of another manager.
pub open spec fn manager_draft(
    manager: Seq<char>,
    object: Seq<char>,
    path: Seq<char>,
    bytes: u64,
) -> Draft {
    draft(
        toolchains(),
        "unreferenced-manager-version"@,
        "installed-tools"@,
        object,
        manager + " "@ + object,
        Safety::Review,
        bytes,
    )
        .manual()
        .confidence(Confidence::Medium)
        .reason(
        "No discovered project marker or manager default references this "@ + manager + " version."@,
    )
        .evidence("Manager"@, manager)
        .evidence("Install path"@, path)
        .copy(
        "An installed language or SDK version managed outside the primary mise/rustup/pyenv providers."@,
        "Projects or shell scripts outside the scanned locations may stop working."@,
        "Review external consumers and remove through the owning manager."@,
    )
}

fn manager_finding(manager: &str, object: &str, path: &str, bytes: u64) -> (r: ProviderFinding)
    ensures
        r@ == manager_draft(manager@, object@, path@, bytes),
{
    ProviderFinding::object(
        metadata(),
        "unreferenced-manager-version",
        "installed-tools",
        object,
        manager.to_owned().concat(" ").concat(object).as_str(),
        Safety::Review,
        bytes,
    )
        .manual()
        .confidence(Confidence::Medium)
        .reason(
        "No discovered project marker or manager default references this ".to_owned().concat(manager).concat(" version.").as_str(),
    )
        .evidence("Manager", manager)
        .evidence("Install path", path)
        .copy(
        "An installed language or SDK version managed outside the primary mise/rustup/pyenv providers.",
        "Projects or shell scripts outside the scanned locations may stop working.",
        "Review external consumers and remove through the owning manager.",
    )
}

/// Whether a version is referred to, with or without the letter before it.
pub open spec fn is_referred(name: Seq<char>, references: Seq<Seq<char>>) -> bool {
    references.contains(name) || references.contains(text::trim_start_of(name, 'v'))
}

pub fn version_referenced(name: &str, references: &Vec<String>) -> (r: bool)
    ensures
        r == is_referred(name@, views(references@)),
{
    text::among(name, references) || text::among(
        text::trim_start_matches(name, 'v').as_str(),
        references,
    )
}

/// The name under which a version is shown.
pub open spec fn shown_version(manager: Seq<char>, name: Seq<char>) -> Seq<char> {
    if manager == "nvm"@ {
        text::trim_start_of(name, 'v')
    } else {
        name
    }
}

/// The finding for a version that nothing refers to. It is offered where the
/// manager has an action, given by its id and the words of its command.
pub open spec fn version_row(
    manager: Seq<char>,
    references: Seq<Seq<char>>,
    action: Option<(Seq<char>, Seq<char>)>,
    settings: ProviderSettings,
) -> spec_fn(InstalledVersionModel) -> Option<FindingModel> {
    |v: InstalledVersionModel|
    if !v.is_dir || is_referred(v.name, references) || v.bytes < settings.min_size_bytes {
        None
    } else {
        let shown = shown_version(manager, v.name);
        let d = manager_draft(manager, shown, v.path, v.bytes);
        Some(
            match action {
                Some((id, command)) => d.action(
                    id,
                    text::words(command).push(shown),
                    true,
                    true,
                ).build(),
                None => d.report_only().build(),
            },
        )
    }
}

pub open spec fn action_texts(action: Option<(&str, &str)>) -> Option<(Seq<char>, Seq<char>)> {
    match action {
        Some((id, command)) => Some((id@, command@)),
        None => None,
    }
}

fn version_finding(
    v: &InstalledVersion,
    manager: &str,
    references: &Vec<String>,
    action: Option<(&str, &str)>,
    settings: &ProviderSettings,
) -> (r: Option<Finding>)
    ensures
        view_of(r) == version_row(
            manager@,
            views(references@),
            action_texts(action),
            *settings,
        )(v@),
{
    if !v.is_dir || version_referenced(v.name.as_str(), references) || v.bytes
    < settings.min_size_bytes {
        return None;
    }
    let shown = if same(manager, "nvm") {
        text::trim_start_matches(v.name.as_str(), 'v')
    } else {
        v.name.clone()
    };
    let builder = manager_finding(manager, shown.as_str(), v.path.as_str(), v.bytes);
    match action {
        Some((id, command)) => {
            let mut preview = text::split_whitespace(command);
            preview.push(shown);
            Some(builder.action(id, preview, true, true).build())
        },
        None => Some(builder.report_only().build()),
    }
}

/// The most versions of a manager that are looked at.
pub const VERSION_LIMIT: usize = 5_000;

/// The findings for the versions of a manager.
pub fn installed_versions(versions: &Vec<InstalledVersion>, manager: &str, references: &Vec<String>, action: Option<(&str, &str)>, settings: &ProviderSettings) -> (r: Vec<Finding>)
    ensures
        views(r@) == collect_some(at_most(views(versions@), VERSION_LIMIT as int), version_row(manager@, views(references@), action_texts(action), *settings)),
{
    let ghost all = views(versions@);
    let ghost f = version_row(manager@, views(references@), action_texts(action), *settings);
    let mut out: Vec<Finding> = Vec::new();
    let limit: usize = if versions.len() > VERSION_LIMIT {
        VERSION_LIMIT
    } else {
        versions.len()
    };
    let mut i: usize = 0;
    assert(views(out@) =~= collect_some(all.take(0), f));
    while i < limit
        invariant
            i <= limit <= versions@.len(),
            all == views(versions@),
            f == version_row(manager@, views(references@), action_texts(action), *settings),
            views(out@) == collect_some(all.take(i as int), f),
        decreases limit - i,
    {
        proof {
            lemma_collect_step(all, i as int, f);
        }
        assert(all[i as int] == versions@[i as int]@);
        if let Some(x) = version_finding(&versions[i], manager, references, action, settings) {
            out.push(x);
        }
        i += 1;
    }
    assert(all.take(limit as int) =~= at_most(all, VERSION_LIMIT as int));
    out
}

/// A line of a version file, without the letter before the version.
pub open spec fn node_line() -> spec_fn(Seq<char>) -> Option<Seq<char>> {
    |l: Seq<char>|
    match trimmed_line()(l) {
        Some(t) => Some(text::trim_start_of(t, 'v')),
        None => None,
    }
}

/// What the lines of a file name.
pub open spec fn lines_name(line: spec_fn(Seq<char>) -> Option<Seq<char>>) -> spec_fn(
    TextFileModel,
) -> Seq<Seq<char>> {
    |f: TextFileModel|
    match f.contents {
        Some(c) => collect_some(text::lines_of(c), line),
        None => Seq::empty(),
    }
}

fn node_version(l: &str) -> (r: Option<String>)
    ensures
        view_of(r) == node_line()(l@),
{
    match trim_line(l) {
        Some(t) => Some(text::trim_start_matches(t.as_str(), 'v')),
        None => None,
    }
}

fn node_lines(s: &str) -> (r: Vec<String>)
    ensures
        views(r@) == collect_some(text::lines_of(s@), node_line()),
{
    let l = text::lines(s);
    let ghost all = views(l@);
    let ghost f = node_line();
    let mut out: Vec<String> = Vec::new();
    let limit: usize = l.len();
    let mut i: usize = 0;
    assert(views(out@) =~= collect_some(all.take(0), f));
    while i < limit
        invariant
            i <= limit <= l@.len(),
            all == views(l@),
            f == node_line(),
            views(out@) == collect_some(all.take(i as int), f),
        decreases limit - i,
    {
        proof {
            lemma_collect_step(all, i as int, f);
        }
        assert(all[i as int] == l@[i as int]@);
        if let Some(x) = node_version(l[i].as_str()) {
            out.push(x);
        }
        i += 1;
    }
    assert(all.take(limit as int) =~= all);
    out
}

fn node_file(f: &TextFile) -> (r: Vec<String>)
    ensures
        views(r@) == lines_name(node_line())(f@),
{
    match &f.contents {
        Some(c) => node_lines(c.as_str()),
        None => Vec::new(),
    }
}

fn ruby_file(f: &TextFile) -> (r: Vec<String>)
    ensures
        views(r@) == lines_name(trimmed_line())(f@),
{
    match &f.contents {
        Some(c) => trimmed_lines(c.as_str()),
        None => Vec::new(),
    }
}

fn node_files(files: &Vec<TextFile>) -> (r: Vec<String>)
    ensures
        views(r@) == flatten_map(views(files@), lines_name(node_line())),
{
    let ghost all = views(files@);
    let ghost f = lines_name(node_line());
    let mut out: Vec<String> = Vec::new();
    let limit: usize = files.len();
    let mut i: usize = 0;
    assert(views(out@) =~= flatten_map(all.take(0), f));
    while i < limit
        invariant
            i <= limit <= files@.len(),
            all == views(files@),
            f == lines_name(node_line()),
            views(out@) == flatten_map(all.take(i as int), f),
        decreases limit - i,
    {
        proof {
            lemma_flatten_step(all, i as int, f);
        }
        assert(all[i as int] == files@[i as int]@);
        let mut more = node_file(&files[i]);
        out.append(&mut more);
        i += 1;
    }
    assert(all.take(limit as int) =~= all);
    out
}

fn ruby_files(files: &Vec<TextFile>) -> (r: Vec<String>)
    ensures
        views(r@) == flatten_map(views(files@), lines_name(trimmed_line())),
{
    let ghost all = views(files@);
    let ghost f = lines_name(trimmed_line());
    let mut out: Vec<String> = Vec::new();
    let limit: usize = files.len();
    let mut i: usize = 0;
    assert(views(out@) =~= flatten_map(all.take(0), f));
    while i < limit
        invariant
            i <= limit <= files@.len(),
            all == views(files@),
            f == lines_name(trimmed_line()),
            views(out@) == flatten_map(all.take(i as int), f),
        decreases limit - i,
    {
        proof {
            lemma_flatten_step(all, i as int, f);
        }
        assert(all[i as int] == files@[i as int]@);
        let mut more = ruby_file(&files[i]);
        out.append(&mut more);
        i += 1;
    }
    assert(all.take(limit as int) =~= all);
    out
}

/// The versions of Node that files of projects and the default name.
pub open spec fn nvm_names(files: Seq<TextFileModel>, default: Option<Seq<char>>) -> Seq<Seq<char>> {
    let named = flatten_map(named(files, seq![".nvmrc"@]), lines_name(node_line()));
    match default {
        Some(d) => named.push(text::trim_start_of(text::trimmed(d), 'v')),
        None => named,
    }
}

pub fn nvm_references(files: &Vec<TextFile>, default: Option<&str>) -> (r: Vec<String>)
    ensures
        views(r@) == nvm_names(
            views(files@),
            match default {
                Some(d) => Some(d@),
                None => None,
            },
        ),
{
    let names = text::texts1(".nvmrc");
    let found = reference_files_named(files, &names);
    let mut r = node_files(&found);
    if let Some(d) = default {
        r.push(text::trim_start_matches(text::trim(d).as_str(), 'v'));
    }
    r
}

/// The versions of Ruby that files of projects and the global setting name.
pub open spec fn ruby_names(files: Seq<TextFileModel>, global: Option<Seq<char>>) -> Seq<Seq<char>> {
    let named = flatten_map(named(files, seq![".ruby-version"@]), lines_name(trimmed_line()));
    match global {
        Some(g) => named.push(text::trimmed(g)),
        None => named,
    }
}

pub fn ruby_references(files: &Vec<TextFile>, global: Option<&str>) -> (r: Vec<String>)
    ensures
        views(r@) == ruby_names(
            views(files@),
            match global {
                Some(g) => Some(g@),
                None => None,
            },
        ),
{
    let names = text::texts1(".ruby-version");
    let found = reference_files_named(files, &names);
    let mut r = ruby_files(&found);
    if let Some(g) = global {
        r.push(text::trim(g));
    }
    r
}

/// A tool and the versions of it that are named.
pub open spec fn tool_versions(line: Seq<char>) -> Seq<ReferenceModel> {
    let w = text::words(line);
    if w.len() == 0 {
        Seq::empty()
    } else {
        collect_some(w.skip(1), as_consumer(w[0]))
    }
}

pub open spec fn as_consumer(key: Seq<char>) -> spec_fn(Seq<char>) -> Option<ReferenceModel> {
    |v: Seq<char>| Some(ReferenceModel { key, consumer: v })
}

pub open spec fn tool_line() -> spec_fn(Seq<char>) -> Seq<ReferenceModel> {
    |l: Seq<char>| tool_versions(l)
}

/// What the lines of a file of tools name: each tool with its versions.
pub open spec fn tool_file() -> spec_fn(TextFileModel) -> Seq<ReferenceModel> {
    |f: TextFileModel|
    match f.contents {
        Some(c) => flatten_map(text::lines_of(c), tool_line()),
        None => Seq::empty(),
    }
}

fn tool_of_line(l: &str) -> (r: Vec<Reference>)
    ensures
        views(r@) == tool_line()(l@),
{
    let w = text::split_whitespace(l);
    let ghost all = views(w@);
    let mut out: Vec<Reference> = Vec::new();
    if w.len() == 0 {
        return out;
    }
    let ghost rest = all.skip(1);
    let ghost f = as_consumer(all[0]);
    assert(all[0] == w@[0]@);
    let n: usize = w.len();
    let mut i: usize = 1;
    assert(views(out@) =~= collect_some(rest.take(0), f));
    while i < n
        invariant
            1 <= i <= n,
            n == w@.len(),
            all == views(w@),
            rest == all.skip(1),
            f == as_consumer(all[0]),
            all[0] == w@[0]@,
            views(out@) == collect_some(rest.take(i - 1), f),
        decreases n - i,
    {
        proof {
            lemma_collect_step(rest, i - 1, f);
        }
        assert(rest[i - 1] == w@[i as int]@);
        out.push(Reference { key: w[0].clone(), consumer: w[i].clone() });
        i += 1;
    }
    assert(rest.take(n - 1) =~= rest);
    out
}

fn tools_of_lines(s: &str) -> (r: Vec<Reference>)
    ensures
        views(r@) == flatten_map(text::lines_of(s@), tool_line()),
{
    let l = text::lines(s);
    let ghost all = views(l@);
    let ghost f = tool_line();
    let mut out: Vec<Reference> = Vec::new();
    let limit: usize = l.len();
    let mut i: usize = 0;
    assert(views(out@) =~= flatten_map(all.take(0), f));
    while i < limit
        invariant
            i <= limit <= l@.len(),
            all == views(l@),
            f == tool_line(),
            views(out@) == flatten_map(all.take(i as int), f),
        decreases limit - i,
    {
        proof {
            lemma_flatten_step(all, i as int, f);
        }
        assert(all[i as int] == l@[i as int]@);
        let mut more = tool_of_line(l[i].as_str());
        out.append(&mut more);
        i += 1;
    }
    assert(all.take(limit as int) =~= all);
    out
}

fn tools_of_file(f: &TextFile) -> (r: Vec<Reference>)
    ensures
        views(r@) == tool_file()(f@),
{
    match &f.contents {
        Some(c) => tools_of_lines(c.as_str()),
        None => Vec::new(),
    }
}

fn tools_of_files(files: &Vec<TextFile>) -> (r: Vec<Reference>)
    ensures
        views(r@) == flatten_map(views(files@), tool_file()),
{
    let ghost all = views(files@);
    let ghost f = tool_file();
    let mut out: Vec<Reference> = Vec::new();
    let limit: usize = files.len();
    let mut i: usize = 0;
    assert(views(out@) =~= flatten_map(all.take(0), f));
    while i < limit
        invariant
            i <= limit <= files@.len(),
            all == views(files@),
            f == tool_file(),
            views(out@) == flatten_map(all.take(i as int), f),
        decreases limit - i,
    {
        proof {
            lemma_flatten_step(all, i as int, f);
        }
        assert(all[i as int] == files@[i as int]@);
        let mut more = tools_of_file(&files[i]);
        out.append(&mut more);
        i += 1;
    }
    assert(all.take(limit as int) =~= all);
    out
}

/// The tools of asdf and their versions that files of projects name.
pub fn asdf_references(files: &Vec<TextFile>) -> (r: Vec<Reference>)
    ensures
        views(r@) == flatten_map(named(views(files@), seq![".tool-versions"@]), tool_file()),
{
    let names = text::texts1(".tool-versions");
    let found = reference_files_named(files, &names);
    tools_of_files(&found)
}

/// A candidate of SDKMAN and its version, in a line of a file.
pub open spec fn sdkman_line() -> spec_fn(Seq<char>) -> Option<ReferenceModel> {
    |l: Seq<char>|
    match text::halves(l, '=') {
        Some((tool, version)) => Some(
            ReferenceModel { key: text::trimmed(tool), consumer: text::trimmed(version) },
        ),
        None => None,
    }
}

pub open spec fn sdkman_file() -> spec_fn(TextFileModel) -> Seq<ReferenceModel> {
    |f: TextFileModel|
    match f.contents {
        Some(c) => collect_some(text::lines_of(c), sdkman_line()),
        None => Seq::empty(),
    }
}

fn sdkman_of_line(l: &str) -> (r: Option<Reference>)
    ensures
        view_of(r) == sdkman_line()(l@),
{
    match text::split_once(l, '=') {
        Some((tool, version)) => Some(
            Reference { key: text::trim(tool.as_str()), consumer: text::trim(version.as_str()) },
        ),
        None => None,
    }
}

fn sdkman_lines(s: &str) -> (r: Vec<Reference>)
    ensures
        views(r@) == collect_some(text::lines_of(s@), sdkman_line()),
{
    let l = text::lines(s);
    let ghost all = views(l@);
    let ghost f = sdkman_line();
    let mut out: Vec<Reference> = Vec::new();
    let limit: usize = l.len();
    let mut i: usize = 0;
    assert(views(out@) =~= collect_some(all.take(0), f));
    while i < limit
        invariant
            i <= limit <= l@.len(),
            all == views(l@),
            f == sdkman_line(),
            views(out@) == collect_some(all.take(i as int), f),
        decreases limit - i,
    {
        proof {
            lemma_collect_step(all, i as int, f);
        }
        assert(all[i as int] == l@[i as int]@);
        if let Some(x) = sdkman_of_line(l[i].as_str()) {
            out.push(x);
        }
        i += 1;
    }
    assert(all.take(limit as int) =~= all);
    out
}

fn sdkman_of_file(f: &TextFile) -> (r: Vec<Reference>)
    ensures
        views(r@) == sdkman_file()(f@),
{
    match &f.contents {
        Some(c) => sdkman_lines(c.as_str()),
        None => Vec::new(),
    }
}

fn sdkman_files(files: &Vec<TextFile>) -> (r: Vec<Reference>)
    ensures
        views(r@) == flatten_map(views(files@), sdkman_file()),
{
    let ghost all = views(files@);
    let ghost f = sdkman_file();
    let mut out: Vec<Reference> = Vec::new();
    let limit: usize = files.len();
    let mut i: usize = 0;
    assert(views(out@) =~= flatten_map(all.take(0), f));
    while i < limit
        invariant
            i <= limit <= files@.len(),
            all == views(files@),
            f == sdkman_file(),
            views(out@) == flatten_map(all.take(i as int), f),
        decreases limit - i,
    {
        proof {
            lemma_flatten_step(all, i as int, f);
        }
        assert(all[i as int] == files@[i as int]@);
        let mut more = sdkman_of_file(&files[i]);
        out.append(&mut more);
        i += 1;
    }
    assert(all.take(limit as int) =~= all);
    out
}

/// The version that the current link of a candidate leads to. `key` is the
/// candidate, `consumer` the target of its link.
pub open spec fn current_version() -> spec_fn(ReferenceModel) -> Option<ReferenceModel> {
    |r: ReferenceModel|
    match paths::last_name(r.consumer) {
        Some(n) => Some(ReferenceModel { key: r.key, consumer: n }),
        None => None,
    }
}

fn current_of(r: &Reference) -> (c: Option<Reference>)
    ensures
        view_of(c) == current_version()(r@),
{
    match paths::file_name(r.consumer.as_str()) {
        Some(n) => Some(Reference { key: r.key.clone(), consumer: n }),
        None => None,
    }
}

fn current_versions(links: &Vec<Reference>) -> (r: Vec<Reference>)
    ensures
        views(r@) == collect_some(views(links@), current_version()),
{
    let ghost all = views(links@);
    let ghost f = current_version();
    let mut out: Vec<Reference> = Vec::new();
    let limit: usize = links.len();
    let mut i: usize = 0;
    assert(views(out@) =~= collect_some(all.take(0), f));
    while i < limit
        invariant
            i <= limit <= links@.len(),
            all == views(links@),
            f == current_version(),
            views(out@) == collect_some(all.take(i as int), f),
        decreases limit - i,
    {
        proof {
            lemma_collect_step(all, i as int, f);
        }
        assert(all[i as int] == links@[i as int]@);
        if let Some(x) = current_of(&links[i]) {
            out.push(x);
        }
        i += 1;
    }
    assert(all.take(limit as int) =~= all);
    out
}

/// The candidates of SDKMAN and their versions that files of projects name, or
/// that are current. `links` holds each candidate with the target of its link.
pub fn sdkman_references(files: &Vec<TextFile>, links: &Vec<Reference>) -> (r: Vec<Reference>)
    ensures
        views(r@) == flatten_map(named(views(files@), seq![".sdkmanrc"@]), sdkman_file())
            + collect_some(views(links@), current_version()),
{
    let names = text::texts1(".sdkmanrc");
    let found = reference_files_named(files, &names);
    let mut r = sdkman_files(&found);
    let mut more = current_versions(links);
    r.append(&mut more);
    r
}

/// The version that the configuration of a project asks FVM for.
pub open spec fn fvm_version(doc: JsonModel) -> Option<Seq<char>> {
    match doc.get("flutter"@) {
        Some(v) => v.as_text(),
        None => doc.text_at("flutterSdkVersion"@),
    }
}

pub open spec fn fvm_file() -> spec_fn(TextFileModel) -> Option<Seq<char>> {
    |f: TextFileModel|
    match f.contents {
        Some(c) => match json_document(c) {
            Some(d) => fvm_version(d),
            None => None,
        },
        None => None,
    }
}

/// The version that a configuration asks FVM for.
pub fn fvm_requested(doc: &Json) -> (r: Option<String>)
    ensures
        view_of(r) == fvm_version(doc@),
{
    match doc.get("flutter") {
        Some(v) => match v.as_str() {
            Some(t) => Some(t.to_owned()),
            None => None,
        },
        None => doc.text("flutterSdkVersion"),
    }
}

fn fvm_of_file(f: &TextFile) -> (r: Option<String>)
    ensures
        view_of(r) == fvm_file()(f@),
{
    match &f.contents {
        Some(c) => match parse_json(c.as_str()) {
            Some(d) => fvm_requested(&d),
            None => None,
        },
        None => None,
    }
}

fn fvm_files(files: &Vec<TextFile>) -> (r: Vec<String>)
    ensures
        views(r@) == collect_some(views(files@), fvm_file()),
{
    let ghost all = views(files@);
    let ghost f = fvm_file();
    let mut out: Vec<String> = Vec::new();
    let limit: usize = files.len();
    let mut i: usize = 0;
    assert(views(out@) =~= collect_some(all.take(0), f));
    while i < limit
        invariant
            i <= limit <= files@.len(),
            all == views(files@),
            f == fvm_file(),
            views(out@) == collect_some(all.take(i as int), f),
        decreases limit - i,
    {
        proof {
            lemma_collect_step(all, i as int, f);
        }
        assert(all[i as int] == files@[i as int]@);
        if let Some(x) = fvm_of_file(&files[i]) {
            out.push(x);
        }
        i += 1;
    }
    assert(all.take(limit as int) =~= all);
    out
}

/// The versions that the projects ask FVM for.
pub fn fvm_references(files: &Vec<TextFile>) -> (r: Vec<String>)
    ensures
        views(r@) == collect_some(
            named(views(files@), seq![".fvmrc"@, "fvm_config.json"@]),
            fvm_file(),
        ),
{
    let names = text::texts2(".fvmrc", "fvm_config.json");
    let found = reference_files_named(files, &names);
    fvm_files(&found)
}

/// A tool of a manager, with its versions.
pub struct ToolDirectory {
    pub name: String,
    pub is_dir: bool,
    pub versions: Vec<InstalledVersion>,
}

#[verifier::ext_equal]
pub struct ToolDirectoryModel {
    pub name: Seq<char>,
    pub is_dir: bool,
    pub versions: Seq<InstalledVersionModel>,
}

impl View for ToolDirectory {
    type V = ToolDirectoryModel;

    open spec fn view(&self) -> ToolDirectoryModel {
        ToolDirectoryModel {
            name: self.name@,
            is_dir: self.is_dir,
            versions: views(self.versions@),
        }
    }
}

/// The finding for a version of a tool of asdf that no project names.
pub open spec fn asdf_row(
    tool: Seq<char>,
    references: Seq<ReferenceModel>,
    uninstall: bool,
    settings: ProviderSettings,
) -> spec_fn(InstalledVersionModel) -> Option<FindingModel> {
    |v: InstalledVersionModel|
    if !v.is_dir || consumers_of(references, tool).contains(v.name) || v.bytes
    < settings.min_size_bytes {
        None
    } else {
        let d = manager_draft("asdf"@, tool + "@"@ + v.name, v.path, v.bytes);
        Some(
            if uninstall {
                d.action(
                    "asdf-uninstall"@,
                    seq!["asdf"@, "uninstall"@, tool, v.name],
                    true,
                    true,
                ).build()
            } else {
                d.report_only().build()
            },
        )
    }
}

/// The most tools of a manager, and versions of a tool, that are looked at.
pub const TOOL_LIMIT: usize = 1_000;

pub open spec fn asdf_tool(
    references: Seq<ReferenceModel>,
    uninstall: bool,
    settings: ProviderSettings,
) -> spec_fn(ToolDirectoryModel) -> Seq<FindingModel> {
    |t: ToolDirectoryModel|
    if t.is_dir {
        collect_some(
            at_most(t.versions, TOOL_LIMIT as int),
            asdf_row(t.name, references, uninstall, settings),
        )
    } else {
        Seq::empty()
    }
}

fn asdf_finding(
    v: &InstalledVersion,
    tool: &str,
    references: &Vec<Reference>,
    uninstall: bool,
    settings: &ProviderSettings,
) -> (r: Option<Finding>)
    ensures
        view_of(r) == asdf_row(tool@, views(references@), uninstall, *settings)(v@),
{
    if !v.is_dir || v.bytes < settings.min_size_bytes {
        return None;
    }
    let named = consumers(references, tool);
    if text::among(v.name.as_str(), &named) {
        return None;
    }
    let object = tool.to_owned().concat("@").concat(v.name.as_str());
    let builder = manager_finding("asdf", object.as_str(), v.path.as_str(), v.bytes);
    Some(
        if uninstall {
            builder.action(
                "asdf-uninstall",
                text::texts4("asdf", "uninstall", tool, v.name.as_str()),
                true,
                true,
            ).build()
        } else {
            builder.report_only().build()
        },
    )
}

fn asdf_versions(versions: &Vec<InstalledVersion>, tool: &str, references: &Vec<Reference>, uninstall: bool, settings: &ProviderSettings) -> (r: Vec<Finding>)
    ensures
        views(r@) == collect_some(at_most(views(versions@), TOOL_LIMIT as int), asdf_row(tool@, views(references@), uninstall, *settings)),
{
    let ghost all = views(versions@);
    let ghost f = asdf_row(tool@, views(references@), uninstall, *settings);
    let mut out: Vec<Finding> = Vec::new();
    let limit: usize = if versions.len() > TOOL_LIMIT {
        TOOL_LIMIT
    } else {
        versions.len()
    };
    let mut i: usize = 0;
    assert(views(out@) =~= collect_some(all.take(0), f));
    while i < limit
        invariant
            i <= limit <= versions@.len(),
            all == views(versions@),
            f == asdf_row(tool@, views(references@), uninstall, *settings),
            views(out@) == collect_some(all.take(i as int), f),
        decreases limit - i,
    {
        proof {
            lemma_collect_step(all, i as int, f);
        }
        assert(all[i as int] == versions@[i as int]@);
        if let Some(x) = asdf_finding(&versions[i], tool, references, uninstall, settings) {
            out.push(x);
        }
        i += 1;
    }
    assert(all.take(limit as int) =~= at_most(all, TOOL_LIMIT as int));
    out
}

fn asdf_of_tool(
    t: &ToolDirectory,
    references: &Vec<Reference>,
    uninstall: bool,
    settings: &ProviderSettings,
) -> (r: Vec<Finding>)
    ensures
        views(r@) == asdf_tool(views(references@), uninstall, *settings)(t@),
{
    if t.is_dir {
        asdf_versions(&t.versions, t.name.as_str(), references, uninstall, settings)
    } else {
        Vec::new()
    }
}

/// The findings for versions of tools of asdf that no project names.
pub fn asdf_findings(tools: &Vec<ToolDirectory>, references: &Vec<Reference>, uninstall: bool, settings: &ProviderSettings) -> (r: Vec<Finding>)
    ensures
        views(r@) == flatten_map(at_most(views(tools@), TOOL_LIMIT as int), asdf_tool(views(references@), uninstall, *settings)),
{
    let ghost all = views(tools@);
    let ghost f = asdf_tool(views(references@), uninstall, *settings);
    let mut out: Vec<Finding> = Vec::new();
    let limit: usize = if tools.len() > TOOL_LIMIT {
        TOOL_LIMIT
    } else {
        tools.len()
    };
    let mut i: usize = 0;
    assert(views(out@) =~= flatten_map(all.take(0), f));
    while i < limit
        invariant
            i <= limit <= tools@.len(),
            all == views(tools@),
            f == asdf_tool(views(references@), uninstall, *settings),
            views(out@) == flatten_map(all.take(i as int), f),
        decreases limit - i,
    {
        proof {
            lemma_flatten_step(all, i as int, f);
        }
        assert(all[i as int] == tools@[i as int]@);
        let mut more = asdf_of_tool(&tools[i], references, uninstall, settings);
        out.append(&mut more);
        i += 1;
    }
    assert(all.take(limit as int) =~= at_most(all, TOOL_LIMIT as int));
    out
}

/// The finding for a version of a candidate of SDKMAN that no project names;
/// SDKMAN has no command that could be run, so it is only reported.
pub open spec fn sdkman_row(
    tool: Seq<char>,
    references: Seq<ReferenceModel>,
    settings: ProviderSettings,
) -> spec_fn(InstalledVersionModel) -> Option<FindingModel> {
    |v: InstalledVersionModel|
    if v.name == "current"@ || !v.is_dir || consumers_of(references, tool).contains(v.name)
        || v.bytes < settings.min_size_bytes {
        None
    } else {
        Some(
            manager_draft(
                "SDKMAN"@,
                tool + "@"@ + v.name,
                v.path,
                v.bytes,
            ).report_only().build(),
        )
    }
}

pub open spec fn sdkman_tool(references: Seq<ReferenceModel>, settings: ProviderSettings) -> spec_fn(
    ToolDirectoryModel,
) -> Seq<FindingModel> {
    |t: ToolDirectoryModel|
    collect_some(
        at_most(t.versions, TOOL_LIMIT as int),
        sdkman_row(t.name, references, settings),
    )
}

fn sdkman_finding(
    v: &InstalledVersion,
    tool: &str,
    references: &Vec<Reference>,
    settings: &ProviderSettings,
) -> (r: Option<Finding>)
    ensures
        view_of(r) == sdkman_row(tool@, views(references@), *settings)(v@),
{
    if same(v.name.as_str(), "current") || !v.is_dir || v.bytes < settings.min_size_bytes {
        return None;
    }
    let named = consumers(references, tool);
    if text::among(v.name.as_str(), &named) {
        return None;
    }
    let object = tool.to_owned().concat("@").concat(v.name.as_str());
    Some(
        manager_finding(
            "SDKMAN",
            object.as_str(),
            v.path.as_str(),
            v.bytes,
        ).report_only().build(),
    )
}

fn sdkman_versions(versions: &Vec<InstalledVersion>, tool: &str, references: &Vec<Reference>, settings: &ProviderSettings) -> (r: Vec<Finding>)
    ensures
        views(r@) == collect_some(at_most(views(versions@), TOOL_LIMIT as int), sdkman_row(tool@, views(references@), *settings)),
{
    let ghost all = views(versions@);
    let ghost f = sdkman_row(tool@, views(references@), *settings);
    let mut out: Vec<Finding> = Vec::new();
    let limit: usize = if versions.len() > TOOL_LIMIT {
        TOOL_LIMIT
    } else {
        versions.len()
    };
    let mut i: usize = 0;
    assert(views(out@) =~= collect_some(all.take(0), f));
    while i < limit
        invariant
            i <= limit <= versions@.len(),
            all == views(versions@),
            f == sdkman_row(tool@, views(references@), *settings),
            views(out@) == collect_some(all.take(i as int), f),
        decreases limit - i,
    {
        proof {
            lemma_collect_step(all, i as int, f);
        }
        assert(all[i as int] == versions@[i as int]@);
        if let Some(x) = sdkman_finding(&versions[i], tool, references, settings) {
            out.push(x);
        }
        i += 1;
    }
    assert(all.take(limit as int) =~= at_most(all, TOOL_LIMIT as int));
    out
}

/// The findings for versions of candidates of SDKMAN that no project names.
pub fn sdkman_findings(tools: &Vec<ToolDirectory>, references: &Vec<Reference>, settings: &ProviderSettings) -> (r: Vec<Finding>)
    ensures
        views(r@) == flatten_map(at_most(views(tools@), TOOL_LIMIT as int), sdkman_tool(views(references@), *settings)),
{
    let ghost all = views(tools@);
    let ghost f = sdkman_tool(views(references@), *settings);
    let mut out: Vec<Finding> = Vec::new();
    let limit: usize = if tools.len() > TOOL_LIMIT {
        TOOL_LIMIT
    } else {
        tools.len()
    };
    let mut i: usize = 0;
    assert(views(out@) =~= flatten_map(all.take(0), f));
    while i < limit
        invariant
            i <= limit <= tools@.len(),
            all == views(tools@),
            f == sdkman_tool(views(references@), *settings),
            views(out@) == flatten_map(all.take(i as int), f),
        decreases limit - i,
    {
        proof {
            lemma_flatten_step(all, i as int, f);
        }
        assert(all[i as int] == tools@[i as int]@);
        let mut more = sdkman_versions(&tools[i].versions, tools[i].name.as_str(), references, settings);
        out.append(&mut more);
        i += 1;
    }
    assert(all.take(limit as int) =~= at_most(all, TOOL_LIMIT as int));
    out
}

/// What the other managers have installed.
pub struct OtherManagers {
    pub nvm: Vec<InstalledVersion>,
    pub rbenv: Vec<InstalledVersion>,
    pub asdf: Vec<ToolDirectory>,
    pub sdkman: Vec<ToolDirectory>,
    pub fvm: Vec<InstalledVersion>,
    /// The default version of nvm, as its file says.
    pub nvm_default: Option<String>,
    /// The global version of rbenv, as its file says.
    pub rbenv_global: Option<String>,
    /// The candidates of SDKMAN with the targets of their links.
    pub sdkman_links: Vec<Reference>,
    pub rbenv_installed: bool,
    pub asdf_installed: bool,
    pub fvm_installed: bool,
}

/// The action of a manager that is installed.
pub open spec fn action_if(installed: bool, id: Seq<char>, command: Seq<char>) -> Option<
(Seq<char>, Seq<char>),
> {
    if installed {
        Some((id, command))
    } else {
        None
    }
}

/// What the other managers have installed that nothing refers to.
pub open spec fn other_rows(
    m: OtherManagers,
    files: Seq<TextFileModel>,
    settings: ProviderSettings,
) -> Seq<FindingModel> {
    collect_some(
        at_most(views(m.nvm@), VERSION_LIMIT as int),
        version_row("nvm"@, nvm_names(files, view_of(m.nvm_default)), None, settings),
    ) + collect_some(
        at_most(views(m.rbenv@), VERSION_LIMIT as int),
        version_row(
            "rbenv"@,
            ruby_names(files, view_of(m.rbenv_global)),
            action_if(m.rbenv_installed, "rbenv-uninstall"@, "rbenv uninstall -f"@),
            settings,
        ),
    ) + flatten_map(
        at_most(views(m.asdf@), TOOL_LIMIT as int),
        asdf_tool(
            flatten_map(named(files, seq![".tool-versions"@]), tool_file()),
            m.asdf_installed,
            settings,
        ),
    ) + flatten_map(
        at_most(views(m.sdkman@), TOOL_LIMIT as int),
        sdkman_tool(
            flatten_map(named(files, seq![".sdkmanrc"@]), sdkman_file()) + collect_some(
                views(m.sdkman_links@),
                current_version(),
            ),
            settings,
        ),
    ) + collect_some(
        at_most(views(m.fvm@), VERSION_LIMIT as int),
        version_row(
            "FVM"@,
            collect_some(named(files, seq![".fvmrc"@, "fvm_config.json"@]), fvm_file()),
            action_if(m.fvm_installed, "fvm-remove"@, "fvm remove"@),
            settings,
        ),
    )
}

fn opt_str(s: &Option<String>) -> (r: Option<&str>)
    ensures
        (match r {
                Some(t) => Some(t@),
                None => None,
        }) == view_of(*s),
{
    match s {
        Some(t) => Some(t.as_str()),
        None => None,
    }
}

/// What the other managers have installed that nothing refers to, manager by
/// manager.
pub fn additional_manager_findings(
    m: &OtherManagers,
    files: &Vec<TextFile>,
    settings: &ProviderSettings,
) -> (r: Vec<Finding>)
    ensures
        views(r@) == other_rows(*m, views(files@), *settings),
{
    let nvm = nvm_references(files, opt_str(&m.nvm_default));
    let mut r = installed_versions(&m.nvm, "nvm", &nvm, None, settings);
    let ruby = ruby_references(files, opt_str(&m.rbenv_global));
    let rbenv_action: Option<(&str, &str)> = if m.rbenv_installed {
        Some(("rbenv-uninstall", "rbenv uninstall -f"))
    } else {
        None
    };
    let mut a = installed_versions(&m.rbenv, "rbenv", &ruby, rbenv_action, settings);
    let asdf = asdf_references(files);
    let mut b = asdf_findings(&m.asdf, &asdf, m.asdf_installed, settings);
    let sdkman = sdkman_references(files, &m.sdkman_links);
    let mut c = sdkman_findings(&m.sdkman, &sdkman, settings);
    let fvm = fvm_references(files);
    let fvm_action: Option<(&str, &str)> = if m.fvm_installed {
        Some(("fvm-remove", "fvm remove"))
    } else {
        None
    };
    let mut d = installed_versions(&m.fvm, "FVM", &fvm, fvm_action, settings);
    r.append(&mut a);
    r.append(&mut b);
    r.append(&mut c);
    r.append(&mut d);
    r
}

// ---- the search path ----

/// An entry of a directory on the search path.
pub struct PathEntry {
    pub name: String,
    pub path: String,
    /// Whether anything is known of it.
    pub readable: bool,
    pub is_symlink: bool,
    pub is_file: bool,
    /// Whether what it leads to is there.
    pub exists: bool,
}

#[verifier::ext_equal]
pub struct PathEntryModel {
    pub name: Seq<char>,
    pub path: Seq<char>,
    pub readable: bool,
    pub is_symlink: bool,
    pub is_file: bool,
    pub exists: bool,
}

impl View for PathEntry {
    type V = PathEntryModel;

    open spec fn view(&self) -> PathEntryModel {
        PathEntryModel {
            name: self.name@,
            path: self.path@,
            readable: self.readable,
            is_symlink: self.is_symlink,
            is_file: self.is_file,
            exists: self.exists,
        }
    }
}

/// A directory on the search path.
pub struct PathDirectory {
    pub path: String,
    pub entries: Vec<PathEntry>,
}

#[verifier::ext_equal]
pub struct PathDirectoryModel {
    pub path: Seq<char>,
    pub entries: Seq<PathEntryModel>,
}

impl View for PathDirectory {
    type V = PathDirectoryModel;

    open spec fn view(&self) -> PathDirectoryModel {
        PathDirectoryModel {
            path: self.path@,
            entries: views(self.entries@),
        }
    }
}

/// Whether a directory belongs to a package or version manager.
pub open spec fn is_managed(path: Seq<char>) -> bool {
    ||| text::occurs(path, ".cargo/bin"@)
    ||| text::occurs(path, ".pyenv/shims"@)
    ||| text::occurs(path, ".local/share/mise"@)
    ||| paths::equal_paths(path, "/opt/homebrew/bin"@)
    ||| paths::equal_paths(path, "/usr/local/bin"@)
}

pub fn managed_directory(path: &str) -> (r: bool)
    ensures
        r == is_managed(path@),
{
    text::contains(path, ".cargo/bin") || text::contains(path, ".pyenv/shims") || text::contains(
        path,
        ".local/share/mise",
    ) || paths::same_path(path, "/opt/homebrew/bin") || paths::same_path(path, "/usr/local/bin")
}

/// The most entries of a directory that are looked at.
pub const ENTRY_LIMIT: usize = 5_000;

/// The most directories that are looked at.
pub const DIRECTORY_LIMIT: usize = 100;

/// The entries of a directory that a manager owns.
pub open spec fn managed_entries() -> spec_fn(PathDirectoryModel) -> Seq<PathEntryModel> {
    |d: PathDirectoryModel|
    if is_managed(d.path) {
        at_most(d.entries, ENTRY_LIMIT as int)
    } else {
        Seq::empty()
    }
}

/// The entries of the directories that managers own.
pub open spec fn entries_on(directories: Seq<PathDirectoryModel>) -> Seq<PathEntryModel> {
    flatten_map(at_most(directories, DIRECTORY_LIMIT as int), managed_entries())
}

/// A link that leads nowhere.
pub open spec fn if_broken() -> spec_fn(PathEntryModel) -> Option<Seq<char>> {
    |e: PathEntryModel|
    if e.readable && e.is_symlink && !e.exists {
        Some(e.path)
    } else {
        None
    }
}

/// A command, by its name and where it stands.
pub open spec fn if_command() -> spec_fn(PathEntryModel) -> Option<ReferenceModel> {
    |e: PathEntryModel|
    if e.readable && !(e.is_symlink && !e.exists) && (e.is_file || e.is_symlink) {
        Some(ReferenceModel { key: e.name, consumer: e.path })
    } else {
        None
    }
}

fn copy_entry(e: &PathEntry) -> (r: PathEntry)
    ensures
        r@ == e@,
{
    PathEntry {
        name: e.name.clone(),
        path: e.path.clone(),
        readable: e.readable,
        is_symlink: e.is_symlink,
        is_file: e.is_file,
        exists: e.exists,
    }
}

pub open spec fn any_entry() -> spec_fn(PathEntryModel) -> Option<PathEntryModel> {
    |e: PathEntryModel| Some(e)
}

proof fn lemma_all_kept(s: Seq<PathEntryModel>)
    ensures
        collect_some(s, any_entry()) == s,
    decreases s.len(),
{
    if s.len() > 0 {
        lemma_all_kept(s.drop_last());
        assert(s.drop_last().push(s.last()) =~= s);
    } else {
        assert(collect_some(s, any_entry()) =~= s);
    }
}

fn copy_entries(entries: &Vec<PathEntry>) -> (r: Vec<PathEntry>)
    ensures
        views(r@) == collect_some(at_most(views(entries@), ENTRY_LIMIT as int), any_entry()),
{
    let ghost all = views(entries@);
    let ghost f = any_entry();
    let mut out: Vec<PathEntry> = Vec::new();
    let limit: usize = if entries.len() > ENTRY_LIMIT {
        ENTRY_LIMIT
    } else {
        entries.len()
    };
    let mut i: usize = 0;
    assert(views(out@) =~= collect_some(all.take(0), f));
    while i < limit
        invariant
            i <= limit <= entries@.len(),
            all == views(entries@),
            f == any_entry(),
            views(out@) == collect_some(all.take(i as int), f),
        decreases limit - i,
    {
        proof {
            lemma_collect_step(all, i as int, f);
        }
        assert(all[i as int] == entries@[i as int]@);
        if let Some(x) = Some(copy_entry(&entries[i])) {
            out.push(x);
        }
        i += 1;
    }
    assert(all.take(limit as int) =~= at_most(all, ENTRY_LIMIT as int));
    out
}

fn entries_of(d: &PathDirectory) -> (r: Vec<PathEntry>)
    ensures
        views(r@) == managed_entries()(d@),
{
    if managed_directory(d.path.as_str()) {
        proof {
            lemma_all_kept(at_most(views(d.entries@), ENTRY_LIMIT as int));
        }
        copy_entries(&d.entries)
    } else {
        Vec::new()
    }
}

fn path_entries(directories: &Vec<PathDirectory>) -> (r: Vec<PathEntry>)
    ensures
        views(r@) == flatten_map(at_most(views(directories@), DIRECTORY_LIMIT as int), managed_entries()),
{
    let ghost all = views(directories@);
    let ghost f = managed_entries();
    let mut out: Vec<PathEntry> = Vec::new();
    let limit: usize = if directories.len() > DIRECTORY_LIMIT {
        DIRECTORY_LIMIT
    } else {
        directories.len()
    };
    let mut i: usize = 0;
    assert(views(out@) =~= flatten_map(all.take(0), f));
    while i < limit
        invariant
            i <= limit <= directories@.len(),
            all == views(directories@),
            f == managed_entries(),
            views(out@) == flatten_map(all.take(i as int), f),
        decreases limit - i,
    {
        proof {
            lemma_flatten_step(all, i as int, f);
        }
        assert(all[i as int] == directories@[i as int]@);
        let mut more = entries_of(&directories[i]);
        out.append(&mut more);
        i += 1;
    }
    assert(all.take(limit as int) =~= at_most(all, DIRECTORY_LIMIT as int));
    out
}

fn broken_entry(e: &PathEntry) -> (r: Option<String>)
    ensures
        view_of(r) == if_broken()(e@),
{
    if e.readable && e.is_symlink && !e.exists {
        Some(e.path.clone())
    } else {
        None
    }
}

fn command_entry(e: &PathEntry) -> (r: Option<Reference>)
    ensures
        view_of(r) == if_command()(e@),
{
    if e.readable && !(e.is_symlink && !e.exists) && (e.is_file || e.is_symlink) {
        Some(Reference { key: e.name.clone(), consumer: e.path.clone() })
    } else {
        None
    }
}

fn broken_entries(entries: &Vec<PathEntry>) -> (r: Vec<String>)
    ensures
        views(r@) == collect_some(views(entries@), if_broken()),
{
    let ghost all = views(entries@);
    let ghost f = if_broken();
    let mut out: Vec<String> = Vec::new();
    let limit: usize = entries.len();
    let mut i: usize = 0;
    assert(views(out@) =~= collect_some(all.take(0), f));
    while i < limit
        invariant
            i <= limit <= entries@.len(),
            all == views(entries@),
            f == if_broken(),
            views(out@) == collect_some(all.take(i as int), f),
        decreases limit - i,
    {
        proof {
            lemma_collect_step(all, i as int, f);
        }
        assert(all[i as int] == entries@[i as int]@);
        if let Some(x) = broken_entry(&entries[i]) {
            out.push(x);
        }
        i += 1;
    }
    assert(all.take(limit as int) =~= all);
    out
}

fn command_entries(entries: &Vec<PathEntry>) -> (r: Vec<Reference>)
    ensures
        views(r@) == collect_some(views(entries@), if_command()),
{
    let ghost all = views(entries@);
    let ghost f = if_command();
    let mut out: Vec<Reference> = Vec::new();
    let limit: usize = entries.len();
    let mut i: usize = 0;
    assert(views(out@) =~= collect_some(all.take(0), f));
    while i < limit
        invariant
            i <= limit <= entries@.len(),
            all == views(entries@),
            f == if_command(),
            views(out@) == collect_some(all.take(i as int), f),
        decreases limit - i,
    {
        proof {
            lemma_collect_step(all, i as int, f);
        }
        assert(all[i as int] == entries@[i as int]@);
        if let Some(x) = command_entry(&entries[i]) {
            out.push(x);
        }
        i += 1;
    }
    assert(all.take(limit as int) =~= all);
    out
}

/// The names of commands that stand in more than one place, in the order in
/// which they first occur.
pub open spec fn conflicts_in(commands: Seq<ReferenceModel>, n: nat) -> Seq<Seq<char>>
    decreases n,
{
    if n == 0 || n > commands.len() {
        Seq::empty()
    } else {
        let rest = conflicts_in(commands, (n - 1) as nat);
        let key = commands[n - 1].key;
        if !rest.contains(key) && consumers_of(commands, key).len() > 1 {
            rest.push(key)
        } else {
            rest
        }
    }
}

fn conflicting(commands: &Vec<Reference>) -> (r: Vec<String>)
    ensures
        views(r@) == conflicts_in(views(commands@), commands@.len()),
{
    let ghost all = views(commands@);
    let mut out: Vec<String> = Vec::new();
    let mut i: usize = 0;
    assert(views(out@) =~= Seq::<Seq<char>>::empty());
    while i < commands.len()
        invariant
            i <= commands@.len(),
            all == views(commands@),
            views(out@) == conflicts_in(all, i as nat),
        decreases commands@.len() - i,
    {
        assert(all[i as int] == commands@[i as int]@);
        let key = commands[i].key.as_str();
        if !text::among(key, &out) {
            let places = consumers(commands, key);
            if places.len() > 1 {
                out.push(key.to_owned());
            }
        }
        i += 1;
    }
    out
}

/// A command and the places where it stands.
pub open spec fn conflict_text(commands: Seq<ReferenceModel>) -> spec_fn(Seq<char>) -> Option<
Seq<char>,
> {
    |key: Seq<char>| Some(key + ": "@ + text::joined(consumers_of(commands, key), " | "@))
}

fn describe_conflict(commands: &Vec<Reference>, key: &str) -> (r: Option<String>)
    ensures
        view_of(r) == conflict_text(views(commands@))(key@),
{
    let places = consumers(commands, key);
    Some(key.to_owned().concat(": ").concat(text::join(&places, " | ").as_str()))
}

fn describe_conflicts(names: &Vec<String>, commands: &Vec<Reference>) -> (r: Vec<String>)
    ensures
        views(r@) == collect_some(at_most(views(names@), 20), conflict_text(views(commands@))),
{
    let ghost all = views(names@);
    let ghost f = conflict_text(views(commands@));
    let mut out: Vec<String> = Vec::new();
    let limit: usize = if names.len() > 20 {
        20
    } else {
        names.len()
    };
    let mut i: usize = 0;
    assert(views(out@) =~= collect_some(all.take(0), f));
    while i < limit
        invariant
            i <= limit <= names@.len(),
            all == views(names@),
            f == conflict_text(views(commands@)),
            views(out@) == collect_some(all.take(i as int), f),
        decreases limit - i,
    {
        proof {
            lemma_collect_step(all, i as int, f);
        }
        assert(all[i as int] == names@[i as int]@);
        if let Some(x) = describe_conflict(commands, names[i].as_str()) {
            out.push(x);
        }
        i += 1;
    }
    assert(all.take(limit as int) =~= at_most(all, 20));
    out
}

/// What is said of commands that stand in more than one place.
pub open spec fn conflict_draft(names: Seq<Seq<char>>, commands: Seq<ReferenceModel>) -> Draft {
    draft(
        toolchains(),
        "path-command-conflict"@,
        "installed-tools"@,
        "path-conflicts"@,
        digits(names.len()) + " managed command conflicts on PATH"@,
        Safety::Protected,
        0,
    )
        .diagnostic()
        .report_only()
        .confidence(Confidence::Exact)
        .reason(
        "Command names are provided by multiple managed PATH directories."@,
    )
        .evidence(
        "Conflicts"@,
        text::joined(
            collect_some(at_most(names, 20), conflict_text(commands)),
            "; "@,
        ),
    )
        .copy(
        "Duplicate command installations or shims from different package and version managers."@,
        "Removing the wrong copy can change which runtime or package manager is active."@,
        "Resolve the conflict through the owning manager; this diagnostic is report-only."@,
    )
}

/// What is said of links that lead nowhere.
pub open spec fn shims_draft(broken: Seq<Seq<char>>) -> Draft {
    draft(
        toolchains(),
        "broken-path-shims"@,
        "installed-tools"@,
        "broken-shims"@,
        "Broken managed PATH shims"@,
        Safety::Protected,
        0,
    )
        .diagnostic()
        .grouped_paths(broken)
        .report_only()
        .reason(
        "Managed PATH entries contain symlinks whose targets no longer exist."@,
    )
        .copy(
        "Broken command shims left behind by removed tools or runtimes."@,
        "Removing or repairing a shim changes command resolution."@,
        "Use the owning manager to reshim or uninstall; Hokori does not delete these automatically."@,
    )
}

/// The most conflicts that are counted.
pub const CONFLICT_LIMIT: usize = 50;

/// The commands on the search path that stand in more than one place.
pub open spec fn conflicts_on(entries: Seq<PathEntryModel>) -> Seq<Seq<char>> {
    let commands = collect_some(entries, if_command());
    at_most(conflicts_in(commands, commands.len()), CONFLICT_LIMIT as int)
}

/// What is wrong with the search path.
pub open spec fn path_rows(directories: Seq<PathDirectoryModel>) -> Seq<FindingModel> {
    let entries = entries_on(directories);
    let names = conflicts_on(entries);
    let broken = collect_some(entries, if_broken());
    (if names.len() > 0 {
            seq![conflict_draft(names, collect_some(entries, if_command())).build()]
        } else {
            Seq::empty()
    }) + (if broken.len() > 0 {
            seq![shims_draft(broken).build()]
        } else {
            Seq::empty()
    })
}

/// What is wrong with the search path: commands that stand in more than one
/// place, and links that lead nowhere.
pub fn path_diagnostics(directories: &Vec<PathDirectory>) -> (r: Vec<Finding>)
    ensures
        views(r@) == path_rows(views(directories@)),
{
    let entries = path_entries(directories);
    let broken = broken_entries(&entries);
    let commands = command_entries(&entries);
    let mut names = conflicting(&commands);
    if names.len() > CONFLICT_LIMIT {
        names.truncate(CONFLICT_LIMIT);
    }
    let ghost es = entries_on(views(directories@));
    assert(views(names@) =~= conflicts_on(es));
    let mut out: Vec<Finding> = Vec::new();
    let ghost mut first = Seq::<FindingModel>::empty();
    let n: usize = names.len();
    if n > 0 {
        let told = describe_conflicts(&names, &commands);
        let finding = ProviderFinding::object(
            metadata(),
            "path-command-conflict",
            "installed-tools",
            "path-conflicts",
            text::decimal(n as u64).concat(" managed command conflicts on PATH").as_str(),
            Safety::Protected,
            0,
        )
            .diagnostic()
            .report_only()
            .confidence(Confidence::Exact)
            .reason(
            "Command names are provided by multiple managed PATH directories.",
        )
            .evidence(
            "Conflicts",
            text::join(&told, "; ").as_str(),
        )
            .copy(
            "Duplicate command installations or shims from different package and version managers.",
            "Removing the wrong copy can change which runtime or package manager is active.",
            "Resolve the conflict through the owning manager; this diagnostic is report-only.",
        )
            .build();
        out.push(finding);
        proof {
            first = seq![conflict_draft(conflicts_on(es), collect_some(es, if_command())).build()];
        }
    }
    assert(views(out@) =~= first);
    let ghost lost = views(broken@);
    if broken.len() > 0 {
        let finding = ProviderFinding::object(
            metadata(),
            "broken-path-shims",
            "installed-tools",
            "broken-shims",
            "Broken managed PATH shims",
            Safety::Protected,
            0,
        )
            .diagnostic()
            .grouped_paths(broken)
            .report_only()
            .reason(
            "Managed PATH entries contain symlinks whose targets no longer exist.",
        )
            .copy(
            "Broken command shims left behind by removed tools or runtimes.",
            "Removing or repairing a shim changes command resolution.",
            "Use the owning manager to reshim or uninstall; Hokori does not delete these automatically.",
        )
            .build();
        out.push(finding);
        assert(views(out@) =~= first + seq![shims_draft(lost).build()]);
    } else {
        assert(first + Seq::<FindingModel>::empty() =~= first);
    }
    out
}

// ---- the search for files that refer to versions ----

/// The files that refer to versions.
pub open spec fn reference_names() -> Seq<Seq<char>> {
    seq![
        "rust-toolchain.toml"@,
        "rust-toolchain"@,
        ".python-version"@,
        ".nvmrc"@,
        ".ruby-version"@,
        ".tool-versions"@,
        ".sdkmanrc"@,
        ".fvmrc"@,
        "fvm_config.json"@,
    ]
}

fn is_reference_name(name: &str) -> (r: bool)
    ensures
        r == reference_names().contains(name@),
{
    let r = same(name, "rust-toolchain.toml") || same(name, "rust-toolchain") || same(
        name,
        ".python-version",
    ) || same(name, ".nvmrc") || same(name, ".ruby-version") || same(name, ".tool-versions") || same(
        name,
        ".sdkmanrc",
    ) || same(name, ".fvmrc") || same(name, "fvm_config.json");
    proof {
        let n = reference_names();
        assert(n[0] == "rust-toolchain.toml"@ && n[1] == "rust-toolchain"@ && n[2]
                == ".python-version"@ && n[3] == ".nvmrc"@ && n[4] == ".ruby-version"@ && n[5]
                == ".tool-versions"@ && n[6] == ".sdkmanrc"@ && n[7] == ".fvmrc"@ && n[8]
                == "fvm_config.json"@);
    }
    r
}

/// Directories that the search does not enter.
pub open spec fn is_passed_over(name: Seq<char>) -> bool {
    ||| name == ".git"@
    ||| name == "node_modules"@
    ||| name == "target"@
    ||| name == ".venv"@
    ||| name == "venv"@
    ||| name == "vendor"@
    ||| name == ".gradle"@
    ||| name == "build"@
    ||| name == "dist"@
    ||| name == ".next"@
    ||| name == "Library"@
}

/// What the search does with an entry.
#[derive(Debug, Clone, Copy, PartialEq, Eq, Structural)]
pub enum SearchStep {
    /// It refers to versions.
    Keep,
    /// It is searched in turn.
    Enter,
    Skip,
}

/// What the search does with an entry.
pub open spec fn search_choice(name: Seq<char>, is_file: bool, is_dir: bool) -> SearchStep {
    if is_file && reference_names().contains(name) {
        SearchStep::Keep
    } else if is_dir && !is_passed_over(name) {
        SearchStep::Enter
    } else {
        SearchStep::Skip
    }
}

pub fn search_step(name: &str, is_file: bool, is_dir: bool) -> (r: SearchStep)
    ensures
        r == search_choice(name@, is_file, is_dir),
{
    if is_file && is_reference_name(name) {
        SearchStep::Keep
    } else if is_dir && !(same(name, ".git") || same(name, "node_modules") || same(name, "target")
            || same(name, ".venv") || same(name, "venv") || same(name, "vendor") || same(name, ".gradle")
            || same(name, "build") || same(name, "dist") || same(name, ".next") || same(name, "Library")) {
        SearchStep::Enter
    } else {
        SearchStep::Skip
    }
}

/// Whether the search goes on at some depth, with so many files found.
pub fn search_goes_on(depth: usize, found: usize, cancelled: bool) -> (r: bool)
    ensures
        r == (depth <= 8 && found < 5_000 && !cancelled),
{
    depth <= 8 && found < 5_000 && !cancelled
}

/// Where projects are looked for below the home directory, if none are known.
pub fn project_directories(home: &str) -> (r: Vec<String>)
    ensures
        views(r@) == seq![
            paths::below(home@, "Development"@),
            paths::below(home@, "Developer"@),
            paths::below(home@, "Projects"@),
            paths::below(home@, "Code"@),
            paths::below(home@, "src"@),
        ],
{
    let r = vec![
        paths::join(home, "Development"),
        paths::join(home, "Developer"),
        paths::join(home, "Projects"),
        paths::join(home, "Code"),
        paths::join(home, "src"),
    ];
    assert(views(r@) =~= seq![
            paths::below(home@, "Development"@),
            paths::below(home@, "Developer"@),
            paths::below(home@, "Projects"@),
            paths::below(home@, "Code"@),
            paths::below(home@, "src"@),
    ]);
    r
}

// ---- actions ----

/// Whether a command is the one for an action on an object.
pub open spec fn action_command(
    action: Seq<char>,
    object: Seq<char>,
    p: CommandPolicy,
    args: Seq<Seq<char>>,
) -> bool {
    if action == "mise-uninstall"@ {
        is_policy(
            p,
            "mise-uninstall"@,
            mise_executables(),
            true,
            false,
            seq![Arg::Is("uninstall"), Arg::Is("--yes"), Arg::Token],
        ) && args == seq!["uninstall"@, "--yes"@, object]
    } else if action == "mise-prune-configs"@ {
        is_policy(
            p,
            "mise-prune-configs"@,
            mise_executables(),
            true,
            false,
            seq![Arg::Is("prune"), Arg::Is("--configs"), Arg::Is("--yes")],
        ) && args == seq!["prune"@, "--configs"@, "--yes"@]
    } else if action == "rustup-uninstall"@ {
        is_policy(
            p,
            "rustup-uninstall"@,
            rustup_executables(),
            true,
            false,
            seq![Arg::Is("toolchain"), Arg::Is("uninstall"), Arg::Token],
        ) && args == seq!["toolchain"@, "uninstall"@, object]
    } else if action == "pyenv-uninstall"@ {
        is_policy(
            p,
            "pyenv-uninstall"@,
            pyenv_executables(),
            true,
            false,
            seq![Arg::Is("uninstall"), Arg::Is("-f"), Arg::Token],
        ) && args == seq!["uninstall"@, "-f"@, object]
    } else if action == "rbenv-uninstall"@ {
        is_policy(
            p,
            "rbenv-uninstall"@,
            rbenv_executables(),
            true,
            false,
            seq![Arg::Is("uninstall"), Arg::Is("-f"), Arg::Token],
        ) && args == seq!["uninstall"@, "-f"@, object]
    } else if action == "asdf-uninstall"@ {
        text::halves(object, '@') matches Some((tool, version)) && is_policy(
            p,
            "asdf-uninstall"@,
            asdf_executables(),
            true,
            false,
            seq![Arg::Is("uninstall"), Arg::Token, Arg::Token],
        )
            && args == seq!["uninstall"@, tool, version]
    } else {
        action == "fvm-remove"@ && is_policy(
            p,
            "fvm-remove"@,
            fvm_executables(),
            true,
            false,
            seq![Arg::Is("remove"), Arg::Token],
        ) && args == seq!["remove"@, object]
    }
}

/// What keeps a command from being found.
pub open spec fn action_error(action: Seq<char>, object: Seq<char>) -> Option<Seq<char>> {
    if action == "asdf-uninstall"@ {
        if text::halves(object, '@') is None {
            Some("invalid asdf object ID"@)
        } else {
            None
        }
    } else if action == "mise-uninstall"@ || action == "mise-prune-configs"@ || action
        == "rustup-uninstall"@ || action == "pyenv-uninstall"@ || action == "rbenv-uninstall"@
        || action == "fvm-remove"@ {
        None
    } else {
        Some("unknown toolchain action "@ + action)
    }
}

/// The command that carries out the action of a finding.
pub fn plan_action(finding: &Finding) -> (r: Result<(CommandPolicy, Vec<String>), String>)
    ensures
        match finding.native_action {
            None => r matches Err(e) && e@ == "toolchain action missing"@,
            Some(a) => match r {
                Ok(c) => action_error(a.action_id@, a.object_id@) is None
                    && action_command(a.action_id@, a.object_id@, c.0, views(c.1@)),
                Err(e) => action_error(a.action_id@, a.object_id@) == Some(e@),
            },
        },
{
    proof {
        reveal_strlit("asdf-uninstall");
        reveal_strlit("mise-uninstall");
        reveal_strlit("mise-prune-configs");
        reveal_strlit("rustup-uninstall");
        reveal_strlit("pyenv-uninstall");
        reveal_strlit("rbenv-uninstall");
        reveal_strlit("fvm-remove");
        assert("asdf-uninstall"@[0] == 'a');
        assert("mise-uninstall"@[0] == 'm');
        assert("mise-prune-configs"@[0] == 'm');
        assert("rustup-uninstall"@[0] == 'r');
        assert("pyenv-uninstall"@[0] == 'p');
        assert("rbenv-uninstall"@[0] == 'r');
        assert("fvm-remove"@[0] == 'f');
    }
    match &finding.native_action {
        None => Err("toolchain action missing".to_owned()),
        Some(a) => {
            let id = a.action_id.as_str();
            let object = a.object_id.as_str();
            if same(id, "mise-uninstall") {
                Ok((mise_uninstall(), text::texts3("uninstall", "--yes", object)))
            } else if same(id, "mise-prune-configs") {
                Ok((mise_prune_configs(), text::texts3("prune", "--configs", "--yes")))
            } else if same(id, "rustup-uninstall") {
                Ok((rustup_uninstall(), text::texts3("toolchain", "uninstall", object)))
            } else if same(id, "pyenv-uninstall") {
                Ok((pyenv_uninstall(), text::texts3("uninstall", "-f", object)))
            } else if same(id, "rbenv-uninstall") {
                Ok((rbenv_uninstall(), text::texts3("uninstall", "-f", object)))
            } else if same(id, "asdf-uninstall") {
                match text::split_once(object, '@') {
                    Some((tool, version)) => Ok(
                        (
                            asdf_uninstall(),
                            text::texts3("uninstall", tool.as_str(), version.as_str()),
                        ),
                    ),
                    None => Err("invalid asdf object ID".to_owned()),
                }
            } else if same(id, "fvm-remove") {
                Ok((fvm_remove(), text::texts2("remove", object)))
            } else {
                Err("unknown toolchain action ".to_owned().concat(id))
            }
        },
    }
}

/// The finding stands where a fresh scan finds it again.
pub fn revalidate(refreshed: &Vec<Finding>, finding: &Finding) -> (r: Revalidation)
    ensures
        r@ == revalidated(refreshed@, finding.stable_id@, "Toolchain references changed and this version is no longer prunable."@),
{
    revalidate_against(refreshed, finding, "Toolchain references changed and this version is no longer prunable.")
}

/// What a finding's action is reported to have done, once it has run.
pub fn executed(finding: &Finding) -> (r: Option<ProviderExecution>)
    ensures
        match (finding.native_action, r) {
            (None, None) => true,
            (Some(a), Some(e)) => e.deleted == 1 && e.freed_bytes == finding.bytes && e.message@
                == "Removed toolchain object "@ + a.object_id@ + "."@,
            _ => false,
        },
{
    match &finding.native_action {
        Some(a) => Some(completed(
                finding,
                "Removed toolchain object ".to_owned().concat(a.object_id.as_str()).concat("."),
        )),
        None => None,
    }
}

// ---- laws ----

/// What something refers to is never offered: a toolchain or a version with a
/// known consumer is protected and carries no action.
pub proof fn law_referenced_versions_stay(
    references: Seq<ReferenceModel>,
    root: Seq<char>,
    settings: ProviderSettings,
    name: Seq<char>,
    bytes: u64,
)
    ensures
        consumers_of(references, channel_of(name)).len() > 0 ==> match rust_row(
            references,
            root,
            settings,
        )((name, bytes)) {
            Some(f) => f.native_action is None && f.bytes == 0 && f.safety == Safety::Protected,
            None => true,
        },
        consumers_of(references, name).len() > 0 ==> match python_row(references, root, settings)(
            (name, bytes),
        ) {
            Some(f) => f.native_action is None && f.bytes == 0 && f.safety == Safety::Protected,
            None => true,
        },
{
}

/// The active and the default toolchain of rustup are referred to.
pub proof fn law_active_toolchain_is_referenced(
    output: Seq<char>,
    overrides: Option<Seq<char>>,
    files: Seq<TextFileModel>,
    i: int,
)
    requires
        0 <= i < text::lines_of(output).len(),
        text::occurs(text::lines_of(output)[i], "(active"@) || text::occurs(
            text::lines_of(output)[i],
            "(default"@,
        ),
    ensures
        consumers_of(
            rust_references(output, overrides, files),
            channel_of(text::or_empty(first_word()(text::lines_of(output)[i]))),
        ).len() > 0,
{
    let lines = text::lines_of(output);
    let key = channel_of(text::or_empty(first_word()(lines[i])));
    let marked = collect_some(lines, marked_toolchain());
    lemma_collected(lines, marked_toolchain(), i);
    let k = choose|k: int|
    0 <= k < marked.len() && Some(#[trigger] marked[k]) == marked_toolchain()(lines[i]);
    let all = rust_references(output, overrides, files);
    assert(all[k] == marked[k]);
    lemma_collected(all, if_key(key), k);
}

/// The diagnostics of the search path never carry an action.
pub proof fn law_path_is_only_reported(directories: Seq<PathDirectoryModel>, i: int)
    requires
        0 <= i < path_rows(directories).len(),
    ensures
        path_rows(directories)[i].report_only,
        path_rows(directories)[i].native_action is None,
{
}

/// A command for an action is one that its own policy accepts, where the object, or
/// the tool and the version that it is made of, are names that can be handed to a
/// tool.
pub proof fn law_planned_commands_are_admitted(
    action: Seq<char>,
    object: Seq<char>,
    p: CommandPolicy,
    args: Seq<Seq<char>>,
)
    requires
        action_command(action, object, p, args),
        action == "asdf-uninstall"@ || action == "mise-prune-configs"@ || is_token(object),
        action == "asdf-uninstall"@ ==> match text::halves(object, '@') {
            Some((tool, version)) => is_token(tool) && is_token(version),
            None => true,
        },
    ensures
        admits(p.args@, args),
{
    reveal_strlit("asdf-uninstall");
    reveal_strlit("mise-uninstall");
    reveal_strlit("mise-prune-configs");
    reveal_strlit("rustup-uninstall");
    reveal_strlit("pyenv-uninstall");
    reveal_strlit("rbenv-uninstall");
    reveal_strlit("fvm-remove");
    assert("mise-uninstall"@[5] == 'u');
    assert("mise-prune-configs"@[5] == 'p');
    assert("asdf-uninstall"@[0] == 'a');
    assert("mise-uninstall"@[0] == 'm');
    assert("mise-prune-configs"@[0] == 'm');
    assert("rustup-uninstall"@[0] == 'r');
    assert("pyenv-uninstall"@[0] == 'p');
    assert("rbenv-uninstall"@[0] == 'r');
    assert("fvm-remove"@[0] == 'f');
}

/// A request is met by the version itself and by every version that follows it after
/// a dot, and by no other.
pub proof fn law_versions_meet_requests(requested: Seq<char>, rest: Seq<char>, installed: Seq<char>)
    ensures
        version_fits(requested, requested),
        version_fits(requested, requested + "."@ + rest),
        version_fits(requested, installed) ==> installed == requested || exists|tail: Seq<char>|
        installed == #[trigger] (requested + "."@ + tail),
{
    let whole = requested + "."@ + rest;
    reveal_strlit(".");
    text::law_prefixes_come_off(requested, "."@ + rest, installed);
    assert(whole =~= requested + ("."@ + rest));
    text::law_prefixes_come_off("."@, rest, "."@ + rest);
    if version_fits(requested, installed) && installed != requested {
        let after = text::without_prefix(installed, requested)->0;
        text::law_prefixes_come_off("."@, rest, after);
        assert(installed =~= requested + "."@ + after.skip(1));
    }
}

/// The consumers of something are those that refer to it by its key.
pub proof fn law_consumers_refer_by_key(references: Seq<ReferenceModel>, key: Seq<char>, consumer: Seq<char>)
    ensures
        consumers_of(references, key).contains(consumer) <==> exists|i: int|
        0 <= i < references.len() && (#[trigger] references[i]).key == key && references[i].consumer
            == consumer,
        consumers_of(references, key).len() > 0 <==> exists|i: int|
        0 <= i < references.len() && (#[trigger] references[i]).key == key,
{
    let f = if_key(key);
    let all = consumers_of(references, key);
    crate::seqs::law_collected_is_made(references, f, consumer);
    if exists|i: int|
        0 <= i < references.len() && (#[trigger] references[i]).key == key && references[i].consumer
            == consumer {
        let i = choose|i: int|
        0 <= i < references.len() && (#[trigger] references[i]).key == key && references[i].consumer == consumer;
        assert(f(references[i]) == Some(consumer));
    }
    if all.contains(consumer) {
        let i = choose|i: int| 0 <= i < references.len() && f(#[trigger] references[i]) == Some(consumer);
        assert(references[i].key == key);
    }
    if all.len() > 0 {
        crate::seqs::lemma_collect_origin(references, f, 0);
        let i = choose|i: int| 0 <= i < references.len() && f(#[trigger] references[i]) == Some(all[0]);
        assert(references[i].key == key);
    }
    if exists|i: int| 0 <= i < references.len() && (#[trigger] references[i]).key == key {
        let i = choose|i: int| 0 <= i < references.len() && (#[trigger] references[i]).key == key;
        crate::seqs::lemma_collected(references, f, i);
    }
}

/// A toolchain is reported from the size that was asked for on, and offered for
/// removal exactly where nothing refers to its channel.
pub proof fn law_unreferenced_toolchains_are_offered(
    references: Seq<ReferenceModel>,
    root: Seq<char>,
    settings: ProviderSettings,
    name: Seq<char>,
    bytes: u64,
)
    ensures
        rust_row(references, root, settings)((name, bytes)) is Some <==> bytes >= settings.min_size_bytes,
        rust_row(references, root, settings)((name, bytes)) matches Some(f) ==> {
            let free = forall|i: int|
            0 <= i < references.len() ==> (#[trigger] references[i]).key != channel_of(name);
            &&& free <==> f.native_action is Some
            &&& free ==> f.bytes == bytes && f.manual_only && f.safety == Safety::Review
                && f.native_action->0.object_id == name
            &&& !free ==> f.bytes == 0 && f.safety == Safety::Protected && f.report_only
        },
        python_row(references, root, settings)((name, bytes)) is Some <==> bytes >= settings.min_size_bytes,
        python_row(references, root, settings)((name, bytes)) matches Some(f) ==> {
            let free = forall|i: int| 0 <= i < references.len() ==> (#[trigger] references[i]).key != name;
            &&& free <==> f.native_action is Some
            &&& free ==> f.bytes == bytes && f.manual_only && f.safety == Safety::Review
                && f.native_action->0.object_id == name
            &&& !free ==> f.bytes == 0 && f.safety == Safety::Protected && f.report_only
        },
{
    law_consumers_refer_by_key(references, channel_of(name), name);
    law_consumers_refer_by_key(references, name, name);
}

/// An override of a directory keeps its toolchain.
pub proof fn law_overrides_keep_toolchains(
    output: Seq<char>,
    overrides: Seq<char>,
    files: Seq<TextFileModel>,
    i: int,
)
    requires
        0 <= i < text::lines_of(overrides).len(),
        text::words(text::lines_of(overrides)[i]).len() >= 2,
    ensures
        consumers_of(
            rust_references(output, Some(overrides), files),
            channel_of(text::words(text::lines_of(overrides)[i])[1]),
        ).len() > 0,
{
    let lines = text::lines_of(overrides);
    let all = rust_references(output, Some(overrides), files);
    let first = collect_some(text::lines_of(output), marked_toolchain());
    let second = collect_some(lines, override_line());
    crate::seqs::lemma_collected(lines, override_line(), i);
    let j = choose|j: int| 0 <= j < second.len() && Some(#[trigger] second[j]) == override_line()(lines[i]);
    assert(all[first.len() + j] == second[j]);
    let key = channel_of(text::words(lines[i])[1]);
    assert(all[first.len() + j].key == key);
    law_consumers_refer_by_key(all, key, key);
}

/// A project that names a toolchain keeps it.
pub proof fn law_projects_keep_toolchains(
    output: Seq<char>,
    overrides: Option<Seq<char>>,
    files: Seq<TextFileModel>,
    i: int,
    key: Seq<char>,
)
    requires
        0 <= i < files.len(),
        paths::last_name(files[i].path) == Some("rust-toolchain.toml"@) || paths::last_name(files[i].path)
            == Some("rust-toolchain"@),
        files[i].contents is Some,
        channel_in(files[i].contents->0, toml_document(files[i].contents->0)) == Some(key),
    ensures
        consumers_of(rust_references(output, overrides, files), key).contains(files[i].path),
{
    let names = seq!["rust-toolchain.toml"@, "rust-toolchain"@];
    assert(names[0] == "rust-toolchain.toml"@ && names[1] == "rust-toolchain"@);
    assert(names.contains(paths::last_name(files[i].path)->0));
    let own = named(files, names);
    crate::seqs::law_collected_is_made(files, if_named(names), files[i]);
    assert(if_named(names)(files[i]) == Some(files[i]));
    let k = choose|k: int| 0 <= k < own.len() && own[k] == files[i];
    let third = collect_some(own, toolchain_file());
    crate::seqs::lemma_collected(own, toolchain_file(), k);
    let j = choose|j: int| 0 <= j < third.len() && Some(#[trigger] third[j]) == toolchain_file()(own[k]);
    let all = rust_references(output, overrides, files);
    let before = all.len() - third.len();
    assert(all[before + j] == third[j]);
    law_consumers_refer_by_key(all, key, files[i].path);
}

/// A file that asks for a version keeps each that meets the request.
pub proof fn law_requests_keep_versions(
    installed: Seq<Seq<char>>,
    contents: Seq<char>,
    consumer: Seq<char>,
    line: int,
    v: int,
)
    requires
        0 <= line < text::lines_of(contents).len(),
        text::trimmed(text::lines_of(contents)[line]).len() > 0,
        0 <= v < installed.len(),
        version_fits(text::trimmed(text::lines_of(contents)[line]), installed[v]),
    ensures
        lines_ask(installed, contents, consumer).contains(
            (ReferenceModel { key: installed[v], consumer }),
        ),
{
    let lines = text::lines_of(contents);
    let asked = text::trimmed(lines[line]);
    let r = ReferenceModel { key: installed[v], consumer };
    crate::seqs::law_collected_is_made(lines, trimmed_line(), asked);
    assert(trimmed_line()(lines[line]) == Some(asked));
    let full = full_lines(contents);
    let k = choose|k: int| 0 <= k < full.len() && full[k] == asked;
    crate::seqs::law_collected_is_made(installed, if_requested(asked, consumer), r);
    assert(if_requested(asked, consumer)(installed[v]) == Some(r));
    assert(requested_by(installed, consumer)(full[k]).contains(r));
    crate::seqs::law_flattened_is_made(full, requested_by(installed, consumer), r);
}

/// The global choice and every project that asks for a version keep it.
pub proof fn law_choices_keep_python(
    installed: Seq<Seq<char>>,
    global: Option<Seq<char>>,
    files: Seq<TextFileModel>,
    pipx: Option<JsonModel>,
    environments: Seq<TextFileModel>,
    r: ReferenceModel,
    i: int,
)
    ensures
        global is Some && lines_ask(installed, global->0, "pyenv global"@).contains(r) ==> python_references(
            installed,
            global,
            files,
            pipx,
            environments,
        ).contains(r),
        0 <= i < files.len() && paths::last_name(files[i].path) == Some(".python-version"@)
            && files[i].contents is Some && lines_ask(installed, files[i].contents->0, files[i].path).contains(r)
            ==> python_references(installed, global, files, pipx, environments).contains(r),
        pipx_asks(installed, pipx).contains(r) ==> python_references(
            installed,
            global,
            files,
            pipx,
            environments,
        ).contains(r),
        environments.len() <= 5_000 && 0 <= i < environments.len() && environment_asks(installed)(
            environments[i],
        ).contains(r) ==> python_references(installed, global, files, pipx, environments).contains(r),
{
    let names = seq![".python-version"@];
    let own = named(files, names);
    let a = match global {
        Some(g) => lines_ask(installed, g, "pyenv global"@),
        None => Seq::empty(),
    };
    let b = flatten_map(own, version_file(installed));
    let c = pipx_asks(installed, pipx);
    let few = at_most(environments, ENVIRONMENT_LIMIT as int);
    let d = flatten_map(few, environment_asks(installed));
    let all = python_references(installed, global, files, pipx, environments);
    assert(all == a + b + c + d);
    if a.contains(r) {
        let k = choose|k: int| 0 <= k < a.len() && a[k] == r;
        assert(all[k] == r);
    }
    if 0 <= i < files.len() && paths::last_name(files[i].path) == Some(".python-version"@)
        && files[i].contents is Some && lines_ask(installed, files[i].contents->0, files[i].path).contains(r) {
        assert(names[0] == ".python-version"@);
        assert(names.contains(paths::last_name(files[i].path)->0));
        crate::seqs::law_collected_is_made(files, if_named(names), files[i]);
        assert(if_named(names)(files[i]) == Some(files[i]));
        let k = choose|k: int| 0 <= k < own.len() && own[k] == files[i];
        assert(version_file(installed)(own[k]).contains(r));
        crate::seqs::law_flattened_is_made(own, version_file(installed), r);
        let m = choose|m: int| 0 <= m < b.len() && b[m] == r;
        assert(all[a.len() + m] == r);
    }
    if c.contains(r) {
        let k = choose|k: int| 0 <= k < c.len() && c[k] == r;
        assert(all[a.len() + b.len() + k] == r);
    }
    if environments.len() <= 5_000 && 0 <= i < environments.len() && environment_asks(installed)(
        environments[i],
    ).contains(r) {
        assert(few =~= environments);
        crate::seqs::law_flattened_is_made(few, environment_asks(installed), r);
        let m = choose|m: int| 0 <= m < d.len() && d[m] == r;
        assert(all[a.len() + b.len() + c.len() + m] == r);
    }
}

/// A version of another manager is reported exactly where it is a directory that
/// nothing refers to and that holds what was asked for; where its manager is there it
/// removes it, and otherwise nobody does.
pub proof fn law_unreferenced_versions_are_reported(
    manager: Seq<char>,
    references: Seq<Seq<char>>,
    action: Option<(Seq<char>, Seq<char>)>,
    settings: ProviderSettings,
    v: InstalledVersionModel,
)
    ensures
        version_row(manager, references, action, settings)(v) is Some <==> v.is_dir && !references.contains(
            v.name,
        ) && !references.contains(text::trim_start_of(v.name, 'v')) && v.bytes >= settings.min_size_bytes,
        version_row(manager, references, action, settings)(v) matches Some(f) ==> f.bytes == v.bytes
            && f.manual_only && f.safety == Safety::Review && (f.native_action is Some <==> action is Some) && (
        f.report_only <==> action is None),
{
}

/// A version of a tool is reported exactly where it is a directory that no project
/// asks for and that holds what was asked for.
pub proof fn law_tools_nobody_asks_for_are_reported(
    tool: Seq<char>,
    references: Seq<ReferenceModel>,
    uninstall: bool,
    settings: ProviderSettings,
    v: InstalledVersionModel,
)
    ensures
        ({
            let asked = exists|i: int|
            0 <= i < references.len() && (#[trigger] references[i]).key == tool && references[i].consumer
                == v.name;
            &&& asdf_row(tool, references, uninstall, settings)(v) is Some <==> v.is_dir && !asked && v.bytes
                >= settings.min_size_bytes
            &&& sdkman_row(tool, references, settings)(v) is Some <==> v.name != "current"@ && v.is_dir
                && !asked && v.bytes >= settings.min_size_bytes
        }),
        asdf_row(tool, references, uninstall, settings)(v) matches Some(f) ==> (f.native_action is Some
            <==> uninstall) && (f.report_only <==> !uninstall) && f.bytes == v.bytes,
        sdkman_row(tool, references, settings)(v) matches Some(f) ==> f.report_only && f.native_action is None,
{
    law_consumers_refer_by_key(references, tool, v.name);
}

/// The channel of a toolchain is its name without the name of the machine.
pub proof fn law_channels_leave_the_machine_out(channel: Seq<char>)
    ensures
        channel_of(channel + "-aarch64-apple-darwin"@) == channel,
        !text::ends(channel, "-aarch64-apple-darwin"@) && !text::ends(channel, "-x86_64-apple-darwin"@)
            && !text::ends(channel, "-x86_64-unknown-linux-gnu"@) && !text::ends(
            channel,
            "-aarch64-unknown-linux-gnu"@,
        ) ==> channel_of(channel) == channel,
{
    text::law_suffixes_come_off(channel, "-aarch64-apple-darwin"@, channel);
}

/// A command that several places offer is a conflict, once; others are none.
pub proof fn law_conflicts_are_offered_twice(commands: Seq<ReferenceModel>, n: nat, key: Seq<char>)
    requires
        n <= commands.len(),
    ensures
        conflicts_in(commands, n).contains(key) <==> consumers_of(commands, key).len() > 1 && exists|i: int|
        0 <= i < n && (#[trigger] commands[i]).key == key,
        conflicts_in(commands, n).no_duplicates(),
    decreases n,
{
    if n > 0 {
        let less = conflicts_in(commands, (n - 1) as nat);
        let all = conflicts_in(commands, n);
        let last = commands[n - 1].key;
        law_conflicts_are_offered_twice(commands, (n - 1) as nat, key);
        law_conflicts_are_offered_twice(commands, (n - 1) as nat, last);
        if !less.contains(last) && consumers_of(commands, last).len() > 1 {
            assert(all == less.push(last));
            assert(all[less.len() as int] == last);
            if all.contains(key) {
                let i = choose|i: int| 0 <= i < all.len() && all[i] == key;
                if i < less.len() {
                    assert(less[i] == key);
                }
            }
            if less.contains(key) {
                let i = choose|i: int| 0 <= i < less.len() && less[i] == key;
                assert(all[i] == key);
            }
        }
    }
}

/// A link that leads nowhere is broken; what can be run is a file or a link that
/// leads somewhere.
pub proof fn law_broken_links_are_no_commands(e: PathEntryModel)
    ensures
        if_broken()(e) is Some <==> e.readable && e.is_symlink && !e.exists,
        if_command()(e) is Some <==> e.readable && ((e.is_symlink && e.exists) || (e.is_file && !e.is_symlink)),
        if_broken()(e) matches Some(p) ==> p == e.path,
        if_command()(e) matches Some(r) ==> r.key == e.name && r.consumer == e.path,
{
}

/// The files that name versions are kept, and every directory is searched that holds
/// no generated files.
pub proof fn law_version_files_are_found(name: Seq<char>, is_file: bool, is_dir: bool)
    ensures
        search_choice(name, is_file, is_dir) == SearchStep::Keep <==> is_file && (name
            == "rust-toolchain.toml"@ || name == "rust-toolchain"@ || name == ".python-version"@ || name
            == ".nvmrc"@ || name == ".ruby-version"@ || name == ".tool-versions"@ || name == ".sdkmanrc"@
            || name == ".fvmrc"@ || name == "fvm_config.json"@),
        !is_file ==> (search_choice(name, is_file, is_dir) == SearchStep::Enter <==> is_dir && name != ".git"@
            && name != "node_modules"@ && name != "target"@ && name != ".venv"@ && name != "venv"@ && name
            != "vendor"@ && name != ".gradle"@ && name != "build"@ && name != "dist"@ && name != ".next"@
            && name != "Library"@),
{
    let s = reference_names();
    assert(s[0] == "rust-toolchain.toml"@ && s[1] == "rust-toolchain"@ && s[2] == ".python-version"@ && s[3]
        == ".nvmrc"@ && s[4] == ".ruby-version"@ && s[5] == ".tool-versions"@ && s[6] == ".sdkmanrc"@ && s[7]
        == ".fvmrc"@ && s[8] == "fvm_config.json"@);
    if s.contains(name) {
        let i = choose|i: int| 0 <= i < s.len() && s[i] == name;
        assert(i == 0 || i == 1 || i == 2 || i == 3 || i == 4 || i == 5 || i == 6 || i == 7 || i == 8);
    }
}

/// A version that mise can prune is listed where it has a number.
pub proof fn law_mise_versions_are_listed(tool: Seq<char>, v: JsonModel)
    ensures
        mise_version(tool)(v) is Some <==> v.text_or_empty("version"@).len() > 0,
        mise_version(tool)(v) matches Some(m) ==> m.tool == tool && m.version == v.text_or_empty("version"@)
            && m.install_path == v.text_or_empty("install_path"@),
{
}

/// A file of tool versions names, on each line, a tool and then the versions of it.
pub proof fn law_lines_name_a_tool_and_its_versions(line: Seq<char>, i: int, r: ReferenceModel)
    ensures
        1 <= i < text::words(line).len() ==> tool_line()(line).contains(
            ReferenceModel { key: text::words(line)[0], consumer: text::words(line)[i] },
        ),
        tool_line()(line).contains(r) ==> text::words(line).len() > 1 && r.key == text::words(line)[0] && exists|j: int|
        1 <= j < text::words(line).len() && r.consumer == #[trigger] text::words(line)[j],
{
    let w = text::words(line);
    if w.len() > 0 {
        let f = as_consumer(w[0]);
        let t = w.skip(1);
        if 1 <= i < w.len() {
            let x = ReferenceModel { key: w[0], consumer: w[i] };
            crate::seqs::law_collected_is_made(t, f, x);
            assert(t[i - 1] == w[i]);
            assert(f(t[i - 1]) == Some(x));
        }
        crate::seqs::law_collected_is_made(t, f, r);
        if tool_line()(line).contains(r) {
            let j = choose|j: int| 0 <= j < t.len() && f(#[trigger] t[j]) == Some(r);
            assert(w[j + 1] == t[j]);
        }
    }
}

/// A line of SDKMAN names a tool before an equals sign and a version behind it; the
/// version in use is the last name of where its link leads.
pub proof fn law_sdkman_lines(line: Seq<char>, r: ReferenceModel)
    ensures
        match text::halves(line, '=') {
            Some((tool, version)) => sdkman_line()(line) == Some(
                ReferenceModel { key: text::trimmed(tool), consumer: text::trimmed(version) },
            ),
            None => sdkman_line()(line) is None,
        },
        current_version()(r) is Some <==> paths::last_name(r.consumer) is Some,
        current_version()(r) matches Some(c) ==> c.key == r.key && Some(c.consumer) == paths::last_name(r.consumer),
{
}

/// A file of FVM names its version under `flutter`, or else under the older name.
pub proof fn law_fvm_files(doc: JsonModel, v: JsonModel, f: TextFileModel)
    ensures
        doc.get("flutter"@) == Some(v) ==> fvm_version(doc) == v.as_text(),
        doc.get("flutter"@) is None ==> fvm_version(doc) == doc.text_at("flutterSdkVersion"@),
        f.contents is None ==> fvm_file()(f) is None,
        f.contents matches Some(c) ==> (json_document(c) == Some(doc) ==> fvm_file()(f) == fvm_version(doc)),
{
}

/// Versions of Node are named without the leading letter; versions of Python are the
/// lines without a slash. Blank lines name nothing.
pub proof fn law_version_lines(line: Seq<char>)
    ensures
        node_line()(line) is Some <==> text::trimmed(line).len() > 0,
        node_line()(line) matches Some(v) ==> v == text::trim_start_of(text::trimmed(line), 'v'),
        pyenv_line()(line) is Some <==> text::trimmed(line).len() > 0 && !text::trimmed(line).contains('/'),
        pyenv_line()(line) matches Some(v) ==> v == text::trimmed(line),
{
}

/// The versions of Node and Ruby that are asked for are those that files of projects
/// name, and the one that holds everywhere.
pub proof fn law_asked_versions_are_named(
    files: Seq<TextFileModel>,
    everywhere: Seq<char>,
    i: int,
    j: int,
    contents: Seq<char>,
    v: Seq<char>,
)
    ensures
        nvm_names(files, Some(everywhere)).contains(text::trim_start_of(text::trimmed(everywhere), 'v')),
        ruby_names(files, Some(everywhere)).contains(text::trimmed(everywhere)),
        nvm_names(files, Some(everywhere)).len() == nvm_names(files, None).len() + 1,
        ruby_names(files, Some(everywhere)).len() == ruby_names(files, None).len() + 1,
        0 <= i < named(files, seq![".nvmrc"@]).len() && named(files, seq![".nvmrc"@])[i].contents == Some(contents)
            && 0 <= j < text::lines_of(contents).len() && node_line()(text::lines_of(contents)[j]) == Some(v)
            ==> nvm_names(files, None).contains(v),
        0 <= i < named(files, seq![".ruby-version"@]).len() && named(files, seq![".ruby-version"@])[i].contents
            == Some(contents) && 0 <= j < text::lines_of(contents).len() && trimmed_line()(
            text::lines_of(contents)[j],
        ) == Some(v) ==> ruby_names(files, None).contains(v),
{
    let n = nvm_names(files, Some(everywhere));
    let r = ruby_names(files, Some(everywhere));
    assert(n[n.len() - 1] == text::trim_start_of(text::trimmed(everywhere), 'v'));
    assert(r[r.len() - 1] == text::trimmed(everywhere));
    let a = named(files, seq![".nvmrc"@]);
    let b = named(files, seq![".ruby-version"@]);
    crate::seqs::law_flattened_is_made(a, lines_name(node_line()), v);
    crate::seqs::law_flattened_is_made(b, lines_name(trimmed_line()), v);
    crate::seqs::law_collected_is_made(text::lines_of(contents), node_line(), v);
    crate::seqs::law_collected_is_made(text::lines_of(contents), trimmed_line(), v);
    if 0 <= i < a.len() && a[i].contents == Some(contents) && 0 <= j < text::lines_of(contents).len()
        && node_line()(text::lines_of(contents)[j]) == Some(v) {
        assert(lines_name(node_line())(a[i]).contains(v));
    }
    if 0 <= i < b.len() && b[i].contents == Some(contents) && 0 <= j < text::lines_of(contents).len()
        && trimmed_line()(text::lines_of(contents)[j]) == Some(v) {
        assert(lines_name(trimmed_line())(b[i]).contains(v));
    }
}

/// What mise would prune is told by tool and version and offered one at a time, for
/// review; links that lead nowhere are safe, and told together.
pub proof fn law_prunable_tools_are_offered(t: MiseToolModel, bytes: u64, broken: Seq<Seq<char>>)
    ensures
        mise_row()((t, bytes)) matches Some(f) && {
            &&& f.safety == Safety::Review
            &&& f.manual_only
            &&& f.bytes == bytes
            &&& f.native_action is Some
        },
        mise_object(t) == t.tool + "@"@ + t.version,
        broken.len() == 0 ==> links_rows(broken).len() == 0,
        broken.len() > 0 ==> links_rows(broken).len() == 1 && links_rows(broken)[0].safety == Safety::Safe
            && !links_rows(broken)[0].manual_only && links_rows(broken)[0].native_action is Some
            && links_rows(broken)[0].bytes == 0,
{
}

/// The tools of mise are the versions of each entry that it prints.
pub proof fn law_mise_entries_are_read(doc: JsonModel, i: int, k: int, m: MiseToolModel)
    requires
        0 <= i < doc.entries().len(),
        0 <= k < doc.entries()[i].1.items().len() <= 1_000,
        mise_version(doc.entries()[i].0)(doc.entries()[i].1.items()[k]) == Some(m),
    ensures
        mise_in(Some(doc)).contains(m),
        mise_in(None).len() == 0,
{
    let e = doc.entries()[i];
    crate::seqs::law_collected_is_made(at_most(e.1.items(), 1_000), mise_version(e.0), m);
    assert(at_most(e.1.items(), 1_000)[k] == e.1.items()[k]);
    assert(mise_entry()(e).contains(m));
    crate::seqs::law_flattened_is_made(doc.entries(), mise_entry(), m);
}

/// A command is offered only where its tool is installed.
pub proof fn law_commands_need_their_tool(installed: bool, id: Seq<char>, command: Seq<char>)
    ensures
        action_if(installed, id, command) is Some <==> installed,
        installed ==> action_if(installed, id, command) == Some((id, command)),
{
}

/// Files of tool directories are no tools.
pub proof fn law_tools_are_directories(
    references: Seq<ReferenceModel>,
    uninstall: bool,
    settings: ProviderSettings,
    t: ToolDirectoryModel,
    i: int,
    f: FindingModel,
)
    ensures
        !t.is_dir ==> asdf_tool(references, uninstall, settings)(t).len() == 0,
        t.is_dir && 0 <= i < at_most(t.versions, TOOL_LIMIT as int).len() && asdf_row(
            t.name,
            references,
            uninstall,
            settings,
        )(at_most(t.versions, TOOL_LIMIT as int)[i]) == Some(f) ==> asdf_tool(references, uninstall, settings)(
            t,
        ).contains(f),
        0 <= i < at_most(t.versions, TOOL_LIMIT as int).len() && sdkman_row(t.name, references, settings)(
            at_most(t.versions, TOOL_LIMIT as int)[i],
        ) == Some(f) ==> sdkman_tool(references, settings)(t).contains(f),
{
    let s = at_most(t.versions, TOOL_LIMIT as int);
    crate::seqs::law_collected_is_made(s, asdf_row(t.name, references, uninstall, settings), f);
    crate::seqs::law_collected_is_made(s, sdkman_row(t.name, references, settings), f);
}

/// An action is carried out by the command of its tool that does just this, to the
/// object that it names.
pub proof fn law_actions_run_their_command(action: Seq<char>, object: Seq<char>, p: CommandPolicy, args: Seq<Seq<char>>)
    requires
        action_command(action, object, p, args),
    ensures
        p@.mutating,
        ({
            ||| action == "mise-uninstall"@ && p@.executables.last()@ == "mise"@ && args == seq!["uninstall"@, "--yes"@, object]
            ||| action == "mise-prune-configs"@ && p@.executables.last()@ == "mise"@ && args == seq!["prune"@, "--configs"@, "--yes"@]
            ||| action == "rustup-uninstall"@ && p@.executables.last()@ == "rustup"@ && args == seq!["toolchain"@, "uninstall"@, object]
            ||| action == "pyenv-uninstall"@ && p@.executables.last()@ == "pyenv"@ && args == seq!["uninstall"@, "-f"@, object]
            ||| action == "rbenv-uninstall"@ && p@.executables.last()@ == "rbenv"@ && args == seq!["uninstall"@, "-f"@, object]
            ||| action == "asdf-uninstall"@ && p@.executables.last()@ == "asdf"@ && (text::halves(object, '@') matches Some((tool, version)) && args == seq!["uninstall"@, tool, version])
            ||| action == "fvm-remove"@ && p@.executables.last()@ == "fvm"@ && args == seq!["remove"@, object]
        }),
{
}

/// An action is carried out exactly where it is one of the commands that are known; one
/// of asdf needs a tool and a version.
pub proof fn law_known_actions_are_carried_out(action: Seq<char>, object: Seq<char>)
    requires
        action != "asdf-uninstall"@,
    ensures
        action_error(action, object) is None <==> action == "mise-uninstall"@ || action == "mise-prune-configs"@
            || action == "rustup-uninstall"@ || action == "pyenv-uninstall"@ || action == "rbenv-uninstall"@ || action
            == "fvm-remove"@,
        action_error("asdf-uninstall"@, object) is None <==> object.contains('@'),
{
    text::law_halves_make_the_whole(object, '@');
    if let Some((a, b)) = text::halves(object, '@') {
        assert(object[a.len() as int] == '@');
    }
}

} // verus!
