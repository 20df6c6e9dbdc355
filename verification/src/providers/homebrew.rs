//! Downloads, old versions and unused dependencies of Homebrew.

use crate::json::{Json, JsonModel, item_models, json_document, parse_json};
use crate::paths;
use crate::paths::under;
use crate::report::{Confidence, Finding, FindingModel};
use crate::rules::Safety;
use crate::seqs::{
    at_most, collect_some, find_some, flatten_map, group_views, lemma_collect_step, lemma_find_none,
    lemma_find_step, lemma_flatten_step, paired, view_of, views,
};
use crate::sorting;
use crate::taxonomy::{Section, Subgroup};
use crate::text;
use crate::text::same;
use vstd::prelude::*;

use super::command::{
    Arg, ArgRule, CommandPolicy, MAX_PARSED_ITEMS, admits, first_line, first_line_or, is_policy, is_token,
};
use super::toolchains::{full_lines, trimmed_lines};
use super::{
    Capability, Draft, MetadataModel, ProviderExecution, ProviderFinding, ProviderMetadata,
    ProviderSettings, Revalidation, RevalidationModel, ScanCost, available_if, draft, finding_paths,
    is_available_if, revalidate_against, revalidated, target_paths,
};

verus! {

broadcast use group_views;

pub struct HomebrewProvider;

/// What the provider is.
pub open spec fn homebrew() -> MetadataModel {
    MetadataModel {
        id: "homebrew"@,
        name: "Homebrew"@,
        section: Section::Developer,
        subgroup: Subgroup::Packages,
        cost: ScanCost::Fast,
        quick: true,
        deep: true,
        network_in_deep_scan: false,
        supersedes_rules: seq!["homebrew-cache"@],
    }
}

fn metadata() -> (r: ProviderMetadata)
    ensures
        r@ == homebrew(),
{
    let r = ProviderMetadata {
        id: "homebrew",
        name: "Homebrew",
        section: Section::Developer,
        subgroup: Subgroup::Packages,
        cost: ScanCost::Fast,
        quick: true,
        deep: true,
        network_in_deep_scan: false,
        supersedes_rules: &["homebrew-cache"],
    };
    assert(r@.supersedes_rules =~= homebrew().supersedes_rules);
    r
}

impl HomebrewProvider {
    pub fn metadata(&self) -> (r: ProviderMetadata)
        ensures
            r@ == homebrew(),
    {
        metadata()
    }
}

// ---- commands ----

pub open spec fn brew_executables() -> Seq<&'static str> {
    seq!["/opt/homebrew/bin/brew", "/usr/local/bin/brew", "brew"]
}

/// The command `brew --prefix`.
pub fn brew_prefix() -> (r: CommandPolicy)
    ensures
        is_policy(
            r,
            "homebrew-prefix"@,
            brew_executables(),
            false,
            false,
            seq![Arg::Is("--prefix")],
        ),
{
    let r = CommandPolicy {
        id: "homebrew-prefix",
        executables: &["/opt/homebrew/bin/brew", "/usr/local/bin/brew", "brew"],
        mutating: false,
        network: false,
        args: ArgRule::Form(&[Arg::Is("--prefix")]),
    };
    assert(r.executables@ =~= brew_executables());
    assert(r.args->Form_0@ =~= seq![Arg::Is("--prefix")]);
    r
}

/// The command `brew --cache`.
pub fn brew_cache() -> (r: CommandPolicy)
    ensures
        is_policy(
            r,
            "homebrew-cache"@,
            brew_executables(),
            false,
            false,
            seq![Arg::Is("--cache")],
        ),
{
    let r = CommandPolicy {
        id: "homebrew-cache",
        executables: &["/opt/homebrew/bin/brew", "/usr/local/bin/brew", "brew"],
        mutating: false,
        network: false,
        args: ArgRule::Form(&[Arg::Is("--cache")]),
    };
    assert(r.executables@ =~= brew_executables());
    assert(r.args->Form_0@ =~= seq![Arg::Is("--cache")]);
    r
}

/// The command `brew --version`.
pub fn brew_version() -> (r: CommandPolicy)
    ensures
        is_policy(
            r,
            "homebrew-version"@,
            brew_executables(),
            false,
            false,
            seq![Arg::Is("--version")],
        ),
{
    let r = CommandPolicy {
        id: "homebrew-version",
        executables: &["/opt/homebrew/bin/brew", "/usr/local/bin/brew", "brew"],
        mutating: false,
        network: false,
        args: ArgRule::Form(&[Arg::Is("--version")]),
    };
    assert(r.executables@ =~= brew_executables());
    assert(r.args->Form_0@ =~= seq![Arg::Is("--version")]);
    r
}

/// The command `brew list --pinned --formula`.
pub fn brew_pinned() -> (r: CommandPolicy)
    ensures
        is_policy(
            r,
            "homebrew-pinned"@,
            brew_executables(),
            false,
            false,
            seq![Arg::Is("list"), Arg::Is("--pinned"), Arg::Is("--formula")],
        ),
{
    let r = CommandPolicy {
        id: "homebrew-pinned",
        executables: &["/opt/homebrew/bin/brew", "/usr/local/bin/brew", "brew"],
        mutating: false,
        network: false,
        args: ArgRule::Form(&[Arg::Is("list"), Arg::Is("--pinned"), Arg::Is("--formula")]),
    };
    assert(r.executables@ =~= brew_executables());
    r
}

/// The command `brew autoremove --dry-run`.
pub fn brew_autoremove() -> (r: CommandPolicy)
    ensures
        is_policy(
            r,
            "homebrew-autoremove-preview"@,
            brew_executables(),
            false,
            false,
            seq![Arg::Is("autoremove"), Arg::Is("--dry-run")],
        ),
{
    let r = CommandPolicy {
        id: "homebrew-autoremove-preview",
        executables: &["/opt/homebrew/bin/brew", "/usr/local/bin/brew", "brew"],
        mutating: false,
        network: false,
        args: ArgRule::Form(&[Arg::Is("autoremove"), Arg::Is("--dry-run")]),
    };
    assert(r.executables@ =~= brew_executables());
    r
}

/// The command `brew info --json=v2 --installed`.
pub fn brew_info_installed() -> (r: CommandPolicy)
    ensures
        is_policy(
            r,
            "homebrew-installed-metadata"@,
            brew_executables(),
            false,
            false,
            seq![Arg::Is("info"), Arg::Is("--json=v2"), Arg::Is("--installed")],
        ),
{
    let r = CommandPolicy {
        id: "homebrew-installed-metadata",
        executables: &["/opt/homebrew/bin/brew", "/usr/local/bin/brew", "brew"],
        mutating: false,
        network: false,
        args: ArgRule::Form(&[Arg::Is("info"), Arg::Is("--json=v2"), Arg::Is("--installed")]),
    };
    assert(r.executables@ =~= brew_executables());
    r
}

/// The command `brew cleanup <name>`.
pub fn brew_cleanup_formula() -> (r: CommandPolicy)
    ensures
        is_policy(
            r,
            "homebrew-cleanup-formula"@,
            brew_executables(),
            true,
            false,
            seq![Arg::Is("cleanup"), Arg::Token],
        ),
{
    let r = CommandPolicy {
        id: "homebrew-cleanup-formula",
        executables: &["/opt/homebrew/bin/brew", "/usr/local/bin/brew", "brew"],
        mutating: true,
        network: false,
        args: ArgRule::Form(&[Arg::Is("cleanup"), Arg::Token]),
    };
    assert(r.executables@ =~= brew_executables());
    r
}

/// The command `brew uninstall --formula <name>`.
pub fn brew_uninstall_formula() -> (r: CommandPolicy)
    ensures
        is_policy(
            r,
            "homebrew-uninstall-formula"@,
            brew_executables(),
            true,
            false,
            seq![Arg::Is("uninstall"), Arg::Is("--formula"), Arg::Token],
        ),
{
    let r = CommandPolicy {
        id: "homebrew-uninstall-formula",
        executables: &["/opt/homebrew/bin/brew", "/usr/local/bin/brew", "brew"],
        mutating: true,
        network: false,
        args: ArgRule::Form(&[Arg::Is("uninstall"), Arg::Is("--formula"), Arg::Token]),
    };
    assert(r.executables@ =~= brew_executables());
    r
}

/// Whether Homebrew is installed.
pub fn probe(installed: bool) -> (r: Capability)
    ensures
        is_available_if(r, installed, "Homebrew is not installed."@),
{
    available_if(installed, "Homebrew is not installed.")
}

// ---- where Homebrew keeps things ----

/// Where Homebrew keeps things.
pub struct BrewLayout {
    pub prefix: String,
    pub cellar: String,
    pub caskroom: String,
    pub cache: String,
    pub version: String,
    pub architecture: String,
}

#[verifier::ext_equal]
pub struct BrewLayoutModel {
    pub prefix: Seq<char>,
    pub cellar: Seq<char>,
    pub caskroom: Seq<char>,
    pub cache: Seq<char>,
    pub version: Seq<char>,
    pub architecture: Seq<char>,
}

impl View for BrewLayout {
    type V = BrewLayoutModel;

    open spec fn view(&self) -> BrewLayoutModel {
        BrewLayoutModel {
            prefix: self.prefix@,
            cellar: self.cellar@,
            caskroom: self.caskroom@,
            cache: self.cache@,
            version: self.version@,
            architecture: self.architecture@,
        }
    }
}

/// The layout that Homebrew's answers describe.
pub open spec fn layout_of(
    prefix: Seq<char>,
    cache: Seq<char>,
    version: Seq<char>,
    architecture: Seq<char>,
) -> Result<BrewLayoutModel, Seq<char>> {
    let p = first_line_or(prefix, ""@);
    let c = first_line_or(cache, ""@);
    if !paths::absolute(p) {
        Err("Homebrew returned an invalid prefix"@)
    } else if !paths::absolute(c) {
        Err("Homebrew returned an invalid cache path"@)
    } else {
        Ok(
            BrewLayoutModel {
                prefix: p,
                cellar: paths::below(p, "Cellar"@),
                caskroom: paths::below(p, "Caskroom"@),
                cache: c,
                version: first_line_or(version, "Homebrew"@),
                architecture,
            },
        )
    }
}

/// The layout that Homebrew's answers describe.
pub fn discover_layout(prefix: &str, cache: &str, version: &str, architecture: &str) -> (r: Result<
    BrewLayout,
    String,
    >)
    ensures
        match (r, layout_of(prefix@, cache@, version@, architecture@)) {
            (Ok(l), Ok(m)) => l@ == m,
            (Err(e), Err(m)) => e@ == m,
            _ => false,
        },
{
    let p = first_line(prefix, "");
    let c = first_line(cache, "");
    if !paths::is_absolute(p.as_str()) {
        return Err("Homebrew returned an invalid prefix".to_owned());
    }
    if !paths::is_absolute(c.as_str()) {
        return Err("Homebrew returned an invalid cache path".to_owned());
    }
    Ok(
        BrewLayout {
            cellar: paths::join(p.as_str(), "Cellar"),
            caskroom: paths::join(p.as_str(), "Caskroom"),
            prefix: p,
            cache: c,
            version: first_line(version, "Homebrew"),
            architecture: architecture.to_owned(),
        },
    )
}

/// The name of a formula without its tap.
pub open spec fn short_name(name: Seq<char>) -> Seq<char> {
    text::pieces(name, text::is_char('/')).last()
}

pub fn normalize_name(name: &str) -> (r: String)
    ensures
        r@ == short_name(name@),
{
    let p = text::split(name, '/');
    let n: usize = p.len();
    assert(views(p@).last() == p@[n - 1]@);
    p[n - 1].clone()
}

pub open spec fn short_names() -> spec_fn(Seq<char>) -> Option<Seq<char>> {
    |n: Seq<char>| Some(short_name(n))
}

/// The names of formulae without their taps.
pub fn normalize_names(names: &Vec<String>) -> (r: Vec<String>)
    ensures
        views(r@) == collect_some(views(names@), short_names()),
{
    let ghost all = views(names@);
    let ghost f = short_names();
    let mut out: Vec<String> = Vec::new();
    let limit: usize = names.len();
    let mut i: usize = 0;
    assert(views(out@) =~= collect_some(all.take(0), f));
    while i < limit
        invariant
            i <= limit <= names@.len(),
            all == views(names@),
            f == short_names(),
            views(out@) == collect_some(all.take(i as int), f),
        decreases limit - i,
    {
        proof {
            lemma_collect_step(all, i as int, f);
        }
        assert(all[i as int] == names@[i as int]@);
        if let Some(x) = Some(normalize_name(names[i].as_str())) {
            out.push(x);
        }
        i += 1;
    }
    assert(all.take(limit as int) =~= all);
    out
}

/// The formulae that are pinned, as Homebrew prints them.
pub fn pinned_formulae(output: &str) -> (r: Vec<String>)
    ensures
        views(r@) == collect_some(text::lines_of(output@), short_names()),
{
    let l = text::lines(output);
    normalize_names(&l)
}

/// A name in the list of formulae that are not to be cleaned.
pub open spec fn exclusion() -> spec_fn(Seq<char>) -> Option<Seq<char>> {
    |n: Seq<char>|
    if text::trimmed(n).len() > 0 {
        Some(short_name(text::trimmed(n)))
    } else {
        None
    }
}

fn excluded_name(n: &str) -> (r: Option<String>)
    ensures
        view_of(r) == exclusion()(n@),
{
    let t = text::trim(n);
    if t.as_str().is_empty() {
        None
    } else {
        Some(normalize_name(t.as_str()))
    }
}

/// The formulae that are not to be cleaned, as the environment lists them.
pub fn cleanup_exclusions(value: &str) -> (r: Vec<String>)
    ensures
        views(r@) == collect_some(text::pieces(value@, text::is_char(',')), exclusion()),
{
    let l = text::split(value, ',');
    let ghost all = views(l@);
    let ghost f = exclusion();
    let mut out: Vec<String> = Vec::new();
    let limit: usize = l.len();
    let mut i: usize = 0;
    assert(views(out@) =~= collect_some(all.take(0), f));
    while i < limit
        invariant
            i <= limit <= l@.len(),
            all == views(l@),
            f == exclusion(),
            views(out@) == collect_some(all.take(i as int), f),
        decreases limit - i,
    {
        proof {
            lemma_collect_step(all, i as int, f);
        }
        assert(all[i as int] == l@[i as int]@);
        if let Some(x) = excluded_name(l[i].as_str()) {
            out.push(x);
        }
        i += 1;
    }
    assert(all.take(limit as int) =~= all);
    out
}

// ---- receipts ----

/// What was installed as a version of a formula.
pub struct FormulaReceipt {
    pub full_name: String,
    pub version: String,
    pub path: String,
    pub keg_path: String,
    pub requested: Option<bool>,
    pub poured_from_bottle: bool,
    pub dependencies: Vec<String>,
    pub aliases: Vec<String>,
    /// When the receipt was written, in nanoseconds since 1970.
    pub modified: u64,
}

#[verifier::ext_equal]
pub struct FormulaReceiptModel {
    pub full_name: Seq<char>,
    pub version: Seq<char>,
    pub path: Seq<char>,
    pub keg_path: Seq<char>,
    pub requested: Option<bool>,
    pub poured_from_bottle: bool,
    pub dependencies: Seq<Seq<char>>,
    pub aliases: Seq<Seq<char>>,
    pub modified: u64,
}

impl View for FormulaReceipt {
    type V = FormulaReceiptModel;

    open spec fn view(&self) -> FormulaReceiptModel {
        FormulaReceiptModel {
            full_name: self.full_name@,
            version: self.version@,
            path: self.path@,
            keg_path: self.keg_path@,
            requested: self.requested,
            poured_from_bottle: self.poured_from_bottle,
            dependencies: views(self.dependencies@),
            aliases: views(self.aliases@),
            modified: self.modified,
        }
    }
}

/// A formula with its installed versions.
pub struct Rack {
    pub name: String,
    pub receipts: Vec<FormulaReceipt>,
}

#[verifier::ext_equal]
pub struct RackModel {
    pub name: Seq<char>,
    pub receipts: Seq<FormulaReceiptModel>,
}

impl View for Rack {
    type V = RackModel;

    open spec fn view(&self) -> RackModel {
        RackModel {
            name: self.name@,
            receipts: views(self.receipts@),
        }
    }
}

/// A version of a formula, as its directory shows it.
pub struct KegFile {
    pub version: String,
    pub is_dir: bool,
    /// Its receipt.
    pub path: String,
    pub keg_path: String,
    pub contents: Option<String>,
    pub modified: u64,
}

#[verifier::ext_equal]
pub struct KegFileModel {
    pub version: Seq<char>,
    pub is_dir: bool,
    pub path: Seq<char>,
    pub keg_path: Seq<char>,
    pub contents: Option<Seq<char>>,
    pub modified: u64,
}

impl View for KegFile {
    type V = KegFileModel;

    open spec fn view(&self) -> KegFileModel {
        KegFileModel {
            version: self.version@,
            is_dir: self.is_dir,
            path: self.path@,
            keg_path: self.keg_path@,
            contents: view_of(self.contents),
            modified: self.modified,
        }
    }
}

/// A formula, as its directory shows it.
pub struct RackFiles {
    pub name: String,
    pub is_dir: bool,
    /// Whether the work was cancelled when it was reached.
    pub cancelled: bool,
    pub kegs: Vec<KegFile>,
}

#[verifier::ext_equal]
pub struct RackFilesModel {
    pub name: Seq<char>,
    pub is_dir: bool,
    pub cancelled: bool,
    pub kegs: Seq<KegFileModel>,
}

impl View for RackFiles {
    type V = RackFilesModel;

    open spec fn view(&self) -> RackFilesModel {
        RackFilesModel {
            name: self.name@,
            is_dir: self.is_dir,
            cancelled: self.cancelled,
            kegs: views(self.kegs@),
        }
    }
}

/// The tap that a receipt names.
pub open spec fn tap_in(doc: JsonModel) -> Seq<char> {
    match doc.get("source"@) {
        Some(s) => match s.text_at("tap"@) {
            Some(t) => t,
            None => "homebrew/core"@,
        },
        None => "homebrew/core"@,
    }
}

pub open spec fn dependency_name() -> spec_fn(JsonModel) -> Option<Seq<char>> {
    |d: JsonModel|
    match d.text_at("full_name"@) {
        Some(n) => Some(short_name(n)),
        None => None,
    }
}

pub open spec fn alias_name() -> spec_fn(JsonModel) -> Option<Seq<char>> {
    |d: JsonModel|
    match d.as_text() {
        Some(n) => Some(short_name(n)),
        None => None,
    }
}

/// What a receipt that has been read says of a version.
pub open spec fn receipt_in(name: Seq<char>, k: KegFileModel, doc: JsonModel) -> FormulaReceiptModel {
    FormulaReceiptModel {
        full_name: if tap_in(doc) == "homebrew/core"@ {
            name
        } else {
            tap_in(doc) + "/"@ + name
        },
        version: k.version,
        path: k.path,
        keg_path: k.keg_path,
        requested: doc.bool_at("installed_on_request"@),
        poured_from_bottle: doc.bool_at("poured_from_bottle"@) == Some(true),
        dependencies: collect_some(doc.items_at("runtime_dependencies"@), dependency_name()),
        aliases: collect_some(doc.items_at("aliases"@), alias_name()),
        modified: k.modified,
    }
}

/// What the receipt of a version says; nothing where it cannot be read.
pub open spec fn receipt_of(name: Seq<char>) -> spec_fn(KegFileModel) -> Option<
FormulaReceiptModel,
> {
    |k: KegFileModel|
    match k.contents {
        Some(c) => match json_document(c) {
            Some(d) => if k.is_dir {
                Some(receipt_in(name, k, d))
            } else {
                None
            },
            None => None,
        },
        None => None,
    }
}

fn dependency_of(d: &Json) -> (r: Option<String>)
    ensures
        view_of(r) == dependency_name()(d@),
{
    match d.text("full_name") {
        Some(n) => Some(normalize_name(n.as_str())),
        None => None,
    }
}

fn alias_of(d: &Json) -> (r: Option<String>)
    ensures
        view_of(r) == alias_name()(d@),
{
    match d.as_str() {
        Some(n) => Some(normalize_name(n)),
        None => None,
    }
}

fn dependency_names(items: &Vec<Json>) -> (r: Vec<String>)
    ensures
        views(r@) == collect_some(item_models(items@), dependency_name()),
{
    let ghost all = item_models(items@);
    let ghost f = dependency_name();
    let mut out: Vec<String> = Vec::new();
    let limit: usize = items.len();
    let mut i: usize = 0;
    assert(views(out@) =~= collect_some(all.take(0), f));
    while i < limit
        invariant
            i <= limit <= items@.len(),
            all == item_models(items@),
            f == dependency_name(),
            views(out@) == collect_some(all.take(i as int), f),
        decreases limit - i,
    {
        proof {
            lemma_collect_step(all, i as int, f);
        }
        assert(all[i as int] == items@[i as int]@);
        if let Some(x) = dependency_of(&items[i]) {
            out.push(x);
        }
        i += 1;
    }
    assert(all.take(limit as int) =~= all);
    out
}

fn alias_names(items: &Vec<Json>) -> (r: Vec<String>)
    ensures
        views(r@) == collect_some(item_models(items@), alias_name()),
{
    let ghost all = item_models(items@);
    let ghost f = alias_name();
    let mut out: Vec<String> = Vec::new();
    let limit: usize = items.len();
    let mut i: usize = 0;
    assert(views(out@) =~= collect_some(all.take(0), f));
    while i < limit
        invariant
            i <= limit <= items@.len(),
            all == item_models(items@),
            f == alias_name(),
            views(out@) == collect_some(all.take(i as int), f),
        decreases limit - i,
    {
        proof {
            lemma_collect_step(all, i as int, f);
        }
        assert(all[i as int] == items@[i as int]@);
        if let Some(x) = alias_of(&items[i]) {
            out.push(x);
        }
        i += 1;
    }
    assert(all.take(limit as int) =~= all);
    out
}

fn dependencies_at(doc: &Json, key: &str) -> (r: Vec<String>)
    ensures
        views(r@) == collect_some(doc@.items_at(key@), dependency_name()),
{
    match doc.array(key) {
        Some(items) => dependency_names(items),
        None => Vec::new(),
    }
}

fn aliases_at(doc: &Json, key: &str) -> (r: Vec<String>)
    ensures
        views(r@) == collect_some(doc@.items_at(key@), alias_name()),
{
    match doc.array(key) {
        Some(items) => alias_names(items),
        None => Vec::new(),
    }
}

/// What a receipt that has been read says of a version.
pub fn receipt_from(name: &str, k: &KegFile, doc: &Json) -> (r: FormulaReceipt)
    ensures
        r@ == receipt_in(name@, k@, doc@),
{
    let tap = match doc.get("source") {
        Some(s) => match s.text("tap") {
            Some(t) => t,
            None => "homebrew/core".to_owned(),
        },
        None => "homebrew/core".to_owned(),
    };
    let full_name = if same(tap.as_str(), "homebrew/core") {
        name.to_owned()
    } else {
        tap.concat("/").concat(name)
    };
    let poured = match doc.bool("poured_from_bottle") {
        Some(b) => b,
        None => false,
    };
    FormulaReceipt {
        full_name,
        version: k.version.clone(),
        path: k.path.clone(),
        keg_path: k.keg_path.clone(),
        requested: doc.bool("installed_on_request"),
        poured_from_bottle: poured,
        dependencies: dependencies_at(doc, "runtime_dependencies"),
        aliases: aliases_at(doc, "aliases"),
        modified: k.modified,
    }
}

fn read_receipt(k: &KegFile, name: &str) -> (r: Option<FormulaReceipt>)
    ensures
        view_of(r) == receipt_of(name@)(k@),
{
    match &k.contents {
        Some(c) => match parse_json(c.as_str()) {
            Some(d) => if k.is_dir {
                Some(receipt_from(name, k, &d))
            } else {
                None
            },
            None => None,
        },
        None => None,
    }
}

/// The most versions of a formula that are read.
pub const VERSION_LIMIT: usize = 1_000;

fn read_kegs(kegs: &Vec<KegFile>, name: &str) -> (r: Vec<FormulaReceipt>)
    ensures
        views(r@) == collect_some(at_most(views(kegs@), VERSION_LIMIT as int), receipt_of(name@)),
{
    let ghost all = views(kegs@);
    let ghost f = receipt_of(name@);
    let mut out: Vec<FormulaReceipt> = Vec::new();
    let limit: usize = if kegs.len() > VERSION_LIMIT {
        VERSION_LIMIT
    } else {
        kegs.len()
    };
    let mut i: usize = 0;
    assert(views(out@) =~= collect_some(all.take(0), f));
    while i < limit
        invariant
            i <= limit <= kegs@.len(),
            all == views(kegs@),
            f == receipt_of(name@),
            views(out@) == collect_some(all.take(i as int), f),
        decreases limit - i,
    {
        proof {
            lemma_collect_step(all, i as int, f);
        }
        assert(all[i as int] == kegs@[i as int]@);
        if let Some(x) = read_receipt(&kegs[i], name) {
            out.push(x);
        }
        i += 1;
    }
    assert(all.take(limit as int) =~= at_most(all, VERSION_LIMIT as int));
    out
}

/// A formula with those of its versions whose receipts can be read; nothing
/// where there are none.
pub open spec fn rack_of() -> spec_fn(RackFilesModel) -> Option<RackModel> {
    |f: RackFilesModel|
    {
        let receipts = collect_some(at_most(f.kegs, VERSION_LIMIT as int), receipt_of(f.name));
        if f.is_dir && receipts.len() > 0 {
            Some(RackModel { name: f.name, receipts })
        } else {
            None
        }
    }
}

/// How many formulae are read: up to the first at which the work was
/// cancelled.
pub open spec fn reached(files: Seq<RackFilesModel>) -> nat
    decreases files.len(),
{
    if files.len() == 0 || files[0].cancelled {
        0
    } else {
        1 + reached(files.skip(1))
    }
}

/// The installed formulae.
pub open spec fn racks_in(files: Seq<RackFilesModel>) -> Seq<RackModel> {
    let s = at_most(files, MAX_PARSED_ITEMS as int);
    collect_some(s.take(reached(s) as int), rack_of())
}

proof fn lemma_reached(files: Seq<RackFilesModel>, n: int)
    requires
        0 <= n <= files.len(),
        forall|i: int| 0 <= i < n ==> !(#[trigger] files[i]).cancelled,
        n == files.len() || files[n].cancelled,
    ensures
        reached(files) == n,
    decreases n,
{
    if n > 0 {
        let t = files.skip(1);
        assert(!files[0].cancelled);
        assert forall|i: int| 0 <= i < n - 1 implies !(#[trigger] t[i]).cancelled by {
            assert(t[i] == files[i + 1]);
        }
        if n < files.len() {
            assert(t[n - 1] == files[n]);
        }
        lemma_reached(t, n - 1);
    }
}

fn read_rack(f: &RackFiles) -> (r: Option<Rack>)
    ensures
        view_of(r) == rack_of()(f@),
{
    if !f.is_dir {
        return None;
    }
    let receipts = read_kegs(&f.kegs, f.name.as_str());
    assert(views(receipts@).len() == receipts@.len());
    if receipts.len() > 0 {
        Some(Rack { name: f.name.clone(), receipts })
    } else {
        None
    }
}

/// The installed formulae.
pub fn read_formula_receipts(files: &Vec<RackFiles>) -> (r: Vec<Rack>)
    ensures
        views(r@) == racks_in(views(files@)),
{
    let ghost all = views(files@);
    let ghost s = at_most(all, MAX_PARSED_ITEMS as int);
    let ghost f = rack_of();
    let limit: usize = if files.len() > MAX_PARSED_ITEMS {
        MAX_PARSED_ITEMS
    } else {
        files.len()
    };
    let mut out: Vec<Rack> = Vec::new();
    let mut i: usize = 0;
    assert(views(out@) =~= collect_some(s.take(0), f));
    while i < limit && !files[i].cancelled
        invariant
            i <= limit <= files@.len(),
            all == views(files@),
            s == at_most(all, MAX_PARSED_ITEMS as int),
            s.len() == limit,
            f == rack_of(),
            forall|j: int| 0 <= j < i ==> !(#[trigger] s[j]).cancelled,
            views(out@) == collect_some(s.take(i as int), f),
        decreases limit - i,
    {
        proof {
            lemma_collect_step(s, i as int, f);
        }
        assert(s[i as int] == files@[i as int]@);
        if let Some(rack) = read_rack(&files[i]) {
            out.push(rack);
        }
        i += 1;
    }
    proof {
        if i < limit {
            assert(s[i as int] == files@[i as int]@);
        }
        lemma_reached(s, i as int);
    }
    out
}

/// The formulae that a cask depends on.
pub open spec fn cask_formulae() -> spec_fn(Option<Seq<char>>) -> Seq<Seq<char>> {
    |contents: Option<Seq<char>>|
    match contents {
        Some(c) => match json_document(c) {
            Some(d) => match d.get("runtime_dependencies"@) {
                Some(r) => collect_some(r.items_at("formula"@), dependency_name()),
                None => Seq::empty(),
            },
            None => Seq::empty(),
        },
        None => Seq::empty(),
    }
}

pub open spec fn opt_texts(s: Seq<Option<String>>) -> Seq<Option<Seq<char>>> {
    s.map_values(|t: Option<String>| view_of(t))
}

fn cask_dependencies(contents: &Option<String>) -> (r: Vec<String>)
    ensures
        views(r@) == cask_formulae()(view_of(*contents)),
{
    if let Some(c) = contents {
        if let Some(d) = parse_json(c.as_str()) {
            if let Some(r) = d.get("runtime_dependencies") {
                return dependencies_at(r, "formula");
            }
        }
    }
    Vec::new()
}

/// The most casks that are read.
pub const CASK_LIMIT: usize = 10_000;

/// The formulae that casks depend on, from the texts of their receipts.
pub fn read_cask_dependencies(receipts: &Vec<Option<String>>) -> (r: Vec<String>)
    ensures
        views(r@) == flatten_map(at_most(opt_texts(receipts@), CASK_LIMIT as int), cask_formulae()),
{
    let ghost all = opt_texts(receipts@);
    let ghost f = cask_formulae();
    let mut out: Vec<String> = Vec::new();
    let limit: usize = if receipts.len() > CASK_LIMIT {
        CASK_LIMIT
    } else {
        receipts.len()
    };
    let mut i: usize = 0;
    assert(views(out@) =~= flatten_map(all.take(0), f));
    while i < limit
        invariant
            i <= limit <= receipts@.len(),
            all == opt_texts(receipts@),
            f == cask_formulae(),
            views(out@) == flatten_map(all.take(i as int), f),
        decreases limit - i,
    {
        proof {
            lemma_flatten_step(all, i as int, f);
        }
        assert(all[i as int] == view_of(receipts@[i as int]));
        let mut more = cask_dependencies(&receipts[i]);
        out.append(&mut more);
        i += 1;
    }
    assert(all.take(limit as int) =~= at_most(all, CASK_LIMIT as int));
    out
}

// ---- what depends on what ----

/// Whether a version was installed for another's sake only.
pub open spec fn is_dependency_only(r: FormulaReceiptModel) -> bool {
    r.requested == Some(false) && r.poured_from_bottle
}

pub open spec fn all_dependency_only(receipts: Seq<FormulaReceiptModel>) -> bool {
    forall|i: int| 0 <= i < receipts.len() ==> is_dependency_only(#[trigger] receipts[i])
}

/// What keeps formulae, beside the receipts.
pub struct Keepers {
    /// The formulae that casks depend on.
    pub casks: Vec<String>,
    pub pinned: Vec<String>,
    pub linked: Vec<String>,
    pub excluded: Vec<String>,
}

#[verifier::ext_equal]
pub struct KeepersModel {
    pub casks: Seq<Seq<char>>,
    pub pinned: Seq<Seq<char>>,
    pub linked: Seq<Seq<char>>,
    pub excluded: Seq<Seq<char>>,
}

impl View for Keepers {
    type V = KeepersModel;

    open spec fn view(&self) -> KeepersModel {
        KeepersModel {
            casks: views(self.casks@),
            pinned: views(self.pinned@),
            linked: views(self.linked@),
            excluded: views(self.excluded@),
        }
    }
}

/// A formula that is kept for its own sake: asked for, built from source,
/// pinned, linked or excluded from cleaning.
pub open spec fn is_root(k: KeepersModel, r: RackModel) -> bool {
    !all_dependency_only(r.receipts) || k.pinned.contains(r.name) || k.linked.contains(r.name)
        || k.excluded.contains(r.name)
}

pub open spec fn if_root(k: KeepersModel) -> spec_fn(RackModel) -> Option<Seq<char>> {
    |r: RackModel|
    if is_root(k, r) {
        Some(r.name)
    } else {
        None
    }
}

/// The names from which everything that is kept is reached.
pub open spec fn roots_of(racks: Seq<RackModel>, k: KeepersModel) -> Seq<Seq<char>> {
    collect_some(racks, if_root(k)) + k.casks
}

/// Whether a formula goes by another name.
pub open spec fn has_alias(r: RackModel, name: Seq<char>) -> bool {
    exists|i: int| 0 <= i < r.receipts.len() && (#[trigger] r.receipts[i]).aliases.contains(name)
}

/// The formula that goes by another name; the last one where several do.
pub open spec fn alias_target(racks: Seq<RackModel>, name: Seq<char>) -> Option<Seq<char>>
    decreases racks.len(),
{
    if racks.len() == 0 {
        None
    } else if has_alias(racks.last(), name) {
        Some(racks.last().name)
    } else {
        alias_target(racks.drop_last(), name)
    }
}

/// The formula that a name stands for.
pub open spec fn resolved(racks: Seq<RackModel>, name: Seq<char>) -> Seq<char> {
    match alias_target(racks, name) {
        Some(n) => n,
        None => name,
    }
}

pub open spec fn dependencies_of_receipt() -> spec_fn(FormulaReceiptModel) -> Seq<Seq<char>> {
    |r: FormulaReceiptModel| r.dependencies
}

pub open spec fn if_rack(name: Seq<char>) -> spec_fn(RackModel) -> Option<Seq<Seq<char>>> {
    |r: RackModel|
    if r.name == name {
        Some(flatten_map(r.receipts, dependencies_of_receipt()))
    } else {
        None
    }
}

/// What the versions of a formula depend on.
pub open spec fn dependencies_of(racks: Seq<RackModel>, name: Seq<char>) -> Seq<Seq<char>> {
    match find_some(racks, if_rack(name)) {
        Some(d) => d,
        None => Seq::empty(),
    }
}

/// Whether a formula is reached from the roots in `n` steps.
pub open spec fn reached_in(
    racks: Seq<RackModel>,
    roots: Seq<Seq<char>>,
    name: Seq<char>,
    n: nat,
) -> bool
    decreases n,
{
    if n == 0 {
        exists|i: int| 0 <= i < roots.len() && resolved(racks, #[trigger] roots[i]) == name
    } else {
        exists|from: Seq<char>, i: int|
        #![trigger dependencies_of(racks, from)[i]]
        reached_in(racks, roots, from, (n - 1) as nat) && 0 <= i < dependencies_of(
            racks,
            from,
        ).len() && resolved(racks, dependencies_of(racks, from)[i]) == name
    }
}

/// Whether a formula is reached from the roots.
pub open spec fn is_reachable(racks: Seq<RackModel>, roots: Seq<Seq<char>>, name: Seq<char>) -> bool {
    exists|n: nat| #[trigger] reached_in(racks, roots, name, n)
}

/// What the receipts say of the dependencies.
pub struct DependencyGraph {
    pub reachable: Vec<String>,
    pub unreachable: Vec<String>,
}

/// Whether a formula that was installed for others is reached from no root.
pub open spec fn is_unused(racks: Seq<RackModel>, roots: Seq<Seq<char>>, name: Seq<char>) -> bool {
    exists|i: int|
    0 <= i < racks.len() && (#[trigger] racks[i]).name == name && all_dependency_only(
        racks[i].receipts,
    ) && !is_reachable(racks, roots, name)
}

fn only_dependency(receipts: &Vec<FormulaReceipt>) -> (r: bool)
    ensures
        r == all_dependency_only(views(receipts@)),
{
    let ghost all = views(receipts@);
    let mut i: usize = 0;
    while i < receipts.len()
        invariant
            i <= receipts@.len(),
            all == views(receipts@),
            forall|j: int| 0 <= j < i ==> is_dependency_only(#[trigger] all[j]),
        decreases receipts@.len() - i,
    {
        assert(all[i as int] == receipts@[i as int]@);
        let for_others = match receipts[i].requested {
            Some(asked) => !asked,
            None => false,
        };
        if !for_others || !receipts[i].poured_from_bottle {
            assert(!is_dependency_only(all[i as int]));
            return false;
        }
        i += 1;
    }
    true
}

fn root_name(r: &Rack, k: &Keepers) -> (n: Option<String>)
    ensures
        view_of(n) == if_root(k@)(r@),
{
    let name = r.name.as_str();
    if !only_dependency(&r.receipts) || text::among(name, &k.pinned) || text::among(name, &k.linked)
        || text::among(name, &k.excluded) {
        Some(r.name.clone())
    } else {
        None
    }
}

fn root_names(racks: &Vec<Rack>, k: &Keepers) -> (r: Vec<String>)
    ensures
        views(r@) == collect_some(views(racks@), if_root(k@)),
{
    let ghost all = views(racks@);
    let ghost f = if_root(k@);
    let mut out: Vec<String> = Vec::new();
    let limit: usize = racks.len();
    let mut i: usize = 0;
    assert(views(out@) =~= collect_some(all.take(0), f));
    while i < limit
        invariant
            i <= limit <= racks@.len(),
            all == views(racks@),
            f == if_root(k@),
            views(out@) == collect_some(all.take(i as int), f),
        decreases limit - i,
    {
        proof {
            lemma_collect_step(all, i as int, f);
        }
        assert(all[i as int] == racks@[i as int]@);
        if let Some(x) = root_name(&racks[i], k) {
            out.push(x);
        }
        i += 1;
    }
    assert(all.take(limit as int) =~= all);
    out
}

fn goes_by(r: &Rack, name: &str) -> (b: bool)
    ensures
        b == has_alias(r@, name@),
{
    let ghost all = views(r.receipts@);
    let mut i: usize = 0;
    while i < r.receipts.len()
        invariant
            i <= r.receipts@.len(),
            all == views(r.receipts@),
            all == r@.receipts,
            forall|j: int| 0 <= j < i ==> !(#[trigger] all[j]).aliases.contains(name@),
        decreases r.receipts@.len() - i,
    {
        assert(all[i as int] == r.receipts@[i as int]@);
        if text::among(name, &r.receipts[i].aliases) {
            return true;
        }
        i += 1;
    }
    false
}

fn resolve(racks: &Vec<Rack>, name: &str) -> (r: String)
    ensures
        r@ == resolved(views(racks@), name@),
{
    let ghost all = views(racks@);
    let mut n: usize = racks.len();
    assert(all.take(n as int) =~= all);
    while n > 0
        invariant
            n <= racks@.len(),
            all == views(racks@),
            alias_target(all, name@) == alias_target(all.take(n as int), name@),
        decreases n,
    {
        assert(all.take(n as int).drop_last() =~= all.take(n - 1));
        assert(all.take(n as int).last() == racks@[n - 1]@);
        if goes_by(&racks[n - 1], name) {
            return racks[n - 1].name.clone();
        }
        n -= 1;
    }
    name.to_owned()
}

fn receipt_dependencies(receipts: &Vec<FormulaReceipt>) -> (r: Vec<String>)
    ensures
        views(r@) == flatten_map(views(receipts@), dependencies_of_receipt()),
{
    let ghost all = views(receipts@);
    let ghost f = dependencies_of_receipt();
    let mut out: Vec<String> = Vec::new();
    let limit: usize = receipts.len();
    let mut i: usize = 0;
    assert(views(out@) =~= flatten_map(all.take(0), f));
    while i < limit
        invariant
            i <= limit <= receipts@.len(),
            all == views(receipts@),
            f == dependencies_of_receipt(),
            views(out@) == flatten_map(all.take(i as int), f),
        decreases limit - i,
    {
        proof {
            lemma_flatten_step(all, i as int, f);
        }
        assert(all[i as int] == receipts@[i as int]@);
        let mut more = text::copy_texts(&receipts[i].dependencies);
        out.append(&mut more);
        i += 1;
    }
    assert(all.take(limit as int) =~= all);
    out
}

fn rack_dependencies(racks: &Vec<Rack>, name: &str) -> (r: Vec<String>)
    ensures
        views(r@) == dependencies_of(views(racks@), name@),
{
    let ghost all = views(racks@);
    let ghost f = if_rack(name@);
    assert(all.skip(0) =~= all);
    let mut i: usize = 0;
    while i < racks.len()
        invariant
            i <= racks@.len(),
            all == views(racks@),
            f == if_rack(name@),
            find_some(all, f) == find_some(all.skip(i as int), f),
        decreases racks@.len() - i,
    {
        proof {
            lemma_find_step(all, i as int, f);
        }
        assert(all[i as int] == racks@[i as int]@);
        if same(racks[i].name.as_str(), name) {
            return receipt_dependencies(&racks[i].receipts);
        }
        i += 1;
    }
    proof {
        lemma_find_none(all.skip(i as int), f);
    }
    Vec::new()
}

/// Every formula that a root or a dependency can stand for.
spec fn nameable(racks: Seq<RackModel>, roots: Seq<Seq<char>>) -> Set<Seq<char>> {
    (roots + flatten_map(racks, rack_names())).map_values(
        |n: Seq<char>| resolved(racks, n),
    ).to_set()
}

spec fn rack_names() -> spec_fn(RackModel) -> Seq<Seq<char>> {
    |r: RackModel| flatten_map(r.receipts, dependencies_of_receipt())
}

proof fn lemma_dependency_is_nameable(
    racks: Seq<RackModel>,
    roots: Seq<Seq<char>>,
    name: Seq<char>,
    i: int,
)
    requires
        0 <= i < dependencies_of(racks, name).len(),
    ensures
        nameable(racks, roots).contains(resolved(racks, dependencies_of(racks, name)[i])),
{
    let d = dependencies_of(racks, name);
    let all = flatten_map(racks, rack_names());
    lemma_found_in_flat(racks, name, i);
    let k = choose|k: int| 0 <= k < all.len() && #[trigger] all[k] == d[i];
    let list = roots + all;
    let names = list.map_values(|n: Seq<char>| resolved(racks, n));
    assert(list[roots.len() + k] == d[i]);
    assert(names[roots.len() + k] == resolved(racks, d[i]));
}

proof fn lemma_found_in_flat(racks: Seq<RackModel>, name: Seq<char>, i: int)
    requires
        0 <= i < dependencies_of(racks, name).len(),
    ensures
        exists|k: int|
        0 <= k < flatten_map(racks, rack_names()).len() && #[trigger] flatten_map(
            racks,
            rack_names(),
        )[k] == dependencies_of(racks, name)[i],
    decreases racks.len(),
{
    let d = dependencies_of(racks, name);
    let f = if_rack(name);
    lemma_find_source(racks, f);
    let j = choose|j: int| 0 <= j < racks.len() && f(#[trigger] racks[j]) == Some(d);
    lemma_flat_part(racks, rack_names(), j, i);
}

proof fn lemma_find_source<A, B>(s: Seq<A>, f: spec_fn(A) -> Option<B>)
    requires
        find_some(s, f) is Some,
    ensures
        exists|j: int| 0 <= j < s.len() && f(#[trigger] s[j]) == find_some(s, f),
    decreases s.len(),
{
    if f(s[0]) is None {
        lemma_find_source(s.skip(1), f);
        let j = choose|j: int|
        0 <= j < s.skip(1).len() && f(#[trigger] s.skip(1)[j]) == find_some(s.skip(1), f);
        assert(s[j + 1] == s.skip(1)[j]);
    } else {
        assert(f(s[0]) == find_some(s, f));
    }
}

/// The parts of a flattened list are in it.
proof fn lemma_flat_part<A, B>(s: Seq<A>, f: spec_fn(A) -> Seq<B>, j: int, i: int)
    requires
        0 <= j < s.len(),
        0 <= i < f(s[j]).len(),
    ensures
        exists|k: int|
        0 <= k < flatten_map(s, f).len() && #[trigger] flatten_map(s, f)[k] == f(s[j])[i],
    decreases s.len(),
{
    let head = flatten_map(s.drop_last(), f);
    let all = flatten_map(s, f);
    if j < s.len() - 1 {
        assert(s.drop_last()[j] == s[j]);
        lemma_flat_part(s.drop_last(), f, j, i);
        let k = choose|k: int| 0 <= k < head.len() && #[trigger] head[k] == f(s[j])[i];
        assert(all[k] == head[k]);
    } else {
        assert(all[head.len() + i] == f(s[j])[i]);
    }
}

proof fn lemma_no_more_than(list: Seq<Seq<char>>, set: Set<Seq<char>>)
    requires
        list.no_duplicates(),
        set.finite(),
        forall|i: int| 0 <= i < list.len() ==> set.contains(#[trigger] list[i]),
    ensures
        list.len() <= set.len(),
{
    list.unique_seq_to_set();
    assert(list.to_set().subset_of(set)) by {
        assert forall|x: Seq<char>| list.to_set().contains(x) implies set.contains(x) by {
            let i = choose|i: int| 0 <= i < list.len() && list[i] == x;
            assert(set.contains(list[i]));
        }
    }
    vstd::set_lib::lemma_len_subset(list.to_set(), set);
}

/// What is waiting to be followed, and what has been reached.
spec fn walk_ok(
    racks: Seq<RackModel>,
    roots: Seq<Seq<char>>,
    stack: Seq<Seq<char>>,
    done: Seq<Seq<char>>,
) -> bool {
    &&& done.no_duplicates()
    &&& forall|i: int| 0 <= i < done.len() ==> is_reachable(racks, roots, #[trigger] done[i])
    &&& forall|i: int|
    0 <= i < done.len() ==> nameable(racks, roots).contains(#[trigger] done[i])
    &&& forall|i: int|
    0 <= i < stack.len() ==> is_reachable(racks, roots, resolved(racks, #[trigger] stack[i]))
        && nameable(racks, roots).contains(resolved(racks, stack[i]))
    &&& forall|i: int|
    0 <= i < roots.len() ==> stack.contains(#[trigger] roots[i]) || done.contains(
        resolved(racks, roots[i]),
    )
    &&& forall|x: Seq<char>, i: int|
    #![trigger dependencies_of(racks, x)[i]]
    done.contains(x) && 0 <= i < dependencies_of(racks, x).len() ==> stack.contains(
        dependencies_of(racks, x)[i],
    ) || done.contains(resolved(racks, dependencies_of(racks, x)[i]))
}

/// A set that holds the roots and all that its members depend on holds
/// everything that is reached.
proof fn lemma_closed(
    racks: Seq<RackModel>,
    roots: Seq<Seq<char>>,
    done: Seq<Seq<char>>,
    name: Seq<char>,
    n: nat,
)
    requires
        walk_ok(racks, roots, Seq::empty(), done),
        reached_in(racks, roots, name, n),
    ensures
        done.contains(name),
    decreases n,
{
    if n == 0 {
        let i = choose|i: int| 0 <= i < roots.len() && resolved(racks, #[trigger] roots[i]) == name;
        assert(!Seq::<Seq<char>>::empty().contains(roots[i]));
        assert(done.contains(resolved(racks, roots[i])));
    } else {
        let (from, i) = choose|from: Seq<char>, i: int|
        #![trigger dependencies_of(racks, from)[i]]
        reached_in(racks, roots, from, (n - 1) as nat) && 0 <= i < dependencies_of(
            racks,
            from,
        ).len() && resolved(racks, dependencies_of(racks, from)[i]) == name;
        lemma_closed(racks, roots, done, from, (n - 1) as nat);
        assert(!Seq::<Seq<char>>::empty().contains(dependencies_of(racks, from)[i]));
    }
}

/// Following one name keeps the walk in order.
proof fn lemma_follow(
    racks: Seq<RackModel>,
    roots: Seq<Seq<char>>,
    stack: Seq<Seq<char>>,
    done: Seq<Seq<char>>,
)
    requires
        stack.len() > 0,
        walk_ok(racks, roots, stack, done),
    ensures
        done.contains(resolved(racks, stack.last())) ==> walk_ok(
            racks,
            roots,
            stack.drop_last(),
            done,
        ),
        !done.contains(resolved(racks, stack.last())) ==> walk_ok(
            racks,
            roots,
            stack.drop_last() + dependencies_of(racks, resolved(racks, stack.last())),
            done.push(resolved(racks, stack.last())),
        ),
{
    let raw = stack.last();
    let name = resolved(racks, raw);
    let rest = stack.drop_last();
    assert forall|x: Seq<char>| stack.contains(x) && x != raw implies rest.contains(x) by {
        let k = choose|k: int| 0 <= k < stack.len() && stack[k] == x;
        assert(rest[k] == x);
    }
    assert forall|i: int| 0 <= i < rest.len() implies rest[i] == #[trigger] stack[i] by {}
    assert(stack[stack.len() - 1] == raw);
    if !done.contains(name) {
        let deps = dependencies_of(racks, name);
        let s2 = rest + deps;
        let d2 = done.push(name);
        assert(d2.no_duplicates()) by {
            assert forall|i: int, j: int|
            0 <= i < d2.len() && 0 <= j < d2.len() && i != j implies d2[i] != d2[j] by {
                if i == done.len() {
                    assert(done[j] == d2[j]);
                    if d2[j] == name {
                        assert(done.contains(name));
                    }
                } else if j == done.len() {
                    assert(done[i] == d2[i]);
                    if d2[i] == name {
                        assert(done.contains(name));
                    }
                }
            }
        }
        assert forall|x: Seq<char>| #[trigger] d2.contains(x) == (done.contains(x) || x == name) by {
            if done.contains(x) {
                let k = choose|k: int| 0 <= k < done.len() && done[k] == x;
                assert(d2[k] == x);
            }
            assert(d2[done.len() as int] == name);
            if d2.contains(x) && x != name {
                let k = choose|k: int| 0 <= k < d2.len() && d2[k] == x;
                assert(done[k] == x);
            }
        }
        assert forall|x: Seq<char>| rest.contains(x) implies #[trigger] s2.contains(x) by {
            let k = choose|k: int| 0 <= k < rest.len() && rest[k] == x;
            assert(s2[k] == x);
        }
        assert forall|i: int| 0 <= i < deps.len() implies s2.contains(#[trigger] deps[i]) by {
            assert(s2[rest.len() + i] == deps[i]);
        }
        let n = choose|n: nat| #[trigger] reached_in(racks, roots, name, n);
        assert forall|i: int| 0 <= i < s2.len() implies is_reachable(
            racks,
            roots,
            resolved(racks, #[trigger] s2[i]),
        ) && nameable(racks, roots).contains(resolved(racks, s2[i])) by {
            if i >= rest.len() {
                let k = i - rest.len();
                assert(s2[i] == dependencies_of(racks, name)[k]);
                assert(reached_in(racks, roots, resolved(racks, s2[i]), n + 1));
                lemma_dependency_is_nameable(racks, roots, name, k);
            } else {
                assert(s2[i] == stack[i]);
            }
        }
        assert forall|i: int| 0 <= i < d2.len() implies is_reachable(
            racks,
            roots,
            #[trigger] d2[i],
        ) && nameable(racks, roots).contains(d2[i]) by {
            if i < done.len() {
                assert(d2[i] == done[i]);
            }
        }
        assert forall|x: Seq<char>, i: int|
        #![trigger dependencies_of(racks, x)[i]]
        d2.contains(x) && 0 <= i < dependencies_of(racks, x).len() implies s2.contains(
            dependencies_of(racks, x)[i],
        ) || d2.contains(resolved(racks, dependencies_of(racks, x)[i])) by {
            let d = dependencies_of(racks, x)[i];
            if x == name {
                assert(s2.contains(deps[i]));
            } else {
                assert(stack.contains(d) || done.contains(resolved(racks, d)));
            }
        }
        assert forall|i: int| 0 <= i < roots.len() implies s2.contains(#[trigger] roots[i])
            || d2.contains(resolved(racks, roots[i])) by {
            assert(stack.contains(roots[i]) || done.contains(resolved(racks, roots[i])));
        }
    }
}

/// Everything that is reached from the roots, each once.
fn reachable_names(racks: &Vec<Rack>, roots: Vec<String>) -> (r: Vec<String>)
    ensures
        forall|n: Seq<char>|
        #[trigger] views(r@).contains(n) == is_reachable(views(racks@), views(roots@), n),
        views(r@).no_duplicates(),
{
    let ghost all = views(racks@);
    let ghost starts = views(roots@);
    let ghost bound = nameable(all, starts).len();
    let mut stack = roots;
    let mut done: Vec<String> = Vec::new();
    proof {
        assert forall|i: int| 0 <= i < starts.len() implies is_reachable(
            all,
            starts,
            resolved(all, #[trigger] starts[i]),
        ) && nameable(all, starts).contains(resolved(all, starts[i])) by {
            assert(reached_in(all, starts, resolved(all, starts[i]), 0));
            let list = starts + flatten_map(all, rack_names());
            let names = list.map_values(|n: Seq<char>| resolved(all, n));
            assert(list[i] == starts[i]);
            assert(names[i] == resolved(all, starts[i]));
        }
        assert(views(done@) =~= Seq::<Seq<char>>::empty());
        assert(walk_ok(all, starts, starts, views(done@)));
    }
    while stack.len() > 0
        invariant
            all == views(racks@),
            bound == nameable(all, starts).len(),
            nameable(all, starts).finite(),
            walk_ok(all, starts, views(stack@), views(done@)),
        decreases bound - done@.len(), stack@.len(),
    {
        let ghost s = views(stack@);
        let ghost d = views(done@);
        proof {
            lemma_follow(all, starts, s, d);
            lemma_no_more_than(d, nameable(all, starts));
        }
        let n: usize = stack.len();
        assert(s.last() == stack@[n - 1]@);
        let raw = match stack.pop() {
            Some(x) => x,
            None => {
                return done;
            },
        };
        assert(views(stack@) =~= s.drop_last());
        let name = resolve(racks, raw.as_str());
        if !text::among(name.as_str(), &done) {
            let mut more = rack_dependencies(racks, name.as_str());
            stack.append(&mut more);
            done.push(name);
            proof {
                assert(views(done@) =~= d.push(resolved(all, s.last())));
                lemma_no_more_than(views(done@), nameable(all, starts));
            }
        }
    }
    proof {
        assert(views(stack@) =~= Seq::<Seq<char>>::empty());
        assert forall|n: Seq<char>|
        #[trigger] views(done@).contains(n) == is_reachable(all, starts, n) by {
            if is_reachable(all, starts, n) {
                let k = choose|k: nat| #[trigger] reached_in(all, starts, n, k);
                lemma_closed(all, starts, views(done@), n, k);
            }
        }
    }
    done
}

/// What the receipts say of the dependencies: what is reached from the formulae
/// that are kept for their own sake, and which of those that were installed for
/// others is not.
pub fn dependency_analysis(racks: &Vec<Rack>, keepers: &Keepers) -> (r: DependencyGraph)
    ensures
        forall|n: Seq<char>|
        #[trigger] views(r.reachable@).contains(n) == is_reachable(
            views(racks@),
            roots_of(views(racks@), keepers@),
            n,
        ),
        sorting::ascending(views(r.unreachable@)),
        forall|n: Seq<char>|
        #[trigger] views(r.unreachable@).contains(n) == is_unused(
            views(racks@),
            roots_of(views(racks@), keepers@),
            n,
        ),
{
    let ghost all = views(racks@);
    let ghost starts = roots_of(all, keepers@);
    let mut roots = root_names(racks, keepers);
    let mut more = text::copy_texts(&keepers.casks);
    roots.append(&mut more);
    let reachable = reachable_names(racks, roots);
    let mut unreachable: Vec<String> = Vec::new();
    let mut i: usize = 0;
    assert(views(unreachable@) =~= Seq::<Seq<char>>::empty());
    while i < racks.len()
        invariant
            i <= racks@.len(),
            all == views(racks@),
            forall|n: Seq<char>|
            #[trigger] views(reachable@).contains(n) == is_reachable(all, starts, n),
            sorting::ascending(views(unreachable@)),
            forall|n: Seq<char>|
            #[trigger] views(unreachable@).contains(n) == unused_so_far(all, starts, i as int, n),
        decreases racks@.len() - i,
    {
        assert(all[i as int] == racks@[i as int]@);
        let ghost before = views(unreachable@);
        if only_dependency(&racks[i].receipts) && !text::among(racks[i].name.as_str(), &reachable) {
            sorting::insert_sorted(&mut unreachable, racks[i].name.clone());
            assert forall|n: Seq<char>| #[trigger] views(unreachable@).contains(n) == (before.contains(n)
                    || n == all[i as int].name) by {
                assert(views(unreachable@).to_set().contains(n) == before.to_set().insert(
                        all[i as int].name,
                    ).contains(n));
            }
        }
        proof {
            assert forall|n: Seq<char>|
            #[trigger] views(unreachable@).contains(n) == unused_so_far(all, starts, i + 1, n) by {
                lemma_unused_step(all, starts, i as int, n);
                assert(before.contains(n) == unused_so_far(all, starts, i as int, n));
            }
        }
        i += 1;
    }
    assert forall|n: Seq<char>| #[trigger] views(unreachable@).contains(n) == is_unused(
        all,
        starts,
        n,
    ) by {
        assert(views(unreachable@).contains(n) == unused_so_far(all, starts, i as int, n));
    }
    DependencyGraph { reachable, unreachable }
}

/// Whether one of the first `n` formulae is unused under this name.
spec fn unused_so_far(
    racks: Seq<RackModel>,
    roots: Seq<Seq<char>>,
    n: int,
    name: Seq<char>,
) -> bool {
    exists|i: int|
    0 <= i < n && (#[trigger] racks[i]).name == name && all_dependency_only(racks[i].receipts)
        && !is_reachable(racks, roots, name)
}

proof fn lemma_unused_step(
    racks: Seq<RackModel>,
    roots: Seq<Seq<char>>,
    n: int,
    name: Seq<char>,
)
    requires
        0 <= n < racks.len(),
    ensures
        unused_so_far(racks, roots, n + 1, name) == (unused_so_far(racks, roots, n, name) || (
                racks[n].name == name && all_dependency_only(racks[n].receipts) && !is_reachable(
                    racks,
                    roots,
                    name,
        ))),
{
}

// ---- versions ----

/// The receipt that was written last; the later one of two of the same time.
pub open spec fn latest(receipts: Seq<FormulaReceiptModel>) -> Option<int>
    decreases receipts.len(),
{
    if receipts.len() == 0 {
        None
    } else {
        match latest(receipts.drop_last()) {
            Some(i) => if receipts[i].modified > receipts.last().modified {
                Some(i)
            } else {
                Some(receipts.len() - 1)
            },
            None => Some(receipts.len() - 1),
        }
    }
}

proof fn lemma_latest(receipts: Seq<FormulaReceiptModel>)
    ensures
        receipts.len() > 0 ==> latest(receipts) is Some && 0 <= latest(receipts)->0 < receipts.len(),
    decreases receipts.len(),
{
    if receipts.len() > 0 {
        lemma_latest(receipts.drop_last());
    }
}

/// The position of the receipt that was written last.
pub fn active_receipt(receipts: &Vec<FormulaReceipt>) -> (r: Option<usize>)
    ensures
        match (r, latest(views(receipts@))) {
            (Some(i), Some(k)) => i == k && i < receipts@.len(),
            (None, None) => receipts@.len() == 0,
            _ => false,
        },
{
    let ghost all = views(receipts@);
    let mut best: Option<usize> = None;
    let mut i: usize = 0;
    while i < receipts.len()
        invariant
            i <= receipts@.len(),
            all == views(receipts@),
            match (best, latest(all.take(i as int))) {
                (Some(b), Some(k)) => b == k && b < i,
                (None, None) => i == 0,
                _ => false,
            },
        decreases receipts@.len() - i,
    {
        assert(all.take(i + 1).drop_last() =~= all.take(i as int));
        assert(all[i as int] == receipts@[i as int]@);
        best = match best {
            Some(b) => {
                assert(all.take(i + 1)[b as int] == receipts@[b as int]@);
                if receipts[b].modified > receipts[i].modified {
                    Some(b)
                } else {
                    Some(i)
                }
            },
            None => Some(i),
        };
        i += 1;
    }
    assert(all.take(i as int) =~= all);
    best
}

/// The version in use: the one that the link leads to, or the one that was
/// installed last.
pub open spec fn active_version(r: RackModel, link: Option<Seq<char>>) -> Option<Seq<char>> {
    let linked = match link {
        Some(target) => paths::last_name(target),
        None => None,
    };
    if linked is Some {
        linked
    } else {
        match latest(r.receipts) {
            Some(i) => Some(r.receipts[i].version),
            None => None,
        }
    }
}

/// The version in use; `link` is what the link of the formula leads to.
pub fn active_keg_version(r: &Rack, link: Option<&str>) -> (v: Option<String>)
    ensures
        view_of(v) == active_version(r@, text::shown(link)),
{
    if let Some(target) = link {
        if let Some(name) = paths::file_name(target) {
            return Some(name);
        }
    }
    match active_receipt(&r.receipts) {
        Some(i) => {
            assert(r@.receipts[i as int] == r.receipts@[i as int]@);
            Some(r.receipts[i].version.clone())
        },
        None => None,
    }
}

/// The paths in the text of a file that keeps a version.
pub fn keepme_paths(contents: &str) -> (r: Vec<String>)
    ensures
        views(r@) == full_lines(contents@),
{
    trimmed_lines(contents)
}

/// A version that is not in use, and that nothing keeps.
pub open spec fn if_old(active: Option<Seq<char>>) -> spec_fn((FormulaReceiptModel, bool)) -> Option<
FormulaReceiptModel,
> {
    |x: (FormulaReceiptModel, bool)|
    if active != Some(x.0.version) && !x.1 {
        Some(x.0)
    } else {
        None
    }
}

fn copy_receipt(r: &FormulaReceipt) -> (c: FormulaReceipt)
    ensures
        c@ == r@,
{
    FormulaReceipt {
        full_name: r.full_name.clone(),
        version: r.version.clone(),
        path: r.path.clone(),
        keg_path: r.keg_path.clone(),
        requested: r.requested,
        poured_from_bottle: r.poured_from_bottle,
        dependencies: text::copy_texts(&r.dependencies),
        aliases: text::copy_texts(&r.aliases),
        modified: r.modified,
    }
}

fn old_keg(r: &FormulaReceipt, kept: bool, active: &Option<String>) -> (o: Option<FormulaReceipt>)
    ensures
        view_of(o) == if_old(view_of(*active))((r@, kept)),
{
    let in_use = match active {
        Some(v) => same(v.as_str(), r.version.as_str()),
        None => false,
    };
    if !in_use && !kept {
        Some(copy_receipt(r))
    } else {
        None
    }
}

/// The versions of a formula that are not in use; `kept` says of each whether something keeps it.
pub fn old_versions(receipts: &Vec<FormulaReceipt>, kept: &Vec<bool>, active: &Option<String>) -> (r: Vec<FormulaReceipt>)
    ensures
        views(r@) == collect_some(paired(views(receipts@), kept@), if_old(view_of(*active))),
{
    let ghost f = if_old(view_of(*active));
    let ghost pairs = paired(views(receipts@), kept@);
    let mut out: Vec<FormulaReceipt> = Vec::new();

    let n: usize = receipts.len();
    let limit: usize = if n < kept.len() {
        n
    } else {
        kept.len()
    };
    let mut i: usize = 0;
    while i < limit
        invariant
            i <= limit,
            limit <= kept@.len(),
            limit == pairs.len(),
            limit <= receipts@.len(),
            pairs == paired(views(receipts@), kept@),
            f == if_old(view_of(*active)),
            views(out@) == collect_some(pairs.take(i as int), f),
        decreases limit - i,
    {
        proof {
            lemma_collect_step(pairs, i as int, f);
        }
        assert(pairs[i as int] == (receipts@[i as int]@, kept@[i as int]));
        if let Some(x) = old_keg(&receipts[i], kept[i], active) {
            out.push(x);
        }
        i += 1;
    }
    assert(pairs.take(i as int) =~= pairs);
    out
}

/// Whether a formula may have versions that are not in use: it has several, and
/// is not pinned.
pub fn has_old_versions(r: &Rack, pinned: &Vec<String>) -> (b: bool)
    ensures
        b == (r@.receipts.len() >= 2 && !views(pinned@).contains(r@.name)),
{
    assert(views(r.receipts@).len() == r.receipts@.len());
    r.receipts.len() >= 2 && !text::among(r.name.as_str(), pinned)
}

pub open spec fn versions_in(s: Seq<FormulaReceiptModel>) -> Seq<Seq<char>> {
    s.map_values(|r: FormulaReceiptModel| r.version)
}

pub open spec fn kegs_in(s: Seq<FormulaReceiptModel>) -> Seq<Seq<char>> {
    s.map_values(|r: FormulaReceiptModel| r.keg_path)
}

/// The full name of a formula: that of its latest receipt.
pub open spec fn full_name_of(r: RackModel) -> Seq<char> {
    match latest(r.receipts) {
        Some(i) => r.receipts[i].full_name,
        None => r.name,
    }
}

fn full_name(r: &Rack) -> (n: String)
    ensures
        n@ == full_name_of(r@),
{
    match active_receipt(&r.receipts) {
        Some(i) => {
            assert(r@.receipts[i as int] == r.receipts@[i as int]@);
            r.receipts[i].full_name.clone()
        },
        None => r.name.clone(),
    }
}

pub open spec fn known_or(t: Option<Seq<char>>) -> Seq<char> {
    match t {
        Some(x) => x,
        None => "unknown"@,
    }
}

/// What is said of versions that are not in use.
pub open spec fn old_draft(
    layout: BrewLayoutModel,
    r: RackModel,
    active: Option<Seq<char>>,
    old: Seq<FormulaReceiptModel>,
    bytes: u64,
) -> Draft {
    draft(
        homebrew(),
        "homebrew-old-kegs"@,
        "installed-tools"@,
        full_name_of(r),
        r.name + ": old installed versions"@,
        Safety::Review,
        bytes,
    )
        .grouped_paths(kegs_in(old))
        .manual()
        .reason(
        "The formula rack contains versions other than the active keg."@,
    )
        .evidence("Active version"@, known_or(active))
        .evidence("Old versions"@, text::joined(versions_in(old), ", "@))
        .evidence("Architecture"@, layout.architecture)
        .copy(
        "Older installed Homebrew keg versions retained beside the active version."@,
        "Commands or projects pinned to an old keg may stop working."@,
        "Let Homebrew validate and remove eligible old kegs for this formula."@,
    )
        .action(
        "cleanup-formula"@,
        seq!["brew"@, "cleanup"@, full_name_of(r)],
        true,
        true,
    )
}

/// The finding for the versions of a formula that are not in use, where there
/// are any and they are large enough.
pub open spec fn old_row(
    layout: BrewLayoutModel,
    r: RackModel,
    active: Option<Seq<char>>,
    old: Seq<FormulaReceiptModel>,
    bytes: u64,
    settings: ProviderSettings,
) -> Option<FindingModel> {
    if old.len() == 0 || bytes < settings.min_size_bytes {
        None
    } else {
        Some(old_draft(layout, r, active, old, bytes).build())
    }
}

fn two_lists(old: &Vec<FormulaReceipt>) -> (r: (Vec<String>, Vec<String>))
    ensures
        views(r.0@) == versions_in(views(old@)),
        views(r.1@) == kegs_in(views(old@)),
{
    let ghost all = views(old@);
    let mut versions: Vec<String> = Vec::new();
    let mut kegs: Vec<String> = Vec::new();
    let mut i: usize = 0;
    while i < old.len()
        invariant
            i <= old@.len(),
            all == views(old@),
            views(versions@) == versions_in(all.take(i as int)),
            views(kegs@) == kegs_in(all.take(i as int)),
        decreases old@.len() - i,
    {
        assert(all[i as int] == old@[i as int]@);
        versions.push(old[i].version.clone());
        kegs.push(old[i].keg_path.clone());
        assert(views(versions@) =~= versions_in(all.take(i + 1)));
        assert(views(kegs@) =~= kegs_in(all.take(i + 1)));
        i += 1;
    }
    assert(all.take(i as int) =~= all);
    (versions, kegs)
}

/// The finding for the versions of a formula that are not in use, which take
/// `bytes` together.
pub fn old_keg_finding(
    layout: &BrewLayout,
    r: &Rack,
    active: &Option<String>,
    old: &Vec<FormulaReceipt>,
    bytes: u64,
    settings: &ProviderSettings,
) -> (f: Option<Finding>)
    ensures
        view_of(f) == old_row(layout@, r@, view_of(*active), views(old@), bytes, *settings),
{
    assert(views(old@).len() == old@.len());
    if old.len() == 0 || bytes < settings.min_size_bytes {
        return None;
    }
    let (versions, kegs) = two_lists(old);
    let full = full_name(r);
    let shown: &str = match active {
        Some(v) => v.as_str(),
        None => "unknown",
    };
    Some(ProviderFinding::object(
            metadata(),
            "homebrew-old-kegs",
            "installed-tools",
            full.as_str(),
            r.name.clone().concat(": old installed versions").as_str(),
            Safety::Review,
            bytes,
        )
            .grouped_paths(kegs)
            .manual()
            .reason(
            "The formula rack contains versions other than the active keg.",
        )
            .evidence("Active version", shown)
            .evidence("Old versions", text::join(&versions, ", ").as_str())
            .evidence("Architecture", layout.architecture.as_str())
            .copy(
            "Older installed Homebrew keg versions retained beside the active version.",
            "Commands or projects pinned to an old keg may stop working.",
            "Let Homebrew validate and remove eligible old kegs for this formula.",
        )
            .action(
            "cleanup-formula",
            text::texts3("brew", "cleanup", full.as_str()),
            true,
            true,
        )
            .build())
}

// ---- unused dependencies ----

/// What is said of a formula that nothing needs.
pub open spec fn unused_draft(
    layout: BrewLayoutModel,
    name: Seq<char>,
    receipt: FormulaReceiptModel,
    bytes: u64,
) -> Draft {
    draft(
        homebrew(),
        "homebrew-unused-dependency"@,
        "installed-tools"@,
        receipt.full_name,
        name + ": probable unused dependency"@,
        Safety::Review,
        bytes,
    )
        .manual()
        .confidence(Confidence::High)
        .reason(
        "No requested formula, source build, pinned formula, cask, or retained receipt dependency reaches this keg."@,
    )
        .evidence("Installed version"@, receipt.version)
        .evidence("Cellar"@, layout.cellar)
        .evidence("Architecture"@, layout.architecture)
        .copy(
        "A bottled formula installed as a dependency that is unreachable in the complete local receipt graph."@,
        "Removing it is safe only while no external/manual software links against the keg."@,
        "Review the formula name. Hokori rechecks the graph immediately before asking Homebrew to uninstall it."@,
    )
        .action(
        "uninstall-formula"@,
        seq!["brew"@, "uninstall"@, "--formula"@, receipt.full_name],
        true,
        true,
    )
}

/// The latest receipt of a formula.
pub open spec fn if_named(name: Seq<char>) -> spec_fn(RackModel) -> Option<RackModel> {
    |r: RackModel|
    if r.name == name {
        Some(r)
    } else {
        None
    }
}

/// The latest receipt of an installed formula.
pub open spec fn latest_receipt(racks: Seq<RackModel>, name: Seq<char>) -> Option<
FormulaReceiptModel,
> {
    match find_some(racks, if_named(name)) {
        Some(r) => match latest(r.receipts) {
            Some(i) => Some(r.receipts[i]),
            None => None,
        },
        None => None,
    }
}

/// The latest receipt of an installed formula.
pub fn receipt_of_formula(racks: &Vec<Rack>, name: &str) -> (r: Option<FormulaReceipt>)
    ensures
        view_of(r) == latest_receipt(views(racks@), name@),
{
    let ghost all = views(racks@);
    let ghost f = if_named(name@);
    assert(all.skip(0) =~= all);
    let mut i: usize = 0;
    while i < racks.len()
        invariant
            i <= racks@.len(),
            all == views(racks@),
            f == if_named(name@),
            find_some(all, f) == find_some(all.skip(i as int), f),
        decreases racks@.len() - i,
    {
        proof {
            lemma_find_step(all, i as int, f);
        }
        assert(all[i as int] == racks@[i as int]@);
        if same(racks[i].name.as_str(), name) {
            return match active_receipt(&racks[i].receipts) {
                Some(k) => {
                    assert(all[i as int].receipts[k as int] == racks@[i as int].receipts@[k as int]@);
                    Some(copy_receipt(&racks[i].receipts[k]))
                },
                None => None,
            };
        }
        i += 1;
    }
    proof {
        lemma_find_none(all.skip(i as int), f);
    }
    None
}

/// The finding for a formula that nothing needs.
pub open spec fn unused_row(layout: BrewLayoutModel, racks: Seq<RackModel>) -> spec_fn(
    (Seq<char>, u64),
) -> Option<FindingModel> {
    |x: (Seq<char>, u64)|
    match latest_receipt(racks, x.0) {
        Some(receipt) => Some(unused_draft(layout, x.0, receipt, x.1).build()),
        None => None,
    }
}

fn unused_finding(name: &str, bytes: u64, layout: &BrewLayout, racks: &Vec<Rack>) -> (r: Option<
    Finding,
    >)
    ensures
        view_of(r) == unused_row(layout@, views(racks@))((name@, bytes)),
{
    match receipt_of_formula(racks, name) {
        Some(receipt) => Some(ProviderFinding::object(
                metadata(),
                "homebrew-unused-dependency",
                "installed-tools",
                receipt.full_name.as_str(),
                name.to_owned().concat(": probable unused dependency").as_str(),
                Safety::Review,
                bytes,
            )
                .manual()
                .confidence(Confidence::High)
                .reason(
                "No requested formula, source build, pinned formula, cask, or retained receipt dependency reaches this keg.",
            )
                .evidence("Installed version", receipt.version.as_str())
                .evidence("Cellar", layout.cellar.as_str())
                .evidence("Architecture", layout.architecture.as_str())
                .copy(
                "A bottled formula installed as a dependency that is unreachable in the complete local receipt graph.",
                "Removing it is safe only while no external/manual software links against the keg.",
                "Review the formula name. Hokori rechecks the graph immediately before asking Homebrew to uninstall it.",
            )
                .action(
                "uninstall-formula",
                text::texts4("brew", "uninstall", "--formula", receipt.full_name.as_str()),
                true,
                true,
            )
                .build()),
        None => None,
    }
}

/// The findings for formulae that nothing needs; `bytes` says what each takes.
pub fn dependency_findings(names: &Vec<String>, bytes: &Vec<u64>, layout: &BrewLayout, racks: &Vec<Rack>) -> (r: Vec<Finding>)
    ensures
        views(r@) == collect_some(paired(views(names@), bytes@), unused_row(layout@, views(racks@))),
{
    let ghost f = unused_row(layout@, views(racks@));
    let ghost pairs = paired(views(names@), bytes@);
    let mut out: Vec<Finding> = Vec::new();

    let n: usize = names.len();
    let limit: usize = if n < bytes.len() {
        n
    } else {
        bytes.len()
    };
    let mut i: usize = 0;
    while i < limit
        invariant
            i <= limit,
            limit <= bytes@.len(),
            limit == pairs.len(),
            limit <= names@.len(),
            pairs == paired(views(names@), bytes@),
            f == unused_row(layout@, views(racks@)),
            views(out@) == collect_some(pairs.take(i as int), f),
        decreases limit - i,
    {
        proof {
            lemma_collect_step(pairs, i as int, f);
        }
        assert(pairs[i as int] == (names@[i as int]@, bytes@[i as int]));
        if let Some(x) = unused_finding(names[i].as_str(), bytes[i], layout, racks) {
            out.push(x);
        }
        i += 1;
    }
    assert(pairs.take(i as int) =~= pairs);
    out
}

// ---- where Homebrew would remove too much ----

/// A formula that Homebrew suggests to remove.
pub open spec fn suggestion() -> spec_fn(Seq<char>) -> Option<Seq<char>> {
    |line: Seq<char>|
    {
        let l = text::trimmed(line);
        if l.len() > 0 && !text::begins(l, "==>"@) && !text::begins(l, "Warning:"@) && !l.contains(
            ' ',
        ) {
            Some(short_name(l))
        } else {
            None
        }
    }
}

fn suggested(line: &str) -> (r: Option<String>)
    ensures
        view_of(r) == suggestion()(line@),
{
    let t = text::trim(line);
    let l = t.as_str();
    if !l.is_empty() && !text::starts_with(l, "==>") && !text::starts_with(l, "Warning:")
        && !text::has_char(l, ' ') {
        Some(normalize_name(l))
    } else {
        None
    }
}

fn suggestions(output: &str) -> (r: Vec<String>)
    ensures
        views(r@) == collect_some(text::lines_of(output@), suggestion()),
{
    let l = text::lines(output);
    let ghost all = views(l@);
    let ghost f = suggestion();
    let mut out: Vec<String> = Vec::new();
    let limit: usize = l.len();
    let mut i: usize = 0;
    assert(views(out@) =~= collect_some(all.take(0), f));
    while i < limit
        invariant
            i <= limit <= l@.len(),
            all == views(l@),
            f == suggestion(),
            views(out@) == collect_some(all.take(i as int), f),
        decreases limit - i,
    {
        proof {
            lemma_collect_step(all, i as int, f);
        }
        assert(all[i as int] == l@[i as int]@);
        if let Some(x) = suggested(l[i].as_str()) {
            out.push(x);
        }
        i += 1;
    }
    assert(all.take(limit as int) =~= all);
    out
}

/// The suggestions that are in use, each once.
pub open spec fn in_use_of(suggested: Seq<Seq<char>>, reachable: Seq<Seq<char>>) -> Seq<Seq<char>>
    decreases suggested.len(),
{
    if suggested.len() == 0 {
        Seq::empty()
    } else {
        let rest = in_use_of(suggested.drop_last(), reachable);
        if reachable.contains(suggested.last()) && !rest.contains(suggested.last()) {
            rest.push(suggested.last())
        } else {
            rest
        }
    }
}

/// The formulae that Homebrew suggests to remove and that are in use.
pub open spec fn disagreements_in(output: Seq<char>, reachable: Seq<Seq<char>>) -> Seq<Seq<char>> {
    in_use_of(collect_some(text::lines_of(output), suggestion()), reachable)
}

/// The formulae that Homebrew suggests to remove and that are in use.
pub fn disagreements(output: &str, reachable: &Vec<String>) -> (r: Vec<String>)
    ensures
        views(r@) == disagreements_in(output@, views(reachable@)),
{
    let s = suggestions(output);
    let ghost all = views(s@);
    let mut out: Vec<String> = Vec::new();
    let mut i: usize = 0;
    assert(views(out@) =~= in_use_of(all.take(0), views(reachable@)));
    while i < s.len()
        invariant
            i <= s@.len(),
            all == views(s@),
            views(out@) == in_use_of(all.take(i as int), views(reachable@)),
        decreases s@.len() - i,
    {
        assert(all.take(i + 1).drop_last() =~= all.take(i as int));
        assert(all[i as int] == s@[i as int]@);
        if text::among(s[i].as_str(), reachable) && !text::among(s[i].as_str(), &out) {
            out.push(s[i].clone());
        }
        i += 1;
    }
    assert(all.take(i as int) =~= all);
    out
}

/// A formula whose latest version depends on another.
pub open spec fn if_depends(name: Seq<char>) -> spec_fn(RackModel) -> Option<Seq<char>> {
    |r: RackModel|
    match latest(r.receipts) {
        Some(i) => if r.receipts[i].dependencies.contains(name) {
            Some(r.name)
        } else {
            None
        },
        None => None,
    }
}

fn depends(r: &Rack, name: &str) -> (d: Option<String>)
    ensures
        view_of(d) == if_depends(name@)(r@),
{
    match active_receipt(&r.receipts) {
        Some(i) => {
            assert(r@.receipts[i as int] == r.receipts@[i as int]@);
            if text::among(name, &r.receipts[i].dependencies) {
                Some(r.name.clone())
            } else {
                None
            }
        },
        None => None,
    }
}

/// The formulae whose latest versions depend on another.
pub fn dependents(racks: &Vec<Rack>, name: &str) -> (r: Vec<String>)
    ensures
        views(r@) == collect_some(views(racks@), if_depends(name@)),
{
    let ghost all = views(racks@);
    let ghost f = if_depends(name@);
    let mut out: Vec<String> = Vec::new();
    let limit: usize = racks.len();
    let mut i: usize = 0;
    assert(views(out@) =~= collect_some(all.take(0), f));
    while i < limit
        invariant
            i <= limit <= racks@.len(),
            all == views(racks@),
            f == if_depends(name@),
            views(out@) == collect_some(all.take(i as int), f),
        decreases limit - i,
    {
        proof {
            lemma_collect_step(all, i as int, f);
        }
        assert(all[i as int] == racks@[i as int]@);
        if let Some(x) = depends(&racks[i], name) {
            out.push(x);
        }
        i += 1;
    }
    assert(all.take(limit as int) =~= all);
    out
}

/// A name that is not among those that are known.
pub open spec fn if_omitted(known: Seq<Seq<char>>) -> spec_fn(Seq<char>) -> Option<Seq<char>> {
    |n: Seq<char>|
    if known.contains(n) {
        None
    } else {
        Some(n)
    }
}

fn omitted(n: &str, known: &Vec<String>) -> (r: Option<String>)
    ensures
        view_of(r) == if_omitted(views(known@))(n@),
{
    if text::among(n, known) {
        None
    } else {
        Some(n.to_owned())
    }
}

fn omissions(names: &Vec<String>, known: &Vec<String>) -> (r: Vec<String>)
    ensures
        views(r@) == collect_some(views(names@), if_omitted(views(known@))),
{
    let ghost all = views(names@);
    let ghost f = if_omitted(views(known@));
    let mut out: Vec<String> = Vec::new();
    let limit: usize = names.len();
    let mut i: usize = 0;
    assert(views(out@) =~= collect_some(all.take(0), f));
    while i < limit
        invariant
            i <= limit <= names@.len(),
            all == views(names@),
            f == if_omitted(views(known@)),
            views(out@) == collect_some(all.take(i as int), f),
        decreases limit - i,
    {
        proof {
            lemma_collect_step(all, i as int, f);
        }
        assert(all[i as int] == names@[i as int]@);
        if let Some(x) = omitted(names[i].as_str(), known) {
            out.push(x);
        }
        i += 1;
    }
    assert(all.take(limit as int) =~= all);
    out
}

pub open spec fn formula_name() -> spec_fn(JsonModel) -> Option<Seq<char>> {
    |f: JsonModel|
    match f.text_at("name"@) {
        Some(n) => Some(short_name(n)),
        None => None,
    }
}

/// The formulae that Homebrew knows as installed.
pub open spec fn known_in(doc: Option<JsonModel>) -> Seq<Seq<char>> {
    match doc {
        Some(d) => collect_some(d.items_at("formulae"@), formula_name()),
        None => Seq::empty(),
    }
}

fn formula_of(f: &Json) -> (r: Option<String>)
    ensures
        view_of(r) == formula_name()(f@),
{
    match f.text("name") {
        Some(n) => Some(normalize_name(n.as_str())),
        None => None,
    }
}

fn formula_names(items: &Vec<Json>) -> (r: Vec<String>)
    ensures
        views(r@) == collect_some(item_models(items@), formula_name()),
{
    let ghost all = item_models(items@);
    let ghost f = formula_name();
    let mut out: Vec<String> = Vec::new();
    let limit: usize = items.len();
    let mut i: usize = 0;
    assert(views(out@) =~= collect_some(all.take(0), f));
    while i < limit
        invariant
            i <= limit <= items@.len(),
            all == item_models(items@),
            f == formula_name(),
            views(out@) == collect_some(all.take(i as int), f),
        decreases limit - i,
    {
        proof {
            lemma_collect_step(all, i as int, f);
        }
        assert(all[i as int] == items@[i as int]@);
        if let Some(x) = formula_of(&items[i]) {
            out.push(x);
        }
        i += 1;
    }
    assert(all.take(limit as int) =~= all);
    out
}

/// The formulae that Homebrew knows as installed, from what it prints; none
/// where it does not answer.
pub fn current_formula_names(output: Option<&str>) -> (r: Vec<String>)
    ensures
        views(r@) == known_in(
            match output {
                Some(t) => json_document(t@),
                None => None,
            },
        ),
{
    if let Some(t) = output {
        if let Some(d) = parse_json(t) {
            if let Some(items) = d.array("formulae") {
                return formula_names(items);
            }
        }
    }
    Vec::new()
}

/// Names in a row, or a word where there are none.
pub open spec fn listed_or(names: Seq<Seq<char>>, otherwise: Seq<char>) -> Seq<char> {
    if names.len() == 0 {
        otherwise
    } else {
        text::joined(names, ", "@)
    }
}

fn list_or(names: &Vec<String>, otherwise: &str) -> (r: String)
    ensures
        r@ == listed_or(views(names@), otherwise@),
{
    assert(views(names@).len() == names@.len());
    if names.len() == 0 {
        otherwise.to_owned()
    } else {
        text::join(names, ", ")
    }
}

/// What is said of a formula that Homebrew suggests to remove and that is in
/// use.
pub open spec fn disagreement_draft(
    layout: BrewLayoutModel,
    name: Seq<char>,
    users: Seq<Seq<char>>,
    known: Seq<Seq<char>>,
    links: Seq<Seq<char>>,
) -> Draft {
    draft(
        homebrew(),
        "homebrew-autoremove-disagreement"@,
        "installed-tools"@,
        name,
        name + ": protected despite Homebrew autoremove"@,
        Safety::Protected,
        0,
    )
        .protected()
        .confidence(Confidence::Exact)
        .reason(
        "Homebrew proposed removal, but at least one installed receipt or cask still reaches this formula."@,
    )
        .evidence("Homebrew"@, layout.version)
        .evidence("Architecture"@, layout.architecture)
        .evidence("Receipt dependents"@, listed_or(users, "none"@))
        .evidence(
        "Current metadata omissions"@,
        listed_or(collect_some(users, if_omitted(known)), "none"@),
    )
        .evidence("Binary linkage"@, listed_or(links, "not observed"@))
        .copy(
        "A disagreement between Homebrew's resolved formula inventory and the complete installed receipt graph."@,
        "Following Homebrew's bulk autoremove output could break an installed formula from a migrated or unavailable tap."@,
        "Leave this formula installed until the dependent formula is removed or repaired."@,
    )
}

/// The finding for a formula that Homebrew suggests to remove and that is in
/// use. `known` are the formulae that Homebrew knows, `links` those whose files
/// refer to the formula.
pub fn disagreement_finding(
    layout: &BrewLayout,
    name: &str,
    racks: &Vec<Rack>,
    known: &Vec<String>,
    links: &Vec<String>,
) -> (r: Finding)
    ensures
        r@ == disagreement_draft(
            layout@,
            name@,
            collect_some(views(racks@), if_depends(name@)),
            views(known@),
            views(links@),
        ).build(),
{
    let users = dependents(racks, name);
    let missing = omissions(&users, known);
    ProviderFinding::object(
        metadata(),
        "homebrew-autoremove-disagreement",
        "installed-tools",
        name,
        name.to_owned().concat(": protected despite Homebrew autoremove").as_str(),
        Safety::Protected,
        0,
    )
        .protected()
        .confidence(Confidence::Exact)
        .reason(
        "Homebrew proposed removal, but at least one installed receipt or cask still reaches this formula.",
    )
        .evidence("Homebrew", layout.version.as_str())
        .evidence("Architecture", layout.architecture.as_str())
        .evidence("Receipt dependents", list_or(&users, "none").as_str())
        .evidence(
        "Current metadata omissions",
        list_or(&missing, "none").as_str(),
    )
        .evidence("Binary linkage", list_or(links, "not observed").as_str())
        .copy(
        "A disagreement between Homebrew's resolved formula inventory and the complete installed receipt graph.",
        "Following Homebrew's bulk autoremove output could break an installed formula from a migrated or unavailable tap.",
        "Leave this formula installed until the dependent formula is removed or repaired.",
    )
        .build()
}

/// What the files of a dependent hold where they refer to a formula.
pub fn link_text(prefix: &str, dependency: &str) -> (r: String)
    ensures
        r@ == prefix@ + "/opt/"@ + dependency@ + "/"@,
{
    prefix.to_owned().concat("/opt/").concat(dependency).concat("/")
}

/// Whether some bytes stand in others.
pub open spec fn holds_bytes(bytes: Seq<u8>, needle: Seq<u8>) -> bool {
    exists|i: int|
    0 <= i && i + needle.len() <= bytes.len() && #[trigger] bytes.subrange(
        i,
        i + needle.len(),
    ) == needle
}

fn bytes_at(bytes: &[u8], i: usize, needle: &[u8]) -> (r: bool)
    requires
        i + needle@.len() <= bytes@.len(),
    ensures
        r == (bytes@.subrange(i as int, i + needle@.len()) == needle@),
{
    let ghost s = bytes@.subrange(i as int, i + needle@.len());
    let n: usize = bytes.len();
    let mut j: usize = 0;
    while j < needle.len()
        invariant
            j <= needle@.len(),
            n == bytes@.len(),
            i + needle@.len() <= n,
            s == bytes@.subrange(i as int, i + needle@.len()),
            forall|k: int| 0 <= k < j ==> s[k] == needle@[k],
        decreases needle@.len() - j,
    {
        if bytes[i + j] != needle[j] {
            assert(s[j as int] != needle@[j as int]);
            return false;
        }
        j += 1;
    }
    assert(s =~= needle@);
    true
}

/// Whether some bytes stand in the contents of a file.
pub fn contains_bytes(bytes: &[u8], needle: &[u8]) -> (r: bool)
    ensures
        r == holds_bytes(bytes@, needle@),
{
    let n: usize = bytes.len();
    let m: usize = needle.len();
    if n < m {
        return false;
    }
    let mut i: usize = 0;
    while i <= n - m
        invariant
            n == bytes@.len(),
            m == needle@.len(),
            m <= n,
            i <= n - m + 1,
            forall|k: int| 0 <= k < i ==> #[trigger] bytes@.subrange(k, k + m) != needle@,
        decreases n - m + 1 - i,
    {
        if bytes_at(bytes, i, needle) {
            assert(bytes@.subrange(i as int, i + needle@.len()) == needle@);
            return true;
        }
        if i == n - m {
            return false;
        }
        i += 1;
    }
    false
}

/// Whether the search for references goes on into a directory.
pub fn links_descend(depth: usize, inspected: usize) -> (r: bool)
    ensures
        r == (depth <= 8 && inspected < 500),
{
    depth <= 8 && inspected < 500
}

/// Whether a file is small enough to be searched.
pub fn is_searched(len: u64) -> (r: bool)
    ensures
        r == (len <= 32 * 1024 * 1024),
{
    len <= 0x200_0000
}

// ---- downloads ----

/// What is done with an entry of the cache.
#[derive(Debug, Clone, Copy, PartialEq, Eq, Structural)]
pub enum CacheStep {
    /// It is looked at in turn.
    Enter,
    /// A download that was not completed.
    Incomplete,
    /// A download that is older than Homebrew keeps them.
    Old,
    Skip,
}

/// Whether a name is that of a download that was not completed.
pub open spec fn is_incomplete(name: Seq<char>) -> bool {
    text::ends(text::lowered(name), ".incomplete"@) || text::occurs(
        text::lowered(name),
        ".incomplete."@,
    )
}

/// What is done with an entry of the cache.
pub open spec fn cache_choice(
    cache: Seq<char>,
    path: Seq<char>,
    name: Seq<char>,
    is_symlink: bool,
    is_dir: bool,
    age: u64,
) -> CacheStep {
    if !under(path, cache) || is_symlink {
        CacheStep::Skip
    } else if is_dir {
        CacheStep::Enter
    } else if is_incomplete(name) {
        CacheStep::Incomplete
    } else if age >= 120 {
        CacheStep::Old
    } else {
        CacheStep::Skip
    }
}

/// What is done with an entry of the cache.
pub fn cache_step(
    cache: &str,
    path: &str,
    name: &str,
    is_symlink: bool,
    is_dir: bool,
    age: u64,
) -> (r: CacheStep)
    ensures
        r == cache_choice(cache@, path@, name@, is_symlink, is_dir, age),
{
    let lower = text::to_ascii_lowercase(name);
    if !paths::starts_with(path, cache) || is_symlink {
        CacheStep::Skip
    } else if is_dir {
        CacheStep::Enter
    } else if text::ends_with(lower.as_str(), ".incomplete") || text::contains(
        lower.as_str(),
        ".incomplete.",
    ) {
        CacheStep::Incomplete
    } else if age >= 120 {
        CacheStep::Old
    } else {
        CacheStep::Skip
    }
}

/// Whether the search of the cache goes on into a directory.
pub fn cache_descends(depth: usize, cancelled: bool) -> (r: bool)
    ensures
        r == (depth <= 12 && !cancelled),
{
    depth <= 12 && !cancelled
}

/// Whether the search for stale files goes on into a directory.
pub fn stale_descends(depth: usize, found: usize) -> (r: bool)
    ensures
        r == (depth <= 12 && found < 50_000),
{
    depth <= 12 && found < 50_000
}

/// An old download that is not listed as stale.
pub open spec fn if_not_stale(stale: Seq<Seq<char>>) -> spec_fn(Seq<char>) -> Option<Seq<char>> {
    |p: Seq<char>|
    if exists|i: int| 0 <= i < stale.len() && paths::equal_paths(p, #[trigger] stale[i]) {
        None
    } else {
        Some(p)
    }
}

fn not_stale(p: &str, stale: &Vec<String>) -> (r: Option<String>)
    ensures
        view_of(r) == if_not_stale(views(stale@))(p@),
{
    let ghost all = views(stale@);
    let found = paths::among_paths(p, stale);
    proof {
        if found {
            let i = choose|i: int|
            0 <= i < stale@.len() && paths::equal_paths(p@, #[trigger] stale@[i]@);
            assert(paths::equal_paths(p@, all[i]));
        }
        if exists|i: int| 0 <= i < all.len() && paths::equal_paths(p@, #[trigger] all[i]) {
            let i = choose|i: int| 0 <= i < all.len() && paths::equal_paths(p@, #[trigger] all[i]);
            assert(paths::equal_paths(p@, stale@[i]@));
        }
    }
    if found {
        None
    } else {
        Some(p.to_owned())
    }
}

/// The old downloads that are not listed as stale.
pub fn old_downloads(old: &Vec<String>, stale: &Vec<String>) -> (r: Vec<String>)
    ensures
        views(r@) == collect_some(views(old@), if_not_stale(views(stale@))),
{
    let ghost all = views(old@);
    let ghost f = if_not_stale(views(stale@));
    let mut out: Vec<String> = Vec::new();
    let limit: usize = old.len();
    let mut i: usize = 0;
    assert(views(out@) =~= collect_some(all.take(0), f));
    while i < limit
        invariant
            i <= limit <= old@.len(),
            all == views(old@),
            f == if_not_stale(views(stale@)),
            views(out@) == collect_some(all.take(i as int), f),
        decreases limit - i,
    {
        proof {
            lemma_collect_step(all, i as int, f);
        }
        assert(all[i as int] == old@[i as int]@);
        if let Some(x) = not_stale(old[i].as_str(), stale) {
            out.push(x);
        }
        i += 1;
    }
    assert(all.take(limit as int) =~= all);
    out
}

/// Whether a command of Homebrew changes its cache.
pub open spec fn uses_cache(command: Seq<char>) -> bool {
    text::occurs(command, "brew install"@) || text::occurs(command, "brew upgrade"@)
        || text::occurs(command, "brew cleanup"@)
}

/// Whether one of some commands changes the cache.
pub open spec fn cache_in_use(commands: Seq<Seq<char>>) -> bool {
    exists|i: int| 0 <= i < commands.len() && uses_cache(#[trigger] commands[i])
}

fn brew_runs(commands: &Vec<String>) -> (r: bool)
    ensures
        r == cache_in_use(views(commands@)),
{
    let ghost all = views(commands@);
    let mut i: usize = 0;
    while i < commands.len()
        invariant
            i <= commands@.len(),
            all == views(commands@),
            forall|j: int| 0 <= j < i ==> !uses_cache(#[trigger] all[j]),
        decreases commands@.len() - i,
    {
        assert(all[i as int] == commands@[i as int]@);
        let c = commands[i].as_str();
        if text::contains(c, "brew install") || text::contains(c, "brew upgrade") || text::contains(
            c,
            "brew cleanup",
        ) {
            return true;
        }
        i += 1;
    }
    false
}

/// What is said of files of the cache.
pub open spec fn cache_draft(
    layout: BrewLayoutModel,
    rule: Seq<char>,
    object: Seq<char>,
    label: Seq<char>,
    files: Seq<Seq<char>>,
    bytes: u64,
    reason: Seq<char>,
) -> Draft {
    draft(
        homebrew(),
        rule,
        "package-manager-cache"@,
        object,
        label,
        Safety::Safe,
        bytes,
    )
        .grouped_paths(files)
        .supersedes("homebrew-cache"@)
        .reason(reason)
        .evidence("Homebrew"@, layout.version)
        .evidence("Architecture"@, layout.architecture)
        .evidence("Cache"@, layout.cache)
        .copy(
        "Download and metadata files owned by Homebrew's cache."@,
        "Homebrew downloads the selected files again if they are needed."@,
        "Safe to clean when no Homebrew install or upgrade is currently running."@,
    )
        .action(
        "delete-cache-paths"@,
        seq!["remove exact Homebrew cache paths"@],
        false,
        false,
    )
}

/// The finding for files of the cache, where there are any; they are in use
/// while a command of Homebrew changes the cache.
pub open spec fn cache_rows(
    layout: BrewLayoutModel,
    rule: Seq<char>,
    object: Seq<char>,
    label: Seq<char>,
    files: Seq<Seq<char>>,
    bytes: u64,
    reason: Seq<char>,
    active: bool,
) -> Seq<FindingModel> {
    let d = cache_draft(layout, rule, object, label, files, bytes, reason);
    if files.len() == 0 {
        Seq::empty()
    } else if active {
        seq![d.in_use().build()]
    } else {
        seq![d.build()]
    }
}

fn cache_group(
    layout: &BrewLayout,
    rule: &str,
    object: &str,
    label: &str,
    files: Vec<String>,
    bytes: u64,
    reason: &str,
    active: bool,
) -> (r: Vec<Finding>)
    ensures
        views(r@) == cache_rows(
            layout@,
            rule@,
            object@,
            label@,
            views(files@),
            bytes,
            reason@,
            active,
        ),
{
    let ghost fs = views(files@);
    assert(fs.len() == files@.len());
    let mut out: Vec<Finding> = Vec::new();
    if files.len() == 0 {
        return out;
    }
    let builder = ProviderFinding::object(
        metadata(),
        rule,
        "package-manager-cache",
        object,
        label,
        Safety::Safe,
        bytes,
    )
        .grouped_paths(files)
        .supersedes("homebrew-cache")
        .reason(reason)
        .evidence("Homebrew", layout.version.as_str())
        .evidence("Architecture", layout.architecture.as_str())
        .evidence("Cache", layout.cache.as_str())
        .copy(
        "Download and metadata files owned by Homebrew's cache.",
        "Homebrew downloads the selected files again if they are needed.",
        "Safe to clean when no Homebrew install or upgrade is currently running.",
    )
        .action(
        "delete-cache-paths",
        text::texts1("remove exact Homebrew cache paths"),
        false,
        false,
    );
    let finding = if active {
        builder.in_use().build()
    } else {
        builder.build()
    };
    out.push(finding);
    assert(views(out@) =~= cache_rows(layout@, rule@, object@, label@, fs, bytes, reason@, active));
    out
}

/// Files of the cache, and what they take together.
pub struct CacheFiles {
    pub paths: Vec<String>,
    pub bytes: u64,
}

/// The findings for the cache of Homebrew: downloads that were not completed,
/// old ones, and sources of taps that have moved on.
pub fn cache_findings(
    layout: &BrewLayout,
    incomplete: CacheFiles,
    old_files: CacheFiles,
    stale: CacheFiles,
    commands: &Vec<String>,
) -> (r: Vec<Finding>)
    ensures
        views(r@) == cache_rows(
            layout@,
            "homebrew-incomplete-downloads"@,
            "incomplete-downloads"@,
            "Incomplete Homebrew downloads"@,
            views(incomplete.paths@),
            incomplete.bytes,
            "These partial downloads cannot be installed and Homebrew will fetch them again."@,
            cache_in_use(views(commands@)),
        ) + cache_rows(
            layout@,
            "homebrew-old-cache"@,
            "old-cache"@,
            "Homebrew downloads older than 120 days"@,
            views(old_files.paths@),
            old_files.bytes,
            "These files exceed Homebrew's normal cache-retention window."@,
            cache_in_use(views(commands@)),
        ) + cache_rows(
            layout@,
            "homebrew-stale-api-metadata"@,
            "stale-api-metadata"@,
            "Stale Homebrew API source metadata"@,
            views(stale.paths@),
            stale.bytes,
            "The cached tap commit does not match the current local tap HEAD."@,
            cache_in_use(views(commands@)),
        ),
{
    let active = brew_runs(commands);
    let mut r = cache_group(
        layout,
        "homebrew-incomplete-downloads",
        "incomplete-downloads",
        "Incomplete Homebrew downloads",
        incomplete.paths,
        incomplete.bytes,
        "These partial downloads cannot be installed and Homebrew will fetch them again.",
        active,
    );
    let mut a = cache_group(
        layout,
        "homebrew-old-cache",
        "old-cache",
        "Homebrew downloads older than 120 days",
        old_files.paths,
        old_files.bytes,
        "These files exceed Homebrew's normal cache-retention window.",
        active,
    );
    let mut b = cache_group(
        layout,
        "homebrew-stale-api-metadata",
        "stale-api-metadata",
        "Stale Homebrew API source metadata",
        stale.paths,
        stale.bytes,
        "The cached tap commit does not match the current local tap HEAD.",
        active,
    );
    r.append(&mut a);
    r.append(&mut b);
    r
}

// ---- taps ----

/// The commit that a tap is at.
pub struct TapHead {
    pub organization: String,
    pub repository: String,
    pub head: String,
}

#[verifier::ext_equal]
pub struct TapHeadModel {
    pub organization: Seq<char>,
    pub repository: Seq<char>,
    pub head: Seq<char>,
}

impl View for TapHead {
    type V = TapHeadModel;

    open spec fn view(&self) -> TapHeadModel {
        TapHeadModel {
            organization: self.organization@,
            repository: self.repository@,
            head: self.head@,
        }
    }
}

pub open spec fn if_tap(organization: Seq<char>, repository: Seq<char>) -> spec_fn(TapHeadModel) -> Option<
Seq<char>,
> {
    |t: TapHeadModel|
    if t.organization == organization && t.repository == repository {
        Some(t.head)
    } else {
        None
    }
}

/// The commit that the tap of a cached source is at.
pub open spec fn head_of(heads: Seq<TapHeadModel>, organization: Seq<char>, repository: Seq<char>) -> Option<
Seq<char>,
> {
    match find_some(heads, if_tap(organization, repository)) {
        Some(h) => Some(h),
        None => find_some(heads, if_tap(organization, "homebrew-"@ + repository)),
    }
}

fn find_tap(heads: &Vec<TapHead>, organization: &str, repository: &str) -> (r: Option<String>)
    ensures
        view_of(r) == find_some(views(heads@), if_tap(organization@, repository@)),
{
    let ghost all = views(heads@);
    let ghost f = if_tap(organization@, repository@);
    assert(all.skip(0) =~= all);
    let mut i: usize = 0;
    while i < heads.len()
        invariant
            i <= heads@.len(),
            all == views(heads@),
            f == if_tap(organization@, repository@),
            find_some(all, f) == find_some(all.skip(i as int), f),
        decreases heads@.len() - i,
    {
        proof {
            lemma_find_step(all, i as int, f);
        }
        assert(all[i as int] == heads@[i as int]@);
        if same(heads[i].organization.as_str(), organization) && same(
            heads[i].repository.as_str(),
            repository,
        ) {
            return Some(heads[i].head.clone());
        }
        i += 1;
    }
    proof {
        lemma_find_none(all.skip(i as int), f);
    }
    None
}

/// The commit that the tap of a cached source is at; sources of other commits
/// are stale.
pub fn tap_head(heads: &Vec<TapHead>, organization: &str, repository: &str) -> (r: Option<String>)
    ensures
        view_of(r) == head_of(views(heads@), organization@, repository@),
{
    match find_tap(heads, organization, repository) {
        Some(h) => Some(h),
        None => {
            let prefixed = "homebrew-".to_owned().concat(repository);
            find_tap(heads, organization, prefixed.as_str())
        },
    }
}

/// The reference that the head of a repository follows, where it follows one.
pub fn head_reference(head: &str) -> (r: Option<String>)
    ensures
        view_of(r) == text::without_prefix(text::trimmed(head@), "ref: "@),
{
    text::strip_prefix(text::trim(head).as_str(), "ref: ")
}

/// The commit of a reference, in a line of the packed references.
pub open spec fn packed_line(reference: Seq<char>) -> spec_fn(Seq<char>) -> Option<Seq<char>> {
    |line: Seq<char>|
    match text::halves(line, ' ') {
        Some((hash, name)) => if name == reference {
            Some(hash)
        } else {
            None
        },
        None => None,
    }
}

/// The commit of a repository. `loose` is the file of the reference that the
/// head follows, `packed` that of the packed references.
pub open spec fn commit_of(
    head: Seq<char>,
    loose: Option<Seq<char>>,
    packed: Option<Seq<char>>,
) -> Option<Seq<char>> {
    match text::without_prefix(text::trimmed(head), "ref: "@) {
        None => Some(text::trimmed(head)),
        Some(reference) => match loose {
            Some(v) => Some(text::trimmed(v)),
            None => match packed {
                Some(p) => find_some(text::lines_of(p), packed_line(reference)),
                None => None,
            },
        },
    }
}

fn find_packed(packed: &str, reference: &str) -> (r: Option<String>)
    ensures
        view_of(r) == find_some(text::lines_of(packed@), packed_line(reference@)),
{
    let l = text::lines(packed);
    let ghost all = text::lines_of(packed@);
    let ghost f = packed_line(reference@);
    assert(all.skip(0) =~= all);
    let mut i: usize = 0;
    while i < l.len()
        invariant
            i <= l@.len(),
            all == views(l@),
            all == text::lines_of(packed@),
            f == packed_line(reference@),
            find_some(all, f) == find_some(all.skip(i as int), f),
        decreases l@.len() - i,
    {
        proof {
            lemma_find_step(all, i as int, f);
        }
        assert(all[i as int] == l@[i as int]@);
        if let Some((hash, name)) = text::split_once(l[i].as_str(), ' ') {
            if same(name.as_str(), reference) {
                return Some(hash);
            }
        }
        i += 1;
    }
    proof {
        lemma_find_none(all.skip(i as int), f);
    }
    None
}

/// The commit that a repository is at.
pub fn read_git_head(head: &str, loose: Option<&str>, packed: Option<&str>) -> (r: Option<String>)
    ensures
        view_of(r) == commit_of(head@, text::shown(loose), text::shown(packed)),
{
    match head_reference(head) {
        None => Some(text::trim(head)),
        Some(reference) => match loose {
            Some(v) => Some(text::trim(v)),
            None => match packed {
                Some(p) => find_packed(p, reference.as_str()),
                None => None,
            },
        },
    }
}

// ---- actions ----

/// What keeps a path of the cache from being removed; the second part says
/// whether it is there.
pub open spec fn path_obstacle(cache: Seq<char>) -> spec_fn((Seq<char>, bool)) -> Option<
RevalidationModel,
> {
    |x: (Seq<char>, bool)|
    if !under(x.0, cache) {
        Some(RevalidationModel::Blocked("A selected path is outside Homebrew's cache."@))
    } else if !x.1 {
        Some(RevalidationModel::Changed(x.0 + " no longer exists."@))
    } else {
        None
    }
}

/// What a second look at paths of the cache says.
pub open spec fn paths_say(
    cache: Seq<char>,
    files: Seq<Seq<char>>,
    exists: Seq<bool>,
) -> RevalidationModel {
    if files.len() == 0 {
        RevalidationModel::Gone("Cache paths no longer exist."@)
    } else {
        match find_some(paired(files, exists), path_obstacle(cache)) {
            Some(v) => v,
            None => RevalidationModel::Valid,
        }
    }
}

/// What a second look at a finding says. `there` says of each of its paths
/// whether it is there, `refreshed` is what a fresh scan finds.
pub open spec fn rechecked(
    finding: FindingModel,
    cache: Seq<char>,
    there: Seq<bool>,
    refreshed: Seq<Finding>,
) -> Result<RevalidationModel, Seq<char>> {
    match finding.native_action {
        None => Err("Homebrew finding has no native action"@),
        Some(a) => if a.action_id == "delete-cache-paths"@ {
            Ok(paths_say(cache, target_paths(finding.target), there))
        } else if a.action_id == "cleanup-formula"@ || a.action_id == "uninstall-formula"@ {
            Ok(
                revalidated(
                    refreshed,
                    finding.stable_id,
                    "Homebrew metadata changed and this object is no longer a candidate."@,
                ),
            )
        } else {
            Ok(RevalidationModel::Blocked("Unknown Homebrew action."@))
        },
    }
}

fn check_paths(cache: &str, files: &Vec<String>, there: &Vec<bool>) -> (r: Revalidation)
    ensures
        r@ == paths_say(cache@, views(files@), there@),
{
    assert(views(files@).len() == files@.len());
    if files.len() == 0 {
        return Revalidation::Gone("Cache paths no longer exist.".to_owned());
    }
    let ghost all = paired(views(files@), there@);
    let ghost f = path_obstacle(cache@);
    assert(all.skip(0) =~= all);
    let n: usize = if files.len() < there.len() {
        files.len()
    } else {
        there.len()
    };
    let mut i: usize = 0;
    while i < n
        invariant
            i <= n,
            n <= files@.len(),
            n <= there@.len(),
            files@.len() > 0,
            n == all.len(),
            all == paired(views(files@), there@),
            f == path_obstacle(cache@),
            find_some(all, f) == find_some(all.skip(i as int), f),
        decreases n - i,
    {
        proof {
            lemma_find_step(all, i as int, f);
        }
        assert(all[i as int] == (files@[i as int]@, there@[i as int]));
        if !paths::starts_with(files[i].as_str(), cache) {
            return Revalidation::Blocked("A selected path is outside Homebrew's cache.".to_owned());
        }
        if !there[i] {
            return Revalidation::Changed(files[i].clone().concat(" no longer exists."));
        }
        i += 1;
    }
    proof {
        lemma_find_none(all.skip(i as int), f);
    }
    Revalidation::Valid
}

/// A second look at a finding before its action runs.
pub fn recheck(finding: &Finding, cache: &str, there: &Vec<bool>, refreshed: &Vec<Finding>) -> (r:
    Result<Revalidation, String>)
    ensures
        match (r, rechecked(finding@, cache@, there@, refreshed@)) {
            (Ok(v), Ok(m)) => v@ == m,
            (Err(e), Err(m)) => e@ == m,
            _ => false,
        },
{
    let a = match &finding.native_action {
        Some(a) => a,
        None => {
            return Err("Homebrew finding has no native action".to_owned());
        },
    };
    let id = a.action_id.as_str();
    if same(id, "delete-cache-paths") {
        let files = finding_paths(finding);
        Ok(check_paths(cache, &files, there))
    } else if same(id, "cleanup-formula") || same(id, "uninstall-formula") {
        Ok(
            revalidate_against(
                refreshed,
                finding,
                "Homebrew metadata changed and this object is no longer a candidate.",
            ),
        )
    } else {
        Ok(Revalidation::Blocked("Unknown Homebrew action.".to_owned()))
    }
}

/// How an action is carried out.
pub enum BrewStep {
    /// By removing paths.
    Remove(Vec<String>),
    /// By a command.
    Command(CommandPolicy, Vec<String>),
}

/// Whether a step is the one for an action.
pub open spec fn carries_out(finding: FindingModel, action: Seq<char>, object: Seq<char>, step: BrewStep) -> bool {
    match step {
        BrewStep::Remove(files) => action == "delete-cache-paths"@ && views(files@) == target_paths(
            finding.target,
        ),
        BrewStep::Command(p, args) => ({
                ||| action == "cleanup-formula"@ && is_policy(
                    p,
                    "homebrew-cleanup-formula"@,
                    brew_executables(),
                    true,
                    false,
                    seq![Arg::Is("cleanup"), Arg::Token],
                ) && views(args@)
                    == seq!["cleanup"@, object]
                ||| action == "uninstall-formula"@ && is_policy(
                    p,
                    "homebrew-uninstall-formula"@,
                    brew_executables(),
                    true,
                    false,
                    seq![Arg::Is("uninstall"), Arg::Is("--formula"), Arg::Token],
                ) && views(
                    args@,
                ) == seq!["uninstall"@, "--formula"@, object]
        }),
    }
}

/// How the action of a finding is carried out.
pub fn plan_action(finding: &Finding) -> (r: Result<BrewStep, String>)
    ensures
        match finding.native_action {
            None => r matches Err(e) && e@ == "Homebrew action missing"@,
            Some(a) => match r {
                Ok(step) => carries_out(finding@, a.action_id@, a.object_id@, step),
                Err(e) => a.action_id@ != "delete-cache-paths"@ && a.action_id@ != "cleanup-formula"@
                    && a.action_id@ != "uninstall-formula"@ && e@ == "unknown Homebrew action "@
                    + a.action_id@,
            },
        },
{
    match &finding.native_action {
        None => Err("Homebrew action missing".to_owned()),
        Some(a) => {
            let id = a.action_id.as_str();
            let object = a.object_id.as_str();
            if same(id, "delete-cache-paths") {
                Ok(BrewStep::Remove(finding_paths(finding)))
            } else if same(id, "cleanup-formula") {
                Ok(BrewStep::Command(brew_cleanup_formula(), text::texts2("cleanup", object)))
            } else if same(id, "uninstall-formula") {
                Ok(
                    BrewStep::Command(
                        brew_uninstall_formula(),
                        text::texts3("uninstall", "--formula", object),
                    ),
                )
            } else {
                Err("unknown Homebrew action ".to_owned().concat(id))
            }
        },
    }
}

/// What is reported once an action has run; `removed` is how many paths went.
pub open spec fn outcome_text(action: Seq<char>, object: Seq<char>) -> Seq<char> {
    if action == "delete-cache-paths"@ {
        "Homebrew cache paths removed."@
    } else if action == "cleanup-formula"@ {
        "Cleaned old Homebrew kegs for "@ + object + "."@
    } else {
        "Uninstalled unused formula "@ + object + "."@
    }
}

/// What is reported once an action has run; `removed` is how many paths went.
pub fn executed(finding: &Finding, removed: u64) -> (r: Option<ProviderExecution>)
    ensures
        match (finding.native_action, r) {
            (None, None) => true,
            (Some(a), Some(e)) => e.freed_bytes == finding.bytes && e.message@ == outcome_text(
                a.action_id@,
                a.object_id@,
            ) && e.deleted == (if a.action_id@ == "delete-cache-paths"@ {
                    removed
                } else {
                    1
            }),
            _ => false,
        },
{
    match &finding.native_action {
        None => None,
        Some(a) => {
            let id = a.action_id.as_str();
            let object = a.object_id.as_str();
            if same(id, "delete-cache-paths") {
                Some(
                    ProviderExecution {
                        deleted: removed,
                        freed_bytes: finding.bytes,
                        message: "Homebrew cache paths removed.".to_owned(),
                    },
                )
            } else {
                let message = if same(id, "cleanup-formula") {
                    "Cleaned old Homebrew kegs for ".to_owned().concat(object).concat(".")
                } else {
                    "Uninstalled unused formula ".to_owned().concat(object).concat(".")
                };
                Some(ProviderExecution { deleted: 1, freed_bytes: finding.bytes, message })
            }
        },
    }
}

// ---- laws ----

/// What is reached is never unused.
pub proof fn law_reachable_is_not_unused(
    racks: Seq<RackModel>,
    k: KeepersModel,
    name: Seq<char>,
)
    ensures
        !(is_reachable(racks, roots_of(racks, k), name) && is_unused(racks, roots_of(racks, k), name)),
{
}

/// What a kept formula depends on is kept too, also under another name.
pub proof fn law_dependencies_are_kept(
    racks: Seq<RackModel>,
    roots: Seq<Seq<char>>,
    name: Seq<char>,
    i: int,
)
    requires
        is_reachable(racks, roots, name),
        0 <= i < dependencies_of(racks, name).len(),
    ensures
        is_reachable(racks, roots, resolved(racks, dependencies_of(racks, name)[i])),
{
    let n = choose|n: nat| #[trigger] reached_in(racks, roots, name, n);
    assert(reached_in(racks, roots, resolved(racks, dependencies_of(racks, name)[i]), n + 1));
}

/// A formula that was asked for, built from source, pinned, linked or excluded
/// from cleaning is never unused, unless its name is an alias of another.
pub proof fn law_roots_are_kept(racks: Seq<RackModel>, k: KeepersModel, i: int)
    requires
        0 <= i < racks.len(),
        is_root(k, racks[i]),
        alias_target(racks, racks[i].name) is None,
    ensures
        is_reachable(racks, roots_of(racks, k), racks[i].name),
        !is_unused(racks, roots_of(racks, k), racks[i].name),
{
    let roots = roots_of(racks, k);
    let own = collect_some(racks, if_root(k));
    crate::seqs::lemma_collected(racks, if_root(k), i);
    let j = choose|j: int| 0 <= j < own.len() && Some(#[trigger] own[j]) == if_root(k)(racks[i]);
    assert(roots[j] == racks[i].name);
    assert(reached_in(racks, roots, racks[i].name, 0));
}

/// What casks depend on is kept.
pub proof fn law_casks_keep_formulae(racks: Seq<RackModel>, k: KeepersModel, i: int)
    requires
        0 <= i < k.casks.len(),
    ensures
        is_reachable(racks, roots_of(racks, k), resolved(racks, k.casks[i])),
{
    let roots = roots_of(racks, k);
    let own = collect_some(racks, if_root(k));
    assert(roots[own.len() + i] == k.casks[i]);
    assert(reached_in(racks, roots, resolved(racks, k.casks[i]), 0));
}

/// Where Homebrew would remove what is in use, nothing can be done about it.
pub proof fn law_disagreements_are_protected(
    layout: BrewLayoutModel,
    name: Seq<char>,
    users: Seq<Seq<char>>,
    known: Seq<Seq<char>>,
    links: Seq<Seq<char>>,
)
    ensures
        disagreement_draft(layout, name, users, known, links).build().report_only,
        disagreement_draft(layout, name, users, known, links).build().native_action is None,
        disagreement_draft(layout, name, users, known, links).build().bytes == 0,
{
}

/// A command for an action is one that its own policy accepts, where the object is a
/// name that can be handed to a tool.
pub proof fn law_planned_commands_are_admitted(
    finding: FindingModel,
    action: Seq<char>,
    object: Seq<char>,
    p: CommandPolicy,
    args: Vec<String>,
)
    requires
        carries_out(finding, action, object, BrewStep::Command(p, args)),
        is_token(object),
    ensures
        admits(p.args@, views(args@)),
{
}

/// Without receipts that name it, a name stands for itself.
pub proof fn law_plain_names_stand_for_themselves(racks: Seq<RackModel>, name: Seq<char>)
    requires
        forall|m: int, j: int|
        #![trigger racks[m].receipts[j]]
        0 <= m < racks.len() && 0 <= j < racks[m].receipts.len() ==> !racks[m].receipts[j].aliases.contains(
            name,
        ),
    ensures
        resolved(racks, name) == name,
        alias_target(racks, name) is None,
    decreases racks.len(),
{
    if racks.len() > 0 {
        let last = racks.len() - 1;
        assert forall|j: int| 0 <= j < racks.last().receipts.len() implies !(
        #[trigger] racks.last().receipts[j]).aliases.contains(name) by {
            assert(racks[last].receipts[j] == racks.last().receipts[j]);
        }
        assert forall|m: int, j: int|
        #![trigger racks.drop_last()[m].receipts[j]]
        0 <= m < racks.drop_last().len() && 0 <= j < racks.drop_last()[m].receipts.len()
            implies !racks.drop_last()[m].receipts[j].aliases.contains(name) by {
            assert(racks[m].receipts[j] == racks.drop_last()[m].receipts[j]);
        }
        law_plain_names_stand_for_themselves(racks.drop_last(), name);
    }
}

/// An alias stands for the formula whose receipt has it, where no formula after it
/// has it too.
pub proof fn law_aliases_stand_for_formulae(racks: Seq<RackModel>, name: Seq<char>, m: int, j: int)
    requires
        0 <= m < racks.len(),
        0 <= j < racks[m].receipts.len(),
        racks[m].receipts[j].aliases.contains(name),
        forall|n: int, i: int|
        #![trigger racks[n].receipts[i]]
        m < n < racks.len() && 0 <= i < racks[n].receipts.len() ==> !racks[n].receipts[i].aliases.contains(
            name,
        ),
    ensures
        resolved(racks, name) == racks[m].name,
    decreases racks.len(),
{
    let last = racks.len() - 1;
    if m == last {
        assert(racks.last().receipts[j].aliases.contains(name));
        assert(has_alias(racks.last(), name));
    } else {
        assert forall|i: int| 0 <= i < racks.last().receipts.len() implies !(
        #[trigger] racks.last().receipts[i]).aliases.contains(name) by {
            assert(racks[last].receipts[i] == racks.last().receipts[i]);
        }
        assert(!has_alias(racks.last(), name));
        assert forall|n: int, i: int|
        #![trigger racks.drop_last()[n].receipts[i]]
        m < n < racks.drop_last().len() && 0 <= i < racks.drop_last()[n].receipts.len()
            implies !racks.drop_last()[n].receipts[i].aliases.contains(name) by {
            assert(racks[n].receipts[i] == racks.drop_last()[n].receipts[i]);
        }
        assert(racks.drop_last()[m] == racks[m]);
        law_aliases_stand_for_formulae(racks.drop_last(), name, m, j);
    }
}

/// A formula that is pinned, linked or excluded from cleaning, or of which a version
/// was asked for, says nothing of a request or was built from source, is in use and
/// never among those that can go, unless its name is an alias of another.
pub proof fn law_kept_formulae_are_in_use(racks: Seq<RackModel>, k: KeepersModel, i: int)
    requires
        0 <= i < racks.len(),
        k.pinned.contains(racks[i].name) || k.linked.contains(racks[i].name) || k.excluded.contains(
            racks[i].name,
        ) || exists|j: int|
        0 <= j < racks[i].receipts.len() && ((#[trigger] racks[i].receipts[j]).requested == Some(true)
            || racks[i].receipts[j].requested is None || !racks[i].receipts[j].poured_from_bottle),
        forall|m: int, j: int|
        #![trigger racks[m].receipts[j]]
        0 <= m < racks.len() && 0 <= j < racks[m].receipts.len() ==> !racks[m].receipts[j].aliases.contains(
            racks[i].name,
        ),
    ensures
        is_reachable(racks, roots_of(racks, k), racks[i].name),
        !is_unused(racks, roots_of(racks, k), racks[i].name),
{
    law_plain_names_stand_for_themselves(racks, racks[i].name);
    if exists|j: int|
        0 <= j < racks[i].receipts.len() && ((#[trigger] racks[i].receipts[j]).requested == Some(true)
            || racks[i].receipts[j].requested is None || !racks[i].receipts[j].poured_from_bottle) {
        let j = choose|j: int|
        0 <= j < racks[i].receipts.len() && ((#[trigger] racks[i].receipts[j]).requested == Some(true)
            || racks[i].receipts[j].requested is None || !racks[i].receipts[j].poured_from_bottle);
        assert(!is_dependency_only(racks[i].receipts[j]));
    }
    law_roots_are_kept(racks, k, i);
}

/// What a cask depends on is in use and never among the formulae that can go, unless
/// its name is an alias of another.
pub proof fn law_formulae_of_casks_are_in_use(racks: Seq<RackModel>, k: KeepersModel, name: Seq<char>)
    requires
        k.casks.contains(name),
        forall|m: int, j: int|
        #![trigger racks[m].receipts[j]]
        0 <= m < racks.len() && 0 <= j < racks[m].receipts.len() ==> !racks[m].receipts[j].aliases.contains(
            name,
        ),
    ensures
        is_reachable(racks, roots_of(racks, k), name),
        !is_unused(racks, roots_of(racks, k), name),
{
    law_plain_names_stand_for_themselves(racks, name);
    let i = choose|i: int| 0 <= i < k.casks.len() && k.casks[i] == name;
    law_casks_keep_formulae(racks, k, i);
}

/// What a version of a formula that is in use depends on is in use too, unless its
/// name is an alias of another.
pub proof fn law_dependencies_are_in_use(
    racks: Seq<RackModel>,
    roots: Seq<Seq<char>>,
    i: int,
    j: int,
    name: Seq<char>,
)
    requires
        0 <= i < racks.len(),
        forall|m: int| 0 <= m < i ==> (#[trigger] racks[m]).name != racks[i].name,
        0 <= j < racks[i].receipts.len(),
        racks[i].receipts[j].dependencies.contains(name),
        is_reachable(racks, roots, racks[i].name),
        forall|m: int, h: int|
        #![trigger racks[m].receipts[h]]
        0 <= m < racks.len() && 0 <= h < racks[m].receipts.len() ==> !racks[m].receipts[h].aliases.contains(
            name,
        ),
    ensures
        is_reachable(racks, roots, name),
        !is_unused(racks, roots, name),
{
    law_plain_names_stand_for_themselves(racks, name);
    let own = racks[i].name;
    let deps = dependencies_of(racks, own);
    crate::seqs::law_first_is_found(racks, if_rack(own), i);
    assert(deps == flatten_map(racks[i].receipts, dependencies_of_receipt()));
    assert(dependencies_of_receipt()(racks[i].receipts[j]).contains(name));
    crate::seqs::law_flattened_is_made(racks[i].receipts, dependencies_of_receipt(), name);
    let d = choose|d: int| 0 <= d < deps.len() && deps[d] == name;
    let n = choose|n: nat| reached_in(racks, roots, own, n);
    assert(resolved(racks, dependencies_of(racks, own)[d]) == name);
    assert(reached_in(racks, roots, name, n + 1));
}

/// A formula can go only where it was installed for others, from a bottle, and is
/// neither in use itself nor pinned, linked, excluded or needed by a cask under its
/// own name.
pub proof fn law_unused_formulae_were_installed_for_others(
    racks: Seq<RackModel>,
    k: KeepersModel,
    name: Seq<char>,
)
    requires
        is_unused(racks, roots_of(racks, k), name),
        forall|m: int, j: int|
        #![trigger racks[m].receipts[j]]
        0 <= m < racks.len() && 0 <= j < racks[m].receipts.len() ==> !racks[m].receipts[j].aliases.contains(
            name,
        ),
    ensures
        !is_reachable(racks, roots_of(racks, k), name),
        !k.pinned.contains(name),
        !k.linked.contains(name),
        !k.excluded.contains(name),
        !k.casks.contains(name),
        exists|i: int| 0 <= i < racks.len() && (#[trigger] racks[i]).name == name,
        forall|i: int, j: int|
        #![trigger racks[i].receipts[j]]
        0 <= i < racks.len() && racks[i].name == name && 0 <= j < racks[i].receipts.len()
            ==> racks[i].receipts[j].requested == Some(false) && racks[i].receipts[j].poured_from_bottle,
{
    let i = choose|i: int|
    0 <= i < racks.len() && (#[trigger] racks[i]).name == name && all_dependency_only(
        racks[i].receipts,
    ) && !is_reachable(racks, roots_of(racks, k), name);
    if k.pinned.contains(name) || k.linked.contains(name) || k.excluded.contains(name) {
        law_kept_formulae_are_in_use(racks, k, i);
    }
    if k.casks.contains(name) {
        law_formulae_of_casks_are_in_use(racks, k, name);
    }
    assert forall|a: int, j: int|
    #![trigger racks[a].receipts[j]]
    0 <= a < racks.len() && racks[a].name == name && 0 <= j < racks[a].receipts.len()
        implies racks[a].receipts[j].requested == Some(false) && racks[a].receipts[j].poured_from_bottle by {
        if !(racks[a].receipts[j].requested == Some(false) && racks[a].receipts[j].poured_from_bottle) {
            let r = racks[a].receipts[j];
            assert(r.requested == Some(true) || r.requested is None || !r.poured_from_bottle) by {
                match r.requested {
                    Some(b) => {},
                    None => {},
                }
            }
            law_kept_formulae_are_in_use(racks, k, a);
        }
    }
}

/// Whether anything speaks for a formula beside its own receipts.
spec fn nobody_needs(racks: Seq<RackModel>, k: KeepersModel, name: Seq<char>) -> bool {
    &&& !k.pinned.contains(name)
    &&& !k.linked.contains(name)
    &&& !k.excluded.contains(name)
    &&& !k.casks.contains(name)
    &&& forall|m: int, j: int|
        #![trigger racks[m].receipts[j]]
        0 <= m < racks.len() && 0 <= j < racks[m].receipts.len() ==> racks[m].receipts[j].aliases.len() == 0
            && !racks[m].receipts[j].dependencies.contains(name)
    &&& forall|m: int, j: int|
        #![trigger racks[m].receipts[j]]
        0 <= m < racks.len() && racks[m].name == name && 0 <= j < racks[m].receipts.len()
            ==> racks[m].receipts[j].requested == Some(false) && racks[m].receipts[j].poured_from_bottle
}

proof fn lemma_not_reached(racks: Seq<RackModel>, k: KeepersModel, name: Seq<char>, n: nat)
    requires
        nobody_needs(racks, k, name),
    ensures
        !reached_in(racks, roots_of(racks, k), name, n),
    decreases n,
{
    let roots = roots_of(racks, k);
    let own = collect_some(racks, if_root(k));
    assert forall|other: Seq<char>| #[trigger] resolved(racks, other) == other by {
        law_plain_names_stand_for_themselves(racks, other);
    }
    if n == 0 {
        assert forall|i: int| 0 <= i < roots.len() implies resolved(racks, #[trigger] roots[i]) != name by {
            if i < own.len() {
                crate::seqs::lemma_collect_origin(racks, if_root(k), i);
                let m = choose|m: int|
                0 <= m < racks.len() && if_root(k)(#[trigger] racks[m]) == Some(own[i]);
                if racks[m].name == name {
                    assert(all_dependency_only(racks[m].receipts));
                }
            } else {
                assert(roots[i] == k.casks[i - own.len()]);
            }
        }
    } else {
        assert forall|from: Seq<char>, i: int|
        #![trigger dependencies_of(racks, from)[i]]
        0 <= i < dependencies_of(racks, from).len() implies resolved(
            racks,
            dependencies_of(racks, from)[i],
        ) != name by {
            let d = dependencies_of(racks, from)[i];
            crate::seqs::law_found_is_made(racks, if_rack(from));
            let m = choose|m: int|
            0 <= m < racks.len() && if_rack(from)(#[trigger] racks[m]) == Some(dependencies_of(racks, from));
            assert(flatten_map(racks[m].receipts, dependencies_of_receipt()).contains(d));
            crate::seqs::law_flattened_is_made(racks[m].receipts, dependencies_of_receipt(), d);
            let j = choose|j: int|
            0 <= j < racks[m].receipts.len() && dependencies_of_receipt()(
                #[trigger] racks[m].receipts[j],
            ).contains(d);
            assert(racks[m].receipts[j].dependencies.contains(d));
        }
    }
}

/// Where no formula has an alias, a formula that was installed for others, from a
/// bottle, that no other depends on, and that is neither pinned nor linked, excluded
/// or needed by a cask can go.
pub proof fn law_what_nobody_needs_is_unused(racks: Seq<RackModel>, k: KeepersModel, i: int)
    requires
        0 <= i < racks.len(),
        !k.pinned.contains(racks[i].name),
        !k.linked.contains(racks[i].name),
        !k.excluded.contains(racks[i].name),
        !k.casks.contains(racks[i].name),
        forall|m: int, j: int|
        #![trigger racks[m].receipts[j]]
        0 <= m < racks.len() && 0 <= j < racks[m].receipts.len() ==> racks[m].receipts[j].aliases.len() == 0
            && !racks[m].receipts[j].dependencies.contains(racks[i].name),
        forall|m: int, j: int|
        #![trigger racks[m].receipts[j]]
        0 <= m < racks.len() && racks[m].name == racks[i].name && 0 <= j < racks[m].receipts.len()
            ==> racks[m].receipts[j].requested == Some(false) && racks[m].receipts[j].poured_from_bottle,
    ensures
        is_unused(racks, roots_of(racks, k), racks[i].name),
        !is_reachable(racks, roots_of(racks, k), racks[i].name),
{
    let name = racks[i].name;
    assert(nobody_needs(racks, k, name));
    assert forall|n: nat| !(#[trigger] reached_in(racks, roots_of(racks, k), name, n)) by {
        lemma_not_reached(racks, k, name, n);
    }
    assert(all_dependency_only(racks[i].receipts));
}

/// The latest receipt is the one that was written last, and of several the last of
/// them.
pub proof fn law_latest_receipt_is_the_newest(receipts: Seq<FormulaReceiptModel>)
    ensures
        match latest(receipts) {
            Some(i) => 0 <= i < receipts.len() && (forall|j: int|
                0 <= j < receipts.len() ==> (#[trigger] receipts[j]).modified <= receipts[i].modified) && (
            forall|j: int| i < j < receipts.len() ==> (#[trigger] receipts[j]).modified < receipts[i].modified),
            None => receipts.len() == 0,
        },
    decreases receipts.len(),
{
    if receipts.len() > 0 {
        let less = receipts.drop_last();
        law_latest_receipt_is_the_newest(less);
        assert forall|j: int| 0 <= j < less.len() implies #[trigger] receipts[j] == less[j] by {}
        assert(receipts[receipts.len() - 1] == receipts.last());
    }
}

/// The active version is the one that is linked, or else the newest.
pub proof fn law_active_version(r: RackModel, link: Option<Seq<char>>, i: int)
    ensures
        link is Some && paths::last_name(link->0) is Some ==> active_version(r, link) == paths::last_name(
            link->0,
        ),
        link is None && latest(r.receipts) == Some(i) ==> active_version(r, link) == Some(
            r.receipts[i].version,
        ),
        link is None && r.receipts.len() == 0 ==> active_version(r, link) is None,
{
    law_latest_receipt_is_the_newest(r.receipts);
}

/// A version is old exactly where it is not the active one and nothing keeps it.
pub proof fn law_old_versions_are_not_active(
    receipts: Seq<FormulaReceiptModel>,
    kept: Seq<bool>,
    active: Option<Seq<char>>,
    r: FormulaReceiptModel,
)
    requires
        receipts.len() == kept.len(),
    ensures
        collect_some(paired(receipts, kept), if_old(active)).contains(r) <==> exists|i: int|
        0 <= i < receipts.len() && #[trigger] receipts[i] == r && !kept[i] && active != Some(r.version),
{
    let p = paired(receipts, kept);
    crate::seqs::law_collected_is_made(p, if_old(active), r);
    if exists|i: int| 0 <= i < receipts.len() && #[trigger] receipts[i] == r && !kept[i] && active != Some(
        r.version,
    ) {
        let i = choose|i: int|
        0 <= i < receipts.len() && #[trigger] receipts[i] == r && !kept[i] && active != Some(r.version);
        assert(p[i] == (receipts[i], kept[i]));
        assert(if_old(active)(p[i]) == Some(r));
    }
    if exists|i: int| 0 <= i < p.len() && if_old(active)(#[trigger] p[i]) == Some(r) {
        let i = choose|i: int| 0 <= i < p.len() && if_old(active)(#[trigger] p[i]) == Some(r);
        assert(p[i] == (receipts[i], kept[i]));
        assert(receipts[i] == r);
    }
}

/// Old versions are reported exactly where there are any and they hold what was asked
/// for; they are never selected in bulk.
pub proof fn law_old_versions_are_reported(
    layout: BrewLayoutModel,
    r: RackModel,
    active: Option<Seq<char>>,
    old: Seq<FormulaReceiptModel>,
    bytes: u64,
    settings: ProviderSettings,
)
    ensures
        old_row(layout, r, active, old, bytes, settings) is Some <==> old.len() > 0 && bytes
            >= settings.min_size_bytes,
        old_row(layout, r, active, old, bytes, settings) matches Some(f) ==> f.bytes == bytes && f.manual_only
            && f.safety == Safety::Review && f.native_action is Some,
{
}

/// What Homebrew would remove and is in use is a disagreement, each formula once.
pub proof fn law_disagreements_are_in_use(suggested: Seq<Seq<char>>, reachable: Seq<Seq<char>>, name: Seq<char>)
    ensures
        in_use_of(suggested, reachable).contains(name) <==> suggested.contains(name) && reachable.contains(
            name,
        ),
        in_use_of(suggested, reachable).no_duplicates(),
    decreases suggested.len(),
{
    if suggested.len() > 0 {
        let less = suggested.drop_last();
        let rest = in_use_of(less, reachable);
        let all = in_use_of(suggested, reachable);
        let last = suggested.last();
        law_disagreements_are_in_use(less, reachable, name);
        law_disagreements_are_in_use(less, reachable, last);
        assert(suggested[suggested.len() - 1] == last);
        assert forall|n: Seq<char>| suggested.contains(n) <==> #[trigger] less.contains(n) || n == last by {
            if suggested.contains(n) {
                let i = choose|i: int| 0 <= i < suggested.len() && suggested[i] == n;
                if i < less.len() {
                    assert(less[i] == n);
                }
            }
            if less.contains(n) {
                let i = choose|i: int| 0 <= i < less.len() && less[i] == n;
                assert(suggested[i] == n);
            }
        }
        assert(suggested.contains(name) <==> less.contains(name) || name == last);
        if reachable.contains(last) && !rest.contains(last) {
            assert(all == rest.push(last));
            assert(all[rest.len() as int] == last);
            if all.contains(name) {
                let i = choose|i: int| 0 <= i < all.len() && all[i] == name;
                if i < rest.len() {
                    assert(rest[i] == name);
                }
            }
            if rest.contains(name) {
                let i = choose|i: int| 0 <= i < rest.len() && rest[i] == name;
                assert(all[i] == name);
            }
        }
    }
}

/// Homebrew's advice is one name to a line: lines that announce, warn or hold blanks
/// are none.
pub proof fn law_advice_is_one_name_to_a_line(line: Seq<char>)
    ensures
        suggestion()(line) is Some <==> text::trimmed(line).len() > 0 && !text::begins(
            text::trimmed(line),
            "==>"@,
        ) && !text::begins(text::trimmed(line), "Warning:"@) && !text::trimmed(line).contains(' '),
{
}

/// An entry of the cache is removed only below the cache and never through a link: a
/// download that was not completed at any age, any other from 120 days on.
pub proof fn law_cache_entries(
    cache: Seq<char>,
    path: Seq<char>,
    name: Seq<char>,
    is_symlink: bool,
    is_dir: bool,
    age: u64,
)
    ensures
        cache_choice(cache, path, name, is_symlink, is_dir, age) == CacheStep::Enter <==> under(path, cache)
            && !is_symlink && is_dir,
        cache_choice(cache, path, name, is_symlink, is_dir, age) == CacheStep::Incomplete <==> under(
            path,
            cache,
        ) && !is_symlink && !is_dir && (text::ends(text::lowered(name), ".incomplete"@) || text::occurs(
            text::lowered(name),
            ".incomplete."@,
        )),
        cache_choice(cache, path, name, is_symlink, is_dir, age) == CacheStep::Old <==> under(path, cache)
            && !is_symlink && !is_dir && age >= 120 && !text::ends(text::lowered(name), ".incomplete"@)
            && !text::occurs(text::lowered(name), ".incomplete."@),
{
}

/// Files of the cache are reported where there are any; while Homebrew works with the
/// cache they are for the user's own hand.
pub proof fn law_cache_files_are_reported(
    layout: BrewLayoutModel,
    rule: Seq<char>,
    object: Seq<char>,
    label: Seq<char>,
    files: Seq<Seq<char>>,
    bytes: u64,
    reason: Seq<char>,
    active: bool,
)
    ensures
        cache_rows(layout, rule, object, label, files, bytes, reason, active).len() == if files.len() > 0 {
            1int
        } else {
            0
        },
        files.len() > 0 ==> {
            let f = cache_rows(layout, rule, object, label, files, bytes, reason, active)[0];
            &&& f.bytes == bytes
            &&& f.in_use <==> active
            &&& f.manual_only <==> active
            &&& f.safety == Safety::Safe
            &&& target_paths(f.target) == files
        },
{
}

/// The cache is in use exactly while Homebrew installs, upgrades or cleans up.
pub proof fn law_cache_is_in_use(commands: Seq<Seq<char>>)
    ensures
        cache_in_use(commands) <==> exists|i: int|
        0 <= i < commands.len() && (text::occurs(#[trigger] commands[i], "brew install"@) || text::occurs(
            commands[i],
            "brew upgrade"@,
        ) || text::occurs(commands[i], "brew cleanup"@)),
{
    if exists|i: int|
        0 <= i < commands.len() && (text::occurs(#[trigger] commands[i], "brew install"@) || text::occurs(
            commands[i],
            "brew upgrade"@,
        ) || text::occurs(commands[i], "brew cleanup"@)) {
        let i = choose|i: int|
        0 <= i < commands.len() && (text::occurs(#[trigger] commands[i], "brew install"@) || text::occurs(
            commands[i],
            "brew upgrade"@,
        ) || text::occurs(commands[i], "brew cleanup"@));
        assert(uses_cache(commands[i]));
    }
}

/// Files of the cache may go exactly where there are any, each lies below the cache
/// and each is still there.
pub proof fn law_cache_files_may_go(cache: Seq<char>, files: Seq<Seq<char>>, there: Seq<bool>)
    requires
        files.len() == there.len(),
    ensures
        paths_say(cache, files, there) == RevalidationModel::Valid <==> files.len() > 0 && forall|i: int|
        0 <= i < files.len() ==> under(#[trigger] files[i], cache) && there[i],
{
    let p = paired(files, there);
    crate::seqs::law_found_is_made(p, path_obstacle(cache));
    if forall|i: int| 0 <= i < files.len() ==> under(#[trigger] files[i], cache) && there[i] {
        assert forall|i: int| 0 <= i < p.len() implies path_obstacle(cache)(#[trigger] p[i]) is None by {
            assert(p[i] == (files[i], there[i]));
            assert(under(files[i], cache));
        }
        crate::seqs::lemma_find_none(p, path_obstacle(cache));
    }
    if paths_say(cache, files, there) == RevalidationModel::Valid {
        if let Some(v) = find_some(p, path_obstacle(cache)) {
            let i = choose|i: int| 0 <= i < p.len() && path_obstacle(cache)(#[trigger] p[i]) == Some(v);
            assert(p[i] == (files[i], there[i]));
        }
        assert forall|i: int| 0 <= i < files.len() implies under(#[trigger] files[i], cache) && there[i] by {
            assert(p[i] == (files[i], there[i]));
            assert(path_obstacle(cache)(p[i]) is None);
        }
    }
}

/// The users of a formula are those whose latest version depends on it.
pub proof fn law_users_depend_on_the_formula(racks: Seq<RackModel>, name: Seq<char>, m: int, i: int)
    requires
        0 <= m < racks.len(),
        latest(racks[m].receipts) == Some(i),
        racks[m].receipts[i].dependencies.contains(name),
    ensures
        collect_some(racks, if_depends(name)).contains(racks[m].name),
{
    crate::seqs::law_collected_is_made(racks, if_depends(name), racks[m].name);
    assert(if_depends(name)(racks[m]) == Some(racks[m].name));
}

/// A receipt tells what stands in its file: whether the formula was asked for, whether
/// it was poured from a bottle, what it needs and what it is also called. Formulae of
/// another tap than the core one carry the name of the tap.
pub proof fn law_receipts_tell_their_file(name: Seq<char>, k: KegFileModel, doc: JsonModel, x: Seq<char>, i: int)
    ensures
        receipt_in(name, k, doc).requested == doc.bool_at("installed_on_request"@),
        receipt_in(name, k, doc).poured_from_bottle <==> doc.bool_at("poured_from_bottle"@) == Some(true),
        receipt_in(name, k, doc).version == k.version,
        receipt_in(name, k, doc).path == k.path,
        receipt_in(name, k, doc).keg_path == k.keg_path,
        receipt_in(name, k, doc).modified == k.modified,
        doc.get("source"@) is None ==> receipt_in(name, k, doc).full_name == name,
        doc.get("source"@) matches Some(s) ==> (s.text_at("tap"@) matches Some(t) ==> if t == "homebrew/core"@ {
            receipt_in(name, k, doc).full_name == name
        } else {
            receipt_in(name, k, doc).full_name == t + "/"@ + name
        }),
        0 <= i < doc.items_at("runtime_dependencies"@).len() && doc.items_at(
            "runtime_dependencies"@,
        )[i].text_at("full_name"@) == Some(x) ==> receipt_in(name, k, doc).dependencies.contains(short_name(x)),
        0 <= i < doc.items_at("aliases"@).len() && doc.items_at("aliases"@)[i].as_text() == Some(x)
            ==> receipt_in(name, k, doc).aliases.contains(short_name(x)),
        receipt_in(name, k, doc).dependencies.len() <= doc.items_at("runtime_dependencies"@).len(),
        receipt_in(name, k, doc).aliases.len() <= doc.items_at("aliases"@).len(),
{
    let d = doc.items_at("runtime_dependencies"@);
    let a = doc.items_at("aliases"@);
    crate::seqs::law_collected_is_made(d, dependency_name(), short_name(x));
    crate::seqs::law_collected_is_made(a, alias_name(), short_name(x));
    lemma_no_more(d, dependency_name());
    lemma_no_more(a, alias_name());
    if 0 <= i < d.len() && d[i].text_at("full_name"@) == Some(x) {
        assert(dependency_name()(d[i]) == Some(short_name(x)));
    }
    if 0 <= i < a.len() && a[i].as_text() == Some(x) {
        assert(alias_name()(a[i]) == Some(short_name(x)));
    }
}

proof fn lemma_no_more<A, B>(s: Seq<A>, f: spec_fn(A) -> Option<B>)
    ensures
        collect_some(s, f).len() <= s.len(),
    decreases s.len(),
{
    if s.len() > 0 {
        lemma_no_more(s.drop_last(), f);
    }
}

/// A receipt is read of a directory whose file can be read, and of nothing else; a
/// rack is a directory with a receipt.
pub proof fn law_racks_have_receipts(name: Seq<char>, k: KegFileModel, f: RackFilesModel)
    ensures
        receipt_of(name)(k) is Some <==> k.is_dir && (k.contents matches Some(c) && json_document(c) is Some),
        receipt_of(name)(k) matches Some(r) ==> r.version == k.version && r.keg_path == k.keg_path,
        rack_of()(f) is Some ==> f.is_dir,
        rack_of()(f) matches Some(r) ==> r.name == f.name && r.receipts.len() > 0,
        f.is_dir && 0 < f.kegs.len() <= VERSION_LIMIT && receipt_of(f.name)(f.kegs[0]) is Some ==> rack_of()(
            f,
        ) is Some,
{
    let s = at_most(f.kegs, VERSION_LIMIT as int);
    if f.is_dir && 0 < f.kegs.len() <= VERSION_LIMIT && receipt_of(f.name)(f.kegs[0]) is Some {
        let b = receipt_of(f.name)(f.kegs[0])->0;
        crate::seqs::law_collected_is_made(s, receipt_of(f.name), b);
        assert(s[0] == f.kegs[0]);
        assert(collect_some(s, receipt_of(f.name)).contains(b));
    }
}

/// A head that names no reference is the commit; one that does is the commit that the
/// reference's own file tells, or the line of the packed references for it.
pub proof fn law_heads_lead_to_commits(
    head: Seq<char>,
    reference: Seq<char>,
    loose: Seq<char>,
    packed: Seq<char>,
    i: int,
    hash: Seq<char>,
)
    ensures
        !text::begins(text::trimmed(head), "ref: "@) ==> commit_of(head, Some(loose), Some(packed)) == Some(
            text::trimmed(head),
        ),
        text::trimmed(head) == "ref: "@ + reference ==> {
            &&& commit_of(head, Some(loose), Some(packed)) == Some(text::trimmed(loose))
            &&& commit_of(head, None, None) is None
            &&& (0 <= i < text::lines_of(packed).len() && text::halves(text::lines_of(packed)[i], ' ') == Some(
                (hash, reference),
            ) ==> commit_of(head, None, Some(packed)) is Some)
            &&& (commit_of(head, None, Some(packed)) matches Some(h) ==> exists|j: int|
                0 <= j < text::lines_of(packed).len() && text::halves(
                    #[trigger] text::lines_of(packed)[j],
                    ' ',
                ) == Some((h, reference)))
        },
{
    text::law_prefixes_come_off("ref: "@, reference, text::trimmed(head));
    let l = text::lines_of(packed);
    let f = packed_line(reference);
    crate::seqs::law_found_is_made(l, f);
    if text::trimmed(head) == "ref: "@ + reference {
        if 0 <= i < l.len() && text::halves(l[i], ' ') == Some((hash, reference)) {
            assert(f(l[i]) is Some);
        }
        if let Some(h) = commit_of(head, None, Some(packed)) {
            let j = choose|j: int|
            0 <= j < l.len() && f(#[trigger] l[j]) == Some(h) && forall|k: int|
            0 <= k < j ==> f(#[trigger] l[k]) is None;
            assert(text::halves(l[j], ' ') == Some((h, reference)));
        }
    }
}

/// The head of a tap is that of the first tap of that name, with the usual prefix or
/// without; the name without it goes first.
pub proof fn law_taps_are_found_by_name(heads: Seq<TapHeadModel>, organization: Seq<char>, repository: Seq<char>, i: int)
    requires
        0 <= i < heads.len(),
        heads[i].organization == organization,
    ensures
        heads[i].repository == repository ==> head_of(heads, organization, repository) is Some,
        heads[i].repository == "homebrew-"@ + repository ==> head_of(heads, organization, repository) is Some,
        head_of(heads, organization, repository) matches Some(h) ==> exists|j: int|
        0 <= j < heads.len() && (#[trigger] heads[j]).head == h && heads[j].organization == organization && (
        heads[j].repository == repository || heads[j].repository == "homebrew-"@ + repository),
        heads[i].repository == repository && (forall|j: int|
            0 <= j < i ==> (#[trigger] heads[j]).organization != organization || heads[j].repository != repository)
            ==> head_of(heads, organization, repository) == Some(heads[i].head),
{
    let f = if_tap(organization, repository);
    let g = if_tap(organization, "homebrew-"@ + repository);
    crate::seqs::law_found_is_made(heads, f);
    crate::seqs::law_found_is_made(heads, g);
    if heads[i].repository == repository {
        assert(f(heads[i]) is Some);
        if forall|j: int|
            0 <= j < i ==> (#[trigger] heads[j]).organization != organization || heads[j].repository
                != repository {
            assert forall|j: int| 0 <= j < i implies f(#[trigger] heads[j]) is None by {
            }
            crate::seqs::law_first_is_found(heads, f, i);
        }
    }
    if heads[i].repository == "homebrew-"@ + repository {
        assert(g(heads[i]) is Some);
    }
    if let Some(h) = head_of(heads, organization, repository) {
        if find_some(heads, f) is Some {
            let j = choose|j: int|
            0 <= j < heads.len() && f(#[trigger] heads[j]) == Some(h) && forall|k: int|
            0 <= k < j ==> f(#[trigger] heads[k]) is None;
            assert(heads[j].head == h);
        } else {
            let j = choose|j: int|
            0 <= j < heads.len() && g(#[trigger] heads[j]) == Some(h) && forall|k: int|
            0 <= k < j ==> g(#[trigger] heads[k]) is None;
            assert(heads[j].head == h);
        }
    }
}

/// The layout is refused where Homebrew prints no absolute prefix or cache; otherwise
/// its directories stand below the prefix.
pub proof fn law_layouts_are_absolute(prefix: Seq<char>, cache: Seq<char>, version: Seq<char>, architecture: Seq<char>)
    ensures
        layout_of(prefix, cache, version, architecture) is Ok <==> paths::absolute(first_line_or(prefix, ""@))
            && paths::absolute(first_line_or(cache, ""@)),
        layout_of(prefix, cache, version, architecture) matches Ok(l) ==> {
            &&& l.prefix == first_line_or(prefix, ""@)
            &&& l.cache == first_line_or(cache, ""@)
            &&& l.cellar == paths::below(l.prefix, "Cellar"@)
            &&& l.caskroom == paths::below(l.prefix, "Caskroom"@)
            &&& l.architecture == architecture
        },
        layout_of(prefix, cache, version, architecture) matches Err(e) ==> (e
            == "Homebrew returned an invalid prefix"@ <==> !paths::absolute(first_line_or(prefix, ""@))),
{
    reveal_strlit("Homebrew returned an invalid prefix");
    reveal_strlit("Homebrew returned an invalid cache path");
    assert("Homebrew returned an invalid prefix"@.len() != "Homebrew returned an invalid cache path"@.len());
}

/// Formulae that a cask needs, that the settings exclude and that Homebrew lists are
/// told by their short names; blank exclusions are none.
pub proof fn law_listed_formulae_are_told(contents: Seq<char>, d: JsonModel, r: JsonModel, i: int, x: Seq<char>)
    ensures
        json_document(contents) == Some(d) && d.get("runtime_dependencies"@) == Some(r) && 0 <= i < r.items_at(
            "formula"@,
        ).len() && r.items_at("formula"@)[i].text_at("full_name"@) == Some(x) ==> cask_formulae()(
            Some(contents),
        ).contains(short_name(x)),
        json_document(contents) is None ==> cask_formulae()(Some(contents)).len() == 0,
        cask_formulae()(None).len() == 0,
        exclusion()(x) is Some <==> text::trimmed(x).len() > 0,
        exclusion()(x) matches Some(n) ==> n == short_name(text::trimmed(x)),
        0 <= i < d.items_at("formulae"@).len() && d.items_at("formulae"@)[i].text_at("name"@) == Some(x)
            ==> known_in(Some(d)).contains(short_name(x)),
        known_in(None).len() == 0,
{
    let s = r.items_at("formula"@);
    let t = d.items_at("formulae"@);
    crate::seqs::law_collected_is_made(s, dependency_name(), short_name(x));
    crate::seqs::law_collected_is_made(t, formula_name(), short_name(x));
    if 0 <= i < s.len() && s[i].text_at("full_name"@) == Some(x) {
        assert(dependency_name()(s[i]) == Some(short_name(x)));
    }
    if 0 <= i < t.len() && t[i].text_at("name"@) == Some(x) {
        assert(formula_name()(t[i]) == Some(short_name(x)));
    }
}

/// Downloads that are removed as not completed are not counted as old as well.
pub proof fn law_stale_downloads_count_once(stale: Seq<Seq<char>>, p: Seq<char>, i: int)
    ensures
        0 <= i < stale.len() && paths::equal_paths(p, stale[i]) ==> if_not_stale(stale)(p) is None,
        (forall|j: int| 0 <= j < stale.len() ==> !paths::equal_paths(p, #[trigger] stale[j])) ==> if_not_stale(
            stale,
        )(p) == Some(p),
{
}

/// An unused formula is offered by its latest receipt, for review and one at a time.
pub proof fn law_unused_formulae_are_offered(
    layout: BrewLayoutModel,
    racks: Seq<RackModel>,
    name: Seq<char>,
    bytes: u64,
)
    ensures
        unused_row(layout, racks)((name, bytes)) is Some <==> latest_receipt(racks, name) is Some,
        unused_row(layout, racks)((name, bytes)) matches Some(f) ==> {
            &&& f.safety == Safety::Review
            &&& f.manual_only
            &&& f.bytes == bytes
            &&& f.native_action is Some
        },
{
}

/// A file holds a text exactly where the text stands in it at some place.
pub proof fn law_held_bytes(before: Seq<u8>, needle: Seq<u8>, after: Seq<u8>, bytes: Seq<u8>)
    ensures
        holds_bytes(before + needle + after, needle),
        bytes.len() < needle.len() ==> !holds_bytes(bytes, needle),
        holds_bytes(bytes, needle) ==> exists|i: int|
        0 <= i <= bytes.len() - needle.len() && bytes == #[trigger] bytes.take(i) + needle + bytes.skip(
            i + needle.len(),
        ),
{
    let whole = before + needle + after;
    let k = before.len() as int;
    assert(whole.subrange(k, k + needle.len()) =~= needle);
    if holds_bytes(bytes, needle) {
        let i = choose|i: int|
        0 <= i && i + needle.len() <= bytes.len() && #[trigger] bytes.subrange(i, i + needle.len()) == needle;
        assert(bytes =~= bytes.take(i) + bytes.subrange(i, i + needle.len()) + bytes.skip(i + needle.len()));
    }
}

/// Formulae are looked for again before anything is done to them; unknown actions are
/// blocked.
pub proof fn law_formulae_are_looked_for_again(
    finding: FindingModel,
    cache: Seq<char>,
    there: Seq<bool>,
    refreshed: Seq<Finding>,
)
    ensures
        finding.native_action is None ==> rechecked(finding, cache, there, refreshed) is Err,
        finding.native_action is Some ==> rechecked(finding, cache, there, refreshed) is Ok,
        rechecked(finding, cache, there, refreshed) == Ok::<RevalidationModel, Seq<char>>(RevalidationModel::Valid) ==> (
        finding.native_action matches Some(a) && (a.action_id == "delete-cache-paths"@ || a.action_id
            == "cleanup-formula"@ || a.action_id == "uninstall-formula"@)),
        (finding.native_action matches Some(a) && (a.action_id == "cleanup-formula"@ || a.action_id
            == "uninstall-formula"@)) && (exists|i: int|
            0 <= i < refreshed.len() && (#[trigger] refreshed[i]).stable_id@ == finding.stable_id)
            ==> rechecked(finding, cache, there, refreshed) == Ok::<RevalidationModel, Seq<char>>(RevalidationModel::Valid),
        (finding.native_action matches Some(a) && (a.action_id == "cleanup-formula"@ || a.action_id
            == "uninstall-formula"@)) && (forall|i: int|
            0 <= i < refreshed.len() ==> (#[trigger] refreshed[i]).stable_id@ != finding.stable_id)
            ==> rechecked(finding, cache, there, refreshed) != Ok::<RevalidationModel, Seq<char>>(RevalidationModel::Valid),
{
    reveal_strlit("delete-cache-paths");
    reveal_strlit("cleanup-formula");
    reveal_strlit("uninstall-formula");
    assert("delete-cache-paths"@.len() == 18);
    assert("cleanup-formula"@.len() == 15);
    assert("uninstall-formula"@.len() == 17);
}

} // verus!
