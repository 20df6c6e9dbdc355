//! What the garbage collectors of Conda, Nix and MacPorts would remove.

use crate::json::{Json, JsonModel, entry_models, item_models, json_document, parse_json};
use crate::report::{Confidence, Finding, FindingModel};
use crate::rules::Safety;
use crate::seqs::{at_most, find_some, group_views, lemma_find_step, views};
use crate::taxonomy::{Section, Subgroup};
use crate::text;
use crate::text::{digits, same};
use vstd::prelude::*;

use super::command::{Arg, ArgRule, CommandPolicy, admits, is_policy};
use super::{
    Capability, MetadataModel, ProviderExecution, ProviderFinding, ProviderMetadata,
    ProviderSettings, Revalidation, ScanCost, available_if, completed, draft, is_available_if,
    parse_human_bytes, printed_bytes, revalidate_against, revalidated,
};

verus! {

broadcast use group_views;

pub struct NativeGcProvider;

/// What the provider is.
pub open spec fn native_gc() -> MetadataModel {
    MetadataModel {
        id: "native-gc"@,
        name: "Native package garbage collectors"@,
        section: Section::Developer,
        subgroup: Subgroup::Packages,
        cost: ScanCost::Moderate,
        quick: true,
        deep: true,
        network_in_deep_scan: false,
        supersedes_rules: seq!["conda-package-cache"@],
    }
}

fn metadata() -> (r: ProviderMetadata)
    ensures
        r@ == native_gc(),
{
    let r = ProviderMetadata {
        id: "native-gc",
        name: "Native package garbage collectors",
        section: Section::Developer,
        subgroup: Subgroup::Packages,
        cost: ScanCost::Moderate,
        quick: true,
        deep: true,
        network_in_deep_scan: false,
        supersedes_rules: &["conda-package-cache"],
    };
    assert(r@.supersedes_rules =~= native_gc().supersedes_rules);
    r
}

impl NativeGcProvider {
    pub fn metadata(&self) -> (r: ProviderMetadata)
        ensures
            r@ == native_gc(),
    {
        metadata()
    }
}

// ---- commands ----

pub open spec fn conda_executables() -> Seq<&'static str> {
    seq!["conda"]
}

pub open spec fn nix_executables() -> Seq<&'static str> {
    seq!["nix"]
}

pub open spec fn port_executables() -> Seq<&'static str> {
    seq!["/opt/local/bin/port", "port"]
}

/// The command `conda clean --all --dry-run --json`.
pub fn conda_preview() -> (r: CommandPolicy)
    ensures
        is_policy(
            r,
            "conda-clean-preview"@,
            conda_executables(),
            false,
            false,
            seq![Arg::Is("clean"), Arg::Is("--all"), Arg::Is("--dry-run"), Arg::Is("--json")],
        ),
{
    let r = CommandPolicy {
        id: "conda-clean-preview",
        executables: &["conda"],
        mutating: false,
        network: false,
        args: ArgRule::Form(&[Arg::Is("clean"), Arg::Is("--all"), Arg::Is("--dry-run"), Arg::Is("--json")]),
    };
    assert(r.executables@ =~= conda_executables());
    r
}

/// The command `conda clean --all --yes`.
pub fn conda_clean() -> (r: CommandPolicy)
    ensures
        is_policy(
            r,
            "conda-clean"@,
            conda_executables(),
            true,
            false,
            seq![Arg::Is("clean"), Arg::Is("--all"), Arg::Is("--yes")],
        ),
{
    let r = CommandPolicy {
        id: "conda-clean",
        executables: &["conda"],
        mutating: true,
        network: false,
        args: ArgRule::Form(&[Arg::Is("clean"), Arg::Is("--all"), Arg::Is("--yes")]),
    };
    assert(r.executables@ =~= conda_executables());
    r
}

/// The command `nix store gc --dry-run --json`.
pub fn nix_preview() -> (r: CommandPolicy)
    ensures
        is_policy(
            r,
            "nix-store-gc-preview"@,
            nix_executables(),
            false,
            false,
            seq![Arg::Is("store"), Arg::Is("gc"), Arg::Is("--dry-run"), Arg::Is("--json")],
        ),
{
    let r = CommandPolicy {
        id: "nix-store-gc-preview",
        executables: &["nix"],
        mutating: false,
        network: false,
        args: ArgRule::Form(&[Arg::Is("store"), Arg::Is("gc"), Arg::Is("--dry-run"), Arg::Is("--json")]),
    };
    assert(r.executables@ =~= nix_executables());
    r
}

/// The command `nix store gc`.
pub fn nix_gc() -> (r: CommandPolicy)
    ensures
        is_policy(
            r,
            "nix-store-gc"@,
            nix_executables(),
            true,
            false,
            seq![Arg::Is("store"), Arg::Is("gc")],
        ),
{
    let r = CommandPolicy {
        id: "nix-store-gc",
        executables: &["nix"],
        mutating: true,
        network: false,
        args: ArgRule::Form(&[Arg::Is("store"), Arg::Is("gc")]),
    };
    assert(r.executables@ =~= nix_executables());
    r
}

/// The command `port -y reclaim`.
pub fn port_preview() -> (r: CommandPolicy)
    ensures
        is_policy(
            r,
            "macports-reclaim-preview"@,
            port_executables(),
            false,
            false,
            seq![Arg::Is("-y"), Arg::Is("reclaim")],
        ),
{
    let r = CommandPolicy {
        id: "macports-reclaim-preview",
        executables: &["/opt/local/bin/port", "port"],
        mutating: false,
        network: false,
        args: ArgRule::Form(&[Arg::Is("-y"), Arg::Is("reclaim")]),
    };
    assert(r.executables@ =~= port_executables());
    r
}

/// The command `port -N reclaim`.
pub fn port_reclaim() -> (r: CommandPolicy)
    ensures
        is_policy(
            r,
            "macports-reclaim"@,
            port_executables(),
            true,
            false,
            seq![Arg::Is("-N"), Arg::Is("reclaim")],
        ),
{
    let r = CommandPolicy {
        id: "macports-reclaim",
        executables: &["/opt/local/bin/port", "port"],
        mutating: true,
        network: false,
        args: ArgRule::Form(&[Arg::Is("-N"), Arg::Is("reclaim")]),
    };
    assert(r.executables@ =~= port_executables());
    r
}

/// Whether any of the package managers is installed.
pub fn probe(conda: bool, nix: bool, macports: bool) -> (r: Capability)
    ensures
        is_available_if(r, conda || nix || macports, "Conda, Nix, and MacPorts are not installed."@),
{
    available_if(conda || nix || macports, "Conda, Nix, and MacPorts are not installed.")
}

/// What a preview printed: its output, or its messages where it printed nothing.
pub fn preview_text(stdout: String, stderr: String) -> (r: String)
    ensures
        r@ == if stdout@.len() == 0 {
            stderr@
        } else {
            stdout@
        },
{
    if stdout.as_str().is_empty() {
        stderr
    } else {
        stdout
    }
}

// ---- sizes and paths in a preview ----

/// Whether an entry's name says that it holds a size.
pub open spec fn sized_key(key: Seq<char>) -> bool {
    text::occurs(key, "size"@) || text::occurs(key, "bytes"@)
}

/// The bytes that a text prints; nothing for a text that prints none.
pub open spec fn bytes_or_zero(t: Seq<char>) -> nat {
    match printed_bytes(t) {
        Some(n) => n as nat,
        None => 0,
    }
}

/// The size that a value itself states.
pub open spec fn stated_size(v: JsonModel) -> Option<u64> {
    match v.as_u64() {
        Some(n) => Some(n),
        None => match v.as_text() {
            Some(t) => printed_bytes(t),
            None => None,
        },
    }
}

/// The size that a preview adds up to: lists are summed, of an object the
/// largest entry counts.
pub open spec fn size_in(v: JsonModel) -> nat
    decreases v, 0nat,
{
    match v {
        JsonModel::Object(e) => largest_entry(e, e.len()),
        JsonModel::Array(a) => items_size(a, a.len()),
        JsonModel::Text(t) => bytes_or_zero(t),
        JsonModel::Number(_, Some(n)) => n as nat,
        _ => 0,
    }
}

/// The size of the largest of the first `n` entries.
pub open spec fn largest_entry(e: Seq<(Seq<char>, JsonModel)>, n: nat) -> nat
    decreases e, n,
{
    if n == 0 || n > e.len() {
        0
    } else {
        let v = e[n - 1].1;
        let rest = largest_entry(e, (n - 1) as nat);
        let own = if sized_key(e[n - 1].0) && stated_size(v) is Some {
            stated_size(v)->0 as nat
        } else {
            size_in(v)
        };
        if own > rest {
            own
        } else {
            rest
        }
    }
}

/// The sum of the sizes of the first `n` elements.
pub open spec fn items_size(a: Seq<JsonModel>, n: nat) -> nat
    decreases a, n,
{
    if n == 0 || n > a.len() {
        0
    } else {
        items_size(a, (n - 1) as nat) + size_in(a[n - 1])
    }
}

proof fn lemma_largest_grows(e: Seq<(Seq<char>, JsonModel)>, i: nat, n: nat)
    requires
        i <= n <= e.len(),
    ensures
        largest_entry(e, i) <= largest_entry(e, n),
    decreases n,
{
    if i < n {
        lemma_largest_grows(e, i, (n - 1) as nat);
    }
}

proof fn lemma_items_size_grows(a: Seq<JsonModel>, i: nat, n: nat)
    requires
        i <= n <= a.len(),
    ensures
        items_size(a, i) <= items_size(a, n),
    decreases n,
{
    if i < n {
        lemma_items_size_grows(a, i, (n - 1) as nat);
    }
}

/// The size that a preview adds up to; nothing where it is beyond 64 bits.
pub fn recursive_size(value: &Json) -> (r: Option<u64>)
    ensures
        match r {
            Some(n) => n == size_in(value@),
            None => size_in(value@) > u64::MAX,
        },
    decreases value,
{
    match value {
        Json::Object(entries) => {
            let ghost e = entry_models(entries@);
            assert(value@->Object_0 =~= e);
            let mut largest: u64 = 0;
            let mut i: usize = 0;
            while i < entries.len()
                invariant
                    i <= entries@.len(),
                    *value == Json::Object(*entries),
                    e == entry_models(entries@),
                    value@ == JsonModel::Object(e),
                    largest == largest_entry(e, i as nat),
                decreases entries@.len() - i,
            {
                proof {
                    lemma_largest_grows(e, (i + 1) as nat, e.len());
                }
                assert(e[i as int] == (entries@[i as int].0@, entries@[i as int].1@));
                let own = match own_size(&entries[i].0, &entries[i].1) {
                    Some(n) => n,
                    None => match recursive_size(&entries[i].1) {
                        Some(n) => n,
                        None => {
                            return None;
                        },
                    },
                };
                if own > largest {
                    largest = own;
                }
                i += 1;
            }
            Some(largest)
        },
        Json::Array(items) => {
            let ghost a = item_models(items@);
            assert(value@->Array_0 =~= a);
            let mut total: u64 = 0;
            let mut i: usize = 0;
            while i < items.len()
                invariant
                    i <= items@.len(),
                    *value == Json::Array(*items),
                    a == item_models(items@),
                    value@ == JsonModel::Array(a),
                    total == items_size(a, i as nat),
                decreases items@.len() - i,
            {
                proof {
                    lemma_items_size_grows(a, (i + 1) as nat, a.len());
                }
                assert(a[i as int] == items@[i as int]@);
                let own: u64 = match recursive_size(&items[i]) {
                    Some(n) => n,
                    None => {
                        return None;
                    },
                };
                total = match total.checked_add(own) {
                    Some(n) => n,
                    None => {
                        return None;
                    },
                };
                i += 1;
            }
            Some(total)
        },
        Json::Text(t) => match parse_human_bytes(t.as_str()) {
            Some(n) => Some(n),
            None => Some(0),
        },
        Json::Number(_, n) => match n {
            Some(n) => Some(*n),
            None => Some(0),
        },
        _ => Some(0),
    }
}

/// The size that an entry states by its name and its own value.
fn own_size(key: &String, v: &Json) -> (r: Option<u64>)
    ensures
        r == if sized_key(key@) {
            stated_size(v@)
        } else {
            None
        },
{
    if text::contains(key.as_str(), "size") || text::contains(key.as_str(), "bytes") {
        match v {
            Json::Number(_, n) => *n,
            Json::Text(t) => parse_human_bytes(t.as_str()),
            _ => None,
        }
    } else {
        None
    }
}

/// The paths that a preview lists: a list counts at least its elements.
pub open spec fn paths_in(v: JsonModel) -> nat
    decreases v, 0nat,
{
    match v {
        JsonModel::Object(e) => entries_paths(e, e.len()),
        JsonModel::Array(a) => {
            let inner = items_paths(a, a.len());
            if inner > a.len() {
                inner
            } else {
                a.len()
            }
        },
        JsonModel::Text(t) => if text::begins(t, "/"@) {
            1
        } else {
            0
        },
        _ => 0,
    }
}

/// The paths in the first `n` entries.
pub open spec fn entries_paths(e: Seq<(Seq<char>, JsonModel)>, n: nat) -> nat
    decreases e, n,
{
    if n == 0 || n > e.len() {
        0
    } else {
        entries_paths(e, (n - 1) as nat) + paths_in(e[n - 1].1)
    }
}

/// The paths in the first `n` elements.
pub open spec fn items_paths(a: Seq<JsonModel>, n: nat) -> nat
    decreases a, n,
{
    if n == 0 || n > a.len() {
        0
    } else {
        items_paths(a, (n - 1) as nat) + paths_in(a[n - 1])
    }
}

proof fn lemma_entries_paths_grow(e: Seq<(Seq<char>, JsonModel)>, i: nat, n: nat)
    requires
        i <= n <= e.len(),
    ensures
        entries_paths(e, i) <= entries_paths(e, n),
    decreases n,
{
    if i < n {
        lemma_entries_paths_grow(e, i, (n - 1) as nat);
    }
}

proof fn lemma_items_paths_grow(a: Seq<JsonModel>, i: nat, n: nat)
    requires
        i <= n <= a.len(),
    ensures
        items_paths(a, i) <= items_paths(a, n),
    decreases n,
{
    if i < n {
        lemma_items_paths_grow(a, i, (n - 1) as nat);
    }
}

/// The paths that a preview lists; nothing where they are beyond 64 bits.
pub fn recursive_path_count(value: &Json) -> (r: Option<u64>)
    ensures
        match r {
            Some(n) => n == paths_in(value@),
            None => paths_in(value@) > u64::MAX,
        },
    decreases value,
{
    match value {
        Json::Object(entries) => {
            let ghost e = entry_models(entries@);
            assert(value@->Object_0 =~= e);
            let mut total: u64 = 0;
            let mut i: usize = 0;
            while i < entries.len()
                invariant
                    i <= entries@.len(),
                    *value == Json::Object(*entries),
                    e == entry_models(entries@),
                    value@ == JsonModel::Object(e),
                    total == entries_paths(e, i as nat),
                decreases entries@.len() - i,
            {
                proof {
                    lemma_entries_paths_grow(e, (i + 1) as nat, e.len());
                }
                assert(e[i as int] == (entries@[i as int].0@, entries@[i as int].1@));
                let own: u64 = match recursive_path_count(&entries[i].1) {
                    Some(n) => n,
                    None => {
                        return None;
                    },
                };
                total = match total.checked_add(own) {
                    Some(n) => n,
                    None => {
                        return None;
                    },
                };
                i += 1;
            }
            Some(total)
        },
        Json::Array(items) => {
            let ghost a = item_models(items@);
            assert(value@->Array_0 =~= a);
            let n: usize = items.len();
            let mut total: u64 = 0;
            let mut i: usize = 0;
            while i < n
                invariant
                    i <= n,
                    n == items@.len(),
                    *value == Json::Array(*items),
                    a == item_models(items@),
                    value@ == JsonModel::Array(a),
                    total == items_paths(a, i as nat),
                decreases n - i,
            {
                proof {
                    lemma_items_paths_grow(a, (i + 1) as nat, a.len());
                }
                assert(a[i as int] == items@[i as int]@);
                let own: u64 = match recursive_path_count(&items[i]) {
                    Some(n) => n,
                    None => {
                        return None;
                    },
                };
                total = match total.checked_add(own) {
                    Some(n) => n,
                    None => {
                        return None;
                    },
                };
                i += 1;
            }
            if total > n as u64 {
                Some(total)
            } else {
                Some(n as u64)
            }
        },
        Json::Text(t) => if text::starts_with(t.as_str(), "/") {
            Some(1)
        } else {
            Some(0)
        },
        _ => Some(0),
    }
}

// ---- Conda ----

/// The finding for what Conda would remove.
pub open spec fn conda_finding_model(bytes: u64, count: u64) -> FindingModel {
    draft(
        native_gc(),
        "conda-native-gc"@,
        "package-manager-cache"@,
        "conda-clean-all"@,
        "Conda unused packages and caches"@,
        Safety::Review,
        bytes,
    )
        .confidence(Confidence::Exact)
        .reason(
        "Conda's own dry run identified package caches, tarballs, indexes, locks, or logs it can remove."@,
    )
        .evidence("Objects"@, digits(count as nat))
        .copy(
        "Unused package cache entries selected by Conda itself; environments are not removed."@,
        "Future environment solves may download packages again."@,
        "Use Conda's native clean command so linked package files and environments remain consistent."@,
    )
        .action(
        "conda-clean"@,
        seq!["conda"@, "clean"@, "--all"@, "--yes"@],
        true,
        false,
    )
        .build()
}

fn conda_finding(bytes: u64, count: u64) -> (r: Finding)
    ensures
        r@ == conda_finding_model(bytes, count),
{
    ProviderFinding::object(
        metadata(),
        "conda-native-gc",
        "package-manager-cache",
        "conda-clean-all",
        "Conda unused packages and caches",
        Safety::Review,
        bytes,
    )
        .confidence(Confidence::Exact)
        .reason(
        "Conda's own dry run identified package caches, tarballs, indexes, locks, or logs it can remove.",
    )
        .evidence("Objects", text::decimal(count).as_str())
        .copy(
        "Unused package cache entries selected by Conda itself; environments are not removed.",
        "Future environment solves may download packages again.",
        "Use Conda's native clean command so linked package files and environments remain consistent.",
    )
        .action(
        "conda-clean",
        text::texts4("conda", "clean", "--all", "--yes"),
        true,
        false,
    )
        .build()
}

/// The findings for a preview of Conda; nothing where its sizes are beyond 64
/// bits.
pub open spec fn conda_rows(output: Seq<char>, settings: ProviderSettings) -> Option<
Seq<FindingModel>,
> {
    match json_document(output) {
        None => Some(Seq::empty()),
        Some(v) => if size_in(v) > u64::MAX || paths_in(v) > u64::MAX {
            None
        } else if size_in(v) < settings.min_size_bytes && paths_in(v) == 0 {
            Some(Seq::empty())
        } else {
            Some(seq![conda_finding_model(size_in(v) as u64, paths_in(v) as u64)])
        },
    }
}

/// A list of findings, as text and numbers; nothing where there is no list.
pub open spec fn rows_of(r: Option<Vec<Finding>>) -> Option<Seq<FindingModel>> {
    match r {
        Some(v) => Some(views(v@)),
        None => None,
    }
}

pub fn conda_findings(output: &str, settings: &ProviderSettings) -> (r: Option<Vec<Finding>>)
    ensures
        rows_of(r) == conda_rows(output@, *settings),
{
    let mut found: Vec<Finding> = Vec::new();
    if let Some(v) = parse_json(output) {
        let bytes: u64 = match recursive_size(&v) {
            Some(n) => n,
            None => {
                return None;
            },
        };
        let count: u64 = match recursive_path_count(&v) {
            Some(n) => n,
            None => {
                return None;
            },
        };
        if bytes < settings.min_size_bytes && count == 0 {
            return Some(found);
        }
        found.push(conda_finding(bytes, count));
        assert(views(found@) =~= seq![conda_finding_model(bytes, count)]);
    }
    Some(found)
}

// ---- Nix ----

/// The bytes that a word prints.
pub open spec fn word_bytes() -> spec_fn(Seq<char>) -> Option<u64> {
    |w: Seq<char>| printed_bytes(w)
}

/// The first size that a line prints; nothing where it prints none.
pub open spec fn line_bytes(line: Seq<char>) -> u64 {
    match find_some(text::words(line), word_bytes()) {
        Some(n) => n,
        None => 0,
    }
}

/// The sum of the sizes that lines print.
pub open spec fn lines_bytes(lines: Seq<Seq<char>>) -> nat
    decreases lines.len(),
{
    if lines.len() == 0 {
        0
    } else {
        lines_bytes(lines.drop_last()) + line_bytes(lines.last()) as nat
    }
}

/// How many lines speak of a path in the store.
pub open spec fn store_lines(lines: Seq<Seq<char>>) -> nat
    decreases lines.len(),
{
    if lines.len() == 0 {
        0
    } else {
        store_lines(lines.drop_last()) + if text::occurs(lines.last(), "/nix/store/"@) {
            1nat
        } else {
            0
        }
    }
}

fn first_bytes(line: &str) -> (r: u64)
    ensures
        r == line_bytes(line@),
{
    let w = text::split_whitespace(line);
    let ghost s = text::words(line@);
    assert(s.skip(0) =~= s);
    let mut i: usize = 0;
    while i < w.len()
        invariant
            i <= w@.len(),
            s == views(w@),
            s == text::words(line@),
            find_some(s, word_bytes()) == find_some(s.skip(i as int), word_bytes()),
        decreases w@.len() - i,
    {
        proof {
            lemma_find_step(s, i as int, word_bytes());
        }
        assert(s[i as int] == w@[i as int]@);
        if let Some(n) = parse_human_bytes(w[i].as_str()) {
            return n;
        }
        i += 1;
    }
    0
}

/// The finding for what Nix would remove.
pub open spec fn nix_finding_model(bytes: u64, count: u64) -> FindingModel {
    draft(
        native_gc(),
        "nix-unreachable-store-paths"@,
        "package-manager-cache"@,
        "nix-store-gc"@,
        "Unreachable Nix store paths"@,
        Safety::Safe,
        bytes,
    )
        .confidence(Confidence::Exact)
        .reason(
        "Nix's garbage collector reports these store paths unreachable from current roots."@,
    )
        .evidence("Store paths"@, digits(count as nat))
        .copy(
        "Immutable Nix store paths unreachable from current profiles and garbage-collector roots."@,
        "Rebuilding an old environment may download or rebuild the paths."@,
        "Profile-generation deletion remains separate; this action runs only Nix store GC."@,
    )
        .action("nix-gc"@, seq!["nix"@, "store"@, "gc"@], true, false)
        .build()
}

fn nix_finding(bytes: u64, count: u64) -> (r: Finding)
    ensures
        r@ == nix_finding_model(bytes, count),
{
    ProviderFinding::object(
        metadata(),
        "nix-unreachable-store-paths",
        "package-manager-cache",
        "nix-store-gc",
        "Unreachable Nix store paths",
        Safety::Safe,
        bytes,
    )
        .confidence(Confidence::Exact)
        .reason(
        "Nix's garbage collector reports these store paths unreachable from current roots.",
    )
        .evidence("Store paths", text::decimal(count).as_str())
        .copy(
        "Immutable Nix store paths unreachable from current profiles and garbage-collector roots.",
        "Rebuilding an old environment may download or rebuild the paths.",
        "Profile-generation deletion remains separate; this action runs only Nix store GC.",
    )
        .action("nix-gc", text::texts3("nix", "store", "gc"), true, false)
        .build()
}

/// The size and the number of paths in a preview of Nix: of its tree where it
/// is one, of its lines else.
pub open spec fn nix_sums(output: Seq<char>) -> (nat, nat) {
    match json_document(output) {
        Some(v) => (size_in(v), paths_in(v)),
        None => (lines_bytes(text::lines_of(output)), store_lines(text::lines_of(output))),
    }
}

/// The findings for a preview of Nix; nothing where its sizes are beyond 64
/// bits.
pub open spec fn nix_rows(output: Seq<char>, settings: ProviderSettings) -> Option<
Seq<FindingModel>,
> {
    let (bytes, count) = nix_sums(output);
    if bytes > u64::MAX || count > u64::MAX {
        None
    } else if bytes < settings.min_size_bytes && count == 0 {
        Some(Seq::empty())
    } else {
        Some(seq![nix_finding_model(bytes as u64, count as u64)])
    }
}

proof fn lemma_lines_bytes_grow(lines: Seq<Seq<char>>, i: int)
    requires
        0 <= i <= lines.len(),
    ensures
        lines_bytes(lines.take(i)) <= lines_bytes(lines),
    decreases lines.len() - i,
{
    if i < lines.len() {
        lemma_lines_bytes_grow(lines, i + 1);
        assert(lines.take(i + 1).drop_last() =~= lines.take(i));
    } else {
        assert(lines.take(i) =~= lines);
    }
}

/// The sizes and store paths in a printed list, where they fit.
fn count_lines(output: &str) -> (r: Option<(u64, u64)>)
    ensures
        ({
                let l = text::lines_of(output@);
                match r {
                    Some((b, n)) => b == lines_bytes(l) && n == store_lines(l),
                    None => lines_bytes(l) > u64::MAX,
                }
        }),
{
    let l = text::lines(output);
    let ghost all = text::lines_of(output@);
    let mut bytes: u64 = 0;
    let mut count: u64 = 0;
    let n: usize = l.len();
    let mut i: usize = 0;
    while i < n
        invariant
            i <= n,
            n == l@.len(),
            all == views(l@),
            all == text::lines_of(output@),
            bytes == lines_bytes(all.take(i as int)),
            count == store_lines(all.take(i as int)),
            count <= i,
        decreases n - i,
    {
        proof {
            lemma_lines_bytes_grow(all, i + 1);
        }
        assert(all.take(i + 1).drop_last() =~= all.take(i as int));
        assert(all[i as int] == l@[i as int]@);
        bytes = match bytes.checked_add(first_bytes(l[i].as_str())) {
            Some(b) => b,
            None => {
                return None;
            },
        };
        if text::contains(l[i].as_str(), "/nix/store/") {
            count += 1;
        }
        i += 1;
    }
    assert(all.take(n as int) =~= all);
    Some((bytes, count))
}

pub fn nix_findings(output: &str, settings: &ProviderSettings) -> (r: Option<Vec<Finding>>)
    ensures
        rows_of(r) == nix_rows(output@, *settings),
{
    let (bytes, count): (u64, u64) = match parse_json(output) {
        Some(v) => match (recursive_size(&v), recursive_path_count(&v)) {
            (Some(b), Some(n)) => (b, n),
            _ => {
                return None;
            },
        },
        None => match count_lines(output) {
            Some(s) => s,
            None => {
                return None;
            },
        },
    };
    let mut found: Vec<Finding> = Vec::new();
    if bytes < settings.min_size_bytes && count == 0 {
        return Some(found);
    }
    found.push(nix_finding(bytes, count));
    assert(views(found@) =~= seq![nix_finding_model(bytes, count)]);
    Some(found)
}

// ---- MacPorts ----

/// The largest size that some words print; nothing where they print none.
pub open spec fn largest_bytes(words: Seq<Seq<char>>) -> u64
    decreases words.len(),
{
    if words.len() == 0 {
        0
    } else {
        let rest = largest_bytes(words.drop_last());
        match printed_bytes(words.last()) {
            Some(n) => if n > rest {
                n
            } else {
                rest
            },
            None => rest,
        }
    }
}

fn most_bytes(words: &Vec<String>) -> (r: u64)
    ensures
        r == largest_bytes(views(words@)),
{
    let ghost all = views(words@);
    let mut most: u64 = 0;
    let mut i: usize = 0;
    while i < words.len()
        invariant
            i <= words@.len(),
            all == views(words@),
            most == largest_bytes(all.take(i as int)),
        decreases words@.len() - i,
    {
        assert(all.take(i + 1).drop_last() =~= all.take(i as int));
        assert(all[i as int] == words@[i as int]@);
        if let Some(n) = parse_human_bytes(words[i].as_str()) {
            if n > most {
                most = n;
            }
        }
        i += 1;
    }
    assert(all.take(i as int) =~= all);
    most
}

/// Whether a preview of MacPorts has nothing to say.
pub open spec fn nothing_to_reclaim(output: Seq<char>) -> bool {
    text::trimmed(output).len() == 0 || text::occurs(
        text::lowered(output),
        "nothing to reclaim"@,
    )
}

/// The finding for what MacPorts would remove.
pub open spec fn macports_model(output: Seq<char>) -> FindingModel {
    draft(
        native_gc(),
        "macports-reclaim"@,
        "package-manager-cache"@,
        "macports-reclaim"@,
        "MacPorts reclaimable files"@,
        Safety::Review,
        largest_bytes(text::words(output)),
    )
        .estimated()
        .reason(
        "MacPorts' reclaim dry run reports inactive or obsolete package-manager data."@,
    )
        .evidence(
        "Preview"@,
        text::joined(at_most(text::lines_of(output), 8), " | "@),
    )
        .copy(
        "Inactive ports, distfiles, archives, and other data selected by MacPorts."@,
        "Reinstalling old ports may require downloads or rebuilds."@,
        "Review the native preview before running MacPorts reclaim."@,
    )
        .action("macports-reclaim"@, seq!["port"@, "-N"@, "reclaim"@], true, true)
        .build()
}

pub open spec fn macports_rows(output: Seq<char>) -> Seq<FindingModel> {
    if nothing_to_reclaim(output) {
        Seq::empty()
    } else {
        seq![macports_model(output)]
    }
}

pub fn macports_findings(output: &str) -> (r: Vec<Finding>)
    ensures
        views(r@) == macports_rows(output@),
{
    let mut found: Vec<Finding> = Vec::new();
    if text::trim(output).as_str().is_empty() || text::contains(
        text::to_ascii_lowercase(output).as_str(),
        "nothing to reclaim",
    ) {
        return found;
    }
    let bytes: u64 = most_bytes(&text::split_whitespace(output));
    let mut shown = text::lines(output);
    if shown.len() > 8 {
        shown.truncate(8);
    }
    assert(views(shown@) =~= at_most(text::lines_of(output@), 8));
    let finding = ProviderFinding::object(
        metadata(),
        "macports-reclaim",
        "package-manager-cache",
        "macports-reclaim",
        "MacPorts reclaimable files",
        Safety::Review,
        bytes,
    )
        .estimated()
        .reason(
        "MacPorts' reclaim dry run reports inactive or obsolete package-manager data.",
    )
        .evidence(
        "Preview",
        text::join(&shown, " | ").as_str(),
    )
        .copy(
        "Inactive ports, distfiles, archives, and other data selected by MacPorts.",
        "Reinstalling old ports may require downloads or rebuilds.",
        "Review the native preview before running MacPorts reclaim.",
    )
        .action("macports-reclaim", text::texts3("port", "-N", "reclaim"), true, true)
        .build();
    found.push(finding);
    assert(views(found@) =~= seq![macports_model(output@)]);
    found
}

/// The findings of all package managers, in the order in which they are asked.
pub fn scan_findings(
    conda: Option<&str>,
    nix: Option<&str>,
    macports: Option<&str>,
    settings: &ProviderSettings,
) -> (r: Option<Vec<Finding>>)
    ensures
        rows_of(r) == scan_rows(
            text::shown(conda),
            text::shown(nix),
            text::shown(macports),
            *settings,
        ),
{
    let mut all: Vec<Finding> = Vec::new();
    assert(views(all@) =~= Seq::<FindingModel>::empty());
    if let Some(t) = conda {
        let mut more = match conda_findings(t, settings) {
            Some(v) => v,
            None => {
                return None;
            },
        };
        all.append(&mut more);
    }
    if let Some(t) = nix {
        let mut more = match nix_findings(t, settings) {
            Some(v) => v,
            None => {
                return None;
            },
        };
        all.append(&mut more);
    }
    if let Some(t) = macports {
        let mut more = macports_findings(t);
        all.append(&mut more);
    }
    Some(all)
}

/// What the package managers that answered would remove; nothing where the
/// sizes of one are beyond 64 bits.
pub open spec fn scan_rows(
    conda: Option<Seq<char>>,
    nix: Option<Seq<char>>,
    macports: Option<Seq<char>>,
    settings: ProviderSettings,
) -> Option<Seq<FindingModel>> {
    let a = match conda {
        Some(t) => conda_rows(t, settings),
        None => Some(Seq::empty()),
    };
    let b = match nix {
        Some(t) => nix_rows(t, settings),
        None => Some(Seq::empty()),
    };
    let c = match macports {
        Some(t) => macports_rows(t),
        None => Seq::empty(),
    };
    if a is Some && b is Some {
        Some(a->0 + b->0 + c)
    } else {
        None
    }
}

// ---- actions ----

/// Whether a command is the one for an action on an object.
pub open spec fn action_command(
    action: Seq<char>,
    object: Seq<char>,
    p: CommandPolicy,
    args: Seq<Seq<char>>,
) -> bool {
    if action == "conda-clean"@ {
        is_policy(
            p,
            "conda-clean"@,
            conda_executables(),
            true,
            false,
            seq![Arg::Is("clean"), Arg::Is("--all"), Arg::Is("--yes")],
        ) && args == seq!["clean"@, "--all"@, "--yes"@]
    } else if action == "nix-gc"@ {
        is_policy(
            p,
            "nix-store-gc"@,
            nix_executables(),
            true,
            false,
            seq![Arg::Is("store"), Arg::Is("gc")],
        ) && args == seq!["store"@, "gc"@]
    } else if action == "macports-reclaim"@ {
        is_policy(
            p,
            "macports-reclaim"@,
            port_executables(),
            true,
            false,
            seq![Arg::Is("-N"), Arg::Is("reclaim")],
        ) && args == seq!["-N"@, "reclaim"@]
    } else {
        false
    }
}

/// The actions that the provider knows.
pub open spec fn known_action(action: Seq<char>) -> bool {
    action == "conda-clean"@
        || action == "nix-gc"@
        || action == "macports-reclaim"@
}

/// The command that carries out the action of a finding.
pub fn plan_action(finding: &Finding) -> (r: Result<(CommandPolicy, Vec<String>), String>)
    ensures
        match finding.native_action {
            None => r matches Err(e) && e@ == "native GC action missing"@,
            Some(a) => match r {
                Ok(c) => known_action(a.action_id@) && action_command(
                    a.action_id@,
                    a.object_id@,
                    c.0,
                    views(c.1@),
                ),
                Err(e) => !known_action(a.action_id@) && e@ == "unknown native GC action "@ + a.action_id@,
            },
        },
{
    match &finding.native_action {
        None => Err("native GC action missing".to_owned()),
        Some(a) => {
            let id = a.action_id.as_str();

            if same(id, "conda-clean") {
                Ok((conda_clean(), text::texts3("clean", "--all", "--yes")))
            } else if same(id, "nix-gc") {
                Ok((nix_gc(), text::texts2("store", "gc")))
            } else if same(id, "macports-reclaim") {
                Ok((port_reclaim(), text::texts2("-N", "reclaim")))
            } else {
                Err("unknown native GC action ".to_owned().concat(id))
            }
        },
    }
}

/// The finding stands where a fresh scan finds it again.
pub fn revalidate(refreshed: &Vec<Finding>, finding: &Finding) -> (r: Revalidation)
    ensures
        r@ == revalidated(refreshed@, finding.stable_id@, "The package manager's garbage-collection result changed."@),
{
    revalidate_against(refreshed, finding, "The package manager's garbage-collection result changed.")
}

/// What a finding's action is reported to have done, once it has run.
pub fn executed(finding: &Finding) -> (r: Option<ProviderExecution>)
    ensures
        match (finding.native_action, r) {
            (None, None) => true,
            (Some(a), Some(e)) => e.deleted == 1 && e.freed_bytes == finding.bytes && e.message@
                == text::joined(views(a.preview@), " "@) + " completed."@,
            _ => false,
        },
{
    match &finding.native_action {
        Some(a) => Some(completed(finding, text::join(&a.preview, " ").concat(" completed."))),
        None => None,
    }
}

/// A command for an action is one that its own policy accepts.
pub proof fn law_planned_commands_are_admitted(
    action: Seq<char>,
    object: Seq<char>,
    p: CommandPolicy,
    args: Seq<Seq<char>>,
)
    requires
        action_command(action, object, p, args),
    ensures
        admits(p.args@, args),
{
}

/// What Conda and Nix report is passed on exactly where it holds what was asked for
/// or names any path.
pub proof fn law_reclaimable_packages_are_reported(output: Seq<char>, settings: ProviderSettings)
    ensures
        match (json_document(output), conda_rows(output, settings)) {
            (None, Some(rows)) => rows.len() == 0,
            (Some(v), Some(rows)) => (rows.len() == 1 <==> size_in(v) >= settings.min_size_bytes || paths_in(v)
                > 0) && rows.len() <= 1 && (rows.len() == 1 ==> rows[0].bytes == size_in(v)),
            (Some(v), None) => size_in(v) > u64::MAX || paths_in(v) > u64::MAX,
            (None, None) => false,
        },
        match nix_rows(output, settings) {
            Some(rows) => (rows.len() == 1 <==> nix_sums(output).0 >= settings.min_size_bytes || nix_sums(
                output,
            ).1 > 0) && rows.len() <= 1 && (rows.len() == 1 ==> rows[0].bytes == nix_sums(output).0
                && rows[0].safety == Safety::Safe),
            None => nix_sums(output).0 > u64::MAX || nix_sums(output).1 > u64::MAX,
        },
{
}

/// MacPorts is passed on exactly where it says anything but that there is nothing to
/// reclaim.
pub proof fn law_macports_is_reported(output: Seq<char>)
    ensures
        macports_rows(output).len() == if text::trimmed(output).len() > 0 && !text::occurs(
            text::lowered(output),
            "nothing to reclaim"@,
        ) {
            1int
        } else {
            0
        },
{
}

/// The bytes that some words state are the most that any of them does.
pub proof fn law_most_bytes_are_taken(words: Seq<Seq<char>>)
    ensures
        forall|i: int|
        0 <= i < words.len() && printed_bytes(#[trigger] words[i]) is Some ==> printed_bytes(words[i])->0
            <= largest_bytes(words),
        largest_bytes(words) == 0 || exists|i: int|
        0 <= i < words.len() && printed_bytes(#[trigger] words[i]) == Some(largest_bytes(words)),
    decreases words.len(),
{
    if words.len() > 0 {
        let less = words.drop_last();
        law_most_bytes_are_taken(less);
        assert forall|i: int| 0 <= i < less.len() implies #[trigger] words[i] == less[i] by {}
        assert(words[words.len() - 1] == words.last());
        if largest_bytes(less) > 0 {
            let i = choose|i: int|
            0 <= i < less.len() && printed_bytes(#[trigger] less[i]) == Some(largest_bytes(less));
            assert(words[i] == less[i]);
        }
    }
}

/// The bytes and the store paths of a list of lines are those of each line together.
pub proof fn law_lines_add_up(lines: Seq<Seq<char>>, line: Seq<char>)
    ensures
        lines_bytes(lines.push(line)) == lines_bytes(lines) + line_bytes(line),
        store_lines(lines.push(line)) == store_lines(lines) + if text::occurs(line, "/nix/store/"@) {
            1int
        } else {
            0
        },
        lines_bytes(Seq::empty()) == 0,
        store_lines(Seq::empty()) == 0,
{
    assert(lines.push(line).drop_last() =~= lines);
}

/// The sizes of a list add up, and those of a record are the largest that one of its
/// entries states.
pub proof fn law_sizes_of_documents(a: Seq<JsonModel>, e: Seq<(Seq<char>, JsonModel)>, n: nat)
    requires
        0 < n,
    ensures
        n <= a.len() ==> items_size(a, n) == items_size(a, (n - 1) as nat) + size_in(a[n - 1]),
        n <= e.len() ==> largest_entry(e, n) >= largest_entry(e, (n - 1) as nat),
        n <= e.len() && (text::occurs(e[n - 1].0, "size"@) || text::occurs(e[n - 1].0, "bytes"@))
            && stated_size(e[n - 1].1) is Some ==> largest_entry(e, n) >= stated_size(e[n - 1].1)->0,
        items_size(a, 0) == 0,
        largest_entry(e, 0) == 0,
{
}

/// What is found is what each of the three finds, one after the other.
pub proof fn law_managers_are_asked_in_turn(
    conda: Option<Seq<char>>,
    nix: Option<Seq<char>>,
    macports: Option<Seq<char>>,
    settings: ProviderSettings,
)
    ensures
        scan_rows(None, None, None, settings) == Some(Seq::<FindingModel>::empty()),
        macports is Some ==> scan_rows(None, None, macports, settings) == Some(macports_rows(macports->0)),
        conda is Some ==> scan_rows(conda, None, None, settings) == conda_rows(conda->0, settings),
        nix is Some ==> scan_rows(None, nix, None, settings) == nix_rows(nix->0, settings),
{
    let none = Seq::<FindingModel>::empty();
    assert(none + none + none =~= none);
    if let Some(m) = macports {
        assert(none + none + macports_rows(m) =~= macports_rows(m));
    }
    if let Some(c) = conda {
        if let Some(rows) = conda_rows(c, settings) {
            assert(rows + none + none =~= rows);
        }
    }
    if let Some(x) = nix {
        if let Some(rows) = nix_rows(x, settings) {
            assert(none + rows + none =~= rows);
        }
    }
}

/// An action is carried out by the command of its tool that does just this, to the
/// object that it names.
pub proof fn law_actions_run_their_command(action: Seq<char>, object: Seq<char>, p: CommandPolicy, args: Seq<Seq<char>>)
    requires
        action_command(action, object, p, args),
    ensures
        p@.mutating,
        ({
            ||| action == "conda-clean"@ && p@.executables.last()@ == "conda"@ && args == seq!["clean"@, "--all"@, "--yes"@]
            ||| action == "nix-gc"@ && p@.executables.last()@ == "nix"@ && args == seq!["store"@, "gc"@]
            ||| action == "macports-reclaim"@ && p@.executables.last()@ == "port"@ && args == seq!["-N"@, "reclaim"@]
        }),
{
}

/// The actions that are known clean Conda, Nix or MacPorts.
pub proof fn law_known_actions_are_carried_out(action: Seq<char>)
    ensures
        known_action(action) <==> action == "conda-clean"@ || action == "nix-gc"@ || action == "macports-reclaim"@,
{
}

} // verus!
