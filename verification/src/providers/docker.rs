//! Docker images, containers, volumes, build cache and networks that nothing
//! refers to any more.

use crate::json::{Json, JsonModel, item_models, json_document, parse_json};
use crate::report::{Finding, FindingModel, FindingSize, SizeAccuracy};
use crate::rules::Safety;
use crate::seqs::{
    at_most, collect_some, find_some, group_views, lemma_collect_step, lemma_find_step, view_of,
    views,
};
use crate::sizes::{capped_sum, plus};
use crate::taxonomy::{Section, Subgroup};
use crate::text;
use crate::text::{digits, same};
use vstd::prelude::*;

use super::command::{Arg, ArgRule, CommandPolicy, admits, is_policy, is_token, is_until};
use super::{
    Capability, Draft, MetadataModel, ProviderExecution, ProviderFinding, ProviderMetadata,
    ProviderSettings, Revalidation, ScanCost, age_from_human, capped_product, completed, draft,
    parse_human_bytes, printed_age, printed_bytes, revalidate_against, revalidated, times,
};

verus! {

broadcast use group_views;

pub struct DockerProvider;

/// What the provider is.
pub open spec fn docker() -> MetadataModel {
    MetadataModel {
        id: "docker"@,
        name: "Docker"@,
        section: Section::Developer,
        subgroup: Subgroup::ContainersVms,
        cost: ScanCost::Fast,
        quick: true,
        deep: true,
        network_in_deep_scan: false,
        supersedes_rules: seq!["docker-advice"@, "docker-user-cache"@],
    }
}

fn metadata() -> (r: ProviderMetadata)
    ensures
        r@ == docker(),
{
    let r = ProviderMetadata {
        id: "docker",
        name: "Docker",
        section: Section::Developer,
        subgroup: Subgroup::ContainersVms,
        cost: ScanCost::Fast,
        quick: true,
        deep: true,
        network_in_deep_scan: false,
        supersedes_rules: &["docker-advice", "docker-user-cache"],
    };
    assert(r@.supersedes_rules =~= docker().supersedes_rules);
    r
}

impl DockerProvider {
    pub fn metadata(&self) -> (r: ProviderMetadata)
        ensures
            r@ == docker(),
    {
        metadata()
    }
}

// ---- commands ----

pub open spec fn docker_executables() -> Seq<&'static str> {
    seq!["/usr/local/bin/docker", "/opt/homebrew/bin/docker", "docker"]
}

/// The command `docker info --format {{json .ServerVersion}}`.
pub fn docker_info() -> (r: CommandPolicy)
    ensures
        is_policy(
            r,
            "docker-info"@,
            docker_executables(),
            false,
            false,
            seq![Arg::Is("info"), Arg::Is("--format"), Arg::Is("{{json .ServerVersion}}")],
        ),
{
    let r = CommandPolicy {
        id: "docker-info",
        executables: &["/usr/local/bin/docker", "/opt/homebrew/bin/docker", "docker"],
        mutating: false,
        network: false,
        args: ArgRule::Form(&[Arg::Is("info"), Arg::Is("--format"), Arg::Is("{{json .ServerVersion}}")]),
    };
    assert(r.executables@ =~= docker_executables());
    r
}

/// The command `docker context show`.
pub fn docker_context_show() -> (r: CommandPolicy)
    ensures
        is_policy(
            r,
            "docker-context-show"@,
            docker_executables(),
            false,
            false,
            seq![Arg::Is("context"), Arg::Is("show")],
        ),
{
    let r = CommandPolicy {
        id: "docker-context-show",
        executables: &["/usr/local/bin/docker", "/opt/homebrew/bin/docker", "docker"],
        mutating: false,
        network: false,
        args: ArgRule::Form(&[Arg::Is("context"), Arg::Is("show")]),
    };
    assert(r.executables@ =~= docker_executables());
    r
}

/// The command `docker context inspect <name> --format {{json .Endpoints.docker.Host}}`.
pub fn docker_context_inspect() -> (r: CommandPolicy)
    ensures
        is_policy(
            r,
            "docker-context-inspect"@,
            docker_executables(),
            false,
            false,
            seq![Arg::Is("context"), Arg::Is("inspect"), Arg::Token, Arg::Is("--format"), Arg::Is("{{json .Endpoints.docker.Host}}")],
        ),
{
    let r = CommandPolicy {
        id: "docker-context-inspect",
        executables: &["/usr/local/bin/docker", "/opt/homebrew/bin/docker", "docker"],
        mutating: false,
        network: false,
        args: ArgRule::Form(&[Arg::Is("context"), Arg::Is("inspect"), Arg::Token, Arg::Is("--format"), Arg::Is("{{json .Endpoints.docker.Host}}")]),
    };
    assert(r.executables@ =~= docker_executables());
    r
}

/// The command `docker system df -v --format json`.
pub fn docker_df() -> (r: CommandPolicy)
    ensures
        is_policy(
            r,
            "docker-system-df"@,
            docker_executables(),
            false,
            false,
            seq![Arg::Is("system"), Arg::Is("df"), Arg::Is("-v"), Arg::Is("--format"), Arg::Is("json")],
        ),
{
    let r = CommandPolicy {
        id: "docker-system-df",
        executables: &["/usr/local/bin/docker", "/opt/homebrew/bin/docker", "docker"],
        mutating: false,
        network: false,
        args: ArgRule::Form(&[Arg::Is("system"), Arg::Is("df"), Arg::Is("-v"), Arg::Is("--format"), Arg::Is("json")]),
    };
    assert(r.executables@ =~= docker_executables());
    r
}

/// The command `docker system df --format {{json .}}`.
pub fn docker_df_summary() -> (r: CommandPolicy)
    ensures
        is_policy(
            r,
            "docker-system-df-summary"@,
            docker_executables(),
            false,
            false,
            seq![Arg::Is("system"), Arg::Is("df"), Arg::Is("--format"), Arg::Is("{{json .}}")],
        ),
{
    let r = CommandPolicy {
        id: "docker-system-df-summary",
        executables: &["/usr/local/bin/docker", "/opt/homebrew/bin/docker", "docker"],
        mutating: false,
        network: false,
        args: ArgRule::Form(&[Arg::Is("system"), Arg::Is("df"), Arg::Is("--format"), Arg::Is("{{json .}}")]),
    };
    assert(r.executables@ =~= docker_executables());
    r
}

/// The command `docker network ls --filter type=custom --format {{json .}}`.
pub fn docker_networks() -> (r: CommandPolicy)
    ensures
        is_policy(
            r,
            "docker-network-list"@,
            docker_executables(),
            false,
            false,
            seq![Arg::Is("network"), Arg::Is("ls"), Arg::Is("--filter"), Arg::Is("type=custom"), Arg::Is("--format"), Arg::Is("{{json .}}")],
        ),
{
    let r = CommandPolicy {
        id: "docker-network-list",
        executables: &["/usr/local/bin/docker", "/opt/homebrew/bin/docker", "docker"],
        mutating: false,
        network: false,
        args: ArgRule::Form(&[Arg::Is("network"), Arg::Is("ls"), Arg::Is("--filter"), Arg::Is("type=custom"), Arg::Is("--format"), Arg::Is("{{json .}}")]),
    };
    assert(r.executables@ =~= docker_executables());
    r
}

/// Inspects one network or more.
pub fn docker_network_inspect() -> (r: CommandPolicy)
    ensures
        r.id@ == "docker-network-inspect"@,
        r.executables@ == docker_executables(),
        !r.mutating,
        !r.network,
        r.args matches ArgRule::OpenEnded(f) && f@ == seq![
            Arg::Is("network"),
            Arg::Is("inspect"),
            Arg::Is("--format"),
            Arg::Is("{{len .Containers}}"),
            Arg::Token,
        ],
{
    let r = CommandPolicy {
        id: "docker-network-inspect",
        executables: &["/usr/local/bin/docker", "/opt/homebrew/bin/docker", "docker"],
        mutating: false,
        network: false,
        args: ArgRule::OpenEnded(
            &[
                Arg::Is("network"),
                Arg::Is("inspect"),
                Arg::Is("--format"),
                Arg::Is("{{len .Containers}}"),
                Arg::Token,
            ],
        ),
    };
    assert(r.executables@ =~= docker_executables());
    r
}

/// The command `docker image rm <name>`.
pub fn docker_image_rm() -> (r: CommandPolicy)
    ensures
        is_policy(
            r,
            "docker-image-rm"@,
            docker_executables(),
            true,
            false,
            seq![Arg::Is("image"), Arg::Is("rm"), Arg::Token],
        ),
{
    let r = CommandPolicy {
        id: "docker-image-rm",
        executables: &["/usr/local/bin/docker", "/opt/homebrew/bin/docker", "docker"],
        mutating: true,
        network: false,
        args: ArgRule::Form(&[Arg::Is("image"), Arg::Is("rm"), Arg::Token]),
    };
    assert(r.executables@ =~= docker_executables());
    r
}

/// The command `docker container rm <name>`.
pub fn docker_container_rm() -> (r: CommandPolicy)
    ensures
        is_policy(
            r,
            "docker-container-rm"@,
            docker_executables(),
            true,
            false,
            seq![Arg::Is("container"), Arg::Is("rm"), Arg::Token],
        ),
{
    let r = CommandPolicy {
        id: "docker-container-rm",
        executables: &["/usr/local/bin/docker", "/opt/homebrew/bin/docker", "docker"],
        mutating: true,
        network: false,
        args: ArgRule::Form(&[Arg::Is("container"), Arg::Is("rm"), Arg::Token]),
    };
    assert(r.executables@ =~= docker_executables());
    r
}

/// The command `docker volume rm <name>`.
pub fn docker_volume_rm() -> (r: CommandPolicy)
    ensures
        is_policy(
            r,
            "docker-volume-rm"@,
            docker_executables(),
            true,
            false,
            seq![Arg::Is("volume"), Arg::Is("rm"), Arg::Token],
        ),
{
    let r = CommandPolicy {
        id: "docker-volume-rm",
        executables: &["/usr/local/bin/docker", "/opt/homebrew/bin/docker", "docker"],
        mutating: true,
        network: false,
        args: ArgRule::Form(&[Arg::Is("volume"), Arg::Is("rm"), Arg::Token]),
    };
    assert(r.executables@ =~= docker_executables());
    r
}

/// The command `docker network rm <name>`.
pub fn docker_network_rm() -> (r: CommandPolicy)
    ensures
        is_policy(
            r,
            "docker-network-rm"@,
            docker_executables(),
            true,
            false,
            seq![Arg::Is("network"), Arg::Is("rm"), Arg::Token],
        ),
{
    let r = CommandPolicy {
        id: "docker-network-rm",
        executables: &["/usr/local/bin/docker", "/opt/homebrew/bin/docker", "docker"],
        mutating: true,
        network: false,
        args: ArgRule::Form(&[Arg::Is("network"), Arg::Is("rm"), Arg::Token]),
    };
    assert(r.executables@ =~= docker_executables());
    r
}

/// The command `docker builder prune --force --filter until=<age>`.
pub fn docker_builder_prune() -> (r: CommandPolicy)
    ensures
        is_policy(
            r,
            "docker-builder-prune"@,
            docker_executables(),
            true,
            false,
            seq![Arg::Is("builder"), Arg::Is("prune"), Arg::Is("--force"), Arg::Is("--filter"), Arg::Until],
        ),
{
    let r = CommandPolicy {
        id: "docker-builder-prune",
        executables: &["/usr/local/bin/docker", "/opt/homebrew/bin/docker", "docker"],
        mutating: true,
        network: false,
        args: ArgRule::Form(&[Arg::Is("builder"), Arg::Is("prune"), Arg::Is("--force"), Arg::Is("--filter"), Arg::Until]),
    };
    assert(r.executables@ =~= docker_executables());
    r
}

// ---- probing ----

/// What a command printed, where all of it was kept.
pub fn whole_output(policy: &CommandPolicy, stdout: String, truncated: bool) -> (r: Result<
    String,
    String,
>)
    ensures
        match r {
            Ok(s) => !truncated && s@ == stdout@,
            Err(m) => truncated && m@ == policy.id@ + " output exceeded the safety limit"@,
        },
{
    if truncated {
        Err(policy.id.to_owned().concat(" output exceeded the safety limit"))
    } else {
        Ok(stdout)
    }
}

/// Whether the address of a Docker engine is on this machine.
pub open spec fn local_host(host: Seq<char>) -> bool {
    text::begins(host, "unix://"@) || text::begins(host, "npipe://"@)
}

/// The name of the context that is in use, as `docker context show` printed it.
pub fn context_name(output: &str) -> (r: Option<String>)
    ensures
        view_of(r) == if text::trimmed(output@).len() > 0 {
            Some(text::trimmed(output@))
        } else {
            None
        },
{
    let name = text::trim(output);
    if name.as_str().is_empty() {
        None
    } else {
        Some(name)
    }
}

/// A text without the quotes around it.
pub open spec fn unquoted(s: Seq<char>) -> Seq<char> {
    text::trim_end_of(text::trim_start_of(s, '"'), '"')
}

/// The address of an engine, as `docker context inspect` printed it.
pub fn context_host(output: &str) -> (r: String)
    ensures
        r@ == unquoted(text::trimmed(output@)),
{
    let line = text::trim(output);
    let opened = text::trim_start_matches(line.as_str(), '"');
    text::trim_end_matches(opened.as_str(), '"')
}

/// The reason not to scan a context that is not on this machine.
pub fn remote_context(name: &str, host: &str) -> (r: Option<String>)
    ensures
        view_of(r) == if host@.len() > 0 && !local_host(host@) {
            Some(
                "Active Docker context `"@ + name@ + "` is remote ("@ + host@
                    + "); remote storage is not scanned by default."@,
            )
        } else {
            None
        },
{
    if !host.is_empty() && !text::starts_with(host, "unix://") && !text::starts_with(
        host,
        "npipe://",
    ) {
        Some(
            "Active Docker context `".to_owned().concat(name).concat("` is remote (").concat(
                host,
            ).concat("); remote storage is not scanned by default."),
        )
    } else {
        None
    }
}

/// What an engine that does not answer means.
pub fn engine_error(message: &str) -> (r: Capability)
    ensures
        if text::occurs(text::lowered(message@), "permission denied"@) {
            r matches Capability::PermissionDenied(m) && m@ == message@
        } else {
            r matches Capability::Unavailable(m) && m@
                == "Docker engine is not reachable; it was not started automatically. "@ + message@
        },
{
    if text::contains(text::to_ascii_lowercase(message).as_str(), "permission denied") {
        Capability::PermissionDenied(message.to_owned())
    } else {
        Capability::Unavailable(
            "Docker engine is not reachable; it was not started automatically. ".to_owned().concat(
                message,
            ),
        )
    }
}

// ---- reading what Docker prints ----

/// An entry as text: strings, numbers and truth values as they are printed.
pub open spec fn printed(v: JsonModel, key: Seq<char>) -> Seq<char> {
    match v.get(key) {
        Some(JsonModel::Text(t)) => t,
        Some(JsonModel::Number(t, _)) => t,
        Some(JsonModel::Bool(b)) => if b {
            "true"@
        } else {
            "false"@
        },
        _ => Seq::empty(),
    }
}

fn string(value: &Json, key: &str) -> (r: String)
    ensures
        r@ == printed(value@, key@),
{
    match value.get(key) {
        Some(v) => match v {
            Json::Text(t) => t.clone(),
            Json::Number(t, _) => t.clone(),
            Json::Bool(b) => if *b {
                "true".to_owned()
            } else {
                "false".to_owned()
            },
            _ => String::new(),
        },
        None => String::new(),
    }
}

/// An entry that holds a byte count; nothing counts as none.
pub open spec fn printed_size(v: JsonModel, key: Seq<char>) -> u64 {
    match printed_bytes(printed(v, key)) {
        Some(n) => n,
        None => 0,
    }
}

fn bytes(value: &Json, key: &str) -> (r: u64)
    ensures
        r == printed_size(value@, key@),
{
    match parse_human_bytes(string(value, key).as_str()) {
        Some(n) => n,
        None => 0,
    }
}

/// An entry that counts something; nothing counts as none.
pub open spec fn printed_count(v: JsonModel, key: Seq<char>) -> u64 {
    match text::unsigned(printed(v, key)) {
        Some(n) => n,
        None => 0,
    }
}

fn count(value: &Json, key: &str) -> (r: u64)
    ensures
        r == printed_count(value@, key@),
{
    match text::parse_u64(string(value, key).as_str()) {
        Some(n) => n,
        None => 0,
    }
}

/// The first twelve characters of an id, without its algorithm.
pub open spec fn short(id: Seq<char>) -> Seq<char> {
    at_most(
        match text::without_prefix(id, "sha256:"@) {
            Some(rest) => rest,
            None => id,
        },
        12,
    )
}

/// The first twelve characters of a text.
pub fn twelve(s: &str) -> (r: String)
    ensures
        r@ == at_most(s@, 12),
{
    let v = text::chars_of(s);
    let n: usize = if v.len() > 12 {
        12
    } else {
        v.len()
    };
    assert(v@.subrange(0, n as int) =~= at_most(s@, 12));
    text::text_of(&v, 0, n)
}

/// The first twelve characters of an id, without its algorithm.
pub fn short_id(id: &str) -> (r: String)
    ensures
        r@ == short(id@),
{
    match text::strip_prefix(id, "sha256:") {
        Some(rest) => twelve(rest.as_str()),
        None => twelve(id),
    }
}

pub open spec fn project_of_label() -> spec_fn(Seq<char>) -> Option<Seq<char>> {
    |label: Seq<char>|
        text::without_prefix(text::trimmed(label), "com.docker.compose.project="@)
}

/// The Compose project that the labels of an object name.
pub open spec fn project(labels: Seq<char>) -> Seq<char> {
    match find_some(text::pieces(labels, text::is_char(',')), project_of_label()) {
        Some(p) => p,
        None => "none"@,
    }
}

/// The Compose project that the labels of an object name.
pub fn compose_project(labels: &str) -> (r: String)
    ensures
        r@ == project(labels@),
{
    let parts = text::split(labels, ',');
    let ghost p = views(parts@);
    let ghost f = project_of_label();
    let mut i: usize = 0;
    assert(p.skip(0) =~= p);
    while i < parts.len()
        invariant
            i <= parts@.len(),
            p == views(parts@),
            f == project_of_label(),
            p == text::pieces(labels@, text::is_char(',')),
            find_some(p, f) == find_some(p.skip(i as int), f),
        decreases parts@.len() - i,
    {
        proof {
            lemma_find_step(p, i as int, f);
        }
        assert(p[i as int] == parts@[i as int]@);
        if let Some(name) = text::strip_prefix(
            text::trim(parts[i].as_str()).as_str(),
            "com.docker.compose.project=",
        ) {
            return name;
        }
        i += 1;
    }
    "none".to_owned()
}

// ---- images ----

/// The finding for an image: none where a container uses it, or it is small.
pub open spec fn image_row(settings: ProviderSettings) -> spec_fn(JsonModel) -> Option<
    FindingModel,
> {
    |image: JsonModel|
        {
            let id = printed(image, "ID"@);
            let unique = printed_size(image, "UniqueSize"@);
            if printed_count(image, "Containers"@) != 0 || id.len() == 0 || unique
                < settings.min_size_bytes {
                None
            } else {
                Some(image_draft(settings, image, id, unique).build())
            }
        }
}

pub open spec fn is_dangling(image: JsonModel) -> bool {
    printed(image, "Repository"@) == "<none>"@ || printed(image, "Tag"@) == "<none>"@
}

pub open spec fn image_draft(
    settings: ProviderSettings,
    image: JsonModel,
    id: Seq<char>,
    unique: u64,
) -> Draft {
    let repository = printed(image, "Repository"@);
    let tag = printed(image, "Tag"@);
    let dangling = is_dangling(image);
    let shared = printed_size(image, "SharedSize"@);
    let age = printed_age(printed(image, "CreatedSince"@));
    draft(
        docker(),
        if dangling {
            "docker-dangling-image"@
        } else {
            "docker-unused-image"@
        },
        "virtualization"@,
        id,
        if dangling {
            "Dangling image "@ + short(id)
        } else {
            repository + ":"@ + tag
        },
        if dangling {
            Safety::Safe
        } else {
            Safety::Review
        },
        unique,
    ).size(
        FindingSize {
            logical: printed_size(image, "Size"@),
            physical: capped_sum(unique, shared),
            unique,
            shared,
            reclaimable: unique,
            accuracy: SizeAccuracy::Exact,
        },
    ).age(age, age is Some && age->0 < settings.min_age_days).reason(
        "No container currently references this image."@,
    ).evidence("Image ID"@, short(id)).evidence("Repository"@, repository).evidence("Tag"@, tag).copy(
        "A local Docker image with no container references."@,
        "The image must be pulled or rebuilt if it is needed again."@,
        "Remove dangling images freely; review named images that may represent recent local builds."@,
    ).action("remove-image"@, seq!["docker"@, "image"@, "rm"@, id], true, !dangling)
}

fn image_finding(image: &Json, settings: &ProviderSettings) -> (r: Option<Finding>)
    ensures
        view_of(r) == image_row(*settings)(image@),
{
    if count(image, "Containers") != 0 {
        return None;
    }
    let id = string(image, "ID");
    if id.as_str().is_empty() {
        return None;
    }
    let repository = string(image, "Repository");
    let tag = string(image, "Tag");
    let dangling = same(repository.as_str(), "<none>") || same(tag.as_str(), "<none>");
    let unique: u64 = bytes(image, "UniqueSize");
    if unique < settings.min_size_bytes {
        return None;
    }
    let shared: u64 = bytes(image, "SharedSize");
    let logical: u64 = bytes(image, "Size");
    let age = age_from_human(string(image, "CreatedSince").as_str());
    let recent = match age {
        Some(days) => days < settings.min_age_days,
        None => false,
    };
    let label = if dangling {
        "Dangling image ".to_owned().concat(short_id(id.as_str()).as_str())
    } else {
        repository.clone().concat(":").concat(tag.as_str())
    };
    let short = short_id(id.as_str());
    Some(
        ProviderFinding::object(
            metadata(),
            if dangling {
                "docker-dangling-image"
            } else {
                "docker-unused-image"
            },
            "virtualization",
            id.as_str(),
            label.as_str(),
            if dangling {
                Safety::Safe
            } else {
                Safety::Review
            },
            unique,
        ).size(
            FindingSize {
                logical,
                physical: plus(unique, shared),
                unique,
                shared,
                reclaimable: unique,
                accuracy: SizeAccuracy::Exact,
            },
        ).age(age, recent).reason("No container currently references this image.").evidence(
            "Image ID",
            short.as_str(),
        ).evidence("Repository", repository.as_str()).evidence("Tag", tag.as_str()).copy(
            "A local Docker image with no container references.",
            "The image must be pulled or rebuilt if it is needed again.",
            "Remove dangling images freely; review named images that may represent recent local builds.",
        ).action(
            "remove-image",
            text::texts4("docker", "image", "rm", id.as_str()),
            true,
            !dangling,
        ).build(),
    )
}

/// The images that no container uses.
pub fn image_findings(root: &Json, settings: &ProviderSettings) -> (r: Vec<Finding>)
    ensures
        views(r@) == collect_some(
            at_most(root@.items_at("Images"@), 20_000),
            image_row(*settings),
        ),
{
    let ghost f = image_row(*settings);
    let mut out: Vec<Finding> = Vec::new();
    if let Some(items) = root.array("Images") {
        let ghost all = item_models(items@);
        let limit: usize = if items.len() > 20_000 {
            20_000
        } else {
            items.len()
        };
        let mut i: usize = 0;
        while i < limit
            invariant
                i <= limit <= items@.len(),
                all == item_models(items@),
                f == image_row(*settings),
                views(out@) == collect_some(all.take(i as int), f),
            decreases limit - i,
        {
            proof {
                lemma_collect_step(all, i as int, f);
            }
            assert(all[i as int] == items@[i as int]@);
            if let Some(finding) = image_finding(&items[i], settings) {
                out.push(finding);
            }
            i += 1;
        }
        assert(all.take(limit as int) =~= at_most(all, 20_000));
    } else {
        assert(at_most(root@.items_at("Images"@), 20_000).len() == 0);
    }
    out
}

// ---- containers ----

/// Whether a container is at work.
pub open spec fn at_work(state: Seq<char>) -> bool {
    state == "running"@ || state == "restarting"@
}

/// The finding for a container: none where it is at work, or small.
pub open spec fn container_row(settings: ProviderSettings) -> spec_fn(JsonModel) -> Option<
    FindingModel,
> {
    |container: JsonModel|
        {
            let state = text::lowered(printed(container, "State"@));
            let id = printed(container, "ID"@);
            let size = printed_size(container, "Size"@);
            if at_work(state) || id.len() == 0 || size < settings.min_size_bytes {
                None
            } else {
                Some(container_draft(container, state, id, size).build())
            }
        }
}

pub open spec fn container_draft(
    container: JsonModel,
    state: Seq<char>,
    id: Seq<char>,
    size: u64,
) -> Draft {
    let name = printed(container, "Names"@);
    draft(
        docker(),
        "docker-stopped-container"@,
        "virtualization"@,
        id,
        if name.len() == 0 {
            "Stopped container "@ + short(id)
        } else {
            name
        },
        Safety::Review,
        size,
    ).reason("The container is not running."@).evidence("Container ID"@, short(id)).evidence(
        "State"@,
        state,
    ).evidence("Image"@, printed(container, "Image"@)).evidence(
        "Compose project"@,
        project(printed(container, "Labels"@)),
    ).copy(
        "A stopped Docker container and its writable layer."@,
        "Container-local changes and logs are permanently removed; named volumes remain untouched."@,
        "Review the Compose project and container name before removal."@,
    ).action("remove-container"@, seq!["docker"@, "container"@, "rm"@, id], true, true)
}

fn container_finding(container: &Json, settings: &ProviderSettings) -> (r: Option<Finding>)
    ensures
        view_of(r) == container_row(*settings)(container@),
{
    let state = text::to_ascii_lowercase(string(container, "State").as_str());
    if same(state.as_str(), "running") || same(state.as_str(), "restarting") {
        return None;
    }
    let id = string(container, "ID");
    if id.as_str().is_empty() {
        return None;
    }
    let name = string(container, "Names");
    let size: u64 = bytes(container, "Size");
    if size < settings.min_size_bytes {
        return None;
    }
    let short = short_id(id.as_str());
    let label = if name.as_str().is_empty() {
        "Stopped container ".to_owned().concat(short.as_str())
    } else {
        name
    };
    Some(
        ProviderFinding::object(
            metadata(),
            "docker-stopped-container",
            "virtualization",
            id.as_str(),
            label.as_str(),
            Safety::Review,
            size,
        ).reason("The container is not running.").evidence(
            "Container ID",
            short.as_str(),
        ).evidence("State", state.as_str()).evidence(
            "Image",
            string(container, "Image").as_str(),
        ).evidence(
            "Compose project",
            compose_project(string(container, "Labels").as_str()).as_str(),
        ).copy(
            "A stopped Docker container and its writable layer.",
            "Container-local changes and logs are permanently removed; named volumes remain untouched.",
            "Review the Compose project and container name before removal.",
        ).action(
            "remove-container",
            text::texts4("docker", "container", "rm", id.as_str()),
            true,
            true,
        ).build(),
    )
}

/// The containers that do not run.
pub fn container_findings(root: &Json, settings: &ProviderSettings) -> (r: Vec<Finding>)
    ensures
        views(r@) == collect_some(
            at_most(root@.items_at("Containers"@), 20000),
            container_row(*settings),
        ),
{
    let ghost f = container_row(*settings);
    let mut out: Vec<Finding> = Vec::new();
    if let Some(items) = root.array("Containers") {
        let ghost all = item_models(items@);
        let limit: usize = if items.len() > 20000 {
            20000
        } else {
            items.len()
        };
        let mut i: usize = 0;
        while i < limit
            invariant
                i <= limit <= items@.len(),
                all == item_models(items@),
                f == container_row(*settings),
                views(out@) == collect_some(all.take(i as int), f),
            decreases limit - i,
        {
            proof {
                lemma_collect_step(all, i as int, f);
            }
            assert(all[i as int] == items@[i as int]@);
            if let Some(finding) = container_finding(&items[i], settings) {
                out.push(finding);
            }
            i += 1;
        }
        assert(all.take(limit as int) =~= at_most(all, 20000));
    } else {
        assert(at_most(root@.items_at("Containers"@), 20000).len() == 0);
    }
    out
}

// ---- volumes ----

pub open spec fn is_hex(c: char) -> bool {
    ('0' <= c && c <= '9') || ('a' <= c && c <= 'f') || ('A' <= c && c <= 'F')
}

/// Whether a text is made of hexadecimal digits.
pub open spec fn all_hex(s: Seq<char>) -> bool {
    forall|i: int| 0 <= i < s.len() ==> is_hex(#[trigger] s[i])
}

/// Whether a text is made of hexadecimal digits.
pub fn only_hex(s: &str) -> (r: bool)
    ensures
        r == all_hex(s@),
{
    let v = text::chars_of(s);
    let mut i: usize = 0;
    while i < v.len()
        invariant
            i <= v@.len(),
            v@ == s@,
            forall|j: int| 0 <= j < i ==> is_hex(#[trigger] v@[j]),
        decreases v@.len() - i,
    {
        let c = v[i];
        if !(('0' <= c && c <= '9') || ('a' <= c && c <= 'f') || ('A' <= c && c <= 'F')) {
            assert(!is_hex(v@[i as int]));
            return false;
        }
        i += 1;
    }
    true
}

/// A volume that nobody named: no labels, and a long hexadecimal name.
pub open spec fn anonymous(volume: JsonModel) -> bool {
    let name = printed(volume, "Name"@);
    printed(volume, "Labels"@).len() == 0 && text::byte_len(name) >= 48 && all_hex(name)
}

/// The finding for a volume: none where a container links it, or it is small.
pub open spec fn volume_row(settings: ProviderSettings) -> spec_fn(JsonModel) -> Option<
    FindingModel,
> {
    |volume: JsonModel|
        {
            let name = printed(volume, "Name"@);
            let size = printed_size(volume, "Size"@);
            if printed_count(volume, "Links"@) != 0 || name.len() == 0 || size
                < settings.min_size_bytes {
                None
            } else if anonymous(volume) {
                Some(volume_draft(volume, name, size).build())
            } else {
                Some(volume_draft(volume, name, size).manual().build())
            }
        }
}

pub open spec fn volume_draft(volume: JsonModel, name: Seq<char>, size: u64) -> Draft {
    draft(
        docker(),
        "docker-unused-volume"@,
        "virtualization"@,
        name,
        "Unused volume "@ + name,
        Safety::Review,
        size,
    ).reason("Docker reports no container links to this volume."@).evidence(
        "Volume"@,
        name,
    ).evidence(
        "Ownership"@,
        if anonymous(volume) {
            "anonymous volume"@
        } else {
            "named or Compose-managed volume"@
        },
    ).evidence("Compose project"@, project(printed(volume, "Labels"@))).copy(
        "Persistent data stored in a Docker volume with no current container links."@,
        "Deleting the volume permanently removes databases, uploads, and other persistent service data."@,
        if anonymous(volume) {
            "Review the creation context before removal, even though the volume appears anonymous."@
        } else {
            "Named and Compose volumes always require explicit manual selection."@
        },
    ).action("remove-volume"@, seq!["docker"@, "volume"@, "rm"@, name], true, true)
}

fn volume_finding(volume: &Json, settings: &ProviderSettings) -> (r: Option<Finding>)
    ensures
        view_of(r) == volume_row(*settings)(volume@),
{
    if count(volume, "Links") != 0 {
        return None;
    }
    let name = string(volume, "Name");
    if name.as_str().is_empty() {
        return None;
    }
    let labels = string(volume, "Labels");
    let (_, under) = text::cut_bytes(name.as_str(), 47);
    let anonymous = labels.as_str().is_empty() && !under && only_hex(name.as_str());
    let size: u64 = bytes(volume, "Size");
    if size < settings.min_size_bytes {
        return None;
    }
    let builder = ProviderFinding::object(
        metadata(),
        "docker-unused-volume",
        "virtualization",
        name.as_str(),
        "Unused volume ".to_owned().concat(name.as_str()).as_str(),
        Safety::Review,
        size,
    ).reason("Docker reports no container links to this volume.").evidence(
        "Volume",
        name.as_str(),
    ).evidence(
        "Ownership",
        if anonymous {
            "anonymous volume"
        } else {
            "named or Compose-managed volume"
        },
    ).evidence("Compose project", compose_project(labels.as_str()).as_str()).copy(
        "Persistent data stored in a Docker volume with no current container links.",
        "Deleting the volume permanently removes databases, uploads, and other persistent service data.",
        if anonymous {
            "Review the creation context before removal, even though the volume appears anonymous."
        } else {
            "Named and Compose volumes always require explicit manual selection."
        },
    ).action(
        "remove-volume",
        text::texts4("docker", "volume", "rm", name.as_str()),
        true,
        true,
    );
    Some(
        if anonymous {
            builder.build()
        } else {
            builder.manual().build()
        },
    )
}

/// The volumes that no container links.
pub fn volume_findings(root: &Json, settings: &ProviderSettings) -> (r: Vec<Finding>)
    ensures
        views(r@) == collect_some(
            at_most(root@.items_at("Volumes"@), 20000),
            volume_row(*settings),
        ),
{
    let ghost f = volume_row(*settings);
    let mut out: Vec<Finding> = Vec::new();
    if let Some(items) = root.array("Volumes") {
        let ghost all = item_models(items@);
        let limit: usize = if items.len() > 20000 {
            20000
        } else {
            items.len()
        };
        let mut i: usize = 0;
        while i < limit
            invariant
                i <= limit <= items@.len(),
                all == item_models(items@),
                f == volume_row(*settings),
                views(out@) == collect_some(all.take(i as int), f),
            decreases limit - i,
        {
            proof {
                lemma_collect_step(all, i as int, f);
            }
            assert(all[i as int] == items@[i as int]@);
            if let Some(finding) = volume_finding(&items[i], settings) {
                out.push(finding);
            }
            i += 1;
        }
        assert(all.take(limit as int) =~= at_most(all, 20000));
    } else {
        assert(at_most(root@.items_at("Volumes"@), 20000).len() == 0);
    }
    out
}

// ---- build cache ----

/// What the records of the build cache add up to.
pub struct CacheSums {
    pub old_bytes: u64,
    pub old_count: nat,
    pub recent_bytes: u64,
    pub recent_count: nat,
}

/// Whether a record of the build cache cannot be dropped.
pub open spec fn kept_record(cache: JsonModel) -> bool {
    printed(cache, "InUse"@) == "true"@ || printed(cache, "Reclaimable"@) == "false"@
}

/// The days since a record was used; none where that is not told.
pub open spec fn record_age(cache: JsonModel) -> u64 {
    match printed_age(printed(cache, "LastUsedAt"@)) {
        Some(d) => d,
        None => match printed_age(printed(cache, "LastUsedSince"@)) {
            Some(d) => d,
            None => 0,
        },
    }
}

/// The records that can be dropped, by their age.
pub open spec fn cache_sums(items: Seq<JsonModel>, min_age: u64) -> CacheSums
    decreases items.len(),
{
    if items.len() == 0 {
        CacheSums { old_bytes: 0, old_count: 0, recent_bytes: 0, recent_count: 0 }
    } else {
        let s = cache_sums(items.drop_last(), min_age);
        let cache = items.last();
        let size = printed_size(cache, "Size"@);
        if kept_record(cache) {
            s
        } else if record_age(cache) >= min_age {
            CacheSums {
                old_bytes: capped_sum(s.old_bytes, size),
                old_count: s.old_count + 1,
                ..s
            }
        } else {
            CacheSums {
                recent_bytes: capped_sum(s.recent_bytes, size),
                recent_count: s.recent_count + 1,
                ..s
            }
        }
    }
}

/// The share of the reclaimable bytes that falls to the old records, in
/// proportion to their size.
pub open spec fn stale_share(s: CacheSums, aggregate: u64) -> u64 {
    let total = capped_sum(s.old_bytes, s.recent_bytes);
    if total == 0 {
        0
    } else {
        (capped_product(aggregate, s.old_bytes) / total) as u64
    }
}

/// `a - b`, or nothing where `b` is larger.
pub open spec fn excess(a: u64, b: u64) -> u64 {
    if a >= b {
        (a - b) as u64
    } else {
        0
    }
}

pub open spec fn stale_cache_draft(s: CacheSums, stale: u64, min_age: u64) -> Draft {
    draft(
        docker(),
        "docker-stale-build-cache"@,
        "virtualization-cache"@,
        "older-than-"@ + digits(min_age as nat) + "-days"@,
        "BuildKit cache older than "@ + digits(min_age as nat) + " days"@,
        Safety::Safe,
        stale,
    ).size(
        FindingSize {
            logical: s.old_bytes,
            physical: s.old_bytes,
            unique: stale,
            shared: excess(s.old_bytes, stale),
            reclaimable: stale,
            accuracy: if s.recent_count == 0 {
                SizeAccuracy::Exact
            } else {
                SizeAccuracy::Estimated
            },
        },
    ).reason(
        "BuildKit marks these records reclaimable and they exceed the age threshold."@,
    ).evidence("Records"@, digits(s.old_count)).evidence(
        "Age threshold"@,
        digits(min_age as nat) + " days"@,
    ).copy(
        "Unused Docker/BuildKit build layers older than the configured threshold."@,
        "Future image builds may need to download dependencies or rebuild layers."@,
        "The action uses an age-filtered BuildKit prune rather than a full Docker system prune."@,
    ).action(
        "prune-build-cache"@,
        seq![
            "docker"@,
            "builder"@,
            "prune"@,
            "--filter"@,
            "until="@ + digits(capped_product(min_age, 24) as nat) + "h"@,
        ],
        true,
        false,
    )
}

pub open spec fn recent_cache_draft(s: CacheSums, recent: u64) -> Draft {
    draft(
        docker(),
        "docker-recent-build-cache"@,
        "virtualization-cache"@,
        "recent-build-cache"@,
        "Recent reclaimable BuildKit cache"@,
        Safety::Safe,
        recent,
    ).age(Some(0), true).size(
        FindingSize {
            logical: s.recent_bytes,
            physical: s.recent_bytes,
            unique: recent,
            shared: excess(s.recent_bytes, recent),
            reclaimable: recent,
            accuracy: if s.old_count == 0 {
                SizeAccuracy::Exact
            } else {
                SizeAccuracy::Estimated
            },
        },
    ).report_only().reason(
        "BuildKit reports the records as reclaimable, but they are inside the recent-use window."@,
    ).evidence("Records"@, digits(s.recent_count)).copy(
        "Recently used build layers that are technically reclaimable."@,
        "Deleting them now is likely to slow the next Docker build."@,
        "Leave recent build cache in place or lower the provider age threshold explicitly."@,
    )
}

/// The findings for the build cache: one for the old records, one for the
/// recent ones, each where there is enough to gain.
pub open spec fn build_cache_rows(
    root: JsonModel,
    settings: ProviderSettings,
    aggregate: u64,
) -> Seq<FindingModel> {
    let s = cache_sums(at_most(root.items_at("BuildCache"@), 20_000), settings.min_age_days);
    let stale = stale_share(s, aggregate);
    let recent = excess(aggregate, stale);
    let old_rows = if s.old_count > 0 && stale >= settings.min_size_bytes {
        seq![stale_cache_draft(s, stale, settings.min_age_days).build()]
    } else {
        Seq::empty()
    };
    let recent_rows = if s.recent_count > 0 && recent >= settings.min_size_bytes {
        seq![recent_cache_draft(s, recent).build()]
    } else {
        Seq::empty()
    };
    if aggregate == 0 {
        Seq::empty()
    } else {
        old_rows + recent_rows
    }
}

fn minus(a: u64, b: u64) -> (r: u64)
    ensures
        r == excess(a, b),
{
    if a >= b {
        a - b
    } else {
        0
    }
}

/// The build cache that can be dropped: the old part of it is offered, the
/// recent part is reported.
pub fn build_cache_findings(
    root: &Json,
    settings: &ProviderSettings,
    aggregate_reclaimable: u64,
) -> (r: Vec<Finding>)
    ensures
        views(r@) == build_cache_rows(root@, *settings, aggregate_reclaimable),
{
    let mut findings: Vec<Finding> = Vec::new();
    if aggregate_reclaimable == 0 {
        return findings;
    }
    let mut old_bytes: u64 = 0;
    let mut old_count: u64 = 0;
    let mut recent_bytes: u64 = 0;
    let mut recent_count: u64 = 0;
    let ghost listed = at_most(root@.items_at("BuildCache"@), 20_000);
    let ghost sums = cache_sums(listed, settings.min_age_days);
    if let Some(items) = root.array("BuildCache") {
        let ghost all = item_models(items@);
        let limit: usize = if items.len() > 20_000 {
            20_000
        } else {
            items.len()
        };
        let mut i: usize = 0;
        while i < limit
            invariant
                i <= limit <= items@.len(),
                limit <= 20_000,
                all == item_models(items@),
                old_count <= i,
                recent_count <= i,
                cache_sums(all.take(i as int), settings.min_age_days) == (CacheSums {
                    old_bytes,
                    old_count: old_count as nat,
                    recent_bytes,
                    recent_count: recent_count as nat,
                }),
            decreases limit - i,
        {
            let cache = &items[i];
            assert(all[i as int] == cache@);
            assert(all.take(i + 1).drop_last() =~= all.take(i as int));
            if !(same(string(cache, "InUse").as_str(), "true") || same(
                string(cache, "Reclaimable").as_str(),
                "false",
            )) {
                let size: u64 = bytes(cache, "Size");
                let age: u64 = match age_from_human(string(cache, "LastUsedAt").as_str()) {
                    Some(d) => d,
                    None => match age_from_human(string(cache, "LastUsedSince").as_str()) {
                        Some(d) => d,
                        None => 0,
                    },
                };
                if age >= settings.min_age_days {
                    old_bytes = plus(old_bytes, size);
                    old_count += 1;
                } else {
                    recent_bytes = plus(recent_bytes, size);
                    recent_count += 1;
                }
            }
            i += 1;
        }
        assert(all.take(limit as int) =~= listed);
    }
    let detailed_total: u64 = plus(old_bytes, recent_bytes);
    let stale: u64 = if detailed_total == 0 {
        0
    } else {
        times(aggregate_reclaimable, old_bytes) / detailed_total
    };
    let recent: u64 = minus(aggregate_reclaimable, stale);
    assert(stale == stale_share(sums, aggregate_reclaimable));
    let days = text::decimal(settings.min_age_days);
    let ghost old_rows = if sums.old_count > 0 && stale >= settings.min_size_bytes {
        seq![stale_cache_draft(sums, stale, settings.min_age_days).build()]
    } else {
        Seq::empty()
    };
    if old_count > 0 && stale >= settings.min_size_bytes {
        let object = "older-than-".to_owned().concat(days.as_str()).concat("-days");
        let label = "BuildKit cache older than ".to_owned().concat(days.as_str()).concat(" days");
        let until = "until=".to_owned().concat(
            text::decimal(times(settings.min_age_days, 24)).as_str(),
        ).concat("h");
        findings.push(
            ProviderFinding::object(
                metadata(),
                "docker-stale-build-cache",
                "virtualization-cache",
                object.as_str(),
                label.as_str(),
                Safety::Safe,
                stale,
            ).size(
                FindingSize {
                    logical: old_bytes,
                    physical: old_bytes,
                    unique: stale,
                    shared: minus(old_bytes, stale),
                    reclaimable: stale,
                    accuracy: if recent_count == 0 {
                        SizeAccuracy::Exact
                    } else {
                        SizeAccuracy::Estimated
                    },
                },
            ).reason(
                "BuildKit marks these records reclaimable and they exceed the age threshold.",
            ).evidence("Records", text::decimal(old_count).as_str()).evidence(
                "Age threshold",
                days.clone().concat(" days").as_str(),
            ).copy(
                "Unused Docker/BuildKit build layers older than the configured threshold.",
                "Future image builds may need to download dependencies or rebuild layers.",
                "The action uses an age-filtered BuildKit prune rather than a full Docker system prune.",
            ).action(
                "prune-build-cache",
                text::texts5("docker", "builder", "prune", "--filter", until.as_str()),
                true,
                false,
            ).build(),
        );
    }
    assert(views(findings@) =~= old_rows);
    if recent_count > 0 && recent >= settings.min_size_bytes {
        findings.push(
            ProviderFinding::object(
                metadata(),
                "docker-recent-build-cache",
                "virtualization-cache",
                "recent-build-cache",
                "Recent reclaimable BuildKit cache",
                Safety::Safe,
                recent,
            ).age(Some(0), true).size(
                FindingSize {
                    logical: recent_bytes,
                    physical: recent_bytes,
                    unique: recent,
                    shared: minus(recent_bytes, recent),
                    reclaimable: recent,
                    accuracy: if old_count == 0 {
                        SizeAccuracy::Exact
                    } else {
                        SizeAccuracy::Estimated
                    },
                },
            ).report_only().reason(
                "BuildKit reports the records as reclaimable, but they are inside the recent-use window.",
            ).evidence("Records", text::decimal(recent_count).as_str()).copy(
                "Recently used build layers that are technically reclaimable.",
                "Deleting them now is likely to slow the next Docker build.",
                "Leave recent build cache in place or lower the provider age threshold explicitly.",
            ).build(),
        );
        assert(views(findings@) =~= old_rows + seq![recent_cache_draft(sums, recent).build()]);
    } else {
        assert(views(findings@) =~= old_rows + Seq::<FindingModel>::empty());
    }
    findings
}

/// The two parts of the build cache make up what Docker reports, no more.
pub proof fn law_cache_shares_add_up(s: CacheSums, aggregate: u64)
    ensures
        stale_share(s, aggregate) <= aggregate,
        stale_share(s, aggregate) + excess(aggregate, stale_share(s, aggregate)) == aggregate,
{
    let total = capped_sum(s.old_bytes, s.recent_bytes) as int;
    if total > 0 {
        let a = aggregate as int;
        let o = s.old_bytes as int;
        let c = capped_product(aggregate, s.old_bytes) as int;
        assert(c <= a * total) by (nonlinear_arith)
            requires
                c <= a * o,
                o <= total,
                a >= 0,
        ;
        assert(c / total <= a) by (nonlinear_arith)
            requires
                c <= a * total,
                total > 0,
        ;
    }
}

/// A parsed line of JSON.
pub open spec fn parsed_line() -> spec_fn(Seq<char>) -> Option<JsonModel> {
    |line: Seq<char>| json_document(line)
}

/// The JSON documents of the first `limit` lines of an output, one per line.
pub fn parse_lines(output: &str, limit: usize) -> (r: Vec<Json>)
    ensures
        views(r@) == collect_some(
            at_most(text::lines_of(output@), limit as int),
            parsed_line(),
        ),
{
    let lines = text::lines(output);
    let ghost all = views(lines@);
    let ghost f = parsed_line();
    let n: usize = if lines.len() > limit {
        limit
    } else {
        lines.len()
    };
    let mut out: Vec<Json> = Vec::new();
    let mut i: usize = 0;
    while i < n
        invariant
            i <= n <= lines@.len(),
            all == views(lines@),
            f == parsed_line(),
            views(out@) == collect_some(all.take(i as int), f),
        decreases n - i,
    {
        proof {
            lemma_collect_step(all, i as int, f);
        }
        assert(all[i as int] == lines@[i as int]@);
        if let Some(v) = parse_json(lines[i].as_str()) {
            out.push(v);
        }
        i += 1;
    }
    assert(all.take(n as int) =~= at_most(all, limit as int));
    out
}

pub open spec fn if_build_cache() -> spec_fn(JsonModel) -> Option<JsonModel> {
    |entry: JsonModel|
        if printed(entry, "Type"@) == "Build Cache"@ {
            Some(entry)
        } else {
            None
        }
}

/// The bytes that the summary promises for the build cache.
pub open spec fn reclaimable_of(entries: Seq<JsonModel>) -> u64 {
    match find_some(entries, if_build_cache()) {
        None => 0,
        Some(entry) => {
            let w = text::words(printed(entry, "Reclaimable"@));
            match printed_bytes(
                if w.len() > 0 {
                    w[0]
                } else {
                    Seq::empty()
                },
            ) {
                Some(n) => n,
                None => 0,
            }
        },
    }
}

/// The bytes that the entries of a summary promise for the build cache.
pub fn build_reclaimable(entries: &Vec<Json>) -> (r: u64)
    ensures
        r == reclaimable_of(views(entries@)),
{
    let ghost all = views(entries@);
    let ghost f = if_build_cache();
    let mut i: usize = 0;
    assert(all.skip(0) =~= all);
    while i < entries.len()
        invariant
            i <= entries@.len(),
            all == views(entries@),
            f == if_build_cache(),
            find_some(all, f) == find_some(all.skip(i as int), f),
        decreases entries@.len() - i,
    {
        proof {
            lemma_find_step(all, i as int, f);
        }
        assert(all[i as int] == entries@[i as int]@);
        if same(string(&entries[i], "Type").as_str(), "Build Cache") {
            let w = text::split_whitespace(string(&entries[i], "Reclaimable").as_str());
            let amount = if w.len() > 0 {
                assert(views(w@)[0] == w@[0]@);
                parse_human_bytes(w[0].as_str())
            } else {
                parse_human_bytes(String::new().as_str())
            };
            return match amount {
                Some(n) => n,
                None => 0,
            };
        }
        i += 1;
    }
    0
}

/// The bytes that Docker's summary promises for the build cache.
pub fn docker_build_reclaimable(output: &str) -> (r: u64)
    ensures
        r == reclaimable_of(collect_some(text::lines_of(output@), parsed_line())),
{
    let lines = text::lines(output);
    let entries = parse_lines(output, lines.len());
    assert(at_most(text::lines_of(output@), lines@.len() as int) == text::lines_of(output@));
    build_reclaimable(&entries)
}

// ---- networks ----

/// The networks that Docker lists, at most two hundred.
pub fn parse_networks(output: &str) -> (r: Vec<Json>)
    ensures
        views(r@) == collect_some(at_most(text::lines_of(output@), 200), parsed_line()),
{
    parse_lines(output, 200)
}

/// The arguments that ask for the containers of each network.
pub fn network_inspect_args(networks: &Vec<Json>) -> (r: Vec<String>)
    ensures
        views(r@) == seq![
            "network"@,
            "inspect"@,
            "--format"@,
            "{{len .Containers}}"@,
        ] + views(networks@).map_values(|n: JsonModel| printed(n, "ID"@)),
{
    let mut r = text::texts4("network", "inspect", "--format", "{{len .Containers}}");
    let ghost start = views(r@);
    let ghost ids = views(networks@).map_values(|n: JsonModel| printed(n, "ID"@));
    let mut i: usize = 0;
    assert(start + ids.take(0) =~= start);
    while i < networks.len()
        invariant
            i <= networks@.len(),
            ids == views(networks@).map_values(|n: JsonModel| printed(n, "ID"@)),
            views(r@) == start + ids.take(i as int),
        decreases networks@.len() - i,
    {
        r.push(string(&networks[i], "ID"));
        assert(start + ids.take(i + 1) =~= (start + ids.take(i as int)).push(ids[i as int]));
        i += 1;
    }
    assert(ids.take(ids.len() as int) =~= ids);
    r
}

pub open spec fn line_count() -> spec_fn(Seq<char>) -> Option<u64> {
    |line: Seq<char>| text::unsigned(text::trimmed(line))
}

/// The numbers among the lines of an output.
pub fn network_counts(output: &str) -> (r: Vec<u64>)
    ensures
        r@ == collect_some(text::lines_of(output@), line_count()),
{
    let lines = text::lines(output);
    let ghost all = views(lines@);
    let ghost f = line_count();
    let mut out: Vec<u64> = Vec::new();
    let mut i: usize = 0;
    while i < lines.len()
        invariant
            i <= lines@.len(),
            all == views(lines@),
            f == line_count(),
            out@ == collect_some(all.take(i as int), f),
        decreases lines@.len() - i,
    {
        proof {
            lemma_collect_step(all, i as int, f);
        }
        assert(all[i as int] == lines@[i as int]@);
        if let Some(n) = text::parse_u64(text::trim(lines[i].as_str()).as_str()) {
            out.push(n);
        }
        i += 1;
    }
    assert(all.take(lines@.len() as int) =~= all);
    out
}

/// Networks beside the numbers of their containers, as far as both go.
pub open spec fn counted(networks: Seq<JsonModel>, counts: Seq<u64>) -> Seq<(JsonModel, u64)> {
    Seq::new(
        if networks.len() < counts.len() {
            networks.len()
        } else {
            counts.len()
        },
        |i: int| (networks[i], counts[i]),
    )
}

/// The finding for a network: none where it has containers or no id.
pub open spec fn network_row() -> spec_fn((JsonModel, u64)) -> Option<FindingModel> {
    |pair: (JsonModel, u64)|
        if pair.1 != 0 || printed(pair.0, "ID"@).len() == 0 {
            None
        } else {
            Some(network_draft(pair.0).build())
        }
}

pub open spec fn network_draft(network: JsonModel) -> Draft {
    let id = printed(network, "ID"@);
    draft(
        docker(),
        "docker-unused-network"@,
        "virtualization"@,
        id,
        "Unused network "@ + printed(network, "Name"@),
        Safety::Safe,
        0,
    ).reason("The custom Docker network has no attached containers."@).evidence(
        "Driver"@,
        printed(network, "Driver"@),
    ).evidence("Network ID"@, short(id)).copy(
        "A custom Docker network with no attached containers."@,
        "Docker Compose or another tool recreates the network when needed."@,
        "Safe to remove after confirming no stopped workflow expects the network to persist."@,
    ).action("remove-network"@, seq!["docker"@, "network"@, "rm"@, id], true, false)
}

/// The networks to which no container is attached.
pub fn network_findings(networks: &Vec<Json>, counts: &Vec<u64>) -> (r: Vec<Finding>)
    ensures
        views(r@) == collect_some(counted(views(networks@), counts@), network_row()),
{
    let ghost all = counted(views(networks@), counts@);
    let ghost f = network_row();
    let n: usize = if networks.len() < counts.len() {
        networks.len()
    } else {
        counts.len()
    };
    let mut out: Vec<Finding> = Vec::new();
    let mut i: usize = 0;
    while i < n
        invariant
            i <= n,
            n <= networks@.len(),
            n <= counts@.len(),
            n == all.len(),
            all == counted(views(networks@), counts@),
            f == network_row(),
            views(out@) == collect_some(all.take(i as int), f),
        decreases n - i,
    {
        proof {
            lemma_collect_step(all, i as int, f);
        }
        assert(all[i as int] == (networks@[i as int]@, counts@[i as int]));
        let network = &networks[i];
        let id = string(network, "ID");
        if counts[i] == 0 && !id.as_str().is_empty() {
            out.push(
                ProviderFinding::object(
                    metadata(),
                    "docker-unused-network",
                    "virtualization",
                    id.as_str(),
                    "Unused network ".to_owned().concat(string(network, "Name").as_str()).as_str(),
                    Safety::Safe,
                    0,
                ).reason("The custom Docker network has no attached containers.").evidence(
                    "Driver",
                    string(network, "Driver").as_str(),
                ).evidence("Network ID", short_id(id.as_str()).as_str()).copy(
                    "A custom Docker network with no attached containers.",
                    "Docker Compose or another tool recreates the network when needed.",
                    "Safe to remove after confirming no stopped workflow expects the network to persist.",
                ).action(
                    "remove-network",
                    text::texts4("docker", "network", "rm", id.as_str()),
                    true,
                    false,
                ).build(),
            );
        }
        i += 1;
    }
    assert(all.take(n as int) =~= all);
    out
}

// ---- scanning ----

/// The findings in what Docker says of its disk use, networks aside.
pub open spec fn disk_rows(root: JsonModel, settings: ProviderSettings, reclaimable: u64) -> Seq<
    FindingModel,
> {
    collect_some(at_most(root.items_at("Images"@), 20_000), image_row(settings)) + collect_some(
        at_most(root.items_at("Containers"@), 20_000),
        container_row(settings),
    ) + collect_some(at_most(root.items_at("Volumes"@), 20_000), volume_row(settings))
        + build_cache_rows(root, settings, reclaimable)
}

/// The findings in what Docker says of its disk use, networks aside.
pub fn disk_findings(root: &Json, settings: &ProviderSettings, reclaimable: u64) -> (r: Vec<
    Finding,
>)
    ensures
        views(r@) == disk_rows(root@, *settings, reclaimable),
{
    let mut r = image_findings(root, settings);
    let mut more = container_findings(root, settings);
    r.append(&mut more);
    let mut more = volume_findings(root, settings);
    r.append(&mut more);
    let mut more = build_cache_findings(root, settings, reclaimable);
    r.append(&mut more);
    r
}

/// Reads what Docker prints of its disk use, and the summary where there is
/// one; refuses what is no JSON.
pub fn scan_output(output: &str, summary: Option<&str>, settings: &ProviderSettings) -> (r: Result<
    Vec<Finding>,
    String,
>)
    ensures
        match (r, json_document(text::trimmed(output@))) {
            (Ok(v), Some(root)) => views(v@) == disk_rows(
                root,
                *settings,
                match summary {
                    Some(s) => reclaimable_of(collect_some(text::lines_of(s@), parsed_line())),
                    None => 0,
                },
            ),
            (Err(e), None) => e@ == "invalid Docker disk JSON"@,
            _ => false,
        },
{
    let reclaimable: u64 = match summary {
        Some(s) => docker_build_reclaimable(s),
        None => 0,
    };
    match parse_json(text::trim(output).as_str()) {
        Some(root) => Ok(disk_findings(&root, settings, reclaimable)),
        None => Err("invalid Docker disk JSON".to_owned()),
    }
}

// ---- actions ----

/// The days of an age filter such as `older-than-30-days`.
pub open spec fn filter_days(object: Seq<char>) -> Option<u64> {
    match text::without_prefix(object, "older-than-"@) {
        None => None,
        Some(rest) => match text::without_suffix(rest, "-days"@) {
            None => None,
            Some(days) => text::unsigned(days),
        },
    }
}

/// Whether a command is the one for an action on an object.
pub open spec fn action_command(
    action: Seq<char>,
    object: Seq<char>,
    p: CommandPolicy,
    args: Seq<Seq<char>>,
) -> bool {
    if action == "remove-image"@ {
        is_policy(
            p,
            "docker-image-rm"@,
            docker_executables(),
            true,
            false,
            seq![Arg::Is("image"), Arg::Is("rm"), Arg::Token],
        ) && args == seq!["image"@, "rm"@, object]
    } else if action == "remove-container"@ {
        is_policy(
            p,
            "docker-container-rm"@,
            docker_executables(),
            true,
            false,
            seq![Arg::Is("container"), Arg::Is("rm"), Arg::Token],
        ) && args == seq!["container"@, "rm"@, object]
    } else if action == "remove-volume"@ {
        is_policy(
            p,
            "docker-volume-rm"@,
            docker_executables(),
            true,
            false,
            seq![Arg::Is("volume"), Arg::Is("rm"), Arg::Token],
        ) && args == seq!["volume"@, "rm"@, object]
    } else if action == "remove-network"@ {
        is_policy(
            p,
            "docker-network-rm"@,
            docker_executables(),
            true,
            false,
            seq![Arg::Is("network"), Arg::Is("rm"), Arg::Token],
        ) && args == seq!["network"@, "rm"@, object]
    } else {
        &&& action == "prune-build-cache"@
        &&& filter_days(object) is Some
        &&& is_policy(
            p,
            "docker-builder-prune"@,
            docker_executables(),
            true,
            false,
            seq![Arg::Is("builder"), Arg::Is("prune"), Arg::Is("--force"), Arg::Is("--filter"), Arg::Until],
        )
        &&& args == seq![
            "builder"@,
            "prune"@,
            "--force"@,
            "--filter"@,
            "until="@ + digits(capped_product(filter_days(object)->0, 24) as nat) + "h"@,
        ]
    }
}

/// What an action that cannot be taken is answered.
pub open spec fn action_error(action: Seq<char>, object: Seq<char>) -> Option<Seq<char>> {
    if action == "remove-image"@ || action == "remove-container"@ || action == "remove-volume"@
        || action == "remove-network"@ {
        None
    } else if action == "prune-build-cache"@ {
        if filter_days(object) is None {
            Some("invalid BuildKit age filter"@)
        } else {
            None
        }
    } else {
        Some("unknown Docker action "@ + action)
    }
}

/// The command that carries out the action of a finding.
pub fn plan_action(finding: &Finding) -> (r: Result<(CommandPolicy, Vec<String>), String>)
    ensures
        match finding.native_action {
            None => r matches Err(e) && e@ == "Docker action missing"@,
            Some(a) => match r {
                Ok(c) => action_error(a.action_id@, a.object_id@) is None
                    && action_command(a.action_id@, a.object_id@, c.0, views(c.1@)),
                Err(e) => action_error(a.action_id@, a.object_id@) == Some(e@),
            },
        },
{
    match &finding.native_action {
        None => Err("Docker action missing".to_owned()),
        Some(a) => {
            let id = a.action_id.as_str();
            let object = a.object_id.as_str();
            if same(id, "remove-image") {
                Ok((docker_image_rm(), text::texts3("image", "rm", object)))
            } else if same(id, "remove-container") {
                Ok((docker_container_rm(), text::texts3("container", "rm", object)))
            } else if same(id, "remove-volume") {
                Ok((docker_volume_rm(), text::texts3("volume", "rm", object)))
            } else if same(id, "remove-network") {
                Ok((docker_network_rm(), text::texts3("network", "rm", object)))
            } else if same(id, "prune-build-cache") {
                let days = match text::strip_prefix(object, "older-than-") {
                    Some(rest) => match text::strip_suffix(rest.as_str(), "-days") {
                        Some(d) => text::parse_u64(d.as_str()),
                        None => None,
                    },
                    None => None,
                };
                match days {
                    Some(n) => {
                        let until = "until=".to_owned().concat(
                            text::decimal(times(n, 24)).as_str(),
                        ).concat("h");
                        Ok(
                            (
                                docker_builder_prune(),
                                text::texts5("builder", "prune", "--force", "--filter", until.as_str()),
                            ),
                        )
                    },
                    None => Err("invalid BuildKit age filter".to_owned()),
                }
            } else {
                Err("unknown Docker action ".to_owned().concat(id))
            }
        },
    }
}

// ---- laws ----

/// The finding stands where a fresh scan finds it again.
pub fn revalidate(refreshed: &Vec<Finding>, finding: &Finding) -> (r: Revalidation)
    ensures
        r@ == revalidated(refreshed@, finding.stable_id@, "Docker references changed and this object is no longer reclaimable."@),
{
    revalidate_against(refreshed, finding, "Docker references changed and this object is no longer reclaimable.")
}

/// What a finding's action is reported to have done, once it has run.
pub fn executed(finding: &Finding) -> (r: Option<ProviderExecution>)
    ensures
        match (finding.native_action, r) {
            (None, None) => true,
            (Some(a), Some(e)) => e.deleted == 1 && e.freed_bytes == finding.bytes && e.message@
                == "Docker action "@ + a.action_id@ + " completed."@,
            _ => false,
        },
{
    match &finding.native_action {
        Some(a) => Some(completed(
                finding,
                "Docker action ".to_owned().concat(a.action_id.as_str()).concat(" completed."),
        )),
        None => None,
    }
}

/// What an image promises is what it does not share: shared layers are never
/// counted as savings.
pub proof fn law_image_savings_are_unique(settings: ProviderSettings, image: JsonModel)
    requires
        image_row(settings)(image) is Some,
    ensures
        ({
            let f = image_row(settings)(image)->0;
            &&& f.bytes == printed_size(image, "UniqueSize"@)
            &&& f.size.shared == printed_size(image, "SharedSize"@)
            &&& f.bytes >= settings.min_size_bytes
            &&& printed_count(image, "Containers"@) == 0
        }),
{
}

/// A container at work is never offered.
pub proof fn law_running_containers_stay(settings: ProviderSettings, container: JsonModel)
    requires
        at_work(text::lowered(printed(container, "State"@))),
    ensures
        container_row(settings)(container) is None,
{
}

/// Named volumes are left to the user's own hand.
pub proof fn law_named_volumes_are_manual(settings: ProviderSettings, volume: JsonModel)
    requires
        volume_row(settings)(volume) is Some,
        !anonymous(volume),
    ensures
        volume_row(settings)(volume)->0.manual_only,
{
}

proof fn lemma_until(n: nat)
    ensures
        is_until("until="@ + digits(n) + "h"@),
{
    let all = "until="@ + digits(n) + "h"@;
    let value = digits(n) + "h"@;
    reveal_strlit("until=");
    reveal_strlit("h");
    text::lemma_digits_number(n);
    assert(all.skip(6) =~= value);
    assert(text::begins(all, "until="@)) by {
        assert(all.take(6) =~= "until="@);
    }
    assert forall|i: int| 0 <= i < value.len() implies value[i] != '\n' && value[i] != '\r' && value[i]
        != '\0' by {
        if i < digits(n).len() {
            assert(text::is_digit(digits(n)[i]));
        }
    }
}

/// A command for an action is one that its own policy accepts, where an object that
/// it names is a name that can be handed to a tool.
pub proof fn law_planned_commands_are_admitted(
    action: Seq<char>,
    object: Seq<char>,
    p: CommandPolicy,
    args: Seq<Seq<char>>,
)
    requires
        action_command(action, object, p, args),
        action == "prune-build-cache"@ || is_token(object),
    ensures
        admits(p.args@, args),
{
    reveal_strlit("prune-build-cache");
    reveal_strlit("remove-image");
    reveal_strlit("remove-container");
    reveal_strlit("remove-volume");
    reveal_strlit("remove-network");
    assert("prune-build-cache"@[0] == 'p');
    assert("remove-image"@[0] == 'r');
    assert("remove-container"@[0] == 'r');
    assert("remove-volume"@[0] == 'r');
    assert("remove-network"@[0] == 'r');
    if action == "prune-build-cache"@ {
        lemma_until(capped_product(filter_days(object)->0, 24) as nat);
    }
}

/// An image is reported exactly where no container uses it, it has an id and it alone
/// holds what was asked for; it is safe exactly where it has no name or no tag, and
/// recent where it is younger than was asked for.
pub proof fn law_unused_images_are_reported(settings: ProviderSettings, image: JsonModel)
    ensures
        image_row(settings)(image) is Some <==> printed_count(image, "Containers"@) == 0 && printed(
            image,
            "ID"@,
        ).len() > 0 && printed_size(image, "UniqueSize"@) >= settings.min_size_bytes,
        image_row(settings)(image) matches Some(f) ==> {
            let nameless = printed(image, "Repository"@) == "<none>"@ || printed(image, "Tag"@) == "<none>"@;
            let age = printed_age(printed(image, "CreatedSince"@));
            &&& f.safety == if nameless {
                Safety::Safe
            } else {
                Safety::Review
            }
            &&& f.recent <==> age is Some && age->0 < settings.min_age_days
            &&& f.age_days == age
            &&& f.native_action is Some && f.native_action->0.object_id == printed(image, "ID"@)
            &&& !f.report_only
        },
{
}

/// A container is reported exactly where it neither runs nor restarts, has an id and
/// holds what was asked for.
pub proof fn law_stopped_containers_are_reported(settings: ProviderSettings, container: JsonModel)
    ensures
        ({
            let state = text::lowered(printed(container, "State"@));
            container_row(settings)(container) is Some <==> state != "running"@ && state != "restarting"@
                && printed(container, "ID"@).len() > 0 && printed_size(container, "Size"@)
                >= settings.min_size_bytes
        }),
        container_row(settings)(container) matches Some(f) ==> f.bytes == printed_size(container, "Size"@)
            && f.safety == Safety::Review && f.native_action is Some && f.native_action->0.object_id
            == printed(container, "ID"@),
{
}

/// A volume is reported exactly where no container uses it, it has a name and it
/// holds what was asked for; only one without labels and with a long name of hex
/// digits can be selected in bulk.
pub proof fn law_unused_volumes_are_reported(settings: ProviderSettings, volume: JsonModel)
    ensures
        volume_row(settings)(volume) is Some <==> printed_count(volume, "Links"@) == 0 && printed(
            volume,
            "Name"@,
        ).len() > 0 && printed_size(volume, "Size"@) >= settings.min_size_bytes,
        volume_row(settings)(volume) matches Some(f) ==> {
            &&& f.bytes == printed_size(volume, "Size"@)
            &&& f.safety == Safety::Review
            &&& f.manual_only <==> printed(volume, "Labels"@).len() > 0 || text::byte_len(
                printed(volume, "Name"@),
            ) < 48 || !all_hex(printed(volume, "Name"@))
        },
{
}

/// A network is reported exactly where no container is attached to it.
pub proof fn law_unused_networks_are_reported(network: JsonModel, containers: u64)
    ensures
        network_row()((network, containers)) is Some <==> containers == 0 && printed(network, "ID"@).len() > 0,
{
}

/// Each record of the build cache that is not kept counts once: as old from the age
/// that was asked for on, and as recent before.
pub proof fn law_cache_records_count_once(items: Seq<JsonModel>, cache: JsonModel, min_age: u64)
    requires
        cache_sums(items, min_age).old_bytes + printed_size(cache, "Size"@) <= u64::MAX,
        cache_sums(items, min_age).recent_bytes + printed_size(cache, "Size"@) <= u64::MAX,
    ensures
        ({
            let before = cache_sums(items, min_age);
            let after = cache_sums(items.push(cache), min_age);
            let size = printed_size(cache, "Size"@);
            let kept = printed(cache, "InUse"@) == "true"@ || printed(cache, "Reclaimable"@) == "false"@;
            &&& kept ==> after == before
            &&& !kept && record_age(cache) >= min_age ==> after.old_count == before.old_count + 1
                && after.old_bytes == before.old_bytes + size && after.recent_bytes == before.recent_bytes
                && after.recent_count == before.recent_count
            &&& !kept && record_age(cache) < min_age ==> after.recent_count == before.recent_count + 1
                && after.recent_bytes == before.recent_bytes + size && after.old_bytes == before.old_bytes
                && after.old_count == before.old_count
        }),
        cache_sums(Seq::empty(), min_age).old_count == 0,
        cache_sums(Seq::empty(), min_age).recent_count == 0,
{
    assert(items.push(cache).drop_last() =~= items);
    assert(items.push(cache).last() == cache);
}

/// The old share of what can be reclaimed is to the whole as the old bytes are to all
/// of them, rounded down.
pub proof fn law_old_share_is_proportional(s: CacheSums, aggregate: u64)
    requires
        s.old_bytes + s.recent_bytes <= u64::MAX,
        s.old_bytes + s.recent_bytes > 0,
        aggregate * s.old_bytes <= u64::MAX,
    ensures
        ({
            let total = s.old_bytes + s.recent_bytes;
            let share = stale_share(s, aggregate);
            share * total <= aggregate * s.old_bytes && aggregate * s.old_bytes < (share + 1) * total
        }),
{
    let total = s.old_bytes + s.recent_bytes;
    let product = aggregate * s.old_bytes;
    assert((product / total) * total <= product && product < (product / total + 1) * total)
        by (nonlinear_arith)
        requires
            total > 0,
            product >= 0,
    ;
    assert(product / total <= product) by (nonlinear_arith)
        requires
            total > 0,
            product >= 0,
    ;
    assert(capped_product(aggregate, s.old_bytes) == product);
    assert(capped_sum(s.old_bytes, s.recent_bytes) == total);
}

/// The build cache is reported exactly where something can be reclaimed: what is old
/// as it is, what is recent only to be seen.
pub proof fn law_build_cache_is_reported(root: JsonModel, settings: ProviderSettings, aggregate: u64)
    ensures
        aggregate == 0 ==> build_cache_rows(root, settings, aggregate).len() == 0,
        ({
            let s = cache_sums(at_most(root.items_at("BuildCache"@), 20_000), settings.min_age_days);
            let stale = stale_share(s, aggregate);
            let rows = build_cache_rows(root, settings, aggregate);
            &&& aggregate > 0 && s.old_count > 0 && stale >= settings.min_size_bytes ==> rows.len() > 0
                && rows[0].bytes == stale && rows[0].safety == Safety::Safe && !rows[0].report_only
                && rows[0].native_action is Some
            &&& aggregate > 0 && s.recent_count > 0 && excess(aggregate, stale) >= settings.min_size_bytes
                ==> rows.len() > 0 && rows.last().report_only && rows.last().recent
                && rows.last().native_action is None
        }),
{
}

/// The command that prunes the build cache keeps what is younger than was reported:
/// the days of the finding come back as hours.
pub proof fn law_pruning_keeps_what_is_young(days: u64, p: CommandPolicy, args: Seq<Seq<char>>)
    requires
        days * 24 <= u64::MAX,
        action_command("prune-build-cache"@, "older-than-"@ + digits(days as nat) + "-days"@, p, args),
    ensures
        filter_days("older-than-"@ + digits(days as nat) + "-days"@) == Some(days),
        args.len() == 5,
        args[4] == "until="@ + digits((24 * days) as nat) + "h"@,
{
    let object = "older-than-"@ + digits(days as nat) + "-days"@;
    text::law_prefixes_come_off("older-than-"@, digits(days as nat) + "-days"@, object);
    assert(object =~= "older-than-"@ + (digits(days as nat) + "-days"@));
    text::law_suffixes_come_off(digits(days as nat), "-days"@, digits(days as nat) + "-days"@);
    text::law_written_numbers_read(days);
    reveal_strlit("prune-build-cache");
    reveal_strlit("remove-image");
    reveal_strlit("remove-container");
    reveal_strlit("remove-volume");
    reveal_strlit("remove-network");
    assert("prune-build-cache"@[0] == 'p' && "remove-image"@[0] == 'r' && "remove-container"@[0] == 'r'
        && "remove-volume"@[0] == 'r' && "remove-network"@[0] == 'r');
}

/// What Docker says can be reclaimed of the build cache is the first word that it
/// prints for it; where it prints none, nothing can.
pub proof fn law_reclaimable_is_of_the_build_cache(entries: Seq<JsonModel>, i: int, n: u64)
    requires
        0 <= i < entries.len(),
        printed(entries[i], "Type"@) == "Build Cache"@,
        forall|j: int| 0 <= j < i ==> printed(#[trigger] entries[j], "Type"@) != "Build Cache"@,
        text::words(printed(entries[i], "Reclaimable"@)).len() > 0,
    ensures
        printed_bytes(text::words(printed(entries[i], "Reclaimable"@))[0]) == Some(n) ==> reclaimable_of(entries) == n,
        printed_bytes(text::words(printed(entries[i], "Reclaimable"@))[0]) is None ==> reclaimable_of(entries) == 0,
{
    let f = if_build_cache();
    assert forall|j: int| 0 <= j < i implies f(#[trigger] entries[j]) is None by {
    }
    crate::seqs::law_first_is_found(entries, f, i);
}

/// Where no line is about the build cache, nothing of it can be reclaimed.
pub proof fn law_no_build_cache_no_reclaim(entries: Seq<JsonModel>)
    requires
        forall|j: int| 0 <= j < entries.len() ==> printed(#[trigger] entries[j], "Type"@) != "Build Cache"@,
    ensures
        reclaimable_of(entries) == 0,
{
    crate::seqs::lemma_find_none(entries, if_build_cache());
}

/// Only what is reached through a socket or a pipe of this machine is local.
pub proof fn law_local_daemons(host: Seq<char>, rest: Seq<char>)
    ensures
        local_host("unix://"@ + rest),
        local_host("npipe://"@ + rest),
        !text::begins(host, "unix://"@) && !text::begins(host, "npipe://"@) ==> !local_host(host),
{
    text::law_prefixes_come_off("unix://"@, rest, host);
    text::law_prefixes_come_off("npipe://"@, rest, host);
}

/// What is found on the disk of Docker comes from its images, containers, volumes and
/// build cache, each in its turn.
pub proof fn law_disk_findings_come_from_their_lists(root: JsonModel, settings: ProviderSettings, reclaimable: u64, f: FindingModel)
    ensures
        disk_rows(root, settings, reclaimable).contains(f) <==> collect_some(
            at_most(root.items_at("Images"@), 20_000),
            image_row(settings),
        ).contains(f) || collect_some(at_most(root.items_at("Containers"@), 20_000), container_row(settings)).contains(
            f,
        ) || collect_some(at_most(root.items_at("Volumes"@), 20_000), volume_row(settings)).contains(f)
            || build_cache_rows(root, settings, reclaimable).contains(f),
{
    let a = collect_some(at_most(root.items_at("Images"@), 20_000), image_row(settings));
    let b = collect_some(at_most(root.items_at("Containers"@), 20_000), container_row(settings));
    let c = collect_some(at_most(root.items_at("Volumes"@), 20_000), volume_row(settings));
    let d = build_cache_rows(root, settings, reclaimable);
    lemma_either(a, b, f);
    lemma_either(a + b, c, f);
    lemma_either(a + b + c, d, f);
}

proof fn lemma_either<A>(a: Seq<A>, b: Seq<A>, x: A)
    ensures
        (a + b).contains(x) <==> a.contains(x) || b.contains(x),
{
    if a.contains(x) {
        let i = choose|i: int| 0 <= i < a.len() && a[i] == x;
        assert((a + b)[i] == x);
    }
    if b.contains(x) {
        let i = choose|i: int| 0 <= i < b.len() && b[i] == x;
        assert((a + b)[a.len() + i] == x);
    }
    if (a + b).contains(x) {
        let i = choose|i: int| 0 <= i < (a + b).len() && (a + b)[i] == x;
        if i < a.len() {
            assert(a[i] == x);
        } else {
            assert(b[i - a.len()] == x);
        }
    }
}

/// An action is carried out by the command of its tool that does just this, to the
/// object that it names.
pub proof fn law_actions_run_their_command(action: Seq<char>, object: Seq<char>, p: CommandPolicy, args: Seq<Seq<char>>)
    requires
        action_command(action, object, p, args),
    ensures
        p@.mutating,
        ({
            ||| action == "remove-image"@ && p@.executables.last()@ == "docker"@ && args == seq!["image"@, "rm"@, object]
            ||| action == "remove-container"@ && p@.executables.last()@ == "docker"@ && args == seq!["container"@, "rm"@, object]
            ||| action == "remove-volume"@ && p@.executables.last()@ == "docker"@ && args == seq!["volume"@, "rm"@, object]
            ||| action == "remove-network"@ && p@.executables.last()@ == "docker"@ && args == seq!["network"@, "rm"@, object]
            ||| action == "prune-build-cache"@ && p@.executables.last()@ == "docker"@ && (filter_days(object) matches Some(d) && args.len() == 5 && args[0] == "builder"@ && args[1] == "prune"@ && args[2] == "--force"@ && args[3] == "--filter"@ && (d * 24 <= u64::MAX ==> args[4] == "until="@ + digits((d * 24) as nat) + "h"@))
        }),
{
}

/// An action is known exactly where it removes an image, a container, a volume or a
/// network, or prunes the build cache by an age that can be read.
pub proof fn law_known_actions_are_carried_out(action: Seq<char>, object: Seq<char>)
    ensures
        action_error(action, object) is None <==> action == "remove-image"@ || action == "remove-container"@ || action
            == "remove-volume"@ || action == "remove-network"@ || (action == "prune-build-cache"@ && filter_days(
            object,
        ) is Some),
{
}

/// A volume is anonymous exactly where it has no label and a name of forty-eight or more
/// hexadecimal digits.
pub proof fn law_anonymous_volumes(volume: JsonModel)
    ensures
        anonymous(volume) <==> printed(volume, "Labels"@).len() == 0 && text::byte_len(printed(volume, "Name"@)) >= 48
            && forall|i: int|
        0 <= i < printed(volume, "Name"@).len() ==> {
            let c = #[trigger] printed(volume, "Name"@)[i];
            ('0' <= c && c <= '9') || ('a' <= c && c <= 'f') || ('A' <= c && c <= 'F')
        },
{
}

} // verus!
