//! Native, state-aware cleanup providers. Providers expose normalized findings
//! and typed actions; the filesystem rule engine remains the fallback for
//! tools without authoritative metadata.

pub mod ai_assets;
pub mod android;
pub mod app_leftovers;
pub mod command;
pub mod docker;
pub mod duplicates;
pub mod git;
pub mod homebrew;
pub mod native_gc;
pub mod registry;
pub mod session;
pub mod stale_files;
pub mod tool_cache_gc;
pub mod toolchains;
pub mod vms;
pub mod xcode;

use crate::report::{
    ActionModel, Confidence, Evidence, EvidenceModel, Finding, FindingModel, FindingSize,
    FindingState, FindingTarget, ProviderAction, ProviderSource, SizeAccuracy, SourceModel,
    TargetModel, whole_size,
};
use crate::rules::Safety;
use crate::seqs::{find_some, group_views, lemma_find_step, view_of, views};
use crate::sizes;
use crate::taxonomy::{Section, Subgroup};
use crate::text;
use crate::text::same;
use vstd::arithmetic::power2::{lemma2_to64, pow2};
use vstd::prelude::*;

verus! {

broadcast use group_views;

// ---- profiles and states ----

#[derive(Debug, Clone, Copy, PartialEq, Eq, Structural)]
pub enum ScanProfile {
    Quick,
    Deep,
}

pub open spec fn profile_label(p: ScanProfile) -> Seq<char> {
    match p {
        ScanProfile::Quick => "quick"@,
        ScanProfile::Deep => "deep"@,
    }
}

impl ScanProfile {
    pub fn label(self) -> (r: &'static str)
        ensures
            r@ == profile_label(self),
    {
        match self {
            ScanProfile::Quick => "quick",
            ScanProfile::Deep => "deep",
        }
    }
}

#[derive(Debug, Clone, Copy, PartialEq, Eq, Structural)]
pub enum ScanCost {
    Instant,
    Fast,
    Moderate,
    Slow,
}

pub open spec fn cost_label(c: ScanCost) -> Seq<char> {
    match c {
        ScanCost::Instant => "instant"@,
        ScanCost::Fast => "fast"@,
        ScanCost::Moderate => "moderate"@,
        ScanCost::Slow => "slow"@,
    }
}

impl ScanCost {
    pub fn label(self) -> (r: &'static str)
        ensures
            r@ == cost_label(self),
    {
        match self {
            ScanCost::Instant => "instant",
            ScanCost::Fast => "fast",
            ScanCost::Moderate => "moderate",
            ScanCost::Slow => "slow",
        }
    }
}

/// What a provider is, before it has looked at anything.
#[derive(Debug, Clone, Copy)]
pub struct ProviderMetadata {
    pub id: &'static str,
    pub name: &'static str,
    pub section: Section,
    pub subgroup: Subgroup,
    pub cost: ScanCost,
    pub quick: bool,
    pub deep: bool,
    pub network_in_deep_scan: bool,
    pub supersedes_rules: &'static [&'static str],
}

/// Provider metadata, as text.
#[verifier::ext_equal]
pub struct MetadataModel {
    pub id: Seq<char>,
    pub name: Seq<char>,
    pub section: Section,
    pub subgroup: Subgroup,
    pub cost: ScanCost,
    pub quick: bool,
    pub deep: bool,
    pub network_in_deep_scan: bool,
    pub supersedes_rules: Seq<Seq<char>>,
}

impl View for ProviderMetadata {
    type V = MetadataModel;

    open spec fn view(&self) -> MetadataModel {
        MetadataModel {
            id: self.id@,
            name: self.name@,
            section: self.section,
            subgroup: self.subgroup,
            cost: self.cost,
            quick: self.quick,
            deep: self.deep,
            network_in_deep_scan: self.network_in_deep_scan,
            supersedes_rules: self.supersedes_rules@.map_values(|s: &'static str| s@),
        }
    }
}

#[derive(Debug, Clone, Copy, PartialEq, Eq, Structural)]
pub enum ProviderState {
    Waiting,
    Scanning,
    Ready,
    Unavailable,
    TimedOut,
    PermissionDenied,
    Failed,
    Cancelled,
}

pub open spec fn state_label(s: ProviderState) -> Seq<char> {
    match s {
        ProviderState::Waiting => "waiting"@,
        ProviderState::Scanning => "scanning"@,
        ProviderState::Ready => "ready"@,
        ProviderState::Unavailable => "unavailable"@,
        ProviderState::TimedOut => "timed out"@,
        ProviderState::PermissionDenied => "permission denied"@,
        ProviderState::Failed => "failed"@,
        ProviderState::Cancelled => "cancelled"@,
    }
}

impl ProviderState {
    pub fn label(&self) -> (r: &'static str)
        ensures
            r@ == state_label(*self),
    {
        match self {
            ProviderState::Waiting => "waiting",
            ProviderState::Scanning => "scanning",
            ProviderState::Ready => "ready",
            ProviderState::Unavailable => "unavailable",
            ProviderState::TimedOut => "timed out",
            ProviderState::PermissionDenied => "permission denied",
            ProviderState::Failed => "failed",
            ProviderState::Cancelled => "cancelled",
        }
    }
}

#[derive(Debug, Clone)]
pub struct ProviderStatus {
    pub provider_id: String,
    pub name: String,
    pub state: ProviderState,
    pub message: String,
    pub elapsed_ms: u128,
    pub finding_count: usize,
}

/// A provider status, as text and numbers.
#[verifier::ext_equal]
pub struct StatusModel {
    pub provider_id: Seq<char>,
    pub name: Seq<char>,
    pub state: ProviderState,
    pub message: Seq<char>,
    pub elapsed_ms: u128,
    pub finding_count: usize,
}

impl View for ProviderStatus {
    type V = StatusModel;

    open spec fn view(&self) -> StatusModel {
        StatusModel {
            provider_id: self.provider_id@,
            name: self.name@,
            state: self.state,
            message: self.message@,
            elapsed_ms: self.elapsed_ms,
            finding_count: self.finding_count,
        }
    }
}

/// The status of a provider.
pub open spec fn status_of(
    m: MetadataModel,
    state: ProviderState,
    message: Seq<char>,
    elapsed_ms: u128,
    finding_count: usize,
) -> StatusModel {
    StatusModel { provider_id: m.id, name: m.name, state, message, elapsed_ms, finding_count }
}

impl ProviderStatus {
    /// The status of a provider that has not started.
    pub fn waiting(metadata: ProviderMetadata) -> (r: Self)
        ensures
            r@ == status_of(metadata@, ProviderState::Waiting, Seq::empty(), 0, 0),
    {
        let r = final_status(metadata, ProviderState::Waiting, String::new(), 0, 0);
        assert(r@.message =~= Seq::<char>::empty());
        r
    }
}

/// The status of a provider after `elapsed_ms`.
pub fn final_status(
    metadata: ProviderMetadata,
    state: ProviderState,
    message: String,
    elapsed_ms: u128,
    finding_count: usize,
) -> (r: ProviderStatus)
    ensures
        r@ == status_of(metadata@, state, message@, elapsed_ms, finding_count),
{
    ProviderStatus {
        provider_id: metadata.id.to_owned(),
        name: metadata.name.to_owned(),
        state,
        message,
        elapsed_ms,
        finding_count,
    }
}

/// Whether a provider can work here.
#[derive(Debug, Clone)]
pub enum Capability {
    Available,
    Unavailable(String),
    PermissionDenied(String),
}

/// Whether a provider is available exactly under a condition, and says so else.
pub open spec fn is_available_if(c: Capability, available: bool, otherwise: Seq<char>) -> bool {
    if available {
        c is Available
    } else {
        c matches Capability::Unavailable(m) && m@ == otherwise
    }
}

pub fn available_if(available: bool, otherwise: &str) -> (r: Capability)
    ensures
        is_available_if(r, available, otherwise@),
{
    if available {
        Capability::Available
    } else {
        Capability::Unavailable(otherwise.to_owned())
    }
}

#[derive(Debug, Clone)]
pub struct ProviderSettings {
    pub profile: ScanProfile,
    pub min_age_days: u64,
    pub min_size_bytes: u64,
    pub enabled: Option<Vec<String>>,
}

impl Default for ProviderSettings {
    fn default() -> (r: Self)
        ensures
            r.profile == ScanProfile::Quick,
            r.min_age_days == 30,
            r.min_size_bytes == 0x10_0000,
            r.enabled is None,
    {
        ProviderSettings {
            profile: ScanProfile::Quick,
            min_age_days: 30,
            min_size_bytes: 0x10_0000,
            enabled: None,
        }
    }
}

/// What a second look at a finding says before anything is removed.
#[derive(Debug, Clone)]
pub enum Revalidation {
    Valid,
    Changed(String),
    Gone(String),
    Blocked(String),
}

#[verifier::ext_equal]
pub enum RevalidationModel {
    Valid,
    Changed(Seq<char>),
    Gone(Seq<char>),
    Blocked(Seq<char>),
}

impl View for Revalidation {
    type V = RevalidationModel;

    open spec fn view(&self) -> RevalidationModel {
        match *self {
            Revalidation::Valid => RevalidationModel::Valid,
            Revalidation::Changed(m) => RevalidationModel::Changed(m@),
            Revalidation::Gone(m) => RevalidationModel::Gone(m@),
            Revalidation::Blocked(m) => RevalidationModel::Blocked(m@),
        }
    }
}

/// What keeps an action from running, after a second look.
pub open spec fn obstacle_of(r: RevalidationModel) -> Option<Seq<char>> {
    match r {
        RevalidationModel::Valid => None,
        RevalidationModel::Changed(m) => Some(m),
        RevalidationModel::Gone(m) => Some(m),
        RevalidationModel::Blocked(m) => Some(m),
    }
}

impl Revalidation {
    /// The message for which the action is refused; nothing where it may run.
    pub fn obstacle(self) -> (r: Option<String>)
        ensures
            view_of(r) == obstacle_of(self@),
    {
        match self {
            Revalidation::Valid => None,
            Revalidation::Changed(m) => Some(m),
            Revalidation::Gone(m) => Some(m),
            Revalidation::Blocked(m) => Some(m),
        }
    }
}

/// Whether a finding with this stable id is among the findings.
pub open spec fn still_found(found: Seq<Finding>, stable_id: Seq<char>) -> bool {
    exists|i: int| 0 <= i < found.len() && (#[trigger] found[i]).stable_id@ == stable_id
}

/// The finding stands where a fresh scan finds it again; else it changed.
pub open spec fn revalidated(
    found: Seq<Finding>,
    stable_id: Seq<char>,
    changed: Seq<char>,
) -> RevalidationModel {
    if still_found(found, stable_id) {
        RevalidationModel::Valid
    } else {
        RevalidationModel::Changed(changed)
    }
}

pub fn revalidate_against(refreshed: &Vec<Finding>, finding: &Finding, changed: &str) -> (r:
    Revalidation)
    ensures
        r@ == revalidated(refreshed@, finding.stable_id@, changed@),
{
    let mut i: usize = 0;
    while i < refreshed.len()
        invariant
            i <= refreshed@.len(),
            forall|j: int|
                0 <= j < i ==> (#[trigger] refreshed@[j]).stable_id@ != finding.stable_id@,
        decreases refreshed@.len() - i,
    {
        if same(refreshed[i].stable_id.as_str(), finding.stable_id.as_str()) {
            return Revalidation::Valid;
        }
        i += 1;
    }
    Revalidation::Changed(changed.to_owned())
}

#[derive(Debug, Clone)]
pub struct ProviderExecution {
    pub deleted: u64,
    pub freed_bytes: u64,
    pub message: String,
}

/// One object went, with the bytes that its finding promised.
pub fn completed(finding: &Finding, message: String) -> (r: ProviderExecution)
    ensures
        r.deleted == 1,
        r.freed_bytes == finding.bytes,
        r.message@ == message@,
{
    ProviderExecution { deleted: 1, freed_bytes: finding.bytes, message }
}

#[derive(Debug, Clone, Copy)]
pub struct ProviderExecutionOptions {
    pub permanently: bool,
}

/// The value of evidence with this label.
pub open spec fn if_labelled(label: Seq<char>) -> spec_fn(EvidenceModel) -> Option<Seq<char>> {
    |e: EvidenceModel|
        if e.label == label {
            Some(e.value)
        } else {
            None
        }
}

/// The value of the first evidence with a label.
pub open spec fn evidence_at(evidence: Seq<EvidenceModel>, label: Seq<char>) -> Option<Seq<char>> {
    find_some(evidence, if_labelled(label))
}

pub fn evidence_value(finding: &Finding, label: &str) -> (r: Option<String>)
    ensures
        view_of(r) == evidence_at(finding@.evidence, label@),
{
    let ghost s = finding@.evidence;
    let ghost f = if_labelled(label@);
    assert(s.skip(0) =~= s);
    let mut i: usize = 0;
    while i < finding.evidence.len()
        invariant
            i <= finding.evidence@.len(),
            s == views(finding.evidence@),
            s == finding@.evidence,
            f == if_labelled(label@),
            find_some(s, f) == find_some(s.skip(i as int), f),
        decreases finding.evidence@.len() - i,
    {
        proof {
            lemma_find_step(s, i as int, f);
        }
        assert(s[i as int] == finding.evidence@[i as int]@);
        if same(finding.evidence[i].label.as_str(), label) {
            return Some(finding.evidence[i].value.clone());
        }
        i += 1;
    }
    None
}

/// The paths that a finding is about.
pub open spec fn target_paths(target: TargetModel) -> Seq<Seq<char>> {
    match target {
        TargetModel::Filesystem { path } => seq![path],
        TargetModel::GroupedPaths { paths, .. } => paths,
        _ => Seq::empty(),
    }
}

pub fn finding_paths(finding: &Finding) -> (r: Vec<String>)
    ensures
        views(r@) == target_paths(finding@.target),
{
    match &finding.target {
        FindingTarget::Filesystem { path } => text::texts1(path.as_str()),
        FindingTarget::GroupedPaths { paths, .. } => text::copy_texts(paths),
        _ => Vec::new(),
    }
}

/// Whether something is at least so many days old.
pub open spec fn aged(age: Option<u64>, days: u64) -> bool {
    age is Some && age->0 >= days
}

pub fn is_aged(age: Option<u64>, days: u64) -> (r: bool)
    ensures
        r == aged(age, days),
{
    match age {
        Some(a) => a >= days,
        None => false,
    }
}

/// The sum of some sizes.
pub open spec fn sum_of(sizes: Seq<u64>) -> nat
    decreases sizes.len(),
{
    if sizes.len() == 0 {
        0
    } else {
        sum_of(sizes.drop_last()) + sizes.last() as nat
    }
}

proof fn lemma_sum_grows(sizes: Seq<u64>, i: int)
    requires
        0 <= i <= sizes.len(),
    ensures
        sum_of(sizes.take(i)) <= sum_of(sizes),
    decreases sizes.len() - i,
{
    if i < sizes.len() {
        lemma_sum_grows(sizes, i + 1);
        assert(sizes.take(i + 1).drop_last() =~= sizes.take(i));
    } else {
        assert(sizes.take(i) =~= sizes);
    }
}

/// The sum of some sizes; nothing where it is beyond 64 bits.
pub fn total_of(sizes: &Vec<u64>) -> (r: Option<u64>)
    ensures
        match r {
            Some(n) => n == sum_of(sizes@),
            None => sum_of(sizes@) > u64::MAX,
        },
{
    let mut total: u64 = 0;
    let mut i: usize = 0;
    while i < sizes.len()
        invariant
            i <= sizes@.len(),
            total == sum_of(sizes@.take(i as int)),
        decreases sizes@.len() - i,
    {
        proof {
            lemma_sum_grows(sizes@, i + 1);
        }
        assert(sizes@.take(i + 1).drop_last() =~= sizes@.take(i as int));
        total = match total.checked_add(sizes[i]) {
            Some(n) => n,
            None => {
                return None;
            },
        };
        i += 1;
    }
    assert(sizes@.take(i as int) =~= sizes@);
    Some(total)
}

// ---- building findings ----

/// A provider finding under construction.
pub struct ProviderFinding {
    metadata: ProviderMetadata,
    rule_id: String,
    category: String,
    object_id: String,
    label: String,
    safety: Safety,
    size: FindingSize,
    age_days: Option<u64>,
    recent: bool,
    manual_only: bool,
    report_only: bool,
    confidence: Confidence,
    state: FindingState,
    reason: String,
    evidence: Vec<Evidence>,
    description: Option<String>,
    impact: Option<String>,
    recommendation: Option<String>,
    action: Option<ProviderAction>,
    target: Option<FindingTarget>,
    supersedes: Vec<String>,
}

/// A provider finding under construction, as text and numbers.
#[verifier::ext_equal]
pub struct Draft {
    pub metadata: MetadataModel,
    pub rule_id: Seq<char>,
    pub category: Seq<char>,
    pub object_id: Seq<char>,
    pub label: Seq<char>,
    pub safety: Safety,
    pub size: FindingSize,
    pub age_days: Option<u64>,
    pub recent: bool,
    pub manual_only: bool,
    pub report_only: bool,
    pub confidence: Confidence,
    pub state: FindingState,
    pub reason: Seq<char>,
    pub evidence: Seq<EvidenceModel>,
    pub description: Option<Seq<char>>,
    pub impact: Option<Seq<char>>,
    pub recommendation: Option<Seq<char>>,
    pub action: Option<ActionModel>,
    pub target: Option<TargetModel>,
    pub supersedes: Seq<Seq<char>>,
}

impl View for ProviderFinding {
    type V = Draft;

    closed spec fn view(&self) -> Draft {
        Draft {
            metadata: self.metadata@,
            rule_id: self.rule_id@,
            category: self.category@,
            object_id: self.object_id@,
            label: self.label@,
            safety: self.safety,
            size: self.size,
            age_days: self.age_days,
            recent: self.recent,
            manual_only: self.manual_only,
            report_only: self.report_only,
            confidence: self.confidence,
            state: self.state,
            reason: self.reason@,
            evidence: views(self.evidence@),
            description: view_of(self.description),
            impact: view_of(self.impact),
            recommendation: view_of(self.recommendation),
            action: view_of(self.action),
            target: view_of(self.target),
            supersedes: views(self.supersedes@),
        }
    }
}

/// A plain candidate: exact, not recent, for bulk selection, nothing said of it.
pub open spec fn draft(
    metadata: MetadataModel,
    rule_id: Seq<char>,
    category: Seq<char>,
    object_id: Seq<char>,
    label: Seq<char>,
    safety: Safety,
    bytes: u64,
) -> Draft {
    Draft {
        metadata,
        rule_id,
        category,
        object_id,
        label,
        safety,
        size: whole_size(bytes),
        age_days: None,
        recent: false,
        manual_only: false,
        report_only: false,
        confidence: Confidence::Exact,
        state: FindingState::Candidate,
        reason: Seq::empty(),
        evidence: Seq::empty(),
        description: None,
        impact: None,
        recommendation: None,
        action: None,
        target: None,
        supersedes: Seq::empty(),
    }
}

/// The most member paths that a finding carries.
pub const MEMBER_LIMIT: usize = 50_000;

/// The stable id of a provider's object.
pub open spec fn stable_id_of(provider: Seq<char>, rule: Seq<char>, object: Seq<char>) -> Seq<char> {
    "provider:"@ + provider + ":"@ + rule + ":"@ + object
}

impl Draft {
    pub open spec fn size(self, size: FindingSize) -> Draft {
        Draft { size, ..self }
    }

    pub open spec fn estimated(self) -> Draft {
        Draft { size: FindingSize { accuracy: SizeAccuracy::Estimated, ..self.size }, ..self }
    }

    pub open spec fn age(self, age_days: Option<u64>, recent: bool) -> Draft {
        Draft {
            age_days,
            recent,
            state: if recent {
                FindingState::Recent
            } else {
                self.state
            },
            ..self
        }
    }

    pub open spec fn manual(self) -> Draft {
        Draft { manual_only: true, ..self }
    }

    pub open spec fn in_use(self) -> Draft {
        Draft { manual_only: true, state: FindingState::InUse, ..self }
    }

    pub open spec fn report_only(self) -> Draft {
        Draft { report_only: true, state: FindingState::Informational, ..self }
    }

    pub open spec fn protected(self) -> Draft {
        Draft {
            report_only: true,
            safety: Safety::Protected,
            state: FindingState::Protected,
            size: FindingSize { reclaimable: 0, ..self.size },
            ..self
        }
    }

    pub open spec fn confidence(self, confidence: Confidence) -> Draft {
        Draft { confidence, ..self }
    }

    pub open spec fn reason(self, reason: Seq<char>) -> Draft {
        Draft { reason, ..self }
    }

    pub open spec fn evidence(self, label: Seq<char>, value: Seq<char>) -> Draft {
        Draft { evidence: self.evidence.push(EvidenceModel { label, value }), ..self }
    }

    pub open spec fn copy(
        self,
        description: Seq<char>,
        impact: Seq<char>,
        recommendation: Seq<char>,
    ) -> Draft {
        Draft {
            description: Some(description),
            impact: Some(impact),
            recommendation: Some(recommendation),
            ..self
        }
    }

    pub open spec fn action(
        self,
        action_id: Seq<char>,
        preview: Seq<Seq<char>>,
        irreversible: bool,
        strong_confirmation: bool,
    ) -> Draft {
        Draft {
            action: Some(
                ActionModel {
                    provider_id: self.metadata.id,
                    action_id,
                    object_id: self.object_id,
                    preview,
                    irreversible,
                    strong_confirmation,
                },
            ),
            ..self
        }
    }

    pub open spec fn grouped_paths(self, paths: Seq<Seq<char>>) -> Draft {
        Draft { target: Some(TargetModel::GroupedPaths { paths, label: self.label }), ..self }
    }

    pub open spec fn filesystem_path(self, path: Seq<char>) -> Draft {
        Draft { target: Some(TargetModel::Filesystem { path }), ..self }
    }

    pub open spec fn diagnostic(self) -> Draft {
        Draft {
            target: Some(
                TargetModel::Diagnostic {
                    provider_id: Some(self.metadata.id),
                    diagnostic_id: self.object_id,
                    label: self.label,
                },
            ),
            ..self
        }
    }

    pub open spec fn supersedes(self, rule_id: Seq<char>) -> Draft {
        Draft { supersedes: self.supersedes.push(rule_id), ..self }
    }

    /// What the finding is about: the provider's object, unless said otherwise.
    pub open spec fn target_or_object(self) -> TargetModel {
        match self.target {
            Some(t) => t,
            None => TargetModel::ProviderObject {
                provider_id: self.metadata.id,
                object_id: self.object_id,
                label: self.label,
            },
        }
    }

    /// The finding that the draft stands for.
    pub open spec fn build(self) -> FindingModel {
        let target = self.target_or_object();
        FindingModel {
            stable_id: stable_id_of(self.metadata.id, self.rule_id, self.object_id),
            rule_id: self.rule_id,
            category: self.category,
            section: self.metadata.section,
            subgroup: self.metadata.subgroup,
            safety: self.safety,
            target,
            path: match target {
                TargetModel::Filesystem { path } => path,
                TargetModel::GroupedPaths { paths, .. } => if paths.len() > 0 {
                    paths[0]
                } else {
                    Seq::empty()
                },
                _ => Seq::empty(),
            },
            bytes: self.size.reclaimable,
            size: self.size,
            files: 0,
            dirs: 0,
            age_days: self.age_days,
            recent: self.recent,
            report_only: self.report_only,
            in_use: self.state == FindingState::InUse,
            manual_only: self.manual_only,
            confidence: self.confidence,
            state: self.state,
            provider: Some(SourceModel { id: self.metadata.id, name: self.metadata.name }),
            reason: self.reason,
            evidence: self.evidence,
            native_action: self.action,
            supersedes: self.supersedes,
            description: self.description,
            impact: self.impact,
            recommendation: self.recommendation,
            clean_via: Seq::empty(),
            member_paths: match target {
                TargetModel::GroupedPaths { paths, .. } => if paths.len() > MEMBER_LIMIT {
                    paths.take(MEMBER_LIMIT as int)
                } else {
                    paths
                },
                _ => Seq::empty(),
            },
        }
    }
}

impl ProviderFinding {
    /// A plain candidate.
    pub fn object(
        metadata: ProviderMetadata,
        rule_id: &str,
        category: &str,
        object_id: &str,
        label: &str,
        safety: Safety,
        reclaimable_bytes: u64,
    ) -> (r: Self)
        ensures
            r@ == draft(
                metadata@,
                rule_id@,
                category@,
                object_id@,
                label@,
                safety,
                reclaimable_bytes,
            ),
    {
        let r = ProviderFinding {
            metadata,
            rule_id: rule_id.to_owned(),
            category: category.to_owned(),
            object_id: object_id.to_owned(),
            label: label.to_owned(),
            safety,
            size: FindingSize::exact_physical(reclaimable_bytes),
            age_days: None,
            recent: false,
            manual_only: false,
            report_only: false,
            confidence: Confidence::Exact,
            state: FindingState::Candidate,
            reason: String::new(),
            evidence: Vec::new(),
            description: None,
            impact: None,
            recommendation: None,
            action: None,
            target: None,
            supersedes: Vec::new(),
        };
        r
    }

    pub fn size(self, size: FindingSize) -> (r: Self)
        ensures
            r@ == self@.size(size),
    {
        let mut d = self;
        d.size = size;
        d
    }

    pub fn estimated(self) -> (r: Self)
        ensures
            r@ == self@.estimated(),
    {
        let mut d = self;
        d.size.accuracy = SizeAccuracy::Estimated;
        d
    }

    pub fn age(self, age_days: Option<u64>, recent: bool) -> (r: Self)
        ensures
            r@ == self@.age(age_days, recent),
    {
        let mut d = self;
        d.age_days = age_days;
        d.recent = recent;
        if recent {
            d.state = FindingState::Recent;
        }
        d
    }

    /// Keeps the finding out of bulk selection.
    pub fn manual(self) -> (r: Self)
        ensures
            r@ == self@.manual(),
    {
        let mut d = self;
        d.manual_only = true;
        d
    }

    pub fn in_use(self) -> (r: Self)
        ensures
            r@ == self@.in_use(),
    {
        let mut d = self;
        d.manual_only = true;
        d.state = FindingState::InUse;
        d
    }

    pub fn report_only(self) -> (r: Self)
        ensures
            r@ == self@.report_only(),
    {
        let mut d = self;
        d.report_only = true;
        d.state = FindingState::Informational;
        d
    }

    pub fn protected(self) -> (r: Self)
        ensures
            r@ == self@.protected(),
    {
        let mut d = self;
        d.report_only = true;
        d.safety = Safety::Protected;
        d.state = FindingState::Protected;
        d.size.reclaimable = 0;
        d
    }

    pub fn confidence(self, confidence: Confidence) -> (r: Self)
        ensures
            r@ == self@.confidence(confidence),
    {
        let mut d = self;
        d.confidence = confidence;
        d
    }

    pub fn reason(self, reason: &str) -> (r: Self)
        ensures
            r@ == self@.reason(reason@),
    {
        let mut d = self;
        d.reason = reason.to_owned();
        d
    }

    pub fn evidence(self, label: &str, value: &str) -> (r: Self)
        ensures
            r@ == self@.evidence(label@, value@),
    {
        let mut d = self;
        d.evidence.push(Evidence { label: label.to_owned(), value: value.to_owned() });
        d
    }

    pub fn copy(self, description: &str, impact: &str, recommendation: &str) -> (r: Self)
        ensures
            r@ == self@.copy(description@, impact@, recommendation@),
    {
        let mut d = self;
        d.description = Some(description.to_owned());
        d.impact = Some(impact.to_owned());
        d.recommendation = Some(recommendation.to_owned());
        d
    }

    pub fn action(
        self,
        action_id: &str,
        preview: Vec<String>,
        irreversible: bool,
        strong_confirmation: bool,
    ) -> (r: Self)
        ensures
            r@ == self@.action(action_id@, views(preview@), irreversible, strong_confirmation),
    {
        let mut d = self;
        d.action =
        Some(
            ProviderAction {
                provider_id: d.metadata.id.to_owned(),
                action_id: action_id.to_owned(),
                object_id: d.object_id.clone(),
                preview,
                irreversible,
                strong_confirmation,
            },
        );
        d
    }

    pub fn grouped_paths(self, paths: Vec<String>) -> (r: Self)
        ensures
            r@ == self@.grouped_paths(views(paths@)),
    {
        let mut d = self;
        d.target = Some(FindingTarget::GroupedPaths { paths, label: d.label.clone() });
        d
    }

    pub fn filesystem_path(self, path: &str) -> (r: Self)
        ensures
            r@ == self@.filesystem_path(path@),
    {
        let mut d = self;
        d.target = Some(FindingTarget::Filesystem { path: path.to_owned() });
        d
    }

    pub fn diagnostic(self) -> (r: Self)
        ensures
            r@ == self@.diagnostic(),
    {
        let mut d = self;
        d.target =
        Some(
            FindingTarget::Diagnostic {
                provider_id: Some(d.metadata.id.to_owned()),
                diagnostic_id: d.object_id.clone(),
                label: d.label.clone(),
            },
        );
        d
    }

    pub fn supersedes(self, rule_id: &str) -> (r: Self)
        ensures
            r@ == self@.supersedes(rule_id@),
    {
        let mut d = self;
        d.supersedes.push(rule_id.to_owned());
        d
    }

    /// The finished finding.
    pub fn build(self) -> (r: Finding)
        ensures
            r@ == self@.build(),
    {
        let stable_id = "provider:".to_owned().concat(self.metadata.id).concat(":").concat(
            self.rule_id.as_str(),
        ).concat(":").concat(self.object_id.as_str());
        let mut path = String::new();
        let mut member_paths: Vec<String> = Vec::new();
        let target = match self.target {
            Some(t) => t,
            None => FindingTarget::ProviderObject {
                provider_id: self.metadata.id.to_owned(),
                object_id: self.object_id.clone(),
                label: self.label.clone(),
            },
        };
        match &target {
            FindingTarget::Filesystem { path: p } => {
                path = p.clone();
            },
            FindingTarget::GroupedPaths { paths, label } => {
                if paths.len() > 0 {
                    path = paths[0].clone();
                    assert(views(paths@)[0] == path@);
                }
                member_paths = first_paths(paths);
            },
            _ => {},
        }
        let r = Finding {
            stable_id,
            rule_id: self.rule_id,
            category: self.category,
            section: self.metadata.section,
            subgroup: self.metadata.subgroup,
            safety: self.safety,
            target,
            path,
            bytes: self.size.reclaimable,
            size: self.size,
            files: 0,
            dirs: 0,
            age_days: self.age_days,
            recent: self.recent,
            report_only: self.report_only,
            in_use: self.state == FindingState::InUse,
            manual_only: self.manual_only,
            confidence: self.confidence,
            state: self.state,
            provider: Some(
                ProviderSource {
                    id: self.metadata.id.to_owned(),
                    name: self.metadata.name.to_owned(),
                },
            ),
            reason: self.reason,
            evidence: self.evidence,
            native_action: self.action,
            supersedes: self.supersedes,
            description: self.description,
            impact: self.impact,
            recommendation: self.recommendation,
            clean_via: Vec::new(),
            member_paths,
        };
        assert(r@ =~= self@.build());
        r
    }
}

/// The paths, up to the limit of what a finding carries.
fn first_paths(paths: &Vec<String>) -> (r: Vec<String>)
    ensures
        views(r@) == if paths@.len() > MEMBER_LIMIT {
            views(paths@).take(MEMBER_LIMIT as int)
        } else {
            views(paths@)
        },
{
    let limit: usize = if paths.len() > MEMBER_LIMIT {
        MEMBER_LIMIT
    } else {
        paths.len()
    };
    let mut r: Vec<String> = Vec::new();
    let mut i: usize = 0;
    while i < limit
        invariant
            i <= limit <= paths@.len(),
            views(r@) == views(paths@.take(i as int)),
        decreases limit - i,
    {
        r.push(paths[i].clone());
        assert(paths@.take(i + 1) =~= paths@.take(i as int).push(paths@[i as int]));
        i += 1;
    }
    assert(paths@.take(paths@.len() as int) =~= paths@);
    r
}

// ---- laws of the builder ----

/// A protected finding is never removed: it is report-only, in the protected
/// tier, and promises no bytes, whatever was said of it before.
pub proof fn law_protected_promises_nothing(d: Draft)
    ensures
        d.protected().build().report_only,
        d.protected().build().safety == Safety::Protected,
        d.protected().build().state == FindingState::Protected,
        d.protected().build().bytes == 0,
        d.protected().build().size.reclaimable == 0,
{
}

/// What is in use is left to the user's own hand.
pub proof fn law_in_use_is_manual(d: Draft)
    ensures
        d.in_use().build().in_use,
        d.in_use().build().manual_only,
{
}

/// The bytes of a finding are the reclaimable ones, and it carries a bounded
/// number of member paths, all of them paths that it is about.
pub proof fn law_build_is_bounded(d: Draft)
    ensures
        d.build().bytes == d.build().size.reclaimable,
        d.build().member_paths.len() <= MEMBER_LIMIT,
        d.build().native_action is Some ==> d.build().native_action == d.action,
{
}

// ---- what tools print ----

/// The power of two that a unit printed by a tool stands for.
pub open spec fn printed_unit(unit: Seq<char>) -> Option<nat> {
    if unit == ""@ || unit == "b"@ || unit == "bytes"@ {
        Some(0)
    } else if unit == "kb"@ || unit == "kib"@ {
        Some(10)
    } else if unit == "mb"@ || unit == "mib"@ {
        Some(20)
    } else if unit == "gb"@ || unit == "gib"@ {
        Some(30)
    } else if unit == "tb"@ || unit == "tib"@ {
        Some(40)
    } else {
        None
    }
}

/// The bytes that a tool means: a decimal number, perhaps with commas, and a
/// unit of powers of 1024.
pub open spec fn printed_bytes(value: Seq<char>) -> Option<u64> {
    let v = text::replaced(text::trimmed(value), ',', ""@);
    let (n, u) = sizes::number_and_unit(v);
    if v.len() == 0 || v == "N/A"@ {
        None
    } else {
        match printed_unit(text::lowered(text::trimmed(u))) {
            Some(shift) => sizes::scaled(n, shift),
            None => None,
        }
    }
}

/// Reads a byte count that a tool printed, such as `1.5GB` or `12,345 B`.
pub fn parse_human_bytes(value: &str) -> (r: Option<u64>)
    ensures
        r == printed_bytes(value@),
{
    let v = text::replace(text::trim(value).as_str(), ',', "");
    if v.as_str().is_empty() || same(v.as_str(), "N/A") {
        return None;
    }
    let (num, rest) = sizes::split_number(v.as_str());
    let unit = text::to_ascii_lowercase(text::trim(rest.as_str()).as_str());
    let u = unit.as_str();
    let shift: u32 = if same(u, "") || same(u, "b") || same(u, "bytes") {
        0
    } else if same(u, "kb") || same(u, "kib") {
        10
    } else if same(u, "mb") || same(u, "mib") {
        20
    } else if same(u, "gb") || same(u, "gib") {
        30
    } else if same(u, "tb") || same(u, "tib") {
        40
    } else {
        return None;
    };
    sizes::scaled_bytes(num.as_str(), shift)
}

/// `a * b`, or the largest number where that does not fit.
pub open spec fn capped_product(a: u64, b: u64) -> u64 {
    if a * b > u64::MAX {
        u64::MAX
    } else {
        (a * b) as u64
    }
}

pub fn times(a: u64, b: u64) -> (r: u64)
    ensures
        r == capped_product(a, b),
{
    match a.checked_mul(b) {
        Some(n) => n,
        None => u64::MAX,
    }
}

/// The days that an age such as `3 weeks ago` stands for.
pub open spec fn printed_age(value: Seq<char>) -> Option<u64> {
    let w = text::words(value);
    if w.len() < 2 {
        None
    } else {
        match text::unsigned(w[0]) {
            None => None,
            Some(amount) => {
                let unit = text::trim_end_of(w[1], 's');
                if unit == "second"@ || unit == "minute"@ || unit == "hour"@ {
                    Some(0)
                } else if unit == "day"@ {
                    Some(amount)
                } else if unit == "week"@ {
                    Some(capped_product(amount, 7))
                } else if unit == "month"@ {
                    Some(capped_product(amount, 30))
                } else if unit == "year"@ {
                    Some(capped_product(amount, 365))
                } else {
                    None
                }
            },
        }
    }
}

/// Reads an age in words, in days.
pub fn age_from_human(value: &str) -> (r: Option<u64>)
    ensures
        r == printed_age(value@),
{
    let w = text::split_whitespace(value);
    if w.len() == 0 {
        return None;
    }
    assert(w[0]@ == views(w@)[0]);
    let amount: u64 = match text::parse_u64(w[0].as_str()) {
        Some(n) => n,
        None => {
            return None;
        },
    };
    if w.len() < 2 {
        return None;
    }
    assert(w[1]@ == views(w@)[1]);
    let unit = text::trim_end_matches(w[1].as_str(), 's');
    let u = unit.as_str();
    if same(u, "second") || same(u, "minute") || same(u, "hour") {
        Some(0)
    } else if same(u, "day") {
        Some(amount)
    } else if same(u, "week") {
        Some(times(amount, 7))
    } else if same(u, "month") {
        Some(times(amount, 30))
    } else if same(u, "year") {
        Some(times(amount, 365))
    } else {
        None
    }
}

/// The first ten bytes of a text.
fn first_ten(s: &str) -> (r: Option<String>)
    ensures
        view_of(r) == text::byte_prefix(s@, 10),
{
    let v = text::chars_of(s);
    let mut i: usize = 0;
    let mut left: u32 = 10;
    assert(v@.skip(0) =~= v@);
    assert(v@.take(0) =~= Seq::<char>::empty());
    proof {
        lemma_prefix_start(v@);
    }
    while left > 0
        invariant
            i <= v@.len(),
            v@ == s@,
            left <= 10,
            match text::byte_prefix(v@.skip(i as int), left as int) {
                Some(rest) => text::byte_prefix(v@, 10) == Some(v@.take(i as int) + rest),
                None => text::byte_prefix(v@, 10) is None,
            },
        decreases left,
    {
        if i == v.len() {
            return None;
        }
        let size: u32 = text::bytes_in(v[i]);
        assert(v@.skip(i as int)[0] == v@[i as int]);
        if size > left {
            return None;
        }
        proof {
            assert(v@.skip(i as int).skip(1) =~= v@.skip(i + 1));
            if let Some(rest) = text::byte_prefix(v@.skip(i + 1), left - size) {
                assert(v@.take(i as int) + (seq![v@[i as int]] + rest) =~= v@.take(i + 1) + rest);
            }
        }
        left = left - size;
        i += 1;
    }
    assert(v@.take(i as int) + Seq::<char>::empty() =~= v@.take(i as int));
    assert(v@.subrange(0, i as int) =~= v@.take(i as int));
    Some(text::text_of(&v, 0, i))
}

proof fn lemma_prefix_start(v: Seq<char>)
    ensures
        match text::byte_prefix(v, 10) {
            Some(rest) => Seq::<char>::empty() + rest == rest,
            None => true,
        },
{
    if let Some(rest) = text::byte_prefix(v, 10) {
        assert(Seq::<char>::empty() + rest =~= rest);
    }
}

/// The days from 1 January 1970 to a date of the Gregorian calendar. Years
/// run from March, so that the leap day ends one.
pub open spec fn civil_days(year: int, month: int, day: int) -> int {
    let y = if month <= 2 {
        year - 1
    } else {
        year
    };
    let m = if month > 2 {
        month - 3
    } else {
        month + 9
    };
    let era = y / 400;
    let of_era = y - era * 400;
    let day_of_year = (153 * m + 2) / 5 + day - 1;
    era * 146_097 + of_era * 365 + of_era / 4 - of_era / 100 + day_of_year - 719_468
}

/// The days from 1 January 1970 to a date of the Gregorian calendar.
fn days_from_civil(year: i64, month: i64, day: i64) -> (r: i64)
    requires
        0 <= year <= 0xffff_ffff_ffff,
        0 <= month <= 0xffff_ffff_ffff,
        0 <= day <= 0xffff_ffff_ffff,
    ensures
        r == civil_days(year as int, month as int, day as int),
{
    let y: i64 = if month <= 2 {
        year - 1
    } else {
        year
    };
    let era: i64 = if y >= 0 {
        y / 400
    } else {
        -1
    };
    let of_era: i64 = y - era * 400;
    let m: i64 = if month > 2 {
        month - 3
    } else {
        month + 9
    };
    let day_of_year: i64 = (153 * m + 2) / 5 + day - 1;
    let day_of_era: i64 = of_era * 365 + of_era / 4 - of_era / 100 + day_of_year;
    era * 146_097 + day_of_era - 719_468
}

/// The day of a date such as `2024-05-17T08:00:00Z`.
pub open spec fn iso_day(value: Seq<char>) -> Option<int> {
    match text::byte_prefix(value, 10) {
        None => None,
        Some(date) => {
            let p = text::pieces(date, text::is_char('-'));
            if p.len() < 3 {
                None
            } else {
                match (text::signed(p[0]), text::signed(p[1]), text::signed(p[2])) {
                    (Some(y), Some(m), Some(d)) => Some(civil_days(y as int, m as int, d as int)),
                    _ => None,
                }
            }
        },
    }
}

/// The days from a date to the second `now` of the epoch; none where the date
/// lies ahead.
pub open spec fn iso_age(value: Seq<char>, now: u64) -> Option<u64> {
    match iso_day(value) {
        None => None,
        Some(then) => Some(
            if now / 86_400 - then > 0 {
                (now / 86_400 - then) as u64
            } else {
                0
            },
        ),
    }
}

proof fn lemma_number_limit(s: Seq<char>)
    requires
        text::all_digits(s),
        s.len() <= 10,
    ensures
        text::number(s) <= 9_999_999_999,
    decreases s.len(),
{
    lemma_number_power(s);
    reveal_with_fuel(sizes::pow10, 11);
    lemma_power_grows(s.len(), 10);
}

proof fn lemma_power_grows(a: nat, b: nat)
    requires
        a <= b,
    ensures
        sizes::pow10(a) <= sizes::pow10(b),
    decreases b,
{
    if a < b {
        lemma_power_grows(a, (b - 1) as nat);
    }
}

proof fn lemma_number_power(s: Seq<char>)
    requires
        text::all_digits(s),
    ensures
        text::number(s) < sizes::pow10(s.len()),
    decreases s.len(),
{
    if s.len() > 0 {
        let t = s.drop_last();
        assert forall|i: int| 0 <= i < t.len() implies text::is_digit(#[trigger] t[i]) by {
            assert(t[i] == s[i]);
        }
        lemma_number_power(t);
        assert(text::is_digit(s[s.len() - 1]));
    }
}

/// A number read from a piece between minus signs is small and not negative.
proof fn lemma_piece_number(s: Seq<char>)
    requires
        s.len() <= 10,
        !s.contains('-'),
        text::signed(s) is Some,
    ensures
        0 <= text::signed(s)->0 <= 9_999_999_999,
{
    assert(s.len() > 0 ==> s.contains(s[0]));
    lemma_number_limit(text::without_plus(s));
}

proof fn lemma_pieces_of(s: Seq<char>, i: int)
    requires
        0 <= i < text::pieces(s, text::is_char('-')).len(),
    ensures
        text::pieces(s, text::is_char('-'))[i].len() <= s.len(),
        !text::pieces(s, text::is_char('-'))[i].contains('-'),
    decreases s.len(),
{
    if s.len() > 0 {
        let cut = text::is_char('-');
        let p = text::pieces(s.drop_last(), cut);
        text::lemma_pieces_nonempty(s.drop_last(), cut);
        if cut(s.last()) {
            if i < p.len() {
                lemma_pieces_of(s.drop_last(), i);
            }
        } else {
            lemma_pieces_of(s.drop_last(), i);
            let now = text::pieces(s, cut)[i];
            if i == p.len() - 1 && now.contains('-') {
                let k = choose|k: int| 0 <= k < now.len() && now[k] == '-';
                assert(now == p[i].push(s.last()));
                if k < p[i].len() {
                    assert(p[i][k] == '-');
                }
            }
        }
    }
}

proof fn lemma_prefix_short(s: Seq<char>, n: int)
    requires
        n >= 0,
        text::byte_prefix(s, n) is Some,
    ensures
        text::byte_prefix(s, n)->0.len() <= n,
    decreases s.len(),
{
    if n > 0 {
        lemma_prefix_short(s.skip(1), n - text::utf8_len(s[0]));
    }
}

/// The age in days of an ISO 8601 date, at the second `now` of the epoch.
pub fn age_from_iso8601(value: &str, now: u64) -> (r: Option<u64>)
    ensures
        r == iso_age(value@, now),
{
    let date = match first_ten(value) {
        Some(d) => d,
        None => {
            return None;
        },
    };
    let p = text::split(date.as_str(), '-');
    if p.len() < 3 {
        return None;
    }
    proof {
        lemma_prefix_short(value@, 10);
        lemma_pieces_of(date@, 0);
        lemma_pieces_of(date@, 1);
        lemma_pieces_of(date@, 2);
        assert(views(p@)[0] == p@[0]@ && views(p@)[1] == p@[1]@ && views(p@)[2] == p@[2]@);
    }
    let (year, month, day) = match (
        text::parse_i64(p[0].as_str()),
        text::parse_i64(p[1].as_str()),
        text::parse_i64(p[2].as_str()),
    ) {
        (Some(y), Some(m), Some(d)) => (y, m, d),
        _ => {
            return None;
        },
    };
    proof {
        lemma_piece_number(p@[0]@);
        lemma_piece_number(p@[1]@);
        lemma_piece_number(p@[2]@);
    }
    let then: i64 = days_from_civil(year, month, day);
    let today: i64 = (now / 86_400) as i64;
    if today > then {
        Some((today as i128 - then as i128) as u64)
    } else {
        Some(0)
    }
}

/// A day later is a day later, within a month as written.
pub proof fn law_civil_days_step(year: int, month: int, day: int)
    ensures
        civil_days(year, month, day + 1) == civil_days(year, month, day) + 1,
{
}

/// Four hundred years are 146097 days.
pub proof fn law_civil_days_period(year: int, month: int, day: int)
    ensures
        civil_days(year + 400, month, day) == civil_days(year, month, day) + 146_097,
{
}

proof fn lemma_nothing_replaced(s: Seq<char>, from: char, to: Seq<char>)
    requires
        forall|i: int| 0 <= i < s.len() ==> #[trigger] s[i] != from,
    ensures
        text::replaced(s, from, to) == s,
    decreases s.len(),
{
    if s.len() > 0 {
        assert forall|i: int| 0 <= i < s.drop_last().len() implies #[trigger] s.drop_last()[i] != from by {
            assert(s.drop_last()[i] == s[i]);
        }
        lemma_nothing_replaced(s.drop_last(), from, to);
        assert(s.drop_last().push(s.last()) =~= s);
    }
}

/// A number and a unit, as they are written, are read apart.
proof fn lemma_read_apart(num: Seq<char>, name: Seq<char>)
    requires
        num.len() > 0,
        text::is_digit(num[0]),
        forall|i: int| 0 <= i < num.len() ==> text::is_digit(#[trigger] num[i]) || num[i] == '.',
        name.len() > 0,
        forall|i: int| 0 <= i < name.len() ==> 'A' <= #[trigger] name[i] <= 'Z',
    ensures
        printed_bytes(num + " "@ + name) == match printed_unit(text::lowered(name)) {
            Some(shift) => sizes::scaled(num, shift),
            None => None,
        },
{
    reveal_strlit(" ");
    reveal_strlit("N/A");
    let s = num + " "@ + name;
    assert(s[0] == num[0]);
    assert(s.last() == name.last());
    assert(text::trimmed(s) == s);
    assert forall|i: int| 0 <= i < s.len() implies #[trigger] s[i] != ',' by {
        if i < num.len() {
            assert(s[i] == num[i]);
        } else if i > num.len() {
            assert(s[i] == name[i - num.len() - 1]);
        }
    }
    lemma_nothing_replaced(s, ',', ""@);
    assert forall|j: int| 0 <= j < num.len() implies text::is_digit(#[trigger] s[j]) || s[j] == '.' by {
        assert(s[j] == num[j]);
    }
    sizes::lemma_numeric_prefix(s, num.len() as int);
    assert(s.take(num.len() as int) =~= num);
    let unit = s.skip(num.len() as int);
    assert(unit =~= " "@ + name);
    assert(unit.skip(1) =~= name);
    assert(unit[0] == ' ');
    reveal_with_fuel(text::trim_start, 2);
    assert(!text::space(name[0]) && !text::space(name.last()));
    assert(text::trimmed(unit) == name);
    assert("N/A"@[0] == 'N');
}

/// A whole number of bytes, or of the unit in which it is written, reads as the
/// bytes that it stands for.
pub proof fn law_written_sizes_read(n: nat, u: nat)
    requires
        u <= 4,
        n * pow2(10 * u) <= u64::MAX,
        sizes::unit_of(n * pow2(10 * u)) == u,
    ensures
        printed_bytes(sizes::human(n * pow2(10 * u))) == Some((n * pow2(10 * u)) as u64),
{
    reveal_strlit("B");
    reveal_strlit("KB");
    reveal_strlit("MB");
    reveal_strlit("GB");
    reveal_strlit("TB");
    reveal_strlit("");
    reveal_strlit("b");
    reveal_strlit("bytes");
    reveal_strlit("kb");
    reveal_strlit("kib");
    reveal_strlit("mb");
    reveal_strlit("mib");
    reveal_strlit("gb");
    reveal_strlit("gib");
    reveal_strlit("tb");
    reveal_strlit("tib");
    reveal_strlit(".");
    let name = sizes::unit_name(u);
    let d = text::digits(n);
    let z = text::digits(0);
    text::lemma_digits_number(n);
    text::lemma_digits_number(0);
    sizes::lemma_whole_scaled(n, u);
    assert("B"@[0] == 'B' && "b"@[0] == 'b' && "KB"@[0] == 'K' && "kb"@[0] == 'k' && "kib"@.len() == 3);
    assert("MB"@[0] == 'M' && "mb"@[0] == 'm' && "GB"@[0] == 'G' && "gb"@[0] == 'g');
    assert("TB"@[0] == 'T' && "tb"@[0] == 't' && "mib"@.len() == 3 && "gib"@.len() == 3);
    assert("tib"@.len() == 3 && "bytes"@.len() == 5 && ""@.len() == 0);
    if u == 0 {
        lemma2_to64();
        assert(n * pow2(10 * u) == n) by (nonlinear_arith)
            requires
                u == 0,
                pow2(0) == 1,
        ;
        assert forall|i: int| 0 <= i < d.len() implies text::is_digit(#[trigger] d[i]) || d[i] == '.' by {
        }
        lemma_read_apart(d, name);
        assert(text::lowered(name) =~= "b"@);
    } else {
        sizes::lemma_whole_units(n, u);
        let num = d + "."@ + z;
        assert forall|i: int| 0 <= i < num.len() implies text::is_digit(#[trigger] num[i]) || num[i] == '.' by {
            if i < d.len() {
                assert(num[i] == d[i]);
            } else if i > d.len() {
                assert(num[i] == z[i - d.len() - 1]);
            }
        }
        assert(num[0] == d[0]);
        lemma_read_apart(num, name);
        if u == 1 {
            assert(text::lowered(name) =~= "kb"@);
        } else if u == 2 {
            assert(text::lowered(name) =~= "mb"@);
        } else if u == 3 {
            assert(text::lowered(name) =~= "gb"@);
        } else {
            assert(text::lowered(name) =~= "tb"@);
        }
    }
}

/// Sums add: the bytes of one more are its own.
pub proof fn law_sums_add(sizes: Seq<u64>, n: u64)
    ensures
        sum_of(Seq::empty()) == 0,
        sum_of(sizes.push(n)) == sum_of(sizes) + n,
{
    assert(sizes.push(n).drop_last() =~= sizes);
}

/// What is drafted is what is found: the bytes, the age, the tier and what keeps it
/// from being selected in bulk.
pub proof fn law_findings_say_what_was_drafted(d: Draft)
    ensures
        ({
            let f = d.build();
            &&& f.bytes == d.size.reclaimable
            &&& f.size == d.size
            &&& f.safety == d.safety
            &&& f.recent == d.recent
            &&& f.age_days == d.age_days
            &&& f.manual_only == d.manual_only
            &&& f.report_only == d.report_only
            &&& f.rule_id == d.rule_id
            &&& f.category == d.category
            &&& f.state == d.state
            &&& f.native_action == d.action
            &&& f.evidence == d.evidence
            &&& f.provider is Some && f.provider->0.id == d.metadata.id
            &&& f.section == d.metadata.section
        }),
{
}

/// What a finding stands for: one path, the paths of a group up to the limit, or
/// nothing of the file system.
pub proof fn law_findings_have_their_paths(d: Draft, path: Seq<char>, group: Seq<Seq<char>>)
    ensures
        d.filesystem_path(path).build().path == path,
        d.filesystem_path(path).build().member_paths.len() == 0,
        target_paths(d.filesystem_path(path).build().target) == seq![path],
        target_paths(d.grouped_paths(group).build().target) == group,
        group.len() <= 50_000 ==> d.grouped_paths(group).build().member_paths == group,
        group.len() > 50_000 ==> d.grouped_paths(group).build().member_paths == group.take(50_000),
        group.len() > 0 ==> d.grouped_paths(group).build().path == group[0],
        target_paths(d.diagnostic().build().target).len() == 0,
{
}

/// Each step of a draft changes what it says and leaves the rest as it is.
pub proof fn law_steps_of_a_draft(d: Draft, age: Option<u64>, recent: bool, id: Seq<char>, preview: Seq<Seq<char>>)
    ensures
        d.age(age, recent).recent == recent,
        d.age(age, recent).age_days == age,
        recent ==> d.age(age, recent).state == FindingState::Recent,
        !recent ==> d.age(age, recent).state == d.state,
        d.age(age, recent).size == d.size,
        d.manual().manual_only,
        d.manual().size == d.size,
        d.report_only().report_only,
        d.report_only().state == FindingState::Informational,
        d.in_use().state == FindingState::InUse,
        d.estimated().size.accuracy == SizeAccuracy::Estimated,
        d.estimated().size.reclaimable == d.size.reclaimable,
        d.action(id, preview, true, true).action is Some,
        d.action(id, preview, true, true).action->0.object_id == d.object_id,
        d.action(id, preview, true, true).action->0.action_id == id,
        d.action(id, preview, true, true).action->0.provider_id == d.metadata.id,
        d.action(id, preview, true, true).report_only == d.report_only,
{
}

/// Something is old enough exactly where its age is known and at least that many
/// days.
pub proof fn law_unknown_ages_are_not_old(age: Option<u64>, days: u64)
    ensures
        aged(None, days) == false,
        age is Some ==> (aged(age, days) <==> age->0 >= days),
{
}

/// An action is valid exactly where the finding is still there.
pub proof fn law_findings_are_looked_for_again(found: Seq<Finding>, id: Seq<char>, changed: Seq<char>)
    ensures
        revalidated(found, id, changed) == RevalidationModel::Valid <==> exists|i: int|
        0 <= i < found.len() && (#[trigger] found[i]).stable_id@ == id,
        obstacle_of(revalidated(found, id, changed)) is None <==> exists|i: int|
        0 <= i < found.len() && (#[trigger] found[i]).stable_id@ == id,
{
}

/// The first piece of evidence of a label is the one that is read.
pub proof fn law_first_evidence_is_read(evidence: Seq<EvidenceModel>, label: Seq<char>, i: int)
    requires
        0 <= i < evidence.len(),
        evidence[i].label == label,
        forall|j: int| 0 <= j < i ==> (#[trigger] evidence[j]).label != label,
    ensures
        evidence_at(evidence, label) == Some(evidence[i].value),
{
    crate::seqs::law_first_is_found(evidence, if_labelled(label), i);
}

/// An age in words is so many days: whole days as they are, seven to a week, thirty
/// to a month, 365 to a year, and none for less than a day.
pub proof fn law_written_ages_are_days(value: Seq<char>, n: u64)
    requires
        text::words(value).len() >= 2,
        text::unsigned(text::words(value)[0]) == Some(n),
        n * 365 <= u64::MAX,
    ensures
        ({
            let unit = text::trim_end_of(text::words(value)[1], 's');
            &&& unit == "day"@ ==> printed_age(value) == Some(n)
            &&& unit == "week"@ ==> printed_age(value) == Some((7 * n) as u64)
            &&& unit == "month"@ ==> printed_age(value) == Some((30 * n) as u64)
            &&& unit == "year"@ ==> printed_age(value) == Some((365 * n) as u64)
            &&& unit == "hour"@ || unit == "minute"@ || unit == "second"@ ==> printed_age(value) == Some(0u64)
        }),
{
    reveal_strlit("second");
    reveal_strlit("minute");
    reveal_strlit("hour");
    reveal_strlit("day");
    reveal_strlit("week");
    reveal_strlit("month");
    reveal_strlit("year");
    assert("day"@.len() == 3 && "week"@.len() == 4 && "month"@.len() == 5 && "year"@.len() == 4
        && "hour"@.len() == 4 && "second"@.len() == 6 && "minute"@.len() == 6);
    assert("week"@[0] == 'w' && "year"@[0] == 'y' && "hour"@[0] == 'h');
}

/// The days before a year that begins in March.
spec fn days_before(y: int) -> int {
    let of_era = y - (y / 400) * 400;
    (y / 400) * 146_097 + of_era * 365 + of_era / 4 - of_era / 100
}

proof fn lemma_year_length(y: int)
    ensures
        days_before(y) - days_before(y - 1) == if y % 4 == 0 && (y % 100 != 0 || y % 400 == 0) {
            366int
        } else {
            365
        },
{
    let era = y / 400;
    let r = y % 400;
    assert(y == 400 * era + r && 0 <= r < 400);
    assert(y % 4 == r % 4);
    assert(y % 100 == r % 100);
    if r == 0 {
        assert((y - 1) / 400 == era - 1);
        assert((y - 1) - (era - 1) * 400 == 399);
    } else {
        assert((y - 1) / 400 == era);
    }
}

/// Days are counted from the first of January 1970, each month has its days, and
/// February one more in each fourth year but three centuries of four.
pub proof fn law_calendar(year: int, month: int)
    requires
        1 <= month <= 12,
    ensures
        civil_days(1970, 1, 1) == 0,
        month == 1 || month == 3 || month == 5 || month == 7 || month == 8 || month == 10 ==> civil_days(
            year,
            month + 1,
            1,
        ) == civil_days(year, month, 1) + 31,
        month == 4 || month == 6 || month == 9 || month == 11 ==> civil_days(year, month + 1, 1)
            == civil_days(year, month, 1) + 30,
        month == 2 ==> civil_days(year, 3, 1) == civil_days(year, 2, 1) + if year % 4 == 0 && (year % 100
            != 0 || year % 400 == 0) {
            29int
        } else {
            28
        },
        month == 12 ==> civil_days(year + 1, 1, 1) == civil_days(year, 12, 1) + 31,
{
    let next = if month == 12 {
        1
    } else {
        month + 1
    };
    let next_year = if month == 12 {
        year + 1
    } else {
        year
    };
    lemma_year_length(year);
    lemma_days_of(year, month);
    lemma_days_of(next_year, next);
    lemma_days_of(1970, 1);
}

proof fn lemma_days_of(year: int, month: int)
    requires
        1 <= month <= 12,
    ensures
        civil_days(year, month, 1) == days_before(
            if month <= 2 {
                year - 1
            } else {
                year
            },
        ) + (153 * (if month > 2 {
            month - 3
        } else {
            month + 9
        }) + 2) / 5 - 719_468,
{
}

/// An age is the days between a day and today, and none where the day lies ahead.
pub proof fn law_ages_are_days_between(value: Seq<char>, now: u64)
    ensures
        match (iso_day(value), iso_age(value, now)) {
            (Some(then), Some(age)) => {
                &&& then <= now / 86_400 && now / 86_400 - then <= u64::MAX ==> age == now / 86_400 - then
                &&& then > now / 86_400 ==> age == 0
            },
            (None, None) => true,
            _ => false,
        },
{
}

} // verus!
