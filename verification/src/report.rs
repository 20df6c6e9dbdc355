//! Findings, the scan report, and what the terminal shows of them.

use crate::paths;
use crate::rules::{Safety, safety_label};
use crate::seqs::{group_views, view_of, views};
use crate::sizes;
use crate::sorting;
use crate::taxonomy::{Section, Subgroup};
use crate::text;
use vstd::prelude::*;

pub use crate::sizes::human_bytes;

verus! {

broadcast use group_views;

// ---- findings ----

/// How well the reclaimable bytes of a finding are known.
#[derive(Debug, Clone, Copy, PartialEq, Eq, Structural)]
pub enum SizeAccuracy {
    Exact,
    Estimated,
    Unknown,
}

/// How sure the analysis is of what it found.
#[derive(Debug, Clone, Copy, PartialEq, Eq, Structural)]
pub enum Confidence {
    Exact,
    High,
    Medium,
    Low,
}

/// What a finding currently is to the user.
#[derive(Debug, Clone, Copy, PartialEq, Eq, Structural)]
pub enum FindingState {
    Candidate,
    Recent,
    InUse,
    Informational,
    Protected,
}

/// The sizes of a finding, in bytes.
#[derive(Debug, Clone, Copy, PartialEq, Eq, Structural)]
pub struct FindingSize {
    /// Nominal content or configured capacity.
    pub logical: u64,
    /// Allocated bytes of the host file system, where available.
    pub physical: u64,
    /// Bytes attributable to the object alone.
    pub unique: u64,
    /// Bytes shared with objects that stay.
    pub shared: u64,
    /// Bytes that the action is expected to release.
    pub reclaimable: u64,
    pub accuracy: SizeAccuracy,
}

/// The size of an object whose allocated bytes are all its own.
pub open spec fn whole_size(bytes: u64) -> FindingSize {
    FindingSize {
        logical: bytes,
        physical: bytes,
        unique: bytes,
        shared: 0,
        reclaimable: bytes,
        accuracy: SizeAccuracy::Exact,
    }
}

impl FindingSize {
    /// The size of an object whose allocated bytes are all its own.
    pub fn exact_physical(bytes: u64) -> (r: FindingSize)
        ensures
            r == whole_size(bytes),
    {
        FindingSize {
            logical: bytes,
            physical: bytes,
            unique: bytes,
            shared: 0,
            reclaimable: bytes,
            accuracy: SizeAccuracy::Exact,
        }
    }
}

/// What a finding is about.
#[derive(Debug, Clone)]
pub enum FindingTarget {
    Filesystem { path: String },
    GroupedPaths { paths: Vec<String>, label: String },
    ProviderObject { provider_id: String, object_id: String, label: String },
    Diagnostic { provider_id: Option<String>, diagnostic_id: String, label: String },
}

/// What a finding is about, as text.
#[verifier::ext_equal]
pub enum TargetModel {
    Filesystem { path: Seq<char> },
    GroupedPaths { paths: Seq<Seq<char>>, label: Seq<char> },
    ProviderObject { provider_id: Seq<char>, object_id: Seq<char>, label: Seq<char> },
    Diagnostic { provider_id: Option<Seq<char>>, diagnostic_id: Seq<char>, label: Seq<char> },
}

impl View for FindingTarget {
    type V = TargetModel;

    open spec fn view(&self) -> TargetModel {
        match *self {
            FindingTarget::Filesystem { path } => TargetModel::Filesystem { path: path@ },
            FindingTarget::GroupedPaths { paths, label } => TargetModel::GroupedPaths {
                paths: views(paths@),
                label: label@,
            },
            FindingTarget::ProviderObject { provider_id, object_id, label } =>
                TargetModel::ProviderObject {
                provider_id: provider_id@,
                object_id: object_id@,
                label: label@,
            },
            FindingTarget::Diagnostic { provider_id, diagnostic_id, label } =>
                TargetModel::Diagnostic {
                provider_id: view_of(provider_id),
                diagnostic_id: diagnostic_id@,
                label: label@,
            },
        }
    }
}

/// One fact that the analysis rests on.
#[derive(Debug, Clone)]
pub struct Evidence {
    pub label: String,
    pub value: String,
}

#[verifier::ext_equal]
pub struct EvidenceModel {
    pub label: Seq<char>,
    pub value: Seq<char>,
}

impl View for Evidence {
    type V = EvidenceModel;

    open spec fn view(&self) -> EvidenceModel {
        EvidenceModel { label: self.label@, value: self.value@ }
    }
}

/// A typed action that the owning provider can take.
#[derive(Debug, Clone)]
pub struct ProviderAction {
    pub provider_id: String,
    pub action_id: String,
    pub object_id: String,
    pub preview: Vec<String>,
    pub irreversible: bool,
    pub strong_confirmation: bool,
}

#[verifier::ext_equal]
pub struct ActionModel {
    pub provider_id: Seq<char>,
    pub action_id: Seq<char>,
    pub object_id: Seq<char>,
    pub preview: Seq<Seq<char>>,
    pub irreversible: bool,
    pub strong_confirmation: bool,
}

impl View for ProviderAction {
    type V = ActionModel;

    open spec fn view(&self) -> ActionModel {
        ActionModel {
            provider_id: self.provider_id@,
            action_id: self.action_id@,
            object_id: self.object_id@,
            preview: views(self.preview@),
            irreversible: self.irreversible,
            strong_confirmation: self.strong_confirmation,
        }
    }
}

/// The provider that owns a finding.
#[derive(Debug, Clone)]
pub struct ProviderSource {
    pub id: String,
    pub name: String,
}

#[verifier::ext_equal]
pub struct SourceModel {
    pub id: Seq<char>,
    pub name: Seq<char>,
}

impl View for ProviderSource {
    type V = SourceModel;

    open spec fn view(&self) -> SourceModel {
        SourceModel { id: self.id@, name: self.name@ }
    }
}

/// One thing that could be cleaned, or that is worth knowing.
#[derive(Debug, Clone)]
pub struct Finding {
    pub stable_id: String,
    pub rule_id: String,
    pub category: String,
    pub section: Section,
    pub subgroup: Subgroup,
    pub safety: Safety,
    pub target: FindingTarget,
    pub path: String,
    pub bytes: u64,
    pub size: FindingSize,
    pub files: u64,
    pub dirs: u64,
    /// Days since the newest mtime seen in the subtree / relevant markers.
    pub age_days: Option<u64>,
    /// True when the rule's min_age gate failed: reported, never planned.
    pub recent: bool,
    pub report_only: bool,
    /// A running process uses the data.
    pub in_use: bool,
    /// Selectable by hand, but never by bulk select-all.
    pub manual_only: bool,
    pub confidence: Confidence,
    pub state: FindingState,
    pub provider: Option<ProviderSource>,
    pub reason: String,
    pub evidence: Vec<Evidence>,
    pub native_action: Option<ProviderAction>,
    pub supersedes: Vec<String>,
    pub description: Option<String>,
    pub impact: Option<String>,
    pub recommendation: Option<String>,
    pub clean_via: Vec<String>,
    /// For file-table rules (e.g. .DS_Store): every matched path. Empty for
    /// subtree findings, where `path` is the deletable root.
    pub member_paths: Vec<String>,
}

/// A finding, as text and numbers.
#[verifier::ext_equal]
pub struct FindingModel {
    pub stable_id: Seq<char>,
    pub rule_id: Seq<char>,
    pub category: Seq<char>,
    pub section: Section,
    pub subgroup: Subgroup,
    pub safety: Safety,
    pub target: TargetModel,
    pub path: Seq<char>,
    pub bytes: u64,
    pub size: FindingSize,
    pub files: u64,
    pub dirs: u64,
    pub age_days: Option<u64>,
    pub recent: bool,
    pub report_only: bool,
    pub in_use: bool,
    pub manual_only: bool,
    pub confidence: Confidence,
    pub state: FindingState,
    pub provider: Option<SourceModel>,
    pub reason: Seq<char>,
    pub evidence: Seq<EvidenceModel>,
    pub native_action: Option<ActionModel>,
    pub supersedes: Seq<Seq<char>>,
    pub description: Option<Seq<char>>,
    pub impact: Option<Seq<char>>,
    pub recommendation: Option<Seq<char>>,
    pub clean_via: Seq<Seq<char>>,
    pub member_paths: Seq<Seq<char>>,
}

impl View for Finding {
    type V = FindingModel;

    open spec fn view(&self) -> FindingModel {
        FindingModel {
            stable_id: self.stable_id@,
            rule_id: self.rule_id@,
            category: self.category@,
            section: self.section,
            subgroup: self.subgroup,
            safety: self.safety,
            target: self.target@,
            path: self.path@,
            bytes: self.bytes,
            size: self.size,
            files: self.files,
            dirs: self.dirs,
            age_days: self.age_days,
            recent: self.recent,
            report_only: self.report_only,
            in_use: self.in_use,
            manual_only: self.manual_only,
            confidence: self.confidence,
            state: self.state,
            provider: view_of(self.provider),
            reason: self.reason@,
            evidence: views(self.evidence@),
            native_action: view_of(self.native_action),
            supersedes: views(self.supersedes@),
            description: view_of(self.description),
            impact: view_of(self.impact),
            recommendation: view_of(self.recommendation),
            clean_via: views(self.clean_via@),
            member_paths: views(self.member_paths@),
        }
    }
}

// ---- totals ----

#[derive(Debug, Clone, Copy, PartialEq, Eq, Structural)]
pub struct Totals {
    pub safe_bytes: u64,
    pub review_bytes: u64,
    pub risky_bytes: u64,
    pub report_only_bytes: u64,
    pub recent_bytes: u64,
}

impl Default for Totals {
    fn default() -> (r: Self)
        ensures
            r == (Totals {
                safe_bytes: 0,
                review_bytes: 0,
                risky_bytes: 0,
                report_only_bytes: 0,
                recent_bytes: 0,
            }),
    {
        Totals {
            safe_bytes: 0,
            review_bytes: 0,
            risky_bytes: 0,
            report_only_bytes: 0,
            recent_bytes: 0,
        }
    }
}

/// Where the bytes of a finding are counted.
pub enum Bucket {
    Safe,
    Review,
    Risky,
    ReportOnly,
    Recent,
    Nowhere,
}

/// Recent findings count as such before anything else; report-only ones come
/// next; protected data is not counted.
pub open spec fn bucket_of(f: Finding) -> Bucket {
    if f.recent {
        Bucket::Recent
    } else if f.report_only {
        Bucket::ReportOnly
    } else {
        match f.safety {
            Safety::Safe => Bucket::Safe,
            Safety::Review => Bucket::Review,
            Safety::Risky => Bucket::Risky,
            Safety::Protected => Bucket::Nowhere,
        }
    }
}

/// The bytes of the findings that count in bucket `b`.
pub open spec fn bucket_sum(findings: Seq<Finding>, b: Bucket) -> nat
    decreases findings.len(),
{
    if findings.len() == 0 {
        0
    } else {
        bucket_sum(findings.drop_last(), b) + if bucket_of(findings.last()) == b {
            findings.last().bytes as nat
        } else {
            0
        }
    }
}

/// The bytes of all findings.
pub open spec fn byte_sum(findings: Seq<Finding>) -> nat
    decreases findings.len(),
{
    if findings.len() == 0 {
        0
    } else {
        byte_sum(findings.drop_last()) + findings.last().bytes as nat
    }
}

/// Whether every bucket fits in 64 bits.
pub open spec fn buckets_fit(findings: Seq<Finding>) -> bool {
    &&& bucket_sum(findings, Bucket::Safe) <= u64::MAX
    &&& bucket_sum(findings, Bucket::Review) <= u64::MAX
    &&& bucket_sum(findings, Bucket::Risky) <= u64::MAX
    &&& bucket_sum(findings, Bucket::ReportOnly) <= u64::MAX
    &&& bucket_sum(findings, Bucket::Recent) <= u64::MAX
}

pub open spec fn totals_are(t: Totals, findings: Seq<Finding>) -> bool {
    &&& t.safe_bytes == bucket_sum(findings, Bucket::Safe)
    &&& t.review_bytes == bucket_sum(findings, Bucket::Review)
    &&& t.risky_bytes == bucket_sum(findings, Bucket::Risky)
    &&& t.report_only_bytes == bucket_sum(findings, Bucket::ReportOnly)
    &&& t.recent_bytes == bucket_sum(findings, Bucket::Recent)
}

proof fn lemma_bucket_step(findings: Seq<Finding>, i: int, b: Bucket)
    requires
        0 <= i < findings.len(),
    ensures
        bucket_sum(findings.take(i + 1), b) == bucket_sum(findings.take(i), b) + if bucket_of(
            findings[i],
        ) == b {
            findings[i].bytes as nat
        } else {
            0
        },
{
    assert(findings.take(i + 1).drop_last() =~= findings.take(i));
}

proof fn lemma_bucket_grows(findings: Seq<Finding>, i: int, b: Bucket)
    requires
        0 <= i <= findings.len(),
    ensures
        bucket_sum(findings.take(i), b) <= bucket_sum(findings, b),
    decreases findings.len() - i,
{
    if i == findings.len() {
        assert(findings.take(i) =~= findings);
    } else {
        lemma_bucket_step(findings, i, b);
        lemma_bucket_grows(findings, i + 1, b);
    }
}

pub struct Report {
    pub roots: Vec<String>,
    pub findings: Vec<Finding>,
    pub totals: Totals,
    pub scanned_files: u64,
    pub scanned_dirs: u64,
    pub elapsed_ms: u128,
}

impl Report {
    /// The bytes of the findings by tier, or nothing where a sum overflows.
    pub fn checked_totals(findings: &[Finding]) -> (r: Option<Totals>)
        ensures
            match r {
                Some(t) => totals_are(t, findings@),
                None => !buckets_fit(findings@),
            },
    {
        let mut t = Totals::default();
        let mut i: usize = 0;
        assert(findings@.take(0) =~= Seq::<Finding>::empty());
        while i < findings.len()
            invariant
                i <= findings@.len(),
                totals_are(t, findings@.take(i as int)),
            decreases findings@.len() - i,
        {
            let f = &findings[i];
            proof {
                lemma_bucket_step(findings@, i as int, Bucket::Safe);
                lemma_bucket_step(findings@, i as int, Bucket::Review);
                lemma_bucket_step(findings@, i as int, Bucket::Risky);
                lemma_bucket_step(findings@, i as int, Bucket::ReportOnly);
                lemma_bucket_step(findings@, i as int, Bucket::Recent);
                lemma_bucket_grows(findings@, i + 1, Bucket::Safe);
                lemma_bucket_grows(findings@, i + 1, Bucket::Review);
                lemma_bucket_grows(findings@, i + 1, Bucket::Risky);
                lemma_bucket_grows(findings@, i + 1, Bucket::ReportOnly);
                lemma_bucket_grows(findings@, i + 1, Bucket::Recent);
            }
            if f.recent {
                match t.recent_bytes.checked_add(f.bytes) {
                    Some(n) => {
                        t.recent_bytes = n;
                    },
                    None => {
                        return None;
                    },
                }
            } else if f.report_only {
                match t.report_only_bytes.checked_add(f.bytes) {
                    Some(n) => {
                        t.report_only_bytes = n;
                    },
                    None => {
                        return None;
                    },
                }
            } else {
                match f.safety {
                    Safety::Safe => match t.safe_bytes.checked_add(f.bytes) {
                        Some(n) => {
                            t.safe_bytes = n;
                        },
                        None => {
                            return None;
                        },
                    },
                    Safety::Review => match t.review_bytes.checked_add(f.bytes) {
                        Some(n) => {
                            t.review_bytes = n;
                        },
                        None => {
                            return None;
                        },
                    },
                    Safety::Risky => match t.risky_bytes.checked_add(f.bytes) {
                        Some(n) => {
                            t.risky_bytes = n;
                        },
                        None => {
                            return None;
                        },
                    },
                    Safety::Protected => {},
                }
            }
            i += 1;
        }
        assert(findings@.take(findings@.len() as int) =~= findings@);
        Some(t)
    }

    /// The bytes of the findings by tier.
    pub fn compute_totals(findings: &[Finding]) -> (r: Totals)
        requires
            buckets_fit(findings@),
        ensures
            totals_are(r, findings@),
    {
        match Report::checked_totals(findings) {
            Some(t) => t,
            None => Totals::default(),
        }
    }
}

/// The five totals and the protected bytes make up the bytes of all findings:
/// each finding counts once.
pub proof fn law_totals_partition(findings: Seq<Finding>)
    ensures
        bucket_sum(findings, Bucket::Safe) + bucket_sum(findings, Bucket::Review) + bucket_sum(
            findings,
            Bucket::Risky,
        ) + bucket_sum(findings, Bucket::ReportOnly) + bucket_sum(findings, Bucket::Recent)
            + bucket_sum(findings, Bucket::Nowhere) == byte_sum(findings),
    decreases findings.len(),
{
    if findings.len() > 0 {
        law_totals_partition(findings.drop_last());
    }
}

// ---- progress ----

/// Running counts of what a scan has seen. They wrap at 64 bits.
#[derive(Debug, Clone, Copy, PartialEq, Eq, Structural)]
pub struct Progress {
    pub files: u64,
    pub dirs: u64,
    pub bytes: u64,
}

impl Progress {
    pub fn new() -> (r: Self)
        ensures
            r == (Progress { files: 0, dirs: 0, bytes: 0 }),
    {
        Progress { files: 0, dirs: 0, bytes: 0 }
    }

    /// Adds to the three counts.
    pub fn add(&mut self, files: u64, dirs: u64, bytes: u64)
        ensures
            final(self).files == old(self).files.wrapping_add(files),
            final(self).dirs == old(self).dirs.wrapping_add(dirs),
            final(self).bytes == old(self).bytes.wrapping_add(bytes),
    {
        self.files = self.files.wrapping_add(files);
        self.dirs = self.dirs.wrapping_add(dirs);
        self.bytes = self.bytes.wrapping_add(bytes);
    }

    /// The three counts.
    pub fn snapshot(&self) -> (r: (u64, u64, u64))
        ensures
            r == (self.files, self.dirs, self.bytes),
    {
        (self.files, self.dirs, self.bytes)
    }
}

// ---- what the terminal shows ----

/// A path with the home directory written as `~`.
pub open spec fn shown_path(path: Seq<char>, home: Option<Seq<char>>) -> Seq<char> {
    match home {
        Some(h) => match paths::relative_to(path, h) {
            Some(rest) => if rest.len() == 0 {
                "~"@
            } else {
                "~/"@ + rest
            },
            None => path,
        },
        None => path,
    }
}

/// A path with the home directory written as `~`.
pub fn display_path(path: &str, home: Option<&str>) -> (r: String)
    ensures
        r@ == shown_path(
            path@,
            match home {
                Some(h) => Some(h@),
                None => None,
            },
        ),
{
    if let Some(h) = home {
        if let Some(rest) = paths::strip_prefix(path, h) {
            if rest.as_str().is_empty() {
                return "~".to_owned();
            }
            return "~/".to_owned().concat(rest.as_str());
        }
    }
    path.to_owned()
}

/// The findings of one category, largest first.
pub struct CategoryGroup {
    pub category: String,
    pub total: u64,
    /// Positions in the list of findings.
    pub members: Vec<usize>,
}

/// The bytes of the findings of category `c`.
pub open spec fn category_sum(findings: Seq<Finding>, c: Seq<char>) -> nat
    decreases findings.len(),
{
    if findings.len() == 0 {
        0
    } else {
        category_sum(findings.drop_last(), c) + if findings.last().category@ == c {
            findings.last().bytes as nat
        } else {
            0
        }
    }
}

/// Whether a group holds every finding of its category, once, the larger ones
/// first and equal ones in their given order.
pub open spec fn is_group(findings: Seq<Finding>, g: CategoryGroup) -> bool {
    &&& g.total == category_sum(findings, g.category@)
    &&& forall|i: int|
        0 <= i < g.members@.len() ==> (#[trigger] g.members@[i]) < findings.len()
            && findings[g.members@[i] as int].category@ == g.category@
    &&& forall|k: usize|
        k < findings.len() && findings[k as int].category@ == g.category@
            ==> #[trigger] g.members@.contains(k)
    &&& forall|i: int, j: int|
        0 <= i < j < g.members@.len() ==> sorting::ranks_before(
            findings.map_values(|f: Finding| f.bytes),
            #[trigger] g.members@[i],
            #[trigger] g.members@[j],
        )
}

/// Whether group `a` is shown before group `b`: the larger total first, equal
/// ones in the order of their names.
pub open spec fn group_before(a: CategoryGroup, b: CategoryGroup) -> bool {
    a.total > b.total || (a.total == b.total && sorting::text_before(a.category@, b.category@))
}

/// Whether there is a group for a category.
pub open spec fn has_category(groups: Seq<CategoryGroup>, c: Seq<char>) -> bool {
    exists|i: int| 0 <= i < groups.len() && (#[trigger] groups[i]).category@ == c
}

/// Whether the groups are those of the findings, in the order they are shown.
pub open spec fn are_groups(findings: Seq<Finding>, groups: Seq<CategoryGroup>) -> bool {
    &&& forall|i: int| 0 <= i < groups.len() ==> is_group(findings, #[trigger] groups[i])
    &&& forall|i: int| 0 <= i < groups.len() ==> (#[trigger] groups[i]).members@.len() > 0
    &&& forall|k: int|
        0 <= k < findings.len() ==> has_category(groups, (#[trigger] findings[k]).category@)
    &&& forall|i: int, j: int|
        0 <= i < j < groups.len() ==> group_before(#[trigger] groups[i], #[trigger] groups[j])
}

// ---- groups ----

/// The categories of the first `n` findings, in alphabetical order.
fn category_names(findings: &[Finding]) -> (r: Vec<String>)
    ensures
        sorting::ascending(views(r@)),
        forall|c: Seq<char>|
        #[trigger] views(r@).contains(c) == (exists|k: int|
            0 <= k < findings@.len() && (#[trigger] findings@[k]).category@ == c),
{
    let n: usize = findings.len();
    let mut r: Vec<String> = Vec::new();
    let mut i: usize = 0;
    assert(views(r@) =~= Seq::<Seq<char>>::empty());
    while i < n
        invariant
            i <= n,
            n == findings@.len(),
            sorting::ascending(views(r@)),
            forall|c: Seq<char>|
            #[trigger] views(r@).contains(c) == (exists|k: int|
                0 <= k < i && (#[trigger] findings@[k]).category@ == c),
        decreases n - i,
    {
        let ghost before = views(r@);
        let ghost own = findings@[i as int].category@;
        sorting::insert_sorted(&mut r, findings[i].category.clone());
        proof {
            assert forall|c: Seq<char>| #[trigger] views(r@).contains(c) == (exists|k: int|
                0 <= k < i + 1 && (#[trigger] findings@[k]).category@ == c) by {
                assert(views(r@).to_set().contains(c) == before.to_set().insert(own).contains(c));
                assert(before.contains(c) == (exists|k: int|
                        0 <= k < i && (#[trigger] findings@[k]).category@ == c));
                if c == own {
                    assert(findings@[i as int].category@ == c);
                }
            }
        }
        i += 1;
    }
    r
}

proof fn lemma_category_sum_grows(findings: Seq<Finding>, c: Seq<char>, i: int)
    requires
        0 <= i <= findings.len(),
    ensures
        category_sum(findings.take(i), c) <= category_sum(findings, c),
    decreases findings.len(),
{
    if i == findings.len() {
        assert(findings.take(i) =~= findings);
    } else {
        lemma_category_sum_grows(findings.drop_last(), c, i);
        assert(findings.drop_last().take(i) =~= findings.take(i));
    }
}

fn category_total(findings: &[Finding], c: &str) -> (r: Option<u64>)
    ensures
        match r {
            Some(n) => n == category_sum(findings@, c@),
            None => category_sum(findings@, c@) > u64::MAX,
        },
{
    let n: usize = findings.len();
    let mut sum: u64 = 0;
    let mut i: usize = 0;
    assert(findings@.take(0) =~= Seq::<Finding>::empty());
    while i < n
        invariant
            i <= n,
            n == findings@.len(),
            sum == category_sum(findings@.take(i as int), c@),
        decreases n - i,
    {
        proof {
            assert(findings@.take(i + 1).drop_last() =~= findings@.take(i as int));
            lemma_category_sum_grows(findings@, c@, i + 1);
        }
        if text::same(findings[i].category.as_str(), c) {
            if sum > u64::MAX - findings[i].bytes {
                return None;
            }
            sum += findings[i].bytes;
        }
        i += 1;
    }
    assert(findings@.take(n as int) =~= findings@);
    Some(sum)
}

/// The bytes of some findings.
pub open spec fn sizes_of(findings: Seq<Finding>) -> Seq<u64> {
    findings.map_values(|f: Finding| f.bytes)
}

fn members_of(findings: &[Finding], order: &Vec<usize>, c: &str) -> (r: Vec<usize>)
    requires
        sorting::is_ranking(sizes_of(findings@), order@),
    ensures
        forall|i: int|
        0 <= i < r@.len() ==> (#[trigger] r@[i]) < findings@.len() && findings@[r@[i] as int].category@
            == c@,
        forall|k: usize|
        k < findings@.len() && findings@[k as int].category@ == c@ ==> #[trigger] r@.contains(k),
        forall|i: int, j: int|
        0 <= i < j < r@.len() ==> sorting::ranks_before(
            sizes_of(findings@),
            #[trigger] r@[i],
            #[trigger] r@[j],
        ),
{
    let ghost keys = sizes_of(findings@);
    let ghost ranked = order@;
    let n: usize = findings.len();
    let m: usize = order.len();
    let mut r: Vec<usize> = Vec::new();
    let mut k: usize = 0;
    while k < m
        invariant
            k <= m,
            m == order@.len(),
            n == findings@.len(),
            ranked == order@,
            keys == sizes_of(findings@),
            sorting::is_ranking(keys, ranked),
            forall|i: int|
            0 <= i < r@.len() ==> (#[trigger] r@[i]) < n && findings@[r@[i] as int].category@ == c@
                && ranked.take(k as int).contains(r@[i]),
            forall|j: int|
            0 <= j < k && findings@[#[trigger] ranked[j] as int].category@ == c@ ==> r@.contains(
                ranked[j],
            ),
            forall|i: int, j: int|
            0 <= i < j < r@.len() ==> sorting::ranks_before(keys, #[trigger] r@[i], #[trigger] r@[j]),
        decreases m - k,
    {
        let at = order[k];
        let ghost before = r@;
        assert(at == ranked[k as int]);
        assert(at < n);
        assert forall|i: int| 0 <= i < before.len() implies sorting::ranks_before(
            keys,
            #[trigger] before[i],
            at,
        ) by {
            let t = ranked.take(k as int);
            let j = choose|j: int| 0 <= j < t.len() && t[j] == before[i];
            assert(ranked[j] == before[i] && j < k);
            assert(sorting::ranks_before(keys, ranked[j], ranked[k as int]));
        }
        if text::same(findings[at].category.as_str(), c) {
            r.push(at);
            assert(r@[before.len() as int] == at);
        }
        proof {
            let t1 = ranked.take(k + 1);
            assert forall|i: int| 0 <= i < r@.len() implies t1.contains(#[trigger] r@[i]) by {
                if i < before.len() {
                    let t = ranked.take(k as int);
                    let j = choose|j: int| 0 <= j < t.len() && t[j] == before[i];
                    assert(t1[j] == before[i]);
                } else {
                    assert(t1[k as int] == at);
                }
            }
            assert forall|j: int| 0 <= j < k + 1 && findings@[#[trigger] ranked[j] as int].category@
                == c@ implies r@.contains(ranked[j]) by {
                if j < k {
                    let i = choose|i: int| 0 <= i < before.len() && before[i] == ranked[j];
                    assert(r@[i] == ranked[j]);
                }
            }
        }
        k += 1;
    }
    proof {
        assert forall|q: usize| q < findings@.len() && findings@[q as int].category@
            == c@ implies #[trigger] r@.contains(q) by {
            assert(ranked.contains(q));
            let j = choose|j: int| 0 <= j < ranked.len() && ranked[j] == q;
            assert(ranked[j] == q);
        }
    }
    r
}

/// The findings by category, in the order they are shown; nothing where the bytes
/// of a category do not fit in 64 bits.
pub fn category_groups(findings: &[Finding]) -> (r: Option<Vec<CategoryGroup>>)
    ensures
        match r {
            Some(g) => are_groups(findings@, g@),
            None => exists|c: Seq<char>| #[trigger] category_sum(findings@, c) > u64::MAX,
        },
{
    let ghost all = findings@;
    let n: usize = findings.len();
    let names = category_names(findings);
    let ghost ns = views(names@);
    let mut sizes: Vec<u64> = Vec::new();
    let mut i: usize = 0;
    while i < n
        invariant
            i <= n,
            n == findings@.len(),
            sizes@ == sizes_of(findings@).take(i as int),
        decreases n - i,
    {
        sizes.push(findings[i].bytes);
        assert(sizes@ =~= sizes_of(findings@).take(i + 1));
        i += 1;
    }
    assert(sizes@ =~= sizes_of(findings@));
    let order = sorting::ranking(&sizes);
    let mut totals: Vec<u64> = Vec::new();
    let mut j: usize = 0;
    while j < names.len()
        invariant
            j <= names@.len(),
            all == findings@,
            ns == views(names@),
            totals@.len() == j,
            forall|k: int| 0 <= k < j ==> (#[trigger] totals@[k]) == category_sum(all, ns[k]),
        decreases names@.len() - j,
    {
        match category_total(findings, names[j].as_str()) {
            Some(t) => {
                totals.push(t);
            },
            None => {
                assert(category_sum(findings@, names@[j as int]@) > u64::MAX);
                return None;
            },
        }
        j += 1;
    }
    let shown = sorting::ranking(&totals);
    let mut groups: Vec<CategoryGroup> = Vec::new();
    let mut g: usize = 0;
    while g < shown.len()
        invariant
            g <= shown@.len(),
            all == findings@,
            ns == views(names@),
            ns.len() == totals@.len(),
            sorting::is_ranking(totals@, shown@),
            sorting::is_ranking(sizes_of(all), order@),
            forall|k: int|
            0 <= k < totals@.len() ==> (#[trigger] totals@[k]) == category_sum(all, ns[k]),
            groups@.len() == g,
            forall|k: int|
            0 <= k < g ==> is_group(all, #[trigger] groups@[k]) && groups@[k].category@
                == ns[shown@[k] as int] && groups@[k].total == totals@[shown@[k] as int],
        decreases shown@.len() - g,
    {
        let at = shown[g];
        assert(at < totals@.len());
        let members = members_of(findings, &order, names[at].as_str());
        let group = CategoryGroup { category: names[at].clone(), total: totals[at], members };
        assert(group.category@ == ns[at as int]);
        assert(sizes_of(all) =~= all.map_values(|f: Finding| f.bytes));
        assert(is_group(all, group));
        groups.push(group);
        g += 1;
    }
    proof {
        lemma_shown_groups(all, ns, totals@, shown@, groups@);
    }
    Some(groups)
}

proof fn lemma_shown_groups(
    all: Seq<Finding>,
    ns: Seq<Seq<char>>,
    totals: Seq<u64>,
    shown: Seq<usize>,
    groups: Seq<CategoryGroup>,
)
    requires
        sorting::ascending(ns),
        forall|c: Seq<char>|
        #[trigger] ns.contains(c) == (exists|k: int|
            0 <= k < all.len() && (#[trigger] all[k]).category@ == c),
        ns.len() == totals.len(),
        all.len() <= usize::MAX,
        totals.len() <= usize::MAX,
        sorting::is_ranking(totals, shown),
        groups.len() == shown.len(),
        forall|k: int|
        0 <= k < shown.len() ==> is_group(all, #[trigger] groups[k]) && groups[k].category@
            == ns[shown[k] as int] && groups[k].total == totals[shown[k] as int],
    ensures
        are_groups(all, groups),
{
    assert forall|i: int| 0 <= i < groups.len() implies is_group(all, #[trigger] groups[i]) by {
        assert(shown[i] < totals.len());
    }
    assert forall|i: int| 0 <= i < groups.len() implies (#[trigger] groups[i]).members@.len() > 0 by {
        let c = ns[shown[i] as int];
        assert(shown[i] < totals.len());
        assert(ns.contains(c));
        let k = choose|k: int| 0 <= k < all.len() && (#[trigger] all[k]).category@ == c;
        assert(is_group(all, groups[i]));
        assert(groups[i].members@.contains(k as usize));
    }
    assert forall|k: int| 0 <= k < all.len() implies has_category(
        groups,
        (#[trigger] all[k]).category@,
    ) by {
        let c = all[k].category@;
        assert(ns.contains(c));
        let p = choose|p: int| 0 <= p < ns.len() && ns[p] == c;
        assert(shown.contains(p as usize));
        let i = choose|i: int| 0 <= i < shown.len() && shown[i] == p as usize;
        assert(groups[i].category@ == c);
    }
    assert forall|i: int, j: int| 0 <= i < j < groups.len() implies group_before(
        #[trigger] groups[i],
        #[trigger] groups[j],
    ) by {
        assert(sorting::ranks_before(totals, shown[i], shown[j]));
        assert(shown[i] < totals.len() && shown[j] < totals.len());
        if totals[shown[i] as int] == totals[shown[j] as int] {
            assert(sorting::text_before(ns[shown[i] as int], ns[shown[j] as int]));
        }
    }
}

// ---- lines ----

/// How many files there are, where there is more than one.
pub open spec fn count_note(files: u64) -> Seq<char> {
    if files > 1 {
        " ("@ + text::digits(files as nat) + " files)"@
    } else {
        Seq::empty()
    }
}

pub(crate) fn files_note(files: u64) -> (r: String)
    ensures
        r@ == count_note(files),
{
    if files > 1 {
        " (".to_owned().concat(text::decimal(files).as_str()).concat(" files)")
    } else {
        let r = String::new();
        assert(r@ =~= count_note(files));
        r
    }
}

/// What keeps a finding out of plans.
pub open spec fn skip_notes(f: FindingModel) -> Seq<char> {
    (if f.recent {
            " (recent — skipped)"@
        } else {
            ""@
    }) + (if f.report_only {
            " (report only)"@
        } else {
            ""@
    })
}

/// The age of a finding, in days.
pub open spec fn age_note(age: Option<u64>) -> Seq<char> {
    match age {
        Some(d) => text::digits(d as nat) + "d"@,
        None => "-"@,
    }
}

fn age_text(age: Option<u64>) -> (r: String)
    ensures
        r@ == age_note(age),
{
    match age {
        Some(d) => text::decimal(d).concat("d"),
        None => "-".to_owned(),
    }
}

/// The line for one finding of a report.
pub open spec fn finding_line(f: FindingModel, home: Option<Seq<char>>) -> Seq<char> {
    "  "@ + text::pad_left(sizes::human(f.bytes as nat), 9) + "  "@ + text::pad_right(
        safety_label(f.safety),
        7,
    ) + " "@ + text::pad_left(age_note(f.age_days), 5) + "  "@ + shown_path(f.path, home) + count_note(
        f.files,
    ) + skip_notes(f)
}

/// The line for one finding of a report.
pub fn finding_text(f: &Finding, home: Option<&str>) -> (r: String)
    ensures
        r@ == finding_line(f@, text::shown(home)),
{
    let recent: &str = if f.recent {
        " (recent — skipped)"
    } else {
        ""
    };
    let report_only: &str = if f.report_only {
        " (report only)"
    } else {
        ""
    };
    let notes = recent.to_owned().concat(report_only);
    "  ".to_owned().concat(
        text::right_aligned(human_bytes(f.bytes).as_str(), 9).as_str(),
    ).concat("  ").concat(text::left_aligned(f.safety.label(), 7).as_str()).concat(" ").concat(
        text::right_aligned(age_text(f.age_days).as_str(), 5).as_str(),
    ).concat("  ").concat(display_path(f.path.as_str(), home).as_str()).concat(
        files_note(f.files).as_str(),
    ).concat(notes.as_str())
}

/// How many findings of a category are shown unless all are asked for.
pub const SHOWN_PER_CATEGORY: usize = 12;

/// How many of some findings are shown.
pub open spec fn shown_count(members: nat, verbose: bool) -> nat {
    if verbose || members <= SHOWN_PER_CATEGORY {
        members
    } else {
        SHOWN_PER_CATEGORY as nat
    }
}

/// The bytes of the findings of a category from a place on, as far as they fit in
/// 64 bits.
pub open spec fn rest_sum(findings: Seq<Finding>, members: Seq<usize>, from: int) -> u64
    decreases members.len() - from,
{
    if from >= members.len() {
        0
    } else {
        let rest = rest_sum(findings, members, from + 1);
        let own = findings[members[from] as int].bytes;
        sizes::capped_sum(rest, own)
    }
}

/// The lines for the first `n` findings of a category.
pub open spec fn member_lines(
    findings: Seq<Finding>,
    members: Seq<usize>,
    n: int,
    home: Option<Seq<char>>,
) -> Seq<Seq<char>> {
    Seq::new(n as nat, |i: int| finding_line(findings[members[i] as int]@, home))
}

/// The lines for a category.
pub open spec fn group_lines(
    findings: Seq<Finding>,
    g: CategoryGroup,
    home: Option<Seq<char>>,
    verbose: bool,
) -> Seq<Seq<char>> {
    let shown = shown_count(g.members@.len(), verbose) as int;
    let head = seq![Seq::<char>::empty(), g.category@ + "  —  "@ + sizes::human(g.total as nat)];
    let more = if shown < g.members@.len() {
        seq![
            "  "@ + text::pad_left(
                sizes::human(rest_sum(findings, g.members@, shown) as nat),
                9,
            ) + "  … "@ + text::digits((g.members@.len() - shown) as nat)
                + " more (use --verbose)"@,
        ]
    } else {
        Seq::empty()
    };
    head + member_lines(findings, g.members@, shown, home) + more
}

/// The lines for a category.
pub fn category_lines(findings: &[Finding], g: &CategoryGroup, home: Option<&str>, verbose: bool) -> (r:
    Vec<String>)
    requires
        forall|i: int| 0 <= i < g.members@.len() ==> (#[trigger] g.members@[i]) < findings@.len(),
    ensures
        views(r@) == group_lines(findings@, *g, text::shown(home), verbose),
{
    let ghost h = text::shown(home);
    let n: usize = g.members.len();
    let shown: usize = if verbose || n <= SHOWN_PER_CATEGORY {
        n
    } else {
        SHOWN_PER_CATEGORY
    };
    let mut r: Vec<String> = Vec::new();
    r.push(String::new());
    r.push(
        g.category.clone().concat("  —  ").concat(human_bytes(g.total).as_str()),
    );
    let ghost head = seq![Seq::<char>::empty(), g.category@ + "  —  "@ + sizes::human(g.total as nat)];
    let mut i: usize = 0;
    assert(views(r@) =~= head + member_lines(findings@, g.members@, 0, h));
    while i < shown
        invariant
            i <= shown <= n,
            n == g.members@.len(),
            h == text::shown(home),
            forall|k: int| 0 <= k < g.members@.len() ==> (#[trigger] g.members@[k]) < findings@.len(),
            views(r@) == head + member_lines(findings@, g.members@, i as int, h),
        decreases shown - i,
    {
        let at = g.members[i];
        let line = finding_text(&findings[at], home);
        r.push(line);
        assert(member_lines(findings@, g.members@, i + 1, h) =~= member_lines(
                findings@,
                g.members@,
                i as int,
                h,
            ).push(line@));
        assert(views(r@) =~= head + member_lines(findings@, g.members@, i + 1, h));
        i += 1;
    }
    if shown < n {
        let mut rest: u64 = 0;
        let mut k: usize = n;
        while k > shown
            invariant
                shown <= k <= n,
                n == g.members@.len(),
                forall|q: int| 0 <= q < g.members@.len() ==> (#[trigger] g.members@[q]) < findings@.len(),
                rest == rest_sum(findings@, g.members@, k as int),
            decreases k,
        {
            let own: u64 = findings[g.members[k - 1]].bytes;
            rest = sizes::plus(rest, own);
            k -= 1;
        }
        r.push(
            "  ".to_owned().concat(text::right_aligned(human_bytes(rest).as_str(), 9).as_str()).concat(
                "  … ",
            ).concat(text::decimal((n - shown) as u64).as_str()).concat(" more (use --verbose)"),
        );
    }
    assert(views(r@) =~= group_lines(findings@, *g, h, verbose));
    r
}

/// The line with the totals of a report.
pub fn totals_line(t: &Totals) -> (r: String)
    ensures
        r@ == "Totals: safe="@ + sizes::human(t.safe_bytes as nat) + "  review="@ + sizes::human(
            t.review_bytes as nat,
        ) + "  risky="@ + sizes::human(t.risky_bytes as nat) + "  report-only="@ + sizes::human(
            t.report_only_bytes as nat,
        ) + "  skipped-recent="@ + sizes::human(t.recent_bytes as nat),
{
    "Totals: safe=".to_owned().concat(human_bytes(t.safe_bytes).as_str()).concat("  review=").concat(
        human_bytes(t.review_bytes).as_str(),
    ).concat("  risky=").concat(human_bytes(t.risky_bytes).as_str()).concat("  report-only=").concat(
        human_bytes(t.report_only_bytes).as_str(),
    ).concat("  skipped-recent=").concat(human_bytes(t.recent_bytes).as_str())
}

/// A finding counts once: among the recent ones where it is recent, else among those
/// that are only reported where it is one of them, and else by its tier; what is
/// protected counts nowhere.
pub proof fn law_findings_count_by_kind(f: Finding)
    ensures
        bucket_of(f) == Bucket::Recent <==> f.recent,
        bucket_of(f) == Bucket::ReportOnly <==> !f.recent && f.report_only,
        bucket_of(f) == Bucket::Safe <==> !f.recent && !f.report_only && f.safety == Safety::Safe,
        bucket_of(f) == Bucket::Review <==> !f.recent && !f.report_only && f.safety == Safety::Review,
        bucket_of(f) == Bucket::Risky <==> !f.recent && !f.report_only && f.safety == Safety::Risky,
        bucket_of(f) == Bucket::Nowhere <==> !f.recent && !f.report_only && f.safety == Safety::Protected,
{
}

/// Sums add: one more finding adds its bytes where it belongs, and nowhere else.
pub proof fn law_report_sums_add(findings: Seq<Finding>, f: Finding, b: Bucket, c: Seq<char>)
    ensures
        bucket_sum(findings.push(f), b) == bucket_sum(findings, b) + if bucket_of(f) == b {
            f.bytes
        } else {
            0
        },
        byte_sum(findings.push(f)) == byte_sum(findings) + f.bytes,
        category_sum(findings.push(f), c) == category_sum(findings, c) + if f.category@ == c {
            f.bytes
        } else {
            0
        },
        bucket_sum(Seq::empty(), b) == 0,
        category_sum(Seq::empty(), c) == 0,
{
    assert(findings.push(f).drop_last() =~= findings);
}

/// Of a category the largest findings are shown, twelve at most unless all are asked
/// for.
pub proof fn law_twelve_are_shown(members: nat, verbose: bool)
    ensures
        verbose ==> shown_count(members, verbose) == members,
        members <= 12 ==> shown_count(members, verbose) == members,
        !verbose && members > 12 ==> shown_count(members, verbose) == 12,
{
}

/// A path is shown as it is, unless it lies below the home directory.
pub proof fn law_paths_are_shown(path: Seq<char>, home: Seq<char>)
    ensures
        shown_path(path, None) == path,
        !paths::under(path, home) ==> shown_path(path, Some(home)) == path,
        paths::under(path, home) ==> text::begins(shown_path(path, Some(home)), "~"@),
{
    reveal_strlit("~");
    reveal_strlit("~/");
    if paths::under(path, home) {
        let rest = paths::relative_to(path, home)->0;
        let long = "~/"@ + rest;
        assert(long.subrange(0, 1) =~= "~"@);
        assert("~"@.subrange(0, 1) =~= "~"@);
    }
}

/// The groups of a report hold each finding once, the larger groups first and the
/// larger findings of a group first, and each group counts the bytes of its findings.
pub proof fn law_groups_hold_each_finding(findings: Seq<Finding>, groups: Seq<CategoryGroup>, k: usize, i: int, j: int)
    requires
        are_groups(findings, groups),
        k < findings.len(),
        0 <= i < j < groups.len(),
    ensures
        exists|g: int|
        0 <= g < groups.len() && (#[trigger] groups[g]).category@ == findings[k as int].category@
            && groups[g].members@.contains(k),
        groups[i].members@.contains(k) ==> groups[i].category@ == findings[k as int].category@
            && !groups[j].members@.contains(k),
        groups[i].total >= groups[j].total,
        groups[i].total == groups[j].total ==> sorting::text_before(groups[i].category@, groups[j].category@),
        forall|a: int, b: int|
        0 <= a < b < groups[i].members@.len() ==> findings[#[trigger] groups[i].members@[a] as int].bytes
            >= findings[#[trigger] groups[i].members@[b] as int].bytes,
        groups[i].total == category_sum(findings, groups[i].category@),
{
    assert(has_category(groups, findings[k as int].category@));
    let g = choose|g: int| 0 <= g < groups.len() && (#[trigger] groups[g]).category@ == findings[k as int].category@;
    assert(is_group(findings, groups[g]));
    assert(is_group(findings, groups[i]));
    assert(is_group(findings, groups[j]));
    assert(group_before(groups[i], groups[j]));
    assert(groups[g].members@.contains(k));
    if groups[i].members@.contains(k) && groups[j].members@.contains(k) {
        sorting::lemma_text_before_irreflexive(groups[i].category@);
    }
    let s = findings.map_values(|f: Finding| f.bytes);
    assert forall|a: int, b: int| 0 <= a < b < groups[i].members@.len() implies findings[
    #[trigger] groups[i].members@[a] as int].bytes >= findings[#[trigger] groups[i].members@[b] as int].bytes by {
        assert(sorting::ranks_before(s, groups[i].members@[a], groups[i].members@[b]));
    }
}

/// The totals of a report tell, of each kind, the bytes of the findings of that kind.
pub proof fn law_totals_tell_each_kind(t: Totals, u: Totals, findings: Seq<Finding>, f: Finding)
    requires
        totals_are(t, findings),
        totals_are(u, findings.push(f)),
    ensures
        u.recent_bytes == t.recent_bytes + if f.recent {
            f.bytes as int
        } else {
            0
        },
        u.report_only_bytes == t.report_only_bytes + if !f.recent && f.report_only {
            f.bytes as int
        } else {
            0
        },
        u.safe_bytes == t.safe_bytes + if !f.recent && !f.report_only && f.safety == Safety::Safe {
            f.bytes as int
        } else {
            0
        },
        u.review_bytes == t.review_bytes + if !f.recent && !f.report_only && f.safety == Safety::Review {
            f.bytes as int
        } else {
            0
        },
        u.risky_bytes == t.risky_bytes + if !f.recent && !f.report_only && f.safety == Safety::Risky {
            f.bytes as int
        } else {
            0
        },
        findings.len() == 0 ==> t.recent_bytes == 0 && t.report_only_bytes == 0 && t.safe_bytes == 0
            && t.review_bytes == 0 && t.risky_bytes == 0,
{
    assert(findings.push(f).drop_last() =~= findings);
}

/// What is not shown of a group is summed: nothing behind the last, and no less with
/// one more.
pub proof fn law_the_rest_is_summed(findings: Seq<Finding>, members: Seq<usize>, from: int)
    requires
        0 <= from < members.len(),
    ensures
        rest_sum(findings, members, members.len() as int) == 0,
        rest_sum(findings, members, from) >= rest_sum(findings, members, from + 1),
        rest_sum(findings, members, from + 1) + findings[members[from] as int].bytes <= u64::MAX ==> rest_sum(
            findings,
            members,
            from,
        ) == rest_sum(findings, members, from + 1) + findings[members[from] as int].bytes,
{
}

} // verus!
