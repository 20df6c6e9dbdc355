//! The providers that take part in a scan, and which of them a finding goes back
//! to.

use crate::report::Finding;
use crate::seqs::{collect_some, group_views, lemma_collect_step, views};
use crate::text::same;
use vstd::prelude::*;

use super::ai_assets::AiAssetsProvider;
use super::android::AndroidProvider;
use super::app_leftovers::AppLeftoversProvider;
use super::docker::DockerProvider;
use super::duplicates::DuplicateProvider;
use super::git::GitProvider;
use super::homebrew::HomebrewProvider;
use super::native_gc::NativeGcProvider;
use super::stale_files::StaleFilesProvider;
use super::tool_cache_gc::ToolCacheGcProvider;
use super::toolchains::ToolchainProvider;
use super::vms::VmProvider;
use super::xcode::XcodeProvider;
use super::session::{provider_enabled, takes_part, waiting_status};
use super::{
    MetadataModel, ProviderMetadata, ProviderSettings, ProviderStatus, Revalidation,
    RevalidationModel, session,
};

verus! {

broadcast use group_views;

/// Seconds that a quick scan may take.
pub const QUICK_SCAN_BUDGET: u64 = 20;

/// Seconds that a deep scan may take.
pub const DEEP_SCAN_BUDGET: u64 = 90;

/// Seconds that an action may take.
pub const ACTION_BUDGET: u64 = 180;

/// The number of providers that scan at the same time.
pub const WORKERS: usize = 3;

/// Whether a scan has to stop: it was cancelled, or its time is over.
pub fn is_cancelled(cancelled: bool, now_ms: u64, deadline_ms: u64) -> (r: bool)
    ensures
        r == (cancelled || now_ms >= deadline_ms),
{
    cancelled || now_ms >= deadline_ms
}

/// What is left of the time, up to a maximum.
pub fn remaining(now_ms: u64, deadline_ms: u64, maximum_ms: u64) -> (r: u64)
    ensures
        r == if now_ms >= deadline_ms {
            0
        } else if deadline_ms - now_ms < maximum_ms {
            (deadline_ms - now_ms) as u64
        } else {
            maximum_ms
        },
{
    if now_ms >= deadline_ms {
        0
    } else if deadline_ms - now_ms < maximum_ms {
        deadline_ms - now_ms
    } else {
        maximum_ms
    }
}

/// Providers in the order in which they are asked.
pub struct ProviderRegistry {
    pub providers: Vec<ProviderMetadata>,
}

/// The providers that come with the program.
pub open spec fn standard_providers() -> Seq<MetadataModel> {
    seq![
        super::ai_assets::ai_assets(),
        super::app_leftovers::app_leftovers(),
        super::android::android(),
        super::duplicates::duplicates(),
        super::homebrew::homebrew(),
        super::docker::docker(),
        super::xcode::xcode(),
        super::git::git(),
        super::toolchains::toolchains(),
        super::tool_cache_gc::tool_cache_gc(),
        super::vms::virtual_machines(),
        super::native_gc::native_gc(),
        super::stale_files::stale_files(),
    ]
}

/// The last place that holds an id.
pub open spec fn last_place(providers: Seq<MetadataModel>, id: Seq<char>) -> Option<int>
    decreases providers.len(),
{
    if providers.len() == 0 {
        None
    } else if providers.last().id == id {
        Some(providers.len() - 1)
    } else {
        last_place(providers.drop_last(), id)
    }
}

/// A provider that takes part.
pub open spec fn if_eligible(settings: ProviderSettings) -> spec_fn(ProviderMetadata) -> Option<
MetadataModel,
> {
    |m: ProviderMetadata|
    if takes_part(m@, settings) {
        Some(m@)
    } else {
        None
    }
}

/// Where a finding's check or action goes.
pub enum Route {
    /// No provider owns the finding.
    Unowned,
    /// The provider at this place.
    Provider(usize),
    /// The owner is not among the providers.
    Unknown(String),
}

/// The id of the provider that owns a finding.
pub open spec fn owner_of(finding: Finding) -> Option<Seq<char>> {
    match finding.provider {
        Some(s) => Some(s.id@),
        None => None,
    }
}

/// What is said of a provider that is not there.
pub open spec fn not_registered(id: Seq<char>) -> Seq<char> {
    "provider "@ + id + " is not registered"@
}

/// Whether a finding is sent where it belongs.
pub open spec fn routed(providers: Seq<MetadataModel>, owner: Option<Seq<char>>, r: Route) -> bool {
    match owner {
        None => r is Unowned,
        Some(id) => match last_place(providers, id) {
            Some(i) => r matches Route::Provider(k) && k == i && k < providers.len(),
            None => r matches Route::Unknown(m) && m@ == not_registered(id),
        },
    }
}

impl ProviderRegistry {
    pub fn empty() -> (r: Self)
        ensures
            r.providers@.len() == 0,
    {
        ProviderRegistry { providers: Vec::new() }
    }

    /// The providers that come with the program.
    pub fn standard() -> (r: Self)
        ensures
            views(r.providers@) == standard_providers(),
    {
        let mut providers: Vec<ProviderMetadata> = Vec::new();
        providers.push(AiAssetsProvider.metadata());
        providers.push(AppLeftoversProvider.metadata());
        providers.push(AndroidProvider.metadata());
        providers.push(DuplicateProvider.metadata());
        providers.push(HomebrewProvider.metadata());
        providers.push(DockerProvider.metadata());
        providers.push(XcodeProvider.metadata());
        providers.push(GitProvider.metadata());
        providers.push(ToolchainProvider.metadata());
        providers.push(ToolCacheGcProvider.metadata());
        providers.push(VmProvider.metadata());
        providers.push(NativeGcProvider.metadata());
        providers.push(StaleFilesProvider.metadata());
        assert(views(providers@) =~= standard_providers());
        ProviderRegistry { providers }
    }

    pub fn new(providers: Vec<ProviderMetadata>) -> (r: Self)
        ensures
            r.providers == providers,
    {
        ProviderRegistry { providers }
    }

    /// The waiting statuses of the providers that take part, in order.
    pub fn statuses_for(&self, settings: &ProviderSettings) -> (r: Vec<ProviderStatus>)
        ensures
            views(r@) == collect_some(self.providers@, waiting_status(*settings)),
    {
        session::statuses_for(&self.providers, settings)
    }

    /// The place of the provider of an id; the last one, should several have it.
    pub fn provider(&self, id: &str) -> (r: Option<usize>)
        ensures
            match (r, last_place(views(self.providers@), id@)) {
                (Some(a), Some(b)) => a == b && a < self.providers@.len(),
                (None, None) => true,
                _ => false,
            },
    {
        let ghost all = views(self.providers@);
        let mut i: usize = self.providers.len();
        assert(all.take(i as int) =~= all);
        while i > 0
            invariant
                i <= self.providers@.len(),
                all == views(self.providers@),
                last_place(all, id@) == last_place(all.take(i as int), id@),
            decreases i,
        {
            assert(all[i - 1] == self.providers@[i - 1]@);
            assert(all.take(i as int).last() == all[i - 1]);
            assert(all.take(i as int).drop_last() =~= all.take(i - 1));
            if same(self.providers[i - 1].id, id) {
                return Some(i - 1);
            }
            i -= 1;
        }
        None
    }

    /// The providers that take part in a scan, in order.
    pub fn eligible(&self, settings: &ProviderSettings) -> (r: Vec<ProviderMetadata>)
        ensures
            views(r@) == collect_some(self.providers@, if_eligible(*settings)),
    {
        let ghost f = if_eligible(*settings);
        let mut r: Vec<ProviderMetadata> = Vec::new();
        let mut i: usize = 0;
        assert(self.providers@.take(0) =~= Seq::<ProviderMetadata>::empty());
        assert(views(r@) =~= Seq::<MetadataModel>::empty());
        while i < self.providers.len()
            invariant
                i <= self.providers@.len(),
                f == if_eligible(*settings),
                views(r@) == collect_some(self.providers@.take(i as int), f),
            decreases self.providers@.len() - i,
        {
            proof {
                lemma_collect_step(self.providers@, i as int, f);
            }
            let m = self.providers[i];
            if provider_enabled(m, settings) {
                r.push(m);
            }
            i += 1;
        }
        assert(self.providers@.take(i as int) =~= self.providers@);
        r
    }

    /// Which provider checks or carries out a finding.
    pub fn route(&self, finding: &Finding) -> (r: Route)
        ensures
            routed(views(self.providers@), owner_of(*finding), r),
    {
        match &finding.provider {
            None => Route::Unowned,
            Some(s) => match self.provider(s.id.as_str()) {
                Some(i) => Route::Provider(i),
                None => Route::Unknown(
                    "provider ".to_owned().concat(s.id.as_str()).concat(" is not registered"),
                ),
            },
        }
    }

    /// The check of a finding, as far as it is decided without a provider: findings
    /// that none owns are valid. `Ok(None)` leaves it to the provider.
    pub fn revalidate(&self, finding: &Finding) -> (r: Result<Option<Revalidation>, String>)
        ensures
            match owner_of(*finding) {
                None => r matches Ok(Some(v)) && v@ == RevalidationModel::Valid,
                Some(id) => match last_place(views(self.providers@), id) {
                    Some(_) => r matches Ok(None),
                    None => r matches Err(m) && m@ == not_registered(id),
                },
            },
    {
        match self.route(finding) {
            Route::Unowned => Ok(Some(Revalidation::Valid)),
            Route::Provider(_) => Ok(None),
            Route::Unknown(m) => Err(m),
        }
    }

    /// The provider that carries out a finding, or why there is none.
    pub fn execute(&self, finding: &Finding) -> (r: Result<usize, String>)
        ensures
            match owner_of(*finding) {
                None => r matches Err(m) && m@ == "finding is not provider-owned"@,
                Some(id) => match last_place(views(self.providers@), id) {
                    Some(i) => r matches Ok(k) && k == i,
                    None => r matches Err(m) && m@ == not_registered(id),
                },
            },
    {
        match self.route(finding) {
            Route::Unowned => Err("finding is not provider-owned".to_owned()),
            Route::Provider(i) => Ok(i),
            Route::Unknown(m) => Err(m),
        }
    }
}

/// The number of workers for so many providers.
pub fn worker_count(eligible: usize) -> (r: usize)
    ensures
        r == if eligible < WORKERS {
            eligible
        } else {
            WORKERS
        },
{
    if eligible < WORKERS {
        eligible
    } else {
        WORKERS
    }
}

/// A provider that is found by its id has that id.
pub proof fn law_found_by_id(providers: Seq<MetadataModel>, id: Seq<char>)
    ensures
        match last_place(providers, id) {
            Some(i) => 0 <= i < providers.len() && providers[i].id == id,
            None => forall|i: int| 0 <= i < providers.len() ==> (#[trigger] providers[i]).id != id,
        },
    decreases providers.len(),
{
    if providers.len() > 0 && providers.last().id != id {
        law_found_by_id(providers.drop_last(), id);
        assert forall|i: int|
        0 <= i < providers.len() && last_place(providers, id) is None implies (
            #[trigger] providers[i]).id != id by {
            if i < providers.len() - 1 {
                assert(providers.drop_last()[i] == providers[i]);
            }
        }
    }
}

/// A finding goes to the last provider of its owner's id, and to none where it has no
/// owner or its owner is not there.
pub proof fn law_findings_go_to_their_owner(providers: Seq<MetadataModel>, owner: Option<Seq<char>>, r: Route)
    requires
        routed(providers, owner, r),
    ensures
        match r {
            Route::Unowned => owner is None,
            Route::Provider(k) => owner is Some && k < providers.len() && providers[k as int].id == owner->0
                && forall|j: int| k < j < providers.len() ==> (#[trigger] providers[j]).id != owner->0,
            Route::Unknown(m) => owner is Some && forall|j: int|
            0 <= j < providers.len() ==> (#[trigger] providers[j]).id != owner->0,
        },
{
    if let Some(id) = owner {
        lemma_last_place_is_last(providers, id);
    }
}

proof fn lemma_last_place_is_last(providers: Seq<MetadataModel>, id: Seq<char>)
    ensures
        match last_place(providers, id) {
            Some(i) => 0 <= i < providers.len() && providers[i].id == id && forall|j: int|
            i < j < providers.len() ==> (#[trigger] providers[j]).id != id,
            None => forall|j: int| 0 <= j < providers.len() ==> (#[trigger] providers[j]).id != id,
        },
    decreases providers.len(),
{
    if providers.len() > 0 && providers.last().id != id {
        let less = providers.drop_last();
        lemma_last_place_is_last(less, id);
        assert forall|j: int| 0 <= j < less.len() implies #[trigger] providers[j] == less[j] by {}
    }
}

/// The providers that take part are those of the profile that are enabled, in the order
/// in which they are registered.
pub proof fn law_eligible_providers_take_part(m: ProviderMetadata, settings: ProviderSettings)
    ensures
        if_eligible(settings)(m) is Some <==> takes_part(m@, settings),
        if_eligible(settings)(m) matches Some(x) ==> x == m@,
{
}

/// A finding belongs to the provider that it names, and to none where it names none.
pub proof fn law_findings_name_their_owner(f: Finding)
    ensures
        owner_of(f) is Some <==> f.provider is Some,
        f.provider matches Some(s) ==> owner_of(f) == Some(s.id@),
{
}

} // verus!
