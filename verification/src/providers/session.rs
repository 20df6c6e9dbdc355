//! One provider's part of a scan, step by step: what is shown when it starts,
//! whether it goes on after the probe, and how its result is reported.

use crate::report::Finding;
use crate::rules::Safety;
use crate::seqs::{collect_some, group_views, lemma_collect_step, view_of, views};
use crate::text;
use vstd::prelude::*;

use super::{
    Capability, MetadataModel, ProviderMetadata, ProviderSettings, ProviderState, ProviderStatus,
    ScanProfile, StatusModel, final_status, profile_label, status_of,
};

verus! {

broadcast use group_views;

/// Whether a provider takes part under these settings.
pub open spec fn takes_part(m: MetadataModel, settings: ProviderSettings) -> bool {
    &&& match settings.profile {
        ScanProfile::Quick => m.quick,
        ScanProfile::Deep => m.deep,
    }
    &&& match settings.enabled {
        Some(ids) => views(ids@).contains(m.id),
        None => true,
    }
}

/// Whether a provider takes part: by its profile and, where ids are listed, by
/// its id.
pub fn provider_enabled(metadata: ProviderMetadata, settings: &ProviderSettings) -> (r: bool)
    ensures
        r == takes_part(metadata@, *settings),
{
    let profile_enabled = match settings.profile {
        ScanProfile::Quick => metadata.quick,
        ScanProfile::Deep => metadata.deep,
    };
    let explicitly_enabled = match &settings.enabled {
        Some(ids) => text::among(metadata.id, ids),
        None => true,
    };
    profile_enabled && explicitly_enabled
}

pub open spec fn waiting_status(settings: ProviderSettings) -> spec_fn(ProviderMetadata) -> Option<
    StatusModel,
> {
    |m: ProviderMetadata|
        if takes_part(m@, settings) {
            Some(status_of(m@, ProviderState::Waiting, Seq::empty(), 0, 0))
        } else {
            None
        }
}

/// The waiting statuses of the providers that take part, in order.
pub fn statuses_for(providers: &Vec<ProviderMetadata>, settings: &ProviderSettings) -> (r: Vec<
    ProviderStatus,
>)
    ensures
        views(r@) == collect_some(providers@, waiting_status(*settings)),
{
    let ghost f = waiting_status(*settings);
    let mut r: Vec<ProviderStatus> = Vec::new();
    let mut i: usize = 0;
    while i < providers.len()
        invariant
            i <= providers@.len(),
            f == waiting_status(*settings),
            views(r@) == collect_some(providers@.take(i as int), f),
        decreases providers@.len() - i,
    {
        proof {
            lemma_collect_step(providers@, i as int, f);
        }
        if provider_enabled(providers[i], settings) {
            r.push(ProviderStatus::waiting(providers[i]));
        }
        i += 1;
    }
    assert(providers@.take(providers@.len() as int) =~= providers@);
    r
}

pub open spec fn unstarted_status(processed: Seq<Seq<char>>) -> spec_fn(
    ProviderMetadata,
) -> Option<StatusModel> {
    |m: ProviderMetadata|
        if processed.contains(m@.id) {
            None
        } else {
            Some(
                status_of(
                    m@,
                    ProviderState::Cancelled,
                    "Not started before the shared scan budget expired."@,
                    0,
                    0,
                ),
            )
        }
}

/// The statuses of the eligible providers that a cancelled scan never reached.
pub fn unstarted_statuses(eligible: &Vec<ProviderMetadata>, processed: &Vec<String>) -> (r: Vec<
    ProviderStatus,
>)
    ensures
        views(r@) == collect_some(eligible@, unstarted_status(views(processed@))),
{
    let ghost f = unstarted_status(views(processed@));
    let mut r: Vec<ProviderStatus> = Vec::new();
    let mut i: usize = 0;
    while i < eligible.len()
        invariant
            i <= eligible@.len(),
            f == unstarted_status(views(processed@)),
            views(r@) == collect_some(eligible@.take(i as int), f),
        decreases eligible@.len() - i,
    {
        proof {
            lemma_collect_step(eligible@, i as int, f);
        }
        if !text::among(eligible[i].id, processed) {
            r.push(
                final_status(
                    eligible[i],
                    ProviderState::Cancelled,
                    "Not started before the shared scan budget expired.".to_owned(),
                    0,
                    0,
                ),
            );
        }
        i += 1;
    }
    assert(eligible@.take(eligible@.len() as int) =~= eligible@);
    r
}

/// What is shown when a provider starts.
pub fn scan_started(metadata: ProviderMetadata, settings: &ProviderSettings) -> (r: ProviderStatus)
    ensures
        r@ == status_of(
            metadata@,
            ProviderState::Scanning,
            "Running "@ + profile_label(settings.profile) + " analysis."@,
            0,
            0,
        ),
{
    let message = "Running ".to_owned().concat(settings.profile.label()).concat(" analysis.");
    final_status(metadata, ProviderState::Scanning, message, 0, 0)
}

/// The status with which a provider ends after the probe; nothing where it
/// goes on to scan.
pub open spec fn probe_ends(
    m: MetadataModel,
    capability: Capability,
    cancelled: bool,
    elapsed_ms: u128,
) -> Option<StatusModel> {
    match capability {
        Capability::Unavailable(message) => Some(
            status_of(m, ProviderState::Unavailable, message@, elapsed_ms, 0),
        ),
        Capability::PermissionDenied(message) => Some(
            status_of(m, ProviderState::PermissionDenied, message@, elapsed_ms, 0),
        ),
        Capability::Available => if cancelled {
            Some(status_of(m, ProviderState::Cancelled, "Scan cancelled."@, elapsed_ms, 0))
        } else {
            None
        },
    }
}

/// Decides after the probe: end with a status, or go on to scan.
pub fn scan_probed(
    metadata: ProviderMetadata,
    capability: Capability,
    cancelled: bool,
    elapsed_ms: u128,
) -> (r: Option<ProviderStatus>)
    ensures
        view_of(r) == probe_ends(metadata@, capability, cancelled, elapsed_ms),
{
    match capability {
        Capability::Unavailable(message) => Some(
            final_status(metadata, ProviderState::Unavailable, message, elapsed_ms, 0),
        ),
        Capability::PermissionDenied(message) => Some(
            final_status(metadata, ProviderState::PermissionDenied, message, elapsed_ms, 0),
        ),
        Capability::Available => if cancelled {
            Some(
                final_status(
                    metadata,
                    ProviderState::Cancelled,
                    "Scan cancelled.".to_owned(),
                    elapsed_ms,
                    0,
                ),
            )
        } else {
            None
        },
    }
}

/// Whether a finding can be cleaned by its provider.
pub open spec fn cleanable(f: Finding) -> bool {
    !f.report_only && f.safety != Safety::Protected && f.native_action is Some
}

/// How many of the findings can be cleaned by their provider.
pub open spec fn cleanable_count(findings: Seq<Finding>) -> nat
    decreases findings.len(),
{
    if findings.len() == 0 {
        0
    } else {
        cleanable_count(findings.drop_last()) + if cleanable(findings.last()) {
            1nat
        } else {
            0
        }
    }
}

/// What the user is told of a finished scan.
pub open spec fn ready_message(findings: Seq<Finding>) -> Seq<char> {
    if findings.len() == 0 {
        "No reclaimable objects found."@
    } else {
        "Found "@ + text::digits(cleanable_count(findings)) + " cleanup candidates; "@
            + text::digits(findings.len()) + " "@ + (if findings.len() == 1 {
            "finding"@
        } else {
            "findings"@
        }) + " total."@
    }
}

/// The state in which a failed scan ends.
pub open spec fn failure_state(message: Seq<char>, cancelled: bool) -> ProviderState {
    if cancelled {
        ProviderState::Cancelled
    } else if text::occurs(message, "timed out"@) {
        ProviderState::TimedOut
    } else if text::occurs(message, "permission"@) || text::occurs(message, "not permitted"@) {
        ProviderState::PermissionDenied
    } else {
        ProviderState::Failed
    }
}

/// The status with which a scan ends.
pub open spec fn scan_ends(
    m: MetadataModel,
    outcome: Result<Vec<Finding>, String>,
    cancelled: bool,
    elapsed_ms: u128,
) -> StatusModel {
    match outcome {
        Ok(findings) => if cancelled {
            status_of(
                m,
                ProviderState::Cancelled,
                "Provider exceeded the scan budget or the scan was cancelled."@,
                elapsed_ms,
                0,
            )
        } else {
            status_of(
                m,
                ProviderState::Ready,
                ready_message(findings@),
                elapsed_ms,
                findings@.len() as usize,
            )
        },
        Err(message) => status_of(
            m,
            failure_state(message@, cancelled),
            message@,
            elapsed_ms,
            0,
        ),
    }
}

fn count_cleanable(findings: &Vec<Finding>) -> (r: u64)
    requires
        findings@.len() <= u64::MAX,
    ensures
        r == cleanable_count(findings@),
        r <= findings@.len(),
{
    let mut n: u64 = 0;
    let mut i: usize = 0;
    while i < findings.len()
        invariant
            i <= findings@.len(),
            findings@.len() <= u64::MAX,
            n <= i,
            n == cleanable_count(findings@.take(i as int)),
        decreases findings@.len() - i,
    {
        assert(findings@.take(i + 1).drop_last() =~= findings@.take(i as int));
        let f = &findings[i];
        if !f.report_only && f.safety != Safety::Protected && f.native_action.is_some() {
            n += 1;
        }
        i += 1;
    }
    assert(findings@.take(findings@.len() as int) =~= findings@);
    n
}

/// Reports a finished scan: its status, and the findings to hand on. A
/// cancelled or failed scan hands on none.
pub fn scan_finished(
    metadata: ProviderMetadata,
    outcome: Result<Vec<Finding>, String>,
    cancelled: bool,
    elapsed_ms: u128,
) -> (r: (ProviderStatus, Vec<Finding>))
    ensures
        r.0@ == scan_ends(metadata@, outcome, cancelled, elapsed_ms),
        r.1@ == if outcome is Ok && !cancelled {
            outcome->Ok_0@
        } else {
            Seq::empty()
        },
{
    match outcome {
        Ok(findings) => {
            if cancelled {
                let status = final_status(
                    metadata,
                    ProviderState::Cancelled,
                    "Provider exceeded the scan budget or the scan was cancelled.".to_owned(),
                    elapsed_ms,
                    0,
                );
                return (status, Vec::new());
            }
            let count: usize = findings.len();
            let message = if count == 0 {
                "No reclaimable objects found.".to_owned()
            } else {
                let candidates: u64 = count_cleanable(&findings);
                let noun = if count == 1 {
                    "finding"
                } else {
                    "findings"
                };
                "Found ".to_owned().concat(text::decimal(candidates).as_str()).concat(
                    " cleanup candidates; ",
                ).concat(text::decimal(count as u64).as_str()).concat(" ").concat(noun).concat(
                    " total.",
                )
            };
            let status = final_status(metadata, ProviderState::Ready, message, elapsed_ms, count);
            (status, findings)
        },
        Err(message) => {
            let state = if cancelled {
                ProviderState::Cancelled
            } else if text::contains(message.as_str(), "timed out") {
                ProviderState::TimedOut
            } else if text::contains(message.as_str(), "permission") || text::contains(
                message.as_str(),
                "not permitted",
            ) {
                ProviderState::PermissionDenied
            } else {
                ProviderState::Failed
            };
            (final_status(metadata, state, message, elapsed_ms, 0), Vec::new())
        },
    }
}

/// A cancelled scan hands on nothing and never ends ready.
pub proof fn law_cancelled_is_not_ready(
    m: MetadataModel,
    outcome: Result<Vec<Finding>, String>,
    elapsed_ms: u128,
)
    ensures
        scan_ends(m, outcome, true, elapsed_ms).state == ProviderState::Cancelled,
        scan_ends(m, outcome, true, elapsed_ms).finding_count == 0,
{
}

/// A provider takes part exactly where it belongs to the profile and was not left
/// out.
pub proof fn law_providers_take_part(m: MetadataModel, settings: ProviderSettings)
    ensures
        takes_part(m, settings) <==> (settings.profile == ScanProfile::Quick ==> m.quick) && (settings.profile
            == ScanProfile::Deep ==> m.deep) && (settings.enabled is Some ==> views(
            settings.enabled->0@,
        ).contains(m.id)),
{
}

/// Every provider that takes part waits to begin with, and no other does.
pub proof fn law_all_that_take_part_wait(providers: Seq<ProviderMetadata>, settings: ProviderSettings, i: int)
    requires
        0 <= i < providers.len(),
    ensures
        takes_part(providers[i]@, settings) ==> collect_some(providers, waiting_status(settings)).contains(
            status_of(providers[i]@, ProviderState::Waiting, Seq::empty(), 0, 0),
        ),
        !takes_part(providers[i]@, settings) ==> waiting_status(settings)(providers[i]) is None,
{
    let s = status_of(providers[i]@, ProviderState::Waiting, Seq::empty(), 0, 0);
    crate::seqs::law_collected_is_made(providers, waiting_status(settings), s);
    if takes_part(providers[i]@, settings) {
        assert(waiting_status(settings)(providers[i]) == Some(s));
    }
}

/// Each provider that was not reached is cancelled, and no other.
pub proof fn law_unreached_providers_are_cancelled(
    eligible: Seq<ProviderMetadata>,
    processed: Seq<Seq<char>>,
    i: int,
)
    requires
        0 <= i < eligible.len(),
    ensures
        unstarted_status(processed)(eligible[i]) is Some <==> !processed.contains(eligible[i]@.id),
        unstarted_status(processed)(eligible[i]) matches Some(s) ==> s.state == ProviderState::Cancelled
            && s.provider_id == eligible[i]@.id && s.finding_count == 0,
{
}

/// A scan goes on exactly where the provider is available and nothing was cancelled;
/// otherwise it ends in the state that the provider is in.
pub proof fn law_probes_end_or_go_on(m: MetadataModel, c: Capability, cancelled: bool, elapsed: u128)
    ensures
        probe_ends(m, c, cancelled, elapsed) is None <==> c is Available && !cancelled,
        c is Unavailable ==> probe_ends(m, c, cancelled, elapsed)->0.state == ProviderState::Unavailable,
        c is PermissionDenied ==> probe_ends(m, c, cancelled, elapsed)->0.state
            == ProviderState::PermissionDenied,
        c is Available && cancelled ==> probe_ends(m, c, cancelled, elapsed)->0.state
            == ProviderState::Cancelled,
{
}

/// A scan that came through is ready with all that it found; one that failed says
/// why, by what the message holds.
pub proof fn law_scans_end(m: MetadataModel, found: Vec<Finding>, message: String, elapsed: u128)
    ensures
        scan_ends(m, Ok(found), false, elapsed).state == ProviderState::Ready,
        scan_ends(m, Ok(found), false, elapsed).finding_count == found@.len(),
        text::occurs(message@, "timed out"@) ==> scan_ends(m, Err(message), false, elapsed).state
            == ProviderState::TimedOut,
        !text::occurs(message@, "timed out"@) && (text::occurs(message@, "permission"@) || text::occurs(
            message@,
            "not permitted"@,
        )) ==> scan_ends(m, Err(message), false, elapsed).state == ProviderState::PermissionDenied,
        !text::occurs(message@, "timed out"@) && !text::occurs(message@, "permission"@) && !text::occurs(
            message@,
            "not permitted"@,
        ) ==> scan_ends(m, Err(message), false, elapsed).state == ProviderState::Failed,
        scan_ends(m, Err(message), false, elapsed).message == message@,
{
    assert(found.len() == found@.len());
}

/// What can be cleaned is counted: what is neither only reported nor protected and
/// has an action.
pub proof fn law_candidates_are_counted(findings: Seq<Finding>, f: Finding)
    ensures
        cleanable_count(Seq::empty()) == 0,
        cleanable_count(findings.push(f)) == cleanable_count(findings) + if !f.report_only && f.safety
            != Safety::Protected && f.native_action is Some {
            1int
        } else {
            0
        },
{
    assert(findings.push(f).drop_last() =~= findings);
}

} // verus!
