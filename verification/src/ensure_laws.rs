//! What holds of standing convoys over all their states, each phase and each
//! reading named.
use vstd::prelude::*;

use crate::ensure::{
    config_observed, driver_decided, driver_routed, ensure_decided, failed_in_a_row, first_is_ready, live_convoy, not_dead, patched,
    retired, retry_delay, start_reported, BackingEnvironment, DemandReading, DrivenGeneration, DriverHost, DriverReading, DriverRoute,
    DriverStep, EnsureAnnotationNames, EnsurePatch, EnsureReadings, EnsureStatus, EnsureStep, EnsuredConvoy, ReapReading, RetireStep,
};
use crate::ensure_start::{ensured_start_decided, EnsureRequest, EnsuredStartReadings, EnsuredStartStep, SnapshotNames};
use crate::materialize::AnnotationNames;
use crate::model::ConvoyPhase;
use crate::ordered::text_map;
use crate::time::Timestamp;

verus! {

/// The first restart is put off by half a minute, and each further one twice
/// as long as the one before, but by no more than a quarter of an hour.
pub proof fn law_delays_double(restarts: int)
    requires
        restarts >= 0,
    ensures
        retry_delay(0) == 30,
        retry_delay(restarts + 1) == if 2 * retry_delay(restarts) < 900 {
            2 * retry_delay(restarts)
        } else {
            900
        },
{
}

/// A convoy that failed, was cancelled or was abandoned is never taken for one
/// that runs: nothing is recorded or reported as running, its backoff is not
/// reset for having run, and the ensure is told of its failure.
pub proof fn law_ended_convoys_do_not_count_as_running(
    step: EnsureStep,
    name: Seq<char>,
    status: EnsureStatus,
    convoy: EnsuredConvoy,
    now: Timestamp,
    readings: EnsureReadings,
)
    requires
        ensure_decided(step, name, status, Some(convoy), now, readings),
        convoy.phase == Some(ConvoyPhase::Failed) || convoy.phase == Some(ConvoyPhase::Cancelled) || convoy.phase == Some(
            ConvoyPhase::Abandoned,
        ),
    ensures
        step matches EnsureStep::Act { actions } ==> !(actions.patch matches Some(EnsurePatch::Running { .. })),
        step matches EnsureStep::Act { actions } ==> (actions.patch == Some(EnsurePatch::ResetBackoff) ==> status.restart_limit_hold
            && readings.attention_open == Some(false)),
        !status.restart_limit_hold && status.retry_at is None ==> match step {
            EnsureStep::Act { actions } => actions.raise is Some || actions.patch is Some,
            _ => true,
        },
{
}

/// What has ended is backed off from: unless the ensure is held, once the
/// backing is known to be dead, or at once where an operator abandoned the
/// convoy, the first failure is retried after half a minute, the second after
/// a minute, and the third only after an operator was asked. None of these
/// passes starts anything.
pub proof fn law_ended_convoys_back_off(
    step: EnsureStep,
    name: Seq<char>,
    status: EnsureStatus,
    convoy: EnsuredConvoy,
    now: Timestamp,
    readings: EnsureReadings,
)
    requires
        ensure_decided(step, name, status, Some(convoy), now, readings),
        !status.restart_limit_hold,
        status.retry_at is None,
        convoy.phase == Some(ConvoyPhase::Abandoned) || ((convoy.phase == Some(ConvoyPhase::Failed) || convoy.phase == Some(
            ConvoyPhase::Cancelled,
        )) && (readings.backing_dead matches Some(Ok(_)))),
    ensures
        step matches EnsureStep::Act { actions } && !actions.start && actions.clear && actions.change is Some,
        status.restart_count < 2 ==> (step matches EnsureStep::Act { actions } && actions.raise is None && (actions.patch matches Some(
            EnsurePatch::BackingOff { retry_at, failure },
        ) && retry_at.secs() == now.secs() + (if status.restart_count == 0 {
            30
        } else {
            60int
        }))),
        status.restart_count >= 2 ==> (step matches EnsureStep::Act { actions } && (actions.raise matches Some(a)
            && a.escalates_at matches Some(at) && at.secs() == now.secs() + 900) && (actions.patch matches Some(
            EnsurePatch::RestartLimitReached { convoy_ref, failure },
        ) && convoy_ref@ == convoy.name@)),
{
}

/// Once an ended convoy is backed off from, another generation is started as
/// soon as the retry is due, and nothing is done before.
pub proof fn law_due_retries_start_another_generation(
    step: EnsureStep,
    name: Seq<char>,
    status: EnsureStatus,
    convoy: EnsuredConvoy,
    now: Timestamp,
    readings: EnsureReadings,
    due: Timestamp,
)
    requires
        ensure_decided(step, name, status, Some(convoy), now, readings),
        !status.restart_limit_hold,
        status.retry_at == Some(due),
        convoy.phase == Some(ConvoyPhase::Abandoned) || ((convoy.phase == Some(ConvoyPhase::Failed) || convoy.phase == Some(
            ConvoyPhase::Cancelled,
        )) && (readings.backing_dead matches Some(Ok(_)))),
    ensures
        step matches EnsureStep::Act { actions } && actions.patch is None && actions.raise is None && actions.change is None && actions.start
            == (now.secs() > due.secs() || (now.secs() == due.secs() && now.nanos() >= due.nanos())),
{
}

/// Two passes: what the first writes of an ended convoy makes the second wait
/// for exactly the time that was written, and then start another generation,
/// with one restart more on record.
pub proof fn law_backing_off_leads_to_a_restart(
    first: EnsureStep,
    second: EnsureStep,
    name: Seq<char>,
    before: EnsureStatus,
    after: EnsureStatus,
    convoy: EnsuredConvoy,
    now: Timestamp,
    later: Timestamp,
    readings: EnsureReadings,
)
    requires
        ensure_decided(first, name, before, Some(convoy), now, readings),
        first matches EnsureStep::Act { actions } && patched(after, before, actions.patch),
        ensure_decided(second, name, after, Some(convoy), later, readings),
        convoy.phase == Some(ConvoyPhase::Failed) || convoy.phase == Some(ConvoyPhase::Cancelled) || convoy.phase == Some(
            ConvoyPhase::Abandoned,
        ),
        readings.backing_dead matches Some(Ok(_)),
        !before.restart_limit_hold,
        before.retry_at is None,
        before.restart_count == 0,
        later.secs() != now.secs() + 30,
    ensures
        after.restart_count == 1,
        second matches EnsureStep::Act { actions } && actions.start == (later.secs() > now.secs() + 30),
{
}

/// Whether the backing of a failed or cancelled convoy is dead is asked before
/// anything is done; where it may live, an operator is asked and nothing is
/// started, put off or counted. An abandoned convoy is not asked about.
pub proof fn law_backing_is_asked_about(
    step: EnsureStep,
    name: Seq<char>,
    status: EnsureStatus,
    convoy: EnsuredConvoy,
    now: Timestamp,
    readings: EnsureReadings,
)
    requires
        ensure_decided(step, name, status, Some(convoy), now, readings),
    ensures
        step is AskBacking <==> (convoy.phase == Some(ConvoyPhase::Failed) || convoy.phase == Some(ConvoyPhase::Cancelled))
            && !status.restart_limit_hold && readings.backing_dead is None,
        (convoy.phase == Some(ConvoyPhase::Failed) || convoy.phase == Some(ConvoyPhase::Cancelled)) && !status.restart_limit_hold
            && (readings.backing_dead matches Some(Err(_))) ==> (step matches EnsureStep::Act { actions } && !actions.start
            && !actions.clear && actions.raise is Some && (actions.patch is None || actions.patch is Some
            && actions.patch->0 is Holding)),
{
}

/// An ensure that was restarted too often is held until an operator settles
/// the demand; then its failures are forgotten, and only then.
pub proof fn law_held_ensures_wait_for_the_operator(
    step: EnsureStep,
    name: Seq<char>,
    status: EnsureStatus,
    convoy: EnsuredConvoy,
    now: Timestamp,
    readings: EnsureReadings,
)
    requires
        ensure_decided(step, name, status, Some(convoy), now, readings),
        convoy.phase == Some(ConvoyPhase::Failed) || convoy.phase == Some(ConvoyPhase::Cancelled) || convoy.phase == Some(
            ConvoyPhase::Abandoned,
        ),
        status.restart_limit_hold,
    ensures
        readings.attention_open is None ==> step is AskAttention,
        readings.attention_open == Some(true) ==> (step matches EnsureStep::Act { actions } && !actions.start && !actions.clear
            && actions.patch is None && actions.raise is None),
        readings.attention_open == Some(false) ==> (step matches EnsureStep::Act { actions } && !actions.start && actions.clear
            && actions.patch == Some(EnsurePatch::ResetBackoff)),
{
}

/// A convoy in any other phase runs: nothing is started, put off or raised.
/// That it runs is recorded where the ensure has another convoy, a retry or a
/// failure on record, and its restarts are forgotten once it ran for ten
/// minutes.
pub proof fn law_other_phases_run(
    step: EnsureStep,
    name: Seq<char>,
    status: EnsureStatus,
    convoy: EnsuredConvoy,
    now: Timestamp,
    readings: EnsureReadings,
)
    requires
        ensure_decided(step, name, status, Some(convoy), now, readings),
        convoy.phase is None || convoy.phase == Some(ConvoyPhase::Pending) || convoy.phase == Some(ConvoyPhase::Active)
            || convoy.phase == Some(ConvoyPhase::Interrupted) || convoy.phase == Some(ConvoyPhase::Anchored) || convoy.phase
            == Some(ConvoyPhase::Landing) || convoy.phase == Some(ConvoyPhase::Landed),
    ensures
        step matches EnsureStep::Act { actions } && !actions.start && actions.raise is None && actions.clear,
        step matches EnsureStep::Act { actions } && (match actions.patch {
            Some(EnsurePatch::Running { convoy_ref, observed_at }) => convoy_ref@ == convoy.name@ && observed_at == now,
            Some(EnsurePatch::ResetBackoff) => status.restart_count > 0 && status.running_since is Some,
            Some(_) => false,
            None => true,
        }),
        (step matches EnsureStep::Act { actions } && actions.patch matches Some(EnsurePatch::Running { .. })) == ((
        status.convoy_ref is None || status.convoy_ref->0@ != convoy.name@) || status.retry_at is Some || status.last_failure
            is Some),
        (status.convoy_ref matches Some(c) && c@ == convoy.name@) && status.retry_at is None && status.last_failure is None ==> ((
        step matches EnsureStep::Act { actions } && actions.patch == Some(EnsurePatch::ResetBackoff)) == (status.restart_count > 0 && (
        status.running_since matches Some(since) && crate::time::elapsed(now, since) >= 600_000_000_000))),
{
}

/// An ensure without a convoy starts one, unless a retry is due later.
pub proof fn law_missing_convoys_are_started(
    step: EnsureStep,
    name: Seq<char>,
    status: EnsureStatus,
    now: Timestamp,
    readings: EnsureReadings,
)
    requires
        ensure_decided(step, name, status, None, now, readings),
    ensures
        step matches EnsureStep::Act { actions } && actions.patch is None && actions.raise is None && actions.start == (match status.retry_at {
            None => true,
            Some(due) => now.secs() > due.secs() || (now.secs() == due.secs() && now.nanos() >= due.nanos()),
        }),
{
}

/// Another configuration starts with a clean slate; the same one, or the first
/// that is seen, changes nothing else.
pub proof fn law_changed_configurations_start_afresh(after: EnsureStatus, before: EnsureStatus, hash: Seq<char>)
    requires
        config_observed(after, before, hash),
    ensures
        after.observed_config_hash matches Some(h) && h@ == hash,
        after.convoy_ref == before.convoy_ref,
        (before.observed_config_hash matches Some(h) && h@ != hash) ==> after.restart_count == 0 && after.retry_at is None
            && after.last_failure is None && !after.restart_limit_hold,
        (before.observed_config_hash matches Some(h) ==> h@ == hash) ==> after.restart_count == before.restart_count
            && after.retry_at == before.retry_at && after.last_failure == before.last_failure && after.restart_limit_hold
            == before.restart_limit_hold,
{
}

/// The convoy that stands for an ensure was started for it, has not landed,
/// failed, been cancelled or been abandoned, and no other such convoy is of a
/// higher generation. Where there is any such convoy, one is found.
pub proof fn law_the_newest_live_convoy_stands(convoys: Seq<EnsuredConvoy>, ensure: Seq<char>, j: int)
    requires
        0 <= j < convoys.len(),
        convoys[j].ensured_from matches Some(e) && e@ == ensure,
        convoys[j].phase != Some(ConvoyPhase::Landed),
        convoys[j].phase != Some(ConvoyPhase::Failed),
        convoys[j].phase != Some(ConvoyPhase::Cancelled),
        convoys[j].phase != Some(ConvoyPhase::Abandoned),
    ensures
        live_convoy(convoys, ensure) matches Some(i) && 0 <= i < convoys.len() && convoys[i].generation >= convoys[j].generation,
    decreases convoys.len(),
{
    let front = convoys.drop_last();
    lemma_live_convoy(front, ensure);
    if j < front.len() {
        assert(front[j] == convoys[j]);
        law_the_newest_live_convoy_stands(front, ensure, j);
    }
}

/// The convoy that stands for an ensure is one of its own, and has not ended.
pub proof fn law_standing_convoys_are_the_ensures_own(convoys: Seq<EnsuredConvoy>, ensure: Seq<char>)
    ensures
        live_convoy(convoys, ensure) matches Some(i) ==> 0 <= i < convoys.len() && (convoys[i].ensured_from matches Some(e) && e@
            == ensure) && convoys[i].phase != Some(ConvoyPhase::Landed) && convoys[i].phase != Some(ConvoyPhase::Failed)
            && convoys[i].phase != Some(ConvoyPhase::Cancelled) && convoys[i].phase != Some(ConvoyPhase::Abandoned),
{
    lemma_live_convoy(convoys, ensure);
}

proof fn lemma_live_convoy(convoys: Seq<EnsuredConvoy>, ensure: Seq<char>)
    ensures
        live_convoy(convoys, ensure) matches Some(i) ==> 0 <= i < convoys.len() && (convoys[i].ensured_from matches Some(e) && e@
            == ensure) && convoys[i].phase != Some(ConvoyPhase::Landed) && convoys[i].phase != Some(ConvoyPhase::Failed)
            && convoys[i].phase != Some(ConvoyPhase::Cancelled) && convoys[i].phase != Some(ConvoyPhase::Abandoned),
    decreases convoys.len(),
{
    if convoys.len() > 0 {
        lemma_live_convoy(convoys.drop_last(), ensure);
    }
}

/// A driven ensure starts nothing while its last generation is on its way or a
/// demand is open, nor over a failed generation whose backing may live.
pub proof fn law_driven_ensures_start_with_care(
    step: DriverStep,
    name: Seq<char>,
    role: Seq<char>,
    project: Seq<char>,
    generations: Seq<DrivenGeneration>,
    demand: Option<DemandReading>,
    backing_dead: Option<Result<(), String>>,
    now: Timestamp,
)
    requires
        driver_decided(step, name, role, project, generations, demand, backing_dead, now),
        step is Start,
    ensures
        generations.len() > 0 ==> generations.last().phase == Some(ConvoyPhase::Landed) || generations.last().phase == Some(
            ConvoyPhase::Failed,
        ) || generations.last().phase == Some(ConvoyPhase::Cancelled) || generations.last().phase == Some(ConvoyPhase::Abandoned),
        demand == Some(DemandReading::Absent) || demand == Some(DemandReading::Resolved),
        step matches DriverStep::Start { forget_demand, change } && forget_demand == (demand == Some(DemandReading::Resolved)),
        demand == Some(DemandReading::Absent) && generations.len() > 0 && generations.last().phase == Some(ConvoyPhase::Failed) ==> (
        backing_dead matches Some(Ok(_))) && now.secs() >= generations.last().created_at.secs() + 30,
        demand == Some(DemandReading::Absent) && generations.len() > 1 && generations.last().phase == Some(ConvoyPhase::Failed)
            && generations[generations.len() - 2].phase == Some(ConvoyPhase::Failed) ==> now.secs()
            >= generations.last().created_at.secs() + 60,
        demand == Some(DemandReading::Absent) && generations.len() > 2 ==> !(generations.last().phase == Some(ConvoyPhase::Failed)
            && generations[generations.len() - 2].phase == Some(ConvoyPhase::Failed) && generations[generations.len() - 3].phase
            == Some(ConvoyPhase::Failed)),
{
    reveal_with_fuel(failed_in_a_row, 4);
    lemma_last_three(generations);
}

/// A driven ensure does start another generation: once an operator settled the
/// demand, where the last one ended without failing, or where there is none.
/// After the third failure in a row an operator is asked.
pub proof fn law_driven_ensures_go_on(
    step: DriverStep,
    name: Seq<char>,
    role: Seq<char>,
    project: Seq<char>,
    generations: Seq<DrivenGeneration>,
    demand: Option<DemandReading>,
    backing_dead: Option<Result<(), String>>,
    now: Timestamp,
)
    requires
        driver_decided(step, name, role, project, generations, demand, backing_dead, now),
        generations.len() > 0 ==> generations.last().phase == Some(ConvoyPhase::Landed) || generations.last().phase == Some(
            ConvoyPhase::Failed,
        ) || generations.last().phase == Some(ConvoyPhase::Cancelled) || generations.last().phase == Some(ConvoyPhase::Abandoned),
    ensures
        demand is None ==> step is AskDemand,
        demand == Some(DemandReading::Open) ==> step is Idle,
        demand == Some(DemandReading::Resolved) ==> step is Start,
        demand == Some(DemandReading::Absent) && (generations.len() == 0 || generations.last().phase != Some(ConvoyPhase::Failed))
            ==> step is Start,
        demand == Some(DemandReading::Absent) && generations.len() > 2 && generations.last().phase == Some(ConvoyPhase::Failed)
            && generations[generations.len() - 2].phase == Some(ConvoyPhase::Failed) && generations[generations.len() - 3].phase
            == Some(ConvoyPhase::Failed) ==> (step matches DriverStep::Exhausted { attention, change }
            && attention.escalates_at matches Some(at) && at.secs() == now.secs() + 900),
        demand == Some(DemandReading::Absent) && generations.len() == 1 && generations.last().phase == Some(ConvoyPhase::Failed)
            ==> match backing_dead {
            None => step is AskBacking,
            Some(Err(_)) => step is Fail,
            Some(Ok(_)) => now.secs() > generations.last().created_at.secs() + 30 ==> step is Start,
        },
{
    reveal_with_fuel(failed_in_a_row, 4);
    lemma_last_three(generations);
}

/// A last generation that has not ended leaves a driven ensure alone.
pub proof fn law_driven_ensures_leave_what_runs(
    step: DriverStep,
    name: Seq<char>,
    role: Seq<char>,
    project: Seq<char>,
    generations: Seq<DrivenGeneration>,
    demand: Option<DemandReading>,
    backing_dead: Option<Result<(), String>>,
    now: Timestamp,
)
    requires
        driver_decided(step, name, role, project, generations, demand, backing_dead, now),
        generations.len() > 0,
        generations.last().phase != Some(ConvoyPhase::Landed),
        generations.last().phase != Some(ConvoyPhase::Failed),
        generations.last().phase != Some(ConvoyPhase::Cancelled),
        generations.last().phase != Some(ConvoyPhase::Abandoned),
    ensures
        step is Idle,
{
}

proof fn lemma_last_three(g: Seq<DrivenGeneration>)
    ensures
        g.len() > 1 ==> g.drop_last().last() == g[g.len() - 2],
        g.len() > 2 ==> g.drop_last().drop_last().last() == g[g.len() - 3],
{
}

/// A host drives an ensure exactly where the driver is that host; another
/// host's ensure is never driven here, whether that host is ready or not.
pub proof fn law_only_the_driver_drives(
    r: DriverRoute,
    ensure: Seq<char>,
    driver: Seq<char>,
    reading: DriverReading,
    local_host: Option<Seq<char>>,
)
    requires
        driver_routed(r, ensure, driver, reading, local_host),
    ensures
        r is Drive <==> (reading.target matches Ok(Some(host)) && local_host matches Some(here) && here == host@),
        r is ClearCondition ==> reading.reachable == Ok::<bool, String>(true) && (reading.target matches Ok(Some(host)) && local_host
            != Some(host@)),
        (reading.target matches Ok(Some(host)) && local_host != Some(host@)) && reading.reachable == Ok::<bool, String>(false)
            ==> r is Condition,
        reading.target == Ok::<Option<String>, String>(None) || reading.target is Err ==> r is Condition,
{
}

/// A driver counts as ready only where the first host of its name says so.
pub proof fn law_ready_drivers_say_so(hosts: Seq<DriverHost>, name: Seq<char>)
    ensures
        first_is_ready(hosts, name) <==> exists|i: int|
            0 <= i < hosts.len() && (#[trigger] hosts[i]).name@ == name && hosts[i].ready == Some(true) && forall|k: int|
                0 <= k < i ==> (#[trigger] hosts[k]).name@ != name,
    decreases hosts.len(),
{
    if hosts.len() > 0 {
        let rest = hosts.drop_first();
        law_ready_drivers_say_so(rest, name);
        if hosts[0].name@ == name {
            if hosts[0].ready != Some(true) {
                assert forall|i: int| 0 <= i < hosts.len() && (#[trigger] hosts[i]).name@ == name && hosts[i].ready == Some(
                    true,
                ) implies !(forall|k: int| 0 <= k < i ==> (#[trigger] hosts[k]).name@ != name) by {
                    assert(0 < i);
                    assert(hosts[0].name@ == name);
                }
            } else {
                assert(hosts[0].name@ == name);
            }
        } else {
            if first_is_ready(rest, name) {
                let i = choose|i: int|
                    0 <= i < rest.len() && (#[trigger] rest[i]).name@ == name && rest[i].ready == Some(true) && forall|k: int|
                        0 <= k < i ==> (#[trigger] rest[k]).name@ != name;
                assert(hosts[i + 1] == rest[i]);
                assert forall|k: int| 0 <= k < i + 1 implies (#[trigger] hosts[k]).name@ != name by {
                    if k > 0 {
                        assert(hosts[k] == rest[k - 1]);
                    }
                }
            }
            assert forall|i: int| 0 <= i < hosts.len() && (#[trigger] hosts[i]).name@ == name && hosts[i].ready == Some(true) && (
            forall|k: int| 0 <= k < i ==> (#[trigger] hosts[k]).name@ != name) implies first_is_ready(hosts, name) by {
                assert(i > 0);
                assert(rest[i - 1] == hosts[i]);
                assert forall|k: int| 0 <= k < i - 1 implies (#[trigger] rest[k]).name@ != name by {
                    assert(rest[k] == hosts[k + 1]);
                }
            }
        }
    }
}

/// The backing of a convoy is dead exactly where every environment failed.
pub proof fn law_backing_is_dead_where_all_failed(environments: Seq<BackingEnvironment>)
    ensures
        not_dead(environments).len() == 0 <==> forall|i: int|
            0 <= i < environments.len() ==> ((#[trigger] environments[i]).phase matches Some(phase) && phase@ == "Failed"@),
    decreases environments.len(),
{
    if environments.len() > 0 {
        let front = environments.drop_last();
        law_backing_is_dead_where_all_failed(front);
        assert forall|i: int| 0 <= i < front.len() implies #[trigger] front[i] == environments[i] by {}
        if not_dead(environments).len() == 0 {
            assert forall|i: int| 0 <= i < environments.len() implies ((#[trigger] environments[i]).phase matches Some(phase) && phase@
                == "Failed"@) by {
                if i < front.len() {
                    assert(front[i] == environments[i]);
                }
            }
        } else if forall|i: int|
            0 <= i < environments.len() ==> ((#[trigger] environments[i]).phase matches Some(phase) && phase@ == "Failed"@) {
            assert(environments[environments.len() - 1].phase is Some);
        }
    }
}

/// A start that went well is recorded with the convoy that came of it; one
/// that did not is put off, for half a minute the first time, and its reason
/// is kept.
pub proof fn law_starts_are_recorded(
    r: (EnsurePatch, Result<Option<String>, String>),
    started: Result<String, String>,
    role: Seq<char>,
    project: Seq<char>,
    restarts: u32,
    now: Timestamp,
)
    requires
        start_reported(r, started, role, project, restarts, now),
    ensures
        started matches Ok(convoy) ==> (r.0 matches EnsurePatch::Running { convoy_ref, observed_at } && convoy_ref@ == convoy@
            && observed_at == now) && r.1 is Ok,
        started matches Err(e) ==> (r.0 matches EnsurePatch::Retrying { retry_at, failure } && failure@ == e@ && retry_at.secs()
            >= now.secs() + 30 && retry_at.secs() <= now.secs() + 900 && (restarts == 0 ==> retry_at.secs() == now.secs() + 30))
            && r.1 is Err,
{
}

/// An ensure that nobody asks for goes together with its own convoy and no
/// other: it is deleted where it has none, where that is gone, or once that
/// was reaped; what belongs to another ensure, or cannot be read, is refused,
/// and nothing is forced.
pub proof fn law_retired_ensures_take_only_their_own(
    step: RetireStep,
    ensure: Seq<char>,
    convoy_ref: Option<Seq<char>>,
    found: Option<ReapReading>,
    reaped: Option<Result<(), String>>,
)
    requires
        retired(step, ensure, convoy_ref, found, reaped),
    ensures
        convoy_ref is None ==> step is Delete,
        convoy_ref is Some && found is None ==> (step matches RetireStep::AskConvoy { convoy } && convoy@ == convoy_ref->0),
        convoy_ref is Some && found == Some(ReapReading::Absent) ==> step is Delete,
        convoy_ref is Some && (found matches Some(ReapReading::Unreadable { .. })) ==> step is Refuse,
        convoy_ref is Some && (found matches Some(ReapReading::Found { ensured_from }) && (ensured_from is None
            || ensured_from->0@ != ensure)) ==> step is Refuse,
        convoy_ref is Some && (found matches Some(ReapReading::Found { ensured_from }) && ensured_from is Some
            && ensured_from->0@ == ensure) ==> match reaped {
            None => step matches RetireStep::Reap { convoy, force } && convoy@ == convoy_ref->0 && !force,
            Some(Err(_)) => step is Refuse,
            Some(Ok(_)) => step is Delete,
        },
{
}

/// A generation is created for an ensure only where it was admitted, has room,
/// runs on a workflow without an exit, says where it came from, has no live
/// convoy of its own and nobody else alive plays its role; and it carries the
/// ensure's name, under which it is found again.
pub proof fn law_generations_are_created_with_care(
    step: EnsuredStartStep,
    namespace: Seq<char>,
    req: EnsureRequest,
    rd: EnsuredStartReadings,
    ensure_names: EnsureAnnotationNames,
    names: AnnotationNames,
    snapshot_names: SnapshotNames,
    i: int,
)
    requires
        ensured_start_decided(step, namespace, req, rd, ensure_names, names, snapshot_names),
        step is Create,
    ensures
        rd.admission matches Some(Ok(admitted)) && !admitted.has_exit,
        rd.local_space matches Some(Ok(_)),
        rd.remote_space matches Some(Ok(_)),
        req.annotations@.dom().contains(names.source_commit@),
        rd.convoys matches Some(Ok(convoys)) && (0 <= i < convoys@.len() && convoys@[i].phase != Some(ConvoyPhase::Landed)
            && convoys@[i].phase != Some(ConvoyPhase::Failed) && convoys@[i].phase != Some(ConvoyPhase::Cancelled)
            && convoys@[i].phase != Some(ConvoyPhase::Abandoned) ==> !(convoys@[i].ensured_from matches Some(e) && e@
            == req.name@) && !((convoys@[i].project_ref matches Some(p) && p@ == req.project_ref@) && convoys@[i].role@
            == req.role@)),
        rd.generation matches Some(Ok(n)) && (step matches EnsuredStartStep::Create { generation, annotations } && generation == n),
        rd.workflow matches Some(Ok(_)),
        rd.placement matches Some(Ok(_)),
{
    assert(text_map(req.annotations@).dom() =~= req.annotations@.dom());
    let convoys = rd.convoys->0->Ok_0@;
    if 0 <= i < convoys.len() && convoys[i].phase != Some(ConvoyPhase::Landed) && convoys[i].phase != Some(ConvoyPhase::Failed)
        && convoys[i].phase != Some(ConvoyPhase::Cancelled) && convoys[i].phase != Some(ConvoyPhase::Abandoned) {
        if convoys[i].ensured_from is Some && convoys[i].ensured_from->0@ == req.name@ {
            law_the_newest_live_convoy_stands(convoys, req.name@, i);
        }
    }
}

/// What an ensure asks to have admitted is its own: its project, its role as
/// name and branch, its workflow, its policy, its repositories and its stance,
/// and nothing else.
pub proof fn law_ensures_ask_for_what_they_say(
    step: EnsuredStartStep,
    namespace: Seq<char>,
    req: EnsureRequest,
    rd: EnsuredStartReadings,
    ensure_names: EnsureAnnotationNames,
    names: AnnotationNames,
    snapshot_names: SnapshotNames,
)
    requires
        ensured_start_decided(step, namespace, req, rd, ensure_names, names, snapshot_names),
        rd.admission is None,
    ensures
        step matches EnsuredStartStep::Prepare { admission: a } && {
            &&& a.intent.project_ref@ == req.project_ref@
            &&& (a.intent.name matches Some(name) && name@ == req.role@)
            &&& (a.intent.branch matches Some(branch) && branch@ == req.role@)
            &&& (a.intent.workflow_ref matches Some(workflow) && workflow@ == req.workflow_ref@)
            &&& (a.intent.placement_policy is Some == req.placement_policy is Some)
            &&& (req.placement_policy matches Some(policy) ==> a.intent.placement_policy->0@ == policy@)
            &&& a.intent.change_request is None && a.intent.issues@.len() == 0 && a.intent.inputs@.len() == 0
            &&& a.intent.instruction is None && a.intent.agent_overrides@.len() == 0
            &&& a.repositories@.len() == req.repositories@.len()
            &&& (forall|i: int| 0 <= i < req.repositories@.len() ==> (#[trigger] a.repositories@[i])@ == req.repositories@[i]@)
            &&& (a.stance is Some == req.stance is Some)
            &&& (req.stance matches Some(stance) ==> a.stance->0@ == stance@)
        },
{
    let a = step->admission;
    assert(crate::text::strs(a.repositories@).len() == a.repositories@.len());
    assert forall|i: int| 0 <= i < req.repositories@.len() implies (#[trigger] a.repositories@[i])@ == req.repositories@[i]@ by {
        assert(crate::text::strs(a.repositories@)[i] == crate::text::strs(req.repositories@)[i]);
    }
}

/// What is created for an ensure is found by it: the annotations of a new
/// generation say which ensure it is of.
pub proof fn law_generations_carry_their_ensure(
    step: EnsuredStartStep,
    namespace: Seq<char>,
    req: EnsureRequest,
    rd: EnsuredStartReadings,
    ensure_names: EnsureAnnotationNames,
    names: AnnotationNames,
    snapshot_names: SnapshotNames,
)
    requires
        ensured_start_decided(step, namespace, req, rd, ensure_names, names, snapshot_names),
        step is Create,
        ensure_names.ensured_from@ != ensure_names.provenance@,
        ensure_names.ensured_from@ != names.materialized_project@,
        ensure_names.ensured_from@ != names.source_repository@,
        ensure_names.ensured_from@ != names.source_commit@,
        ensure_names.ensured_from@ != names.source_entry_path@,
        ensure_names.ensured_from@ != names.presents_as@,
        ensure_names.ensured_from@ != snapshot_names.workflow@,
        ensure_names.ensured_from@ != snapshot_names.placement@,
    ensures
        step matches EnsuredStartStep::Create { generation, annotations } && annotations@.dom().contains(ensure_names.ensured_from@)
            && annotations@[ensure_names.ensured_from@]@ == req.name@,
{
    let a = step->annotations;
    assert(text_map(a@).dom() =~= a@.dom());
    let key = ensure_names.ensured_from@;
    assert(text_map(a@).dom().contains(key) && text_map(a@)[key] == req.name@);
}

/// An ensure stands with its own convoy that is there, or with the one that was
/// made for it.
pub proof fn law_ensures_stand_with_their_own_convoy(
    step: EnsuredStartStep,
    namespace: Seq<char>,
    req: EnsureRequest,
    rd: EnsuredStartReadings,
    ensure_names: EnsureAnnotationNames,
    names: AnnotationNames,
    snapshot_names: SnapshotNames,
)
    requires
        ensured_start_decided(step, namespace, req, rd, ensure_names, names, snapshot_names),
        rd.convoys matches Some(Ok(_)),
    ensures
        step matches EnsuredStartStep::Standing { convoy } ==> (exists|i: int|
            0 <= i < rd.convoys->0->Ok_0@.len() && (#[trigger] rd.convoys->0->Ok_0@[i]).name@ == convoy@ && (
            rd.convoys->0->Ok_0@[i].ensured_from matches Some(e) && e@ == req.name@)) || (rd.created matches Some(Ok(name)) && name@
            == convoy@),
{
    if step is Standing {
        let convoys = rd.convoys->0->Ok_0@;
        law_standing_convoys_are_the_ensures_own(convoys, req.name@);
        if let Some(i) = live_convoy(convoys, req.name@) {
            assert(convoys[i].name@ == convoys[i].name@);
        }
    }
}

} // verus!
