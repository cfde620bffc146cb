//! What holds of every row of the fleet, of the health of its hosts and of its
//! queue.
use vstd::prelude::*;

use crate::fleet::{
    attention_of, crew_row, crewless, crewless_indices, crewless_row, decision_in, local_rows, rows_name, settles, staleness_of,
    unsettled_in, ConvoyDecision, ConvoyRow, CrewPhase, CrewWork, FleetContext, FleetListRow, FleetReplicaCacheEntry, FleetStaleness,
};
use crate::health::{
    agreement, all_seats, attended, chosen_report, convoys_on, credentials_attended, crews_on, degraded_lines, host_row, queue_rows,
    queued, reporter, seats_configured, seats_listed, CredentialAttention, CredentialReading, DispatchQueueRow, FleetHostRow,
    HostCondition, HostListEntry, HostReport, HostSeat, HostStaleness, HostStatus, ObservationAgreement, QueueEntry, QueuedProject,
};
use crate::model::{
    AttentionState, ConditionValue, ConnectionState, CrewAttention, CrewWorkPhase, SessionPhase, SessionStatus, TerminalSession,
};
use crate::text::{holds, is_space, opt, strs};
use crate::time::{earlier, elapsed_secs, Timestamp};

verus! {

/// Only a running session asks for attention. One that could not be told its
/// work for sure says so; one that is not seen any more cannot be observed;
/// and one that is idle has stalled where its work is not settled.
pub proof fn law_attention_is_for_running_sessions(status: Option<SessionStatus>, unsettled: bool)
    ensures
        attention_of(status, unsettled) is Some ==> (status matches Some(s) && s.phase == SessionPhase::Running),
        (status matches Some(s) && s.phase == SessionPhase::Running) ==> {
            let s = status->0;
            let unconfirmed = opt(s.degraded_reason) == Some("DeliveryUnconfirmed"@);
            &&& unconfirmed ==> attention_of(status, unsettled) == Some(CrewAttention::DeliveryUnconfirmed)
            &&& !unconfirmed && s.attention is None ==> attention_of(status, unsettled) is None
            &&& !unconfirmed && (s.attention matches Some(a) && a.stale) ==> attention_of(status, unsettled) == Some(
                CrewAttention::Unobservable,
            )
            &&& !unconfirmed && (s.attention matches Some(a) && !a.stale && a.state == AttentionState::Idle) ==> attention_of(
                status,
                unsettled,
            ) == Some(if unsettled {
                CrewAttention::Stalled
            } else {
                CrewAttention::Idle
            })
            &&& !unconfirmed && (s.attention matches Some(a) && !a.stale && a.state == AttentionState::Working) ==> attention_of(
                status,
                unsettled,
            ) == Some(CrewAttention::Working)
            &&& !unconfirmed && (s.attention matches Some(a) && !a.stale && a.state == AttentionState::NeedsInput) ==> attention_of(
                status,
                unsettled,
            ) == Some(CrewAttention::NeedsInput)
            &&& !unconfirmed && (s.attention matches Some(a) && !a.stale && a.state == AttentionState::Unobservable) ==> attention_of(
                status,
                unsettled,
            ) == Some(CrewAttention::Unobservable)
        },
{
}

/// The row of a session says what the session is: its name, its namespace,
/// its environment, its crew and how it fares, all of it seen here.
pub proof fn law_rows_are_of_their_session(row: FleetListRow, s: TerminalSession, cx: FleetContext)
    requires
        crew_row(row, s, cx),
    ensures
        opt(row.session) == Some(s.name@),
        row.namespace@ == s.namespace@,
        row.vessel@ == s.env_ref@,
        row.staleness == FleetStaleness::Local,
        row.crew_state@ == (match s.status {
            None => "starting"@,
            Some(status) => match status.phase {
                SessionPhase::Starting => "starting"@,
                SessionPhase::Running => "running"@,
                SessionPhase::Stopped => "stopped"@,
                SessionPhase::Failed => "failed"@,
            },
        }),
        ({
            let role = match s.labels.role {
                Some(role) => role@,
                None => s.role@,
            };
            row.crew@ == (match s.labels.vessel {
                Some(vessel) => vessel@ + "/"@ + role,
                None => role,
            })
        }),
        s.labels.convoy matches Some(convoy) ==> (convoy@ != "-"@ ==> opt(row.convoy_ref) == Some(convoy@)) && row.convoy@ == (
        if cx.convoy_addresses@.dom().contains(convoy@) {
            cx.convoy_addresses@[convoy@]@
        } else {
            convoy@
        }),
        s.labels.convoy is None ==> row.convoy_ref is None,
        s.labels.convoy matches Some(convoy) ==> {
            &&& cx.authorities@.dom().contains(convoy@) ==> opt(row.authority) == Some(cx.authorities@[convoy@]@)
            &&& !cx.authorities@.dom().contains(convoy@) ==> row.authority is None
            &&& row.placement_decision == decision_in(cx.decisions@, s.namespace@, convoy@)
            &&& row.attention == attention_of(
                s.status,
                unsettled_in(
                    cx.unsettled@,
                    convoy@,
                    opt(s.labels.vessel),
                    match s.labels.role {
                        Some(role) => role@,
                        None => s.role@,
                    },
                ),
            )
        },
        !cx.environments@.dom().contains(s.env_ref@) ==> row.host@ == cx.host_name@,
        cx.environments@.dom().contains(s.env_ref@) ==> {
            let bound = cx.environments@[s.env_ref@];
            &&& bound.host_ref is None ==> row.host@ == cx.host_name@
            &&& (bound.host_ref is Some && bound.target is Some ==> row.host@ == (if opt(cx.local_host_id) == Some(
                bound.target->0.reference@,
            ) {
                cx.host_name@
            } else {
                bound.target->0.reference@
            }))
        },
{
}

proof fn lemma_unsettled_last(work: Seq<CrewWork>, convoy: Seq<char>, vessel: Seq<char>, role: Seq<char>, i: int)
    requires
        0 <= i < work.len(),
        work[i].convoy@ == convoy && work[i].vessel@ == vessel && work[i].role@ == role,
        forall|j: int|
            i < j < work.len() ==> !((#[trigger] work[j]).convoy@ == convoy && work[j].vessel@ == vessel && work[j].role@ == role),
    ensures
        unsettled_in(work, convoy, Some(vessel), role) == work[i].unsettled,
    decreases work.len(),
{
    if i < work.len() - 1 {
        let front = work.drop_last();
        assert(front[i] == work[i]);
        assert(work[work.len() - 1] == work.last());
        assert forall|j: int| i < j < front.len() implies !((#[trigger] front[j]).convoy@ == convoy && front[j].vessel@ == vessel
            && front[j].role@ == role) by {
            assert(front[j] == work[j]);
        }
        lemma_unsettled_last(front, convoy, vessel, role, i);
    }
}

proof fn lemma_unsettled_none(work: Seq<CrewWork>, convoy: Seq<char>, vessel: Option<Seq<char>>, role: Seq<char>)
    requires
        vessel is None || forall|j: int|
            0 <= j < work.len() ==> !((#[trigger] work[j]).convoy@ == convoy && work[j].vessel@ == vessel->0 && work[j].role@ == role),
    ensures
        unsettled_in(work, convoy, vessel, role),
    decreases work.len(),
{
    if work.len() > 0 && vessel is Some {
        let front = work.drop_last();
        assert(work[work.len() - 1] == work.last());
        assert forall|j: int| 0 <= j < front.len() implies !((#[trigger] front[j]).convoy@ == convoy && front[j].vessel@ == vessel->0
            && front[j].role@ == role) by {
            assert(front[j] == work[j]);
        }
        lemma_unsettled_none(front, convoy, vessel, role);
    }
}

/// What a crew member's work is like is what was last noted of exactly this
/// member; of a member that nothing is noted of, it is not settled.
pub proof fn law_the_last_note_on_work_counts(work: Seq<CrewWork>, convoy: Seq<char>, vessel: Option<Seq<char>>, role: Seq<char>)
    ensures
        forall|i: int|
            0 <= i < work.len() && vessel is Some && (#[trigger] work[i]).convoy@ == convoy && work[i].vessel@ == vessel->0 && work[i].role@
                == role && (forall|j: int|
                i < j < work.len() ==> !((#[trigger] work[j]).convoy@ == convoy && work[j].vessel@ == vessel->0 && work[j].role@
                    == role)) ==> unsettled_in(work, convoy, vessel, role) == work[i].unsettled,
        (vessel is None || forall|j: int|
            0 <= j < work.len() ==> !((#[trigger] work[j]).convoy@ == convoy && work[j].vessel@ == vessel->0 && work[j].role@ == role))
            ==> unsettled_in(work, convoy, vessel, role),
{
    assert forall|i: int|
        0 <= i < work.len() && vessel is Some && (#[trigger] work[i]).convoy@ == convoy && work[i].vessel@ == vessel->0 && work[i].role@
            == role && (forall|j: int|
            i < j < work.len() ==> !((#[trigger] work[j]).convoy@ == convoy && work[j].vessel@ == vessel->0 && work[j].role@ == role)) implies unsettled_in(
        work,
        convoy,
        vessel,
        role,
    ) == work[i].unsettled by {
        lemma_unsettled_last(work, convoy, vessel->0, role, i);
    }
    if vessel is None || forall|j: int|
        0 <= j < work.len() ==> !((#[trigger] work[j]).convoy@ == convoy && work[j].vessel@ == vessel->0 && work[j].role@ == role) {
        lemma_unsettled_none(work, convoy, vessel, role);
    }
}

/// Work is settled unless it is still to be done or being done.
pub proof fn law_pending_work_is_unsettled(phase: CrewWorkPhase)
    ensures
        crate::fleet::work_unsettled(phase) <==> phase is Pending || phase is Working,
{
}

proof fn lemma_crewless_sound(rows: Seq<FleetListRow>, convoys: Seq<ConvoyRow>, namespace: Seq<char>, n: int, k: int)
    requires
        0 <= k < crewless_indices(rows, convoys, namespace, n).len(),
    ensures
        0 <= crewless_indices(rows, convoys, namespace, n)[k] < n,
        crewless(rows, convoys, namespace, crewless_indices(rows, convoys, namespace, n)[k]),
    decreases n,
{
    let before = crewless_indices(rows, convoys, namespace, n - 1);
    if k < before.len() {
        lemma_crewless_sound(rows, convoys, namespace, n - 1, k);
    }
}

proof fn lemma_crewless_whole(rows: Seq<FleetListRow>, convoys: Seq<ConvoyRow>, namespace: Seq<char>, n: int, i: int) -> (k: int)
    requires
        0 <= i < n,
        crewless(rows, convoys, namespace, i),
    ensures
        0 <= k < crewless_indices(rows, convoys, namespace, n).len(),
        crewless_indices(rows, convoys, namespace, n)[k] == i,
    decreases n,
{
    let before = crewless_indices(rows, convoys, namespace, n - 1);
    if i < n - 1 {
        lemma_crewless_whole(rows, convoys, namespace, n - 1, i)
    } else {
        before.len() as int
    }
}

proof fn lemma_first_of_name(convoys: Seq<ConvoyRow>, namespace: Seq<char>, i: int) -> (f: int)
    requires
        0 <= i < convoys.len(),
        convoys[i].namespace@ == namespace,
    ensures
        0 <= f <= i,
        convoys[f].namespace@ == namespace,
        convoys[f].record_name@ == convoys[i].record_name@,
        forall|j: int|
            0 <= j < f && (#[trigger] convoys[j]).namespace@ == namespace ==> convoys[j].record_name@ != convoys[f].record_name@,
    decreases i,
{
    if exists|j: int| 0 <= j < i && (#[trigger] convoys[j]).namespace@ == namespace && convoys[j].record_name@ == convoys[i].record_name@ {
        let j = choose|j: int|
            0 <= j < i && (#[trigger] convoys[j]).namespace@ == namespace && convoys[j].record_name@ == convoys[i].record_name@;
        lemma_first_of_name(convoys, namespace, j)
    } else {
        i
    }
}

/// Every session has a row, and every convoy of the namespace has one: of its
/// crew, or one of its own where it has none, which says how the convoy fares.
/// Nothing else is listed.
pub proof fn law_every_convoy_is_listed(
    rows: Seq<FleetListRow>,
    sessions: Seq<TerminalSession>,
    convoys: Seq<ConvoyRow>,
    namespace: Seq<char>,
    cx: FleetContext,
)
    requires
        local_rows(rows, sessions, convoys, namespace, cx),
    ensures
        rows.len() >= sessions.len(),
        forall|i: int| 0 <= i < sessions.len() ==> opt((#[trigger] rows[i]).session) == Some(sessions[i].name@),
        forall|i: int|
            0 <= i < convoys.len() && (#[trigger] convoys[i]).namespace@ == namespace ==> exists|r: int|
                0 <= r < rows.len() && opt((#[trigger] rows[r]).convoy_ref) == Some(convoys[i].record_name@),
        forall|r: int|
            sessions.len() <= r < rows.len() ==> (#[trigger] rows[r]).session is None && rows[r].crew@ == "-"@ && rows[r].host@
                == cx.host_name@ && rows[r].namespace@ == namespace && exists|i: int|
                0 <= i < convoys.len() && (#[trigger] convoys[i]).namespace@ == namespace && opt(rows[r].convoy_ref) == Some(
                    convoys[i].record_name@,
                ) && rows[r].placement_decision == convoys[i].placement_decision,
        forall|r: int, q: int|
            sessions.len() <= r < rows.len() && 0 <= q < sessions.len() ==> opt((#[trigger] rows[r]).convoy_ref) != opt(
                (#[trigger] rows[q]).convoy_ref,
            ),
{
    let n = sessions.len();
    let crews = rows.take(n as int);
    let total = convoys.len() as int;
    let picked = crewless_indices(crews, convoys, namespace, total);
    assert forall|i: int| 0 <= i < convoys.len() && (#[trigger] convoys[i]).namespace@ == namespace implies exists|r: int|
        0 <= r < rows.len() && opt((#[trigger] rows[r]).convoy_ref) == Some(convoys[i].record_name@) by {
        if rows_name(crews, convoys[i].record_name@) {
            let r = choose|r: int| 0 <= r < crews.len() && opt((#[trigger] crews[r]).convoy_ref) == Some(convoys[i].record_name@);
            assert(rows[r] == crews[r]);
        } else {
            let f = lemma_first_of_name(convoys, namespace, i);
            let k = lemma_crewless_whole(crews, convoys, namespace, total, f);
            assert(opt(rows[n + k].convoy_ref) == Some(convoys[i].record_name@));
        }
    }
    assert forall|r: int| sessions.len() <= r < rows.len() implies (#[trigger] rows[r]).session is None && rows[r].crew@ == "-"@
        && rows[r].host@ == cx.host_name@ && rows[r].namespace@ == namespace && exists|i: int|
        0 <= i < convoys.len() && (#[trigger] convoys[i]).namespace@ == namespace && opt(rows[r].convoy_ref) == Some(
            convoys[i].record_name@,
        ) && rows[r].placement_decision == convoys[i].placement_decision by {
        let k = r - n;
        assert(rows[n + k] == rows[r]);
        lemma_crewless_sound(crews, convoys, namespace, total, k);
        assert(convoys[picked[k]].namespace@ == namespace);
    }
    assert forall|r: int, q: int| sessions.len() <= r < rows.len() && 0 <= q < sessions.len() implies opt(
        (#[trigger] rows[r]).convoy_ref,
    ) != opt((#[trigger] rows[q]).convoy_ref) by {
        let k = r - n;
        assert(rows[n + k] == rows[r]);
        lemma_crewless_sound(crews, convoys, namespace, total, k);
        assert(crews[q] == rows[q]);
    }
}

/// A copy that could not be had last time, or never, is unreachable; one that
/// is older than ninety seconds is stale; any other is fresh.
pub proof fn law_old_copies_are_stale(entry: FleetReplicaCacheEntry, now: Timestamp, r: FleetStaleness)
    requires
        staleness_of(entry, now, r),
    ensures
        r is Unreachable <==> entry.last_error is Some || entry.last_sync is None,
        r is Stale <==> entry.last_error is None && (entry.last_sync matches Some(at) && elapsed_secs(now, at) > 90),
        r is Fresh <==> entry.last_error is None && (entry.last_sync matches Some(at) && elapsed_secs(now, at) <= 90),
        !(r is Local),
        r matches FleetStaleness::Unreachable { last_sync, message } ==> last_sync == entry.last_sync && (
        entry.last_error matches Some(error) ==> message@ == error@),
        r matches FleetStaleness::Stale { last_sync } ==> entry.last_sync == Some(last_sync),
        r matches FleetStaleness::Fresh { last_sync } ==> entry.last_sync == Some(last_sync),
{
}

/// Who is here agrees with themselves. Of another host, what the link and the
/// heartbeat say must fit, and so must the generations that are known; nothing
/// agrees while the link is being made or something is not known.
pub proof fn law_observations_agree_where_all_fits(
    link: ConnectionState,
    heartbeat: bool,
    fresh: bool,
    daemon: Option<Seq<char>>,
    replica: Option<Seq<char>>,
)
    ensures
        agreement(link, heartbeat, fresh, daemon, replica, true) == ObservationAgreement::Agree,
        agreement(link, heartbeat, fresh, daemon, replica, false) == ObservationAgreement::Agree <==> heartbeat && !(link is Connecting)
            && !(link is Reconnecting) && (link is Connected <==> fresh) && daemon is Some && replica is Some && daemon == replica,
        agreement(link, heartbeat, fresh, daemon, replica, false) == ObservationAgreement::Disagree <==> (daemon is Some && replica is Some
            && daemon != replica) || (link is Connected && !fresh) || ((link is Disconnected || link is Rejected) && fresh),
{
}

/// A host is current when its heartbeat is fresh and so is what was copied
/// from it; who is here is copied now. Where neither a heartbeat nor a copy is
/// known, nothing is known of it.
pub proof fn law_host_rows_say_how_current_they_are(
    row: FleetHostRow,
    host: Seq<char>,
    seat: HostSeat,
    status: Option<HostStatus>,
    replica: Option<FleetReplicaCacheEntry>,
    rows: Seq<FleetListRow>,
    now: Timestamp,
    ttl: i64,
)
    requires
        host_row(row, host, seat, status, replica, rows, now, ttl),
    ensures
        row.host@ == host && row.is_local == seat.is_local && row.configured == seat.configured && row.link == seat.link,
        row.crew_count == crews_on(rows, host),
        row.convoy_count == convoys_on(rows, host).len(),
        status is None ==> row.heartbeat_at is None && row.daemon_generation is None && row.daemon_version is None
            && row.disk_free_bytes is None && row.sleep_inhibition is None && row.daemon_uptime_seconds is None
            && row.degraded_conditions@.len() == 0 && row.credential_attention@.len() == 0,
        (status matches Some(s) && (s.daemon_started_at matches Some(at) && elapsed_secs(now, at) > 0)) ==> row.daemon_uptime_seconds
            == Some(elapsed_secs(now, status->0.daemon_started_at->0) as u64),
        row.staleness == HostStaleness::Current <==> (status matches Some(s) && (s.heartbeat_at matches Some(at) && elapsed_secs(now, at)
            <= ttl)) && (seat.is_local || (replica matches Some(entry) && entry.last_error is None && (
        entry.last_sync matches Some(at) && elapsed_secs(now, at) <= 90))),
        row.staleness == HostStaleness::Unknown ==> (status matches Some(s) ==> s.heartbeat_at is None) && (
        replica matches Some(entry) ==> entry.last_sync is None),
        row.staleness == HostStaleness::Stale ==> (status matches Some(s) && s.heartbeat_at is Some) || (replica matches Some(entry)
            && entry.last_sync is Some),
        status matches Some(s) ==> row.heartbeat_at == s.heartbeat_at && row.daemon_generation == s.daemon_generation
            && row.daemon_version == s.daemon_version && row.disk_free_bytes == s.disk_free_bytes && row.sleep_inhibition
            == s.sleep_inhibition,
        seat.is_local ==> row.replica_last_sync == Some(now) && row.observation_agreement == ObservationAgreement::Agree,
        !seat.is_local && replica is Some ==> row.replica_last_sync == replica->0.last_sync && row.replica_generation
            == replica->0.generation,
        row.daemon_uptime_seconds matches Some(up) ==> (status matches Some(s) && (s.daemon_started_at matches Some(at) && (elapsed_secs(
            now,
            at,
        ) <= 0 ==> up == 0))),
{
    assert(strs(row.degraded_conditions@).len() == row.degraded_conditions@.len());
}

/// A host counts the crews whose rows are its own: one more row of one of its
/// crews is one more, and any other row is none.
pub proof fn law_crews_are_counted_where_they_are(rows: Seq<FleetListRow>, row: FleetListRow, host: Seq<char>)
    ensures
        crews_on(Seq::empty(), host) == 0,
        crews_on(rows.push(row), host) == crews_on(rows, host) + (if row.host@ == host && row.crew@ != "-"@ {
            1int
        } else {
            0
        }),
{
    assert(rows.push(row).drop_last() == rows);
}

/// A host counts the convoys that some row of it names, each once.
pub proof fn law_convoys_are_counted_once(rows: Seq<FleetListRow>, host: Seq<char>, convoy: Seq<char>)
    ensures
        convoys_on(rows, host).contains(convoy) <==> convoy != "-"@ && exists|i: int|
            0 <= i < rows.len() && (#[trigger] rows[i]).host@ == host && rows[i].convoy@ == convoy,
    decreases rows.len(),
{
    if rows.len() > 0 {
        let front = rows.drop_last();
        law_convoys_are_counted_once(front, host, convoy);
        assert(rows[rows.len() - 1] == rows.last());
        if exists|i: int| 0 <= i < rows.len() && (#[trigger] rows[i]).host@ == host && rows[i].convoy@ == convoy {
            let i = choose|i: int| 0 <= i < rows.len() && (#[trigger] rows[i]).host@ == host && rows[i].convoy@ == convoy;
            if i < front.len() {
                assert(front[i] == rows[i]);
            }
        }
        if exists|i: int| 0 <= i < front.len() && (#[trigger] front[i]).host@ == host && front[i].convoy@ == convoy {
            let i = choose|i: int| 0 <= i < front.len() && (#[trigger] front[i]).host@ == host && front[i].convoy@ == convoy;
            assert(rows[i] == front[i]);
        }
    }
}

proof fn lemma_seats_listed(entries: Seq<HostListEntry>, configured: Seq<Seq<char>>, host: Seq<char>)
    ensures
        ({
            let m = seats_listed(entries, configured);
            &&& m.dom().contains(host) <==> exists|i: int| 0 <= i < entries.len() && (#[trigger] entries[i]).host_name@ == host
            &&& m.dom().contains(host) ==> {
                &&& m[host].is_local <==> exists|i: int|
                    0 <= i < entries.len() && (#[trigger] entries[i]).host_name@ == host && entries[i].is_local
                &&& m[host].configured <==> holds(configured, host) || exists|i: int|
                    0 <= i < entries.len() && (#[trigger] entries[i]).host_name@ == host && entries[i].configured
                &&& m[host].link is Connected <==> exists|i: int|
                    0 <= i < entries.len() && (#[trigger] entries[i]).host_name@ == host && entries[i].connection is Connected
            }
        }),
    decreases entries.len(),
{
    if entries.len() > 0 {
        let front = entries.drop_last();
        lemma_seats_listed(front, configured, host);
        let n = entries.len() - 1;
        assert(entries[n] == entries.last());
        assert(forall|i: int| 0 <= i < n ==> #[trigger] entries[i] == front[i]);
        assert(forall|i: int| 0 <= i < n ==> #[trigger] front[i] == entries[i]);
    }
}

proof fn lemma_seats_configured(m: Map<Seq<char>, HostSeat>, configured: Seq<Seq<char>>, host: Seq<char>)
    ensures
        ({
            let after = seats_configured(m, configured);
            &&& after.dom().contains(host) <==> m.dom().contains(host) || holds(configured, host)
            &&& m.dom().contains(host) ==> after[host] == m[host]
            &&& !m.dom().contains(host) && after.dom().contains(host) ==> !after[host].is_local && after[host].configured
                && after[host].link is Disconnected
        }),
    decreases configured.len(),
{
    if configured.len() > 0 {
        let front = configured.drop_last();
        lemma_seats_configured(m, front, host);
        if holds(configured, host) {
            let i = choose|i: int| 0 <= i < configured.len() && #[trigger] configured[i] == host;
            if i < front.len() {
                assert(front[i] == host);
            }
        }
        if holds(front, host) {
            let i = choose|i: int| 0 <= i < front.len() && #[trigger] front[i] == host;
            assert(configured[i] == host);
        }
        assert(configured[configured.len() - 1] == configured.last());
    }
}

/// Every host that is listed, that is configured or that is this one has a
/// seat, and no other. It is configured where the configuration or some entry
/// says so, and connected where some entry is; a host that is configured and
/// not listed is disconnected.
pub proof fn law_every_host_has_a_seat(entries: Seq<HostListEntry>, configured: Seq<Seq<char>>, local: Seq<char>, host: Seq<char>)
    ensures
        ({
            let seats = all_seats(entries, configured, local);
            let listed = exists|i: int| 0 <= i < entries.len() && (#[trigger] entries[i]).host_name@ == host;
            let named = exists|i: int| 0 <= i < configured.len() && #[trigger] configured[i] == host;
            &&& seats.dom().contains(host) <==> listed || named || host == local
            &&& listed ==> (seats[host].is_local <==> exists|i: int|
                0 <= i < entries.len() && (#[trigger] entries[i]).host_name@ == host && entries[i].is_local)
            &&& listed ==> (seats[host].configured <==> named || exists|i: int|
                0 <= i < entries.len() && (#[trigger] entries[i]).host_name@ == host && entries[i].configured)
            &&& listed ==> (seats[host].link is Connected <==> exists|i: int|
                0 <= i < entries.len() && (#[trigger] entries[i]).host_name@ == host && entries[i].connection is Connected)
            &&& !listed && named ==> !seats[host].is_local && seats[host].configured && seats[host].link is Disconnected
            &&& !listed && !named && host == local ==> seats[host].is_local && !seats[host].configured && seats[host].link is Connected
        }),
{
    lemma_seats_listed(entries, configured, host);
    lemma_seats_configured(seats_listed(entries, configured), configured, host);
    assert(holds(configured, host) <==> exists|i: int| 0 <= i < configured.len() && #[trigger] configured[i] == host);
}

/// A report speaks for a host only where it is the host's own: this host's
/// record of itself, or the record of itself that another host passed on.
pub proof fn law_hosts_report_on_themselves(report: HostReport, local_host_id: Option<Seq<char>>, local: Seq<char>, host: Seq<char>)
    requires
        reporter(report, local_host_id, local) == Some(host),
    ensures
        report.provenance is Local ==> local_host_id == Some(report.name@) && host == local,
        report.provenance is Replica ==> opt(report.origin_host_id) == Some(report.name@) && (match report.origin_name {
            Some(name) => host == name@,
            None => opt(report.origin_configured_name) == Some(host),
        }),
{
}

/// The report on a host that counts is one of its own that says something,
/// and none of these has a later heartbeat.
pub proof fn law_the_latest_heartbeat_counts(reports: Seq<HostReport>, local_host_id: Option<Seq<char>>, local: Seq<char>, host: Seq<char>)
    ensures
        ({
            let chosen = chosen_report(reports, local_host_id, local, host);
            &&& (chosen matches Some(c) ==> 0 <= c < reports.len() && reporter(reports[c], local_host_id, local) == Some(host)
                && reports[c].status is Some)
            &&& forall|i: int|
                0 <= i < reports.len() && reporter(#[trigger] reports[i], local_host_id, local) == Some(host) && reports[i].status is Some
                    ==> chosen is Some && (reports[i].status->0.heartbeat_at matches Some(at) ==> (
                reports[chosen->0].status->0.heartbeat_at matches Some(latest) && !earlier(latest, at)))
        }),
    decreases reports.len(),
{
    if reports.len() > 0 {
        let front = reports.drop_last();
        law_the_latest_heartbeat_counts(front, local_host_id, local, host);
        assert(forall|i: int| 0 <= i < front.len() ==> #[trigger] front[i] == reports[i]);
        assert(reports[reports.len() - 1] == reports.last());
        let chosen = chosen_report(reports, local_host_id, local, host);
        assert forall|i: int|
            0 <= i < reports.len() && reporter(#[trigger] reports[i], local_host_id, local) == Some(host)
                && reports[i].status is Some implies chosen is Some && (reports[i].status->0.heartbeat_at matches Some(at) ==> (
        reports[chosen->0].status->0.heartbeat_at matches Some(latest) && !earlier(latest, at))) by {
            if i < front.len() {
                assert(front[i] == reports[i]);
            }
        }
    }
}

proof fn lemma_degraded(conditions: Seq<HostCondition>, line: Seq<char>)
    ensures
        holds(degraded_lines(conditions), line) <==> exists|i: int|
            0 <= i < conditions.len() && (#[trigger] conditions[i]).value == ConditionValue::False && line == conditions[i].condition_type@
                + ": "@ + conditions[i].message@,
    decreases conditions.len(),
{
    if conditions.len() > 0 {
        let front = conditions.drop_last();
        lemma_degraded(front, line);
        let all = degraded_lines(conditions);
        let before = degraded_lines(front);
        let n = conditions.len() - 1;
        assert(conditions[n] == conditions.last());
        if holds(all, line) {
            let k = choose|k: int| 0 <= k < all.len() && #[trigger] all[k] == line;
            if k < before.len() {
                assert(before[k] == line);
                let i = choose|i: int|
                    0 <= i < front.len() && (#[trigger] front[i]).value == ConditionValue::False && line == front[i].condition_type@
                        + ": "@ + front[i].message@;
                assert(conditions[i] == front[i]);
            }
        }
        if exists|i: int|
            0 <= i < conditions.len() && (#[trigger] conditions[i]).value == ConditionValue::False && line
                == conditions[i].condition_type@ + ": "@ + conditions[i].message@ {
            let i = choose|i: int|
                0 <= i < conditions.len() && (#[trigger] conditions[i]).value == ConditionValue::False && line
                    == conditions[i].condition_type@ + ": "@ + conditions[i].message@;
            if i < n {
                assert(front[i] == conditions[i]);
                assert(holds(before, line));
                let k = choose|k: int| 0 <= k < before.len() && #[trigger] before[k] == line;
                assert(all[k] == line);
            } else {
                assert(all[before.len() as int] == line);
            }
        }
    }
}

/// A host is degraded by exactly the conditions that are false.
pub proof fn law_false_conditions_degrade_a_host(conditions: Seq<HostCondition>, line: Seq<char>)
    ensures
        holds(degraded_lines(conditions), line) <==> exists|i: int|
            0 <= i < conditions.len() && (#[trigger] conditions[i]).value == ConditionValue::False && line == conditions[i].condition_type@
                + ": "@ + conditions[i].message@,
{
    lemma_degraded(conditions, line);
}

/// A credential that expired, or will, is pointed out as that, and no other
/// is; one that did is not said to be about to. Credentials that cannot be
/// read are pointed out as well.
pub proof fn law_expiring_credentials_are_pointed_out(told: Seq<CredentialAttention>, readings: Option<Vec<CredentialReading>>)
    requires
        credentials_attended(told, readings),
    ensures
        readings is None ==> told.len() == 1 && told[0].severity is Unreadable,
        readings matches Some(list) ==> {
            &&& forall|i: int|
                0 <= i < list@.len() && (#[trigger] list@[i]).expired_at is Some ==> exists|k: int|
                    0 <= k < told.len() && (#[trigger] told[k]).severity is Expired
            &&& forall|i: int|
                0 <= i < list@.len() && (#[trigger] list@[i]).expired_at is None && list@[i].expires_at is Some ==> exists|k: int|
                    0 <= k < told.len() && (#[trigger] told[k]).severity is Expiring
            &&& (exists|k: int| 0 <= k < told.len() && (#[trigger] told[k]).severity is Expired) ==> exists|i: int|
                0 <= i < list@.len() && (#[trigger] list@[i]).expired_at is Some
            &&& (exists|k: int| 0 <= k < told.len() && (#[trigger] told[k]).severity is Expiring) ==> exists|i: int|
                0 <= i < list@.len() && (#[trigger] list@[i]).expired_at is None && list@[i].expires_at is Some
            &&& told.len() <= list@.len()
            &&& forall|k: int| 0 <= k < told.len() ==> !((#[trigger] told[k]).severity is Unreadable)
        },
{
    broadcast use {
        vstd::seq::Seq::lemma_filter_pred,
        vstd::seq::Seq::lemma_filter_contains,
        vstd::seq::Seq::lemma_filter_len,
        vstd::seq::Seq::lemma_filter_contains_rev,
    };

    if readings is Some {
        let list = readings->0@;
        let wanted = attended(list);
        assert forall|i: int| 0 <= i < list.len() && ((#[trigger] list[i]).expired_at is Some || list[i].expires_at is Some) implies exists|k: int|
            0 <= k < told.len() && #[trigger] wanted[k] == list[i] by {
            assert(wanted.contains(list[i]));
            let k = choose|k: int| 0 <= k < wanted.len() && wanted[k] == list[i];
            assert(wanted[k] == list[i]);
        }
        assert forall|k: int| 0 <= k < told.len() implies exists|i: int| 0 <= i < list.len() && #[trigger] list[i] == #[trigger] wanted[k] by {
            assert(wanted.contains(wanted[k]));
            assert(list.contains(wanted[k]));
        }
        assert forall|i: int| 0 <= i < list.len() && (#[trigger] list[i]).expired_at is Some implies exists|k: int|
            0 <= k < told.len() && (#[trigger] told[k]).severity is Expired by {
            let k = choose|k: int| 0 <= k < told.len() && #[trigger] wanted[k] == list[i];
            assert(told[k].severity is Expired);
        }
        assert forall|i: int| 0 <= i < list.len() && (#[trigger] list[i]).expired_at is None && list[i].expires_at is Some implies exists|k: int|
            0 <= k < told.len() && (#[trigger] told[k]).severity is Expiring by {
            let k = choose|k: int| 0 <= k < told.len() && #[trigger] wanted[k] == list[i];
            assert(told[k].severity is Expiring);
        }
        if exists|k: int| 0 <= k < told.len() && (#[trigger] told[k]).severity is Expired {
            let k = choose|k: int| 0 <= k < told.len() && (#[trigger] told[k]).severity is Expired;
            let i = choose|i: int| 0 <= i < list.len() && #[trigger] list[i] == wanted[k];
            assert(list[i].expired_at is Some);
        }
        if exists|k: int| 0 <= k < told.len() && (#[trigger] told[k]).severity is Expiring {
            let k = choose|k: int| 0 <= k < told.len() && (#[trigger] told[k]).severity is Expiring;
            let i = choose|i: int| 0 <= i < list.len() && #[trigger] list[i] == wanted[k];
            assert(list[i].expired_at is None);
        }
    }
}

proof fn lemma_queued_sound(projects: Seq<QueuedProject>, filter: Option<Seq<char>>, k: int)
    requires
        0 <= k < queued(projects, filter).len(),
    ensures
        ({
            let source = queued(projects, filter)[k];
            &&& projects.contains(source.0)
            &&& (filter matches Some(name) ==> source.0.name@ == name)
            &&& source.0.queue matches Some(queue) && queue.entries@.contains(source.1)
        }),
    decreases projects.len(),
{
    let front = projects.drop_last();
    let before = queued(front, filter);
    if k < before.len() {
        lemma_queued_sound(front, filter, k);
        let p = queued(projects, filter)[k].0;
        let i = choose|i: int| 0 <= i < front.len() && front[i] == p;
        assert(projects[i] == p);
    } else {
        let p = projects.last();
        assert(projects[projects.len() - 1] == p);
        assert(p.queue->0.entries@[k - before.len()] == queued(projects, filter)[k].1);
    }
}

proof fn lemma_queued_whole(projects: Seq<QueuedProject>, filter: Option<Seq<char>>, p: int, e: int) -> (k: int)
    requires
        0 <= p < projects.len(),
        projects[p].queue is Some,
        0 <= e < projects[p].queue->0.entries@.len(),
        filter matches Some(name) ==> projects[p].name@ == name,
    ensures
        0 <= k < queued(projects, filter).len(),
        queued(projects, filter)[k] == (projects[p], projects[p].queue->0.entries@[e]),
    decreases projects.len(),
{
    let front = projects.drop_last();
    let before = queued(front, filter);
    if p < front.len() {
        assert(front[p] == projects[p]);
        lemma_queued_whole(front, filter, p, e)
    } else {
        before.len() + e
    }
}

/// Each row of the queue shows an entry of a project that is asked about.
pub proof fn law_queue_rows_show_an_entry(
    rows: Seq<DispatchQueueRow>,
    projects: Seq<QueuedProject>,
    filter: Option<Seq<char>>,
    now: Timestamp,
    k: int,
)
    requires
        queue_rows(rows, queued(projects, filter), now),
        0 <= k < rows.len(),
    ensures
        filter matches Some(name) ==> rows[k].project@ == name,
        exists|p: int, e: int|
            0 <= p < projects.len() && projects[p].queue is Some && 0 <= e < projects[p].queue->0.entries@.len() && #[trigger] shows(
                rows[k],
                projects[p],
                projects[p].queue->0.entries@[e],
                now,
            ),
{
    let sources = queued(projects, filter);
    lemma_queued_sound(projects, filter, k);
    let source = sources[k];
    let p = choose|p: int| 0 <= p < projects.len() && projects[p] == source.0;
    let entries = source.0.queue->0.entries@;
    let e = choose|e: int| 0 <= e < entries.len() && entries[e] == source.1;
    assert(shows(rows[k], projects[p], projects[p].queue->0.entries@[e], now));
}

/// Each entry of each project that is asked about is shown.
pub proof fn law_queue_entries_are_shown(
    rows: Seq<DispatchQueueRow>,
    projects: Seq<QueuedProject>,
    filter: Option<Seq<char>>,
    now: Timestamp,
    p: int,
    e: int,
)
    requires
        queue_rows(rows, queued(projects, filter), now),
        0 <= p < projects.len(),
        projects[p].queue is Some,
        0 <= e < projects[p].queue->0.entries@.len(),
        filter matches Some(name) ==> projects[p].name@ == name,
    ensures
        exists|k: int| 0 <= k < rows.len() && shows(#[trigger] rows[k], projects[p], projects[p].queue->0.entries@[e], now),
{
    let k = lemma_queued_whole(projects, filter, p, e);
    assert(shows(rows[k], projects[p], projects[p].queue->0.entries@[e], now));
}

/// Whether a row of the queue shows an entry of a project.
pub open spec fn shows(row: DispatchQueueRow, project: QueuedProject, entry: QueueEntry, now: Timestamp) -> bool {
    &&& row.namespace@ == project.namespace@
    &&& row.project@ == project.name@
    &&& row.issue@ == entry.issue@
    &&& row.title@ == entry.title@
    &&& row.ready_observed_at == entry.ready_observed_at
    &&& row.provenance@ == entry.provenance@
    &&& (project.queue matches Some(queue) && row.attention == queue.attention)
    &&& (elapsed_secs(now, entry.ready_observed_at) >= 0 ==> row.age_seconds == elapsed_secs(now, entry.ready_observed_at))
    &&& (elapsed_secs(now, entry.ready_observed_at) < 0 ==> row.age_seconds == 0)
}

/// Each note of a crew's work says of whom it is, and that the work is not
/// settled while it waits or goes on.
pub proof fn law_notes_say_whose_work_is_open(work: Seq<CrewWork>, phases: Seq<(Seq<char>, CrewPhase)>, i: int)
    requires
        settles(work, phases),
        0 <= i < phases.len(),
    ensures
        work.len() == phases.len(),
        work[i].convoy@ == phases[i].0,
        work[i].vessel@ == phases[i].1.vessel@,
        work[i].role@ == phases[i].1.role@,
        work[i].unsettled <==> phases[i].1.phase is Pending || phases[i].1.phase is Working,
{
    assert(work[i].convoy@ == phases[i].0);
}

/// A convoy that no crew stands for is shown on the host it was listed at,
/// under its role and project, in its phase and where it was placed; there is
/// no crew, vessel or session to attach to, and nothing asks for attention.
pub proof fn law_crewless_convoys_show_where_they_are(
    row: FleetListRow,
    convoy: ConvoyRow,
    namespace: Seq<char>,
    host: Seq<char>,
    staleness: FleetStaleness,
)
    requires
        crewless_row(row, convoy, namespace, host, staleness),
    ensures
        row.host@ == host && row.namespace@ == namespace && row.staleness == staleness,
        opt(row.convoy_ref) == Some(convoy.record_name@),
        row.placement_decision == convoy.placement_decision,
        row.session is None && row.attention is None && row.authority is None,
        row.vessel@ == "-"@ && row.crew@ == "-"@,
        convoy.project_ref is None ==> row.convoy@ == convoy.name@,
        convoy.project_ref matches Some(project) ==> row.convoy@ == convoy.name@ + " @ "@ + project@,
        convoy.message is None ==> row.crew_state@ == convoy.phase@,
        (convoy.message matches Some(message) && message@.len() > 0 && !is_space(message@[0])) ==> row.crew_state@ == convoy.phase@ + ": "@
            + convoy.message->0@,
{
    if let Some(message) = convoy.message {
        if message@.len() > 0 && !is_space(message@[0]) {
            crate::text_laws::law_blank_texts_are_white(message@);
        }
    }
}

/// The last decision on a convoy of a namespace counts, and one on another
/// convoy or in another namespace never does.
pub proof fn law_decisions_are_of_their_convoy(decisions: Seq<ConvoyDecision>, next: ConvoyDecision, namespace: Seq<char>, convoy: Seq<char>)
    ensures
        decision_in(Seq::empty(), namespace, convoy) is None,
        next.namespace@ == namespace && next.convoy@ == convoy ==> decision_in(decisions.push(next), namespace, convoy) == Some(
            next.decision,
        ),
        next.namespace@ != namespace || next.convoy@ != convoy ==> decision_in(decisions.push(next), namespace, convoy) == decision_in(
            decisions,
            namespace,
            convoy,
        ),
{
    assert(decisions.push(next).drop_last() =~= decisions);
}

} // verus!
