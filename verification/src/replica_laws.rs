//! What holds of every copy of another host's fleet and of every list that is
//! made of them.
use vstd::prelude::*;

use crate::fleet::{FleetListRow, FleetReplicaCacheEntry, FleetStaleness};
use crate::replicas::{
    cached_rows, destination, failures_of, fetch_args, first_unreadable, listed_rows, listed_statuses, noted_list, readable_at,
    set_retained, snapshot_text, source_status, synced_entry, unreadable_count, FetchReply, FetchedSnapshot, FleetReplicaStatus,
    PeerFailures, RemoteHostConfig, ReplicaParseDiagnostics, ReplicaSource, ResultSetReading,
};
use crate::text::{holds, opt, trim};
use crate::time::{elapsed_secs, Timestamp};

verus! {

/// Whether a row is one of a copy, as old as the copy.
pub open spec fn copied_row(row: FleetListRow, kept: FleetListRow, entry: FleetReplicaCacheEntry, now: Timestamp) -> bool {
    &&& row == (FleetListRow { staleness: row.staleness, ..kept })
    &&& row.staleness is Unreachable <==> entry.last_error is Some || entry.last_sync is None
    &&& row.staleness is Stale <==> entry.last_error is None && (entry.last_sync matches Some(at) && elapsed_secs(now, at) > 90)
    &&& row.staleness is Fresh <==> entry.last_error is None && (entry.last_sync matches Some(at) && elapsed_secs(now, at) <= 90)
}

proof fn lemma_cached_sound(
    sources: Seq<ReplicaSource>,
    cache: Map<Seq<char>, FleetReplicaCacheEntry>,
    k: int,
) -> (found: (int, int))
    requires
        0 <= k < cached_rows(sources, cache).len(),
    ensures
        0 <= found.0 < sources.len(),
        cache.dom().contains(sources[found.0].host@),
        0 <= found.1 < cache[sources[found.0].host@].rows@.len(),
        cached_rows(sources, cache)[k] == (cache[sources[found.0].host@], cache[sources[found.0].host@].rows@[found.1]),
    decreases sources.len(),
{
    let front = sources.drop_last();
    let before = cached_rows(front, cache);
    if k < before.len() {
        let found = lemma_cached_sound(front, cache, k);
        assert(front[found.0] == sources[found.0]);
        assert(cached_rows(sources, cache)[k] == before[k]);
        found
    } else {
        (sources.len() - 1, k - before.len())
    }
}

proof fn lemma_cached_whole(
    sources: Seq<ReplicaSource>,
    cache: Map<Seq<char>, FleetReplicaCacheEntry>,
    s: int,
    r: int,
) -> (k: int)
    requires
        0 <= s < sources.len(),
        cache.dom().contains(sources[s].host@),
        0 <= r < cache[sources[s].host@].rows@.len(),
    ensures
        0 <= k < cached_rows(sources, cache).len(),
        cached_rows(sources, cache)[k] == (cache[sources[s].host@], cache[sources[s].host@].rows@[r]),
    decreases sources.len(),
{
    let front = sources.drop_last();
    let before = cached_rows(front, cache);
    if s < front.len() {
        assert(front[s] == sources[s]);
        let k = lemma_cached_whole(front, cache, s, r);
        assert(cached_rows(sources, cache)[k] == before[k]);
        k
    } else {
        before.len() + r
    }
}

/// The fleet lists the rows of this host, as they are, and behind them rows of
/// copies only: each from the copy of a source, and as old as the copy.
pub proof fn law_listed_rows_are_local_or_copied(
    rows: Seq<FleetListRow>,
    local: Seq<FleetListRow>,
    sources: Seq<ReplicaSource>,
    cache: Map<Seq<char>, FleetReplicaCacheEntry>,
    now: Timestamp,
    i: int,
)
    requires
        listed_rows(rows, local, sources, cache, now),
        0 <= i < rows.len(),
    ensures
        i < local.len() ==> rows[i] == local[i],
        i >= local.len() ==> exists|s: int, r: int|
            0 <= s < sources.len() && cache.dom().contains(sources[s].host@) && 0 <= r < cache[sources[s].host@].rows@.len()
                && #[trigger] copied_row(rows[i], cache[sources[s].host@].rows@[r], cache[sources[s].host@], now),
{
    if i < local.len() {
        assert(rows.take(local.len() as int)[i] == local[i]);
    } else {
        let k = i - local.len();
        let (s, r) = lemma_cached_sound(sources, cache, k);
        assert(crate::replicas::aged_row(rows[local.len() + k], cached_rows(sources, cache)[k], now));
        assert(copied_row(rows[i], cache[sources[s].host@].rows@[r], cache[sources[s].host@], now));
    }
}

/// Every row of the copy of every source is listed.
pub proof fn law_copied_rows_are_listed(
    rows: Seq<FleetListRow>,
    local: Seq<FleetListRow>,
    sources: Seq<ReplicaSource>,
    cache: Map<Seq<char>, FleetReplicaCacheEntry>,
    now: Timestamp,
    s: int,
    r: int,
)
    requires
        listed_rows(rows, local, sources, cache, now),
        0 <= s < sources.len(),
        cache.dom().contains(sources[s].host@),
        0 <= r < cache[sources[s].host@].rows@.len(),
    ensures
        exists|i: int|
            local.len() <= i < rows.len() && copied_row(
                #[trigger] rows[i],
                cache[sources[s].host@].rows@[r],
                cache[sources[s].host@],
                now,
            ),
{
    let k = lemma_cached_whole(sources, cache, s, r);
    assert(crate::replicas::aged_row(rows[local.len() + k], cached_rows(sources, cache)[k], now));
    assert(copied_row(rows[local.len() + k], cache[sources[s].host@].rows@[r], cache[sources[s].host@], now));
}

proof fn lemma_failures(peers: Seq<PeerFailures>, host: Seq<char>)
    ensures
        failures_of(peers, host).len() > 0 <==> exists|p: int|
            0 <= p < peers.len() && (#[trigger] peers[p]).host@ == host && peers[p].failures@.len() > 0,
    decreases peers.len(),
{
    if peers.len() > 0 {
        let front = peers.drop_last();
        lemma_failures(front, host);
        assert(peers[peers.len() - 1] == peers.last());
        if failures_of(front, host).len() > 0 {
            let p = choose|p: int| 0 <= p < front.len() && (#[trigger] front[p]).host@ == host && front[p].failures@.len() > 0;
            assert(peers[p] == front[p]);
        }
        if exists|p: int| 0 <= p < peers.len() && (#[trigger] peers[p]).host@ == host && peers[p].failures@.len() > 0 {
            let p = choose|p: int| 0 <= p < peers.len() && (#[trigger] peers[p]).host@ == host && peers[p].failures@.len() > 0;
            if p < front.len() {
                assert(front[p] == peers[p]);
            }
        }
    }
}

/// Each source has a status, under its host. It can be reached when there is
/// a copy of it that came through and nothing that it passes on failed; what
/// fails is told once, with the first source of the host.
pub proof fn law_sources_are_reached_when_all_came_through(
    statuses: Seq<FleetReplicaStatus>,
    sources: Seq<ReplicaSource>,
    cache: Map<Seq<char>, FleetReplicaCacheEntry>,
    peers: Seq<PeerFailures>,
    strays: Seq<Seq<char>>,
    i: int,
)
    requires
        listed_statuses(statuses, sources, cache, peers, strays),
        0 <= i < sources.len(),
        forall|j: int| 0 <= j < i ==> (#[trigger] sources[j]).host@ != sources[i].host@,
    ensures
        statuses.len() >= sources.len(),
        statuses[i].host@ == sources[i].host@,
        statuses[i].reachable <==> cache.dom().contains(sources[i].host@) && cache[sources[i].host@].last_error is None && forall|p: int|
            0 <= p < peers.len() && (#[trigger] peers[p]).host@ == sources[i].host@ ==> peers[p].failures@.len() == 0,
        statuses[i].reachable ==> statuses[i].message is None,
        !statuses[i].reachable ==> statuses[i].message is Some,
        cache.dom().contains(sources[i].host@) ==> statuses[i].last_sync == cache[sources[i].host@].last_sync && statuses[i].generation
            == cache[sources[i].host@].generation && statuses[i].skipped_records == cache[sources[i].host@].skipped_records,
{
    let failures = crate::replicas::source_failures(sources, peers, i);
    assert(source_status(statuses[i], sources[i], cache, failures));
    lemma_failures(peers, sources[i].host@);
}

/// A peer that is no source of a copy is listed where it passed something on,
/// and cannot be reached; every status is of a source or of such a peer.
pub proof fn law_strays_are_listed(
    statuses: Seq<FleetReplicaStatus>,
    sources: Seq<ReplicaSource>,
    cache: Map<Seq<char>, FleetReplicaCacheEntry>,
    peers: Seq<PeerFailures>,
    strays: Seq<Seq<char>>,
    p: int,
    k: int,
)
    requires
        listed_statuses(statuses, sources, cache, peers, strays),
    ensures
        0 <= p < peers.len() && (forall|j: int| 0 <= j < sources.len() ==> (#[trigger] sources[j]).host@ != peers[p].host@) ==> exists|i: int|
            sources.len() <= i < statuses.len() && (#[trigger] statuses[i]).host@ == peers[p].host@,
        sources.len() <= k < statuses.len() ==> !statuses[k].reachable && statuses[k].last_sync is None && exists|q: int|
            0 <= q < peers.len() && (#[trigger] peers[q]).host@ == statuses[k].host@,
{
    if 0 <= p < peers.len() && (forall|j: int| 0 <= j < sources.len() ==> (#[trigger] sources[j]).host@ != peers[p].host@) {
        assert(holds(strays, peers[p].host@));
        let i = choose|i: int| 0 <= i < strays.len() && #[trigger] strays[i] == peers[p].host@;
        assert(crate::replicas::stray_status(statuses[sources.len() + i], strays[i], peers));
    }
    if sources.len() <= k < statuses.len() {
        let i = k - sources.len();
        assert(crate::replicas::stray_status(statuses[sources.len() + i], strays[i], peers));
        assert(holds(strays, strays[i]));
    }
}

/// A copy that came through is from now, has no error and what the snapshot
/// had: every row of it, moved to the host that it came from and fresh.
pub proof fn law_copies_are_what_came_through(
    entry: FleetReplicaCacheEntry,
    snapshot: FetchedSnapshot,
    namespace: Seq<char>,
    now: Timestamp,
    i: int,
)
    requires
        synced_entry(entry, snapshot, namespace, now),
    ensures
        entry.last_sync == Some(now),
        entry.last_error is None,
        entry.result_sets == snapshot.result_sets,
        entry.generation == snapshot.generation,
        entry.skipped_records == snapshot.skipped_records,
        entry.first_parse_error == snapshot.first_error,
        entry.rows@.len() >= snapshot.rows@.len(),
        0 <= i < snapshot.rows@.len() ==> entry.rows@[i].host@ == snapshot.host@ && entry.rows@[i].staleness == (FleetStaleness::Fresh {
            last_sync: now,
        }) && entry.rows@[i].convoy == snapshot.rows@[i].convoy && entry.rows@[i].session == snapshot.rows@[i].session
            && entry.rows@[i].crew == snapshot.rows@[i].crew && entry.rows@[i].crew_state == snapshot.rows@[i].crew_state
            && entry.rows@[i].namespace == snapshot.rows@[i].namespace && entry.rows@[i].convoy_ref == snapshot.rows@[i].convoy_ref
            && entry.rows@[i].vessel == snapshot.rows@[i].vessel && entry.rows@[i].authority == snapshot.rows@[i].authority
            && entry.rows@[i].attention == snapshot.rows@[i].attention && entry.rows@[i].placement_decision
            == snapshot.rows@[i].placement_decision,
        snapshot.rows@.len() <= i < entry.rows@.len() ==> entry.rows@[i].host@ == snapshot.host@ && entry.rows@[i].session is None
            && entry.rows@[i].namespace@ == namespace,
{
    if 0 <= i < snapshot.rows@.len() {
        assert(crate::replicas::adopted_row(entry.rows@[i], snapshot.rows@[i], snapshot.host@, now));
    }
    if snapshot.rows@.len() <= i < entry.rows@.len() {
        let n = snapshot.rows@.len();
        let k = i - n;
        assert(entry.rows@[n + k] == entry.rows@[i]);
    }
}

proof fn lemma_readable(errors: Seq<Option<String>>)
    ensures
        readable_at(errors).len() + unreadable_count(errors) == errors.len(),
        forall|k: int| 0 <= k < readable_at(errors).len() ==> 0 <= #[trigger] readable_at(errors)[k] < errors.len() && errors[readable_at(
            errors,
        )[k]] is None,
        forall|j: int, k: int| 0 <= j < k < readable_at(errors).len() ==> #[trigger] readable_at(errors)[j] < #[trigger] readable_at(errors)[k],
    decreases errors.len(),
{
    if errors.len() > 0 {
        let front = errors.drop_last();
        lemma_readable(front);
        let before = readable_at(front);
        let all = readable_at(errors);
        assert(forall|k: int| 0 <= k < before.len() ==> #[trigger] all[k] == before[k]);
        assert(forall|i: int| 0 <= i < front.len() ==> #[trigger] front[i] == errors[i]);
        assert forall|k: int| 0 <= k < all.len() implies 0 <= #[trigger] all[k] < errors.len() && errors[all[k]] is None by {
            if k < before.len() {
                assert(front[before[k]] is None);
            }
        }
        assert forall|j: int, k: int| 0 <= j < k < all.len() implies #[trigger] all[j] < #[trigger] all[k] by {
            if k < before.len() {
                assert(before[j] < before[k]);
            } else {
                assert(before[j] < front.len());
            }
        }
    }
}

proof fn lemma_readable_whole(errors: Seq<Option<String>>, i: int) -> (k: int)
    requires
        0 <= i < errors.len(),
        errors[i] is None,
    ensures
        0 <= k < readable_at(errors).len(),
        readable_at(errors)[k] == i,
    decreases errors.len(),
{
    let front = errors.drop_last();
    if i < front.len() {
        assert(front[i] == errors[i]);
        lemma_readable_whole(front, i)
    } else {
        readable_at(front).len() as int
    }
}

/// Exactly the records that can be read are kept, in their order, and each of
/// the others counts as one that was left out.
pub proof fn law_readable_records_are_kept(errors: Seq<Option<String>>, i: int)
    ensures
        readable_at(errors).len() + unreadable_count(errors) == errors.len(),
        forall|k: int| 0 <= k < readable_at(errors).len() ==> 0 <= #[trigger] readable_at(errors)[k] < errors.len() && errors[readable_at(
            errors,
        )[k]] is None,
        forall|j: int, k: int| 0 <= j < k < readable_at(errors).len() ==> #[trigger] readable_at(errors)[j] < #[trigger] readable_at(errors)[k],
        0 <= i < errors.len() && errors[i] is None ==> exists|k: int| 0 <= k < readable_at(errors).len() && #[trigger] readable_at(errors)[k] == i,
{
    lemma_readable(errors);
    if 0 <= i < errors.len() && errors[i] is None {
        let k = lemma_readable_whole(errors, i);
    }
}

proof fn lemma_first_unreadable(errors: Seq<Option<String>>)
    ensures
        0 <= first_unreadable(errors) <= errors.len(),
        first_unreadable(errors) < errors.len() ==> errors[first_unreadable(errors)] is Some,
        forall|i: int| 0 <= i < first_unreadable(errors) ==> #[trigger] errors[i] is None,
    decreases errors.len(),
{
    if errors.len() > 0 && errors[0] is None {
        let rest = errors.drop_first();
        lemma_first_unreadable(rest);
        assert forall|i: int| 0 <= i < first_unreadable(errors) implies #[trigger] errors[i] is None by {
            if i > 0 {
                assert(rest[i - 1] == errors[i]);
            }
        }
    }
}

/// The first error that was met stays the one that is told: reading on never
/// replaces it, and reading on without an error adds none.
pub proof fn law_the_first_error_is_told(
    after: ReplicaParseDiagnostics,
    before: ReplicaParseDiagnostics,
    list: Seq<char>,
    errors: Seq<Option<String>>,
)
    requires
        noted_list(after, before, list, errors),
    ensures
        before.first_error is Some ==> opt(after.first_error) == opt(before.first_error),
        after.skipped_records >= before.skipped_records,
        (forall|i: int| 0 <= i < errors.len() ==> #[trigger] errors[i] is None) ==> opt(after.first_error) == opt(before.first_error)
            && after.skipped_records == before.skipped_records,
        (exists|i: int| 0 <= i < errors.len() && #[trigger] errors[i] is Some) ==> after.first_error is Some && after.skipped_records
            > before.skipped_records,
{
    lemma_first_unreadable(errors);
    lemma_readable(errors);
    if forall|i: int| 0 <= i < errors.len() ==> #[trigger] errors[i] is None {
        lemma_all_readable(errors);
    }
    if exists|i: int| 0 <= i < errors.len() && #[trigger] errors[i] is Some {
        let i = choose|i: int| 0 <= i < errors.len() && #[trigger] errors[i] is Some;
        lemma_some_unreadable(errors, i);
    }
}

proof fn lemma_all_readable(errors: Seq<Option<String>>)
    requires
        forall|i: int| 0 <= i < errors.len() ==> #[trigger] errors[i] is None,
    ensures
        unreadable_count(errors) == 0,
    decreases errors.len(),
{
    if errors.len() > 0 {
        let front = errors.drop_last();
        assert forall|i: int| 0 <= i < front.len() implies #[trigger] front[i] is None by {
            assert(front[i] == errors[i]);
        }
        lemma_all_readable(front);
        assert(errors[errors.len() - 1] is None);
    }
}

proof fn lemma_some_unreadable(errors: Seq<Option<String>>, i: int)
    requires
        0 <= i < errors.len(),
        errors[i] is Some,
    ensures
        unreadable_count(errors) > 0,
    decreases errors.len(),
{
    if i < errors.len() - 1 {
        assert(errors.drop_last()[i] == errors[i]);
        lemma_some_unreadable(errors.drop_last(), i);
    }
}

/// A result set that cannot be read is left out whole, and counts as all that
/// it holds; one that can be read keeps the rows of it that can.
pub proof fn law_unreadable_result_sets_are_left_out(
    r: Option<Vec<usize>>,
    after: ReplicaParseDiagnostics,
    before: ReplicaParseDiagnostics,
    index: int,
    reading: ResultSetReading,
)
    requires
        set_retained(r, after, before, index, reading),
    ensures
        r is None <==> (match reading {
            ResultSetReading::NoRows { error } => error is Some,
            ResultSetReading::Rows { error, row_errors } => error is Some,
        }),
        r is None ==> after.first_error is Some && after.skipped_records > before.skipped_records,
        before.first_error is Some ==> opt(after.first_error) == opt(before.first_error),
        (reading matches ResultSetReading::Rows { error, row_errors } && error is Some && row_errors@.len() > 0) ==> after.skipped_records
            == before.skipped_records + reading->row_errors@.len(),
        (reading matches ResultSetReading::Rows { error, row_errors } && error is None) ==> (r matches Some(rows) && rows@.len()
            + after.skipped_records == reading->row_errors@.len() + before.skipped_records && forall|k: int|
            0 <= k < rows@.len() ==> 0 <= #[trigger] rows@[k] < reading->row_errors@.len() && reading->row_errors@[rows@[k] as int] is None),
{
    if reading is Rows {
        let errors = reading->row_errors@;
        lemma_readable(errors);
        lemma_first_unreadable(errors);
        if reading->Rows_error is None {
            let rows = r->0@;
            assert forall|k: int| 0 <= k < rows.len() implies 0 <= #[trigger] rows[k] < errors.len() && errors[rows[k] as int] is None by {
                assert(rows[k] == readable_at(errors)[k]);
            }
        }
    }
}

/// A host is reached under its name, as the user that is set where one is.
pub proof fn law_remote_hosts_are_reached_by_name(remote: RemoteHostConfig)
    ensures
        remote.user is None ==> destination(remote) == remote.hostname@,
        remote.user matches Some(user) ==> destination(remote) == (if user@.len() == 0 {
            remote.hostname@
        } else {
            user@ + "@"@ + remote.hostname@
        }),
{
}

/// A snapshot is fetched by a command that is run on the host and nowhere
/// else, without asking anything, within two seconds, and over a shared
/// connection where that is wanted and only there.
pub proof fn law_snapshots_are_fetched_without_questions(remote: RemoteHostConfig, multiplex: bool, command: Seq<char>)
    ensures
        ({
            let args = fetch_args(remote, multiplex, command);
            &&& args.len() == (if multiplex {
                15int
            } else {
                9
            })
            &&& args.last() == command
            &&& args[args.len() - 2] == destination(remote)
            &&& args[0] == "-T"@
            &&& args[1] == "-o"@ && args[2] == "BatchMode=yes"@
            &&& args[3] == "-o"@ && args[4] == "ConnectTimeout=2"@
            &&& args[5] == "-o"@ && args[6] == "ConnectionAttempts=1"@
            &&& multiplex ==> args[7] == "-o"@ && args[8] == "ControlMaster=auto"@
        }),
{
}

/// A snapshot was fetched when the command ended well, and is what it printed
/// without the space around it; whatever else happened is an error.
pub proof fn law_snapshots_need_a_command_that_ended_well(reply: FetchReply)
    ensures
        snapshot_text(reply) is Ok <==> (reply matches FetchReply::Finished { success, .. } && success),
        (reply matches FetchReply::Finished { success, .. } && success) ==> snapshot_text(reply) == Ok::<Seq<char>, Seq<char>>(
            trim(reply->stdout@),
        ),
{
}

} // verus!
