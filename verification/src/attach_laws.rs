//! What holds of every target that one attaches to, of the way to it and of
//! where a convoy that is there already is at home.
use std::sync::Arc;

use vstd::prelude::*;

use crate::address::{lemma_picked, LiveConvoyRecord};
use crate::attach::{
    attach_origins, candidate_of, candidates_of, checkout_origins, exact_matches, independent_row, live_addresses, local_sessions, named,
    occurrences, on_host, one, prefix_matches, replica_origins, replicated_origins, replicated_row, row_counts, selected,
    session_origins, session_references, some_starts, AttachCache, AttachCandidate, AttachInput, AttachTarget, CheckoutRow,
    DurableSession, IndependentRow, LiveConvoy, Origin, SessionHome,
};
use crate::attach_route::{
    binds_row, owning_host, remote_command, routed, step_for, AttachBinding, AttachMode, AttachRoute, AttachStep, EnvironmentLookup,
};
use crate::commands::CommandAction;
use crate::fleet::FleetListRow;
use crate::model::{ConvoyPhase, CrewLabels, PlacementTargetHost, SessionPhase, TerminalSession};
use crate::ordered::{lemma_sorted_unique_exists, sorted_unique};
use crate::targets::{
    home_found, hosts_at, identities_at, lemma_rows_in, rows_in, subject_convoy, target_at, ExistingConvoyTarget, HomeReading, TargetRow,
};
use crate::text::{holds, is_space, opt, starts, strs};
use crate::text_laws::law_blank_texts_are_white;
use crate::time::Timestamp;

verus! {

/// Whether a candidate goes by exactly this reference.
pub open spec fn goes_by(candidate: AttachCandidate, reference: Seq<char>) -> bool {
    exists|k: int| 0 <= k < candidate.references@.len() && (#[trigger] candidate.references@[k])@ == reference
}

/// Whether some reference of a candidate begins with this text.
pub open spec fn begins_with(candidate: AttachCandidate, text: Seq<char>) -> bool {
    exists|k: int|
        0 <= k < candidate.references@.len() && (#[trigger] candidate.references@[k])@.len() >= text.len()
            && candidate.references@[k]@.take(text.len() as int) == text
}

proof fn lemma_occurrences(list: Seq<String>, s: Seq<char>, i: int)
    ensures
        forall|k: int| 0 <= k < occurrences(strs(list), s, i).len() ==> #[trigger] occurrences(strs(list), s, i)[k] == i,
        occurrences(strs(list), s, i).len() > 0 <==> exists|k: int| 0 <= k < list.len() && (#[trigger] list[k])@ == s,
    decreases list.len(),
{
    if list.len() > 0 {
        let front = list.drop_last();
        lemma_occurrences(front, s, i);
        assert(strs(list).drop_last() == strs(front));
        assert(strs(list).last() == list.last()@);
        if exists|k: int| 0 <= k < list.len() && (#[trigger] list[k])@ == s {
            let k = choose|k: int| 0 <= k < list.len() && (#[trigger] list[k])@ == s;
            if k < front.len() {
                assert(front[k]@ == s);
            }
        }
        if exists|k: int| 0 <= k < front.len() && (#[trigger] front[k])@ == s {
            let k = choose|k: int| 0 <= k < front.len() && (#[trigger] front[k])@ == s;
            assert(list[k]@ == s);
        }
        if list.last()@ == s {
            assert(list[list.len() - 1]@ == s);
        }
    }
}

proof fn lemma_exact_sound(candidates: Seq<AttachCandidate>, reference: Seq<char>, n: int, k: int)
    requires
        0 <= n <= candidates.len(),
        0 <= k < exact_matches(candidates, reference, n).len(),
    ensures
        0 <= exact_matches(candidates, reference, n)[k] < n,
        goes_by(candidates[exact_matches(candidates, reference, n)[k]], reference),
    decreases n,
{
    let before = exact_matches(candidates, reference, n - 1);
    lemma_occurrences(candidates[n - 1].references@, reference, n - 1);
    if k < before.len() {
        lemma_exact_sound(candidates, reference, n - 1, k);
    } else {
        let own = occurrences(strs(candidates[n - 1].references@), reference, n - 1);
        assert(own[k - before.len()] == n - 1);
    }
}

proof fn lemma_exact_whole(candidates: Seq<AttachCandidate>, reference: Seq<char>, n: int, i: int) -> (k: int)
    requires
        0 <= i < n <= candidates.len(),
        goes_by(candidates[i], reference),
    ensures
        0 <= k < exact_matches(candidates, reference, n).len(),
        exact_matches(candidates, reference, n)[k] == i,
    decreases n,
{
    let before = exact_matches(candidates, reference, n - 1);
    if i < n - 1 {
        lemma_exact_whole(candidates, reference, n - 1, i)
    } else {
        lemma_occurrences(candidates[n - 1].references@, reference, n - 1);
        let own = occurrences(strs(candidates[n - 1].references@), reference, n - 1);
        assert(own[0] == n - 1);
        before.len() as int
    }
}

proof fn lemma_begins(candidate: AttachCandidate, reference: Seq<char>)
    ensures
        some_starts(strs(candidate.references@), reference) <==> begins_with(candidate, reference),
{
    let list = strs(candidate.references@);
    if some_starts(list, reference) {
        let k = choose|k: int| 0 <= k < list.len() && starts(#[trigger] list[k], reference);
        assert(candidate.references@[k]@.take(reference.len() as int) == reference);
    }
    if begins_with(candidate, reference) {
        let k = choose|k: int|
            0 <= k < candidate.references@.len() && (#[trigger] candidate.references@[k])@.len() >= reference.len()
                && candidate.references@[k]@.take(reference.len() as int) == reference;
        assert(starts(list[k], reference));
    }
}

proof fn lemma_on_host_sound(candidates: Seq<AttachCandidate>, at: Seq<int>, host: Option<Seq<char>>, k: int) -> (j: int)
    requires
        0 <= k < on_host(candidates, at, host).len(),
    ensures
        0 <= j < at.len(),
        on_host(candidates, at, host)[k] == at[j],
        host is None || candidates[at[j]].host@ == host->0,
    decreases at.len(),
{
    let before = on_host(candidates, at.drop_last(), host);
    if k < before.len() {
        let j = lemma_on_host_sound(candidates, at.drop_last(), host, k);
        assert(at.drop_last()[j] == at[j]);
        j
    } else {
        at.len() - 1
    }
}

proof fn lemma_on_host_whole(candidates: Seq<AttachCandidate>, at: Seq<int>, host: Option<Seq<char>>, j: int) -> (k: int)
    requires
        0 <= j < at.len(),
        host is None || candidates[at[j]].host@ == host->0,
    ensures
        0 <= k < on_host(candidates, at, host).len(),
        on_host(candidates, at, host)[k] == at[j],
    decreases at.len(),
{
    let before = on_host(candidates, at.drop_last(), host);
    if j < at.len() - 1 {
        assert(at.drop_last()[j] == at[j]);
        lemma_on_host_whole(candidates, at.drop_last(), host, j)
    } else {
        before.len() as int
    }
}

/// Whether a reference means a candidate: it goes by it, or, where nobody
/// does, one of its own begins with it.
pub open spec fn meant(candidates: Seq<AttachCandidate>, reference: Seq<char>, i: int) -> bool {
    if exists|j: int| 0 <= j < candidates.len() && goes_by(#[trigger] candidates[j], reference) {
        goes_by(candidates[i], reference)
    } else {
        begins_with(candidates[i], reference)
    }
}

proof fn lemma_named(candidates: Seq<AttachCandidate>, reference: Seq<char>)
    ensures
        forall|k: int|
            0 <= k < named(candidates, reference).len() ==> 0 <= #[trigger] named(candidates, reference)[k] < candidates.len() && meant(
                candidates,
                reference,
                named(candidates, reference)[k],
            ),
{
    let n = candidates.len() as int;
    let exact = exact_matches(candidates, reference, n);
    let p = |i: int| some_starts(strs(candidates[i].references@), reference);
    lemma_picked(n, p);
    if exact.len() > 0 {
        lemma_exact_sound(candidates, reference, n, 0);
    } else if exists|j: int| 0 <= j < candidates.len() && goes_by(#[trigger] candidates[j], reference) {
        let j = choose|j: int| 0 <= j < candidates.len() && goes_by(#[trigger] candidates[j], reference);
        let k = lemma_exact_whole(candidates, reference, n, j);
    }
    assert forall|k: int| 0 <= k < named(candidates, reference).len() implies 0 <= #[trigger] named(candidates, reference)[k]
        < candidates.len() && meant(candidates, reference, named(candidates, reference)[k]) by {
        if exact.len() > 0 {
            lemma_exact_sound(candidates, reference, n, k);
        } else {
            lemma_begins(candidates[prefix_matches(candidates, reference)[k]], reference);
        }
    }
}

proof fn lemma_meant(candidates: Seq<AttachCandidate>, reference: Seq<char>, i: int) -> (k: int)
    requires
        0 <= i < candidates.len(),
        meant(candidates, reference, i),
    ensures
        0 <= k < named(candidates, reference).len(),
        named(candidates, reference)[k] == i,
{
    let n = candidates.len() as int;
    let exact = exact_matches(candidates, reference, n);
    if exists|j: int| 0 <= j < candidates.len() && goes_by(#[trigger] candidates[j], reference) {
        lemma_exact_whole(candidates, reference, n, i)
    } else {
        if exact.len() > 0 {
            lemma_exact_sound(candidates, reference, n, 0);
        }
        let p = |i: int| some_starts(strs(candidates[i].references@), reference);
        lemma_picked(n, p);
        lemma_begins(candidates[i], reference);
        assert(p(i));
        assert(prefix_matches(candidates, reference).contains(i));
        choose|k: int| 0 <= k < named(candidates, reference).len() && named(candidates, reference)[k] == i
    }
}

/// The target that is selected is the only one that the reference means, on
/// the host that was named where one was.
pub proof fn law_the_target_that_is_meant_is_selected(
    candidates: Seq<AttachCandidate>,
    reference: Seq<char>,
    host: Option<Seq<char>>,
    at: int,
)
    requires
        selected(candidates, reference, host) == Ok::<int, Seq<char>>(at),
    ensures
        0 <= at < candidates.len(),
        meant(candidates, reference, at),
        host matches Some(h) ==> candidates[at].host@ == h,
        forall|i: int|
            0 <= i < candidates.len() && meant(candidates, reference, i) && (host matches Some(h) ==> (#[trigger] candidates[i]).host@
                == h) ==> i == at,
{
    let all = named(candidates, reference);
    let found = on_host(candidates, all, host);
    lemma_named(candidates, reference);
    let j = lemma_on_host_sound(candidates, all, host, 0);
    assert(all[j] == at);
    assert forall|i: int|
        0 <= i < candidates.len() && meant(candidates, reference, i) && (host matches Some(h) ==> (#[trigger] candidates[i]).host@
            == h) implies i == at by {
        let m = lemma_meant(candidates, reference, i);
        let k = lemma_on_host_whole(candidates, all, host, m);
        assert(found[k] == i);
    }
}

/// A reference that means somebody on the host in question, or anybody where
/// no host is named, is answered with a target or as ambiguous; one that
/// means nobody, or says nothing, is refused.
pub proof fn law_references_without_a_target_are_refused(candidates: Seq<AttachCandidate>, reference: Seq<char>, host: Option<Seq<char>>)
    requires
        forall|i: int|
            0 <= i < candidates.len() && (host matches Some(h) ==> (#[trigger] candidates[i]).host@ == h) ==> !meant(
                candidates,
                reference,
                i,
            ),
    ensures
        selected(candidates, reference, host) is Err,
{
    let all = named(candidates, reference);
    let found = on_host(candidates, all, host);
    lemma_named(candidates, reference);
    if found.len() > 0 {
        let j = lemma_on_host_sound(candidates, all, host, 0);
        assert(meant(candidates, reference, all[j]));
        let h = candidates[all[j]].host@;
    }
}

/// The addresses under which convoys are found are those of the convoys that
/// have not ended, the last of a name.
pub proof fn law_ended_convoys_have_no_address(convoys: Seq<LiveConvoy>, name: Seq<char>)
    ensures
        live_addresses(convoys).dom().contains(name) <==> exists|i: int|
            0 <= i < convoys.len() && (#[trigger] convoys[i]).name@ == name && convoys[i].phase != Some(ConvoyPhase::Landed)
                && convoys[i].phase != Some(ConvoyPhase::Failed) && convoys[i].phase != Some(ConvoyPhase::Cancelled)
                && convoys[i].phase != Some(ConvoyPhase::Abandoned),
        live_addresses(convoys).dom().contains(name) ==> exists|i: int|
            0 <= i < convoys.len() && (#[trigger] convoys[i]).name@ == name && live_addresses(convoys)[name] == (
            match convoys[i].project_ref {
                Some(project) => convoys[i].role@ + "@"@ + project@,
                None => convoys[i].role@,
            }),
    decreases convoys.len(),
{
    if convoys.len() > 0 {
        let front = convoys.drop_last();
        law_ended_convoys_have_no_address(front, name);
        let n = convoys.len() - 1;
        assert(convoys[n] == convoys.last());
        let open = |c: LiveConvoy|
            c.phase != Some(ConvoyPhase::Landed) && c.phase != Some(ConvoyPhase::Failed) && c.phase != Some(ConvoyPhase::Cancelled)
                && c.phase != Some(ConvoyPhase::Abandoned);
        if live_addresses(front).dom().contains(name) {
            let i = choose|i: int| 0 <= i < front.len() && (#[trigger] front[i]).name@ == name && open(front[i]);
            assert(convoys[i] == front[i]);
            let k = choose|i: int|
                0 <= i < front.len() && (#[trigger] front[i]).name@ == name && live_addresses(front)[name] == (
                match front[i].project_ref {
                    Some(project) => front[i].role@ + "@"@ + project@,
                    None => front[i].role@,
                });
            assert(convoys[k] == front[k]);
        }
        if exists|i: int| 0 <= i < convoys.len() && (#[trigger] convoys[i]).name@ == name && open(convoys[i]) {
            let i = choose|i: int| 0 <= i < convoys.len() && (#[trigger] convoys[i]).name@ == name && open(convoys[i]);
            if i < n {
                assert(front[i] == convoys[i]);
            }
        }
    }
}

/// Whether a session is running.
pub open spec fn is_running(s: TerminalSession) -> bool {
    s.status matches Some(status) && status.phase == SessionPhase::Running
}

/// Whether a session is one of this host: it was seen here, or is kept here.
pub open spec fn is_here(input: AttachInput, s: Arc<TerminalSession>) -> bool {
    ||| exists|o: int| 0 <= o < input.observed@.len() && #[trigger] input.observed@[o] == s
    ||| exists|d: int| 0 <= d < input.durable@.len() && (#[trigger] input.durable@[d]).session == s && input.durable@[d].home is Local
}

proof fn lemma_local_sessions(durable: Seq<DurableSession>, observed: Seq<Arc<TerminalSession>>, name: Seq<char>)
    requires
        local_sessions(durable, observed).dom().contains(name),
    ensures
        local_sessions(durable, observed)[name].name@ == name,
        (exists|o: int| 0 <= o < observed.len() && #[trigger] observed[o] == local_sessions(durable, observed)[name]) || (exists|d: int|
            0 <= d < durable.len() && (#[trigger] durable[d]).session == local_sessions(durable, observed)[name]
                && durable[d].home is Local),
    decreases durable.len() + observed.len(),
{
    let s = local_sessions(durable, observed)[name];
    if observed.len() > 0 {
        if observed.last().name@ == name {
            assert(observed[observed.len() - 1] == s);
        } else {
            let front = observed.drop_last();
            lemma_local_sessions(durable, front, name);
            if exists|o: int| 0 <= o < front.len() && #[trigger] front[o] == s {
                let o = choose|o: int| 0 <= o < front.len() && #[trigger] front[o] == s;
                assert(observed[o] == s);
            }
        }
    } else if durable.len() > 0 {
        let front = durable.drop_last();
        if durable.last().home is Local && durable.last().session.name@ == name {
            assert(durable[durable.len() - 1].session == s);
        } else {
            lemma_local_sessions(front, observed, name);
            let d = choose|d: int| 0 <= d < front.len() && (#[trigger] front[d]).session == s && front[d].home is Local;
            assert(durable[d] == front[d]);
        }
    }
}

proof fn lemma_last_seen(durable: Seq<DurableSession>, observed: Seq<Arc<TerminalSession>>, o: int)
    requires
        0 <= o < observed.len(),
        forall|p: int| o < p < observed.len() ==> (#[trigger] observed[p]).name@ != observed[o].name@,
    ensures
        local_sessions(durable, observed).dom().contains(observed[o].name@),
        local_sessions(durable, observed)[observed[o].name@] == observed[o],
    decreases observed.len(),
{
    if o < observed.len() - 1 {
        let front = observed.drop_last();
        assert(front[o] == observed[o]);
        assert forall|p: int| o < p < front.len() implies (#[trigger] front[p]).name@ != front[o].name@ by {
            assert(front[p] == observed[p]);
        }
        lemma_last_seen(durable, front, o);
        assert(observed[observed.len() - 1].name@ != observed[o].name@);
    }
}

proof fn lemma_session_origin(names: Seq<Seq<char>>, sessions: Map<Seq<char>, Arc<TerminalSession>>, n: int, k: int) -> (i: int)
    requires
        0 <= n <= names.len(),
        0 <= k < session_origins(names, sessions, n).len(),
    ensures
        0 <= i < names.len(),
        session_origins(names, sessions, n)[k] == Origin::Session(sessions[names[i]]),
        is_running(*sessions[names[i]]),
    decreases n,
{
    let before = session_origins(names, sessions, n - 1);
    if k < before.len() {
        lemma_session_origin(names, sessions, n - 1, k)
    } else {
        n - 1
    }
}

proof fn lemma_session_offered(names: Seq<Seq<char>>, sessions: Map<Seq<char>, Arc<TerminalSession>>, n: int, i: int) -> (k: int)
    requires
        0 <= i < n <= names.len(),
        is_running(*sessions[names[i]]),
    ensures
        0 <= k < session_origins(names, sessions, n).len(),
        session_origins(names, sessions, n)[k] == Origin::Session(sessions[names[i]]),
    decreases n,
{
    let before = session_origins(names, sessions, n - 1);
    if i < n - 1 {
        lemma_session_offered(names, sessions, n - 1, i)
    } else {
        before.len() as int
    }
}

proof fn lemma_replicated_origin(durable: Seq<DurableSession>, k: int) -> (d: int)
    requires
        0 <= k < replicated_origins(durable).len(),
    ensures
        0 <= d < durable.len(),
        durable[d].home matches SessionHome::Replica(Some(host)) && replicated_origins(durable)[k] == Origin::Replicated(
            durable[d].session,
            host@,
        ),
        is_running(*durable[d].session),
    decreases durable.len(),
{
    let before = replicated_origins(durable.drop_last());
    if k < before.len() {
        let d = lemma_replicated_origin(durable.drop_last(), k);
        assert(durable.drop_last()[d] == durable[d]);
        d
    } else {
        durable.len() - 1
    }
}

proof fn lemma_replicated_offered(durable: Seq<DurableSession>, d: int, host: Seq<char>) -> (k: int)
    requires
        0 <= d < durable.len(),
        durable[d].home matches SessionHome::Replica(Some(h)) && h@ == host,
        is_running(*durable[d].session),
    ensures
        0 <= k < replicated_origins(durable).len(),
        replicated_origins(durable)[k] == Origin::Replicated(durable[d].session, host),
    decreases durable.len(),
{
    let before = replicated_origins(durable.drop_last());
    if d < durable.len() - 1 {
        assert(durable.drop_last()[d] == durable[d]);
        lemma_replicated_offered(durable.drop_last(), d, host)
    } else {
        before.len() as int
    }
}

proof fn lemma_checkout_origin(checkouts: Seq<CheckoutRow>, k: int) -> (c: int)
    requires
        0 <= k < checkout_origins(checkouts).len(),
    ensures
        0 <= c < checkouts.len(),
        checkouts[c].for_convoy is None,
        checkout_origins(checkouts)[k] == Origin::Checkout(checkouts[c]),
    decreases checkouts.len(),
{
    let before = checkout_origins(checkouts.drop_last());
    if k < before.len() {
        let c = lemma_checkout_origin(checkouts.drop_last(), k);
        assert(checkouts.drop_last()[c] == checkouts[c]);
        c
    } else {
        checkouts.len() - 1
    }
}

proof fn lemma_checkout_offered(checkouts: Seq<CheckoutRow>, c: int) -> (k: int)
    requires
        0 <= c < checkouts.len(),
        checkouts[c].for_convoy is None,
    ensures
        0 <= k < checkout_origins(checkouts).len(),
        checkout_origins(checkouts)[k] == Origin::Checkout(checkouts[c]),
    decreases checkouts.len(),
{
    let before = checkout_origins(checkouts.drop_last());
    if c < checkouts.len() - 1 {
        assert(checkouts.drop_last()[c] == checkouts[c]);
        lemma_checkout_offered(checkouts.drop_last(), c)
    } else {
        before.len() as int
    }
}

spec fn from_a_replica(o: Origin) -> bool {
    match o {
        Origin::Cached(row) => row.crew_state@ == "running"@,
        Origin::Independent(row, _) => row.running && !row.scoped && row.attach is Some,
        _ => false,
    }
}

proof fn lemma_cached(durable: Seq<DurableSession>, cache: crate::attach::AttachCache, n: int, k: int)
    requires
        0 <= k < crate::attach::cached_origins(durable, cache, n).len(),
    ensures
        from_a_replica(crate::attach::cached_origins(durable, cache, n)[k]),
    decreases n,
{
    if k < crate::attach::cached_origins(durable, cache, n - 1).len() {
        lemma_cached(durable, cache, n - 1, k);
    }
}

proof fn lemma_independent(durable: Seq<DurableSession>, cache: crate::attach::AttachCache, host: Seq<char>, n: int, k: int)
    requires
        0 <= k < crate::attach::independent_origins(durable, cache, host, n).len(),
    ensures
        from_a_replica(crate::attach::independent_origins(durable, cache, host, n)[k]),
    decreases n,
{
    if k < crate::attach::independent_origins(durable, cache, host, n - 1).len() {
        lemma_independent(durable, cache, host, n - 1, k);
    }
}

proof fn lemma_replica_origin(
    durable: Seq<DurableSession>,
    hosts: Seq<Seq<char>>,
    replicas: Map<Seq<char>, crate::attach::AttachCache>,
    k: int,
)
    requires
        0 <= k < replica_origins(durable, hosts, replicas).len(),
    ensures
        from_a_replica(replica_origins(durable, hosts, replicas)[k]),
    decreases hosts.len(),
{
    let before = replica_origins(durable, hosts.drop_last(), replicas);
    if k < before.len() {
        lemma_replica_origin(durable, hosts.drop_last(), replicas, k);
        assert(replica_origins(durable, hosts, replicas)[k] == before[k]);
    } else {
        let cache = replicas[hosts.last()];
        let cached = crate::attach::cached_origins(durable, cache, cache.rows@.len() as int);
        if k < before.len() + cached.len() {
            lemma_cached(durable, cache, cache.rows@.len() as int, k - before.len());
        } else {
            lemma_independent(
                durable,
                cache,
                hosts.last(),
                cache.independents@.len() as int,
                k - before.len() - cached.len(),
            );
        }
    }
}

/// Only what runs is offered: sessions of this host as local targets, under
/// this host; checkouts that no convoy has, under theirs; and sessions of
/// other hosts, under theirs.
pub proof fn law_offered_targets_are_there(input: AttachInput, names: Seq<Seq<char>>, list: Seq<AttachCandidate>, i: int)
    requires
        forall|n: Seq<char>| #[trigger] holds(names, n) <==> local_sessions(input.durable@, input.observed@).dom().contains(n),
        candidates_of(list, attach_origins(input, names), live_addresses(input.convoys@), input.host_name@),
        0 <= i < list.len(),
    ensures
        match list[i].target {
            AttachTarget::Local(s) => is_running(*s) && is_here(input, s) && list[i].host@ == input.host_name@,
            AttachTarget::Checkout(row) => row.for_convoy is None && input.checkouts@.contains(row) && list[i].host@ == row.host@,
            AttachTarget::Replica(row) => row.crew_state@ == "running"@ && list[i].host@ == row.host@,
        },
{
    let origins = attach_origins(input, names);
    let sessions = local_sessions(input.durable@, input.observed@);
    let a = session_origins(names, sessions, names.len() as int);
    let b = replicated_origins(input.durable@);
    let c = checkout_origins(input.checkouts@);
    let d = replica_origins(input.durable@, strs(input.replica_hosts@), input.replicas@);
    assert(origins == a + b + c + d);
    assert(candidate_of(list[i], origins[i], live_addresses(input.convoys@), input.host_name@));
    if i < a.len() {
        let n = lemma_session_origin(names, sessions, names.len() as int, i);
        assert(origins[i] == a[i]);
        assert(holds(names, names[n]));
        lemma_local_sessions(input.durable@, input.observed@, names[n]);
    } else if i < a.len() + b.len() {
        let n = lemma_replicated_origin(input.durable@, i - a.len());
        assert(origins[i] == b[i - a.len()]);
    } else if i < a.len() + b.len() + c.len() {
        let n = lemma_checkout_origin(input.checkouts@, i - a.len() - b.len());
        assert(origins[i] == c[i - a.len() - b.len()]);
    } else {
        lemma_replica_origin(input.durable@, strs(input.replica_hosts@), input.replicas@, i - a.len() - b.len() - c.len());
        assert(origins[i] == d[i - a.len() - b.len() - c.len()]);
    }
}

/// Each running session that was seen here is offered, by the last sight of
/// it.
pub proof fn law_running_sessions_are_offered(input: AttachInput, names: Seq<Seq<char>>, list: Seq<AttachCandidate>, o: int)
    requires
        forall|n: Seq<char>| #[trigger] holds(names, n) <==> local_sessions(input.durable@, input.observed@).dom().contains(n),
        candidates_of(list, attach_origins(input, names), live_addresses(input.convoys@), input.host_name@),
        0 <= o < input.observed@.len(),
        is_running(*input.observed@[o]),
        forall|p: int| o < p < input.observed@.len() ==> (#[trigger] input.observed@[p]).name@ != input.observed@[o].name@,
    ensures
        exists|i: int| 0 <= i < list.len() && (#[trigger] list[i]).target == AttachTarget::Local(input.observed@[o]),
{
    let origins = attach_origins(input, names);
    let sessions = local_sessions(input.durable@, input.observed@);
    lemma_last_seen(input.durable@, input.observed@, o);
    let name = input.observed@[o].name@;
    assert(holds(names, name));
    let n = choose|n: int| 0 <= n < names.len() && #[trigger] names[n] == name;
    let k = lemma_session_offered(names, sessions, names.len() as int, n);
    assert(origins[k] == session_origins(names, sessions, names.len() as int)[k]);
    assert(candidate_of(list[k], origins[k], live_addresses(input.convoys@), input.host_name@));
}

/// Each checkout that no convoy has is offered, by its path.
pub proof fn law_free_checkouts_are_offered(input: AttachInput, names: Seq<Seq<char>>, list: Seq<AttachCandidate>, c: int)
    requires
        candidates_of(list, attach_origins(input, names), live_addresses(input.convoys@), input.host_name@),
        0 <= c < input.checkouts@.len(),
        input.checkouts@[c].for_convoy is None,
    ensures
        exists|i: int|
            0 <= i < list.len() && (#[trigger] list[i]).target == AttachTarget::Checkout(input.checkouts@[c]) && goes_by(
                list[i],
                input.checkouts@[c].path@,
            ),
{
    let origins = attach_origins(input, names);
    let sessions = local_sessions(input.durable@, input.observed@);
    let a = session_origins(names, sessions, names.len() as int);
    let b = replicated_origins(input.durable@);
    let k = lemma_checkout_offered(input.checkouts@, c);
    let i = a.len() + b.len() + k;
    assert(origins[i] == checkout_origins(input.checkouts@)[k]);
    assert(candidate_of(list[i], origins[i], live_addresses(input.convoys@), input.host_name@));
    assert(strs(list[i].references@).len() == list[i].references@.len());
    assert(strs(list[i].references@)[0] == input.checkouts@[c].path@);
    assert(list[i].references@[0]@ == input.checkouts@[c].path@);
}

/// Each running session that is kept for another host is offered there.
pub proof fn law_sessions_elsewhere_are_offered(
    input: AttachInput,
    names: Seq<Seq<char>>,
    list: Seq<AttachCandidate>,
    d: int,
    host: Seq<char>,
)
    requires
        candidates_of(list, attach_origins(input, names), live_addresses(input.convoys@), input.host_name@),
        0 <= d < input.durable@.len(),
        input.durable@[d].home matches SessionHome::Replica(Some(h)) && h@ == host,
        is_running(*input.durable@[d].session),
    ensures
        exists|i: int|
            0 <= i < list.len() && (#[trigger] list[i]).host@ == host && (list[i].target matches AttachTarget::Replica(row) && opt(
                row.session,
            ) == Some(input.durable@[d].session.name@) && row.host@ == host),
{
    let origins = attach_origins(input, names);
    let sessions = local_sessions(input.durable@, input.observed@);
    let a = session_origins(names, sessions, names.len() as int);
    let k = lemma_replicated_offered(input.durable@, d, host);
    let i = a.len() + k;
    assert(origins[i] == replicated_origins(input.durable@)[k]);
    assert(candidate_of(list[i], origins[i], live_addresses(input.convoys@), input.host_name@));
}

proof fn lemma_sum(a: Seq<Seq<char>>, b: Seq<Seq<char>>)
    ensures
        forall|s: Seq<char>| #[trigger] holds(a, s) ==> holds(a + b, s),
        forall|s: Seq<char>| #[trigger] holds(b, s) ==> holds(a + b, s),
{
    assert forall|s: Seq<char>| #[trigger] holds(a, s) implies holds(a + b, s) by {
        let i = choose|i: int| 0 <= i < a.len() && #[trigger] a[i] == s;
        assert((a + b)[i] == s);
    }
    assert forall|s: Seq<char>| #[trigger] holds(b, s) implies holds(a + b, s) by {
        let i = choose|i: int| 0 <= i < b.len() && #[trigger] b[i] == s;
        assert((a + b)[a.len() + i] == s);
    }
}

proof fn lemma_one(s: Seq<char>)
    ensures
        holds(one(Some(s)), s),
{
    assert(one(Some(s))[0] == s);
}

/// A session goes by its name, by its convoy, by its role, by its vessel's
/// record, and by the convoy or its address with the vessel and the role
/// behind it.
pub proof fn law_sessions_go_by_their_labels(name: Seq<char>, labels: CrewLabels, address: Option<Seq<char>>)
    ensures
        ({
            let all = session_references(name, labels, address);
            &&& holds(all, name)
            &&& (labels.convoy matches Some(convoy) ==> holds(all, convoy@))
            &&& (labels.role matches Some(role) ==> holds(all, role@))
            &&& (labels.vessel_ref matches Some(vessel) ==> holds(all, vessel@))
            &&& (address matches Some(address) ==> holds(all, address))
            &&& (labels.convoy is Some && labels.vessel is Some ==> holds(all, labels.convoy->0@ + "/"@ + labels.vessel->0@))
            &&& (labels.convoy is Some && labels.vessel is Some && labels.role is Some ==> holds(
                all,
                labels.convoy->0@ + "/"@ + labels.vessel->0@ + "/"@ + labels.role->0@,
            ))
            &&& (address is Some && labels.vessel is Some ==> holds(all, address->0 + "/"@ + labels.vessel->0@))
            &&& (address is Some && labels.vessel is Some && labels.role is Some ==> holds(
                all,
                address->0 + "/"@ + labels.vessel->0@ + "/"@ + labels.role->0@,
            ))
            &&& (labels.vessel_ref is Some && labels.role is Some ==> holds(all, labels.vessel_ref->0@ + "/"@ + labels.role->0@))
        }),
{
    let convoy = opt(labels.convoy);
    let task = opt(labels.vessel);
    let role = opt(labels.role);
    let vessel = opt(labels.vessel_ref);
    let at = crate::attach::slash(address, task);
    let crew = crate::attach::slash(at, role);
    let aboard = crate::attach::slash(convoy, task);
    let member = crate::attach::slash(aboard, role);
    let own = crate::attach::slash(vessel, role);
    let p0 = seq![name];
    let p1 = p0 + one(convoy);
    let p2 = p1 + one(address);
    let p3 = p2 + one(at);
    let p4 = p3 + one(crew);
    let p5 = p4 + one(vessel);
    let p6 = p5 + one(aboard);
    let p7 = p6 + one(member);
    let p8 = p7 + one(own);
    assert(session_references(name, labels, address) == p8 + one(role));
    assert(p0[0] == name);
    assert(holds(p0, name));
    lemma_sum(p0, one(convoy));
    lemma_sum(p1, one(address));
    lemma_sum(p2, one(at));
    lemma_sum(p3, one(crew));
    lemma_sum(p4, one(vessel));
    lemma_sum(p5, one(aboard));
    lemma_sum(p6, one(member));
    lemma_sum(p7, one(own));
    lemma_sum(p8, one(role));
    if convoy is Some {
        lemma_one(convoy->0);
    }
    if address is Some {
        lemma_one(address->0);
    }
    if at is Some {
        lemma_one(at->0);
    }
    if crew is Some {
        lemma_one(crew->0);
    }
    if vessel is Some {
        lemma_one(vessel->0);
    }
    if aboard is Some {
        lemma_one(aboard->0);
    }
    if member is Some {
        lemma_one(member->0);
    }
    if own is Some {
        lemma_one(own->0);
    }
    if role is Some {
        lemma_one(role->0);
    }
}

/// A local session is attached to here and one of another host there; a
/// checkout is attached to only in passing, where it is.
pub proof fn law_targets_are_attached_to_where_they_are(
    target: AttachTarget,
    transient: bool,
    host_name: Seq<char>,
    r: Result<AttachStep, String>,
)
    requires
        step_for(target, transient, host_name, r),
    ensures
        target is Local ==> (r matches Ok(AttachStep::Session)),
        target matches AttachTarget::Replica(row) ==> (r matches Ok(AttachStep::Remote { host }) && host@ == row.host@),
        target is Checkout && !transient ==> r is Err,
        target matches AttachTarget::Checkout(row) ==> (transient ==> if row.host@ == host_name {
            r matches Ok(AttachStep::CheckoutTerminal)
        } else {
            r matches Ok(AttachStep::Remote { host }) && host@ == row.host@
        }),
{
}

/// A convoy that lives elsewhere is attached to there, by its address; one
/// that lives here, by its record; and one that lives on another host than
/// was named is not.
pub proof fn law_live_convoys_are_attached_to_at_home(
    reference: Seq<char>,
    live: LiveConvoyRecord,
    host: Option<Seq<char>>,
    host_name: Seq<char>,
    r: Result<AttachRoute, String>,
)
    requires
        routed(reference, Some(live), host, host_name, r),
    ensures
        (host matches Some(h) && h != live.owner_host@) <==> r is Err,
        r matches Ok(AttachRoute::Owner { host: h, reference: x, convoy, role }) ==> h@ == live.owner_host@ && live.owner_host@
            != host_name && x@ == live.address.role@ + "@"@ + live.address.project@ && convoy@ == live.record_name@ && role@
            == live.address.role@,
        r matches Ok(AttachRoute::Index { reference: x }) ==> live.owner_host@ == host_name && x@ == live.record_name@,
{
}

/// A reference to no live convoy is looked up as it stands.
pub proof fn law_other_references_are_looked_up(
    reference: Seq<char>,
    host: Option<Seq<char>>,
    host_name: Seq<char>,
    r: Result<AttachRoute, String>,
)
    requires
        routed(reference, None, host, host_name, r),
    ensures
        r matches Ok(AttachRoute::Index { reference: x }) && x@ == reference,
{
}

/// A session belongs to the host that its environment is bound to, under its
/// plain name where that is this host; an environment that is bound to no
/// known host has no owner.
pub proof fn law_sessions_belong_to_the_host_of_their_environment(
    env_ref: Seq<char>,
    host_ref: Option<String>,
    host: Result<Option<PlacementTargetHost>, String>,
    local_host_id: Option<Seq<char>>,
    host_name: Seq<char>,
)
    ensures
        owning_host(env_ref, EnvironmentLookup::Found { host_ref, host }, local_host_id, host_name) is Ok <==> host_ref is Some && (
        host matches Ok(Some(_))),
        owning_host(env_ref, EnvironmentLookup::Found { host_ref, host }, local_host_id, host_name) matches Ok(owner) ==> (
        host matches Ok(Some(target)) && if local_host_id == Some(target.reference@) {
            owner == host_name
        } else {
            owner == target.reference@
        }),
{
}

/// The command that attaches elsewhere names the host and the reference, both
/// quoted, attaches in passing, and passes on what was asked for of it.
pub proof fn law_remote_commands_say_where_and_what(host: Seq<char>, reference: Seq<char>, mode: AttachMode)
    ensures
        ({
            let command = remote_command(host, reference, mode);
            &&& command.last() == (true, reference)
            &&& command.contains((true, host))
            &&& command.contains((false, "--transient"@))
            &&& command.contains((false, "--host"@))
            &&& command[0] == (false, "flotilla"@)
            &&& command[1] == (false, "attach"@)
            &&& (mode is Strict <==> command.len() == 7 && command[5] == (false, "--strict"@))
            &&& (mode is Take <==> command.len() == 7 && command[5] == (false, "--take"@))
            &&& (mode is Default <==> command.len() == 6)
        }),
{
    let command = remote_command(host, reference, mode);
    reveal_strlit("--strict");
    reveal_strlit("--take");
    assert("--strict"@.len() != "--take"@.len());
    assert(command[2] == (false, "--host"@));
    assert(command[3] == (true, host));
    assert(command[4] == (false, "--transient"@));
}

/// A command about a convoy is about the one that it names, in the namespace
/// that it names, or else in the usual one.
pub proof fn law_commands_are_about_the_convoy_they_name(action: CommandAction, default_namespace: Seq<char>)
    ensures
        action matches CommandAction::ConvoyDelete { namespace, name } ==> subject_convoy(action, default_namespace) == Ok::<
            Option<(Seq<char>, Seq<char>)>,
            Seq<char>,
        >(Some((if namespace is Some {
            namespace->0@
        } else {
            default_namespace
        }, name@))),
        action matches CommandAction::ConvoyAbandon { namespace, name } ==> subject_convoy(action, default_namespace) == Ok::<
            Option<(Seq<char>, Seq<char>)>,
            Seq<char>,
        >(Some((if namespace is Some {
            namespace->0@
        } else {
            default_namespace
        }, name@))),
        action matches CommandAction::ConvoyResume { namespace, name } ==> subject_convoy(action, default_namespace) == Ok::<
            Option<(Seq<char>, Seq<char>)>,
            Seq<char>,
        >(Some((if namespace is Some {
            namespace->0@
        } else {
            default_namespace
        }, name@))),
        action matches CommandAction::ConvoyWithdrawPendingBrief { namespace, name } ==> subject_convoy(action, default_namespace)
            == Ok::<Option<(Seq<char>, Seq<char>)>, Seq<char>>(Some((if namespace is Some {
            namespace->0@
        } else {
            default_namespace
        }, name@))),
        action matches CommandAction::QueryExplainConvoy { namespace, name } ==> subject_convoy(action, default_namespace) == Ok::<
            Option<(Seq<char>, Seq<char>)>,
            Seq<char>,
        >(Some((if namespace is Some {
            namespace->0@
        } else {
            default_namespace
        }, name@))),
        action matches CommandAction::ConvoyWorkForceComplete { convoy } ==> subject_convoy(action, default_namespace) == Ok::<
            Option<(Seq<char>, Seq<char>)>,
            Seq<char>,
        >(Some((default_namespace, convoy@))),
        action matches CommandAction::CrewComplete { context } ==> (subject_convoy(action, default_namespace) is Err <==> context.convoy is None),
        action matches CommandAction::CrewFail { context } ==> (subject_convoy(action, default_namespace) is Err <==> context.convoy is None),
        action matches CommandAction::CrewHandoff { context } ==> (context.convoy matches Some(convoy) ==> subject_convoy(
            action,
            default_namespace,
        ) == Ok::<Option<(Seq<char>, Seq<char>)>, Seq<char>>(Some((if context.namespace is Some {
            context.namespace->0@
        } else {
            default_namespace
        }, convoy@)))),
        action is ConvoyStart || action is ConvoyCreate || action is ResourceApply || action is ProjectAdd ==> subject_convoy(
            action,
            default_namespace,
        ) == Ok::<Option<(Seq<char>, Seq<char>)>, Seq<char>>(None),
{
}

/// A convoy that is at home here is handled here, by this node; one that is
/// at home elsewhere, by the node that the way leads to, and not at all where
/// none does. Home, namespace and record stay as they were found.
pub proof fn law_convoys_are_handled_at_home(
    r: Result<ExistingConvoyTarget, String>,
    home: Seq<char>,
    record_name: Seq<char>,
    namespace: Seq<char>,
    local: (Seq<char>, Seq<char>),
    last_seen_at: Option<Timestamp>,
    way: Result<Option<String>, String>,
)
    requires
        target_at(r, home, record_name, namespace, local, last_seen_at, way),
    ensures
        r matches Ok(target) ==> target.home@ == home && target.record_name@ == record_name && target.namespace@ == namespace,
        home == local.0 ==> (r matches Ok(target) && target.node_id@ == local.1),
        home != local.0 ==> (r is Ok <==> (way matches Ok(Some(_)))) && (r matches Ok(target) ==> (way matches Ok(Some(node))
            && target.node_id@ == node@) && target.last_seen_at == last_seen_at),
{
}

proof fn lemma_hosts(rows: Seq<TargetRow<'_>>, at: Seq<int>, chosen: Seq<int>, host: Seq<char>)
    requires
        holds(hosts_at(rows, at, chosen), host),
    ensures
        exists|k: int|
            0 <= k < chosen.len() && (rows[at[#[trigger] chosen[k]]].host matches Some(h) && h@ == host),
    decreases chosen.len(),
{
    let all = hosts_at(rows, at, chosen);
    let front = chosen.drop_last();
    let before = hosts_at(rows, at, front);
    let i = choose|i: int| 0 <= i < all.len() && #[trigger] all[i] == host;
    if i < before.len() {
        assert(before[i] == host);
        lemma_hosts(rows, at, front, host);
        let k = choose|k: int| 0 <= k < front.len() && (rows[at[#[trigger] front[k]]].host matches Some(h) && h@ == host);
        assert(chosen[k] == front[k]);
    } else {
        assert(rows[at[chosen[chosen.len() - 1]]].host is Some);
    }
}

proof fn lemma_chosen(ids: Seq<crate::address::ConvoyAddressIdentity<'_>>, name: Seq<char>, k: int)
    requires
        crate::address::resolved_indices(ids, name) matches Ok(chosen) && 0 <= k < chosen.len(),
    ensures
        0 <= crate::address::resolved_indices(ids, name)->Ok_0[k] < ids.len(),
{
    let n = ids.len() as int;
    lemma_picked(n, crate::address::names_record(ids, name));
    match crate::address::parsed_address(name) {
        Ok((role, project)) => {
            lemma_picked(n, |i: int| crate::address::plays(ids, role, project, i) && ids[i].terminal == false);
            lemma_picked(n, |i: int| crate::address::plays(ids, role, project, i) && ids[i].terminal == true);
        },
        Err(_) => {},
    }
}

/// A home that is found is the host of a row of the namespace.
pub proof fn law_homes_are_read_off_the_rows(
    r: Result<HomeReading, String>,
    rows: Seq<TargetRow<'_>>,
    namespace: Seq<char>,
    name: Seq<char>,
    home: Seq<char>,
)
    requires
        home_found(r, rows, namespace, name),
        r matches Ok(HomeReading::At { home: h, record_name }) && h@ == home,
    ensures
        exists|i: int|
            0 <= i < rows.len() && (#[trigger] rows[i]).namespace@ == namespace && (rows[i].host matches Some(h) && h@ == home),
{
    let at = rows_in(rows, namespace);
    let ids = identities_at(rows, at);
    let chosen = crate::address::resolved_indices(ids, name)->Ok_0;
    let all = hosts_at(rows, at, chosen);
    lemma_sorted_unique_exists(all);
    assert(sorted_unique(all)[0] == home);
    assert(holds(sorted_unique(all), home));
    lemma_hosts(rows, at, chosen, home);
    let k = choose|k: int| 0 <= k < chosen.len() && (rows[at[#[trigger] chosen[k]]].host matches Some(h) && h@ == home);
    lemma_chosen(ids, name, k);
    lemma_rows_in(rows, namespace, chosen[k]);
    assert(0 <= at[chosen[k]] < rows.len());
    assert(rows[at[chosen[k]]].namespace@ == namespace);
}

/// A row of a copy binds to its host, namespace and session, to the record of
/// its convoy where it names one, and to the vessel and role that its crew
/// reads.
pub proof fn law_rows_bind_to_what_they_show(b: AttachBinding, row: FleetListRow, vessel: Seq<char>, role: Seq<char>)
    requires
        binds_row(b, row),
    ensures
        b.host@ == row.host@ && b.namespace@ == row.namespace@ && b.session == row.session,
        row.convoy_ref matches Some(convoy) ==> opt(b.convoy) == Some(convoy@),
        row.convoy_ref is None && row.convoy@ == "-"@ ==> b.convoy is None,
        row.convoy_ref is None && row.convoy@ != "-"@ ==> opt(b.convoy) == Some(row.convoy@),
        !vessel.contains('/') && row.crew@ == vessel.push('/') + role ==> opt(b.vessel) == Some(vessel) && opt(b.role) == Some(role),
        !row.crew@.contains('/') ==> b.vessel is None,
        !row.crew@.contains('/') && row.crew@.len() > 0 && row.crew@ != "-"@ ==> opt(b.role) == Some(row.crew@),
        row.crew@ == "-"@ ==> b.role is None,
{
    reveal_strlit("-");
    crate::text_laws::law_texts_are_split_at_the_first(row.crew@, '/');
    if row.crew@ == "-"@ && row.crew@.contains('/') {
        let i = choose|i: int| 0 <= i < row.crew@.len() && row.crew@[i] == '/';
        assert(row.crew@[i] == '-');
    }
    if !vessel.contains('/') && row.crew@ == vessel.push('/') + role {
        let s = row.crew@;
        let n = vessel.len() as int;
        assert(s[n] == '/');
        crate::text::lemma_first_at(s, '/');
        let at = crate::text::first_at(s, '/');
        if at < n {
            assert(vessel[at] == s[at]);
        }
        assert(at == n);
        assert(s.take(n) =~= vessel);
        assert(s.skip(n + 1) =~= role);
    }
}

/// A running row of a copy counts unless its session is known already: as a
/// running session whose record came from the same host, or as one that
/// belongs to no convoy.
pub proof fn law_known_sessions_are_not_offered_again(durable: Seq<DurableSession>, cache: AttachCache, row: FleetListRow)
    ensures
        row_counts(durable, cache, row) <==> row.crew_state@ == "running"@ && (row.session matches Some(session) ==> (forall|i: int|
            0 <= i < durable.len() && (#[trigger] durable[i]).session.name@ == session@ && (
            durable[i].home matches SessionHome::Replica(Some(h)) && h@ == row.host@) ==> !(
            durable[i].session.status matches Some(status) && status.phase is Running)) && (forall|i: int|
            0 <= i < cache.independents@.len() ==> opt((#[trigger] cache.independents@[i]).attach) != Some(session@))),
{
}

proof fn lemma_one_occurrence(list: Seq<String>, s: Seq<char>, i: int, q: int)
    requires
        0 <= q < list.len(),
        list[q]@ == s,
        forall|k: int| 0 <= k < list.len() && k != q ==> (#[trigger] list[k])@ != s,
    ensures
        occurrences(strs(list), s, i) == seq![i],
    decreases list.len(),
{
    let front = list.drop_last();
    assert(strs(list).drop_last() =~= strs(front));
    assert(strs(list).last() == list.last()@);
    assert(strs(list).len() == list.len());
    if q < list.len() - 1 {
        assert(list[list.len() - 1]@ != s);
        assert forall|k: int| 0 <= k < front.len() && k != q implies (#[trigger] front[k])@ != s by {
            assert(front[k] == list[k]);
        }
        lemma_one_occurrence(front, s, i, q);
    } else {
        lemma_occurrences(front, s, i);
        assert forall|k: int| 0 <= k < front.len() implies (#[trigger] front[k])@ != s by {
            assert(front[k] == list[k]);
        }
        assert(occurrences(strs(front), s, i).len() == 0);
        assert(occurrences(strs(list), s, i) =~= seq![i]);
    }
}

proof fn lemma_one_exact(candidates: Seq<AttachCandidate>, reference: Seq<char>, n: int, at: int, q: int)
    requires
        0 <= n <= candidates.len(),
        0 <= at < candidates.len(),
        0 <= q < candidates[at].references@.len(),
        candidates[at].references@[q]@ == reference,
        forall|i: int, k: int|
            0 <= i < candidates.len() && 0 <= k < candidates[i].references@.len() && !(i == at && k == q) ==> (
            #[trigger] candidates[i].references@[k])@ != reference,
    ensures
        n <= at ==> exact_matches(candidates, reference, n).len() == 0,
        at < n ==> exact_matches(candidates, reference, n) == seq![at],
    decreases n,
{
    if n > 0 {
        lemma_one_exact(candidates, reference, n - 1, at, q);
        let list = candidates[n - 1].references@;
        let before = exact_matches(candidates, reference, n - 1);
        let own = occurrences(strs(list), reference, n - 1);
        if n - 1 == at {
            lemma_one_occurrence(list, reference, n - 1, q);
            assert(before + own =~= seq![at]);
        } else {
            lemma_occurrences(list, reference, n - 1);
            assert forall|k: int| 0 <= k < list.len() implies (#[trigger] list[k])@ != reference by {
                assert(candidates[n - 1].references@[k]@ != reference);
            }
            assert(own.len() == 0);
            assert(before + own =~= before);
        }
    }
}

/// A reference that says something and is one of exactly one candidate's, once,
/// selects that candidate, whatever else begins with it, where it is on the
/// host that was named or none was.
pub proof fn law_the_only_target_of_a_reference_is_selected(
    candidates: Seq<AttachCandidate>,
    reference: Seq<char>,
    host: Option<Seq<char>>,
    at: int,
    q: int,
    c: int,
)
    requires
        0 <= c < reference.len() && !is_space(reference[c]),
        0 <= at < candidates.len(),
        0 <= q < candidates[at].references@.len(),
        candidates[at].references@[q]@ == reference,
        forall|i: int, k: int|
            0 <= i < candidates.len() && 0 <= k < candidates[i].references@.len() && !(i == at && k == q) ==> (
            #[trigger] candidates[i].references@[k])@ != reference,
        host is None || candidates[at].host@ == host->0,
    ensures
        selected(candidates, reference, host) == Ok::<int, Seq<char>>(at),
{
    law_blank_texts_are_white(reference);
    lemma_one_exact(candidates, reference, candidates.len() as int, at, q);
    let all = named(candidates, reference);
    assert(all == seq![at]);
    assert(all.drop_last() =~= Seq::<int>::empty());
    assert(on_host(candidates, all.drop_last(), host) =~= Seq::<int>::empty());
    assert(on_host(candidates, all, host) =~= seq![at]);
}

/// A reference that says nothing is refused.
pub proof fn law_blank_references_are_refused(candidates: Seq<AttachCandidate>, reference: Seq<char>, host: Option<Seq<char>>)
    requires
        forall|i: int| 0 <= i < reference.len() ==> is_space(#[trigger] reference[i]),
    ensures
        selected(candidates, reference, host) is Err,
{
    law_blank_texts_are_white(reference);
}

/// A session that is kept for another host is shown as what it is: in its own
/// namespace and environment, as its own crew, running on that host.
pub proof fn law_kept_sessions_show_what_they_are(row: FleetListRow, s: TerminalSession, host: Seq<char>)
    requires
        replicated_row(row, s, host),
    ensures
        row.host@ == host,
        row.namespace@ == s.namespace@,
        row.vessel@ == s.env_ref@,
        row.session matches Some(session) && session@ == s.name@,
        row.crew_state@ == "running"@,
        s.labels.convoy matches Some(convoy) ==> row.convoy@ == convoy@,
        (s.labels.vessel is None && s.labels.role is None) ==> row.crew@ == s.role@,
        (s.labels.vessel is Some && s.labels.role is Some) ==> row.crew@ == s.labels.vessel->0@ + "/"@ + s.labels.role->0@,
{
}

/// A session that belongs to no convoy is shown as one of no crew, in its own
/// namespace, running on its host, and is attached to by its own reference.
pub proof fn law_sessions_of_no_convoy_show_no_crew(row: FleetListRow, i: IndependentRow, host: Seq<char>)
    requires
        independent_row(row, i, host),
    ensures
        row.host@ == host,
        row.namespace@ == i.namespace@,
        opt(row.session) == opt(i.attach),
        row.convoy@ == "-"@ && row.vessel@ == "-"@ && row.crew@ == "-"@ && row.convoy_ref is None,
        row.crew_state@ == "running"@,
{
}

} // verus!
