//! What holds of every placement: that it can run the agents of its workflow,
//! that its host holds their credentials, and how it was chosen.
use vstd::prelude::*;

use crate::model::{PlacementRefusal, PlacementTargetHost, PlacementViableCandidate};
use crate::ordered::{lemma_sorted_unique_exists, sorted_unique, OrderedMap};
use crate::placement::{
    adapter_problem, any_capacity, copies_match, copy_names, credential_problem, decision_checked, expired_credential, expired_login,
    first_lacking, home_copies, home_copy, hosted, named_problem, not_selected, ordering_reason, own_capacity, passed, placed_by_default,
    placement_outcome, policy_refusal, refusals_of, refused, refused_host, remote_host, settled, target_host, unhosted, viable_of,
    viables, CapacityCheck, CapacitySource, NamedCopy, PlacementNeeds, PlacementResolution, PolicyReading, ViablePolicy,
};
use crate::placing::{place_decided, placement_decided, Placement, PlacementReadings, PlacementStep};
use crate::sorting::{lemma_rank_sort, lemma_rank_sort_keeps, rank_sort, Ranked};
use crate::text::{decimal, first_some, holds, lex_le, opt, strs};
use crate::time::Timestamp;
use crate::workflow::{ambient_login, ambient_vessels, first_missing, held_refs, vessel_problems, EffectiveWorkflow, VesselNeeds};

verus! {

/// The placement offers the agent: its container image does, or the host that
/// it runs on directly, which is known and ready.
pub open spec fn runs_agent(reading: PolicyReading, adapter: Seq<char>) -> bool {
    match reading.policy.docker {
        Some(docker) => exists|j: int| 0 <= j < docker.agent_adapters@.len() && (#[trigger] docker.agent_adapters@[j])@ == adapter,
        None => {
            &&& reading.policy.host_direct is Some
            &&& reading.canonical matches Ok(Some(_))
            &&& reading.host matches Ok(Some(status))
            &&& status.ready
            &&& status.agent_adapters matches Ok(offered)
            &&& exists|j: int| 0 <= j < offered@.len() && (#[trigger] offered@[j])@ == adapter
        },
    }
}

proof fn lemma_first_lacking(names: Seq<Seq<char>>, known: Seq<Seq<char>>)
    ensures
        first_lacking(names, known) is None <==> forall|i: int| 0 <= i < names.len() ==> holds(known, #[trigger] names[i]),
    decreases names.len(),
{
    if names.len() > 0 {
        let rest = names.drop_first();
        lemma_first_lacking(rest, known);
        if holds(known, names[0]) {
            if first_lacking(rest, known) is None {
                assert forall|i: int| 0 <= i < names.len() implies holds(known, #[trigger] names[i]) by {
                    if i > 0 {
                        assert(names[i] == rest[i - 1]);
                    }
                }
            } else {
                let i = choose|i: int| 0 <= i < rest.len() && !holds(known, #[trigger] rest[i]);
                assert(names[i + 1] == rest[i]);
            }
        }
    }
}

proof fn lemma_offered(list: Seq<String>, name: Seq<char>)
    ensures
        holds(strs(list), name) <==> exists|j: int| 0 <= j < list.len() && (#[trigger] list[j])@ == name,
{
    if holds(strs(list), name) {
        let j = choose|j: int| 0 <= j < strs(list).len() && #[trigger] strs(list)[j] == name;
        assert(list[j]@ == name);
    }
    if exists|j: int| 0 <= j < list.len() && (#[trigger] list[j])@ == name {
        let j = choose|j: int| 0 <= j < list.len() && (#[trigger] list[j])@ == name;
        assert(strs(list)[j] == name);
    }
}

/// A placement is accepted for the agents of a workflow exactly where it
/// offers every one that the workflow requires; without a placement, exactly
/// where none is required.
pub proof fn law_accepted_placements_run_every_agent(required: Vec<String>, reading: PolicyReading)
    ensures
        adapter_problem(Ok(required), Some(reading)) is None <==> forall|i: int|
            0 <= i < required@.len() ==> runs_agent(reading, (#[trigger] required@[i])@),
        adapter_problem(Ok(required), None) is None <==> required@.len() == 0,
        forall|e: String| adapter_problem(Err(e), Some(reading)) is Some,
{
    let names = strs(required@);
    if required@.len() > 0 {
        match crate::placement::adapters_of(reading) {
            Err(_) => {
                assert(!runs_agent(reading, required@[0]@));
            },
            Ok((available, _)) => {
                lemma_first_lacking(names, available);
                let offered = match reading.policy.docker {
                    Some(docker) => docker.agent_adapters@,
                    None => if reading.policy.host_direct is None {
                        Seq::<String>::empty()
                    } else {
                        reading.host->Ok_0->0.agent_adapters->Ok_0@
                    },
                };
                assert(available =~= strs(offered));
                assert forall|i: int| 0 <= i < required@.len() implies (runs_agent(reading, (#[trigger] required@[i])@) <==> holds(
                    available,
                    names[i],
                )) by {
                    lemma_offered(offered, required@[i]@);
                }
                if first_lacking(names, available) is None {
                    assert forall|i: int| 0 <= i < required@.len() implies runs_agent(reading, (#[trigger] required@[i])@) by {
                        assert(holds(available, names[i]));
                    }
                } else {
                    let i = choose|i: int| 0 <= i < names.len() && !holds(available, #[trigger] names[i]);
                    assert(!runs_agent(reading, required@[i]@));
                }
            },
        }
    }
}

proof fn lemma_first_missing(names: Seq<Seq<char>>, known: Set<Seq<char>>)
    ensures
        first_missing(names, known) is None <==> forall|i: int| 0 <= i < names.len() ==> known.contains(#[trigger] names[i]),
    decreases names.len(),
{
    if names.len() > 0 {
        let rest = names.drop_first();
        lemma_first_missing(rest, known);
        if known.contains(names[0]) {
            if first_missing(rest, known) is None {
                assert forall|i: int| 0 <= i < names.len() implies known.contains(#[trigger] names[i]) by {
                    if i > 0 {
                        assert(names[i] == rest[i - 1]);
                    }
                }
            } else {
                let i = choose|i: int| 0 <= i < rest.len() && !known.contains(#[trigger] rest[i]);
                assert(names[i + 1] == rest[i]);
            }
        }
    }
}

proof fn lemma_expired(names: Seq<Seq<char>>, expired: Map<Seq<char>, Timestamp>)
    ensures
        expired_credential(names, expired) is None ==> forall|i: int|
            0 <= i < names.len() ==> !expired.dom().contains(#[trigger] names[i]),
    decreases names.len(),
{
    if names.len() > 0 && expired_credential(names, expired) is None {
        let rest = names.drop_first();
        lemma_expired(rest, expired);
        assert forall|i: int| 0 <= i < names.len() implies !expired.dom().contains(#[trigger] names[i]) by {
            if i > 0 {
                assert(names[i] == rest[i - 1]);
            }
        }
    }
}

proof fn lemma_expired_login(vessels: Seq<(Seq<char>, Seq<char>)>, expired: Map<Seq<char>, Timestamp>)
    ensures
        expired_login(vessels, expired) is None ==> forall|i: int|
            0 <= i < vessels.len() ==> !expired.dom().contains((#[trigger] vessels[i]).1),
    decreases vessels.len(),
{
    if vessels.len() > 0 && expired_login(vessels, expired) is None {
        let rest = vessels.drop_first();
        lemma_expired_login(rest, expired);
        assert forall|i: int| 0 <= i < vessels.len() implies !expired.dom().contains((#[trigger] vessels[i]).1) by {
            if i > 0 {
                assert(vessels[i] == rest[i - 1]);
            }
        }
    }
}

proof fn lemma_held_refs(vessels: Seq<VesselNeeds>, v: int, k: int)
    requires
        0 <= v < vessels.len(),
        0 <= k < vessels[v].credential_refs@.len(),
    ensures
        holds(held_refs(vessels), vessels[v].credential_refs@[k]@),
    decreases vessels.len(),
{
    let front = vessels.drop_last();
    let before = held_refs(front);
    let own = strs(vessels.last().credential_refs@);
    if v < front.len() {
        lemma_held_refs(front, v, k);
        let name = vessels[v].credential_refs@[k]@;
        let i = choose|i: int| 0 <= i < before.len() && #[trigger] before[i] == name;
        assert(held_refs(vessels)[i] == name);
    } else {
        assert(own[k] == vessels[v].credential_refs@[k]@);
        assert(held_refs(vessels)[before.len() + k] == own[k]);
    }
}

/// Where the credentials of a workflow are accepted in a placement, the host
/// of the placement is known and ready, holds every credential that a vessel
/// has, and none of these has run out.
pub proof fn law_accepted_placements_hold_every_credential(
    vessels: Seq<VesselNeeds>,
    specs: Result<OrderedMap<String>, String>,
    login: Seq<char>,
    reading: PolicyReading,
    v: int,
    k: int,
)
    requires
        credential_problem(vessels, specs, login, Some(reading)) is None,
        0 <= v < vessels.len(),
        0 <= k < vessels[v].credential_refs@.len(),
    ensures
        reading.canonical matches Ok(Some(_)),
        reading.host matches Ok(Some(status)) && status.ready && (status.held_credentials matches Ok(held) && held@.contains(
            vessels[v].credential_refs@[k]@,
        )) && (status.expired matches Ok(expired) && !expired@.dom().contains(vessels[v].credential_refs@[k]@)),
{
    let name = vessels[v].credential_refs@[k]@;
    lemma_held_refs(vessels, v, k);
    let all = held_refs(vessels);
    lemma_sorted_unique_exists(all);
    let required = sorted_unique(all);
    assert(holds(required, name));
    let i = choose|i: int| 0 <= i < required.len() && #[trigger] required[i] == name;
    let status = reading.host->Ok_0->0;
    lemma_first_missing(required, status.held_credentials->Ok_0@);
    lemma_expired(required, status.expired->Ok_0@);
    assert(status.held_credentials->Ok_0@.contains(required[i]));
}

/// A credential that no placement holds is not accepted without a placement
/// either.
pub proof fn law_credentials_need_a_placement(
    vessels: Seq<VesselNeeds>,
    specs: Result<OrderedMap<String>, String>,
    login: Seq<char>,
    v: int,
    k: int,
)
    requires
        0 <= v < vessels.len(),
        0 <= k < vessels[v].credential_refs@.len(),
    ensures
        credential_problem(vessels, specs, login, None) is Some,
{
    lemma_held_refs(vessels, v, k);
    let all = held_refs(vessels);
    lemma_sorted_unique_exists(all);
    assert(holds(sorted_unique(all), vessels[v].credential_refs@[k]@));
}

proof fn lemma_no_problem(list: Seq<Option<Seq<char>>>, i: int)
    requires
        first_some(list) is None,
        0 <= i < list.len(),
    ensures
        list[i] is None,
    decreases list.len(),
{
    if list[0] is None && i > 0 {
        lemma_no_problem(list.drop_first(), i - 1);
    }
}

/// Where the credentials of a workflow are accepted, it is known what every
/// agent needs, and each that is to be given material has a credential of its
/// vessel that goes there.
pub proof fn law_accepted_agents_have_their_material(
    vessels: Seq<VesselNeeds>,
    specs: OrderedMap<String>,
    login: Seq<char>,
    placement: Option<PolicyReading>,
    v: int,
    a: int,
)
    requires
        credential_problem(vessels, Ok(specs), login, placement) is None,
        0 <= v < vessels.len(),
        0 <= a < vessels[v].agents@.len(),
    ensures
        vessels[v].agents@[a] matches Ok(requirement) && (requirement.delivery_slot matches Some(slot) ==> exists|k: int|
            0 <= k < vessels[v].credential_refs@.len() && specs@.dom().contains((#[trigger] vessels[v].credential_refs@[k])@)
                && specs@[vessels[v].credential_refs@[k]@]@ == slot@),
{
    let problems = vessel_problems(vessels, specs.keys(), specs@);
    lemma_no_problem(problems, v);
    let own = crate::workflow::agent_problems(vessels[v], specs.keys(), specs@);
    assert(problems[v] == first_some(own));
    lemma_no_problem(own, a);
    assert(own[a] == crate::workflow::agent_problem(vessels[v], vessels[v].agents@[a], specs.keys(), specs@));
    let requirement = vessels[v].agents@[a]->Ok_0;
    if requirement.delivery_slot is Some {
        let slot = requirement.delivery_slot->0@;
        let refs = strs(vessels[v].credential_refs@);
        let k = choose|k: int| 0 <= k < refs.len() && specs@.dom().contains(#[trigger] refs[k]) && specs@[refs[k]]@ == slot;
        assert(vessels[v].credential_refs@[k]@ == refs[k]);
    }
}

proof fn lemma_ambient(vessels: Seq<VesselNeeds>, specs: Map<Seq<char>, String>, v: int)
    requires
        ambient_vessels(vessels, specs) is Ok,
        0 <= v < vessels.len(),
        !vessels[v].contained,
        ambient_login(vessels[v], specs, vessels[v].agents@.len() as int) matches Ok(Some(_)),
    ensures
        exists|i: int|
            0 <= i < ambient_vessels(vessels, specs)->Ok_0.len() && (#[trigger] ambient_vessels(vessels, specs)->Ok_0[i]).1
                == ambient_login(vessels[v], specs, vessels[v].agents@.len() as int)->Ok_0->0,
    decreases vessels.len(),
{
    let front = vessels.drop_last();
    let all = ambient_vessels(vessels, specs)->Ok_0;
    let before = ambient_vessels(front, specs)->Ok_0;
    if v < front.len() {
        lemma_ambient(front, specs, v);
        let i = choose|i: int|
            0 <= i < before.len() && (#[trigger] before[i]).1 == ambient_login(
                vessels[v],
                specs,
                vessels[v].agents@.len() as int,
            )->Ok_0->0;
        assert(all[i] == before[i]);
    } else {
        assert(all[all.len() - 1].1 == ambient_login(vessels[v], specs, vessels[v].agents@.len() as int)->Ok_0->0);
    }
}

/// A vessel outside containment whose only agent relies on a login of its host,
/// having no material of its own, is not placed on a host where that login has
/// run out.
pub proof fn law_expired_logins_are_not_relied_on(
    vessels: Seq<VesselNeeds>,
    specs: OrderedMap<String>,
    login: Seq<char>,
    reading: PolicyReading,
    v: int,
)
    requires
        credential_problem(vessels, Ok(specs), login, Some(reading)) is None,
        0 <= v < vessels.len(),
        !vessels[v].contained,
        vessels[v].agents@.len() == 1,
        vessels[v].agents@[0] matches Ok(requirement) && requirement.ambient_scope is Some && requirement.delivery_slot is None,
    ensures
        reading.canonical matches Ok(Some(_)),
        reading.host matches Ok(Some(status)) ==> (status.expired matches Ok(expired) && !expired@.dom().contains(
            vessels[v].agents@[0]->Ok_0.ambient_scope->0@,
        )),
{
    reveal_with_fuel(ambient_login, 3);
    assert(ambient_login(vessels[v], specs@, 1) == Ok::<Option<Seq<char>>, Seq<char>>(
        Some(vessels[v].agents@[0]->Ok_0.ambient_scope->0@),
    ));
    lemma_ambient(vessels, specs@, v);
    let pairs = ambient_vessels(vessels, specs@)->Ok_0;
    let i = choose|i: int|
        0 <= i < pairs.len() && (#[trigger] pairs[i]).1 == ambient_login(vessels[v], specs@, 1)->Ok_0->0;
    if reading.host is Ok && reading.host->Ok_0 is Some {
        lemma_expired_login(pairs, reading.host->Ok_0->0.expired->Ok_0@);
    }
}

/// A policy that a convoy names is accepted only where it could be read, is a
/// container where the workflow is contained, and offers every agent that the
/// workflow requires.
pub proof fn law_named_policies_serve(needs: PlacementNeeds<'_>, policy: Seq<char>, found: Result<PolicyReading, String>)
    requires
        named_problem(needs, policy, found) is None,
    ensures
        found matches Ok(reading) && (needs.contained ==> reading.policy.docker is Some) && (*needs.adapters matches Ok(required)
            && forall|i: int| 0 <= i < required@.len() ==> runs_agent(reading, (#[trigger] required@[i])@)),
        credential_problem(needs.vessels@, *needs.specs, needs.ambient_login@, Some(found->Ok_0)) is None,
{
    let reading = found->Ok_0;
    match *needs.adapters {
        Ok(required) => {
            law_accepted_placements_run_every_agent(required, reading);
        },
        Err(_) => {},
    }
}

/// How the outcome of placing by some policies came about.
proof fn lemma_outcome(
    r: Result<PlacementResolution, String>,
    needs: PlacementNeeds<'_>,
    sources: Seq<PolicyReading>,
    order: Seq<int>,
    local_host: Option<Seq<char>>,
) -> (found: (Seq<PlacementRefusal>, Seq<ViablePolicy>))
    requires
        placement_outcome(r, needs, sources, order, local_host),
    ensures
        refusals_of(found.0, order, needs, sources),
        viables(found.1, hosted(passed(order, needs, sources), sources), sources, local_host),
        settled(r, needs, found.0, found.1),
{
    choose|rows: Seq<PlacementRefusal>, list: Seq<ViablePolicy>|
        {
            &&& #[trigger] refusals_of(rows, order, needs, sources)
            &&& #[trigger] viables(list, hosted(passed(order, needs, sources), sources), sources, local_host)
            &&& settled(r, needs, rows, list)
        }
}

proof fn lemma_hosted(needs: PlacementNeeds<'_>, sources: Seq<PolicyReading>, order: Seq<int>, i: int)
    ensures
        hosted(passed(order, needs, sources), sources).contains(i) <==> order.contains(i) && policy_refusal(needs, sources[i]) is None
            && target_host(sources[i]) is Ok,
{
    let pass = |i: int| policy_refusal(needs, sources[i]) is None;
    let has = |i: int| target_host(sources[i]) is Ok;
    let ok = order.filter(pass);
    let set = ok.filter(has);
    assert(set == hosted(passed(order, needs, sources), sources));
    if set.contains(i) {
        ok.lemma_filter_contains_rev(has, i);
        let z = choose|z: int| 0 <= z < set.len() && set[z] == i;
        ok.lemma_filter_pred(has, z);
        order.lemma_filter_contains_rev(pass, i);
        let y = choose|y: int| 0 <= y < ok.len() && ok[y] == i;
        order.lemma_filter_pred(pass, y);
    }
    if order.contains(i) && pass(i) && has(i) {
        let x = choose|x: int| 0 <= x < order.len() && order[x] == i;
        order.lemma_filter_contains(pass, x);
        let y = choose|y: int| 0 <= y < ok.len() && ok[y] == i;
        ok.lemma_filter_contains(has, y);
    }
}

proof fn lemma_selected(
    r: Result<PlacementResolution, String>,
    needs: PlacementNeeds<'_>,
    sources: Seq<PolicyReading>,
    order: Seq<int>,
    local_host: Option<Seq<char>>,
)
    requires
        placement_outcome(r, needs, sources, order, local_host),
        r matches Ok(resolution) && resolution.selected is Some,
    ensures
        order.contains(r->Ok_0.selected->0 as int),
        policy_refusal(needs, sources[r->Ok_0.selected->0 as int]) is None,
        target_host(sources[r->Ok_0.selected->0 as int]) is Ok,
{
    let (rows, list) = lemma_outcome(r, needs, sources, order, local_host);
    let set = hosted(passed(order, needs, sources), sources);
    lemma_rank_sort(list);
    lemma_rank_sort_keeps(list, 0);
    let w = choose|i: int| 0 <= i < list.len() && list[i] == rank_sort(list)[0];
    assert(viable_of(list[w], sources, set[w], local_host));
    assert(set.contains(set[w]));
    lemma_hosted(needs, sources, order, set[w]);
}

/// The policy that a convoy gets by default serves it: it is a container where
/// the workflow is contained, it offers every agent that the workflow
/// requires, nothing about the credentials stands against it, and its host is
/// known.
pub proof fn law_default_policies_serve(
    r: Result<PlacementResolution, String>,
    needs: PlacementNeeds<'_>,
    sources: Seq<PolicyReading>,
    local_host: Option<Seq<char>>,
)
    requires
        placed_by_default(r, needs, sources, local_host),
        r matches Ok(resolution) && resolution.selected is Some,
    ensures
        ({
            let chosen = sources[r->Ok_0.selected->0 as int];
            &&& r->Ok_0.selected->0 < sources.len()
            &&& needs.contained ==> chosen.policy.docker is Some
            &&& (*needs.adapters matches Ok(required) && forall|i: int|
                0 <= i < required@.len() ==> runs_agent(chosen, (#[trigger] required@[i])@))
            &&& credential_problem(needs.vessels@, *needs.specs, needs.ambient_login@, Some(chosen)) is None
            &&& (chosen.policy.host_direct is Some || chosen.policy.docker is Some)
            &&& (chosen.canonical matches Ok(Some(_)))
        }),
{
    let (copies, order) = choose|copies: Seq<NamedCopy>, order: Seq<int>|
        {
            &&& #[trigger] copies_match(copies, sources)
            &&& #[trigger] home_copies(order, copies)
            &&& placement_outcome(r, needs, sources, order, local_host)
        };
    lemma_selected(r, needs, sources, order, local_host);
    let at = r->Ok_0.selected->0 as int;
    let x = choose|x: int| 0 <= x < order.len() && order[x] == at;
    assert(0 <= order[x] < copies.len());
    match *needs.adapters {
        Ok(required) => {
            law_accepted_placements_run_every_agent(required, sources[at]);
        },
        Err(_) => {},
    }
}

proof fn lemma_only_copy(copies: Seq<NamedCopy>, order: Seq<int>, i: int)
    requires
        home_copies(order, copies),
        0 <= i < copies.len(),
        forall|k: int| 0 <= k < copies.len() && k != i ==> (#[trigger] copies[k]).name@ != copies[i].name@,
    ensures
        order.contains(i),
{
    let names = copy_names(copies);
    lemma_sorted_unique_exists(names);
    let all = sorted_unique(names);
    assert(names[i] == copies[i].name@);
    assert(holds(names, copies[i].name@));
    assert(holds(all, copies[i].name@));
    let n = choose|n: int| 0 <= n < all.len() && #[trigger] all[n] == copies[i].name@;
    assert(copies[order[n]].name@ == copies[i].name@);
    assert(order[n] == i);
}

proof fn lemma_in_order(sources: Seq<PolicyReading>, copies: Seq<NamedCopy>, order: Seq<int>, i: int)
    requires
        copies_match(copies, sources),
        home_copies(order, copies),
        0 <= i < sources.len(),
        forall|k: int| 0 <= k < sources.len() && k != i ==> (#[trigger] sources[k]).policy.name@ != sources[i].policy.name@,
    ensures
        order.contains(i),
{
    assert forall|k: int| 0 <= k < copies.len() && k != i implies (#[trigger] copies[k]).name@ != copies[i].name@ by {
        assert(copies[k].name@ == sources[k].policy.name@);
        assert(copies[i].name@ == sources[i].policy.name@);
    }
    lemma_only_copy(copies, order, i);
}

/// Of two policies that serve, the one with the higher priority is preferred;
/// of the same priority, the one on this daemon's own host; then one that runs
/// directly on its host; then the one whose name comes first. A convoy that
/// some policy serves is placed, and never by a less preferred one.
pub proof fn law_the_preferred_policy_is_chosen(
    r: Result<PlacementResolution, String>,
    needs: PlacementNeeds<'_>,
    sources: Seq<PolicyReading>,
    local_host: Option<Seq<char>>,
    other: int,
)
    requires
        placed_by_default(r, needs, sources, local_host),
        0 <= other < sources.len(),
        forall|k: int|
            0 <= k < sources.len() && k != other ==> (#[trigger] sources[k]).policy.name@ != sources[other].policy.name@,
        policy_refusal(needs, sources[other]) is None,
        sources[other].policy.host_direct is Some || sources[other].policy.docker is Some,
        sources[other].canonical matches Ok(Some(_)),
    ensures
        r matches Ok(resolution) && resolution.selected is Some && resolution.selected->0 < sources.len() && ({
            let a = sources[resolution.selected->0 as int];
            let b = sources[other];
            let a_here = a.canonical matches Ok(Some(host)) && local_host == Some(host.reference@);
            let b_here = b.canonical matches Ok(Some(host)) && local_host == Some(host.reference@);
            ||| a.policy.priority > b.policy.priority
            ||| a.policy.priority == b.policy.priority && a_here && !b_here
            ||| a.policy.priority == b.policy.priority && a_here == b_here && a.policy.host_direct is Some
                && b.policy.host_direct is None
            ||| a.policy.priority == b.policy.priority && a_here == b_here && (a.policy.host_direct is Some
                == b.policy.host_direct is Some) && lex_le(a.policy.name@, b.policy.name@)
        }),
{
    let (copies, order) = choose|copies: Seq<NamedCopy>, order: Seq<int>|
        {
            &&& #[trigger] copies_match(copies, sources)
            &&& #[trigger] home_copies(order, copies)
            &&& placement_outcome(r, needs, sources, order, local_host)
        };
    lemma_in_order(sources, copies, order, other);
    let (rows, list) = lemma_outcome(r, needs, sources, order, local_host);
    let set = hosted(passed(order, needs, sources), sources);
    lemma_hosted(needs, sources, order, other);
    let z = choose|i: int| 0 <= i < set.len() && set[i] == other;
    assert(viable_of(list[z], sources, other, local_host));
    let ranked = rank_sort(list);
    lemma_rank_sort(list);
    assert(ranked.contains(list[z])) by {
        broadcast use vstd::seq_lib::group_to_multiset_ensures;

        assert(list.contains(list[z]));
        assert(list.to_multiset().count(list[z]) > 0);
        assert(ranked.to_multiset().count(list[z]) > 0);
    }
    let at = choose|i: int| 0 <= i < ranked.len() && ranked[i] == list[z];
    lemma_rank_sort_keeps(list, 0);
    let w = choose|i: int| 0 <= i < list.len() && list[i] == ranked[0];
    assert(viable_of(list[w], sources, set[w], local_host));
    lemma_selected(r, needs, sources, order, local_host);
    let x = choose|x: int| 0 <= x < order.len() && order[x] == r->Ok_0.selected->0 as int;
    assert(0 <= order[x] < copies.len());
    if at > 0 {
        assert(ranked[0].ranks_before(ranked[at]));
    } else {
        crate::text::lemma_lex_irreflexive(sources[other].policy.name@);
    }
}

/// Of the copies of a policy, this daemon's own counts: a copy is never chosen
/// where the policy is homed here.
pub proof fn law_own_policies_count(
    r: Result<PlacementResolution, String>,
    needs: PlacementNeeds<'_>,
    sources: Seq<PolicyReading>,
    local_host: Option<Seq<char>>,
    own: int,
)
    requires
        placed_by_default(r, needs, sources, local_host),
        r matches Ok(resolution) && resolution.selected is Some,
        0 <= own < sources.len(),
        sources[own].local,
        sources[own].policy.name@ == sources[r->Ok_0.selected->0 as int].policy.name@,
    ensures
        sources[r->Ok_0.selected->0 as int].local,
{
    let (copies, order) = choose|copies: Seq<NamedCopy>, order: Seq<int>|
        {
            &&& #[trigger] copies_match(copies, sources)
            &&& #[trigger] home_copies(order, copies)
            &&& placement_outcome(r, needs, sources, order, local_host)
        };
    lemma_selected(r, needs, sources, order, local_host);
    let at = r->Ok_0.selected->0 as int;
    let x = choose|x: int| 0 <= x < order.len() && order[x] == at;
    assert(home_copy(copies, copies[order[x]].name@) == Some(order[x]));
    assert(copies[own].name@ == sources[own].policy.name@ && copies[own].local);
    assert(copies[at].name@ == sources[at].policy.name@);
    crate::placement::law_home_copies_win(copies, own);
}

/// Every policy is accounted for: it is chosen, or listed as one that would
/// not do, or as one that would do but comes after.
pub proof fn law_every_policy_is_accounted_for(
    r: Result<PlacementResolution, String>,
    needs: PlacementNeeds<'_>,
    sources: Seq<PolicyReading>,
    local_host: Option<Seq<char>>,
    other: int,
)
    requires
        placed_by_default(r, needs, sources, local_host),
        r is Ok,
        0 <= other < sources.len(),
        forall|k: int|
            0 <= k < sources.len() && k != other ==> (#[trigger] sources[k]).policy.name@ != sources[other].policy.name@,
    ensures
        ({
            let resolution = r->Ok_0;
            ||| resolution.selected == Some(other as usize)
            ||| exists|i: int|
                0 <= i < resolution.refused_candidates@.len() && (#[trigger] resolution.refused_candidates@[i]).policy_name@
                    == sources[other].policy.name@
            ||| exists|i: int|
                0 <= i < resolution.viable_not_selected@.len() && (#[trigger] resolution.viable_not_selected@[i]).policy_name@
                    == sources[other].policy.name@
        }),
{
    let (copies, order) = choose|copies: Seq<NamedCopy>, order: Seq<int>|
        {
            &&& #[trigger] copies_match(copies, sources)
            &&& #[trigger] home_copies(order, copies)
            &&& placement_outcome(r, needs, sources, order, local_host)
        };
    lemma_in_order(sources, copies, order, other);
    let (rows, list) = lemma_outcome(r, needs, sources, order, local_host);
    let pass = |i: int| policy_refusal(needs, sources[i]) is None;
    let fail = |i: int| policy_refusal(needs, sources[i]) is Some;
    let lacks = |i: int| target_host(sources[i]) is Err;
    let x = choose|x: int| 0 <= x < order.len() && order[x] == other;
    let first = refused(order, needs, sources);
    assert(first == order.filter(fail));
    let ok = passed(order, needs, sources);
    assert(ok == order.filter(pass));
    let second = unhosted(ok, sources);
    assert(second == ok.filter(lacks));
    if fail(other) {
        order.lemma_filter_contains(fail, x);
        let i = choose|i: int| 0 <= i < first.len() && first[i] == other;
        assert(crate::placement::refusal_row(rows[i], sources[first[i]], policy_refusal(needs, sources[first[i]])->0));
        assert(r->Ok_0.refused_candidates@[i].policy_name@ == sources[other].policy.name@);
    } else if lacks(other) {
        order.lemma_filter_contains(pass, x);
        let y = choose|y: int| 0 <= y < ok.len() && ok[y] == other;
        ok.lemma_filter_contains(lacks, y);
        let i = choose|i: int| 0 <= i < second.len() && second[i] == other;
        let n = first.len() + i;
        assert(second[n - first.len()] == other);
        assert(crate::placement::refusal_row(rows[n], sources[other], target_host(sources[other])->Err_0));
        assert(r->Ok_0.refused_candidates@[n].policy_name@ == sources[other].policy.name@);
    } else {
        let set = hosted(ok, sources);
        lemma_hosted(needs, sources, order, other);
        let z = choose|i: int| 0 <= i < set.len() && set[i] == other;
        assert(viable_of(list[z], sources, other, local_host));
        let ranked = rank_sort(list);
        lemma_rank_sort(list);
        assert(ranked.contains(list[z])) by {
            broadcast use vstd::seq_lib::group_to_multiset_ensures;

            assert(list.contains(list[z]));
            assert(list.to_multiset().count(list[z]) > 0);
            assert(ranked.to_multiset().count(list[z]) > 0);
        }
        let at = choose|i: int| 0 <= i < ranked.len() && ranked[i] == list[z];
        if at > 0 {
            assert(r->Ok_0.viable_not_selected@[at - 1].policy_name@ == ranked[at].name@);
        } else {
            assert(ranked[0].at == other);
        }
    }
}

/// Where a workflow requires agents and no policy serves it, that is an error;
/// it is not left without a placement.
pub proof fn law_required_agents_need_a_policy(
    r: Result<PlacementResolution, String>,
    needs: PlacementNeeds<'_>,
    sources: Seq<PolicyReading>,
    local_host: Option<Seq<char>>,
)
    requires
        placed_by_default(r, needs, sources, local_host),
        r matches Ok(resolution) && resolution.selected is None,
    ensures
        *needs.adapters matches Ok(required) && required@.len() == 0,
{
    let (copies, order) = choose|copies: Seq<NamedCopy>, order: Seq<int>|
        {
            &&& #[trigger] copies_match(copies, sources)
            &&& #[trigger] home_copies(order, copies)
            &&& placement_outcome(r, needs, sources, order, local_host)
        };
    let (rows, list) = lemma_outcome(r, needs, sources, order, local_host);
}

/// Some policy that was read is the one of a placement: it has its name and
/// its hosts, its host is the one decided on, it offers every agent that is
/// required, and is a container where that is asked for.
pub open spec fn placed_by(reading: PolicyReading, p: Placement, required: Seq<String>, contained: bool) -> bool {
    &&& p.policy.name@ == reading.policy.name@
    &&& p.decision.policy_name@ == reading.policy.name@
    &&& opt(p.policy.host_direct) == opt(reading.policy.host_direct)
    &&& p.policy.docker is Some == reading.policy.docker is Some
    &&& (reading.canonical matches Ok(Some(host)) && p.decision.target_host == host)
    &&& forall|i: int| 0 <= i < required.len() ==> runs_agent(reading, (#[trigger] required[i])@)
    &&& contained ==> p.policy.docker is Some
}

/// Some vessel of the workflow is to be contained.
pub open spec fn asks_for_a_container(workflow: EffectiveWorkflow) -> bool {
    exists|v: int| 0 <= v < workflow.vessels@.len() && (#[trigger] workflow.vessels@[v]).stance@ == "contained"@
}

/// Whatever workflow is placed can run where it is placed: the policy is the
/// one that was named, or one of those there are; it offers every agent that
/// the workflow was found to require; and it is a container where any vessel
/// is to be contained. What is left without a placement requires no agent and
/// no container.
pub proof fn law_placed_workflows_can_run(
    step: PlacementStep,
    workflow: EffectiveWorkflow,
    policy: Option<Seq<char>>,
    rd: PlacementReadings,
)
    requires
        placement_decided(step, workflow, policy, rd),
        step is Placed,
    ensures
        rd.adapters matches Some(Ok(required)) && ({
            match step->Placed_placement {
                None => required@.len() == 0 && !asks_for_a_container(workflow) && policy is None,
                Some(p) => exists|reading: PolicyReading|
                    {
                        &&& #[trigger] placed_by(reading, p, required@, asks_for_a_container(workflow))
                        &&& match policy {
                            Some(_) => rd.policy matches Some(Ok(named)) && named == reading,
                            None => rd.policies matches Some(Some(list)) && list@.contains(reading),
                        }
                    },
            }
        }),
{
    let needs = choose|needs: PlacementNeeds<'_>|
        #[trigger] crate::placing::needs_of(
            needs,
            workflow,
            rd.adapters->0,
            rd.agents@,
            rd.specs->0,
            rd.ambient_login@,
        ) && crate::placing::place_decided(step, needs, policy, rd);
    let contained = asks_for_a_container(workflow);
    assert(needs.contained == contained);
    assert(*needs.adapters == rd.adapters->0);
    if policy is Some {
        law_named_policies_serve(needs, policy->0, rd.policy->0);
        let reading = rd.policy->0->Ok_0;
        assert(placed_by(reading, step->Placed_placement->0, rd.adapters->0->Ok_0@, contained));
    } else {
        let policies = rd.policies->0;
        let sources = crate::placing::listed(policies);
        let (resolved, checked) = choose|resolved: Result<PlacementResolution, String>, checked: Result<PlacementResolution, String>|
            {
                &&& #[trigger] crate::placing::resolved_by_default(resolved, needs, policies, opt(rd.local_host))
                &&& #[trigger] crate::placement::default_checked(checked, resolved, needs, sources)
                &&& match checked {
                    Err(e) => crate::placing::placing_fails(step, e@),
                    Ok(resolution) => crate::placing::chosen(
                        step,
                        crate::placing::selected_of(resolution, sources),
                        resolution,
                    ),
                }
            };
        let resolution = checked->Ok_0;
        if resolution.selected is Some {
            law_default_policies_serve(resolved, needs, sources, opt(rd.local_host));
            let reading = sources[resolution.selected->0 as int];
            assert(sources.contains(reading));
            assert(placed_by(reading, step->Placed_placement->0, rd.adapters->0->Ok_0@, contained));
        } else {
            match *needs.adapters {
                Ok(required) => {
                    if required@.len() > 0 {
                        assert(adapter_problem(*needs.adapters, None) is Some);
                    }
                },
                Err(_) => {
                    assert(adapter_problem(*needs.adapters, None) is Some);
                },
            }
        }
    }
}

/// Work leaves this daemon exactly for a host that is not its own: the host
/// that the named policy places on.
pub proof fn law_only_remote_hosts_are_left_for(
    policy: Option<Seq<char>>,
    found: Result<PolicyReading, String>,
    local_host: Option<Seq<char>>,
)
    ensures
        remote_host(policy, found, local_host) matches Ok(Some(host)) ==> policy is Some && local_host != Some(host) && (
        found matches Ok(reading) && (reading.canonical matches Ok(Some(target)) && target.reference@ == host)),
        remote_host(policy, found, local_host) == Ok::<Option<Seq<char>>, Seq<char>>(None) && policy is Some ==> (
        found matches Ok(reading) && (reading.canonical matches Ok(Some(target)) && local_host == Some(target.reference@))),
        policy is None ==> remote_host(policy, found, local_host) == Ok::<Option<Seq<char>>, Seq<char>>(None),
{
}

proof fn lemma_any_capacity(sources: Seq<CapacitySource>, host: Seq<char>, i: int)
    requires
        0 <= i < sources.len(),
        sources[i].name@ == host,
        sources[i].floor_bytes is Some,
        forall|k: int| 0 <= k < i ==> !((#[trigger] sources[k]).name@ == host && sources[k].floor_bytes is Some),
    ensures
        any_capacity(sources, host) matches Some(c) && c.floor_bytes == sources[i].floor_bytes->0 && c.free_bytes
            == sources[i].free_bytes,
    decreases sources.len(),
{
    if i > 0 {
        assert(!(sources[0].name@ == host && sources[0].floor_bytes is Some));
        let rest = sources.drop_first();
        assert(rest[i - 1] == sources[i]);
        assert forall|k: int| 0 <= k < i - 1 implies !((#[trigger] rest[k]).name@ == host && rest[k].floor_bytes is Some) by {
            assert(rest[k] == sources[k + 1]);
        }
        lemma_any_capacity(rest, host, i - 1);
    }
}

proof fn lemma_own_capacity(sources: Seq<CapacitySource>, host: Seq<char>, i: int)
    requires
        0 <= i < sources.len(),
        sources[i].name@ == host,
        sources[i].local,
        forall|k: int| 0 <= k < i ==> !((#[trigger] sources[k]).name@ == host && sources[k].local),
    ensures
        match sources[i].floor_bytes {
            Some(floor) => own_capacity(sources, host) matches Some(c) && c.floor_bytes == floor && c.free_bytes
                == sources[i].free_bytes,
            None => own_capacity(sources, host) is None,
        },
    decreases sources.len(),
{
    if i > 0 {
        assert(!(sources[0].name@ == host && sources[0].local));
        let rest = sources.drop_first();
        assert(rest[i - 1] == sources[i]);
        assert forall|k: int| 0 <= k < i - 1 implies !((#[trigger] rest[k]).name@ == host && rest[k].local) by {
            assert(rest[k] == sources[k + 1]);
        }
        lemma_own_capacity(rest, host, i - 1);
    }
}

/// The room of a host that the policy names, or that is known from elsewhere,
/// is held against its floor as its record has it: the daemon's own record for
/// its own host, else the first that has a floor. Without a floor it counts as
/// admitted, and without a measurement it is refused.
pub proof fn law_room_is_checked_by_the_record(
    r: CapacityCheck,
    target: PlacementTargetHost,
    sources: Seq<CapacitySource>,
    host_targeted: bool,
    local_host: Option<Seq<char>>,
    i: int,
)
    requires
        decision_checked(r, Some(target), sources, host_targeted, local_host),
        0 <= i < sources.len(),
        sources[i].name@ == target.reference@,
        sources[i].floor_bytes is Some,
        host_targeted || !sources[i].local,
        if local_host == Some(target.reference@) {
            sources[i].local && forall|k: int|
                0 <= k < i ==> !((#[trigger] sources[k]).name@ == target.reference@ && sources[k].local)
        } else {
            forall|k: int| 0 <= k < i ==> !((#[trigger] sources[k]).name@ == target.reference@ && sources[k].floor_bytes is Some)
        },
    ensures
        if sources[i].floor_bytes == Some(0u64) {
            r is Admitted
        } else {
            match sources[i].free_bytes {
                None => r is Refused,
                Some(free) => r matches CapacityCheck::Measured { host, free_bytes, floor_bytes } && free_bytes == free
                    && floor_bytes == sources[i].floor_bytes->0 && host@ == target.display_name@,
            }
        },
{
    if local_host == Some(target.reference@) {
        lemma_own_capacity(sources, target.reference@, i);
    } else {
        lemma_any_capacity(sources, target.reference@, i);
    }
}

/// A host of which nothing is known is refused where the policy names it, and
/// is not looked at otherwise.
pub proof fn law_unknown_room_is_refused(
    r: CapacityCheck,
    target: PlacementTargetHost,
    sources: Seq<CapacitySource>,
    host_targeted: bool,
    local_host: Option<Seq<char>>,
)
    requires
        decision_checked(r, Some(target), sources, host_targeted, local_host),
        forall|i: int| 0 <= i < sources.len() ==> (#[trigger] sources[i]).name@ != target.reference@,
    ensures
        host_targeted ==> r is Refused,
        !host_targeted ==> r is Admitted,
{
    lemma_nothing_known(sources, target.reference@);
}

proof fn lemma_nothing_known(sources: Seq<CapacitySource>, host: Seq<char>)
    requires
        forall|i: int| 0 <= i < sources.len() ==> (#[trigger] sources[i]).name@ != host,
    ensures
        own_capacity(sources, host) is None,
        any_capacity(sources, host) is None,
    decreases sources.len(),
{
    if sources.len() > 0 {
        let rest = sources.drop_first();
        assert(sources[0].name@ != host);
        assert forall|i: int| 0 <= i < rest.len() implies (#[trigger] rest[i]).name@ != host by {
            assert(rest[i] == sources[i + 1]);
        }
        lemma_nothing_known(rest, host);
    }
}

/// Why a policy came behind the one that was chosen: it is of another priority,
/// or the chosen one is here and it is not, or runs on the host itself and it
/// does not; else it is by name.
pub proof fn law_reasons_tell_what_was_preferred(selected: ViablePolicy, candidate: ViablePolicy)
    ensures
        ({
            let reason = ordering_reason(selected, candidate);
            &&& candidate.priority != selected.priority && candidate.priority >= 0 && selected.priority >= 0 ==> reason == "priority "@ + decimal(
                candidate.priority as nat,
            ) + " is lower than selected policy `"@ + selected.name@ + "` priority "@ + decimal(selected.priority as nat)
            &&& candidate.priority == selected.priority && selected.local && !candidate.local ==> reason
                == "fallback ordering preferred local policy `"@ + selected.name@ + "`"@
            &&& candidate.priority == selected.priority && selected.local == candidate.local && selected.host_direct
                && !candidate.host_direct ==> reason == "fallback ordering preferred host-direct policy `"@ + selected.name@ + "`"@
            &&& candidate.priority == selected.priority && selected.local == candidate.local && selected.host_direct
                == candidate.host_direct ==> reason == "fallback ordering preferred policy `"@ + selected.name@ + "` by name"@
        }),
{
}

/// Every policy that would do but was not chosen is told, in its order, with
/// the host that it is for.
pub proof fn law_policies_that_were_not_chosen_are_told(rows: Seq<PlacementViableCandidate>, ranked: Seq<ViablePolicy>, i: int)
    requires
        not_selected(rows, ranked),
        1 <= i < ranked.len(),
    ensures
        rows.len() == ranked.len() - 1,
        rows[i - 1].policy_name@ == ranked[i].name@,
        rows[i - 1].target_host == ranked[i].target,
        rows[i - 1].reason@ == ordering_reason(ranked[0], ranked[i]),
{
    assert(rows[i - 1].policy_name@ == ranked[(i - 1) + 1].name@);
}

/// A refused policy is told with the host that it is for, where it is for one.
pub proof fn law_refused_policies_are_told_with_their_host(t: PlacementTargetHost, reading: PolicyReading)
    requires
        refused_host(t, reading),
    ensures
        target_host(reading) matches Ok(target) ==> t == target,
        target_host(reading) is Err ==> t.reference@.len() == 0 && t.display_name@ == "no target host"@,
{
}

/// A policy that was named is placed without others being weighed.
pub proof fn law_named_policies_are_not_weighed(step: PlacementStep, needs: PlacementNeeds<'_>, policy: Seq<char>, rd: PlacementReadings)
    requires
        place_decided(step, needs, Some(policy), rd),
        step is Placed,
    ensures
        step->placement matches Some(p) && p.decision.refused_candidates@.len() == 0 && p.decision.viable_not_selected@.len() == 0,
        rd.policy matches Some(Ok(reading)) && (step->placement matches Some(p) && p.decision.policy_name@ == reading.policy.name@
            && p.policy.name@ == reading.policy.name@),
{
}

} // verus!
