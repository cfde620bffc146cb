//! Where a convoy is placed: which policies would do, which is chosen, and
//! whether its host has what the work needs.
use vstd::prelude::*;

use crate::health::HostCondition;
use crate::model::{PlacementDecision, PlacementRefusal, PlacementTargetHost, PlacementViableCandidate};
use crate::naming::{admission_value, required_admission_value};
use crate::ordered::{lex_sort, sort_dedup, sort_strs, sorted_unique, OrderedMap, OrderedSet};
use crate::sorting::{lemma_rank_sort, lemma_rank_sort_keeps, rank_sort, sort_ranked, Ranked};
use crate::text::{
    concat2, concat3, concat4, concat6, concat7, concat8, concat9, first_some, holds, join, join_strs, lemma_lex_asymmetric,
    lemma_lex_total, lemma_lex_transitive, lex_le, lex_lt, opt, opt_is, signed_decimal, signed_decimal_str, str_eq, str_lt,
    strs, strs_clone, strs_hold,
};
use crate::time::{date_text, Timestamp};
use crate::workflow::{
    ambient_credential_dependent_vessels, ambient_pairs, ambient_vessels, first_missing, held_refs, missing_agent_credential,
    missing_name, required_credentials, vessel_problems, AmbientVessel, VesselNeeds,
};

verus! {

/// A container on a host for each vessel.
#[derive(Debug, PartialEq, Eq)]
pub struct DockerPolicy {
    pub host_ref: String,
    pub image: String,
    pub agent_adapters: Vec<String>,
}

/// A way of placing convoys.
#[derive(Debug, PartialEq, Eq)]
pub struct PlacementPolicy {
    pub name: String,
    pub priority: i64,
    /// The host that vessels run on directly.
    pub host_direct: Option<String>,
    pub docker: Option<DockerPolicy>,
}

/// What the host of a placement last reported, as of now.
#[derive(Debug)]
pub struct HostReadiness {
    pub ready: bool,
    pub generation: Option<String>,
    pub conditions: Vec<HostCondition>,
    pub agent_adapters: Result<Vec<String>, String>,
    pub held_credentials: Result<OrderedSet, String>,
    /// When each expired credential ran out.
    pub expired: Result<OrderedMap<Timestamp>, String>,
}

/// A policy with what was found out about its host.
#[derive(Debug)]
pub struct PolicyReading {
    pub policy: PlacementPolicy,
    /// Whether the policy is this daemon's own copy.
    pub local: bool,
    /// The host that its host reference means, where one does.
    pub canonical: Result<Option<PlacementTargetHost>, String>,
    /// The status of that host, where it reported one.
    pub host: Result<Option<HostReadiness>, String>,
}

/// A copy of a named record.
pub struct NamedCopy {
    pub name: String,
    pub local: bool,
}

/// The names of copies.
pub open spec fn copy_names(copies: Seq<NamedCopy>) -> Seq<Seq<char>> {
    Seq::new(copies.len(), |i: int| copies[i].name@)
}

/// The copy of a name that counts: the first local one, else the first.
pub open spec fn home_copy(copies: Seq<NamedCopy>, name: Seq<char>) -> Option<int>
    decreases copies.len(),
{
    if copies.len() == 0 {
        None
    } else {
        let before = home_copy(copies.drop_last(), name);
        if copies.last().name@ != name {
            before
        } else {
            match before {
                None => Some(copies.len() - 1),
                Some(i) => if copies.last().local && !copies[i].local {
                    Some(copies.len() - 1)
                } else {
                    Some(i)
                },
            }
        }
    }
}

/// `r` holds the copy that counts of each name, by name.
pub open spec fn home_copies(r: Seq<int>, copies: Seq<NamedCopy>) -> bool {
    let names = sorted_unique(copy_names(copies));
    &&& r.len() == names.len()
    &&& forall|i: int|
        0 <= i < r.len() ==> home_copy(copies, names[i]) == Some(#[trigger] r[i]) && 0 <= r[i] < copies.len()
            && copies[r[i]].name@ == names[i]
}

proof fn lemma_home_copy(copies: Seq<NamedCopy>, name: Seq<char>)
    ensures
        match home_copy(copies, name) {
            Some(i) => 0 <= i < copies.len() && copies[i].name@ == name,
            None => !holds(copy_names(copies), name),
        },
    decreases copies.len(),
{
    if copies.len() > 0 {
        lemma_home_copy(copies.drop_last(), name);
        let front = copies.drop_last();
        if home_copy(copies, name) is None {
            assert forall|i: int| 0 <= i < copy_names(copies).len() implies #[trigger] copy_names(copies)[i] != name by {
                if i < front.len() {
                    assert(copy_names(front)[i] == copy_names(copies)[i]);
                }
            }
        }
    }
}

fn find_home_copy(copies: &Vec<NamedCopy>, name: &str) -> (r: Option<usize>)
    ensures
        match r {
            Some(i) => home_copy(copies@, name@) == Some(i as int),
            None => home_copy(copies@, name@) is None,
        },
{
    let mut best: Option<usize> = None;
    let mut i: usize = 0;
    while i < copies.len()
        invariant
            i <= copies@.len(),
            match best {
                Some(b) => b < i && home_copy(copies@.take(i as int), name@) == Some(b as int),
                None => home_copy(copies@.take(i as int), name@) is None,
            },
        decreases copies.len() - i,
    {
        assert(copies@.take(i + 1).drop_last() =~= copies@.take(i as int));
        assert(copies@.take(i + 1).last() == copies@[i as int]);
        if str_eq(copies[i].name.as_str(), name) {
            best = match best {
                None => Some(i),
                Some(b) => {
                    assert(copies@.take(i + 1)[b as int] == copies@[b as int]);
                    if copies[i].local && !copies[b].local {
                        Some(i)
                    } else {
                        Some(b)
                    }
                },
            };
        }
        i = i + 1;
    }
    assert(copies@.take(copies@.len() as int) =~= copies@);
    best
}

/// Of copies of the same record, this daemon's own wins over replicas.
pub fn home_copy_wins_by_name(copies: &Vec<NamedCopy>) -> (r: Vec<usize>)
    ensures
        home_copies(crate::address::ints(r@), copies@),
{
    let mut all: Vec<String> = Vec::new();
    let mut i: usize = 0;
    while i < copies.len()
        invariant
            i <= copies@.len(),
            all@.len() == i,
            forall|k: int| 0 <= k < i ==> (#[trigger] all@[k])@ == copies@[k].name@,
        decreases copies.len() - i,
    {
        all.push(copies[i].name.clone());
        i = i + 1;
    }
    assert(strs(all@) =~= copy_names(copies@));
    let names = sort_dedup(&all);
    proof {
        crate::ordered::lemma_sorted_unique(strs(names@), copy_names(copies@));
    }
    let mut r: Vec<usize> = Vec::new();
    let mut k: usize = 0;
    let ghost sorted = strs(names@);
    while k < names.len()
        invariant
            k <= names@.len(),
            sorted == strs(names@),
            sorted == sorted_unique(copy_names(copies@)),
            crate::ordered::sorted_set_of(sorted, copy_names(copies@)),
            r@.len() == k,
            forall|j: int|
                0 <= j < k ==> home_copy(copies@, sorted[j]) == Some(#[trigger] r@[j] as int) && r@[j] < copies@.len()
                    && copies@[r@[j] as int].name@ == sorted[j],
        decreases names.len() - k,
    {
        let name = names[k].as_str();
        proof {
            lemma_home_copy(copies@, name@);
            assert(sorted[k as int] == name@);
            assert(holds(sorted, name@));
            assert(holds(copy_names(copies@), name@));
        }
        match find_home_copy(copies, name) {
            Some(at) => {
                r.push(at);
            },
            None => {},
        }
        k = k + 1;
    }
    assert forall|j: int| 0 <= j < crate::address::ints(r@).len() implies home_copy(copies@, sorted[j]) == Some(
        #[trigger] crate::address::ints(r@)[j],
    ) && 0 <= crate::address::ints(r@)[j] < copies@.len() && copies@[crate::address::ints(r@)[j]].name@ == sorted[j] by {
        assert(crate::address::ints(r@)[j] == r@[j]);
    }
    r
}

/// A record that is homed here is never passed over for a copy of it.
pub proof fn law_home_copies_win(copies: Seq<NamedCopy>, i: int)
    requires
        0 <= i < copies.len(),
        copies[i].local,
    ensures
        home_copy(copies, copies[i].name@) matches Some(k) && 0 <= k < copies.len() && copies[k].local && copies[k].name@
            == copies[i].name@,
    decreases copies.len(),
{
    let name = copies[i].name@;
    let front = copies.drop_last();
    lemma_home_copy(front, name);
    if i < front.len() {
        assert(front[i] == copies[i]);
        law_home_copies_win(front, i);
    }
}

/// The host a policy refers to.
pub open spec fn host_ref_of(policy: PlacementPolicy) -> Option<Seq<char>> {
    match (policy.host_direct, policy.docker) {
        (Some(host), _) => Some(host@),
        (None, Some(docker)) => Some(docker.host_ref@),
        (None, None) => None,
    }
}

pub fn placement_host_ref(policy: &PlacementPolicy) -> (r: Option<String>)
    ensures
        opt(r) == host_ref_of(*policy),
{
    match &policy.host_direct {
        Some(host) => Some(host.clone()),
        None => match &policy.docker {
            Some(docker) => Some(docker.host_ref.clone()),
            None => None,
        },
    }
}

/// A host record that a reference may mean.
#[derive(Debug, PartialEq, Eq)]
pub struct HostRecord {
    pub name: String,
    pub display_name: String,
}

/// Where the host of a name stands, or the number of hosts.
pub open spec fn host_at(hosts: Seq<HostRecord>, name: Seq<char>) -> int
    decreases hosts.len(),
{
    if hosts.len() == 0 || hosts[0].name@ == name {
        0
    } else {
        1 + host_at(hosts.drop_first(), name)
    }
}

/// `t` is the host of an identity.
pub open spec fn target_of(t: PlacementTargetHost, host: HostRecord, canonical: Seq<char>) -> bool {
    &&& t.reference@ == canonical
    &&& t.display_name@ == if host.display_name@.len() == 0 {
        host.name@
    } else {
        host.display_name@
    }
}

/// The host that an identity, which a reference was resolved to, stands for.
pub fn canonical_placement_host_ref_from_sources(
    hosts: &Vec<HostRecord>,
    canonical: &Result<Option<String>, String>,
) -> (r: Result<Option<PlacementTargetHost>, String>)
    requires
        canonical matches Ok(Some(c)) ==> host_at(hosts@, c@) < hosts@.len(),
    ensures
        match *canonical {
            Err(e) => r == Err::<Option<PlacementTargetHost>, String>(e),
            Ok(None) => r == Ok::<Option<PlacementTargetHost>, String>(None),
            Ok(Some(c)) => r matches Ok(Some(t)) && target_of(t, hosts@[host_at(hosts@, c@)], c@),
        },
{
    match canonical {
        Err(e) => Err(e.clone()),
        Ok(None) => Ok(None),
        Ok(Some(c)) => {
            let mut i: usize = 0;
            assert(hosts@.skip(0) =~= hosts@);
            while !str_eq(hosts[i].name.as_str(), c.as_str())
                invariant
                    i < hosts@.len(),
                    host_at(hosts@, c@) < hosts@.len(),
                    host_at(hosts@, c@) == i + host_at(hosts@.skip(i as int), c@),
                decreases hosts.len() - i,
            {
                assert(hosts@.skip(i as int)[0] == hosts@[i as int]);
                assert(hosts@.skip(i as int).drop_first() =~= hosts@.skip(i + 1));
                proof {
                    lemma_host_at(hosts@.skip(i + 1), c@);
                }
                i = i + 1;
            }
            assert(hosts@.skip(i as int)[0] == hosts@[i as int]);
            let host = &hosts[i];
            let display_name = if host.display_name.as_str().is_empty() {
                host.name.clone()
            } else {
                host.display_name.clone()
            };
            Ok(Some(PlacementTargetHost { reference: c.clone(), display_name }))
        },
    }
}

proof fn lemma_host_at(hosts: Seq<HostRecord>, name: Seq<char>)
    ensures
        0 <= host_at(hosts, name) <= hosts.len(),
    decreases hosts.len(),
{
    if hosts.len() > 0 && hosts[0].name@ != name {
        lemma_host_at(hosts.drop_first(), name);
    }
}

/// The host a policy places on, or why there is none.
pub open spec fn target_host(reading: PolicyReading) -> Result<PlacementTargetHost, Seq<char>> {
    match host_ref_of(reading.policy) {
        None => Err("placement `"@ + reading.policy.name@ + "` has no target host"@),
        Some(host_ref) => match reading.canonical {
            Err(e) => Err("placement `"@ + reading.policy.name@ + "` "@ + e@),
            Ok(None) => Err(
                "placement `"@ + reading.policy.name@ + "` "@ + ("references unknown host `"@ + host_ref + "`"@),
            ),
            Ok(Some(target)) => Ok(target),
        },
    }
}

pub fn placement_target_host(reading: &PolicyReading) -> (r: Result<PlacementTargetHost, String>)
    ensures
        match r {
            Ok(t) => target_host(*reading) == Ok::<PlacementTargetHost, Seq<char>>(t),
            Err(e) => target_host(*reading) == Err::<PlacementTargetHost, Seq<char>>(e@),
        },
{
    let name = reading.policy.name.as_str();
    match placement_host_ref(&reading.policy) {
        None => Err(concat3("placement `", name, "` has no target host")),
        Some(host_ref) => match &reading.canonical {
            Err(e) => Err(concat4("placement `", name, "` ", e.as_str())),
            Ok(None) => {
                let why = concat3("references unknown host `", host_ref.as_str(), "`");
                Err(concat4("placement `", name, "` ", why.as_str()))
            },
            Ok(Some(target)) => Ok(target.copy()),
        },
    }
}

/// The generation of the daemon that runs a host.
pub open spec fn generation_text(generation: Option<Seq<char>>) -> Seq<char> {
    match generation {
        Some(g) => g,
        None => "unknown"@,
    }
}

pub fn host_generation(generation: &Option<String>) -> (r: String)
    ensures
        r@ == generation_text(opt(*generation)),
{
    match generation {
        Some(g) => g.clone(),
        None => "unknown".to_owned(),
    }
}

/// The reasons a host gives for not being ready.
pub open spec fn failing(conditions: Seq<HostCondition>) -> Seq<Seq<char>>
    decreases conditions.len(),
{
    if conditions.len() == 0 {
        Seq::empty()
    } else {
        let before = failing(conditions.drop_last());
        let last = conditions.last();
        if last.blocks_readiness {
            before.push(last.reason@ + ": "@ + last.message@)
        } else {
            before
        }
    }
}

/// How a host that is not ready is reported.
pub open spec fn not_ready_text(placement: Seq<char>, host: Seq<char>, generation: Seq<char>, conditions: Seq<HostCondition>) -> Seq<char> {
    let reasons = lex_sort(failing(conditions));
    "placement `"@ + placement + "` host `"@ + host + "` generation `"@ + generation + "` is not ready"@ + (
    if reasons.len() == 0 {
        ""@
    } else {
        ": "@ + join(reasons, "; "@)
    })
}

pub fn placement_host_not_ready_reason(
    placement_name: &str,
    host_label: &str,
    generation: &str,
    conditions: &Vec<HostCondition>,
) -> (r: String)
    ensures
        r@ == not_ready_text(placement_name@, host_label@, generation@, conditions@),
{
    let mut reasons: Vec<String> = Vec::new();
    let mut i: usize = 0;
    assert(strs(reasons@) =~= failing(conditions@.take(0)));
    while i < conditions.len()
        invariant
            i <= conditions@.len(),
            strs(reasons@) == failing(conditions@.take(i as int)),
        decreases conditions.len() - i,
    {
        assert(conditions@.take(i + 1).drop_last() =~= conditions@.take(i as int));
        assert(conditions@.take(i + 1).last() == conditions@[i as int]);
        if conditions[i].blocks_readiness {
            let ghost was = strs(reasons@);
            let text = concat3(conditions[i].reason.as_str(), ": ", conditions[i].message.as_str());
            reasons.push(text);
            assert(strs(reasons@) =~= was.push(text@));
        }
        i = i + 1;
    }
    assert(conditions@.take(conditions@.len() as int) =~= conditions@);
    let sorted = sort_strs(&reasons);
    assert(strs(sorted@).len() == sorted@.len());
    let detail = if sorted.len() == 0 {
        "".to_owned()
    } else {
        let joined = join_strs(&sorted, "; ");
        concat2(": ", joined.as_str())
    };
    concat8(
        "placement `",
        placement_name,
        "` host `",
        host_label,
        "` generation `",
        generation,
        "` is not ready",
        detail.as_str(),
    )
}

/// How the trouble with a host is reported.
pub open spec fn host_trouble(placement: Seq<char>, host: Seq<char>, generation: Seq<char>, trouble: Seq<char>) -> Seq<char> {
    "placement `"@ + placement + "` host `"@ + host + "` generation `"@ + generation + "` "@ + trouble
}

fn host_trouble_text(placement: &str, host: &str, generation: &str, trouble: &str) -> (r: String)
    ensures
        r@ == host_trouble(placement@, host@, generation@, trouble@),
{
    concat8("placement `", placement, "` host `", host, "` generation `", generation, "` ", trouble)
}

/// The agents a placement can run, and what they run on.
pub open spec fn adapters_of(reading: PolicyReading) -> Result<(Seq<Seq<char>>, Seq<char>), Seq<char>> {
    let name = reading.policy.name@;
    match reading.policy.docker {
        Some(docker) => Ok((strs(docker.agent_adapters@), "image `"@ + docker.image@ + "`"@)),
        None => if reading.policy.host_direct is None {
            Ok((Seq::empty(), "unknown target environment"@))
        } else {
            match target_host(reading) {
                Err(e) => Err(e),
                Ok(target) => match reading.host {
                    Err(e) => Err("placement `"@ + name + "` target host is not ready: "@ + e@),
                    Ok(None) => Err(
                        host_trouble(name, target.display_name@, "unknown"@, "has no observed status"@),
                    ),
                    Ok(Some(status)) => if !status.ready {
                        Err(
                            not_ready_text(
                                name,
                                target.display_name@,
                                generation_text(opt(status.generation)),
                                status.conditions@,
                            ),
                        )
                    } else {
                        match status.agent_adapters {
                            Err(e) => Err(
                                host_trouble(
                                    name,
                                    target.display_name@,
                                    generation_text(opt(status.generation)),
                                    "has invalid agent adapter capabilities: "@ + e@,
                                ),
                            ),
                            Ok(adapters) => Ok((strs(adapters@), "host `"@ + target.display_name@ + "`"@)),
                        }
                    },
                },
            }
        },
    }
}

pub fn placement_agent_adapters(reading: &PolicyReading) -> (r: Result<(Vec<String>, String), String>)
    ensures
        match r {
            Ok((adapters, detail)) => adapters_of(*reading) == Ok::<(Seq<Seq<char>>, Seq<char>), Seq<char>>(
                (strs(adapters@), detail@),
            ),
            Err(e) => adapters_of(*reading) == Err::<(Seq<Seq<char>>, Seq<char>), Seq<char>>(e@),
        },
{
    let name = reading.policy.name.as_str();
    match &reading.policy.docker {
        Some(docker) => Ok((strs_clone(&docker.agent_adapters), concat3("image `", docker.image.as_str(), "`"))),
        None => {
            if reading.policy.host_direct.is_none() {
                let none: Vec<String> = Vec::new();
                assert(strs(none@) =~= Seq::<Seq<char>>::empty());
                return Ok((none, "unknown target environment".to_owned()));
            }
            let target = placement_target_host(reading)?;
            let label = target.display_name.as_str();
            match &reading.host {
                Err(e) => Err(concat4("placement `", name, "` target host is not ready: ", e.as_str())),
                Ok(None) => Err(host_trouble_text(name, label, "unknown", "has no observed status")),
                Ok(Some(status)) => {
                    let generation = host_generation(&status.generation);
                    if !status.ready {
                        return Err(
                            placement_host_not_ready_reason(name, label, generation.as_str(), &status.conditions),
                        );
                    }
                    match &status.agent_adapters {
                        Err(e) => {
                            let trouble = concat2("has invalid agent adapter capabilities: ", e.as_str());
                            Err(host_trouble_text(name, label, generation.as_str(), trouble.as_str()))
                        },
                        Ok(adapters) => Ok((strs_clone(adapters), concat3("host `", label, "`"))),
                    }
                },
            }
        },
    }
}

/// The first of some names that another list lacks.
pub open spec fn first_lacking(names: Seq<Seq<char>>, known: Seq<Seq<char>>) -> Option<Seq<char>>
    decreases names.len(),
{
    if names.len() == 0 {
        None
    } else if !holds(known, names[0]) {
        Some(names[0])
    } else {
        first_lacking(names.drop_first(), known)
    }
}

/// Why the agents a workflow requires cannot run in a placement.
pub open spec fn adapter_problem(required: Result<Vec<String>, String>, placement: Option<PolicyReading>) -> Option<Seq<char>> {
    match required {
        Err(e) => Some(e@),
        Ok(required) => if required@.len() == 0 {
            None
        } else {
            match placement {
                None => Some(
                    "workflow requires agent adapter `"@ + required@[0]@ + "`, but no placement is available"@,
                ),
                Some(reading) => match adapters_of(reading) {
                    Err(e) => Some(e),
                    Ok((available, detail)) => match first_lacking(strs(required@), available) {
                        None => None,
                        Some(adapter) => Some(
                            "workflow requires agent adapter `"@ + adapter + "`, which is not available in placement `"@
                                + reading.policy.name@ + "` ("@ + detail + ")"@,
                        ),
                    },
                },
            }
        },
    }
}

/// `p` is the placement that is referred to.
pub open spec fn the_placement(p: Option<&PolicyReading>) -> Option<PolicyReading> {
    match p {
        Some(reading) => Some(*reading),
        None => None,
    }
}

pub fn validate_workflow_agent_adapters(
    required: &Result<Vec<String>, String>,
    placement: Option<&PolicyReading>,
) -> (r: Result<(), String>)
    ensures
        match r {
            Ok(()) => adapter_problem(*required, the_placement(placement)) is None,
            Err(e) => adapter_problem(*required, the_placement(placement)) == Some(e@),
        },
{
    let wanted = match required {
        Err(e) => {
            return Err(e.clone());
        },
        Ok(wanted) => wanted,
    };
    if wanted.len() == 0 {
        return Ok(());
    }
    let reading = match placement {
        None => {
            return Err(
                concat3(
                    "workflow requires agent adapter `",
                    wanted[0].as_str(),
                    "`, but no placement is available",
                ),
            );
        },
        Some(reading) => reading,
    };
    let (available, detail) = placement_agent_adapters(reading)?;
    let mut i: usize = 0;
    assert(strs(wanted@).skip(0) =~= strs(wanted@));
    while i < wanted.len()
        invariant
            i <= wanted@.len(),
            0 < wanted@.len(),
            *required == Ok::<Vec<String>, String>(*wanted),
            the_placement(placement) == Some(*reading),
            adapters_of(*reading) == Ok::<(Seq<Seq<char>>, Seq<char>), Seq<char>>((strs(available@), detail@)),
            first_lacking(strs(wanted@), strs(available@)) == first_lacking(
                strs(wanted@).skip(i as int),
                strs(available@),
            ),
        decreases wanted.len() - i,
    {
        assert(strs(wanted@).skip(i as int)[0] == wanted@[i as int]@);
        assert(strs(wanted@).skip(i as int).drop_first() =~= strs(wanted@).skip(i + 1));
        if !strs_hold(&available, wanted[i].as_str()) {
            return Err(
                concat7(
                    "workflow requires agent adapter `",
                    wanted[i].as_str(),
                    "`, which is not available in placement `",
                    reading.policy.name.as_str(),
                    "` (",
                    detail.as_str(),
                    ")",
                ),
            );
        }
        i = i + 1;
    }
    Ok(())
}

/// The first required credential that ran out, and when.
pub open spec fn expired_credential(required: Seq<Seq<char>>, expired: Map<Seq<char>, Timestamp>) -> Option<(Seq<char>, Timestamp)>
    decreases required.len(),
{
    if required.len() == 0 {
        None
    } else if expired.dom().contains(required[0]) {
        Some((required[0], expired[required[0]]))
    } else {
        expired_credential(required.drop_first(), expired)
    }
}

/// The first vessel whose login on the host ran out, and when.
pub open spec fn expired_login(vessels: Seq<(Seq<char>, Seq<char>)>, expired: Map<Seq<char>, Timestamp>) -> Option<
    (Seq<char>, Timestamp),
>
    decreases vessels.len(),
{
    if vessels.len() == 0 {
        None
    } else if expired.dom().contains(vessels[0].1) {
        Some((vessels[0].0, expired[vessels[0].1]))
    } else {
        expired_login(vessels.drop_first(), expired)
    }
}

/// The day an instant falls on.
pub open spec fn day(at: Timestamp) -> Seq<char> {
    date_text(at.secs() as i64, at.nanos() as u32)
}

/// What keeps the required credentials from the status of a placement's host.
pub open spec fn held_problem(
    name: Seq<char>,
    host: Seq<char>,
    status: HostReadiness,
    required: Seq<Seq<char>>,
) -> Option<Seq<char>> {
    let generation = generation_text(opt(status.generation));
    if required.len() == 0 {
        None
    } else if !status.ready {
        Some(not_ready_text(name, host, generation, status.conditions@))
    } else {
        match status.held_credentials {
            Err(e) => Some(host_trouble(name, host, generation, "has invalid held-credential capability: "@ + e@)),
            Ok(held) => match first_missing(required, held@) {
                Some(missing) => Some(
                    "workflow requires credential `"@ + missing + "`, which placement `"@ + name + "` host `"@ + host
                        + "` generation `"@ + generation + "` does not hold"@,
                ),
                None => None,
            },
        }
    }
}

/// What ran out of all that a workflow relies on.
pub open spec fn expiry_problem(
    name: Seq<char>,
    host: Seq<char>,
    status: HostReadiness,
    required: Seq<Seq<char>>,
    ambient: Seq<(Seq<char>, Seq<char>)>,
    login: Seq<char>,
) -> Option<Seq<char>> {
    match status.expired {
        Err(e) => Some(
            "placement `"@ + name + "` host `"@ + host + "` has invalid credential expiry capability: "@ + e@,
        ),
        Ok(expired) => match expired_credential(required, expired@) {
            Some((credential, at)) => Some(
                "credential `"@ + credential + "` expired on host `"@ + host + "` on "@ + day(at)
                    + " \u{2014} refresh its material before dispatching"@,
            ),
            None => match expired_login(ambient, expired@) {
                Some((vessel, at)) => Some(
                    "vessel `"@ + vessel + "` depends on the ambient "@ + login + " login on host `"@ + host
                        + "`, which expired on "@ + day(at) + (" \u{2014} log in again on that host or grant a delivered "@
                        + login + " credential"@),
                ),
                None => None,
            },
        },
    }
}

/// Why a placement cannot serve the credentials of a workflow.
pub open spec fn credential_problem(
    vessels: Seq<VesselNeeds>,
    specs: Result<OrderedMap<String>, String>,
    login: Seq<char>,
    placement: Option<PolicyReading>,
) -> Option<Seq<char>> {
    match specs {
        Err(e) => Some("list credential specs: "@ + e@),
        Ok(specs) => listed_credential_problem(vessels, specs.keys(), specs@, login, placement),
    }
}

/// Why a placement cannot serve the credentials of a workflow, where each of
/// them goes being known.
pub open spec fn listed_credential_problem(
    vessels: Seq<VesselNeeds>,
    keys: Seq<Seq<char>>,
    specs: Map<Seq<char>, String>,
    login: Seq<char>,
    placement: Option<PolicyReading>,
) -> Option<Seq<char>> {
    match first_some(vessel_problems(vessels, keys, specs)) {
        Some(problem) => Some(problem),
        None => match ambient_vessels(vessels, specs) {
            Err(e) => Some(e),
            Ok(ambient) => {
                let required = sorted_unique(held_refs(vessels));
                if required.len() == 0 && ambient.len() == 0 {
                    None
                } else {
                    match placement {
                        None => if required.len() > 0 {
                            Some(
                                "workflow requires credential `"@ + required[0] + "`, but no placement is available"@,
                            )
                        } else {
                            None
                        },
                        Some(reading) => {
                            let name = reading.policy.name@;
                            match target_host(reading) {
                                Err(e) => Some(e),
                                Ok(target) => match reading.host {
                                    Err(e) => Some("placement `"@ + name + "` target host is not ready: "@ + e@),
                                    Ok(None) => if required.len() == 0 {
                                        None
                                    } else {
                                        Some(
                                            host_trouble(name, target.display_name@, "unknown"@, "has no observed status"@),
                                        )
                                    },
                                    Ok(Some(status)) => match held_problem(
                                        name,
                                        target.display_name@,
                                        status,
                                        required,
                                    ) {
                                        Some(problem) => Some(problem),
                                        None => expiry_problem(
                                            name,
                                            target.display_name@,
                                            status,
                                            required,
                                            ambient,
                                            login,
                                        ),
                                    },
                                },
                            }
                        },
                    }
                }
            },
        },
    }
}

fn check_held(name: &str, host: &str, status: &HostReadiness, required: &Vec<String>) -> (r: Option<String>)
    ensures
        opt(r) == held_problem(name@, host@, *status, strs(required@)),
{
    assert(strs(required@).len() == required@.len());
    let generation = host_generation(&status.generation);
    if required.len() == 0 {
        None
    } else if !status.ready {
        Some(placement_host_not_ready_reason(name, host, generation.as_str(), &status.conditions))
    } else {
        match &status.held_credentials {
            Err(e) => {
                let trouble = concat2("has invalid held-credential capability: ", e.as_str());
                Some(host_trouble_text(name, host, generation.as_str(), trouble.as_str()))
            },
            Ok(held) => match missing_name(required, held) {
                Some(missing) => Some(
                    concat9(
                        "workflow requires credential `",
                        missing.as_str(),
                        "`, which placement `",
                        name,
                        "` host `",
                        host,
                        "` generation `",
                        generation.as_str(),
                        "` does not hold",
                    ),
                ),
                None => None,
            },
        }
    }
}

fn check_expiry(
    name: &str,
    host: &str,
    status: &HostReadiness,
    required: &Vec<String>,
    ambient: &Vec<AmbientVessel>,
    login: &str,
) -> (r: Option<String>)
    ensures
        opt(r) == expiry_problem(name@, host@, *status, strs(required@), ambient_pairs(ambient@), login@),
{
    let expired = match &status.expired {
        Err(e) => {
            return Some(
                concat6(
                    "placement `",
                    name,
                    "` host `",
                    host,
                    "` has invalid credential expiry capability: ",
                    e.as_str(),
                ),
            );
        },
        Ok(expired) => expired,
    };
    let mut i: usize = 0;
    assert(strs(required@).skip(0) =~= strs(required@));
    while i < required.len()
        invariant
            i <= required@.len(),
            status.expired == Ok::<OrderedMap<Timestamp>, String>(*expired),
            expired_credential(strs(required@), expired@) == expired_credential(
                strs(required@).skip(i as int),
                expired@,
            ),
        decreases required.len() - i,
    {
        assert(strs(required@).skip(i as int)[0] == required@[i as int]@);
        assert(strs(required@).skip(i as int).drop_first() =~= strs(required@).skip(i + 1));
        match expired.get(required[i].as_str()) {
            Some(at) => {
                let date = at.to_date();
                return Some(
                    concat7(
                        "credential `",
                        required[i].as_str(),
                        "` expired on host `",
                        host,
                        "` on ",
                        date.as_str(),
                        " \u{2014} refresh its material before dispatching",
                    ),
                );
            },
            None => {},
        }
        i = i + 1;
    }
    let ghost pairs = ambient_pairs(ambient@);
    let mut k: usize = 0;
    assert(pairs.skip(0) =~= pairs);
    while k < ambient.len()
        invariant
            k <= ambient@.len(),
            pairs == ambient_pairs(ambient@),
            status.expired == Ok::<OrderedMap<Timestamp>, String>(*expired),
            expired_credential(strs(required@), expired@) is None,
            expired_login(pairs, expired@) == expired_login(pairs.skip(k as int), expired@),
        decreases ambient.len() - k,
    {
        assert(pairs.skip(k as int)[0] == (ambient@[k as int].vessel@, ambient@[k as int].scope@));
        assert(pairs.skip(k as int).drop_first() =~= pairs.skip(k + 1));
        match expired.get(ambient[k].scope.as_str()) {
            Some(at) => {
                let date = at.to_date();
                let advice = concat3(
                    " \u{2014} log in again on that host or grant a delivered ",
                    login,
                    " credential",
                );
                return Some(
                    concat9(
                        "vessel `",
                        ambient[k].vessel.as_str(),
                        "` depends on the ambient ",
                        login,
                        " login on host `",
                        host,
                        "`, which expired on ",
                        date.as_str(),
                        advice.as_str(),
                    ),
                );
            },
            None => {},
        }
        k = k + 1;
    }
    None
}

/// Checks that the agents of a workflow have credentials to work with, and
/// that the host of its placement holds them unexpired. `login` is the agent
/// whose login is found on hosts.
pub fn validate_workflow_credentials(
    vessels: &Vec<VesselNeeds>,
    specs: &Result<OrderedMap<String>, String>,
    login: &str,
    placement: Option<&PolicyReading>,
) -> (r: Result<(), String>)
    ensures
        match r {
            Ok(()) => credential_problem(vessels@, *specs, login@, the_placement(placement)) is None,
            Err(e) => credential_problem(vessels@, *specs, login@, the_placement(placement)) == Some(e@),
        },
{
    let specs = match specs {
        Err(e) => {
            return Err(concat2("list credential specs: ", e.as_str()));
        },
        Ok(specs) => specs,
    };
    match missing_agent_credential(vessels, specs) {
        Some(problem) => {
            return Err(problem);
        },
        None => {},
    }
    let ambient = ambient_credential_dependent_vessels(vessels, specs)?;
    let required = required_credentials(vessels);
    assert(strs(required@).len() == required@.len());
    assert(ambient_pairs(ambient@).len() == ambient@.len());
    if required.len() == 0 && ambient.len() == 0 {
        return Ok(());
    }
    let reading = match placement {
        None => {
            if required.len() > 0 {
                assert(strs(required@)[0] == required@[0]@);
                return Err(
                    concat3("workflow requires credential `", required[0].as_str(), "`, but no placement is available"),
                );
            }
            return Ok(());
        },
        Some(reading) => reading,
    };
    let name = reading.policy.name.as_str();
    let target = placement_target_host(reading)?;
    let host = target.display_name.as_str();
    match &reading.host {
        Err(e) => Err(concat4("placement `", name, "` target host is not ready: ", e.as_str())),
        Ok(None) => {
            if required.len() == 0 {
                Ok(())
            } else {
                Err(host_trouble_text(name, host, "unknown", "has no observed status"))
            }
        },
        Ok(Some(status)) => {
            match check_held(name, host, status, &required) {
                Some(problem) => {
                    return Err(problem);
                },
                None => {},
            }
            match check_expiry(name, host, status, &required, &ambient, login) {
                Some(problem) => Err(problem),
                None => Ok(()),
            }
        },
    }
}

/// What a workflow asks of a placement.
pub struct PlacementNeeds<'a> {
    pub contained: bool,
    /// The agents it requires, in order, or why they cannot be told.
    pub adapters: &'a Result<Vec<String>, String>,
    pub vessels: Vec<VesselNeeds>,
    /// Where each credential goes, unless they cannot be listed.
    pub specs: &'a Result<OrderedMap<String>, String>,
    /// The agent whose login is found on hosts.
    pub ambient_login: &'a str,
}

/// Why a policy would not do.
pub open spec fn policy_refusal(needs: PlacementNeeds<'_>, reading: PolicyReading) -> Option<Seq<char>> {
    if needs.contained && reading.policy.docker is None {
        Some(
            "contained workflow requires a docker placement policy, but "@ + reading.policy.name@ + " is not contained"@,
        )
    } else {
        match adapter_problem(*needs.adapters, Some(reading)) {
            Some(problem) => Some(problem),
            None => credential_problem(needs.vessels@, *needs.specs, needs.ambient_login@, Some(reading)),
        }
    }
}

fn refuse_policy(needs: &PlacementNeeds<'_>, reading: &PolicyReading) -> (r: Option<String>)
    ensures
        opt(r) == policy_refusal(*needs, *reading),
{
    if needs.contained && reading.policy.docker.is_none() {
        return Some(
            concat3(
                "contained workflow requires a docker placement policy, but ",
                reading.policy.name.as_str(),
                " is not contained",
            ),
        );
    }
    match validate_workflow_agent_adapters(needs.adapters, Some(reading)) {
        Err(e) => {
            return Some(e);
        },
        Ok(()) => {},
    }
    match validate_workflow_credentials(&needs.vessels, needs.specs, needs.ambient_login, Some(reading)) {
        Err(e) => Some(e),
        Ok(()) => None,
    }
}

/// `t` is the host a refusal names: the target, or that there is none.
pub open spec fn refused_host(t: PlacementTargetHost, reading: PolicyReading) -> bool {
    match target_host(reading) {
        Ok(target) => t == target,
        Err(_) => t.reference@.len() == 0 && t.display_name@ == "no target host"@,
    }
}

/// `row` refuses a policy for a reason.
pub open spec fn refusal_row(row: PlacementRefusal, reading: PolicyReading, reason: Seq<char>) -> bool {
    &&& row.policy_name@ == reading.policy.name@
    &&& refused_host(row.target_host, reading)
    &&& row.reason@ == reason
}

/// The policies that would do, and those that would not.
pub open spec fn passed(order: Seq<int>, needs: PlacementNeeds<'_>, sources: Seq<PolicyReading>) -> Seq<int> {
    order.filter(|i: int| policy_refusal(needs, sources[i]) is None)
}

pub open spec fn refused(order: Seq<int>, needs: PlacementNeeds<'_>, sources: Seq<PolicyReading>) -> Seq<int> {
    order.filter(|i: int| policy_refusal(needs, sources[i]) is Some)
}

/// Of policies that would do, those with a host, and those without.
pub open spec fn hosted(order: Seq<int>, sources: Seq<PolicyReading>) -> Seq<int> {
    order.filter(|i: int| target_host(sources[i]) is Ok)
}

pub open spec fn unhosted(order: Seq<int>, sources: Seq<PolicyReading>) -> Seq<int> {
    order.filter(|i: int| target_host(sources[i]) is Err)
}

/// `rows` refuses the policies that would not do, and then those that have no
/// host.
pub open spec fn refusals_of(
    rows: Seq<PlacementRefusal>,
    order: Seq<int>,
    needs: PlacementNeeds<'_>,
    sources: Seq<PolicyReading>,
) -> bool {
    let first = refused(order, needs, sources);
    let second = unhosted(passed(order, needs, sources), sources);
    &&& rows.len() == first.len() + second.len()
    &&& forall|i: int|
        0 <= i < first.len() ==> refusal_row(
            #[trigger] rows[i],
            sources[first[i]],
            policy_refusal(needs, sources[first[i]])->0,
        )
    &&& forall|i: int|
        first.len() <= i < rows.len() ==> refusal_row(
            #[trigger] rows[i],
            sources[second[i - first.len()]],
            target_host(sources[second[i - first.len()]])->Err_0,
        )
}

/// A policy that would do, as it is ranked.
#[derive(Debug, PartialEq, Eq)]
pub struct ViablePolicy {
    pub at: usize,
    pub name: String,
    pub priority: i64,
    pub local: bool,
    pub host_direct: bool,
    pub target: PlacementTargetHost,
}

/// Whether `a` is preferred: by priority, then for being local, then for
/// running directly on its host, then by name.
pub open spec fn preferred(a: ViablePolicy, b: ViablePolicy) -> bool {
    if a.priority != b.priority {
        a.priority > b.priority
    } else if a.local != b.local {
        a.local
    } else if a.host_direct != b.host_direct {
        a.host_direct
    } else {
        lex_le(a.name@, b.name@)
    }
}

impl Ranked for ViablePolicy {
    open spec fn ranks_before(self, other: Self) -> bool {
        preferred(self, other)
    }

    proof fn ranks_total(a: Self, b: Self) {
        lemma_lex_total(a.name@, b.name@);
        if lex_lt(a.name@, b.name@) {
            lemma_lex_asymmetric(a.name@, b.name@);
        }
    }

    proof fn ranks_transitive(a: Self, b: Self, c: Self) {
        lemma_lex_total(b.name@, a.name@);
        lemma_lex_total(c.name@, b.name@);
        if lex_lt(c.name@, a.name@) && lex_lt(a.name@, b.name@) {
            lemma_lex_transitive(c.name@, a.name@, b.name@);
        }
    }

    fn rank_before(&self, other: &Self) -> (r: bool) {
        if self.priority != other.priority {
            self.priority > other.priority
        } else if self.local != other.local {
            self.local
        } else if self.host_direct != other.host_direct {
            self.host_direct
        } else {
            !str_lt(other.name.as_str(), self.name.as_str())
        }
    }
}

/// `v` is a policy, as it is ranked on a host.
pub open spec fn viable_of(v: ViablePolicy, sources: Seq<PolicyReading>, at: int, local_host: Option<Seq<char>>) -> bool {
    let reading = sources[at];
    &&& v.at == at
    &&& v.name@ == reading.policy.name@
    &&& v.priority == reading.policy.priority
    &&& target_host(reading) == Ok::<PlacementTargetHost, Seq<char>>(v.target)
    &&& v.local == (local_host == Some(v.target.reference@))
    &&& v.host_direct == (reading.policy.host_direct is Some)
}

/// `list` holds the policies that would do.
pub open spec fn viables(list: Seq<ViablePolicy>, order: Seq<int>, sources: Seq<PolicyReading>, local_host: Option<Seq<char>>) -> bool {
    &&& list.len() == order.len()
    &&& forall|i: int| 0 <= i < list.len() ==> viable_of(#[trigger] list[i], sources, order[i], local_host)
}

/// Why a policy that would do comes after the chosen one.
pub open spec fn ordering_reason(selected: ViablePolicy, candidate: ViablePolicy) -> Seq<char> {
    if candidate.priority != selected.priority {
        "priority "@ + signed_decimal(candidate.priority as int) + " is lower than selected policy `"@ + selected.name@
            + "` priority "@ + signed_decimal(selected.priority as int)
    } else if selected.local && !candidate.local {
        "fallback ordering preferred local policy `"@ + selected.name@ + "`"@
    } else if selected.host_direct && !candidate.host_direct {
        "fallback ordering preferred host-direct policy `"@ + selected.name@ + "`"@
    } else {
        "fallback ordering preferred policy `"@ + selected.name@ + "` by name"@
    }
}

pub fn placement_ordering_reason(selected: &ViablePolicy, candidate: &ViablePolicy) -> (r: String)
    ensures
        r@ == ordering_reason(*selected, *candidate),
{
    if candidate.priority != selected.priority {
        let lower = signed_decimal_str(candidate.priority);
        let higher = signed_decimal_str(selected.priority);
        return concat6(
            "priority ",
            lower.as_str(),
            " is lower than selected policy `",
            selected.name.as_str(),
            "` priority ",
            higher.as_str(),
        );
    }
    if selected.local && !candidate.local {
        return concat3("fallback ordering preferred local policy `", selected.name.as_str(), "`");
    }
    if selected.host_direct && !candidate.host_direct {
        return concat3("fallback ordering preferred host-direct policy `", selected.name.as_str(), "`");
    }
    concat3("fallback ordering preferred policy `", selected.name.as_str(), "` by name")
}

/// What placement came to: which of the sources was chosen, and why not the
/// others.
#[derive(Debug, PartialEq, Eq)]
pub struct PlacementResolution {
    pub selected: Option<usize>,
    pub refused_candidates: Vec<PlacementRefusal>,
    pub viable_not_selected: Vec<PlacementViableCandidate>,
}

/// `rows` lists the policies that would do but come after the first.
pub open spec fn not_selected(rows: Seq<PlacementViableCandidate>, ranked: Seq<ViablePolicy>) -> bool {
    &&& rows.len() == ranked.len() - 1
    &&& forall|i: int|
        0 <= i < rows.len() ==> {
            &&& (#[trigger] rows[i]).policy_name@ == ranked[i + 1].name@
            &&& rows[i].target_host == ranked[i + 1].target
            &&& rows[i].reason@ == ordering_reason(ranked[0], ranked[i + 1])
        }
}

/// How the required agents are named.
pub open spec fn requirement_text(adapters: Seq<Seq<char>>) -> Seq<char> {
    if adapters.len() == 1 {
        "adapter `"@ + adapters[0] + "`"@
    } else {
        "adapters "@ + join(quoted(adapters), ", "@)
    }
}

/// Each name in backquotes.
pub open spec fn quoted(names: Seq<Seq<char>>) -> Seq<Seq<char>> {
    Seq::new(names.len(), |i: int| "`"@ + names[i] + "`"@)
}

impl Ranked for PlacementRefusal {
    open spec fn ranks_before(self, other: Self) -> bool {
        lex_le(self.policy_name@, other.policy_name@)
    }

    proof fn ranks_total(a: Self, b: Self) {
        lemma_lex_total(a.policy_name@, b.policy_name@);
        if lex_lt(a.policy_name@, b.policy_name@) {
            lemma_lex_asymmetric(a.policy_name@, b.policy_name@);
        }
    }

    proof fn ranks_transitive(a: Self, b: Self, c: Self) {
        lemma_lex_total(b.policy_name@, a.policy_name@);
        lemma_lex_total(c.policy_name@, b.policy_name@);
        if lex_lt(c.policy_name@, a.policy_name@) && lex_lt(a.policy_name@, b.policy_name@) {
            lemma_lex_transitive(c.policy_name@, a.policy_name@, b.policy_name@);
        }
    }

    fn rank_before(&self, other: &Self) -> (r: bool) {
        !str_lt(other.policy_name.as_str(), self.policy_name.as_str())
    }
}

/// One line per refused policy.
pub open spec fn refusal_lines(rows: Seq<PlacementRefusal>) -> Seq<Seq<char>> {
    Seq::new(rows.len(), |i: int| "- `"@ + rows[i].policy_name@ + "`: "@ + rows[i].reason@)
}

/// What is said when no policy would do.
pub open spec fn unsatisfied_text(adapters: Seq<Seq<char>>, rows: Seq<PlacementRefusal>) -> Seq<char> {
    if rows.len() == 0 {
        "no placement policy satisfies "@ + requirement_text(adapters) + "; candidates: (none)"@
    } else {
        "no placement policy satisfies "@ + requirement_text(adapters) + "; candidates:\n"@ + join(
            refusal_lines(rank_sort(rows)),
            "\n"@,
        )
    }
}

/// `r` is what placement comes to, with the refused policies and those that
/// would do.
pub open spec fn settled(
    r: Result<PlacementResolution, String>,
    needs: PlacementNeeds<'_>,
    rows: Seq<PlacementRefusal>,
    list: Seq<ViablePolicy>,
) -> bool {
    if list.len() > 0 {
        let ranked = rank_sort(list);
        r matches Ok(resolution) && resolution.selected == Some(ranked[0].at) && resolution.refused_candidates@ == rows
            && not_selected(resolution.viable_not_selected@, ranked)
    } else {
        match *needs.adapters {
            Err(e) => r == Err::<PlacementResolution, String>(e),
            Ok(adapters) => if adapters@.len() > 0 {
                r matches Err(e) && e@ == unsatisfied_text(strs(adapters@), rows)
            } else {
                r matches Ok(resolution) && resolution.selected is None && resolution.refused_candidates@ == rows
                    && resolution.viable_not_selected@.len() == 0
            },
        }
    }
}

/// `r` is what placement comes to, with the policies in `order`.
pub open spec fn placement_outcome(
    r: Result<PlacementResolution, String>,
    needs: PlacementNeeds<'_>,
    sources: Seq<PolicyReading>,
    order: Seq<int>,
    local_host: Option<Seq<char>>,
) -> bool {
    exists|rows: Seq<PlacementRefusal>, list: Seq<ViablePolicy>|
        {
            &&& #[trigger] refusals_of(rows, order, needs, sources)
            &&& #[trigger] viables(list, hosted(passed(order, needs, sources), sources), sources, local_host)
            &&& settled(r, needs, rows, list)
        }
}

fn refusal(reading: &PolicyReading, reason: String) -> (row: PlacementRefusal)
    ensures
        refusal_row(row, *reading, reason@),
{
    let target_host = match placement_target_host(reading) {
        Ok(target) => target,
        Err(_) => {
            let none = String::new();
            PlacementTargetHost { reference: none, display_name: "no target host".to_owned() }
        },
    };
    PlacementRefusal { policy_name: reading.policy.name.clone(), target_host, reason }
}

/// The copies that policies are.
pub open spec fn copies_match(copies: Seq<NamedCopy>, sources: Seq<PolicyReading>) -> bool {
    &&& copies.len() == sources.len()
    &&& forall|i: int|
        0 <= i < copies.len() ==> (#[trigger] copies[i]).name@ == sources[i].policy.name@ && copies[i].local
            == sources[i].local
}

fn policy_copies(sources: &Vec<PolicyReading>) -> (r: Vec<NamedCopy>)
    ensures
        copies_match(r@, sources@),
{
    let mut r: Vec<NamedCopy> = Vec::new();
    let mut i: usize = 0;
    while i < sources.len()
        invariant
            i <= sources@.len(),
            r@.len() == i,
            forall|k: int|
                0 <= k < i ==> (#[trigger] r@[k]).name@ == sources@[k].policy.name@ && r@[k].local == sources@[k].local,
        decreases sources.len() - i,
    {
        r.push(NamedCopy { name: sources[i].policy.name.clone(), local: sources[i].local });
        i = i + 1;
    }
    r
}

fn no_policy_text(adapters: &Vec<String>, rows: Vec<PlacementRefusal>) -> (r: String)
    requires
        adapters@.len() > 0,
    ensures
        r@ == unsatisfied_text(strs(adapters@), rows@),
{
    assert(strs(adapters@).len() == adapters@.len());
    let requirement = if adapters.len() == 1 {
        assert(strs(adapters@)[0] == adapters@[0]@);
        concat3("adapter `", adapters[0].as_str(), "`")
    } else {
        let mut names: Vec<String> = Vec::new();
        let mut i: usize = 0;
        while i < adapters.len()
            invariant
                i <= adapters@.len(),
                names@.len() == i,
                forall|k: int| 0 <= k < i ==> (#[trigger] names@[k])@ == "`"@ + adapters@[k]@ + "`"@,
            decreases adapters.len() - i,
        {
            names.push(concat3("`", adapters[i].as_str(), "`"));
            i = i + 1;
        }
        assert(strs(names@) =~= quoted(strs(adapters@)));
        let joined = join_strs(&names, ", ");
        concat2("adapters ", joined.as_str())
    };
    if rows.len() == 0 {
        return concat3("no placement policy satisfies ", requirement.as_str(), "; candidates: (none)");
    }
    let ghost all = rows@;
    let sorted = sort_ranked(rows);
    let mut lines: Vec<String> = Vec::new();
    let mut i: usize = 0;
    while i < sorted.len()
        invariant
            i <= sorted@.len(),
            sorted@ == rank_sort(all),
            lines@.len() == i,
            forall|k: int|
                0 <= k < i ==> (#[trigger] lines@[k])@ == "- `"@ + sorted@[k].policy_name@ + "`: "@ + sorted@[k].reason@,
        decreases sorted.len() - i,
    {
        lines.push(concat4("- `", sorted[i].policy_name.as_str(), "`: ", sorted[i].reason.as_str()));
        i = i + 1;
    }
    assert(strs(lines@) =~= refusal_lines(sorted@));
    let joined = join_strs(&lines, "\n");
    concat4("no placement policy satisfies ", requirement.as_str(), "; candidates:\n", joined.as_str())
}

/// `r` chooses one of `n` policies, if any.
pub open spec fn chooses_among(r: Result<PlacementResolution, String>, n: nat) -> bool {
    r matches Ok(resolution) ==> (resolution.selected matches Some(i) ==> i < n)
}

/// Places a convoy by the policies there are, in the order given.
fn place_in_order(
    needs: &PlacementNeeds<'_>,
    sources: &Vec<PolicyReading>,
    order: &Vec<usize>,
    local_host: &Option<String>,
) -> (r: Result<PlacementResolution, String>)
    requires
        forall|i: int| 0 <= i < order@.len() ==> #[trigger] order@[i] < sources@.len(),
    ensures
        placement_outcome(r, *needs, sources@, crate::address::ints(order@), opt(*local_host)),
        chooses_among(r, sources@.len()),
{
    let ghost at = crate::address::ints(order@);
    let ghost pass = |i: int| policy_refusal(*needs, sources@[i]) is None;
    let ghost fail = |i: int| policy_refusal(*needs, sources@[i]) is Some;
    let mut rows: Vec<PlacementRefusal> = Vec::new();
    let mut good: Vec<usize> = Vec::new();
    let mut i: usize = 0;
    proof {
        reveal(Seq::filter);
        assert(at.take(0).filter(pass) =~= Seq::<int>::empty());
        assert(at.take(0).filter(fail) =~= Seq::<int>::empty());
        assert(crate::address::ints(good@) =~= Seq::<int>::empty());
    }
    while i < order.len()
        invariant
            i <= order@.len(),
            at == crate::address::ints(order@),
            pass == (|i: int| policy_refusal(*needs, sources@[i]) is None),
            fail == (|i: int| policy_refusal(*needs, sources@[i]) is Some),
            forall|k: int| 0 <= k < order@.len() ==> #[trigger] order@[k] < sources@.len(),
            forall|k: int| 0 <= k < good@.len() ==> #[trigger] good@[k] < sources@.len(),
            crate::address::ints(good@) == at.take(i as int).filter(pass),
            rows@.len() == at.take(i as int).filter(fail).len(),
            forall|k: int|
                0 <= k < rows@.len() ==> refusal_row(
                    #[trigger] rows@[k],
                    sources@[at.take(i as int).filter(fail)[k]],
                    policy_refusal(*needs, sources@[at.take(i as int).filter(fail)[k]])->0,
                ),
        decreases order.len() - i,
    {
        let reading = &sources[order[i]];
        proof {
            reveal(Seq::filter);
            assert(at.take(i + 1).drop_last() =~= at.take(i as int));
            assert(at.take(i + 1).last() == order@[i as int]);
        }
        match refuse_policy(needs, reading) {
            Some(reason) => {
                rows.push(refusal(reading, reason));
            },
            None => {
                let ghost was = crate::address::ints(good@);
                good.push(order[i]);
                assert(crate::address::ints(good@) =~= was.push(order@[i as int] as int));
            },
        }
        i = i + 1;
    }
    assert(at.take(at.len() as int) =~= at);
    let ghost first = refused(at, *needs, sources@);
    let ghost ok = passed(at, *needs, sources@);
    let ghost has = |i: int| target_host(sources@[i]) is Ok;
    let ghost lacks = |i: int| target_host(sources@[i]) is Err;
    let mut list: Vec<ViablePolicy> = Vec::new();
    let mut k: usize = 0;
    proof {
        reveal(Seq::filter);
        assert(ok.take(0).filter(has) =~= Seq::<int>::empty());
        assert(ok.take(0).filter(lacks) =~= Seq::<int>::empty());
    }
    while k < good.len()
        invariant
            k <= good@.len(),
            ok == crate::address::ints(good@),
            has == (|i: int| target_host(sources@[i]) is Ok),
            lacks == (|i: int| target_host(sources@[i]) is Err),
            forall|j: int| 0 <= j < good@.len() ==> #[trigger] good@[j] < sources@.len(),
            list@.len() == ok.take(k as int).filter(has).len(),
            forall|j: int| 0 <= j < list@.len() ==> (#[trigger] list@[j]).at < sources@.len(),
            forall|j: int|
                0 <= j < list@.len() ==> viable_of(
                    #[trigger] list@[j],
                    sources@,
                    ok.take(k as int).filter(has)[j],
                    opt(*local_host),
                ),
            rows@.len() == first.len() + ok.take(k as int).filter(lacks).len(),
            forall|j: int|
                0 <= j < first.len() ==> refusal_row(
                    #[trigger] rows@[j],
                    sources@[first[j]],
                    policy_refusal(*needs, sources@[first[j]])->0,
                ),
            forall|j: int|
                first.len() <= j < rows@.len() ==> refusal_row(
                    #[trigger] rows@[j],
                    sources@[ok.take(k as int).filter(lacks)[j - first.len()]],
                    target_host(sources@[ok.take(k as int).filter(lacks)[j - first.len()]])->Err_0,
                ),
        decreases good.len() - k,
    {
        let reading = &sources[good[k]];
        proof {
            reveal(Seq::filter);
            assert(ok.take(k + 1).drop_last() =~= ok.take(k as int));
            assert(ok.take(k + 1).last() == good@[k as int]);
        }
        match placement_target_host(reading) {
            Ok(target) => {
                let local = opt_is(local_host, target.reference.as_str());
                list.push(
                    ViablePolicy {
                        at: good[k],
                        name: reading.policy.name.clone(),
                        priority: reading.policy.priority,
                        local,
                        host_direct: reading.policy.host_direct.is_some(),
                        target,
                    },
                );
            },
            Err(reason) => {
                rows.push(refusal(reading, reason));
            },
        }
        k = k + 1;
    }
    assert(ok.take(ok.len() as int) =~= ok);
    assert(refusals_of(rows@, at, *needs, sources@));
    let ghost found = list@;
    assert(viables(found, hosted(passed(at, *needs, sources@), sources@), sources@, opt(*local_host)));
    if list.len() > 0 {
        let ranked = sort_ranked(list);
        proof {
            lemma_rank_sort(found);
            lemma_rank_sort_keeps(found, 0);
        }
        let mut others: Vec<PlacementViableCandidate> = Vec::new();
        let mut j: usize = 1;
        while j < ranked.len()
            invariant
                1 <= j <= ranked@.len(),
                others@.len() == j - 1,
                forall|x: int|
                    0 <= x < others@.len() ==> {
                        &&& (#[trigger] others@[x]).policy_name@ == ranked@[x + 1].name@
                        &&& others@[x].target_host == ranked@[x + 1].target
                        &&& others@[x].reason@ == ordering_reason(ranked@[0], ranked@[x + 1])
                    },
            decreases ranked.len() - j,
        {
            others.push(
                PlacementViableCandidate {
                    policy_name: ranked[j].name.clone(),
                    target_host: ranked[j].target.copy(),
                    reason: placement_ordering_reason(&ranked[0], &ranked[j]),
                },
            );
            j = j + 1;
        }
        return Ok(
            PlacementResolution { selected: Some(ranked[0].at), refused_candidates: rows, viable_not_selected: others },
        );
    }
    match needs.adapters {
        Err(e) => Err(e.clone()),
        Ok(adapters) => {
            if adapters.len() > 0 {
                return Err(no_policy_text(adapters, rows));
            }
            Ok(PlacementResolution { selected: None, refused_candidates: rows, viable_not_selected: Vec::new() })
        },
    }
}

/// `r` is what placement comes to by the policies there are, of which each
/// name's home copy counts.
pub open spec fn placed_by_default(
    r: Result<PlacementResolution, String>,
    needs: PlacementNeeds<'_>,
    sources: Seq<PolicyReading>,
    local_host: Option<Seq<char>>,
) -> bool {
    exists|copies: Seq<NamedCopy>, order: Seq<int>|
        {
            &&& #[trigger] copies_match(copies, sources)
            &&& #[trigger] home_copies(order, copies)
            &&& placement_outcome(r, needs, sources, order, local_host)
        }
}

/// Chooses a policy for a convoy that names none. Where the policies cannot
/// be listed, the convoy waits for one. `local_host` is the identity of this
/// daemon's own host.
pub fn default_convoy_placement_policy(
    needs: &PlacementNeeds<'_>,
    sources: Option<&Vec<PolicyReading>>,
    local_host: &Option<String>,
) -> (r: Result<PlacementResolution, String>)
    ensures
        match sources {
            Some(sources) => placed_by_default(r, *needs, sources@, opt(*local_host)) && chooses_among(
                r,
                sources@.len(),
            ),
            None => r matches Ok(resolution) && resolution.selected is None && resolution.refused_candidates@.len() == 0
                && resolution.viable_not_selected@.len() == 0,
        },
{
    let sources = match sources {
        Some(sources) => sources,
        None => {
            return Ok(
                PlacementResolution { selected: None, refused_candidates: Vec::new(), viable_not_selected: Vec::new() },
            );
        },
    };
    let copies = policy_copies(sources);
    let order = home_copy_wins_by_name(&copies);
    assert forall|i: int| 0 <= i < order@.len() implies #[trigger] order@[i] < sources@.len() by {
        assert(crate::address::ints(order@)[i] == order@[i]);
    }
    let r = place_in_order(needs, sources, &order, local_host);
    assert(copies_match(copies@, sources@));
    assert(home_copies(crate::address::ints(order@), copies@));
    r
}

/// The chosen policy is one that would do, and no policy that would do has a
/// higher priority.
pub proof fn law_highest_priority_is_chosen(
    r: Result<PlacementResolution, String>,
    needs: PlacementNeeds<'_>,
    sources: Seq<PolicyReading>,
    order: Seq<int>,
    local_host: Option<Seq<char>>,
    other: int,
)
    requires
        placement_outcome(r, needs, sources, order, local_host),
        order.contains(other),
        policy_refusal(needs, sources[other]) is None,
        target_host(sources[other]) is Ok,
    ensures
        r matches Ok(resolution) && resolution.selected is Some && policy_refusal(
            needs,
            sources[resolution.selected->0 as int],
        ) is None && sources[resolution.selected->0 as int].policy.priority >= sources[other].policy.priority,
{
    let (rows, list) = choose|rows: Seq<PlacementRefusal>, list: Seq<ViablePolicy>|
        {
            &&& #[trigger] refusals_of(rows, order, needs, sources)
            &&& #[trigger] viables(list, hosted(passed(order, needs, sources), sources), sources, local_host)
            &&& settled(r, needs, rows, list)
        };
    let pass = |i: int| policy_refusal(needs, sources[i]) is None;
    let has = |i: int| target_host(sources[i]) is Ok;
    let ok = order.filter(pass);
    let set = ok.filter(has);
    assert(set == hosted(passed(order, needs, sources), sources));
    let x = choose|i: int| 0 <= i < order.len() && order[i] == other;
    order.lemma_filter_contains(pass, x);
    let y = choose|i: int| 0 <= i < ok.len() && ok[i] == other;
    ok.lemma_filter_contains(has, y);
    let z = choose|i: int| 0 <= i < set.len() && set[i] == other;
    assert(viable_of(list[z], sources, other, local_host));
    let ranked = rank_sort(list);
    lemma_rank_sort(list);
    assert(ranked.contains(list[z])) by {
        broadcast use vstd::seq_lib::group_to_multiset_ensures;

        assert(list.contains(list[z]));
        assert(list.to_multiset().count(list[z]) > 0);
        assert(ranked.to_multiset().count(list[z]) > 0);
    }
    let at = choose|i: int| 0 <= i < ranked.len() && ranked[i] == list[z];
    if at > 0 {
        assert(ranked[0].ranks_before(ranked[at]));
    }
    lemma_rank_sort_keeps(list, 0);
    let w = choose|i: int| 0 <= i < list.len() && list[i] == ranked[0];
    assert(viable_of(list[w], sources, set[w], local_host));
    assert(set.contains(set[w]));
    ok.lemma_filter_contains_rev(has, set[w]);
    let v = choose|i: int| 0 <= i < ok.len() && ok[i] == set[w];
    order.lemma_filter_pred(pass, v);
}

/// What a convoy that names its placement policy gets.
pub fn named_convoy_placement(
    needs: &PlacementNeeds<'_>,
    policy: &str,
    found: &Result<PolicyReading, String>,
) -> (r: Result<(), String>)
    ensures
        match r {
            Ok(()) => named_problem(*needs, policy@, *found) is None,
            Err(e) => named_problem(*needs, policy@, *found) == Some(e@),
        },
{
    let policy = required_admission_value(policy, "placement policy")?;
    match found {
        Err(e) => Err(concat4("placement policy ", policy.as_str(), ": ", e.as_str())),
        Ok(reading) => {
            if needs.contained && reading.policy.docker.is_none() {
                return Err(
                    concat3(
                        "contained workflow requires a docker placement policy, but ",
                        policy.as_str(),
                        " is not contained",
                    ),
                );
            }
            validate_placement(needs, Some(reading))
        },
    }
}

/// Why a placement does not serve a workflow.
pub open spec fn placement_problem(needs: PlacementNeeds<'_>, placement: Option<PolicyReading>) -> Option<Seq<char>> {
    match adapter_problem(*needs.adapters, placement) {
        Some(problem) => Some(problem),
        None => credential_problem(needs.vessels@, *needs.specs, needs.ambient_login@, placement),
    }
}

fn validate_placement(needs: &PlacementNeeds<'_>, placement: Option<&PolicyReading>) -> (r: Result<(), String>)
    ensures
        match r {
            Ok(()) => placement_problem(*needs, the_placement(placement)) is None,
            Err(e) => placement_problem(*needs, the_placement(placement)) == Some(e@),
        },
{
    match validate_workflow_agent_adapters(needs.adapters, placement) {
        Err(e) => Err(e),
        Ok(()) => validate_workflow_credentials(&needs.vessels, needs.specs, needs.ambient_login, placement),
    }
}

/// Why the policy a convoy names does not do.
pub open spec fn named_problem(
    needs: PlacementNeeds<'_>,
    policy: Seq<char>,
    found: Result<PolicyReading, String>,
) -> Option<Seq<char>> {
    match admission_value(policy, "placement policy"@) {
        Err(e) => Some(e),
        Ok(policy) => match found {
            Err(e) => Some("placement policy "@ + policy + ": "@ + e@),
            Ok(reading) => if needs.contained && reading.policy.docker is None {
                Some("contained workflow requires a docker placement policy, but "@ + policy + " is not contained"@)
            } else {
                placement_problem(needs, Some(reading))
            },
        },
    }
}

/// `r` is what a convoy that names no policy gets, once `resolved` was chosen.
pub open spec fn default_checked(
    r: Result<PlacementResolution, String>,
    resolved: Result<PlacementResolution, String>,
    needs: PlacementNeeds<'_>,
    sources: Seq<PolicyReading>,
) -> bool {
    match resolved {
        Err(e) => r == Err::<PlacementResolution, String>(e),
        Ok(resolution) => {
            let placement = match resolution.selected {
                Some(i) => Some(sources[i as int]),
                None => None,
            };
            if needs.contained && resolution.selected is None {
                r matches Err(e) && e@ == "contained workflow requires an available docker placement policy"@
            } else {
                match placement_problem(needs, placement) {
                    Some(problem) => r matches Err(e) && e@ == problem,
                    None => r == Ok::<PlacementResolution, String>(resolution),
                }
            }
        },
    }
}

/// Checks the policy that was chosen for a convoy that names none.
pub fn checked_default_placement(
    needs: &PlacementNeeds<'_>,
    sources: &Vec<PolicyReading>,
    resolved: Result<PlacementResolution, String>,
) -> (r: Result<PlacementResolution, String>)
    requires
        chooses_among(resolved, sources@.len()),
    ensures
        default_checked(r, resolved, *needs, sources@),
{
    let resolution = match resolved {
        Err(e) => {
            return Err(e);
        },
        Ok(resolution) => resolution,
    };
    if needs.contained && resolution.selected.is_none() {
        return Err("contained workflow requires an available docker placement policy".to_owned());
    }
    let placement = match resolution.selected {
        Some(i) => Some(&sources[i]),
        None => None,
    };
    match validate_placement(needs, placement) {
        Err(e) => Err(e),
        Ok(()) => Ok(resolution),
    }
}

/// `d` is the decision to place by a policy on a host.
pub open spec fn decides(d: PlacementDecision, policy: Seq<char>, target: PlacementTargetHost, resolution: PlacementResolution) -> bool {
    &&& d.policy_name@ == policy
    &&& d.target_host == target
    &&& d.refused_candidates == resolution.refused_candidates
    &&& d.viable_not_selected == resolution.viable_not_selected
}

/// The decision that a placement came to. `selected` is the policy that was
/// chosen, if any.
pub fn placement_decision(resolution: PlacementResolution, selected: Option<&PolicyReading>) -> (r: Result<Option<PlacementDecision>, String>)
    ensures
        match the_placement(selected) {
            None => r == Ok::<Option<PlacementDecision>, String>(None),
            Some(reading) => match target_host(reading) {
                Ok(target) => r matches Ok(Some(d)) && decides(d, reading.policy.name@, target, resolution),
                Err(e) => r matches Err(x) && x@ == e,
            },
        },
{
    match selected {
        None => Ok(None),
        Some(reading) => match placement_target_host(reading) {
            Ok(target_host) => Ok(
                Some(
                    PlacementDecision {
                        policy_name: reading.policy.name.clone(),
                        target_host,
                        refused_candidates: resolution.refused_candidates,
                        viable_not_selected: resolution.viable_not_selected,
                    },
                ),
            ),
            Err(e) => Err(e),
        },
    }
}

/// Whether work for a host must leave this daemon, and for which host.
pub open spec fn away_host(target: Result<PlacementTargetHost, String>, local_host: Option<Seq<char>>) -> Result<
    Option<Seq<char>>,
    Seq<char>,
> {
    match target {
        Err(e) => Err(e@),
        Ok(target) => if local_host == Some(target.reference@) {
            Ok(None)
        } else {
            Ok(Some(target.reference@))
        },
    }
}

fn leaves_for(target: Result<PlacementTargetHost, String>, local_host: &Option<String>) -> (r: Result<Option<String>, String>)
    ensures
        match r {
            Ok(host) => away_host(target, opt(*local_host)) == Ok::<Option<Seq<char>>, Seq<char>>(opt(host)),
            Err(e) => away_host(target, opt(*local_host)) == Err::<Option<Seq<char>>, Seq<char>>(e@),
        },
{
    match target {
        Err(e) => Err(e),
        Ok(target) => {
            if opt_is(local_host, target.reference.as_str()) {
                Ok(None)
            } else {
                Ok(Some(target.reference))
            }
        },
    }
}

/// The host of a policy, where it is not this daemon's own.
pub open spec fn remote_host(
    policy: Option<Seq<char>>,
    found: Result<PolicyReading, String>,
    local_host: Option<Seq<char>>,
) -> Result<Option<Seq<char>>, Seq<char>> {
    match (policy, found) {
        (None, _) => Ok(None),
        (Some(policy), Err(e)) => Err("placement policy "@ + policy + ": "@ + e@),
        (Some(_), Ok(reading)) => match target_host(reading) {
            Err(e) => Err(e),
            Ok(target) => if local_host == Some(target.reference@) {
                Ok(None)
            } else {
                Ok(Some(target.reference@))
            },
        },
    }
}

pub fn remote_placement_host(
    policy_name: Option<&str>,
    found: &Result<PolicyReading, String>,
    local_host: &Option<String>,
) -> (r: Result<Option<String>, String>)
    ensures
        match r {
            Ok(host) => remote_host(crate::text::opt_str(policy_name), *found, opt(*local_host)) == Ok::<
                Option<Seq<char>>,
                Seq<char>,
            >(opt(host)),
            Err(e) => remote_host(crate::text::opt_str(policy_name), *found, opt(*local_host)) == Err::<
                Option<Seq<char>>,
                Seq<char>,
            >(e@),
        },
{
    match policy_name {
        None => Ok(None),
        Some(policy) => match found {
            Err(e) => Err(concat4("placement policy ", policy, ": ", e.as_str())),
            Ok(reading) => leaves_for(placement_target_host(reading), local_host),
        },
    }
}

/// What a host has free, and the floor below which nothing is admitted.
#[derive(Debug, Clone, Copy, PartialEq, Eq, Structural)]
pub struct Capacity {
    pub floor_bytes: u64,
    pub free_bytes: Option<u64>,
}

/// What is to be made of a host's capacity.
#[derive(Debug, PartialEq, Eq)]
pub enum CapacityCheck {
    Admitted,
    Refused { message: String },
    /// The free bytes are to be held against the floor.
    Measured { host: String, free_bytes: u64, floor_bytes: u64 },
}

/// `r` is what is to be made of a host's capacity.
pub open spec fn capacity_checked(r: CapacityCheck, target: PlacementTargetHost, capacity: Option<Capacity>) -> bool {
    match capacity {
        None => r matches CapacityCheck::Refused { message } && message@ == "placement refused on host `"@
            + target.display_name@ + "`: admission free-space floor is unavailable"@,
        Some(capacity) => if capacity.floor_bytes == 0 {
            r is Admitted
        } else {
            match capacity.free_bytes {
                None => r matches CapacityCheck::Refused { message } && message@ == "placement refused on host `"@
                    + target.display_name@ + "`: free space is unavailable"@,
                Some(free) => r matches CapacityCheck::Measured { host, free_bytes, floor_bytes } && host@
                    == target.display_name@ && free_bytes == free && floor_bytes == capacity.floor_bytes,
            }
        },
    }
}

pub fn check_placement_capacity(target_host: &PlacementTargetHost, capacity: Option<Capacity>) -> (r: CapacityCheck)
    ensures
        capacity_checked(r, *target_host, capacity),
{
    match capacity {
        None => CapacityCheck::Refused {
            message: concat3(
                "placement refused on host `",
                target_host.display_name.as_str(),
                "`: admission free-space floor is unavailable",
            ),
        },
        Some(capacity) => {
            if capacity.floor_bytes == 0 {
                return CapacityCheck::Admitted;
            }
            match capacity.free_bytes {
                None => CapacityCheck::Refused {
                    message: concat3(
                        "placement refused on host `",
                        target_host.display_name.as_str(),
                        "`: free space is unavailable",
                    ),
                },
                Some(free_bytes) => CapacityCheck::Measured {
                    host: target_host.display_name.clone(),
                    free_bytes,
                    floor_bytes: capacity.floor_bytes,
                },
            }
        },
    }
}

/// A host record as a capacity check sees it.
pub struct CapacitySource {
    pub name: String,
    pub local: bool,
    pub floor_bytes: Option<u64>,
    pub free_bytes: Option<u64>,
}

/// What the record of a host reports.
pub open spec fn reported(source: CapacitySource) -> Option<Capacity> {
    match source.floor_bytes {
        Some(floor) => Some(Capacity { floor_bytes: floor, free_bytes: source.free_bytes }),
        None => None,
    }
}

/// What this daemon's own record of the host reports.
pub open spec fn own_capacity(sources: Seq<CapacitySource>, host: Seq<char>) -> Option<Capacity>
    decreases sources.len(),
{
    if sources.len() == 0 {
        None
    } else if sources[0].name@ == host && sources[0].local {
        reported(sources[0])
    } else {
        own_capacity(sources.drop_first(), host)
    }
}

/// What the first record of the host with a floor reports.
pub open spec fn any_capacity(sources: Seq<CapacitySource>, host: Seq<char>) -> Option<Capacity>
    decreases sources.len(),
{
    if sources.len() == 0 {
        None
    } else if sources[0].name@ == host && reported(sources[0]) is Some {
        reported(sources[0])
    } else {
        any_capacity(sources.drop_first(), host)
    }
}

/// Whether some record of the host is a replica.
pub open spec fn has_replica(sources: Seq<CapacitySource>, host: Seq<char>) -> bool {
    exists|i: int| 0 <= i < sources.len() && (#[trigger] sources[i]).name@ == host && !sources[i].local
}

fn report(source: &CapacitySource) -> (r: Option<Capacity>)
    ensures
        r == reported(*source),
{
    match source.floor_bytes {
        Some(floor_bytes) => Some(Capacity { floor_bytes, free_bytes: source.free_bytes }),
        None => None,
    }
}

/// `r` is what is to be made of the capacity of a decision's host.
pub open spec fn decision_checked(
    r: CapacityCheck,
    target: Option<PlacementTargetHost>,
    sources: Seq<CapacitySource>,
    host_targeted: bool,
    local_host: Option<Seq<char>>,
) -> bool {
    match target {
        None => r is Admitted,
        Some(target) => if !has_replica(sources, target.reference@) && !host_targeted {
            r is Admitted
        } else {
            capacity_checked(
                r,
                target,
                if local_host == Some(target.reference@) {
                    own_capacity(sources, target.reference@)
                } else {
                    any_capacity(sources, target.reference@)
                },
            )
        },
    }
}

/// Checks the capacity of the host that a decision places on. Only a host
/// known from elsewhere, or one that the policy names, is checked.
pub fn check_remote_placement_free_space_floor(
    target: Option<&PlacementTargetHost>,
    sources: &Vec<CapacitySource>,
    host_targeted: bool,
    local_host: &Option<String>,
) -> (r: CapacityCheck)
    ensures
        decision_checked(
            r,
            match target {
                Some(t) => Some(*t),
                None => None,
            },
            sources@,
            host_targeted,
            opt(*local_host),
        ),
{
    let target = match target {
        None => {
            return CapacityCheck::Admitted;
        },
        Some(target) => target,
    };
    let host = target.reference.as_str();
    let mut replica = false;
    let mut own: Option<Capacity> = None;
    let mut own_found = false;
    let mut any: Option<Capacity> = None;
    let mut i: usize = 0;
    assert(sources@.skip(0) =~= sources@);
    while i < sources.len()
        invariant
            i <= sources@.len(),
            host@ == target.reference@,
            replica == exists|k: int| 0 <= k < i && (#[trigger] sources@[k]).name@ == host@ && !sources@[k].local,
            own_found ==> own_capacity(sources@, host@) == own,
            !own_found ==> own is None && own_capacity(sources@, host@) == own_capacity(sources@.skip(i as int), host@),
            any is Some ==> any_capacity(sources@, host@) == any,
            any is None ==> any_capacity(sources@, host@) == any_capacity(sources@.skip(i as int), host@),
        decreases sources.len() - i,
    {
        let source = &sources[i];
        assert(sources@.skip(i as int)[0] == *source);
        assert(sources@.skip(i as int).drop_first() =~= sources@.skip(i + 1));
        if str_eq(source.name.as_str(), host) {
            if !source.local {
                assert(sources@[i as int].name@ == host@);
                replica = true;
            } else if !own_found {
                own_found = true;
                own = report(source);
            }
            if any.is_none() {
                any = report(source);
            }
        }
        i = i + 1;
    }
    if !replica && !host_targeted {
        return CapacityCheck::Admitted;
    }
    let capacity = if opt_is(local_host, host) {
        own
    } else {
        any
    };
    check_placement_capacity(target, capacity)
}

/// Something a host provides, which is available.
#[derive(Debug, PartialEq, Eq)]
pub struct ProviderStatus {
    pub category: String,
    pub implementation: String,
}

impl Ranked for ProviderStatus {
    open spec fn ranks_before(self, other: Self) -> bool {
        lex_lt(self.category@, other.category@) || (self.category@ == other.category@ && lex_le(
            self.implementation@,
            other.implementation@,
        ))
    }

    proof fn ranks_total(a: Self, b: Self) {
        lemma_lex_total(a.category@, b.category@);
        lemma_lex_total(a.implementation@, b.implementation@);
        if lex_lt(a.implementation@, b.implementation@) {
            lemma_lex_asymmetric(a.implementation@, b.implementation@);
        }
    }

    proof fn ranks_transitive(a: Self, b: Self, c: Self) {
        if lex_lt(a.category@, b.category@) && lex_lt(b.category@, c.category@) {
            lemma_lex_transitive(a.category@, b.category@, c.category@);
        }
        lemma_lex_total(b.implementation@, a.implementation@);
        lemma_lex_total(c.implementation@, b.implementation@);
        if lex_lt(c.implementation@, a.implementation@) && lex_lt(a.implementation@, b.implementation@) {
            lemma_lex_transitive(c.implementation@, a.implementation@, b.implementation@);
        }
    }

    fn rank_before(&self, other: &Self) -> (r: bool) {
        str_lt(self.category.as_str(), other.category.as_str()) || (str_eq(self.category.as_str(), other.category.as_str())
            && !str_lt(other.implementation.as_str(), self.implementation.as_str()))
    }
}

/// `list` holds one provider per adapter, then one per terminal pool.
pub open spec fn providers_of(
    list: Seq<ProviderStatus>,
    adapters: Seq<String>,
    adapter_category: Seq<char>,
    pools: Seq<String>,
    pool_category: Seq<char>,
) -> bool {
    &&& list.len() == adapters.len() + pools.len()
    &&& forall|i: int|
        0 <= i < adapters.len() ==> (#[trigger] list[i]).category@ == adapter_category && list[i].implementation@
            == adapters[i]@
    &&& forall|i: int|
        adapters.len() <= i < list.len() ==> (#[trigger] list[i]).category@ == pool_category && list[i].implementation@
            == pools[i - adapters.len()]@
}

/// What this host can be asked to run, by category and implementation.
pub fn local_placement_capabilities(
    agent_adapters: &Vec<String>,
    adapter_category: &str,
    terminal_pools: &Vec<String>,
    pool_category: &str,
) -> (r: Vec<ProviderStatus>)
    ensures
        exists|list: Seq<ProviderStatus>|
            #[trigger] providers_of(list, agent_adapters@, adapter_category@, terminal_pools@, pool_category@) && r@
                == rank_sort(list),
{
    let mut list: Vec<ProviderStatus> = Vec::new();
    let mut i: usize = 0;
    while i < agent_adapters.len()
        invariant
            i <= agent_adapters@.len(),
            list@.len() == i,
            forall|k: int|
                0 <= k < i ==> (#[trigger] list@[k]).category@ == adapter_category@ && list@[k].implementation@
                    == agent_adapters@[k]@,
        decreases agent_adapters.len() - i,
    {
        list.push(
            ProviderStatus { category: adapter_category.to_owned(), implementation: agent_adapters[i].clone() },
        );
        i = i + 1;
    }
    let ghost n = agent_adapters@.len();
    let mut k: usize = 0;
    while k < terminal_pools.len()
        invariant
            k <= terminal_pools@.len(),
            n == agent_adapters@.len(),
            list@.len() == n + k,
            forall|j: int|
                0 <= j < n ==> (#[trigger] list@[j]).category@ == adapter_category@ && list@[j].implementation@
                    == agent_adapters@[j]@,
            forall|j: int|
                n <= j < n + k ==> (#[trigger] list@[j]).category@ == pool_category@ && list@[j].implementation@
                    == terminal_pools@[j - n]@,
        decreases terminal_pools.len() - k,
    {
        list.push(ProviderStatus { category: pool_category.to_owned(), implementation: terminal_pools[k].clone() });
        k = k + 1;
    }
    assert(providers_of(list@, agent_adapters@, adapter_category@, terminal_pools@, pool_category@));
    sort_ranked(list)
}

} // verus!
