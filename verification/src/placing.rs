//! Placing a workflow: what it asks of a placement, what has to be found out
//! for that, and which placement it gets.
use vstd::prelude::*;

use crate::model::{PlacementDecision, PlacementRefusal};
use crate::naming::{admission_value, required_admission_value};
use crate::ordered::OrderedMap;
use crate::placement::{
    checked_default_placement, chooses_among, copies_match, decides, default_checked, default_convoy_placement_policy, home_copies,
    hosted, named_convoy_placement, named_problem, passed, placed_by_default, placement_decision, placement_outcome,
    placement_problem, policy_refusal, refusals_of, settled, target_host, viable_of, viables, DockerPolicy, NamedCopy,
    PlacementNeeds, PlacementPolicy, PlacementResolution, PolicyReading, ViablePolicy,
};
use crate::sorting::{lemma_rank_sort, lemma_rank_sort_keeps, rank_sort};
use crate::text::{opt, opt_clone, opt_is, str_eq, strs, strs_clone};
use crate::workflow::{
    agent_selectors, any_stance, crew_selectors, has_stance, workflow_selectors, AgentRequirement, AgentSelector, CrewSource,
    EffectiveWorkflow, VesselCredentials, VesselNeeds, WorkflowVessel,
};

verus! {

/// Every vessel of the workflow has its credentials.
pub open spec fn is_whole(workflow: EffectiveWorkflow) -> bool {
    workflow.credentials@.len() == workflow.vessels@.len()
}

/// What was found out so far about placing a workflow.
#[derive(Default, Debug)]
pub struct PlacementReadings {
    /// The agents that the workflow requires, in order, or why they cannot be
    /// told.
    pub adapters: Option<Result<Vec<String>, String>>,
    /// What each agent turns out to need, in turn.
    pub agents: Vec<Result<AgentRequirement, String>>,
    /// Where each credential goes, unless they cannot be listed.
    pub specs: Option<Result<OrderedMap<String>, String>>,
    /// The policy that is named.
    pub policy: Option<Result<PolicyReading, String>>,
    /// The policies there are, unless they cannot be listed.
    pub policies: Option<Option<Vec<PolicyReading>>>,
    /// The identity of this daemon's own host.
    pub local_host: Option<String>,
    /// The agent whose login is found on hosts.
    pub ambient_login: String,
}

/// What has to be found out next about placing a workflow.
#[derive(Debug, PartialEq, Eq)]
#[allow(inconsistent_fields)]
pub enum PlacementAsk {
    /// The agents that these selectors require.
    Adapters { selectors: Vec<AgentSelector> },
    /// What the agent of this selector needs.
    Agent { selector: AgentSelector },
    Specs,
    Policy { name: String },
    Policies,
}

pub enum PlacementAskView {
    Adapters(Seq<AgentSelector>),
    Agent(AgentSelector),
    Specs,
    Policy(Seq<char>),
    Policies,
}

impl View for PlacementAsk {
    type V = PlacementAskView;

    open spec fn view(&self) -> PlacementAskView {
        match *self {
            PlacementAsk::Adapters { selectors } => PlacementAskView::Adapters(selectors@),
            PlacementAsk::Agent { selector } => PlacementAskView::Agent(selector),
            PlacementAsk::Specs => PlacementAskView::Specs,
            PlacementAsk::Policy { name } => PlacementAskView::Policy(name@),
            PlacementAsk::Policies => PlacementAskView::Policies,
        }
    }
}

/// A placement that was chosen, and how.
#[derive(Debug, PartialEq, Eq)]
pub struct Placement {
    pub policy: PlacementPolicy,
    pub decision: PlacementDecision,
}

/// What to find out next about placing a workflow, or what it comes to.
#[derive(Debug, PartialEq, Eq)]
#[allow(inconsistent_fields)]
pub enum PlacementStep {
    Ask { ask: PlacementAsk },
    Refuse { message: String },
    /// It is placed, or waits for a policy where there is none.
    Placed { placement: Option<Placement> },
}

/// What the agents of the `i`th vessel need, out of what all agents need.
pub open spec fn vessel_agents(
    vessels: Seq<WorkflowVessel>,
    agents: Seq<Result<AgentRequirement, String>>,
    i: int,
) -> Seq<Result<AgentRequirement, String>> {
    agents.subrange(
        workflow_selectors(vessels.take(i)).len() as int,
        workflow_selectors(vessels.take(i + 1)).len() as int,
    )
}

/// `n` is what a vessel asks of a placement.
pub open spec fn needs_of_vessel(
    n: VesselNeeds,
    vessel: WorkflowVessel,
    credentials: VesselCredentials,
    agents: Seq<Result<AgentRequirement, String>>,
) -> bool {
    &&& n.name@ == vessel.name@
    &&& n.stance@ == vessel.stance@
    &&& n.contained == (vessel.stance@ == "contained"@)
    &&& n.agents@ == agents
    &&& strs(n.credential_refs@) == strs(credentials.credential_refs@)
}

/// `n` is what a workflow asks of a placement. It has to be contained where any
/// of its vessels is.
pub open spec fn needs_of(
    n: PlacementNeeds<'_>,
    workflow: EffectiveWorkflow,
    adapters: Result<Vec<String>, String>,
    agents: Seq<Result<AgentRequirement, String>>,
    specs: Result<OrderedMap<String>, String>,
    login: Seq<char>,
) -> bool {
    &&& n.contained == any_stance(workflow.vessels@, "contained"@)
    &&& *n.adapters == adapters
    &&& *n.specs == specs
    &&& n.ambient_login@ == login
    &&& n.vessels@.len() == workflow.vessels@.len()
    &&& forall|i: int|
        0 <= i < n.vessels@.len() ==> needs_of_vessel(
            #[trigger] n.vessels@[i],
            workflow.vessels@[i],
            workflow.credentials@[i],
            vessel_agents(workflow.vessels@, agents, i),
        )
}

fn copy_requirement(r: &Result<AgentRequirement, String>) -> (c: Result<AgentRequirement, String>)
    ensures
        c == *r,
{
    match r {
        Err(e) => Err(e.clone()),
        Ok(r) => Ok(
            AgentRequirement {
                adapter: r.adapter.clone(),
                delivery_slot: opt_clone(&r.delivery_slot),
                ambient_scope: opt_clone(&r.ambient_scope),
            },
        ),
    }
}

proof fn lemma_selectors_grow(vessels: Seq<WorkflowVessel>, i: int)
    requires
        0 <= i <= vessels.len(),
    ensures
        workflow_selectors(vessels.take(i)).len() <= workflow_selectors(vessels).len(),
    decreases vessels.len() - i,
{
    if i == vessels.len() {
        assert(vessels.take(i) =~= vessels);
    } else {
        lemma_selectors_grow(vessels, i + 1);
        assert(vessels.take(i + 1).drop_last() =~= vessels.take(i));
    }
}

fn crew_size(vessel: &WorkflowVessel) -> (r: usize)
    ensures
        r == crew_selectors(vessel.crew@).len(),
        r <= vessel.crew@.len(),
{
    let mut n: usize = 0;
    let mut k: usize = 0;
    assert(crew_selectors(vessel.crew@.take(0)).len() == 0);
    while k < vessel.crew.len()
        invariant
            k <= vessel.crew@.len(),
            n <= k,
            n == crew_selectors(vessel.crew@.take(k as int)).len(),
        decreases vessel.crew.len() - k,
    {
        assert(vessel.crew@.take(k + 1).drop_last() =~= vessel.crew@.take(k as int));
        assert(vessel.crew@.take(k + 1).last() == vessel.crew@[k as int]);
        if let CrewSource::Agent { .. } = &vessel.crew[k] {
            n = n + 1;
        }
        k = k + 1;
    }
    assert(vessel.crew@.take(vessel.crew@.len() as int) =~= vessel.crew@);
    n
}

/// What a workflow asks of a placement. `agents` says what each of its agents
/// needs, in turn.
pub fn placement_needs<'a>(
    workflow: &EffectiveWorkflow,
    adapters: &'a Result<Vec<String>, String>,
    agents: &Vec<Result<AgentRequirement, String>>,
    specs: &'a Result<OrderedMap<String>, String>,
    login: &'a str,
) -> (n: PlacementNeeds<'a>)
    requires
        is_whole(*workflow),
        workflow_selectors(workflow.vessels@).len() <= agents@.len(),
    ensures
        needs_of(n, *workflow, *adapters, agents@, *specs, login@),
{
    let vessels = &workflow.vessels;
    let mut list: Vec<VesselNeeds> = Vec::new();
    let total: usize = agents.len();
    let mut at: usize = 0;
    let mut i: usize = 0;
    assert(workflow_selectors(vessels@.take(0)).len() == 0);
    while i < vessels.len()
        invariant
            i <= vessels@.len(),
            *vessels == workflow.vessels,
            is_whole(*workflow),
            total == agents@.len(),
            workflow_selectors(vessels@).len() <= total,
            at == workflow_selectors(vessels@.take(i as int)).len(),
            list@.len() == i,
            forall|k: int|
                0 <= k < i ==> needs_of_vessel(
                    #[trigger] list@[k],
                    vessels@[k],
                    workflow.credentials@[k],
                    vessel_agents(vessels@, agents@, k),
                ),
        decreases vessels.len() - i,
    {
        proof {
            lemma_selectors_grow(vessels@, i + 1);
        }
        assert(vessels@.take(i + 1).drop_last() =~= vessels@.take(i as int));
        assert(vessels@.take(i + 1).last() == vessels@[i as int]);
        let vessel = &vessels[i];
        let count: usize = crew_size(vessel);
        assert(workflow_selectors(vessels@.take(i + 1)).len() == at + count);
        assert(at + count <= total);
        let end: usize = at + count;
        let mut own: Vec<Result<AgentRequirement, String>> = Vec::new();
        let mut k: usize = at;
        while k < end
            invariant
                at <= k <= end,
                end <= agents@.len(),
                own@.len() == k - at,
                forall|j: int| 0 <= j < k - at ==> #[trigger] own@[j] == agents@[at + j],
            decreases end - k,
        {
            own.push(copy_requirement(&agents[k]));
            k = k + 1;
        }
        assert(own@ =~= vessel_agents(vessels@, agents@, i as int));
        list.push(
            VesselNeeds {
                name: vessel.name.clone(),
                stance: vessel.stance.clone(),
                contained: str_eq(vessel.stance.as_str(), "contained"),
                agents: own,
                credential_refs: strs_clone(&workflow.credentials[i].credential_refs),
            },
        );
        at = end;
        i = i + 1;
    }
    PlacementNeeds { contained: has_stance(vessels, "contained"), adapters, vessels: list, specs, ambient_login: login }
}

/// Whether two policies are the same.
pub open spec fn same_policy(a: PlacementPolicy, b: PlacementPolicy) -> bool {
    &&& a.name@ == b.name@
    &&& a.priority == b.priority
    &&& opt(a.host_direct) == opt(b.host_direct)
    &&& match (a.docker, b.docker) {
        (Some(a), Some(b)) => a.host_ref@ == b.host_ref@ && a.image@ == b.image@ && strs(a.agent_adapters@) == strs(
            b.agent_adapters@,
        ),
        (None, None) => true,
        _ => false,
    }
}

fn copy_policy(p: &PlacementPolicy) -> (r: PlacementPolicy)
    ensures
        same_policy(r, *p),
{
    PlacementPolicy {
        name: p.name.clone(),
        priority: p.priority,
        host_direct: opt_clone(&p.host_direct),
        docker: match &p.docker {
            Some(docker) => Some(
                DockerPolicy {
                    host_ref: docker.host_ref.clone(),
                    image: docker.image.clone(),
                    agent_adapters: strs_clone(&docker.agent_adapters),
                },
            ),
            None => None,
        },
    }
}

/// It ends with an error.
pub open spec fn placing_fails(step: PlacementStep, e: Seq<char>) -> bool {
    step matches PlacementStep::Refuse { message } && message@ == e
}

/// `step` is what comes of the policy that was chosen, if any.
pub open spec fn chosen(step: PlacementStep, selected: Option<PolicyReading>, resolution: PlacementResolution) -> bool {
    match selected {
        None => step matches PlacementStep::Placed { placement } && placement is None,
        Some(reading) => match target_host(reading) {
            Err(e) => placing_fails(step, e),
            Ok(target) => step matches PlacementStep::Placed { placement } && placement matches Some(p) && same_policy(
                p.policy,
                reading.policy,
            ) && decides(p.decision, reading.policy.name@, target, resolution),
        },
    }
}

/// The reading that a resolution selects.
pub open spec fn selected_of(resolution: PlacementResolution, sources: Seq<PolicyReading>) -> Option<PolicyReading> {
    match resolution.selected {
        Some(i) => Some(sources[i as int]),
        None => None,
    }
}

/// The policies that were listed.
pub open spec fn listed(policies: Option<Vec<PolicyReading>>) -> Seq<PolicyReading> {
    match policies {
        Some(list) => list@,
        None => Seq::empty(),
    }
}

/// `r` is what placement by the policies there are comes to.
pub open spec fn resolved_by_default(
    r: Result<PlacementResolution, String>,
    needs: PlacementNeeds<'_>,
    policies: Option<Vec<PolicyReading>>,
    local_host: Option<Seq<char>>,
) -> bool {
    match policies {
        Some(list) => placed_by_default(r, needs, list@, local_host) && chooses_among(r, list@.len()),
        None => r matches Ok(resolution) && resolution.selected is None && resolution.refused_candidates@.len() == 0
            && resolution.viable_not_selected@.len() == 0,
    }
}

/// `step` is what a workflow that names no policy gets.
pub open spec fn default_decided(
    step: PlacementStep,
    needs: PlacementNeeds<'_>,
    policies: Option<Vec<PolicyReading>>,
    local_host: Option<Seq<char>>,
) -> bool {
    exists|resolved: Result<PlacementResolution, String>, checked: Result<PlacementResolution, String>|
        {
            &&& #[trigger] resolved_by_default(resolved, needs, policies, local_host)
            &&& #[trigger] default_checked(checked, resolved, needs, listed(policies))
            &&& match checked {
                Err(e) => placing_fails(step, e@),
                Ok(resolution) => chosen(step, selected_of(resolution, listed(policies)), resolution),
            }
        }
}

/// `step` is what a workflow gets that asks for so much of a placement.
pub open spec fn place_decided(step: PlacementStep, needs: PlacementNeeds<'_>, policy: Option<Seq<char>>, rd: PlacementReadings) -> bool {
    match policy {
        Some(policy) => match admission_value(policy, "placement policy"@) {
            Err(e) => placing_fails(step, e),
            Ok(name) => match rd.policy {
                None => step matches PlacementStep::Ask { ask } && ask@ == PlacementAskView::Policy(name),
                Some(found) => match named_problem(needs, policy, found) {
                    Some(e) => placing_fails(step, e),
                    None => exists|resolution: PlacementResolution|
                        resolution.refused_candidates@.len() == 0 && resolution.viable_not_selected@.len() == 0
                            && #[trigger] chosen(step, Some(found->Ok_0), resolution),
                },
            },
        },
        None => match rd.policies {
            None => step matches PlacementStep::Ask { ask } && ask@ == PlacementAskView::Policies,
            Some(policies) => default_decided(step, needs, policies, opt(rd.local_host)),
        },
    }
}

/// `step` is what comes next for a workflow that is placed: what its agents
/// and its credentials need, then the policy that is named, or the policies
/// there are.
pub open spec fn placement_decided(
    step: PlacementStep,
    workflow: EffectiveWorkflow,
    policy: Option<Seq<char>>,
    rd: PlacementReadings,
) -> bool {
    let selectors = workflow_selectors(workflow.vessels@);
    if rd.adapters is None {
        step matches PlacementStep::Ask { ask } && ask@ == PlacementAskView::Adapters(selectors)
    } else if rd.agents@.len() < selectors.len() {
        step matches PlacementStep::Ask { ask } && ask@ == PlacementAskView::Agent(selectors[rd.agents@.len() as int])
    } else if rd.specs is None {
        step matches PlacementStep::Ask { ask } && ask@ == PlacementAskView::Specs
    } else {
        exists|needs: PlacementNeeds<'_>|
            #[trigger] needs_of(needs, workflow, rd.adapters->0, rd.agents@, rd.specs->0, rd.ambient_login@) && place_decided(
                step,
                needs,
                policy,
                rd,
            )
    }
}

fn choose_placement(resolution: PlacementResolution, selected: Option<&PolicyReading>) -> (step: PlacementStep)
    ensures
        chosen(
            step,
            match selected {
                Some(reading) => Some(*reading),
                None => None,
            },
            resolution,
        ),
{
    match placement_decision(resolution, selected) {
        Err(message) => PlacementStep::Refuse { message },
        Ok(None) => PlacementStep::Placed { placement: None },
        Ok(Some(decision)) => match selected {
            Some(reading) => PlacementStep::Placed {
                placement: Some(Placement { policy: copy_policy(&reading.policy), decision }),
            },
            None => PlacementStep::Placed { placement: None },
        },
    }
}

fn place(needs: &PlacementNeeds<'_>, policy: &Option<String>, rd: &PlacementReadings) -> (step: PlacementStep)
    ensures
        place_decided(step, *needs, opt(*policy), *rd),
{
    match policy {
        Some(policy) => {
            let name = match required_admission_value(policy.as_str(), "placement policy") {
                Err(message) => {
                    return PlacementStep::Refuse { message };
                },
                Ok(name) => name,
            };
            match &rd.policy {
                None => PlacementStep::Ask { ask: PlacementAsk::Policy { name } },
                Some(found) => match named_convoy_placement(needs, policy.as_str(), found) {
                    Err(message) => PlacementStep::Refuse { message },
                    Ok(()) => match found {
                        Err(e) => PlacementStep::Refuse { message: e.clone() },
                        Ok(reading) => {
                            let resolution = PlacementResolution {
                                selected: None,
                                refused_candidates: Vec::new(),
                                viable_not_selected: Vec::new(),
                            };
                            choose_placement(resolution, Some(reading))
                        },
                    },
                },
            }
        },
        None => match &rd.policies {
            None => PlacementStep::Ask { ask: PlacementAsk::Policies },
            Some(policies) => {
                let none: Vec<PolicyReading> = Vec::new();
                let sources = match policies {
                    Some(list) => list,
                    None => &none,
                };
                assert(sources@ =~= listed(*policies));
                let resolved = default_convoy_placement_policy(needs, policies.as_ref(), &rd.local_host);
                let ghost before = resolved;
                assert(resolved_by_default(before, *needs, *policies, opt(rd.local_host)));
                let checked = checked_default_placement(needs, sources, resolved);
                assert(default_checked(checked, before, *needs, listed(*policies)));
                match checked {
                    Err(message) => PlacementStep::Refuse { message },
                    Ok(resolution) => {
                        let selected = match resolution.selected {
                            Some(i) => Some(&sources[i]),
                            None => None,
                        };
                        choose_placement(resolution, selected)
                    },
                }
            },
        },
    }
}

/// Decides what comes next for a workflow that is placed. `policy` is the one
/// that is named, if any.
pub fn resolve_and_validate_convoy_placement(
    workflow: &EffectiveWorkflow,
    policy: &Option<String>,
    rd: &PlacementReadings,
) -> (step: PlacementStep)
    requires
        is_whole(*workflow),
    ensures
        placement_decided(step, *workflow, opt(*policy), *rd),
{
    let selectors = agent_selectors(&workflow.vessels);
    let adapters = match &rd.adapters {
        None => {
            return PlacementStep::Ask { ask: PlacementAsk::Adapters { selectors } };
        },
        Some(adapters) => adapters,
    };
    if rd.agents.len() < selectors.len() {
        return PlacementStep::Ask { ask: PlacementAsk::Agent { selector: selectors[rd.agents.len()].copy() } };
    }
    let specs = match &rd.specs {
        None => {
            return PlacementStep::Ask { ask: PlacementAsk::Specs };
        },
        Some(specs) => specs,
    };
    let needs = placement_needs(workflow, adapters, &rd.agents, specs, rd.ambient_login.as_str());
    place(&needs, policy, rd)
}

/// The host that a convoy which names no policy will start on, where it is
/// placed and that is not this daemon's own.
pub fn convoy_start_placement_host(placement: &Option<Placement>, local_host: &Option<String>) -> (r: Option<String>)
    ensures
        opt(r) == match *placement {
            None => None,
            Some(p) => if opt(*local_host) == Some(p.decision.target_host.reference@) {
                None
            } else {
                Some(p.decision.target_host.reference@)
            },
        },
{
    match placement {
        None => None,
        Some(p) => {
            if opt_is(local_host, p.decision.target_host.reference.as_str()) {
                None
            } else {
                Some(p.decision.target_host.reference.clone())
            }
        },
    }
}

proof fn lemma_selected_would_do(
    r: Result<PlacementResolution, String>,
    needs: PlacementNeeds<'_>,
    sources: Seq<PolicyReading>,
    order: Seq<int>,
    local_host: Option<Seq<char>>,
)
    requires
        placement_outcome(r, needs, sources, order, local_host),
        r matches Ok(resolution) && resolution.selected is Some,
    ensures
        policy_refusal(needs, sources[r->Ok_0.selected->0 as int]) is None,
{
    let (rows, list) = choose|rows: Seq<PlacementRefusal>, list: Seq<ViablePolicy>|
        {
            &&& #[trigger] refusals_of(rows, order, needs, sources)
            &&& #[trigger] viables(list, hosted(passed(order, needs, sources), sources), sources, local_host)
            &&& settled(r, needs, rows, list)
        };
    let pass = |i: int| policy_refusal(needs, sources[i]) is None;
    let has = |i: int| target_host(sources[i]) is Ok;
    let ok = order.filter(pass);
    let set = ok.filter(has);
    assert(set == hosted(passed(order, needs, sources), sources));
    lemma_rank_sort(list);
    lemma_rank_sort_keeps(list, 0);
    let w = choose|i: int| 0 <= i < list.len() && list[i] == rank_sort(list)[0];
    assert(viable_of(list[w], sources, set[w], local_host));
    assert(set.contains(set[w]));
    ok.lemma_filter_contains_rev(has, set[w]);
    let v = choose|i: int| 0 <= i < ok.len() && ok[i] == set[w];
    order.lemma_filter_pred(pass, v);
}

/// `needs` is what a workflow asks of a placement, and the placement that is
/// read so serves it: nothing about its agents or its credentials stands
/// against it, and a contained workflow is in a container.
pub open spec fn served(
    needs: PlacementNeeds<'_>,
    reading: Option<PolicyReading>,
    workflow: EffectiveWorkflow,
    placement: Option<Placement>,
    rd: PlacementReadings,
) -> bool {
    &&& rd.adapters is Some
    &&& rd.specs is Some
    &&& workflow_selectors(workflow.vessels@).len() <= rd.agents@.len()
    &&& needs_of(needs, workflow, rd.adapters->0, rd.agents@, rd.specs->0, rd.ambient_login@)
    &&& placement_problem(needs, reading) is None
    &&& match (placement, reading) {
        (Some(p), Some(reading)) => same_policy(p.policy, reading.policy) && p.decision.policy_name@ == reading.policy.name@,
        (None, None) => true,
        _ => false,
    }
    &&& needs.contained ==> (placement matches Some(p) && p.policy.docker is Some)
}

/// A workflow is only ever placed where it is served.
pub proof fn law_placed_workflows_are_served(
    step: PlacementStep,
    workflow: EffectiveWorkflow,
    policy: Option<Seq<char>>,
    rd: PlacementReadings,
)
    requires
        placement_decided(step, workflow, policy, rd),
        step is Placed,
    ensures
        exists|needs: PlacementNeeds<'_>, reading: Option<PolicyReading>|
            #[trigger] served(needs, reading, workflow, step->Placed_placement, rd),
{
    let needs = choose|needs: PlacementNeeds<'_>|
        #[trigger] needs_of(needs, workflow, rd.adapters->0, rd.agents@, rd.specs->0, rd.ambient_login@) && place_decided(
            step,
            needs,
            policy,
            rd,
        );
    if policy is Some {
        let found = rd.policy->0;
        assert(served(needs, Some(found->Ok_0), workflow, step->Placed_placement, rd));
    } else {
        let policies = rd.policies->0;
        let (resolved, checked) = choose|resolved: Result<PlacementResolution, String>, checked: Result<PlacementResolution, String>|
            {
                &&& #[trigger] resolved_by_default(resolved, needs, policies, opt(rd.local_host))
                &&& #[trigger] default_checked(checked, resolved, needs, listed(policies))
                &&& match checked {
                    Err(e) => placing_fails(step, e@),
                    Ok(resolution) => chosen(step, selected_of(resolution, listed(policies)), resolution),
                }
            };
        let resolution = checked->Ok_0;
        let reading = selected_of(resolution, listed(policies));
        if resolution.selected is Some {
            let sources = listed(policies);
            let (copies, order) = choose|copies: Seq<NamedCopy>, order: Seq<int>|
                {
                    &&& #[trigger] copies_match(copies, sources)
                    &&& #[trigger] home_copies(order, copies)
                    &&& placement_outcome(resolved, needs, sources, order, opt(rd.local_host))
                };
            lemma_selected_would_do(resolved, needs, sources, order, opt(rd.local_host));
        }
        assert(served(needs, reading, workflow, step->Placed_placement, rd));
    }
}

} // verus!
