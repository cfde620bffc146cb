//! What a workflow asks of agents: which choices may be overridden at
//! dispatch, and which credentials its vessels are granted and need.
use vstd::prelude::*;

use crate::naming::{is_token, valid_agent_override_token};
use crate::ordered::{sort_dedup, sorted_unique, OrderedMap, OrderedSet};
use crate::text::{
    concat3, concat4, first_some, holds, join, join_strs, lemma_first_some, opt, opt_clone, str_eq, strs, strs_clone, strs_hold,
};

verus! {

/// The agent that a crew member asks for.
#[derive(Debug, PartialEq, Eq)]
pub struct AgentSelector {
    pub capability: String,
    pub adapter: Option<String>,
    pub model: Option<String>,
}

impl AgentSelector {
    pub fn copy(&self) -> (r: Self)
        ensures
            r == *self,
    {
        AgentSelector {
            capability: self.capability.clone(),
            adapter: opt_clone(&self.adapter),
            model: opt_clone(&self.model),
        }
    }
}

/// A crew member: an agent, or a tool.
#[derive(Debug, PartialEq, Eq)]
pub enum CrewSource {
    Agent { selector: AgentSelector },
    Tool,
}

/// A vessel of a workflow and its crew.
#[derive(Debug, PartialEq, Eq)]
pub struct WorkflowVessel {
    pub name: String,
    /// How far its crew is trusted: `trusted`, `contained` and so on.
    pub stance: String,
    /// The repositories it works on, where it does not work on all.
    pub repository_refs: Option<Vec<String>>,
    pub crew: Vec<CrewSource>,
}

/// The repositories that a vessel names.
pub open spec fn named_repos(refs: Option<Vec<String>>) -> Option<Seq<Seq<char>>> {
    match refs {
        Some(refs) => Some(strs(refs@)),
        None => None,
    }
}

/// Whether two vessels have the same name and work on the same repositories.
pub open spec fn same_vessel(a: WorkflowVessel, b: WorkflowVessel) -> bool {
    a.name == b.name && named_repos(a.repository_refs) == named_repos(b.repository_refs)
}

fn copy_refs(refs: &Option<Vec<String>>) -> (r: Option<Vec<String>>)
    ensures
        named_repos(r) == named_repos(*refs),
{
    match refs {
        Some(refs) => Some(strs_clone(refs)),
        None => None,
    }
}

/// Whether a crew member is an agent.
pub open spec fn is_agent(source: CrewSource) -> bool {
    source is Agent
}

/// How many agents the crew has.
pub open spec fn agent_count(crew: Seq<CrewSource>) -> nat
    decreases crew.len(),
{
    if crew.len() == 0 {
        0
    } else {
        agent_count(crew.drop_last()) + if is_agent(crew.last()) {
            1nat
        } else {
            0nat
        }
    }
}

/// Whether a crew member is a reviewing agent.
pub open spec fn reviews(source: CrewSource) -> bool {
    match source {
        CrewSource::Agent { selector } => selector.capability@ == "review"@ || selector.capability@ == "code-review"@,
        CrewSource::Tool => false,
    }
}

/// Whether one agent of a vessel looks over the work of another.
pub open spec fn reviewed_in_crew(vessel: WorkflowVessel) -> bool {
    agent_count(vessel.crew@) > 1 && exists|i: int| 0 <= i < vessel.crew@.len() && reviews(#[trigger] vessel.crew@[i])
}

/// Whether the workflow reviews its own work.
pub open spec fn has_review(vessels: Seq<WorkflowVessel>) -> bool {
    exists|i: int| 0 <= i < vessels.len() && reviewed_in_crew(#[trigger] vessels[i])
}

proof fn lemma_agent_count(crew: Seq<CrewSource>)
    ensures
        agent_count(crew) <= crew.len(),
    decreases crew.len(),
{
    if crew.len() > 0 {
        lemma_agent_count(crew.drop_last());
    }
}

fn vessel_reviewed(vessel: &WorkflowVessel) -> (r: bool)
    ensures
        r == reviewed_in_crew(*vessel),
{
    let mut agents: usize = 0;
    let mut reviewer = false;
    let mut i: usize = 0;
    while i < vessel.crew.len()
        invariant
            i <= vessel.crew@.len(),
            agents == agent_count(vessel.crew@.take(i as int)),
            agents <= i,
            reviewer == exists|k: int| 0 <= k < i && reviews(#[trigger] vessel.crew@[k]),
        decreases vessel.crew.len() - i,
    {
        assert(vessel.crew@.take(i + 1).drop_last() =~= vessel.crew@.take(i as int));
        assert(vessel.crew@.take(i + 1).last() == vessel.crew@[i as int]);
        match &vessel.crew[i] {
            CrewSource::Agent { selector } => {
                agents = agents + 1;
                if str_eq(selector.capability.as_str(), "review") || str_eq(selector.capability.as_str(), "code-review") {
                    assert(reviews(vessel.crew@[i as int]));
                    reviewer = true;
                }
            },
            CrewSource::Tool => {},
        }
        i = i + 1;
    }
    assert(vessel.crew@.take(vessel.crew@.len() as int) =~= vessel.crew@);
    agents > 1 && reviewer
}

pub fn workflow_has_in_crew_review(vessels: &Vec<WorkflowVessel>) -> (r: bool)
    ensures
        r == has_review(vessels@),
{
    let mut i: usize = 0;
    while i < vessels.len()
        invariant
            i <= vessels@.len(),
            forall|k: int| 0 <= k < i ==> !reviewed_in_crew(#[trigger] vessels@[k]),
        decreases vessels.len() - i,
    {
        if vessel_reviewed(&vessels[i]) {
            assert(reviewed_in_crew(vessels@[i as int]));
            return true;
        }
        i = i + 1;
    }
    false
}

/// A repository as a fork check sees it.
#[derive(Debug)]
pub struct ForkReading {
    pub repo_ref: String,
    /// Whether it is a fork that wants its workflows reviewed, or why it
    /// could not be read.
    pub reviewed_fork: Result<bool, String>,
}

/// What keeps an unreviewed workflow from one repository.
pub open spec fn fork_problem(repository: ForkReading, workflow: Seq<char>) -> Option<Seq<char>> {
    match repository.reviewed_fork {
        Err(e) => Some("repository "@ + repository.repo_ref@ + ": "@ + e@),
        Ok(true) => Some(
            "workflow "@ + workflow + " not permitted for fork-stance repository \u{2014} use implement-review"@,
        ),
        Ok(false) => None,
    }
}

/// What keeps the workflow from its repositories.
pub open spec fn fork_problems(repositories: Seq<ForkReading>, workflow: Seq<char>) -> Seq<Option<Seq<char>>> {
    Seq::new(repositories.len(), |i: int| fork_problem(repositories[i], workflow))
}

/// A workflow without a review in its crew keeps off forks that want one.
pub fn validate_fork_workflow_admission(
    repositories: &Vec<ForkReading>,
    workflow_ref: &str,
    vessels: &Vec<WorkflowVessel>,
) -> (r: Result<(), String>)
    ensures
        match r {
            Ok(()) => has_review(vessels@) || first_some(fork_problems(repositories@, workflow_ref@)) is None,
            Err(e) => !has_review(vessels@) && first_some(fork_problems(repositories@, workflow_ref@)) == Some(e@),
        },
{
    if workflow_has_in_crew_review(vessels) {
        return Ok(());
    }
    let ghost list = fork_problems(repositories@, workflow_ref@);
    let mut i: usize = 0;
    while i < repositories.len()
        invariant
            i <= repositories@.len(),
            list == fork_problems(repositories@, workflow_ref@),
            !has_review(vessels@),
            forall|k: int| 0 <= k < i ==> #[trigger] list[k] is None,
        decreases repositories.len() - i,
    {
        let repository = &repositories[i];
        assert(list[i as int] == fork_problem(*repository, workflow_ref@));
        match &repository.reviewed_fork {
            Err(e) => {
                proof {
                    lemma_first_some(list, i as int);
                }
                return Err(concat4("repository ", repository.repo_ref.as_str(), ": ", e.as_str()));
            },
            Ok(reviewed) => {
                if *reviewed {
                    proof {
                        lemma_first_some(list, i as int);
                    }
                    return Err(
                        concat3(
                            "workflow ",
                            workflow_ref,
                            " not permitted for fork-stance repository \u{2014} use implement-review",
                        ),
                    );
                }
            },
        }
        i = i + 1;
    }
    proof {
        lemma_first_some(list, list.len() as int);
    }
    Ok(())
}

/// A choice of agent made at dispatch.
#[derive(Debug, PartialEq, Eq)]
pub struct AgentOverride {
    pub capability: String,
    pub adapter: String,
    pub model: Option<String>,
}

/// What the choice makes of a crew member.
pub open spec fn overridden(source: CrewSource, choice: AgentOverride) -> CrewSource {
    match source {
        CrewSource::Agent { selector } => if selector.capability@ == choice.capability@ {
            CrewSource::Agent {
                selector: AgentSelector { capability: selector.capability, adapter: Some(choice.adapter), model: choice.model },
            }
        } else {
            source
        },
        CrewSource::Tool => source,
    }
}

/// What the choice makes of a crew.
pub open spec fn crew_overridden(crew: Seq<CrewSource>, choice: AgentOverride) -> Seq<CrewSource> {
    Seq::new(crew.len(), |i: int| overridden(crew[i], choice))
}

/// `after` is what the choice makes of the vessels.
pub open spec fn vessels_overridden(after: Seq<WorkflowVessel>, before: Seq<WorkflowVessel>, choice: AgentOverride) -> bool {
    &&& after.len() == before.len()
    &&& forall|i: int|
        0 <= i < after.len() ==> same_vessel(#[trigger] after[i], before[i]) && after[i].stance == before[i].stance
            && after[i].crew@ == crew_overridden(before[i].crew@, choice)
}

/// The capabilities that a crew's agents ask for.
pub open spec fn crew_capabilities(crew: Seq<CrewSource>) -> Seq<Seq<char>>
    decreases crew.len(),
{
    if crew.len() == 0 {
        Seq::empty()
    } else {
        match crew.last() {
            CrewSource::Agent { selector } => crew_capabilities(crew.drop_last()).push(selector.capability@),
            CrewSource::Tool => crew_capabilities(crew.drop_last()),
        }
    }
}

/// The capabilities that the workflow's agents ask for.
pub open spec fn capabilities(vessels: Seq<WorkflowVessel>) -> Seq<Seq<char>>
    decreases vessels.len(),
{
    if vessels.len() == 0 {
        Seq::empty()
    } else {
        capabilities(vessels.drop_last()) + crew_capabilities(vessels.last().crew@)
    }
}

/// The capabilities that choices name.
pub open spec fn chosen_capabilities(choices: Seq<AgentOverride>) -> Seq<Seq<char>> {
    Seq::new(choices.len(), |i: int| choices[i].capability@)
}

/// Why a choice cannot take effect, with the choices before it and the
/// capabilities that the workflow asks for.
pub open spec fn override_problem(
    choice: AgentOverride,
    earlier: Seq<AgentOverride>,
    asked: Seq<Seq<char>>,
) -> Option<Seq<char>> {
    if holds(chosen_capabilities(earlier), choice.capability@) {
        Some("duplicate --agent override for capability `"@ + choice.capability@ + "`"@)
    } else if !is_token(choice.adapter@) {
        Some("agent adapter `"@ + choice.adapter@ + "` may only contain alphanumerics, `.`, `_`, and `-`"@)
    } else if choice.model is Some && !is_token(choice.model->0@) {
        Some("agent model `"@ + choice.model->0@ + "` may only contain alphanumerics, `.`, `_`, and `-`"@)
    } else if holds(asked, choice.capability@) {
        None
    } else if asked.len() == 0 {
        Some(
            "--agent override names capability `"@ + choice.capability@
                + "`, but this workflow has no agent crew to override"@,
        )
    } else {
        Some(
            "--agent override names capability `"@ + choice.capability@ + "`, but this workflow's agent capabilities are: "@
                + join(sorted_unique(asked), ", "@),
        )
    }
}

/// Why the choices cannot take effect, each in turn.
pub open spec fn override_problems(choices: Seq<AgentOverride>, asked: Seq<Seq<char>>) -> Seq<Option<Seq<char>>> {
    Seq::new(choices.len(), |i: int| override_problem(choices[i], choices.take(i), asked))
}

/// What the choices make of a crew, one after the other.
pub open spec fn crew_after(crew: Seq<CrewSource>, choices: Seq<AgentOverride>) -> Seq<CrewSource>
    decreases choices.len(),
{
    if choices.len() == 0 {
        crew
    } else {
        crew_overridden(crew_after(crew, choices.drop_last()), choices.last())
    }
}

/// `after` is what the choices make of the vessels.
pub open spec fn vessels_after(after: Seq<WorkflowVessel>, before: Seq<WorkflowVessel>, choices: Seq<AgentOverride>) -> bool {
    &&& after.len() == before.len()
    &&& forall|i: int|
        0 <= i < after.len() ==> same_vessel(#[trigger] after[i], before[i]) && after[i].stance == before[i].stance
            && after[i].crew@ == crew_after(before[i].crew@, choices)
}

/// The stance of a vessel: the one that is given, else its own.
pub open spec fn stance_of(own: Seq<char>, given: Option<Seq<char>>) -> Seq<char> {
    match given {
        Some(stance) => stance,
        None => own,
    }
}

/// `after` is what a stance makes of the vessels, where one is given.
pub open spec fn vessels_stanced(after: Seq<WorkflowVessel>, before: Seq<WorkflowVessel>, given: Option<Seq<char>>) -> bool {
    &&& after.len() == before.len()
    &&& forall|i: int|
        0 <= i < after.len() ==> same_vessel(#[trigger] after[i], before[i]) && after[i].crew@ == before[i].crew@
            && after[i].stance@ == stance_of(before[i].stance@, given)
}

/// `after` is what a stance and the choices made at dispatch make of the
/// vessels.
pub open spec fn vessels_admitted(
    after: Seq<WorkflowVessel>,
    before: Seq<WorkflowVessel>,
    given: Option<Seq<char>>,
    choices: Seq<AgentOverride>,
) -> bool {
    &&& after.len() == before.len()
    &&& forall|i: int|
        0 <= i < after.len() ==> same_vessel(#[trigger] after[i], before[i]) && after[i].crew@ == crew_after(
            before[i].crew@,
            choices,
        ) && after[i].stance@ == stance_of(before[i].stance@, given)
}

proof fn lemma_override_keeps_capabilities(crew: Seq<CrewSource>, choice: AgentOverride)
    ensures
        crew_capabilities(crew_overridden(crew, choice)) == crew_capabilities(crew),
    decreases crew.len(),
{
    if crew.len() > 0 {
        lemma_override_keeps_capabilities(crew.drop_last(), choice);
        assert(crew_overridden(crew, choice).drop_last() =~= crew_overridden(crew.drop_last(), choice));
        assert(crew_overridden(crew, choice).last() == overridden(crew.last(), choice));
    } else {
        assert(crew_overridden(crew, choice) =~= crew);
    }
}

proof fn lemma_overrides_keep_capabilities(crew: Seq<CrewSource>, choices: Seq<AgentOverride>)
    ensures
        crew_capabilities(crew_after(crew, choices)) == crew_capabilities(crew),
    decreases choices.len(),
{
    if choices.len() > 0 {
        lemma_overrides_keep_capabilities(crew, choices.drop_last());
        lemma_override_keeps_capabilities(crew_after(crew, choices.drop_last()), choices.last());
    }
}

proof fn lemma_vessels_keep_capabilities(
    after: Seq<WorkflowVessel>,
    before: Seq<WorkflowVessel>,
    choices: Seq<AgentOverride>,
)
    requires
        vessels_after(after, before, choices),
    ensures
        capabilities(after) == capabilities(before),
    decreases after.len(),
{
    if after.len() > 0 {
        assert(after.last() == after[after.len() - 1]);
        lemma_overrides_keep_capabilities(before.last().crew@, choices);
        assert forall|i: int| 0 <= i < after.drop_last().len() implies same_vessel(
            #[trigger] after.drop_last()[i],
            before.drop_last()[i],
        ) && after.drop_last()[i].stance == before.drop_last()[i].stance
            && after.drop_last()[i].crew@ == crew_after(
            before.drop_last()[i].crew@,
            choices,
        ) by {
            assert(after.drop_last()[i] == after[i]);
        }
        lemma_vessels_keep_capabilities(after.drop_last(), before.drop_last(), choices);
    }
}

fn asked_capabilities(vessels: &Vec<WorkflowVessel>) -> (r: Vec<String>)
    ensures
        strs(r@) == capabilities(vessels@),
{
    let mut r: Vec<String> = Vec::new();
    let mut i: usize = 0;
    assert(strs(r@) =~= capabilities(vessels@.take(0)));
    while i < vessels.len()
        invariant
            i <= vessels@.len(),
            strs(r@) == capabilities(vessels@.take(i as int)),
        decreases vessels.len() - i,
    {
        assert(vessels@.take(i + 1).drop_last() =~= vessels@.take(i as int));
        assert(vessels@.take(i + 1).last() == vessels@[i as int]);
        let crew = &vessels[i].crew;
        let mut k: usize = 0;
        assert(capabilities(vessels@.take(i as int)) + crew_capabilities(crew@.take(0)) =~= capabilities(
            vessels@.take(i as int),
        ));
        while k < crew.len()
            invariant
                k <= crew@.len(),
                strs(r@) == capabilities(vessels@.take(i as int)) + crew_capabilities(crew@.take(k as int)),
            decreases crew.len() - k,
        {
            assert(crew@.take(k + 1).drop_last() =~= crew@.take(k as int));
            assert(crew@.take(k + 1).last() == crew@[k as int]);
            match &crew[k] {
                CrewSource::Agent { selector } => {
                    let ghost was = strs(r@);
                    r.push(selector.capability.clone());
                    assert(strs(r@) =~= was.push(selector.capability@));
                    assert(strs(r@) =~= capabilities(vessels@.take(i as int)) + crew_capabilities(crew@.take(k + 1)));
                },
                CrewSource::Tool => {},
            }
            k = k + 1;
        }
        assert(crew@.take(crew@.len() as int) =~= crew@);
        i = i + 1;
    }
    assert(vessels@.take(vessels@.len() as int) =~= vessels@);
    r
}

fn override_one(source: &CrewSource, choice: &AgentOverride) -> (r: CrewSource)
    ensures
        r == overridden(*source, *choice),
{
    match source {
        CrewSource::Agent { selector } => {
            if str_eq(selector.capability.as_str(), choice.capability.as_str()) {
                CrewSource::Agent {
                    selector: AgentSelector {
                        capability: selector.capability.clone(),
                        adapter: Some(choice.adapter.clone()),
                        model: opt_clone(&choice.model),
                    },
                }
            } else {
                CrewSource::Agent {
                    selector: AgentSelector {
                        capability: selector.capability.clone(),
                        adapter: opt_clone(&selector.adapter),
                        model: opt_clone(&selector.model),
                    },
                }
            }
        },
        CrewSource::Tool => CrewSource::Tool,
    }
}

fn override_vessels(vessels: &Vec<WorkflowVessel>, choice: &AgentOverride) -> (r: Vec<WorkflowVessel>)
    ensures
        vessels_overridden(r@, vessels@, *choice),
{
    let mut r: Vec<WorkflowVessel> = Vec::new();
    let mut i: usize = 0;
    while i < vessels.len()
        invariant
            i <= vessels@.len(),
            r@.len() == i,
            forall|k: int|
                0 <= k < i ==> same_vessel(#[trigger] r@[k], vessels@[k]) && r@[k].stance == vessels@[k].stance
                    && r@[k].crew@ == crew_overridden(vessels@[k].crew@, *choice),
        decreases vessels.len() - i,
    {
        let from = &vessels[i].crew;
        let mut crew: Vec<CrewSource> = Vec::new();
        let mut k: usize = 0;
        while k < from.len()
            invariant
                k <= from@.len(),
                crew@.len() == k,
                forall|j: int| 0 <= j < k ==> #[trigger] crew@[j] == overridden(from@[j], *choice),
            decreases from.len() - k,
        {
            crew.push(override_one(&from[k], choice));
            k = k + 1;
        }
        assert(crew@ =~= crew_overridden(from@, *choice));
        r.push(
            WorkflowVessel {
                name: vessels[i].name.clone(),
                stance: vessels[i].stance.clone(),
                repository_refs: copy_refs(&vessels[i].repository_refs),
                crew,
            },
        );
        i = i + 1;
    }
    r
}

fn copy_crew(from: &Vec<CrewSource>) -> (crew: Vec<CrewSource>)
    ensures
        crew@ == from@,
{
    let mut crew: Vec<CrewSource> = Vec::new();
    let mut k: usize = 0;
    while k < from.len()
        invariant
            k <= from@.len(),
            crew@.len() == k,
            forall|j: int| 0 <= j < k ==> #[trigger] crew@[j] == from@[j],
        decreases from.len() - k,
    {
        let source = match &from[k] {
            CrewSource::Agent { selector } => CrewSource::Agent { selector: selector.copy() },
            CrewSource::Tool => CrewSource::Tool,
        };
        crew.push(source);
        k = k + 1;
    }
    assert(crew@ =~= from@);
    crew
}

/// The workflow's vessels, each with the given stance, where one is given.
pub fn take_stance(vessels: &Vec<WorkflowVessel>, stance: &Option<String>) -> (r: Vec<WorkflowVessel>)
    ensures
        vessels_stanced(r@, vessels@, opt(*stance)),
        stance is None ==> vessels_after(r@, vessels@, Seq::empty()),
{
    let mut r: Vec<WorkflowVessel> = Vec::new();
    let mut i: usize = 0;
    while i < vessels.len()
        invariant
            i <= vessels@.len(),
            r@.len() == i,
            forall|k: int|
                0 <= k < i ==> same_vessel(#[trigger] r@[k], vessels@[k]) && r@[k].crew@ == vessels@[k].crew@
                    && r@[k].stance@ == stance_of(vessels@[k].stance@, opt(*stance)) && (stance is None ==> r@[k].stance
                    == vessels@[k].stance),
        decreases vessels.len() - i,
    {
        let own = match stance {
            Some(stance) => stance.clone(),
            None => vessels[i].stance.clone(),
        };
        r.push(
            WorkflowVessel {
                name: vessels[i].name.clone(),
                stance: own,
                repository_refs: copy_refs(&vessels[i].repository_refs),
                crew: copy_crew(&vessels[i].crew),
            },
        );
        i = i + 1;
    }
    r
}

/// The workflow's vessels with the choices made at dispatch written in, so
/// that everything after reads the effective requirement from the selector.
/// A choice that cannot take effect is an error.
pub fn apply_agent_overrides(vessels: &Vec<WorkflowVessel>, overrides: &Vec<AgentOverride>) -> (r: Result<
    Vec<WorkflowVessel>,
    String,
>)
    ensures
        match r {
            Ok(after) => first_some(override_problems(overrides@, capabilities(vessels@))) is None && vessels_after(
                after@,
                vessels@,
                overrides@,
            ),
            Err(e) => first_some(override_problems(overrides@, capabilities(vessels@))) == Some(e@),
        },
{
    let asked = asked_capabilities(vessels);
    let ghost list = override_problems(overrides@, capabilities(vessels@));
    let mut after = take_stance(vessels, &None);
    let mut seen: Vec<String> = Vec::new();
    let mut i: usize = 0;
    assert(overrides@.take(0) =~= Seq::<AgentOverride>::empty());
    assert(strs(seen@) =~= chosen_capabilities(overrides@.take(0)));
    while i < overrides.len()
        invariant
            i <= overrides@.len(),
            list == override_problems(overrides@, capabilities(vessels@)),
            strs(asked@) == capabilities(vessels@),
            strs(seen@) == chosen_capabilities(overrides@.take(i as int)),
            vessels_after(after@, vessels@, overrides@.take(i as int)),
            forall|k: int| 0 <= k < i ==> #[trigger] list[k] is None,
        decreases overrides.len() - i,
    {
        let choice = &overrides[i];
        assert(list[i as int] == override_problem(*choice, overrides@.take(i as int), capabilities(vessels@)));
        assert(overrides@.take(i + 1).drop_last() =~= overrides@.take(i as int));
        assert(overrides@.take(i + 1).last() == *choice);
        let capability = choice.capability.as_str();
        if strs_hold(&seen, capability) {
            proof {
                lemma_first_some(list, i as int);
            }
            return Err(concat3("duplicate --agent override for capability `", capability, "`"));
        }
        if !valid_agent_override_token(choice.adapter.as_str()) {
            proof {
                lemma_first_some(list, i as int);
            }
            return Err(
                concat3(
                    "agent adapter `",
                    choice.adapter.as_str(),
                    "` may only contain alphanumerics, `.`, `_`, and `-`",
                ),
            );
        }
        match &choice.model {
            Some(model) => {
                if !valid_agent_override_token(model.as_str()) {
                    proof {
                        lemma_first_some(list, i as int);
                    }
                    return Err(
                        concat3("agent model `", model.as_str(), "` may only contain alphanumerics, `.`, `_`, and `-`"),
                    );
                }
            },
            None => {},
        }
        if !strs_hold(&asked, capability) {
            proof {
                lemma_first_some(list, i as int);
            }
            if asked.len() == 0 {
                assert(strs(asked@).len() == 0);
                return Err(
                    concat3(
                        "--agent override names capability `",
                        capability,
                        "`, but this workflow has no agent crew to override",
                    ),
                );
            }
            assert(strs(asked@).len() > 0);
            let sorted = sort_dedup(&asked);
            let joined = join_strs(&sorted, ", ");
            return Err(
                concat4(
                    "--agent override names capability `",
                    capability,
                    "`, but this workflow's agent capabilities are: ",
                    joined.as_str(),
                ),
            );
        }
        let ghost was = after@;
        after = override_vessels(&after, choice);
        assert forall|k: int| 0 <= k < after@.len() implies same_vessel(#[trigger] after@[k], vessels@[k])
            && after@[k].stance == vessels@[k].stance && after@[k].crew@ == crew_after(vessels@[k].crew@, overrides@.take(i + 1)) by {
            assert(was[k].crew@ == crew_after(vessels@[k].crew@, overrides@.take(i as int)));
        }
        let ghost seen_was = strs(seen@);
        seen.push(choice.capability.clone());
        assert(strs(seen@) =~= seen_was.push(choice.capability@));
        assert(strs(seen@) =~= chosen_capabilities(overrides@.take(i + 1)));
        i = i + 1;
    }
    assert(overrides@.take(overrides@.len() as int) =~= overrides@);
    proof {
        lemma_first_some(list, list.len() as int);
    }
    Ok(after)
}

/// Overriding changes no capability: it only says who serves it.
pub proof fn law_overrides_keep_capabilities(
    after: Seq<WorkflowVessel>,
    before: Seq<WorkflowVessel>,
    choices: Seq<AgentOverride>,
)
    requires
        vessels_after(after, before, choices),
    ensures
        capabilities(after) == capabilities(before),
{
    lemma_vessels_keep_capabilities(after, before, choices);
}

/// A choice that took effect is what an agent of that capability runs with.
pub proof fn law_choices_take_effect(
    after: Seq<WorkflowVessel>,
    before: Seq<WorkflowVessel>,
    choices: Seq<AgentOverride>,
    vessel: int,
    member: int,
    choice: int,
)
    requires
        vessels_after(after, before, choices),
        first_some(override_problems(choices, capabilities(before))) is None,
        0 <= vessel < before.len(),
        0 <= member < before[vessel].crew@.len(),
        0 <= choice < choices.len(),
        before[vessel].crew@[member] matches CrewSource::Agent { selector } && selector.capability@
            == choices[choice].capability@,
    ensures
        after[vessel].crew@[member] matches CrewSource::Agent { selector } && selector.adapter == Some(
            choices[choice].adapter,
        ) && selector.model == choices[choice].model,
{
    assert(after[vessel].crew@ == crew_after(before[vessel].crew@, choices));
    lemma_no_problem(choices, capabilities(before));
    lemma_choice_lasts(before[vessel].crew@, choices, member, choice);
}

/// No choice brings in an adapter or a model that is not a plain token.
pub proof fn law_choices_are_tokens(choices: Seq<AgentOverride>, before: Seq<WorkflowVessel>, i: int)
    requires
        first_some(override_problems(choices, capabilities(before))) is None,
        0 <= i < choices.len(),
    ensures
        is_token(choices[i].adapter@),
        choices[i].model matches Some(model) ==> is_token(model@),
{
    let problems = override_problems(choices, capabilities(before));
    lemma_all_none(problems);
    assert(problems[i] is None);
}

proof fn lemma_no_problem(choices: Seq<AgentOverride>, asked: Seq<Seq<char>>)
    requires
        first_some(override_problems(choices, asked)) is None,
    ensures
        forall|i: int, j: int|
            0 <= i < j < choices.len() ==> (#[trigger] choices[i]).capability@ != (#[trigger] choices[j]).capability@,
{
    let list = override_problems(choices, asked);
    lemma_all_none(list);
    assert forall|i: int, j: int| 0 <= i < j < choices.len() implies (#[trigger] choices[i]).capability@ != (
    #[trigger] choices[j]).capability@ by {
        assert(list[j] is None);
        assert(!holds(chosen_capabilities(choices.take(j)), choices[j].capability@));
        assert(chosen_capabilities(choices.take(j))[i] == choices[i].capability@);
    }
}

proof fn lemma_all_none(list: Seq<Option<Seq<char>>>)
    requires
        first_some(list) is None,
    ensures
        forall|i: int| 0 <= i < list.len() ==> #[trigger] list[i] is None,
    decreases list.len(),
{
    if list.len() > 0 {
        lemma_all_none(list.drop_first());
        assert forall|i: int| 0 <= i < list.len() implies #[trigger] list[i] is None by {
            if i > 0 {
                assert(list.drop_first()[i - 1] == list[i]);
            }
        }
    }
}

proof fn lemma_choice_lasts(crew: Seq<CrewSource>, choices: Seq<AgentOverride>, member: int, choice: int)
    requires
        0 <= member < crew.len(),
        0 <= choice < choices.len(),
        crew[member] matches CrewSource::Agent { selector } && selector.capability@ == choices[choice].capability@,
        forall|i: int, j: int|
            0 <= i < j < choices.len() ==> (#[trigger] choices[i]).capability@ != (#[trigger] choices[j]).capability@,
    ensures
        crew_after(crew, choices).len() == crew.len(),
        crew_after(crew, choices)[member] matches CrewSource::Agent { selector } && selector.adapter == Some(
            choices[choice].adapter,
        ) && selector.model == choices[choice].model,
    decreases choices.len(),
{
    let front = choices.drop_last();
    lemma_member_keeps(crew, front, member);
    if choice < front.len() {
        assert forall|i: int, j: int| 0 <= i < j < front.len() implies (#[trigger] front[i]).capability@ != (
        #[trigger] front[j]).capability@ by {
            assert(front[i] == choices[i] && front[j] == choices[j]);
        }
        lemma_choice_lasts(crew, front, member, choice);
        assert(choices[choice].capability@ != choices[choices.len() - 1].capability@);
    }
}

proof fn lemma_member_keeps(crew: Seq<CrewSource>, choices: Seq<AgentOverride>, member: int)
    requires
        0 <= member < crew.len(),
        crew[member] is Agent,
    ensures
        crew_after(crew, choices).len() == crew.len(),
        crew_after(crew, choices)[member] matches CrewSource::Agent { selector } && selector.capability
            == crew[member]->Agent_selector.capability,
    decreases choices.len(),
{
    if choices.len() > 0 {
        lemma_member_keeps(crew, choices.drop_last(), member);
    }
}

/// A grant that a vessel's selector matched.
#[derive(Debug, PartialEq, Eq)]
pub struct CredentialGrant {
    /// The repositories it is limited to; none where it is not.
    pub repositories: Vec<String>,
    pub credentials: Vec<String>,
}

/// The credentials that grants hold.
pub open spec fn granted(grants: Seq<CredentialGrant>) -> Seq<Seq<char>>
    decreases grants.len(),
{
    if grants.len() == 0 {
        Seq::empty()
    } else {
        granted(grants.drop_last()) + strs(grants.last().credentials@)
    }
}

/// Whether some grant of the credential covers the repository.
pub open spec fn covers(grants: Seq<CredentialGrant>, credential: Seq<char>, repository: Seq<char>) -> bool {
    exists|i: int|
        0 <= i < grants.len() && holds(strs((#[trigger] grants[i]).credentials@), credential) && (
        grants[i].repositories@.len() == 0 || holds(strs(grants[i].repositories@), repository))
}

/// The repositories of a vessel that a credential is for.
pub open spec fn scope(grants: Seq<CredentialGrant>, credential: Seq<char>, repositories: Seq<Seq<char>>) -> Seq<Seq<char>>
    decreases repositories.len(),
{
    if repositories.len() == 0 {
        Seq::empty()
    } else {
        let before = scope(grants, credential, repositories.drop_last());
        if covers(grants, credential, repositories.last()) {
            before.push(repositories.last())
        } else {
            before
        }
    }
}

/// A credential and the repositories it is for.
#[derive(Debug, PartialEq, Eq)]
pub struct CredentialScope {
    pub credential: String,
    pub repositories: Vec<String>,
}

/// What a vessel is granted.
#[derive(Debug, PartialEq, Eq)]
pub struct VesselCredentials {
    pub credential_refs: Vec<String>,
    pub credential_scopes: Vec<CredentialScope>,
}

/// The repositories a vessel works on.
pub open spec fn vessel_repos(own: Option<Seq<Seq<char>>>, all: Seq<Seq<char>>) -> Seq<Seq<char>> {
    match own {
        Some(own) => sorted_unique(own),
        None => sorted_unique(all),
    }
}

pub fn vessel_repositories(own: &Option<Vec<String>>, all: &Vec<String>) -> (r: Vec<String>)
    ensures
        strs(r@) == vessel_repos(named_repos(*own), strs(all@)),
{
    match own {
        Some(own) => sort_dedup(own),
        None => sort_dedup(all),
    }
}

/// The first of some names that a set does not hold.
pub open spec fn first_missing(names: Seq<Seq<char>>, known: Set<Seq<char>>) -> Option<Seq<char>>
    decreases names.len(),
{
    if names.len() == 0 {
        None
    } else if !known.contains(names[0]) {
        Some(names[0])
    } else {
        first_missing(names.drop_first(), known)
    }
}

/// The first name that is not known.
pub fn missing_name(names: &Vec<String>, known: &OrderedSet) -> (r: Option<String>)
    ensures
        opt(r) == first_missing(strs(names@), known@),
{
    let mut i: usize = 0;
    assert(strs(names@).skip(0) =~= strs(names@));
    while i < names.len()
        invariant
            i <= names@.len(),
            first_missing(strs(names@), known@) == first_missing(strs(names@).skip(i as int), known@),
        decreases names.len() - i,
    {
        assert(strs(names@).skip(i as int)[0] == names@[i as int]@);
        assert(strs(names@).skip(i as int).drop_first() =~= strs(names@).skip(i + 1));
        if !known.contains(names[i].as_str()) {
            return Some(names[i].clone());
        }
        i = i + 1;
    }
    None
}

/// `v` is what the grants give a vessel that works on the repositories.
pub open spec fn credentials_of(v: VesselCredentials, grants: Seq<CredentialGrant>, repositories: Seq<Seq<char>>) -> bool {
    let names = sorted_unique(granted(grants));
    &&& strs(v.credential_refs@) == names
    &&& v.credential_scopes@.len() == names.len()
    &&& forall|i: int|
        0 <= i < names.len() ==> (#[trigger] v.credential_scopes@[i]).credential@ == names[i] && strs(
            v.credential_scopes@[i].repositories@,
        ) == scope(grants, names[i], repositories)
}

/// The grants that match a vessel: those listed for it, else none.
pub open spec fn grants_at(grants: Seq<Vec<CredentialGrant>>, i: int) -> Seq<CredentialGrant> {
    if i < grants.len() {
        grants[i]@
    } else {
        Seq::empty()
    }
}

fn grant_covers(grants: &Vec<CredentialGrant>, credential: &str, repository: &str) -> (r: bool)
    ensures
        r == covers(grants@, credential@, repository@),
{
    let mut i: usize = 0;
    while i < grants.len()
        invariant
            i <= grants@.len(),
            forall|k: int|
                0 <= k < i ==> !(holds(strs((#[trigger] grants@[k]).credentials@), credential@) && (
                grants@[k].repositories@.len() == 0 || holds(strs(grants@[k].repositories@), repository@))),
        decreases grants.len() - i,
    {
        if strs_hold(&grants[i].credentials, credential) && (grants[i].repositories.len() == 0 || strs_hold(
            &grants[i].repositories,
            repository,
        )) {
            return true;
        }
        i = i + 1;
    }
    false
}

fn granted_names(grants: &Vec<CredentialGrant>) -> (r: Vec<String>)
    ensures
        strs(r@) == granted(grants@),
{
    let mut r: Vec<String> = Vec::new();
    let mut i: usize = 0;
    assert(strs(r@) =~= granted(grants@.take(0)));
    while i < grants.len()
        invariant
            i <= grants@.len(),
            strs(r@) == granted(grants@.take(i as int)),
        decreases grants.len() - i,
    {
        assert(grants@.take(i + 1).drop_last() =~= grants@.take(i as int));
        assert(grants@.take(i + 1).last() == grants@[i as int]);
        let names = &grants[i].credentials;
        let mut k: usize = 0;
        assert(granted(grants@.take(i as int)) + strs(names@).take(0) =~= granted(grants@.take(i as int)));
        while k < names.len()
            invariant
                k <= names@.len(),
                strs(r@) == granted(grants@.take(i as int)) + strs(names@).take(k as int),
            decreases names.len() - k,
        {
            let ghost was = strs(r@);
            r.push(names[k].clone());
            assert(strs(r@) =~= was.push(names@[k as int]@));
            assert(strs(r@) =~= granted(grants@.take(i as int)) + strs(names@).take(k + 1));
            k = k + 1;
        }
        assert(strs(names@).take(names@.len() as int) =~= strs(names@));
        i = i + 1;
    }
    assert(grants@.take(grants@.len() as int) =~= grants@);
    r
}

fn credential_scope(grants: &Vec<CredentialGrant>, credential: &str, repositories: &Vec<String>) -> (r: Vec<String>)
    ensures
        strs(r@) == scope(grants@, credential@, strs(repositories@)),
{
    let mut r: Vec<String> = Vec::new();
    let mut i: usize = 0;
    let ghost all = strs(repositories@);
    assert(strs(r@) =~= scope(grants@, credential@, all.take(0)));
    while i < repositories.len()
        invariant
            i <= repositories@.len(),
            all == strs(repositories@),
            strs(r@) == scope(grants@, credential@, all.take(i as int)),
        decreases repositories.len() - i,
    {
        assert(all.take(i + 1).drop_last() =~= all.take(i as int));
        assert(all.take(i + 1).last() == repositories@[i as int]@);
        if grant_covers(grants, credential, repositories[i].as_str()) {
            let ghost was = strs(r@);
            r.push(repositories[i].clone());
            assert(strs(r@) =~= was.push(repositories@[i as int]@));
        }
        i = i + 1;
    }
    assert(all.take(all.len() as int) =~= all);
    r
}

/// What keeps the grants of a vessel from being resolved.
pub open spec fn grant_problem(grants: Seq<CredentialGrant>, specs: Set<Seq<char>>) -> Option<Seq<char>> {
    match first_missing(sorted_unique(granted(grants)), specs) {
        Some(missing) => Some("credential grant references missing credential `"@ + missing + "`"@),
        None => None,
    }
}

pub open spec fn grant_problems(n: nat, grants: Seq<Vec<CredentialGrant>>, specs: Set<Seq<char>>) -> Seq<Option<Seq<char>>> {
    Seq::new(n, |i: int| grant_problem(grants_at(grants, i), specs))
}

/// `credentials` is what each vessel is granted.
pub open spec fn all_granted(
    credentials: Seq<VesselCredentials>,
    vessels: Seq<WorkflowVessel>,
    grants: Seq<Vec<CredentialGrant>>,
    repositories: Seq<Seq<char>>,
) -> bool {
    &&& credentials.len() == vessels.len()
    &&& forall|i: int|
        0 <= i < credentials.len() ==> credentials_of(
            #[trigger] credentials[i],
            grants_at(grants, i),
            vessel_repos(named_repos(vessels[i].repository_refs), repositories),
        )
}

fn vessel_credentials(grants: &Vec<CredentialGrant>, repos: &Vec<String>, specs: &OrderedSet) -> (r: Result<
    VesselCredentials,
    String,
>)
    ensures
        match r {
            Ok(v) => grant_problem(grants@, specs@) is None && credentials_of(v, grants@, strs(repos@)),
            Err(e) => grant_problem(grants@, specs@) == Some(e@),
        },
{
    let all = granted_names(grants);
    let names = sort_dedup(&all);
    match missing_name(&names, specs) {
        Some(missing) => {
            return Err(concat3("credential grant references missing credential `", missing.as_str(), "`"));
        },
        None => {},
    }
    let mut scopes: Vec<CredentialScope> = Vec::new();
    let mut k: usize = 0;
    while k < names.len()
        invariant
            k <= names@.len(),
            scopes@.len() == k,
            forall|j: int|
                0 <= j < k ==> (#[trigger] scopes@[j]).credential@ == strs(names@)[j] && strs(scopes@[j].repositories@)
                    == scope(grants@, strs(names@)[j], strs(repos@)),
        decreases names.len() - k,
    {
        scopes.push(
            CredentialScope {
                credential: names[k].clone(),
                repositories: credential_scope(grants, names[k].as_str(), repos),
            },
        );
        k = k + 1;
    }
    assert(strs(names@).len() == names@.len());
    Ok(VesselCredentials { credential_refs: names, credential_scopes: scopes })
}

/// What each vessel of a workflow is granted, or the first granted credential
/// that does not exist. `grants` lists those that match each vessel.
pub fn resolve_workflow_credentials(
    vessels: &Vec<WorkflowVessel>,
    grants: &Vec<Vec<CredentialGrant>>,
    repositories: &Vec<String>,
    specs: &OrderedSet,
) -> (r: Result<Vec<VesselCredentials>, String>)
    ensures
        match r {
            Ok(v) => first_some(grant_problems(vessels@.len(), grants@, specs@)) is None && all_granted(
                v@,
                vessels@,
                grants@,
                strs(repositories@),
            ),
            Err(e) => first_some(grant_problems(vessels@.len(), grants@, specs@)) == Some(e@),
        },
{
    let ghost list = grant_problems(vessels@.len(), grants@, specs@);
    let none: Vec<CredentialGrant> = Vec::new();
    assert(none@ =~= Seq::<CredentialGrant>::empty());
    let mut r: Vec<VesselCredentials> = Vec::new();
    let mut i: usize = 0;
    while i < vessels.len()
        invariant
            i <= vessels@.len(),
            none@ == Seq::<CredentialGrant>::empty(),
            list == grant_problems(vessels@.len(), grants@, specs@),
            r@.len() == i,
            forall|k: int| 0 <= k < i ==> #[trigger] list[k] is None,
            forall|k: int|
                0 <= k < i ==> credentials_of(
                    #[trigger] r@[k],
                    grants_at(grants@, k),
                    vessel_repos(named_repos(vessels@[k].repository_refs), strs(repositories@)),
                ),
        decreases vessels.len() - i,
    {
        let matching = if i < grants.len() {
            &grants[i]
        } else {
            &none
        };
        assert(matching@ == grants_at(grants@, i as int));
        assert(list[i as int] == grant_problem(matching@, specs@));
        let repos = vessel_repositories(&vessels[i].repository_refs, repositories);
        match vessel_credentials(matching, &repos, specs) {
            Err(e) => {
                proof {
                    lemma_first_some(list, i as int);
                }
                return Err(e);
            },
            Ok(v) => {
                r.push(v);
            },
        }
        i = i + 1;
    }
    proof {
        lemma_first_some(list, list.len() as int);
    }
    Ok(r)
}

/// A workflow as it is dispatched, with what each of its vessels is granted.
#[derive(Debug, PartialEq, Eq)]
pub struct EffectiveWorkflow {
    pub vessels: Vec<WorkflowVessel>,
    pub credentials: Vec<VesselCredentials>,
}

/// Whether some vessel has a stance.
pub open spec fn any_stance(vessels: Seq<WorkflowVessel>, stance: Seq<char>) -> bool {
    exists|i: int| 0 <= i < vessels.len() && (#[trigger] vessels[i]).stance@ == stance
}

pub fn has_stance(vessels: &Vec<WorkflowVessel>, stance: &str) -> (r: bool)
    ensures
        r == any_stance(vessels@, stance@),
{
    let mut i: usize = 0;
    while i < vessels.len()
        invariant
            i <= vessels@.len(),
            forall|k: int| 0 <= k < i ==> (#[trigger] vessels@[k]).stance@ != stance@,
        decreases vessels.len() - i,
    {
        if str_eq(vessels[i].stance.as_str(), stance) {
            return true;
        }
        i = i + 1;
    }
    false
}

/// The selectors of a crew's agents, in turn.
pub open spec fn crew_selectors(crew: Seq<CrewSource>) -> Seq<AgentSelector>
    decreases crew.len(),
{
    if crew.len() == 0 {
        Seq::empty()
    } else {
        let before = crew_selectors(crew.drop_last());
        match crew.last() {
            CrewSource::Agent { selector } => before.push(selector),
            CrewSource::Tool => before,
        }
    }
}

/// The selectors of all agents of a workflow, vessel by vessel.
pub open spec fn workflow_selectors(vessels: Seq<WorkflowVessel>) -> Seq<AgentSelector>
    decreases vessels.len(),
{
    if vessels.len() == 0 {
        Seq::empty()
    } else {
        workflow_selectors(vessels.drop_last()) + crew_selectors(vessels.last().crew@)
    }
}

/// The selectors of all agents of a workflow.
pub fn agent_selectors(vessels: &Vec<WorkflowVessel>) -> (r: Vec<AgentSelector>)
    ensures
        r@ == workflow_selectors(vessels@),
{
    let mut r: Vec<AgentSelector> = Vec::new();
    let mut i: usize = 0;
    assert(r@ =~= workflow_selectors(vessels@.take(0)));
    while i < vessels.len()
        invariant
            i <= vessels@.len(),
            r@ == workflow_selectors(vessels@.take(i as int)),
        decreases vessels.len() - i,
    {
        assert(vessels@.take(i + 1).drop_last() =~= vessels@.take(i as int));
        assert(vessels@.take(i + 1).last() == vessels@[i as int]);
        let crew = &vessels[i].crew;
        let ghost before = r@;
        let mut k: usize = 0;
        assert(before + crew_selectors(crew@.take(0)) =~= before);
        while k < crew.len()
            invariant
                k <= crew@.len(),
                r@ == before + crew_selectors(crew@.take(k as int)),
            decreases crew.len() - k,
        {
            assert(crew@.take(k + 1).drop_last() =~= crew@.take(k as int));
            assert(crew@.take(k + 1).last() == crew@[k as int]);
            match &crew[k] {
                CrewSource::Agent { selector } => {
                    let ghost was = r@;
                    r.push(selector.copy());
                    assert(r@ =~= was.push(*selector));
                    assert(r@ =~= before + crew_selectors(crew@.take(k + 1)));
                },
                CrewSource::Tool => {},
            }
            k = k + 1;
        }
        assert(crew@.take(crew@.len() as int) =~= crew@);
        i = i + 1;
    }
    assert(vessels@.take(vessels@.len() as int) =~= vessels@);
    r
}

/// What one agent turns out to need.
#[derive(Debug, PartialEq, Eq)]
pub struct AgentRequirement {
    pub adapter: String,
    /// Where a credential for it is delivered, where it takes one.
    pub delivery_slot: Option<String>,
    /// The login it would find on its host, where it can use one.
    pub ambient_scope: Option<String>,
}

/// A vessel's agents, with what they need, and the credentials it holds.
pub struct VesselNeeds {
    pub name: String,
    pub stance: String,
    pub contained: bool,
    pub agents: Vec<Result<AgentRequirement, String>>,
    pub credential_refs: Vec<String>,
}

/// Whether one of the named credentials goes where the slot says. `specs`
/// says where each credential goes.
pub open spec fn slot_filled(refs: Seq<Seq<char>>, specs: Map<Seq<char>, String>, slot: Seq<char>) -> bool {
    exists|i: int| 0 <= i < refs.len() && specs.dom().contains(#[trigger] refs[i]) && specs[refs[i]]@ == slot
}

fn fills_slot(refs: &Vec<String>, specs: &OrderedMap<String>, slot: &str) -> (r: bool)
    ensures
        r == slot_filled(strs(refs@), specs@, slot@),
{
    let mut i: usize = 0;
    while i < refs.len()
        invariant
            i <= refs@.len(),
            forall|k: int|
                0 <= k < i ==> !(specs@.dom().contains(#[trigger] strs(refs@)[k]) && specs@[strs(refs@)[k]]@ == slot@),
        decreases refs.len() - i,
    {
        assert(strs(refs@)[i as int] == refs@[i as int]@);
        match specs.get(refs[i].as_str()) {
            Some(found) => {
                if str_eq(found.as_str(), slot) {
                    return true;
                }
            },
            None => {},
        }
        i = i + 1;
    }
    false
}

/// The credentials that go where the slot says, in order.
pub open spec fn compatible(names: Seq<Seq<char>>, specs: Map<Seq<char>, String>, slot: Seq<char>) -> Seq<Seq<char>>
    decreases names.len(),
{
    if names.len() == 0 {
        Seq::empty()
    } else {
        let before = compatible(names.drop_last(), specs, slot);
        if specs[names.last()]@ == slot {
            before.push(names.last())
        } else {
            before
        }
    }
}

fn compatible_names(specs: &OrderedMap<String>, slot: &str) -> (r: Vec<String>)
    ensures
        strs(r@) == compatible(specs.keys(), specs@, slot@),
{
    let mut r: Vec<String> = Vec::new();
    let mut i: usize = 0;
    let n: usize = specs.len();
    let ghost keys = specs.keys();
    assert(strs(r@) =~= compatible(keys.take(0), specs@, slot@));
    while i < n
        invariant
            i <= n,
            n == specs.keys().len(),
            keys == specs.keys(),
            strs(r@) == compatible(keys.take(i as int), specs@, slot@),
        decreases n - i,
    {
        assert(keys.take(i + 1).drop_last() =~= keys.take(i as int));
        assert(keys.take(i + 1).last() == keys[i as int]);
        let key = specs.key(i);
        if str_eq(specs.value(i).as_str(), slot) {
            let ghost was = strs(r@);
            r.push(key.clone());
            assert(strs(r@) =~= was.push(key@));
        }
        i = i + 1;
    }
    assert(keys.take(keys.len() as int) =~= keys);
    r
}

/// How the credentials that would do are named.
pub open spec fn wanted_credential(names: Seq<Seq<char>>, slot: Seq<char>) -> Seq<char> {
    if names.len() == 1 {
        "credential `"@ + names[0] + "`"@
    } else if names.len() == 0 {
        "a `"@ + slot + "` credential"@
    } else {
        "one of credentials `"@ + join(names, "`, `"@) + "`"@
    }
}

/// What one agent lacks.
pub open spec fn agent_problem(
    vessel: VesselNeeds,
    agent: Result<AgentRequirement, String>,
    keys: Seq<Seq<char>>,
    specs: Map<Seq<char>, String>,
) -> Option<Seq<char>> {
    match agent {
        Err(e) => Some(e@),
        Ok(requirement) => match requirement.delivery_slot {
            None => None,
            Some(slot) => if slot_filled(strs(vessel.credential_refs@), specs, slot@) {
                None
            } else {
                Some(
                    vessel.stance@ + " agent adapter `"@ + requirement.adapter@ + "` requires "@ + wanted_credential(
                        compatible(keys, specs, slot@),
                        slot@,
                    ) + ", but no matching CredentialGrant selected it"@,
                )
            },
        },
    }
}

pub open spec fn agent_problems(vessel: VesselNeeds, keys: Seq<Seq<char>>, specs: Map<Seq<char>, String>) -> Seq<
    Option<Seq<char>>,
> {
    Seq::new(vessel.agents@.len(), |i: int| agent_problem(vessel, vessel.agents@[i], keys, specs))
}

/// What the vessels' agents lack.
pub open spec fn vessel_problems(vessels: Seq<VesselNeeds>, keys: Seq<Seq<char>>, specs: Map<Seq<char>, String>) -> Seq<
    Option<Seq<char>>,
> {
    Seq::new(vessels.len(), |i: int| first_some(agent_problems(vessels[i], keys, specs)))
}

fn agent_lacks(vessel: &VesselNeeds, specs: &OrderedMap<String>) -> (r: Option<String>)
    ensures
        opt(r) == first_some(agent_problems(*vessel, specs.keys(), specs@)),
{
    let ghost list = agent_problems(*vessel, specs.keys(), specs@);
    let mut i: usize = 0;
    while i < vessel.agents.len()
        invariant
            i <= vessel.agents@.len(),
            list == agent_problems(*vessel, specs.keys(), specs@),
            forall|k: int| 0 <= k < i ==> #[trigger] list[k] is None,
        decreases vessel.agents.len() - i,
    {
        assert(list[i as int] == agent_problem(*vessel, vessel.agents@[i as int], specs.keys(), specs@));
        match &vessel.agents[i] {
            Err(e) => {
                proof {
                    lemma_first_some(list, i as int);
                }
                return Some(e.clone());
            },
            Ok(requirement) => match &requirement.delivery_slot {
                None => {},
                Some(slot) => {
                    if !fills_slot(&vessel.credential_refs, specs, slot.as_str()) {
                        proof {
                            lemma_first_some(list, i as int);
                        }
                        let names = compatible_names(specs, slot.as_str());
                        assert(strs(names@).len() == names@.len());
                        let wanted = if names.len() == 1 {
                            assert(strs(names@)[0] == names@[0]@);
                            concat3("credential `", names[0].as_str(), "`")
                        } else if names.len() == 0 {
                            concat3("a `", slot.as_str(), "` credential")
                        } else {
                            let joined = join_strs(&names, "`, `");
                            concat3("one of credentials `", joined.as_str(), "`")
                        };
                        return Some(
                            crate::text::concat6(
                                vessel.stance.as_str(),
                                " agent adapter `",
                                requirement.adapter.as_str(),
                                "` requires ",
                                wanted.as_str(),
                                ", but no matching CredentialGrant selected it",
                            ),
                        );
                    }
                },
            },
        }
        i = i + 1;
    }
    proof {
        lemma_first_some(list, list.len() as int);
    }
    None
}

/// The first thing that the agents of a workflow lack.
pub fn missing_agent_credential(vessels: &Vec<VesselNeeds>, specs: &OrderedMap<String>) -> (r: Option<String>)
    ensures
        opt(r) == first_some(vessel_problems(vessels@, specs.keys(), specs@)),
{
    let ghost list = vessel_problems(vessels@, specs.keys(), specs@);
    let mut i: usize = 0;
    while i < vessels.len()
        invariant
            i <= vessels@.len(),
            list == vessel_problems(vessels@, specs.keys(), specs@),
            forall|k: int| 0 <= k < i ==> #[trigger] list[k] is None,
        decreases vessels.len() - i,
    {
        assert(list[i as int] == first_some(agent_problems(vessels@[i as int], specs.keys(), specs@)));
        match agent_lacks(&vessels[i], specs) {
            Some(problem) => {
                proof {
                    lemma_first_some(list, i as int);
                }
                return Some(problem);
            },
            None => {},
        }
        i = i + 1;
    }
    proof {
        lemma_first_some(list, list.len() as int);
    }
    None
}

/// The host login that one of a vessel's first `n` agents falls back on.
pub open spec fn ambient_login(vessel: VesselNeeds, specs: Map<Seq<char>, String>, n: int) -> Result<
    Option<Seq<char>>,
    Seq<char>,
>
    decreases n,
{
    if n <= 0 {
        Ok(None)
    } else {
        match ambient_login(vessel, specs, n - 1) {
            Err(e) => Err(e),
            Ok(Some(scope)) => Ok(Some(scope)),
            Ok(None) => match vessel.agents@[n - 1] {
                Err(e) => Err(e@),
                Ok(requirement) => match requirement.ambient_scope {
                    None => Ok(None),
                    Some(scope) => if requirement.delivery_slot is Some && slot_filled(
                        strs(vessel.credential_refs@),
                        specs,
                        requirement.delivery_slot->0@,
                    ) {
                        Ok(None)
                    } else {
                        Ok(Some(scope@))
                    },
                },
            },
        }
    }
}

/// The vessels outside containment that fall back on a host login, with it.
pub open spec fn ambient_vessels(vessels: Seq<VesselNeeds>, specs: Map<Seq<char>, String>) -> Result<
    Seq<(Seq<char>, Seq<char>)>,
    Seq<char>,
>
    decreases vessels.len(),
{
    if vessels.len() == 0 {
        Ok(Seq::empty())
    } else {
        match ambient_vessels(vessels.drop_last(), specs) {
            Err(e) => Err(e),
            Ok(before) => {
                let vessel = vessels.last();
                if vessel.contained {
                    Ok(before)
                } else {
                    match ambient_login(vessel, specs, vessel.agents@.len() as int) {
                        Err(e) => Err(e),
                        Ok(None) => Ok(before),
                        Ok(Some(scope)) => Ok(before.push((vessel.name@, scope))),
                    }
                }
            },
        }
    }
}

/// A vessel that falls back on a login found on its host.
#[derive(Debug, PartialEq, Eq)]
pub struct AmbientVessel {
    pub vessel: String,
    pub scope: String,
}

/// The names and logins of such vessels.
pub open spec fn ambient_pairs(v: Seq<AmbientVessel>) -> Seq<(Seq<char>, Seq<char>)> {
    Seq::new(v.len(), |i: int| (v[i].vessel@, v[i].scope@))
}

proof fn lemma_ambient_login_settles(vessel: VesselNeeds, specs: Map<Seq<char>, String>, n: int, m: int)
    requires
        0 <= n <= m,
        ambient_login(vessel, specs, n) != Ok::<Option<Seq<char>>, Seq<char>>(None),
    ensures
        ambient_login(vessel, specs, m) == ambient_login(vessel, specs, n),
    decreases m - n,
{
    if n < m {
        lemma_ambient_login_settles(vessel, specs, n + 1, m);
    }
}

fn ambient_of(vessel: &VesselNeeds, specs: &OrderedMap<String>) -> (r: Result<Option<String>, String>)
    ensures
        match r {
            Ok(scope) => ambient_login(*vessel, specs@, vessel.agents@.len() as int) == Ok::<
                Option<Seq<char>>,
                Seq<char>,
            >(opt(scope)),
            Err(e) => ambient_login(*vessel, specs@, vessel.agents@.len() as int) == Err::<
                Option<Seq<char>>,
                Seq<char>,
            >(e@),
        },
{
    let mut i: usize = 0;
    let n: usize = vessel.agents.len();
    while i < n
        invariant
            i <= n == vessel.agents@.len(),
            ambient_login(*vessel, specs@, i as int) == Ok::<Option<Seq<char>>, Seq<char>>(None),
        decreases n - i,
    {
        match &vessel.agents[i] {
            Err(e) => {
                proof {
                    lemma_ambient_login_settles(*vessel, specs@, i + 1, n as int);
                }
                return Err(e.clone());
            },
            Ok(requirement) => match &requirement.ambient_scope {
                None => {},
                Some(scope) => {
                    let delivered = match &requirement.delivery_slot {
                        Some(slot) => fills_slot(&vessel.credential_refs, specs, slot.as_str()),
                        None => false,
                    };
                    if !delivered {
                        proof {
                            lemma_ambient_login_settles(*vessel, specs@, i + 1, n as int);
                        }
                        return Ok(Some(scope.clone()));
                    }
                },
            },
        }
        i = i + 1;
    }
    Ok(None)
}

proof fn lemma_ambient_fails_early(vessels: Seq<VesselNeeds>, specs: Map<Seq<char>, String>, n: int)
    requires
        0 <= n <= vessels.len(),
        ambient_vessels(vessels.take(n), specs) is Err,
    ensures
        ambient_vessels(vessels, specs) == ambient_vessels(vessels.take(n), specs),
    decreases vessels.len() - n,
{
    if n < vessels.len() {
        assert(vessels.take(n + 1).drop_last() =~= vessels.take(n));
        lemma_ambient_fails_early(vessels, specs, n + 1);
    } else {
        assert(vessels.take(n) =~= vessels);
    }
}

/// The vessels that authenticate through a login found on their host rather
/// than through delivered material, and the scope of that login.
pub fn ambient_credential_dependent_vessels(vessels: &Vec<VesselNeeds>, specs: &OrderedMap<String>) -> (r: Result<
    Vec<AmbientVessel>,
    String,
>)
    ensures
        match r {
            Ok(v) => ambient_vessels(vessels@, specs@) == Ok::<Seq<(Seq<char>, Seq<char>)>, Seq<char>>(
                ambient_pairs(v@),
            ),
            Err(e) => ambient_vessels(vessels@, specs@) == Err::<Seq<(Seq<char>, Seq<char>)>, Seq<char>>(e@),
        },
{
    let mut r: Vec<AmbientVessel> = Vec::new();
    let mut i: usize = 0;
    assert(ambient_pairs(r@) =~= Seq::empty());
    while i < vessels.len()
        invariant
            i <= vessels@.len(),
            ambient_vessels(vessels@.take(i as int), specs@) == Ok::<Seq<(Seq<char>, Seq<char>)>, Seq<char>>(
                ambient_pairs(r@),
            ),
        decreases vessels.len() - i,
    {
        let vessel = &vessels[i];
        assert(vessels@.take(i + 1).drop_last() =~= vessels@.take(i as int));
        assert(vessels@.take(i + 1).last() == *vessel);
        if !vessel.contained {
            match ambient_of(vessel, specs) {
                Err(e) => {
                    proof {
                        lemma_ambient_fails_early(vessels@, specs@, i + 1);
                    }
                    return Err(e);
                },
                Ok(None) => {},
                Ok(Some(scope)) => {
                    let ghost was = ambient_pairs(r@);
                    r.push(AmbientVessel { vessel: vessel.name.clone(), scope });
                    assert(ambient_pairs(r@) =~= was.push((vessel.name@, scope@)));
                },
            }
        }
        i = i + 1;
    }
    assert(vessels@.take(vessels@.len() as int) =~= vessels@);
    Ok(r)
}

/// The credentials that the vessels hold.
pub open spec fn held_refs(vessels: Seq<VesselNeeds>) -> Seq<Seq<char>>
    decreases vessels.len(),
{
    if vessels.len() == 0 {
        Seq::empty()
    } else {
        held_refs(vessels.drop_last()) + strs(vessels.last().credential_refs@)
    }
}

/// The credentials that a workflow needs on its host, in order.
pub fn required_credentials(vessels: &Vec<VesselNeeds>) -> (r: Vec<String>)
    ensures
        strs(r@) == sorted_unique(held_refs(vessels@)),
{
    let mut all: Vec<String> = Vec::new();
    let mut i: usize = 0;
    assert(strs(all@) =~= held_refs(vessels@.take(0)));
    while i < vessels.len()
        invariant
            i <= vessels@.len(),
            strs(all@) == held_refs(vessels@.take(i as int)),
        decreases vessels.len() - i,
    {
        assert(vessels@.take(i + 1).drop_last() =~= vessels@.take(i as int));
        assert(vessels@.take(i + 1).last() == vessels@[i as int]);
        let names = &vessels[i].credential_refs;
        let mut k: usize = 0;
        assert(held_refs(vessels@.take(i as int)) + strs(names@).take(0) =~= held_refs(vessels@.take(i as int)));
        while k < names.len()
            invariant
                k <= names@.len(),
                strs(all@) == held_refs(vessels@.take(i as int)) + strs(names@).take(k as int),
            decreases names.len() - k,
        {
            let ghost was = strs(all@);
            all.push(names[k].clone());
            assert(strs(all@) =~= was.push(names@[k as int]@));
            assert(strs(all@) =~= held_refs(vessels@.take(i as int)) + strs(names@).take(k + 1));
            k = k + 1;
        }
        assert(strs(names@).take(names@.len() as int) =~= strs(names@));
        i = i + 1;
    }
    assert(vessels@.take(vessels@.len() as int) =~= vessels@);
    sort_dedup(&all)
}

} // verus!
