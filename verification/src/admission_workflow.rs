//! The workflow that a convoy is let in with: a stance that is asked for and
//! the choices made at dispatch are written into it, forks keep their review, and its vessels get credentials.
use vstd::prelude::*;

use crate::ordered::OrderedSet;
use crate::text::{concat2, concat4, first_some, opt, strs};
use crate::workflow::{
    agent_count, all_granted, apply_agent_overrides, capabilities, crew_after, crew_overridden, fork_problems, grant_problems,
    has_review, overridden, override_problems, resolve_workflow_credentials, reviewed_in_crew, reviews, same_vessel, stance_of,
    take_stance, validate_fork_workflow_admission, vessels_admitted, vessels_after, vessels_stanced, workflow_has_in_crew_review,
    AgentOverride, CredentialGrant, CrewSource, EffectiveWorkflow, ForkReading, WorkflowVessel,
};

verus! {

/// What is known of the grants of a namespace.
#[derive(Debug)]
pub enum GrantReading {
    GrantsUnlisted { error: String },
    CredentialsUnlisted { error: String },
    /// The grants that select each vessel, and the credentials there are.
    Listed { grants: Vec<Vec<CredentialGrant>>, specs: OrderedSet },
}

/// What is known so far of a workflow.
#[derive(Default, Debug)]
pub struct WorkflowReadings {
    pub template: Option<Result<Vec<WorkflowVessel>, String>>,
    pub forks: Option<Vec<ForkReading>>,
    pub grants: Option<GrantReading>,
}

/// What to find out next about a workflow, or what it comes to.
#[derive(Debug, PartialEq, Eq)]
pub enum WorkflowStep {
    AskTemplate,
    AskForks,
    /// Which grants select each of these vessels?
    AskGrants { vessels: Vec<WorkflowVessel> },
    Refuse { message: String },
    Resolved { workflow: EffectiveWorkflow },
}

/// `step` is what comes of the grants of a workflow whose vessels are settled.
pub open spec fn granting(
    step: WorkflowStep,
    vessels: Seq<WorkflowVessel>,
    repositories: Seq<Seq<char>>,
    grants: Option<GrantReading>,
) -> bool {
    let refused = |e: Seq<char>| step matches WorkflowStep::Refuse { message } && message@ == e;
    match grants {
        None => step matches WorkflowStep::AskGrants { vessels: asked } && asked@ == vessels,
        Some(GrantReading::GrantsUnlisted { error }) => refused("list credential grants: "@ + error@),
        Some(GrantReading::CredentialsUnlisted { error }) => refused("list credential specs: "@ + error@),
        Some(GrantReading::Listed { grants, specs }) => match first_some(grant_problems(vessels.len(), grants@, specs@)) {
            Some(e) => refused(e),
            None => step matches WorkflowStep::Resolved { workflow } && workflow.vessels@ == vessels && all_granted(
                workflow.credentials@,
                vessels,
                grants@,
                repositories,
            ),
        },
    }
}

/// `step` is what comes of the grants, once a stance and the choices made at
/// dispatch are written into the template.
pub open spec fn grants_decided(
    step: WorkflowStep,
    template: Seq<WorkflowVessel>,
    stance: Option<Seq<char>>,
    overrides: Seq<AgentOverride>,
    repositories: Seq<Seq<char>>,
    grants: Option<GrantReading>,
) -> bool {
    exists|vessels: Seq<WorkflowVessel>|
        #[trigger] vessels_admitted(vessels, template, stance, overrides) && granting(step, vessels, repositories, grants)
}

/// `step` is what comes next for a workflow.
pub open spec fn workflow_decided(
    step: WorkflowStep,
    workflow: Seq<char>,
    stance: Option<Seq<char>>,
    overrides: Seq<AgentOverride>,
    repositories: Seq<Seq<char>>,
    rd: WorkflowReadings,
) -> bool {
    let refused = |e: Seq<char>| step matches WorkflowStep::Refuse { message } && message@ == e;
    match rd.template {
        None => step is AskTemplate,
        Some(Err(e)) => refused("workflow template "@ + workflow + ": "@ + e@),
        Some(Ok(template)) => match first_some(override_problems(overrides, capabilities(template@))) {
            Some(e) => refused(e),
            None => if has_review(template@) {
                grants_decided(step, template@, stance, overrides, repositories, rd.grants)
            } else {
                match rd.forks {
                    None => step is AskForks,
                    Some(forks) => match first_some(fork_problems(forks@, workflow)) {
                        Some(e) => refused(e),
                        None => grants_decided(step, template@, stance, overrides, repositories, rd.grants),
                    },
                }
            },
        },
    }
}

proof fn lemma_stance_keeps_crews(after: Seq<WorkflowVessel>, before: Seq<WorkflowVessel>, given: Option<Seq<char>>)
    requires
        vessels_stanced(after, before, given),
    ensures
        capabilities(after) == capabilities(before),
        has_review(after) == has_review(before),
    decreases after.len(),
{
    if after.len() > 0 {
        assert(after.last() == after[after.len() - 1]);
        assert forall|i: int| 0 <= i < after.drop_last().len() implies same_vessel(
            #[trigger] after.drop_last()[i],
            before.drop_last()[i],
        ) && after.drop_last()[i].crew@ == before.drop_last()[i].crew@
            && after.drop_last()[i].stance@ == stance_of(before.drop_last()[i].stance@, given) by {
            assert(after.drop_last()[i] == after[i]);
        }
        lemma_stance_keeps_crews(after.drop_last(), before.drop_last(), given);
    }
    if has_review(before) {
        let i = choose|i: int| 0 <= i < before.len() && reviewed_in_crew(#[trigger] before[i]);
        assert(after[i].crew@ == before[i].crew@);
        assert(reviewed_in_crew(after[i]));
    }
    if has_review(after) {
        let i = choose|i: int| 0 <= i < after.len() && reviewed_in_crew(#[trigger] after[i]);
        assert(after[i].crew@ == before[i].crew@);
        assert(reviewed_in_crew(before[i]));
    }
}

proof fn lemma_crew_keeps_review(crew: Seq<CrewSource>, choice: AgentOverride)
    ensures
        agent_count(crew_overridden(crew, choice)) == agent_count(crew),
        crew_overridden(crew, choice).len() == crew.len(),
        forall|i: int| 0 <= i < crew.len() ==> reviews(#[trigger] crew_overridden(crew, choice)[i]) == reviews(crew[i]),
    decreases crew.len(),
{
    if crew.len() > 0 {
        lemma_crew_keeps_review(crew.drop_last(), choice);
        assert(crew_overridden(crew, choice).drop_last() =~= crew_overridden(crew.drop_last(), choice));
        assert(crew_overridden(crew, choice).last() == overridden(crew.last(), choice));
    } else {
        assert(crew_overridden(crew, choice) =~= crew);
    }
}

proof fn lemma_choices_keep_review(crew: Seq<CrewSource>, choices: Seq<AgentOverride>)
    ensures
        agent_count(crew_after(crew, choices)) == agent_count(crew),
        crew_after(crew, choices).len() == crew.len(),
        forall|i: int| 0 <= i < crew.len() ==> reviews(#[trigger] crew_after(crew, choices)[i]) == reviews(crew[i]),
    decreases choices.len(),
{
    if choices.len() > 0 {
        let rest = crew_after(crew, choices.drop_last());
        lemma_choices_keep_review(crew, choices.drop_last());
        lemma_crew_keeps_review(rest, choices.last());
        assert forall|i: int| 0 <= i < crew.len() implies reviews(#[trigger] crew_after(crew, choices)[i]) == reviews(
            crew[i],
        ) by {
            assert(reviews(crew_overridden(rest, choices.last())[i]) == reviews(rest[i]));
        }
    }
}

/// A choice of agents cannot take away the review that a fork asks for, nor
/// make up for one that is missing.
pub proof fn law_choices_keep_the_review(after: Seq<WorkflowVessel>, before: Seq<WorkflowVessel>, choices: Seq<AgentOverride>)
    requires
        vessels_after(after, before, choices),
    ensures
        has_review(after) == has_review(before),
{
    assert forall|i: int| 0 <= i < after.len() implies reviewed_in_crew(#[trigger] after[i]) == reviewed_in_crew(before[i]) by {
        let a = after[i].crew@;
        let b = before[i].crew@;
        assert(a == crew_after(b, choices));
        lemma_choices_keep_review(b, choices);
        if exists|k: int| 0 <= k < b.len() && reviews(#[trigger] b[k]) {
            let k = choose|k: int| 0 <= k < b.len() && reviews(#[trigger] b[k]);
            assert(reviews(a[k]));
        }
        if exists|k: int| 0 <= k < a.len() && reviews(#[trigger] a[k]) {
            let k = choose|k: int| 0 <= k < a.len() && reviews(#[trigger] a[k]);
            assert(reviews(b[k]));
        }
    }
    if has_review(before) {
        let i = choose|i: int| 0 <= i < before.len() && reviewed_in_crew(#[trigger] before[i]);
        assert(reviewed_in_crew(after[i]));
    }
    if has_review(after) {
        let i = choose|i: int| 0 <= i < after.len() && reviewed_in_crew(#[trigger] after[i]);
        assert(reviewed_in_crew(before[i]));
    }
}

/// Decides what comes next for the workflow that a convoy is let in with.
/// `stance` is taken by every vessel, where it is given.
pub fn resolve_convoy_admission_workflow(
    workflow_ref: &str,
    stance: &Option<String>,
    overrides: &Vec<AgentOverride>,
    repositories: &Vec<String>,
    rd: &WorkflowReadings,
) -> (step: WorkflowStep)
    ensures
        workflow_decided(step, workflow_ref@, opt(*stance), overrides@, strs(repositories@), *rd),
{
    let template = match &rd.template {
        None => {
            return WorkflowStep::AskTemplate;
        },
        Some(Err(e)) => {
            return WorkflowStep::Refuse { message: concat4("workflow template ", workflow_ref, ": ", e.as_str()) };
        },
        Some(Ok(template)) => template,
    };
    let stanced = take_stance(template, stance);
    proof {
        lemma_stance_keeps_crews(stanced@, template@, opt(*stance));
    }
    let after = match apply_agent_overrides(&stanced, overrides) {
        Err(message) => {
            return WorkflowStep::Refuse { message };
        },
        Ok(after) => after,
    };
    proof {
        law_choices_keep_the_review(after@, stanced@, overrides@);
    }
    assert(vessels_admitted(after@, template@, opt(*stance), overrides@)) by {
        assert forall|i: int| 0 <= i < after@.len() implies same_vessel(#[trigger] after@[i], template@[i])
            && after@[i].crew@ == crew_after(template@[i].crew@, overrides@) && after@[i].stance@ == stance_of(
            template@[i].stance@,
            opt(*stance),
        ) by {
            assert(same_vessel(stanced@[i], template@[i]));
        }
    }
    if !workflow_has_in_crew_review(&after) {
        match &rd.forks {
            None => {
                return WorkflowStep::AskForks;
            },
            Some(forks) => match validate_fork_workflow_admission(forks, workflow_ref, &after) {
                Err(message) => {
                    return WorkflowStep::Refuse { message };
                },
                Ok(()) => {},
            },
        }
    }
    grant_workflow(after, repositories, &rd.grants)
}

/// Decides what comes of the grants of a workflow whose vessels are settled.
pub fn grant_workflow(vessels: Vec<WorkflowVessel>, repositories: &Vec<String>, grants: &Option<GrantReading>) -> (step: WorkflowStep)
    ensures
        granting(step, vessels@, strs(repositories@), *grants),
{
    match grants {
        None => WorkflowStep::AskGrants { vessels },
        Some(GrantReading::GrantsUnlisted { error }) => WorkflowStep::Refuse {
            message: concat2("list credential grants: ", error.as_str()),
        },
        Some(GrantReading::CredentialsUnlisted { error }) => WorkflowStep::Refuse {
            message: concat2("list credential specs: ", error.as_str()),
        },
        Some(GrantReading::Listed { grants, specs }) => match resolve_workflow_credentials(&vessels, grants, repositories, specs) {
            Err(message) => WorkflowStep::Refuse { message },
            Ok(credentials) => WorkflowStep::Resolved { workflow: EffectiveWorkflow { vessels, credentials } },
        },
    }
}

} // verus!
