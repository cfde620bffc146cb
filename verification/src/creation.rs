//! Creating convoys: the steps of a direct creation, the run of a start, and
//! the wait for a crew to attach to.
use std::sync::Arc;
use vstd::prelude::*;

use crate::address::{address_text, convoy_address};
use crate::admission::{convoy_start_failure, copy_inputs, input_views, start_failure, StartingConvoy};
use crate::admission_workflow::{grant_workflow, grants_decided, GrantReading, WorkflowStep};
use crate::materialize::put;
use crate::model::{share_opt, PlacementDecision};
use crate::naming::{checked_convoy_name, validate_convoy_name};
use crate::ordered::{text_map, OrderedMap};
use crate::placement::{PlacementNeeds, PlacementPolicy, PolicyReading};
use crate::placing::{
    is_whole, law_placed_workflows_are_served, placement_decided, resolve_and_validate_convoy_placement, served, Placement, PlacementAsk,
    PlacementAskView, PlacementReadings, PlacementStep,
};
use crate::preparation::{refs_of, repo_refs};
use crate::projects::{repository_views, ConvoyRepository, RepositoryView};
use crate::text::{concat3, concat4, concat5, decimal, decimal_str, opt, opt_clone, str_eq, strs};
use crate::workflow::{crew_after, same_vessel, stance_of, take_stance, vessels_admitted, EffectiveWorkflow, WorkflowVessel};

verus! {

/// What a creation asks for.
#[derive(Debug, PartialEq, Eq)]
pub struct CreateRequest {
    pub role: String,
    pub workflow_ref: String,
    pub inputs: Vec<(String, String)>,
    /// Who dispatches it; the namespace's own principal where nobody is named.
    pub dispatching_principal: Option<String>,
    pub project_ref: Option<String>,
    pub repository_url: Option<String>,
    pub git_ref: Option<String>,
    pub placement_policy: Option<String>,
    /// Whether a checkout that is there is to be adopted.
    pub adopt: bool,
}

/// A checkout that was adopted.
#[derive(Debug, PartialEq, Eq)]
pub struct AdoptedReading {
    pub repo_ref: String,
    pub checkout_ref: String,
    pub repository_url: String,
    pub git_ref: String,
}

/// A repository that was named by its address.
#[derive(Debug, PartialEq, Eq)]
pub struct DirectReading {
    pub repo_ref: String,
    /// Its canonical address, unless it is a local one.
    pub canonical_remote: Option<String>,
    pub default_branch: Option<String>,
    pub workspace_slug: String,
}

/// What was found out so far, each where it was asked for.
#[derive(Default, Debug)]
pub struct CreateReadings {
    pub generation: Option<Result<u64, String>>,
    pub local_space: Option<Result<(), String>>,
    /// The vessels of the workflow.
    pub workflow: Option<Result<Vec<WorkflowVessel>, String>>,
    pub project_repositories: Option<Result<Vec<ConvoyRepository>, String>>,
    pub adopted: Option<Result<AdoptedReading, String>>,
    pub direct: Option<Result<DirectReading, String>>,
    pub grants: Option<GrantReading>,
    pub placement: PlacementReadings,
    pub remote_space: Option<Result<(), String>>,
    /// The generation, asked for again while nobody else can create a convoy.
    pub final_generation: Option<Result<u64, String>>,
    pub created: Option<Result<(), String>>,
}

/// A convoy as it is created.
#[derive(Debug, PartialEq, Eq)]
pub struct CreateRecord {
    pub role: String,
    pub generation: u64,
    pub workflow_ref: String,
    pub inputs: Vec<(String, String)>,
    pub dispatching_principal: Option<String>,
    pub project_ref: Option<String>,
    pub repositories: Vec<ConvoyRepository>,
    pub git_ref: Option<String>,
    /// The adopted checkout, by the repository it is of.
    pub adopted: Option<(String, String)>,
    /// The workflow as it is dispatched.
    pub workflow: EffectiveWorkflow,
    pub placement: Option<PlacementPolicy>,
    pub placement_decision: Option<Arc<PlacementDecision>>,
}

/// What has to be found out or done next.
#[derive(Debug, PartialEq, Eq)]
#[allow(inconsistent_fields)]
pub enum CreateAsk {
    Generation,
    LocalSpace,
    Workflow { workflow_ref: String },
    ProjectRepositories { project_ref: String },
    Adopt,
    Direct { url: String },
    /// Which grants select each of these vessels, in a project on these
    /// repositories?
    Grants { project_ref: Option<String>, vessels: Vec<WorkflowVessel>, repositories: Vec<String> },
    Placement { ask: PlacementAsk },
    /// Is there room where the decision places it?
    RemoteSpace { decision: Option<Arc<PlacementDecision>> },
    FinalGeneration,
    Create { record: CreateRecord },
}

/// What comes next.
#[derive(Debug, PartialEq, Eq)]
pub enum CreateStep {
    Ask { ask: CreateAsk },
    /// The address of the convoy, or why there is none; a checkout that was
    /// adopted in vain is dropped again.
    Finish { outcome: Result<String, String>, drop_checkout: Option<String> },
}

pub struct RecordView {
    pub role: Seq<char>,
    pub generation: u64,
    pub workflow_ref: Seq<char>,
    pub inputs: Seq<(Seq<char>, Seq<char>)>,
    pub dispatching_principal: Option<Seq<char>>,
    pub project_ref: Option<Seq<char>>,
    pub repositories: Seq<RepositoryView>,
    pub git_ref: Option<Seq<char>>,
    pub adopted: Option<(Seq<char>, Seq<char>)>,
    pub workflow: EffectiveWorkflow,
    pub placement: Option<PlacementPolicy>,
    pub placement_decision: Option<PlacementDecision>,
}

pub enum CreateAskView {
    Generation,
    LocalSpace,
    Workflow(Seq<char>),
    ProjectRepositories(Seq<char>),
    Adopt,
    Direct(Seq<char>),
    Grants(Option<Seq<char>>, Seq<WorkflowVessel>, Seq<Seq<char>>),
    Placement(PlacementAskView),
    RemoteSpace(Option<PlacementDecision>),
    FinalGeneration,
    Create(RecordView),
}

pub enum CreateStepView {
    Ask(CreateAskView),
    Finish(Result<Seq<char>, Seq<char>>, Option<Seq<char>>),
}

/// What is shared.
pub open spec fn shared(decision: Option<Arc<PlacementDecision>>) -> Option<PlacementDecision> {
    match decision {
        Some(decision) => Some(*decision),
        None => None,
    }
}

/// Two texts.
pub open spec fn pair_view(p: Option<(String, String)>) -> Option<(Seq<char>, Seq<char>)> {
    match p {
        Some((a, b)) => Some((a@, b@)),
        None => None,
    }
}

impl View for CreateRecord {
    type V = RecordView;

    open spec fn view(&self) -> RecordView {
        RecordView {
            role: self.role@,
            generation: self.generation,
            workflow_ref: self.workflow_ref@,
            inputs: input_views(self.inputs@),
            dispatching_principal: opt(self.dispatching_principal),
            project_ref: opt(self.project_ref),
            repositories: repository_views(self.repositories@),
            git_ref: opt(self.git_ref),
            adopted: pair_view(self.adopted),
            workflow: self.workflow,
            placement: self.placement,
            placement_decision: shared(self.placement_decision),
        }
    }
}

impl View for CreateAsk {
    type V = CreateAskView;

    open spec fn view(&self) -> CreateAskView {
        match *self {
            CreateAsk::Generation => CreateAskView::Generation,
            CreateAsk::LocalSpace => CreateAskView::LocalSpace,
            CreateAsk::Workflow { workflow_ref } => CreateAskView::Workflow(workflow_ref@),
            CreateAsk::ProjectRepositories { project_ref } => CreateAskView::ProjectRepositories(project_ref@),
            CreateAsk::Adopt => CreateAskView::Adopt,
            CreateAsk::Direct { url } => CreateAskView::Direct(url@),
            CreateAsk::Grants { project_ref, vessels, repositories } => CreateAskView::Grants(
                opt(project_ref),
                vessels@,
                strs(repositories@),
            ),
            CreateAsk::Placement { ask } => CreateAskView::Placement(ask@),
            CreateAsk::RemoteSpace { decision } => CreateAskView::RemoteSpace(shared(decision)),
            CreateAsk::FinalGeneration => CreateAskView::FinalGeneration,
            CreateAsk::Create { record } => CreateAskView::Create(record@),
        }
    }
}

impl View for CreateStep {
    type V = CreateStepView;

    open spec fn view(&self) -> CreateStepView {
        match *self {
            CreateStep::Ask { ask } => CreateStepView::Ask(ask@),
            CreateStep::Finish { outcome, drop_checkout } => CreateStepView::Finish(
                match outcome {
                    Ok(address) => Ok(address@),
                    Err(e) => Err(e@),
                },
                opt(drop_checkout),
            ),
        }
    }
}

/// It ends with an error.
pub open spec fn failed_with(e: Seq<char>) -> CreateStepView {
    CreateStepView::Finish(Err(e), None)
}

/// What stands in the way of the next step: a question that is still open, or
/// one that was answered with an error.
pub open spec fn barrier(reading: Option<Result<(), String>>, ask: CreateAskView) -> Option<CreateStepView> {
    match reading {
        None => Some(CreateStepView::Ask(ask)),
        Some(Err(e)) => Some(failed_with(e@)),
        Some(Ok(())) => None,
    }
}

fn fail(message: String) -> (r: CreateStep)
    ensures
        r@ == failed_with(message@),
{
    CreateStep::Finish { outcome: Err(message), drop_checkout: None }
}

fn blocked(reading: &Option<Result<(), String>>, ask: CreateAsk) -> (r: Option<CreateStep>)
    ensures
        match r {
            Some(step) => barrier(*reading, ask@) == Some(step@),
            None => barrier(*reading, ask@) is None,
        },
{
    match reading {
        None => Some(CreateStep::Ask { ask }),
        Some(Err(e)) => Some(fail(e.clone())),
        Some(Ok(())) => None,
    }
}

/// What stands in the way before the repositories of a convoy are looked at.
pub open spec fn creation_start(req: CreateRequest, rd: CreateReadings) -> Option<CreateStepView> {
    match checked_convoy_name(req.role@) {
        Err(e) => Some(failed_with(e)),
        Ok(_) => match rd.generation {
            None => Some(CreateStepView::Ask(CreateAskView::Generation)),
            Some(Err(e)) => Some(failed_with(e@)),
            Some(Ok(_)) => match barrier(rd.local_space, CreateAskView::LocalSpace) {
                Some(step) => Some(step),
                None => match rd.workflow {
                    None => Some(CreateStepView::Ask(CreateAskView::Workflow(req.workflow_ref@))),
                    Some(Err(e)) => Some(failed_with("workflow template "@ + req.workflow_ref@ + ": "@ + e@)),
                    Some(Ok(_)) => None,
                },
            },
        },
    }
}

fn start_creation(req: &CreateRequest, rd: &CreateReadings) -> (r: Option<CreateStep>)
    ensures
        match r {
            Some(step) => creation_start(*req, *rd) == Some(step@),
            None => creation_start(*req, *rd) is None,
        },
{
    match validate_convoy_name(req.role.as_str()) {
        Err(e) => {
            return Some(fail(e));
        },
        Ok(()) => {},
    }
    match &rd.generation {
        None => {
            return Some(CreateStep::Ask { ask: CreateAsk::Generation });
        },
        Some(Err(e)) => {
            return Some(fail(e.clone()));
        },
        Some(Ok(_)) => {},
    }
    match blocked(&rd.local_space, CreateAsk::LocalSpace) {
        Some(step) => {
            return Some(step);
        },
        None => {},
    }
    match &rd.workflow {
        None => Some(CreateStep::Ask { ask: CreateAsk::Workflow { workflow_ref: req.workflow_ref.clone() } }),
        Some(Err(e)) => Some(
            fail(concat4("workflow template ", req.workflow_ref.as_str(), ": ", e.as_str())),
        ),
        Some(Ok(_)) => None,
    }
}

/// The repository that was named by its address, as a convoy carries it.
pub open spec fn direct_repository(url: Seq<char>, d: DirectReading, adopted_ref: Option<Seq<char>>) -> Result<
    RepositoryView,
    Seq<char>,
> {
    let default_ref = match d.default_branch {
        Some(branch) => Some(branch@),
        None => adopted_ref,
    };
    match (d.canonical_remote, default_ref) {
        (None, _) => Err("repository "@ + url + " did not resolve to a remote identity"@),
        (Some(_), None) => Err("repository "@ + d.repo_ref@ + " has no resolved default branch"@),
        (Some(remote), Some(branch)) => Ok(
            RepositoryView {
                url: remote@,
                repo_ref: d.repo_ref@,
                source_ref: branch,
                target_ref: branch,
                workspace_slug: d.workspace_slug@,
                subpaths: Seq::empty(),
            },
        ),
    }
}

/// The repository that was named by its address. Where its default branch is
/// not known, the branch of an adopted checkout stands in.
pub fn resolve_direct_repository(url: &str, d: &DirectReading, adopted_ref: &Option<String>) -> (r: Result<ConvoyRepository, String>)
    ensures
        match r {
            Ok(repository) => direct_repository(url@, *d, opt(*adopted_ref)) == Ok::<RepositoryView, Seq<char>>(repository@),
            Err(e) => direct_repository(url@, *d, opt(*adopted_ref)) == Err::<RepositoryView, Seq<char>>(e@),
        },
{
    let remote = match &d.canonical_remote {
        None => {
            return Err(concat3("repository ", url, " did not resolve to a remote identity"));
        },
        Some(remote) => remote,
    };
    let default_ref = match &d.default_branch {
        Some(branch) => branch.clone(),
        None => match adopted_ref {
            Some(branch) => branch.clone(),
            None => {
                return Err(concat3("repository ", d.repo_ref.as_str(), " has no resolved default branch"));
            },
        },
    };
    let r = ConvoyRepository {
        url: remote.clone(),
        repo_ref: d.repo_ref.clone(),
        source_ref: default_ref.clone(),
        target_ref: default_ref,
        workspace_slug: d.workspace_slug.clone(),
        subpaths: Vec::new(),
    };
    assert(strs(r.subpaths@) =~= Seq::<Seq<char>>::empty());
    Ok(r)
}

/// Whether a repository is among some.
pub open spec fn carries(list: Seq<RepositoryView>, repo_ref: Seq<char>) -> bool {
    exists|i: int| 0 <= i < list.len() && (#[trigger] list[i]).repo_ref == repo_ref
}

/// What a convoy works on: its repositories, its branch and its adopted
/// checkout.
pub struct GroundView {
    pub repositories: Seq<RepositoryView>,
    pub git_ref: Option<Seq<char>>,
    pub adopted: Option<(Seq<char>, Seq<char>)>,
}

/// What a convoy works on, or what comes first.
pub open spec fn creation_ground(req: CreateRequest, rd: CreateReadings) -> Result<GroundView, CreateStepView> {
    match project_ground(req, rd) {
        Err(step) => Err(step),
        Ok(project_repositories) => match adopted_ground(req, rd) {
            Err(step) => Err(step),
            Ok(adopted) => {
                let url = match (project_repositories, req.repository_url, adopted) {
                    (Some(_), _, _) => None,
                    (None, Some(url), _) => Some(url@),
                    (None, None, Some(a)) => Some(a.repository_url@),
                    (None, None, None) => None,
                };
                let git_ref = match (req.git_ref, adopted) {
                    (Some(git_ref), _) => Some(git_ref@),
                    (None, Some(a)) => Some(a.git_ref@),
                    (None, None) => None,
                };
                let repositories = match (project_repositories, url) {
                    (Some(list), _) => Ok(list),
                    (None, None) => Ok(Seq::empty()),
                    (None, Some(url)) => match rd.direct {
                        None => Err(CreateStepView::Ask(CreateAskView::Direct(url))),
                        Some(Err(e)) => Err(failed_with(e@)),
                        Some(Ok(d)) => match direct_repository(
                            url,
                            d,
                            if adopted is Some {
                                git_ref
                            } else {
                                None
                            },
                        ) {
                            Err(e) => Err(failed_with(e)),
                            Ok(repository) => Ok(seq![repository]),
                        },
                    },
                };
                match repositories {
                    Err(step) => Err(step),
                    Ok(list) => match adopted {
                        None => Ok(GroundView { repositories: list, git_ref, adopted: None }),
                        Some(a) => if carries(list, a.repo_ref@) {
                            Ok(GroundView { repositories: list, git_ref, adopted: Some((a.repo_ref@, a.checkout_ref@)) })
                        } else {
                            Err(
                                failed_with(
                                    "adopted checkout repository "@ + a.repo_ref@ + " is not part of project "@ + (
                                    match req.project_ref {
                                        Some(project) => project@,
                                        None => ""@,
                                    }),
                                ),
                            )
                        },
                    },
                }
            },
        },
    }
}

/// The repositories of the project, where there is one.
pub open spec fn project_ground(req: CreateRequest, rd: CreateReadings) -> Result<Option<Seq<RepositoryView>>, CreateStepView> {
    match req.project_ref {
        None => Ok(None),
        Some(project) => match rd.project_repositories {
            None => Err(CreateStepView::Ask(CreateAskView::ProjectRepositories(project@))),
            Some(Err(e)) => Err(failed_with(e@)),
            Some(Ok(list)) => if req.repository_url is Some {
                Err(failed_with("convoy repository selection is not allowed when a project is supplied"@))
            } else {
                Ok(Some(repository_views(list@)))
            },
        },
    }
}

/// The checkout that is adopted, where one is.
pub open spec fn adopted_ground(req: CreateRequest, rd: CreateReadings) -> Result<Option<AdoptedReading>, CreateStepView> {
    if !req.adopt {
        Ok(None)
    } else {
        match rd.adopted {
            None => Err(CreateStepView::Ask(CreateAskView::Adopt)),
            Some(Err(e)) => Err(failed_with(e@)),
            Some(Ok(a)) => Ok(Some(a)),
        }
    }
}

struct Ground {
    repositories: Vec<ConvoyRepository>,
    git_ref: Option<String>,
    adopted: Option<(String, String)>,
}

fn copy_all(list: &Vec<ConvoyRepository>) -> (r: Vec<ConvoyRepository>)
    ensures
        repository_views(r@) == repository_views(list@),
{
    let mut r: Vec<ConvoyRepository> = Vec::new();
    let mut i: usize = 0;
    while i < list.len()
        invariant
            i <= list@.len(),
            r@.len() == i,
            forall|k: int| 0 <= k < i ==> (#[trigger] r@[k])@ == list@[k]@,
        decreases list.len() - i,
    {
        r.push(list[i].copy());
        i = i + 1;
    }
    assert(repository_views(r@) =~= repository_views(list@));
    r
}

fn carries_repository(list: &Vec<ConvoyRepository>, repo_ref: &str) -> (r: bool)
    ensures
        r == carries(repository_views(list@), repo_ref@),
{
    let mut i: usize = 0;
    while i < list.len()
        invariant
            i <= list@.len(),
            forall|k: int| 0 <= k < i ==> (#[trigger] list@[k]).repo_ref@ != repo_ref@,
        decreases list.len() - i,
    {
        if str_eq(list[i].repo_ref.as_str(), repo_ref) {
            assert(repository_views(list@)[i as int].repo_ref == repo_ref@);
            return true;
        }
        i = i + 1;
    }
    assert forall|k: int| 0 <= k < repository_views(list@).len() implies (#[trigger] repository_views(list@)[k]).repo_ref
        != repo_ref@ by {
        assert(list@[k].repo_ref@ != repo_ref@);
    }
    false
}

fn find_ground(req: &CreateRequest, rd: &CreateReadings) -> (r: Result<Ground, CreateStep>)
    ensures
        match r {
            Ok(g) => creation_ground(*req, *rd) == Ok::<GroundView, CreateStepView>(
                GroundView {
                    repositories: repository_views(g.repositories@),
                    git_ref: opt(g.git_ref),
                    adopted: pair_view(g.adopted),
                },
            ),
            Err(step) => creation_ground(*req, *rd) == Err::<GroundView, CreateStepView>(step@),
        },
{
    let project_repositories = match &req.project_ref {
        None => None,
        Some(project) => match &rd.project_repositories {
            None => {
                return Err(
                    CreateStep::Ask { ask: CreateAsk::ProjectRepositories { project_ref: project.clone() } },
                );
            },
            Some(Err(e)) => {
                return Err(fail(e.clone()));
            },
            Some(Ok(list)) => {
                if req.repository_url.is_some() {
                    return Err(
                        fail("convoy repository selection is not allowed when a project is supplied".to_owned()),
                    );
                }
                Some(copy_all(list))
            },
        },
    };
    let adopted = if req.adopt {
        match &rd.adopted {
            None => {
                return Err(CreateStep::Ask { ask: CreateAsk::Adopt });
            },
            Some(Err(e)) => {
                return Err(fail(e.clone()));
            },
            Some(Ok(a)) => Some(a),
        }
    } else {
        None
    };
    let git_ref = match &req.git_ref {
        Some(git_ref) => Some(git_ref.clone()),
        None => match adopted {
            Some(a) => Some(a.git_ref.clone()),
            None => None,
        },
    };
    let repositories = match project_repositories {
        Some(list) => list,
        None => {
            let url = match &req.repository_url {
                Some(url) => Some(url.clone()),
                None => match adopted {
                    Some(a) => Some(a.repository_url.clone()),
                    None => None,
                },
            };
            match url {
                None => {
                    let none: Vec<ConvoyRepository> = Vec::new();
                    assert(repository_views(none@) =~= Seq::<RepositoryView>::empty());
                    none
                },
                Some(url) => match &rd.direct {
                    None => {
                        return Err(CreateStep::Ask { ask: CreateAsk::Direct { url } });
                    },
                    Some(Err(e)) => {
                        return Err(fail(e.clone()));
                    },
                    Some(Ok(d)) => {
                        let adopted_ref = if adopted.is_some() {
                            opt_clone(&git_ref)
                        } else {
                            None
                        };
                        match resolve_direct_repository(url.as_str(), d, &adopted_ref) {
                            Err(e) => {
                                return Err(fail(e));
                            },
                            Ok(repository) => {
                                let ghost view = repository@;
                                let mut one: Vec<ConvoyRepository> = Vec::new();
                                one.push(repository);
                                assert(repository_views(one@) =~= seq![view]);
                                one
                            },
                        }
                    },
                },
            }
        },
    };
    match adopted {
        None => Ok(Ground { repositories, git_ref, adopted: None }),
        Some(a) => {
            if carries_repository(&repositories, a.repo_ref.as_str()) {
                Ok(
                    Ground {
                        repositories,
                        git_ref,
                        adopted: Some((a.repo_ref.clone(), a.checkout_ref.clone())),
                    },
                )
            } else {
                let project = match &req.project_ref {
                    Some(project) => project.as_str(),
                    None => "",
                };
                Err(
                    fail(
                        concat4(
                            "adopted checkout repository ",
                            a.repo_ref.as_str(),
                            " is not part of project ",
                            project,
                        ),
                    ),
                )
            }
        },
    }
}

/// The decision by which a workflow is placed.
pub open spec fn decision_of(placement: Option<Placement>) -> Option<PlacementDecision> {
    match placement {
        Some(p) => Some(p.decision),
        None => None,
    }
}

/// The policy by which a workflow is placed.
pub open spec fn policy_of(placement: Option<Placement>) -> Option<PlacementPolicy> {
    match placement {
        Some(p) => Some(p.policy),
        None => None,
    }
}

/// What comes once a convoy is placed: there must be room where it is placed,
/// and its generation is asked for again.
pub open spec fn placed_step(
    req: CreateRequest,
    rd: CreateReadings,
    ground: GroundView,
    workflow: EffectiveWorkflow,
    placement: Option<Placement>,
) -> CreateStepView {
    match barrier(rd.remote_space, CreateAskView::RemoteSpace(decision_of(placement))) {
        Some(step) => step,
        None => match rd.final_generation {
            None => CreateStepView::Ask(CreateAskView::FinalGeneration),
            Some(Err(e)) => CreateStepView::Finish(
                Err(e@),
                match ground.adopted {
                    Some((_, checkout)) => Some(checkout),
                    None => None,
                },
            ),
            Some(Ok(generation)) => match rd.created {
                None => CreateStepView::Ask(
                    CreateAskView::Create(
                        RecordView {
                            role: req.role@,
                            generation,
                            workflow_ref: req.workflow_ref@,
                            inputs: input_views(req.inputs@),
                            dispatching_principal: opt(req.dispatching_principal),
                            project_ref: opt(req.project_ref),
                            repositories: ground.repositories,
                            git_ref: ground.git_ref,
                            adopted: ground.adopted,
                            workflow,
                            placement: policy_of(placement),
                            placement_decision: decision_of(placement),
                        },
                    ),
                ),
                Some(Err(e)) => failed_with(e@),
                Some(Ok(())) => CreateStepView::Finish(Ok(address_text(req.role@, opt(req.project_ref))), None),
            },
        },
    }
}

/// `step` is what comes of the placement of a convoy that is created.
pub open spec fn creation_placed(
    step: CreateStep,
    req: CreateRequest,
    rd: CreateReadings,
    ground: GroundView,
    workflow: EffectiveWorkflow,
) -> bool {
    exists|placing: PlacementStep|
        #[trigger] placement_decided(placing, workflow, opt(req.placement_policy), rd.placement) && match placing {
            PlacementStep::Ask { ask } => step@ == CreateStepView::Ask(CreateAskView::Placement(ask@)),
            PlacementStep::Refuse { message } => step@ == failed_with(message@),
            PlacementStep::Placed { placement } => step@ == placed_step(req, rd, ground, workflow, placement),
        }
}

/// `step` is what comes of the workflow of a convoy that is created: its
/// vessels get the credentials that the grants for its project and for the
/// repositories it carries give them, and so it is placed.
pub open spec fn creation_granted(step: CreateStep, req: CreateRequest, rd: CreateReadings, ground: GroundView) -> bool {
    exists|granted: WorkflowStep|
        #[trigger] grants_decided(
            granted,
            rd.workflow->0->Ok_0@,
            None,
            Seq::empty(),
            repo_refs(ground.repositories),
            rd.grants,
        ) && match granted {
            WorkflowStep::AskGrants { vessels } => step@ == CreateStepView::Ask(
                CreateAskView::Grants(opt(req.project_ref), vessels@, repo_refs(ground.repositories)),
            ),
            WorkflowStep::Refuse { message } => step@ == failed_with(message@),
            WorkflowStep::Resolved { workflow } => creation_placed(step, req, rd, ground, workflow),
            _ => false,
        }
}

/// `step` is what comes next for a creation.
pub open spec fn creation_decided(step: CreateStep, req: CreateRequest, rd: CreateReadings) -> bool {
    match creation_start(req, rd) {
        Some(view) => step@ == view,
        None => match creation_ground(req, rd) {
            Err(view) => step@ == view,
            Ok(ground) => creation_granted(step, req, rd, ground),
        },
    }
}

impl Ground {
    spec fn as_view(self) -> GroundView {
        GroundView {
            repositories: repository_views(self.repositories@),
            git_ref: opt(self.git_ref),
            adopted: pair_view(self.adopted),
        }
    }
}

fn place_creation(req: &CreateRequest, rd: &CreateReadings, ground: Ground, workflow: EffectiveWorkflow) -> (step: CreateStep)
    requires
        is_whole(workflow),
    ensures
        creation_placed(step, *req, *rd, ground.as_view(), workflow),
{
    let placing = resolve_and_validate_convoy_placement(&workflow, &req.placement_policy, &rd.placement);
    let ghost decided = placing;
    assert(placement_decided(decided, workflow, opt(req.placement_policy), rd.placement));
    match placing {
        PlacementStep::Ask { ask } => CreateStep::Ask { ask: CreateAsk::Placement { ask } },
        PlacementStep::Refuse { message } => fail(message),
        PlacementStep::Placed { placement } => finish_creation(req, rd, ground, workflow, placement),
    }
}

fn finish_creation(
    req: &CreateRequest,
    rd: &CreateReadings,
    ground: Ground,
    workflow: EffectiveWorkflow,
    placement: Option<Placement>,
) -> (step: CreateStep)
    ensures
        step@ == placed_step(*req, *rd, ground.as_view(), workflow, placement),
{
    let (policy, decision) = match placement {
        Some(p) => (Some(p.policy), Some(Arc::new(p.decision))),
        None => (None, None),
    };
    match blocked(&rd.remote_space, CreateAsk::RemoteSpace { decision: share_opt(&decision) }) {
        Some(step) => {
            return step;
        },
        None => {},
    }
    let generation = match &rd.final_generation {
        None => {
            return CreateStep::Ask { ask: CreateAsk::FinalGeneration };
        },
        Some(Err(e)) => {
            let drop_checkout = match ground.adopted {
                Some((_, checkout)) => Some(checkout),
                None => None,
            };
            return CreateStep::Finish { outcome: Err(e.clone()), drop_checkout };
        },
        Some(Ok(generation)) => *generation,
    };
    match &rd.created {
        None => CreateStep::Ask {
            ask: CreateAsk::Create {
                record: CreateRecord {
                    role: req.role.clone(),
                    generation,
                    workflow_ref: req.workflow_ref.clone(),
                    inputs: copy_inputs(&req.inputs),
                    dispatching_principal: opt_clone(&req.dispatching_principal),
                    project_ref: opt_clone(&req.project_ref),
                    repositories: ground.repositories,
                    git_ref: ground.git_ref,
                    adopted: ground.adopted,
                    workflow,
                    placement: policy,
                    placement_decision: decision,
                },
            },
        },
        Some(Err(e)) => fail(e.clone()),
        Some(Ok(())) => {
            let project = match &req.project_ref {
                Some(project) => Some(project.as_str()),
                None => None,
            };
            CreateStep::Finish { outcome: Ok(convoy_address(req.role.as_str(), project)), drop_checkout: None }
        },
    }
}

fn grant_creation(req: &CreateRequest, rd: &CreateReadings, template: &Vec<WorkflowVessel>, ground: Ground) -> (step: CreateStep)
    requires
        rd.workflow == Some(Ok::<Vec<WorkflowVessel>, String>(*template)),
    ensures
        creation_granted(step, *req, *rd, ground.as_view()),
{
    let refs = refs_of(&ground.repositories);
    let vessels = take_stance(template, &None);
    let ghost own = vessels@;
    assert(vessels_admitted(own, template@, None, Seq::empty())) by {
        assert forall|i: int| 0 <= i < own.len() implies same_vessel(#[trigger] own[i], template@[i]) && own[i].crew@ == crew_after(
            template@[i].crew@,
            Seq::empty(),
        ) && own[i].stance@ == stance_of(template@[i].stance@, None) by {}
    }
    let granted = grant_workflow(vessels, &refs, &rd.grants);
    let ghost decided = granted;
    assert(grants_decided(
        decided,
        rd.workflow->0->Ok_0@,
        None,
        Seq::empty(),
        repo_refs(repository_views(ground.repositories@)),
        rd.grants,
    ));
    match granted {
        WorkflowStep::AskGrants { vessels } => CreateStep::Ask {
            ask: CreateAsk::Grants { project_ref: opt_clone(&req.project_ref), vessels, repositories: refs },
        },
        WorkflowStep::Refuse { message } => fail(message),
        WorkflowStep::Resolved { workflow } => place_creation(req, rd, ground, workflow),
        WorkflowStep::AskTemplate | WorkflowStep::AskForks => {
            assert(false);
            CreateStep::Ask { ask: CreateAsk::Generation }
        },
    }
}

/// Decides what comes next for a creation.
pub fn convoy_create_step(req: &CreateRequest, rd: &CreateReadings) -> (step: CreateStep)
    ensures
        creation_decided(step, *req, *rd),
{
    match start_creation(req, rd) {
        Some(step) => {
            return step;
        },
        None => {},
    }
    let ground = match find_ground(req, rd) {
        Err(step) => {
            return step;
        },
        Ok(ground) => ground,
    };
    match &rd.workflow {
        Some(Ok(template)) => grant_creation(req, rd, template, ground),
        _ => {
            assert(false);
            CreateStep::Ask { ask: CreateAsk::Generation }
        },
    }
}

/// `record` was made so: its workflow is the template with the credentials
/// that the grants give its vessels on the repositories that the convoy
/// carries, and its placement serves that workflow.
pub open spec fn created_whole(
    record: RecordView,
    granted: WorkflowStep,
    needs: PlacementNeeds<'_>,
    reading: Option<PolicyReading>,
    rd: CreateReadings,
) -> bool {
    &&& granted == (WorkflowStep::Resolved { workflow: record.workflow })
    &&& (rd.workflow matches Some(Ok(template)) && grants_decided(
        granted,
        template@,
        None,
        Seq::empty(),
        repo_refs(record.repositories),
        rd.grants,
    ))
    &&& served(
        needs,
        reading,
        record.workflow,
        match (record.placement, record.placement_decision) {
            (Some(policy), Some(decision)) => Some(Placement { policy, decision }),
            _ => None,
        },
        rd.placement,
    )
}

/// What is created is one whole: nothing about the agents or the credentials
/// of its workflow, as granted for the repositories it carries, stands against
/// its placement.
pub proof fn law_created_placements_serve_the_workflow(step: CreateStep, req: CreateRequest, rd: CreateReadings, record: RecordView)
    requires
        creation_decided(step, req, rd),
        step@ == CreateStepView::Ask(CreateAskView::Create(record)),
    ensures
        exists|granted: WorkflowStep, needs: PlacementNeeds<'_>, reading: Option<PolicyReading>|
            #[trigger] created_whole(record, granted, needs, reading, rd),
{
    let ground = creation_ground(req, rd)->Ok_0;
    let granted = choose|granted: WorkflowStep|
        #[trigger] grants_decided(
            granted,
            rd.workflow->0->Ok_0@,
            None,
            Seq::empty(),
            repo_refs(ground.repositories),
            rd.grants,
        ) && match granted {
            WorkflowStep::AskGrants { vessels } => step@ == CreateStepView::Ask(
                CreateAskView::Grants(opt(req.project_ref), vessels@, repo_refs(ground.repositories)),
            ),
            WorkflowStep::Refuse { message } => step@ == failed_with(message@),
            WorkflowStep::Resolved { workflow } => creation_placed(step, req, rd, ground, workflow),
            _ => false,
        };
    let workflow = granted->workflow;
    let placing = choose|placing: PlacementStep|
        #[trigger] placement_decided(placing, workflow, opt(req.placement_policy), rd.placement) && match placing {
            PlacementStep::Ask { ask } => step@ == CreateStepView::Ask(CreateAskView::Placement(ask@)),
            PlacementStep::Refuse { message } => step@ == failed_with(message@),
            PlacementStep::Placed { placement } => step@ == placed_step(req, rd, ground, workflow, placement),
        };
    law_placed_workflows_are_served(placing, workflow, opt(req.placement_policy), rd.placement);
    let (needs, reading) = choose|needs: PlacementNeeds<'_>, reading: Option<PolicyReading>|
        #[trigger] served(needs, reading, workflow, placing->Placed_placement, rd.placement);
    assert(created_whole(record, granted, needs, reading, rd));
}

/// No convoy is created before every check has passed, and it adopts a
/// checkout only of a repository that it carries.
pub proof fn law_creation_needs_every_check(step: CreateStep, req: CreateRequest, rd: CreateReadings, record: RecordView)
    requires
        creation_decided(step, req, rd),
        step@ == CreateStepView::Ask(CreateAskView::Create(record)),
    ensures
        checked_convoy_name(req.role@) is Ok,
        rd.local_space matches Some(Ok(_)),
        rd.workflow matches Some(Ok(_)),
        rd.remote_space matches Some(Ok(_)),
        rd.final_generation matches Some(Ok(_)),
        record.adopted matches Some((repo_ref, _)) ==> carries(record.repositories, repo_ref),
{
}

/// The names of the labels that say which convoy a record is of.
#[derive(Debug)]
pub struct ConvoyLabelNames {
    pub project: String,
    pub role: String,
    pub generation: String,
}

/// The labels of a convoy: its project, its role and its generation.
pub open spec fn labels_of_convoy(names: ConvoyLabelNames, project_ref: Option<String>, role: Seq<char>, generation: u64) -> Map<
    Seq<char>,
    Seq<char>,
> {
    Map::<Seq<char>, Seq<char>>::empty().insert(
        names.project@,
        match project_ref {
            Some(project) => project@,
            None => ""@,
        },
    ).insert(names.role@, role).insert(names.generation@, decimal(generation as nat))
}

/// The labels of a convoy's record.
pub fn convoy_labels(names: &ConvoyLabelNames, project_ref: &Option<String>, role: &str, generation: u64) -> (r: OrderedMap<String>)
    ensures
        text_map(r@) == labels_of_convoy(*names, *project_ref, role@, generation),
{
    let mut r: OrderedMap<String> = OrderedMap::new();
    assert(text_map(r@) =~= Map::<Seq<char>, Seq<char>>::empty());
    let project = match project_ref {
        Some(project) => project.as_str(),
        None => "",
    };
    put(&mut r, names.project.as_str(), project);
    put(&mut r, names.role.as_str(), role);
    let shown = decimal_str(generation);
    put(&mut r, names.generation.as_str(), shown.as_str());
    r
}

/// The name of a snapshot, by the kind and the digest of what it holds.
pub fn prepared_snapshot_name(kind: &str, suffix: &str) -> (r: String)
    ensures
        r@ == kind@ + "-snapshot-"@ + suffix@,
{
    concat3(kind, "-snapshot-", suffix)
}

/// What stands under the name of a snapshot.
#[derive(Debug, PartialEq, Eq)]
pub enum SnapshotReading {
    Absent,
    Same,
    Different,
    Unreadable { error: String },
}

/// Whether a snapshot has to be created; one that holds something else is
/// never written over. `kind` is `workflow` or `placement`.
pub fn prepared_snapshot_step(kind: &str, name: &str, existing: &SnapshotReading) -> (r: Result<bool, String>)
    ensures
        match *existing {
            SnapshotReading::Absent => r == Ok::<bool, String>(true),
            SnapshotReading::Same => r == Ok::<bool, String>(false),
            SnapshotReading::Different => r matches Err(e) && e@ == "prepared "@ + kind@ + " snapshot "@ + name@
                + " already exists with different contents"@,
            SnapshotReading::Unreadable { error } => r matches Err(e) && e@ == error@,
        },
{
    match existing {
        SnapshotReading::Absent => Ok(true),
        SnapshotReading::Same => Ok(false),
        SnapshotReading::Different => Err(
            concat5("prepared ", kind, " snapshot ", name, " already exists with different contents"),
        ),
        SnapshotReading::Unreadable { error } => Err(error.clone()),
    }
}

/// The workflows that every namespace starts out with.
pub open spec fn default_workflows() -> Seq<Seq<char>> {
    seq!["single-agent-contained"@, "single-agent-shepherd"@, "single-agent-trusted"@, "implement-review"@]
}

/// What the creation of a workflow came to.
#[derive(Debug, PartialEq, Eq)]
pub enum SeedOutcome {
    Created,
    /// A workflow of that name is there already, and stays as it is.
    Present,
    Failed { error: String },
}

/// The first failure among some outcomes.
pub open spec fn first_failure(outcomes: Seq<SeedOutcome>) -> Option<Seq<char>>
    decreases outcomes.len(),
{
    if outcomes.len() == 0 {
        None
    } else {
        match (first_failure(outcomes.drop_last()), outcomes.last()) {
            (Some(e), _) => Some(e),
            (None, SeedOutcome::Failed { error }) => Some(error@),
            (None, _) => None,
        }
    }
}

/// The workflow that is created next, after the outcomes so far; the first
/// failure ends it.
pub fn ensure_default_workflows(outcomes: &Vec<SeedOutcome>) -> (r: Result<Option<String>, String>)
    ensures
        match first_failure(outcomes@) {
            Some(e) => r matches Err(x) && x@ == e,
            None => r matches Ok(next) && opt(next) == (if outcomes@.len() < default_workflows().len() {
                Some(default_workflows()[outcomes@.len() as int])
            } else {
                None
            }),
        },
{
    let mut i: usize = 0;
    while i < outcomes.len()
        invariant
            i <= outcomes@.len(),
            first_failure(outcomes@.take(i as int)) is None,
        decreases outcomes.len() - i,
    {
        assert(outcomes@.take(i + 1).drop_last() =~= outcomes@.take(i as int));
        if let SeedOutcome::Failed { error } = &outcomes[i] {
            proof {
                lemma_first_failure_stays(outcomes@, i as int);
            }
            return Err(error.clone());
        }
        i = i + 1;
    }
    assert(outcomes@.take(outcomes@.len() as int) =~= outcomes@);
    match outcomes.len() {
        0 => Ok(Some("single-agent-contained".to_owned())),
        1 => Ok(Some("single-agent-shepherd".to_owned())),
        2 => Ok(Some("single-agent-trusted".to_owned())),
        3 => Ok(Some("implement-review".to_owned())),
        _ => Ok(None),
    }
}

proof fn lemma_first_failure_stays(outcomes: Seq<SeedOutcome>, i: int)
    requires
        0 <= i < outcomes.len(),
        first_failure(outcomes.take(i)) is None,
        outcomes[i] is Failed,
    ensures
        first_failure(outcomes) == Some(outcomes[i]->error@),
    decreases outcomes.len(),
{
    if outcomes.len() == i + 1 {
        assert(outcomes.drop_last() =~= outcomes.take(i));
    } else {
        assert(outcomes.drop_last().take(i) =~= outcomes.take(i));
        lemma_first_failure_stays(outcomes.drop_last(), i);
    }
}

/// Whether a start asks to be attached to.
#[derive(Debug, Clone, Copy, PartialEq, Eq, Structural)]
pub enum ConvoyAutoAttach {
    Always,
    Never,
    Default,
}

/// Whether a start is attached to: as asked for, else as configured, else
/// where nobody is looking at a surface anyway.
pub fn should_auto_attach(requested: ConvoyAutoAttach, configured: Option<bool>, has_ambient_surface: bool) -> (r: bool)
    ensures
        r == match requested {
            ConvoyAutoAttach::Always => true,
            ConvoyAutoAttach::Never => false,
            ConvoyAutoAttach::Default => match configured {
                Some(wanted) => wanted,
                None => !has_ambient_surface,
            },
        },
{
    match requested {
        ConvoyAutoAttach::Always => true,
        ConvoyAutoAttach::Never => false,
        ConvoyAutoAttach::Default => match configured {
            Some(wanted) => wanted,
            None => !has_ambient_surface,
        },
    }
}

/// What was admitted of a start.
#[derive(Debug, PartialEq, Eq)]
pub struct StartAdmission {
    pub role: String,
    pub project_ref: Option<String>,
    /// Where it is placed.
    pub decision: Option<Arc<PlacementDecision>>,
}

/// What was found out so far about a start that runs.
#[derive(Default, Debug)]
pub struct StartReadings {
    pub local_space: Option<Result<(), String>>,
    pub admission: Option<Result<StartAdmission, String>>,
    pub remote_space: Option<Result<(), String>>,
    pub generation: Option<Result<u64, String>>,
    pub created: Option<Result<(), String>>,
    pub attached: Option<Result<(), String>>,
}

/// What comes next for a start that runs.
#[derive(Debug, PartialEq, Eq)]
#[allow(inconsistent_fields)]
pub enum StartStep {
    CheckLocalSpace,
    Prepare,
    /// Is there room where the decision places it?
    CheckRemoteSpace { decision: Option<Arc<PlacementDecision>> },
    /// The generation that the role is in, in its project.
    Allocate { role: String, project_ref: Option<String> },
    Create { generation: u64 },
    Attach { address: String },
    Fail { message: String },
    Started { address: String, attached: bool },
}

/// `step` is what comes next for a start that runs.
pub open spec fn start_decided(
    step: StartStep,
    served: Seq<char>,
    requested: Option<Seq<char>>,
    auto_attach: bool,
    rd: StartReadings,
) -> bool {
    let fails = |e: Seq<char>| step matches StartStep::Fail { message } && message@ == e;
    if requested is Some && requested != Some(served) {
        fails(
            "namespace `"@ + requested->0 + "` is not served by this daemon (configured namespace: `"@ + served + "`)"@,
        )
    } else {
        match rd.local_space {
            None => step is CheckLocalSpace,
            Some(Err(e)) => fails(e@),
            Some(Ok(_)) => match rd.admission {
                None => step is Prepare,
                Some(Err(e)) => fails(e@),
                Some(Ok(admitted)) => match rd.remote_space {
                    None => step matches StartStep::CheckRemoteSpace { decision } && decision == admitted.decision,
                    Some(Err(e)) => fails(e@),
                    Some(Ok(_)) => match rd.generation {
                        None => step matches StartStep::Allocate { role, project_ref } && role@ == admitted.role@ && opt(
                            project_ref,
                        ) == opt(admitted.project_ref),
                        Some(Err(e)) => fails(e@),
                        Some(Ok(n)) => match rd.created {
                            None => step == (StartStep::Create { generation: n }),
                            Some(Err(e)) => fails(e@),
                            Some(Ok(_)) => if !auto_attach {
                                step matches StartStep::Started { address, attached } && address@ == address_text(
                                    admitted.role@,
                                    opt(admitted.project_ref),
                                ) && !attached
                            } else {
                                match rd.attached {
                                    None => step matches StartStep::Attach { address } && address@ == address_text(
                                        admitted.role@,
                                        opt(admitted.project_ref),
                                    ),
                                    Some(Err(e)) => fails(e@),
                                    Some(Ok(_)) => step matches StartStep::Started { address, attached } && address@
                                        == address_text(admitted.role@, opt(admitted.project_ref)) && attached,
                                }
                            },
                        },
                    },
                },
            },
        }
    }
}

/// Decides what comes next for a start that runs in the namespace it is for.
pub fn run_convoy_start(
    served_namespace: &str,
    requested_namespace: &Option<String>,
    auto_attach: bool,
    rd: &StartReadings,
) -> (step: StartStep)
    ensures
        start_decided(step, served_namespace@, opt(*requested_namespace), auto_attach, *rd),
{
    match requested_namespace {
        Some(requested) => {
            if !str_eq(requested.as_str(), served_namespace) {
                return StartStep::Fail {
                    message: concat5(
                        "namespace `",
                        requested.as_str(),
                        "` is not served by this daemon (configured namespace: `",
                        served_namespace,
                        "`)",
                    ),
                };
            }
        },
        None => {},
    }
    match &rd.local_space {
        None => {
            return StartStep::CheckLocalSpace;
        },
        Some(Err(e)) => {
            return StartStep::Fail { message: e.clone() };
        },
        Some(Ok(())) => {},
    }
    let admitted = match &rd.admission {
        None => {
            return StartStep::Prepare;
        },
        Some(Err(e)) => {
            return StartStep::Fail { message: e.clone() };
        },
        Some(Ok(admitted)) => admitted,
    };
    match &rd.remote_space {
        None => {
            return StartStep::CheckRemoteSpace { decision: share_opt(&admitted.decision) };
        },
        Some(Err(e)) => {
            return StartStep::Fail { message: e.clone() };
        },
        Some(Ok(())) => {},
    }
    let generation: u64 = match &rd.generation {
        None => {
            return StartStep::Allocate { role: admitted.role.clone(), project_ref: opt_clone(&admitted.project_ref) };
        },
        Some(Err(e)) => {
            return StartStep::Fail { message: e.clone() };
        },
        Some(Ok(n)) => *n,
    };
    match &rd.created {
        None => {
            return StartStep::Create { generation };
        },
        Some(Err(e)) => {
            return StartStep::Fail { message: e.clone() };
        },
        Some(Ok(())) => {},
    }
    let at = match &admitted.project_ref {
        Some(project) => Some(project.as_str()),
        None => None,
    };
    let address = convoy_address(admitted.role.as_str(), at);
    if !auto_attach {
        return StartStep::Started { address, attached: false };
    }
    match &rd.attached {
        None => StartStep::Attach { address },
        Some(Err(e)) => StartStep::Fail { message: e.clone() },
        Some(Ok(())) => StartStep::Started { address, attached: true },
    }
}

/// What happens while a start waits for a crew to attach to.
#[derive(Debug, PartialEq, Eq)]
#[allow(inconsistent_fields)]
pub enum WaitEvent {
    /// The convoy could not be looked at in the first place, or the watch of
    /// it could not be opened.
    Unwatchable { error: String },
    /// Attaching was tried.
    Tried { outcome: Result<(), String> },
    /// The convoy of this record was seen.
    Seen { convoy: StartingConvoy },
    /// The convoy of this record is gone.
    Deleted { record_name: String },
    /// Something else was seen.
    Unrelated,
    WatchFailed { error: String },
    WatchEnded,
    Deadline,
}

/// How a wait goes on.
#[derive(Debug, PartialEq, Eq)]
#[allow(inconsistent_fields)]
pub enum WaitStep {
    /// With what is to be said should it take too long.
    GoOn { last_error: String },
    Attached,
    Fail { message: String },
}

/// `r` is how a wait goes on.
pub open spec fn wait_decided(r: WaitStep, name: Seq<char>, address: Seq<char>, last_error: Seq<char>, event: WaitEvent) -> bool {
    let goes_on = |e: Seq<char>| r matches WaitStep::GoOn { last_error } && last_error@ == e;
    let fails = |e: Seq<char>| r matches WaitStep::Fail { message } && message@ == e;
    match event {
        WaitEvent::Unwatchable { error } => fails("watch convoy "@ + address + " while waiting to attach: "@ + error@),
        WaitEvent::Tried { outcome: Ok(_) } => r is Attached,
        WaitEvent::Tried { outcome: Err(e) } => goes_on(e@),
        WaitEvent::Seen { convoy } => if convoy.record_name@ == name && start_failure(convoy) is Some {
            fails(start_failure(convoy)->0)
        } else {
            goes_on(last_error)
        },
        WaitEvent::Deleted { record_name } => if record_name@ == name {
            fails("convoy "@ + address + " was deleted while waiting for a crew session"@)
        } else {
            goes_on(last_error)
        },
        WaitEvent::Unrelated => goes_on(last_error),
        WaitEvent::WatchFailed { error } => fails("watch convoy "@ + address + " while waiting to attach: "@ + error@),
        WaitEvent::WatchEnded => fails("convoy "@ + address + " status watch ended while waiting to attach"@),
        WaitEvent::Deadline => fails(
            "convoy "@ + address + " was created but no crew session became attachable: "@ + last_error,
        ),
    }
}

/// What a wait says before anything was tried.
pub fn first_wait_error() -> (r: String)
    ensures
        r@ == "attach target is not available yet"@,
{
    "attach target is not available yet".to_owned()
}

/// Decides how the wait for a crew goes on.
pub fn wait_for_convoy_attach(name: &str, address: &str, last_error: &str, event: WaitEvent) -> (r: WaitStep)
    ensures
        wait_decided(r, name@, address@, last_error@, event),
{
    match event {
        WaitEvent::Unwatchable { error } | WaitEvent::WatchFailed { error } => WaitStep::Fail {
            message: concat4("watch convoy ", address, " while waiting to attach: ", error.as_str()),
        },
        WaitEvent::Tried { outcome: Ok(()) } => WaitStep::Attached,
        WaitEvent::Tried { outcome: Err(e) } => WaitStep::GoOn { last_error: e },
        WaitEvent::Seen { convoy } => {
            if str_eq(convoy.record_name.as_str(), name) {
                match convoy_start_failure(&convoy) {
                    Some(message) => {
                        return WaitStep::Fail { message };
                    },
                    None => {},
                }
            }
            WaitStep::GoOn { last_error: last_error.to_owned() }
        },
        WaitEvent::Deleted { record_name } => {
            if str_eq(record_name.as_str(), name) {
                WaitStep::Fail {
                    message: concat3("convoy ", address, " was deleted while waiting for a crew session"),
                }
            } else {
                WaitStep::GoOn { last_error: last_error.to_owned() }
            }
        },
        WaitEvent::Unrelated => WaitStep::GoOn { last_error: last_error.to_owned() },
        WaitEvent::WatchEnded => WaitStep::Fail {
            message: concat3("convoy ", address, " status watch ended while waiting to attach"),
        },
        WaitEvent::Deadline => WaitStep::Fail {
            message: concat4(
                "convoy ",
                address,
                " was created but no crew session became attachable: ",
                last_error,
            ),
        },
    }
}

} // verus!
