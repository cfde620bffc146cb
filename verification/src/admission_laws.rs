//! What holds of every convoy that is admitted, in terms of the start that
//! asked for it and of what was read for it.
use vstd::prelude::*;

use crate::admission::{selector_views, ConvoyStartIntent};
use crate::admission_workflow::{granting, grants_decided, workflow_decided, GrantReading, WorkflowReadings, WorkflowStep};
use crate::ordered::{lemma_sorted_unique_exists, sorted_unique};
use crate::placement_laws::{asks_for_a_container, law_placed_workflows_can_run, placed_by};
use crate::placement::PolicyReading;
use crate::placing::{placement_decided, Placement, PlacementStep};
use crate::naming::NamedIssue;
use crate::preparation::{
    admission_decided, after_placement, after_workflow, distinct_at, first_issue_error, first_outside, names_context, naming_of,
    positions, rebased, repo_refs, rest_decided, retained, scope_of, workflow_choice, AdmissionReadings, AdmissionStep,
    AdmissionStepView, NamedConvoy, ProjectReading,
};
use crate::change_requests::ResolvedRequest;
use crate::projects::{repository_views, ConvoyRepository, RepositoryView};
use crate::text::{first_some, holds, opt, strs, trim};
use crate::workflow::{
    all_granted, capabilities, covers, crew_after, fork_problems, grant_problems, granted, grants_at, has_review, override_problems,
    scope, vessels_admitted, vessels_overridden, AgentOverride, CredentialGrant, CrewSource, EffectiveWorkflow, WorkflowVessel,
};

verus! {

/// The repositories that a convoy of this start carries before its change
/// request moves one of them.
spec fn scope_repositories(namespace: Seq<char>, intent: ConvoyStartIntent, selected: Option<Vec<String>>, rd: AdmissionReadings) -> Seq<RepositoryView> {
    scope_of(namespace, intent, selected, rd)->Ok_0.1
}

proof fn lemma_rest(
    step: AdmissionStep,
    intent: ConvoyStartIntent,
    principal: Option<Seq<char>>,
    stance: Option<Seq<char>>,
    project: Seq<char>,
    repositories: Seq<RepositoryView>,
    request: Option<ResolvedRequest>,
    reading: ProjectReading,
    rd: AdmissionReadings,
) -> (found: (WorkflowStep, PlacementStep))
    requires
        rest_decided(step, intent, principal, stance, project, repositories, request, reading, rd),
        step is Admitted,
    ensures
        ({
            let a = step->admission;
            &&& first_issue_error(rd.issues@) is None
            &&& rd.issues@.len() >= distinct_at(selector_views(intent.issues@)).len()
            &&& workflow_choice(intent, reading.default_workflow_ref@) == Ok::<Seq<char>, Seq<char>>(a.workflow_ref@)
            &&& naming_of(
                intent,
                project,
                reading.display_name@,
                request,
                crate::preparation::resolved_issues(rd.issues@),
                rd.names,
            ) == Ok::<(Seq<char>, Seq<char>), AdmissionStepView>((a.role@, a.branch@))
            &&& workflow_decided(
                found.0,
                a.workflow_ref@,
                stance,
                intent.agent_overrides@,
                repo_refs(repositories),
                rd.workflow,
            )
            &&& found.0 == (WorkflowStep::Resolved { workflow: a.workflow })
            &&& placement_decided(found.1, a.workflow, opt(intent.placement_policy), rd.placement)
            &&& found.1 is Placed
            &&& match found.1->Placed_placement {
                None => a.placement is None && a.placement_policy is None && a.placement_decision is None,
                Some(p) => a.placement == Some(p.policy) && opt(a.placement_policy) == Some(p.policy.name@) && (
                a.placement_decision matches Some(d) && *d == p.decision) && !(intent.workflow_ref is None && (exists|v: int|
                    0 <= v < a.workflow.vessels@.len() && (#[trigger] a.workflow.vessels@[v]).stance@ == "trusted"@)
                    && p.policy.host_direct is Some),
            }
            &&& repository_views(a.repositories@) == repositories
            &&& a.change_request == request
            &&& a.project_ref@ == project
            &&& positions(a.issues@) == distinct_at(selector_views(intent.issues@))
            &&& crate::admission::input_views(a.inputs@) == crate::admission::input_views(intent.inputs@)
            &&& opt(a.instruction) == opt(intent.instruction)
            &&& opt(a.dispatching_principal) == principal
        }),
{
    let workflow_ref = workflow_choice(intent, reading.default_workflow_ref@)->Ok_0;
    let settling = choose|settling: WorkflowStep|
        #[trigger] workflow_decided(
            settling,
            workflow_ref,
            stance,
            intent.agent_overrides@,
            repo_refs(repositories),
            rd.workflow,
        ) && after_workflow(
            step,
            settling,
            intent,
            principal,
            project,
            workflow_ref,
            repositories,
            request,
            reading,
            rd,
        );
    let workflow = settling->workflow;
    let (role, branch) = naming_of(
        intent,
        project,
        reading.display_name@,
        request,
        crate::preparation::resolved_issues(rd.issues@),
        rd.names,
    )->Ok_0;
    let convoy = NamedConvoy { role, branch, project_ref: project, workflow_ref, repositories, request, principal };
    let placing = choose|placing: PlacementStep|
        #[trigger] placement_decided(placing, workflow, opt(intent.placement_policy), rd.placement) && after_placement(
            step,
            placing,
            intent,
            convoy,
            workflow,
        );
    assert(step@ == AdmissionStepView::Admitted(step->admission@));
    assert(placing is Placed);
    assert(crate::workflow::any_stance(workflow.vessels@, "trusted"@) == exists|v: int|
        0 <= v < workflow.vessels@.len() && (#[trigger] workflow.vessels@[v]).stance@ == "trusted"@);
    (settling, placing)
}

/// `at` tells which of the listed repositories were taken, in order: all of
/// them, or, where keys were selected, exactly those with one of these keys.
pub open spec fn drawn_from(at: Seq<int>, list: Seq<ConvoyRepository>, selected: Option<Vec<String>>) -> bool {
    &&& forall|i: int, k: int| 0 <= i < k < at.len() ==> #[trigger] at[i] < #[trigger] at[k]
    &&& forall|k: int| 0 <= k < at.len() ==> 0 <= #[trigger] at[k] < list.len()
    &&& forall|j: int|
        0 <= j < list.len() ==> (at.contains(j) <==> (selected matches Some(keys) ==> exists|s: int|
            0 <= s < keys@.len() && (#[trigger] keys@[s])@ == (#[trigger] list[j]).repo_ref@))
}

proof fn lemma_retained(list: Seq<RepositoryView>, keys: Seq<Seq<char>>) -> (at: Seq<int>)
    ensures
        at.len() == retained(list, keys).len(),
        forall|i: int, k: int| 0 <= i < k < at.len() ==> #[trigger] at[i] < #[trigger] at[k],
        forall|k: int| 0 <= k < at.len() ==> 0 <= #[trigger] at[k] < list.len() && retained(list, keys)[k] == list[at[k]],
        forall|j: int| 0 <= j < list.len() ==> (at.contains(j) <==> holds(keys, (#[trigger] list[j]).repo_ref)),
    decreases list.len(),
{
    if list.len() == 0 {
        Seq::empty()
    } else {
        let front = list.drop_last();
        let before = lemma_retained(front, keys);
        let n = list.len() - 1;
        if holds(keys, list.last().repo_ref) {
            let at = before.push(n);
            assert forall|i: int, k: int| 0 <= i < k < at.len() implies #[trigger] at[i] < #[trigger] at[k] by {
                if k < before.len() {
                    assert(before[i] < before[k]);
                } else {
                    assert(before[i] < front.len());
                }
            }
            assert forall|k: int| 0 <= k < at.len() implies 0 <= #[trigger] at[k] < list.len() && retained(list, keys)[k]
                == list[at[k]] by {
                if k < before.len() {
                    assert(at[k] == before[k]);
                    assert(front[before[k]] == list[before[k]]);
                }
            }
            assert forall|j: int| 0 <= j < list.len() implies (at.contains(j) <==> holds(keys, (#[trigger] list[j]).repo_ref)) by {
                if j < n {
                    assert(front[j] == list[j]);
                    if before.contains(j) {
                        let k = choose|k: int| 0 <= k < before.len() && before[k] == j;
                        assert(at[k] == j);
                    }
                    if at.contains(j) {
                        let k = choose|k: int| 0 <= k < at.len() && at[k] == j;
                        assert(before[k] == j);
                    }
                } else {
                    assert(at[before.len() as int] == j);
                }
            }
            at
        } else {
            assert forall|k: int| 0 <= k < before.len() implies 0 <= #[trigger] before[k] < list.len() && retained(list, keys)[k]
                == list[before[k]] by {
                assert(front[before[k]] == list[before[k]]);
            }
            assert forall|j: int| 0 <= j < list.len() implies (before.contains(j) <==> holds(keys, (#[trigger] list[j]).repo_ref)) by {
                if j < n {
                    assert(front[j] == list[j]);
                } else if before.contains(j) {
                    let k = choose|k: int| 0 <= k < before.len() && before[k] == j;
                    assert(before[k] < front.len());
                }
            }
            before
        }
    }
}

/// `repository` is the one that was read, with the branches it starts from and
/// goes back to.
pub open spec fn taken_as(repository: ConvoyRepository, read: ConvoyRepository, source: Seq<char>, target: Seq<char>) -> bool {
    &&& repository.repo_ref@ == read.repo_ref@
    &&& repository.url@ == read.url@
    &&& repository.workspace_slug@ == read.workspace_slug@
    &&& strs(repository.subpaths@) == strs(read.subpaths@)
    &&& repository.source_ref@ == source
    &&& repository.target_ref@ == target
}

proof fn lemma_drawn(
    namespace: Seq<char>,
    intent: ConvoyStartIntent,
    selected: Option<Vec<String>>,
    rd: AdmissionReadings,
) -> (at: Seq<int>)
    requires
        scope_of(namespace, intent, selected, rd) is Ok,
    ensures
        rd.repositories matches Some(Ok(_)),
        drawn_from(at, rd.repositories->0->Ok_0@, selected),
        at.len() == scope_repositories(namespace, intent, selected, rd).len(),
        forall|k: int|
            0 <= k < at.len() ==> #[trigger] scope_repositories(namespace, intent, selected, rd)[k]
                == rd.repositories->0->Ok_0@[at[k]]@,
{
    let list = rd.repositories->0->Ok_0@;
    let views = repository_views(list);
    match selected {
        None => {
            let at = Seq::new(list.len(), |i: int| i);
            assert forall|j: int| 0 <= j < list.len() implies #[trigger] at.contains(j) by {
                assert(at[j] == j);
            }
            at
        },
        Some(keys) => {
            let at = lemma_retained(views, strs(keys@));
            assert forall|j: int| 0 <= j < list.len() implies (at.contains(j) <==> exists|s: int|
                0 <= s < keys@.len() && (#[trigger] keys@[s])@ == (#[trigger] list[j]).repo_ref@) by {
                assert(views[j].repo_ref == list[j].repo_ref@);
                if holds(strs(keys@), list[j].repo_ref@) {
                    let s = choose|s: int| 0 <= s < strs(keys@).len() && #[trigger] strs(keys@)[s] == list[j].repo_ref@;
                    assert(keys@[s]@ == list[j].repo_ref@);
                }
                if exists|s: int| 0 <= s < keys@.len() && (#[trigger] keys@[s])@ == list[j].repo_ref@ {
                    let s = choose|s: int| 0 <= s < keys@.len() && (#[trigger] keys@[s])@ == list[j].repo_ref@;
                    assert(strs(keys@)[s] == list[j].repo_ref@);
                }
            }
            at
        },
    }
}

proof fn lemma_rebased_fields(list: Seq<RepositoryView>, key: Seq<char>, base: Seq<char>)
    ensures
        rebased(list, key, base).len() == list.len(),
        forall|k: int|
            0 <= k < list.len() ==> {
                let r = #[trigger] rebased(list, key, base)[k];
                &&& r.repo_ref == list[k].repo_ref && r.url == list[k].url && r.workspace_slug == list[k].workspace_slug
                    && r.subpaths == list[k].subpaths
                &&& if list[k].repo_ref == key && (forall|j: int| 0 <= j < k ==> (#[trigger] list[j]).repo_ref != key) {
                    r.source_ref == base && r.target_ref == base
                } else {
                    r.source_ref == list[k].source_ref && r.target_ref == list[k].target_ref
                }
            },
    decreases list.len(),
{
    if list.len() > 0 && list[0].repo_ref != key {
        let rest = list.drop_first();
        lemma_rebased_fields(rest, key, base);
        assert forall|k: int| 0 <= k < list.len() implies ({
            let r = #[trigger] rebased(list, key, base)[k];
            &&& r.repo_ref == list[k].repo_ref && r.url == list[k].url && r.workspace_slug == list[k].workspace_slug && r.subpaths
                == list[k].subpaths
            &&& if list[k].repo_ref == key && (forall|j: int| 0 <= j < k ==> (#[trigger] list[j]).repo_ref != key) {
                r.source_ref == base && r.target_ref == base
            } else {
                r.source_ref == list[k].source_ref && r.target_ref == list[k].target_ref
            }
        }) by {
            if k > 0 {
                assert(rebased(list, key, base)[k] == rebased(rest, key, base)[k - 1]);
                assert(rest[k - 1] == list[k]);
                if forall|j: int| 0 <= j < k ==> (#[trigger] list[j]).repo_ref != key {
                    assert forall|j: int| 0 <= j < k - 1 implies (#[trigger] rest[j]).repo_ref != key by {
                        assert(rest[j] == list[j + 1]);
                    }
                } else {
                    let j = choose|j: int| 0 <= j < k && (#[trigger] list[j]).repo_ref == key;
                    assert(rest[j - 1] == list[j]);
                }
            }
        }
    } else if list.len() > 0 {
        assert(list[0].repo_ref == key);
    }
}

/// A convoy that adopts a change request works on the request's own branch,
/// carries the request, and starts from, and goes back to, the base of the
/// request in the repository that the request is in. Every other repository is
/// as the project has it; all of them, or those that were selected, are there.
pub proof fn law_adopted_requests_go_back_to_their_base(
    step: AdmissionStep,
    namespace: Seq<char>,
    intent: ConvoyStartIntent,
    principal: Option<Seq<char>>,
    selected: Option<Vec<String>>,
    stance: Option<Seq<char>>,
    rd: AdmissionReadings,
)
    requires
        admission_decided(step, namespace, intent, principal, selected, stance, rd),
        step is Admitted,
        intent.change_request is Some,
    ensures
        rd.change_request matches Some(Ok(request)) && step->admission.branch@ == request.branch@
            && step->admission.change_request == Some(request),
        rd.repositories matches Some(Ok(list)) && exists|at: Seq<int>|
            {
                let request = rd.change_request->0->Ok_0;
                let carried = step->admission.repositories@;
                &&& #[trigger] drawn_from(at, list@, selected)
                &&& at.len() == carried.len()
                &&& forall|k: int|
                    0 <= k < carried.len() ==> if carried[k].repo_ref@ == request.repository_ref@ && (forall|j: int|
                        0 <= j < k ==> (#[trigger] carried[j]).repo_ref@ != request.repository_ref@) {
                        taken_as(#[trigger] carried[k], list@[at[k]], request.base_ref@, request.base_ref@)
                    } else {
                        taken_as(carried[k], list@[at[k]], list@[at[k]].source_ref@, list@[at[k]].target_ref@)
                    }
            },
{
    let (project, repositories) = scope_of(namespace, intent, selected, rd)->Ok_0;
    let request = rd.change_request->0->Ok_0;
    let moved = rebased(repositories, request.repository_ref@, request.base_ref@);
    let found = lemma_rest(step, intent, principal, stance, project, moved, Some(request), rd.project->0->Ok_0, rd);
    let at = lemma_drawn(namespace, intent, selected, rd);
    lemma_rebased_fields(repositories, request.repository_ref@, request.base_ref@);
    let list = rd.repositories->0->Ok_0@;
    let carried = step->admission.repositories@;
    assert(repository_views(carried).len() == carried.len());
    assert forall|k: int| 0 <= k < carried.len() implies if carried[k].repo_ref@ == request.repository_ref@ && (forall|j: int|
        0 <= j < k ==> (#[trigger] carried[j]).repo_ref@ != request.repository_ref@) {
        taken_as(#[trigger] carried[k], list[at[k]], request.base_ref@, request.base_ref@)
    } else {
        taken_as(carried[k], list[at[k]], list[at[k]].source_ref@, list[at[k]].target_ref@)
    } by {
        assert(repository_views(carried)[k] == carried[k]@);
        assert(moved[k] == carried[k]@);
        assert(repositories[k] == list[at[k]]@);
        assert forall|j: int| 0 <= j < k implies (#[trigger] repositories[j]).repo_ref == carried[j].repo_ref@ by {
            assert(repository_views(carried)[j] == carried[j]@);
            assert(moved[j].repo_ref == repositories[j].repo_ref);
        }
        if forall|j: int| 0 <= j < k ==> (#[trigger] carried[j]).repo_ref@ != request.repository_ref@ {
            assert forall|j: int| 0 <= j < k implies (#[trigger] repositories[j]).repo_ref != request.repository_ref@ by {
                assert(carried[j].repo_ref@ != request.repository_ref@);
            }
        } else {
            let j = choose|j: int| 0 <= j < k && (#[trigger] carried[j]).repo_ref@ == request.repository_ref@;
            assert(repositories[j].repo_ref == request.repository_ref@);
        }
    }
}

/// A convoy that adopts nothing carries the repositories of its project as the
/// project has them: all of them, or exactly those that were selected.
pub proof fn law_convoys_carry_their_projects_repositories(
    step: AdmissionStep,
    namespace: Seq<char>,
    intent: ConvoyStartIntent,
    principal: Option<Seq<char>>,
    selected: Option<Vec<String>>,
    stance: Option<Seq<char>>,
    rd: AdmissionReadings,
)
    requires
        admission_decided(step, namespace, intent, principal, selected, stance, rd),
        step is Admitted,
        intent.change_request is None,
    ensures
        step->admission.change_request is None,
        rd.repositories matches Some(Ok(list)) && exists|at: Seq<int>|
            {
                let carried = step->admission.repositories@;
                &&& #[trigger] drawn_from(at, list@, selected)
                &&& at.len() == carried.len()
                &&& forall|k: int|
                    0 <= k < carried.len() ==> taken_as(
                        #[trigger] carried[k],
                        list@[at[k]],
                        list@[at[k]].source_ref@,
                        list@[at[k]].target_ref@,
                    )
            },
        selected is Some ==> step->admission.repositories@.len() > 0,
{
    let (project, repositories) = scope_of(namespace, intent, selected, rd)->Ok_0;
    let found = lemma_rest(step, intent, principal, stance, project, repositories, None, rd.project->0->Ok_0, rd);
    let at = lemma_drawn(namespace, intent, selected, rd);
    let list = rd.repositories->0->Ok_0@;
    let carried = step->admission.repositories@;
    assert(repository_views(carried).len() == carried.len());
    assert forall|k: int| 0 <= k < carried.len() implies taken_as(
        #[trigger] carried[k],
        list[at[k]],
        list[at[k]].source_ref@,
        list[at[k]].target_ref@,
    ) by {
        assert(repository_views(carried)[k] == carried[k]@);
        assert(repositories[k] == list[at[k]]@);
    }
}

/// What is admitted is what was asked for: the project; the workflow that is
/// named, else the one for change requests where one is adopted, else the
/// project's; the name and the branch that are given; the inputs, the
/// instruction and who dispatches it.
pub proof fn law_admissions_are_what_was_asked(
    step: AdmissionStep,
    namespace: Seq<char>,
    intent: ConvoyStartIntent,
    principal: Option<Seq<char>>,
    selected: Option<Vec<String>>,
    stance: Option<Seq<char>>,
    rd: AdmissionReadings,
)
    requires
        admission_decided(step, namespace, intent, principal, selected, stance, rd),
        step is Admitted,
    ensures
        step->admission.project_ref@ == trim(intent.project_ref@),
        intent.workflow_ref matches Some(name) ==> step->admission.workflow_ref@ == trim(name@),
        intent.workflow_ref is None && intent.change_request is Some ==> step->admission.workflow_ref@ == "single-agent-shepherd"@,
        intent.workflow_ref is None && intent.change_request is None ==> (rd.project matches Some(Ok(project))
            && step->admission.workflow_ref@ == project.default_workflow_ref@),
        intent.name matches Some(name) ==> step->admission.role@ == trim(name@),
        intent.branch matches Some(branch) ==> step->admission.branch@ == trim(branch@),
        step->admission.role@.len() > 0,
        step->admission.inputs@.len() == intent.inputs@.len(),
        forall|i: int|
            0 <= i < intent.inputs@.len() ==> (#[trigger] step->admission.inputs@[i]).0@ == intent.inputs@[i].0@
                && step->admission.inputs@[i].1@ == intent.inputs@[i].1@,
        opt(step->admission.instruction) == opt(intent.instruction),
        opt(step->admission.dispatching_principal) == principal,
{
    let (project, repositories) = scope_of(namespace, intent, selected, rd)->Ok_0;
    if intent.change_request is Some {
        let request = rd.change_request->0->Ok_0;
        let moved = rebased(repositories, request.repository_ref@, request.base_ref@);
        let found = lemma_rest(step, intent, principal, stance, project, moved, Some(request), rd.project->0->Ok_0, rd);
    } else {
        let found = lemma_rest(step, intent, principal, stance, project, repositories, None, rd.project->0->Ok_0, rd);
    }
    let mine = crate::admission::input_views(step->admission.inputs@);
    let asked = crate::admission::input_views(intent.inputs@);
    assert(mine.len() == asked.len());
    assert forall|i: int| 0 <= i < intent.inputs@.len() implies (#[trigger] step->admission.inputs@[i]).0@ == intent.inputs@[i].0@
        && step->admission.inputs@[i].1@ == intent.inputs@[i].1@ by {
        assert(mine[i] == asked[i]);
    }
}

/// Names that were made up for a convoy are used where none is given: where
/// they could be made up, the branch is the one made up.
pub proof fn law_made_up_branches_are_used(
    step: AdmissionStep,
    namespace: Seq<char>,
    intent: ConvoyStartIntent,
    principal: Option<Seq<char>>,
    selected: Option<Vec<String>>,
    stance: Option<Seq<char>>,
    rd: AdmissionReadings,
)
    requires
        admission_decided(step, namespace, intent, principal, selected, stance, rd),
        step is Admitted,
        intent.change_request is None,
        intent.branch is None,
    ensures
        rd.names matches Some(made_up) && (made_up matches Some(names) ==> step->admission.branch@ == trim(names.branch@)),
{
    let (project, repositories) = scope_of(namespace, intent, selected, rd)->Ok_0;
    let found = lemma_rest(step, intent, principal, stance, project, repositories, None, rd.project->0->Ok_0, rd);
}

/// A change request is adopted on its own: a branch or issues beside it are
/// refused, as is a selected repository that the project does not have, and a
/// project or repositories that could not be read.
pub proof fn law_contradictory_starts_are_refused(
    step: AdmissionStep,
    namespace: Seq<char>,
    intent: ConvoyStartIntent,
    principal: Option<Seq<char>>,
    selected: Option<Vec<String>>,
    stance: Option<Seq<char>>,
    rd: AdmissionReadings,
)
    requires
        admission_decided(step, namespace, intent, principal, selected, stance, rd),
    ensures
        step is Admitted ==> {
            &&& (rd.project matches Some(Ok(_)))
            &&& (rd.repositories matches Some(Ok(_)))
            &&& intent.change_request is Some ==> intent.branch is None && intent.issues@.len() == 0 && (
            rd.change_request matches Some(Ok(_)))
            &&& (selected matches Some(keys) ==> forall|s: int|
                0 <= s < keys@.len() ==> exists|j: int|
                    0 <= j < rd.repositories->0->Ok_0@.len() && (#[trigger] rd.repositories->0->Ok_0@[j]).repo_ref@
                        == (#[trigger] keys@[s])@)
            &&& forall|i: int| 0 <= i < rd.issues@.len() ==> #[trigger] rd.issues@[i] is Ok
        },
{
    if step is Admitted {
        let (project, repositories) = scope_of(namespace, intent, selected, rd)->Ok_0;
        if intent.change_request is Some {
            let request = rd.change_request->0->Ok_0;
            let moved = rebased(repositories, request.repository_ref@, request.base_ref@);
            let found = lemma_rest(step, intent, principal, stance, project, moved, Some(request), rd.project->0->Ok_0, rd);
        } else {
            let found = lemma_rest(step, intent, principal, stance, project, repositories, None, rd.project->0->Ok_0, rd);
        }
        let list = rd.repositories->0->Ok_0@;
        if selected is Some {
            let keys = selected->0@;
            let known = repo_refs(repository_views(list));
            lemma_first_outside(strs(keys), known);
            assert forall|s: int| 0 <= s < keys.len() implies exists|j: int|
                0 <= j < list.len() && (#[trigger] list[j]).repo_ref@ == (#[trigger] keys[s])@ by {
                assert(holds(known, strs(keys)[s]));
                let j = choose|j: int| 0 <= j < known.len() && #[trigger] known[j] == strs(keys)[s];
                assert(list[j].repo_ref@ == keys[s]@);
            }
        }
        assert forall|i: int| 0 <= i < rd.issues@.len() implies #[trigger] rd.issues@[i] is Ok by {
            lemma_issue_ok(rd.issues@, i);
        }
    }
}

proof fn lemma_first_outside(keys: Seq<Seq<char>>, known: Seq<Seq<char>>)
    requires
        first_outside(keys, known) is None,
    ensures
        forall|s: int| 0 <= s < keys.len() ==> holds(known, #[trigger] keys[s]),
    decreases keys.len(),
{
    if keys.len() > 0 {
        let rest = keys.drop_first();
        lemma_first_outside(rest, known);
        assert forall|s: int| 0 <= s < keys.len() implies holds(known, #[trigger] keys[s]) by {
            if s > 0 {
                assert(keys[s] == rest[s - 1]);
            }
        }
    }
}

proof fn lemma_issue_ok(issues: Seq<Result<crate::naming::NamedIssue, String>>, i: int)
    requires
        first_issue_error(issues) is None,
        0 <= i < issues.len(),
    ensures
        issues[i] is Ok,
    decreases issues.len(),
{
    if i > 0 {
        assert(issues.drop_first()[i - 1] == issues[i]);
        lemma_issue_ok(issues.drop_first(), i - 1);
    }
}

proof fn lemma_distinct(selectors: Seq<crate::admission::SelectorView>)
    ensures
        forall|k: int| 0 <= k < distinct_at(selectors).len() ==> 0 <= #[trigger] distinct_at(selectors)[k] < selectors.len(),
        forall|a: int, b: int|
            0 <= a < b < distinct_at(selectors).len() ==> selectors[#[trigger] distinct_at(selectors)[a]]
                != selectors[#[trigger] distinct_at(selectors)[b]],
    decreases selectors.len(),
{
    if selectors.len() > 0 {
        let front = selectors.drop_last();
        lemma_distinct(front);
        let before = distinct_at(front);
        let all = distinct_at(selectors);
        assert forall|k: int| 0 <= k < all.len() implies 0 <= #[trigger] all[k] < selectors.len() by {
            if k < before.len() {
                assert(all[k] == before[k]);
            }
        }
        assert forall|a: int, b: int| 0 <= a < b < all.len() implies selectors[#[trigger] all[a]] != selectors[#[trigger] all[b]] by {
            assert(all[a] == before[a]);
            assert(front[before[a]] == selectors[before[a]]);
            if b < before.len() {
                assert(all[b] == before[b]);
                assert(front[before[b]] == selectors[before[b]]);
            } else {
                assert(front.contains(front[before[a]]));
            }
        }
    }
}

proof fn lemma_covered(selectors: Seq<crate::admission::SelectorView>, i: int) -> (k: int)
    requires
        0 <= i < selectors.len(),
    ensures
        0 <= k < distinct_at(selectors).len(),
        0 <= distinct_at(selectors)[k] < selectors.len(),
        selectors[distinct_at(selectors)[k]] == selectors[i],
    decreases selectors.len(),
{
    let front = selectors.drop_last();
    let before = distinct_at(front);
    if i == front.len() && !front.contains(selectors.last()) {
        before.len() as int
    } else {
        let j = if i < front.len() {
            i
        } else {
            choose|j: int| 0 <= j < front.len() && front[j] == selectors.last()
        };
        let k = lemma_covered(front, j);
        assert(front[before[k]] == selectors[before[k]]);
        assert(front[j] == selectors[i]);
        k
    }
}

/// An admitted convoy carries every issue that it was started for, and each of
/// them once; all of them could be resolved.
pub proof fn law_every_issue_is_carried_once(
    step: AdmissionStep,
    namespace: Seq<char>,
    intent: ConvoyStartIntent,
    principal: Option<Seq<char>>,
    selected: Option<Vec<String>>,
    stance: Option<Seq<char>>,
    rd: AdmissionReadings,
    i: int,
)
    requires
        admission_decided(step, namespace, intent, principal, selected, stance, rd),
        step is Admitted,
    ensures
        ({
            let carried = step->admission.issues@;
            &&& forall|k: int| 0 <= k < carried.len() ==> #[trigger] carried[k] < intent.issues@.len()
            &&& forall|a: int, b: int|
                0 <= a < b < carried.len() ==> intent.issues@[#[trigger] carried[a] as int]@ != intent.issues@[#[trigger] carried[b] as int]@
            &&& 0 <= i < intent.issues@.len() ==> exists|k: int|
                0 <= k < carried.len() && intent.issues@[#[trigger] carried[k] as int]@ == intent.issues@[i]@
            &&& rd.issues@.len() >= carried.len()
        }),
{
    let (project, repositories) = scope_of(namespace, intent, selected, rd)->Ok_0;
    if intent.change_request is Some {
        let request = rd.change_request->0->Ok_0;
        let moved = rebased(repositories, request.repository_ref@, request.base_ref@);
        let found = lemma_rest(step, intent, principal, stance, project, moved, Some(request), rd.project->0->Ok_0, rd);
    } else {
        let found = lemma_rest(step, intent, principal, stance, project, repositories, None, rd.project->0->Ok_0, rd);
    }
    let carried = step->admission.issues@;
    let views = selector_views(intent.issues@);
    let all = distinct_at(views);
    lemma_distinct(views);
    assert(positions(carried).len() == carried.len());
    assert forall|k: int| 0 <= k < carried.len() implies #[trigger] carried[k] < intent.issues@.len() && all[k] == carried[k] by {
        assert(positions(carried)[k] == carried[k]);
    }
    assert forall|a: int, b: int| 0 <= a < b < carried.len() implies intent.issues@[#[trigger] carried[a] as int]@
        != intent.issues@[#[trigger] carried[b] as int]@ by {
        assert(all[a] == carried[a] && all[b] == carried[b]);
        assert(views[all[a]] != views[all[b]]);
    }
    if 0 <= i < intent.issues@.len() {
        let k = lemma_covered(views, i);
        assert(all[k] == carried[k]);
        assert(views[all[k]] == intent.issues@[carried[k] as int]@);
        assert(views[i] == intent.issues@[i]@);
    }
}

/// What is admitted can run where it is placed: by the policy that is named,
/// or by one of those there are, with every agent that its workflow requires,
/// in a container where a vessel is to be contained. Nobody is placed directly
/// on a host with a trusted vessel by a workflow that they did not name.
pub proof fn law_admitted_convoys_can_run(
    step: AdmissionStep,
    namespace: Seq<char>,
    intent: ConvoyStartIntent,
    principal: Option<Seq<char>>,
    selected: Option<Vec<String>>,
    stance: Option<Seq<char>>,
    rd: AdmissionReadings,
)
    requires
        admission_decided(step, namespace, intent, principal, selected, stance, rd),
        step is Admitted,
    ensures
        rd.placement.adapters matches Some(Ok(required)) && ({
            let a = step->admission;
            match (a.placement, a.placement_decision) {
                (None, _) => required@.len() == 0 && !asks_for_a_container(a.workflow) && intent.placement_policy is None
                    && a.placement_policy is None,
                (Some(policy), Some(decision)) => {
                    &&& exists|reading: PolicyReading|
                        {
                            &&& #[trigger] placed_by(
                                reading,
                                Placement { policy, decision: *decision },
                                required@,
                                asks_for_a_container(a.workflow),
                            )
                            &&& if intent.placement_policy is Some {
                                rd.placement.policy matches Some(Ok(named)) && named == reading
                            } else {
                                rd.placement.policies matches Some(Some(list)) && list@.contains(reading)
                            }
                        }
                    &&& opt(a.placement_policy) == Some(policy.name@)
                },
                _ => false,
            }
        }),
        intent.workflow_ref is None && (step->admission.placement matches Some(policy) && policy.host_direct is Some) ==> forall|v: int|
            0 <= v < step->admission.workflow.vessels@.len() ==> (#[trigger] step->admission.workflow.vessels@[v]).stance@
                != "trusted"@,
{
    let (project, repositories) = scope_of(namespace, intent, selected, rd)->Ok_0;
    let a = step->admission;
    let found = if intent.change_request is Some {
        let request = rd.change_request->0->Ok_0;
        let moved = rebased(repositories, request.repository_ref@, request.base_ref@);
        lemma_rest(step, intent, principal, stance, project, moved, Some(request), rd.project->0->Ok_0, rd)
    } else {
        lemma_rest(step, intent, principal, stance, project, repositories, None, rd.project->0->Ok_0, rd)
    };
    law_placed_workflows_can_run(found.1, a.workflow, opt(intent.placement_policy), rd.placement);
    match found.1->Placed_placement {
        None => {},
        Some(p) => {
            assert(p == (Placement { policy: p.policy, decision: p.decision }));
        },
    }
}

proof fn lemma_none(list: Seq<Option<Seq<char>>>, i: int)
    requires
        first_some(list) is None,
        0 <= i < list.len(),
    ensures
        list[i] is None,
    decreases list.len(),
{
    if list[0] is None && i > 0 {
        lemma_none(list.drop_first(), i - 1);
    }
}

proof fn lemma_crew_after(crew: Seq<CrewSource>, choices: Seq<AgentOverride>, m: int)
    requires
        0 <= m < crew.len(),
    ensures
        crew_after(crew, choices).len() == crew.len(),
        crew[m] is Tool ==> crew_after(crew, choices)[m] is Tool,
        crew[m] is Agent ==> crew_after(crew, choices)[m] is Agent && crew_after(crew, choices)[m]->selector.capability@
            == crew[m]->selector.capability@,
        (crew[m] is Agent && forall|c: int| 0 <= c < choices.len() ==> (#[trigger] choices[c]).capability@
            != crew[m]->selector.capability@) ==> crew_after(crew, choices)[m] == crew[m],
        forall|c: int|
            0 <= c < choices.len() && crew[m] is Agent && (#[trigger] choices[c]).capability@ == crew[m]->selector.capability@ && (
            forall|d: int| c < d < choices.len() ==> (#[trigger] choices[d]).capability@ != crew[m]->selector.capability@)
                ==> crew_after(crew, choices)[m]->selector.adapter == Some(choices[c].adapter) && crew_after(
                crew,
                choices,
            )[m]->selector.model == choices[c].model,
    decreases choices.len(),
{
    if choices.len() > 0 {
        let front = choices.drop_last();
        lemma_crew_after(crew, front, m);
        let n = choices.len() - 1;
        assert(choices[n] == choices.last());
        if crew[m] is Agent {
            if forall|c: int| 0 <= c < choices.len() ==> (#[trigger] choices[c]).capability@ != crew[m]->selector.capability@ {
                assert forall|c: int| 0 <= c < front.len() implies (#[trigger] front[c]).capability@
                    != crew[m]->selector.capability@ by {
                    assert(front[c] == choices[c]);
                }
            }
            assert forall|c: int|
                0 <= c < choices.len() && (#[trigger] choices[c]).capability@ == crew[m]->selector.capability@ && (forall|d: int|
                    c < d < choices.len() ==> (#[trigger] choices[d]).capability@ != crew[m]->selector.capability@) implies crew_after(
                crew,
                choices,
            )[m]->selector.adapter == Some(choices[c].adapter) && crew_after(crew, choices)[m]->selector.model == choices[c].model by {
                if c < n {
                    assert(choices[n].capability@ != crew[m]->selector.capability@);
                    assert(front[c] == choices[c]);
                    assert forall|d: int| c < d < front.len() implies (#[trigger] front[d]).capability@
                        != crew[m]->selector.capability@ by {
                        assert(front[d] == choices[d]);
                    }
                }
            }
        }
    }
}

/// `after` is a vessel of the template as it is dispatched: it has its name,
/// the stance that is asked for, else its own, and its crew member by member,
/// of which an agent is played as was chosen for its capability, else as the
/// template says.
pub open spec fn dispatched(after: WorkflowVessel, before: WorkflowVessel, stance: Option<Seq<char>>, choices: Seq<AgentOverride>) -> bool {
    &&& after.name@ == before.name@
    &&& match (after.repository_refs, before.repository_refs) {
        (Some(a), Some(b)) => strs(a@) == strs(b@),
        (None, None) => true,
        _ => false,
    }
    &&& after.stance@ == (if stance is Some {
        stance->0
    } else {
        before.stance@
    })
    &&& after.crew@.len() == before.crew@.len()
    &&& forall|m: int|
        0 <= m < before.crew@.len() ==> match #[trigger] before.crew@[m] {
            CrewSource::Tool => after.crew@[m] is Tool,
            CrewSource::Agent { selector } => after.crew@[m] matches CrewSource::Agent { selector: played } && played.capability@
                == selector.capability@ && ((forall|c: int|
                0 <= c < choices.len() ==> (#[trigger] choices[c]).capability@ != selector.capability@) ==> played == selector) && (
            forall|c: int|
                0 <= c < choices.len() && (#[trigger] choices[c]).capability@ == selector.capability@ ==> played.adapter == Some(
                    choices[c].adapter,
                ) && played.model == choices[c].model),
        }
}

/// A workflow that credentials are granted to is its template, vessel by
/// vessel, with the stance and the agents that were asked for.
pub proof fn law_granted_workflows_are_dispatched_as_asked(
    workflow: EffectiveWorkflow,
    template: Seq<WorkflowVessel>,
    stance: Option<Seq<char>>,
    choices: Seq<AgentOverride>,
    repositories: Seq<Seq<char>>,
    grants: Option<GrantReading>,
)
    requires
        grants_decided(WorkflowStep::Resolved { workflow }, template, stance, choices, repositories, grants),
        forall|c: int, d: int|
            0 <= c < d < choices.len() ==> (#[trigger] choices[c]).capability@ != (#[trigger] choices[d]).capability@,
    ensures
        workflow.vessels@.len() == template.len(),
        forall|v: int| 0 <= v < template.len() ==> dispatched(#[trigger] workflow.vessels@[v], template[v], stance, choices),
{
    let vessels = choose|vessels: Seq<WorkflowVessel>|
        #[trigger] vessels_admitted(vessels, template, stance, choices) && granting(
            WorkflowStep::Resolved { workflow },
            vessels,
            repositories,
            grants,
        );
    assert(workflow.vessels@ == vessels);
    assert forall|v: int| 0 <= v < template.len() implies dispatched(
        #[trigger] workflow.vessels@[v],
        template[v],
        stance,
        choices,
    ) by {
        let after = vessels[v];
        let before = template[v];
        assert(after.crew@ == crew_after(before.crew@, choices));
        if before.crew@.len() > 0 {
            lemma_crew_after(before.crew@, choices, 0);
        } else {
            lemma_empty_crew(before.crew@, choices);
        }
        assert forall|m: int| 0 <= m < before.crew@.len() implies match #[trigger] before.crew@[m] {
            CrewSource::Tool => after.crew@[m] is Tool,
            CrewSource::Agent { selector } => after.crew@[m] matches CrewSource::Agent { selector: played } && played.capability@
                == selector.capability@ && ((forall|c: int|
                0 <= c < choices.len() ==> (#[trigger] choices[c]).capability@ != selector.capability@) ==> played == selector) && (
            forall|c: int|
                0 <= c < choices.len() && (#[trigger] choices[c]).capability@ == selector.capability@ ==> played.adapter == Some(
                    choices[c].adapter,
                ) && played.model == choices[c].model),
        } by {
            lemma_crew_after(before.crew@, choices, m);
        }
    }
}

/// The workflow that a convoy is let in with is the template, vessel by
/// vessel, with the stance and the agents that were asked for; no choice is
/// made twice.
pub proof fn law_workflows_are_dispatched_as_asked(
    workflow: EffectiveWorkflow,
    name: Seq<char>,
    stance: Option<Seq<char>>,
    choices: Seq<AgentOverride>,
    repositories: Seq<Seq<char>>,
    rd: WorkflowReadings,
)
    requires
        workflow_decided(WorkflowStep::Resolved { workflow }, name, stance, choices, repositories, rd),
    ensures
        rd.template matches Some(Ok(template)) && workflow.vessels@.len() == template@.len() && forall|v: int|
            0 <= v < template@.len() ==> dispatched(#[trigger] workflow.vessels@[v], template@[v], stance, choices),
        forall|c: int, d: int|
            0 <= c < d < choices.len() ==> (#[trigger] choices[c]).capability@ != (#[trigger] choices[d]).capability@,
{
    let template = rd.template->0->Ok_0@;
    let problems = override_problems(choices, capabilities(template));
    assert forall|c: int, d: int| 0 <= c < d < choices.len() implies (#[trigger] choices[c]).capability@ != (
    #[trigger] choices[d]).capability@ by {
        lemma_none(problems, d);
        let earlier = crate::workflow::chosen_capabilities(choices.take(d));
        assert(earlier[c] == choices[c].capability@);
    }
    law_granted_workflows_are_dispatched_as_asked(workflow, template, stance, choices, repositories, rd.grants);
}

/// A choice for a capability that no agent of the workflow has is refused.
pub proof fn law_choices_concern_an_agent(
    workflow: EffectiveWorkflow,
    name: Seq<char>,
    stance: Option<Seq<char>>,
    choices: Seq<AgentOverride>,
    repositories: Seq<Seq<char>>,
    rd: WorkflowReadings,
    c: int,
)
    requires
        workflow_decided(WorkflowStep::Resolved { workflow }, name, stance, choices, repositories, rd),
        0 <= c < choices.len(),
    ensures
        rd.template matches Some(Ok(template)) && exists|v: int, m: int|
            0 <= v < template@.len() && 0 <= m < template@[v].crew@.len() && (#[trigger] template@[v].crew@[m] matches CrewSource::Agent {
                selector,
            } && selector.capability@ == choices[c].capability@),
{
    let template = rd.template->0->Ok_0@;
    lemma_none(override_problems(choices, capabilities(template)), c);
    lemma_capabilities(template, choices[c].capability@);
}

proof fn lemma_empty_crew(crew: Seq<CrewSource>, choices: Seq<AgentOverride>)
    requires
        crew.len() == 0,
    ensures
        crew_after(crew, choices).len() == 0,
    decreases choices.len(),
{
    if choices.len() > 0 {
        lemma_empty_crew(crew, choices.drop_last());
    }
}

/// A workflow in whose crew nobody looks over the work of another is kept off
/// every repository that is a fork which wants that, and off those of which
/// it is not known.
pub proof fn law_forks_keep_their_review(
    workflow: EffectiveWorkflow,
    name: Seq<char>,
    stance: Option<Seq<char>>,
    choices: Seq<AgentOverride>,
    repositories: Seq<Seq<char>>,
    rd: WorkflowReadings,
    f: int,
)
    requires
        workflow_decided(WorkflowStep::Resolved { workflow }, name, stance, choices, repositories, rd),
        rd.template matches Some(Ok(template)) && forall|v: int, m: int|
            0 <= v < template@.len() && 0 <= m < template@[v].crew@.len() ==> (#[trigger] template@[v].crew@[m] matches CrewSource::Agent {
                selector,
            } ==> selector.capability@ != "review"@ && selector.capability@ != "code-review"@),
    ensures
        rd.forks matches Some(forks) && (0 <= f < forks@.len() ==> forks@[f].reviewed_fork == Ok::<bool, String>(false)),
{
    let template = rd.template->0->Ok_0@;
    if has_review(template) {
        let v = choose|v: int| 0 <= v < template.len() && crate::workflow::reviewed_in_crew(#[trigger] template[v]);
        let m = choose|m: int| 0 <= m < template[v].crew@.len() && crate::workflow::reviews(#[trigger] template[v].crew@[m]);
        assert(template[v].crew@[m] is Agent);
    }
    let forks = rd.forks->0@;
    if 0 <= f < forks.len() {
        lemma_none(fork_problems(forks, name), f);
    }
}

proof fn lemma_granted(grants: Seq<CredentialGrant>, name: Seq<char>)
    ensures
        holds(granted(grants), name) <==> exists|g: int, c: int|
            0 <= g < grants.len() && 0 <= c < grants[g].credentials@.len() && (#[trigger] grants[g].credentials@[c])@ == name,
    decreases grants.len(),
{
    if grants.len() > 0 {
        let front = grants.drop_last();
        lemma_granted(front, name);
        let before = granted(front);
        let own = strs(grants.last().credentials@);
        let all = granted(grants);
        if holds(all, name) {
            let i = choose|i: int| 0 <= i < all.len() && #[trigger] all[i] == name;
            if i < before.len() {
                assert(before[i] == name);
                let (g, c) = choose|g: int, c: int|
                    0 <= g < front.len() && 0 <= c < front[g].credentials@.len() && (#[trigger] front[g].credentials@[c])@ == name;
                assert(grants[g].credentials@[c]@ == name);
            } else {
                assert(own[i - before.len()] == name);
                assert(grants[grants.len() - 1].credentials@[i - before.len()]@ == name);
            }
        }
        if exists|g: int, c: int|
            0 <= g < grants.len() && 0 <= c < grants[g].credentials@.len() && (#[trigger] grants[g].credentials@[c])@ == name {
            let (g, c) = choose|g: int, c: int|
                0 <= g < grants.len() && 0 <= c < grants[g].credentials@.len() && (#[trigger] grants[g].credentials@[c])@ == name;
            if g < front.len() {
                assert(front[g].credentials@[c]@ == name);
                assert(holds(before, name));
                let i = choose|i: int| 0 <= i < before.len() && #[trigger] before[i] == name;
                assert(all[i] == name);
            } else {
                assert(own[c] == name);
                assert(all[before.len() + c] == name);
            }
        }
    }
}

/// A vessel has exactly the credentials that the grants which select it hold,
/// each of them exists, and a grant is worth nothing where it is not listed.
pub proof fn law_vessels_have_what_they_are_granted(
    workflow: EffectiveWorkflow,
    template: Seq<WorkflowVessel>,
    stance: Option<Seq<char>>,
    choices: Seq<AgentOverride>,
    repositories: Seq<Seq<char>>,
    listed: Option<GrantReading>,
    v: int,
    credential: Seq<char>,
)
    requires
        grants_decided(WorkflowStep::Resolved { workflow }, template, stance, choices, repositories, listed),
        0 <= v < workflow.vessels@.len(),
    ensures
        workflow.credentials@.len() == workflow.vessels@.len(),
        listed matches Some(GrantReading::Listed { grants, specs }) && {
            let owned = exists|k: int|
                0 <= k < workflow.credentials@[v].credential_refs@.len() && (#[trigger] workflow.credentials@[v].credential_refs@[k])@
                    == credential;
            &&& v < grants@.len() ==> owned == exists|g: int, c: int|
                0 <= g < grants@[v]@.len() && 0 <= c < grants@[v]@[g].credentials@.len() && (#[trigger] grants@[v]@[g].credentials@[c])@
                    == credential
            &&& v >= grants@.len() ==> !owned
            &&& owned ==> specs@.contains(credential)
        },
{
    let vessels = choose|vessels: Seq<WorkflowVessel>|
        #[trigger] vessels_admitted(vessels, template, stance, choices) && granting(
            WorkflowStep::Resolved { workflow },
            vessels,
            repositories,
            listed,
        );
    let grants = listed->0->grants@;
    let specs = listed->0->specs@;
    assert(all_granted(workflow.credentials@, vessels, grants, repositories));
    let mine = workflow.credentials@[v];
    let own = grants_at(grants, v);
    assert(crate::workflow::credentials_of(
        mine,
        own,
        crate::workflow::vessel_repos(crate::workflow::named_repos(vessels[v].repository_refs), repositories),
    ));
    let all = granted(own);
    let names = sorted_unique(all);
    lemma_sorted_unique_exists(all);
    lemma_granted(own, credential);
    assert(strs(mine.credential_refs@) == names);
    lemma_offered_refs(mine.credential_refs@, credential);
    lemma_none(grant_problems(vessels.len(), grants, specs), v);
    lemma_known(names, specs);
    if holds(names, credential) {
        let i = choose|i: int| 0 <= i < names.len() && #[trigger] names[i] == credential;
        assert(specs.contains(names[i]));
    }
}

proof fn lemma_scope(grants: Seq<CredentialGrant>, credential: Seq<char>, repositories: Seq<Seq<char>>, repository: Seq<char>)
    ensures
        holds(scope(grants, credential, repositories), repository) <==> holds(repositories, repository) && covers(
            grants,
            credential,
            repository,
        ),
    decreases repositories.len(),
{
    if repositories.len() > 0 {
        let front = repositories.drop_last();
        lemma_scope(grants, credential, front, repository);
        let before = scope(grants, credential, front);
        let all = scope(grants, credential, repositories);
        let last = repositories.last();
        if holds(all, repository) {
            let i = choose|i: int| 0 <= i < all.len() && #[trigger] all[i] == repository;
            if i < before.len() {
                assert(before[i] == repository);
                let j = choose|j: int| 0 <= j < front.len() && #[trigger] front[j] == repository;
                assert(repositories[j] == repository);
            } else {
                assert(repositories[repositories.len() - 1] == repository);
            }
        }
        if holds(repositories, repository) && covers(grants, credential, repository) {
            let j = choose|j: int| 0 <= j < repositories.len() && #[trigger] repositories[j] == repository;
            if j < front.len() {
                assert(front[j] == repository);
                let i = choose|i: int| 0 <= i < before.len() && #[trigger] before[i] == repository;
                assert(all[i] == repository);
            } else {
                assert(all[before.len() as int] == repository);
            }
        }
    }
}

/// The repositories for which a vessel has a credential are those that it
/// works on, its own or else all of them, and that a grant of the credential
/// is for, because it names the repository or none at all.
pub proof fn law_credentials_are_for_granted_repositories(
    workflow: EffectiveWorkflow,
    template: Seq<WorkflowVessel>,
    stance: Option<Seq<char>>,
    choices: Seq<AgentOverride>,
    repositories: Seq<Seq<char>>,
    listed: Option<GrantReading>,
    v: int,
    k: int,
    repository: Seq<char>,
)
    requires
        grants_decided(WorkflowStep::Resolved { workflow }, template, stance, choices, repositories, listed),
        0 <= v < workflow.vessels@.len(),
        0 <= k < workflow.credentials@[v].credential_refs@.len(),
    ensures
        workflow.credentials@[v].credential_scopes@.len() == workflow.credentials@[v].credential_refs@.len(),
        workflow.credentials@[v].credential_scopes@[k].credential@ == workflow.credentials@[v].credential_refs@[k]@,
        listed matches Some(GrantReading::Listed { grants, specs }) && v < grants@.len() && ({
            let mine = workflow.credentials@[v].credential_scopes@[k];
            let works_on = match workflow.vessels@[v].repository_refs {
                Some(own) => exists|r: int| 0 <= r < own@.len() && (#[trigger] own@[r])@ == repository,
                None => exists|r: int| 0 <= r < repositories.len() && #[trigger] repositories[r] == repository,
            };
            (exists|r: int| 0 <= r < mine.repositories@.len() && (#[trigger] mine.repositories@[r])@ == repository) <==> works_on
                && exists|g: int|
                0 <= g < grants@[v]@.len() && (exists|c: int|
                    0 <= c < grants@[v]@[g].credentials@.len() && (#[trigger] grants@[v]@[g].credentials@[c])@ == mine.credential@) && ((
                #[trigger] grants@[v]@[g]).repositories@.len() == 0 || exists|r: int|
                    0 <= r < grants@[v]@[g].repositories@.len() && (#[trigger] grants@[v]@[g].repositories@[r])@ == repository)
        }),
{
    let vessels = choose|vessels: Seq<WorkflowVessel>|
        #[trigger] vessels_admitted(vessels, template, stance, choices) && granting(
            WorkflowStep::Resolved { workflow },
            vessels,
            repositories,
            listed,
        );
    let grants = listed->0->grants@;
    assert(all_granted(workflow.credentials@, vessels, grants, repositories));
    let all = workflow.credentials@[v];
    let own = grants_at(grants, v);
    let works_on = crate::workflow::vessel_repos(crate::workflow::named_repos(vessels[v].repository_refs), repositories);
    assert(crate::workflow::credentials_of(all, own, works_on));
    lemma_sorted_unique_exists(granted(own));
    if v >= grants.len() {
        assert(granted(own).len() == 0);
        assert(strs(all.credential_refs@)[k] == all.credential_refs@[k]@);
        assert(holds(sorted_unique(granted(own)), all.credential_refs@[k]@));
        assert(false);
    }
    let mine = all.credential_scopes@[k];
    assert(strs(all.credential_refs@)[k] == all.credential_refs@[k]@);
    lemma_scope(own, mine.credential@, works_on, repository);
    lemma_offered_refs(mine.repositories@, repository);
    match vessels[v].repository_refs {
        Some(named) => {
            lemma_sorted_unique_exists(strs(named@));
            lemma_offered_refs(named@, repository);
        },
        None => {
            lemma_sorted_unique_exists(repositories);
        },
    }
    assert forall|g: int| 0 <= g < own.len() implies (holds(strs((#[trigger] own[g]).credentials@), mine.credential@) <==> exists|c: int|
        0 <= c < own[g].credentials@.len() && (#[trigger] own[g].credentials@[c])@ == mine.credential@) && (holds(
        strs(own[g].repositories@),
        repository,
    ) <==> exists|r: int| 0 <= r < own[g].repositories@.len() && (#[trigger] own[g].repositories@[r])@ == repository) by {
        lemma_offered_refs(own[g].credentials@, mine.credential@);
        lemma_offered_refs(own[g].repositories@, repository);
    }
}

proof fn lemma_crew_capability(crew: Seq<CrewSource>, capability: Seq<char>) -> (m: int)
    requires
        holds(crate::workflow::crew_capabilities(crew), capability),
    ensures
        0 <= m < crew.len(),
        crew[m] matches CrewSource::Agent { selector } && selector.capability@ == capability,
    decreases crew.len(),
{
    let all = crate::workflow::crew_capabilities(crew);
    let before = crate::workflow::crew_capabilities(crew.drop_last());
    let i = choose|i: int| 0 <= i < all.len() && #[trigger] all[i] == capability;
    if i < before.len() {
        assert(before[i] == capability);
        lemma_crew_capability(crew.drop_last(), capability)
    } else {
        crew.len() - 1
    }
}

proof fn lemma_capabilities(vessels: Seq<WorkflowVessel>, capability: Seq<char>)
    requires
        holds(capabilities(vessels), capability),
    ensures
        exists|v: int, m: int|
            0 <= v < vessels.len() && 0 <= m < vessels[v].crew@.len() && (#[trigger] vessels[v].crew@[m] matches CrewSource::Agent {
                selector,
            } && selector.capability@ == capability),
    decreases vessels.len(),
{
    let front = vessels.drop_last();
    let all = capabilities(vessels);
    let before = capabilities(front);
    let own = crate::workflow::crew_capabilities(vessels.last().crew@);
    let i = choose|i: int| 0 <= i < all.len() && #[trigger] all[i] == capability;
    if i < before.len() {
        assert(before[i] == capability);
        lemma_capabilities(front, capability);
        let (v, m) = choose|v: int, m: int|
            0 <= v < front.len() && 0 <= m < front[v].crew@.len() && (#[trigger] front[v].crew@[m] matches CrewSource::Agent {
                selector,
            } && selector.capability@ == capability);
        assert(vessels[v].crew@[m] == front[v].crew@[m]);
    } else {
        assert(own[i - before.len()] == capability);
        let m = lemma_crew_capability(vessels.last().crew@, capability);
        assert(vessels[vessels.len() - 1].crew@[m] is Agent);
    }
}

proof fn lemma_offered_refs(list: Seq<String>, name: Seq<char>)
    ensures
        holds(strs(list), name) <==> exists|j: int| 0 <= j < list.len() && (#[trigger] list[j])@ == name,
{
    if holds(strs(list), name) {
        let j = choose|j: int| 0 <= j < strs(list).len() && #[trigger] strs(list)[j] == name;
        assert(list[j]@ == name);
    }
    if exists|j: int| 0 <= j < list.len() && (#[trigger] list[j])@ == name {
        let j = choose|j: int| 0 <= j < list.len() && (#[trigger] list[j])@ == name;
        assert(strs(list)[j] == name);
    }
}

proof fn lemma_known(names: Seq<Seq<char>>, known: Set<Seq<char>>)
    requires
        crate::workflow::first_missing(names, known) is None,
    ensures
        forall|i: int| 0 <= i < names.len() ==> known.contains(#[trigger] names[i]),
    decreases names.len(),
{
    if names.len() > 0 {
        let rest = names.drop_first();
        lemma_known(rest, known);
        assert forall|i: int| 0 <= i < names.len() implies known.contains(#[trigger] names[i]) by {
            if i > 0 {
                assert(names[i] == rest[i - 1]);
            }
        }
    }
}

/// What a name is asked for says the project, each issue, and the instruction
/// where there is one.
pub proof fn law_names_are_asked_for_what_is_to_be_done(display_name: Seq<char>, issue: NamedIssue, instruction: Seq<char>)
    ensures
        names_context(display_name, Seq::empty(), None) == "Project: "@ + display_name,
        names_context(display_name, Seq::empty(), Some(instruction)) == "Project: "@ + display_name + "\n"@ + ("Instruction: "@
            + instruction),
        issue.body matches Some(body) ==> names_context(display_name, seq![issue], None) == "Project: "@ + display_name + "\n"@ + (
        "Issue "@ + issue.id@ + ": "@ + issue.title@ + "\n"@ + body@),
{
    reveal_with_fuel(crate::text::join, 3);
    assert(crate::preparation::issue_contexts(seq![issue]) =~= seq![crate::naming::issue_context(issue)]);
}

/// Choosing agents leaves every vessel its stance and crew size: a tool stays a
/// tool, and an agent keeps what it can do.
pub proof fn law_choices_leave_everything_else(
    after: Seq<WorkflowVessel>,
    before: Seq<WorkflowVessel>,
    choice: AgentOverride,
    i: int,
    k: int,
)
    requires
        vessels_overridden(after, before, choice),
        0 <= i < before.len(),
        0 <= k < before[i].crew@.len(),
    ensures
        after.len() == before.len(),
        after[i].stance == before[i].stance,
        after[i].crew@.len() == before[i].crew@.len(),
        before[i].crew@[k] is Tool ==> after[i].crew@[k] is Tool,
        before[i].crew@[k] matches CrewSource::Agent { selector } ==> (after[i].crew@[k] matches CrewSource::Agent { selector: now }
            && now.capability@ == selector.capability@ && (selector.capability@ == choice.capability@ ==> opt(now.adapter) == Some(
            choice.adapter@,
        ) && now.model == choice.model) && (selector.capability@ != choice.capability@ ==> now == selector)),
{
    assert(after[i].stance == before[i].stance);
}

} // verus!
