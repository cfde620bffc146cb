//! Preparing a convoy for admission: what has to be found out, in which order,
//! and what is refused on the way.
use std::sync::Arc;
use vstd::prelude::*;

use crate::admission::{copy_inputs, input_views, selector_views, ConvoyStartIntent, IssueSelector, SelectorView};
use crate::admission_workflow::{resolve_convoy_admission_workflow, workflow_decided, WorkflowReadings, WorkflowStep};
use crate::change_requests::ResolvedRequest;
use crate::model::PlacementDecision;
use crate::naming::{
    admission_value, checked_branch, checked_convoy_name, convoy_fallback_slug, convoy_issue_name_context,
    convoy_issues_fallback_slug, fallback_slug, issue_context, issues_slug, not_ready_text, project_not_ready_error,
    required_admission_value, trim_hyphens, validate_convoy_branch, validate_convoy_name, NamedIssue, ReadFailure,
};
use crate::placement::{PlacementNeeds, PlacementPolicy, PolicyReading};
use crate::placing::{
    is_whole, law_placed_workflows_are_served, placement_decided, resolve_and_validate_convoy_placement, served, Placement, PlacementAsk,
    PlacementAskView, PlacementReadings, PlacementStep,
};
use crate::projects::{repository_views, ConvoyRepository, RepositoryView};
use crate::text::{concat2, concat3, concat4, concat9, holds, join, join_strs, opt, opt_clone, str_eq, strs, strs_hold};
use crate::workflow::{any_stance, has_stance, vessels_admitted, EffectiveWorkflow, WorkflowVessel};

verus! {

/// What is known of the project of a convoy.
#[derive(Debug, PartialEq, Eq)]
pub struct ProjectReading {
    pub display_name: String,
    pub default_workflow_ref: String,
}

/// The names that were made up for a convoy.
#[derive(Debug, PartialEq, Eq)]
pub struct ConvoyNames {
    pub name: String,
    pub branch: String,
}

/// What was found out so far, each where it was asked for.
#[derive(Default, Debug)]
pub struct AdmissionReadings {
    pub project: Option<Result<ProjectReading, ReadFailure>>,
    pub repositories: Option<Result<Vec<ConvoyRepository>, String>>,
    pub change_request: Option<Result<ResolvedRequest, String>>,
    /// The issues asked for, in turn.
    pub issues: Vec<Result<NamedIssue, String>>,
    pub workflow: WorkflowReadings,
    /// Names, or nothing where none could be made up.
    pub names: Option<Option<ConvoyNames>>,
    pub placement: PlacementReadings,
}

/// What has to be found out next.
#[derive(Debug, PartialEq, Eq)]
#[allow(inconsistent_fields)]
pub enum AdmissionAsk {
    Project { project_ref: String },
    Repositories { project_ref: String },
    ChangeRequest { id: String, repositories: Vec<String> },
    /// The issue at this place of the start's issues.
    Issue { position: usize },
    Template { workflow_ref: String },
    /// Which of these repositories are forks?
    Forks { repositories: Vec<String> },
    /// Which grants select each of these vessels, in a project on these
    /// repositories?
    Grants { project_ref: String, vessels: Vec<WorkflowVessel>, repositories: Vec<String> },
    /// Make up names from this text.
    Names { context: String },
    Placement { ask: PlacementAsk },
}

/// A convoy that may be admitted.
#[derive(Debug, PartialEq, Eq)]
pub struct ConvoyAdmission {
    pub role: String,
    pub branch: String,
    pub project_ref: String,
    pub workflow_ref: String,
    /// The workflow as it is dispatched.
    pub workflow: EffectiveWorkflow,
    pub repositories: Vec<ConvoyRepository>,
    /// Which of the start's issues it carries.
    pub issues: Vec<usize>,
    /// The change request that it adopts.
    pub change_request: Option<ResolvedRequest>,
    pub inputs: Vec<(String, String)>,
    pub instruction: Option<String>,
    /// Who dispatches it; the namespace's own principal where nobody is named.
    pub dispatching_principal: Option<String>,
    pub placement_policy: Option<String>,
    pub placement: Option<PlacementPolicy>,
    pub placement_decision: Option<Arc<PlacementDecision>>,
}

/// What comes next.
#[derive(Debug, PartialEq, Eq)]
pub enum AdmissionStep {
    Ask { ask: AdmissionAsk },
    Refuse { message: String },
    Admitted { admission: ConvoyAdmission },
}

pub enum AskView {
    Project(Seq<char>),
    Repositories(Seq<char>),
    ChangeRequest(Seq<char>, Seq<Seq<char>>),
    Issue(int),
    Template(Seq<char>),
    Forks(Seq<Seq<char>>),
    Grants(Seq<char>, Seq<WorkflowVessel>, Seq<Seq<char>>),
    Names(Seq<char>),
    Placement(PlacementAskView),
}

pub struct AdmissionView {
    pub role: Seq<char>,
    pub branch: Seq<char>,
    pub project_ref: Seq<char>,
    pub workflow_ref: Seq<char>,
    pub workflow: EffectiveWorkflow,
    pub repositories: Seq<RepositoryView>,
    pub issues: Seq<int>,
    pub change_request: Option<ResolvedRequest>,
    pub inputs: Seq<(Seq<char>, Seq<char>)>,
    pub instruction: Option<Seq<char>>,
    pub dispatching_principal: Option<Seq<char>>,
    pub placement_policy: Option<Seq<char>>,
    pub placement: Option<PlacementPolicy>,
    pub placement_decision: Option<PlacementDecision>,
}

pub enum AdmissionStepView {
    Ask(AskView),
    Refuse(Seq<char>),
    Admitted(AdmissionView),
}

/// Positions as numbers.
pub open spec fn positions(v: Seq<usize>) -> Seq<int> {
    Seq::new(v.len(), |i: int| v[i] as int)
}

impl View for AdmissionAsk {
    type V = AskView;

    open spec fn view(&self) -> AskView {
        match *self {
            AdmissionAsk::Project { project_ref } => AskView::Project(project_ref@),
            AdmissionAsk::Repositories { project_ref } => AskView::Repositories(project_ref@),
            AdmissionAsk::ChangeRequest { id, repositories } => AskView::ChangeRequest(id@, strs(repositories@)),
            AdmissionAsk::Issue { position } => AskView::Issue(position as int),
            AdmissionAsk::Template { workflow_ref } => AskView::Template(workflow_ref@),
            AdmissionAsk::Forks { repositories } => AskView::Forks(strs(repositories@)),
            AdmissionAsk::Grants { project_ref, vessels, repositories } => AskView::Grants(
                project_ref@,
                vessels@,
                strs(repositories@),
            ),
            AdmissionAsk::Names { context } => AskView::Names(context@),
            AdmissionAsk::Placement { ask } => AskView::Placement(ask@),
        }
    }
}

impl View for ConvoyAdmission {
    type V = AdmissionView;

    open spec fn view(&self) -> AdmissionView {
        AdmissionView {
            role: self.role@,
            branch: self.branch@,
            project_ref: self.project_ref@,
            workflow_ref: self.workflow_ref@,
            workflow: self.workflow,
            repositories: repository_views(self.repositories@),
            issues: positions(self.issues@),
            change_request: self.change_request,
            inputs: input_views(self.inputs@),
            instruction: opt(self.instruction),
            dispatching_principal: opt(self.dispatching_principal),
            placement_policy: opt(self.placement_policy),
            placement: self.placement,
            placement_decision: match self.placement_decision {
                Some(decision) => Some(*decision),
                None => None,
            },
        }
    }
}

impl View for AdmissionStep {
    type V = AdmissionStepView;

    open spec fn view(&self) -> AdmissionStepView {
        match *self {
            AdmissionStep::Ask { ask } => AdmissionStepView::Ask(ask@),
            AdmissionStep::Refuse { message } => AdmissionStepView::Refuse(message@),
            AdmissionStep::Admitted { admission } => AdmissionStepView::Admitted(admission@),
        }
    }
}

fn refuse(message: String) -> (r: AdmissionStep)
    ensures
        r@ == AdmissionStepView::Refuse(message@),
{
    AdmissionStep::Refuse { message }
}

/// The keys of repositories.
pub open spec fn repo_refs(list: Seq<RepositoryView>) -> Seq<Seq<char>> {
    Seq::new(list.len(), |i: int| list[i].repo_ref)
}

/// The first of some keys that is not among others.
pub open spec fn first_outside(keys: Seq<Seq<char>>, known: Seq<Seq<char>>) -> Option<Seq<char>>
    decreases keys.len(),
{
    if keys.len() == 0 {
        None
    } else if !holds(known, keys[0]) {
        Some(keys[0])
    } else {
        first_outside(keys.drop_first(), known)
    }
}

/// The repositories with one of some keys.
pub open spec fn retained(list: Seq<RepositoryView>, keys: Seq<Seq<char>>) -> Seq<RepositoryView>
    decreases list.len(),
{
    if list.len() == 0 {
        Seq::empty()
    } else if holds(keys, list.last().repo_ref) {
        retained(list.drop_last(), keys).push(list.last())
    } else {
        retained(list.drop_last(), keys)
    }
}

/// The repositories of a convoy: those of its project, or those of them that
/// were chosen.
pub open spec fn chosen_repositories(
    list: Seq<RepositoryView>,
    selected: Option<Seq<Seq<char>>>,
    project: Seq<char>,
) -> Result<Seq<RepositoryView>, Seq<char>> {
    match selected {
        None => Ok(list),
        Some(keys) => match first_outside(keys, repo_refs(list)) {
            Some(missing) => Err("standing convoy selects repository "@ + missing + " outside project "@ + project),
            None => if retained(list, keys).len() == 0 {
                Err("standing convoy must select at least one project repository"@)
            } else {
                Ok(retained(list, keys))
            },
        },
    }
}

/// The keys that were chosen.
pub open spec fn chosen_keys(selected: Option<Vec<String>>) -> Option<Seq<Seq<char>>> {
    match selected {
        Some(keys) => Some(strs(keys@)),
        None => None,
    }
}

/// The keys of repositories, in turn.
pub fn refs_of(list: &Vec<ConvoyRepository>) -> (r: Vec<String>)
    ensures
        strs(r@) == repo_refs(repository_views(list@)),
{
    let mut r: Vec<String> = Vec::new();
    let mut i: usize = 0;
    while i < list.len()
        invariant
            i <= list@.len(),
            r@.len() == i,
            forall|k: int| 0 <= k < i ==> (#[trigger] r@[k])@ == list@[k].repo_ref@,
        decreases list.len() - i,
    {
        r.push(list[i].repo_ref.clone());
        i = i + 1;
    }
    assert(strs(r@) =~= repo_refs(repository_views(list@)));
    r
}

fn find_outside(keys: &Vec<String>, known: &Vec<String>) -> (r: Option<String>)
    ensures
        opt(r) == first_outside(strs(keys@), strs(known@)),
{
    let mut i: usize = 0;
    assert(strs(keys@).skip(0) =~= strs(keys@));
    while i < keys.len()
        invariant
            i <= keys@.len(),
            first_outside(strs(keys@), strs(known@)) == first_outside(strs(keys@).skip(i as int), strs(known@)),
        decreases keys.len() - i,
    {
        assert(strs(keys@).skip(i as int)[0] == keys@[i as int]@);
        assert(strs(keys@).skip(i as int).drop_first() =~= strs(keys@).skip(i + 1));
        if !strs_hold(known, keys[i].as_str()) {
            return Some(keys[i].clone());
        }
        i = i + 1;
    }
    None
}

fn copy_repositories(list: &Vec<ConvoyRepository>, keys: &Option<Vec<String>>) -> (r: Vec<ConvoyRepository>)
    ensures
        repository_views(r@) == match chosen_keys(*keys) {
            None => repository_views(list@),
            Some(keys) => retained(repository_views(list@), keys),
        },
{
    let ghost all = repository_views(list@);
    let mut r: Vec<ConvoyRepository> = Vec::new();
    let mut i: usize = 0;
    assert(repository_views(r@) =~= Seq::<RepositoryView>::empty());
    assert(all.take(0) =~= Seq::<RepositoryView>::empty());
    while i < list.len()
        invariant
            i <= list@.len(),
            all == repository_views(list@),
            repository_views(r@) == match chosen_keys(*keys) {
                None => all.take(i as int),
                Some(keys) => retained(all.take(i as int), keys),
            },
        decreases list.len() - i,
    {
        assert(all.take(i + 1).drop_last() =~= all.take(i as int));
        assert(all.take(i + 1).last() == list@[i as int]@);
        let kept = match keys {
            None => true,
            Some(keys) => strs_hold(keys, list[i].repo_ref.as_str()),
        };
        if kept {
            let ghost was = repository_views(r@);
            let copy = list[i].copy();
            r.push(copy);
            assert(repository_views(r@) =~= was.push(list@[i as int]@));
            assert(all.take(i + 1) =~= all.take(i as int).push(list@[i as int]@));
        }
        i = i + 1;
    }
    assert(all.take(all.len() as int) =~= all);
    r
}

/// The project and the repositories of a convoy, or what comes first.
pub open spec fn scope_of(
    namespace: Seq<char>,
    intent: ConvoyStartIntent,
    selected: Option<Vec<String>>,
    rd: AdmissionReadings,
) -> Result<(Seq<char>, Seq<RepositoryView>), AdmissionStepView> {
    match admission_value(intent.project_ref@, "project"@) {
        Err(e) => Err(AdmissionStepView::Refuse(e)),
        Ok(project) => match rd.project {
            None => Err(AdmissionStepView::Ask(AskView::Project(project))),
            Some(Err(failure)) => Err(AdmissionStepView::Refuse(not_ready_text(namespace, project, failure))),
            Some(Ok(_)) => match rd.repositories {
                None => Err(AdmissionStepView::Ask(AskView::Repositories(project))),
                Some(Err(e)) => Err(AdmissionStepView::Refuse(e@)),
                Some(Ok(list)) => match chosen_repositories(repository_views(list@), chosen_keys(selected), project) {
                    Err(e) => Err(AdmissionStepView::Refuse(e)),
                    Ok(kept) => if intent.change_request is Some && intent.branch is Some {
                        Err(
                            AdmissionStepView::Refuse(
                                "change request adoption derives the branch from --pr; do not also provide a branch"@,
                            ),
                        )
                    } else if intent.change_request is Some && intent.issues@.len() > 0 {
                        Err(
                            AdmissionStepView::Refuse(
                                "change request adoption is PR-first; do not also provide issues"@,
                            ),
                        )
                    } else {
                        Ok((project, kept))
                    },
                },
            },
        },
    }
}

fn admission_scope(
    namespace: &str,
    intent: &ConvoyStartIntent,
    selected: &Option<Vec<String>>,
    rd: &AdmissionReadings,
) -> (r: Result<(String, Vec<ConvoyRepository>), AdmissionStep>)
    ensures
        match r {
            Ok((project, list)) => scope_of(namespace@, *intent, *selected, *rd) == Ok::<
                (Seq<char>, Seq<RepositoryView>),
                AdmissionStepView,
            >((project@, repository_views(list@))),
            Err(step) => scope_of(namespace@, *intent, *selected, *rd) == Err::<
                (Seq<char>, Seq<RepositoryView>),
                AdmissionStepView,
            >(step@),
        },
{
    let project = match required_admission_value(intent.project_ref.as_str(), "project") {
        Err(e) => {
            return Err(refuse(e));
        },
        Ok(project) => project,
    };
    match &rd.project {
        None => {
            return Err(AdmissionStep::Ask { ask: AdmissionAsk::Project { project_ref: project } });
        },
        Some(Err(failure)) => {
            return Err(refuse(project_not_ready_error(namespace, project.as_str(), failure)));
        },
        Some(Ok(_)) => {},
    }
    let list = match &rd.repositories {
        None => {
            return Err(AdmissionStep::Ask { ask: AdmissionAsk::Repositories { project_ref: project } });
        },
        Some(Err(e)) => {
            return Err(refuse(e.clone()));
        },
        Some(Ok(list)) => list,
    };
    match selected {
        None => {},
        Some(keys) => {
            let known = refs_of(list);
            match find_outside(keys, &known) {
                Some(missing) => {
                    return Err(
                        refuse(
                            concat4(
                                "standing convoy selects repository ",
                                missing.as_str(),
                                " outside project ",
                                project.as_str(),
                            ),
                        ),
                    );
                },
                None => {},
            }
        },
    }
    let kept = copy_repositories(list, selected);
    assert(repository_views(kept@).len() == kept@.len());
    if selected.is_some() && kept.len() == 0 {
        return Err(refuse("standing convoy must select at least one project repository".to_owned()));
    }
    if intent.change_request.is_some() && intent.branch.is_some() {
        return Err(
            refuse("change request adoption derives the branch from --pr; do not also provide a branch".to_owned()),
        );
    }
    if intent.change_request.is_some() && intent.issues.len() > 0 {
        return Err(refuse("change request adoption is PR-first; do not also provide issues".to_owned()));
    }
    Ok((project, kept))
}

/// The first repository of a key starts from, and goes back to, another branch.
pub open spec fn rebased(list: Seq<RepositoryView>, repo_ref: Seq<char>, base: Seq<char>) -> Seq<RepositoryView>
    decreases list.len(),
{
    if list.len() == 0 {
        list
    } else if list[0].repo_ref == repo_ref {
        list.update(0, RepositoryView { source_ref: base, target_ref: base, ..list[0] })
    } else {
        seq![list[0]] + rebased(list.drop_first(), repo_ref, base)
    }
}

proof fn lemma_rebased(list: Seq<RepositoryView>, repo_ref: Seq<char>, base: Seq<char>, at: int)
    requires
        0 <= at < list.len(),
        list[at].repo_ref == repo_ref,
        forall|k: int| 0 <= k < at ==> (#[trigger] list[k]).repo_ref != repo_ref,
    ensures
        rebased(list, repo_ref, base) == list.update(
            at,
            RepositoryView { source_ref: base, target_ref: base, ..list[at] },
        ),
    decreases list.len(),
{
    if at > 0 {
        let rest = list.drop_first();
        assert forall|k: int| 0 <= k < at - 1 implies (#[trigger] rest[k]).repo_ref != repo_ref by {
            assert(rest[k] == list[k + 1]);
        }
        assert(rest[at - 1] == list[at]);
        lemma_rebased(rest, repo_ref, base, at - 1);
        assert(seq![list[0]] + rebased(rest, repo_ref, base) =~= list.update(
            at,
            RepositoryView { source_ref: base, target_ref: base, ..list[at] },
        ));
    }
}

fn rebase(list: Vec<ConvoyRepository>, repo_ref: &str, base: &str) -> (r: Vec<ConvoyRepository>)
    requires
        holds(repo_refs(repository_views(list@)), repo_ref@),
    ensures
        repository_views(r@) == rebased(repository_views(list@), repo_ref@, base@),
{
    let ghost all = repository_views(list@);
    let mut r = list;
    let mut i: usize = 0;
    proof {
        let k = choose|k: int| 0 <= k < repo_refs(all).len() && repo_refs(all)[k] == repo_ref@;
        assert(r@[k].repo_ref@ == repo_ref@);
    }
    while i < r.len() && !str_eq(r[i].repo_ref.as_str(), repo_ref)
        invariant
            i <= r@.len(),
            all == repository_views(r@),
            forall|k: int| 0 <= k < i ==> (#[trigger] r@[k]).repo_ref@ != repo_ref@,
        decreases r.len() - i,
    {
        i = i + 1;
    }
    if i < r.len() {
        let old = r[i].copy();
        let ghost moved = RepositoryView { source_ref: base@, target_ref: base@, ..all[i as int] };
        let new = ConvoyRepository { source_ref: base.to_owned(), target_ref: base.to_owned(), ..old };
        r.set(i, new);
        proof {
            assert forall|k: int| 0 <= k < i implies (#[trigger] all[k]).repo_ref != repo_ref@ by {}
            lemma_rebased(all, repo_ref@, base@, i as int);
            assert(repository_views(r@) =~= all.update(i as int, moved));
        }
    }
    r
}

/// Where each selector stands first.
pub open spec fn distinct_at(selectors: Seq<SelectorView>) -> Seq<int>
    decreases selectors.len(),
{
    if selectors.len() == 0 {
        Seq::empty()
    } else if selectors.drop_last().contains(selectors.last()) {
        distinct_at(selectors.drop_last())
    } else {
        distinct_at(selectors.drop_last()).push(selectors.len() - 1)
    }
}

fn distinct_selectors(list: &Vec<IssueSelector>) -> (r: Vec<usize>)
    ensures
        positions(r@) == distinct_at(selector_views(list@)),
{
    let ghost all = selector_views(list@);
    let mut r: Vec<usize> = Vec::new();
    let mut i: usize = 0;
    assert(positions(r@) =~= distinct_at(all.take(0)));
    while i < list.len()
        invariant
            i <= list@.len(),
            all == selector_views(list@),
            positions(r@) == distinct_at(all.take(i as int)),
        decreases list.len() - i,
    {
        let ghost before = all.take(i as int);
        assert(all.take(i + 1).drop_last() =~= before);
        assert(all.take(i + 1).last() == list@[i as int]@);
        let mut seen = false;
        let mut j: usize = 0;
        while j < i && !seen
            invariant
                j <= i < list@.len(),
                all == selector_views(list@),
                before == all.take(i as int),
                seen ==> before.contains(list@[i as int]@),
                !seen ==> forall|k: int| 0 <= k < j ==> (#[trigger] list@[k])@ != list@[i as int]@,
            decreases i - j + (if seen { 0int } else { 1int }),
        {
            if list[j].same(&list[i]) {
                assert(before[j as int] == list@[i as int]@);
                seen = true;
            } else {
                j = j + 1;
            }
        }
        if !seen {
            proof {
                if before.contains(list@[i as int]@) {
                    let k = choose|k: int| 0 <= k < before.len() && before[k] == list@[i as int]@;
                    assert(list@[k]@ == before[k]);
                }
            }
            let ghost was = positions(r@);
            r.push(i);
            assert(positions(r@) =~= was.push(i as int));
        }
        i = i + 1;
    }
    assert(all.take(all.len() as int) =~= all);
    r
}

/// The first issue that could not be resolved.
pub open spec fn first_issue_error(issues: Seq<Result<NamedIssue, String>>) -> Option<Seq<char>>
    decreases issues.len(),
{
    if issues.len() == 0 {
        None
    } else {
        match issues[0] {
            Err(e) => Some(e@),
            Ok(_) => first_issue_error(issues.drop_first()),
        }
    }
}

/// The issues that were resolved.
pub open spec fn resolved_issues(issues: Seq<Result<NamedIssue, String>>) -> Seq<NamedIssue> {
    Seq::new(issues.len(), |i: int| issues[i]->Ok_0)
}

/// The issues of a convoy, or what comes first.
pub open spec fn issues_step(intent: ConvoyStartIntent, rd: AdmissionReadings) -> Option<AdmissionStepView> {
    let wanted = distinct_at(selector_views(intent.issues@));
    match first_issue_error(rd.issues@) {
        Some(e) => Some(AdmissionStepView::Refuse(e)),
        None => if rd.issues@.len() < wanted.len() {
            Some(AdmissionStepView::Ask(AskView::Issue(wanted[rd.issues@.len() as int])))
        } else {
            None
        },
    }
}

proof fn lemma_no_issue_error(issues: Seq<Result<NamedIssue, String>>, i: int)
    requires
        first_issue_error(issues) is None,
        0 <= i < issues.len(),
    ensures
        issues[i] is Ok,
    decreases issues.len(),
{
    if i > 0 {
        lemma_no_issue_error(issues.drop_first(), i - 1);
    }
}

fn find_issue_error(issues: &Vec<Result<NamedIssue, String>>) -> (r: Option<String>)
    ensures
        opt(r) == first_issue_error(issues@),
{
    let mut i: usize = 0;
    assert(issues@.skip(0) =~= issues@);
    while i < issues.len()
        invariant
            i <= issues@.len(),
            first_issue_error(issues@) == first_issue_error(issues@.skip(i as int)),
        decreases issues.len() - i,
    {
        assert(issues@.skip(i as int)[0] == issues@[i as int]);
        assert(issues@.skip(i as int).drop_first() =~= issues@.skip(i + 1));
        match &issues[i] {
            Err(e) => {
                return Some(e.clone());
            },
            Ok(_) => {},
        }
        i = i + 1;
    }
    None
}

fn take_issues(issues: &Vec<Result<NamedIssue, String>>) -> (r: Vec<NamedIssue>)
    requires
        first_issue_error(issues@) is None,
    ensures
        r@ == resolved_issues(issues@),
{
    let mut r: Vec<NamedIssue> = Vec::new();
    let mut i: usize = 0;
    while i < issues.len()
        invariant
            i <= issues@.len(),
            first_issue_error(issues@) is None,
            r@.len() == i,
            forall|k: int| 0 <= k < i ==> r@[k] == (#[trigger] issues@[k])->Ok_0,
        decreases issues.len() - i,
    {
        proof {
            lemma_no_issue_error(issues@, i as int);
        }
        match &issues[i] {
            Ok(issue) => {
                r.push(issue.copy());
            },
            Err(_) => {},
        }
        i = i + 1;
    }
    assert(r@ =~= resolved_issues(issues@));
    r
}

/// The workflow of a convoy: the one asked for, else the one for change
/// requests, else the project's.
pub open spec fn workflow_choice(intent: ConvoyStartIntent, default_ref: Seq<char>) -> Result<Seq<char>, Seq<char>> {
    match intent.workflow_ref {
        Some(name) => admission_value(name@, "workflow"@),
        None => if intent.change_request is Some {
            Ok("single-agent-shepherd"@)
        } else {
            Ok(default_ref)
        },
    }
}

/// Which workflow a convoy runs.
pub fn choose_workflow(intent: &ConvoyStartIntent, default_workflow_ref: &str) -> (r: Result<String, String>)
    ensures
        match r {
            Ok(name) => workflow_choice(*intent, default_workflow_ref@) == Ok::<Seq<char>, Seq<char>>(name@),
            Err(e) => workflow_choice(*intent, default_workflow_ref@) == Err::<Seq<char>, Seq<char>>(e@),
        },
{
    match &intent.workflow_ref {
        Some(name) => required_admission_value(name.as_str(), "workflow"),
        None => {
            if intent.change_request.is_some() {
                Ok("single-agent-shepherd".to_owned())
            } else {
                Ok(default_workflow_ref.to_owned())
            }
        },
    }
}

/// The contexts of issues.
pub open spec fn issue_contexts(issues: Seq<NamedIssue>) -> Seq<Seq<char>> {
    Seq::new(issues.len(), |i: int| issue_context(issues[i]))
}

/// The text that names are made up from.
pub open spec fn names_context(display_name: Seq<char>, issues: Seq<NamedIssue>, instruction: Option<Seq<char>>) -> Seq<char> {
    let project = "Project: "@ + display_name;
    let with_issues = if issues.len() > 0 {
        project + "\n"@ + join(issue_contexts(issues), "\n\n"@)
    } else {
        project
    };
    match instruction {
        Some(text) => with_issues + "\n"@ + ("Instruction: "@ + text),
        None => with_issues,
    }
}

/// The text that names are made up from: the project, its issues and what the
/// crew is told.
pub fn convoy_names_context(display_name: &str, issues: &Vec<NamedIssue>, instruction: &Option<String>) -> (r: String)
    ensures
        r@ == names_context(display_name@, issues@, opt(*instruction)),
{
    let project = concat2("Project: ", display_name);
    let with_issues = if issues.len() > 0 {
        let mut texts: Vec<String> = Vec::new();
        let mut i: usize = 0;
        while i < issues.len()
            invariant
                i <= issues@.len(),
                texts@.len() == i,
                forall|k: int| 0 <= k < i ==> (#[trigger] texts@[k])@ == issue_context(issues@[k]),
            decreases issues.len() - i,
        {
            texts.push(convoy_issue_name_context(&issues[i]));
            i = i + 1;
        }
        assert(strs(texts@) =~= issue_contexts(issues@));
        let joined = join_strs(&texts, "\n\n");
        concat3(project.as_str(), "\n", joined.as_str())
    } else {
        project
    };
    match instruction {
        Some(text) => {
            let told = concat2("Instruction: ", text.as_str());
            concat3(with_issues.as_str(), "\n", told.as_str())
        },
        None => with_issues,
    }
}

/// The role and the branch of a convoy, or what comes first.
pub open spec fn naming_of(
    intent: ConvoyStartIntent,
    project: Seq<char>,
    display_name: Seq<char>,
    request: Option<ResolvedRequest>,
    issues: Seq<NamedIssue>,
    names: Option<Option<ConvoyNames>>,
) -> Result<(Seq<char>, Seq<char>), AdmissionStepView> {
    let slug = match request {
        Some(r) => fallback_slug(r.title@, r.id@),
        None => issues_slug(issues, display_name, project),
    };
    if request is None && (intent.name is None || intent.branch is None) && names is None {
        Err(AdmissionStepView::Ask(AskView::Names(names_context(display_name, issues, opt(intent.instruction)))))
    } else {
        let made_up = request is None && (intent.name is None || intent.branch is None);
        let generated = if made_up && names->0 is Some {
            (names->0->0.name@, names->0->0.branch@)
        } else {
            (slug, slug)
        };
        let role = match intent.name {
            Some(name) => admission_value(name@, "name"@),
            None => Ok(trim_hyphens(fallback_slug(generated.0, ""@))),
        };
        match role {
            Err(e) => Err(AdmissionStepView::Refuse(e)),
            Ok(role) => match checked_convoy_name(role) {
                Err(e) => Err(AdmissionStepView::Refuse(e)),
                Ok(_) => {
                    let branch = match request {
                        Some(r) => Ok(r.branch@),
                        None => match intent.branch {
                            Some(branch) => admission_value(branch@, "branch"@),
                            None => admission_value(generated.1, "generated branch"@),
                        },
                    };
                    match branch {
                        Err(e) => Err(AdmissionStepView::Refuse(e)),
                        Ok(branch) => match checked_branch(branch) {
                            Err(e) => Err(AdmissionStepView::Refuse(e)),
                            Ok(_) => Ok((role, branch)),
                        },
                    }
                },
            },
        }
    }
}

fn name_convoy(
    intent: &ConvoyStartIntent,
    project: &str,
    display_name: &str,
    request: &Option<ResolvedRequest>,
    issues: &Vec<NamedIssue>,
    names: &Option<Option<ConvoyNames>>,
) -> (r: Result<(String, String), AdmissionStep>)
    ensures
        match r {
            Ok((role, branch)) => naming_of(*intent, project@, display_name@, *request, issues@, *names) == Ok::<
                (Seq<char>, Seq<char>),
                AdmissionStepView,
            >((role@, branch@)),
            Err(step) => naming_of(*intent, project@, display_name@, *request, issues@, *names) == Err::<
                (Seq<char>, Seq<char>),
                AdmissionStepView,
            >(step@),
        },
{
    let slug = match request {
        Some(r) => convoy_fallback_slug(r.title.as_str(), r.id.as_str()),
        None => convoy_issues_fallback_slug(issues, display_name, project),
    };
    let made_up = request.is_none() && (intent.name.is_none() || intent.branch.is_none());
    let (name, made_branch) = if made_up {
        match names {
            None => {
                let context = convoy_names_context(display_name, issues, &intent.instruction);
                return Err(AdmissionStep::Ask { ask: AdmissionAsk::Names { context } });
            },
            Some(Some(found)) => (found.name.clone(), found.branch.clone()),
            Some(None) => (slug.clone(), slug),
        }
    } else {
        (slug.clone(), slug)
    };
    let role = match &intent.name {
        Some(given) => match required_admission_value(given.as_str(), "name") {
            Err(e) => {
                return Err(refuse(e));
            },
            Ok(role) => role,
        },
        None => convoy_fallback_slug(name.as_str(), ""),
    };
    match validate_convoy_name(role.as_str()) {
        Err(e) => {
            return Err(refuse(e));
        },
        Ok(()) => {},
    }
    let branch = match request {
        Some(r) => r.branch.clone(),
        None => match &intent.branch {
            Some(given) => match required_admission_value(given.as_str(), "branch") {
                Err(e) => {
                    return Err(refuse(e));
                },
                Ok(branch) => branch,
            },
            None => match required_admission_value(made_branch.as_str(), "generated branch") {
                Err(e) => {
                    return Err(refuse(e));
                },
                Ok(branch) => branch,
            },
        },
    };
    match validate_convoy_branch(branch.as_str()) {
        Err(e) => Err(refuse(e)),
        Ok(()) => Ok((role, branch)),
    }
}

/// What is said where a workflow that nobody named would run with the
/// operator's own credentials.
pub open spec fn implicit_trust_refusal(workflow: Seq<char>, policy: Seq<char>, host: Seq<char>) -> Seq<char> {
    "implicit workflow `"@ + workflow + "` resolves to trusted host-direct placement `"@ + policy + "` on `"@ + host
        + "`; the crew will inherit ambient human credentials and may act under the operator's forge identity. Repeat with `--workflow "@
        + workflow + "` to acknowledge this identity implication"@
}

/// The workflow that nobody named would run with the operator's own
/// credentials.
pub open spec fn implicit_trust(intent: ConvoyStartIntent, vessels: Seq<WorkflowVessel>, policy: PlacementPolicy) -> bool {
    intent.workflow_ref is None && any_stance(vessels, "trusted"@) && policy.host_direct is Some
}

/// What is settled of a convoy before it is placed.
pub struct NamedConvoy {
    pub role: Seq<char>,
    pub branch: Seq<char>,
    pub project_ref: Seq<char>,
    pub workflow_ref: Seq<char>,
    pub repositories: Seq<RepositoryView>,
    pub request: Option<ResolvedRequest>,
    pub principal: Option<Seq<char>>,
}

/// `step` is what comes of the placement of a convoy.
pub open spec fn after_placement(
    step: AdmissionStep,
    placing: PlacementStep,
    intent: ConvoyStartIntent,
    convoy: NamedConvoy,
    workflow: EffectiveWorkflow,
) -> bool {
    match placing {
        PlacementStep::Ask { ask } => step@ == AdmissionStepView::Ask(AskView::Placement(ask@)),
        PlacementStep::Refuse { message } => step@ == AdmissionStepView::Refuse(message@),
        PlacementStep::Placed { placement } => if placement is Some && implicit_trust(
            intent,
            workflow.vessels@,
            placement->0.policy,
        ) {
            step@ == AdmissionStepView::Refuse(
                implicit_trust_refusal(
                    convoy.workflow_ref,
                    placement->0.policy.name@,
                    placement->0.decision.target_host.display_name@,
                ),
            )
        } else {
            step@ == AdmissionStepView::Admitted(
                AdmissionView {
                    role: convoy.role,
                    branch: convoy.branch,
                    project_ref: convoy.project_ref,
                    workflow_ref: convoy.workflow_ref,
                    workflow,
                    repositories: convoy.repositories,
                    issues: distinct_at(selector_views(intent.issues@)),
                    change_request: convoy.request,
                    inputs: input_views(intent.inputs@),
                    instruction: opt(intent.instruction),
                    dispatching_principal: convoy.principal,
                    placement_policy: match placement {
                        Some(p) => Some(p.policy.name@),
                        None => None,
                    },
                    placement: match placement {
                        Some(p) => Some(p.policy),
                        None => None,
                    },
                    placement_decision: match placement {
                        Some(p) => Some(p.decision),
                        None => None,
                    },
                },
            )
        },
    }
}

/// `step` is what comes of the workflow of a convoy: it is settled for the
/// repositories that the convoy carries, then the convoy is named and placed.
pub open spec fn after_workflow(
    step: AdmissionStep,
    settling: WorkflowStep,
    intent: ConvoyStartIntent,
    principal: Option<Seq<char>>,
    project: Seq<char>,
    workflow_ref: Seq<char>,
    repositories: Seq<RepositoryView>,
    request: Option<ResolvedRequest>,
    reading: ProjectReading,
    rd: AdmissionReadings,
) -> bool {
    match settling {
        WorkflowStep::AskTemplate => step@ == AdmissionStepView::Ask(AskView::Template(workflow_ref)),
        WorkflowStep::AskForks => step@ == AdmissionStepView::Ask(AskView::Forks(repo_refs(repositories))),
        WorkflowStep::AskGrants { vessels } => step@ == AdmissionStepView::Ask(
            AskView::Grants(project, vessels@, repo_refs(repositories)),
        ),
        WorkflowStep::Refuse { message } => step@ == AdmissionStepView::Refuse(message@),
        WorkflowStep::Resolved { workflow } => match naming_of(
            intent,
            project,
            reading.display_name@,
            request,
            resolved_issues(rd.issues@),
            rd.names,
        ) {
            Err(view) => step@ == view,
            Ok((role, branch)) => exists|placing: PlacementStep|
                #[trigger] placement_decided(placing, workflow, opt(intent.placement_policy), rd.placement) && after_placement(
                    step,
                    placing,
                    intent,
                    NamedConvoy { role, branch, project_ref: project, workflow_ref, repositories, request, principal },
                    workflow,
                ),
        },
    }
}

/// `step` is what comes of a convoy once the name of its workflow is known.
pub open spec fn workflow_admitted(
    step: AdmissionStep,
    intent: ConvoyStartIntent,
    principal: Option<Seq<char>>,
    stance: Option<Seq<char>>,
    project: Seq<char>,
    workflow_ref: Seq<char>,
    repositories: Seq<RepositoryView>,
    request: Option<ResolvedRequest>,
    reading: ProjectReading,
    rd: AdmissionReadings,
) -> bool {
    exists|settling: WorkflowStep|
        #[trigger] workflow_decided(
            settling,
            workflow_ref,
            stance,
            intent.agent_overrides@,
            repo_refs(repositories),
            rd.workflow,
        ) && after_workflow(step, settling, intent, principal, project, workflow_ref, repositories, request, reading, rd)
}

/// `step` is what comes of a convoy once its subject is known.
pub open spec fn rest_decided(
    step: AdmissionStep,
    intent: ConvoyStartIntent,
    principal: Option<Seq<char>>,
    stance: Option<Seq<char>>,
    project: Seq<char>,
    repositories: Seq<RepositoryView>,
    request: Option<ResolvedRequest>,
    reading: ProjectReading,
    rd: AdmissionReadings,
) -> bool {
    match issues_step(intent, rd) {
        Some(view) => step@ == view,
        None => match workflow_choice(intent, reading.default_workflow_ref@) {
            Err(e) => step@ == AdmissionStepView::Refuse(e),
            Ok(workflow_ref) => workflow_admitted(
                step,
                intent,
                principal,
                stance,
                project,
                workflow_ref,
                repositories,
                request,
                reading,
                rd,
            ),
        },
    }
}

/// `step` is what comes next for a start.
pub open spec fn admission_decided(
    step: AdmissionStep,
    namespace: Seq<char>,
    intent: ConvoyStartIntent,
    principal: Option<Seq<char>>,
    selected: Option<Vec<String>>,
    stance: Option<Seq<char>>,
    rd: AdmissionReadings,
) -> bool {
    match scope_of(namespace, intent, selected, rd) {
        Err(view) => step@ == view,
        Ok((project, repositories)) => match intent.change_request {
            None => rest_decided(
                step,
                intent,
                principal,
                stance,
                project,
                repositories,
                None,
                rd.project->0->Ok_0,
                rd,
            ),
            Some(id) => match admission_value(id@, "change request"@) {
                Err(e) => step@ == AdmissionStepView::Refuse(e),
                Ok(id) => match rd.change_request {
                    None => step@ == AdmissionStepView::Ask(AskView::ChangeRequest(id, repo_refs(repositories))),
                    Some(Err(e)) => step@ == AdmissionStepView::Refuse(e@),
                    Some(Ok(request)) => rest_decided(
                        step,
                        intent,
                        principal,
                        stance,
                        project,
                        rebased(repositories, request.repository_ref@, request.base_ref@),
                        Some(request),
                        rd.project->0->Ok_0,
                        rd,
                    ),
                },
            },
        },
    }
}

/// The change request that was found is one of the repositories that it was
/// looked for in.
pub open spec fn request_is_in_scope(
    namespace: Seq<char>,
    intent: ConvoyStartIntent,
    selected: Option<Vec<String>>,
    rd: AdmissionReadings,
) -> bool {
    match (scope_of(namespace, intent, selected, rd), rd.change_request) {
        (Ok((_, repositories)), Some(Ok(request))) => holds(repo_refs(repositories), request.repository_ref@),
        _ => true,
    }
}

fn trust_refusal(workflow_ref: &str, policy: &str, host: &str) -> (r: AdmissionStep)
    ensures
        r@ == AdmissionStepView::Refuse(implicit_trust_refusal(workflow_ref@, policy@, host@)),
{
    refuse(
        concat9(
            "implicit workflow `",
            workflow_ref,
            "` resolves to trusted host-direct placement `",
            policy,
            "` on `",
            host,
            "`; the crew will inherit ambient human credentials and may act under the operator's forge identity. Repeat with `--workflow ",
            workflow_ref,
            "` to acknowledge this identity implication",
        ),
    )
}

struct Candidate {
    role: String,
    branch: String,
    project_ref: String,
    workflow_ref: String,
    repositories: Vec<ConvoyRepository>,
    request: Option<ResolvedRequest>,
    principal: Option<String>,
}

fn place_convoy(intent: &ConvoyStartIntent, convoy: Candidate, workflow: EffectiveWorkflow, rd: &PlacementReadings) -> (step:
    AdmissionStep)
    requires
        is_whole(workflow),
    ensures
        exists|placing: PlacementStep|
            #[trigger] placement_decided(placing, workflow, opt(intent.placement_policy), *rd) && after_placement(
                step,
                placing,
                *intent,
                NamedConvoy {
                    role: convoy.role@,
                    branch: convoy.branch@,
                    project_ref: convoy.project_ref@,
                    workflow_ref: convoy.workflow_ref@,
                    repositories: repository_views(convoy.repositories@),
                    request: convoy.request,
                    principal: opt(convoy.principal),
                },
                workflow,
            ),
{
    let placing = resolve_and_validate_convoy_placement(&workflow, &intent.placement_policy, rd);
    let ghost decided = placing;
    assert(placement_decided(decided, workflow, opt(intent.placement_policy), *rd));
    let placement = match placing {
        PlacementStep::Ask { ask } => {
            return AdmissionStep::Ask { ask: AdmissionAsk::Placement { ask } };
        },
        PlacementStep::Refuse { message } => {
            return refuse(message);
        },
        PlacementStep::Placed { placement } => placement,
    };
    let issues = distinct_selectors(&intent.issues);
    let inputs = copy_inputs(&intent.inputs);
    let instruction = opt_clone(&intent.instruction);
    let (placement_policy, placement, placement_decision) = match placement {
        None => (None, None, None),
        Some(p) => {
            if intent.workflow_ref.is_none() && has_stance(&workflow.vessels, "trusted") && p.policy.host_direct.is_some() {
                return trust_refusal(
                    convoy.workflow_ref.as_str(),
                    p.policy.name.as_str(),
                    p.decision.target_host.display_name.as_str(),
                );
            }
            (Some(p.policy.name.clone()), Some(p.policy), Some(Arc::new(p.decision)))
        },
    };
    AdmissionStep::Admitted {
        admission: ConvoyAdmission {
            role: convoy.role,
            branch: convoy.branch,
            project_ref: convoy.project_ref,
            workflow_ref: convoy.workflow_ref,
            workflow,
            repositories: convoy.repositories,
            issues,
            change_request: convoy.request,
            inputs,
            instruction,
            dispatching_principal: convoy.principal,
            placement_policy,
            placement,
            placement_decision,
        },
    }
}

fn admit_rest(
    intent: &ConvoyStartIntent,
    principal: &Option<String>,
    stance: &Option<String>,
    project: String,
    repositories: Vec<ConvoyRepository>,
    request: Option<ResolvedRequest>,
    reading: &ProjectReading,
    rd: &AdmissionReadings,
) -> (step: AdmissionStep)
    ensures
        rest_decided(
            step,
            *intent,
            opt(*principal),
            opt(*stance),
            project@,
            repository_views(repositories@),
            request,
            *reading,
            *rd,
        ),
{
    let wanted = distinct_selectors(&intent.issues);
    assert(positions(wanted@).len() == wanted@.len());
    match find_issue_error(&rd.issues) {
        Some(e) => {
            return refuse(e);
        },
        None => {},
    }
    if rd.issues.len() < wanted.len() {
        let position: usize = wanted[rd.issues.len()];
        assert(positions(wanted@)[rd.issues@.len() as int] == position);
        return AdmissionStep::Ask { ask: AdmissionAsk::Issue { position } };
    }
    let workflow_ref = match choose_workflow(intent, reading.default_workflow_ref.as_str()) {
        Err(e) => {
            return refuse(e);
        },
        Ok(name) => name,
    };
    admit_workflow(intent, principal, stance, project, workflow_ref, repositories, request, reading, rd)
}

fn admit_workflow(
    intent: &ConvoyStartIntent,
    principal: &Option<String>,
    stance: &Option<String>,
    project: String,
    workflow_ref: String,
    repositories: Vec<ConvoyRepository>,
    request: Option<ResolvedRequest>,
    reading: &ProjectReading,
    rd: &AdmissionReadings,
) -> (step: AdmissionStep)
    requires
        first_issue_error(rd.issues@) is None,
    ensures
        workflow_admitted(
            step,
            *intent,
            opt(*principal),
            opt(*stance),
            project@,
            workflow_ref@,
            repository_views(repositories@),
            request,
            *reading,
            *rd,
        ),
{
    let refs = refs_of(&repositories);
    let settling = resolve_convoy_admission_workflow(
        workflow_ref.as_str(),
        stance,
        &intent.agent_overrides,
        &refs,
        &rd.workflow,
    );
    let ghost settled = settling;
    assert(workflow_decided(
        settled,
        workflow_ref@,
        opt(*stance),
        intent.agent_overrides@,
        repo_refs(repository_views(repositories@)),
        rd.workflow,
    ));
    let workflow = match settling {
        WorkflowStep::AskTemplate => {
            return AdmissionStep::Ask { ask: AdmissionAsk::Template { workflow_ref } };
        },
        WorkflowStep::AskForks => {
            return AdmissionStep::Ask { ask: AdmissionAsk::Forks { repositories: refs } };
        },
        WorkflowStep::AskGrants { vessels } => {
            return AdmissionStep::Ask {
                ask: AdmissionAsk::Grants { project_ref: project, vessels, repositories: refs },
            };
        },
        WorkflowStep::Refuse { message } => {
            return refuse(message);
        },
        WorkflowStep::Resolved { workflow } => workflow,
    };
    let issues = take_issues(&rd.issues);
    let (role, branch) = match name_convoy(
        intent,
        project.as_str(),
        reading.display_name.as_str(),
        &request,
        &issues,
        &rd.names,
    ) {
        Err(step) => {
            return step;
        },
        Ok(found) => found,
    };
    let convoy = Candidate {
        role,
        branch,
        project_ref: project,
        workflow_ref,
        repositories,
        request,
        principal: opt_clone(principal),
    };
    place_convoy(intent, convoy, workflow, &rd.placement)
}

fn copy_request(r: &ResolvedRequest) -> (c: ResolvedRequest)
    ensures
        c == *r,
{
    ResolvedRequest {
        id: r.id.clone(),
        repository_ref: r.repository_ref.clone(),
        title: r.title.clone(),
        branch: r.branch.clone(),
        base_ref: r.base_ref.clone(),
    }
}

/// Decides what has to be found out next for a start, why it is refused, or
/// what is admitted. `selected` narrows the repositories of the project
/// down, and `stance` is taken by every vessel, where it is given. `principal`
/// dispatches it; nobody named stands for the namespace's own.
pub fn prepare_convoy_admission_with_preferences(
    namespace: &str,
    intent: &ConvoyStartIntent,
    principal: &Option<String>,
    selected: &Option<Vec<String>>,
    stance: &Option<String>,
    rd: &AdmissionReadings,
) -> (step: AdmissionStep)
    requires
        request_is_in_scope(namespace@, *intent, *selected, *rd),
    ensures
        admission_decided(step, namespace@, *intent, opt(*principal), *selected, opt(*stance), *rd),
{
    let (project, repositories) = match admission_scope(namespace, intent, selected, rd) {
        Err(step) => {
            return step;
        },
        Ok(scope) => scope,
    };
    let reading = match &rd.project {
        Some(Ok(reading)) => reading,
        _ => {
            return refuse("project cannot be empty".to_owned());
        },
    };
    match &intent.change_request {
        None => admit_rest(intent, principal, stance, project, repositories, None, reading, rd),
        Some(id) => {
            let id = match required_admission_value(id.as_str(), "change request") {
                Err(e) => {
                    return refuse(e);
                },
                Ok(id) => id,
            };
            match &rd.change_request {
                None => {
                    let refs = refs_of(&repositories);
                    AdmissionStep::Ask { ask: AdmissionAsk::ChangeRequest { id, repositories: refs } }
                },
                Some(Err(e)) => refuse(e.clone()),
                Some(Ok(request)) => {
                    let moved = rebase(repositories, request.repository_ref.as_str(), request.base_ref.as_str());
                    let bound = Some(copy_request(request));
                    admit_rest(intent, principal, stance, project, moved, bound, reading, rd)
                },
            }
        },
    }
}

/// The repositories that a convoy carries: those of its project that were
/// chosen, with the one of an adopted change request on its base.
pub open spec fn carried_repositories(
    namespace: Seq<char>,
    intent: ConvoyStartIntent,
    selected: Option<Vec<String>>,
    rd: AdmissionReadings,
) -> Seq<RepositoryView> {
    let repositories = scope_of(namespace, intent, selected, rd)->Ok_0.1;
    match (intent.change_request, rd.change_request) {
        (Some(_), Some(Ok(request))) => rebased(repositories, request.repository_ref@, request.base_ref@),
        _ => repositories,
    }
}

/// `admission` was settled and placed so: its workflow is the template with
/// the stance and the choices of the start written in, resolved for exactly
/// the repositories that the convoy carries, and its placement serves that
/// workflow.
pub open spec fn admitted_whole(
    admission: AdmissionView,
    settling: WorkflowStep,
    needs: PlacementNeeds<'_>,
    reading: Option<PolicyReading>,
    intent: ConvoyStartIntent,
    stance: Option<Seq<char>>,
    rd: AdmissionReadings,
) -> bool {
    &&& settling == (WorkflowStep::Resolved { workflow: admission.workflow })
    &&& workflow_decided(
        settling,
        admission.workflow_ref,
        stance,
        intent.agent_overrides@,
        repo_refs(admission.repositories),
        rd.workflow,
    )
    &&& (rd.workflow.template matches Some(Ok(template)) && vessels_admitted(
        admission.workflow.vessels@,
        template@,
        stance,
        intent.agent_overrides@,
    ))
    &&& served(needs, reading, admission.workflow, placement_of(admission), rd.placement)
}

/// The placement of an admitted convoy.
pub open spec fn placement_of(admission: AdmissionView) -> Option<Placement> {
    match (admission.placement, admission.placement_decision) {
        (Some(policy), Some(decision)) => Some(Placement { policy, decision }),
        _ => None,
    }
}

proof fn lemma_rest_is_whole(
    step: AdmissionStep,
    intent: ConvoyStartIntent,
    principal: Option<Seq<char>>,
    stance: Option<Seq<char>>,
    project: Seq<char>,
    repositories: Seq<RepositoryView>,
    request: Option<ResolvedRequest>,
    reading: ProjectReading,
    rd: AdmissionReadings,
)
    requires
        rest_decided(step, intent, principal, stance, project, repositories, request, reading, rd),
        step is Admitted,
    ensures
        step@->Admitted_0.repositories == repositories,
        step@->Admitted_0.change_request == request,
        step@->Admitted_0.project_ref == project,
        checked_convoy_name(step@->Admitted_0.role) is Ok,
        checked_branch(step@->Admitted_0.branch) is Ok,
        step@->Admitted_0.placement matches Some(policy) ==> !implicit_trust(intent, step@->Admitted_0.workflow.vessels@, policy),
        exists|settling: WorkflowStep, needs: PlacementNeeds<'_>, found: Option<PolicyReading>|
            #[trigger] admitted_whole(step@->Admitted_0, settling, needs, found, intent, stance, rd),
{
    let workflow_ref = workflow_choice(intent, reading.default_workflow_ref@)->Ok_0;
    let settling = choose|settling: WorkflowStep|
        #[trigger] workflow_decided(
            settling,
            workflow_ref,
            stance,
            intent.agent_overrides@,
            repo_refs(repositories),
            rd.workflow,
        ) && after_workflow(
            step,
            settling,
            intent,
            principal,
            project,
            workflow_ref,
            repositories,
            request,
            reading,
            rd,
        );
    let workflow = settling->workflow;
    let (role, branch) = naming_of(
        intent,
        project,
        reading.display_name@,
        request,
        resolved_issues(rd.issues@),
        rd.names,
    )->Ok_0;
    let convoy = NamedConvoy { role, branch, project_ref: project, workflow_ref, repositories, request, principal };
    let placing = choose|placing: PlacementStep|
        #[trigger] placement_decided(placing, workflow, opt(intent.placement_policy), rd.placement) && after_placement(
            step,
            placing,
            intent,
            convoy,
            workflow,
        );
    law_placed_workflows_are_served(placing, workflow, opt(intent.placement_policy), rd.placement);
    let (needs, found) = choose|needs: PlacementNeeds<'_>, found: Option<PolicyReading>|
        #[trigger] served(needs, found, workflow, placing->Placed_placement, rd.placement);
    assert(placement_of(step@->Admitted_0) == placing->Placed_placement);
    assert(admitted_whole(step@->Admitted_0, settling, needs, found, intent, stance, rd));
}

/// What is admitted is one whole: the convoy carries the repositories that
/// were chosen; its workflow is the template with the choices made at dispatch
/// written in, resolved for these repositories; and nothing about the agents
/// or the credentials of that workflow stands against its placement, which is
/// a container where a vessel is contained.
pub proof fn law_admitted_placements_serve_the_workflow(
    step: AdmissionStep,
    namespace: Seq<char>,
    intent: ConvoyStartIntent,
    principal: Option<Seq<char>>,
    selected: Option<Vec<String>>,
    stance: Option<Seq<char>>,
    rd: AdmissionReadings,
)
    requires
        admission_decided(step, namespace, intent, principal, selected, stance, rd),
        step is Admitted,
    ensures
        step@->Admitted_0.repositories == carried_repositories(namespace, intent, selected, rd),
        exists|settling: WorkflowStep, needs: PlacementNeeds<'_>, found: Option<PolicyReading>|
            #[trigger] admitted_whole(step@->Admitted_0, settling, needs, found, intent, stance, rd),
{
    let (project, repositories) = scope_of(namespace, intent, selected, rd)->Ok_0;
    if intent.change_request is Some {
        let request = rd.change_request->0->Ok_0;
        lemma_rest_is_whole(
            step,
            intent,
            principal,
            stance,
            project,
            rebased(repositories, request.repository_ref@, request.base_ref@),
            Some(request),
            rd.project->0->Ok_0,
            rd,
        );
    } else {
        lemma_rest_is_whole(step, intent, principal, stance, project, repositories, None, rd.project->0->Ok_0, rd);
    }
}

/// Nobody is placed under the operator's own credentials by a workflow that
/// they did not name, and what is admitted has a valid name and a valid branch.
pub proof fn law_implicit_trust_is_refused(
    step: AdmissionStep,
    namespace: Seq<char>,
    intent: ConvoyStartIntent,
    principal: Option<Seq<char>>,
    selected: Option<Vec<String>>,
    stance: Option<Seq<char>>,
    rd: AdmissionReadings,
)
    requires
        admission_decided(step, namespace, intent, principal, selected, stance, rd),
        step is Admitted,
    ensures
        step@->Admitted_0.placement matches Some(policy) ==> !implicit_trust(intent, step@->Admitted_0.workflow.vessels@, policy),
        checked_convoy_name(step@->Admitted_0.role) is Ok,
        checked_branch(step@->Admitted_0.branch) is Ok,
{
    let (project, repositories) = scope_of(namespace, intent, selected, rd)->Ok_0;
    if intent.change_request is Some {
        let request = rd.change_request->0->Ok_0;
        lemma_rest_is_whole(
            step,
            intent,
            principal,
            stance,
            project,
            rebased(repositories, request.repository_ref@, request.base_ref@),
            Some(request),
            rd.project->0->Ok_0,
            rd,
        );
    } else {
        lemma_rest_is_whole(step, intent, principal, stance, project, repositories, None, rd.project->0->Ok_0, rd);
    }
}

} // verus!
