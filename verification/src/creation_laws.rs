//! What holds of every convoy that is created, started, waited for and taken
//! down again.
use vstd::prelude::*;

use crate::admission::{first_failed, start_failure, StartingConvoy};
use crate::admission_laws::{dispatched, law_granted_workflows_are_dispatched_as_asked};
use crate::admission_workflow::{grants_decided, WorkflowStep};
use crate::creation::{
    creation_decided, creation_ground, creation_placed, creation_start, start_decided, wait_decided, CreateAsk, CreateReadings,
    CreateRequest, CreateStep, StartReadings, StartStep, WaitEvent, WaitStep,
};
use crate::evidence::{
    checkout_names, child_kinds, gate, missing_from, present, reaped_by, refusals, stale_labels, ChildKind, GateCheckout,
    IntegrationCondition, ReapReadings, ReapStep, TeardownCase,
};
use crate::messages::{demands_of, DemandRecord, RecordKind};
use crate::model::{ConditionValue, ConvoyPhase};
use crate::placement::PolicyReading;
use crate::placement_laws::{asks_for_a_container, law_placed_workflows_can_run, placed_by};
use crate::placing::{placement_decided, Placement, PlacementStep};
use crate::preparation::repo_refs;
use crate::projects::{repository_views, ConvoyRepository};
use crate::text::{holds, is_space, opt, strs};
use crate::time::{instant_in, span, Timestamp};

verus! {

/// `kept` is the repository as it was read.
pub open spec fn as_read(kept: ConvoyRepository, read: ConvoyRepository) -> bool {
    &&& kept.repo_ref@ == read.repo_ref@
    &&& kept.url@ == read.url@
    &&& kept.source_ref@ == read.source_ref@
    &&& kept.target_ref@ == read.target_ref@
    &&& kept.workspace_slug@ == read.workspace_slug@
    &&& strs(kept.subpaths@) == strs(read.subpaths@)
}

proof fn lemma_created(step: CreateStep, req: CreateRequest, rd: CreateReadings) -> (found: (WorkflowStep, PlacementStep))
    requires
        creation_decided(step, req, rd),
        step matches CreateStep::Ask { ask: CreateAsk::Create { record } },
    ensures
        creation_start(req, rd) is None,
        creation_ground(req, rd) is Ok,
        step matches CreateStep::Ask { ask: CreateAsk::Create { record } } && {
            let ground = creation_ground(req, rd)->Ok_0;
            &&& found.0 == (WorkflowStep::Resolved { workflow: record.workflow })
            &&& grants_decided(found.0, rd.workflow->0->Ok_0@, None, Seq::empty(), repo_refs(ground.repositories), rd.grants)
            &&& placement_decided(found.1, record.workflow, opt(req.placement_policy), rd.placement)
            &&& found.1 is Placed
            &&& step@ == crate::creation::placed_step(req, rd, ground, record.workflow, found.1->Placed_placement)
        },
{
    let ground = creation_ground(req, rd)->Ok_0;
    let granted = choose|granted: WorkflowStep|
        #[trigger] grants_decided(
            granted,
            rd.workflow->0->Ok_0@,
            None,
            Seq::empty(),
            repo_refs(ground.repositories),
            rd.grants,
        ) && match granted {
            WorkflowStep::AskGrants { vessels } => step@ == crate::creation::CreateStepView::Ask(
                crate::creation::CreateAskView::Grants(opt(req.project_ref), vessels@, repo_refs(ground.repositories)),
            ),
            WorkflowStep::Refuse { message } => step@ == crate::creation::failed_with(message@),
            WorkflowStep::Resolved { workflow } => creation_placed(step, req, rd, ground, workflow),
            _ => false,
        };
    let workflow = granted->workflow;
    let placing = choose|placing: PlacementStep|
        #[trigger] placement_decided(placing, workflow, opt(req.placement_policy), rd.placement) && match placing {
            PlacementStep::Ask { ask } => step@ == crate::creation::CreateStepView::Ask(
                crate::creation::CreateAskView::Placement(ask@),
            ),
            PlacementStep::Refuse { message } => step@ == crate::creation::failed_with(message@),
            PlacementStep::Placed { placement } => step@ == crate::creation::placed_step(req, rd, ground, workflow, placement),
        };
    (granted, placing)
}

/// A convoy is recorded as it was asked for, in the generation that was
/// settled last, once there is room here and where it is placed.
pub proof fn law_created_convoys_are_as_asked(step: CreateStep, req: CreateRequest, rd: CreateReadings)
    requires
        creation_decided(step, req, rd),
        step matches CreateStep::Ask { ask: CreateAsk::Create { record } },
    ensures
        step matches CreateStep::Ask { ask: CreateAsk::Create { record } } && {
            &&& record.role@ == req.role@
            &&& rd.final_generation == Some(Ok::<u64, String>(record.generation))
            &&& record.workflow_ref@ == req.workflow_ref@
            &&& record.inputs@.len() == req.inputs@.len()
            &&& forall|i: int|
                0 <= i < req.inputs@.len() ==> (#[trigger] record.inputs@[i]).0@ == req.inputs@[i].0@ && record.inputs@[i].1@
                    == req.inputs@[i].1@
            &&& opt(record.dispatching_principal) == opt(req.dispatching_principal)
            &&& opt(record.project_ref) == opt(req.project_ref)
        },
        rd.generation matches Some(Ok(_)),
        rd.local_space matches Some(Ok(_)),
        rd.remote_space matches Some(Ok(_)),
        rd.created is None,
{
    let found = lemma_created(step, req, rd);
    let record = step->ask->record;
    let mine = crate::admission::input_views(record.inputs@);
    let asked = crate::admission::input_views(req.inputs@);
    assert(mine == asked);
    assert(mine.len() == record.inputs@.len());
    assert forall|i: int| 0 <= i < req.inputs@.len() implies (#[trigger] record.inputs@[i]).0@ == req.inputs@[i].0@
        && record.inputs@[i].1@ == req.inputs@[i].1@ by {
        assert(mine[i] == asked[i]);
    }
}

/// A convoy of a project carries the project's repositories and no other; one
/// of no project carries the repository that was named, else that of the
/// adopted checkout, else none.
pub proof fn law_created_convoys_carry_what_was_named(step: CreateStep, req: CreateRequest, rd: CreateReadings)
    requires
        creation_decided(step, req, rd),
        step matches CreateStep::Ask { ask: CreateAsk::Create { record } },
    ensures
        step matches CreateStep::Ask { ask: CreateAsk::Create { record } } && match req.project_ref {
            Some(_) => req.repository_url is None && (rd.project_repositories matches Some(Ok(list)) && record.repositories@.len()
                == list@.len() && forall|i: int|
                0 <= i < list@.len() ==> as_read(#[trigger] record.repositories@[i], list@[i])),
            None => if req.repository_url is None && !req.adopt {
                record.repositories@.len() == 0
            } else {
                record.repositories@.len() == 1 && (rd.direct matches Some(Ok(direct)) && (direct.canonical_remote matches Some(remote)
                    && record.repositories@[0].url@ == remote@) && record.repositories@[0].repo_ref@ == direct.repo_ref@
                    && record.repositories@[0].workspace_slug@ == direct.workspace_slug@ && record.repositories@[0].subpaths@.len() == 0
                    && record.repositories@[0].source_ref@ == record.repositories@[0].target_ref@ && (
                direct.default_branch matches Some(branch) ==> record.repositories@[0].source_ref@ == branch@) && (
                direct.default_branch is None ==> req.adopt && opt(record.git_ref) == Some(record.repositories@[0].source_ref@)))
            },
        },
{
    let found = lemma_created(step, req, rd);
    let record = step->ask->record;
    let views = repository_views(record.repositories@);
    assert(views.len() == record.repositories@.len());
    if req.project_ref is Some {
        let list = rd.project_repositories->0->Ok_0@;
        assert(views == repository_views(list));
        assert forall|i: int| 0 <= i < list.len() implies as_read(#[trigger] record.repositories@[i], list[i]) by {
            assert(views[i] == repository_views(list)[i]);
        }
        assert(repository_views(list).len() == list.len());
    } else if !(req.repository_url is None && !req.adopt) {
        assert(views[0] == record.repositories@[0]@);
        assert(strs(record.repositories@[0].subpaths@).len() == record.repositories@[0].subpaths@.len());
    }
}

/// A checkout is adopted where that was asked for and only there: the one
/// that was read, in a repository that the convoy carries. The ref that is
/// named is taken, else the one that the checkout stands at.
pub proof fn law_adopted_checkouts_are_carried(step: CreateStep, req: CreateRequest, rd: CreateReadings)
    requires
        creation_decided(step, req, rd),
        step matches CreateStep::Ask { ask: CreateAsk::Create { record } },
    ensures
        step matches CreateStep::Ask { ask: CreateAsk::Create { record } } && {
            &&& record.adopted is Some <==> req.adopt
            &&& req.adopt ==> (rd.adopted matches Some(Ok(read)) && (record.adopted matches Some(pair) && pair.0@ == read.repo_ref@
                && pair.1@ == read.checkout_ref@) && exists|i: int|
                0 <= i < record.repositories@.len() && (#[trigger] record.repositories@[i]).repo_ref@ == read.repo_ref@)
            &&& (req.git_ref matches Some(git_ref) ==> opt(record.git_ref) == Some(git_ref@))
            &&& (req.git_ref is None && req.adopt ==> (rd.adopted matches Some(Ok(read)) && opt(record.git_ref) == Some(
                read.git_ref@,
            )))
            &&& (req.git_ref is None && !req.adopt ==> record.git_ref is None)
        },
{
    let found = lemma_created(step, req, rd);
    let record = step->ask->record;
    if req.adopt {
        let read = rd.adopted->0->Ok_0;
        let views = repository_views(record.repositories@);
        let i = choose|i: int| 0 <= i < views.len() && (#[trigger] views[i]).repo_ref == read.repo_ref@;
        assert(views[i] == record.repositories@[i]@);
        assert(record.repositories@[i].repo_ref@ == read.repo_ref@);
    }
}

/// A convoy is recorded with the workflow that was read for it, as it stands,
/// and with a placement where every agent that it requires can run, by the
/// policy that was named where one was.
pub proof fn law_created_convoys_can_run(step: CreateStep, req: CreateRequest, rd: CreateReadings)
    requires
        creation_decided(step, req, rd),
        step matches CreateStep::Ask { ask: CreateAsk::Create { record } },
    ensures
        step matches CreateStep::Ask { ask: CreateAsk::Create { record } } && (rd.workflow matches Some(Ok(template))
            && record.workflow.vessels@.len() == template@.len() && forall|v: int|
            0 <= v < template@.len() ==> dispatched(#[trigger] record.workflow.vessels@[v], template@[v], None, Seq::empty())) && (
        rd.placement.adapters matches Some(Ok(required)) && match (record.placement, record.placement_decision) {
            (None, decision) => decision is None && required@.len() == 0 && !asks_for_a_container(record.workflow)
                && req.placement_policy is None,
            (Some(policy), Some(decision)) => exists|reading: PolicyReading|
                {
                    &&& #[trigger] placed_by(
                        reading,
                        Placement { policy, decision: *decision },
                        required@,
                        asks_for_a_container(record.workflow),
                    )
                    &&& if req.placement_policy is Some {
                        rd.placement.policy matches Some(Ok(named)) && named == reading
                    } else {
                        rd.placement.policies matches Some(Some(list)) && list@.contains(reading)
                    }
                },
            _ => false,
        }),
{
    let found = lemma_created(step, req, rd);
    let record = step->ask->record;
    let ground = creation_ground(req, rd)->Ok_0;
    law_granted_workflows_are_dispatched_as_asked(
        record.workflow,
        rd.workflow->0->Ok_0@,
        None,
        Seq::empty(),
        repo_refs(ground.repositories),
        rd.grants,
    );
    law_placed_workflows_can_run(found.1, record.workflow, opt(req.placement_policy), rd.placement);
    match found.1->Placed_placement {
        None => {},
        Some(p) => {
            assert(p == (Placement { policy: p.policy, decision: p.decision }));
        },
    }
}

/// Creating a convoy is over well only when it was recorded, and is answered
/// with its address. A checkout that was adopted is let go of only where the
/// last generation could not be settled.
pub proof fn law_creations_end_as_they_went(step: CreateStep, req: CreateRequest, rd: CreateReadings)
    requires
        creation_decided(step, req, rd),
        step is Finish,
    ensures
        step->outcome matches Ok(address) ==> (rd.created matches Some(Ok(_))) && address@ == (match req.project_ref {
            Some(project) => req.role@ + "@"@ + project@,
            None => req.role@,
        }) && step->drop_checkout is None,
        (rd.created matches Some(Err(_))) ==> step->outcome is Err,
        step->drop_checkout matches Some(checkout) ==> req.adopt && (rd.adopted matches Some(Ok(read)) && checkout@
            == read.checkout_ref@) && (rd.final_generation matches Some(Err(_))) && step->outcome is Err,
        req.project_ref is Some && req.repository_url is Some ==> step->outcome is Err,
{
    reveal_strlit("@");
    if creation_start(req, rd) is None && creation_ground(req, rd) is Ok {
        let ground = creation_ground(req, rd)->Ok_0;
        let granted = choose|granted: WorkflowStep|
            #[trigger] grants_decided(
                granted,
                rd.workflow->0->Ok_0@,
                None,
                Seq::empty(),
                repo_refs(ground.repositories),
                rd.grants,
            ) && match granted {
                WorkflowStep::AskGrants { vessels } => step@ == crate::creation::CreateStepView::Ask(
                    crate::creation::CreateAskView::Grants(opt(req.project_ref), vessels@, repo_refs(ground.repositories)),
                ),
                WorkflowStep::Refuse { message } => step@ == crate::creation::failed_with(message@),
                WorkflowStep::Resolved { workflow } => creation_placed(step, req, rd, ground, workflow),
                _ => false,
            };
    }
}

/// A start in a namespace that is not served here is refused before anything
/// else is done.
pub proof fn law_starts_elsewhere_are_refused(
    step: StartStep,
    served: Seq<char>,
    requested: Option<Seq<char>>,
    auto_attach: bool,
    rd: StartReadings,
)
    requires
        start_decided(step, served, requested, auto_attach, rd),
        requested matches Some(namespace) && namespace != served,
    ensures
        step is Fail,
{
}

/// A convoy is created only once there is room here, it is admitted, there is
/// room where it is placed and its generation is settled, in that generation;
/// room is asked for where the admission placed it.
pub proof fn law_starts_are_checked_before_they_create(
    step: StartStep,
    served: Seq<char>,
    requested: Option<Seq<char>>,
    auto_attach: bool,
    rd: StartReadings,
)
    requires
        start_decided(step, served, requested, auto_attach, rd),
    ensures
        step matches StartStep::Create { generation } ==> (rd.local_space matches Some(Ok(_))) && (rd.admission matches Some(Ok(_)))
            && (rd.remote_space matches Some(Ok(_))) && rd.generation == Some(Ok::<u64, String>(generation)) && rd.created is None,
        step matches StartStep::Allocate { role, project_ref } ==> (rd.local_space matches Some(Ok(_))) && (
        rd.remote_space matches Some(Ok(_))) && (rd.admission matches Some(Ok(admitted)) && role@ == admitted.role@ && opt(project_ref)
            == opt(admitted.project_ref)),
        step matches StartStep::CheckRemoteSpace { decision } ==> (rd.local_space matches Some(Ok(_))) && (
        rd.admission matches Some(Ok(admitted)) && decision == admitted.decision),
        step is Prepare ==> (rd.local_space matches Some(Ok(_))) && rd.admission is None,
{
}

/// A start is over well only when the convoy was created and, where attaching
/// was asked for, attached to; it says which, and under which address.
pub proof fn law_starts_end_as_they_went(
    step: StartStep,
    served: Seq<char>,
    requested: Option<Seq<char>>,
    auto_attach: bool,
    rd: StartReadings,
)
    requires
        start_decided(step, served, requested, auto_attach, rd),
    ensures
        step matches StartStep::Started { address, attached } ==> attached == auto_attach && (rd.created matches Some(Ok(_))) && (
        auto_attach ==> (rd.attached matches Some(Ok(_)))) && (rd.admission matches Some(Ok(admitted)) && address@ == (
        match admitted.project_ref {
            Some(project) => admitted.role@ + "@"@ + project@,
            None => admitted.role@,
        })),
        step matches StartStep::Attach { address } ==> auto_attach && (rd.created matches Some(Ok(_))) && (
        rd.admission matches Some(Ok(admitted)) && address@ == (match admitted.project_ref {
            Some(project) => admitted.role@ + "@"@ + project@,
            None => admitted.role@,
        })),
        step is Fail && !(requested is Some && requested != Some(served)) ==> (rd.local_space matches Some(Err(_))) || (
        rd.admission matches Some(Err(_))) || (rd.remote_space matches Some(Err(_))) || (rd.generation matches Some(Err(_))) || (
        rd.created matches Some(Err(_))) || (rd.attached matches Some(Err(_))),
{
}

/// Waiting to attach ends well when, and only when, an attempt succeeded. It
/// goes on, with what was last learnt, past everything that happens to other
/// convoys, and ends with the deadline, with the watch and with the convoy.
pub proof fn law_waiting_ends_with_the_convoy(r: WaitStep, name: Seq<char>, address: Seq<char>, last: Seq<char>, event: WaitEvent)
    requires
        wait_decided(r, name, address, last, event),
    ensures
        r is Attached <==> (event matches WaitEvent::Tried { outcome: Ok(_) }),
        event matches WaitEvent::Tried { outcome: Err(e) } ==> (r matches WaitStep::GoOn { last_error } && last_error@ == e@),
        event is Deadline || event is WatchEnded || event is WatchFailed || event is Unwatchable ==> r is Fail,
        event is Unrelated ==> (r matches WaitStep::GoOn { last_error } && last_error@ == last),
        event matches WaitEvent::Deleted { record_name } ==> if record_name@ == name {
            r is Fail
        } else {
            r matches WaitStep::GoOn { last_error } && last_error@ == last
        },
        (event matches WaitEvent::Seen { convoy } && convoy.record_name@ != name) ==> (r matches WaitStep::GoOn { last_error }
            && last_error@ == last),
{
}

proof fn lemma_first_failed(work: Seq<crate::admission::StartingWork>)
    ensures
        0 <= first_failed(work) <= work.len(),
        first_failed(work) < work.len() ==> work[first_failed(work)].failed,
        forall|i: int| 0 <= i < first_failed(work) ==> !(#[trigger] work[i]).failed,
    decreases work.len(),
{
    if work.len() > 0 && !work[0].failed {
        let rest = work.drop_first();
        lemma_first_failed(rest);
        assert forall|i: int| 0 <= i < first_failed(work) implies !(#[trigger] work[i]).failed by {
            if i > 0 {
                assert(rest[i - 1] == work[i]);
            }
        }
    }
}

/// A convoy that reports its phase will not start where some of its work
/// failed, where it failed itself and where it was cancelled, and only there.
pub proof fn law_failed_work_ends_the_start(convoy: StartingConvoy)
    ensures
        start_failure(convoy) is Some <==> (convoy.phase matches Some(phase) && (phase is Failed || phase is Cancelled || exists|i: int|
            0 <= i < convoy.work@.len() && (#[trigger] convoy.work@[i]).failed)),
{
    lemma_first_failed(convoy.work@);
}

/// A condition that is true and was observed less than `ttl` nanoseconds ago,
/// and not in the future.
pub open spec fn vouched(condition: IntegrationCondition, now: Timestamp, ttl: int) -> bool {
    &&& condition.value == ConditionValue::True
    &&& condition.observed_at matches Some(text) && instant_in(text@) matches Some(at) && 0 <= span(
        now.secs(),
        now.nanos(),
        at.0,
        at.1,
    ) < ttl
}

proof fn lemma_present3(a: Option<Seq<char>>, b: Option<Seq<char>>, c: Option<Seq<char>>)
    ensures
        present(seq![a, b, c]).len() == 0 <==> a is None && b is None && c is None,
{
    reveal_with_fuel(present, 4);
    let all = seq![a, b, c];
    assert(all.drop_last() == seq![a, b]);
    assert(seq![a, b].drop_last() == seq![a]);
    assert(seq![a].drop_last().len() == 0);
}

/// Whether nothing speaks against removing a checkout, or nobody asks.
spec fn free(checkout: GateCheckout, expected: Seq<Seq<char>>, sanctioned: bool, now: Timestamp, ttl: int) -> bool {
    holds(expected, checkout.name@) && !(sanctioned && checkout.deleting) ==> (checkout.adopted matches Ok(adopted)
        && crate::evidence::refusal(checkout, adopted, now, ttl) is None)
}

proof fn lemma_unrefused(checkouts: Seq<GateCheckout>, expected: Seq<Seq<char>>, sanctioned: bool, now: Timestamp, ttl: int, i: int)
    requires
        refusals(checkouts, expected, sanctioned, now, ttl) matches Ok(list) && list.len() == 0,
        0 <= i < checkouts.len(),
    ensures
        free(checkouts[i], expected, sanctioned, now, ttl),
    decreases checkouts.len(),
{
    if i < checkouts.len() - 1 {
        assert(checkouts.drop_last()[i] == checkouts[i]);
        lemma_unrefused(checkouts.drop_last(), expected, sanctioned, now, ttl, i);
    }
}

proof fn lemma_no_refusals(checkouts: Seq<GateCheckout>, expected: Seq<Seq<char>>, sanctioned: bool, now: Timestamp, ttl: int)
    requires
        forall|i: int| 0 <= i < checkouts.len() ==> free(#[trigger] checkouts[i], expected, sanctioned, now, ttl),
    ensures
        refusals(checkouts, expected, sanctioned, now, ttl) matches Ok(list) && list.len() == 0,
    decreases checkouts.len(),
{
    if checkouts.len() > 0 {
        let front = checkouts.drop_last();
        assert forall|i: int| 0 <= i < front.len() implies free(#[trigger] front[i], expected, sanctioned, now, ttl) by {
            assert(front[i] == checkouts[i]);
        }
        lemma_no_refusals(front, expected, sanctioned, now, ttl);
        assert(free(checkouts[checkouts.len() - 1], expected, sanctioned, now, ttl));
    }
}

proof fn lemma_refusal(checkout: GateCheckout, adopted: bool, now: Timestamp, ttl: int)
    ensures
        crate::evidence::refusal(checkout, adopted, now, ttl) is None <==> (checkout.integration matches Some(found) && vouched(
            found.landed,
            now,
            ttl,
        ) && (adopted || vouched(found.clean, now, ttl) && vouched(found.pushed, now, ttl))),
{
    match checkout.integration {
        None => {},
        Some(found) => {
            let fresh = |c: IntegrationCondition| crate::evidence::is_fresh(c, now, ttl);
            let clean = if adopted || fresh(found.clean) {
                None
            } else {
                Some("Clean"@)
            };
            let pushed = if adopted || fresh(found.pushed) {
                None
            } else {
                Some("Pushed"@)
            };
            let landed = if fresh(found.landed) {
                None
            } else {
                Some("Landed"@)
            };
            lemma_present3(clean, pushed, landed);
            assert(stale_labels(adopted, found, now, ttl) == present(seq![clean, pushed, landed]));
            lemma_present3(
                crate::evidence::problem("Clean"@, found.clean),
                crate::evidence::problem("Pushed"@, found.pushed),
                crate::evidence::problem("Landed"@, found.landed),
            );
        },
    }
}

proof fn lemma_present_name(checkouts: Seq<GateCheckout>, name: Seq<char>)
    ensures
        holds(checkout_names(checkouts), name) <==> exists|i: int|
            0 <= i < checkouts.len() && (#[trigger] checkouts[i]).name@ == name,
{
    let listed = checkout_names(checkouts);
    if holds(listed, name) {
        let i = choose|i: int| 0 <= i < listed.len() && #[trigger] listed[i] == name;
        assert(checkouts[i].name@ == name);
    }
    if exists|i: int| 0 <= i < checkouts.len() && (#[trigger] checkouts[i]).name@ == name {
        let i = choose|i: int| 0 <= i < checkouts.len() && (#[trigger] checkouts[i]).name@ == name;
        assert(listed[i] == name);
    }
}

proof fn lemma_none_missing(expected: Seq<Seq<char>>, checkouts: Seq<GateCheckout>, e: int)
    requires
        missing_from(expected, checkouts).len() == 0,
        0 <= e < expected.len(),
    ensures
        holds(checkout_names(checkouts), expected[e]),
    decreases expected.len(),
{
    if e < expected.len() - 1 {
        assert(expected.drop_last()[e] == expected[e]);
        lemma_none_missing(expected.drop_last(), checkouts, e);
    }
}

proof fn lemma_all_there(expected: Seq<Seq<char>>, checkouts: Seq<GateCheckout>)
    requires
        forall|e: int| 0 <= e < expected.len() ==> holds(checkout_names(checkouts), #[trigger] expected[e]),
    ensures
        missing_from(expected, checkouts).len() == 0,
    decreases expected.len(),
{
    if expected.len() > 0 {
        let front = expected.drop_last();
        assert forall|e: int| 0 <= e < front.len() implies holds(checkout_names(checkouts), #[trigger] front[e]) by {
            assert(front[e] == expected[e]);
        }
        lemma_all_there(front, checkouts);
        assert(holds(checkout_names(checkouts), expected[expected.len() - 1]));
    }
}

/// Whether a checkout is among those that a convoy made.
pub open spec fn made(expected: Seq<String>, checkout: GateCheckout) -> bool {
    exists|e: int| 0 <= e < expected.len() && (#[trigger] expected[e])@ == checkout.name@
}

/// Whether all that a checkout held is known to have landed, lately, and,
/// unless it was adopted, to be clean and pushed as well.
pub open spec fn landed(checkout: GateCheckout, now: Timestamp, ttl: int) -> bool {
    checkout.adopted matches Ok(adopted) && (checkout.integration matches Some(found) && vouched(found.landed, now, ttl) && (adopted
        || vouched(found.clean, now, ttl) && vouched(found.pushed, now, ttl)))
}

/// Whether nothing of a convoy is lost with it: each of the checkouts that it
/// made is there, or its removal was agreed to, and each that is not on its
/// way out has landed.
pub open spec fn nothing_is_lost(case: TeardownCase, expected: Seq<String>, now: Timestamp, ttl: int) -> bool {
    &&& case.reclaim_sanctioned || forall|e: int|
        0 <= e < expected.len() ==> exists|i: int|
            0 <= i < case.checkouts@.len() && (#[trigger] case.checkouts@[i]).name@ == (#[trigger] expected[e])@
    &&& forall|i: int|
        0 <= i < case.checkouts@.len() && made(expected, #[trigger] case.checkouts@[i]) && !(case.reclaim_sanctioned
            && case.checkouts@[i].deleting) ==> landed(case.checkouts@[i], now, ttl)
}

proof fn lemma_free(checkout: GateCheckout, expected: Seq<String>, sanctioned: bool, now: Timestamp, ttl: int)
    ensures
        free(checkout, strs(expected), sanctioned, now, ttl) <==> (made(expected, checkout) && !(sanctioned && checkout.deleting)
            ==> landed(checkout, now, ttl)),
{
    let names = strs(expected);
    if holds(names, checkout.name@) {
        let e = choose|e: int| 0 <= e < names.len() && #[trigger] names[e] == checkout.name@;
        assert(expected[e]@ == checkout.name@);
    }
    if made(expected, checkout) {
        let e = choose|e: int| 0 <= e < expected.len() && (#[trigger] expected[e])@ == checkout.name@;
        assert(names[e] == checkout.name@);
    }
    if checkout.adopted is Ok {
        lemma_refusal(checkout, checkout.adopted->Ok_0, now, ttl);
    }
}

proof fn lemma_safe(case: TeardownCase, now: Timestamp, ttl: int)
    requires
        case.phase != Some(ConvoyPhase::Abandoned),
        case.expected is Ok,
        gate(case, false, now, ttl) is Ok,
    ensures
        nothing_is_lost(case, case.expected->Ok_0@, now, ttl),
{
    let expected = case.expected->Ok_0@;
    let checkouts = case.checkouts@;
    let names = strs(expected);
    assert(names.len() == expected.len());
    if expected.len() > 0 {
        if !case.reclaim_sanctioned {
            assert forall|e: int| 0 <= e < expected.len() implies exists|i: int|
                0 <= i < checkouts.len() && (#[trigger] checkouts[i]).name@ == (#[trigger] expected[e])@ by {
                lemma_none_missing(names, checkouts, e);
                lemma_present_name(checkouts, names[e]);
            }
        }
        assert forall|i: int|
            0 <= i < checkouts.len() && made(expected, #[trigger] checkouts[i]) && !(case.reclaim_sanctioned
                && checkouts[i].deleting) implies landed(checkouts[i], now, ttl) by {
            lemma_unrefused(checkouts, names, case.reclaim_sanctioned, now, ttl, i);
            lemma_free(checkouts[i], expected, case.reclaim_sanctioned, now, ttl);
        }
    }
}

proof fn lemma_lets_go(case: TeardownCase, now: Timestamp, ttl: int)
    requires
        case.expected is Ok,
        nothing_is_lost(case, case.expected->Ok_0@, now, ttl),
    ensures
        gate(case, false, now, ttl) is Ok,
{
    let expected = case.expected->Ok_0@;
    let checkouts = case.checkouts@;
    let names = strs(expected);
    assert(names.len() == expected.len());
    if !case.reclaim_sanctioned {
        assert forall|e: int| 0 <= e < names.len() implies holds(checkout_names(checkouts), #[trigger] names[e]) by {
            assert(names[e] == expected[e]@);
            lemma_present_name(checkouts, names[e]);
        }
        lemma_all_there(names, checkouts);
    }
    assert forall|i: int| 0 <= i < checkouts.len() implies free(#[trigger] checkouts[i], names, case.reclaim_sanctioned, now, ttl) by {
        lemma_free(checkouts[i], expected, case.reclaim_sanctioned, now, ttl);
    }
    lemma_no_refusals(checkouts, names, case.reclaim_sanctioned, now, ttl);
}

/// A convoy that is neither given up nor forced may go when, and only when,
/// nothing of it is lost.
pub proof fn law_convoys_go_when_all_has_landed(case: TeardownCase, now: Timestamp, ttl: int)
    requires
        case.phase != Some(ConvoyPhase::Abandoned),
    ensures
        gate(case, false, now, ttl) is Ok <==> (case.expected matches Ok(expected) && nothing_is_lost(case, expected@, now, ttl)),
{
    if case.expected is Ok {
        if gate(case, false, now, ttl) is Ok {
            lemma_safe(case, now, ttl);
        }
        if nothing_is_lost(case, case.expected->Ok_0@, now, ttl) {
            lemma_lets_go(case, now, ttl);
        }
    }
}

/// A convoy that was given up, or is to go by force, goes.
pub proof fn law_given_up_convoys_may_go(case: TeardownCase, force: bool, now: Timestamp, ttl: int)
    requires
        force || case.phase == Some(ConvoyPhase::Abandoned),
    ensures
        gate(case, force, now, ttl) is Ok,
{
}

/// A convoy is removed after it was found safe to and after all that it made
/// was removed, in this order; each failure ends it; force is passed on as it
/// was given.
pub proof fn law_convoys_are_removed_in_order(step: ReapStep, force: bool, rd: ReapReadings)
    requires
        reaped_by(step, force, rd),
    ensures
        step matches ReapStep::Verify { force: asked } ==> asked == force && rd.verified is None,
        step is Cascade ==> (rd.verified matches Some(Ok(_))) && rd.cascaded is None,
        step is Delete ==> (rd.verified matches Some(Ok(_))) && (rd.cascaded matches Some(Ok(_))) && rd.deleted is None,
        step is Done ==> (rd.verified matches Some(Ok(_))) && (rd.cascaded matches Some(Ok(_))) && (rd.deleted matches Some(Ok(_))),
        (rd.verified matches Some(Err(_))) ==> step is Refuse,
        step is Refuse ==> (rd.verified matches Some(Err(_))) || (rd.cascaded matches Some(Err(_))) || (rd.deleted matches Some(
            Err(_),
        )),
{
}

/// Everything that a convoy makes is removed with it, once: what shows it
/// first, the sessions before the checkouts that they work in, and what it
/// demanded last.
pub proof fn law_children_go_in_order(kind: ChildKind)
    ensures
        exists|i: int| 0 <= i < child_kinds().len() && #[trigger] child_kinds()[i] == kind,
        child_kinds().len() == 5,
        forall|i: int, j: int|
            0 <= i < j < child_kinds().len() ==> !(#[trigger] child_kinds()[i] is Checkout && #[trigger] child_kinds()[j] is TerminalSession)
                && !(child_kinds()[i] is TerminalSession && child_kinds()[j] is Vessel) && !(child_kinds()[i] is Demand)
                && !(child_kinds()[j] is Presentation),
{
    let kinds = child_kinds();
    assert(kinds[0] is Presentation && kinds[1] is Vessel && kinds[2] is TerminalSession && kinds[3] is Checkout
        && kinds[4] is Demand);
}

proof fn lemma_demands(demands: Seq<DemandRecord>, kind: RecordKind, namespace: Seq<char>, name: Seq<char>, demand: Seq<char>)
    ensures
        holds(demands_of(demands, kind, namespace, name), demand) <==> exists|i: int|
            0 <= i < demands.len() && (#[trigger] demands[i]).name@ == demand && demands[i].api_version@ == kind.api_version@
                && demands[i].kind@ == kind.kind@ && demands[i].namespace@ == namespace && demands[i].target@ == name,
    decreases demands.len(),
{
    if demands.len() > 0 {
        let front = demands.drop_last();
        lemma_demands(front, kind, namespace, name, demand);
        let before = demands_of(front, kind, namespace, name);
        let all = demands_of(demands, kind, namespace, name);
        let n = demands.len() - 1;
        assert(demands[n] == demands.last());
        let fits = |d: DemandRecord|
            d.name@ == demand && d.api_version@ == kind.api_version@ && d.kind@ == kind.kind@ && d.namespace@ == namespace && d.target@
                == name;
        if holds(all, demand) {
            let k = choose|k: int| 0 <= k < all.len() && #[trigger] all[k] == demand;
            if k < before.len() {
                assert(before[k] == demand);
                let i = choose|i: int| 0 <= i < front.len() && fits(#[trigger] front[i]);
                assert(demands[i] == front[i]);
            }
        }
        if exists|i: int| 0 <= i < demands.len() && fits(#[trigger] demands[i]) {
            let i = choose|i: int| 0 <= i < demands.len() && fits(#[trigger] demands[i]);
            if i < n {
                assert(front[i] == demands[i]);
                assert(holds(before, demand));
                let k = choose|k: int| 0 <= k < before.len() && #[trigger] before[k] == demand;
                assert(all[k] == demand);
            } else {
                assert(all[before.len() as int] == demand);
            }
        }
    }
}

/// The demands that go with a convoy are those that were raised for exactly
/// this record: of its kind and version, in its namespace, under its name.
pub proof fn law_demands_go_with_their_convoy(
    demands: Seq<DemandRecord>,
    kind: RecordKind,
    namespace: Seq<char>,
    name: Seq<char>,
    demand: Seq<char>,
)
    ensures
        holds(demands_of(demands, kind, namespace, name), demand) <==> exists|i: int|
            0 <= i < demands.len() && (#[trigger] demands[i]).name@ == demand && demands[i].api_version@ == kind.api_version@
                && demands[i].kind@ == kind.kind@ && demands[i].namespace@ == namespace && demands[i].target@ == name,
{
    lemma_demands(demands, kind, namespace, name, demand);
}

/// A start that failed is told with what failed: the first work of it that
/// did, and what the work says; else what the convoy says; and that it was
/// cancelled where it was.
pub proof fn law_failed_starts_say_why(c: StartingConvoy, i: int)
    requires
        c.phase is Some,
        0 <= i <= c.work@.len(),
        forall|k: int| 0 <= k < i ==> !(#[trigger] c.work@[k]).failed,
        i < c.work@.len() ==> c.work@[i].failed,
    ensures
        ({
            let who = (if c.role@.len() == 0 {
                c.record_name@
            } else {
                c.role@
            }) + (match c.project_ref {
                Some(project) => "@"@ + project@,
                None => Seq::empty(),
            });
            &&& (i < c.work@.len() && (c.work@[i].message matches Some(m) && m@.len() > 0 && !is_space(m@[0]))) ==> start_failure(c) == Some(
                "convoy "@ + who + " failed while starting work "@ + c.work@[i].name@ + ": "@ + c.work@[i].message->0@,
            )
            &&& (i < c.work@.len() && c.work@[i].message is None) ==> start_failure(c) == Some(
                "convoy "@ + who + " failed while starting work "@ + c.work@[i].name@ + ": "@ + "work failed without a message"@,
            )
            &&& (i == c.work@.len() && c.phase == Some(ConvoyPhase::Failed) && (c.message matches Some(m) && m@.len() > 0 && !is_space(m@[0])))
                ==> start_failure(c) == Some("convoy "@ + who + " failed while starting: "@ + c.message->0@)
            &&& (i == c.work@.len() && c.phase == Some(ConvoyPhase::Failed) && c.message is None) ==> start_failure(c) == Some(
                "convoy "@ + who + " failed while starting"@,
            )
            &&& (i == c.work@.len() && c.phase == Some(ConvoyPhase::Cancelled)) ==> start_failure(c) == Some(
                "convoy "@ + who + " was cancelled while starting"@,
            )
            &&& start_failure(c) is Some <==> i < c.work@.len() || c.phase == Some(ConvoyPhase::Failed) || c.phase == Some(
                ConvoyPhase::Cancelled,
            )
        }),
{
    lemma_first_failed_at(c.work@, i);
    let role = if c.role@.len() == 0 {
        c.record_name@
    } else {
        c.role@
    };
    assert(role + Seq::<char>::empty() =~= role);
    if let Some(project) = c.project_ref {
        assert(role + ("@"@ + project@) =~= role + "@"@ + project@);
    }
    if i < c.work@.len() {
        if let Some(m) = c.work@[i].message {
            crate::text_laws::law_blank_texts_are_white(m@);
        }
    }
    if let Some(m) = c.message {
        crate::text_laws::law_blank_texts_are_white(m@);
    }
}

proof fn lemma_first_failed_at(work: Seq<crate::admission::StartingWork>, i: int)
    requires
        0 <= i <= work.len(),
        forall|k: int| 0 <= k < i ==> !(#[trigger] work[k]).failed,
        i < work.len() ==> work[i].failed,
    ensures
        crate::admission::first_failed(work) == i,
    decreases work.len(),
{
    if i > 0 {
        let rest = work.drop_first();
        assert(!work[0].failed);
        assert forall|k: int| 0 <= k < i - 1 implies !(#[trigger] rest[k]).failed by {
            assert(rest[k] == work[k + 1]);
        }
        lemma_first_failed_at(rest, i - 1);
    }
}

} // verus!
