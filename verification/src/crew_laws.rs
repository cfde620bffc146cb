//! What holds of crews: who speaks, who is given which brief, whom a handoff
//! reaches, and how a message gets to its session.
use vstd::prelude::*;

use crate::crew::{
    adopted_path, brief_roots, caller_at, completing, completion_decided, completion_of, crew_at, crew_listed, crew_routing,
    handoff_decided, handoff_to, mentions, process_at, vessel_at, work_phase, AdoptedCheckoutPath, CompleteStep, CrewBriefMember,
    CrewCommandContext, CrewDuty, CrewList, CrewListMember, CrewProcess, CrewRoutingContext, CrewedVessel, HandoffStep, HandoffTarget,
    PendingBrief, PendingCompletion, ResolvedCrewContext, TargetSession,
};
use crate::crew_work::{completion_effects, handoff_effects, resume_effects, CompletionView, EffectView, NoteView};
use crate::messages::{
    brief_target, briefable, briefable_at, forge_scope, held_at, hold_comment, resume_decided, text_at, turn_delivered, BriefedConvoy,
    HeldRepository, HeldRequest, ResumeStep, TurnDelivery, TurnDeliveryRequest,
};
use crate::model::{AttentionState, ConvoyPhase, CrewAttention, CrewWorkPhase, SessionPhase, SessionSource, TerminalSession};
use crate::text::{opt, starts, trim};

verus! {

proof fn lemma_work_phase(work: Seq<CrewDuty>, vessel: Seq<char>, role: Seq<char>)
    ensures
        work_phase(work, vessel, role) is Some <==> exists|i: int|
            0 <= i < work.len() && (#[trigger] work[i]).vessel@ == vessel && work[i].role@ == role,
        work_phase(work, vessel, role) is Some ==> exists|i: int|
            0 <= i < work.len() && (#[trigger] work[i]).vessel@ == vessel && work[i].role@ == role && work[i].phase
                == work_phase(work, vessel, role)->0,
        forall|i: int|
            0 <= i < work.len() && (#[trigger] work[i]).vessel@ == vessel && work[i].role@ == role && (forall|k: int|
                0 <= k < i ==> !((#[trigger] work[k]).vessel@ == vessel && work[k].role@ == role)) ==> work_phase(
                work,
                vessel,
                role,
            ) == Some(work[i].phase),
    decreases work.len(),
{
    if work.len() > 0 {
        let rest = work.drop_first();
        lemma_work_phase(rest, vessel, role);
        if work[0].vessel@ == vessel && work[0].role@ == role {
            assert(work[0].phase == work_phase(work, vessel, role)->0);
        } else {
            if work_phase(rest, vessel, role) is Some {
                let i = choose|i: int|
                    0 <= i < rest.len() && (#[trigger] rest[i]).vessel@ == vessel && rest[i].role@ == role && rest[i].phase
                        == work_phase(rest, vessel, role)->0;
                assert(work[i + 1] == rest[i]);
            }
            assert forall|i: int| 0 <= i < work.len() && (#[trigger] work[i]).vessel@ == vessel && work[i].role@ == role implies work_phase(
                work,
                vessel,
                role,
            ) is Some by {
                assert(rest[i - 1] == work[i]);
            }
            assert forall|i: int|
                0 <= i < work.len() && (#[trigger] work[i]).vessel@ == vessel && work[i].role@ == role && (forall|k: int|
                    0 <= k < i ==> !((#[trigger] work[k]).vessel@ == vessel && work[k].role@ == role)) implies work_phase(
                work,
                vessel,
                role,
            ) == Some(work[i].phase) by {
                assert(i > 0);
                assert(rest[i - 1] == work[i]);
                assert forall|k: int| 0 <= k < i - 1 implies !((#[trigger] rest[k]).vessel@ == vessel && rest[k].role@ == role) by {
                    assert(rest[k] == work[k + 1]);
                }
            }
        }
    }
}

/// Who says that its work is done is given a brief that waits only where that
/// brief is for its own vessel and its own role, and then is given it whole.
/// With no such brief, recorded work is marked completed, and what waits for
/// somebody else stays waiting.
pub proof fn law_briefs_reach_whom_they_are_for(
    r: CompleteStep,
    context: ResolvedCrewContext,
    session_name: Option<Seq<char>>,
    work: Seq<CrewDuty>,
    pending: Option<PendingBrief>,
    i: int,
)
    requires
        completion_decided(r, context, session_name, work, pending),
        0 <= i < work.len(),
        work[i].vessel@ == context.vessel@,
        work[i].role@ == context.caller_role@,
    ensures
        r matches CompleteStep::DeliverPending { session_name: to, content } ==> (pending matches Some(brief) && brief.vessel@
            == context.vessel@ && brief.role@ == context.caller_role@ && brief.content@ == content@) && session_name == Some(to@),
        (pending matches Some(brief) ==> brief.vessel@ != context.vessel@ || brief.role@ != context.caller_role@) ==> (
        r matches CompleteStep::MarkCompleted { clear_session } && opt(clear_session) == session_name),
        (pending matches Some(brief) && brief.vessel@ == context.vessel@ && brief.role@ == context.caller_role@) ==> !(r is MarkCompleted),
        (pending matches Some(brief) && brief.vessel@ == context.vessel@ && brief.role@ == context.caller_role@) && session_name is Some
            ==> r is DeliverPending,
{
    lemma_work_phase(work, context.vessel@, context.caller_role@);
}

/// Nobody finishes work that is not recorded as theirs.
pub proof fn law_only_recorded_work_is_finished(
    r: CompleteStep,
    context: ResolvedCrewContext,
    session_name: Option<Seq<char>>,
    work: Seq<CrewDuty>,
    pending: Option<PendingBrief>,
)
    requires
        completion_decided(r, context, session_name, work, pending),
        forall|i: int|
            0 <= i < work.len() ==> (#[trigger] work[i]).vessel@ != context.vessel@ || work[i].role@ != context.caller_role@,
    ensures
        r is Fail,
{
    lemma_work_phase(work, context.vessel@, context.caller_role@);
}

/// What is done for finished work: the work is noted as completed in the name
/// of the caller, with all that it said, and nothing is sent; a brief that
/// waited is sent to the caller's session before it is noted.
pub proof fn law_completions_are_noted(context: ResolvedCrewContext, said: CompletionView, step: CompleteStep)
    ensures
        step is Fail ==> completion_effects(context, said, step) is Err,
        step is MarkCompleted ==> (completion_effects(context, said, step) matches Ok(effects) && effects.len() > 0
            && effects[0] == (EffectView::Note {
            note: NoteView::Completed { vessel: context.vessel@, role: context.caller_role@, said },
        }) && (forall|i: int| 0 <= i < effects.len() ==> !((#[trigger] effects[i]) is Queue) && !(effects[i] is Restart)
            && !(effects[i] is Start)) && (step->clear_session matches Some(s) ==> effects.len() == 2 && effects[1]
            == (EffectView::ClearCompletion { session: s@ }))),
        step matches CompleteStep::DeliverPending { session_name, content } ==> (completion_effects(context, said, step) matches Ok(
            effects,
        ) && effects.len() == 3 && effects[0] == (EffectView::Queue { session: session_name@, text: content@ }) && effects[1]
            == (EffectView::Note {
            note: NoteView::PendingDelivered {
                vessel: context.vessel@,
                role: context.caller_role@,
                content: content@,
                said,
            },
        })),
{
}

/// What is done for a handoff: the message, under the name of who sends it, is
/// left with the target's session, which is started again where it stopped; or
/// a session is started. The handoff is noted from the caller to the target.
pub proof fn law_handoffs_are_delivered(
    context: ResolvedCrewContext,
    target: Seq<char>,
    message: Seq<char>,
    session: Seq<char>,
    step: HandoffStep,
)
    ensures
        step is Fail ==> handoff_effects(context, target, message, session, step) is Err,
        step matches HandoffStep::Queue { restart } ==> (handoff_effects(context, target, message, session, step) matches Ok(effects)
            && (effects[0] matches EffectView::Queue { session: to, text } && to == session && text == "handoff from "@
            + context.caller_role@ + "@"@ + context.vessel@ + "\n\n"@ + message) && effects.len() == (if restart {
            3int
        } else {
            2int
        }) && (restart ==> effects[1] == (EffectView::Restart { session }))),
        step matches HandoffStep::Launch { anchor } ==> (handoff_effects(context, target, message, session, step) matches Ok(
            effects,
        ) && effects.len() == 2 && effects[0] == (EffectView::Start { anchor: anchor@ })),
        handoff_effects(context, target, message, session, step) matches Ok(effects) ==> effects.last() == (EffectView::Note {
            note: NoteView::HandedOff { vessel: context.vessel@, from: context.caller_role@, to: target, message },
        }),
{
}

/// What is done to brief a crew member: a brief that is delivered is left with
/// the session, which is started again where it stopped, and noted; one that
/// is kept is noted and disturbs nobody.
pub proof fn law_briefs_are_delivered_or_kept(target: CrewDuty, prompt: Seq<char>, step: ResumeStep)
    ensures
        step is Fail ==> resume_effects(target, prompt, step) is Err,
        step is Queue ==> (resume_effects(target, prompt, step) matches Ok(effects) && effects.len() == 1 && effects[0]
            == (EffectView::Note {
            note: NoteView::BriefQueued { vessel: target.vessel@, role: target.role@, content: prompt },
        })),
        step matches ResumeStep::Deliver { session_name, restart, displaced } ==> (resume_effects(target, prompt, step) matches Ok(
            effects,
        ) && effects[0] == (EffectView::Queue { session: session_name@, text: prompt }) && effects.last() == (EffectView::Note {
            note: NoteView::Resumed { vessel: target.vessel@, role: target.role@, prompt },
        }) && effects.len() == (if restart {
            3int
        } else {
            2int
        }) && (restart ==> effects[1] == (EffectView::Restart { session: session_name@ }))),
{
}

proof fn lemma_vessel(vessels: Seq<CrewedVessel>, name: Seq<char>)
    ensures
        0 <= vessel_at(vessels, name) <= vessels.len(),
        vessel_at(vessels, name) < vessels.len() ==> vessels[vessel_at(vessels, name)].name@ == name,
        forall|i: int| 0 <= i < vessel_at(vessels, name) ==> (#[trigger] vessels[i]).name@ != name,
    decreases vessels.len(),
{
    if vessels.len() > 0 && vessels[0].name@ != name {
        let rest = vessels.drop_first();
        lemma_vessel(rest, name);
        assert forall|i: int| 0 <= i < vessel_at(vessels, name) implies (#[trigger] vessels[i]).name@ != name by {
            if i > 0 {
                assert(vessels[i] == rest[i - 1]);
            }
        }
    }
}

proof fn lemma_process(crew: Seq<CrewProcess>, role: Seq<char>)
    ensures
        0 <= process_at(crew, role) <= crew.len(),
        process_at(crew, role) < crew.len() ==> crew[process_at(crew, role)].role@ == role,
        forall|i: int| 0 <= i < process_at(crew, role) ==> (#[trigger] crew[i]).role@ != role,
    decreases crew.len(),
{
    if crew.len() > 0 && crew[0].role@ != role {
        let rest = crew.drop_first();
        lemma_process(rest, role);
        assert forall|i: int| 0 <= i < process_at(crew, role) implies (#[trigger] crew[i]).role@ != role by {
            if i > 0 {
                assert(crew[i] == rest[i - 1]);
            }
        }
    }
}

/// A handoff goes to another member of the caller's own vessel that an agent
/// plays and whose work has not failed, and to nobody else; and it does go to
/// every such member.
pub proof fn law_handoffs_reach_able_members(
    r: Result<HandoffTarget, String>,
    context: ResolvedCrewContext,
    target: Seq<char>,
    vessels: Seq<CrewedVessel>,
    work: Seq<CrewDuty>,
    v: int,
    c: int,
)
    requires
        handoff_to(r, context, target, vessels, work),
        0 <= v < vessels.len(),
        vessels[v].name@ == context.vessel@,
        forall|i: int| 0 <= i < v ==> (#[trigger] vessels[i]).name@ != context.vessel@,
        0 <= c < vessels[v].crew@.len(),
        vessels[v].crew@[c].role@ == target,
        forall|i: int| 0 <= i < c ==> (#[trigger] vessels[v].crew@[i]).role@ != target,
        forall|i: int, k: int|
            0 <= i < k < work.len() && #[trigger] work[i].vessel@ == #[trigger] work[k].vessel@ ==> work[i].role@ != work[k].role@,
    ensures
        r is Ok <==> target != context.caller_role@ && vessels[v].crew@[c].agent is Some && forall|i: int|
            0 <= i < work.len() && (#[trigger] work[i]).vessel@ == context.vessel@ && work[i].role@ == target ==> work[i].phase
                != CrewWorkPhase::Failed,
        r matches Ok(t) ==> t.vessel_index == v && t.crew_index == c,
{
    lemma_vessel(vessels, context.vessel@);
    lemma_process(vessels[v].crew@, target);
    lemma_work_phase(work, context.vessel@, target);
    if work_phase(work, context.vessel@, target) is Some {
        let w = choose|i: int|
            0 <= i < work.len() && (#[trigger] work[i]).vessel@ == context.vessel@ && work[i].role@ == target && work[i].phase
                == work_phase(work, context.vessel@, target)->0;
        assert forall|i: int| 0 <= i < work.len() && (#[trigger] work[i]).vessel@ == context.vessel@ && work[i].role@ == target implies i == w by {
            if i < w {
                assert(work[i].vessel@ == work[w].vessel@);
            } else if w < i {
                assert(work[w].vessel@ == work[i].vessel@);
            }
        }
    }
}

/// Nobody outside the caller's vessel is handed anything.
pub proof fn law_handoffs_stay_aboard(
    r: Result<HandoffTarget, String>,
    context: ResolvedCrewContext,
    target: Seq<char>,
    vessels: Seq<CrewedVessel>,
    work: Seq<CrewDuty>,
)
    requires
        handoff_to(r, context, target, vessels, work),
        forall|v: int, c: int|
            0 <= v < vessels.len() && 0 <= c < vessels[v].crew@.len() && (#[trigger] vessels[v].crew@[c]).role@ == target
                ==> vessels[v].name@ != context.vessel@,
    ensures
        r is Err,
{
    lemma_vessel(vessels, context.vessel@);
    let at = vessel_at(vessels, context.vessel@);
    if at < vessels.len() {
        lemma_process(vessels[at].crew@, target);
        let k = process_at(vessels[at].crew@, target);
        if k < vessels[at].crew@.len() {
            assert(vessels[at].crew@[k].role@ == target);
        }
    }
}

/// A message is left with a session only where an agent runs there that did
/// not fail, which is started again exactly where it stopped. Where there is
/// no session, one is started beside the caller's, else beside one of the
/// vessel; an error is passed on.
pub proof fn law_handoffs_reach_their_session(
    r: HandoffStep,
    target: Seq<char>,
    vessel_ref: Seq<char>,
    existing: TargetSession,
    caller_session: Option<Seq<char>>,
    vessel_sessions: Seq<Seq<char>>,
)
    requires
        handoff_decided(r, target, vessel_ref, existing, caller_session, vessel_sessions),
    ensures
        r is Queue <==> (existing matches TargetSession::Present { role, is_agent, phase } && is_agent && phase != Some(
            SessionPhase::Failed,
        )),
        (existing matches TargetSession::Present { role, is_agent, phase } && (r matches HandoffStep::Queue { restart } && restart)) ==> (
        existing matches TargetSession::Present { role, is_agent, phase } && phase == Some(SessionPhase::Stopped)),
        (existing matches TargetSession::Present { role, is_agent, phase } && is_agent && phase == Some(SessionPhase::Stopped)) ==> r
            == (HandoffStep::Queue { restart: true }),
        r is Launch <==> existing is Absent && (caller_session is Some || vessel_sessions.len() > 0),
        r matches HandoffStep::Launch { anchor } ==> anchor@ == (if caller_session is Some {
            caller_session->0
        } else {
            vessel_sessions[0]
        }),
        existing matches TargetSession::Unreadable { error } ==> (r matches HandoffStep::Fail { message } && message@ == error@),
{
}

proof fn lemma_crew_at(sessions: Seq<TerminalSession>, id: Seq<char>)
    ensures
        0 <= crew_at(sessions, id) <= sessions.len(),
        crew_at(sessions, id) < sessions.len() ==> (sessions[crew_at(sessions, id)].status matches Some(status) && (
        status.crew matches Some(crew) && crew.id@ == id)),
        forall|i: int|
            0 <= i < crew_at(sessions, id) ==> !((#[trigger] sessions[i]).status matches Some(status) && (
            status.crew matches Some(crew) && crew.id@ == id)),
    decreases sessions.len(),
{
    if sessions.len() > 0 {
        let rest = sessions.drop_first();
        lemma_crew_at(rest, id);
        assert forall|i: int| 0 <= i < crew_at(sessions, id) implies !((#[trigger] sessions[i]).status matches Some(status) && (
        status.crew matches Some(crew) && crew.id@ == id)) by {
            if i > 0 {
                assert(sessions[i] == rest[i - 1]);
            }
        }
    }
}

/// A command that gives a crew id comes from the session whose crew has that
/// id: its role, its vessel and its convoy, whatever else the command says.
/// An id that nobody has, a tool's, and a namespace that is not served are
/// refused.
pub proof fn law_crew_ids_tell_who_speaks(
    r: Result<CrewRoutingContext, String>,
    requested: CrewCommandContext,
    served: Seq<char>,
    sessions: Seq<TerminalSession>,
)
    requires
        crew_routing(r, requested, served, sessions),
        requested.crew_id is Some,
    ensures
        r matches Ok(c) ==> exists|i: int|
            {
                &&& 0 <= i < sessions.len()
                &&& ((#[trigger] sessions[i]).status matches Some(status) && (status.crew matches Some(crew) && crew.id@
                    == requested.crew_id->0@))
                &&& opt(c.session_name) == Some(sessions[i].name@)
                &&& opt(c.command_context.role) == Some(sessions[i].role@)
                &&& (sessions[i].source matches SessionSource::Agent { namespace, convoy, vessel_ref } && opt(
                    c.command_context.vessel_ref,
                ) == Some(vessel_ref@) && opt(c.command_context.convoy) == Some(convoy@) && c.convoy@ == convoy@)
                &&& opt(c.command_context.namespace) == Some(served)
            },
        (requested.namespace matches Some(n) && n@ != served) ==> r is Err,
        (forall|i: int|
            0 <= i < sessions.len() ==> !((#[trigger] sessions[i]).status matches Some(status) && (status.crew matches Some(crew)
                && crew.id@ == requested.crew_id->0@))) ==> r is Err,
{
    let id = requested.crew_id->0@;
    lemma_crew_at(sessions, id);
    let at = crew_at(sessions, id);
    if r is Ok {
        assert(sessions[at].status is Some);
    }
}

proof fn lemma_caller_at(sessions: Seq<TerminalSession>, convoy: Seq<char>, vessel_ref: Seq<char>, role: Seq<char>)
    ensures
        0 <= caller_at(sessions, convoy, vessel_ref, role) <= sessions.len(),
        caller_at(sessions, convoy, vessel_ref, role) < sessions.len() ==> sessions[caller_at(
            sessions,
            convoy,
            vessel_ref,
            role,
        )].role@ == role,
    decreases sessions.len(),
{
    if sessions.len() > 0 {
        lemma_caller_at(sessions.drop_first(), convoy, vessel_ref, role);
    }
}

/// A command without a crew id comes from whom it describes, and needs the
/// convoy, the vessel and the role for that; a session that is found for it
/// plays that role.
pub proof fn law_described_callers_are_believed(
    r: Result<CrewRoutingContext, String>,
    requested: CrewCommandContext,
    served: Seq<char>,
    sessions: Seq<TerminalSession>,
)
    requires
        crew_routing(r, requested, served, sessions),
        requested.crew_id is None,
    ensures
        r is Ok <==> (requested.namespace matches Some(n) ==> n@ == served) && requested.convoy is Some && requested.vessel_ref is Some
            && requested.role is Some,
        r matches Ok(c) ==> {
            &&& opt(c.command_context.namespace) == Some(served)
            &&& c.convoy@ == requested.convoy->0@
            &&& opt(c.command_context.convoy) == Some(requested.convoy->0@)
            &&& opt(c.command_context.vessel_ref) == Some(requested.vessel_ref->0@)
            &&& opt(c.command_context.role) == Some(requested.role->0@)
            &&& (c.session_name matches Some(name) ==> exists|i: int|
                0 <= i < sessions.len() && (#[trigger] sessions[i]).name@ == name@ && sessions[i].role@ == requested.role->0@)
        },
{
    if requested.convoy is Some && requested.vessel_ref is Some && requested.role is Some {
        lemma_caller_at(sessions, requested.convoy->0@, requested.vessel_ref->0@, requested.role->0@);
        let at = caller_at(sessions, requested.convoy->0@, requested.vessel_ref->0@, requested.role->0@);
        if r is Ok && r->Ok_0.session_name is Some {
            assert(sessions[at].name@ == r->Ok_0.session_name->0@);
        }
    }
}

/// The crew of a vessel is listed whole and in order, each member by its role,
/// as an agent or a tool; a member whose session runs is active, one without a
/// status is latent if it is an agent and pending if it is a tool.
pub proof fn law_crews_are_listed_whole(
    r: Result<CrewList, String>,
    context: ResolvedCrewContext,
    vessels: Seq<CrewedVessel>,
    sessions: Seq<TerminalSession>,
    work: Seq<CrewDuty>,
    v: int,
    k: int,
)
    requires
        crew_listed(r, context, vessels, sessions, work),
        0 <= v < vessels.len(),
        vessels[v].name@ == context.vessel@,
        forall|i: int| 0 <= i < v ==> (#[trigger] vessels[i]).name@ != context.vessel@,
        0 <= k < vessels[v].crew@.len(),
    ensures
        r matches Ok(list) && list.members@.len() == vessels[v].crew@.len() && {
            let m = list.members@[k];
            let p = vessels[v].crew@[k];
            &&& m.role@ == p.role@
            &&& m.kind@ == (if p.agent is Some {
                "agent"@
            } else {
                "tool"@
            })
            &&& (forall|i: int| 0 <= i < sessions.len() ==> (#[trigger] sessions[i]).role@ != p.role@) ==> m.state@ == (
            if p.agent is Some {
                "latent"@
            } else {
                "pending"@
            }) && m.attention is None && m.adapter is None
            &&& (forall|i: int|
                0 <= i < sessions.len() && (#[trigger] sessions[i]).role@ == p.role@ ==> (sessions[i].status matches Some(status)
                    && status.phase == SessionPhase::Running)) && (exists|i: int|
                0 <= i < sessions.len() && (#[trigger] sessions[i]).role@ == p.role@) ==> m.state@ == "active"@
            &&& m.attention == Some(CrewAttention::Stalled) || m.attention == Some(CrewAttention::Idle) ==> exists|i: int|
                0 <= i < sessions.len() && (#[trigger] sessions[i]).role@ == p.role@ && (sessions[i].status matches Some(status)
                    && status.phase == SessionPhase::Running && (status.attention matches Some(a) && a.state
                    == AttentionState::Idle && !a.stale))
        },
{
    lemma_vessel(vessels, context.vessel@);
    let list = r->Ok_0;
    let p = vessels[v].crew@[k];
    assert(crate::crew::lists_member(
        list.members@[k],
        p,
        crate::crew::session_of_role(sessions, p.role@),
        work_phase(work, context.vessel@, p.role@),
    ));
    lemma_session_of_role(sessions, p.role@);
}

proof fn lemma_session_of_role(sessions: Seq<TerminalSession>, role: Seq<char>)
    ensures
        crate::crew::session_of_role(sessions, role) matches Some(s) ==> exists|i: int|
            0 <= i < sessions.len() && (#[trigger] sessions[i]) == s && s.role@ == role,
        crate::crew::session_of_role(sessions, role) is None ==> forall|i: int|
            0 <= i < sessions.len() ==> (#[trigger] sessions[i]).role@ != role,
    decreases sessions.len(),
{
    if sessions.len() > 0 {
        let front = sessions.drop_last();
        lemma_session_of_role(front, role);
        if sessions.last().role@ == role {
            assert(sessions[sessions.len() - 1] == sessions.last());
        } else if crate::crew::session_of_role(front, role) is Some {
            let s = crate::crew::session_of_role(front, role)->0;
            let i = choose|i: int| 0 <= i < front.len() && (#[trigger] front[i]) == s && s.role@ == role;
            assert(sessions[i] == s);
        } else {
            assert forall|i: int| 0 <= i < sessions.len() implies (#[trigger] sessions[i]).role@ != role by {
                if i < front.len() {
                    assert(front[i] == sessions[i]);
                }
            }
        }
    }
}

/// Idle crews whose work waits are stalled, and idle ones whose work is
/// settled are idle; work that is pending or under way waits.
pub proof fn law_idle_crews_with_work_are_stalled(
    r: Result<CrewList, String>,
    context: ResolvedCrewContext,
    vessels: Seq<CrewedVessel>,
    sessions: Seq<TerminalSession>,
    work: Seq<CrewDuty>,
    v: int,
    k: int,
    w: int,
)
    requires
        crew_listed(r, context, vessels, sessions, work),
        0 <= v < vessels.len(),
        vessels[v].name@ == context.vessel@,
        forall|i: int| 0 <= i < v ==> (#[trigger] vessels[i]).name@ != context.vessel@,
        0 <= k < vessels[v].crew@.len(),
        0 <= w < work.len(),
        work[w].vessel@ == context.vessel@,
        work[w].role@ == vessels[v].crew@[k].role@,
        forall|i: int| 0 <= i < w ==> !((#[trigger] work[i]).vessel@ == work[w].vessel@ && work[i].role@ == work[w].role@),
    ensures
        r matches Ok(list) && (list.members@[k].attention == Some(CrewAttention::Stalled) ==> work[w].phase
            == CrewWorkPhase::Pending || work[w].phase == CrewWorkPhase::Working) && (list.members@[k].attention == Some(
            CrewAttention::Idle,
        ) ==> work[w].phase == CrewWorkPhase::Done || work[w].phase == CrewWorkPhase::HandedBack || work[w].phase
            == CrewWorkPhase::Failed),
{
    lemma_vessel(vessels, context.vessel@);
    let list = r->Ok_0;
    let p = vessels[v].crew@[k];
    assert(crate::crew::lists_member(
        list.members@[k],
        p,
        crate::crew::session_of_role(sessions, p.role@),
        work_phase(work, context.vessel@, p.role@),
    ));
    lemma_work_phase(work, context.vessel@, p.role@);
}

proof fn lemma_briefable(work: Seq<CrewDuty>, vessel: Option<Seq<char>>, role: Option<Seq<char>>)
    ensures
        forall|k: int|
            0 <= k < briefable_at(work, vessel, role).len() ==> 0 <= #[trigger] briefable_at(work, vessel, role)[k] < work.len()
                && briefable(work[briefable_at(work, vessel, role)[k]], vessel, role),
        forall|i: int| 0 <= i < work.len() && briefable(work[i], vessel, role) ==> #[trigger] briefable_at(work, vessel, role).contains(i),
        forall|a: int, b: int|
            0 <= a < b < briefable_at(work, vessel, role).len() ==> #[trigger] briefable_at(work, vessel, role)[a]
                < #[trigger] briefable_at(work, vessel, role)[b],
    decreases work.len(),
{
    if work.len() > 0 {
        let front = work.drop_last();
        lemma_briefable(front, vessel, role);
        let before = briefable_at(front, vessel, role);
        let all = briefable_at(work, vessel, role);
        assert forall|k: int| 0 <= k < all.len() implies 0 <= #[trigger] all[k] < work.len() && briefable(work[all[k]], vessel, role) by {
            if k < before.len() {
                assert(all[k] == before[k]);
                assert(front[before[k]] == work[before[k]]);
            }
        }
        assert forall|i: int| 0 <= i < work.len() && briefable(work[i], vessel, role) implies #[trigger] all.contains(i) by {
            if i < front.len() {
                assert(front[i] == work[i]);
                assert(before.contains(i));
                let k = choose|k: int| 0 <= k < before.len() && before[k] == i;
                assert(all[k] == i);
            } else {
                assert(all[all.len() - 1] == i);
            }
        }
        assert forall|a: int, b: int| 0 <= a < b < all.len() implies #[trigger] all[a] < #[trigger] all[b] by {
            if b < before.len() {
                assert(before[a] < before[b]);
            } else {
                assert(all[a] == before[a]);
            }
        }
    }
}

/// A brief goes to a crew member whose work is under way or done, in the
/// vessel and the role that were asked for, and only where no other such
/// member could be meant. A convoy that has landed, failed, been cancelled or
/// been abandoned takes none.
pub proof fn law_briefs_have_one_target(
    name: Seq<char>,
    prompt: Seq<char>,
    convoy: Option<BriefedConvoy>,
    vessel: Option<Seq<char>>,
    role: Option<Seq<char>>,
)
    ensures
        brief_target(name, prompt, convoy, vessel, role) matches Ok(i) ==> {
            &&& (convoy matches Some(c) && 0 <= i < c.work@.len() && c.phase != ConvoyPhase::Landed && c.phase
                != ConvoyPhase::Failed && c.phase != ConvoyPhase::Cancelled && c.phase != ConvoyPhase::Abandoned)
            &&& (convoy->0.work@[i].phase == CrewWorkPhase::Working || convoy->0.work@[i].phase == CrewWorkPhase::Done)
            &&& (vessel matches Some(v) ==> convoy->0.work@[i].vessel@ == v)
            &&& (role matches Some(r) ==> convoy->0.work@[i].role@ == r)
            &&& (forall|k: int|
                0 <= k < convoy->0.work@.len() && k != i && ((#[trigger] convoy->0.work@[k]).phase == CrewWorkPhase::Working
                    || convoy->0.work@[k].phase == CrewWorkPhase::Done) ==> (vessel matches Some(v) && convoy->0.work@[k].vessel@
                    != v) || (role matches Some(r) && convoy->0.work@[k].role@ != r))
        },
{
    if brief_target(name, prompt, convoy, vessel, role) is Ok {
        let work = convoy->0.work@;
        lemma_briefable(work, vessel, role);
        let at = briefable_at(work, vessel, role);
        assert forall|k: int|
            0 <= k < work.len() && k != at[0] && ((#[trigger] work[k]).phase == CrewWorkPhase::Working || work[k].phase
                == CrewWorkPhase::Done) implies (vessel matches Some(v) && work[k].vessel@ != v) || (role matches Some(r)
            && work[k].role@ != r) by {
            if briefable(work[k], vessel, role) {
                assert(at.contains(k));
            }
        }
    }
}

/// The only crew member that a brief could be for is the one it goes to.
pub proof fn law_the_only_target_is_briefed(
    name: Seq<char>,
    prompt: Seq<char>,
    convoy: BriefedConvoy,
    vessel: Option<Seq<char>>,
    role: Option<Seq<char>>,
    i: int,
)
    requires
        exists|c: int| 0 <= c < prompt.len() && 33 <= #[trigger] prompt[c] as u32 <= 126,
        convoy.phase == ConvoyPhase::Pending || convoy.phase == ConvoyPhase::Active || convoy.phase == ConvoyPhase::Interrupted
            || convoy.phase == ConvoyPhase::Anchored || convoy.phase == ConvoyPhase::Landing,
        0 <= i < convoy.work@.len(),
        convoy.work@[i].phase == CrewWorkPhase::Working || convoy.work@[i].phase == CrewWorkPhase::Done,
        vessel matches Some(v) ==> convoy.work@[i].vessel@ == v,
        role matches Some(r) ==> convoy.work@[i].role@ == r,
        forall|k: int|
            0 <= k < convoy.work@.len() && k != i && ((#[trigger] convoy.work@[k]).phase == CrewWorkPhase::Working
                || convoy.work@[k].phase == CrewWorkPhase::Done) ==> (vessel matches Some(v) && convoy.work@[k].vessel@ != v) || (
            role matches Some(r) && convoy.work@[k].role@ != r),
    ensures
        brief_target(name, prompt, Some(convoy), vessel, role) == Ok::<int, Seq<char>>(i),
{
    let c = choose|c: int| 0 <= c < prompt.len() && 33 <= #[trigger] prompt[c] as u32 <= 126;
    lemma_not_blank(prompt, c);
    let work = convoy.work@;
    lemma_briefable(work, vessel, role);
    let at = briefable_at(work, vessel, role);
    assert(briefable(work[i], vessel, role));
    assert(at.contains(i));
    assert forall|k: int| 0 <= k < at.len() implies #[trigger] at[k] == i by {
        assert(briefable(work[at[k]], vessel, role));
    }
    if at.len() > 1 {
        assert(at[0] < at[1]);
    }
    assert(at[0] == i);
}

proof fn lemma_not_blank(s: Seq<char>, c: int)
    requires
        0 <= c < s.len(),
        33 <= s[c] as u32 <= 126,
    ensures
        !crate::text::blank(s),
{
    lemma_trim_start_keeps(s, c);
    let t = crate::text::trim_start(s);
    let k = choose|k: int| 0 <= k < t.len() && 33 <= #[trigger] t[k] as u32 <= 126;
    lemma_trim_end_keeps(t, k);
}

proof fn lemma_trim_start_keeps(s: Seq<char>, c: int)
    requires
        0 <= c < s.len(),
        33 <= s[c] as u32 <= 126,
    ensures
        exists|k: int| 0 <= k < crate::text::trim_start(s).len() && 33 <= #[trigger] crate::text::trim_start(s)[k] as u32 <= 126,
    decreases s.len(),
{
    if crate::text::is_space(s[0]) {
        assert(s.drop_first()[c - 1] == s[c]);
        lemma_trim_start_keeps(s.drop_first(), c - 1);
        assert(crate::text::trim_start(s) == crate::text::trim_start(s.drop_first()));
    } else {
        let t = crate::text::trim_start(s);
        assert(t == s);
        assert(33 <= t[c] as u32 <= 126);
    }
}

proof fn lemma_trim_end_keeps(s: Seq<char>, c: int)
    requires
        0 <= c < s.len(),
        33 <= s[c] as u32 <= 126,
    ensures
        crate::text::trim_end(s).len() > 0,
    decreases s.len(),
{
    if crate::text::is_space(s.last()) {
        assert(s.drop_last()[c] == s[c]);
        lemma_trim_end_keeps(s.drop_last(), c);
    }
}

/// A brief is delivered at once to a crew member that is done, or that rests
/// in a running session; a working one that does not rest keeps its turn. What
/// is delivered goes to the member's own agent session, which is started again
/// exactly where it stopped. A brief that a delivery replaces was for the same
/// member; one that is kept replaces whatever waited.
pub proof fn law_briefs_are_delivered_between_turns(
    r: ResumeStep,
    target: CrewDuty,
    pending: Option<PendingBrief>,
    session: Result<Option<TerminalSession>, String>,
)
    requires
        resume_decided(r, target, pending, session),
    ensures
        r is Queue <==> target.phase == CrewWorkPhase::Working && !(session matches Ok(Some(s)) && (s.status matches Some(status)
            && status.phase == SessionPhase::Running && (status.attention matches Some(a) && a.state == AttentionState::Idle))),
        r matches ResumeStep::Queue { displaced } ==> (displaced is Some == pending is Some) && (pending matches Some(p) ==> displaced->0@
            == p.content@),
        r matches ResumeStep::Deliver { session_name, restart, displaced } ==> {
            &&& (session matches Ok(Some(s)) && s.name@ == session_name@ && s.source is Agent && (s.status matches Some(status)
                ==> status.phase != SessionPhase::Failed))
            &&& restart == (session->Ok_0->0.status matches Some(status) && status.phase == SessionPhase::Stopped)
            &&& (displaced matches Some(d) ==> (pending matches Some(p) && p.vessel@ == target.vessel@ && p.role@ == target.role@
                && p.content@ == d@))
            &&& ((pending matches Some(p) && p.vessel@ == target.vessel@ && p.role@ == target.role@) ==> displaced is Some)
        },
        (target.phase == CrewWorkPhase::Done && (session matches Ok(Some(s)) && s.source is Agent && (s.status matches Some(status)
            ==> status.phase != SessionPhase::Failed))) ==> r is Deliver,
        (session is Err || session == Ok::<Option<TerminalSession>, String>(None)) && target.phase == CrewWorkPhase::Done ==> r is Fail,
{
}

/// A standing turn reaches an agent's session that did not fail, and carries
/// its brief: a stopped session starts again with it, any other finds it as a
/// message, and it is warm exactly where the session runs.
pub proof fn law_standing_turns_carry_their_brief(
    r: Result<TurnDelivery, String>,
    request: TurnDeliveryRequest,
    session: Option<TerminalSession>,
)
    requires
        turn_delivered(r, request, session),
    ensures
        r is Ok <==> (session matches Some(s) && s.source is Agent && (s.status matches Some(status) ==> status.phase
            != SessionPhase::Failed)),
        r matches Ok(d) ==> (if session->0.status matches Some(status) && status.phase == SessionPhase::Stopped {
            d.restart && !d.warm && d.message is None && (d.brief matches Some(b) && b@ == request.brief@)
        } else {
            !d.restart && d.brief is None && (d.message matches Some(m) && m.text@ == request.brief@) && d.warm == (
            session->0.status matches Some(status) && status.phase == SessionPhase::Running)
        }),
{
}

/// Two deliveries of one source and one head have one id, so the second is
/// known for a repetition; another head has another id.
pub proof fn law_repeated_turns_are_recognised(
    one: Result<TurnDelivery, String>,
    other: Result<TurnDelivery, String>,
    first: TurnDeliveryRequest,
    second: TurnDeliveryRequest,
    session: (Option<TerminalSession>, Option<TerminalSession>),
)
    requires
        turn_delivered(one, first, session.0),
        turn_delivered(other, second, session.1),
        first.source@ == second.source@,
        one matches Ok(d) && d.message is Some,
        other matches Ok(d) && d.message is Some,
    ensures
        one->Ok_0.message->0.id@ == other->Ok_0.message->0.id@ <==> first.head_sha@ == second.head_sha@,
{
    let a = "turn-delivery:"@ + first.source@ + ":"@;
    if one->Ok_0.message->0.id@ == other->Ok_0.message->0.id@ {
        assert((a + first.head_sha@).skip(a.len() as int) =~= first.head_sha@);
        assert((a + second.head_sha@).skip(a.len() as int) =~= second.head_sha@);
    }
}

proof fn lemma_held_at(repositories: Seq<HeldRepository>, repo_ref: Seq<char>)
    ensures
        0 <= held_at(repositories, repo_ref) <= repositories.len(),
        held_at(repositories, repo_ref) < repositories.len() ==> repositories[held_at(repositories, repo_ref)].repo_ref@ == repo_ref,
    decreases repositories.len(),
{
    if repositories.len() > 0 && repositories[0].repo_ref@ != repo_ref {
        lemma_held_at(repositories.drop_first(), repo_ref);
    }
}

/// That turns are held is said on the bound change request, and only where its
/// repository is one of the convoy's.
pub proof fn law_holds_are_said_on_the_bound_request(
    r: Result<(String, String, String), String>,
    bound: Option<HeldRequest>,
    repositories: Seq<HeldRepository>,
    body: Seq<char>,
    reason: Seq<char>,
)
    requires
        hold_comment(r, bound, repositories, body, reason),
        r is Ok,
    ensures
        bound matches Some(request) && r->Ok_0.0@ == request.id@ && exists|i: int|
            0 <= i < repositories.len() && (#[trigger] repositories[i]).repo_ref@ == request.repository_ref@
                && (repositories[i].canonical matches Ok(canonical) && forge_scope(canonical@) == Some(r->Ok_0.1@)),
        r->Ok_0.2@ == trim(body) + "\n\n"@ + reason,
{
    lemma_held_at(repositories, bound->0.repository_ref@);
    let at = held_at(repositories, bound->0.repository_ref@);
    assert(repositories[at].repo_ref@ == bound->0.repository_ref@);
}

/// Every completion that an agent's session noted is carried out, and nothing
/// else is.
pub proof fn law_noted_completions_are_carried_out(sessions: Seq<TerminalSession>, i: int)
    requires
        0 <= i < sessions.len(),
    ensures
        completing(sessions).contains(sessions[i]) <==> sessions[i].source is Agent && (sessions[i].status matches Some(status)
            && status.completion_pending is Some),
    decreases sessions.len(),
{
    lemma_completing(sessions);
    if sessions[i].source is Agent && (sessions[i].status matches Some(status) && status.completion_pending is Some) {
        lemma_completing_has(sessions, i);
    }
}

proof fn lemma_completing(sessions: Seq<TerminalSession>)
    ensures
        forall|k: int|
            0 <= k < completing(sessions).len() ==> (#[trigger] completing(sessions)[k]).source is Agent && (completing(
                sessions,
            )[k].status matches Some(status) && status.completion_pending is Some),
    decreases sessions.len(),
{
    if sessions.len() > 0 {
        lemma_completing(sessions.drop_last());
        let before = completing(sessions.drop_last());
        assert forall|k: int| 0 <= k < completing(sessions).len() implies (#[trigger] completing(sessions)[k]).source is Agent && (
        completing(sessions)[k].status matches Some(status) && status.completion_pending is Some) by {
            if k < before.len() {
                assert(completing(sessions)[k] == before[k]);
            }
        }
    }
}

proof fn lemma_completing_has(sessions: Seq<TerminalSession>, i: int)
    requires
        0 <= i < sessions.len(),
        sessions[i].source is Agent,
        sessions[i].status matches Some(status) && status.completion_pending is Some,
    ensures
        completing(sessions).contains(sessions[i]),
    decreases sessions.len(),
{
    let front = sessions.drop_last();
    let before = completing(front);
    if i < front.len() {
        assert(front[i] == sessions[i]);
        lemma_completing_has(front, i);
        let k = choose|k: int| 0 <= k < before.len() && before[k] == sessions[i];
        assert(completing(sessions)[k] == sessions[i]);
    } else {
        assert(completing(sessions)[before.len() as int] == sessions[i]);
    }
}

proof fn lemma_text_at(s: Seq<char>, pat: Seq<char>, n: int)
    requires
        0 <= n < s.len(),
        starts(s.skip(n), pat),
        forall|k: int| 0 <= k < n ==> !starts(#[trigger] s.skip(k), pat),
    ensures
        text_at(s, pat) == n,
    decreases s.len(),
{
    assert(s.skip(0) =~= s);
    if n > 0 {
        let rest = s.drop_first();
        assert(rest.skip(n - 1) =~= s.skip(n));
        assert forall|k: int| 0 <= k < n - 1 implies !starts(#[trigger] rest.skip(k), pat) by {
            assert(rest.skip(k) =~= s.skip(k + 1));
        }
        assert(!starts(s.skip(0), pat));
        lemma_text_at(rest, pat, n - 1);
    }
}

/// The scope of a repository is all of its address behind the host.
pub proof fn law_scopes_follow_the_host(scheme: Seq<char>, host: Seq<char>, scope: Seq<char>)
    requires
        !scheme.contains(':'),
        !host.contains('/'),
    ensures
        forge_scope(scheme + "://"@ + host + "/"@ + scope) == Some(scope),
{
    reveal_strlit("://");
    reveal_strlit("/");
    let s = scheme + "://"@ + host + "/"@ + scope;
    let n = scheme.len() as int;
    assert(s.skip(n).take(3) =~= "://"@);
    assert forall|k: int| 0 <= k < n implies !starts(#[trigger] s.skip(k), "://"@) by {
        if starts(s.skip(k), "://"@) {
            assert(s.skip(k).take(3)[0] == s[k]);
            assert(scheme[k] == ':');
        }
    }
    lemma_text_at(s, "://"@, n);
    let rest = s.skip(n + 3);
    let m = host.len() as int;
    assert(rest =~= host + "/"@ + scope);
    assert(rest[m] == '/');
    crate::text::lemma_first_at(rest, '/');
    let at = crate::text::first_at(rest, '/');
    if at < m {
        assert(rest[at] == host[at]);
    }
    assert(at == m);
    assert(rest.skip(m + 1) =~= scope);
}

/// The brief of a crew member names everyone aboard in order; who is briefed
/// is active in it, and everyone else as they are.
pub proof fn law_briefs_name_everyone_aboard(r: Seq<CrewBriefMember>, members: Seq<CrewListMember>, target: Seq<char>, i: int)
    requires
        mentions(r, members, target),
        0 <= i < members.len(),
    ensures
        r.len() == members.len(),
        r[i].role@ == members[i].role@,
        members[i].role@ == target ==> r[i].state@ == "active"@,
        members[i].role@ != target ==> r[i].state@ == members[i].state@,
        r[i].is_agent <==> members[i].kind@ == "agent"@,
{
    assert(r[i].role@ == members[i].role@);
}

/// A checkout that was adopted is where it is known to be, else where it was to
/// go; the first of its name counts.
pub proof fn law_adopted_checkouts_are_where_they_are(checkouts: Seq<AdoptedCheckoutPath>, name: Seq<char>, i: int)
    requires
        0 <= i < checkouts.len(),
        checkouts[i].name@ == name,
        forall|k: int| 0 <= k < i ==> (#[trigger] checkouts[k]).name@ != name,
    ensures
        checkouts[i].path matches Some(path) ==> adopted_path(checkouts, name) == Some(path@),
        checkouts[i].path is None ==> adopted_path(checkouts, name) == opt(checkouts[i].target_path),
    decreases checkouts.len(),
{
    if i > 0 {
        let rest = checkouts.drop_first();
        assert(checkouts[0].name@ != name);
        assert(rest[i - 1] == checkouts[i]);
        assert forall|k: int| 0 <= k < i - 1 implies (#[trigger] rest[k]).name@ != name by {
            assert(rest[k] == checkouts[k + 1]);
        }
        law_adopted_checkouts_are_where_they_are(rest, name, i - 1);
    }
}

/// The roots of a brief are the places of the adopted checkouts of its
/// repositories, in their order; one that is not adopted adds none.
pub proof fn law_briefs_start_in_their_checkouts(
    repositories: Seq<Seq<char>>,
    next: Seq<char>,
    adopted: Map<Seq<char>, Seq<char>>,
    checkouts: Seq<AdoptedCheckoutPath>,
)
    ensures
        brief_roots(Seq::empty(), adopted, checkouts).len() == 0,
        !adopted.dom().contains(next) ==> brief_roots(repositories.push(next), adopted, checkouts) == brief_roots(
            repositories,
            adopted,
            checkouts,
        ),
        adopted.dom().contains(next) && adopted_path(checkouts, adopted[next]) is Some ==> brief_roots(
            repositories.push(next),
            adopted,
            checkouts,
        ) == brief_roots(repositories, adopted, checkouts).push(adopted_path(checkouts, adopted[next])->0),
{
    assert(repositories.push(next).drop_last() =~= repositories);
}

/// What is carried out for a session that noted a completion is done in its
/// own name: it speaks as its own role, aboard its own vessel, and says what it
/// noted.
pub proof fn law_completions_are_carried_out_in_their_own_name(p: PendingCompletion, s: TerminalSession)
    requires
        completion_of(p, s),
    ensures
        p.session_name@ == s.name@,
        s.status matches Some(status) && (status.completion_pending matches Some(noted) && noted@ == p.completion@),
        p.context.crew_id is None,
        p.context.role matches Some(role) && role@ == s.role@,
        s.source matches SessionSource::Agent { namespace, convoy, vessel_ref } && (p.context.namespace matches Some(n) && n@ == namespace@)
            && (p.context.convoy matches Some(c) && c@ == convoy@) && (p.context.vessel_ref matches Some(v) && v@ == vessel_ref@),
{
}

} // verus!
