//! Handoffs to a crew member that has no session yet: the session that is
//! started for it.
use vstd::prelude::*;

use crate::admission::{copy_inputs, input_views};
use crate::crew::{
    crew_handoff_message, handoff_target, handoff_text, handoff_to, process_at, vessel_at, CrewDuty, CrewProcess, CrewedVessel,
    HandoffTarget, ResolvedCrewContext,
};
use crate::messages::{
    id_char, pending_crew_message, scope_views, terminal_meta_with_vessel_credentials, with_credentials, CredentialAnnotationNames,
    CrewMessage,
};
use crate::ordered::{text_map, OrderedMap};
use crate::text::strs;
use crate::workflow::AgentSelector;

verus! {

/// Where a session runs.
#[derive(Debug, PartialEq, Eq)]
pub struct SessionAnchor {
    pub env_ref: String,
    pub cwd: String,
    pub pool: String,
}

/// Which crew member a session is for.
#[derive(Debug, PartialEq, Eq)]
pub struct SessionIdentity {
    pub vessel_ref: String,
    pub convoy: String,
    pub vessel: String,
    pub role: String,
    pub vessel_index: usize,
    pub crew_index: usize,
    pub labels: Vec<(String, String)>,
}

/// What an agent is told of where it is.
#[derive(Debug, PartialEq, Eq)]
pub struct AgentContext {
    pub namespace: String,
    pub convoy: String,
    pub vessel_ref: String,
}

/// A session that is started for an agent, with the brief it was given.
#[derive(Debug)]
pub struct AgentSession<B> {
    pub identity: SessionIdentity,
    pub annotations: OrderedMap<String>,
    pub env_ref: String,
    pub role: String,
    pub selector: AgentSelector,
    pub brief: B,
    pub context: AgentContext,
    pub message: CrewMessage,
    pub cwd: String,
    pub pool: String,
}

/// `s` is for a crew member, by its place in the crew.
pub open spec fn identifies(
    s: SessionIdentity,
    context: ResolvedCrewContext,
    process: CrewProcess,
    vessel_index: int,
    crew_index: int,
) -> bool {
    &&& s.vessel_ref@ == context.vessel_ref@
    &&& s.convoy@ == context.convoy@
    &&& s.vessel@ == context.vessel@
    &&& s.role@ == process.role@
    &&& s.vessel_index == vessel_index
    &&& s.crew_index == crew_index
    &&& input_views(s.labels@) == input_views(process.labels@)
}

/// `s` runs where its anchor does, as an agent of its own kind, aboard the
/// vessel of the caller, and finds the message of the handoff there.
pub open spec fn hands_over<B>(
    s: AgentSession<B>,
    context: ResolvedCrewContext,
    vessel: CrewedVessel,
    process: CrewProcess,
    anchor: SessionAnchor,
    message: Seq<char>,
    annotations: Map<Seq<char>, Seq<char>>,
    names: CredentialAnnotationNames,
    brief: B,
) -> bool {
    &&& s.env_ref@ == anchor.env_ref@
    &&& s.cwd@ == anchor.cwd@
    &&& s.pool@ == anchor.pool@
    &&& s.role@ == process.role@
    &&& process.agent == Some(s.selector)
    &&& s.brief == brief
    &&& s.context.namespace@ == context.namespace@
    &&& s.context.convoy@ == context.convoy@
    &&& s.context.vessel_ref@ == context.vessel_ref@
    &&& s.message.text@ == handoff_text(context, message)
    &&& s.message.id@.len() == 36
    &&& forall|i: int| 0 <= i < s.message.id@.len() ==> id_char(#[trigger] s.message.id@[i], i)
    &&& text_map(s.annotations@) == with_credentials(
        annotations,
        names,
        strs(vessel.credential_refs@),
        scope_views(vessel.credential_scopes@),
    )
}

/// The session that a handoff starts for a crew member that has none, beside
/// `anchor`. `annotations` are those that any session has, and `brief` is what
/// the crew member is told at its start.
pub fn handoff_session<B>(
    context: &ResolvedCrewContext,
    target: &str,
    vessels: &Vec<CrewedVessel>,
    work: &Vec<CrewDuty>,
    anchor: &SessionAnchor,
    message: &str,
    annotations: OrderedMap<String>,
    names: &CredentialAnnotationNames,
    brief: B,
) -> (r: Result<AgentSession<B>, String>)
    ensures
        match r {
            Err(e) => handoff_to(Err(e), *context, target@, vessels@, work@),
            Ok(s) => {
                let at = vessel_at(vessels@, context.vessel@);
                let k = process_at(vessels@[at].crew@, target@);
                &&& handoff_to(
                    Ok(HandoffTarget { vessel_index: s.identity.vessel_index, crew_index: s.identity.crew_index }),
                    *context,
                    target@,
                    vessels@,
                    work@,
                )
                &&& s.role@ == target@
                &&& identifies(s.identity, *context, vessels@[at].crew@[k], at, k)
                &&& hands_over(
                    s,
                    *context,
                    vessels@[at],
                    vessels@[at].crew@[k],
                    *anchor,
                    message@,
                    text_map(annotations@),
                    *names,
                    brief,
                )
            },
        },
{
    let t = match handoff_target(context, target, vessels, work) {
        Err(e) => {
            return Err(e);
        },
        Ok(t) => t,
    };
    proof {
        crate::crew::law_handoffs_stay_in_the_crew(Ok(t), *context, target@, vessels@, work@);
    }
    let vessel = &vessels[t.vessel_index];
    let process = &vessel.crew[t.crew_index];
    let selector = match &process.agent {
        Some(selector) => selector.copy(),
        None => {
            return Err(crate::text::concat3("crew target `", target, "` is a tool process and cannot receive a handoff"));
        },
    };
    let mut noted = annotations;
    terminal_meta_with_vessel_credentials(&mut noted, names, &vessel.credential_refs, &vessel.credential_scopes);
    let text = crew_handoff_message(context, message);
    Ok(
        AgentSession {
            identity: SessionIdentity {
                vessel_ref: context.vessel_ref.clone(),
                convoy: context.convoy.clone(),
                vessel: context.vessel.clone(),
                role: target.to_owned(),
                vessel_index: t.vessel_index,
                crew_index: t.crew_index,
                labels: copy_inputs(&process.labels),
            },
            annotations: noted,
            env_ref: anchor.env_ref.clone(),
            role: target.to_owned(),
            selector,
            brief,
            context: AgentContext {
                namespace: context.namespace.clone(),
                convoy: context.convoy.clone(),
                vessel_ref: context.vessel_ref.clone(),
            },
            message: pending_crew_message(text.as_str()),
            cwd: anchor.cwd.clone(),
            pool: anchor.pool.clone(),
        },
    )
}

/// The crew of a vessel shares its credentials: whoever is started aboard it
/// has the same ones noted.
pub proof fn law_crews_share_their_credentials<B>(
    one: AgentSession<B>,
    other: AgentSession<B>,
    context: (ResolvedCrewContext, ResolvedCrewContext),
    vessel: CrewedVessel,
    process: (CrewProcess, CrewProcess),
    anchor: (SessionAnchor, SessionAnchor),
    message: (Seq<char>, Seq<char>),
    annotations: Map<Seq<char>, Seq<char>>,
    names: CredentialAnnotationNames,
    brief: (B, B),
)
    requires
        hands_over(one, context.0, vessel, process.0, anchor.0, message.0, annotations, names, brief.0),
        hands_over(other, context.1, vessel, process.1, anchor.1, message.1, annotations, names, brief.1),
    ensures
        text_map(one.annotations@) == text_map(other.annotations@),
{
}

} // verus!
